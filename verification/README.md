# chaos_fortress

The rules of Chaos Fortress, a tower-defence game, as a verified library.

- `src/` is the library, written in Verus: the data-file formats (attribute
  and dropped-item CSV files, the tables of skill files), attributes and
  their modifiers, skills and their run state, money and the shop,
  collision layers and the lists of enemies in range, the map grid, the
  archer's idle/combat rule and the enemy spawner. Each public function's
  contract states its result; the `law_*` proof functions state what holds
  across calls.
- `tests/` runs the library on concrete inputs.
- `app/` is the game itself on the Bevy engine: plugins, systems, asset
  loading, UI, and the floating-point arithmetic of attributes and damage.
  It calls the library for every decision that the library can make.

Numbers that the game reads as floating point travel through the library
as checked text (`FloatLiteral`) or as a type parameter, so that the
library's contracts speak only of values Verus can reason about.
