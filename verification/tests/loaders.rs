use chaos_fortress::attribute::loader::parse_csv as parse_attribute_csv;
use chaos_fortress::csv::CsvError;
use chaos_fortress::dropped_items::loader::parse_csv as parse_dropped_csv;
use chaos_fortress::text::{FloatErrorKind, IntErrorKind};

const ATTRIBUTE_COLUMNS: [&str; 4] = ["name", "base", "min", "max"];
const DROPPED_COLUMNS: [&str; 5] = ["name", "item_type", "min_amount", "max_amount", "weight"];

fn value(text: &str) -> f32 {
    text.parse::<f32>().unwrap()
}

#[test]
fn parse_valid_csv() {
    let csv = "\
name,base,min,max
hp,100,0,100
max_hp,100,0,3.40282347e+38
armor,30,0,3.40282347e+38
";
    let template = parse_attribute_csv(csv).unwrap();
    assert_eq!(template.definitions.len(), 3);

    let hp = template.definitions.get("hp").unwrap();
    assert_eq!(hp.name, "hp");
    assert_eq!(value(hp.base.as_str()), 100.0);
    assert_eq!(value(hp.min.as_str()), 0.0);
    assert_eq!(value(hp.max.as_str()), 100.0);

    let max_hp = template.definitions.get("max_hp").unwrap();
    assert_eq!(value(max_hp.base.as_str()), 100.0);
    assert_eq!(value(max_hp.min.as_str()), 0.0);
    assert_eq!(value(max_hp.max.as_str()), f32::MAX);

    let armor = template.definitions.get("armor").unwrap();
    assert_eq!(value(armor.base.as_str()), 30.0);
    assert_eq!(value(armor.min.as_str()), 0.0);
    assert_eq!(value(armor.max.as_str()), f32::MAX);
}

#[test]
fn parse_csv_header_only() {
    let csv = "name,base,min,max\n";
    let template = parse_attribute_csv(csv).unwrap();
    assert!(template.definitions.is_empty());
}

#[test]
fn parse_csv_empty_content() {
    let csv = "";
    let template = parse_attribute_csv(csv).unwrap();
    assert!(template.definitions.is_empty());
}

#[test]
fn parse_csv_wrong_column_count() {
    let csv = "name,base,min,max\nhp,100,0\n";
    let result = parse_attribute_csv(csv);
    assert!(result.is_err());
    let err = result.err().unwrap();
    assert!(err.message(&ATTRIBUTE_COLUMNS).contains("expected 4 columns"));
    assert_eq!(err.message(&ATTRIBUTE_COLUMNS), "line 2: expected 4 columns (name,base,min,max), got 3");
    assert!(matches!(err, CsvError::ColumnCount { line: 2, expected: 4, found: 3 }));
}

#[test]
fn parse_csv_invalid_number() {
    let csv = "name,base,min,max\nhp,abc,0,100\n";
    let result = parse_attribute_csv(csv);
    assert!(result.is_err());
    let err = result.err().unwrap();
    assert!(err.message(&ATTRIBUTE_COLUMNS).contains("invalid `base` value"));
    assert_eq!(err.message(&ATTRIBUTE_COLUMNS), "line 2: invalid `base` value 'abc': invalid float literal");
    match err {
        CsvError::InvalidFloat { line, column, text, kind } => {
            assert_eq!(line, 2);
            assert_eq!(column, 1);
            assert_eq!(text, "abc");
            assert_eq!(kind, FloatErrorKind::Invalid);
        }
        other => panic!("unexpected error {:?}", other),
    }
}

#[test]
fn parse_csv_skips_blank_lines() {
    let csv = "\
name,base,min,max

hp,100,0,100

armor,30,0,3.40282347e+38
";
    let template = parse_attribute_csv(csv).unwrap();
    assert_eq!(template.definitions.len(), 2);
}

#[test]
fn parse_csv_trims_whitespace() {
    let csv = "name,base,min,max\n  hp  ,  100  ,  0  ,  100  \n";
    let template = parse_attribute_csv(csv).unwrap();
    let hp = template.definitions.get("hp").unwrap();
    assert_eq!(value(hp.base.as_str()), 100.0);
}

#[test]
fn parse_csv_duplicate_name_replaces() {
    let csv = "\
name,base,min,max
hp,100,0,100
hp,200,0,500
";
    let template = parse_attribute_csv(csv).unwrap();
    assert_eq!(template.definitions.len(), 1);
    let hp = template.definitions.get("hp").unwrap();
    assert_eq!(value(hp.base.as_str()), 200.0);
    assert_eq!(value(hp.max.as_str()), 500.0);
}

#[test]
fn attribute_csv_first_faulty_line_wins() {
    // The bad number on line 2 is reported before the bad column count on line 3.
    let csv = "name,base,min,max\nhp,1,0,x\nmp,1\n";
    match parse_attribute_csv(csv).err().unwrap() {
        CsvError::InvalidFloat { line, column, .. } => {
            assert_eq!(line, 2);
            assert_eq!(column, 3);
        }
        other => panic!("unexpected error {:?}", other),
    }
    // An empty column is an empty float text.
    match parse_attribute_csv("h\nhp,,0,1\n").err().unwrap() {
        CsvError::InvalidFloat { line, column, kind, .. } => {
            assert_eq!(line, 2);
            assert_eq!(column, 1);
            assert_eq!(kind, FloatErrorKind::Empty);
        }
        other => panic!("unexpected error {:?}", other),
    }
}

#[test]
fn attribute_csv_crlf_and_header_content() {
    // The first line is a header whatever it holds; CRLF endings are trimmed.
    let csv = "hp,1,2,3\r\nmp,4,5,6\r\n";
    let template = parse_attribute_csv(csv).unwrap();
    assert_eq!(template.definitions.len(), 1);
    let mp = template.definitions.get("mp").unwrap();
    assert_eq!(value(mp.max.as_str()), 6.0);
    assert!(template.definitions.get("hp").is_none());
}

#[test]
fn loader_parse_valid_csv() {
    let csv = "\
name,item_type,min_amount,max_amount,weight
gold,gold,1,10,100.0
exp,exp,5,20,80.0
wood,material,1,3,40.0
";
    let template = parse_dropped_csv(csv).unwrap();
    assert_eq!(template.definitions.len(), 3);

    let gold = template.definitions.get("gold").unwrap();
    assert_eq!(gold.name, "gold");
    assert_eq!(gold.item_type, "gold");
    assert_eq!(gold.min_amount, 1);
    assert_eq!(gold.max_amount, 10);
    assert_eq!(value(gold.weight.as_str()), 100.0);

    let exp = template.definitions.get("exp").unwrap();
    assert_eq!(exp.name, "exp");
    assert_eq!(exp.item_type, "exp");
    assert_eq!(exp.min_amount, 5);
    assert_eq!(exp.max_amount, 20);
    assert_eq!(value(exp.weight.as_str()), 80.0);

    let wood = template.definitions.get("wood").unwrap();
    assert_eq!(wood.name, "wood");
    assert_eq!(wood.item_type, "material");
    assert_eq!(wood.min_amount, 1);
    assert_eq!(wood.max_amount, 3);
    assert_eq!(value(wood.weight.as_str()), 40.0);
}

#[test]
fn loader_parse_csv_header_only() {
    let csv = "name,item_type,min_amount,max_amount,weight\n";
    let template = parse_dropped_csv(csv).unwrap();
    assert!(template.definitions.is_empty());
}

#[test]
fn loader_parse_csv_empty_content() {
    let csv = "";
    let template = parse_dropped_csv(csv).unwrap();
    assert!(template.definitions.is_empty());
}

#[test]
fn loader_parse_csv_wrong_column_count() {
    let csv = "name,item_type,min_amount,max_amount,weight\ngold,gold,1,10\n";
    let result = parse_dropped_csv(csv);
    assert!(result.is_err());
    let err = result.err().unwrap();
    assert!(err.message(&DROPPED_COLUMNS).contains("expected 5 columns"));
    assert_eq!(
        err.message(&DROPPED_COLUMNS),
        "line 2: expected 5 columns (name,item_type,min_amount,max_amount,weight), got 4"
    );
    assert!(matches!(err, CsvError::ColumnCount { line: 2, expected: 5, found: 4 }));
}

#[test]
fn loader_parse_csv_invalid_number() {
    let csv = "name,item_type,min_amount,max_amount,weight\ngold,gold,abc,10,100.0\n";
    let result = parse_dropped_csv(csv);
    assert!(result.is_err());
    let err = result.err().unwrap();
    assert!(err.message(&DROPPED_COLUMNS).contains("invalid `min_amount` value"));
    assert_eq!(
        err.message(&DROPPED_COLUMNS),
        "line 2: invalid `min_amount` value 'abc': invalid digit found in string"
    );
    match err {
        CsvError::InvalidInteger { line, column, text, kind } => {
            assert_eq!(line, 2);
            assert_eq!(column, 2);
            assert_eq!(text, "abc");
            assert_eq!(kind, IntErrorKind::InvalidDigit);
        }
        other => panic!("unexpected error {:?}", other),
    }
}

#[test]
fn loader_parse_csv_skips_blank_lines() {
    let csv = "\
name,item_type,min_amount,max_amount,weight

gold,gold,1,10,100.0

wood,material,1,3,40.0
";
    let template = parse_dropped_csv(csv).unwrap();
    assert_eq!(template.definitions.len(), 2);
}

#[test]
fn loader_parse_csv_trims_whitespace() {
    let csv =
        "name,item_type,min_amount,max_amount,weight\n  gold  ,  gold  ,  1  ,  10  ,  100.0  \n";
    let template = parse_dropped_csv(csv).unwrap();
    let gold = template.definitions.get("gold").unwrap();
    assert_eq!(gold.min_amount, 1);
    assert_eq!(gold.max_amount, 10);
    assert_eq!(value(gold.weight.as_str()), 100.0);
}

#[test]
fn loader_parse_csv_duplicate_name_replaces() {
    let csv = "\
name,item_type,min_amount,max_amount,weight
gold,gold,1,10,100.0
gold,gold,5,20,200.0
";
    let template = parse_dropped_csv(csv).unwrap();
    assert_eq!(template.definitions.len(), 1);
    let gold = template.definitions.get("gold").unwrap();
    assert_eq!(gold.min_amount, 5);
    assert_eq!(gold.max_amount, 20);
    assert_eq!(value(gold.weight.as_str()), 200.0);
}

#[test]
fn dropped_csv_integer_errors() {
    let overflow = "h\ngold,gold,1,4294967296,1\n";
    match parse_dropped_csv(overflow).err().unwrap() {
        CsvError::InvalidInteger { line, column, kind, .. } => {
            assert_eq!((line, column), (2, 3));
            assert_eq!(kind, IntErrorKind::PosOverflow);
        }
        other => panic!("unexpected error {:?}", other),
    }
    let plus = "h\ngold,gold,+7,4294967295,1e3\n";
    let template = parse_dropped_csv(plus).unwrap();
    let gold = template.definitions.get("gold").unwrap();
    assert_eq!(gold.min_amount, 7);
    assert_eq!(gold.max_amount, u32::MAX);
    assert_eq!(value(gold.weight.as_str()), 1000.0);
    let weight = "h\ngold,gold,1,2,heavy\n";
    assert!(matches!(
        parse_dropped_csv(weight).err().unwrap(),
        CsvError::InvalidFloat { line: 2, column: 4, kind: FloatErrorKind::Invalid, .. }
    ));
}

#[test]
fn csv_messages_for_every_reason() {
    let big = CsvError::ColumnCount { line: 1204, expected: 4, found: 10 };
    assert_eq!(big.message(&ATTRIBUTE_COLUMNS), "line 1204: expected 4 columns (name,base,min,max), got 10");
    let empty_float = CsvError::InvalidFloat { line: 3, column: 3, text: String::new(), kind: FloatErrorKind::Empty };
    assert_eq!(
        empty_float.message(&ATTRIBUTE_COLUMNS),
        "line 3: invalid `max` value '': cannot parse float from empty string"
    );
    let empty_int = CsvError::InvalidInteger { line: 7, column: 3, text: String::new(), kind: IntErrorKind::Empty };
    assert_eq!(
        empty_int.message(&DROPPED_COLUMNS),
        "line 7: invalid `max_amount` value '': cannot parse integer from empty string"
    );
    let overflow = CsvError::InvalidInteger {
        line: 90,
        column: 2,
        text: "4294967296".to_string(),
        kind: IntErrorKind::PosOverflow,
    };
    assert_eq!(
        overflow.message(&DROPPED_COLUMNS),
        "line 90: invalid `min_amount` value '4294967296': number too large to fit in target type"
    );
    // The reasons are those that std gives for the same texts.
    assert_eq!("".parse::<f32>().unwrap_err().to_string(), "cannot parse float from empty string");
    assert_eq!("abc".parse::<f32>().unwrap_err().to_string(), "invalid float literal");
    assert_eq!("".parse::<u32>().unwrap_err().to_string(), "cannot parse integer from empty string");
    assert_eq!("abc".parse::<u32>().unwrap_err().to_string(), "invalid digit found in string");
    assert_eq!("4294967296".parse::<u32>().unwrap_err().to_string(), "number too large to fit in target type");
}
