use chaos_fortress::text::{
    chars_of, check_float_range, is_whitespace, line_ranges, parse_u32_range, split_range,
    trim_range, FloatErrorKind, FloatLiteral, IntErrorKind,
};

fn piece(s: &[char], r: (usize, usize)) -> String {
    s[r.0..r.1].iter().collect()
}

const SAMPLES: &[&str] = &[
    "", " ", "a", "  a  ", "\t\na b\r\n", "\u{a0}x\u{3000}", "\u{2028}\u{2029}", "\u{85}y\u{1680}",
    "a,b,,c", ",", ",,", "a\nb\n", "a\n\nb", "\n", "\n\n", "x\r\ny\r\n", "é, ü ,ß",
];

#[test]
fn whitespace_matches_std() {
    for c in (0u32..0x3100).filter_map(char::from_u32) {
        assert_eq!(is_whitespace(c), c.is_whitespace(), "{:?}", c);
    }
}

#[test]
fn trim_matches_std() {
    for s in SAMPLES {
        let v = chars_of(s);
        let r = trim_range(&v, 0, v.len());
        assert_eq!(piece(&v, r), s.trim());
    }
}

#[test]
fn split_matches_std() {
    for s in SAMPLES {
        let v = chars_of(s);
        let got: Vec<String> = split_range(&v, 0, v.len(), ',').into_iter().map(|r| piece(&v, r)).collect();
        let want: Vec<String> = s.split(',').map(|p| p.to_string()).collect();
        assert_eq!(got, want, "{:?}", s);
    }
}

#[test]
fn lines_match_std_after_trim() {
    for s in SAMPLES {
        let v = chars_of(s);
        let got: Vec<String> = line_ranges(&v).into_iter().map(|r| piece(&v, r).trim().to_string()).collect();
        let want: Vec<String> = s.lines().map(|l| l.trim().to_string()).collect();
        assert_eq!(got, want, "{:?}", s);
    }
}

#[test]
fn u32_parse_matches_std() {
    let cases = [
        "", "+", "-", "0", "7", "+7", "-7", "007", "4294967295", "4294967296", "99999999999x",
        "12a", "a12", "1 2", "++1", "+-1", "18446744073709551616",
    ];
    for s in cases {
        let v = chars_of(s);
        let got = parse_u32_range(&v, 0, v.len());
        let want = s.parse::<u32>().map_err(|e| match e.kind() {
            std::num::IntErrorKind::Empty => IntErrorKind::Empty,
            std::num::IntErrorKind::InvalidDigit => IntErrorKind::InvalidDigit,
            std::num::IntErrorKind::PosOverflow => IntErrorKind::PosOverflow,
            other => panic!("unexpected kind {:?}", other),
        });
        assert_eq!(got, want, "{:?}", s);
    }
}

#[test]
fn float_syntax_matches_std() {
    let cases = [
        "", "+", "-", ".", "1", "1.", ".5", "1.5", "+1.5", "-0.0", "1e3", "1E3", "1e+3", "1e-3",
        "1e", "1e+", "e3", ".e3", "1.e3", ".5e3", "1.5.2", "inf", "-inf", "INF", "Infinity",
        "infinit", "infinityy", "nan", "NaN", "+nan", "-NAN", "abc", "1a", "1 ", " 1", "3.40282347e+38",
        "1e400", "0x10", "1_000", "١", "1,5", "--1", "+-1", "1ee3", "1e3.5",
    ];
    for s in cases {
        let v = chars_of(s);
        let got = check_float_range(&v, 0, v.len()).is_ok();
        assert_eq!(got, s.parse::<f32>().is_ok(), "{:?}", s);
        if s.is_empty() {
            assert_eq!(check_float_range(&v, 0, 0), Err(FloatErrorKind::Empty));
        }
    }
}

#[test]
fn float_literal_keeps_text() {
    let f = FloatLiteral::parse("2.5e1").ok().unwrap();
    assert_eq!(f.as_str(), "2.5e1");
    assert_eq!(f.as_str().parse::<f32>().unwrap(), 25.0);
    assert_eq!(FloatLiteral::parse("x").err(), Some(FloatErrorKind::Invalid));
    assert_eq!(FloatLiteral::parse("").err(), Some(FloatErrorKind::Empty));
}
