use avi_core::slot_extractor::ExtractedSlots;

fn sample() -> ExtractedSlots {
    let mut found = ExtractedSlots::new("book_flight".to_string());
    found.insert("origin".to_string(), "london".to_string());
    found.insert("count".to_string(), "42".to_string());
    found.insert("flag".to_string(), "true".to_string());
    found
}

fn strings(items: &[&str]) -> Vec<String> {
    items.iter().map(|s| s.to_string()).collect()
}

#[test]
fn new_result_is_empty() {
    let found = ExtractedSlots::new("greet".to_string());
    assert_eq!(found.get_name(), "greet");
    assert_eq!(found.count(), 0);
    assert!(found.get_slots().is_empty());
}

#[test]
fn insert_appends_or_replaces_in_place() {
    let mut found = sample();
    assert_eq!(found.count(), 3);
    found.insert("origin".to_string(), "paris".to_string());
    assert_eq!(found.count(), 3);
    assert_eq!(
        found.get_slots(),
        vec![
            ("origin".to_string(), "paris".to_string()),
            ("count".to_string(), "42".to_string()),
            ("flag".to_string(), "true".to_string()),
        ]
    );
    assert_eq!(found.get_name(), "book_flight");
}

#[test]
fn get_gives_the_value_or_the_empty_text() {
    let found = sample();
    assert_eq!(found.get("origin"), "london");
    assert_eq!(found.get("destination"), "");
    assert_eq!(found.get_raw("count"), "42");
    assert_eq!(found.get_raw("missing"), "");
    assert_eq!(found.optional("flag"), "true");
    assert_eq!(found.optional("missing"), "");
    assert_eq!(found.obj("origin"), "london");
    assert_eq!(found.obj("missing"), "");
}

#[test]
fn require_gives_the_value() {
    assert_eq!(sample().require("origin"), "london");
}

#[test]
fn has_both_needs_both_slots() {
    let found = sample();
    assert!(found.has_both("origin", "count"));
    assert!(found.has_both("origin", "origin"));
    assert!(!found.has_both("origin", "destination"));
    assert!(!found.has_both("destination", "origin"));
    assert!(!found.has_both("x", "y"));
}

#[test]
fn equal_compares_exactly() {
    let found = sample();
    assert!(found.equal("origin", "london"));
    assert!(!found.equal("origin", "London"));
    assert!(!found.equal("origin", ""));
    assert!(!found.equal("missing", ""));
}

#[test]
fn in_list_and_in_dict_look_for_the_value() {
    let found = sample();
    assert!(found.in_list("origin", &strings(&["paris", "london"])));
    assert!(!found.in_list("origin", &strings(&["paris", "rome"])));
    assert!(!found.in_list("origin", &vec![]));
    assert!(!found.in_list("missing", &strings(&[""])));
    assert!(found.in_dict("count", &strings(&["41", "42"])));
    assert!(!found.in_dict("count", &strings(&["count"])));
    assert!(!found.in_dict("missing", &strings(&["42"])));
}

#[test]
fn match_pattern_searches_the_value() {
    let found = sample();
    assert!(found.match_pattern("origin", "^lon"));
    assert!(found.match_pattern("origin", "do"));
    assert!(!found.match_pattern("origin", "^don"));
    assert!(!found.match_pattern("origin", "LONDON"));
    assert!(found.match_pattern("count", r"^\d+$"));
    assert!(!found.match_pattern("origin", "("));
    assert!(!found.match_pattern("missing", ".*"));
}

#[test]
fn is_type_int() {
    let mut found = ExtractedSlots::new("t".to_string());
    for (i, text) in ["42", "-7", "+7", "0", "9223372036854775807", "-9223372036854775808", "007"]
        .iter()
        .enumerate()
    {
        found.insert(format!("ok{i}"), text.to_string());
        assert!(found.is_type(&format!("ok{i}"), "int"), "{text}");
    }
    for (i, text) in [
        "", "+", "-", " 42", "42 ", "4 2", "4.2", "1e3", "0x10", "9223372036854775808",
        "-9223372036854775809", "--1", "٤٢", "abc",
    ]
    .iter()
    .enumerate()
    {
        found.insert(format!("bad{i}"), text.to_string());
        assert!(!found.is_type(&format!("bad{i}"), "int"), "{text}");
    }
    assert!(!found.is_type("missing", "int"));
}

#[test]
fn is_type_bool_string_and_unknown() {
    let found = sample();
    assert!(found.is_type("flag", "bool"));
    assert!(!found.is_type("origin", "bool"));
    assert!(!found.is_type("count", "bool"));
    assert!(found.is_type("origin", "string"));
    assert!(found.is_type("count", "string"));
    assert!(!found.is_type("missing", "string"));
    assert!(!found.is_type("origin", "text"));
    assert!(!found.is_type("origin", ""));
    let mut other = ExtractedSlots::new("t".to_string());
    other.insert("a".to_string(), "false".to_string());
    other.insert("b".to_string(), "True".to_string());
    assert!(other.is_type("a", "bool"));
    assert!(!other.is_type("b", "bool"));
}

#[test]
fn is_type_float_agrees_with_the_float_parser() {
    let texts = [
        "1", "42", "007", "-7", "+7", "1.5", "1.", ".5", "-.5", "+.5e3", "1e5", "1E5", "1e+5",
        "1e-5", "1.e5", ".5E-10", "0.0", "123456789012345678901234567890", "1e400", "1e-400",
        "inf", "INF", "+inf", "-Infinity", "infinity", "InFiNiTy", "nan", "NaN", "-nan", "+NAN",
        "", "+", "-", ".", "+.", "e5", ".e5", "1e", "1e+", "1e-", "1e5.0", "1.5.2", "1..5",
        "--1", "+-1", "1+", " 1", "1 ", "1_000", "0x10", "1f", "1.5f64", "in", "infinit",
        "infinityy", "na", "nann", "i", "abc", "1e5e5", "1,5", "٤٢", "e", "E", "1E", "++inf",
        "inf.", "nan1",
    ];
    let mut found = ExtractedSlots::new("t".to_string());
    for (i, text) in texts.iter().enumerate() {
        let slot = format!("s{i}");
        found.insert(slot.clone(), text.to_string());
        assert_eq!(
            found.is_type(&slot, "float"),
            text.parse::<f64>().is_ok(),
            "{text:?}"
        );
    }
    assert!(found.is_type("s2", "float"));
    assert!(!found.is_type("missing", "float"));
}

#[test]
fn is_float_by_the_grammar() {
    for text in ["1", "1.5", ".5", "5.", "-1e-3", "+INF", "nan"] {
        assert!(avi_core::text::is_float(text), "{text:?}");
    }
    for text in ["", ".", "1e", "e1", "1.5.2", "one"] {
        assert!(!avi_core::text::is_float(text), "{text:?}");
    }
}

#[test]
fn is_i64_agrees_with_the_integer_parser() {
    let texts = [
        "0", "7", "42", "007", "-7", "+7", "-0", "+0", "9223372036854775807",
        "9223372036854775808", "-9223372036854775808", "-9223372036854775809",
        "+9223372036854775807", "+9223372036854775808", "18446744073709551615",
        "18446744073709551616", "99999999999999999999999999", "-99999999999999999999999999",
        "000000000000000000000000000000042", "", "+", "-", "--1", "+-1", "-+1", "1-", "1+",
        " 1", "1 ", "1.0", "1e3", "0x10", "1_000", "a", "12a", "a12", "٤٢", "１２",
        "92233720368547758070", "9223372036854775807a",
    ];
    for text in texts {
        assert_eq!(
            avi_core::text::is_i64(text),
            text.parse::<i64>().is_ok(),
            "{text:?}"
        );
    }
    assert!(avi_core::text::is_i64("-9223372036854775808"));
    assert!(!avi_core::text::is_i64("9223372036854775808"));
}
