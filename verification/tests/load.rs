use avi_core::engine::IntentEngine;
use avi_core::intent::{IntentFile, LoadError, SlotShape};
use avi_core::recognizer::Recognizer;
use avi_core::slot::{DefaultSlotManager, SlotDefinition, Verbatim};

fn strings(items: &[&str]) -> Vec<String> {
    items.iter().map(|s| s.to_string()).collect()
}

fn declaration(intent: &str, patterns: &[&str], regexes: &[&str]) -> IntentFile {
    IntentFile {
        intent: intent.to_string(),
        patterns: strings(patterns),
        regex_patterns: strings(regexes),
        slots: vec![],
    }
}

fn with_slots(mut file: IntentFile, slots: Vec<(&str, SlotShape)>) -> IntentFile {
    file.slots = slots.into_iter().map(|(n, s)| (n.to_string(), s)).collect();
    file
}

#[test]
fn declaration_needs_a_name_and_a_pattern() {
    assert!(declaration("a", &["x"], &[]).is_valid());
    assert!(declaration("a", &[], &["x"]).is_valid());
    assert!(declaration("a", &["x"], &["y"]).is_valid());
    assert!(!declaration("a", &[], &[]).is_valid());
    assert!(!declaration("", &["x"], &[]).is_valid());
    assert!(!declaration("", &[], &[]).is_valid());
}

#[test]
fn new_engine_has_the_builtin_defaults_and_no_intents() {
    let engine = IntentEngine::new();
    assert!(engine.intents.is_empty());
    assert!(matches!(
        engine.default_slots.get("locations"),
        Some(SlotDefinition::Enumeration { values }) if *values == strings(&["new york", "london", "paris", "tokyo"])
    ));
    assert!(matches!(
        engine.default_slots.get("dates"),
        Some(SlotDefinition::CatchProcess { .. })
    ));
    assert!(engine.default_slots.get("planets").is_none());
    assert!(engine.default_slots.get("Locations").is_none());
}

#[test]
fn defaults_can_be_supplied() {
    let mut defaults = DefaultSlotManager::new();
    assert!(defaults.get("colours").is_none());
    defaults.insert(
        "colours".to_string(),
        SlotDefinition::new_enumeration(strings(&["red"])),
    );
    defaults.insert("locations".to_string(), SlotDefinition::new_catch_all());
    assert!(matches!(
        defaults.get("colours"),
        Some(SlotDefinition::Enumeration { .. })
    ));
    assert!(matches!(defaults.get("locations"), Some(SlotDefinition::CatchAll)));
    let engine = IntentEngine::with_defaults(defaults);
    assert!(engine.intents.is_empty());
    assert!(engine.default_slots.get("colours").is_some());
}

#[test]
fn load_returns_the_name_and_appends() {
    let mut engine = IntentEngine::new();
    assert_eq!(
        engine.load_intent(declaration("first", &["a"], &[])).ok(),
        Some("first".to_string())
    );
    assert_eq!(
        engine.load_intent(declaration("second", &[], &["b"])).ok(),
        Some("second".to_string())
    );
    assert_eq!(engine.intents.len(), 2);
    assert_eq!(engine.intents[0].name, "first");
    assert_eq!(engine.intents[0].patterns, strings(&["a"]));
    assert!(engine.intents[0].regex_patterns.is_empty());
    assert_eq!(engine.intents[1].name, "second");
    assert_eq!(engine.intents[1].regex_patterns, strings(&["b"]));
}

#[test]
fn load_rejects_a_missing_name() {
    let mut engine = IntentEngine::new();
    assert!(matches!(
        engine.load_intent(declaration("", &["a"], &[])),
        Err(LoadError::EmptyName)
    ));
    assert!(matches!(
        engine.load_intent(declaration("", &[], &[])),
        Err(LoadError::EmptyName)
    ));
    assert!(engine.intents.is_empty());
}

#[test]
fn load_rejects_a_declaration_without_patterns() {
    let mut engine = IntentEngine::new();
    engine.load_intent(declaration("kept", &["a"], &[])).ok().unwrap();
    assert!(matches!(
        engine.load_intent(declaration("empty", &[], &[])),
        Err(LoadError::NoPatterns)
    ));
    assert_eq!(engine.intents.len(), 1);
    assert_eq!(engine.intents[0].name, "kept");
}

#[test]
fn load_rejects_a_malformed_slot_and_names_the_first() {
    let mut engine = IntentEngine::new();
    let file = with_slots(
        declaration("bad", &["{a} {b} {c}"], &[]),
        vec![
            ("a", SlotShape::Text("*".to_string())),
            ("b", SlotShape::Other),
            ("c", SlotShape::Text("**".to_string())),
        ],
    );
    match engine.load_intent(file) {
        Err(LoadError::InvalidSlot(slot)) => assert_eq!(slot, "b"),
        _ => panic!("the declaration was loaded"),
    }
    assert!(engine.intents.is_empty());
    for shape in [
        SlotShape::Text("".to_string()),
        SlotShape::Text("any".to_string()),
        SlotShape::List(vec![Some("x".to_string()), None]),
        SlotShape::Other,
    ] {
        let file = with_slots(declaration("bad", &["{a}"], &[]), vec![("a", shape)]);
        match engine.load_intent(file) {
            Err(LoadError::InvalidSlot(slot)) => assert_eq!(slot, "a"),
            _ => panic!("the declaration was loaded"),
        }
    }
    assert!(engine.intents.is_empty());
}

#[test]
fn load_checks_the_name_before_the_slots() {
    let mut engine = IntentEngine::new();
    let file = with_slots(declaration("", &["x"], &[]), vec![("a", SlotShape::Other)]);
    assert!(matches!(engine.load_intent(file), Err(LoadError::EmptyName)));
    let file = with_slots(declaration("n", &[], &[]), vec![("a", SlotShape::Other)]);
    assert!(matches!(engine.load_intent(file), Err(LoadError::NoPatterns)));
}

#[test]
fn slots_become_definitions() {
    let engine = IntentEngine::new();
    let raw = vec![
        ("any".to_string(), SlotShape::Text("*".to_string())),
        (
            "city".to_string(),
            SlotShape::List(vec![Some("paris".to_string()), Some("rome".to_string())]),
        ),
        ("none".to_string(), SlotShape::List(vec![])),
        ("city".to_string(), SlotShape::Text("*".to_string())),
    ];
    let defs = engine.parse_slot_defs(&raw).ok().unwrap();
    assert_eq!(defs.len(), 3);
    assert!(matches!(defs.get("any"), Some(SlotDefinition::CatchAll)));
    assert!(matches!(defs.get("city"), Some(SlotDefinition::CatchAll)));
    assert!(matches!(
        defs.get("none"),
        Some(SlotDefinition::Enumeration { values }) if values.is_empty()
    ));
    assert!(defs.get("other").is_none());
    let raw = vec![(
        "city".to_string(),
        SlotShape::List(vec![Some("paris".to_string()), Some("rome".to_string())]),
    )];
    let defs = engine.parse_slot_defs(&raw).ok().unwrap();
    assert!(matches!(
        defs.get("city"),
        Some(SlotDefinition::Enumeration { values }) if *values == strings(&["paris", "rome"])
    ));
    assert!(engine.parse_slot_defs(&vec![]).ok().unwrap().is_empty());
}

#[test]
fn shape_gives_its_definition() {
    assert!(matches!(
        SlotShape::Text("*".to_string()).definition::<Verbatim>(),
        Some(SlotDefinition::CatchAll)
    ));
    assert!(SlotShape::Text(" *".to_string()).definition::<Verbatim>().is_none());
    assert!(SlotShape::Other.definition::<Verbatim>().is_none());
    assert!(SlotShape::List(vec![None]).definition::<Verbatim>().is_none());
}

#[test]
fn load_intents_passes_over_failures() {
    let mut engine = IntentEngine::new();
    engine.load_intent(declaration("zero", &["z"], &[])).ok().unwrap();
    let names = engine.load_intents(vec![
        declaration("one", &["a"], &[]),
        declaration("", &["b"], &[]),
        declaration("two", &[], &[]),
        with_slots(declaration("three", &["c"], &[]), vec![("s", SlotShape::Other)]),
        declaration("four", &[], &["d"]),
        declaration("one", &["e"], &[]),
    ]);
    assert_eq!(names, strings(&["one", "four", "one"]));
    let loaded: Vec<String> = engine.intents.iter().map(|i| i.name.clone()).collect();
    assert_eq!(loaded, strings(&["zero", "one", "four", "one"]));
    assert!(engine.load_intents(vec![]).is_empty());
    assert_eq!(engine.intents.len(), 4);
}

#[test]
fn error_messages() {
    assert_eq!(LoadError::EmptyName.message(), "Intent must have a name");
    assert_eq!(
        LoadError::NoPatterns.message(),
        "Intent must have at least one pattern or regex pattern"
    );
    assert_eq!(
        LoadError::InvalidSlot("city".to_string()).message(),
        "Invalid slot definition for city"
    );
}

#[test]
fn results_follow_intent_order_then_pattern_order() {
    let mut engine = IntentEngine::new();
    engine
        .load_intent(with_slots(
            declaration(
                "first",
                &["say {what}", "nothing like it", "{verb} hello"],
                &[r"(?P<all>.+)", r"^say (?P<rest>\w+)$"],
            ),
            vec![
                ("what", SlotShape::Text("*".to_string())),
                ("verb", SlotShape::Text("*".to_string())),
            ],
        ))
        .ok()
        .unwrap();
    engine
        .load_intent(declaration("second", &["say hello"], &[r"h(?P<tail>el+o)"]))
        .ok()
        .unwrap();
    engine
        .load_intent(declaration("third", &["say goodbye"], &[]))
        .ok()
        .unwrap();
    let recognizer = Recognizer::new(&engine);
    let found = recognizer.recognize("say hello");
    let seen: Vec<(String, Vec<(String, String)>)> = found
        .iter()
        .map(|f| (f.get_name(), f.get_slots()))
        .collect();
    let pair = |a: &str, b: &str| vec![(a.to_string(), b.to_string())];
    assert_eq!(
        seen,
        vec![
            ("first".to_string(), pair("what", "hello")),
            ("first".to_string(), pair("verb", "say")),
            ("first".to_string(), pair("all", "say hello")),
            ("first".to_string(), pair("rest", "hello")),
            ("second".to_string(), vec![]),
            ("second".to_string(), pair("tail", "ello")),
        ]
    );
    assert!(recognizer.recognize("").is_empty());
}

#[test]
fn recognizer_without_intents_finds_nothing() {
    let engine = IntentEngine::new();
    assert!(Recognizer::new(&engine).recognize("anything").is_empty());
}

#[test]
fn load_rejects_a_reserved_slot_name() {
    let mut engine = IntentEngine::new();
    engine.load_intent(declaration("kept", &["a"], &[])).ok().unwrap();
    let file = with_slots(
        declaration("x", &["go {default_city}"], &[]),
        vec![("default_city", SlotShape::Text("*".to_string()))],
    );
    match engine.load_intent(file) {
        Err(LoadError::ReservedSlotName(slot)) => assert_eq!(slot, "default_city"),
        other => panic!("{other:?}"),
    }
    assert_eq!(engine.intents.len(), 1);
    let file = with_slots(
        declaration("x", &["go {city}"], &[]),
        vec![
            ("city", SlotShape::Text("*".to_string())),
            ("default_", SlotShape::List(vec![])),
            ("default_b", SlotShape::Other),
        ],
    );
    match engine.load_intent(file) {
        Err(LoadError::InvalidSlot(slot)) => assert_eq!(slot, "default_b"),
        other => panic!("{other:?}"),
    }
    let file = with_slots(
        declaration("x", &["go {city}"], &[]),
        vec![
            ("Default_a", SlotShape::Text("*".to_string())),
            ("mydefault_b", SlotShape::Text("*".to_string())),
            ("default", SlotShape::Text("*".to_string())),
        ],
    );
    assert_eq!(engine.load_intent(file).ok(), Some("x".to_string()));
    assert_eq!(engine.intents.len(), 2);
}

#[test]
fn load_intents_passes_over_reserved_slot_names() {
    let mut engine = IntentEngine::new();
    let names = engine.load_intents(vec![
        with_slots(
            declaration("bad", &["a"], &[]),
            vec![("default_x", SlotShape::Text("*".to_string()))],
        ),
        declaration("good", &["b"], &[]),
    ]);
    assert_eq!(names, strings(&["good"]));
    assert_eq!(engine.intents.len(), 1);
    assert_eq!(engine.intents[0].name, "good");
    assert_eq!(engine.intents[0].patterns, strings(&["b"]));
}
