use avi_core::engine::IntentEngine;
use avi_core::intent::{IntentFile, SlotShape};
use avi_core::recognizer::Recognizer;
use avi_core::slot::{DefaultSlotManager, SlotDefinition, SlotProcessor, Verbatim};
use avi_core::slot_extractor::{ExtractedSlots, SlotExtractor};

struct Upper;

impl SlotProcessor for Upper {
    fn processed(&self, _text: vstd::seq::Seq<char>) -> Option<vstd::seq::Seq<char>> {
        unreachable!()
    }

    fn process(&self, text: String) -> Option<String> {
        if text.chars().all(|c| c.is_ascii_digit()) {
            None
        } else {
            Some(text.to_uppercase())
        }
    }
}

fn strings(items: &[&str]) -> Vec<String> {
    items.iter().map(|s| s.to_string()).collect()
}

fn list(items: &[&str]) -> SlotShape {
    SlotShape::List(items.iter().map(|s| Some(s.to_string())).collect())
}

fn wildcard() -> SlotShape {
    SlotShape::Text("*".to_string())
}

fn pairs(items: &[(&str, &str)]) -> Vec<(String, String)> {
    items
        .iter()
        .map(|(a, b)| (a.to_string(), b.to_string()))
        .collect()
}

/// One intent `test` with the given slots, and the result of one pattern.
fn with_pattern(
    pattern: &str,
    slots: Vec<(&str, SlotShape)>,
    text: &str,
) -> Option<ExtractedSlots> {
    let mut engine = IntentEngine::new();
    engine
        .load_intent(IntentFile {
            intent: "test".to_string(),
            patterns: strings(&[pattern]),
            regex_patterns: vec![],
            slots: slots.into_iter().map(|(n, s)| (n.to_string(), s)).collect(),
        })
        .ok()
        .unwrap();
    let extractor = SlotExtractor::new(&engine.default_slots);
    extractor.extract_from_pattern(pattern, text, "test", &engine.intents[0].slots)
}

fn with_regex(pattern: &str, slots: Vec<(&str, SlotShape)>, text: &str) -> Option<ExtractedSlots> {
    let mut engine = IntentEngine::new();
    engine
        .load_intent(IntentFile {
            intent: "test".to_string(),
            patterns: vec![],
            regex_patterns: strings(&[pattern]),
            slots: slots.into_iter().map(|(n, s)| (n.to_string(), s)).collect(),
        })
        .ok()
        .unwrap();
    let extractor = SlotExtractor::new(&engine.default_slots);
    extractor.extract_from_regex(pattern, text, "test", &engine.intents[0].slots)
}

#[test]
fn rendered_pattern_matches_itself() {
    let found = with_pattern(
        "play {song} by {artist}",
        vec![("song", wildcard()), ("artist", wildcard())],
        "play Yesterday by The Beatles",
    )
    .unwrap();
    assert_eq!(found.get_name(), "test");
    assert_eq!(
        found.get_slots(),
        pairs(&[("song", "Yesterday"), ("artist", "The Beatles")])
    );
}

#[test]
fn rendered_pattern_with_meta_characters_matches_itself() {
    let found = with_pattern(
        "what is {a} + {b}? (please)",
        vec![("a", wildcard()), ("b", wildcard())],
        "what is 2*3 + [4]? (please)",
    )
    .unwrap();
    assert_eq!(found.get_slots(), pairs(&[("a", "2*3"), ("b", "[4]")]));
}

#[test]
fn literal_text_matches_in_any_case() {
    let found = with_pattern("Turn ON the lights", vec![], "turn on THE LIGHTS").unwrap();
    assert_eq!(found.count(), 0);
    assert!(with_pattern("turn on the lights", vec![], "turn on the lights now").is_none());
    assert!(with_pattern("turn on the lights", vec![], "please turn on the lights").is_none());
}

#[test]
fn placeholder_needs_at_least_one_character() {
    assert!(with_pattern("play {song}", vec![("song", wildcard())], "play ").is_none());
    let found = with_pattern("play {song}", vec![("song", wildcard())], "play x").unwrap();
    assert_eq!(found.get_slots(), pairs(&[("song", "x")]));
}

#[test]
fn enumeration_ignores_ascii_case() {
    let found = with_pattern(
        "fly to {city}",
        vec![("city", list(&["paris", "Rome"]))],
        "fly to Paris",
    )
    .unwrap();
    assert_eq!(found.get_slots(), pairs(&[("city", "paris")]));
    let found = with_pattern(
        "fly to {city}",
        vec![("city", list(&["paris", "Rome"]))],
        "fly to ROME",
    )
    .unwrap();
    assert_eq!(found.get_slots(), pairs(&[("city", "Rome")]));
}

#[test]
fn enumeration_gives_the_first_listed_value() {
    let found = with_pattern(
        "fly to {city}",
        vec![("city", list(&["PARIS", "paris"]))],
        "fly to Paris",
    )
    .unwrap();
    assert_eq!(found.get_slots(), pairs(&[("city", "PARIS")]));
}

#[test]
fn enumeration_rejects_other_values() {
    assert!(with_pattern(
        "fly to {city}",
        vec![("city", list(&["paris", "rome"]))],
        "fly to berlin"
    )
    .is_none());
    assert!(with_pattern("fly to {city}", vec![("city", list(&[]))], "fly to paris").is_none());
}

#[test]
fn enumeration_does_not_ignore_other_case() {
    assert!(with_pattern(
        "fly to {city}",
        vec![("city", list(&["ängelholm"]))],
        "fly to Ängelholm"
    )
    .is_none());
}

#[test]
fn one_rejected_slot_voids_the_match() {
    assert!(with_pattern(
        "fly from {origin} to {city}",
        vec![("origin", wildcard()), ("city", list(&["paris", "rome"]))],
        "fly from london to berlin",
    )
    .is_none());
    let found = with_pattern(
        "fly from {origin} to {city}",
        vec![("origin", wildcard()), ("city", list(&["paris", "rome"]))],
        "fly from london to rome",
    )
    .unwrap();
    assert_eq!(
        found.get_slots(),
        pairs(&[("origin", "london"), ("city", "rome")])
    );
}

#[test]
fn local_slot_without_definition_voids_the_match() {
    assert!(with_pattern("play {song}", vec![], "play yesterday").is_none());
    assert!(with_pattern(
        "play {song} by {artist}",
        vec![("song", wildcard())],
        "play yesterday by the beatles"
    )
    .is_none());
}

#[test]
fn unknown_default_never_matches() {
    for text in ["fly to mars", "fly to {default/planets}", "fly to ", ""] {
        assert!(with_pattern("fly to {default/planets}", vec![], text).is_none());
    }
}

#[test]
fn default_enumeration_matches_listed_values_only() {
    let found = with_pattern("hotel in {default/locations}", vec![], "hotel in New York").unwrap();
    assert_eq!(
        found.get_slots(),
        pairs(&[("default_locations", "new york")])
    );
    assert!(with_pattern("hotel in {default/locations}", vec![], "hotel in berlin").is_none());
}

#[test]
fn default_dates_takes_any_text() {
    let found = with_pattern("remind me {default/dates}", vec![], "remind me Next Friday").unwrap();
    assert_eq!(found.get_slots(), pairs(&[("default_dates", "Next Friday")]));
}

#[test]
fn default_and_local_slot_of_one_name_are_kept_apart() {
    let found = with_pattern(
        "from {locations} to {default/locations}",
        vec![("locations", wildcard())],
        "from berlin to paris",
    )
    .unwrap();
    assert_eq!(
        found.get_slots(),
        pairs(&[("locations", "berlin"), ("default_locations", "paris")])
    );
}

#[test]
fn group_with_the_reserved_prefix_resolves_to_the_default() {
    let engine = IntentEngine::new();
    let locals = engine
        .parse_slot_defs(&vec![("default_locations".to_string(), wildcard())])
        .ok()
        .unwrap();
    let extractor = SlotExtractor::new(&engine.default_slots);
    let found = extractor
        .extract_from_pattern("go to {default_locations}", "go to paris", "test", &locals)
        .unwrap();
    assert_eq!(found.get_slots(), pairs(&[("default_locations", "paris")]));
    assert!(extractor
        .extract_from_pattern("go to {default_locations}", "go to berlin", "test", &locals)
        .is_none());
}

#[test]
fn default_enumeration_values_are_literal_text() {
    let mut defaults: DefaultSlotManager<Verbatim> = DefaultSlotManager::empty();
    defaults.insert(
        "sums".to_string(),
        SlotDefinition::new_enumeration(strings(&["a+b", "a.c", "x|y", "(z)"])),
    );
    let mut engine = IntentEngine::with_defaults(defaults);
    engine
        .load_intent(IntentFile {
            intent: "sum".to_string(),
            patterns: strings(&["what is {default/sums}"]),
            regex_patterns: vec![],
            slots: vec![],
        })
        .ok()
        .unwrap();
    let recognizer = Recognizer::new(&engine);
    for (text, value) in [("a+b", "a+b"), ("A+B", "a+b"), ("a.c", "a.c"), ("x|y", "x|y"), ("(Z)", "(z)")] {
        let found = recognizer.recognize(&format!("what is {text}"));
        assert_eq!(found.len(), 1, "{text}");
        assert_eq!(found[0].get_slots(), pairs(&[("default_sums", value)]));
    }
    for text in ["ab", "aab", "abc", "x", "y", "z", "a+", ""] {
        assert!(recognizer.recognize(&format!("what is {text}")).is_empty(), "{text}");
    }
}

#[test]
fn repeated_placeholder_does_not_compile() {
    assert!(with_pattern("{a} and {a}", vec![("a", wildcard())], "x and x").is_none());
}

#[test]
fn placeholder_that_is_no_group_name_does_not_compile() {
    assert!(with_pattern("{my slot}", vec![("my slot", wildcard())], "x").is_none());
    assert!(with_pattern("{}", vec![("", wildcard())], "x").is_none());
}

#[test]
fn captured_text_does_not_span_lines() {
    assert!(with_pattern("say {words}", vec![("words", wildcard())], "say a\nb").is_none());
}

#[test]
fn processor_transforms_or_rejects() {
    let mut defaults: DefaultSlotManager<Upper> = DefaultSlotManager::empty();
    defaults.insert(
        "loud".to_string(),
        SlotDefinition::new_processor(Upper),
    );
    let mut engine = IntentEngine::with_defaults(defaults);
    engine
        .load_intent(IntentFile {
            intent: "shout".to_string(),
            patterns: strings(&["shout {default/loud}"]),
            regex_patterns: vec![],
            slots: vec![],
        })
        .ok()
        .unwrap();
    let recognizer = Recognizer::new(&engine);
    let found = recognizer.recognize("shout hello");
    assert_eq!(found.len(), 1);
    assert_eq!(found[0].get_slots(), pairs(&[("default_loud", "HELLO")]));
    assert!(recognizer.recognize("shout 123").is_empty());
}

#[test]
fn validate_and_process_slot_by_policy() {
    let defaults = DefaultSlotManager::new();
    let extractor = SlotExtractor::new(&defaults);
    let cities: SlotDefinition<Verbatim> = SlotDefinition::new_enumeration(strings(&["paris"]));
    assert_eq!(
        extractor.validate_and_process_slot("Paris".to_string(), &cities),
        Some("paris".to_string())
    );
    assert_eq!(
        extractor.validate_and_process_slot("rome".to_string(), &cities),
        None
    );
    assert_eq!(
        extractor.validate_and_process_slot("".to_string(), &SlotDefinition::new_catch_all()),
        Some("".to_string())
    );
    assert_eq!(
        extractor.validate_and_process_slot(
            "as is".to_string(),
            &SlotDefinition::new_processor(Verbatim)
        ),
        Some("as is".to_string())
    );
}

#[test]
fn raw_regex_validates_groups_that_are_slots() {
    let found = with_regex(
        r"fly from (?P<origin>\w+) to (?P<city>\w+)",
        vec![("city", list(&["paris"]))],
        "fly from london to PARIS",
    )
    .unwrap();
    assert_eq!(
        found.get_slots(),
        pairs(&[("origin", "london"), ("city", "paris")])
    );
    assert!(with_regex(
        r"fly from (?P<origin>\w+) to (?P<city>\w+)",
        vec![("city", list(&["paris"]))],
        "fly from london to rome",
    )
    .is_none());
}

#[test]
fn raw_regex_is_not_anchored_and_ignores_case() {
    let found = with_regex(r"FLIGHT (?P<n>\d+)", vec![], "the flight 42 is late").unwrap();
    assert_eq!(found.get_slots(), pairs(&[("n", "42")]));
}

#[test]
fn raw_regex_skips_groups_that_did_not_take_part() {
    let found = with_regex(r"(?P<a>x)|(?P<b>y)", vec![], "y").unwrap();
    assert_eq!(found.get_slots(), pairs(&[("b", "y")]));
    let found = with_regex(r"(x)(?P<b>y)?", vec![], "x").unwrap();
    assert_eq!(found.count(), 0);
}

#[test]
fn raw_regex_does_not_consult_default_slots() {
    let found = with_regex(r"in (?P<default_locations>\w+)", vec![], "in berlin").unwrap();
    assert_eq!(
        found.get_slots(),
        pairs(&[("default_locations", "berlin")])
    );
}

#[test]
fn malformed_regex_never_matches() {
    for text in ["", "(", "flight", "anything at all"] {
        assert!(with_regex(r"flight (?P<n", vec![], text).is_none());
        assert!(with_regex(r"(", vec![], text).is_none());
    }
}
