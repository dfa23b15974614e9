use avi_core::slot::{DefaultSlotManager, SlotDefinition, SlotProcessor, Verbatim};
use avi_core::slot_extractor::SlotExtractor;

struct Reject;

impl SlotProcessor for Reject {
    fn processed(&self, _text: vstd::seq::Seq<char>) -> Option<vstd::seq::Seq<char>> {
        unreachable!()
    }

    fn process(&self, _text: String) -> Option<String> {
        None
    }
}

fn source(pattern: &str) -> Option<String> {
    let defaults = DefaultSlotManager::new();
    SlotExtractor::new(&defaults).pattern_to_regex(pattern)
}

#[test]
fn literal_text_is_anchored() {
    assert_eq!(source("hello there"), Some("^hello there$".to_string()));
    assert_eq!(source(""), Some("^$".to_string()));
}

#[test]
fn meta_characters_are_escaped() {
    assert_eq!(
        source("what is 2+2? (roughly)"),
        Some(r"^what is 2\+2\? \(roughly\)$".to_string())
    );
    assert_eq!(
        source(r"a\b.c*d|e[f]g}h^i$j#k&l-m~n"),
        Some(r"^a\\b\.c\*d\|e\[f\]g\}h\^i\$j\#k\&l\-m\~n$".to_string())
    );
}

#[test]
fn local_placeholder_is_a_lazy_group() {
    assert_eq!(
        source("play {song} by {artist}"),
        Some("^play (?P<song>.+?) by (?P<artist>.+?)$".to_string())
    );
}

#[test]
fn default_enumeration_is_an_alternation() {
    assert_eq!(
        source("find me a hotel in {default/locations}"),
        Some("^find me a hotel in (?P<default_locations>new york|london|paris|tokyo)$".to_string())
    );
}

#[test]
fn default_processor_is_a_lazy_group() {
    assert_eq!(
        source("remind me on {default/dates}"),
        Some("^remind me on (?P<default_dates>.+?)$".to_string())
    );
}

#[test]
fn default_catch_all_is_a_lazy_group() {
    let mut defaults: DefaultSlotManager<Verbatim> = DefaultSlotManager::empty();
    defaults.insert("anything".to_string(), SlotDefinition::new_catch_all());
    let extractor = SlotExtractor::new(&defaults);
    assert_eq!(
        extractor.pattern_to_regex("say {default/anything}"),
        Some("^say (?P<default_anything>.+?)$".to_string())
    );
}

#[test]
fn empty_enumeration_is_an_empty_group() {
    let mut defaults: DefaultSlotManager<Reject> = DefaultSlotManager::empty();
    defaults.insert("none".to_string(), SlotDefinition::new_enumeration(vec![]));
    defaults.insert(
        "one".to_string(),
        SlotDefinition::new_enumeration(vec!["only".to_string()]),
    );
    let extractor = SlotExtractor::new(&defaults);
    assert_eq!(
        extractor.pattern_to_regex("{default/none}{default/one}"),
        Some("^(?P<default_none>)(?P<default_one>only)$".to_string())
    );
}

#[test]
fn unknown_default_has_no_regex() {
    assert_eq!(source("fly to {default/planets}"), None);
    assert_eq!(source("{default/}"), None);
    assert_eq!(source("{song} in {default/planets} now"), None);
}

#[test]
fn default_with_a_second_slash_has_no_regex() {
    assert_eq!(source("go to {default/locations/x}"), None);
}

#[test]
fn unterminated_brace_is_literal_text() {
    assert_eq!(source("play {song"), Some(r"^play \{song$".to_string()));
    assert_eq!(
        source("play {song} and {more"),
        Some(r"^play (?P<song>.+?) and \{more$".to_string())
    );
    assert_eq!(source("{"), Some(r"^\{$".to_string()));
}

#[test]
fn placeholder_ends_at_the_first_closing_brace() {
    assert_eq!(source("{a{b}c}"), Some(r"^(?P<a{b>.+?)c\}$".to_string()));
    assert_eq!(source("{}"), Some("^(?P<>.+?)$".to_string()));
}

#[test]
fn marker_is_only_a_prefix() {
    assert_eq!(
        source("{mydefault/x}"),
        Some("^(?P<mydefault/x>.+?)$".to_string())
    );
    assert_eq!(source("{default}"), Some("^(?P<default>.+?)$".to_string()));
}

#[test]
fn pattern_is_read_by_characters() {
    assert_eq!(
        source("café {drink} ☕"),
        Some("^café (?P<drink>.+?) ☕$".to_string())
    );
}

#[test]
fn default_enumeration_values_are_escaped() {
    let mut defaults: DefaultSlotManager<Verbatim> = DefaultSlotManager::empty();
    defaults.insert(
        "sums".to_string(),
        SlotDefinition::new_enumeration(vec![
            "a+b".to_string(),
            "a.c".to_string(),
            "x|y".to_string(),
            "plain".to_string(),
            "".to_string(),
        ]),
    );
    let extractor = SlotExtractor::new(&defaults);
    assert_eq!(
        extractor.pattern_to_regex("{default/sums}"),
        Some(r"^(?P<default_sums>a\+b|a\.c|x\|y|plain|)$".to_string())
    );
}
