//! Extraction of slots: one pattern is run against one text, and every
//! capture group of the match is resolved to a slot definition that accepts,
//! transforms or rejects what the group captured.

use vstd::hash_map::StringHashMap;
use vstd::prelude::*;

use crate::matcher::{
    captures_view, is_match, regex_captures, regex_compiles, regex_is_match, regex_is_valid, search,
    Capture, CaptureGroup,
};
use crate::pattern::{lemma_unknown_default_has_no_regex, placeholders, regex_source, unresolved};
use crate::slot::{listed_as, DefaultSlotManager, SlotDefinition, SlotProcessor};
use crate::text::{
    from_chars, is_float, is_float_text, is_i64, is_i64_text, opt_view, starts_with, to_chars,
    views,
};

verus! {

/// A list of slots: names with their values.
pub type Slots = Seq<(Seq<char>, Seq<char>)>;

/// Whether `slots` has a slot called `name`.
pub open spec fn has_slot(slots: Slots, name: Seq<char>) -> bool {
    exists|i: int| 0 <= i < slots.len() && (#[trigger] slots[i]).0 == name
}

/// The place of the slot called `name`.
pub open spec fn slot_index(slots: Slots, name: Seq<char>) -> int {
    choose|i: int| 0 <= i < slots.len() && (#[trigger] slots[i]).0 == name
}

/// No two slots have the same name.
pub open spec fn distinct_names(slots: Slots) -> bool {
    forall|i: int, j: int|
        0 <= i < j < slots.len() ==> (#[trigger] slots[i]).0 != (#[trigger] slots[j]).0
}

/// `slots` with the slot `name` set to `value`: in its place if there is
/// such a slot, at the end otherwise.
pub open spec fn with_slot(slots: Slots, name: Seq<char>, value: Seq<char>) -> Slots {
    if has_slot(slots, name) {
        slots.update(slot_index(slots, name), (name, value))
    } else {
        slots.push((name, value))
    }
}

/// The value of the slot called `name`, if there is such a slot.
pub open spec fn slot_of(slots: Slots, name: Seq<char>) -> Option<Seq<char>> {
    if has_slot(slots, name) {
        Some(slots[slot_index(slots, name)].1)
    } else {
        None
    }
}

/// The slots as a mapping from name to value.
pub open spec fn slot_map(slots: Slots) -> Map<Seq<char>, Seq<char>> {
    Map::new(
        |name: Seq<char>| has_slot(slots, name),
        |name: Seq<char>| slots[slot_index(slots, name)].1,
    )
}

/// Whether `value` is of the type called `kind`.
pub open spec fn has_type(value: Seq<char>, kind: Seq<char>) -> bool {
    if kind == "int"@ {
        is_i64_text(value)
    } else if kind == "float"@ {
        is_float_text(value)
    } else if kind == "bool"@ {
        value == "true"@ || value == "false"@
    } else {
        kind == "string"@
    }
}

/// The result of one successful match: the name of the intent and the
/// validated value of each slot that the match captured.
#[derive(Debug)]
pub struct ExtractedSlots {
    intent: String,
    slots: Vec<(String, String)>,
}

/// The mathematical content of an [`ExtractedSlots`].
pub ghost struct Extraction {
    pub intent: Seq<char>,
    pub slots: Slots,
}

impl View for ExtractedSlots {
    type V = Extraction;

    closed spec fn view(&self) -> Extraction {
        Extraction {
            intent: self.intent@,
            slots: self.slots@.map_values(|slot: (String, String)| (slot.0@, slot.1@)),
        }
    }
}

impl Clone for ExtractedSlots {
    fn clone(&self) -> (copy: Self)
        ensures
            copy@ == self@,
    {
        let slots = self.get_slots();
        ExtractedSlots { intent: self.intent.clone(), slots }
    }
}

/// The content of an optional match result.
pub open spec fn extraction_view(found: Option<ExtractedSlots>) -> Option<Extraction> {
    match found {
        Some(found) => Some(found@),
        None => None,
    }
}

/// The definition that a capture group of a literal pattern resolves to. A
/// group named `default_<name>` stands for the shared slot `<name>`; any
/// other group stands for the slot of the intent with the group's name.
pub open spec fn definition_of<P: SlotProcessor>(
    name: Seq<char>,
    locals: Map<Seq<char>, SlotDefinition<P>>,
    defaults: Map<Seq<char>, SlotDefinition<P>>,
) -> Option<SlotDefinition<P>> {
    if "default_"@.is_prefix_of(name) {
        let shared = name.skip("default_"@.len() as int);
        if defaults.contains_key(shared) {
            Some(defaults[shared])
        } else {
            None
        }
    } else if locals.contains_key(name) {
        Some(locals[name])
    } else {
        None
    }
}

/// The value of the slot `name` that captured `text`, or `None` if the
/// capture is rejected.
///
/// In a literal pattern the group must resolve to a definition, which
/// decides. In a raw regular expression (`raw`) a group with a definition
/// among the intent's slots is decided by it, and any other group is taken
/// as it is.
pub open spec fn slot_value<P: SlotProcessor>(
    name: Seq<char>,
    text: Seq<char>,
    locals: Map<Seq<char>, SlotDefinition<P>>,
    defaults: Map<Seq<char>, SlotDefinition<P>>,
    raw: bool,
) -> Option<Seq<char>> {
    if raw {
        if locals.contains_key(name) {
            locals[name].value_of(text)
        } else {
            Some(text)
        }
    } else {
        match definition_of(name, locals, defaults) {
            Some(defn) => defn.value_of(text),
            None => None,
        }
    }
}

/// The slots of a match with the capture groups `groups`: each named group
/// that captured a text gives one slot. `None` as soon as one capture is
/// rejected.
pub open spec fn slots_of<P: SlotProcessor>(
    groups: Seq<Capture>,
    locals: Map<Seq<char>, SlotDefinition<P>>,
    defaults: Map<Seq<char>, SlotDefinition<P>>,
    raw: bool,
) -> Option<Slots>
    decreases groups.len(),
{
    if groups.len() == 0 {
        Some(Seq::empty())
    } else {
        match slots_of(groups.drop_last(), locals, defaults, raw) {
            None => None,
            Some(slots) => match (groups.last().name, groups.last().text) {
                (Some(name), Some(text)) => match slot_value(name, text, locals, defaults, raw) {
                    Some(value) => Some(with_slot(slots, name, value)),
                    None => None,
                },
                _ => Some(slots),
            },
        }
    }
}

/// What a match with the capture groups `groups` yields for the intent
/// `intent`.
pub open spec fn extraction_of<P: SlotProcessor>(
    groups: Seq<Capture>,
    intent: Seq<char>,
    locals: Map<Seq<char>, SlotDefinition<P>>,
    defaults: Map<Seq<char>, SlotDefinition<P>>,
    raw: bool,
) -> Option<Extraction> {
    match slots_of(groups, locals, defaults, raw) {
        Some(slots) => Some(Extraction { intent, slots }),
        None => None,
    }
}

/// What the regular expression `source`, which ignores case, extracts from
/// `text`: nothing if the expression does not compile or does not match.
pub open spec fn extracted<P: SlotProcessor>(
    source: Seq<char>,
    text: Seq<char>,
    intent: Seq<char>,
    locals: Map<Seq<char>, SlotDefinition<P>>,
    defaults: Map<Seq<char>, SlotDefinition<P>>,
    raw: bool,
) -> Option<Extraction> {
    if !regex_compiles(source, true) {
        None
    } else {
        match regex_captures(source, true, text) {
            Some(groups) => extraction_of(groups, intent, locals, defaults, raw),
            None => None,
        }
    }
}

/// What the literal pattern `pattern` extracts from `text`.
pub open spec fn extracted_from_pattern<P: SlotProcessor>(
    pattern: Seq<char>,
    text: Seq<char>,
    intent: Seq<char>,
    locals: Map<Seq<char>, SlotDefinition<P>>,
    defaults: Map<Seq<char>, SlotDefinition<P>>,
) -> Option<Extraction> {
    match regex_source(pattern, defaults) {
        Some(source) => extracted(source, text, intent, locals, defaults, false),
        None => None,
    }
}

/// What the raw regular expression `pattern` extracts from `text`.
pub open spec fn extracted_from_regex<P: SlotProcessor>(
    pattern: Seq<char>,
    text: Seq<char>,
    intent: Seq<char>,
    locals: Map<Seq<char>, SlotDefinition<P>>,
) -> Option<Extraction> {
    extracted(pattern, text, intent, locals, Map::empty(), true)
}

impl ExtractedSlots {
    /// No two slots of a result have the same name.
    #[verifier::type_invariant]
    spec fn wf(&self) -> bool {
        distinct_names(self@.slots)
    }

    /// A result for `intent` without slots.
    pub fn new(intent: String) -> (found: Self)
        ensures
            found@ == (Extraction { intent: intent@, slots: Seq::empty() }),
    {
        let slots: Vec<(String, String)> = Vec::new();
        assert(slots@.map_values(|slot: (String, String)| (slot.0@, slot.1@)) =~= Seq::empty());
        ExtractedSlots { intent, slots }
    }

    /// The place of the slot `name`, if there is one.
    fn find(&self, name: &str) -> (place: Option<usize>)
        ensures
            place is Some <==> has_slot(self@.slots, name@),
            place matches Some(i) ==> i < self.slots@.len() && i == slot_index(self@.slots, name@),
            distinct_names(self@.slots),
    {
        proof {
            use_type_invariant(self);
        }
        let mut i: usize = 0;
        while i < self.slots.len()
            invariant
                i <= self.slots.len(),
                distinct_names(self@.slots),
                forall|j: int| 0 <= j < i ==> (#[trigger] self@.slots[j]).0 != name@,
            decreases self.slots.len() - i,
        {
            if *self.slots[i].0.as_str() == *name {
                assert(self@.slots[i as int].0 == name@);
                return Some(i);
            }
            i += 1;
        }
        None
    }

    /// Sets the slot `name` to `value`.
    pub fn insert(&mut self, name: String, value: String)
        ensures
            final(self)@.intent == old(self)@.intent,
            final(self)@.slots == with_slot(old(self)@.slots, name@, value@),
    {
        let ghost before = self@.slots;
        match self.find(name.as_str()) {
            Some(i) => {
                let mut slots: Vec<(String, String)> = Vec::new();
                std::mem::swap(&mut slots, &mut self.slots);
                slots.set(i, (name, value));
                assert(slots@.map_values(|slot: (String, String)| (slot.0@, slot.1@)) =~= with_slot(
                    before,
                    name@,
                    value@,
                ));
                self.slots = slots;
            },
            None => {
                let mut slots: Vec<(String, String)> = Vec::new();
                std::mem::swap(&mut slots, &mut self.slots);
                slots.push((name, value));
                assert(slots@.map_values(|slot: (String, String)| (slot.0@, slot.1@)) =~= with_slot(
                    before,
                    name@,
                    value@,
                ));
                self.slots = slots;
            },
        }
    }

    /// The name of the matched intent.
    pub fn get_name(&self) -> (name: String)
        ensures
            name@ == self@.intent,
    {
        self.intent.clone()
    }

    /// The slots, in the order in which the match captured them.
    pub fn get_slots(&self) -> (slots: Vec<(String, String)>)
        ensures
            slots@.map_values(|slot: (String, String)| (slot.0@, slot.1@)) == self@.slots,
            distinct_names(self@.slots),
    {
        proof {
            use_type_invariant(self);
        }
        let mut slots: Vec<(String, String)> = Vec::new();
        let mut i: usize = 0;
        while i < self.slots.len()
            invariant
                i <= self.slots.len(),
                slots@.len() == i,
                forall|j: int|
                    0 <= j < i ==> (#[trigger] slots@[j]).0@ == self.slots@[j].0@ && slots@[j].1@
                        == self.slots@[j].1@,
            decreases self.slots.len() - i,
        {
            slots.push((self.slots[i].0.clone(), self.slots[i].1.clone()));
            i += 1;
        }
        assert(slots@.map_values(|slot: (String, String)| (slot.0@, slot.1@)) =~= self@.slots);
        slots
    }

    /// The value of the slot `slot`, or the empty text if there is no such
    /// slot.
    pub fn get(&self, slot: &str) -> (value: String)
        ensures
            value@ == match slot_of(self@.slots, slot@) {
                Some(value) => value,
                None => Seq::empty(),
            },
    {
        match self.find(slot) {
            Some(i) => self.slots[i].1.clone(),
            None => String::new(),
        }
    }

    /// The value of the slot `slot`, which the result must have.
    pub fn require(&self, slot: &str) -> (value: String)
        requires
            has_slot(self@.slots, slot@),
        ensures
            Some(value@) == slot_of(self@.slots, slot@),
    {
        match self.find(slot) {
            Some(i) => self.slots[i].1.clone(),
            None => String::new(),
        }
    }

    /// Whether the result has both slots.
    pub fn has_both(&self, slot1: &str, slot2: &str) -> (both: bool)
        ensures
            both == (has_slot(self@.slots, slot1@) && has_slot(self@.slots, slot2@)),
    {
        self.find(slot1).is_some() && self.find(slot2).is_some()
    }

    /// Whether the result has the slot `slot` with exactly the value `value`.
    pub fn equal(&self, slot: &str, value: &str) -> (same: bool)
        ensures
            same == (slot_of(self@.slots, slot@) == Some(value@)),
    {
        match self.find(slot) {
            Some(i) => *self.slots[i].1.as_str() == *value,
            None => false,
        }
    }

    /// Whether the result has the slot `slot` and `list` holds its value.
    pub fn in_list(&self, slot: &str, list: &Vec<String>) -> (found: bool)
        ensures
            found == (slot_of(self@.slots, slot@) matches Some(value) && views(list@).contains(
                value,
            )),
    {
        match self.find(slot) {
            Some(i) => holds(list, self.slots[i].1.as_str()),
            None => false,
        }
    }

    /// Whether the result has the slot `slot` and its value is one of
    /// `keys`, the keys of a dictionary.
    pub fn in_dict(&self, slot: &str, keys: &Vec<String>) -> (found: bool)
        ensures
            found == (slot_of(self@.slots, slot@) matches Some(value) && views(keys@).contains(
                value,
            )),
    {
        self.in_list(slot, keys)
    }

    /// The value of the slot `slot` as it was captured; the same as
    /// [`ExtractedSlots::get`].
    pub fn get_raw(&self, slot: &str) -> (value: String)
        ensures
            value@ == match slot_of(self@.slots, slot@) {
                Some(value) => value,
                None => Seq::empty(),
            },
    {
        self.get(slot)
    }

    /// The value of a slot that may be missing; the same as
    /// [`ExtractedSlots::get`].
    pub fn optional(&self, slot: &str) -> (value: String)
        ensures
            value@ == match slot_of(self@.slots, slot@) {
                Some(value) => value,
                None => Seq::empty(),
            },
    {
        self.get(slot)
    }

    /// The value of the slot `slot` as an object; the same as
    /// [`ExtractedSlots::get`].
    pub fn obj(&self, slot: &str) -> (value: String)
        ensures
            value@ == match slot_of(self@.slots, slot@) {
                Some(value) => value,
                None => Seq::empty(),
            },
    {
        self.get(slot)
    }

    /// Whether the result has the slot `slot` and the regular expression
    /// `pattern` compiles and matches somewhere in its value.
    pub fn match_pattern(&self, slot: &str, pattern: &str) -> (matched: bool)
        ensures
            matched == (slot_of(self@.slots, slot@) matches Some(value) && regex_is_valid(pattern@)
                && regex_is_match(pattern@, value)),
    {
        match self.find(slot) {
            Some(i) => match is_match(pattern, self.slots[i].1.as_str()) {
                Ok(matched) => matched,
                Err(_) => false,
            },
            None => false,
        }
    }

    /// Whether the result has the slot `slot` and its value is of the type
    /// `kind`: `int` for a 64-bit signed integer, `float` for a floating-point
    /// number, `bool` for `true` or `false`, `string` for any text. No value
    /// is of any other type.
    pub fn is_type(&self, slot: &str, kind: &str) -> (typed: bool)
        ensures
            typed == (slot_of(self@.slots, slot@) matches Some(value) && has_type(
                value,
                kind@,
            )),
    {
        match self.find(slot) {
            Some(i) => {
                let value = self.slots[i].1.as_str();
                if *kind == *"int" {
                    is_i64(value)
                } else if *kind == *"float" {
                    is_float(value)
                } else if *kind == *"bool" {
                    *value == *"true" || *value == *"false"
                } else if *kind == *"string" {
                    true
                } else {
                    false
                }
            },
            None => false,
        }
    }

    /// The number of slots.
    pub fn count(&self) -> (n: usize)
        ensures
            n == self@.slots.len(),
    {
        self.slots.len()
    }
}

/// Whether `text` is one of `list`.
fn holds(list: &Vec<String>, text: &str) -> (found: bool)
    ensures
        found == views(list@).contains(text@),
{
    let mut i: usize = 0;
    while i < list.len()
        invariant
            i <= list.len(),
            forall|j: int| 0 <= j < i ==> views(list@)[j] != text@,
        decreases list.len() - i,
    {
        if *list[i].as_str() == *text {
            assert(views(list@)[i as int] == text@);
            return true;
        }
        i += 1;
    }
    false
}

/// The first of `values` that equals `text`, ASCII case ignored.
fn listed(values: &Vec<String>, text: &str) -> (found: Option<String>)
    ensures
        opt_view(found) == listed_as(views(values@), text@),
{
    assert(views(values@).skip(0) =~= views(values@));
    let mut i: usize = 0;
    while i < values.len()
        invariant
            i <= values.len(),
            listed_as(views(values@), text@) == listed_as(views(values@).skip(i as int), text@),
        decreases values.len() - i,
    {
        let ghost rest = views(values@).skip(i as int);
        assert(rest[0] == values@[i as int]@);
        assert(rest.drop_first() =~= views(values@).skip(i as int + 1));
        if values[i].as_str().eq_ignore_ascii_case(text) {
            return Some(values[i].clone());
        }
        i += 1;
    }
    assert(views(values@).skip(values.len() as int).len() == 0);
    None
}

/// Runs patterns against texts, with the shared default slots at hand.
#[verifier::reject_recursive_types(P)]
pub struct SlotExtractor<'a, P: SlotProcessor> {
    pub default_slots: &'a DefaultSlotManager<P>,
}

impl<'a, P: SlotProcessor> SlotExtractor<'a, P> {
    /// An extractor that resolves default slots in `default_slots`.
    pub fn new(default_slots: &'a DefaultSlotManager<P>) -> (extractor: Self)
        ensures
            extractor.default_slots == default_slots,
    {
        SlotExtractor { default_slots }
    }

    /// Applies the policy of `defn` to the captured text: an enumeration
    /// accepts a text that equals a listed value, ASCII case ignored, and
    /// gives that value; a catch-all accepts every text as it is; a processor
    /// decides for itself.
    pub fn validate_and_process_slot(&self, val_text: String, defn: &SlotDefinition<P>) -> (value:
        Option<String>)
        ensures
            opt_view(value) == defn.value_of(val_text@),
    {
        match defn {
            SlotDefinition::Enumeration { values } => listed(values, val_text.as_str()),
            SlotDefinition::CatchAll => Some(val_text),
            SlotDefinition::CatchProcess { processor } => processor.process(val_text),
        }
    }

    /// The value of the slot `name` that captured `text`.
    fn resolve(
        &self,
        name: &str,
        text: &str,
        intent_slots: &StringHashMap<SlotDefinition<P>>,
        raw: bool,
    ) -> (value: Option<String>)
        ensures
            opt_view(value) == slot_value(name@, text@, intent_slots@, self.default_slots@, raw),
    {
        if raw {
            match intent_slots.get(name) {
                Some(defn) => self.validate_and_process_slot(text.to_owned(), defn),
                None => Some(text.to_owned()),
            }
        } else {
            let chars = to_chars(name);
            proof {
                reveal_strlit("default_");
                assert(chars@.subrange(0, chars@.len() as int) =~= name@);
            }
            let defn = if starts_with(&chars, 0, chars.len(), "default_") {
                let shared = from_chars(&chars, 8, chars.len());
                assert(shared@ =~= name@.skip(8));
                self.default_slots.get(shared.as_str())
            } else {
                intent_slots.get(name)
            };
            match defn {
                Some(defn) => self.validate_and_process_slot(text.to_owned(), defn),
                None => None,
            }
        }
    }

    /// Turns the capture groups of a match into the result for `intent_name`:
    /// each named group that captured a text becomes a slot with its
    /// validated value, and one rejected capture leaves no result at all.
    pub fn collect_slots(
        &self,
        groups: &Vec<CaptureGroup>,
        intent_name: &str,
        intent_slots: &StringHashMap<SlotDefinition<P>>,
        raw: bool,
    ) -> (found: Option<ExtractedSlots>)
        ensures
            extraction_view(found) == extraction_of(
                captures_view(Some(*groups)).unwrap(),
                intent_name@,
                intent_slots@,
                self.default_slots@,
                raw,
            ),
    {
        let ghost all = captures_view(Some(*groups)).unwrap();
        let mut found = ExtractedSlots::new(intent_name.to_owned());
        let mut i: usize = 0;
        while i < groups.len()
            invariant
                i <= groups.len(),
                all == groups@.map_values(|g: CaptureGroup| g@),
                found@.intent == intent_name@,
                slots_of(all.take(i as int), intent_slots@, self.default_slots@, raw) == Some(
                    found@.slots,
                ),
            decreases groups.len() - i,
        {
            let ghost step = all.take(i as int + 1);
            assert(step.drop_last() =~= all.take(i as int));
            assert(step.last() == groups@[i as int]@);
            let group = &groups[i];
            match (&group.name, &group.text) {
                (Some(name), Some(text)) => {
                    match self.resolve(name.as_str(), text.as_str(), intent_slots, raw) {
                        Some(value) => {
                            found.insert(name.clone(), value);
                        },
                        None => {
                            proof {
                                lemma_slots_of_none(all, i as int + 1, intent_slots@, self.default_slots@, raw);
                            }
                            return None;
                        },
                    }
                },
                _ => {},
            }
            i += 1;
        }
        assert(all.take(groups.len() as int) =~= all);
        Some(found)
    }

    /// Matches the literal pattern `pattern` against `text`.
    pub fn extract_from_pattern(
        &self,
        pattern: &str,
        text: &str,
        intent_name: &str,
        intent_slots: &StringHashMap<SlotDefinition<P>>,
    ) -> (found: Option<ExtractedSlots>)
        ensures
            extraction_view(found) == extracted_from_pattern(
                pattern@,
                text@,
                intent_name@,
                intent_slots@,
                self.default_slots@,
            ),
    {
        match self.pattern_to_regex(pattern) {
            Some(source) => self.extract(source.as_str(), text, intent_name, intent_slots, false),
            None => None,
        }
    }

    /// Matches the raw regular expression `regex_pattern` against `text`.
    pub fn extract_from_regex(
        &self,
        regex_pattern: &str,
        text: &str,
        intent_name: &str,
        intent_slots: &StringHashMap<SlotDefinition<P>>,
    ) -> (found: Option<ExtractedSlots>)
        ensures
            extraction_view(found) == extracted_from_regex(
                regex_pattern@,
                text@,
                intent_name@,
                intent_slots@,
            ),
    {
        proof {
            lemma_raw_ignores_defaults(regex_pattern@, text@, intent_name@, intent_slots@, self.default_slots@);
        }
        self.extract(regex_pattern, text, intent_name, intent_slots, true)
    }

    /// Searches `text` with the regular expression `source` and collects the
    /// slots of the match.
    fn extract(
        &self,
        source: &str,
        text: &str,
        intent_name: &str,
        intent_slots: &StringHashMap<SlotDefinition<P>>,
        raw: bool,
    ) -> (found: Option<ExtractedSlots>)
        ensures
            extraction_view(found) == extracted(
                source@,
                text@,
                intent_name@,
                intent_slots@,
                self.default_slots@,
                raw,
            ),
    {
        match search(source, true, text) {
            Ok(Some(groups)) => self.collect_slots(&groups, intent_name, intent_slots, raw),
            Ok(None) => None,
            Err(_) => None,
        }
    }
}

/// Once a prefix of the groups has no slots, the whole has none.
proof fn lemma_slots_of_none<P: SlotProcessor>(
    groups: Seq<Capture>,
    upto: int,
    locals: Map<Seq<char>, SlotDefinition<P>>,
    defaults: Map<Seq<char>, SlotDefinition<P>>,
    raw: bool,
)
    requires
        0 <= upto <= groups.len(),
        slots_of(groups.take(upto), locals, defaults, raw) is None,
    ensures
        slots_of(groups, locals, defaults, raw) is None,
    decreases groups.len() - upto,
{
    if upto < groups.len() {
        assert(groups.take(upto + 1).drop_last() =~= groups.take(upto));
        lemma_slots_of_none(groups, upto + 1, locals, defaults, raw);
    } else {
        assert(groups.take(upto) =~= groups);
    }
}

/// A raw regular expression never consults the default slots.
proof fn lemma_raw_ignores_defaults<P: SlotProcessor>(
    source: Seq<char>,
    text: Seq<char>,
    intent: Seq<char>,
    locals: Map<Seq<char>, SlotDefinition<P>>,
    defaults: Map<Seq<char>, SlotDefinition<P>>,
)
    ensures
        extracted(source, text, intent, locals, defaults, true) == extracted(
            source,
            text,
            intent,
            locals,
            Map::empty(),
            true,
        ),
{
    if regex_compiles(source, true) && regex_captures(source, true, text) is Some {
        lemma_raw_slots(regex_captures(source, true, text).unwrap(), locals, defaults);
    }
}

proof fn lemma_raw_slots<P: SlotProcessor>(
    groups: Seq<Capture>,
    locals: Map<Seq<char>, SlotDefinition<P>>,
    defaults: Map<Seq<char>, SlotDefinition<P>>,
)
    ensures
        slots_of(groups, locals, defaults, true) == slots_of(groups, locals, Map::empty(), true),
    decreases groups.len(),
{
    if groups.len() > 0 {
        lemma_raw_slots(groups.drop_last(), locals, defaults);
    }
}

/// All or nothing: a match in which one named group captured a text that
/// is rejected has no slots at all, whatever the other groups captured.
pub proof fn lemma_one_rejection_voids_all<P: SlotProcessor>(
    groups: Seq<Capture>,
    i: int,
    intent: Seq<char>,
    locals: Map<Seq<char>, SlotDefinition<P>>,
    defaults: Map<Seq<char>, SlotDefinition<P>>,
    raw: bool,
)
    requires
        0 <= i < groups.len(),
        groups[i].name is Some,
        groups[i].text is Some,
        slot_value(groups[i].name.unwrap(), groups[i].text.unwrap(), locals, defaults, raw) is None,
    ensures
        slots_of(groups, locals, defaults, raw) is None,
        extraction_of(groups, intent, locals, defaults, raw) is None,
{
    assert(groups.take(i + 1).drop_last() =~= groups.take(i));
    assert(groups.take(i + 1).last() == groups[i]);
    lemma_slots_of_none(groups, i + 1, locals, defaults, raw);
}

/// All or nothing: where a match has slots, every named group that captured
/// a text was accepted and has its slot.
pub proof fn lemma_slots_are_complete<P: SlotProcessor>(
    groups: Seq<Capture>,
    locals: Map<Seq<char>, SlotDefinition<P>>,
    defaults: Map<Seq<char>, SlotDefinition<P>>,
    raw: bool,
)
    requires
        slots_of(groups, locals, defaults, raw) is Some,
    ensures
        distinct_names(slots_of(groups, locals, defaults, raw).unwrap()),
        forall|i: int|
            0 <= i < groups.len() && (#[trigger] groups[i]).name is Some && groups[i].text is Some
                ==> slot_value(
                groups[i].name.unwrap(),
                groups[i].text.unwrap(),
                locals,
                defaults,
                raw,
            ) is Some && has_slot(
                slots_of(groups, locals, defaults, raw).unwrap(),
                groups[i].name.unwrap(),
            ),
        forall|name: Seq<char>|
            has_slot(slots_of(groups, locals, defaults, raw).unwrap(), name) ==> exists|i: int|
                0 <= i < groups.len() && (#[trigger] groups[i]).name == Some(name)
                    && groups[i].text is Some,
    decreases groups.len(),
{
    if groups.len() > 0 {
        let earlier = groups.drop_last();
        lemma_slots_are_complete(earlier, locals, defaults, raw);
        let before = slots_of(earlier, locals, defaults, raw).unwrap();
        let after = slots_of(groups, locals, defaults, raw).unwrap();
        let last = groups.last();
        if last.name is Some && last.text is Some {
            let name = last.name.unwrap();
            let value = slot_value(name, last.text.unwrap(), locals, defaults, raw).unwrap();
            lemma_with_slot(before, name, value);
        }
        assert forall|i: int|
            0 <= i < groups.len() && (#[trigger] groups[i]).name is Some
                && groups[i].text is Some implies slot_value(
            groups[i].name.unwrap(),
            groups[i].text.unwrap(),
            locals,
            defaults,
            raw,
        ) is Some && has_slot(after, groups[i].name.unwrap()) by {
            if i < earlier.len() {
                assert(earlier[i] == groups[i]);
                assert(has_slot(before, groups[i].name.unwrap()));
            }
        }
        assert forall|name: Seq<char>| has_slot(after, name) implies exists|i: int|
            0 <= i < groups.len() && (#[trigger] groups[i]).name == Some(name)
                && groups[i].text is Some by {
            if has_slot(before, name) {
                let i = choose|i: int|
                    0 <= i < earlier.len() && (#[trigger] earlier[i]).name == Some(name)
                        && earlier[i].text is Some;
                assert(groups[i] == earlier[i]);
            } else {
                assert(groups[groups.len() - 1] == last);
            }
        }
    }
}

/// Setting a slot keeps the names distinct, keeps the value of every other
/// slot and adds no name but the one that was set: as a mapping, the slots
/// gain the one entry.
pub proof fn lemma_with_slot(slots: Slots, name: Seq<char>, value: Seq<char>)
    requires
        distinct_names(slots),
    ensures
        distinct_names(with_slot(slots, name, value)),
        slot_of(with_slot(slots, name, value), name) == Some(value),
        forall|other: Seq<char>|
            has_slot(with_slot(slots, name, value), other) <==> other == name || has_slot(
                slots,
                other,
            ),
        forall|other: Seq<char>|
            other != name ==> slot_of(with_slot(slots, name, value), other) == slot_of(slots, other),
        slot_map(with_slot(slots, name, value)) == slot_map(slots).insert(name, value),
{
    lemma_with_slot_names(slots, name, value);
    assert(slot_map(with_slot(slots, name, value)) =~= slot_map(slots).insert(name, value));
}

/// See [`lemma_with_slot`].
proof fn lemma_with_slot_names(slots: Slots, name: Seq<char>, value: Seq<char>)
    requires
        distinct_names(slots),
    ensures
        distinct_names(with_slot(slots, name, value)),
        slot_of(with_slot(slots, name, value), name) == Some(value),
        forall|other: Seq<char>|
            has_slot(with_slot(slots, name, value), other) <==> other == name || has_slot(
                slots,
                other,
            ),
        forall|other: Seq<char>|
            other != name ==> slot_of(with_slot(slots, name, value), other) == slot_of(slots, other),
{
    let after = with_slot(slots, name, value);
    let k = if has_slot(slots, name) {
        slot_index(slots, name)
    } else {
        slots.len() as int
    };
    assert(after[k] == (name, value));
    assert forall|other: Seq<char>| has_slot(after, other) <==> other == name || has_slot(
        slots,
        other,
    ) by {
        if has_slot(after, other) {
            let i = slot_index(after, other);
            if i != k {
                assert(slots[i].0 == other);
            }
        }
        if has_slot(slots, other) {
            let i = slot_index(slots, other);
            assert(after[i].0 == other);
        }
    }
    assert forall|other: Seq<char>| other != name implies slot_of(after, other) == slot_of(
        slots,
        other,
    ) by {
        if has_slot(slots, other) {
            let i = slot_index(slots, other);
            assert(after[i].0 == other);
            let j = slot_index(after, other);
            assert(slots[j].0 == other);
        }
    }
    let j = slot_index(after, name);
    if j != k {
        assert(slots[j].0 == name);
    }
}

/// A pattern with a placeholder for a default slot that the table does not
/// have matches no text.
pub proof fn lemma_unknown_default_never_matches<P: SlotProcessor>(
    pattern: Seq<char>,
    i: int,
    text: Seq<char>,
    intent: Seq<char>,
    locals: Map<Seq<char>, SlotDefinition<P>>,
    defaults: Map<Seq<char>, SlotDefinition<P>>,
)
    requires
        0 <= i < placeholders(pattern, 0).len(),
        unresolved(placeholders(pattern, 0)[i], defaults),
    ensures
        extracted_from_pattern(pattern, text, intent, locals, defaults) is None,
{
    lemma_unknown_default_has_no_regex(pattern, defaults, i);
}

/// A regular expression that does not compile matches no text.
pub proof fn lemma_malformed_regex_never_matches<P: SlotProcessor>(
    pattern: Seq<char>,
    text: Seq<char>,
    intent: Seq<char>,
    locals: Map<Seq<char>, SlotDefinition<P>>,
)
    requires
        !regex_compiles(pattern, true),
    ensures
        extracted_from_regex(pattern, text, intent, locals) is None,
{
}

/// In a raw regular expression a named group without a definition among the
/// intent's slots is taken as it is.
pub proof fn lemma_raw_group_passes_through<P: SlotProcessor>(
    name: Seq<char>,
    text: Seq<char>,
    locals: Map<Seq<char>, SlotDefinition<P>>,
    defaults: Map<Seq<char>, SlotDefinition<P>>,
)
    requires
        !locals.contains_key(name),
    ensures
        slot_value(name, text, locals, defaults, true) == Some(text),
{
}

/// What the named groups of a match captured: the name and the text of each
/// named group that took part, in order.
pub open spec fn captured(groups: Seq<Capture>) -> Slots
    decreases groups.len(),
{
    if groups.len() == 0 {
        Seq::empty()
    } else {
        match (groups.last().name, groups.last().text) {
            (Some(name), Some(text)) => captured(groups.drop_last()).push((name, text)),
            _ => captured(groups.drop_last()),
        }
    }
}

/// Every capture is a catch-all slot of the intent: its group does not
/// carry the reserved prefix and its name has a catch-all definition.
pub open spec fn all_catch_all<P: SlotProcessor>(
    groups: Seq<Capture>,
    locals: Map<Seq<char>, SlotDefinition<P>>,
) -> bool {
    forall|i: int|
        0 <= i < groups.len() && (#[trigger] groups[i]).name is Some && groups[i].text is Some ==> {
            &&& !"default_"@.is_prefix_of(groups[i].name.unwrap())
            &&& locals.contains_key(groups[i].name.unwrap())
            &&& locals[groups[i].name.unwrap()] is CatchAll
        }
}

/// Where every capture of a match is a catch-all slot of the intent, under
/// a name of its own, the match has exactly the captured texts as its slots,
/// each unchanged.
pub proof fn lemma_catch_all_captures_are_kept<P: SlotProcessor>(
    groups: Seq<Capture>,
    locals: Map<Seq<char>, SlotDefinition<P>>,
    defaults: Map<Seq<char>, SlotDefinition<P>>,
)
    requires
        all_catch_all(groups, locals),
        distinct_names(captured(groups)),
    ensures
        slots_of(groups, locals, defaults, false) == Some(captured(groups)),
    decreases groups.len(),
{
    if groups.len() > 0 {
        let earlier = groups.drop_last();
        let last = groups.last();
        let before = captured(earlier);
        assert forall|i: int|
            0 <= i < earlier.len() && (#[trigger] earlier[i]).name is Some
                && earlier[i].text is Some implies {
            &&& !"default_"@.is_prefix_of(earlier[i].name.unwrap())
            &&& locals.contains_key(earlier[i].name.unwrap())
            &&& locals[earlier[i].name.unwrap()] is CatchAll
        } by {
            assert(earlier[i] == groups[i]);
        }
        if last.name is Some && last.text is Some {
            let after = captured(groups);
            assert(after == before.push((last.name.unwrap(), last.text.unwrap())));
            assert forall|i: int, j: int| 0 <= i < j < before.len() implies (
            #[trigger] before[i]).0 != (#[trigger] before[j]).0 by {
                assert(after[i].0 != after[j].0);
            }
            lemma_catch_all_captures_are_kept(earlier, locals, defaults);
            assert(groups[groups.len() - 1] == last);
            assert(!has_slot(before, last.name.unwrap())) by {
                if has_slot(before, last.name.unwrap()) {
                    let i = slot_index(before, last.name.unwrap());
                    assert(after[i].0 != after[after.len() - 1].0);
                }
            }
        } else {
            lemma_catch_all_captures_are_kept(earlier, locals, defaults);
        }
    }
}

/// The round trip, as far as it is this library's: if the regular
/// expression of a literal pattern matches a text, and every capture is a
/// catch-all slot of the intent under a name of its own, the pattern
/// extracts exactly the captured texts, each unchanged. That the expression
/// matches the text that the pattern was rendered to is the engine's part.
pub proof fn lemma_round_trip_of_a_match<P: SlotProcessor>(
    pattern: Seq<char>,
    text: Seq<char>,
    intent: Seq<char>,
    locals: Map<Seq<char>, SlotDefinition<P>>,
    defaults: Map<Seq<char>, SlotDefinition<P>>,
)
    requires
        regex_source(pattern, defaults) matches Some(source) && (regex_compiles(source, true) && (
        regex_captures(source, true, text) matches Some(groups) && (all_catch_all(groups, locals)
            && distinct_names(captured(groups))))),
    ensures
        extracted_from_pattern(pattern, text, intent, locals, defaults) == Some(
            Extraction {
                intent,
                slots: captured(
                    regex_captures(regex_source(pattern, defaults).unwrap(), true, text).unwrap(),
                ),
            },
        ),
{
    let source = regex_source(pattern, defaults).unwrap();
    lemma_catch_all_captures_are_kept(regex_captures(source, true, text).unwrap(), locals, defaults);
}

} // verus!
