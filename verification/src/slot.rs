//! Slot definitions: the policy by which a captured text is accepted,
//! transformed or rejected, and the table of definitions shared by all
//! intents.

use vstd::hash_map::StringHashMap;
use vstd::prelude::*;

use crate::matcher::escaped;
use crate::text::{eq_ignoring_ascii_case, opt_view, views};

verus! {

/// A transform of a captured text: it may normalise the text or reject it.
///
/// The transform is a function of the text alone. `processed` is what it
/// computes, and `process` is the code that computes it. Everything that is
/// proved of a slot with a processor is proved from this agreement of the
/// two; for an implementation that Verus has not seen it is an assumption.
/// Such an implementation still has to define `processed`, which is never
/// run.
pub trait SlotProcessor {
    /// The transformed text, or `None` where the text is rejected.
    spec fn processed(&self, text: Seq<char>) -> Option<Seq<char>>;

    /// Transforms `text`.
    fn process(&self, text: String) -> (value: Option<String>)
        ensures
            opt_view(value) == self.processed(text@),
    ;
}

/// The transform that accepts every text as it is.
#[derive(Debug, Clone, Copy)]
pub struct Verbatim;

impl SlotProcessor for Verbatim {
    open spec fn processed(&self, text: Seq<char>) -> Option<Seq<char>> {
        Some(text)
    }

    fn process(&self, text: String) -> (value: Option<String>) {
        Some(text)
    }
}

/// The policy of one slot. Exactly one of the three holds.
pub enum SlotDefinition<P: SlotProcessor> {
    /// A text is valid if it equals one of `values`, ASCII case ignored; its
    /// value is then the listed one.
    Enumeration { values: Vec<String> },
    /// Every text is valid.
    CatchAll,
    /// A text is handed to `processor`, which decides.
    CatchProcess { processor: P },
}

/// The body of the pattern that stands for "one or more characters, as few
/// as possible".
pub open spec fn lazy_text() -> Seq<char> {
    seq!['.', '+', '?']
}

/// The texts of `values`, separated by `|`.
pub open spec fn alternation(values: Seq<Seq<char>>) -> Seq<char>
    decreases values.len(),
{
    if values.len() == 0 {
        Seq::empty()
    } else if values.len() == 1 {
        values[0]
    } else {
        alternation(values.drop_last()) + seq!['|'] + values.last()
    }
}

/// The first of `values` that equals `text`, ASCII case ignored.
pub open spec fn listed_as(values: Seq<Seq<char>>, text: Seq<char>) -> Option<Seq<char>>
    decreases values.len(),
{
    if values.len() == 0 {
        None
    } else if eq_ignoring_ascii_case(values[0], text) {
        Some(values[0])
    } else {
        listed_as(values.drop_first(), text)
    }
}

/// The alternation that matches exactly the texts of `values` as they are
/// written: each value as literal text, separated by `|`.
pub open spec fn literal_alternation(values: Seq<Seq<char>>) -> Seq<char> {
    alternation(values.map_values(|value: Seq<char>| escaped(value)))
}

impl<P: SlotProcessor> SlotDefinition<P> {
    /// A slot that accepts the listed values.
    pub fn new_enumeration(values: Vec<String>) -> (defn: Self)
        ensures
            defn == (SlotDefinition::<P>::Enumeration { values }),
    {
        SlotDefinition::Enumeration { values }
    }

    /// A slot that accepts every text.
    pub fn new_catch_all() -> (defn: Self)
        ensures
            defn == SlotDefinition::<P>::CatchAll,
    {
        SlotDefinition::CatchAll
    }

    /// A slot whose texts are handed to `processor`.
    pub fn new_processor(processor: P) -> (defn: Self)
        ensures
            defn == (SlotDefinition::CatchProcess { processor }),
    {
        SlotDefinition::CatchProcess { processor }
    }

    /// The value of a slot that captured `text`: `None` where the policy
    /// rejects the text. An enumeration gives the listed value that the text
    /// equals up to ASCII case, a catch-all the text itself, a processor what
    /// it makes of the text.
    pub open spec fn value_of(self, text: Seq<char>) -> Option<Seq<char>> {
        match self {
            SlotDefinition::Enumeration { values } => listed_as(views(values@), text),
            SlotDefinition::CatchAll => Some(text),
            SlotDefinition::CatchProcess { processor } => processor.processed(text),
        }
    }

    /// What a capture group of this slot matches in a compiled pattern: the
    /// listed values, as literal text, for an enumeration; any text
    /// otherwise.
    pub open spec fn group_body(self) -> Seq<char> {
        match self {
            SlotDefinition::Enumeration { values } => literal_alternation(views(values@)),
            _ => lazy_text(),
        }
    }
}

/// The table of the slots that all intents share, by name.
#[verifier::reject_recursive_types(P)]
pub struct DefaultSlotManager<P: SlotProcessor> {
    defaults: StringHashMap<SlotDefinition<P>>,
}

impl<P: SlotProcessor> View for DefaultSlotManager<P> {
    type V = Map<Seq<char>, SlotDefinition<P>>;

    closed spec fn view(&self) -> Map<Seq<char>, SlotDefinition<P>> {
        self.defaults@
    }
}

/// The values of the built-in slot `locations`.
pub open spec fn locations() -> Seq<Seq<char>> {
    seq!["new york"@, "london"@, "paris"@, "tokyo"@]
}

/// The built-in table: `locations`, an enumeration of four cities, and
/// `dates`, whose processor takes every text as it is.
pub open spec fn is_builtin(table: Map<Seq<char>, SlotDefinition<Verbatim>>) -> bool {
    &&& table.dom() =~= set!["locations"@, "dates"@]
    &&& table["locations"@] matches SlotDefinition::Enumeration { values } && views(values@)
        == locations()
    &&& table["dates"@] is CatchProcess
}

impl DefaultSlotManager<Verbatim> {
    /// The built-in table.
    pub fn new() -> (table: Self)
        ensures
            is_builtin(table@),
    {
        let mut defaults: StringHashMap<SlotDefinition<Verbatim>> = StringHashMap::new();
        let values: Vec<String> = vec![
            "new york".to_owned(),
            "london".to_owned(),
            "paris".to_owned(),
            "tokyo".to_owned(),
        ];
        assert(views(values@) =~= locations());
        defaults.insert("locations".to_owned(), SlotDefinition::new_enumeration(values));
        defaults.insert("dates".to_owned(), SlotDefinition::new_processor(Verbatim));
        proof {
            reveal_strlit("locations");
            reveal_strlit("dates");
            assert("locations"@ != "dates"@) by {
                assert("locations"@.len() != "dates"@.len());
            }
        }
        DefaultSlotManager { defaults }
    }
}

impl<P: SlotProcessor> DefaultSlotManager<P> {
    /// A table without slots, for an application that brings its own.
    pub fn empty() -> (table: Self)
        ensures
            table@ == Map::<Seq<char>, SlotDefinition<P>>::empty(),
    {
        DefaultSlotManager { defaults: StringHashMap::new() }
    }

    /// Adds the shared slot `slot_name`, in place of an earlier one of that
    /// name.
    pub fn insert(&mut self, slot_name: String, defn: SlotDefinition<P>)
        ensures
            final(self)@ == old(self)@.insert(slot_name@, defn),
    {
        self.defaults.insert(slot_name, defn);
    }

    /// The definition of the shared slot `slot_name`, if there is one.
    pub fn get(&self, slot_name: &str) -> (defn: Option<&SlotDefinition<P>>)
        ensures
            defn is Some <==> self@.contains_key(slot_name@),
            defn matches Some(d) ==> *d == self@[slot_name@],
    {
        self.defaults.get(slot_name)
    }
}

/// A text is listed exactly when it equals one of the values up to ASCII
/// case, and the value it is listed as is the first such value.
pub proof fn lemma_listed_as(values: Seq<Seq<char>>, text: Seq<char>)
    ensures
        listed_as(values, text) is Some <==> exists|i: int|
            0 <= i < values.len() && eq_ignoring_ascii_case(#[trigger] values[i], text),
        listed_as(values, text) matches Some(value) ==> eq_ignoring_ascii_case(value, text)
            && values.contains(value),
    decreases values.len(),
{
    if values.len() > 0 {
        let rest = values.drop_first();
        lemma_listed_as(rest, text);
        if eq_ignoring_ascii_case(values[0], text) {
        } else {
            if listed_as(rest, text) is Some {
                let i = choose|i: int|
                    0 <= i < rest.len() && eq_ignoring_ascii_case(#[trigger] rest[i], text);
                assert(values[i + 1] == rest[i]);
                let value = listed_as(rest, text).unwrap();
                let k = choose|k: int| 0 <= k < rest.len() && rest[k] == value;
                assert(values[k + 1] == value);
            }
            if exists|i: int|
                0 <= i < values.len() && eq_ignoring_ascii_case(#[trigger] values[i], text) {
                let i = choose|i: int|
                    0 <= i < values.len() && eq_ignoring_ascii_case(#[trigger] values[i], text);
                assert(rest[i - 1] == values[i]);
            }
        }
    }
}

/// Enumeration matching ignores ASCII case: two texts that differ in ASCII
/// case only are accepted or rejected alike, and with the same value.
pub proof fn lemma_enumeration_ignores_case<P: SlotProcessor>(
    defn: SlotDefinition<P>,
    a: Seq<char>,
    b: Seq<char>,
)
    requires
        defn is Enumeration,
        eq_ignoring_ascii_case(a, b),
    ensures
        defn.value_of(a) == defn.value_of(b),
{
    lemma_listed_ignores_case(views(defn->values@), a, b);
}

/// See [`lemma_enumeration_ignores_case`].
pub proof fn lemma_listed_ignores_case(values: Seq<Seq<char>>, a: Seq<char>, b: Seq<char>)
    requires
        eq_ignoring_ascii_case(a, b),
    ensures
        listed_as(values, a) == listed_as(values, b),
    decreases values.len(),
{
    if values.len() > 0 {
        lemma_listed_ignores_case(values.drop_first(), a, b);
    }
}

/// A text that is one of the listed values, in whatever ASCII case, is
/// accepted by the enumeration.
pub proof fn lemma_enumeration_accepts_listed<P: SlotProcessor>(
    defn: SlotDefinition<P>,
    i: int,
    text: Seq<char>,
)
    requires
        defn matches SlotDefinition::Enumeration { values } && 0 <= i < values@.len()
            && eq_ignoring_ascii_case(values@[i]@, text),
    ensures
        defn.value_of(text) is Some,
        eq_ignoring_ascii_case(defn.value_of(text).unwrap(), text),
{
    let values = views(defn->values@);
    assert(eq_ignoring_ascii_case(values[i], text));
    lemma_listed_as(values, text);
}

} // verus!
