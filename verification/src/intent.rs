//! Intents and the declarations they are loaded from.

use vstd::hash_map::StringHashMap;
use vstd::prelude::*;

use crate::slot::{SlotDefinition, SlotProcessor};
use crate::text::views;

verus! {

/// What a declaration gives for one slot.
#[derive(Debug, Clone)]
pub enum SlotShape {
    /// A text. Only the wildcard `*` declares a slot.
    Text(String),
    /// A list. Each item is the text it holds, or `None` for an item that is
    /// no text. Only a list of texts declares a slot.
    List(Vec<Option<String>>),
    /// Anything else.
    Other,
}

/// The declaration of one intent, as an application hands it in.
#[derive(Debug, Clone)]
pub struct IntentFile {
    /// The name of the intent.
    pub intent: String,
    /// The literal patterns, with placeholders.
    pub patterns: Vec<String>,
    /// The raw regular expressions.
    pub regex_patterns: Vec<String>,
    /// The slots of the intent, by name.
    pub slots: Vec<(String, SlotShape)>,
}

/// A named command: its patterns and the definitions of its own slots.
#[verifier::reject_recursive_types(P)]
pub struct Intent<P: SlotProcessor> {
    pub name: String,
    pub patterns: Vec<String>,
    pub regex_patterns: Vec<String>,
    pub slots: StringHashMap<SlotDefinition<P>>,
}

/// Why a declaration was not loaded.
#[derive(Debug, Clone)]
pub enum LoadError {
    /// The declaration has no name.
    EmptyName,
    /// The declaration has neither a pattern nor a regular expression.
    NoPatterns,
    /// The slot of this name is neither the wildcard nor a list of texts.
    InvalidSlot(String),
    /// The slot of this name begins with `default_`, which is reserved for
    /// the capture groups of default slots.
    ReservedSlotName(String),
    /// Strict loading only: this literal pattern has a `{` without a `}`.
    UnterminatedBrace(String),
    /// Strict loading only: this literal pattern refers to a default slot
    /// that the table does not have.
    UnknownDefaultSlot(String),
    /// Strict loading only: two placeholders of this literal pattern have
    /// the same capture group.
    RepeatedPlaceholder(String),
}

/// The mathematical content of a [`LoadError`].
pub ghost enum LoadFailure {
    EmptyName,
    NoPatterns,
    InvalidSlot(Seq<char>),
    ReservedSlotName(Seq<char>),
    UnterminatedBrace(Seq<char>),
    UnknownDefaultSlot(Seq<char>),
    RepeatedPlaceholder(Seq<char>),
}

impl View for LoadError {
    type V = LoadFailure;

    open spec fn view(&self) -> LoadFailure {
        match *self {
            LoadError::EmptyName => LoadFailure::EmptyName,
            LoadError::NoPatterns => LoadFailure::NoPatterns,
            LoadError::InvalidSlot(slot) => LoadFailure::InvalidSlot(slot@),
            LoadError::ReservedSlotName(slot) => LoadFailure::ReservedSlotName(slot@),
            LoadError::UnterminatedBrace(pattern) => LoadFailure::UnterminatedBrace(pattern@),
            LoadError::UnknownDefaultSlot(pattern) => LoadFailure::UnknownDefaultSlot(pattern@),
            LoadError::RepeatedPlaceholder(pattern) => LoadFailure::RepeatedPlaceholder(pattern@),
        }
    }
}

/// The items of a list, if every one of them is a text.
fn texts_of(items: &Vec<Option<String>>) -> (texts: Option<Vec<String>>)
    ensures
        texts is Some <==> SlotShape::all_texts(items@),
        texts matches Some(values) ==> views(values@) == items@.map_values(
            |item: Option<String>| item.unwrap()@,
        ),
{
    let mut values: Vec<String> = Vec::new();
    let mut i: usize = 0;
    while i < items.len()
        invariant
            i <= items.len(),
            forall|j: int| 0 <= j < i ==> (#[trigger] items@[j]) is Some,
            values@.len() == i,
            forall|j: int| 0 <= j < i ==> (#[trigger] values@[j])@ == items@[j].unwrap()@,
        decreases items.len() - i,
    {
        match &items[i] {
            Some(text) => {
                values.push(text.clone());
            },
            None => {
                return None;
            },
        }
        i += 1;
    }
    assert(views(values@) =~= items@.map_values(|item: Option<String>| item.unwrap()@));
    Some(values)
}

impl SlotShape {
    /// Every item of a list is a text.
    pub open spec fn all_texts(items: Seq<Option<String>>) -> bool {
        forall|i: int| 0 <= i < items.len() ==> (#[trigger] items[i]) is Some
    }

    /// Whether the shape declares a slot.
    pub open spec fn declares_slot(self) -> bool {
        match self {
            SlotShape::Text(token) => token@ == "*"@,
            SlotShape::List(items) => Self::all_texts(items@),
            SlotShape::Other => false,
        }
    }

    /// Whether `defn` is the definition that the shape declares: a catch-all
    /// for the wildcard, an enumeration of the listed texts for a list.
    pub open spec fn declares<P: SlotProcessor>(self, defn: SlotDefinition<P>) -> bool {
        match self {
            SlotShape::Text(token) => token@ == "*"@ && defn is CatchAll,
            SlotShape::List(items) => {
                &&& Self::all_texts(items@)
                &&& defn matches SlotDefinition::Enumeration { values }
                &&& views(values@) == items@.map_values(|item: Option<String>| item.unwrap()@)
            },
            SlotShape::Other => false,
        }
    }

    /// The definition that the shape declares, if it declares one.
    pub fn definition<P: SlotProcessor>(&self) -> (defn: Option<SlotDefinition<P>>)
        ensures
            defn is Some <==> self.declares_slot(),
            defn matches Some(d) ==> self.declares(d),
    {
        match self {
            SlotShape::Text(token) => {
                if *token.as_str() == *"*" {
                    Some(SlotDefinition::new_catch_all())
                } else {
                    None
                }
            },
            SlotShape::List(items) => {
                match texts_of(items) {
                    Some(values) => Some(SlotDefinition::new_enumeration(values)),
                    None => None,
                }
            },
            SlotShape::Other => None,
        }
    }
}

impl IntentFile {
    /// A declaration is valid if it has a name and at least one pattern or
    /// regular expression.
    pub fn is_valid(&self) -> (valid: bool)
        ensures
            valid == self.spec_is_valid(),
    {
        (self.patterns.len() > 0 || self.regex_patterns.len() > 0) && !self.intent.as_str().is_empty()
    }

    /// See [`IntentFile::is_valid`].
    pub open spec fn spec_is_valid(&self) -> bool {
        (self.patterns@.len() > 0 || self.regex_patterns@.len() > 0) && self.intent@.len() > 0
    }
}

/// The error in words.
pub open spec fn failure_message(failure: LoadFailure) -> Seq<char> {
    match failure {
        LoadFailure::EmptyName => "Intent must have a name"@,
        LoadFailure::NoPatterns => "Intent must have at least one pattern or regex pattern"@,
        LoadFailure::InvalidSlot(slot) => "Invalid slot definition for "@ + slot,
        LoadFailure::ReservedSlotName(slot) => "Reserved slot name "@ + slot,
        LoadFailure::UnterminatedBrace(pattern) => "Unterminated placeholder in "@ + pattern,
        LoadFailure::UnknownDefaultSlot(pattern) => "Unknown default slot in "@ + pattern,
        LoadFailure::RepeatedPlaceholder(pattern) => "Repeated placeholder in "@ + pattern,
    }
}

impl LoadError {
    /// The error in words.
    pub fn message(&self) -> (text: String)
        ensures
            text@ == failure_message(self@),
    {
        match self {
            LoadError::EmptyName => "Intent must have a name".to_owned(),
            LoadError::NoPatterns => "Intent must have at least one pattern or regex pattern".to_owned(),
            LoadError::InvalidSlot(slot) => {
                "Invalid slot definition for ".to_owned().concat(slot.as_str())
            },
            LoadError::ReservedSlotName(slot) => "Reserved slot name ".to_owned().concat(
                slot.as_str(),
            ),
            LoadError::UnterminatedBrace(pattern) => "Unterminated placeholder in ".to_owned().concat(
                pattern.as_str(),
            ),
            LoadError::UnknownDefaultSlot(pattern) => "Unknown default slot in ".to_owned().concat(
                pattern.as_str(),
            ),
            LoadError::RepeatedPlaceholder(pattern) => "Repeated placeholder in ".to_owned().concat(
                pattern.as_str(),
            ),
        }
    }
}

} // verus!
