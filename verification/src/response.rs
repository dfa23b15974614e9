//! The responses of a skill: for each language, the texts to answer with.

use vstd::hash_map::StringHashMap;
use vstd::prelude::*;

verus! {

/// The responses declared under one identifier.
pub struct Response {
    /// The identifier.
    pub id: String,
    /// The texts, by language.
    pub response: StringHashMap<Vec<String>>,
}

impl Response {
    /// A response without texts.
    pub fn new(id: String) -> (response: Self)
        ensures
            response.id == id,
            response.response@ == Map::<Seq<char>, Vec<String>>::empty(),
    {
        Response { id, response: StringHashMap::new() }
    }

    /// Sets the texts of the language `lang`.
    pub fn set_language(&mut self, lang: String, texts: Vec<String>)
        ensures
            final(self).id == old(self).id,
            final(self).response@ == old(self).response@.insert(lang@, texts),
    {
        self.response.insert(lang, texts);
    }

    /// A response is valid if it has an identifier and texts for at least
    /// one language.
    pub fn is_valid(&self) -> (valid: bool)
        ensures
            valid == (self.response@.len() > 0 && self.id@.len() > 0),
    {
        broadcast use vstd::hash_map::group_hash_map_axioms;

        self.response.len() > 0 && !self.id.as_str().is_empty()
    }

    /// The text to answer with in the language `lang`: the first that is
    /// declared for it, if the response is valid and has one.
    pub fn first_text(&self, lang: &str) -> (text: Option<String>)
        ensures
            text is Some <==> self.response@.len() > 0 && self.id@.len() > 0
                && self.response@.contains_key(lang@) && self.response@[lang@]@.len() > 0,
            text matches Some(t) ==> t@ == self.response@[lang@]@[0]@,
    {
        if !self.is_valid() {
            return None;
        }
        match self.response.get(lang) {
            Some(texts) => {
                if texts.len() > 0 {
                    Some(texts[0].clone())
                } else {
                    None
                }
            },
            None => None,
        }
    }
}

} // verus!
