//! Strict loading: what otherwise shows only as a pattern that never
//! matches is refused when the intent is loaded.

use vstd::prelude::*;

use crate::engine::{failure, loaded_from, IntentEngine};
use crate::intent::{IntentFile, LoadError, LoadFailure};
use crate::pattern::{closing_brace, lemma_closing_brace_bounds, placeholders, regex_source};
use crate::slot::{SlotDefinition, SlotProcessor};
use crate::slot_extractor::SlotExtractor;
use crate::text::{from_chars, opt_view, push_str, starts_with, to_chars, views};

verus! {

/// The name of the capture group of the placeholder `{body}`.
pub open spec fn group_name(body: Seq<char>) -> Seq<char> {
    if "default/"@.is_prefix_of(body) {
        "default_"@ + body.skip("default/"@.len() as int)
    } else {
        body
    }
}

/// The names of the capture groups of `pattern`, in order.
pub open spec fn group_names(pattern: Seq<char>) -> Seq<Seq<char>> {
    placeholders(pattern, 0).map_values(|body: Seq<char>| group_name(body))
}

/// Whether `pattern[at..]` has a `{` that opens no placeholder, for want of
/// a `}` behind it.
pub open spec fn unterminated(pattern: Seq<char>, at: int) -> bool
    decreases pattern.len() - at,
    via unterminated_decreases
{
    if at < 0 || at >= pattern.len() {
        false
    } else if pattern[at] != '{' {
        unterminated(pattern, at + 1)
    } else {
        let close = closing_brace(pattern, at + 1);
        if close >= pattern.len() {
            true
        } else {
            unterminated(pattern, close + 1)
        }
    }
}

#[via_fn]
proof fn unterminated_decreases(pattern: Seq<char>, at: int) {
    if 0 <= at < pattern.len() {
        lemma_closing_brace_bounds(pattern, at + 1);
    }
}

/// What strict loading objects to in one literal pattern: an open brace,
/// or else a reference to a default slot that the table does not have, or
/// else two placeholders with one capture group.
pub open spec fn objection<P: SlotProcessor>(
    pattern: Seq<char>,
    defaults: Map<Seq<char>, SlotDefinition<P>>,
) -> Option<LoadFailure> {
    if unterminated(pattern, 0) {
        Some(LoadFailure::UnterminatedBrace(pattern))
    } else if regex_source(pattern, defaults) is None {
        Some(LoadFailure::UnknownDefaultSlot(pattern))
    } else if !group_names(pattern).no_duplicates() {
        Some(LoadFailure::RepeatedPlaceholder(pattern))
    } else {
        None
    }
}

/// The objection to the first of `patterns` that has one.
pub open spec fn first_objection<P: SlotProcessor>(
    patterns: Seq<Seq<char>>,
    defaults: Map<Seq<char>, SlotDefinition<P>>,
) -> Option<LoadFailure>
    decreases patterns.len(),
{
    if patterns.len() == 0 {
        None
    } else {
        match objection(patterns[0], defaults) {
            Some(found) => Some(found),
            None => first_objection(patterns.drop_first(), defaults),
        }
    }
}

/// Why `declaration` cannot be loaded strictly: for the reason for which
/// it cannot be loaded at all, or else for the first objection to one of
/// its literal patterns.
pub open spec fn strict_failure<P: SlotProcessor>(
    declaration: IntentFile,
    defaults: Map<Seq<char>, SlotDefinition<P>>,
) -> Option<LoadFailure> {
    match failure(declaration) {
        Some(found) => Some(found),
        None => first_objection(views(declaration.patterns@), defaults),
    }
}

/// The content of an optional error.
pub open spec fn error_view(error: Option<LoadError>) -> Option<LoadFailure> {
    match error {
        Some(error) => Some(error@),
        None => None,
    }
}

/// The bodies of the placeholders of `chars`, and whether a brace is left
/// open.
fn scan(chars: &Vec<char>) -> (found: (Vec<String>, bool))
    ensures
        views(found.0@) == placeholders(chars@, 0),
        found.1 == unterminated(chars@, 0),
{
    let mut bodies: Vec<String> = Vec::new();
    let mut pos: usize = 0;
    assert(views(bodies@) + placeholders(chars@, 0) =~= placeholders(chars@, 0));
    while pos < chars.len()
        invariant
            pos <= chars.len(),
            placeholders(chars@, 0) == views(bodies@) + placeholders(chars@, pos as int),
            unterminated(chars@, 0) == unterminated(chars@, pos as int),
        decreases chars.len() - pos,
    {
        if chars[pos] == '{' {
            let mut close: usize = pos + 1;
            while close < chars.len() && chars[close] != '}'
                invariant
                    pos + 1 <= close <= chars.len(),
                    closing_brace(chars@, pos + 1) == closing_brace(chars@, close as int),
                decreases chars.len() - close,
            {
                close += 1;
            }
            if close >= chars.len() {
                assert(views(bodies@) + Seq::<Seq<char>>::empty() =~= views(bodies@));
                return (bodies, true);
            }
            let ghost before = views(bodies@);
            let ghost rest = placeholders(chars@, close + 1);
            bodies.push(from_chars(chars, pos + 1, close));
            assert(before + (seq![chars@.subrange(pos + 1, close as int)] + rest) =~= views(bodies@)
                + rest);
            pos = close + 1;
        } else {
            pos += 1;
        }
    }
    assert(views(bodies@) + Seq::<Seq<char>>::empty() =~= views(bodies@));
    (bodies, false)
}

/// The name of the capture group of the placeholder `{body}`.
fn group_name_of(body: &str) -> (name: String)
    ensures
        name@ == group_name(body@),
{
    let chars = to_chars(body);
    proof {
        reveal_strlit("default/");
        assert(chars@.subrange(0, chars@.len() as int) =~= body@);
    }
    if starts_with(&chars, 0, chars.len(), "default/") {
        let mut name: Vec<char> = Vec::new();
        push_str(&mut name, "default_");
        let ghost prefix = name@;
        let mut i: usize = 8;
        while i < chars.len()
            invariant
                8 <= i <= chars.len(),
                name@ == prefix + chars@.subrange(8, i as int),
            decreases chars.len() - i,
        {
            name.push(chars[i]);
            i += 1;
            assert(name@ =~= prefix + chars@.subrange(8, i as int));
        }
        assert(chars@.subrange(8, chars@.len() as int) =~= body@.skip(8));
        let name = from_chars(&name, 0, name.len());
        assert(name@ =~= "default_"@ + body@.skip(8));
        name
    } else {
        body.to_owned()
    }
}

/// Whether two of `names` are the same.
fn has_repeats(names: &Vec<String>) -> (repeated: bool)
    ensures
        repeated == !views(names@).no_duplicates(),
{
    let mut i: usize = 0;
    while i < names.len()
        invariant
            i <= names.len(),
            forall|a: int, b: int|
                0 <= a < i && a < b < names.len() ==> views(names@)[a] != views(names@)[b],
        decreases names.len() - i,
    {
        let mut j: usize = i + 1;
        while j < names.len()
            invariant
                i < j <= names.len(),
                forall|b: int| i < b < j ==> views(names@)[i as int] != views(names@)[b],
            decreases names.len() - j,
        {
            if *names[i].as_str() == *names[j].as_str() {
                assert(views(names@)[i as int] == views(names@)[j as int]);
                return true;
            }
            j += 1;
        }
        i += 1;
    }
    assert forall|a: int, b: int|
        0 <= a < views(names@).len() && 0 <= b < views(names@).len() && a != b implies views(
        names@,
    )[a] != views(names@)[b] by {
        if a < b {
        } else {
            assert(views(names@)[b] != views(names@)[a]);
        }
    }
    false
}

impl<P: SlotProcessor> IntentEngine<P> {
    /// What strict loading objects to in the literal pattern `pattern`.
    pub fn check_pattern(&self, pattern: &str) -> (found: Option<LoadError>)
        ensures
            error_view(found) == objection(pattern@, self.default_slots@),
    {
        let chars = to_chars(pattern);
        let (bodies, open) = scan(&chars);
        if open {
            return Some(LoadError::UnterminatedBrace(pattern.to_owned()));
        }
        let extractor = SlotExtractor::new(&self.default_slots);
        if extractor.pattern_to_regex(pattern).is_none() {
            return Some(LoadError::UnknownDefaultSlot(pattern.to_owned()));
        }
        let mut names: Vec<String> = Vec::new();
        let mut i: usize = 0;
        while i < bodies.len()
            invariant
                i <= bodies.len(),
                names@.len() == i,
                forall|j: int| 0 <= j < i ==> (#[trigger] names@[j])@ == group_name(bodies@[j]@),
            decreases bodies.len() - i,
        {
            names.push(group_name_of(bodies[i].as_str()));
            i += 1;
        }
        assert(views(names@) =~= group_names(pattern@));
        if has_repeats(&names) {
            Some(LoadError::RepeatedPlaceholder(pattern.to_owned()))
        } else {
            None
        }
    }

    /// What strict loading objects to in a declaration that can be loaded:
    /// the first objection to one of its literal patterns.
    pub fn check_strict(&self, declaration: &IntentFile) -> (found: Option<LoadError>)
        ensures
            error_view(found) == first_objection(
                views(declaration.patterns@),
                self.default_slots@,
            ),
    {
        let patterns = &declaration.patterns;
        let ghost all = views(patterns@);
        assert(all.skip(0) =~= all);
        let mut j: usize = 0;
        while j < patterns.len()
            invariant
                j <= patterns.len(),
                patterns == &declaration.patterns,
                all == views(patterns@),
                first_objection(all, self.default_slots@) == first_objection(
                    all.skip(j as int),
                    self.default_slots@,
                ),
            decreases patterns.len() - j,
        {
            proof {
                assert(all.skip(j as int)[0] == patterns@[j as int]@);
                assert(all.skip(j as int).drop_first() =~= all.skip(j as int + 1));
            }
            match self.check_pattern(patterns[j].as_str()) {
                Some(found) => {
                    return Some(found);
                },
                None => {},
            }
            j += 1;
        }
        assert(all.skip(patterns.len() as int).len() == 0);
        None
    }

    /// Loads the intent of `declaration` as [`IntentEngine::load_intent`]
    /// does, but only if strict loading has no objection: no literal pattern
    /// has an open brace, an unknown default slot or a repeated placeholder.
    /// On any failure the engine is left as it was.
    pub fn load_intent_strict(&mut self, declaration: IntentFile) -> (loaded: Result<
        String,
        LoadError,
    >)
        ensures
            final(self).default_slots == old(self).default_slots,
            match loaded {
                Ok(name) => {
                    &&& strict_failure(declaration, old(self).default_slots@) is None
                    &&& name@ == declaration.intent@
                    &&& final(self).intents@.len() == old(self).intents@.len() + 1
                    &&& final(self).intents@.drop_last() == old(self).intents@
                    &&& loaded_from(final(self).intents@.last(), declaration)
                },
                Err(error) => {
                    &&& strict_failure(declaration, old(self).default_slots@) == Some(error@)
                    &&& final(self).intents@ == old(self).intents@
                },
            },
    {
        match self.definitions(&declaration) {
            Err(error) => Err(error),
            Ok(slots) => match self.check_strict(&declaration) {
                Some(error) => Err(error),
                None => Ok(self.push_intent(declaration, slots)),
            },
        }
    }
}

/// A pattern that strict loading accepts has a regular expression, every
/// `{` of it opens a placeholder, and no two of its capture groups have the
/// same name.
pub proof fn lemma_accepted_pattern<P: SlotProcessor>(
    pattern: Seq<char>,
    defaults: Map<Seq<char>, SlotDefinition<P>>,
)
    requires
        objection(pattern, defaults) is None,
    ensures
        regex_source(pattern, defaults) is Some,
        !unterminated(pattern, 0),
        group_names(pattern).no_duplicates(),
{
}

/// Whatever is loaded strictly can be loaded.
pub proof fn lemma_strict_is_stricter<P: SlotProcessor>(
    declaration: IntentFile,
    defaults: Map<Seq<char>, SlotDefinition<P>>,
)
    ensures
        strict_failure(declaration, defaults) is None ==> failure(declaration) is None,
        failure(declaration) is Some ==> strict_failure(declaration, defaults) == failure(
            declaration,
        ),
{
}

} // verus!
