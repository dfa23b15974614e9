//! The recognizer: every pattern of every loaded intent is tried on one
//! input text, and every match is reported.

use vstd::prelude::*;

use crate::engine::IntentEngine;
use crate::intent::Intent;
use crate::slot::{SlotDefinition, SlotProcessor};
use crate::slot_extractor::{
    extracted_from_pattern, extracted_from_regex, ExtractedSlots, Extraction, SlotExtractor,
};
use crate::text::views;

verus! {

/// `matches`, and behind them `found` if there is one.
pub open spec fn and_then(matches: Seq<Extraction>, found: Option<Extraction>) -> Seq<Extraction> {
    match found {
        Some(found) => matches.push(found),
        None => matches,
    }
}

/// The matches of the literal patterns `patterns` on `text`, in the order of
/// the patterns.
pub open spec fn pattern_matches<P: SlotProcessor>(
    patterns: Seq<Seq<char>>,
    text: Seq<char>,
    intent: Seq<char>,
    locals: Map<Seq<char>, SlotDefinition<P>>,
    defaults: Map<Seq<char>, SlotDefinition<P>>,
) -> Seq<Extraction>
    decreases patterns.len(),
{
    if patterns.len() == 0 {
        Seq::empty()
    } else {
        and_then(
            pattern_matches(patterns.drop_last(), text, intent, locals, defaults),
            extracted_from_pattern(patterns.last(), text, intent, locals, defaults),
        )
    }
}

/// The matches of the raw regular expressions `patterns` on `text`, in the
/// order of the expressions.
pub open spec fn regex_matches<P: SlotProcessor>(
    patterns: Seq<Seq<char>>,
    text: Seq<char>,
    intent: Seq<char>,
    locals: Map<Seq<char>, SlotDefinition<P>>,
) -> Seq<Extraction>
    decreases patterns.len(),
{
    if patterns.len() == 0 {
        Seq::empty()
    } else {
        and_then(
            regex_matches(patterns.drop_last(), text, intent, locals),
            extracted_from_regex(patterns.last(), text, intent, locals),
        )
    }
}

/// The matches of one intent: those of its literal patterns, then those of
/// its raw regular expressions.
pub open spec fn intent_matches<P: SlotProcessor>(
    intent: Intent<P>,
    text: Seq<char>,
    defaults: Map<Seq<char>, SlotDefinition<P>>,
) -> Seq<Extraction> {
    pattern_matches(views(intent.patterns@), text, intent.name@, intent.slots@, defaults)
        + regex_matches(views(intent.regex_patterns@), text, intent.name@, intent.slots@)
}

/// The matches of all intents, intent by intent in the order in which they
/// were loaded.
pub open spec fn recognized<P: SlotProcessor>(
    intents: Seq<Intent<P>>,
    text: Seq<char>,
    defaults: Map<Seq<char>, SlotDefinition<P>>,
) -> Seq<Extraction>
    decreases intents.len(),
{
    if intents.len() == 0 {
        Seq::empty()
    } else {
        recognized(intents.drop_last(), text, defaults) + intent_matches(
            intents.last(),
            text,
            defaults,
        )
    }
}

/// The contents of a list of results.
pub open spec fn extractions(results: Seq<ExtractedSlots>) -> Seq<Extraction> {
    results.map_values(|found: ExtractedSlots| found@)
}

/// A read-only view of an engine that recognizes texts.
#[verifier::reject_recursive_types(P)]
pub struct Recognizer<'a, P: SlotProcessor> {
    intent_manager: &'a IntentEngine<P>,
    slot_extractor: SlotExtractor<'a, P>,
}

impl<'a, P: SlotProcessor> Recognizer<'a, P> {
    /// A recognizer over the intents and default slots of `intent_manager`.
    pub fn new(intent_manager: &'a IntentEngine<P>) -> (recognizer: Self)
        ensures
            recognizer.engine() == intent_manager,
    {
        Recognizer {
            intent_manager,
            slot_extractor: SlotExtractor::new(&intent_manager.default_slots),
        }
    }

    /// The extractor resolves default slots in the table of the engine.
    #[verifier::type_invariant]
    spec fn wf(&self) -> bool {
        self.slot_extractor.default_slots == &self.intent_manager.default_slots
    }

    /// The engine that this recognizer reads.
    pub closed spec fn engine(&self) -> &IntentEngine<P> {
        self.intent_manager
    }

    /// All matches of `text`: for each intent in loading order, the matches
    /// of its literal patterns in their order, then those of its raw regular
    /// expressions in theirs. Empty if nothing matches.
    pub fn recognize(&self, text: &str) -> (results: Vec<ExtractedSlots>)
        ensures
            extractions(results@) == recognized(
                self.engine().intents@,
                text@,
                self.engine().default_slots@,
            ),
    {
        proof {
            use_type_invariant(self);
        }
        let mut results: Vec<ExtractedSlots> = Vec::new();
        let intents = &self.intent_manager.intents;
        let ghost defaults = self.intent_manager.default_slots@;
        assert(extractions(results@) =~= Seq::empty());
        let mut i: usize = 0;
        while i < intents.len()
            invariant
                self.slot_extractor.default_slots == &self.intent_manager.default_slots,
                intents == &self.intent_manager.intents,
                defaults == self.intent_manager.default_slots@,
                i <= intents.len(),
                extractions(results@) == recognized(intents@.take(i as int), text@, defaults),
            decreases intents.len() - i,
        {
            let intent = &intents[i];
            let ghost before = extractions(results@);
            let ghost patterns = views(intent.patterns@);
            let mut j: usize = 0;
            while j < intent.patterns.len()
                invariant
                    self.slot_extractor.default_slots == &self.intent_manager.default_slots,
                    defaults == self.intent_manager.default_slots@,
                    patterns == views(intent.patterns@),
                    j <= intent.patterns.len(),
                    extractions(results@) == before + pattern_matches(
                        patterns.take(j as int),
                        text@,
                        intent.name@,
                        intent.slots@,
                        defaults,
                    ),
                decreases intent.patterns.len() - j,
            {
                assert(patterns.take(j as int + 1).drop_last() =~= patterns.take(j as int));
                let ghost so_far = extractions(results@);
                match self.slot_extractor.extract_from_pattern(
                    intent.patterns[j].as_str(),
                    text,
                    intent.name.as_str(),
                    &intent.slots,
                ) {
                    Some(found) => {
                        results.push(found);
                        assert(extractions(results@) =~= so_far.push(found@));
                    },
                    None => {},
                }
                j += 1;
                assert(extractions(results@) =~= before + pattern_matches(
                    patterns.take(j as int),
                    text@,
                    intent.name@,
                    intent.slots@,
                    defaults,
                ));
            }
            assert(patterns.take(intent.patterns.len() as int) =~= patterns);
            let ghost middle = extractions(results@);
            let ghost regexes = views(intent.regex_patterns@);
            let mut k: usize = 0;
            while k < intent.regex_patterns.len()
                invariant
                    self.slot_extractor.default_slots == &self.intent_manager.default_slots,
                    regexes == views(intent.regex_patterns@),
                    k <= intent.regex_patterns.len(),
                    extractions(results@) == middle + regex_matches(
                        regexes.take(k as int),
                        text@,
                        intent.name@,
                        intent.slots@,
                    ),
                decreases intent.regex_patterns.len() - k,
            {
                assert(regexes.take(k as int + 1).drop_last() =~= regexes.take(k as int));
                let ghost so_far = extractions(results@);
                match self.slot_extractor.extract_from_regex(
                    intent.regex_patterns[k].as_str(),
                    text,
                    intent.name.as_str(),
                    &intent.slots,
                ) {
                    Some(found) => {
                        results.push(found);
                        assert(extractions(results@) =~= so_far.push(found@));
                    },
                    None => {},
                }
                k += 1;
                assert(extractions(results@) =~= middle + regex_matches(
                    regexes.take(k as int),
                    text@,
                    intent.name@,
                    intent.slots@,
                ));
            }
            assert(regexes.take(intent.regex_patterns.len() as int) =~= regexes);
            proof {
                assert(intents@.take(i as int + 1).drop_last() =~= intents@.take(i as int));
                assert(extractions(results@) =~= before + intent_matches(*intent, text@, defaults));
            }
            i += 1;
        }
        assert(intents@.take(intents.len() as int) =~= intents@);
        results
    }
}

/// Results come in the order of the literal patterns: the matches of a list
/// of patterns are those of its front part followed by those of the rest.
pub proof fn lemma_pattern_matches_in_order<P: SlotProcessor>(
    front: Seq<Seq<char>>,
    rest: Seq<Seq<char>>,
    text: Seq<char>,
    intent: Seq<char>,
    locals: Map<Seq<char>, SlotDefinition<P>>,
    defaults: Map<Seq<char>, SlotDefinition<P>>,
)
    ensures
        pattern_matches(front + rest, text, intent, locals, defaults) == pattern_matches(
            front,
            text,
            intent,
            locals,
            defaults,
        ) + pattern_matches(rest, text, intent, locals, defaults),
    decreases rest.len(),
{
    if rest.len() == 0 {
        assert(front + rest =~= front);
        assert(pattern_matches(front, text, intent, locals, defaults) + Seq::<Extraction>::empty()
            =~= pattern_matches(front, text, intent, locals, defaults));
    } else {
        assert((front + rest).drop_last() =~= front + rest.drop_last());
        lemma_pattern_matches_in_order(front, rest.drop_last(), text, intent, locals, defaults);
        let a = pattern_matches(front, text, intent, locals, defaults);
        let b = pattern_matches(rest.drop_last(), text, intent, locals, defaults);
        let found = extracted_from_pattern(rest.last(), text, intent, locals, defaults);
        assert(and_then(a + b, found) =~= a + and_then(b, found));
    }
}

/// Results come in the order of the raw regular expressions.
pub proof fn lemma_regex_matches_in_order<P: SlotProcessor>(
    front: Seq<Seq<char>>,
    rest: Seq<Seq<char>>,
    text: Seq<char>,
    intent: Seq<char>,
    locals: Map<Seq<char>, SlotDefinition<P>>,
)
    ensures
        regex_matches(front + rest, text, intent, locals) == regex_matches(
            front,
            text,
            intent,
            locals,
        ) + regex_matches(rest, text, intent, locals),
    decreases rest.len(),
{
    if rest.len() == 0 {
        assert(front + rest =~= front);
        assert(regex_matches(front, text, intent, locals) + Seq::<Extraction>::empty()
            =~= regex_matches(front, text, intent, locals));
    } else {
        assert((front + rest).drop_last() =~= front + rest.drop_last());
        lemma_regex_matches_in_order(front, rest.drop_last(), text, intent, locals);
        let a = regex_matches(front, text, intent, locals);
        let b = regex_matches(rest.drop_last(), text, intent, locals);
        let found = extracted_from_regex(rest.last(), text, intent, locals);
        assert(and_then(a + b, found) =~= a + and_then(b, found));
    }
}

/// Results come in the order in which the intents were loaded: the matches
/// of a list of intents are those of its front part followed by those of the
/// rest.
pub proof fn lemma_recognized_in_order<P: SlotProcessor>(
    front: Seq<Intent<P>>,
    rest: Seq<Intent<P>>,
    text: Seq<char>,
    defaults: Map<Seq<char>, SlotDefinition<P>>,
)
    ensures
        recognized(front + rest, text, defaults) == recognized(front, text, defaults) + recognized(
            rest,
            text,
            defaults,
        ),
    decreases rest.len(),
{
    if rest.len() == 0 {
        assert(front + rest =~= front);
        assert(recognized(front, text, defaults) + Seq::<Extraction>::empty() =~= recognized(
            front,
            text,
            defaults,
        ));
    } else {
        assert((front + rest).drop_last() =~= front + rest.drop_last());
        lemma_recognized_in_order(front, rest.drop_last(), text, defaults);
        let a = recognized(front, text, defaults);
        let b = recognized(rest.drop_last(), text, defaults);
        let c = intent_matches(rest.last(), text, defaults);
        assert((a + b) + c =~= a + (b + c));
    }
}

/// Every match is reported: if the literal pattern `j` of the intent `i`
/// matches, its result is among the recognized ones, whatever else matches.
pub proof fn lemma_pattern_match_is_reported<P: SlotProcessor>(
    intents: Seq<Intent<P>>,
    i: int,
    j: int,
    text: Seq<char>,
    defaults: Map<Seq<char>, SlotDefinition<P>>,
)
    requires
        0 <= i < intents.len(),
        0 <= j < intents[i].patterns@.len(),
        extracted_from_pattern(
            intents[i].patterns@[j]@,
            text,
            intents[i].name@,
            intents[i].slots@,
            defaults,
        ) is Some,
    ensures
        recognized(intents, text, defaults).contains(
            extracted_from_pattern(
                intents[i].patterns@[j]@,
                text,
                intents[i].name@,
                intents[i].slots@,
                defaults,
            ).unwrap(),
        ),
{
    let intent = intents[i];
    let patterns = views(intent.patterns@);
    let found = extracted_from_pattern(patterns[j], text, intent.name@, intent.slots@, defaults);
    // within the patterns of the intent
    let upto = patterns.take(j + 1);
    let after = patterns.skip(j + 1);
    assert(upto + after =~= patterns);
    assert(upto.drop_last() =~= patterns.take(j));
    lemma_pattern_matches_in_order(upto, after, text, intent.name@, intent.slots@, defaults);
    let head = pattern_matches(upto, text, intent.name@, intent.slots@, defaults);
    assert(head.last() == found.unwrap());
    let within = intent_matches(intent, text, defaults);
    assert(within[head.len() - 1] == found.unwrap());
    // within the intents of the engine
    let front = intents.take(i + 1);
    let back = intents.skip(i + 1);
    assert(front + back =~= intents);
    assert(front.drop_last() =~= intents.take(i));
    lemma_recognized_in_order(front, back, text, defaults);
    let earlier = recognized(intents.take(i), text, defaults);
    assert(recognized(intents, text, defaults)[earlier.len() + head.len() - 1] == found.unwrap());
}

/// Every match is reported: if the raw regular expression `j` of the intent
/// `i` matches, its result is among the recognized ones.
pub proof fn lemma_regex_match_is_reported<P: SlotProcessor>(
    intents: Seq<Intent<P>>,
    i: int,
    j: int,
    text: Seq<char>,
    defaults: Map<Seq<char>, SlotDefinition<P>>,
)
    requires
        0 <= i < intents.len(),
        0 <= j < intents[i].regex_patterns@.len(),
        extracted_from_regex(
            intents[i].regex_patterns@[j]@,
            text,
            intents[i].name@,
            intents[i].slots@,
        ) is Some,
    ensures
        recognized(intents, text, defaults).contains(
            extracted_from_regex(
                intents[i].regex_patterns@[j]@,
                text,
                intents[i].name@,
                intents[i].slots@,
            ).unwrap(),
        ),
{
    let intent = intents[i];
    let regexes = views(intent.regex_patterns@);
    let found = extracted_from_regex(regexes[j], text, intent.name@, intent.slots@);
    let upto = regexes.take(j + 1);
    let after = regexes.skip(j + 1);
    assert(upto + after =~= regexes);
    assert(upto.drop_last() =~= regexes.take(j));
    lemma_regex_matches_in_order(upto, after, text, intent.name@, intent.slots@);
    let head = regex_matches(upto, text, intent.name@, intent.slots@);
    assert(head.last() == found.unwrap());
    let literal = pattern_matches(views(intent.patterns@), text, intent.name@, intent.slots@, defaults);
    let within = intent_matches(intent, text, defaults);
    assert(within[literal.len() + head.len() - 1] == found.unwrap());
    let front = intents.take(i + 1);
    let back = intents.skip(i + 1);
    assert(front + back =~= intents);
    assert(front.drop_last() =~= intents.take(i));
    lemma_recognized_in_order(front, back, text, defaults);
    let earlier = recognized(intents.take(i), text, defaults);
    assert(recognized(intents, text, defaults)[earlier.len() + literal.len() + head.len() - 1]
        == found.unwrap());
}

/// `found` is what one pattern of `intent` extracts from `text`, under the
/// name of that intent.
pub open spec fn matched_by<P: SlotProcessor>(
    intent: Intent<P>,
    found: Extraction,
    text: Seq<char>,
    defaults: Map<Seq<char>, SlotDefinition<P>>,
) -> bool {
    &&& found.intent == intent.name@
    &&& {
        ||| exists|j: int|
            0 <= j < intent.patterns@.len() && extracted_from_pattern(
                (#[trigger] intent.patterns@[j])@,
                text,
                intent.name@,
                intent.slots@,
                defaults,
            ) == Some(found)
        ||| exists|j: int|
            0 <= j < intent.regex_patterns@.len() && extracted_from_regex(
                (#[trigger] intent.regex_patterns@[j])@,
                text,
                intent.name@,
                intent.slots@,
            ) == Some(found)
    }
}

/// Nothing is reported but matches: every result is what one pattern of one
/// intent extracted, and it carries the name of that intent.
pub proof fn lemma_results_are_matches<P: SlotProcessor>(
    intents: Seq<Intent<P>>,
    text: Seq<char>,
    defaults: Map<Seq<char>, SlotDefinition<P>>,
    r: int,
)
    requires
        0 <= r < recognized(intents, text, defaults).len(),
    ensures
        exists|i: int|
            0 <= i < intents.len() && matched_by(
                #[trigger] intents[i],
                recognized(intents, text, defaults)[r],
                text,
                defaults,
            ),
    decreases intents.len(),
{
    let earlier = recognized(intents.drop_last(), text, defaults);
    let found = recognized(intents, text, defaults)[r];
    if r < earlier.len() {
        lemma_results_are_matches(intents.drop_last(), text, defaults, r);
        let i = choose|i: int|
            0 <= i < intents.drop_last().len() && matched_by(
                #[trigger] intents.drop_last()[i],
                earlier[r],
                text,
                defaults,
            );
        assert(intents[i] == intents.drop_last()[i]);
    } else {
        let i = intents.len() - 1;
        let intent = intents.last();
        let literal = pattern_matches(
            views(intent.patterns@),
            text,
            intent.name@,
            intent.slots@,
            defaults,
        );
        let within = r - earlier.len();
        if within < literal.len() {
            lemma_pattern_result(
                views(intent.patterns@),
                text,
                intent.name@,
                intent.slots@,
                defaults,
                within,
            );
            let j = choose|j: int|
                0 <= j < views(intent.patterns@).len() && extracted_from_pattern(
                    #[trigger] views(intent.patterns@)[j],
                    text,
                    intent.name@,
                    intent.slots@,
                    defaults,
                ) == Some(literal[within]);
            assert(intent.patterns@[j]@ == views(intent.patterns@)[j]);
        } else {
            let raw = regex_matches(
                views(intent.regex_patterns@),
                text,
                intent.name@,
                intent.slots@,
            );
            lemma_regex_result(
                views(intent.regex_patterns@),
                text,
                intent.name@,
                intent.slots@,
                within - literal.len(),
            );
            let j = choose|j: int|
                0 <= j < views(intent.regex_patterns@).len() && extracted_from_regex(
                    #[trigger] views(intent.regex_patterns@)[j],
                    text,
                    intent.name@,
                    intent.slots@,
                ) == Some(raw[within - literal.len()]);
            assert(intent.regex_patterns@[j]@ == views(intent.regex_patterns@)[j]);
        }
        assert(matched_by(intents[i], found, text, defaults));
    }
}

/// An input that no pattern of any intent matches has no results.
pub proof fn lemma_no_match_no_results<P: SlotProcessor>(
    intents: Seq<Intent<P>>,
    text: Seq<char>,
    defaults: Map<Seq<char>, SlotDefinition<P>>,
)
    requires
        forall|i: int, found: Extraction|
            0 <= i < intents.len() ==> !#[trigger] matched_by(intents[i], found, text, defaults),
    ensures
        recognized(intents, text, defaults).len() == 0,
{
    if recognized(intents, text, defaults).len() > 0 {
        lemma_results_are_matches(intents, text, defaults, 0);
    }
}

proof fn lemma_pattern_result<P: SlotProcessor>(
    patterns: Seq<Seq<char>>,
    text: Seq<char>,
    intent: Seq<char>,
    locals: Map<Seq<char>, SlotDefinition<P>>,
    defaults: Map<Seq<char>, SlotDefinition<P>>,
    r: int,
)
    requires
        0 <= r < pattern_matches(patterns, text, intent, locals, defaults).len(),
    ensures
        pattern_matches(patterns, text, intent, locals, defaults)[r].intent == intent,
        exists|j: int|
            0 <= j < patterns.len() && extracted_from_pattern(
                #[trigger] patterns[j],
                text,
                intent,
                locals,
                defaults,
            ) == Some(pattern_matches(patterns, text, intent, locals, defaults)[r]),
    decreases patterns.len(),
{
    let earlier = pattern_matches(patterns.drop_last(), text, intent, locals, defaults);
    if r < earlier.len() {
        lemma_pattern_result(patterns.drop_last(), text, intent, locals, defaults, r);
        let j = choose|j: int|
            0 <= j < patterns.drop_last().len() && extracted_from_pattern(
                #[trigger] patterns.drop_last()[j],
                text,
                intent,
                locals,
                defaults,
            ) == Some(earlier[r]);
        assert(patterns[j] == patterns.drop_last()[j]);
    } else {
        assert(patterns[patterns.len() - 1] == patterns.last());
    }
}

proof fn lemma_regex_result<P: SlotProcessor>(
    patterns: Seq<Seq<char>>,
    text: Seq<char>,
    intent: Seq<char>,
    locals: Map<Seq<char>, SlotDefinition<P>>,
    r: int,
)
    requires
        0 <= r < regex_matches(patterns, text, intent, locals).len(),
    ensures
        regex_matches(patterns, text, intent, locals)[r].intent == intent,
        exists|j: int|
            0 <= j < patterns.len() && extracted_from_regex(
                #[trigger] patterns[j],
                text,
                intent,
                locals,
            ) == Some(regex_matches(patterns, text, intent, locals)[r]),
    decreases patterns.len(),
{
    let earlier = regex_matches(patterns.drop_last(), text, intent, locals);
    if r < earlier.len() {
        lemma_regex_result(patterns.drop_last(), text, intent, locals, r);
        let j = choose|j: int|
            0 <= j < patterns.drop_last().len() && extracted_from_regex(
                #[trigger] patterns.drop_last()[j],
                text,
                intent,
                locals,
            ) == Some(earlier[r]);
        assert(patterns[j] == patterns.drop_last()[j]);
    } else {
        assert(patterns[patterns.len() - 1] == patterns.last());
    }
}

} // verus!
