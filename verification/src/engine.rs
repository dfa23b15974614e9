//! The intent engine: the loaded intents, in the order in which they were
//! loaded, and the table of default slots.

use vstd::hash_map::StringHashMap;
use vstd::prelude::*;

use crate::intent::{Intent, IntentFile, LoadError, LoadFailure, SlotShape};
use crate::slot::{is_builtin, DefaultSlotManager, SlotDefinition, SlotProcessor, Verbatim};
use crate::slot_extractor::definition_of;
use crate::text::{opt_view, starts_with, to_chars, views};

verus! {

/// The shape that `slots` gives for the slot `name`: the last entry of that
/// name counts.
pub open spec fn declared(slots: Seq<(String, SlotShape)>, name: Seq<char>) -> Option<SlotShape>
    decreases slots.len(),
{
    if slots.len() == 0 {
        None
    } else if slots.last().0@ == name {
        Some(slots.last().1)
    } else {
        declared(slots.drop_last(), name)
    }
}

/// The entry at `k` is the first that declares no slot.
pub open spec fn first_invalid(slots: Seq<(String, SlotShape)>, k: int) -> bool {
    &&& 0 <= k < slots.len()
    &&& !slots[k].1.declares_slot()
    &&& forall|j: int| 0 <= j < k ==> (#[trigger] slots[j]).1.declares_slot()
}

/// Every entry declares a slot.
pub open spec fn all_valid(slots: Seq<(String, SlotShape)>) -> bool {
    forall|j: int| 0 <= j < slots.len() ==> (#[trigger] slots[j]).1.declares_slot()
}

/// `defs` holds exactly the slots that `slots` declares, each with the
/// definition that its shape declares.
pub open spec fn defined_by<P: SlotProcessor>(
    defs: Map<Seq<char>, SlotDefinition<P>>,
    slots: Seq<(String, SlotShape)>,
) -> bool {
    &&& forall|name: Seq<char>| #[trigger] defs.contains_key(name) <==> declared(slots, name) is Some
    &&& forall|name: Seq<char>| #[trigger]
        defs.contains_key(name) ==> declared(slots, name).unwrap().declares(defs[name])
}

/// `intent` is what `declaration` declares.
pub open spec fn loaded_from<P: SlotProcessor>(intent: Intent<P>, declaration: IntentFile) -> bool {
    &&& intent.name@ == declaration.intent@
    &&& views(intent.patterns@) == views(declaration.patterns@)
    &&& views(intent.regex_patterns@) == views(declaration.regex_patterns@)
    &&& defined_by(intent.slots@, declaration.slots@)
}

/// The name of the first slot that declares no slot, if there is one.
pub open spec fn invalid_slot(slots: Seq<(String, SlotShape)>) -> Option<Seq<char>>
    decreases slots.len(),
{
    if slots.len() == 0 {
        None
    } else if !slots[0].1.declares_slot() {
        Some(slots[0].0@)
    } else {
        invalid_slot(slots.drop_first())
    }
}

/// The name of the first slot whose name begins with `default_`, the
/// prefix that is reserved for the capture groups of default slots.
pub open spec fn reserved_slot(slots: Seq<(String, SlotShape)>) -> Option<Seq<char>>
    decreases slots.len(),
{
    if slots.len() == 0 {
        None
    } else if "default_"@.is_prefix_of(slots[0].0@) {
        Some(slots[0].0@)
    } else {
        reserved_slot(slots.drop_first())
    }
}

/// Why `declaration` cannot be loaded, if it cannot: it has no name, or
/// else no pattern of either kind, or else a slot that declares none, or
/// else a slot with a reserved name.
pub open spec fn failure(declaration: IntentFile) -> Option<LoadFailure> {
    if declaration.intent@.len() == 0 {
        Some(LoadFailure::EmptyName)
    } else if declaration.patterns@.len() == 0 && declaration.regex_patterns@.len() == 0 {
        Some(LoadFailure::NoPatterns)
    } else {
        match invalid_slot(declaration.slots@) {
            Some(slot) => Some(LoadFailure::InvalidSlot(slot)),
            None => match reserved_slot(declaration.slots@) {
                Some(slot) => Some(LoadFailure::ReservedSlotName(slot)),
                None => None,
            },
        }
    }
}

/// No slot of a loaded intent carries the reserved prefix `default_`, so a
/// capture group with the name of one of its slots always resolves to that
/// slot, never to a default slot.
pub proof fn lemma_loaded_slots_are_not_reserved<P: SlotProcessor>(
    intent: Intent<P>,
    declaration: IntentFile,
    defaults: Map<Seq<char>, SlotDefinition<P>>,
)
    requires
        failure(declaration) is None,
        loaded_from(intent, declaration),
    ensures
        forall|name: Seq<char>| #[trigger]
            intent.slots@.contains_key(name) ==> !"default_"@.is_prefix_of(name) && definition_of(
                name,
                intent.slots@,
                defaults,
            ) == Some(intent.slots@[name]),
{
    assert forall|name: Seq<char>| #[trigger]
        intent.slots@.contains_key(name) implies !"default_"@.is_prefix_of(name) by {
        lemma_declared_is_not_reserved(declaration.slots@, name);
    }
}

/// A name that is declared where no slot has a reserved name is not
/// reserved.
proof fn lemma_declared_is_not_reserved(slots: Seq<(String, SlotShape)>, name: Seq<char>)
    requires
        reserved_slot(slots) is None,
        declared(slots, name) is Some,
    ensures
        !"default_"@.is_prefix_of(name),
    decreases slots.len(),
{
    lemma_none_reserved(slots);
    if slots.last().0@ != name {
        lemma_none_reserved_front(slots);
        lemma_declared_is_not_reserved(slots.drop_last(), name);
    } else {
        assert(slots[slots.len() - 1] == slots.last());
    }
}

/// Where no slot has a reserved name, no name begins with the prefix.
proof fn lemma_none_reserved(slots: Seq<(String, SlotShape)>)
    requires
        reserved_slot(slots) is None,
    ensures
        forall|i: int| 0 <= i < slots.len() ==> !"default_"@.is_prefix_of((#[trigger] slots[i]).0@),
    decreases slots.len(),
{
    if slots.len() > 0 {
        let rest = slots.drop_first();
        lemma_none_reserved(rest);
        assert forall|i: int| 0 <= i < slots.len() implies !"default_"@.is_prefix_of(
            (#[trigger] slots[i]).0@,
        ) by {
            if i > 0 {
                assert(rest[i - 1] == slots[i]);
            }
        }
    }
}

/// Where no slot has a reserved name, none of all but the last has one.
proof fn lemma_none_reserved_front(slots: Seq<(String, SlotShape)>)
    requires
        slots.len() > 0,
        reserved_slot(slots) is None,
    ensures
        reserved_slot(slots.drop_last()) is None,
    decreases slots.len(),
{
    if slots.len() > 1 {
        assert(slots.drop_last().drop_first() =~= slots.drop_first().drop_last());
        assert(slots.drop_last()[0] == slots[0]);
        lemma_none_reserved_front(slots.drop_first());
    }
}

/// Whether `declaration` can be loaded.
pub open spec fn loadable(declaration: IntentFile) -> bool {
    failure(declaration) is None
}

/// The first invalid slot is the first that declares no slot.
pub proof fn lemma_invalid_slot(slots: Seq<(String, SlotShape)>)
    ensures
        invalid_slot(slots) is None <==> all_valid(slots),
        forall|k: int| first_invalid(slots, k) ==> invalid_slot(slots) == Some(slots[k].0@),
    decreases slots.len(),
{
    if slots.len() > 0 {
        let rest = slots.drop_first();
        lemma_invalid_slot(rest);
        if slots[0].1.declares_slot() {
            assert forall|k: int| first_invalid(slots, k) implies invalid_slot(slots) == Some(
                slots[k].0@,
            ) by {
                assert(k > 0);
                assert forall|j: int| 0 <= j < k - 1 implies (#[trigger] rest[j]).1.declares_slot() by {
                    assert(rest[j] == slots[j + 1]);
                }
                assert(first_invalid(rest, k - 1));
            }
            if all_valid(rest) {
                assert forall|j: int| 0 <= j < slots.len() implies (#[trigger] slots[j]).1.declares_slot() by {
                    if j > 0 {
                        assert(rest[j - 1] == slots[j]);
                    }
                }
            }
            if all_valid(slots) {
                assert forall|j: int| 0 <= j < rest.len() implies (#[trigger] rest[j]).1.declares_slot() by {
                    assert(rest[j] == slots[j + 1]);
                }
            }
        } else {
            assert forall|k: int| first_invalid(slots, k) implies invalid_slot(slots) == Some(
                slots[k].0@,
            ) by {
                if k > 0 {
                    assert(slots[0].1.declares_slot());
                }
            }
        }
    }
}

/// Those of `declarations` that can be loaded, in their order.
pub open spec fn loadable_among(declarations: Seq<IntentFile>) -> Seq<IntentFile>
    decreases declarations.len(),
{
    if declarations.len() == 0 {
        Seq::empty()
    } else if loadable(declarations.last()) {
        loadable_among(declarations.drop_last()).push(declarations.last())
    } else {
        loadable_among(declarations.drop_last())
    }
}

/// The intents `added` are what the declarations `from` declare, one for
/// one.
pub open spec fn all_loaded_from<P: SlotProcessor>(added: Seq<Intent<P>>, from: Seq<IntentFile>) -> bool {
    &&& added.len() == from.len()
    &&& forall|k: int| 0 <= k < added.len() ==> loaded_from(#[trigger] added[k], from[k])
}

/// The names of the declarations that can be loaded, in their order.
pub open spec fn loaded_names(declarations: Seq<IntentFile>) -> Seq<Seq<char>>
    decreases declarations.len(),
{
    if declarations.len() == 0 {
        Seq::empty()
    } else if loadable(declarations.last()) {
        loaded_names(declarations.drop_last()).push(declarations.last().intent@)
    } else {
        loaded_names(declarations.drop_last())
    }
}

/// The name of the first slot whose name begins with `default_`.
fn reserved_name(slots: &Vec<(String, SlotShape)>) -> (found: Option<String>)
    ensures
        opt_view(found) == reserved_slot(slots@),
{
    assert(slots@.skip(0) =~= slots@);
    let mut i: usize = 0;
    while i < slots.len()
        invariant
            i <= slots.len(),
            reserved_slot(slots@) == reserved_slot(slots@.skip(i as int)),
        decreases slots.len() - i,
    {
        let name = to_chars(slots[i].0.as_str());
        proof {
            assert(name@.subrange(0, name@.len() as int) =~= slots@[i as int].0@);
            assert(slots@.skip(i as int)[0] == slots@[i as int]);
            assert(slots@.skip(i as int).drop_first() =~= slots@.skip(i as int + 1));
        }
        if starts_with(&name, 0, name.len(), "default_") {
            return Some(slots[i].0.clone());
        }
        i += 1;
    }
    assert(slots@.skip(slots.len() as int).len() == 0);
    None
}

/// The loaded intents and the default slots.
#[verifier::reject_recursive_types(P)]
pub struct IntentEngine<P: SlotProcessor> {
    pub intents: Vec<Intent<P>>,
    pub default_slots: DefaultSlotManager<P>,
}

impl IntentEngine<Verbatim> {
    /// An engine without intents, with the built-in default slots.
    pub fn new() -> (engine: Self)
        ensures
            engine.intents@.len() == 0,
            is_builtin(engine.default_slots@),
    {
        IntentEngine { intents: Vec::new(), default_slots: DefaultSlotManager::new() }
    }
}

impl<P: SlotProcessor> IntentEngine<P> {
    /// An engine without intents, with the default slots that the
    /// application supplies.
    pub fn with_defaults(default_slots: DefaultSlotManager<P>) -> (engine: Self)
        ensures
            engine.intents@.len() == 0,
            engine.default_slots == default_slots,
    {
        IntentEngine { intents: Vec::new(), default_slots }
    }

    /// Loads the intent of `declaration` behind the intents loaded so far,
    /// and returns its name.
    ///
    /// Fails, and leaves the engine as it was, if the declaration has no
    /// name, has neither a pattern nor a regular expression, has a slot that
    /// is neither the wildcard `*` nor a list of texts, or has a slot whose
    /// name begins with the reserved `default_`. The error then names the
    /// first such slot.
    pub fn load_intent(&mut self, declaration: IntentFile) -> (loaded: Result<String, LoadError>)
        ensures
            final(self).default_slots == old(self).default_slots,
            match loaded {
                Ok(name) => {
                    &&& failure(declaration) is None
                    &&& name@ == declaration.intent@
                    &&& final(self).intents@.len() == old(self).intents@.len() + 1
                    &&& final(self).intents@.drop_last() == old(self).intents@
                    &&& loaded_from(final(self).intents@.last(), declaration)
                },
                Err(error) => {
                    &&& failure(declaration) == Some(error@)
                    &&& final(self).intents@ == old(self).intents@
                },
            },
    {
        match self.definitions(&declaration) {
            Err(error) => Err(error),
            Ok(slots) => Ok(self.push_intent(declaration, slots)),
        }
    }

    /// The definitions of the slots of `declaration`, if it can be loaded.
    pub(crate) fn definitions(&self, declaration: &IntentFile) -> (defs: Result<
        StringHashMap<SlotDefinition<P>>,
        LoadError,
    >)
        ensures
            match defs {
                Ok(slots) => failure(*declaration) is None && defined_by(
                    slots@,
                    declaration.slots@,
                ),
                Err(error) => failure(*declaration) == Some(error@),
            },
    {
        if declaration.intent.as_str().is_empty() {
            return Err(LoadError::EmptyName);
        }
        if !declaration.is_valid() {
            return Err(LoadError::NoPatterns);
        }
        proof {
            lemma_invalid_slot(declaration.slots@);
        }
        match self.parse_slot_defs(&declaration.slots) {
            Err(error) => Err(error),
            Ok(defs) => match reserved_name(&declaration.slots) {
                Some(slot) => Err(LoadError::ReservedSlotName(slot)),
                None => Ok(defs),
            },
        }
    }

    /// Appends the intent of `declaration`, with the definitions `slots`,
    /// and returns its name.
    pub(crate) fn push_intent(
        &mut self,
        declaration: IntentFile,
        slots: StringHashMap<SlotDefinition<P>>,
    ) -> (name: String)
        requires
            defined_by(slots@, declaration.slots@),
        ensures
            final(self).default_slots == old(self).default_slots,
            name@ == declaration.intent@,
            final(self).intents@.len() == old(self).intents@.len() + 1,
            final(self).intents@.drop_last() == old(self).intents@,
            loaded_from(final(self).intents@.last(), declaration),
    {
        let name = declaration.intent.clone();
        let intent = Intent {
            name: declaration.intent,
            patterns: declaration.patterns,
            regex_patterns: declaration.regex_patterns,
            slots,
        };
        self.intents.push(intent);
        assert(self.intents@.drop_last() =~= old(self).intents@);
        name
    }

    /// Loads each of `declarations` in turn and returns the names of those
    /// that were loaded. A declaration that fails to load is passed over.
    /// The engine gains, behind the intents it had, the intent of each
    /// declaration that can be loaded, in the order of the declarations.
    pub fn load_intents(&mut self, declarations: Vec<IntentFile>) -> (names: Vec<String>)
        ensures
            final(self).default_slots == old(self).default_slots,
            views(names@) == loaded_names(declarations@),
            final(self).intents@.len() == old(self).intents@.len() + names@.len(),
            final(self).intents@.take(old(self).intents@.len() as int) == old(self).intents@,
            all_loaded_from(
                final(self).intents@.skip(old(self).intents@.len() as int),
                loadable_among(declarations@),
            ),
    {
        let mut names: Vec<String> = Vec::new();
        let mut declarations = declarations;
        let ghost all = declarations@;
        let total = declarations.len();
        assert(all.len() == total);
        assert(views(names@) =~= loaded_names(all.take(0)));
        assert(self.intents@.take(old(self).intents@.len() as int) =~= old(self).intents@);
        assert(self.intents@.skip(old(self).intents@.len() as int).len() == 0);
        let mut done: usize = 0;
        while declarations.len() > 0
            invariant
                self.default_slots == old(self).default_slots,
                all.len() == total,
                done + declarations@.len() == all.len(),
                declarations@ == all.skip(done as int),
                views(names@) == loaded_names(all.take(done as int)),
                self.intents@.len() == old(self).intents@.len() + names@.len(),
                self.intents@.take(old(self).intents@.len() as int) == old(self).intents@,
                all_loaded_from(
                    self.intents@.skip(old(self).intents@.len() as int),
                    loadable_among(all.take(done as int)),
                ),
            decreases declarations.len(),
        {
            let ghost before = self.intents@;
            let ghost so_far = views(names@);
            let ghost start = old(self).intents@.len() as int;
            let ghost added = before.skip(start);
            let declaration = declarations.remove(0);
            assert(declaration == all[done as int]);
            assert(all.take(done as int + 1).drop_last() =~= all.take(done as int));
            match self.load_intent(declaration) {
                Ok(name) => {
                    names.push(name);
                    assert(views(names@) =~= so_far.push(declaration.intent@));
                    assert(self.intents@.take(old(self).intents@.len() as int)
                        =~= self.intents@.drop_last().take(old(self).intents@.len() as int));
                    assert(self.intents@.skip(start) =~= added.push(self.intents@.last()));
                },
                Err(_) => {},
            }
            done += 1;
            assert(declarations@ =~= all.skip(done as int));
        }
        assert(all.take(all.len() as int) =~= all);
        names
    }

    /// The definitions of the declared slots: a catch-all for the wildcard
    /// `*`, an enumeration for a list of texts. Fails at the first slot of
    /// any other shape.
    pub fn parse_slot_defs(&self, raw_slots: &Vec<(String, SlotShape)>) -> (defs: Result<
        StringHashMap<SlotDefinition<P>>,
        LoadError,
    >)
        ensures
            defs is Ok <==> all_valid(raw_slots@),
            defs matches Ok(slots) ==> defined_by(slots@, raw_slots@),
            defs matches Err(e) ==> e matches LoadError::InvalidSlot(slot) && exists|k: int|
                first_invalid(raw_slots@, k) && slot@ == (#[trigger] raw_slots@[k]).0@,
    {
        let mut defs: StringHashMap<SlotDefinition<P>> = StringHashMap::new();
        let mut i: usize = 0;
        while i < raw_slots.len()
            invariant
                i <= raw_slots.len(),
                all_valid(raw_slots@.take(i as int)),
                defined_by(defs@, raw_slots@.take(i as int)),
            decreases raw_slots.len() - i,
        {
            let ghost before = raw_slots@.take(i as int);
            let ghost after = raw_slots@.take(i as int + 1);
            let ghost earlier = defs@;
            assert(after.drop_last() =~= before);
            match raw_slots[i].1.definition() {
                Some(defn) => {
                    defs.insert(raw_slots[i].0.clone(), defn);
                    proof {
                        assert forall|name: Seq<char>| #[trigger]
                            defs@.contains_key(name) <==> declared(after, name) is Some by {
                            assert(earlier.contains_key(name) <==> declared(before, name) is Some);
                        }
                        assert forall|name: Seq<char>| #[trigger]
                            defs@.contains_key(name) implies declared(after, name).unwrap().declares(
                            defs@[name],
                        ) by {
                            if name != after.last().0@ {
                                assert(earlier.contains_key(name));
                            }
                        }
                        assert forall|j: int| 0 <= j < after.len() implies (#[trigger] after[j]).1.declares_slot() by {
                            if j < i {
                                assert(before[j] == after[j]);
                            }
                        }
                    }
                },
                None => {
                    proof {
                        assert forall|j: int| 0 <= j < i implies (#[trigger] raw_slots@[j]).1.declares_slot() by {
                            assert(before[j] == raw_slots@[j]);
                        }
                        assert(first_invalid(raw_slots@, i as int));
                    }
                    return Err(LoadError::InvalidSlot(raw_slots[i].0.clone()));
                },
            }
            i += 1;
        }
        assert(raw_slots@.take(raw_slots.len() as int) =~= raw_slots@);
        Ok(defs)
    }
}

} // verus!
