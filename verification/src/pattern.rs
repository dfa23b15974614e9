//! The pattern compiler: a literal pattern with `{name}` and
//! `{default/name}` placeholders becomes the source of an anchored regular
//! expression with one named capture group for each placeholder.

use vstd::prelude::*;

use crate::matcher::{escape, escaped, escaped_char};
use crate::slot::{
    alternation, lazy_text, literal_alternation, DefaultSlotManager, SlotDefinition, SlotProcessor,
};
use crate::slot_extractor::SlotExtractor;
use crate::text::{from_chars, opt_view, push_str, starts_with, to_chars, views};

verus! {

/// The named capture group `(?P<name>body)`.
pub open spec fn capture_group(name: Seq<char>, body: Seq<char>) -> Seq<char> {
    "(?P<"@ + name + ">"@ + body + ")"@
}

/// The capture group of the placeholder `{body}`.
///
/// A body `default/<name>` refers to the shared slot `<name>`: its group is
/// named `default_<name>` and matches what the slot's definition allows. There
/// is no group if `<name>` holds a further `/` or if the table has no such
/// slot. Any other body is the name of a slot of the intent, whose group
/// carries that name and matches any text.
pub open spec fn placeholder_group<P: SlotProcessor>(
    body: Seq<char>,
    defaults: Map<Seq<char>, SlotDefinition<P>>,
) -> Option<Seq<char>> {
    if "default/"@.is_prefix_of(body) {
        let name = body.skip("default/"@.len() as int);
        if name.contains('/') || !defaults.contains_key(name) {
            None
        } else {
            Some(capture_group("default_"@ + name, defaults[name].group_body()))
        }
    } else {
        Some(capture_group(body, lazy_text()))
    }
}

/// The index of the first `}` of `pattern` at or after `from`, or the length
/// of `pattern` if there is none.
pub open spec fn closing_brace(pattern: Seq<char>, from: int) -> int
    decreases pattern.len() - from,
{
    if from >= pattern.len() {
        pattern.len() as int
    } else if pattern[from] == '}' {
        from
    } else {
        closing_brace(pattern, from + 1)
    }
}

/// `head` followed by `tail`, where there is a tail.
pub open spec fn followed_by(head: Seq<char>, tail: Option<Seq<char>>) -> Option<Seq<char>> {
    match tail {
        Some(tail) => Some(head + tail),
        None => None,
    }
}

/// What `pattern[at..]` compiles to, the end anchor included.
///
/// A `{` with a later `}` opens a placeholder, which becomes its capture
/// group; the whole is `None` if a placeholder has no group. A `{` without a
/// later `}` and everything after it is literal text. Any other character is
/// literal text.
pub open spec fn compiled_from<P: SlotProcessor>(
    pattern: Seq<char>,
    defaults: Map<Seq<char>, SlotDefinition<P>>,
    at: int,
) -> Option<Seq<char>>
    decreases pattern.len() - at,
    via compiled_from_decreases::<P>
{
    if at < 0 || at >= pattern.len() {
        Some("$"@)
    } else if pattern[at] != '{' {
        followed_by(escaped_char(pattern[at]), compiled_from(pattern, defaults, at + 1))
    } else {
        let close = closing_brace(pattern, at + 1);
        if close >= pattern.len() {
            Some(escaped(pattern.skip(at)) + "$"@)
        } else {
            match placeholder_group(pattern.subrange(at + 1, close), defaults) {
                Some(group) => followed_by(group, compiled_from(pattern, defaults, close + 1)),
                None => None,
            }
        }
    }
}

/// The source of the regular expression that `pattern` compiles to: `^`,
/// the compiled pattern, `$`. `None` if a placeholder refers to a default
/// slot that the table does not have.
pub open spec fn regex_source<P: SlotProcessor>(
    pattern: Seq<char>,
    defaults: Map<Seq<char>, SlotDefinition<P>>,
) -> Option<Seq<char>> {
    followed_by("^"@, compiled_from(pattern, defaults, 0))
}

/// The bodies of the placeholders of `pattern[at..]`, in order.
pub open spec fn placeholders(pattern: Seq<char>, at: int) -> Seq<Seq<char>>
    decreases pattern.len() - at,
    via placeholders_decreases
{
    if at < 0 || at >= pattern.len() {
        Seq::empty()
    } else if pattern[at] != '{' {
        placeholders(pattern, at + 1)
    } else {
        let close = closing_brace(pattern, at + 1);
        if close >= pattern.len() {
            Seq::empty()
        } else {
            seq![pattern.subrange(at + 1, close)] + placeholders(pattern, close + 1)
        }
    }
}

#[via_fn]
proof fn placeholders_decreases(pattern: Seq<char>, at: int) {
    if 0 <= at < pattern.len() {
        lemma_closing_brace_bounds(pattern, at + 1);
    }
}

/// Whether the placeholder `{body}` refers to a default slot that `defaults`
/// cannot resolve.
pub open spec fn unresolved<P: SlotProcessor>(
    body: Seq<char>,
    defaults: Map<Seq<char>, SlotDefinition<P>>,
) -> bool {
    &&& "default/"@.is_prefix_of(body)
    &&& body.skip("default/"@.len() as int).contains('/') || !defaults.contains_key(
        body.skip("default/"@.len() as int),
    )
}

#[via_fn]
proof fn compiled_from_decreases<P: SlotProcessor>(
    pattern: Seq<char>,
    defaults: Map<Seq<char>, SlotDefinition<P>>,
    at: int,
) {
    if 0 <= at < pattern.len() {
        lemma_closing_brace_bounds(pattern, at + 1);
    }
}

pub proof fn lemma_closing_brace_bounds(pattern: Seq<char>, from: int)
    requires
        0 <= from <= pattern.len(),
    ensures
        from <= closing_brace(pattern, from) <= pattern.len(),
        closing_brace(pattern, from) < pattern.len() ==> pattern[closing_brace(pattern, from)]
            == '}',
        forall|i: int| from <= i < closing_brace(pattern, from) ==> pattern[i] != '}',
    decreases pattern.len() - from,
{
    if from < pattern.len() && pattern[from] != '}' {
        lemma_closing_brace_bounds(pattern, from + 1);
    }
}

proof fn lemma_escaped_one(c: char)
    ensures
        escaped(seq![c]) == escaped_char(c),
{
    assert(seq![c].drop_last() =~= Seq::<char>::empty());
    assert(escaped(seq![c].drop_last()) =~= Seq::<char>::empty());
    assert(escaped(seq![c]) =~= escaped_char(c));
}

/// The index of the first `}` of `chars` at or after `from`.
fn find_closing_brace(chars: &Vec<char>, from: usize) -> (close: usize)
    requires
        from <= chars.len(),
    ensures
        close == closing_brace(chars@, from as int),
        from <= close <= chars.len(),
{
    let mut at: usize = from;
    while at < chars.len() && chars[at] != '}'
        invariant
            from <= at <= chars.len(),
            closing_brace(chars@, from as int) == closing_brace(chars@, at as int),
        decreases chars.len() - at,
    {
        at += 1;
    }
    at
}

/// Appends `chars[from..to]` as literal text of a regular expression.
fn push_escaped(out: &mut Vec<char>, chars: &Vec<char>, from: usize, to: usize)
    requires
        from <= to <= chars.len(),
    ensures
        final(out)@ == old(out)@ + escaped(chars@.subrange(from as int, to as int)),
{
    let literal = from_chars(chars, from, to);
    let quoted = escape(literal.as_str());
    push_str(out, quoted.as_str());
}

/// Appends the values as literal text, separated by `|`.
fn push_alternation(out: &mut Vec<char>, values: &Vec<String>)
    ensures
        final(out)@ == old(out)@ + literal_alternation(views(values@)),
{
    let ghost before = out@;
    let ghost literals = views(values@).map_values(|value: Seq<char>| escaped(value));
    let mut i: usize = 0;
    while i < values.len()
        invariant
            i <= values.len(),
            literals == views(values@).map_values(|value: Seq<char>| escaped(value)),
            out@ == before + alternation(literals.take(i as int)),
        decreases values.len() - i,
    {
        let ghost taken = literals.take(i as int + 1);
        assert(taken.drop_last() =~= literals.take(i as int));
        assert(taken.last() == escaped(values@[i as int]@));
        if i > 0 {
            out.push('|');
        }
        let quoted = escape(values[i].as_str());
        push_str(out, quoted.as_str());
        proof {
            reveal_with_fuel(alternation, 2);
            if i == 0 {
                assert(literals.take(0).len() == 0);
            }
            assert(out@ =~= before + alternation(taken));
        }
        i += 1;
    }
    assert(literals.take(values.len() as int) =~= literals);
}

impl<'a, P: SlotProcessor> SlotExtractor<'a, P> {
    /// Appends the capture group of the placeholder whose body is
    /// `chars[from..to]`. Returns `false`, with `out` in no particular state,
    /// if the placeholder has no group.
    fn push_placeholder(&self, out: &mut Vec<char>, chars: &Vec<char>, from: usize, to: usize) -> (done:
        bool)
        requires
            from <= to <= chars.len(),
        ensures
            done <==> placeholder_group(chars@.subrange(from as int, to as int), self.default_slots@)
                is Some,
            done ==> Some(final(out)@) == followed_by(
                old(out)@,
                placeholder_group(chars@.subrange(from as int, to as int), self.default_slots@),
            ),
    {
        let ghost body = chars@.subrange(from as int, to as int);
        let ghost before = out@;
        proof {
            reveal_strlit("default/");
        }
        if starts_with(chars, from, to, "default/") {
            let start = from + 8;
            let ghost name = body.skip(8);
            assert(name =~= chars@.subrange(start as int, to as int));
            let mut i: usize = start;
            while i < to
                invariant
                    start <= i <= to <= chars.len(),
                    forall|j: int| start <= j < i ==> chars@[j] != '/',
                    name == chars@.subrange(start as int, to as int),
                    body == chars@.subrange(from as int, to as int),
                    "default/"@.is_prefix_of(body),
                    name == body.skip("default/"@.len() as int),
                decreases to - i,
            {
                if chars[i] == '/' {
                    assert(name[i - start] == '/');
                    assert(name.contains('/'));
                    return false;
                }
                i += 1;
            }
            assert(!name.contains('/')) by {
                if name.contains('/') {
                    let k = choose|k: int| 0 <= k < name.len() && name[k] == '/';
                    assert(chars@[start + k] == '/');
                }
            }
            let slot_name = from_chars(chars, start, to);
            match self.default_slots.get(slot_name.as_str()) {
                None => false,
                Some(defn) => {
                    push_str(out, "(?P<");
                    push_str(out, "default_");
                    push_str(out, slot_name.as_str());
                    push_str(out, ">");
                    match defn {
                        SlotDefinition::Enumeration { values } => {
                            push_alternation(out, values);
                        },
                        _ => {
                            push_str(out, ".+?");
                            proof {
                                reveal_strlit(".+?");
                                assert(".+?"@ =~= lazy_text());
                            }
                        },
                    }
                    push_str(out, ")");
                    assert(out@ =~= before + capture_group(
                        "default_"@ + name,
                        defn.group_body(),
                    ));
                    true
                },
            }
        } else {
            push_str(out, "(?P<");
            push_str(out, from_chars(chars, from, to).as_str());
            push_str(out, ">");
            push_str(out, ".+?");
            push_str(out, ")");
            proof {
                reveal_strlit(".+?");
                assert(".+?"@ =~= lazy_text());
                assert(out@ =~= before + capture_group(body, lazy_text()));
            }
            true
        }
    }

    /// Compiles a literal pattern to the source of its regular expression.
    ///
    /// The result is `None` exactly when a `{default/name}` placeholder names a
    /// slot that the table of default slots does not have.
    pub fn pattern_to_regex(&self, pattern: &str) -> (source: Option<String>)
        ensures
            opt_view(source) == regex_source(pattern@, self.default_slots@),
    {
        let chars = to_chars(pattern);
        let mut out: Vec<char> = Vec::new();
        push_str(&mut out, "^");
        let mut pos: usize = 0;
        while pos < chars.len()
            invariant
                chars@ == pattern@,
                pos <= chars.len(),
                regex_source(pattern@, self.default_slots@) == followed_by(
                    out@,
                    compiled_from(pattern@, self.default_slots@, pos as int),
                ),
            decreases chars.len() - pos,
        {
            let ghost rest = compiled_from(pattern@, self.default_slots@, pos as int);
            let ghost before = out@;
            if chars[pos] == '{' {
                let close = find_closing_brace(&chars, pos + 1);
                if close >= chars.len() {
                    push_escaped(&mut out, &chars, pos, close);
                    proof {
                        assert(chars@.subrange(pos as int, close as int) =~= pattern@.skip(pos as int));
                        assert(followed_by(before, rest) == followed_by(
                            out@,
                            compiled_from(pattern@, self.default_slots@, close as int),
                        )) by {
                            assert(before + (escaped(pattern@.skip(pos as int)) + "$"@) =~= out@
                                + "$"@);
                        }
                    }
                    pos = close;
                } else {
                    if !self.push_placeholder(&mut out, &chars, pos + 1, close) {
                        return None;
                    }
                    proof {
                        let group = placeholder_group(
                            pattern@.subrange(pos + 1, close as int),
                            self.default_slots@,
                        ).unwrap();
                        let tail = compiled_from(pattern@, self.default_slots@, close + 1);
                        assert(out@ == before + group);
                        if tail is Some {
                            assert(before + (group + tail.unwrap()) =~= out@ + tail.unwrap());
                        }
                    }
                    pos = close + 1;
                }
            } else {
                push_escaped(&mut out, &chars, pos, pos + 1);
                proof {
                    lemma_escaped_one(chars@[pos as int]);
                    assert(chars@.subrange(pos as int, pos + 1) =~= seq![chars@[pos as int]]);
                    let tail = compiled_from(pattern@, self.default_slots@, pos + 1);
                    if tail is Some {
                        assert(before + (escaped_char(chars@[pos as int]) + tail.unwrap()) =~= out@
                            + tail.unwrap());
                    }
                }
                pos += 1;
            }
        }
        push_str(&mut out, "$");
        let source = from_chars(&out, 0, out.len());
        assert(out@.subrange(0, out@.len() as int) =~= out@);
        Some(source)
    }
}

/// A pattern compiles exactly when each of its placeholders has a capture
/// group.
pub proof fn lemma_compiles_iff_placeholders_resolve<P: SlotProcessor>(
    pattern: Seq<char>,
    defaults: Map<Seq<char>, SlotDefinition<P>>,
    at: int,
)
    requires
        0 <= at,
    ensures
        compiled_from(pattern, defaults, at) is Some <==> forall|i: int|
            0 <= i < placeholders(pattern, at).len() ==> placeholder_group(
                #[trigger] placeholders(pattern, at)[i],
                defaults,
            ) is Some,
    decreases pattern.len() - at,
{
    if at < pattern.len() {
        if pattern[at] != '{' {
            lemma_compiles_iff_placeholders_resolve(pattern, defaults, at + 1);
        } else {
            lemma_closing_brace_bounds(pattern, at + 1);
            let close = closing_brace(pattern, at + 1);
            if close < pattern.len() {
                lemma_compiles_iff_placeholders_resolve(pattern, defaults, close + 1);
                let body = pattern.subrange(at + 1, close);
                let rest = placeholders(pattern, close + 1);
                let all = placeholders(pattern, at);
                assert(all == seq![body] + rest);
                assert(all[0] == body);
                assert forall|i: int| 0 <= i < rest.len() implies rest[i] == all[i + 1] by {}
                if compiled_from(pattern, defaults, at) is Some {
                    assert forall|i: int| 0 <= i < all.len() implies placeholder_group(
                        #[trigger] all[i],
                        defaults,
                    ) is Some by {
                        if i > 0 {
                            assert(all[i] == rest[i - 1]);
                        }
                    }
                }
                if forall|i: int|
                    0 <= i < all.len() ==> placeholder_group(#[trigger] all[i], defaults) is Some {
                    assert(placeholder_group(all[0], defaults) is Some);
                    assert forall|i: int| 0 <= i < rest.len() implies placeholder_group(
                        #[trigger] rest[i],
                        defaults,
                    ) is Some by {
                        assert(rest[i] == all[i + 1]);
                    }
                }
            }
        }
    }
}

/// A pattern has a regular expression exactly when none of its placeholders
/// is an unresolved reference to a default slot. In particular a pattern whose
/// placeholders are all slots of the intent always has one.
pub proof fn lemma_regex_source_exists<P: SlotProcessor>(
    pattern: Seq<char>,
    defaults: Map<Seq<char>, SlotDefinition<P>>,
)
    ensures
        regex_source(pattern, defaults) is Some <==> forall|i: int|
            0 <= i < placeholders(pattern, 0).len() ==> !unresolved(
                #[trigger] placeholders(pattern, 0)[i],
                defaults,
            ),
{
    lemma_compiles_iff_placeholders_resolve(pattern, defaults, 0);
    let all = placeholders(pattern, 0);
    assert forall|i: int| 0 <= i < all.len() implies (placeholder_group(#[trigger] all[i], defaults)
        is Some <==> !unresolved(all[i], defaults)) by {}
}

/// A pattern with a placeholder for a default slot that the table does not
/// have has no regular expression.
pub proof fn lemma_unknown_default_has_no_regex<P: SlotProcessor>(
    pattern: Seq<char>,
    defaults: Map<Seq<char>, SlotDefinition<P>>,
    i: int,
)
    requires
        0 <= i < placeholders(pattern, 0).len(),
        unresolved(placeholders(pattern, 0)[i], defaults),
    ensures
        regex_source(pattern, defaults) is None,
{
    lemma_regex_source_exists(pattern, defaults);
}

/// A pattern without `{` is literal text: its regular expression is the
/// escaped pattern between the two anchors.
pub proof fn lemma_literal_pattern<P: SlotProcessor>(
    pattern: Seq<char>,
    defaults: Map<Seq<char>, SlotDefinition<P>>,
)
    requires
        !pattern.contains('{'),
    ensures
        regex_source(pattern, defaults) == Some("^"@ + escaped(pattern) + "$"@),
{
    lemma_literal_tail(pattern, defaults, 0);
    assert(pattern.skip(0) =~= pattern);
    assert("^"@ + (escaped(pattern) + "$"@) =~= "^"@ + escaped(pattern) + "$"@);
}

proof fn lemma_literal_tail<P: SlotProcessor>(
    pattern: Seq<char>,
    defaults: Map<Seq<char>, SlotDefinition<P>>,
    at: int,
)
    requires
        0 <= at <= pattern.len(),
        !pattern.contains('{'),
    ensures
        compiled_from(pattern, defaults, at) == Some(escaped(pattern.skip(at)) + "$"@),
    decreases pattern.len() - at,
{
    if at < pattern.len() {
        lemma_literal_tail(pattern, defaults, at + 1);
        lemma_escaped_front(pattern.skip(at));
        assert(pattern.skip(at).drop_first() =~= pattern.skip(at + 1));
        assert(escaped_char(pattern[at]) + (escaped(pattern.skip(at + 1)) + "$"@) =~= escaped(
            pattern.skip(at),
        ) + "$"@);
    } else {
        assert(pattern.skip(at).len() == 0);
        assert(escaped(pattern.skip(at)) + "$"@ =~= "$"@);
    }
}

/// Escaping goes character by character, from either end.
pub proof fn lemma_escaped_front(text: Seq<char>)
    requires
        text.len() > 0,
    ensures
        escaped(text) == escaped_char(text[0]) + escaped(text.drop_first()),
    decreases text.len(),
{
    if text.len() == 1 {
        lemma_escaped_one(text[0]);
        assert(text =~= seq![text[0]]);
        assert(text.drop_first().len() == 0);
        assert(escaped_char(text[0]) + escaped(text.drop_first()) =~= escaped_char(text[0]));
    } else {
        lemma_escaped_front(text.drop_last());
        assert(text.drop_last().drop_first() =~= text.drop_first().drop_last());
        assert(text.drop_first().last() == text.last());
        assert(text.drop_last()[0] == text[0]);
        assert((escaped_char(text[0]) + escaped(text.drop_first().drop_last())) + escaped_char(
            text.last(),
        ) =~= escaped_char(text[0]) + (escaped(text.drop_first().drop_last()) + escaped_char(
            text.last(),
        )));
    }
}

} // verus!
