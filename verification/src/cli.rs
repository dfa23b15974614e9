//! The header line of the command line interface.

use vstd::prelude::*;
use vstd::string::StringSliceAdditionalSpecFns;

use crate::text::push_str;

verus! {

/// `n` times the character `c`.
pub open spec fn repeated(c: char, n: nat) -> Seq<char> {
    Seq::new(n, |i: int| c)
}

/// The header line for `text` on a terminal of `width` columns, where
/// `text` takes `len` bytes: the text between two spaces, centred in a line
/// of `=`. A text of no bytes gives a line of `=` alone.
pub open spec fn header_line(text: Seq<char>, len: nat, width: nat) -> Seq<char> {
    let half = (width - (len + 2)) / 2;
    repeated('=', half as nat) + (if len > 0 {
        " "@ + text + " "@
    } else {
        "=="@
    }) + repeated('=', (width - (len + 2) - half) as nat)
}

/// The header line for `text` on a terminal of `width` columns.
pub fn centered_header(text: &str, width: usize) -> (line: String)
    requires
        text.spec_bytes().len() + 2 <= width,
    ensures
        line@ == header_line(text@, text.spec_bytes().len(), width as nat),
{
    let len = text.len() + 2;
    let half = (width - len) / 2;
    let mut out: Vec<char> = Vec::new();
    push_repeated(&mut out, half);
    if len > 2 {
        out.push(' ');
        push_str(&mut out, text);
        out.push(' ');
        proof {
            reveal_strlit(" ");
            assert(" "@ + text@ + " "@ =~= seq![' '] + text@ + seq![' ']);
        }
    } else {
        push_str(&mut out, "==");
    }
    push_repeated(&mut out, width - len - half);
    let line = crate::text::from_chars(&out, 0, out.len());
    assert(out@.subrange(0, out@.len() as int) =~= out@);
    assert(line@ =~= header_line(text@, text.spec_bytes().len(), width as nat));
    line
}

/// Appends `n` times `=`.
fn push_repeated(out: &mut Vec<char>, n: usize)
    ensures
        final(out)@ == old(out)@ + repeated('=', n as nat),
{
    let ghost before = out@;
    let mut i: usize = 0;
    while i < n
        invariant
            i <= n,
            out@ == before + repeated('=', i as nat),
        decreases n - i,
    {
        out.push('=');
        i += 1;
        assert(out@ =~= before + repeated('=', i as nat));
    }
}

} // verus!
