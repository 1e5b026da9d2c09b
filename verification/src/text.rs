//! Rendering of textual scalars into the header: a string is emitted plainly
//! unless it holds a character that would break the mapping syntax, in which
//! case it is double-quoted and escaped.

use vstd::prelude::*;

verus! {

/// Relies on `String::push`: appends the given `char` to the end of the string.
pub assume_specification[ String::push ](s: &mut String, c: char)
    ensures
        final(s)@ == old(s)@.push(c),
;

/// Whether `c` would break an unquoted mapping value.
pub open spec fn breaks_plain(c: char) -> bool {
    c == ':' || c == '#' || c == '\n' || c == '"' || c == '\\'
}

/// Whether a scalar string must be quoted: it is empty, holds a breaking
/// character, starts with a space or a list-item dash, or ends with a space.
pub open spec fn needs_quoting(s: Seq<char>) -> bool {
    ||| s.len() == 0
    ||| exists|i: int| 0 <= i < s.len() && breaks_plain(#[trigger] s[i])
    ||| s[0] == ' '
    ||| s[0] == '-'
    ||| s.last() == ' '
}

/// The escaped form of one character inside a quoted scalar.
pub open spec fn escape_char(c: char) -> Seq<char> {
    if c == '"' {
        seq!['\\', '"']
    } else if c == '\\' {
        seq!['\\', '\\']
    } else if c == '\n' {
        seq!['\\', 'n']
    } else {
        seq![c]
    }
}

/// The escaped form of a whole scalar, character by character.
pub open spec fn escaped(s: Seq<char>) -> Seq<char>
    decreases s.len(),
{
    if s.len() == 0 {
        Seq::empty()
    } else {
        escaped(s.drop_last()) + escape_char(s.last())
    }
}

/// How a textual scalar is rendered: plainly when harmless, quoted and
/// escaped when it needs quoting.
pub open spec fn render_scalar(s: Seq<char>) -> Seq<char> {
    if needs_quoting(s) {
        seq!['"'] + escaped(s) + seq!['"']
    } else {
        s
    }
}

/// Decides `needs_quoting`.
fn scalar_needs_quoting(s: &str) -> (r: bool)
    ensures
        r == needs_quoting(s@),
{
    let n = s.unicode_len();
    if n == 0 {
        return true;
    }
    let first = s.get_char(0);
    if first == ' ' || first == '-' {
        return true;
    }
    if s.get_char(n - 1) == ' ' {
        return true;
    }
    let mut i: usize = 0;
    while i < n
        invariant
            0 <= i <= n,
            n == s@.len(),
            forall|j: int| 0 <= j < i ==> !breaks_plain(#[trigger] s@[j]),
        decreases n - i,
    {
        let c = s.get_char(i);
        if c == ':' || c == '#' || c == '\n' || c == '"' || c == '\\' {
            return true;
        }
        i = i + 1;
    }
    false
}

/// Appends the rendered form of the scalar `s` to `out`.
pub fn push_scalar(s: &str, out: &mut String)
    ensures
        final(out)@ == old(out)@ + render_scalar(s@),
{
    if !scalar_needs_quoting(s) {
        out.append(s);
        return ;
    }
    out.push('"');
    let n = s.unicode_len();
    let mut i: usize = 0;
    while i < n
        invariant
            0 <= i <= n,
            n == s@.len(),
            needs_quoting(s@),
            out@ == old(out)@ + seq!['"'] + escaped(s@.take(i as int)),
        decreases n - i,
    {
        let c = s.get_char(i);
        if c == '"' {
            out.push('\\');
            out.push('"');
        } else if c == '\\' {
            out.push('\\');
            out.push('\\');
        } else if c == '\n' {
            out.push('\\');
            out.push('n');
        } else {
            out.push(c);
        }
        proof {
            assert(s@.take(i + 1).drop_last() =~= s@.take(i as int));
            assert(s@.take(i + 1).last() == s@[i as int]);
            assert(escaped(s@.take(i + 1)) == escaped(s@.take(i as int)) + escape_char(
                s@[i as int],
            ));
            assert(out@ =~= old(out)@ + seq!['"'] + escaped(s@.take(i + 1)));
        }
        i = i + 1;
    }
    out.push('"');
    proof {
        assert(s@.take(n as int) =~= s@);
        assert(out@ =~= old(out)@ + render_scalar(s@));
    }
}

} // verus!
