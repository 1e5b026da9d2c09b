//! Serialization of extracted values into the structured-header block: an
//! opening delimiter line, one mapping entry per value in input order, a
//! closing delimiter line, and a blank separator line.

use vstd::prelude::*;

use crate::numbers::{render_i64, spec_render_i64};
use crate::text::{push_scalar, render_scalar};
use crate::value::{values_model, ExtractedValue, FieldPayload, PayloadModel, ValueModel};

verus! {

/// The delimiter line that opens and closes the header block.
pub open spec fn delim_line() -> Seq<char> {
    seq!['-', '-', '-', '\n']
}

/// The textual form of a boolean payload.
pub open spec fn bool_text(b: bool) -> Seq<char> {
    if b {
        seq!['t', 'r', 'u', 'e']
    } else {
        seq!['f', 'a', 'l', 's', 'e']
    }
}

/// One indented list-item line of a sequence payload.
pub open spec fn item_line(s: Seq<char>) -> Seq<char> {
    seq![' ', ' ', '-', ' '] + render_scalar(s) + seq!['\n']
}

/// The list-item lines of a sequence payload, in choice order.
pub open spec fn item_lines(items: Seq<Seq<char>>) -> Seq<char>
    decreases items.len(),
{
    if items.len() == 0 {
        Seq::empty()
    } else {
        item_lines(items.drop_last()) + item_line(items.last())
    }
}

/// The rendered mapping entry of one extracted value: `key: value` for a
/// scalar payload, `key:` followed by one list-item line per chosen option
/// for a sequence payload.
pub open spec fn entry_text(v: ValueModel) -> Seq<char> {
    match v.payload {
        PayloadModel::Text(s) => v.key + seq![':', ' '] + render_scalar(s) + seq!['\n'],
        PayloadModel::Number(n) => v.key + seq![':', ' '] + spec_render_i64(n) + seq!['\n'],
        PayloadModel::Boolean(b) => v.key + seq![':', ' '] + bool_text(b) + seq!['\n'],
        PayloadModel::SingleChoice(s) => v.key + seq![':', ' '] + render_scalar(s) + seq!['\n'],
        PayloadModel::MultiChoice(items) => v.key + seq![':', '\n'] + item_lines(items),
    }
}

/// The concatenated entries of a run of values, in input order.
pub open spec fn entries_text(vs: Seq<ValueModel>) -> Seq<char>
    decreases vs.len(),
{
    if vs.len() == 0 {
        Seq::empty()
    } else {
        entries_text(vs.drop_last()) + entry_text(vs.last())
    }
}

/// The whole header block: empty for no values, otherwise the entries between
/// two delimiter lines, with a trailing blank line.
pub open spec fn serialize_text(vs: Seq<ValueModel>) -> Seq<char> {
    if vs.len() == 0 {
        Seq::empty()
    } else {
        delim_line() + entries_text(vs) + delim_line() + seq!['\n']
    }
}

/// Appends the mapping entry of one value to `out`.
fn push_entry(v: &ExtractedValue, out: &mut String)
    ensures
        final(out)@ == old(out)@ + entry_text(v@),
{
    out.append(v.key.as_str());
    match &v.payload {
        FieldPayload::Text(s) => {
            proof {
                reveal_strlit(": ");
                reveal_strlit("\n");
            }
            out.append(": ");
            assert(out@ =~= old(out)@ + v@.key + seq![':', ' ']);
            push_scalar(s.as_str(), out);
            out.append("\n");
            assert(out@ =~= old(out)@ + entry_text(v@));
        },
        FieldPayload::Number(n) => {
            proof {
                reveal_strlit(": ");
                reveal_strlit("\n");
            }
            out.append(": ");
            assert(out@ =~= old(out)@ + v@.key + seq![':', ' ']);
            let rendered = render_i64(*n);
            out.append(rendered.as_str());
            out.append("\n");
            assert(out@ =~= old(out)@ + entry_text(v@));
        },
        FieldPayload::Boolean(b) => {
            proof {
                reveal_strlit(": ");
                reveal_strlit("true");
                reveal_strlit("false");
                reveal_strlit("\n");
            }
            out.append(": ");
            if *b {
                out.append("true");
            } else {
                out.append("false");
            }
            out.append("\n");
            assert(out@ =~= old(out)@ + entry_text(v@));
        },
        FieldPayload::SingleChoice(s) => {
            proof {
                reveal_strlit(": ");
                reveal_strlit("\n");
            }
            out.append(": ");
            assert(out@ =~= old(out)@ + v@.key + seq![':', ' ']);
            push_scalar(s.as_str(), out);
            out.append("\n");
            assert(out@ =~= old(out)@ + entry_text(v@));
        },
        FieldPayload::MultiChoice(items) => {
            proof {
                reveal_strlit(":\n");
                reveal_strlit("  - ");
                reveal_strlit("\n");
            }
            out.append(":\n");
            let ghost m = items@.map_values(|s: String| s@);
            assert(out@ =~= old(out)@ + v@.key + seq![':', '\n'] + item_lines(m.take(0)));
            let mut i: usize = 0;
            while i < items.len()
                invariant
                    0 <= i <= items@.len(),
                    m == items@.map_values(|s: String| s@),
                    out@ == old(out)@ + v@.key + seq![':', '\n'] + item_lines(m.take(i as int)),
                decreases items@.len() - i,
            {
                proof {
                    reveal_strlit("  - ");
                    reveal_strlit("\n");
                }
                out.append("  - ");
                push_scalar(items[i].as_str(), out);
                out.append("\n");
                proof {
                    assert(m.take(i + 1).drop_last() =~= m.take(i as int));
                    assert(m.take(i + 1).last() == m[i as int]);
                    assert(item_lines(m.take(i + 1)) == item_lines(m.take(i as int)) + item_line(
                        m[i as int],
                    ));
                    assert(out@ =~= old(out)@ + v@.key + seq![':', '\n'] + item_lines(
                        m.take(i + 1),
                    ));
                }
                i = i + 1;
            }
            proof {
                assert(m.take(items@.len() as int) =~= m);
                assert(out@ =~= old(out)@ + entry_text(v@));
            }
        },
    }
}

/// Serializes a run of extracted values into the header block. An empty run
/// yields the empty string; a non-empty run yields the delimiter line, one
/// entry per value in input order, the delimiter line, and a blank line.
pub fn serialize(values: &Vec<ExtractedValue>) -> (r: String)
    ensures
        r@ == serialize_text(values_model(values@)),
        values@.len() == 0 ==> r@ == Seq::<char>::empty(),
{
    let ghost m = values_model(values@);
    if values.len() == 0 {
        let r = String::new();
        assert(r@ =~= serialize_text(m));
        return r;
    }
    proof {
        reveal_strlit("---\n");
        reveal_strlit("\n");
    }
    let mut out = String::new();
    out.append("---\n");
    assert(out@ =~= delim_line() + entries_text(m.take(0)));
    let mut i: usize = 0;
    while i < values.len()
        invariant
            0 <= i <= values@.len(),
            m == values_model(values@),
            out@ == delim_line() + entries_text(m.take(i as int)),
        decreases values@.len() - i,
    {
        push_entry(&values[i], &mut out);
        proof {
            assert(m.take(i + 1).drop_last() =~= m.take(i as int));
            assert(m.take(i + 1).last() == m[i as int]);
            assert(entries_text(m.take(i + 1)) == entries_text(m.take(i as int)) + entry_text(
                m[i as int],
            ));
            assert(out@ =~= delim_line() + entries_text(m.take(i + 1)));
        }
        i = i + 1;
    }
    proof {
        reveal_strlit("---\n");
        reveal_strlit("\n");
    }
    out.append("---\n");
    out.append("\n");
    proof {
        assert(m.take(values@.len() as int) =~= m);
        assert(out@ =~= serialize_text(m));
    }
    out
}

/// The shape of every non-empty header: it begins with the delimiter line,
/// ends with the delimiter line and a blank line, and between them stand
/// exactly the rendered entries, one per input value, in input order.
pub proof fn lemma_serialize_shape(vs: Seq<ValueModel>)
    requires
        vs.len() > 0,
    ensures
        serialize_text(vs) == delim_line() + entries_text(vs) + (delim_line() + seq!['\n']),
        serialize_text(vs).take(delim_line().len() as int) == delim_line(),
        serialize_text(vs).skip(serialize_text(vs).len() - 5) == delim_line() + seq!['\n'],
        forall|i: int|
            0 <= i < vs.len() ==> entries_text(vs.take(i + 1)) == entries_text(vs.take(i))
                + entry_text(vs[i]),
{
    let out = serialize_text(vs);
    assert(out =~= delim_line() + entries_text(vs) + (delim_line() + seq!['\n']));
    assert(out.take(delim_line().len() as int) =~= delim_line());
    assert(out.skip(out.len() - 5) =~= delim_line() + seq!['\n']);
    assert forall|i: int| 0 <= i < vs.len() implies entries_text(vs.take(i + 1)) == entries_text(
        vs.take(i),
    ) + entry_text(vs[i]) by {
        assert(vs.take(i + 1).drop_last() =~= vs.take(i));
        assert(vs.take(i + 1).last() == vs[i]);
    }
}

/// Serializing no values yields the empty string.
pub proof fn lemma_serialize_empty()
    ensures
        serialize_text(Seq::<ValueModel>::empty()) == Seq::<char>::empty(),
{
}

} // verus!
