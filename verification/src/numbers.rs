//! Parsing and rendering of the numeric payloads: decimal `i64` literals,
//! with a proved lossless round-trip between the two directions.

use vstd::prelude::*;

verus! {

/// The magnitude of `i64::MIN`, the largest magnitude a negative literal may have.
pub const I64_MIN_MAGNITUDE: u64 = 9223372036854775808;

/// Whether `c` is a decimal digit.
pub open spec fn is_digit(c: char) -> bool {
    '0' <= c && c <= '9'
}

/// The numeric value of a decimal digit.
pub open spec fn digit_val(c: char) -> int {
    c as u32 - '0' as u32
}

/// Whether every character of `s` is a decimal digit.
pub open spec fn all_digits(s: Seq<char>) -> bool {
    forall|i: int| 0 <= i < s.len() ==> is_digit(#[trigger] s[i])
}

/// The value of a sequence of decimal digits, most significant first.
pub open spec fn digits_val(s: Seq<char>) -> int
    decreases s.len(),
{
    if s.len() == 0 {
        0
    } else {
        digits_val(s.drop_last()) * 10 + digit_val(s.last())
    }
}

/// What a decimal `i64` literal denotes: an optional leading minus sign, then
/// one or more digits, whose value must fit in `i64`; anything else is `None`.
pub open spec fn spec_parse_i64(s: Seq<char>) -> Option<i64> {
    if s.len() > 0 && s[0] == '-' {
        let mag = s.subrange(1, s.len() as int);
        if mag.len() > 0 && all_digits(mag) && digits_val(mag) <= I64_MIN_MAGNITUDE {
            Some((-digits_val(mag)) as i64)
        } else {
            None
        }
    } else if s.len() > 0 && all_digits(s) && digits_val(s) <= i64::MAX {
        Some(digits_val(s) as i64)
    } else {
        None
    }
}

/// The digit character for a value in 0..=9.
pub open spec fn digit_char(d: int) -> char {
    if d == 0 {
        '0'
    } else if d == 1 {
        '1'
    } else if d == 2 {
        '2'
    } else if d == 3 {
        '3'
    } else if d == 4 {
        '4'
    } else if d == 5 {
        '5'
    } else if d == 6 {
        '6'
    } else if d == 7 {
        '7'
    } else if d == 8 {
        '8'
    } else {
        '9'
    }
}

/// The decimal digits of a non-negative value, most significant first,
/// without leading zeros (a lone zero for 0).
pub open spec fn nat_digits(n: int) -> Seq<char>
    decreases n,
{
    if n < 10 {
        seq![digit_char(n)]
    } else {
        nat_digits(n / 10).push(digit_char(n % 10))
    }
}

/// The canonical decimal rendering of an integer.
pub open spec fn spec_render_i64(n: int) -> Seq<char> {
    if n < 0 {
        seq!['-'] + nat_digits(-n)
    } else {
        nat_digits(n)
    }
}

/// A sequence of digits has a non-negative value.
pub proof fn lemma_digits_val_nonneg(s: Seq<char>)
    requires
        all_digits(s),
    ensures
        digits_val(s) >= 0,
    decreases s.len(),
{
    if s.len() > 0 {
        assert(all_digits(s.drop_last()));
        lemma_digits_val_nonneg(s.drop_last());
    }
}

/// Reading further digits never decreases the value read so far.
pub proof fn lemma_digits_val_prefix_le(s: Seq<char>, i: int)
    requires
        all_digits(s),
        0 <= i <= s.len(),
    ensures
        digits_val(s.take(i)) <= digits_val(s),
    decreases s.len() - i,
{
    if i == s.len() {
        assert(s.take(i) =~= s);
    } else {
        assert(all_digits(s.take(i)));
        lemma_digits_val_nonneg(s.take(i));
        assert(s.take(i + 1).drop_last() =~= s.take(i));
        assert(s.take(i + 1).last() == s[i]);
        assert(digits_val(s.take(i + 1)) == digits_val(s.take(i)) * 10 + digit_val(s[i]));
        assert(is_digit(s[i]));
        lemma_digits_val_prefix_le(s, i + 1);
    }
}

/// The canonical digits of a non-negative value are digits and read back to it.
pub proof fn lemma_nat_digits_val(n: int)
    requires
        n >= 0,
    ensures
        nat_digits(n).len() >= 1,
        all_digits(nat_digits(n)),
        digits_val(nat_digits(n)) == n,
    decreases n,
{
    if n < 10 {
        let s = nat_digits(n);
        assert(s =~= seq![digit_char(n)]);
        assert(s.drop_last() =~= Seq::<char>::empty());
        assert(s.last() == digit_char(n));
        assert(is_digit(digit_char(n)));
        assert(digit_val(digit_char(n)) == n);
        assert(digits_val(s) == digits_val(s.drop_last()) * 10 + digit_val(s.last()));
    } else {
        lemma_nat_digits_val(n / 10);
        let prefix = nat_digits(n / 10);
        let s = nat_digits(n);
        assert(s == prefix.push(digit_char(n % 10)));
        assert(s.drop_last() =~= prefix);
        assert(s.last() == digit_char(n % 10));
        assert(is_digit(digit_char(n % 10)));
        assert(digit_val(digit_char(n % 10)) == n % 10);
        assert(digits_val(s) == (n / 10) * 10 + n % 10);
        assert((n / 10) * 10 + n % 10 == n);
        assert(forall|i: int|
            0 <= i < s.len() ==> is_digit(#[trigger] s[i]) == if i < prefix.len() {
                is_digit(prefix[i])
            } else {
                is_digit(digit_char(n % 10))
            });
    }
}

/// The rendered form of a number always parses back to that number: the
/// numeric payload round-trips losslessly through its serialized text.
pub proof fn lemma_parse_render_roundtrip(n: i64)
    ensures
        spec_parse_i64(spec_render_i64(n as int)) == Some(n),
{
    if n < 0 {
        let m = -(n as int);
        lemma_nat_digits_val(m);
        let s = spec_render_i64(n as int);
        assert(s == seq!['-'] + nat_digits(m));
        assert(s[0] == '-');
        assert(s.subrange(1, s.len() as int) =~= nat_digits(m));
        assert(digits_val(nat_digits(m)) == m);
        assert(m <= I64_MIN_MAGNITUDE);
    } else {
        lemma_nat_digits_val(n as int);
        let s = spec_render_i64(n as int);
        assert(s == nat_digits(n as int));
        assert(is_digit(s[0]));
        assert(s[0] != '-');
        assert(digits_val(s) == n as int);
    }
}

/// The digit character for `d`, as a one-character string slice.
fn digit_str(d: u64) -> (r: &'static str)
    requires
        d < 10,
    ensures
        r@ =~= seq![digit_char(d as int)],
{
    proof {
        reveal_strlit("0");
        reveal_strlit("1");
        reveal_strlit("2");
        reveal_strlit("3");
        reveal_strlit("4");
        reveal_strlit("5");
        reveal_strlit("6");
        reveal_strlit("7");
        reveal_strlit("8");
        reveal_strlit("9");
    }
    if d == 0 {
        "0"
    } else if d == 1 {
        "1"
    } else if d == 2 {
        "2"
    } else if d == 3 {
        "3"
    } else if d == 4 {
        "4"
    } else if d == 5 {
        "5"
    } else if d == 6 {
        "6"
    } else if d == 7 {
        "7"
    } else if d == 8 {
        "8"
    } else {
        "9"
    }
}

/// Appends the canonical decimal digits of `n` to `out`.
fn push_digits(n: u64, out: &mut String)
    ensures
        final(out)@ == old(out)@ + nat_digits(n as int),
    decreases n,
{
    if n < 10 {
        out.append(digit_str(n));
    } else {
        push_digits(n / 10, out);
        out.append(digit_str(n % 10));
        proof {
            assert(nat_digits(n as int) == nat_digits(n as int / 10).push(
                digit_char(n as int % 10),
            ));
            assert(old(out)@ + nat_digits(n as int / 10) + seq![digit_char(n as int % 10)] =~= old(
                out,
            )@ + nat_digits(n as int));
        }
    }
}

/// Renders `n` as its canonical decimal literal.
pub fn render_i64(n: i64) -> (r: String)
    ensures
        r@ == spec_render_i64(n as int),
{
    let mut out = String::new();
    if n < 0 {
        proof {
            reveal_strlit("-");
        }
        out.append("-");
        let mag: u64 = ((-(n + 1)) as u64) + 1;
        assert(mag as int == -(n as int));
        assert(out@ =~= seq!['-']);
        push_digits(mag, &mut out);
        proof {
            assert(out@ =~= seq!['-'] + nat_digits(-(n as int)));
        }
    } else {
        push_digits(n as u64, &mut out);
        proof {
            assert(out@ =~= nat_digits(n as int));
        }
    }
    out
}

/// Parses a decimal `i64` literal, exactly as `spec_parse_i64` describes it.
pub fn parse_i64(s: &str) -> (r: Option<i64>)
    ensures
        r == spec_parse_i64(s@),
{
    let n = s.unicode_len();
    if n == 0 {
        return None;
    }
    let neg = s.get_char(0) == '-';
    let start: usize = if neg {
        1
    } else {
        0
    };
    if n == start {
        return None;
    }
    let ghost m = if neg {
        s@.subrange(1, s@.len() as int)
    } else {
        s@
    };
    let limit: u64 = if neg {
        I64_MIN_MAGNITUDE
    } else {
        9223372036854775807
    };
    let mut mag: u64 = 0;
    let mut i: usize = start;
    while i < n
        invariant
            start <= i <= n,
            n == s@.len(),
            start == if neg {
                1int
            } else {
                0int
            },
            neg ==> s@[0] == '-',
            !neg ==> s@[0] != '-',
            m == if neg {
                s@.subrange(1, s@.len() as int)
            } else {
                s@
            },
            m.len() == n - start,
            limit == if neg {
                I64_MIN_MAGNITUDE
            } else {
                (i64::MAX as u64)
            },
            all_digits(m.take(i - start)),
            mag == digits_val(m.take(i - start)),
            mag <= limit,
        decreases n - i,
    {
        let c = s.get_char(i);
        proof {
            assert(m[i - start] == s@[i as int]);
        }
        if c < '0' || c > '9' {
            proof {
                assert(!is_digit(m[i - start]));
                assert(!all_digits(m));
            }
            return None;
        }
        let d: u64 = (c as u32 - '0' as u32) as u64;
        proof {
            assert(is_digit(c));
            assert(d == digit_val(c));
        }
        let wide: u64 = {
            if mag > (limit - d) / 10 {
                proof {
                    assert(m.take(i - start + 1).drop_last() =~= m.take(i - start));
                    assert(m.take(i - start + 1).last() == m[i - start]);
                    assert(digits_val(m.take(i - start + 1)) == mag * 10 + d);
                    assert(mag * 10 + d > limit) by (nonlinear_arith)
                        requires
                            mag > (limit - d) / 10,
                            d <= limit,
                            mag >= 0,
                    ;
                    if all_digits(m) {
                        lemma_digits_val_prefix_le(m, i - start + 1);
                        assert(digits_val(m) > limit);
                    }
                }
                return None;
            }
            proof {
                assert(mag * 10 + d <= limit) by (nonlinear_arith)
                    requires
                        mag <= (limit - d) / 10,
                        d <= limit,
                        mag >= 0,
                        limit <= u64::MAX,
                ;
            }
            mag * 10 + d
        };
        proof {
            assert(m.take(i - start + 1).drop_last() =~= m.take(i - start));
            assert(m.take(i - start + 1).last() == m[i - start]);
            assert(digits_val(m.take(i - start + 1)) == mag * 10 + d);
            assert(all_digits(m.take(i - start + 1)));
        }
        mag = wide;
        i = i + 1;
    }
    proof {
        assert(m.take(n - start) =~= m);
    }
    if neg {
        if mag == I64_MIN_MAGNITUDE {
            proof {
                assert((-digits_val(m)) as i64 == i64::MIN);
            }
            Some(i64::MIN)
        } else {
            let v: i64 = -(mag as i64);
            proof {
                assert(v as int == -digits_val(m));
            }
            Some(v)
        }
    } else {
        Some(mag as i64)
    }
}

} // verus!
