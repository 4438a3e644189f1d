//! Decimal text: what it means for a token to parse as an unsigned integer,
//! and how an unsigned value renders back into decimal characters.

use vstd::prelude::*;
use vstd::string::*;

verus! {

/// A decimal digit character.
pub open spec fn is_digit(c: char) -> bool {
    48 <= c as u32 && c as u32 <= 57
}

/// Numeric value of a digit character; zero on anything else, so accumulated
/// values stay well defined whatever the sequence holds.
pub open spec fn digit_val(c: char) -> nat {
    if is_digit(c) {
        (c as u32 - 48) as nat
    } else {
        0
    }
}

/// Value of a digit sequence read in base ten, most significant digit first.
pub open spec fn digits_val(s: Seq<char>) -> nat
    decreases s.len(),
{
    if s.len() == 0 {
        0
    } else {
        digits_val(s.drop_last()) * 10 + digit_val(s.last())
    }
}

/// Every character of the sequence is a decimal digit.
pub open spec fn all_digits(s: Seq<char>) -> bool {
    forall|i: int| 0 <= i < s.len() ==> is_digit(s[i])
}

/// The digit part of a numeric token: the token with one leading `+` removed,
/// if it has one.
pub open spec fn plus_stripped(s: Seq<char>) -> Seq<char> {
    if s.len() > 0 && s[0] == '+' {
        s.drop_first()
    } else {
        s
    }
}

/// What parsing a token as an unsigned integer accepts: an optional leading
/// `+`, then one or more digits, with a value no greater than `cap`.
pub open spec fn spec_parse_uint(s: Seq<char>, cap: nat) -> Option<nat> {
    if plus_stripped(s).len() > 0 && all_digits(plus_stripped(s)) && digits_val(plus_stripped(s))
        <= cap {
        Some(digits_val(plus_stripped(s)))
    } else {
        None
    }
}

/// A prefix of a digit sequence never has a larger value than the whole.
proof fn lemma_digits_val_take_le(s: Seq<char>, i: int)
    requires
        0 <= i <= s.len(),
    ensures
        digits_val(s.take(i)) <= digits_val(s),
    decreases s.len() - i,
{
    if i < s.len() {
        assert(s.take(i + 1).drop_last() =~= s.take(i));
        assert(s.take(i + 1).last() == s[i]);
        lemma_digits_val_take_le(s, i + 1);
    } else {
        assert(s.take(i) =~= s);
    }
}

/// Parses `tok` as an unsigned integer no greater than `cap`, exactly as
/// `spec_parse_uint` describes; `None` on an empty token, a non-digit, or a
/// value above `cap`.
pub fn parse_uint_capped(tok: &str, cap: u32) -> (r: Option<u32>)
    ensures
        match r {
            Some(v) => spec_parse_uint(tok@, cap as nat) == Some(v as nat) && v <= cap,
            None => spec_parse_uint(tok@, cap as nat) is None,
        },
{
    let n = tok.unicode_len();
    let start: usize = if n > 0 && tok.get_char(0) == '+' {
        1
    } else {
        0
    };
    let ghost ds = if start == 1 {
        tok@.drop_first()
    } else {
        tok@
    };
    assert(ds == plus_stripped(tok@));
    assert(ds.len() == n - start);
    if n == start {
        return None;
    }
    let mut i = start;
    let mut acc: u32 = 0;
    while i < n
        invariant
            start <= 1,
            start <= i <= n,
            n == tok@.len(),
            start == 1 <==> (tok@.len() > 0 && tok@[0] == '+'),
            ds == (if start == 1 {
                tok@.drop_first()
            } else {
                tok@
            }),
            ds.len() == n - start,
            forall|k: int| 0 <= k < i - start ==> is_digit(ds[k]),
            acc as nat == digits_val(ds.take(i - start)),
            acc <= cap,
        decreases n - i,
    {
        let c = tok.get_char(i);
        assert(ds[i - start] == c);
        let u = c as u32;
        if !(48 <= u && u <= 57) {
            proof {
                assert(ds == plus_stripped(tok@));
                assert(0 <= i - start < ds.len() && !is_digit(ds[i - start]));
                assert(!all_digits(ds));
            }
            return None;
        }
        let d = u - 48;
        proof {
            assert(ds.take(i - start + 1).drop_last() =~= ds.take(i - start));
            assert(ds.take(i - start + 1).last() == ds[i - start]);
            assert(digit_val(ds[i - start]) == d as nat);
        }
        let next: u64 = acc as u64 * 10 + d as u64;
        assert(next as nat == digits_val(ds.take(i - start + 1)));
        if next > cap as u64 {
            proof {
                assert(ds == plus_stripped(tok@));
                lemma_digits_val_take_le(ds, i - start + 1);
                assert(digits_val(ds) > cap as nat);
            }
            return None;
        }
        acc = next as u32;
        i = i + 1;
    }
    proof {
        assert(ds == plus_stripped(tok@));
        assert(ds.take(n - start) =~= ds);
        assert(all_digits(ds));
    }
    Some(acc)
}

/// Decimal digit character for a value; values ten and above share the last
/// arm so the function stays total, and every result is a digit character.
pub open spec fn digit_char(d: nat) -> char {
    if d == 0 {
        '0'
    } else if d == 1 {
        '1'
    } else if d == 2 {
        '2'
    } else if d == 3 {
        '3'
    } else if d == 4 {
        '4'
    } else if d == 5 {
        '5'
    } else if d == 6 {
        '6'
    } else if d == 7 {
        '7'
    } else if d == 8 {
        '8'
    } else {
        '9'
    }
}

pub proof fn lemma_digit_char_is_digit(d: nat)
    ensures
        is_digit(digit_char(d)),
{
}

/// Decimal rendering of `n`, most significant digit first, without a sign and
/// without leading zeros (a single `0` for zero).
pub open spec fn spec_dec(n: nat) -> Seq<char>
    decreases n,
{
    if n < 10 {
        seq![digit_char(n)]
    } else {
        spec_dec(n / 10).push(digit_char(n % 10))
    }
}

/// A decimal rendering is never empty and always ends in a digit character.
pub proof fn lemma_spec_dec_wf(n: nat)
    ensures
        spec_dec(n).len() >= 1,
        is_digit(spec_dec(n).last()),
    decreases n,
{
    if n < 10 {
        lemma_digit_char_is_digit(n);
    } else {
        lemma_spec_dec_wf(n / 10);
        lemma_digit_char_is_digit(n % 10);
    }
}

fn digit_str(d: u32) -> (s: &'static str)
    requires
        d < 10,
    ensures
        s@ == seq![digit_char(d as nat)],
{
    if d == 0 {
        proof {
            reveal_strlit("0");
            assert("0"@ =~= seq![digit_char(0nat)]);
        }
        "0"
    } else if d == 1 {
        proof {
            reveal_strlit("1");
            assert("1"@ =~= seq![digit_char(1nat)]);
        }
        "1"
    } else if d == 2 {
        proof {
            reveal_strlit("2");
            assert("2"@ =~= seq![digit_char(2nat)]);
        }
        "2"
    } else if d == 3 {
        proof {
            reveal_strlit("3");
            assert("3"@ =~= seq![digit_char(3nat)]);
        }
        "3"
    } else if d == 4 {
        proof {
            reveal_strlit("4");
            assert("4"@ =~= seq![digit_char(4nat)]);
        }
        "4"
    } else if d == 5 {
        proof {
            reveal_strlit("5");
            assert("5"@ =~= seq![digit_char(5nat)]);
        }
        "5"
    } else if d == 6 {
        proof {
            reveal_strlit("6");
            assert("6"@ =~= seq![digit_char(6nat)]);
        }
        "6"
    } else if d == 7 {
        proof {
            reveal_strlit("7");
            assert("7"@ =~= seq![digit_char(7nat)]);
        }
        "7"
    } else if d == 8 {
        proof {
            reveal_strlit("8");
            assert("8"@ =~= seq![digit_char(8nat)]);
        }
        "8"
    } else {
        proof {
            reveal_strlit("9");
            assert("9"@ =~= seq![digit_char(9nat)]);
        }
        "9"
    }
}

/// Decimal rendering of an unsigned value as a `String`.
pub fn to_decimal(n: u128) -> (s: String)
    ensures
        s@ == spec_dec(n as nat),
    decreases n,
{
    if n < 10 {
        String::from_str(digit_str(n as u32))
    } else {
        let mut s = to_decimal(n / 10);
        s.append(digit_str((n % 10) as u32));
        proof {
            assert((n / 10) as nat == (n as nat) / 10);
            assert((n % 10) as nat == (n as nat) % 10);
            assert(s@ =~= spec_dec((n as nat) / 10).push(digit_char((n as nat) % 10)));
        }
        s
    }
}

} // verus!
