//! Movement keywords and their accumulation into a bitmask.

use vstd::prelude::*;
use vstd::string::*;

verus! {

pub const MOVE_UP: u8 = 1;

pub const MOVE_DOWN: u8 = 2;

pub const MOVE_LEFT: u8 = 4;

pub const MOVE_RIGHT: u8 = 8;

pub const MOVE_NONE: u8 = 0;

/// Flag value of one movement keyword, `None` on anything unrecognized.
pub open spec fn spec_movement_flag(tok: Seq<char>) -> Option<u8> {
    if tok == "up"@ {
        Some(MOVE_UP)
    } else if tok == "down"@ {
        Some(MOVE_DOWN)
    } else if tok == "left"@ {
        Some(MOVE_LEFT)
    } else if tok == "right"@ {
        Some(MOVE_RIGHT)
    } else if tok == "none"@ {
        Some(MOVE_NONE)
    } else {
        None
    }
}

/// Every token of the sequence is a recognized movement keyword.
pub open spec fn all_movement(toks: Seq<Seq<char>>) -> bool {
    forall|i: int| 0 <= i < toks.len() ==> spec_movement_flag(toks[i]) is Some
}

pub open spec fn flag_or_zero(tok: Seq<char>) -> u8 {
    match spec_movement_flag(tok) {
        Some(f) => f,
        None => 0,
    }
}

/// Bitwise OR of the flags of all tokens; an unrecognized token contributes
/// nothing (recognition is judged separately by `all_movement`).
pub open spec fn or_flags(toks: Seq<Seq<char>>) -> u8
    decreases toks.len(),
{
    if toks.len() == 0 {
        0
    } else {
        flag_or_zero(toks[0]) | or_flags(toks.drop_first())
    }
}

/// The accumulated movement bits of a token list: the OR of every keyword's
/// flag, or `None` as soon as any token is unrecognized.
pub open spec fn spec_movement_bits(toks: Seq<Seq<char>>) -> Option<u8> {
    if all_movement(toks) {
        Some(or_flags(toks))
    } else {
        None
    }
}

proof fn lemma_or_zero(x: u8)
    ensures
        (0u8 | x) == x,
        (x | 0u8) == x,
{
    assert((0u8 | x) == x) by (bit_vector);
    assert((x | 0u8) == x) by (bit_vector);
}

proof fn lemma_or_comm(x: u8, y: u8)
    ensures
        (x | y) == (y | x),
{
    assert((x | y) == (y | x)) by (bit_vector);
}

proof fn lemma_or_assoc(x: u8, y: u8, z: u8)
    ensures
        ((x | y) | z) == (x | (y | z)),
{
    assert(((x | y) | z) == (x | (y | z))) by (bit_vector);
}

proof fn lemma_all_movement_append(a: Seq<Seq<char>>, b: Seq<Seq<char>>)
    ensures
        all_movement(a + b) <==> (all_movement(a) && all_movement(b)),
{
    if all_movement(a + b) {
        assert forall|i: int| 0 <= i < a.len() implies spec_movement_flag(a[i]) is Some by {
            assert((a + b)[i] == a[i]);
        }
        assert forall|i: int| 0 <= i < b.len() implies spec_movement_flag(b[i]) is Some by {
            assert((a + b)[a.len() + i] == b[i]);
        }
    }
    if all_movement(a) && all_movement(b) {
        assert forall|i: int| 0 <= i < (a + b).len() implies spec_movement_flag(
            (a + b)[i],
        ) is Some by {
            if i < a.len() {
                assert((a + b)[i] == a[i]);
            } else {
                assert((a + b)[i] == b[i - a.len()]);
            }
        }
    }
}

proof fn lemma_or_flags_append(a: Seq<Seq<char>>, b: Seq<Seq<char>>)
    ensures
        or_flags(a + b) == (or_flags(a) | or_flags(b)),
    decreases a.len(),
{
    if a.len() == 0 {
        assert(a + b =~= b);
        lemma_or_zero(or_flags(b));
    } else {
        assert((a + b)[0] == a[0]);
        assert((a + b).drop_first() =~= a.drop_first() + b);
        lemma_or_flags_append(a.drop_first(), b);
        lemma_or_assoc(flag_or_zero(a[0]), or_flags(a.drop_first()), or_flags(b));
    }
}

/// Accumulation is order-independent: swapping the two halves of a movement
/// token list leaves the accumulated bits (and their acceptance) unchanged,
/// so a line naming `up down` equals one naming `down up`.
pub proof fn lemma_movement_commutes(a: Seq<Seq<char>>, b: Seq<Seq<char>>)
    ensures
        spec_movement_bits(a + b) == spec_movement_bits(b + a),
{
    lemma_all_movement_append(a, b);
    lemma_all_movement_append(b, a);
    lemma_or_flags_append(a, b);
    lemma_or_flags_append(b, a);
    lemma_or_comm(or_flags(a), or_flags(b));
}

/// Appending the keyword `none` never changes the accumulated bits: a line
/// naming `up none` equals one naming `up` alone.
pub proof fn lemma_movement_none_noop(toks: Seq<Seq<char>>)
    ensures
        spec_movement_bits(toks.push("none"@)) == spec_movement_bits(toks),
{
    let n = seq!["none"@];
    reveal_strlit("up");
    reveal_strlit("down");
    reveal_strlit("left");
    reveal_strlit("right");
    reveal_strlit("none");
    assert(toks.push("none"@) =~= toks + n);
    assert("none"@.len() == 4 && "up"@.len() == 2 && "down"@.len() == 4 && "left"@.len() == 4
        && "right"@.len() == 5);
    assert("none"@[0] == 'n' && "down"@[0] == 'd' && "left"@[0] == 'l');
    assert("none"@ != "up"@ && "none"@ != "down"@ && "none"@ != "left"@ && "none"@ != "right"@);
    assert(spec_movement_flag("none"@) == Some(MOVE_NONE));
    lemma_all_movement_append(toks, n);
    lemma_or_flags_append(toks, n);
    assert(n[0] == "none"@);
    assert(n.drop_first() =~= Seq::<Seq<char>>::empty());
    assert(or_flags(n.drop_first()) == 0);
    assert(or_flags(n) == (flag_or_zero("none"@) | 0u8));
    lemma_or_zero(0u8);
    lemma_or_zero(or_flags(toks));
}

/// Flag value of one movement token at runtime.
pub fn movement_flag(tok: &String) -> (r: Option<u8>)
    ensures
        r == spec_movement_flag(tok@),
{
    if *tok == String::from_str("up") {
        Some(MOVE_UP)
    } else if *tok == String::from_str("down") {
        Some(MOVE_DOWN)
    } else if *tok == String::from_str("left") {
        Some(MOVE_LEFT)
    } else if *tok == String::from_str("right") {
        Some(MOVE_RIGHT)
    } else if *tok == String::from_str("none") {
        Some(MOVE_NONE)
    } else {
        None
    }
}

/// Accumulates the movement bits of `tokens[start..]`, exactly as
/// `spec_movement_bits` describes over those tokens.
pub fn accumulate_movement(tokens: &Vec<String>, start: usize) -> (r: Option<u8>)
    requires
        start <= tokens@.len(),
    ensures
        r == spec_movement_bits(tokens@.map_values(|t: String| t@).skip(start as int)),
{
    let ghost toks = tokens@.map_values(|t: String| t@).skip(start as int);
    let mut acc: u8 = 0;
    let mut i = start;
    proof {
        assert(toks.take(0) =~= Seq::<Seq<char>>::empty());
    }
    while i < tokens.len()
        invariant
            start <= i <= tokens@.len(),
            toks == tokens@.map_values(|t: String| t@).skip(start as int),
            toks.len() == tokens@.len() - start,
            forall|k: int| 0 <= k < i - start ==> spec_movement_flag(toks[k]) is Some,
            acc == or_flags(toks.take(i - start)),
        decreases tokens@.len() - i,
    {
        let ghost m = i - start;
        proof {
            assert(toks[m] == tokens@.map_values(|t: String| t@)[i as int]);
            assert(tokens@.map_values(|t: String| t@)[i as int] == tokens@[i as int]@);
        }
        match movement_flag(&tokens[i]) {
            Some(f) => {
                proof {
                    let single = seq![toks[m]];
                    assert(toks.take(m + 1) =~= toks.take(m) + single);
                    lemma_or_flags_append(toks.take(m), single);
                    assert(single.drop_first() =~= Seq::<Seq<char>>::empty());
                    assert(or_flags(single.drop_first()) == 0);
                    assert(single[0] == toks[m]);
                    assert(or_flags(single) == (f | 0u8));
                    lemma_or_zero(f);
                }
                acc = acc | f;
            },
            None => {
                proof {
                    assert(!all_movement(toks));
                }
                return None;
            },
        }
        i = i + 1;
    }
    proof {
        assert(toks.take(toks.len() as int) =~= toks);
        assert(all_movement(toks));
    }
    Some(acc)
}

} // verus!
