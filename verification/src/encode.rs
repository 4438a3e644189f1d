//! Packing a parsed replay — username, level, body records — into the
//! single delimited, length-prefixed output string.

use vstd::prelude::*;
use vstd::string::*;
use crate::digits::{is_digit, lemma_spec_dec_wf, spec_dec, to_decimal};

verus! {

/// The field separator of the output payload.
pub const SEP: char = 'Ǉ';

/// The constant added to the payload's character count to form the numeric
/// length prefix.
pub const LENGTH_OFFSET: u64 = 12345678;

/// The output segment of one body record: separator, frame, separator,
/// movement bits, each number in decimal.
pub open spec fn record_seg(r: (u32, u8)) -> Seq<char> {
    seq![SEP] + spec_dec(r.0 as nat) + seq![SEP] + spec_dec(r.1 as nat)
}

/// The output segments of all body records, in order.
pub open spec fn records_seg(recs: Seq<(u32, u8)>) -> Seq<char>
    decreases recs.len(),
{
    if recs.len() == 0 {
        Seq::empty()
    } else {
        record_seg(recs[0]) + records_seg(recs.drop_first())
    }
}

/// The payload: username, doubled separator, level raised by one, separator,
/// a literal `0`, then every record's segment — and no trailing separator.
pub open spec fn spec_payload(username: Seq<char>, level: u8, recs: Seq<(u32, u8)>) -> Seq<char> {
    username + seq![SEP, SEP] + spec_dec(level as nat + 1) + seq![SEP] + seq!['0'] + records_seg(
        recs,
    )
}

/// The full output: the payload's character count plus `LENGTH_OFFSET`,
/// rendered in decimal and prepended directly to the payload.
pub open spec fn spec_output(username: Seq<char>, level: u8, recs: Seq<(u32, u8)>) -> Seq<char> {
    spec_dec(spec_payload(username, level, recs).len() + LENGTH_OFFSET as nat) + spec_payload(
        username,
        level,
        recs,
    )
}

proof fn lemma_records_seg_append(a: Seq<(u32, u8)>, b: Seq<(u32, u8)>)
    ensures
        records_seg(a + b) == records_seg(a) + records_seg(b),
    decreases a.len(),
{
    if a.len() == 0 {
        assert(a + b =~= b);
        assert(records_seg(a) + records_seg(b) =~= records_seg(b));
    } else {
        assert((a + b)[0] == a[0]);
        assert((a + b).drop_first() =~= a.drop_first() + b);
        lemma_records_seg_append(a.drop_first(), b);
        assert(record_seg(a[0]) + (records_seg(a.drop_first()) + records_seg(b)) =~= (record_seg(
            a[0],
        ) + records_seg(a.drop_first())) + records_seg(b));
    }
}

fn sep_str() -> (s: &'static str)
    ensures
        s@ == seq![SEP],
{
    proof {
        reveal_strlit("Ǉ");
        assert("Ǉ"@ =~= seq![SEP]);
    }
    "Ǉ"
}

fn sep2_str() -> (s: &'static str)
    ensures
        s@ == seq![SEP, SEP],
{
    proof {
        reveal_strlit("ǇǇ");
        assert("ǇǇ"@ =~= seq![SEP, SEP]);
    }
    "ǇǇ"
}

fn zero_str() -> (s: &'static str)
    ensures
        s@ == seq!['0'],
{
    proof {
        reveal_strlit("0");
        assert("0"@ =~= seq!['0']);
    }
    "0"
}

/// Builds the output string for a parsed replay, exactly as `spec_output`
/// describes it.
pub fn build_output(username: &String, level: u8, records: &Vec<(u32, u8)>) -> (out: String)
    ensures
        out@ == spec_output(username@, level, records@),
{
    let ghost head = username@ + seq![SEP, SEP] + spec_dec(level as nat + 1) + seq![SEP]
        + seq!['0'];
    let mut payload = String::new();
    payload.append(username.as_str());
    payload.append(sep2_str());
    let lvl = to_decimal(level as u128 + 1);
    payload.append(lvl.as_str());
    payload.append(sep_str());
    payload.append(zero_str());
    proof {
        assert(payload@ =~= head);
        assert(records@.take(0) =~= Seq::<(u32, u8)>::empty());
        assert(head + records_seg(records@.take(0)) =~= head);
    }
    let mut i: usize = 0;
    while i < records.len()
        invariant
            i <= records@.len(),
            head == username@ + seq![SEP, SEP] + spec_dec(level as nat + 1) + seq![SEP]
                + seq!['0'],
            payload@ == head + records_seg(records@.take(i as int)),
        decreases records@.len() - i,
    {
        let (frame, bits) = records[i];
        payload.append(sep_str());
        let f = to_decimal(frame as u128);
        payload.append(f.as_str());
        payload.append(sep_str());
        let b = to_decimal(bits as u128);
        payload.append(b.as_str());
        proof {
            let r = records@[i as int];
            assert(records@.take(i + 1) =~= records@.take(i as int) + seq![r]);
            lemma_records_seg_append(records@.take(i as int), seq![r]);
            assert(seq![r][0] == r);
            assert(seq![r].drop_first() =~= Seq::<(u32, u8)>::empty());
            assert(records_seg(seq![r].drop_first()) == Seq::<char>::empty());
            assert(records_seg(seq![r]) =~= record_seg(r));
            assert(payload@ =~= head + records_seg(records@.take(i + 1)));
        }
        i = i + 1;
    }
    proof {
        assert(records@.take(records@.len() as int) =~= records@);
        assert(payload@ =~= spec_payload(username@, level, records@));
    }
    let len = payload.unicode_len();
    let prefix = to_decimal(len as u128 + LENGTH_OFFSET as u128);
    let out = prefix.concat(payload.as_str());
    proof {
        assert((len as u128 + LENGTH_OFFSET as u128) as nat == spec_payload(
            username@,
            level,
            records@,
        ).len() + LENGTH_OFFSET as nat);
    }
    out
}

/// The output always encodes the level raised by one: directly after the
/// username and the doubled separator, the payload holds the decimal
/// rendering of `level + 1`, never of the raw level.
pub proof fn lemma_level_encoded_plus_one(username: Seq<char>, level: u8, recs: Seq<(u32, u8)>)
    ensures
        ({
            let d = spec_dec(level as nat + 1);
            spec_payload(username, level, recs).subrange(
                username.len() as int + 2,
                username.len() + 2 + d.len() as int,
            ) == d
        }),
{
    let d = spec_dec(level as nat + 1);
    assert(spec_payload(username, level, recs).subrange(
        username.len() as int + 2,
        username.len() + 2 + d.len() as int,
    ) =~= d);
}

/// Length-prefix round trip: stripping the leading digits that render the
/// payload's character count plus `LENGTH_OFFSET` leaves exactly the
/// payload, and re-deriving the prefix from that remainder reproduces the
/// stripped digits.
pub proof fn lemma_length_prefix_round_trip(payload: Seq<char>)
    ensures
        ({
            let prefix = spec_dec(payload.len() + LENGTH_OFFSET as nat);
            let out = prefix + payload;
            &&& out.skip(prefix.len() as int) == payload
            &&& out.take(prefix.len() as int) == prefix
            &&& spec_dec(out.skip(prefix.len() as int).len() + LENGTH_OFFSET as nat) == out.take(
                prefix.len() as int,
            )
        }),
{
    let prefix = spec_dec(payload.len() + LENGTH_OFFSET as nat);
    let out = prefix + payload;
    assert(out.skip(prefix.len() as int) =~= payload);
    assert(out.take(prefix.len() as int) =~= prefix);
}

proof fn lemma_records_seg_last_digit(recs: Seq<(u32, u8)>)
    requires
        recs.len() > 0,
    ensures
        records_seg(recs).len() > 0,
        is_digit(records_seg(recs).last()),
    decreases recs.len(),
{
    lemma_spec_dec_wf(recs[0].1 as nat);
    if recs.len() == 1 {
        assert(recs.drop_first() =~= Seq::<(u32, u8)>::empty());
        assert(records_seg(recs.drop_first()) == Seq::<char>::empty());
        assert(records_seg(recs) =~= record_seg(recs[0]));
        assert(record_seg(recs[0]).last() == spec_dec(recs[0].1 as nat).last());
    } else {
        lemma_records_seg_last_digit(recs.drop_first());
        assert(records_seg(recs).last() == records_seg(recs.drop_first()).last());
    }
}

/// After the numeric prefix the output never ends on the separator: the
/// payload's final character is the literal `0` (no records) or the last
/// digit of the final record's movement bits.
pub proof fn lemma_no_trailing_separator(username: Seq<char>, level: u8, recs: Seq<(u32, u8)>)
    ensures
        spec_payload(username, level, recs).len() > 0,
        spec_payload(username, level, recs).last() != SEP,
{
    let p = spec_payload(username, level, recs);
    assert(SEP as u32 == 455);
    if recs.len() == 0 {
        assert(records_seg(recs) == Seq::<char>::empty());
        assert(p.last() == '0');
    } else {
        lemma_records_seg_last_digit(recs);
        assert(p.last() == records_seg(recs).last());
        assert(!is_digit(SEP));
    }
}

} // verus!
