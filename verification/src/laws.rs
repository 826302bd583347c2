//! Round-trip law: a buffer built by concatenating `name = value NUL`
//! blocks, for names free of `=` and NUL and values free of NUL, parses back
//! to exactly those (name, value) pairs, in order.

use vstd::prelude::*;
use crate::bytes::lemma_first_of_is;
use crate::decode::{spec_decode, fields_of_records, spec_fields};
use crate::split::spec_split_all;

verus! {

/// A pair that a well-formed buffer can carry: the name holds neither `=`
/// nor NUL, the value holds no NUL.
pub open spec fn pair_wf(pr: (Seq<u8>, Seq<u8>)) -> bool {
    (forall|i: int| 0 <= i < pr.0.len() ==> pr.0[i] != 61 && pr.0[i] != 0) && (forall|i: int|
        0 <= i < pr.1.len() ==> pr.1[i] != 0)
}

/// The record bytes of one pair: `name = value`.
pub open spec fn pair_record(pr: (Seq<u8>, Seq<u8>)) -> Seq<u8> {
    pr.0 + seq![61u8] + pr.1
}

/// The encoded block of one pair: `name = value NUL`.
pub open spec fn encode_pair(pr: (Seq<u8>, Seq<u8>)) -> Seq<u8> {
    pair_record(pr) + seq![0u8]
}

/// A whole well-formed buffer: the blocks of the pairs, concatenated.
pub open spec fn encode_pairs(pairs: Seq<(Seq<u8>, Seq<u8>)>) -> Seq<u8>
    decreases pairs.len(),
{
    if pairs.len() == 0 {
        Seq::empty()
    } else {
        encode_pair(pairs.first()) + encode_pairs(pairs.drop_first())
    }
}

pub open spec fn pair_records(pairs: Seq<(Seq<u8>, Seq<u8>)>) -> Seq<Seq<u8>> {
    pairs.map_values(|pr: (Seq<u8>, Seq<u8>)| pair_record(pr))
}

proof fn lemma_encode_last(pairs: Seq<(Seq<u8>, Seq<u8>)>)
    requires
        pairs.len() > 0,
    ensures
        encode_pairs(pairs).len() > 0,
        encode_pairs(pairs).last() == 0,
    decreases pairs.len(),
{
    reveal_with_fuel(encode_pairs, 2);
    if pairs.drop_first().len() > 0 {
        lemma_encode_last(pairs.drop_first());
        assert(encode_pairs(pairs).last() == encode_pairs(pairs.drop_first()).last());
    } else {
        assert(encode_pairs(pairs) =~= encode_pair(pairs.first()));
    }
}

proof fn lemma_decode_pair(pr: (Seq<u8>, Seq<u8>))
    requires
        pair_wf(pr),
    ensures
        spec_decode(pair_record(pr)) == pr,
{
    let r = pair_record(pr);
    assert forall|j: int| 0 <= j < pr.0.len() implies r[j] != 61 by {
        assert(r[j] == pr.0[j]);
    }
    assert(r[pr.0.len() as int] == 61);
    lemma_first_of_is(r, 61, pr.0.len() as int);
    assert(r.take(pr.0.len() as int) =~= pr.0);
    assert(r.skip(pr.0.len() as int + 1) =~= pr.1);
    assert(spec_decode(r) =~~= pr);
}

proof fn lemma_split_encoded(pairs: Seq<(Seq<u8>, Seq<u8>)>)
    requires
        pairs.len() > 0,
        forall|k: int| 0 <= k < pairs.len() ==> pair_wf(#[trigger] pairs[k]),
    ensures
        spec_split_all(encode_pairs(pairs).drop_last()) == pair_records(pairs),
    decreases pairs.len(),
{
    reveal_with_fuel(encode_pairs, 2);
    let pr = pairs.first();
    let r = pair_record(pr);
    let rest = pairs.drop_first();
    let s = encode_pairs(pairs).drop_last();
    assert(pair_wf(pr));
    assert forall|j: int| 0 <= j < r.len() implies r[j] != 0 by {
        if j < pr.0.len() {
            assert(r[j] == pr.0[j]);
        } else if j > pr.0.len() {
            assert(r[j] == pr.1[j - pr.0.len() - 1]);
        }
    }
    if rest.len() == 0 {
        assert(s =~= r);
        lemma_first_of_is(s, 0, s.len() as int);
        assert(spec_split_all(s) =~= pair_records(pairs));
    } else {
        lemma_encode_last(rest);
        let tail = encode_pairs(rest).drop_last();
        assert(s =~= r + seq![0u8] + tail);
        assert forall|j: int| 0 <= j < r.len() implies s[j] != 0 by {
            assert(s[j] == r[j]);
        }
        assert(s[r.len() as int] == 0);
        lemma_first_of_is(s, 0, r.len() as int);
        assert(s.take(r.len() as int) =~= r);
        assert(s.skip(r.len() as int + 1) =~= tail);
        lemma_split_encoded(rest);
        assert(spec_split_all(s) == seq![r] + pair_records(rest));
        assert(seq![r] + pair_records(rest) =~= pair_records(pairs));
    }
}

proof fn lemma_fields_of_pair_records(pairs: Seq<(Seq<u8>, Seq<u8>)>)
    requires
        forall|k: int| 0 <= k < pairs.len() ==> pair_wf(#[trigger] pairs[k]),
    ensures
        fields_of_records(pair_records(pairs)) == pairs,
    decreases pairs.len(),
{
    if pairs.len() == 0 {
        assert(pair_records(pairs) =~= Seq::<Seq<u8>>::empty());
        assert(fields_of_records(pair_records(pairs)) =~= pairs);
    } else {
        let recs = pair_records(pairs);
        assert(recs.drop_last() =~= pair_records(pairs.drop_last()));
        assert(recs.last() == pair_record(pairs.last()));
        assert(recs.last().len() > 0);
        lemma_fields_of_pair_records(pairs.drop_last());
        lemma_decode_pair(pairs.last());
        assert(fields_of_records(recs) =~= pairs.drop_last().push(pairs.last()));
        assert(pairs.drop_last().push(pairs.last()) =~= pairs);
    }
}

/// Round trip: parsing a buffer built from well-formed (name, value) pairs
/// yields exactly those pairs, in order.
pub proof fn lemma_round_trip(pairs: Seq<(Seq<u8>, Seq<u8>)>)
    requires
        forall|k: int| 0 <= k < pairs.len() ==> pair_wf(#[trigger] pairs[k]),
    ensures
        spec_fields(encode_pairs(pairs)) == pairs,
{
    if pairs.len() == 0 {
        assert(spec_fields(encode_pairs(pairs)) =~= pairs);
    } else {
        lemma_encode_last(pairs);
        lemma_split_encoded(pairs);
        lemma_fields_of_pair_records(pairs);
    }
}

} // verus!
