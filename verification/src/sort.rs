//! Stable sort of fields by byte-lexicographic name order.
//!
//! The executable insertion sort mirrors the specification exactly: each
//! field is inserted after every already-placed field whose name is `<=` its
//! own, so fields with equal names keep their original relative order.

use vstd::prelude::*;
use crate::bytes::{lex_le, lex_le_bytes, lemma_lex_total, lemma_lex_trans};
use crate::decode::{Field, field_wf, field_view, fields_view};
use vstd::slice::slice_subrange;

verus! {

/// Insert `x` into `s` after every pair whose name is `lex_le` its name.
pub open spec fn insert_by_name(
    s: Seq<(Seq<u8>, Seq<u8>)>,
    x: (Seq<u8>, Seq<u8>),
) -> Seq<(Seq<u8>, Seq<u8>)>
    decreases s.len(),
{
    if s.len() == 0 {
        seq![x]
    } else if lex_le(s.last().0, x.0) {
        s.push(x)
    } else {
        insert_by_name(s.drop_last(), x).push(s.last())
    }
}

/// Stable sort by name: insert the pairs one after another, each behind the
/// pairs with a name `lex_le` its own, so that equal names keep their order.
pub open spec fn sort_by_name(s: Seq<(Seq<u8>, Seq<u8>)>) -> Seq<(Seq<u8>, Seq<u8>)>
    decreases s.len(),
{
    if s.len() == 0 {
        Seq::empty()
    } else {
        insert_by_name(sort_by_name(s.drop_last()), s.last())
    }
}

/// The pairs stand in ascending byte-lexicographic name order.
pub open spec fn sorted_by_name(s: Seq<(Seq<u8>, Seq<u8>)>) -> bool {
    forall|i: int, j: int| 0 <= i < j < s.len() ==> lex_le(#[trigger] s[i].0, #[trigger] s[j].0)
}

proof fn lemma_insert_by_name_elems(s: Seq<(Seq<u8>, Seq<u8>)>, x: (Seq<u8>, Seq<u8>))
    ensures
        insert_by_name(s, x).len() == s.len() + 1,
        forall|i: int| 0 <= i < insert_by_name(s, x).len() ==> (#[trigger] insert_by_name(s, x)[i]
            == x || s.contains(insert_by_name(s, x)[i])),
    decreases s.len(),
{
    let t = insert_by_name(s, x);
    if s.len() == 0 {
    } else if lex_le(s.last().0, x.0) {
        assert forall|i: int| 0 <= i < t.len() implies (#[trigger] t[i] == x || s.contains(t[i])) by {
            if i < s.len() {
                assert(s[i] == t[i]);
            }
        }
    } else {
        lemma_insert_by_name_elems(s.drop_last(), x);
        let inner = insert_by_name(s.drop_last(), x);
        assert forall|i: int| 0 <= i < t.len() implies (#[trigger] t[i] == x || s.contains(t[i])) by {
            if i < inner.len() {
                assert(t[i] == inner[i]);
                if inner[i] != x {
                    let k = choose|k: int| 0 <= k < s.drop_last().len() && s.drop_last()[k]
                        == inner[i];
                    assert(s[k] == inner[i]);
                }
            } else {
                assert(t[i] == s.last());
                assert(s[s.len() - 1] == s.last());
            }
        }
    }
}

proof fn lemma_insert_by_name_sorted(s: Seq<(Seq<u8>, Seq<u8>)>, x: (Seq<u8>, Seq<u8>))
    requires
        sorted_by_name(s),
    ensures
        sorted_by_name(insert_by_name(s, x)),
    decreases s.len(),
{
    let t = insert_by_name(s, x);
    if s.len() == 0 {
    } else if lex_le(s.last().0, x.0) {
        assert forall|i: int, j: int| 0 <= i < j < t.len() implies lex_le(
            #[trigger] t[i].0,
            #[trigger] t[j].0,
        ) by {
            if j < s.len() {
            } else if i < s.len() - 1 {
                lemma_lex_trans(s[i].0, s.last().0, x.0);
            }
        }
    } else {
        assert(sorted_by_name(s.drop_last())) by {
            assert forall|i: int, j: int| 0 <= i < j < s.drop_last().len() implies lex_le(
                #[trigger] s.drop_last()[i].0,
                #[trigger] s.drop_last()[j].0,
            ) by {
                assert(s[i] == s.drop_last()[i] && s[j] == s.drop_last()[j]);
            }
        }
        lemma_insert_by_name_sorted(s.drop_last(), x);
        lemma_insert_by_name_elems(s.drop_last(), x);
        let inner = insert_by_name(s.drop_last(), x);
        lemma_lex_total(s.last().0, x.0);
        assert forall|i: int, j: int| 0 <= i < j < t.len() implies lex_le(
            #[trigger] t[i].0,
            #[trigger] t[j].0,
        ) by {
            if j < inner.len() {
                assert(t[i] == inner[i] && t[j] == inner[j]);
            } else {
                assert(t[j] == s.last());
                assert(t[i] == inner[i]);
                if inner[i] == x {
                    assert(lex_le(x.0, s.last().0));
                } else {
                    let k = choose|k: int| 0 <= k < s.drop_last().len() && s.drop_last()[k]
                        == inner[i];
                    assert(s[k] == inner[i]);
                    if k < s.len() - 1 {
                        assert(lex_le(s[k].0, s[s.len() - 1].0));
                    }
                }
            }
        }
    }
}

proof fn lemma_insert_by_name_multiset(s: Seq<(Seq<u8>, Seq<u8>)>, x: (Seq<u8>, Seq<u8>))
    ensures
        insert_by_name(s, x).to_multiset() == s.to_multiset().insert(x),
    decreases s.len(),
{
    broadcast use vstd::seq_lib::group_to_multiset_ensures;

    if s.len() == 0 {
        assert(seq![x] =~= Seq::<(Seq<u8>, Seq<u8>)>::empty().push(x));
        assert(insert_by_name(s, x).to_multiset() =~= s.to_multiset().insert(x));
    } else if lex_le(s.last().0, x.0) {
        assert(insert_by_name(s, x).to_multiset() =~= s.to_multiset().insert(x));
    } else {
        lemma_insert_by_name_multiset(s.drop_last(), x);
        assert(s.drop_last().push(s.last()) =~= s);
        assert(insert_by_name(s, x).to_multiset() =~= insert_by_name(s.drop_last(), x).to_multiset()
            .insert(s.last()));
        assert(s.drop_last().to_multiset().insert(x).insert(s.last()) =~= s.drop_last().to_multiset()
            .insert(s.last()).insert(x));
        assert(s.drop_last().to_multiset().insert(s.last()) =~= s.to_multiset());
    }
}

/// The stable sort permutes its input: the result holds exactly the same
/// (name, value) pairs, with their multiplicities.
pub proof fn lemma_sort_by_name_permutes(s: Seq<(Seq<u8>, Seq<u8>)>)
    ensures
        sort_by_name(s).to_multiset() == s.to_multiset(),
    decreases s.len(),
{
    broadcast use vstd::seq_lib::group_to_multiset_ensures;

    if s.len() > 0 {
        lemma_sort_by_name_permutes(s.drop_last());
        lemma_insert_by_name_multiset(sort_by_name(s.drop_last()), s.last());
        assert(s.drop_last().push(s.last()) =~= s);
        assert(sort_by_name(s).to_multiset() =~= s.to_multiset());
    }
}

/// The stable sort really sorts: its result is in ascending
/// byte-lexicographic name order, and it has the same length as its input.
pub proof fn lemma_sort_by_name_sorted(s: Seq<(Seq<u8>, Seq<u8>)>)
    ensures
        sorted_by_name(sort_by_name(s)),
        sort_by_name(s).len() == s.len(),
    decreases s.len(),
{
    if s.len() > 0 {
        lemma_sort_by_name_sorted(s.drop_last());
        lemma_insert_by_name_sorted(sort_by_name(s.drop_last()), s.last());
        lemma_insert_by_name_elems(sort_by_name(s.drop_last()), s.last());
    }
}

fn insert_field(buf: &[u8], fs: Vec<Field>, x: Field) -> (r: Vec<Field>)
    requires
        forall|k: int| 0 <= k < fs@.len() ==> field_wf(#[trigger] fs@[k], buf@.len() as int),
        field_wf(x, buf@.len() as int),
    ensures
        forall|k: int| 0 <= k < r@.len() ==> field_wf(#[trigger] r@[k], buf@.len() as int),
        fields_view(buf@, r@) == insert_by_name(fields_view(buf@, fs@), field_view(buf@, x)),
    decreases fs@.len(),
{
    let ghost sv = fields_view(buf@, fs@);
    let mut fs = fs;
    if fs.len() == 0 {
        fs.push(x);
        proof {
            assert(fields_view(buf@, fs@) =~= seq![field_view(buf@, x)]);
        }
        fs
    } else {
        let last = fs[fs.len() - 1];
        let last_name = slice_subrange(buf, last.name_start, last.name_end);
        let x_name = slice_subrange(buf, x.name_start, x.name_end);
        proof {
            assert(sv.last() == field_view(buf@, last));
        }
        if lex_le_bytes(last_name, x_name) {
            fs.push(x);
            proof {
                assert(fields_view(buf@, fs@) =~= sv.push(field_view(buf@, x)));
            }
            fs
        } else {
            fs.pop();
            proof {
                assert(fields_view(buf@, fs@) =~= sv.drop_last());
            }
            let mut r = insert_field(buf, fs, x);
            r.push(last);
            proof {
                assert(fields_view(buf@, r@) =~= insert_by_name(sv.drop_last(), field_view(buf@, x)).push(
                    sv.last(),
                ));
            }
            r
        }
    }
}

/// Sort the fields of `buf` stably by name.
pub fn sort_fields(buf: &[u8], fs: Vec<Field>) -> (r: Vec<Field>)
    requires
        forall|k: int| 0 <= k < fs@.len() ==> field_wf(#[trigger] fs@[k], buf@.len() as int),
    ensures
        forall|k: int| 0 <= k < r@.len() ==> field_wf(#[trigger] r@[k], buf@.len() as int),
        fields_view(buf@, r@) == sort_by_name(fields_view(buf@, fs@)),
{
    let ghost sv = fields_view(buf@, fs@);
    let mut r: Vec<Field> = Vec::new();
    let mut i: usize = 0;
    proof {
        assert(sv.take(0) =~= Seq::<(Seq<u8>, Seq<u8>)>::empty());
        assert(fields_view(buf@, r@) =~= sort_by_name(sv.take(0)));
    }
    while i < fs.len()
        invariant
            i <= fs@.len(),
            sv == fields_view(buf@, fs@),
            forall|k: int| 0 <= k < fs@.len() ==> field_wf(#[trigger] fs@[k], buf@.len() as int),
            forall|k: int| 0 <= k < r@.len() ==> field_wf(#[trigger] r@[k], buf@.len() as int),
            fields_view(buf@, r@) == sort_by_name(sv.take(i as int)),
        decreases fs@.len() - i,
    {
        let x = fs[i];
        proof {
            assert(sv.take(i + 1).drop_last() =~= sv.take(i as int));
            assert(sv.take(i + 1).last() == field_view(buf@, x));
        }
        r = insert_field(buf, r, x);
        i = i + 1;
    }
    proof {
        assert(sv.take(fs@.len() as int) =~= sv);
    }
    r
}

} // verus!
