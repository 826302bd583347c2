//! Record decoder: split one record at its first `=` into a name and a
//! value, and derive the field sequence of a whole buffer.
//!
//! Decoding never fails: a record without `=` becomes a name with an empty
//! value, and a record whose last byte is `=` gets an empty value too.

use vstd::prelude::*;
use crate::bytes::{first_of, find_from, lemma_first_of_is};
use crate::split::{Record, record_wf, record_bytes, records_bytes, spec_split, split_records};

verus! {

/// A field is a pair of spans of the input buffer: the name bytes
/// `[name_start, name_end)` and the value bytes `[value_start, value_end)`.
#[derive(Clone, Copy, PartialEq, Eq, Structural, Debug)]
pub struct Field {
    pub name_start: usize,
    pub name_end: usize,
    pub value_start: usize,
    pub value_end: usize,
}

pub open spec fn field_wf(f: Field, n: int) -> bool {
    f.name_start <= f.name_end <= n && f.value_start <= f.value_end <= n
}

/// The (name, value) byte pair a field stands for.
pub open spec fn field_view(buf: Seq<u8>, f: Field) -> (Seq<u8>, Seq<u8>) {
    (
        buf.subrange(f.name_start as int, f.name_end as int),
        buf.subrange(f.value_start as int, f.value_end as int),
    )
}

pub open spec fn fields_view(buf: Seq<u8>, fs: Seq<Field>) -> Seq<(Seq<u8>, Seq<u8>)> {
    fs.map_values(|f: Field| field_view(buf, f))
}

/// Decode one record: the name is everything before the first `=`, the value
/// everything after it; without `=` the whole record is the name and the
/// value is empty.
pub open spec fn spec_decode(rec: Seq<u8>) -> (Seq<u8>, Seq<u8>) {
    let i = first_of(rec, 61);
    if 0 <= i < rec.len() {
        (rec.take(i), rec.skip(i + 1))
    } else {
        (rec, Seq::empty())
    }
}

/// The fields of a record sequence: empty records are discarded, the others
/// decoded, in order.
pub open spec fn fields_of_records(recs: Seq<Seq<u8>>) -> Seq<(Seq<u8>, Seq<u8>)>
    decreases recs.len(),
{
    if recs.len() == 0 {
        Seq::empty()
    } else {
        let init = fields_of_records(recs.drop_last());
        if recs.last().len() == 0 {
            init
        } else {
            init.push(spec_decode(recs.last()))
        }
    }
}

/// The fields of a buffer: its non-empty records, decoded, in buffer order.
pub open spec fn spec_fields(buf: Seq<u8>) -> Seq<(Seq<u8>, Seq<u8>)> {
    fields_of_records(spec_split(buf))
}

/// Decode one non-degenerate record span into a field.
pub fn decode_record(buf: &[u8], r: Record) -> (f: Field)
    requires
        record_wf(r, buf@.len() as int),
    ensures
        field_wf(f, buf@.len() as int),
        field_view(buf@, f) == spec_decode(record_bytes(buf@, r)),
{
    let i = find_from(buf, r.start, r.end, 61);
    let ghost rec = record_bytes(buf@, r);
    proof {
        assert forall|j: int| 0 <= j < i - r.start implies rec[j] != 61 by {
            assert(rec[j] == buf@[r.start + j]);
        }
        if i < r.end {
            assert(rec[i - r.start] == buf@[i as int]);
        }
        lemma_first_of_is(rec, 61, i - r.start);
    }
    if i < r.end {
        let f = Field { name_start: r.start, name_end: i, value_start: i + 1, value_end: r.end };
        proof {
            assert(rec.take(i - r.start) =~= buf@.subrange(r.start as int, i as int));
            assert(rec.skip(i - r.start + 1) =~= buf@.subrange(i + 1, r.end as int));
        }
        f
    } else {
        let f = Field {
            name_start: r.start,
            name_end: r.end,
            value_start: r.end,
            value_end: r.end,
        };
        proof {
            assert(buf@.subrange(r.end as int, r.end as int) =~= Seq::<u8>::empty());
        }
        f
    }
}

/// Split `buf` into records, discard the empty ones, and decode the rest.
pub fn fields_of(buf: &[u8]) -> (fs: Vec<Field>)
    ensures
        forall|k: int| 0 <= k < fs@.len() ==> field_wf(#[trigger] fs@[k], buf@.len() as int),
        fields_view(buf@, fs@) == spec_fields(buf@),
{
    let rs = split_records(buf);
    let ghost recs = records_bytes(buf@, rs@);
    let mut fs: Vec<Field> = Vec::new();
    let mut i: usize = 0;
    proof {
        assert(recs.take(0) =~= Seq::<Seq<u8>>::empty());
        assert(fields_view(buf@, fs@) =~= fields_of_records(recs.take(0)));
    }
    while i < rs.len()
        invariant
            i <= rs@.len(),
            recs == records_bytes(buf@, rs@),
            forall|k: int| 0 <= k < rs@.len() ==> record_wf(#[trigger] rs@[k], buf@.len() as int),
            forall|k: int| 0 <= k < fs@.len() ==> field_wf(#[trigger] fs@[k], buf@.len() as int),
            fields_view(buf@, fs@) == fields_of_records(recs.take(i as int)),
        decreases rs@.len() - i,
    {
        let r = rs[i];
        proof {
            assert(recs.take(i + 1).drop_last() =~= recs.take(i as int));
            assert(recs.take(i + 1).last() == record_bytes(buf@, r));
            assert(record_bytes(buf@, r).len() == r.end - r.start);
        }
        if r.end > r.start {
            let f = decode_record(buf, r);
            proof {
                assert(fields_view(buf@, fs@.push(f)) =~= fields_view(buf@, fs@).push(
                    field_view(buf@, f),
                ));
            }
            fs.push(f);
        }
        i = i + 1;
    }
    proof {
        assert(recs.take(rs@.len() as int) =~= recs);
    }
    fs
}

} // verus!
