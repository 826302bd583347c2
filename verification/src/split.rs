//! Record splitter: cut the input buffer into NUL-delimited records.
//!
//! A leading or internal NUL yields an empty record, while a single trailing
//! NUL is treated as a terminator and yields no phantom empty record after
//! it. An empty buffer yields no records at all, and a buffer without any
//! NUL yields exactly one record: the whole buffer.

use vstd::prelude::*;
use crate::bytes::{first_of, find_from, lemma_first_of_is};

verus! {

/// A record is a span of the input buffer: the bytes `[start, end)`.
#[derive(Clone, Copy, PartialEq, Eq, Structural, Debug)]
pub struct Record {
    pub start: usize,
    pub end: usize,
}

pub open spec fn record_wf(r: Record, n: int) -> bool {
    r.start <= r.end <= n
}

pub open spec fn record_bytes(buf: Seq<u8>, r: Record) -> Seq<u8> {
    buf.subrange(r.start as int, r.end as int)
}

pub open spec fn records_bytes(buf: Seq<u8>, rs: Seq<Record>) -> Seq<Seq<u8>> {
    rs.map_values(|r: Record| record_bytes(buf, r))
}

/// Split `s` at every NUL byte: `n` NULs yield `n + 1` chunks, with no
/// special treatment of a trailing NUL.
pub open spec fn spec_split_all(s: Seq<u8>) -> Seq<Seq<u8>>
    decreases s.len(),
{
    let i = first_of(s, 0);
    if 0 <= i < s.len() {
        seq![s.take(i)] + spec_split_all(s.skip(i + 1))
    } else {
        seq![s]
    }
}

/// The record sequence of a buffer: as `spec_split_all`, except that an empty
/// buffer has no records and a single trailing NUL terminates the last record
/// instead of opening an empty one.
pub open spec fn spec_split(buf: Seq<u8>) -> Seq<Seq<u8>> {
    if buf.len() == 0 {
        Seq::empty()
    } else if buf.last() == 0 {
        spec_split_all(buf.drop_last())
    } else {
        spec_split_all(buf)
    }
}

/// Splitting a non-empty buffer that contains no NUL byte yields exactly one
/// record: the whole buffer.
pub proof fn lemma_split_no_nul(buf: Seq<u8>)
    requires
        buf.len() > 0,
        forall|i: int| 0 <= i < buf.len() ==> buf[i] != 0,
    ensures
        spec_split(buf) == seq![buf],
{
    lemma_first_of_is(buf, 0, buf.len() as int);
}

/// Cut `buf` into its records, as spans into `buf`.
pub fn split_records(buf: &[u8]) -> (rs: Vec<Record>)
    ensures
        forall|k: int| 0 <= k < rs@.len() ==> record_wf(#[trigger] rs@[k], buf@.len() as int),
        records_bytes(buf@, rs@) == spec_split(buf@),
{
    let len = buf.len();
    if len == 0 {
        let rs: Vec<Record> = Vec::new();
        proof {
            assert(records_bytes(buf@, rs@) =~= spec_split(buf@));
        }
        return rs;
    }
    let n: usize = if buf[len - 1] == 0 {
        len - 1
    } else {
        len
    };
    let ghost s0 = buf@.take(n as int);
    proof {
        if buf@.last() == 0 {
            assert(s0 =~= buf@.drop_last());
        } else {
            assert(s0 =~= buf@);
        }
        assert(spec_split(buf@) == spec_split_all(s0));
    }
    let mut rs: Vec<Record> = Vec::new();
    let mut pos: usize = 0;
    proof {
        assert(s0.skip(0) =~= s0);
        assert(records_bytes(buf@, rs@) + spec_split_all(s0) =~= spec_split_all(s0));
    }
    let mut i: usize = find_from(buf, 0, n, 0);
    while i < n
        invariant
            pos <= i <= n <= buf@.len(),
            s0 == buf@.take(n as int),
            forall|j: int| pos <= j < i ==> buf@[j] != 0,
            i < n ==> buf@[i as int] == 0,
            forall|k: int| 0 <= k < rs@.len() ==> record_wf(#[trigger] rs@[k], buf@.len() as int),
            spec_split_all(s0) == records_bytes(buf@, rs@) + spec_split_all(s0.skip(pos as int)),
        decreases n - i,
    {
        proof {
            let tail = s0.skip(pos as int);
            assert forall|j: int| 0 <= j < i - pos implies tail[j] != 0 by {
                assert(tail[j] == buf@[pos + j]);
            }
            assert(tail[i - pos] == buf@[i as int]);
            lemma_first_of_is(tail, 0, i - pos);
            assert(tail.take(i - pos) =~= record_bytes(buf@, Record { start: pos, end: i }));
            assert(tail.skip(i - pos + 1) =~= s0.skip(i + 1));
            assert(spec_split_all(tail) == seq![tail.take(i - pos)] + spec_split_all(s0.skip(i + 1)));
            assert(records_bytes(buf@, rs@.push(Record { start: pos, end: i })) =~= records_bytes(
                buf@,
                rs@,
            ).push(record_bytes(buf@, Record { start: pos, end: i })));
            assert((records_bytes(buf@, rs@) + seq![tail.take(i - pos)] + spec_split_all(
                s0.skip(i + 1),
            )) =~= records_bytes(buf@, rs@.push(Record { start: pos, end: i })) + spec_split_all(
                s0.skip(i + 1),
            ));
        }
        rs.push(Record { start: pos, end: i });
        pos = i + 1;
        i = find_from(buf, pos, n, 0);
    }
    proof {
        let tail = s0.skip(pos as int);
        assert forall|j: int| 0 <= j < tail.len() implies tail[j] != 0 by {
            assert(tail[j] == buf@[pos + j]);
        }
        lemma_first_of_is(tail, 0, tail.len() as int);
        assert(tail =~= record_bytes(buf@, Record { start: pos, end: n }));
        assert(records_bytes(buf@, rs@.push(Record { start: pos, end: n })) =~= records_bytes(
            buf@,
            rs@,
        ) + seq![tail]);
    }
    rs.push(Record { start: pos, end: n });
    rs
}

} // verus!
