//! Pipeline driver: split, decode, optionally sort, filter by the pattern
//! set, and render the surviving fields as styled tokens.

use vstd::prelude::*;
use crate::decode::{field_wf, field_view, fields_view, fields_of, spec_fields};
use crate::format::{Token, TokenStyle, tokens_view, pair_tokens, write_pair};
use crate::matching::{Pattern, spec_is_match};
use crate::sort::{sort_by_name, sort_fields};
use vstd::slice::slice_subrange;

verus! {

/// The token stream of a field sequence: one line per field whose name
/// matches, in sequence order.
pub open spec fn spec_lines(fs: Seq<(Seq<u8>, Seq<u8>)>, p: Pattern) -> Seq<(TokenStyle, Seq<u8>)>
    decreases fs.len(),
{
    if fs.len() == 0 {
        Seq::empty()
    } else {
        spec_lines(fs.drop_last(), p) + (if spec_is_match(p, fs.last().0) {
            pair_tokens(fs.last().0, fs.last().1)
        } else {
            Seq::empty()
        })
    }
}

/// The full output of the pipeline on a buffer: its fields, stably sorted by
/// name when `sort` is set, filtered by the pattern set and rendered in
/// order.
pub open spec fn spec_render(buf: Seq<u8>, p: Pattern, sort: bool) -> Seq<(TokenStyle, Seq<u8>)> {
    if sort {
        spec_lines(sort_by_name(spec_fields(buf)), p)
    } else {
        spec_lines(spec_fields(buf), p)
    }
}

/// Run the whole pipeline on `buf` and return the styled output tokens.
pub fn run_pipeline(buf: &[u8], pattern: &Pattern, sort: bool) -> (out: Vec<Token>)
    ensures
        tokens_view(out@) == spec_render(buf@, *pattern, sort),
{
    let mut fields = fields_of(buf);
    if sort {
        fields = sort_fields(buf, fields);
    }
    let ghost fv = fields_view(buf@, fields@);
    let mut out: Vec<Token> = Vec::new();
    let mut i: usize = 0;
    proof {
        assert(fv.take(0) =~= Seq::<(Seq<u8>, Seq<u8>)>::empty());
        assert(tokens_view(out@) =~= spec_lines(fv.take(0), *pattern));
    }
    while i < fields.len()
        invariant
            i <= fields@.len(),
            fv == fields_view(buf@, fields@),
            forall|k: int| 0 <= k < fields@.len() ==> field_wf(
                #[trigger] fields@[k],
                buf@.len() as int,
            ),
            tokens_view(out@) == spec_lines(fv.take(i as int), *pattern),
        decreases fields@.len() - i,
    {
        let f = fields[i];
        let name = slice_subrange(buf, f.name_start, f.name_end);
        let value = slice_subrange(buf, f.value_start, f.value_end);
        proof {
            assert(fv.take(i + 1).drop_last() =~= fv.take(i as int));
            assert(fv.take(i + 1).last() == field_view(buf@, f));
        }
        if pattern.is_match(name) {
            write_pair(&mut out, name, value);
        } else {
            proof {
                assert(tokens_view(out@) =~= tokens_view(out@) + Seq::<(TokenStyle, Seq<u8>)>::empty());
            }
        }
        i = i + 1;
    }
    proof {
        assert(fv.take(fields@.len() as int) =~= fv);
    }
    out
}

} // verus!
