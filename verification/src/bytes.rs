//! Byte-level primitives shared by the splitter, the decoder and the sorter:
//! finding the first occurrence of a byte, and byte-lexicographic comparison.

use vstd::prelude::*;

verus! {

/// Index of the first occurrence of `b` in `s`, or `s.len()` if `b` does not
/// occur.
pub open spec fn first_of(s: Seq<u8>, b: u8) -> int
    decreases s.len(),
{
    if s.len() == 0 {
        0
    } else if s[0] == b {
        0
    } else {
        1 + first_of(s.drop_first(), b)
    }
}

/// `first_of` is characterized by its three defining properties.
pub proof fn lemma_first_of_is(s: Seq<u8>, b: u8, i: int)
    requires
        0 <= i <= s.len(),
        forall|j: int| 0 <= j < i ==> s[j] != b,
        i < s.len() ==> s[i] == b,
    ensures
        first_of(s, b) == i,
    decreases s.len(),
{
    if s.len() > 0 && s[0] != b {
        assert forall|j: int| 0 <= j < i - 1 implies s.drop_first()[j] != b by {
            assert(s[j + 1] != b);
        }
        lemma_first_of_is(s.drop_first(), b, i - 1);
    }
}

/// First index `i` in `[from, to)` with `buf[i] == b`, or `to` if none.
pub fn find_from(buf: &[u8], from: usize, to: usize, b: u8) -> (i: usize)
    requires
        from <= to <= buf@.len(),
    ensures
        from <= i <= to,
        forall|j: int| from <= j < i ==> buf@[j] != b,
        i < to ==> buf@[i as int] == b,
{
    let mut i: usize = from;
    while i < to
        invariant
            from <= i <= to <= buf@.len(),
            forall|j: int| from <= j < i ==> buf@[j] != b,
        decreases to - i,
    {
        if buf[i] == b {
            return i;
        }
        i = i + 1;
    }
    i
}

/// Byte-lexicographic `<=` on byte sequences: a proper prefix is smaller, and
/// otherwise the first differing byte decides.
pub open spec fn lex_le(a: Seq<u8>, b: Seq<u8>) -> bool
    decreases a.len(),
{
    if a.len() == 0 {
        true
    } else if b.len() == 0 {
        false
    } else if a[0] < b[0] {
        true
    } else if a[0] > b[0] {
        false
    } else {
        lex_le(a.drop_first(), b.drop_first())
    }
}

/// `lex_le` is total: of any two byte sequences, one is `<=` the other.
pub proof fn lemma_lex_total(a: Seq<u8>, b: Seq<u8>)
    ensures
        lex_le(a, b) || lex_le(b, a),
    decreases a.len(),
{
    if a.len() > 0 && b.len() > 0 && a[0] == b[0] {
        lemma_lex_total(a.drop_first(), b.drop_first());
    }
}

/// `lex_le` is transitive.
pub proof fn lemma_lex_trans(a: Seq<u8>, b: Seq<u8>, c: Seq<u8>)
    requires
        lex_le(a, b),
        lex_le(b, c),
    ensures
        lex_le(a, c),
    decreases a.len(),
{
    if a.len() > 0 && b.len() > 0 && c.len() > 0 && a[0] == b[0] && b[0] == c[0] {
        lemma_lex_trans(a.drop_first(), b.drop_first(), c.drop_first());
    }
}

/// Decides `lex_le(a@, b@)`.
pub fn lex_le_bytes(a: &[u8], b: &[u8]) -> (r: bool)
    ensures
        r == lex_le(a@, b@),
{
    let mut i: usize = 0;
    proof {
        assert(a@.skip(0) =~= a@);
        assert(b@.skip(0) =~= b@);
    }
    loop
        invariant
            i <= a@.len(),
            i <= b@.len(),
            lex_le(a@, b@) == lex_le(a@.skip(i as int), b@.skip(i as int)),
        ensures
            lex_le(a@, b@) == lex_le(a@.skip(i as int), b@.skip(i as int)),
            i <= a@.len() && i <= b@.len(),
            i == a@.len() || i == b@.len() || a@[i as int] != b@[i as int],
        decreases a@.len() - i,
    {
        if i == a.len() || i == b.len() {
            break;
        }
        if a[i] != b[i] {
            break;
        }
        proof {
            assert(a@.skip(i as int).drop_first() =~= a@.skip(i + 1));
            assert(b@.skip(i as int).drop_first() =~= b@.skip(i + 1));
        }
        i = i + 1;
    }
    let ghost sa = a@.skip(i as int);
    let ghost sb = b@.skip(i as int);
    if i == a.len() {
        proof {
            assert(sa.len() == 0);
        }
        true
    } else if i == b.len() {
        proof {
            assert(sb.len() == 0 && sa.len() > 0);
        }
        false
    } else {
        proof {
            assert(sa[0] == a@[i as int] && sb[0] == b@[i as int]);
        }
        a[i] < b[i]
    }
}

} // verus!
