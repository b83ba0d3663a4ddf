//! Byte-sequence scanning primitives: locating separator bytes and splitting
//! on them, together with their specification-level counterparts.

use vstd::prelude::*;
use vstd::slice::{slice_subrange, slice_to_vec};

verus! {

pub const CR: u8 = 13;

pub const LF: u8 = 10;

pub const SPACE: u8 = 32;

pub const AMP: u8 = 38;

pub const SLASH: u8 = 47;

pub const EQUALS: u8 = 61;

pub const QMARK: u8 = 63;

/// The bytes of an ASCII string, at the specification level: each character
/// narrowed to one byte.
pub open spec fn ascii(s: Seq<char>) -> Seq<u8> {
    Seq::new(s.len(), |i: int| s[i] as u8)
}

/// The views of a sequence of byte vectors.
pub open spec fn rows(v: Seq<Vec<u8>>) -> Seq<Seq<u8>> {
    Seq::new(v.len(), |i: int| v[i]@)
}

/// Index of the first occurrence of `sep` in `s`; `s.len()` when absent.
pub open spec fn first_sep(s: Seq<u8>, sep: u8) -> int
    decreases s.len(),
{
    if s.len() == 0 {
        0
    } else if s[0] == sep {
        0
    } else {
        1 + first_sep(s.skip(1), sep)
    }
}

/// What `first_sep` finds: an in-range position holding `sep`, with no
/// occurrence of `sep` before it.
pub proof fn lemma_first_sep(s: Seq<u8>, sep: u8)
    ensures
        0 <= first_sep(s, sep) <= s.len(),
        first_sep(s, sep) < s.len() ==> s[first_sep(s, sep)] == sep,
        forall|j: int| 0 <= j < first_sep(s, sep) ==> s[j] != sep,
    decreases s.len(),
{
    if s.len() == 0 {
    } else if s[0] == sep {
    } else {
        lemma_first_sep(s.skip(1), sep);
        assert forall|j: int| 0 <= j < first_sep(s, sep) implies s[j] != sep by {
            if j > 0 {
                assert(s.skip(1)[j - 1] == s[j]);
            }
        }
    }
}

/// `first_sep` is pinned down by the properties of the position it finds.
pub proof fn lemma_first_sep_is(s: Seq<u8>, sep: u8, k: int)
    requires
        0 <= k <= s.len(),
        forall|j: int| 0 <= j < k ==> s[j] != sep,
        k < s.len() ==> s[k] == sep,
    ensures
        first_sep(s, sep) == k,
{
    lemma_first_sep(s, sep);
}

/// First index of `sep` in `s`, or `s.len()` when `sep` does not occur.
pub fn find_byte(s: &[u8], sep: u8) -> (i: usize)
    ensures
        i as int == first_sep(s@, sep),
{
    let mut i: usize = 0;
    while i < s.len()
        invariant
            0 <= i <= s@.len(),
            forall|j: int| 0 <= j < i ==> s@[j] != sep,
        decreases s@.len() - i,
    {
        if s[i] == sep {
            proof {
                lemma_first_sep_is(s@, sep, i as int);
            }
            return i;
        }
        i += 1;
    }
    proof {
        lemma_first_sep_is(s@, sep, s@.len() as int);
    }
    i
}

/// `s` split at every occurrence of `sep`, empty pieces kept, as Rust's
/// `split` does.
pub open spec fn split_on(s: Seq<u8>, sep: u8) -> Seq<Seq<u8>>
    decreases s.len(),
{
    let i = first_sep(s, sep);
    if 0 <= i < s.len() {
        seq![s.take(i)] + split_on(s.skip(i + 1), sep)
    } else {
        seq![s]
    }
}

/// Unfolding `split_on` at a separator position `i`, scanning from `start`.
pub proof fn lemma_split_on_step(s: Seq<u8>, sep: u8, start: int, i: int)
    requires
        0 <= start <= i < s.len(),
        s[i] == sep,
        forall|j: int| start <= j < i ==> s[j] != sep,
    ensures
        split_on(s.skip(start), sep) == seq![s.subrange(start, i)] + split_on(
            s.skip(i + 1),
            sep,
        ),
{
    let t = s.skip(start);
    assert forall|j: int| 0 <= j < i - start implies t[j] != sep by {
        assert(t[j] == s[start + j]);
    }
    assert(t[i - start] == sep);
    lemma_first_sep_is(t, sep, i - start);
    assert(t.take(i - start) =~= s.subrange(start, i));
    assert(t.skip(i - start + 1) =~= s.skip(i + 1));
}

/// `split_on` of a suffix that holds no separator is that suffix alone.
pub proof fn lemma_split_on_rest(s: Seq<u8>, sep: u8, start: int)
    requires
        0 <= start <= s.len(),
        forall|j: int| start <= j < s.len() ==> s[j] != sep,
    ensures
        split_on(s.skip(start), sep) == seq![s.skip(start)],
{
    let t = s.skip(start);
    assert forall|j: int| 0 <= j < t.len() implies t[j] != sep by {
        assert(t[j] == s[start + j]);
    }
    lemma_first_sep_is(t, sep, t.len() as int);
}

/// Split `s` at every occurrence of `sep`, keeping empty pieces.
pub fn split_bytes(s: &[u8], sep: u8) -> (parts: Vec<Vec<u8>>)
    ensures
        rows(parts@) == split_on(s@, sep),
        parts@.len() == split_on(s@, sep).len(),
{
    let mut parts: Vec<Vec<u8>> = Vec::new();
    let mut start: usize = 0;
    let mut i: usize = 0;
    proof {
        assert(s@.skip(0) =~= s@);
        assert(rows(parts@) =~= Seq::<Seq<u8>>::empty());
        assert(rows(parts@) + split_on(s@.skip(0), sep) =~= split_on(s@, sep));
    }
    while i < s.len()
        invariant
            0 <= start <= i <= s@.len(),
            forall|j: int| start <= j < i ==> s@[j] != sep,
            split_on(s@, sep) == rows(parts@) + split_on(s@.skip(start as int), sep),
        decreases s@.len() - i,
    {
        if s[i] == sep {
            let tok = slice_to_vec(slice_subrange(s, start, i));
            proof {
                lemma_split_on_step(s@, sep, start as int, i as int);
                assert(rows(parts@.push(tok)) =~= rows(parts@) + seq![tok@]);
                assert(rows(parts@) + (seq![s@.subrange(start as int, i as int)] + split_on(
                    s@.skip(i + 1),
                    sep,
                )) =~= (rows(parts@) + seq![tok@]) + split_on(s@.skip(i + 1), sep));
            }
            parts.push(tok);
            start = i + 1;
        }
        i += 1;
    }
    let tok = slice_to_vec(slice_subrange(s, start, s.len()));
    proof {
        lemma_split_on_rest(s@, sep, start as int);
        assert(rows(parts@.push(tok)) =~= rows(parts@) + seq![tok@]);
        assert(rows(parts@) + seq![s@.skip(start as int)] =~= rows(parts@.push(tok)));
    }
    parts.push(tok);
    parts
}

/// Filtering a sequence extended by one element: the element stays exactly
/// when it satisfies the predicate.
pub proof fn lemma_filter_push(a: Seq<Seq<u8>>, x: Seq<u8>, pred: spec_fn(Seq<u8>) -> bool)
    ensures
        (a + seq![x]).filter(pred) == a.filter(pred) + if pred(x) {
            seq![x]
        } else {
            Seq::<Seq<u8>>::empty()
        },
{
    Seq::filter_distributes_over_add(a, seq![x], pred);
    reveal_with_fuel(Seq::filter, 2);
    assert(seq![x].drop_last() =~= Seq::<Seq<u8>>::empty());
    assert(seq![x].filter(pred) == (if pred(x) {
        seq![x]
    } else {
        Seq::<Seq<u8>>::empty()
    }));
}

/// Whether two byte slices hold the same bytes.
pub fn bytes_eq(a: &[u8], b: &[u8]) -> (r: bool)
    ensures
        r == (a@ == b@),
{
    if a.len() != b.len() {
        return false;
    }
    let mut i: usize = 0;
    while i < a.len()
        invariant
            a@.len() == b@.len(),
            0 <= i <= a@.len(),
            forall|j: int| 0 <= j < i ==> a@[j] == b@[j],
        decreases a@.len() - i,
    {
        if a[i] != b[i] {
            return false;
        }
        i += 1;
    }
    proof {
        assert(a@ =~= b@);
    }
    true
}

/// The bytes of an ASCII string slice, as a vector.
pub fn ascii_bytes(s: &str) -> (r: Vec<u8>)
    requires
        vstd::string::is_ascii(s),
    ensures
        r@ == ascii(s@),
{
    let b = s.as_bytes();
    proof {
        broadcast use vstd::string::is_ascii_spec_bytes;

        assert(b@ =~= ascii(s@));
    }
    slice_to_vec(b)
}

} // verus!
