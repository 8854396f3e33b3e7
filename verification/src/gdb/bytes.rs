//! Byte-string helpers for packet bodies: literals, comparison, prefixes
//! and splitting at the first occurrence of a byte.
use vstd::prelude::*;
use vstd::string::is_ascii;
use crate::gdb::packet::{find_byte, first_index_of};

verus! {

/// The bytes of an ASCII text.
pub open spec fn ascii(s: Seq<char>) -> Seq<u8> {
    s.map_values(|c: char| c as u8)
}

/// The bytes of an ASCII string literal.
pub fn literal(s: &str) -> (b: &[u8])
    requires
        is_ascii(s),
    ensures
        b@ == ascii(s@),
{
    let b = s.as_bytes();
    proof {
        broadcast use vstd::string::group_string_axioms;

        assert(b@ =~= ascii(s@));
    }
    b
}

/// An owned copy of the bytes of an ASCII string literal.
pub fn literal_vec(s: &str) -> (v: Vec<u8>)
    requires
        is_ascii(s),
    ensures
        v@ == ascii(s@),
{
    vstd::slice::slice_to_vec(literal(s))
}

/// `s` begins with `prefix`.
pub open spec fn starts_with(s: Seq<u8>, prefix: Seq<u8>) -> bool {
    prefix.len() <= s.len() && s.subrange(0, prefix.len() as int) == prefix
}

/// The parts of `s` before and after the first `c` (`str::split_once`).
pub open spec fn split_once(s: Seq<u8>, c: u8) -> Option<(Seq<u8>, Seq<u8>)> {
    match first_index_of(s, c) {
        Some(i) => Some((s.subrange(0, i), s.subrange(i + 1, s.len() as int))),
        None => None,
    }
}

/// Whether `a` and `b` hold the same bytes.
pub fn bytes_equal(a: &[u8], b: &[u8]) -> (r: bool)
    ensures
        r == (a@ == b@),
{
    if a.len() != b.len() {
        return false;
    }
    let mut i: usize = 0;
    while i < a.len()
        invariant
            i <= a@.len(),
            a@.len() == b@.len(),
            forall|j: int| 0 <= j < i ==> a@[j] == b@[j],
        decreases a@.len() - i,
    {
        if a[i] != b[i] {
            return false;
        }
        i = i + 1;
    }
    assert(a@ =~= b@);
    true
}

/// Whether `s` begins with `prefix`.
pub fn has_prefix(s: &[u8], prefix: &[u8]) -> (r: bool)
    ensures
        r == starts_with(s@, prefix@),
{
    if prefix.len() > s.len() {
        return false;
    }
    let head = vstd::slice::slice_subrange(s, 0, prefix.len());
    bytes_equal(head, prefix)
}

/// Splits `s` at its first `c`: the bytes before it and the bytes after it.
pub fn split_at_byte(s: &[u8], c: u8) -> (r: Option<(&[u8], &[u8])>)
    ensures
        match split_once(s@, c) {
            Some((a, b)) => r matches Some((x, y)) && x@ == a && y@ == b,
            None => r is None,
        },
{
    let n = s.len();
    match find_byte(s, c) {
        None => None,
        Some(i) => {
            let a = vstd::slice::slice_subrange(s, 0, i);
            let b = vstd::slice::slice_subrange(s, i + 1, n);
            Some((a, b))
        },
    }
}


/// Splitting `a`, `c`, `b` at the first `c` gives `a` and `b` back when `a`
/// holds no `c`.
pub proof fn lemma_split_once_at(a: Seq<u8>, c: u8, b: Seq<u8>)
    requires
        forall|i: int| 0 <= i < a.len() ==> a[i] != c,
    ensures
        split_once(a + seq![c] + b, c) == Some((a, b)),
{
    let s = a + seq![c] + b;
    let k = a.len() as int;
    assert(s[k] == c);
    assert(forall|j: int| 0 <= j < k ==> s[j] == a[j]);
    assert(exists|i: int| 0 <= i < s.len() && s[i] == c);
    let w = choose|i: int| 0 <= i < s.len() && s[i] == c && forall|j: int| 0 <= j < i ==> s[j] != c;
    assert(w == k) by {
        if w > k {
            assert(s[k] != c);
        }
        if w < k {
            assert(s[w] == a[w]);
        }
    }
    assert(s.subrange(0, k) =~= a);
    assert(s.subrange(k + 1, s.len() as int) =~= b);
}

} // verus!
