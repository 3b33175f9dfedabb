//! Byte-sequence helpers shared by the codec and the header mapper:
//! prefix tests, first-occurrence search, concatenation, and the ASCII
//! constants of the wire format.

use vstd::prelude::*;

verus! {

/// `p` is an initial run of `s`.
pub open spec fn is_prefix_of(p: Seq<u8>, s: Seq<u8>) -> bool {
    p.len() <= s.len() && s.subrange(0, p.len() as int) == p
}

/// Index of the first occurrence of `c` in `s`, if any.
pub open spec fn spec_find(s: Seq<u8>, c: u8) -> Option<int>
    decreases s.len(),
{
    if s.len() == 0 {
        None
    } else if s[0] == c {
        Some(0int)
    } else {
        match spec_find(s.drop_first(), c) {
            None => None,
            Some(i) => Some(i + 1),
        }
    }
}

/// What `spec_find` returns: the least index holding `c`, or a promise
/// that `c` does not occur.
pub proof fn lemma_find(s: Seq<u8>, c: u8)
    ensures
        match spec_find(s, c) {
            Some(i) => 0 <= i < s.len() && s[i] == c && (forall|j: int| 0 <= j < i ==> s[j] != c),
            None => forall|j: int| 0 <= j < s.len() ==> s[j] != c,
        },
    decreases s.len(),
{
    if s.len() > 0 && s[0] != c {
        let t = s.drop_first();
        lemma_find(t, c);
        match spec_find(t, c) {
            None => {
                assert forall|j: int| 0 <= j < s.len() implies s[j] != c by {
                    if j > 0 {
                        assert(t[j - 1] == s[j]);
                        assert(t[j - 1] != c);
                    }
                }
            },
            Some(i) => {
                assert(t[i] == s[i + 1]);
                assert forall|j: int| 0 <= j < i + 1 implies s[j] != c by {
                    if j > 0 {
                        assert(t[j - 1] == s[j]);
                        assert(t[j - 1] != c);
                    }
                }
            },
        }
    }
}

/// Any index with the "first occurrence" property is what `spec_find`
/// returns.
pub proof fn lemma_find_unique(s: Seq<u8>, c: u8, i: int)
    requires
        0 <= i < s.len(),
        s[i] == c,
        forall|j: int| 0 <= j < i ==> s[j] != c,
    ensures
        spec_find(s, c) == Some(i),
{
    lemma_find(s, c);
    match spec_find(s, c) {
        None => {
            assert(s[i] != c);
        },
        Some(k) => {
            if k < i {
                assert(s[k] != c);
            } else if i < k {
                assert(s[i] != c);
            }
        },
    }
}

/// The byte sequences behind a list of byte vectors.
pub open spec fn views_of(l: Seq<Vec<u8>>) -> Seq<Seq<u8>> {
    l.map_values(|x: Vec<u8>| x@)
}

/// Searching a prefix of `s` finds exactly the occurrences that fall
/// before the cut.
pub proof fn lemma_find_take(s: Seq<u8>, c: u8, n: int)
    requires
        0 <= n <= s.len(),
    ensures
        spec_find(s.take(n), c) == (match spec_find(s, c) {
            Some(d) => if d < n {
                Some(d)
            } else {
                None::<int>
            },
            None => None::<int>,
        }),
{
    lemma_find(s, c);
    let t = s.take(n);
    match spec_find(s, c) {
        Some(d) => {
            if d < n {
                assert(t[d] == s[d]);
                assert forall|j: int| 0 <= j < d implies t[j] != c by {
                    assert(t[j] == s[j]);
                }
                lemma_find_unique(t, c, d);
            } else {
                lemma_find(t, c);
                match spec_find(t, c) {
                    Some(e) => {
                        assert(t[e] == s[e]);
                        assert(s[e] != c);
                    },
                    None => {},
                }
            }
        },
        None => {
            lemma_find(t, c);
            match spec_find(t, c) {
                Some(e) => {
                    assert(t[e] == s[e]);
                    assert(s[e] != c);
                },
                None => {},
            }
        },
    }
}

/// Whether `s` begins with `p`.
pub fn starts_with(s: &Vec<u8>, p: &Vec<u8>) -> (r: bool)
    ensures
        r == is_prefix_of(p@, s@),
{
    if p.len() > s.len() {
        return false;
    }
    let mut i: usize = 0;
    while i < p.len()
        invariant
            i <= p.len(),
            p.len() <= s.len(),
            p@.len() == p.len(),
            s@.len() == s.len(),
            forall|j: int| 0 <= j < i ==> s@[j] == p@[j],
        decreases p.len() - i,
    {
        if s[i] != p[i] {
            proof {
                if is_prefix_of(p@, s@) {
                    assert(s@.subrange(0, p@.len() as int)[i as int] == s@[i as int]);
                }
            }
            return false;
        }
        i += 1;
    }
    proof {
        assert(s@.subrange(0, p@.len() as int) =~= p@);
    }
    true
}

/// Exec equality on byte vectors, tied to sequence equality.
pub fn bytes_eq(a: &Vec<u8>, b: &Vec<u8>) -> (r: bool)
    ensures
        r == (a@ == b@),
{
    if a.len() != b.len() {
        return false;
    }
    let r = starts_with(a, b);
    proof {
        if r {
            assert(a@ =~= b@);
        } else {
            if a@ == b@ {
                assert(is_prefix_of(b@, a@)) by {
                    assert(a@.subrange(0, b@.len() as int) =~= b@);
                }
            }
        }
    }
    r
}

/// Finds the first occurrence of `c` in `s` at or after `from`,
/// reported both as an absolute index and through `spec_find` on the
/// suffix.
pub fn find_byte_from(s: &Vec<u8>, c: u8, from: usize) -> (r: Option<usize>)
    requires
        from <= s@.len(),
    ensures
        match r {
            Some(k) => {
                &&& from <= k < s@.len()
                &&& s@[k as int] == c
                &&& spec_find(s@.skip(from as int), c) == Some(k - from)
            },
            None => spec_find(s@.skip(from as int), c) is None,
        },
{
    let mut k: usize = from;
    while k < s.len()
        invariant
            from <= k <= s@.len(),
            s@.len() == s.len(),
            forall|j: int| from <= j < k ==> s@[j] != c,
        decreases s.len() - k,
    {
        if s[k] == c {
            proof {
                let t = s@.skip(from as int);
                assert(t[k - from] == s@[k as int]);
                assert forall|j: int| 0 <= j < k - from implies t[j] != c by {
                    assert(t[j] == s@[from + j]);
                }
                lemma_find_unique(t, c, k - from);
            }
            return Some(k);
        }
        k += 1;
    }
    proof {
        let t = s@.skip(from as int);
        lemma_find(t, c);
        match spec_find(t, c) {
            Some(i) => {
                assert(t[i] == s@[from + i]);
            },
            None => {},
        }
    }
    None
}

/// Copies `b[lo..hi]` into a fresh vector.
pub fn copy_range(b: &Vec<u8>, lo: usize, hi: usize) -> (r: Vec<u8>)
    requires
        lo <= hi <= b@.len(),
    ensures
        r@ == b@.subrange(lo as int, hi as int),
{
    vstd::slice::slice_to_vec(vstd::slice::slice_subrange(b.as_slice(), lo, hi))
}

/// A fresh copy of one byte vector.
pub fn copy_vec(b: &Vec<u8>) -> (r: Vec<u8>)
    ensures
        r@ == b@,
{
    let r = copy_range(b, 0, b.len());
    proof {
        assert(b@.subrange(0, b@.len() as int) =~= b@);
    }
    r
}

/// Appends all of `tail` to `v`.
pub fn extend(v: &mut Vec<u8>, tail: &Vec<u8>)
    ensures
        final(v)@ == old(v)@ + tail@,
{
    v.extend_from_slice(tail.as_slice());
}

/// The content type of native gRPC, `application/grpc`.
pub open spec fn spec_ct_grpc() -> Seq<u8> {
    seq![97u8, 112u8, 112u8, 108u8, 105u8, 99u8, 97u8, 116u8, 105u8, 111u8, 110u8, 47u8, 103u8, 114u8, 112u8, 99u8]
}

/// The content type prefix of gRPC-Web, `application/grpc-web`.
pub open spec fn spec_ct_grpc_web() -> Seq<u8> {
    spec_ct_grpc() + seq![45u8, 119u8, 101u8, 98u8]
}

/// The content type prefix of gRPC-Web text mode,
/// `application/grpc-web-text`.
pub open spec fn spec_ct_grpc_web_text() -> Seq<u8> {
    spec_ct_grpc_web() + seq![45u8, 116u8, 101u8, 120u8, 116u8]
}

/// `application/grpc` as a byte vector.
pub fn ct_grpc() -> (r: Vec<u8>)
    ensures
        r@ == spec_ct_grpc(),
{
    let a: [u8; 16] = [97, 112, 112, 108, 105, 99, 97, 116, 105, 111, 110, 47, 103, 114, 112, 99];
    let r = vstd::slice::slice_to_vec(a.as_slice());
    proof {
        assert(r@ =~= spec_ct_grpc());
    }
    r
}

/// `application/grpc-web` as a byte vector.
pub fn ct_grpc_web() -> (r: Vec<u8>)
    ensures
        r@ == spec_ct_grpc_web(),
{
    let a: [u8; 20] = [97, 112, 112, 108, 105, 99, 97, 116, 105, 111, 110, 47, 103, 114, 112, 99, 45, 119, 101, 98];
    let r = vstd::slice::slice_to_vec(a.as_slice());
    proof {
        assert(r@ =~= spec_ct_grpc_web());
    }
    r
}

/// `application/grpc-web-text` as a byte vector.
pub fn ct_grpc_web_text() -> (r: Vec<u8>)
    ensures
        r@ == spec_ct_grpc_web_text(),
{
    let a: [u8; 25] = [97, 112, 112, 108, 105, 99, 97, 116, 105, 111, 110, 47, 103, 114, 112, 99, 45, 119, 101, 98, 45, 116, 101, 120, 116];
    let r = vstd::slice::slice_to_vec(a.as_slice());
    proof {
        assert(r@ =~= spec_ct_grpc_web_text());
    }
    r
}

} // verus!
