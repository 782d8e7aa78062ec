use vstd::prelude::*;

verus! {

/// Index of the first occurrence of `b` in `s` at or after `i`, or -1.
pub open spec fn first_from(s: Seq<u8>, b: u8, i: int) -> int
    decreases s.len() - i,
{
    if i < 0 || i >= s.len() {
        -1
    } else if s[i] == b {
        i
    } else {
        first_from(s, b, i + 1)
    }
}

/// `first_from` is the index of the first match at or after `i`.
pub proof fn lemma_first_from(s: Seq<u8>, b: u8, i: int)
    requires
        0 <= i <= s.len(),
    ensures
        first_from(s, b, i) == -1 || (i <= first_from(s, b, i) < s.len()),
        first_from(s, b, i) == -1 ==> forall|j: int| i <= j < s.len() ==> s[j] != b,
        first_from(s, b, i) != -1 ==> s[first_from(s, b, i)] == b && forall|j: int|
            i <= j < first_from(s, b, i) ==> s[j] != b,
    decreases s.len() - i,
{
    if i < s.len() && s[i] != b {
        lemma_first_from(s, b, i + 1);
    }
}

/// Relies on memchr::memchr: the index of the first `needle` in `haystack`.
#[verifier::external_body]
pub fn find_byte(needle: u8, haystack: &[u8]) -> (r: Option<usize>)
    ensures
        match r {
            Some(k) => k < haystack@.len() && haystack@[k as int] == needle && forall|j: int|
                0 <= j < k ==> haystack@[j] != needle,
            None => forall|j: int| 0 <= j < haystack@.len() ==> haystack@[j] != needle,
        },
{
    memchr::memchr(needle, haystack)
}

/// Index of the first `needle` in `s` at or after `start`.
pub fn find_from(needle: u8, s: &[u8], start: usize) -> (r: Option<usize>)
    requires
        start <= s@.len(),
    ensures
        match r {
            Some(k) => first_from(s@, needle, start as int) == k && start <= k < s@.len(),
            None => first_from(s@, needle, start as int) == -1,
        },
{
    proof {
        lemma_first_from(s@, needle, start as int);
    }
    let tail = &s[start..s.len()];
    match find_byte(needle, tail) {
        Some(k) => {
            proof {
                let f = first_from(s@, needle, start as int);
                assert(s@[start + k] == needle);
                if f != start + k {
                    if f == -1 {
                        assert(s@[start + k] != needle);
                    } else if f < start + k {
                        assert(tail@[f - start] == needle);
                    }
                }
            }
            Some(start + k)
        },
        None => {
            proof {
                let f = first_from(s@, needle, start as int);
                if f != -1 {
                    assert(tail@[f - start] == needle);
                }
            }
            None
        },
    }
}

/// Appends the bytes of `src` to `dst`.
pub fn append_bytes(dst: &mut Vec<u8>, src: &[u8])
    ensures
        final(dst)@ == old(dst)@ + src@,
{
    let mut i: usize = 0;
    while i < src.len()
        invariant
            i <= src@.len(),
            dst@ == old(dst)@ + src@.subrange(0, i as int),
        decreases src@.len() - i,
    {
        dst.push(src[i]);
        i = i + 1;
        proof {
            assert(src@.subrange(0, i as int) == src@.subrange(0, i - 1) + seq![src@[i - 1]]);
        }
    }
    proof {
        assert(src@.subrange(0, src@.len() as int) == src@);
    }
}

/// A fresh vector holding `s[start..end]`.
pub fn copy_range(s: &[u8], start: usize, end: usize) -> (r: Vec<u8>)
    requires
        start <= end <= s@.len(),
    ensures
        r@ == s@.subrange(start as int, end as int),
{
    let mut r: Vec<u8> = Vec::new();
    append_bytes(&mut r, &s[start..end]);
    r
}

} // verus!
