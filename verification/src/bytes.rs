//! Searching and splicing byte strings.

use vstd::prelude::*;

verus! {

/// `needle` occurs in `hay` at byte index `i`.
pub open spec fn matches_at(hay: Seq<u8>, needle: Seq<u8>, i: int) -> bool {
    0 <= i && i + needle.len() <= hay.len() && hay.subrange(i, i + needle.len()) == needle
}

/// The first index at or after `i` where `needle` occurs.
pub open spec fn find_from(hay: Seq<u8>, needle: Seq<u8>, i: int) -> Option<int>
    decreases hay.len() + 1 - i,
{
    if i < 0 || i + needle.len() > hay.len() {
        None
    } else if matches_at(hay, needle, i) {
        Some(i)
    } else {
        find_from(hay, needle, i + 1)
    }
}

/// The first occurrence of `needle` in `hay`.
pub open spec fn first_match(hay: Seq<u8>, needle: Seq<u8>) -> Option<int> {
    find_from(hay, needle, 0)
}

/// The last index at or before `i` where `needle` occurs.
pub open spec fn rfind_from(hay: Seq<u8>, needle: Seq<u8>, i: int) -> Option<int>
    decreases i + 1,
{
    if i < 0 {
        None
    } else if matches_at(hay, needle, i) {
        Some(i)
    } else {
        rfind_from(hay, needle, i - 1)
    }
}

/// The last occurrence of `needle` in `hay`.
pub open spec fn last_match(hay: Seq<u8>, needle: Seq<u8>) -> Option<int> {
    rfind_from(hay, needle, hay.len() - needle.len())
}

/// Whether two byte strings are equal.
pub fn bytes_equal(a: &[u8], b: &[u8]) -> (r: bool)
    ensures
        r == (a@ == b@),
{
    if a.len() != b.len() {
        return false;
    }
    let r = bytes_match_at(a, b, 0);
    assert(a@.subrange(0, b@.len() as int) =~= a@);
    r
}

/// Tests whether `needle` occurs in `hay` at `i`.
pub fn bytes_match_at(hay: &[u8], needle: &[u8], i: usize) -> (r: bool)
    ensures
        r == matches_at(hay@, needle@, i as int),
{
    if i > hay.len() || needle.len() > hay.len() - i {
        return false;
    }
    let mut k: usize = 0;
    while k < needle.len()
        invariant
            i + needle.len() <= hay.len(),
            0 <= k <= needle.len(),
            forall|j: int| 0 <= j < k ==> hay@[i + j] == needle@[j],
        decreases needle.len() - k,
    {
        if hay[i + k] != needle[k] {
            assert(hay@.subrange(i as int, i + needle.len())[k as int] != needle@[k as int]);
            return false;
        }
        k = k + 1;
    }
    assert(hay@.subrange(i as int, i + needle.len()) =~= needle@);
    true
}

proof fn lemma_find_from_none(hay: Seq<u8>, needle: Seq<u8>, i: int)
    requires
        0 <= i,
        forall|j: int| i <= j ==> !matches_at(hay, needle, j),
    ensures
        find_from(hay, needle, i) is None,
    decreases hay.len() + 1 - i,
{
    if i + needle.len() <= hay.len() {
        lemma_find_from_none(hay, needle, i + 1);
    }
}

proof fn lemma_find_from_skip(hay: Seq<u8>, needle: Seq<u8>, i: int, k: int)
    requires
        0 <= i <= k,
        forall|j: int| i <= j < k ==> !matches_at(hay, needle, j),
    ensures
        find_from(hay, needle, i) == find_from(hay, needle, k),
    decreases k - i,
{
    if i < k {
        lemma_find_from_skip(hay, needle, i + 1, k);
    }
}

/// A match at `j` means the search from any `from <= j` finds one no later.
pub proof fn lemma_find_from_reaches(hay: Seq<u8>, needle: Seq<u8>, from: int, j: int)
    requires
        0 <= from <= j,
        matches_at(hay, needle, j),
    ensures
        find_from(hay, needle, from) matches Some(t) && from <= t <= j && matches_at(hay, needle, t),
    decreases j - from,
{
    if !matches_at(hay, needle, from) {
        lemma_find_from_reaches(hay, needle, from + 1, j);
    }
}

/// What the forward search finds is a match.
pub proof fn lemma_find_from_matches(hay: Seq<u8>, needle: Seq<u8>, from: int)
    ensures
        find_from(hay, needle, from) matches Some(t) ==> from <= t && matches_at(hay, needle, t),
    decreases hay.len() + 1 - from,
{
    if from >= 0 && from + needle.len() <= hay.len() && !matches_at(hay, needle, from) {
        lemma_find_from_matches(hay, needle, from + 1);
    }
}

/// What the backward search finds is a match.
pub proof fn lemma_rfind_from_matches(hay: Seq<u8>, needle: Seq<u8>, from: int)
    ensures
        rfind_from(hay, needle, from) matches Some(t) ==> t <= from && matches_at(hay, needle, t),
    decreases from + 1,
{
    if from >= 0 && !matches_at(hay, needle, from) {
        lemma_rfind_from_matches(hay, needle, from - 1);
    }
}

/// First occurrence of `needle` in `hay`.
pub fn find_bytes(hay: &[u8], needle: &[u8]) -> (r: Option<usize>)
    ensures
        match r {
            Some(i) => first_match(hay@, needle@) == Some(i as int) && matches_at(hay@, needle@, i as int),
            None => first_match(hay@, needle@) is None,
        },
{
    if needle.len() > hay.len() {
        proof {
            lemma_find_from_none(hay@, needle@, 0);
        }
        return None;
    }
    if needle.len() == 0 {
        assert(hay@.subrange(0, 0) =~= needle@);
        return Some(0);
    }
    let last = hay.len() - needle.len();
    let mut i: usize = 0;
    while i <= last
        invariant
            last + needle.len() == hay.len(),
            needle.len() >= 1,
            0 <= i <= last + 1,
            forall|j: int| 0 <= j < i ==> !matches_at(hay@, needle@, j),
        decreases last + 1 - i,
    {
        if bytes_match_at(hay, needle, i) {
            proof {
                lemma_find_from_skip(hay@, needle@, 0, i as int);
            }
            return Some(i);
        }
        i = i + 1;
    }
    proof {
        lemma_find_from_none(hay@, needle@, 0);
    }
    None
}

proof fn lemma_rfind_from_skip(hay: Seq<u8>, needle: Seq<u8>, i: int, k: int)
    requires
        k <= i,
        forall|j: int| k < j <= i ==> !matches_at(hay, needle, j),
    ensures
        rfind_from(hay, needle, i) == rfind_from(hay, needle, k),
    decreases i - k,
{
    if k < i {
        lemma_rfind_from_skip(hay, needle, i - 1, k);
    }
}

/// Last occurrence of `needle` in `hay`.
pub fn rfind_bytes(hay: &[u8], needle: &[u8]) -> (r: Option<usize>)
    ensures
        match r {
            Some(i) => last_match(hay@, needle@) == Some(i as int) && matches_at(hay@, needle@, i as int),
            None => last_match(hay@, needle@) is None,
        },
{
    if needle.len() > hay.len() {
        return None;
    }
    if needle.len() == 0 {
        assert(hay@.subrange(hay.len() as int, hay.len() as int) =~= needle@);
        return Some(hay.len());
    }
    let mut i: usize = hay.len() - needle.len() + 1;
    while i > 0
        invariant
            i <= hay.len() - needle.len() + 1,
            forall|j: int| i <= j <= hay.len() - needle.len() ==> !matches_at(hay@, needle@, j),
        decreases i,
    {
        if bytes_match_at(hay, needle, i - 1) {
            proof {
                lemma_rfind_from_skip(hay@, needle@, hay.len() - needle.len(), i - 1);
            }
            return Some(i - 1);
        }
        i = i - 1;
    }
    proof {
        lemma_rfind_from_skip(hay@, needle@, hay.len() - needle.len(), -1);
    }
    None
}

/// Last occurrence of `needle` that ends at or before `limit`.
pub fn rfind_bytes_upto(hay: &[u8], needle: &[u8], limit: usize) -> (r: Option<usize>)
    requires
        limit <= hay.len(),
        needle.len() > 0,
    ensures
        match r {
            Some(i) => rfind_from(hay@, needle@, limit - needle.len()) == Some(i as int) && matches_at(
                hay@,
                needle@,
                i as int,
            ),
            None => rfind_from(hay@, needle@, limit - needle.len()) is None,
        },
{
    if needle.len() > limit {
        return None;
    }
    let mut i: usize = limit - needle.len() + 1;
    while i > 0
        invariant
            needle.len() <= limit <= hay.len(),
            i <= limit - needle.len() + 1,
            forall|j: int| i <= j <= limit - needle.len() ==> !matches_at(hay@, needle@, j),
        decreases i,
    {
        if bytes_match_at(hay, needle, i - 1) {
            proof {
                lemma_rfind_from_skip(hay@, needle@, limit - needle.len(), i - 1);
            }
            return Some(i - 1);
        }
        i = i - 1;
    }
    proof {
        lemma_rfind_from_skip(hay@, needle@, limit - needle.len(), -1);
    }
    None
}

/// First occurrence of `needle` at or after `from`.
pub fn find_bytes_from(hay: &[u8], needle: &[u8], from: usize) -> (r: Option<usize>)
    requires
        needle.len() > 0,
    ensures
        match r {
            Some(i) => find_from(hay@, needle@, from as int) == Some(i as int) && matches_at(hay@, needle@, i as int)
                && from <= i,
            None => find_from(hay@, needle@, from as int) is None,
        },
{
    if needle.len() > hay.len() || from > hay.len() - needle.len() {
        return None;
    }
    let last = hay.len() - needle.len();
    let mut i: usize = from;
    while i <= last
        invariant
            last + needle.len() == hay.len(),
            needle.len() >= 1,
            from <= i <= last + 1,
            forall|j: int| from <= j < i ==> !matches_at(hay@, needle@, j),
        decreases last + 1 - i,
    {
        if bytes_match_at(hay, needle, i) {
            proof {
                lemma_find_from_skip(hay@, needle@, from as int, i as int);
            }
            return Some(i);
        }
        i = i + 1;
    }
    proof {
        lemma_find_from_skip(hay@, needle@, from as int, i as int);
    }
    None
}

/// Appends `src[from..to]` to `out`.
pub fn extend_range(out: &mut Vec<u8>, src: &[u8], from: usize, to: usize)
    requires
        from <= to <= src.len(),
    ensures
        final(out)@ == old(out)@ + src@.subrange(from as int, to as int),
{
    let ghost start = out@;
    let mut i = from;
    while i < to
        invariant
            from <= i <= to <= src.len(),
            out@ == start + src@.subrange(from as int, i as int),
        decreases to - i,
    {
        out.push(src[i]);
        i = i + 1;
        assert(out@ =~= start + src@.subrange(from as int, i as int));
    }
}

/// `s` as its UTF-8 bytes.
pub fn str_bytes(s: &str) -> (r: Vec<u8>)
    ensures
        r@ == vstd::utf8::encode_utf8(s@),
{
    let b = s.as_bytes();
    let mut out: Vec<u8> = Vec::new();
    extend_range(&mut out, b, 0, b.len());
    assert(b@.subrange(0, b@.len() as int) =~= b@);
    out
}

/// Whether `bytes` is well-formed UTF-8. Calls `std::str::from_utf8`.
#[verifier::external_body]
pub(crate) fn is_valid_utf8(bytes: &[u8]) -> (r: bool)
    ensures
        r == vstd::utf8::valid_utf8(bytes@),
{
    std::str::from_utf8(bytes).is_ok()
}

/// The text of the error that `std::str::from_utf8` reports for `bytes`.
pub uninterp spec fn utf8_error_text(bytes: Seq<u8>) -> Seq<char>;

/// The message of the error that `std::str::from_utf8` returns for invalid
/// `bytes`, as its `Display` renders it. Calls `std::str::from_utf8`.
#[verifier::external_body]
pub(crate) fn utf8_error_message(bytes: &[u8]) -> (r: String)
    requires
        !vstd::utf8::valid_utf8(bytes@),
    ensures
        r@ == utf8_error_text(bytes@),
{
    match std::str::from_utf8(bytes) {
        Err(e) => e.to_string(),
        Ok(_) => String::new(),
    }
}

/// Equality of two string slices. Calls `<str as PartialEq>::eq`.
#[verifier::external_body]
pub(crate) fn str_eq(a: &str, b: &str) -> (r: bool)
    ensures
        r == (a@ == b@),
{
    a == b
}

} // verus!

verus! {

/// `bytes` as a string slice when it is well-formed UTF-8. Calls `std::str::from_utf8`.
#[verifier::external_body]
pub(crate) fn utf8_str(bytes: &[u8]) -> (r: Option<&str>)
    ensures
        r.is_some() == vstd::utf8::valid_utf8(bytes@),
        r matches Some(s) ==> s@ == vstd::utf8::decode_utf8(bytes@),
{
    std::str::from_utf8(bytes).ok()
}

} // verus!

verus! {

/// What `String::from_utf8_lossy` makes of `bytes`.
pub uninterp spec fn utf8_lossy(bytes: Seq<u8>) -> Seq<char>;

/// `bytes` decoded as UTF-8, each invalid sequence replaced by U+FFFD. Calls
/// `String::from_utf8_lossy`; on well-formed input that is the plain decoding.
#[verifier::external_body]
pub(crate) fn lossy_string(bytes: &[u8]) -> (r: String)
    ensures
        r@ == utf8_lossy(bytes@),
        vstd::utf8::valid_utf8(bytes@) ==> r@ == vstd::utf8::decode_utf8(bytes@),
{
    String::from_utf8_lossy(bytes).into_owned()
}

} // verus!
