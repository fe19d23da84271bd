//! Byte-sequence searching and splicing primitives that the rest of the
//! library is specified and verified against.

use vstd::prelude::*;
use vstd::string::StringSliceAdditionalSpecFns;

verus! {

/// `needle` occurs in `hay` starting at position `i`.
pub open spec fn matches_at(hay: Seq<u8>, needle: Seq<u8>, i: int) -> bool {
    0 <= i && i + needle.len() <= hay.len() && hay.subrange(i, i + needle.len()) == needle
}

/// `hay` begins with `needle`.
pub open spec fn is_prefix(hay: Seq<u8>, needle: Seq<u8>) -> bool {
    matches_at(hay, needle, 0)
}

/// `needle` occurs somewhere in `hay`.
pub open spec fn contains_seq(hay: Seq<u8>, needle: Seq<u8>) -> bool {
    exists|i: int| matches_at(hay, needle, i)
}

/// Position of the first occurrence of `needle` in `hay` at or after `from`.
pub open spec fn first_match_from(hay: Seq<u8>, needle: Seq<u8>, from: int) -> Option<int>
    decreases hay.len() - from + 1,
{
    if from < 0 || from + needle.len() > hay.len() {
        None
    } else if matches_at(hay, needle, from) {
        Some(from)
    } else {
        first_match_from(hay, needle, from + 1)
    }
}

/// Position of the last occurrence of `needle` in `hay` at or after `from`.
pub open spec fn last_match_from(hay: Seq<u8>, needle: Seq<u8>, from: int) -> Option<int>
    decreases hay.len() - from + 1,
{
    if from < 0 || from + needle.len() > hay.len() {
        None
    } else {
        match last_match_from(hay, needle, from + 1) {
            Some(i) => Some(i),
            None => if matches_at(hay, needle, from) {
                Some(from)
            } else {
                None
            },
        }
    }
}

/// Position of the first occurrence of the byte `b` in `hay` at or after `from`.
pub open spec fn first_byte_from(hay: Seq<u8>, b: u8, from: int) -> Option<int>
    decreases hay.len() - from + 1,
{
    if from < 0 || from >= hay.len() {
        None
    } else if hay[from] == b {
        Some(from)
    } else {
        first_byte_from(hay, b, from + 1)
    }
}

/// Position of the last occurrence of the byte `b` in `hay` at or after `from`.
pub open spec fn last_byte_from(hay: Seq<u8>, b: u8, from: int) -> Option<int>
    decreases hay.len() - from + 1,
{
    if from < 0 || from >= hay.len() {
        None
    } else {
        match last_byte_from(hay, b, from + 1) {
            Some(i) => Some(i),
            None => if hay[from] == b {
                Some(from)
            } else {
                None
            },
        }
    }
}

/// What `first_match_from` returns is the least match position at or after
/// `from`, and `None` means there is none.
pub proof fn lemma_first_match_props(hay: Seq<u8>, needle: Seq<u8>, from: int)
    requires
        from >= 0,
    ensures
        match first_match_from(hay, needle, from) {
            Some(i) => from <= i && matches_at(hay, needle, i) && forall|j: int|
                from <= j < i ==> !matches_at(hay, needle, j),
            None => forall|j: int| from <= j ==> !matches_at(hay, needle, j),
        },
    decreases hay.len() - from + 1,
{
    if from + needle.len() > hay.len() {
        assert(forall|j: int| j >= from ==> !matches_at(hay, needle, j));
    } else if matches_at(hay, needle, from) {
    } else {
        lemma_first_match_props(hay, needle, from + 1);
    }
}

/// What `last_match_from` returns is the greatest match position at or after
/// `from`, and `None` means there is none.
pub proof fn lemma_last_match_props(hay: Seq<u8>, needle: Seq<u8>, from: int)
    requires
        from >= 0,
    ensures
        match last_match_from(hay, needle, from) {
            Some(i) => from <= i && matches_at(hay, needle, i) && forall|j: int|
                j > i ==> !matches_at(hay, needle, j),
            None => forall|j: int| from <= j ==> !matches_at(hay, needle, j),
        },
    decreases hay.len() - from + 1,
{
    if from + needle.len() > hay.len() {
        assert(forall|j: int| j >= from ==> !matches_at(hay, needle, j));
    } else {
        lemma_last_match_props(hay, needle, from + 1);
    }
}

/// What `first_byte_from` returns is the least position of `b` at or after
/// `from`, and `None` means there is none.
pub proof fn lemma_first_byte_props(hay: Seq<u8>, b: u8, from: int)
    requires
        from >= 0,
    ensures
        match first_byte_from(hay, b, from) {
            Some(i) => from <= i < hay.len() && hay[i] == b && forall|j: int|
                from <= j < i ==> hay[j] != b,
            None => forall|j: int| from <= j < hay.len() ==> hay[j] != b,
        },
    decreases hay.len() - from + 1,
{
    if from >= hay.len() {
    } else if hay[from] == b {
    } else {
        lemma_first_byte_props(hay, b, from + 1);
    }
}

/// What `last_byte_from` returns is the greatest position of `b` at or after
/// `from`, and `None` means there is none.
pub proof fn lemma_last_byte_props(hay: Seq<u8>, b: u8, from: int)
    requires
        from >= 0,
    ensures
        match last_byte_from(hay, b, from) {
            Some(i) => from <= i < hay.len() && hay[i] == b && forall|j: int|
                i < j < hay.len() ==> hay[j] != b,
            None => forall|j: int| from <= j < hay.len() ==> hay[j] != b,
        },
    decreases hay.len() - from + 1,
{
    if from >= hay.len() {
    } else {
        lemma_last_byte_props(hay, b, from + 1);
    }
}

/// The byte image of an ASCII string is its characters, byte for byte.
pub proof fn lemma_ascii_bytes(s: &str)
    requires
        vstd::utf8::is_ascii_chars(s@),
    ensures
        s.spec_bytes().len() == s@.len(),
        forall|i: int| 0 <= i < s@.len() ==> s.spec_bytes()[i] == s@[i] as u8,
{
    vstd::utf8::is_ascii_chars_encode_utf8(s@);
}

/// Copy of `v[from..to]`.
pub fn subvec(v: &Vec<u8>, from: usize, to: usize) -> (r: Vec<u8>)
    requires
        from <= to <= v@.len(),
    ensures
        r@ == v@.subrange(from as int, to as int),
{
    let mut r: Vec<u8> = Vec::new();
    let mut i: usize = from;
    while i < to
        invariant
            from <= i <= to <= v@.len(),
            r@ == v@.subrange(from as int, i as int),
        decreases to - i,
    {
        r.push(v[i]);
        i = i + 1;
        assert(r@ =~= v@.subrange(from as int, i as int));
    }
    r
}

/// Copy of `v`.
pub fn copy_bytes(v: &Vec<u8>) -> (r: Vec<u8>)
    ensures
        r@ == v@,
{
    let r = subvec(v, 0, v.len());
    proof {
        assert(v@.subrange(0, v@.len() as int) =~= v@);
    }
    r
}

/// Append a copy of `src` to `dst`.
pub fn extend_from(dst: &mut Vec<u8>, src: &Vec<u8>)
    ensures
        final(dst)@ == old(dst)@ + src@,
{
    let mut i: usize = 0;
    while i < src.len()
        invariant
            i <= src@.len(),
            dst@ == old(dst)@ + src@.subrange(0, i as int),
        decreases src@.len() - i,
    {
        dst.push(src[i]);
        i = i + 1;
        assert(dst@ =~= old(dst)@ + src@.subrange(0, i as int));
    }
    assert(dst@ =~= old(dst)@ + src@);
}

/// `needle` occurs in `hay` at position `i`.
pub fn match_at(hay: &Vec<u8>, needle: &Vec<u8>, i: usize) -> (r: bool)
    ensures
        r == matches_at(hay@, needle@, i as int),
{
    if needle.len() > hay.len() || i > hay.len() - needle.len() {
        return false;
    }
    let mut k: usize = 0;
    while k < needle.len()
        invariant
            i + needle@.len() <= hay@.len() <= usize::MAX,
            k <= needle@.len(),
            forall|m: int| 0 <= m < k ==> hay@[i + m] == needle@[m],
        decreases needle@.len() - k,
    {
        if hay[i + k] != needle[k] {
            assert(hay@.subrange(i as int, i + needle@.len())[k as int] != needle@[k as int]);
            return false;
        }
        k = k + 1;
    }
    assert(hay@.subrange(i as int, i + needle@.len()) =~= needle@);
    true
}

/// `hay` begins with `needle`.
pub fn starts_with_seq(hay: &Vec<u8>, needle: &Vec<u8>) -> (r: bool)
    ensures
        r == is_prefix(hay@, needle@),
{
    match_at(hay, needle, 0)
}

/// First occurrence of `needle` in `hay` at or after `from`.
pub fn find_first(hay: &Vec<u8>, needle: &Vec<u8>, from: usize) -> (r: Option<usize>)
    ensures
        match r {
            Some(i) => first_match_from(hay@, needle@, from as int) == Some(i as int),
            None => first_match_from(hay@, needle@, from as int) is None,
        },
{
    if needle.len() == 0 {
        if from <= hay.len() {
            proof {
                assert(hay@.subrange(from as int, from as int) =~= needle@);
            }
            return Some(from);
        }
        return None;
    }
    let mut i: usize = from;
    loop
        invariant
            from <= i,
            needle@.len() >= 1,
            first_match_from(hay@, needle@, from as int) == first_match_from(hay@, needle@, i as int),
        decreases hay@.len() + 1 - i,
    {
        if needle.len() > hay.len() || i > hay.len() - needle.len() {
            return None;
        }
        if match_at(hay, needle, i) {
            return Some(i);
        }
        i = i + 1;
    }
}

/// `needle` occurs somewhere in `hay`.
pub fn contains_bytes(hay: &Vec<u8>, needle: &Vec<u8>) -> (r: bool)
    ensures
        r == contains_seq(hay@, needle@),
{
    let r = find_first(hay, needle, 0);
    proof {
        lemma_first_match_props(hay@, needle@, 0);
        if r is Some {
            assert(contains_seq(hay@, needle@));
        } else {
            assert(forall|i: int| !matches_at(hay@, needle@, i)) by {
                assert(forall|i: int| i < 0 ==> !matches_at(hay@, needle@, i));
            }
        }
    }
    r.is_some()
}

/// Any match position at or after `i` propagates down to `last_match_from`
/// at 0.
pub proof fn lemma_last_match_extend(hay: Seq<u8>, needle: Seq<u8>, i: int, j: int)
    requires
        0 <= i,
        last_match_from(hay, needle, i) == Some(j),
    ensures
        last_match_from(hay, needle, 0) == Some(j),
    decreases i,
{
    if i > 0 {
        assert(last_match_from(hay, needle, i - 1) == Some(j));
        lemma_last_match_extend(hay, needle, i - 1, j);
    }
}

/// Last occurrence of `needle` in `hay`.
pub fn find_last(hay: &Vec<u8>, needle: &Vec<u8>) -> (r: Option<usize>)
    ensures
        match r {
            Some(i) => last_match_from(hay@, needle@, 0) == Some(i as int),
            None => last_match_from(hay@, needle@, 0) is None,
        },
{
    if needle.len() > hay.len() {
        return None;
    }
    let mut i: usize = hay.len() - needle.len();
    loop
        invariant
            needle@.len() <= hay@.len(),
            i + needle@.len() <= hay@.len(),
            last_match_from(hay@, needle@, i + 1) is None,
        decreases i,
    {
        if match_at(hay, needle, i) {
            proof {
                assert(last_match_from(hay@, needle@, i as int) == Some(i as int));
                lemma_last_match_extend(hay@, needle@, i as int, i as int);
            }
            return Some(i);
        }
        if i == 0 {
            return None;
        }
        i = i - 1;
    }
}

/// First occurrence of the byte `b` in `hay` at or after `from`.
pub fn find_byte(hay: &Vec<u8>, b: u8, from: usize) -> (r: Option<usize>)
    ensures
        match r {
            Some(i) => first_byte_from(hay@, b, from as int) == Some(i as int),
            None => first_byte_from(hay@, b, from as int) is None,
        },
{
    let mut i: usize = from;
    loop
        invariant
            from <= i,
            first_byte_from(hay@, b, from as int) == first_byte_from(hay@, b, i as int),
        decreases hay@.len() + 1 - i,
    {
        if i >= hay.len() {
            return None;
        }
        if hay[i] == b {
            return Some(i);
        }
        i = i + 1;
    }
}

/// Any position of `b` at or after `i` propagates down to `last_byte_from`
/// at 0.
pub proof fn lemma_last_byte_extend(hay: Seq<u8>, b: u8, i: int, j: int)
    requires
        0 <= i,
        last_byte_from(hay, b, i) == Some(j),
    ensures
        last_byte_from(hay, b, 0) == Some(j),
    decreases i,
{
    if i > 0 {
        assert(last_byte_from(hay, b, i - 1) == Some(j));
        lemma_last_byte_extend(hay, b, i - 1, j);
    }
}

/// Last occurrence of the byte `b` in `hay`.
pub fn rfind_byte(hay: &Vec<u8>, b: u8) -> (r: Option<usize>)
    ensures
        match r {
            Some(i) => last_byte_from(hay@, b, 0) == Some(i as int),
            None => last_byte_from(hay@, b, 0) is None,
        },
{
    if hay.len() == 0 {
        return None;
    }
    let mut i: usize = hay.len() - 1;
    loop
        invariant
            i < hay@.len(),
            last_byte_from(hay@, b, i + 1) is None,
        decreases i,
    {
        if hay[i] == b {
            proof {
                lemma_last_byte_extend(hay@, b, i as int, i as int);
            }
            return Some(i);
        }
        if i == 0 {
            return None;
        }
        i = i - 1;
    }
}

} // verus!
