//! Places in a text: byte offsets that lie between characters.
use vstd::prelude::*;
use vstd::utf8::{
    decode_utf8, decode_utf8_encode_utf8, decode_utf8_split, encode_scalar, encode_utf8,
    encode_utf8_decode_utf8, encode_utf8_first_scalar, encode_utf8_valid_utf8, is_char_boundary,
    is_char_boundary_start_end_of_seq, pop_first_scalar, valid_utf8_split,
};

verus! {

/// The byte offset at which the character `k` of a text starts.
pub open spec fn offset(s: Seq<char>, k: int) -> nat {
    encode_utf8(s.take(k)).len()
}

/// A byte offset lies between two characters of a text, or at one of its ends.
pub open spec fn at_boundary(s: Seq<char>, i: int) -> bool {
    is_char_boundary(encode_utf8(s), i)
}

/// How many characters of a text lie before a byte offset.
pub open spec fn chars_before(s: Seq<char>, i: int) -> nat {
    decode_utf8(encode_utf8(s).subrange(0, i)).len()
}

/// The encoding of a text is that of its parts, one after the other.
pub proof fn lemma_encode_concat(a: Seq<char>, b: Seq<char>)
    ensures
        encode_utf8(a + b) == encode_utf8(a) + encode_utf8(b),
    decreases a.len(),
{
    if a.len() == 0 {
        assert(a + b == b);
        assert(encode_utf8(a) + encode_utf8(b) == encode_utf8(b));
    } else {
        assert((a + b).drop_first() == a.drop_first() + b);
        lemma_encode_concat(a.drop_first(), b);
        assert(encode_utf8(a + b) == encode_utf8(a) + encode_utf8(b));
    }
}

/// A character starts at a boundary.
pub proof fn lemma_offset_at_boundary(s: Seq<char>, k: int)
    requires
        0 <= k <= s.len(),
    ensures
        at_boundary(s, offset(s, k) as int),
        offset(s, k) <= encode_utf8(s).len(),
    decreases s.len(),
{
    encode_utf8_valid_utf8(s);
    lemma_encode_concat(s.take(k), s.skip(k));
    assert(s.take(k) + s.skip(k) == s);
    if k > 0 {
        let rest = s.drop_first();
        lemma_offset_at_boundary(rest, k - 1);
        encode_utf8_first_scalar(s);
        assert(pop_first_scalar(encode_utf8(s)) == encode_utf8(rest));
        assert(s.take(k).drop_first() == rest.take(k - 1));
    } else {
        assert(s.take(0) == Seq::<char>::empty());
    }
}

/// At every boundary a character starts, or the text ends.
pub proof fn lemma_boundary_is_offset(s: Seq<char>, i: int)
    requires
        at_boundary(s, i),
    ensures
        0 <= i <= encode_utf8(s).len(),
        chars_before(s, i) <= s.len(),
        offset(s, chars_before(s, i) as int) == i,
        decode_utf8(encode_utf8(s).subrange(0, i)) == s.take(chars_before(s, i) as int),
        decode_utf8(encode_utf8(s).subrange(i, encode_utf8(s).len() as int)) == s.skip(
            chars_before(s, i) as int,
        ),
{
    let bytes = encode_utf8(s);
    encode_utf8_valid_utf8(s);
    encode_utf8_decode_utf8(s);
    valid_utf8_split(bytes, i);
    decode_utf8_split(bytes, i);
    lemma_boundary_in_range(bytes, i);
    let first = decode_utf8(bytes.subrange(0, i));
    assert(s.take(first.len() as int) == first);
    decode_utf8_encode_utf8(bytes.subrange(0, i));
}

proof fn lemma_boundary_in_range(bytes: Seq<u8>, i: int)
    requires
        vstd::utf8::valid_utf8(bytes),
        is_char_boundary(bytes, i),
    ensures
        0 <= i <= bytes.len(),
{
}

/// A later character starts at a later byte.
pub proof fn lemma_offset_increasing(s: Seq<char>, j: int, k: int)
    requires
        0 <= j < k <= s.len(),
    ensures
        offset(s, j) < offset(s, k),
    decreases k - j,
{
    let last = s.take(k).last();
    let one = seq![last];
    assert(s.take(k) == s.take(k - 1) + one);
    lemma_encode_concat(s.take(k - 1), one);
    assert(encode_utf8(one).len() >= 1) by {
        assert(encode_utf8(one) == encode_scalar(one[0] as u32) + encode_utf8(one.drop_first()));
    }
    if j < k - 1 {
        lemma_offset_increasing(s, j, k - 1);
    }
}

/// As many characters lie before the start of a character as its number says.
pub proof fn lemma_chars_before_offset(s: Seq<char>, k: int)
    requires
        0 <= k <= s.len(),
    ensures
        chars_before(s, offset(s, k) as int) == k,
{
    lemma_encode_concat(s.take(k), s.skip(k));
    assert(s.take(k) + s.skip(k) == s);
    assert(encode_utf8(s).subrange(0, offset(s, k) as int) == encode_utf8(s.take(k)));
    encode_utf8_decode_utf8(s.take(k));
}

/// The length of a text in bytes.
pub fn byte_len(s: &str) -> (n: usize)
    ensures
        n == encode_utf8(s@).len(),
{
    s.as_bytes().len()
}

/// The two parts of a text before and after a boundary.
pub fn split_text(s: &str, i: usize) -> (r: (&str, &str))
    requires
        at_boundary(s@, i as int),
    ensures
        r.0@ == s@.take(chars_before(s@, i as int) as int),
        r.1@ == s@.skip(chars_before(s@, i as int) as int),
{
    let r = s.split_at(i);
    proof {
        lemma_boundary_is_offset(s@, i as int);
        encode_utf8_decode_utf8(r.0@);
        encode_utf8_decode_utf8(r.1@);
    }
    r
}

/// The last boundary before `idx`; 0 where there is none.
pub fn prev_char_boundary(s: &str, idx: usize) -> (r: usize)
    ensures
        at_boundary(s@, r as int),
        idx == 0 ==> r == 0,
        idx > 0 ==> r < idx,
        forall|j: int| r < j < idx ==> !at_boundary(s@, j),
{
    proof {
        encode_utf8_valid_utf8(s@);
        is_char_boundary_start_end_of_seq(encode_utf8(s@));
    }
    if idx == 0 {
        return 0;
    }
    let mut i: usize = idx - 1;
    while i > 0 && !s.is_char_boundary(i)
        invariant
            i < idx,
            forall|j: int| i < j < idx ==> !at_boundary(s@, j),
        decreases i,
    {
        i = i - 1;
    }
    i
}

/// The first boundary after `idx`; the end of the text where there is none.
pub fn next_char_boundary(s: &str, idx: usize) -> (r: usize)
    ensures
        at_boundary(s@, r as int),
        idx >= encode_utf8(s@).len() ==> r == encode_utf8(s@).len(),
        idx < encode_utf8(s@).len() ==> r > idx,
        forall|j: int| idx < j < r ==> !at_boundary(s@, j),
{
    let n: usize = byte_len(s);
    proof {
        encode_utf8_valid_utf8(s@);
        is_char_boundary_start_end_of_seq(encode_utf8(s@));
    }
    if idx >= n {
        return n;
    }
    let mut i: usize = idx + 1;
    while i < n && !s.is_char_boundary(i)
        invariant
            idx < i <= n,
            forall|j: int| idx < j < i ==> !at_boundary(s@, j),
        decreases n - i,
    {
        i = i + 1;
    }
    i
}

/// The boundary before the start of a character is the start of the character before.
pub proof fn lemma_prev(s: Seq<char>, k: int, r: int)
    requires
        0 < k <= s.len(),
        at_boundary(s, r),
        r < offset(s, k),
        forall|j: int| r < j < offset(s, k) ==> !at_boundary(s, j),
    ensures
        r == offset(s, k - 1),
        chars_before(s, r) == k - 1,
{
    lemma_offset_at_boundary(s, k - 1);
    lemma_offset_increasing(s, k - 1, k);
    lemma_boundary_is_offset(s, r);
    let m = chars_before(s, r) as int;
    if m > k - 1 {
        if m > k {
            lemma_offset_increasing(s, k, m);
        }
    } else if m < k - 1 {
        lemma_offset_increasing(s, m, k - 1);
    }
}

/// The boundary after the start of a character is the start of the next, or the end.
pub proof fn lemma_next(s: Seq<char>, k: int, r: int)
    requires
        0 <= k < s.len(),
        at_boundary(s, r),
        offset(s, k) < r,
        forall|j: int| offset(s, k) < j < r ==> !at_boundary(s, j),
    ensures
        r == offset(s, k + 1),
        chars_before(s, r) == k + 1,
{
    lemma_offset_at_boundary(s, k + 1);
    lemma_offset_increasing(s, k, k + 1);
    lemma_boundary_is_offset(s, r);
    let m = chars_before(s, r) as int;
    if m < k + 1 {
        if m < k {
            lemma_offset_increasing(s, m, k);
        }
    } else if m > k + 1 {
        lemma_offset_increasing(s, k + 1, m);
    }
}

} // verus!
