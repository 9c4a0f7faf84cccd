//! Byte offsets of the characters of a text.
//!
//! A text is modelled as its sequence of characters. A token names a span of
//! the text by byte offsets into its UTF-8 encoding, so this module relates
//! the two: `offset(s, k)` is the byte offset at which character `k` of `s`
//! begins.
use vstd::prelude::*;
use vstd::utf8::*;
use vstd::string::*;

verus! {

/// The number of bytes in the UTF-8 encoding of `c`.
pub open spec fn width(c: char) -> nat {
    if (c as u32) < 0x80 {
        1
    } else if (c as u32) < 0x800 {
        2
    } else if (c as u32) < 0x10000 {
        3
    } else {
        4
    }
}

/// The number of bytes in the UTF-8 encoding of the first `k` characters of
/// `s`: the byte offset at which character `k` begins.
pub open spec fn offset(s: Seq<char>, k: int) -> nat
    decreases k,
{
    if k <= 0 {
        0
    } else {
        offset(s, k - 1) + width(s[k - 1])
    }
}

/// The number of bytes in the UTF-8 encoding of `s`.
pub open spec fn byte_len(s: Seq<char>) -> nat {
    offset(s, s.len() as int)
}

/// Whether byte offset `o` falls between two characters of `s`, at its start
/// or at its end.
pub open spec fn is_boundary(s: Seq<char>, o: int) -> bool {
    exists|k: int| 0 <= k <= s.len() && #[trigger] offset(s, k) == o
}

/// The index of the character of `s` that begins at byte offset `o`, where
/// `o` is a boundary.
pub open spec fn index_of(s: Seq<char>, o: int) -> int {
    choose|k: int| 0 <= k <= s.len() && #[trigger] offset(s, k) == o
}

/// Whether `begin..end` is a span of bytes of `s` that holds whole characters.
pub open spec fn is_span(s: Seq<char>, begin: int, end: int) -> bool {
    begin <= end && is_boundary(s, begin) && is_boundary(s, end)
}

/// The characters of `s` whose encoding is the bytes `begin..end`; empty where
/// that is no span of `s`.
pub open spec fn slice(s: Seq<char>, begin: int, end: int) -> Seq<char> {
    if is_span(s, begin, end) {
        s.subrange(index_of(s, begin), index_of(s, end))
    } else {
        Seq::empty()
    }
}

/// Offsets grow with the index, by at least one byte for each character.
pub proof fn lemma_offset_grows(s: Seq<char>, a: int, b: int)
    requires
        0 <= a <= b,
    ensures
        offset(s, a) + (b - a) <= offset(s, b),
    decreases b - a,
{
    if a < b {
        lemma_offset_grows(s, a, b - 1);
    }
}

/// Two indices with the same offset are the same index.
pub proof fn lemma_offset_injective(s: Seq<char>, a: int, b: int)
    requires
        0 <= a,
        0 <= b,
        offset(s, a) == offset(s, b),
    ensures
        a == b,
{
    if a < b {
        lemma_offset_grows(s, a + 1, b);
    }
    if b < a {
        lemma_offset_grows(s, b + 1, a);
    }
}

/// The index of the character that begins at the offset of character `k` is
/// `k`.
pub proof fn lemma_index_of_offset(s: Seq<char>, k: int)
    requires
        0 <= k <= s.len(),
    ensures
        is_boundary(s, offset(s, k) as int),
        index_of(s, offset(s, k) as int) == k,
{
    let j = index_of(s, offset(s, k) as int);
    lemma_offset_injective(s, j, k);
}

/// The span between the offsets of two characters holds the characters
/// between them.
pub proof fn lemma_slice_offsets(s: Seq<char>, a: int, b: int)
    requires
        0 <= a <= b <= s.len(),
    ensures
        is_span(s, offset(s, a) as int, offset(s, b) as int),
        slice(s, offset(s, a) as int, offset(s, b) as int) == s.subrange(a, b),
{
    lemma_index_of_offset(s, a);
    lemma_index_of_offset(s, b);
    lemma_offset_grows(s, a, b);
}

/// The offsets of a text are those of the text without its first
/// character, after the width of that character.
proof fn lemma_offset_drop_first(s: Seq<char>, k: int)
    requires
        1 <= k <= s.len(),
    ensures
        offset(s, k) == width(s[0]) + offset(s.drop_first(), k - 1),
    decreases k,
{
    if k > 1 {
        lemma_offset_drop_first(s, k - 1);
        assert(s.drop_first()[k - 2] == s[k - 1]);
    } else {
        assert(offset(s, 0) == 0);
        assert(offset(s.drop_first(), 0) == 0);
    }
}

/// `byte_len` is the length of the UTF-8 encoding.
pub proof fn lemma_byte_len_is_encoded_len(s: Seq<char>)
    ensures
        byte_len(s) == encode_utf8(s).len(),
    decreases s.len(),
{
    if s.len() > 0 {
        lemma_byte_len_is_encoded_len(s.drop_first());
        lemma_offset_drop_first(s, s.len() as int);
        char_is_scalar(s[0]);
    }
}

/// The offsets of the first characters of a text are those of the text that
/// holds only them.
pub proof fn lemma_offset_take(s: Seq<char>, n: int, k: int)
    requires
        0 <= k <= n <= s.len(),
    ensures
        offset(s.take(n), k) == offset(s, k),
    decreases k,
{
    if k > 0 {
        lemma_offset_take(s, n, k - 1);
    }
}

/// The encoding of two texts, one after the other, is the encoding of the
/// first and after it that of the second.
pub proof fn lemma_encode_concat(a: Seq<char>, b: Seq<char>)
    ensures
        encode_utf8(a + b) == encode_utf8(a) + encode_utf8(b),
    decreases a.len(),
{
    if a.len() == 0 {
        assert(a + b =~= b);
        assert(encode_utf8(a) + encode_utf8(b) =~= encode_utf8(b));
    } else {
        lemma_encode_concat(a.drop_first(), b);
        assert((a + b).drop_first() =~= a.drop_first() + b);
        assert(encode_utf8(a + b) =~= encode_utf8(a) + encode_utf8(b));
    }
}

/// The encoding of a text is that of its first `k` characters and after it
/// that of the rest, and the first is as long as the offset of character `k`.
pub proof fn lemma_encode_split(s: Seq<char>, k: int)
    requires
        0 <= k <= s.len(),
    ensures
        encode_utf8(s) == encode_utf8(s.take(k)) + encode_utf8(s.skip(k)),
        encode_utf8(s.take(k)).len() == offset(s, k),
{
    assert(s =~= s.take(k) + s.skip(k));
    lemma_encode_concat(s.take(k), s.skip(k));
    lemma_byte_len_is_encoded_len(s.take(k));
    lemma_offset_take(s, k, k);
}

/// Two texts with the same encoding are the same text.
pub proof fn lemma_encode_injective(a: Seq<char>, b: Seq<char>)
    requires
        encode_utf8(a) == encode_utf8(b),
    ensures
        a == b,
{
    encode_utf8_decode_utf8(a);
    encode_utf8_decode_utf8(b);
}

/// The text whose encoding is the bytes of `s` before the offset of
/// character `k` is the first `k` characters of `s`.
pub proof fn lemma_encoded_head(s: Seq<char>, a: Seq<char>, k: int)
    requires
        0 <= k <= s.len(),
        encode_utf8(a) == encode_utf8(s).subrange(0, offset(s, k) as int),
    ensures
        a == s.take(k),
{
    lemma_encode_split(s, k);
    assert(encode_utf8(s).subrange(0, offset(s, k) as int) =~= encode_utf8(s.take(k)));
    lemma_encode_injective(a, s.take(k));
}

/// The text whose encoding is the bytes of `s` from the offset of character
/// `k` on is the characters of `s` from `k` on.
pub proof fn lemma_encoded_tail(s: Seq<char>, b: Seq<char>, k: int)
    requires
        0 <= k <= s.len(),
        encode_utf8(b) == encode_utf8(s).subrange(
            offset(s, k) as int,
            encode_utf8(s).len() as int,
        ),
    ensures
        b == s.skip(k),
{
    lemma_encode_split(s, k);
    assert(encode_utf8(s).subrange(offset(s, k) as int, encode_utf8(s).len() as int)
        =~= encode_utf8(s.skip(k)));
    lemma_encode_injective(b, s.skip(k));
}

/// The boundaries of a text are the character boundaries of its encoding.
pub proof fn lemma_boundary_is_char_boundary(s: Seq<char>, o: int)
    ensures
        is_boundary(s, o) <==> is_char_boundary(encode_utf8(s), o),
    decreases s.len(),
{
    let bytes = encode_utf8(s);
    encode_utf8_valid_utf8(s);
    lemma_byte_len_is_encoded_len(s);
    if o == 0 {
        assert(offset(s, 0) == 0);
    } else if s.len() == 0 {
        assert forall|k: int| 0 <= k <= s.len() implies #[trigger] offset(s, k) != o by {
            assert(offset(s, 0) == 0);
        }
    } else {
        let w = width(s[0]);
        let rest = s.drop_first();
        encode_utf8_first_scalar(s);
        char_is_scalar(s[0]);
        assert(pop_first_scalar(bytes) =~= encode_utf8(rest));
        lemma_boundary_is_char_boundary(rest, o - w);
        if is_boundary(s, o) {
            let k = choose|k: int| 0 <= k <= s.len() && #[trigger] offset(s, k) == o;
            assert(k >= 1) by {
                assert(offset(s, 0) == 0);
            }
            lemma_offset_drop_first(s, k);
            assert(offset(rest, k - 1) == o - w);
            lemma_offset_grows(s, k, s.len() as int);
        }
        if is_boundary(rest, o - w) {
            let k = choose|k: int| 0 <= k <= rest.len() && #[trigger] offset(rest, k) == o - w;
            lemma_offset_drop_first(s, k + 1);
            assert(offset(s, k + 1) == o);
            lemma_offset_grows(s, k + 1, s.len() as int);
        }
    }
}

/// The number of bytes in the UTF-8 encoding of `c`.
pub fn char_width(c: char) -> (w: usize)
    ensures
        w == width(c),
{
    let v: u32 = c as u32;
    if v < 0x80 {
        1
    } else if v < 0x800 {
        2
    } else if v < 0x10000 {
        3
    } else {
        4
    }
}

/// The part of `text` between the byte offsets `begin` and `end`; empty where
/// they name no span of whole characters.
pub fn substring<'a>(text: &'a str, begin: usize, end: usize) -> (r: &'a str)
    ensures
        r@ == slice(text@, begin as int, end as int),
{
    let ghost s = text@;
    proof {
        lemma_boundary_is_char_boundary(s, begin as int);
        lemma_boundary_is_char_boundary(s, end as int);
        reveal_strlit("");
        assert(""@ =~= Seq::<char>::empty());
    }
    if begin <= end && text.is_char_boundary(begin) && text.is_char_boundary(end) {
        let ghost kb = index_of(s, begin as int);
        let ghost ke = index_of(s, end as int);
        proof {
            if ke < kb {
                lemma_offset_grows(s, ke + 1, kb);
            }
        }
        let (head, _) = text.split_at(end);
        proof {
            lemma_encoded_head(s, head@, ke);
            lemma_offset_take(s, ke, kb);
            lemma_boundary_is_char_boundary(s.take(ke), begin as int);
        }
        let (_, mid) = head.split_at(begin);
        proof {
            lemma_encoded_tail(head@, mid@, kb);
            assert(s.take(ke).skip(kb) =~= s.subrange(kb, ke));
        }
        mid
    } else {
        ""
    }
}

/// The characters of `text`, and the byte offset of each of them followed by
/// the byte length of the text.
pub fn decode(text: &str) -> (r: (Vec<char>, Vec<usize>))
    ensures
        r.0@ == text@,
        r.1@.len() == text@.len() + 1,
        forall|k: int| 0 <= k <= text@.len() ==> r.1@[k] == #[trigger] offset(text@, k),
{
    proof {
        lemma_byte_len_is_encoded_len(text@);
    }
    let total: usize = text.as_bytes().len();
    let mut chars: Vec<char> = Vec::with_capacity(total);
    let mut offsets: Vec<usize> = Vec::with_capacity(total);
    let mut at: usize = 0;
    offsets.push(at);
    for c in it: text.chars()
        invariant
            total == byte_len(text@),
            it.seq() == text@,
            chars@ == text@.take(it.index()),
            offsets@.len() == it.index() + 1,
            at == offset(text@, it.index()),
            forall|k: int| 0 <= k <= it.index() ==> offsets@[k] == #[trigger] offset(text@, k),
    {
        proof {
            lemma_offset_grows(text@, it.index() + 1, text@.len() as int);
        }
        at = at + char_width(c);
        chars.push(c);
        offsets.push(at);
        assert(chars@ =~= text@.take(it.index() + 1));
    }
    assert(chars@ =~= text@);
    (chars, offsets)
}

} // verus!
