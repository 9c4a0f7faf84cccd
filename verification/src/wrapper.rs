//! The cursor over the characters of a text, and the records of open lists.
use vstd::prelude::*;
use crate::position::Position;
use crate::text::{decode, substring, offset, byte_len, lemma_offset_grows, lemma_slice_offsets};
use crate::token::TokenType;

verus! {

/// The first index at or after `from` at which `s` holds `a` or `b`, or the
/// length of `s` where there is none.
pub open spec fn first_of(s: Seq<char>, from: int, a: char, b: char) -> int
    decreases s.len() - from,
{
    if from < 0 || from >= s.len() {
        s.len() as int
    } else if s[from] == a || s[from] == b {
        from
    } else {
        first_of(s, from + 1, a, b)
    }
}

/// The first index at or after `from` at which `s` does not hold `a`, or the
/// length of `s` where there is none.
pub open spec fn run_end(s: Seq<char>, from: int, a: char) -> int
    decreases s.len() - from,
{
    if from < 0 || from >= s.len() {
        s.len() as int
    } else if s[from] != a {
        from
    } else {
        run_end(s, from + 1, a)
    }
}

/// `first_of` lies between `from` and the end, nothing before it is `a` or
/// `b`, and what stands at it is.
pub proof fn lemma_first_of(s: Seq<char>, from: int, a: char, b: char)
    requires
        0 <= from <= s.len(),
    ensures
        from <= first_of(s, from, a, b) <= s.len(),
        forall|j: int| from <= j < first_of(s, from, a, b) ==> s[j] != a && s[j] != b,
        first_of(s, from, a, b) < s.len() ==> s[first_of(s, from, a, b)] == a || s[first_of(
            s,
            from,
            a,
            b,
        )] == b,
    decreases s.len() - from,
{
    if from < s.len() && s[from] != a && s[from] != b {
        lemma_first_of(s, from + 1, a, b);
    }
}

/// A cursor over the characters of a text that knows the byte offset of each
/// character.
///
/// Its position counts bytes in `index` and characters in `line_offset`; the
/// cursor does not split the text into lines, so `line` stays 0.
#[derive(Debug)]
pub struct CharsWithPosition {
    pos: Position,
    chars: Vec<char>,
    offsets: Vec<usize>,
}

impl CharsWithPosition {
    /// The characters of the text under the cursor.
    pub closed spec fn text(&self) -> Seq<char> {
        self.chars@
    }

    /// The number of characters consumed: the index of the next one.
    pub closed spec fn cur(&self) -> int {
        self.pos.line_offset as int
    }

    /// The cursor stands within its text and its table of offsets is that of
    /// the text.
    pub closed spec fn wf(&self) -> bool {
        &&& self.pos.line_offset <= self.chars@.len()
        &&& self.pos.line == 0
        &&& self.offsets@.len() == self.chars@.len() + 1
        &&& forall|k: int|
            0 <= k <= self.chars@.len() ==> self.offsets@[k] == #[trigger] offset(self.chars@, k)
        &&& self.pos.index == self.offsets@[self.pos.line_offset as int]
    }

    /// The pair that `next` hands out for character `k`: its byte offset and
    /// the character.
    pub open spec fn item(&self, k: int) -> (usize, char) {
        (offset(self.text(), k) as usize, self.text()[k])
    }

    /// A well-formed cursor stands within its text, and every offset of the
    /// text fits a `usize`.
    pub proof fn lemma_bounds(&self)
        requires
            self.wf(),
        ensures
            0 <= self.cur() <= self.text().len(),
            self.text().len() <= byte_len(self.text()) <= usize::MAX,
            forall|k: int|
                0 <= k <= self.text().len() ==> #[trigger] offset(self.text(), k) <= byte_len(
                    self.text(),
                ),
    {
        let s = self.chars@;
        lemma_offset_grows(s, 0, s.len() as int);
        assert forall|k: int| 0 <= k <= s.len() implies #[trigger] offset(s, k) <= byte_len(
            s,
        ) by {
            lemma_offset_grows(s, k, s.len() as int);
        }
        assert(self.offsets@[s.len() as int] == offset(s, s.len() as int));
    }

    /// A cursor at the start of `text`.
    pub fn new(text: &str) -> (r: CharsWithPosition)
        ensures
            r.wf(),
            r.text() == text@,
            r.cur() == 0,
    {
        let (chars, offsets) = decode(text);
        assert(offsets@[0] == offset(chars@, 0));
        CharsWithPosition { pos: Position::new(), chars, offsets }
    }

    /// The position of the cursor: bytes consumed, line 0, characters
    /// consumed.
    pub fn position(&self) -> (p: Position)
        requires
            self.wf(),
        ensures
            p == (Position {
                index: offset(self.text(), self.cur()) as usize,
                line: 0,
                line_offset: self.cur() as usize,
            }),
    {
        self.pos
    }

    /// The number of characters of the text.
    pub fn len(&self) -> (n: usize)
        requires
            self.wf(),
        ensures
            n == self.text().len(),
            0 <= self.cur() <= n,
    {
        self.chars.len()
    }

    /// The number of characters consumed.
    pub fn consumed(&self) -> (n: usize)
        requires
            self.wf(),
        ensures
            n == self.cur(),
            n <= self.text().len() <= usize::MAX,
    {
        proof {
            self.lemma_bounds();
        }
        self.pos.line_offset
    }

    /// Character `k` of the text, if it has one.
    pub fn char_at(&self, k: usize) -> (r: Option<char>)
        requires
            self.wf(),
        ensures
            r == (if k < self.text().len() {
                Some(self.text()[k as int])
            } else {
                None
            }),
    {
        if k < self.chars.len() {
            Some(self.chars[k])
        } else {
            None
        }
    }

    /// Whether character `k` of the text exists and is `c`.
    pub fn is_at(&self, k: usize, c: char) -> (r: bool)
        requires
            self.wf(),
        ensures
            r == (k < self.text().len() && self.text()[k as int] == c),
    {
        k < self.chars.len() && self.chars[k] == c
    }

    /// The byte offset at which character `k` begins; for `k` the length of
    /// the text, the byte length of the text.
    pub fn offset_at(&self, k: usize) -> (o: usize)
        requires
            self.wf(),
            k <= self.text().len(),
        ensures
            o == offset(self.text(), k as int),
    {
        self.offsets[k]
    }

    /// Consumes the next character and returns it with its byte offset; at
    /// the end of the text, returns `None` and stays.
    pub fn next(&mut self) -> (r: Option<(usize, char)>)
        requires
            old(self).wf(),
        ensures
            final(self).wf(),
            final(self).text() == old(self).text(),
            old(self).cur() < old(self).text().len() ==> r == Some(old(self).item(old(self).cur()))
                && final(self).cur() == old(self).cur() + 1,
            old(self).cur() >= old(self).text().len() ==> r.is_none() && final(self).cur() == old(
                self,
            ).cur(),
    {
        let k = self.pos.line_offset;
        if k < self.chars.len() {
            self.pos.set_index(self.offsets[k + 1]);
            self.pos.set_line_offset(k + 1);
            Some((self.offsets[k], self.chars[k]))
        } else {
            None
        }
    }

    /// The next character with its byte offset, without consuming it.
    pub fn peek(&self) -> (r: Option<(usize, char)>)
        requires
            self.wf(),
        ensures
            self.cur() < self.text().len() ==> r == Some(self.item(self.cur())),
            self.cur() >= self.text().len() ==> r.is_none(),
    {
        let k = self.pos.line_offset;
        if k < self.chars.len() {
            Some((self.offsets[k], self.chars[k]))
        } else {
            None
        }
    }

    /// Skips `n` characters, then consumes one more and returns it with its
    /// byte offset; where the text ends first, consumes what is left and
    /// returns `None`.
    pub fn nth(&mut self, n: usize) -> (r: Option<(usize, char)>)
        requires
            old(self).wf(),
        ensures
            final(self).wf(),
            final(self).text() == old(self).text(),
            old(self).cur() + n < old(self).text().len() ==> r == Some(
                old(self).item(old(self).cur() + n),
            ) && final(self).cur() == old(self).cur() + n + 1,
            old(self).cur() + n >= old(self).text().len() ==> r.is_none() && final(self).cur()
                == old(self).text().len(),
    {
        let k = self.pos.line_offset;
        let len = self.chars.len();
        if n < len - k {
            self.pos.set_index(self.offsets[k + n + 1]);
            self.pos.set_line_offset(k + n + 1);
            Some((self.offsets[k + n], self.chars[k + n]))
        } else {
            self.pos.set_index(self.offsets[len]);
            self.pos.set_line_offset(len);
            None
        }
    }

    /// Moves the cursor forward so that `k` characters are consumed.
    pub fn advance_to(&mut self, k: usize)
        requires
            old(self).wf(),
            old(self).cur() <= k <= old(self).text().len(),
        ensures
            final(self).wf(),
            final(self).text() == old(self).text(),
            final(self).cur() == k,
    {
        self.pos.set_index(self.offsets[k]);
        self.pos.set_line_offset(k);
    }

    /// The byte offset just past the last consumed character.
    pub fn index(&self) -> (o: usize)
        requires
            self.wf(),
        ensures
            o == offset(self.text(), self.cur()),
    {
        self.pos.index
    }

    /// The byte offset of the last consumed character; 0 where none is
    /// consumed yet.
    pub fn last(&self) -> (o: usize)
        requires
            self.wf(),
        ensures
            o == offset(self.text(), self.cur() - 1),
    {
        let k = self.pos.line_offset;
        if k == 0 {
            0
        } else {
            self.offsets[k - 1]
        }
    }

    /// The characters `a..b` of `text`, which is the text under the cursor.
    pub fn part<'a>(&self, text: &'a str, a: usize, b: usize) -> (r: &'a str)
        requires
            self.wf(),
            self.text() == text@,
            a <= b <= self.text().len(),
        ensures
            r@ == text@.subrange(a as int, b as int),
    {
        proof {
            self.lemma_bounds();
            lemma_slice_offsets(text@, a as int, b as int);
        }
        substring(text, self.offsets[a], self.offsets[b])
    }

    /// The first index at or after `from` that holds `a` or `b`, or the
    /// length of the text where there is none.
    pub fn find(&self, from: usize, a: char, b: char) -> (r: usize)
        requires
            self.wf(),
            from <= self.text().len(),
        ensures
            r == first_of(self.text(), from as int, a, b),
            from <= r <= self.text().len(),
    {
        let mut j: usize = from;
        while j < self.chars.len() && self.chars[j] != a && self.chars[j] != b
            invariant
                from <= j <= self.chars@.len(),
                first_of(self.chars@, from as int, a, b) == first_of(self.chars@, j as int, a, b),
            decreases self.chars@.len() - j,
        {
            j = j + 1;
        }
        j
    }

    /// The first index at or after `from` that does not hold `a`, or the
    /// length of the text where there is none.
    pub fn skip_run(&self, from: usize, a: char) -> (r: usize)
        requires
            self.wf(),
            from <= self.text().len(),
        ensures
            r == run_end(self.text(), from as int, a),
            from <= r <= self.text().len(),
    {
        let mut j: usize = from;
        while j < self.chars.len() && self.chars[j] == a
            invariant
                from <= j <= self.chars@.len(),
                run_end(self.chars@, from as int, a) == run_end(self.chars@, j as int, a),
            decreases self.chars@.len() - j,
        {
            j = j + 1;
        }
        j
    }
}

/// An open list: the kind of token that closes it, and its indentation.
#[derive(Debug, PartialEq, Eq, Clone, Copy, Structural)]
pub struct List(pub TokenType, pub usize);

/// A kind of list: the kinds of token that open and close it.
#[derive(Debug, PartialEq, Eq, Clone, Copy, Structural)]
pub struct ListType(pub TokenType, pub TokenType);

} // verus!
