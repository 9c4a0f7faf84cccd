//! The construct matchers: one routine for each construct of the markup.
//!
//! A matcher is called when the driver has consumed the character that may
//! begin its construct. It consumes what belongs to the construct and appends
//! the tokens for it. What each matcher does is given by a spec function of
//! the same name over the characters of the text `s`, the tokens emitted so
//! far and the number `p` of characters consumed, so that the character
//! that begins the construct is `s[p - 1]`. The `text` that a matcher takes
//! is the text under the cursor.
use vstd::prelude::*;
use crate::token::{Token, TokenType, span, all_sound, lemma_span_sound};
use crate::wrapper::{CharsWithPosition, first_of, run_end, lemma_first_of};
use crate::emphasis_state::{State, Tag};
use crate::table::Alignment;
use crate::table;
use crate::wrapper::{List, ListType};
use crate::syntax::{
    Language, highlight, rules_for, find_language, highlight_language, highlight_generic,
};
use crate::pairing::{
    Open, pushes, passes, restyles, quotes, encloses, fences, passes_before, restacks, opens_item,
    ends_item, extends, after, added, agrees, styled, kinds, proper, proper_type, lemma_pushes,
    lemma_scan_concat, lemma_scan_insert,
};

verus! {

/// What a matcher leaves behind: the tokens emitted so far and the number of
/// characters consumed.
pub struct Lexed {
    pub tokens: Seq<Token>,
    pub pos: int,
}

/// What a matcher that toggles emphasis leaves behind: the tokens emitted so
/// far, the number of characters consumed and the state of emphasis.
pub struct Styled {
    pub tokens: Seq<Token>,
    pub pos: int,
    pub emphasis: State,
}

/// Whether character `i` of `s` is the first of its line.
pub open spec fn line_start(s: Seq<char>, i: int) -> bool {
    i == 0 || (0 < i <= s.len() && s[i - 1] == '\n')
}

/// Whether `s` holds `pat` at index `at`.
pub open spec fn starts_with_at(s: Seq<char>, at: int, pat: Seq<char>) -> bool {
    0 <= at && at + pat.len() <= s.len() && s.subrange(at, at + pat.len()) == pat
}

/// Appends the token of kind `id` over characters `b..e` of the text.
pub fn emit(tokens: &mut Vec<Token>, iter: &CharsWithPosition, id: TokenType, b: usize, e: usize)
    requires
        iter.wf(),
        b <= e <= iter.text().len(),
    ensures
        final(tokens)@ == old(tokens)@.push(span(id, iter.text(), b as int, e as int)),
        all_sound(iter.text(), old(tokens)@) ==> all_sound(iter.text(), final(tokens)@),
        old(tokens)@.len() <= final(tokens)@.len(),
        pushes(old(tokens)@, final(tokens)@, id),
{
    proof {
        iter.lemma_bounds();
        lemma_span_sound(id, iter.text(), b as int, e as int);
        lemma_pushes(tokens@, span(id, iter.text(), b as int, e as int));
    }
    tokens.push(Token::new(id, iter.offset_at(b), iter.offset_at(e)));
}

/// Inserts the token of kind `id` over characters `b..e` of the text before
/// the token of index `at`.
pub fn insert_span(
    tokens: &mut Vec<Token>,
    iter: &CharsWithPosition,
    at: usize,
    id: TokenType,
    b: usize,
    e: usize,
)
    requires
        iter.wf(),
        b <= e <= iter.text().len(),
        at <= old(tokens)@.len(),
    ensures
        final(tokens)@ == old(tokens)@.insert(at as int, span(id, iter.text(), b as int, e as int)),
        all_sound(iter.text(), old(tokens)@) ==> all_sound(iter.text(), final(tokens)@),
        old(tokens)@.len() <= final(tokens)@.len(),
{
    proof {
        iter.lemma_bounds();
        lemma_span_sound(id, iter.text(), b as int, e as int);
    }
    tokens.insert(at, Token::new(id, iter.offset_at(b), iter.offset_at(e)));
}

/// Whether character `i` of the text is the first of its line.
pub fn at_line_start(iter: &CharsWithPosition, i: usize) -> (r: bool)
    requires
        iter.wf(),
        i <= iter.text().len(),
    ensures
        r == line_start(iter.text(), i as int),
{
    i == 0 || iter.is_at(i - 1, '\n')
}

/// Whether the text holds `pat` at index `at`.
pub fn holds_at(iter: &CharsWithPosition, at: usize, pat: &str) -> (r: bool)
    requires
        iter.wf(),
    ensures
        r == starts_with_at(iter.text(), at as int, pat@),
{
    let m = pat.unicode_len();
    let n = iter.len();
    if at > n || m > n - at {
        return false;
    }
    let mut j: usize = 0;
    while j < m
        invariant
            iter.wf(),
            n == iter.text().len(),
            m == pat@.len(),
            at + m <= n,
            j <= m,
            forall|x: int| 0 <= x < j ==> iter.text()[at + x] == pat@[x],
        decreases m - j,
    {
        if !iter.is_at(at + j, pat.get_char(j)) {
            assert(iter.text().subrange(at as int, at + m)[j as int] != pat@[j as int]);
            return false;
        }
        j = j + 1;
    }
    assert(iter.text().subrange(at as int, at + m) =~= pat@);
    true
}

/// Consumes `query` where the text holds it at the cursor and says whether it
/// did; consumes nothing otherwise.
pub fn match_string(query: &str, iter: &mut CharsWithPosition) -> (r: bool)
    requires
        old(iter).wf(),
    ensures
        final(iter).wf(),
        final(iter).text() == old(iter).text(),
        r == starts_with_at(old(iter).text(), old(iter).cur(), query@),
        final(iter).cur() == (if r {
            old(iter).cur() + query@.len()
        } else {
            old(iter).cur()
        }),
{
    let p = iter.consumed();
    if holds_at(iter, p, query) {
        iter.advance_to(p + query.unicode_len());
        true
    } else {
        false
    }
}

/// A heading: a run of `#` at the start of a line, then a space.
///
/// Of one to six `#` it is a `Heading`, of more an `Error`, followed by the
/// `Space`. A run followed by another character is `Text` together with that
/// character, a run that ends the text is `Text`, and a `#` that is not at the
/// start of a line is `Text` by itself.
pub open spec fn heading(s: Seq<char>, toks: Seq<Token>, p: int) -> Lexed {
    let i = p - 1;
    let r = run_end(s, p, '#');
    if !line_start(s, i) {
        Lexed { tokens: toks.push(span(TokenType::Text, s, i, p)), pos: p }
    } else if r < s.len() && s[r] == ' ' {
        let id = if r - i > 6 {
            TokenType::Error
        } else {
            TokenType::Heading
        };
        Lexed {
            tokens: toks.push(span(id, s, i, r)).push(span(TokenType::Space, s, r, r + 1)),
            pos: r + 1,
        }
    } else if r < s.len() {
        Lexed { tokens: toks.push(span(TokenType::Text, s, i, r + 1)), pos: r + 1 }
    } else {
        Lexed { tokens: toks.push(span(TokenType::Text, s, i, r)), pos: r }
    }
}

/// Matches a heading; `c` is the `#` just consumed.
pub fn match_heading(text: &String, tokens: &mut Vec<Token>, iter: &mut CharsWithPosition, c: (usize, char))
    requires
        old(iter).wf(),
        text@ == old(iter).text(),
        old(iter).cur() >= 1,
        c == old(iter).item(old(iter).cur() - 1),
    ensures
        final(iter).wf(),
        final(iter).text() == old(iter).text(),
        final(tokens)@ == heading(old(iter).text(), old(tokens)@, old(iter).cur()).tokens,
        final(iter).cur() == heading(old(iter).text(), old(tokens)@, old(iter).cur()).pos,
        old(iter).cur() <= final(iter).cur(),
        all_sound(old(iter).text(), old(tokens)@) ==> all_sound(old(iter).text(), final(tokens)@),
        old(tokens)@.len() <= final(tokens)@.len(),
        passes(old(tokens)@, final(tokens)@),
{
    let p = iter.consumed();
    let i = p - 1;
    let n = iter.len();
    if !at_line_start(iter, i) {
        emit(tokens, iter, TokenType::Text, i, p);
        return ;
    }
    let r = iter.skip_run(p, '#');
    if iter.is_at(r, ' ') {
        if r - i > 6 {
            emit(tokens, iter, TokenType::Error, i, r);
        } else {
            emit(tokens, iter, TokenType::Heading, i, r);
        }
        emit(tokens, iter, TokenType::Space, r, r + 1);
        iter.advance_to(r + 1);
    } else if r < n {
        emit(tokens, iter, TokenType::Text, i, r + 1);
        iter.advance_to(r + 1);
    } else {
        emit(tokens, iter, TokenType::Text, i, r);
        iter.advance_to(r);
    }
}

/// A checkbutton: `- [ ] ` is an unchecked one and `- [x] ` a checked one,
/// over the five characters before the last space. Any other `-` is `Text`.
pub open spec fn checkbutton(s: Seq<char>, toks: Seq<Token>, p: int) -> Lexed {
    let i = p - 1;
    if starts_with_at(s, p, " [ ] "@) {
        Lexed { tokens: toks.push(span(TokenType::Checkbutton(false), s, i, i + 5)), pos: i + 5 }
    } else if starts_with_at(s, p, " [x] "@) {
        Lexed { tokens: toks.push(span(TokenType::Checkbutton(true), s, i, i + 5)), pos: i + 5 }
    } else {
        Lexed { tokens: toks.push(span(TokenType::Text, s, i, p)), pos: p }
    }
}

/// Matches a checkbutton; `c` is the `-` just consumed.
pub fn match_checkbutton(text: &String, tokens: &mut Vec<Token>, iter: &mut CharsWithPosition, c: (usize, char))
    requires
        old(iter).wf(),
        text@ == old(iter).text(),
        old(iter).cur() >= 1,
        c == old(iter).item(old(iter).cur() - 1),
    ensures
        final(iter).wf(),
        final(iter).text() == old(iter).text(),
        final(tokens)@ == checkbutton(old(iter).text(), old(tokens)@, old(iter).cur()).tokens,
        final(iter).cur() == checkbutton(old(iter).text(), old(tokens)@, old(iter).cur()).pos,
        old(iter).cur() <= final(iter).cur(),
        all_sound(old(iter).text(), old(tokens)@) ==> all_sound(old(iter).text(), final(tokens)@),
        old(tokens)@.len() <= final(tokens)@.len(),
        passes(old(tokens)@, final(tokens)@),
{
    let p = iter.consumed();
    let i = p - 1;
    proof {
        reveal_strlit(" [ ] ");
        reveal_strlit(" [x] ");
    }
    if holds_at(iter, p, " [ ] ") {
        emit(tokens, iter, TokenType::Checkbutton(false), i, i + 5);
        iter.advance_to(i + 5);
    } else if holds_at(iter, p, " [x] ") {
        emit(tokens, iter, TokenType::Checkbutton(true), i, i + 5);
        iter.advance_to(i + 5);
    } else {
        emit(tokens, iter, TokenType::Text, i, p);
    }
}

/// The target of an image or a link, after the `]` at index `j` that closes
/// its text: `(`, then the address up to `)`.
///
/// `i` is where the construct begins and `tb` where its text begins. Where
/// the address is closed the two tokens follow, the address first for a
/// link. An address that a newline or the end of the text cuts short is an
/// `Error` up to there, and without the `(` the construct is `Text` up to
/// and with the `]`.
pub open spec fn target(
    s: Seq<char>,
    toks: Seq<Token>,
    i: int,
    tb: int,
    j: int,
    link: bool,
) -> Lexed {
    let k = first_of(s, j + 2, ')', '\n');
    if j + 1 < s.len() && s[j + 1] == '(' {
        if k >= s.len() {
            Lexed { tokens: toks.push(span(TokenType::Error, s, i, s.len() as int)), pos: s.len() as int }
        } else if s[k] == '\n' {
            Lexed {
                tokens: toks.push(span(TokenType::Error, s, i, k)).push(
                    span(TokenType::Newline, s, k, k + 1),
                ),
                pos: k + 1,
            }
        } else if link {
            Lexed {
                tokens: toks.push(span(TokenType::LinkHref, s, j + 2, k)).push(
                    span(TokenType::LinkText, s, tb, j),
                ),
                pos: k + 1,
            }
        } else {
            Lexed {
                tokens: toks.push(span(TokenType::ImageAlt, s, tb, j)).push(
                    span(TokenType::ImageSrc, s, j + 2, k),
                ),
                pos: k + 1,
            }
        }
    } else {
        Lexed { tokens: toks.push(span(TokenType::Text, s, i, j + 1)), pos: j + 1 }
    }
}

/// The text of an image or a link from index `tb`, up to `]`, and its
/// target. A text that a newline cuts short is an `Error` followed by the
/// `Newline`, and one that the end of the text cuts short is an `Error`.
pub open spec fn bracketed(s: Seq<char>, toks: Seq<Token>, i: int, tb: int, link: bool) -> Lexed {
    let j = first_of(s, tb, ']', '\n');
    if j >= s.len() {
        Lexed { tokens: toks.push(span(TokenType::Error, s, i, s.len() as int)), pos: s.len() as int }
    } else if s[j] == '\n' {
        Lexed {
            tokens: toks.push(span(TokenType::Error, s, i, j)).push(
                span(TokenType::Newline, s, j, j + 1),
            ),
            pos: j + 1,
        }
    } else {
        target(s, toks, i, tb, j, link)
    }
}

/// An image: `![alt](src)` is an `ImageAlt` and an `ImageSrc`. A `!` that no
/// `[` follows is `Text`.
pub open spec fn image(s: Seq<char>, toks: Seq<Token>, p: int) -> Lexed {
    if p < s.len() && s[p] == '[' {
        bracketed(s, toks, p - 1, p + 1, false)
    } else {
        Lexed { tokens: toks.push(span(TokenType::Text, s, p - 1, p)), pos: p }
    }
}

/// A link: `[text](href)` is a `LinkHref` and then a `LinkText`.
pub open spec fn link(s: Seq<char>, toks: Seq<Token>, p: int) -> Lexed {
    bracketed(s, toks, p - 1, p, true)
}

/// Matches the text of an image or a link from index `tb`, and its target;
/// `i` is where the construct begins.
fn match_bracketed(
    tokens: &mut Vec<Token>,
    iter: &mut CharsWithPosition,
    i: usize,
    tb: usize,
    link: bool,
)
    requires
        old(iter).wf(),
        i < tb,
        old(iter).cur() <= tb <= old(iter).text().len(),
    ensures
        final(iter).wf(),
        final(iter).text() == old(iter).text(),
        final(tokens)@ == bracketed(old(iter).text(), old(tokens)@, i as int, tb as int, link).tokens,
        final(iter).cur() == bracketed(old(iter).text(), old(tokens)@, i as int, tb as int, link).pos,
        old(iter).cur() <= final(iter).cur(),
        all_sound(old(iter).text(), old(tokens)@) ==> all_sound(old(iter).text(), final(tokens)@),
        old(tokens)@.len() <= final(tokens)@.len(),
        passes(old(tokens)@, final(tokens)@),
{
    let n = iter.len();
    let j = iter.find(tb, ']', '\n');
    proof {
        lemma_first_of(iter.text(), tb as int, ']', '\n');
    }
    if j >= n {
        emit(tokens, iter, TokenType::Error, i, n);
        iter.advance_to(n);
    } else if iter.is_at(j, '\n') {
        emit(tokens, iter, TokenType::Error, i, j);
        emit(tokens, iter, TokenType::Newline, j, j + 1);
        iter.advance_to(j + 1);
    } else if iter.is_at(j + 1, '(') {
        let k = iter.find(j + 2, ')', '\n');
        proof {
            lemma_first_of(iter.text(), j + 2, ')', '\n');
        }
        if k >= n {
            emit(tokens, iter, TokenType::Error, i, n);
            iter.advance_to(n);
        } else if iter.is_at(k, '\n') {
            emit(tokens, iter, TokenType::Error, i, k);
            emit(tokens, iter, TokenType::Newline, k, k + 1);
            iter.advance_to(k + 1);
        } else if link {
            emit(tokens, iter, TokenType::LinkHref, j + 2, k);
            emit(tokens, iter, TokenType::LinkText, tb, j);
            iter.advance_to(k + 1);
        } else {
            emit(tokens, iter, TokenType::ImageAlt, tb, j);
            emit(tokens, iter, TokenType::ImageSrc, j + 2, k);
            iter.advance_to(k + 1);
        }
    } else {
        emit(tokens, iter, TokenType::Text, i, j + 1);
        iter.advance_to(j + 1);
    }
}

/// Matches an image; `c` is the `!` just consumed.
pub fn match_image(text: &String, tokens: &mut Vec<Token>, iter: &mut CharsWithPosition, c: (usize, char))
    requires
        old(iter).wf(),
        text@ == old(iter).text(),
        old(iter).cur() >= 1,
        c == old(iter).item(old(iter).cur() - 1),
    ensures
        final(iter).wf(),
        final(iter).text() == old(iter).text(),
        final(tokens)@ == image(old(iter).text(), old(tokens)@, old(iter).cur()).tokens,
        final(iter).cur() == image(old(iter).text(), old(tokens)@, old(iter).cur()).pos,
        old(iter).cur() <= final(iter).cur(),
        all_sound(old(iter).text(), old(tokens)@) ==> all_sound(old(iter).text(), final(tokens)@),
        old(tokens)@.len() <= final(tokens)@.len(),
        passes(old(tokens)@, final(tokens)@),
{
    let p = iter.consumed();
    if iter.is_at(p, '[') {
        match_bracketed(tokens, iter, p - 1, p + 1, false);
    } else {
        emit(tokens, iter, TokenType::Text, p - 1, p);
    }
}

/// Matches a link; `c` is the `[` just consumed.
pub fn match_link(text: &String, tokens: &mut Vec<Token>, iter: &mut CharsWithPosition, c: (usize, char))
    requires
        old(iter).wf(),
        text@ == old(iter).text(),
        old(iter).cur() >= 1,
        c == old(iter).item(old(iter).cur() - 1),
    ensures
        final(iter).wf(),
        final(iter).text() == old(iter).text(),
        final(tokens)@ == link(old(iter).text(), old(tokens)@, old(iter).cur()).tokens,
        final(iter).cur() == link(old(iter).text(), old(tokens)@, old(iter).cur()).pos,
        old(iter).cur() <= final(iter).cur(),
        all_sound(old(iter).text(), old(tokens)@) ==> all_sound(old(iter).text(), final(tokens)@),
        old(tokens)@.len() <= final(tokens)@.len(),
        passes(old(tokens)@, final(tokens)@),
{
    let p = iter.consumed();
    match_bracketed(tokens, iter, p - 1, p, true);
}

/// A horizontal rule: two or three `-` at the start of a line, then a
/// newline, which the token takes in.
///
/// `j` is the index after the dashes, of which at most two are read after
/// the first. Dashes before a newline that are not at the start of a line
/// are `Text` followed by the `Newline`; dashes before another character are
/// `Text` together with that character; dashes that end the text are `Text`;
/// and a single dash is `Text`.
pub open spec fn horizontalrule(s: Seq<char>, toks: Seq<Token>, p: int) -> Lexed {
    let i = p - 1;
    let r = run_end(s, p, '-');
    let j = if r < p + 2 {
        r
    } else {
        p + 2
    };
    if j - i < 2 {
        Lexed { tokens: toks.push(span(TokenType::Text, s, i, p)), pos: p }
    } else if j < s.len() && s[j] == '\n' {
        if line_start(s, i) {
            Lexed { tokens: toks.push(span(TokenType::HorizontalRule, s, i, j + 1)), pos: j + 1 }
        } else {
            Lexed {
                tokens: toks.push(span(TokenType::Text, s, i, j)).push(
                    span(TokenType::Newline, s, j, j + 1),
                ),
                pos: j + 1,
            }
        }
    } else if j < s.len() {
        Lexed { tokens: toks.push(span(TokenType::Text, s, i, j + 1)), pos: j + 1 }
    } else {
        Lexed { tokens: toks.push(span(TokenType::Text, s, i, j)), pos: j }
    }
}

/// Matches a horizontal rule; `c` is the first `-`, just consumed.
pub fn match_horizontalrule(text: &String, tokens: &mut Vec<Token>, iter: &mut CharsWithPosition, c: (usize, char))
    requires
        old(iter).wf(),
        text@ == old(iter).text(),
        old(iter).cur() >= 1,
        c == old(iter).item(old(iter).cur() - 1),
    ensures
        final(iter).wf(),
        final(iter).text() == old(iter).text(),
        final(tokens)@ == horizontalrule(old(iter).text(), old(tokens)@, old(iter).cur()).tokens,
        final(iter).cur() == horizontalrule(old(iter).text(), old(tokens)@, old(iter).cur()).pos,
        old(iter).cur() <= final(iter).cur(),
        all_sound(old(iter).text(), old(tokens)@) ==> all_sound(old(iter).text(), final(tokens)@),
        old(tokens)@.len() <= final(tokens)@.len(),
        passes(old(tokens)@, final(tokens)@),
{
    let p = iter.consumed();
    let i = p - 1;
    let n = iter.len();
    let r = iter.skip_run(p, '-');
    let j = if r - p < 2 {
        r
    } else {
        p + 2
    };
    if j - i < 2 {
        emit(tokens, iter, TokenType::Text, i, p);
    } else if iter.is_at(j, '\n') {
        if at_line_start(iter, i) {
            emit(tokens, iter, TokenType::HorizontalRule, i, j + 1);
        } else {
            emit(tokens, iter, TokenType::Text, i, j);
            emit(tokens, iter, TokenType::Newline, j, j + 1);
        }
        iter.advance_to(j + 1);
    } else if j < n {
        emit(tokens, iter, TokenType::Text, i, j + 1);
        iter.advance_to(j + 1);
    } else {
        emit(tokens, iter, TokenType::Text, i, j);
        iter.advance_to(j);
    }
}

/// Inline code: from a `` ` `` that no `` ` `` precedes to the next one is
/// `Code`, without the two delimiters. Without a closing delimiter it is
/// `Text` to the end of the text, and a `` ` `` that follows another is `Text`.
pub open spec fn code(s: Seq<char>, toks: Seq<Token>, p: int) -> Lexed {
    let i = p - 1;
    let j = first_of(s, p, '`', '`');
    if i > 0 && s[i - 1] == '`' {
        Lexed { tokens: toks.push(span(TokenType::Text, s, i, p)), pos: p }
    } else if j < s.len() {
        Lexed { tokens: toks.push(span(TokenType::Code, s, p, j)), pos: j + 1 }
    } else {
        Lexed { tokens: toks.push(span(TokenType::Text, s, i, s.len() as int)), pos: s.len() as int }
    }
}

/// Matches inline code; `c` is the `` ` `` just consumed.
pub fn match_code(text: &String, tokens: &mut Vec<Token>, iter: &mut CharsWithPosition, c: (usize, char))
    requires
        old(iter).wf(),
        text@ == old(iter).text(),
        old(iter).cur() >= 1,
        c == old(iter).item(old(iter).cur() - 1),
    ensures
        final(iter).wf(),
        final(iter).text() == old(iter).text(),
        final(tokens)@ == code(old(iter).text(), old(tokens)@, old(iter).cur()).tokens,
        final(iter).cur() == code(old(iter).text(), old(tokens)@, old(iter).cur()).pos,
        old(iter).cur() <= final(iter).cur(),
        all_sound(old(iter).text(), old(tokens)@) ==> all_sound(old(iter).text(), final(tokens)@),
        old(tokens)@.len() <= final(tokens)@.len(),
        passes(old(tokens)@, final(tokens)@),
{
    let p = iter.consumed();
    let i = p - 1;
    let n = iter.len();
    if i > 0 && iter.is_at(i - 1, '`') {
        emit(tokens, iter, TokenType::Text, i, p);
        return ;
    }
    let j = iter.find(p, '`', '`');
    if j < n {
        emit(tokens, iter, TokenType::Code, p, j);
        iter.advance_to(j + 1);
    } else {
        emit(tokens, iter, TokenType::Text, i, n);
        iter.advance_to(n);
    }
}

/// Whether `c` is one of the three delimiters of emphasis.
pub open spec fn is_emphasis(c: char) -> bool {
    c == '*' || c == '~' || c == '_'
}

/// Emphasis: `**` toggles bold, `~~` strike, `__` underline and a single `*`
/// italic. A toggle that is closed opens with a `Begin` token, one that is
/// open closes with an `End` token.
///
/// A single `*` that ends the text closes italic where it is open and is
/// `Text` where italic is closed; a single `~` or `_` is `Text`.
pub open spec fn emphasis(s: Seq<char>, toks: Seq<Token>, p: int, em: State) -> Styled {
    let i = p - 1;
    let c = s[i];
    let doubled = p < s.len() && s[p] == c;
    if c == '*' && doubled {
        if em.bold == Tag::Bold(false) {
            Styled {
                tokens: toks.push(span(TokenType::BoldBegin, s, i, p + 1)),
                pos: p + 1,
                emphasis: State { bold: Tag::Bold(true), ..em },
            }
        } else {
            Styled {
                tokens: toks.push(span(TokenType::BoldEnd, s, i, p + 1)),
                pos: p + 1,
                emphasis: State { bold: Tag::Bold(false), ..em },
            }
        }
    } else if c == '*' && em.italic != Tag::Italic(false) {
        Styled {
            tokens: toks.push(span(TokenType::ItalicEnd, s, i, p)),
            pos: p,
            emphasis: State { italic: Tag::Italic(false), ..em },
        }
    } else if c == '*' && p < s.len() {
        Styled {
            tokens: toks.push(span(TokenType::ItalicBegin, s, i, p)),
            pos: p,
            emphasis: State { italic: Tag::Italic(true), ..em },
        }
    } else if c == '~' && doubled {
        if em.strike == Tag::Strike(false) {
            Styled {
                tokens: toks.push(span(TokenType::StrikeBegin, s, i, p + 1)),
                pos: p + 1,
                emphasis: State { strike: Tag::Strike(true), ..em },
            }
        } else {
            Styled {
                tokens: toks.push(span(TokenType::StrikeEnd, s, i, p + 1)),
                pos: p + 1,
                emphasis: State { strike: Tag::Strike(false), ..em },
            }
        }
    } else if c == '_' && doubled {
        if em.underline == Tag::Underline(false) {
            Styled {
                tokens: toks.push(span(TokenType::UnderlineBegin, s, i, p + 1)),
                pos: p + 1,
                emphasis: State { underline: Tag::Underline(true), ..em },
            }
        } else {
            Styled {
                tokens: toks.push(span(TokenType::UnderlineEnd, s, i, p + 1)),
                pos: p + 1,
                emphasis: State { underline: Tag::Underline(false), ..em },
            }
        }
    } else {
        Styled { tokens: toks.push(span(TokenType::Text, s, i, p)), pos: p, emphasis: em }
    }
}

/// Matches emphasis; `c` is the delimiter just consumed.
pub fn match_emphasis(
    emphasis: &mut State,
    text: &String, tokens: &mut Vec<Token>,
    iter: &mut CharsWithPosition,
    c: (usize, char),
)
    requires
        old(iter).wf(),
        text@ == old(iter).text(),
        old(iter).cur() >= 1,
        c == old(iter).item(old(iter).cur() - 1),
    ensures
        final(iter).wf(),
        final(iter).text() == old(iter).text(),
        final(tokens)@ == self::emphasis(
            old(iter).text(),
            old(tokens)@,
            old(iter).cur(),
            *old(emphasis),
        ).tokens,
        final(iter).cur() == self::emphasis(
            old(iter).text(),
            old(tokens)@,
            old(iter).cur(),
            *old(emphasis),
        ).pos,
        *final(emphasis) == self::emphasis(
            old(iter).text(),
            old(tokens)@,
            old(iter).cur(),
            *old(emphasis),
        ).emphasis,
        old(iter).cur() <= final(iter).cur(),
        all_sound(old(iter).text(), old(tokens)@) ==> all_sound(old(iter).text(), final(tokens)@),
        old(tokens)@.len() <= final(tokens)@.len(),
        restyles(old(tokens)@, final(tokens)@, *old(emphasis), *final(emphasis)),
{
    let p = iter.consumed();
    let i = p - 1;
    let n = iter.len();
    let doubled = iter.is_at(p, c.1);
    if c.1 == '*' && doubled {
        if emphasis.bold == Tag::Bold(false) {
            emit(tokens, iter, TokenType::BoldBegin, i, p + 1);
            emphasis.bold = Tag::Bold(true);
        } else {
            emit(tokens, iter, TokenType::BoldEnd, i, p + 1);
            emphasis.bold = Tag::Bold(false);
        }
        iter.advance_to(p + 1);
    } else if c.1 == '*' && emphasis.italic != Tag::Italic(false) {
        emit(tokens, iter, TokenType::ItalicEnd, i, p);
        emphasis.italic = Tag::Italic(false);
    } else if c.1 == '*' && p < n {
        emit(tokens, iter, TokenType::ItalicBegin, i, p);
        emphasis.italic = Tag::Italic(true);
    } else if c.1 == '~' && doubled {
        if emphasis.strike == Tag::Strike(false) {
            emit(tokens, iter, TokenType::StrikeBegin, i, p + 1);
            emphasis.strike = Tag::Strike(true);
        } else {
            emit(tokens, iter, TokenType::StrikeEnd, i, p + 1);
            emphasis.strike = Tag::Strike(false);
        }
        iter.advance_to(p + 1);
    } else if c.1 == '_' && doubled {
        if emphasis.underline == Tag::Underline(false) {
            emit(tokens, iter, TokenType::UnderlineBegin, i, p + 1);
            emphasis.underline = Tag::Underline(true);
        } else {
            emit(tokens, iter, TokenType::UnderlineEnd, i, p + 1);
            emphasis.underline = Tag::Underline(false);
        }
        iter.advance_to(p + 1);
    } else {
        emit(tokens, iter, TokenType::Text, i, p);
    }
}

/// The tokens that close what is open of emphasis at index `k`: an empty
/// `End` token for each open toggle, in the order italic, bold, strike,
/// underline.
pub open spec fn closing(s: Seq<char>, toks: Seq<Token>, k: int, em: State) -> Seq<Token> {
    let a = if em.italic != Tag::Italic(false) {
        toks.push(span(TokenType::ItalicEnd, s, k, k))
    } else {
        toks
    };
    let b = if em.bold != Tag::Bold(false) {
        a.push(span(TokenType::BoldEnd, s, k, k))
    } else {
        a
    };
    let c = if em.strike != Tag::Strike(false) {
        b.push(span(TokenType::StrikeEnd, s, k, k))
    } else {
        b
    };
    if em.underline != Tag::Underline(false) {
        c.push(span(TokenType::UnderlineEnd, s, k, k))
    } else {
        c
    }
}

/// Closes at index `k` what is open of emphasis.
pub fn close_emphasis(
    emphasis: &mut State,
    tokens: &mut Vec<Token>,
    iter: &CharsWithPosition,
    k: usize,
)
    requires
        iter.wf(),
        k <= iter.text().len(),
    ensures
        final(tokens)@ == closing(iter.text(), old(tokens)@, k as int, *old(emphasis)),
        *final(emphasis) == State::closed(),
        all_sound(iter.text(), old(tokens)@) ==> all_sound(iter.text(), final(tokens)@),
        old(tokens)@.len() <= final(tokens)@.len(),
        restyles(old(tokens)@, final(tokens)@, *old(emphasis), *final(emphasis)),
{
    if emphasis.italic != Tag::Italic(false) {
        emit(tokens, iter, TokenType::ItalicEnd, k, k);
    }
    if emphasis.bold != Tag::Bold(false) {
        emit(tokens, iter, TokenType::BoldEnd, k, k);
    }
    if emphasis.strike != Tag::Strike(false) {
        emit(tokens, iter, TokenType::StrikeEnd, k, k);
    }
    if emphasis.underline != Tag::Underline(false) {
        emit(tokens, iter, TokenType::UnderlineEnd, k, k);
    }
    emphasis.italic = Tag::Italic(false);
    emphasis.bold = Tag::Bold(false);
    emphasis.strike = Tag::Strike(false);
    emphasis.underline = Tag::Underline(false);
}

/// An escape: the backslash at index `p - 1` is an `Escape`, and the
/// character after it, whatever it is, is `Text` and is consumed. A
/// backslash that ends the text is an `Escape` alone.
pub open spec fn escape(s: Seq<char>, toks: Seq<Token>, p: int) -> Lexed {
    if p < s.len() {
        Lexed {
            tokens: toks.push(span(TokenType::Escape, s, p - 1, p)).push(
                span(TokenType::Text, s, p, p + 1),
            ),
            pos: p + 1,
        }
    } else {
        Lexed { tokens: toks.push(span(TokenType::Escape, s, p - 1, p)), pos: p }
    }
}

/// Matches an escape; `c` is the backslash just consumed.
pub fn match_escape(text: &String, tokens: &mut Vec<Token>, iter: &mut CharsWithPosition, c: (usize, char))
    requires
        old(iter).wf(),
        text@ == old(iter).text(),
        old(iter).cur() >= 1,
        c == old(iter).item(old(iter).cur() - 1),
    ensures
        final(iter).wf(),
        final(iter).text() == old(iter).text(),
        final(tokens)@ == escape(old(iter).text(), old(tokens)@, old(iter).cur()).tokens,
        final(iter).cur() == escape(old(iter).text(), old(tokens)@, old(iter).cur()).pos,
        old(iter).cur() <= final(iter).cur(),
        all_sound(old(iter).text(), old(tokens)@) ==> all_sound(old(iter).text(), final(tokens)@),
        old(tokens)@.len() <= final(tokens)@.len(),
        passes(old(tokens)@, final(tokens)@),
{
    let p = iter.consumed();
    let n = iter.len();
    emit(tokens, iter, TokenType::Escape, p - 1, p);
    if p < n {
        emit(tokens, iter, TokenType::Text, p, p + 1);
        iter.advance_to(p + 1);
    }
}

/// The body of a blockquote that began at index `i`, from index `k`.
///
/// The quote ends at a blank line, whose second newline is a `Newline`, or
/// at the end of the text; the `BlockquoteEnd` spans the quote from `i`. A
/// single newline joins two lines: it has no token, and the character after
/// it is `Text`. Delimiters of emphasis toggle it, a backslash is an escape,
/// and every other character is `Text`.
pub open spec fn quote_body(s: Seq<char>, toks: Seq<Token>, i: int, k: int, em: State) -> Styled
    decreases s.len() - k,
{
    if k >= s.len() {
        Styled {
            tokens: toks.push(span(TokenType::BlockquoteEnd, s, i, s.len() as int)),
            pos: s.len() as int,
            emphasis: em,
        }
    } else if s[k] == '\n' {
        if k + 1 >= s.len() {
            Styled {
                tokens: toks.push(span(TokenType::BlockquoteEnd, s, i, k)),
                pos: s.len() as int,
                emphasis: em,
            }
        } else if s[k + 1] == '\n' {
            Styled {
                tokens: toks.push(span(TokenType::BlockquoteEnd, s, i, k + 1)).push(
                    span(TokenType::Newline, s, k + 1, k + 2),
                ),
                pos: k + 2,
                emphasis: em,
            }
        } else {
            quote_body(s, toks.push(span(TokenType::Text, s, k + 1, k + 2)), i, k + 2, em)
        }
    } else if is_emphasis(s[k]) {
        let e = emphasis(s, toks, k + 1, em);
        if e.pos > k {
            quote_body(s, e.tokens, i, e.pos, e.emphasis)
        } else {
            e
        }
    } else if s[k] == '\\' {
        let e = escape(s, toks, k + 1);
        quote_body(s, e.tokens, i, e.pos, em)
    } else {
        quote_body(s, toks.push(span(TokenType::Text, s, k, k + 1)), i, k + 1, em)
    }
}

/// A blockquote: a `>` at the start of a line is a `BlockquoteBegin`, and
/// its body follows. A `>` elsewhere is `Text`.
pub open spec fn blockquote(s: Seq<char>, toks: Seq<Token>, p: int, em: State) -> Styled {
    if line_start(s, p - 1) {
        quote_body(s, toks.push(span(TokenType::BlockquoteBegin, s, p - 1, p)), p - 1, p, em)
    } else {
        Styled { tokens: toks.push(span(TokenType::Text, s, p - 1, p)), pos: p, emphasis: em }
    }
}

/// Matches a blockquote; `c` is the `>` just consumed.
pub fn match_blockquote(
    emphasis: &mut State,
    text: &String, tokens: &mut Vec<Token>,
    iter: &mut CharsWithPosition,
    c: (usize, char),
)
    requires
        old(iter).wf(),
        text@ == old(iter).text(),
        old(iter).cur() >= 1,
        c == old(iter).item(old(iter).cur() - 1),
    ensures
        final(iter).wf(),
        final(iter).text() == old(iter).text(),
        final(tokens)@ == blockquote(
            old(iter).text(),
            old(tokens)@,
            old(iter).cur(),
            *old(emphasis),
        ).tokens,
        final(iter).cur() == blockquote(
            old(iter).text(),
            old(tokens)@,
            old(iter).cur(),
            *old(emphasis),
        ).pos,
        *final(emphasis) == blockquote(
            old(iter).text(),
            old(tokens)@,
            old(iter).cur(),
            *old(emphasis),
        ).emphasis,
        old(iter).cur() <= final(iter).cur(),
        all_sound(old(iter).text(), old(tokens)@) ==> all_sound(old(iter).text(), final(tokens)@),
        old(tokens)@.len() <= final(tokens)@.len(),
        quotes(old(tokens)@, final(tokens)@, *old(emphasis), *final(emphasis)),
{
    let p = iter.consumed();
    let i = p - 1;
    let n = iter.len();
    let ghost s = iter.text();
    let ghost goal = blockquote(s, tokens@, p as int, *emphasis);
    let ghost before = tokens@;
    let ghost from = *emphasis;
    if !at_line_start(iter, i) {
        emit(tokens, iter, TokenType::Text, i, p);
        return ;
    }
    emit(tokens, iter, TokenType::BlockquoteBegin, i, p);
    let mut done = false;
    while !done
        invariant
            iter.wf(),
            iter.text() == s,
            text@ == s,
            n == s.len(),
            i < iter.cur() <= n,
            p <= iter.cur(),
            all_sound(s, before) ==> all_sound(s, tokens@),
            before.len() <= tokens@.len(),
            extends(before, tokens@),
            forall|base: Seq<Token>, x: Open|
                extends(base, before) && after(base, before, x).is_some() && agrees(
                    after(base, before, x).unwrap(),
                    from,
                ) && !after(base, before, x).unwrap().quote ==> #[trigger] after(base, tokens@, x)
                    == Some(
                    Open { quote: !done, ..styled(after(base, before, x).unwrap(), *emphasis) },
                ),
            done ==> tokens@ == goal.tokens && iter.cur() == goal.pos && *emphasis == goal.emphasis,
            !done ==> quote_body(s, tokens@, i as int, iter.cur(), *emphasis) == goal,
        decreases n - iter.cur() + (if done { 0int } else { 1int }),
    {
        let k = iter.consumed();
        match iter.next() {
            None => {
                emit(tokens, iter, TokenType::BlockquoteEnd, i, n);
                done = true;
            },
            Some(v) => {
                if v.1 == '\n' {
                    if k + 1 >= n {
                        emit(tokens, iter, TokenType::BlockquoteEnd, i, k);
                        done = true;
                    } else if iter.is_at(k + 1, '\n') {
                        emit(tokens, iter, TokenType::BlockquoteEnd, i, k + 1);
                        emit(tokens, iter, TokenType::Newline, k + 1, k + 2);
                        iter.advance_to(k + 2);
                        done = true;
                    } else {
                        emit(tokens, iter, TokenType::Text, k + 1, k + 2);
                        iter.advance_to(k + 2);
                    }
                } else if v.1 == '*' || v.1 == '~' || v.1 == '_' {
                    match_emphasis(emphasis, text, tokens, iter, v);
                } else if v.1 == '\\' {
                    match_escape(text, tokens, iter, v);
                } else {
                    emit(tokens, iter, TokenType::Text, k, k + 1);
                }
            },
        }
    }
}

/// The index of the newline that ends a block of indented lines, the first
/// of which begins at index `q`: the first newline from there that four
/// spaces do not follow. The length of the text where the block runs to its
/// end.
pub open spec fn indent_end(s: Seq<char>, q: int) -> int
    decreases s.len() - q,
{
    let j = first_of(s, q, '\n', '\n');
    if q < 0 || j >= s.len() {
        s.len() as int
    } else if q <= j && starts_with_at(s, j + 1, "    "@) {
        indent_end(s, j + 1)
    } else {
        j
    }
}

/// An indented block: lines that begin with four spaces, the first of them
/// at index `p`, are an `IndentBlock` up to the newline that ends the last
/// of them, which is consumed without a token, or to the end of the text.
/// Where the line at `p` does not begin with four spaces nothing is emitted
/// or consumed.
pub open spec fn indentblock(s: Seq<char>, toks: Seq<Token>, p: int) -> Lexed {
    let e = indent_end(s, p);
    if !starts_with_at(s, p, "    "@) {
        Lexed { tokens: toks, pos: p }
    } else if e < s.len() {
        Lexed { tokens: toks.push(span(TokenType::IndentBlock, s, p, e)), pos: e + 1 }
    } else {
        Lexed { tokens: toks.push(span(TokenType::IndentBlock, s, p, e)), pos: e }
    }
}

/// Matches an indented block; `c` is the newline just consumed.
pub fn match_indentblock(text: &String, tokens: &mut Vec<Token>, iter: &mut CharsWithPosition, c: (usize, char))
    requires
        old(iter).wf(),
        text@ == old(iter).text(),
        old(iter).cur() >= 1,
        c == old(iter).item(old(iter).cur() - 1),
    ensures
        final(iter).wf(),
        final(iter).text() == old(iter).text(),
        final(tokens)@ == indentblock(old(iter).text(), old(tokens)@, old(iter).cur()).tokens,
        final(iter).cur() == indentblock(old(iter).text(), old(tokens)@, old(iter).cur()).pos,
        old(iter).cur() <= final(iter).cur(),
        starts_with_at(old(iter).text(), old(iter).cur(), "    "@) ==> old(iter).cur()
            < final(iter).cur(),
        all_sound(old(iter).text(), old(tokens)@) ==> all_sound(old(iter).text(), final(tokens)@),
        old(tokens)@.len() <= final(tokens)@.len(),
        passes(old(tokens)@, final(tokens)@),
{
    let p = iter.consumed();
    let n = iter.len();
    let ghost s = iter.text();
    if !holds_at(iter, p, "    ") {
        return ;
    }
    proof {
        reveal_strlit("    ");
        assert(s.subrange(p as int, p + 4)[0] == ' ');
    }
    let mut q: usize = p;
    let mut e: usize = n;
    let mut done = false;
    while !done
        invariant
            iter.wf(),
            iter.text() == s,
            n == s.len(),
            p <= q <= n,
            p < n,
            s[p as int] == ' ',
            done ==> e == indent_end(s, p as int) && p < e <= n,
            !done ==> indent_end(s, q as int) == indent_end(s, p as int),
        decreases n - q + (if done { 0int } else { 1int }),
    {
        let j = iter.find(q, '\n', '\n');
        proof {
            lemma_first_of(s, q as int, '\n', '\n');
        }
        if j >= n {
            e = n;
            done = true;
        } else if holds_at(iter, j + 1, "    ") {
            q = j + 1;
        } else {
            e = j;
            done = true;
        }
    }
    emit(tokens, iter, TokenType::IndentBlock, p, e);
    if e < n {
        iter.advance_to(e + 1);
    } else {
        iter.advance_to(e);
    }
}

/// One cell of an alignment row: whether it is one, how it aligns its
/// column, and the index of the pipe that closes it.
pub struct Cell {
    pub ok: bool,
    pub alignment: Alignment,
    pub bar: int,
}

/// The cell of an alignment row that begins at index `q`, after a pipe:
/// spaces, a colon or none, three dashes or more, a colon or none, spaces,
/// and the closing pipe.
///
/// A colon after the dashes aligns the column to the right, or centers it
/// where a colon stands before them too; without it the column is aligned to
/// the left.
pub open spec fn cell(s: Seq<char>, q: int) -> Cell {
    let a = run_end(s, q, ' ');
    let lc = a < s.len() && s[a] == ':';
    let b = if lc {
        a + 1
    } else {
        a
    };
    let d = run_end(s, b, '-');
    let rc = d < s.len() && s[d] == ':';
    let e = if rc {
        d + 1
    } else {
        d
    };
    let g = run_end(s, e, ' ');
    Cell {
        ok: 0 <= q <= g && d - b >= 3 && g < s.len() && s[g] == '|',
        alignment: if !rc {
            Alignment::Left
        } else if lc {
            Alignment::Center
        } else {
            Alignment::Right
        },
        bar: g,
    }
}

/// The kind of token that stands for a column of the given alignment.
pub open spec fn column_kind(a: Alignment) -> TokenType {
    match a {
        Alignment::Right => TokenType::TableColumnRight,
        Alignment::Center => TokenType::TableColumnCenter,
        _ => TokenType::TableColumnLeft,
    }
}

/// What is read of an alignment row: whether it is one, a token for each
/// column read, and where reading ended.
pub struct Row {
    pub ok: bool,
    pub columns: Seq<Token>,
    pub end: int,
}

/// The cells of an alignment row from index `q`, after a pipe, with the
/// columns read before.
///
/// Each cell gives a column token over the cell. The row is complete where a
/// newline, which is consumed, follows the pipe of a cell. It fails at the
/// first index that does not begin a cell, and at the end of the text.
pub open spec fn row(s: Seq<char>, q: int, columns: Seq<Token>) -> Row
    decreases s.len() - q,
{
    let c = cell(s, q);
    let more = columns.push(span(column_kind(c.alignment), s, q, c.bar));
    if !c.ok {
        Row { ok: false, columns, end: q }
    } else if c.bar + 1 >= s.len() {
        Row { ok: false, columns: more, end: s.len() as int }
    } else if s[c.bar + 1] == '\n' {
        Row { ok: true, columns: more, end: c.bar + 2 }
    } else {
        row(s, c.bar + 1, more)
    }
}

/// What the table matcher leaves behind: the tokens, the number of
/// characters consumed, and whether the line was an alignment row.
pub struct Tabled {
    pub tokens: Seq<Token>,
    pub pos: int,
    pub matched: bool,
}

/// The alignment row of a table: a line from index `p` that begins with a
/// pipe and consists of cells.
///
/// Where the line is an alignment row, it is consumed and the tokens of its
/// columns are inserted, in the order of the columns, before the token of
/// index `at`, where the header of the table begins. Where its first cell is
/// none, the pipe is `Text` and nothing else is consumed. Where a later cell
/// is none, the line up to there is an `Error`. Where no pipe stands at `p`
/// or `at` is no index into the tokens, nothing happens.
pub open spec fn table(s: Seq<char>, toks: Seq<Token>, p: int, at: int) -> Tabled {
    let r = row(s, p + 1, Seq::empty());
    if !(0 <= p < s.len() && s[p] == '|' && 0 <= at <= toks.len()) {
        Tabled { tokens: toks, pos: p, matched: false }
    } else if r.ok {
        Tabled {
            tokens: toks.subrange(0, at) + r.columns + toks.subrange(at, toks.len() as int),
            pos: r.end,
            matched: true,
        }
    } else if r.columns.len() == 0 {
        Tabled { tokens: toks.push(span(TokenType::Text, s, p, p + 1)), pos: p + 1, matched: false }
    } else {
        Tabled { tokens: toks.push(span(TokenType::Error, s, p, r.end)), pos: r.end, matched: false }
    }
}

/// Matches the alignment row of a table at the cursor, for the possible
/// table that `table` describes, and says whether it is one.
pub fn match_table(
    table: &table::State,
    text: &String, tokens: &mut Vec<Token>,
    iter: &mut CharsWithPosition,
) -> (matched: bool)
    requires
        old(iter).wf(),
        text@ == old(iter).text(),
    ensures
        final(iter).wf(),
        final(iter).text() == old(iter).text(),
        final(tokens)@ == self::table(
            old(iter).text(),
            old(tokens)@,
            old(iter).cur(),
            table.table_index as int,
        ).tokens,
        final(iter).cur() == self::table(
            old(iter).text(),
            old(tokens)@,
            old(iter).cur(),
            table.table_index as int,
        ).pos,
        matched == self::table(
            old(iter).text(),
            old(tokens)@,
            old(iter).cur(),
            table.table_index as int,
        ).matched,
        old(iter).cur() <= final(iter).cur(),
        old(iter).cur() < old(iter).text().len() && old(iter).text()[old(iter).cur()] == '|'
            && table.table_index <= old(tokens)@.len() ==> old(iter).cur() < final(iter).cur(),
        all_sound(old(iter).text(), old(tokens)@) ==> all_sound(old(iter).text(), final(tokens)@),
        old(tokens)@.len() <= final(tokens)@.len(),
        passes_before(old(tokens)@, final(tokens)@, table.table_index as int),
{
    let p = iter.consumed();
    let n = iter.len();
    let at = table.table_index;
    let ghost s = iter.text();
    let ghost before = tokens@;
    if !iter.is_at(p, '|') || at > tokens.len() {
        return false;
    }
    let mut columns: Vec<Token> = Vec::new();
    let mut q: usize = p + 1;
    let mut ok = false;
    let mut done = false;
    while !done
        invariant
            iter.wf(),
            iter.text() == s,
            n == s.len(),
            p < q <= n,
            all_sound(s, columns@),
            passes(Seq::empty(), columns@),
            done ==> (Row { ok, columns: columns@, end: q as int }) == row(
                s,
                p + 1,
                Seq::empty(),
            ),
            !done ==> row(s, q as int, columns@) == row(s, p + 1, Seq::empty()),
        decreases n - q + (if done { 0int } else { 1int }),
    {
        let a = iter.skip_run(q, ' ');
        let lc = iter.is_at(a, ':');
        let b = if lc {
            a + 1
        } else {
            a
        };
        let d = iter.skip_run(b, '-');
        let rc = iter.is_at(d, ':');
        let e = if rc {
            d + 1
        } else {
            d
        };
        let g = iter.skip_run(e, ' ');
        let mut alignment = if lc {
            Alignment::LeftOrCenter
        } else {
            Alignment::LeftOrRight
        };
        if !rc {
            alignment = Alignment::Left;
        } else if alignment == Alignment::LeftOrCenter {
            alignment = Alignment::Center;
        } else {
            alignment = Alignment::Right;
        }
        if d - b >= 3 && iter.is_at(g, '|') {
            match alignment {
                Alignment::Right => emit(&mut columns, iter, TokenType::TableColumnRight, q, g),
                Alignment::Center => emit(&mut columns, iter, TokenType::TableColumnCenter, q, g),
                _ => emit(&mut columns, iter, TokenType::TableColumnLeft, q, g),
            }
            if g + 1 >= n {
                ok = false;
                q = n;
                done = true;
            } else if iter.is_at(g + 1, '\n') {
                ok = true;
                q = g + 2;
                done = true;
            } else {
                q = g + 1;
            }
        } else {
            ok = false;
            done = true;
        }
    }
    if ok {
        let ghost cols = columns@;
        let mut rest = tokens.split_off(at);
        tokens.append(&mut columns);
        tokens.append(&mut rest);
        iter.advance_to(q);
        proof {
            let head = before.subrange(0, at as int);
            let tail = before.subrange(at as int, before.len() as int);
            assert forall|base: Seq<Token>, x: Open|
                base.len() <= at && extends(base, before) implies #[trigger] after(
                base,
                tokens@,
                x,
            ) == after(base, before, x) by {
                let a = head.subrange(base.len() as int, at as int);
                assert(added(base, tokens@) =~= a + cols + tail);
                assert(added(base, before) =~= a + tail);
                lemma_scan_insert(Some(x), a, cols, tail);
            }
        }
        true
    } else if columns.len() == 0 {
        emit(tokens, iter, TokenType::Text, p, p + 1);
        iter.advance_to(p + 1);
        false
    } else {
        emit(tokens, iter, TokenType::Error, p, q);
        iter.advance_to(q);
        false
    }
}

/// The state of the list matcher: the tokens emitted so far, the open lists
/// from the outermost to the innermost, the emphasis of the open item, and
/// whether an item is open. While the matcher is within a list, a list is
/// open.
pub struct Listed {
    pub tokens: Seq<Token>,
    pub lists: Seq<List>,
    pub emphasis: State,
    pub item: bool,
}

/// Closes, from the innermost, the open lists that are indented by more than
/// `keep`: for each an empty token of its closing kind at index `k`.
pub open spec fn unwind(s: Seq<char>, toks: Seq<Token>, lists: Seq<List>, k: int, keep: int) -> (
    Seq<Token>,
    Seq<List>,
)
    decreases lists.len(),
{
    if lists.len() > 0 && lists.last().1 > keep {
        unwind(s, toks.push(span(lists.last().0, s, k, k)), lists.drop_last(), k, keep)
    } else {
        (toks, lists)
    }
}

/// Finds the list for an item whose marker stands at index `m`, is followed
/// by a space at index `sp` and is indented by `indent`, among the open
/// lists, none of which is indented deeper.
///
/// Where the innermost list has the same indentation, the item joins it if
/// the list is of the kind `ty`; a list of another kind is closed and a list
/// of kind `ty` opened in its place. Otherwise a new list is opened inside
/// the open ones. The token that opens a list spans the marker.
pub open spec fn enter(
    s: Seq<char>,
    toks: Seq<Token>,
    lists: Seq<List>,
    m: int,
    sp: int,
    indent: int,
    ty: ListType,
) -> (Seq<Token>, Seq<List>) {
    let joins = lists.len() > 0 && lists.last().1 == indent;
    if joins && lists.last().0 == ty.1 {
        (toks, lists)
    } else if joins {
        (
            toks.push(span(lists.last().0, s, m, m)).push(span(ty.0, s, m, sp)),
            lists.drop_last().push(List(ty.1, indent as usize)),
        )
    } else {
        (toks.push(span(ty.0, s, m, sp)), lists.push(List(ty.1, indent as usize)))
    }
}

/// Opens a list item whose marker stands at index `m`, is followed by a
/// space at index `sp` and is indented by `indent`: the lists that are
/// indented deeper are closed, the list for the item is found, and the
/// `ListItemBegin` spans the space after the marker.
pub open spec fn open_item(
    s: Seq<char>,
    st: Listed,
    m: int,
    sp: int,
    indent: int,
    ty: ListType,
) -> Listed {
    let u = unwind(s, st.tokens, st.lists, m, indent);
    let e = enter(s, u.0, u.1, m, sp, indent, ty);
    Listed {
        tokens: e.0.push(span(TokenType::ListItemBegin, s, sp, sp + 1)),
        lists: e.1,
        emphasis: st.emphasis,
        item: true,
    }
}

/// Ends the open item, if there is one, with a `ListItemEnd` over characters
/// `b..e`, after closing at `b` what is open of its emphasis.
pub open spec fn close_item(s: Seq<char>, st: Listed, b: int, e: int) -> Listed {
    let closed = closing(s, st.tokens, b, st.emphasis);
    Listed {
        tokens: if st.item {
            closed.push(span(TokenType::ListItemEnd, s, b, e))
        } else {
            closed
        },
        lists: st.lists,
        emphasis: State::closed(),
        item: false,
    }
}

/// Ends the open item and closes every open list at index `k`, where the
/// matcher stops.
pub open spec fn close_lists(s: Seq<char>, st: Listed, k: int) -> Lexed {
    let c = close_item(s, st, k, k);
    Lexed { tokens: unwind(s, c.tokens, c.lists, k, -1).0, pos: k }
}

/// The unordered kind of list.
pub open spec fn unordered() -> ListType {
    ListType(TokenType::UnorderedListBegin, TokenType::UnorderedListEnd)
}

/// The ordered kind of list.
pub open spec fn ordered() -> ListType {
    ListType(TokenType::OrderedListBegin, TokenType::OrderedListEnd)
}

/// Whether the marker of an unordered list, `* `, stands at index `m`.
pub open spec fn bullet_at(s: Seq<char>, m: int) -> bool {
    0 <= m && m + 1 < s.len() && s[m] == '*' && s[m + 1] == ' '
}

/// Whether the marker of an ordered list, `1. `, stands at index `m`.
pub open spec fn number_at(s: Seq<char>, m: int) -> bool {
    0 <= m && m + 2 < s.len() && s[m] == '1' && s[m + 1] == '.' && s[m + 2] == ' '
}

/// Whether a list marker, `* ` or `1. `, stands at index `m`.
pub open spec fn marker_at(s: Seq<char>, m: int) -> bool {
    bullet_at(s, m) || number_at(s, m)
}

/// What a line of a list leaves behind: the state of the matcher, the number
/// of characters consumed, and whether the list is at its end.
pub struct Line {
    pub state: Listed,
    pub pos: int,
    pub done: bool,
}

/// The end of a line of a list, at the newline of index `k`, and the start
/// of the line after it.
///
/// The newline ends the open item, and what follows decides: a blank line
/// or the end of the text closes every list, and the newline of the blank
/// line is left to the driver; `* ` or `1. `, after spaces or none, opens an
/// item indented by the number of those spaces; spaces that no marker follows
/// are an `Error`, and so is any other first character of a line.
pub open spec fn line_break(s: Seq<char>, st: Listed, k: int) -> Line {
    let q = k + 1;
    let m = run_end(s, q, ' ');
    let ended = close_item(s, st, k, q);
    let all = close_lists(s, ended, q);
    if q >= s.len() || s[q] == '\n' || !(q <= m <= s.len()) {
        Line {
            state: Listed { tokens: all.tokens, lists: Seq::empty(), ..ended },
            pos: q,
            done: true,
        }
    } else if bullet_at(s, m) {
        Line { state: open_item(s, ended, m, m + 1, m - q, unordered()), pos: m + 2, done: false }
    } else if number_at(s, m) {
        Line { state: open_item(s, ended, m, m + 2, m - q, ordered()), pos: m + 3, done: false }
    } else if q < m {
        Line {
            state: Listed { tokens: ended.tokens.push(span(TokenType::Error, s, q, m)), ..ended },
            pos: m,
            done: false,
        }
    } else {
        Line {
            state: Listed {
                tokens: ended.tokens.push(span(TokenType::Error, s, q, q + 1)),
                ..ended
            },
            pos: q + 1,
            done: false,
        }
    }
}

/// The lines of a list from index `k`.
///
/// Within a line delimiters of emphasis toggle it, `[` begins a link, `-` a
/// checkbutton, a backslash is an escape, and every other character is
/// `Text`. A newline ends the line
/// as `line_break` tells, and the end of the text closes every list.
pub open spec fn list_body(s: Seq<char>, st: Listed, k: int) -> Lexed
    decreases s.len() - k,
{
    let q = k + 1;
    let l = line_break(s, st, k);
    if k < 0 || k >= s.len() {
        close_lists(s, st, s.len() as int)
    } else if s[k] == '\n' {
        if !l.done && k < l.pos <= s.len() {
            list_body(s, l.state, l.pos)
        } else {
            Lexed { tokens: l.state.tokens, pos: l.pos }
        }
    } else if is_emphasis(s[k]) {
        let e = emphasis(s, st.tokens, q, st.emphasis);
        if k < e.pos <= s.len() {
            list_body(s, Listed { tokens: e.tokens, emphasis: e.emphasis, ..st }, e.pos)
        } else {
            close_lists(s, st, k)
        }
    } else if s[k] == '[' {
        let l = link(s, st.tokens, q);
        if k < l.pos <= s.len() {
            list_body(s, Listed { tokens: l.tokens, ..st }, l.pos)
        } else {
            close_lists(s, st, k)
        }
    } else if s[k] == '-' {
        let b = checkbutton(s, st.tokens, q);
        if k < b.pos <= s.len() {
            list_body(s, Listed { tokens: b.tokens, ..st }, b.pos)
        } else {
            close_lists(s, st, k)
        }
    } else if s[k] == '\\' {
        let e = escape(s, st.tokens, q);
        list_body(s, Listed { tokens: e.tokens, ..st }, e.pos)
    } else {
        list_body(s, Listed { tokens: st.tokens.push(span(TokenType::Text, s, k, q)), ..st }, q)
    }
}

/// A list: from the marker `* ` or `1. ` at index `p`, at the start of a
/// line, a list of kind `ty` is opened with its first item, and the lines of
/// the list follow.
pub open spec fn list(s: Seq<char>, toks: Seq<Token>, p: int, ty: ListType) -> Lexed {
    let sp = if number_at(s, p) {
        p + 2
    } else {
        p + 1
    };
    let st = Listed { tokens: toks, lists: Seq::empty(), emphasis: State::closed(), item: false };
    list_body(s, open_item(s, st, p, sp, 0, ty), sp + 1)
}

/// Whether the marker of an unordered list stands at index `m` of the text.
pub fn is_bullet(iter: &CharsWithPosition, m: usize) -> (r: bool)
    requires
        iter.wf(),
    ensures
        r == bullet_at(iter.text(), m as int),
{
    let n = iter.len();
    m < n && iter.is_at(m, '*') && iter.is_at(m + 1, ' ')
}

/// Whether the marker of an ordered list stands at index `m` of the text.
pub fn is_number(iter: &CharsWithPosition, m: usize) -> (r: bool)
    requires
        iter.wf(),
    ensures
        r == number_at(iter.text(), m as int),
{
    let n = iter.len();
    m < n && iter.is_at(m, '1') && iter.is_at(m + 1, '.') && m + 1 < n && iter.is_at(m + 2, ' ')
}

/// Closes at index `k` the open lists that are indented by more than `keep`,
/// or all of them where `keep` is `None`.
fn close_deeper(
    keep: Option<usize>,
    lists: &mut Vec<List>,
    tokens: &mut Vec<Token>,
    iter: &CharsWithPosition,
    k: usize,
)
    requires
        iter.wf(),
        k <= iter.text().len(),
    ensures
        (final(tokens)@, final(lists)@) == unwind(
            iter.text(),
            old(tokens)@,
            old(lists)@,
            k as int,
            match keep {
                Some(d) => d as int,
                None => -1,
            },
        ),
        all_sound(iter.text(), old(tokens)@) ==> all_sound(iter.text(), final(tokens)@),
        old(tokens)@.len() <= final(tokens)@.len(),
        keep.is_none() ==> final(lists)@.len() == 0,
        extends(old(tokens)@, final(tokens)@),
        proper(old(lists)@) ==> proper(final(lists)@) && restacks(
            old(tokens)@,
            final(tokens)@,
            old(lists)@,
            final(lists)@,
        ),
{
    let ghost s = iter.text();
    let ghost before = tokens@;
    let ghost keep_int: int = match keep {
        Some(d) => d as int,
        None => -1,
    };
    let ghost goal = unwind(s, tokens@, lists@, k as int, keep_int);
    let ghost open0 = lists@;
    let mut done = false;
    while !done
        invariant
            iter.wf(),
            iter.text() == s,
            k <= s.len(),
            keep_int == (match keep {
                Some(d) => d as int,
                None => -1,
            }),
            all_sound(s, before) ==> all_sound(s, tokens@),
            before.len() <= tokens@.len(),
            proper(open0) ==> proper(lists@) && restacks(before, tokens@, open0, lists@),
            extends(before, tokens@),
            done && keep.is_none() ==> lists@.len() == 0,
            done ==> (tokens@, lists@) == goal,
            !done ==> unwind(s, tokens@, lists@, k as int, keep_int) == goal,
        decreases lists@.len() + (if done { 0int } else { 1int }),
    {
        let len = lists.len();
        let deeper = len > 0 && match keep {
            Some(d) => lists[len - 1].1 > d,
            None => true,
        };
        if deeper {
            let top = lists[len - 1];
            let ghost open = lists@;
            emit(tokens, iter, top.0, k, k);
            lists.pop();
            assert(lists@ =~= open.drop_last());
            assert(kinds(lists@) =~= kinds(open).drop_last());
            assert(kinds(open).last() == top.0);
        } else {
            done = true;
        }
    }
}

/// Finds the list for an item whose marker stands at index `m` and is
/// followed by a space at index `sp`.
fn enter_list(
    current_indent: usize,
    list_type: ListType,
    lists: &mut Vec<List>,
    tokens: &mut Vec<Token>,
    iter: &CharsWithPosition,
    m: usize,
    sp: usize,
)
    requires
        iter.wf(),
        m <= sp <= iter.text().len(),
    ensures
        (final(tokens)@, final(lists)@) == enter(
            iter.text(),
            old(tokens)@,
            old(lists)@,
            m as int,
            sp as int,
            current_indent as int,
            list_type,
        ),
        all_sound(iter.text(), old(tokens)@) ==> all_sound(iter.text(), final(tokens)@),
        old(tokens)@.len() <= final(tokens)@.len(),
        extends(old(tokens)@, final(tokens)@),
        final(lists)@.len() > 0,
        proper(old(lists)@) && proper_type(list_type) ==> proper(final(lists)@) && restacks(
            old(tokens)@,
            final(tokens)@,
            old(lists)@,
            final(lists)@,
        ),
{
    let len = lists.len();
    let joins = len > 0 && lists[len - 1].1 == current_indent;
    let ghost open = lists@;
    if joins && lists[len - 1].0 == list_type.1 {
    } else if joins {
        let top = lists[len - 1];
        emit(tokens, iter, top.0, m, m);
        emit(tokens, iter, list_type.0, m, sp);
        lists.pop();
        assert(lists@ =~= open.drop_last());
        lists.push(List(list_type.1, current_indent));
        assert(kinds(lists@) =~= kinds(open).drop_last().push(list_type.1));
        assert(kinds(open).last() == top.0);
    } else {
        emit(tokens, iter, list_type.0, m, sp);
        lists.push(List(list_type.1, current_indent));
        assert(kinds(lists@) =~= kinds(open).push(list_type.1));
    }
}

/// Opens a list item at the marker where the cursor stands, indented by
/// `current_indent`, and consumes the marker and the space after it.
pub fn push_indented_list(
    current_indent: usize,
    list_type: ListType,
    lists: &mut Vec<List>,
    tokens: &mut Vec<Token>,
    iter: &mut CharsWithPosition,
)
    requires
        old(iter).wf(),
        marker_at(old(iter).text(), old(iter).cur()),
    ensures
        final(iter).wf(),
        final(iter).text() == old(iter).text(),
        ({
            let s = old(iter).text();
            let m = old(iter).cur();
            let sp = if number_at(s, m) {
                m + 2
            } else {
                m + 1
            };
            let st = Listed {
                tokens: old(tokens)@,
                lists: old(lists)@,
                emphasis: State::closed(),
                item: false,
            };
            let r = open_item(s, st, m, sp, current_indent as int, list_type);
            &&& final(tokens)@ == r.tokens
            &&& final(lists)@ == r.lists
            &&& final(iter).cur() == sp + 1
        }),
        all_sound(old(iter).text(), old(tokens)@) ==> all_sound(old(iter).text(), final(tokens)@),
        old(tokens)@.len() <= final(tokens)@.len(),
        extends(old(tokens)@, final(tokens)@),
        final(lists)@.len() > 0,
        proper(old(lists)@) && proper_type(list_type) ==> proper(final(lists)@) && opens_item(
            old(tokens)@,
            final(tokens)@,
            old(lists)@,
            final(lists)@,
        ),
{
    let m = iter.consumed();
    let sp = if is_number(iter, m) {
        m + 2
    } else {
        m + 1
    };
    close_deeper(Some(current_indent), lists, tokens, iter, m);
    enter_list(current_indent, list_type, lists, tokens, iter, m, sp);
    emit(tokens, iter, TokenType::ListItemBegin, sp, sp + 1);
    iter.advance_to(sp + 1);
}

/// Opens a list item at the marker where the cursor stands, at the start of
/// a line, and consumes the marker and the space after it.
pub fn push_list(
    list_type: ListType,
    lists: &mut Vec<List>,
    tokens: &mut Vec<Token>,
    iter: &mut CharsWithPosition,
)
    requires
        old(iter).wf(),
        marker_at(old(iter).text(), old(iter).cur()),
    ensures
        final(iter).wf(),
        final(iter).text() == old(iter).text(),
        ({
            let s = old(iter).text();
            let m = old(iter).cur();
            let sp = if number_at(s, m) {
                m + 2
            } else {
                m + 1
            };
            let st = Listed {
                tokens: old(tokens)@,
                lists: old(lists)@,
                emphasis: State::closed(),
                item: false,
            };
            let r = open_item(s, st, m, sp, 0, list_type);
            &&& final(tokens)@ == r.tokens
            &&& final(lists)@ == r.lists
            &&& final(iter).cur() == sp + 1
        }),
        all_sound(old(iter).text(), old(tokens)@) ==> all_sound(old(iter).text(), final(tokens)@),
        old(tokens)@.len() <= final(tokens)@.len(),
        extends(old(tokens)@, final(tokens)@),
        final(lists)@.len() > 0,
        proper(old(lists)@) && proper_type(list_type) ==> proper(final(lists)@) && opens_item(
            old(tokens)@,
            final(tokens)@,
            old(lists)@,
            final(lists)@,
        ),
{
    push_indented_list(0, list_type, lists, tokens, iter);
}

/// Ends the open item, if there is one, over characters `b..e`.
fn end_item(
    emphasis: &mut State,
    item: &mut bool,
    tokens: &mut Vec<Token>,
    iter: &CharsWithPosition,
    b: usize,
    e: usize,
)
    requires
        iter.wf(),
        b <= e <= iter.text().len(),
    ensures
        ({
            let st = Listed {
                tokens: old(tokens)@,
                lists: Seq::empty(),
                emphasis: *old(emphasis),
                item: *old(item),
            };
            let r = close_item(iter.text(), st, b as int, e as int);
            &&& final(tokens)@ == r.tokens
            &&& *final(emphasis) == r.emphasis
            &&& *final(item) == r.item
        }),
        all_sound(iter.text(), old(tokens)@) ==> all_sound(iter.text(), final(tokens)@),
        old(tokens)@.len() <= final(tokens)@.len(),
        ends_item(old(tokens)@, final(tokens)@, *old(emphasis), *old(item)),
{
    close_emphasis(emphasis, tokens, iter, b);
    if *item {
        emit(tokens, iter, TokenType::ListItemEnd, b, e);
    }
    *item = false;
}

/// Whether `new` is `old` and tokens after it that take the list matcher
/// from one state to another: the emphasis of the item, whether an item is
/// open, and the open lists.
pub open spec fn relists(
    old: Seq<Token>,
    new: Seq<Token>,
    from: Listed,
    to: Listed,
) -> bool {
    &&& extends(old, new)
    &&& forall|base: Seq<Token>, x: Open|
        extends(base, old) && after(base, old, x).is_some() && agrees(
            after(base, old, x).unwrap(),
            from.emphasis,
        ) && after(base, old, x).unwrap().item == from.item && after(base, old, x).unwrap().lists
            == kinds(from.lists) ==> #[trigger] after(base, new, x) == Some(
            Open {
                item: to.item,
                lists: kinds(to.lists),
                ..styled(after(base, old, x).unwrap(), to.emphasis)
            },
        )
}

/// Ends a line of a list at the newline just consumed and begins the line
/// after it; says whether the list is at its end.
fn end_line(
    emphasis: &mut State,
    item: &mut bool,
    lists: &mut Vec<List>,
    tokens: &mut Vec<Token>,
    iter: &mut CharsWithPosition,
) -> (done: bool)
    requires
        old(iter).wf(),
        old(iter).cur() >= 1,
        old(iter).text()[old(iter).cur() - 1] == '\n',
    ensures
        final(iter).wf(),
        final(iter).text() == old(iter).text(),
        ({
            let st = Listed {
                tokens: old(tokens)@,
                lists: old(lists)@,
                emphasis: *old(emphasis),
                item: *old(item),
            };
            let r = line_break(old(iter).text(), st, old(iter).cur() - 1);
            &&& r.state == (Listed {
                tokens: final(tokens)@,
                lists: final(lists)@,
                emphasis: *final(emphasis),
                item: *final(item),
            })
            &&& final(iter).cur() == r.pos
            &&& done == r.done
            &&& proper(old(lists)@) ==> proper(final(lists)@) && relists(
                old(tokens)@,
                final(tokens)@,
                st,
                r.state,
            )
        }),
        old(iter).cur() <= final(iter).cur(),
        !done ==> old(iter).cur() < final(iter).cur(),
        all_sound(old(iter).text(), old(tokens)@) ==> all_sound(old(iter).text(), final(tokens)@),
        old(tokens)@.len() <= final(tokens)@.len(),
        extends(old(tokens)@, final(tokens)@),
        !done && old(lists)@.len() > 0 ==> final(lists)@.len() > 0,
{
    let q = iter.consumed();
    let k = q - 1;
    let n = iter.len();
    end_item(emphasis, item, tokens, iter, k, q);
    if q >= n || iter.is_at(q, '\n') {
        let ghost open = lists@;
        close_deeper(None, lists, tokens, iter, q);
        assert(lists@ =~= Seq::empty());
        return true;
    }
    let m = iter.skip_run(q, ' ');
    if is_bullet(iter, m) {
        iter.advance_to(m);
        push_indented_list(
            m - q,
            ListType(TokenType::UnorderedListBegin, TokenType::UnorderedListEnd),
            lists,
            tokens,
            iter,
        );
        *item = true;
    } else if is_number(iter, m) {
        iter.advance_to(m);
        push_indented_list(
            m - q,
            ListType(TokenType::OrderedListBegin, TokenType::OrderedListEnd),
            lists,
            tokens,
            iter,
        );
        *item = true;
    } else if q < m {
        emit(tokens, iter, TokenType::Error, q, m);
        iter.advance_to(m);
    } else {
        emit(tokens, iter, TokenType::Error, q, q + 1);
        iter.advance_to(q + 1);
    }
    false
}

/// Matches a list of kind `list_type` whose first marker stands at the
/// cursor, at the start of a line.
#[verifier::rlimit(40)]
pub fn match_list(list_type: ListType, text: &String, tokens: &mut Vec<Token>, iter: &mut CharsWithPosition)
    requires
        old(iter).wf(),
        text@ == old(iter).text(),
        marker_at(old(iter).text(), old(iter).cur()),
    ensures
        final(iter).wf(),
        final(iter).text() == old(iter).text(),
        final(tokens)@ == list(old(iter).text(), old(tokens)@, old(iter).cur(), list_type).tokens,
        final(iter).cur() == list(old(iter).text(), old(tokens)@, old(iter).cur(), list_type).pos,
        old(iter).cur() < final(iter).cur(),
        all_sound(old(iter).text(), old(tokens)@) ==> all_sound(old(iter).text(), final(tokens)@),
        old(tokens)@.len() <= final(tokens)@.len(),
        extends(old(tokens)@, final(tokens)@),
        proper_type(list_type) ==> encloses(old(tokens)@, final(tokens)@),
{
    let ghost s = iter.text();
    let ghost before = tokens@;
    let ghost goal = list(s, tokens@, iter.cur(), list_type);
    let ghost calm_state = Listed {
        tokens: before,
        lists: Seq::empty(),
        emphasis: State::closed(),
        item: false,
    };
    let ghost p = iter.cur();
    let n = iter.len();
    let mut lists: Vec<List> = Vec::new();
    let mut emphasis = State::new();
    let mut item = true;
    assert(kinds(lists@) =~= Seq::empty());
    push_list(list_type, &mut lists, tokens, iter);
    let mut done = false;
    while !done
        invariant
            iter.wf(),
            iter.text() == s,
            text@ == s,
            n == s.len(),
            p < iter.cur() <= n,
            all_sound(s, before) ==> all_sound(s, tokens@),
            before.len() <= tokens@.len(),
            extends(before, tokens@),
            calm_state == (Listed {
                tokens: before,
                lists: Seq::empty(),
                emphasis: State::closed(),
                item: false,
            }),
            proper_type(list_type) ==> proper(lists@) && relists(
                before,
                tokens@,
                calm_state,
                Listed { tokens: tokens@, lists: lists@, emphasis, item },
            ),
            !done ==> lists@.len() > 0,
            done ==> lists@ == Seq::<List>::empty() && !item && emphasis == State::closed(),
            done ==> tokens@ == goal.tokens && iter.cur() == goal.pos,
            !done ==> list_body(
                s,
                Listed { tokens: tokens@, lists: lists@, emphasis, item },
                iter.cur(),
            ) == goal,
        decreases n - iter.cur() + (if done { 0int } else { 1int }),
    {
        let k = iter.consumed();
        match iter.next() {
            None => {
                end_item(&mut emphasis, &mut item, tokens, iter, n, n);
                close_deeper(None, &mut lists, tokens, iter, n);
                assert(lists@ =~= Seq::empty());
                done = true;
            },
            Some(v) => {
                let q = k + 1;
                if v.1 == '\n' {
                    done = end_line(&mut emphasis, &mut item, &mut lists, tokens, iter);
                } else if v.1 == '*' || v.1 == '~' || v.1 == '_' {
                    match_emphasis(&mut emphasis, text, tokens, iter, v);
                } else if v.1 == '[' {
                    match_link(text, tokens, iter, v);
                } else if v.1 == '-' {
                    match_checkbutton(text, tokens, iter, v);
                } else if v.1 == '\\' {
                    match_escape(text, tokens, iter, v);
                } else {
                    emit(tokens, iter, TokenType::Text, k, q);
                }
            },
        }
        proof {
            iter.lemma_bounds();
        }
    }
    assert(kinds(lists@) =~= Seq::empty());
}

/// A fenced code block: three backticks at the start of a line, the name of
/// the language up to the newline, the highlighted body, and the closing
/// fence.
///
/// `f` is the index after the backticks, of which at most two are read after
/// the first, and `j` that of the newline that ends the name. The
/// `CodeBlockLanguage` spans the name with that newline, and the
/// `CodeBlockEnd` the body with the first two backticks of the closing
/// fence. A block that is not
/// closed is `Text` to the end of the text, fewer than three backticks are
/// `Text`, and a backtick that is not at the start of a line is `Text`.
pub open spec fn codeblock(s: Seq<char>, toks: Seq<Token>, p: int, languages: Seq<Language>) -> Lexed {
    let i = p - 1;
    let r = run_end(s, p, '`');
    let f = if r < p + 2 {
        r
    } else {
        p + 2
    };
    let j = first_of(s, f, '\n', '\n');
    let h = highlight(s, Seq::empty(), j + 1, j + 1, rules_for(languages, s.subrange(f, j)));
    if !line_start(s, i) {
        Lexed { tokens: toks.push(span(TokenType::Text, s, i, p)), pos: p }
    } else if f - i < 3 {
        Lexed { tokens: toks.push(span(TokenType::Text, s, i, f)), pos: f }
    } else if j >= s.len() || !h.closed {
        Lexed { tokens: toks.push(span(TokenType::Text, s, i, s.len() as int)), pos: s.len() as int }
    } else {
        Lexed {
            tokens: toks.push(span(TokenType::CodeBlockBegin, s, i, f)).push(
                span(TokenType::CodeBlockLanguage, s, f, j + 1),
            ) + h.tokens,
            pos: h.pos,
        }
    }
}

/// Matches a fenced code block, highlighted by the definition of its
/// language among `languages`; `c` is the first backtick, just consumed.
pub fn match_codeblock(
    languages: &Vec<Language>,
    text: &String, tokens: &mut Vec<Token>,
    iter: &mut CharsWithPosition,
    c: (usize, char),
)
    requires
        old(iter).wf(),
        text@ == old(iter).text(),
        old(iter).cur() >= 1,
        c == old(iter).item(old(iter).cur() - 1),
    ensures
        final(iter).wf(),
        final(iter).text() == old(iter).text(),
        final(tokens)@ == codeblock(
            old(iter).text(),
            old(tokens)@,
            old(iter).cur(),
            languages@,
        ).tokens,
        final(iter).cur() == codeblock(old(iter).text(), old(tokens)@, old(iter).cur(), languages@).pos,
        old(iter).cur() <= final(iter).cur(),
        all_sound(old(iter).text(), old(tokens)@) ==> all_sound(old(iter).text(), final(tokens)@),
        old(tokens)@.len() <= final(tokens)@.len(),
        fences(old(tokens)@, final(tokens)@),
{
    let p = iter.consumed();
    let i = p - 1;
    let n = iter.len();
    if !at_line_start(iter, i) {
        emit(tokens, iter, TokenType::Text, i, p);
        return ;
    }
    let r = iter.skip_run(p, '`');
    let f = if r - p < 2 {
        r
    } else {
        p + 2
    };
    if f - i < 3 {
        emit(tokens, iter, TokenType::Text, i, f);
        iter.advance_to(f);
        return ;
    }
    let j = iter.find(f, '\n', '\n');
    if j >= n {
        emit(tokens, iter, TokenType::Text, i, n);
        iter.advance_to(n);
        return ;
    }
    let mut body: Vec<Token> = Vec::new();
    iter.advance_to(j + 1);
    let lang_end = iter.index();
    let closed = match find_language(languages, iter, f, j) {
        Some(x) => highlight_language(
            &languages[x].syntax,
            iter.part(text.as_str(), f, j),
            lang_end,
            text,
            &mut body,
            iter,
            c,
        ),
        None => highlight_generic(lang_end, &mut body, iter, c),
    };
    if closed {
        let ghost before = tokens@;
        let ghost code = body@;
        emit(tokens, iter, TokenType::CodeBlockBegin, i, f);
        emit(tokens, iter, TokenType::CodeBlockLanguage, f, j + 1);
        let ghost opened = tokens@;
        tokens.append(&mut body);
        proof {
            assert forall|base: Seq<Token>, x: Open|
                extends(base, before) && after(base, before, x).is_some() && !after(
                    base,
                    before,
                    x,
                ).unwrap().code implies #[trigger] after(base, tokens@, x) == after(
                base,
                before,
                x,
            ) by {
                let y = after(base, before, x).unwrap();
                let z = Open { code: true, ..y };
                assert(after(base, opened, x) == Some(z));
                assert(added(base, tokens@) =~= added(base, opened) + code);
                lemma_scan_concat(Some(x), added(base, opened), code);
                assert(added(Seq::empty(), code) =~= code);
                assert(added(Seq::empty(), Seq::<Token>::empty()) =~= Seq::<Token>::empty());
                assert(after(Seq::empty(), Seq::empty(), z) == Some(z));
                assert(after(Seq::empty(), code, z) == Some(y));
            }
        }
    } else {
        proof {
            iter.lemma_bounds();
        }
        emit(tokens, iter, TokenType::Text, i, n);
        iter.advance_to(n);
    }
}

} // verus!
