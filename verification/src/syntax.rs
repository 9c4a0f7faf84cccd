//! Syntax definitions of programming languages, and the highlighter that
//! lexes the body of a fenced code block with one.
use vstd::prelude::*;
use vstd::string::*;
use crate::token::{Token, TokenType, span, all_sound};
use crate::text::offset;
use crate::wrapper::{CharsWithPosition, first_of};
use crate::markdown::{Lexed, emit, holds_at, starts_with_at};
use crate::pairing::{passes, closes_code, extends, pairs};

verus! {

/// The syntax definition of a language: three tiers of keywords and the
/// delimiters of its comments. An empty delimiter stands for a kind of
/// comment that the language does not have.
#[derive(Debug)]
pub struct Syntax {
    pub keywords1: Vec<String>,
    pub keywords2: Vec<String>,
    pub keywords3: Vec<String>,
    pub single_line_comment: String,
    pub multi_line_comment_open: String,
    pub multi_line_comment_close: String,
}

/// A language that the highlighter knows: the name that a fenced code block
/// gives, and the syntax definition for it.
#[derive(Debug)]
pub struct Language {
    pub name: String,
    pub syntax: Syntax,
}

/// A syntax definition as plain values.
pub struct Rules {
    pub keywords1: Seq<Seq<char>>,
    pub keywords2: Seq<Seq<char>>,
    pub keywords3: Seq<Seq<char>>,
    pub single_line_comment: Seq<char>,
    pub multi_line_comment_open: Seq<char>,
    pub multi_line_comment_close: Seq<char>,
}

/// The words of a list of strings.
pub open spec fn words(v: Seq<String>) -> Seq<Seq<char>> {
    Seq::new(v.len(), |i: int| v[i]@)
}

impl View for Syntax {
    type V = Rules;

    open spec fn view(&self) -> Rules {
        Rules {
            keywords1: words(self.keywords1@),
            keywords2: words(self.keywords2@),
            keywords3: words(self.keywords3@),
            single_line_comment: self.single_line_comment@,
            multi_line_comment_open: self.multi_line_comment_open@,
            multi_line_comment_close: self.multi_line_comment_close@,
        }
    }
}

impl Rules {
    /// The definition without keywords and without comments.
    pub open spec fn empty() -> Rules {
        Rules {
            keywords1: Seq::empty(),
            keywords2: Seq::empty(),
            keywords3: Seq::empty(),
            single_line_comment: Seq::empty(),
            multi_line_comment_open: Seq::empty(),
            multi_line_comment_close: Seq::empty(),
        }
    }
}

impl Syntax {
    /// The definition without keywords and without comments.
    pub fn new() -> (r: Syntax)
        ensures
            r@ == Rules::empty(),
    {
        let r = Syntax {
            keywords1: Vec::new(),
            keywords2: Vec::new(),
            keywords3: Vec::new(),
            single_line_comment: String::new(),
            multi_line_comment_open: String::new(),
            multi_line_comment_close: String::new(),
        };
        assert(words(r.keywords1@) =~= Seq::empty());
        assert(words(r.keywords2@) =~= Seq::empty());
        assert(words(r.keywords3@) =~= Seq::empty());
        r
    }

    /// The first character of the delimiter that opens a single-line
    /// comment.
    pub fn single_open(&self) -> (c: char)
        requires
            self.single_line_comment@.len() > 0,
        ensures
            c == self.single_line_comment@[0],
    {
        self.single_line_comment.as_str().get_char(0)
    }

    /// The first character of the delimiter that opens a multi-line comment.
    pub fn multi_open(&self) -> (c: char)
        requires
            self.multi_line_comment_open@.len() > 0,
        ensures
            c == self.multi_line_comment_open@[0],
    {
        self.multi_line_comment_open.as_str().get_char(0)
    }
}

/// Whether `c` has the Unicode property Alphabetic, as `char::is_alphabetic`
/// reports it.
pub uninterp spec fn alphabetic(c: char) -> bool;

/// Whether `c` is alphabetic or numeric in Unicode, as
/// `char::is_alphanumeric` reports it.
pub uninterp spec fn alphanumeric(c: char) -> bool;

/// Calls `char::is_alphabetic`. The result is a function of the character
/// alone, which the contract names `alphabetic`; nothing more is claimed.
#[verifier::external_body]
fn is_alphabetic(c: char) -> (r: bool)
    ensures
        r == alphabetic(c),
{
    c.is_alphabetic()
}

/// Calls `char::is_alphanumeric`. The result is a function of the character
/// alone, which the contract names `alphanumeric`; nothing more is claimed.
#[verifier::external_body]
fn is_alphanumeric(c: char) -> (r: bool)
    ensures
        r == alphanumeric(c),
{
    c.is_alphanumeric()
}

/// Whether `c` is a decimal digit.
pub open spec fn digit(c: char) -> bool {
    '0' <= c <= '9'
}

/// Whether `c` is one of the letters `a` to `z` and `A` to `Z`.
pub open spec fn ascii_letter(c: char) -> bool {
    ('a' <= c <= 'z') || ('A' <= c <= 'Z')
}

/// Whether `c` is a letter: among the ASCII characters one of `a` to `z` and
/// `A` to `Z`, and among the others a character that is alphabetic.
pub open spec fn letter(c: char) -> bool {
    if (c as u32) < 128 {
        ascii_letter(c)
    } else {
        alphabetic(c)
    }
}

/// Whether `c` is a letter or a digit: among the ASCII characters one of
/// `a` to `z`, `A` to `Z` and `0` to `9`, and among the others a character
/// that is alphabetic or numeric.
pub open spec fn letter_or_digit(c: char) -> bool {
    if (c as u32) < 128 {
        ascii_letter(c) || digit(c)
    } else {
        alphanumeric(c)
    }
}

/// Whether `c` is a letter.
pub fn is_letter(c: char) -> (r: bool)
    ensures
        r == letter(c),
{
    if (c as u32) < 128 {
        ('a' <= c && c <= 'z') || ('A' <= c && c <= 'Z')
    } else {
        is_alphabetic(c)
    }
}

/// Whether `c` is a letter or a digit.
pub fn is_letter_or_digit(c: char) -> (r: bool)
    ensures
        r == letter_or_digit(c),
{
    if (c as u32) < 128 {
        ('a' <= c && c <= 'z') || ('A' <= c && c <= 'Z') || ('0' <= c && c <= '9')
    } else {
        is_alphanumeric(c)
    }
}

/// The classes of character by which the highlighter tells the pieces of
/// code apart.
#[derive(Debug, PartialEq, Eq, Clone, Copy, Structural)]
pub enum Class {
    /// The double quote, which begins a string.
    Quote,
    /// The single quote, which begins a character literal.
    Apostrophe,
    /// A decimal digit.
    Digit,
    /// A character that may begin an identifier: a letter or `_`.
    Letter,
    /// Any other character.
    Other,
}

/// The class of the character `c`, which is a letter if `letter`.
pub open spec fn class_of(c: char, letter: bool) -> Class {
    if c == '"' {
        Class::Quote
    } else if c == '\'' {
        Class::Apostrophe
    } else if digit(c) {
        Class::Digit
    } else if letter || c == '_' {
        Class::Letter
    } else {
        Class::Other
    }
}

/// The class of the character `c`, which is a letter if `letter`.
pub fn classify(c: char, letter: bool) -> (r: Class)
    ensures
        r == class_of(c, letter),
{
    if c == '"' {
        Class::Quote
    } else if c == '\'' {
        Class::Apostrophe
    } else if '0' <= c && c <= '9' {
        Class::Digit
    } else if letter || c == '_' {
        Class::Letter
    } else {
        Class::Other
    }
}

/// Whether an identifier may go on with the character `c`, which is a
/// letter or a digit if `letter_or_digit`.
pub fn continues_word(c: char, letter_or_digit: bool) -> (r: bool)
    ensures
        r == (letter_or_digit || c == '_'),
{
    letter_or_digit || c == '_'
}

/// Whether an identifier may go on with `c`.
pub open spec fn word_part(c: char) -> bool {
    letter_or_digit(c) || c == '_'
}

/// The first index at or after `from` that does not go on an identifier, or
/// the length of `s`.
pub open spec fn word_end(s: Seq<char>, from: int) -> int
    decreases s.len() - from,
{
    if from < 0 || from >= s.len() {
        s.len() as int
    } else if !word_part(s[from]) {
        from
    } else {
        word_end(s, from + 1)
    }
}

/// The first index at or after `from` at which `s` holds `pat`, or the
/// length of `s` where it holds it nowhere from there.
pub open spec fn find_seq(s: Seq<char>, from: int, pat: Seq<char>) -> int
    decreases s.len() - from,
{
    if from < 0 || from >= s.len() {
        s.len() as int
    } else if starts_with_at(s, from, pat) {
        from
    } else {
        find_seq(s, from + 1, pat)
    }
}

/// Whether `w` is one of `keywords`.
pub open spec fn is_word(keywords: Seq<Seq<char>>, w: Seq<char>) -> bool {
    exists|i: int| 0 <= i < keywords.len() && #[trigger] keywords[i] == w
}

/// A string or a character literal whose opening quote stands at `start`,
/// read from index `k`.
///
/// The literal runs up to and with the closing `quote`, or to the end of the
/// text. A backslash ends the piece before it and is, with the character
/// after it, a `CodeBlockEscape`; the next piece begins after the two.
pub open spec fn quoted(
    s: Seq<char>,
    toks: Seq<Token>,
    k: int,
    start: int,
    quote: char,
    id: TokenType,
) -> Lexed
    decreases s.len() - k,
{
    let j = first_of(s, k, quote, '\\');
    let e = if j + 2 <= s.len() {
        j + 2
    } else {
        s.len() as int
    };
    if k < 0 || j < k || j >= s.len() {
        Lexed { tokens: toks.push(span(id, s, start, s.len() as int)), pos: s.len() as int }
    } else if s[j] == quote {
        Lexed { tokens: toks.push(span(id, s, start, j + 1)), pos: j + 1 }
    } else {
        quoted(
            s,
            toks.push(span(id, s, start, j)).push(span(TokenType::CodeBlockEscape, s, j, e)),
            e,
            e,
            quote,
            id,
        )
    }
}

/// A literal between the quotes `begin` and `end`, after the opening quote
/// at index `p - 1`. Where another character stands there, nothing is
/// emitted or consumed.
pub open spec fn literal(
    s: Seq<char>,
    toks: Seq<Token>,
    p: int,
    begin: char,
    end: char,
    id: TokenType,
) -> Lexed {
    if p >= 1 && s[p - 1] == begin {
        quoted(s, toks, p, p - 1, end, id)
    } else {
        Lexed { tokens: toks, pos: p }
    }
}

/// Matches a string or a character literal of the code; `v` is the opening
/// quote just consumed.
pub fn string_or_char(
    begin: char,
    end: char,
    token_type: TokenType,
    tokens: &mut Vec<Token>,
    iter: &mut CharsWithPosition,
    v: (usize, char),
)
    requires
        old(iter).wf(),
        old(iter).cur() >= 1,
        v == old(iter).item(old(iter).cur() - 1),
    ensures
        final(iter).wf(),
        final(iter).text() == old(iter).text(),
        final(tokens)@ == literal(
            old(iter).text(),
            old(tokens)@,
            old(iter).cur(),
            begin,
            end,
            token_type,
        ).tokens,
        final(iter).cur() == literal(
            old(iter).text(),
            old(tokens)@,
            old(iter).cur(),
            begin,
            end,
            token_type,
        ).pos,
        old(iter).cur() <= final(iter).cur(),
        all_sound(old(iter).text(), old(tokens)@) ==> all_sound(old(iter).text(), final(tokens)@),
        old(tokens)@.len() <= final(tokens)@.len(),
        !pairs(token_type) ==> passes(old(tokens)@, final(tokens)@),
        extends(old(tokens)@, final(tokens)@),
{
    let p = iter.consumed();
    let n = iter.len();
    let ghost s = iter.text();
    let ghost before = tokens@;
    let ghost goal = literal(s, tokens@, p as int, begin, end, token_type);
    if v.1 != begin {
        return ;
    }
    let mut start: usize = p - 1;
    let mut k: usize = p;
    let mut done = false;
    while !done
        invariant
            iter.wf(),
            iter.text() == s,
            n == s.len(),
            p <= iter.cur(),
            start <= k <= n,
            all_sound(s, before) ==> all_sound(s, tokens@),
            before.len() <= tokens@.len(),
            !pairs(token_type) ==> passes(before, tokens@),
            extends(before, tokens@),
            done ==> tokens@ == goal.tokens && iter.cur() == goal.pos,
            !done ==> quoted(s, tokens@, k as int, start as int, end, token_type) == goal,
            !done ==> iter.cur() <= k,
        decreases n - k + (if done { 0int } else { 1int }),
    {
        let j = iter.find(k, end, '\\');
        if j >= n {
            emit(tokens, iter, token_type, start, n);
            iter.advance_to(n);
            done = true;
        } else if iter.is_at(j, end) {
            emit(tokens, iter, token_type, start, j + 1);
            iter.advance_to(j + 1);
            done = true;
        } else {
            let e = if n - j >= 2 {
                j + 2
            } else {
                n
            };
            emit(tokens, iter, token_type, start, j);
            emit(tokens, iter, TokenType::CodeBlockEscape, j, e);
            k = e;
            start = e;
        }
    }
}

/// Whether `keywords` holds the characters `begin..end` of the text.
pub fn is_keyword(
    iter: &CharsWithPosition,
    begin: usize,
    end: usize,
    keywords: &Vec<String>,
) -> (r: bool)
    requires
        iter.wf(),
        begin <= end <= iter.text().len(),
    ensures
        r == is_word(words(keywords@), iter.text().subrange(begin as int, end as int)),
{
    let ghost w = iter.text().subrange(begin as int, end as int);
    let mut i: usize = 0;
    while i < keywords.len()
        invariant
            iter.wf(),
            begin <= end <= iter.text().len(),
            w == iter.text().subrange(begin as int, end as int),
            i <= keywords.len(),
            forall|x: int| 0 <= x < i ==> words(keywords@)[x] != w,
        decreases keywords.len() - i,
    {
        let k = keywords[i].as_str();
        if k.unicode_len() == end - begin && holds_at(iter, begin, k) {
            assert(words(keywords@)[i as int] == w);
            return true;
        }
        assert(words(keywords@)[i as int] != w) by {
            if k@.len() == end - begin {
                assert(!starts_with_at(iter.text(), begin as int, k@));
            }
        }
        i = i + 1;
    }
    false
}

/// The kind of the identifier `w`: a keyword of the first tier that holds
/// it; else a function where `(` follows it; else text.
pub open spec fn word_kind(syn: Rules, w: Seq<char>, call: bool) -> TokenType {
    if is_word(syn.keywords1, w) {
        TokenType::CodeBlockKeyword1
    } else if is_word(syn.keywords2, w) {
        TokenType::CodeBlockKeyword2
    } else if is_word(syn.keywords3, w) {
        TokenType::CodeBlockKeyword3
    } else if call {
        TokenType::CodeBlockFunction
    } else {
        TokenType::CodeBlockText
    }
}

/// Whether a comment of the definition `syn` begins at index `k`.
pub open spec fn comment_at(s: Seq<char>, k: int, syn: Rules) -> bool {
    ||| syn.multi_line_comment_open.len() > 0 && starts_with_at(s, k, syn.multi_line_comment_open)
    ||| syn.single_line_comment.len() > 0 && starts_with_at(s, k, syn.single_line_comment)
}

/// Whether the character at index `j`, which ends an identifier, belongs to
/// the identifier's tokens: it is of the class `Other`, no backtick, and no
/// comment begins with it.
pub open spec fn ends_word(s: Seq<char>, j: int, syn: Rules) -> bool {
    0 <= j < s.len() && class_of(s[j], letter(s[j])) == Class::Other && s[j] != '`' && !comment_at(
        s,
        j,
        syn,
    )
}

/// An identifier that begins at index `p - 1`: one token of its kind over
/// it, and after it a `CodeBlockSymbol` over the character that ends it,
/// which is consumed, where that character belongs to the identifier's
/// tokens. A quote, a digit, a backtick, the first character of a comment
/// and the end of the text are left to what follows.
pub open spec fn identifier(s: Seq<char>, toks: Seq<Token>, p: int, syn: Rules) -> Lexed {
    let j = word_end(s, p);
    let call = j < s.len() && s[j] == '(';
    let word = toks.push(span(word_kind(syn, s.subrange(p - 1, j), call), s, p - 1, j));
    if ends_word(s, j, syn) {
        Lexed { tokens: word.push(span(TokenType::CodeBlockSymbol, s, j, j + 1)), pos: j + 1 }
    } else {
        Lexed { tokens: word, pos: j }
    }
}

/// Matches an identifier of the code, classifies it by the three tiers of
/// `keywords`, and takes the character that ends it where no comment that
/// `single` or `open` opens begins with it; `v` is the first character of
/// the identifier, just consumed.
pub fn word(
    keywords: (&Vec<String>, &Vec<String>, &Vec<String>),
    single: &str,
    open: &str,
    tokens: &mut Vec<Token>,
    iter: &mut CharsWithPosition,
    v: (usize, char),
)
    requires
        old(iter).wf(),
        old(iter).cur() >= 1,
        v == old(iter).item(old(iter).cur() - 1),
    ensures
        final(iter).wf(),
        final(iter).text() == old(iter).text(),
        ({
            let syn = Rules {
                keywords1: words(keywords.0@),
                keywords2: words(keywords.1@),
                keywords3: words(keywords.2@),
                single_line_comment: single@,
                multi_line_comment_open: open@,
                multi_line_comment_close: Seq::empty(),
            };
            let r = identifier(old(iter).text(), old(tokens)@, old(iter).cur(), syn);
            final(tokens)@ == r.tokens && final(iter).cur() == r.pos
        }),
        old(iter).cur() <= final(iter).cur(),
        all_sound(old(iter).text(), old(tokens)@) ==> all_sound(old(iter).text(), final(tokens)@),
        old(tokens)@.len() <= final(tokens)@.len(),
        passes(old(tokens)@, final(tokens)@),
{
    let p = iter.consumed();
    let n = iter.len();
    let mut j: usize = p;
    while j < n && continues_word(
        iter.char_at(j).unwrap(),
        is_letter_or_digit(iter.char_at(j).unwrap()),
    )
        invariant
            iter.wf(),
            n == iter.text().len(),
            p <= j <= n,
            word_end(iter.text(), p as int) == word_end(iter.text(), j as int),
        decreases n - j,
    {
        j = j + 1;
    }
    let id = if is_keyword(iter, p - 1, j, keywords.0) {
        TokenType::CodeBlockKeyword1
    } else if is_keyword(iter, p - 1, j, keywords.1) {
        TokenType::CodeBlockKeyword2
    } else if is_keyword(iter, p - 1, j, keywords.2) {
        TokenType::CodeBlockKeyword3
    } else if iter.is_at(j, '(') {
        TokenType::CodeBlockFunction
    } else {
        TokenType::CodeBlockText
    };
    emit(tokens, iter, id, p - 1, j);
    let ends = match iter.char_at(j) {
        Some(t) => classify(t, is_letter(t)) == Class::Other && t != '`' && !(open.unicode_len() > 0
            && holds_at(iter, j, open)) && !(single.unicode_len() > 0 && holds_at(iter, j, single)),
        None => false,
    };
    if ends {
        emit(tokens, iter, TokenType::CodeBlockSymbol, j, j + 1);
        iter.advance_to(j + 1);
    } else {
        iter.advance_to(j);
    }
}

/// Matches an identifier of the code, classifies it by the three tiers of
/// `keywords`, and takes the character that ends it, as `word` does for a
/// language without comments; `v` is the first character of the identifier,
/// just consumed. `lang` is the name of the language; the result does not
/// depend on it.
pub fn keyword(
    lang: &str,
    keywords: (&Vec<String>, &Vec<String>, &Vec<String>),
    text: &String,
    tokens: &mut Vec<Token>,
    iter: &mut CharsWithPosition,
    v: (usize, char),
)
    requires
        old(iter).wf(),
        text@ == old(iter).text(),
        old(iter).cur() >= 1,
        v == old(iter).item(old(iter).cur() - 1),
    ensures
        final(iter).wf(),
        final(iter).text() == old(iter).text(),
        ({
            let syn = Rules {
                keywords1: words(keywords.0@),
                keywords2: words(keywords.1@),
                keywords3: words(keywords.2@),
                ..Rules::empty()
            };
            let r = identifier(old(iter).text(), old(tokens)@, old(iter).cur(), syn);
            final(tokens)@ == r.tokens && final(iter).cur() == r.pos
        }),
        old(iter).cur() <= final(iter).cur(),
        all_sound(old(iter).text(), old(tokens)@) ==> all_sound(old(iter).text(), final(tokens)@),
        old(tokens)@.len() <= final(tokens)@.len(),
        passes(old(tokens)@, final(tokens)@),
{
    proof {
        reveal_strlit("");
        assert(""@ =~= Seq::<char>::empty());
    }
    word(keywords, "", "", tokens, iter, v);
}

/// A single-line comment that begins at index `p - 1` with the delimiter
/// `pat`: it runs up to and with the newline, or to the end of the text.
/// Where `pat` is empty or does not stand there, nothing is emitted or
/// consumed.
pub open spec fn line_comment(s: Seq<char>, toks: Seq<Token>, p: int, pat: Seq<char>) -> Lexed {
    let j = first_of(s, p - 1 + pat.len(), '\n', '\n');
    let e = if j < s.len() {
        j + 1
    } else {
        s.len() as int
    };
    if pat.len() > 0 && starts_with_at(s, p - 1, pat) {
        Lexed {
            tokens: toks.push(span(TokenType::CodeBlockSingleLineComment, s, p - 1, e)),
            pos: e,
        }
    } else {
        Lexed { tokens: toks, pos: p }
    }
}

/// A multi-line comment that begins at index `p - 1` with the delimiter
/// `open`: it runs up to and with the first `close` after the delimiter, or
/// to the end of the text. Where `open` is empty or does not stand there,
/// nothing is emitted or consumed.
pub open spec fn block_comment(
    s: Seq<char>,
    toks: Seq<Token>,
    p: int,
    open: Seq<char>,
    close: Seq<char>,
) -> Lexed {
    let j = find_seq(s, p - 1 + open.len(), close);
    let e = if j < s.len() {
        j + close.len()
    } else {
        s.len() as int
    };
    if open.len() > 0 && starts_with_at(s, p - 1, open) {
        Lexed {
            tokens: toks.push(span(TokenType::CodeBlockMultiLineComment, s, p - 1, e)),
            pos: e,
        }
    } else {
        Lexed { tokens: toks, pos: p }
    }
}

/// Matches a single-line comment of the code; `v` is the first character of
/// its delimiter, just consumed.
pub fn single_comment(
    single_comment: &String,
    tokens: &mut Vec<Token>,
    iter: &mut CharsWithPosition,
    v: (usize, char),
)
    requires
        old(iter).wf(),
        old(iter).cur() >= 1,
        v == old(iter).item(old(iter).cur() - 1),
    ensures
        final(iter).wf(),
        final(iter).text() == old(iter).text(),
        final(tokens)@ == line_comment(
            old(iter).text(),
            old(tokens)@,
            old(iter).cur(),
            single_comment@,
        ).tokens,
        final(iter).cur() == line_comment(
            old(iter).text(),
            old(tokens)@,
            old(iter).cur(),
            single_comment@,
        ).pos,
        old(iter).cur() <= final(iter).cur(),
        all_sound(old(iter).text(), old(tokens)@) ==> all_sound(old(iter).text(), final(tokens)@),
        old(tokens)@.len() <= final(tokens)@.len(),
        passes(old(tokens)@, final(tokens)@),
{
    let p = iter.consumed();
    let n = iter.len();
    let pat = single_comment.as_str();
    let m = pat.unicode_len();
    if m > 0 && holds_at(iter, p - 1, pat) {
        let j = iter.find(p - 1 + m, '\n', '\n');
        let e = if j < n {
            j + 1
        } else {
            n
        };
        emit(tokens, iter, TokenType::CodeBlockSingleLineComment, p - 1, e);
        iter.advance_to(e);
    }
}

/// Matches a multi-line comment of the code; `v` is the first character of
/// its opening delimiter, just consumed.
pub fn multi_comment(
    multi_comment_open: &String,
    multi_comment_close: &String,
    tokens: &mut Vec<Token>,
    iter: &mut CharsWithPosition,
    v: (usize, char),
)
    requires
        old(iter).wf(),
        old(iter).cur() >= 1,
        v == old(iter).item(old(iter).cur() - 1),
    ensures
        final(iter).wf(),
        final(iter).text() == old(iter).text(),
        final(tokens)@ == block_comment(
            old(iter).text(),
            old(tokens)@,
            old(iter).cur(),
            multi_comment_open@,
            multi_comment_close@,
        ).tokens,
        final(iter).cur() == block_comment(
            old(iter).text(),
            old(tokens)@,
            old(iter).cur(),
            multi_comment_open@,
            multi_comment_close@,
        ).pos,
        old(iter).cur() <= final(iter).cur(),
        all_sound(old(iter).text(), old(tokens)@) ==> all_sound(old(iter).text(), final(tokens)@),
        old(tokens)@.len() <= final(tokens)@.len(),
        passes(old(tokens)@, final(tokens)@),
{
    let p = iter.consumed();
    let n = iter.len();
    let open = multi_comment_open.as_str();
    let close = multi_comment_close.as_str();
    let m = open.unicode_len();
    if m > 0 && holds_at(iter, p - 1, open) {
        let from = p - 1 + m;
        let mut j: usize = from;
        while j < n && !holds_at(iter, j, close)
            invariant
                iter.wf(),
                n == iter.text().len(),
                from <= j <= n,
                find_seq(iter.text(), from as int, close@) == find_seq(
                    iter.text(),
                    j as int,
                    close@,
                ),
            decreases n - j,
        {
            j = j + 1;
        }
        let e = if j < n {
            j + close.unicode_len()
        } else {
            n
        };
        emit(tokens, iter, TokenType::CodeBlockMultiLineComment, p - 1, e);
        iter.advance_to(e);
    }
}

/// Whether the fence that closes a code block stands at index `k`: three
/// backticks, then a newline or the end of the text.
pub open spec fn fence_at(s: Seq<char>, k: int) -> bool {
    0 <= k && k + 3 <= s.len() && s[k] == '`' && s[k + 1] == '`' && s[k + 2] == '`' && (k + 3
        == s.len() || s[k + 3] == '\n')
}

/// Whether the fence that closes a code block stands at index `k` of the
/// text.
pub fn is_fence(iter: &CharsWithPosition, k: usize) -> (r: bool)
    requires
        iter.wf(),
    ensures
        r == fence_at(iter.text(), k as int),
{
    let n = iter.len();
    k < n && n - k >= 3 && iter.is_at(k, '`') && iter.is_at(k + 1, '`') && iter.is_at(k + 2, '`')
        && (k + 3 == n || iter.is_at(k + 3, '\n'))
}

/// The piece of code that begins at index `k`, which is no closing fence.
///
/// By the class of the character there, a quote begins a string or a
/// character literal, a digit is a `CodeBlockDigit`, and a letter or `_`
/// begins an identifier. Of the other characters, the delimiter of a
/// multi-line comment, and after it that of a single-line comment, begins a
/// comment, and any else is a `CodeBlockSymbol`.
pub open spec fn piece(s: Seq<char>, toks: Seq<Token>, k: int, syn: Rules) -> Lexed {
    let c = s[k];
    let p = k + 1;
    let class = class_of(c, letter(c));
    if class == Class::Quote {
        literal(s, toks, p, '"', '"', TokenType::CodeBlockString)
    } else if class == Class::Apostrophe {
        literal(s, toks, p, '\'', '\'', TokenType::CodeBlockChar)
    } else if class == Class::Digit {
        Lexed { tokens: toks.push(span(TokenType::CodeBlockDigit, s, k, p)), pos: p }
    } else if class == Class::Letter {
        identifier(s, toks, p, syn)
    } else if syn.multi_line_comment_open.len() > 0 && starts_with_at(
        s,
        k,
        syn.multi_line_comment_open,
    ) {
        block_comment(s, toks, p, syn.multi_line_comment_open, syn.multi_line_comment_close)
    } else if syn.single_line_comment.len() > 0 && starts_with_at(s, k, syn.single_line_comment) {
        line_comment(s, toks, p, syn.single_line_comment)
    } else {
        Lexed { tokens: toks.push(span(TokenType::CodeBlockSymbol, s, k, p)), pos: p }
    }
}

/// What the highlighter leaves behind: the tokens, the number of characters
/// consumed, and whether it found the fence that closes the block.
pub struct Highlighted {
    pub tokens: Seq<Token>,
    pub pos: int,
    pub closed: bool,
}

/// The body of a fenced code block that begins at index `from`, from index
/// `k` on, highlighted by the definition `syn`.
///
/// The body is lexed piece by piece up to the closing fence. The
/// `CodeBlockEnd` spans the body and the first two backticks of the fence,
/// and the newline after the fence is a `Newline`. The block is not closed
/// where the text ends before a fence.
pub open spec fn highlight(
    s: Seq<char>,
    toks: Seq<Token>,
    from: int,
    k: int,
    syn: Rules,
) -> Highlighted
    decreases s.len() - k,
{
    let st = piece(s, toks, k, syn);
    if k < 0 || k >= s.len() {
        Highlighted { tokens: toks, pos: s.len() as int, closed: false }
    } else if fence_at(s, k) {
        if k + 3 < s.len() {
            Highlighted {
                tokens: toks.push(span(TokenType::CodeBlockEnd, s, from, k + 2)).push(
                    span(TokenType::Newline, s, k + 3, k + 4),
                ),
                pos: k + 4,
                closed: true,
            }
        } else {
            Highlighted {
                tokens: toks.push(span(TokenType::CodeBlockEnd, s, from, k + 2)),
                pos: k + 3,
                closed: true,
            }
        }
    } else if k < st.pos <= s.len() {
        highlight(s, st.tokens, from, st.pos, syn)
    } else {
        Highlighted { tokens: st.tokens, pos: st.pos, closed: false }
    }
}

/// Highlights the body of a fenced code block from the cursor by the
/// definition `syntax`, and says whether the block is closed.
fn highlight_body(syntax: &Syntax, tokens: &mut Vec<Token>, iter: &mut CharsWithPosition) -> (closed:
    bool)
    requires
        old(iter).wf(),
    ensures
        final(iter).wf(),
        final(iter).text() == old(iter).text(),
        final(tokens)@ == highlight(
            old(iter).text(),
            old(tokens)@,
            old(iter).cur(),
            old(iter).cur(),
            syntax@,
        ).tokens,
        final(iter).cur() == highlight(
            old(iter).text(),
            old(tokens)@,
            old(iter).cur(),
            old(iter).cur(),
            syntax@,
        ).pos,
        closed == highlight(
            old(iter).text(),
            old(tokens)@,
            old(iter).cur(),
            old(iter).cur(),
            syntax@,
        ).closed,
        old(iter).cur() <= final(iter).cur(),
        all_sound(old(iter).text(), old(tokens)@) ==> all_sound(old(iter).text(), final(tokens)@),
        old(tokens)@.len() <= final(tokens)@.len(),
        closes_code(old(tokens)@, final(tokens)@, closed),
{
    let n = iter.len();
    let ghost s = iter.text();
    let ghost before = tokens@;
    let from = iter.consumed();
    let ghost start = iter.cur();
    let ghost goal = highlight(s, tokens@, from as int, iter.cur(), syntax@);
    let mut closed = false;
    let mut done = false;
    while !done
        invariant
            iter.wf(),
            iter.text() == s,
            n == s.len(),
            start <= iter.cur() <= n,
            all_sound(s, before) ==> all_sound(s, tokens@),
            before.len() <= tokens@.len(),
            !done ==> passes(before, tokens@),
            done ==> closes_code(before, tokens@, closed),
            done ==> tokens@ == goal.tokens && iter.cur() == goal.pos && closed == goal.closed,
            from == start,
            !done ==> highlight(s, tokens@, from as int, iter.cur(), syntax@) == goal,
        decreases n - iter.cur() + (if done { 0int } else { 1int }),
    {
        let k = iter.consumed();
        if k >= n {
            closed = false;
            done = true;
        } else if is_fence(iter, k) {
            emit(tokens, iter, TokenType::CodeBlockEnd, from, k + 2);
            if k + 3 < n {
                emit(tokens, iter, TokenType::Newline, k + 3, k + 4);
                iter.advance_to(k + 4);
            } else {
                iter.advance_to(k + 3);
            }
            closed = true;
            done = true;
        } else {
            let v = iter.next().unwrap();
            let open = syntax.multi_line_comment_open.as_str();
            let single = syntax.single_line_comment.as_str();
            let class = classify(v.1, is_letter(v.1));
            if class == Class::Quote {
                string_or_char('"', '"', TokenType::CodeBlockString, tokens, iter, v);
            } else if class == Class::Apostrophe {
                string_or_char('\'', '\'', TokenType::CodeBlockChar, tokens, iter, v);
            } else if class == Class::Digit {
                emit(tokens, iter, TokenType::CodeBlockDigit, k, k + 1);
            } else if class == Class::Letter {
                word(
                    (&syntax.keywords1, &syntax.keywords2, &syntax.keywords3),
                    single,
                    open,
                    tokens,
                    iter,
                    v,
                );
            } else if open.unicode_len() > 0 && holds_at(iter, k, open) {
                multi_comment(
                    &syntax.multi_line_comment_open,
                    &syntax.multi_line_comment_close,
                    tokens,
                    iter,
                    v,
                );
            } else if single.unicode_len() > 0 && holds_at(iter, k, single) {
                single_comment(&syntax.single_line_comment, tokens, iter, v);
            } else {
                emit(tokens, iter, TokenType::CodeBlockSymbol, k, k + 1);
            }
            proof {
                iter.lemma_bounds();
            }
        }
    }
    closed
}

/// Highlights the body of a fenced code block from the cursor by the
/// definition `syntax`, and says whether the block is closed.
///
/// `lang` is the name of the language and `c` the first backtick of the
/// fence that opened the block; the result does not depend on them.
/// `lang_end` is the byte offset at which the body begins, where the cursor
/// stands.
pub fn highlight_language(
    syntax: &Syntax,
    lang: &str,
    lang_end: usize,
    text: &String,
    tokens: &mut Vec<Token>,
    iter: &mut CharsWithPosition,
    c: (usize, char),
) -> (closed: bool)
    requires
        old(iter).wf(),
        text@ == old(iter).text(),
        lang_end == offset(old(iter).text(), old(iter).cur()),
    ensures
        final(iter).wf(),
        final(iter).text() == old(iter).text(),
        final(tokens)@ == highlight(
            old(iter).text(),
            old(tokens)@,
            old(iter).cur(),
            old(iter).cur(),
            syntax@,
        ).tokens,
        final(iter).cur() == highlight(
            old(iter).text(),
            old(tokens)@,
            old(iter).cur(),
            old(iter).cur(),
            syntax@,
        ).pos,
        closed == highlight(
            old(iter).text(),
            old(tokens)@,
            old(iter).cur(),
            old(iter).cur(),
            syntax@,
        ).closed,
        old(iter).cur() <= final(iter).cur(),
        all_sound(old(iter).text(), old(tokens)@) ==> all_sound(old(iter).text(), final(tokens)@),
        old(tokens)@.len() <= final(tokens)@.len(),
        closes_code(old(tokens)@, final(tokens)@, closed),
{
    highlight_body(syntax, tokens, iter)
}

/// Highlights the body of a fenced code block from the cursor without a
/// syntax definition, and says whether the block is closed: as
/// `highlight_language` does by a definition without keywords and comments.
///
/// `lang_end` is the byte offset at which the body begins, where the cursor
/// stands, and `c` the first backtick of the fence that opened the block.
pub fn highlight_generic(
    lang_end: usize,
    tokens: &mut Vec<Token>,
    iter: &mut CharsWithPosition,
    c: (usize, char),
) -> (closed: bool)
    requires
        old(iter).wf(),
        lang_end == offset(old(iter).text(), old(iter).cur()),
    ensures
        final(iter).wf(),
        final(iter).text() == old(iter).text(),
        final(tokens)@ == highlight(
            old(iter).text(),
            old(tokens)@,
            old(iter).cur(),
            old(iter).cur(),
            Rules::empty(),
        ).tokens,
        final(iter).cur() == highlight(
            old(iter).text(),
            old(tokens)@,
            old(iter).cur(),
            old(iter).cur(),
            Rules::empty(),
        ).pos,
        closed == highlight(
            old(iter).text(),
            old(tokens)@,
            old(iter).cur(),
            old(iter).cur(),
            Rules::empty(),
        ).closed,
        old(iter).cur() <= final(iter).cur(),
        all_sound(old(iter).text(), old(tokens)@) ==> all_sound(old(iter).text(), final(tokens)@),
        old(tokens)@.len() <= final(tokens)@.len(),
        closes_code(old(tokens)@, final(tokens)@, closed),
{
    let syntax = Syntax::new();
    highlight_body(&syntax, tokens, iter)
}

/// The index of the first of `languages`, from index `i`, that is named
/// `name`; their number where none is.
pub open spec fn language_index(languages: Seq<Language>, i: int, name: Seq<char>) -> int
    decreases languages.len() - i,
{
    if i < 0 || i >= languages.len() {
        languages.len() as int
    } else if languages[i].name@ == name {
        i
    } else {
        language_index(languages, i + 1, name)
    }
}

/// The definition by which code of the language `name` is highlighted: that
/// of the first of `languages` of that name, and the empty one where none has
/// it.
pub open spec fn rules_for(languages: Seq<Language>, name: Seq<char>) -> Rules {
    let i = language_index(languages, 0, name);
    if 0 <= i < languages.len() {
        languages[i].syntax@
    } else {
        Rules::empty()
    }
}

/// The index of the first of `languages` whose name is the characters
/// `begin..end` of the text.
pub fn find_language(
    languages: &Vec<Language>,
    iter: &CharsWithPosition,
    begin: usize,
    end: usize,
) -> (r: Option<usize>)
    requires
        iter.wf(),
        begin <= end <= iter.text().len(),
    ensures
        match r {
            Some(i) => i < languages.len() && i == language_index(
                languages@,
                0,
                iter.text().subrange(begin as int, end as int),
            ),
            None => language_index(
                languages@,
                0,
                iter.text().subrange(begin as int, end as int),
            ) == languages.len(),
        },
{
    let ghost name = iter.text().subrange(begin as int, end as int);
    let mut i: usize = 0;
    while i < languages.len()
        invariant
            iter.wf(),
            begin <= end <= iter.text().len(),
            name == iter.text().subrange(begin as int, end as int),
            i <= languages.len(),
            language_index(languages@, 0, name) == language_index(languages@, i as int, name),
        decreases languages.len() - i,
    {
        let k = languages[i].name.as_str();
        if k.unicode_len() == end - begin && holds_at(iter, begin, k) {
            return Some(i);
        }
        assert(languages@[i as int].name@ != name) by {
            if k@.len() == end - begin {
                assert(!starts_with_at(iter.text(), begin as int, k@));
            }
        }
        i = i + 1;
    }
    None
}

/// The definition `syn` after the entry `key` with the `values`.
///
/// The three keys of keywords take all the values. The three keys of
/// comment delimiters take the last value, and nothing where there is none.
/// An entry with another key changes nothing.
pub open spec fn assign(syn: Rules, key: Seq<char>, values: Seq<Seq<char>>) -> Rules {
    if key == "keywords1"@ {
        Rules { keywords1: values, ..syn }
    } else if key == "keywords2"@ {
        Rules { keywords2: values, ..syn }
    } else if key == "keywords3"@ {
        Rules { keywords3: values, ..syn }
    } else if key == "single_line_comment"@ && values.len() > 0 {
        Rules { single_line_comment: values.last(), ..syn }
    } else if key == "multi_line_comment_open"@ && values.len() > 0 {
        Rules { multi_line_comment_open: values.last(), ..syn }
    } else if key == "multi_line_comment_close"@ && values.len() > 0 {
        Rules { multi_line_comment_close: values.last(), ..syn }
    } else {
        syn
    }
}

/// The values of an entry, and the index after them.
pub struct Values {
    pub values: Seq<Seq<char>>,
    pub pos: int,
}

/// The values of an array from index `a`, after its `[` or after one of its
/// values: each is what stands between two double quotes, up to the `]`. An
/// array that the end of the text cuts short has the values read so far.
pub open spec fn array(s: Seq<char>, a: int, values: Seq<Seq<char>>) -> Values
    decreases s.len() - a,
{
    let j = first_of(s, a, ']', '"');
    let c = first_of(s, j + 1, '"', '"');
    if a < 0 || j < a || j >= s.len() {
        Values { values, pos: s.len() as int }
    } else if s[j] == ']' {
        Values { values, pos: j + 1 }
    } else if c <= j || c >= s.len() {
        Values { values, pos: s.len() as int }
    } else {
        array(s, c + 1, values.push(s.subrange(j + 1, c)))
    }
}

/// The values of an entry, read from index `from`: after the first `[` an
/// array, and after the first double quote one value up to the next double
/// quote, whichever comes first. No values where neither comes, or where the
/// text ends within the one value.
pub open spec fn value(s: Seq<char>, from: int) -> Values {
    let v = first_of(s, from, '[', '"');
    let c = first_of(s, v + 1, '"', '"');
    if v >= s.len() {
        Values { values: Seq::empty(), pos: s.len() as int }
    } else if s[v] == '[' {
        array(s, v + 1, Seq::empty())
    } else if c >= s.len() {
        Values { values: Seq::empty(), pos: s.len() as int }
    } else {
        Values { values: seq![s.subrange(v + 1, c)], pos: c + 1 }
    }
}

/// The definition that the text `s` of a syntax file gives from index `k`,
/// after the definition `syn` of the entries before.
///
/// An entry begins with a letter: its key runs up to the first space, and
/// its values follow. What stands between entries is passed over.
pub open spec fn entries(s: Seq<char>, k: int, syn: Rules) -> Rules
    decreases s.len() - k,
{
    let e = first_of(s, k + 1, ' ', ' ');
    let v = value(s, e + 1);
    if k < 0 || k >= s.len() {
        syn
    } else if !letter(s[k]) {
        entries(s, k + 1, syn)
    } else if e >= s.len() {
        syn
    } else if k < v.pos <= s.len() {
        entries(s, v.pos, assign(syn, s.subrange(k, e), v.values))
    } else {
        syn
    }
}

/// Reads the values of an entry from index `from` and returns them with the
/// index after them.
fn read_value(text: &str, iter: &CharsWithPosition, from: usize) -> (r: (Vec<String>, usize))
    requires
        iter.wf(),
        iter.text() == text@,
        from <= iter.text().len(),
    ensures
        words(r.0@) == value(text@, from as int).values,
        r.1 == value(text@, from as int).pos,
        from <= r.1 <= text@.len(),
{
    let n = iter.len();
    let ghost s = text@;
    let mut values: Vec<String> = Vec::new();
    assert(words(values@) =~= Seq::empty());
    let v = iter.find(from, '[', '"');
    if v >= n {
        return (values, n);
    }
    if iter.is_at(v, '[') {
        let ghost goal = array(s, v + 1, Seq::empty());
        let mut a: usize = v + 1;
        let mut done = false;
        while !done
            invariant
                iter.wf(),
                iter.text() == s,
                s == text@,
                n == s.len(),
                from <= a <= n,
                done ==> words(values@) == goal.values && a == goal.pos,
                !done ==> array(s, a as int, words(values@)) == goal,
            decreases n - a + (if done { 0int } else { 1int }),
        {
            let j = iter.find(a, ']', '"');
            if j >= n {
                a = n;
                done = true;
            } else if iter.is_at(j, ']') {
                a = j + 1;
                done = true;
            } else {
                let c = iter.find(j + 1, '"', '"');
                if c >= n {
                    a = n;
                    done = true;
                } else {
                    let ghost before = words(values@);
                    values.push(String::from_str(iter.part(text, j + 1, c)));
                    assert(words(values@) =~= before.push(s.subrange(j + 1, c as int)));
                    a = c + 1;
                }
            }
        }
        (values, a)
    } else {
        let c = iter.find(v + 1, '"', '"');
        if c >= n {
            (values, n)
        } else {
            values.push(String::from_str(iter.part(text, v + 1, c)));
            assert(words(values@) =~= seq![s.subrange(v + 1, c as int)]);
            (values, c + 1)
        }
    }
}

/// Whether the characters `k..e` of the text are `name`.
fn key_is(iter: &CharsWithPosition, k: usize, e: usize, name: &str) -> (r: bool)
    requires
        iter.wf(),
        k <= e <= iter.text().len(),
    ensures
        r == (iter.text().subrange(k as int, e as int) == name@),
{
    if name.unicode_len() == e - k {
        holds_at(iter, k, name)
    } else {
        false
    }
}

/// Stores the `values` of the entry whose key is the characters `k..e` of
/// the text.
fn store(syntax: &mut Syntax, iter: &CharsWithPosition, k: usize, e: usize, values: Vec<String>)
    requires
        iter.wf(),
        k <= e <= iter.text().len(),
    ensures
        final(syntax)@ == assign(
            old(syntax)@,
            iter.text().subrange(k as int, e as int),
            words(values@),
        ),
{
    let mut values = values;
    let ghost all = words(values@);
    let count = values.len();
    if key_is(iter, k, e, "keywords1") {
        syntax.keywords1 = values;
    } else if key_is(iter, k, e, "keywords2") {
        syntax.keywords2 = values;
    } else if key_is(iter, k, e, "keywords3") {
        syntax.keywords3 = values;
    } else if key_is(iter, k, e, "single_line_comment") && count > 0 {
        syntax.single_line_comment = values.pop().unwrap();
        assert(syntax.single_line_comment@ == all.last());
    } else if key_is(iter, k, e, "multi_line_comment_open") && count > 0 {
        syntax.multi_line_comment_open = values.pop().unwrap();
        assert(syntax.multi_line_comment_open@ == all.last());
    } else if key_is(iter, k, e, "multi_line_comment_close") && count > 0 {
        syntax.multi_line_comment_close = values.pop().unwrap();
        assert(syntax.multi_line_comment_close@ == all.last());
    }
}

/// Reads the syntax definition of a language from the text of its file.
pub fn parse(text: &String) -> (syntax: Syntax)
    ensures
        syntax@ == entries(text@, 0, Rules::empty()),
{
    let iter = CharsWithPosition::new(text.as_str());
    let n = iter.len();
    let ghost s = text@;
    let mut syntax = Syntax::new();
    let mut k: usize = 0;
    let mut done = false;
    while !done
        invariant
            iter.wf(),
            iter.text() == s,
            s == text@,
            n == s.len(),
            k <= n,
            done ==> syntax@ == entries(s, 0, Rules::empty()),
            !done ==> entries(s, k as int, syntax@) == entries(s, 0, Rules::empty()),
        decreases n - k + (if done { 0int } else { 1int }),
    {
        if k >= n {
            done = true;
        } else if !is_letter(iter.char_at(k).unwrap()) {
            k = k + 1;
        } else {
            let e = iter.find(k + 1, ' ', ' ');
            if e >= n {
                done = true;
            } else {
                let (values, pos) = read_value(text.as_str(), &iter, e + 1);
                store(&mut syntax, &iter, k, e, values);
                k = pos;
            }
        }
    }
    syntax
}

} // verus!
