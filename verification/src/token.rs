//! Tokens: tagged half-open spans of byte offsets into the lexed text.
use vstd::prelude::*;
use crate::text::{offset, byte_len, is_span, lemma_offset_grows};

verus! {

/// Every kind of token the lexer can emit.
///
/// `Checkbutton(bool)` is the only kind that carries a value: `true` means
/// that the checkbutton is checked.
#[derive(Debug, PartialEq, Eq, Clone, Copy, Structural)]
pub enum TokenType {
    Newline,
    Tab,
    Space,
    Heading,
    Hash,
    Text,
    Error,
    Checkbutton(bool),
    ImageAlt,
    ImageSrc,
    LinkText,
    LinkHref,
    HorizontalRule,
    BlockquoteBegin,
    BlockquoteEnd,
    Code,
    CodeBlockBegin,
    CodeBlockEnd,
    CodeBlockLanguage,
    CodeBlockText,
    CodeBlockString,
    CodeBlockChar,
    CodeBlockDigit,
    CodeBlockKeyword1,
    CodeBlockKeyword2,
    CodeBlockKeyword3,
    CodeBlockSymbol,
    CodeBlockFunction,
    CodeBlockSingleLineComment,
    CodeBlockMultiLineComment,
    CodeBlockEscape,
    IndentBlock,
    Escape,
    ItalicBegin,
    ItalicEnd,
    BoldBegin,
    BoldEnd,
    StrikeBegin,
    StrikeEnd,
    UnderlineBegin,
    UnderlineEnd,
    Pipe,
    PossibleTableStart,
    TableBegin,
    TableEnd,
    TableColumnLeft,
    TableColumnRight,
    TableColumnCenter,
    UnorderedListBegin,
    UnorderedListEnd,
    OrderedListBegin,
    OrderedListEnd,
    ListItemBegin,
    ListItemEnd,
    Html,
}

/// A lexer token: the bytes `begin..end` of the text, tagged with a kind.
#[derive(Debug, PartialEq, Eq, Clone, Copy, Structural)]
pub struct Token {
    pub id: TokenType,
    pub begin: usize,
    pub end: usize,
}

impl Token {
    /// A token of kind `id` over the bytes `begin..end`.
    pub fn new(id: TokenType, begin: usize, end: usize) -> (t: Token)
        ensures
            t == (Token { id, begin, end }),
    {
        Token { id, begin, end }
    }

    /// A token of kind `id` that is one byte long.
    pub fn new_single(id: TokenType, begin: usize) -> (t: Token)
        requires
            begin < usize::MAX,
        ensures
            t == (Token { id, begin, end: (begin + 1) as usize }),
    {
        Token { id, begin, end: begin + 1 }
    }

    /// A token of kind `id` that is two bytes long.
    pub fn new_double(id: TokenType, begin: usize) -> (t: Token)
        requires
            begin < usize::MAX - 1,
        ensures
            t == (Token { id, begin, end: (begin + 2) as usize }),
    {
        Token { id, begin, end: begin + 2 }
    }
}

/// The token of kind `id` over characters `b..e` of the text `s`.
pub open spec fn span(id: TokenType, s: Seq<char>, b: int, e: int) -> Token {
    Token { id, begin: offset(s, b) as usize, end: offset(s, e) as usize }
}

/// Whether `t` names a span of whole characters of `s`: its offsets are in
/// order and each falls between two characters, at the start or at the end.
pub open spec fn sound(s: Seq<char>, t: Token) -> bool {
    is_span(s, t.begin as int, t.end as int)
}

/// Whether every token of `ts` names a span of whole characters of `s`.
pub open spec fn all_sound(s: Seq<char>, ts: Seq<Token>) -> bool {
    forall|i: int| 0 <= i < ts.len() ==> sound(s, #[trigger] ts[i])
}

/// A token over characters `b..e` of a text is sound.
pub proof fn lemma_span_sound(id: TokenType, s: Seq<char>, b: int, e: int)
    requires
        0 <= b <= e <= s.len(),
        byte_len(s) <= usize::MAX,
    ensures
        sound(s, span(id, s, b, e)),
{
    lemma_offset_grows(s, b, e);
    lemma_offset_grows(s, e, s.len() as int);
}

} // verus!
