//! Converts an extended Markdown-like markup dialect into HTML.
//!
//! The text is scanned once into a sequence of [`Token`]s, each a tagged
//! half-open span of byte offsets into the text, and the token sequence is
//! then rendered into fragments of HTML.
use vstd::prelude::*;

pub mod token;
pub mod position;
pub mod text;
pub mod wrapper;
pub mod emphasis_state;
pub mod table;
pub mod pairing;
pub mod markdown;
pub mod syntax;
pub mod lexer;
pub mod parser;
pub mod theorems;

pub use token::Token;
pub use token::TokenType;

verus! {

/// Converts the markup `text` into an HTML document, after the stylesheet
/// block `css`, and returns the tokens of the text with the document.
///
/// The code of a fenced block is highlighted by the definition of its
/// language among `languages`.
pub fn to_html(text: &String, languages: &Vec<syntax::Language>, css: &str) -> (r: (
    Vec<Token>,
    String,
))
    ensures
        r.0@ == lexer::lex_spec(text@, languages@),
        token::all_sound(text@, r.0@),
        pairing::paired(r.0@),
        r.1@ == parser::page(parser::render(text@, r.0@), css@),
{
    let tokens = lexer::lex_with(text, languages);
    let html = parser::parse(text, &tokens);
    let page = parser::document(&html, css);
    (tokens, page)
}

} // verus!
