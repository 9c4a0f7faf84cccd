use markdowner::lexer::{lex, lex_with};
use markdowner::syntax::{parse, Language, Syntax};
use markdowner::token::{Token, TokenType};

fn tok(id: TokenType, begin: usize, end: usize) -> Token {
    Token::new(id, begin, end)
}

fn strings(v: &[&str]) -> Vec<String> {
    v.iter().map(|x| String::from(*x)).collect()
}

fn rust() -> Vec<Language> {
    let mut syntax = Syntax::new();
    syntax.keywords1 = strings(&["fn", "let"]);
    syntax.keywords2 = strings(&["u8"]);
    syntax.keywords3 = strings(&["Some"]);
    syntax.single_line_comment = String::from("//");
    syntax.multi_line_comment_open = String::from("/*");
    syntax.multi_line_comment_close = String::from("*/");
    vec![Language { name: String::from("rust"), syntax }]
}

#[test]
fn fenced_block_without_definition() {
    let tokens = lex(&String::from("```rust\nlet a_1 = f(\"s\") + 'c';\n```\nx"));
    assert_eq!(
        tokens,
        vec![
            tok(TokenType::CodeBlockBegin, 0, 3),
            tok(TokenType::CodeBlockLanguage, 3, 8),
            tok(TokenType::CodeBlockText, 8, 11),
            tok(TokenType::CodeBlockSymbol, 11, 12),
            tok(TokenType::CodeBlockText, 12, 15),
            tok(TokenType::CodeBlockSymbol, 15, 16),
            tok(TokenType::CodeBlockSymbol, 16, 17),
            tok(TokenType::CodeBlockSymbol, 17, 18),
            tok(TokenType::CodeBlockFunction, 18, 19),
            tok(TokenType::CodeBlockSymbol, 19, 20),
            tok(TokenType::CodeBlockString, 20, 23),
            tok(TokenType::CodeBlockSymbol, 23, 24),
            tok(TokenType::CodeBlockSymbol, 24, 25),
            tok(TokenType::CodeBlockSymbol, 25, 26),
            tok(TokenType::CodeBlockSymbol, 26, 27),
            tok(TokenType::CodeBlockChar, 27, 30),
            tok(TokenType::CodeBlockSymbol, 30, 31),
            tok(TokenType::CodeBlockSymbol, 31, 32),
            tok(TokenType::CodeBlockEnd, 8, 34),
            tok(TokenType::Newline, 35, 36),
            tok(TokenType::Text, 36, 37),
        ]
    );
}

#[test]
fn fenced_block_with_definition() {
    let text = "```rust\nfn f(x: u8) { Some(1) } // c\n/* m\n */ y\n```";
    let tokens = lex_with(&String::from(text), &rust());
    let found: Vec<(TokenType, &str)> =
        tokens.iter().map(|t| (t.id, &text[t.begin..t.end])).collect();
    assert_eq!(
        found,
        vec![
            (TokenType::CodeBlockBegin, "```"),
            (TokenType::CodeBlockLanguage, "rust\n"),
            (TokenType::CodeBlockKeyword1, "fn"),
            (TokenType::CodeBlockSymbol, " "),
            (TokenType::CodeBlockFunction, "f"),
            (TokenType::CodeBlockSymbol, "("),
            (TokenType::CodeBlockText, "x"),
            (TokenType::CodeBlockSymbol, ":"),
            (TokenType::CodeBlockSymbol, " "),
            (TokenType::CodeBlockKeyword2, "u8"),
            (TokenType::CodeBlockSymbol, ")"),
            (TokenType::CodeBlockSymbol, " "),
            (TokenType::CodeBlockSymbol, "{"),
            (TokenType::CodeBlockSymbol, " "),
            (TokenType::CodeBlockKeyword3, "Some"),
            (TokenType::CodeBlockSymbol, "("),
            (TokenType::CodeBlockDigit, "1"),
            (TokenType::CodeBlockSymbol, ")"),
            (TokenType::CodeBlockSymbol, " "),
            (TokenType::CodeBlockSymbol, "}"),
            (TokenType::CodeBlockSymbol, " "),
            (TokenType::CodeBlockSingleLineComment, "// c\n"),
            (TokenType::CodeBlockMultiLineComment, "/* m\n */"),
            (TokenType::CodeBlockSymbol, " "),
            (TokenType::CodeBlockText, "y"),
            (TokenType::CodeBlockSymbol, "\n"),
            (TokenType::CodeBlockEnd, "fn f(x: u8) { Some(1) } // c\n/* m\n */ y\n``"),
        ]
    );
}

#[test]
fn language_that_is_not_defined_is_highlighted_without_keywords() {
    let text = String::from("```go\nfn\n```");
    let tokens = lex_with(&text, &rust());
    assert_eq!(tokens[2], tok(TokenType::CodeBlockText, 6, 8));
    let text = String::from("```rust\nfn\n```");
    let tokens = lex_with(&text, &rust());
    assert_eq!(tokens[2], tok(TokenType::CodeBlockKeyword1, 8, 10));
}

#[test]
fn escapes_in_string_literals() {
    let text = "```\n\"a\\\"b\"\n```";
    let tokens = lex(&String::from(text));
    assert_eq!(
        tokens,
        vec![
            tok(TokenType::CodeBlockBegin, 0, 3),
            tok(TokenType::CodeBlockLanguage, 3, 4),
            tok(TokenType::CodeBlockString, 4, 6),
            tok(TokenType::CodeBlockEscape, 6, 8),
            tok(TokenType::CodeBlockString, 8, 10),
            tok(TokenType::CodeBlockSymbol, 10, 11),
            tok(TokenType::CodeBlockEnd, 4, 13),
        ]
    );
}

#[test]
fn unicode_identifiers() {
    let text = "```\né1 ٣\n```";
    let tokens = lex(&String::from(text));
    assert_eq!(tokens[2], tok(TokenType::CodeBlockText, 4, 7));
    assert_eq!(tokens[3], tok(TokenType::CodeBlockSymbol, 7, 8));
    assert_eq!(tokens[4], tok(TokenType::CodeBlockSymbol, 8, 10));
}

#[test]
fn block_that_is_not_closed_is_text() {
    assert_eq!(lex(&String::from("```rust\nlet a")), vec![tok(TokenType::Text, 0, 13)]);
    assert_eq!(lex(&String::from("```rust")), vec![tok(TokenType::Text, 0, 7)]);
    assert_eq!(lex(&String::from("```\n\"abc\n```\n")), vec![tok(TokenType::Text, 0, 13)]);
}

#[test]
fn backticks_that_open_no_block() {
    assert_eq!(
        lex(&String::from("``a")),
        vec![tok(TokenType::Text, 0, 2), tok(TokenType::Text, 2, 3)]
    );
    assert_eq!(
        lex(&String::from("a```\nb\n```")),
        vec![
            tok(TokenType::Text, 0, 1),
            tok(TokenType::Text, 1, 2),
            tok(TokenType::Text, 2, 3),
            tok(TokenType::Text, 3, 4),
            tok(TokenType::Newline, 4, 5),
            tok(TokenType::Text, 5, 6),
            tok(TokenType::Newline, 6, 7),
            tok(TokenType::Text, 7, 10),
        ]
    );
}

#[test]
fn fence_inside_the_body_that_does_not_end_a_line() {
    let text = "```\n```x\n```\n";
    let tokens = lex(&String::from(text));
    let found: Vec<(TokenType, &str)> =
        tokens.iter().map(|t| (t.id, &text[t.begin..t.end])).collect();
    assert_eq!(
        found,
        vec![
            (TokenType::CodeBlockBegin, "```"),
            (TokenType::CodeBlockLanguage, "\n"),
            (TokenType::CodeBlockSymbol, "`"),
            (TokenType::CodeBlockSymbol, "`"),
            (TokenType::CodeBlockSymbol, "`"),
            (TokenType::CodeBlockText, "x"),
            (TokenType::CodeBlockSymbol, "\n"),
            (TokenType::CodeBlockEnd, "```x\n``"),
            (TokenType::Newline, "\n"),
        ]
    );
}

#[test]
fn syntax_file() {
    let text = "keywords1 = [\"fn\", \"let\"]\nkeywords2 = [\n  \"u8\",\n]\nkeywords3 = []\n\
                single_line_comment = \"//\"\nmulti_line_comment_open = \"/*\"\n\
                multi_line_comment_close = \"*/\"\nother = \"x\"\n";
    let syntax = parse(&String::from(text));
    assert_eq!(syntax.keywords1, strings(&["fn", "let"]));
    assert_eq!(syntax.keywords2, strings(&["u8"]));
    assert_eq!(syntax.keywords3, Vec::<String>::new());
    assert_eq!(syntax.single_line_comment, "//");
    assert_eq!(syntax.multi_line_comment_open, "/*");
    assert_eq!(syntax.multi_line_comment_close, "*/");
}

#[test]
fn syntax_file_that_breaks_off() {
    let syntax = parse(&String::from("keywords1 = [\"a\", \"b"));
    assert_eq!(syntax.keywords1, strings(&["a"]));
    let syntax = parse(&String::from("single_line_comment = \"#"));
    assert_eq!(syntax.single_line_comment, "");
    let syntax = parse(&String::from("keywords1"));
    assert_eq!(syntax.keywords1, Vec::<String>::new());
    let syntax = parse(&String::from(""));
    assert_eq!(syntax.multi_line_comment_open, "");
}

#[test]
fn later_entry_replaces_earlier() {
    let syntax = parse(&String::from("keywords1 = [\"a\"]\nkeywords1 = [\"b\"]\n"));
    assert_eq!(syntax.keywords1, strings(&["b"]));
}

#[test]
fn comment_delimiter_takes_the_last_value() {
    let syntax = parse(&String::from("single_line_comment = [\"#\", \"--\"]\n"));
    assert_eq!(syntax.single_line_comment, "--");
    assert_eq!(syntax.single_open(), '-');
}

#[test]
fn first_characters_of_delimiters() {
    let languages = rust();
    assert_eq!(languages[0].syntax.single_open(), '/');
    assert_eq!(languages[0].syntax.multi_open(), '/');
}

#[test]
fn identifier_before_a_comment_a_quote_or_the_fence() {
    let text = "```rust\nx//c\ny\"s\"\nz/*m*/\nw```\n";
    let tokens = lex_with(&String::from(text), &rust());
    let found: Vec<(TokenType, &str)> =
        tokens.iter().map(|t| (t.id, &text[t.begin..t.end])).collect();
    assert_eq!(
        found,
        vec![
            (TokenType::CodeBlockBegin, "```"),
            (TokenType::CodeBlockLanguage, "rust\n"),
            (TokenType::CodeBlockText, "x"),
            (TokenType::CodeBlockSingleLineComment, "//c\n"),
            (TokenType::CodeBlockText, "y"),
            (TokenType::CodeBlockString, "\"s\""),
            (TokenType::CodeBlockSymbol, "\n"),
            (TokenType::CodeBlockText, "z"),
            (TokenType::CodeBlockMultiLineComment, "/*m*/"),
            (TokenType::CodeBlockSymbol, "\n"),
            (TokenType::CodeBlockText, "w"),
            (TokenType::CodeBlockEnd, "x//c\ny\"s\"\nz/*m*/\nw``"),
            (TokenType::Newline, "\n"),
        ]
    );
}

#[test]
fn end_of_the_block_spans_the_body() {
    let tokens = lex(&String::from("```\nab\n```\n"));
    assert_eq!(
        tokens,
        vec![
            tok(TokenType::CodeBlockBegin, 0, 3),
            tok(TokenType::CodeBlockLanguage, 3, 4),
            tok(TokenType::CodeBlockText, 4, 6),
            tok(TokenType::CodeBlockSymbol, 6, 7),
            tok(TokenType::CodeBlockEnd, 4, 9),
            tok(TokenType::Newline, 10, 11),
        ]
    );
}
