use markdowner::lexer::lex;
use markdowner::parser::{document, parse, strip_indent, to_decimal};
use markdowner::text::substring;
use markdowner::to_html;
use markdowner::token::{Token, TokenType};

fn html(text: &str) -> Vec<String> {
    let text = String::from(text);
    let tokens = lex(&text);
    parse(&text, &tokens)
}

fn page(text: &str) -> String {
    html(text).concat()
}

#[test]
fn heading_swallows_its_newline() {
    assert_eq!(html("# Title\n"), vec!["<h1>Title</h1>\n"]);
}

#[test]
fn heading_levels_render() {
    assert_eq!(html("### a b"), vec!["<h3>a b</h3>\n"]);
    assert_eq!(html("###### x\ny"), vec!["<h6>x</h6>\n", "y"]);
    assert_eq!(
        html("####### x"),
        vec!["<span class=\"error\">ERROR: #######</span>\n", " ", "x"]
    );
}

#[test]
fn heading_level_of_many_digits() {
    let text = String::from("############ x");
    let tokens = vec![
        Token::new(TokenType::Heading, 0, 12),
        Token::new(TokenType::Space, 12, 13),
        Token::new(TokenType::Text, 13, 14),
    ];
    assert_eq!(parse(&text, &tokens), vec!["<h12>x</h12>\n"]);
}

#[test]
fn decimal_digits() {
    assert_eq!(to_decimal(0), "0");
    assert_eq!(to_decimal(7), "7");
    assert_eq!(to_decimal(10), "10");
    assert_eq!(to_decimal(4096), "4096");
}

#[test]
fn escape_renders_the_character() {
    assert_eq!(html("\\*"), vec!["*"]);
    assert_eq!(page("\\*a\\*"), "*a*");
    assert_eq!(page("\\# x"), "# x");
    assert_eq!(page("\\\\"), "\\");
    assert_eq!(page("\\é"), "é");
    assert_eq!(html("\\"), Vec::<String>::new());
}

#[test]
fn emphasis_renders_as_tags() {
    assert_eq!(page("*a* **b** ~~c~~ __d__"), "<i>a</i> <b>b</b> <strike>c</strike> <u>d</u>");
    assert_eq!(page("*a"), "<i>a</i>");
}

#[test]
fn checkbuttons_render() {
    assert_eq!(
        html("- [ ] a\n- [x] b"),
        vec![
            "<input type=\"checkbox\">",
            " ",
            "a",
            "<br>\n",
            "<input type=\"checkbox\" checked>",
            " ",
            "b",
        ]
    );
}

#[test]
fn images_and_links_render() {
    assert_eq!(html("![alt](src)"), vec!["<img alt=\"alt\"", " src=\"src\">"]);
    assert_eq!(html("[text](href)"), vec!["<a href=\"href\">", "text</a>"]);
    assert_eq!(html("[](href)"), vec!["<a href=\"href\">", "href</a>"]);
    assert_eq!(
        html("[t](h\n"),
        vec!["<span class=\"error\">ERROR: [t](h</span>\n", "<br>\n"]
    );
}

#[test]
fn image_without_a_source_token() {
    let text = String::from("alt");
    let tokens = vec![Token::new(TokenType::ImageAlt, 0, 3)];
    assert_eq!(parse(&text, &tokens), vec!["<img alt=\"alt\"", " src=\"\">"]);
}

#[test]
fn rules_code_and_breaks_render() {
    assert_eq!(html("---\n"), vec!["<hr>\n"]);
    assert_eq!(html("`a<b`"), vec!["<code>a<b</code>"]);
    assert_eq!(html("a\nb\tc"), vec!["a", "<br>\n", "b", "\t", "c"]);
}

#[test]
fn blockquote_renders() {
    assert_eq!(
        html(">a*b*\n\nc"),
        vec!["<blockquote>", "a", "<i>", "b", "</i>", "</blockquote>", "c"]
    );
}

#[test]
fn indented_block_renders_without_indentation() {
    assert_eq!(html("a\n    b\n    c\nd"), vec!["a", "<br>\n", "<pre>b\nc</pre>", "d"]);
    assert_eq!(html("a\n    b"), vec!["a", "<br>\n", "<pre>b</pre>"]);
}

#[test]
fn strip_indent_takes_four_spaces_after_each_newline() {
    assert_eq!(strip_indent("a\n    b\n     c\n  d"), "a\nb\n c\n  d");
    assert_eq!(strip_indent(""), "");
    assert_eq!(strip_indent("\n    "), "\n");
}

#[test]
fn lists_render() {
    assert_eq!(
        page("* a\n  * b\n* c\n"),
        "\n<ul>\n<li>a</li>\n<ul>\n<li>b</li>\n</ul>\n<li>c</li>\n</ul>\n"
    );
    assert_eq!(page("1. a\n"), "\n<ol>\n<li>a</li>\n</ol>\n");
}

#[test]
fn table_renders() {
    let text = "| A | B |\n| --- | ---: |\n| 1 | 2 |\n";
    assert_eq!(
        page(text),
        "<table>\n<tr>\n<th align=\"left\">\n A \n</th>\n<th align=\"right\">\n B \n</th>\n</tr>\n\
         <tr>\n<td>\n 1 \n</td>\n<td>\n 2 \n</td>\n</tr>\n</table>\n"
    );
}

#[test]
fn table_cells_hold_inline_constructs() {
    let text = "|a|\n|:---:|\n|`c` *i* [t](h) ![a](s) - [x] |\n\n";
    assert_eq!(
        page(text),
        "<table>\n<tr>\n<th align=\"center\">\na\n</th>\n</tr>\n\
         <tr>\n<td>\n<code>c</code> <i>i</i> <a href=\"h\">t</a> <img alt=\"a\" src=\"s\"> \
         <input type=\"checkbox\" checked> \n</td>\n</tr>\n</table>\n<br>\n"
    );
}

#[test]
fn table_without_its_end_is_closed() {
    let text = String::from("|a|");
    let tokens = vec![
        Token::new(TokenType::TableBegin, 0, 1),
        Token::new(TokenType::TableColumnLeft, 0, 0),
        Token::new(TokenType::Pipe, 0, 1),
        Token::new(TokenType::Text, 1, 2),
    ];
    assert_eq!(
        parse(&text, &tokens),
        vec!["<table>\n<tr>\n", "<th align=\"left\">\n", "a", "</table>\n"]
    );
}

#[test]
fn code_block_renders_highlighted() {
    assert_eq!(
        html("```rust\nlet x = f(1);\n```\n"),
        vec![
            "<pre class=\"language-rust\">",
            "let",
            " ",
            "x",
            " ",
            "=",
            " ",
            "<span class=\"function\">f</span>",
            "(",
            "<span class=\"digit\">1</span>",
            ")",
            ";",
            "\n",
            "</pre>",
        ]
    );
}

#[test]
fn code_block_without_language_is_base() {
    assert_eq!(html("```\na\n```"), vec!["<pre class=\"language-base\">", "a", "\n", "</pre>"]);
}

#[test]
fn code_block_that_is_not_closed_is_text() {
    assert_eq!(html("```\na"), vec!["```\na"]);
}

#[test]
fn tokens_that_name_no_span_render_empty() {
    let text = String::from("é");
    let tokens = vec![
        Token::new(TokenType::Text, 0, 1),
        Token::new(TokenType::Text, 1, 0),
        Token::new(TokenType::Text, 0, 9),
        Token::new(TokenType::Text, 0, 2),
    ];
    assert_eq!(parse(&text, &tokens), vec!["", "", "", "é"]);
}

#[test]
fn substring_is_the_part_between_the_offsets() {
    assert_eq!(substring("aébc", 1, 3), "é");
    assert_eq!(substring("aébc", 3, 5), "bc");
    assert_eq!(substring("aébc", 2, 3), "");
    assert_eq!(substring("aébc", 0, 6), "");
    assert_eq!(substring("aébc", 0, 0), "");
}

#[test]
fn tokens_of_other_kinds_are_not_rendered() {
    let text = String::from("abc");
    let tokens = vec![
        Token::new(TokenType::Hash, 0, 1),
        Token::new(TokenType::Html, 0, 1),
        Token::new(TokenType::PossibleTableStart, 0, 1),
        Token::new(TokenType::TableEnd, 0, 1),
        Token::new(TokenType::BlockquoteEnd, 0, 1),
        Token::new(TokenType::CodeBlockEnd, 0, 1),
        Token::new(TokenType::Text, 1, 2),
    ];
    assert_eq!(parse(&text, &tokens), vec!["b"]);
}

#[test]
fn document_wraps_the_fragments() {
    let fragments = vec![String::from("<h1>T</h1>\n"), String::from("x")];
    assert_eq!(
        document(&fragments, ""),
        "<div class=\"markdown-body\">\n<h1>T</h1>\nx\n</div>"
    );
    assert_eq!(
        document(&fragments, "<style>p{}</style>\n"),
        "<style>p{}</style>\n<div class=\"markdown-body\">\n<h1>T</h1>\nx\n</div>"
    );
    assert_eq!(document(&Vec::new(), ""), "<div class=\"markdown-body\">\n\n</div>");
}

#[test]
fn to_html_returns_tokens_and_document() {
    let (tokens, page) = to_html(&String::from("# Title\n"), &Vec::new(), "");
    assert_eq!(
        tokens,
        vec![
            Token::new(TokenType::Heading, 0, 1),
            Token::new(TokenType::Space, 1, 2),
            Token::new(TokenType::Text, 2, 3),
            Token::new(TokenType::Text, 3, 4),
            Token::new(TokenType::Text, 4, 5),
            Token::new(TokenType::Text, 5, 6),
            Token::new(TokenType::Text, 6, 7),
            Token::new(TokenType::Newline, 7, 8),
        ]
    );
    assert_eq!(page, "<div class=\"markdown-body\">\n<h1>Title</h1>\n\n</div>");
}

#[test]
fn names_of_the_languages() {
    let text = String::from("```rust\na\n```\n```\nb\n```\n```c\nd\n```\n");
    let tokens = lex(&text);
    assert_eq!(markdowner::parser::language_names(&text, &tokens), vec!["rust", "c"]);
    assert_eq!(
        markdowner::parser::language_names(&String::from("x"), &lex(&String::from("x"))),
        Vec::<String>::new()
    );
}

#[test]
fn error_in_a_table_is_shown() {
    let text = "|a|\n|---|\n|[t](h|\n";
    assert_eq!(
        page(text),
        "<table>\n<tr>\n<th align=\"left\">\na\n</th>\n</tr>\n\
         <tr>\n<td>\n<span class=\"error\">ERROR: [t](h|</span>\n</tr>\n</table>\n"
    );
}

#[test]
fn tokens_at_the_end_that_lack_their_partner() {
    let text = String::from("# ab");
    assert_eq!(parse(&text, &vec![Token::new(TokenType::Heading, 0, 1)]), vec!["<h1></h1>\n"]);
    assert_eq!(
        parse(&text, &vec![Token::new(TokenType::LinkHref, 2, 4)]),
        vec!["<a href=\"ab\">", "ab</a>"]
    );
    assert_eq!(parse(&text, &vec![Token::new(TokenType::Escape, 0, 1)]), Vec::<String>::new());
    assert_eq!(
        parse(&text, &vec![Token::new(TokenType::BlockquoteBegin, 0, 1)]),
        vec!["<blockquote>"]
    );
    assert_eq!(
        parse(&text, &vec![Token::new(TokenType::CodeBlockBegin, 0, 1)]),
        vec!["<pre class=\"language-base\">", "</pre>"]
    );
    assert_eq!(
        parse(&text, &vec![Token::new(TokenType::TableBegin, 0, 1)]),
        vec!["<table>\n<tr>\n", "</table>\n"]
    );
    assert_eq!(
        parse(&text, &vec![Token::new(TokenType::Heading, 3, 1)]),
        vec!["<h0></h0>\n"]
    );
}

#[test]
fn escapes_render_in_a_blockquote_a_list_and_a_table() {
    assert_eq!(page(">\\*a\\*"), "<blockquote>*a*</blockquote>");
    assert_eq!(page("* \\*a"), "\n<ul>\n<li>*a</li>\n</ul>\n");
    assert_eq!(
        page("|a|\n|---|\n|\\*b|\n"),
        "<table>\n<tr>\n<th align=\"left\">\na\n</th>\n</tr>\n\
         <tr>\n<td>\n*b\n</td>\n</tr>\n</table>\n"
    );
}
