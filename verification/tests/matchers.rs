use markdowner::emphasis_state::{State, Tag};
use markdowner::markdown::{
    at_line_start, close_emphasis, emit, holds_at, insert_span, is_bullet, is_number,
    match_blockquote, match_checkbutton, match_code, match_codeblock, match_emphasis,
    match_escape, match_heading, match_horizontalrule, match_image, match_indentblock, match_link,
    match_list, match_string, match_table, push_indented_list, push_list,
};
use markdowner::syntax::{
    classify, continues_word, find_language, highlight_generic, highlight_language, is_fence,
    is_keyword, is_letter, is_letter_or_digit, keyword, multi_comment, single_comment,
    string_or_char, word, Class, Language, Syntax,
};
use markdowner::table;
use markdowner::token::{Token, TokenType};
use markdowner::wrapper::{CharsWithPosition, List, ListType};

fn tok(id: TokenType, begin: usize, end: usize) -> Token {
    Token::new(id, begin, end)
}

fn after_first(text: &str) -> (CharsWithPosition, (usize, char)) {
    let mut iter = CharsWithPosition::new(text);
    let c = iter.next().unwrap();
    (iter, c)
}

#[test]
fn emit_and_insert() {
    let iter = CharsWithPosition::new("aéb");
    let mut tokens = Vec::new();
    emit(&mut tokens, &iter, TokenType::Text, 1, 2);
    emit(&mut tokens, &iter, TokenType::Space, 3, 3);
    insert_span(&mut tokens, &iter, 1, TokenType::Tab, 0, 3);
    assert_eq!(
        tokens,
        vec![tok(TokenType::Text, 1, 3), tok(TokenType::Tab, 0, 4), tok(TokenType::Space, 4, 4)]
    );
}

#[test]
fn lines_and_patterns() {
    let iter = CharsWithPosition::new("ab\ncd");
    assert!(at_line_start(&iter, 0));
    assert!(!at_line_start(&iter, 1));
    assert!(at_line_start(&iter, 3));
    assert!(!at_line_start(&iter, 5));
    assert!(holds_at(&iter, 1, "b\nc"));
    assert!(holds_at(&iter, 5, ""));
    assert!(!holds_at(&iter, 6, ""));
    assert!(!holds_at(&iter, 4, "de"));
    assert!(!holds_at(&iter, 4, "dx"));
}

#[test]
fn match_string_consumes_all_or_nothing() {
    let mut iter = CharsWithPosition::new("abcd");
    assert!(match_string("ab", &mut iter));
    assert_eq!(iter.index(), 2);
    assert!(!match_string("cx", &mut iter));
    assert_eq!(iter.index(), 2);
    assert!(match_string("", &mut iter));
    assert_eq!(iter.index(), 2);
    assert!(!match_string("cde", &mut iter));
    assert!(match_string("cd", &mut iter));
    assert_eq!(iter.index(), 4);
}

#[test]
fn heading_matcher() {
    let (mut iter, c) = after_first("## a");
    let mut tokens = vec![tok(TokenType::Newline, 0, 0)];
    match_heading(&String::from("## a"), &mut tokens, &mut iter, c);
    assert_eq!(
        tokens,
        vec![
            tok(TokenType::Newline, 0, 0),
            tok(TokenType::Heading, 0, 2),
            tok(TokenType::Space, 2, 3),
        ]
    );
    assert_eq!(iter.index(), 3);
}

#[test]
fn checkbutton_matcher() {
    let (mut iter, c) = after_first("- [x] a");
    let mut tokens = Vec::new();
    match_checkbutton(&String::from("- [x] a"), &mut tokens, &mut iter, c);
    assert_eq!(tokens, vec![tok(TokenType::Checkbutton(true), 0, 5)]);
    assert_eq!(iter.index(), 5);
}

#[test]
fn image_and_link_matchers() {
    let (mut iter, c) = after_first("![a](b)c");
    let mut tokens = Vec::new();
    match_image(&String::from("![a](b)c"), &mut tokens, &mut iter, c);
    assert_eq!(tokens, vec![tok(TokenType::ImageAlt, 2, 3), tok(TokenType::ImageSrc, 5, 6)]);
    assert_eq!(iter.index(), 7);
    let (mut iter, c) = after_first("[a](b)c");
    let mut tokens = Vec::new();
    match_link(&String::from("[a](b)c"), &mut tokens, &mut iter, c);
    assert_eq!(tokens, vec![tok(TokenType::LinkHref, 4, 5), tok(TokenType::LinkText, 1, 2)]);
    assert_eq!(iter.index(), 6);
}

#[test]
fn horizontalrule_matcher() {
    let (mut iter, c) = after_first("---\nx");
    let mut tokens = Vec::new();
    match_horizontalrule(&String::from("---\nx"), &mut tokens, &mut iter, c);
    assert_eq!(tokens, vec![tok(TokenType::HorizontalRule, 0, 4)]);
    assert_eq!(iter.index(), 4);
    let (mut iter, c) = after_first("-x");
    let mut tokens = Vec::new();
    match_horizontalrule(&String::from("-x"), &mut tokens, &mut iter, c);
    assert_eq!(tokens, vec![tok(TokenType::Text, 0, 1)]);
    assert_eq!(iter.index(), 1);
}

#[test]
fn blockquote_matcher_shares_the_emphasis() {
    let (mut iter, c) = after_first(">a*b\n\nc");
    let mut tokens = Vec::new();
    let mut emphasis = State::new();
    match_blockquote(&mut emphasis, &String::from(">a*b\n\nc"), &mut tokens, &mut iter, c);
    assert_eq!(
        tokens,
        vec![
            tok(TokenType::BlockquoteBegin, 0, 1),
            tok(TokenType::Text, 1, 2),
            tok(TokenType::ItalicBegin, 2, 3),
            tok(TokenType::Text, 3, 4),
            tok(TokenType::BlockquoteEnd, 0, 5),
            tok(TokenType::Newline, 5, 6),
        ]
    );
    assert_eq!(emphasis.italic, Tag::Italic(true));
    assert_eq!(iter.index(), 6);
}

#[test]
fn code_matcher() {
    let (mut iter, c) = after_first("`ab`c");
    let mut tokens = Vec::new();
    match_code(&String::from("`ab`c"), &mut tokens, &mut iter, c);
    assert_eq!(tokens, vec![tok(TokenType::Code, 1, 3)]);
    assert_eq!(iter.index(), 4);
}

#[test]
fn emphasis_matcher_toggles() {
    let (mut iter, c) = after_first("**a");
    let mut tokens = Vec::new();
    let mut emphasis = State::new();
    match_emphasis(&mut emphasis, &String::from("**a"), &mut tokens, &mut iter, c);
    assert_eq!(tokens, vec![tok(TokenType::BoldBegin, 0, 2)]);
    assert_eq!(emphasis.bold, Tag::Bold(true));
    assert_eq!(iter.index(), 2);
    let (mut iter, c) = after_first("**a");
    match_emphasis(&mut emphasis, &String::from("**a"), &mut tokens, &mut iter, c);
    assert_eq!(tokens[1], tok(TokenType::BoldEnd, 0, 2));
    assert_eq!(emphasis.bold, Tag::Bold(false));
    let (mut iter, c) = after_first("x");
    match_emphasis(&mut emphasis, &String::from("x"), &mut tokens, &mut iter, c);
    assert_eq!(tokens[2], tok(TokenType::Text, 0, 1));
    assert_eq!(emphasis, State::new());
}

#[test]
fn close_emphasis_closes_what_is_open() {
    let iter = CharsWithPosition::new("abc");
    let mut tokens = Vec::new();
    let mut emphasis = State::new();
    emphasis.bold = Tag::Bold(true);
    emphasis.underline = Tag::Underline(true);
    close_emphasis(&mut emphasis, &mut tokens, &iter, 2);
    assert_eq!(tokens, vec![tok(TokenType::BoldEnd, 2, 2), tok(TokenType::UnderlineEnd, 2, 2)]);
    assert_eq!(emphasis, State::new());
    close_emphasis(&mut emphasis, &mut tokens, &iter, 3);
    assert_eq!(tokens.len(), 2);
}

#[test]
fn indentblock_matcher() {
    let (mut iter, c) = after_first("\n    a\n    b\nc");
    let mut tokens = Vec::new();
    match_indentblock(&String::from("\n    a\n    b\nc"), &mut tokens, &mut iter, c);
    assert_eq!(tokens, vec![tok(TokenType::IndentBlock, 1, 12)]);
    assert_eq!(iter.index(), 13);
    let (mut iter, c) = after_first("\n   a");
    let mut tokens = Vec::new();
    match_indentblock(&String::from("\n   a"), &mut tokens, &mut iter, c);
    assert_eq!(tokens, Vec::new());
    assert_eq!(iter.index(), 1);
}

#[test]
fn table_matcher_inserts_the_columns() {
    let mut iter = CharsWithPosition::new("|a|b|\n|:---|:---:|\nx");
    iter.advance_to(6);
    let mut tokens =
        vec![tok(TokenType::Text, 0, 0), tok(TokenType::Pipe, 0, 1), tok(TokenType::Newline, 5, 6)];
    let mut state = table::State::new();
    state.table_index = 1;
    state.possible_table = true;
    assert!(match_table(&state, &String::from("|a|b|\n|:---|:---:|\nx"), &mut tokens, &mut iter));
    assert_eq!(
        tokens,
        vec![
            tok(TokenType::Text, 0, 0),
            tok(TokenType::TableColumnLeft, 7, 11),
            tok(TokenType::TableColumnCenter, 12, 17),
            tok(TokenType::Pipe, 0, 1),
            tok(TokenType::Newline, 5, 6),
        ]
    );
    assert_eq!(iter.index(), 19);
}

#[test]
fn table_matcher_without_a_row() {
    let mut iter = CharsWithPosition::new("x|---|");
    let mut tokens = Vec::new();
    let state = table::State::new();
    assert!(!match_table(&state, &String::from("x|---|"), &mut tokens, &mut iter));
    assert_eq!(tokens, Vec::new());
    assert_eq!(iter.index(), 0);
    iter.advance_to(1);
    let mut state = table::State::new();
    state.table_index = 5;
    assert!(!match_table(&state, &String::from("x|---|"), &mut tokens, &mut iter));
    assert_eq!(tokens, Vec::new());
    state.table_index = 0;
    assert!(!match_table(&state, &String::from("x|---|"), &mut tokens, &mut iter));
    assert_eq!(tokens, vec![tok(TokenType::Error, 1, 6)]);
    assert_eq!(iter.index(), 6);
    let mut iter = CharsWithPosition::new("| --- |");
    assert!(!match_table(&state, &String::from("| --- |"), &mut tokens, &mut iter));
    assert_eq!(tokens[1], tok(TokenType::Error, 0, 7));
    let mut iter = CharsWithPosition::new("|---|\n");
    assert!(match_table(&state, &String::from("|---|\n"), &mut tokens, &mut iter));
    assert_eq!(tokens[0], tok(TokenType::TableColumnLeft, 1, 4));
    assert_eq!(tokens.len(), 3);
    assert_eq!(iter.index(), 6);
    let mut iter = CharsWithPosition::new("|--|");
    assert!(!match_table(&state, &String::from("|--|"), &mut tokens, &mut iter));
    assert_eq!(tokens[3], tok(TokenType::Text, 0, 1));
    assert_eq!(iter.index(), 1);
}

#[test]
fn list_markers() {
    let iter = CharsWithPosition::new("* a1. b*1.");
    assert!(is_bullet(&iter, 0));
    assert!(!is_bullet(&iter, 1));
    assert!(!is_bullet(&iter, 7));
    assert!(is_number(&iter, 3));
    assert!(!is_number(&iter, 8));
    assert!(!is_number(&iter, 20));
}

#[test]
fn list_matcher() {
    let mut iter = CharsWithPosition::new("1. a\n\nb");
    let mut tokens = Vec::new();
    match_list(
        ListType(TokenType::OrderedListBegin, TokenType::OrderedListEnd),
        &String::from("1. a\n\nb"),
        &mut tokens,
        &mut iter,
    );
    assert_eq!(
        tokens,
        vec![
            tok(TokenType::OrderedListBegin, 0, 2),
            tok(TokenType::ListItemBegin, 2, 3),
            tok(TokenType::Text, 3, 4),
            tok(TokenType::ListItemEnd, 4, 5),
            tok(TokenType::OrderedListEnd, 5, 5),
        ]
    );
    assert_eq!(iter.index(), 5);
}

#[test]
fn opening_items() {
    let unordered = ListType(TokenType::UnorderedListBegin, TokenType::UnorderedListEnd);
    let ordered = ListType(TokenType::OrderedListBegin, TokenType::OrderedListEnd);
    let mut iter = CharsWithPosition::new("* a");
    let mut tokens = Vec::new();
    let mut lists = vec![
        List(TokenType::UnorderedListEnd, 0),
        List(TokenType::OrderedListEnd, 2),
        List(TokenType::UnorderedListEnd, 6),
    ];
    push_indented_list(4, unordered, &mut lists, &mut tokens, &mut iter);
    assert_eq!(
        tokens,
        vec![
            tok(TokenType::UnorderedListEnd, 0, 0),
            tok(TokenType::UnorderedListBegin, 0, 1),
            tok(TokenType::ListItemBegin, 1, 2),
        ]
    );
    assert_eq!(
        lists,
        vec![
            List(TokenType::UnorderedListEnd, 0),
            List(TokenType::OrderedListEnd, 2),
            List(TokenType::UnorderedListEnd, 4),
        ]
    );
    assert_eq!(iter.index(), 2);
    let mut iter = CharsWithPosition::new("1. a");
    let mut tokens = Vec::new();
    push_indented_list(2, ordered, &mut lists, &mut tokens, &mut iter);
    assert_eq!(
        tokens,
        vec![tok(TokenType::UnorderedListEnd, 0, 0), tok(TokenType::ListItemBegin, 2, 3)]
    );
    assert_eq!(lists.len(), 2);
    let mut iter = CharsWithPosition::new("* a");
    let mut tokens = Vec::new();
    push_list(unordered, &mut lists, &mut tokens, &mut iter);
    assert_eq!(
        tokens,
        vec![tok(TokenType::OrderedListEnd, 0, 0), tok(TokenType::ListItemBegin, 1, 2)]
    );
    assert_eq!(lists, vec![List(TokenType::UnorderedListEnd, 0)]);
    let mut iter = CharsWithPosition::new("1. a");
    let mut tokens = Vec::new();
    push_list(ordered, &mut lists, &mut tokens, &mut iter);
    assert_eq!(
        tokens,
        vec![
            tok(TokenType::UnorderedListEnd, 0, 0),
            tok(TokenType::OrderedListBegin, 0, 2),
            tok(TokenType::ListItemBegin, 2, 3),
        ]
    );
    assert_eq!(lists, vec![List(TokenType::OrderedListEnd, 0)]);
}

#[test]
fn codeblock_matcher() {
    let (mut iter, c) = after_first("```\na\n```\nb");
    let mut tokens = Vec::new();
    match_codeblock(&Vec::new(), &String::from("```\na\n```\nb"), &mut tokens, &mut iter, c);
    assert_eq!(
        tokens,
        vec![
            tok(TokenType::CodeBlockBegin, 0, 3),
            tok(TokenType::CodeBlockLanguage, 3, 4),
            tok(TokenType::CodeBlockText, 4, 5),
            tok(TokenType::CodeBlockSymbol, 5, 6),
            tok(TokenType::CodeBlockEnd, 4, 8),
            tok(TokenType::Newline, 9, 10),
        ]
    );
    assert_eq!(iter.index(), 10);
}

#[test]
fn classes_of_characters() {
    assert_eq!(classify('"', false), Class::Quote);
    assert_eq!(classify('\'', false), Class::Apostrophe);
    assert_eq!(classify('0', false), Class::Digit);
    assert_eq!(classify('9', true), Class::Digit);
    assert_eq!(classify('a', true), Class::Letter);
    assert_eq!(classify('_', false), Class::Letter);
    assert_eq!(classify('+', false), Class::Other);
    assert_eq!(classify('/', false), Class::Other);
    assert!(continues_word('a', true));
    assert!(continues_word('_', false));
    assert!(!continues_word('-', false));
}

#[test]
fn literals() {
    let (mut iter, v) = after_first("\"a\\nb\" c");
    let mut tokens = Vec::new();
    string_or_char('"', '"', TokenType::CodeBlockString, &mut tokens, &mut iter, v);
    assert_eq!(
        tokens,
        vec![
            tok(TokenType::CodeBlockString, 0, 2),
            tok(TokenType::CodeBlockEscape, 2, 4),
            tok(TokenType::CodeBlockString, 4, 6),
        ]
    );
    assert_eq!(iter.index(), 6);
    let (mut iter, v) = after_first("'a\\");
    let mut tokens = Vec::new();
    string_or_char('\'', '\'', TokenType::CodeBlockChar, &mut tokens, &mut iter, v);
    assert_eq!(
        tokens,
        vec![
            tok(TokenType::CodeBlockChar, 0, 2),
            tok(TokenType::CodeBlockEscape, 2, 3),
            tok(TokenType::CodeBlockChar, 3, 3),
        ]
    );
    assert_eq!(iter.index(), 3);
    let (mut iter, v) = after_first("x'");
    let mut tokens = Vec::new();
    string_or_char('\'', '\'', TokenType::CodeBlockChar, &mut tokens, &mut iter, v);
    assert_eq!(tokens, Vec::new());
    assert_eq!(iter.index(), 1);
}

#[test]
fn keywords_and_identifiers() {
    let one = vec![String::from("if"), String::from("else")];
    let two = vec![String::from("int")];
    let three: Vec<String> = Vec::new();
    let iter = CharsWithPosition::new("if else iff");
    assert!(is_keyword(&iter, 0, 2, &one));
    assert!(is_keyword(&iter, 3, 7, &one));
    assert!(!is_keyword(&iter, 8, 11, &one));
    assert!(!is_keyword(&iter, 0, 1, &one));
    assert!(!is_keyword(&iter, 0, 2, &three));
    let (mut iter, v) = after_first("int x");
    let mut tokens = Vec::new();
    keyword("c", (&one, &two, &three), &String::from("int x"), &mut tokens, &mut iter, v);
    assert_eq!(
        tokens,
        vec![tok(TokenType::CodeBlockKeyword2, 0, 3), tok(TokenType::CodeBlockSymbol, 3, 4)]
    );
    assert_eq!(iter.index(), 4);
    let (mut iter, v) = after_first("if(");
    let mut tokens = Vec::new();
    keyword("c", (&one, &two, &three), &String::from("if("), &mut tokens, &mut iter, v);
    assert_eq!(
        tokens,
        vec![tok(TokenType::CodeBlockKeyword1, 0, 2), tok(TokenType::CodeBlockSymbol, 2, 3)]
    );
    assert_eq!(iter.index(), 3);
    for text in ["ab\"c\"", "ab`", "ab"] {
        let (mut iter, v) = after_first(text);
        let mut tokens = Vec::new();
        keyword("c", (&one, &two, &three), &String::from(text), &mut tokens, &mut iter, v);
        assert_eq!(tokens, vec![tok(TokenType::CodeBlockText, 0, 2)]);
        assert_eq!(iter.index(), 2);
    }
    let (mut iter, v) = after_first("ab//c");
    let mut tokens = Vec::new();
    word((&one, &two, &three), "//", "/*", &mut tokens, &mut iter, v);
    assert_eq!(tokens, vec![tok(TokenType::CodeBlockText, 0, 2)]);
    assert_eq!(iter.index(), 2);
    let (mut iter, v) = after_first("ab/c");
    let mut tokens = Vec::new();
    word((&one, &two, &three), "//", "/*", &mut tokens, &mut iter, v);
    assert_eq!(
        tokens,
        vec![tok(TokenType::CodeBlockText, 0, 2), tok(TokenType::CodeBlockSymbol, 2, 3)]
    );
    assert_eq!(iter.index(), 3);
    let (mut iter, v) = after_first("f_1(x)");
    let mut tokens = Vec::new();
    keyword("c", (&one, &two, &three), &String::from("f_1(x)"), &mut tokens, &mut iter, v);
    assert_eq!(
        tokens,
        vec![tok(TokenType::CodeBlockFunction, 0, 3), tok(TokenType::CodeBlockSymbol, 3, 4)]
    );
    let (mut iter, v) = after_first("ab");
    let mut tokens = Vec::new();
    keyword("c", (&one, &two, &three), &String::from("ab"), &mut tokens, &mut iter, v);
    assert_eq!(tokens, vec![tok(TokenType::CodeBlockText, 0, 2)]);
    assert_eq!(iter.index(), 2);
}

#[test]
fn comments() {
    let (mut iter, v) = after_first("// a\nb");
    let mut tokens = Vec::new();
    single_comment(&String::from("//"), &mut tokens, &mut iter, v);
    assert_eq!(tokens, vec![tok(TokenType::CodeBlockSingleLineComment, 0, 5)]);
    assert_eq!(iter.index(), 5);
    let (mut iter, v) = after_first("# a");
    let mut tokens = Vec::new();
    single_comment(&String::from("#"), &mut tokens, &mut iter, v);
    assert_eq!(tokens, vec![tok(TokenType::CodeBlockSingleLineComment, 0, 3)]);
    let (mut iter, v) = after_first("/ a");
    let mut tokens = Vec::new();
    single_comment(&String::from("//"), &mut tokens, &mut iter, v);
    single_comment(&String::from(""), &mut tokens, &mut iter, v);
    assert_eq!(tokens, Vec::new());
    assert_eq!(iter.index(), 1);
    let (mut iter, v) = after_first("/* a */ b");
    let mut tokens = Vec::new();
    multi_comment(&String::from("/*"), &String::from("*/"), &mut tokens, &mut iter, v);
    assert_eq!(tokens, vec![tok(TokenType::CodeBlockMultiLineComment, 0, 7)]);
    assert_eq!(iter.index(), 7);
    let (mut iter, v) = after_first("/* a");
    let mut tokens = Vec::new();
    multi_comment(&String::from("/*"), &String::from("*/"), &mut tokens, &mut iter, v);
    assert_eq!(tokens, vec![tok(TokenType::CodeBlockMultiLineComment, 0, 4)]);
    let (mut iter, v) = after_first("/**/");
    let mut tokens = Vec::new();
    multi_comment(&String::from("/*"), &String::from("*/"), &mut tokens, &mut iter, v);
    assert_eq!(tokens, vec![tok(TokenType::CodeBlockMultiLineComment, 0, 4)]);
}

#[test]
fn fences_and_highlighting() {
    let iter = CharsWithPosition::new("a```\n```x```");
    assert!(is_fence(&iter, 1));
    assert!(!is_fence(&iter, 5));
    assert!(is_fence(&iter, 9));
    assert!(!is_fence(&iter, 10));
    assert!(!is_fence(&iter, 20));
    let mut iter = CharsWithPosition::new("a 1\n```");
    let mut tokens = Vec::new();
    assert!(highlight_generic(0, &mut tokens, &mut iter, (0, '`')));
    assert_eq!(
        tokens,
        vec![
            tok(TokenType::CodeBlockText, 0, 1),
            tok(TokenType::CodeBlockSymbol, 1, 2),
            tok(TokenType::CodeBlockDigit, 2, 3),
            tok(TokenType::CodeBlockSymbol, 3, 4),
            tok(TokenType::CodeBlockEnd, 0, 6),
        ]
    );
    let mut iter = CharsWithPosition::new("a 1\n");
    let mut tokens = Vec::new();
    assert!(!highlight_generic(0, &mut tokens, &mut iter, (0, '`')));
    assert_eq!(iter.index(), 4);
    let mut syntax = Syntax::new();
    syntax.keywords1 = vec![String::from("a")];
    syntax.single_line_comment = String::from("--");
    syntax.multi_line_comment_open = String::from("--[[");
    syntax.multi_line_comment_close = String::from("]]");
    let mut iter = CharsWithPosition::new("a --[[x]]--y\n```\n");
    let mut tokens = Vec::new();
    assert!(highlight_language(
        &syntax,
        "lua",
        0,
        &String::from("a --[[x]]--y\n```\n"),
        &mut tokens,
        &mut iter,
        (0, '`'),
    ));
    assert_eq!(
        tokens,
        vec![
            tok(TokenType::CodeBlockKeyword1, 0, 1),
            tok(TokenType::CodeBlockSymbol, 1, 2),
            tok(TokenType::CodeBlockMultiLineComment, 2, 9),
            tok(TokenType::CodeBlockSingleLineComment, 9, 13),
            tok(TokenType::CodeBlockEnd, 0, 15),
            tok(TokenType::Newline, 16, 17),
        ]
    );
    assert_eq!(iter.index(), 17);
}

#[test]
fn languages_are_found_by_name() {
    let languages = vec![
        Language { name: String::from("c"), syntax: Syntax::new() },
        Language { name: String::from("rust"), syntax: Syntax::new() },
        Language { name: String::from("rust"), syntax: Syntax::new() },
    ];
    let iter = CharsWithPosition::new("```rust\n");
    assert_eq!(find_language(&languages, &iter, 3, 7), Some(1));
    assert_eq!(find_language(&languages, &iter, 3, 6), None);
    assert_eq!(find_language(&languages, &iter, 3, 3), None);
    assert_eq!(find_language(&Vec::new(), &iter, 3, 7), None);
}

#[test]
fn letters_and_digits() {
    for c in ['a', 'z', 'A', 'Z', 'é', '日', 'ß'] {
        assert!(is_letter(c), "{:?}", c);
        assert!(is_letter_or_digit(c), "{:?}", c);
    }
    for c in ['0', '9', '٣'] {
        assert!(!is_letter(c), "{:?}", c);
        assert!(is_letter_or_digit(c), "{:?}", c);
    }
    for c in ['\n', ' ', '_', '`', '@', '[', '{', '\u{7f}', '€', '→'] {
        assert!(!is_letter(c), "{:?}", c);
        assert!(!is_letter_or_digit(c), "{:?}", c);
    }
    for c in (0u8..128).map(|b| b as char) {
        assert_eq!(is_letter(c), c.is_alphabetic());
        assert_eq!(is_letter_or_digit(c), c.is_alphanumeric());
    }
}

#[test]
fn escape_matcher() {
    let (mut iter, c) = after_first("\\*a");
    let mut tokens = Vec::new();
    match_escape(&String::from("\\*a"), &mut tokens, &mut iter, c);
    assert_eq!(tokens, vec![tok(TokenType::Escape, 0, 1), tok(TokenType::Text, 1, 2)]);
    assert_eq!(iter.index(), 2);
    let (mut iter, c) = after_first("\\");
    let mut tokens = Vec::new();
    match_escape(&String::from("\\"), &mut tokens, &mut iter, c);
    assert_eq!(tokens, vec![tok(TokenType::Escape, 0, 1)]);
    assert_eq!(iter.index(), 1);
}

#[test]
fn highlighting_from_the_start_of_a_text() {
    let mut iter = CharsWithPosition::new("7\n```\n");
    let mut tokens = Vec::new();
    assert!(highlight_generic(0, &mut tokens, &mut iter, (0, '`')));
    assert_eq!(
        tokens,
        vec![
            tok(TokenType::CodeBlockDigit, 0, 1),
            tok(TokenType::CodeBlockSymbol, 1, 2),
            tok(TokenType::CodeBlockEnd, 0, 4),
            tok(TokenType::Newline, 5, 6),
        ]
    );
}
