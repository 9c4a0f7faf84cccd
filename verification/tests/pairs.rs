use markdowner::lexer::lex;
use markdowner::token::{Token, TokenType};

struct Open {
    flags: [bool; 8],
    lists: Vec<TokenType>,
}

fn family(id: TokenType) -> Option<(usize, bool)> {
    match id {
        TokenType::ItalicBegin => Some((0, true)),
        TokenType::ItalicEnd => Some((0, false)),
        TokenType::BoldBegin => Some((1, true)),
        TokenType::BoldEnd => Some((1, false)),
        TokenType::StrikeBegin => Some((2, true)),
        TokenType::StrikeEnd => Some((2, false)),
        TokenType::UnderlineBegin => Some((3, true)),
        TokenType::UnderlineEnd => Some((3, false)),
        TokenType::BlockquoteBegin => Some((4, true)),
        TokenType::BlockquoteEnd => Some((4, false)),
        TokenType::CodeBlockBegin => Some((5, true)),
        TokenType::CodeBlockEnd => Some((5, false)),
        TokenType::TableBegin => Some((6, true)),
        TokenType::TableEnd => Some((6, false)),
        TokenType::ListItemBegin => Some((7, true)),
        TokenType::ListItemEnd => Some((7, false)),
        _ => None,
    }
}

fn is_paired(tokens: &[Token]) -> bool {
    let mut open = Open { flags: [false; 8], lists: Vec::new() };
    for t in tokens {
        if let Some((f, begins)) = family(t.id) {
            if open.flags[f] == begins {
                return false;
            }
            open.flags[f] = begins;
        }
        match t.id {
            TokenType::UnorderedListBegin => open.lists.push(TokenType::UnorderedListEnd),
            TokenType::OrderedListBegin => open.lists.push(TokenType::OrderedListEnd),
            TokenType::UnorderedListEnd | TokenType::OrderedListEnd => {
                if open.lists.pop() != Some(t.id) {
                    return false;
                }
            }
            _ => (),
        }
    }
    open.flags == [false; 8] && open.lists.is_empty()
}

#[test]
fn the_check_tells_paired_from_unpaired() {
    let begin = Token::new(TokenType::ItalicBegin, 0, 1);
    let end = Token::new(TokenType::ItalicEnd, 1, 2);
    let list = Token::new(TokenType::UnorderedListBegin, 0, 1);
    let other = Token::new(TokenType::OrderedListEnd, 0, 1);
    assert!(is_paired(&[begin, end]));
    assert!(!is_paired(&[begin]));
    assert!(!is_paired(&[end, begin]));
    assert!(!is_paired(&[begin, begin, end, end]));
    assert!(!is_paired(&[list, other]));
}

#[test]
fn lexed_tokens_are_paired() {
    let texts = [
        "",
        "*a",
        "*a **b ~~c __d",
        "**a*b**c*",
        ">quote *a\n\nrest*",
        "> a",
        "*a\n* b *c\n  1. d\n    * e\nf\n",
        "* a\n1. b\n  * c\n\n* d",
        "1. a\n 1. b\n  1. c\n   1. d\n1. e",
        "|a|b|\n|---|:---:|\n|*c|d|\n\n|e|\n|---|\n",
        "|a|\n|---|\n* x\n|b|",
        "|a|\n|---|",
        "x\n\n|a|\n|b|\n\n|c|\n|---|\n|d**|\n",
        "```rust\nfn f() { \"*a*\" }\n```\n*x",
        "```\n*a*\n",
        "*a\n```\nb\n```\nc*",
        "* a\n```\nb\n```\n",
        "- [x] *a* [t](h) ![i](s) `c` \\* --- # h\n# h\n---\n    code\n",
    ];
    for text in texts {
        let tokens = lex(&String::from(text));
        assert!(is_paired(&tokens), "{:?} gives {:?}", text, tokens);
    }
}

#[test]
fn lexed_tokens_lie_within_the_text() {
    let texts = [
        "é*ü**\n# 日本\n* 😀 [é](ü)\n  * ą\n\n|é|\n|---|\n|ü|\n\n```é\n\"ü\\😀\" é1\n```\n> 日*\n",
        "\\😀![é](ü\n![é\n[ü](é",
        "    é\n    ü\n",
        "- [x] é --- é\n---\n`é` `ü",
    ];
    for text in texts {
        let tokens = lex(&String::from(text));
        for t in tokens.iter() {
            assert!(t.begin <= t.end && t.end <= text.len(), "{:?} in {:?}", t, text);
            assert!(text.is_char_boundary(t.begin), "{:?} in {:?}", t, text);
            assert!(text.is_char_boundary(t.end), "{:?} in {:?}", t, text);
        }
    }
}

fn texts_of_markup(count: usize, length: usize) -> Vec<String> {
    let alphabet: Vec<char> =
        "ab1. *~_#-![]()>`|\\\n\n \t\"'x:é".chars().collect();
    let mut seed: u64 = 0x2545f4914f6cdd1d;
    let mut texts = Vec::new();
    for _ in 0..count {
        let mut text = String::new();
        for _ in 0..length {
            seed ^= seed << 13;
            seed ^= seed >> 7;
            seed ^= seed << 17;
            text.push(alphabet[(seed % alphabet.len() as u64) as usize]);
        }
        texts.push(text);
    }
    texts
}

#[test]
fn many_texts_give_sound_and_paired_tokens() {
    for text in texts_of_markup(400, 60) {
        let tokens = lex(&text);
        assert!(is_paired(&tokens), "{:?} gives {:?}", text, tokens);
        for t in tokens.iter() {
            assert!(t.begin <= t.end && t.end <= text.len(), "{:?} in {:?}", t, text);
            assert!(text.is_char_boundary(t.begin), "{:?} in {:?}", t, text);
            assert!(text.is_char_boundary(t.end), "{:?} in {:?}", t, text);
        }
        let html = markdowner::parser::parse(&text, &tokens);
        assert!(html.len() <= 2 * tokens.len() + 2);
    }
}
