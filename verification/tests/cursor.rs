use markdowner::emphasis_state;
use markdowner::emphasis_state::Tag;
use markdowner::position::Position;
use markdowner::table;
use markdowner::table::{Alignment, Column};
use markdowner::text::{char_width, decode};
use markdowner::token::{Token, TokenType};
use markdowner::wrapper::{CharsWithPosition, List, ListType};

#[test]
fn token_constructors() {
    assert_eq!(
        Token::new(TokenType::Text, 3, 9),
        Token { id: TokenType::Text, begin: 3, end: 9 }
    );
    assert_eq!(
        Token::new_single(TokenType::Space, 4),
        Token { id: TokenType::Space, begin: 4, end: 5 }
    );
    assert_eq!(
        Token::new_double(TokenType::BoldBegin, 4),
        Token { id: TokenType::BoldBegin, begin: 4, end: 6 }
    );
    assert_ne!(TokenType::Checkbutton(true), TokenType::Checkbutton(false));
}

#[test]
fn position_steps() {
    let mut p = Position::new();
    assert_eq!(p, Position { index: 0, line: 0, line_offset: 0 });
    p.increment();
    p.increment();
    assert_eq!(p, Position { index: 2, line: 0, line_offset: 2 });
    p.newline();
    assert_eq!(p, Position { index: 2, line: 1, line_offset: 0 });
    p.set_index(7);
    p.set_line(3);
    p.set_line_offset(4);
    assert_eq!(p, Position::new_at(7, 3, 4));
    let mut q = Position::new();
    q.update(p);
    assert_eq!(q, Position { index: 7, line: 3, line_offset: 4 });
}

#[test]
fn states_begin_closed() {
    let e = emphasis_state::State::new();
    assert_eq!(e.italic, Tag::Italic(false));
    assert_eq!(e.bold, Tag::Bold(false));
    assert_eq!(e.strike, Tag::Strike(false));
    assert_eq!(e.underline, Tag::Underline(false));
    let t = table::State::new();
    assert_eq!(
        t,
        table::State {
            possible_table_start: 0,
            possible_table: false,
            in_table: false,
            table_index: 0,
        }
    );
    assert_ne!(Alignment::Left, Alignment::LeftOrCenter);
    let c = Column(2, String::from("left"));
    assert_eq!(c, Column(2, String::from("left")));
    assert_eq!(c.0, 2);
    assert_eq!(c.1, "left");
    let l = List(TokenType::OrderedListEnd, 4);
    assert_eq!((l.0, l.1), (TokenType::OrderedListEnd, 4));
    let k = ListType(TokenType::OrderedListBegin, TokenType::OrderedListEnd);
    assert_eq!((k.0, k.1), (TokenType::OrderedListBegin, TokenType::OrderedListEnd));
}

#[test]
fn widths_of_characters() {
    assert_eq!(char_width('a'), 1);
    assert_eq!(char_width('\u{7f}'), 1);
    assert_eq!(char_width('\u{80}'), 2);
    assert_eq!(char_width('é'), 2);
    assert_eq!(char_width('\u{7ff}'), 2);
    assert_eq!(char_width('\u{800}'), 3);
    assert_eq!(char_width('日'), 3);
    assert_eq!(char_width('\u{ffff}'), 3);
    assert_eq!(char_width('\u{10000}'), 4);
    assert_eq!(char_width('😀'), 4);
    for c in ['a', 'é', '日', '😀', '\u{10ffff}'] {
        assert_eq!(char_width(c), c.len_utf8());
    }
}

#[test]
fn decode_gives_characters_and_offsets() {
    let (chars, offsets) = decode("aé日😀b");
    assert_eq!(chars, vec!['a', 'é', '日', '😀', 'b']);
    assert_eq!(offsets, vec![0, 1, 3, 6, 10, 11]);
    let (chars, offsets) = decode("");
    assert_eq!(chars, Vec::<char>::new());
    assert_eq!(offsets, vec![0]);
}

#[test]
fn cursor_next_and_peek() {
    let mut c = CharsWithPosition::new("aé日");
    assert_eq!(c.len(), 3);
    assert_eq!(c.index(), 0);
    assert_eq!(c.last(), 0);
    assert_eq!(c.peek(), Some((0, 'a')));
    assert_eq!(c.next(), Some((0, 'a')));
    assert_eq!(c.index(), 1);
    assert_eq!(c.last(), 0);
    assert_eq!(c.peek(), Some((1, 'é')));
    assert_eq!(c.next(), Some((1, 'é')));
    assert_eq!(c.index(), 3);
    assert_eq!(c.last(), 1);
    assert_eq!(c.consumed(), 2);
    assert_eq!(c.position(), Position { index: 3, line: 0, line_offset: 2 });
    assert_eq!(c.next(), Some((3, '日')));
    assert_eq!(c.index(), 6);
    assert_eq!(c.last(), 3);
    assert_eq!(c.peek(), None);
    assert_eq!(c.next(), None);
    assert_eq!(c.index(), 6);
    assert_eq!(c.consumed(), 3);
}

#[test]
fn cursor_nth_skips() {
    let mut c = CharsWithPosition::new("abcdef");
    assert_eq!(c.nth(0), Some((0, 'a')));
    assert_eq!(c.nth(2), Some((3, 'd')));
    assert_eq!(c.index(), 4);
    assert_eq!(c.nth(2), None);
    assert_eq!(c.index(), 6);
    assert_eq!(c.nth(0), None);
    let mut d = CharsWithPosition::new("ab");
    assert_eq!(d.nth(1), Some((1, 'b')));
    assert_eq!(d.consumed(), 2);
}

#[test]
fn cursor_looks_ahead() {
    let mut c = CharsWithPosition::new("a--b\nc");
    assert_eq!(c.char_at(0), Some('a'));
    assert_eq!(c.char_at(5), Some('c'));
    assert_eq!(c.char_at(6), None);
    assert!(c.is_at(4, '\n'));
    assert!(!c.is_at(4, 'b'));
    assert!(!c.is_at(6, 'c'));
    assert_eq!(c.offset_at(6), 6);
    assert_eq!(c.find(0, 'b', '\n'), 3);
    assert_eq!(c.find(4, 'b', '\n'), 4);
    assert_eq!(c.find(0, 'x', 'y'), 6);
    assert_eq!(c.find(6, 'a', 'a'), 6);
    assert_eq!(c.skip_run(1, '-'), 3);
    assert_eq!(c.skip_run(0, '-'), 0);
    assert_eq!(c.skip_run(5, 'c'), 6);
    c.advance_to(4);
    assert_eq!(c.index(), 4);
    assert_eq!(c.next(), Some((4, '\n')));
    c.advance_to(6);
    assert_eq!(c.next(), None);
}

#[test]
fn cursor_over_empty_text() {
    let mut c = CharsWithPosition::new("");
    assert_eq!(c.len(), 0);
    assert_eq!(c.peek(), None);
    assert_eq!(c.next(), None);
    assert_eq!(c.nth(3), None);
    assert_eq!(c.index(), 0);
    assert_eq!(c.last(), 0);
}

#[test]
fn cursor_hands_out_parts_of_the_text() {
    let text = "aé日😀b";
    let c = CharsWithPosition::new(text);
    assert_eq!(c.part(text, 1, 3), "é日");
    assert_eq!(c.part(text, 0, 5), text);
    assert_eq!(c.part(text, 4, 4), "");
    assert_eq!(c.part(text, 3, 5), "😀b");
}
