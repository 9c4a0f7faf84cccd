//! The driver of the lexer: it looks at the next character, and at the one
//! after it where needed, and hands over to the matcher of the construct
//! that begins there.
use vstd::prelude::*;
use crate::token::{Token, TokenType, span, all_sound};
use crate::text::offset;
use crate::wrapper::{CharsWithPosition, ListType};
use crate::emphasis_state::State;
use crate::table;
use crate::syntax::Language;
use crate::pairing::{
    Open, nothing, scan, after, added, extends, styled, moves, passes_before, paired,
    lemma_after_nothing, lemma_scan_concat, lemma_scan_one,
};
use crate::markdown::{
    line_start, starts_with_at, bullet_at, number_at, is_emphasis, unordered, ordered, heading,
    horizontalrule, checkbutton, image, link, blockquote, codeblock, code, emphasis, indentblock,
    list, closing, escape, match_escape, emit, insert_span, at_line_start, holds_at, is_bullet,
    is_number, match_heading,
    match_horizontalrule, match_checkbutton, match_image, match_link, match_blockquote,
    match_codeblock, match_code, match_emphasis, match_indentblock, match_list, match_table,
    close_emphasis,
};

verus! {

/// The state of the driver: the tokens emitted so far, the number of
/// characters consumed, the open emphasis, what is known of a table, and the
/// index of the pipe with which that table begins.
pub struct Driver {
    pub tokens: Seq<Token>,
    pub pos: int,
    pub emphasis: State,
    pub table: table::State,
    pub start: int,
}

/// Whether a blank line, or nothing at all, stands before index `p`.
pub open spec fn blank_before(s: Seq<char>, p: int) -> bool {
    p == 0 || (1 <= p <= s.len() && s[p - 1] == '\n' && (p == 1 || s[p - 2] == '\n'))
}

/// Leaves the table: where the driver is in one, a `TableEnd` over the table
/// up to index `e` is appended and a `TableBegin` is inserted where the
/// table began. Nothing is known of a table afterwards.
pub open spec fn end_table(s: Seq<char>, d: Driver, e: int) -> Driver {
    Driver {
        tokens: if d.table.in_table && d.table.table_index <= d.tokens.len() {
            d.tokens.push(span(TokenType::TableEnd, s, d.start, e)).insert(
                d.table.table_index as int,
                span(TokenType::TableBegin, s, d.start, d.start + 1),
            )
        } else {
            d.tokens
        },
        table: table::State::outside(),
        ..d
    }
}

/// Notes a possible table: a pipe at index `p` before which a blank line or
/// nothing stands, while nothing is known of a table, may begin the header of
/// one.
pub open spec fn note_table(s: Seq<char>, d: Driver, p: int) -> Driver {
    if s[p] == '|' && blank_before(s, p) && !d.table.possible_table && !d.table.in_table {
        Driver {
            table: table::State {
                possible_table_start: offset(s, p) as usize,
                possible_table: true,
                in_table: false,
                table_index: d.tokens.len() as usize,
            },
            start: p,
            ..d
        }
    } else {
        d
    }
}

/// The step for the character `c` at index `p`, where no construct of a
/// whole line begins.
///
/// `#` begins a heading, `--` a horizontal rule, `- ` a checkbutton, `!` an
/// image, `[` a link, `>` a blockquote, two backticks a fenced code block and
/// one inline code, and `*`, `~` and `_` toggle emphasis. A backslash is an
/// `Escape`, and the character after it is `Text` whatever it is. A newline
/// is a `Newline`; before the second newline of a blank line the table ends.
/// A space, a tab and a pipe have tokens of their own, and any other
/// character is `Text`.
#[verifier::opaque]
pub open spec fn char_step(s: Seq<char>, d: Driver, languages: Seq<Language>) -> Driver {
    let p = d.pos;
    let q = p + 1;
    let c = s[p];
    let next = if q < s.len() {
        Some(s[q])
    } else {
        None
    };
    if c == '#' {
        let r = heading(s, d.tokens, q);
        Driver { tokens: r.tokens, pos: r.pos, ..d }
    } else if c == '-' && next == Some('-') {
        let r = horizontalrule(s, d.tokens, q);
        Driver { tokens: r.tokens, pos: r.pos, ..d }
    } else if c == '-' && next == Some(' ') {
        let r = checkbutton(s, d.tokens, q);
        Driver { tokens: r.tokens, pos: r.pos, ..d }
    } else if c == '!' {
        let r = image(s, d.tokens, q);
        Driver { tokens: r.tokens, pos: r.pos, ..d }
    } else if c == '[' {
        let r = link(s, d.tokens, q);
        Driver { tokens: r.tokens, pos: r.pos, ..d }
    } else if c == '>' {
        let r = blockquote(s, d.tokens, q, d.emphasis);
        Driver { tokens: r.tokens, pos: r.pos, emphasis: r.emphasis, ..d }
    } else if c == '`' && next == Some('`') {
        let r = codeblock(s, d.tokens, q, languages);
        Driver { tokens: r.tokens, pos: r.pos, ..d }
    } else if c == '`' && next.is_some() {
        let r = code(s, d.tokens, q);
        Driver { tokens: r.tokens, pos: r.pos, ..d }
    } else if is_emphasis(c) {
        let r = emphasis(s, d.tokens, q, d.emphasis);
        Driver { tokens: r.tokens, pos: r.pos, emphasis: r.emphasis, ..d }
    } else if c == '\\' {
        let r = escape(s, d.tokens, q);
        Driver { tokens: r.tokens, pos: r.pos, ..d }
    } else if c == '\n' {
        let e = if p >= 1 && s[p - 1] == '\n' {
            end_table(s, d, p)
        } else {
            d
        };
        Driver { tokens: e.tokens.push(span(TokenType::Newline, s, p, q)), pos: q, ..e }
    } else {
        let id = if c == ' ' {
            TokenType::Space
        } else if c == '\t' {
            TokenType::Tab
        } else if c == '|' {
            TokenType::Pipe
        } else {
            TokenType::Text
        };
        Driver { tokens: d.tokens.push(span(id, s, p, q)), pos: q, ..d }
    }
}

/// One step of the driver at index `d.pos`, which is within the text.
///
/// At the start of a line a construct of a whole line comes first. While a
/// table is possible, the first line after its header decides: a line that
/// begins with a pipe is read as the alignment row, and the table is
/// confirmed if it is one; any other line drops the table. `* ` and `1. `
/// begin a list, before which what is open of emphasis is closed, and four
/// spaces after a newline begin an indented block. Where none of these
/// begins, a pipe may be noted as a possible table, and the step is that of
/// the character.
pub open spec fn step(s: Seq<char>, d: Driver, languages: Seq<Language>) -> Driver {
    let p = d.pos;
    let fresh = line_start(s, p);
    let decides = fresh && d.table.possible_table && d.start != p;
    let t = crate::markdown::table(s, d.tokens, p, d.table.table_index as int);
    let settled = if decides {
        Driver { table: table::State { possible_table: false, ..d.table }, ..d }
    } else {
        d
    };
    if decides && s[p] == '|' {
        Driver {
            tokens: t.tokens,
            pos: t.pos,
            table: table::State { possible_table: false, in_table: t.matched, ..d.table },
            ..d
        }
    } else if fresh && bullet_at(s, p) {
        let r = list(s, closing(s, d.tokens, p, d.emphasis), p, unordered());
        Driver { tokens: r.tokens, pos: r.pos, emphasis: State::closed(), ..settled }
    } else if fresh && number_at(s, p) {
        let r = list(s, closing(s, d.tokens, p, d.emphasis), p, ordered());
        Driver { tokens: r.tokens, pos: r.pos, emphasis: State::closed(), ..settled }
    } else if fresh && p >= 1 && starts_with_at(s, p, "    "@) {
        let r = indentblock(s, settled.tokens, p);
        Driver { tokens: r.tokens, pos: r.pos, ..settled }
    } else {
        char_step(s, note_table(s, settled, p), languages)
    }
}

/// What the driver does at the end of the text: it leaves the table and
/// closes what is open of emphasis.
pub open spec fn finish(s: Seq<char>, d: Driver) -> Seq<Token> {
    closing(s, end_table(s, d, s.len() as int).tokens, s.len() as int, d.emphasis)
}

/// The tokens of the text `s` from the state `d` on: step by step to the end
/// of the text.
pub open spec fn lex_from(s: Seq<char>, d: Driver, languages: Seq<Language>) -> Seq<Token>
    decreases s.len() - d.pos,
{
    let e = step(s, d, languages);
    if d.pos < 0 || d.pos >= s.len() {
        finish(s, d)
    } else if d.pos < e.pos <= s.len() {
        lex_from(s, e, languages)
    } else {
        e.tokens
    }
}

/// The state in which the driver begins.
pub open spec fn initial() -> Driver {
    Driver {
        tokens: Seq::empty(),
        pos: 0,
        emphasis: State::closed(),
        table: table::State::outside(),
        start: 0,
    }
}

/// The tokens of the text `s`, with the code of fenced blocks highlighted by
/// `languages`.
pub open spec fn lex_spec(s: Seq<char>, languages: Seq<Language>) -> Seq<Token> {
    lex_from(s, initial(), languages)
}

/// What the driver needs of its state: it stands within the text, and while
/// it knows of a table, the table began before where it stands and at an
/// index into the tokens.
pub open spec fn steady(s: Seq<char>, d: Driver) -> bool {
    &&& 0 <= d.pos <= s.len()
    &&& d.table.possible_table || d.table.in_table ==> 0 <= d.start < d.pos
        && d.table.table_index <= d.tokens.len()
}

/// What the step of a character needs of the state: as `steady`, but a
/// table may begin where the driver stands.
pub open spec fn noted(s: Seq<char>, d: Driver) -> bool {
    &&& 0 <= d.pos <= s.len()
    &&& d.table.possible_table || d.table.in_table ==> 0 <= d.start <= d.pos && d.start < s.len()
        && d.table.table_index <= d.tokens.len()
}

/// What is open where nothing is open but the emphasis that `em` says.
pub open spec fn open_of(em: State) -> Open {
    styled(nothing(), em)
}

/// Whether the tokens of the driver are in order, between two steps: they
/// fit, and nothing is open after them but the emphasis that `em` says.
/// While the driver knows of a table, the tokens fit as well with a
/// `TableBegin` before the token of index `table_index`, where the table
/// began, and the table is open after them then.
pub open spec fn in_order(tokens: Seq<Token>, em: State, table: table::State) -> bool {
    let at = table.table_index as int;
    let head = tokens.subrange(0, at);
    let h = scan(Some(nothing()), head);
    &&& scan(Some(nothing()), tokens) == Some(open_of(em))
    &&& table.possible_table || table.in_table ==> {
        &&& 0 <= at <= tokens.len()
        &&& h.is_some() && !h.unwrap().table
        &&& after(head, tokens, Open { table: true, ..h.unwrap() }) == Some(
            Open { table: true, ..open_of(em) },
        )
    }
}

/// Tokens in order stay in order by whole constructs and toggles of
/// emphasis after them.
proof fn lemma_in_order_moves(
    old: Seq<Token>,
    new: Seq<Token>,
    from: State,
    to: State,
    table: table::State,
)
    requires
        in_order(old, from, table),
        moves(old, new, from, to),
    ensures
        in_order(new, to, table),
{
    lemma_after_nothing(old, nothing());
    lemma_after_nothing(new, nothing());
    assert(extends(Seq::empty(), old));
    assert(after(Seq::empty(), new, nothing()) == Some(styled(open_of(from), to)));
    if table.possible_table || table.in_table {
        let at = table.table_index as int;
        let head = old.subrange(0, at);
        assert(new.subrange(0, at) =~= head);
        assert(extends(head, old));
        let h = scan(Some(nothing()), head).unwrap();
        let ht = Open { table: true, ..h };
        assert(after(head, new, ht) == Some(styled(Open { table: true, ..open_of(from) }, to)));
    }
}

/// Tokens in order stay in order by the columns of the table put in where
/// the table began.
proof fn lemma_in_order_inserted(
    old: Seq<Token>,
    new: Seq<Token>,
    em: State,
    table: table::State,
    then: table::State,
)
    requires
        in_order(old, em, table),
        table.possible_table || table.in_table,
        passes_before(old, new, table.table_index as int),
        then.table_index == table.table_index,
    ensures
        in_order(new, em, then),
{
    let at = table.table_index as int;
    let head = old.subrange(0, at);
    lemma_after_nothing(old, nothing());
    lemma_after_nothing(new, nothing());
    assert(extends(Seq::empty(), old));
    assert(extends(head, old));
    assert(extends(head, new));
    assert(new.subrange(0, at) =~= head);
}

/// Tokens in order with a table stay in order when the table is left: with
/// the `TableEnd` after them and the `TableBegin` where the table began.
proof fn lemma_in_order_left(old: Seq<Token>, te: Token, tb: Token, em: State, table: table::State)
    requires
        in_order(old, em, table),
        table.in_table,
        te.id == TokenType::TableEnd,
        tb.id == TokenType::TableBegin,
    ensures
        in_order(
            old.push(te).insert(table.table_index as int, tb),
            em,
            table::State::outside(),
        ),
{
    let at = table.table_index as int;
    let head = old.subrange(0, at);
    let rest = added(head, old);
    let new = old.push(te).insert(at, tb);
    let start = Some(nothing());
    assert(new =~= head + seq![tb] + rest + seq![te]);
    lemma_scan_concat(start, head + seq![tb] + rest, seq![te]);
    lemma_scan_concat(start, head + seq![tb], rest);
    lemma_scan_concat(start, head, seq![tb]);
    let h = scan(start, head).unwrap();
    lemma_scan_one(Some(h), tb);
    lemma_scan_one(Some(Open { table: true, ..open_of(em) }), te);
}

/// Tokens in order outside a table are in order with a table that begins
/// after them.
proof fn lemma_in_order_noted(tokens: Seq<Token>, em: State, table: table::State)
    requires
        in_order(tokens, em, table::State::outside()),
        table.table_index == tokens.len(),
    ensures
        in_order(tokens, em, table),
{
    let at = tokens.len() as int;
    assert(tokens.subrange(0, at) =~= tokens);
    assert(added(tokens, tokens) =~= Seq::<Token>::empty());
}

/// Leaves the table, if the driver is in one, for a table that ends at
/// index `e`.
fn leave_table(
    table: &mut table::State,
    tokens: &mut Vec<Token>,
    iter: &CharsWithPosition,
    start: usize,
    e: usize,
    Ghost(d): Ghost<Driver>,
)
    requires
        iter.wf(),
        noted(iter.text(), d),
        d.tokens == old(tokens)@,
        d.table == *old(table),
        d.start == start,
        d.pos <= e <= iter.text().len(),
    ensures
        final(tokens)@ == end_table(iter.text(), d, e as int).tokens,
        *final(table) == table::State::outside(),
        all_sound(iter.text(), old(tokens)@) ==> all_sound(iter.text(), final(tokens)@),
        old(tokens)@.len() <= final(tokens)@.len(),
        in_order(d.tokens, d.emphasis, d.table) ==> in_order(
            final(tokens)@,
            d.emphasis,
            table::State::outside(),
        ),
{
    proof {
        iter.lemma_bounds();
    }
    if table.in_table {
        emit(tokens, iter, TokenType::TableEnd, start, e);
        insert_span(tokens, iter, table.table_index, TokenType::TableBegin, start, start + 1);
        proof {
            if in_order(d.tokens, d.emphasis, d.table) {
                lemma_in_order_left(
                    d.tokens,
                    span(TokenType::TableEnd, iter.text(), start as int, e as int),
                    span(TokenType::TableBegin, iter.text(), start as int, start + 1),
                    d.emphasis,
                    d.table,
                );
            }
        }
    }
    *table = table::State::new();
}

/// The step for the character `c` just consumed, which is no newline.
fn do_construct_step(
    languages: &Vec<Language>,
    text: &String,
    tokens: &mut Vec<Token>,
    iter: &mut CharsWithPosition,
    emphasis: &mut State,
    c: (usize, char),
    Ghost(d): Ghost<Driver>,
)
    requires
        old(iter).wf(),
        text@ == old(iter).text(),
        old(iter).cur() >= 1,
        c == old(iter).item(old(iter).cur() - 1),
        c.1 != '\n',
        d.pos == old(iter).cur() - 1,
        d.tokens == old(tokens)@,
        d.emphasis == *old(emphasis),
    ensures
        final(iter).wf(),
        final(iter).text() == old(iter).text(),
        final(tokens)@ == char_step(old(iter).text(), d, languages@).tokens,
        final(iter).cur() == char_step(old(iter).text(), d, languages@).pos,
        *final(emphasis) == char_step(old(iter).text(), d, languages@).emphasis,
        d.table == char_step(old(iter).text(), d, languages@).table,
        d.start == char_step(old(iter).text(), d, languages@).start,
        old(iter).cur() <= final(iter).cur(),
        all_sound(old(iter).text(), old(tokens)@) ==> all_sound(old(iter).text(), final(tokens)@),
        old(tokens)@.len() <= final(tokens)@.len(),
        moves(old(tokens)@, final(tokens)@, *old(emphasis), *final(emphasis)),
{
    reveal(char_step);
    let q = iter.consumed();
    let p = q - 1;
    let next = iter.char_at(q);
    if c.1 == '#' {
        match_heading(text, tokens, iter, c);
    } else if c.1 == '-' && next == Some('-') {
        match_horizontalrule(text, tokens, iter, c);
    } else if c.1 == '-' && next == Some(' ') {
        match_checkbutton(text, tokens, iter, c);
    } else if c.1 == '!' {
        match_image(text, tokens, iter, c);
    } else if c.1 == '[' {
        match_link(text, tokens, iter, c);
    } else if c.1 == '>' {
        match_blockquote(emphasis, text, tokens, iter, c);
    } else if c.1 == '`' && next == Some('`') {
        match_codeblock(languages, text, tokens, iter, c);
    } else if c.1 == '`' && next.is_some() {
        match_code(text, tokens, iter, c);
    } else if c.1 == '*' || c.1 == '~' || c.1 == '_' {
        match_emphasis(emphasis, text, tokens, iter, c);
    } else if c.1 == '\\' {
        match_escape(text, tokens, iter, c);
    } else if c.1 == ' ' {
        emit(tokens, iter, TokenType::Space, p, q);
    } else if c.1 == '\t' {
        emit(tokens, iter, TokenType::Tab, p, q);
    } else if c.1 == '|' {
        emit(tokens, iter, TokenType::Pipe, p, q);
    } else {
        emit(tokens, iter, TokenType::Text, p, q);
    }
}

/// The step for the next character, where no construct of a whole line
/// begins.
fn do_char_step(
    languages: &Vec<Language>,
    text: &String,
    tokens: &mut Vec<Token>,
    iter: &mut CharsWithPosition,
    emphasis: &mut State,
    table: &mut table::State,
    start: usize,
    Ghost(d): Ghost<Driver>,
)
    requires
        old(iter).wf(),
        text@ == old(iter).text(),
        noted(old(iter).text(), d),
        d.pos < old(iter).text().len(),
        d == (Driver {
            tokens: old(tokens)@,
            pos: old(iter).cur(),
            emphasis: *old(emphasis),
            table: *old(table),
            start: start as int,
        }),
    ensures
        final(iter).wf(),
        final(iter).text() == old(iter).text(),
        char_step(old(iter).text(), d, languages@) == (Driver {
            tokens: final(tokens)@,
            pos: final(iter).cur(),
            emphasis: *final(emphasis),
            table: *final(table),
            start: start as int,
        }),
        steady(old(iter).text(), char_step(old(iter).text(), d, languages@)),
        old(iter).cur() < final(iter).cur(),
        all_sound(old(iter).text(), old(tokens)@) ==> all_sound(old(iter).text(), final(tokens)@),
        old(tokens)@.len() <= final(tokens)@.len(),
        in_order(d.tokens, d.emphasis, d.table) ==> in_order(
            final(tokens)@,
            *final(emphasis),
            *final(table),
        ),
{
    let p = iter.consumed();
    let q = p + 1;
    let c = iter.next().unwrap();
    if c.1 == '\n' {
        reveal(char_step);
        if p >= 1 && iter.is_at(p - 1, '\n') {
            leave_table(table, tokens, iter, start, p, Ghost(d));
        }
        let ghost left = tokens@;
        emit(tokens, iter, TokenType::Newline, p, q);
        proof {
            if in_order(d.tokens, d.emphasis, d.table) {
                lemma_in_order_moves(left, tokens@, *emphasis, *emphasis, *table);
            }
        }
    } else {
        do_construct_step(languages, text, tokens, iter, emphasis, c, Ghost(d));
        proof {
            if in_order(d.tokens, d.emphasis, d.table) {
                lemma_in_order_moves(d.tokens, tokens@, d.emphasis, *emphasis, d.table);
            }
        }
    }
    proof {
        iter.lemma_bounds();
    }
}

/// One step of the driver.
fn do_step(
    languages: &Vec<Language>,
    text: &String,
    tokens: &mut Vec<Token>,
    iter: &mut CharsWithPosition,
    emphasis: &mut State,
    table: &mut table::State,
    start: &mut usize,
    Ghost(d): Ghost<Driver>,
)
    requires
        old(iter).wf(),
        text@ == old(iter).text(),
        steady(old(iter).text(), d),
        d.pos < old(iter).text().len(),
        d == (Driver {
            tokens: old(tokens)@,
            pos: old(iter).cur(),
            emphasis: *old(emphasis),
            table: *old(table),
            start: *old(start) as int,
        }),
    ensures
        final(iter).wf(),
        final(iter).text() == old(iter).text(),
        step(old(iter).text(), d, languages@) == (Driver {
            tokens: final(tokens)@,
            pos: final(iter).cur(),
            emphasis: *final(emphasis),
            table: *final(table),
            start: *final(start) as int,
        }),
        steady(old(iter).text(), step(old(iter).text(), d, languages@)),
        old(iter).cur() < final(iter).cur(),
        all_sound(old(iter).text(), old(tokens)@) ==> all_sound(old(iter).text(), final(tokens)@),
        in_order(d.tokens, d.emphasis, d.table) ==> in_order(
            final(tokens)@,
            *final(emphasis),
            *final(table),
        ),
{
    let p = iter.consumed();
    let fresh = at_line_start(iter, p);
    let decides = fresh && table.possible_table && *start != p;
    if decides && iter.is_at(p, '|') {
        let matched = match_table(table, text, tokens, iter);
        table.possible_table = false;
        table.in_table = matched;
        proof {
            iter.lemma_bounds();
            if in_order(d.tokens, d.emphasis, d.table) {
                lemma_in_order_inserted(d.tokens, tokens@, d.emphasis, d.table, *table);
            }
        }
        return ;
    }
    if decides {
        table.possible_table = false;
    }
    let ghost settled = *table;
    if fresh && is_bullet(iter, p) {
        close_emphasis(emphasis, tokens, iter, p);
        let ghost closed = tokens@;
        match_list(
            ListType(TokenType::UnorderedListBegin, TokenType::UnorderedListEnd),
            text,
            tokens,
            iter,
        );
        proof {
            if in_order(d.tokens, d.emphasis, d.table) {
                lemma_in_order_moves(d.tokens, closed, d.emphasis, State::closed(), settled);
                lemma_in_order_moves(closed, tokens@, State::closed(), State::closed(), settled);
            }
        }
    } else if fresh && is_number(iter, p) {
        close_emphasis(emphasis, tokens, iter, p);
        let ghost closed = tokens@;
        match_list(
            ListType(TokenType::OrderedListBegin, TokenType::OrderedListEnd),
            text,
            tokens,
            iter,
        );
        proof {
            if in_order(d.tokens, d.emphasis, d.table) {
                lemma_in_order_moves(d.tokens, closed, d.emphasis, State::closed(), settled);
                lemma_in_order_moves(closed, tokens@, State::closed(), State::closed(), settled);
            }
        }
    } else if fresh && p >= 1 && holds_at(iter, p, "    ") {
        let c = (iter.last(), '\n');
        proof {
            reveal_strlit("    ");
        }
        match_indentblock(text, tokens, iter, c);
        proof {
            if in_order(d.tokens, d.emphasis, d.table) {
                lemma_in_order_moves(d.tokens, tokens@, d.emphasis, d.emphasis, settled);
            }
        }
    } else {
        if iter.is_at(p, '|') && (p == 0 || (iter.is_at(p - 1, '\n') && (p == 1 || iter.is_at(
            p - 2,
            '\n',
        )))) && !table.possible_table && !table.in_table {
            table.possible_table_start = iter.index();
            table.possible_table = true;
            table.in_table = false;
            table.table_index = tokens.len();
            *start = p;
            proof {
                if in_order(d.tokens, d.emphasis, d.table) {
                    lemma_in_order_noted(d.tokens, d.emphasis, *table);
                }
            }
        }
        let ghost noted = Driver {
            tokens: tokens@,
            pos: iter.cur(),
            emphasis: *emphasis,
            table: *table,
            start: *start as int,
        };
        do_char_step(languages, text, tokens, iter, emphasis, table, *start, Ghost(noted));
    }
    proof {
        iter.lemma_bounds();
    }
}

/// Lexes `text` into its tokens, with the code of fenced blocks highlighted
/// by the definition of its language among `languages`, and without one
/// where the language is not among them.
///
/// Every token names a span of whole characters of the text, and the tokens
/// are paired.
pub fn lex_with(text: &String, languages: &Vec<Language>) -> (tokens: Vec<Token>)
    ensures
        tokens@ == lex_spec(text@, languages@),
        all_sound(text@, tokens@),
        paired(tokens@),
{
    let mut tokens: Vec<Token> = Vec::new();
    let mut iter = CharsWithPosition::new(text.as_str());
    let mut emphasis = State::new();
    let mut table = table::State::new();
    let mut start: usize = 0;
    let n = iter.len();
    let ghost s = text@;
    let mut done = false;
    while !done
        invariant
            iter.wf(),
            iter.text() == s,
            text@ == s,
            n == s.len(),
            all_sound(s, tokens@),
            !done ==> in_order(tokens@, emphasis, table),
            done ==> paired(tokens@),
            !done ==> steady(
                s,
                Driver {
                    tokens: tokens@,
                    pos: iter.cur(),
                    emphasis,
                    table,
                    start: start as int,
                },
            ),
            done ==> tokens@ == lex_spec(s, languages@),
            !done ==> lex_from(
                s,
                Driver {
                    tokens: tokens@,
                    pos: iter.cur(),
                    emphasis,
                    table,
                    start: start as int,
                },
                languages@,
            ) == lex_spec(s, languages@),
        decreases n - iter.cur() + (if done { 0int } else { 1int }),
    {
        let p = iter.consumed();
        let ghost d = Driver {
            tokens: tokens@,
            pos: p as int,
            emphasis,
            table,
            start: start as int,
        };
        if p >= n {
            leave_table(&mut table, &mut tokens, &iter, start, n, Ghost(d));
            let ghost left = tokens@;
            close_emphasis(&mut emphasis, &mut tokens, &iter, n);
            proof {
                lemma_in_order_moves(left, tokens@, d.emphasis, State::closed(), table);
            }
            done = true;
        } else {
            do_step(
                languages,
                text,
                &mut tokens,
                &mut iter,
                &mut emphasis,
                &mut table,
                &mut start,
                Ghost(d),
            );
        }
    }
    tokens
}

/// Lexes `text` into its tokens, with the code of fenced blocks highlighted
/// without a syntax definition.
///
/// Every token names a span of whole characters of the text, and the tokens
/// are paired.
pub fn lex(text: &String) -> (tokens: Vec<Token>)
    ensures
        tokens@ == lex_spec(text@, Seq::empty()),
        all_sound(text@, tokens@),
        paired(tokens@),
{
    let languages: Vec<Language> = Vec::new();
    lex_with(text, &languages)
}

} // verus!
