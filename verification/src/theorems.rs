//! What holds of the lexer and the renderer on every text.
use vstd::prelude::*;
use vstd::utf8::{encode_utf8, is_char_boundary};
use crate::token::{Token, TokenType, span, sound};
use crate::text::{
    offset, byte_len, width, index_of, lemma_slice_offsets, lemma_offset_grows,
    lemma_byte_len_is_encoded_len, lemma_boundary_is_char_boundary,
};
use crate::emphasis_state::State;
use crate::table;
use crate::syntax::Language;
use crate::markdown::{
    line_start, starts_with_at, number_at, escape, quote_body, list_body, close_item, unwind,
    Listed,
};
use crate::wrapper::List;
use crate::lexer::{Driver, step, char_step, lex_from, lex_spec, finish, initial};
use crate::parser::{
    text_of, joined, block, render, render_from, quote_run, table_token, Rendered, Cells,
};
use crate::pairing::{
    Family, opener, closer, is_open, list_end, open_at, paired, scan, nothing, closes_list, count,
    open_lists, encloses, added, after, extends, lemma_open_at_ends, lemma_step_family,
    lemma_step_lists,
};

verus! {

/// Whether `c` is a character that the markup gives a meaning of its own.
pub open spec fn special(c: char) -> bool {
    c == '#' || c == '-' || c == '!' || c == '[' || c == '>' || c == '`' || c == '*' || c == '~'
        || c == '_' || c == '|' || c == '\\'
}

/// Whether `s` is plain text: it holds no special character, and none of its
/// lines begins with the marker of an ordered list or, after the first line,
/// with four spaces.
pub open spec fn plain(s: Seq<char>) -> bool {
    &&& forall|i: int| 0 <= i < s.len() ==> !special(#[trigger] s[i])
    &&& forall|p: int|
        0 <= p < s.len() && #[trigger] line_start(s, p) ==> !number_at(s, p) && !(p >= 1
            && starts_with_at(s, p, "    "@))
}

/// The kind of the token for the character `c` of plain text.
pub open spec fn plain_kind(c: char) -> TokenType {
    if c == ' ' {
        TokenType::Space
    } else if c == '\t' {
        TokenType::Tab
    } else if c == '\n' {
        TokenType::Newline
    } else {
        TokenType::Text
    }
}

/// One token for each character of `s`, of the kind of the character.
pub open spec fn plain_tokens(s: Seq<char>) -> Seq<Token> {
    Seq::new(s.len(), |i: int| span(plain_kind(s[i]), s, i, i + 1))
}

/// The parts of the text `s` that the tokens `ts` name.
pub open spec fn texts(s: Seq<char>, ts: Seq<Token>) -> Seq<Seq<char>> {
    Seq::new(ts.len(), |i: int| text_of(s, ts[i]))
}

/// On plain text a step of the driver emits the token of the character.
proof fn lemma_plain_step(s: Seq<char>, languages: Seq<Language>, d: Driver)
    requires
        plain(s),
        0 <= d.pos < s.len(),
        d.emphasis == State::closed(),
        d.table == table::State::outside(),
    ensures
        step(s, d, languages) == (Driver {
            tokens: d.tokens.push(plain_tokens(s)[d.pos]),
            pos: d.pos + 1,
            ..d
        }),
{
    reveal(char_step);
    let p = d.pos;
    assert(!special(s[p]));
    if line_start(s, p) {
        assert(!number_at(s, p));
    }
}

/// On plain text the driver emits the tokens of the characters that are
/// left.
proof fn lemma_plain_from(s: Seq<char>, languages: Seq<Language>, d: Driver)
    requires
        plain(s),
        0 <= d.pos <= s.len(),
        d.emphasis == State::closed(),
        d.table == table::State::outside(),
    ensures
        lex_from(s, d, languages) == d.tokens + plain_tokens(s).subrange(d.pos, s.len() as int),
    decreases s.len() - d.pos,
{
    let rest = plain_tokens(s).subrange(d.pos, s.len() as int);
    if d.pos >= s.len() {
        assert(finish(s, d) == d.tokens);
        assert(d.tokens + rest =~= d.tokens);
    } else {
        lemma_plain_step(s, languages, d);
        let e = step(s, d, languages);
        lemma_plain_from(s, languages, e);
        assert(e.tokens + plain_tokens(s).subrange(e.pos, s.len() as int) =~= d.tokens + rest);
    }
}

/// The parts of the text that the first `k` tokens of plain text name are,
/// one after the other, the first `k` characters.
proof fn lemma_joined_characters(s: Seq<char>, k: int)
    requires
        0 <= k <= s.len(),
        byte_len(s) <= usize::MAX,
    ensures
        joined(texts(s, plain_tokens(s)), k) == s.subrange(0, k),
    decreases k,
{
    if k > 0 {
        lemma_joined_characters(s, k - 1);
        lemma_slice_offsets(s, k - 1, k);
        lemma_offset_grows(s, k, s.len() as int);
        lemma_offset_grows(s, k - 1, k);
        assert(texts(s, plain_tokens(s))[k - 1] == s.subrange(k - 1, k));
        assert(s.subrange(0, k - 1) + s.subrange(k - 1, k) =~= s.subrange(0, k));
    } else {
        assert(s.subrange(0, 0) =~= Seq::<char>::empty());
    }
}

/// A sound token lies within the text and names whole characters of it: its
/// offsets are in order, neither is beyond the length of the text in bytes,
/// which is the length of its UTF-8 encoding, each is a character boundary
/// of that encoding, and the part of the text that the token names is the
/// characters between the two boundaries.
pub proof fn sound_tokens_lie_within_the_text(s: Seq<char>, t: Token)
    requires
        sound(s, t),
    ensures
        0 <= t.begin <= t.end <= byte_len(s),
        byte_len(s) == encode_utf8(s).len(),
        is_char_boundary(encode_utf8(s), t.begin as int),
        is_char_boundary(encode_utf8(s), t.end as int),
        text_of(s, t) == s.subrange(index_of(s, t.begin as int), index_of(s, t.end as int)),
        0 <= index_of(s, t.begin as int) <= index_of(s, t.end as int) <= s.len(),
{
    let b = index_of(s, t.begin as int);
    let e = index_of(s, t.end as int);
    lemma_offset_grows(s, e, s.len() as int);
    lemma_byte_len_is_encoded_len(s);
    lemma_boundary_is_char_boundary(s, t.begin as int);
    lemma_boundary_is_char_boundary(s, t.end as int);
    if e < b {
        lemma_offset_grows(s, e + 1, b);
    }
}

/// Plain text is lexed character by character: the tokens are one `Text`,
/// `Space`, `Tab` or `Newline` for each character, and the parts of the text
/// that they name, one after the other, are the text.
pub proof fn plain_text_round_trip(s: Seq<char>, languages: Seq<Language>)
    requires
        plain(s),
        byte_len(s) <= usize::MAX,
    ensures
        lex_spec(s, languages) == plain_tokens(s),
        joined(texts(s, lex_spec(s, languages)), lex_spec(s, languages).len() as int) == s,
{
    lemma_plain_from(s, languages, initial());
    assert(plain_tokens(s).subrange(0, s.len() as int) =~= plain_tokens(s));
    assert(Seq::<Token>::empty() + plain_tokens(s) =~= plain_tokens(s));
    lemma_joined_characters(s, s.len() as int);
    assert(s.subrange(0, s.len() as int) =~= s);
}

/// A backslash takes the meaning from the character after it: wherever the
/// driver stands at a backslash that a character follows, the step emits an
/// `Escape` for the backslash and `Text` for the character, whatever it is,
/// and the emphasis is as before.
pub proof fn escape_takes_the_next_character(s: Seq<char>, languages: Seq<Language>, d: Driver)
    requires
        0 <= d.pos,
        d.pos + 1 < s.len(),
        s[d.pos] == '\\',
    ensures
        step(s, d, languages).tokens == d.tokens.push(
            span(TokenType::Escape, s, d.pos, d.pos + 1),
        ).push(span(TokenType::Text, s, d.pos + 1, d.pos + 2)),
        step(s, d, languages).pos == d.pos + 2,
        step(s, d, languages).emphasis == d.emphasis,
{
    reveal(char_step);
    reveal_strlit("    ");
    if starts_with_at(s, d.pos, "    "@) {
        assert(s.subrange(d.pos, d.pos + 4)[0] == ' ');
    }
}

/// After an `Escape` the renderer shows the text of the next token as it
/// stands, whatever the kind of that token.
pub proof fn escape_shows_the_next_token(
    s: Seq<char>,
    ts: Seq<Token>,
    i: int,
    out: Seq<Seq<char>>,
)
    requires
        0 <= i,
        i + 1 < ts.len(),
        ts[i].id == TokenType::Escape,
    ensures
        block(s, ts, i, out) == (Rendered { html: out.push(text_of(s, ts[i + 1])), next: i + 2 }),
{
}

/// Within a blockquote, too, a backslash takes the meaning from the
/// character after it: the two are an `Escape` and `Text`, and the emphasis
/// is as before.
pub proof fn escape_in_a_blockquote(s: Seq<char>, toks: Seq<Token>, i: int, k: int, em: State)
    requires
        0 <= k,
        k + 1 < s.len(),
        s[k] == '\\',
    ensures
        escape(s, toks, k + 1).tokens == toks.push(span(TokenType::Escape, s, k, k + 1)).push(
            span(TokenType::Text, s, k + 1, k + 2),
        ),
        quote_body(s, toks, i, k, em) == quote_body(s, escape(s, toks, k + 1).tokens, i, k + 2, em),
{
}

/// Within a list, too, a backslash takes the meaning from the character
/// after it: the two are an `Escape` and `Text`, and the state of the list
/// is as before.
pub proof fn escape_in_a_list(s: Seq<char>, st: Listed, k: int)
    requires
        0 <= k,
        k + 1 < s.len(),
        s[k] == '\\',
    ensures
        escape(s, st.tokens, k + 1).tokens == st.tokens.push(
            span(TokenType::Escape, s, k, k + 1),
        ).push(span(TokenType::Text, s, k + 1, k + 2)),
        list_body(s, st, k) == list_body(
            s,
            Listed { tokens: escape(s, st.tokens, k + 1).tokens, ..st },
            k + 2,
        ),
{
}

/// Within a blockquote and within a table, too, the renderer shows after an
/// `Escape` the text of the next token as it stands.
pub proof fn escape_shows_the_next_token_within(
    s: Seq<char>,
    ts: Seq<Token>,
    i: int,
    out: Seq<Seq<char>>,
    c0: int,
    columns: int,
    st: Cells,
)
    requires
        0 <= i,
        i + 1 < ts.len(),
        ts[i].id == TokenType::Escape,
    ensures
        quote_run(s, ts, i, out) == quote_run(s, ts, i + 2, out.push(text_of(s, ts[i + 1]))),
        table_token(s, ts, i, c0, columns, st) == (Cells {
            html: st.html.push(text_of(s, ts[i + 1])),
            next: i + 2,
            ..st
        }),
{
}

/// The tokens that close the open lists `lists` at index `k`, innermost
/// first: for each an empty token of its closing kind.
pub open spec fn list_ends(s: Seq<char>, lists: Seq<List>, k: int) -> Seq<Token> {
    Seq::new(lists.len(), |i: int| span(lists[lists.len() - 1 - i].0, s, k, k))
}

/// Closing every open list appends the tokens that close them, innermost
/// first, and leaves no list open.
pub proof fn lemma_unwind_all(s: Seq<char>, toks: Seq<Token>, lists: Seq<List>, k: int)
    ensures
        unwind(s, toks, lists, k, -1) == (toks + list_ends(s, lists, k), Seq::<List>::empty()),
    decreases lists.len(),
{
    if lists.len() > 0 {
        let more = toks.push(span(lists.last().0, s, k, k));
        lemma_unwind_all(s, more, lists.drop_last(), k);
        assert(more + list_ends(s, lists.drop_last(), k) =~= toks + list_ends(s, lists, k));
    } else {
        assert(toks + list_ends(s, lists, k) =~= toks);
        assert(lists =~= Seq::<List>::empty());
    }
}

/// A list that runs to the end of the text is closed there: after the
/// tokens that end the open item, which close what is open of its emphasis
/// and end with its `ListItemEnd`, come the tokens that close the open
/// lists, one for each, innermost first. So it is where the text ends
/// within a line, and where it ends with the newline of the last line.
pub proof fn list_closes_at_the_end_of_the_text(s: Seq<char>, st: Listed)
    ensures
        list_body(s, st, s.len() as int).tokens == close_item(
            s,
            st,
            s.len() as int,
            s.len() as int,
        ).tokens + list_ends(s, st.lists, s.len() as int),
        st.item ==> close_item(s, st, s.len() as int, s.len() as int).tokens.last() == span(
            TokenType::ListItemEnd,
            s,
            s.len() as int,
            s.len() as int,
        ),
        s.len() > 0 && s[s.len() - 1] == '\n' ==> list_body(s, st, s.len() - 1).tokens
            == close_item(s, st, s.len() - 1, s.len() as int).tokens + list_ends(
            s,
            st.lists,
            s.len() as int,
        ),
        list_ends(s, st.lists, s.len() as int).len() == st.lists.len(),
{
    let n = s.len() as int;
    let c = close_item(s, st, n, n);
    lemma_unwind_all(s, c.tokens, c.lists, n);
    if n > 0 && s[n - 1] == '\n' {
        let ended = close_item(s, st, n - 1, n);
        let again = close_item(s, ended, n, n);
        assert(again.tokens == ended.tokens);
        lemma_unwind_all(s, again.tokens, again.lists, n);
    }
}

/// A backslash and a character `x` are rendered as `x` alone.
pub proof fn escape_transparency(x: char, languages: Seq<Language>)
    ensures
        render(seq!['\\', x], lex_spec(seq!['\\', x], languages)) == seq![seq![x]],
{
    let s = seq!['\\', x];
    let d = initial();
    escape_takes_the_next_character(s, languages, d);
    let e = step(s, d, languages);
    let ts = seq![span(TokenType::Escape, s, 0, 1), span(TokenType::Text, s, 1, 2)];
    assert(e.tokens =~= ts);
    assert(e.table == table::State::outside()) by {
        reveal(char_step);
        reveal_strlit("    ");
        if starts_with_at(s, 0, "    "@) {
            assert(s.subrange(0, 4)[0] == ' ');
        }
    }
    assert(lex_from(s, e, languages) == finish(s, e));
    assert(finish(s, e) == ts);
    assert(lex_spec(s, languages) == ts);
    assert(offset(s, 2) == offset(s, 1) + width(x));
    assert(offset(s, 1) == offset(s, 0) + width('\\'));
    assert(offset(s, 0) == 0);
    lemma_slice_offsets(s, 1, 2);
    assert(s.subrange(1, 2) =~= seq![x]);
    escape_shows_the_next_token(s, ts, 0, Seq::empty());
    let r = block(s, ts, 0, Seq::empty());
    assert(render_from(s, ts, 2, r.html) == r.html);
    assert(r.html =~= seq![seq![x]]);
}

/// A construct that is open after `a` tokens and closed after `b` is closed
/// by a token between, before which none of the construct stands.
proof fn lemma_closed_between(ts: Seq<Token>, f: Family, a: int, b: int)
    requires
        scan(Some(nothing()), ts).is_some(),
        0 <= a <= b <= ts.len(),
        open_at(ts, a).is_some(),
        open_at(ts, b).is_some(),
        is_open(open_at(ts, a).unwrap(), f),
        !is_open(open_at(ts, b).unwrap(), f),
    ensures
        exists|j: int|
            a <= j < b && #[trigger] ts[j].id == closer(f) && forall|k: int|
                a <= k < j ==> (#[trigger] ts[k]).id != opener(f) && ts[k].id != closer(f),
    decreases b - a,
{
    if a < b {
        lemma_step_family(ts, f, a);
        if ts[a].id == closer(f) {
            assert(ts[a].id == closer(f));
        } else {
            lemma_closed_between(ts, f, a + 1, b);
            let j = choose|j: int|
                a + 1 <= j < b && #[trigger] ts[j].id == closer(f) && forall|k: int|
                    a + 1 <= k < j ==> (#[trigger] ts[k]).id != opener(f) && ts[k].id != closer(
                        f,
                    );
            assert(ts[j].id == closer(f));
        }
    }
}

/// A construct that is closed after `a` tokens and open after `b` is opened
/// by a token between, after which none of the construct stands.
proof fn lemma_opened_between(ts: Seq<Token>, f: Family, a: int, b: int)
    requires
        scan(Some(nothing()), ts).is_some(),
        0 <= a <= b <= ts.len(),
        open_at(ts, a).is_some(),
        open_at(ts, b).is_some(),
        !is_open(open_at(ts, a).unwrap(), f),
        is_open(open_at(ts, b).unwrap(), f),
    ensures
        exists|i: int|
            a <= i < b && #[trigger] ts[i].id == opener(f) && forall|k: int|
                i < k < b ==> (#[trigger] ts[k]).id != opener(f) && ts[k].id != closer(f),
    decreases b - a,
{
    if a < b {
        lemma_step_family(ts, f, b - 1);
        if ts[b - 1].id == opener(f) {
            assert(ts[b - 1].id == opener(f));
        } else {
            lemma_opened_between(ts, f, a, b - 1);
            let i = choose|i: int|
                a <= i < b - 1 && #[trigger] ts[i].id == opener(f) && forall|k: int|
                    i < k < b - 1 ==> (#[trigger] ts[k]).id != opener(f) && ts[k].id != closer(f);
            assert(ts[i].id == opener(f));
        }
    }
}

/// Among paired tokens, every token that opens a construct is followed by a
/// token that closes it, and no token of the construct stands between the
/// two.
pub proof fn every_begin_has_its_end(ts: Seq<Token>, f: Family, i: int)
    requires
        paired(ts),
        0 <= i < ts.len(),
        ts[i].id == opener(f),
    ensures
        exists|j: int|
            i < j < ts.len() && #[trigger] ts[j].id == closer(f) && forall|k: int|
                i < k < j ==> (#[trigger] ts[k]).id != opener(f) && ts[k].id != closer(f),
{
    lemma_step_family(ts, f, i);
    lemma_open_at_ends(ts);
    lemma_closed_between(ts, f, i + 1, ts.len() as int);
}

/// Among paired tokens, every token that closes a construct follows a token
/// that opens it, and no token of the construct stands between the two.
pub proof fn every_end_has_its_begin(ts: Seq<Token>, f: Family, j: int)
    requires
        paired(ts),
        0 <= j < ts.len(),
        ts[j].id == closer(f),
    ensures
        exists|i: int|
            0 <= i < j && #[trigger] ts[i].id == opener(f) && forall|k: int|
                i < k < j ==> (#[trigger] ts[k]).id != opener(f) && ts[k].id != closer(f),
{
    lemma_step_family(ts, f, j);
    lemma_open_at_ends(ts);
    lemma_opened_between(ts, f, 0, j);
}

/// Among paired tokens, after the last of them nothing is open: no token
/// that opens a construct is left without the token that closes it.
pub proof fn nothing_is_left_open(ts: Seq<Token>)
    requires
        paired(ts),
    ensures
        open_at(ts, ts.len() as int) == Some(nothing()),
{
    lemma_open_at_ends(ts);
}

/// A list that is open after `a` tokens, above the lists `base`, and closed
/// after `b` is closed by a token between, up to which it is open.
proof fn lemma_list_closed_between(
    ts: Seq<Token>,
    base: Seq<TokenType>,
    e: TokenType,
    a: int,
    b: int,
)
    requires
        scan(Some(nothing()), ts).is_some(),
        0 <= a <= b <= ts.len(),
        open_at(ts, a).is_some(),
        open_at(ts, b).is_some(),
        closes_list(e),
        open_at(ts, a).unwrap().lists.len() > base.len(),
        open_at(ts, a).unwrap().lists.take((base.len() + 1) as int) == base.push(e),
        open_at(ts, b).unwrap().lists.len() <= base.len(),
    ensures
        exists|j: int|
            a <= j < b && #[trigger] ts[j].id == e && open_at(ts, j + 1).unwrap().lists == base
                && forall|k: int|
                a <= k <= j ==> (#[trigger] open_at(ts, k)).unwrap().lists.len() > base.len(),
    decreases b - a,
{
    if a < b {
        lemma_step_lists(ts, a);
        let x = open_at(ts, a).unwrap();
        let y = open_at(ts, a + 1).unwrap();
        if y.lists.len() > base.len() {
            assert(y.lists.take((base.len() + 1) as int) =~= x.lists.take(
                (base.len() + 1) as int,
            ));
            lemma_list_closed_between(ts, base, e, a + 1, b);
            let j = choose|j: int|
                a + 1 <= j < b && #[trigger] ts[j].id == e && open_at(ts, j + 1).unwrap().lists
                    == base && forall|k: int|
                    a + 1 <= k <= j ==> (#[trigger] open_at(ts, k)).unwrap().lists.len()
                        > base.len();
            assert(ts[j].id == e);
        } else {
            assert(x.lists.len() == base.len() + 1);
            assert(x.lists.take((base.len() + 1) as int) =~= x.lists);
            assert(x.lists.last() == e);
            assert(y.lists =~= base);
            assert(ts[a].id == e);
        }
    }
}

/// Among paired tokens, every token that opens a list is followed by the
/// token that closes it: a token of the closing kind of the list, after
/// which the lists that are open are those that were open before the list.
/// Between the two the list is open.
pub proof fn every_list_has_its_end(ts: Seq<Token>, i: int)
    requires
        paired(ts),
        0 <= i < ts.len(),
        ts[i].id == TokenType::UnorderedListBegin || ts[i].id == TokenType::OrderedListBegin,
    ensures
        exists|j: int|
            i < j < ts.len() && #[trigger] ts[j].id == list_end(ts[i].id) && open_at(
                ts,
                j + 1,
            ).unwrap().lists == open_at(ts, i).unwrap().lists && forall|k: int|
                i < k <= j ==> (#[trigger] open_at(ts, k)).unwrap().lists.len() > open_at(
                    ts,
                    i,
                ).unwrap().lists.len(),
{
    lemma_step_lists(ts, i);
    lemma_open_at_ends(ts);
    let base = open_at(ts, i).unwrap().lists;
    let e = list_end(ts[i].id);
    assert(base.push(e).take((base.len() + 1) as int) =~= base.push(e));
    lemma_list_closed_between(ts, base, e, i + 1, ts.len() as int);
}

/// Counting one token more.
proof fn lemma_count_next(ts: Seq<Token>, id: TokenType, k: int)
    requires
        0 <= k < ts.len(),
    ensures
        count(ts.take(k + 1), id) == count(ts.take(k), id) + (if ts[k].id == id {
            1nat
        } else {
            0nat
        }),
{
    assert(ts.take(k + 1).drop_last() =~= ts.take(k));
    assert(ts.take(k + 1).last() == ts[k]);
}

/// Among the first `k` of tokens that fit, a construct is opened as often
/// as it is closed, and once more where it is open after them.
proof fn lemma_balance(ts: Seq<Token>, f: Family, k: int)
    requires
        scan(Some(nothing()), ts).is_some(),
        0 <= k <= ts.len(),
    ensures
        open_at(ts, k).is_some(),
        count(ts.take(k), opener(f)) == count(ts.take(k), closer(f)) + (if is_open(
            open_at(ts, k).unwrap(),
            f,
        ) {
            1nat
        } else {
            0nat
        }),
    decreases k,
{
    if k == 0 {
        lemma_open_at_ends(ts);
        assert(ts.take(0) =~= Seq::<Token>::empty());
    } else {
        lemma_balance(ts, f, k - 1);
        lemma_step_family(ts, f, k - 1);
        lemma_count_next(ts, opener(f), k - 1);
        lemma_count_next(ts, closer(f), k - 1);
    }
}

/// Among the first `k` of tokens that fit, lists of a kind are opened as
/// often as they are closed and as they are open after them.
proof fn lemma_list_balance(ts: Seq<Token>, begin: TokenType, k: int)
    requires
        scan(Some(nothing()), ts).is_some(),
        0 <= k <= ts.len(),
        begin == TokenType::UnorderedListBegin || begin == TokenType::OrderedListBegin,
    ensures
        open_at(ts, k).is_some(),
        count(ts.take(k), begin) == count(ts.take(k), list_end(begin)) + open_lists(
            open_at(ts, k).unwrap().lists,
            list_end(begin),
        ),
    decreases k,
{
    if k == 0 {
        lemma_open_at_ends(ts);
        assert(ts.take(0) =~= Seq::<Token>::empty());
    } else {
        lemma_list_balance(ts, begin, k - 1);
        lemma_step_lists(ts, k - 1);
        lemma_count_next(ts, begin, k - 1);
        lemma_count_next(ts, list_end(begin), k - 1);
        let x = open_at(ts, k - 1).unwrap().lists;
        let id = ts[k - 1].id;
        if id == TokenType::UnorderedListBegin || id == TokenType::OrderedListBegin {
            assert(x.push(list_end(id)).drop_last() =~= x);
        }
    }
}

/// Paired tokens hold as many tokens that open a construct as tokens that
/// close it, and as many tokens that open a list of a kind as tokens that
/// close one.
pub proof fn paired_tokens_balance(ts: Seq<Token>, f: Family)
    requires
        paired(ts),
    ensures
        count(ts, opener(f)) == count(ts, closer(f)),
        count(ts, TokenType::UnorderedListBegin) == count(ts, TokenType::UnorderedListEnd),
        count(ts, TokenType::OrderedListBegin) == count(ts, TokenType::OrderedListEnd),
{
    let n = ts.len() as int;
    lemma_open_at_ends(ts);
    assert(ts.take(n) =~= ts);
    lemma_balance(ts, f, n);
    lemma_list_balance(ts, TokenType::UnorderedListBegin, n);
    lemma_list_balance(ts, TokenType::OrderedListBegin, n);
}

/// The tokens that a matcher of whole constructs appends, as the list
/// matcher does, are paired by themselves.
pub proof fn enclosed_tokens_are_paired(old: Seq<Token>, new: Seq<Token>)
    requires
        encloses(old, new),
    ensures
        paired(added(old, new)),
{
    assert(added(old, old) =~= Seq::<Token>::empty());
    assert(extends(old, old));
    assert(after(old, old, nothing()) == Some(nothing()));
    assert(after(old, new, nothing()) == after(old, old, nothing()));
}

} // verus!
