//! The pairing of tokens: every token that opens a construct is followed by
//! the one token that closes it.
//!
//! Pairing is checked by reading the tokens once, front to back, and keeping
//! track of what is open.
use vstd::prelude::*;
use crate::token::{Token, TokenType};
use crate::emphasis_state::{State, Tag};
use crate::wrapper::{List, ListType};

verus! {

/// What is open after reading some tokens: each of the four kinds of
/// emphasis, a blockquote, a fenced code block, a table, a list item, and the
/// lists, as the kinds of token that close them, innermost last.
pub struct Open {
    pub italic: bool,
    pub bold: bool,
    pub strike: bool,
    pub underline: bool,
    pub quote: bool,
    pub code: bool,
    pub table: bool,
    pub item: bool,
    pub lists: Seq<TokenType>,
}

/// Nothing open.
pub open spec fn nothing() -> Open {
    Open {
        italic: false,
        bold: false,
        strike: false,
        underline: false,
        quote: false,
        code: false,
        table: false,
        item: false,
        lists: Seq::empty(),
    }
}

/// Whether tokens of kind `id` open or close a construct.
pub open spec fn pairs(id: TokenType) -> bool {
    match id {
        TokenType::ItalicBegin
        | TokenType::ItalicEnd
        | TokenType::BoldBegin
        | TokenType::BoldEnd
        | TokenType::StrikeBegin
        | TokenType::StrikeEnd
        | TokenType::UnderlineBegin
        | TokenType::UnderlineEnd
        | TokenType::BlockquoteBegin
        | TokenType::BlockquoteEnd
        | TokenType::CodeBlockBegin
        | TokenType::CodeBlockEnd
        | TokenType::TableBegin
        | TokenType::TableEnd
        | TokenType::ListItemBegin
        | TokenType::ListItemEnd
        | TokenType::UnorderedListBegin
        | TokenType::UnorderedListEnd
        | TokenType::OrderedListBegin
        | TokenType::OrderedListEnd => true,
        _ => false,
    }
}

/// What is open after a token of kind `id`, where `x` was open before it;
/// `None` where the token does not fit: it opens what is open already, or
/// closes what is not open or is not the innermost list.
pub open spec fn fit(x: Open, id: TokenType) -> Option<Open> {
    match id {
        TokenType::ItalicBegin => if x.italic {
            None
        } else {
            Some(Open { italic: true, ..x })
        },
        TokenType::ItalicEnd => if x.italic {
            Some(Open { italic: false, ..x })
        } else {
            None
        },
        TokenType::BoldBegin => if x.bold {
            None
        } else {
            Some(Open { bold: true, ..x })
        },
        TokenType::BoldEnd => if x.bold {
            Some(Open { bold: false, ..x })
        } else {
            None
        },
        TokenType::StrikeBegin => if x.strike {
            None
        } else {
            Some(Open { strike: true, ..x })
        },
        TokenType::StrikeEnd => if x.strike {
            Some(Open { strike: false, ..x })
        } else {
            None
        },
        TokenType::UnderlineBegin => if x.underline {
            None
        } else {
            Some(Open { underline: true, ..x })
        },
        TokenType::UnderlineEnd => if x.underline {
            Some(Open { underline: false, ..x })
        } else {
            None
        },
        TokenType::BlockquoteBegin => if x.quote {
            None
        } else {
            Some(Open { quote: true, ..x })
        },
        TokenType::BlockquoteEnd => if x.quote {
            Some(Open { quote: false, ..x })
        } else {
            None
        },
        TokenType::CodeBlockBegin => if x.code {
            None
        } else {
            Some(Open { code: true, ..x })
        },
        TokenType::CodeBlockEnd => if x.code {
            Some(Open { code: false, ..x })
        } else {
            None
        },
        TokenType::TableBegin => if x.table {
            None
        } else {
            Some(Open { table: true, ..x })
        },
        TokenType::TableEnd => if x.table {
            Some(Open { table: false, ..x })
        } else {
            None
        },
        TokenType::ListItemBegin => if x.item {
            None
        } else {
            Some(Open { item: true, ..x })
        },
        TokenType::ListItemEnd => if x.item {
            Some(Open { item: false, ..x })
        } else {
            None
        },
        TokenType::UnorderedListBegin => Some(
            Open { lists: x.lists.push(TokenType::UnorderedListEnd), ..x },
        ),
        TokenType::OrderedListBegin => Some(
            Open { lists: x.lists.push(TokenType::OrderedListEnd), ..x },
        ),
        TokenType::UnorderedListEnd | TokenType::OrderedListEnd => if x.lists.len() > 0
            && x.lists.last() == id {
            Some(Open { lists: x.lists.drop_last(), ..x })
        } else {
            None
        },
        _ => Some(x),
    }
}

/// What is open after a token of kind `id`; `None` where the tokens before
/// it did not fit already.
pub open spec fn feed(o: Option<Open>, id: TokenType) -> Option<Open> {
    match o {
        Some(x) => fit(x, id),
        None => None,
    }
}

/// What is open after the tokens `ts`, where `o` was open before them;
/// `None` where one of them does not fit.
pub open spec fn scan(o: Option<Open>, ts: Seq<Token>) -> Option<Open>
    decreases ts.len(),
{
    if ts.len() == 0 {
        o
    } else {
        feed(scan(o, ts.drop_last()), ts.last().id)
    }
}

/// Whether the tokens `ts` are paired: every token that opens a construct
/// is followed by exactly one token that closes it, with no other token of
/// the construct between the two, every token that closes a construct
/// follows one that opens it, and lists are closed innermost first.
pub open spec fn paired(ts: Seq<Token>) -> bool {
    scan(Some(nothing()), ts) == Some(nothing())
}

/// The constructs that one token opens and one token closes, and that do
/// not hold a construct of their own kind.
pub enum Family {
    Italic,
    Bold,
    Strike,
    Underline,
    Blockquote,
    CodeBlock,
    Table,
    ListItem,
}

/// The kind of token that opens a construct of the family `f`.
pub open spec fn opener(f: Family) -> TokenType {
    match f {
        Family::Italic => TokenType::ItalicBegin,
        Family::Bold => TokenType::BoldBegin,
        Family::Strike => TokenType::StrikeBegin,
        Family::Underline => TokenType::UnderlineBegin,
        Family::Blockquote => TokenType::BlockquoteBegin,
        Family::CodeBlock => TokenType::CodeBlockBegin,
        Family::Table => TokenType::TableBegin,
        Family::ListItem => TokenType::ListItemBegin,
    }
}

/// The kind of token that closes a construct of the family `f`.
pub open spec fn closer(f: Family) -> TokenType {
    match f {
        Family::Italic => TokenType::ItalicEnd,
        Family::Bold => TokenType::BoldEnd,
        Family::Strike => TokenType::StrikeEnd,
        Family::Underline => TokenType::UnderlineEnd,
        Family::Blockquote => TokenType::BlockquoteEnd,
        Family::CodeBlock => TokenType::CodeBlockEnd,
        Family::Table => TokenType::TableEnd,
        Family::ListItem => TokenType::ListItemEnd,
    }
}

/// Whether a construct of the family `f` is open in `x`.
pub open spec fn is_open(x: Open, f: Family) -> bool {
    match f {
        Family::Italic => x.italic,
        Family::Bold => x.bold,
        Family::Strike => x.strike,
        Family::Underline => x.underline,
        Family::Blockquote => x.quote,
        Family::CodeBlock => x.code,
        Family::Table => x.table,
        Family::ListItem => x.item,
    }
}

/// The kind of token that closes the list that a token of kind `id` opens.
pub open spec fn list_end(id: TokenType) -> TokenType {
    if id == TokenType::OrderedListBegin {
        TokenType::OrderedListEnd
    } else {
        TokenType::UnorderedListEnd
    }
}

/// The number of tokens of kind `id` among `ts`.
pub open spec fn count(ts: Seq<Token>, id: TokenType) -> nat
    decreases ts.len(),
{
    if ts.len() == 0 {
        0
    } else if ts.last().id == id {
        count(ts.drop_last(), id) + 1
    } else {
        count(ts.drop_last(), id)
    }
}

/// The number of open lists among `lists` that a token of kind `id` closes.
pub open spec fn open_lists(lists: Seq<TokenType>, id: TokenType) -> nat
    decreases lists.len(),
{
    if lists.len() == 0 {
        0
    } else if lists.last() == id {
        open_lists(lists.drop_last(), id) + 1
    } else {
        open_lists(lists.drop_last(), id)
    }
}

/// What is open after the first `k` of the tokens `ts`.
#[verifier::opaque]
pub open spec fn open_at(ts: Seq<Token>, k: int) -> Option<Open> {
    scan(Some(nothing()), ts.take(k))
}

/// Whether the tokens `b` begin with the tokens `a`.
pub open spec fn extends(a: Seq<Token>, b: Seq<Token>) -> bool {
    a.len() <= b.len() && forall|i: int| 0 <= i < a.len() ==> b[i] == a[i]
}

/// The tokens of `b` after the first `a.len()`.
pub open spec fn added(a: Seq<Token>, b: Seq<Token>) -> Seq<Token> {
    b.subrange(a.len() as int, b.len() as int)
}

/// What is open after the tokens that `ts` holds after `base`, where `x` was
/// open before them.
pub open spec fn after(base: Seq<Token>, ts: Seq<Token>, x: Open) -> Option<Open> {
    scan(Some(x), added(base, ts))
}

/// Whether `new` is `old` and one token of kind `id` after it, as far as
/// pairing goes.
pub open spec fn pushes(old: Seq<Token>, new: Seq<Token>, id: TokenType) -> bool {
    &&& extends(old, new)
    &&& forall|base: Seq<Token>, x: Open|
        extends(base, old) ==> #[trigger] after(base, new, x) == feed(after(base, old, x), id)
}

/// Whether `new` is `old` and tokens after it that open and close nothing.
pub open spec fn passes(old: Seq<Token>, new: Seq<Token>) -> bool {
    &&& extends(old, new)
    &&& forall|base: Seq<Token>, x: Open|
        extends(base, old) ==> #[trigger] after(base, new, x) == after(base, old, x)
}

/// Whether what is open of emphasis in `x` is what `em` says.
pub open spec fn agrees(x: Open, em: State) -> bool {
    &&& x.italic == (em.italic != Tag::Italic(false))
    &&& x.bold == (em.bold != Tag::Bold(false))
    &&& x.strike == (em.strike != Tag::Strike(false))
    &&& x.underline == (em.underline != Tag::Underline(false))
}

/// `x` with that open of emphasis which `em` says.
pub open spec fn styled(x: Open, em: State) -> Open {
    Open {
        italic: em.italic != Tag::Italic(false),
        bold: em.bold != Tag::Bold(false),
        strike: em.strike != Tag::Strike(false),
        underline: em.underline != Tag::Underline(false),
        ..x
    }
}

/// Whether `new` is `old` and tokens after it that take the emphasis from
/// `from` to `to` and open and close nothing else: where the emphasis that
/// is open before them is what `from` says, they fit, and after them it is
/// what `to` says.
pub open spec fn restyles(old: Seq<Token>, new: Seq<Token>, from: State, to: State) -> bool {
    &&& extends(old, new)
    &&& forall|base: Seq<Token>, x: Open|
        extends(base, old) && after(base, old, x).is_some() && agrees(
            after(base, old, x).unwrap(),
            from,
        ) ==> #[trigger] after(base, new, x) == Some(styled(after(base, old, x).unwrap(), to))
}

/// Whether `new` is `old` and a whole blockquote after it, or tokens that
/// open and close nothing but emphasis: where no blockquote is open before
/// them and the emphasis that is open is what `from` says, they fit, and
/// after them no blockquote is open and the emphasis is what `to` says.
pub open spec fn quotes(old: Seq<Token>, new: Seq<Token>, from: State, to: State) -> bool {
    &&& extends(old, new)
    &&& forall|base: Seq<Token>, x: Open|
        extends(base, old) && after(base, old, x).is_some() && agrees(
            after(base, old, x).unwrap(),
            from,
        ) && !after(base, old, x).unwrap().quote ==> #[trigger] after(base, new, x) == Some(
            styled(after(base, old, x).unwrap(), to),
        )
}

/// Whether `new` is `old` and, after it, the rest of the body of a fenced
/// code block: where a code block is open before the tokens, they fit, and
/// after them it is closed if `closed`, and open still if not. Nothing else
/// is opened or closed.
pub open spec fn closes_code(old: Seq<Token>, new: Seq<Token>, closed: bool) -> bool {
    &&& extends(old, new)
    &&& forall|base: Seq<Token>, x: Open|
        extends(base, old) && after(base, old, x).is_some() && after(base, old, x).unwrap().code
            ==> #[trigger] after(base, new, x) == Some(
            Open { code: !closed, ..after(base, old, x).unwrap() },
        )
}

/// Whether `new` is `old` and, after it, a whole fenced code block or
/// tokens that open and close nothing: where no code block is open before
/// the tokens, they fit, and after them what is open is what was open
/// before.
pub open spec fn fences(old: Seq<Token>, new: Seq<Token>) -> bool {
    &&& extends(old, new)
    &&& forall|base: Seq<Token>, x: Open|
        extends(base, old) && after(base, old, x).is_some() && !after(base, old, x).unwrap().code
            ==> #[trigger] after(base, new, x) == after(base, old, x)
}

/// Whether `new` is `old` and, after it, whole lists with their items:
/// where no emphasis, blockquote, code block, list or list item is open
/// before the tokens, they fit, and after them what is open is what was open
/// before.
pub open spec fn encloses(old: Seq<Token>, new: Seq<Token>) -> bool {
    &&& extends(old, new)
    &&& forall|base: Seq<Token>, x: Open|
        extends(base, old) && after(base, old, x).is_some() && calm(after(base, old, x).unwrap())
            ==> #[trigger] after(base, new, x) == after(base, old, x)
}

/// Whether nothing is open in `x` but a table: no emphasis, no blockquote,
/// no code block, no list and no list item.
pub open spec fn calm(x: Open) -> bool {
    !x.italic && !x.bold && !x.strike && !x.underline && !x.quote && !x.code && !x.item
        && x.lists == Seq::<TokenType>::empty()
}

/// The kinds of token that close the open lists `lists`.
pub open spec fn kinds(lists: Seq<List>) -> Seq<TokenType> {
    Seq::new(lists.len(), |i: int| lists[i].0)
}

/// Whether `id` is a kind of token that closes a list.
pub open spec fn closes_list(id: TokenType) -> bool {
    id == TokenType::UnorderedListEnd || id == TokenType::OrderedListEnd
}

/// Whether each of `lists` is closed by a token that closes a list.
pub open spec fn proper(lists: Seq<List>) -> bool {
    forall|i: int| 0 <= i < lists.len() ==> closes_list(#[trigger] lists[i].0)
}

/// Whether `ty` is one of the two kinds of list.
pub open spec fn proper_type(ty: ListType) -> bool {
    ty == ListType(TokenType::UnorderedListBegin, TokenType::UnorderedListEnd) || ty == ListType(
        TokenType::OrderedListBegin,
        TokenType::OrderedListEnd,
    )
}

/// Whether `new` is `old` and tokens after it that take the open lists from
/// `from` to `to` and open and close nothing else.
pub open spec fn restacks(old: Seq<Token>, new: Seq<Token>, from: Seq<List>, to: Seq<List>) -> bool {
    &&& extends(old, new)
    &&& forall|base: Seq<Token>, x: Open|
        extends(base, old) && after(base, old, x).is_some() && after(base, old, x).unwrap().lists
            == kinds(from) ==> #[trigger] after(base, new, x) == Some(
            Open { lists: kinds(to), ..after(base, old, x).unwrap() },
        )
}

/// Whether `new` is `old` and tokens after it that take the open lists from
/// `from` to `to` and then open a list item, where none is open.
pub open spec fn opens_item(old: Seq<Token>, new: Seq<Token>, from: Seq<List>, to: Seq<List>) -> bool {
    &&& extends(old, new)
    &&& forall|base: Seq<Token>, x: Open|
        extends(base, old) && after(base, old, x).is_some() && after(base, old, x).unwrap().lists
            == kinds(from) && !after(base, old, x).unwrap().item ==> #[trigger] after(
            base,
            new,
            x,
        ) == Some(Open { item: true, lists: kinds(to), ..after(base, old, x).unwrap() })
}

/// Whether `new` is `old` and tokens after it that close what is open of
/// emphasis, which is what `em` says, and the list item, which is open if
/// `item`.
pub open spec fn ends_item(old: Seq<Token>, new: Seq<Token>, em: State, item: bool) -> bool {
    &&& extends(old, new)
    &&& forall|base: Seq<Token>, x: Open|
        extends(base, old) && after(base, old, x).is_some() && agrees(
            after(base, old, x).unwrap(),
            em,
        ) && after(base, old, x).unwrap().item == item ==> #[trigger] after(base, new, x) == Some(
            Open { item: false, ..styled(after(base, old, x).unwrap(), State::closed()) },
        )
}

/// Whether `new` is `old` with tokens put in before the token of index
/// `limit`, or after `old`, that open and close nothing: what is open after
/// `new` is what is open after `old`, from wherever up to `limit` the reading
/// begins.
pub open spec fn passes_before(old: Seq<Token>, new: Seq<Token>, limit: int) -> bool {
    &&& forall|base: Seq<Token>|
        base.len() <= limit && #[trigger] extends(base, old) ==> extends(base, new)
    &&& forall|base: Seq<Token>, x: Open|
        base.len() <= limit && extends(base, old) ==> #[trigger] after(base, new, x) == after(
            base,
            old,
            x,
        )
}

/// Whether nothing is open in `x` but emphasis and a table.
pub open spec fn settled(x: Open) -> bool {
    !x.quote && !x.code && !x.item && x.lists == Seq::<TokenType>::empty()
}

/// Whether `new` is `old` and, after it, whole constructs and toggles of
/// emphasis: where nothing is open before the tokens but a table and the
/// emphasis that `from` says, they fit, and after them nothing is open but
/// that table and the emphasis that `to` says.
pub open spec fn moves(old: Seq<Token>, new: Seq<Token>, from: State, to: State) -> bool {
    &&& extends(old, new)
    &&& forall|base: Seq<Token>, x: Open|
        extends(base, old) && after(base, old, x).is_some() && agrees(
            after(base, old, x).unwrap(),
            from,
        ) && settled(after(base, old, x).unwrap()) ==> #[trigger] after(base, new, x) == Some(
            styled(after(base, old, x).unwrap(), to),
        )
}

/// Reading all of `ts` from its start is reading what it holds after
/// nothing.
pub proof fn lemma_after_nothing(ts: Seq<Token>, x: Open)
    ensures
        after(Seq::empty(), ts, x) == scan(Some(x), ts),
{
    assert(added(Seq::empty(), ts) =~= ts);
}

/// One more token after `old`: what is open after it is what is open after
/// `old`, fed with the token.
pub proof fn lemma_after_push(base: Seq<Token>, old: Seq<Token>, t: Token, x: Open)
    requires
        extends(base, old),
    ensures
        after(base, old.push(t), x) == feed(after(base, old, x), t.id),
{
    let a = added(base, old.push(t));
    assert(a.drop_last() =~= added(base, old));
    assert(a.last() == t);
}

/// Pushing a token is `pushes`.
pub proof fn lemma_pushes(old: Seq<Token>, t: Token)
    ensures
        pushes(old, old.push(t), t.id),
{
    assert forall|base: Seq<Token>, x: Open| extends(base, old) implies #[trigger] after(
        base,
        old.push(t),
        x,
    ) == feed(after(base, old, x), t.id) by {
        lemma_after_push(base, old, t, x);
    }
}

/// Reading `a` and then `b` is reading the two together.
pub proof fn lemma_scan_concat(o: Option<Open>, a: Seq<Token>, b: Seq<Token>)
    ensures
        scan(o, a + b) == scan(scan(o, a), b),
    decreases b.len(),
{
    if b.len() == 0 {
        assert(a + b =~= a);
    } else {
        lemma_scan_concat(o, a, b.drop_last());
        assert((a + b).drop_last() =~= a + b.drop_last());
        assert((a + b).last() == b.last());
    }
}

/// Tokens that open and close nothing, put in between the tokens `a` and
/// `b`, leave what is open after them as it is.
pub proof fn lemma_scan_insert(o: Option<Open>, a: Seq<Token>, c: Seq<Token>, b: Seq<Token>)
    requires
        passes(Seq::empty(), c),
    ensures
        scan(o, a + c + b) == scan(o, a + b),
{
    lemma_scan_concat(o, a + c, b);
    lemma_scan_concat(o, a, c);
    lemma_scan_concat(o, a, b);
    let mid = scan(o, a);
    match mid {
        Some(x) => {
            assert(added(Seq::empty(), c) =~= c);
            assert(added(Seq::empty(), Seq::<Token>::empty()) =~= Seq::<Token>::empty());
            assert(after(Seq::empty(), c, x) == after(Seq::empty(), Seq::empty(), x));
        },
        None => {
            lemma_scan_none(c);
        },
    }
}

/// Reading one token is feeding it.
pub proof fn lemma_scan_one(o: Option<Open>, t: Token)
    ensures
        scan(o, seq![t]) == feed(o, t.id),
{
    reveal_with_fuel(scan, 2);
    assert(seq![t].drop_last() =~= Seq::<Token>::empty());
    assert(seq![t].last() == t);
}

/// What is open after one more token is what was open before it, fed with
/// the token.
pub proof fn lemma_open_at_next(ts: Seq<Token>, k: int)
    requires
        0 <= k < ts.len(),
    ensures
        open_at(ts, k + 1) == feed(open_at(ts, k), ts[k].id),
{
    reveal(open_at);
    assert(ts.take(k + 1).drop_last() =~= ts.take(k));
    assert(ts.take(k + 1).last() == ts[k]);
}

/// What is open after none of the tokens is nothing, and what is open
/// after all of them is what reading them gives.
pub proof fn lemma_open_at_ends(ts: Seq<Token>)
    ensures
        open_at(ts, 0) == Some(nothing()),
        open_at(ts, ts.len() as int) == scan(Some(nothing()), ts),
{
    reveal(open_at);
    assert(ts.take(0) =~= Seq::<Token>::empty());
    assert(ts.take(ts.len() as int) =~= ts);
}

/// Where all the tokens fit, the first `k` of them fit.
pub proof fn lemma_open_at_some(ts: Seq<Token>, k: int)
    requires
        0 <= k <= ts.len(),
        scan(Some(nothing()), ts).is_some(),
    ensures
        open_at(ts, k).is_some(),
    decreases ts.len() - k,
{
    if k == ts.len() {
        lemma_open_at_ends(ts);
    } else {
        lemma_open_at_some(ts, k + 1);
        lemma_open_at_next(ts, k);
    }
}

/// A token that fits opens a construct that is closed, closes one that is
/// open, or leaves the construct as it is.
pub proof fn lemma_fit_family(x: Open, id: TokenType, f: Family)
    requires
        fit(x, id).is_some(),
    ensures
        id == opener(f) ==> !is_open(x, f) && is_open(fit(x, id).unwrap(), f),
        id == closer(f) ==> is_open(x, f) && !is_open(fit(x, id).unwrap(), f),
        id != opener(f) && id != closer(f) ==> is_open(fit(x, id).unwrap(), f) == is_open(x, f),
{
}

/// A token that fits opens a list, closes the innermost list, or leaves the
/// lists as they are.
pub proof fn lemma_fit_lists(x: Open, id: TokenType)
    requires
        fit(x, id).is_some(),
    ensures
        id == TokenType::UnorderedListBegin || id == TokenType::OrderedListBegin ==> fit(
            x,
            id,
        ).unwrap().lists == x.lists.push(list_end(id)),
        closes_list(id) ==> x.lists.len() > 0 && x.lists.last() == id && fit(
            x,
            id,
        ).unwrap().lists == x.lists.drop_last(),
        id != TokenType::UnorderedListBegin && id != TokenType::OrderedListBegin && !closes_list(
            id,
        ) ==> fit(x, id).unwrap().lists == x.lists,
{
}

/// What token `k` of tokens that fit does to a construct of the family `f`.
pub proof fn lemma_step_family(ts: Seq<Token>, f: Family, k: int)
    requires
        scan(Some(nothing()), ts).is_some(),
        0 <= k < ts.len(),
    ensures
        open_at(ts, k).is_some(),
        open_at(ts, k + 1).is_some(),
        ts[k].id == opener(f) ==> !is_open(open_at(ts, k).unwrap(), f) && is_open(
            open_at(ts, k + 1).unwrap(),
            f,
        ),
        ts[k].id == closer(f) ==> is_open(open_at(ts, k).unwrap(), f) && !is_open(
            open_at(ts, k + 1).unwrap(),
            f,
        ),
        ts[k].id != opener(f) && ts[k].id != closer(f) ==> is_open(open_at(ts, k + 1).unwrap(), f)
            == is_open(open_at(ts, k).unwrap(), f),
{
    lemma_open_at_some(ts, k);
    lemma_open_at_some(ts, k + 1);
    lemma_open_at_next(ts, k);
    lemma_fit_family(open_at(ts, k).unwrap(), ts[k].id, f);
}

/// What token `k` of tokens that fit does to the open lists.
pub proof fn lemma_step_lists(ts: Seq<Token>, k: int)
    requires
        scan(Some(nothing()), ts).is_some(),
        0 <= k < ts.len(),
    ensures
        open_at(ts, k).is_some(),
        open_at(ts, k + 1).is_some(),
        ts[k].id == TokenType::UnorderedListBegin || ts[k].id == TokenType::OrderedListBegin
            ==> open_at(ts, k + 1).unwrap().lists == open_at(ts, k).unwrap().lists.push(
            list_end(ts[k].id),
        ),
        closes_list(ts[k].id) ==> open_at(ts, k).unwrap().lists.len() > 0 && open_at(
            ts,
            k,
        ).unwrap().lists.last() == ts[k].id && open_at(ts, k + 1).unwrap().lists == open_at(
            ts,
            k,
        ).unwrap().lists.drop_last(),
        ts[k].id != TokenType::UnorderedListBegin && ts[k].id != TokenType::OrderedListBegin
            && !closes_list(ts[k].id) ==> open_at(ts, k + 1).unwrap().lists == open_at(
            ts,
            k,
        ).unwrap().lists,
{
    lemma_open_at_some(ts, k);
    lemma_open_at_some(ts, k + 1);
    lemma_open_at_next(ts, k);
    lemma_fit_lists(open_at(ts, k).unwrap(), ts[k].id);
}

/// Nothing that does not fit comes to fit by what follows.
pub proof fn lemma_scan_none(ts: Seq<Token>)
    ensures
        scan(None, ts).is_none(),
    decreases ts.len(),
{
    if ts.len() > 0 {
        lemma_scan_none(ts.drop_last());
    }
}

} // verus!
