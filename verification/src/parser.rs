//! The renderer: it reads the tokens of a text once, front to back, and
//! emits the fragments of HTML for them.
use vstd::prelude::*;
use vstd::string::*;
use crate::token::{Token, TokenType};
use crate::text::{slice, substring};
use crate::wrapper::CharsWithPosition;
use crate::markdown::{starts_with_at, holds_at};
use crate::table::Column;

verus! {

/// The fragments that a list of strings holds.
pub open spec fn fragments(html: Seq<String>) -> Seq<Seq<char>> {
    Seq::new(html.len(), |i: int| html[i]@)
}

/// The part of the text that a token names; empty where its offsets name no
/// span of whole characters of the text.
pub open spec fn text_of(s: Seq<char>, t: Token) -> Seq<char> {
    slice(s, t.begin as int, t.end as int)
}

/// Appends the fragment `x`.
pub fn put(html: &mut Vec<String>, x: String)
    ensures
        fragments(final(html)@) == fragments(old(html)@).push(x@),
{
    html.push(x);
    assert(fragments(html@) =~= fragments(old(html)@).push(x@));
}

/// Appends the fragment `x`.
pub fn put_str(html: &mut Vec<String>, x: &str)
    ensures
        fragments(final(html)@) == fragments(old(html)@).push(x@),
{
    put(html, String::from_str(x));
}

/// Appends the fragment made of `a`, `b` and `c`.
pub fn put_joined(html: &mut Vec<String>, a: &str, b: &str, c: &str)
    ensures
        fragments(final(html)@) == fragments(old(html)@).push(a@ + b@ + c@),
{
    let mut x = String::from_str(a);
    x.append(b);
    x.append(c);
    put(html, x);
}

/// The decimal digit `d` as a string.
pub open spec fn digit_str(d: int) -> Seq<char> {
    if d == 0 {
        "0"@
    } else if d == 1 {
        "1"@
    } else if d == 2 {
        "2"@
    } else if d == 3 {
        "3"@
    } else if d == 4 {
        "4"@
    } else if d == 5 {
        "5"@
    } else if d == 6 {
        "6"@
    } else if d == 7 {
        "7"@
    } else if d == 8 {
        "8"@
    } else {
        "9"@
    }
}

/// The number `n` in decimal digits.
pub open spec fn decimal(n: nat) -> Seq<char>
    decreases n,
{
    if n < 10 {
        digit_str(n as int)
    } else {
        decimal(n / 10) + digit_str((n % 10) as int)
    }
}

/// The decimal digit `d` as a string.
fn digit(d: usize) -> (r: &'static str)
    requires
        d < 10,
    ensures
        r@ == digit_str(d as int),
{
    if d == 0 {
        "0"
    } else if d == 1 {
        "1"
    } else if d == 2 {
        "2"
    } else if d == 3 {
        "3"
    } else if d == 4 {
        "4"
    } else if d == 5 {
        "5"
    } else if d == 6 {
        "6"
    } else if d == 7 {
        "7"
    } else if d == 8 {
        "8"
    } else {
        "9"
    }
}

/// The number `n` in decimal digits.
pub fn to_decimal(n: usize) -> (r: String)
    ensures
        r@ == decimal(n as nat),
    decreases n,
{
    if n < 10 {
        String::from_str(digit(n))
    } else {
        let mut r = to_decimal(n / 10);
        r.append(digit(n % 10));
        r
    }
}

/// The text `s` from index `k` with the indentation of its lines taken off:
/// each newline that four spaces follow stands without them.
pub open spec fn unindent(s: Seq<char>, k: int) -> Seq<char>
    decreases s.len() - k,
{
    if k < 0 || k >= s.len() {
        Seq::empty()
    } else if starts_with_at(s, k, "\n    "@) && k + 5 <= s.len() {
        seq!['\n'] + unindent(s, k + 5)
    } else {
        seq![s[k]] + unindent(s, k + 1)
    }
}

/// The text `piece` with the indentation of its lines taken off.
pub fn strip_indent(piece: &str) -> (r: String)
    ensures
        r@ == unindent(piece@, 0),
{
    let iter = CharsWithPosition::new(piece);
    let n = iter.len();
    let ghost s = piece@;
    let mut r = String::new();
    let mut from: usize = 0;
    let mut k: usize = 0;
    proof {
        reveal_strlit("\n    ");
    }
    while k < n
        invariant
            iter.wf(),
            iter.text() == s,
            s == piece@,
            n == s.len(),
            from <= k <= n,
            r@ + s.subrange(from as int, k as int) + unindent(s, k as int) == unindent(s, 0),
        decreases n - k,
    {
        proof {
            reveal_strlit("\n    ");
        }
        if holds_at(&iter, k, "\n    ") {
            assert(s.subrange(k as int, k + 5)[0] == '\n');
            let ghost before = r@;
            r.append(iter.part(piece, from, k + 1));
            assert(r@ + s.subrange(k + 5, k + 5) + unindent(s, k + 5) =~= before + s.subrange(
                from as int,
                k as int,
            ) + unindent(s, k as int));
            k = k + 5;
            from = k;
        } else {
            assert(s.subrange(from as int, k + 1) + unindent(s, k + 1) =~= s.subrange(
                from as int,
                k as int,
            ) + unindent(s, k as int));
            assert(r@ + s.subrange(from as int, k + 1) + unindent(s, k + 1) =~= r@ + s.subrange(
                from as int,
                k as int,
            ) + unindent(s, k as int));
            k = k + 1;
        }
    }
    let ghost before = r@;
    r.append(iter.part(piece, from, n));
    assert(r@ =~= before + s.subrange(from as int, k as int) + unindent(s, k as int));
    r
}

/// What a part of the renderer leaves behind: the fragments emitted so far
/// and the index of the next token to render.
pub struct Rendered {
    pub html: Seq<Seq<char>>,
    pub next: int,
}

/// The kind of token `i`, if there is one.
pub open spec fn kind_at(ts: Seq<Token>, i: int) -> Option<TokenType> {
    if 0 <= i < ts.len() {
        Some(ts[i].id)
    } else {
        None
    }
}

/// The part of the text that token `i` names; empty where there is no such
/// token.
pub open spec fn text_at(s: Seq<char>, ts: Seq<Token>, i: int) -> Seq<char> {
    if 0 <= i < ts.len() {
        text_of(s, ts[i])
    } else {
        Seq::empty()
    }
}

/// The index after token `i` where that is a `Newline`, else `i`.
pub open spec fn skip_newline(ts: Seq<Token>, i: int) -> int {
    if kind_at(ts, i) == Some(TokenType::Newline) {
        i + 1
    } else {
        i
    }
}

/// The tag for a token that opens or closes emphasis.
pub open spec fn emphasis_tag(id: TokenType) -> Option<Seq<char>> {
    match id {
        TokenType::ItalicBegin => Some("<i>"@),
        TokenType::ItalicEnd => Some("</i>"@),
        TokenType::BoldBegin => Some("<b>"@),
        TokenType::BoldEnd => Some("</b>"@),
        TokenType::StrikeBegin => Some("<strike>"@),
        TokenType::StrikeEnd => Some("</strike>"@),
        TokenType::UnderlineBegin => Some("<u>"@),
        TokenType::UnderlineEnd => Some("</u>"@),
        _ => None,
    }
}

/// The rendering of token `i` where it is of a kind that is rendered alike
/// in running text and in the cells of a table; for any other kind nothing
/// is rendered and `next` is `i`.
///
/// A checkbutton is a checkbox. An `ImageAlt` takes the token after it for
/// the address of the image, and a `LinkHref` the token after it for the
/// text of the link, which is the address where that text is empty. `Code`
/// is a `code` element, a token of emphasis its tag, and an `Error` a marked
/// element that shows the text in error. After an `Escape` the next token is
/// rendered as the text it names, whatever its kind.
pub open spec fn inline(s: Seq<char>, ts: Seq<Token>, i: int, out: Seq<Seq<char>>) -> Rendered {
    let t = ts[i];
    let after = if i + 2 <= ts.len() {
        i + 2
    } else {
        ts.len() as int
    };
    match t.id {
        TokenType::Checkbutton(true) => Rendered {
            html: out.push("<input type=\"checkbox\" checked>"@),
            next: i + 1,
        },
        TokenType::Checkbutton(false) => Rendered {
            html: out.push("<input type=\"checkbox\">"@),
            next: i + 1,
        },
        TokenType::ImageAlt => Rendered {
            html: out.push("<img alt=\""@ + text_of(s, t) + "\""@).push(
                " src=\""@ + text_at(s, ts, i + 1) + "\">"@,
            ),
            next: after,
        },
        TokenType::LinkHref => Rendered {
            html: out.push("<a href=\""@ + text_of(s, t) + "\">"@).push(
                if text_at(s, ts, i + 1).len() == 0 {
                    ""@ + text_of(s, t) + "</a>"@
                } else {
                    ""@ + text_at(s, ts, i + 1) + "</a>"@
                },
            ),
            next: after,
        },
        TokenType::Code => Rendered {
            html: out.push("<code>"@ + text_of(s, t) + "</code>"@),
            next: i + 1,
        },
        TokenType::Escape => Rendered {
            html: if i + 1 < ts.len() {
                out.push(text_of(s, ts[i + 1]))
            } else {
                out
            },
            next: after,
        },
        TokenType::Error => Rendered {
            html: out.push("<span class=\"error\">ERROR: "@ + text_of(s, t) + "</span>\n"@),
            next: i + 1,
        },
        _ => match emphasis_tag(t.id) {
            Some(tag) => Rendered { html: out.push(tag), next: i + 1 },
            None => Rendered { html: out, next: i },
        },
    }
}

/// The tag for a token that opens or closes emphasis.
fn render_emphasis(id: TokenType) -> (r: Option<&'static str>)
    ensures
        match r {
            Some(x) => emphasis_tag(id) == Some(x@),
            None => emphasis_tag(id).is_none(),
        },
{
    match id {
        TokenType::ItalicBegin => Some("<i>"),
        TokenType::ItalicEnd => Some("</i>"),
        TokenType::BoldBegin => Some("<b>"),
        TokenType::BoldEnd => Some("</b>"),
        TokenType::StrikeBegin => Some("<strike>"),
        TokenType::StrikeEnd => Some("</strike>"),
        TokenType::UnderlineBegin => Some("<u>"),
        TokenType::UnderlineEnd => Some("</u>"),
        _ => None,
    }
}

/// The part of the text that a token names.
pub fn token_text<'a>(text: &'a str, t: &Token) -> (r: &'a str)
    ensures
        r@ == text_of(text@, *t),
{
    substring(text, t.begin, t.end)
}

/// The part of the text that token `i` names; empty where there is no such
/// token.
fn token_text_at<'a>(text: &'a str, tokens: &Vec<Token>, i: usize) -> (r: &'a str)
    ensures
        r@ == text_at(text@, tokens@, i as int),
{
    if i < tokens.len() {
        token_text(text, &tokens[i])
    } else {
        proof {
            reveal_strlit("");
            assert(""@ =~= Seq::<char>::empty());
        }
        ""
    }
}

/// Renders token `i` where it is of a kind that is rendered alike in running
/// text and in the cells of a table, and returns the index of the next token
/// to render: `i` where nothing was rendered.
pub fn render_inline(text: &str, tokens: &Vec<Token>, i: usize, html: &mut Vec<String>) -> (next:
    usize)
    requires
        i < tokens.len(),
    ensures
        fragments(final(html)@) == inline(text@, tokens@, i as int, fragments(old(html)@)).html,
        next == inline(text@, tokens@, i as int, fragments(old(html)@)).next,
        i <= next <= tokens.len(),
{
    let t = &tokens[i];
    let after = if tokens.len() - i >= 2 {
        i + 2
    } else {
        tokens.len()
    };
    match t.id {
        TokenType::Checkbutton(true) => {
            put_str(html, "<input type=\"checkbox\" checked>");
            i + 1
        },
        TokenType::Checkbutton(false) => {
            put_str(html, "<input type=\"checkbox\">");
            i + 1
        },
        TokenType::ImageAlt => {
            put_joined(html, "<img alt=\"", token_text(text, t), "\"");
            put_joined(html, " src=\"", token_text_at(text, tokens, i + 1), "\">");
            after
        },
        TokenType::LinkHref => {
            put_joined(html, "<a href=\"", token_text(text, t), "\">");
            let label = token_text_at(text, tokens, i + 1);
            if label.unicode_len() == 0 {
                put_joined(html, "", token_text(text, t), "</a>");
            } else {
                put_joined(html, "", label, "</a>");
            }
            after
        },
        TokenType::Code => {
            put_joined(html, "<code>", token_text(text, t), "</code>");
            i + 1
        },
        TokenType::Escape => {
            if i + 1 < tokens.len() {
                put_str(html, token_text(text, &tokens[i + 1]));
            }
            after
        },
        TokenType::Error => {
            put_joined(html, "<span class=\"error\">ERROR: ", token_text(text, t), "</span>\n");
            i + 1
        },
        _ => match render_emphasis(t.id) {
            Some(tag) => {
                put_str(html, tag);
                i + 1
            },
            None => i,
        },
    }
}

/// The first index at or after `j` whose token is neither `Text` nor a
/// `Space`, or the number of tokens.
pub open spec fn quiet_end(ts: Seq<Token>, j: int) -> int
    decreases ts.len() - j,
{
    if j < 0 || j >= ts.len() {
        ts.len() as int
    } else if ts[j].id == TokenType::Text || ts[j].id == TokenType::Space {
        quiet_end(ts, j + 1)
    } else {
        j
    }
}

/// The rendering of the `Heading` token `i`.
///
/// The level of the heading is the length of the token. Its text runs from
/// the end of the token after the heading, the space, over the `Text` and
/// `Space` tokens that follow. A `Newline` right after the heading is not
/// rendered.
pub open spec fn heading_html(s: Seq<char>, ts: Seq<Token>, i: int, out: Seq<Seq<char>>) -> Rendered {
    let t = ts[i];
    let level = if t.end >= t.begin {
        (t.end - t.begin) as nat
    } else {
        0
    };
    let first = if i + 1 < ts.len() {
        i + 2
    } else {
        i + 1
    };
    let begin = if i + 1 < ts.len() {
        ts[i + 1].end
    } else {
        t.end
    };
    let e = quiet_end(ts, first);
    let end = if first < e <= ts.len() {
        ts[e - 1].end
    } else {
        begin
    };
    Rendered {
        html: out.push(
            "<h"@ + decimal(level) + ">"@ + slice(s, begin as int, end as int) + "</h"@ + decimal(
                level,
            ) + ">\n"@,
        ),
        next: skip_newline(ts, e),
    }
}

/// The index after token `i` where that is a `Newline`, else `i`.
fn next_after_newline(tokens: &Vec<Token>, i: usize) -> (r: usize)
    requires
        i <= tokens.len(),
    ensures
        r == skip_newline(tokens@, i as int),
        i <= r <= tokens.len(),
{
    if i < tokens.len() && tokens[i].id == TokenType::Newline {
        i + 1
    } else {
        i
    }
}

/// Renders the `Heading` token `i` and returns the index of the next token
/// to render.
pub fn render_heading(text: &str, tokens: &Vec<Token>, i: usize, html: &mut Vec<String>) -> (next:
    usize)
    requires
        i < tokens.len(),
    ensures
        fragments(final(html)@) == heading_html(
            text@,
            tokens@,
            i as int,
            fragments(old(html)@),
        ).html,
        next == heading_html(text@, tokens@, i as int, fragments(old(html)@)).next,
        i < next <= tokens.len(),
{
    let t = &tokens[i];
    let n = tokens.len();
    let level = if t.end >= t.begin {
        t.end - t.begin
    } else {
        0
    };
    let first = if i + 1 < n {
        i + 2
    } else {
        i + 1
    };
    let begin = if i + 1 < n {
        tokens[i + 1].end
    } else {
        t.end
    };
    let mut e: usize = first;
    while e < n && (tokens[e].id == TokenType::Text || tokens[e].id == TokenType::Space)
        invariant
            n == tokens.len(),
            first <= e <= n,
            quiet_end(tokens@, first as int) == quiet_end(tokens@, e as int),
        decreases n - e,
    {
        e = e + 1;
    }
    let end = if first < e {
        tokens[e - 1].end
    } else {
        begin
    };
    let d = to_decimal(level);
    let mut x = String::from_str("<h");
    x.append(d.as_str());
    x.append(">");
    x.append(substring(text, begin, end));
    x.append("</h");
    x.append(d.as_str());
    x.append(">\n");
    put(html, x);
    next_after_newline(tokens, e)
}

/// The rendering of a blockquote from token `j`, after its
/// `BlockquoteBegin`.
///
/// `Text` is rendered as it stands, a token of emphasis as its tag, and the
/// token after an `Escape` as the text it names, up to the `BlockquoteEnd`,
/// which closes the element, or to the first token of another kind. A
/// `Newline` right after the quote is not rendered.
pub open spec fn quote_run(s: Seq<char>, ts: Seq<Token>, j: int, out: Seq<Seq<char>>) -> Rendered
    decreases ts.len() - j,
{
    if j < 0 || j >= ts.len() {
        Rendered { html: out, next: ts.len() as int }
    } else if ts[j].id == TokenType::Text {
        quote_run(s, ts, j + 1, out.push(text_of(s, ts[j])))
    } else if ts[j].id == TokenType::BlockquoteEnd {
        Rendered { html: out.push("</blockquote>"@), next: skip_newline(ts, j + 1) }
    } else if ts[j].id == TokenType::Escape && j + 1 < ts.len() {
        quote_run(s, ts, j + 2, out.push(text_of(s, ts[j + 1])))
    } else {
        match emphasis_tag(ts[j].id) {
            Some(tag) => quote_run(s, ts, j + 1, out.push(tag)),
            None => Rendered { html: out, next: skip_newline(ts, j) },
        }
    }
}

/// Renders the blockquote whose `BlockquoteBegin` is token `i` and returns
/// the index of the next token to render.
pub fn render_blockquote(text: &str, tokens: &Vec<Token>, i: usize, html: &mut Vec<String>) -> (next:
    usize)
    requires
        i < tokens.len(),
    ensures
        fragments(final(html)@) == quote_run(
            text@,
            tokens@,
            i + 1,
            fragments(old(html)@).push("<blockquote>"@),
        ).html,
        next == quote_run(
            text@,
            tokens@,
            i + 1,
            fragments(old(html)@).push("<blockquote>"@),
        ).next,
        i < next <= tokens.len(),
{
    let n = tokens.len();
    let ghost goal = quote_run(text@, tokens@, i + 1, fragments(html@).push("<blockquote>"@));
    put_str(html, "<blockquote>");
    let mut j: usize = i + 1;
    let mut done = false;
    while !done
        invariant
            n == tokens.len(),
            i < j <= n,
            done ==> fragments(html@) == goal.html && j == goal.next,
            !done ==> quote_run(text@, tokens@, j as int, fragments(html@)) == goal,
        decreases n - j + (if done { 0int } else { 1int }),
    {
        if j >= n {
            done = true;
        } else if tokens[j].id == TokenType::Text {
            put_str(html, token_text(text, &tokens[j]));
            j = j + 1;
        } else if tokens[j].id == TokenType::BlockquoteEnd {
            put_str(html, "</blockquote>");
            j = next_after_newline(tokens, j + 1);
            done = true;
        } else if tokens[j].id == TokenType::Escape && j + 1 < n {
            put_str(html, token_text(text, &tokens[j + 1]));
            j = j + 2;
        } else {
            match render_emphasis(tokens[j].id) {
                Some(tag) => {
                    put_str(html, tag);
                    j = j + 1;
                },
                None => {
                    j = next_after_newline(tokens, j);
                    done = true;
                },
            }
        }
    }
    j
}

/// The class of the element in which a token of highlighted code is
/// rendered; none for the kinds that are rendered as they stand, and for the
/// kinds that are no code.
pub open spec fn code_class(id: TokenType) -> Option<Seq<char>> {
    match id {
        TokenType::CodeBlockString => Some("string"@),
        TokenType::CodeBlockChar => Some("char"@),
        TokenType::CodeBlockDigit => Some("digit"@),
        TokenType::CodeBlockKeyword1 => Some("keyword1"@),
        TokenType::CodeBlockKeyword2 => Some("keyword2"@),
        TokenType::CodeBlockKeyword3 => Some("keyword3"@),
        TokenType::CodeBlockFunction => Some("function"@),
        TokenType::CodeBlockSingleLineComment => Some("comment"@),
        TokenType::CodeBlockMultiLineComment => Some("comment"@),
        TokenType::CodeBlockEscape => Some("escape"@),
        _ => None,
    }
}

/// The class of the element in which a token of highlighted code is
/// rendered.
fn class_name(id: TokenType) -> (r: Option<&'static str>)
    ensures
        match r {
            Some(x) => code_class(id) == Some(x@),
            None => code_class(id).is_none(),
        },
{
    match id {
        TokenType::CodeBlockString => Some("string"),
        TokenType::CodeBlockChar => Some("char"),
        TokenType::CodeBlockDigit => Some("digit"),
        TokenType::CodeBlockKeyword1 => Some("keyword1"),
        TokenType::CodeBlockKeyword2 => Some("keyword2"),
        TokenType::CodeBlockKeyword3 => Some("keyword3"),
        TokenType::CodeBlockFunction => Some("function"),
        TokenType::CodeBlockSingleLineComment => Some("comment"),
        TokenType::CodeBlockMultiLineComment => Some("comment"),
        TokenType::CodeBlockEscape => Some("escape"),
        _ => None,
    }
}

/// The rendering of the body of a fenced code block from token `j`.
///
/// A token with a class is a `span` element of that class, and
/// `CodeBlockText` and `CodeBlockSymbol` are rendered as they stand. The
/// `CodeBlockEnd`, or the first token of a kind that is no code, or the end
/// of the tokens, closes the `pre` element. A `Newline` right after the
/// `CodeBlockEnd` is not rendered.
pub open spec fn code_run(s: Seq<char>, ts: Seq<Token>, j: int, out: Seq<Seq<char>>) -> Rendered
    decreases ts.len() - j,
{
    if j < 0 || j >= ts.len() {
        Rendered { html: out.push("</pre>"@), next: ts.len() as int }
    } else if ts[j].id == TokenType::CodeBlockEnd {
        Rendered { html: out.push("</pre>"@), next: skip_newline(ts, j + 1) }
    } else if ts[j].id == TokenType::CodeBlockText || ts[j].id == TokenType::CodeBlockSymbol {
        code_run(s, ts, j + 1, out.push(text_of(s, ts[j])))
    } else {
        match code_class(ts[j].id) {
            Some(class) => code_run(
                s,
                ts,
                j + 1,
                out.push("<span class=\""@ + class + "\">"@ + text_of(s, ts[j]) + "</span>"@),
            ),
            None => Rendered { html: out.push("</pre>"@), next: j },
        }
    }
}

/// The name of the language of a fenced code block whose `CodeBlockBegin` is
/// token `i`: what the `CodeBlockLanguage` after it names, without the
/// newline that ends it; `base` where there is no such token or it names the
/// newline alone.
pub open spec fn language_name(s: Seq<char>, ts: Seq<Token>, i: int) -> Seq<char> {
    if kind_at(ts, i + 1) == Some(TokenType::CodeBlockLanguage) && ts[i + 1].end - ts[i + 1].begin
        > 1 {
        slice(s, ts[i + 1].begin as int, ts[i + 1].end - 1)
    } else {
        "base"@
    }
}

/// The rendering of the fenced code block whose `CodeBlockBegin` is token
/// `i`: a `pre` element with the class of the language, and in it the body.
pub open spec fn codeblock_html(s: Seq<char>, ts: Seq<Token>, i: int, out: Seq<Seq<char>>) -> Rendered {
    let first = if kind_at(ts, i + 1) == Some(TokenType::CodeBlockLanguage) {
        i + 2
    } else {
        i + 1
    };
    code_run(s, ts, first, out.push("<pre class=\"language-"@ + language_name(s, ts, i) + "\">"@))
}

/// Renders the fenced code block whose `CodeBlockBegin` is token `i` and
/// returns the index of the next token to render.
pub fn render_codeblock(text: &str, tokens: &Vec<Token>, i: usize, html: &mut Vec<String>) -> (next:
    usize)
    requires
        i < tokens.len(),
    ensures
        fragments(final(html)@) == codeblock_html(
            text@,
            tokens@,
            i as int,
            fragments(old(html)@),
        ).html,
        next == codeblock_html(text@, tokens@, i as int, fragments(old(html)@)).next,
        i < next <= tokens.len(),
{
    let n = tokens.len();
    let ghost goal = codeblock_html(text@, tokens@, i as int, fragments(html@));
    let named = i + 1 < n && tokens[i + 1].id == TokenType::CodeBlockLanguage;
    let lang = if named && tokens[i + 1].end > tokens[i + 1].begin && tokens[i + 1].end
        - tokens[i + 1].begin > 1 {
        substring(text, tokens[i + 1].begin, tokens[i + 1].end - 1)
    } else {
        "base"
    };
    put_joined(html, "<pre class=\"language-", lang, "\">");
    let mut j: usize = if named {
        i + 2
    } else {
        i + 1
    };
    let mut done = false;
    while !done
        invariant
            n == tokens.len(),
            i < j <= n,
            done ==> fragments(html@) == goal.html && j == goal.next,
            !done ==> code_run(text@, tokens@, j as int, fragments(html@)) == goal,
        decreases n - j + (if done { 0int } else { 1int }),
    {
        if j >= n {
            put_str(html, "</pre>");
            done = true;
        } else if tokens[j].id == TokenType::CodeBlockEnd {
            put_str(html, "</pre>");
            j = next_after_newline(tokens, j + 1);
            done = true;
        } else if tokens[j].id == TokenType::CodeBlockText || tokens[j].id
            == TokenType::CodeBlockSymbol {
            put_str(html, token_text(text, &tokens[j]));
            j = j + 1;
        } else {
            match class_name(tokens[j].id) {
                Some(class) => {
                    let mut x = String::from_str("<span class=\"");
                    x.append(class);
                    x.append("\">");
                    x.append(token_text(text, &tokens[j]));
                    x.append("</span>");
                    put(html, x);
                    j = j + 1;
                },
                None => {
                    put_str(html, "</pre>");
                    done = true;
                },
            }
        }
    }
    j
}

/// Whether a token of kind `id` stands for a column of a table.
pub open spec fn is_column(id: TokenType) -> bool {
    id == TokenType::TableColumnLeft || id == TokenType::TableColumnRight || id
        == TokenType::TableColumnCenter
}

/// The value of the `align` attribute for a column token of kind `id`.
pub open spec fn align_of(id: TokenType) -> Seq<char> {
    match id {
        TokenType::TableColumnRight => "right"@,
        TokenType::TableColumnCenter => "center"@,
        _ => "left"@,
    }
}

/// The first index at or after `j` whose token stands for no column, or the
/// number of tokens.
pub open spec fn columns_end(ts: Seq<Token>, j: int) -> int
    decreases ts.len() - j,
{
    if j < 0 || j >= ts.len() {
        ts.len() as int
    } else if is_column(ts[j].id) {
        columns_end(ts, j + 1)
    } else {
        j
    }
}

/// The state of the renderer within a table: the fragments, the index of the
/// next token, how many cells of the header are not begun yet, whether the
/// header is being rendered, and how many cells of the row are not begun
/// yet.
pub struct Cells {
    pub html: Seq<Seq<char>>,
    pub next: int,
    pub heading_left: int,
    pub heading: bool,
    pub cells_left: int,
}

/// The rendering of token `j` within a table whose `columns` column tokens
/// begin at index `c0`.
///
/// In the header each `Pipe` closes the cell before it and opens the next
/// one, aligned as its column; the pipe after the last cell closes the row,
/// and a `Newline` right after it is not rendered. In the rows after it each
/// `Pipe` likewise closes a cell and opens the next, the first of a row
/// opening the row. A `Newline` closes a row. Any other token is rendered as
/// in running text, or as its text where it has no rendering of its own.
pub open spec fn table_token(
    s: Seq<char>,
    ts: Seq<Token>,
    j: int,
    c0: int,
    columns: int,
    st: Cells,
) -> Cells {
    let align = align_of(ts[c0 + columns - st.heading_left].id);
    let r = inline(s, ts, j, st.html);
    if ts[j].id == TokenType::Pipe && st.heading && st.heading_left > 0 {
        Cells {
            html: st.html.push(
                if st.heading_left == columns {
                    "<th align=\""@ + align + "\">\n"@
                } else {
                    "\n</th>\n<th align=\""@ + align + "\">\n"@
                },
            ),
            next: j + 1,
            heading_left: st.heading_left - 1,
            ..st
        }
    } else if ts[j].id == TokenType::Pipe && st.heading {
        Cells {
            html: st.html.push("\n</th>\n"@).push("</tr>\n"@),
            next: skip_newline(ts, j + 1),
            heading: false,
            ..st
        }
    } else if ts[j].id == TokenType::Pipe && st.cells_left > 0 {
        Cells {
            html: st.html.push(
                if st.cells_left == columns {
                    "<tr>\n<td>\n"@
                } else {
                    "\n</td>\n<td>\n"@
                },
            ),
            next: j + 1,
            cells_left: st.cells_left - 1,
            ..st
        }
    } else if ts[j].id == TokenType::Pipe {
        Cells { html: st.html.push("\n</td>\n"@), next: j + 1, ..st }
    } else if ts[j].id == TokenType::Newline {
        Cells { html: st.html.push("</tr>\n"@), next: j + 1, cells_left: columns, ..st }
    } else if r.next > j {
        Cells { html: r.html, next: r.next, ..st }
    } else {
        Cells { html: st.html.push(text_of(s, ts[j])), next: j + 1, ..st }
    }
}

/// The rendering of a table from token `j`, token by token up to its
/// `TableEnd`, or the end of the tokens, which closes the element.
pub open spec fn table_run(
    s: Seq<char>,
    ts: Seq<Token>,
    j: int,
    c0: int,
    columns: int,
    st: Cells,
) -> Rendered
    decreases ts.len() - j,
{
    let e = table_token(s, ts, j, c0, columns, st);
    if j < 0 || j >= ts.len() {
        Rendered { html: st.html.push("</table>\n"@), next: ts.len() as int }
    } else if ts[j].id == TokenType::TableEnd {
        Rendered { html: st.html.push("</table>\n"@), next: j + 1 }
    } else if j < e.next <= ts.len() {
        table_run(s, ts, e.next, c0, columns, e)
    } else {
        Rendered { html: e.html, next: e.next }
    }
}

/// The rendering of the table whose `TableBegin` is token `i`: the column
/// tokens after it give the columns, in their order, and the tokens after
/// them the header and the rows.
pub open spec fn table_html(s: Seq<char>, ts: Seq<Token>, i: int, out: Seq<Seq<char>>) -> Rendered {
    let e = columns_end(ts, i + 1);
    table_run(
        s,
        ts,
        e,
        i + 1,
        e - (i + 1),
        Cells {
            html: out.push("<table>\n<tr>\n"@),
            next: e,
            heading_left: e - (i + 1),
            heading: true,
            cells_left: e - (i + 1),
        },
    )
}

/// The value of the `align` attribute for a column token of kind `id`.
fn align_name(id: TokenType) -> (r: &'static str)
    ensures
        r@ == align_of(id),
{
    match id {
        TokenType::TableColumnRight => "right",
        TokenType::TableColumnCenter => "center",
        _ => "left",
    }
}

/// Renders the table whose `TableBegin` is token `i` and returns the index
/// of the next token to render.
pub fn render_table(text: &str, tokens: &Vec<Token>, i: usize, html: &mut Vec<String>) -> (next:
    usize)
    requires
        i < tokens.len(),
    ensures
        fragments(final(html)@) == table_html(text@, tokens@, i as int, fragments(old(html)@)).html,
        next == table_html(text@, tokens@, i as int, fragments(old(html)@)).next,
        i < next <= tokens.len(),
{
    let n = tokens.len();
    let ghost s = text@;
    let ghost ts = tokens@;
    let ghost goal = table_html(s, ts, i as int, fragments(html@));
    put_str(html, "<table>\n<tr>\n");
    let c0 = i + 1;
    let mut columns: Vec<Column> = Vec::new();
    let mut e: usize = c0;
    while e < n && (tokens[e].id == TokenType::TableColumnLeft || tokens[e].id
        == TokenType::TableColumnRight || tokens[e].id == TokenType::TableColumnCenter)
        invariant
            n == tokens.len(),
            ts == tokens@,
            c0 <= e <= n,
            columns@.len() == e - c0,
            columns_end(ts, c0 as int) == columns_end(ts, e as int),
            forall|k: int|
                0 <= k < columns@.len() ==> (#[trigger] columns@[k]).1@ == align_of(ts[c0 + k].id),
        decreases n - e,
    {
        columns.push(Column(columns.len(), String::from_str(align_name(tokens[e].id))));
        e = e + 1;
    }
    let count = columns.len();
    let mut heading_left = count;
    let mut heading = true;
    let mut cells_left = count;
    let mut j: usize = e;
    let mut done = false;
    while !done
        invariant
            n == tokens.len(),
            ts == tokens@,
            s == text@,
            c0 <= j <= n,
            i < j,
            count == columns@.len(),
            c0 + count <= n,
            heading_left <= count,
            cells_left <= count,
            forall|k: int|
                0 <= k < columns@.len() ==> (#[trigger] columns@[k]).1@ == align_of(ts[c0 + k].id),
            done ==> fragments(html@) == goal.html && j == goal.next,
            !done ==> table_run(
                s,
                ts,
                j as int,
                c0 as int,
                count as int,
                Cells {
                    html: fragments(html@),
                    next: j as int,
                    heading_left: heading_left as int,
                    heading,
                    cells_left: cells_left as int,
                },
            ) == goal,
        decreases n - j + (if done { 0int } else { 1int }),
    {
        let ghost st = Cells {
            html: fragments(html@),
            next: j as int,
            heading_left: heading_left as int,
            heading,
            cells_left: cells_left as int,
        };
        if j >= n {
            put_str(html, "</table>\n");
            done = true;
        } else if tokens[j].id == TokenType::TableEnd {
            put_str(html, "</table>\n");
            j = j + 1;
            done = true;
        } else if tokens[j].id == TokenType::Pipe {
            if heading && heading_left > 0 {
                let align = columns[count - heading_left].1.as_str();
                if heading_left == count {
                    put_joined(html, "<th align=\"", align, "\">\n");
                } else {
                    put_joined(html, "\n</th>\n<th align=\"", align, "\">\n");
                }
                heading_left = heading_left - 1;
                j = j + 1;
            } else if heading {
                put_str(html, "\n</th>\n");
                put_str(html, "</tr>\n");
                heading = false;
                j = next_after_newline(tokens, j + 1);
            } else if cells_left > 0 {
                if cells_left == count {
                    put_str(html, "<tr>\n<td>\n");
                } else {
                    put_str(html, "\n</td>\n<td>\n");
                }
                cells_left = cells_left - 1;
                j = j + 1;
            } else {
                put_str(html, "\n</td>\n");
                j = j + 1;
            }
        } else if tokens[j].id == TokenType::Newline {
            put_str(html, "</tr>\n");
            cells_left = count;
            j = j + 1;
        } else {
            let next = render_inline(text, tokens, j, html);
            if next > j {
                j = next;
            } else {
                put_str(html, token_text(text, &tokens[j]));
                j = j + 1;
            }
        }
    }
    j
}

/// The rendering of token `i` where it begins a construct of running text.
///
/// A heading, a blockquote, a fenced code block and a table are rendered
/// with the tokens that belong to them. The tokens of lists are
/// the tags of lists and items, a `HorizontalRule` is a rule, an
/// `IndentBlock` a `pre` element with the block without its indentation, a
/// `Newline` a line break, and `Pipe`, `Text`, `Space` and `Tab` the text
/// they name. Any other token is rendered as `inline` tells, or not at all.
pub open spec fn block(s: Seq<char>, ts: Seq<Token>, i: int, out: Seq<Seq<char>>) -> Rendered {
    let t = ts[i];
    let r = inline(s, ts, i, out);
    match t.id {
        TokenType::Heading => heading_html(s, ts, i, out),
        TokenType::BlockquoteBegin => quote_run(s, ts, i + 1, out.push("<blockquote>"@)),
        TokenType::CodeBlockBegin => codeblock_html(s, ts, i, out),
        TokenType::TableBegin => table_html(s, ts, i, out),
        TokenType::UnorderedListBegin => Rendered { html: out.push("\n<ul>\n"@), next: i + 1 },
        TokenType::UnorderedListEnd => Rendered { html: out.push("\n</ul>\n"@), next: i + 1 },
        TokenType::OrderedListBegin => Rendered { html: out.push("\n<ol>\n"@), next: i + 1 },
        TokenType::OrderedListEnd => Rendered { html: out.push("\n</ol>\n"@), next: i + 1 },
        TokenType::ListItemBegin => Rendered { html: out.push("<li>"@), next: i + 1 },
        TokenType::ListItemEnd => Rendered { html: out.push("</li>"@), next: i + 1 },
        TokenType::HorizontalRule => Rendered { html: out.push("<hr>\n"@), next: i + 1 },
        TokenType::IndentBlock => Rendered {
            html: out.push(
                "<pre>"@ + unindent(slice(s, t.begin + 4, t.end as int), 0) + "</pre>"@,
            ),
            next: i + 1,
        },
        TokenType::Newline => Rendered { html: out.push("<br>\n"@), next: i + 1 },
        TokenType::Pipe | TokenType::Text | TokenType::Space | TokenType::Tab => Rendered {
            html: out.push(text_of(s, t)),
            next: i + 1,
        },
        _ => if r.next > i {
            r
        } else {
            Rendered { html: out, next: i + 1 }
        },
    }
}

/// The fragments for the tokens `ts` of the text `s` from token `i` on,
/// after the fragments `out`.
pub open spec fn render_from(s: Seq<char>, ts: Seq<Token>, i: int, out: Seq<Seq<char>>) -> Seq<
    Seq<char>,
>
    decreases ts.len() - i,
{
    let r = block(s, ts, i, out);
    if i < 0 || i >= ts.len() {
        out
    } else if i < r.next <= ts.len() {
        render_from(s, ts, r.next, r.html)
    } else {
        r.html
    }
}

/// The fragments of HTML for the tokens `ts` of the text `s`.
pub open spec fn render(s: Seq<char>, ts: Seq<Token>) -> Seq<Seq<char>> {
    render_from(s, ts, 0, Seq::empty())
}

/// Renders token `i` and what belongs to it, and returns the index of the
/// next token to render.
pub fn render_block(text: &str, tokens: &Vec<Token>, i: usize, html: &mut Vec<String>) -> (next:
    usize)
    requires
        i < tokens.len(),
    ensures
        fragments(final(html)@) == block(text@, tokens@, i as int, fragments(old(html)@)).html,
        next == block(text@, tokens@, i as int, fragments(old(html)@)).next,
        i < next <= tokens.len(),
{
    let t = &tokens[i];
    match t.id {
        TokenType::Heading => render_heading(text, tokens, i, html),
        TokenType::BlockquoteBegin => render_blockquote(text, tokens, i, html),
        TokenType::CodeBlockBegin => render_codeblock(text, tokens, i, html),
        TokenType::TableBegin => render_table(text, tokens, i, html),
        TokenType::UnorderedListBegin => {
            put_str(html, "\n<ul>\n");
            i + 1
        },
        TokenType::UnorderedListEnd => {
            put_str(html, "\n</ul>\n");
            i + 1
        },
        TokenType::OrderedListBegin => {
            put_str(html, "\n<ol>\n");
            i + 1
        },
        TokenType::OrderedListEnd => {
            put_str(html, "\n</ol>\n");
            i + 1
        },
        TokenType::ListItemBegin => {
            put_str(html, "<li>");
            i + 1
        },
        TokenType::ListItemEnd => {
            put_str(html, "</li>");
            i + 1
        },
        TokenType::HorizontalRule => {
            put_str(html, "<hr>\n");
            i + 1
        },
        TokenType::IndentBlock => {
            let body = if t.begin <= usize::MAX - 4 {
                strip_indent(substring(text, t.begin + 4, t.end))
            } else {
                String::new()
            };
            put_joined(html, "<pre>", body.as_str(), "</pre>");
            i + 1
        },
        TokenType::Newline => {
            put_str(html, "<br>\n");
            i + 1
        },
        TokenType::Pipe | TokenType::Text | TokenType::Space | TokenType::Tab => {
            put_str(html, token_text(text, t));
            i + 1
        },
        _ => {
            let next = render_inline(text, tokens, i, html);
            if next > i {
                next
            } else {
                i + 1
            }
        },
    }
}

/// Renders the tokens of `text` into fragments of HTML.
pub fn parse(text: &String, tokens: &Vec<Token>) -> (html: Vec<String>)
    ensures
        fragments(html@) == render(text@, tokens@),
{
    let mut html: Vec<String> = Vec::new();
    let n = tokens.len();
    let mut i: usize = 0;
    assert(fragments(html@) =~= Seq::empty());
    while i < n
        invariant
            n == tokens.len(),
            i <= n,
            render_from(text@, tokens@, i as int, fragments(html@)) == render(text@, tokens@),
        decreases n - i,
    {
        i = render_block(text.as_str(), tokens, i, &mut html);
    }
    html
}

/// The names of the languages of the fenced code blocks among the first `k`
/// of the tokens `ts`: for each `CodeBlockLanguage` that names more than a
/// newline, what it names without the newline.
pub open spec fn languages_named(s: Seq<char>, ts: Seq<Token>, k: int) -> Seq<Seq<char>>
    decreases k,
{
    if k <= 0 || k > ts.len() {
        Seq::empty()
    } else if ts[k - 1].id == TokenType::CodeBlockLanguage && ts[k - 1].end - ts[k - 1].begin > 1 {
        languages_named(s, ts, k - 1).push(slice(s, ts[k - 1].begin as int, ts[k - 1].end - 1))
    } else {
        languages_named(s, ts, k - 1)
    }
}

/// The names of the languages of the fenced code blocks among `tokens`, in
/// their order.
pub fn language_names(text: &String, tokens: &Vec<Token>) -> (names: Vec<String>)
    ensures
        fragments(names@) == languages_named(text@, tokens@, tokens@.len() as int),
{
    let mut names: Vec<String> = Vec::new();
    let mut i: usize = 0;
    assert(fragments(names@) =~= Seq::empty());
    while i < tokens.len()
        invariant
            i <= tokens.len(),
            fragments(names@) == languages_named(text@, tokens@, i as int),
        decreases tokens.len() - i,
    {
        let t = &tokens[i];
        if t.id == TokenType::CodeBlockLanguage && t.end > t.begin && t.end - t.begin > 1 {
            put_str(&mut names, substring(text.as_str(), t.begin, t.end - 1));
        }
        i = i + 1;
    }
    names
}

/// The first `k` of the fragments `fs`, one after the other.
pub open spec fn joined(fs: Seq<Seq<char>>, k: int) -> Seq<char>
    decreases k,
{
    if k <= 0 {
        Seq::empty()
    } else {
        joined(fs, k - 1) + fs[k - 1]
    }
}

/// The document for the fragments `fs`: the stylesheet block `css`, and
/// after it the fragments, one after the other, in a `div` element of the
/// class `markdown-body`.
pub open spec fn page(fs: Seq<Seq<char>>, css: Seq<char>) -> Seq<char> {
    css + "<div class=\"markdown-body\">\n"@ + joined(fs, fs.len() as int) + "\n</div>"@
}

/// Puts the rendered fragments together into the document, after the
/// stylesheet block `css`, which may be empty.
pub fn document(html: &Vec<String>, css: &str) -> (r: String)
    ensures
        r@ == page(fragments(html@), css@),
{
    let mut body = String::new();
    let mut i: usize = 0;
    assert(body@ =~= joined(fragments(html@), 0));
    while i < html.len()
        invariant
            i <= html.len(),
            body@ == joined(fragments(html@), i as int),
        decreases html.len() - i,
    {
        body.append(html[i].as_str());
        i = i + 1;
    }
    let mut r = String::from_str(css);
    r.append("<div class=\"markdown-body\">\n");
    r.append(body.as_str());
    r.append("\n</div>");
    r
}

} // verus!
