//! The GSS grammar, read from a token stream.
//!
//! A document is one or more `key = value` fields, each optionally followed by
//! a comma, then the end of input.  An object is `{`, fields separated by
//! optional commas, `}`.  A list is `[`, values separated by optional commas,
//! `]`.  A value is an integer (optionally followed by `%`), a real literal
//! (optionally followed by `%`), `true`, `false`, a string literal, an object,
//! a list, a key, a dotted path, or a dotted path that starts with a dot.
//!
//! A repetition ends where an element fails without reading a token; an
//! element that fails after reading tokens makes the whole list, object or
//! document fail with its error.
use vstd::prelude::*;

use crate::number::{check_real_literal, is_real_literal, parse_u32, spec_parse_u32, IntError};
use crate::token::{tokens_view, unescape_literal, unescaped, wf_tokens, known_radix, TokKind, Token, TokenView};
use crate::value::{
    lemma_view_values, strings_view, value_view, view_values, Expr, ExprView, FloatLit, FloatView, Object,
    ObjectView, Value, ValueView,
};

verus! {

/// What the parser expected to see.
#[derive(Clone, Copy, Debug, PartialEq, Eq, Structural)]
pub enum Expected {
    OpenBracket,
    CloseBracket,
    CloseCurly,
    Eq,
    Eof,
    Identifier,
}

/// Why a document or value was refused.
#[derive(Debug, PartialEq)]
pub enum ErrorKind {
    /// Another token than the one the grammar requires; `found` is the
    /// lexer's name of the token's kind.
    Expected { expected: Expected, found: String },
    /// A token that cannot start a value: the lexer's name of its kind, and
    /// the token as the lexer displays it.
    UnexpectedToken { kind_name: String, shown: String },
    /// An integer literal without a `u32` value.
    Integer(IntError),
    /// A real literal of another shape than digits, point, digits.
    InvalidReal,
    /// A list ended where an item was looked for.
    EndOfList,
    /// A key defined twice in one object, where that is refused.
    Redefinition { key: String },
}

pub enum ErrorView {
    Expected { expected: Expected, found: Seq<char> },
    UnexpectedToken { kind_name: Seq<char>, shown: Seq<char> },
    Integer(IntError),
    InvalidReal,
    EndOfList,
    Redefinition { key: Seq<char> },
}

impl View for ErrorKind {
    type V = ErrorView;

    open spec fn view(&self) -> ErrorView {
        match self {
            ErrorKind::Expected { expected, found } => ErrorView::Expected {
                expected: *expected,
                found: found@,
            },
            ErrorKind::UnexpectedToken { kind_name, shown } => ErrorView::UnexpectedToken {
                kind_name: kind_name@,
                shown: shown@,
            },
            ErrorKind::Integer(e) => ErrorView::Integer(*e),
            ErrorKind::InvalidReal => ErrorView::InvalidReal,
            ErrorKind::EndOfList => ErrorView::EndOfList,
            ErrorKind::Redefinition { key } => ErrorView::Redefinition { key: key@ },
        }
    }
}

// ---------------------------------------------------------------------------
// The grammar, over the views of tokens.

/// The token at position `p`; past the end, the end of input again.
pub open spec fn tok(ts: Seq<TokenView>, p: int) -> TokenView {
    if 0 <= p < ts.len() {
        ts[p]
    } else {
        TokenView {
            kind: TokKind::Eof,
            text: ts.last().text,
            kind_name: ts.last().kind_name,
            shown: ts.last().shown,
            line: ts.last().line,
            col: ts.last().col,
        }
    }
}

pub open spec fn expected(ts: Seq<TokenView>, p: int, e: Expected) -> ErrorView {
    ErrorView::Expected { expected: e, found: tok(ts, p).kind_name }
}

/// `p`, or one past it when the token there is a comma.
pub open spec fn skip_comma(ts: Seq<TokenView>, p: int) -> int {
    if tok(ts, p).kind == TokKind::Comma {
        p + 1
    } else {
        p
    }
}

/// The rest of a dotted path: `.name` repeated; a dot not followed by a name
/// is consumed and ends the path.
pub open spec fn p_path_rest(ts: Seq<TokenView>, p: int, acc: Seq<Seq<char>>) -> (int, Seq<Seq<char>>)
    decreases ts.len() - p,
{
    if tok(ts, p).kind != TokKind::Dot {
        (p, acc)
    } else if tok(ts, p + 1).kind != TokKind::Identifier {
        (p + 1, acc)
    } else {
        p_path_rest(ts, p + 2, acc.push(tok(ts, p + 1).text))
    }
}

/// Names separated by dots, after those in `acc`; none if the first token is
/// not a name.
pub open spec fn p_path(ts: Seq<TokenView>, p: int, acc: Seq<Seq<char>>) -> (int, Seq<Seq<char>>) {
    if tok(ts, p).kind != TokKind::Identifier {
        (p, acc)
    } else {
        p_path_rest(ts, p + 1, acc.push(tok(ts, p).text))
    }
}

pub open spec fn p_value(ts: Seq<TokenView>, p: int, a: bool) -> (int, Result<ValueView, ErrorView>)
    decreases ts.len() - p, 2int,
{
    if tok(ts, p).kind == TokKind::OpenBracket {
        match p_list(ts, p, a) {
            (q, Ok(items)) => (q, Ok(ValueView::Vec(items))),
            (q, Err(e)) => (q, Err(e)),
        }
    } else {
        let t = tok(ts, p);
        let q = p + 1;
        match t.kind {
            TokKind::Number(r) => match spec_parse_u32(t.text, r) {
                Err(e) => (q, Err(ErrorView::Integer(e))),
                Ok(x) => if tok(ts, q).kind == TokKind::Mod {
                    (q + 1, Ok(ValueView::Float(FloatView::IntPercent(x))))
                } else {
                    (q, Ok(ValueView::Number(x)))
                },
            },
            TokKind::RealNumber => if !is_real_literal(t.text) {
                (q, Err(ErrorView::InvalidReal))
            } else if tok(ts, q).kind == TokKind::Mod {
                (q + 1, Ok(ValueView::Float(FloatView::RealPercent(t.text))))
            } else {
                (q, Ok(ValueView::Float(FloatView::Real(t.text))))
            },
            TokKind::Identifier => if t.text == seq!['t', 'r', 'u', 'e'] {
                (q, Ok(ValueView::Bool(true)))
            } else if t.text == seq!['f', 'a', 'l', 's', 'e'] {
                (q, Ok(ValueView::Bool(false)))
            } else if tok(ts, q).kind == TokKind::Dot {
                let (q2, path) = p_path(ts, q + 1, seq![t.text]);
                (q2, Ok(ValueView::Expr(ExprView::Access(path))))
            } else {
                (q, Ok(ValueView::Expr(ExprView::Symbol(t.text))))
            },
            TokKind::StringLiteral => (q, Ok(ValueView::String(unescaped(t.text)))),
            TokKind::OpenCurly => match p_object(ts, q, a) {
                (q2, Ok(o)) => (q2, Ok(ValueView::Object(o))),
                (q2, Err(e)) => (q2, Err(e)),
            },
            TokKind::Dot => if tok(ts, q).kind == TokKind::Identifier {
                let (q2, path) = p_path(ts, q, Seq::empty());
                (q2, Ok(ValueView::Expr(ExprView::RelAccess(path))))
            } else {
                (q, Err(ErrorView::UnexpectedToken { kind_name: t.kind_name, shown: t.shown }))
            },
            _ => (q, Err(ErrorView::UnexpectedToken { kind_name: t.kind_name, shown: t.shown })),
        }
    }
}

/// `[`, items separated by optional commas, `]`.
pub open spec fn p_list(ts: Seq<TokenView>, p: int, a: bool) -> (int, Result<Seq<ValueView>, ErrorView>)
    decreases ts.len() - p, 1int,
{
    if tok(ts, p).kind != TokKind::OpenBracket {
        (p, Err(expected(ts, p, Expected::OpenBracket)))
    } else if tok(ts, p + 1).kind == TokKind::CloseBracket {
        (p + 2, Ok(Seq::empty()))
    } else {
        match p_items(ts, p + 1, a) {
            (q, Err(e)) => (q, Err(e)),
            (q, Ok(items)) => if tok(ts, q).kind != TokKind::CloseBracket {
                (q, Err(expected(ts, q, Expected::CloseBracket)))
            } else {
                (q + 1, Ok(items))
            },
        }
    }
}

/// One list item: fails without consuming at `]`.
pub open spec fn p_item(ts: Seq<TokenView>, p: int, a: bool) -> (int, Result<ValueView, ErrorView>)
    decreases ts.len() - p, 3int,
{
    if tok(ts, p).kind == TokKind::CloseBracket {
        (p, Err(ErrorView::EndOfList))
    } else {
        p_value(ts, p, a)
    }
}

/// List items separated by optional commas.
pub open spec fn p_items(ts: Seq<TokenView>, p: int, a: bool) -> (int, Result<Seq<ValueView>, ErrorView>)
    decreases ts.len() - p, 5int,
{
    match p_item(ts, p, a) {
        (q, Err(e)) => if q == p {
            (q, Ok(Seq::empty()))
        } else {
            (q, Err(e))
        },
        (q, Ok(v)) => if p < q <= ts.len() {
            p_items_rest(ts, q, seq![v], a)
        } else {
            (q, Ok(seq![v]))
        },
    }
}

pub open spec fn p_items_rest(ts: Seq<TokenView>, p: int, acc: Seq<ValueView>, a: bool) -> (int, Result<
    Seq<ValueView>,
    ErrorView,
>)
    decreases ts.len() - p, 4int,
{
    let q = skip_comma(ts, p);
    match p_item(ts, q, a) {
        (q2, Err(e)) => if q2 == q {
            (q2, Ok(acc))
        } else {
            (q2, Err(e))
        },
        (q2, Ok(v)) => if p < q2 <= ts.len() {
            p_items_rest(ts, q2, acc.push(v), a)
        } else {
            (q2, Ok(acc.push(v)))
        },
    }
}

/// `name = value`.
pub open spec fn p_field(ts: Seq<TokenView>, p: int, a: bool) -> (int, Result<
    (Seq<char>, ValueView),
    ErrorView,
>)
    decreases ts.len() - p, 1int,
{
    if tok(ts, p).kind != TokKind::Identifier {
        (p, Err(expected(ts, p, Expected::Identifier)))
    } else if tok(ts, p + 1).kind != TokKind::Assign {
        (p + 1, Err(expected(ts, p + 1, Expected::Eq)))
    } else {
        match p_value(ts, p + 2, a) {
            (q, Ok(v)) => (q, Ok((tok(ts, p).text, v))),
            (q, Err(e)) => (q, Err(e)),
        }
    }
}

/// Fields separated by optional commas.
pub open spec fn p_fields(ts: Seq<TokenView>, p: int, a: bool) -> (int, Result<
    Seq<(Seq<char>, ValueView)>,
    ErrorView,
>)
    decreases ts.len() - p, 3int,
{
    match p_field(ts, p, a) {
        (q, Err(e)) => if q == p {
            (q, Ok(Seq::empty()))
        } else {
            (q, Err(e))
        },
        (q, Ok(f)) => if p < q <= ts.len() {
            p_fields_rest(ts, q, seq![f], a)
        } else {
            (q, Ok(seq![f]))
        },
    }
}

pub open spec fn p_fields_rest(
    ts: Seq<TokenView>,
    p: int,
    acc: Seq<(Seq<char>, ValueView)>,
    a: bool,
) -> (int, Result<Seq<(Seq<char>, ValueView)>, ErrorView>)
    decreases ts.len() - p, 2int,
{
    let q = skip_comma(ts, p);
    match p_field(ts, q, a) {
        (q2, Err(e)) => if q2 == q {
            (q2, Ok(acc))
        } else {
            (q2, Err(e))
        },
        (q2, Ok(f)) => if p < q2 <= ts.len() {
            p_fields_rest(ts, q2, acc.push(f), a)
        } else {
            (q2, Ok(acc.push(f)))
        },
    }
}

/// The object with `fields` defined in order, or the first key defined a
/// second time when that is refused.
pub open spec fn build_from(acc: ObjectView, fields: Seq<(Seq<char>, ValueView)>, i: int) -> Result<
    ObjectView,
    Seq<char>,
>
    decreases fields.len() - i,
{
    if i < 0 || i >= fields.len() {
        Ok(acc)
    } else if acc.lookup(fields[i].0) is Some && !acc.allow_redefinition {
        Err(fields[i].0)
    } else {
        build_from(acc.insert(fields[i].0, fields[i].1), fields, i + 1)
    }
}

pub open spec fn build(fields: Seq<(Seq<char>, ValueView)>, a: bool) -> Result<ObjectView, Seq<char>> {
    build_from(ObjectView::empty(a), fields, 0)
}

/// An object's body, after its `{`: an optional second `{`, then either `}`
/// or fields and `}`.
pub open spec fn p_object(ts: Seq<TokenView>, p: int, a: bool) -> (int, Result<ObjectView, ErrorView>)
    decreases ts.len() - p, 4int,
{
    let p1 = if tok(ts, p).kind == TokKind::OpenCurly {
        p + 1
    } else {
        p
    };
    if tok(ts, p1).kind == TokKind::CloseCurly {
        (p1 + 1, Ok(ObjectView::empty(a)))
    } else {
        match p_fields(ts, p1, a) {
            (q, Err(e)) => (q, Err(e)),
            (q, Ok(fields)) => if tok(ts, q).kind != TokKind::CloseCurly {
                (q, Err(expected(ts, q, Expected::CloseCurly)))
            } else {
                match build(fields, a) {
                    Ok(o) => (q + 1, Ok(o)),
                    Err(k) => (q + 1, Err(ErrorView::Redefinition { key: k })),
                }
            },
        }
    }
}

/// A top-level field and the comma that may follow it.
pub open spec fn p_top_field(ts: Seq<TokenView>, p: int, a: bool) -> (int, Result<
    (Seq<char>, ValueView),
    ErrorView,
>) {
    match p_field(ts, p, a) {
        (q, Ok(f)) => (skip_comma(ts, q), Ok(f)),
        (q, Err(e)) => (q, Err(e)),
    }
}

pub open spec fn p_top_rest(ts: Seq<TokenView>, p: int, acc: Seq<(Seq<char>, ValueView)>, a: bool) -> (
    int,
    Result<Seq<(Seq<char>, ValueView)>, ErrorView>,
)
    decreases ts.len() - p,
{
    match p_top_field(ts, p, a) {
        (q, Err(e)) => if q == p {
            (q, Ok(acc))
        } else {
            (q, Err(e))
        },
        (q, Ok(f)) => if p < q <= ts.len() {
            p_top_rest(ts, q, acc.push(f), a)
        } else {
            (q, Ok(acc.push(f)))
        },
    }
}

/// A whole document: nothing, or top-level fields followed by the end of
/// input.
pub open spec fn p_document(ts: Seq<TokenView>, a: bool) -> (int, Result<ObjectView, ErrorView>) {
    if tok(ts, 0).kind == TokKind::Eof {
        (0, Ok(ObjectView::empty(a)))
    } else {
        match p_top_field(ts, 0, a) {
            (q, Err(e)) => (q, Err(e)),
            (q, Ok(f)) => match p_top_rest(ts, q, seq![f], a) {
                (q2, Err(e)) => (q2, Err(e)),
                (q2, Ok(fields)) => if tok(ts, q2).kind != TokKind::Eof {
                    (q2, Err(expected(ts, q2, Expected::Eof)))
                } else {
                    match build(fields, a) {
                        Ok(o) => (q2 + 1, Ok(o)),
                        Err(k) => (q2 + 1, Err(ErrorView::Redefinition { key: k })),
                    }
                },
            },
        }
    }
}

// ---------------------------------------------------------------------------
// Reading the grammar from tokens.

pub open spec fn value_result(r: Result<Value, ErrorKind>) -> Result<ValueView, ErrorView> {
    match r {
        Ok(v) => Ok(v@),
        Err(e) => Err(e@),
    }
}

pub open spec fn list_result(r: Result<Vec<Value>, ErrorKind>) -> Result<Seq<ValueView>, ErrorView> {
    match r {
        Ok(v) => Ok(view_values(v@)),
        Err(e) => Err(e@),
    }
}

pub open spec fn object_result(r: Result<Object, ErrorKind>) -> Result<ObjectView, ErrorView> {
    match r {
        Ok(o) => Ok(o@),
        Err(e) => Err(e@),
    }
}

pub open spec fn field_view(f: (String, Value)) -> (Seq<char>, ValueView) {
    (f.0@, f.1@)
}

pub open spec fn fields_view(s: Seq<(String, Value)>) -> Seq<(Seq<char>, ValueView)> {
    s.map_values(|f: (String, Value)| field_view(f))
}

pub open spec fn fields_result(r: Result<Vec<(String, Value)>, ErrorKind>) -> Result<
    Seq<(Seq<char>, ValueView)>,
    ErrorView,
> {
    match r {
        Ok(f) => Ok(fields_view(f@)),
        Err(e) => Err(e@),
    }
}

pub open spec fn field_result(r: Result<(String, Value), ErrorKind>) -> Result<
    (Seq<char>, ValueView),
    ErrorView,
> {
    match r {
        Ok(f) => Ok(field_view(f)),
        Err(e) => Err(e@),
    }
}

/// What every reader needs: a well-formed stream that is short enough for
/// positions past its end to be counted in `usize`.
pub open spec fn readable(ts: Seq<Token>) -> bool {
    wf_tokens(tokens_view(ts)) && ts.len() + 4 <= usize::MAX
}

proof fn lemma_tok(ts: Seq<TokenView>, p: int)
    requires
        wf_tokens(ts),
        p >= 0,
    ensures
        tok(ts, p).kind != TokKind::Eof ==> p < ts.len() - 1,
        tok(ts, p).kind matches TokKind::Number(r) ==> known_radix(r),
{
    if p < ts.len() {
        assert(tok(ts, p) == ts[p]);
    }
}

proof fn lemma_view_values_push(s: Seq<Value>, v: Value)
    ensures
        view_values(s.push(v)) == view_values(s).push(v@),
{
    assert(s.push(v).drop_last() =~= s);
}

pub(crate) fn tok_at(ts: &Vec<Token>, p: usize) -> (t: &Token)
    requires
        wf_tokens(tokens_view(ts@)),
    ensures
        t@ == tok(tokens_view(ts@), p as int),
{
    let ghost tv = tokens_view(ts@);
    if p < ts.len() {
        &ts[p]
    } else {
        let t = &ts[ts.len() - 1];
        assert(t@ == tv.last());
        t
    }
}

fn is_kind(t: &Token, k: TokKind) -> (b: bool)
    ensures
        b == (t.kind == k),
{
    t.kind == k
}

fn expected_error(t: &Token, e: Expected) -> (r: ErrorKind)
    ensures
        r@ == (ErrorView::Expected { expected: e, found: t.kind_name@ }),
{
    ErrorKind::Expected { expected: e, found: t.kind_name.clone() }
}

/// Whether `s` is the word `w`.
fn text_is(s: &String, w: &[char]) -> (b: bool)
    ensures
        b == (s@ == w@),
{
    let n = s.as_str().unicode_len();
    if n != w.len() {
        return false;
    }
    let mut i: usize = 0;
    while i < n
        invariant
            n == s@.len(),
            n == w@.len(),
            i <= n,
            forall|j: int| 0 <= j < i ==> s@[j] == w@[j],
        decreases n - i,
    {
        if s.as_str().get_char(i) != w[i] {
            return false;
        }
        i += 1;
    }
    assert(s@ =~= w@);
    true
}

fn parse_path(ts: &Vec<Token>, p: usize, init: Vec<String>) -> (r: (usize, Vec<String>))
    requires
        readable(ts@),
        p < ts@.len(),
    ensures
        r.0 == p_path(tokens_view(ts@), p as int, strings_view(init@)).0,
        strings_view(r.1@) == p_path(tokens_view(ts@), p as int, strings_view(init@)).1,
        p <= r.0 < ts@.len(),
{
    let ghost tv = tokens_view(ts@);
    let t = tok_at(ts, p);
    if !is_kind(t, TokKind::Identifier) {
        return (p, init);
    }
    proof {
        lemma_tok(tv, p as int);
    }
    let mut acc = init;
    let ghost acc0 = strings_view(acc@);
    acc.push(t.text.clone());
    assert(strings_view(acc@) =~= acc0.push(t.text@));
    let mut cur = p + 1;
    loop
        invariant
            readable(ts@),
            tv == tokens_view(ts@),
            p < cur < ts@.len(),
            acc0 == strings_view(init@),
            p_path_rest(tv, cur as int, strings_view(acc@)) == p_path(tv, p as int, acc0),
        decreases ts@.len() - cur,
    {
        let d = tok_at(ts, cur);
        if !is_kind(d, TokKind::Dot) {
            assert(p_path_rest(tv, cur as int, strings_view(acc@)) == (cur as int, strings_view(acc@)));
            return (cur, acc);
        }
        proof {
            lemma_tok(tv, cur as int);
        }
        let n = tok_at(ts, cur + 1);
        if !is_kind(n, TokKind::Identifier) {
            assert(p_path_rest(tv, cur as int, strings_view(acc@)) == (cur + 1, strings_view(acc@)));
            return (cur + 1, acc);
        }
        proof {
            lemma_tok(tv, cur + 1);
        }
        let ghost before = strings_view(acc@);
        acc.push(n.text.clone());
        assert(strings_view(acc@) =~= before.push(n.text@));
        cur = cur + 2;
    }
}

pub(crate) fn parse_value(ts: &Vec<Token>, p: usize, a: bool) -> (r: (usize, Result<Value, ErrorKind>))
    requires
        readable(ts@),
        p <= ts@.len(),
    ensures
        r.0 == p_value(tokens_view(ts@), p as int, a).0,
        value_result(r.1) == p_value(tokens_view(ts@), p as int, a).1,
        p <= r.0 <= ts@.len() + 1,
        r.1 is Ok ==> p < r.0 < ts@.len(),
    decreases ts@.len() - p, 2int,
{
    let ghost tv = tokens_view(ts@);
    let t = tok_at(ts, p);
    proof {
        lemma_tok(tv, p as int);
    }
    if is_kind(t, TokKind::OpenBracket) {
        let (q, res) = parse_list(ts, p, a);
        return match res {
            Ok(items) => (q, Ok(Value::Vec(items))),
            Err(e) => (q, Err(e)),
        };
    }
    let q = p + 1;
    match t.kind {
        TokKind::Number(radix) => {
            assert(tok(tv, p as int).kind != TokKind::Eof);
            match parse_u32(t.text.as_str(), radix) {
                Err(e) => (q, Err(ErrorKind::Integer(e))),
                Ok(x) => {
                    proof {
                        lemma_tok(tv, q as int);
                    }
                    if is_kind(tok_at(ts, q), TokKind::Mod) {
                        assert(q + 1 < ts@.len());
                        (q + 1, Ok(Value::Float(FloatLit::IntPercent(x))))
                    } else {
                        assert(p < ts@.len() - 1);
                        assert(q < ts@.len());
                        (q, Ok(Value::Number(x)))
                    }
                },
            }
        },
        TokKind::RealNumber => {
            if !check_real_literal(t.text.as_str()) {
                (q, Err(ErrorKind::InvalidReal))
            } else {
                proof {
                    lemma_tok(tv, q as int);
                }
                if is_kind(tok_at(ts, q), TokKind::Mod) {
                    (q + 1, Ok(Value::Float(FloatLit::RealPercent(t.text.clone()))))
                } else {
                    (q, Ok(Value::Float(FloatLit::Real(t.text.clone()))))
                }
            }
        },
        TokKind::Identifier => {
            if text_is(&t.text, &['t', 'r', 'u', 'e']) {
                (q, Ok(Value::Bool(true)))
            } else if text_is(&t.text, &['f', 'a', 'l', 's', 'e']) {
                (q, Ok(Value::Bool(false)))
            } else if is_kind(tok_at(ts, q), TokKind::Dot) {
                proof {
                    lemma_tok(tv, q as int);
                }
                let first = vec![t.text.clone()];
                assert(strings_view(first@) =~= seq![t.text@]);
                let (q2, path) = parse_path(ts, q + 1, first);
                (q2, Ok(Value::Expr(Expr::Access(path))))
            } else {
                (q, Ok(Value::Expr(Expr::Symbol(t.text.clone()))))
            }
        },
        TokKind::StringLiteral => (q, Ok(Value::String(unescape_literal(t.text.as_str())))),
        TokKind::OpenCurly => {
            let (q2, res) = parse_object(ts, q, a);
            match res {
                Ok(o) => (q2, Ok(Value::Object(o))),
                Err(e) => (q2, Err(e)),
            }
        },
        TokKind::Dot => {
            let n = tok_at(ts, q);
            if is_kind(n, TokKind::Identifier) {
                proof {
                    lemma_tok(tv, q as int);
                }
                let none: Vec<String> = Vec::new();
                assert(strings_view(none@) =~= Seq::<Seq<char>>::empty());
                let (q2, path) = parse_path(ts, q, none);
                (q2, Ok(Value::Expr(Expr::RelAccess(path))))
            } else {
                (q, Err(ErrorKind::UnexpectedToken { kind_name: t.kind_name.clone(), shown: t.shown.clone() }))
            }
        },
        _ => (q, Err(ErrorKind::UnexpectedToken { kind_name: t.kind_name.clone(), shown: t.shown.clone() })),
    }
}

fn parse_list(ts: &Vec<Token>, p: usize, a: bool) -> (r: (usize, Result<Vec<Value>, ErrorKind>))
    requires
        readable(ts@),
        p <= ts@.len(),
    ensures
        r.0 == p_list(tokens_view(ts@), p as int, a).0,
        list_result(r.1) == p_list(tokens_view(ts@), p as int, a).1,
        p <= r.0 <= ts@.len() + 1,
        r.1 is Ok ==> p < r.0 < ts@.len(),
    decreases ts@.len() - p, 1int,
{
    let ghost tv = tokens_view(ts@);
    let t = tok_at(ts, p);
    if !is_kind(t, TokKind::OpenBracket) {
        return (p, Err(expected_error(t, Expected::OpenBracket)));
    }
    proof {
        lemma_tok(tv, p as int);
    }
    if is_kind(tok_at(ts, p + 1), TokKind::CloseBracket) {
        proof {
            lemma_tok(tv, p + 1);
        }
        let empty: Vec<Value> = Vec::new();
        assert(view_values(empty@) =~= Seq::empty());
        return (p + 2, Ok(empty));
    }
    let (q, res) = parse_items(ts, p + 1, a);
    let items = match res {
        Err(e) => {
            return (q, Err(e));
        },
        Ok(items) => items,
    };
    let c = tok_at(ts, q);
    if !is_kind(c, TokKind::CloseBracket) {
        return (q, Err(expected_error(c, Expected::CloseBracket)));
    }
    proof {
        lemma_tok(tv, q as int);
    }
    (q + 1, Ok(items))
}

fn parse_items(ts: &Vec<Token>, p: usize, a: bool) -> (r: (usize, Result<Vec<Value>, ErrorKind>))
    requires
        readable(ts@),
        p <= ts@.len(),
    ensures
        r.0 == p_items(tokens_view(ts@), p as int, a).0,
        list_result(r.1) == p_items(tokens_view(ts@), p as int, a).1,
        p <= r.0 <= ts@.len() + 1,
    decreases ts@.len() - p, 3int,
{
    let ghost tv = tokens_view(ts@);
    if is_kind(tok_at(ts, p), TokKind::CloseBracket) {
        let empty: Vec<Value> = Vec::new();
        assert(view_values(empty@) =~= Seq::empty());
        return (p, Ok(empty));
    }
    let (q, first) = parse_value(ts, p, a);
    let v = match first {
        Err(e) => {
            if q == p {
                let empty: Vec<Value> = Vec::new();
                assert(view_values(empty@) =~= Seq::empty());
                return (q, Ok(empty));
            }
            return (q, Err(e));
        },
        Ok(v) => v,
    };
    let mut acc: Vec<Value> = Vec::new();
    proof {
        lemma_view_values_push(acc@, v);
    }
    acc.push(v);
    assert(view_values(acc@) =~= seq![v@]) by {
        assert(acc@ =~= Seq::<Value>::empty().push(v));
    }
    let mut cur = q;
    loop
        invariant
            readable(ts@),
            tv == tokens_view(ts@),
            p < cur < ts@.len(),
            p_items_rest(tv, cur as int, view_values(acc@), a) == p_items(tv, p as int, a),
        decreases ts@.len() - cur,
    {
        let c = if is_kind(tok_at(ts, cur), TokKind::Comma) {
            proof {
                lemma_tok(tv, cur as int);
            }
            cur + 1
        } else {
            cur
        };
        assert(c == skip_comma(tv, cur as int));
        if is_kind(tok_at(ts, c), TokKind::CloseBracket) {
            assert(p_item(tv, c as int, a) == (c as int, Err::<ValueView, ErrorView>(ErrorView::EndOfList)));
            return (c, Ok(acc));
        }
        assert(p_item(tv, c as int, a) == p_value(tv, c as int, a));
        let (q2, res) = parse_value(ts, c, a);
        match res {
            Err(e) => {
                if q2 == c {
                    return (q2, Ok(acc));
                }
                return (q2, Err(e));
            },
            Ok(v) => {
                proof {
                    lemma_view_values_push(acc@, v);
                }
                acc.push(v);
                cur = q2;
            },
        }
    }
}

fn parse_field(ts: &Vec<Token>, p: usize, a: bool) -> (r: (usize, Result<(String, Value), ErrorKind>))
    requires
        readable(ts@),
        p <= ts@.len(),
    ensures
        r.0 == p_field(tokens_view(ts@), p as int, a).0,
        field_result(r.1) == p_field(tokens_view(ts@), p as int, a).1,
        p <= r.0 <= ts@.len() + 1,
        r.1 is Ok ==> p < r.0 < ts@.len(),
    decreases ts@.len() - p, 1int,
{
    let ghost tv = tokens_view(ts@);
    let k = tok_at(ts, p);
    if !is_kind(k, TokKind::Identifier) {
        return (p, Err(expected_error(k, Expected::Identifier)));
    }
    proof {
        lemma_tok(tv, p as int);
    }
    let e = tok_at(ts, p + 1);
    if !is_kind(e, TokKind::Assign) {
        return (p + 1, Err(expected_error(e, Expected::Eq)));
    }
    proof {
        lemma_tok(tv, p + 1);
    }
    let (q, res) = parse_value(ts, p + 2, a);
    match res {
        Ok(v) => (q, Ok((k.text.clone(), v))),
        Err(e) => (q, Err(e)),
    }
}

fn parse_fields(ts: &Vec<Token>, p: usize, a: bool) -> (r: (usize, Result<Vec<(String, Value)>, ErrorKind>))
    requires
        readable(ts@),
        p <= ts@.len(),
    ensures
        r.0 == p_fields(tokens_view(ts@), p as int, a).0,
        fields_result(r.1) == p_fields(tokens_view(ts@), p as int, a).1,
        p <= r.0 <= ts@.len() + 1,
    decreases ts@.len() - p, 3int,
{
    let ghost tv = tokens_view(ts@);
    let (q, first) = parse_field(ts, p, a);
    let f = match first {
        Err(e) => {
            if q == p {
                let empty: Vec<(String, Value)> = Vec::new();
                assert(fields_view(empty@) =~= Seq::empty());
                return (q, Ok(empty));
            }
            return (q, Err(e));
        },
        Ok(f) => f,
    };
    let mut acc: Vec<(String, Value)> = Vec::new();
    acc.push(f);
    assert(fields_view(acc@) =~= seq![field_view(f)]);
    let mut cur = q;
    loop
        invariant
            readable(ts@),
            tv == tokens_view(ts@),
            p < cur < ts@.len(),
            p_fields_rest(tv, cur as int, fields_view(acc@), a) == p_fields(tv, p as int, a),
        decreases ts@.len() - cur,
    {
        let c = if is_kind(tok_at(ts, cur), TokKind::Comma) {
            proof {
                lemma_tok(tv, cur as int);
            }
            cur + 1
        } else {
            cur
        };
        assert(c == skip_comma(tv, cur as int));
        let (q2, res) = parse_field(ts, c, a);
        match res {
            Err(e) => {
                if q2 == c {
                    return (q2, Ok(acc));
                }
                return (q2, Err(e));
            },
            Ok(f) => {
                let ghost before = fields_view(acc@);
                acc.push(f);
                assert(fields_view(acc@) =~= before.push(field_view(f)));
                cur = q2;
            },
        }
    }
}

/// Defines `fields` in order in a new object.
fn build_object(fields: Vec<(String, Value)>, a: bool) -> (r: Result<Object, String>)
    ensures
        match r {
            Ok(o) => build(fields_view(fields@), a) == Ok::<ObjectView, Seq<char>>(o@),
            Err(k) => build(fields_view(fields@), a) == Err::<ObjectView, Seq<char>>(k@),
        },
{
    let ghost all = fields_view(fields@);
    let mut obj = Object::new();
    obj.set_allow_redefinition(a);
    let mut rest = fields;
    let n = rest.len();
    let mut i: usize = 0;
    while i < n
        invariant
            n == all.len(),
            i <= n,
            all == fields_view(fields@),
            fields_view(rest@) == all.subrange(i as int, n as int),
            obj@.allow_redefinition == a,
            build_from(obj@, all, i as int) == build(all, a),
        decreases n - i,
    {
        let ghost before = rest@;
        assert(fields_view(rest@).len() == rest@.len());
        assert(fields_view(rest@)[0] == all[i as int]);
        let (k, v) = rest.remove(0);
        assert(fields_view(rest@) =~= all.subrange(i + 1, n as int)) by {
            assert(rest@ =~= before.subrange(1, before.len() as int));
            assert(fields_view(rest@) =~= fields_view(before).subrange(1, before.len() as int));
        }
        let key = k.clone();
        let ghost o_before = obj@;
        assert(all[i as int] == (k@, v@));
        let was_defined = obj.insert(k, v);
        if was_defined && !a {
            assert(build_from(o_before, all, i as int) == Err::<ObjectView, Seq<char>>(key@));
            return Err(key);
        }
        i += 1;
    }
    Ok(obj)
}

fn parse_object(ts: &Vec<Token>, p: usize, a: bool) -> (r: (usize, Result<Object, ErrorKind>))
    requires
        readable(ts@),
        p <= ts@.len(),
    ensures
        r.0 == p_object(tokens_view(ts@), p as int, a).0,
        object_result(r.1) == p_object(tokens_view(ts@), p as int, a).1,
        p <= r.0 <= ts@.len() + 1,
        r.1 is Ok ==> p < r.0 < ts@.len(),
    decreases ts@.len() - p, 4int,
{
    let ghost tv = tokens_view(ts@);
    let p1 = if is_kind(tok_at(ts, p), TokKind::OpenCurly) {
        proof {
            lemma_tok(tv, p as int);
        }
        p + 1
    } else {
        p
    };
    if is_kind(tok_at(ts, p1), TokKind::CloseCurly) {
        proof {
            lemma_tok(tv, p1 as int);
        }
        let mut o = Object::new();
        o.set_allow_redefinition(a);
        return (p1 + 1, Ok(o));
    }
    let (q, res) = parse_fields(ts, p1, a);
    let fields = match res {
        Err(e) => {
            return (q, Err(e));
        },
        Ok(fields) => fields,
    };
    let c = tok_at(ts, q);
    if !is_kind(c, TokKind::CloseCurly) {
        return (q, Err(expected_error(c, Expected::CloseCurly)));
    }
    proof {
        lemma_tok(tv, q as int);
    }
    match build_object(fields, a) {
        Ok(o) => (q + 1, Ok(o)),
        Err(k) => (q + 1, Err(ErrorKind::Redefinition { key: k })),
    }
}

fn parse_top_field(ts: &Vec<Token>, p: usize, a: bool) -> (r: (usize, Result<(String, Value), ErrorKind>))
    requires
        readable(ts@),
        p <= ts@.len(),
    ensures
        r.0 == p_top_field(tokens_view(ts@), p as int, a).0,
        field_result(r.1) == p_top_field(tokens_view(ts@), p as int, a).1,
        p <= r.0 <= ts@.len() + 1,
        r.1 is Ok ==> p < r.0 < ts@.len(),
{
    let ghost tv = tokens_view(ts@);
    let (q, res) = parse_field(ts, p, a);
    match res {
        Ok(f) => {
            if is_kind(tok_at(ts, q), TokKind::Comma) {
                proof {
                    lemma_tok(tv, q as int);
                }
                (q + 1, Ok(f))
            } else {
                (q, Ok(f))
            }
        },
        Err(e) => (q, Err(e)),
    }
}

/// Reads a whole document from its tokens.
pub fn parse_document(ts: &Vec<Token>, a: bool) -> (r: (usize, Result<Object, ErrorKind>))
    requires
        readable(ts@),
    ensures
        r.0 == p_document(tokens_view(ts@), a).0,
        object_result(r.1) == p_document(tokens_view(ts@), a).1,
        r.0 <= ts@.len() + 2,
{
    let ghost tv = tokens_view(ts@);
    if is_kind(tok_at(ts, 0), TokKind::Eof) {
        let mut o = Object::new();
        o.set_allow_redefinition(a);
        return (0, Ok(o));
    }
    let (q, first) = parse_top_field(ts, 0, a);
    let f = match first {
        Err(e) => {
            return (q, Err(e));
        },
        Ok(f) => f,
    };
    let mut acc: Vec<(String, Value)> = Vec::new();
    acc.push(f);
    assert(fields_view(acc@) =~= seq![field_view(f)]);
    let mut cur = q;
    let ghost target = p_top_rest(tv, q as int, fields_view(acc@), a);
    let mut end: usize = 0;
    let mut fail: Option<ErrorKind> = None;
    loop
        invariant_except_break
            readable(ts@),
            tv == tokens_view(ts@),
            0 < cur < ts@.len(),
            p_top_rest(tv, cur as int, fields_view(acc@), a) == target,
            fail is None,
        ensures
            end <= ts@.len() + 1,
            match fail {
                None => target == (end as int, Ok::<Seq<(Seq<char>, ValueView)>, ErrorView>(
                    fields_view(acc@),
                )),
                Some(e) => target == (end as int, Err::<Seq<(Seq<char>, ValueView)>, ErrorView>(e@)),
            },
        decreases ts@.len() - cur,
    {
        let (q2, res) = parse_top_field(ts, cur, a);
        match res {
            Err(e) => {
                end = q2;
                if q2 != cur {
                    fail = Some(e);
                }
                break;
            },
            Ok(f) => {
                let ghost before = fields_view(acc@);
                acc.push(f);
                assert(fields_view(acc@) =~= before.push(field_view(f)));
                cur = q2;
            },
        }
    }
    if let Some(e) = fail {
        return (end, Err(e));
    }
    let c = tok_at(ts, end);
    if !is_kind(c, TokKind::Eof) {
        return (end, Err(expected_error(c, Expected::Eof)));
    }
    match build_object(acc, a) {
        Ok(o) => (end + 1, Ok(o)),
        Err(k) => (end + 1, Err(ErrorKind::Redefinition { key: k })),
    }
}

/// Reads an object's body from its tokens (the opening brace is optional).
pub fn parse_object_tokens(ts: &Vec<Token>, a: bool) -> (r: (usize, Result<Object, ErrorKind>))
    requires
        readable(ts@),
    ensures
        r.0 == p_object(tokens_view(ts@), 0, a).0,
        object_result(r.1) == p_object(tokens_view(ts@), 0, a).1,
        r.0 <= ts@.len() + 1,
{
    parse_object(ts, 0, a)
}

} // verus!
