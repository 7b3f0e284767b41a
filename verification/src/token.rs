//! Tokens of GSS source text, as produced by the `lex_just_parse` lexer.
//!
//! The lexer itself is an outside component: this module declares it, names
//! the token stream it produces, and drains that stream into a `Vec` with a
//! verified loop.
use vstd::prelude::*;

use lex_just_parse::lexer::Lexer;
use lex_just_parse::lexer::TokenKind as K;

verus! {

/// The kinds of token that the GSS grammar distinguishes.  Every other kind
/// the lexer knows is `Other`.
#[derive(Clone, Copy, Debug, PartialEq, Eq, Structural)]
pub enum TokKind {
    Eof,
    Identifier,
    /// A single `=`.
    Assign,
    Comma,
    Dot,
    OpenCurly,
    CloseCurly,
    OpenBracket,
    CloseBracket,
    /// A single `%`.
    Mod,
    /// An integer literal; the field is its radix (2, 8, 10 or 16).
    Number(u32),
    RealNumber,
    StringLiteral,
    Other,
}

/// One token: its kind, its source text (for integer literals in another
/// base than ten, the digits after the prefix), the lexer's name of its kind,
/// how the lexer displays it, and where it starts.
#[derive(Debug, PartialEq)]
pub struct Token {
    pub kind: TokKind,
    pub text: String,
    pub kind_name: String,
    pub shown: String,
    pub line: usize,
    pub col: usize,
}

/// The mathematical value of a [`Token`].
pub struct TokenView {
    pub kind: TokKind,
    pub text: Seq<char>,
    pub kind_name: Seq<char>,
    pub shown: Seq<char>,
    pub line: usize,
    pub col: usize,
}

impl View for Token {
    type V = TokenView;

    open spec fn view(&self) -> TokenView {
        TokenView {
            kind: self.kind,
            text: self.text@,
            kind_name: self.kind_name@,
            shown: self.shown@,
            line: self.line,
            col: self.col,
        }
    }
}

pub open spec fn tokens_view(ts: Seq<Token>) -> Seq<TokenView> {
    ts.map_values(|t: Token| t@)
}

/// The radixes the lexer knows for integer literals.
pub open spec fn known_radix(r: u32) -> bool {
    r == 2 || r == 8 || r == 10 || r == 16
}

/// A token stream as the lexer delivers it: at least one token, the last one
/// and only the last one is the end of input, and integer literals are in a
/// known radix.
pub open spec fn wf_tokens(ts: Seq<TokenView>) -> bool {
    &&& ts.len() >= 1
    &&& ts.last().kind == TokKind::Eof
    &&& forall|i: int| 0 <= i < ts.len() - 1 ==> #[trigger] ts[i].kind != TokKind::Eof
    &&& forall|i: int|
        0 <= i < ts.len() ==> (#[trigger] ts[i].kind matches TokKind::Number(r) ==> known_radix(r))
}

#[verifier::external_type_specification]
#[verifier::external_body]
pub struct ExLexer<'a>(Lexer<'a>);

/// The tokens that `lex_just_parse::lexer::Lexer` yields on `source`, up to
/// and including the first end-of-input token.
pub uninterp spec fn lexed(source: Seq<char>) -> Seq<TokenView>;

/// The tokens that a lexer will still yield, up to and including the next
/// end-of-input token.
pub uninterp spec fn pending_tokens(lexer: Lexer<'_>) -> Seq<TokenView>;

/// The string that `lex_just_parse::lexer::token_string_unescape` makes of a
/// quoted literal's source text.
pub uninterp spec fn unescaped(text: Seq<char>) -> Seq<char>;

/// Calls `Lexer::new`.  Claims: the new lexer will yield exactly `lexed(source)`;
/// that sequence is non-empty, ends with the end-of-input token and holds no
/// other one, its integer literals are in radix 2, 8, 10 or 16 (what
/// `NumberBase::radix` returns), and it is at most one longer than the source
/// has characters (every token before the end of input consumes at least one
/// character).
#[verifier::external_body]
fn new_lexer<'a>(source: &'a str) -> (lexer: Lexer<'a>)
    ensures
        pending_tokens(lexer) == lexed(source@),
        wf_tokens(pending_tokens(lexer)),
        pending_tokens(lexer).len() <= source@.len() + 1,
{
    Lexer::new("<input>", source)
}

/// Calls `Lexer::next_token` and converts the token: kinds the grammar uses
/// are told apart, the text is copied, the kind's name is its `Debug` form,
/// and the token's `Display` form is kept.  Claims: the token returned is
/// the first pending one, and unless it is the end of input it is consumed.
/// Nothing is claimed of the lexer after it has yielded the end of input.
#[verifier::external_body]
fn next_token(lexer: &mut Lexer<'_>) -> (t: Token)
    requires
        pending_tokens(*old(lexer)).len() > 0,
    ensures
        t@ == pending_tokens(*old(lexer))[0],
        t@.kind != TokKind::Eof ==> pending_tokens(*final(lexer)) == pending_tokens(*old(lexer)).drop_first(),
{
    let t = lexer.next_token();
    let kind = match t.kind {
        K::EOF => TokKind::Eof, K::Identifier => TokKind::Identifier, K::Assign => TokKind::Assign,
        K::Comma => TokKind::Comma, K::Dot => TokKind::Dot, K::Mod => TokKind::Mod,
        K::OpenCurly => TokKind::OpenCurly, K::CloseCurly => TokKind::CloseCurly,
        K::OpenBracket => TokKind::OpenBracket, K::CloseBracket => TokKind::CloseBracket,
        K::Number(b) => TokKind::Number(b.radix()), K::RealNumber => TokKind::RealNumber,
        K::StringLiteral => TokKind::StringLiteral, _ => TokKind::Other,
    };
    let (text, kind_name, shown) = (t.source().to_string(), format!("{:?}", t.kind), format!("{t}"));
    Token { kind, text, kind_name, shown, line: t.loc.line, col: t.loc.col }
}

/// Calls `lex_just_parse::lexer::token_string_unescape`.  Claims: the result
/// is `unescaped` of the literal's text.
#[verifier::external_body]
pub(crate) fn unescape_literal(text: &str) -> (s: String)
    ensures
        s@ == unescaped(text@),
{
    lex_just_parse::lexer::token_string_unescape(text)
}

/// Splits `source` into tokens: exactly the lexer's token stream, ending with
/// the end-of-input token.
pub fn tokenize(source: &str) -> (ts: Vec<Token>)
    ensures
        tokens_view(ts@) == lexed(source@),
        wf_tokens(tokens_view(ts@)),
        ts@.len() <= source@.len() + 1,
{
    let mut lexer = new_lexer(source);
    let mut ts: Vec<Token> = Vec::new();
    let ghost all = lexed(source@);
    loop
        invariant_except_break
            tokens_view(ts@) + pending_tokens(lexer) == all,
            wf_tokens(pending_tokens(lexer)),
        ensures
            tokens_view(ts@) == all,
        decreases pending_tokens(lexer).len(),
    {
        let ghost before = pending_tokens(lexer);
        let t = next_token(&mut lexer);
        let at_end = match t.kind {
            TokKind::Eof => true,
            _ => false,
        };
        let ghost old_ts = ts@;
        ts.push(t);
        proof {
            assert(tokens_view(ts@) =~= tokens_view(old_ts).push(t@));
            assert(before =~= seq![before[0]] + before.drop_first());
            if at_end {
                assert(before.len() == 1) by {
                    if before.len() > 1 {
                        assert(before[0].kind != TokKind::Eof);
                    }
                }
                assert(tokens_view(ts@) =~= all);
            } else {
                assert(before.len() > 1);
                assert(tokens_view(ts@) + pending_tokens(lexer) =~= all);
                let rest = pending_tokens(lexer);
                assert forall|i: int| 0 <= i < rest.len() - 1 implies #[trigger] rest[i].kind
                    != TokKind::Eof by {
                    assert(rest[i] == before[i + 1]);
                }
                assert forall|i: int| 0 <= i < rest.len() implies (#[trigger] rest[i].kind matches TokKind::Number(
                    r,
                ) ==> known_radix(r)) by {
                    assert(rest[i] == before[i + 1]);
                }
            }
        }
        if at_end {
            break;
        }
    }
    proof {
        assert(tokens_view(ts@).len() == ts@.len());
    }
    ts
}

} // verus!
