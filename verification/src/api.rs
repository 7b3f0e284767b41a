//! Reading GSS documents from text, and the errors that refuse one.
use vstd::prelude::*;

use crate::parser::{
    object_result, p_document, p_object, p_value, parse_document, parse_object_tokens, parse_value, readable,
    tok, tok_at, value_result, Expected, ErrorKind, ErrorView,
};
use crate::number::{decimal, push_decimal, IntError};
use crate::token::{lexed, tokenize, tokens_view, Token, TokenView};
use crate::laws::law_document_wf;
use crate::value::{Object, ObjectView, Value, DEFAULT_MAX_DEPTH};

verus! {

/// A parsed document: the object of its top-level fields.
pub type Gss = Object;

/// A refused document: where reading stopped, and why.
#[derive(Debug, PartialEq)]
pub struct GssError {
    pub file: String,
    pub line: usize,
    pub col: usize,
    pub kind: ErrorKind,
}

pub struct GssErrorView {
    pub file: Seq<char>,
    pub line: usize,
    pub col: usize,
    pub kind: ErrorView,
}

impl View for GssError {
    type V = GssErrorView;

    open spec fn view(&self) -> GssErrorView {
        GssErrorView { file: self.file@, line: self.line, col: self.col, kind: self.kind@ }
    }
}

/// What reading the tokens `ts` gives: the document's object, or the error
/// with the position of the token where reading stopped.
pub open spec fn spec_parse_tokens(file: Seq<char>, ts: Seq<TokenView>, a: bool) -> Result<
    ObjectView,
    GssErrorView,
> {
    let (q, r) = p_document(ts, a);
    match r {
        Ok(o) => Ok(o),
        Err(e) => Err(GssErrorView { file, line: tok(ts, q).line, col: tok(ts, q).col, kind: e }),
    }
}

/// What reading `source` gives.
pub open spec fn spec_parse(file: Seq<char>, source: Seq<char>, a: bool) -> Result<ObjectView, GssErrorView> {
    spec_parse_tokens(file, lexed(source), a)
}

/// What holds of every object that reading produces: no key twice, the
/// default depth limit, and the redefinition setting it was read with.
pub open spec fn read_object(o: ObjectView, a: bool) -> bool {
    o.wf() && o.allow_redefinition == a && o.max_depth == DEFAULT_MAX_DEPTH
}

pub open spec fn parse_result(r: Result<Object, GssError>) -> Result<ObjectView, GssErrorView> {
    match r {
        Ok(o) => Ok(o@),
        Err(e) => Err(e@),
    }
}

fn parse_tokens(file_path: &str, ts: &Vec<Token>, allow_redefinition: bool) -> (r: Result<Gss, GssError>)
    requires
        readable(ts@),
    ensures
        parse_result(r) == spec_parse_tokens(file_path@, tokens_view(ts@), allow_redefinition),
        r matches Ok(o) ==> read_object(o@, allow_redefinition),
{
    let (q, res) = parse_document(ts, allow_redefinition);
    proof {
        if res is Ok {
            law_document_wf(tokens_view(ts@), allow_redefinition);
        }
    }
    match res {
        Ok(o) => Ok(o),
        Err(kind) => {
            let t = tok_at(ts, q);
            Err(GssError { file: file_path.to_owned(), line: t.line, col: t.col, kind })
        },
    }
}

/// Reads a document; `file_path` names the source in the error.
pub fn parse_with_path(file_path: &str, source: &str, allow_redefinition: bool) -> (r: Result<
    Gss,
    GssError,
>)
    requires
        source@.len() + 5 <= usize::MAX,
    ensures
        parse_result(r) == spec_parse(file_path@, source@, allow_redefinition),
        r matches Ok(o) ==> read_object(o@, allow_redefinition),
{
    let ts = tokenize(source);
    parse_tokens(file_path, &ts, allow_redefinition)
}

/// Reads a document from its tokens, refusing redefined keys; `file_path`
/// names the source in the error.
pub fn internal_parse(file_path: &str, ts: &Vec<Token>) -> (r: Result<Gss, GssError>)
    requires
        readable(ts@),
    ensures
        parse_result(r) == spec_parse_tokens(file_path@, tokens_view(ts@), false),
        r matches Ok(o) ==> read_object(o@, false),
{
    parse_tokens(file_path, ts, false)
}

/// Reads a document from its tokens, refusing redefined keys; gives the
/// position where reading stopped.
pub fn internal_parse_gss(ts: &Vec<Token>) -> (r: (usize, Result<Gss, ErrorKind>))
    requires
        readable(ts@),
    ensures
        r.0 == p_document(tokens_view(ts@), false).0,
        object_result(r.1) == p_document(tokens_view(ts@), false).1,
{
    parse_document(ts, false)
}

/// Reads an object from its tokens (the opening brace may be left out),
/// refusing redefined keys; gives the position after it.
pub fn internal_parse_object(ts: &Vec<Token>) -> (r: (usize, Result<Object, ErrorKind>))
    requires
        readable(ts@),
    ensures
        r.0 == p_object(tokens_view(ts@), 0, false).0,
        object_result(r.1) == p_object(tokens_view(ts@), 0, false).1,
{
    parse_object_tokens(ts, false)
}

/// Reads one value from its tokens, refusing redefined keys in its objects;
/// gives the position after it.
pub fn internal_parse_value(ts: &Vec<Token>) -> (r: (usize, Result<Value, ErrorKind>))
    requires
        readable(ts@),
    ensures
        r.0 == p_value(tokens_view(ts@), 0, false).0,
        value_result(r.1) == p_value(tokens_view(ts@), 0, false).1,
{
    parse_value(ts, 0, false)
}

/// Reads a document; keys may not be defined twice in one object.
pub fn parse_str(source: &str) -> (r: Result<Gss, GssError>)
    requires
        source@.len() + 5 <= usize::MAX,
    ensures
        parse_result(r) == spec_parse("<input>"@, source@, false),
        r matches Ok(o) ==> read_object(o@, false),
{
    parse_str_with_options(source, false)
}

/// Reads a document; with `allow_redefinition`, a key defined again in the
/// same object takes the later value, else it is refused.
pub fn parse_str_with_options(source: &str, allow_redefinition: bool) -> (r: Result<Gss, GssError>)
    requires
        source@.len() + 5 <= usize::MAX,
    ensures
        parse_result(r) == spec_parse("<input>"@, source@, allow_redefinition),
        r matches Ok(o) ==> read_object(o@, allow_redefinition),
{
    parse_with_path("<input>", source, allow_redefinition)
}

/// Reads one object's body (its opening brace may be left out), refusing
/// redefined keys; what follows the closing brace is not read.
pub fn internal_parse_object_from_str(s: &str) -> (r: Result<Object, ErrorKind>)
    requires
        s@.len() + 5 <= usize::MAX,
    ensures
        match r {
            Ok(o) => p_object(lexed(s@), 0, false).1 == Ok::<ObjectView, ErrorView>(o@),
            Err(e) => p_object(lexed(s@), 0, false).1 == Err::<ObjectView, ErrorView>(e@),
        },
{
    let ts = tokenize(s);
    let (_, res) = parse_object_tokens(&ts, false);
    res
}

// ---------------------------------------------------------------------------
// Messages.

pub open spec fn expected_text(e: Expected) -> Seq<char> {
    match e {
        Expected::OpenBracket => "["@,
        Expected::CloseBracket => "]"@,
        Expected::CloseCurly => "}"@,
        Expected::Eq => "="@,
        Expected::Eof => "EOF"@,
        Expected::Identifier => "identifier"@,
    }
}

pub open spec fn int_error_text(e: IntError) -> Seq<char> {
    match e {
        IntError::Empty => "cannot parse integer from empty string"@,
        IntError::InvalidDigit => "invalid digit found in string"@,
        IntError::PosOverflow => "number too large to fit in target type"@,
    }
}

pub open spec fn error_text(k: ErrorView) -> Seq<char> {
    match k {
        ErrorView::Expected { expected, found } => "Expect "@ + expected_text(expected) + " got "@ + found,
        ErrorView::UnexpectedToken { kind_name, shown } => "Unexpect token `"@ + shown + "`"@,
        ErrorView::Integer(e) => int_error_text(e),
        ErrorView::InvalidReal => "invalid float literal"@,
        ErrorView::EndOfList => "End of list"@,
        ErrorView::Redefinition { key } => "Redefinition of key "@ + key,
    }
}

impl GssErrorView {
    /// `file:line:col: reason`.
    pub open spec fn message(self) -> Seq<char> {
        self.file + ":"@ + decimal(self.line as nat) + ":"@ + decimal(self.col as nat) + ": "@ + error_text(
            self.kind,
        )
    }
}

impl ErrorKind {
    /// The reason, in words.
    pub fn message(&self) -> (m: String)
        ensures
            m@ == error_text(self@),
    {
        let mut m = String::new();
        match self {
            ErrorKind::Expected { expected, found } => {
                m.append("Expect ");
                match expected {
                    Expected::OpenBracket => m.append("["),
                    Expected::CloseBracket => m.append("]"),
                    Expected::CloseCurly => m.append("}"),
                    Expected::Eq => m.append("="),
                    Expected::Eof => m.append("EOF"),
                    Expected::Identifier => m.append("identifier"),
                }
                m.append(" got ");
                m.append(found.as_str());
            },
            ErrorKind::UnexpectedToken { kind_name: _, shown } => {
                m.append("Unexpect token `");
                m.append(shown.as_str());
                m.append("`");
            },
            ErrorKind::Integer(e) => match e {
                IntError::Empty => m.append("cannot parse integer from empty string"),
                IntError::InvalidDigit => m.append("invalid digit found in string"),
                IntError::PosOverflow => m.append("number too large to fit in target type"),
            },
            ErrorKind::InvalidReal => m.append("invalid float literal"),
            ErrorKind::EndOfList => m.append("End of list"),
            ErrorKind::Redefinition { key } => {
                m.append("Redefinition of key ");
                m.append(key.as_str());
            },
        }
        m
    }
}

impl GssError {
    /// `file:line:col: reason`.
    pub fn message(&self) -> (m: String)
        ensures
            m@ == self@.message(),
    {
        let mut m = self.file.clone();
        m.append(":");
        push_decimal(&mut m, self.line);
        m.append(":");
        push_decimal(&mut m, self.col);
        m.append(": ");
        let reason = self.kind.message();
        m.append(reason.as_str());
        m
    }
}

} // verus!
