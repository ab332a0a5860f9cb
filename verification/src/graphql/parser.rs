//! Recursive-descent parsing of GraphQL documents.
//!
//! The grammar is written below as spec functions over the token stream:
//! each takes the position where its construct starts and gives the
//! construct and the position after it, or the first error. The parser's
//! functions are proved to compute exactly these.

use vstd::prelude::*;
use vstd::string::StringExecFns;
use crate::format::{decimal, decimal_string};
use crate::graphql::ast::{
    args_view, entries_view, field_view, fields_view, opt_view, opt_value_view, type_view, value_view, values_view,
    var_defs_view, Argument, ArgumentView, Document, Field, FieldView, Operation, OperationType, OperationView, TypeRef,
    TypeView, Value, ValueView, VarDefView, VariableDefinition,
};
use crate::graphql::lexer::{lex, lex_spec, LexResult, TokKind, TokView, Token};
use crate::text::{owned, str_eq};

verus! {

/// A parsing error: what went wrong, and the character offset (or, for a
/// missing token at the end, zero) where it did.
pub struct ParseError {
    pub message: String,
    pub position: usize,
}

/// A parse error as plain values: message and position.
pub type PErr = (Seq<char>, int);

/// The tokens with their positions.
pub open spec fn toks(ts: Seq<Token>) -> Seq<(TokView, int)> {
    ts.map_values(|t: Token| (t.kind@, t.pos as int))
}

/// A signed integer in decimal.
pub open spec fn int_text(i: int) -> Seq<char> {
    if i < 0 {
        "-"@ + decimal((-i) as nat)
    } else {
        decimal(i as nat)
    }
}

/// How an error message names a token.
pub open spec fn describe(t: TokView) -> Seq<char> {
    match t {
        TokView::Name(n) => "'"@ + n + "'"@,
        TokView::Int(i) => int_text(i),
        TokView::Float(s) => s,
        TokView::Str(_) => "string"@,
        TokView::Bang => "'!'"@,
        TokView::Dollar => "'$'"@,
        TokView::LParen => "'('"@,
        TokView::RParen => "')'"@,
        TokView::Spread => "'...'"@,
        TokView::Colon => "':'"@,
        TokView::Eq => "'='"@,
        TokView::At => "'@'"@,
        TokView::LBracket => "'['"@,
        TokView::RBracket => "']'"@,
        TokView::LBrace => "'{'"@,
        TokView::RBrace => "'}'"@,
        TokView::Pipe => "'|'"@,
    }
}

/// The error for finding something other than `what` at `i`: the token
/// found and its position, or the end of input at position zero.
pub open spec fn found(what: Seq<char>, ts: Seq<(TokView, int)>, i: int) -> PErr {
    if 0 <= i < ts.len() {
        ("expected "@ + what + ", found "@ + describe(ts[i].0), ts[i].1)
    } else {
        ("expected "@ + what + ", found end of input"@, 0)
    }
}

/// Whether the token at `i` is `k`.
pub open spec fn is_kind(ts: Seq<(TokView, int)>, i: int, k: TokView) -> bool {
    0 <= i < ts.len() && ts[i].0 == k
}

/// The position after the token `k` expected at `i`.
pub open spec fn expect_s(ts: Seq<(TokView, int)>, i: int, k: TokView, what: Seq<char>) -> Result<int, PErr> {
    if is_kind(ts, i, k) {
        Ok(i + 1)
    } else {
        Err(found(what, ts, i))
    }
}

/// The name expected at `i`.
pub open spec fn name_s(ts: Seq<(TokView, int)>, i: int, what: Seq<char>) -> Result<Seq<char>, PErr> {
    if 0 <= i < ts.len() && ts[i].0 is Name {
        Ok(ts[i].0->Name_0)
    } else {
        Err(found(what, ts, i))
    }
}

/// The value a bare name stands for.
pub open spec fn name_value(n: Seq<char>) -> ValueView {
    if n == "true"@ {
        ValueView::Bool(true)
    } else if n == "false"@ {
        ValueView::Bool(false)
    } else if n == "null"@ {
        ValueView::Null
    } else {
        ValueView::Enum(n)
    }
}

/// The position of the first entry with key `k`, or -1.
pub open spec fn first_key(acc: Seq<(Seq<char>, ValueView)>, k: Seq<char>) -> int
    decreases acc.len(),
{
    if acc.len() == 0 {
        -1
    } else if acc[0].0 == k {
        0
    } else {
        let r = first_key(acc.drop_first(), k);
        if r < 0 {
            -1
        } else {
            r + 1
        }
    }
}

/// The entries with `k` bound to `v`: a present key's value is replaced in
/// place, a new key goes last.
pub open spec fn obj_insert(acc: Seq<(Seq<char>, ValueView)>, k: Seq<char>, v: ValueView) -> Seq<(Seq<char>, ValueView)> {
    let p = first_key(acc, k);
    if p < 0 {
        acc.push((k, v))
    } else {
        acc.update(p, (k, v))
    }
}

/// A value at `i`. (Every construct that parses moves past at least one
/// token; the branches guarded against the contrary are never taken.)
pub open spec fn value_s(ts: Seq<(TokView, int)>, i: int) -> Result<(ValueView, int), PErr>
    decreases ts.len() - i, 0int,
{
    if i < 0 || i >= ts.len() {
        Err(("expected value, found end of input"@, 0))
    } else {
        match ts[i].0 {
            TokView::Dollar => match name_s(ts, i + 1, "variable name"@) {
                Ok(n) => Ok((ValueView::Variable(n), i + 2)),
                Err(e) => Err(e),
            },
            TokView::Int(v) => Ok((ValueView::Int(v), i + 1)),
            TokView::Float(s) => Ok((ValueView::Float(s), i + 1)),
            TokView::Str(s) => Ok((ValueView::String(s), i + 1)),
            TokView::Name(n) => Ok((name_value(n), i + 1)),
            TokView::LBracket => list_s(ts, i + 1, Seq::empty()),
            TokView::LBrace => object_s(ts, i + 1, Seq::empty()),
            t => Err(("expected value"@ + ", found "@ + describe(t), ts[i].1)),
        }
    }
}

/// The items of a list from `i` up to its `]`, after the items `acc`.
pub open spec fn list_s(ts: Seq<(TokView, int)>, i: int, acc: Seq<ValueView>) -> Result<(ValueView, int), PErr>
    decreases ts.len() - i, 1int,
{
    if 0 <= i < ts.len() && ts[i].0 != TokView::RBracket {
        match value_s(ts, i) {
            Ok((v, j)) => if i < j <= ts.len() {
                list_s(ts, j, acc.push(v))
            } else {
                Err(found("']'"@, ts, i))
            },
            Err(e) => Err(e),
        }
    } else {
        match expect_s(ts, i, TokView::RBracket, "']'"@) {
            Ok(j) => Ok((ValueView::List(acc), j)),
            Err(e) => Err(e),
        }
    }
}

/// The entries of an object from `i` up to its `}`, after the entries
/// `acc`; a key is a name or a string.
pub open spec fn object_s(ts: Seq<(TokView, int)>, i: int, acc: Seq<(Seq<char>, ValueView)>) -> Result<
    (ValueView, int),
    PErr,
>
    decreases ts.len() - i, 1int,
{
    if 0 <= i < ts.len() && ts[i].0 != TokView::RBrace {
        let key = match ts[i].0 {
            TokView::Name(n) => Some(n),
            TokView::Str(s) => Some(s),
            _ => None,
        };
        match key {
            None => Err(("expected object key"@ + ", found "@ + describe(ts[i].0), ts[i].1)),
            Some(k) => match expect_s(ts, i + 1, TokView::Colon, "':'"@) {
                Err(e) => Err(e),
                Ok(j) => match value_s(ts, j) {
                    Err(e) => Err(e),
                    Ok((v, j2)) => if i < j2 <= ts.len() {
                        object_s(ts, j2, obj_insert(acc, k, v))
                    } else {
                        Err(found("'}'"@, ts, i))
                    },
                },
            },
        }
    } else {
        match expect_s(ts, i, TokView::RBrace, "'}'"@) {
            Ok(j) => Ok((ValueView::Object(acc), j)),
            Err(e) => Err(e),
        }
    }
}

/// `base`, made non-null when a `!` follows at `j`.
pub open spec fn bang_s(ts: Seq<(TokView, int)>, j: int, base: TypeView) -> (TypeView, int) {
    if is_kind(ts, j, TokView::Bang) {
        (TypeView::NonNull(Box::new(base)), j + 1)
    } else {
        (base, j)
    }
}

/// A type reference at `i`.
pub open spec fn type_s(ts: Seq<(TokView, int)>, i: int) -> Result<(TypeView, int), PErr>
    decreases ts.len() - i,
{
    if i < 0 || i >= ts.len() {
        Err(("expected type, found end of input"@, 0))
    } else {
        match ts[i].0 {
            TokView::Name(n) => Ok(bang_s(ts, i + 1, TypeView::Named(n))),
            TokView::LBracket => match type_s(ts, i + 1) {
                Err(e) => Err(e),
                Ok((inner, j)) => match expect_s(ts, j, TokView::RBracket, "']'"@) {
                    Err(e) => Err(e),
                    Ok(j2) => Ok(bang_s(ts, j2, TypeView::List(Box::new(inner)))),
                },
            },
            t => Err(("expected type"@ + ", found "@ + describe(t), ts[i].1)),
        }
    }
}

/// The variable definitions from `i` up to the `)`, after `acc`.
pub open spec fn var_defs_s(ts: Seq<(TokView, int)>, i: int, acc: Seq<VarDefView>) -> Result<(Seq<VarDefView>, int), PErr>
    decreases ts.len() - i,
{
    if 0 <= i < ts.len() && ts[i].0 != TokView::RParen {
        match expect_s(ts, i, TokView::Dollar, "'$'"@) {
            Err(e) => Err(e),
            Ok(j) => match name_s(ts, j, "variable name"@) {
                Err(e) => Err(e),
                Ok(n) => match expect_s(ts, j + 1, TokView::Colon, "':'"@) {
                    Err(e) => Err(e),
                    Ok(k) => match type_s(ts, k) {
                        Err(e) => Err(e),
                        Ok((t, k2)) => if is_kind(ts, k2, TokView::Eq) {
                            match value_s(ts, k2 + 1) {
                                Err(e) => Err(e),
                                Ok((v, k3)) => if i < k3 <= ts.len() {
                                    var_defs_s(ts, k3, acc.push(VarDefView { name: n, var_type: t, default: Some(v) }))
                                } else {
                                    Err(found("')'"@, ts, i))
                                },
                            }
                        } else if i < k2 <= ts.len() {
                            var_defs_s(ts, k2, acc.push(VarDefView { name: n, var_type: t, default: None }))
                        } else {
                            Err(found("')'"@, ts, i))
                        },
                    },
                },
            },
        }
    } else {
        match expect_s(ts, i, TokView::RParen, "')'"@) {
            Ok(j) => Ok((acc, j)),
            Err(e) => Err(e),
        }
    }
}

/// The arguments from `i` up to the `)`, after `acc`.
pub open spec fn args_s(ts: Seq<(TokView, int)>, i: int, acc: Seq<ArgumentView>) -> Result<(Seq<ArgumentView>, int), PErr>
    decreases ts.len() - i,
{
    if 0 <= i < ts.len() && ts[i].0 != TokView::RParen {
        match name_s(ts, i, "argument name"@) {
            Err(e) => Err(e),
            Ok(n) => match expect_s(ts, i + 1, TokView::Colon, "':'"@) {
                Err(e) => Err(e),
                Ok(j) => match value_s(ts, j) {
                    Err(e) => Err(e),
                    Ok((v, j2)) => if i < j2 <= ts.len() {
                        args_s(ts, j2, acc.push(ArgumentView { name: n, value: v }))
                    } else {
                        Err(found("')'"@, ts, i))
                    },
                },
            },
        }
    } else {
        match expect_s(ts, i, TokView::RParen, "')'"@) {
            Ok(j) => Ok((acc, j)),
            Err(e) => Err(e),
        }
    }
}

/// A selection set `{ ... }` at `i`.
pub open spec fn selection_s(ts: Seq<(TokView, int)>, i: int) -> Result<(Seq<FieldView>, int), PErr>
    decreases ts.len() - i, 2int,
{
    match expect_s(ts, i, TokView::LBrace, "'{'"@) {
        Err(e) => Err(e),
        Ok(j) => fields_s(ts, j, Seq::empty()),
    }
}

/// The fields from `i` up to the `}`, after `acc`; fragments and
/// directives are refused.
pub open spec fn fields_s(ts: Seq<(TokView, int)>, i: int, acc: Seq<FieldView>) -> Result<(Seq<FieldView>, int), PErr>
    decreases ts.len() - i, 1int,
{
    if 0 <= i < ts.len() && ts[i].0 != TokView::RBrace {
        if ts[i].0 == TokView::Spread {
            Err(("fragments are not supported"@, 0))
        } else if ts[i].0 == TokView::At {
            Err(("directives are not supported"@, 0))
        } else {
            match field_s(ts, i) {
                Err(e) => Err(e),
                Ok((f, j)) => if i < j <= ts.len() {
                    fields_s(ts, j, acc.push(f))
                } else {
                    Err(found("'}'"@, ts, i))
                },
            }
        }
    } else {
        match expect_s(ts, i, TokView::RBrace, "'}'"@) {
            Ok(j) => Ok((acc, j)),
            Err(e) => Err(e),
        }
    }
}

/// The alias, name and following position of a field starting with the
/// name `first` at `i`.
pub open spec fn alias_s(ts: Seq<(TokView, int)>, i: int, first: Seq<char>) -> Result<(Option<Seq<char>>, Seq<char>, int), PErr> {
    if is_kind(ts, i + 1, TokView::Colon) {
        let colon_pos = ts[i + 1].1;
        if i + 2 < ts.len() {
            match ts[i + 2].0 {
                TokView::Name(n) => Ok((Some(first), n, i + 3)),
                t => Err(("expected field name after alias"@ + ", found "@ + describe(t), colon_pos)),
            }
        } else {
            Err(("expected field name after alias, found end of input"@, colon_pos))
        }
    } else {
        Ok((None, first, i + 1))
    }
}

/// A field at `i`: a name, maybe an alias, arguments, a selection set.
pub open spec fn field_s(ts: Seq<(TokView, int)>, i: int) -> Result<(FieldView, int), PErr>
    decreases ts.len() - i, 0int,
{
    if i < 0 || i >= ts.len() {
        Err(("expected field name, found end of input"@, 0))
    } else {
        match ts[i].0 {
            TokView::Name(first) => match alias_s(ts, i, first) {
                Err(e) => Err(e),
                Ok((alias, name, j)) => {
                    let args = if is_kind(ts, j, TokView::LParen) {
                        args_s(ts, j + 1, Seq::empty())
                    } else {
                        Ok((Seq::empty(), j))
                    };
                    match args {
                        Err(e) => Err(e),
                        Ok((a, k)) => {
                            let sel = if is_kind(ts, k, TokView::LBrace) {
                                if i < k <= ts.len() {
                                    selection_s(ts, k)
                                } else {
                                    Err(found("'{'"@, ts, i))
                                }
                            } else {
                                Ok((Seq::empty(), k))
                            };
                            match sel {
                                Err(e) => Err(e),
                                Ok((s, k2)) => Ok(
                                    (FieldView { alias, name, arguments: a, selection_set: s }, k2),
                                ),
                            }
                        },
                    }
                },
            },
            t => Err(("expected field name"@ + ", found "@ + describe(t), ts[i].1)),
        }
    }
}

/// An operation's name at `j`, if a name is there, and the position after.
pub open spec fn op_name_s(ts: Seq<(TokView, int)>, j: int) -> (Option<Seq<char>>, int) {
    if 0 <= j < ts.len() && ts[j].0 is Name {
        (Some(ts[j].0->Name_0), j + 1)
    } else {
        (None, j)
    }
}

/// The kind, name and following position of the operation head at `i`.
pub open spec fn head_s(ts: Seq<(TokView, int)>, i: int) -> Result<(OperationType, Option<Seq<char>>, int), PErr> {
    let t = ts[i].0;
    if t == TokView::Name("query"@) {
        let (n, j) = op_name_s(ts, i + 1);
        Ok((OperationType::Query, n, j))
    } else if t == TokView::Name("mutation"@) {
        let (n, j) = op_name_s(ts, i + 1);
        Ok((OperationType::Mutation, n, j))
    } else if t == TokView::Name("subscription"@) {
        Err(("subscriptions are not supported"@, ts[i].1))
    } else if t == TokView::Name("fragment"@) {
        Err(("fragments are not supported"@, ts[i].1))
    } else if t == TokView::LBrace {
        Ok((OperationType::Query, None, i))
    } else {
        Err(("expected operation"@ + ", found "@ + describe(t), ts[i].1))
    }
}

/// An operation at `i`, a position holding a token.
pub open spec fn operation_s(ts: Seq<(TokView, int)>, i: int) -> Result<(OperationView, int), PErr> {
    match head_s(ts, i) {
        Err(e) => Err(e),
        Ok((ot, name, j)) => {
            let vars = if is_kind(ts, j, TokView::LParen) {
                var_defs_s(ts, j + 1, Seq::empty())
            } else {
                Ok((Seq::empty(), j))
            };
            match vars {
                Err(e) => Err(e),
                Ok((vs, k)) => match selection_s(ts, k) {
                    Err(e) => Err(e),
                    Ok((s, k2)) => Ok(
                        (
                            OperationView { operation_type: ot, name, variable_definitions: vs, selection_set: s },
                            k2,
                        ),
                    ),
                },
            }
        },
    }
}

/// The operations from `i` to the end, after `acc`; a document needs one.
pub open spec fn document_s(ts: Seq<(TokView, int)>, i: int, acc: Seq<OperationView>) -> Result<Seq<OperationView>, PErr>
    decreases ts.len() - i,
{
    if 0 <= i < ts.len() {
        match operation_s(ts, i) {
            Err(e) => Err(e),
            Ok((op, j)) => if i < j <= ts.len() {
                document_s(ts, j, acc.push(op))
            } else {
                Err(("empty document"@, 0))
            },
        }
    } else if acc.len() == 0 {
        Err(("empty document"@, 0))
    } else {
        Ok(acc)
    }
}

/// A whole document from its text: its tokens, then its operations.
pub open spec fn parse_spec(src: Seq<char>) -> Result<Seq<OperationView>, PErr> {
    match lex_spec(src) {
        LexResult::Fail(m, at) => Err((m, at)),
        LexResult::Tokens(ts) => document_s(ts, 0, Seq::empty()),
    }
}

/// Whether an error is the one the grammar gives.
pub open spec fn err_is(e: ParseError, pe: PErr) -> bool {
    e.message@ == pe.0 && e.position as int == pe.1
}

/// Token kinds without payload.
#[derive(Debug, Clone, Copy, PartialEq, Eq, Structural)]
enum Punct {
    Bang,
    Dollar,
    LParen,
    RParen,
    Colon,
    Eq,
    LBracket,
    RBracket,
    LBrace,
    RBrace,
}

spec fn punct_view(p: Punct) -> TokView {
    match p {
        Punct::Bang => TokView::Bang,
        Punct::Dollar => TokView::Dollar,
        Punct::LParen => TokView::LParen,
        Punct::RParen => TokView::RParen,
        Punct::Colon => TokView::Colon,
        Punct::Eq => TokView::Eq,
        Punct::LBracket => TokView::LBracket,
        Punct::RBracket => TokView::RBracket,
        Punct::LBrace => TokView::LBrace,
        Punct::RBrace => TokView::RBrace,
    }
}

/// Whether a token kind is the punctuator `p`.
fn kind_is(k: &TokKind, p: Punct) -> (b: bool)
    ensures
        b == (k@ == punct_view(p)),
{
    match (k, p) {
        (TokKind::Bang, Punct::Bang) => true,
        (TokKind::Dollar, Punct::Dollar) => true,
        (TokKind::LParen, Punct::LParen) => true,
        (TokKind::RParen, Punct::RParen) => true,
        (TokKind::Colon, Punct::Colon) => true,
        (TokKind::Eq, Punct::Eq) => true,
        (TokKind::LBracket, Punct::LBracket) => true,
        (TokKind::RBracket, Punct::RBracket) => true,
        (TokKind::LBrace, Punct::LBrace) => true,
        (TokKind::RBrace, Punct::RBrace) => true,
        _ => false,
    }
}

/// Whether the token at `i` is the punctuator `p`.
fn at(ts: &Vec<Token>, i: usize, p: Punct) -> (b: bool)
    ensures
        b == is_kind(toks(ts@), i as int, punct_view(p)),
{
    if i < ts.len() {
        kind_is(&ts[i].kind, p)
    } else {
        false
    }
}

/// A signed integer in decimal.
fn int_string(v: i64) -> (s: String)
    ensures
        s@ == int_text(v as int),
{
    if v < 0 {
        let mag: u64 = if v == i64::MIN {
            9223372036854775808
        } else {
            (-v) as u64
        };
        let mut s = owned("-");
        s.append(decimal_string(mag).as_str());
        s
    } else {
        decimal_string(v as u64)
    }
}

/// How an error message names a token.
fn describe_kind(k: &TokKind) -> (s: String)
    ensures
        s@ == describe(k@),
{
    match k {
        TokKind::Name(n) => {
            let mut s = owned("'");
            s.append(n.as_str());
            s.append("'");
            s
        },
        TokKind::Int(i) => int_string(*i),
        TokKind::Float(f) => f.clone(),
        TokKind::Str(_) => owned("string"),
        TokKind::Bang => owned("'!'"),
        TokKind::Dollar => owned("'$'"),
        TokKind::LParen => owned("'('"),
        TokKind::RParen => owned("')'"),
        TokKind::Spread => owned("'...'"),
        TokKind::Colon => owned("':'"),
        TokKind::Eq => owned("'='"),
        TokKind::At => owned("'@'"),
        TokKind::LBracket => owned("'['"),
        TokKind::RBracket => owned("']'"),
        TokKind::LBrace => owned("'{'"),
        TokKind::RBrace => owned("'}'"),
        TokKind::Pipe => owned("'|'"),
    }
}

/// The error for a token named `lead` that is not there: the token found
/// (`expected`-style when `lead` is "expected ..."), or the end of input.
fn error_found(ts: &Vec<Token>, i: usize, lead: &str, pos: usize) -> (e: ParseError)
    requires
        i < ts@.len(),
    ensures
        e.message@ == lead@ + ", found "@ + describe(ts@[i as int].kind@),
        e.position == pos,
{
    let mut m = owned(lead);
    m.append(", found ");
    m.append(describe_kind(&ts[i].kind).as_str());
    ParseError { message: m, position: pos }
}

/// The error for expecting `what` at `i`.
fn found_at(ts: &Vec<Token>, i: usize, what: &str) -> (e: ParseError)
    ensures
        err_is(e, found(what@, toks(ts@), i as int)),
{
    let mut lead = owned("expected ");
    lead.append(what);
    if i < ts.len() {
        let e = error_found(ts, i, lead.as_str(), ts[i].pos);
        assert(toks(ts@)[i as int] == (ts@[i as int].kind@, ts@[i as int].pos as int));
        e
    } else {
        lead.append(", found end of input");
        ParseError { message: lead, position: 0 }
    }
}

/// Consumes the punctuator `p` expected at `i`.
fn expect(ts: &Vec<Token>, i: usize, p: Punct, what: &str) -> (r: Result<usize, ParseError>)
    requires
        i <= ts@.len(),
    ensures
        match expect_s(toks(ts@), i as int, punct_view(p), what@) {
            Ok(j) => r matches Ok(j2) && j2 == j && j <= ts@.len(),
            Err(e) => r matches Err(x) && err_is(x, e),
        },
{
    let n = ts.len();
    if at(ts, i, p) {
        Ok(i + 1)
    } else {
        Err(found_at(ts, i, what))
    }
}

/// The name expected at `i`.
fn take_name(ts: &Vec<Token>, i: usize, what: &str) -> (r: Result<String, ParseError>)
    ensures
        match name_s(toks(ts@), i as int, what@) {
            Ok(n) => r matches Ok(s) && s@ == n,
            Err(e) => r matches Err(x) && err_is(x, e),
        },
{
    if i < ts.len() {
        match &ts[i].kind {
            TokKind::Name(n) => {
                return Ok(n.clone());
            },
            _ => {},
        }
    }
    Err(found_at(ts, i, what))
}

proof fn lemma_first_key_found(acc: Seq<(Seq<char>, ValueView)>, k: Seq<char>, idx: int)
    requires
        0 <= idx < acc.len(),
        acc[idx].0 == k,
        forall|j: int| 0 <= j < idx ==> acc[j].0 != k,
    ensures
        first_key(acc, k) == idx,
    decreases idx,
{
    if idx > 0 {
        lemma_first_key_found(acc.drop_first(), k, idx - 1);
    }
}

proof fn lemma_first_key_missing(acc: Seq<(Seq<char>, ValueView)>, k: Seq<char>)
    requires
        forall|j: int| 0 <= j < acc.len() ==> acc[j].0 != k,
    ensures
        first_key(acc, k) == -1,
    decreases acc.len(),
{
    if acc.len() > 0 {
        lemma_first_key_missing(acc.drop_first(), k);
    }
}

proof fn lemma_entries_view_index(s: Seq<(String, Value)>, j: int)
    requires
        0 <= j < s.len(),
    ensures
        entries_view(s).len() == s.len(),
        entries_view(s)[j] == (s[j].0@, value_view(s[j].1)),
    decreases s.len(),
{
    lemma_entries_view_len(s);
    if j < s.len() - 1 {
        lemma_entries_view_index(s.drop_last(), j);
    }
}

proof fn lemma_entries_view_len(s: Seq<(String, Value)>)
    ensures
        entries_view(s).len() == s.len(),
    decreases s.len(),
{
    if s.len() > 0 {
        lemma_entries_view_len(s.drop_last());
    }
}

proof fn lemma_entries_view_update(s: Seq<(String, Value)>, i: int, e: (String, Value))
    requires
        0 <= i < s.len(),
    ensures
        entries_view(s.update(i, e)) == entries_view(s).update(i, (e.0@, value_view(e.1))),
    decreases s.len(),
{
    lemma_entries_view_len(s);
    lemma_entries_view_len(s.update(i, e));
    if i < s.len() - 1 {
        assert(s.update(i, e).drop_last() =~= s.drop_last().update(i, e));
        lemma_entries_view_update(s.drop_last(), i, e);
        assert(entries_view(s.update(i, e)) =~= entries_view(s).update(i, (e.0@, value_view(e.1))));
    } else {
        assert(s.update(i, e).drop_last() =~= s.drop_last());
        assert(entries_view(s.update(i, e)) =~= entries_view(s).update(i, (e.0@, value_view(e.1))));
    }
}

/// Binds `k` to `v` among the entries of an object.
fn insert_entry(entries: &mut Vec<(String, Value)>, k: String, v: Value)
    ensures
        entries_view(final(entries)@) == obj_insert(entries_view(old(entries)@), k@, value_view(v)),
{
    let ghost ev = entries_view(entries@);
    proof {
        lemma_entries_view_len(entries@);
    }
    let mut idx: usize = 0;
    while idx < entries.len() && !str_eq(entries[idx].0.as_str(), k.as_str())
        invariant
            idx <= entries@.len(),
            ev == entries_view(entries@),
            ev.len() == entries@.len(),
            forall|j: int| 0 <= j < idx ==> ev[j].0 != k@,
        decreases entries@.len() - idx,
    {
        proof {
            lemma_entries_view_index(entries@, idx as int);
        }
        idx = idx + 1;
    }
    if idx < entries.len() {
        proof {
            lemma_entries_view_index(entries@, idx as int);
            lemma_first_key_found(ev, k@, idx as int);
            lemma_entries_view_update(entries@, idx as int, (k, v));
        }
        entries.set(idx, (k, v));
    } else {
        proof {
            lemma_first_key_missing(ev, k@);
        }
        let ghost before = entries@;
        entries.push((k, v));
        assert(entries@.drop_last() =~= before);
    }
}

/// A value at `i`.
fn parse_value(ts: &Vec<Token>, i: usize) -> (r: Result<(Value, usize), ParseError>)
    requires
        i <= ts@.len(),
    ensures
        match value_s(toks(ts@), i as int) {
            Ok((v, j)) => r matches Ok((x, j2)) && value_view(x) == v && j2 == j && i < j <= ts@.len(),
            Err(e) => r matches Err(x) && err_is(x, e),
        },
    decreases ts@.len() - i,
{
    let ghost t = toks(ts@);
    if i >= ts.len() {
        return Err(ParseError { message: owned("expected value, found end of input"), position: 0 });
    }
    assert(t[i as int] == (ts@[i as int].kind@, ts@[i as int].pos as int));
    match &ts[i].kind {
        TokKind::Dollar => {
            match take_name(ts, i + 1, "variable name") {
                Ok(n) => Ok((Value::Variable(n), i + 2)),
                Err(e) => Err(e),
            }
        },
        TokKind::Int(v) => Ok((Value::Int(*v), i + 1)),
        TokKind::Float(s) => Ok((Value::Float(s.clone()), i + 1)),
        TokKind::Str(s) => Ok((Value::String(s.clone()), i + 1)),
        TokKind::Name(n) => {
            proof {
                reveal_strlit("true");
                reveal_strlit("false");
                reveal_strlit("null");
            }
            if str_eq(n.as_str(), "true") {
                Ok((Value::Bool(true), i + 1))
            } else if str_eq(n.as_str(), "false") {
                Ok((Value::Bool(false), i + 1))
            } else if str_eq(n.as_str(), "null") {
                Ok((Value::Null, i + 1))
            } else {
                Ok((Value::Enum(n.clone()), i + 1))
            }
        },
        TokKind::LBracket => {
            let mut items: Vec<Value> = Vec::new();
            let mut k = i + 1;
            assert(values_view(items@) =~= Seq::<ValueView>::empty());
            while k < ts.len() && !kind_is(&ts[k].kind, Punct::RBracket)
                invariant
                    t == toks(ts@),
                    i < k <= ts@.len(),
                    value_s(t, i as int) == list_s(t, k as int, values_view(items@)),
                decreases ts@.len() - k,
            {
                assert(t[k as int] == (ts@[k as int].kind@, ts@[k as int].pos as int));
                match parse_value(ts, k) {
                    Err(e) => {
                        return Err(e);
                    },
                    Ok((v, j)) => {
                        let ghost before = items@;
                        items.push(v);
                        assert(items@.drop_last() =~= before);
                        k = j;
                    },
                }
            }
            match expect(ts, k, Punct::RBracket, "']'") {
                Ok(j) => Ok((Value::List(items), j)),
                Err(e) => Err(e),
            }
        },
        TokKind::LBrace => {
            let mut entries: Vec<(String, Value)> = Vec::new();
            let mut k = i + 1;
            assert(entries_view(entries@) =~= Seq::<(Seq<char>, ValueView)>::empty());
            while k < ts.len() && !kind_is(&ts[k].kind, Punct::RBrace)
                invariant
                    t == toks(ts@),
                    i < k <= ts@.len(),
                    value_s(t, i as int) == object_s(t, k as int, entries_view(entries@)),
                decreases ts@.len() - k,
            {
                assert(t[k as int] == (ts@[k as int].kind@, ts@[k as int].pos as int));
                let key = match &ts[k].kind {
                    TokKind::Name(n) => n.clone(),
                    TokKind::Str(s) => s.clone(),
                    _ => {
                        return Err(error_found(ts, k, "expected object key", ts[k].pos));
                    },
                };
                let j = match expect(ts, k + 1, Punct::Colon, "':'") {
                    Ok(j) => j,
                    Err(e) => {
                        return Err(e);
                    },
                };
                match parse_value(ts, j) {
                    Err(e) => {
                        return Err(e);
                    },
                    Ok((v, j2)) => {
                        insert_entry(&mut entries, key, v);
                        k = j2;
                    },
                }
            }
            match expect(ts, k, Punct::RBrace, "'}'") {
                Ok(j) => Ok((Value::Object(entries), j)),
                Err(e) => Err(e),
            }
        },
        _ => Err(error_found(ts, i, "expected value", ts[i].pos)),
    }
}

/// A type reference at `i`.
fn parse_type(ts: &Vec<Token>, i: usize) -> (r: Result<(TypeRef, usize), ParseError>)
    requires
        i <= ts@.len(),
    ensures
        match type_s(toks(ts@), i as int) {
            Ok((v, j)) => r matches Ok((x, j2)) && type_view(x) == v && j2 == j && i < j <= ts@.len(),
            Err(e) => r matches Err(x) && err_is(x, e),
        },
    decreases ts@.len() - i,
{
    let ghost t = toks(ts@);
    if i >= ts.len() {
        return Err(ParseError { message: owned("expected type, found end of input"), position: 0 });
    }
    assert(t[i as int] == (ts@[i as int].kind@, ts@[i as int].pos as int));
    let (base, j) = match &ts[i].kind {
        TokKind::Name(n) => (TypeRef::Named(n.clone()), i + 1),
        TokKind::LBracket => {
            match parse_type(ts, i + 1) {
                Err(e) => {
                    return Err(e);
                },
                Ok((inner, j)) => {
                    match expect(ts, j, Punct::RBracket, "']'") {
                        Err(e) => {
                            return Err(e);
                        },
                        Ok(j2) => (TypeRef::List(Box::new(inner)), j2),
                    }
                },
            }
        },
        _ => {
            return Err(error_found(ts, i, "expected type", ts[i].pos));
        },
    };
    let ghost bv = type_view(base);
    proof {
        assert(type_s(t, i as int) == Ok::<(TypeView, int), PErr>(bang_s(t, j as int, bv)));
    }
    if at(ts, j, Punct::Bang) {
        let r = TypeRef::NonNull(Box::new(base));
        assert(type_view(r) == TypeView::NonNull(Box::new(bv)));
        Ok((r, j + 1))
    } else {
        Ok((base, j))
    }
}

/// The variable definitions from `i` (just after the `(`) through the `)`.
fn parse_variable_definitions(ts: &Vec<Token>, i: usize) -> (r: Result<(Vec<VariableDefinition>, usize), ParseError>)
    requires
        i <= ts@.len(),
    ensures
        match var_defs_s(toks(ts@), i as int, Seq::empty()) {
            Ok((v, j)) => r matches Ok((x, j2)) && var_defs_view(x@) == v && j2 == j && i < j <= ts@.len(),
            Err(e) => r matches Err(x) && err_is(x, e),
        },
{
    let ghost t = toks(ts@);
    let mut defs: Vec<VariableDefinition> = Vec::new();
    let mut k = i;
    assert(var_defs_view(defs@) =~= Seq::<VarDefView>::empty());
    while k < ts.len() && !kind_is(&ts[k].kind, Punct::RParen)
        invariant
            t == toks(ts@),
            i <= k <= ts@.len(),
            var_defs_s(t, i as int, Seq::empty()) == var_defs_s(t, k as int, var_defs_view(defs@)),
        decreases ts@.len() - k,
    {
        assert(t[k as int] == (ts@[k as int].kind@, ts@[k as int].pos as int));
        let j = match expect(ts, k, Punct::Dollar, "'$'") {
            Ok(j) => j,
            Err(e) => {
                return Err(e);
            },
        };
        let name = match take_name(ts, j, "variable name") {
            Ok(n) => n,
            Err(e) => {
                return Err(e);
            },
        };
        let k1 = match expect(ts, j + 1, Punct::Colon, "':'") {
            Ok(k1) => k1,
            Err(e) => {
                return Err(e);
            },
        };
        let (var_type, k2) = match parse_type(ts, k1) {
            Ok(p) => p,
            Err(e) => {
                return Err(e);
            },
        };
        let ghost before = defs@;
        if at(ts, k2, Punct::Eq) {
            match parse_value(ts, k2 + 1) {
                Err(e) => {
                    return Err(e);
                },
                Ok((v, k3)) => {
                    defs.push(VariableDefinition { name, var_type, default: Some(v) });
                    assert(var_defs_view(defs@) =~= var_defs_view(before).push(var_defs_view(defs@).last()));
                    k = k3;
                },
            }
        } else {
            defs.push(VariableDefinition { name, var_type, default: None });
            assert(var_defs_view(defs@) =~= var_defs_view(before).push(var_defs_view(defs@).last()));
            k = k2;
        }
    }
    match expect(ts, k, Punct::RParen, "')'") {
        Ok(j) => Ok((defs, j)),
        Err(e) => Err(e),
    }
}

/// The arguments from `i` (just after the `(`) through the `)`.
fn parse_arguments(ts: &Vec<Token>, i: usize) -> (r: Result<(Vec<Argument>, usize), ParseError>)
    requires
        i <= ts@.len(),
    ensures
        match args_s(toks(ts@), i as int, Seq::empty()) {
            Ok((v, j)) => r matches Ok((x, j2)) && args_view(x@) == v && j2 == j && i < j <= ts@.len(),
            Err(e) => r matches Err(x) && err_is(x, e),
        },
{
    let ghost t = toks(ts@);
    let mut args: Vec<Argument> = Vec::new();
    let mut k = i;
    assert(args_view(args@) =~= Seq::<ArgumentView>::empty());
    while k < ts.len() && !kind_is(&ts[k].kind, Punct::RParen)
        invariant
            t == toks(ts@),
            i <= k <= ts@.len(),
            args_s(t, i as int, Seq::empty()) == args_s(t, k as int, args_view(args@)),
        decreases ts@.len() - k,
    {
        assert(t[k as int] == (ts@[k as int].kind@, ts@[k as int].pos as int));
        let name = match take_name(ts, k, "argument name") {
            Ok(n) => n,
            Err(e) => {
                return Err(e);
            },
        };
        let j = match expect(ts, k + 1, Punct::Colon, "':'") {
            Ok(j) => j,
            Err(e) => {
                return Err(e);
            },
        };
        match parse_value(ts, j) {
            Err(e) => {
                return Err(e);
            },
            Ok((v, j2)) => {
                let ghost before = args@;
                args.push(Argument { name, value: v });
                assert(args_view(args@) =~= args_view(before).push(args_view(args@).last()));
                k = j2;
            },
        }
    }
    match expect(ts, k, Punct::RParen, "')'") {
        Ok(j) => Ok((args, j)),
        Err(e) => Err(e),
    }
}

/// A selection set `{ ... }` at `i`.
fn parse_selection_set(ts: &Vec<Token>, i: usize) -> (r: Result<(Vec<Field>, usize), ParseError>)
    requires
        i <= ts@.len(),
    ensures
        match selection_s(toks(ts@), i as int) {
            Ok((v, j)) => r matches Ok((x, j2)) && fields_view(x@) == v && j2 == j && i < j <= ts@.len(),
            Err(e) => r matches Err(x) && err_is(x, e),
        },
    decreases ts@.len() - i, 1nat,
{
    let ghost t = toks(ts@);
    let j0 = match expect(ts, i, Punct::LBrace, "'{'") {
        Ok(j) => j,
        Err(e) => {
            return Err(e);
        },
    };
    let mut fields: Vec<Field> = Vec::new();
    let mut k = j0;
    assert(fields_view(fields@) =~= Seq::<FieldView>::empty());
    while k < ts.len() && !kind_is(&ts[k].kind, Punct::RBrace)
        invariant
            t == toks(ts@),
            i < k <= ts@.len(),
            selection_s(t, i as int) == fields_s(t, k as int, fields_view(fields@)),
        decreases ts@.len() - k,
    {
        assert(t[k as int] == (ts@[k as int].kind@, ts@[k as int].pos as int));
        match &ts[k].kind {
            TokKind::Spread => {
                return Err(ParseError { message: owned("fragments are not supported"), position: 0 });
            },
            TokKind::At => {
                return Err(ParseError { message: owned("directives are not supported"), position: 0 });
            },
            _ => {},
        }
        match parse_field(ts, k) {
            Err(e) => {
                return Err(e);
            },
            Ok((f, j)) => {
                let ghost before = fields@;
                fields.push(f);
                assert(fields@.drop_last() =~= before);
                k = j;
            },
        }
    }
    match expect(ts, k, Punct::RBrace, "'}'") {
        Ok(j) => Ok((fields, j)),
        Err(e) => Err(e),
    }
}

/// A field at `i`.
fn parse_field(ts: &Vec<Token>, i: usize) -> (r: Result<(Field, usize), ParseError>)
    requires
        i <= ts@.len(),
    ensures
        match field_s(toks(ts@), i as int) {
            Ok((v, j)) => r matches Ok((x, j2)) && field_view(x) == v && j2 == j && i < j <= ts@.len(),
            Err(e) => r matches Err(x) && err_is(x, e),
        },
    decreases ts@.len() - i, 0nat,
{
    let ghost t = toks(ts@);
    if i >= ts.len() {
        return Err(ParseError { message: owned("expected field name, found end of input"), position: 0 });
    }
    assert(t[i as int] == (ts@[i as int].kind@, ts@[i as int].pos as int));
    let first = match &ts[i].kind {
        TokKind::Name(n) => n.clone(),
        _ => {
            return Err(error_found(ts, i, "expected field name", ts[i].pos));
        },
    };
    let (alias, name, j) = if at(ts, i + 1, Punct::Colon) {
        let colon_pos = ts[i + 1].pos;
        assert(t[i + 1] == (ts@[i + 1].kind@, ts@[i + 1].pos as int));
        if i + 2 < ts.len() {
            assert(t[i + 2] == (ts@[i + 2].kind@, ts@[i + 2].pos as int));
            match &ts[i + 2].kind {
                TokKind::Name(n) => (Some(first), n.clone(), i + 3),
                _ => {
                    return Err(error_found(ts, i + 2, "expected field name after alias", colon_pos));
                },
            }
        } else {
            return Err(
                ParseError { message: owned("expected field name after alias, found end of input"), position: colon_pos },
            );
        }
    } else {
        (None, first, i + 1)
    };
    let (arguments, k) = if at(ts, j, Punct::LParen) {
        match parse_arguments(ts, j + 1) {
            Ok(p) => p,
            Err(e) => {
                return Err(e);
            },
        }
    } else {
        (Vec::new(), j)
    };
    let (selection_set, k2) = if at(ts, k, Punct::LBrace) {
        match parse_selection_set(ts, k) {
            Ok(p) => p,
            Err(e) => {
                return Err(e);
            },
        }
    } else {
        (Vec::new(), k)
    };
    let f = Field { alias, name, arguments, selection_set };
    proof {
        assert(args_view(f.arguments@) =~= args_view(arguments@));
        if !is_kind(t, j as int, TokView::LParen) {
            assert(args_view(f.arguments@) =~= Seq::<ArgumentView>::empty());
        }
        if !is_kind(t, k as int, TokView::LBrace) {
            assert(fields_view(f.selection_set@) =~= Seq::<FieldView>::empty());
        }
    }
    Ok((f, k2))
}

/// An operation at `i`, a position holding a token.
fn parse_operation(ts: &Vec<Token>, i: usize) -> (r: Result<(Operation, usize), ParseError>)
    requires
        i < ts@.len(),
    ensures
        match operation_s(toks(ts@), i as int) {
            Ok((v, j)) => r matches Ok((x, j2)) && crate::graphql::ast::operation_view(x) == v && j2 == j && i < j
                <= ts@.len(),
            Err(e) => r matches Err(x) && err_is(x, e),
        },
{
    let ghost t = toks(ts@);
    let n_tokens = ts.len();
    assert(t[i as int] == (ts@[i as int].kind@, ts@[i as int].pos as int));
    proof {
        reveal_strlit("query");
        reveal_strlit("mutation");
        reveal_strlit("subscription");
        reveal_strlit("fragment");
    }
    let (operation_type, name, j) = match &ts[i].kind {
        TokKind::Name(n) => {
            if str_eq(n.as_str(), "query") || str_eq(n.as_str(), "mutation") {
                let ot = if str_eq(n.as_str(), "query") {
                    OperationType::Query
                } else {
                    OperationType::Mutation
                };
                if i + 1 < ts.len() {
                    assert(t[i + 1] == (ts@[i + 1].kind@, ts@[i + 1].pos as int));
                    match &ts[i + 1].kind {
                        TokKind::Name(m) => (ot, Some(m.clone()), i + 2),
                        _ => (ot, None, i + 1),
                    }
                } else {
                    (ot, None, i + 1)
                }
            } else if str_eq(n.as_str(), "subscription") {
                return Err(ParseError { message: owned("subscriptions are not supported"), position: ts[i].pos });
            } else if str_eq(n.as_str(), "fragment") {
                return Err(ParseError { message: owned("fragments are not supported"), position: ts[i].pos });
            } else {
                return Err(error_found(ts, i, "expected operation", ts[i].pos));
            }
        },
        TokKind::LBrace => (OperationType::Query, None, i),
        _ => {
            return Err(error_found(ts, i, "expected operation", ts[i].pos));
        },
    };
    let (variable_definitions, k) = if at(ts, j, Punct::LParen) {
        match parse_variable_definitions(ts, j + 1) {
            Ok(p) => p,
            Err(e) => {
                return Err(e);
            },
        }
    } else {
        (Vec::new(), j)
    };
    let (selection_set, k2) = match parse_selection_set(ts, k) {
        Ok(p) => p,
        Err(e) => {
            return Err(e);
        },
    };
    let op = Operation { operation_type, name, variable_definitions, selection_set };
    proof {
        if !is_kind(t, j as int, TokView::LParen) {
            assert(var_defs_view(op.variable_definitions@) =~= Seq::<VarDefView>::empty());
        }
    }
    Ok((op, k2))
}

/// A recursive-descent parser over the tokens of a document.
pub struct Parser {
    tokens: Vec<Token>,
    cursor: usize,
}

impl Parser {
    /// Parses a complete document: its tokens, then one or more operations
    /// up to the end. The result is exactly what the grammar above gives.
    pub fn parse_document(input: &str) -> (r: Result<Document, ParseError>)
        ensures
            match parse_spec(input@) {
                Ok(ops) => r matches Ok(d) && crate::graphql::ast::document_view(d) == ops,
                Err(e) => r matches Err(x) && err_is(x, e),
            },
    {
        let lexed = lex(input);
        let tokens = match lexed {
            Ok(ts) => ts,
            Err(e) => {
                proof {
                    match lex_spec(input@) {
                        LexResult::Fail(m, at) => {
                            assert(e.message@ == m && e.position as int == at);
                        },
                        LexResult::Tokens(_) => {
                            assert(false);
                        },
                    }
                }
                return Err(e);
            },
        };
        let mut parser = Parser { tokens, cursor: 0 };
        let ghost t = toks(parser.tokens@);
        proof {
            match lex_spec(input@) {
                LexResult::Tokens(ts) => {
                    assert(ts == t);
                },
                LexResult::Fail(_, _) => {
                    assert(false);
                },
            }
        }
        let mut operations: Vec<Operation> = Vec::new();
        assert(operations@.map_values(|o: Operation| crate::graphql::ast::operation_view(o)) =~= Seq::<OperationView>::empty());
        while parser.cursor < parser.tokens.len()
            invariant
                t == toks(parser.tokens@),
                parse_spec(input@) == document_s(t, 0, Seq::empty()),
                parser.cursor <= parser.tokens@.len(),
                document_s(t, 0, Seq::empty()) == document_s(
                    t,
                    parser.cursor as int,
                    operations@.map_values(|o: Operation| crate::graphql::ast::operation_view(o)),
                ),
            decreases parser.tokens@.len() - parser.cursor,
        {
            match parse_operation(&parser.tokens, parser.cursor) {
                Err(e) => {
                    return Err(e);
                },
                Ok((op, j)) => {
                    let ghost before = operations@;
                    operations.push(op);
                    assert(operations@.map_values(|o: Operation| crate::graphql::ast::operation_view(o)) =~= before.map_values(
                        |o: Operation| crate::graphql::ast::operation_view(o),
                    ).push(crate::graphql::ast::operation_view(op)));
                    parser.cursor = j;
                },
            }
        }
        if operations.len() == 0 {
            return Err(ParseError { message: owned("empty document"), position: 0 });
        }
        Ok(Document { operations })
    }
}

} // verus!
