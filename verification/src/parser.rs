//! The token-stream parser: expression trees out of scanned tokens.
//!
//! Unlike the scanner, the parser fails wholesale: a token that fits no
//! grammar rule, or trailing tokens before the terminal `EOF`, fail the
//! whole parse and no tree is produced.  The grammar has no operators —
//! an expression is exactly one atom: a literal, an identifier, or a
//! bracketed, comma-separated array whose elements are expressions.
//!
//! As with the scanner, a mathematical model (`sp_parse_program` and
//! friends) defines the grammar over `Seq<SpecToken>`, and the
//! executable recursive-descent functions are proved to return exactly
//! what the model says.

use vstd::prelude::*;

use crate::seq_dv;
use crate::stream::Tokens;
use crate::token::{Color, MidiMsg, SpecToken, TimeMsg, Token};

verus! {

broadcast use vstd::seq::axiom_seq_index_decreases, vstd::std_specs::vec::axiom_vec_index_decreases, vstd::std_specs::vec::axiom_vec_decreases_to_view;

/// An identifier expression's name.
#[derive(Debug, PartialEq, Eq, Clone)]
pub struct Ident(pub String);

/// A literal expression: one literal-bearing token's payload.  Long
/// and double tokens have no literal form: the grammar rejects them.
#[derive(Debug, PartialEq, Clone)]
pub enum Literal {
    Int(i32),
    Float(String),
    Bool(bool),
    String(String),
    OscPath(String),
    Char(char),
    Color(Color),
    MidiMsg(MidiMsg),
    TimeMsg(TimeMsg),
}

/// An expression: one atom.
#[derive(Debug, PartialEq)]
pub enum Expr {
    Ident(Ident),
    Lit(Literal),
    Array(Vec<Expr>),
}

/// A statement: an expression statement.
#[derive(Debug, PartialEq)]
pub enum Stmt {
    ExprStmt(Expr),
}

/// A parsed line: its statements in order.
pub type Program = Vec<Stmt>;

/// The parser's wholesale failure.
#[derive(Debug, Clone, Copy, PartialEq, Eq, Structural)]
pub struct ParseFail;

/// The mathematical shape of a `Literal`.
pub enum SpecLiteral {
    Int(i32),
    Float(Seq<char>),
    Bool(bool),
    String(Seq<char>),
    OscPath(Seq<char>),
    Char(char),
    Color(Color),
    MidiMsg(MidiMsg),
    TimeMsg(TimeMsg),
}

/// The mathematical shape of an `Expr`.
pub enum SpecExpr {
    Ident(Seq<char>),
    Lit(SpecLiteral),
    Array(Seq<SpecExpr>),
}

/// The mathematical shape of a `Stmt`.
pub enum SpecStmt {
    ExprStmt(SpecExpr),
}

/// The model of one literal.
pub open spec fn lit_dv(l: Literal) -> SpecLiteral {
    match l {
        Literal::Int(n) => SpecLiteral::Int(n),
        Literal::Float(s) => SpecLiteral::Float(s@),
        Literal::Bool(b) => SpecLiteral::Bool(b),
        Literal::String(s) => SpecLiteral::String(s@),
        Literal::OscPath(s) => SpecLiteral::OscPath(s@),
        Literal::Char(c) => SpecLiteral::Char(c),
        Literal::Color(c) => SpecLiteral::Color(c),
        Literal::MidiMsg(m) => SpecLiteral::MidiMsg(m),
        Literal::TimeMsg(m) => SpecLiteral::TimeMsg(m),
    }
}

/// The model of one expression.
pub open spec fn expr_dv(e: Expr) -> SpecExpr
    decreases e, 0int,
{
    match e {
        Expr::Ident(id) => SpecExpr::Ident(id.0@),
        Expr::Lit(l) => SpecExpr::Lit(lit_dv(l)),
        Expr::Array(v) => SpecExpr::Array(expr_list_dv(v@, 0)),
    }
}

/// The models of the expressions of a list, from position `i` on.
pub open spec fn expr_list_dv(v: Seq<Expr>, i: int) -> Seq<SpecExpr>
    decreases v, v.len() - i + 1,
{
    if 0 <= i < v.len() {
        seq![expr_dv(v[i])] + expr_list_dv(v, i + 1)
    } else {
        Seq::empty()
    }
}

impl DeepView for Literal {
    type V = SpecLiteral;

    open spec fn deep_view(&self) -> SpecLiteral {
        lit_dv(*self)
    }
}

impl DeepView for Expr {
    type V = SpecExpr;

    open spec fn deep_view(&self) -> SpecExpr {
        expr_dv(*self)
    }
}

impl DeepView for Stmt {
    type V = SpecStmt;

    open spec fn deep_view(&self) -> SpecStmt {
        match self {
            Stmt::ExprStmt(e) => SpecStmt::ExprStmt(expr_dv(*e)),
        }
    }
}

/// The positional model of an expression list is its element-wise deep
/// view.
pub proof fn lemma_expr_list_dv(v: Seq<Expr>, i: int)
    requires
        0 <= i <= v.len(),
    ensures
        expr_list_dv(v, i) == seq_dv(v).subrange(i, v.len() as int),
    decreases v.len() - i,
{
    if i < v.len() {
        lemma_expr_list_dv(v, i + 1);
        assert(expr_list_dv(v, i) =~= seq_dv(v).subrange(i, v.len() as int));
    } else {
        assert(expr_list_dv(v, i) =~= seq_dv(v).subrange(i, v.len() as int));
    }
}

/// An array expression's model holds the element-wise views.
pub proof fn lemma_array_dv(v: Vec<Expr>)
    ensures
        expr_dv(Expr::Array(v)) == SpecExpr::Array(v.deep_view()),
{
    lemma_expr_list_dv(v@, 0);
    assert(seq_dv(v@).subrange(0, v@.len() as int) =~= seq_dv(v@));
    assert(v.deep_view() =~= seq_dv(v@));
}

// ---------------------------------------------------------------
// The grammar, as a model
// ---------------------------------------------------------------

/// One expression at `i`: a literal-bearing token, an identifier (the
/// reserved `Nil` and `Inf` count, re-expressed by name), or an array.
pub open spec fn sp_parse_expr(t: Seq<SpecToken>, i: int) -> Option<(SpecExpr, int)>
    decreases t.len() - i, 2int,
{
    if !(0 <= i < t.len()) {
        None
    } else {
        match t[i] {
            SpecToken::IntLiteral(n) => Some((SpecExpr::Lit(SpecLiteral::Int(n)), i + 1)),
            SpecToken::StringLiteral(s) => Some((SpecExpr::Lit(SpecLiteral::String(s)), i + 1)),
            SpecToken::FloatLiteral(s) => Some((SpecExpr::Lit(SpecLiteral::Float(s)), i + 1)),
            SpecToken::BoolLiteral(b) => Some((SpecExpr::Lit(SpecLiteral::Bool(b)), i + 1)),
            SpecToken::OSCPath(s) => Some((SpecExpr::Lit(SpecLiteral::OscPath(s)), i + 1)),
            SpecToken::Char(c) => Some((SpecExpr::Lit(SpecLiteral::Char(c)), i + 1)),
            SpecToken::Color(c) => Some((SpecExpr::Lit(SpecLiteral::Color(c)), i + 1)),
            SpecToken::MidiMessage(m) => Some((SpecExpr::Lit(SpecLiteral::MidiMsg(m)), i + 1)),
            SpecToken::TimeMsg(m) => Some((SpecExpr::Lit(SpecLiteral::TimeMsg(m)), i + 1)),
            SpecToken::Ident(nm) => Some((SpecExpr::Ident(nm), i + 1)),
            SpecToken::Nil => Some((SpecExpr::Ident("Nil"@), i + 1)),
            SpecToken::Inf => Some((SpecExpr::Ident("Inf"@), i + 1)),
            SpecToken::LBracket => {
                match sp_parse_elems(t, i + 1) {
                    Some((es, j)) => {
                        if 0 <= j < t.len() && t[j] is RBracket {
                            Some((SpecExpr::Array(es), j + 1))
                        } else {
                            None
                        }
                    },
                    None => {
                        if i + 1 < t.len() && t[i + 1] is RBracket {
                            Some((SpecExpr::Array(Seq::empty()), i + 2))
                        } else {
                            None
                        }
                    },
                }
            },
            _ => None,
        }
    }
}

/// A non-empty, comma-separated expression list at `i`.
pub open spec fn sp_parse_elems(t: Seq<SpecToken>, i: int) -> Option<(Seq<SpecExpr>, int)>
    decreases t.len() - i, 3int,
{
    match sp_parse_expr(t, i) {
        Some((e, j)) => {
            if i < j <= t.len() {
                let (es, k) = sp_parse_more(t, j);
                Some((seq![e] + es, k))
            } else {
                None
            }
        },
        None => None,
    }
}

/// Zero or more `, expression` continuations at `j`.  A comma not
/// followed by an expression is left unconsumed.
pub open spec fn sp_parse_more(t: Seq<SpecToken>, j: int) -> (Seq<SpecExpr>, int)
    decreases t.len() - j, 1int,
{
    if 0 <= j < t.len() && t[j] is Comma {
        match sp_parse_expr(t, j + 1) {
            Some((e, k)) => {
                if j + 1 < k <= t.len() {
                    let (es, m) = sp_parse_more(t, k);
                    (seq![e] + es, m)
                } else {
                    (Seq::empty(), j)
                }
            },
            None => (Seq::empty(), j),
        }
    } else {
        (Seq::empty(), j)
    }
}

/// Statements, one per expression, until no expression parses.
pub open spec fn sp_parse_stmts(t: Seq<SpecToken>, i: int) -> (Seq<SpecStmt>, int)
    decreases t.len() - i, 3int,
{
    match sp_parse_expr(t, i) {
        Some((e, j)) => {
            if i < j <= t.len() {
                let (ss, k) = sp_parse_stmts(t, j);
                (seq![SpecStmt::ExprStmt(e)] + ss, k)
            } else {
                (Seq::empty(), i)
            }
        },
        None => (Seq::empty(), i),
    }
}

/// The whole parse: statements, then the mandatory terminal `EOF`.
/// `None` is the wholesale failure.
pub open spec fn sp_parse_program(t: Seq<SpecToken>) -> Option<Seq<SpecStmt>> {
    let (ss, k) = sp_parse_stmts(t, 0);
    if 0 <= k < t.len() && t[k] is EOF {
        Some(ss)
    } else {
        None
    }
}

/// A successful expression parse always consumes at least one token
/// and stays within the stream; the continuation parsers never move
/// backwards.
pub proof fn lemma_parse_progress(t: Seq<SpecToken>, i: int)
    ensures
        sp_parse_expr(t, i) matches Some(p) ==> i < p.1 <= t.len(),
        sp_parse_elems(t, i) matches Some(p) ==> i < p.1 <= t.len(),
        0 <= i <= t.len() ==> i <= sp_parse_more(t, i).1 <= t.len(),
        0 <= i <= t.len() ==> i <= sp_parse_stmts(t, i).1 <= t.len(),
    decreases t.len() - i, 4int,
{
    if 0 <= i < t.len() {
        if t[i] is LBracket {
            lemma_parse_progress(t, i + 1);
        }
        if t[i] is Comma {
            lemma_parse_progress(t, i + 1);
            match sp_parse_expr(t, i + 1) {
                Some((e, k)) => {
                    if i + 1 < k <= t.len() {
                        lemma_parse_progress(t, k);
                    }
                },
                None => {
                },
            }
        }
    }
    match sp_parse_expr(t, i) {
        Some((e, j)) => {
            if i < j <= t.len() {
                lemma_parse_progress(t, j);
            }
        },
        None => {
        },
    }
}

// ---------------------------------------------------------------
// The executable parser
// ---------------------------------------------------------------

/// One expression at `i`, exactly as the model parses it.
fn parse_expr_at(toks: &[Token], i: usize) -> (r: Option<(Expr, usize)>)
    requires
        i <= toks@.len(),
    ensures
        ({
            let m = sp_parse_expr(seq_dv(toks@), i as int);
            match m {
                Some((se, sj)) => r matches Some(p) && p.0.deep_view() == se && p.1 as int == sj
                    && i < p.1 <= toks@.len(),
                None => r is None,
            }
        }),
    decreases toks@.len() - i, 2int,
{
    let n = toks.len();
    if i >= n {
        return None;
    }
    proof {
        assert(seq_dv(toks@)[i as int] == toks@[i as int].deep_view());
    }
    let t = vstd::slice::slice_index_get(toks, i);
    match t {
        Token::IntLiteral(v) => Some((Expr::Lit(Literal::Int(*v)), i + 1)),
        Token::StringLiteral(s) => Some((Expr::Lit(Literal::String(s.clone())), i + 1)),
        Token::FloatLiteral(s) => Some((Expr::Lit(Literal::Float(s.clone())), i + 1)),
        Token::BoolLiteral(b) => Some((Expr::Lit(Literal::Bool(*b)), i + 1)),
        Token::OSCPath(s) => Some((Expr::Lit(Literal::OscPath(s.clone())), i + 1)),
        Token::Char(c) => Some((Expr::Lit(Literal::Char(*c)), i + 1)),
        Token::Color(c) => Some((Expr::Lit(Literal::Color(*c)), i + 1)),
        Token::MidiMessage(m) => Some((Expr::Lit(Literal::MidiMsg(*m)), i + 1)),
        Token::TimeMsg(m) => Some((Expr::Lit(Literal::TimeMsg(*m)), i + 1)),
        Token::Ident(nm) => Some((Expr::Ident(Ident(nm.clone())), i + 1)),
        Token::Nil => Some((Expr::Ident(Ident(String::from_str("Nil"))), i + 1)),
        Token::Inf => Some((Expr::Ident(Ident(String::from_str("Inf"))), i + 1)),
        Token::LBracket => {
            match parse_elems_at(toks, i + 1) {
                Some((es, j)) => {
                    if j < n {
                        let t2 = vstd::slice::slice_index_get(toks, j);
                        proof {
                            assert(seq_dv(toks@)[j as int] == toks@[j as int].deep_view());
                        }
                        if let Token::RBracket = t2 {
                            let e = Expr::Array(es);
                            proof {
                                lemma_array_dv(e->Array_0);
                            }
                            Some((e, j + 1))
                        } else {
                            None
                        }
                    } else {
                        None
                    }
                },
                None => {
                    if i + 1 < n {
                        let t2 = vstd::slice::slice_index_get(toks, i + 1);
                        proof {
                            assert(seq_dv(toks@)[i as int + 1] == toks@[i as int
                                + 1].deep_view());
                        }
                        if let Token::RBracket = t2 {
                            let e = Expr::Array(Vec::new());
                            proof {
                                lemma_array_dv(e->Array_0);
                                assert(e.deep_view() == SpecExpr::Array(
                                    Seq::<SpecExpr>::empty(),
                                ));
                            }
                            Some((e, i + 2))
                        } else {
                            None
                        }
                    } else {
                        None
                    }
                },
            }
        },
        _ => None,
    }
}

/// The `, expression` continuations at `j`, exactly as the model
/// parses them.
fn parse_more_at(toks: &[Token], j: usize) -> (r: (Vec<Expr>, usize))
    requires
        j <= toks@.len(),
    ensures
        ({
            let m = sp_parse_more(seq_dv(toks@), j as int);
            &&& r.0.deep_view() == m.0
            &&& r.1 as int == m.1
            &&& j <= r.1 <= toks@.len()
        }),
    decreases toks@.len() - j, 1int,
{
    let n = toks.len();
    if j < n {
        proof {
            assert(seq_dv(toks@)[j as int] == toks@[j as int].deep_view());
        }
        let t = vstd::slice::slice_index_get(toks, j);
        if let Token::Comma = t {
            match parse_expr_at(toks, j + 1) {
                Some((e, k)) => {
                    let (mut es, m2) = parse_more_at(toks, k);
                    let mut out: Vec<Expr> = Vec::new();
                    let ghost es0 = es.deep_view();
                    let ghost ev = e.deep_view();
                    out.push(e);
                    out.append(&mut es);
                    proof {
                        assert(out.deep_view() =~= seq![ev] + es0);
                    }
                    (out, m2)
                },
                None => (Vec::new(), j),
            }
        } else {
            (Vec::new(), j)
        }
    } else {
        (Vec::new(), j)
    }
}

/// A non-empty expression list at `i`, exactly as the model parses it.
fn parse_elems_at(toks: &[Token], i: usize) -> (r: Option<(Vec<Expr>, usize)>)
    requires
        i <= toks@.len(),
    ensures
        ({
            let m = sp_parse_elems(seq_dv(toks@), i as int);
            match m {
                Some((ses, sj)) => r matches Some(p) && p.0.deep_view() == ses && p.1 as int
                    == sj && i < p.1 <= toks@.len(),
                None => r is None,
            }
        }),
    decreases toks@.len() - i, 3int,
{
    match parse_expr_at(toks, i) {
        Some((e, j)) => {
            let (mut es, k) = parse_more_at(toks, j);
            let mut out: Vec<Expr> = Vec::new();
            let ghost es0 = es.deep_view();
            let ghost ev = e.deep_view();
            out.push(e);
            out.append(&mut es);
            proof {
                assert(out.deep_view() =~= seq![ev] + es0);
            }
            Some((out, k))
        },
        None => None,
    }
}

/// Statements until no expression parses, exactly as the model does.
fn parse_stmts_at(toks: &[Token], i: usize) -> (r: (Vec<Stmt>, usize))
    requires
        i <= toks@.len(),
    ensures
        ({
            let m = sp_parse_stmts(seq_dv(toks@), i as int);
            &&& r.0.deep_view() == m.0
            &&& r.1 as int == m.1
            &&& i <= r.1 <= toks@.len()
        }),
    decreases toks@.len() - i, 3int,
{
    match parse_expr_at(toks, i) {
        Some((e, j)) => {
            let (mut ss, k) = parse_stmts_at(toks, j);
            let mut out: Vec<Stmt> = Vec::new();
            let ghost ss0 = ss.deep_view();
            let s = Stmt::ExprStmt(e);
            let ghost sv = s.deep_view();
            out.push(s);
            out.append(&mut ss);
            proof {
                assert(out.deep_view() =~= seq![sv] + ss0);
            }
            (out, k)
        },
        None => (Vec::new(), i),
    }
}

/// The parser.
pub struct Parser;

impl Parser {
    /// Parses a whole token stream into its program, or fails
    /// wholesale: the result is `Ok` exactly when the model parses the
    /// stream, and then holds exactly the model's statements.
    pub fn parse_tokens(tokens: Tokens<'_>) -> (r: Result<Program, ParseFail>)
        ensures
            ({
                let m = sp_parse_program(tokens.deep_view());
                match m {
                    Some(ss) => r matches Ok(p) && p.deep_view() == ss,
                    None => r matches Err(f) && f == ParseFail,
                }
            }),
    {
        let (ss, k) = parse_stmts_at(tokens.tok, 0);
        let n = tokens.tok.len();
        if k < n {
            proof {
                assert(seq_dv(tokens.tok@)[k as int] == tokens.tok@[k as int].deep_view());
            }
            let t = vstd::slice::slice_index_get(tokens.tok, k);
            if let Token::EOF = t {
                return Ok(ss);
            }
        }
        Err(ParseFail)
    }
}

} // verus!
