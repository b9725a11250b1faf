//! The per-line decision the interactive loop runs on: scan, parse,
//! and either hand back a protocol-ready packet, report that the line
//! does not begin with an OSC address, or hand back the collected
//! diagnostics.
//!
//! The first statement of a well-formed line must be an address
//! literal; the remaining statements lower to the argument list in
//! order.  A line with lexical diagnostics, or one the parser rejects
//! wholesale, yields its diagnostics instead (possibly none, for a
//! bare structural failure).

use vstd::prelude::*;

use crate::diag::{Error, SpecDiag};
use crate::lexer::{sp_scan, Lexer};
use crate::lower::{parse_message, sp_lower, SpecWire, WireValue};
use crate::parser::{sp_parse_program, Expr, Literal, Parser, SpecExpr, SpecLiteral, SpecStmt, Stmt};
use crate::stream::Tokens;

verus! {

broadcast use vstd::seq::axiom_seq_index_decreases, vstd::std_specs::vec::axiom_vec_index_decreases, vstd::std_specs::vec::axiom_vec_decreases_to_view;

/// What one line of input becomes.
#[derive(Debug, PartialEq)]
pub enum Outcome {
    /// A protocol-ready message: the address and its argument values.
    Packet(String, Vec<WireValue>),
    /// The line parsed but its first expression is not an address
    /// literal.
    AddressError,
    /// The line's lexical diagnostics; empty for a bare structural
    /// parse failure.
    Diagnostics(Vec<Error>),
}

/// The mathematical shape of an `Outcome`.
pub enum SpecOutcome {
    Packet(Seq<char>, Seq<SpecWire>),
    AddressError,
    Diagnostics(Seq<SpecDiag>),
}

impl DeepView for Outcome {
    type V = SpecOutcome;

    open spec fn deep_view(&self) -> SpecOutcome {
        match self {
            Outcome::Packet(p, args) => SpecOutcome::Packet(p@, args.deep_view()),
            Outcome::AddressError => SpecOutcome::AddressError,
            Outcome::Diagnostics(errs) => SpecOutcome::Diagnostics(errs.deep_view()),
        }
    }
}

/// Element-wise lowering of the statements from position `i` on.
pub open spec fn sp_lower_stmts(ss: Seq<SpecStmt>, i: int) -> Seq<SpecWire>
    decreases ss, ss.len() - i + 1,
{
    if 0 <= i < ss.len() {
        match ss[i] {
            SpecStmt::ExprStmt(e) => seq![sp_lower(e)] + sp_lower_stmts(ss, i + 1),
        }
    } else {
        Seq::empty()
    }
}

/// The positional lowering of statements indexes element-wise.
proof fn lemma_lower_stmts_index(ss: Seq<SpecStmt>, i: int)
    requires
        0 <= i <= ss.len(),
    ensures
        sp_lower_stmts(ss, i).len() == ss.len() - i,
        forall|k: int|
            i <= k < ss.len() ==> #[trigger] sp_lower_stmts(ss, i)[k - i] == sp_lower(
                ss[k]->ExprStmt_0,
            ),
    decreases ss.len() - i,
{
    if i < ss.len() {
        lemma_lower_stmts_index(ss, i + 1);
        assert(sp_lower_stmts(ss, i) == seq![sp_lower(ss[i]->ExprStmt_0)] + sp_lower_stmts(
            ss,
            i + 1,
        ));
        assert forall|k: int| i <= k < ss.len() implies #[trigger] sp_lower_stmts(ss, i)[k - i]
            == sp_lower(ss[k]->ExprStmt_0) by {
            if k > i {
                assert(sp_lower_stmts(ss, i)[k - i] == sp_lower_stmts(ss, i + 1)[k - (i + 1)]);
            }
        }
    }
}

/// What one line of input becomes: scan it, parse the tokens (a
/// wholesale parse failure stands for an empty program), and decide.
pub open spec fn sp_outcome(s: Seq<char>) -> SpecOutcome {
    let sc = sp_scan(s, 0);
    let stmts = match sp_parse_program(sc.toks) {
        Some(ss) => ss,
        None => Seq::empty(),
    };
    if stmts.len() > 0 && sc.errs.len() == 0 {
        match stmts[0] {
            SpecStmt::ExprStmt(SpecExpr::Lit(SpecLiteral::OscPath(p))) => SpecOutcome::Packet(
                p,
                sp_lower_stmts(stmts, 1),
            ),
            _ => SpecOutcome::AddressError,
        }
    } else {
        SpecOutcome::Diagnostics(sc.errs)
    }
}

/// Scans and parses one line and decides what it becomes, exactly as
/// the model `sp_outcome` says.
#[verifier::loop_isolation(false)]
pub fn build_packet(input: &str) -> (r: Outcome)
    ensures
        r.deep_view() == sp_outcome(input@),
{
    let (tokens, errors) = Lexer::analyse(input);
    let ts = Tokens::new(tokens.as_slice());
    let parsed = Parser::parse_tokens(ts);
    let stmts: Vec<Stmt> = match parsed {
        Ok(p) => p,
        Err(_) => Vec::new(),
    };
    let ghost ssv = stmts.deep_view();
    proof {
        crate::lemma_seq_dv_empty::<Stmt>();
        assert(ts.deep_view() =~= sp_scan(input@, 0).toks);
        assert(ssv =~= match sp_parse_program(sp_scan(input@, 0).toks) {
            Some(ss) => ss,
            None => Seq::<SpecStmt>::empty(),
        });
    }
    if stmts.len() > 0 && errors.len() == 0 {
        let head: Option<String> = match &stmts[0] {
            Stmt::ExprStmt(Expr::Lit(Literal::OscPath(p))) => Some(p.clone()),
            _ => None,
        };
        match head {
            Some(path) => {
                let mut args: Vec<WireValue> = Vec::new();
                let mut k: usize = 1;
                proof {
                    lemma_lower_stmts_index(ssv, 1);
                }
                while k < stmts.len()
                    invariant
                        1 <= k <= stmts@.len(),
                        args.deep_view().len() == k - 1,
                        forall|q: int|
                            1 <= q < k ==> #[trigger] args.deep_view()[q - 1] == sp_lower(
                                ssv[q]->ExprStmt_0,
                            ),
                    decreases stmts@.len() - k,
                {
                    let s = &stmts[k];
                    match s {
                        Stmt::ExprStmt(e) => {
                            let w = parse_message(e);
                            let ghost args0 = args@;
                            args.push(w);
                            proof {
                                crate::lemma_seq_dv_push(args0, w);
                                assert(ssv[k as int] == stmts@[k as int].deep_view());
                                assert(ssv[k as int]->ExprStmt_0 == e.deep_view());
                            }
                        },
                    }
                    k = k + 1;
                }
                proof {
                    assert forall|j: int| 0 <= j < args.deep_view().len() implies args.deep_view()[j]
                        == sp_lower_stmts(ssv, 1)[j] by {
                        assert(args.deep_view()[(j + 1) - 1] == sp_lower(ssv[j + 1]->ExprStmt_0));
                        assert(sp_lower_stmts(ssv, 1)[(j + 1) - 1] == sp_lower(
                            ssv[j + 1]->ExprStmt_0,
                        ));
                    }
                    assert(args.deep_view() =~= sp_lower_stmts(ssv, 1));
                }
                Outcome::Packet(path, args)
            },
            None => Outcome::AddressError,
        }
    } else {
        proof {
            assert(errors.deep_view() =~= sp_scan(input@, 0).errs);
        }
        Outcome::Diagnostics(errors)
    }
}

} // verus!
