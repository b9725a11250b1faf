//! Value lowering: from the expression tree to the protocol-neutral
//! wire-value model the transport consumes.  Lowering is total over
//! parsed trees and deterministic; arrays keep their order and nesting
//! exactly.
//!
//! Float-typed wire values carry the literal's text; the surrounding
//! application parses it into the machine float it puts on the wire.

use vstd::prelude::*;

use crate::parser::{Expr, Ident, Literal, SpecExpr, SpecLiteral};
use crate::token::{Color, MidiMsg, TimeMsg};

verus! {

broadcast use vstd::seq::axiom_seq_index_decreases, vstd::std_specs::vec::axiom_vec_index_decreases, vstd::std_specs::vec::axiom_vec_decreases_to_view;

/// One lowered, protocol-neutral argument value.
#[derive(Debug, PartialEq)]
pub enum WireValue {
    Int32(i32),
    Int64(i64),
    Float32(String),
    Float64(String),
    Bool(bool),
    Char(char),
    String(String),
    Nil,
    Infinity,
    Color(Color),
    Midi(MidiMsg),
    TimeTag(TimeMsg),
    Array(Vec<WireValue>),
}

/// The mathematical shape of a `WireValue`.
pub enum SpecWire {
    Int32(i32),
    Int64(i64),
    Float32(Seq<char>),
    Float64(Seq<char>),
    Bool(bool),
    Char(char),
    String(Seq<char>),
    Nil,
    Infinity,
    Color(Color),
    Midi(MidiMsg),
    TimeTag(TimeMsg),
    Array(Seq<SpecWire>),
}

/// The model of one wire value.
pub open spec fn wire_dv(w: WireValue) -> SpecWire
    decreases w, 0int,
{
    match w {
        WireValue::Int32(n) => SpecWire::Int32(n),
        WireValue::Int64(n) => SpecWire::Int64(n),
        WireValue::Float32(s) => SpecWire::Float32(s@),
        WireValue::Float64(s) => SpecWire::Float64(s@),
        WireValue::Bool(b) => SpecWire::Bool(b),
        WireValue::Char(c) => SpecWire::Char(c),
        WireValue::String(s) => SpecWire::String(s@),
        WireValue::Nil => SpecWire::Nil,
        WireValue::Infinity => SpecWire::Infinity,
        WireValue::Color(c) => SpecWire::Color(c),
        WireValue::Midi(m) => SpecWire::Midi(m),
        WireValue::TimeTag(t) => SpecWire::TimeTag(t),
        WireValue::Array(v) => SpecWire::Array(wire_list_dv(v@, 0)),
    }
}

/// The models of the wire values of a list, from position `i` on.
pub open spec fn wire_list_dv(v: Seq<WireValue>, i: int) -> Seq<SpecWire>
    decreases v, v.len() - i + 1,
{
    if 0 <= i < v.len() {
        seq![wire_dv(v[i])] + wire_list_dv(v, i + 1)
    } else {
        Seq::empty()
    }
}

impl DeepView for WireValue {
    type V = SpecWire;

    open spec fn deep_view(&self) -> SpecWire {
        wire_dv(*self)
    }
}

/// The positional model of a wire-value list is its element-wise deep
/// view.
pub proof fn lemma_wire_list_dv(v: Seq<WireValue>, i: int)
    requires
        0 <= i <= v.len(),
    ensures
        wire_list_dv(v, i) == crate::seq_dv(v).subrange(i, v.len() as int),
    decreases v.len() - i,
{
    if i < v.len() {
        lemma_wire_list_dv(v, i + 1);
        assert(wire_list_dv(v, i) =~= crate::seq_dv(v).subrange(i, v.len() as int));
    } else {
        assert(wire_list_dv(v, i) =~= crate::seq_dv(v).subrange(i, v.len() as int));
    }
}

/// An array wire value's model holds the element-wise views.
pub proof fn lemma_wire_array_dv(v: Vec<WireValue>)
    ensures
        wire_dv(WireValue::Array(v)) == SpecWire::Array(v.deep_view()),
{
    lemma_wire_list_dv(v@, 0);
    assert(crate::seq_dv(v@).subrange(0, v@.len() as int) =~= crate::seq_dv(v@));
    assert(v.deep_view() =~= crate::seq_dv(v@));
}

// ---------------------------------------------------------------
// The lowering, as a model
// ---------------------------------------------------------------

/// What one expression lowers to.  The reserved names lower to their
/// wire values; any other identifier falls back to a string; literals
/// lower one-to-one; arrays lower element-wise, order kept.
pub open spec fn sp_lower(e: SpecExpr) -> SpecWire
    decreases e, 0int,
{
    match e {
        SpecExpr::Ident(nm) => {
            if nm == "Nil"@ {
                SpecWire::Nil
            } else if nm == "Inf"@ {
                SpecWire::Infinity
            } else {
                SpecWire::String(nm)
            }
        },
        SpecExpr::Lit(l) => {
            match l {
                SpecLiteral::Int(n) => SpecWire::Int32(n),
                SpecLiteral::Float(s) => SpecWire::Float32(s),
                SpecLiteral::Bool(b) => SpecWire::Bool(b),
                SpecLiteral::String(s) => SpecWire::String(s),
                SpecLiteral::OscPath(s) => SpecWire::String(s),
                SpecLiteral::Char(c) => SpecWire::Char(c),
                SpecLiteral::Color(c) => SpecWire::Color(c),
                SpecLiteral::MidiMsg(m) => SpecWire::Midi(m),
                SpecLiteral::TimeMsg(t) => SpecWire::TimeTag(t),
            }
        },
        SpecExpr::Array(es) => SpecWire::Array(sp_lower_list(es, 0)),
    }
}

/// Element-wise lowering of an expression list, from position `i` on.
pub open spec fn sp_lower_list(es: Seq<SpecExpr>, i: int) -> Seq<SpecWire>
    decreases es, es.len() - i + 1,
{
    if 0 <= i < es.len() {
        seq![sp_lower(es[i])] + sp_lower_list(es, i + 1)
    } else {
        Seq::empty()
    }
}

/// Lowering is deterministic: lowering the same expression tree twice
/// yields structurally equal wire values.  Executable lowering is
/// bound to `sp_lower` by its contract, so two calls of
/// `parse_message` on equal trees return equal wire values.
pub proof fn lemma_lower_deterministic(a: SpecExpr, b: SpecExpr)
    requires
        a == b,
    ensures
        sp_lower(a) == sp_lower(b),
{
}

// ---------------------------------------------------------------
// The executable lowering
// ---------------------------------------------------------------

/// Lowers one identifier expression.
pub fn parse_identity(message: &Ident) -> (r: WireValue)
    ensures
        r.deep_view() == sp_lower(SpecExpr::Ident(message.0@)),
{
    if message.0 == String::from_str("Nil") {
        WireValue::Nil
    } else if message.0 == String::from_str("Inf") {
        WireValue::Infinity
    } else {
        WireValue::String(message.0.clone())
    }
}

/// Lowers one literal expression.
pub fn parse_scalar(message: &Literal) -> (r: WireValue)
    ensures
        r.deep_view() == sp_lower(SpecExpr::Lit(message.deep_view())),
{
    match message {
        Literal::Int(val) => WireValue::Int32(*val),
        Literal::Float(val) => WireValue::Float32(val.clone()),
        Literal::Bool(val) => WireValue::Bool(*val),
        Literal::String(val) => WireValue::String(val.clone()),
        Literal::OscPath(val) => WireValue::String(val.clone()),
        Literal::Char(val) => WireValue::Char(*val),
        Literal::Color(c) => WireValue::Color(*c),
        Literal::MidiMsg(m) => WireValue::Midi(*m),
        Literal::TimeMsg(t) => WireValue::TimeTag(*t),
    }
}

/// Lowers one expression of any shape.
pub fn parse_message(message: &Expr) -> (r: WireValue)
    ensures
        r.deep_view() == sp_lower(message.deep_view()),
    decreases *message, 1int,
{
    match message {
        Expr::Ident(id) => parse_identity(id),
        Expr::Lit(l) => parse_scalar(l),
        Expr::Array(v) => {
            proof {
                assert(decreases_to!(*message => message->Array_0));
            }
            let lowered = parse_compound(v);
            proof {
                assert(message->Array_0 == *v);
                crate::parser::lemma_array_dv(message->Array_0);
                lemma_wire_array_dv(lowered);
                let esv = message->Array_0.deep_view();
                lemma_lower_list_is_map(esv);
                assert(lowered.deep_view().len() == esv.len());
                assert forall|q: int| 0 <= q < esv.len() implies lowered.deep_view()[q]
                    == sp_lower_list(esv, 0)[q] by {
                    assert(lowered.deep_view()[q] == sp_lower(esv[q]));
                    assert(sp_lower_list(esv, 0)[q] == sp_lower(esv[q]));
                }
                assert(lowered.deep_view() =~= sp_lower_list(esv, 0));
            }
            WireValue::Array(lowered)
        },
    }
}

/// The positional lowering of a list indexes element-wise.
proof fn lemma_lower_list_index(es: Seq<SpecExpr>, i: int)
    requires
        0 <= i <= es.len(),
    ensures
        sp_lower_list(es, i).len() == es.len() - i,
        forall|k: int|
            i <= k < es.len() ==> sp_lower_list(es, i)[k - i] == sp_lower(#[trigger] es[k]),
    decreases es.len() - i,
{
    if i < es.len() {
        lemma_lower_list_index(es, i + 1);
    }
}

/// Lowering a whole list is lowering each element in place.
proof fn lemma_lower_list_is_map(es: Seq<SpecExpr>)
    ensures
        sp_lower_list(es, 0).len() == es.len(),
        forall|k: int| 0 <= k < es.len() ==> sp_lower_list(es, 0)[k] == sp_lower(#[trigger] es[k]),
{
    lemma_lower_list_index(es, 0);
}

/// Lowers a list of expressions element-wise, order kept.
#[verifier::loop_isolation(false)]
pub fn parse_compound(message: &Vec<Expr>) -> (r: Vec<WireValue>)
    ensures
        r.deep_view().len() == message.deep_view().len(),
        forall|k: int|
            0 <= k < message.deep_view().len() ==> r.deep_view()[k] == sp_lower(
                #[trigger] message.deep_view()[k],
            ),
    decreases *message, 0int,
{
    let mut out: Vec<WireValue> = Vec::new();
    let mut k: usize = 0;
    while k < message.len()
        invariant
            k <= message@.len(),
            out.deep_view().len() == k,
            forall|q: int|
                0 <= q < k ==> out.deep_view()[q] == sp_lower(
                    #[trigger] message.deep_view()[q],
                ),
        decreases message@.len() - k,
    {
        proof {
            assert(decreases_to!(*message => message@));
            assert(decreases_to!(message@ => message@[k as int]));
            assert(decreases_to!(*message => message@[k as int]));
        }
        let w = parse_message(&message[k]);
        let ghost out0 = out@;
        out.push(w);
        proof {
            crate::lemma_seq_dv_push(out0, w);
            assert(message.deep_view()[k as int] == message@[k as int].deep_view());
        }
        k = k + 1;
    }
    out
}

} // verus!
