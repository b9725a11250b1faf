//! Message-language front end of an interactive OSC (Open Sound Control)
//! debugging tool: a fault-tolerant scanner from one line of text to a
//! token sequence plus positioned diagnostics, a token-stream parser to an
//! expression tree, and value lowering to a protocol-neutral wire-value
//! model, each with a full functional contract.

pub mod diag;
pub mod lexer;
pub mod lower;
pub mod message;
pub mod parser;
pub mod stream;
pub mod table;
pub mod text;
pub mod token;
pub mod words;

use vstd::prelude::*;

verus! {

/// The element-wise deep view of a sequence, the same formula `Vec`'s
/// `deep_view` uses.
pub open spec fn seq_dv<T: DeepView>(s: Seq<T>) -> Seq<T::V> {
    Seq::new(s.len(), |i: int| s[i].deep_view())
}

/// Pushing onto a vector pushes the element's view onto the deep view.
pub proof fn lemma_seq_dv_push<T: DeepView>(s: Seq<T>, e: T)
    ensures
        seq_dv(s.push(e)) == seq_dv(s).push(e.deep_view()),
{
    assert(seq_dv(s.push(e)) =~= seq_dv(s).push(e.deep_view()));
}

/// The deep view of an empty sequence is empty.
pub proof fn lemma_seq_dv_empty<T: DeepView>()
    ensures
        seq_dv(Seq::<T>::empty()) == Seq::<T::V>::empty(),
{
    assert(seq_dv(Seq::<T>::empty()) =~= Seq::<T::V>::empty());
}

} // verus!
