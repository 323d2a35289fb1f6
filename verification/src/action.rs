//! What it takes to be a contract's action type: a deterministic wire
//! encoding, a decoder that accepts exactly the well-formed encodings, and
//! proof that the encoding identifies the action.

use vstd::prelude::*;

verus! {

/// A contract-specific action, carried inside a blob.
///
/// `encode` and `decode` fix the action's byte layout.  The decoder is
/// exact: it succeeds precisely on the byte strings `parses` describes, and
/// whatever it returns re-encodes to the input, so together with
/// `lemma_enc_injective` a decoded encoding is the encoded action again,
/// field for field.
pub trait ContractAction: Sized {
    /// Structural equality: the two actions have the same variant and hold
    /// the same values, compared by content.
    spec fn eq_spec(self, other: Self) -> bool;

    /// Whether the action's variable-length fields fit the wire's length
    /// fields.  Every action held in memory does.
    spec fn wf(self) -> bool;

    /// The action's wire encoding.
    spec fn enc_spec(self) -> Seq<u8>;

    /// The byte strings the decoder accepts.
    spec fn parses(bytes: Seq<u8>) -> bool;

    /// Every encoding of a well-formed action is accepted by the decoder.
    proof fn lemma_parses_enc(a: Self)
        requires
            a.wf(),
        ensures
            Self::parses(a.enc_spec()),
    ;

    /// The encoding identifies the action up to structural equality.
    proof fn lemma_enc_injective(a: Self, b: Self)
        requires
            a.wf(),
            b.wf(),
            a.enc_spec() == b.enc_spec(),
        ensures
            a.eq_spec(b),
    ;

    /// Structurally equal actions encode alike.
    proof fn lemma_eq_enc(a: Self, b: Self)
        requires
            a.eq_spec(b),
        ensures
            a.enc_spec() == b.enc_spec(),
    ;

    /// Writes the action's encoding.
    fn encode(&self) -> (r: Vec<u8>)
        ensures
            r@ == self.enc_spec(),
    ;

    /// Reads an action back from a whole byte string; fails on anything
    /// that is not exactly an encoding.
    fn decode(bytes: &[u8]) -> (r: Option<Self>)
        ensures
            r is Some <==> Self::parses(bytes@),
            r matches Some(a) ==> a.enc_spec() == bytes@ && a.wf(),
    ;
}

} // verus!
