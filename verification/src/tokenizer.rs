//! Selection of a byte-pair-encoding tokenizer for a model identifier.
//!
//! The identifier is looked up in the encoding tables of `tiktoken_rs`; an
//! unrecognized identifier falls back to the `cl100k_base` encoding, the
//! one used by the general-purpose chat model family, rather than failing
//! the caller.
use vstd::prelude::*;

verus! {

/// The byte-pair-encoding engine of `tiktoken_rs`, declared so that its
/// values can pass through signatures; the library never looks inside one.
#[verifier::external_type_specification]
#[verifier::external_body]
pub struct ExCoreBPE(tiktoken_rs::CoreBPE);

/// The error of tokenizer selection: even the fallback encoding could not
/// be constructed. Treated as fatal by callers; an unrecognized model
/// identifier alone never produces it.
#[derive(Clone, Copy, Debug, PartialEq, Eq, Structural)]
pub enum TokenizerError {
    Unavailable,
}

/// Whether `tiktoken_rs` maps this model identifier to an encoding it can
/// construct. The lookup is a fixed table match on the identifier alone.
pub uninterp spec fn model_recognized(model: Seq<char>) -> bool;

/// Relies on `tiktoken_rs::bpe_for_model`: it returns `Ok` exactly when
/// `tiktoken_rs::tokenizer::get_tokenizer` finds the model in its fixed
/// tables, a deterministic function of the identifier alone.
#[verifier::external_body]
fn encoding_for_model(model: &str) -> (r: Option<&'static tiktoken_rs::CoreBPE>)
    ensures
        r is Some <==> model_recognized(model@),
{
    tiktoken_rs::bpe_for_model(model).ok()
}

/// Relies on `tiktoken_rs::bpe_for_tokenizer` with the `Cl100kBase`
/// encoding: the encoding of the general-purpose chat model family, used
/// here as the fallback for unrecognized model identifiers. It returns
/// `Ok` of a cached singleton unconditionally (the encoding is built
/// from data embedded in the crate), so the fallback is always there.
#[verifier::external_body]
fn fallback_encoding() -> (r: Option<&'static tiktoken_rs::CoreBPE>)
    ensures
        r is Some,
{
    tiktoken_rs::bpe_for_tokenizer(tiktoken_rs::tokenizer::Tokenizer::Cl100kBase).ok()
}

/// Returns a tokenizer for the model identifier: its native encoding when
/// the identifier is recognized, else the fallback encoding — an
/// unrecognized identifier is never an error. `Unavailable` would be
/// returned only if even the fallback could not be constructed; the
/// fallback is built from embedded data and always there, so the call
/// always succeeds.
pub fn select_tokenizer(model: &str) -> (r: Result<&'static tiktoken_rs::CoreBPE, TokenizerError>)
    ensures
        r matches Ok(_),
{
    match encoding_for_model(model) {
        Some(bpe) => Ok(bpe),
        None => match fallback_encoding() {
            Some(bpe) => Ok(bpe),
            None => Err(TokenizerError::Unavailable),
        },
    }
}

} // verus!
