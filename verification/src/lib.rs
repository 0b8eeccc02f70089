//! Passphrase generation from a word list.
//!
//! The crate selects words uniformly at random from a newline-delimited word
//! list, optionally constrained by length bounds and by a mnemonic: a sequence
//! of required starting letters, one per output word.  The core is an unbiased
//! bounded random-integer sampler built from raw entropy bytes, and a two-pass
//! selector that first counts the candidates matching each slot's constraints
//! and then fetches the candidate at a given rank per slot.

pub mod args;
pub mod letters;
pub mod phrase;
pub mod problem;
pub mod sampler;
pub mod selector;
