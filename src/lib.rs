//! Parameter types of the contract ABI: a closed recursive type algebra,
//! its two classifications (dynamic layout, empty encoding) and its
//! canonical textual signature.
//!
//! Every executable function states its result over `ParamModel`, the
//! mathematical view of a `ParamType`.
pub mod decimal;
pub mod laws;
pub mod param_type;
pub mod writer;

pub use laws::{lemma_equality_is_equivalence, lemma_results_follow_structure, lemma_signature_injective};
pub use param_type::{ParamModel, ParamType};
pub use writer::Writer;
