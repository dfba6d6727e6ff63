//! Pairing-based signatures over BLS12-381.
//!
//! Two schemes share one pairing engine ([`engine`]): the aggregatable BLS
//! signature ([`aggregate_sig`]), with its check for repeated messages
//! ([`duplicates`]), and the Pointcheval-Sanders signature over several
//! attributes ([`ps_sig`]). A host runtime reaches the BLS scheme through
//! handles ([`ffi`], [`handles`]). The common types of the chain and the
//! signatures of a transaction stand beside them ([`types`],
//! [`transaction`]).
//!
//! Scalars and group elements are held by their canonical encodings, so
//! every contract is stated over byte sequences ([`bytes`]).

pub mod aggregate_sig;
pub mod bytes;
pub mod duplicates;
pub mod engine;
pub mod ffi;
pub mod handles;
pub mod ps_sig;
pub mod transaction;
pub mod types;
