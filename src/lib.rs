//! A dispute-resolution engine for a plasma-style layer-2 chain.
//!
//! The library has these parts:
//! - `primitives`: ranges, state updates, checkpoints and their canonical byte encodings;
//! - `hashing`: the content hashes and the byte encoding taken from outside crates;
//! - `deposit`: the checkpoint / challenge / exit game over deposited ranges;
//! - `predicate`: the ownership predicate that authorises transitions and exits;
//! - `ovm`: the generic claim / challenge / settle game over properties.
//!
//! Every operation takes the ambient values it needs (caller, current block)
//! as arguments, checks all of its preconditions before it writes, and
//! returns a typed error without changing any state when one fails.

mod table;

pub mod deposit;
pub mod error;
pub mod hashing;
pub mod predicate;
pub mod primitives;
pub mod ovm;
