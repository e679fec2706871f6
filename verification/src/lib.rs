//! An in-memory registry of non-fungible tokens: who owns each token, what
//! metadata it carries, and how many tokens each owner holds.
//!
//! `registry` holds the registry and its operations; `model` says what a
//! registry is as mathematics and when its books are consistent; `runs` says
//! what holds of every sequence of calls. `token_id` and `hex` derive token
//! identifiers, `str_map` is the map that the registry keeps its tokens and
//! balances in, and `error` names what can go wrong.

pub mod error;
pub mod hex;
pub mod model;
pub mod registry;
pub mod runs;
pub mod str_map;
pub mod token_id;
