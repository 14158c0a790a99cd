//! Client-side key-distribution core of a hierarchical, end-to-end
//! encrypted collaboration product.
//!
//! A tree of users (one root owner plus invited admins) shares access to an
//! encrypted filesystem and a per-cell encrypted database. Access is granted
//! by distributing cryptographic seeds from which per-object keys are
//! derived; a server stores only ciphertexts and signed shares.

use vstd::prelude::*;

pub mod codec;
pub mod crypto;
pub mod db;
pub mod fs;
pub mod id;
pub mod identity;
pub mod password_lock;
pub mod protocol;
pub mod register;
pub mod seeds;
pub mod user;

pub use id::Uid;

verus! {

} // verus!
