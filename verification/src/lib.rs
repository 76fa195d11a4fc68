//! Synchronisation engine for a typed state object shared between an
//! authoritative server process and a single remote UI client.
//!
//! The crate holds the core of the protocol: the fixed 32-byte frame
//! header and its codec, the per-shape slot codecs (scalars, commands,
//! dictionaries, lists, images, graphs), the slot registry, the
//! pending-write accounting that reconciles concurrent local writes with
//! remote echoes, and the decision logic of the server and client
//! engines.  Everything here is plain computation on plain values; the
//! sockets and threads that drive it live outside the crate.

use vstd::prelude::*;

pub mod client;
pub mod collections;
pub mod commands;
pub mod convergence;
pub mod dict;
pub mod graphs;
pub mod image;
pub mod list;
pub mod server;
pub mod states_creator;
pub mod transport;
pub mod values;

verus! {

/// Marshalling of user enums to and from the wire representation, a
/// `u64`.  Implementors come from the host bindings; the library relies
/// on the two conversions inverting each other.
pub trait EnumInt: Sized + Copy {
    /// The wire representation of the enum value.
    spec fn spec_int(&self) -> u64;

    /// The enum value a wire integer names, if any.
    spec fn spec_of_int(value: u64) -> Option<Self>;

    /// Every value is named by its own wire representation.
    proof fn lemma_enum_int(&self)
        ensures
            Self::spec_of_int(self.spec_int()) == Some(*self),
    ;

    /// The wire representation, as a runtime value.
    fn as_int(&self) -> (r: u64)
        ensures
            r == self.spec_int(),
    ;

    /// Recovers an enum value from its wire representation; `Err` when
    /// the integer names no variant.
    fn from_int(value: u64) -> (r: Result<Self, ()>)
        ensures
            r matches Ok(v) ==> Self::spec_of_int(value) == Some(v),
            r is Err <==> Self::spec_of_int(value) is None,
    ;
}

} // verus!
