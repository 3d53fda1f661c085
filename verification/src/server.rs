//! The decision a node takes when a peer asks to join it.

use vstd::prelude::*;
use vstd::utf8::{valid_utf8, decode_utf8};

verus! {

/// Decodes UTF-8 with `String::from_utf8`. Claimed of it: it succeeds exactly
/// on valid UTF-8, as its documentation says, and the text it returns is the
/// sequence of scalars the bytes encode.
#[verifier::external_body]
fn string_from_utf8(bytes: Vec<u8>) -> (s: Option<String>)
    ensures
        s is Some <==> valid_utf8(bytes@),
        s matches Some(t) ==> t@ == decode_utf8(bytes@),
{
    String::from_utf8(bytes).ok()
}

/// The address a join request carries: its body read as UTF-8 text.
pub fn join_address(body: Vec<u8>) -> (addr: String)
    requires
        valid_utf8(body@),
    ensures
        addr@ == decode_utf8(body@),
{
    match string_from_utf8(body) {
        Some(addr) => addr,
        // Valid UTF-8 always decodes, so this arm is never taken.
        None => String::new(),
    }
}

/// What to do with a join request.
#[derive(Debug, Copy, Clone, PartialEq, Eq, Structural)]
pub enum JoinDecision {
    /// The address is already among the connected peers: refuse.
    AlreadyConnected,
    /// The address is new: connect to it and add it.
    Connect,
}

/// Decides on a join request from `addr`, given the addresses of the peers
/// already connected.
pub fn join_decision(connected: &Vec<String>, addr: &String) -> (d: JoinDecision)
    ensures
        d == JoinDecision::AlreadyConnected <==> exists|i: int| 0 <= i < connected@.len() && connected@[i]@ == addr@,
{
    let mut i: usize = 0;
    while i < connected.len()
        invariant
            0 <= i <= connected@.len(),
            forall|j: int| 0 <= j < i ==> connected@[j]@ != addr@,
        decreases connected@.len() - i,
    {
        if connected[i] == *addr {
            return JoinDecision::AlreadyConnected;
        }
        i = i + 1;
    }
    JoinDecision::Connect
}

} // verus!
