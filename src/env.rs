use vstd::prelude::*;
use vstd::utf8::encode_utf8;

use crate::crypto::be_bytes;

verus! {

/// What an invocation knows of its surroundings: the block it runs in, the
/// address that sent the message, and the running contract's own identity.
pub struct Env {
    pub block_height: u64,
    pub block_time: u64,
    pub sender: String,
    pub contract_address: String,
    pub contract_code_hash: String,
}

/// The bytes that are mixed into the generator for an invocation: block
/// height and time (eight big-endian bytes each), the sender's address text
/// and the caller's entropy, in that order and without delimiters.
pub open spec fn domain_entropy(height: u64, time: u64, sender: Seq<char>, entropy: Seq<u8>) -> Seq<u8> {
    be_bytes(height) + be_bytes(time) + encode_utf8(sender) + entropy
}

} // verus!
