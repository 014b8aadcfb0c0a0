use vstd::prelude::*;
use vstd::utf8::encode_utf8;

use crate::crypto::{base64_encode, base64_of, ct_eq, prng_output_of, sha256, sha256_of};
use crate::env::{domain_entropy, Env};
use crate::factory::contract::new_entropy;

verus! {

/// The size in bytes of a stored (hashed) viewing key.
pub const VIEWING_KEY_SIZE: usize = 32;

/// The text that starts every generated viewing key.
pub open spec fn key_prefix() -> Seq<char> {
    "api_key_"@
}

/// The hash under which a key with text `key` is stored.
pub open spec fn hashed_key(key: Seq<char>) -> Seq<u8> {
    sha256_of(encode_utf8(key))
}

/// The key that `ViewingKey::new` derives: the prefix, then the base64 text
/// of the hash of one fresh generator output.
pub open spec fn generated_key(env: Env, seed: Seq<u8>, entropy: Seq<u8>) -> Seq<char> {
    key_prefix() + base64_of(
        sha256_of(
            prng_output_of(
                seed,
                domain_entropy(env.block_height, env.block_time, env.sender@, entropy),
            ),
        ),
    )
}

/// An opaque bearer credential, held in plain text only until it is hashed.
pub struct ViewingKey(pub String);

impl ViewingKey {
    /// Derives a fresh key from the registry's seed, the invocation and the
    /// caller's entropy.
    pub fn new(env: &Env, seed: &[u8], entropy: &[u8]) -> (r: ViewingKey)
        ensures
            r.0@ == generated_key(*env, seed@, entropy@),
    {
        let rand_slice = new_entropy(env, seed, entropy);
        let key = sha256(rand_slice.as_slice());
        let text = base64_encode(key.as_slice());
        let mut s = String::from_str("api_key_");
        s.append(text.as_str());
        ViewingKey(s)
    }

    /// The hash under which this key is stored.
    pub fn to_hashed(&self) -> (r: [u8; VIEWING_KEY_SIZE])
        ensures
            r@ == hashed_key(self.0@),
    {
        sha256(self.0.as_str().as_bytes())
    }

    /// Whether this key hashes to `hashed`; the comparison reads every byte.
    pub fn check_viewing_key(&self, hashed: &[u8; VIEWING_KEY_SIZE]) -> (r: bool)
        ensures
            r == (hashed_key(self.0@) == hashed@),
    {
        let mine = self.to_hashed();
        ct_eq(&mine, hashed)
    }
}

} // verus!
