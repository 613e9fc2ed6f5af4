//! Instruction discriminators: the eight bytes that identify an entry point
//! inside an atomic batch, derived from a namespaced function name.
//!
//! The flashloan bracket check relies on recognizing the bracket-closing
//! instruction inside the batch; its discriminator comes from here.

use sha2::Digest;
use vstd::prelude::*;

verus! {

/// The eight-byte discriminator derived from a namespace and a function
/// name; a pure function of the two strings.
pub uninterp spec fn discriminator_of(namespace: Seq<char>, name: Seq<char>) -> Seq<u8>;

/// Relies on sha2's SHA-256 implementation: the discriminator is the first
/// eight bytes of the digest of `namespace:name`, which depends on the two
/// strings alone.
#[verifier::external_body]
fn hash_function_name(namespace: &str, name: &str) -> (r: [u8; 8])
    ensures
        r@ == discriminator_of(namespace@, name@),
{
    let preimage = format!("{}:{}", namespace, name);
    let digest = sha2::Sha256::digest(preimage.as_bytes());
    let mut sighash = [0u8; 8];
    sighash.copy_from_slice(&digest[..8]);
    sighash
}

/// The function discriminator is constructed from these 8 bytes. Typically,
/// the namespace is "global" or "state".
pub fn get_function_hash(namespace: &str, name: &str) -> (r: [u8; 8])
    ensures
        r@ == discriminator_of(namespace@, name@),
{
    hash_function_name(namespace, name)
}

/// Structs that implement this trait have a `get_hash` tool that returns
/// the function discriminator.
pub trait Hashable {
    fn get_hash() -> [u8; 8];
}

/// Marker for the instruction that opens a flashloan bracket.
pub struct StartFlashloan {}

/// Marker for the instruction that closes a flashloan bracket.
pub struct EndFlashloan {}

impl Hashable for StartFlashloan {
    fn get_hash() -> [u8; 8] {
        get_function_hash("global", "lending_account_start_flashloan")
    }
}

impl Hashable for EndFlashloan {
    fn get_hash() -> [u8; 8] {
        get_function_hash("global", "lending_account_end_flashloan")
    }
}

} // verus!
