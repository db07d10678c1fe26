//! AES-256 in CBC mode with PKCS#7 padding, and random bytes.
use vstd::prelude::*;

use aesni::cipher::generic_array::GenericArray;
use aesni::Aes256;
use block_modes::block_padding::Pkcs7;
use block_modes::{BlockMode, Cbc};

verus! {

/// The ciphertext that AES-256-CBC with PKCS#7 padding makes of `plain`
/// under `key` and `iv`.
pub uninterp spec fn aes256_cbc_encrypt(key: Seq<u8>, iv: Seq<u8>, plain: Seq<u8>) -> Seq<u8>;

/// The plaintext that AES-256-CBC with PKCS#7 padding recovers from
/// `cipher` under `key` and `iv`; `None` where the length or the padding is
/// wrong.
pub uninterp spec fn aes256_cbc_decrypt(key: Seq<u8>, iv: Seq<u8>, cipher: Seq<u8>) -> Option<
    Seq<u8>,
>;

/// Relies on block_modes' `BlockMode::encrypt_vec` for `Cbc<aesni::Aes256,
/// Pkcs7>`: the ciphertext depends on the key, the IV and the plaintext
/// alone; PKCS#7 pads to the next whole 16-byte block, adding a full block
/// where the plaintext already fills its last one.
#[verifier::external_body]
pub(crate) fn cbc_encrypt(key: &[u8; 32], iv: &[u8; 16], plain: &[u8]) -> (r: Vec<u8>)
    ensures
        r@ == aes256_cbc_encrypt(key@, iv@, plain@),
        r@.len() == (plain@.len() / 16 + 1) * 16,
{
    let mode = Cbc::<Aes256, Pkcs7>::new_fix(&GenericArray::from(*key), &GenericArray::from(*iv));
    mode.encrypt_vec(plain)
}

/// Relies on block_modes' `BlockMode::decrypt_vec` for `Cbc<aesni::Aes256,
/// Pkcs7>`: the result depends on the key, the IV and the ciphertext alone,
/// and it gives back the plaintext of what `encrypt_vec` made under the same
/// key and IV.
#[verifier::external_body]
pub(crate) fn cbc_decrypt(key: &[u8; 32], iv: &[u8; 16], cipher: &[u8]) -> (r: Option<Vec<u8>>)
    ensures
        match r {
            Some(p) => aes256_cbc_decrypt(key@, iv@, cipher@) == Some(p@),
            None => aes256_cbc_decrypt(key@, iv@, cipher@) is None,
        },
        forall|p: Seq<u8>|
            cipher@ == #[trigger] aes256_cbc_encrypt(key@, iv@, p) ==> r is Some && r.unwrap()@
                == p,
{
    let mode = Cbc::<Aes256, Pkcs7>::new_fix(&GenericArray::from(*key), &GenericArray::from(*iv));
    mode.decrypt_vec(cipher).ok()
}

/// Relies on rand's `Rng::fill` on the thread-local generator: it fills the
/// whole buffer, with values nobody can predict.
#[verifier::external_body]
pub(crate) fn random_bytes(n: usize) -> (r: Vec<u8>)
    ensures
        r@.len() == n,
{
    let mut buf = vec![0u8; n];
    rand::Rng::fill(&mut rand::thread_rng(), &mut buf[..]);
    buf
}

/// `N` random bytes.
pub fn random_array<const N: usize>() -> [u8; N] {
    let bytes = random_bytes(N);
    let mut out = [0u8; N];
    for i in 0..N
        invariant
            bytes@.len() == N,
    {
        out[i] = bytes[i];
    }
    out
}

} // verus!
