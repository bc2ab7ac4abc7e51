use vstd::prelude::*;

use crate::error::Error;

verus! {

/// Size in bytes of the authentication tag that travels after a token's
/// ciphertext.
pub const TAG_SIZE: usize = 16;

/// The sealing half of an authenticated cipher.
pub trait Encrypter {
    /// Holds when `ciphertext` with `tag` is what sealing `plaintext` under
    /// `key` may give, the tag buffer holding `tag_before` beforehand. A
    /// cipher that states nothing allows any outcome.
    open spec fn seals(
        &self,
        key: Seq<u8>,
        plaintext: Seq<u8>,
        ciphertext: Seq<u8>,
        tag_before: Seq<u8>,
        tag: Seq<u8>,
    ) -> bool {
        true
    }

    /// Holds when sealing `plaintext` under `key` may fail. A cipher that
    /// states nothing may always fail.
    open spec fn may_fail(&self, key: Seq<u8>, plaintext: Seq<u8>) -> bool {
        true
    }

    /// Seals `plaintext` under `key`, writing the authentication tag to `tag`.
    fn encrypt(&self, key: &[u8], plaintext: &[u8], tag: &mut [u8; 16]) -> (r: Result<
        Vec<u8>,
        Error,
    >)
        ensures
            r matches Ok(c) ==> self.seals(key@, plaintext@, c@, old(tag)@, final(tag)@),
            r is Err ==> self.may_fail(key@, plaintext@),
    ;
}

/// The opening half of an authenticated cipher.
pub trait Decrypter {
    /// Holds when opening `ciphertext` with `tag` under `key` may give
    /// `plaintext`. A cipher that states nothing allows any outcome.
    open spec fn opens(&self, key: Seq<u8>, ciphertext: Seq<u8>, tag: Seq<u8>, plaintext: Seq<u8>) -> bool {
        true
    }

    /// Holds when opening `ciphertext` with `tag` under `key` may be refused.
    /// A cipher that states nothing may always refuse.
    open spec fn may_refuse(&self, key: Seq<u8>, ciphertext: Seq<u8>, tag: Seq<u8>) -> bool {
        true
    }

    /// Opens `ciphertext` under `key`, checking it against `tag`.
    fn decrypt(&self, key: &[u8], ciphertext: &[u8], tag: &[u8]) -> (r: Result<Vec<u8>, Error>)
        ensures
            r matches Ok(p) ==> self.opens(key@, ciphertext@, tag@, p@),
            r is Err ==> self.may_refuse(key@, ciphertext@, tag@),
    ;
}

/// A stand-in for when no cipher has been configured: it refuses to seal or
/// open anything.
pub struct NoCipher;

/// A cipher that hands its input back unchanged and leaves the tag as it is:
/// for exercising the session cache without cryptography.
pub struct IdentityCipher;

impl Encrypter for NoCipher {
    open spec fn seals(
        &self,
        key: Seq<u8>,
        plaintext: Seq<u8>,
        ciphertext: Seq<u8>,
        tag_before: Seq<u8>,
        tag: Seq<u8>,
    ) -> bool {
        false
    }

    fn encrypt(&self, key: &[u8], plaintext: &[u8], tag: &mut [u8; 16]) -> (r: Result<Vec<u8>, Error>) {
        Err(Error::Custom("No session cipher is configured".to_string()))
    }
}

impl Decrypter for NoCipher {
    open spec fn opens(&self, key: Seq<u8>, ciphertext: Seq<u8>, tag: Seq<u8>, plaintext: Seq<u8>) -> bool {
        false
    }

    fn decrypt(&self, key: &[u8], ciphertext: &[u8], tag: &[u8]) -> (r: Result<Vec<u8>, Error>) {
        Err(Error::Custom("No session cipher is configured".to_string()))
    }
}

impl Encrypter for IdentityCipher {
    open spec fn seals(
        &self,
        key: Seq<u8>,
        plaintext: Seq<u8>,
        ciphertext: Seq<u8>,
        tag_before: Seq<u8>,
        tag: Seq<u8>,
    ) -> bool {
        ciphertext == plaintext && tag == tag_before
    }

    open spec fn may_fail(&self, key: Seq<u8>, plaintext: Seq<u8>) -> bool {
        false
    }

    fn encrypt(&self, key: &[u8], plaintext: &[u8], tag: &mut [u8; 16]) -> (r: Result<Vec<u8>, Error>) {
        Ok(copy_bytes(plaintext))
    }
}

impl Decrypter for IdentityCipher {
    open spec fn opens(&self, key: Seq<u8>, ciphertext: Seq<u8>, tag: Seq<u8>, plaintext: Seq<u8>) -> bool {
        plaintext == ciphertext
    }

    open spec fn may_refuse(&self, key: Seq<u8>, ciphertext: Seq<u8>, tag: Seq<u8>) -> bool {
        false
    }

    fn decrypt(&self, key: &[u8], ciphertext: &[u8], tag: &[u8]) -> (r: Result<Vec<u8>, Error>) {
        Ok(copy_bytes(ciphertext))
    }
}

/// Whatever `encrypter` seals, `decrypter` opens back to the same plaintext.
pub open spec fn inverts<E: Encrypter, D: Decrypter>(encrypter: E, decrypter: D) -> bool {
    forall|k: Seq<u8>, p: Seq<u8>, c: Seq<u8>, b: Seq<u8>, t: Seq<u8>, q: Seq<u8>|
        #[trigger] encrypter.seals(k, p, c, b, t) && #[trigger] decrypter.opens(k, c, t, q) ==> q == p
}

/// The identity cipher opens what it seals.
pub proof fn lemma_identity_cipher_inverts()
    ensures
        inverts(IdentityCipher, IdentityCipher),
{
}

pub fn copy_bytes(bytes: &[u8]) -> (r: Vec<u8>)
    ensures
        r@ == bytes@,
{
    let mut r: Vec<u8> = Vec::new();
    let mut i: usize = 0;
    while i < bytes.len()
        invariant
            i <= bytes@.len(),
            r@ == bytes@.take(i as int),
        decreases bytes@.len() - i,
    {
        r.push(bytes[i]);
        assert(bytes@.take(i + 1) =~= bytes@.take(i as int).push(bytes@[i as int]));
        i = i + 1;
    }
    assert(bytes@.take(bytes@.len() as int) =~= bytes@);
    r
}

} // verus!
