//! The crypto provider boundary: trusted wrappers around the `nacl`
//! primitives.
//!
//! Each wrapper's contract states what `nacl`'s source shows: exactly when a
//! call fails, with which condition, and that a successful result is a
//! function of the arguments alone, named by an uninterpreted spec function
//! where the value itself has no short description.

use vstd::prelude::*;

verus! {

/// The closed set of failure conditions the provider reports.
#[derive(Clone, Copy, PartialEq, Eq, Structural, Debug)]
pub enum ProviderCondition {
    CipherVerification,
    SignatureVerification,
    Configuration,
}

/// A provider failure: a condition out of the closed set and diagnostic
/// text that is passed through unchanged.
pub struct ProviderError {
    pub condition: ProviderCondition,
    pub message: String,
}

pub struct ProviderErrorV {
    pub condition: ProviderCondition,
    pub message: Seq<char>,
}

impl View for ProviderError {
    type V = ProviderErrorV;

    open spec fn view(&self) -> ProviderErrorV {
        ProviderErrorV { condition: self.condition, message: self.message@ }
    }
}

/// What scrypt computes: the derived key, and the sequence of progress
/// percentages it reports while deriving it. Both are functions of the
/// parameters alone.
pub uninterp spec fn scrypt_of(
    passwd: Seq<u8>,
    salt: Seq<u8>,
    log_n: u8,
    r: u32,
    p: u32,
    dk_len: u32,
) -> (Seq<u8>, Seq<u32>);

/// The Diffie-Hellman-style shared key for a secret and a peer public key.
pub uninterp spec fn dh_shared_of(sk: Seq<u8>, pk: Seq<u8>) -> Seq<u8>;

/// The curve25519 public key of a secret key.
pub uninterp spec fn pubkey_of(sk: Seq<u8>) -> Seq<u8>;

/// The secret-box cipher of a message under a nonce and key.
pub uninterp spec fn sbox_pack_of(m: Seq<u8>, n: Seq<u8>, k: Seq<u8>) -> Seq<u8>;

/// What opening a secret-box cipher under a nonce and key yields: the
/// plaintext, or nothing when authentication fails.
pub uninterp spec fn sbox_open_of(c: Seq<u8>, n: Seq<u8>, k: Seq<u8>) -> Option<Seq<u8>>;

/// The ed25519 public key derived from a 32-byte seed.
pub uninterp spec fn sign_pkey_of(seed: Seq<u8>) -> Seq<u8>;

/// The ed25519 signature of a message under a secret key.
pub uninterp spec fn sig_of(m: Seq<u8>, sk: Seq<u8>) -> Seq<u8>;

/// Whether a signature checks out against a message and a public key.
pub uninterp spec fn sig_checks(sig: Seq<u8>, m: Seq<u8>, pk: Seq<u8>) -> bool;

/// Relies on nacl::scrypt. Its source rejects only r*p >= 2^30, an oversize
/// derived-key length (impossible for a u32) and log_n > 31; beyond those,
/// the preconditions here exclude the inputs on which it panics — r or p of
/// zero (an index underflow, a division by zero), 2*2^log_n*p overflowing
/// the u32 its progress accounting uses, and buffer sizes past memory
/// arithmetic — and on what remains it always derives dk_len bytes
/// determined by the parameters alone. Progress percentages reported
/// through the callback are collected in order into the second component;
/// the source reports 3 first, unconditionally, and 100 last.
#[verifier::external_body]
pub(crate) fn scrypt_call(
    passwd: &Vec<u8>,
    salt: &Vec<u8>,
    log_n: u8,
    r: u32,
    p: u32,
    dk_len: u32,
) -> (res: (Result<Vec<u8>, ProviderError>, Vec<u32>))
    requires
        log_n <= 31,
        r >= 1,
        p >= 1,
        (r as nat) * (p as nat) < 0x4000_0000,
        2 * ((1u64 << (log_n as u64)) as nat) * (p as nat) < 0x1_0000_0000,
        128 * (r as nat) * ((1u64 << (log_n as u64)) as nat) <= usize::MAX as nat,
        128 * (r as nat) * (p as nat) <= usize::MAX as nat,
    ensures
        res.0 is Ok,
        res.0 matches Ok(v) ==> v@ == scrypt_of(passwd@, salt@, log_n, r, p, dk_len).0
            && v@.len() == dk_len,
        res.1@ == scrypt_of(passwd@, salt@, log_n, r, p, dk_len).1,
        res.1@.len() >= 2,
        res.1@[0] == 3,
        res.1@[res.1@.len() - 1] == 100,
{
    let prog = std::cell::RefCell::new(Vec::new());
    let cb = |pc: u32| prog.borrow_mut().push(pc);
    let out = nacl::scrypt(
        passwd.as_slice(),
        salt.as_slice(),
        log_n,
        r as usize,
        p as usize,
        dk_len as usize,
        &cb,
    ).map_err(|e| ProviderError {
        condition: ProviderCondition::Configuration,
        message: e.message,
    });
    (out, prog.into_inner())
}

/// Relies on nacl::public_box::calc_dhshared_key: a configuration error
/// exactly when either key is not 32 bytes, else 32 bytes determined by the
/// two keys. The secret key is handed to the call's `sk` parameter and the
/// peer public key to its `pk` parameter.
#[verifier::external_body]
pub(crate) fn key_agreement_call(sk: &Vec<u8>, pk: &Vec<u8>) -> (res: Result<
    Vec<u8>,
    ProviderError,
>)
    ensures
        res is Ok <==> (sk@.len() == 32 && pk@.len() == 32),
        res matches Ok(v) ==> v@ == dh_shared_of(sk@, pk@) && v@.len() == 32,
        res matches Err(e) ==> e.condition == ProviderCondition::Configuration,
{
    nacl::public_box::calc_dhshared_key(pk.as_slice(), sk.as_slice()).map_err(
        |e| ProviderError { condition: ProviderCondition::Configuration, message: e.message },
    )
}

/// Relies on nacl::public_box::generate_pubkey: a configuration error
/// exactly when the secret key is not 32 bytes, else the 32-byte public
/// key of that secret key.
#[verifier::external_body]
pub(crate) fn generate_pubkey_call(sk: &Vec<u8>) -> (res: Result<Vec<u8>, ProviderError>)
    ensures
        res is Ok <==> sk@.len() == 32,
        res matches Ok(v) ==> v@ == pubkey_of(sk@) && v@.len() == 32,
        res matches Err(e) ==> e.condition == ProviderCondition::Configuration,
{
    nacl::public_box::generate_pubkey(sk.as_slice()).map_err(
        |e| ProviderError { condition: ProviderCondition::Configuration, message: e.message },
    )
}

/// Relies on nacl::secret_box::pack: a configuration error exactly when the
/// message is empty, the nonce is not 24 bytes or the key is not 32 bytes,
/// else a cipher 16 bytes longer than the message, determined by message,
/// nonce and key.
#[verifier::external_body]
pub(crate) fn sbox_pack_call(m: &Vec<u8>, n: &Vec<u8>, k: &Vec<u8>) -> (res: Result<
    Vec<u8>,
    ProviderError,
>)
    ensures
        res is Ok <==> (m@.len() > 0 && n@.len() == 24 && k@.len() == 32),
        res matches Ok(v) ==> v@ == sbox_pack_of(m@, n@, k@) && v@.len() == m@.len() + 16,
        res matches Err(e) ==> e.condition == ProviderCondition::Configuration,
{
    nacl::secret_box::pack(m.as_slice(), n.as_slice(), k.as_slice()).map_err(
        |e| ProviderError { condition: ProviderCondition::Configuration, message: e.message },
    )
}

/// Relies on nacl::secret_box::open: a configuration error exactly when the
/// cipher is shorter than 17 bytes, the nonce is not 24 bytes or the key is
/// not 32 bytes; otherwise a cipher-verification error exactly when
/// authentication fails, else the plaintext, 16 bytes shorter than the
/// cipher.
#[verifier::external_body]
pub(crate) fn sbox_open_call(c: &Vec<u8>, n: &Vec<u8>, k: &Vec<u8>) -> (res: Result<
    Vec<u8>,
    ProviderError,
>)
    ensures
        match res {
            Result::Ok(v) => c@.len() >= 17 && n@.len() == 24 && k@.len() == 32 && sbox_open_of(
                c@,
                n@,
                k@,
            ) == Option::Some(v@) && v@.len() == c@.len() - 16,
            Result::Err(e) => if c@.len() >= 17 && n@.len() == 24 && k@.len() == 32 {
                e.condition == ProviderCondition::CipherVerification && sbox_open_of(c@, n@, k@)
                    is None
            } else {
                e.condition == ProviderCondition::Configuration
            },
        },
{
    nacl::secret_box::open(c.as_slice(), n.as_slice(), k.as_slice()).map_err(
        |e| ProviderError {
            condition: match e.condition {
                nacl::ErrorCondition::CipherVerification => ProviderCondition::CipherVerification,
                nacl::ErrorCondition::SignatureVerification =>
                    ProviderCondition::SignatureVerification,
                nacl::ErrorCondition::Configuration => ProviderCondition::Configuration,
            },
            message: e.message,
        },
    )
}

/// Relies on nacl::secret_box::format_wn::pack: the same checks as the
/// plain pack, and on success the nonce followed by the plain pack's
/// cipher.
#[verifier::external_body]
pub(crate) fn wn_pack_call(m: &Vec<u8>, n: &Vec<u8>, k: &Vec<u8>) -> (res: Result<
    Vec<u8>,
    ProviderError,
>)
    ensures
        res is Ok <==> (m@.len() > 0 && n@.len() == 24 && k@.len() == 32),
        res matches Ok(v) ==> v@ == n@ + sbox_pack_of(m@, n@, k@) && v@.len() == m@.len() + 40,
        res matches Err(e) ==> e.condition == ProviderCondition::Configuration,
{
    nacl::secret_box::format_wn::pack(m.as_slice(), n.as_slice(), k.as_slice()).map_err(
        |e| ProviderError { condition: ProviderCondition::Configuration, message: e.message },
    )
}

/// Relies on nacl::secret_box::format_wn::open: a configuration error when
/// the buffer is shorter than 41 bytes or the key is not 32 bytes; else it
/// opens the tail of the buffer under the 24-byte nonce at its front.
#[verifier::external_body]
pub(crate) fn wn_open_call(c: &Vec<u8>, k: &Vec<u8>) -> (res: Result<Vec<u8>, ProviderError>)
    ensures
        match res {
            Result::Ok(v) => c@.len() >= 41 && k@.len() == 32 && sbox_open_of(
                c@.skip(24),
                c@.subrange(0, 24),
                k@,
            ) == Option::Some(v@) && v@.len() == c@.len() - 40,
            Result::Err(e) => if c@.len() >= 41 && k@.len() == 32 {
                e.condition == ProviderCondition::CipherVerification && sbox_open_of(
                    c@.skip(24),
                    c@.subrange(0, 24),
                    k@,
                ) is None
            } else {
                e.condition == ProviderCondition::Configuration
            },
        },
{
    nacl::secret_box::format_wn::open(c.as_slice(), k.as_slice()).map_err(
        |e| ProviderError {
            condition: match e.condition {
                nacl::ErrorCondition::CipherVerification => ProviderCondition::CipherVerification,
                nacl::ErrorCondition::SignatureVerification =>
                    ProviderCondition::SignatureVerification,
                nacl::ErrorCondition::Configuration => ProviderCondition::Configuration,
            },
            message: e.message,
        },
    )
}

/// Relies on nacl::sign::generate_keypair: for a 32-byte seed (anything
/// else makes the call panic, hence the precondition) it returns the
/// keypair whose secret key is the seed followed by the public key derived
/// from the seed.
#[verifier::external_body]
pub(crate) fn sign_keypair_call(seed: &Vec<u8>) -> (res: (Vec<u8>, Vec<u8>))
    requires
        seed@.len() == 32,
    ensures
        res.0@ == seed@ + sign_pkey_of(seed@),
        res.1@ == sign_pkey_of(seed@),
        res.0@.len() == 64,
        res.1@.len() == 32,
{
    let pair = nacl::sign::generate_keypair(seed.as_slice());
    (pair.skey.to_vec(), pair.pkey.to_vec())
}

/// Relies on nacl::sign::signature: a configuration error exactly when the
/// secret key is not 64 bytes or the message is empty, else the 64-byte
/// signature determined by message and key.
#[verifier::external_body]
pub(crate) fn signature_call(m: &Vec<u8>, sk: &Vec<u8>) -> (res: Result<Vec<u8>, ProviderError>)
    ensures
        res is Ok <==> (sk@.len() == 64 && m@.len() > 0),
        res matches Ok(v) ==> v@ == sig_of(m@, sk@) && v@.len() == 64,
        res matches Err(e) ==> e.condition == ProviderCondition::Configuration,
{
    nacl::sign::signature(m.as_slice(), sk.as_slice()).map_err(
        |e| ProviderError { condition: ProviderCondition::Configuration, message: e.message },
    )
}

/// Relies on nacl::sign::verify: a configuration error exactly when the
/// public key is not 32 bytes, else the boolean verdict determined by
/// signature, message and public key. The library's argument order is
/// (message, signature, key); the call's is (signature, message, key).
#[verifier::external_body]
pub(crate) fn verify_call(m: &Vec<u8>, sig: &Vec<u8>, pk: &Vec<u8>) -> (res: Result<
    bool,
    ProviderError,
>)
    ensures
        res is Ok <==> pk@.len() == 32,
        res matches Ok(b) ==> b == sig_checks(sig@, m@, pk@),
        res matches Err(e) ==> e.condition == ProviderCondition::Configuration,
{
    nacl::sign::verify(sig.as_slice(), m.as_slice(), pk.as_slice()).map_err(
        |e| ProviderError { condition: ProviderCondition::Configuration, message: e.message },
    )
}

} // verus!
