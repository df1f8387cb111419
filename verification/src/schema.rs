//! The wire schema, version 1.
//!
//! Every message is a concatenation of fields (see `wire`) whose tags appear
//! in ascending order; a decoder accepts exactly the canonical encodings, so
//! that encoding and decoding are mutually inverse.
//!
//! - `Request`: tag 1 the function code (four bytes, little endian), tag 2
//!   repeated, one per byte argument, tag 3 an optional `ScryptArgs`
//!   submessage.
//! - `ScryptArgs`: tag 1 password bytes, tag 2 salt bytes, tag 3 the
//!   cost log (one byte), tags 4, 5, 6 the block-size factor, parallelism
//!   and derived-key length (four bytes each, little endian), all required.
//! - `Reply`: exactly one of tag 1 (result bytes), tag 2 (interim bytes) or
//!   tag 3 (an `ErrorDesc` submessage).
//! - `ErrorDesc`: tag 1 the condition tag, tag 2 the diagnostic message,
//!   both as UTF-8 text; the condition is one of the four tags of
//!   `Condition`.
//! - `Keypair`: tag 1 the secret key bytes, tag 2 the public key bytes.
//! - `BytesVal`: tag 1 the wrapped bytes. `BoolVal`: tag 1 one byte, 1 for
//!   true and 0 for false.

use vstd::prelude::*;
use crate::wire::{field, take_field, le_bytes, le_val, fits_field};
use vstd::utf8::encode_utf8;
use vstd::utf8::decode_utf8;
use vstd::utf8::valid_utf8;
use vstd::string::StringExecFns;

verus! {

/// The closed set of error conditions a reply can carry.
#[derive(Clone, Copy, PartialEq, Eq, Structural, Debug)]
pub enum Condition {
    MessagePassing,
    CipherVerification,
    SignatureVerification,
    Configuration,
}

/// The string tag of a condition, as the caller sees it.
pub open spec fn cond_chars(c: Condition) -> Seq<char> {
    match c {
        Condition::MessagePassing => "message-passing-error"@,
        Condition::CipherVerification => "cipher-verification"@,
        Condition::SignatureVerification => "signature-verification"@,
        Condition::Configuration => "configuration-error"@,
    }
}

/// The wire bytes of a condition: its tag, UTF-8 encoded.
pub open spec fn cond_bytes(c: Condition) -> Seq<u8> {
    encode_utf8(cond_chars(c))
}

impl Condition {
    /// The string tag of this condition, as published in the schema.
    pub fn tag_string(&self) -> (s: String)
        ensures
            s@ == cond_chars(*self),
    {
        match self {
            Condition::MessagePassing => String::from_str("message-passing-error"),
            Condition::CipherVerification => String::from_str("cipher-verification"),
            Condition::SignatureVerification => String::from_str("signature-verification"),
            Condition::Configuration => String::from_str("configuration-error"),
        }
    }
}

/// What an `error` reply carries: a machine-readable condition out of a
/// closed set, and a diagnostic message that is never machine-parsed.
pub struct ErrorDesc {
    pub condition: Condition,
    pub message: String,
}

pub struct ErrorDescV {
    pub condition: Condition,
    pub message: Seq<char>,
}

impl View for ErrorDesc {
    type V = ErrorDescV;

    open spec fn view(&self) -> ErrorDescV {
        ErrorDescV { condition: self.condition, message: self.message@ }
    }
}

/// A reply is exactly one of: a terminal result, an interim progress
/// notification, or a terminal error.
pub enum Reply {
    Res(Vec<u8>),
    Interim(Vec<u8>),
    Fail(ErrorDesc),
}

pub enum ReplyV {
    Res(Seq<u8>),
    Interim(Seq<u8>),
    Fail(ErrorDescV),
}

impl View for Reply {
    type V = ReplyV;

    open spec fn view(&self) -> ReplyV {
        match self {
            Reply::Res(b) => ReplyV::Res(b@),
            Reply::Interim(b) => ReplyV::Interim(b@),
            Reply::Fail(d) => ReplyV::Fail(d@),
        }
    }
}

/// Key-derivation parameters, consumed only by function code 1.
pub struct ScryptArgs {
    pub passwd: Vec<u8>,
    pub salt: Vec<u8>,
    pub log_n: u8,
    pub r: u32,
    pub p: u32,
    pub dk_len: u32,
}

pub struct ScryptArgsV {
    pub passwd: Seq<u8>,
    pub salt: Seq<u8>,
    pub log_n: u8,
    pub r: u32,
    pub p: u32,
    pub dk_len: u32,
}

impl View for ScryptArgs {
    type V = ScryptArgsV;

    open spec fn view(&self) -> ScryptArgsV {
        ScryptArgsV {
            passwd: self.passwd@,
            salt: self.salt@,
            log_n: self.log_n,
            r: self.r,
            p: self.p,
            dk_len: self.dk_len,
        }
    }
}

/// An inbound request: the function code, the positional byte arguments,
/// and the optional structured argument group for key derivation.
pub struct Request {
    pub func: u32,
    pub byte_args: Vec<Vec<u8>>,
    pub scrypt_args: Option<ScryptArgs>,
}

pub struct RequestV {
    pub func: u32,
    pub byte_args: Seq<Seq<u8>>,
    pub scrypt_args: Option<ScryptArgsV>,
}

/// The views of a sequence of byte vectors.
pub open spec fn seq_views(s: Seq<Vec<u8>>) -> Seq<Seq<u8>> {
    Seq::new(s.len(), |i: int| s[i]@)
}

/// Pushing a vector and taking views commute.
pub proof fn lemma_seq_views_push(s: Seq<Vec<u8>>, x: Vec<u8>)
    ensures
        seq_views(s.push(x)) == seq_views(s).push(x@),
{
    assert(seq_views(s.push(x)) =~= seq_views(s).push(x@));
}

impl View for Request {
    type V = RequestV;

    open spec fn view(&self) -> RequestV {
        RequestV {
            func: self.func,
            byte_args: seq_views(self.byte_args@),
            scrypt_args: match self.scrypt_args {
                Option::None => Option::None,
                Option::Some(a) => Option::Some(a@),
            },
        }
    }
}

/// The value returned by function code 8: a signing keypair.
pub struct Keypair {
    pub skey: Vec<u8>,
    pub pkey: Vec<u8>,
}

pub struct KeypairV {
    pub skey: Seq<u8>,
    pub pkey: Seq<u8>,
}

impl View for Keypair {
    type V = KeypairV;

    open spec fn view(&self) -> KeypairV {
        KeypairV { skey: self.skey@, pkey: self.pkey@ }
    }
}

// ---------------------------------------------------------------------------
// Well-formedness: what must hold of a value for its encoding to exist
// (every payload length has to fit the four-byte length word).
// ---------------------------------------------------------------------------

pub open spec fn scrypt_wf(a: ScryptArgsV) -> bool {
    a.passwd.len() + a.salt.len() + 43 < 0x1_0000_0000
}

pub open spec fn request_wf(r: RequestV) -> bool {
    &&& forall|i: int| 0 <= i < r.byte_args.len() ==> fits_field(#[trigger] r.byte_args[i])
    &&& match r.scrypt_args {
        Option::None => true,
        Option::Some(a) => scrypt_wf(a),
    }
}

pub open spec fn desc_wf(d: ErrorDescV) -> bool {
    10 + cond_bytes(d.condition).len() + encode_utf8(d.message).len() < 0x1_0000_0000
}

pub open spec fn reply_wf(r: ReplyV) -> bool {
    match r {
        ReplyV::Res(b) => fits_field(b),
        ReplyV::Interim(b) => fits_field(b),
        ReplyV::Fail(d) => desc_wf(d),
    }
}

pub open spec fn keypair_wf(k: KeypairV) -> bool {
    fits_field(k.skey) && fits_field(k.pkey)
}

// ---------------------------------------------------------------------------
// Specification encoders.
// ---------------------------------------------------------------------------

pub open spec fn enc_scrypt(a: ScryptArgsV) -> Seq<u8> {
    field(1, a.passwd) + field(2, a.salt) + field(3, seq![a.log_n]) + field(4, le_bytes(a.r))
        + field(5, le_bytes(a.p)) + field(6, le_bytes(a.dk_len))
}

pub open spec fn enc_args(args: Seq<Seq<u8>>) -> Seq<u8>
    decreases args.len(),
{
    if args.len() == 0 {
        Seq::empty()
    } else {
        field(2, args[0]) + enc_args(args.drop_first())
    }
}

pub open spec fn enc_request(r: RequestV) -> Seq<u8> {
    field(1, le_bytes(r.func)) + enc_args(r.byte_args) + match r.scrypt_args {
        Option::None => Seq::<u8>::empty(),
        Option::Some(a) => field(3, enc_scrypt(a)),
    }
}

pub open spec fn enc_desc(d: ErrorDescV) -> Seq<u8> {
    field(1, cond_bytes(d.condition)) + field(2, encode_utf8(d.message))
}

pub open spec fn enc_reply(r: ReplyV) -> Seq<u8> {
    match r {
        ReplyV::Res(b) => field(1, b),
        ReplyV::Interim(b) => field(2, b),
        ReplyV::Fail(d) => field(3, enc_desc(d)),
    }
}

pub open spec fn enc_keypair(k: KeypairV) -> Seq<u8> {
    field(1, k.skey) + field(2, k.pkey)
}

pub open spec fn enc_bytes_val(b: Seq<u8>) -> Seq<u8> {
    field(1, b)
}

pub open spec fn enc_bool_val(v: bool) -> Seq<u8> {
    field(1, seq![if v { 1u8 } else { 0u8 }])
}

// ---------------------------------------------------------------------------
// Specification decoders: total functions that accept exactly the canonical
// encodings.
// ---------------------------------------------------------------------------

pub open spec fn dec_scrypt(b: Seq<u8>) -> Option<ScryptArgsV> {
    match take_field(b) {
        Option::None => Option::None,
        Option::Some((t1, passwd, r1)) => {
            if t1 != 1 {
                Option::None
            } else {
                match take_field(r1) {
                    Option::None => Option::None,
                    Option::Some((t2, salt, r2)) => {
                        if t2 != 2 {
                            Option::None
                        } else {
                            match take_field(r2) {
                                Option::None => Option::None,
                                Option::Some((t3, p3, r3)) => {
                                    if t3 != 3 || p3.len() != 1 {
                                        Option::None
                                    } else {
                                        match take_field(r3) {
                                            Option::None => Option::None,
                                            Option::Some((t4, p4, r4)) => {
                                                if t4 != 4 || p4.len() != 4 {
                                                    Option::None
                                                } else {
                                                    match take_field(r4) {
                                                        Option::None => Option::None,
                                                        Option::Some((t5, p5, r5)) => {
                                                            if t5 != 5 || p5.len() != 4 {
                                                                Option::None
                                                            } else {
                                                                match take_field(r5) {
                                                                    Option::None => Option::None,
                                                                    Option::Some((t6, p6, r6)) => {
                                                                        if t6 != 6 || p6.len() != 4
                                                                            || r6.len() != 0 {
                                                                            Option::None
                                                                        } else {
                                                                            Option::Some(
                                                                                ScryptArgsV {
                                                                                    passwd,
                                                                                    salt,
                                                                                    log_n: p3[0],
                                                                                    r: le_val(p4),
                                                                                    p: le_val(p5),
                                                                                    dk_len: le_val(
                                                                                        p6,
                                                                                    ),
                                                                                },
                                                                            )
                                                                        }
                                                                    },
                                                                }
                                                            }
                                                        },
                                                    }
                                                }
                                            },
                                        }
                                    }
                                },
                            }
                        }
                    },
                }
            }
        },
    }
}

/// Reads the run of tag-2 fields at the front of `b`: the argument payloads
/// and the bytes after the run.
pub open spec fn dec_args(b: Seq<u8>) -> (Seq<Seq<u8>>, Seq<u8>)
    decreases b.len(),
{
    match take_field(b) {
        Option::Some((tag, p, rest)) => {
            if tag == 2 {
                let (xs, suffix) = dec_args(rest);
                (seq![p] + xs, suffix)
            } else {
                (Seq::empty(), b)
            }
        },
        Option::None => (Seq::empty(), b),
    }
}

pub open spec fn dec_request(b: Seq<u8>) -> Option<RequestV> {
    match take_field(b) {
        Option::None => Option::None,
        Option::Some((t1, p1, r1)) => {
            if t1 != 1 || p1.len() != 4 {
                Option::None
            } else {
                let (args, suffix) = dec_args(r1);
                if suffix.len() == 0 {
                    Option::Some(
                        RequestV {
                            func: le_val(p1),
                            byte_args: args,
                            scrypt_args: Option::None,
                        },
                    )
                } else {
                    match take_field(suffix) {
                        Option::None => Option::None,
                        Option::Some((t3, p3, r3)) => {
                            if t3 != 3 || r3.len() != 0 {
                                Option::None
                            } else {
                                match dec_scrypt(p3) {
                                    Option::None => Option::None,
                                    Option::Some(a) => Option::Some(
                                        RequestV {
                                            func: le_val(p1),
                                            byte_args: args,
                                            scrypt_args: Option::Some(a),
                                        },
                                    ),
                                }
                            }
                        },
                    }
                }
            }
        },
    }
}

/// The condition named by these wire bytes, if they are exactly one of the
/// four tags.
pub open spec fn dec_cond(b: Seq<u8>) -> Option<Condition> {
    if b == cond_bytes(Condition::MessagePassing) {
        Option::Some(Condition::MessagePassing)
    } else if b == cond_bytes(Condition::CipherVerification) {
        Option::Some(Condition::CipherVerification)
    } else if b == cond_bytes(Condition::SignatureVerification) {
        Option::Some(Condition::SignatureVerification)
    } else if b == cond_bytes(Condition::Configuration) {
        Option::Some(Condition::Configuration)
    } else {
        Option::None
    }
}

pub open spec fn dec_desc(b: Seq<u8>) -> Option<ErrorDescV> {
    match take_field(b) {
        Option::None => Option::None,
        Option::Some((t1, p1, r1)) => {
            if t1 != 1 {
                Option::None
            } else {
                match dec_cond(p1) {
                    Option::None => Option::None,
                    Option::Some(c) => match take_field(r1) {
                        Option::None => Option::None,
                        Option::Some((t2, p2, r2)) => {
                            if t2 != 2 || r2.len() != 0 || !valid_utf8(p2) {
                                Option::None
                            } else {
                                Option::Some(
                                    ErrorDescV { condition: c, message: decode_utf8(p2) },
                                )
                            }
                        },
                    },
                }
            }
        },
    }
}

pub open spec fn dec_reply(b: Seq<u8>) -> Option<ReplyV> {
    match take_field(b) {
        Option::None => Option::None,
        Option::Some((tag, p, rest)) => {
            if rest.len() != 0 {
                Option::None
            } else if tag == 1 {
                Option::Some(ReplyV::Res(p))
            } else if tag == 2 {
                Option::Some(ReplyV::Interim(p))
            } else if tag == 3 {
                match dec_desc(p) {
                    Option::None => Option::None,
                    Option::Some(d) => Option::Some(ReplyV::Fail(d)),
                }
            } else {
                Option::None
            }
        },
    }
}

pub open spec fn dec_keypair(b: Seq<u8>) -> Option<KeypairV> {
    match take_field(b) {
        Option::None => Option::None,
        Option::Some((t1, skey, r1)) => {
            if t1 != 1 {
                Option::None
            } else {
                match take_field(r1) {
                    Option::None => Option::None,
                    Option::Some((t2, pkey, r2)) => {
                        if t2 != 2 || r2.len() != 0 {
                            Option::None
                        } else {
                            Option::Some(KeypairV { skey, pkey })
                        }
                    },
                }
            }
        },
    }
}

pub open spec fn dec_bytes_val(b: Seq<u8>) -> Option<Seq<u8>> {
    match take_field(b) {
        Option::None => Option::None,
        Option::Some((t1, p, r1)) => {
            if t1 != 1 || r1.len() != 0 {
                Option::None
            } else {
                Option::Some(p)
            }
        },
    }
}

pub open spec fn dec_bool_val(b: Seq<u8>) -> Option<bool> {
    match take_field(b) {
        Option::None => Option::None,
        Option::Some((t1, p, r1)) => {
            if t1 != 1 || r1.len() != 0 || p.len() != 1 {
                Option::None
            } else if p[0] == 1 {
                Option::Some(true)
            } else if p[0] == 0 {
                Option::Some(false)
            } else {
                Option::None
            }
        },
    }
}

} // verus!
