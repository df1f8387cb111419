//! Executable encoders and decoders for the wire schema.
//!
//! Each encoder returns exactly the specification encoding of its argument;
//! each decoder returns exactly what the specification decoder yields, so a
//! decoder accepts a buffer if and only if the buffer is a canonical
//! encoding.

use vstd::prelude::*;
use crate::wire::{
    field, le_bytes, le_val, fits_field, push_field, read_field, le32_vec, bytes_eq,
};
use crate::schema::{
    seq_views, lemma_seq_views_push,
    Condition, ErrorDesc, Reply, ScryptArgs, Request, Keypair, cond_bytes, scrypt_wf, request_wf,
    desc_wf, reply_wf, keypair_wf, enc_scrypt, enc_args, enc_request, enc_desc, enc_reply,
    enc_keypair, enc_bytes_val, enc_bool_val, dec_scrypt, dec_args, dec_request, dec_cond,
    dec_desc, dec_reply, dec_keypair, dec_bytes_val, dec_bool_val,
};
use crate::roundtrip::lemma_cond_bytes_fits;
use vstd::string::StrSliceExecFns;
use vstd::utf8::{valid_utf8, decode_utf8};

verus! {

/// A malformed inbound buffer: it is not a canonical encoding of any value.
#[derive(Debug)]
pub struct DecodeError;

/// The diagnostic text of a decode failure.
pub open spec fn decode_error_text() -> Seq<char> {
    "malformed message: not a canonical encoding"@
}

impl DecodeError {
    pub fn message(&self) -> (s: String)
        ensures
            s@ == decode_error_text(),
    {
        String::from_str("malformed message: not a canonical encoding")
    }
}

// ---------------------------------------------------------------------------
// Encoders
// ---------------------------------------------------------------------------

pub fn encode_scrypt(a: &ScryptArgs) -> (out: Vec<u8>)
    requires
        scrypt_wf(a@),
    ensures
        out@ == enc_scrypt(a@),
{
    let mut out: Vec<u8> = Vec::new();
    push_field(&mut out, 1, &a.passwd);
    push_field(&mut out, 2, &a.salt);
    let mut one: Vec<u8> = Vec::new();
    one.push(a.log_n);
    proof {
        assert(one@ =~= seq![a@.log_n]);
    }
    push_field(&mut out, 3, &one);
    push_field(&mut out, 4, &le32_vec(a.r));
    push_field(&mut out, 5, &le32_vec(a.p));
    push_field(&mut out, 6, &le32_vec(a.dk_len));
    proof {
        assert(out@ =~= enc_scrypt(a@));
    }
    out
}

proof fn lemma_enc_args_snoc(xs: Seq<Seq<u8>>, x: Seq<u8>)
    ensures
        enc_args(xs.push(x)) == enc_args(xs) + field(2, x),
    decreases xs.len(),
{
    if xs.len() == 0 {
        let e = Seq::<Seq<u8>>::empty();
        assert(enc_args(e) == Seq::<u8>::empty());
        assert(xs.push(x)[0] == x);
        assert(xs.push(x).drop_first() =~= e);
        assert(enc_args(xs.push(x)) == field(2, x) + enc_args(e));
        assert(field(2, x) + Seq::<u8>::empty() =~= field(2, x));
        assert(enc_args(xs) == Seq::<u8>::empty());
        assert(Seq::<u8>::empty() + field(2, x) =~= field(2, x));
    } else {
        assert(xs.push(x)[0] == xs[0]);
        assert(xs.push(x).drop_first() =~= xs.drop_first().push(x));
        lemma_enc_args_snoc(xs.drop_first(), x);
        assert(enc_args(xs.push(x)) =~= enc_args(xs) + field(2, x));
    }
}

pub fn encode_request(r: &Request) -> (out: Vec<u8>)
    requires
        request_wf(r@),
    ensures
        out@ == enc_request(r@),
{
    let mut out: Vec<u8> = Vec::new();
    push_field(&mut out, 1, &le32_vec(r.func));
    let mut i: usize = 0;
    while i < r.byte_args.len()
        invariant
            i <= r.byte_args@.len(),
            request_wf(r@),
            out@ == field(1, le_bytes(r@.func)) + enc_args(r@.byte_args.take(i as int)),
        decreases r.byte_args@.len() - i,
    {
        proof {
            assert(r@.byte_args[i as int] == r.byte_args@[i as int]@);
            assert(fits_field(r@.byte_args[i as int]));
            lemma_enc_args_snoc(r@.byte_args.take(i as int), r@.byte_args[i as int]);
            assert(r@.byte_args.take(i as int).push(r@.byte_args[i as int]) =~= r@.byte_args.take(
                i + 1 as int,
            ));
        }
        push_field(&mut out, 2, &r.byte_args[i]);
        i += 1;
    }
    proof {
        assert(r@.byte_args.take(r.byte_args@.len() as int) =~= r@.byte_args);
    }
    match &r.scrypt_args {
        Option::None => {
            proof {
                assert(out@ =~= enc_request(r@));
            }
        },
        Option::Some(a) => {
            let sub = encode_scrypt(a);
            proof {
                assert(sub@.len() == a@.passwd.len() + a@.salt.len() + 43);
            }
            push_field(&mut out, 3, &sub);
            proof {
                assert(out@ =~= enc_request(r@));
            }
        },
    }
    out
}

/// The wire bytes of a condition tag.
fn cond_tag_bytes(c: Condition) -> (out: Vec<u8>)
    ensures
        out@ == cond_bytes(c),
{
    match c {
        Condition::MessagePassing => "message-passing-error".as_bytes_vec(),
        Condition::CipherVerification => "cipher-verification".as_bytes_vec(),
        Condition::SignatureVerification => "signature-verification".as_bytes_vec(),
        Condition::Configuration => "configuration-error".as_bytes_vec(),
    }
}

pub fn encode_desc(d: &ErrorDesc) -> (out: Vec<u8>)
    requires
        desc_wf(d@),
    ensures
        out@ == enc_desc(d@),
{
    let mut out: Vec<u8> = Vec::new();
    let cb = cond_tag_bytes(d.condition);
    proof {
        lemma_cond_bytes_fits(d@.condition);
    }
    push_field(&mut out, 1, &cb);
    let mb = d.message.as_str().as_bytes_vec();
    push_field(&mut out, 2, &mb);
    proof {
        assert(out@ =~= enc_desc(d@));
    }
    out
}

pub fn encode_reply(r: &Reply) -> (out: Vec<u8>)
    requires
        reply_wf(r@),
    ensures
        out@ == enc_reply(r@),
{
    let mut out: Vec<u8> = Vec::new();
    match r {
        Reply::Res(b) => {
            push_field(&mut out, 1, b);
        },
        Reply::Interim(b) => {
            push_field(&mut out, 2, b);
        },
        Reply::Fail(d) => {
            let sub = encode_desc(d);
            proof {
                lemma_cond_bytes_fits(d@.condition);
            }
            push_field(&mut out, 3, &sub);
        },
    }
    proof {
        assert(out@ =~= enc_reply(r@));
    }
    out
}

pub fn encode_keypair(k: &Keypair) -> (out: Vec<u8>)
    requires
        keypair_wf(k@),
    ensures
        out@ == enc_keypair(k@),
{
    let mut out: Vec<u8> = Vec::new();
    push_field(&mut out, 1, &k.skey);
    push_field(&mut out, 2, &k.pkey);
    proof {
        assert(out@ =~= enc_keypair(k@));
    }
    out
}

pub fn encode_bytes_val(b: &Vec<u8>) -> (out: Vec<u8>)
    requires
        fits_field(b@),
    ensures
        out@ == enc_bytes_val(b@),
{
    let mut out: Vec<u8> = Vec::new();
    push_field(&mut out, 1, b);
    proof {
        assert(out@ =~= enc_bytes_val(b@));
    }
    out
}

pub fn encode_bool_val(v: bool) -> (out: Vec<u8>)
    ensures
        out@ == enc_bool_val(v),
{
    let mut out: Vec<u8> = Vec::new();
    let mut one: Vec<u8> = Vec::new();
    one.push(if v { 1u8 } else { 0u8 });
    proof {
        assert(one@ =~= seq![if v { 1u8 } else { 0u8 }]);
    }
    push_field(&mut out, 1, &one);
    proof {
        assert(out@ =~= enc_bool_val(v));
    }
    out
}

// ---------------------------------------------------------------------------
// Decoders
// ---------------------------------------------------------------------------

/// The value of a four-byte little-endian payload.
fn le32_read(p: &Vec<u8>) -> (n: u32)
    requires
        p@.len() == 4,
    ensures
        n == le_val(p@),
{
    (p[0] as u32) | ((p[1] as u32) << 8) | ((p[2] as u32) << 16) | ((p[3] as u32) << 24)
}

pub fn decode_scrypt(buf: &Vec<u8>) -> (r: Option<ScryptArgs>)
    ensures
        match r {
            Option::Some(a) => dec_scrypt(buf@) == Option::Some(a@),
            Option::None => dec_scrypt(buf@) is None,
        },
{
    proof {
        assert(buf@.skip(0) =~= buf@);
    }
    let f1 = match read_field(buf, 0) {
        Option::Some(t) => t,
        Option::None => {
            return Option::None;
        },
    };
    if f1.0 != 1 {
        return Option::None;
    }
    let f2 = match read_field(buf, f1.2) {
        Option::Some(t) => t,
        Option::None => {
            return Option::None;
        },
    };
    if f2.0 != 2 {
        return Option::None;
    }
    let f3 = match read_field(buf, f2.2) {
        Option::Some(t) => t,
        Option::None => {
            return Option::None;
        },
    };
    if f3.0 != 3 || f3.1.len() != 1 {
        return Option::None;
    }
    let f4 = match read_field(buf, f3.2) {
        Option::Some(t) => t,
        Option::None => {
            return Option::None;
        },
    };
    if f4.0 != 4 || f4.1.len() != 4 {
        return Option::None;
    }
    let f5 = match read_field(buf, f4.2) {
        Option::Some(t) => t,
        Option::None => {
            return Option::None;
        },
    };
    if f5.0 != 5 || f5.1.len() != 4 {
        return Option::None;
    }
    let f6 = match read_field(buf, f5.2) {
        Option::Some(t) => t,
        Option::None => {
            return Option::None;
        },
    };
    if f6.0 != 6 || f6.1.len() != 4 || f6.2 != buf.len() {
        return Option::None;
    }
    let log_n = f3.1[0];
    let rr = le32_read(&f4.1);
    let pp = le32_read(&f5.1);
    let dk = le32_read(&f6.1);
    Option::Some(ScryptArgs { passwd: f1.1, salt: f2.1, log_n, r: rr, p: pp, dk_len: dk })
}

pub fn decode_request(buf: &Vec<u8>) -> (r: Result<Request, DecodeError>)
    ensures
        match r {
            Result::Ok(req) => dec_request(buf@) == Option::Some(req@),
            Result::Err(_) => dec_request(buf@) is None,
        },
{
    proof {
        assert(buf@.skip(0) =~= buf@);
    }
    let f1 = match read_field(buf, 0) {
        Option::Some(t) => t,
        Option::None => {
            return Result::Err(DecodeError);
        },
    };
    if f1.0 != 1 || f1.1.len() != 4 {
        return Result::Err(DecodeError);
    }
    let func = le32_read(&f1.1);
    let ghost start = f1.2 as int;
    let mut args: Vec<Vec<u8>> = Vec::new();
    let mut pos: usize = f1.2;
    let mut done = false;
    while !done
        invariant
            f1.2 <= pos <= buf@.len(),
            dec_args(buf@.skip(start)).0 == seq_views(args@) + dec_args(buf@.skip(pos as int)).0,
            dec_args(buf@.skip(start)).1 == dec_args(buf@.skip(pos as int)).1,
            done ==> dec_args(buf@.skip(pos as int)) == (Seq::<Seq<u8>>::empty(), buf@.skip(
                pos as int,
            )),
        decreases buf@.len() - pos, (if done {
            0int
        } else {
            1int
        }),
    {
        match read_field(buf, pos) {
            Option::Some(t) => {
                if t.0 == 2 {
                    proof {
                        assert(dec_args(buf@.skip(pos as int)).0 == seq![t.1@] + dec_args(
                            buf@.skip(t.2 as int),
                        ).0);
                    }
                    let ghost prev = args@;
                    args.push(t.1);
                    proof {
                        lemma_seq_views_push(prev, t.1);
                        assert(args@ == prev.push(t.1));
                        assert(seq_views(prev) + (seq![t.1@] + dec_args(buf@.skip(t.2 as int)).0)
                            =~= seq_views(args@) + dec_args(buf@.skip(t.2 as int)).0);
                    }
                    pos = t.2;
                } else {
                    done = true;
                }
            },
            Option::None => {
                done = true;
            },
        }
    }
    proof {
        assert(seq_views(args@) + Seq::<Seq<u8>>::empty() =~= seq_views(args@));
        assert(dec_args(buf@.skip(start)) == (seq_views(args@), buf@.skip(pos as int)));
    }
    if pos == buf.len() {
        proof {
            assert(buf@.skip(pos as int) =~= Seq::<u8>::empty());
        }
        return Result::Ok(Request { func, byte_args: args, scrypt_args: Option::None });
    }
    let f3 = match read_field(buf, pos) {
        Option::Some(t) => t,
        Option::None => {
            return Result::Err(DecodeError);
        },
    };
    if f3.0 != 3 || f3.2 != buf.len() {
        return Result::Err(DecodeError);
    }
    proof {
        assert(buf@.skip(f3.2 as int) =~= Seq::<u8>::empty());
    }
    match decode_scrypt(&f3.1) {
        Option::Some(a) => Result::Ok(
            Request { func, byte_args: args, scrypt_args: Option::Some(a) },
        ),
        Option::None => Result::Err(DecodeError),
    }
}

/// Relies on `String::from_utf8`: it succeeds exactly on valid UTF-8 input
/// and decodes those bytes, as `str::from_utf8_unchecked`'s contract in vstd
/// models validity and decoding.
#[verifier::external_body]
fn bytes_to_string(v: Vec<u8>) -> (r: Option<String>)
    ensures
        r is Some <==> valid_utf8(v@),
        r matches Some(s) ==> s@ == decode_utf8(v@),
{
    String::from_utf8(v).ok()
}

/// The condition named by these wire bytes, if any.
fn decode_cond(p: &Vec<u8>) -> (r: Option<Condition>)
    ensures
        match r {
            Option::Some(c) => dec_cond(p@) == Option::Some(c),
            Option::None => dec_cond(p@) is None,
        },
{
    if bytes_eq(p, &cond_tag_bytes(Condition::MessagePassing)) {
        Option::Some(Condition::MessagePassing)
    } else if bytes_eq(p, &cond_tag_bytes(Condition::CipherVerification)) {
        Option::Some(Condition::CipherVerification)
    } else if bytes_eq(p, &cond_tag_bytes(Condition::SignatureVerification)) {
        Option::Some(Condition::SignatureVerification)
    } else if bytes_eq(p, &cond_tag_bytes(Condition::Configuration)) {
        Option::Some(Condition::Configuration)
    } else {
        Option::None
    }
}

pub fn decode_desc(buf: &Vec<u8>) -> (r: Option<ErrorDesc>)
    ensures
        match r {
            Option::Some(d) => dec_desc(buf@) == Option::Some(d@),
            Option::None => dec_desc(buf@) is None,
        },
{
    proof {
        assert(buf@.skip(0) =~= buf@);
    }
    let f1 = match read_field(buf, 0) {
        Option::Some(t) => t,
        Option::None => {
            return Option::None;
        },
    };
    if f1.0 != 1 {
        return Option::None;
    }
    let c = match decode_cond(&f1.1) {
        Option::Some(c) => c,
        Option::None => {
            return Option::None;
        },
    };
    let f2 = match read_field(buf, f1.2) {
        Option::Some(t) => t,
        Option::None => {
            return Option::None;
        },
    };
    if f2.0 != 2 || f2.2 != buf.len() {
        return Option::None;
    }
    proof {
        assert(buf@.skip(f2.2 as int) =~= Seq::<u8>::empty());
    }
    match bytes_to_string(f2.1) {
        Option::Some(s) => Option::Some(ErrorDesc { condition: c, message: s }),
        Option::None => Option::None,
    }
}

pub fn decode_reply(buf: &Vec<u8>) -> (r: Result<Reply, DecodeError>)
    ensures
        match r {
            Result::Ok(rep) => dec_reply(buf@) == Option::Some(rep@),
            Result::Err(_) => dec_reply(buf@) is None,
        },
{
    proof {
        assert(buf@.skip(0) =~= buf@);
    }
    let f = match read_field(buf, 0) {
        Option::Some(t) => t,
        Option::None => {
            return Result::Err(DecodeError);
        },
    };
    if f.2 != buf.len() {
        return Result::Err(DecodeError);
    }
    proof {
        assert(buf@.skip(f.2 as int) =~= Seq::<u8>::empty());
    }
    if f.0 == 1 {
        Result::Ok(Reply::Res(f.1))
    } else if f.0 == 2 {
        Result::Ok(Reply::Interim(f.1))
    } else if f.0 == 3 {
        match decode_desc(&f.1) {
            Option::Some(d) => Result::Ok(Reply::Fail(d)),
            Option::None => Result::Err(DecodeError),
        }
    } else {
        Result::Err(DecodeError)
    }
}

pub fn decode_keypair(buf: &Vec<u8>) -> (r: Option<Keypair>)
    ensures
        match r {
            Option::Some(k) => dec_keypair(buf@) == Option::Some(k@),
            Option::None => dec_keypair(buf@) is None,
        },
{
    proof {
        assert(buf@.skip(0) =~= buf@);
    }
    let f1 = match read_field(buf, 0) {
        Option::Some(t) => t,
        Option::None => {
            return Option::None;
        },
    };
    if f1.0 != 1 {
        return Option::None;
    }
    let f2 = match read_field(buf, f1.2) {
        Option::Some(t) => t,
        Option::None => {
            return Option::None;
        },
    };
    if f2.0 != 2 || f2.2 != buf.len() {
        return Option::None;
    }
    proof {
        assert(buf@.skip(f2.2 as int) =~= Seq::<u8>::empty());
    }
    Option::Some(Keypair { skey: f1.1, pkey: f2.1 })
}

pub fn decode_bytes_val(buf: &Vec<u8>) -> (r: Option<Vec<u8>>)
    ensures
        match r {
            Option::Some(v) => dec_bytes_val(buf@) == Option::Some(v@),
            Option::None => dec_bytes_val(buf@) is None,
        },
{
    proof {
        assert(buf@.skip(0) =~= buf@);
    }
    let f1 = match read_field(buf, 0) {
        Option::Some(t) => t,
        Option::None => {
            return Option::None;
        },
    };
    if f1.0 != 1 || f1.2 != buf.len() {
        return Option::None;
    }
    proof {
        assert(buf@.skip(f1.2 as int) =~= Seq::<u8>::empty());
    }
    Option::Some(f1.1)
}

pub fn decode_bool_val(buf: &Vec<u8>) -> (r: Option<bool>)
    ensures
        match r {
            Option::Some(v) => dec_bool_val(buf@) == Option::Some(v),
            Option::None => dec_bool_val(buf@) is None,
        },
{
    proof {
        assert(buf@.skip(0) =~= buf@);
    }
    let f1 = match read_field(buf, 0) {
        Option::Some(t) => t,
        Option::None => {
            return Option::None;
        },
    };
    if f1.0 != 1 || f1.1.len() != 1 || f1.2 != buf.len() {
        return Option::None;
    }
    proof {
        assert(buf@.skip(f1.2 as int) =~= Seq::<u8>::empty());
    }
    if f1.1[0] == 1 {
        Option::Some(true)
    } else if f1.1[0] == 0 {
        Option::Some(false)
    } else {
        Option::None
    }
}

} // verus!
