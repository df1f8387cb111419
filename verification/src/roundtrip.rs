//! The schema round-trip laws: decoding inverts encoding on every
//! well-formed value, and encoding inverts decoding on every buffer a
//! decoder accepts. Together they say the decoders accept exactly the
//! canonical encodings.

use vstd::prelude::*;
use crate::wire::{
    field, take_field, le_bytes, fits_field, lemma_take_field_of_field, lemma_field_reconstruct,
    lemma_le_val_of_le_bytes, lemma_le_bytes_of_le_val,
};
use crate::schema::{
    Condition, ErrorDescV, ReplyV, ScryptArgsV, RequestV, KeypairV, cond_chars, cond_bytes,
    scrypt_wf, request_wf, desc_wf, reply_wf, keypair_wf, enc_scrypt, enc_args, enc_request,
    enc_desc, enc_reply, enc_keypair, enc_bytes_val, enc_bool_val, dec_scrypt, dec_args,
    dec_request, dec_cond, dec_desc, dec_reply, dec_keypair, dec_bytes_val, dec_bool_val,
};
use vstd::utf8::{
    encode_utf8, encode_utf8_valid_utf8, encode_utf8_decode_utf8, decode_utf8_encode_utf8,
};

verus! {

/// A UTF-8 encoding takes at most four bytes per character.
pub proof fn lemma_encode_utf8_len(s: Seq<char>)
    ensures
        encode_utf8(s).len() <= 4 * s.len(),
    decreases s.len(),
{
    if s.len() != 0 {
        lemma_encode_utf8_len(s.drop_first());
    }
}

/// Every condition tag fits a field.
pub proof fn lemma_cond_bytes_fits(c: Condition)
    ensures
        cond_bytes(c).len() <= 88,
        fits_field(cond_bytes(c)),
{
    reveal_strlit("message-passing-error");
    reveal_strlit("cipher-verification");
    reveal_strlit("signature-verification");
    reveal_strlit("configuration-error");
    lemma_encode_utf8_len(cond_chars(c));
}

/// Distinct conditions have distinct wire tags.
pub proof fn lemma_cond_bytes_injective(c1: Condition, c2: Condition)
    ensures
        cond_bytes(c1) == cond_bytes(c2) ==> c1 == c2,
{
    if cond_bytes(c1) == cond_bytes(c2) {
        encode_utf8_decode_utf8(cond_chars(c1));
        encode_utf8_decode_utf8(cond_chars(c2));
        assert(cond_chars(c1) == cond_chars(c2));
        reveal_strlit("message-passing-error");
        reveal_strlit("cipher-verification");
        reveal_strlit("signature-verification");
        reveal_strlit("configuration-error");
        assert("message-passing-error"@.len() == 21);
        assert("cipher-verification"@.len() == 19);
        assert("signature-verification"@.len() == 22);
        assert("configuration-error"@.len() == 19);
        assert("cipher-verification"@[1] == 'i');
        assert("configuration-error"@[1] == 'o');
    }
}

pub proof fn lemma_dec_cond_of_cond_bytes(c: Condition)
    ensures
        dec_cond(cond_bytes(c)) == Option::Some(c),
{
    lemma_cond_bytes_injective(c, Condition::MessagePassing);
    lemma_cond_bytes_injective(c, Condition::CipherVerification);
    lemma_cond_bytes_injective(c, Condition::SignatureVerification);
    lemma_cond_bytes_injective(c, Condition::Configuration);
}

// ---------------------------------------------------------------------------
// ScryptArgs
// ---------------------------------------------------------------------------

/// Decoding inverts encoding for key-derivation argument groups.
#[verifier::rlimit(100)]
pub proof fn lemma_scrypt_roundtrip(a: ScryptArgsV)
    requires
        scrypt_wf(a),
    ensures
        dec_scrypt(enc_scrypt(a)) == Option::Some(a),
{
    let f3 = field(3, seq![a.log_n]);
    let f4 = field(4, le_bytes(a.r));
    let f5 = field(5, le_bytes(a.p));
    let f6 = field(6, le_bytes(a.dk_len));
    let b = enc_scrypt(a);
    assert(b =~= field(1, a.passwd) + (field(2, a.salt) + (f3 + (f4 + (f5 + (f6
        + Seq::<u8>::empty()))))));
    lemma_take_field_of_field(1, a.passwd, field(2, a.salt) + (f3 + (f4 + (f5 + (f6
        + Seq::<u8>::empty())))));
    lemma_take_field_of_field(2, a.salt, f3 + (f4 + (f5 + (f6 + Seq::<u8>::empty()))));
    lemma_take_field_of_field(3, seq![a.log_n], f4 + (f5 + (f6 + Seq::<u8>::empty())));
    lemma_take_field_of_field(4, le_bytes(a.r), f5 + (f6 + Seq::<u8>::empty()));
    lemma_take_field_of_field(5, le_bytes(a.p), f6 + Seq::<u8>::empty());
    lemma_take_field_of_field(6, le_bytes(a.dk_len), Seq::<u8>::empty());
    lemma_le_val_of_le_bytes(a.r);
    lemma_le_val_of_le_bytes(a.p);
    lemma_le_val_of_le_bytes(a.dk_len);
}

/// Encoding inverts decoding for key-derivation argument groups.
#[verifier::rlimit(100)]
pub proof fn lemma_scrypt_complete(b: Seq<u8>, a: ScryptArgsV)
    requires
        dec_scrypt(b) == Option::Some(a),
        fits_field(b),
    ensures
        enc_scrypt(a) == b,
        scrypt_wf(a),
{
    match take_field(b) {
        Option::Some((t1, p1, r1)) => {
            lemma_field_reconstruct(b, t1, p1, r1);
            match take_field(r1) {
                Option::Some((t2, p2, r2)) => {
                    lemma_field_reconstruct(r1, t2, p2, r2);
                    match take_field(r2) {
                        Option::Some((t3, p3, r3)) => {
                            lemma_field_reconstruct(r2, t3, p3, r3);
                            match take_field(r3) {
                                Option::Some((t4, p4, r4)) => {
                                    lemma_field_reconstruct(r3, t4, p4, r4);
                                    match take_field(r4) {
                                        Option::Some((t5, p5, r5)) => {
                                            lemma_field_reconstruct(r4, t5, p5, r5);
                                            match take_field(r5) {
                                                Option::Some((t6, p6, r6)) => {
                                                    lemma_field_reconstruct(r5, t6, p6, r6);
                                                    assert(seq![p3[0]] =~= p3);
                                                    lemma_le_bytes_of_le_val(p4);
                                                    lemma_le_bytes_of_le_val(p5);
                                                    lemma_le_bytes_of_le_val(p6);
                                                    assert(r6 =~= Seq::<u8>::empty());
                                                    assert(enc_scrypt(a) =~= b);
                                                },
                                                Option::None => {},
                                            }
                                        },
                                        Option::None => {},
                                    }
                                },
                                Option::None => {},
                            }
                        },
                        Option::None => {},
                    }
                },
                Option::None => {},
            }
        },
        Option::None => {},
    }
}

// ---------------------------------------------------------------------------
// Byte arguments
// ---------------------------------------------------------------------------

/// Reading the run of tag-2 fields gives back exactly the encoded arguments,
/// provided what follows does not itself begin with a tag-2 field.
pub proof fn lemma_dec_args_of_enc_args(args: Seq<Seq<u8>>, suffix: Seq<u8>)
    requires
        forall|i: int| 0 <= i < args.len() ==> fits_field(#[trigger] args[i]),
        match take_field(suffix) {
            Option::Some(t) => t.0 != 2,
            Option::None => true,
        },
    ensures
        dec_args(enc_args(args) + suffix) == (args, suffix),
    decreases args.len(),
{
    if args.len() == 0 {
        assert(enc_args(args) + suffix =~= suffix);
        assert(dec_args(suffix).0 =~= args);
    } else {
        let tail = args.drop_first();
        lemma_take_field_of_field(2, args[0], enc_args(tail) + suffix);
        assert(enc_args(args) + suffix =~= field(2, args[0]) + (enc_args(tail) + suffix));
        lemma_dec_args_of_enc_args(tail, suffix);
        assert(seq![args[0]] + tail =~= args);
    }
}

/// Whatever the argument reader returns re-encodes to the bytes it read.
#[verifier::rlimit(100)]
pub proof fn lemma_enc_args_of_dec_args(b: Seq<u8>)
    ensures
        ({
            let (xs, suffix) = dec_args(b);
            &&& b == enc_args(xs) + suffix
            &&& forall|i: int| 0 <= i < xs.len() ==> fits_field(#[trigger] xs[i])
            &&& match take_field(suffix) {
                Option::Some(t) => t.0 != 2,
                Option::None => true,
            }
        }),
    decreases b.len(),
{
    let (xs, suffix) = dec_args(b);
    match take_field(b) {
        Option::Some((tag, p, rest)) => {
            if tag == 2 {
                lemma_field_reconstruct(b, tag, p, rest);
                lemma_enc_args_of_dec_args(rest);
                let (ys, suffix2) = dec_args(rest);
                assert(xs == seq![p] + ys);
                assert(xs[0] == p);
                assert(xs.drop_first() =~= ys);
                assert(enc_args(xs) == field(2, p) + enc_args(ys));
                assert(b =~= enc_args(xs) + suffix);
                assert forall|i: int| 0 <= i < xs.len() implies fits_field(
                    #[trigger] xs[i],
                ) by {
                    if i > 0 {
                        assert(xs[i] == ys[i - 1]);
                    }
                }
            } else {
                assert(enc_args(xs) + suffix =~= b);
            }
        },
        Option::None => {
            assert(enc_args(xs) + suffix =~= b);
        },
    }
}

// ---------------------------------------------------------------------------
// Request
// ---------------------------------------------------------------------------

/// Decoding inverts encoding for requests: the first half of the schema
/// round-trip law.
#[verifier::rlimit(100)]
pub proof fn lemma_request_roundtrip(r: RequestV)
    requires
        request_wf(r),
    ensures
        dec_request(enc_request(r)) == Option::Some(r),
{
    let tail = match r.scrypt_args {
        Option::None => Seq::<u8>::empty(),
        Option::Some(a) => field(3, enc_scrypt(a)),
    };
    match r.scrypt_args {
        Option::None => {},
        Option::Some(a) => {
            assert(enc_scrypt(a).len() == a.passwd.len() + a.salt.len() + 43);
            lemma_take_field_of_field(3, enc_scrypt(a), Seq::<u8>::empty());
            assert(field(3, enc_scrypt(a)) + Seq::<u8>::empty() =~= tail);
            lemma_scrypt_roundtrip(a);
        },
    }
    lemma_take_field_of_field(1, le_bytes(r.func), enc_args(r.byte_args) + tail);
    assert(enc_request(r) =~= field(1, le_bytes(r.func)) + (enc_args(r.byte_args) + tail));
    lemma_dec_args_of_enc_args(r.byte_args, tail);
    lemma_le_val_of_le_bytes(r.func);
}

/// Encoding inverts decoding for requests: the second half of the schema
/// round-trip law.
#[verifier::rlimit(100)]
pub proof fn lemma_request_complete(b: Seq<u8>, r: RequestV)
    requires
        dec_request(b) == Option::Some(r),
    ensures
        enc_request(r) == b,
        request_wf(r),
{
    match take_field(b) {
        Option::Some((t1, p1, r1)) => {
            lemma_field_reconstruct(b, t1, p1, r1);
            lemma_le_bytes_of_le_val(p1);
            lemma_enc_args_of_dec_args(r1);
            let (args, suffix) = dec_args(r1);
            if suffix.len() == 0 {
                assert(r1 =~= enc_args(args));
                assert(enc_request(r) =~= b);
            } else {
                match take_field(suffix) {
                    Option::Some((t3, p3, r3)) => {
                        lemma_field_reconstruct(suffix, t3, p3, r3);
                        match dec_scrypt(p3) {
                            Option::Some(a) => {
                                lemma_scrypt_complete(p3, a);
                                assert(r3 =~= Seq::<u8>::empty());
                                assert(suffix =~= field(3, enc_scrypt(a)));
                                assert(enc_request(r) =~= b);
                            },
                            Option::None => {},
                        }
                    },
                    Option::None => {},
                }
            }
        },
        Option::None => {},
    }
}

// ---------------------------------------------------------------------------
// Error descriptor and reply
// ---------------------------------------------------------------------------

/// Decoding inverts encoding for error descriptors.
pub proof fn lemma_desc_roundtrip(d: ErrorDescV)
    requires
        desc_wf(d),
    ensures
        dec_desc(enc_desc(d)) == Option::Some(d),
{
    let cb = cond_bytes(d.condition);
    let mb = encode_utf8(d.message);
    lemma_cond_bytes_fits(d.condition);
    lemma_take_field_of_field(1, cb, field(2, mb) + Seq::<u8>::empty());
    assert(enc_desc(d) =~= field(1, cb) + (field(2, mb) + Seq::<u8>::empty()));
    lemma_take_field_of_field(2, mb, Seq::<u8>::empty());
    lemma_dec_cond_of_cond_bytes(d.condition);
    encode_utf8_valid_utf8(d.message);
    encode_utf8_decode_utf8(d.message);
}

/// Encoding inverts decoding for error descriptors.
pub proof fn lemma_desc_complete(b: Seq<u8>, d: ErrorDescV)
    requires
        dec_desc(b) == Option::Some(d),
        fits_field(b),
    ensures
        enc_desc(d) == b,
        desc_wf(d),
{
    match take_field(b) {
        Option::Some((t1, p1, r1)) => {
            lemma_field_reconstruct(b, t1, p1, r1);
            match take_field(r1) {
                Option::Some((t2, p2, r2)) => {
                    lemma_field_reconstruct(r1, t2, p2, r2);
                    assert(r2 =~= Seq::<u8>::empty());
                    decode_utf8_encode_utf8(p2);
                    assert(p1 == cond_bytes(d.condition));
                    assert(enc_desc(d) =~= b);
                },
                Option::None => {},
            }
        },
        Option::None => {},
    }
}

/// Decoding inverts encoding for replies.
#[verifier::rlimit(100)]
pub proof fn lemma_reply_roundtrip(r: ReplyV)
    requires
        reply_wf(r),
    ensures
        dec_reply(enc_reply(r)) == Option::Some(r),
{
    match r {
        ReplyV::Res(b) => {
            lemma_take_field_of_field(1, b, Seq::<u8>::empty());
            assert(enc_reply(r) =~= field(1, b) + Seq::<u8>::empty());
        },
        ReplyV::Interim(b) => {
            lemma_take_field_of_field(2, b, Seq::<u8>::empty());
            assert(enc_reply(r) =~= field(2, b) + Seq::<u8>::empty());
        },
        ReplyV::Fail(d) => {
            lemma_cond_bytes_fits(d.condition);
            lemma_take_field_of_field(3, enc_desc(d), Seq::<u8>::empty());
            assert(enc_reply(r) =~= field(3, enc_desc(d)) + Seq::<u8>::empty());
            lemma_desc_roundtrip(d);
        },
    }
}

/// Encoding inverts decoding for replies.
pub proof fn lemma_reply_complete(b: Seq<u8>, r: ReplyV)
    requires
        dec_reply(b) == Option::Some(r),
    ensures
        enc_reply(r) == b,
        reply_wf(r),
{
    match take_field(b) {
        Option::Some((tag, p, rest)) => {
            lemma_field_reconstruct(b, tag, p, rest);
            assert(rest =~= Seq::<u8>::empty());
            if tag == 3 {
                match dec_desc(p) {
                    Option::Some(d) => {
                        lemma_desc_complete(p, d);
                        assert(enc_reply(r) =~= b);
                    },
                    Option::None => {},
                }
            } else {
                assert(enc_reply(r) =~= b);
            }
        },
        Option::None => {},
    }
}

/// Exclusivity: an encoded reply consists of exactly one field, and its tag
/// says which single one of the three shapes — result, interim, error — the
/// reply has.
pub proof fn lemma_reply_exclusive(r: ReplyV)
    requires
        reply_wf(r),
    ensures
        ({
            match take_field(enc_reply(r)) {
                Option::Some(t) => {
                    &&& t.2.len() == 0
                    &&& (t.0 == 1 <==> r is Res)
                    &&& (t.0 == 2 <==> r is Interim)
                    &&& (t.0 == 3 <==> r is Fail)
                },
                Option::None => false,
            }
        }),
{
    match r {
        ReplyV::Res(b) => {
            lemma_take_field_of_field(1, b, Seq::<u8>::empty());
            assert(enc_reply(r) =~= field(1, b) + Seq::<u8>::empty());
        },
        ReplyV::Interim(b) => {
            lemma_take_field_of_field(2, b, Seq::<u8>::empty());
            assert(enc_reply(r) =~= field(2, b) + Seq::<u8>::empty());
        },
        ReplyV::Fail(d) => {
            lemma_cond_bytes_fits(d.condition);
            lemma_take_field_of_field(3, enc_desc(d), Seq::<u8>::empty());
            assert(enc_reply(r) =~= field(3, enc_desc(d)) + Seq::<u8>::empty());
        },
    }
}

// ---------------------------------------------------------------------------
// Value wrappers
// ---------------------------------------------------------------------------

pub proof fn lemma_keypair_roundtrip(k: KeypairV)
    requires
        keypair_wf(k),
    ensures
        dec_keypair(enc_keypair(k)) == Option::Some(k),
{
    lemma_take_field_of_field(1, k.skey, field(2, k.pkey) + Seq::<u8>::empty());
    assert(enc_keypair(k) =~= field(1, k.skey) + (field(2, k.pkey) + Seq::<u8>::empty()));
    lemma_take_field_of_field(2, k.pkey, Seq::<u8>::empty());
}

pub proof fn lemma_keypair_complete(b: Seq<u8>, k: KeypairV)
    requires
        dec_keypair(b) == Option::Some(k),
    ensures
        enc_keypair(k) == b,
        keypair_wf(k),
{
    match take_field(b) {
        Option::Some((t1, p1, r1)) => {
            lemma_field_reconstruct(b, t1, p1, r1);
            match take_field(r1) {
                Option::Some((t2, p2, r2)) => {
                    lemma_field_reconstruct(r1, t2, p2, r2);
                    assert(r2 =~= Seq::<u8>::empty());
                    assert(enc_keypair(k) =~= b);
                },
                Option::None => {},
            }
        },
        Option::None => {},
    }
}

pub proof fn lemma_bytes_val_roundtrip(b: Seq<u8>)
    requires
        fits_field(b),
    ensures
        dec_bytes_val(enc_bytes_val(b)) == Option::Some(b),
{
    lemma_take_field_of_field(1, b, Seq::<u8>::empty());
    assert(enc_bytes_val(b) =~= field(1, b) + Seq::<u8>::empty());
}

pub proof fn lemma_bytes_val_complete(b: Seq<u8>, v: Seq<u8>)
    requires
        dec_bytes_val(b) == Option::Some(v),
    ensures
        enc_bytes_val(v) == b,
        fits_field(v),
{
    match take_field(b) {
        Option::Some((t1, p, r1)) => {
            lemma_field_reconstruct(b, t1, p, r1);
            assert(r1 =~= Seq::<u8>::empty());
            assert(enc_bytes_val(v) =~= b);
        },
        Option::None => {},
    }
}

pub proof fn lemma_bool_val_roundtrip(v: bool)
    ensures
        dec_bool_val(enc_bool_val(v)) == Option::Some(v),
{
    let p = seq![if v { 1u8 } else { 0u8 }];
    lemma_take_field_of_field(1, p, Seq::<u8>::empty());
    assert(enc_bool_val(v) =~= field(1, p) + Seq::<u8>::empty());
}

pub proof fn lemma_bool_val_complete(b: Seq<u8>, v: bool)
    requires
        dec_bool_val(b) == Option::Some(v),
    ensures
        enc_bool_val(v) == b,
{
    match take_field(b) {
        Option::Some((t1, p, r1)) => {
            lemma_field_reconstruct(b, t1, p, r1);
            assert(r1 =~= Seq::<u8>::empty());
            assert(seq![if v { 1u8 } else { 0u8 }] =~= p);
            assert(enc_bool_val(v) =~= b);
        },
        Option::None => {},
    }
}

} // verus!
