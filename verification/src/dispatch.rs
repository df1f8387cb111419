//! The dispatcher: decodes a request, routes it by function code to a
//! provider primitive, and returns the encoded replies to send, in order —
//! zero or more interim progress replies followed by exactly one terminal
//! reply, which is either a result or an error.

use vstd::prelude::*;
use crate::wire::fits_field;
use crate::schema::{
    Condition, ErrorDesc, ErrorDescV, Reply, ReplyV, ScryptArgsV, Request, RequestV, Keypair,
    KeypairV, seq_views, desc_wf, enc_reply, enc_keypair, enc_bool_val, dec_request,
};
use crate::codec::{
    DecodeError, decode_error_text, decode_request, encode_reply, encode_keypair, encode_bool_val,
};
use crate::provider::{
    ProviderCondition, ProviderError, ProviderErrorV, scrypt_of, dh_shared_of, pubkey_of,
    sbox_pack_of, sbox_open_of, sign_pkey_of, sig_of, sig_checks, scrypt_call, key_agreement_call,
    generate_pubkey_call, sbox_pack_call, sbox_open_call, wn_pack_call, wn_open_call,
    sign_keypair_call, signature_call, verify_call,
};
use crate::roundtrip::{lemma_cond_bytes_fits, lemma_encode_utf8_len};
use vstd::utf8::encode_utf8;
use vstd::string::{StrSliceExecFns, StringExecFns};

verus! {

// ---------------------------------------------------------------------------
// Diagnostic texts
// ---------------------------------------------------------------------------

/// The decimal digits of a number.
pub open spec fn digit_char(d: nat) -> char {
    if d == 0 {
        '0'
    } else if d == 1 {
        '1'
    } else if d == 2 {
        '2'
    } else if d == 3 {
        '3'
    } else if d == 4 {
        '4'
    } else if d == 5 {
        '5'
    } else if d == 6 {
        '6'
    } else if d == 7 {
        '7'
    } else if d == 8 {
        '8'
    } else {
        '9'
    }
}

pub open spec fn dec_str(n: nat) -> Seq<char>
    decreases n,
{
    if n < 10 {
        seq![digit_char(n)]
    } else {
        dec_str(n / 10) + seq![digit_char(n % 10)]
    }
}

pub open spec fn missing_scrypt_text() -> Seq<char> {
    "scrypt arguments are missing"@
}

pub open spec fn missing_arg_text() -> Seq<char> {
    "a positional byte argument is missing"@
}

pub open spec fn unrecognized_text(func: u32) -> Seq<char> {
    "Unrecognized func number "@ + dec_str(func as nat)
}

pub open spec fn oversize_text() -> Seq<char> {
    "result too large for a reply"@
}

pub open spec fn seed_text() -> Seq<char> {
    "seed array should have 32 bytes in it"@
}

pub open spec fn logn_text() -> Seq<char> {
    "logN is too big"@
}

pub open spec fn rp_text() -> Seq<char> {
    "r * p is too big"@
}

pub open spec fn zero_rp_text() -> Seq<char> {
    "r and p must be at least 1"@
}

pub open spec fn np_text() -> Seq<char> {
    "N * p is too big"@
}

pub open spec fn mem_text() -> Seq<char> {
    "scrypt parameters need too much memory"@
}

// ---------------------------------------------------------------------------
// Building error descriptors
// ---------------------------------------------------------------------------

/// The descriptor a reply carries for condition `c` and diagnostic text
/// `message`; an overlong text (one whose UTF-8 bytes would not fit the
/// wire format) is replaced by a fixed note.
pub open spec fn desc_of(c: Condition, message: Seq<char>) -> ErrorDescV {
    if encode_utf8(message).len() + 98 < 0x1_0000_0000 {
        ErrorDescV { condition: c, message }
    } else {
        ErrorDescV { condition: c, message: "diagnostic message too long"@ }
    }
}

pub proof fn lemma_desc_of_wf(c: Condition, message: Seq<char>)
    ensures
        desc_wf(desc_of(c, message)),
{
    lemma_cond_bytes_fits(c);
    if encode_utf8(message).len() + 98 >= 0x1_0000_0000 {
        reveal_strlit("diagnostic message too long");
        assert("diagnostic message too long"@.len() == 27);
        lemma_encode_utf8_len("diagnostic message too long"@);
    }
}

/// Builds the descriptor for a condition and diagnostic text.
pub fn build_desc(c: Condition, message: String) -> (d: ErrorDesc)
    ensures
        d@ == desc_of(c, message@),
        desc_wf(d@),
{
    proof {
        lemma_desc_of_wf(c, message@);
    }
    let blen = message.as_str().as_bytes_vec().len();
    if (blen as u128) + 98 < 0x1_0000_0000u128 {
        ErrorDesc { condition: c, message }
    } else {
        ErrorDesc { condition: c, message: String::from_str("diagnostic message too long") }
    }
}

// ---------------------------------------------------------------------------
// The reply encoder entry points
// ---------------------------------------------------------------------------

/// Packages provider output bytes as the encoded terminal result reply.
pub fn pack_ok(bytes: Vec<u8>) -> (out: Vec<u8>)
    requires
        fits_field(bytes@),
    ensures
        out@ == enc_reply(ReplyV::Res(bytes@)),
{
    let r = Reply::Res(bytes);
    encode_reply(&r)
}

/// Packages progress bytes as an encoded interim reply.
pub fn pack_interim(bytes: Vec<u8>) -> (out: Vec<u8>)
    requires
        fits_field(bytes@),
    ensures
        out@ == enc_reply(ReplyV::Interim(bytes@)),
{
    let r = Reply::Interim(bytes);
    encode_reply(&r)
}

/// Packages an error descriptor as the encoded terminal error reply.
pub fn pack_err(err: ErrorDesc) -> (out: Vec<u8>)
    requires
        desc_wf(err@),
    ensures
        out@ == enc_reply(ReplyV::Fail(err@)),
{
    let r = Reply::Fail(err);
    encode_reply(&r)
}

// ---------------------------------------------------------------------------
// Outcomes
// ---------------------------------------------------------------------------

/// Maps a provider condition to the reply condition tag it is reported
/// under. The condition set is closed, so the mapping is exhaustive by
/// construction: there is no fallback tag.
pub open spec fn cond_of_provider(c: ProviderCondition) -> Condition {
    match c {
        ProviderCondition::CipherVerification => Condition::CipherVerification,
        ProviderCondition::SignatureVerification => Condition::SignatureVerification,
        ProviderCondition::Configuration => Condition::Configuration,
    }
}

/// Maps a provider failure to the error descriptor of the terminal reply,
/// passing the diagnostic text through.
pub fn nacl_err_to_msg(err: ProviderError) -> (d: ErrorDesc)
    ensures
        d@ == desc_of(cond_of_provider(err.condition), err.message@),
        desc_wf(d@),
{
    let c = match err.condition {
        ProviderCondition::CipherVerification => Condition::CipherVerification,
        ProviderCondition::SignatureVerification => Condition::SignatureVerification,
        ProviderCondition::Configuration => Condition::Configuration,
    };
    build_desc(c, err.message)
}

pub open spec fn outcome_view(o: Result<Vec<u8>, ProviderError>) -> Result<Seq<u8>, ProviderErrorV> {
    match o {
        Result::Ok(v) => Result::Ok(v@),
        Result::Err(e) => Result::Err(e@),
    }
}

/// What the terminal reply is for a provider outcome: the result bytes on
/// success (or an error note if they cannot fit a reply), else the mapped
/// error descriptor.
pub open spec fn terminal_for(last: Seq<u8>, o: Result<Seq<u8>, ProviderErrorV>) -> bool {
    match o {
        Result::Ok(v) => if fits_field(v) {
            last == enc_reply(ReplyV::Res(v))
        } else {
            last == enc_reply(
                ReplyV::Fail(desc_of(Condition::MessagePassing, oversize_text())),
            )
        },
        Result::Err(e) => last == enc_reply(
            ReplyV::Fail(desc_of(cond_of_provider(e.condition), e.message)),
        ),
    }
}

/// Encodes the terminal reply for a provider outcome.
pub fn reply_for_outcome(o: Result<Vec<u8>, ProviderError>) -> (out: Vec<u8>)
    ensures
        terminal_for(out@, outcome_view(o)),
{
    match o {
        Result::Ok(v) => {
            if (v.len() as u64) < 0x1_0000_0000u64 {
                pack_ok(v)
            } else {
                pack_err(
                    build_desc(
                        Condition::MessagePassing,
                        String::from_str("result too large for a reply"),
                    ),
                )
            }
        },
        Result::Err(e) => pack_err(nacl_err_to_msg(e)),
    }
}

// ---------------------------------------------------------------------------
// The dispatcher's contract
// ---------------------------------------------------------------------------

/// How many positional byte arguments each code of 2..=10 consumes.
pub open spec fn arity(func: u32) -> int {
    if func == 3 || func == 8 {
        1
    } else if func == 2 || func == 6 || func == 9 {
        2
    } else {
        3
    }
}

pub open spec fn single_error_enc(c: Condition, text: Seq<char>) -> Seq<Seq<u8>> {
    seq![enc_reply(ReplyV::Fail(desc_of(c, text)))]
}

pub open spec fn interim_of(p: u8) -> ReplyV {
    ReplyV::Interim(seq![p])
}

/// The scrypt guards the dispatcher applies before calling the provider:
/// the provider's own cost checks, the inputs its source would panic on
/// (zero r or p, progress accounting past u32), and the memory its buffer
/// sizes need.
pub open spec fn scrypt_guards(a: ScryptArgsV) -> bool {
    &&& a.log_n <= 31
    &&& a.r >= 1
    &&& a.p >= 1
    &&& (a.r as nat) * (a.p as nat) < 0x4000_0000
    &&& 2 * ((1u64 << (a.log_n as u64)) as nat) * (a.p as nat) < 0x1_0000_0000
    &&& 128 * (a.r as nat) * ((1u64 << (a.log_n as u64)) as nat) <= usize::MAX as nat
    &&& 128 * (a.r as nat) * (a.p as nat) <= usize::MAX as nat
}

/// The replies of a key-derivation call: one interim reply for each
/// progress percentage the provider reports, in order, each wrapping the
/// percentage as a single byte, then the terminal result carrying the
/// derived key. The provider reports 3 first and 100 last, so there are
/// always at least two interim replies.
pub open spec fn scrypt_emits(a: ScryptArgsV, out: Seq<Seq<u8>>) -> bool {
    let key = scrypt_of(a.passwd, a.salt, a.log_n, a.r, a.p, a.dk_len).0;
    let prog = scrypt_of(a.passwd, a.salt, a.log_n, a.r, a.p, a.dk_len).1;
    &&& key.len() == a.dk_len
    &&& prog.len() >= 2
    &&& prog[0] == 3
    &&& prog[prog.len() - 1] == 100
    &&& out.len() == prog.len() + 1
    &&& forall|i: int|
        0 <= i < prog.len() ==> out[i] == enc_reply(interim_of(((#[trigger] prog[i]) & 0xff) as u8))
    &&& out[out.len() - 1] == enc_reply(ReplyV::Res(key))
}

/// On success, the result bytes are exactly the named provider output for
/// the routed code.
pub open spec fn ok_pinned(req: RequestV, o: Result<Seq<u8>, ProviderErrorV>) -> bool {
    match o {
        Result::Err(_) => true,
        Result::Ok(v) => {
            let a = req.byte_args;
            if req.func == 2 {
                v == dh_shared_of(a[0], a[1])
            } else if req.func == 3 {
                v == pubkey_of(a[0])
            } else if req.func == 4 {
                sbox_open_of(a[0], a[1], a[2]) == Option::Some(v)
            } else if req.func == 5 {
                v == sbox_pack_of(a[0], a[1], a[2])
            } else if req.func == 6 {
                a[0].len() >= 41 && sbox_open_of(a[0].skip(24), a[0].subrange(0, 24), a[1])
                    == Option::Some(v)
            } else if req.func == 7 {
                v == a[1] + sbox_pack_of(a[0], a[1], a[2])
            } else if req.func == 8 {
                a[0].len() == 32 && v == enc_keypair(
                    KeypairV { skey: a[0] + sign_pkey_of(a[0]), pkey: sign_pkey_of(a[0]) },
                )
            } else if req.func == 9 {
                v == sig_of(a[0], a[1])
            } else if req.func == 10 {
                v == enc_bool_val(sig_checks(a[1], a[0], a[2]))
            } else {
                true
            }
        },
    }
}

/// On failure, the condition and the inputs it can arise from are pinned:
/// success is owed on every input the provider accepts.
pub open spec fn err_pinned(req: RequestV, o: Result<Seq<u8>, ProviderErrorV>) -> bool {
    match o {
        Result::Ok(_) => true,
        Result::Err(e) => {
            let a = req.byte_args;
            if req.func == 2 {
                e.condition == ProviderCondition::Configuration && !(a[0].len() == 32 && a[1].len()
                    == 32)
            } else if req.func == 3 {
                e.condition == ProviderCondition::Configuration && a[0].len() != 32
            } else if req.func == 4 {
                if a[0].len() >= 17 && a[1].len() == 24 && a[2].len() == 32 {
                    e.condition == ProviderCondition::CipherVerification && sbox_open_of(
                        a[0],
                        a[1],
                        a[2],
                    ) is None
                } else {
                    e.condition == ProviderCondition::Configuration
                }
            } else if req.func == 5 {
                e.condition == ProviderCondition::Configuration && !(a[0].len() > 0 && a[1].len()
                    == 24 && a[2].len() == 32)
            } else if req.func == 6 {
                if a[0].len() >= 41 && a[1].len() == 32 {
                    e.condition == ProviderCondition::CipherVerification && sbox_open_of(
                        a[0].skip(24),
                        a[0].subrange(0, 24),
                        a[1],
                    ) is None
                } else {
                    e.condition == ProviderCondition::Configuration
                }
            } else if req.func == 7 {
                e.condition == ProviderCondition::Configuration && !(a[0].len() > 0 && a[1].len()
                    == 24 && a[2].len() == 32)
            } else if req.func == 8 {
                e.condition == ProviderCondition::Configuration && a[0].len() != 32 && e.message
                    == seed_text()
            } else if req.func == 9 {
                e.condition == ProviderCondition::Configuration && !(a[1].len() == 64 && a[0].len()
                    > 0)
            } else if req.func == 10 {
                e.condition == ProviderCondition::Configuration && a[2].len() != 32
            } else {
                true
            }
        },
    }
}

/// One terminal reply for one routed call, faithful to the outcome.
pub open spec fn routed(req: RequestV, out: Seq<Seq<u8>>, o: Result<Seq<u8>, ProviderErrorV>) -> bool {
    &&& out.len() == 1
    &&& terminal_for(out[0], o)
    &&& ok_pinned(req, o)
    &&& err_pinned(req, o)
}

/// The dispatcher's whole contract, case by case over the decoded request.
pub open spec fn dispatch_post(b: Seq<u8>, out: Seq<Seq<u8>>) -> bool {
    match dec_request(b) {
        Option::None => out == single_error_enc(Condition::MessagePassing, decode_error_text()),
        Option::Some(req) => {
            if req.func == 1 {
                match req.scrypt_args {
                    Option::None => out == single_error_enc(
                        Condition::MessagePassing,
                        missing_scrypt_text(),
                    ),
                    Option::Some(a) => {
                        if a.log_n > 31 {
                            out == single_error_enc(Condition::Configuration, logn_text())
                        } else if a.r == 0 || a.p == 0 {
                            out == single_error_enc(Condition::Configuration, zero_rp_text())
                        } else if (a.r as nat) * (a.p as nat) >= 0x4000_0000 {
                            out == single_error_enc(Condition::Configuration, rp_text())
                        } else if 2 * ((1u64 << (a.log_n as u64)) as nat) * (a.p as nat)
                            >= 0x1_0000_0000 {
                            out == single_error_enc(Condition::Configuration, np_text())
                        } else if !scrypt_guards(a) {
                            out == single_error_enc(Condition::Configuration, mem_text())
                        } else {
                            scrypt_emits(a, out)
                        }
                    },
                }
            } else if 2 <= req.func <= 10 {
                if req.byte_args.len() < arity(req.func) {
                    out == single_error_enc(Condition::MessagePassing, missing_arg_text())
                } else {
                    exists|o: Result<Seq<u8>, ProviderErrorV>| routed(req, out, o)
                }
            } else {
                out == single_error_enc(Condition::MessagePassing, unrecognized_text(req.func))
            }
        },
    }
}

/// The buffer encodes an interim reply.
pub open spec fn encodes_interim(o: Seq<u8>) -> bool {
    exists|p: Seq<u8>| o == enc_reply(ReplyV::Interim(p))
}

/// The buffer encodes a terminal reply: a result or an error.
pub open spec fn encodes_terminal(o: Seq<u8>) -> bool {
    exists|r: ReplyV| (r is Res || r is Fail) && o == enc_reply(r)
}

/// Reply discipline: whatever the inbound message was, the dispatcher's
/// output is one or more replies, every one before the last an interim
/// progress reply, and the last one terminal — a result or an error.
pub proof fn lemma_dispatch_shape(b: Seq<u8>, out: Seq<Seq<u8>>)
    requires
        dispatch_post(b, out),
    ensures
        out.len() >= 1,
        encodes_terminal(out[out.len() - 1]),
        forall|i: int| 0 <= i < out.len() - 1 ==> encodes_interim(#[trigger] out[i]),
{
    match dec_request(b) {
        Option::None => {
            assert(encodes_terminal(out[0])) by {
                let r = ReplyV::Fail(desc_of(Condition::MessagePassing, decode_error_text()));
                assert(out[0] == enc_reply(r));
            }
        },
        Option::Some(req) => {
            if req.func == 1 {
                match req.scrypt_args {
                    Option::None => {
                        let r = ReplyV::Fail(
                            desc_of(Condition::MessagePassing, missing_scrypt_text()),
                        );
                        assert(out[0] == enc_reply(r));
                    },
                    Option::Some(a) => {
                        if !scrypt_guards(a) {
                            assert(encodes_terminal(out[0])) by {
                                if a.log_n > 31 {
                                    let r = ReplyV::Fail(
                                        desc_of(Condition::Configuration, logn_text()),
                                    );
                                    assert(out[0] == enc_reply(r));
                                } else if a.r == 0 || a.p == 0 {
                                    let r = ReplyV::Fail(
                                        desc_of(Condition::Configuration, zero_rp_text()),
                                    );
                                    assert(out[0] == enc_reply(r));
                                } else if (a.r as nat) * (a.p as nat) >= 0x4000_0000 {
                                    let r = ReplyV::Fail(
                                        desc_of(Condition::Configuration, rp_text()),
                                    );
                                    assert(out[0] == enc_reply(r));
                                } else if 2 * ((1u64 << (a.log_n as u64)) as nat) * (a.p as nat)
                                    >= 0x1_0000_0000 {
                                    let r = ReplyV::Fail(
                                        desc_of(Condition::Configuration, np_text()),
                                    );
                                    assert(out[0] == enc_reply(r));
                                } else {
                                    let r = ReplyV::Fail(
                                        desc_of(Condition::Configuration, mem_text()),
                                    );
                                    assert(out[0] == enc_reply(r));
                                }
                            }
                        } else {
                            assert(scrypt_emits(a, out));
                            let key = scrypt_of(a.passwd, a.salt, a.log_n, a.r, a.p, a.dk_len).0;
                            let prog = scrypt_of(a.passwd, a.salt, a.log_n, a.r, a.p, a.dk_len).1;
                            assert(out[out.len() - 1] == enc_reply(ReplyV::Res(key)));
                            assert forall|i: int| 0 <= i < out.len() - 1 implies encodes_interim(
                                #[trigger] out[i],
                            ) by {
                                assert(out[i] == enc_reply(interim_of((prog[i] & 0xff) as u8)));
                            }
                        }
                    },
                }
            } else if 2 <= req.func <= 10 {
                if req.byte_args.len() < arity(req.func) {
                    let r = ReplyV::Fail(desc_of(Condition::MessagePassing, missing_arg_text()));
                    assert(out[0] == enc_reply(r));
                } else {
                    let o = choose|o: Result<Seq<u8>, ProviderErrorV>| routed(req, out, o);
                    assert(routed(req, out, o));
                    assert(encodes_terminal(out[0])) by {
                        match o {
                            Result::Ok(v) => {
                                if fits_field(v) {
                                    assert(out[0] == enc_reply(ReplyV::Res(v)));
                                } else {
                                    let r = ReplyV::Fail(
                                        desc_of(Condition::MessagePassing, oversize_text()),
                                    );
                                    assert(out[0] == enc_reply(r));
                                }
                            },
                            Result::Err(e) => {
                                let r = ReplyV::Fail(
                                    desc_of(cond_of_provider(e.condition), e.message),
                                );
                                assert(out[0] == enc_reply(r));
                            },
                        }
                    }
                }
            } else {
                let r = ReplyV::Fail(
                    desc_of(Condition::MessagePassing, unrecognized_text(req.func)),
                );
                assert(out[0] == enc_reply(r));
            }
        },
    }
}

/// The per-code input conditions under which the provider owes success for
/// codes 2..=10: the argument sizes it accepts and, for the two opens,
/// that authentication passes.
pub open spec fn provider_accepts(req: RequestV) -> bool {
    let a = req.byte_args;
    if req.func == 2 {
        a[0].len() == 32 && a[1].len() == 32
    } else if req.func == 3 {
        a[0].len() == 32
    } else if req.func == 4 {
        a[0].len() >= 17 && a[1].len() == 24 && a[2].len() == 32 && sbox_open_of(a[0], a[1], a[2])
            is Some
    } else if req.func == 5 {
        a[0].len() > 0 && a[1].len() == 24 && a[2].len() == 32
    } else if req.func == 6 {
        a[0].len() >= 41 && a[1].len() == 32 && sbox_open_of(
            a[0].skip(24),
            a[0].subrange(0, 24),
            a[1],
        ) is Some
    } else if req.func == 7 {
        a[0].len() > 0 && a[1].len() == 24 && a[2].len() == 32
    } else if req.func == 8 {
        a[0].len() == 32
    } else if req.func == 9 {
        a[1].len() == 64 && a[0].len() > 0
    } else {
        a[2].len() == 32
    }
}

/// Success is owed: for codes 2..=10, when the request carries enough
/// arguments and they meet the provider's input conditions, the single
/// reply is the terminal result whose payload `ok_pinned` fixes — never an
/// error.
pub proof fn lemma_result_owed(b: Seq<u8>, req: RequestV, out: Seq<Seq<u8>>)
    requires
        dispatch_post(b, out),
        dec_request(b) == Option::Some(req),
        2 <= req.func <= 10,
        arity(req.func) <= req.byte_args.len(),
        provider_accepts(req),
    ensures
        out.len() == 1,
        exists|v: Seq<u8>|
            ok_pinned(req, Result::<Seq<u8>, ProviderErrorV>::Ok(v)) && #[trigger] terminal_for(
                out[0],
                Result::<Seq<u8>, ProviderErrorV>::Ok(v),
            ),
{
    let o = choose|o: Result<Seq<u8>, ProviderErrorV>| routed(req, out, o);
    assert(routed(req, out, o));
    match o {
        Result::Ok(v) => {
            assert(terminal_for(out[0], Result::<Seq<u8>, ProviderErrorV>::Ok(v)));
        },
        Result::Err(e) => {
            assert(false);
        },
    }
}

// ---------------------------------------------------------------------------
// The dispatcher
// ---------------------------------------------------------------------------

/// One vector holding one encoded error reply.
fn single_error(c: Condition, message: String) -> (out: Vec<Vec<u8>>)
    ensures
        seq_views(out@) == single_error_enc(c, message@),
{
    let d = build_desc(c, message);
    let one = pack_err(d);
    let mut out: Vec<Vec<u8>> = Vec::new();
    out.push(one);
    proof {
        assert(seq_views(out@) =~= single_error_enc(c, message@));
    }
    out
}

/// The positional byte argument at `i`.
pub fn arg<'a>(req: &'a Request, i: usize) -> (a: &'a Vec<u8>)
    requires
        i < req.byte_args@.len(),
    ensures
        a@ == req@.byte_args[i as int],
{
    &req.byte_args[i]
}

/// Relies on u32's `Display` implementation: it formats the value as its
/// decimal digits.
#[verifier::external_body]
fn u32_to_decimal(n: u32) -> (s: String)
    ensures
        s@ == dec_str(n as nat),
{
    format!("{}", n)
}

/// Handles one inbound message: decodes it, routes it, and returns the
/// encoded replies to send, in order. There is always at least one reply;
/// all but the last are interim replies (possible only for function
/// code 1) and the last is the terminal result or error.
#[verifier::rlimit(100)]
pub fn handle(msg: &Vec<u8>) -> (out: Vec<Vec<u8>>)
    ensures
        dispatch_post(msg@, seq_views(out@)),
{
    let req = match decode_request(msg) {
        Result::Ok(r) => r,
        Result::Err(e) => {
            return single_error(Condition::MessagePassing, e.message());
        },
    };
    let ghost rv = req@;
    if req.func == 1 {
        let a = match req.scrypt_args {
            Option::Some(a) => a,
            Option::None => {
                return single_error(
                    Condition::MessagePassing,
                    String::from_str("scrypt arguments are missing"),
                );
            },
        };
        let ghost av = a@;
        if a.log_n > 31 {
            return single_error(Condition::Configuration, String::from_str("logN is too big"));
        }
        if a.r == 0 || a.p == 0 {
            return single_error(
                Condition::Configuration,
                String::from_str("r and p must be at least 1"),
            );
        }
        proof {
            assert((a.r as u128) * (a.p as u128) < 0x1_0000_0000_0000_0000u128)
                by (nonlinear_arith)
                requires
                    (a.r as u128) < 0x1_0000_0000u128,
                    (a.p as u128) < 0x1_0000_0000u128,
            ;
        }
        let rp: u128 = (a.r as u128) * (a.p as u128);
        if rp >= 0x4000_0000u128 {
            return single_error(Condition::Configuration, String::from_str("r * p is too big"));
        }
        let shift: u64 = 1u64 << (a.log_n as u64);
        proof {
            let ln = a.log_n;
            assert(ln <= 31 ==> (1u64 << (ln as u64)) <= 0x8000_0000u64) by (bit_vector);
        }
        let two_n: u128 = 2u128 * (shift as u128);
        proof {
            assert(two_n * (a.p as u128) < 0x1_0000_0000_0000_0000_0000_0000u128)
                by (nonlinear_arith)
                requires
                    two_n <= 0x1_0000_0000u128,
                    (a.p as u128) < 0x1_0000_0000u128,
            ;
        }
        let np: u128 = two_n * (a.p as u128);
        if np >= 0x1_0000_0000u128 {
            return single_error(Condition::Configuration, String::from_str("N * p is too big"));
        }
        let m1: u128 = 128u128 * (a.r as u128);
        proof {
            assert(m1 * (shift as u128) < 0x1_0000_0000_0000_0000_0000_0000u128)
                by (nonlinear_arith)
                requires
                    m1 < 0x80_0000_0000u128,
                    (shift as u128) <= 0x8000_0000u128,
            ;
            assert(m1 * (a.p as u128) < 0x1_0000_0000_0000_0000_0000_0000u128)
                by (nonlinear_arith)
                requires
                    m1 < 0x80_0000_0000u128,
                    (a.p as u128) < 0x1_0000_0000u128,
            ;
        }
        let mn: u128 = m1 * (shift as u128);
        let mp: u128 = m1 * (a.p as u128);
        if mn > (usize::MAX as u128) || mp > (usize::MAX as u128) {
            return single_error(
                Condition::Configuration,
                String::from_str("scrypt parameters need too much memory"),
            );
        }
        let (res, prog) = scrypt_call(&a.passwd, &a.salt, a.log_n, a.r, a.p, a.dk_len);
        let mut out: Vec<Vec<u8>> = Vec::new();
        let ghost pbytes = Seq::new(prog@.len(), |i: int| (prog@[i] & 0xff) as u8);
        let mut i: usize = 0;
        while i < prog.len()
            invariant
                i <= prog@.len(),
                pbytes == Seq::new(prog@.len(), |j: int| (prog@[j] & 0xff) as u8),
                out@.len() == i,
                forall|j: int|
                    0 <= j < i ==> seq_views(out@)[j] == enc_reply(interim_of(pbytes[j])),
            decreases prog@.len() - i,
        {
            let pval = prog[i];
            proof {
                assert(pval & 0xff < 256) by (bit_vector);
            }
            let byte = (pval & 0xff) as u8;
            let mut pv: Vec<u8> = Vec::new();
            pv.push(byte);
            proof {
                assert(pv@ =~= seq![byte]);
                assert(pbytes[i as int] == byte);
            }
            let enc = pack_interim(pv);
            let ghost prev_out = out@;
            out.push(enc);
            proof {
                crate::schema::lemma_seq_views_push(prev_out, enc);
            }
            i += 1;
        }
        let term = match res {
            Result::Ok(v) => pack_ok(v),
            Result::Err(e) => pack_err(nacl_err_to_msg(e)),
        };
        let ghost prev_out = out@;
        out.push(term);
        proof {
            crate::schema::lemma_seq_views_push(prev_out, term);
            assert(prog@ == scrypt_of(av.passwd, av.salt, av.log_n, av.r, av.p, av.dk_len).1);
            assert(scrypt_emits(av, seq_views(out@)));
        }
        return out;
    }
    if req.func >= 2 && req.func <= 10 {
        let needed: usize = match req.func {
            3 | 8 => 1,
            2 | 6 | 9 => 2,
            _ => 3,
        };
        if req.byte_args.len() < needed {
            return single_error(
                Condition::MessagePassing,
                String::from_str("a positional byte argument is missing"),
            );
        }
        let res: Result<Vec<u8>, ProviderError> = if req.func == 2 {
            key_agreement_call(arg(&req, 0), arg(&req, 1))
        } else if req.func == 3 {
            generate_pubkey_call(arg(&req, 0))
        } else if req.func == 4 {
            sbox_open_call(arg(&req, 0), arg(&req, 1), arg(&req, 2))
        } else if req.func == 5 {
            sbox_pack_call(arg(&req, 0), arg(&req, 1), arg(&req, 2))
        } else if req.func == 6 {
            wn_open_call(arg(&req, 0), arg(&req, 1))
        } else if req.func == 7 {
            wn_pack_call(arg(&req, 0), arg(&req, 1), arg(&req, 2))
        } else if req.func == 8 {
            if arg(&req, 0).len() != 32 {
                Result::Err(
                    ProviderError {
                        condition: ProviderCondition::Configuration,
                        message: String::from_str("seed array should have 32 bytes in it"),
                    },
                )
            } else {
                let (skey, pkey) = sign_keypair_call(arg(&req, 0));
                let kp = Keypair { skey, pkey };
                Result::Ok(encode_keypair(&kp))
            }
        } else if req.func == 9 {
            signature_call(arg(&req, 0), arg(&req, 1))
        } else {
            match verify_call(arg(&req, 0), arg(&req, 1), arg(&req, 2)) {
                Result::Ok(b) => Result::Ok(encode_bool_val(b)),
                Result::Err(e) => Result::Err(e),
            }
        };
        let ghost ov = outcome_view(res);
        proof {
            assert(ok_pinned(rv, ov));
            assert(err_pinned(rv, ov));
        }
        let term = reply_for_outcome(res);
        let mut out: Vec<Vec<u8>> = Vec::new();
        out.push(term);
        proof {
            assert(seq_views(out@) =~= seq![term@]);
            assert(routed(rv, seq_views(out@), ov));
        }
        return out;
    }
    let text = String::from_str("Unrecognized func number ").concat(
        u32_to_decimal(req.func).as_str(),
    );
    single_error(Condition::MessagePassing, text)
}

} // verus!
