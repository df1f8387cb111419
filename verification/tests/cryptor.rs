use cryptor::codec::{
    decode_bool_val, decode_bytes_val, decode_keypair, decode_reply, decode_request,
    encode_bool_val, encode_bytes_val, encode_keypair, encode_request,
};
use cryptor::dispatch::{handle, pack_err, pack_interim, pack_ok};
use cryptor::schema::{Condition, ErrorDesc, Keypair, Reply, Request, ScryptArgs};

fn req_bytes(func: u32, byte_args: Vec<Vec<u8>>) -> Vec<u8> {
    let req = Request { func, byte_args, scrypt_args: None };
    encode_request(&req)
}

fn result_of(reply: &Vec<u8>) -> Vec<u8> {
    match decode_reply(reply) {
        Ok(Reply::Res(b)) => b,
        Ok(Reply::Interim(_)) => panic!("expected a result reply, got an interim one"),
        Ok(Reply::Fail(d)) => panic!("expected a result reply, got an error: {}", d.message),
        Err(_) => panic!("reply does not decode"),
    }
}

fn fail_of(reply: &Vec<u8>) -> ErrorDesc {
    match decode_reply(reply) {
        Ok(Reply::Fail(d)) => d,
        Ok(_) => panic!("expected an error reply"),
        Err(_) => panic!("reply does not decode"),
    }
}

fn single_result(msg: &Vec<u8>) -> Vec<u8> {
    let out = handle(msg);
    assert_eq!(out.len(), 1);
    result_of(&out[0])
}

fn single_fail(msg: &Vec<u8>) -> ErrorDesc {
    let out = handle(msg);
    assert_eq!(out.len(), 1);
    fail_of(&out[0])
}

fn seed() -> Vec<u8> {
    (0u8..32).collect()
}

fn nonce() -> Vec<u8> {
    (100u8..124).collect()
}

fn key() -> Vec<u8> {
    (50u8..82).collect()
}

#[test]
fn request_roundtrip_plain() {
    let req = Request {
        func: 4,
        byte_args: vec![vec![1, 2, 3], vec![], vec![255]],
        scrypt_args: None,
    };
    let bytes = encode_request(&req);
    let back = decode_request(&bytes).unwrap();
    assert_eq!(back.func, 4);
    assert_eq!(back.byte_args, vec![vec![1, 2, 3], vec![], vec![255u8]]);
    assert!(back.scrypt_args.is_none());
    // the other round-trip direction: re-encoding gives the same bytes
    assert_eq!(encode_request(&back), bytes);
}

#[test]
fn request_roundtrip_scrypt() {
    let req = Request {
        func: 1,
        byte_args: vec![],
        scrypt_args: Some(ScryptArgs {
            passwd: vec![9, 9, 9],
            salt: vec![7],
            log_n: 10,
            r: 8,
            p: 1,
            dk_len: 42,
        }),
    };
    let bytes = encode_request(&req);
    let back = decode_request(&bytes).unwrap();
    let sa = back.scrypt_args.as_ref().expect("scrypt args survive the round trip");
    assert_eq!(sa.passwd, vec![9, 9, 9]);
    assert_eq!(sa.salt, vec![7]);
    assert_eq!(sa.log_n, 10);
    assert_eq!(sa.r, 8);
    assert_eq!(sa.p, 1);
    assert_eq!(sa.dk_len, 42);
    assert_eq!(encode_request(&back), bytes);
}

#[test]
fn decode_rejects_truncation_and_trailing_bytes() {
    let bytes = req_bytes(2, vec![vec![1, 2, 3]]);
    // the first field (tag, length word, four value bytes) ends at byte 9;
    // cutting exactly there leaves a canonical request with no arguments,
    // every other cut is malformed
    for cut in 0..bytes.len() {
        let truncated: Vec<u8> = bytes[..cut].to_vec();
        if cut == 9 {
            let req = decode_request(&truncated).unwrap();
            assert_eq!(req.func, 2);
            assert!(req.byte_args.is_empty());
        } else {
            assert!(decode_request(&truncated).is_err(), "truncation at {} accepted", cut);
        }
    }
    let mut trailing = bytes.clone();
    trailing.push(0);
    assert!(decode_request(&trailing).is_err());
}

#[test]
fn reply_shapes_are_exclusive() {
    match decode_reply(&pack_ok(vec![1, 2])).unwrap() {
        Reply::Res(b) => assert_eq!(b, vec![1, 2]),
        _ => panic!("pack_ok must decode as a result"),
    }
    match decode_reply(&pack_interim(vec![55])).unwrap() {
        Reply::Interim(b) => assert_eq!(b, vec![55]),
        _ => panic!("pack_interim must decode as an interim reply"),
    }
    let d = ErrorDesc { condition: Condition::Configuration, message: "bad".to_string() };
    match decode_reply(&pack_err(d)).unwrap() {
        Reply::Fail(e) => {
            assert_eq!(e.condition, Condition::Configuration);
            assert_eq!(e.message, "bad");
        },
        _ => panic!("pack_err must decode as an error"),
    }
}

#[test]
fn value_wrappers_roundtrip() {
    assert_eq!(decode_bool_val(&encode_bool_val(true)), Some(true));
    assert_eq!(decode_bool_val(&encode_bool_val(false)), Some(false));
    let b = vec![1, 2, 3, 4];
    assert_eq!(decode_bytes_val(&encode_bytes_val(&b)), Some(b));
    let k = Keypair { skey: vec![1; 64], pkey: vec![2; 32] };
    let back = decode_keypair(&encode_keypair(&k)).unwrap();
    assert_eq!(back.skey, vec![1; 64]);
    assert_eq!(back.pkey, vec![2; 32]);
}

#[test]
fn unknown_code_yields_error() {
    let d = single_fail(&req_bytes(77, vec![]));
    assert_eq!(d.condition, Condition::MessagePassing);
    assert_eq!(d.message, "Unrecognized func number 77");
}

#[test]
fn zero_code_yields_error() {
    let d = single_fail(&req_bytes(0, vec![]));
    assert_eq!(d.condition, Condition::MessagePassing);
    assert_eq!(d.message, "Unrecognized func number 0");
}

#[test]
fn malformed_buffer_yields_error() {
    let good = req_bytes(3, vec![seed()]);
    for cut in 0..good.len() {
        let truncated: Vec<u8> = good[..cut].to_vec();
        let d = single_fail(&truncated);
        assert_eq!(d.condition, Condition::MessagePassing);
    }
    let mut corrupted = good.clone();
    corrupted[0] = 9;  // an unknown top-level tag
    let d = single_fail(&corrupted);
    assert_eq!(d.condition, Condition::MessagePassing);
}

#[test]
fn missing_argument_yields_error() {
    let d = single_fail(&req_bytes(2, vec![seed()]));
    assert_eq!(d.condition, Condition::MessagePassing);
}

#[test]
fn missing_scrypt_args_yields_error() {
    let d = single_fail(&req_bytes(1, vec![]));
    assert_eq!(d.condition, Condition::MessagePassing);
}

#[test]
fn secret_box_roundtrip() {
    let m = vec![10, 20, 30, 40, 50];
    let c = single_result(&req_bytes(5, vec![m.clone(), nonce(), key()]));
    assert_eq!(c.len(), m.len() + 16);
    let opened = single_result(&req_bytes(4, vec![c.clone(), nonce(), key()]));
    assert_eq!(opened, m);
}

#[test]
fn tampered_secret_box_yields_cipher_verification() {
    let m = vec![1, 2, 3, 4];
    let mut c = single_result(&req_bytes(5, vec![m, nonce(), key()]));
    let last = c.len() - 1;
    c[last] ^= 1;
    let d = single_fail(&req_bytes(4, vec![c, nonce(), key()]));
    assert_eq!(d.condition, Condition::CipherVerification);
}

#[test]
fn with_nonce_box_roundtrip() {
    let m = vec![42; 10];
    let c = single_result(&req_bytes(7, vec![m.clone(), nonce(), key()]));
    assert_eq!(c.len(), m.len() + 40);
    assert_eq!(&c[..24], nonce().as_slice());
    let opened = single_result(&req_bytes(6, vec![c, key()]));
    assert_eq!(opened, m);
}

#[test]
fn short_with_nonce_box_yields_configuration() {
    let d = single_fail(&req_bytes(6, vec![vec![0; 40], key()]));
    assert_eq!(d.condition, Condition::Configuration);
}

#[test]
fn bad_key_length_yields_configuration() {
    let d = single_fail(&req_bytes(3, vec![vec![0; 31]]));
    assert_eq!(d.condition, Condition::Configuration);
}

#[test]
fn bad_seed_length_yields_configuration() {
    let d = single_fail(&req_bytes(8, vec![vec![0; 31]]));
    assert_eq!(d.condition, Condition::Configuration);
}

#[test]
fn dh_agreement_is_symmetric() {
    let sk1: Vec<u8> = (1u8..33).collect();
    let sk2: Vec<u8> = (200u8..232).collect();
    let pk1 = single_result(&req_bytes(3, vec![sk1.clone()]));
    let pk2 = single_result(&req_bytes(3, vec![sk2.clone()]));
    assert_eq!(pk1.len(), 32);
    let s12 = single_result(&req_bytes(2, vec![sk1, pk2]));
    let s21 = single_result(&req_bytes(2, vec![sk2, pk1]));
    assert_eq!(s12.len(), 32);
    assert_eq!(s12, s21);
}

#[test]
fn keypair_holds_seed_and_public_key() {
    let kp_bytes = single_result(&req_bytes(8, vec![seed()]));
    let kp = decode_keypair(&kp_bytes).expect("a keypair value");
    assert_eq!(kp.skey.len(), 64);
    assert_eq!(kp.pkey.len(), 32);
    assert_eq!(&kp.skey[..32], seed().as_slice());
    assert_eq!(&kp.skey[32..], kp.pkey.as_slice());
}

#[test]
fn sign_then_verify_yields_true() {
    let kp = decode_keypair(&single_result(&req_bytes(8, vec![seed()]))).unwrap();
    let m = vec![5, 6, 7, 8, 9];
    let sig = single_result(&req_bytes(9, vec![m.clone(), kp.skey.clone()]));
    assert_eq!(sig.len(), 64);
    let verdict = single_result(&req_bytes(10, vec![m, sig, kp.pkey]));
    assert_eq!(decode_bool_val(&verdict), Some(true));
}

#[test]
fn flipped_message_bit_fails_verification() {
    let kp = decode_keypair(&single_result(&req_bytes(8, vec![seed()]))).unwrap();
    let m = vec![5, 6, 7, 8, 9];
    let sig = single_result(&req_bytes(9, vec![m.clone(), kp.skey.clone()]));
    let mut m2 = m.clone();
    m2[0] ^= 1;
    let verdict = single_result(&req_bytes(10, vec![m2, sig.clone(), kp.pkey.clone()]));
    assert_eq!(decode_bool_val(&verdict), Some(false));
    let mut sig2 = sig;
    sig2[10] ^= 0x80;
    let verdict2 = single_result(&req_bytes(10, vec![m, sig2, kp.pkey]));
    assert_eq!(decode_bool_val(&verdict2), Some(false));
}

#[test]
fn verify_with_bad_key_length_yields_configuration() {
    let d = single_fail(&req_bytes(10, vec![vec![1], vec![0; 64], vec![0; 31]]));
    assert_eq!(d.condition, Condition::Configuration);
}

fn scrypt_request(log_n: u8, r: u32, p: u32, dk_len: u32) -> Vec<u8> {
    let req = Request {
        func: 1,
        byte_args: vec![],
        scrypt_args: Some(ScryptArgs {
            passwd: vec![112, 97, 115, 115],
            salt: vec![115, 97, 108, 116],
            log_n,
            r,
            p,
            dk_len,
        }),
    };
    encode_request(&req)
}

#[test]
fn key_derivation_emits_interims_then_result() {
    let out = handle(&scrypt_request(12, 8, 1, 32));
    assert!(out.len() >= 3, "parameters this large must report progress");
    let mut percents: Vec<u8> = Vec::new();
    for interim in &out[..out.len() - 1] {
        match decode_reply(interim).unwrap() {
            Reply::Interim(p) => {
                assert_eq!(p.len(), 1);
                percents.push(p[0]);
            },
            _ => panic!("every reply before the terminal one must be interim"),
        }
    }
    // the provider reports 3 first and 100 last
    assert_eq!(percents[0], 3);
    assert_eq!(*percents.last().unwrap(), 100);
    let dk = result_of(&out[out.len() - 1]);
    assert_eq!(dk.len(), 32);
    // the derived key is what the provider computes for these parameters
    let direct = nacl::scrypt(
        &[112, 97, 115, 115],
        &[115, 97, 108, 116],
        12,
        8,
        1,
        32,
        &|_| (),
    )
    .unwrap();
    assert_eq!(dk, direct);
}

#[test]
fn scrypt_cost_guards_yield_configuration() {
    let d = single_fail(&scrypt_request(40, 1, 1, 16));
    assert_eq!(d.condition, Condition::Configuration);
    assert_eq!(d.message, "logN is too big");
    let d2 = single_fail(&scrypt_request(10, 0x1_0000, 0x4000, 16));
    assert_eq!(d2.condition, Condition::Configuration);
    assert_eq!(d2.message, "r * p is too big");
}

#[test]
fn scrypt_zero_parameters_yield_configuration() {
    let d = single_fail(&scrypt_request(10, 0, 1, 16));
    assert_eq!(d.condition, Condition::Configuration);
    assert_eq!(d.message, "r and p must be at least 1");
    let d2 = single_fail(&scrypt_request(10, 8, 0, 16));
    assert_eq!(d2.condition, Condition::Configuration);
    assert_eq!(d2.message, "r and p must be at least 1");
}

#[test]
fn scrypt_progress_overflow_yields_configuration() {
    // 2 * 2^31 * 1 does not fit the provider's 32-bit progress accounting
    let d = single_fail(&scrypt_request(31, 1, 1, 16));
    assert_eq!(d.condition, Condition::Configuration);
    assert_eq!(d.message, "N * p is too big");
    // 2 * 2^21 * 1024 == 2^32 just overflows it too
    let d2 = single_fail(&scrypt_request(21, 1, 1024, 16));
    assert_eq!(d2.condition, Condition::Configuration);
    assert_eq!(d2.message, "N * p is too big");
}

#[test]
fn error_condition_tags_are_the_published_strings() {
    let d = single_fail(&req_bytes(77, vec![]));
    assert_eq!(d.condition.tag_string(), "message-passing-error");
    assert_eq!(
        Condition::CipherVerification.tag_string(),
        "cipher-verification"
    );
    assert_eq!(
        Condition::SignatureVerification.tag_string(),
        "signature-verification"
    );
    assert_eq!(Condition::Configuration.tag_string(), "configuration-error");
}
