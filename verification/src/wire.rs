//! Byte-level building block of the wire format.
//!
//! A *field* is one tag byte, a four-byte little-endian length word, and that
//! many payload bytes. Every message of the schema is a concatenation of
//! fields; `messages` fixes which tags appear, in which order, and what their
//! payloads mean.

use vstd::prelude::*;

verus! {

/// A payload fits in a field exactly when its length fits the four-byte
/// length word.
pub open spec fn fits_field(p: Seq<u8>) -> bool {
    p.len() < 0x1_0000_0000
}

/// The four bytes of `n`, least significant first.
pub open spec fn le_bytes(n: u32) -> Seq<u8> {
    seq![
        (n & 0xff) as u8,
        ((n >> 8) & 0xff) as u8,
        ((n >> 16) & 0xff) as u8,
        ((n >> 24) & 0xff) as u8,
    ]
}

/// The value of four little-endian bytes.
pub open spec fn le_val(b: Seq<u8>) -> u32
    recommends
        b.len() == 4,
{
    (b[0] as u32) | ((b[1] as u32) << 8) | ((b[2] as u32) << 16) | ((b[3] as u32) << 24)
}

pub proof fn lemma_le_val_of_le_bytes(n: u32)
    ensures
        le_val(le_bytes(n)) == n,
{
    assert(((n & 0xff) as u8) as u32 | ((((n >> 8) & 0xff) as u8) as u32) << 8 | ((((n >> 16)
        & 0xff) as u8) as u32) << 16 | ((((n >> 24) & 0xff) as u8) as u32) << 24 == n)
        by (bit_vector);
}

pub proof fn lemma_le_bytes_of_le_val(b: Seq<u8>)
    requires
        b.len() == 4,
    ensures
        le_bytes(le_val(b)) == b,
{
    let b0 = b[0];
    let b1 = b[1];
    let b2 = b[2];
    let b3 = b[3];
    let n = (b0 as u32) | ((b1 as u32) << 8) | ((b2 as u32) << 16) | ((b3 as u32) << 24);
    assert({
        let m = (b0 as u32) | ((b1 as u32) << 8) | ((b2 as u32) << 16) | ((b3 as u32) << 24);
        (m & 0xff) as u8 == b0 && ((m >> 8) & 0xff) as u8 == b1 && ((m >> 16) & 0xff) as u8 == b2
            && ((m >> 24) & 0xff) as u8 == b3
    }) by (bit_vector);
    assert(le_val(b) == n);
    assert(le_bytes(le_val(b)) =~= b);
}

/// One encoded field: tag byte, length word, payload.
pub open spec fn field(tag: u8, p: Seq<u8>) -> Seq<u8> {
    seq![tag] + le_bytes(p.len() as u32) + p
}

/// Reads the first field of `b`: its tag, its payload, and the bytes after
/// it. `None` exactly when `b` does not begin with a whole field.
pub open spec fn take_field(b: Seq<u8>) -> Option<(u8, Seq<u8>, Seq<u8>)> {
    if b.len() < 5 {
        None
    } else {
        let l = le_val(b.subrange(1, 5)) as int;
        if b.len() < 5 + l {
            None
        } else {
            Some((b[0], b.subrange(5, 5 + l), b.subrange(5 + l, b.len() as int)))
        }
    }
}

pub proof fn lemma_take_field_of_field(tag: u8, p: Seq<u8>, rest: Seq<u8>)
    requires
        fits_field(p),
    ensures
        take_field(field(tag, p) + rest) == Some((tag, p, rest)),
{
    let b = field(tag, p) + rest;
    lemma_le_val_of_le_bytes(p.len() as u32);
    assert(b.subrange(1, 5) =~= le_bytes(p.len() as u32));
    assert(b.subrange(5, 5 + p.len() as int) =~= p);
    assert(b.subrange(5 + p.len() as int, b.len() as int) =~= rest);
}

pub proof fn lemma_field_reconstruct(b: Seq<u8>, tag: u8, p: Seq<u8>, rest: Seq<u8>)
    requires
        take_field(b) == Some((tag, p, rest)),
    ensures
        b == field(tag, p) + rest,
        fits_field(p),
        b.len() == 5 + p.len() + rest.len(),
{
    lemma_le_bytes_of_le_val(b.subrange(1, 5));
    assert(field(tag, p) + rest =~= b);
}

/// The four bytes of `n` as a vector, least significant first.
pub fn le32_vec(n: u32) -> (v: Vec<u8>)
    ensures
        v@ == le_bytes(n),
{
    let mut v: Vec<u8> = Vec::new();
    v.push((n & 0xff) as u8);
    v.push(((n >> 8) & 0xff) as u8);
    v.push(((n >> 16) & 0xff) as u8);
    v.push(((n >> 24) & 0xff) as u8);
    proof {
        assert(v@ =~= le_bytes(n));
    }
    v
}

/// Appends one encoded field to `out`.
pub fn push_field(out: &mut Vec<u8>, tag: u8, payload: &Vec<u8>)
    requires
        fits_field(payload@),
    ensures
        final(out)@ == old(out)@ + field(tag, payload@),
{
    out.push(tag);
    let l = payload.len() as u32;
    out.push((l & 0xff) as u8);
    out.push(((l >> 8) & 0xff) as u8);
    out.push(((l >> 16) & 0xff) as u8);
    out.push(((l >> 24) & 0xff) as u8);
    proof {
        assert(out@ =~= old(out)@ + seq![tag] + le_bytes(payload@.len() as u32));
    }
    let ghost mid = out@;
    let mut i: usize = 0;
    while i < payload.len()
        invariant
            i <= payload@.len(),
            out@ == mid + payload@.subrange(0, i as int),
        decreases payload@.len() - i,
    {
        out.push(payload[i]);
        proof {
            assert(mid + payload@.subrange(0, i as int) + seq![payload@[i as int]] =~= mid
                + payload@.subrange(0, i + 1 as int));
        }
        i += 1;
    }
    proof {
        assert(payload@.subrange(0, payload@.len() as int) =~= payload@);
        assert(out@ =~= old(out)@ + field(tag, payload@));
    }
}

/// Reads the field at `pos` of `buf`, returning its tag, a copy of its
/// payload, and the position just after it; `None` exactly when no whole
/// field starts there.
pub fn read_field(buf: &Vec<u8>, pos: usize) -> (r: Option<(u8, Vec<u8>, usize)>)
    requires
        pos <= buf@.len(),
    ensures
        match r {
            Some(t) => {
                &&& take_field(buf@.skip(pos as int)) == Some(
                    (t.0, t.1@, buf@.skip(t.2 as int)),
                )
                &&& pos < t.2 <= buf@.len()
            },
            None => take_field(buf@.skip(pos as int)) is None,
        },
{
    let ghost s = buf@.skip(pos as int);
    if buf.len() - pos < 5 {
        return None;
    }
    let tag = buf[pos];
    let l: u32 = (buf[pos + 1] as u32) | ((buf[pos + 2] as u32) << 8) | ((buf[pos + 3] as u32)
        << 16) | ((buf[pos + 4] as u32) << 24);
    proof {
        assert(s.subrange(1, 5) =~= buf@.subrange(pos + 1 as int, pos + 5 as int));
        assert(le_val(s.subrange(1, 5)) == l);
    }
    let body = buf.len() - (pos + 5);
    if body < l as usize {
        return None;
    }
    let endpos = pos + 5 + (l as usize);
    let mut payload: Vec<u8> = Vec::new();
    let mut i: usize = pos + 5;
    while i < endpos
        invariant
            pos + 5 <= i <= endpos,
            endpos <= buf@.len(),
            payload@ == buf@.subrange(pos + 5 as int, i as int),
        decreases endpos - i,
    {
        payload.push(buf[i]);
        proof {
            assert(buf@.subrange(pos + 5 as int, i as int) + seq![buf@[i as int]] =~= buf@.subrange(
                pos + 5 as int,
                i + 1 as int,
            ));
        }
        i += 1;
    }
    proof {
        assert(s.subrange(5, 5 + l as int) =~= buf@.subrange(pos + 5 as int, endpos as int));
        assert(s.subrange(5 + l as int, s.len() as int) =~= buf@.skip(endpos as int));
    }
    Some((tag, payload, endpos))
}

/// Byte-for-byte equality of two vectors.
pub fn bytes_eq(a: &Vec<u8>, b: &Vec<u8>) -> (r: bool)
    ensures
        r == (a@ == b@),
{
    if a.len() != b.len() {
        return false;
    }
    let mut i: usize = 0;
    while i < a.len()
        invariant
            i <= a@.len(),
            a@.len() == b@.len(),
            forall|j: int| 0 <= j < i ==> a@[j] == b@[j],
        decreases a@.len() - i,
    {
        if a[i] != b[i] {
            return false;
        }
        i += 1;
    }
    proof {
        assert(a@ =~= b@);
    }
    true
}

} // verus!
