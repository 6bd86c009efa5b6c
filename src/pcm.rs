//! Raw sample framing: each 64-bit sample pattern stored as eight bytes,
//! least significant first, one after another, with no header.
use vstd::prelude::*;
use byteorder::{ByteOrder, LittleEndian};

verus! {

/// Bytes in one stored sample.
pub const SAMPLE_BYTES: usize = 8;

/// The eight bytes of `n`, least significant first.
pub open spec fn le_bytes(n: u64) -> Seq<u8> {
    seq![
        (n & 0xff) as u8,
        ((n >> 8u64) & 0xff) as u8,
        ((n >> 16u64) & 0xff) as u8,
        ((n >> 24u64) & 0xff) as u8,
        ((n >> 32u64) & 0xff) as u8,
        ((n >> 40u64) & 0xff) as u8,
        ((n >> 48u64) & 0xff) as u8,
        ((n >> 56u64) & 0xff) as u8,
    ]
}

/// The number whose eight bytes, least significant first, open `b`.
pub open spec fn le_value(b: Seq<u8>) -> u64 {
    (b[0] as u64) | ((b[1] as u64) << 8u64) | ((b[2] as u64) << 16u64) | ((b[3] as u64) << 24u64)
        | ((b[4] as u64) << 32u64) | ((b[5] as u64) << 40u64) | ((b[6] as u64) << 48u64) | ((
    b[7] as u64) << 56u64)
}

/// The stored form of a sequence of samples.
pub open spec fn encoded(s: Seq<u64>) -> Seq<u8>
    decreases s.len(),
{
    if s.len() == 0 {
        Seq::empty()
    } else {
        encoded(s.drop_last()) + le_bytes(s.last())
    }
}

/// The samples read back from stored bytes, whole groups of eight only.
pub open spec fn decoded(b: Seq<u8>) -> Seq<u64>
    decreases b.len(),
{
    if b.len() < SAMPLE_BYTES {
        Seq::empty()
    } else {
        decoded(b.subrange(0, b.len() - 8)).push(le_value(b.subrange(b.len() - 8, b.len() as int)))
    }
}

/// Relies on byteorder's `LittleEndian::write_u64`, which stores `n` in the
/// first eight bytes of the buffer, least significant byte first.
#[verifier::external_body]
fn write_le(n: u64) -> (r: [u8; 8])
    ensures
        r@ == le_bytes(n),
{
    let mut buf = [0u8; 8];
    LittleEndian::write_u64(&mut buf, n);
    buf
}

/// Relies on byteorder's `LittleEndian::read_u64`, which reads the first
/// eight bytes of the buffer as a number, least significant byte first, and
/// panics on a shorter buffer.
#[verifier::external_body]
fn read_le(b: &[u8]) -> (r: u64)
    requires
        b@.len() >= 8,
    ensures
        r == le_value(b@),
{
    LittleEndian::read_u64(b)
}

/// Reading back the eight bytes of a number gives the number.
pub proof fn lemma_le_value_of_bytes(n: u64)
    ensures
        le_value(le_bytes(n)) == n,
{
    let b = le_bytes(n);
    assert(b[0] == (n & 0xff) as u8 && b[1] == ((n >> 8u64) & 0xff) as u8 && b[2] == ((n
        >> 16u64) & 0xff) as u8 && b[3] == ((n >> 24u64) & 0xff) as u8);
    assert(b[4] == ((n >> 32u64) & 0xff) as u8 && b[5] == ((n >> 40u64) & 0xff) as u8 && b[6]
        == ((n >> 48u64) & 0xff) as u8 && b[7] == ((n >> 56u64) & 0xff) as u8);
    assert(((n & 0xff) as u8 as u64) | ((((n >> 8u64) & 0xff) as u8 as u64) << 8u64) | ((((n
        >> 16u64) & 0xff) as u8 as u64) << 16u64) | ((((n >> 24u64) & 0xff) as u8 as u64)
        << 24u64) | ((((n >> 32u64) & 0xff) as u8 as u64) << 32u64) | ((((n >> 40u64) & 0xff)
        as u8 as u64) << 40u64) | ((((n >> 48u64) & 0xff) as u8 as u64) << 48u64) | ((((n
        >> 56u64) & 0xff) as u8 as u64) << 56u64) == n) by (bit_vector);
}

/// Storing `k` samples takes exactly `8 * k` bytes, and reading those bytes
/// back gives the same samples, bit for bit.
pub proof fn lemma_round_trip(s: Seq<u64>)
    ensures
        encoded(s).len() == SAMPLE_BYTES * s.len(),
        decoded(encoded(s)) == s,
    decreases s.len(),
{
    if s.len() > 0 {
        let front = s.drop_last();
        lemma_round_trip(front);
        let e = encoded(s);
        assert(e.subrange(0, e.len() - 8) =~= encoded(front));
        assert(e.subrange(e.len() - 8, e.len() as int) =~= le_bytes(s.last()));
        lemma_le_value_of_bytes(s.last());
        assert(decoded(e) =~= s);
    }
}

/// The stored form of `samples`: eight bytes for each, least significant
/// byte first, in order.
pub fn encode_samples(samples: &Vec<u64>) -> (r: Vec<u8>)
    ensures
        r@ == encoded(samples@),
        r@.len() == SAMPLE_BYTES * samples@.len(),
{
    let mut r: Vec<u8> = Vec::new();
    let mut i: usize = 0;
    while i < samples.len()
        invariant
            i <= samples@.len(),
            r@ == encoded(samples@.subrange(0, i as int)),
        decreases samples@.len() - i,
    {
        let bytes = write_le(samples[i]);
        let ghost before = r@;
        let mut k: usize = 0;
        while k < SAMPLE_BYTES
            invariant
                k <= 8,
                bytes@ == le_bytes(samples@[i as int]),
                r@ == before + bytes@.subrange(0, k as int),
            decreases 8 - k,
        {
            r.push(bytes[k]);
            k = k + 1;
            assert(r@ =~= before + bytes@.subrange(0, k as int));
        }
        assert(samples@.subrange(0, i + 1).drop_last() =~= samples@.subrange(0, i as int));
        assert(bytes@.subrange(0, 8) =~= bytes@);
        i = i + 1;
    }
    assert(samples@.subrange(0, i as int) =~= samples@);
    proof {
        lemma_round_trip(samples@);
    }
    r
}

/// Reads stored bytes back as samples. Gives `None` exactly when the length
/// is not a whole number of samples.
pub fn decode_samples(bytes: &Vec<u8>) -> (r: Option<Vec<u64>>)
    ensures
        match r {
            Some(v) => bytes@.len() % 8 == 0 && v@ == decoded(bytes@),
            None => bytes@.len() % 8 != 0,
        },
{
    if bytes.len() % SAMPLE_BYTES != 0 {
        return None;
    }
    let n = bytes.len();
    let count = n / SAMPLE_BYTES;
    let mut v: Vec<u64> = Vec::new();
    let mut i: usize = 0;
    while i < count
        invariant
            i <= count,
            n == bytes@.len(),
            count * 8 == bytes@.len(),
            v@ == decoded(bytes@.subrange(0, 8 * i)),
        decreases count - i,
    {
        assert(8 * i + 8 <= n) by (nonlinear_arith)
            requires
                i < count,
                count * 8 == n,
        ;
        let start = 8 * i;
        let mut chunk: Vec<u8> = Vec::new();
        let mut k: usize = 0;
        while k < SAMPLE_BYTES
            invariant
                k <= 8,
                start == 8 * i,
                i < count,
                count * 8 == bytes@.len(),
                chunk@ == bytes@.subrange(start as int, start + k),
            decreases 8 - k,
        {
            chunk.push(bytes[start + k]);
            k = k + 1;
            assert(chunk@ =~= bytes@.subrange(start as int, start + k));
        }
        let x = read_le(chunk.as_slice());
        proof {
            let prefix = bytes@.subrange(0, 8 * (i + 1));
            assert(prefix.subrange(0, prefix.len() - 8) =~= bytes@.subrange(0, 8 * i));
            assert(prefix.subrange(prefix.len() - 8, prefix.len() as int) =~= chunk@);
        }
        v.push(x);
        i = i + 1;
    }
    assert(bytes@.subrange(0, 8 * i) =~= bytes@);
    Some(v)
}

} // verus!
