//! Content fingerprints: the 128-bit digest that addresses every chunk,
//! and the deterministic name encoding used as both filename and
//! object-store key.
use vstd::prelude::*;

verus! {

/// A 128-bit content digest, used as the sole cache key and (after the
/// name encoding below) as the canonical lookup name of a chunk.
///
/// `hash0` is the primary half: integrity checks may compare it alone
/// against a cheaper single-pass hash of the payload.
#[derive(Clone, Copy, PartialEq, Eq, Hash, Debug, Structural)]
pub struct Fingerprint {
    pub hash0: u64,
    pub hash1: u64,
}

/// The digest that the content-addressing scheme assigns to a byte
/// string: the primary and the secondary 64-bit halves, in that order.
pub uninterp spec fn fingerprint_of(bytes: Seq<u8>) -> (u64, u64);

/// Relies on umash: `Params::derive` builds the same parameters from the
/// same key on every machine and in every umash version, and
/// `Fingerprinter::digest` is a function of the parameters, the seed and
/// the bytes written, so the result depends on `bytes` alone.
#[verifier::external_body]
pub fn fingerprint_for(bytes: &[u8]) -> (r: Fingerprint)
    ensures
        r.hash0 == fingerprint_of(bytes@).0,
        r.hash1 == fingerprint_of(bytes@).1,
{
    let params = umash::Params::derive(0, b"content addressed chunks");
    let digest = params.fingerprinter(0).write(bytes).digest();
    Fingerprint { hash0: digest.hash[0], hash1: digest.hash[1] }
}

/// Relies on umash: for the same parameters and seed, the primary
/// `Hasher` computes exactly the first component of the 128-bit
/// fingerprint (stated in the documentation of umash's `Fingerprint`),
/// and the result depends on `bytes` alone.
#[verifier::external_body]
pub fn digest_for(bytes: &[u8]) -> (r: u64)
    ensures
        r == fingerprint_of(bytes@).0,
{
    let params = umash::Params::derive(0, b"content addressed chunks");
    params.hasher(0).write(bytes).digest()
}

/// The character standing for the hexadecimal digit `n`.
pub open spec fn hex_digit(n: u64) -> char {
    if n == 0 {
        '0'
    } else if n == 1 {
        '1'
    } else if n == 2 {
        '2'
    } else if n == 3 {
        '3'
    } else if n == 4 {
        '4'
    } else if n == 5 {
        '5'
    } else if n == 6 {
        '6'
    } else if n == 7 {
        '7'
    } else if n == 8 {
        '8'
    } else if n == 9 {
        '9'
    } else if n == 10 {
        'a'
    } else if n == 11 {
        'b'
    } else if n == 12 {
        'c'
    } else if n == 13 {
        'd'
    } else if n == 14 {
        'e'
    } else {
        'f'
    }
}

/// The 16 hexadecimal digits of `x`, most significant first.
pub open spec fn hex_word(x: u64) -> Seq<char> {
    Seq::new(16, |i: int| hex_digit((x >> ((60 - 4 * i) as u64)) & 0xf))
}

/// The canonical name of the chunk addressed by `fp`: the hexadecimal
/// digits of the primary half, a dot, then those of the secondary half.
pub open spec fn chunk_name_of(fp: Fingerprint) -> Seq<char> {
    hex_word(fp.hash0) + seq!['.'] + hex_word(fp.hash1)
}

/// No two hexadecimal digits share a character.
proof fn lemma_hex_digit_injective(m: u64, n: u64)
    requires
        m < 16,
        n < 16,
        hex_digit(m) == hex_digit(n),
    ensures
        m == n,
{
}

/// Equal hex words have equal nibbles at each position.
proof fn lemma_word_nibble(x: u64, y: u64, i: int)
    requires
        0 <= i < 16,
        hex_word(x) == hex_word(y),
    ensures
        ((x >> ((60 - 4 * i) as u64)) & 0xf) == ((y >> ((60 - 4 * i) as u64)) & 0xf),
{
    let s: u64 = (60 - 4 * i) as u64;
    assert(hex_word(x)[i] == hex_digit((x >> s) & 0xf));
    assert(hex_word(y)[i] == hex_digit((y >> s) & 0xf));
    assert(((x >> s) & 0xf) < 16 && ((y >> s) & 0xf) < 16) by (bit_vector);
    lemma_hex_digit_injective((x >> s) & 0xf, (y >> s) & 0xf);
}

/// Each digit of `hex_word` determines its nibble, so equal words
/// denote equal values.
proof fn lemma_hex_word_injective(x: u64, y: u64)
    requires
        hex_word(x) == hex_word(y),
    ensures
        x == y,
{
    lemma_word_nibble(x, y, 0);
    lemma_word_nibble(x, y, 1);
    lemma_word_nibble(x, y, 2);
    lemma_word_nibble(x, y, 3);
    lemma_word_nibble(x, y, 4);
    lemma_word_nibble(x, y, 5);
    lemma_word_nibble(x, y, 6);
    lemma_word_nibble(x, y, 7);
    lemma_word_nibble(x, y, 8);
    lemma_word_nibble(x, y, 9);
    lemma_word_nibble(x, y, 10);
    lemma_word_nibble(x, y, 11);
    lemma_word_nibble(x, y, 12);
    lemma_word_nibble(x, y, 13);
    lemma_word_nibble(x, y, 14);
    lemma_word_nibble(x, y, 15);
    assert(x == y) by (bit_vector)
        requires
            (x >> 60u64) & 0xf == (y >> 60u64) & 0xf,
            (x >> 56u64) & 0xf == (y >> 56u64) & 0xf,
            (x >> 52u64) & 0xf == (y >> 52u64) & 0xf,
            (x >> 48u64) & 0xf == (y >> 48u64) & 0xf,
            (x >> 44u64) & 0xf == (y >> 44u64) & 0xf,
            (x >> 40u64) & 0xf == (y >> 40u64) & 0xf,
            (x >> 36u64) & 0xf == (y >> 36u64) & 0xf,
            (x >> 32u64) & 0xf == (y >> 32u64) & 0xf,
            (x >> 28u64) & 0xf == (y >> 28u64) & 0xf,
            (x >> 24u64) & 0xf == (y >> 24u64) & 0xf,
            (x >> 20u64) & 0xf == (y >> 20u64) & 0xf,
            (x >> 16u64) & 0xf == (y >> 16u64) & 0xf,
            (x >> 12u64) & 0xf == (y >> 12u64) & 0xf,
            (x >> 8u64) & 0xf == (y >> 8u64) & 0xf,
            (x >> 4u64) & 0xf == (y >> 4u64) & 0xf,
            (x >> 0u64) & 0xf == (y >> 0u64) & 0xf,
    ;
}

/// The name encoding is collision-free: distinct fingerprints never
/// share a chunk name, so a name identifies one chunk's content.
pub proof fn lemma_chunk_name_injective(a: Fingerprint, b: Fingerprint)
    requires
        chunk_name_of(a) == chunk_name_of(b),
    ensures
        a == b,
{
    assert(hex_word(a.hash0) =~= hex_word(b.hash0)) by {
        assert forall|i: int| 0 <= i < 16 implies hex_word(a.hash0)[i] == hex_word(b.hash0)[i] by {
            assert(chunk_name_of(a)[i] == chunk_name_of(b)[i]);
            assert((hex_word(a.hash0) + seq!['.'])[i] == hex_word(a.hash0)[i]);
            assert(chunk_name_of(a)[i] == (hex_word(a.hash0) + seq!['.'])[i]);
            assert((hex_word(b.hash0) + seq!['.'])[i] == hex_word(b.hash0)[i]);
            assert(chunk_name_of(b)[i] == (hex_word(b.hash0) + seq!['.'])[i]);
        }
    }
    assert(hex_word(a.hash1) =~= hex_word(b.hash1)) by {
        assert forall|i: int| 0 <= i < 16 implies hex_word(a.hash1)[i] == hex_word(b.hash1)[i] by {
            assert(chunk_name_of(a)[i + 17] == chunk_name_of(b)[i + 17]);
            assert(chunk_name_of(a)[i + 17] == hex_word(a.hash1)[i]);
            assert(chunk_name_of(b)[i + 17] == hex_word(b.hash1)[i]);
        }
    }
    lemma_hex_word_injective(a.hash0, b.hash0);
    lemma_hex_word_injective(a.hash1, b.hash1);
}

fn hex_digit_char(n: u64) -> (r: char)
    requires
        n < 16,
    ensures
        r == hex_digit(n),
{
    if n == 0 {
        '0'
    } else if n == 1 {
        '1'
    } else if n == 2 {
        '2'
    } else if n == 3 {
        '3'
    } else if n == 4 {
        '4'
    } else if n == 5 {
        '5'
    } else if n == 6 {
        '6'
    } else if n == 7 {
        '7'
    } else if n == 8 {
        '8'
    } else if n == 9 {
        '9'
    } else if n == 10 {
        'a'
    } else if n == 11 {
        'b'
    } else if n == 12 {
        'c'
    } else if n == 13 {
        'd'
    } else if n == 14 {
        'e'
    } else {
        'f'
    }
}

/// Appends the 16 hexadecimal digits of `x` to `out`.
fn push_hex_word(out: &mut Vec<char>, x: u64)
    ensures
        final(out)@ == old(out)@ + hex_word(x),
{
    let mut i: usize = 0;
    while i < 16
        invariant
            i <= 16,
            out@ == old(out)@ + hex_word(x).take(i as int),
        decreases 16 - i,
    {
        let shift: u64 = 60 - 4 * (i as u64);
        let digit: u64 = (x >> shift) & 0xf;
        assert(((x >> shift) & 0xf) < 16) by (bit_vector);
        out.push(hex_digit_char(digit));
        proof {
            assert(hex_word(x).take(i + 1) =~= hex_word(x).take(i as int).push(hex_word(x)[i as int]));
        }
        i = i + 1;
    }
    proof {
        assert(hex_word(x).take(16) =~= hex_word(x));
    }
}

/// The deterministic, collision-free encoding of a fingerprint, used as
/// both the filename in a local cache directory and the object-store
/// key of the chunk.
pub fn fingerprint_chunk_name(fp: &Fingerprint) -> (r: Vec<char>)
    ensures
        r@ == chunk_name_of(*fp),
{
    let mut out: Vec<char> = Vec::new();
    push_hex_word(&mut out, fp.hash0);
    out.push('.');
    push_hex_word(&mut out, fp.hash1);
    proof {
        assert(out@ =~= chunk_name_of(*fp));
    }
    out
}

} // verus!
