//! Little-endian field encoding shared by the packet and TOC formats.

use vstd::prelude::*;
use vstd::bytes::*;
use vstd::slice::slice_subrange;

verus! {

broadcast use {vstd::seq::group_seq_axioms, vstd::slice::group_slice_axioms};

/// Appends the little-endian encoding of `v`.
pub fn push_u16(out: &mut Vec<u8>, v: u16)
    ensures
        final(out)@ == old(out)@ + spec_u16_to_le_bytes(v),
        spec_u16_to_le_bytes(v).len() == 2,
{
    proof {
        lemma_auto_spec_u16_to_from_le_bytes();
    }
    let mut b = u16_to_le_bytes(v);
    out.append(&mut b);
}

/// Appends the little-endian encoding of `v`.
pub fn push_u32(out: &mut Vec<u8>, v: u32)
    ensures
        final(out)@ == old(out)@ + spec_u32_to_le_bytes(v),
        spec_u32_to_le_bytes(v).len() == 4,
{
    proof {
        lemma_auto_spec_u32_to_from_le_bytes();
    }
    let mut b = u32_to_le_bytes(v);
    out.append(&mut b);
}

/// Appends every byte of `src`.
pub fn push_bytes(out: &mut Vec<u8>, src: &[u8])
    ensures
        final(out)@ == old(out)@ + src@,
{
    let ghost start = out@;
    let n = src.len();
    let mut i: usize = 0;
    while i < n
        invariant
            n == src@.len(),
            i <= n,
            out@ == start + src@.take(i as int),
        decreases n - i,
    {
        out.push(src[i]);
        i = i + 1;
        assert(src@.take(i as int) == src@.take((i - 1) as int).push(src@[i - 1]));
    }
    assert(src@.take(n as int) == src@);
}

/// Reads the little-endian `u16` at `pos`.
pub fn read_u16(buf: &[u8], pos: usize) -> (v: u16)
    requires
        pos + 2 <= buf.len(),
    ensures
        v == spec_u16_from_le_bytes(buf@.subrange(pos as int, pos + 2)),
{
    u16_from_le_bytes(slice_subrange(buf, pos, pos + 2))
}

/// Reads the little-endian `u32` at `pos`.
pub fn read_u32(buf: &[u8], pos: usize) -> (v: u32)
    requires
        pos + 4 <= buf.len(),
    ensures
        v == spec_u32_from_le_bytes(buf@.subrange(pos as int, pos + 4)),
{
    u32_from_le_bytes(slice_subrange(buf, pos, pos + 4))
}

/// Encoding is injective and has fixed width, and decoding an encoding
/// gives the value back.
pub proof fn lemma_le_round_trip(a: u32, b: u32, c: u16, d: u16)
    ensures
        spec_u32_to_le_bytes(a).len() == 4,
        spec_u32_to_le_bytes(b).len() == 4,
        spec_u16_to_le_bytes(c).len() == 2,
        spec_u16_to_le_bytes(d).len() == 2,
        spec_u32_from_le_bytes(spec_u32_to_le_bytes(a)) == a,
        spec_u16_from_le_bytes(spec_u16_to_le_bytes(c)) == c,
        spec_u32_to_le_bytes(a) == spec_u32_to_le_bytes(b) ==> a == b,
        spec_u16_to_le_bytes(c) == spec_u16_to_le_bytes(d) ==> c == d,
{
    lemma_auto_spec_u32_to_from_le_bytes();
    lemma_auto_spec_u16_to_from_le_bytes();
    assert(spec_u32_to_le_bytes(a).len() == 4);
    assert(spec_u32_to_le_bytes(b).len() == 4);
    assert(spec_u16_to_le_bytes(c).len() == 2);
    assert(spec_u16_to_le_bytes(d).len() == 2);
}

/// Decoding then encoding four (two) bytes gives them back.
pub proof fn lemma_le_bytes_round_trip(s: Seq<u8>, t: Seq<u8>)
    ensures
        s.len() == 4 ==> spec_u32_to_le_bytes(spec_u32_from_le_bytes(s)) == s,
        t.len() == 2 ==> spec_u16_to_le_bytes(spec_u16_from_le_bytes(t)) == t,
{
    lemma_auto_spec_u32_to_from_le_bytes();
    lemma_auto_spec_u16_to_from_le_bytes();
}


/// The little-endian bytes of a sequence of words, word after word.
pub open spec fn words_le(ws: Seq<u32>) -> Seq<u8>
    decreases ws.len(),
{
    if ws.len() == 0 {
        Seq::empty()
    } else {
        words_le(ws.drop_last()) + spec_u32_to_le_bytes(ws.last())
    }
}

/// `bytes` padded with zeros to a whole number of words.
pub open spec fn pad_to_words(bytes: Seq<u8>) -> Seq<u8> {
    let n = (bytes.len() + 3) / 4 * 4;
    bytes + Seq::new((n - bytes.len()) as nat, |i: int| 0u8)
}

/// The words that carry `bytes`: four bytes per word, little-endian, the
/// last word padded with zeros.
pub open spec fn words_of_bytes(bytes: Seq<u8>) -> Seq<u32> {
    let p = pad_to_words(bytes);
    Seq::new(p.len() / 4, |i: int| spec_u32_from_le_bytes(p.subrange(4 * i, 4 * i + 4)))
}

/// `words_le` has four bytes per word and the bytes of word `i` at `4 * i`.
pub proof fn lemma_words_le(ws: Seq<u32>)
    ensures
        words_le(ws).len() == 4 * ws.len(),
        forall|i: int|
            0 <= i < ws.len() ==> #[trigger] words_le(ws).subrange(4 * i, 4 * i + 4)
                == spec_u32_to_le_bytes(ws[i]),
    decreases ws.len(),
{
    lemma_auto_spec_u32_to_from_le_bytes();
    if ws.len() > 0 {
        let init = ws.drop_last();
        lemma_words_le(init);
        assert(spec_u32_to_le_bytes(ws.last()).len() == 4);
        assert forall|i: int|
            0 <= i < ws.len() implies #[trigger] words_le(ws).subrange(4 * i, 4 * i + 4)
                == spec_u32_to_le_bytes(ws[i]) by {
            if i < ws.len() - 1 {
                assert(words_le(ws).subrange(4 * i, 4 * i + 4) =~= words_le(init).subrange(
                    4 * i,
                    4 * i + 4,
                ));
            } else {
                assert(words_le(ws).subrange(4 * i, 4 * i + 4) =~= spec_u32_to_le_bytes(
                    ws.last(),
                ));
            }
        }
    }
}

/// Bytes packed into words and unpacked again come back, followed only by
/// the zero padding of the last word.
pub proof fn lemma_words_round_trip(bytes: Seq<u8>)
    ensures
        words_le(words_of_bytes(bytes)) == pad_to_words(bytes),
        words_le(words_of_bytes(bytes)).take(bytes.len() as int) == bytes,
{
    let ws = words_of_bytes(bytes);
    let p = pad_to_words(bytes);
    lemma_words_le(ws);
    lemma_auto_spec_u32_to_from_le_bytes();
    assert(p.len() % 4 == 0);
    assert forall|k: int| 0 <= k < p.len() implies words_le(ws)[k] == p[k] by {
        let i = k / 4;
        assert(0 <= i < ws.len());
        assert(p.subrange(4 * i, 4 * i + 4).len() == 4);
        assert(spec_u32_to_le_bytes(ws[i]) == p.subrange(4 * i, 4 * i + 4));
        assert(words_le(ws).subrange(4 * i, 4 * i + 4)[k - 4 * i] == words_le(ws)[k]);
    }
    assert(words_le(ws) =~= p);
    assert(p.take(bytes.len() as int) =~= bytes);
}

/// The bytes carried by the first `n_words` words of `ws`.
pub fn words_to_le_bytes(ws: &[u32], n_words: usize) -> (r: Vec<u8>)
    requires
        n_words <= ws@.len(),
    ensures
        r@ == words_le(ws@.take(n_words as int)),
{
    let mut out: Vec<u8> = Vec::new();
    let mut i: usize = 0;
    while i < n_words
        invariant
            n_words <= ws@.len(),
            i <= n_words,
            out@ == words_le(ws@.take(i as int)),
        decreases n_words - i,
    {
        push_u32(&mut out, ws[i]);
        i = i + 1;
        assert(ws@.take(i as int).drop_last() =~= ws@.take((i - 1) as int));
    }
    out
}

/// Packs `bytes` into little-endian words, zero-padding the last one.
pub fn le_bytes_to_words(bytes: &[u8]) -> (r: Vec<u32>)
    ensures
        r@ == words_of_bytes(bytes@),
{
    let n = bytes.len();
    let n_words = n / 4 + if n % 4 == 0 {
        0
    } else {
        1
    };
    let ghost p = pad_to_words(bytes@);
    assert(p.len() == 4 * n_words);
    let mut out: Vec<u32> = Vec::new();
    let mut i: usize = 0;
    while i < n_words
        invariant
            n == bytes@.len(),
            p == pad_to_words(bytes@),
            p.len() == 4 * n_words,
            n_words == (n + 3) / 4,
            i <= n_words,
            out@.len() == i,
            forall|k: int|
                0 <= k < i ==> out@[k] == spec_u32_from_le_bytes(p.subrange(4 * k, 4 * k + 4)),
        decreases n_words - i,
    {
        let base = 4 * i;
        let b0 = if base < n { bytes[base] } else { 0u8 };
        let b1 = if base + 1 < n { bytes[base + 1] } else { 0u8 };
        let b2 = if base + 2 < n { bytes[base + 2] } else { 0u8 };
        let b3 = if base + 3 < n { bytes[base + 3] } else { 0u8 };
        let word = [b0, b1, b2, b3];
        assert(word@ =~= p.subrange(4 * i as int, 4 * i + 4));
        out.push(u32_from_le_bytes(vstd::array::array_as_slice(&word)));
        i = i + 1;
    }
    assert(out@ =~= words_of_bytes(bytes@));
    out
}

} // verus!
