//! The I/O wire format: 64-bit words carried as big-endian bytes,
//! eight bytes per word, no framing and no header.

use byteorder::ByteOrder;
use vstd::prelude::*;

verus! {

/// The eight bytes of `v`, most significant first.
pub open spec fn be64(v: u64) -> Seq<u8> {
    seq![
        (v >> 56) as u8,
        (v >> 48) as u8,
        (v >> 40) as u8,
        (v >> 32) as u8,
        (v >> 24) as u8,
        (v >> 16) as u8,
        (v >> 8) as u8,
        v as u8,
    ]
}

/// The word whose big-endian bytes are `s`.
pub open spec fn be_word(s: Seq<u8>) -> u64
    recommends
        s.len() == 8,
{
    ((s[0] as u64) << 56) | ((s[1] as u64) << 48) | ((s[2] as u64) << 40) | ((s[3] as u64) << 32)
        | ((s[4] as u64) << 24) | ((s[5] as u64) << 16) | ((s[6] as u64) << 8) | (s[7] as u64)
}

/// Reading the eight bytes of a word back gives the word.
pub proof fn lemma_be_word_of_be64(v: u64)
    ensures
        be_word(be64(v)) == v,
{
    let s = be64(v);
    assert(((((v >> 56) as u8) as u64) << 56) | ((((v >> 48) as u8) as u64) << 48)
        | ((((v >> 40) as u8) as u64) << 40) | ((((v >> 32) as u8) as u64) << 32)
        | ((((v >> 24) as u8) as u64) << 24) | ((((v >> 16) as u8) as u64) << 16)
        | ((((v >> 8) as u8) as u64) << 8) | ((v as u8) as u64) == v) by (bit_vector);
}

/// Relies on `byteorder::BigEndian::read_u64` (byteorder's `ByteOrder` impl):
/// it reads the first eight bytes of the slice as one unsigned 64-bit
/// integer, big endian, and panics on a shorter slice.
#[verifier::external_body]
pub(crate) fn be_u64_at(b: &[u8], pos: usize) -> (r: u64)
    requires
        pos + 8 <= b@.len(),
    ensures
        r == be_word(b@.subrange(pos as int, pos as int + 8)),
{
    byteorder::BigEndian::read_u64(&b[pos..pos + 8])
}

/// Relies on `byteorder::BigEndian::write_u64` (byteorder's `ByteOrder` impl):
/// it writes `v` into the first eight bytes of the buffer, big endian.
#[verifier::external_body]
pub(crate) fn be_u64_bytes(v: u64) -> (r: Vec<u8>)
    ensures
        r@ == be64(v),
{
    let mut buf = vec![0u8; 8];
    byteorder::BigEndian::write_u64(&mut buf, v);
    buf
}

/// The byte stream that carries the given words, in order.
pub open spec fn be_bytes_of_words(ws: Seq<u64>) -> Seq<u8>
    decreases ws.len(),
{
    if ws.len() == 0 {
        Seq::empty()
    } else {
        be64(ws[0]) + be_bytes_of_words(ws.skip(1))
    }
}

/// The words carried by a byte stream, read greedily eight bytes at a
/// time; a residue of fewer than eight bytes is dropped.
pub open spec fn words_of_be_bytes(bs: Seq<u8>) -> Seq<u64>
    decreases bs.len(),
{
    if bs.len() < 8 {
        Seq::empty()
    } else {
        seq![be_word(bs.take(8))] + words_of_be_bytes(bs.skip(8))
    }
}

/// Appending one word to the stream appends its eight bytes.
pub proof fn lemma_be_bytes_of_words_snoc(ws: Seq<u64>)
    requires
        ws.len() > 0,
    ensures
        be_bytes_of_words(ws) == be_bytes_of_words(ws.drop_last()) + be64(ws.last()),
    decreases ws.len(),
{
    if ws.len() == 1 {
        assert(ws.drop_last() =~= Seq::<u64>::empty());
        assert(be_bytes_of_words(ws) =~= be64(ws[0]) + be_bytes_of_words(ws.skip(1)));
        assert(ws.skip(1) =~= Seq::<u64>::empty());
        assert(be_bytes_of_words(ws) =~= be_bytes_of_words(ws.drop_last()) + be64(ws.last()));
    } else {
        lemma_be_bytes_of_words_snoc(ws.skip(1));
        assert(ws.skip(1).drop_last() =~= ws.drop_last().skip(1));
        assert(ws.skip(1).last() == ws.last());
        assert(be_bytes_of_words(ws.drop_last()) == be64(ws[0]) + be_bytes_of_words(
            ws.drop_last().skip(1),
        ));
        assert(be_bytes_of_words(ws) =~= be_bytes_of_words(ws.drop_last()) + be64(ws.last()));
    }
}

/// Encoding words and reading the stream back gives the words: no word is
/// lost, reordered, or changed in transit.
pub proof fn lemma_words_round_trip(ws: Seq<u64>)
    ensures
        words_of_be_bytes(be_bytes_of_words(ws)) == ws,
    decreases ws.len(),
{
    if ws.len() == 0 {
    } else {
        lemma_words_round_trip(ws.skip(1));
        let bs = be_bytes_of_words(ws);
        assert(bs == be64(ws[0]) + be_bytes_of_words(ws.skip(1)));
        assert(bs.len() >= 8);
        assert(bs.take(8) =~= be64(ws[0]));
        lemma_be_word_of_be64(ws[0]);
        assert(bs.skip(8) =~= be_bytes_of_words(ws.skip(1)));
        assert(words_of_be_bytes(bs) =~= ws);
    }
}

/// Encode each word as eight big-endian bytes, in order.
pub fn words_to_be_bytes(ws: &Vec<u64>) -> (r: Vec<u8>)
    ensures
        r@ == be_bytes_of_words(ws@),
{
    let mut out: Vec<u8> = Vec::new();
    let mut i: usize = 0;
    while i < ws.len()
        invariant
            i <= ws.len(),
            out@ == be_bytes_of_words(ws@.take(i as int)),
        decreases ws.len() - i,
    {
        let mut chunk = be_u64_bytes(ws[i]);
        out.append(&mut chunk);
        i = i + 1;
        proof {
            lemma_be_bytes_of_words_snoc(ws@.take(i as int));
            assert(ws@.take(i as int).drop_last() =~= ws@.take(i as int - 1));
            assert(ws@.take(i as int).last() == ws@[i as int - 1]);
        }
    }
    proof {
        assert(ws@.take(ws@.len() as int) =~= ws@);
    }
    out
}

/// Decode consecutive big-endian words until fewer than eight bytes remain.
pub fn be_bytes_to_words(bs: &[u8]) -> (r: Vec<u64>)
    ensures
        r@ == words_of_be_bytes(bs@),
{
    let mut out: Vec<u64> = Vec::new();
    let mut pos: usize = 0;
    proof {
        assert(bs@.skip(0) =~= bs@);
    }
    while bs.len() - pos >= 8
        invariant
            pos <= bs.len(),
            words_of_be_bytes(bs@) == out@ + words_of_be_bytes(bs@.skip(pos as int)),
        decreases bs.len() - pos,
    {
        let w = be_u64_at(bs, pos);
        proof {
            assert(bs@.skip(pos as int).take(8) =~= bs@.subrange(pos as int, pos as int + 8));
            assert(bs@.skip(pos as int).skip(8) =~= bs@.skip(pos as int + 8));
        }
        out.push(w);
        pos = pos + 8;
    }
    proof {
        assert(words_of_be_bytes(bs@.skip(pos as int)) =~= Seq::<u64>::empty());
        assert(out@ + words_of_be_bytes(bs@.skip(pos as int)) =~= out@);
    }
    out
}

} // verus!
