//! Wire protocol and codec.
//!
//! A packet is either a `Ping`, which registers the sender with the relay and
//! carries no payload, or `Audio`, which carries exactly one sample block.
//! The encoding is a one-byte tag (`Ping` = 0, `Audio` = 1) followed, for
//! `Audio`, by each sample word as four little-endian bytes. Decoding ignores
//! any bytes after a complete packet, so a receiver may hand over its whole
//! receive buffer; malformed or truncated input is reported as a
//! [`DecodeError`] and never panics.

use vstd::prelude::*;

use crate::block::SampleBlock;
use crate::{MAX_PACKET_SIZE, TX_BUFFER_SIZE};

verus! {

/// Tag byte of an encoded `Ping` packet.
pub const PING_TAG: u8 = 0;

/// Tag byte of an encoded `Audio` packet.
pub const AUDIO_TAG: u8 = 1;

/// The two message kinds of the wire protocol.
#[derive(Debug)]
pub enum Packet {
    Ping,
    Audio(SampleBlock),
}

/// The mathematical model of a packet: the `Audio` payload as the sequence
/// of its sample words.
pub enum PacketModel {
    Ping,
    Audio(Seq<u32>),
}

impl View for Packet {
    type V = PacketModel;

    open spec fn view(&self) -> PacketModel {
        match self {
            Packet::Ping => PacketModel::Ping,
            Packet::Audio(b) => PacketModel::Audio(b@),
        }
    }
}

impl Packet {
    /// Every `Audio` payload is exactly one block long.
    pub open spec fn wf(&self) -> bool {
        match self {
            Packet::Ping => true,
            Packet::Audio(b) => b.wf(),
        }
    }
}

/// Why a byte buffer failed to decode.
#[derive(Clone, Copy, Debug, PartialEq, Eq, Structural)]
pub enum DecodeError {
    /// The buffer ends before the packet its tag announces is complete
    /// (or is empty altogether).
    Truncated,
    /// The first byte is not a known packet tag.
    UnknownTag(u8),
}

/// The four little-endian bytes of one sample word.
pub open spec fn le4(w: u32) -> Seq<u8> {
    seq![
        (w & 0xff) as u8,
        ((w >> 8) & 0xff) as u8,
        ((w >> 16) & 0xff) as u8,
        ((w >> 24) & 0xff) as u8,
    ]
}

/// The sample word read back from four little-endian bytes.
pub open spec fn word_of(b0: u8, b1: u8, b2: u8, b3: u8) -> u32 {
    (b0 as u32) | ((b1 as u32) << 8) | ((b2 as u32) << 16) | ((b3 as u32) << 24)
}

/// A sequence of sample words laid out as little-endian bytes.
pub open spec fn words_to_bytes(ws: Seq<u32>) -> Seq<u8>
    decreases ws.len(),
{
    if ws.len() == 0 {
        Seq::empty()
    } else {
        le4(ws[0]) + words_to_bytes(ws.drop_first())
    }
}

/// The sample words read back from little-endian bytes, four at a time;
/// a trailing fragment of fewer than four bytes is dropped.
pub open spec fn bytes_to_words(bs: Seq<u8>) -> Seq<u32>
    decreases bs.len(),
{
    if bs.len() < 4 {
        Seq::empty()
    } else {
        seq![word_of(bs[0], bs[1], bs[2], bs[3])] + bytes_to_words(bs.skip(4))
    }
}

/// The encoded form of a packet.
pub open spec fn spec_encode(p: PacketModel) -> Seq<u8> {
    match p {
        PacketModel::Ping => seq![PING_TAG],
        PacketModel::Audio(ws) => seq![AUDIO_TAG] + words_to_bytes(ws),
    }
}

/// The packet a byte buffer decodes to, or the error it is rejected with.
pub open spec fn spec_decode(bs: Seq<u8>) -> Result<PacketModel, DecodeError> {
    if bs.len() == 0 {
        Err(DecodeError::Truncated)
    } else if bs[0] == PING_TAG {
        Ok(PacketModel::Ping)
    } else if bs[0] == AUDIO_TAG {
        if bs.len() >= 1 + 4 * TX_BUFFER_SIZE {
            Ok(PacketModel::Audio(bytes_to_words(bs.subrange(1, 1 + 4 * TX_BUFFER_SIZE as int))))
        } else {
            Err(DecodeError::Truncated)
        }
    } else {
        Err(DecodeError::UnknownTag(bs[0]))
    }
}

/// Reading the four little-endian bytes of a word back gives the word.
proof fn lemma_word_of_le4(w: u32)
    ensures
        word_of(
            (w & 0xff) as u8,
            ((w >> 8) & 0xff) as u8,
            ((w >> 16) & 0xff) as u8,
            ((w >> 24) & 0xff) as u8,
        ) == w,
{
    assert((((w & 0xff) as u8) as u32) | ((((w >> 8) & 0xff) as u8) as u32) << 8
        | ((((w >> 16) & 0xff) as u8) as u32) << 16 | ((((w >> 24) & 0xff) as u8) as u32) << 24
        == w) by (bit_vector);
}

/// The byte layout of `n` words takes `4 * n` bytes.
proof fn lemma_words_to_bytes_len(ws: Seq<u32>)
    ensures
        words_to_bytes(ws).len() == 4 * ws.len(),
    decreases ws.len(),
{
    if ws.len() > 0 {
        lemma_words_to_bytes_len(ws.drop_first());
    }
}

/// Appending one word appends its four bytes.
proof fn lemma_words_to_bytes_push(ws: Seq<u32>, w: u32)
    ensures
        words_to_bytes(ws.push(w)) == words_to_bytes(ws) + le4(w),
    decreases ws.len(),
{
    if ws.len() == 0 {
        assert(ws.push(w)[0] == w);
        assert(ws.push(w).drop_first() =~= Seq::<u32>::empty());
        assert(words_to_bytes(Seq::<u32>::empty()) == Seq::<u8>::empty());
        assert(words_to_bytes(ws.push(w)) == le4(w) + Seq::<u8>::empty());
        assert(words_to_bytes(ws.push(w)) =~= words_to_bytes(ws) + le4(w));
    } else {
        assert(ws.push(w).drop_first() =~= ws.drop_first().push(w));
        lemma_words_to_bytes_push(ws.drop_first(), w);
        assert(ws.push(w)[0] == ws[0]);
        assert(words_to_bytes(ws.push(w)) == le4(ws[0]) + words_to_bytes(ws.drop_first().push(w)));
        assert(words_to_bytes(ws.push(w)) =~= words_to_bytes(ws) + le4(w));
    }
}

/// Reading the byte layout of a word sequence back gives the sequence.
proof fn lemma_bytes_to_words_of_words(ws: Seq<u32>)
    ensures
        bytes_to_words(words_to_bytes(ws)) == ws,
    decreases ws.len(),
{
    if ws.len() == 0 {
        assert(bytes_to_words(words_to_bytes(ws)) =~= ws);
    } else {
        let bs = words_to_bytes(ws);
        lemma_words_to_bytes_len(ws.drop_first());
        assert(bs.skip(4) =~= words_to_bytes(ws.drop_first()));
        lemma_bytes_to_words_of_words(ws.drop_first());
        lemma_word_of_le4(ws[0]);
        assert(bytes_to_words(bs) =~= ws);
    }
}

impl Packet {
    /// Encodes the packet for transmission. A well-formed packet always fits
    /// in `MAX_PACKET_SIZE` bytes.
    pub fn encode(&self) -> (r: Vec<u8>)
        ensures
            r@ == spec_encode(self@),
            self.wf() ==> r@.len() <= MAX_PACKET_SIZE,
    {
        match self {
            Packet::Ping => {
                let mut v: Vec<u8> = Vec::with_capacity(1);
                v.push(PING_TAG);
                assert(v@ =~= spec_encode(self@));
                v
            },
            Packet::Audio(b) => {
                let words = b.as_words();
                let ghost ws = words@;
                let mut v: Vec<u8> = Vec::with_capacity(1 + 4 * TX_BUFFER_SIZE);
                v.push(AUDIO_TAG);
                assert(v@ =~= seq![AUDIO_TAG] + words_to_bytes(ws.take(0)));
                let mut i: usize = 0;
                while i < words.len()
                    invariant
                        i <= ws.len(),
                        words@ == ws,
                        v@ == seq![AUDIO_TAG] + words_to_bytes(ws.take(i as int)),
                    decreases ws.len() - i,
                {
                    let w = words[i];
                    v.push((w & 0xff) as u8);
                    v.push(((w >> 8) & 0xff) as u8);
                    v.push(((w >> 16) & 0xff) as u8);
                    v.push(((w >> 24) & 0xff) as u8);
                    proof {
                        lemma_words_to_bytes_push(ws.take(i as int), w);
                        assert(ws.take(i as int).push(w) =~= ws.take(i + 1));
                        assert(v@ =~= seq![AUDIO_TAG] + words_to_bytes(ws.take(i + 1)));
                    }
                    i = i + 1;
                }
                proof {
                    assert(ws.take(ws.len() as int) =~= ws);
                    lemma_words_to_bytes_len(ws);
                }
                v
            },
        }
    }

    /// Decodes one packet from the start of `bytes`, ignoring anything after
    /// it; reports how any malformed buffer is rejected, and never panics.
    pub fn decode(bytes: &[u8]) -> (r: Result<Packet, DecodeError>)
        ensures
            match r {
                Ok(p) => spec_decode(bytes@) == Ok::<PacketModel, DecodeError>(p@) && p.wf(),
                Err(e) => spec_decode(bytes@) == Err::<PacketModel, DecodeError>(e),
            },
    {
        if bytes.len() == 0 {
            return Err(DecodeError::Truncated);
        }
        let tag = bytes[0];
        if tag == PING_TAG {
            Ok(Packet::Ping)
        } else if tag == AUDIO_TAG {
            if bytes.len() < 1 + 4 * TX_BUFFER_SIZE {
                return Err(DecodeError::Truncated);
            }
            let ghost payload = bytes@.subrange(1, 1 + 4 * TX_BUFFER_SIZE as int);
            let mut words: Vec<u32> = Vec::with_capacity(TX_BUFFER_SIZE);
            let mut i: usize = 0;
            while i < TX_BUFFER_SIZE
                invariant
                    i <= TX_BUFFER_SIZE,
                    bytes@.len() >= 1 + 4 * TX_BUFFER_SIZE,
                    payload == bytes@.subrange(1, 1 + 4 * TX_BUFFER_SIZE as int),
                    words@ == bytes_to_words(payload.take(4 * i as int)),
                    words@.len() == i,
                decreases TX_BUFFER_SIZE - i,
            {
                let b0 = bytes[1 + 4 * i];
                let b1 = bytes[2 + 4 * i];
                let b2 = bytes[3 + 4 * i];
                let b3 = bytes[4 + 4 * i];
                let w = (b0 as u32) | ((b1 as u32) << 8) | ((b2 as u32) << 16)
                    | ((b3 as u32) << 24);
                words.push(w);
                proof {
                    lemma_bytes_to_words_snoc4(payload.take(4 * i as int), b0, b1, b2, b3);
                    assert(payload.take(4 * i as int) + seq![b0, b1, b2, b3] =~= payload.take(
                        4 * (i + 1),
                    ));
                }
                i = i + 1;
            }
            proof {
                assert(payload.take(4 * TX_BUFFER_SIZE as int) =~= payload);
            }
            Ok(Packet::Audio(SampleBlock::from_exact(words)))
        } else {
            Err(DecodeError::UnknownTag(tag))
        }
    }
}

/// Appending four bytes to a layout of whole words appends one read-back word.
proof fn lemma_bytes_to_words_snoc4(bs: Seq<u8>, b0: u8, b1: u8, b2: u8, b3: u8)
    requires
        bs.len() % 4 == 0,
    ensures
        bytes_to_words(bs + seq![b0, b1, b2, b3]) == bytes_to_words(bs).push(
            word_of(b0, b1, b2, b3),
        ),
    decreases bs.len(),
{
    let ext = bs + seq![b0, b1, b2, b3];
    if bs.len() == 0 {
        assert(ext.len() == 4);
        assert(ext[0] == b0 && ext[1] == b1 && ext[2] == b2 && ext[3] == b3);
        assert(ext.skip(4) =~= Seq::<u8>::empty());
        assert(bytes_to_words(Seq::<u8>::empty()) == Seq::<u32>::empty());
        assert(bytes_to_words(ext) == seq![word_of(b0, b1, b2, b3)] + Seq::<u32>::empty());
        assert(bytes_to_words(ext) =~= bytes_to_words(bs).push(word_of(b0, b1, b2, b3)));
    } else {
        assert(bs.len() >= 4);
        assert(ext.skip(4) =~= bs.skip(4) + seq![b0, b1, b2, b3]);
        assert(bs.skip(4).len() % 4 == 0);
        lemma_bytes_to_words_snoc4(bs.skip(4), b0, b1, b2, b3);
        assert(ext[0] == bs[0] && ext[1] == bs[1] && ext[2] == bs[2] && ext[3] == bs[3]);
        assert(bytes_to_words(ext) == seq![word_of(bs[0], bs[1], bs[2], bs[3])] + bytes_to_words(
            bs.skip(4) + seq![b0, b1, b2, b3],
        ));
        assert(bytes_to_words(ext) =~= bytes_to_words(bs).push(word_of(b0, b1, b2, b3)));
    }
}

/// Round trip: every well-formed packet decodes from its own encoding back
/// to itself.
pub proof fn lemma_round_trip(p: PacketModel)
    requires
        p matches PacketModel::Audio(ws) ==> ws.len() == TX_BUFFER_SIZE,
    ensures
        spec_decode(spec_encode(p)) == Ok::<PacketModel, DecodeError>(p),
{
    match p {
        PacketModel::Ping => {
            assert(spec_encode(p)[0] == PING_TAG);
        },
        PacketModel::Audio(ws) => {
            let bs = spec_encode(p);
            lemma_words_to_bytes_len(ws);
            assert(bs[0] == AUDIO_TAG);
            assert(bs.subrange(1, 1 + 4 * TX_BUFFER_SIZE as int) =~= words_to_bytes(ws));
            lemma_bytes_to_words_of_words(ws);
        },
    }
}

/// Encoding is lossless: two well-formed packets with the same encoding are
/// the same packet.
pub proof fn lemma_encode_lossless(p1: PacketModel, p2: PacketModel)
    requires
        p1 matches PacketModel::Audio(ws) ==> ws.len() == TX_BUFFER_SIZE,
        p2 matches PacketModel::Audio(ws) ==> ws.len() == TX_BUFFER_SIZE,
        spec_encode(p1) == spec_encode(p2),
    ensures
        p1 == p2,
{
    lemma_round_trip(p1);
    lemma_round_trip(p2);
}

/// Exactly which buffers decode: a buffer is accepted if and only if it opens
/// with a known tag and is long enough for that tag's payload; everything
/// shorter or unknown is rejected, never more than one way.
pub proof fn lemma_decode_ok_iff(bs: Seq<u8>)
    ensures
        spec_decode(bs) is Ok <==> (bs.len() >= 1 && (bs[0] == PING_TAG || (bs[0] == AUDIO_TAG
            && bs.len() >= 1 + 4 * TX_BUFFER_SIZE))),
{
}

} // verus!
