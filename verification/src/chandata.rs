//! ChannelData framing: a four-byte header with the channel number and the
//! payload length, then the payload.

use vstd::prelude::*;
use crate::wire::{
    copy_range, lemma_u16_at_bytes, lemma_u16_at_concat, padding, push_bytes, push_u16, push_zeros,
    read_u16, u16_at, u16_bytes, zeros,
};

verus! {

/// The lowest channel number.
pub const CHANNEL_MIN: u16 = 0x4000;

/// The highest channel number.
pub const CHANNEL_MAX: u16 = 0x7FFF;

/// Length of the header before the payload.
pub const CHANNEL_HEADER_LEN: usize = 4;

/// Whether `n` can number a channel.
pub open spec fn is_channel_number(n: u16) -> bool {
    CHANNEL_MIN <= n <= CHANNEL_MAX
}

/// Whether `n` can number a channel.
pub fn channel_number_valid(n: u16) -> (ok: bool)
    ensures
        ok == is_channel_number(n),
{
    CHANNEL_MIN <= n && n <= CHANNEL_MAX
}

/// A payload travelling on a channel.
#[derive(Clone, Debug, PartialEq, Eq)]
pub struct ChannelData {
    pub number: u16,
    pub data: Vec<u8>,
}

/// The mathematical value of a [`ChannelData`].
pub ghost struct ChannelDataSpec {
    pub number: u16,
    pub data: Seq<u8>,
}

impl View for ChannelData {
    type V = ChannelDataSpec;

    open spec fn view(&self) -> ChannelDataSpec {
        ChannelDataSpec { number: self.number, data: self.data@ }
    }
}

impl ChannelDataSpec {
    /// Whether the frame can be sent.
    pub open spec fn wf(self) -> bool {
        is_channel_number(self.number) && self.data.len() <= 0xFFFF
    }
}

/// The frame as a datagram, padded with zero bytes to a 32-bit boundary.
pub open spec fn encode_channel_data(c: ChannelDataSpec) -> Seq<u8> {
    u16_bytes(c.number) + u16_bytes(c.data.len() as u16) + c.data + zeros(
        padding(c.data.len() as int),
    )
}

/// The frame that datagram `b` holds, if it holds one. Bytes after the
/// payload are not looked at.
pub open spec fn parse_channel_data(b: Seq<u8>) -> Option<ChannelDataSpec> {
    if b.len() < CHANNEL_HEADER_LEN {
        None
    } else if !is_channel_number(u16_at(b, 0)) {
        None
    } else if CHANNEL_HEADER_LEN + u16_at(b, 2) > b.len() {
        None
    } else {
        Some(
            ChannelDataSpec {
                number: u16_at(b, 0),
                data: b.subrange(CHANNEL_HEADER_LEN as int, CHANNEL_HEADER_LEN + u16_at(b, 2)),
            },
        )
    }
}

/// The mathematical value of the outcome of decoding a frame.
pub open spec fn channel_data_view(r: Option<ChannelData>) -> Option<ChannelDataSpec> {
    match r {
        Some(c) => Some(c@),
        None => None,
    }
}

/// Decoding an encoded frame gives the frame back.
pub proof fn lemma_channel_data_roundtrip(c: ChannelDataSpec)
    requires
        c.wf(),
    ensures
        parse_channel_data(encode_channel_data(c)) == Some(c),
{
    let n = c.data.len() as u16;
    let b = encode_channel_data(c);
    let none = Seq::<u8>::empty();
    let tail = c.data + zeros(padding(c.data.len() as int));
    lemma_u16_at_bytes(c.number);
    lemma_u16_at_bytes(n);
    lemma_u16_at_concat(none, c.number, u16_bytes(n) + tail);
    lemma_u16_at_concat(none + u16_bytes(c.number), n, tail);
    assert(b =~= none + u16_bytes(c.number) + (u16_bytes(n) + tail));
    assert(b =~= none + u16_bytes(c.number) + u16_bytes(n) + tail);
    assert(b.subrange(4, 4 + c.data.len() as int) =~= c.data);
}

impl ChannelData {
    /// Decodes a datagram as a ChannelData frame.
    pub fn decode(b: &[u8]) -> (r: Option<ChannelData>)
        ensures
            channel_data_view(r) == parse_channel_data(b@),
    {
        if b.len() < CHANNEL_HEADER_LEN {
            return None;
        }
        let number: u16 = read_u16(b, 0);
        if !channel_number_valid(number) {
            return None;
        }
        let len: usize = read_u16(b, 2) as usize;
        if len > b.len() - CHANNEL_HEADER_LEN {
            return None;
        }
        Some(ChannelData { number, data: copy_range(b, CHANNEL_HEADER_LEN, CHANNEL_HEADER_LEN + len) })
    }

    /// Encodes the frame as a datagram, if it can be sent.
    pub fn encode(&self) -> (r: Option<Vec<u8>>)
        ensures
            match r {
                Some(b) => self@.wf() && b@ == encode_channel_data(self@),
                None => !self@.wf(),
            },
    {
        if !channel_number_valid(self.number) || self.data.len() > 0xFFFF {
            return None;
        }
        let len: usize = self.data.len();
        let mut out: Vec<u8> = Vec::new();
        push_u16(&mut out, self.number);
        push_u16(&mut out, len as u16);
        push_bytes(&mut out, self.data.as_slice());
        push_zeros(&mut out, (4 - len % 4) % 4);
        assert(out@ =~= encode_channel_data(self@));
        Some(out)
    }
}

} // verus!
