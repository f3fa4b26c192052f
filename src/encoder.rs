//! The wire format: a stream of packets, each introduced by a type byte.
//!
//! | type | packet       | body                                             |
//! |------|--------------|--------------------------------------------------|
//! | 0x00 | encoder info | `u64` length + serialized info                   |
//! | 0x01 | data         | `u64` total length + framed store entries        |
//! | 0x02 | missed page  | `u64` length + one serialized header             |
//! | 0x03 | frequency    | `u64` ticks per second                           |
//! | 0xff | goodbye      | nothing                                          |
use vstd::prelude::*;
use crate::bytes::{u64_le, u64_to_le};

verus! {

pub const PACKET_ENCODER_INFO: u8 = 0x00;
pub const PACKET_DATA: u8 = 0x01;
pub const PACKET_MISSED_PAGE: u8 = 0x02;
pub const PACKET_FREQUENCY: u8 = 0x03;
pub const PACKET_GOODBYE: u8 = 0xff;

/// A packet of type `ty` whose body is a `u64` length followed by `body`.
pub open spec fn length_prefixed(ty: u8, body: Seq<u8>) -> Seq<u8> {
    seq![ty].add(u64_le(body.len() as u64)).add(body)
}

/// Destination of the encoded stream (a file, a socket, ...).
pub trait Sender {
    fn send(&mut self, data: &[u8]);
}

fn push_all(out: &mut Vec<u8>, data: &[u8])
    ensures
        final(out)@ == old(out)@.add(data@),
{
    let mut i: usize = 0;
    while i < data.len()
        invariant
            i <= data@.len(),
            out@ == old(out)@.add(data@.take(i as int)),
        decreases data@.len() - i,
    {
        assert(data@.take(i + 1) =~= data@.take(i as int).push(data@[i as int]));
        out.push(data[i]);
        i = i + 1;
    }
    assert(data@.take(data@.len() as int) =~= data@);
}

/// A sender built from its own configuration; `None` when it cannot be set up.
pub trait ConfiguredSender: Sender + Sized {
    type Config;

    fn new(cfg: &Self::Config) -> Option<Self>;
}

/// `[ty][len: u64 LE][body]`.
fn length_prefixed_packet(ty: u8, body: &[u8]) -> (r: Vec<u8>)
    ensures
        r@ == length_prefixed(ty, body@),
{
    let mut out: Vec<u8> = Vec::new();
    out.push(ty);
    let len = u64_to_le(body.len() as u64);
    push_all(&mut out, len.as_slice());
    push_all(&mut out, body);
    assert(out@ =~= length_prefixed(ty, body@));
    out
}

/// The encoder-info packet around the serialized info.
pub fn encoder_info_packet(info: &[u8]) -> (r: Vec<u8>)
    ensures
        r@ == length_prefixed(PACKET_ENCODER_INFO, info@),
{
    length_prefixed_packet(PACKET_ENCODER_INFO, info)
}

/// The data packet carrying the store's contents, given as its two parts.
pub fn data_packet(slice1: &[u8], slice2: &[u8]) -> (r: Vec<u8>)
    requires
        slice1@.len() + slice2@.len() <= u64::MAX,
    ensures
        r@ == length_prefixed(PACKET_DATA, slice1@.add(slice2@)),
{
    let mut out: Vec<u8> = Vec::new();
    out.push(PACKET_DATA);
    let total_len = slice1.len() as u64 + slice2.len() as u64;
    let len = u64_to_le(total_len);
    push_all(&mut out, len.as_slice());
    push_all(&mut out, slice1);
    push_all(&mut out, slice2);
    assert(out@ =~= length_prefixed(PACKET_DATA, slice1@.add(slice2@)));
    out
}

/// The missed-page packet for one serialized header.
pub fn missed_page_packet(header: &[u8]) -> (r: Vec<u8>)
    ensures
        r@ == length_prefixed(PACKET_MISSED_PAGE, header@),
{
    length_prefixed_packet(PACKET_MISSED_PAGE, header)
}

/// The frequency packet: type byte and eight bytes of ticks per second.
pub fn frequency_packet(ticks_per_sec: u64) -> (r: Vec<u8>)
    ensures
        r@ == seq![PACKET_FREQUENCY].add(u64_le(ticks_per_sec)),
{
    let mut out: Vec<u8> = Vec::new();
    out.push(PACKET_FREQUENCY);
    let b = u64_to_le(ticks_per_sec);
    push_all(&mut out, b.as_slice());
    assert(out@ =~= seq![PACKET_FREQUENCY].add(u64_le(ticks_per_sec)));
    out
}

/// The goodbye marker.
pub fn goodbye_packet() -> (r: Vec<u8>)
    ensures
        r@ == seq![PACKET_GOODBYE],
{
    let mut out: Vec<u8> = Vec::new();
    out.push(PACKET_GOODBYE);
    assert(out@ =~= seq![PACKET_GOODBYE]);
    out
}

/// Sends the data packet for the store's contents `slice1 ++ slice2`.
pub fn send_data_bytes<S: Sender>(sender: &mut S, slice1: &[u8], slice2: &[u8])
    requires
        slice1@.len() + slice2@.len() <= u64::MAX,
{
    let p = data_packet(slice1, slice2);
    sender.send(p.as_slice());
}

/// Sends the frequency packet.
pub fn send_timestamp_freq<S: Sender>(sender: &mut S, ticks_per_sec: u64) {
    let p = frequency_packet(ticks_per_sec);
    sender.send(p.as_slice());
}

/// Sends the encoder-info packet for the serialized info.
pub fn send_encoder_info_packet<S: Sender>(sender: &mut S, info: &[u8]) {
    let p = encoder_info_packet(info);
    sender.send(p.as_slice());
}

/// Sends one missed-page packet per serialized header, in order.
pub fn send_failed_page_headers<S: Sender>(sender: &mut S, failed_pages: &Vec<Vec<u8>>) {
    let mut i: usize = 0;
    while i < failed_pages.len()
        decreases failed_pages@.len() - i,
    {
        let p = missed_page_packet(failed_pages[i].as_slice());
        sender.send(p.as_slice());
        i = i + 1;
    }
}

/// Several senders behind one: each packet goes to all of them, in order.
pub struct SenderChain<S: Sender> {
    senders: Vec<S>,
}

impl<S: Sender> SenderChain<S> {
    pub fn new() -> (r: Self)
        ensures
            r.senders() == Seq::<S>::empty(),
    {
        SenderChain { senders: Vec::new() }
    }

    /// The senders, in the order packets reach them.
    pub closed spec fn senders(&self) -> Seq<S> {
        self.senders@
    }

    /// Adds a sender at the end of the chain.
    pub fn with_sender(&mut self, sender: S)
        ensures
            final(self).senders() == old(self).senders().push(sender),
    {
        self.senders.push(sender);
    }
}

impl<S: Sender> Sender for SenderChain<S> {
    fn send(&mut self, data: &[u8]) {
        let mut i: usize = 0;
        let n = self.senders.len();
        while i < n
            invariant
                n == self.senders@.len(),
            decreases n - i,
        {
            let mut s = self.senders.remove(i);
            s.send(data);
            self.senders.insert(i, s);
            i = i + 1;
        }
    }
}

} // verus!
