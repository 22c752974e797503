//! What the peer of an upload says: its headers, picked out of the bytes that
//! the protocol takes, so that a skipped file can be told from a received one
//! and what the peer confirms counts.

use vstd::prelude::*;

use crate::wire::{
    decoded_header, hex_header, hex_value, le_number, lemma_hex_header_bytes,
    lemma_hex_header_decodes, read_body, Frame, HeaderView, ZACK, ZDLE, ZRPOS, ZSKIP,
};
use crate::zmodem::{held_after, scan_from, spot, DetectorOutcome, Scan, ZmodemDetector};

verus! {

/// The headers heard so far.
pub struct PeerHeaders {
    detector: ZmodemDetector,
    skipped: bool,
    position: Option<u32>,
}

/// The headers heard so far, over plain values.
pub ghost struct PeerHeadersView {
    /// Bytes that may be the front of a header.
    pub held: Seq<u8>,
    /// The last header declines a file.
    pub skipped: bool,
    /// The position in the file that the peer last confirmed or asked for.
    pub position: Option<u32>,
}

/// The position that a header confirms or asks for, if it does.
pub open spec fn header_position(header: HeaderView) -> Option<u32> {
    let byte = header.frame.spec_frame_byte();
    if byte == ZRPOS || byte == ZACK {
        Some(le_number(header.flags) as u32)
    } else {
        None
    }
}

impl View for PeerHeaders {
    type V = PeerHeadersView;

    closed spec fn view(&self) -> PeerHeadersView {
        PeerHeadersView {
            held: self.detector@,
            skipped: self.skipped,
            position: self.position,
        }
    }
}

impl PeerHeadersView {
    /// Nothing was heard.
    pub open spec fn nothing() -> PeerHeadersView {
        PeerHeadersView { held: Seq::empty(), skipped: false, position: None }
    }

    /// The headers after one more byte; a header ends with its last byte.
    pub open spec fn heard_byte(self, byte: u8) -> PeerHeadersView {
        let working = self.held.push(byte);
        PeerHeadersView {
            held: held_after(working),
            skipped: match scan_from(working, 0) {
                Scan::Started(_, header) => header.frame.spec_frame_byte() == ZSKIP,
                Scan::Render(_) => self.skipped,
            },
            position: match scan_from(working, 0) {
                Scan::Started(_, header) if header_position(header) is Some => header_position(
                    header,
                ),
                _ => self.position,
            },
        }
    }

    /// The headers after more bytes.
    pub open spec fn heard(self, bytes: Seq<u8>) -> PeerHeadersView
        decreases bytes.len(),
    {
        if bytes.len() == 0 {
            self
        } else {
            self.heard(bytes.drop_last()).heard_byte(bytes.last())
        }
    }
}

impl PeerHeaders {
    /// Nothing was heard.
    pub fn new() -> (r: Self)
        ensures
            r@ == PeerHeadersView::nothing(),
    {
        PeerHeaders { detector: ZmodemDetector::new(), skipped: false, position: None }
    }

    /// Listens to bytes of the peer.
    pub fn hear(&mut self, bytes: &[u8])
        ensures
            final(self)@ == old(self)@.heard(bytes@),
    {
        let mut index: usize = 0;
        while index < bytes.len()
            invariant
                index <= bytes.len(),
                self@ == old(self)@.heard(bytes@.take(index as int)),
            decreases bytes.len() - index,
        {
            let ghost before = self@;
            let one: [u8; 1] = [bytes[index]];
            let outcome = self.detector.push(one.as_slice());
            assert(before.held + one@ =~= before.held.push(bytes@[index as int]));
            if let DetectorOutcome::Started { header, .. } = outcome {
                let byte: u8 = header.frame.frame_byte();
                self.skipped = byte == ZSKIP;
                if byte == ZRPOS || byte == ZACK {
                    self.position = Some(header.count());
                }
            }
            assert(bytes@.take(index + 1).drop_last() =~= bytes@.take(index as int));
            index = index + 1;
        }
        assert(bytes@.take(bytes@.len() as int) =~= bytes@);
    }

    /// Whether the last header declines a file.
    pub fn skipped(&self) -> (r: bool)
        ensures
            r == self@.skipped,
    {
        self.skipped
    }

    /// The position in the file that the peer last confirmed or asked for.
    pub fn position(&self) -> (r: Option<u32>)
        ensures
            r == self@.position,
    {
        self.position
    }

    /// Another file is offered: nothing of it is confirmed.
    pub fn forget_position(&mut self)
        ensures
            final(self)@ == (PeerHeadersView { position: None, ..old(self)@ }),
    {
        self.position = None;
    }
}

/// However the bytes of the peer are split, the same is heard.
pub proof fn law_split_bytes_are_heard_alike(
    headers: PeerHeadersView,
    first: Seq<u8>,
    second: Seq<u8>,
)
    ensures
        headers.heard(first + second) == headers.heard(first).heard(second),
    decreases second.len(),
{
    if second.len() == 0 {
        assert(first + second =~= first);
    } else {
        law_split_bytes_are_heard_alike(headers, first, second.drop_last());
        assert((first + second).drop_last() =~= first + second.drop_last());
    }
}

proof fn lemma_short_hex_body(bytes: Seq<u8>, at: int, values: Seq<u8>, count: nat)
    requires
        0 <= at <= bytes.len(),
        bytes.len() < at + count,
        forall|i: int| at <= i < bytes.len() ==> hex_value(#[trigger] bytes[i]) is Some,
    ensures
        read_body(bytes, at, true, values, count) is NeedMore,
    decreases count,
{
    if at < bytes.len() {
        assert(bytes[at] != ZDLE);
        lemma_short_hex_body(bytes, at + 1, values.push(bytes[at]), (count - 1) as nat);
    }
}

proof fn lemma_front_is_held(frame: Frame, flags: Seq<u8>, len: int)
    requires
        flags.len() == 4,
        1 <= len < 18,
    ensures
        scan_from(hex_header(frame, flags).take(len), 0) == Scan::Render(0),
        held_after(hex_header(frame, flags).take(len)) == hex_header(frame, flags).take(len),
{
    let front = hex_header(frame, flags).take(len);
    lemma_hex_header_bytes(frame, flags);
    assert(front.skip(0) =~= front);
    if len >= 4 {
        lemma_short_hex_body(front, 4, Seq::empty(), 14);
        assert(decoded_header(front, 3) is NeedMore);
    }
    assert(spot(front, 0) is Hold);
}

proof fn lemma_front_is_heard(
    headers: PeerHeadersView,
    frame: Frame,
    flags: Seq<u8>,
    len: int,
)
    requires
        headers.held.len() == 0,
        flags.len() == 4,
        0 <= len < 18,
    ensures
        headers.heard(hex_header(frame, flags).take(len)) == (PeerHeadersView {
            held: hex_header(frame, flags).take(len),
            ..headers
        }),
    decreases len,
{
    let front = hex_header(frame, flags).take(len);
    if len == 0 {
        assert(front =~= headers.held);
    } else {
        lemma_hex_header_bytes(frame, flags);
        lemma_front_is_heard(headers, frame, flags, len - 1);
        assert(front.drop_last() =~= hex_header(frame, flags).take(len - 1));
        assert(front.drop_last().push(front.last()) =~= front);
        lemma_front_is_held(frame, flags, len);
    }
}

/// Where nothing is held, a hex header of the peer is heard with its last hex
/// digit, whatever was heard before: it declines a file if and only if it is a
/// `ZSKIP`, and a `ZRPOS` or a `ZACK` tells a position, which is kept until the
/// next of them.
pub proof fn law_headers_are_heard(headers: PeerHeadersView, frame: Frame, flags: Seq<u8>)
    requires
        headers.held.len() == 0,
        flags.len() == 4,
    ensures
        headers.heard(hex_header(frame, flags).take(18)) == (PeerHeadersView {
            held: Seq::empty(),
            skipped: frame.spec_frame_byte() == ZSKIP,
            position: if frame.spec_frame_byte() == ZRPOS || frame.spec_frame_byte() == ZACK {
                Some(le_number(flags) as u32)
            } else {
                headers.position
            },
        }),
{
    let whole = hex_header(frame, flags).take(18);
    lemma_hex_header_bytes(frame, flags);
    lemma_front_is_heard(headers, frame, flags, 17);
    assert(whole.drop_last() =~= hex_header(frame, flags).take(17));
    assert(whole.drop_last().push(whole.last()) =~= whole);
    lemma_hex_header_decodes(frame, flags);
    assert(whole.skip(0) =~= whole);
    assert(spot(whole, 0) is Start);
}

} // verus!
