//! Bounded, lossless detection of ZMODEM transfer starts in an otherwise ordinary PTY stream.

use vstd::prelude::*;

use crate::bytes::{append, copy_range};
use crate::clock::{Duration, Instant};
use crate::wire::{
    crc16, crc16_bytes, crc16_xmodem, crc32, crc32_bytes, escaped, hex_digits, hex_header,
    hex_nibble, hex_value, header_payload, start_role, BodyView, Encoding, Frame, Header, HeaderView,
    ZmodemRole, ZDLE, ZPAD,
};

verus! {

/// Maximum time ordinary output may be retained as a possible header.
pub const PENDING_TIMEOUT: Duration = 100_000_000;

/// Longest run of pads in front of a header.
pub const MAX_PADS: usize = 32;

/// Frame type and four flag bytes.
pub const PAYLOAD_LEN: usize = 5;

/// Payload and the longest checksum.
pub const MAX_BODY_LEN: usize = 9;

/// Longest candidate that is retained.
pub const MAX_PENDING: usize = 52;

/// Byte ownership after a detector read.
#[derive(Debug, PartialEq, Eq)]
pub enum DetectorOutcome {
    /// Ordinary output, to be shown.
    Render(Vec<u8>),
    /// A transfer starts.
    Started {
        header: Header,
        role: ZmodemRole,
        render_before: Vec<u8>,
        /// The original header and every remaining byte from this read, without re-encoding.
        protocol: Vec<u8>,
    },
}

/// What retained bytes may still become.
pub enum Candidate {
    Incomplete,
    Invalid,
    Header(Header),
}

/// What retained bytes may still become.
pub ghost enum CandidateView {
    Incomplete,
    Invalid,
    Header(HeaderView),
}

impl View for Candidate {
    type V = CandidateView;

    open spec fn view(&self) -> CandidateView {
        match *self {
            Candidate::Incomplete => CandidateView::Incomplete,
            Candidate::Invalid => CandidateView::Invalid,
            Candidate::Header(header) => CandidateView::Header(header@),
        }
    }
}

/// Number of consecutive pads in `bytes` from index `from` on.
pub open spec fn pads_from(bytes: Seq<u8>, from: int) -> nat
    decreases bytes.len() - from,
{
    if 0 <= from < bytes.len() && bytes[from] == ZPAD {
        1 + pads_from(bytes, from + 1)
    } else {
        0
    }
}

/// The encoding that `byte` announces behind `pads` pads; hex headers take two.
pub open spec fn candidate_encoding(byte: u8, pads: nat) -> Option<Encoding> {
    if byte == 0x41 {
        Some(Encoding::Zbin)
    } else if byte == 0x42 && pads >= 2 {
        Some(Encoding::Zhex)
    } else if byte == 0x43 {
        Some(Encoding::Zbin32)
    } else {
        None
    }
}

/// Number of values in a body: payload and checksum.
pub open spec fn value_count(encoding: Encoding) -> nat {
    5 + encoding.spec_crc_len()
}

/// The value of the byte behind a `ZDLE`, where the escape is valid.
pub open spec fn escaped_value(byte: u8) -> Option<u8> {
    if byte == 0x6c {
        Some(0x7f)
    } else if byte == 0x6d {
        Some(0xff)
    } else if 0x40 <= byte <= 0x5f || 0xc0 <= byte <= 0xdf {
        Some((byte - 0x40) as u8)
    } else {
        None
    }
}

/// Bytes that flow control owns when they are sent bare.
pub open spec fn is_flow_control(byte: u8) -> bool {
    byte == 0x11 || byte == 0x13 || byte == 0x91 || byte == 0x93
}

/// Reads `count` more body values from `bytes` at `at`, behind the values
/// `values`: two hex digits each, or a byte with strict `ZDLE` escapes.
pub open spec fn candidate_body(
    bytes: Seq<u8>,
    at: int,
    encoding: Encoding,
    values: Seq<u8>,
    count: nat,
) -> BodyView
    decreases count,
{
    if count == 0 {
        BodyView::Body(values, at)
    } else if at >= bytes.len() {
        BodyView::NeedMore
    } else if encoding is Zhex {
        if hex_value(bytes[at]) is None {
            BodyView::Bad
        } else if at + 1 >= bytes.len() {
            BodyView::NeedMore
        } else if hex_value(bytes[at + 1]) is None {
            BodyView::Bad
        } else {
            let value = (hex_value(bytes[at])->0 * 16 + hex_value(bytes[at + 1])->0) as u8;
            candidate_body(bytes, at + 2, encoding, values.push(value), (count - 1) as nat)
        }
    } else if bytes[at] == ZDLE {
        if at + 1 >= bytes.len() {
            BodyView::NeedMore
        } else {
            match escaped_value(bytes[at + 1]) {
                Some(value) => candidate_body(
                    bytes,
                    at + 2,
                    encoding,
                    values.push(value),
                    (count - 1) as nat,
                ),
                None => BodyView::Bad,
            }
        }
    } else if is_flow_control(bytes[at]) {
        BodyView::Bad
    } else {
        candidate_body(bytes, at + 1, encoding, values.push(bytes[at]), (count - 1) as nat)
    }
}

/// Whether `values` is a payload followed by its checksum.
pub open spec fn candidate_checksum_holds(encoding: Encoding, values: Seq<u8>) -> bool {
    values.skip(5) == match encoding {
        Encoding::Zbin32 => crc32_bytes(crc32(values.take(5))),
        _ => crc16_bytes(crc16(values.take(5))),
    }
}

/// Whether `byte` is `expected` with or without its parity bit.
pub open spec fn is_with_parity(byte: u8, expected: u8) -> bool {
    byte == expected || byte == expected + 0x80
}

/// The candidate once its body has been read: the checksum has to hold, and a
/// hex header has to end in a carriage return and a line feed.
pub open spec fn candidate_after_body(
    bytes: Seq<u8>,
    encoding: Encoding,
    values: Seq<u8>,
    end: int,
) -> CandidateView {
    let header = HeaderView {
        encoding,
        frame: Frame::spec_from_byte(values[0]),
        flags: values.subrange(1, 5),
    };
    if !candidate_checksum_holds(encoding, values) {
        CandidateView::Invalid
    } else if !(encoding is Zhex) {
        CandidateView::Header(header)
    } else if end >= bytes.len() {
        CandidateView::Incomplete
    } else if !is_with_parity(bytes[end], 0x0d) {
        CandidateView::Invalid
    } else if end + 1 >= bytes.len() {
        CandidateView::Incomplete
    } else if !is_with_parity(bytes[end + 1], 0x0a) {
        CandidateView::Invalid
    } else {
        CandidateView::Header(header)
    }
}

/// What `bytes` may still become: a header starts with one to `MAX_PADS` pads,
/// `ZDLE` and an encoding byte, and fits into `MAX_PENDING` bytes.
pub open spec fn candidate(bytes: Seq<u8>) -> CandidateView {
    let pads = pads_from(bytes, 0);
    if pads == 0 || pads > MAX_PADS || bytes.len() > MAX_PENDING {
        CandidateView::Invalid
    } else if pads >= bytes.len() {
        CandidateView::Incomplete
    } else if bytes[pads as int] != ZDLE {
        CandidateView::Invalid
    } else if pads + 1 >= bytes.len() {
        CandidateView::Incomplete
    } else {
        match candidate_encoding(bytes[pads as int + 1], pads) {
            None => CandidateView::Invalid,
            Some(encoding) => match candidate_body(
                bytes,
                pads as int + 2,
                encoding,
                Seq::empty(),
                value_count(encoding),
            ) {
                BodyView::NeedMore => CandidateView::Incomplete,
                BodyView::Bad => CandidateView::Invalid,
                BodyView::Body(values, end) => candidate_after_body(bytes, encoding, values, end),
            },
        }
    }
}

/// `flate2::Crc` over one slice: `Crc::new`, one `update` and `sum` give the
/// CRC-32/ISO-HDLC checksum of the slice.
#[verifier::external_body]
fn crc32_sum(data: &[u8]) -> (r: u32)
    ensures
        r == crc32(data@),
{
    let mut crc = flate2::Crc::new();
    crc.update(data);
    crc.sum()
}

/// Undoes one strict `ZDLE` escape.
pub fn unescape(byte: u8) -> (r: Option<u8>)
    ensures
        r == escaped_value(byte),
{
    match byte {
        0x6c => Some(0x7f),
        0x6d => Some(0xff),
        0x40..=0x5f => Some(byte - 0x40),
        0xc0..=0xdf => Some(byte - 0x40),
        _ => None,
    }
}

/// Whether the checksum behind the payload in `values` holds.
fn checksum_valid(encoding: Encoding, values: &[u8]) -> (r: bool)
    requires
        values.len() == value_count(encoding),
    ensures
        r == candidate_checksum_holds(encoding, values@),
{
    let (payload, crc) = values.split_at(PAYLOAD_LEN);
    assert(payload@ =~= values@.take(5));
    assert(crc@ =~= values@.skip(5));
    let valid: bool = match encoding {
        Encoding::Zbin32 => {
            let expected: u32 = crc32_sum(payload);
            crc[0] == (expected % 0x100) as u8 && crc[1] == (expected / 0x100 % 0x100) as u8
                && crc[2] == (expected / 0x1_0000 % 0x100) as u8 && crc[3] == (expected
                / 0x100_0000) as u8
        },
        _ => {
            let expected: u16 = crc16_xmodem(payload);
            crc[0] == (expected / 0x100) as u8 && crc[1] == (expected % 0x100) as u8
        },
    };
    proof {
        if valid {
            assert(crc@ =~= match encoding {
                Encoding::Zbin32 => crc32_bytes(crc32(payload@)),
                _ => crc16_bytes(crc16(payload@)),
            });
        }
    }
    valid
}

/// Decides what `bytes` may still become.
pub fn decode_candidate(bytes: &[u8]) -> (r: Candidate)
    ensures
        r@ == candidate(bytes@),
{
    let mut pads: usize = 0;
    while pads < bytes.len() && bytes[pads] == ZPAD
        invariant
            pads <= bytes.len(),
            pads_from(bytes@, 0) == pads + pads_from(bytes@, pads as int),
        decreases bytes.len() - pads,
    {
        pads = pads + 1;
    }
    if pads == 0 || pads > MAX_PADS || bytes.len() > MAX_PENDING {
        return Candidate::Invalid;
    }
    if pads >= bytes.len() {
        return Candidate::Incomplete;
    }
    if bytes[pads] != ZDLE {
        return Candidate::Invalid;
    }
    if pads + 1 >= bytes.len() {
        return Candidate::Incomplete;
    }
    let encoding: Encoding = match bytes[pads + 1] {
        0x41 => Encoding::Zbin,
        0x42 => {
            if pads < 2 {
                return Candidate::Invalid;
            }
            Encoding::Zhex
        },
        0x43 => Encoding::Zbin32,
        _ => return Candidate::Invalid,
    };
    let body_len: usize = match encoding {
        Encoding::Zbin => PAYLOAD_LEN + 2,
        Encoding::Zhex => PAYLOAD_LEN + 2,
        Encoding::Zbin32 => MAX_BODY_LEN,
    };
    let mut body: Vec<u8> = Vec::with_capacity(MAX_BODY_LEN);
    let mut offset: usize = pads + 2;
    while body.len() < body_len
        invariant
            0 < pads,
            pads == pads_from(bytes@, 0),
            pads <= MAX_PADS,
            bytes.len() <= MAX_PENDING,
            pads + 1 < bytes.len(),
            bytes@[pads as int] == ZDLE,
            candidate_encoding(bytes@[pads + 1], pads as nat) == Some(encoding),
            body_len == value_count(encoding),
            body.len() <= body_len,
            offset <= bytes.len(),
            candidate_body(
                bytes@,
                offset as int,
                encoding,
                body@,
                (body_len - body.len()) as nat,
            ) == candidate_body(
                bytes@,
                pads + 2,
                encoding,
                Seq::empty(),
                value_count(encoding),
            ),
        decreases body_len - body.len(),
    {
        if offset >= bytes.len() {
            return Candidate::Incomplete;
        }
        let byte: u8 = bytes[offset];
        offset = offset + 1;
        let value: u8 = match encoding {
            Encoding::Zhex => {
                let high: u8 = match hex_nibble(byte) {
                    Some(high) => high,
                    None => return Candidate::Invalid,
                };
                if offset >= bytes.len() {
                    return Candidate::Incomplete;
                }
                let low: u8 = match hex_nibble(bytes[offset]) {
                    Some(low) => low,
                    None => return Candidate::Invalid,
                };
                offset = offset + 1;
                high * 16 + low
            },
            _ => {
                if byte == ZDLE {
                    if offset >= bytes.len() {
                        return Candidate::Incomplete;
                    }
                    let escaped: u8 = bytes[offset];
                    offset = offset + 1;
                    match unescape(escaped) {
                        Some(value) => value,
                        None => return Candidate::Invalid,
                    }
                } else {
                    // Flow-control bytes are not payload when sent bare; accepting them here
                    // could claim a header that the transport/protocol interprets differently.
                    if byte == 0x11 || byte == 0x13 || byte == 0x91 || byte == 0x93 {
                        return Candidate::Invalid;
                    }
                    byte
                }
            },
        };
        body.push(value);
    }
    if !checksum_valid(encoding, body.as_slice()) {
        return Candidate::Invalid;
    }
    if matches!(encoding, Encoding::Zhex) {
        if offset >= bytes.len() {
            return Candidate::Incomplete;
        }
        if bytes[offset] != 0x0d && bytes[offset] != 0x8d {
            return Candidate::Invalid;
        }
        if offset + 1 >= bytes.len() {
            return Candidate::Incomplete;
        }
        if bytes[offset + 1] != 0x0a && bytes[offset + 1] != 0x8a {
            return Candidate::Invalid;
        }
    }
    let flags: [u8; 4] = [body[1], body[2], body[3], body[4]];
    assert(flags@ =~= body@.subrange(1, 5));
    Candidate::Header(Header { encoding, frame: Frame::from_byte(body[0]), flags })
}

/// What becomes of retained bytes once their front has been tried.
pub ghost enum Settled {
    /// This many bytes at the front are ordinary output; the rest stays.
    Keep(int),
    /// A start header follows this many bytes of ordinary output.
    Start(int, HeaderView, ZmodemRole),
}

/// Tries each index of `pending` from `rejected` on as the front of a header.
/// A valid header that starts nothing is ordinary output as a whole.
pub open spec fn settle(pending: Seq<u8>, rejected: int) -> Settled
    decreases pending.len() - rejected,
{
    if rejected < 0 || rejected >= pending.len() {
        Settled::Keep(rejected)
    } else {
        match candidate(pending.skip(rejected)) {
            CandidateView::Incomplete => Settled::Keep(rejected),
            CandidateView::Invalid => settle(pending, rejected + 1),
            CandidateView::Header(header) => match start_role(header.frame) {
                Some(role) => Settled::Start(rejected, header, role),
                None => Settled::Keep(pending.len() as int),
            },
        }
    }
}

/// The detector between two reads.
pub ghost struct DetectorView {
    pub pending: Seq<u8>,
    pub deadline: Option<Instant>,
}

impl DetectorView {
    /// Nothing is retained.
    pub open spec fn idle() -> DetectorView {
        DetectorView { pending: Seq::empty(), deadline: None }
    }

    /// Bytes are retained only as an incomplete header, and exactly then a
    /// deadline runs.
    pub open spec fn wf(self) -> bool {
        if self.pending.len() == 0 {
            self.deadline is None
        } else {
            self.deadline is Some && candidate(self.pending) is Incomplete
        }
    }

    /// The deadline has passed at `now`.
    pub open spec fn expired(self, now: Instant) -> bool {
        self.deadline matches Some(deadline) && now >= deadline
    }
}

/// A read in progress: what has been given out so far, what is retained, and
/// the start header with the bytes that belong to the worker.
pub ghost struct ScanView {
    pub rendered: Seq<u8>,
    pub state: DetectorView,
    pub started: Option<(HeaderView, ZmodemRole, Seq<u8>)>,
}

/// The read before its first byte: expired bytes are given out first.
pub open spec fn scan_start(state: DetectorView, now: Instant) -> ScanView {
    if state.expired(now) {
        ScanView { rendered: state.pending, state: DetectorView::idle(), started: None }
    } else {
        ScanView { rendered: Seq::empty(), state, started: None }
    }
}

/// The read after one more byte.
pub open spec fn scan_byte(scan: ScanView, byte: u8, now: Instant) -> ScanView {
    match scan.started {
        Some((header, role, protocol)) => ScanView {
            started: Some((header, role, protocol.push(byte))),
            ..scan
        },
        None => {
            if scan.state.pending.len() == 0 && byte != ZPAD {
                ScanView { rendered: scan.rendered.push(byte), ..scan }
            } else {
                let pending = scan.state.pending.push(byte);
                match settle(pending, 0) {
                    Settled::Start(rejected, header, role) => ScanView {
                        rendered: scan.rendered + pending.take(rejected),
                        state: DetectorView::idle(),
                        started: Some((header, role, pending.skip(rejected))),
                    },
                    Settled::Keep(rejected) => ScanView {
                        rendered: scan.rendered + pending.take(rejected),
                        state: DetectorView {
                            pending: pending.skip(rejected),
                            deadline: if pending.skip(rejected).len() == 0 {
                                None
                            } else if scan.state.pending.len() == 0 {
                                Some((now + PENDING_TIMEOUT) as u64)
                            } else {
                                scan.state.deadline
                            },
                        },
                        started: None,
                    },
                }
            }
        },
    }
}

/// The read after all of `bytes`.
pub open spec fn scan_bytes(scan: ScanView, bytes: Seq<u8>, now: Instant) -> ScanView
    decreases bytes.len(),
{
    if bytes.len() == 0 {
        scan
    } else {
        scan_byte(scan_bytes(scan, bytes.drop_last(), now), bytes.last(), now)
    }
}

/// What a read of `bytes` at `now` comes to.
pub open spec fn scanned(state: DetectorView, bytes: Seq<u8>, now: Instant) -> ScanView {
    scan_bytes(scan_start(state, now), bytes, now)
}

impl DetectorOutcome {
    /// The outcome reports the read `scan`.
    pub open spec fn reports(self, scan: ScanView) -> bool {
        match (self, scan.started) {
            (DetectorOutcome::Render(rendered), None) => rendered@ == scan.rendered,
            (
                DetectorOutcome::Started { header, role, render_before, protocol },
                Some((start, start_role, start_protocol)),
            ) => {
                &&& header@ == start
                &&& role == start_role
                &&& render_before@ == scan.rendered
                &&& protocol@ == start_protocol
            },
            _ => false,
        }
    }
}

/// Idle-stream detector. After `Started`, route subsequent reads directly to the transfer worker.
///
/// Schedule `expire` using `next_deadline`, even when the PTY is silent. Render the bytes from
/// `flush` before disabling detection or closing the stream. Neither operation discards bytes.
#[derive(Debug)]
pub struct ZmodemDetector {
    pending: Vec<u8>,
    deadline: Option<Instant>,
}

impl View for ZmodemDetector {
    type V = DetectorView;

    closed spec fn view(&self) -> DetectorView {
        DetectorView { pending: self.pending@, deadline: self.deadline }
    }
}

impl Default for ZmodemDetector {
    fn default() -> (r: Self)
        ensures
            r@ == DetectorView::idle(),
    {
        ZmodemDetector::new()
    }
}

impl ZmodemDetector {
    /// A detector that retains nothing.
    pub fn new() -> (r: Self)
        ensures
            r@ == DetectorView::idle(),
            r@.wf(),
    {
        let detector = ZmodemDetector { pending: Vec::new(), deadline: None };
        assert(detector@.pending =~= Seq::<u8>::empty());
        detector
    }

    /// When retained bytes expire.
    pub fn next_deadline(&self) -> (r: Option<Instant>)
        ensures
            r == self@.deadline,
    {
        self.deadline
    }

    /// How many bytes are retained.
    pub fn pending_len(&self) -> (r: usize)
        ensures
            r == self@.pending.len(),
    {
        self.pending.len()
    }

    /// Returns expired candidate bytes exactly once. New fragments do not extend the deadline.
    pub fn expire(&mut self, now: Instant) -> (r: Vec<u8>)
        ensures
            old(self)@.expired(now) ==> r@ == old(self)@.pending && final(self)@
                == DetectorView::idle(),
            !old(self)@.expired(now) ==> r@.len() == 0 && final(self)@ == old(self)@,
            old(self)@.wf() ==> final(self)@.wf(),
    {
        let due: bool = match self.deadline {
            Some(deadline) => now >= deadline,
            None => false,
        };
        if due {
            self.flush()
        } else {
            Vec::new()
        }
    }

    /// Returns all retained bytes and restores the idle state.
    pub fn flush(&mut self) -> (r: Vec<u8>)
        ensures
            r@ == old(self)@.pending,
            final(self)@ == DetectorView::idle(),
            final(self)@.wf(),
    {
        self.deadline = None;
        let mut pending: Vec<u8> = Vec::new();
        std::mem::swap(&mut pending, &mut self.pending);
        assert(self@.pending =~= Seq::<u8>::empty());
        pending
    }

    /// Detects the first complete CRC-valid ZRQINIT, ZRINIT or ZFILE header.
    ///
    /// Hex headers require at least two pads, fourteen hex digits and CR/LF (parity is allowed
    /// on the line ending). XON is optional and belongs to the worker once the header completes.
    /// Binary headers require at least one pad and valid ZDLE escapes. Excess preamble pads
    /// beyond the bounded candidate budget are returned as ordinary output.
    pub fn push(&mut self, bytes: &[u8], now: Instant) -> (r: DetectorOutcome)
        requires
            now <= u64::MAX - PENDING_TIMEOUT,
        ensures
            r.reports(scanned(old(self)@, bytes@, now)),
            final(self)@ == scanned(old(self)@, bytes@, now).state,
            old(self)@.wf() ==> final(self)@.wf(),
    {
        let ghost before = self@;
        let mut render_before: Vec<u8> = self.expire(now);
        let mut offset: usize = 0;
        proof {
            assert(render_before@ =~= scan_start(before, now).rendered);
            assert(bytes@.take(0) =~= Seq::<u8>::empty());
            lemma_scan_keeps_wf(scan_start(before, now), bytes@, now);
        }
        while offset < bytes.len()
            invariant
                now <= u64::MAX - PENDING_TIMEOUT,
                before == old(self)@,
                offset <= bytes.len(),
                scan_bytes(scan_start(before, now), bytes@.take(offset as int), now) == (ScanView {
                    rendered: render_before@,
                    state: self@,
                    started: None,
                }),
            decreases bytes.len() - offset,
        {
            let byte: u8 = bytes[offset];
            let ghost scan = ScanView {
                rendered: render_before@,
                state: self@,
                started: None,
            };
            offset = offset + 1;
            proof {
                assert(bytes@.take(offset as int).drop_last() =~= bytes@.take(offset - 1));
                assert(bytes@.take(offset as int).last() == byte);
            }
            if self.pending.len() == 0 {
                if byte != ZPAD {
                    render_before.push(byte);
                    continue;
                }
                self.deadline = Some(now + PENDING_TIMEOUT);
            }
            self.pending.push(byte);
            let ghost pending = self.pending@;

            // Only the fixed-size candidate is revisited, never the accumulated PTY read.
            let mut rejected: usize = 0;
            let mut settled: bool = false;
            while !settled && rejected < self.pending.len()
                invariant
                    now <= u64::MAX - PENDING_TIMEOUT,
                    before == old(self)@,
                    offset <= bytes.len(),
                    rejected <= self.pending.len(),
                    self.deadline == (if scan.state.pending.len() == 0 {
                        Some((now + PENDING_TIMEOUT) as u64)
                    } else {
                        scan.state.deadline
                    }),
                    self.pending@ == pending,
                    pending == scan.state.pending.push(byte),
                    scan.started is None,
                    scan.rendered == render_before@,
                    scan.state.pending.len() > 0 || byte == ZPAD,
                    scan_bytes(scan_start(before, now), bytes@.take(offset as int), now)
                        == scan_byte(scan, byte, now),
                    !settled ==> settle(pending, 0) == settle(pending, rejected as int),
                    settled ==> settle(pending, 0) == Settled::Keep(rejected as int),
                decreases self.pending.len() - rejected, if settled { 0int } else { 1 },
            {
                let len: usize = self.pending.len();
                let tail = vstd::slice::slice_subrange(self.pending.as_slice(), rejected, len);
                assert(tail@ =~= pending.skip(rejected as int));
                match decode_candidate(tail) {
                    Candidate::Incomplete => {
                        settled = true;
                    },
                    Candidate::Invalid => {
                        rejected = rejected + 1;
                    },
                    Candidate::Header(header) => {
                        let role: Option<ZmodemRole> = match header.frame {
                            Frame::Zrqinit => Some(ZmodemRole::Download),
                            Frame::Zfile => Some(ZmodemRole::Download),
                            Frame::Zrinit => Some(ZmodemRole::Upload),
                            _ => None,
                        };
                        if let Some(role) = role {
                            let ordinary: Vec<u8> = copy_range(
                                self.pending.as_slice(),
                                0,
                                rejected,
                            );
                            assert(ordinary@ =~= pending.take(rejected as int));
                            append(&mut render_before, ordinary.as_slice());
                            let mut protocol: Vec<u8> = copy_range(
                                self.pending.as_slice(),
                                rejected,
                                len,
                            );
                            assert(protocol@ =~= pending.skip(rejected as int));
                            self.pending.clear();
                            self.deadline = None;
                            assert(self@.pending =~= Seq::<u8>::empty());
                            let rest = vstd::slice::slice_subrange(bytes, offset, bytes.len());
                            proof {
                                let done = bytes@.take(offset as int);
                                lemma_scan_bytes_split(
                                    scan_start(before, now),
                                    done,
                                    rest@,
                                    now,
                                );
                                assert(done + rest@ =~= bytes@);
                                lemma_started_owns_rest(
                                    scan_byte(scan, byte, now),
                                    rest@,
                                    now,
                                );
                            }
                            append(&mut protocol, rest);
                            return DetectorOutcome::Started {
                                header,
                                role,
                                render_before,
                                protocol,
                            };
                        }
                        // A valid non-start header is ordinary output, including embedded pads.
                        rejected = len;
                        settled = true;
                    },
                }
            }
            let len: usize = self.pending.len();
            let ordinary: Vec<u8> = copy_range(self.pending.as_slice(), 0, rejected);
            let kept: Vec<u8> = copy_range(self.pending.as_slice(), rejected, len);
            proof {
                assert(ordinary@ =~= pending.take(rejected as int));
                assert(kept@ =~= pending.skip(rejected as int));
            }
            append(&mut render_before, ordinary.as_slice());
            self.pending = kept;
            if self.pending.len() == 0 {
                self.deadline = None;
            }
            assert(self@ == scan_byte(scan, byte, now).state);
        }
        assert(bytes@.take(offset as int) =~= bytes@);
        DetectorOutcome::Render(render_before)
    }
}

proof fn lemma_scan_bytes_split(scan: ScanView, first: Seq<u8>, second: Seq<u8>, now: Instant)
    ensures
        scan_bytes(scan, first + second, now) == scan_bytes(
            scan_bytes(scan, first, now),
            second,
            now,
        ),
    decreases second.len(),
{
    if second.len() == 0 {
        assert(first + second =~= first);
    } else {
        lemma_scan_bytes_split(scan, first, second.drop_last(), now);
        assert((first + second).drop_last() =~= first + second.drop_last());
        assert((first + second).last() == second.last());
    }
}

proof fn lemma_started_owns_rest(scan: ScanView, rest: Seq<u8>, now: Instant)
    requires
        scan.started is Some,
    ensures
        scan_bytes(scan, rest, now) == (ScanView {
            started: Some(((scan.started->0).0, (scan.started->0).1, (scan.started->0).2 + rest)),
            ..scan
        }),
    decreases rest.len(),
{
    let owned = (scan.started->0).2;
    if rest.len() == 0 {
        assert(owned + rest =~= owned);
    } else {
        lemma_started_owns_rest(scan, rest.drop_last(), now);
        assert((owned + rest.drop_last()).push(rest.last()) =~= owned + rest);
    }
}

proof fn lemma_settle(pending: Seq<u8>, from: int)
    requires
        0 <= from <= pending.len(),
    ensures
        match settle(pending, from) {
            Settled::Keep(rejected) => {
                &&& from <= rejected <= pending.len()
                &&& rejected < pending.len() ==> candidate(pending.skip(rejected)) is Incomplete
            },
            Settled::Start(rejected, header, role) => {
                &&& from <= rejected < pending.len()
                &&& candidate(pending.skip(rejected)) == CandidateView::Header(header)
                &&& start_role(header.frame) == Some(role)
            },
        },
    decreases pending.len() - from,
{
    if from < pending.len() {
        if candidate(pending.skip(from)) is Invalid {
            lemma_settle(pending, from + 1);
        }
    }
}

proof fn lemma_scan_keeps_wf(scan: ScanView, bytes: Seq<u8>, now: Instant)
    requires
        scan.started is Some ==> scan.state == DetectorView::idle(),
    ensures
        scan.state.wf() ==> scan_bytes(scan, bytes, now).state.wf(),
        scan_bytes(scan, bytes, now).started is Some ==> scan_bytes(scan, bytes, now).state
            == DetectorView::idle(),
    decreases bytes.len(),
{
    if bytes.len() != 0 {
        lemma_scan_keeps_wf(scan, bytes.drop_last(), now);
        let mid = scan_bytes(scan, bytes.drop_last(), now);
        let pending = mid.state.pending.push(bytes.last());
        lemma_settle(pending, 0);
    }
}

/// What the detector gives out, and what it retains or hands to the worker,
/// is the retained bytes and the read, each byte once and in order.
pub proof fn law_no_byte_is_lost(state: DetectorView, bytes: Seq<u8>, now: Instant)
    ensures
        ({
            let scan = scanned(state, bytes, now);
            match scan.started {
                None => scan.rendered + scan.state.pending == state.pending + bytes,
                Some((_, _, protocol)) => scan.rendered + protocol == state.pending + bytes
                    && scan.state.pending.len() == 0,
            }
        }),
    decreases bytes.len(),
{
    let scan = scanned(state, bytes, now);
    if bytes.len() == 0 {
        assert(scan.rendered + scan.state.pending =~= state.pending + bytes);
    } else {
        law_no_byte_is_lost(state, bytes.drop_last(), now);
        let mid = scanned(state, bytes.drop_last(), now);
        let all = state.pending + bytes;
        assert(all =~= (state.pending + bytes.drop_last()).push(bytes.last()));
        match mid.started {
            Some((_, _, protocol)) => {
                assert(scan.rendered + protocol.push(bytes.last()) =~= all);
            },
            None => {
                let pending = mid.state.pending.push(bytes.last());
                lemma_settle(pending, 0);
                assert(mid.rendered + pending =~= all);
                if mid.state.pending.len() == 0 && bytes.last() != ZPAD {
                    assert(scan.rendered + scan.state.pending =~= all);
                } else {
                    match settle(pending, 0) {
                        Settled::Start(rejected, _, _) => {
                            assert(mid.rendered + pending.take(rejected) + pending.skip(rejected)
                                =~= all);
                        },
                        Settled::Keep(rejected) => {
                            assert(mid.rendered + pending.take(rejected) + pending.skip(rejected)
                                =~= all);
                        },
                    }
                }
            },
        }
    }
}

/// However much is read, at most `MAX_PENDING` bytes stay behind, and they are
/// an incomplete header under a running deadline.
pub proof fn law_retention_is_bounded(state: DetectorView, bytes: Seq<u8>, now: Instant)
    requires
        state.wf(),
    ensures
        scanned(state, bytes, now).state.wf(),
        scanned(state, bytes, now).state.pending.len() <= MAX_PENDING,
{
    lemma_scan_keeps_wf(scan_start(state, now), bytes, now);
}

/// The bytes begin with the complete header `header`.
pub open spec fn begins_with_header(bytes: Seq<u8>, header: HeaderView) -> bool {
    exists|len: int|
        0 < len <= bytes.len() && #[trigger] candidate(bytes.take(len)) == CandidateView::Header(
            header,
        )
}

/// A transfer starts only with a header of a start frame, in that frame's
/// role, and the bytes handed to the worker begin with that header.
pub proof fn law_only_start_headers_start(state: DetectorView, bytes: Seq<u8>, now: Instant)
    ensures
        scanned(state, bytes, now).started matches Some((header, role, protocol)) ==> {
            &&& start_role(header.frame) == Some(role)
            &&& begins_with_header(protocol, header)
        },
    decreases bytes.len(),
{
    if bytes.len() != 0 {
        law_only_start_headers_start(state, bytes.drop_last(), now);
        let mid = scanned(state, bytes.drop_last(), now);
        match mid.started {
            Some((header, role, protocol)) => {
                let len = choose|len: int|
                    0 < len <= protocol.len() && #[trigger] candidate(protocol.take(len))
                        == CandidateView::Header(header);
                let more = protocol.push(bytes.last());
                assert(more.take(len) =~= protocol.take(len));
                assert(candidate(more.take(len)) == CandidateView::Header(header));
                assert(begins_with_header(more, header));
                assert(scanned(state, bytes, now).started == Some((header, role, more)));
            },
            None => {
                let pending = mid.state.pending.push(bytes.last());
                lemma_settle(pending, 0);
                match settle(pending, 0) {
                    Settled::Start(rejected, header, role) => {
                        let protocol = pending.skip(rejected);
                        assert(protocol.take(protocol.len() as int) =~= protocol);
                        assert(candidate(protocol.take(protocol.len() as int))
                            == CandidateView::Header(header));
                        assert(begins_with_header(protocol, header));
                        if mid.state.pending.len() != 0 || bytes.last() == ZPAD {
                            assert(scanned(state, bytes, now).started == Some(
                                (header, role, protocol),
                            ));
                        }
                    },
                    Settled::Keep(_) => {
                        assert(scanned(state, bytes, now).started is None);
                    },
                }
            },
        }
    }
}

proof fn lemma_deadline_stays_ahead(scan: ScanView, bytes: Seq<u8>, now: Instant)
    requires
        now <= u64::MAX - PENDING_TIMEOUT,
        !scan.state.expired(now),
    ensures
        !scan_bytes(scan, bytes, now).state.expired(now),
    decreases bytes.len(),
{
    if bytes.len() != 0 {
        lemma_deadline_stays_ahead(scan, bytes.drop_last(), now);
    }
}

/// A read may arrive in any two pieces: the same bytes are rendered, the same
/// header starts the transfer, and the same bytes are retained or handed on.
pub proof fn law_split_reads_agree(
    state: DetectorView,
    first: Seq<u8>,
    second: Seq<u8>,
    now: Instant,
)
    requires
        now <= u64::MAX - PENDING_TIMEOUT,
        scanned(state, first, now).started is None,
    ensures
        ({
            let whole = scanned(state, first + second, now);
            let head = scanned(state, first, now);
            let tail = scanned(head.state, second, now);
            &&& whole.rendered == head.rendered + tail.rendered
            &&& whole.state == tail.state
            &&& whole.started == tail.started
        }),
{
    let head = scanned(state, first, now);
    lemma_scan_bytes_split(scan_start(state, now), first, second, now);
    lemma_deadline_stays_ahead(scan_start(state, now), first, now);
    lemma_rendered_prefix(head, scan_start(head.state, now), head.rendered, second, now);
}

proof fn lemma_rendered_prefix(
    with: ScanView,
    without: ScanView,
    prefix: Seq<u8>,
    bytes: Seq<u8>,
    now: Instant,
)
    requires
        with.rendered == prefix + without.rendered || (without.rendered.len() == 0
            && with.rendered == prefix),
        with.state == without.state,
        with.started == without.started,
    ensures
        scan_bytes(with, bytes, now).rendered == prefix + scan_bytes(without, bytes, now).rendered,
        scan_bytes(with, bytes, now).state == scan_bytes(without, bytes, now).state,
        scan_bytes(with, bytes, now).started == scan_bytes(without, bytes, now).started,
    decreases bytes.len(),
{
    if bytes.len() == 0 {
        assert(with.rendered =~= prefix + without.rendered);
    } else {
        lemma_rendered_prefix(with, without, prefix, bytes.drop_last(), now);
        let mid = scan_bytes(without, bytes.drop_last(), now);
        let byte = bytes.last();
        assert((prefix + mid.rendered).push(byte) =~= prefix + mid.rendered.push(byte));
        let pending = mid.state.pending.push(byte);
        match settle(pending, 0) {
            Settled::Start(rejected, _, _) => {
                assert((prefix + mid.rendered) + pending.take(rejected) =~= prefix + (mid.rendered
                    + pending.take(rejected)));
            },
            Settled::Keep(rejected) => {
                assert((prefix + mid.rendered) + pending.take(rejected) =~= prefix + (mid.rendered
                    + pending.take(rejected)));
            },
        }
    }
}

/// Output without a pad byte passes an idle detector unchanged.
pub proof fn law_ordinary_output_passes(bytes: Seq<u8>, now: Instant)
    requires
        forall|i: int| 0 <= i < bytes.len() ==> bytes[i] != ZPAD,
    ensures
        scanned(DetectorView::idle(), bytes, now) == (ScanView {
            rendered: bytes,
            state: DetectorView::idle(),
            started: None,
        }),
    decreases bytes.len(),
{
    if bytes.len() == 0 {
        assert(bytes =~= Seq::<u8>::empty());
    } else {
        law_ordinary_output_passes(bytes.drop_last(), now);
        assert(bytes.drop_last().push(bytes.last()) =~= bytes);
    }
}

proof fn lemma_hex_body_needs_more(bytes: Seq<u8>, at: int, values: Seq<u8>, count: nat)
    requires
        0 <= at <= bytes.len() < at + 2 * count,
        forall|i: int| at <= i < bytes.len() ==> hex_value(#[trigger] bytes[i]) is Some,
    ensures
        candidate_body(bytes, at, Encoding::Zhex, values, count) is NeedMore,
    decreases count,
{
    if at + 1 < bytes.len() {
        let value = (hex_value(bytes[at])->0 * 16 + hex_value(bytes[at + 1])->0) as u8;
        lemma_hex_body_needs_more(bytes, at + 2, values.push(value), (count - 1) as nat);
    }
}

proof fn lemma_hex_body_complete(bytes: Seq<u8>, at: int, values: Seq<u8>, body: Seq<u8>)
    requires
        0 <= at,
        at + 2 * body.len() <= bytes.len(),
        bytes.subrange(at, at + 2 * body.len()) == hex_digits(body),
    ensures
        candidate_body(bytes, at, Encoding::Zhex, values, body.len()) == BodyView::Body(
            values + body,
            at + 2 * body.len(),
        ),
    decreases body.len(),
{
    if body.len() == 0 {
        assert(values + body =~= values);
    } else {
        let digits = hex_digits(body);
        assert(bytes[at] == digits[0]);
        assert(bytes[at + 1] == digits[1]);
        assert(hex_value(digits[0]) == Some((body[0] / 16) as u8));
        assert(hex_value(digits[1]) == Some((body[0] % 16) as u8));
        let tail = body.skip(1);
        assert(bytes.subrange(at + 2, at + 2 + 2 * tail.len()) =~= hex_digits(tail)) by {
            assert forall|i: int| 0 <= i < 2 * tail.len() implies bytes[at + 2 + i] == #[trigger] hex_digits(
                tail,
            )[i] by {
                assert(bytes.subrange(at, at + 2 * body.len())[i + 2] == digits[i + 2]);
            }
        }
        lemma_hex_body_complete(bytes, at + 2, values.push(body[0]), tail);
        assert(values.push(body[0]) + tail =~= values + body);
    }
}

proof fn lemma_hex_header_prefix(frame: Frame, flags: Seq<u8>, len: int)
    requires
        flags.len() == 4,
        1 <= len <= 20,
    ensures
        len < 20 ==> candidate(hex_header(frame, flags).take(len)) is Incomplete,
        len == 20 ==> candidate(hex_header(frame, flags).take(len)) == CandidateView::Header(
            HeaderView {
                encoding: Encoding::Zhex,
                frame: Frame::spec_from_byte(frame.spec_frame_byte()),
                flags,
            },
        ),
{
    let header = hex_header(frame, flags);
    let bytes = header.take(len);
    let payload = header_payload(frame, flags);
    let body = payload + crc16_bytes(crc16(payload));
    let digits = hex_digits(body);
    assert(header.subrange(4, 18) =~= digits);
    assert(pads_from(bytes, 0) == if len == 1 { 1nat } else { 2nat }) by {
        reveal_with_fuel(pads_from, 4);
    }
    if len >= 4 {
        assert(bytes[3] == 0x42);
        if len < 18 {
            assert forall|i: int| 4 <= i < len implies hex_value(#[trigger] bytes[i]) is Some by {
                assert(bytes[i] == digits[i - 4]);
            }
            lemma_hex_body_needs_more(bytes, 4, Seq::empty(), 7);
        } else {
            assert(bytes.subrange(4, 18) =~= digits);
            lemma_hex_body_complete(bytes, 4, Seq::empty(), body);
            assert(Seq::<u8>::empty() + body =~= body);
            assert(body.take(5) =~= payload);
            assert(body.skip(5) =~= crc16_bytes(crc16(payload)));
            assert(body.subrange(1, 5) =~= flags);
            if len > 18 {
                assert(bytes[18] == 0x0d);
            }
            if len > 19 {
                assert(bytes[19] == 0x8a);
            }
        }
    }
}

proof fn lemma_pads_of_prefix(bytes: Seq<u8>, len: int, from: int)
    requires
        0 <= from <= len <= bytes.len(),
    ensures
        pads_from(bytes.take(len), from) == if from + pads_from(bytes, from) <= len {
            pads_from(bytes, from) as int
        } else {
            len - from
        },
        from + pads_from(bytes, from) <= bytes.len(),
    decreases bytes.len() - from,
{
    if from < bytes.len() && bytes[from] == ZPAD {
        if from < len {
            lemma_pads_of_prefix(bytes, len, from + 1);
        } else {
            lemma_pads_bound(bytes, from);
        }
    }
}

proof fn lemma_pads_bound(bytes: Seq<u8>, from: int)
    requires
        0 <= from <= bytes.len(),
    ensures
        from + pads_from(bytes, from) <= bytes.len(),
    decreases bytes.len() - from,
{
    if from < bytes.len() && bytes[from] == ZPAD {
        lemma_pads_bound(bytes, from + 1);
    }
}

proof fn lemma_body_of_prefix(
    bytes: Seq<u8>,
    len: int,
    at: int,
    encoding: Encoding,
    values: Seq<u8>,
    count: nat,
)
    requires
        0 <= at <= len <= bytes.len(),
        candidate_body(bytes, at, encoding, values, count) is Body,
    ensures
        ({
            let whole = candidate_body(bytes, at, encoding, values, count);
            let part = candidate_body(bytes.take(len), at, encoding, values, count);
            &&& at <= whole->Body_1 <= bytes.len()
            &&& whole->Body_1 <= len ==> part == whole
            &&& whole->Body_1 > len ==> part is NeedMore
        }),
    decreases count,
{
    let prefix = bytes.take(len);
    if count > 0 && at < bytes.len() {
        if encoding is Zhex {
            let value = (hex_value(bytes[at])->0 * 16 + hex_value(bytes[at + 1])->0) as u8;
            if at + 2 <= len {
                lemma_body_of_prefix(
                    bytes,
                    len,
                    at + 2,
                    encoding,
                    values.push(value),
                    (count - 1) as nat,
                );
            } else {
                lemma_body_advances(
                    bytes,
                    at + 2,
                    encoding,
                    values.push(value),
                    (count - 1) as nat,
                );
            }
        } else if bytes[at] == ZDLE {
            let value = escaped_value(bytes[at + 1])->0;
            if at + 2 <= len {
                lemma_body_of_prefix(
                    bytes,
                    len,
                    at + 2,
                    encoding,
                    values.push(value),
                    (count - 1) as nat,
                );
            } else {
                lemma_body_advances(
                    bytes,
                    at + 2,
                    encoding,
                    values.push(value),
                    (count - 1) as nat,
                );
            }
        } else if at + 1 <= len {
            lemma_body_of_prefix(
                bytes,
                len,
                at + 1,
                encoding,
                values.push(bytes[at]),
                (count - 1) as nat,
            );
        } else {
            lemma_body_advances(
                bytes,
                at + 1,
                encoding,
                values.push(bytes[at]),
                (count - 1) as nat,
            );
        }
    }
}

proof fn lemma_body_advances(
    bytes: Seq<u8>,
    at: int,
    encoding: Encoding,
    values: Seq<u8>,
    count: nat,
)
    requires
        0 <= at <= bytes.len(),
        candidate_body(bytes, at, encoding, values, count) is Body,
    ensures
        at <= candidate_body(bytes, at, encoding, values, count)->Body_1 <= bytes.len(),
    decreases count,
{
    if count > 0 {
        let left = (count - 1) as nat;
        if encoding is Zhex {
            let value = (hex_value(bytes[at])->0 * 16 + hex_value(bytes[at + 1])->0) as u8;
            lemma_body_advances(bytes, at + 2, encoding, values.push(value), left);
        } else if bytes[at] == ZDLE {
            let value = escaped_value(bytes[at + 1])->0;
            lemma_body_advances(bytes, at + 2, encoding, values.push(value), left);
        } else {
            lemma_body_advances(bytes, at + 1, encoding, values.push(bytes[at]), left);
        }
    }
}

/// Every front of a complete header is an incomplete header or that header.
pub proof fn law_fronts_of_headers_are_candidates(bytes: Seq<u8>, len: int, header: HeaderView)
    requires
        candidate(bytes) == CandidateView::Header(header),
        0 < len <= bytes.len(),
    ensures
        candidate(bytes.take(len)) is Incomplete || candidate(bytes.take(len))
            == CandidateView::Header(header),
{
    let prefix = bytes.take(len);
    let pads = pads_from(bytes, 0);
    lemma_pads_of_prefix(bytes, len, 0);
    assert(bytes[0] == ZPAD);
    if pads + 2 <= len {
        let encoding = candidate_encoding(bytes[pads as int + 1], pads)->0;
        lemma_body_of_prefix(
            bytes,
            len,
            pads as int + 2,
            encoding,
            Seq::empty(),
            value_count(encoding),
        );
    }
}

proof fn lemma_front_is_retained(bytes: Seq<u8>, len: int, now: Instant)
    requires
        1 <= len <= bytes.len(),
        forall|k: int| 1 <= k <= len ==> candidate(#[trigger] bytes.take(k)) is Incomplete,
    ensures
        scanned(DetectorView::idle(), bytes.take(len), now) == (ScanView {
            rendered: Seq::empty(),
            state: DetectorView {
                pending: bytes.take(len),
                deadline: Some((now + PENDING_TIMEOUT) as u64),
            },
            started: None,
        }),
    decreases len,
{
    let front = bytes.take(len);
    assert(candidate(front) is Incomplete);
    assert(front.skip(0) =~= front);
    assert(front.take(0) =~= Seq::<u8>::empty());
    let mid = scanned(DetectorView::idle(), front.drop_last(), now);
    if len == 1 {
        assert(front.drop_last() =~= Seq::<u8>::empty());
        assert(pads_from(front, 0) > 0);
        assert(front[0] == ZPAD);
    } else {
        lemma_front_is_retained(bytes, len - 1, now);
        assert(front.drop_last() =~= bytes.take(len - 1));
    }
    assert(mid.state.pending.push(front.last()) =~= front);
    assert(settle(front, 0) == Settled::Keep(0));
    assert(mid.rendered + front.take(0) =~= Seq::<u8>::empty());
}

/// A start header of any encoding that reaches an idle detector starts its
/// transfer: nothing is rendered, and the header with everything behind it is
/// the worker's.
pub proof fn law_start_header_is_detected(
    wire: Seq<u8>,
    header: HeaderView,
    rest: Seq<u8>,
    now: Instant,
)
    requires
        candidate(wire) == CandidateView::Header(header),
        start_role(header.frame) is Some,
        forall|k: int|
            1 <= k < wire.len() ==> !(candidate(#[trigger] wire.take(k)) is Header),
    ensures
        scanned(DetectorView::idle(), wire + rest, now) == (ScanView {
            rendered: Seq::empty(),
            state: DetectorView::idle(),
            started: Some((header, start_role(header.frame)->0, wire + rest)),
        }),
{
    let len = wire.len() as int;
    lemma_pads_bound(wire, 0);
    assert(len > 1);
    assert forall|k: int| 1 <= k <= len - 1 implies candidate(
        #[trigger] wire.take(k),
    ) is Incomplete by {
        law_fronts_of_headers_are_candidates(wire, k, header);
    }
    lemma_front_is_retained(wire, len - 1, now);
    assert(wire.drop_last() =~= wire.take(len - 1));
    assert(wire.take(len - 1).push(wire.last()) =~= wire);
    assert(wire.skip(0) =~= wire);
    assert(wire.take(0) =~= Seq::<u8>::empty());
    let scan = scanned(DetectorView::idle(), wire, now);
    assert(settle(wire, 0) == Settled::Start(0, header, start_role(header.frame)->0));
    assert(scan.rendered =~= Seq::<u8>::empty());
    lemma_scan_bytes_split(scan_start(DetectorView::idle(), now), wire, rest, now);
    lemma_started_owns_rest(scan, rest, now);
}

/// A hex start header that reaches an idle detector starts its transfer, with
/// everything behind it.
pub proof fn law_hex_start_header_is_detected(
    frame: Frame,
    flags: Seq<u8>,
    rest: Seq<u8>,
    now: Instant,
)
    requires
        flags.len() == 4,
        start_role(frame) is Some,
    ensures
        scanned(DetectorView::idle(), hex_header(frame, flags) + rest, now) == (ScanView {
            rendered: Seq::empty(),
            state: DetectorView::idle(),
            started: Some(
                (
                    HeaderView { encoding: Encoding::Zhex, frame, flags },
                    start_role(frame)->0,
                    hex_header(frame, flags) + rest,
                ),
            ),
        }),
{
    let header = hex_header(frame, flags);
    let head = header.take(20);
    let tail = header.skip(20) + rest;
    lemma_hex_header_prefix(frame, flags, 20);
    assert forall|k: int| 1 <= k < head.len() implies !(candidate(#[trigger] head.take(k)) is Header) by {
        lemma_hex_header_prefix(frame, flags, k);
        assert(head.take(k) =~= header.take(k));
    }
    law_start_header_is_detected(
        head,
        HeaderView { encoding: Encoding::Zhex, frame, flags },
        tail,
        now,
    );
    assert(head + tail =~= header + rest);
}

/// A body of a binary header is read to its end.
proof fn lemma_candidate_escaped(
    bytes: Seq<u8>,
    at: int,
    encoding: Encoding,
    before: Seq<u8>,
    values: Seq<u8>,
    rest: Seq<u8>,
)
    requires
        0 <= at <= bytes.len(),
        !(encoding is Zhex),
        bytes.skip(at) == escaped(values) + rest,
    ensures
        candidate_body(bytes, at, encoding, before, values.len()) == BodyView::Body(
            before + values,
            at + escaped(values).len(),
        ),
    decreases values.len(),
{
    if values.len() == 0 {
        assert(before + values =~= before);
    } else {
        let first = values[0];
        let tail = values.skip(1);
        let width: int = if first < 0x20 || 0x80 <= first < 0xa0 {
            2
        } else {
            1
        };
        let all = escaped(values) + rest;
        assert(escaped(values).len() == width + escaped(tail).len());
        assert(bytes.skip(at).len() == all.len());
        assert(bytes.skip(at)[0] == bytes[at]);
        if width == 2 {
            assert(bytes.skip(at)[1] == bytes[at + 1]);
        }
        assert(bytes.skip(at + width) =~= escaped(tail) + rest) by {
            assert(bytes.skip(at + width) =~= bytes.skip(at).skip(width));
            assert(all.skip(width) =~= escaped(tail) + rest);
        }
        lemma_candidate_escaped(bytes, at + width, encoding, before.push(first), tail, rest);
        assert(before.push(first) + tail =~= before + values);
    }
}

proof fn lemma_pads_are_counted(pads: nat, rest: Seq<u8>, from: int)
    requires
        0 <= from <= pads,
        rest.len() > 0,
        rest[0] != ZPAD,
    ensures
        pads_from(Seq::new(pads, |i: int| ZPAD) + rest, from) == pads - from,
    decreases pads - from,
{
    let all = Seq::new(pads, |i: int| ZPAD) + rest;
    if from < pads {
        assert(all[from] == ZPAD);
        lemma_pads_are_counted(pads, rest, from + 1);
    } else {
        assert(all[from] == rest[0]);
    }
}

/// A binary header behind one to the most pads is recognised by its checksum:
/// with the right one it is that header, with any other it is none.
pub proof fn law_binary_headers_are_recognised(
    pads: nat,
    encoding: Encoding,
    payload: Seq<u8>,
    checksum: Seq<u8>,
)
    requires
        1 <= pads <= 32,
        !(encoding is Zhex),
        payload.len() == 5,
        checksum.len() == encoding.spec_crc_len(),
        pads + 2 + escaped(payload + checksum).len() <= 52,
    ensures
        ({
            let wire = Seq::new(pads, |i: int| ZPAD) + seq![
                ZDLE,
                encoding.spec_encoding_byte(),
            ] + escaped(payload + checksum);
            let right = match encoding {
                Encoding::Zbin32 => crc32_bytes(crc32(payload)),
                _ => crc16_bytes(crc16(payload)),
            };
            candidate(wire) == if checksum == right {
                CandidateView::Header(
                    HeaderView {
                        encoding,
                        frame: Frame::spec_from_byte(payload[0]),
                        flags: payload.skip(1),
                    },
                )
            } else {
                CandidateView::Invalid
            }
        }),
{
    let values = payload + checksum;
    let body = escaped(values);
    let head = Seq::new(pads, |i: int| ZPAD);
    let start = seq![ZDLE, encoding.spec_encoding_byte()];
    let wire = head + start + body;
    assert(wire =~= head + (start + body));
    lemma_pads_are_counted(pads, start + body, 0);
    let at = pads as int + 2;
    assert(wire[pads as int] == ZDLE);
    assert(wire[pads as int + 1] == encoding.spec_encoding_byte());
    assert(wire.skip(at) =~= body + Seq::<u8>::empty());
    lemma_candidate_escaped(wire, at, encoding, Seq::empty(), values, Seq::empty());
    assert(Seq::<u8>::empty() + values =~= values);
    assert(values.take(5) =~= payload);
    assert(values.skip(5) =~= checksum);
    assert(values.subrange(1, 5) =~= payload.skip(1));
}

/// Held bytes whose time is over are shown before anything that follows them,
/// and until then they wait for the rest of their header.
pub proof fn law_expired_bytes_come_first(
    state: DetectorView,
    bytes: Seq<u8>,
    now: Instant,
)
    requires
        state.deadline matches Some(deadline) && now >= deadline,
        forall|i: int| 0 <= i < bytes.len() ==> bytes[i] != ZPAD,
    ensures
        scanned(state, bytes, now) == (ScanView {
            rendered: state.pending + bytes,
            state: DetectorView::idle(),
            started: None,
        }),
    decreases bytes.len(),
{
    if bytes.len() == 0 {
        assert(state.pending + bytes =~= state.pending);
    } else {
        law_expired_bytes_come_first(state, bytes.drop_last(), now);
        assert((state.pending + bytes.drop_last()).push(bytes.last()) =~= state.pending + bytes);
    }
}

/// A pad is held for a tenth of a second from when it came.
pub proof fn law_held_bytes_have_a_deadline(now: Instant)
    requires
        now <= u64::MAX - PENDING_TIMEOUT,
    ensures
        ({
            let scan = scanned(DetectorView::idle(), seq![ZPAD], now);
            &&& scan.state.pending == seq![ZPAD]
            &&& scan.state.deadline == Some((now + 100 * crate::clock::MILLISECOND) as u64)
            &&& scan.rendered.len() == 0
            &&& scan.started is None
        }),
{
    let bytes = seq![ZPAD];
    assert(bytes.drop_last() =~= Seq::<u8>::empty());
    assert(Seq::<u8>::empty().push(ZPAD) =~= bytes);
    assert(bytes.skip(0) =~= bytes);
    assert(pads_from(bytes, 1) == 0);
    assert(pads_from(bytes, 0) == 1);
    assert(candidate(bytes) is Incomplete);
    assert(settle(bytes, 0) == Settled::Keep(0));
    assert(scan_bytes(scan_start(DetectorView::idle(), now), bytes.drop_last(), now) == scan_start(
        DetectorView::idle(),
        now,
    ));
}

proof fn lemma_candidate_spoiled(
    bytes: Seq<u8>,
    at: int,
    encoding: Encoding,
    before: Seq<u8>,
    values: Seq<u8>,
    rest: Seq<u8>,
    count: nat,
)
    requires
        0 <= at <= bytes.len(),
        !(encoding is Zhex),
        bytes.skip(at) == escaped(values) + rest,
        rest.len() > 0,
        count > values.len(),
        rest[0] == 0x11 || rest[0] == 0x13 || rest[0] == 0x91 || rest[0] == 0x93 || (rest[0]
            == ZDLE && rest.len() > 1 && rest[1] != 0x6c && rest[1] != 0x6d && !(0x40 <= rest[1]
            <= 0x5f) && !(0xc0 <= rest[1] <= 0xdf)),
    ensures
        candidate_body(bytes, at, encoding, before, count) is Bad,
    decreases values.len(),
{
    let all = escaped(values) + rest;
    assert(bytes.skip(at).len() == all.len());
    if values.len() == 0 {
        assert(all =~= rest);
        assert(bytes.skip(at)[0] == bytes[at]);
        if rest[0] == ZDLE {
            assert(bytes.skip(at)[1] == bytes[at + 1]);
        }
    } else {
        let first = values[0];
        let tail = values.skip(1);
        let width: int = if first < 0x20 || 0x80 <= first < 0xa0 {
            2
        } else {
            1
        };
        assert(escaped(values).len() == width + escaped(tail).len());
        assert(bytes.skip(at)[0] == bytes[at]);
        if width == 2 {
            assert(bytes.skip(at)[1] == bytes[at + 1]);
        }
        assert(bytes.skip(at + width) =~= escaped(tail) + rest) by {
            assert(bytes.skip(at + width) =~= bytes.skip(at).skip(width));
            assert(all.skip(width) =~= escaped(tail) + rest);
        }
        lemma_candidate_spoiled(
            bytes,
            at + width,
            encoding,
            before.push(first),
            tail,
            rest,
            (count - 1) as nat,
        );
    }
}

/// A bare flow control byte or an escape of nothing within a binary header
/// spoils it, wherever it stands.
pub proof fn law_spoiled_headers_are_refused(
    pads: nat,
    encoding: Encoding,
    values: Seq<u8>,
    rest: Seq<u8>,
)
    requires
        1 <= pads <= 32,
        !(encoding is Zhex),
        values.len() < 5 + encoding.spec_crc_len(),
        rest.len() > 0,
        rest[0] == 0x11 || rest[0] == 0x13 || rest[0] == 0x91 || rest[0] == 0x93 || (rest[0]
            == ZDLE && rest.len() > 1 && rest[1] != 0x6c && rest[1] != 0x6d && !(0x40 <= rest[1]
            <= 0x5f) && !(0xc0 <= rest[1] <= 0xdf)),
    ensures
        candidate(
            Seq::new(pads, |i: int| ZPAD) + seq![ZDLE, encoding.spec_encoding_byte()] + escaped(
                values,
            ) + rest,
        ) is Invalid,
{
    let body = escaped(values);
    let head = Seq::new(pads, |i: int| ZPAD);
    let start = seq![ZDLE, encoding.spec_encoding_byte()];
    let wire = head + start + body + rest;
    assert(wire =~= head + (start + body + rest));
    lemma_pads_are_counted(pads, start + body + rest, 0);
    let at = pads as int + 2;
    assert(wire[pads as int] == ZDLE);
    assert(wire[pads as int + 1] == encoding.spec_encoding_byte());
    assert(wire.skip(at) =~= body + rest);
    lemma_candidate_spoiled(wire, at, encoding, Seq::empty(), values, rest, value_count(encoding));
}

/// A hex header stands behind at least two pads and ends with a carriage return
/// and a line feed, each with or without its parity bit.
pub proof fn law_hex_headers_end_their_line(frame: Frame, flags: Seq<u8>, first: u8, second: u8)
    requires
        flags.len() == 4,
    ensures
        ({
            let head = hex_header(frame, flags).take(18);
            let wire = head.push(first).push(second);
            let ends = (first == 0x0d || first == 0x8d) && (second == 0x0a || second == 0x8a);
            &&& ends ==> candidate(wire) is Header
            &&& !ends ==> candidate(wire) is Invalid
            &&& candidate(wire.skip(1)) is Invalid
        }),
{
    let header = hex_header(frame, flags);
    let wire = header.take(18).push(first).push(second);
    let payload = header_payload(frame, flags);
    let body = payload + crc16_bytes(crc16(payload));
    assert(header.subrange(4, 18) =~= hex_digits(body));
    assert(wire.subrange(4, 18) =~= hex_digits(body));
    assert(pads_from(wire, 0) == 2) by {
        reveal_with_fuel(pads_from, 4);
    }
    assert(wire[2] == ZDLE);
    assert(wire[3] == 0x42);
    lemma_hex_body_complete(wire, 4, Seq::empty(), body);
    assert(Seq::<u8>::empty() + body =~= body);
    assert(body.take(5) =~= payload);
    assert(body.skip(5) =~= crc16_bytes(crc16(payload)));
    let short = wire.skip(1);
    assert(pads_from(short, 0) == 1) by {
        reveal_with_fuel(pads_from, 3);
    }
    assert(short[1] == ZDLE);
    assert(short[2] == 0x42);
}

} // verus!
