//! ZMODEM headers on the wire: the three encodings, their checksums, and the
//! fixed byte sequences a terminal sends by itself.

use vstd::prelude::*;

use crate::bytes::append;

verus! {

/// Pad byte that precedes every header.
pub const ZPAD: u8 = 0x2a;

/// Escape byte that ends the pads and that escapes payload bytes.
pub const ZDLE: u8 = 0x18;

/// Resume-transmission flow-control byte that ends a hex header line.
pub const XON: u8 = 0x11;

/// Cancel byte; it shares its value with `ZDLE`.
pub const CAN: u8 = 0x18;

/// Backspace, sent after cancel bytes to wipe their echo.
pub const BS: u8 = 0x08;

/// Frame type and four flag bytes.
pub const HEADER_PAYLOAD_SIZE: usize = 5;

/// Longest unescaped header body: fourteen hex digits.
pub const MAX_HEADER_BODY_LEN: usize = 14;

/// How a header's body is written on the wire.
#[derive(Clone, Copy, Debug, PartialEq, Eq, Structural)]
pub enum Encoding {
    /// Escaped binary with a 16-bit checksum.
    Zbin,
    /// Hex digits with a 16-bit checksum.
    Zhex,
    /// Escaped binary with a 32-bit checksum.
    Zbin32,
}

impl Encoding {
    /// The byte that announces the encoding after the pads and `ZDLE`.
    pub open spec fn spec_encoding_byte(self) -> u8 {
        match self {
            Encoding::Zbin => 0x41,
            Encoding::Zhex => 0x42,
            Encoding::Zbin32 => 0x43,
        }
    }

    /// Number of checksum bytes behind the payload.
    pub open spec fn spec_crc_len(self) -> nat {
        match self {
            Encoding::Zbin32 => 4,
            _ => 2,
        }
    }

    /// Number of unescaped body bytes, two per value in the hex encoding.
    pub open spec fn spec_body_len(self) -> nat {
        match self {
            Encoding::Zhex => 14,
            Encoding::Zbin => 7,
            Encoding::Zbin32 => 9,
        }
    }

    /// The byte that announces this encoding.
    pub fn encoding_byte(self) -> (r: u8)
        ensures
            r == self.spec_encoding_byte(),
    {
        match self {
            Encoding::Zbin => 0x41,
            Encoding::Zhex => 0x42,
            Encoding::Zbin32 => 0x43,
        }
    }

    /// Length of the unescaped body that follows the encoding byte.
    pub fn body_len(self) -> (r: usize)
        ensures
            r == self.spec_body_len(),
    {
        let payload_and_crc: usize = HEADER_PAYLOAD_SIZE + match self {
            Encoding::Zbin32 => 4,
            Encoding::Zbin => 2,
            Encoding::Zhex => 2,
        };
        match self {
            Encoding::Zhex => payload_and_crc * 2,
            Encoding::Zbin => payload_and_crc,
            Encoding::Zbin32 => payload_and_crc,
        }
    }
}

/// The encoding that `byte` announces, if it announces one.
pub open spec fn spec_encoding_from_byte(byte: u8) -> Option<Encoding> {
    if byte == 0x41 {
        Some(Encoding::Zbin)
    } else if byte == 0x42 {
        Some(Encoding::Zhex)
    } else if byte == 0x43 {
        Some(Encoding::Zbin32)
    } else {
        None
    }
}

/// The encoding that `byte` announces, if it announces one.
pub fn encoding_from_byte(byte: u8) -> (r: Option<Encoding>)
    ensures
        r == spec_encoding_from_byte(byte),
{
    match byte {
        0x41 => Some(Encoding::Zbin),
        0x42 => Some(Encoding::Zhex),
        0x43 => Some(Encoding::Zbin32),
        _ => None,
    }
}

/// Every encoding is recovered from the byte that announces it, and no other
/// byte announces one.
pub proof fn law_encoding_byte_round_trip(encoding: Encoding, byte: u8)
    ensures
        spec_encoding_from_byte(encoding.spec_encoding_byte()) == Some(encoding),
        spec_encoding_from_byte(byte) matches Some(e) ==> e.spec_encoding_byte() == byte,
{
}

/// Type of a header, as far as a terminal tells them apart.
#[derive(Clone, Copy, Debug, PartialEq, Eq, Structural)]
pub enum Frame {
    /// The peer asks for a receiver: a download starts.
    Zrqinit,
    /// The peer is ready to receive: an upload starts.
    Zrinit,
    /// The peer announces a file.
    Zfile,
    /// The peer aborts the session.
    Zabort,
    /// The peer cancelled with a run of cancel bytes.
    Zcan,
    /// Any other frame type.
    Other(u8),
}

impl Frame {
    /// The frame type byte.
    pub open spec fn spec_frame_byte(self) -> u8 {
        match self {
            Frame::Zrqinit => 0,
            Frame::Zrinit => 1,
            Frame::Zfile => 4,
            Frame::Zabort => 7,
            Frame::Zcan => 0x17,
            Frame::Other(other) => other,
        }
    }

    /// The frame that a type byte stands for; named frames are never `Other`.
    pub open spec fn spec_from_byte(byte: u8) -> Frame {
        if byte == 0 {
            Frame::Zrqinit
        } else if byte == 1 {
            Frame::Zrinit
        } else if byte == 4 {
            Frame::Zfile
        } else if byte == 7 {
            Frame::Zabort
        } else if byte == 0x17 {
            Frame::Zcan
        } else {
            Frame::Other(byte)
        }
    }

    /// The frame type byte sent on the wire.
    pub fn frame_byte(self) -> (r: u8)
        ensures
            r == self.spec_frame_byte(),
    {
        match self {
            Frame::Zrqinit => 0,
            Frame::Zrinit => 1,
            Frame::Zfile => 4,
            Frame::Zabort => 7,
            Frame::Zcan => 0x17,
            Frame::Other(other) => other,
        }
    }

    /// The frame that a type byte stands for.
    pub fn from_byte(byte: u8) -> (r: Frame)
        ensures
            r == Frame::spec_from_byte(byte),
    {
        match byte {
            0 => Frame::Zrqinit,
            1 => Frame::Zrinit,
            4 => Frame::Zfile,
            7 => Frame::Zabort,
            0x17 => Frame::Zcan,
            other => Frame::Other(other),
        }
    }
}

/// A frame type byte survives decoding and encoding, and a decoded frame
/// survives encoding and decoding.
pub proof fn law_frame_byte_round_trip(byte: u8)
    ensures
        Frame::spec_from_byte(byte).spec_frame_byte() == byte,
        Frame::spec_from_byte(Frame::spec_from_byte(byte).spec_frame_byte())
            == Frame::spec_from_byte(byte),
{
}

/// The frame type byte with which a receiver confirms a position.
pub const ZACK: u8 = 3;

/// The frame type byte with which a receiver asks for a position.
pub const ZRPOS: u8 = 9;

/// The frame type byte with which a receiver declines a file.
pub const ZSKIP: u8 = 5;

/// A decoded header.
#[derive(Clone, Copy, Debug, PartialEq, Eq)]
pub struct Header {
    pub encoding: Encoding,
    pub frame: Frame,
    pub flags: [u8; 4],
}

/// What a header says.
pub ghost struct HeaderView {
    pub encoding: Encoding,
    pub frame: Frame,
    pub flags: Seq<u8>,
}

impl View for Header {
    type V = HeaderView;

    open spec fn view(&self) -> HeaderView {
        HeaderView { encoding: self.encoding, frame: self.frame, flags: self.flags@ }
    }
}

/// The little-endian number in four flag bytes.
pub open spec fn le_number(flags: Seq<u8>) -> int {
    flags[0] + 0x100 * flags[1] + 0x1_0000 * flags[2] + 0x100_0000 * flags[3]
}

impl Header {
    /// The flags read as a little-endian position.
    pub fn count(self) -> (r: u32)
        ensures
            r == le_number(self@.flags),
    {
        let flags = self.flags;
        flags[0] as u32 + 0x100 * (flags[1] as u32) + 0x1_0000 * (flags[2] as u32) + 0x100_0000 * (
        flags[3] as u32)
    }
}

/// Which way a transfer runs, seen from the terminal.
#[derive(Clone, Copy, Debug, PartialEq, Eq, Structural)]
pub enum ZmodemRole {
    /// The peer sends files to this side.
    Download,
    /// This side sends files to the peer.
    Upload,
}

/// The role that a header starts a transfer in, if its frame starts one.
pub open spec fn start_role(frame: Frame) -> Option<ZmodemRole> {
    match frame {
        Frame::Zrqinit => Some(ZmodemRole::Download),
        Frame::Zfile => Some(ZmodemRole::Download),
        Frame::Zrinit => Some(ZmodemRole::Upload),
        _ => None,
    }
}

/// One step of the CRC-16 shift register with the polynomial 0x1021: `bit` is
/// the next message bit.
pub open spec fn crc16_bit(register: u16, bit: bool) -> u16 {
    if (register & 0x8000 != 0) != bit {
        (register << 1) ^ 0x1021
    } else {
        register << 1
    }
}

/// The register after the top `count` bits of `bits`, the topmost first.
pub open spec fn crc16_bits(register: u16, bits: u16, count: nat) -> u16
    decreases count,
{
    if count == 0 {
        register
    } else {
        crc16_bits(crc16_bit(register, bits & 0x8000 != 0), bits << 1, (count - 1) as nat)
    }
}

/// CRC-16/XMODEM: the message bits, each byte's most significant bit first,
/// shifted into a register that starts at zero.
pub open spec fn crc16(data: Seq<u8>) -> u16
    decreases data.len(),
{
    if data.len() == 0 {
        0
    } else {
        crc16_bits(crc16(data.drop_last()), (data.last() as u16) << 8, 8)
    }
}

/// CRC-16/XMODEM of `data`.
pub fn crc16_xmodem(data: &[u8]) -> (r: u16)
    ensures
        r == crc16(data@),
{
    let mut crc: u16 = 0;
    let mut index: usize = 0;
    assert(data@.take(0) =~= Seq::<u8>::empty());
    while index < data.len()
        invariant
            index <= data.len(),
            crc == crc16(data@.take(index as int)),
        decreases data.len() - index,
    {
        let byte: u8 = data[index];
        let ghost mut register: u16 = crc;
        let ghost mut bits: u16 = (byte as u16) << 8;
        crc = crc ^ ((byte as u16) << 8);
        let mut step: u16 = 0;
        while step < 8
            invariant
                step <= 8,
                crc == register ^ bits,
                bits == (byte as u16) << ((8 + step) as u16),
                crc16_bits(register, bits, (8 - step) as nat) == crc16_bits(
                    crc16(data@.take(index as int)),
                    (byte as u16) << 8,
                    8,
                ),
            decreases 8 - step,
        {
            proof {
                let next = crc16_bit(register, bits & 0x8000 != 0);
                assert((if (register ^ bits) & 0x8000 != 0 {
                    ((register ^ bits) << 1) ^ 0x1021
                } else {
                    (register ^ bits) << 1
                }) == (if (register & 0x8000 != 0) != (bits & 0x8000 != 0) {
                    (register << 1) ^ 0x1021
                } else {
                    register << 1
                }) ^ (bits << 1)) by (bit_vector);
                let shift: u16 = (8 + step) as u16;
                assert(((byte as u16) << shift) << 1u16 == (byte as u16) << ((shift + 1) as u16))
                    by (bit_vector)
                    requires
                        shift < 16u16,
                ;
                register = next;
                bits = bits << 1;
            }
            crc = if crc & 0x8000 != 0 {
                (crc << 1) ^ 0x1021
            } else {
                crc << 1
            };
            step = step + 1;
        }
        proof {
            assert((byte as u16) << 16u16 == 0u16) by (bit_vector);
            assert(register ^ 0u16 == register) by (bit_vector);
            assert(data@.take(index + 1).drop_last() =~= data@.take(index as int));
        }
        index = index + 1;
    }
    assert(data@.take(data@.len() as int) =~= data@);
    crc
}

/// One step of the reflected CRC-32 shift register with the polynomial
/// 0xEDB88320.
pub open spec fn crc32_bit(register: u32, bit: bool) -> u32 {
    if (register & 1 != 0) != bit {
        (register >> 1) ^ 0xEDB8_8320
    } else {
        register >> 1
    }
}

/// The register after the low `count` bits of `bits`, the lowest first.
pub open spec fn crc32_bits(register: u32, bits: u32, count: nat) -> u32
    decreases count,
{
    if count == 0 {
        register
    } else {
        crc32_bits(crc32_bit(register, bits & 1 != 0), bits >> 1, (count - 1) as nat)
    }
}

/// The CRC-32 register after the message, before the final complement.
pub open spec fn crc32_register(data: Seq<u8>) -> u32
    decreases data.len(),
{
    if data.len() == 0 {
        0xFFFF_FFFF
    } else {
        crc32_bits(crc32_register(data.drop_last()), data.last() as u32, 8)
    }
}

/// CRC-32/ISO-HDLC: the message bits, each byte's least significant bit first,
/// shifted into a register of ones, complemented at the end.
pub open spec fn crc32(data: Seq<u8>) -> u32 {
    !crc32_register(data)
}

/// CRC-32/ISO-HDLC of `data`.
pub fn crc32_iso_hdlc(data: &[u8]) -> (r: u32)
    ensures
        r == crc32(data@),
{
    let mut crc: u32 = 0xFFFF_FFFF;
    let mut index: usize = 0;
    assert(data@.take(0) =~= Seq::<u8>::empty());
    while index < data.len()
        invariant
            index <= data.len(),
            crc == crc32_register(data@.take(index as int)),
        decreases data.len() - index,
    {
        let byte: u8 = data[index];
        let ghost mut register: u32 = crc;
        let ghost mut bits: u32 = byte as u32;
        crc = crc ^ (byte as u32);
        let mut step: u32 = 0;
        assert(byte as u32 == (byte as u32) >> 0u32) by (bit_vector);
        while step < 8
            invariant
                step <= 8,
                crc == register ^ bits,
                bits == (byte as u32) >> step,
                crc32_bits(register, bits, (8 - step) as nat) == crc32_bits(
                    crc32_register(data@.take(index as int)),
                    byte as u32,
                    8,
                ),
            decreases 8 - step,
        {
            proof {
                let next = crc32_bit(register, bits & 1 != 0);
                assert((if (register ^ bits) & 1 != 0 {
                    ((register ^ bits) >> 1) ^ 0xEDB8_8320
                } else {
                    (register ^ bits) >> 1
                }) == (if (register & 1 != 0) != (bits & 1 != 0) {
                    (register >> 1) ^ 0xEDB8_8320
                } else {
                    register >> 1
                }) ^ (bits >> 1)) by (bit_vector);
                assert(((byte as u32) >> step) >> 1u32 == (byte as u32) >> ((step + 1) as u32))
                    by (bit_vector)
                    requires
                        step < 8u32,
                ;
                register = next;
                bits = bits >> 1;
            }
            crc = if crc & 1 != 0 {
                (crc >> 1) ^ 0xEDB8_8320
            } else {
                crc >> 1
            };
            step = step + 1;
        }
        proof {
            assert((byte as u32) >> 8u32 == 0u32) by (bit_vector);
            assert(register ^ 0u32 == register) by (bit_vector);
            assert(data@.take(index + 1).drop_last() =~= data@.take(index as int));
        }
        index = index + 1;
    }
    assert(data@.take(data@.len() as int) =~= data@);
    !crc
}

/// The checksum bytes that follow a payload with a 16-bit checksum, high byte
/// first.
pub open spec fn crc16_bytes(crc: u16) -> Seq<u8> {
    seq![(crc / 0x100) as u8, (crc % 0x100) as u8]
}

/// The checksum bytes that follow a payload with a 32-bit checksum, low byte
/// first.
pub open spec fn crc32_bytes(crc: u32) -> Seq<u8> {
    seq![
        (crc % 0x100) as u8,
        (crc / 0x100 % 0x100) as u8,
        (crc / 0x1_0000 % 0x100) as u8,
        (crc / 0x100_0000) as u8,
    ]
}

/// The value of a hex digit of either case.
pub open spec fn hex_value(byte: u8) -> Option<u8> {
    if 0x30 <= byte <= 0x39 {
        Some((byte - 0x30) as u8)
    } else if 0x61 <= byte <= 0x66 {
        Some((byte - 0x61 + 10) as u8)
    } else if 0x41 <= byte <= 0x46 {
        Some((byte - 0x41 + 10) as u8)
    } else {
        None
    }
}

/// The value of a hex digit of either case.
pub fn hex_nibble(byte: u8) -> (r: Option<u8>)
    ensures
        r == hex_value(byte),
{
    match byte {
        0x30..=0x39 => Some(byte - 0x30),
        0x61..=0x66 => Some(byte - 0x61 + 10),
        0x41..=0x46 => Some(byte - 0x41 + 10),
        _ => None,
    }
}

/// Whether `byte` is a hex digit.
pub fn is_hex_digit(byte: u8) -> (r: bool)
    ensures
        r == (hex_value(byte) is Some),
{
    hex_nibble(byte).is_some()
}

/// The byte that stands behind a `ZDLE` for the escaped byte `byte`.
pub open spec fn unzdle_value(byte: u8) -> u8 {
    if byte == 0x6c {
        0x7f
    } else if byte == 0x6d {
        0xff
    } else if 0x40 <= byte <= 0x5f || 0xc0 <= byte <= 0xdf {
        (byte - 0x40) as u8
    } else {
        byte
    }
}

/// Undoes one `ZDLE` escape.
pub fn unzdle(byte: u8) -> (r: u8)
    ensures
        r == unzdle_value(byte),
{
    match byte {
        0x6c => 0x7f,
        0x6d => 0xff,
        0x40..=0x5f => byte - 0x40,
        0xc0..=0xdf => byte - 0x40,
        _ => byte,
    }
}

/// What reading a header body comes to.
pub ghost enum BodyView {
    /// The bytes end before the body does.
    NeedMore,
    /// A value is not a hex digit where one is due.
    Bad,
    /// The unescaped values, and the index behind the last byte read.
    Body(Seq<u8>, int),
}

/// Reads `count` more body values from `bytes` at `at`, behind the values
/// `values`; a `ZDLE` escapes the byte that follows it.
pub open spec fn read_body(
    bytes: Seq<u8>,
    at: int,
    hex_only: bool,
    values: Seq<u8>,
    count: nat,
) -> BodyView
    decreases count,
{
    if count == 0 {
        BodyView::Body(values, at)
    } else if at >= bytes.len() || (bytes[at] == ZDLE && at + 1 >= bytes.len()) {
        BodyView::NeedMore
    } else {
        let value = if bytes[at] == ZDLE {
            unzdle_value(bytes[at + 1])
        } else {
            bytes[at]
        };
        let next = if bytes[at] == ZDLE {
            at + 2
        } else {
            at + 1
        };
        if hex_only && hex_value(value) is None {
            BodyView::Bad
        } else {
            read_body(bytes, next, hex_only, values.push(value), (count - 1) as nat)
        }
    }
}

/// The bytes written by a run of hex digits, two digits each.
pub open spec fn hex_values(digits: Seq<u8>) -> Seq<u8> {
    Seq::new(
        digits.len() / 2,
        |i: int| (hex_value(digits[2 * i])->0 * 16 + hex_value(digits[2 * i + 1])->0) as u8,
    )
}

/// Whether `values` is a payload followed by its checksum.
pub open spec fn checksum_holds(encoding: Encoding, values: Seq<u8>) -> bool {
    &&& values.len() == 5 + encoding.spec_crc_len()
    &&& values.skip(5) == match encoding {
        Encoding::Zbin32 => crc32_bytes(crc32(values.take(5))),
        _ => crc16_bytes(crc16(values.take(5))),
    }
}

/// The header that a payload and its checksum stand for, if the checksum holds.
pub open spec fn header_of_values(encoding: Encoding, values: Seq<u8>) -> Option<HeaderView> {
    if checksum_holds(encoding, values) {
        Some(
            HeaderView {
                encoding,
                frame: Frame::spec_from_byte(values[0]),
                flags: values.subrange(1, 5),
            },
        )
    } else {
        None
    }
}

/// Whether every byte is a hex digit.
pub open spec fn all_hex(digits: Seq<u8>) -> bool {
    forall|i: int| 0 <= i < digits.len() ==> hex_value(#[trigger] digits[i]) is Some
}

/// The header that an unescaped body stands for.
pub open spec fn header_of_body(encoding: Encoding, body: Seq<u8>) -> Option<HeaderView> {
    if encoding is Zhex {
        if body.len() % 2 == 0 && all_hex(body) {
            header_of_values(encoding, hex_values(body))
        } else {
            None
        }
    } else {
        header_of_values(encoding, body)
    }
}

/// The view of an optional header.
pub open spec fn header_view(header: Option<Header>) -> Option<HeaderView> {
    match header {
        Some(header) => Some(header@),
        None => None,
    }
}

/// Outcome of decoding the bytes behind a pad prefix.
#[derive(Clone, Copy, Debug, PartialEq, Eq)]
pub enum DecodeResult {
    /// A header whose checksum holds; `len` bytes were read in all.
    Header { header: Header, len: usize },
    /// The bytes are no header.
    NotAHeader,
    /// The bytes may turn into a header.
    NeedMore,
}

/// What decoding comes to.
pub ghost enum DecodeView {
    Header { header: HeaderView, len: int },
    NotAHeader,
    NeedMore,
}

impl View for DecodeResult {
    type V = DecodeView;

    open spec fn view(&self) -> DecodeView {
        match *self {
            DecodeResult::Header { header, len } => DecodeView::Header {
                header: header@,
                len: len as int,
            },
            DecodeResult::NotAHeader => DecodeView::NotAHeader,
            DecodeResult::NeedMore => DecodeView::NeedMore,
        }
    }
}

/// What the bytes behind a prefix of `prefix_len` bytes decode to: an encoding
/// byte, then an escaped body with a valid checksum.
pub open spec fn decoded_header(bytes: Seq<u8>, prefix_len: int) -> DecodeView {
    if prefix_len >= bytes.len() {
        DecodeView::NeedMore
    } else {
        match spec_encoding_from_byte(bytes[prefix_len]) {
            None => DecodeView::NotAHeader,
            Some(encoding) => match read_body(
                bytes,
                prefix_len + 1,
                encoding is Zhex,
                Seq::empty(),
                encoding.spec_body_len(),
            ) {
                BodyView::NeedMore => DecodeView::NeedMore,
                BodyView::Bad => DecodeView::NotAHeader,
                BodyView::Body(body, end) => match header_of_body(encoding, body) {
                    Some(header) => DecodeView::Header { header, len: end },
                    None => DecodeView::NotAHeader,
                },
            },
        }
    }
}

/// Decodes the header behind a prefix of pads and `ZDLE`.
pub fn decode_header(bytes: &[u8], prefix_len: usize) -> (r: DecodeResult)
    ensures
        r@ == decoded_header(bytes@, prefix_len as int),
        r matches DecodeResult::Header { len, .. } ==> len <= bytes.len(),
{
    if prefix_len >= bytes.len() {
        return DecodeResult::NeedMore;
    }
    let encoding = match encoding_from_byte(bytes[prefix_len]) {
        Some(encoding) => encoding,
        None => return DecodeResult::NotAHeader,
    };
    let body_len: usize = encoding.body_len();
    let mut body: Vec<u8> = Vec::with_capacity(MAX_HEADER_BODY_LEN);
    let mut consumed: usize = prefix_len + 1;
    while body.len() < body_len
        invariant
            prefix_len < bytes.len(),
            prefix_len < consumed <= bytes.len(),
            body.len() <= body_len,
            body_len == encoding.spec_body_len(),
            spec_encoding_from_byte(bytes@[prefix_len as int]) == Some(encoding),
            encoding is Zhex ==> all_hex(body@),
            read_body(
                bytes@,
                consumed as int,
                encoding is Zhex,
                body@,
                (body_len - body.len()) as nat,
            ) == read_body(
                bytes@,
                prefix_len + 1,
                encoding is Zhex,
                Seq::empty(),
                encoding.spec_body_len(),
            ),
        decreases body_len - body.len(),
    {
        if consumed >= bytes.len() {
            return DecodeResult::NeedMore;
        }
        let byte: u8 = bytes[consumed];
        consumed = consumed + 1;
        let value: u8 = if byte == ZDLE {
            if consumed >= bytes.len() {
                return DecodeResult::NeedMore;
            }
            consumed = consumed + 1;
            unzdle(bytes[consumed - 1])
        } else {
            byte
        };
        if matches!(encoding, Encoding::Zhex) && !is_hex_digit(value) {
            return DecodeResult::NotAHeader;
        }
        body.push(value);
    }
    match decode_header_body(encoding, body.as_slice()) {
        Some(header) => DecodeResult::Header { header, len: consumed },
        None => DecodeResult::NotAHeader,
    }
}

/// Decodes an unescaped body, hex digits or binary.
pub fn decode_header_body(encoding: Encoding, body: &[u8]) -> (r: Option<Header>)
    ensures
        header_view(r) == header_of_body(encoding, body@),
{
    if matches!(encoding, Encoding::Zhex) {
        if body.len() % 2 != 0 {
            return None;
        }
        let mut decoded: Vec<u8> = Vec::with_capacity(MAX_HEADER_BODY_LEN);
        let mut index: usize = 0;
        while index < body.len()
            invariant
                index <= body.len(),
                body.len() % 2 == 0,
                index % 2 == 0,
                encoding is Zhex,
                decoded.len() == index / 2,
                forall|i: int| 0 <= i < index ==> hex_value(#[trigger] body@[i]) is Some,
                forall|i: int|
                    0 <= i < decoded.len() ==> #[trigger] decoded@[i] == hex_values(body@)[i],
            decreases body.len() - index,
        {
            let high: u8 = match hex_nibble(body[index]) {
                Some(high) => high,
                None => return None,
            };
            let low: u8 = match hex_nibble(body[index + 1]) {
                Some(low) => low,
                None => return None,
            };
            proof {
                assert((high << 4) | low == high * 16 + low) by (bit_vector)
                    requires
                        high < 16u8,
                        low < 16u8,
                ;
                assert(hex_values(body@)[index as int / 2] == (hex_value(body@[2 * (index as int
                    / 2)])->0 * 16 + hex_value(body@[2 * (index as int / 2) + 1])->0) as u8);
            }
            decoded.push((high << 4) | low);
            index = index + 2;
        }
        assert(decoded@ =~= hex_values(body@));
        return decode_header_body_binary(encoding, decoded.as_slice());
    }
    decode_header_body_binary(encoding, body)
}

/// Decodes a payload and its checksum.
pub fn decode_header_body_binary(encoding: Encoding, body: &[u8]) -> (r: Option<Header>)
    ensures
        header_view(r) == header_of_values(encoding, body@),
{
    let crc_len: usize = match encoding {
        Encoding::Zbin32 => 4,
        Encoding::Zbin => 2,
        Encoding::Zhex => 2,
    };
    if body.len() != HEADER_PAYLOAD_SIZE + crc_len {
        return None;
    }
    let (payload, crc) = body.split_at(HEADER_PAYLOAD_SIZE);
    assert(payload@ =~= body@.take(5));
    assert(crc@ =~= body@.skip(5));
    let valid: bool = match encoding {
        Encoding::Zbin32 => {
            let expected: u32 = crc32_iso_hdlc(payload);
            crc[0] == (expected % 0x100) as u8 && crc[1] == (expected / 0x100 % 0x100) as u8
                && crc[2] == (expected / 0x1_0000 % 0x100) as u8 && crc[3] == (expected
                / 0x100_0000) as u8
        },
        _ => {
            let expected: u16 = crc16_xmodem(payload);
            crc[0] == (expected / 0x100) as u8 && crc[1] == (expected % 0x100) as u8
        },
    };
    proof {
        if valid {
            assert(crc@ =~= match encoding {
                Encoding::Zbin32 => crc32_bytes(crc32(payload@)),
                _ => crc16_bytes(crc16(payload@)),
            });
        }
    }
    if !valid {
        return None;
    }
    let flags: [u8; 4] = [payload[1], payload[2], payload[3], payload[4]];
    assert(flags@ =~= body@.subrange(1, 5));
    Some(Header { encoding, frame: Frame::from_byte(payload[0]), flags })
}

/// The lower-case hex digit of a value under sixteen.
pub open spec fn hex_digit(value: u8) -> u8 {
    if value < 10 {
        (0x30 + value) as u8
    } else {
        (0x61 + value - 10) as u8
    }
}

/// Bytes as lower-case hex digits, two each, the high one first.
pub open spec fn hex_digits(bytes: Seq<u8>) -> Seq<u8> {
    Seq::new(
        2 * bytes.len(),
        |i: int| hex_digit(if i % 2 == 0 {
            (bytes[i / 2] / 16) as u8
        } else {
            (bytes[i / 2] % 16) as u8
        }),
    )
}

/// `hex::encode_to_slice` on a single byte: the two lower-case hex digits of
/// the byte, the high one first. Two characters are what one byte takes, so
/// the call never reports a length mismatch.
#[verifier::external_body]
fn hex_pair(byte: u8) -> (r: [u8; 2])
    ensures
        r@ == seq![hex_digit((byte / 16) as u8), hex_digit((byte % 16) as u8)],
{
    let mut pair = [0u8; 2];
    hex::encode_to_slice([byte], &mut pair).expect("one byte encodes to two hex chars");
    pair
}

/// The payload of a header: frame type and flags.
pub open spec fn header_payload(frame: Frame, flags: Seq<u8>) -> Seq<u8> {
    seq![frame.spec_frame_byte()] + flags
}

/// A hex header on the wire: pads, `ZDLE`, the encoding byte, payload and
/// checksum in hex digits, and a line end whose line feed has its parity bit
/// set, closed by `XON`.
pub open spec fn hex_header(frame: Frame, flags: Seq<u8>) -> Seq<u8> {
    let payload = header_payload(frame, flags);
    seq![ZPAD, ZPAD, ZDLE, 0x42u8] + hex_digits(payload + crc16_bytes(crc16(payload))) + seq![
        0x0du8,
        0x8au8,
        XON,
    ]
}

/// Writes a hex header.
pub fn encode_hex_header(frame: Frame, flags: &[u8; 4]) -> (r: Vec<u8>)
    ensures
        r@ == hex_header(frame, flags@),
{
    let mut payload: Vec<u8> = Vec::with_capacity(HEADER_PAYLOAD_SIZE + 2);
    payload.push(frame.frame_byte());
    payload.push(flags[0]);
    payload.push(flags[1]);
    payload.push(flags[2]);
    payload.push(flags[3]);
    assert(payload@ =~= header_payload(frame, flags@));
    let crc: u16 = crc16_xmodem(payload.as_slice());
    payload.push((crc / 0x100) as u8);
    payload.push((crc % 0x100) as u8);
    let ghost body = header_payload(frame, flags@) + crc16_bytes(
        crc16(header_payload(frame, flags@)),
    );
    assert(payload@ =~= body);

    let mut out: Vec<u8> = Vec::new();
    append(&mut out, &[ZPAD, ZPAD, ZDLE, Encoding::Zhex.encoding_byte()]);
    let ghost prefix = out@;
    assert(prefix =~= seq![ZPAD, ZPAD, ZDLE, 0x42u8]);
    let mut index: usize = 0;
    while index < payload.len()
        invariant
            index <= payload.len(),
            payload@ == body,
            prefix == seq![ZPAD, ZPAD, ZDLE, 0x42u8],
            out@ == prefix + hex_digits(body).take(2 * index),
        decreases payload.len() - index,
    {
        let pair: [u8; 2] = hex_pair(payload[index]);
        out.push(pair[0]);
        out.push(pair[1]);
        assert(out@ =~= prefix + hex_digits(body).take(2 * (index + 1)));
        index = index + 1;
    }
    assert(hex_digits(body).take(2 * body.len() as int) =~= hex_digits(body));
    append(&mut out, &[0x0d, 0x8a, XON]);
    assert(out@ =~= hex_header(frame, flags@));
    out
}

/// The request for a receiver: a hex `Zrqinit` header without flags.
pub fn zrqinit_sequence() -> (r: Vec<u8>)
    ensures
        r@ == hex_header(Frame::Zrqinit, seq![0u8, 0, 0, 0]),
{
    let flags: [u8; 4] = [0, 0, 0, 0];
    assert(flags@ =~= seq![0u8, 0, 0, 0]);
    encode_hex_header(Frame::Zrqinit, &flags)
}

/// Three pads, two cancel bytes and eight backspaces.
pub open spec fn abort_bytes() -> Seq<u8> {
    seq![ZPAD, ZPAD, ZPAD, CAN, CAN] + Seq::new(8, |i: int| BS)
}

/// The bytes that tell the peer to abort a session.
pub fn abort_sequence() -> (r: Vec<u8>)
    ensures
        r@ == abort_bytes(),
{
    let mut out: Vec<u8> = Vec::with_capacity(16);
    append(&mut out, &[ZPAD, ZPAD, ZPAD]);
    append(&mut out, &[CAN, CAN]);
    append(&mut out, &[BS, BS, BS, BS, BS, BS, BS, BS]);
    assert(out@ =~= abort_bytes());
    out
}

proof fn lemma_hex_digit_value(value: u8)
    requires
        value < 16,
    ensures
        hex_value(hex_digit(value)) == Some(value),
        hex_digit(value) != ZDLE,
{
}

proof fn lemma_read_plain_hex(bytes: Seq<u8>, at: int, values: Seq<u8>, count: nat)
    requires
        0 <= at,
        at + count <= bytes.len(),
        forall|i: int| at <= i < at + count ==> hex_value(#[trigger] bytes[i]) is Some,
    ensures
        read_body(bytes, at, true, values, count) == BodyView::Body(
            values + bytes.subrange(at, at + count),
            at + count,
        ),
    decreases count,
{
    if count == 0 {
        assert(values + bytes.subrange(at, at) =~= values);
    } else {
        lemma_read_plain_hex(bytes, at + 1, values.push(bytes[at]), (count - 1) as nat);
        assert(values.push(bytes[at]) + bytes.subrange(at + 1, at + count) =~= values
            + bytes.subrange(at, at + count));
    }
}

proof fn lemma_hex_values_of_digits(bytes: Seq<u8>)
    ensures
        all_hex(hex_digits(bytes)),
        hex_values(hex_digits(bytes)) == bytes,
{
    let digits = hex_digits(bytes);
    assert forall|i: int| 0 <= i < digits.len() implies hex_value(#[trigger] digits[i]) is Some by {
        lemma_hex_digit_value((bytes[i / 2] / 16) as u8);
        lemma_hex_digit_value((bytes[i / 2] % 16) as u8);
    }
    assert forall|i: int| 0 <= i < bytes.len() implies hex_values(digits)[i] == bytes[i] by {
        lemma_hex_digit_value((bytes[i] / 16) as u8);
        lemma_hex_digit_value((bytes[i] % 16) as u8);
        assert(digits[2 * i] == hex_digit((bytes[i] / 16) as u8));
        assert(digits[2 * i + 1] == hex_digit((bytes[i] % 16) as u8));
    }
    assert(hex_values(digits) =~= bytes);
}

/// A payload followed by its checksum is a header, in every encoding: the
/// frame and the flags of the payload.
pub proof fn law_checksummed_payload_is_a_header(encoding: Encoding, payload: Seq<u8>)
    requires
        payload.len() == 5,
    ensures
        ({
            let checksum = match encoding {
                Encoding::Zbin32 => crc32_bytes(crc32(payload)),
                _ => crc16_bytes(crc16(payload)),
            };
            header_of_values(encoding, payload + checksum) == Some(
                HeaderView {
                    encoding,
                    frame: Frame::spec_from_byte(payload[0]),
                    flags: payload.skip(1),
                },
            )
        }),
{
    let checksum = match encoding {
        Encoding::Zbin32 => crc32_bytes(crc32(payload)),
        _ => crc16_bytes(crc16(payload)),
    };
    let values = payload + checksum;
    assert(values.take(5) =~= payload);
    assert(values.skip(5) =~= checksum);
    assert(values.subrange(1, 5) =~= payload.skip(1));
}

/// The bytes of a hex header: two pads, `ZDLE`, the encoding byte and hex
/// digits.
pub proof fn lemma_hex_header_bytes(frame: Frame, flags: Seq<u8>)
    requires
        flags.len() == 4,
    ensures
        hex_header(frame, flags).len() == 21,
        hex_header(frame, flags)[0] == ZPAD,
        hex_header(frame, flags)[1] == ZPAD,
        hex_header(frame, flags)[2] == ZDLE,
        hex_header(frame, flags)[3] == 0x42,
        forall|i: int|
            4 <= i < 18 ==> hex_value(#[trigger] hex_header(frame, flags)[i]) is Some,
{
    let bytes = hex_header(frame, flags);
    let payload = header_payload(frame, flags);
    let body = payload + crc16_bytes(crc16(payload));
    lemma_hex_values_of_digits(body);
    assert forall|i: int| 4 <= i < 18 implies hex_value(#[trigger] bytes[i]) is Some by {
        assert(bytes[i] == hex_digits(body)[i - 4]);
    }
}

proof fn lemma_hex_bytes_decode(bytes: Seq<u8>, frame: Frame, flags: Seq<u8>)
    requires
        flags.len() == 4,
        bytes.len() >= 18,
        bytes[3] == 0x42,
        bytes.subrange(4, 18) == hex_digits(
            header_payload(frame, flags) + crc16_bytes(crc16(header_payload(frame, flags))),
        ),
    ensures
        decoded_header(bytes, 3) == (DecodeView::Header {
            header: HeaderView {
                encoding: Encoding::Zhex,
                frame: Frame::spec_from_byte(frame.spec_frame_byte()),
                flags,
            },
            len: 18,
        }),
{
    let payload = header_payload(frame, flags);
    let body = payload + crc16_bytes(crc16(payload));
    lemma_hex_values_of_digits(body);
    assert forall|i: int| 4 <= i < 18 implies hex_value(#[trigger] bytes[i]) is Some by {
        assert(bytes[i] == bytes.subrange(4, 18)[i - 4]);
    }
    lemma_read_plain_hex(bytes, 4, Seq::empty(), 14);
    assert(Seq::<u8>::empty() + bytes.subrange(4, 18) =~= hex_digits(body));
    assert(body.take(5) =~= payload);
    assert(body.skip(5) =~= crc16_bytes(crc16(payload)));
    assert(body.subrange(1, 5) =~= flags);
}

/// A hex header decodes without its line end.
pub proof fn lemma_hex_header_decodes(frame: Frame, flags: Seq<u8>)
    requires
        flags.len() == 4,
    ensures
        decoded_header(hex_header(frame, flags).take(18), 3) == (DecodeView::Header {
            header: HeaderView {
                encoding: Encoding::Zhex,
                frame: Frame::spec_from_byte(frame.spec_frame_byte()),
                flags,
            },
            len: 18,
        }),
{
    let bytes = hex_header(frame, flags).take(18);
    let payload = header_payload(frame, flags);
    let body = payload + crc16_bytes(crc16(payload));
    assert(bytes.subrange(4, 18) =~= hex_digits(body));
    lemma_hex_bytes_decode(bytes, frame, flags);
}

/// A hex header decodes to the frame and flags it was written from, whatever
/// follows it; a frame byte with a name decodes to the named frame.
pub proof fn law_hex_header_round_trip(frame: Frame, flags: Seq<u8>, rest: Seq<u8>)
    requires
        flags.len() == 4,
    ensures
        decoded_header(hex_header(frame, flags) + rest, 3) == (DecodeView::Header {
            header: HeaderView {
                encoding: Encoding::Zhex,
                frame: Frame::spec_from_byte(frame.spec_frame_byte()),
                flags,
            },
            len: 18,
        }),
{
    let bytes = hex_header(frame, flags) + rest;
    let payload = header_payload(frame, flags);
    let body = payload + crc16_bytes(crc16(payload));
    assert(bytes.subrange(4, 18) =~= hex_digits(body));
    lemma_hex_bytes_decode(bytes, frame, flags);
}

/// Bytes as a sender puts them into a binary header: control characters of
/// both halves are escaped, everything else stands for itself.
pub open spec fn escaped(values: Seq<u8>) -> Seq<u8>
    decreases values.len(),
{
    if values.len() == 0 {
        Seq::empty()
    } else {
        let first = values[0];
        let one = if first < 0x20 || 0x80 <= first < 0xa0 {
            seq![ZDLE, (first + 0x40) as u8]
        } else {
            seq![first]
        };
        one + escaped(values.skip(1))
    }
}

proof fn lemma_read_escaped(
    bytes: Seq<u8>,
    at: int,
    before: Seq<u8>,
    values: Seq<u8>,
    rest: Seq<u8>,
)
    requires
        0 <= at <= bytes.len(),
        bytes.skip(at) == escaped(values) + rest,
    ensures
        read_body(bytes, at, false, before, values.len()) == BodyView::Body(
            before + values,
            at + escaped(values).len(),
        ),
    decreases values.len(),
{
    if values.len() == 0 {
        assert(before + values =~= before);
    } else {
        let first = values[0];
        let tail = values.skip(1);
        let width: int = if first < 0x20 || 0x80 <= first < 0xa0 {
            2
        } else {
            1
        };
        let all = escaped(values) + rest;
        assert(escaped(values).len() == width + escaped(tail).len());
        assert(bytes.skip(at).len() == all.len());
        assert(bytes.skip(at)[0] == bytes[at]);
        if width == 2 {
            assert(bytes.skip(at)[1] == bytes[at + 1]);
        }
        assert(bytes.skip(at + width) =~= escaped(tail) + rest) by {
            assert(bytes.skip(at + width) =~= bytes.skip(at).skip(width));
            assert(all.skip(width) =~= escaped(tail) + rest);
        }
        lemma_read_escaped(bytes, at + width, before.push(first), tail, rest);
        assert(before.push(first) + tail =~= before + values);
    }
}

/// A binary header reads back: whatever stands before and behind it, the
/// escaped payload with its checksum is decoded to its frame and flags, and to
/// nothing if the checksum is another one.
pub proof fn law_binary_header_round_trip(
    encoding: Encoding,
    prefix: Seq<u8>,
    payload: Seq<u8>,
    checksum: Seq<u8>,
    rest: Seq<u8>,
)
    requires
        !(encoding is Zhex),
        payload.len() == 5,
        checksum.len() == encoding.spec_crc_len(),
    ensures
        ({
            let body = escaped(payload + checksum);
            let wire = prefix + seq![encoding.spec_encoding_byte()] + body + rest;
            let right = match encoding {
                Encoding::Zbin32 => crc32_bytes(crc32(payload)),
                _ => crc16_bytes(crc16(payload)),
            };
            decoded_header(wire, prefix.len() as int) == if checksum == right {
                DecodeView::Header {
                    header: HeaderView {
                        encoding,
                        frame: Frame::spec_from_byte(payload[0]),
                        flags: payload.skip(1),
                    },
                    len: (prefix.len() + 1 + body.len()) as int,
                }
            } else {
                DecodeView::NotAHeader
            }
        }),
{
    let values = payload + checksum;
    let body = escaped(values);
    let wire = prefix + seq![encoding.spec_encoding_byte()] + body + rest;
    let at = prefix.len() as int + 1;
    assert(wire[prefix.len() as int] == encoding.spec_encoding_byte());
    assert(wire.skip(at) =~= body + rest);
    lemma_read_escaped(wire, at, Seq::empty(), values, rest);
    assert(Seq::<u8>::empty() + values =~= values);
    assert(encoding.spec_body_len() == values.len());
    assert(values.take(5) =~= payload);
    assert(values.skip(5) =~= checksum);
    assert(values.subrange(1, 5) =~= payload.skip(1));
}

/// Hex digits of either case read back as the value that they were written
/// for, and nothing else is a digit.
pub proof fn law_hex_digits_read_back(value: u8, byte: u8)
    ensures
        value < 16 ==> hex_value(hex_digit(value)) == Some(value),
        hex_value(byte) matches Some(v) ==> v < 16 && (byte == hex_digit(v) || (0x41 <= byte
            <= 0x46 && byte + 0x20 == hex_digit(v))),
        0x41 <= byte <= 0x46 ==> hex_value(byte) == hex_value((byte + 0x20) as u8),
        hex_value(byte) is None <==> !(0x30 <= byte <= 0x39 || 0x41 <= byte <= 0x46 || 0x61 <= byte
            <= 0x66),
{
}

/// The number in the flags is made of its bytes, the lowest first.
pub proof fn law_positions_are_little_endian(flags: Seq<u8>)
    requires
        flags.len() == 4,
    ensures
        0 <= le_number(flags) <= u32::MAX,
        le_number(flags) % 0x100 == flags[0],
        le_number(flags) / 0x100 % 0x100 == flags[1],
        le_number(flags) / 0x1_0000 % 0x100 == flags[2],
        le_number(flags) / 0x100_0000 == flags[3],
{
}

/// Both checksums are written in full: the bytes read back as the number.
pub proof fn law_checksums_are_written_in_full(short: u16, long: u32)
    ensures
        crc16_bytes(short).len() == 2,
        crc16_bytes(short)[0] * 0x100 + crc16_bytes(short)[1] == short,
        crc32_bytes(long).len() == 4,
        le_number(crc32_bytes(long)) == long,
{
}

/// A header starts a transfer exactly if its frame announces a sender, a file
/// or a receiver; a receiver there means an upload from here.
pub proof fn law_start_frames_have_a_direction(frame: Frame)
    ensures
        start_role(frame) == Some(ZmodemRole::Upload) <==> frame is Zrinit,
        start_role(frame) == Some(ZmodemRole::Download) <==> frame is Zrqinit || frame is Zfile,
        start_role(frame) is None <==> frame is Zabort || frame is Zcan || frame is Other,
{
}

/// An escape stands for the byte that it was made from: a control character of
/// either half, delete with or without its high bit, or the byte itself.
pub proof fn law_escapes_are_undone(byte: u8)
    ensures
        byte < 0x20 || 0x80 <= byte < 0xa0 ==> unzdle_value((byte + 0x40) as u8) == byte,
        unzdle_value(0x6c) == 0x7f,
        unzdle_value(0x6d) == 0xff,
        byte != 0x6c && byte != 0x6d && !(0x40 <= byte <= 0x5f) && !(0xc0 <= byte <= 0xdf)
            ==> unzdle_value(byte) == byte,
{
}

proof fn lemma_hex_needs_more(bytes: Seq<u8>, at: int, values: Seq<u8>, count: nat)
    requires
        0 <= at <= bytes.len() < at + count,
        forall|i: int|
            at <= i < bytes.len() ==> hex_value(#[trigger] bytes[i]) is Some && bytes[i] != ZDLE,
    ensures
        read_body(bytes, at, true, values, count) is NeedMore,
    decreases count,
{
    if at < bytes.len() {
        lemma_hex_needs_more(bytes, at + 1, values.push(bytes[at]), (count - 1) as nat);
    }
}

/// The front of a hex header asks for more, however short it is.
pub proof fn law_fronts_of_hex_headers_need_more(frame: Frame, flags: Seq<u8>, len: int)
    requires
        flags.len() == 4,
        3 <= len < 18,
    ensures
        decoded_header(hex_header(frame, flags).take(len), 3) is NeedMore,
{
    let header = hex_header(frame, flags);
    let bytes = header.take(len);
    let payload = header_payload(frame, flags);
    let body = payload + crc16_bytes(crc16(payload));
    let digits = hex_digits(body);
    assert(header.subrange(4, 18) =~= digits);
    if len > 3 {
        assert(bytes[3] == 0x42);
        assert forall|i: int| 4 <= i < bytes.len() implies hex_value(#[trigger] bytes[i]) is Some
            && bytes[i] != ZDLE by {
            assert(bytes[i] == header.subrange(4, 18)[i - 4]);
            assert(bytes[i] == digits[i - 4]);
        }
        lemma_hex_needs_more(bytes, 4, Seq::empty(), 14);
    }
}

} // verus!
