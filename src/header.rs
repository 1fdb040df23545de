//! The 64-byte ROM header and the magic word that tells the byte order.

use vstd::prelude::*;
use vstd::string::StringSliceAdditionalSpecFns;
use vstd::wrapping::u32_specs;

use crate::bytes::{be_bytes, be_u32, be_word, lemma_be_word_bytes, read_be_u32, write_be_u32, Endianness};
use crate::convert::{self, convert_seq, swap_index};
use crate::ipl3::IPL3;

verus! {

/// Magic word of a header stored in Big order.
pub const MAGIC_BIG: u32 = 0x8037_1240;

/// Magic word of a header stored in Little order.
pub const MAGIC_LITTLE: u32 = 0x4012_3780;

/// Magic word of a header stored in Mixed order.
pub const MAGIC_MIXED: u32 = 0x3780_4012;

/// What reading a header failed on.
#[derive(Clone, Copy, Debug, PartialEq, Eq, Structural)]
pub enum Error {
    /// Fewer bytes (given) than the header holds.
    UnexpectedEof(usize),
    /// The magic word (given) is none of the three known ones.
    UnknownByteOrder(u32),
}

/// The byte order that a magic word announces, if it is one of the three known ones.
pub open spec fn order_of_magic(value: u32) -> Option<Endianness> {
    if value == MAGIC_BIG {
        Some(Endianness::Big)
    } else if value == MAGIC_LITTLE {
        Some(Endianness::Little)
    } else if value == MAGIC_MIXED {
        Some(Endianness::Mixed)
    } else {
        None
    }
}

/// What classifying the leading bytes `s` gives.
pub open spec fn classify(s: Seq<u8>) -> Result<Endianness, Error> {
    match order_of_magic(be_u32(s)) {
        Some(order) => Ok(order),
        None => Err(Error::UnknownByteOrder(be_u32(s))),
    }
}

/// Data whose magic word is the canonical one is classified as Big, and once
/// converted to another order it is classified as that order.
pub proof fn lemma_classify_converted(s: Seq<u8>, order: Endianness)
    requires
        s.len() >= 4,
        be_u32(s) == MAGIC_BIG,
    ensures
        classify(s) == Ok::<Endianness, Error>(Endianness::Big),
        classify(convert_seq(s, Endianness::Big, order)) == Ok::<Endianness, Error>(order),
{
    let (b0, b1, b2, b3) = (s[0], s[1], s[2], s[3]);
    assert(b0 == 0x80 && b1 == 0x37 && b2 == 0x12 && b3 == 0x40) by (bit_vector)
        requires
            ((b0 as u32) << 24u32 | (b1 as u32) << 16u32 | (b2 as u32) << 8u32 | (b3 as u32))
                == 0x8037_1240u32,
    ;
    assert(((0x40u8 as u32) << 24u32 | (0x12u8 as u32) << 16u32 | (0x37u8 as u32) << 8u32
        | (0x80u8 as u32)) == 0x4012_3780u32) by (bit_vector);
    assert(((0x37u8 as u32) << 24u32 | (0x80u8 as u32) << 16u32 | (0x40u8 as u32) << 8u32
        | (0x12u8 as u32)) == 0x3780_4012u32) by (bit_vector);
    let t = convert_seq(s, Endianness::Big, order);
    assert(t[0] == s[swap_index(Endianness::Big, order, 0)]);
    assert(t[1] == s[swap_index(Endianness::Big, order, 1)]);
    assert(t[2] == s[swap_index(Endianness::Big, order, 2)]);
    assert(t[3] == s[swap_index(Endianness::Big, order, 3)]);
}

/// The four leading bytes that announce `order`.
pub open spec fn magic_bytes(order: Endianness) -> Seq<u8> {
    match order {
        Endianness::Big => seq![0x80u8, 0x37u8, 0x12u8, 0x40u8],
        Endianness::Little => seq![0x40u8, 0x12u8, 0x37u8, 0x80u8],
        Endianness::Mixed => seq![0x37u8, 0x80u8, 0x40u8, 0x12u8],
    }
}

/// Leading bytes are classified as `order` exactly when they are the magic
/// bytes of that order.
pub proof fn lemma_magic_bytes(s: Seq<u8>, order: Endianness)
    requires
        s.len() >= 4,
    ensures
        classify(s) == Ok::<Endianness, Error>(order) <==> s.subrange(0, 4) == magic_bytes(order),
{
    let (b0, b1, b2, b3) = (s[0], s[1], s[2], s[3]);
    let w = be_word(b0, b1, b2, b3);
    assert(w == 0x8037_1240u32 <==> (b0 == 0x80 && b1 == 0x37 && b2 == 0x12 && b3 == 0x40))
        by (bit_vector)
        requires
            w == (b0 as u32) << 24u32 | (b1 as u32) << 16u32 | (b2 as u32) << 8u32 | (b3 as u32),
    ;
    assert(w == 0x4012_3780u32 <==> (b0 == 0x40 && b1 == 0x12 && b2 == 0x37 && b3 == 0x80))
        by (bit_vector)
        requires
            w == (b0 as u32) << 24u32 | (b1 as u32) << 16u32 | (b2 as u32) << 8u32 | (b3 as u32),
    ;
    assert(w == 0x3780_4012u32 <==> (b0 == 0x37 && b1 == 0x80 && b2 == 0x40 && b3 == 0x12))
        by (bit_vector)
        requires
            w == (b0 as u32) << 24u32 | (b1 as u32) << 16u32 | (b2 as u32) << 8u32 | (b3 as u32),
    ;
    if s.subrange(0, 4) == magic_bytes(order) {
        assert(s[0] == s.subrange(0, 4)[0] && s[1] == s.subrange(0, 4)[1] && s[2] == s.subrange(0, 4)[2]
            && s[3] == s.subrange(0, 4)[3]);
    }
    if classify(s) == Ok::<Endianness, Error>(order) {
        assert(s.subrange(0, 4) =~= magic_bytes(order));
    }
}

/// Data classified as `from`, once converted to `to`, is classified as `to`.
pub proof fn lemma_classify_after_convert(s: Seq<u8>, from: Endianness, to: Endianness)
    requires
        s.len() >= 4,
        classify(s) == Ok::<Endianness, Error>(from),
    ensures
        classify(convert_seq(s, from, to)) == Ok::<Endianness, Error>(to),
{
    let t = convert_seq(s, from, to);
    lemma_magic_bytes(s, from);
    assert(s[0] == s.subrange(0, 4)[0] && s[1] == s.subrange(0, 4)[1] && s[2] == s.subrange(0, 4)[2]
        && s[3] == s.subrange(0, 4)[3]);
    assert(t[0] == s[swap_index(from, to, 0)]);
    assert(t[1] == s[swap_index(from, to, 1)]);
    assert(t[2] == s[swap_index(from, to, 2)]);
    assert(t[3] == s[swap_index(from, to, 3)]);
    assert(t.subrange(0, 4) =~= magic_bytes(to));
    lemma_magic_bytes(t, to);
}

/// The first four bytes of a header: the magic word, which also sets the
/// cartridge bus timing registers.
#[derive(Clone, Copy, Debug)]
pub struct Magic(pub [u8; 4]);

/// The media format of a ROM, four bytes.
#[derive(Clone, Copy, Debug)]
pub struct Media(pub [u8; 4]);

/// Relies on std's `str::from_utf8`: the bytes as text exactly when they are
/// valid UTF-8.
pub assume_specification<'a>[ core::str::from_utf8 ](v: &'a [u8]) -> (r: Result<
    &'a str,
    core::str::Utf8Error,
>)
    ensures
        r is Ok <==> vstd::utf8::valid_utf8(v@),
        r is Ok ==> r->Ok_0.spec_bytes() == v@,
;

/// The standard library's UTF-8 decoding error.
#[verifier::external_type_specification]
#[verifier::external_body]
pub struct ExUtf8Error(core::str::Utf8Error);

impl Magic {
    /// Size of the magic word in bytes.
    pub const SIZE: usize = 4;

    /// The canonical magic word, as stored in Big order.
    pub fn new() -> (r: Magic)
        ensures
            be_u32(r.0@) == MAGIC_BIG,
            r.0@ == seq![0x80u8, 0x37u8, 0x12u8, 0x40u8],
    {
        let r = Magic([128, 55, 18, 64]);
        assert(((0x80u8 as u32) << 24u32 | (0x37u8 as u32) << 16u32 | (0x12u8 as u32) << 8u32
            | (0x40u8 as u32)) == 0x8037_1240u32) by (bit_vector);
        assert(r.0@ =~= seq![0x80u8, 0x37u8, 0x12u8, 0x40u8]);
        r
    }

    /// The magic word made of the first four bytes of `bytes`.
    pub fn from(bytes: &[u8]) -> (r: Magic)
        requires
            bytes@.len() >= 4,
        ensures
            r.0@ == bytes@.subrange(0, 4),
    {
        let r = Magic([bytes[0], bytes[1], bytes[2], bytes[3]]);
        assert(r.0@ =~= bytes@.subrange(0, 4));
        r
    }

    /// The byte order announced by the first four bytes of `data`.
    pub fn infer_byte_order(data: &[u8]) -> (r: Result<Endianness, Error>)
        requires
            data@.len() >= 4,
        ensures
            r == classify(data@),
    {
        let value = read_be_u32(data);
        match value {
            0x8037_1240 => Ok(Endianness::Big),
            0x4012_3780 => Ok(Endianness::Little),
            0x3780_4012 => Ok(Endianness::Mixed),
            _ => Err(Error::UnknownByteOrder(value)),
        }
    }

    /// The byte order this magic word announces.
    pub fn byte_order(&self) -> (r: Result<Endianness, Error>)
        ensures
            r == classify(self.0@),
    {
        Magic::infer_byte_order(&self.0)
    }

    /// The magic word as a big-endian value.
    pub fn to_u32(&self) -> (r: u32)
        ensures
            r == be_u32(self.0@),
    {
        read_be_u32(&self.0)
    }

    /// Bus latency register (first byte).
    pub fn device_latency(&self) -> (r: u8)
        ensures
            r == self.0[0],
    {
        self.0[0]
    }

    /// Bus page size register (third byte).
    pub fn device_page_size(&self) -> (r: u8)
        ensures
            r == self.0[2],
    {
        self.0[2]
    }

    /// Bus read/write pulse width register (second byte).
    pub fn device_rw_pulse_width(&self) -> (r: u8)
        ensures
            r == self.0[1],
    {
        self.0[1]
    }

    /// Bus read/write release duration register (fourth byte).
    pub fn device_rw_release_duration(&self) -> (r: u8)
        ensures
            r == self.0[3],
    {
        self.0[3]
    }
}

impl Media {
    /// The four bytes as text, where they are valid UTF-8.
    pub fn as_str(&self) -> (r: Result<&str, core::str::Utf8Error>)
        ensures
            r is Ok <==> vstd::utf8::valid_utf8(self.0@),
            r is Ok ==> r->Ok_0.spec_bytes() == self.0@,
    {
        core::str::from_utf8(&self.0)
    }

    /// The four bytes, each read as a character.
    pub fn chars(&self) -> (r: (char, char, char, char))
        ensures
            r == (self.0[0] as char, self.0[1] as char, self.0[2] as char, self.0[3] as char),
    {
        (self.0[0] as char, self.0[1] as char, self.0[2] as char, self.0[3] as char)
    }

    /// The four bytes.
    pub fn values(&self) -> (r: (u8, u8, u8, u8))
        ensures
            r == (self.0[0], self.0[1], self.0[2], self.0[3]),
    {
        (self.0[0], self.0[1], self.0[2], self.0[3])
    }
}

/// The fixed 64-byte record at the start of a ROM, as read in Big order.
#[derive(Clone, Copy, Debug)]
pub struct Header {
    /// Magic number and bus timing registers.
    pub magic: Magic,
    /// Unused by the boot loader and the OS.
    pub clock_rate: u32,
    /// Executable start address.
    pub entry_point: u32,
    /// Unused by the boot loader and the OS.
    pub release: u32,
    /// First boot checksum.
    pub crc1: u32,
    /// Second boot checksum.
    pub crc2: u32,
    pub _reserved_1: [u8; 8],
    /// ROM name.
    pub name: [u8; 20],
    pub _reserved_2: [u8; 7],
    /// Media format and region.
    pub media: Media,
    pub _reserved_3: u8,
}

/// The `N` bytes of `data` from `start` on.
fn array_at<const N: usize>(data: &[u8], start: usize) -> (r: [u8; N])
    requires
        start + N <= data@.len(),
    ensures
        r@ == data@.subrange(start as int, start + N),
{
    let mut r = [0u8; N];
    let mut i: usize = 0;
    while i < N
        invariant
            i <= N,
            start + N <= data@.len(),
            data@.len() == data.len(),
            r@.len() == N,
            forall|j: int| 0 <= j < i ==> r@[j] == data@[start + j],
        decreases N - i,
    {
        r[i] = data[start + i];
        i = i + 1;
    }
    assert(r@ =~= data@.subrange(start as int, start + N));
    r
}

/// The word stored big-endian at `start` in `data`.
fn word_at(data: &[u8], start: usize) -> (r: u32)
    requires
        start + 4 <= data@.len(),
    ensures
        be_bytes(r) == data@.subrange(start as int, start + 4),
{
    let w: [u8; 4] = array_at(data, start);
    let r = read_be_u32(&w);
    proof {
        lemma_be_word_bytes(w@[0], w@[1], w@[2], w@[3]);
        assert(w@ =~= seq![w@[0], w@[1], w@[2], w@[3]]);
    }
    r
}

/// Appends the bytes of `src` to `out`.
fn append_bytes(out: &mut Vec<u8>, src: &[u8])
    ensures
        final(out)@ == old(out)@ + src@,
{
    let mut i: usize = 0;
    while i < src.len()
        invariant
            i <= src@.len(),
            out@ == old(out)@ + src@.subrange(0, i as int),
        decreases src@.len() - i,
    {
        out.push(src[i]);
        i = i + 1;
        assert(src@.subrange(0, i as int) =~= src@.subrange(0, i - 1) + seq![src@[i - 1]]);
    }
    assert(src@.subrange(0, src@.len() as int) =~= src@);
}

/// Appends `n` to `out` as four bytes, most significant first.
fn append_word(out: &mut Vec<u8>, n: u32)
    ensures
        final(out)@ == old(out)@ + be_bytes(n),
{
    let mut w = [0u8; 4];
    write_be_u32(&mut w, n);
    assert(w@ =~= be_bytes(n));
    append_bytes(out, &w);
}

impl Header {
    /// Size of the header in bytes.
    pub const SIZE: usize = 0x40;

    /// The 64 bytes of the header, in Big order.
    pub open spec fn bytes(self) -> Seq<u8> {
        self.magic.0@ + be_bytes(self.clock_rate) + be_bytes(self.entry_point) + be_bytes(
            self.release,
        ) + be_bytes(self.crc1) + be_bytes(self.crc2) + self._reserved_1@ + self.name@
            + self._reserved_2@ + self.media.0@ + seq![self._reserved_3]
    }

    /// The two stored boot checksums.
    pub fn crcs(&self) -> (r: (u32, u32))
        ensures
            r == (self.crc1, self.crc2),
    {
        (self.crc1, self.crc2)
    }

    /// The magic word.
    pub fn magic(&self) -> (r: &Magic)
        ensures
            *r == self.magic,
    {
        &self.magic
    }

    /// The media format.
    pub fn media(&self) -> (r: &Media)
        ensures
            *r == self.media,
    {
        &self.media
    }

    /// The ROM name as bytes.
    pub fn name(&self) -> (r: &[u8; 20])
        ensures
            *r == self.name,
    {
        &self.name
    }

    /// The ROM name as text, where it is valid UTF-8.
    pub fn name_str(&self) -> (r: Result<&str, core::str::Utf8Error>)
        ensures
            r is Ok <==> vstd::utf8::valid_utf8(self.name@),
            r is Ok ==> r->Ok_0.spec_bytes() == self.name@,
    {
        core::str::from_utf8(&self.name)
    }

    /// Reads a header, stored in Big order, from the first 64 bytes of `data`.
    pub fn read(data: &[u8]) -> (r: Result<Header, Error>)
        ensures
            r is Ok <==> data@.len() >= Header::SIZE,
            r is Ok ==> r->Ok_0.bytes() == data@.subrange(0, Header::SIZE as int),
            r is Err ==> r == Err::<Header, Error>(Error::UnexpectedEof(data@.len() as usize)),
    {
        if data.len() < Header::SIZE {
            return Err(Error::UnexpectedEof(data.len()));
        }
        let magic: [u8; 4] = array_at(data, 0);
        let header = Header {
            magic: Magic(magic),
            clock_rate: word_at(data, 4),
            entry_point: word_at(data, 8),
            release: word_at(data, 12),
            crc1: word_at(data, 16),
            crc2: word_at(data, 20),
            _reserved_1: array_at(data, 24),
            name: array_at(data, 32),
            _reserved_2: array_at(data, 52),
            media: Media(array_at(data, 59)),
            _reserved_3: data[63],
        };
        assert(header.bytes() =~= data@.subrange(0, Header::SIZE as int));
        Ok(header)
    }

    /// Reads a header from the first 64 bytes of `data`, which may be stored in
    /// any of the three orders; the magic word tells which.
    pub fn read_ordered(data: &[u8]) -> (r: Result<(Header, Endianness), Error>)
        ensures
            data@.len() < Header::SIZE ==> r == Err::<(Header, Endianness), Error>(
                Error::UnexpectedEof(data@.len() as usize),
            ),
            data@.len() >= Header::SIZE ==> match classify(data@) {
                Ok(order) => r is Ok && r->Ok_0.1 == order && r->Ok_0.0.bytes() == convert_seq(
                    data@.subrange(0, Header::SIZE as int),
                    order,
                    Endianness::Big,
                ),
                Err(e) => r == Err::<(Header, Endianness), Error>(e),
            },
    {
        if data.len() < Header::SIZE {
            return Err(Error::UnexpectedEof(data.len()));
        }
        let order = Magic::infer_byte_order(data)?;
        let mut buf: [u8; 64] = array_at(data, 0);
        let converted = convert::convert(&mut buf, order, Endianness::Big);
        assert(converted is Ok);
        let header = Header::read(&buf)?;
        Ok((header, order))
    }

    /// Appends the 64 header bytes, in Big order, to `out`; returns their number.
    pub fn write(&self, out: &mut Vec<u8>) -> (r: usize)
        ensures
            final(out)@ == old(out)@ + self.bytes(),
            r == Header::SIZE,
    {
        let ghost start = out@;
        append_bytes(out, &self.magic.0);
        append_word(out, self.clock_rate);
        append_word(out, self.entry_point);
        append_word(out, self.release);
        append_word(out, self.crc1);
        append_word(out, self.crc2);
        append_bytes(out, &self._reserved_1);
        append_bytes(out, &self.name);
        append_bytes(out, &self._reserved_2);
        append_bytes(out, &self.media.0);
        out.push(self._reserved_3);
        assert(out@ =~= start + self.bytes());
        Header::SIZE
    }

    /// A header for a new ROM in Big order: its entry point is moved as the
    /// loader `ipl3` needs, and its checksums are those of `program` and `fs`.
    ///
    /// `name` gives the first 20 bytes of the name and `media` the first four
    /// bytes of the media format.
    pub fn new(entry_point: u32, name: &str, media: &[u8], program: &[u8], fs: &[u8], ipl3: &IPL3) -> (r: Header)
        requires
            name.spec_bytes().len() >= 20,
            media@.len() >= 4,
        ensures
            r.magic.0@ == seq![0x80u8, 0x37u8, 0x12u8, 0x40u8],
            r.clock_rate == 15,
            r.entry_point == u32_specs::wrapping_add(entry_point, ipl3.entry_offset()),
            r.release == 0,
            (r.crc1, r.crc2) == ipl3.checksums(program@, fs@),
            r._reserved_1@ == Seq::new(8, |i: int| 0u8),
            r.name@ == name.spec_bytes().subrange(0, 20),
            r._reserved_2@ == Seq::new(7, |i: int| 0u8),
            r.media.0@ == media@.subrange(0, 4),
            r._reserved_3 == 0,
    {
        let (crc1, crc2) = ipl3.compute_crcs(program, fs);
        let name_bytes = name.as_bytes();
        let header = Header {
            magic: Magic::new(),
            clock_rate: 15,
            entry_point: ipl3.offset(entry_point),
            release: 0,
            crc1,
            crc2,
            _reserved_1: [0u8; 8],
            name: array_at(name_bytes, 0),
            _reserved_2: [0u8; 7],
            media: Media(array_at(media, 0)),
            _reserved_3: 0,
        };
        assert(header._reserved_1@ =~= Seq::new(8, |i: int| 0u8));
        assert(header._reserved_2@ =~= Seq::new(7, |i: int| 0u8));
        header
    }
}

} // verus!
