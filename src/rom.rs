//! A whole ROM image: header, boot loader and payload, in a known byte order.

use vstd::prelude::*;

pub use crate::bytes::Endianness;
use crate::convert::{self, convert_seq, lemma_convert_involution, lemma_convert_subrange, ConvertStatus};
use crate::header::{self, classify, lemma_classify_after_convert, Header};
use crate::ipl3::{crc32_of, IPL3, IPL_SIZE};
use crate::stream::{Reader, Writer, BUFFER_SIZE};

verus! {

/// Size of the header and the boot loader: the offset where the payload begins.
pub const HEAD_SIZE: usize = Header::SIZE + IPL_SIZE;

/// Largest ROM size expected (64 MiB).
pub const MAX_SIZE: usize = 1024 * 1024 * 64;

/// What reading or writing a ROM failed on.
#[derive(Clone, Copy, Debug, PartialEq, Eq, Structural)]
pub enum Error {
    /// The header could not be read, or its byte order is unknown.
    HeaderError(header::Error),
    /// Data could not be converted between byte orders.
    ConvertError(convert::Error),
    /// Fewer bytes (given) than a header and a boot loader take.
    UnexpectedEof(usize),
    /// The operation needs data in another byte order than the one given.
    UnsupportedEndianness(Endianness),
}

/// A ROM image with its parsed header and boot loader.
#[derive(Clone, Debug)]
pub struct Rom {
    /// The header, in Big order.
    pub header: Header,
    /// The boot loader, in Big order.
    pub ipl3: IPL3,
    /// The full image, stored in `order`.
    pub image: Vec<u8>,
    /// Byte order of `image`.
    pub order: Endianness,
}

impl Rom {
    /// The image holds a header and a boot loader, its magic word announces
    /// its order, and it can be converted whenever it is not in Big order.
    pub open spec fn wf(&self) -> bool {
        &&& self.image@.len() >= HEAD_SIZE
        &&& classify(self.image@) == Ok::<Endianness, header::Error>(self.order)
        &&& self.order != Endianness::Big ==> self.image@.len() % 4 == 0
    }

    /// The payload (what follows the boot loader), in Big order.
    pub open spec fn payload(&self) -> Seq<u8> {
        convert_seq(self.image@.subrange(HEAD_SIZE as int, self.image@.len() as int), self.order, Endianness::Big)
    }

    /// Whether the stored checksums are right, and the right ones.
    pub open spec fn crc_check(&self) -> (bool, (u32, u32)) {
        let calc = self.ipl3.checksums(self.payload(), Seq::empty());
        ((self.header.crc1, self.header.crc2) == calc, calc)
    }

    /// The ROM with its stored checksums set to the right ones.
    pub open spec fn corrected(self) -> Rom {
        let calc = self.crc_check().1;
        Rom { header: Header { crc1: calc.0, crc2: calc.1, ..self.header }, ..self }
    }

    /// Checks the stored checksums against those of the payload; returns
    /// whether they match, and the computed pair.
    pub fn check_crc(&self) -> (r: (bool, (u32, u32)))
        requires
            self.wf(),
        ensures
            r == self.crc_check(),
    {
        let crcs = self.header.crcs();
        let empty: [u8; 0] = [];
        let calc = if self.order == Endianness::Big {
            let data = self.data();
            assert(data@ =~= self.payload());
            self.ipl3.compute_crcs(data, &empty)
        } else {
            let mut payload = vstd::slice::slice_to_vec(self.data());
            let status = convert::convert(payload.as_mut_slice(), self.order, Endianness::Big);
            assert(status is Ok);
            self.ipl3.compute_crcs(payload.as_slice(), &empty)
        };
        assert(empty@ =~= Seq::<u8>::empty());
        let result = crcs.0 == calc.0 && crcs.1 == calc.1;
        (result, calc)
    }

    /// Sets the stored checksums to the computed ones where they differ;
    /// returns whether they were right already.
    pub fn correct_crc(&mut self) -> (r: bool)
        requires
            old(self).wf(),
        ensures
            final(self).wf(),
            r == old(self).crc_check().0,
            *final(self) == old(self).corrected(),
            r ==> *final(self) == *old(self),
    {
        let (result, (calc1, calc2)) = self.check_crc();
        if result {
            result
        } else {
            self.header.crc1 = calc1;
            self.header.crc2 = calc2;
            result
        }
    }

    /// The payload as stored, not including header or boot loader.
    pub fn data(&self) -> (r: &[u8])
        requires
            self.wf(),
        ensures
            r@ == self.image@.subrange(HEAD_SIZE as int, self.image@.len() as int),
    {
        let (_head, rest) = self.image.as_slice().split_at(HEAD_SIZE);
        rest
    }

    /// The full image as stored.
    pub fn full(&self) -> (r: &[u8])
        ensures
            r@ == self.image@,
    {
        self.image.as_slice()
    }

    /// The byte order of the image.
    pub fn order(&self) -> (r: Endianness)
        ensures
            r == self.order,
    {
        self.order
    }

    /// Size of the image in bytes.
    pub fn len(&self) -> (r: usize)
        ensures
            r == self.image@.len(),
    {
        self.image.len()
    }

    /// Whether the image is empty.
    pub fn is_empty(&self) -> (r: bool)
        ensures
            r == (self.image@.len() == 0),
    {
        self.len() == 0
    }

    /// A ROM made of its parts.
    pub fn from(header: Header, ipl3: IPL3, image: Vec<u8>, order: Endianness) -> (r: Rom)
        requires
            image@.len() >= HEAD_SIZE,
            classify(image@) == Ok::<Endianness, header::Error>(order),
            order != Endianness::Big ==> image@.len() % 4 == 0,
        ensures
            r.wf(),
            r == (Rom { header, ipl3, image, order }),
    {
        Rom { header, ipl3, image, order }
    }

    /// The full image as stored, to be changed in place; the caller keeps the
    /// image consistent with the recorded order.
    pub fn full_mut(&mut self) -> (r: &mut [u8])
        ensures
            r@ == old(self).image@,
            final(self).image@ == final(r)@,
            final(self).header == old(self).header,
            final(self).ipl3 == old(self).ipl3,
            final(self).order == old(self).order,
    {
        self.image.as_mut_slice()
    }

    /// The payload as stored, to be changed in place.
    pub fn data_mut(&mut self) -> (r: &mut [u8])
        requires
            old(self).wf(),
        ensures
            r@ == old(self).image@.subrange(HEAD_SIZE as int, old(self).image@.len() as int),
            final(self).image@ == old(self).image@.subrange(0, HEAD_SIZE as int) + final(r)@,
            final(self).header == old(self).header,
            final(self).ipl3 == old(self).ipl3,
            final(self).order == old(self).order,
    {
        let (_head, rest) = self.image.as_mut_slice().split_at_mut(HEAD_SIZE);
        rest
    }

    /// Reads a ROM with all its data.
    pub fn read(data: &[u8]) -> (r: Result<Rom, Error>)
        ensures
            Rom::read_spec(data@, true, r),
    {
        Rom::read_with_body(data, true)
    }

    /// `r` is what reading `data` gives: each failure with the inputs that
    /// cause it, and success, described by `read_result`, on all others.
    pub open spec fn read_spec(data: Seq<u8>, read_body: bool, r: Result<Rom, Error>) -> bool {
        let len = data.len();
        if len < Header::SIZE {
            r == Err::<Rom, Error>(Error::HeaderError(header::Error::UnexpectedEof(len as usize)))
        } else if classify(data) is Err {
            r == Err::<Rom, Error>(Error::HeaderError(classify(data)->Err_0))
        } else if len < HEAD_SIZE {
            r == Err::<Rom, Error>(Error::UnexpectedEof(len as usize))
        } else if read_body && len % 4 != 0 {
            r == Err::<Rom, Error>(Error::ConvertError(convert::Error::AlignmentError(len as usize)))
        } else {
            r is Ok && Rom::read_result(data, read_body, r->Ok_0)
        }
    }

    /// `rom` is what reading `data` (stored in the order its magic word
    /// announces) gives: header and boot loader converted to Big order, the
    /// loader recognised by its CRC-32, and the image kept as stored.
    pub open spec fn read_result(data: Seq<u8>, read_body: bool, rom: Rom) -> bool {
        let order = classify(data)->Ok_0;
        let big = convert_seq(data.subrange(0, HEAD_SIZE as int), order, Endianness::Big);
        &&& rom.wf()
        &&& rom.order == order
        &&& rom.header.bytes() == big.subrange(0, Header::SIZE as int)
        &&& rom.ipl3.image()@ == big.subrange(Header::SIZE as int, HEAD_SIZE as int)
        &&& rom.ipl3 == IPL3::identified(rom.ipl3.image(), crc32_of(rom.ipl3.image()@))
        &&& rom.image@ == if read_body {
            data
        } else {
            data.subrange(0, HEAD_SIZE as int)
        }
    }

    /// Reads a ROM stored in any of the three orders: the header first, whose
    /// magic word gives the order, then the boot loader through a `Reader` of
    /// that order; the image is kept as stored, whole or (without `read_body`)
    /// up to the end of the boot loader.
    pub fn read_with_body(data: &[u8], read_body: bool) -> (r: Result<Rom, Error>)
        ensures
            Rom::read_spec(data@, read_body, r),
    {
        let (header, order) = match Header::read_ordered(data) {
            Ok(pair) => pair,
            Err(e) => {
                return Err(Error::HeaderError(e));
            },
        };
        if data.len() < HEAD_SIZE {
            return Err(Error::UnexpectedEof(data.len()));
        }
        if read_body && data.len() % 4 != 0 {
            return Err(Error::ConvertError(convert::Error::AlignmentError(data.len())));
        }
        let (head, _body) = data.split_at(HEAD_SIZE);
        let (_header_bytes, region) = head.split_at(Header::SIZE);
        let mut reader = Reader::from(region, order);
        let mut ipl = vec![0u8; IPL_SIZE];
        let read = reader.read(ipl.as_mut_slice());
        assert(region@.len() == IPL_SIZE);
        assert(read is Ok);
        assert(ipl@.subrange(0, IPL_SIZE as int) == convert_seq(region@, order, Endianness::Big).subrange(0, IPL_SIZE as int));
        assert(ipl@ =~= ipl@.subrange(0, IPL_SIZE as int));
        assert(convert_seq(region@, order, Endianness::Big) =~= convert_seq(region@, order, Endianness::Big).subrange(0, IPL_SIZE as int));
        let ipl3 = match IPL3::read(ipl.as_slice()) {
            Ok(v) => v,
            Err(_) => {
                return Err(Error::UnexpectedEof(data.len()));
            },
        };
        let image = if read_body {
            vstd::slice::slice_to_vec(data)
        } else {
            vstd::slice::slice_to_vec(head)
        };
        proof {
            let whole = data@.subrange(0, HEAD_SIZE as int);
            lemma_convert_subrange(whole, order, Endianness::Big, 0, Header::SIZE as int);
            lemma_convert_subrange(whole, order, Endianness::Big, Header::SIZE as int, HEAD_SIZE as int);
            assert(whole.subrange(0, Header::SIZE as int) =~= data@.subrange(0, Header::SIZE as int));
            assert(region@ =~= whole.subrange(Header::SIZE as int, HEAD_SIZE as int));
            assert(ipl@ =~= convert_seq(region@, order, Endianness::Big));
            lemma_classify_prefix(data@, HEAD_SIZE as int);
        }
        let rom = Rom { header, ipl3, image, order };
        assert(Rom::read_result(data@, read_body, rom));
        Ok(rom)
    }

    /// Takes a ROM image stored in Big order, without copying it.
    pub fn from_image(image: Vec<u8>) -> (r: Result<Rom, Error>)
        ensures
            image@.len() < HEAD_SIZE ==> r == Err::<Rom, Error>(Error::UnexpectedEof(image@.len() as usize)),
            image@.len() >= HEAD_SIZE ==> match classify(image@) {
                Err(e) => r == Err::<Rom, Error>(Error::HeaderError(e)),
                Ok(order) => if order != Endianness::Big {
                    r == Err::<Rom, Error>(Error::UnsupportedEndianness(order))
                } else {
                    &&& r is Ok
                    &&& r->Ok_0.wf()
                    &&& r->Ok_0.order == Endianness::Big
                    &&& r->Ok_0.image@ == image@
                    &&& r->Ok_0.header.bytes() == image@.subrange(0, Header::SIZE as int)
                    &&& r->Ok_0.ipl3.image()@ == image@.subrange(Header::SIZE as int, HEAD_SIZE as int)
                    &&& r->Ok_0.ipl3 == IPL3::identified(r->Ok_0.ipl3.image(), crc32_of(r->Ok_0.ipl3.image()@))
                },
            },
    {
        if image.len() < HEAD_SIZE {
            return Err(Error::UnexpectedEof(image.len()));
        }
        let (header, order) = match Header::read_ordered(image.as_slice()) {
            Ok(pair) => pair,
            Err(e) => {
                return Err(Error::HeaderError(e));
            },
        };
        if order != Endianness::Big {
            return Err(Error::UnsupportedEndianness(order));
        }
        let (_header_bytes, rest) = image.as_slice().split_at(Header::SIZE);
        let ipl3 = match IPL3::read(rest) {
            Ok(v) => v,
            Err(_) => {
                return Err(Error::UnexpectedEof(image.len()));
            },
        };
        proof {
            assert(convert_seq(image@.subrange(0, Header::SIZE as int), order, Endianness::Big)
                =~= image@.subrange(0, Header::SIZE as int));
            assert(rest@.subrange(0, IPL_SIZE as int) =~= image@.subrange(Header::SIZE as int, HEAD_SIZE as int));
        }
        Ok(Rom::from(header, ipl3, image, order))
    }

    /// The image in the order `endianness` (its own order where none is given):
    /// header and boot loader as they are recorded, then the payload, all
    /// passed through a `Writer` of that order.
    ///
    /// The image length must be a multiple of four.
    pub fn write(&self, endianness: Option<Endianness>) -> (r: Result<Vec<u8>, Error>)
        requires
            self.wf(),
        ensures
            r is Ok <==> self.image@.len() % 4 == 0,
            r is Ok ==> r->Ok_0@ == convert_seq(
                self.header.bytes() + self.ipl3.image()@ + self.payload(),
                Endianness::Big,
                match endianness {
                    Some(e) => e,
                    None => self.order,
                },
            ),
            r is Err ==> r == Err::<Vec<u8>, Error>(Error::ConvertError(
                convert::Error::AlignmentError((self.image@.len() % (BUFFER_SIZE as nat)) as usize),
            )),
    {
        let order = match endianness {
            Some(e) => e,
            None => self.order,
        };
        let mut writer = Writer::from(order);
        let mut head: Vec<u8> = Vec::new();
        self.header.write(&mut head);
        self.ipl3.write(&mut head);
        writer.write(head.as_slice());
        let ghost expected = self.header.bytes() + self.ipl3.image()@ + self.payload();
        if self.order == Endianness::Big {
            let data = self.data();
            assert(data@ =~= self.payload());
            writer.write(data);
        } else {
            let mut payload = vstd::slice::slice_to_vec(self.data());
            let status = convert::convert(payload.as_mut_slice(), self.order, Endianness::Big);
            assert(status is Ok);
            writer.write(payload.as_slice());
        }
        assert(writer@.data =~= expected);
        let ghost pending = writer@;
        match writer.flush() {
            Ok(()) => {
                assert(writer@.data.subrange(0, writer@.flushed as int) =~= expected);
                let out = writer.into_inner();
                Ok(out)
            },
            Err(e) => {
                proof {
                    lemma_last_block(expected.len() as int, pending.flushed as int);
                }
                Err(Error::ConvertError(e))
            },
        }
    }

    /// Converts the image to `target` in place and records the new order.
    ///
    /// Its length must be a multiple of four, whatever the two orders; on
    /// failure the ROM is left as it was.
    pub fn convert(&mut self, target: Endianness) -> (r: Result<ConvertStatus, convert::Error>)
        requires
            old(self).wf(),
        ensures
            final(self).wf(),
            r is Ok <==> old(self).image@.len() % 4 == 0,
            r is Ok ==> final(self).image@ == convert_seq(old(self).image@, old(self).order, target)
                && final(self).order == target && final(self).header == old(self).header
                && final(self).ipl3 == old(self).ipl3
                && (r->Ok_0 == ConvertStatus::AlreadyConverted <==> old(self).order == target),
            r is Err ==> final(self).image@ == old(self).image@ && final(self).order == old(self).order
                && final(self).header == old(self).header && final(self).ipl3 == old(self).ipl3
                && r == Err::<ConvertStatus, convert::Error>(
                convert::Error::AlignmentError(old(self).image@.len() as usize),
            ),
    {
        let order = self.order;
        let ghost before = self.image@;
        let status = convert::convert(self.image.as_mut_slice(), order, target);
        match status {
            Ok(s) => {
                proof {
                    lemma_classify_after_convert(before, order, target);
                }
                self.order = target;
                Ok(s)
            },
            Err(e) => {
                assert(self.image@ =~= before);
                Err(e)
            },
        }
    }
}

/// Of `total` bytes written through a default-sized `Writer` that has handed
/// whole buffers to its output, what stays buffered is `total % BUFFER_SIZE`
/// unless `total` is a multiple of four.
proof fn lemma_last_block(total: int, flushed: int)
    requires
        0 <= flushed <= total,
        total - flushed <= BUFFER_SIZE,
        flushed % (BUFFER_SIZE as int) == 0,
        total % 4 != 0,
    ensures
        total - flushed == total % (BUFFER_SIZE as int),
{
    vstd::arithmetic::div_mod::lemma_fundamental_div_mod(flushed, BUFFER_SIZE as int);
    let k = flushed / (BUFFER_SIZE as int);
    assert(flushed == 16384 * k);
    assert(total - flushed != BUFFER_SIZE);
    vstd::arithmetic::div_mod::lemma_mod_multiples_vanish(k, total - flushed, BUFFER_SIZE as int);
    vstd::arithmetic::div_mod::lemma_small_mod((total - flushed) as nat, BUFFER_SIZE as nat);
}

/// Leading bytes classify the same in any longer data.
proof fn lemma_classify_prefix(s: Seq<u8>, n: int)
    requires
        4 <= n <= s.len(),
    ensures
        classify(s.subrange(0, n)) == classify(s),
{
}

/// Once corrected, a ROM's checksums match; correcting it again changes
/// nothing, and the first correction changes it exactly when they did not match.
pub proof fn lemma_correct_idempotent(rom: Rom)
    requires
        rom.wf(),
    ensures
        rom.corrected().wf(),
        rom.corrected().crc_check().0,
        rom.corrected().corrected() == rom.corrected(),
        rom.corrected() == rom <==> rom.crc_check().0,
{
    assert(rom.corrected().payload() == rom.payload());
}

/// Converting a ROM image from its order to Big order and back gives the bytes
/// it started from, and the magic word announces Big order in between.
pub proof fn lemma_convert_round_trip(image: Seq<u8>, order: Endianness)
    requires
        image.len() >= HEAD_SIZE,
        image.len() % 4 == 0,
        classify(image) == Ok::<Endianness, header::Error>(order),
    ensures
        classify(convert_seq(image, order, Endianness::Big)) == Ok::<Endianness, header::Error>(
            Endianness::Big,
        ),
        convert_seq(convert_seq(image, order, Endianness::Big), Endianness::Big, order) == image,
{
    lemma_classify_after_convert(image, order, Endianness::Big);
    lemma_convert_involution(image, order, Endianness::Big);
}

} // verus!
