//! Boot loader (IPL3) images and the two boot checksums they check.

use vstd::prelude::*;
use vstd::wrapping::u32_specs;

use crate::bytes::{be_word, read_be_u32};

verus! {

/// Size in bytes of a boot loader image.
pub const IPL_SIZE: usize = 0x0fc0;

/// Size in bytes of the program region that the checksums cover (1 MiB).
pub const PROGRAM_SIZE: usize = 1024 * 1024;

/// Number of 32-bit words that the checksums cover.
pub const PROGRAM_WORDS: usize = 0x4_0000;

/// First word of the table that the 6105 loader keeps in its own image.
pub const TABLE_START: usize = 452;

/// Number of words of that table.
pub const TABLE_WORDS: usize = 64;

/// What reading a boot loader image failed on.
#[derive(Clone, Copy, Debug, PartialEq, Eq, Structural)]
pub enum Error {
    /// Fewer bytes (given) than a boot loader image holds.
    FileSizeError(u64),
}

/// A boot loader image, tagged with the loader revision it was recognised as.
#[derive(Clone, Copy, Debug)]
pub enum IPL3 {
    Cic6101([u8; IPL_SIZE]),
    Cic6102([u8; IPL_SIZE]),
    Cic6103([u8; IPL_SIZE]),
    Cic6105([u8; IPL_SIZE]),
    Cic6106([u8; IPL_SIZE]),
    Cic7102([u8; IPL_SIZE]),
    Unknown([u8; IPL_SIZE]),
}

/// Name for the CRC-32 (IEEE) of a byte sequence.
pub uninterp spec fn crc32_of(b: Seq<u8>) -> u32;

/// Relies on crc32fast's `hash`: the CRC-32 (IEEE) of `buf`, which depends on
/// its bytes alone.
#[verifier::external_body]
fn crc32(buf: &[u8]) -> (r: u32)
    ensures
        r == crc32_of(buf@),
{
    crc32fast::hash(buf)
}

/// The six running sums of the checksum algorithm.
pub struct Accumulators {
    pub acc1: u32,
    pub acc2: u32,
    pub acc3: u32,
    pub acc4: u32,
    pub acc5: u32,
    pub acc6: u32,
}

/// `x` rotated left by `n` bit positions.
pub open spec fn rotate_left(x: u32, n: u32) -> u32 {
    if n == 0 {
        x
    } else {
        (x << n) | (x >> ((32 - n) as u32))
    }
}

/// The byte at `i` of the checksummed region: the program, one zero byte if its
/// length is odd, the filesystem, then zeros.
pub open spec fn payload_byte(program: Seq<u8>, fs: Seq<u8>, i: int) -> u8 {
    let pad = program.len() % 2;
    if i < program.len() {
        program[i]
    } else if i < program.len() + pad {
        0
    } else if i - program.len() - pad < fs.len() {
        fs[i - program.len() - pad]
    } else {
        0
    }
}

/// The big-endian word at word index `k` of the checksummed region.
pub open spec fn payload_word(program: Seq<u8>, fs: Seq<u8>, k: int) -> u32 {
    be_word(
        payload_byte(program, fs, 4 * k),
        payload_byte(program, fs, 4 * k + 1),
        payload_byte(program, fs, 4 * k + 2),
        payload_byte(program, fs, 4 * k + 3),
    )
}

/// The word of the 6105 table that step `k` uses; the table is read cyclically.
pub open spec fn table_word(image: Seq<u8>, k: int) -> u32 {
    let t = 4 * (TABLE_START + k % (TABLE_WORDS as int));
    be_word(image[t], image[t + 1], image[t + 2], image[t + 3])
}

impl IPL3 {
    /// The loader image, whatever the revision.
    pub open spec fn image(self) -> [u8; IPL_SIZE] {
        match self {
            IPL3::Cic6101(b) => b,
            IPL3::Cic6102(b) => b,
            IPL3::Cic6103(b) => b,
            IPL3::Cic6105(b) => b,
            IPL3::Cic6106(b) => b,
            IPL3::Cic7102(b) => b,
            IPL3::Unknown(b) => b,
        }
    }

    /// The value that all six accumulators start from.
    pub open spec fn seed(self) -> u32 {
        match self {
            IPL3::Cic6103(_) => 0xa388_6759,
            IPL3::Cic6105(_) => 0xdf26_f436,
            IPL3::Cic6106(_) => 0x1fea_617a,
            _ => 0xf8ca_4ddc,
        }
    }

    /// How far this loader moves the program ahead of the declared entry point.
    pub open spec fn entry_offset(self) -> u32 {
        match self {
            IPL3::Cic6103(_) => 0x0010_0000,
            IPL3::Cic6106(_) => 0x0020_0000,
            _ => 0,
        }
    }

    /// The loader image of `image` recognised by its CRC-32 `crc`.
    pub open spec fn identified(image: [u8; IPL_SIZE], crc: u32) -> IPL3 {
        if crc == 0x6170_a4a1 {
            IPL3::Cic6101(image)
        } else if crc == 0x90bb_6cb5 {
            IPL3::Cic6102(image)
        } else if crc == 0x0b05_0ee0 {
            IPL3::Cic6103(image)
        } else if crc == 0x98bc_2c86 {
            IPL3::Cic6105(image)
        } else if crc == 0xacc8_580a {
            IPL3::Cic6106(image)
        } else if crc == 0x009e_9ea3 {
            IPL3::Cic7102(image)
        } else {
            IPL3::Unknown(image)
        }
    }

    /// One step of the algorithm on word `k`, whose value is `current`.
    pub open spec fn step(self, a: Accumulators, current: u32, k: int) -> Accumulators {
        let rotated = rotate_left(current, current & 0x1f);
        let acc1 = u32_specs::wrapping_add(a.acc1, current);
        let acc2 = if acc1 < current {
            u32_specs::wrapping_add(a.acc2, 1)
        } else {
            a.acc2
        };
        let acc3 = a.acc3 ^ current;
        let acc4 = u32_specs::wrapping_add(a.acc4, rotated);
        let acc5 = if a.acc5 > current {
            a.acc5 ^ rotated
        } else {
            a.acc5 ^ (acc1 ^ current)
        };
        let x = if self is Cic6105 {
            table_word(self.image()@, k)
        } else {
            acc4
        };
        let acc6 = u32_specs::wrapping_add(a.acc6, current ^ x);
        Accumulators { acc1, acc2, acc3, acc4, acc5, acc6 }
    }

    /// The accumulators after the first `n` words of the checksummed region.
    pub open spec fn accumulate(self, program: Seq<u8>, fs: Seq<u8>, n: nat) -> Accumulators
        decreases n,
    {
        if n == 0 {
            let s = self.seed();
            Accumulators { acc1: s, acc2: s, acc3: s, acc4: s, acc5: s, acc6: s }
        } else {
            let k = (n - 1) as nat;
            self.step(self.accumulate(program, fs, k), payload_word(program, fs, k as int), k as int)
        }
    }

    /// The final pair made of the accumulators.
    pub open spec fn combine(self, a: Accumulators) -> (u32, u32) {
        match self {
            IPL3::Cic6103(_) => (
                u32_specs::wrapping_add(a.acc1 ^ a.acc2, a.acc3),
                u32_specs::wrapping_add(a.acc4 ^ a.acc5, a.acc6),
            ),
            IPL3::Cic6106(_) => (
                u32_specs::wrapping_add(u32_specs::wrapping_mul(a.acc1, a.acc2), a.acc3),
                u32_specs::wrapping_add(u32_specs::wrapping_mul(a.acc4, a.acc5), a.acc6),
            ),
            _ => (a.acc1 ^ a.acc2 ^ a.acc3, a.acc4 ^ a.acc5 ^ a.acc6),
        }
    }

    /// The two boot checksums of a program and a filesystem under this loader.
    pub open spec fn checksums(self, program: Seq<u8>, fs: Seq<u8>) -> (u32, u32) {
        self.combine(self.accumulate(program, fs, PROGRAM_WORDS as nat))
    }
}

/// `x` rotated left by `n` bit positions.
fn rotl(x: u32, n: u32) -> (r: u32)
    requires
        n < 32,
    ensures
        r == rotate_left(x, n),
{
    if n == 0 {
        x
    } else {
        (x << n) | (x >> (32 - n))
    }
}

/// The byte at `i` of the checksummed region.
fn region_byte(program: &[u8], fs: &[u8], i: usize) -> (r: u8)
    ensures
        r == payload_byte(program@, fs@, i as int),
{
    let pad = program.len() % 2;
    if i < program.len() {
        program[i]
    } else if i - program.len() < pad {
        0
    } else if i - program.len() - pad < fs.len() {
        fs[i - program.len() - pad]
    } else {
        0
    }
}

impl IPL3 {
    /// Recognises the loader revision of `ipl` from its CRC-32 `crc`.
    pub fn from_crc(ipl: [u8; IPL_SIZE], crc: u32) -> (r: IPL3)
        ensures
            r == IPL3::identified(ipl, crc),
    {
        match crc {
            0x6170_a4a1 => IPL3::Cic6101(ipl),
            0x90bb_6cb5 => IPL3::Cic6102(ipl),
            0x0b05_0ee0 => IPL3::Cic6103(ipl),
            0x98bc_2c86 => IPL3::Cic6105(ipl),
            0xacc8_580a => IPL3::Cic6106(ipl),
            0x009e_9ea3 => IPL3::Cic7102(ipl),
            _ => IPL3::Unknown(ipl),
        }
    }

    /// Reads a loader image from the first `IPL_SIZE` bytes of `data` and
    /// recognises its revision by its CRC-32.
    pub fn read(data: &[u8]) -> (r: Result<IPL3, Error>)
        ensures
            r is Ok <==> data@.len() >= IPL_SIZE,
            r is Ok ==> r->Ok_0.image()@ == data@.subrange(0, IPL_SIZE as int),
            r is Ok ==> r->Ok_0 == IPL3::identified(
                r->Ok_0.image(),
                crc32_of(data@.subrange(0, IPL_SIZE as int)),
            ),
            r is Err ==> r == Err::<IPL3, Error>(Error::FileSizeError(data@.len() as u64)),
    {
        if data.len() < IPL_SIZE {
            return Err(Error::FileSizeError(data.len() as u64));
        }
        let mut ipl = [0u8; IPL_SIZE];
        let mut i: usize = 0;
        while i < IPL_SIZE
            invariant
                i <= IPL_SIZE <= data@.len(),
                forall|j: int| 0 <= j < i ==> ipl@[j] == data@[j],
            decreases IPL_SIZE - i,
        {
            ipl[i] = data[i];
            i = i + 1;
        }
        assert(ipl@ =~= data@.subrange(0, IPL_SIZE as int));
        let crc = crc32(&ipl);
        Ok(IPL3::from_crc(ipl, crc))
    }

    /// The loader image.
    pub fn get_ipl(&self) -> (r: &[u8; IPL_SIZE])
        ensures
            *r == self.image(),
    {
        match self {
            IPL3::Cic6101(bin) => bin,
            IPL3::Cic6102(bin) => bin,
            IPL3::Cic6103(bin) => bin,
            IPL3::Cic6105(bin) => bin,
            IPL3::Cic6106(bin) => bin,
            IPL3::Cic7102(bin) => bin,
            IPL3::Unknown(bin) => bin,
        }
    }

    /// A readable name of the loader revision.
    pub fn name(&self) -> (r: &'static str)
        ensures
            self is Cic6101 ==> r@ == "CIC-NUS-6101"@,
            self is Cic6102 ==> r@ == "CIC-NUS-6102"@,
            self is Cic6103 ==> r@ == "CIC-NUS-6103"@,
            self is Cic6105 ==> r@ == "CIC-NUS-6105"@,
            self is Cic6106 ==> r@ == "CIC-NUS-6106"@,
            self is Cic7102 ==> r@ == "CIC-NUS-7102"@,
            self is Unknown ==> r@ == "Unknown"@,
    {
        match self {
            IPL3::Cic6101(_) => "CIC-NUS-6101",
            IPL3::Cic6102(_) => "CIC-NUS-6102",
            IPL3::Cic6103(_) => "CIC-NUS-6103",
            IPL3::Cic6105(_) => "CIC-NUS-6105",
            IPL3::Cic6106(_) => "CIC-NUS-6106",
            IPL3::Cic7102(_) => "CIC-NUS-7102",
            IPL3::Unknown(_) => "Unknown",
        }
    }

    /// Computes the two boot checksums of `program` followed by `fs`.
    ///
    /// The region checksummed is the program, one zero byte if the program has
    /// an odd length, the filesystem, then zeros, cut at `PROGRAM_SIZE` bytes.
    pub fn compute_crcs(&self, program: &[u8], fs: &[u8]) -> (r: (u32, u32))
        ensures
            r == self.checksums(program@, fs@),
    {
        let seed: u32 = match self {
            IPL3::Cic6103(_) => 0xa388_6759,
            IPL3::Cic6105(_) => 0xdf26_f436,
            IPL3::Cic6106(_) => 0x1fea_617a,
            _ => 0xf8ca_4ddc,
        };
        let ipl = self.get_ipl();
        let mut acc1 = seed;
        let mut acc2 = seed;
        let mut acc3 = seed;
        let mut acc4 = seed;
        let mut acc5 = seed;
        let mut acc6 = seed;
        let mut k: usize = 0;
        while k < PROGRAM_WORDS
            invariant
                k <= PROGRAM_WORDS,
                *ipl == self.image(),
                self.accumulate(program@, fs@, k as nat) == (Accumulators {
                    acc1,
                    acc2,
                    acc3,
                    acc4,
                    acc5,
                    acc6,
                }),
            decreases PROGRAM_WORDS - k,
        {
            let i = 4 * k;
            let word = [
                region_byte(program, fs, i),
                region_byte(program, fs, i + 1),
                region_byte(program, fs, i + 2),
                region_byte(program, fs, i + 3),
            ];
            let current = read_be_u32(&word);
            assert(current == payload_word(program@, fs@, k as int));
            assert(current & 0x1f < 32) by (bit_vector);
            let rotated = rotl(current, current & 0x1f);
            acc1 = acc1.wrapping_add(current);
            if acc1 < current {
                acc2 = acc2.wrapping_add(1);
            }
            acc3 = acc3 ^ current;
            acc4 = acc4.wrapping_add(rotated);
            if acc5 > current {
                acc5 = acc5 ^ rotated;
            } else {
                acc5 = acc5 ^ (acc1 ^ current);
            }
            match self {
                IPL3::Cic6105(_) => {
                    let t = 4 * (TABLE_START + k % TABLE_WORDS);
                    let entry = [ipl[t], ipl[t + 1], ipl[t + 2], ipl[t + 3]];
                    let current_ipl = read_be_u32(&entry);
                    acc6 = acc6.wrapping_add(current ^ current_ipl);
                },
                _ => {
                    acc6 = acc6.wrapping_add(current ^ acc4);
                },
            }
            k = k + 1;
        }
        match self {
            IPL3::Cic6103(_) => ((acc1 ^ acc2).wrapping_add(acc3), (acc4 ^ acc5).wrapping_add(acc6)),
            IPL3::Cic6106(_) => (
                acc1.wrapping_mul(acc2).wrapping_add(acc3),
                acc4.wrapping_mul(acc5).wrapping_add(acc6),
            ),
            _ => (acc1 ^ acc2 ^ acc3, acc4 ^ acc5 ^ acc6),
        }
    }

    /// The entry point that this loader jumps to for a declared `entry_point`.
    pub fn offset(&self, entry_point: u32) -> (r: u32)
        ensures
            r == u32_specs::wrapping_add(entry_point, self.entry_offset()),
    {
        let shift: u32 = match self {
            IPL3::Cic6103(_) => 0x0010_0000,
            IPL3::Cic6106(_) => 0x0020_0000,
            _ => 0,
        };
        entry_point.wrapping_add(shift)
    }

    /// Appends the loader image to `out`; returns the number of bytes appended.
    pub fn write(&self, out: &mut Vec<u8>) -> (r: usize)
        ensures
            final(out)@ == old(out)@ + self.image()@,
            r == IPL_SIZE,
    {
        let ipl = self.get_ipl();
        let mut i: usize = 0;
        while i < IPL_SIZE
            invariant
                i <= IPL_SIZE,
                *ipl == self.image(),
                out@ == old(out)@ + ipl@.subrange(0, i as int),
            decreases IPL_SIZE - i,
        {
            out.push(ipl[i]);
            i = i + 1;
            assert(ipl@.subrange(0, i as int) =~= ipl@.subrange(0, i - 1) + seq![ipl@[i - 1]]);
        }
        assert(ipl@.subrange(0, IPL_SIZE as int) =~= ipl@);
        IPL_SIZE
    }
}

} // verus!
