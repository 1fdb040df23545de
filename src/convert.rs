//! Conversion of ROM data between the three byte orders.

use vstd::prelude::*;

use crate::bytes::Endianness;
use crate::header::{self, classify, Magic};
use crate::rom::Rom;

verus! {

/// What a conversion failed on.
#[derive(Clone, Copy, Debug, PartialEq, Eq, Structural)]
pub enum Error {
    /// The buffer length (given) is not a multiple of four.
    AlignmentError(usize),
    /// Of the bytes read (first), fewer were written (second).
    FileWriteError(usize, usize),
    /// The header could not be read, or its byte order is unknown.
    HeaderError(header::Error),
}

/// Outcome of a successful conversion.
#[derive(Clone, Copy, Debug, PartialEq, Eq, Structural)]
pub enum ConvertStatus {
    /// Data was already in the target order and was left as it is.
    AlreadyConverted,
    /// Data was re-ordered.
    Complete,
}

/// Within a group of four bytes, the position (in the data as it is in
/// order `from`) of the byte that lands at position `k` once converted to `to`.
pub open spec fn swap_index(from: Endianness, to: Endianness, k: int) -> int {
    if from == to {
        k
    } else if from != Endianness::Mixed && to != Endianness::Mixed {
        // Big and Little: the group is reversed.
        3 - k
    } else if from != Endianness::Little && to != Endianness::Little {
        // Big and Mixed: the two bytes of each half are exchanged.
        if k % 2 == 0 {
            k + 1
        } else {
            k - 1
        }
    } else {
        // Little and Mixed: the two halves are exchanged.
        (k + 2) % 4
    }
}

/// `s`, stored in order `from`, re-ordered to `to`, group of four by group of four.
pub open spec fn convert_seq(s: Seq<u8>, from: Endianness, to: Endianness) -> Seq<u8> {
    Seq::new(s.len(), |i: int| s[i - i % 4 + swap_index(from, to, i % 4)])
}

/// What `convert` makes of a buffer: nothing where its length is not a multiple of four.
pub open spec fn converted(s: Seq<u8>, from: Endianness, to: Endianness) -> Option<Seq<u8>> {
    if s.len() % 4 == 0 {
        Some(convert_seq(s, from, to))
    } else {
        None
    }
}

/// `s` with the group of four at `i` re-ordered from `from` to `to`, the rest unchanged.
pub open spec fn swapped_at(s: Seq<u8>, i: int, from: Endianness, to: Endianness) -> Seq<u8> {
    Seq::new(
        s.len(),
        |j: int|
            if i <= j < i + 4 {
                s[i + swap_index(from, to, j - i)]
            } else {
                s[j]
            },
    )
}

/// Reverses the group of four bytes at `i`: Big to Little and back.
fn swap_big_little(buf: &mut [u8], i: usize)
    requires
        i + 4 <= old(buf)@.len(),
    ensures
        final(buf)@ == swapped_at(old(buf)@, i as int, Endianness::Big, Endianness::Little),
{
    let b0 = buf[i];
    let b1 = buf[i + 1];
    buf[i] = buf[i + 3];
    buf[i + 1] = buf[i + 2];
    buf[i + 2] = b1;
    buf[i + 3] = b0;
    assert(buf@ =~= swapped_at(old(buf)@, i as int, Endianness::Big, Endianness::Little));
}

/// Exchanges the bytes of each half of the group at `i`: Big to Mixed and back.
fn swap_big_mixed(buf: &mut [u8], i: usize)
    requires
        i + 4 <= old(buf)@.len(),
    ensures
        final(buf)@ == swapped_at(old(buf)@, i as int, Endianness::Big, Endianness::Mixed),
{
    let b0 = buf[i];
    let b2 = buf[i + 2];
    buf[i] = buf[i + 1];
    buf[i + 1] = b0;
    buf[i + 2] = buf[i + 3];
    buf[i + 3] = b2;
    assert(buf@ =~= swapped_at(old(buf)@, i as int, Endianness::Big, Endianness::Mixed));
}

/// Exchanges the two halves of the group at `i`: Little to Mixed and back.
fn swap_little_mixed(buf: &mut [u8], i: usize)
    requires
        i + 4 <= old(buf)@.len(),
    ensures
        final(buf)@ == swapped_at(old(buf)@, i as int, Endianness::Little, Endianness::Mixed),
{
    let b0 = buf[i];
    let b1 = buf[i + 1];
    buf[i] = buf[i + 2];
    buf[i + 1] = buf[i + 3];
    buf[i + 2] = b0;
    buf[i + 3] = b1;
    assert(buf@ =~= swapped_at(old(buf)@, i as int, Endianness::Little, Endianness::Mixed));
}

/// The transform of a pair of orders is the same in both directions.
proof fn lemma_swap_index_symmetric(a: Endianness, b: Endianness, k: int)
    requires
        0 <= k < 4,
    ensures
        swap_index(a, b, k) == swap_index(b, a, k),
        0 <= swap_index(a, b, k) < 4,
{
}

/// Re-orders every group of four bytes of `buf` from `current` to `target`.
fn swap_words(buf: &mut [u8], current: Endianness, target: Endianness)
    requires
        old(buf)@.len() % 4 == 0,
        current != target,
    ensures
        final(buf)@ == convert_seq(old(buf)@, current, target),
{
    let ghost orig = buf@;
    let len = buf.len();
    let mut pos: usize = 0;
    while pos < len
        invariant
            len == buf@.len(),
            len == orig.len(),
            len % 4 == 0,
            pos % 4 == 0,
            pos <= len,
            current != target,
            forall|j: int| 0 <= j < pos ==> buf@[j] == convert_seq(orig, current, target)[j],
            forall|j: int| pos <= j < len ==> buf@[j] == orig[j],
        decreases len - pos,
    {
        let ghost before = buf@;
        match (current, target) {
            (Endianness::Big, Endianness::Little) | (Endianness::Little, Endianness::Big) => {
                swap_big_little(buf, pos)
            },
            (Endianness::Big, Endianness::Mixed) | (Endianness::Mixed, Endianness::Big) => {
                swap_big_mixed(buf, pos)
            },
            _ => swap_little_mixed(buf, pos),
        }
        assert forall|j: int| pos <= j < pos + 4 implies buf@[j] == convert_seq(
            orig,
            current,
            target,
        )[j] by {
            assert(j - j % 4 == pos);
            assert(j % 4 == j - pos);
            if current == Endianness::Big || current == Endianness::Little && target
                == Endianness::Mixed {
            } else {
                lemma_swap_index_symmetric(current, target, j - pos);
            }
        }
        pos = pos + 4;
    }
    assert(buf@ =~= convert_seq(orig, current, target));
}

/// Converts `buf` from the order `current` to the order `target`, in place.
///
/// The length must be a multiple of four, whatever the two orders.
pub fn convert(buf: &mut [u8], current: Endianness, target: Endianness) -> (r: Result<
    ConvertStatus,
    Error,
>)
    ensures
        r is Ok <==> old(buf)@.len() % 4 == 0,
        r is Ok ==> final(buf)@ == convert_seq(old(buf)@, current, target),
        r is Ok ==> (r->Ok_0 == ConvertStatus::AlreadyConverted <==> current == target),
        r is Err ==> r == Err::<ConvertStatus, Error>(Error::AlignmentError(old(buf)@.len() as usize)),
        r is Err ==> final(buf)@ == old(buf)@,
{
    if buf.len() % 4 == 0 {
        if current == target {
            assert(buf@ =~= convert_seq(buf@, current, target));
            Ok(ConvertStatus::AlreadyConverted)
        } else {
            swap_words(buf, current, target);
            Ok(ConvertStatus::Complete)
        }
    } else {
        Err(Error::AlignmentError(buf.len()))
    }
}

/// Converting twice in the same direction gives back the data: each transform
/// undoes itself.
pub proof fn lemma_convert_involution(s: Seq<u8>, a: Endianness, b: Endianness)
    requires
        s.len() % 4 == 0,
    ensures
        convert_seq(convert_seq(s, a, b), a, b) == s,
        convert_seq(convert_seq(s, a, b), b, a) == s,
{
    let t = convert_seq(s, a, b);
    assert forall|i: int| 0 <= i < s.len() implies #[trigger] convert_seq(t, a, b)[i] == s[i]
        && convert_seq(t, b, a)[i] == s[i] by {
        let g = i - i % 4;
        let k = swap_index(a, b, i % 4);
        lemma_swap_index_symmetric(a, b, i % 4);
        assert(g % 4 == 0 && g + 4 <= s.len()) by {
            assert(s.len() - i > 0);
        }
        assert((g + k) % 4 == k);
        assert((g + k) - (g + k) % 4 == g);
    }
    assert(convert_seq(t, a, b) =~= s);
    assert(convert_seq(t, b, a) =~= s);
}

/// Converting from `a` to `b` and then from `b` to `c` is converting from `a`
/// to `c`; a buffer whose length is not a multiple of four is refused either way.
pub proof fn lemma_convert_transitive(s: Seq<u8>, a: Endianness, b: Endianness, c: Endianness)
    ensures
        match converted(s, a, b) {
            Some(t) => converted(t, b, c) == converted(s, a, c),
            None => converted(s, a, c) is None,
        },
{
    if s.len() % 4 == 0 {
        let t = convert_seq(s, a, b);
        assert forall|i: int| 0 <= i < s.len() implies #[trigger] convert_seq(t, b, c)[i]
            == convert_seq(s, a, c)[i] by {
            let g = i - i % 4;
            let k = swap_index(b, c, i % 4);
            lemma_swap_index_symmetric(b, c, i % 4);
            assert(g % 4 == 0 && g + 4 <= s.len()) by {
                assert(s.len() - i > 0);
            }
            assert((g + k) % 4 == k);
            assert((g + k) - (g + k) % 4 == g);
        }
        assert(convert_seq(t, b, c) =~= convert_seq(s, a, c));
    }
}

/// Converting a part that starts and ends on group boundaries is converting
/// the whole and taking that part.
pub proof fn lemma_convert_subrange(s: Seq<u8>, from: Endianness, to: Endianness, start: int, end: int)
    requires
        0 <= start <= end <= s.len(),
        start % 4 == 0,
        end % 4 == 0,
    ensures
        convert_seq(s.subrange(start, end), from, to) == convert_seq(s, from, to).subrange(start, end),
{
    let t = s.subrange(start, end);
    assert forall|i: int| 0 <= i < end - start implies #[trigger] convert_seq(t, from, to)[i]
        == convert_seq(s, from, to)[start + i] by {
        lemma_swap_index_symmetric(from, to, i % 4);
        assert((start + i) % 4 == i % 4);
        assert(i - i % 4 + 4 <= end - start) by {
            assert((end - start) % 4 == 0);
        }
    }
    assert(convert_seq(t, from, to) =~= convert_seq(s, from, to).subrange(start, end));
}

/// Converting two pieces whose lengths are multiples of four is converting each.
pub proof fn lemma_convert_append(a: Seq<u8>, b: Seq<u8>, from: Endianness, to: Endianness)
    requires
        a.len() % 4 == 0,
        b.len() % 4 == 0,
    ensures
        convert_seq(a + b, from, to) == convert_seq(a, from, to) + convert_seq(b, from, to),
{
    let s = a + b;
    lemma_convert_subrange(s, from, to, 0, a.len() as int);
    lemma_convert_subrange(s, from, to, a.len() as int, s.len() as int);
    assert(s.subrange(0, a.len() as int) =~= a);
    assert(s.subrange(a.len() as int, s.len() as int) =~= b);
    assert(convert_seq(s, from, to) =~= convert_seq(s, from, to).subrange(0, a.len() as int)
        + convert_seq(s, from, to).subrange(a.len() as int, s.len() as int));
}

/// Converts the image of `rom` to `target` in place and records the new order.
pub fn convert_rom(rom: &mut Rom, target: Endianness) -> (r: Result<ConvertStatus, Error>)
    requires
        old(rom).wf(),
    ensures
        final(rom).wf(),
        r is Ok <==> old(rom).image@.len() % 4 == 0,
        r is Ok ==> final(rom).image@ == convert_seq(old(rom).image@, old(rom).order, target)
            && final(rom).order == target && final(rom).header == old(rom).header
            && final(rom).ipl3 == old(rom).ipl3
            && (r->Ok_0 == ConvertStatus::AlreadyConverted <==> old(rom).order == target),
        r is Err ==> final(rom).image@ == old(rom).image@ && final(rom).order == old(rom).order
            && final(rom).header == old(rom).header && final(rom).ipl3 == old(rom).ipl3
            && r == Err::<ConvertStatus, Error>(Error::AlignmentError(old(rom).image@.len() as usize)),
{
    rom.convert(target)
}

/// Converts the ROM image held in `buf` to `target` in place; its own order is
/// read from its magic word. Returns the outcome and the order it was in.
pub fn convert_image(buf: &mut [u8], target: Endianness) -> (r: Result<(ConvertStatus, Endianness), Error>)
    ensures
        old(buf)@.len() < 4 ==> r == Err::<(ConvertStatus, Endianness), Error>(
            Error::HeaderError(header::Error::UnexpectedEof(old(buf)@.len() as usize)),
        ) && final(buf)@ == old(buf)@,
        old(buf)@.len() >= 4 ==> match classify(old(buf)@) {
            Err(e) => r == Err::<(ConvertStatus, Endianness), Error>(Error::HeaderError(e))
                && final(buf)@ == old(buf)@,
            Ok(order) => if old(buf)@.len() % 4 == 0 {
                &&& r is Ok
                &&& r->Ok_0.1 == order
                &&& (r->Ok_0.0 == ConvertStatus::AlreadyConverted <==> order == target)
                &&& final(buf)@ == convert_seq(old(buf)@, order, target)
            } else {
                &&& r == Err::<(ConvertStatus, Endianness), Error>(Error::AlignmentError(old(buf)@.len() as usize))
                &&& final(buf)@ == old(buf)@
            },
        },
{
    if buf.len() < 4 {
        return Err(Error::HeaderError(header::Error::UnexpectedEof(buf.len())));
    }
    let order = match Magic::infer_byte_order(buf) {
        Ok(order) => order,
        Err(e) => {
            return Err(Error::HeaderError(e));
        },
    };
    match convert(buf, order, target) {
        Ok(status) => Ok((status, order)),
        Err(e) => Err(e),
    }
}

} // verus!
