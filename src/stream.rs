//! Buffered streams that convert between a stored byte order and Big order.
//!
//! A `Reader` serves the bytes of a source stored in some order as Big-order
//! bytes; a `Writer` takes Big-order bytes and collects them in its own order.
//! Both work through a fixed-capacity buffer that is converted, group of four
//! by group of four, each time it is refilled or flushed.

use vstd::prelude::*;

use crate::bytes::Endianness;
use crate::convert::{
    self, convert_seq, lemma_convert_append, lemma_convert_involution, lemma_convert_subrange, Error,
};

verus! {

/// Default buffer capacity of `Reader` and `Writer`.
pub const BUFFER_SIZE: usize = 1024 * 16;

/// Where the last, shorter chunk starts when `len` bytes are taken `cap` at a time.
pub open spec fn last_chunk_start(len: int, cap: int) -> int {
    len - len % cap
}

/// What a `Reader` stands for.
pub struct ReaderView {
    /// The source, in its stored order.
    pub source: Seq<u8>,
    /// The order the source is stored in.
    pub order: Endianness,
    /// The capacity of the buffer.
    pub capacity: nat,
    /// How many bytes have been served so far.
    pub delivered: nat,
}

/// Serves the bytes of a source stored in some order as Big-order bytes.
pub struct Reader<'r> {
    buffer: Vec<u8>,
    endianness: Endianness,
    /// Next byte of `buffer` to serve.
    idx: usize,
    /// Number of valid (converted) bytes in `buffer`.
    length: usize,
    reader: &'r [u8],
    /// Number of source bytes taken into the buffer so far.
    pos: usize,
}

impl<'r> View for Reader<'r> {
    type V = ReaderView;

    closed spec fn view(&self) -> ReaderView {
        ReaderView {
            source: self.reader@,
            order: self.endianness,
            capacity: self.buffer@.len(),
            delivered: (self.pos - self.length + self.idx) as nat,
        }
    }
}

impl<'r> Reader<'r> {
    /// The internal state agrees with the view.
    pub closed spec fn wf(&self) -> bool {
        let cap = self.buffer@.len();
        let src = self.reader@;
        &&& cap > 0
        &&& cap % 4 == 0
        &&& self.idx <= self.length <= cap
        &&& self.length <= self.pos <= src.len()
        &&& self.pos % 4 == 0
        &&& self.length % 4 == 0
        &&& self.pos < src.len() ==> (self.pos as int) % (cap as int) == 0
        &&& src.len() % 4 != 0 ==> self.pos <= last_chunk_start(src.len() as int, cap as int)
        &&& self.reader@.len() == self.reader.len()
        &&& forall|j: int|
            0 <= j < self.length ==> self.buffer@[j] == convert_seq(src, self.endianness, Endianness::Big)[self.pos - self.length + j]
    }

    /// A reader of `reader`, stored in order `endianness`, with the default capacity.
    pub fn from(reader: &'r [u8], endianness: Endianness) -> (r: Reader<'r>)
        ensures
            r.wf(),
            r@ == (ReaderView { source: reader@, order: endianness, capacity: BUFFER_SIZE as nat, delivered: 0 }),
    {
        Self::with_buffer_size(reader, endianness, BUFFER_SIZE)
    }

    /// A reader of `reader`, stored in order `endianness`, whose buffer holds
    /// `capacity` bytes, a positive multiple of four.
    pub fn with_buffer_size(reader: &'r [u8], endianness: Endianness, capacity: usize) -> (r: Reader<'r>)
        requires
            capacity > 0,
            capacity % 4 == 0,
        ensures
            r.wf(),
            r@ == (ReaderView { source: reader@, order: endianness, capacity: capacity as nat, delivered: 0 }),
    {
        proof {
            lemma_next_chunk(reader@.len() as int, capacity as int, 0);
        }
        Reader { buffer: vec![0u8; capacity], endianness, idx: 0, length: 0, reader, pos: 0 }
    }

    /// Number of converted bytes not yet served.
    fn remaining(&self) -> (r: usize)
        requires
            self.wf(),
        ensures
            r == self.length - self.idx,
    {
        self.length - self.idx
    }

    /// Serves `n` bytes of the buffer into `out` from position `at` on.
    fn buf_read(&mut self, out: &mut [u8], at: usize, n: usize)
        requires
            old(self).wf(),
            old(self).idx + n <= old(self).length,
            at + n <= old(out)@.len(),
        ensures
            final(self).wf(),
            final(self).idx == old(self).idx + n,
            final(self).length == old(self).length,
            final(self).pos == old(self).pos,
            final(self).buffer == old(self).buffer,
            final(self).reader == old(self).reader,
            final(self).endianness == old(self).endianness,
            final(out)@ == old(out)@.subrange(0, at as int) + old(self).buffer@.subrange(
                old(self).idx as int,
                old(self).idx + n,
            ) + old(out)@.subrange(at + n, old(out)@.len() as int),
    {
        let ghost out0 = out@;
        let mut j: usize = 0;
        while j < n
            invariant
                j <= n,
                self.idx + n <= self.length <= self.buffer@.len(),
                at + n <= out0.len(),
                at + n <= out.len(),
                out@.len() == out0.len(),
                forall|k: int| 0 <= k < at ==> out@[k] == out0[k],
                forall|k: int| at <= k < at + j ==> out@[k] == self.buffer@[self.idx + k - at],
                forall|k: int| at + j <= k < out0.len() ==> out@[k] == out0[k],
            decreases n - j,
        {
            out[at + j] = self.buffer[self.idx + j];
            j = j + 1;
        }
        assert(out@ =~= out0.subrange(0, at as int) + self.buffer@.subrange(
            self.idx as int,
            self.idx + n,
        ) + out0.subrange(at + n, out0.len() as int));
        self.idx = self.idx + n;
    }

    /// Takes the next chunk of the source into the buffer and converts it to
    /// Big order; returns its length, zero at the end of the source.
    fn refill(&mut self) -> (r: Result<usize, Error>)
        requires
            old(self).wf(),
            old(self).idx == old(self).length,
        ensures
            final(self).reader == old(self).reader,
            final(self).endianness == old(self).endianness,
            final(self).buffer@.len() == old(self).buffer@.len(),
            final(self).wf(),
            ({
                let rest = old(self).reader@.len() - old(self).pos;
                let cap = old(self).buffer@.len();
                let n = if rest < cap { rest } else { cap as int };
                &&& r is Ok <==> n % 4 == 0
                &&& r is Ok ==> r->Ok_0 == n && final(self).pos == old(self).pos + n
                    && final(self).length == n && final(self).idx == 0
                &&& r is Err ==> r == Err::<usize, Error>(Error::AlignmentError(n as usize))
                    && *final(self) == *old(self)
            }),
    {
        proof {
            lemma_next_chunk(self.reader@.len() as int, self.buffer@.len() as int, self.pos as int);
        }
        let rest = self.reader.len() - self.pos;
        let n = if rest < self.buffer.len() {
            rest
        } else {
            self.buffer.len()
        };
        if n % 4 != 0 {
            return Err(Error::AlignmentError(n));
        }
        fill_chunk(&mut self.buffer, self.reader, self.pos, n, self.endianness);
        self.idx = 0;
        self.length = n;
        self.pos = self.pos + n;
        Ok(n)
    }

    /// Fills `buf` with the next Big-order bytes, as far as the source goes;
    /// returns how many were served (fewer than asked only at its end).
    ///
    /// Source bytes are taken a buffer at a time; the last, shorter chunk of a
    /// source whose length is not a multiple of four cannot be converted, and
    /// a read that reaches it fails.
    #[verifier::rlimit(40)]
    pub fn read(&mut self, buf: &mut [u8]) -> (r: Result<usize, Error>)
        requires
            old(self).wf(),
        ensures
            final(self).wf(),
            final(self)@.source == old(self)@.source,
            final(self)@.order == old(self)@.order,
            final(self)@.capacity == old(self)@.capacity,
            final(buf)@.len() == old(buf)@.len(),
            ({
                let src = old(self)@.source;
                let d = old(self)@.delivered;
                let want = old(buf)@.len();
                let fails = src.len() % 4 != 0 && d + want > last_chunk_start(
                    src.len() as int,
                    old(self)@.capacity as int,
                );
                let n = if want <= src.len() - d { want as int } else { src.len() - d };
                &&& r is Err <==> fails
                &&& r is Err ==> r == Err::<usize, Error>(Error::AlignmentError(
                    ((src.len() as int) % (old(self)@.capacity as int)) as usize,
                ))
                &&& r is Ok ==> r->Ok_0 == n && final(self)@.delivered == d + n
                    && final(buf)@.subrange(0, n) == convert_seq(src, old(self)@.order, Endianness::Big).subrange(d as int, d + n)
                    && final(buf)@.subrange(n, want as int) == old(buf)@.subrange(n, want as int)
            }),
    {
        let ghost src = self.reader@;
        let ghost big = convert_seq(src, self.endianness, Endianness::Big);
        let ghost d = self@.delivered;
        let ghost buf0 = buf@;
        let ghost cap = self.buffer@.len() as int;
        let ghost order = self.endianness;
        let length = buf.len();
        let mut written: usize = 0;
        while written < length
            invariant
                self.wf(),
                self.reader@ == src,
                self.buffer@.len() == cap,
                self.endianness == order,
                self.reader == old(self).reader,
                self.endianness == old(self).endianness,
                cap == old(self).buffer@.len(),
                d == old(self)@.delivered,
                buf0 == old(buf)@,
                big == convert_seq(src, order, Endianness::Big),
                buf@.len() == buf0.len() == length,
                written <= length,
                self@.delivered == d + written,
                written <= src.len() - d,
                src.len() % 4 != 0 ==> self.pos <= last_chunk_start(src.len() as int, cap),
                forall|k: int| 0 <= k < written ==> buf@[k] == big[d + k],
                forall|k: int| written <= k < length ==> buf@[k] == buf0[k],
            ensures
                written == length || self@.delivered == src.len(),
                self.wf(),
                self.reader@ == src,
                self.buffer@.len() == cap,
                self.endianness == order,
                self.reader == old(self).reader,
                written <= length,
                self@.delivered == d + written,
                written <= src.len() - d,
                src.len() % 4 != 0 ==> self.pos <= last_chunk_start(src.len() as int, cap),
                forall|k: int| 0 <= k < written ==> buf@[k] == big[d + k],
                forall|k: int| written <= k < length ==> buf@[k] == buf0[k],
                buf@.len() == length,
            decreases length - written,
        {
            if self.remaining() == 0 {
                proof { lemma_next_chunk(src.len() as int, cap, self.pos as int) }
                match self.refill() {
                    Ok(n) => {
                        if n == 0 {
                            break;
                        }
                    },
                    Err(e) => {
                        return Err(e);
                    },
                }
            }
            let rem = self.remaining();
            let take = if length - written < rem {
                length - written
            } else {
                rem
            };
            let ghost before = buf@;
            let ghost idx0 = self.idx;
            self.buf_read(buf, written, take);
            proof {
                assert forall|k: int| written <= k < written + take implies buf@[k] == big[d + k] by {
                    assert(buf@[k] == self.buffer@[idx0 + k - written]);
                }
            }
            written = written + take;
        }
        proof {
            lemma_next_chunk(src.len() as int, cap, self.pos as int);
        }
        assert(buf@.subrange(0, written as int) =~= big.subrange(d as int, d + written));
        assert(buf@.subrange(written as int, length as int) =~= buf0.subrange(written as int, length as int));
        Ok(written)
    }
}

/// What a `Writer` stands for.
pub struct WriterView {
    /// The order the output is stored in.
    pub order: Endianness,
    /// The capacity of the buffer.
    pub capacity: nat,
    /// All Big-order bytes written so far.
    pub data: Seq<u8>,
    /// How many of them have been converted and handed to the output.
    pub flushed: nat,
}

/// Takes Big-order bytes and collects them, converted to its own order, in an
/// output held in memory.
pub struct Writer {
    buffer: Vec<u8>,
    endianness: Endianness,
    /// Number of bytes waiting in `buffer`.
    length: usize,
    writer: Vec<u8>,
}

impl View for Writer {
    type V = WriterView;

    closed spec fn view(&self) -> WriterView {
        WriterView {
            order: self.endianness,
            capacity: self.buffer@.len(),
            data: convert_seq(self.writer@, self.endianness, Endianness::Big) + self.buffer@.subrange(
                0,
                self.length as int,
            ),
            flushed: self.writer@.len(),
        }
    }
}

impl Writer {
    /// The internal state agrees with the view.
    pub closed spec fn wf(&self) -> bool {
        &&& self.buffer@.len() > 0
        &&& self.buffer@.len() % 4 == 0
        &&& self.length <= self.buffer@.len()
        &&& self.writer@.len() % 4 == 0
    }

    /// A writer to order `endianness` with the default capacity.
    pub fn from(endianness: Endianness) -> (r: Writer)
        ensures
            r.wf(),
            r@ == (WriterView { order: endianness, capacity: BUFFER_SIZE as nat, data: Seq::empty(), flushed: 0 }),
    {
        Self::with_buffer_size(endianness, BUFFER_SIZE)
    }

    /// A writer to order `endianness` whose buffer holds `capacity` bytes, a
    /// positive multiple of four.
    pub fn with_buffer_size(endianness: Endianness, capacity: usize) -> (r: Writer)
        requires
            capacity > 0,
            capacity % 4 == 0,
        ensures
            r.wf(),
            r@ == (WriterView { order: endianness, capacity: capacity as nat, data: Seq::empty(), flushed: 0 }),
    {
        let r = Writer { buffer: vec![0u8; capacity], endianness, length: 0, writer: Vec::new() };
        assert(r@.data =~= Seq::<u8>::empty());
        r
    }

    /// Room left in the buffer.
    fn remaining(&self) -> (r: usize)
        requires
            self.wf(),
        ensures
            r == self.buffer@.len() - self.length,
    {
        self.buffer.len() - self.length
    }

    /// Puts `bytes[from..to]` in the buffer; returns how many bytes that is.
    fn buf_write(&mut self, bytes: &[u8], from: usize, to: usize) -> (r: usize)
        requires
            old(self).wf(),
            from <= to <= bytes@.len(),
            old(self).length + (to - from) <= old(self).buffer@.len(),
        ensures
            final(self).wf(),
            final(self).endianness == old(self).endianness,
            final(self).writer == old(self).writer,
            final(self).buffer@.len() == old(self).buffer@.len(),
            final(self).length == old(self).length + r,
            r == to - from,
            final(self)@.data == old(self)@.data + bytes@.subrange(from as int, to as int),
    {
        let ghost data0 = self@.data;
        let ghost buf0 = self.buffer@;
        let n = to - from;
        let mut j: usize = 0;
        while j < n
            invariant
                j <= n == to - from,
                to <= bytes@.len(),
                to <= bytes.len(),
                self.length + n <= self.buffer.len(),
                self.buffer@.len() == buf0.len(),
                self.writer == old(self).writer,
                self.endianness == old(self).endianness,
                self.length == old(self).length,
                buf0 == old(self).buffer@,
                data0 == old(self)@.data,
                forall|k: int| 0 <= k < self.length ==> self.buffer@[k] == buf0[k],
                forall|k: int| self.length <= k < self.length + j ==> self.buffer@[k] == bytes@[from + k - self.length],
            decreases n - j,
        {
            let at = self.length + j;
            self.buffer.set(at, bytes[from + j]);
            j = j + 1;
        }
        let ghost old_len = self.length;
        self.length = self.length + n;
        assert(self.buffer@.subrange(0, self.length as int) =~= buf0.subrange(0, old_len as int)
            + bytes@.subrange(from as int, to as int));
        assert(self@.data =~= data0 + bytes@.subrange(from as int, to as int));
        n
    }

    /// Converts what the buffer holds to the output order and hands it to the
    /// output; fails where that is not a multiple of four bytes.
    fn buf_flush(&mut self) -> (r: Result<(), Error>)
        requires
            old(self).wf(),
        ensures
            final(self).wf(),
            final(self)@.order == old(self)@.order,
            final(self)@.capacity == old(self)@.capacity,
            final(self)@.data == old(self)@.data,
            r is Ok <==> old(self).length % 4 == 0,
            r is Ok ==> final(self).length == 0,
            r is Ok ==> final(self)@.flushed == old(self)@.flushed + old(self).length,
            r is Err ==> r == Err::<(), Error>(Error::AlignmentError(old(self).length))
                && *final(self) == *old(self),
    {
        if self.length % 4 != 0 {
            return Err(Error::AlignmentError(self.length));
        }
        let ghost pending = self.buffer@.subrange(0, self.length as int);
        let ghost out0 = self.writer@;
        let order = self.endianness;
        flush_chunk(&mut self.buffer, self.length, order, &mut self.writer);
        proof {
            let chunk = convert_seq(pending, Endianness::Big, order);
            lemma_convert_append(out0, chunk, order, Endianness::Big);
            lemma_convert_involution(pending, Endianness::Big, order);
            assert(self.writer@ == out0 + chunk);
            assert(convert_seq(chunk, order, Endianness::Big) == pending);
        }
        self.length = 0;
        assert(self@.data =~= convert_seq(out0, order, Endianness::Big) + pending);
        Ok(())
    }

    /// Writes the Big-order bytes of `buf`; returns how many, all of them.
    pub fn write(&mut self, buf: &[u8]) -> (r: usize)
        requires
            old(self).wf(),
        ensures
            final(self).wf(),
            final(self)@.order == old(self)@.order,
            final(self)@.capacity == old(self)@.capacity,
            final(self)@.data == old(self)@.data + buf@,
            old(self)@.flushed <= final(self)@.flushed,
            final(self)@.flushed <= final(self)@.data.len(),
            final(self)@.data.len() - final(self)@.flushed <= final(self)@.capacity,
            (final(self)@.flushed - old(self)@.flushed) % (final(self)@.capacity as int) == 0,
            r == buf@.len(),
    {
        let ghost data0 = self@.data;
        let ghost cap = self@.capacity as int;
        proof {
            vstd::arithmetic::div_mod::lemma_small_mod(0, cap as nat);
        }
        let mut idx: usize = 0;
        while idx < buf.len()
            invariant
                self.wf(),
                self@.order == old(self)@.order,
                self@.capacity == old(self)@.capacity,
                old(self)@.flushed <= self@.flushed,
                cap == old(self)@.capacity,
                (self@.flushed - old(self)@.flushed) % cap == 0,
                data0 == old(self)@.data,
                idx <= buf@.len(),
                self@.data == data0 + buf@.subrange(0, idx as int),
            decreases buf@.len() - idx,
        {
            if self.remaining() == 0 {
                let ghost before = self@.flushed - old(self)@.flushed;
                let flushed = self.buf_flush();
                assert(flushed is Ok);
                proof {
                    vstd::arithmetic::div_mod::lemma_mod_add_multiples_vanish(before, cap);
                }
            }
            let rem = self.remaining();
            let take = if buf.len() - idx < rem {
                buf.len() - idx
            } else {
                rem
            };
            self.buf_write(buf, idx, idx + take);
            assert(buf@.subrange(0, idx + take) =~= buf@.subrange(0, idx as int) + buf@.subrange(
                idx as int,
                idx + take,
            ));
            idx = idx + take;
        }
        assert(buf@.subrange(0, idx as int) =~= buf@);
        buf.len()
    }

    /// Converts and hands to the output all that was written; fails where the
    /// bytes written so far are not a multiple of four.
    pub fn flush(&mut self) -> (r: Result<(), Error>)
        requires
            old(self).wf(),
        ensures
            final(self).wf(),
            final(self)@.order == old(self)@.order,
            final(self)@.capacity == old(self)@.capacity,
            final(self)@.data == old(self)@.data,
            r is Ok <==> old(self)@.data.len() % 4 == 0,
            r is Ok ==> final(self)@.flushed == old(self)@.data.len(),
            r is Err ==> r == Err::<(), Error>(Error::AlignmentError(
                (old(self)@.data.len() - old(self)@.flushed) as usize,
            )) && final(self)@ == old(self)@,
    {
        self.buf_flush()
    }

    /// The output: the flushed bytes, in the writer's order.
    pub fn into_inner(self) -> (r: Vec<u8>)
        requires
            self.wf(),
        ensures
            r@ == convert_seq(self@.data.subrange(0, self@.flushed as int), Endianness::Big, self@.order),
    {
        proof {
            assert(self@.data.subrange(0, self@.flushed as int) =~= convert_seq(
                self.writer@,
                self.endianness,
                Endianness::Big,
            ));
            lemma_convert_involution(self.writer@, self.endianness, Endianness::Big);
        }
        self.writer
    }
}

/// Bytes read through a `Reader` of some order and written through a `Writer`
/// of the same order come out as they were stored, and Big-order bytes written
/// and then read back come out unchanged: what a reader serves of a source is
/// the source converted to Big order, and what a writer holds once flushed is
/// the data converted from Big order, which undo each other on whole groups of
/// four bytes.
pub proof fn lemma_reader_writer_round_trip(stored: Seq<u8>, data: Seq<u8>, order: Endianness)
    requires
        stored.len() % 4 == 0,
        data.len() % 4 == 0,
    ensures
        convert_seq(convert_seq(stored, order, Endianness::Big), Endianness::Big, order) == stored,
        convert_seq(convert_seq(data, Endianness::Big, order), order, Endianness::Big) == data,
{
    lemma_convert_involution(stored, order, Endianness::Big);
    lemma_convert_involution(data, Endianness::Big, order);
}

/// Converts the first `n` bytes of `buffer` from Big order to `order` and
/// appends them to `sink`.
fn flush_chunk(buffer: &mut Vec<u8>, n: usize, order: Endianness, sink: &mut Vec<u8>)
    requires
        n <= old(buffer)@.len(),
        n % 4 == 0,
    ensures
        final(buffer)@.len() == old(buffer)@.len(),
        final(sink)@ == old(sink)@ + convert_seq(old(buffer)@.subrange(0, n as int), Endianness::Big, order),
{
    let ghost before = buffer@;
    let (head, _tail) = buffer.as_mut_slice().split_at_mut(n);
    let status = convert::convert(head, Endianness::Big, order);
    assert(status is Ok);
    let ghost chunk = convert_seq(before.subrange(0, n as int), Endianness::Big, order);
    assert(buffer@.subrange(0, n as int) =~= chunk);
    let ghost sink0 = sink@;
    let mut j: usize = 0;
    while j < n
        invariant
            j <= n <= buffer@.len(),
            buffer@.subrange(0, n as int) == chunk,
            sink@ == sink0 + chunk.subrange(0, j as int),
        decreases n - j,
    {
        sink.push(buffer[j]);
        j = j + 1;
        assert(chunk.subrange(0, j as int) =~= chunk.subrange(0, j - 1) + seq![chunk[j - 1]]);
    }
    assert(chunk.subrange(0, n as int) =~= chunk);
}

/// Copies the `n` source bytes at `pos` into the start of `buffer`, converted
/// from `order` to Big order.
fn fill_chunk(buffer: &mut Vec<u8>, src: &[u8], pos: usize, n: usize, order: Endianness)
    requires
        n <= old(buffer)@.len(),
        pos + n <= src@.len(),
        pos % 4 == 0,
        n % 4 == 0,
    ensures
        final(buffer)@.len() == old(buffer)@.len(),
        forall|j: int|
            0 <= j < n ==> final(buffer)@[j] == convert_seq(src@, order, Endianness::Big)[pos + j],
{
    let mut j: usize = 0;
    while j < n
        invariant
            j <= n,
            n <= buffer@.len(),
            buffer@.len() == old(buffer)@.len(),
            pos + n <= src@.len(),
            pos + n <= src.len(),
            forall|k: int| 0 <= k < j ==> buffer@[k] == src@[pos + k],
        decreases n - j,
    {
        buffer.set(j, src[pos + j]);
        j = j + 1;
    }
    let ghost filled = buffer@;
    let (head, _tail) = buffer.as_mut_slice().split_at_mut(n);
    let status = convert::convert(head, order, Endianness::Big);
    assert(status is Ok);
    proof {
        assert(filled.subrange(0, n as int) =~= src@.subrange(pos as int, pos + n));
        lemma_convert_subrange(src@, order, Endianness::Big, pos as int, pos + n);
        assert forall|j: int| 0 <= j < n implies buffer@[j] == convert_seq(src@, order, Endianness::Big)[pos + j] by {
            assert(buffer@[j] == convert_seq(src@.subrange(pos as int, pos + n), order, Endianness::Big)[j]);
        }
    }
}

/// Where a refill at `pos` stands: a full chunk, or the last one, which starts
/// at `last_chunk_start`.
proof fn lemma_next_chunk(len: int, cap: int, pos: int)
    requires
        cap > 0,
        0 <= pos <= len,
        pos < len ==> pos % cap == 0,
    ensures
        pos < len && pos + cap <= len ==> pos + cap <= last_chunk_start(len, cap) || pos + cap == len,
        pos < len && len - pos < cap ==> pos == last_chunk_start(len, cap),
        last_chunk_start(len, cap) <= len,
        last_chunk_start(len, cap) % cap == 0,
        (pos + cap) % cap == pos % cap,
        len % 4 != 0 && cap % 4 == 0 ==> last_chunk_start(len, cap) < len,
{
    if len % 4 != 0 && cap % 4 == 0 && len % cap == 0 {
        vstd::arithmetic::div_mod::lemma_fundamental_div_mod(len, cap);
        vstd::arithmetic::div_mod::lemma_fundamental_div_mod(cap, 4);
        let q = len / cap;
        let c = cap / 4;
        assert(len == 4 * (c * q)) by (nonlinear_arith)
            requires
                len == cap * q,
                cap == 4 * c,
        ;
        vstd::arithmetic::div_mod::lemma_mod_multiples_basic(c * q, 4);
    }
    vstd::arithmetic::div_mod::lemma_mod_add_multiples_vanish(pos, cap);
    let l = last_chunk_start(len, cap);
    vstd::arithmetic::div_mod::lemma_fundamental_div_mod(len, cap);
    assert(l == cap * (len / cap));
    vstd::arithmetic::div_mod::lemma_mod_multiples_basic(len / cap, cap);
    assert(l % cap == 0) by {
        assert(cap * (len / cap) == (len / cap) * cap) by (nonlinear_arith);
    }
    if pos < len {
        vstd::arithmetic::div_mod::lemma_fundamental_div_mod(pos, cap);
        let qp = pos / cap;
        let ql = len / cap;
        assert(pos == cap * qp);
        if qp < ql {
            assert(cap * (qp + 1) <= cap * ql) by (nonlinear_arith)
                requires
                    qp + 1 <= ql,
                    cap > 0,
            ;
            assert(cap * (qp + 1) == cap * qp + cap) by (nonlinear_arith);
        } else if qp > ql {
            assert(cap * (ql + 1) <= cap * qp) by (nonlinear_arith)
                requires
                    ql + 1 <= qp,
                    cap > 0,
            ;
            assert(cap * (ql + 1) == cap * ql + cap) by (nonlinear_arith);
        }
    }
}

} // verus!
