use n64rom::bytes::Endianness;
use n64rom::convert::{convert, Error};
use n64rom::stream::{Reader, Writer, BUFFER_SIZE};

fn sample(len: usize) -> Vec<u8> {
    (0..len).map(|i| (i * 13 + 5) as u8).collect()
}

fn read_all(reader: &mut Reader, chunk: usize) -> Result<Vec<u8>, Error> {
    let mut out = Vec::new();
    loop {
        let mut buf = vec![0u8; chunk];
        let n = reader.read(&mut buf)?;
        out.extend_from_slice(&buf[..n]);
        if n < chunk {
            return Ok(out);
        }
    }
}

#[test]
fn reader_serves_big_order() {
    let stored = vec![4, 3, 2, 1, 8, 7, 6, 5];
    let mut reader = Reader::with_buffer_size(&stored, Endianness::Little, 4);
    let mut buf = [0u8; 3];
    assert_eq!(reader.read(&mut buf), Ok(3));
    assert_eq!(buf, [1, 2, 3]);
    let mut rest = [0u8; 10];
    assert_eq!(reader.read(&mut rest), Ok(5));
    assert_eq!(&rest[..5], &[4, 5, 6, 7, 8]);
    assert_eq!(reader.read(&mut rest), Ok(0));
}

#[test]
fn reader_empty_request_and_source() {
    let empty: Vec<u8> = Vec::new();
    let mut reader = Reader::from(&empty, Endianness::Mixed);
    let mut buf = [0u8; 4];
    assert_eq!(reader.read(&mut buf), Ok(0));
    let data = sample(8);
    let mut reader = Reader::from(&data, Endianness::Mixed);
    assert_eq!(reader.read(&mut []), Ok(0));
}

#[test]
fn reader_rejects_unaligned_last_chunk() {
    let stored = sample(10);
    let mut reader = Reader::with_buffer_size(&stored, Endianness::Big, 4);
    let mut buf = [0u8; 8];
    assert_eq!(reader.read(&mut buf), Ok(8));
    assert_eq!(&buf[..], &stored[..8]);
    let mut more = [0u8; 1];
    assert_eq!(reader.read(&mut more), Err(Error::AlignmentError(2)));
}

#[test]
fn writer_converts_on_flush() {
    let mut writer = Writer::with_buffer_size(Endianness::Little, 4);
    assert_eq!(writer.write(&[1, 2, 3]), 3);
    assert_eq!(writer.write(&[4, 5, 6, 7, 8]), 5);
    assert_eq!(writer.flush(), Ok(()));
    assert_eq!(writer.into_inner(), vec![4, 3, 2, 1, 8, 7, 6, 5]);
}

#[test]
fn writer_flush_rejects_unaligned_data() {
    let mut writer = Writer::from(Endianness::Mixed);
    writer.write(&[1, 2, 3, 4, 5, 6]);
    assert_eq!(writer.flush(), Err(Error::AlignmentError(6)));
    writer.write(&[7, 8]);
    assert_eq!(writer.flush(), Ok(()));
    assert_eq!(writer.into_inner(), vec![2, 1, 4, 3, 6, 5, 8, 7]);
}

#[test]
fn reader_writer_round_trip() {
    for order in [Endianness::Little, Endianness::Mixed] {
        for len in [0usize, 4, 60, 64, 68, 1000, 3 * BUFFER_SIZE + 12] {
            for capacity in [4usize, 8, 64, BUFFER_SIZE] {
                let stored = sample(len);
                let mut reader = Reader::with_buffer_size(&stored, order, capacity);
                let big = read_all(&mut reader, 7).unwrap();
                let mut expected = stored.clone();
                convert(&mut expected, order, Endianness::Big).unwrap();
                assert_eq!(big, expected);

                let mut writer = Writer::with_buffer_size(order, capacity);
                for piece in big.chunks(9) {
                    assert_eq!(writer.write(piece), piece.len());
                }
                writer.flush().unwrap();
                assert_eq!(writer.into_inner(), stored);
            }
        }
    }
}

#[test]
fn writer_hands_out_whole_buffers() {
    let mut writer = Writer::with_buffer_size(Endianness::Little, 4);
    assert_eq!(writer.write(&[1, 2, 3, 4, 5, 6, 7, 8, 9]), 9);
    // Two full buffers went to the output; the ninth byte is still buffered.
    assert_eq!(writer.into_inner(), vec![4, 3, 2, 1, 8, 7, 6, 5]);
}
