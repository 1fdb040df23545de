use n64rom::bytes::Endianness;
use n64rom::convert::{convert, convert_image, ConvertStatus, Error};
use n64rom::header::Error as HeaderError;

const ORDERS: [Endianness; 3] = [Endianness::Big, Endianness::Little, Endianness::Mixed];

fn sample(len: usize) -> Vec<u8> {
    (0..len).map(|i| (i * 31 + 7) as u8).collect()
}

#[test]
fn convert_big_to_little_reverses_words() {
    let mut buf = vec![1, 2, 3, 4, 5, 6, 7, 8];
    let status = convert(&mut buf, Endianness::Big, Endianness::Little).unwrap();
    assert_eq!(status, ConvertStatus::Complete);
    assert_eq!(buf, vec![4, 3, 2, 1, 8, 7, 6, 5]);
}

#[test]
fn convert_big_to_mixed_swaps_halves() {
    let mut buf = vec![1, 2, 3, 4];
    convert(&mut buf, Endianness::Mixed, Endianness::Big).unwrap();
    assert_eq!(buf, vec![2, 1, 4, 3]);
}

#[test]
fn convert_little_to_mixed_exchanges_halves() {
    let mut buf = vec![1, 2, 3, 4];
    convert(&mut buf, Endianness::Little, Endianness::Mixed).unwrap();
    assert_eq!(buf, vec![3, 4, 1, 2]);
}

#[test]
fn convert_same_order_is_already_converted() {
    let mut buf = sample(16);
    let status = convert(&mut buf, Endianness::Mixed, Endianness::Mixed).unwrap();
    assert_eq!(status, ConvertStatus::AlreadyConverted);
    assert_eq!(buf, sample(16));
}

#[test]
fn convert_rejects_unaligned_buffers() {
    for len in [1usize, 2, 3, 5, 6, 7] {
        for from in ORDERS {
            for to in ORDERS {
                let mut buf = sample(len);
                assert_eq!(convert(&mut buf, from, to), Err(Error::AlignmentError(len)));
                assert_eq!(buf, sample(len));
            }
        }
    }
}

#[test]
fn convert_empty_buffer() {
    let mut buf: Vec<u8> = Vec::new();
    assert_eq!(convert(&mut buf, Endianness::Big, Endianness::Little), Ok(ConvertStatus::Complete));
    assert!(buf.is_empty());
}

#[test]
fn convert_twice_in_one_direction_is_identity() {
    for from in ORDERS {
        for to in ORDERS {
            let mut buf = sample(64);
            convert(&mut buf, from, to).unwrap();
            convert(&mut buf, from, to).unwrap();
            assert_eq!(buf, sample(64));
        }
    }
}

#[test]
fn convert_through_an_intermediate_order() {
    for a in ORDERS {
        for b in ORDERS {
            for c in ORDERS {
                let mut twice = sample(40);
                convert(&mut twice, a, b).unwrap();
                convert(&mut twice, b, c).unwrap();
                let mut once = sample(40);
                convert(&mut once, a, c).unwrap();
                assert_eq!(twice, once);
            }
        }
    }
}

#[test]
fn convert_image_reads_order_from_magic() {
    let mut buf = vec![0x40, 0x12, 0x37, 0x80, 1, 2, 3, 4];
    let (status, order) = convert_image(&mut buf, Endianness::Big).unwrap();
    assert_eq!(status, ConvertStatus::Complete);
    assert_eq!(order, Endianness::Little);
    assert_eq!(buf, vec![0x80, 0x37, 0x12, 0x40, 4, 3, 2, 1]);
}

#[test]
fn convert_image_errors() {
    let mut short = vec![0x80, 0x37];
    assert_eq!(
        convert_image(&mut short, Endianness::Little),
        Err(Error::HeaderError(HeaderError::UnexpectedEof(2)))
    );
    let mut unknown = vec![1, 2, 3, 4];
    assert_eq!(
        convert_image(&mut unknown, Endianness::Little),
        Err(Error::HeaderError(HeaderError::UnknownByteOrder(0x0102_0304)))
    );
    let mut unaligned = vec![0x80, 0x37, 0x12, 0x40, 0];
    assert_eq!(convert_image(&mut unaligned, Endianness::Little), Err(Error::AlignmentError(5)));
}
