use n64rom::bytes::Endianness;
use n64rom::convert::convert;
use n64rom::header::{Error, Header, Magic};
use n64rom::ipl3::{IPL3, IPL_SIZE};

fn header_bytes() -> Vec<u8> {
    let mut bytes = vec![0x80, 0x37, 0x12, 0x40];
    bytes.extend_from_slice(&[0, 0, 0, 0x0f]); // clock rate
    bytes.extend_from_slice(&[0x80, 0x00, 0x04, 0x00]); // entry point
    bytes.extend_from_slice(&[0, 0, 0x14, 0x44]); // release
    bytes.extend_from_slice(&[0x12, 0x34, 0x56, 0x78]); // crc1
    bytes.extend_from_slice(&[0x9a, 0xbc, 0xde, 0xf0]); // crc2
    bytes.extend_from_slice(&[0; 8]);
    bytes.extend_from_slice(b"HELLO WORLD         ");
    bytes.extend_from_slice(&[0; 7]);
    bytes.extend_from_slice(b"NHWE");
    bytes.push(0);
    bytes
}

#[test]
fn infer_byte_order_known_magics() {
    assert_eq!(Magic::infer_byte_order(&[0x80, 0x37, 0x12, 0x40]), Ok(Endianness::Big));
    assert_eq!(Magic::infer_byte_order(&[0x40, 0x12, 0x37, 0x80]), Ok(Endianness::Little));
    assert_eq!(Magic::infer_byte_order(&[0x37, 0x80, 0x40, 0x12]), Ok(Endianness::Mixed));
    assert_eq!(
        Magic::infer_byte_order(&[0x12, 0x40, 0x80, 0x37]),
        Err(Error::UnknownByteOrder(0x1240_8037))
    );
}

#[test]
fn classify_header_in_each_order() {
    let header = header_bytes();
    assert_eq!(header.len(), 64);
    assert_eq!(Magic::infer_byte_order(&header), Ok(Endianness::Big));
    let mut little = header.clone();
    convert(&mut little, Endianness::Big, Endianness::Little).unwrap();
    assert_eq!(Magic::infer_byte_order(&little), Ok(Endianness::Little));
    let mut mixed = header.clone();
    convert(&mut mixed, Endianness::Big, Endianness::Mixed).unwrap();
    assert_eq!(Magic::infer_byte_order(&mixed), Ok(Endianness::Mixed));
}

#[test]
fn magic_accessors() {
    let magic = Magic::new();
    assert_eq!(magic.to_u32(), 0x8037_1240);
    assert_eq!(magic.byte_order(), Ok(Endianness::Big));
    assert_eq!(magic.device_latency(), 0x80);
    assert_eq!(magic.device_rw_pulse_width(), 0x37);
    assert_eq!(magic.device_page_size(), 0x12);
    assert_eq!(magic.device_rw_release_duration(), 0x40);
    let other = Magic::from(&[0x37, 0x80, 0x40, 0x12, 0xff]);
    assert_eq!(other.to_u32(), 0x3780_4012);
    assert_eq!(other.byte_order(), Ok(Endianness::Mixed));
}

#[test]
fn read_header_fields() {
    let header = Header::read(&header_bytes()).unwrap();
    assert_eq!(header.crcs(), (0x1234_5678, 0x9abc_def0));
    assert_eq!(header.clock_rate, 15);
    assert_eq!(header.entry_point, 0x8000_0400);
    assert_eq!(header.release, 0x1444);
    assert_eq!(header.magic().to_u32(), 0x8037_1240);
    assert_eq!(header.name(), b"HELLO WORLD         ");
    assert_eq!(header.name_str(), Ok("HELLO WORLD         "));
    assert_eq!(header.media().as_str(), Ok("NHWE"));
    assert_eq!(header.media().chars(), ('N', 'H', 'W', 'E'));
    assert_eq!(header.media().values(), (b'N', b'H', b'W', b'E'));
}

#[test]
fn read_header_too_short() {
    let bytes = header_bytes();
    assert_eq!(Header::read(&bytes[..63]).unwrap_err(), Error::UnexpectedEof(63));
    assert_eq!(Header::read_ordered(&bytes[..10]).unwrap_err(), Error::UnexpectedEof(10));
}

#[test]
fn name_str_rejects_invalid_utf8() {
    let mut bytes = header_bytes();
    bytes[32] = 0xff;
    let header = Header::read(&bytes).unwrap();
    assert!(header.name_str().is_err());
}

#[test]
fn write_header_round_trip() {
    let bytes = header_bytes();
    let header = Header::read(&bytes).unwrap();
    let mut out = vec![0xaa];
    assert_eq!(header.write(&mut out), Header::SIZE);
    assert_eq!(out[0], 0xaa);
    assert_eq!(&out[1..], &bytes[..]);
}

#[test]
fn read_ordered_in_every_order() {
    let bytes = header_bytes();
    for order in [Endianness::Big, Endianness::Little, Endianness::Mixed] {
        let mut stored = bytes.clone();
        convert(&mut stored, Endianness::Big, order).unwrap();
        stored.extend_from_slice(&[1, 2, 3]);
        let (header, found) = Header::read_ordered(&stored).unwrap();
        assert_eq!(found, order);
        assert_eq!(header.crcs(), (0x1234_5678, 0x9abc_def0));
        let mut out = Vec::new();
        header.write(&mut out);
        assert_eq!(out, bytes);
    }
}

#[test]
fn read_ordered_unknown_magic() {
    let mut bytes = header_bytes();
    bytes[0] = 0;
    assert_eq!(
        Header::read_ordered(&bytes).unwrap_err(),
        Error::UnknownByteOrder(0x0037_1240)
    );
}

#[test]
fn new_header_fields() {
    let program: Vec<u8> = (0..4096u32).map(|i| i as u8).collect();
    let ipl3 = IPL3::Cic6103([0; IPL_SIZE]);
    let header = Header::new(0x8000_0400, "ABCDEFGHIJKLMNOPQRSTUVWXYZ", b"NABE", &program, &[], &ipl3);
    assert_eq!(header.magic().to_u32(), 0x8037_1240);
    assert_eq!(header.clock_rate, 15);
    assert_eq!(header.entry_point, 0x8010_0400);
    assert_eq!(header.release, 0);
    assert_eq!(header.crcs(), ipl3.compute_crcs(&program, &[]));
    assert_eq!(header.name(), b"ABCDEFGHIJKLMNOPQRST");
    assert_eq!(header.media().values(), (b'N', b'A', b'B', b'E'));
}
