use n64rom::ipl3::{IPL3, IPL_SIZE, PROGRAM_SIZE};

fn counting_program() -> Vec<u8> {
    (0..PROGRAM_SIZE).map(|i| i as u8).collect()
}

#[test]
fn crc_ipl3_6101() {
    let ipl3 = IPL3::Cic6101([0; IPL_SIZE]);
    let program = counting_program();

    let (crc1, crc2) = ipl3.compute_crcs(&program, &[]);

    assert_eq!(crc1, 0xfac8_47da);
    assert_eq!(crc2, 0xb2de_a121);
}

#[test]
fn crc_ipl3_6102() {
    let ipl3 = IPL3::Cic6102([0; IPL_SIZE]);
    let program = counting_program();

    let (crc1, crc2) = ipl3.compute_crcs(&program, &[]);

    assert_eq!(crc1, 0xfac8_47da);
    assert_eq!(crc2, 0xb2de_a121);
}

#[test]
fn crc_ipl3_6103() {
    let ipl3 = IPL3::Cic6103([0; IPL_SIZE]);
    let program = counting_program();

    let (crc1, crc2) = ipl3.compute_crcs(&program, &[]);

    assert_eq!(crc1, 0xa98e_6d67);
    assert_eq!(crc2, 0x3bee_c487);
}

#[test]
fn crc_ipl3_6105() {
    let ipl3 = IPL3::Cic6105([0; IPL_SIZE]);
    let program = counting_program();

    let (crc1, crc2) = ipl3.compute_crcs(&program, &[]);

    assert_eq!(crc1, 0xe124_ee34);
    assert_eq!(crc2, 0x8ceb_5e63);
}

#[test]
fn crc_ipl3_6106() {
    let ipl3 = IPL3::Cic6106([0; IPL_SIZE]);
    let program = counting_program();

    let (crc1, crc2) = ipl3.compute_crcs(&program, &[]);

    assert_eq!(crc1, 0x66c6_70aa);
    assert_eq!(crc2, 0x3874_9798);
}

#[test]
fn crc_ipl3_7102() {
    let ipl3 = IPL3::Cic7102([0; IPL_SIZE]);
    let program = counting_program();

    let (crc1, crc2) = ipl3.compute_crcs(&program, &[]);

    assert_eq!(crc1, 0xfac8_47da);
    assert_eq!(crc2, 0xb2de_a121);
}

#[test]
fn offset_ipl3_6101() {
    let ipl3 = IPL3::Cic6101([0; IPL_SIZE]);
    assert_eq!(ipl3.offset(0x8000_0400), 0x8000_0400);
}

#[test]
fn offset_ipl3_6102() {
    let ipl3 = IPL3::Cic6102([0; IPL_SIZE]);
    assert_eq!(ipl3.offset(0x8000_0400), 0x8000_0400);
}

#[test]
fn offset_ipl3_6103() {
    let ipl3 = IPL3::Cic6103([0; IPL_SIZE]);
    assert_eq!(ipl3.offset(0x8000_0400), 0x8010_0400);
}

#[test]
fn offset_ipl3_6105() {
    let ipl3 = IPL3::Cic6105([0; IPL_SIZE]);
    assert_eq!(ipl3.offset(0x8000_0400), 0x8000_0400);
}

#[test]
fn offset_ipl3_6106() {
    let ipl3 = IPL3::Cic6106([0; IPL_SIZE]);
    assert_eq!(ipl3.offset(0x8000_0400), 0x8020_0400);
}

#[test]
fn offset_ipl3_7102() {
    let ipl3 = IPL3::Cic7102([0; IPL_SIZE]);
    assert_eq!(ipl3.offset(0x8000_0400), 0x8000_0400);
}

#[test]
fn offset_wraps_past_the_top_of_the_address_space() {
    let ipl3 = IPL3::Cic6106([0; IPL_SIZE]);
    assert_eq!(ipl3.offset(0xfff0_0000), 0x0010_0000);
}

#[test]
fn crc_unknown_loader_matches_default_rule() {
    let program = counting_program();
    let unknown = IPL3::Unknown([0; IPL_SIZE]).compute_crcs(&program, &[]);
    let cic6102 = IPL3::Cic6102([0; IPL_SIZE]).compute_crcs(&program, &[]);
    assert_eq!(unknown, cic6102);
}

#[test]
fn crc_splits_program_and_filesystem_with_padding() {
    // An odd-length program is padded with one zero byte before the filesystem.
    let ipl3 = IPL3::Cic6102([0; IPL_SIZE]);
    let whole: Vec<u8> = (0..1000u32).map(|i| (i * 7) as u8).collect();
    let mut padded = whole[..333].to_vec();
    padded.push(0);
    padded.extend_from_slice(&whole[333..]);
    let split = ipl3.compute_crcs(&whole[..333], &whole[333..]);
    assert_eq!(split, ipl3.compute_crcs(&padded, &[]));
    assert_ne!(split, ipl3.compute_crcs(&whole, &[]));
    // An even-length program gets no padding.
    assert_eq!(ipl3.compute_crcs(&whole[..334], &whole[334..]), ipl3.compute_crcs(&whole, &[]));
}

#[test]
fn crc_6105_reads_its_table_from_the_loader() {
    let program = counting_program();
    let mut image = [0u8; IPL_SIZE];
    let plain = IPL3::Cic6105(image).compute_crcs(&program, &[]);
    image[452 * 4 + 3] = 1;
    let changed = IPL3::Cic6105(image).compute_crcs(&program, &[]);
    assert_eq!(plain.0, changed.0);
    assert_ne!(plain.1, changed.1);
    // Outside the table the image does not matter.
    let mut other = [0u8; IPL_SIZE];
    other[0] = 0xff;
    other[516 * 4] = 0xff;
    assert_eq!(IPL3::Cic6105(other).compute_crcs(&program, &[]), plain);
}

#[test]
fn read_recognises_loader_by_crc32() {
    let zeros = vec![0u8; IPL_SIZE + 8];
    let ipl3 = IPL3::read(&zeros).unwrap();
    assert!(matches!(ipl3, IPL3::Unknown(_)));
    assert_eq!(ipl3.name(), "Unknown");
    assert_eq!(ipl3.get_ipl().len(), IPL_SIZE);
    assert!(IPL3::read(&zeros[..IPL_SIZE - 1]).is_err());
}

#[test]
fn read_keeps_the_image_bytes() {
    let bytes: Vec<u8> = (0..IPL_SIZE).map(|i| (i % 251) as u8).collect();
    let ipl3 = IPL3::read(&bytes).unwrap();
    assert_eq!(&ipl3.get_ipl()[..], &bytes[..]);
    let mut out = Vec::new();
    assert_eq!(ipl3.write(&mut out), IPL_SIZE);
    assert_eq!(out, bytes);
}

#[test]
fn from_crc_maps_known_checksums() {
    let image = [0u8; IPL_SIZE];
    assert!(matches!(IPL3::from_crc(image, 0x6170_a4a1), IPL3::Cic6101(_)));
    assert!(matches!(IPL3::from_crc(image, 0x90bb_6cb5), IPL3::Cic6102(_)));
    assert!(matches!(IPL3::from_crc(image, 0x0b05_0ee0), IPL3::Cic6103(_)));
    assert!(matches!(IPL3::from_crc(image, 0x98bc_2c86), IPL3::Cic6105(_)));
    assert!(matches!(IPL3::from_crc(image, 0xacc8_580a), IPL3::Cic6106(_)));
    assert!(matches!(IPL3::from_crc(image, 0x009e_9ea3), IPL3::Cic7102(_)));
    assert!(matches!(IPL3::from_crc(image, 0), IPL3::Unknown(_)));
    assert_eq!(IPL3::from_crc(image, 0x0b05_0ee0).name(), "CIC-NUS-6103");
}

#[test]
fn crc_covers_only_the_first_mebibyte() {
    let ipl3 = IPL3::Cic6105([0; IPL_SIZE]);
    let mut program = counting_program();
    let expected = ipl3.compute_crcs(&program, &[]);
    program.extend_from_slice(&[0xff; 64]);
    assert_eq!(ipl3.compute_crcs(&program, &[]), expected);
    assert_eq!(ipl3.compute_crcs(&program[..PROGRAM_SIZE], &[1, 2, 3]), expected);
}

#[test]
fn crc_of_empty_program_is_zero_region() {
    let ipl3 = IPL3::Cic6106([0; IPL_SIZE]);
    let zeros = vec![0u8; PROGRAM_SIZE];
    assert_eq!(ipl3.compute_crcs(&[], &[]), ipl3.compute_crcs(&zeros, &[]));
}
