use image_dedup::fingerprint::Fingerprint;

fn print_of(bit_len: u32, bytes: Vec<u8>) -> Fingerprint {
    Fingerprint::from_bytes(bit_len, bytes).unwrap()
}

#[test]
fn from_bytes_takes_the_bytes_that_fit() {
    assert!(Fingerprint::from_bytes(144, vec![0u8; 18]).is_some());
    assert!(Fingerprint::from_bytes(64, vec![0u8; 8]).is_some());
    assert!(Fingerprint::from_bytes(25, vec![0u8; 4]).is_some());
    assert!(Fingerprint::from_bytes(0, Vec::new()).is_some());
}

#[test]
fn from_bytes_refuses_a_wrong_number_of_bytes() {
    assert!(Fingerprint::from_bytes(144, vec![0u8; 17]).is_none());
    assert!(Fingerprint::from_bytes(144, vec![0u8; 19]).is_none());
    assert!(Fingerprint::from_bytes(25, vec![0u8; 3]).is_none());
    assert!(Fingerprint::from_bytes(0, vec![0u8; 1]).is_none());
    assert!(Fingerprint::from_bytes(1, Vec::new()).is_none());
}

#[test]
fn bit_len_is_the_width_given() {
    assert_eq!(print_of(144, vec![0u8; 18]).bit_len(), 144);
    assert_eq!(print_of(25, vec![0u8; 4]).bit_len(), 25);
    assert_eq!(print_of(0, Vec::new()).bit_len(), 0);
}

#[test]
fn to_bytes_gives_the_bytes_back() {
    let bytes = vec![0x12u8, 0x34, 0x56];
    assert_eq!(print_of(24, bytes.clone()).to_bytes(), bytes);
}

#[test]
fn distance_counts_differing_bits() {
    let a = print_of(16, vec![0xFF, 0x00]);
    let b = print_of(16, vec![0x0F, 0x00]);
    assert_eq!(a.distance(&b), 4);
    let c = print_of(16, vec![0b1010_1010, 0b0000_0001]);
    let d = print_of(16, vec![0b0101_0101, 0b0000_0000]);
    assert_eq!(c.distance(&d), 9);
}

#[test]
fn distance_to_itself_is_zero() {
    let a = print_of(24, vec![0xDE, 0xAD, 0xBE]);
    let same = print_of(24, vec![0xDE, 0xAD, 0xBE]);
    assert_eq!(a.distance(&a), 0);
    assert_eq!(a.distance(&same), 0);
}

#[test]
fn distance_is_symmetric() {
    let a = print_of(24, vec![0xDE, 0xAD, 0xBE]);
    let b = print_of(24, vec![0x01, 0xFF, 0x80]);
    assert_eq!(a.distance(&b), b.distance(&a));
    assert_eq!(a.distance(&b), 7 + 3 + 5);
}

#[test]
fn distance_reaches_the_bit_length_and_no_more() {
    let zeros = print_of(144, vec![0x00; 18]);
    let ones = print_of(144, vec![0xFF; 18]);
    assert_eq!(zeros.distance(&ones), 144);
    let few_zeros = print_of(5, vec![0x00]);
    let few_ones = print_of(5, vec![0xFF]);
    assert_eq!(few_zeros.distance(&few_ones), 5);
}

#[test]
fn distance_leaves_out_the_bits_beyond_the_width() {
    let a = print_of(4, vec![0b1111_0000]);
    let b = print_of(4, vec![0b0000_0000]);
    assert_eq!(a.distance(&b), 0);
    let c = print_of(12, vec![0x00, 0b1111_0011]);
    let d = print_of(12, vec![0x00, 0b0000_0000]);
    assert_eq!(c.distance(&d), 2);
}

#[test]
fn distance_of_unequal_widths_is_taken_over_the_shorter() {
    let long = print_of(16, vec![0xFF, 0xFF]);
    let short = print_of(8, vec![0x00]);
    assert_eq!(long.distance(&short), 8);
    assert_eq!(short.distance(&long), 8);
    let shorter = print_of(3, vec![0x00]);
    assert_eq!(long.distance(&shorter), 3);
}

#[test]
fn distance_of_empty_fingerprints_is_zero() {
    let a = print_of(0, Vec::new());
    let b = print_of(8, vec![0xFF]);
    assert_eq!(a.distance(&b), 0);
    assert_eq!(a.distance(&a), 0);
}
