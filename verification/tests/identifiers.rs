use blake2::{Blake2b, Digest};
use typenum::U32;

use ciruela::block_id::BlockHash;
use ciruela::hex_codec::HexError;
use ciruela::hexlify::to_hex;
use ciruela::machine_id::{MachineId, MachineIdError};

#[test]
fn block_hash_from_bytes_needs_32_bytes() {
    let bytes: Vec<u8> = (0..32).collect();
    let h = BlockHash::from_bytes(&bytes).expect("32 bytes make a hash");
    assert_eq!(h.as_bytes(), &bytes[..]);
    assert!(BlockHash::from_bytes(&bytes[..31]).is_none());
    assert!(BlockHash::from_bytes(&[0u8; 33]).is_none());
    assert!(BlockHash::from_bytes(&[]).is_none());
}

#[test]
fn block_hash_bytes_round_trip() {
    let h = BlockHash::for_bytes(b"some block");
    let again = BlockHash::from_bytes(h.as_bytes()).unwrap();
    assert_eq!(again.as_bytes(), h.as_bytes());
}

#[test]
fn block_hash_of_empty_block() {
    let h = BlockHash::for_bytes(b"");
    assert_eq!(
        h.to_string(),
        "0e5751c026e543b2e8ab2eb06099daa1d1e5df47778f7787faab45cdf12fe3a8"
    );
}

#[test]
fn block_hash_is_blake2b_256() {
    let data = b"the quick brown fox";
    let mut d = Blake2b::<U32>::new();
    d.update(data);
    let expected = d.finalize().to_vec();
    let h = BlockHash::for_bytes(data);
    assert_eq!(h.as_bytes(), &expected[..]);
    assert_ne!(h.as_bytes(), &BlockHash::for_bytes(b"other data").as_bytes()[..]);
}

#[test]
fn block_hash_to_string_is_lowercase_hex() {
    let mut bytes = [0u8; 32];
    bytes[0] = 0xab;
    bytes[31] = 0x0f;
    let h = BlockHash::from_bytes(&bytes).unwrap();
    let s = h.to_string();
    assert_eq!(s.len(), 64);
    assert!(s.starts_with("ab00"));
    assert!(s.ends_with("000f"));
}

#[test]
fn to_hex_renders_two_digits_per_byte() {
    assert_eq!(to_hex(&[0x00, 0xab, 0xff, 0x10]), "00abff10");
    assert_eq!(to_hex(&[]), "");
}

#[test]
fn machine_id_new_and_to_string() {
    let bytes: Vec<u8> = (0..32).map(|x| x as u8 * 3).collect();
    let id = MachineId::new(&bytes);
    assert_eq!(id.as_bytes(), &bytes[..]);
    assert_eq!(id.to_string(), to_hex(&bytes));
    assert_eq!(&id.to_string()[..6], "000306");
}

#[test]
fn machine_id_from_bytes() {
    assert!(MachineId::from_bytes(&[1u8; 32]).is_some());
    assert!(MachineId::from_bytes(&[1u8; 16]).is_none());
}

#[test]
fn machine_id_file_wrong_length() {
    assert_eq!(
        MachineId::from_file_contents("0123456789").err(),
        Some(MachineIdError::WrongLength)
    );
    assert_eq!(
        MachineId::from_file_contents(&"a".repeat(64)).err(),
        Some(MachineIdError::WrongLength)
    );
}

#[test]
fn machine_id_file_with_newline_is_odd() {
    let contents = format!("{}\n", "0123456789abcdef0123456789abcdef");
    assert_eq!(
        MachineId::from_file_contents(&contents).err(),
        Some(MachineIdError::Hex(HexError::OddLength))
    );
}

#[test]
fn machine_id_file_not_hex() {
    let contents = "0123456789abcdef0123456789abcdeg";
    assert_eq!(
        MachineId::from_file_contents(contents).err(),
        Some(MachineIdError::Hex(HexError::InvalidHexCharacter { c: 'g', index: 31 }))
    );
}

#[test]
fn machine_id_short_hex_contents() {
    assert!(MachineId::is_short_hex("0123456789abcdef0123456789ABCDEF"));
    assert!(!MachineId::is_short_hex("0123456789abcdef0123456789abcdeg"));
    assert!(!MachineId::is_short_hex("0123456789abcdef0123456789abcdef\n"));
}
