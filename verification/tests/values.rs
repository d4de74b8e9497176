use eth_calldata::{AbiError, EthereumTypes};

#[test]
fn name_as_str_test() {
    assert_eq!(EthereumTypes::Address([0u8; 20]).name_as_str(), "address");
    assert_eq!(EthereumTypes::U256([0u8; 32]).name_as_str(), "uint256");
}

#[test]
fn address_word_is_zero_extended_test() {
    let word = EthereumTypes::Address(
        [
            0x30, 0xE7, 0xd7, 0xFf, 0xF8, 0x5C, 0x8d, 0x0E, 0x77, 0x51, 0x40, 0xb1, 0xaD, 0x93,
            0xC2, 0x30, 0xD5, 0x59, 0x52, 0x07,
        ],
    )
    .value_as_u256();
    assert_eq!(
        word,
        [
            0x00, 0x00, 0x00, 0x00, 0x00, 0x00, 0x00, 0x00, 0x00, 0x00, 0x00, 0x00, 0x30, 0xe7,
            0xd7, 0xff, 0xf8, 0x5c, 0x8d, 0x0e, 0x77, 0x51, 0x40, 0xb1, 0xad, 0x93, 0xc2, 0x30,
            0xd5, 0x59, 0x52, 0x07
        ]
    );
}

#[test]
fn u256_word_is_unchanged_test() {
    let mut stored = [0u8; 32];
    stored[0] = 0xab;
    stored[31] = 0xcd;
    assert_eq!(EthereumTypes::U256(stored).value_as_u256(), stored);
}

#[test]
fn address_from_bytes_pads_left_test() {
    let v = EthereumTypes::address_from_bytes(&[0xde, 0xad, 0xbe, 0xef]).unwrap();
    let mut expected = [0u8; 32];
    expected[28] = 0xde;
    expected[29] = 0xad;
    expected[30] = 0xbe;
    expected[31] = 0xef;
    assert_eq!(v.value_as_u256(), expected);
    assert_eq!(v.name_as_str(), "address");
}

#[test]
fn u256_from_bytes_pads_left_test() {
    let v = EthereumTypes::u256_from_bytes(&20000000000_u64.to_be_bytes()).unwrap();
    let mut expected = [0u8; 32];
    expected[24..32].copy_from_slice(&20000000000_u64.to_be_bytes());
    assert_eq!(v.value_as_u256(), expected);
    assert_eq!(v.name_as_str(), "uint256");
}

#[test]
fn from_bytes_empty_input_test() {
    let a = EthereumTypes::address_from_bytes(&[]).unwrap();
    assert_eq!(a.value_as_u256(), [0u8; 32]);
    let u = EthereumTypes::u256_from_bytes(&[]).unwrap();
    assert_eq!(u.value_as_u256(), [0u8; 32]);
}

#[test]
fn from_bytes_full_width_test() {
    let addr_bytes = [0x11u8; 20];
    let a = EthereumTypes::address_from_bytes(&addr_bytes).unwrap();
    let mut expected = [0u8; 32];
    expected[12..32].copy_from_slice(&addr_bytes);
    assert_eq!(a.value_as_u256(), expected);

    let word = [0x22u8; 32];
    let u = EthereumTypes::u256_from_bytes(&word).unwrap();
    assert_eq!(u.value_as_u256(), word);
}

#[test]
fn address_from_bytes_oversized_test() {
    match EthereumTypes::address_from_bytes(&[0u8; 21]) {
        Err(AbiError::OversizedInput) => {}
        other => panic!("expected OversizedInput, got {:?}", other.map(|_| ())),
    }
}

#[test]
fn u256_from_bytes_oversized_test() {
    match EthereumTypes::u256_from_bytes(&[0u8; 33]) {
        Err(AbiError::OversizedInput) => {}
        other => panic!("expected OversizedInput, got {:?}", other.map(|_| ())),
    }
}
