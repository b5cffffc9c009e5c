//! Transactions and signatures.
use rootmode_desktop::error::AppError;
use rootmode_desktop::eth_tx::{
    call_tx, parse_address, parse_u64_hex, raw_text, rlp_bytes, rlp_list, rlp_u64, send_error,
    sign_legacy, sign_ticket, strip_zeros, unsigned_rlp, LegacyTx,
};

fn bytes(text: &str) -> Vec<u8> {
    hex::decode(text).unwrap()
}

fn example() -> LegacyTx {
    LegacyTx {
        nonce: 9,
        gas_price: 20_000_000_000,
        gas: 21_000,
        to: vec![0x35; 20],
        value: 1_000_000_000_000_000_000,
        data: vec![],
        chain_id: 1,
    }
}

#[test]
fn numbers_are_written_in_as_few_bytes_as_it_takes() {
    assert_eq!(rlp_u64(0), vec![0x80]);
    assert_eq!(rlp_u64(127), vec![0x7f]);
    assert_eq!(rlp_u64(128), vec![0x81, 0x80]);
    assert_eq!(rlp_u64(1024), vec![0x82, 0x04, 0x00]);
    assert_eq!(strip_zeros(&vec![0, 0, 1, 0]), vec![1, 0]);
}

#[test]
fn texts_and_lists_are_wrapped_by_their_length() {
    assert_eq!(rlp_bytes(&b"dog".to_vec()), vec![0x83, b'd', b'o', b'g']);
    assert_eq!(rlp_bytes(&vec![]), vec![0x80]);
    let long = vec![7u8; 60];
    assert_eq!(&rlp_bytes(&long)[..2], &[0xb8, 60]);
    assert_eq!(rlp_list(&vec![]), vec![0xc0]);
    assert_eq!(
        rlp_list(&vec![rlp_bytes(&b"cat".to_vec()), rlp_bytes(&b"dog".to_vec())]),
        vec![0xc8, 0x83, b'c', b'a', b't', 0x83, b'd', b'o', b'g']
    );
}

#[test]
fn a_transaction_is_signed_as_the_standard_shows() {
    assert_eq!(
        hex::encode(unsigned_rlp(&example())),
        "ec098504a817c800825208943535353535353535353535353535353535353535880de0b6b3a764000080018080"
    );
    let key = vec![0x46; 32];
    let digest = bytes("daf5a779ae972f972197303d7b574746c7ef83eadac0f2791ad23db92e4c8e53");
    let raw = sign_legacy(&key, &example(), &digest).unwrap();
    assert_eq!(
        raw_text(&raw),
        "0xf86c098504a817c800825208943535353535353535353535353535353535353535880de0b6b3a7640000\
         8025a028ef61340bd939bc2195fe537567866003e1a15d3c71ff63e1590620aa636276\
         a067cbe9d8997f761aecb703304b3800ccf555c9f3dc64214b297fb1966a3b6d83"
    );
}

#[test]
fn a_ticket_carries_a_signature_of_sixty_five_bytes() {
    let key = vec![0x46; 32];
    let digest = vec![0x11; 32];
    let sig = sign_ticket(&key, &digest).unwrap();
    assert_eq!(sig.len(), 65);
    assert!(sig[64] == 27 || sig[64] == 28);
    assert_ne!(sign_ticket(&key, &vec![0x12; 32]).unwrap(), sig);
    assert!(sign_ticket(&vec![0; 32], &digest).is_err(), "zero is no key");
}

#[test]
fn quantities_and_addresses_are_read_as_the_chain_writes_them() {
    assert_eq!(parse_u64_hex("0x"), Ok(0));
    assert_eq!(parse_u64_hex(" 0x1f "), Ok(31));
    assert!(matches!(parse_u64_hex("0xzz"), Err(AppError::Net(_))));
    assert_eq!(parse_address(&format!("0x{}", "35".repeat(20))), Ok(vec![0x35; 20]));
    assert!(parse_address("0x35").is_err());
    assert!(parse_address("0xnothex").is_err());
}

#[test]
fn a_call_needs_a_gas_price_and_an_address() {
    let to = format!("0x{}", "35".repeat(20));
    assert_eq!(
        call_tx(1, 0, 1, &to, vec![]),
        Err(AppError::Net("eth_gasPrice returned 0".into()))
    );
    assert!(call_tx(1, 5, 1, "0x1", vec![]).is_err());
    assert_eq!(call_tx(1, 5, 1, &to, vec![9]).unwrap().data, vec![9]);
}

#[test]
fn an_empty_gas_purse_is_told_in_words() {
    let e = send_error(AppError::Net("Insufficient Funds for gas".into()), "0xkey");
    assert!(e.message().contains("needs a little ETH"));
    let other = send_error(AppError::Net("nonce too low".into()), "0xkey");
    assert_eq!(other, AppError::Net("nonce too low".into()));
}
