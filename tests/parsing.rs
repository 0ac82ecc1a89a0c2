use ethers::signers::{LocalWallet, Signer};
use ethers::utils::hash_message;
use ethos::address::{to_full_addr, Address};
use ethos::decimal::{parse_decimal, push_decimal};
use ethos::errors::AuthError;
use ethos::hex::{bytes_equal, decode_hex_from, hex_digit};
use ethos::message::create_message;
use ethos::signature::{parse_signature, verify};

#[test]
fn address_reads_with_or_without_prefix() {
    let a = Address::from_text("0x5aaeb6053f3e94c9b9a09f33669435e7ef1beaed").unwrap();
    let b = Address::from_text("5AAEB6053F3E94C9B9A09F33669435E7EF1BEAED").unwrap();
    assert_eq!(a.as_bytes(), b.as_bytes());
    assert_eq!(a.as_bytes()[0], 0x5a);
    assert_eq!(a.as_bytes()[19], 0xed);
}

#[test]
fn address_text_that_is_not_an_address() {
    assert!(Address::from_text("").is_none());
    assert!(Address::from_text("0x").is_none());
    assert!(Address::from_text("0x5aaeb6053f3e94c9b9a09f33669435e7ef1bea").is_none());
    assert!(Address::from_text("0x5aaeb6053f3e94c9b9a09f33669435e7ef1beaed00").is_none());
    assert!(Address::from_text("0x5aaeb6053f3e94c9b9a09f33669435e7ef1beaeg").is_none());
    assert!(Address::from_text("0X5aaeb6053f3e94c9b9a09f33669435e7ef1beaed").is_none());
}

#[test]
fn full_address_is_the_checksummed_form() {
    let a = Address::from_text("0x5aaeb6053f3e94c9b9a09f33669435e7ef1beaed").unwrap();
    assert_eq!(to_full_addr(&a), "0x5aAeb6053F3E94C9b9A09f33669435E7Ef1BeAed");
    let b = Address::from_text("0xdbf03b407c01e7cd3cbea99509d93f8dddc8c6fb").unwrap();
    assert_eq!(to_full_addr(&b), "0xdbF03B407c01E7cD3CBea99509d93f8DDDC8C6FB");
}

#[test]
fn message_has_the_fixed_template() {
    let a = Address::from_text("0x5aaeb6053f3e94c9b9a09f33669435e7ef1beaed").unwrap();
    let m = create_message(&a, "abc-123");
    assert_eq!(
        m,
        "Welcome\n\nClick to sign in and accept the Terms of Service\nThis request will not trigger a blockchain transaction or cost any gas fees.\nYour authentication status will reset after 24 hours.\n\nWallet address:\n0x5aAeb6053F3E94C9b9A09f33669435E7Ef1BeAed\n\nNonce:\nabc-123"
    );
}

#[test]
fn message_is_deterministic() {
    let a = Address::from_text("0x5aaeb6053f3e94c9b9a09f33669435e7ef1beaed").unwrap();
    assert_eq!(create_message(&a, "n"), create_message(&a, "n"));
    assert_ne!(create_message(&a, "n"), create_message(&a, "m"));
}

#[test]
fn signature_text_forms() {
    let hex130 = "11".repeat(65);
    assert_eq!(parse_signature(&hex130).unwrap(), vec![0x11u8; 65]);
    assert_eq!(parse_signature(&format!("0x{}", hex130)).unwrap().len(), 65);
    assert_eq!(parse_signature(&format!("0X{}", hex130.to_uppercase())).unwrap(), vec![0x11u8; 65]);
    assert!(parse_signature(&"11".repeat(64)).is_none());
    assert!(parse_signature(&format!("{}1", hex130)).is_none());
    assert!(parse_signature(&format!("{}zz", "11".repeat(64))).is_none());
}

#[test]
fn verify_recovers_the_signer() {
    let w: LocalWallet = "4c0883a69102937d6231471b5dbb6204fe5129617082792ae468d01a3f362318".parse().unwrap();
    let a = Address::from_text(&format!("{:#x}", w.address())).unwrap();
    let sig = w.sign_hash(hash_message("hello")).unwrap().to_string();
    assert_eq!(verify("hello", &sig, &a), Ok(()));
    assert_eq!(verify("hello!", &sig, &a), Err(AuthError::InvalidSignature));
    let other = Address::from_text("0x5aaeb6053f3e94c9b9a09f33669435e7ef1beaed").unwrap();
    assert_eq!(verify("hello", &sig, &other), Err(AuthError::InvalidSignature));
    assert_eq!(verify("hello", "0xdeadbeef", &a), Err(AuthError::InvalidSignature));
    assert_eq!(verify("hello", &"00".repeat(65), &a), Err(AuthError::InvalidSignature));
}

#[test]
fn decimal_text_round_trip() {
    for n in [0u64, 7, 10, 42, 86400, 1_700_000_000, u64::MAX] {
        let mut s = String::new();
        push_decimal(&mut s, n);
        assert_eq!(s, n.to_string());
        assert_eq!(parse_decimal(&s), Some(n));
    }
}

#[test]
fn decimal_text_is_exact() {
    assert_eq!(parse_decimal(""), None);
    assert_eq!(parse_decimal("007"), None);
    assert_eq!(parse_decimal("-1"), None);
    assert_eq!(parse_decimal("1 "), None);
    assert_eq!(parse_decimal("18446744073709551616"), None);
    assert_eq!(parse_decimal("18446744073709551615"), Some(u64::MAX));
}

#[test]
fn hex_helpers() {
    assert_eq!(hex_digit('a'), Some(10));
    assert_eq!(hex_digit('F'), Some(15));
    assert_eq!(hex_digit('g'), None);
    assert_eq!(decode_hex_from("xx0aFf", 2), Some(vec![0x0a, 0xff]));
    assert_eq!(decode_hex_from("0aF", 0), None);
    assert!(bytes_equal(&vec![1, 2], &vec![1, 2]));
    assert!(!bytes_equal(&vec![1, 2], &vec![1, 3]));
}
