use identity_linker::ledger::{AddOutcome, IdentityLedger, RejectReason, MAX_LINKS};
use identity_linker::validator::{
    is_valid_source_address, is_valid_target_address, parse_target_address, TargetAddress,
};

fn owner(b: u8) -> TargetAddress {
    TargetAddress { bytes: vec![b; 32] }
}

fn addr(n: u32) -> String {
    format!("0x{:040x}", n)
}

#[test]
fn source_address_grammar() {
    assert!(is_valid_source_address(
        "0x0123456789abcdefABCDEF0123456789abcdefAB"
    ));
    assert!(is_valid_source_address(&addr(7)));
    // wrong length
    assert!(!is_valid_source_address("0x0123456789abcdef"));
    assert!(!is_valid_source_address(
        "0x0123456789abcdefABCDEF0123456789abcdefAB0"
    ));
    // missing or wrong prefix
    assert!(!is_valid_source_address(
        "1x0123456789abcdefABCDEF0123456789abcdefAB"
    ));
    assert!(!is_valid_source_address(
        "0X0123456789abcdefABCDEF0123456789abcdefAB"
    ));
    // a non-hex character
    assert!(!is_valid_source_address(
        "0x0123456789abcdefABCDEF0123456789abcdefAG"
    ));
    assert!(!is_valid_source_address(""));
    assert!(!is_valid_source_address("0x"));
}

#[test]
fn target_address_grammar() {
    // thirty-two zero digits decode to thirty-two zero bytes
    assert!(is_valid_target_address("11111111111111111111111111111111"));
    assert!(!is_valid_target_address("1111111111111111111111111111111"));
    // characters outside the alphabet
    assert!(!is_valid_target_address("0000000000000000000000000000000O"));
    assert!(!is_valid_target_address("l1111111111111111111111111111111"));
    assert!(!is_valid_target_address(""));
    assert!(!is_valid_target_address("0x00"));
    // a round trip through the reference encoder
    let bytes: Vec<u8> = (0u8..32).collect();
    let text = bs58::encode(&bytes).into_string();
    assert!(is_valid_target_address(&text));
    let parsed = parse_target_address(&text).expect("encoded key must parse");
    assert_eq!(parsed.bytes, bytes);
    let zeros = parse_target_address("11111111111111111111111111111111").expect("must parse");
    assert_eq!(zeros.bytes, vec![0u8; 32]);
}

#[test]
fn add_twice_is_idempotent() {
    let mut l = IdentityLedger::new(owner(1), 0);
    let a = addr(1);
    assert_eq!(l.try_add_address(a.clone()), AddOutcome::Added);
    assert_eq!(l.try_add_address(a.clone()), AddOutcome::AlreadyLinked);
    let listed = l.list();
    assert_eq!(listed.len(), 1);
    assert_eq!(listed[0], a);
}

#[test]
fn eleventh_distinct_address_exceeds_capacity() {
    let mut l = IdentityLedger::new(owner(2), 0);
    for n in 0..MAX_LINKS as u32 {
        assert_eq!(l.try_add_address(addr(n)), AddOutcome::Added);
    }
    assert_eq!(
        l.try_add_address(addr(MAX_LINKS as u32)),
        AddOutcome::CapacityExceeded
    );
    let listed = l.list();
    assert_eq!(listed.len(), MAX_LINKS);
    for n in 0..MAX_LINKS as u32 {
        assert_eq!(listed[n as usize], addr(n));
    }
}

#[test]
fn invalid_candidate_is_rejected() {
    let mut l = IdentityLedger::new(owner(3), 0);
    assert_eq!(
        l.try_add_address("not-an-address".to_string()),
        AddOutcome::Rejected(RejectReason::InvalidAddress)
    );
    assert_eq!(l.list().len(), 0);
}

#[test]
fn contains_is_exact_match() {
    let mut l = IdentityLedger::new(owner(4), 0);
    let lower = "0x00000000000000000000000000000000000000ab".to_string();
    let upper = "0x00000000000000000000000000000000000000AB".to_string();
    assert_eq!(l.try_add_address(lower.clone()), AddOutcome::Added);
    assert!(l.contains(&lower));
    // no normalization: the other casing is a different entry
    assert!(!l.contains(&upper));
    assert_eq!(l.try_add_address(upper.clone()), AddOutcome::Added);
    assert_eq!(l.list().len(), 2);
}
