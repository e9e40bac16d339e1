use identity_linker::ledger::AddOutcome;
use identity_linker::manager::{IdentityStore, LinkOutcome, ManagerError};
use identity_linker::receiver::{ClearError, DedupKey, DedupRegistry, Receiver, ReceiveOutcome};
use identity_linker::validator::{parse_target_address, TargetAddress};

const OWNER_TEXT: &str = "11111111111111111111111111111111";

fn owner_key() -> TargetAddress {
    parse_target_address(OWNER_TEXT).expect("owner text must parse")
}

fn payload(src: &str) -> Vec<u8> {
    format!("{}, {}, 1700000000", src, OWNER_TEXT).into_bytes()
}

fn dedup(nonce: u64) -> DedupKey {
    DedupKey {
        source_chain_id: 40161,
        sender_address: vec![0xee; 32],
        nonce,
    }
}

#[test]
fn uninitialized_target_is_reported_and_never_created() {
    let mut store = IdentityStore::new();
    let addr = "0xAbC0000000000000000000000000000000000001";
    assert_eq!(
        store.process_inbound_link(&payload(addr)),
        Ok(LinkOutcome::TargetNotInitialized)
    );
    // nothing was created on the message path
    assert_eq!(
        store.get_linked_addresses(&owner_key()).err(),
        Some(ManagerError::LedgerNotFound)
    );
}

#[test]
fn inbound_link_applies_to_initialized_ledger() {
    let mut store = IdentityStore::new();
    let me = owner_key();
    assert_eq!(store.init_identity(&me, owner_key(), 0), Ok(()));
    let addr = "0xAbC0000000000000000000000000000000000001";
    assert_eq!(
        store.process_inbound_link(&payload(addr)),
        Ok(LinkOutcome::Added)
    );
    let listed = store.get_linked_addresses(&me).expect("ledger exists");
    assert_eq!(listed, vec![addr.to_string()]);
    // a second delivery of the same assertion is an idempotent no-op
    assert_eq!(
        store.process_inbound_link(&payload(addr)),
        Ok(LinkOutcome::AlreadyLinked)
    );
    assert_eq!(store.get_linked_addresses(&me).unwrap().len(), 1);
}

#[test]
fn init_identity_runs_exactly_once_under_authorization() {
    let mut store = IdentityStore::new();
    let me = owner_key();
    let someone_else = TargetAddress { bytes: vec![9; 32] };
    assert_eq!(
        store.init_identity(&someone_else, owner_key(), 0),
        Err(ManagerError::AuthorizationFailed)
    );
    assert_eq!(store.init_identity(&me, owner_key(), 0), Ok(()));
    assert_eq!(
        store.init_identity(&me, owner_key(), 0),
        Err(ManagerError::AlreadyInitialized)
    );
}

#[test]
fn malformed_payloads_surface_manager_errors() {
    let mut store = IdentityStore::new();
    store.init_identity(&owner_key(), owner_key(), 0).unwrap();
    // not UTF-8
    assert_eq!(
        store.process_inbound_link(&[0xff, 0xfe]),
        Err(ManagerError::InvalidFormat)
    );
    // two fields only
    assert_eq!(
        store.process_inbound_link(b"a,b"),
        Err(ManagerError::InvalidFormat)
    );
    // a status string is not an error: it is routed elsewhere
    assert_eq!(
        store.process_inbound_link(b"hello"),
        Ok(LinkOutcome::NotApplicable)
    );
    // bad source address
    assert_eq!(
        store.process_inbound_link(format!("nope, {}, 5", OWNER_TEXT).as_bytes()),
        Err(ManagerError::InvalidAddress)
    );
    // bad target address
    assert_eq!(
        store.process_inbound_link(b"0xAbC0000000000000000000000000000000000001, nope, 5"),
        Err(ManagerError::InvalidAddress)
    );
    // none of those touched the ledger
    assert_eq!(store.get_linked_addresses(&owner_key()).unwrap().len(), 0);
}

#[test]
fn direct_path_follows_the_same_rules() {
    let mut store = IdentityStore::new();
    let me = owner_key();
    let addr = "0xAbC0000000000000000000000000000000000001".to_string();
    assert_eq!(
        store.add_linked_address(&me, addr.clone()),
        Err(ManagerError::LedgerNotFound)
    );
    store.init_identity(&me, owner_key(), 0).unwrap();
    assert_eq!(
        store.add_linked_address(&me, addr.clone()),
        Ok(AddOutcome::Added)
    );
    assert_eq!(store.is_address_linked(&me, &addr), Ok(true));
    assert_eq!(
        store.is_address_linked(&me, &"0xAbC0000000000000000000000000000000000002".to_string()),
        Ok(false)
    );
}

#[test]
fn clearing_the_same_tuple_twice_fails_the_second_time() {
    let mut reg = DedupRegistry::new();
    assert_eq!(reg.clear_once(dedup(1)), Ok(()));
    assert_eq!(reg.clear_once(dedup(1)), Err(ClearError::AlreadyCleared));
    // a different nonce is a different tuple
    assert_eq!(reg.clear_once(dedup(2)), Ok(()));
}

#[test]
fn replayed_delivery_never_reaches_the_manager() {
    let mut rx = Receiver::new();
    rx.store.init_identity(&owner_key(), owner_key(), 0).unwrap();
    let addr = "0xAbC0000000000000000000000000000000000001";
    match rx.on_message(&payload(addr), dedup(7)) {
        ReceiveOutcome::Handled(r) => assert_eq!(r, Ok(LinkOutcome::Added)),
        ReceiveOutcome::ReplayDetected => panic!("first delivery taken for a replay"),
    }
    // the same tuple again: rejected before processing, ledger untouched
    let other = "0xAbC0000000000000000000000000000000000002";
    match rx.on_message(&payload(other), dedup(7)) {
        ReceiveOutcome::ReplayDetected => {}
        ReceiveOutcome::Handled(_) => panic!("replay reached the manager"),
    }
    assert_eq!(
        rx.store.get_linked_addresses(&owner_key()).unwrap(),
        vec![addr.to_string()]
    );
}

#[test]
fn failure_after_clearing_is_terminal_for_the_tuple() {
    let mut rx = Receiver::new();
    // no ledger initialized: processing reports the absence ...
    let addr = "0xAbC0000000000000000000000000000000000001";
    match rx.on_message(&payload(addr), dedup(9)) {
        ReceiveOutcome::Handled(r) => assert_eq!(r, Ok(LinkOutcome::TargetNotInitialized)),
        ReceiveOutcome::ReplayDetected => panic!("first delivery taken for a replay"),
    }
    // ... and the tuple stays consumed: no retry with the same nonce
    rx.store.init_identity(&owner_key(), owner_key(), 0).unwrap();
    match rx.on_message(&payload(addr), dedup(9)) {
        ReceiveOutcome::ReplayDetected => {}
        ReceiveOutcome::Handled(_) => panic!("consumed tuple was processed again"),
    }
    assert_eq!(rx.store.get_linked_addresses(&owner_key()).unwrap().len(), 0);
}
