use rollup_kernel::crypto::{keypair_from_int, Operation, Signature, SignedOperation};
use rollup_kernel::data_interface::LogType;
use rollup_kernel::inbox::{
    authenticate, classify, get_inbox_message, to_inbox_result, InboxResult, InternalMessage,
    RawMessage,
};
use tezos_crypto_rs::hash::{BlockHash, ContractKt1Hash, ContractTz1Hash};
use tezos_smart_rollup::inbox::{
    ExternalMessageFrame, InboxMessage, InfoPerLevel, InternalInboxMessage, Transfer,
};
use tezos_smart_rollup::michelson::MichelsonUnit;
use tezos_smart_rollup::types::{PublicKeyHash, SmartRollupAddress, Timestamp};

const ROLLUP: &str = "sr1UNDWPUYVeomgG15wn5jSw689EJ4RNnVQa";
const OTHER_ROLLUP: &str = "sr1UXY5i5Z1sF8xd8ZUyzur827MAaFWREzvj";

fn rollup_bytes(text: &str) -> [u8; 20] {
    let address = SmartRollupAddress::from_b58check(text).unwrap();
    address.hash().0.as_slice().try_into().unwrap()
}

fn transaction(nonce: u64) -> Vec<u8> {
    let tx = revm::primitives::TxEnv {
        caller: revm::primitives::B160([0x11; 20]),
        transact_to: revm::primitives::TransactTo::create(),
        data: revm::primitives::Bytes::from(vec![0x60, 0x00]),
        nonce: Some(nonce),
        ..Default::default()
    };
    bincode::serde::encode_to_vec(&tx, bincode::config::standard()).unwrap()
}

fn signed(nonce: u64) -> SignedOperation {
    let (sk, pk) = keypair_from_int(5).unwrap();
    SignedOperation::sign(pk, sk, Operation(transaction(nonce)))
}

fn external(target: &str, contents: &[u8]) -> Vec<u8> {
    let mut bytes = vec![1u8, 0u8];
    bytes.extend_from_slice(&rollup_bytes(target));
    bytes.extend_from_slice(contents);
    bytes
}

fn internal(message: InternalInboxMessage<MichelsonUnit>) -> Vec<u8> {
    let mut bytes = Vec::new();
    InboxMessage::Internal(message).serialize(&mut bytes).unwrap();
    bytes
}

fn read(bytes: Vec<u8>) -> InboxResult {
    get_inbox_message(Ok(Some(bytes)), &rollup_bytes(ROLLUP))
}

fn log_of(result: InboxResult) -> LogType {
    match result {
        InboxResult::Log(log) => log,
        other => panic!("expected a log record, got {:?}", other),
    }
}

#[test]
fn an_exhausted_inbox_is_reported() {
    let result = get_inbox_message(Ok(None), &rollup_bytes(ROLLUP));
    assert!(matches!(result, InboxResult::InboxEmpty));
}

#[test]
fn a_failed_read_is_logged_with_its_description() {
    let result = get_inbox_message(Err("HostErr(StoreNotAValue)".to_string()), &rollup_bytes(ROLLUP));
    assert_eq!(log_of(result), LogType::Error("HostErr(StoreNotAValue)".to_string()));
}

#[test]
fn to_inbox_result_keeps_what_is_no_failure() {
    let kept = to_inbox_result(Ok(InboxResult::Log(LogType::Deploy)));
    assert_eq!(log_of(kept), LogType::Deploy);
    let failed = to_inbox_result(Err("broken".to_string()));
    assert_eq!(log_of(failed), LogType::Error("broken".to_string()));
}

#[test]
fn the_markers_of_a_round_become_log_records() {
    assert_eq!(log_of(read(vec![0, 1])), LogType::StartOfLevel);
    assert_eq!(log_of(read(vec![0, 2])), LogType::EndOfLevel);
    assert_eq!(log_of(read(internal(InternalInboxMessage::StartOfLevel))), LogType::StartOfLevel);
    assert_eq!(log_of(read(internal(InternalInboxMessage::EndOfLevel))), LogType::EndOfLevel);
}

#[test]
fn the_information_on_a_round_is_noted() {
    let info = InfoPerLevel {
        predecessor_timestamp: Timestamp::from(1_700_000_000),
        predecessor: BlockHash(vec![7; 32]),
    };
    let expected = format!(
        "Internal message: level info (block predecessor: {}, predecessor_timestamp: {}",
        info.predecessor, info.predecessor_timestamp
    );
    assert!(expected.contains("2023-11-14T22:13:20Z"));
    assert_eq!(
        log_of(read(internal(InternalInboxMessage::InfoPerLevel(info)))),
        LogType::Info(expected)
    );
}

#[test]
fn a_transfer_is_noted() {
    let transfer = Transfer {
        payload: MichelsonUnit,
        sender: ContractKt1Hash(vec![1; 20]),
        source: PublicKeyHash::Ed25519(ContractTz1Hash(vec![2; 20])),
        destination: SmartRollupAddress::from_b58check(ROLLUP).unwrap(),
    };
    assert_eq!(
        log_of(read(internal(InternalInboxMessage::Transfer(transfer)))),
        LogType::Info("Internal message: transfer".to_string())
    );
}

#[test]
fn a_malformed_envelope_is_an_error_record() {
    for bytes in [vec![], vec![9], vec![0], vec![0, 7], vec![0, 3, 1, 2]] {
        let expected = format!("{:?}", InboxMessage::<MichelsonUnit>::parse(&bytes).unwrap_err());
        assert_eq!(log_of(read(bytes)), LogType::Error(expected));
    }
}

#[test]
fn classify_sorts_what_the_envelope_held() {
    let rollup = rollup_bytes(ROLLUP);
    assert_eq!(
        log_of(classify(RawMessage::Internal(InternalMessage::StartOfLevel), &rollup)),
        LogType::StartOfLevel
    );
    assert_eq!(
        log_of(classify(RawMessage::Internal(InternalMessage::EndOfLevel), &rollup)),
        LogType::EndOfLevel
    );
    assert_eq!(
        log_of(classify(RawMessage::Internal(InternalMessage::Transfer), &rollup)),
        LogType::Info("Internal message: transfer".to_string())
    );
    let info = InternalMessage::InfoPerLevel {
        predecessor: "BLock".to_string(),
        predecessor_timestamp: "now".to_string(),
    };
    assert_eq!(
        log_of(classify(RawMessage::Internal(info), &rollup)),
        LogType::Info(
            "Internal message: level info (block predecessor: BLock, predecessor_timestamp: now"
                .to_string()
        )
    );
}

#[test]
fn a_message_for_another_rollup_is_skipped_with_a_note() {
    let bytes = external(OTHER_ROLLUP, &signed(0).encode());
    let expected = format!(
        "Skipping message: External message targets another rollup. Expected: {}. Found: {}",
        ROLLUP, OTHER_ROLLUP
    );
    assert_eq!(log_of(read(bytes)), LogType::Info(expected));
}

#[test]
fn an_external_message_without_a_frame_is_an_error_record() {
    for contents in [vec![], vec![0], vec![0; 20], vec![1; 40]] {
        let expected = format!("{:?}", ExternalMessageFrame::parse(&contents).unwrap_err());
        let mut bytes = vec![1u8];
        bytes.extend_from_slice(&contents);
        assert_eq!(log_of(read(bytes)), LogType::Error(expected));
    }
}

#[test]
fn contents_that_do_not_decode_are_an_error_record() {
    assert_eq!(
        log_of(read(external(ROLLUP, &[]))),
        LogType::Error("UnexpectedEnd".to_string())
    );
    assert_eq!(
        log_of(read(external(ROLLUP, &[33; 34]))),
        LogType::Error("InvalidPublicKey".to_string())
    );
    let mut no_signature = signed(0).encode();
    no_signature[66] = 63;
    assert_eq!(
        log_of(read(external(ROLLUP, &no_signature))),
        LogType::Error("InvalidSignature".to_string())
    );
    let mut no_operation = signed(0).encode();
    no_operation.truncate(66 + 65 + 3);
    assert_eq!(
        log_of(read(external(ROLLUP, &no_operation))),
        LogType::Error("InvalidOperation".to_string())
    );
}

#[test]
fn a_forged_message_is_an_error_record() {
    let good = signed(0);
    let mut bytes = good.signature.bytes;
    bytes[10] ^= 0x01;
    let forged = SignedOperation::new(good.pk, Signature { bytes }, good.inner);
    assert_eq!(
        log_of(read(external(ROLLUP, &forged.encode()))),
        LogType::Error("verification failed: signature does not match".to_string())
    );
}

#[test]
fn a_valid_message_is_a_transaction() {
    let payload = transaction(3);
    match read(external(ROLLUP, &signed(3).encode())) {
        InboxResult::Transaction(op) => assert_eq!(op.0, payload),
        other => panic!("expected a transaction, got {:?}", other),
    }
}

#[test]
fn what_follows_the_operation_is_ignored() {
    let payload = transaction(3);
    let mut contents = signed(3).encode();
    contents.extend_from_slice(&[0xde, 0xad]);
    match authenticate(&contents) {
        InboxResult::Transaction(op) => assert_eq!(op.0, payload),
        other => panic!("expected a transaction, got {:?}", other),
    }
}
