use std::collections::BTreeMap;

use revm::primitives::{
    AccountInfo as EngineInfo, Bytecode, Eval, ExecutionResult, ResultAndState, State,
    TransactTo, TxEnv, B160, B256, U256,
};
use rollup_kernel::crypto::{keypair_from_int, Operation, Signature, SignedOperation};
use rollup_kernel::data_interface::LogType;
use rollup_kernel::database::database_utils::PathBuilder;
use rollup_kernel::database::durable::StoreOp;
use rollup_kernel::database::{
    encode_code, Account, AccountInfo, ChangeSet, KernelDB, Storage, KECCAK_EMPTY,
};
use rollup_kernel::inbox::{get_inbox_message, InboxResult};
use rollup_kernel::kernel::{
    commits, execution_log, handle_res, next_step, ExecutionOutcome, KernelStep, Output,
};
use sha3::{Digest, Keccak256};
use tezos_smart_rollup::types::SmartRollupAddress;

const ROLLUP: &str = "sr1UNDWPUYVeomgG15wn5jSw689EJ4RNnVQa";
const OTHER_ROLLUP: &str = "sr1UXY5i5Z1sF8xd8ZUyzur827MAaFWREzvj";

/// Copies one byte of code, a single STOP, and returns it as the contract.
const INIT_CODE: [u8; 13] =
    [0x60, 0x01, 0x60, 0x0c, 0x60, 0x00, 0x39, 0x60, 0x01, 0x60, 0x00, 0xf3, 0x00];

/// Stands in for the execution engine: it runs nothing, and answers a
/// creation with the state that deploying [`INIT_CODE`] leads to.
fn engine(tx: &TxEnv) -> Result<ResultAndState, String> {
    if !tx.transact_to.is_create() || tx.data.as_ref() != INIT_CODE.as_slice() {
        return Err("only the deployment is known to this engine".to_string());
    }
    let runtime = Bytecode::new_raw(revm::primitives::Bytes::from(vec![0x00u8]));
    let created = B160([0xc0; 20]);
    let mut state = State::default();
    let mut sender = revm::primitives::Account::from(EngineInfo {
        balance: U256::ZERO,
        nonce: 1,
        code_hash: B256(KECCAK_EMPTY),
        code: None,
    });
    sender.is_touched = true;
    let mut contract = revm::primitives::Account::from(EngineInfo {
        balance: U256::ZERO,
        nonce: 1,
        code_hash: B256(KECCAK_EMPTY),
        code: Some(runtime),
    });
    contract.is_touched = true;
    state.insert(tx.caller, sender);
    state.insert(created, contract);
    let untouched = revm::primitives::Account::from(EngineInfo::default());
    state.insert(B160([0x01; 20]), untouched);
    let result = ExecutionResult::Success {
        reason: Eval::Return,
        gas_used: 53_000,
        gas_refunded: 0,
        logs: Vec::new(),
        output: revm::primitives::Output::Create(
            revm::primitives::Bytes::from(vec![0x00u8]),
            Some(created),
        ),
    };
    Ok(ResultAndState { result, state })
}

fn rollup_bytes(text: &str) -> [u8; 20] {
    let address = SmartRollupAddress::from_b58check(text).unwrap();
    address.hash().0.as_slice().try_into().unwrap()
}

fn deployment() -> Vec<u8> {
    let tx = TxEnv {
        caller: B160([0x99; 20]),
        transact_to: TransactTo::create(),
        data: revm::primitives::Bytes::from(INIT_CODE.to_vec()),
        nonce: Some(0),
        ..Default::default()
    };
    bincode::serde::encode_to_vec(&tx, bincode::config::standard()).unwrap()
}

fn external(target: &str, signed: &SignedOperation) -> Vec<u8> {
    let mut bytes = vec![1u8, 0u8];
    bytes.extend_from_slice(&rollup_bytes(target));
    bytes.extend_from_slice(&signed.encode());
    bytes
}

fn outcome_of(result: ExecutionResult) -> ExecutionOutcome {
    match result {
        ExecutionResult::Success { output: revm::primitives::Output::Create(..), .. } => {
            ExecutionOutcome::Success { output: Output::Create }
        }
        ExecutionResult::Success { output: revm::primitives::Output::Call(bytes), .. } => {
            ExecutionOutcome::Success { output: Output::Call(bytes.to_vec()) }
        }
        ExecutionResult::Revert { .. } => ExecutionOutcome::Revert,
        ExecutionResult::Halt { reason, .. } => {
            ExecutionOutcome::Halt { reason: format!("{:?}", reason) }
        }
    }
}

fn changes_of(state: &revm::primitives::State) -> ChangeSet {
    state.iter().fold(ChangeSet::new(), |changes, (address, account)| {
        let info = AccountInfo {
            balance: account.info.balance.to_be_bytes(),
            nonce: account.info.nonce,
            code_hash: account.info.code_hash.0,
            code: account.info.code.as_ref().map(|code| code.original_bytes().to_vec()),
        };
        let storage = account.storage.iter().fold(Storage::new(), |storage, (key, slot)| {
            storage.insert(key.to_be_bytes(), slot.present_value.to_be_bytes())
        });
        let change = Account {
            info,
            storage,
            touched: account.is_touched,
            selfdestructed: account.is_destroyed,
        };
        changes.insert(address.0, change)
    })
}

/// Commits as the kernel does: the store asks, the storage answers, and the
/// operations are performed.
fn commit(store: &mut BTreeMap<Vec<u8>, Vec<u8>>, db: &KernelDB, changes: &ChangeSet) {
    let stored: Vec<[u8; 32]> = db
        .code_queries(changes)
        .into_iter()
        .filter(|hash| store.contains_key(&PathBuilder::Code(*hash).format()))
        .collect();
    apply(store, db.commit(changes, &stored));
}

fn apply(store: &mut BTreeMap<Vec<u8>, Vec<u8>>, ops: Vec<StoreOp>) {
    for op in ops {
        match op {
            StoreOp::Delete { path } => {
                store.retain(|key, _| {
                    !(key == &path
                        || (key.len() > path.len()
                            && key.starts_with(&path)
                            && key[path.len()] == b'/'))
                });
            }
            StoreOp::Write { path, offset, bytes } => {
                let value = store.entry(path).or_default();
                assert!(offset <= value.len());
                let end = offset + bytes.len();
                if value.len() < end {
                    value.resize(end, 0);
                }
                value[offset..end].copy_from_slice(&bytes);
            }
        }
    }
}

#[test]
fn the_outcome_of_an_execution_becomes_a_log_record() {
    assert_eq!(
        handle_res(ExecutionOutcome::Success { output: Output::Create }),
        LogType::Deploy
    );
    assert_eq!(
        handle_res(ExecutionOutcome::Success { output: Output::Call(vec![1, 2]) }),
        LogType::Execute(vec![1, 2])
    );
    assert_eq!(
        handle_res(ExecutionOutcome::Revert),
        LogType::Error("Smart contract execution reverted".to_string())
    );
    assert_eq!(
        handle_res(ExecutionOutcome::Halt { reason: "OutOfGas(BasicOutOfGas)".to_string() }),
        LogType::Error("Halt: reason - OutOfGas(BasicOutOfGas)".to_string())
    );
}

#[test]
fn a_failed_execution_is_logged_as_unsuccessful() {
    assert_eq!(
        execution_log(Err("Transaction(NonceTooLow)".to_string())),
        LogType::Error("Unsuccessful transaction: \nTransaction(NonceTooLow)".to_string())
    );
    assert_eq!(
        execution_log(Ok(ExecutionOutcome::Success { output: Output::Create })),
        LogType::Deploy
    );
}

#[test]
fn only_a_transaction_that_ran_to_its_end_is_committed() {
    assert!(commits(&ExecutionOutcome::Success { output: Output::Create }));
    assert!(commits(&ExecutionOutcome::Success { output: Output::Call(Vec::new()) }));
    assert!(!commits(&ExecutionOutcome::Revert));
    assert!(!commits(&ExecutionOutcome::Halt { reason: "InvalidJump".to_string() }));
}

#[test]
fn the_loop_stops_logs_or_executes() {
    assert!(matches!(next_step(InboxResult::InboxEmpty), KernelStep::Stop));
    assert!(matches!(
        next_step(InboxResult::Log(LogType::EndOfLevel)),
        KernelStep::Emit(LogType::EndOfLevel)
    ));
    match next_step(InboxResult::Transaction(Operation(vec![5, 6]))) {
        KernelStep::Execute(op) => assert_eq!(op.0, vec![5, 6]),
        other => panic!("expected an execution, got {:?}", other),
    }
}

#[test]
fn a_round_with_one_valid_deployment_commits_exactly_one() {
    let (sk, pk) = keypair_from_int(0x9999_9999).unwrap();
    let good = SignedOperation::sign(pk, sk, Operation(deployment()));
    let mut broken = good.signature.bytes;
    broken[40] ^= 0x80;
    let forged = SignedOperation::new(pk, Signature { bytes: broken }, Operation(deployment()));
    let foreign = SignedOperation::sign(pk, sk, Operation(deployment()));

    let mut inbox = vec![
        vec![0u8, 1u8],
        external(OTHER_ROLLUP, &foreign),
        external(ROLLUP, &forged),
        external(ROLLUP, &good),
        vec![0u8, 2u8],
    ]
    .into_iter();

    let rollup = rollup_bytes(ROLLUP);
    let mut store = BTreeMap::new();
    let db = KernelDB::new();
    let mut logs = Vec::new();
    let mut executed = 0;
    let mut reads = 0;
    loop {
        reads += 1;
        match next_step(get_inbox_message(Ok(inbox.next()), &rollup)) {
            KernelStep::Stop => break,
            KernelStep::Emit(log) => logs.push(log),
            KernelStep::Execute(op) => {
                executed += 1;
                let (tx, _): (TxEnv, usize) =
                    bincode::serde::decode_from_slice(&op.0, bincode::config::standard()).unwrap();
                let result = match engine(&tx) {
                    Ok(ResultAndState { result, state }) => {
                        let outcome = outcome_of(result);
                        if commits(&outcome) {
                            commit(&mut store, &db, &changes_of(&state));
                        }
                        Ok(outcome)
                    }
                    Err(e) => Err(e),
                };
                logs.push(execution_log(result));
            }
        }
    }

    assert_eq!(reads, 6);
    assert_eq!(executed, 1);
    assert_eq!(logs.len(), 5);
    assert_eq!(logs[0], LogType::StartOfLevel);
    assert_eq!(
        logs[1],
        LogType::Info(format!(
            "Skipping message: External message targets another rollup. Expected: {}. Found: {}",
            ROLLUP, OTHER_ROLLUP
        ))
    );
    assert_eq!(
        logs[2],
        LogType::Error("verification failed: signature does not match".to_string())
    );
    assert_eq!(logs[3], LogType::Deploy);
    assert_eq!(logs[4], LogType::EndOfLevel);
    assert!(matches!(
        next_step(get_inbox_message(Ok(inbox.next()), &rollup)),
        KernelStep::Stop
    ));

    let code_keys: Vec<&Vec<u8>> = store.keys().filter(|key| key.starts_with(b"/c/")).collect();
    assert_eq!(code_keys.len(), 1);
    let runtime_hash: [u8; 32] = Keccak256::digest([0x00u8]).into();
    assert_eq!(code_keys[0], &PathBuilder::Code(runtime_hash).format());
    assert_eq!(store[code_keys[0]], encode_code(&[0x00]));
    let deployed: Vec<&Vec<u8>> = store
        .iter()
        .filter(|(key, value)| key.starts_with(b"/i/") && value[40..] == runtime_hash)
        .map(|(key, _)| key)
        .collect();
    assert_eq!(deployed.len(), 1);
    assert_eq!(store.keys().filter(|key| key.starts_with(b"/i/")).count(), 2);
}
