use std::collections::BTreeMap;

use rollup_kernel::database::database_utils::{KernelError, PathBuilder, RuntimeError};
use rollup_kernel::database::durable::{ChunkRead, StoreOp, MAX_CHUNK};
use rollup_kernel::database::{
    decode_code, decode_record, encode_code, encode_record, Account, AccountInfo, ChangeSet,
    KernelDB, Storage, KECCAK_EMPTY, RECORD_SIZE,
};
use sha3::{Digest, Keccak256};

/// A stand-in for the host's durable storage, with its chunk limit.
struct Host {
    values: BTreeMap<Vec<u8>, Vec<u8>>,
}

fn is_under(path: &[u8], root: &[u8]) -> bool {
    path == root || (path.len() > root.len() && path.starts_with(root) && path[root.len()] == b'/')
}

impl Host {
    fn new() -> Host {
        Host { values: BTreeMap::new() }
    }

    fn apply(&mut self, ops: &[StoreOp]) {
        for op in ops {
            match op {
                StoreOp::Delete { path } => {
                    self.values.retain(|key, _| !is_under(key, path));
                }
                StoreOp::Write { path, offset, bytes } => {
                    assert!(bytes.len() <= MAX_CHUNK, "the host moves at most one chunk");
                    let value = self.values.entry(path.clone()).or_default();
                    assert!(*offset <= value.len(), "the host refuses a write beyond the end");
                    let end = offset + bytes.len();
                    if value.len() < end {
                        value.resize(end, 0);
                    }
                    value[*offset..end].copy_from_slice(bytes);
                }
            }
        }
    }

    /// Commits a change set as the kernel does: the store asks for the code
    /// hashes, the host says which of them it holds, and the operations are
    /// performed.
    fn commit(&mut self, db: &KernelDB, changes: &ChangeSet) -> Vec<StoreOp> {
        let stored: Vec<[u8; 32]> = db
            .code_queries(changes)
            .into_iter()
            .filter(|hash| self.values.contains_key(&PathBuilder::Code(*hash).format()))
            .collect();
        let ops = db.commit(changes, &stored);
        self.apply(&ops);
        ops
    }

    fn size_of(&self, path: &[u8]) -> Result<usize, RuntimeError> {
        self.values.get(path).map(|v| v.len()).ok_or(RuntimeError::PathNotFound)
    }

    fn read(&self, path: &PathBuilder) -> Option<Vec<u8>> {
        let key = path.format();
        let size = self.size_of(&key);
        let plan = KernelDB::store_read(size).unwrap()?;
        let value = &self.values[&key];
        let chunks: Vec<Vec<u8>> = plan
            .iter()
            .map(|read| {
                assert!(read.len <= MAX_CHUNK);
                value[read.offset..read.offset + read.len].to_vec()
            })
            .collect();
        Some(KernelDB::assemble(size.unwrap(), &chunks).unwrap())
    }
}

fn address(last: u8) -> [u8; 20] {
    let mut a = [0u8; 20];
    a[19] = last;
    a
}

fn word(last: u8) -> [u8; 32] {
    let mut w = [0u8; 32];
    w[31] = last;
    w
}

fn keccak(data: &[u8]) -> [u8; 32] {
    Keccak256::digest(data).into()
}

fn patterned(len: usize) -> Vec<u8> {
    (0..len).map(|i| (i * 31 % 251) as u8).collect()
}

fn account(info: AccountInfo) -> Account {
    Account { info, storage: Storage::new(), touched: true, selfdestructed: false }
}

fn slots(pairs: &[([u8; 32], [u8; 32])]) -> Storage {
    pairs.iter().fold(Storage::new(), |storage, (key, value)| storage.insert(*key, *value))
}

fn one(address: [u8; 20], change: Account) -> ChangeSet {
    ChangeSet::new().insert(address, change)
}

fn code_writes(ops: &[StoreOp], code_hash: &[u8; 32]) -> usize {
    let path = PathBuilder::Code(*code_hash).format();
    ops.iter()
        .filter(|op| matches!(op, StoreOp::Write { path: p, offset: 0, .. } if *p == path))
        .count()
}

#[test]
fn paths_are_laid_out_by_namespace() {
    let mut a = [0u8; 20];
    a[0] = 0xab;
    a[19] = 0x01;
    assert_eq!(
        PathBuilder::Info(a).format(),
        b"/i/0xab00000000000000000000000000000000000001".to_vec()
    );
    assert_eq!(
        PathBuilder::AccountStorage(a).format(),
        b"/s/0xab00000000000000000000000000000000000001".to_vec()
    );
    let mut h = [0u8; 32];
    h[0] = 0x0f;
    h[31] = 0xf0;
    assert_eq!(
        PathBuilder::Code(h).format(),
        b"/c/0x0f000000000000000000000000000000000000000000000000000000000000f0".to_vec()
    );
}

#[test]
fn slot_keys_are_written_in_decimal() {
    let a = address(1);
    assert_eq!(
        PathBuilder::Storage(a, word(0)).format(),
        b"/s/0x0000000000000000000000000000000000000001/0".to_vec()
    );
    let mut key = [0u8; 32];
    key[30] = 0x01;
    key[31] = 0x00;
    assert_eq!(
        PathBuilder::Storage(a, key).format(),
        b"/s/0x0000000000000000000000000000000000000001/256".to_vec()
    );
    let max = [0xffu8; 32];
    let path = PathBuilder::Storage(a, max).format();
    let expected = "115792089237316195423570985008687907853269984665640564039457584007913129639935";
    assert_eq!(&path[46..], expected.as_bytes());
    assert!(path.len() <= 242);
}

#[test]
fn a_small_value_is_one_chunk() {
    let path = PathBuilder::Info(address(1));
    let ops = KernelDB::store_write(&path, &[7, 8, 9]);
    assert_eq!(ops.len(), 1);
    assert!(matches!(&ops[0],
        StoreOp::Write { path: p, offset: 0, bytes } if *p == path.format() && bytes == &[7, 8, 9]));
}

#[test]
fn nothing_is_written_for_empty_data() {
    let path = PathBuilder::Info(address(1));
    assert!(KernelDB::store_write(&path, &[]).is_empty());
}

#[test]
fn a_write_deletes_nothing() {
    for len in [1, MAX_CHUNK, 3 * MAX_CHUNK + 1] {
        let ops = KernelDB::store_write(&PathBuilder::Code(word(1)), &patterned(len));
        assert_eq!(ops.len(), len.div_ceil(MAX_CHUNK));
        assert!(ops.iter().all(|op| matches!(op, StoreOp::Write { .. })));
    }
}

#[test]
fn chunks_are_cut_at_the_chunk_size() {
    let path = PathBuilder::Code(word(3));
    let data = patterned(2 * MAX_CHUNK + 5);
    let ops = KernelDB::store_write(&path, &data);
    assert_eq!(ops.len(), 3);
    let expected = [(0, MAX_CHUNK), (MAX_CHUNK, MAX_CHUNK), (2 * MAX_CHUNK, 5)];
    for (op, (at, len)) in ops.iter().zip(expected) {
        match op {
            StoreOp::Write { offset, bytes, .. } => {
                assert_eq!(*offset, at);
                assert_eq!(bytes.as_slice(), &data[at..at + len]);
            }
            other => panic!("expected a write, got {:?}", other),
        }
    }
}

#[test]
fn write_then_read_round_trips_around_the_chunk_boundary() {
    for len in [1, MAX_CHUNK - 1, MAX_CHUNK, MAX_CHUNK + 1, 3 * MAX_CHUNK, 3 * MAX_CHUNK + 17] {
        let mut host = Host::new();
        let path = PathBuilder::Code(word(9));
        let data = patterned(len);
        host.apply(&KernelDB::store_write(&path, &data));
        assert_eq!(host.read(&path), Some(data), "length {}", len);
    }
}

#[test]
fn code_of_any_length_is_read_back_whatever_was_there() {
    for before in [0, 5, MAX_CHUNK + 9, 4 * MAX_CHUNK] {
        for len in [0, 1, MAX_CHUNK - 9, MAX_CHUNK - 8, MAX_CHUNK - 7, MAX_CHUNK, 2 * MAX_CHUNK + 3] {
            let mut host = Host::new();
            let path = PathBuilder::Code(word(9));
            host.apply(&KernelDB::store_write(&path, &encode_code(&vec![0xee; before])));
            let code = patterned(len);
            host.apply(&KernelDB::store_write(&path, &encode_code(&code)));
            let read = host.read(&path).unwrap();
            assert_eq!(decode_code(&read), Ok(code), "before {} length {}", before, len);
        }
    }
}

#[test]
fn a_shorter_value_lies_over_the_start_of_a_longer_one() {
    let mut host = Host::new();
    let path = PathBuilder::Code(word(9));
    let long = patterned(MAX_CHUNK + 100);
    host.apply(&KernelDB::store_write(&path, &long));
    host.apply(&KernelDB::store_write(&path, &[1, 2, 3]));
    let read = host.read(&path).unwrap();
    assert_eq!(&read[..3], &[1, 2, 3]);
    assert_eq!(&read[3..], &long[3..]);
}

#[test]
fn stored_code_carries_its_length() {
    assert_eq!(encode_code(&[]), vec![0, 0, 0, 0, 0, 0, 0, 0]);
    assert_eq!(encode_code(&[0xaa, 0xbb]), vec![2, 0, 0, 0, 0, 0, 0, 0, 0xaa, 0xbb]);
    assert_eq!(decode_code(&[2, 0, 0, 0, 0, 0, 0, 0, 0xaa, 0xbb, 0xcc]), Ok(vec![0xaa, 0xbb]));
    assert_eq!(decode_code(&[0, 0, 0, 0, 0, 0, 0, 0]), Ok(vec![]));
}

#[test]
fn bytes_that_end_too_early_are_no_code() {
    assert_eq!(decode_code(&[]), Err(KernelError::Decode));
    assert_eq!(decode_code(&[1, 0, 0, 0, 0, 0, 0]), Err(KernelError::Decode));
    assert_eq!(decode_code(&[3, 0, 0, 0, 0, 0, 0, 0, 1, 2]), Err(KernelError::Decode));
    assert_eq!(decode_code(&[0xff; 20]), Err(KernelError::Decode));
}

#[test]
fn a_write_leaves_other_keys_alone() {
    let mut host = Host::new();
    let one = PathBuilder::Storage(address(1), word(1));
    let other = PathBuilder::Storage(address(1), word(10));
    host.apply(&KernelDB::store_write(&one, &[1]));
    host.apply(&KernelDB::store_write(&other, &[2]));
    host.apply(&KernelDB::store_write(&one, &[3]));
    assert_eq!(host.read(&one), Some(vec![3]));
    assert_eq!(host.read(&other), Some(vec![2]));
}

#[test]
fn read_plan_covers_the_value_in_order() {
    assert_eq!(KernelDB::read_plan(0), vec![]);
    assert_eq!(KernelDB::read_plan(1), vec![ChunkRead { offset: 0, len: 1 }]);
    assert_eq!(KernelDB::read_plan(MAX_CHUNK), vec![ChunkRead { offset: 0, len: MAX_CHUNK }]);
    assert_eq!(
        KernelDB::read_plan(MAX_CHUNK + 1),
        vec![
            ChunkRead { offset: 0, len: MAX_CHUNK },
            ChunkRead { offset: MAX_CHUNK, len: 1 }
        ]
    );
}

#[test]
fn a_missing_key_is_nothing_to_read() {
    assert_eq!(KernelDB::store_read(Err(RuntimeError::PathNotFound)), Ok(None));
}

#[test]
fn a_host_failure_is_a_store_error() {
    assert_eq!(
        KernelDB::store_read(Err(RuntimeError::HostErr(-3))),
        Err(KernelError::DurableStorage(RuntimeError::HostErr(-3)))
    );
    assert_eq!(
        KernelDB::store_read(Err(RuntimeError::DecodingError)),
        Err(KernelError::DurableStorage(RuntimeError::DecodingError))
    );
}

#[test]
fn chunks_that_do_not_fit_the_plan_are_refused() {
    assert_eq!(KernelDB::assemble(3, &vec![vec![1, 2]]), Err(KernelError::Decode));
    assert_eq!(KernelDB::assemble(3, &vec![]), Err(KernelError::Decode));
    assert_eq!(KernelDB::assemble(3, &vec![vec![1, 2, 3], vec![]]), Err(KernelError::Decode));
    assert_eq!(KernelDB::assemble(3, &vec![vec![1, 2, 3]]), Ok(vec![1, 2, 3]));
    assert_eq!(KernelDB::assemble(0, &vec![]), Ok(vec![]));
}

#[test]
fn the_empty_code_hash_is_the_digest_of_nothing() {
    assert_eq!(KECCAK_EMPTY, keccak(&[]));
}

#[test]
fn a_record_is_balance_nonce_and_code_hash() {
    let mut balance = [0u8; 32];
    balance[31] = 5;
    let bytes = encode_record(&balance, 0x0102, &KECCAK_EMPTY);
    assert_eq!(bytes.len(), RECORD_SIZE);
    assert_eq!(&bytes[..32], &balance);
    assert_eq!(&bytes[32..40], &[2, 1, 0, 0, 0, 0, 0, 0]);
    assert_eq!(&bytes[40..], &KECCAK_EMPTY);
    let info = decode_record(&bytes).unwrap();
    assert_eq!(info.balance, balance);
    assert_eq!(info.nonce, 0x0102);
    assert_eq!(info.code_hash, KECCAK_EMPTY);
    assert_eq!(info.code, None);
}

#[test]
fn fewer_bytes_than_a_record_are_no_record() {
    assert_eq!(decode_record(&[0u8; 71]).err(), Some(KernelError::Decode));
    assert_eq!(decode_record(&[]).err(), Some(KernelError::Decode));
}

#[test]
fn a_record_is_read_from_the_start_of_what_is_stored() {
    let mut stored = encode_record(&word(9), 3, &word(0x77));
    stored.extend_from_slice(&[0xee; 40]);
    let info = decode_record(&stored).unwrap();
    assert_eq!(info.balance, word(9));
    assert_eq!(info.nonce, 3);
    assert_eq!(info.code_hash, word(0x77));
}

#[test]
fn an_untouched_address_reads_as_zero_and_exists_afterwards() {
    let db = KernelDB::new();
    let mut host = Host::new();
    let who = address(42);
    let path = PathBuilder::Info(who);
    assert_eq!(host.read(&path), None);
    let (info, ops) = db.basic(&who, host.read(&path)).unwrap();
    assert_eq!(info.balance, [0u8; 32]);
    assert_eq!(info.nonce, 0);
    assert_eq!(info.code_hash, KECCAK_EMPTY);
    assert_eq!(info.code, None);
    host.apply(&ops);
    assert!(host.size_of(&path.format()).is_ok());
    let (again, no_ops) = db.basic(&who, host.read(&path)).unwrap();
    assert_eq!(again.balance, [0u8; 32]);
    assert_eq!(again.nonce, 0);
    assert_eq!(again.code_hash, KECCAK_EMPTY);
    assert!(no_ops.is_empty());
}

#[test]
fn a_stored_record_is_read_back() {
    let db = KernelDB::new();
    let stored = encode_record(&word(9), 3, &word(0x77));
    let (info, ops) = db.basic(&address(1), Some(stored)).unwrap();
    assert_eq!(info.balance, word(9));
    assert_eq!(info.nonce, 3);
    assert_eq!(info.code_hash, word(0x77));
    assert!(ops.is_empty());
}

#[test]
fn a_corrupt_record_is_a_decode_error() {
    let db = KernelDB::new();
    assert_eq!(db.basic(&address(1), Some(vec![1, 2, 3])).err(), Some(KernelError::Decode));
}

#[test]
fn missing_code_is_an_error() {
    let db = KernelDB::new();
    let hash = word(0x55);
    assert_eq!(db.code_by_hash(&hash, None), Err(KernelError::MissingCode(hash)));
    assert_eq!(db.code_by_hash(&hash, Some(encode_code(&[0x60, 0x00]))), Ok(vec![0x60, 0x00]));
    assert_eq!(db.code_by_hash(&hash, Some(vec![0x60, 0x00])), Err(KernelError::Decode));
}

#[test]
fn an_absent_slot_of_an_unknown_account_materialises_the_account() {
    let db = KernelDB::new();
    let mut host = Host::new();
    let who = address(5);
    let (value, ops) = db.storage(&who, &word(1), None, false).unwrap();
    assert_eq!(value, [0u8; 32]);
    host.apply(&ops);
    assert!(host.size_of(&PathBuilder::Info(who).format()).is_ok());
    assert!(host.size_of(&PathBuilder::Storage(who, word(1)).format()).is_err());
}

#[test]
fn an_absent_slot_of_a_known_account_writes_nothing() {
    let db = KernelDB::new();
    let (value, ops) = db.storage(&address(5), &word(1), None, true).unwrap();
    assert_eq!(value, [0u8; 32]);
    assert!(ops.is_empty());
}

#[test]
fn a_stored_slot_is_read_back() {
    let db = KernelDB::new();
    let (value, ops) = db.storage(&address(5), &word(1), Some(word(0x21).to_vec()), true).unwrap();
    assert_eq!(value, word(0x21));
    assert!(ops.is_empty());
    assert_eq!(
        db.storage(&address(5), &word(1), Some(vec![1; 31]), true).err(),
        Some(KernelError::Decode)
    );
    let mut longer = word(0x21).to_vec();
    longer.extend_from_slice(&[9; 7]);
    let (value, _) = db.storage(&address(5), &word(1), Some(longer), true).unwrap();
    assert_eq!(value, word(0x21));
}

#[test]
fn the_block_hash_is_the_digest_of_the_number() {
    let db = KernelDB::new();
    assert_eq!(db.block_hash(0), keccak(&0u64.to_le_bytes()));
    assert_eq!(db.block_hash(0x0102_0304), keccak(&0x0102_0304u64.to_le_bytes()));
    assert_ne!(db.block_hash(1), db.block_hash(2));
}

#[test]
fn an_untouched_account_is_skipped() {
    let db = KernelDB::new();
    let mut change = account(AccountInfo {
        balance: word(1),
        nonce: 1,
        code_hash: KECCAK_EMPTY,
        code: Some(vec![1, 2, 3]),
    });
    change.touched = false;
    let changes = one(address(1), change);
    assert!(db.code_queries(&changes).is_empty());
    assert!(db.commit(&changes, &Vec::new()).is_empty());
}

#[test]
fn a_change_set_holds_an_address_once() {
    let info = |nonce| AccountInfo { balance: word(1), nonce, code_hash: KECCAK_EMPTY, code: None };
    let changes = ChangeSet::new()
        .insert(address(1), account(info(1)))
        .insert(address(2), account(info(2)))
        .insert(address(1), account(info(3)));
    assert_eq!(changes.len(), 2);
    let mut host = Host::new();
    host.commit(&KernelDB::new(), &changes);
    assert_eq!(
        host.read(&PathBuilder::Info(address(1))).unwrap(),
        encode_record(&word(1), 3, &KECCAK_EMPTY)
    );
}

#[test]
fn a_storage_holds_a_key_once() {
    let storage = slots(&[(word(1), word(11)), (word(2), word(22)), (word(1), word(33))]);
    assert_eq!(storage.len(), 2);
    assert_eq!(storage.slot(0), (word(1), word(33)));
    assert_eq!(storage.slot(1), (word(2), word(22)));
}

#[test]
fn commit_stores_code_record_and_slots() {
    let db = KernelDB::new();
    let mut host = Host::new();
    let who = address(7);
    let code = vec![0x60, 0x01, 0x60, 0x00, 0xf3];
    let mut change = account(AccountInfo {
        balance: word(100),
        nonce: 2,
        code_hash: KECCAK_EMPTY,
        code: Some(code.clone()),
    });
    change.storage = slots(&[(word(1), word(11)), (word(2), word(22))]);
    let changes = one(who, change);
    let hash = keccak(&code);
    assert_eq!(db.code_queries(&changes), vec![hash]);
    let ops = host.commit(&db, &changes);
    assert!(ops.iter().all(|op| matches!(op, StoreOp::Write { .. })));

    assert_eq!(host.read(&PathBuilder::Code(hash)), Some(encode_code(&code)));
    assert_eq!(db.code_by_hash(&hash, host.read(&PathBuilder::Code(hash))), Ok(code));
    let record = host.read(&PathBuilder::Info(who)).unwrap();
    assert_eq!(record, encode_record(&word(100), 2, &hash));
    assert_eq!(record.len(), RECORD_SIZE);
    assert_eq!(host.read(&PathBuilder::Storage(who, word(1))), Some(word(11).to_vec()));
    assert_eq!(host.read(&PathBuilder::Storage(who, word(2))), Some(word(22).to_vec()));
}

#[test]
fn a_given_code_hash_is_kept() {
    let db = KernelDB::new();
    let mut host = Host::new();
    let who = address(7);
    let given = word(0x42);
    let change = account(AccountInfo {
        balance: word(0),
        nonce: 0,
        code_hash: given,
        code: Some(vec![9, 9]),
    });
    host.commit(&db, &one(who, change));
    assert_eq!(host.read(&PathBuilder::Code(given)), Some(encode_code(&[9, 9])));
    assert_eq!(host.read(&PathBuilder::Info(who)).unwrap(), encode_record(&word(0), 0, &given));
}

#[test]
fn the_record_carries_the_hash_under_which_the_code_is_stored() {
    let db = KernelDB::new();
    let mut host = Host::new();
    let who = address(7);
    let change = account(AccountInfo {
        balance: word(0),
        nonce: 0,
        code_hash: [0u8; 32],
        code: Some(vec![9, 9]),
    });
    host.commit(&db, &one(who, change));
    assert_eq!(host.read(&PathBuilder::Code([0u8; 32])), Some(encode_code(&[9, 9])));
    assert_eq!(
        host.read(&PathBuilder::Info(who)).unwrap(),
        encode_record(&word(0), 0, &[0u8; 32])
    );
}

#[test]
fn a_zero_code_hash_becomes_the_empty_code_hash() {
    let db = KernelDB::new();
    let mut host = Host::new();
    let who = address(7);
    let change = account(AccountInfo {
        balance: word(3),
        nonce: 1,
        code_hash: [0u8; 32],
        code: None,
    });
    host.commit(&db, &one(who, change));
    assert_eq!(
        host.read(&PathBuilder::Info(who)).unwrap(),
        encode_record(&word(3), 1, &KECCAK_EMPTY)
    );
    assert!(host.values.keys().all(|key| !key.starts_with(b"/c/")));
}

#[test]
fn empty_code_is_not_stored() {
    let db = KernelDB::new();
    let change = account(AccountInfo {
        balance: word(3),
        nonce: 1,
        code_hash: KECCAK_EMPTY,
        code: Some(Vec::new()),
    });
    let changes = one(address(7), change);
    assert!(db.code_queries(&changes).is_empty());
    let ops = db.commit(&changes, &Vec::new());
    assert_eq!(code_writes(&ops, &KECCAK_EMPTY), 0);
    assert_eq!(ops.len(), 1);
}

#[test]
fn a_record_replaces_the_record_before_it() {
    let db = KernelDB::new();
    let mut host = Host::new();
    let who = address(7);
    let rich = AccountInfo { balance: [0xff; 32], nonce: u64::MAX, code_hash: word(1), code: None };
    host.commit(&db, &one(who, account(rich)));
    let poor = AccountInfo { balance: word(0), nonce: 0, code_hash: KECCAK_EMPTY, code: None };
    host.commit(&db, &one(who, account(poor)));
    assert_eq!(
        host.read(&PathBuilder::Info(who)).unwrap(),
        encode_record(&word(0), 0, &KECCAK_EMPTY)
    );
}

#[test]
fn self_destruct_clears_every_slot_with_one_delete_and_resets_the_record() {
    let db = KernelDB::new();
    let mut host = Host::new();
    let who = address(7);
    let neighbour = address(8);
    let mut change = account(AccountInfo {
        balance: word(100),
        nonce: 2,
        code_hash: KECCAK_EMPTY,
        code: None,
    });
    let pairs: Vec<([u8; 32], [u8; 32])> = (1..=20).map(|i| (word(i), word(i + 100))).collect();
    change.storage = slots(&pairs);
    let mut other = account(AccountInfo {
        balance: word(1),
        nonce: 0,
        code_hash: KECCAK_EMPTY,
        code: None,
    });
    other.storage = slots(&[(word(1), word(5))]);
    host.commit(&db, &ChangeSet::new().insert(who, change).insert(neighbour, other));
    let root = PathBuilder::AccountStorage(who).format();
    assert_eq!(host.values.keys().filter(|k| is_under(k, &root)).count(), 20);

    let mut gone = account(AccountInfo {
        balance: word(100),
        nonce: 3,
        code_hash: KECCAK_EMPTY,
        code: Some(vec![1, 2, 3]),
    });
    gone.storage = slots(&[(word(1), word(9)), (word(50), word(9))]);
    gone.selfdestructed = true;
    let changes = one(who, gone);
    assert!(db.code_queries(&changes).is_empty());
    let ops = host.commit(&db, &changes);
    let deletes: Vec<&StoreOp> =
        ops.iter().filter(|op| matches!(op, StoreOp::Delete { .. })).collect();
    assert_eq!(deletes.len(), 1);
    assert!(matches!(deletes[0], StoreOp::Delete { path } if *path == root));
    assert_eq!(ops.len(), 2);
    assert!(matches!(&ops[0],
        StoreOp::Write { path, offset: 0, .. } if *path == PathBuilder::Info(who).format()));

    assert!(host.values.keys().all(|key| !is_under(key, &root) && !key.starts_with(b"/c/")));
    for i in 1..=50 {
        assert_eq!(host.read(&PathBuilder::Storage(who, word(i))), None);
        let (value, _) = db
            .storage(&who, &word(i), host.read(&PathBuilder::Storage(who, word(i))), true)
            .unwrap();
        assert_eq!(value, [0u8; 32]);
    }
    let (info, ops) = db.basic(&who, host.read(&PathBuilder::Info(who))).unwrap();
    assert_eq!(info.balance, [0u8; 32]);
    assert_eq!(info.nonce, 0);
    assert_eq!(info.code_hash, KECCAK_EMPTY);
    assert!(ops.is_empty());
    assert_eq!(host.read(&PathBuilder::Storage(neighbour, word(1))), Some(word(5).to_vec()));
}

#[test]
fn identical_code_is_stored_once() {
    let db = KernelDB::new();
    let mut host = Host::new();
    let code = patterned(MAX_CHUNK + 10);
    let hash = keccak(&code);
    let deploy = |nonce| {
        account(AccountInfo {
            balance: word(0),
            nonce,
            code_hash: KECCAK_EMPTY,
            code: Some(code.clone()),
        })
    };
    let first = host.commit(&db, &one(address(0xa), deploy(1)));
    let second = host.commit(&db, &one(address(0xb), deploy(1)));
    assert_eq!(code_writes(&first, &hash), 1);
    assert_eq!(code_writes(&second, &hash), 0);
    assert_eq!(host.values.keys().filter(|key| key.starts_with(b"/c/")).count(), 1);
    assert_eq!(
        db.code_by_hash(&hash, host.read(&PathBuilder::Code(hash))),
        Ok(code.clone())
    );
    let record_a = decode_record(&host.read(&PathBuilder::Info(address(0xa))).unwrap()).unwrap();
    let record_b = decode_record(&host.read(&PathBuilder::Info(address(0xb))).unwrap()).unwrap();
    assert_eq!(record_a.code_hash, hash);
    assert_eq!(record_b.code_hash, hash);

    let both = ChangeSet::new().insert(address(0xa), deploy(1)).insert(address(0xb), deploy(1));
    assert_eq!(db.code_queries(&both), vec![hash, hash]);
    assert_eq!(code_writes(&db.commit(&both, &Vec::new()), &hash), 1);
    assert_eq!(code_writes(&db.commit(&both, &vec![hash]), &hash), 0);
}

#[test]
fn code_that_was_not_written_is_written_by_the_next_commit() {
    // The host failed on the first commit: nothing of it was performed.
    let db = KernelDB::new();
    let mut host = Host::new();
    let code = vec![1, 2, 3];
    let hash = keccak(&code);
    let deploy = || {
        account(AccountInfo {
            balance: word(0),
            nonce: 1,
            code_hash: KECCAK_EMPTY,
            code: Some(code.clone()),
        })
    };
    let lost = db.commit(&one(address(0xa), deploy()), &Vec::new());
    assert_eq!(code_writes(&lost, &hash), 1);
    let ops = host.commit(&db, &one(address(0xb), deploy()));
    assert_eq!(code_writes(&ops, &hash), 1);
    assert_eq!(db.code_by_hash(&hash, host.read(&PathBuilder::Code(hash))), Ok(code));
}

#[test]
fn a_failure_of_the_host_becomes_a_store_error() {
    assert_eq!(
        KernelError::from(RuntimeError::StoreListIndexOutOfBounds),
        KernelError::DurableStorage(RuntimeError::StoreListIndexOutOfBounds)
    );
    assert_eq!(
        KernelError::from(RuntimeError::PathNotFound),
        KernelError::DurableStorage(RuntimeError::PathNotFound)
    );
}

#[test]
fn operations_are_performed_in_order_and_a_failure_ends_them() {
    let ops = KernelDB::store_write(&PathBuilder::Code(word(1)), &patterned(2 * MAX_CHUNK + 1));
    assert_eq!(ops.len(), 3);
    let failure = RuntimeError::HostErr(-4);
    assert_eq!(KernelDB::next_op(&ops, &vec![]), Ok(Some(0)));
    assert_eq!(KernelDB::next_op(&ops, &vec![Ok(())]), Ok(Some(1)));
    assert_eq!(KernelDB::next_op(&ops, &vec![Ok(()), Ok(())]), Ok(Some(2)));
    assert_eq!(KernelDB::next_op(&ops, &vec![Ok(()), Ok(()), Ok(())]), Ok(None));
    assert_eq!(
        KernelDB::next_op(&ops, &vec![Ok(()), Err(failure)]),
        Err(KernelError::DurableStorage(failure))
    );
    assert_eq!(
        KernelDB::next_op(&ops, &vec![Err(RuntimeError::DecodingError), Err(failure)]),
        Err(KernelError::DurableStorage(RuntimeError::DecodingError))
    );
    assert_eq!(KernelDB::next_op(&Vec::new(), &vec![]), Ok(None));
}
