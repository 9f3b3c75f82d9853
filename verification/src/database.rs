//! The durable state store.
//!
//! Account records, contract code and storage slots live in the host's durable
//! storage, which moves at most [`MAX_CHUNK`] bytes per call:
//!
//! * `/i/<address>` holds the record of an account (balance, nonce, code hash),
//! * `/c/<code hash>` holds the code of a contract, once for each hash,
//! * `/s/<address>/<key>` holds one storage slot.
//!
//! A value is written as its chunks, so what a key holds may go on beyond the
//! value that was written last. Records and slots have a fixed length and code
//! is stored behind its length: each is read from the start of what the key
//! holds.
//!
//! The store never calls the host. A read is planned here, done by the caller
//! chunk by chunk, and put together here; a write comes out as a list of
//! [`StoreOp`] that the caller performs in order. [`apply_ops`] says what such
//! a list does to the storage, and the laws at the end of this file are stated
//! over it.
pub mod database_utils;
pub mod durable;

use self::database_utils::{
    code_path, info_path, lemma_keyed_path_injective, lemma_namespaces_are_disjoint,
    lemma_storage_path_injective, storage_path, storage_root, Address, KernelError, PathBuilder,
    RuntimeError, B256, CODE_PREFIX, PATH_SEPARATOR, STORAGE_PREFIX, U256,
};
use self::durable::{
    apply_op, apply_ops, chunk_count, chunk_end, chunk_write, chunks_fit, chunks_view, concat_all,
    delete_count, is_under, lemma_apply_ops_concat, lemma_chunk_bounds, lemma_delete_count_concat,
    host_chunks, lemma_store_write_deletes_nothing, lemma_store_write_overwrites,
    lemma_value_writes_concat, lemma_value_writes_of_store_write, lemma_write_then_read, ops_view,
    spec_read_plan, spec_store_write, starts_with, value_writes, ChunkRead, StoreOp, StoreOpView,
    MAX_CHUNK,
};
use crate::hash::{keccak256, keccak256_digest};
use vstd::prelude::*;

verus! {

/// Number of bytes of a stored account record.
pub const RECORD_SIZE: usize = 72;

/// The hash of empty code, which stands for "no code".
pub const KECCAK_EMPTY: B256 = [
    0xc5, 0xd2, 0x46, 0x01, 0x86, 0xf7, 0x23, 0x3c,
    0x92, 0x7e, 0x7d, 0xb2, 0xdc, 0xc7, 0x03, 0xc0,
    0xe5, 0x00, 0xb6, 0x53, 0xca, 0x82, 0x27, 0x3b,
    0x7b, 0xfa, 0xd8, 0x04, 0x5d, 0x85, 0xa4, 0x70,
];

/// Thirty-two zero bytes: the number zero, and the hash that is not set.
pub open spec fn zero_word() -> Seq<u8> {
    Seq::new(32, |i: int| 0u8)
}

/// What the store keeps of an account, and the code that comes with a change.
#[derive(Debug)]
pub struct AccountInfo {
    pub balance: U256,
    pub nonce: u64,
    pub code_hash: B256,
    /// New code of the account. Never stored in the record itself.
    pub code: Option<Vec<u8>>,
}

/// An [`AccountInfo`] as contracts see it.
pub struct AccountInfoView {
    pub balance: Seq<u8>,
    pub nonce: u64,
    pub code_hash: Seq<u8>,
    pub code: Option<Seq<u8>>,
}

impl View for AccountInfo {
    type V = AccountInfoView;

    open spec fn view(&self) -> AccountInfoView {
        AccountInfoView {
            balance: self.balance@,
            nonce: self.nonce,
            code_hash: self.code_hash@,
            code: match self.code {
                Some(code) => Some(code@),
                None => None,
            },
        }
    }
}

/// The record of an account that was never written: no balance, nonce zero,
/// no code.
pub open spec fn zero_account() -> AccountInfoView {
    AccountInfoView { balance: zero_word(), nonce: 0, code_hash: KECCAK_EMPTY@, code: None }
}

/// The stored form of a record: the balance (32 bytes, big-endian), the nonce
/// (8 bytes, little-endian) and the code hash (32 bytes).
pub open spec fn spec_encode_record(balance: Seq<u8>, nonce: u64, code_hash: Seq<u8>) -> Seq<u8> {
    balance + vstd::bytes::spec_u64_to_le_bytes(nonce) + code_hash
}

/// The stored form of an account. The code is left out.
pub open spec fn record_of(info: AccountInfoView) -> Seq<u8> {
    spec_encode_record(info.balance, info.nonce, info.code_hash)
}

/// What stored bytes hold as a record: the record at their start, if they are
/// long enough for one. What follows it is left over from a longer value and
/// is not read.
pub open spec fn spec_decode_record(bytes: Seq<u8>) -> Option<AccountInfoView> {
    if bytes.len() >= RECORD_SIZE {
        Some(
            AccountInfoView {
                balance: bytes.subrange(0, 32),
                nonce: vstd::bytes::spec_u64_from_le_bytes(bytes.subrange(32, 40)),
                code_hash: bytes.subrange(40, 72),
                code: None,
            },
        )
    } else {
        None
    }
}

/// Decoding gives back the record that the stored bytes start with.
pub proof fn lemma_record_round_trip(
    balance: Seq<u8>,
    nonce: u64,
    code_hash: Seq<u8>,
    stored: Seq<u8>,
)
    requires
        balance.len() == 32,
        code_hash.len() == 32,
        starts_with(stored, spec_encode_record(balance, nonce, code_hash)),
    ensures
        spec_encode_record(balance, nonce, code_hash).len() == RECORD_SIZE,
        spec_decode_record(stored) == Some(
            AccountInfoView { balance, nonce, code_hash, code: None },
        ),
{
    vstd::bytes::lemma_auto_spec_u64_to_from_le_bytes();
    let bytes = spec_encode_record(balance, nonce, code_hash);
    assert(vstd::bytes::spec_u64_to_le_bytes(nonce).len() == 8);
    assert(bytes.len() == 72);
    assert(stored.subrange(0, 72) == bytes);
    assert(stored.subrange(0, 32) =~= bytes.subrange(0, 32));
    assert(stored.subrange(32, 40) =~= bytes.subrange(32, 40));
    assert(stored.subrange(40, 72) =~= bytes.subrange(40, 72));
    assert(bytes.subrange(0, 32) =~= balance);
    assert(bytes.subrange(32, 40) =~= vstd::bytes::spec_u64_to_le_bytes(nonce));
    assert(bytes.subrange(40, 72) =~= code_hash);
}

/// Number of bytes in front of stored code: its length.
pub const CODE_HEADER_SIZE: usize = 8;

/// The stored form of code: its length (8 bytes, little-endian), then the
/// code.
pub open spec fn spec_encode_code(code: Seq<u8>) -> Seq<u8> {
    vstd::bytes::spec_u64_to_le_bytes(code.len() as u64) + code
}

/// What stored bytes hold as code: as many bytes after the length as the
/// length says, if they are all there.
pub open spec fn spec_decode_code(bytes: Seq<u8>) -> Option<Seq<u8>> {
    if bytes.len() >= CODE_HEADER_SIZE && CODE_HEADER_SIZE
        + vstd::bytes::spec_u64_from_le_bytes(bytes.subrange(0, 8)) <= bytes.len() {
        Some(
            bytes.subrange(8, 8 + vstd::bytes::spec_u64_from_le_bytes(bytes.subrange(0, 8)) as int),
        )
    } else {
        None
    }
}

/// Decoding gives back the code that the stored bytes start with.
pub proof fn lemma_code_round_trip(code: Seq<u8>, stored: Seq<u8>)
    requires
        code.len() <= u64::MAX,
        starts_with(stored, spec_encode_code(code)),
    ensures
        spec_encode_code(code).len() == CODE_HEADER_SIZE + code.len(),
        spec_decode_code(stored) == Some(code),
{
    vstd::bytes::lemma_auto_spec_u64_to_from_le_bytes();
    let bytes = spec_encode_code(code);
    let header = vstd::bytes::spec_u64_to_le_bytes(code.len() as u64);
    assert(header.len() == 8);
    assert(stored.subrange(0, bytes.len() as int) == bytes);
    assert(stored.subrange(0, 8) =~= bytes.subrange(0, 8));
    assert(bytes.subrange(0, 8) =~= header);
    assert(stored.subrange(8, 8 + code.len() as int) =~= bytes.subrange(8, 8 + code.len() as int));
    assert(bytes.subrange(8, 8 + code.len() as int) =~= code);
}

/// What stored bytes hold as a slot: the 32 bytes at their start.
pub open spec fn spec_decode_slot(bytes: Seq<u8>) -> Option<Seq<u8>> {
    if bytes.len() >= 32 {
        Some(bytes.subrange(0, 32))
    } else {
        None
    }
}

impl Default for AccountInfo {
    fn default() -> (info: AccountInfo)
        ensures
            info@ == zero_account(),
    {
        let info = AccountInfo { balance: [0u8; 32], nonce: 0, code_hash: KECCAK_EMPTY, code: None };
        assert(info.balance@ =~= zero_word());
        info
    }
}

/// Whether two byte strings are the same.
pub fn bytes_eq(a: &[u8], b: &[u8]) -> (same: bool)
    ensures
        same == (a@ == b@),
{
    if a.len() != b.len() {
        return false;
    }
    let mut i: usize = 0;
    while i < a.len()
        invariant
            i <= a.len(),
            a@.len() == b@.len(),
            forall|j: int| 0 <= j < i ==> a@[j] == b@[j],
        decreases a.len() - i,
    {
        if a[i] != b[i] {
            return false;
        }
        i += 1;
    }
    assert(a@ =~= b@);
    true
}

/// Copies 32 bytes out of `bytes`, from `start` on.
fn word_at(bytes: &[u8], start: usize) -> (word: [u8; 32])
    requires
        start + 32 <= bytes@.len(),
    ensures
        word@ == bytes@.subrange(start as int, start + 32),
{
    let len = bytes.len();
    let mut word = [0u8; 32];
    let mut i: usize = 0;
    while i < 32
        invariant
            i <= 32,
            len == bytes@.len(),
            start + 32 <= len,
            forall|j: int| 0 <= j < i ==> word@[j] == bytes@[start + j],
        decreases 32 - i,
    {
        word[i] = bytes[start + i];
        i += 1;
    }
    assert(word@ =~= bytes@.subrange(start as int, start + 32));
    word
}

/// Writes the stored form of a record.
pub fn encode_record(balance: &U256, nonce: u64, code_hash: &B256) -> (bytes: Vec<u8>)
    ensures
        bytes@ == spec_encode_record(balance@, nonce, code_hash@),
        bytes@.len() == RECORD_SIZE,
{
    proof {
        vstd::bytes::lemma_auto_spec_u64_to_from_le_bytes();
    }
    let mut bytes: Vec<u8> = Vec::new();
    bytes.extend_from_slice(balance.as_slice());
    let mut counter = vstd::bytes::u64_to_le_bytes(nonce);
    bytes.append(&mut counter);
    bytes.extend_from_slice(code_hash.as_slice());
    bytes
}

/// Reads a stored record from the start of what a key holds. Fewer bytes than
/// [`RECORD_SIZE`] are no record.
pub fn decode_record(bytes: &[u8]) -> (res: Result<AccountInfo, KernelError>)
    ensures
        match res {
            Ok(info) => spec_decode_record(bytes@) == Some(info@),
            Err(e) => spec_decode_record(bytes@) is None && e == KernelError::Decode,
        },
{
    if bytes.len() < RECORD_SIZE {
        return Err(KernelError::Decode);
    }
    let balance = word_at(bytes, 0);
    let nonce = vstd::bytes::u64_from_le_bytes(vstd::slice::slice_subrange(bytes, 32, 40));
    let code_hash = word_at(bytes, 40);
    Ok(AccountInfo { balance, nonce, code_hash, code: None })
}

/// Writes the stored form of code.
pub fn encode_code(code: &[u8]) -> (bytes: Vec<u8>)
    ensures
        bytes@ == spec_encode_code(code@),
        bytes@.len() == CODE_HEADER_SIZE + code@.len(),
{
    proof {
        vstd::bytes::lemma_auto_spec_u64_to_from_le_bytes();
    }
    let mut bytes = vstd::bytes::u64_to_le_bytes(code.len() as u64);
    bytes.extend_from_slice(code);
    bytes
}

/// Reads stored code from the start of what a key holds. Bytes that end
/// before the length or before the end of the code are no code.
pub fn decode_code(bytes: &[u8]) -> (res: Result<Vec<u8>, KernelError>)
    ensures
        match res {
            Ok(code) => spec_decode_code(bytes@) == Some(code@),
            Err(e) => spec_decode_code(bytes@) is None && e == KernelError::Decode,
        },
{
    if bytes.len() < CODE_HEADER_SIZE {
        return Err(KernelError::Decode);
    }
    let len = vstd::bytes::u64_from_le_bytes(vstd::slice::slice_subrange(bytes, 0, 8));
    if len > (bytes.len() - CODE_HEADER_SIZE) as u64 {
        return Err(KernelError::Decode);
    }
    let end = CODE_HEADER_SIZE + len as usize;
    Ok(vstd::slice::slice_to_vec(vstd::slice::slice_subrange(bytes, 8, end)))
}

/// The state store. It keeps nothing between its calls: whatever it has to
/// know of the storage is handed to it.
#[derive(Clone, Copy, Debug)]
pub struct KernelDB {}

impl KernelDB {
    /// The store.
    pub fn new() -> KernelDB {
        KernelDB {  }
    }

    /// The operations that write `data` under `path`: its chunks of at most
    /// [`MAX_CHUNK`] bytes, in order, each at its own offset.
    pub fn store_write(path: &PathBuilder, data: &[u8]) -> (ops: Vec<StoreOp>)
        ensures
            ops_view(ops@) == spec_store_write(path.spec_format(), data@),
    {
        let key = path.format();
        let ghost target = spec_store_write(key@, data@);
        let mut ops: Vec<StoreOp> = Vec::new();
        let mut offset: usize = 0;
        let ghost mut i: int = 0;
        assert(ops_view(ops@) =~= target.subrange(0, 0));
        while offset < data.len()
            invariant
                0 <= i <= chunk_count(data@.len() as int),
                offset <= data@.len(),
                offset < data@.len() <==> i < chunk_count(data@.len() as int),
                offset < data@.len() ==> offset == i * MAX_CHUNK,
                target == spec_store_write(key@, data@),
                ops_view(ops@) == target.subrange(0, i),
            decreases data@.len() - offset,
        {
            proof {
                lemma_chunk_bounds(data@.len() as int, i);
                if i + 1 < chunk_count(data@.len() as int) {
                    lemma_chunk_bounds(data@.len() as int, i + 1);
                }
            }
            let end = if data.len() - offset > MAX_CHUNK {
                offset + MAX_CHUNK
            } else {
                data.len()
            };
            let ghost before = ops@;
            ops.push(
                StoreOp::Write {
                    path: vstd::slice::slice_to_vec(key.as_slice()),
                    offset,
                    bytes: vstd::slice::slice_to_vec(vstd::slice::slice_subrange(data, offset, end)),
                },
            );
            proof {
                assert(end == chunk_end(data@.len() as int, i));
                assert(ops@.last()@ == chunk_write(key@, data@, i));
                assert(target[i] == chunk_write(key@, data@, i));
                assert(ops_view(ops@) =~= ops_view(before).push(ops@.last()@));
                assert(target.subrange(0, i + 1) =~= target.subrange(0, i).push(target[i]));
                i = i + 1;
            }
            offset = end;
        }
        assert(target.subrange(0, i) =~= target);
        ops
    }

    /// The reads that fetch a value of `size` bytes.
    pub fn read_plan(size: usize) -> (plan: Vec<ChunkRead>)
        ensures
            plan@ == spec_read_plan(size as int),
    {
        let ghost target = spec_read_plan(size as int);
        let mut plan: Vec<ChunkRead> = Vec::new();
        let mut offset: usize = 0;
        let ghost mut i: int = 0;
        while offset < size
            invariant
                0 <= i <= chunk_count(size as int),
                offset <= size,
                offset < size <==> i < chunk_count(size as int),
                offset < size ==> offset == i * MAX_CHUNK,
                target == spec_read_plan(size as int),
                plan@ == target.subrange(0, i),
            decreases size - offset,
        {
            proof {
                lemma_chunk_bounds(size as int, i);
                if i + 1 < chunk_count(size as int) {
                    lemma_chunk_bounds(size as int, i + 1);
                }
            }
            let len = if size - offset > MAX_CHUNK {
                MAX_CHUNK
            } else {
                size - offset
            };
            plan.push(ChunkRead { offset, len });
            proof {
                assert(target[i] == ChunkRead { offset, len });
                assert(target.subrange(0, i + 1) =~= target.subrange(0, i).push(target[i]));
                i = i + 1;
            }
            offset = offset + len;
        }
        assert(target.subrange(0, i) =~= target);
        plan
    }

    /// Plans the read of a value from what the host says of its size. A key
    /// that does not exist is no error: there is nothing to read.
    pub fn store_read(size: Result<usize, RuntimeError>) -> (res: Result<
        Option<Vec<ChunkRead>>,
        KernelError,
    >)
        ensures
            match size {
                Ok(n) => res is Ok && res->Ok_0 is Some && res->Ok_0->Some_0@ == spec_read_plan(
                    n as int,
                ),
                Err(RuntimeError::PathNotFound) => res == Ok::<Option<Vec<ChunkRead>>, KernelError>(
                    None,
                ),
                Err(e) => res == Err::<Option<Vec<ChunkRead>>, KernelError>(
                    KernelError::DurableStorage(e),
                ),
            },
    {
        match size {
            Ok(n) => Ok(Some(Self::read_plan(n))),
            Err(RuntimeError::PathNotFound) => Ok(None),
            Err(e) => Err(KernelError::DurableStorage(e)),
        }
    }

    /// Puts the chunks of a value of `size` bytes together. Chunks that are
    /// not what the plan asked for are refused.
    pub fn assemble(size: usize, chunks: &Vec<Vec<u8>>) -> (res: Result<Vec<u8>, KernelError>)
        ensures
            chunks_fit(size as int, chunks_view(chunks@)) ==> res is Ok && res->Ok_0@
                == concat_all(chunks_view(chunks@)) && res->Ok_0@.len() == size,
            !chunks_fit(size as int, chunks_view(chunks@)) ==> res == Err::<Vec<u8>, KernelError>(
                KernelError::Decode,
            ),
    {
        let plan = Self::read_plan(size);
        let ghost parts = chunks_view(chunks@);
        if chunks.len() != plan.len() {
            return Err(KernelError::Decode);
        }
        let mut value: Vec<u8> = Vec::new();
        let mut i: usize = 0;
        while i < chunks.len()
            invariant
                i <= chunks@.len(),
                chunks@.len() == plan@.len(),
                plan@ == spec_read_plan(size as int),
                parts == chunks_view(chunks@),
                forall|j: int| 0 <= j < i ==> (#[trigger] parts[j]).len() == plan@[j].len,
                value@ == concat_all(parts.subrange(0, i as int)),
                i < chunks@.len() ==> value@.len() == i * MAX_CHUNK,
                i == chunks@.len() ==> value@.len() == size,
            decreases chunks@.len() - i,
        {
            proof {
                lemma_chunk_bounds(size as int, i as int);
            }
            if chunks[i].len() != plan[i].len {
                assert(parts[i as int].len() != spec_read_plan(size as int)[i as int].len);
                return Err(KernelError::Decode);
            }
            value.extend_from_slice(chunks[i].as_slice());
            proof {
                let longer = parts.subrange(0, i + 1);
                assert(longer.drop_last() =~= parts.subrange(0, i as int));
                assert(longer.last() == parts[i as int]);
            }
            i += 1;
        }
        assert(parts.subrange(0, i as int) =~= parts);
        Ok(value)
    }
}


/// The first failure among the answers of the host, if any.
pub open spec fn first_failure(answers: Seq<Result<(), RuntimeError>>) -> Option<RuntimeError>
    decreases answers.len(),
{
    if answers.len() == 0 {
        None
    } else {
        match first_failure(answers.drop_last()) {
            Some(e) => Some(e),
            None => match answers.last() {
                Err(e) => Some(e),
                Ok(()) => None,
            },
        }
    }
}

/// Which of `count` operations is performed next, after the host answered
/// those performed so far: the next in order while all went well and some are
/// left, none when all are done, and none after a failure, which is a store
/// error.
pub open spec fn spec_next_op(count: int, answers: Seq<Result<(), RuntimeError>>) -> Result<
    Option<usize>,
    KernelError,
> {
    match first_failure(answers) {
        Some(e) => Err(KernelError::DurableStorage(e)),
        None => if answers.len() < count {
            Ok(Some(answers.len() as usize))
        } else {
            Ok(None)
        },
    }
}

impl KernelDB {
    /// Says how to go on with the operations of a write or a commit. They are
    /// performed in order, one for each call. The first failure of the host
    /// ends it: no further operation is handed out, and the failure comes
    /// back as a store error. What was performed before stays performed.
    pub fn next_op(ops: &Vec<StoreOp>, answers: &Vec<Result<(), RuntimeError>>) -> (res: Result<
        Option<usize>,
        KernelError,
    >)
        ensures
            res == spec_next_op(ops@.len() as int, answers@),
    {
        let mut i: usize = 0;
        assert(answers@.subrange(0, 0) =~= Seq::<Result<(), RuntimeError>>::empty());
        while i < answers.len()
            invariant
                i <= answers@.len(),
                first_failure(answers@.subrange(0, i as int)) is None,
            decreases answers@.len() - i,
        {
            proof {
                let longer = answers@.subrange(0, i + 1);
                assert(longer.drop_last() =~= answers@.subrange(0, i as int));
                assert(longer.last() == answers@[i as int]);
            }
            match answers[i] {
                Err(e) => {
                    proof {
                        lemma_failure_stays(answers@, i + 1);
                    }
                    return Err(KernelError::DurableStorage(e));
                },
                Ok(()) => {},
            }
            i += 1;
        }
        assert(answers@.subrange(0, i as int) =~= answers@);
        if answers.len() < ops.len() {
            Ok(Some(answers.len()))
        } else {
            Ok(None)
        }
    }
}

/// The first failure is the first failure, whatever follows it.
proof fn lemma_failure_stays(answers: Seq<Result<(), RuntimeError>>, failed: int)
    requires
        0 <= failed <= answers.len(),
        first_failure(answers.subrange(0, failed)) is Some,
    ensures
        first_failure(answers) == first_failure(answers.subrange(0, failed)),
    decreases answers.len() - failed,
{
    if failed == answers.len() {
        assert(answers.subrange(0, failed) =~= answers);
    } else {
        let shorter = answers.drop_last();
        assert(shorter.subrange(0, failed) =~= answers.subrange(0, failed));
        lemma_failure_stays(shorter, failed);
    }
}

/// No key occurs twice among the slots.
pub open spec fn distinct_keys(slots: Seq<(Seq<u8>, Seq<u8>)>) -> bool {
    forall|i: int, j: int|
        0 <= i < j < slots.len() ==> (#[trigger] slots[i]).0 != (#[trigger] slots[j]).0
}

/// The views of a list of slots.
pub open spec fn storage_view(storage: Seq<(U256, U256)>) -> Seq<(Seq<u8>, Seq<u8>)> {
    Seq::new(storage.len(), |i: int| (storage[i].0@, storage[i].1@))
}

/// The slots that a transaction wrote, each with its key and its present
/// value. No key occurs twice.
#[derive(Debug)]
pub struct Storage {
    slots: Vec<(U256, U256)>,
}

impl Storage {
    /// The slots, in the order in which their keys came in.
    pub closed spec fn view(&self) -> Seq<(Seq<u8>, Seq<u8>)> {
        storage_view(self.slots@)
    }

    #[verifier::type_invariant]
    spec fn well_formed(&self) -> bool {
        distinct_keys(storage_view(self.slots@))
    }

    /// No slots.
    pub fn new() -> (storage: Storage)
        ensures
            storage@ == Seq::<(Seq<u8>, Seq<u8>)>::empty(),
    {
        let storage = Storage { slots: Vec::new() };
        assert(storage_view(storage.slots@) =~= Seq::<(Seq<u8>, Seq<u8>)>::empty());
        storage
    }

    /// The number of slots. No key occurs twice among them.
    pub fn len(&self) -> (n: usize)
        ensures
            n == self@.len(),
            distinct_keys(self@),
    {
        proof {
            use_type_invariant(self);
        }
        self.slots.len()
    }

    /// Slot `i`: its key and its value.
    pub fn slot(&self, i: usize) -> (slot: (U256, U256))
        requires
            i < self@.len(),
        ensures
            slot.0@ == self@[i as int].0,
            slot.1@ == self@[i as int].1,
    {
        self.slots[i]
    }

    /// Where the key stands among the slots, if it does.
    fn position(&self, key: &U256) -> (at: Option<usize>)
        ensures
            match at {
                Some(i) => i < self@.len() && self@[i as int].0 == key@,
                None => forall|j: int| 0 <= j < self@.len() ==> (#[trigger] self@[j]).0 != key@,
            },
    {
        let mut i: usize = 0;
        while i < self.slots.len()
            invariant
                i <= self.slots@.len(),
                forall|j: int| 0 <= j < i ==> (#[trigger] self@[j]).0 != key@,
            decreases self.slots@.len() - i,
        {
            if bytes_eq(self.slots[i].0.as_slice(), key.as_slice()) {
                return Some(i);
            }
            i += 1;
        }
        None
    }

    /// The slots with the value of one slot set: that of the slot with this
    /// key, if there is one, and of a new slot at the end otherwise.
    pub fn insert(self, key: U256, value: U256) -> (res: Storage)
        ensures
            (exists|i: int| 0 <= i < self@.len() && (#[trigger] self@[i]).0 == key@) ==> res@.len()
                == self@.len() && forall|i: int|
                0 <= i < self@.len() ==> #[trigger] res@[i] == if self@[i].0 == key@ {
                    (key@, value@)
                } else {
                    self@[i]
                },
            (forall|i: int| 0 <= i < self@.len() ==> (#[trigger] self@[i]).0 != key@) ==> res@
                == self@.push((key@, value@)),
    {
        proof {
            use_type_invariant(&self);
        }
        let ghost before = self@;
        let at = self.position(&key);
        let mut slots = self.slots;
        match at {
            Some(i) => {
                slots.set(i, (key, value));
                assert(storage_view(slots@) =~= before.update(i as int, (key@, value@)));
            },
            None => {
                slots.push((key, value));
                assert(storage_view(slots@) =~= before.push((key@, value@)));
            },
        }
        Storage { slots }
    }
}

/// The changes to one account that the execution engine hands back.
#[derive(Debug)]
pub struct Account {
    pub info: AccountInfo,
    /// The slots that were written.
    pub storage: Storage,
    /// Whether the transaction touched the account at all.
    pub touched: bool,
    /// Whether the account destroyed itself.
    pub selfdestructed: bool,
}

/// An [`Account`] as contracts see it.
pub struct AccountView {
    pub info: AccountInfoView,
    pub storage: Seq<(Seq<u8>, Seq<u8>)>,
    pub touched: bool,
    pub selfdestructed: bool,
}

impl View for Account {
    type V = AccountView;

    open spec fn view(&self) -> AccountView {
        AccountView {
            info: self.info@,
            storage: self.storage@,
            touched: self.touched,
            selfdestructed: self.selfdestructed,
        }
    }
}

impl Account {
    /// Whether the transaction touched the account.
    pub fn is_touched(&self) -> (touched: bool)
        ensures
            touched == self.touched,
    {
        self.touched
    }

    /// Whether the account destroyed itself.
    pub fn is_selfdestructed(&self) -> (gone: bool)
        ensures
            gone == self.selfdestructed,
    {
        self.selfdestructed
    }
}

/// No address occurs twice among the changes.
pub open spec fn distinct_addresses(changes: Seq<(Seq<u8>, AccountView)>) -> bool {
    forall|i: int, j: int|
        0 <= i < j < changes.len() ==> (#[trigger] changes[i]).0 != (#[trigger] changes[j]).0
}

/// The views of a list of changes.
pub open spec fn changes_view(changes: Seq<(Address, Account)>) -> Seq<(Seq<u8>, AccountView)> {
    Seq::new(changes.len(), |i: int| (changes[i].0@, changes[i].1@))
}

/// What a transaction changed: the accounts by their addresses. No address
/// occurs twice.
#[derive(Debug)]
pub struct ChangeSet {
    accounts: Vec<(Address, Account)>,
}

impl ChangeSet {
    /// The changes, in the order in which their addresses came in.
    pub closed spec fn view(&self) -> Seq<(Seq<u8>, AccountView)> {
        changes_view(self.accounts@)
    }

    #[verifier::type_invariant]
    spec fn well_formed(&self) -> bool {
        distinct_addresses(changes_view(self.accounts@))
    }

    /// No changes.
    pub fn new() -> (changes: ChangeSet)
        ensures
            changes@ == Seq::<(Seq<u8>, AccountView)>::empty(),
    {
        let changes = ChangeSet { accounts: Vec::new() };
        assert(changes_view(changes.accounts@) =~= Seq::<(Seq<u8>, AccountView)>::empty());
        changes
    }

    /// The number of accounts. No address occurs twice among them.
    pub fn len(&self) -> (n: usize)
        ensures
            n == self@.len(),
            distinct_addresses(self@),
    {
        proof {
            use_type_invariant(self);
        }
        self.accounts.len()
    }

    /// Where the address stands among the changes, if it does.
    fn position(&self, address: &Address) -> (at: Option<usize>)
        ensures
            match at {
                Some(i) => i < self@.len() && self@[i as int].0 == address@,
                None => forall|j: int| 0 <= j < self@.len() ==> (#[trigger] self@[j]).0 != address@,
            },
    {
        let mut i: usize = 0;
        while i < self.accounts.len()
            invariant
                i <= self.accounts@.len(),
                forall|j: int| 0 <= j < i ==> (#[trigger] self@[j]).0 != address@,
            decreases self.accounts@.len() - i,
        {
            if bytes_eq(self.accounts[i].0.as_slice(), address.as_slice()) {
                return Some(i);
            }
            i += 1;
        }
        None
    }

    /// The changes with those to one account set: in place of those that
    /// stand under this address, if there are any, and at the end otherwise.
    pub fn insert(self, address: Address, account: Account) -> (res: ChangeSet)
        ensures
            (exists|i: int| 0 <= i < self@.len() && (#[trigger] self@[i]).0 == address@)
                ==> res@.len() == self@.len() && forall|i: int|
                0 <= i < self@.len() ==> #[trigger] res@[i] == if self@[i].0 == address@ {
                    (address@, account@)
                } else {
                    self@[i]
                },
            (forall|i: int| 0 <= i < self@.len() ==> (#[trigger] self@[i]).0 != address@) ==> res@
                == self@.push((address@, account@)),
    {
        proof {
            use_type_invariant(&self);
        }
        let ghost before = self@;
        let at = self.position(&address);
        let mut accounts = self.accounts;
        match at {
            Some(i) => {
                accounts.set(i, (address, account));
                assert(changes_view(accounts@) =~= before.update(i as int, (address@, account@)));
            },
            None => {
                accounts.push((address, account));
                assert(changes_view(accounts@) =~= before.push((address@, account@)));
            },
        }
        ChangeSet { accounts }
    }
}

/// The operations that write the zero record of an account.
pub open spec fn spec_insert_new_account(address: Seq<u8>) -> Seq<StoreOpView> {
    spec_store_write(info_path(address), record_of(zero_account()))
}

/// The account comes with code to store.
pub open spec fn has_code(info: AccountInfoView) -> bool {
    info.code is Some && info.code->Some_0.len() > 0
}

/// The hash under which the code of the account is stored: the hash that
/// comes with it, or the digest of the code where none was set.
pub open spec fn written_hash(info: AccountInfoView) -> Seq<u8> {
    if has_code(info) && info.code_hash == KECCAK_EMPTY@ {
        keccak256(info.code->Some_0)
    } else {
        info.code_hash
    }
}

/// The code hash that goes into the record. An account with code carries the
/// hash under which its code is stored; for one without, a hash of zeros
/// stands for no code.
pub open spec fn resolved_hash(info: AccountInfoView) -> Seq<u8> {
    if has_code(info) {
        written_hash(info)
    } else if info.code_hash == zero_word() {
        KECCAK_EMPTY@
    } else {
        info.code_hash
    }
}

/// The code of the account has to be written: there is code, and none is
/// known to be stored under its hash.
pub open spec fn writes_code(known: Seq<Seq<u8>>, info: AccountInfoView) -> bool {
    has_code(info) && !known.contains(written_hash(info))
}

/// The operations that store the code of an account, if it has to be written.
pub open spec fn code_ops(known: Seq<Seq<u8>>, info: AccountInfoView) -> Seq<StoreOpView> {
    if writes_code(known, info) {
        spec_store_write(code_path(written_hash(info)), spec_encode_code(info.code->Some_0))
    } else {
        Seq::empty()
    }
}

/// The hashes under which code is stored, after the code of an account was
/// seen.
pub open spec fn known_after(known: Seq<Seq<u8>>, info: AccountInfoView) -> Seq<Seq<u8>> {
    if writes_code(known, info) {
        known.push(written_hash(info))
    } else {
        known
    }
}

/// The operations that write the given slots of an account, in order.
pub open spec fn slot_ops(address: Seq<u8>, storage: Seq<(Seq<u8>, Seq<u8>)>) -> Seq<StoreOpView>
    decreases storage.len(),
{
    if storage.len() == 0 {
        Seq::empty()
    } else {
        slot_ops(address, storage.drop_last()) + spec_store_write(
            storage_path(address, storage.last().0),
            storage.last().1,
        )
    }
}

/// The operations that commit the changes to one account. An account that was
/// not touched is skipped. One that destroyed itself gets the zero record
/// written and loses its whole storage by the one delete of its storage root;
/// nothing else of its changes is written. Any other gets its code stored (if
/// none is known to be stored under its hash), its record written without the
/// code, and its slots written.
pub open spec fn account_ops(known: Seq<Seq<u8>>, address: Seq<u8>, account: AccountView) -> Seq<
    StoreOpView,
> {
    if !account.touched {
        Seq::empty()
    } else if account.selfdestructed {
        spec_insert_new_account(address) + seq![
            StoreOpView::Delete { path: storage_root(address) },
        ]
    } else {
        code_ops(known, account.info) + spec_store_write(
            info_path(address),
            spec_encode_record(
                account.info.balance,
                account.info.nonce,
                resolved_hash(account.info),
            ),
        ) + slot_ops(address, account.storage)
    }
}

/// The hashes under which code is stored, after the changes to one account
/// were committed.
pub open spec fn account_known(known: Seq<Seq<u8>>, account: AccountView) -> Seq<Seq<u8>> {
    if account.touched && !account.selfdestructed {
        known_after(known, account.info)
    } else {
        known
    }
}

/// The hashes under which code is stored, after a change set was committed.
pub open spec fn commit_known(known: Seq<Seq<u8>>, changes: Seq<(Seq<u8>, AccountView)>) -> Seq<
    Seq<u8>,
>
    decreases changes.len(),
{
    if changes.len() == 0 {
        known
    } else {
        account_known(commit_known(known, changes.drop_last()), changes.last().1)
    }
}

/// The operations that commit a change set, account by account, in order.
/// `known` holds the hashes under which the storage holds code already.
pub open spec fn commit_ops(known: Seq<Seq<u8>>, changes: Seq<(Seq<u8>, AccountView)>) -> Seq<
    StoreOpView,
>
    decreases changes.len(),
{
    if changes.len() == 0 {
        Seq::empty()
    } else {
        commit_ops(known, changes.drop_last()) + account_ops(
            commit_known(known, changes.drop_last()),
            changes.last().0,
            changes.last().1,
        )
    }
}

/// The code hash to ask the storage about before the changes to an account
/// are committed: that of its code, if it lives on and has any.
pub open spec fn account_query(account: AccountView) -> Seq<Seq<u8>> {
    if account.touched && !account.selfdestructed && has_code(account.info) {
        seq![written_hash(account.info)]
    } else {
        Seq::empty()
    }
}

/// The code hashes to ask the storage about before a change set is
/// committed, in the order of the accounts.
pub open spec fn spec_code_queries(changes: Seq<(Seq<u8>, AccountView)>) -> Seq<Seq<u8>>
    decreases changes.len(),
{
    if changes.len() == 0 {
        Seq::empty()
    } else {
        spec_code_queries(changes.drop_last()) + account_query(changes.last().1)
    }
}

/// The views of a list of hashes.
pub open spec fn hashes_view(hashes: Seq<B256>) -> Seq<Seq<u8>> {
    Seq::new(hashes.len(), |i: int| hashes[i]@)
}

/// Moves the operations of `more` to the end of `ops`.
fn append_ops(ops: &mut Vec<StoreOp>, more: Vec<StoreOp>)
    ensures
        ops_view(final(ops)@) == ops_view(old(ops)@) + ops_view(more@),
{
    let mut more = more;
    let ghost added = more@;
    ops.append(&mut more);
    assert(ops_view(ops@) =~= ops_view(old(ops)@) + ops_view(added));
}

/// Whether all 32 bytes are zero.
fn is_zero_word(word: &[u8; 32]) -> (zero: bool)
    ensures
        zero == (word@ == zero_word()),
{
    let mut i: usize = 0;
    while i < 32
        invariant
            i <= 32,
            forall|j: int| 0 <= j < i ==> word@[j] == 0,
        decreases 32 - i,
    {
        if word[i] != 0 {
            assert(zero_word()[i as int] == 0);
            return false;
        }
        i += 1;
    }
    assert(word@ =~= zero_word());
    true
}

/// Whether the hash is among the hashes.
fn knows_code(hashes: &Vec<B256>, code_hash: &B256) -> (known: bool)
    ensures
        known == hashes_view(hashes@).contains(code_hash@),
{
    let mut i: usize = 0;
    while i < hashes.len()
        invariant
            i <= hashes@.len(),
            forall|j: int| 0 <= j < i ==> hashes_view(hashes@)[j] != code_hash@,
        decreases hashes@.len() - i,
    {
        if bytes_eq(hashes[i].as_slice(), code_hash.as_slice()) {
            assert(hashes_view(hashes@)[i as int] == code_hash@);
            return true;
        }
        i += 1;
    }
    false
}

/// The hash under which the code of an account is stored.
fn written_hash_of(info: &AccountInfo, code: &Vec<u8>) -> (code_hash: B256)
    requires
        info.code == Some(*code),
        code@.len() > 0,
    ensures
        code_hash@ == written_hash(info@),
{
    let empty = KECCAK_EMPTY;
    if bytes_eq(info.code_hash.as_slice(), empty.as_slice()) {
        keccak256_digest(code.as_slice())
    } else {
        info.code_hash
    }
}

impl KernelDB {
    /// The operations that write the zero record of an account.
    pub fn insert_new_account(address: &Address) -> (ops: Vec<StoreOp>)
        ensures
            ops_view(ops@) == spec_insert_new_account(address@),
    {
        let zero = AccountInfo::default();
        let record = encode_record(&zero.balance, zero.nonce, &zero.code_hash);
        Self::store_write(&PathBuilder::Info(*address), record.as_slice())
    }

    /// The operation that removes every storage slot of an account at once.
    pub fn clear_storage(address: &Address) -> (op: StoreOp)
        ensures
            op@ == (StoreOpView::Delete { path: storage_root(address@) }),
    {
        StoreOp::Delete { path: PathBuilder::AccountStorage(*address).format() }
    }

    /// Settles the code of an account: gives the code hash for its record, and
    /// the operations that store its code unless `stored_code` says that the
    /// storage holds code under that hash already. A hash whose code is
    /// handed out to be written is added to `stored_code`.
    pub fn insert_contract(&self, info: &AccountInfo, stored_code: &mut Vec<B256>) -> (res: (
        B256,
        Vec<StoreOp>,
    ))
        ensures
            res.0@ == resolved_hash(info@),
            ops_view(res.1@) == code_ops(hashes_view(old(stored_code)@), info@),
            hashes_view(final(stored_code)@) == known_after(hashes_view(old(stored_code)@), info@),
    {
        let mut ops: Vec<StoreOp> = Vec::new();
        assert(ops_view(ops@) =~= Seq::<StoreOpView>::empty());
        match &info.code {
            Some(code) => {
                if code.len() > 0 {
                    let code_hash = written_hash_of(info, code);
                    if !knows_code(stored_code, &code_hash) {
                        let stored = encode_code(code.as_slice());
                        ops = Self::store_write(&PathBuilder::Code(code_hash), stored.as_slice());
                        let ghost before = hashes_view(stored_code@);
                        stored_code.push(code_hash);
                        assert(hashes_view(stored_code@) =~= before.push(code_hash@));
                    }
                    return (code_hash, ops);
                }
            },
            None => {},
        }
        if is_zero_word(&info.code_hash) {
            (KECCAK_EMPTY, ops)
        } else {
            (info.code_hash, ops)
        }
    }

    /// The record of an account, from what is stored under its key. An account
    /// that was never written has the zero record, and the operations that
    /// write it come back with it, so that the account exists from then on.
    pub fn basic(&self, address: &Address, stored: Option<Vec<u8>>) -> (res: Result<
        (AccountInfo, Vec<StoreOp>),
        KernelError,
    >)
        ensures
            match stored {
                None => res is Ok && res->Ok_0.0@ == zero_account() && ops_view(res->Ok_0.1@)
                    == spec_insert_new_account(address@),
                Some(bytes) => match spec_decode_record(bytes@) {
                    Some(info) => res is Ok && res->Ok_0.0@ == info && res->Ok_0.1@.len() == 0,
                    None => res == Err::<(AccountInfo, Vec<StoreOp>), KernelError>(
                        KernelError::Decode,
                    ),
                },
            },
    {
        match stored {
            None => Ok((AccountInfo::default(), Self::insert_new_account(address))),
            Some(bytes) => match decode_record(bytes.as_slice()) {
                Ok(info) => Ok((info, Vec::new())),
                Err(e) => Err(e),
            },
        }
    }

    /// The code with a given hash, from what is stored under its key. Code
    /// that is missing is an error, and so are stored bytes that are no code.
    pub fn code_by_hash(&self, code_hash: &B256, stored: Option<Vec<u8>>) -> (res: Result<
        Vec<u8>,
        KernelError,
    >)
        ensures
            match stored {
                None => res == Err::<Vec<u8>, KernelError>(KernelError::MissingCode(*code_hash)),
                Some(bytes) => match spec_decode_code(bytes@) {
                    Some(code) => res is Ok && res->Ok_0@ == code,
                    None => res == Err::<Vec<u8>, KernelError>(KernelError::Decode),
                },
            },
    {
        match stored {
            None => Err(KernelError::MissingCode(*code_hash)),
            Some(bytes) => decode_code(bytes.as_slice()),
        }
    }

    /// The value of a storage slot, from what is stored under its key. A slot
    /// that was never written holds zero. Nothing is written for it, unless the
    /// account itself does not exist yet: then the operations that write its
    /// zero record come back too. `account_exists` says whether the key of the
    /// account's record exists; it matters only where the slot is absent.
    pub fn storage(
        &self,
        address: &Address,
        index: &U256,
        slot: Option<Vec<u8>>,
        account_exists: bool,
    ) -> (res: Result<(U256, Vec<StoreOp>), KernelError>)
        ensures
            match slot {
                None => res is Ok && res->Ok_0.0@ == zero_word() && ops_view(res->Ok_0.1@) == (
                if account_exists {
                    Seq::<StoreOpView>::empty()
                } else {
                    spec_insert_new_account(address@)
                }),
                Some(bytes) => match spec_decode_slot(bytes@) {
                    Some(value) => res is Ok && res->Ok_0.0@ == value && res->Ok_0.1@.len() == 0,
                    None => res == Err::<(U256, Vec<StoreOp>), KernelError>(KernelError::Decode),
                },
            },
    {
        match slot {
            None => {
                let zero = [0u8; 32];
                assert(zero@ =~= zero_word());
                if account_exists {
                    let ops: Vec<StoreOp> = Vec::new();
                    assert(ops_view(ops@) =~= Seq::<StoreOpView>::empty());
                    Ok((zero, ops))
                } else {
                    Ok((zero, Self::insert_new_account(address)))
                }
            },
            Some(bytes) => {
                if bytes.len() < 32 {
                    return Err(KernelError::Decode);
                }
                let value = word_at(bytes.as_slice(), 0);
                Ok((value, Vec::new()))
            },
        }
    }

    /// The hash of a block, made from its number alone: the host keeps no
    /// chain history.
    pub fn block_hash(&self, number: u64) -> (hash: B256)
        ensures
            hash@ == keccak256(vstd::bytes::spec_u64_to_le_bytes(number)),
    {
        let bytes = vstd::bytes::u64_to_le_bytes(number);
        keccak256_digest(bytes.as_slice())
    }

    /// The operations that commit the changes to one account.
    fn commit_account(&self, address: &Address, account: &Account, stored_code: &mut Vec<B256>) -> (ops:
        Vec<StoreOp>)
        ensures
            ops_view(ops@) == account_ops(hashes_view(old(stored_code)@), address@, account@),
            hashes_view(final(stored_code)@) == account_known(
                hashes_view(old(stored_code)@),
                account@,
            ),
    {
        if !account.is_touched() {
            let ops: Vec<StoreOp> = Vec::new();
            assert(ops_view(ops@) =~= Seq::<StoreOpView>::empty());
            return ops;
        }
        if account.is_selfdestructed() {
            let mut ops = Self::insert_new_account(address);
            let ghost first = ops@;
            ops.push(Self::clear_storage(address));
            assert(ops_view(ops@) =~= ops_view(first) + seq![
                StoreOpView::Delete { path: storage_root(address@) },
            ]);
            return ops;
        }
        let (code_hash, mut ops) = self.insert_contract(&account.info, stored_code);
        let record = encode_record(&account.info.balance, account.info.nonce, &code_hash);
        append_ops(&mut ops, Self::store_write(&PathBuilder::Info(*address), record.as_slice()));
        let ghost head = ops_view(ops@);
        let ghost slots = account.storage@;
        let count = account.storage.len();
        let mut j: usize = 0;
        assert(slot_ops(address@, slots.subrange(0, 0)) =~= Seq::<StoreOpView>::empty());
        assert(head + Seq::<StoreOpView>::empty() =~= head);
        while j < count
            invariant
                j <= count,
                count == slots.len(),
                slots == account.storage@,
                ops_view(ops@) == head + slot_ops(address@, slots.subrange(0, j as int)),
            decreases count - j,
        {
            let (key, value) = account.storage.slot(j);
            append_ops(
                &mut ops,
                Self::store_write(&PathBuilder::Storage(*address, key), value.as_slice()),
            );
            proof {
                let longer = slots.subrange(0, j + 1);
                assert(longer.drop_last() =~= slots.subrange(0, j as int));
                assert(longer.last() == slots[j as int]);
                assert(ops_view(ops@) =~= head + slot_ops(address@, longer));
            }
            j += 1;
        }
        assert(slots.subrange(0, j as int) =~= slots);
        ops
    }

    /// The code hashes of a change set to ask the storage about before the
    /// change set is committed: does the key of the code with this hash exist?
    pub fn code_queries(&self, changes: &ChangeSet) -> (queries: Vec<B256>)
        ensures
            hashes_view(queries@) == spec_code_queries(changes@),
    {
        let ghost all = changes@;
        let count = changes.len();
        let mut queries: Vec<B256> = Vec::new();
        let mut i: usize = 0;
        assert(hashes_view(queries@) =~= spec_code_queries(all.subrange(0, 0)));
        while i < count
            invariant
                i <= count,
                count == all.len(),
                all == changes@,
                hashes_view(queries@) == spec_code_queries(all.subrange(0, i as int)),
            decreases count - i,
        {
            let account = &changes.accounts[i].1;
            let ghost before = hashes_view(queries@);
            proof {
                let longer = all.subrange(0, i + 1);
                assert(longer.drop_last() =~= all.subrange(0, i as int));
                assert(longer.last() == all[i as int]);
                assert(all[i as int].1 == account@);
                assert(before + Seq::<Seq<u8>>::empty() =~= before);
            }
            if account.is_touched() && !account.is_selfdestructed() {
                match &account.info.code {
                    Some(code) => {
                        if code.len() > 0 {
                            let code_hash = written_hash_of(&account.info, code);
                            queries.push(code_hash);
                            assert(hashes_view(queries@) =~= before + seq![code_hash@]);
                        }
                    },
                    None => {},
                }
            }
            i += 1;
        }
        assert(all.subrange(0, i as int) =~= all);
        queries
    }

    /// The operations that commit a change set: the accounts are taken in
    /// order, and each as [`account_ops`] says. `stored_code` holds those
    /// hashes of [`KernelDB::code_queries`] for which the storage holds code:
    /// code under such a hash is not written again, and code that is handed
    /// out to be written for one account is not written for the next.
    pub fn commit_safe(&self, changes: &ChangeSet, stored_code: &Vec<B256>) -> (ops: Vec<StoreOp>)
        ensures
            ops_view(ops@) == commit_ops(hashes_view(stored_code@), changes@),
    {
        let ghost known = hashes_view(stored_code@);
        let ghost all = changes@;
        let count = changes.len();
        let mut seen = vstd::slice::slice_to_vec(stored_code.as_slice());
        let mut ops: Vec<StoreOp> = Vec::new();
        let mut i: usize = 0;
        assert(ops_view(ops@) =~= commit_ops(known, all.subrange(0, 0)));
        assert(hashes_view(seen@) =~= known);
        while i < count
            invariant
                i <= count,
                count == all.len(),
                all == changes@,
                ops_view(ops@) == commit_ops(known, all.subrange(0, i as int)),
                hashes_view(seen@) == commit_known(known, all.subrange(0, i as int)),
            decreases count - i,
        {
            let more = self.commit_account(&changes.accounts[i].0, &changes.accounts[i].1, &mut seen);
            append_ops(&mut ops, more);
            proof {
                let longer = all.subrange(0, i + 1);
                assert(longer.drop_last() =~= all.subrange(0, i as int));
                assert(longer.last() == all[i as int]);
            }
            i += 1;
        }
        assert(all.subrange(0, i as int) =~= all);
        ops
    }

    /// The operations that commit a change set. See [`KernelDB::commit_safe`].
    pub fn commit(&self, changes: &ChangeSet, stored_code: &Vec<B256>) -> (ops: Vec<StoreOp>)
        ensures
            ops_view(ops@) == commit_ops(hashes_view(stored_code@), changes@),
    {
        self.commit_safe(changes, stored_code)
    }
}

/// Materialisation: reading an account that was never written gives the zero
/// record together with operations after which the key of the account exists
/// and holds the zero record, so that the next read finds it and writes
/// nothing.
pub proof fn lemma_new_account_exists(state: Map<Seq<u8>, Seq<u8>>, address: Seq<u8>)
    ensures
        ({
            let after = apply_ops(state, spec_insert_new_account(address));
            &&& after.contains_key(info_path(address))
            &&& spec_decode_record(after[info_path(address)]) == Some(zero_account())
            &&& !state.contains_key(info_path(address)) ==> after[info_path(address)] == record_of(
                zero_account(),
            )
        }),
{
    let record = record_of(zero_account());
    vstd::bytes::lemma_auto_spec_u64_to_from_le_bytes();
    assert(record.len() > 0);
    lemma_store_write_overwrites(state, info_path(address), record);
    let after = apply_ops(state, spec_insert_new_account(address));
    lemma_record_round_trip(zero_word(), 0, KECCAK_EMPTY@, after[info_path(address)]);
}

/// Write, then read, for code of any length: what is read back through the
/// chunked reads after code was stored under a key decodes to that code, byte
/// for byte, whatever the key held before.
pub proof fn lemma_stored_code_is_read_back(
    state: Map<Seq<u8>, Seq<u8>>,
    path: Seq<u8>,
    code: Seq<u8>,
)
    requires
        code.len() + CODE_HEADER_SIZE <= usize::MAX,
        state.contains_key(path) ==> state[path].len() <= usize::MAX,
    ensures
        ({
            let after = apply_ops(state, spec_store_write(path, spec_encode_code(code)));
            let chunks = host_chunks(after[path], spec_read_plan(after[path].len() as int));
            &&& after.contains_key(path)
            &&& chunks_fit(after[path].len() as int, chunks)
            &&& spec_decode_code(concat_all(chunks)) == Some(code)
        }),
{
    let stored = spec_encode_code(code);
    let after = apply_ops(state, spec_store_write(path, stored));
    vstd::bytes::lemma_auto_spec_u64_to_from_le_bytes();
    assert(stored.len() == CODE_HEADER_SIZE + code.len());
    lemma_write_then_read(state, path, stored);
    let read = concat_all(host_chunks(after[path], spec_read_plan(after[path].len() as int)));
    lemma_code_round_trip(code, read);
}

/// The path of a storage slot lies below the storage root of its account, and
/// the path of the account's record does not.
pub proof fn lemma_paths_of_account(address: Seq<u8>, key: Seq<u8>)
    ensures
        is_under(storage_path(address, key), storage_root(address)),
        !is_under(info_path(address), storage_root(address)),
{
    let root = storage_root(address);
    let slot = storage_path(address, key);
    assert(slot.subrange(0, root.len() as int) =~= root);
    assert(slot[root.len() as int] == PATH_SEPARATOR);
    assert(info_path(address).len() == root.len());
    assert(info_path(address)[1] != root[1]);
}

/// The storage of one account does not lie below the storage root of another.
pub proof fn lemma_storage_roots_are_apart(address: Seq<u8>, other: Seq<u8>, key: Seq<u8>)
    requires
        address.len() == other.len(),
        address != other,
    ensures
        !is_under(storage_path(other, key), storage_root(address)),
        !is_under(storage_root(other), storage_root(address)),
        !is_under(info_path(other), storage_root(address)),
{
    let root = storage_root(address);
    let other_root = storage_root(other);
    let slot = storage_path(other, key);
    assert(root.len() == other_root.len());
    if other_root == root {
        lemma_keyed_path_injective(STORAGE_PREFIX, address, other);
    }
    assert(slot.subrange(0, root.len() as int) =~= other_root);
    assert(info_path(other)[1] != root[1]);
}

/// Self-destruction: the host gets one delete, that of the storage root of
/// the account. After the changes are committed no storage slot of the
/// account is left, whatever was stored before, and its key holds the zero
/// record again. Nothing else changes: what lies neither below the storage
/// root of the account nor at the key of its record is as it was.
pub proof fn lemma_selfdestruct_clears_account(
    state: Map<Seq<u8>, Seq<u8>>,
    known: Seq<Seq<u8>>,
    address: Seq<u8>,
    account: AccountView,
)
    requires
        account.touched,
        account.selfdestructed,
    ensures
        delete_count(account_ops(known, address, account)) == 1,
        account_ops(known, address, account).last() == (StoreOpView::Delete {
            path: storage_root(address),
        }),
        ({
            let after = apply_ops(state, account_ops(known, address, account));
            &&& forall|key: Seq<u8>| !after.contains_key(#[trigger] storage_path(address, key))
            &&& forall|path: Seq<u8>|
                is_under(path, storage_root(address)) ==> !after.contains_key(path)
            &&& after.contains_key(info_path(address))
            &&& spec_decode_record(after[info_path(address)]) == Some(zero_account())
            &&& forall|path: Seq<u8>|
                !is_under(path, storage_root(address)) && path != info_path(address) ==> (
                after.contains_key(path) <==> state.contains_key(path))
            &&& forall|path: Seq<u8>|
                !is_under(path, storage_root(address)) && path != info_path(address)
                    && state.contains_key(path) ==> after[path] == state[path]
        }),
{
    let reset = spec_insert_new_account(address);
    let purge = seq![StoreOpView::Delete { path: storage_root(address) }];
    let mid = apply_ops(state, reset);
    let after = apply_ops(state, reset + purge);
    lemma_apply_ops_concat(state, reset, purge);
    lemma_new_account_exists(state, address);
    lemma_store_write_overwrites(state, info_path(address), record_of(zero_account()));
    lemma_store_write_deletes_nothing(info_path(address), record_of(zero_account()));
    lemma_delete_count_concat(reset, purge);
    assert(purge.drop_last() =~= Seq::<StoreOpView>::empty());
    assert(delete_count(purge.drop_last()) == 0);
    assert(delete_count(purge) == 1);
    assert(apply_ops(mid, purge.drop_last()) == mid);
    assert(after == apply_op(mid, purge.last()));
    assert forall|key: Seq<u8>| !after.contains_key(#[trigger] storage_path(address, key)) by {
        lemma_paths_of_account(address, key);
    }
    lemma_paths_of_account(address, Seq::empty());
}

proof fn lemma_value_writes_of_slots(
    address: Seq<u8>,
    storage: Seq<(Seq<u8>, Seq<u8>)>,
    code_hash: Seq<u8>,
)
    ensures
        value_writes(slot_ops(address, storage), code_path(code_hash)) == 0,
    decreases storage.len(),
{
    if storage.len() > 0 {
        let head = slot_ops(address, storage.drop_last());
        let tail = spec_store_write(storage_path(address, storage.last().0), storage.last().1);
        lemma_value_writes_of_slots(address, storage.drop_last(), code_hash);
        lemma_value_writes_concat(head, tail, code_path(code_hash));
        lemma_value_writes_of_store_write(
            storage_path(address, storage.last().0),
            storage.last().1,
            code_path(code_hash),
        );
        lemma_namespaces_are_disjoint(address, code_hash, address, storage.last().0);
    }
}

proof fn lemma_value_writes_of_account(
    known: Seq<Seq<u8>>,
    address: Seq<u8>,
    account: AccountView,
    code_hash: Seq<u8>,
)
    ensures
        value_writes(account_ops(known, address, account), code_path(code_hash)) == if account.touched
            && !account.selfdestructed && writes_code(known, account.info) && written_hash(
            account.info,
        ) == code_hash {
            1nat
        } else {
            0nat
        },
{
    let path = code_path(code_hash);
    vstd::bytes::lemma_auto_spec_u64_to_from_le_bytes();
    lemma_namespaces_are_disjoint(address, code_hash, address, Seq::empty());
    if code_path(written_hash(account.info)) == path {
        lemma_keyed_path_injective(CODE_PREFIX, written_hash(account.info), code_hash);
    }
    if !account.touched {
        assert(value_writes(Seq::<StoreOpView>::empty(), path) == 0);
    } else if account.selfdestructed {
        let reset = spec_insert_new_account(address);
        let purge = seq![StoreOpView::Delete { path: storage_root(address) }];
        lemma_value_writes_concat(reset, purge, path);
        lemma_value_writes_of_store_write(info_path(address), record_of(zero_account()), path);
        assert(purge.len() == 1);
        assert(purge.last() == StoreOpView::Delete { path: storage_root(address) });
        assert(purge.drop_last() =~= Seq::<StoreOpView>::empty());
        assert(value_writes(purge.drop_last(), path) == 0);
        assert(value_writes(purge, path) == 0);
    } else {
        let code = code_ops(known, account.info);
        let record = spec_store_write(
            info_path(address),
            spec_encode_record(
                account.info.balance,
                account.info.nonce,
                resolved_hash(account.info),
            ),
        );
        let slots = slot_ops(address, account.storage);
        lemma_value_writes_concat(code + record, slots, path);
        lemma_value_writes_concat(code, record, path);
        lemma_value_writes_of_slots(address, account.storage, code_hash);
        lemma_value_writes_of_store_write(
            info_path(address),
            spec_encode_record(
                account.info.balance,
                account.info.nonce,
                resolved_hash(account.info),
            ),
            path,
        );
        if writes_code(known, account.info) {
            let stored = spec_encode_code(account.info.code->Some_0);
            assert(stored.len() > 0);
            lemma_value_writes_of_store_write(code_path(written_hash(account.info)), stored, path);
        } else {
            assert(value_writes(Seq::<StoreOpView>::empty(), path) == 0);
        }
        assert(account_ops(known, address, account) == (code + record) + slots);
    }
}

/// Code is stored once: however many accounts of a change set come with code
/// of one hash, at most one write is started under the path of that hash, and
/// none if the storage is known to hold code under that hash. Whenever code
/// was written or known, the hash is known afterwards.
pub proof fn lemma_code_written_once(
    known: Seq<Seq<u8>>,
    changes: Seq<(Seq<u8>, AccountView)>,
    code_hash: Seq<u8>,
)
    ensures
        value_writes(commit_ops(known, changes), code_path(code_hash)) <= 1,
        known.contains(code_hash) ==> value_writes(commit_ops(known, changes), code_path(code_hash))
            == 0,
        known.contains(code_hash) || value_writes(commit_ops(known, changes), code_path(code_hash))
            == 1 ==> commit_known(known, changes).contains(code_hash),
    decreases changes.len(),
{
    if changes.len() > 0 {
        let before = changes.drop_last();
        let seen = commit_known(known, before);
        let account = changes.last().1;
        lemma_code_written_once(known, before, code_hash);
        lemma_value_writes_of_account(seen, changes.last().0, account, code_hash);
        lemma_value_writes_concat(
            commit_ops(known, before),
            account_ops(seen, changes.last().0, account),
            code_path(code_hash),
        );
        if account.touched && !account.selfdestructed && writes_code(seen, account.info) {
            let grown = seen.push(written_hash(account.info));
            assert(grown.last() == written_hash(account.info));
            assert forall|h: Seq<u8>| seen.contains(h) implies grown.contains(h) by {
                let i = choose|i: int| 0 <= i < seen.len() && seen[i] == h;
                assert(grown[i] == h);
            }
        }
    }
}

/// Committing a change set in two parts, with the same store, asks for the
/// same operations as committing it at once.
pub proof fn lemma_commit_in_parts(
    known: Seq<Seq<u8>>,
    first: Seq<(Seq<u8>, AccountView)>,
    second: Seq<(Seq<u8>, AccountView)>,
)
    ensures
        commit_known(known, first + second) == commit_known(commit_known(known, first), second),
        commit_ops(known, first + second) == commit_ops(known, first) + commit_ops(
            commit_known(known, first),
            second,
        ),
    decreases second.len(),
{
    if second.len() == 0 {
        assert(first + second =~= first);
        assert(commit_ops(known, first) + Seq::<StoreOpView>::empty() =~= commit_ops(
            known,
            first,
        ));
    } else {
        lemma_commit_in_parts(known, first, second.drop_last());
        assert((first + second).drop_last() =~= first + second.drop_last());
        assert((first + second).last() == second.last());
        let seen = commit_known(known, first);
        let tail = account_ops(
            commit_known(seen, second.drop_last()),
            second.last().0,
            second.last().1,
        );
        assert((commit_ops(known, first) + commit_ops(seen, second.drop_last())) + tail
            =~= commit_ops(known, first) + (commit_ops(seen, second.drop_last()) + tail));
    }
}

/// A change set of one account is committed as that account is.
pub proof fn lemma_commit_of_one(known: Seq<Seq<u8>>, address: Seq<u8>, account: AccountView)
    ensures
        commit_ops(known, seq![(address, account)]) == account_ops(known, address, account),
        commit_known(known, seq![(address, account)]) == account_known(known, account),
{
    let one = seq![(address, account)];
    assert(one.drop_last() =~= Seq::<(Seq<u8>, AccountView)>::empty());
    assert(commit_known(known, one.drop_last()) == known);
    assert(commit_ops(known, one.drop_last()) =~= Seq::<StoreOpView>::empty());
    assert(Seq::<StoreOpView>::empty() + account_ops(known, address, account) =~= account_ops(
        known,
        address,
        account,
    ));
}

/// What writing the slots of an account does to the storage, where no two of
/// them share a path and none is empty: each slot begins with the value that
/// was written for it, and what is the path of none of them is as it was.
pub proof fn lemma_slots_are_stored(
    state: Map<Seq<u8>, Seq<u8>>,
    address: Seq<u8>,
    storage: Seq<(Seq<u8>, Seq<u8>)>,
)
    requires
        forall|i: int, j: int|
            0 <= i < j < storage.len() ==> storage_path(address, (#[trigger] storage[i]).0)
                != storage_path(address, (#[trigger] storage[j]).0),
        forall|i: int| 0 <= i < storage.len() ==> (#[trigger] storage[i]).1.len() > 0,
    ensures
        ({
            let after = apply_ops(state, slot_ops(address, storage));
            &&& forall|j: int|
                0 <= j < storage.len() ==> after.contains_key(
                    storage_path(address, (#[trigger] storage[j]).0),
                ) && starts_with(after[storage_path(address, storage[j].0)], storage[j].1)
            &&& forall|path: Seq<u8>|
                (forall|m: int|
                    0 <= m < storage.len() ==> path != storage_path(
                        address,
                        (#[trigger] storage[m]).0,
                    )) ==> (#[trigger] after.contains_key(path) <==> state.contains_key(path))
            &&& forall|path: Seq<u8>|
                (forall|m: int|
                    0 <= m < storage.len() ==> path != storage_path(
                        address,
                        (#[trigger] storage[m]).0,
                    )) && state.contains_key(path) ==> #[trigger] after[path] == state[path]
        }),
    decreases storage.len(),
{
    let after = apply_ops(state, slot_ops(address, storage));
    if storage.len() == 0 {
        assert(slot_ops(address, storage) =~= Seq::<StoreOpView>::empty());
    } else {
        let before = storage.drop_last();
        let last_path = storage_path(address, storage.last().0);
        let mid = apply_ops(state, slot_ops(address, before));
        assert forall|i: int, j: int| 0 <= i < j < before.len() implies storage_path(
            address,
            (#[trigger] before[i]).0,
        ) != storage_path(address, (#[trigger] before[j]).0) by {
            assert(before[i] == storage[i] && before[j] == storage[j]);
        }
        assert forall|i: int| 0 <= i < before.len() implies (#[trigger] before[i]).1.len() > 0 by {
            assert(before[i] == storage[i]);
        }
        lemma_slots_are_stored(state, address, before);
        lemma_apply_ops_concat(
            state,
            slot_ops(address, before),
            spec_store_write(last_path, storage.last().1),
        );
        assert(storage[storage.len() - 1].1.len() > 0);
        lemma_store_write_overwrites(mid, last_path, storage.last().1);
        assert forall|j: int| 0 <= j < storage.len() implies after.contains_key(
            storage_path(address, (#[trigger] storage[j]).0),
        ) && starts_with(after[storage_path(address, storage[j].0)], storage[j].1) by {
            if j < storage.len() - 1 {
                assert(before[j] == storage[j]);
                assert(storage_path(address, storage[j].0) != storage_path(
                    address,
                    storage[storage.len() - 1].0,
                ));
            }
        }
        assert forall|path: Seq<u8>|
            (forall|m: int|
                0 <= m < storage.len() ==> path != storage_path(
                    address,
                    (#[trigger] storage[m]).0,
                )) implies (#[trigger] after.contains_key(path) <==> state.contains_key(path)) && (
        state.contains_key(path) ==> after[path] == state[path]) by {
            assert(path != storage_path(address, storage[storage.len() - 1].0));
            assert forall|m: int| 0 <= m < before.len() implies path != storage_path(
                address,
                (#[trigger] before[m]).0,
            ) by {
                assert(before[m] == storage[m]);
            }
        }
    }
}

/// Commit: after the changes to a touched account that lives on are committed,
/// its key holds its record, with the code hash settled and without the code.
/// Its code is stored under its hash: written now, or there already if the
/// storage was truly known to hold it. Each of its written slots holds its
/// value. Beside the record, that code and the slots, nothing changes.
pub proof fn lemma_commit_stores_account(
    state: Map<Seq<u8>, Seq<u8>>,
    known: Seq<Seq<u8>>,
    address: Seq<u8>,
    account: AccountView,
)
    requires
        account.touched,
        !account.selfdestructed,
        account.info.balance.len() == 32,
        resolved_hash(account.info).len() == 32,
        distinct_keys(account.storage),
        forall|i: int|
            0 <= i < account.storage.len() ==> (#[trigger] account.storage[i]).0.len() == 32
                && account.storage[i].1.len() == 32,
    ensures
        ({
            let after = apply_ops(state, account_ops(known, address, account));
            let storage = account.storage;
            let code_key = code_path(written_hash(account.info));
            &&& after.contains_key(info_path(address))
            &&& spec_decode_record(after[info_path(address)]) == Some(
                AccountInfoView {
                    balance: account.info.balance,
                    nonce: account.info.nonce,
                    code_hash: resolved_hash(account.info),
                    code: None,
                },
            )
            &&& has_code(account.info) && (writes_code(known, account.info) || state.contains_key(
                code_key,
            )) ==> after.contains_key(code_key)
            &&& writes_code(known, account.info) && account.info.code->Some_0.len() <= u64::MAX
                ==> spec_decode_code(after[code_key]) == Some(account.info.code->Some_0)
            &&& writes_code(known, account.info) && !state.contains_key(code_key) ==> after[code_key]
                == spec_encode_code(account.info.code->Some_0)
            &&& forall|j: int|
                0 <= j < storage.len() ==> after.contains_key(
                    storage_path(address, (#[trigger] storage[j]).0),
                ) && spec_decode_slot(after[storage_path(address, storage[j].0)]) == Some(
                    storage[j].1,
                )
            &&& forall|path: Seq<u8>|
                path != info_path(address) && !(writes_code(known, account.info) && path
                    == code_key) && !(path.len() >= 2 && path[1] == STORAGE_PREFIX) ==> (
                #[trigger] after.contains_key(path) <==> state.contains_key(path))
            &&& forall|path: Seq<u8>|
                path != info_path(address) && !(writes_code(known, account.info) && path
                    == code_key) && !(path.len() >= 2 && path[1] == STORAGE_PREFIX)
                    && state.contains_key(path) ==> #[trigger] after[path] == state[path]
        }),
{
    let info = account.info;
    let storage = account.storage;
    let code = code_ops(known, info);
    let record = spec_encode_record(info.balance, info.nonce, resolved_hash(info));
    let record_ops = spec_store_write(info_path(address), record);
    let slots = slot_ops(address, storage);
    let with_code = apply_ops(state, code);
    let with_record = apply_ops(with_code, record_ops);
    let after = apply_ops(state, (code + record_ops) + slots);
    let code_key = code_path(written_hash(info));
    vstd::bytes::lemma_auto_spec_u64_to_from_le_bytes();
    lemma_apply_ops_concat(state, code + record_ops, slots);
    lemma_apply_ops_concat(state, code, record_ops);
    assert(record.len() > 0);
    lemma_store_write_overwrites(with_code, info_path(address), record);
    assert forall|i: int, j: int| 0 <= i < j < storage.len() implies storage_path(
        address,
        (#[trigger] storage[i]).0,
    ) != storage_path(address, (#[trigger] storage[j]).0) by {
        if storage_path(address, storage[i].0) == storage_path(address, storage[j].0) {
            lemma_storage_path_injective(address, storage[i].0, address, storage[j].0);
        }
    }
    lemma_slots_are_stored(with_record, address, storage);
    assert(info_path(address)[1] != code_key[1]);
    assert forall|m: int| 0 <= m < storage.len() implies info_path(address) != storage_path(
        address,
        (#[trigger] storage[m]).0,
    ) && code_key != storage_path(address, storage[m].0) && storage_path(
        address,
        storage[m].0,
    )[1] == STORAGE_PREFIX by {
        lemma_namespaces_are_disjoint(address, written_hash(info), address, storage[m].0);
    }
    assert(with_record.contains_key(info_path(address)));
    assert(after.contains_key(info_path(address)));
    assert(after[info_path(address)] == with_record[info_path(address)]);
    lemma_record_round_trip(
        info.balance,
        info.nonce,
        resolved_hash(info),
        after[info_path(address)],
    );
    if writes_code(known, info) {
        let stored = spec_encode_code(info.code->Some_0);
        assert(stored.len() > 0);
        lemma_store_write_overwrites(state, code_key, stored);
        assert(with_code.contains_key(code_key));
        assert(with_record.contains_key(code_key));
        assert(after.contains_key(code_key));
        assert(after[code_key] == with_code[code_key]);
        if info.code->Some_0.len() <= u64::MAX {
            lemma_code_round_trip(info.code->Some_0, after[code_key]);
        }
    } else {
        assert(code =~= Seq::<StoreOpView>::empty());
        assert(with_code == state);
    }
    assert forall|j: int| 0 <= j < storage.len() implies after.contains_key(
        storage_path(address, (#[trigger] storage[j]).0),
    ) && spec_decode_slot(after[storage_path(address, storage[j].0)]) == Some(storage[j].1) by {
        let value = after[storage_path(address, storage[j].0)];
        assert(starts_with(value, storage[j].1));
        assert(value.subrange(0, 32) == storage[j].1);
    }
    assert forall|path: Seq<u8>|
        path != info_path(address) && !(writes_code(known, info) && path == code_key) && !(
        path.len() >= 2 && path[1] == STORAGE_PREFIX) implies (#[trigger] after.contains_key(path)
        <==> state.contains_key(path)) && (state.contains_key(path) ==> after[path]
        == state[path]) by {
        assert forall|m: int| 0 <= m < storage.len() implies path != storage_path(
            address,
            (#[trigger] storage[m]).0,
        ) by {
            lemma_namespaces_are_disjoint(address, written_hash(info), address, storage[m].0);
        }
    }
}

/// The path lies in the namespace of code.
pub open spec fn in_code_namespace(path: Seq<u8>) -> bool {
    path.len() >= 2 && path[1] == CODE_PREFIX
}

/// Two accounts that deploy the same code, one commit after the other, where
/// the storage holds no code before and the storage is asked truly in between:
/// the code is written once and not again; afterwards the storage holds
/// exactly one key in the namespace of code, that of the hash of the code,
/// which decodes to the code; and the record of the second account carries
/// that hash and no code, as does that of the first where it is another
/// account.
pub proof fn lemma_same_code_stored_once(
    state: Map<Seq<u8>, Seq<u8>>,
    first: (Seq<u8>, AccountView),
    second: (Seq<u8>, AccountView),
)
    requires
        forall|path: Seq<u8>| state.contains_key(path) ==> !in_code_namespace(path),
        first.1.touched && !first.1.selfdestructed,
        second.1.touched && !second.1.selfdestructed,
        has_code(first.1.info),
        first.1.info.code->Some_0.len() <= u64::MAX,
        second.1.info.code == first.1.info.code,
        second.1.info.code_hash == first.1.info.code_hash,
        first.1.info.balance.len() == 32 && second.1.info.balance.len() == 32,
        resolved_hash(first.1.info).len() == 32,
        distinct_keys(first.1.storage) && distinct_keys(second.1.storage),
        forall|i: int|
            0 <= i < first.1.storage.len() ==> (#[trigger] first.1.storage[i]).0.len() == 32
                && first.1.storage[i].1.len() == 32,
        forall|i: int|
            0 <= i < second.1.storage.len() ==> (#[trigger] second.1.storage[i]).0.len() == 32
                && second.1.storage[i].1.len() == 32,
    ensures
        ({
            let code_hash = written_hash(first.1.info);
            let empty = Seq::<Seq<u8>>::empty();
            let first_ops = commit_ops(empty, seq![first]);
            let between = apply_ops(state, first_ops);
            let second_ops = commit_ops(spec_code_queries(seq![second]), seq![second]);
            let after = apply_ops(between, second_ops);
            &&& value_writes(first_ops, code_path(code_hash)) == 1
            &&& between.contains_key(code_path(code_hash))
            &&& value_writes(second_ops, code_path(code_hash)) == 0
            &&& forall|path: Seq<u8>|
                after.contains_key(path) && in_code_namespace(path) ==> path == code_path(
                    code_hash,
                )
            &&& after.contains_key(code_path(code_hash))
            &&& spec_decode_code(after[code_path(code_hash)]) == Some(first.1.info.code->Some_0)
            &&& spec_decode_record(after[info_path(second.0)]) == Some(
                AccountInfoView {
                    balance: second.1.info.balance,
                    nonce: second.1.info.nonce,
                    code_hash,
                    code: None,
                },
            )
            &&& info_path(first.0) != info_path(second.0) ==> spec_decode_record(
                after[info_path(first.0)],
            ) == Some(
                AccountInfoView {
                    balance: first.1.info.balance,
                    nonce: first.1.info.nonce,
                    code_hash,
                    code: None,
                },
            )
        }),
{
    let code_hash = written_hash(first.1.info);
    let code_key = code_path(code_hash);
    let empty = Seq::<Seq<u8>>::empty();
    let asked = spec_code_queries(seq![second]);
    assert(written_hash(second.1.info) == code_hash);
    assert(resolved_hash(first.1.info) == code_hash);
    assert(resolved_hash(second.1.info) == code_hash);
    lemma_commit_of_one(empty, first.0, first.1);
    lemma_commit_of_one(asked, second.0, second.1);
    assert(asked =~= seq![code_hash]) by {
        let one = seq![second];
        assert(one.drop_last() =~= Seq::<(Seq<u8>, AccountView)>::empty());
        assert(spec_code_queries(one.drop_last()) =~= Seq::<Seq<u8>>::empty());
    }
    assert(asked[0] == code_hash);
    assert(asked.contains(code_hash));
    assert(writes_code(empty, first.1.info));
    assert(!writes_code(asked, second.1.info));
    lemma_value_writes_of_account(empty, first.0, first.1, code_hash);
    lemma_value_writes_of_account(asked, second.0, second.1, code_hash);
    let between = apply_ops(state, account_ops(empty, first.0, first.1));
    let after = apply_ops(between, account_ops(asked, second.0, second.1));
    lemma_commit_stores_account(state, empty, first.0, first.1);
    lemma_commit_stores_account(between, asked, second.0, second.1);
    assert(code_key[1] == CODE_PREFIX);
    assert(info_path(first.0)[1] != CODE_PREFIX && info_path(second.0)[1] != CODE_PREFIX);
    assert(code_key != info_path(second.0));
    assert(after.contains_key(code_key) && after[code_key] == between[code_key]);
    assert forall|path: Seq<u8>| after.contains_key(path) && in_code_namespace(path) implies path
        == code_key by {
        if path != code_key {
            assert(path != info_path(second.0) && path != info_path(first.0));
            assert(after.contains_key(path) <==> between.contains_key(path));
            assert(between.contains_key(path) <==> state.contains_key(path));
        }
    }
    if info_path(first.0) != info_path(second.0) {
        assert(after[info_path(first.0)] == between[info_path(first.0)]);
    }
}

} // verus!
