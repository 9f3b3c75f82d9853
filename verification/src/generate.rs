//! The generator of benchmark inboxes: one contract deployment, a mint for each
//! account, transfers between the accounts, and a balance query for each.
//!
//! The transfers follow on from each other. Account 0 has its tokens minted
//! and sends all but one of them to account 1, which sends all but one of
//! those to the next, and so on; then the same starts at account 1.
use crate::crypto::{
    ecdsa_signature, keypair_from_nonzero, public_key_of, scalar_from_int, Operation, PublicKey,
    SecretKey, SignedOperation,
};
use crate::database::database_utils::Address;
use crate::hex::{hex, push_hex};
use crate::hash::{keccak256, keccak256_digest};
use crate::inbox::spec_external_frame;
use alloy_sol_types::sol_data::{Address as AbiAddress, Uint};
use alloy_sol_types::SolType;
use tezos_crypto_rs::hash::SmartRollupHash;
use tezos_data_encoding::enc::BinWriter;
use tezos_smart_rollup::inbox::ExternalMessageFrame;
use tezos_smart_rollup::types::SmartRollupAddress;
use vstd::prelude::*;
use vstd::string::StringSliceAdditionalSpecFns;

verus! {

/// The address at which the token contract lands when the minter deploys it
/// with its first transaction.
pub const CONTRACT_ADDRESS: Address = [
    0xbd, 0x77, 0x04, 0x16, 0xa3, 0x34, 0x5f, 0x91, 0xe4, 0xb3,
    0x45, 0x76, 0xcb, 0x80, 0x4a, 0x57, 0x6f, 0xa4, 0x8e, 0xb1,
];

/// The address of the minter. Large enough not to be the address of an account.
pub const MINTER: Address = [
    0x99, 0x99, 0x99, 0x99, 0x99, 0x99, 0x99, 0x99, 0x99, 0x99,
    0x99, 0x99, 0x99, 0x99, 0x99, 0x99, 0x99, 0x99, 0x99, 0x99,
];

/// The secret scalar of the minter.
pub const MINTER_KEY: u32 = 0x9999_9999;

/// The largest number of transfers that can be asked for.
pub const MAX_TRANSFERS: usize = 0xffff_ffff;

/// Whether a transaction creates a contract or calls one.
#[derive(Clone, Copy, Debug, PartialEq, Eq)]
pub enum TxKind {
    Create,
    Call(Address),
}

/// The target of a transaction as contracts see it: the address that is
/// called, or nothing for a creation.
pub open spec fn kind_target(kind: TxKind) -> Option<Seq<u8>> {
    match kind {
        TxKind::Create => None,
        TxKind::Call(address) => Some(address@),
    }
}

/// An external message of the inbox.
#[derive(Clone, Debug, PartialEq, Eq)]
pub struct Message {
    pub external: Vec<u8>,
}

/// Why no inbox was generated.
#[derive(Clone, Copy, Debug, PartialEq, Eq, Structural)]
pub enum GenerateError {
    /// The text is not the address of a rollup.
    InvalidRollupAddress,
    /// More than [`MAX_TRANSFERS`] transfers were asked for.
    TooManyTransfers,
}

/// The bytes of a transaction with the given sender, target, call data and
/// nonce, and the engine's defaults for all else.
pub uninterp spec fn transaction_encoding(
    caller: Seq<u8>,
    target: Option<Seq<u8>>,
    data: Seq<u8>,
    nonce: u64,
) -> Seq<u8>;

/// The rollup address that a text in base58 stands for, if it is one.
pub uninterp spec fn rollup_address_of(text: Seq<char>) -> Option<Seq<u8>>;

/// Calls `bincode::serde::encode_to_vec` on the engine's transaction record,
/// filled in from the arguments and its defaults. Trusted: the bytes are a
/// function of the four arguments, named `transaction_encoding`.
#[verifier::external_body]
fn encode_transaction(caller: &Address, kind: &TxKind, data: &[u8], nonce: u64) -> (out: Vec<u8>)
    ensures
        out@ == transaction_encoding(caller@, kind_target(*kind), data@, nonce),
{
    let transact_to = match kind {
        TxKind::Create => revm::primitives::TransactTo::create(),
        TxKind::Call(to) => revm::primitives::TransactTo::Call(revm::primitives::B160(*to)),
    };
    let tx = revm::primitives::TxEnv {
        caller: revm::primitives::B160(*caller),
        transact_to,
        data: revm::primitives::Bytes::copy_from_slice(data),
        nonce: Some(nonce),
        ..Default::default()
    };
    bincode::serde::encode_to_vec(&tx, bincode::config::standard()).unwrap()
}

/// Calls `bin_write` of `tezos_smart_rollup`'s `ExternalMessageFrame`.
/// Trusted: the frame of a targetted message is the tag 0, the 20 bytes of the
/// address and the contents.
#[verifier::external_body]
fn write_external_frame(rollup: &Address, contents: &[u8]) -> (out: Vec<u8>)
    ensures
        out@ == spec_external_frame(rollup@, contents@),
{
    let address = SmartRollupAddress::new(SmartRollupHash(rollup.to_vec()));
    let frame = ExternalMessageFrame::Targetted { address, contents };
    let mut out = Vec::new();
    frame.bin_write(&mut out).unwrap();
    out
}

/// Calls `SmartRollupAddress::from_b58check` of `tezos_smart_rollup`. Trusted:
/// whether the text is an address, and which, depends on the text alone (named
/// `rollup_address_of`).
#[verifier::external_body]
fn parse_rollup_address(text: &str) -> (address: Option<Address>)
    ensures
        address is Some <==> rollup_address_of(text@) is Some,
        address is Some ==> address->Some_0@ == rollup_address_of(text@)->Some_0,
{
    match SmartRollupAddress::from_b58check(text) {
        Ok(address) => {
            let mut bytes = [0u8; 20];
            bytes.copy_from_slice(address.hash().0.as_slice());
            Some(bytes)
        },
        Err(_) => None,
    }
}

/// The eight big-endian bytes of `n`.
pub open spec fn u64_be(n: u64) -> Seq<u8> {
    seq![
        (n / 0x100_0000_0000_0000) as u8,
        ((n / 0x1_0000_0000_0000) % 0x100) as u8,
        ((n / 0x100_0000_0000) % 0x100) as u8,
        ((n / 0x1_0000_0000) % 0x100) as u8,
        ((n / 0x100_0000) % 0x100) as u8,
        ((n / 0x1_0000) % 0x100) as u8,
        ((n / 0x100) % 0x100) as u8,
        (n % 0x100) as u8,
    ]
}

/// `bytes` with zeros in front, up to `width` bytes.
pub open spec fn left_padded(bytes: Seq<u8>, width: nat) -> Seq<u8> {
    Seq::new((width - bytes.len()) as nat, |i: int| 0u8) + bytes
}

/// The address of account `i`: the number itself.
pub open spec fn account_address(i: nat) -> Seq<u8> {
    left_padded(u64_be(i as u64), 20)
}

/// The first four bytes of the digest of a function's signature.
pub open spec fn spec_selector(signature: &str) -> Seq<u8> {
    keccak256(signature.spec_bytes()).subrange(0, 4)
}

/// The call data of `mint(to, amount)`.
pub open spec fn mint_call(to: Seq<u8>, amount: u64) -> Seq<u8> {
    spec_selector("mint(address,uint256)") + left_padded(to, 32) + left_padded(u64_be(amount), 32)
}

/// The call data of `transfer(to, value)`.
pub open spec fn transfer_call(to: Seq<u8>, value: u64) -> Seq<u8> {
    spec_selector("transfer(address,uint256)") + left_padded(to, 32) + left_padded(
        u64_be(value),
        32,
    )
}

/// The call data of `balanceOf(account)`.
pub open spec fn balance_call(account: Seq<u8>) -> Seq<u8> {
    spec_selector("balanceOf(address)") + left_padded(account, 32)
}

/// `k` is the smallest number whose square is at least `n`.
pub open spec fn is_ceil_sqrt(n: nat, k: nat) -> bool {
    k * k >= n && (k == 0 || (k - 1) * (k - 1) < n)
}

/// The smallest number whose square is at least `n`.
pub open spec fn ceil_sqrt(n: nat) -> nat {
    choose|k: nat| is_ceil_sqrt(n, k)
}

/// The number with this property is unique.
pub proof fn lemma_ceil_sqrt(n: nat, k: nat)
    requires
        is_ceil_sqrt(n, k),
    ensures
        ceil_sqrt(n) == k,
{
    let c = ceil_sqrt(n);
    assert(is_ceil_sqrt(n, c));
    if c < k {
        assert(c * c <= (k - 1) * (k - 1)) by (nonlinear_arith)
            requires
                0 <= c <= k - 1,
        ;
    } else if k < c {
        assert(k * k <= (c - 1) * (c - 1)) by (nonlinear_arith)
            requires
                0 <= k <= c - 1,
        ;
    }
}

/// The generation strategy supports up to `accounts * (accounts - 1)`
/// transfers; this is the smallest number of accounts that the strategy uses
/// for the given number: one more than the rounded-up square root.
pub fn accounts_for_transfers(transfers: usize) -> (accounts: usize)
    ensures
        accounts == ceil_sqrt(transfers as nat) + 1,
        is_ceil_sqrt(transfers as nat, (accounts - 1) as nat),
        accounts * (accounts - 1) >= transfers,
{
    let mut k: usize = 0;
    while (k as u128) * (k as u128) < transfers as u128
        invariant
            k <= transfers,
            k == 0 || (k - 1) * (k - 1) < transfers,
            k * k <= u128::MAX,
        decreases transfers - k,
    {
        assert(k < transfers && (k + 1) * (k + 1) <= u128::MAX) by (nonlinear_arith)
            requires
                0 <= k,
                k * k < transfers,
                transfers <= u64::MAX,
        ;
        k += 1;
    }
    proof {
        lemma_ceil_sqrt(transfers as nat, k as nat);
        assert(k + 1 <= usize::MAX && (k + 1) * k >= transfers) by (nonlinear_arith)
            requires
                0 <= k,
                k * k >= transfers,
                k == 0 || (k - 1) * (k - 1) < transfers,
                transfers <= usize::MAX,
                usize::MAX >= 0xffff_ffff,
        ;
    }
    k + 1
}


/// One who sends transactions: the keys, the address, and the nonce of the
/// next transaction.
#[derive(Clone, Copy, Debug)]
pub struct Account {
    pub nonce: u64,
    pub sk: SecretKey,
    pub pk: PublicKey,
    pub address: Address,
}

/// The external message that carries a transaction, signed by its sender and
/// framed for the rollup.
pub open spec fn spec_operation_message(
    rollup: Seq<u8>,
    secret: Seq<u8>,
    public: Seq<u8>,
    caller: Seq<u8>,
    nonce: u64,
    target: Option<Seq<u8>>,
    data: Seq<u8>,
) -> Seq<u8> {
    let payload = transaction_encoding(caller, target, data, nonce);
    let signature = ecdsa_signature(keccak256(payload), secret);
    spec_external_frame(rollup, seq![65u8] + public + (seq![64u8] + signature) + payload)
}

/// A message of the minter.
pub open spec fn minter_message(
    rollup: Seq<u8>,
    nonce: u64,
    target: Option<Seq<u8>>,
    data: Seq<u8>,
) -> Seq<u8> {
    spec_operation_message(
        rollup,
        scalar_from_int(MINTER_KEY),
        public_key_of(scalar_from_int(MINTER_KEY)),
        MINTER@,
        nonce,
        target,
        data,
    )
}

/// The secret scalar of account `i`.
pub open spec fn account_secret(i: int) -> Seq<u8> {
    scalar_from_int((i + 1) as u32)
}

/// A message of account `i`.
pub open spec fn account_message(
    rollup: Seq<u8>,
    i: int,
    nonce: u64,
    target: Option<Seq<u8>>,
    data: Seq<u8>,
) -> Seq<u8> {
    spec_operation_message(
        rollup,
        account_secret(i),
        public_key_of(account_secret(i)),
        account_address(i as nat),
        nonce,
        target,
        data,
    )
}

/// The account that sends transfer `k`, among `accounts` accounts. Transfer
/// `k` is step `k % (accounts - 1)` of the chain that starts at account
/// `k / (accounts - 1)`.
pub open spec fn transfer_sender(accounts: int, k: int) -> int {
    (k / (accounts - 1) + k % (accounts - 1)) % accounts
}

/// The account that receives transfer `k`: the next one after the sender.
pub open spec fn transfer_receiver(accounts: int, k: int) -> int {
    (k / (accounts - 1) + k % (accounts - 1) + 1) % accounts
}

/// The number of tokens that transfer `k` moves: one fewer with each step of
/// its chain.
pub open spec fn transfer_value(accounts: int, k: int) -> int {
    accounts - 1 - k % (accounts - 1)
}

/// How many of the transfers before transfer `k` the account `who` sends.
pub open spec fn sent_before(accounts: int, k: int, who: int) -> int
    decreases k,
{
    if k <= 0 {
        0
    } else {
        sent_before(accounts, k - 1, who) + if transfer_sender(accounts, k - 1) == who {
            1int
        } else {
            0int
        }
    }
}

/// Message `i` of the inbox for `transfers` transfers among `accounts`
/// accounts: the deployment, a mint for each account, the transfers, and a
/// balance query for each account.
pub open spec fn spec_message_at(
    rollup: Seq<u8>,
    accounts: int,
    transfers: int,
    bytecode: Seq<u8>,
    i: int,
) -> Seq<u8> {
    let contract = Some(CONTRACT_ADDRESS@);
    if i == 0 {
        minter_message(rollup, 0, None, bytecode)
    } else if i <= accounts {
        minter_message(
            rollup,
            i as u64,
            contract,
            mint_call(account_address((i - 1) as nat), (accounts + 1) as u64),
        )
    } else if i <= accounts + transfers {
        let k = i - accounts - 1;
        account_message(
            rollup,
            transfer_sender(accounts, k),
            sent_before(accounts, k, transfer_sender(accounts, k)) as u64,
            contract,
            transfer_call(
                account_address(transfer_receiver(accounts, k) as nat),
                transfer_value(accounts, k) as u64,
            ),
        )
    } else {
        minter_message(
            rollup,
            (i - transfers) as u64,
            contract,
            balance_call(account_address((i - accounts - transfers - 1) as nat)),
        )
    }
}

/// The messages of the inbox for `transfers` transfers.
pub open spec fn spec_create_operations(rollup: Seq<u8>, transfers: nat, bytecode: Seq<u8>) -> Seq<
    Seq<u8>,
> {
    let accounts = ceil_sqrt(transfers) + 1;
    Seq::new(
        1 + 2 * accounts + transfers,
        |i: int| spec_message_at(rollup, accounts as int, transfers as int, bytecode, i),
    )
}

/// The bytes of a list of messages.
pub open spec fn messages_view(messages: Seq<Message>) -> Seq<Seq<u8>> {
    Seq::new(messages.len(), |i: int| messages[i].external@)
}

fn u64_be_bytes(n: u64) -> (bytes: [u8; 8])
    ensures
        bytes@ == u64_be(n),
{
    let bytes = [
        (n / 0x100_0000_0000_0000) as u8,
        ((n / 0x1_0000_0000_0000) % 0x100) as u8,
        ((n / 0x100_0000_0000) % 0x100) as u8,
        ((n / 0x1_0000_0000) % 0x100) as u8,
        ((n / 0x100_0000) % 0x100) as u8,
        ((n / 0x1_0000) % 0x100) as u8,
        ((n / 0x100) % 0x100) as u8,
        (n % 0x100) as u8,
    ];
    assert(bytes@ =~= u64_be(n));
    bytes
}

/// Calls `abi_encode_params` of `alloy_sol_types` for the arguments
/// `(address, uint256)`. Trusted: each argument is one word of 32 bytes, the
/// address and the big-endian number with zeros in front.
#[verifier::external_body]
fn abi_encode_address_and_number(to: &Address, number: u64) -> (out: Vec<u8>)
    ensures
        out@ == left_padded(to@, 32) + left_padded(u64_be(number), 32),
{
    let to = <AbiAddress as SolType>::RustType::from(*to);
    let number = <Uint<256> as SolType>::RustType::from(number);
    <(AbiAddress, Uint<256>) as SolType>::abi_encode_params(&(to, number))
}

/// Calls `abi_encode_params` of `alloy_sol_types` for the argument
/// `(address)`. Trusted: the argument is one word of 32 bytes, the address
/// with zeros in front.
#[verifier::external_body]
fn abi_encode_address(account: &Address) -> (out: Vec<u8>)
    ensures
        out@ == left_padded(account@, 32),
{
    let account = <AbiAddress as SolType>::RustType::from(*account);
    <(AbiAddress,) as SolType>::abi_encode_params(&(account,))
}

/// The address of account `i`.
fn account_address_of(i: usize) -> (address: Address)
    ensures
        address@ == account_address(i as nat),
{
    let tail = u64_be_bytes(i as u64);
    let mut address = [0u8; 20];
    let mut j: usize = 0;
    while j < 8
        invariant
            j <= 8,
            forall|m: int| 0 <= m < 12 ==> address@[m] == 0,
            forall|m: int| 0 <= m < j ==> address@[12 + m] == tail@[m],
        decreases 8 - j,
    {
        address[12 + j] = tail[j];
        j += 1;
    }
    assert(address@ =~= account_address(i as nat));
    address
}

/// The selector of a function: the first four bytes of the digest of its
/// signature.
fn selector(signature: &str) -> (out: Vec<u8>)
    ensures
        out@ == spec_selector(signature),
{
    let digest = keccak256_digest(signature.as_bytes());
    vstd::slice::slice_to_vec(vstd::slice::slice_subrange(digest.as_slice(), 0, 4))
}

/// The call data of `mint(to, amount)`: the selector, then the arguments.
fn encode_mint(to: &Address, amount: u64) -> (data: Vec<u8>)
    ensures
        data@ == mint_call(to@, amount),
{
    let mut data = selector("mint(address,uint256)");
    let mut arguments = abi_encode_address_and_number(to, amount);
    data.append(&mut arguments);
    data
}

/// The call data of `transfer(to, value)`: the selector, then the arguments.
fn encode_transfer(to: &Address, value: u64) -> (data: Vec<u8>)
    ensures
        data@ == transfer_call(to@, value),
{
    let mut data = selector("transfer(address,uint256)");
    let mut arguments = abi_encode_address_and_number(to, value);
    data.append(&mut arguments);
    data
}

/// The call data of `balanceOf(account)`: the selector, then the argument.
fn encode_balance_of(account: &Address) -> (data: Vec<u8>)
    ensures
        data@ == balance_call(account@),
{
    let mut data = selector("balanceOf(address)");
    let mut arguments = abi_encode_address(account);
    data.append(&mut arguments);
    data
}

impl Account {
    /// The account with the secret scalar `key` and the given address, which
    /// has sent nothing yet.
    fn new(key: u32, address: Address) -> (account: Account)
        requires
            key != 0,
        ensures
            account.nonce == 0,
            account.sk@ == scalar_from_int(key),
            account.pk.bytes@ == public_key_of(scalar_from_int(key)),
            account.address == address,
    {
        let (sk, pk) = keypair_from_nonzero(key);
        Account { nonce: 0, sk, pk, address }
    }

    /// Makes the next transaction of the account, signs it and frames it for
    /// the rollup. The nonce goes up by one.
    pub fn operation_to_message(&mut self, rollup_addr: &Address, kind: TxKind, abi_call: Vec<u8>) -> (message:
        Message)
        requires
            old(self).nonce < u64::MAX,
        ensures
            final(self).nonce == old(self).nonce + 1,
            final(self).sk@ == old(self).sk@,
            final(self).pk == old(self).pk,
            final(self).address == old(self).address,
            message.external@ == spec_operation_message(
                rollup_addr@,
                old(self).sk@,
                old(self).pk.bytes@,
                old(self).address@,
                old(self).nonce,
                kind_target(kind),
                abi_call@,
            ),
    {
        let payload = encode_transaction(&self.address, &kind, abi_call.as_slice(), self.nonce);
        self.nonce += 1;
        let signed = SignedOperation::sign(self.pk, self.sk, Operation(payload));
        let bytes = signed.encode();
        let external = write_external_frame(rollup_addr, bytes.as_slice());
        proof {
            assert(bytes@ =~= seq![65u8] + signed.pk.bytes@ + (seq![64u8] + signed.signature.bytes@)
                + signed.inner@);
        }
        Message { external }
    }
}


/// Who sends transfer `k` to whom, and how many tokens.
pub fn transfer_step(accounts: usize, k: usize) -> (step: (usize, usize, usize))
    requires
        accounts >= 2,
    ensures
        step.0 == transfer_sender(accounts as int, k as int),
        step.1 == transfer_receiver(accounts as int, k as int),
        step.2 == transfer_value(accounts as int, k as int),
        step.0 < accounts,
        step.1 < accounts,
        1 <= step.2 < accounts,
{
    let steps = accounts - 1;
    let from: u128 = (k / steps) as u128 + (k % steps) as u128;
    let sender = (from % accounts as u128) as usize;
    let receiver = ((from + 1) % accounts as u128) as usize;
    (sender, receiver, accounts - 1 - k % steps)
}

/// An account sends no more transfers than there were.
proof fn lemma_sent_before_bounds(accounts: int, k: int, who: int)
    requires
        0 <= k,
    ensures
        0 <= sent_before(accounts, k, who) <= k,
    decreases k,
{
    if k > 0 {
        lemma_sent_before_bounds(accounts, k - 1, who);
    }
}

/// The messages of the benchmark, in order:
///
/// 1. the minter deploys the token contract,
/// 2. the minter mints `accounts + 1` tokens for each account,
/// 3. the accounts make the transfers,
/// 4. the minter asks for the balance of each account.
pub fn create_operations(rollup_addr: &Address, transfers: usize, bytecode: &[u8]) -> (res: Result<
    Vec<Message>,
    GenerateError,
>)
    ensures
        transfers > MAX_TRANSFERS ==> res == Err::<Vec<Message>, GenerateError>(
            GenerateError::TooManyTransfers,
        ),
        transfers <= MAX_TRANSFERS ==> res is Ok && messages_view(res->Ok_0@)
            == spec_create_operations(rollup_addr@, transfers as nat, bytecode@),
{
    if transfers > MAX_TRANSFERS {
        return Err(GenerateError::TooManyTransfers);
    }
    let len = accounts_for_transfers(transfers);
    let ghost target = spec_create_operations(rollup_addr@, transfers as nat, bytecode@);
    let ghost n = len as int;
    let ghost t = transfers as int;
    proof {
        assert(len <= 0x1_0001) by (nonlinear_arith)
            requires
                len >= 1,
                (len - 1 == 0) || (len - 2) * (len - 2) < transfers,
                transfers <= 0xffff_ffff,
        ;
        assert(forall|i: int|
            0 <= i < target.len() ==> target[i] == spec_message_at(
                rollup_addr@,
                n,
                t,
                bytecode@,
                i,
            ));
    }
    let contract = TxKind::Call(CONTRACT_ADDRESS);
    let mut minter = Account::new(MINTER_KEY, MINTER);
    let mut accounts: Vec<Account> = Vec::new();
    let mut i: usize = 0;
    while i < len
        invariant
            i <= len <= 0x1_0001,
            accounts@.len() == i,
            forall|m: int|
                0 <= m < i ==> (#[trigger] accounts@[m]).nonce == 0 && accounts@[m].sk@
                    == account_secret(m) && accounts@[m].pk.bytes@ == public_key_of(
                    account_secret(m),
                ) && accounts@[m].address@ == account_address(m as nat),
        decreases len - i,
    {
        accounts.push(Account::new((i + 1) as u32, account_address_of(i)));
        i += 1;
    }
    let mut messages: Vec<Message> = Vec::new();
    let deploy = minter.operation_to_message(
        rollup_addr,
        TxKind::Create,
        vstd::slice::slice_to_vec(bytecode),
    );
    messages.push(deploy);
    assert(messages_view(messages@) =~= target.subrange(0, 1));
    let mut i: usize = 0;
    while i < len
        invariant
            i <= len <= 0x1_0001,
            n == len,
            t == transfers,
            accounts@.len() == len,
            contract == TxKind::Call(CONTRACT_ADDRESS),
            minter.nonce == 1 + i,
            minter.sk@ == scalar_from_int(MINTER_KEY),
            minter.pk.bytes@ == public_key_of(scalar_from_int(MINTER_KEY)),
            minter.address@ == MINTER@,
            forall|m: int|
                0 <= m < len ==> (#[trigger] accounts@[m]).address@ == account_address(m as nat),
            target.len() == 1 + 2 * n + t,
            forall|m: int|
                0 <= m < target.len() ==> target[m] == spec_message_at(
                    rollup_addr@,
                    n,
                    t,
                    bytecode@,
                    m,
                ),
            messages_view(messages@) == target.subrange(0, 1 + i),
        decreases len - i,
    {
        let data = encode_mint(&accounts[i].address, (len + 1) as u64);
        let message = minter.operation_to_message(rollup_addr, contract, data);
        messages.push(message);
        proof {
            assert(messages@.last().external@ == target[1 + i]);
            assert(messages_view(messages@) =~= target.subrange(0, 1 + i).push(target[1 + i]));
            assert(target.subrange(0, 2 + i) =~= target.subrange(0, 1 + i).push(target[1 + i]));
        }
        i += 1;
    }
    let mut k: usize = 0;
    while k < transfers
        invariant
            k <= transfers <= MAX_TRANSFERS,
            1 <= len <= 0x1_0001,
            n == len,
            t == transfers,
            transfers > 0 ==> len >= 2,
            accounts@.len() == len,
            contract == TxKind::Call(CONTRACT_ADDRESS),
            forall|m: int|
                0 <= m < len ==> (#[trigger] accounts@[m]).nonce == sent_before(n, k as int, m)
                    && accounts@[m].sk@ == account_secret(m) && accounts@[m].pk.bytes@
                    == public_key_of(account_secret(m)) && accounts@[m].address@ == account_address(
                    m as nat,
                ),
            target.len() == 1 + 2 * n + t,
            forall|m: int|
                0 <= m < target.len() ==> target[m] == spec_message_at(
                    rollup_addr@,
                    n,
                    t,
                    bytecode@,
                    m,
                ),
            messages_view(messages@) == target.subrange(0, 1 + len + k),
        decreases transfers - k,
    {
        let (sender_index, receiver_index, value) = transfer_step(len, k);
        proof {
            lemma_sent_before_bounds(n, k as int, sender_index as int);
        }
        let mut sender = accounts[sender_index];
        let data = encode_transfer(&accounts[receiver_index].address, value as u64);
        let message = sender.operation_to_message(rollup_addr, contract, data);
        let ghost before = accounts@;
        accounts.set(sender_index, sender);
        messages.push(message);
        proof {
            let at = 1 + len + k;
            assert(messages@.last().external@ == target[at]);
            assert(messages_view(messages@) =~= target.subrange(0, at).push(target[at]));
            assert(target.subrange(0, at + 1) =~= target.subrange(0, at).push(target[at]));
            assert forall|m: int| 0 <= m < len implies (#[trigger] accounts@[m]).nonce
                == sent_before(n, k + 1, m) by {
                if m != sender_index {
                    assert(accounts@[m] == before[m]);
                }
            }
        }
        k += 1;
    }
    let mut j: usize = 0;
    while j < len
        invariant
            j <= len <= 0x1_0001,
            n == len,
            t == transfers,
            transfers <= MAX_TRANSFERS,
            accounts@.len() == len,
            contract == TxKind::Call(CONTRACT_ADDRESS),
            minter.nonce == 1 + len + j,
            minter.sk@ == scalar_from_int(MINTER_KEY),
            minter.pk.bytes@ == public_key_of(scalar_from_int(MINTER_KEY)),
            minter.address@ == MINTER@,
            forall|m: int|
                0 <= m < len ==> (#[trigger] accounts@[m]).address@ == account_address(m as nat),
            target.len() == 1 + 2 * n + t,
            forall|m: int|
                0 <= m < target.len() ==> target[m] == spec_message_at(
                    rollup_addr@,
                    n,
                    t,
                    bytecode@,
                    m,
                ),
            messages_view(messages@) == target.subrange(0, 1 + len + transfers + j),
        decreases len - j,
    {
        let data = encode_balance_of(&accounts[j].address);
        let message = minter.operation_to_message(rollup_addr, contract, data);
        messages.push(message);
        proof {
            let at = 1 + len + transfers + j;
            assert(messages@.last().external@ == target[at]);
            assert(messages_view(messages@) =~= target.subrange(0, at).push(target[at]));
            assert(target.subrange(0, at + 1) =~= target.subrange(0, at).push(target[at]));
        }
        j += 1;
    }
    assert(target.subrange(0, target.len() as int) =~= target);
    Ok(messages)
}

/// The inbox for a benchmark of `transfers` transfers on the rollup with the
/// given address: one round, with the messages of [`create_operations`].
fn generate_inbox(rollup_addr: &str, transfers: usize, bytecode: &[u8]) -> (res: Result<
    Vec<Vec<Message>>,
    GenerateError,
>)
    ensures
        match rollup_address_of(rollup_addr@) {
            None => res == Err::<Vec<Vec<Message>>, GenerateError>(
                GenerateError::InvalidRollupAddress,
            ),
            Some(rollup) => if transfers > MAX_TRANSFERS {
                res == Err::<Vec<Vec<Message>>, GenerateError>(GenerateError::TooManyTransfers)
            } else {
                res is Ok && res->Ok_0@.len() == 1 && messages_view(res->Ok_0@[0]@)
                    == spec_create_operations(rollup, transfers as nat, bytecode@)
            },
        },
{
    let rollup = match parse_rollup_address(rollup_addr) {
        Some(rollup) => rollup,
        None => {
            return Err(GenerateError::InvalidRollupAddress);
        },
    };
    let messages = match create_operations(&rollup, transfers, bytecode) {
        Ok(messages) => messages,
        Err(e) => {
            return Err(e);
        },
    };
    let mut levels: Vec<Vec<Message>> = Vec::new();
    levels.push(messages);
    Ok(levels)
}

/// Generates the inbox for `transfers` transfers: the set-up (deployment of
/// the contract with the given code, and minting) comes first, and balance
/// queries come last. `rollup_addr` is the address of the rollup in base58.
pub fn handle_generate(rollup_addr: &str, transfers: usize, bytecode: &[u8]) -> (res: Result<
    Vec<Vec<Message>>,
    GenerateError,
>)
    ensures
        match rollup_address_of(rollup_addr@) {
            None => res == Err::<Vec<Vec<Message>>, GenerateError>(
                GenerateError::InvalidRollupAddress,
            ),
            Some(rollup) => if transfers > MAX_TRANSFERS {
                res == Err::<Vec<Vec<Message>>, GenerateError>(GenerateError::TooManyTransfers)
            } else {
                res is Ok && res->Ok_0@.len() == 1 && messages_view(res->Ok_0@[0]@)
                    == spec_create_operations(rollup, transfers as nat, bytecode@)
            },
        },
{
    generate_inbox(rollup_addr, transfers, bytecode)
}

/// The hexadecimal forms of a list of byte strings.
pub open spec fn hex_lines(messages: Seq<Seq<u8>>) -> Seq<Seq<u8>> {
    Seq::new(messages.len(), |i: int| hex(messages[i]))
}

/// The views of a list of lines.
pub open spec fn lines_view(lines: Seq<Vec<u8>>) -> Seq<Seq<u8>> {
    Seq::new(lines.len(), |i: int| lines[i]@)
}

/// Like [`handle_generate`], but gives the messages as a script wants them:
/// one line of hexadecimal digits for each message, in order.
pub fn handle_generate_script(rollup_addr: &str, transfers: usize, bytecode: &[u8]) -> (res: Result<
    Vec<Vec<u8>>,
    GenerateError,
>)
    ensures
        match rollup_address_of(rollup_addr@) {
            None => res == Err::<Vec<Vec<u8>>, GenerateError>(GenerateError::InvalidRollupAddress),
            Some(rollup) => if transfers > MAX_TRANSFERS {
                res == Err::<Vec<Vec<u8>>, GenerateError>(GenerateError::TooManyTransfers)
            } else {
                res is Ok && lines_view(res->Ok_0@) == hex_lines(
                    spec_create_operations(rollup, transfers as nat, bytecode@),
                )
            },
        },
{
    let levels = match generate_inbox(rollup_addr, transfers, bytecode) {
        Ok(levels) => levels,
        Err(e) => {
            return Err(e);
        },
    };
    let ghost all = messages_view(levels@[0]@);
    let mut lines: Vec<Vec<u8>> = Vec::new();
    let mut i: usize = 0;
    while i < levels[0].len()
        invariant
            levels@.len() == 1,
            i <= levels@[0]@.len(),
            all == messages_view(levels@[0]@),
            lines_view(lines@) == hex_lines(all).subrange(0, i as int),
        decreases levels@[0]@.len() - i,
    {
        let mut line: Vec<u8> = Vec::new();
        push_hex(&mut line, levels[0][i].external.as_slice());
        lines.push(line);
        proof {
            assert(line@ =~= hex(all[i as int]));
            assert(lines_view(lines@) =~= hex_lines(all).subrange(0, i as int).push(
                hex_lines(all)[i as int],
            ));
            assert(hex_lines(all).subrange(0, i + 1) =~= hex_lines(all).subrange(0, i as int).push(
                hex_lines(all)[i as int],
            ));
        }
        i += 1;
    }
    assert(hex_lines(all).subrange(0, i as int) =~= hex_lines(all));
    Ok(lines)
}

} // verus!
