//! Storage paths and the errors of the state store.
use crate::hex::{hex, lemma_hex_is_step_bytes, push_hex};
use vstd::prelude::*;

verus! {

/// An account address.
pub type Address = [u8; 20];

/// A 256-bit hash.
pub type B256 = [u8; 32];

/// A 256-bit unsigned integer, big-endian.
pub type U256 = [u8; 32];

/// The byte between the steps of a path.
pub const PATH_SEPARATOR: u8 = 0x2f;

/// The longest path that the host accepts.
pub const PATH_MAX_SIZE: usize = 242;

/// The step under which account records live.
pub const INFO_PREFIX: u8 = 0x69;

/// The step under which contract code lives.
pub const CODE_PREFIX: u8 = 0x63;

/// The step under which storage slots live.
pub const STORAGE_PREFIX: u8 = 0x73;

/// A failure that the host reports for a storage call.
#[derive(Clone, Copy, Debug, PartialEq, Eq, Structural)]
pub enum RuntimeError {
    /// The key does not exist.
    PathNotFound,
    /// A subkey index was out of bounds.
    StoreListIndexOutOfBounds,
    /// The host call failed with this code.
    HostErr(i32),
    /// The host could not decode what it was given.
    DecodingError,
}

/// The errors of the state store.
#[derive(Clone, Copy, Debug, PartialEq, Eq)]
pub enum KernelError {
    /// No code is stored under this hash.
    MissingCode(B256),
    /// The host failed while the store was read.
    DurableStorage(RuntimeError),
    /// The stored bytes are not a value of the expected kind.
    Decode,
}

impl From<RuntimeError> for KernelError {
    /// A failure of the host while the store is read or written is a store
    /// error.
    fn from(error: RuntimeError) -> (res: KernelError) {
        KernelError::DurableStorage(error)
    }
}

impl vstd::std_specs::convert::FromSpecImpl<RuntimeError> for KernelError {
    open spec fn obeys_from_spec() -> bool {
        true
    }

    open spec fn from_spec(error: RuntimeError) -> KernelError {
        KernelError::DurableStorage(error)
    }
}

/// The number that `bytes` holds, most significant byte first.
pub open spec fn be_value(bytes: Seq<u8>) -> nat
    decreases bytes.len(),
{
    if bytes.len() == 0 {
        0
    } else {
        be_value(bytes.drop_last()) * 256 + bytes.last() as nat
    }
}

/// The decimal digits of `n` as ASCII bytes, without leading zeros.
pub open spec fn decimal(n: nat) -> Seq<u8>
    decreases n,
{
    if n < 10 {
        seq![(0x30 + n) as u8]
    } else {
        decimal(n / 10).push((0x30 + n % 10) as u8)
    }
}

/// An ASCII decimal digit.
pub open spec fn is_digit(b: u8) -> bool {
    0x30 <= b <= 0x39
}

/// A byte that may stand in a step of a path: an ASCII letter or digit, `.`,
/// `_` or `-`.
pub open spec fn is_step_byte(b: u8) -> bool {
    ||| 0x30 <= b <= 0x39
    ||| 0x41 <= b <= 0x5a
    ||| 0x61 <= b <= 0x7a
    ||| b == 0x2e
    ||| b == 0x5f
    ||| b == 0x2d
}

/// A path as the host wants it: it starts with the separator, its steps are
/// not empty and hold step bytes only, and it is not too long.
pub open spec fn is_valid_path(path: Seq<u8>) -> bool {
    &&& 2 <= path.len() <= PATH_MAX_SIZE
    &&& path[0] == PATH_SEPARATOR
    &&& path.last() != PATH_SEPARATOR
    &&& forall|i: int| 0 <= i < path.len() ==> path[i] == PATH_SEPARATOR || is_step_byte(path[i])
    &&& forall|i: int|
        0 <= i < path.len() - 1 ==> !(path[i] == PATH_SEPARATOR && #[trigger] path[i + 1]
            == PATH_SEPARATOR)
}

/// `/<prefix>/0x<hex of bytes>`: the path of what is keyed by `bytes` in the
/// namespace `prefix`.
pub open spec fn keyed_path(prefix: u8, bytes: Seq<u8>) -> Seq<u8> {
    seq![PATH_SEPARATOR, prefix, PATH_SEPARATOR, 0x30u8, 0x78u8] + hex(bytes)
}

/// Path of the record of an account: `/i/0x<address>`.
pub open spec fn info_path(address: Seq<u8>) -> Seq<u8> {
    keyed_path(INFO_PREFIX, address)
}

/// Path of a contract's code: `/c/0x<hash>`.
pub open spec fn code_path(code_hash: Seq<u8>) -> Seq<u8> {
    keyed_path(CODE_PREFIX, code_hash)
}

/// Path under which all slots of an account live: `/s/0x<address>`.
pub open spec fn storage_root(address: Seq<u8>) -> Seq<u8> {
    keyed_path(STORAGE_PREFIX, address)
}

/// Path of one storage slot: `/s/0x<address>/<key in decimal>`.
pub open spec fn storage_path(address: Seq<u8>, key: Seq<u8>) -> Seq<u8> {
    storage_root(address) + seq![PATH_SEPARATOR] + decimal(be_value(key))
}

/// The keys of the durable store. The prefixes keep the three namespaces
/// apart, and let the storage of one account be deleted as one subtree.
#[derive(Clone, Copy, Debug, PartialEq, Eq)]
pub enum PathBuilder {
    /// The record of an account.
    Info(Address),
    /// The code with a given hash.
    Code(B256),
    /// One storage slot of an account.
    Storage(Address, U256),
    /// All storage slots of an account.
    AccountStorage(Address),
}

/// Calls the `Display` of `ruint`'s 256-bit integer through `to_string`.
/// Trusted: the text is the number in decimal, without leading zeros.
#[verifier::external_body]
fn u256_to_decimal(value: &[u8; 32]) -> (digits: Vec<u8>)
    ensures
        digits@ == decimal(be_value(value@)),
{
    revm::primitives::U256::from_be_bytes(*value).to_string().into_bytes()
}

/// Ten to the power of `k`.
pub open spec fn pow10(k: nat) -> nat
    decreases k,
{
    if k == 0 {
        1
    } else {
        10 * pow10((k - 1) as nat)
    }
}

/// 256 to the power of `k`.
pub open spec fn pow256(k: nat) -> nat
    decreases k,
{
    if k == 0 {
        1
    } else {
        256 * pow256((k - 1) as nat)
    }
}

/// A decimal number is made of digits, and of at least one.
pub proof fn lemma_decimal_is_digits(n: nat)
    ensures
        decimal(n).len() >= 1,
        forall|i: int| 0 <= i < decimal(n).len() ==> is_digit(#[trigger] decimal(n)[i]),
    decreases n,
{
    if n >= 10 {
        lemma_decimal_is_digits(n / 10);
    }
}

/// A number below ten to the power of `k` has at most `k` digits.
pub proof fn lemma_decimal_len(n: nat, k: nat)
    requires
        k >= 1,
        n < pow10(k),
    ensures
        decimal(n).len() <= k,
    decreases n,
{
    if n >= 10 {
        assert(pow10(1) == 10) by {
            reveal_with_fuel(pow10, 2);
        }
        assert(k >= 2);
        assert(pow10(k) == 10 * pow10((k - 1) as nat));
        lemma_decimal_len(n / 10, (k - 1) as nat);
    }
}

/// A number of `n` bytes is below 256 to the power of `n`.
pub proof fn lemma_be_value_bound(bytes: Seq<u8>)
    ensures
        be_value(bytes) < pow256(bytes.len()),
    decreases bytes.len(),
{
    if bytes.len() > 0 {
        lemma_be_value_bound(bytes.drop_last());
        let high = be_value(bytes.drop_last());
        let bound = pow256((bytes.len() - 1) as nat);
        assert(high * 256 + 255 < 256 * bound) by (nonlinear_arith)
            requires
                high < bound,
        ;
    }
}

/// Different numbers have different decimal forms.
pub proof fn lemma_decimal_injective(a: nat, b: nat)
    requires
        decimal(a) == decimal(b),
    ensures
        a == b,
    decreases a,
{
    lemma_decimal_is_digits(a / 10);
    lemma_decimal_is_digits(b / 10);
    if a < 10 && b < 10 {
        assert(decimal(a)[0] == (0x30 + a) as u8);
        assert(decimal(b)[0] == (0x30 + b) as u8);
        assert(a == b);
    } else if a >= 10 && b >= 10 {
        assert(decimal(a).last() == decimal(b).last());
        assert(decimal(a).last() == (0x30 + a % 10) as u8);
        assert(decimal(b).last() == (0x30 + b % 10) as u8);
        assert(a % 10 == b % 10);
        assert(decimal(a).drop_last() =~= decimal(a / 10));
        assert(decimal(b).drop_last() =~= decimal(b / 10));
        lemma_decimal_injective(a / 10, b / 10);
        assert(a == 10 * (a / 10) + a % 10);
        assert(b == 10 * (b / 10) + b % 10);
        assert(a == b);
    } else if a < 10 {
        assert(decimal(a).len() == 1);
        assert(decimal(b).len() == decimal(b / 10).len() + 1);
        assert(false);
    } else {
        assert(decimal(b).len() == 1);
        assert(decimal(a).len() == decimal(a / 10).len() + 1);
        assert(false);
    }
}

/// Different byte strings of one length hold different numbers.
pub proof fn lemma_be_value_injective(a: Seq<u8>, b: Seq<u8>)
    requires
        a.len() == b.len(),
        be_value(a) == be_value(b),
    ensures
        a == b,
    decreases a.len(),
{
    if a.len() > 0 {
        let x = be_value(a.drop_last());
        let y = be_value(b.drop_last());
        assert(x * 256 + a.last() == y * 256 + b.last());
        assert(x == y && a.last() == b.last()) by (nonlinear_arith)
            requires
                x * 256 + a.last() == y * 256 + b.last(),
                0 <= a.last() < 256,
                0 <= b.last() < 256,
        ;
        lemma_be_value_injective(a.drop_last(), b.drop_last());
        assert(a =~= a.drop_last().push(a.last()));
        assert(b =~= b.drop_last().push(b.last()));
    } else {
        assert(a =~= b);
    }
}

/// A 256-bit number has between 1 and 78 decimal digits.
pub proof fn lemma_decimal_of_word(word: Seq<u8>)
    requires
        word.len() == 32,
    ensures
        1 <= decimal(be_value(word)).len() <= 78,
        forall|i: int|
            0 <= i < decimal(be_value(word)).len() ==> is_digit(
                #[trigger] decimal(be_value(word))[i],
            ),
{
    lemma_be_value_bound(word);
    lemma_decimal_is_digits(be_value(word));
    assert(pow256(32) < pow10(78)) by {
        reveal_with_fuel(pow256, 9);
        reveal_with_fuel(pow10, 14);
        assert(pow256(8) == 0x1_0000_0000_0000_0000nat);
        assert(pow256(16) == 0x1_0000_0000_0000_0000_0000_0000_0000_0000nat);
        assert(pow256(24) == 0x1_0000_0000_0000_0000_0000_0000_0000_0000_0000_0000_0000_0000nat);
        assert(pow256(32)
            == 0x1_0000_0000_0000_0000_0000_0000_0000_0000_0000_0000_0000_0000_0000_0000_0000_0000nat);
        assert(pow10(13) == 10_000_000_000_000nat);
        assert(pow10(26) == 100_000_000_000_000_000_000_000_000nat);
        assert(pow10(39) == 1_000_000_000_000_000_000_000_000_000_000_000_000_000nat);
        assert(pow10(52) == 10_000_000_000_000_000_000_000_000_000_000_000_000_000_000_000_000_000nat);
        assert(pow10(65)
            == 100_000_000_000_000_000_000_000_000_000_000_000_000_000_000_000_000_000_000_000_000_000nat);
        assert(pow10(78)
            == 1_000_000_000_000_000_000_000_000_000_000_000_000_000_000_000_000_000_000_000_000_000_000_000_000_000_000nat);
    }
    lemma_decimal_len(be_value(word), 78);
}

impl PathBuilder {
    /// The path that this key stands for.
    pub open spec fn spec_format(&self) -> Seq<u8> {
        match *self {
            PathBuilder::Info(address) => info_path(address@),
            PathBuilder::Code(code_hash) => code_path(code_hash@),
            PathBuilder::Storage(address, key) => storage_path(address@, key@),
            PathBuilder::AccountStorage(address) => storage_root(address@),
        }
    }

    /// Writes the path out. The host accepts every path that comes from here.
    pub fn format(&self) -> (path: Vec<u8>)
        ensures
            path@ == self.spec_format(),
            is_valid_path(path@),
    {
        let mut path: Vec<u8> = Vec::new();
        path.push(PATH_SEPARATOR);
        match self {
            PathBuilder::Info(address) => {
                path.push(INFO_PREFIX);
                push_key(&mut path, address.as_slice());
                proof {
                    lemma_keyed_path_is_valid(INFO_PREFIX, address@);
                }
            },
            PathBuilder::Code(code_hash) => {
                path.push(CODE_PREFIX);
                push_key(&mut path, code_hash.as_slice());
                proof {
                    lemma_keyed_path_is_valid(CODE_PREFIX, code_hash@);
                }
            },
            PathBuilder::AccountStorage(address) => {
                path.push(STORAGE_PREFIX);
                push_key(&mut path, address.as_slice());
                proof {
                    lemma_keyed_path_is_valid(STORAGE_PREFIX, address@);
                }
            },
            PathBuilder::Storage(address, key) => {
                path.push(STORAGE_PREFIX);
                push_key(&mut path, address.as_slice());
                path.push(PATH_SEPARATOR);
                let mut digits = u256_to_decimal(key);
                let ghost root = storage_root(address@);
                let ghost tail = digits@;
                path.append(&mut digits);
                proof {
                    lemma_decimal_of_word(key@);
                    lemma_keyed_path_is_valid(STORAGE_PREFIX, address@);
                    assert(path@ =~= root + seq![PATH_SEPARATOR] + tail);
                    assert(root.len() == 45);
                    assert forall|i: int| 0 <= i < path@.len() implies path@[i] == PATH_SEPARATOR
                        || is_step_byte(path@[i]) by {
                        if i < 45 {
                            assert(path@[i] == root[i]);
                        } else if i > 45 {
                            assert(path@[i] == tail[i - 46]);
                        }
                    }
                    assert forall|i: int| 0 <= i < path@.len() - 1 implies !(path@[i]
                        == PATH_SEPARATOR && #[trigger] path@[i + 1] == PATH_SEPARATOR) by {
                        if i + 1 < 45 {
                            assert(path@[i] == root[i]);
                            assert(path@[i + 1] == root[i + 1]);
                        } else if i + 1 == 45 {
                            assert(path@[i] == root.last());
                        } else {
                            assert(path@[i + 1] == tail[i + 1 - 46]);
                        }
                    }
                    assert(path@.last() == tail.last());
                }
            },
        }
        path
    }
}

/// Appends `/0x` and the hexadecimal form of `bytes`.
fn push_key(path: &mut Vec<u8>, bytes: &[u8])
    requires
        old(path)@.len() == 2,
        old(path)@[0] == PATH_SEPARATOR,
    ensures
        final(path)@ == keyed_path(old(path)@[1], bytes@),
{
    path.push(PATH_SEPARATOR);
    path.push(0x30);
    path.push(0x78);
    push_hex(path, bytes);
    assert(path@ =~= keyed_path(old(path)@[1], bytes@));
}

/// A keyed path of an address or a hash is one that the host accepts.
pub proof fn lemma_keyed_path_is_valid(prefix: u8, bytes: Seq<u8>)
    requires
        is_step_byte(prefix),
        1 <= bytes.len() <= 32,
    ensures
        keyed_path(prefix, bytes).len() == 5 + 2 * bytes.len(),
        is_valid_path(keyed_path(prefix, bytes)),
{
    let path = keyed_path(prefix, bytes);
    let digits = hex(bytes);
    lemma_hex_is_step_bytes(bytes);
    assert forall|i: int| 0 <= i < path.len() implies path[i] == PATH_SEPARATOR || is_step_byte(
        path[i],
    ) by {
        if i >= 5 {
            assert(path[i] == digits[i - 5]);
        }
    }
    assert forall|i: int| 0 <= i < path.len() - 1 implies !(path[i] == PATH_SEPARATOR
        && #[trigger] path[i + 1] == PATH_SEPARATOR) by {
        if i + 1 >= 5 {
            assert(path[i + 1] == digits[i + 1 - 5]);
        }
    }
    assert(path.last() == digits.last());
}


/// Within one namespace, different keys have different paths.
pub proof fn lemma_keyed_path_injective(prefix: u8, a: Seq<u8>, b: Seq<u8>)
    requires
        keyed_path(prefix, a) == keyed_path(prefix, b),
    ensures
        a == b,
{
    let x = keyed_path(prefix, a);
    let y = keyed_path(prefix, b);
    assert(x.subrange(5, x.len() as int) =~= hex(a));
    assert(y.subrange(5, y.len() as int) =~= hex(b));
    crate::hex::lemma_hex_injective(a, b);
}

/// Different slots have different paths.
pub proof fn lemma_storage_path_injective(
    address: Seq<u8>,
    key: Seq<u8>,
    other_address: Seq<u8>,
    other_key: Seq<u8>,
)
    requires
        address.len() == other_address.len(),
        key.len() == other_key.len(),
        storage_path(address, key) == storage_path(other_address, other_key),
    ensures
        address == other_address,
        key == other_key,
{
    let x = storage_path(address, key);
    let y = storage_path(other_address, other_key);
    let split = storage_root(address).len() as int;
    assert(storage_root(other_address).len() == split);
    assert(x.subrange(0, split) =~= storage_root(address));
    assert(y.subrange(0, split) =~= storage_root(other_address));
    lemma_keyed_path_injective(STORAGE_PREFIX, address, other_address);
    assert(x.subrange(split + 1, x.len() as int) =~= decimal(be_value(key)));
    assert(y.subrange(split + 1, y.len() as int) =~= decimal(be_value(other_key)));
    lemma_decimal_injective(be_value(key), be_value(other_key));
    lemma_be_value_injective(key, other_key);
}

/// The namespaces never collide: the path of a record, the path of code and
/// the path of a slot are three different paths, whatever their keys.
pub proof fn lemma_namespaces_are_disjoint(
    address: Seq<u8>,
    code_hash: Seq<u8>,
    slot_address: Seq<u8>,
    slot_key: Seq<u8>,
)
    ensures
        info_path(address) != code_path(code_hash),
        info_path(address) != storage_path(slot_address, slot_key),
        info_path(address) != storage_root(slot_address),
        code_path(code_hash) != storage_path(slot_address, slot_key),
        code_path(code_hash) != storage_root(slot_address),
{
    assert(info_path(address)[1] == INFO_PREFIX);
    assert(code_path(code_hash)[1] == CODE_PREFIX);
    assert(storage_path(slot_address, slot_key)[1] == STORAGE_PREFIX);
    assert(storage_root(slot_address)[1] == STORAGE_PREFIX);
}

} // verus!
