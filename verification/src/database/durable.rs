//! The durable storage of the host, as far as the state store relies on it.
//!
//! The host keeps bytes under paths. It moves at most [`MAX_CHUNK`] bytes in
//! one call, it writes at an offset into a value, which grows but never
//! shrinks, and it deletes a key together with everything below it. The state
//! store never calls the host: it hands out [`StoreOp`]s, and [`apply_ops`]
//! says what they do to the storage when the caller performs them in order.
//!
//! A value is written as its chunks and nothing else, so a value that is
//! shorter than the one before it leaves the end of the old one in place.
//! Every stored form therefore says itself where it ends, and is read from the
//! start of what the key holds.
use super::database_utils::PATH_SEPARATOR;
use vstd::prelude::*;

verus! {

/// Largest number of bytes the host moves in one storage call.
pub const MAX_CHUNK: usize = 2048;

/// One change to the durable storage, for the caller to perform.
#[derive(Debug)]
pub enum StoreOp {
    /// Remove the key and everything below it. Nothing happens if there is neither.
    Delete { path: Vec<u8> },
    /// Write `bytes` into the value of the key, starting at `offset`.
    Write { path: Vec<u8>, offset: usize, bytes: Vec<u8> },
}

/// A [`StoreOp`] as contracts see it.
pub enum StoreOpView {
    Delete { path: Seq<u8> },
    Write { path: Seq<u8>, offset: int, bytes: Seq<u8> },
}

impl View for StoreOp {
    type V = StoreOpView;

    open spec fn view(&self) -> StoreOpView {
        match *self {
            StoreOp::Delete { path } => StoreOpView::Delete { path: path@ },
            StoreOp::Write { path, offset, bytes } => StoreOpView::Write {
                path: path@,
                offset: offset as int,
                bytes: bytes@,
            },
        }
    }
}

/// The views of a list of operations.
pub open spec fn ops_view(ops: Seq<StoreOp>) -> Seq<StoreOpView> {
    Seq::new(ops.len(), |i: int| ops[i]@)
}

/// `path` is `root` or lies below it.
pub open spec fn is_under(path: Seq<u8>, root: Seq<u8>) -> bool {
    ||| path == root
    ||| (path.len() > root.len() && path.subrange(0, root.len() as int) == root
        && path[root.len() as int] == PATH_SEPARATOR)
}

/// `old` with `bytes` written over it from `offset` on. The value grows where
/// the bytes reach beyond its end, and never shrinks.
pub open spec fn overwrite(old: Seq<u8>, offset: int, bytes: Seq<u8>) -> Seq<u8> {
    old.subrange(0, offset) + bytes + if offset + bytes.len() < old.len() {
        old.subrange(offset + bytes.len(), old.len() as int)
    } else {
        Seq::empty()
    }
}

/// What one operation does to the durable storage. A write that starts beyond
/// the end of the value is refused by the host and changes nothing.
pub open spec fn apply_op(state: Map<Seq<u8>, Seq<u8>>, op: StoreOpView) -> Map<Seq<u8>, Seq<u8>> {
    match op {
        StoreOpView::Delete { path } => Map::new(
            |k: Seq<u8>| state.contains_key(k) && !is_under(k, path),
            |k: Seq<u8>| state[k],
        ),
        StoreOpView::Write { path, offset, bytes } => {
            let old = if state.contains_key(path) {
                state[path]
            } else {
                Seq::empty()
            };
            if 0 <= offset <= old.len() {
                state.insert(path, overwrite(old, offset, bytes))
            } else {
                state
            }
        },
    }
}

/// What a list of operations does to the durable storage, done in order.
pub open spec fn apply_ops(state: Map<Seq<u8>, Seq<u8>>, ops: Seq<StoreOpView>) -> Map<
    Seq<u8>,
    Seq<u8>,
>
    decreases ops.len(),
{
    if ops.len() == 0 {
        state
    } else {
        apply_op(apply_ops(state, ops.drop_last()), ops.last())
    }
}

/// Number of chunks that hold `len` bytes.
pub open spec fn chunk_count(len: int) -> int {
    (len + MAX_CHUNK - 1) / MAX_CHUNK as int
}

/// Where chunk `i` of a value of `len` bytes ends.
pub open spec fn chunk_end(len: int, i: int) -> int {
    if (i + 1) * MAX_CHUNK < len {
        (i + 1) * MAX_CHUNK
    } else {
        len
    }
}

/// The write of chunk `i` of `data` under `path`.
pub open spec fn chunk_write(path: Seq<u8>, data: Seq<u8>, i: int) -> StoreOpView {
    StoreOpView::Write {
        path,
        offset: i * MAX_CHUNK,
        bytes: data.subrange(i * MAX_CHUNK, chunk_end(data.len() as int, i)),
    }
}

/// The operations that write `data` under `path`: its chunks, in order, each
/// at its own offset. Empty data has no chunk, and nothing is written for it.
pub open spec fn spec_store_write(path: Seq<u8>, data: Seq<u8>) -> Seq<StoreOpView> {
    Seq::new(chunk_count(data.len() as int) as nat, |i: int| chunk_write(path, data, i))
}

/// What the key holds, where a key that does not exist holds nothing.
pub open spec fn value_at(state: Map<Seq<u8>, Seq<u8>>, path: Seq<u8>) -> Seq<u8> {
    if state.contains_key(path) {
        state[path]
    } else {
        Seq::empty()
    }
}

/// `bytes` begins with `data`.
pub open spec fn starts_with(bytes: Seq<u8>, data: Seq<u8>) -> bool {
    bytes.len() >= data.len() && bytes.subrange(0, data.len() as int) == data
}

/// One read of the host: `len` bytes from `offset` on.
#[derive(Clone, Copy, Debug, PartialEq, Eq, Structural)]
pub struct ChunkRead {
    pub offset: usize,
    pub len: usize,
}

/// The reads that fetch a value of `size` bytes: one for each chunk, in order.
pub open spec fn spec_read_plan(size: int) -> Seq<ChunkRead> {
    Seq::new(
        chunk_count(size) as nat,
        |i: int|
            ChunkRead {
                offset: (i * MAX_CHUNK) as usize,
                len: (chunk_end(size, i) - i * MAX_CHUNK) as usize,
            },
    )
}

/// All the sequences of `parts`, one after another.
pub open spec fn concat_all(parts: Seq<Seq<u8>>) -> Seq<u8>
    decreases parts.len(),
{
    if parts.len() == 0 {
        Seq::empty()
    } else {
        concat_all(parts.drop_last()) + parts.last()
    }
}

/// The chunks fit the plan for a value of `size` bytes: there is one for each
/// read, of the length that was asked for.
pub open spec fn chunks_fit(size: int, chunks: Seq<Seq<u8>>) -> bool {
    &&& chunks.len() == chunk_count(size)
    &&& forall|i: int| 0 <= i < chunks.len() ==> (#[trigger] chunks[i]).len() == spec_read_plan(size)[i].len
}

/// The views of a list of chunks.
pub open spec fn chunks_view(chunks: Seq<Vec<u8>>) -> Seq<Seq<u8>> {
    Seq::new(chunks.len(), |i: int| chunks[i]@)
}

/// What the host answers to the reads of a plan, for a key that holds `value`.
pub open spec fn host_chunks(value: Seq<u8>, plan: Seq<ChunkRead>) -> Seq<Seq<u8>> {
    Seq::new(
        plan.len(),
        |i: int| value.subrange(plan[i].offset as int, plan[i].offset + plan[i].len),
    )
}

/// Where the chunks of a value of `len` bytes begin and end.
pub proof fn lemma_chunk_bounds(len: int, i: int)
    requires
        0 <= len,
        0 <= i < chunk_count(len),
    ensures
        i * MAX_CHUNK < len,
        i * MAX_CHUNK < chunk_end(len, i) <= len,
        chunk_end(len, i) - i * MAX_CHUNK <= MAX_CHUNK,
        i + 1 < chunk_count(len) ==> chunk_end(len, i) == (i + 1) * MAX_CHUNK,
        i + 1 == chunk_count(len) ==> chunk_end(len, i) == len,
{
    let n = chunk_count(len);
    let m = MAX_CHUNK as int;
    assert(n == (len + m - 1) / m);
    assert(n * m <= len + m - 1 < (n + 1) * m) by (nonlinear_arith)
        requires
            n == (len + m - 1) / m,
            m == 2048,
    ;
    assert(i * m <= (n - 1) * m) by (nonlinear_arith)
        requires
            i <= n - 1,
            m == 2048,
    ;
    assert((i + 1) * m == i * m + m) by (nonlinear_arith);
    if i + 1 < n {
        assert((i + 1) * m <= (n - 1) * m) by (nonlinear_arith)
            requires
                i + 1 <= n - 1,
                m == 2048,
        ;
    }
}


/// The operations of a value write, cut after the first `k` chunks.
pub open spec fn write_prefix(path: Seq<u8>, data: Seq<u8>, k: int) -> Seq<StoreOpView> {
    Seq::new(k as nat, |i: int| chunk_write(path, data, i))
}

proof fn lemma_write_prefix(state: Map<Seq<u8>, Seq<u8>>, path: Seq<u8>, data: Seq<u8>, k: int)
    requires
        1 <= k <= chunk_count(data.len() as int),
    ensures
        apply_ops(state, write_prefix(path, data, k)) == state.insert(
            path,
            overwrite(
                value_at(state, path),
                0,
                data.subrange(0, chunk_end(data.len() as int, k - 1)),
            ),
        ),
    decreases k,
{
    let len = data.len() as int;
    let old = value_at(state, path);
    let ops = write_prefix(path, data, k);
    let before = write_prefix(path, data, k - 1);
    assert(ops.drop_last() =~= before);
    assert(ops.last() == chunk_write(path, data, k - 1));
    lemma_chunk_bounds(len, k - 1);
    if k == 1 {
        assert(before =~= Seq::<StoreOpView>::empty());
        assert(apply_ops(state, before) == state);
    } else {
        lemma_write_prefix(state, path, data, k - 1);
        lemma_chunk_bounds(len, k - 2);
        let cut = (k - 1) * MAX_CHUNK;
        let end = chunk_end(len, k - 1);
        assert(chunk_end(len, k - 2) == cut);
        let written = overwrite(old, 0, data.subrange(0, cut));
        let mid = state.insert(path, written);
        assert(apply_ops(state, before) == mid);
        let piece = data.subrange(cut, end);
        assert(written.len() >= cut);
        assert(overwrite(written, cut, piece) =~= overwrite(old, 0, data.subrange(0, end)));
        assert(mid.insert(path, overwrite(old, 0, data.subrange(0, end))) =~= state.insert(
            path,
            overwrite(old, 0, data.subrange(0, end)),
        ));
    }
}

/// What a value write does to the storage: nothing for empty data; otherwise
/// the data lies over the start of what the key held, which stays in place
/// beyond the end of the data. No other key changes.
pub proof fn lemma_store_write_overwrites(
    state: Map<Seq<u8>, Seq<u8>>,
    path: Seq<u8>,
    data: Seq<u8>,
)
    ensures
        data.len() == 0 ==> apply_ops(state, spec_store_write(path, data)) == state,
        data.len() > 0 ==> apply_ops(state, spec_store_write(path, data)) == state.insert(
            path,
            overwrite(value_at(state, path), 0, data),
        ),
        data.len() > 0 ==> apply_ops(state, spec_store_write(path, data)).contains_key(path)
            && starts_with(apply_ops(state, spec_store_write(path, data))[path], data),
        data.len() >= value_at(state, path).len() && data.len() > 0 ==> apply_ops(
            state,
            spec_store_write(path, data),
        )[path] == data,
        forall|k: Seq<u8>|
            k != path ==> (apply_ops(state, spec_store_write(path, data)).contains_key(k)
                <==> state.contains_key(k)),
        forall|k: Seq<u8>|
            k != path && state.contains_key(k) ==> apply_ops(state, spec_store_write(path, data))[k]
                == state[k],
{
    let len = data.len() as int;
    let ops = spec_store_write(path, data);
    if len == 0 {
        assert(ops =~= Seq::<StoreOpView>::empty());
    } else {
        let n = chunk_count(len);
        assert(n >= 1);
        assert(ops =~= write_prefix(path, data, n));
        lemma_write_prefix(state, path, data, n);
        lemma_chunk_bounds(len, n - 1);
        assert(data.subrange(0, len) =~= data);
        let after = overwrite(value_at(state, path), 0, data);
        assert(after.subrange(0, len) =~= data);
        if len >= value_at(state, path).len() {
            assert(after =~= data);
        }
    }
}

/// A value write holds only writes: it deletes nothing.
pub proof fn lemma_store_write_deletes_nothing(path: Seq<u8>, data: Seq<u8>)
    ensures
        delete_count(spec_store_write(path, data)) == 0,
{
    lemma_write_prefix_deletes_nothing(path, data, chunk_count(data.len() as int));
    assert(spec_store_write(path, data) =~= write_prefix(
        path,
        data,
        chunk_count(data.len() as int),
    ));
}

proof fn lemma_write_prefix_deletes_nothing(path: Seq<u8>, data: Seq<u8>, k: int)
    requires
        0 <= k,
    ensures
        delete_count(write_prefix(path, data, k)) == 0,
    decreases k,
{
    let ops = write_prefix(path, data, k);
    if k > 0 {
        lemma_write_prefix_deletes_nothing(path, data, k - 1);
        assert(ops.drop_last() =~= write_prefix(path, data, k - 1));
        assert(ops.last() == chunk_write(path, data, k - 1));
    }
}

/// How many of the operations are deletes.
pub open spec fn delete_count(ops: Seq<StoreOpView>) -> nat
    decreases ops.len(),
{
    if ops.len() == 0 {
        0
    } else {
        delete_count(ops.drop_last()) + match ops.last() {
            StoreOpView::Delete { path } => 1nat,
            StoreOpView::Write { path, offset, bytes } => 0nat,
        }
    }
}

/// The deletes of two lists of operations add up.
pub proof fn lemma_delete_count_concat(first: Seq<StoreOpView>, second: Seq<StoreOpView>)
    ensures
        delete_count(first + second) == delete_count(first) + delete_count(second),
    decreases second.len(),
{
    if second.len() == 0 {
        assert(first + second =~= first);
    } else {
        lemma_delete_count_concat(first, second.drop_last());
        assert((first + second).drop_last() =~= first + second.drop_last());
        assert((first + second).last() == second.last());
    }
}

proof fn lemma_read_prefix(value: Seq<u8>, k: int)
    requires
        value.len() <= usize::MAX,
        0 <= k <= chunk_count(value.len() as int),
    ensures
        concat_all(host_chunks(value, spec_read_plan(value.len() as int)).subrange(0, k))
            == value.subrange(
            0,
            if k == 0 {
                0
            } else {
                chunk_end(value.len() as int, k - 1)
            },
        ),
    decreases k,
{
    let len = value.len() as int;
    let plan = spec_read_plan(len);
    let chunks = host_chunks(value, plan);
    let taken = chunks.subrange(0, k);
    if k == 0 {
        assert(concat_all(taken) =~= value.subrange(0, 0));
    } else {
        lemma_read_prefix(value, k - 1);
        lemma_chunk_bounds(len, k - 1);
        assert(taken.drop_last() =~= chunks.subrange(0, k - 1));
        assert(taken.last() == chunks[k - 1]);
        assert(plan[k - 1].offset == (k - 1) * MAX_CHUNK);
        assert(plan[k - 1].len == chunk_end(len, k - 1) - (k - 1) * MAX_CHUNK);
        if k >= 2 {
            lemma_chunk_bounds(len, k - 2);
        }
        assert(concat_all(taken) =~= value.subrange(0, chunk_end(len, k - 1)));
    }
}

/// Reading a value chunk by chunk, as planned, and putting the chunks together
/// gives the value back.
pub proof fn lemma_chunked_read_is_exact(value: Seq<u8>)
    requires
        value.len() <= usize::MAX,
    ensures
        chunks_fit(value.len() as int, host_chunks(value, spec_read_plan(value.len() as int))),
        concat_all(host_chunks(value, spec_read_plan(value.len() as int))) == value,
{
    let len = value.len() as int;
    let plan = spec_read_plan(len);
    let chunks = host_chunks(value, plan);
    let n = chunk_count(len);
    lemma_read_prefix(value, n);
    assert(chunks.subrange(0, n) =~= chunks);
    if n > 0 {
        lemma_chunk_bounds(len, n - 1);
    }
    assert(value.subrange(0, len) =~= value);
    assert forall|i: int| 0 <= i < chunks.len() implies (#[trigger] chunks[i]).len()
        == plan[i].len by {
        lemma_chunk_bounds(len, i);
    }
}

/// Write, then read: data that is written under a key and then read back
/// through the chunked reads is there byte for byte, at the start of what
/// comes back, whatever its length and whatever the key held before. Where the
/// key held nothing longer, it is all that comes back.
pub proof fn lemma_write_then_read(state: Map<Seq<u8>, Seq<u8>>, path: Seq<u8>, data: Seq<u8>)
    requires
        0 < data.len() <= usize::MAX,
        value_at(state, path).len() <= usize::MAX,
    ensures
        ({
            let after = apply_ops(state, spec_store_write(path, data));
            let read = concat_all(host_chunks(after[path], spec_read_plan(after[path].len() as int)));
            &&& after.contains_key(path)
            &&& chunks_fit(
                after[path].len() as int,
                host_chunks(after[path], spec_read_plan(after[path].len() as int)),
            )
            &&& starts_with(read, data)
            &&& value_at(state, path).len() <= data.len() ==> read == data
        }),
{
    lemma_store_write_overwrites(state, path, data);
    let after = apply_ops(state, spec_store_write(path, data));
    lemma_chunked_read_is_exact(after[path]);
}

/// Doing two lists of operations one after the other is doing their
/// concatenation.
pub proof fn lemma_apply_ops_concat(
    state: Map<Seq<u8>, Seq<u8>>,
    first: Seq<StoreOpView>,
    second: Seq<StoreOpView>,
)
    ensures
        apply_ops(state, first + second) == apply_ops(apply_ops(state, first), second),
    decreases second.len(),
{
    if second.len() == 0 {
        assert(first + second =~= first);
    } else {
        lemma_apply_ops_concat(state, first, second.drop_last());
        assert((first + second).drop_last() =~= first + second.drop_last());
        assert((first + second).last() == second.last());
    }
}

/// How often the operations start to write a value under `path`: the number of
/// writes to `path` at offset zero.
pub open spec fn value_writes(ops: Seq<StoreOpView>, path: Seq<u8>) -> nat
    decreases ops.len(),
{
    if ops.len() == 0 {
        0
    } else {
        value_writes(ops.drop_last(), path) + match ops.last() {
            StoreOpView::Write { path: target, offset, bytes } => if target == path && offset == 0 {
                1nat
            } else {
                0nat
            },
            StoreOpView::Delete { path: target } => 0nat,
        }
    }
}

/// The writes of two lists of operations add up.
pub proof fn lemma_value_writes_concat(first: Seq<StoreOpView>, second: Seq<StoreOpView>, path: Seq<u8>)
    ensures
        value_writes(first + second, path) == value_writes(first, path) + value_writes(
            second,
            path,
        ),
    decreases second.len(),
{
    if second.len() == 0 {
        assert(first + second =~= first);
    } else {
        lemma_value_writes_concat(first, second.drop_last(), path);
        assert((first + second).drop_last() =~= first + second.drop_last());
        assert((first + second).last() == second.last());
    }
}

proof fn lemma_value_writes_prefix(target: Seq<u8>, data: Seq<u8>, k: int, path: Seq<u8>)
    requires
        0 <= k,
    ensures
        value_writes(write_prefix(target, data, k), path) == if k >= 1 && target == path {
            1nat
        } else {
            0nat
        },
    decreases k,
{
    let ops = write_prefix(target, data, k);
    if k == 0 {
        assert(ops =~= Seq::<StoreOpView>::empty());
    } else {
        lemma_value_writes_prefix(target, data, k - 1, path);
        assert(ops.len() == k);
        assert(ops.drop_last() =~= write_prefix(target, data, k - 1));
        assert(ops.last() == chunk_write(target, data, k - 1));
        assert((k - 1) * MAX_CHUNK == 0 <==> k == 1) by (nonlinear_arith)
            requires
                k >= 1,
        ;
        assert(value_writes(ops, path) == value_writes(ops.drop_last(), path) + if target == path
            && k == 1 {
            1nat
        } else {
            0nat
        });
    }
}

/// A write of data that is not empty starts one value under its own path and
/// none elsewhere.
pub proof fn lemma_value_writes_of_store_write(target: Seq<u8>, data: Seq<u8>, path: Seq<u8>)
    ensures
        value_writes(spec_store_write(target, data), path) == if target == path && data.len() > 0 {
            1nat
        } else {
            0nat
        },
{
    let k = chunk_count(data.len() as int);
    assert(spec_store_write(target, data) =~= write_prefix(target, data, k));
    lemma_value_writes_prefix(target, data, k, path);
}

} // verus!
