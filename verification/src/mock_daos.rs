//! The DAOS client calls, answered from an object store in place of a DAOS
//! system. Each call returns the C status code of the API: zero for success,
//! a negative number for failure. The pool, container, snapshot, object
//! iterator and event calls have nothing to do here and succeed at once.
use vstd::prelude::*;
use crate::array::{
    apply_writes, buffers, filled, read_count, read_extents, resize_array, resized, write_extent,
    writes_fit, write_extents,
};
use crate::storage::{held_or_empty, store_insert, successor, written_over, Storage};
use crate::types::{ArrayIod, DaosHandle, DaosObjId};

verus! {

/// The status code of a successful call.
pub const DAOS_SUCCESS: i32 = 0;

/// The status code of a write to an array that the store does not hold.
pub const DAOS_NO_SUCH_OBJECT: i32 = -1;

/// A range of epochs, from `epr_lo` to `epr_hi`.
#[derive(Clone, Copy, Debug, PartialEq, Eq, Structural)]
pub struct DaosEpochRange {
    pub epr_lo: u64,
    pub epr_hi: u64,
}

/// The objects after the array with key `key` is opened: created empty
/// when the store does not hold it, and left as it is otherwise.
pub open spec fn opened(objects: Map<u64, Seq<u8>>, key: u64) -> Map<u64, Seq<u8>> {
    if objects.contains_key(key) { objects } else { objects.insert(key, Seq::empty()) }
}

/// The bytes of the array an open handle refers to, as a read sees them:
/// an array the store does not hold reads as empty.
pub open spec fn array_bytes(objects: Map<u64, Seq<u8>>, oh: DaosHandle) -> Seq<u8> {
    held_or_empty(objects, oh.cookie)
}

proof fn lemma_write_extent_len(data: Seq<u8>, rg: crate::types::ArrayRange, buf: Seq<u8>)
    ensures
        write_extent(data, rg, buf).len() >= data.len(),
{
}

/// A sequence of writes never shortens an array.
pub proof fn lemma_apply_writes_len(
    data: Seq<u8>,
    rgs: Seq<crate::types::ArrayRange>,
    bufs: Seq<Seq<u8>>,
)
    ensures
        apply_writes(data, rgs, bufs).len() >= data.len(),
    decreases bufs.len(),
{
    if bufs.len() > 0 {
        let n = bufs.len() - 1;
        lemma_apply_writes_len(data, rgs, bufs.take(n));
        lemma_write_extent_len(apply_writes(data, rgs, bufs.take(n)), rgs[n], bufs[n]);
    }
}

/// Storing bytes at least as long as what an object holds replaces it whole.
pub proof fn lemma_written_over_longer(prev: Seq<u8>, data: Seq<u8>)
    requires
        data.len() >= prev.len(),
    ensures
        written_over(prev, data) == data,
{
    assert(written_over(prev, data) =~= data);
}

/// Closes an array handle; the store is left as it is.
pub fn daos_array_close(storage: &Storage, oh: DaosHandle) -> (r: i32)
    ensures
        r == DAOS_SUCCESS,
{
    let _oid = oh.object_id();
    DAOS_SUCCESS
}

/// Opens the array object `oid`, creating it empty when the store does not
/// hold it, and sets `oh` to its handle, which carries the low word of `oid`.
pub fn daos_array_open_with_attr(
    storage: &mut Storage,
    coh: DaosHandle,
    oid: DaosObjId,
    th: DaosHandle,
    mode: u32,
    cell_size: u64,
    chunk_size: u64,
    oh: &mut DaosHandle,
) -> (r: i32)
    ensures
        r == DAOS_SUCCESS,
        *final(oh) == (DaosHandle { cookie: oid.lo }),
        final(storage)@ == opened(old(storage)@, oid.lo),
        final(storage).next_id() == old(storage).next_id(),
{
    let new_handle = DaosHandle::for_object(oid);
    if !storage.contains(&oid) {
        storage.insert(oid, Vec::new());
        assert(written_over(Seq::empty(), Seq::<u8>::empty()) =~= Seq::<u8>::empty());
    }
    *oh = new_handle;
    DAOS_SUCCESS
}

/// Reads the array behind `oh` into the buffers of `sgl`, from its first
/// byte on: the buffers are filled one after another, each with as many
/// bytes as it holds or as remain, and the count of bytes read is added to
/// `arr_nr_read` of `iod`. An array the store does not hold reads as empty.
pub fn daos_array_read(
    storage: &Storage,
    oh: DaosHandle,
    th: DaosHandle,
    iod: &mut ArrayIod,
    sgl: &mut Vec<Vec<u8>>,
) -> (r: i32)
    requires
        old(iod).arr_nr_read + read_count(array_bytes(storage@, oh), buffers(old(sgl)@))
            <= u64::MAX,
    ensures
        r == DAOS_SUCCESS,
        final(sgl)@.len() == old(sgl)@.len(),
        forall|i: int|
            0 <= i < old(sgl)@.len() ==> #[trigger] final(sgl)@[i]@ == filled(
                array_bytes(storage@, oh),
                buffers(old(sgl)@),
                i,
            ),
        final(iod).arr_nr_read == old(iod).arr_nr_read + read_count(
            array_bytes(storage@, oh),
            buffers(old(sgl)@),
        ),
        final(iod).arr_nr == old(iod).arr_nr,
        final(iod).arr_rgs == old(iod).arr_rgs,
        final(iod).arr_nr_short_read == old(iod).arr_nr_short_read,
{
    let oid = oh.object_id();
    let data = match storage.get(&oid) {
        Some(d) => d,
        None => Vec::new(),
    };
    assert(data@ == array_bytes(storage@, oh));
    read_extents(&data, iod, sgl);
    DAOS_SUCCESS
}

/// Writes the buffers of `sgl` into the array behind `oh`, the `i`-th at
/// the `i`-th extent of `iod`: before each write the array grows with zero
/// bytes to cover the whole extent. Fails, and leaves the store as it is,
/// when the store does not hold the array.
pub fn daos_array_write(
    storage: &mut Storage,
    oh: DaosHandle,
    th: DaosHandle,
    iod: &ArrayIod,
    sgl: &Vec<Vec<u8>>,
) -> (r: i32)
    requires
        old(storage)@.contains_key(oh.cookie) ==> {
            &&& iod.arr_rgs@.len() >= sgl@.len()
            &&& writes_fit(old(storage)@[oh.cookie], iod.arr_rgs@, buffers(sgl@))
        },
    ensures
        old(storage)@.contains_key(oh.cookie) ==> {
            &&& r == DAOS_SUCCESS
            &&& final(storage)@ == old(storage)@.insert(
                oh.cookie,
                apply_writes(old(storage)@[oh.cookie], iod.arr_rgs@, buffers(sgl@)),
            )
        },
        !old(storage)@.contains_key(oh.cookie) ==> {
            &&& r == DAOS_NO_SUCH_OBJECT
            &&& final(storage)@ == old(storage)@
        },
        final(storage).next_id() == old(storage).next_id(),
{
    let oid = oh.object_id();
    match storage.get(&oid) {
        Some(data) => {
            let mut data = data;
            let ghost before = data@;
            write_extents(&mut data, &iod.arr_rgs, sgl);
            proof {
                lemma_apply_writes_len(before, iod.arr_rgs@, buffers(sgl@));
                lemma_written_over_longer(before, data@);
            }
            storage.insert(oid, data);
            DAOS_SUCCESS
        },
        None => DAOS_NO_SUCH_OBJECT,
    }
}

/// Resizes the array behind `oh` to `size` bytes, when the store holds it:
/// the array is cut or extended with zero bytes, then stored back in place
/// over what it held. Since the store does not truncate, a cut leaves the
/// held bytes as they were, and only an extension changes them.
pub fn daos_array_set_size(storage: &mut Storage, oh: DaosHandle, th: DaosHandle, size: u64) -> (r: i32)
    ensures
        r == DAOS_SUCCESS,
        old(storage)@.contains_key(oh.cookie) ==> final(storage)@ == store_insert(
            old(storage)@,
            oh.cookie,
            resized(old(storage)@[oh.cookie], (size as usize) as int),
        ),
        !old(storage)@.contains_key(oh.cookie) ==> final(storage)@ == old(storage)@,
        final(storage).next_id() == old(storage).next_id(),
{
    let oid = oh.object_id();
    match storage.get(&oid) {
        Some(data) => {
            let mut data = data;
            resize_array(&mut data, size as usize);
            storage.insert(oid, data);
        },
        None => {},
    }
    DAOS_SUCCESS
}

/// Sets `size` to the length of the array behind `oh`, when the store
/// holds it; otherwise `size` is left as it is.
pub fn daos_array_get_size(storage: &Storage, oh: DaosHandle, th: DaosHandle, size: &mut u64) -> (r: i32)
    ensures
        r == DAOS_SUCCESS,
        storage@.contains_key(oh.cookie) ==> *final(size) == storage@[oh.cookie].len(),
        !storage@.contains_key(oh.cookie) ==> *final(size) == *old(size),
{
    let oid = oh.object_id();
    match storage.get(&oid) {
        Some(data) => {
            *size = data.len() as u64;
        },
        None => {},
    }
    DAOS_SUCCESS
}

/// Sets `oid` to a fresh object identifier: its low word is the store's next
/// identifier, which then advances (wrapping around at the largest value),
/// and its high word is zero. The objects are left as they are.
pub fn daos_obj_generate_oid2(
    storage: &mut Storage,
    coh: DaosHandle,
    oid: &mut DaosObjId,
    type_: u32,
    cid: u32,
    hints: u16,
    args: u32,
) -> (r: i32)
    ensures
        r == DAOS_SUCCESS,
        final(oid).lo == old(storage).next_id(),
        final(oid).hi == 0,
        final(storage).next_id() == successor(old(storage).next_id()),
        final(storage)@ == old(storage)@,
{
    let lo = storage.take_next_oid();
    *oid = DaosObjId { lo, hi: 0 };
    DAOS_SUCCESS
}

/// Removes the object behind `oh` from the store.
pub fn daos_obj_punch(storage: &mut Storage, oh: DaosHandle, th: DaosHandle, flags: u64) -> (r: i32)
    ensures
        r == DAOS_SUCCESS,
        final(storage)@ == old(storage)@.remove(oh.cookie),
        final(storage).next_id() == old(storage).next_id(),
{
    let oid = oh.object_id();
    storage.remove(&oid);
    DAOS_SUCCESS
}

/// Destroys the array behind `oh`: removes it from the store.
pub fn daos_array_destroy(storage: &mut Storage, oh: DaosHandle, th: DaosHandle) -> (r: i32)
    ensures
        r == DAOS_SUCCESS,
        final(storage)@ == old(storage)@.remove(oh.cookie),
        final(storage).next_id() == old(storage).next_id(),
{
    let oid = oh.object_id();
    storage.remove(&oid);
    DAOS_SUCCESS
}

/// Allocates object identifiers in a container; nothing is allocated here.
pub fn daos_cont_alloc_oids(coh: DaosHandle, num_oids: u64) -> (r: i32)
    ensures
        r == DAOS_SUCCESS,
{
    DAOS_SUCCESS
}

/// Queries a container; there is nothing to report here.
pub fn daos_cont_query(coh: DaosHandle) -> (r: i32)
    ensures
        r == DAOS_SUCCESS,
{
    DAOS_SUCCESS
}

/// Queries a pool; there is nothing to report here.
pub fn daos_pool_query(poh: DaosHandle) -> (r: i32)
    ensures
        r == DAOS_SUCCESS,
{
    DAOS_SUCCESS
}

/// Punches extents of an array; the array is left as it is here.
pub fn daos_array_punch(oh: DaosHandle, th: DaosHandle, iod: &ArrayIod) -> (r: i32)
    ensures
        r == DAOS_SUCCESS,
{
    DAOS_SUCCESS
}

/// Creates a snapshot of a container; none is kept here.
pub fn daos_cont_create_snap(coh: DaosHandle, name: &str) -> (r: i32)
    ensures
        r == DAOS_SUCCESS,
{
    DAOS_SUCCESS
}

/// Closes an object-table iterator.
pub fn daos_oit_close(oh: DaosHandle) -> (r: i32)
    ensures
        r == DAOS_SUCCESS,
{
    DAOS_SUCCESS
}

/// Lists object identifiers from an object-table iterator; none is listed here.
pub fn daos_oit_list(oh: DaosHandle) -> (r: i32)
    ensures
        r == DAOS_SUCCESS,
{
    DAOS_SUCCESS
}

/// Opens an object-table iterator at an epoch.
pub fn daos_oit_open(coh: DaosHandle, epoch: u64) -> (r: i32)
    ensures
        r == DAOS_SUCCESS,
{
    DAOS_SUCCESS
}

/// Initialises the client library.
pub fn daos_init() -> (r: i32)
    ensures
        r == DAOS_SUCCESS,
{
    DAOS_SUCCESS
}

/// Connects to a pool.
pub fn daos_pool_connect2(pool: &str, sys: &str, flags: u32) -> (r: i32)
    ensures
        r == DAOS_SUCCESS,
{
    DAOS_SUCCESS
}

/// Opens a container of a pool.
pub fn daos_cont_open2(poh: DaosHandle, cont: &str, flags: u32) -> (r: i32)
    ensures
        r == DAOS_SUCCESS,
{
    DAOS_SUCCESS
}

/// Destroys the snapshots of a range of epochs; none is kept here.
pub fn daos_cont_destroy_snap(coh: DaosHandle, epr: DaosEpochRange) -> (r: i32)
    ensures
        r == DAOS_SUCCESS,
{
    DAOS_SUCCESS
}

/// Creates a snapshot of a container with options; none is kept here.
pub fn daos_cont_create_snap_opt(coh: DaosHandle, name: &str, opts: u32) -> (r: i32)
    ensures
        r == DAOS_SUCCESS,
{
    DAOS_SUCCESS
}

/// Closes a container.
pub fn daos_cont_close(coh: DaosHandle) -> (r: i32)
    ensures
        r == DAOS_SUCCESS,
{
    DAOS_SUCCESS
}

/// Disconnects from a pool.
pub fn daos_pool_disconnect(poh: DaosHandle) -> (r: i32)
    ensures
        r == DAOS_SUCCESS,
{
    DAOS_SUCCESS
}

/// Finalises the client library.
pub fn daos_fini() -> (r: i32)
    ensures
        r == DAOS_SUCCESS,
{
    DAOS_SUCCESS
}

/// Resets the event-queue library in a forked child.
pub fn daos_eq_lib_reset_after_fork() -> (r: i32)
    ensures
        r == DAOS_SUCCESS,
{
    DAOS_SUCCESS
}

/// Creates an event queue.
pub fn daos_eq_create() -> (r: i32)
    ensures
        r == DAOS_SUCCESS,
{
    DAOS_SUCCESS
}

/// Destroys an event queue.
pub fn daos_eq_destroy(eqh: DaosHandle, flags: i32) -> (r: i32)
    ensures
        r == DAOS_SUCCESS,
{
    DAOS_SUCCESS
}

/// Finalises an event.
pub fn daos_event_fini() -> (r: i32)
    ensures
        r == DAOS_SUCCESS,
{
    DAOS_SUCCESS
}

/// Tests whether an event has completed: every call here completes at
/// once, so `flag` is set.
pub fn daos_event_test(timeout: i64, flag: &mut bool) -> (r: i32)
    ensures
        r == DAOS_SUCCESS,
        *final(flag),
{
    *flag = true;
    DAOS_SUCCESS
}

/// Initialises an event on an event queue.
pub fn daos_event_init(eqh: DaosHandle) -> (r: i32)
    ensures
        r == DAOS_SUCCESS,
{
    DAOS_SUCCESS
}

} // verus!
