//! The byte-level semantics of an array object: how a read spreads its
//! contents over scatter/gather buffers, how a write lays buffers over the
//! extents of an I/O descriptor, and how the array is resized.
use vstd::prelude::*;
use crate::types::{ArrayIod, ArrayRange};

verus! {

/// The smaller of two integers.
pub open spec fn min_of(a: int, b: int) -> int {
    if a < b { a } else { b }
}

/// `n` zero bytes.
pub open spec fn zeros(n: nat) -> Seq<u8> {
    Seq::new(n, |i: int| 0u8)
}

/// `data`, extended with zero bytes up to length `n` when it is shorter.
pub open spec fn grow_to(data: Seq<u8>, n: int) -> Seq<u8> {
    if data.len() < n { data + zeros((n - data.len()) as nat) } else { data }
}

/// `data` with the bytes from `at` to `at + bytes.len()` replaced by `bytes`
/// (meant for `0 <= at` and `at + bytes.len() <= data.len()`).
pub open spec fn overwrite(data: Seq<u8>, at: int, bytes: Seq<u8>) -> Seq<u8> {
    Seq::new(
        data.len(),
        |i: int| if at <= i < at + bytes.len() { bytes[i - at] } else { data[i] },
    )
}

/// The contents of the scatter/gather buffers, as byte sequences.
pub open spec fn buffers(sgl: Seq<Vec<u8>>) -> Seq<Seq<u8>> {
    sgl.map_values(|b: Vec<u8>| b@)
}

/// The total length of a list of buffers.
pub open spec fn total_len(bufs: Seq<Seq<u8>>) -> nat
    decreases bufs.len(),
{
    if bufs.len() == 0 {
        0
    } else {
        total_len(bufs.drop_last()) + bufs.last().len()
    }
}

/// Where in an array of `n` bytes the `i`-th buffer of a read starts: the
/// buffers are filled one after another from the start of the array.
pub open spec fn read_start(n: nat, bufs: Seq<Seq<u8>>, i: int) -> int {
    min_of(total_len(bufs.take(i)) as int, n as int)
}

/// The bytes of `data` that a read copies into the `i`-th buffer.
pub open spec fn read_piece(data: Seq<u8>, bufs: Seq<Seq<u8>>, i: int) -> Seq<u8> {
    data.subrange(read_start(data.len(), bufs, i), read_start(data.len(), bufs, i + 1))
}

/// The `i`-th buffer after a read of `data`: its front holds the piece of
/// `data` copied into it, and the bytes past that piece are left as they were.
pub open spec fn filled(data: Seq<u8>, bufs: Seq<Seq<u8>>, i: int) -> Seq<u8> {
    read_piece(data, bufs, i) + bufs[i].skip(read_piece(data, bufs, i).len() as int)
}

/// The number of bytes a read of `data` into `bufs` copies in all.
pub open spec fn read_count(data: Seq<u8>, bufs: Seq<Seq<u8>>) -> int {
    min_of(total_len(bufs) as int, data.len() as int)
}

/// The array after writing `buf` at extent `rg`: it first grows with zeros to
/// cover the whole extent, then `buf` is laid over it from the extent's start.
pub open spec fn write_extent(data: Seq<u8>, rg: ArrayRange, buf: Seq<u8>) -> Seq<u8> {
    overwrite(grow_to(data, rg.rg_idx + rg.rg_len), rg.rg_idx as int, buf)
}

/// Writing `buf` at extent `rg` of `data` stays in bounds: the extent's end
/// fits in `usize`, and `buf` ends within the array once grown to the extent.
pub open spec fn extent_fits(data: Seq<u8>, rg: ArrayRange, buf: Seq<u8>) -> bool {
    &&& rg.rg_idx + rg.rg_len <= usize::MAX
    &&& rg.rg_idx + buf.len() <= grow_to(data, rg.rg_idx + rg.rg_len).len()
}

/// The array after the buffers `bufs` are written, in order, at the extents
/// `rgs` (the `i`-th buffer at the `i`-th extent).
pub open spec fn apply_writes(data: Seq<u8>, rgs: Seq<ArrayRange>, bufs: Seq<Seq<u8>>) -> Seq<u8>
    decreases bufs.len(),
{
    if bufs.len() == 0 {
        data
    } else {
        let n = bufs.len() - 1;
        write_extent(apply_writes(data, rgs, bufs.take(n)), rgs[n], bufs[n])
    }
}

/// Each write of `bufs` at `rgs`, in order, stays in bounds of the array as
/// the writes before it have left it.
pub open spec fn writes_fit(data: Seq<u8>, rgs: Seq<ArrayRange>, bufs: Seq<Seq<u8>>) -> bool
    decreases bufs.len(),
{
    if bufs.len() == 0 {
        true
    } else {
        let n = bufs.len() - 1;
        &&& writes_fit(data, rgs, bufs.take(n))
        &&& extent_fits(apply_writes(data, rgs, bufs.take(n)), rgs[n], bufs[n])
    }
}

/// The array after a resize to `size` bytes: cut to `size`, or extended with zeros.
pub open spec fn resized(data: Seq<u8>, size: int) -> Seq<u8> {
    if size <= data.len() { data.take(size) } else { grow_to(data, size) }
}

proof fn lemma_total_len_step(bufs: Seq<Seq<u8>>, i: int)
    requires
        0 <= i < bufs.len(),
    ensures
        total_len(bufs.take(i + 1)) == total_len(bufs.take(i)) + bufs[i].len(),
{
    assert(bufs.take(i + 1).drop_last() =~= bufs.take(i));
}

proof fn lemma_writes_fit_prefix(data: Seq<u8>, rgs: Seq<ArrayRange>, bufs: Seq<Seq<u8>>, k: int)
    requires
        writes_fit(data, rgs, bufs),
        0 <= k <= bufs.len(),
    ensures
        writes_fit(data, rgs, bufs.take(k)),
    decreases bufs.len(),
{
    if k == bufs.len() {
        assert(bufs.take(k) =~= bufs);
    } else {
        let n = bufs.len() - 1;
        lemma_writes_fit_prefix(data, rgs, bufs.take(n), k);
        assert(bufs.take(n).take(k) =~= bufs.take(k));
    }
}

/// A copy of a byte vector.
pub fn copy_bytes(v: &Vec<u8>) -> (r: Vec<u8>)
    ensures
        r@ == v@,
{
    let mut r: Vec<u8> = Vec::with_capacity(v.len());
    let mut i: usize = 0;
    while i < v.len()
        invariant
            i <= v.len(),
            r@ == v@.take(i as int),
        decreases v.len() - i,
    {
        r.push(v[i]);
        i = i + 1;
        assert(r@ =~= v@.take(i as int));
    }
    assert(v@.take(i as int) =~= v@);
    r
}

/// Extends `data` with zero bytes to `n` bytes; longer arrays are left as they are.
pub fn grow_with_zeros(data: &mut Vec<u8>, n: usize)
    ensures
        final(data)@ == grow_to(old(data)@, n as int),
{
    let ghost start = data@;
    while data.len() < n
        invariant
            start.len() <= data@.len() <= (if start.len() < n { n as int } else { start.len() as int }),
            data@ == start + zeros((data@.len() - start.len()) as nat),
        decreases n - data.len(),
    {
        data.push(0u8);
        assert(data@ =~= start + zeros((data@.len() - start.len()) as nat));
    }
    proof {
        if start.len() >= n {
            assert(data@ =~= start);
        }
    }
}

/// Copies `bytes` into `data` from position `at` on.
fn overwrite_at(data: &mut Vec<u8>, at: usize, bytes: &Vec<u8>)
    requires
        at + bytes@.len() <= old(data)@.len(),
    ensures
        final(data)@ == overwrite(old(data)@, at as int, bytes@),
{
    let ghost start = data@;
    let len = data.len();
    let mut j: usize = 0;
    while j < bytes.len()
        invariant
            j <= bytes@.len(),
            len == start.len(),
            at + bytes@.len() <= len,
            data@.len() == start.len(),
            forall|k: int| 0 <= k < data@.len() ==> #[trigger] data@[k] == (
                if at <= k < at + j { bytes@[k - at] } else { start[k] }
            ),
        decreases bytes.len() - j,
    {
        data.set(at + j, bytes[j]);
        j = j + 1;
    }
    assert(data@ =~= overwrite(start, at as int, bytes@));
}

/// Reads an array of bytes into scatter/gather buffers: the buffers are
/// filled one after another from the start of the array, each with as many
/// bytes as it holds or as remain, and the count of bytes read is added to
/// `arr_nr_read` of the descriptor.
pub fn read_extents(data: &Vec<u8>, iod: &mut ArrayIod, sgl: &mut Vec<Vec<u8>>)
    requires
        old(iod).arr_nr_read + read_count(data@, buffers(old(sgl)@)) <= u64::MAX,
    ensures
        final(sgl)@.len() == old(sgl)@.len(),
        forall|i: int|
            0 <= i < old(sgl)@.len() ==> #[trigger] final(sgl)@[i]@ == filled(
                data@,
                buffers(old(sgl)@),
                i,
            ),
        final(iod).arr_nr_read == old(iod).arr_nr_read + read_count(data@, buffers(old(sgl)@)),
        final(iod).arr_nr == old(iod).arr_nr,
        final(iod).arr_rgs == old(iod).arr_rgs,
        final(iod).arr_nr_short_read == old(iod).arr_nr_short_read,
{
    let ghost bufs = buffers(sgl@);
    let ghost n = data@.len();
    let mut offset: usize = 0;
    let mut i: usize = 0;
    proof {
        assert(bufs.take(0) =~= Seq::<Seq<u8>>::empty());
        lemma_total_len_prefix_le(bufs, bufs.len() as int);
        assert(bufs.take(bufs.len() as int) =~= bufs);
    }
    while i < sgl.len()
        invariant
            bufs == buffers(old(sgl)@),
            n == data@.len(),
            i <= sgl@.len(),
            sgl@.len() == old(sgl)@.len(),
            offset == read_start(n, bufs, i as int),
            offset <= n,
            forall|k: int| 0 <= k < i ==> #[trigger] sgl@[k]@ == filled(data@, bufs, k),
            forall|k: int| i <= k < sgl@.len() ==> #[trigger] sgl@[k]@ == bufs[k],
            iod.arr_nr_read == old(iod).arr_nr_read + offset,
            old(iod).arr_nr_read + read_count(data@, bufs) <= u64::MAX,
            offset <= read_count(data@, bufs),
            iod.arr_nr == old(iod).arr_nr,
            iod.arr_rgs == old(iod).arr_rgs,
            iod.arr_nr_short_read == old(iod).arr_nr_short_read,
        decreases sgl.len() - i,
    {
        let mut buf = copy_bytes(&sgl[i]);
        let remaining = data.len() - offset;
        let count = if buf.len() < remaining { buf.len() } else { remaining };
        proof {
            lemma_total_len_step(bufs, i as int);
            lemma_total_len_prefix_le(bufs, i as int + 1);
        }
        let dlen = data.len();
        let mut j: usize = 0;
        while j < count
            invariant
                i < bufs.len(),
                dlen == data@.len(),
                j <= count,
                count <= buf@.len(),
                offset + count <= dlen,
                buf@.len() == bufs[i as int].len(),
                forall|k: int| 0 <= k < buf@.len() ==> #[trigger] buf@[k] == (
                    if k < j { data@[offset + k] } else { bufs[i as int][k] }
                ),
            decreases count - j,
        {
            buf.set(j, data[offset + j]);
            j = j + 1;
        }
        proof {
            assert(read_piece(data@, bufs, i as int).len() == count);
            assert(buf@ =~= filled(data@, bufs, i as int));
        }
        sgl.set(i, buf);
        iod.arr_nr_read = iod.arr_nr_read + count as u64;
        offset = offset + count;
        i = i + 1;
    }
    proof {
        assert(bufs.take(i as int) =~= bufs);
    }
}

proof fn lemma_total_len_prefix_le(bufs: Seq<Seq<u8>>, i: int)
    requires
        0 <= i <= bufs.len(),
    ensures
        total_len(bufs.take(i)) <= total_len(bufs),
    decreases bufs.len() - i,
{
    if i < bufs.len() {
        lemma_total_len_step(bufs, i);
        lemma_total_len_prefix_le(bufs, i + 1);
    } else {
        assert(bufs.take(i) =~= bufs);
    }
}

/// Writes each scatter/gather buffer at the extent of the same position:
/// before each write the array grows with zeros to cover the whole extent,
/// then the buffer's bytes are copied in from the extent's start.
pub fn write_extents(data: &mut Vec<u8>, rgs: &Vec<ArrayRange>, sgl: &Vec<Vec<u8>>)
    requires
        rgs@.len() >= sgl@.len(),
        writes_fit(old(data)@, rgs@, buffers(sgl@)),
    ensures
        final(data)@ == apply_writes(old(data)@, rgs@, buffers(sgl@)),
{
    let ghost bufs = buffers(sgl@);
    let ghost start = data@;
    let mut i: usize = 0;
    assert(bufs.take(0) =~= Seq::<Seq<u8>>::empty());
    while i < sgl.len()
        invariant
            bufs == buffers(sgl@),
            rgs@.len() >= sgl@.len(),
            i <= sgl@.len(),
            writes_fit(start, rgs@, bufs),
            data@ == apply_writes(start, rgs@, bufs.take(i as int)),
        decreases sgl.len() - i,
    {
        proof {
            lemma_writes_fit_prefix(start, rgs@, bufs, i as int + 1);
            assert(bufs.take(i as int + 1).take(i as int) =~= bufs.take(i as int));
        }
        let rg = rgs[i];
        let offset = rg.rg_idx as usize;
        let end = (rg.rg_len as usize) + offset;
        grow_with_zeros(data, end);
        overwrite_at(data, offset, &sgl[i]);
        i = i + 1;
    }
    assert(bufs.take(i as int) =~= bufs);
}

/// Whether writing the buffers of `sgl` at the extents `rgs` of `data`
/// stays in bounds: there is an extent for every buffer, and each write, in
/// order, fits the array as the writes before it have left it.
pub fn writes_in_bounds(data: &Vec<u8>, rgs: &Vec<ArrayRange>, sgl: &Vec<Vec<u8>>) -> (r: bool)
    ensures
        r == (rgs@.len() >= sgl@.len() && writes_fit(data@, rgs@, buffers(sgl@))),
{
    if rgs.len() < sgl.len() {
        return false;
    }
    let ghost bufs = buffers(sgl@);
    let mut len: usize = data.len();
    let mut i: usize = 0;
    assert(bufs.take(0) =~= Seq::<Seq<u8>>::empty());
    while i < sgl.len()
        invariant
            bufs == buffers(sgl@),
            rgs@.len() >= sgl@.len(),
            i <= sgl@.len(),
            writes_fit(data@, rgs@, bufs.take(i as int)),
            len == apply_writes(data@, rgs@, bufs.take(i as int)).len(),
        decreases sgl.len() - i,
    {
        proof {
            assert(bufs.take(i as int + 1).take(i as int) =~= bufs.take(i as int));
        }
        let rg = rgs[i];
        let end = match rg.rg_idx.checked_add(rg.rg_len) {
            Some(e) => e,
            None => {
                proof {
                    if writes_fit(data@, rgs@, bufs) {
                        lemma_writes_fit_prefix(data@, rgs@, bufs, i as int + 1);
                    }
                }
                return false;
            },
        };
        if end > usize::MAX as u64 {
            proof {
                if writes_fit(data@, rgs@, bufs) {
                    lemma_writes_fit_prefix(data@, rgs@, bufs, i as int + 1);
                }
            }
            return false;
        }
        let end = end as usize;
        let grown = if len < end { end } else { len };
        let idx = rg.rg_idx as usize;
        if sgl[i].len() > grown - idx {
            proof {
                if writes_fit(data@, rgs@, bufs) {
                    lemma_writes_fit_prefix(data@, rgs@, bufs, i as int + 1);
                }
            }
            return false;
        }
        len = grown;
        i = i + 1;
    }
    assert(bufs.take(i as int) =~= bufs);
    true
}

/// Resizes an array to `size` bytes: a longer array is cut, a shorter one
/// is extended with zero bytes.
pub fn resize_array(data: &mut Vec<u8>, size: usize)
    ensures
        final(data)@ == resized(old(data)@, size as int),
{
    if size <= data.len() {
        data.truncate(size);
    } else {
        grow_with_zeros(data, size);
    }
}

} // verus!
