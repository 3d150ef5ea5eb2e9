//! Properties of the store and of the array calls that span several calls.
use vstd::prelude::*;
use crate::array::{
    grow_to, read_count, read_piece, read_start, resized, total_len, write_extent,
    extent_fits, zeros,
};
use crate::array::filled;
use crate::mock_daos::array_bytes;
use crate::names::{
    decimal_value, digits_of, is_digit, max_parsed, name_bytes, parse_decimal_u64, ASCII_PLUS,
    ASCII_ZERO,
};
use crate::types::DaosHandle;
use crate::storage::{held_or_empty, store_insert, successor, written_over};
use crate::array::apply_writes;
use crate::mock_daos::opened;
use crate::types::ArrayRange;

verus! {

/// Reading an object back after storing `data` gives `data` at the front,
/// followed by whatever the object held past the end of `data`.
pub proof fn law_read_back_after_store(objects: Map<u64, Seq<u8>>, key: u64, data: Seq<u8>)
    ensures
        store_insert(objects, key, data).contains_key(key),
        store_insert(objects, key, data)[key].take(data.len() as int) == data,
        store_insert(objects, key, data)[key].len() == (if data.len() >= held_or_empty(objects, key).len() {
            data.len()
        } else {
            held_or_empty(objects, key).len()
        }),
        data.len() < held_or_empty(objects, key).len() ==> store_insert(objects, key, data)[key].skip(
            data.len() as int,
        ) == held_or_empty(objects, key).skip(data.len() as int),
{
    let prev = held_or_empty(objects, key);
    let stored = store_insert(objects, key, data)[key];
    assert(stored == written_over(prev, data));
    assert(stored.take(data.len() as int) =~= data);
    if data.len() < prev.len() {
        assert(stored.skip(data.len() as int) =~= prev.skip(data.len() as int));
    }
}

/// Storing bytes at least as long as what an object held reads back exactly.
pub proof fn law_store_replaces_when_not_shorter(objects: Map<u64, Seq<u8>>, key: u64, data: Seq<u8>)
    requires
        data.len() >= held_or_empty(objects, key).len(),
    ensures
        store_insert(objects, key, data)[key] == data,
{
    assert(written_over(held_or_empty(objects, key), data) =~= data);
}

/// Storing an object leaves every other object as it was, and adds only its key.
pub proof fn law_store_leaves_others(objects: Map<u64, Seq<u8>>, key: u64, data: Seq<u8>, other: u64)
    requires
        other != key,
    ensures
        store_insert(objects, key, data).contains_key(other) == objects.contains_key(other),
        objects.contains_key(other) ==> store_insert(objects, key, data)[other] == objects[other],
        store_insert(objects, key, data).dom() == objects.dom().insert(key),
{
}

/// After a removal the store no longer holds the object, and holds every
/// other object as before.
pub proof fn law_remove_forgets(objects: Map<u64, Seq<u8>>, key: u64, other: u64)
    requires
        other != key,
    ensures
        !objects.remove(key).contains_key(key),
        held_or_empty(objects.remove(key), key) == Seq::<u8>::empty(),
        objects.remove(key).contains_key(other) == objects.contains_key(other),
        objects.contains_key(other) ==> objects.remove(key)[other] == objects[other],
{
}

/// After a write of `buf` at extent `rg`, the extent's first `buf.len()`
/// bytes are `buf`; the bytes before the extent are as they were; and the
/// array is at least as long as the extent's end.
pub proof fn law_write_reads_back(data: Seq<u8>, rg: ArrayRange, buf: Seq<u8>)
    requires
        extent_fits(data, rg, buf),
    ensures
        write_extent(data, rg, buf).subrange(rg.rg_idx as int, rg.rg_idx + buf.len()) == buf,
        write_extent(data, rg, buf).len() >= rg.rg_idx + rg.rg_len,
        write_extent(data, rg, buf).len() >= data.len(),
        write_extent(data, rg, buf).len() == (if data.len() < rg.rg_idx + rg.rg_len {
            rg.rg_idx + rg.rg_len
        } else {
            data.len() as int
        }),
        forall|i: int|
            0 <= i < data.len() && !(rg.rg_idx <= i < rg.rg_idx + buf.len()) ==> #[trigger] write_extent(
                data,
                rg,
                buf,
            )[i] == data[i],
        forall|i: int|
            data.len() <= i < write_extent(data, rg, buf).len() && !(rg.rg_idx <= i < rg.rg_idx
                + buf.len()) ==> #[trigger] write_extent(data, rg, buf)[i] == 0,
{
    let w = write_extent(data, rg, buf);
    assert(w.subrange(rg.rg_idx as int, rg.rg_idx + buf.len()) =~= buf);
}

/// The bytes that a read copies into its buffers, joined in buffer order.
pub open spec fn pieces_joined(data: Seq<u8>, bufs: Seq<Seq<u8>>, k: int) -> Seq<u8>
    decreases k,
{
    if k <= 0 {
        Seq::empty()
    } else {
        pieces_joined(data, bufs, k - 1) + read_piece(data, bufs, k - 1)
    }
}

proof fn lemma_pieces_joined(data: Seq<u8>, bufs: Seq<Seq<u8>>, k: int)
    requires
        0 <= k <= bufs.len(),
    ensures
        pieces_joined(data, bufs, k) == data.take(read_start(data.len(), bufs, k)),
    decreases k,
{
    if k == 0 {
        assert(bufs.take(0) =~= Seq::<Seq<u8>>::empty());
        assert(data.take(0) =~= Seq::<u8>::empty());
    } else {
        lemma_pieces_joined(data, bufs, k - 1);
        assert(bufs.take(k).drop_last() =~= bufs.take(k - 1));
        assert(data.take(read_start(data.len(), bufs, k - 1)) + read_piece(data, bufs, k - 1)
            =~= data.take(read_start(data.len(), bufs, k)));
    }
}

/// A read hands back the front of the array: the pieces copied into the
/// buffers, joined in order, are the array's first bytes, as many as the
/// buffers hold or as the array has.
pub proof fn law_read_gives_front(data: Seq<u8>, bufs: Seq<Seq<u8>>)
    ensures
        pieces_joined(data, bufs, bufs.len() as int) == data.take(read_count(data, bufs)),
{
    lemma_pieces_joined(data, bufs, bufs.len() as int);
    assert(bufs.take(bufs.len() as int) =~= bufs);
}

/// A read into buffers that hold at least the whole array hands it all back.
pub proof fn law_read_whole_array(data: Seq<u8>, bufs: Seq<Seq<u8>>)
    requires
        total_len(bufs) >= data.len(),
    ensures
        pieces_joined(data, bufs, bufs.len() as int) == data,
{
    law_read_gives_front(data, bufs);
    assert(data.take(data.len() as int) =~= data);
}

/// Resizing an array that the store holds, then storing it back, gives an
/// array as long as the larger of its old length and the new size; its old
/// bytes remain, and the bytes past them are zeros.
pub proof fn law_resize_keeps_bytes(objects: Map<u64, Seq<u8>>, key: u64, size: int)
    requires
        objects.contains_key(key),
        0 <= size,
    ensures
        store_insert(objects, key, resized(objects[key], size))[key].len() == (if size
            > objects[key].len() {
            size
        } else {
            objects[key].len() as int
        }),
        store_insert(objects, key, resized(objects[key], size))[key].take(objects[key].len() as int)
            == objects[key],
        store_insert(objects, key, resized(objects[key], size))[key].skip(objects[key].len() as int)
            == zeros((store_insert(objects, key, resized(objects[key], size))[key].len()
            - objects[key].len()) as nat),
{
    let old_bytes = objects[key];
    let stored = store_insert(objects, key, resized(old_bytes, size))[key];
    if size <= old_bytes.len() {
        assert(stored =~= old_bytes);
        assert(stored.take(old_bytes.len() as int) =~= old_bytes);
        assert(stored.skip(old_bytes.len() as int) =~= zeros(0));
    } else {
        assert(stored =~= grow_to(old_bytes, size));
        assert(stored.take(old_bytes.len() as int) =~= old_bytes);
        assert(stored.skip(old_bytes.len() as int) =~= zeros((size - old_bytes.len()) as nat));
    }
}

/// Opening an array again changes nothing, and opening never changes what
/// an array holds: an array the store did not hold is opened empty.
pub proof fn law_open_idempotent(objects: Map<u64, Seq<u8>>, key: u64)
    ensures
        opened(opened(objects, key), key) == opened(objects, key),
        opened(objects, key).contains_key(key),
        opened(objects, key)[key] == held_or_empty(objects, key),
{
}

/// A write of one buffer followed by a read into buffers that hold the whole
/// array hands the written bytes back at the extent's start.
pub proof fn law_write_then_read(
    data: Seq<u8>,
    rgs: Seq<ArrayRange>,
    written: Seq<Seq<u8>>,
    bufs: Seq<Seq<u8>>,
)
    requires
        written.len() == 1,
        rgs.len() >= 1,
        extent_fits(data, rgs[0], written[0]),
        total_len(bufs) >= apply_writes(data, rgs, written).len(),
    ensures
        pieces_joined(apply_writes(data, rgs, written), bufs, bufs.len() as int).subrange(
            rgs[0].rg_idx as int,
            rgs[0].rg_idx + written[0].len(),
        ) == written[0],
{
    assert(written.take(0) =~= Seq::<Seq<u8>>::empty());
    assert(apply_writes(data, rgs, written.take(0)) == data);
    assert(apply_writes(data, rgs, written) == write_extent(data, rgs[0], written[0]));
    law_write_reads_back(data, rgs[0], written[0]);
    law_read_whole_array(apply_writes(data, rgs, written), bufs);
}

/// Two identifiers handed out one after the other differ.
pub proof fn law_consecutive_ids_differ(id: u64)
    ensures
        successor(id) != id,
{
}

/// A store made from a list of names hands out, first, an identifier above
/// the number of every name that reads as one, so it does not reuse the name
/// of an object already kept.
pub proof fn law_fresh_ids_above_names(names: Seq<Seq<u8>>, i: int)
    requires
        0 <= i < names.len(),
        parse_decimal_u64(names[i]) is Some,
    ensures
        parse_decimal_u64(names[i])->0 < max_parsed(names) + 1,
{
    crate::names::lemma_max_parsed_bounds(names, i);
}


/// What the store holds under a key: the object's bytes when it holds the
/// object, and nothing otherwise.
pub proof fn law_held_is_stored(objects: Map<u64, Seq<u8>>, key: u64)
    ensures
        objects.contains_key(key) ==> held_or_empty(objects, key) == objects[key],
        !objects.contains_key(key) ==> held_or_empty(objects, key) == Seq::<u8>::empty(),
{
}

/// A read sees exactly the bytes the store holds for the handle's object,
/// all of them, and nothing for an object the store does not hold.
pub proof fn law_read_sees_stored_bytes(objects: Map<u64, Seq<u8>>, oh: DaosHandle)
    ensures
        objects.contains_key(oh.cookie) ==> array_bytes(objects, oh) == objects[oh.cookie],
        !objects.contains_key(oh.cookie) ==> array_bytes(objects, oh) == Seq::<u8>::empty(),
{
}

/// The total length of no buffers is zero, and adding a buffer adds its length.
pub proof fn law_total_len_sums(bufs: Seq<Seq<u8>>, b: Seq<u8>)
    ensures
        total_len(Seq::<Seq<u8>>::empty()) == 0,
        total_len(bufs.push(b)) == total_len(bufs) + b.len(),
{
    assert(bufs.push(b).drop_last() =~= bufs);
}

/// What a read leaves in the `i`-th buffer: it keeps its length; its first
/// `k` bytes are the `k` bytes of the array that follow those copied into
/// the buffers before it (`s` of them, or the whole array when it is
/// shorter), where `k` is the buffer's length or what remains of the array,
/// whichever is smaller; and its bytes past the first `k` are as they were.
/// This holds whether or not the buffers can hold the whole array.
pub proof fn law_read_fills_buffer(data: Seq<u8>, bufs: Seq<Seq<u8>>, i: int)
    requires
        0 <= i < bufs.len(),
    ensures
        ({
            let n = data.len() as int;
            let before = total_len(bufs.take(i)) as int;
            let s = if before < n { before } else { n };
            let k = if (bufs[i].len() as int) < n - s { bufs[i].len() as int } else { n - s };
            &&& 0 <= s <= n
            &&& 0 <= k <= bufs[i].len()
            &&& filled(data, bufs, i).len() == bufs[i].len()
            &&& filled(data, bufs, i).take(k) == data.subrange(s, s + k)
            &&& filled(data, bufs, i).skip(k) == bufs[i].skip(k)
            &&& s + k == (if total_len(bufs.take(i + 1)) < n { total_len(bufs.take(i + 1)) as int } else { n })
        }),
{
    let n = data.len() as int;
    let before = total_len(bufs.take(i)) as int;
    let s = if before < n { before } else { n };
    let k = if (bufs[i].len() as int) < n - s { bufs[i].len() as int } else { n - s };
    assert(bufs.take(i + 1) =~= bufs.take(i).push(bufs[i]));
    law_total_len_sums(bufs.take(i), bufs[i]);
    assert(read_start(data.len(), bufs, i) == s);
    assert(read_start(data.len(), bufs, i + 1) == s + k);
    let f = filled(data, bufs, i);
    assert(f.take(k) =~= data.subrange(s, s + k));
    assert(f.skip(k) =~= bufs[i].skip(k));
}

/// A read copies as many bytes as the buffers hold, or the whole array when
/// it is shorter.
pub proof fn law_read_count_is_copied(data: Seq<u8>, bufs: Seq<Seq<u8>>)
    ensures
        read_count(data, bufs) == (if total_len(bufs) < data.len() {
            total_len(bufs) as int
        } else {
            data.len() as int
        }),
{
}

/// No writes leave the array as it is.
pub proof fn law_no_writes(data: Seq<u8>, rgs: Seq<ArrayRange>)
    ensures
        apply_writes(data, rgs, Seq::<Seq<u8>>::empty()) == data,
{
}

/// Each write of a call acts on the array as the writes before it left it:
/// with `prev` the array after the first writes and `b` written at the next
/// extent `rg`, the array becomes as long as the larger of `prev` and the
/// extent's end; `b` lies at the extent's start; every other byte of `prev`
/// is kept; and the other bytes past the end of `prev` are zeros. So a later
/// extent never shortens the array, and bytes an earlier buffer wrote and no
/// later one covers remain.
pub proof fn law_writes_apply_in_order(
    data: Seq<u8>,
    rgs: Seq<ArrayRange>,
    bufs: Seq<Seq<u8>>,
    b: Seq<u8>,
)
    requires
        bufs.len() < rgs.len(),
        rgs[bufs.len() as int].rg_idx + b.len() <= (if apply_writes(data, rgs, bufs).len()
            < rgs[bufs.len() as int].rg_idx + rgs[bufs.len() as int].rg_len {
            rgs[bufs.len() as int].rg_idx + rgs[bufs.len() as int].rg_len
        } else {
            apply_writes(data, rgs, bufs).len() as int
        }),
    ensures
        ({
            let prev = apply_writes(data, rgs, bufs);
            let next = apply_writes(data, rgs, bufs.push(b));
            let rg = rgs[bufs.len() as int];
            let at = rg.rg_idx as int;
            let end = rg.rg_idx + rg.rg_len;
            &&& next.len() == (if prev.len() < end { end } else { prev.len() as int })
            &&& next.subrange(at, at + b.len()) == b
            &&& forall|j: int|
                0 <= j < prev.len() && !(at <= j < at + b.len()) ==> #[trigger] next[j] == prev[j]
            &&& forall|j: int|
                prev.len() <= j < next.len() && !(at <= j < at + b.len()) ==> #[trigger] next[j] == 0
        }),
{
    let all = bufs.push(b);
    assert(all.take(bufs.len() as int) =~= bufs);
    assert(all[bufs.len() as int] == b);
    let prev = apply_writes(data, rgs, bufs);
    let rg = rgs[bufs.len() as int];
    assert(apply_writes(data, rgs, all) == write_extent(prev, rg, b));
    let next = write_extent(prev, rg, b);
    assert(next.subrange(rg.rg_idx as int, rg.rg_idx + b.len()) =~= b);
}

/// A resize to `size` bytes gives exactly `size` bytes: the array's bytes
/// up to the smaller of the two lengths, then zeros.
pub proof fn law_resize_exact(data: Seq<u8>, size: int)
    requires
        0 <= size,
    ensures
        resized(data, size).len() == size,
        forall|j: int| 0 <= j < size && j < data.len() ==> #[trigger] resized(data, size)[j] == data[j],
        forall|j: int| data.len() <= j < size ==> #[trigger] resized(data, size)[j] == 0,
{
}

/// Identifiers are handed out counting up by one, and after the largest
/// 64-bit value comes zero.
pub proof fn law_ids_count_up(id: u64)
    ensures
        id < u64::MAX ==> successor(id) == id + 1,
        id == u64::MAX ==> successor(id) == 0,
{
}

/// The bytes of a list of names are the UTF-8 bytes of each name, in order.
pub proof fn law_name_bytes_are_utf8(names: Seq<String>, i: int)
    requires
        0 <= i < names.len(),
    ensures
        name_bytes(names).len() == names.len(),
        name_bytes(names)[i] == vstd::utf8::encode_utf8(names[i]@),
{
}

/// Text with no bytes is no number.
pub proof fn law_parse_empty()
    ensures
        parse_decimal_u64(Seq::<u8>::empty()) is None,
{
}

/// A single digit reads as its value.
pub proof fn law_parse_single_digit(c: u8)
    requires
        is_digit(c),
    ensures
        parse_decimal_u64(seq![c]) == Some((c - ASCII_ZERO) as u64),
{
    let d = seq![c];
    assert(digits_of(d) == d);
    assert(d.drop_last() =~= Seq::<u8>::empty());
    assert(decimal_value(d.drop_last()) == 0);
    assert(d.last() == c);
    assert(decimal_value(d) == (c - ASCII_ZERO));
    assert(forall|k: int| 0 <= k < d.len() ==> is_digit(#[trigger] d[k]));
}

/// Appending a digit to a number's text multiplies it by ten and adds the
/// digit, as long as the result fits in 64 bits; otherwise it is no number.
pub proof fn law_parse_append_digit(b: Seq<u8>, c: u8)
    requires
        parse_decimal_u64(b) is Some,
        is_digit(c),
    ensures
        ({
            let v = parse_decimal_u64(b)->0;
            let w = v * 10 + (c - ASCII_ZERO);
            parse_decimal_u64(b.push(c)) == (if w <= u64::MAX { Some(w as u64) } else { None::<u64> })
        }),
{
    let d = digits_of(b);
    let bc = b.push(c);
    assert(digits_of(bc) =~= d.push(c));
    assert(d.push(c).drop_last() =~= d);
    assert forall|k: int| 0 <= k < d.push(c).len() implies is_digit(#[trigger] d.push(c)[k]) by {
        if 0 <= k < d.len() {
            assert(d.push(c)[k] == d[k]);
        }
    }
}

/// One leading `+` before a number's text does not change what it reads as.
pub proof fn law_parse_plus(b: Seq<u8>)
    requires
        b.len() > 0,
        b[0] != ASCII_PLUS,
    ensures
        parse_decimal_u64(seq![ASCII_PLUS] + b) == parse_decimal_u64(b),
{
    let pb = seq![ASCII_PLUS] + b;
    assert(pb.drop_first() =~= b);
    assert(digits_of(pb) == b);
    assert(digits_of(b) == b);
}

/// Text with a byte that is not a digit, other than one leading `+` with
/// something after it, is no number.
pub proof fn law_parse_rejects_other_bytes(b: Seq<u8>, k: int)
    requires
        0 <= k < b.len(),
        !is_digit(b[k]),
        !(k == 0 && b[0] == ASCII_PLUS && b.len() > 1),
    ensures
        parse_decimal_u64(b) is None,
{
    let d = digits_of(b);
    if b.len() > 1 && b[0] == ASCII_PLUS {
        assert(d[k - 1] == b[k]);
    } else {
        assert(d[k] == b[k]);
    }
}

/// The largest number among names is at least every name's number, and is
/// either zero or the number of one of the names.
pub proof fn law_max_parsed_is_largest(names: Seq<Seq<u8>>)
    ensures
        forall|i: int|
            0 <= i < names.len() && (#[trigger] parse_decimal_u64(names[i])) is Some
                ==> parse_decimal_u64(names[i])->0 <= max_parsed(names),
        max_parsed(names) == 0 || exists|i: int|
            0 <= i < names.len() && #[trigger] parse_decimal_u64(names[i]) == Some(
                max_parsed(names) as u64,
            ),
    decreases names.len(),
{
    assert forall|i: int|
        0 <= i < names.len() && (#[trigger] parse_decimal_u64(names[i])) is Some implies parse_decimal_u64(
        names[i],
    )->0 <= max_parsed(names) by {
        crate::names::lemma_max_parsed_bounds(names, i);
    }
    if names.len() > 0 {
        let rest = names.drop_last();
        law_max_parsed_is_largest(rest);
        if max_parsed(names) != 0 {
            if max_parsed(names) == max_parsed(rest) {
                let i = choose|i: int|
                    0 <= i < rest.len() && #[trigger] parse_decimal_u64(rest[i]) == Some(
                        max_parsed(rest) as u64,
                    );
                assert(names[i] == rest[i]);
            } else {
                assert(parse_decimal_u64(names[names.len() - 1]) == Some(
                    max_parsed(names) as u64,
                ));
            }
        }
    }
}

/// A store made from a list of names hands out first an identifier above the
/// number of every name whose text reads as a 64-bit number, so it never
/// hands out first the key of an object already kept under such a name.
pub proof fn law_fresh_ids_above_string_names(names: Seq<String>, i: int)
    requires
        0 <= i < names.len(),
        parse_decimal_u64(vstd::utf8::encode_utf8(names[i]@)) is Some,
    ensures
        parse_decimal_u64(vstd::utf8::encode_utf8(names[i]@))->0 < max_parsed(name_bytes(names))
            + 1,
{
    law_name_bytes_are_utf8(names, i);
    crate::names::lemma_max_parsed_bounds(name_bytes(names), i);
}

} // verus!
