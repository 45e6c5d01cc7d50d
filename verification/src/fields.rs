//! Byte strings and lists of fixed-width items, each behind a compact length
//! prefix, as they appear in the stored voting-session records.

use crate::scale::{
    compact_u32_bytes, compact_u32_prefix, le_u32_bytes, le_u32_value, lemma_compact_u32_roundtrip,
    lemma_compact_u32_prefix_len,
    lemma_le_u32_roundtrip, push_compact_u32, read_compact_u32, read_u32,
};
use vstd::prelude::*;
use vstd::slice::{slice_subrange, slice_to_vec};

verus! {

/// The `width` bytes at `pos`, and the position after them.
pub open spec fn fixed_at(s: Seq<u8>, pos: int, width: nat) -> Option<(Seq<u8>, int)> {
    if 0 <= pos && pos + width <= s.len() {
        Some((s.subrange(pos, pos + width), pos + width))
    } else {
        None
    }
}

/// The little-endian `u32` at `pos`, and the position after it.
pub open spec fn u32_at(s: Seq<u8>, pos: int) -> Option<(u32, int)> {
    if 0 <= pos && pos + 4 <= s.len() {
        Some((le_u32_value(s.skip(pos)) as u32, pos + 4))
    } else {
        None
    }
}

/// A length-prefixed byte string at `pos` whose length may not exceed `bound`.
pub open spec fn bytes_at(s: Seq<u8>, pos: int, bound: u32) -> Option<(Seq<u8>, int)> {
    if pos < 0 || pos > s.len() {
        None
    } else {
        match compact_u32_prefix(s.skip(pos)) {
            None => None,
            Some((len, n)) => if len > bound {
                None
            } else {
                fixed_at(s, pos + n, len as nat)
            },
        }
    }
}

/// `count` consecutive items of `width` bytes each, starting at `pos`.
pub open spec fn items_at(s: Seq<u8>, pos: int, count: nat, width: nat) -> Option<
    (Seq<Seq<u8>>, int),
>
    decreases count,
{
    if count == 0 {
        if 0 <= pos <= s.len() {
            Some((Seq::empty(), pos))
        } else {
            None
        }
    } else {
        match items_at(s, pos, (count - 1) as nat, width) {
            None => None,
            Some((items, end)) => match fixed_at(s, end, width) {
                None => None,
                Some((x, e)) => Some((items.push(x), e)),
            },
        }
    }
}

/// A length-prefixed list of `width`-byte items at `pos`, holding at most
/// `bound` items.
pub open spec fn list_at(s: Seq<u8>, pos: int, bound: u32, width: nat) -> Option<
    (Seq<Seq<u8>>, int),
> {
    if pos < 0 || pos > s.len() {
        None
    } else {
        match compact_u32_prefix(s.skip(pos)) {
            None => None,
            Some((len, n)) => if len > bound {
                None
            } else {
                items_at(s, pos + n, len as nat, width)
            },
        }
    }
}

/// The items, one after the other.
pub open spec fn concat(items: Seq<Seq<u8>>) -> Seq<u8>
    decreases items.len(),
{
    if items.len() == 0 {
        Seq::empty()
    } else {
        concat(items.drop_last()) + items.last()
    }
}

/// Encoding of a byte string: its compact length, then its bytes.
pub open spec fn bytes_enc(x: Seq<u8>) -> Seq<u8> {
    compact_u32_bytes(x.len() as u32) + x
}

/// Encoding of a list: its compact length, then its items.
pub open spec fn list_enc(items: Seq<Seq<u8>>) -> Seq<u8> {
    compact_u32_bytes(items.len() as u32) + concat(items)
}

/// Every item is `width` bytes long.
pub open spec fn all_width(items: Seq<Seq<u8>>, width: nat) -> bool {
    forall|i: int| 0 <= i < items.len() ==> #[trigger] items[i].len() == width
}

/// The byte contents of a list of vectors.
pub open spec fn views(items: Seq<Vec<u8>>) -> Seq<Seq<u8>> {
    items.map_values(|x: Vec<u8>| x@)
}

pub proof fn lemma_compact_at(pre: Seq<u8>, v: u32, tail: Seq<u8>)
    ensures
        compact_u32_prefix((pre + compact_u32_bytes(v) + tail).skip(pre.len() as int)) == Some(
            (v, compact_u32_bytes(v).len()),
        ),
{
    assert((pre + compact_u32_bytes(v) + tail).skip(pre.len() as int) =~= compact_u32_bytes(v)
        + tail);
    lemma_compact_u32_roundtrip(v, tail);
}

pub proof fn lemma_u32_roundtrip(pre: Seq<u8>, v: u32, tail: Seq<u8>)
    ensures
        u32_at(pre + le_u32_bytes(v as int) + tail, pre.len() as int) == Some(
            (v, (pre.len() + 4) as int),
        ),
{
    let s = pre + le_u32_bytes(v as int) + tail;
    assert(s.skip(pre.len() as int) =~= le_u32_bytes(v as int) + tail);
    lemma_le_u32_roundtrip(v as int, tail);
}

pub proof fn lemma_fixed_roundtrip(pre: Seq<u8>, x: Seq<u8>, tail: Seq<u8>)
    ensures
        fixed_at(pre + x + tail, pre.len() as int, x.len()) == Some(
            (x, (pre.len() + x.len()) as int),
        ),
{
    assert((pre + x + tail).subrange(pre.len() as int, (pre.len() + x.len()) as int) =~= x);
}

/// A byte string within its bound, encoded between any bytes, decodes back
/// to itself and ends right after its encoding.
pub proof fn lemma_bytes_roundtrip(pre: Seq<u8>, x: Seq<u8>, tail: Seq<u8>, bound: u32)
    requires
        x.len() <= bound,
    ensures
        bytes_at(pre + bytes_enc(x) + tail, pre.len() as int, bound) == Some(
            (x, (pre.len() + bytes_enc(x).len()) as int),
        ),
{
    let c = compact_u32_bytes(x.len() as u32);
    let s = pre + bytes_enc(x) + tail;
    assert(s =~= pre + c + (x + tail));
    lemma_compact_at(pre, x.len() as u32, x + tail);
    assert(s =~= (pre + c) + x + tail);
    lemma_fixed_roundtrip(pre + c, x, tail);
}

/// Items of the given width, laid out between any bytes, decode back to
/// themselves.
pub proof fn lemma_items_roundtrip(pre: Seq<u8>, items: Seq<Seq<u8>>, tail: Seq<u8>, width: nat)
    requires
        all_width(items, width),
    ensures
        items_at(pre + concat(items) + tail, pre.len() as int, items.len(), width) == Some(
            (items, (pre.len() + concat(items).len()) as int),
        ),
    decreases items.len(),
{
    if items.len() == 0 {
        assert(items =~= Seq::<Seq<u8>>::empty());
    } else {
        let dl = items.drop_last();
        let last = items.last();
        assert(all_width(dl, width)) by {
            assert forall|i: int| 0 <= i < dl.len() implies #[trigger] dl[i].len() == width by {
                assert(dl[i] == items[i]);
            }
        }
        assert(last.len() == width) by {
            assert(items[items.len() - 1].len() == width);
        }
        let s = pre + concat(items) + tail;
        assert(s =~= pre + concat(dl) + (last + tail));
        lemma_items_roundtrip(pre, dl, last + tail, width);
        assert(s =~= (pre + concat(dl)) + last + tail);
        lemma_fixed_roundtrip(pre + concat(dl), last, tail);
        assert(dl.push(last) =~= items);
    }
}

/// A list within its bound, of items of the given width, encoded between any
/// bytes, decodes back to itself.
pub proof fn lemma_list_roundtrip(
    pre: Seq<u8>,
    items: Seq<Seq<u8>>,
    tail: Seq<u8>,
    bound: u32,
    width: nat,
)
    requires
        items.len() <= bound,
        all_width(items, width),
    ensures
        list_at(pre + list_enc(items) + tail, pre.len() as int, bound, width) == Some(
            (items, (pre.len() + list_enc(items).len()) as int),
        ),
{
    let c = compact_u32_bytes(items.len() as u32);
    let s = pre + list_enc(items) + tail;
    assert(s =~= pre + c + (concat(items) + tail));
    lemma_compact_at(pre, items.len() as u32, concat(items) + tail);
    assert(s =~= (pre + c) + concat(items) + tail);
    lemma_items_roundtrip(pre + c, items, tail, width);
}

/// What a decoded list looks like: no more items than its bound, each of the
/// given width, ending within the input.
pub proof fn lemma_list_shape(s: Seq<u8>, pos: int, bound: u32, width: nat)
    ensures
        list_at(s, pos, bound, width) matches Some((items, e)) ==> {
            &&& items.len() <= bound
            &&& all_width(items, width)
            &&& pos <= e <= s.len()
        },
{
    if 0 <= pos <= s.len() {
        if let Some((len, n)) = compact_u32_prefix(s.skip(pos)) {
            lemma_items_shape(s, pos + n, len as nat, width);
        }
    }
}

/// Decoded items: exactly `count` of them, each of the given width, ending
/// within the input.
pub proof fn lemma_items_shape(s: Seq<u8>, pos: int, count: nat, width: nat)
    ensures
        items_at(s, pos, count, width) matches Some((items, e)) ==> {
            &&& items.len() == count
            &&& all_width(items, width)
            &&& pos <= e <= s.len()
        },
    decreases count,
{
    if count > 0 {
        lemma_items_shape(s, pos, (count - 1) as nat, width);
        if let Some((items, e)) = items_at(s, pos, (count - 1) as nat, width) {
            if let Some((x, e2)) = fixed_at(s, e, width) {
                let all = items.push(x);
                assert forall|i: int| 0 <= i < all.len() implies #[trigger] all[i].len() == width by {
                    if i < items.len() {
                        assert(all[i] == items[i]);
                    }
                }
            }
        }
    }
}

/// A decoded byte string stays within its bound and ends within the input.
pub proof fn lemma_bytes_shape(s: Seq<u8>, pos: int, bound: u32)
    ensures
        bytes_at(s, pos, bound) matches Some((x, e)) ==> x.len() <= bound && pos <= e <= s.len(),
{
}

/// The `width` bytes at `pos` and the position after them.
pub fn read_fixed(s: &[u8], pos: usize, width: usize) -> (r: Option<(Vec<u8>, usize)>)
    ensures
        r is None <==> fixed_at(s@, pos as int, width as nat) is None,
        r matches Some((v, e)) ==> fixed_at(s@, pos as int, width as nat) == Some((v@, e as int)),
{
    if pos <= s.len() && width <= s.len() - pos {
        let v = slice_to_vec(slice_subrange(s, pos, pos + width));
        Some((v, pos + width))
    } else {
        None
    }
}

/// The little-endian `u32` at `pos` and the position after it.
pub fn read_u32_at(s: &[u8], pos: usize) -> (r: Option<(u32, usize)>)
    ensures
        r is None <==> u32_at(s@, pos as int) is None,
        r matches Some((v, e)) ==> u32_at(s@, pos as int) == Some((v, e as int)),
{
    if pos > s.len() {
        return None;
    }
    read_u32(s, pos)
}

/// A length-prefixed byte string at `pos` of at most `bound` bytes.
pub fn read_bytes(s: &[u8], pos: usize, bound: u32) -> (r: Option<(Vec<u8>, usize)>)
    ensures
        r is None <==> bytes_at(s@, pos as int, bound) is None,
        r matches Some((v, e)) ==> bytes_at(s@, pos as int, bound) == Some((v@, e as int)),
{
    if pos > s.len() {
        return None;
    }
    proof {
        lemma_compact_u32_prefix_len(s@.skip(pos as int));
    }
    match read_compact_u32(s, pos) {
        None => None,
        Some((len, after)) => {
            if len > bound {
                None
            } else {
                read_fixed(s, after, len as usize)
            }
        },
    }
}

/// `count` items of `width` bytes each, starting at `pos`.
pub fn read_items(s: &[u8], pos: usize, count: u32, width: usize) -> (r: Option<
    (Vec<Vec<u8>>, usize),
>)
    requires
        pos <= s@.len(),
    ensures
        r is None <==> items_at(s@, pos as int, count as nat, width as nat) is None,
        r matches Some((v, e)) ==> items_at(s@, pos as int, count as nat, width as nat) == Some((views(v@), e as int)),
{
    let mut out: Vec<Vec<u8>> = Vec::new();
    let mut end = pos;
    let mut i: u32 = 0;
    assert(views(out@) =~= Seq::<Seq<u8>>::empty());
    while i < count
        invariant
            i <= count,
            pos <= s@.len(),
            items_at(s@, pos as int, i as nat, width as nat) == Some((views(out@), end as int)),
        decreases count - i,
    {
        proof {
            lemma_items_end_in_bounds(s@, pos as int, i as nat, width as nat);
        }
        match read_fixed(s, end, width) {
            None => {
                proof {
                    lemma_items_fail_persists(s@, pos as int, (i + 1) as nat, count as nat, width as nat);
                }
                return None;
            },
            Some((x, e)) => {
                let ghost before = out@;
                out.push(x);
                assert(views(out@) =~= views(before).push(x@));
                end = e;
                i = i + 1;
            },
        }
    }
    Some((out, end))
}

/// Where `count` items decode, their end lies within `s`.
proof fn lemma_items_end_in_bounds(s: Seq<u8>, pos: int, count: nat, width: nat)
    ensures
        items_at(s, pos, count, width) matches Some((_, e)) ==> pos <= e <= s.len(),
    decreases count,
{
    if count > 0 {
        lemma_items_end_in_bounds(s, pos, (count - 1) as nat, width);
    }
}

/// Where fewer items already fail to decode, more items fail too.
proof fn lemma_items_fail_persists(s: Seq<u8>, pos: int, k: nat, count: nat, width: nat)
    requires
        k <= count,
        items_at(s, pos, k, width) is None,
    ensures
        items_at(s, pos, count, width) is None,
    decreases count - k,
{
    if k < count {
        lemma_items_fail_persists(s, pos, k + 1, count, width);
    }
}

/// A length-prefixed list at `pos` of at most `bound` items of `width` bytes.
pub fn read_list(s: &[u8], pos: usize, bound: u32, width: usize) -> (r: Option<
    (Vec<Vec<u8>>, usize),
>)
    ensures
        r is None <==> list_at(s@, pos as int, bound, width as nat) is None,
        r matches Some((v, e)) ==> list_at(s@, pos as int, bound, width as nat) == Some((views(v@), e as int)),
{
    if pos > s.len() {
        return None;
    }
    proof {
        lemma_compact_u32_prefix_len(s@.skip(pos as int));
    }
    match read_compact_u32(s, pos) {
        None => None,
        Some((len, after)) => {
            if len > bound {
                None
            } else {
                read_items(s, after, len, width)
            }
        },
    }
}

/// Appends the encoding of the byte string `x` to `out`.
pub fn push_bytes(out: &mut Vec<u8>, x: &Vec<u8>)
    requires
        x@.len() <= u32::MAX,
    ensures
        final(out)@ == old(out)@ + bytes_enc(x@),
{
    push_compact_u32(out, x.len() as u32);
    let ghost mid = out@;
    out.extend_from_slice(x.as_slice());
    assert(out@ =~= mid + x@);
}

/// Appends the encoding of the list `items` to `out`.
pub fn push_list(out: &mut Vec<u8>, items: &Vec<Vec<u8>>)
    requires
        items@.len() <= u32::MAX,
    ensures
        final(out)@ == old(out)@ + list_enc(views(items@)),
{
    let ghost start = out@;
    push_compact_u32(out, items.len() as u32);
    let ghost mid = out@;
    let n = items.len();
    let mut i: usize = 0;
    assert(views(items@).take(0) =~= Seq::<Seq<u8>>::empty());
    while i < n
        invariant
            n == items@.len(),
            i <= n,
            out@ == mid + concat(views(items@).take(i as int)),
        decreases n - i,
    {
        let ghost before = out@;
        out.extend_from_slice(items[i].as_slice());
        assert(out@ =~= before + items@[i as int]@);
        assert(views(items@).take(i + 1).drop_last() =~= views(items@).take(i as int));
        assert(out@ =~= mid + concat(views(items@).take(i + 1)));
        i = i + 1;
    }
    assert(views(items@).take(n as int) =~= views(items@));
    assert(views(items@).len() == items@.len());
}

} // verus!
