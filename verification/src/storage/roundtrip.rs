//! What loading a synced image gives back.
use vstd::prelude::*;
use vstd::bytes::{
    spec_u16_to_le_bytes, spec_u16_from_le_bytes, spec_u32_to_le_bytes, spec_u32_from_le_bytes,
    spec_u64_to_le_bytes, spec_u64_from_le_bytes, lemma_auto_spec_u16_to_from_le_bytes,
    lemma_auto_spec_u32_to_from_le_bytes, lemma_auto_spec_u64_to_from_le_bytes,
};
use super::disk_format::{
    zero_block, place, magic, chunk_len, superblock, continuation_blocks, blob_blocks, blobs_image,
    blk, u16_at, u32_at, u64_at, read_continuation, continuation_count, blob_size, read_blob, blob_span,
    read_blobs, blobs_end, has_superblock, insert_blobs, index_block, index_image, read_entry,
    read_entries, entry_fits, entries_fit, image_blobs, image_entries, overlay_entry, last_entry_for,
    decoded_path, sorted_ids,
};
use super::oxide_fs::{FileEntryView, entry_for, live_count, sorted_by_path, lemma_sorted_unique};
use super::path_order::lemma_path_lt_irreflexive;
use vstd::utf8::{encode_utf8, decode_utf8, valid_utf8};

verus! {

/// Reading back a range that `place` wrote gives what was written; other bytes are kept.
proof fn lemma_place_read(b: Seq<u8>, off: int, src: Seq<u8>, a: int, c: int)
    requires
        b.len() == 512,
        0 <= off,
        off + src.len() <= 512,
        0 <= a <= c <= 512,
    ensures
        place(b, off, src).len() == 512,
        a == off && c == off + src.len() ==> place(b, off, src).subrange(a, c) == src,
        c <= off || a >= off + src.len() ==> place(b, off, src).subrange(a, c) == b.subrange(a, c),
{
    let p = place(b, off, src);
    assert(p.len() == 512);
    if a == off && c == off + src.len() {
        assert(p.subrange(a, c) =~= src);
    }
    if c <= off || a >= off + src.len() {
        assert(p.subrange(a, c) =~= b.subrange(a, c));
    }
}

/// The superblock reads back its fields and its magic number.
pub proof fn lemma_superblock_fields(bc: u32, ic: u32, next: u64, total: u64)
    ensures
        superblock(bc, ic, next, total).take(8) == magic(),
        u32_at(superblock(bc, ic, next, total), 12) == bc,
        u32_at(superblock(bc, ic, next, total), 16) == ic,
        u64_at(superblock(bc, ic, next, total), 20) == next,
        u64_at(superblock(bc, ic, next, total), 28) == total,
        superblock(bc, ic, next, total).len() == 512,
{
    lemma_auto_spec_u32_to_from_le_bytes();
    lemma_auto_spec_u64_to_from_le_bytes();
    let z = zero_block();
    let b1 = place(z, 0, magic());
    let b2 = place(b1, 8, spec_u32_to_le_bytes(1));
    let b3 = place(b2, 12, spec_u32_to_le_bytes(bc));
    let b4 = place(b3, 16, spec_u32_to_le_bytes(ic));
    let b5 = place(b4, 20, spec_u64_to_le_bytes(next));
    let b6 = place(b5, 28, spec_u64_to_le_bytes(total));
    lemma_place_read(z, 0, magic(), 0, 8);
    lemma_place_read(b1, 8, spec_u32_to_le_bytes(1), 0, 8);
    lemma_place_read(b2, 12, spec_u32_to_le_bytes(bc), 0, 8);
    lemma_place_read(b3, 16, spec_u32_to_le_bytes(ic), 0, 8);
    lemma_place_read(b4, 20, spec_u64_to_le_bytes(next), 0, 8);
    lemma_place_read(b5, 28, spec_u64_to_le_bytes(total), 0, 8);
    assert(b6.take(8) =~= b6.subrange(0, 8));
    assert(b1.take(8) =~= b1.subrange(0, 8));
    lemma_place_read(b2, 12, spec_u32_to_le_bytes(bc), 12, 16);
    lemma_place_read(b3, 16, spec_u32_to_le_bytes(ic), 12, 16);
    lemma_place_read(b4, 20, spec_u64_to_le_bytes(next), 12, 16);
    lemma_place_read(b5, 28, spec_u64_to_le_bytes(total), 12, 16);
    lemma_place_read(b3, 16, spec_u32_to_le_bytes(ic), 16, 20);
    lemma_place_read(b4, 20, spec_u64_to_le_bytes(next), 16, 20);
    lemma_place_read(b5, 28, spec_u64_to_le_bytes(total), 16, 20);
    lemma_place_read(b4, 20, spec_u64_to_le_bytes(next), 20, 28);
    lemma_place_read(b5, 28, spec_u64_to_le_bytes(total), 20, 28);
    lemma_place_read(b5, 28, spec_u64_to_le_bytes(total), 28, 36);
}

proof fn lemma_sub_index(img: Seq<Seq<u8>>, p: int, x: Seq<Seq<u8>>, j: int)
    requires
        0 <= p,
        p + x.len() <= img.len(),
        img.subrange(p, p + x.len()) == x,
        0 <= j < x.len(),
    ensures
        img[p + j] == x[j],
        blk(img, p + j) == x[j],
{
    assert(img.subrange(p, p + x.len())[j] == img[p + j]);
}

proof fn lemma_sub_split(img: Seq<Seq<u8>>, p: int, x: Seq<Seq<u8>>, y: Seq<Seq<u8>>)
    requires
        0 <= p,
        p + x.len() + y.len() <= img.len(),
        img.subrange(p, p + (x + y).len()) == x + y,
    ensures
        img.subrange(p, p + x.len()) == x,
        img.subrange(p + x.len(), p + x.len() + y.len()) == y,
{
    assert forall|j: int| 0 <= j < x.len() implies img.subrange(p, p + x.len())[j] == x[j] by {
        assert(img.subrange(p, p + (x + y).len())[j] == (x + y)[j]);
    }
    assert forall|j: int| 0 <= j < y.len() implies img.subrange(p + x.len(), p + x.len() + y.len())[j] == y[j] by {
        assert(img.subrange(p, p + (x + y).len())[x.len() + j] == (x + y)[x.len() + j]);
    }
    assert(img.subrange(p, p + x.len()) =~= x);
    assert(img.subrange(p + x.len(), p + x.len() + y.len()) =~= y);
}

/// Continuation blocks read back the bytes they were made from.
proof fn lemma_read_continuation(img: Seq<Seq<u8>>, p: int, x: Seq<u8>)
    requires
        0 <= p,
        p + continuation_blocks(x).len() <= img.len(),
        img.subrange(p, p + continuation_blocks(x).len()) == continuation_blocks(x),
    ensures
        read_continuation(img, p, x.len()) == x,
        continuation_count(x.len()) == continuation_blocks(x).len(),
    decreases x.len(),
{
    if x.len() > 0 {
        let c = chunk_len(x.len() as int, 512);
        let head = seq![place(zero_block(), 0, x.take(c))];
        let rest = continuation_blocks(x.skip(c));
        assert(continuation_blocks(x) == head + rest);
        lemma_sub_split(img, p, head, rest);
        lemma_sub_index(img, p, head, 0);
        lemma_place_read(zero_block(), 0, x.take(c), 0, c);
        assert(blk(img, p).take(c) =~= x.take(c)) by {
            assert(blk(img, p).take(c) =~= place(zero_block(), 0, x.take(c)).subrange(0, c));
        }
        lemma_read_continuation(img, p + 1, x.skip(c));
        assert(x.skip(c).len() == x.len() - c);
        assert(x.take(c) + x.skip(c) =~= x);
    }
}

/// A blob's blocks read back its id and contents.
proof fn lemma_read_blob(img: Seq<Seq<u8>>, p: int, id: u64, d: Seq<u8>)
    requires
        d.len() <= u32::MAX,
        0 <= p,
        p + blob_blocks(id, d).len() <= img.len(),
        img.subrange(p, p + blob_blocks(id, d).len()) == blob_blocks(id, d),
    ensures
        read_blob(img, p) == (id, d),
        blob_span(img, p) == blob_blocks(id, d).len(),
{
    lemma_auto_spec_u32_to_from_le_bytes();
    lemma_auto_spec_u64_to_from_le_bytes();
    let first = chunk_len(d.len() as int, 500);
    let z = zero_block();
    let b1 = place(z, 0, spec_u64_to_le_bytes(id));
    let b2 = place(b1, 8, spec_u32_to_le_bytes(d.len() as u32));
    let b3 = place(b2, 12, d.take(first));
    let head = seq![b3];
    let rest = continuation_blocks(d.skip(first));
    assert(blob_blocks(id, d) == head + rest);
    lemma_sub_split(img, p, head, rest);
    lemma_sub_index(img, p, head, 0);
    lemma_place_read(z, 0, spec_u64_to_le_bytes(id), 0, 8);
    lemma_place_read(b1, 8, spec_u32_to_le_bytes(d.len() as u32), 0, 8);
    lemma_place_read(b2, 12, d.take(first), 0, 8);
    lemma_place_read(b1, 8, spec_u32_to_le_bytes(d.len() as u32), 8, 12);
    lemma_place_read(b2, 12, d.take(first), 8, 12);
    lemma_place_read(b2, 12, d.take(first), 12, 12 + first);
    assert(d.len() as u32 == d.len());
    assert(blob_size(img, p) == d.len());
    lemma_read_continuation(img, p + 1, d.skip(first));
    assert(d.take(first) + d.skip(first) =~= d);
}

/// The blob area reads back each blob, in order, and ends after the last one.
proof fn lemma_read_blobs(img: Seq<Seq<u8>>, p: int, m: Map<u64, Seq<u8>>, ids: Seq<u64>)
    requires
        forall|i: int| 0 <= i < ids.len() ==> #[trigger] m[ids[i]].len() <= u32::MAX,
        0 <= p,
        p + blobs_image(m, ids).len() <= img.len(),
        img.subrange(p, p + blobs_image(m, ids).len()) == blobs_image(m, ids),
    ensures
        read_blobs(img, ids.len(), p) == ids.map_values(|id: u64| (id, m[id])),
        blobs_end(img, ids.len(), p) == p + blobs_image(m, ids).len(),
    decreases ids.len(),
{
    if ids.len() == 0 {
        assert(ids.map_values(|id: u64| (id, m[id])) =~= Seq::<(u64, Seq<u8>)>::empty());
    } else {
        let first = blob_blocks(ids[0], m[ids[0]]);
        let rest = blobs_image(m, ids.skip(1));
        assert(blobs_image(m, ids) == first + rest);
        lemma_sub_split(img, p, first, rest);
        assert(m[ids[0]].len() <= u32::MAX);
        lemma_read_blob(img, p, ids[0], m[ids[0]]);
        assert forall|i: int| 0 <= i < ids.skip(1).len() implies #[trigger] m[ids.skip(1)[i]].len() <= u32::MAX by {
            assert(ids.skip(1)[i] == ids[i + 1]);
        }
        lemma_read_blobs(img, p + first.len(), m, ids.skip(1));
        assert(ids.map_values(|id: u64| (id, m[id])) =~= seq![(ids[0], m[ids[0]])] + ids.skip(1).map_values(|id: u64| (id, m[id])));
    }
}

/// Inserting, in order, the blobs of distinct `ids` over `acc` overrides `acc` with `m` on
/// those ids.
proof fn lemma_insert_blobs(acc: Map<u64, Seq<u8>>, m: Map<u64, Seq<u8>>, ids: Seq<u64>)
    requires
        ids.no_duplicates(),
    ensures
        insert_blobs(acc, ids.map_values(|id: u64| (id, m[id]))) == Map::new(
            |k: u64| acc.contains_key(k) || ids.contains(k),
            |k: u64| if ids.contains(k) { m[k] } else { acc[k] },
        ),
    decreases ids.len(),
{
    let s = ids.map_values(|id: u64| (id, m[id]));
    if ids.len() == 0 {
        assert(Map::new(
            |k: u64| acc.contains_key(k) || ids.contains(k),
            |k: u64| if ids.contains(k) { m[k] } else { acc[k] },
        ) =~= acc);
    } else {
        let t = ids.skip(1);
        assert(t.no_duplicates()) by {
            assert forall|i: int, j: int| 0 <= i < t.len() && 0 <= j < t.len() && i != j implies t[i] != t[j] by {
                assert(t[i] == ids[i + 1] && t[j] == ids[j + 1]);
            }
        }
        assert(s.skip(1) =~= t.map_values(|id: u64| (id, m[id])));
        let acc2 = acc.insert(ids[0], m[ids[0]]);
        lemma_insert_blobs(acc2, m, t);
        assert(!t.contains(ids[0])) by {
            if t.contains(ids[0]) {
                let j = choose|j: int| 0 <= j < t.len() && t[j] == ids[0];
                assert(ids[j + 1] == ids[0]);
            }
        }
        assert forall|k: u64| ids.contains(k) <==> (k == ids[0] || t.contains(k)) by {
            if ids.contains(k) && k != ids[0] {
                let j = choose|j: int| 0 <= j < ids.len() && ids[j] == k;
                assert(j > 0);
                assert(t[j - 1] == k);
            }
            if t.contains(k) {
                let j = choose|j: int| 0 <= j < t.len() && t[j] == k;
                assert(ids[j + 1] == k);
            }
            if k == ids[0] {
                assert(ids[0] == k);
            }
        }
        assert(Map::new(
            |k: u64| acc2.contains_key(k) || t.contains(k),
            |k: u64| if t.contains(k) { m[k] } else { acc2[k] },
        ) =~= Map::new(
            |k: u64| acc.contains_key(k) || ids.contains(k),
            |k: u64| if ids.contains(k) { m[k] } else { acc[k] },
        ));
    }
}

/// The entries that are not deleted, in order.
pub open spec fn live_entries(es: Seq<FileEntryView>) -> Seq<FileEntryView>
    decreases es.len(),
{
    if es.len() == 0 {
        seq![]
    } else {
        (if es[0].deleted {
            Seq::<FileEntryView>::empty()
        } else {
            seq![es[0]]
        }) + live_entries(es.skip(1))
    }
}

/// The live entry for path `p`.
pub open spec fn live_lookup(es: Seq<FileEntryView>, p: Seq<char>) -> Option<FileEntryView> {
    match entry_for(es, p) {
        Some(e) => if e.deleted {
            None
        } else {
            Some(e)
        },
        None => None,
    }
}

proof fn lemma_index_image(es: Seq<FileEntryView>)
    ensures
        index_image(es) == live_entries(es).map_values(|e: FileEntryView| index_block(e)),
    decreases es.len(),
{
    if es.len() > 0 {
        lemma_index_image(es.skip(1));
        let h = if es[0].deleted { Seq::<FileEntryView>::empty() } else { seq![es[0]] };
        assert((h + live_entries(es.skip(1))).map_values(|e: FileEntryView| index_block(e))
            =~= h.map_values(|e: FileEntryView| index_block(e)) + live_entries(es.skip(1)).map_values(|e: FileEntryView| index_block(e)));
    } else {
        assert(live_entries(es).map_values(|e: FileEntryView| index_block(e)) =~= Seq::<Seq<u8>>::empty());
    }
}

proof fn lemma_live_push(es: Seq<FileEntryView>, x: FileEntryView)
    ensures
        live_entries(es.push(x)) == live_entries(es) + (if x.deleted { Seq::<FileEntryView>::empty() } else { seq![x] }),
    decreases es.len(),
{
    if es.len() == 0 {
        assert(es.push(x).skip(1) =~= Seq::<FileEntryView>::empty());
        assert(live_entries(es.push(x).skip(1)) =~= Seq::<FileEntryView>::empty());
        assert(live_entries(es.push(x)) =~= (if x.deleted { Seq::<FileEntryView>::empty() } else { seq![x] }));
    } else {
        assert(es.push(x).skip(1) =~= es.skip(1).push(x));
        assert(es.push(x)[0] == es[0]);
        lemma_live_push(es.skip(1), x);
        let h = if es[0].deleted { Seq::<FileEntryView>::empty() } else { seq![es[0]] };
        let t = if x.deleted { Seq::<FileEntryView>::empty() } else { seq![x] };
        assert(h + (live_entries(es.skip(1)) + t) =~= (h + live_entries(es.skip(1))) + t);
    }
}

proof fn lemma_live_count(es: Seq<FileEntryView>)
    ensures
        live_count(es) == live_entries(es).len(),
    decreases es.len(),
{
    if es.len() > 0 {
        lemma_live_count(es.drop_last());
        lemma_live_push(es.drop_last(), es.last());
        assert(es.drop_last().push(es.last()) =~= es);
    }
}

/// An index block reads back its entry (as live), when the path's encoding fits.
proof fn lemma_read_index_block(img: Seq<Seq<u8>>, p: int, e: FileEntryView)
    requires
        encode_utf8(e.path).len() <= 255,
        !e.deleted,
        0 <= p < img.len(),
        img[p] == index_block(e),
    ensures
        read_entry(img, p) == e,
        entry_fits(img, p),
{
    lemma_auto_spec_u16_to_from_le_bytes();
    lemma_auto_spec_u64_to_from_le_bytes();
    let pb = encode_utf8(e.path);
    let plen = pb.len() as int;
    assert(chunk_len(plen, 255) == plen);
    let off = 2 + plen;
    let z = zero_block();
    let b1 = place(z, 0, spec_u16_to_le_bytes(plen as u16));
    let b2 = place(b1, 2, pb.take(plen));
    let b3 = place(b2, off, spec_u64_to_le_bytes(e.blob_id));
    let b4 = place(b3, off + 8, spec_u64_to_le_bytes(e.size));
    let b5 = place(b4, off + 16, spec_u64_to_le_bytes(e.created_tick));
    let b6 = place(b5, off + 24, spec_u64_to_le_bytes(e.modified_tick));
    assert(b6 == index_block(e));
    lemma_place_read(z, 0, spec_u16_to_le_bytes(plen as u16), 0, 2);
    lemma_place_read(b1, 2, pb.take(plen), 0, 2);
    lemma_place_read(b2, off, spec_u64_to_le_bytes(e.blob_id), 0, 2);
    lemma_place_read(b3, off + 8, spec_u64_to_le_bytes(e.size), 0, 2);
    lemma_place_read(b4, off + 16, spec_u64_to_le_bytes(e.created_tick), 0, 2);
    lemma_place_read(b5, off + 24, spec_u64_to_le_bytes(e.modified_tick), 0, 2);
    assert(plen as u16 == plen);
    lemma_place_read(b1, 2, pb.take(plen), 2, off);
    lemma_place_read(b2, off, spec_u64_to_le_bytes(e.blob_id), 2, off);
    lemma_place_read(b3, off + 8, spec_u64_to_le_bytes(e.size), 2, off);
    lemma_place_read(b4, off + 16, spec_u64_to_le_bytes(e.created_tick), 2, off);
    lemma_place_read(b5, off + 24, spec_u64_to_le_bytes(e.modified_tick), 2, off);
    lemma_place_read(b2, off, spec_u64_to_le_bytes(e.blob_id), off, off + 8);
    lemma_place_read(b3, off + 8, spec_u64_to_le_bytes(e.size), off, off + 8);
    lemma_place_read(b4, off + 16, spec_u64_to_le_bytes(e.created_tick), off, off + 8);
    lemma_place_read(b5, off + 24, spec_u64_to_le_bytes(e.modified_tick), off, off + 8);
    lemma_place_read(b3, off + 8, spec_u64_to_le_bytes(e.size), off + 8, off + 16);
    lemma_place_read(b4, off + 16, spec_u64_to_le_bytes(e.created_tick), off + 8, off + 16);
    lemma_place_read(b5, off + 24, spec_u64_to_le_bytes(e.modified_tick), off + 8, off + 16);
    lemma_place_read(b4, off + 16, spec_u64_to_le_bytes(e.created_tick), off + 16, off + 24);
    lemma_place_read(b5, off + 24, spec_u64_to_le_bytes(e.modified_tick), off + 16, off + 24);
    lemma_place_read(b5, off + 24, spec_u64_to_le_bytes(e.modified_tick), off + 24, off + 32);
    assert(pb.take(plen) =~= pb);
    vstd::utf8::encode_utf8_valid_utf8(e.path);
    vstd::utf8::encode_utf8_decode_utf8(e.path);
    assert(decoded_path(pb) == e.path);
}

/// Entry blocks read back the live entries.
proof fn lemma_read_entries(img: Seq<Seq<u8>>, p: int, live: Seq<FileEntryView>)
    requires
        forall|i: int| 0 <= i < live.len() ==> encode_utf8(#[trigger] live[i].path).len() <= 255 && !live[i].deleted,
        0 <= p,
        p + live.len() <= img.len(),
        img.subrange(p, p + live.len()) == live.map_values(|e: FileEntryView| index_block(e)),
    ensures
        read_entries(img, live.len(), p) == live,
        forall|i: int| 0 <= i < live.len() ==> #[trigger] entry_fits(img, p + i),
{
    let blocks = live.map_values(|e: FileEntryView| index_block(e));
    assert forall|i: int| 0 <= i < live.len() implies #[trigger] entry_fits(img, p + i) && read_entry(img, p + i) == live[i] by {
        lemma_sub_index(img, p, blocks, i);
        lemma_read_index_block(img, p + i, live[i]);
    }
    assert forall|i: int| 0 <= i < live.len() implies #[trigger] read_entries(img, live.len(), p)[i] == live[i] by {
        assert(entry_fits(img, p + i));
    }
    assert(read_entries(img, live.len(), p) =~= live);
}

proof fn lemma_last_entry_append(a: Seq<FileEntryView>, x: FileEntryView, p: Seq<char>)
    ensures
        last_entry_for(a.push(x), p) == if x.path == p { Some(x) } else { last_entry_for(a, p) },
{
    assert(a.push(x).drop_last() =~= a);
}

/// In path order, the last live entry with a path is the live entry for it.
proof fn lemma_live_lookup(es: Seq<FileEntryView>, p: Seq<char>)
    requires
        sorted_by_path(es),
    ensures
        last_entry_for(live_entries(es), p) == live_lookup(es, p),
    decreases es.len(),
{
    if es.len() == 0 {
        assert(live_entries(es) =~= Seq::<FileEntryView>::empty());
    } else {
        let d = es.drop_last();
        let x = es.last();
        assert(sorted_by_path(d));
        lemma_live_lookup(d, p);
        lemma_live_push(d, x);
        assert(d.push(x) =~= es);
        if !x.deleted {
            lemma_last_entry_append(live_entries(d), x, p);
        } else {
            assert(live_entries(d) + Seq::<FileEntryView>::empty() =~= live_entries(d));
        }
        lemma_sorted_unique(es, es.len() - 1);
        if x.path == p {
            // `p` occurs only last.
            if exists|k: int| 0 <= k < d.len() && d[k].path == p {
                let k = choose|k: int| 0 <= k < d.len() && d[k].path == p;
                assert(es[k] == d[k]);
                lemma_path_lt_irreflexive(p);
            }
        } else {
            if exists|k: int| 0 <= k < d.len() && d[k].path == p {
                let k = choose|k: int| 0 <= k < d.len() && d[k].path == p;
                assert(es[k] == d[k]);
                lemma_sorted_unique(es, k);
                lemma_sorted_unique(d, k);
            } else {
                assert(!exists|k: int| 0 <= k < es.len() && es[k].path == p) by {
                    if exists|k: int| 0 <= k < es.len() && es[k].path == p {
                        let k = choose|k: int| 0 <= k < es.len() && es[k].path == p;
                        if k < d.len() {
                            assert(d[k] == es[k]);
                        }
                    }
                }
            }
        }
    }
}

/// Loading the image that a sync produces gives back the filesystem: its counters, its
/// blobs and its live entries (deleted entries are not written). This holds when every
/// count and blob length fits the format's 32-bit fields and every live path's UTF-8
/// encoding fits the 255 bytes an index block keeps of it.
pub proof fn lemma_sync_load_round_trip(
    m: Map<u64, Seq<u8>>,
    ids: Seq<u64>,
    es: Seq<FileEntryView>,
    next: u64,
    total: u64,
)
    requires
        sorted_ids(ids, m.dom()),
        sorted_by_path(es),
        ids.len() <= u32::MAX,
        live_count(es) <= u32::MAX,
        forall|k: u64| #[trigger] m.contains_key(k) ==> m[k].len() <= u32::MAX,
        forall|i: int| 0 <= i < es.len() && !es[i].deleted ==> encode_utf8(#[trigger] es[i].path).len() <= 255,
    ensures
        ({
            let img = seq![superblock(m.len() as u32, live_count(es) as u32, next, total)]
                + blobs_image(m, ids) + index_image(es);
            &&& has_superblock(img)
            &&& entries_fit(img)
            &&& u64_at(img[0], 20) == next
            &&& u64_at(img[0], 28) == total
            &&& insert_blobs(Map::<u64, Seq<u8>>::empty(), image_blobs(img)) == m
            &&& forall|p: Seq<char>| #[trigger] overlay_entry(Seq::<FileEntryView>::empty(), image_entries(img), p)
                == live_lookup(es, p)
        }),
{
    // Ids are distinct and as many as the blobs.
    assert(ids.no_duplicates()) by {
        assert forall|i: int, j: int| 0 <= i < ids.len() && 0 <= j < ids.len() && i != j implies ids[i] != ids[j] by {
            if i < j {
                assert(ids[i] < ids[j]);
            } else {
                assert(ids[j] < ids[i]);
            }
        }
    }
    ids.unique_seq_to_set();
    assert(m.len() == ids.len());
    let bc = m.len() as u32;
    let ic = live_count(es) as u32;
    let sb = superblock(bc, ic, next, total);
    let bi = blobs_image(m, ids);
    let ii = index_image(es);
    let img = seq![sb] + bi + ii;
    lemma_superblock_fields(bc, ic, next, total);
    assert(img[0] == sb);
    assert(has_superblock(img));
    // Blobs.
    assert(img.subrange(1, 1 + bi.len() as int) =~= bi);
    assert forall|i: int| 0 <= i < ids.len() implies #[trigger] m[ids[i]].len() <= u32::MAX by {
        assert(ids.to_set().contains(ids[i]));
    }
    lemma_read_blobs(img, 1, m, ids);
    assert(bc == ids.len());
    assert(image_blobs(img) == ids.map_values(|id: u64| (id, m[id])));
    lemma_insert_blobs(Map::<u64, Seq<u8>>::empty(), m, ids);
    assert(insert_blobs(Map::<u64, Seq<u8>>::empty(), image_blobs(img)) =~= m) by {
        assert forall|k: u64| ids.contains(k) <==> m.contains_key(k) by {
            assert(ids.to_set().contains(k) <==> ids.contains(k));
        }
    }
    // Entries.
    let live = live_entries(es);
    lemma_index_image(es);
    lemma_live_count(es);
    assert(ic == live.len());
    let end: int = 1 + bi.len() as int;
    assert(blobs_end(img, bc as nat, 1) == end);
    assert(img.subrange(end, end + live.len() as int) =~= ii);
    assert forall|i: int| 0 <= i < live.len() implies encode_utf8(#[trigger] live[i].path).len() <= 255 && !live[i].deleted by {
        lemma_live_member(es, i);
    }
    lemma_read_entries(img, end, live);
    assert(image_entries(img) == live);
    assert forall|p: Seq<char>| #[trigger] overlay_entry(Seq::<FileEntryView>::empty(), image_entries(img), p)
        == live_lookup(es, p) by {
        lemma_live_lookup(es, p);
    }
}

/// Each live entry is a live entry of `es` with a path that fits.
proof fn lemma_live_member(es: Seq<FileEntryView>, i: int)
    requires
        forall|k: int| 0 <= k < es.len() && !es[k].deleted ==> encode_utf8(#[trigger] es[k].path).len() <= 255,
        0 <= i < live_entries(es).len(),
    ensures
        encode_utf8(live_entries(es)[i].path).len() <= 255,
        !live_entries(es)[i].deleted,
    decreases es.len(),
{
    if es.len() > 0 {
        let h = if es[0].deleted { Seq::<FileEntryView>::empty() } else { seq![es[0]] };
        if i < h.len() {
            assert(live_entries(es)[i] == es[0]);
        } else {
            assert forall|k: int| 0 <= k < es.skip(1).len() && !es.skip(1)[k].deleted implies encode_utf8(#[trigger] es.skip(1)[k].path).len() <= 255 by {
                assert(es.skip(1)[k] == es[k + 1]);
            }
            lemma_live_member(es.skip(1), i - h.len());
            assert(live_entries(es)[i] == live_entries(es.skip(1))[i - h.len()]);
        }
    }
}

} // verus!
