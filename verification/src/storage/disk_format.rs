use vstd::prelude::*;
use vstd::bytes::{
    spec_u16_to_le_bytes, spec_u16_from_le_bytes, spec_u32_to_le_bytes, spec_u32_from_le_bytes,
    spec_u64_to_le_bytes, spec_u64_from_le_bytes, u16_to_le_bytes, u16_from_le_bytes,
    u32_to_le_bytes, u32_from_le_bytes, u64_to_le_bytes, u64_from_le_bytes,
};
use vstd::slice::slice_subrange;
use vstd::string::StringExecFns;
use vstd::utf8::{encode_utf8, decode_utf8, valid_utf8};
use super::oxide_fs::{FileEntry, FileEntryView};

verus! {

/// A block of zero bytes.
pub open spec fn zero_block() -> Seq<u8> {
    Seq::new(512, |i: int| 0u8)
}

/// `b` with `src` written at offset `off`.
pub open spec fn place(b: Seq<u8>, off: int, src: Seq<u8>) -> Seq<u8> {
    b.take(off) + src + b.skip(off + src.len())
}

/// A block of zeros.
pub fn zeroed() -> (b: [u8; 512])
    ensures
        b@ == zero_block(),
{
    let b = [0u8; 512];
    assert(b@ =~= zero_block());
    b
}

/// Write `src` into `block` at offset `off`.
pub fn put(block: &mut [u8; 512], off: usize, src: &[u8])
    requires
        off + src@.len() <= 512,
    ensures
        final(block)@ == place(old(block)@, off as int, src@),
{
    let mut i: usize = 0;
    while i < src.len()
        invariant
            i <= src@.len(),
            off + src@.len() <= 512,
            block@.len() == 512,
            block@ == place(old(block)@, off as int, src@.take(i as int)),
        decreases src@.len() - i,
    {
        block[off + i] = src[i];
        i = i + 1;
        assert(block@ =~= place(old(block)@, off as int, src@.take(i as int)));
    }
    assert(src@.take(i as int) =~= src@);
}

/// The on-disk magic number, `"OXIDEFS\0"`.
pub open spec fn magic() -> Seq<u8> {
    seq![0x4fu8, 0x58u8, 0x49u8, 0x44u8, 0x45u8, 0x46u8, 0x53u8, 0x00u8]
}

/// The shorter of `n` and `cap`.
pub open spec fn chunk_len(n: int, cap: int) -> int {
    if n < cap {
        n
    } else {
        cap
    }
}

/// The contents of a list of blocks.
pub open spec fn views(v: Seq<[u8; 512]>) -> Seq<Seq<u8>> {
    v.map_values(|b: [u8; 512]| b@)
}

/// Block 0: magic, format version 1, blob count, live entry count, next blob id and bytes
/// stored, little-endian.
pub open spec fn superblock(blob_count: u32, index_count: u32, next_blob: u64, total: u64) -> Seq<u8> {
    let b = place(zero_block(), 0, magic());
    let b = place(b, 8, spec_u32_to_le_bytes(1));
    let b = place(b, 12, spec_u32_to_le_bytes(blob_count));
    let b = place(b, 16, spec_u32_to_le_bytes(index_count));
    let b = place(b, 20, spec_u64_to_le_bytes(next_blob));
    place(b, 28, spec_u64_to_le_bytes(total))
}

/// The blocks holding `d` after a blob's first block, 512 bytes each.
pub open spec fn continuation_blocks(d: Seq<u8>) -> Seq<Seq<u8>>
    decreases d.len(),
{
    if d.len() == 0 {
        seq![]
    } else {
        let c = chunk_len(d.len() as int, 512);
        seq![place(zero_block(), 0, d.take(c))] + continuation_blocks(d.skip(c))
    }
}

/// The blocks of one blob: a header block (id, length, first 500 bytes), then the rest.
pub open spec fn blob_blocks(id: u64, data: Seq<u8>) -> Seq<Seq<u8>> {
    let first = chunk_len(data.len() as int, 500);
    let b = place(zero_block(), 0, spec_u64_to_le_bytes(id));
    let b = place(b, 8, spec_u32_to_le_bytes(data.len() as u32));
    let b = place(b, 12, data.take(first));
    seq![b] + continuation_blocks(data.skip(first))
}

/// The blocks of the blobs of `m` taken in the order of `ids`.
pub open spec fn blobs_image(m: Map<u64, Seq<u8>>, ids: Seq<u64>) -> Seq<Seq<u8>>
    decreases ids.len(),
{
    if ids.len() == 0 {
        seq![]
    } else {
        blob_blocks(ids[0], m[ids[0]]) + blobs_image(m, ids.skip(1))
    }
}

/// `ids` lists the set `s` in increasing order.
pub open spec fn sorted_ids(ids: Seq<u64>, s: Set<u64>) -> bool {
    &&& forall|i: int, j: int| 0 <= i < j < ids.len() ==> ids[i] < ids[j]
    &&& ids.to_set() == s
}

/// The block of one index entry: path length, at most 255 bytes of the path's UTF-8
/// encoding, blob id, size, creation and modification ticks.
pub open spec fn index_block(e: FileEntryView) -> Seq<u8> {
    let pb = encode_utf8(e.path);
    let plen = chunk_len(pb.len() as int, 255);
    let off = 2 + plen;
    let b = place(zero_block(), 0, spec_u16_to_le_bytes(plen as u16));
    let b = place(b, 2, pb.take(plen));
    let b = place(b, off, spec_u64_to_le_bytes(e.blob_id));
    let b = place(b, off + 8, spec_u64_to_le_bytes(e.size));
    let b = place(b, off + 16, spec_u64_to_le_bytes(e.created_tick));
    place(b, off + 24, spec_u64_to_le_bytes(e.modified_tick))
}

/// One block per entry that is not deleted, in order.
pub open spec fn index_image(es: Seq<FileEntryView>) -> Seq<Seq<u8>>
    decreases es.len(),
{
    if es.len() == 0 {
        seq![]
    } else {
        (if es[0].deleted {
            Seq::<Seq<u8>>::empty()
        } else {
            seq![index_block(es[0])]
        }) + index_image(es.skip(1))
    }
}

/// Block `n` of `img`; a block past the end reads as zeros.
pub open spec fn blk(img: Seq<Seq<u8>>, n: int) -> Seq<u8> {
    if 0 <= n < img.len() {
        img[n]
    } else {
        zero_block()
    }
}

pub open spec fn u16_at(b: Seq<u8>, off: int) -> u16 {
    spec_u16_from_le_bytes(b.subrange(off, off + 2))
}

pub open spec fn u32_at(b: Seq<u8>, off: int) -> u32 {
    spec_u32_from_le_bytes(b.subrange(off, off + 4))
}

pub open spec fn u64_at(b: Seq<u8>, off: int) -> u64 {
    spec_u64_from_le_bytes(b.subrange(off, off + 8))
}

/// `rem` bytes read from continuation blocks starting at block `p`.
pub open spec fn read_continuation(img: Seq<Seq<u8>>, p: int, rem: nat) -> Seq<u8>
    decreases rem,
{
    if rem == 0 {
        seq![]
    } else {
        let c = chunk_len(rem as int, 512);
        blk(img, p).take(c) + read_continuation(img, p + 1, (rem - c) as nat)
    }
}

/// Number of continuation blocks that hold `rem` bytes.
pub open spec fn continuation_count(rem: nat) -> nat
    decreases rem,
{
    if rem == 0 {
        0
    } else {
        1 + continuation_count((rem - chunk_len(rem as int, 512)) as nat)
    }
}

/// Length recorded in the blob header at block `pos`.
pub open spec fn blob_size(img: Seq<Seq<u8>>, pos: int) -> u32 {
    u32_at(blk(img, pos), 8)
}

/// The blob whose header block is `pos`: its id and contents.
pub open spec fn read_blob(img: Seq<Seq<u8>>, pos: int) -> (u64, Seq<u8>) {
    let b = blk(img, pos);
    let size = blob_size(img, pos) as int;
    let first = chunk_len(size, 500);
    (u64_at(b, 0), b.subrange(12, 12 + first) + read_continuation(img, pos + 1, (size - first) as nat))
}

/// Number of blocks of the blob whose header block is `pos`.
pub open spec fn blob_span(img: Seq<Seq<u8>>, pos: int) -> int {
    let size = blob_size(img, pos) as int;
    1 + continuation_count((size - chunk_len(size, 500)) as nat) as int
}

/// The `k` blobs stored from block `pos` on.
pub open spec fn read_blobs(img: Seq<Seq<u8>>, k: nat, pos: int) -> Seq<(u64, Seq<u8>)>
    decreases k,
{
    if k == 0 {
        seq![]
    } else {
        seq![read_blob(img, pos)] + read_blobs(img, (k - 1) as nat, pos + blob_span(img, pos))
    }
}

/// The block after the `k` blobs stored from block `pos` on.
pub open spec fn blobs_end(img: Seq<Seq<u8>>, k: nat, pos: int) -> int
    decreases k,
{
    if k == 0 {
        pos
    } else {
        blobs_end(img, (k - 1) as nat, pos + blob_span(img, pos))
    }
}

/// The string whose UTF-8 encoding is `bytes`, or the empty string when `bytes` is not
/// valid UTF-8.
pub open spec fn decoded_path(bytes: Seq<u8>) -> Seq<char> {
    if valid_utf8(bytes) {
        decode_utf8(bytes)
    } else {
        seq![]
    }
}

/// The path length recorded in entry block `pos` leaves room for the entry's fields.
pub open spec fn entry_fits(img: Seq<Seq<u8>>, pos: int) -> bool {
    u16_at(blk(img, pos), 0) <= 478
}

/// The entry stored in block `pos`, read back as live.
pub open spec fn read_entry(img: Seq<Seq<u8>>, pos: int) -> FileEntryView {
    let b = blk(img, pos);
    let off = 2 + u16_at(b, 0) as int;
    FileEntryView {
        path: decoded_path(b.subrange(2, off)),
        blob_id: u64_at(b, off),
        size: u64_at(b, off + 8),
        created_tick: u64_at(b, off + 16),
        modified_tick: u64_at(b, off + 24),
        deleted: false,
    }
}

/// The `k` entries stored from block `pos` on.
pub open spec fn read_entries(img: Seq<Seq<u8>>, k: nat, pos: int) -> Seq<FileEntryView> {
    Seq::new(k, |i: int| read_entry(img, pos + i))
}

/// `m` after inserting the blobs of `s` in order.
pub open spec fn insert_blobs(m: Map<u64, Seq<u8>>, s: Seq<(u64, Seq<u8>)>) -> Map<u64, Seq<u8>>
    decreases s.len(),
{
    if s.len() == 0 {
        m
    } else {
        insert_blobs(m.insert(s[0].0, s[0].1), s.skip(1))
    }
}

/// The superblock for the given counts.
pub fn superblock_block(blob_count: u32, index_count: u32, next_blob: u64, total: u64) -> (b: [u8; 512])
    ensures
        b@ == superblock(blob_count, index_count, next_blob, total),
{
    let mut b = zeroed();
    let m: [u8; 8] = [0x4f, 0x58, 0x49, 0x44, 0x45, 0x46, 0x53, 0x00];
    assert(m@ =~= magic());
    put(&mut b, 0, &m);
    put(&mut b, 8, u32_to_le_bytes(1).as_slice());
    put(&mut b, 12, u32_to_le_bytes(blob_count).as_slice());
    put(&mut b, 16, u32_to_le_bytes(index_count).as_slice());
    put(&mut b, 20, u64_to_le_bytes(next_blob).as_slice());
    put(&mut b, 28, u64_to_le_bytes(total).as_slice());
    b
}

proof fn lemma_views_push(v: Seq<[u8; 512]>, b: [u8; 512])
    ensures
        views(v.push(b)) == views(v).push(b@),
{
    assert(views(v.push(b)) =~= views(v).push(b@));
}

/// Append the blocks of blob `id` holding `data`.
pub fn push_blob_blocks(out: &mut Vec<[u8; 512]>, id: u64, data: &[u8])
    ensures
        views(final(out)@) == views(old(out)@) + blob_blocks(id, data@),
{
    let len = data.len();
    let first: usize = if len < 500 { len } else { 500 };
    let mut b = zeroed();
    put(&mut b, 0, u64_to_le_bytes(id).as_slice());
    put(&mut b, 8, u32_to_le_bytes(len as u32).as_slice());
    put(&mut b, 12, slice_subrange(data, 0, first));
    assert(data@.subrange(0, first as int) =~= data@.take(first as int));
    let ghost start = views(out@);
    proof {
        lemma_views_push(out@, b);
    }
    out.push(b);
    assert(views(out@) == start.push(b@));
    assert(start + blob_blocks(id, data@) =~= views(out@) + continuation_blocks(data@.skip(first as int)));
    let mut offset: usize = first;
    while offset < len
        invariant
            first <= offset <= len,
            len == data@.len(),
            start == views(old(out)@),
            start + blob_blocks(id, data@) == views(out@) + continuation_blocks(data@.skip(offset as int)),
        decreases len - offset,
    {
        let c: usize = if len - offset < 512 { len - offset } else { 512 };
        let mut cont = zeroed();
        put(&mut cont, 0, slice_subrange(data, offset, offset + c));
        proof {
            let rest = data@.skip(offset as int);
            assert(rest.take(c as int) =~= data@.subrange(offset as int, offset + c));
            assert(rest.skip(c as int) =~= data@.skip(offset + c));
            lemma_views_push(out@, cont);
            assert(views(out@) + continuation_blocks(rest) =~= views(out@).push(cont@) + continuation_blocks(data@.skip(offset + c)));
        }
        out.push(cont);
        offset = offset + c;
    }
    assert(continuation_blocks(data@.skip(offset as int)) =~= Seq::<Seq<u8>>::empty());
    assert(views(out@) + Seq::<Seq<u8>>::empty() =~= views(out@));
}

/// The index block of entry `e`.
pub fn index_entry_block(e: &FileEntry) -> (b: [u8; 512])
    ensures
        b@ == index_block(e@),
{
    let pb = e.path.as_str().as_bytes();
    let plen: usize = if pb.len() < 255 { pb.len() } else { 255 };
    let off = 2 + plen;
    let mut b = zeroed();
    put(&mut b, 0, u16_to_le_bytes(plen as u16).as_slice());
    put(&mut b, 2, slice_subrange(pb, 0, plen));
    assert(pb@.subrange(0, plen as int) =~= pb@.take(plen as int));
    put(&mut b, off, u64_to_le_bytes(e.blob_id).as_slice());
    put(&mut b, off + 8, u64_to_le_bytes(e.size).as_slice());
    put(&mut b, off + 16, u64_to_le_bytes(e.created_tick).as_slice());
    put(&mut b, off + 24, u64_to_le_bytes(e.modified_tick).as_slice());
    b
}

/// Block `n` of `image`, zeros past its end.
pub fn block_at(image: &Vec<[u8; 512]>, n: u64) -> (b: [u8; 512])
    ensures
        b@ == blk(views(image@), n as int),
{
    if n < image.len() as u64 {
        image[n as usize]
    } else {
        zeroed()
    }
}

fn read_u16(b: &[u8; 512], off: usize) -> (x: u16)
    requires
        off + 2 <= 512,
    ensures
        x == u16_at(b@, off as int),
{
    u16_from_le_bytes(slice_subrange(b.as_slice(), off, off + 2))
}

fn read_u32(b: &[u8; 512], off: usize) -> (x: u32)
    requires
        off + 4 <= 512,
    ensures
        x == u32_at(b@, off as int),
{
    u32_from_le_bytes(slice_subrange(b.as_slice(), off, off + 4))
}

fn read_u64(b: &[u8; 512], off: usize) -> (x: u64)
    requires
        off + 8 <= 512,
    ensures
        x == u64_at(b@, off as int),
{
    u64_from_le_bytes(slice_subrange(b.as_slice(), off, off + 8))
}

/// The magic number at the start of `b` is the filesystem's.
pub fn has_magic(b: &[u8; 512]) -> (r: bool)
    ensures
        r == (b@.take(8) == magic()),
{
    let ok = b[0] == 0x4f && b[1] == 0x58 && b[2] == 0x49 && b[3] == 0x44 && b[4] == 0x45
        && b[5] == 0x46 && b[6] == 0x53 && b[7] == 0x00;
    if ok {
        assert(b@.take(8) =~= magic());
    } else {
        assert(b@.take(8)[0] == b@[0] && b@.take(8)[1] == b@[1] && b@.take(8)[2] == b@[2] && b@.take(8)[3] == b@[3]);
        assert(b@.take(8)[4] == b@[4] && b@.take(8)[5] == b@[5] && b@.take(8)[6] == b@[6] && b@.take(8)[7] == b@[7]);
    }
    ok
}

/// `(blob count, entry count, next blob id, bytes stored)` recorded in a superblock.
pub fn superblock_fields(b: &[u8; 512]) -> (r: (u32, u32, u64, u64))
    ensures
        r == (u32_at(b@, 12), u32_at(b@, 16), u64_at(b@, 20), u64_at(b@, 28)),
{
    (read_u32(b, 12), read_u32(b, 16), read_u64(b, 20), read_u64(b, 28))
}

/// A blob never spans more than this many blocks.
pub open spec fn max_blob_span() -> int {
    8388610
}

proof fn lemma_continuation_count_bound(rem: nat)
    ensures
        continuation_count(rem) <= rem / 512 + 1,
    decreases rem,
{
    if rem > 512 {
        lemma_continuation_count_bound((rem - 512) as nat);
        assert((rem - 512) as nat / 512 + 1 == rem / 512) by (nonlinear_arith)
            requires
                rem > 512,
        ;
        assert(continuation_count(rem) == 1 + continuation_count((rem - 512) as nat));
    } else if rem > 0 {
        assert(continuation_count(rem) == 1 + continuation_count(0));
    }
}

/// A stored blob spans at least one block and at most `max_blob_span()` blocks.
pub proof fn lemma_blob_span_bound(img: Seq<Seq<u8>>, pos: int)
    ensures
        1 <= blob_span(img, pos) <= max_blob_span(),
{
    let size = blob_size(img, pos) as int;
    lemma_continuation_count_bound((size - chunk_len(size, 500)) as nat);
}

/// Read the blob whose header is block `pos`: its id, its contents, and the block after it.
pub fn read_blob_at(image: &Vec<[u8; 512]>, pos: u64) -> (r: (u64, Vec<u8>, u64))
    requires
        pos + max_blob_span() <= u64::MAX,
    ensures
        (r.0, r.1@) == read_blob(views(image@), pos as int),
        r.2 == pos + blob_span(views(image@), pos as int),
{
    let ghost img = views(image@);
    let b = block_at(image, pos);
    let id = read_u64(&b, 0);
    let size = read_u32(&b, 8);
    let first: u32 = if size < 500 { size } else { 500 };
    let mut data: Vec<u8> = Vec::new();
    let mut i: usize = 0;
    while i < first as usize
        invariant
            i <= first <= 500,
            b@.len() == 512,
            data@ == b@.subrange(12, 12 + i),
        decreases first - i,
    {
        data.push(b[12 + i]);
        i = i + 1;
        assert(data@ =~= b@.subrange(12, 12 + i));
    }
    let ghost full = read_blob(img, pos as int).1;
    proof {
        lemma_blob_span_bound(img, pos as int);
        assert(full == data@ + read_continuation(img, pos + 1, (size - first) as nat));
    }
    let mut remaining: u32 = size - first;
    let mut p: u64 = pos + 1;
    let ghost mut used: nat = 0;
    while remaining > 0
        invariant
            full == data@ + read_continuation(img, p as int, remaining as nat),
            img == views(image@),
            p == pos + 1 + used,
            used + continuation_count(remaining as nat) == continuation_count((size - first) as nat),
            pos + 1 + continuation_count((size - first) as nat) <= u64::MAX,
        decreases remaining,
    {
        let c: u32 = if remaining < 512 { remaining } else { 512 };
        let cont = block_at(image, p);
        let mut j: usize = 0;
        let ghost before = data@;
        while j < c as usize
            invariant
                j <= c <= 512,
                cont@.len() == 512,
                data@ == before + cont@.take(j as int),
            decreases c - j,
        {
            data.push(cont[j]);
            j = j + 1;
            assert(data@ =~= before + cont@.take(j as int));
        }
        remaining = remaining - c;
        p = p + 1;
        proof {
            used = used + 1;
            assert(before + (cont@.take(c as int) + read_continuation(img, p as int, remaining as nat))
                =~= data@ + read_continuation(img, p as int, remaining as nat));
        }
    }
    assert(data@ + read_continuation(img, p as int, 0) =~= data@);
    (id, data, p)
}

/// Read the entry stored in block `pos`.
pub fn read_entry_at(image: &Vec<[u8; 512]>, pos: u64) -> (e: FileEntry)
    requires
        entry_fits(views(image@), pos as int),
    ensures
        e@ == read_entry(views(image@), pos as int),
{
    let b = block_at(image, pos);
    let plen = read_u16(&b, 0) as usize;
    let off = 2 + plen;
    let bytes = slice_subrange(b.as_slice(), 2, off);
    let path = match utf8_str(bytes) {
        Some(s) => String::from_str(s),
        None => String::new(),
    };
    proof {
        if valid_utf8(bytes@) {
            vstd::utf8::encode_utf8_decode_utf8(path@);
        } else {
            assert(path@ =~= Seq::<char>::empty());
        }
    }
    FileEntry {
        path,
        blob_id: read_u64(&b, off),
        size: read_u64(&b, off + 8),
        created_tick: read_u64(&b, off + 16),
        modified_tick: read_u64(&b, off + 24),
        deleted: false,
    }
}

/// `h` after recording, in order, the hash of each blob of `s` as naming that blob.
pub open spec fn insert_hashes(h: Map<u64, u64>, s: Seq<(u64, Seq<u8>)>) -> Map<u64, u64>
    decreases s.len(),
{
    if s.len() == 0 {
        h
    } else {
        insert_hashes(h.insert(super::oxide_fs::fnv1a(s[0].1), s[0].0), s.skip(1))
    }
}

/// The last entry of `s` with path `p`.
pub open spec fn last_entry_for(s: Seq<FileEntryView>, p: Seq<char>) -> Option<FileEntryView>
    decreases s.len(),
{
    if s.len() == 0 {
        None
    } else if s.last().path == p {
        Some(s.last())
    } else {
        last_entry_for(s.drop_last(), p)
    }
}

/// The entry for `p` once the entries `added` are stored, in order, over `base`.
pub open spec fn overlay_entry(base: Seq<FileEntryView>, added: Seq<FileEntryView>, p: Seq<char>) -> Option<FileEntryView> {
    match last_entry_for(added, p) {
        Some(e) => Some(e),
        None => super::oxide_fs::entry_for(base, p),
    }
}

/// The image starts with a superblock.
pub open spec fn has_superblock(img: Seq<Seq<u8>>) -> bool {
    img.len() > 0 && img[0].take(8) == magic()
}

/// The blobs recorded in an image.
pub open spec fn image_blobs(img: Seq<Seq<u8>>) -> Seq<(u64, Seq<u8>)> {
    read_blobs(img, u32_at(img[0], 12) as nat, 1)
}

/// The entries recorded in an image.
pub open spec fn image_entries(img: Seq<Seq<u8>>) -> Seq<FileEntryView> {
    read_entries(img, u32_at(img[0], 16) as nat, blobs_end(img, u32_at(img[0], 12) as nat, 1))
}

/// Every entry block of the image leaves room for the entry's fields after its path.
pub open spec fn entries_fit(img: Seq<Seq<u8>>) -> bool {
    forall|i: int| 0 <= i < u32_at(img[0], 16) ==> #[trigger] entry_fits(img, blobs_end(img, u32_at(img[0], 12) as nat, 1) + i)
}

proof fn lemma_continuation_count_closed(rem: nat)
    ensures
        continuation_count(rem) == (rem + 511) / 512,
    decreases rem,
{
    if rem > 512 {
        lemma_continuation_count_closed((rem - 512) as nat);
        assert(continuation_count(rem) == 1 + continuation_count((rem - 512) as nat));
        assert((rem - 512 + 511) as nat / 512 + 1 == (rem + 511) / 512) by (nonlinear_arith)
            requires
                rem > 512,
        ;
    } else if rem > 0 {
        assert(continuation_count(rem) == 1 + continuation_count(0));
    }
}

/// Number of blocks of the blob whose header is block `pos` of `image`.
fn blob_span_at(image: &Vec<[u8; 512]>, pos: u64) -> (n: u64)
    ensures
        n == blob_span(views(image@), pos as int),
{
    let b = block_at(image, pos);
    let size = read_u32(&b, 8);
    let first: u32 = if size < 500 { size } else { 500 };
    let rem = (size - first) as u64;
    proof {
        lemma_continuation_count_closed(rem as nat);
    }
    1 + (rem + 511) / 512
}

/// Number of blocks `load_from_disk` reads from `image`, counting blocks past its end as
/// zeros: the superblock alone without a filesystem, else through the last entry block.
/// Reading the disk until `image` is this long gives the whole filesystem.
pub fn image_extent(image: &Vec<[u8; 512]>) -> (n: u64)
    ensures
        n == if has_superblock(views(image@)) {
            blobs_end(views(image@), u32_at(views(image@)[0], 12) as nat, 1) + u32_at(views(image@)[0], 16)
        } else {
            1
        },
{
    let ghost img = views(image@);
    if image.len() == 0 {
        return 1;
    }
    let sb = image[0];
    assert(img[0] == sb@);
    if !has_magic(&sb) {
        return 1;
    }
    let (blob_count, index_count, _, _) = superblock_fields(&sb);
    let mut pos: u64 = 1;
    let mut i: u32 = 0;
    while i < blob_count
        invariant
            i <= blob_count,
            img == views(image@),
            pos <= 1 + i * max_blob_span(),
            blobs_end(img, blob_count as nat, 1) == blobs_end(img, (blob_count - i) as nat, pos as int),
        decreases blob_count - i,
    {
        proof {
            lemma_blob_span_bound(img, pos as int);
        }
        pos = pos + blob_span_at(image, pos);
        i = i + 1;
    }
    pos + index_count as u64
}

/// The image can be loaded: without a superblock trivially, else every entry block
/// leaves room for the entry's fields.
pub fn check_entries_fit(image: &Vec<[u8; 512]>) -> (r: bool)
    ensures
        r == (has_superblock(views(image@)) ==> entries_fit(views(image@))),
{
    let ghost img = views(image@);
    if image.len() == 0 {
        return true;
    }
    let sb = image[0];
    assert(img[0] == sb@);
    if !has_magic(&sb) {
        return true;
    }
    let (blob_count, index_count, _, _) = superblock_fields(&sb);
    let mut pos: u64 = 1;
    let mut i: u32 = 0;
    while i < blob_count
        invariant
            i <= blob_count,
            img == views(image@),
            pos <= 1 + i * max_blob_span(),
            blobs_end(img, blob_count as nat, 1) == blobs_end(img, (blob_count - i) as nat, pos as int),
        decreases blob_count - i,
    {
        proof {
            lemma_blob_span_bound(img, pos as int);
        }
        pos = pos + blob_span_at(image, pos);
        i = i + 1;
    }
    let ghost end = blobs_end(img, blob_count as nat, 1);
    assert(has_superblock(img));
    let mut k: u32 = 0;
    while k < index_count
        invariant
            k <= index_count,
            img == views(image@),
            pos as int == end,
            end == blobs_end(img, u32_at(img[0], 12) as nat, 1),
            pos <= 1 + blob_count * max_blob_span(),
            index_count == u32_at(img[0], 16),
            has_superblock(img),
            forall|j: int| 0 <= j < k ==> #[trigger] entry_fits(img, end + j),
        decreases index_count - k,
    {
        let b = block_at(image, pos + k as u64);
        if read_u16(&b, 0) > 478 {
            assert(!entry_fits(img, end + k));
            return false;
        }
        k = k + 1;
    }
    true
}

/// `core::str::from_utf8`: the string whose UTF-8 encoding is `b`, or `None` when `b` is
/// not valid UTF-8.
#[verifier::external_body]
pub(crate) fn utf8_str(b: &[u8]) -> (r: Option<&str>)
    ensures
        r is Some <==> valid_utf8(b@),
        r matches Some(s) ==> encode_utf8(s@) == b@,
{
    match core::str::from_utf8(b) {
        Ok(s) => Some(s),
        Err(_) => None,
    }
}

} // verus!
