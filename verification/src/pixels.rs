//! Byte and index work around the GPU: row padding for texture uploads,
//! channel order of read-back frames, and batching triangles by texture.

use vstd::prelude::*;
use crate::obj::Texture;

verus! {

/// A row of `row` bytes rounded up to a multiple of 256 (the copy alignment
/// of texture uploads).
pub open spec fn padded_row(row: int) -> int {
    ((row + 255) / 256) * 256
}

/// Byte `k` of the padded image: row `k / padded` of the source, column
/// `k % padded`; the padding at the end of each row is zero.
pub open spec fn padded_byte(data: Seq<u8>, row: int, padded: int, k: int) -> u8 {
    let y = k / padded;
    let i = k % padded;
    if i < row {
        data[y * row + i]
    } else {
        0
    }
}

/// The bytes to upload for an image of `h` rows of `row` bytes each: the
/// data itself when rows are already aligned, else each row copied into a
/// zeroed row of `padded` bytes.
pub open spec fn upload_bytes(data: Seq<u8>, row: int, h: int) -> Seq<u8> {
    let padded = padded_row(row);
    if padded == row {
        data
    } else {
        Seq::new((padded * h) as nat, |k: int| padded_byte(data, row, padded, k))
    }
}

proof fn lemma_padded_row(row: int)
    requires
        row >= 0,
    ensures
        row <= padded_row(row) <= row + 255,
        padded_row(row) % 256 == 0,
        padded_row(row) > 0 || row == 0,
{
    vstd::arithmetic::div_mod::lemma_fundamental_div_mod(row + 255, 256);
    vstd::arithmetic::div_mod::lemma_mod_multiples_basic((row + 255) / 256, 256);
}

proof fn lemma_row_position(y: int, i: int, padded: int)
    requires
        0 <= i < padded,
        y >= 0,
    ensures
        (y * padded + i) / padded == y,
        (y * padded + i) % padded == i,
{
    vstd::arithmetic::div_mod::lemma_fundamental_div_mod_converse(y * padded + i, padded, y, i);
}

proof fn lemma_source_index(y: int, i: int, row: int, h: int)
    requires
        0 <= y < h,
        0 <= i < row,
    ensures
        y * row + i < h * row,
{
    assert((y + 1) * row <= h * row) by (nonlinear_arith)
        requires
            y + 1 <= h,
            row > 0,
    ;
    assert((y + 1) * row == y * row + row) by (nonlinear_arith);
}

/// The bytes and row pitch with which a texture is uploaded.
pub fn upload_rows(tex: &Texture) -> (r: (Vec<u8>, u32))
    requires
        tex.w as int * 4 + 255 <= u32::MAX,
        padded_row(tex.w * 4) != tex.w * 4 ==> {
            &&& padded_row(tex.w * 4) * tex.h <= u32::MAX
            &&& tex.data@.len() >= tex.h * (tex.w * 4)
        },
    ensures
        r.1 == padded_row(tex.w * 4),
        r.0@ == upload_bytes(tex.data@, tex.w * 4, tex.h as int),
{
    let row = tex.w * 4;
    proof {
        lemma_padded_row(row as int);
    }
    let padded = ((row + 255) / 256) * 256;
    if padded == row {
        let mut copy: Vec<u8> = Vec::new();
        let n = tex.data.len();
        for k in 0..n
            invariant
                n == tex.data@.len(),
                copy@ == tex.data@.take(k as int),
        {
            copy.push(tex.data[k]);
            assert(copy@ =~= tex.data@.take(k + 1));
        }
        assert(tex.data@.take(n as int) =~= tex.data@);
        return (copy, padded);
    }
    let h = tex.h;
    let ghost total = padded * h;
    let ghost target = Seq::new(total as nat, |k: int| padded_byte(tex.data@, row as int, padded as int, k));
    let mut buf: Vec<u8> = Vec::new();
    let n = tex.data.len();
    let mut y: u32 = 0;
    while y < h
        invariant
            y <= h,
            row == tex.w * 4,
            padded == padded_row(row as int),
            row < padded,
            padded * h <= u32::MAX,
            h == tex.h,
            n == tex.data@.len(),
            n >= h * row,
            target == Seq::new(total as nat, |k: int| padded_byte(tex.data@, row as int, padded as int, k)),
            total == padded * h,
            buf@.len() == y * padded,
            forall|k: int| 0 <= k < buf@.len() ==> buf@[k] == #[trigger] target[k],
        decreases h - y,
    {
        assert(y * padded + padded <= h * padded) by (nonlinear_arith)
            requires
                y < h,
                padded > 0,
        ;
        assert(h * padded == padded * h) by (nonlinear_arith);
        for i in 0..padded
            invariant
                row == tex.w * 4,
                padded == padded_row(row as int),
                row < padded,
                h == tex.h,
                y < h,
                n == tex.data@.len(),
                n >= h * row,
                target == Seq::new(total as nat, |k: int| padded_byte(tex.data@, row as int, padded as int, k)),
                total == padded * h,
                y * padded + padded <= padded * h,
                padded * h <= u32::MAX,
                buf@.len() == y * padded + i,
                forall|k: int| 0 <= k < buf@.len() ==> buf@[k] == #[trigger] target[k],
        {
            proof {
                lemma_row_position(y as int, i as int, padded as int);
            }
            let b = if i < row {
                let yy = y as usize;
                let rr = row as usize;
                let ii = i as usize;
                proof {
                    lemma_source_index(yy as int, ii as int, rr as int, h as int);
                    assert(yy * rr <= yy * rr + ii);
                    assert(h * row == h as int * rr as int);
                }
                tex.data[yy * rr + ii]
            } else {
                0u8
            };
            let ghost k = y * padded + i;
            assert(b == target[k]);
            buf.push(b);
        }
        assert(buf@.len() == (y + 1) * padded) by (nonlinear_arith)
            requires
                buf@.len() == y * padded + padded,
        ;
        y = y + 1;
    }
    assert(y * padded == padded * h) by (nonlinear_arith)
        requires
            y == h,
    ;
    assert(buf@.len() == target.len());
    assert(buf@ =~= target);
    (buf, padded)
}

/// A frame read back in BGRA order with red and blue exchanged in every
/// whole 4-byte pixel; a trailing partial pixel stays.
pub open spec fn swap_red_blue(s: Seq<u8>) -> Seq<u8> {
    let whole = s.len() / 4 * 4;
    Seq::new(
        s.len(),
        |k: int|
            if k < whole && k % 4 == 0 {
                s[k + 2]
            } else if k < whole && k % 4 == 2 {
                s[k - 2]
            } else {
                s[k]
            },
    )
}

/// Exchanges the first and third byte of every whole 4-byte pixel.
pub fn bgra_to_rgba(data: &mut Vec<u8>)
    ensures
        final(data)@ == swap_red_blue(old(data)@),
{
    let n = data.len();
    let npx = n / 4;
    let ghost orig = data@;
    let ghost target = swap_red_blue(orig);
    for p in 0..npx
        invariant
            n == orig.len(),
            npx == n / 4,
            data@.len() == n,
            target == swap_red_blue(orig),
            forall|k: int| 0 <= k < 4 * p ==> data@[k] == #[trigger] target[k],
            forall|k: int| 4 * p <= k < n ==> data@[k] == #[trigger] orig[k],
    {
        let base = 4 * p;
        let r = data[base];
        let b = data[base + 2];
        data.set(base, b);
        data.set(base + 2, r);
        assert forall|k: int| 0 <= k < 4 * (p + 1) implies data@[k] == #[trigger] target[k] by {
            if k >= 4 * p {
                assert(k / 4 == p as int);
            }
        }
    }
    assert(data@ =~= target);
}

/// The batch key of a triangle's texture index: its own texture, or the
/// shared white texture `white` for flat-coloured triangles (index < 0).
pub open spec fn batch_key(tex: i32, white: u32) -> u32 {
    if tex >= 0 {
        tex as u32
    } else {
        white
    }
}

/// The positions (ascending) of the triangles among `texs` that share
/// batch key `key`.
pub open spec fn members(texs: Seq<i32>, white: u32, key: u32) -> Seq<usize>
    decreases texs.len(),
{
    if texs.len() == 0 {
        Seq::empty()
    } else {
        let prev = members(texs.drop_last(), white, key);
        if batch_key(texs.last(), white) == key {
            prev.push((texs.len() - 1) as usize)
        } else {
            prev
        }
    }
}

/// Whether some batch has key `key`.
pub open spec fn has_batch(batches: Seq<(u32, Vec<usize>)>, key: u32) -> bool {
    exists|g: int| 0 <= g < batches.len() && #[trigger] batches[g].0 == key
}

/// Batches triangles by texture: one batch per distinct key, each listing
/// the triangles (by position in `texs`) drawn with that texture.
pub fn batch_by_texture(texs: &[i32], white: u32) -> (batches: Vec<(u32, Vec<usize>)>)
    ensures
        forall|g: int, h: int|
            0 <= g < h < batches@.len() ==> #[trigger] batches@[g].0 != #[trigger] batches@[h].0,
        forall|g: int|
            0 <= g < batches@.len() ==> #[trigger] batches@[g].1@ == members(texs@, white, batches@[g].0),
        forall|g: int| 0 <= g < batches@.len() ==> #[trigger] batches@[g].1@.len() > 0,
        forall|i: int| 0 <= i < texs@.len() ==> has_batch(batches@, batch_key(#[trigger] texs@[i], white)),
{
    let n = texs.len();
    let mut batches: Vec<(u32, Vec<usize>)> = Vec::new();
    for i in 0..n
        invariant
            n == texs@.len(),
            forall|g: int, h: int|
                0 <= g < h < batches@.len() ==> #[trigger] batches@[g].0 != #[trigger] batches@[h].0,
            forall|g: int|
                0 <= g < batches@.len() ==> #[trigger] batches@[g].1@ == members(
                    texs@.take(i as int),
                    white,
                    batches@[g].0,
                ),
            forall|g: int| 0 <= g < batches@.len() ==> #[trigger] batches@[g].1@.len() > 0,
            forall|j: int| 0 <= j < i ==> has_batch(batches@, batch_key(#[trigger] texs@[j], white)),
    {
        let t = texs[i];
        let key: u32 = if t >= 0 {
            t as u32
        } else {
            white
        };
        let ghost pre = texs@.take(i as int);
        let ghost nxt = texs@.take(i + 1);
        assert(nxt.drop_last() =~= pre);
        assert(nxt.last() == t);
        let m = batches.len();
        let found = find_batch(&batches, key);
        let ghost old_batches = batches@;
        if found < m {
            let mut entry = batches.remove(found);
            entry.1.push(i);
            batches.insert(found, entry);
            assert forall|h: int| 0 <= h < batches@.len() implies #[trigger] batches@[h].1@ == members(
                nxt,
                white,
                batches@[h].0,
            ) by {
                if h != found {
                    assert(batches@[h] == old_batches[h]);
                }
            }
            assert forall|j: int| 0 <= j < i + 1 implies has_batch(batches@, batch_key(#[trigger] texs@[j], white)) by {
                if j < i {
                    assert(has_batch(old_batches, batch_key(texs@[j], white)));
                    let g1 = choose|g1: int|
                        0 <= g1 < old_batches.len() && #[trigger] old_batches[g1].0 == batch_key(texs@[j], white);
                    assert(batches@[g1].0 == old_batches[g1].0);
                } else {
                    assert(batches@[found as int].0 == key);
                }
            }
        } else {
            let mut list: Vec<usize> = Vec::new();
            list.push(i);
            assert(members(pre, white, key).len() == 0) by {
                assert forall|j: int| 0 <= j < pre.len() implies batch_key(#[trigger] pre[j], white) != key by {
                    assert(pre[j] == texs@[j]);
                    assert(has_batch(old_batches, batch_key(texs@[j], white)));
                    let g1 = choose|g1: int|
                        0 <= g1 < old_batches.len() && #[trigger] old_batches[g1].0 == batch_key(texs@[j], white);
                }
                lemma_members_absent(pre, white, key);
            }
            assert(list@ =~= members(nxt, white, key));
            batches.push((key, list));
            assert forall|h: int| 0 <= h < batches@.len() implies #[trigger] batches@[h].1@ == members(
                nxt,
                white,
                batches@[h].0,
            ) by {
                if h < m {
                    assert(batches@[h] == old_batches[h]);
                }
            }
            assert forall|j: int| 0 <= j < i + 1 implies has_batch(batches@, batch_key(#[trigger] texs@[j], white)) by {
                if j < i {
                    assert(has_batch(old_batches, batch_key(texs@[j], white)));
                    let g1 = choose|g1: int|
                        0 <= g1 < old_batches.len() && #[trigger] old_batches[g1].0 == batch_key(texs@[j], white);
                    assert(batches@[g1].0 == old_batches[g1].0);
                } else {
                    assert(batches@[m as int].0 == key);
                }
            }
        }
    }
    assert(texs@.take(n as int) =~= texs@);
    batches
}

fn find_batch(batches: &Vec<(u32, Vec<usize>)>, key: u32) -> (r: usize)
    ensures
        r <= batches@.len(),
        r < batches@.len() ==> batches@[r as int].0 == key,
        r == batches@.len() ==> forall|h: int| 0 <= h < batches@.len() ==> #[trigger] batches@[h].0 != key,
{
    let m = batches.len();
    for g in 0..m
        invariant
            m == batches@.len(),
            forall|h: int| 0 <= h < g ==> #[trigger] batches@[h].0 != key,
    {
        if batches[g].0 == key {
            return g;
        }
    }
    m
}

proof fn lemma_members_absent(texs: Seq<i32>, white: u32, key: u32)
    requires
        forall|j: int| 0 <= j < texs.len() ==> batch_key(#[trigger] texs[j], white) != key,
    ensures
        members(texs, white, key).len() == 0,
    decreases texs.len(),
{
    if texs.len() > 0 {
        assert(batch_key(texs[texs.len() - 1], white) != key);
        lemma_members_absent(texs.drop_last(), white, key);
    }
}

// ---------------------------------------------------------------- formats

/// The surface formats the renderer tells apart.
#[derive(Clone, Copy, Debug, PartialEq, Eq, Structural)]
pub enum FormatKind {
    Bgra8Unorm,
    Bgra8UnormSrgb,
    Rgba8Unorm,
    Other,
}

/// The first position of `k` among `kinds`.
pub open spec fn position_of(kinds: Seq<FormatKind>, k: FormatKind) -> Option<int>
    decreases kinds.len(),
{
    if kinds.len() == 0 {
        None
    } else if kinds[0] == k {
        Some(0)
    } else {
        match position_of(kinds.drop_first(), k) {
            Some(i) => Some(i + 1),
            None => None,
        }
    }
}

/// The surface format to render to: plain (non-sRGB) BGRA if offered, else
/// plain RGBA, else the first one offered, so that read-back bytes are the
/// values written.
pub open spec fn preferred_format(kinds: Seq<FormatKind>) -> int {
    match position_of(kinds, FormatKind::Bgra8Unorm) {
        Some(i) => i,
        None => match position_of(kinds, FormatKind::Rgba8Unorm) {
            Some(i) => i,
            None => 0,
        },
    }
}

fn find_kind(kinds: &[FormatKind], k: FormatKind) -> (r: Option<usize>)
    ensures
        match r {
            Some(i) => position_of(kinds@, k) == Some(i as int),
            None => position_of(kinds@, k) is None,
        },
{
    let n = kinds.len();
    assert(kinds@.skip(0) =~= kinds@);
    for i in 0..n
        invariant
            n == kinds@.len(),
            position_of(kinds@, k) == match position_of(kinds@.skip(i as int), k) {
                Some(j) => Some(j + i),
                None => None,
            },
    {
        assert(kinds@.skip(i as int)[0] == kinds@[i as int]);
        assert(kinds@.skip(i as int).drop_first() =~= kinds@.skip(i + 1));
        if kinds[i] == k {
            return Some(i);
        }
    }
    assert(kinds@.skip(n as int) =~= Seq::<FormatKind>::empty());
    None
}

/// The position among the offered formats of the one to render to.
pub fn choose_format(kinds: &[FormatKind]) -> (i: usize)
    requires
        kinds@.len() > 0,
    ensures
        i == preferred_format(kinds@),
        i < kinds@.len(),
{
    proof {
        lemma_position_bounds(kinds@, FormatKind::Bgra8Unorm);
        lemma_position_bounds(kinds@, FormatKind::Rgba8Unorm);
    }
    match find_kind(kinds, FormatKind::Bgra8Unorm) {
        Some(i) => i,
        None => match find_kind(kinds, FormatKind::Rgba8Unorm) {
            Some(i) => i,
            None => 0,
        },
    }
}

proof fn lemma_position_bounds(kinds: Seq<FormatKind>, k: FormatKind)
    ensures
        position_of(kinds, k) matches Some(i) ==> 0 <= i < kinds.len() && kinds[i] == k,
    decreases kinds.len(),
{
    if kinds.len() > 0 && kinds[0] != k {
        lemma_position_bounds(kinds.drop_first(), k);
    }
}

/// Whether frames read back in this format come in BGRA order.
pub fn is_bgra(k: FormatKind) -> (r: bool)
    ensures
        r == (k == FormatKind::Bgra8Unorm || k == FormatKind::Bgra8UnormSrgb),
{
    match k {
        FormatKind::Bgra8Unorm | FormatKind::Bgra8UnormSrgb => true,
        _ => false,
    }
}

} // verus!
