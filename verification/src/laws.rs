//! Properties that hold across calls and for all inputs, proved over the
//! spec functions that the operations' contracts use.

use vstd::prelude::*;
use crate::game::{door_advanced, door_toggled, weapon_number, DoorState, Weapon, DOOR, FLOOR, WALL};
use crate::keys::{with_key, KeyState};
use crate::maze::{
    after_use, area_blocked, blocks_player, cell_at, cell_code, door_cells, door_index,
    door_passable, door_target, lemma_door_index_bounds, line_cells, map_cells, utf8_len,
};
use crate::obj::{
    count_positions, count_texcoords, face_in_range, faces_in_range, fan, found_texture,
    image_index_from, lookup, mtl_state, mtl_table, obj_tris, pending_material, resolve, Corner,
    IndexedTri, Material, MtlLineView, ObjLineView, Texture, TextureView,
};
use crate::pixels::{
    batch_key, members, padded_row, position_of, preferred_format, swap_red_blue, upload_bytes,
    FormatKind,
};

verus! {

// ---------------------------------------------------------------- keys

/// For one key, the last event wins: setting a key twice is the same as
/// setting it once to the second value.
pub proof fn law_last_key_event_wins(k: KeyState, code: Seq<char>, a: bool, b: bool)
    ensures
        with_key(with_key(k, code, a), code, b) == with_key(k, code, b),
{
}

/// Events for different keys do not interfere: their order does not
/// matter.
pub proof fn law_key_events_commute(k: KeyState, c1: Seq<char>, a: bool, c2: Seq<char>, b: bool)
    requires
        c1 != c2,
    ensures
        with_key(with_key(k, c1, a), c2, b) == with_key(with_key(k, c2, b), c1, a),
{
}

// ---------------------------------------------------------------- weapons

/// A weapon's number is its place in the switching order, so selecting a
/// weapon by its own number yields it.
pub proof fn law_weapon_number_is_position(w: Weapon)
    ensures
        weapon_number(w) < 3,
        seq![Weapon::Pistol, Weapon::Smg, Weapon::Shotgun][weapon_number(w) as int] == w,
{
}

// ---------------------------------------------------------------- doors

/// A closed door, once used, goes through its whole cycle: opening, open,
/// closing, and closed again as each phase ends.
pub proof fn law_door_cycle()
    ensures
        door_advanced(
            door_advanced(door_advanced(door_toggled(DoorState::Closed), true), true),
            true,
        ) == DoorState::Closed,
        door_toggled(DoorState::Closed) == DoorState::Opening,
        door_advanced(DoorState::Opening, true) == DoorState::Open,
        door_advanced(DoorState::Open, true) == DoorState::Closing,
{
}

/// Using a door that is moving does nothing, and a phase that has not ended
/// keeps its state.
pub proof fn law_moving_door_ignores_use(s: DoorState, done: bool)
    ensures
        (s == DoorState::Opening || s == DoorState::Closing) ==> door_toggled(s) == s,
        !done ==> door_advanced(s, done) == s,
{
}

// ---------------------------------------------------------------- maze

/// Everything outside the grid is wall.
pub proof fn law_outside_is_wall(grid: Seq<u8>, w: usize, h: usize, x: i32, z: i32)
    requires
        x < 0 || z < 0 || x as int >= w as int || z as int >= h as int,
        w <= i32::MAX,
        h <= i32::MAX,
    ensures
        cell_at(grid, w, h, x, z) == WALL,
{
    assert(w <= i32::MAX ==> (w as i32) as int == w as int) by (bit_vector);
    assert(h <= i32::MAX ==> (h as i32) as int == h as int) by (bit_vector);
}

/// The number of cells with code `code`.
pub open spec fn count_code(grid: Seq<u8>, code: u8) -> nat
    decreases grid.len(),
{
    if grid.len() == 0 {
        0
    } else {
        count_code(grid.drop_last(), code) + if grid.last() == code {
            1nat
        } else {
            0nat
        }
    }
}

/// Every door cell of the grid is listed as a door, once: the door list is
/// exactly as long as the grid has door cells.
pub proof fn law_doors_match_grid(cells: Seq<(usize, usize, char)>)
    ensures
        door_cells(cells).len() == count_code(
            cells.map_values(|t: (usize, usize, char)| cell_code(t.2)),
            DOOR,
        ),
    decreases cells.len(),
{
    if cells.len() > 0 {
        law_doors_match_grid(cells.drop_last());
        let g = cells.map_values(|t: (usize, usize, char)| cell_code(t.2));
        assert(g.drop_last() =~= cells.drop_last().map_values(
            |t: (usize, usize, char)| cell_code(t.2),
        ));
    }
}

/// A map whose lines all have as many characters as the last line has
/// bytes gives a grid of exactly `w * h` cells.
pub proof fn law_rectangular_map_fills_grid(lines: Seq<Seq<char>>)
    requires
        lines.len() > 0,
        forall|i: int| 0 <= i < lines.len() ==> #[trigger] lines[i].len() == utf8_len(lines.last()),
    ensures
        map_cells(lines).len() == utf8_len(lines.last()) * lines.len(),
{
    lemma_cells_len(lines, utf8_len(lines.last()));
}

proof fn lemma_cells_len(lines: Seq<Seq<char>>, n: nat)
    requires
        forall|i: int| 0 <= i < lines.len() ==> #[trigger] lines[i].len() == n,
    ensures
        map_cells(lines).len() == n * lines.len(),
    decreases lines.len(),
{
    if lines.len() > 0 {
        assert forall|i: int| 0 <= i < lines.len() - 1 implies #[trigger] lines.drop_last()[i].len()
            == n by {
            assert(lines.drop_last()[i] == lines[i]);
        }
        lemma_cells_len(lines.drop_last(), n);
        assert(line_cells(lines.last(), (lines.len() - 1) as usize).len() == n);
        assert(n * (lines.len() - 1) + n == n * lines.len()) by (nonlinear_arith);
    }
}

// ---------------------------------------------------------------- models

/// The number of triangles that fan triangulation makes: n - 2 for each
/// face of n >= 3 corners; shorter faces make none.
pub open spec fn tri_count(lines: Seq<ObjLineView>) -> nat
    decreases lines.len(),
{
    if lines.len() == 0 {
        0
    } else {
        tri_count(lines.drop_last()) + match lines.last() {
            ObjLineView::Face(cs) => if cs.len() >= 3 {
                (cs.len() - 2) as nat
            } else {
                0nat
            },
            _ => 0nat,
        }
    }
}

/// A model has exactly `tri_count` triangles.
pub proof fn law_fan_triangle_count(
    lines: Seq<ObjLineView>,
    log: Seq<(Seq<char>, Material)>,
    nv: int,
    nt: int,
)
    ensures
        obj_tris(lines, log, nv, nt).len() == tri_count(lines),
    decreases lines.len(),
{
    if lines.len() > 0 {
        law_fan_triangle_count(lines.drop_last(), log, nv, nt);
    }
}

/// Every triangle of a face shares the face's first corner.
pub proof fn law_fan_shares_first_corner(
    cs: Seq<(i32, Option<i32>)>,
    m: Material,
    nv: int,
    nt: int,
    i: int,
)
    requires
        cs.len() >= 3,
        0 <= i < cs.len() - 2,
    ensures
        fan(cs, m, nv, nt)[i].a == resolve(cs[0], nv, nt),
        fan(cs, m, nv, nt)[i].b == resolve(cs[i + 1], nv, nt),
        fan(cs, m, nv, nt)[i].c == resolve(cs[i + 2], nv, nt),
{
}

/// A corner that names one of `nv` vertices and, if any, one of `nt`
/// texture coordinates.
pub open spec fn corner_exists(c: Corner, nv: int, nt: int) -> bool {
    &&& c.pos < nv
    &&& c.uv matches Some(k) ==> k < nt
}

pub open spec fn tri_exists(t: IndexedTri, nv: int, nt: int) -> bool {
    corner_exists(t.a, nv, nt) && corner_exists(t.b, nv, nt) && corner_exists(t.c, nv, nt)
}

/// When every kept face is in range, every corner of every triangle names
/// a vertex (and texture coordinate) that the model defines.
pub proof fn law_triangles_name_existing_corners(
    lines: Seq<ObjLineView>,
    log: Seq<(Seq<char>, Material)>,
    i: int,
)
    requires
        faces_in_range(lines),
        count_positions(lines) <= usize::MAX,
        count_texcoords(lines) <= usize::MAX,
        0 <= i < obj_tris(
            lines,
            log,
            count_positions(lines) as int,
            count_texcoords(lines) as int,
        ).len(),
    ensures
        tri_exists(
            obj_tris(lines, log, count_positions(lines) as int, count_texcoords(lines) as int)[i],
            count_positions(lines) as int,
            count_texcoords(lines) as int,
        ),
{
    lemma_tris_exist(lines, log, count_positions(lines) as int, count_texcoords(lines) as int);
}

proof fn lemma_tris_exist(lines: Seq<ObjLineView>, log: Seq<(Seq<char>, Material)>, nv: int, nt: int)
    requires
        forall|k: int| 0 <= k < lines.len() ==> face_in_range(#[trigger] lines[k], nv, nt),
        nv <= usize::MAX,
        nt <= usize::MAX,
    ensures
        forall|i: int|
            0 <= i < obj_tris(lines, log, nv, nt).len() ==> tri_exists(
                #[trigger] obj_tris(lines, log, nv, nt)[i],
                nv,
                nt,
            ),
    decreases lines.len(),
{
    if lines.len() > 0 {
        let pre = lines.drop_last();
        assert forall|k: int| 0 <= k < pre.len() implies face_in_range(#[trigger] pre[k], nv, nt) by {
            assert(pre[k] == lines[k]);
        }
        lemma_tris_exist(pre, log, nv, nt);
        assert(face_in_range(lines[lines.len() - 1], nv, nt));
        let prev = obj_tris(pre, log, nv, nt);
        let all = obj_tris(lines, log, nv, nt);
        if let ObjLineView::Face(cs) = lines.last() {
            if cs.len() >= 3 {
                let m = crate::obj::material_named(log, crate::obj::pending_material(pre));
                let f = fan(cs, m, nv, nt);
                assert forall|j: int| 0 <= j < cs.len() implies corner_exists(
                    #[trigger] resolve(cs[j], nv, nt),
                    nv,
                    nt,
                ) by {
                    assert(crate::obj::corner_in_range(cs[j], nv, nt));
                }
                assert forall|i: int| 0 <= i < all.len() implies tri_exists(#[trigger] all[i], nv, nt) by {
                    if i < prev.len() {
                        assert(all[i] == prev[i]);
                    } else {
                        let j = i - prev.len();
                        assert(all[i] == f[j]);
                        assert(corner_exists(resolve(cs[0], nv, nt), nv, nt));
                        assert(corner_exists(resolve(cs[j + 1], nv, nt), nv, nt));
                        assert(corner_exists(resolve(cs[j + 2], nv, nt), nv, nt));
                    }
                }
            }
        }
    }
}

/// Negative indices count back from the end: vertex -1 is the last of the
/// `nv` vertices and -nv the first; the same holds of texture indices among
/// the `nt` texture coordinates.
pub proof fn law_negative_index_counts_back(k: i32, t: i32, nv: int, nt: int)
    requires
        -nv <= k < 0,
        -nt <= t < 0,
        nv <= usize::MAX,
        nt <= usize::MAX,
    ensures
        resolve((k, Some(t)), nv, nt).pos == nv + k,
        resolve((k, Some(t)), nv, nt).uv == Some((nt + t) as usize),
        k == -1 ==> resolve((k, Some(t)), nv, nt).pos == nv - 1,
        t == -1 ==> resolve((k, Some(t)), nv, nt).uv == Some((nt - 1) as usize),
{
}

/// A `usemtl` governs every following face until the next `usemtl`: any
/// other line, a face included, leaves the current material name as it is.
pub proof fn law_usemtl_holds_until_next(lines: Seq<ObjLineView>, l: ObjLineView, name: Seq<char>)
    ensures
        !(l is UseMtl) ==> pending_material(lines.push(l)) == pending_material(lines),
        pending_material(lines.push(ObjLineView::UseMtl(name))) == Some(name),
{
    assert(lines.push(l).drop_last() =~= lines);
    assert(lines.push(ObjLineView::UseMtl(name)).drop_last() =~= lines);
}

/// Material names behave as map keys: a name reads back what was stored
/// under it last, and storing under one name leaves the others alone.
pub proof fn law_material_store_then_read(
    log: Seq<(Seq<char>, Material)>,
    name: Seq<char>,
    m: Material,
    other: Seq<char>,
)
    ensures
        lookup(log.push((name, m)), name) == Some(m),
        other != name ==> lookup(log.push((name, m)), other) == lookup(log, other),
{
    assert(log.push((name, m)).drop_last() =~= log);
}

// ---------------------------------------------------------------- pixels

/// Swapping red and blue twice gives the frame back.
pub proof fn law_swap_red_blue_involution(s: Seq<u8>)
    ensures
        swap_red_blue(swap_red_blue(s)) == s,
{
    let t = swap_red_blue(s);
    let whole = s.len() / 4 * 4;
    assert forall|k: int| 0 <= k < s.len() implies swap_red_blue(t)[k] == s[k] by {
        if k < whole && k % 4 == 0 {
            assert(k + 2 < whole);
            assert((k + 2) % 4 == 2);
        } else if k < whole && k % 4 == 2 {
            assert((k - 2) % 4 == 0);
        }
    }
    assert(swap_red_blue(t) =~= s);
}

/// Padding keeps every byte of every row at its place in the padded row.
pub proof fn law_padding_keeps_rows(data: Seq<u8>, row: int, h: int, y: int, i: int)
    requires
        row > 0,
        0 <= y < h,
        0 <= i < row,
        padded_row(row) != row,
    ensures
        upload_bytes(data, row, h)[y * padded_row(row) + i] == data[y * row + i],
{
    let p = padded_row(row);
    assert(p > row) by {
        vstd::arithmetic::div_mod::lemma_fundamental_div_mod(row + 255, 256);
    }
    vstd::arithmetic::div_mod::lemma_fundamental_div_mod_converse(y * p + i, p, y, i);
    assert(y * p + i < p * h) by (nonlinear_arith)
        requires
            0 <= y < h,
            0 <= i < p,
    ;
}

/// Every triangle is in the batch of its own key, and only there.
pub proof fn law_batch_membership(texs: Seq<i32>, white: u32, key: u32, i: int)
    requires
        0 <= i < texs.len(),
        texs.len() <= usize::MAX,
    ensures
        members(texs, white, key).contains(i as usize) <==> batch_key(texs[i], white) == key,
    decreases texs.len(),
{
    let prev = members(texs.drop_last(), white, key);
    lemma_members_below(texs.drop_last(), white, key);
    if i < texs.len() - 1 {
        law_batch_membership(texs.drop_last(), white, key, i);
        if batch_key(texs.last(), white) == key {
            let m = prev.push((texs.len() - 1) as usize);
            if m.contains(i as usize) {
                let j = choose|j: int| 0 <= j < m.len() && m[j] == i as usize;
                if j < prev.len() {
                    assert(prev.contains(i as usize));
                }
            }
            if prev.contains(i as usize) {
                let j = choose|j: int| 0 <= j < prev.len() && prev[j] == i as usize;
                assert(m[j] == i as usize);
            }
        }
    } else {
        if batch_key(texs.last(), white) == key {
            let m = prev.push((texs.len() - 1) as usize);
            assert(m[m.len() - 1] == i as usize);
        } else {
            if prev.contains(i as usize) {
                let j = choose|j: int| 0 <= j < prev.len() && prev[j] == i as usize;
            }
        }
    }
}

proof fn lemma_members_below(texs: Seq<i32>, white: u32, key: u32)
    requires
        texs.len() <= usize::MAX,
    ensures
        forall|j: int|
            0 <= j < members(texs, white, key).len() ==> (#[trigger] members(texs, white, key)[j])
                < texs.len(),
    decreases texs.len(),
{
    if texs.len() > 0 {
        lemma_members_below(texs.drop_last(), white, key);
        let prev = members(texs.drop_last(), white, key);
        let all = members(texs, white, key);
        assert forall|j: int| 0 <= j < all.len() implies (#[trigger] all[j]) < texs.len() by {
            if j < prev.len() {
                assert(all[j] == prev[j]);
            }
        }
    }
}

// ---------------------------------------------------------------- key codes

/// Each key name sets its own key and no other: "w", "s", "a", "d",
/// "ArrowLeft", "ArrowRight", "ArrowUp" and "ArrowDown" set the forward,
/// back, strafe-left, strafe-right, turn-left, turn-right, look-up and
/// look-down keys.
pub proof fn law_each_key_name_sets_its_key(k: KeyState, d: bool)
    ensures
        with_key(k, seq!['w'], d) == (KeyState { w: d, ..k }),
        with_key(k, seq!['s'], d) == (KeyState { s: d, ..k }),
        with_key(k, seq!['a'], d) == (KeyState { a: d, ..k }),
        with_key(k, seq!['d'], d) == (KeyState { d: d, ..k }),
        with_key(k, seq!['A', 'r', 'r', 'o', 'w', 'L', 'e', 'f', 't'], d) == (KeyState {
            left: d,
            ..k
        }),
        with_key(k, seq!['A', 'r', 'r', 'o', 'w', 'R', 'i', 'g', 'h', 't'], d) == (KeyState {
            right: d,
            ..k
        }),
        with_key(k, seq!['A', 'r', 'r', 'o', 'w', 'U', 'p'], d) == (KeyState { up: d, ..k }),
        with_key(k, seq!['A', 'r', 'r', 'o', 'w', 'D', 'o', 'w', 'n'], d) == (KeyState {
            down: d,
            ..k
        }),
{
    let w = seq!['w'];
    let s = seq!['s'];
    let a = seq!['a'];
    let dd = seq!['d'];
    let left = seq!['A', 'r', 'r', 'o', 'w', 'L', 'e', 'f', 't'];
    let right = seq!['A', 'r', 'r', 'o', 'w', 'R', 'i', 'g', 'h', 't'];
    let up = seq!['A', 'r', 'r', 'o', 'w', 'U', 'p'];
    let down = seq!['A', 'r', 'r', 'o', 'w', 'D', 'o', 'w', 'n'];
    assert(w[0] != s[0] && w[0] != a[0] && w[0] != dd[0]);
    assert(s[0] != a[0] && s[0] != dd[0] && a[0] != dd[0]);
    assert(left[5] != down[5]);
    assert(left.len() == 9 && down.len() == 9 && right.len() == 10 && up.len() == 7);
    assert(w.len() == 1 && s.len() == 1 && a.len() == 1 && dd.len() == 1);
}

// ---------------------------------------------------------------- door lookup

/// A door cell lets the player and shots through exactly when the first
/// door listed at that cell is flagged open.
pub proof fn law_first_listed_door_decides(
    doors: Seq<(usize, usize, bool)>,
    x: usize,
    z: usize,
    k: int,
)
    requires
        0 <= k < doors.len(),
        doors[k].0 == x,
        doors[k].1 == z,
        forall|j: int| 0 <= j < k ==> !((#[trigger] doors[j]).0 == x && doors[j].1 == z),
    ensures
        door_passable(doors, x, z) == doors[k].2,
    decreases k,
{
    if k > 0 {
        let rest = doors.drop_first();
        assert forall|j: int| 0 <= j < k - 1 implies !((#[trigger] rest[j]).0 == x && rest[j].1
            == z) by {
            assert(rest[j] == doors[j + 1]);
        }
        assert(rest[k - 1] == doors[k]);
        law_first_listed_door_decides(rest, x, z, k - 1);
    }
}

/// A cell at which no door is listed is never passable.
pub proof fn law_unlisted_door_is_shut(doors: Seq<(usize, usize, bool)>, x: usize, z: usize)
    requires
        forall|j: int| 0 <= j < doors.len() ==> !((#[trigger] doors[j]).0 == x && doors[j].1 == z),
    ensures
        !door_passable(doors, x, z),
    decreases doors.len(),
{
    if doors.len() > 0 {
        let rest = doors.drop_first();
        assert forall|j: int| 0 <= j < rest.len() implies !((#[trigger] rest[j]).0 == x && rest[j].1
            == z) by {
            assert(rest[j] == doors[j + 1]);
        }
        assert(!(doors[0].0 == x && doors[0].1 == z));
        law_unlisted_door_is_shut(rest, x, z);
    }
}

// ---------------------------------------------------------------- collision

/// The player's square is stopped by any wall, and by any door that is not
/// passable, in any of the rows and columns it covers.
pub proof fn law_obstacle_in_area_blocks(
    grid: Seq<u8>,
    w: usize,
    h: usize,
    doors: Seq<(usize, usize, bool)>,
    min_x: i32,
    max_x: i32,
    min_z: i32,
    max_z: i32,
    x: i32,
    z: i32,
)
    requires
        min_x <= x <= max_x,
        min_z <= z <= max_z,
        cell_at(grid, w, h, x, z) == WALL || (cell_at(grid, w, h, x, z) == DOOR && !door_passable(
            doors,
            x as usize,
            z as usize,
        )),
    ensures
        area_blocked(grid, w, h, doors, min_x, max_x, min_z, max_z),
{
    assert(blocks_player(grid, w, h, doors, x, z));
}

/// The player's square is stopped by nothing else: a blocked square covers
/// a wall or a door that is not passable.
pub proof fn law_blocked_area_holds_obstacle(
    grid: Seq<u8>,
    w: usize,
    h: usize,
    doors: Seq<(usize, usize, bool)>,
    min_x: i32,
    max_x: i32,
    min_z: i32,
    max_z: i32,
)
    requires
        area_blocked(grid, w, h, doors, min_x, max_x, min_z, max_z),
    ensures
        exists|x: i32, z: i32|
            min_x <= x <= max_x && min_z <= z <= max_z && (#[trigger] cell_at(grid, w, h, x, z)
                == WALL || (cell_at(grid, w, h, x, z) == DOOR && !door_passable(
                doors,
                x as usize,
                z as usize,
            ))),
{
    let (x, z) = choose|x: i32, z: i32|
        min_x <= x <= max_x && min_z <= z <= max_z && #[trigger] blocks_player(
            grid,
            w,
            h,
            doors,
            x,
            z,
        );
    assert(cell_at(grid, w, h, x, z) == WALL || (cell_at(grid, w, h, x, z) == DOOR
        && !door_passable(doors, x as usize, z as usize)));
}

// ---------------------------------------------------------------- use key

/// The use key toggles the door it reaches and no other: a closed door
/// starts opening, an open one starts closing, a moving one keeps moving.
pub proof fn law_use_toggles_reached_door(
    grid: Seq<u8>,
    w: usize,
    h: usize,
    cells: Seq<(usize, usize)>,
    states: Seq<DoorState>,
    cands: Seq<(i32, i32)>,
    t: (usize, usize),
    i: int,
)
    requires
        states.len() == cells.len(),
        door_target(grid, w, h, cands) == Some(t),
        door_index(cells, t) == Some(i),
    ensures
        0 <= i < states.len(),
        cells[i] == t,
        after_use(grid, w, h, cells, states, cands).len() == states.len(),
        states[i] == DoorState::Closed ==> after_use(grid, w, h, cells, states, cands)[i]
            == DoorState::Opening,
        states[i] == DoorState::Open ==> after_use(grid, w, h, cells, states, cands)[i]
            == DoorState::Closing,
        states[i] == DoorState::Opening ==> after_use(grid, w, h, cells, states, cands)[i]
            == DoorState::Opening,
        states[i] == DoorState::Closing ==> after_use(grid, w, h, cells, states, cands)[i]
            == DoorState::Closing,
        forall|j: int|
            0 <= j < states.len() && j != i ==> #[trigger] after_use(
                grid,
                w,
                h,
                cells,
                states,
                cands,
            )[j] == states[j],
{
    lemma_door_index_bounds(cells, t);
}

/// The door the use key toggles is the first one listed at the cell it
/// reaches.
pub proof fn law_reached_door_is_first_listed(cells: Seq<(usize, usize)>, t: (usize, usize), i: int)
    requires
        0 <= i < cells.len(),
        cells[i] == t,
        forall|j: int| 0 <= j < i ==> #[trigger] cells[j] != t,
    ensures
        door_index(cells, t) == Some(i),
    decreases i,
{
    if i > 0 {
        let rest = cells.drop_first();
        assert forall|j: int| 0 <= j < i - 1 implies #[trigger] rest[j] != t by {
            assert(rest[j] == cells[j + 1]);
        }
        assert(rest[i - 1] == cells[i]);
        assert(cells[0] != t);
        law_reached_door_is_first_listed(rest, t, i - 1);
    }
}

/// With no door in reach, or none listed at the cell reached, the use key
/// changes nothing.
pub proof fn law_use_without_door_changes_nothing(
    grid: Seq<u8>,
    w: usize,
    h: usize,
    cells: Seq<(usize, usize)>,
    states: Seq<DoorState>,
    cands: Seq<(i32, i32)>,
)
    requires
        door_target(grid, w, h, cands) matches Some(t) ==> door_index(cells, t) is None,
    ensures
        after_use(grid, w, h, cells, states, cands) == states,
{
}

// ---------------------------------------------------------------- materials

/// A material's texture comes only from the `map_Kd` lines after its own
/// `newmtl`: after `newmtl n`, as long as no `map_Kd` or `newmtl` line
/// follows, the material being defined is `n` and has no texture (-1).
pub proof fn law_new_material_starts_untextured(
    before: Seq<MtlLineView>,
    n: Seq<char>,
    rest: Seq<MtlLineView>,
    kd: Seq<Option<u32>>,
    images: Seq<(String, Texture)>,
    textures: Seq<TextureView>,
)
    requires
        forall|i: int| 0 <= i < rest.len() ==> !(#[trigger] rest[i] is MapKd) && !(rest[i] is NewMtl),
    ensures
        mtl_state(before.push(MtlLineView::NewMtl(n)) + rest, kd, images, textures).name == n,
        mtl_state(before.push(MtlLineView::NewMtl(n)) + rest, kd, images, textures).tex == -1i32,
    decreases rest.len(),
{
    let head = before.push(MtlLineView::NewMtl(n));
    if rest.len() == 0 {
        assert(head + rest =~= head);
        assert(head.drop_last() =~= before);
    } else {
        let pre = rest.drop_last();
        assert forall|i: int| 0 <= i < pre.len() implies !(#[trigger] pre[i] is MapKd) && !(
        pre[i] is NewMtl) by {
            assert(pre[i] == rest[i]);
        }
        law_new_material_starts_untextured(before, n, pre, kd, images, textures);
        assert((head + rest).drop_last() =~= head + pre);
        assert((head + rest).last() == rest[rest.len() - 1]);
    }
}

/// A named material with no `map_Kd` line of its own is stored with no
/// texture (-1) when the next `newmtl` begins, and with `fallback` when it
/// is the last material of the text.
pub proof fn law_untextured_material_is_stored_untextured(
    before: Seq<MtlLineView>,
    n: Seq<char>,
    rest: Seq<MtlLineView>,
    next: Seq<char>,
    kd: Seq<Option<u32>>,
    images: Seq<(String, Texture)>,
    textures: Seq<TextureView>,
    fallback: i32,
)
    requires
        n.len() > 0,
        forall|i: int| 0 <= i < rest.len() ==> !(#[trigger] rest[i] is MapKd) && !(rest[i] is NewMtl),
    ensures
        ({
            let lines = before.push(MtlLineView::NewMtl(n)) + rest;
            let color = mtl_state(lines, kd, images, textures).color;
            &&& mtl_state(lines.push(MtlLineView::NewMtl(next)), kd, images, textures).log.last()
                == (n, Material { tex: -1i32, color })
            &&& mtl_table(lines, kd, images, textures, fallback).last() == (
                n,
                Material { tex: fallback, color },
            )
        }),
{
    law_new_material_starts_untextured(before, n, rest, kd, images, textures);
    let lines = before.push(MtlLineView::NewMtl(n)) + rest;
    assert(lines.push(MtlLineView::NewMtl(next)).drop_last() =~= lines);
}

// ---------------------------------------------------------------- more of the map

/// `#` is wall, `D` is door, and every other map character is floor.
pub proof fn law_map_characters(ch: char)
    ensures
        cell_code('#') == WALL,
        cell_code('D') == DOOR,
        ch != '#' && ch != 'D' ==> cell_code(ch) == FLOOR,
        WALL != FLOOR && DOOR != FLOOR && WALL != DOOR,
{
}

/// The use key reaches the nearest candidate cell that lies in the grid and
/// holds a door.
pub proof fn law_use_reaches_nearest_door_cell(
    grid: Seq<u8>,
    w: usize,
    h: usize,
    cands: Seq<(i32, i32)>,
    k: int,
)
    requires
        0 <= k < cands.len(),
        0 <= cands[k].0 < w,
        0 <= cands[k].1 < h,
        cell_at(grid, w, h, cands[k].0, cands[k].1) == DOOR,
        forall|j: int|
            0 <= j < k ==> !(0 <= (#[trigger] cands[j]).0 < w && 0 <= cands[j].1 < h && cell_at(
                grid,
                w,
                h,
                cands[j].0,
                cands[j].1,
            ) == DOOR),
    ensures
        door_target(grid, w, h, cands) == Some((cands[k].0 as usize, cands[k].1 as usize)),
    decreases k,
{
    if k > 0 {
        let rest = cands.drop_first();
        assert forall|j: int| 0 <= j < k - 1 implies !(0 <= (#[trigger] rest[j]).0 < w && 0
            <= rest[j].1 < h && cell_at(grid, w, h, rest[j].0, rest[j].1) == DOOR) by {
            assert(rest[j] == cands[j + 1]);
        }
        assert(rest[k - 1] == cands[k]);
        assert(!(0 <= cands[0].0 < w && 0 <= cands[0].1 < h && cell_at(
            grid,
            w,
            h,
            cands[0].0,
            cands[0].1,
        ) == DOOR));
        law_use_reaches_nearest_door_cell(grid, w, h, rest, k - 1);
    }
}

// ---------------------------------------------------------------- OBJ indices

/// Positive OBJ indices count from one: vertex 1 is the first vertex, and
/// texture coordinate 1 the first texture coordinate.
pub proof fn law_indices_count_from_one(k: i32, t: i32, nv: int, nt: int)
    requires
        1 <= k,
        1 <= t,
    ensures
        resolve((k, Some(t)), nv, nt).pos == k - 1,
        resolve((k, Some(t)), nv, nt).uv == Some((t - 1) as usize),
        resolve((k, None), nv, nt).uv is None,
{
}

// ---------------------------------------------------------------- textures

proof fn lemma_image_found_at(images: Seq<(String, Texture)>, file: Seq<char>, s: int, j: int)
    requires
        0 <= s <= j < images.len(),
        images[j].0@ == file,
        forall|i: int| s <= i < j ==> (#[trigger] images[i]).0@ != file,
    ensures
        image_index_from(images, file, s) == Some(j),
    decreases j - s,
{
    if s < j {
        lemma_image_found_at(images, file, s + 1, j);
    }
}

proof fn lemma_image_missing(images: Seq<(String, Texture)>, file: Seq<char>, s: int)
    requires
        0 <= s,
        forall|i: int| 0 <= i < images.len() ==> (#[trigger] images[i]).0@ != file,
    ensures
        image_index_from(images, file, s) is None,
    decreases images.len() - s,
{
    if s < images.len() {
        lemma_image_missing(images, file, s + 1);
    }
}

/// A `map_Kd` file name takes the first image of that name: it is appended
/// to the texture list, and its index is the list's old length.
pub proof fn law_texture_is_first_image_named(
    images: Seq<(String, Texture)>,
    file: Seq<char>,
    textures: Seq<TextureView>,
    j: int,
)
    requires
        0 <= j < images.len(),
        images[j].0@ == file,
        forall|i: int| 0 <= i < j ==> (#[trigger] images[i]).0@ != file,
    ensures
        found_texture(images, file, textures) == (
            textures.push(images[j].1@),
            textures.len() as i32,
        ),
{
    lemma_image_found_at(images, file, 0, j);
}

/// A file name that no image has gives -1 and leaves the texture list as
/// it is.
pub proof fn law_unknown_texture_file(
    images: Seq<(String, Texture)>,
    file: Seq<char>,
    textures: Seq<TextureView>,
)
    requires
        forall|i: int| 0 <= i < images.len() ==> (#[trigger] images[i]).0@ != file,
    ensures
        found_texture(images, file, textures) == (textures, -1i32),
{
    lemma_image_missing(images, file, 0);
}

/// `Kd` sets the colour of the material being defined and nothing else;
/// `map_Kd` sets its texture and nothing else of it.
pub proof fn law_material_lines_touch_their_field(
    lines: Seq<MtlLineView>,
    ws: Seq<Seq<char>>,
    f: Seq<char>,
    c: u32,
    kd: Seq<Option<u32>>,
    images: Seq<(String, Texture)>,
    textures: Seq<TextureView>,
)
    requires
        kd[lines.len() as int] == Some(c),
    ensures
        ({
            let a = mtl_state(lines, kd, images, textures);
            let b = mtl_state(lines.push(MtlLineView::Kd(ws)), kd, images, textures);
            b.color == c && b.name == a.name && b.tex == a.tex && b.log == a.log
        }),
        ({
            let a = mtl_state(lines, kd, images, textures);
            let b = mtl_state(lines.push(MtlLineView::MapKd(f)), kd, images, textures);
            &&& (b.textures, b.tex) == found_texture(images, f, a.textures)
            &&& b.color == a.color && b.name == a.name && b.log == a.log
        }),
{
    assert(lines.push(MtlLineView::Kd(ws)).drop_last() =~= lines);
    assert(lines.push(MtlLineView::MapKd(f)).drop_last() =~= lines);
}

// ---------------------------------------------------------------- frames

/// Swapping red and blue exchanges bytes 0 and 2 of every whole pixel and
/// keeps bytes 1 and 3, and any trailing partial pixel.
pub proof fn law_swap_exchanges_red_and_blue(s: Seq<u8>, p: int, k: int)
    requires
        0 <= p,
        4 * p + 3 < s.len(),
        s.len() / 4 * 4 <= k < s.len(),
    ensures
        swap_red_blue(s).len() == s.len(),
        swap_red_blue(s)[4 * p] == s[4 * p + 2],
        swap_red_blue(s)[4 * p + 1] == s[4 * p + 1],
        swap_red_blue(s)[4 * p + 2] == s[4 * p],
        swap_red_blue(s)[4 * p + 3] == s[4 * p + 3],
        swap_red_blue(s)[k] == s[k],
{
    let whole = s.len() / 4 * 4;
    assert(4 * p + 3 < whole) by {
        vstd::arithmetic::div_mod::lemma_fundamental_div_mod(s.len() as int, 4);
    }
    assert((4 * p) % 4 == 0 && (4 * p + 1) % 4 == 1 && (4 * p + 2) % 4 == 2 && (4 * p + 3) % 4
        == 3);
}

/// Rows are padded to the next multiple of 256 bytes, and no further.
pub proof fn law_rows_pad_to_next_multiple(row: int)
    requires
        row >= 0,
    ensures
        padded_row(row) % 256 == 0,
        row <= padded_row(row) < row + 256,
{
    vstd::arithmetic::div_mod::lemma_fundamental_div_mod(row + 255, 256);
}

proof fn lemma_position_of(kinds: Seq<FormatKind>, k: FormatKind)
    ensures
        position_of(kinds, k) matches Some(i) ==> 0 <= i < kinds.len() && kinds[i] == k && forall|
            j: int,
        |
            0 <= j < i ==> #[trigger] kinds[j] != k,
        position_of(kinds, k) is None ==> !kinds.contains(k),
    decreases kinds.len(),
{
    if kinds.len() > 0 {
        let rest = kinds.drop_first();
        lemma_position_of(rest, k);
        if kinds[0] != k {
            if let Some(i) = position_of(rest, k) {
                assert forall|j: int| 0 <= j < i + 1 implies #[trigger] kinds[j] != k by {
                    if j > 0 {
                        assert(kinds[j] == rest[j - 1]);
                    }
                }
            } else {
                if kinds.contains(k) {
                    let j = choose|j: int| 0 <= j < kinds.len() && kinds[j] == k;
                    assert(rest[j - 1] == kinds[j]);
                }
            }
        }
    }
}

/// The surface format rendered to is the first plain BGRA one offered; with
/// none, the first plain RGBA one; with neither, the first offered.
pub proof fn law_format_preference(kinds: Seq<FormatKind>)
    ensures
        kinds.contains(FormatKind::Bgra8Unorm) ==> kinds[preferred_format(kinds)]
            == FormatKind::Bgra8Unorm && forall|j: int|
            0 <= j < preferred_format(kinds) ==> #[trigger] kinds[j] != FormatKind::Bgra8Unorm,
        !kinds.contains(FormatKind::Bgra8Unorm) && kinds.contains(FormatKind::Rgba8Unorm)
            ==> kinds[preferred_format(kinds)] == FormatKind::Rgba8Unorm && forall|j: int|
            0 <= j < preferred_format(kinds) ==> #[trigger] kinds[j] != FormatKind::Rgba8Unorm,
        !kinds.contains(FormatKind::Bgra8Unorm) && !kinds.contains(FormatKind::Rgba8Unorm)
            ==> preferred_format(kinds) == 0,
{
    lemma_position_of(kinds, FormatKind::Bgra8Unorm);
    lemma_position_of(kinds, FormatKind::Rgba8Unorm);
    if kinds.contains(FormatKind::Bgra8Unorm) {
        let j = choose|j: int| 0 <= j < kinds.len() && kinds[j] == FormatKind::Bgra8Unorm;
        assert(kinds[j] == FormatKind::Bgra8Unorm);
    } else if kinds.contains(FormatKind::Rgba8Unorm) {
        let j = choose|j: int| 0 <= j < kinds.len() && kinds[j] == FormatKind::Rgba8Unorm;
        assert(kinds[j] == FormatKind::Rgba8Unorm);
    }
}

} // verus!
