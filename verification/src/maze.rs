//! The maze grid: reading the map text, cell lookup with a solid border,
//! and the blocking rules for movement, sight and the use key.

use vstd::prelude::*;
use crate::game::{door_toggled, DoorState, EnemyKind, FLOOR, WALL, DOOR};
use crate::text::{chars_of, lines_of, text_lines, views, split_on, strip_cr, lemma_split_on_nonempty};

verus! {

/// An enemy placed by the map: its cell and kind.
#[derive(Clone, Copy, Debug, PartialEq, Eq, Structural)]
pub struct EnemySpawn {
    pub col: usize,
    pub row: usize,
    pub kind: EnemyKind,
}

/// What the map text says: grid size (`w` is the length in bytes of the
/// last line), cell codes row by row, door cells, enemies and the player
/// spawn cell, all in reading order.
pub struct MapLayout {
    pub w: usize,
    pub h: usize,
    pub grid: Vec<u8>,
    pub doors: Vec<(usize, usize)>,
    pub enemies: Vec<EnemySpawn>,
    pub spawn: Option<(usize, usize)>,
}

/// The cell code of a map character.
pub open spec fn cell_code(ch: char) -> u8 {
    if ch == '#' {
        WALL
    } else if ch == 'D' {
        DOOR
    } else {
        FLOOR
    }
}

/// The characters of one line with their (column, row).
pub open spec fn line_cells(line: Seq<char>, row: usize) -> Seq<(usize, usize, char)> {
    Seq::new(line.len(), |c: int| (c as usize, row, line[c]))
}

/// The characters of all lines with their (column, row), row by row.
pub open spec fn map_cells(lines: Seq<Seq<char>>) -> Seq<(usize, usize, char)>
    decreases lines.len(),
{
    if lines.len() == 0 {
        Seq::empty()
    } else {
        map_cells(lines.drop_last()) + line_cells(lines.last(), (lines.len() - 1) as usize)
    }
}

/// The cells marked `D`, in order.
pub open spec fn door_cells(cells: Seq<(usize, usize, char)>) -> Seq<(usize, usize)>
    decreases cells.len(),
{
    if cells.len() == 0 {
        Seq::empty()
    } else {
        let prev = door_cells(cells.drop_last());
        let t = cells.last();
        if t.2 == 'D' {
            prev.push((t.0, t.1))
        } else {
            prev
        }
    }
}

/// The cells marked `E` (spider) or `W` (wuson), in order.
pub open spec fn enemy_spawns(cells: Seq<(usize, usize, char)>) -> Seq<EnemySpawn>
    decreases cells.len(),
{
    if cells.len() == 0 {
        Seq::empty()
    } else {
        let prev = enemy_spawns(cells.drop_last());
        let t = cells.last();
        if t.2 == 'E' {
            prev.push(EnemySpawn { col: t.0, row: t.1, kind: EnemyKind::Spider })
        } else if t.2 == 'W' {
            prev.push(EnemySpawn { col: t.0, row: t.1, kind: EnemyKind::Wuson })
        } else {
            prev
        }
    }
}

/// The last cell marked `P`.
pub open spec fn spawn_cell(cells: Seq<(usize, usize, char)>) -> Option<(usize, usize)>
    decreases cells.len(),
{
    if cells.len() == 0 {
        None
    } else if cells.last().2 == 'P' {
        Some((cells.last().0, cells.last().1))
    } else {
        spawn_cell(cells.drop_last())
    }
}

/// The number of bytes of a character in UTF-8.
pub open spec fn utf8_width(c: char) -> nat {
    let u = c as u32;
    if u < 0x80 {
        1
    } else if u < 0x800 {
        2
    } else if u < 0x10000 {
        3
    } else {
        4
    }
}

/// The number of bytes of a text in UTF-8.
pub open spec fn utf8_len(s: Seq<char>) -> nat
    decreases s.len(),
{
    if s.len() == 0 {
        0
    } else {
        utf8_len(s.drop_last()) + utf8_width(s.last())
    }
}

proof fn lemma_utf8_len_bound(s: Seq<char>)
    ensures
        utf8_len(s) <= 4 * s.len(),
    decreases s.len(),
{
    if s.len() > 0 {
        lemma_utf8_len_bound(s.drop_last());
    }
}

proof fn lemma_split_pieces_short(s: Seq<char>, sep: char)
    ensures
        forall|i: int| 0 <= i < split_on(s, sep).len() ==> #[trigger] split_on(s, sep)[i].len() <= s.len(),
    decreases s.len(),
{
    lemma_split_on_nonempty(s, sep);
    if s.len() > 0 {
        lemma_split_pieces_short(s.drop_last(), sep);
        lemma_split_on_nonempty(s.drop_last(), sep);
        let p = split_on(s.drop_last(), sep);
        assert forall|i: int| 0 <= i < split_on(s, sep).len() implies #[trigger] split_on(
            s,
            sep,
        )[i].len() <= s.len() by {
            if s.last() != sep && i == p.len() - 1 {
                assert(split_on(s, sep)[i] == p.last().push(s.last()));
            } else if i < p.len() {
                assert(split_on(s, sep)[i] == p[i]);
            }
        }
    }
}

proof fn lemma_lines_short(s: Seq<char>)
    ensures
        forall|i: int| 0 <= i < text_lines(s).len() ==> #[trigger] text_lines(s)[i].len() <= s.len(),
{
    lemma_split_pieces_short(s, '\n');
    lemma_split_on_nonempty(s, '\n');
    let p = split_on(s, '\n');
    assert forall|i: int| 0 <= i < text_lines(s).len() implies #[trigger] text_lines(s)[i].len()
        <= s.len() by {
        if i < p.len() - 1 {
            assert(text_lines(s)[i] == strip_cr(p[i]));
        } else {
            assert(text_lines(s)[i] == p.last());
        }
    }
}

fn utf8_len_of(line: &Vec<char>) -> (r: usize)
    requires
        line@.len() <= usize::MAX / 4,
    ensures
        r == utf8_len(line@),
{
    let n = line.len();
    let mut total: usize = 0;
    for k in 0..n
        invariant
            n == line@.len(),
            n <= usize::MAX / 4,
            total == utf8_len(line@.take(k as int)),
            total <= 4 * k,
    {
        let u = line[k] as u32;
        let width: usize = if u < 0x80 {
            1
        } else if u < 0x800 {
            2
        } else if u < 0x10000 {
            3
        } else {
            4
        };
        assert(line@.take(k + 1).drop_last() =~= line@.take(k as int));
        total = total + width;
    }
    assert(line@.take(n as int) =~= line@);
    total
}

/// Reads a map text. Each character is one cell of its line: `#` a wall,
/// `D` a door, anything else floor; `D`, `E`, `W` and `P` are also listed
/// with their cells. The grid is `h` lines high and `w` is the byte length
/// of the last line.
pub fn parse_map(map: &str) -> (m: MapLayout)
    requires
        map@.len() <= usize::MAX / 4,
    ensures
        ({
            let ls = text_lines(map@);
            let cells = map_cells(ls);
            &&& m.h == ls.len()
            &&& m.w == (if ls.len() == 0 {
                0
            } else {
                utf8_len(ls.last())
            })
            &&& m.grid@ == cells.map_values(|t: (usize, usize, char)| cell_code(t.2))
            &&& m.doors@ == door_cells(cells)
            &&& m.enemies@ == enemy_spawns(cells)
            &&& m.spawn == spawn_cell(cells)
        }),
{
    let cs = chars_of(map);
    let ls = lines_of(&cs);
    let ghost lv = views(ls@);
    proof {
        lemma_lines_short(map@);
    }
    let mut grid: Vec<u8> = Vec::new();
    let mut doors: Vec<(usize, usize)> = Vec::new();
    let mut enemies: Vec<EnemySpawn> = Vec::new();
    let mut spawn: Option<(usize, usize)> = None;
    let mut w: usize = 0;
    let nrows = ls.len();
    let ghost mut cells: Seq<(usize, usize, char)> = Seq::empty();
    for row in 0..nrows
        invariant
            nrows == ls@.len(),
            lv == views(ls@),
            lv == text_lines(map@),
            map@.len() <= usize::MAX / 4,
            forall|i: int| 0 <= i < lv.len() ==> #[trigger] lv[i].len() <= map@.len(),
            cells == map_cells(lv.take(row as int)),
            grid@ == cells.map_values(|t: (usize, usize, char)| cell_code(t.2)),
            doors@ == door_cells(cells),
            enemies@ == enemy_spawns(cells),
            spawn == spawn_cell(cells),
            w == (if row == 0 {
                0
            } else {
                utf8_len(lv[row - 1])
            }),
    {
        let line = &ls[row];
        assert(line@ == lv[row as int]);
        w = utf8_len_of(line);
        let ncols = line.len();
        let ghost start = cells;
        for col in 0..ncols
            invariant
                ncols == line@.len(),
                cells == start + line_cells(line@, row).take(col as int),
                grid@ == cells.map_values(|t: (usize, usize, char)| cell_code(t.2)),
                doors@ == door_cells(cells),
                enemies@ == enemy_spawns(cells),
                spawn == spawn_cell(cells),
        {
            let ch = line[col];
            let ghost old_cells = cells;
            proof {
                cells = cells.push((col, row, ch));
                assert(cells.drop_last() == old_cells);
                assert(cells =~= start + line_cells(line@, row).take(col + 1));
            }
            let code: u8 = if ch == '#' {
                WALL
            } else if ch == 'D' {
                DOOR
            } else {
                FLOOR
            };
            grid.push(code);
            assert(grid@ =~= cells.map_values(|t: (usize, usize, char)| cell_code(t.2)));
            if ch == 'D' {
                doors.push((col, row));
            } else if ch == 'E' {
                enemies.push(EnemySpawn { col, row, kind: EnemyKind::Spider });
            } else if ch == 'W' {
                enemies.push(EnemySpawn { col, row, kind: EnemyKind::Wuson });
            } else if ch == 'P' {
                spawn = Some((col, row));
            }
        }
        proof {
            assert(line_cells(line@, row).take(ncols as int) =~= line_cells(line@, row));
            assert(lv.take(row + 1).drop_last() =~= lv.take(row as int));
            assert(lv.take(row + 1).last() == lv[row as int]);
        }
    }
    assert(lv.take(nrows as int) =~= lv);
    MapLayout { w, h: nrows, grid, doors, enemies, spawn }
}

// ---------------------------------------------------------------- cells

/// The grid holds every cell of a `w` x `h` grid.
pub open spec fn grid_covers(grid: Seq<u8>, w: usize, h: usize) -> bool {
    w as int * h as int <= grid.len()
}

/// Whether `grid` holds every cell of a `w` x `h` grid (what `cell`
/// needs).
pub fn grid_fits(grid: &[u8], w: usize, h: usize) -> (r: bool)
    ensures
        r == grid_covers(grid@, w, h),
{
    let len = grid.len();
    match w.checked_mul(h) {
        Some(n) => n <= len,
        None => false,
    }
}

/// The cell code at integer cell coordinates; outside the grid is wall.
pub open spec fn cell_at(grid: Seq<u8>, w: usize, h: usize, x: i32, z: i32) -> u8 {
    if x < 0 || z < 0 || x >= #[verifier::truncate] (w as i32) || z >= #[verifier::truncate] (h as i32) {
        WALL
    } else {
        grid[z * w + x]
    }
}

proof fn lemma_cell_index(w: int, h: int, x: int, z: int)
    requires
        0 <= x < w,
        0 <= z < h,
    ensures
        z * w + x < w * h,
{
    assert((z + 1) * w <= h * w) by (nonlinear_arith)
        requires
            z + 1 <= h,
            w > 0,
    ;
    assert(w * h == h * w) by (nonlinear_arith);
    assert((z + 1) * w == z * w + w) by (nonlinear_arith);
}

/// Grid cell at integer cell coordinates; out of bounds is solid.
pub fn cell(grid: &[u8], w: usize, h: usize, x: i32, z: i32) -> (c: u8)
    requires
        grid_covers(grid@, w, h),
    ensures
        c == cell_at(grid@, w, h, x, z),
{
    if x < 0 || z < 0 || x >= #[verifier::truncate] (w as i32) || z >= #[verifier::truncate] (h as i32) {
        return WALL;
    }
    proof {
        assert(0 <= x && x < (w as i32) ==> (x as usize) < w) by (bit_vector);
        assert(0 <= z && z < (h as i32) ==> (z as usize) < h) by (bit_vector);
    }
    let xi = x as usize;
    let zi = z as usize;
    let n = grid.len();
    proof {
        lemma_cell_index(w as int, h as int, xi as int, zi as int);
        assert(zi * w <= zi * w + xi);
        assert(zi * w + xi < n);
    }
    grid[zi * w + xi]
}

// ---------------------------------------------------------------- doors

/// Whether the door at (x, z) lets the player and shots through: the first
/// listed door at that cell decides (its flag says it is open far enough);
/// a cell with no listed door is shut.
pub open spec fn door_passable(doors: Seq<(usize, usize, bool)>, x: usize, z: usize) -> bool
    decreases doors.len(),
{
    if doors.len() == 0 {
        false
    } else if doors[0].0 == x && doors[0].1 == z {
        doors[0].2
    } else {
        door_passable(doors.drop_first(), x, z)
    }
}

fn door_passable_at(doors: &[(usize, usize, bool)], x: usize, z: usize) -> (r: bool)
    ensures
        r == door_passable(doors@, x, z),
{
    let n = doors.len();
    assert(doors@.skip(0) =~= doors@);
    for i in 0..n
        invariant
            n == doors@.len(),
            door_passable(doors@, x, z) == door_passable(doors@.skip(i as int), x, z),
    {
        assert(doors@.skip(i as int)[0] == doors@[i as int]);
        assert(doors@.skip(i as int).drop_first() =~= doors@.skip(i + 1));
        let d = doors[i];
        if d.0 == x && d.1 == z {
            return d.2;
        }
    }
    false
}

/// Whether a point in the given cell is inside something solid: walls are,
/// floor is not, and any other cell (a door) is unless its door is open.
pub open spec fn solid_at_cell(
    grid: Seq<u8>,
    w: usize,
    h: usize,
    doors: Seq<(usize, usize, bool)>,
    x: i32,
    z: i32,
) -> bool {
    let c = cell_at(grid, w, h, x, z);
    if c == FLOOR {
        false
    } else if c == WALL {
        true
    } else {
        !door_passable(doors, x as usize, z as usize)
    }
}

/// Whether the cell (x, z) stops a shot or an enemy.
pub fn solid_cell(grid: &[u8], w: usize, h: usize, doors: &[(usize, usize, bool)], x: i32, z: i32) -> (r:
    bool)
    requires
        grid_covers(grid@, w, h),
    ensures
        r == solid_at_cell(grid@, w, h, doors@, x, z),
{
    let c = cell(grid, w, h, x, z);
    if c == FLOOR {
        return false;
    }
    if c == WALL {
        return true;
    }
    !door_passable_at(doors, x as usize, z as usize)
}

/// Whether the cell (x, z) stops the player: a wall, or a door that is not
/// open far enough. Other codes do not.
pub open spec fn blocks_player(
    grid: Seq<u8>,
    w: usize,
    h: usize,
    doors: Seq<(usize, usize, bool)>,
    x: i32,
    z: i32,
) -> bool {
    let c = cell_at(grid, w, h, x, z);
    c == WALL || (c == DOOR && !door_passable(doors, x as usize, z as usize))
}

/// Whether any cell of the rectangle [min_x, max_x] x [min_z, max_z] stops
/// the player.
pub open spec fn area_blocked(
    grid: Seq<u8>,
    w: usize,
    h: usize,
    doors: Seq<(usize, usize, bool)>,
    min_x: i32,
    max_x: i32,
    min_z: i32,
    max_z: i32,
) -> bool {
    exists|x: i32, z: i32|
        min_x <= x <= max_x && min_z <= z <= max_z && #[trigger] blocks_player(
            grid,
            w,
            h,
            doors,
            x,
            z,
        )
}

/// Whether the player's square, given by the cells it touches, overlaps a
/// wall or a shut door.
pub fn collides_cells(
    grid: &[u8],
    w: usize,
    h: usize,
    doors: &[(usize, usize, bool)],
    min_x: i32,
    max_x: i32,
    min_z: i32,
    max_z: i32,
) -> (r: bool)
    requires
        grid_covers(grid@, w, h),
    ensures
        r == area_blocked(grid@, w, h, doors@, min_x, max_x, min_z, max_z),
{
    let mut gz: i64 = min_z as i64;
    while gz <= max_z as i64
        invariant
            grid_covers(grid@, w, h),
            min_z <= gz <= max_z as i64 + 1 || gz == min_z,
            forall|x: i32, z: i32|
                min_x <= x <= max_x && min_z <= z < gz ==> !#[trigger] blocks_player(
                    grid@,
                    w,
                    h,
                    doors@,
                    x,
                    z,
                ),
        decreases max_z as i64 + 1 - gz,
    {
        let zz = gz as i32;
        let mut gx: i64 = min_x as i64;
        while gx <= max_x as i64
            invariant
                grid_covers(grid@, w, h),
                min_z <= gz <= max_z,
                zz == gz,
                min_x <= gx <= max_x as i64 + 1 || gx == min_x,
                forall|x: i32| min_x <= x < gx ==> !#[trigger] blocks_player(grid@, w, h, doors@, x, zz),
            decreases max_x as i64 + 1 - gx,
        {
            let xx = gx as i32;
            let c = cell(grid, w, h, xx, zz);
            let blocked = c == WALL || (c == DOOR && !door_passable_at(doors, xx as usize, zz as usize));
            if blocked {
                assert(blocks_player(grid@, w, h, doors@, xx, zz));
                return true;
            }
            gx = gx + 1;
        }
        gz = gz + 1;
    }
    false
}

/// The cell the use key reaches: the first candidate cell, in order, that
/// lies inside the grid and is a door.
pub open spec fn door_target(grid: Seq<u8>, w: usize, h: usize, cands: Seq<(i32, i32)>) -> Option<
    (usize, usize),
>
    decreases cands.len(),
{
    if cands.len() == 0 {
        None
    } else {
        let (cx, cz) = cands[0];
        if cx >= 0 && cz >= 0 && (cx as usize) < w && (cz as usize) < h && cell_at(grid, w, h, cx, cz)
            == DOOR {
            Some((cx as usize, cz as usize))
        } else {
            door_target(grid, w, h, cands.drop_first())
        }
    }
}

/// The first door listed at `cell`.
pub open spec fn door_index(cells: Seq<(usize, usize)>, cell: (usize, usize)) -> Option<int>
    decreases cells.len(),
{
    if cells.len() == 0 {
        None
    } else if cells[0] == cell {
        Some(0)
    } else {
        match door_index(cells.drop_first(), cell) {
            Some(i) => Some(i + 1),
            None => None,
        }
    }
}

pub proof fn lemma_door_index_bounds(cells: Seq<(usize, usize)>, cell: (usize, usize))
    ensures
        door_index(cells, cell) matches Some(i) ==> 0 <= i < cells.len() && cells[i] == cell,
    decreases cells.len(),
{
    if cells.len() > 0 && cells[0] != cell {
        lemma_door_index_bounds(cells.drop_first(), cell);
    }
}

/// The door states after the use key: the door that `door_target` finds is
/// toggled (the first one listed at that cell); nothing else changes.
pub open spec fn after_use(
    grid: Seq<u8>,
    w: usize,
    h: usize,
    cells: Seq<(usize, usize)>,
    states: Seq<DoorState>,
    cands: Seq<(i32, i32)>,
) -> Seq<DoorState> {
    match door_target(grid, w, h, cands) {
        Some(t) => match door_index(cells, t) {
            Some(i) => states.update(i, door_toggled(states[i])),
            None => states,
        },
        None => states,
    }
}

/// Uses the door ahead: `cands` are the cells a short way ahead of the
/// player, nearest first; `cells[i]` is the cell of the door whose state is
/// `states[i]`.
pub fn use_door_ahead(
    grid: &[u8],
    w: usize,
    h: usize,
    cells: &[(usize, usize)],
    states: &mut Vec<DoorState>,
    cands: &[(i32, i32)],
)
    requires
        grid_covers(grid@, w, h),
        old(states)@.len() == cells@.len(),
    ensures
        final(states)@ == after_use(grid@, w, h, cells@, old(states)@, cands@),
{
    let n = cands.len();
    assert(cands@.skip(0) =~= cands@);
    for k in 0..n
        invariant
            n == cands@.len(),
            grid_covers(grid@, w, h),
            states@ == old(states)@,
            states@.len() == cells@.len(),
            door_target(grid@, w, h, cands@) == door_target(grid@, w, h, cands@.skip(k as int)),
    {
        assert(cands@.skip(k as int)[0] == cands@[k as int]);
        assert(cands@.skip(k as int).drop_first() =~= cands@.skip(k + 1));
        let (cx, cz) = cands[k];
        if cx >= 0 && cz >= 0 && (cx as usize) < w && (cz as usize) < h {
            if cell(grid, w, h, cx, cz) == DOOR {
                let target = (cx as usize, cz as usize);
                let m = cells.len();
                assert(cells@.skip(0) =~= cells@);
                for i in 0..m
                    invariant
                        m == cells@.len(),
                        states@ == old(states)@,
                        states@.len() == m,
                        door_index(cells@, target) == match door_index(cells@.skip(i as int), target) {
                            Some(j) => Some(j + i),
                            None => None,
                        },
                        door_target(grid@, w, h, cands@) == Some(target),
                {
                    assert(cells@.skip(i as int)[0] == cells@[i as int]);
                    assert(cells@.skip(i as int).drop_first() =~= cells@.skip(i + 1));
                    if cells[i].0 == target.0 && cells[i].1 == target.1 {
                        let s = states[i];
                        states.set(i, s.toggled());
                        return;
                    }
                }
                assert(cells@.skip(m as int) =~= Seq::<(usize, usize)>::empty());
                return;
            }
        }
    }
}

} // verus!
