//! The simulation core: a grid of cells and the ants that live on it.

use vstd::prelude::*;
use rand::rngs::StdRng;
use crate::ant::behavior_wf;
use crate::ant::Ant;
use crate::ant::AntStatus;
use crate::ant::BorderMode;
use crate::ant::ColorMode;
use crate::ant::StartingPos;
use crate::config::properties_wf;
use crate::config::slot_view;
use crate::config::WorldConfig;
use crate::config::WorldConfigView;
use crate::config::WorldProperties;
use crate::config::WorldPropertiesView;
use crate::error::CompileError;
use crate::error::ErrorKind;
use crate::error::bare;
use crate::matrix::cell_index;
use crate::matrix::lemma_cell_index;
use crate::matrix::lemma_update_cell;
use crate::matrix::Matrix;
use crate::peripherals::ordinal_of;
use crate::peripherals::peripheral_at;
use crate::peripherals::OutputValue;
use crate::peripherals::Peripheral;
use crate::peripherals::PeripheralBit;
use crate::vec2::principal_step;
use crate::vec2::Vec2;
use crate::vec2::Vec2u;

verus! {

/// The most ants that a world holds.
pub const ANT_LIMIT: usize = 0x100;

/// What a world holds besides its random numbers: the ticks so far, the
/// colors of the cells, the ants, and for each cell whether an ant stands
/// on it.
pub struct WorldView {
    pub tick_count: u32,
    pub width: int,
    pub height: int,
    pub cells: Seq<u8>,
    pub ants: Seq<Ant>,
    pub cache: Seq<bool>,
}

/// Whether a color can stand in a cell: 0 or 15 in binary mode, 0 to 15
/// else.
pub open spec fn color_ok(mode: ColorMode, color: u8) -> bool {
    match mode {
        ColorMode::Binary => color == 0 || color == 15,
        ColorMode::RGBI => color < 16,
    }
}

/// The color that is written for `color`: in binary mode 15 for anything
/// but 0.
pub open spec fn adjusted(mode: ColorMode, color: u8) -> u8 {
    match mode {
        ColorMode::Binary => if color == 0 {
            0
        } else {
            15
        },
        ColorMode::RGBI => color,
    }
}

/// Whether an ant is part of the population: newborn or alive.
pub open spec fn live(a: Ant) -> bool {
    a.status != AntStatus::Dead
}

/// Whether an ant can be in the world: it faces one of the eight
/// directions, stands inside the grid, and is bound to a behavior.
pub open spec fn ant_ok(p: WorldPropertiesView, s: WorldView, a: Ant) -> bool {
    &&& a.dir < 8
    &&& a.pos.x < s.width
    &&& a.pos.y < s.height
    &&& p.behaviors[a.behavior as int] is Some
}

/// Whether a live ant stands on the cell `(x, y)`.
pub open spec fn occupied(ants: Seq<Ant>, x: int, y: int) -> bool {
    exists|k: int| 0 <= k < ants.len() && live(#[trigger] ants[k]) && ants[k].pos.x == x && ants[k].pos.y == y
}

/// The color of the cell `(x, y)`.
pub open spec fn color_at(s: WorldView, x: int, y: int) -> u8 {
    s.cells[cell_index(s.width, x, y)]
}

/// What the occupancy cache says of the cell `(x, y)`.
pub open spec fn cached(s: WorldView, x: int, y: int) -> bool {
    s.cache[cell_index(s.width, x, y)]
}

/// What holds of a world at every moment: the grid has the size that the
/// settings give; there are at most 256 ants, each of which can be in the
/// world; the cache is set exactly on the cells on which a live ant
/// stands; no two live ants stand on one cell; and every cell holds a
/// color that the color mode allows.
pub open spec fn world_ok(p: WorldPropertiesView, s: WorldView) -> bool {
    &&& properties_wf(p)
    &&& s.width == p.config.width
    &&& s.height == p.config.height
    &&& s.cells.len() == s.width * s.height
    &&& s.cache.len() == s.width * s.height
    &&& s.ants.len() <= 256
    &&& forall|k: int| 0 <= k < s.ants.len() ==> ant_ok(p, s, #[trigger] s.ants[k])
    &&& forall|x: int, y: int|
        0 <= x < s.width && 0 <= y < s.height ==> (#[trigger] cached(s, x, y) <==> occupied(s.ants, x, y))
    &&& forall|a: int, b: int|
        0 <= a < s.ants.len() && 0 <= b < s.ants.len() && a != b && live(#[trigger] s.ants[a]) && live(
            #[trigger] s.ants[b],
        ) ==> s.ants[a].pos != s.ants[b].pos
    &&& forall|x: int, y: int|
        0 <= x < s.width && 0 <= y < s.height ==> color_ok(p.config.color_mode, #[trigger] color_at(s, x, y))
}

/// Whether no ant is older than the world: so it is where every ant was
/// hatched in the world or came into it no older than the world was.
pub open spec fn young(s: WorldView) -> bool {
    forall|k: int| 0 <= k < s.ants.len() ==> (#[trigger] s.ants[k]).age <= s.tick_count
}

/// Whether the world can take one more tick: neither the count of ticks
/// nor the age of an ant is the largest number.
pub open spec fn can_tick(s: WorldView) -> bool {
    &&& s.tick_count < u32::MAX
    &&& forall|k: int| 0 <= k < s.ants.len() ==> (#[trigger] s.ants[k]).age < u32::MAX
}

/// A world in which no ant is older than the world can take one more tick
/// unless the count of ticks is used up.
pub proof fn lemma_young_can_tick(s: WorldView)
    requires
        young(s),
        s.tick_count < u32::MAX,
    ensures
        can_tick(s),
{
    assert forall|k: int| 0 <= k < s.ants.len() implies (#[trigger] s.ants[k]).age < u32::MAX by {
        assert(s.ants[k].age <= s.tick_count);
    }
}

/// Whether every ant is alive: so it is between two ticks.
pub open spec fn settled(s: WorldView) -> bool {
    forall|k: int| 0 <= k < s.ants.len() ==> (#[trigger] s.ants[k]).status == AntStatus::Alive
}

/// A coordinate one step outside of `0..n` brought back into it.
pub open spec fn wrapped(v: int, n: int) -> int {
    if v < 0 {
        v + n
    } else if v >= n {
        v - n
    } else {
        v
    }
}

/// The cell that an ant at `(x, y)` steps to in direction `dir`, if any.
///
/// Inside the grid it is the neighboring cell. Over the border there is
/// none where ants collide or despawn. Where the axes cycle, each
/// coordinate that left the grid comes in again on the other side. Where
/// the grid wraps, a step over the left or right border also goes one row
/// up or down, and a step over the upper or lower border one column left
/// or right, so that the rows follow each other as one line.
pub open spec fn next_cell(x: int, y: int, dir: int, width: int, height: int, mode: BorderMode) -> Option<
    (int, int),
> {
    let (dx, dy) = principal_step(dir);
    let nx = x + dx;
    let ny = y + dy;
    if 0 <= nx < width && 0 <= ny < height {
        Some((nx, ny))
    } else {
        match mode {
            BorderMode::Collide => None,
            BorderMode::Despawn => None,
            BorderMode::Cycle => Some((wrapped(nx, width), wrapped(ny, height))),
            BorderMode::Wrap => {
                let cx = wrapped(nx, width);
                let cy = wrapped(ny, height);
                let (col, row) = if nx < 0 {
                    (width - 1, wrapped(cy - 1, height))
                } else if nx >= width {
                    (0int, wrapped(cy + 1, height))
                } else {
                    (cx, cy)
                };
                if ny < 0 {
                    Some((wrapped(col - 1, width), height - 1))
                } else if ny >= height {
                    Some((wrapped(col + 1, width), 0int))
                } else {
                    Some((col, row))
                }
            },
        }
    }
}

/// The cell that an ant steps to is a cell of the grid.
pub proof fn lemma_next_cell_inside(x: int, y: int, dir: int, width: int, height: int, mode: BorderMode)
    requires
        0 <= x < width,
        0 <= y < height,
        0 <= dir < 8,
    ensures
        next_cell(x, y, dir, width, height, mode) matches Some((nx, ny)) ==> 0 <= nx < width && 0 <= ny
            < height,
{
}

/// Over the border, an ant that collides or despawns has no cell to step
/// to; inside the grid every ant steps to the neighboring cell.
pub proof fn lemma_next_cell_border(x: int, y: int, dir: int, width: int, height: int, mode: BorderMode)
    requires
        0 <= x < width,
        0 <= y < height,
        0 <= dir < 8,
    ensures
        ({
            let (dx, dy) = principal_step(dir);
            let inside = 0 <= x + dx < width && 0 <= y + dy < height;
            &&& inside ==> next_cell(x, y, dir, width, height, mode) == Some((x + dx, y + dy))
            &&& !inside && (mode == BorderMode::Collide || mode == BorderMode::Despawn) ==> next_cell(
                x,
                y,
                dir,
                width,
                height,
                mode,
            ) is None
            &&& !inside && mode == BorderMode::Cycle ==> next_cell(x, y, dir, width, height, mode) == Some(
                ((x + dx + width) % width, (y + dy + height) % height),
            )
            &&& mode == BorderMode::Cycle || mode == BorderMode::Wrap ==> next_cell(
                x,
                y,
                dir,
                width,
                height,
                mode,
            ) is Some
        }),
{
    let (dx, dy) = principal_step(dir);
    let nx = x + dx;
    let ny = y + dy;
    lemma_wrapped_mod(nx, width);
    lemma_wrapped_mod(ny, height);
}

/// Bringing a coordinate back into `0..n` is the remainder by `n`.
pub proof fn lemma_wrapped_mod(v: int, n: int)
    requires
        0 < n,
        -n <= v < 2 * n,
    ensures
        wrapped(v, n) == (v + n) % n,
        0 <= wrapped(v, n) < n,
{
    if v < 0 {
        vstd::arithmetic::div_mod::lemma_fundamental_div_mod_converse(v + n, n, 0, v + n);
    } else if v >= n {
        vstd::arithmetic::div_mod::lemma_fundamental_div_mod_converse(v + n, n, 2, v - n);
    } else {
        vstd::arithmetic::div_mod::lemma_fundamental_div_mod_converse(v + n, n, 1, v);
    }
}

/// The world with ant `k` replaced.
pub open spec fn set_ant(s: WorldView, k: int, a: Ant) -> WorldView {
    WorldView { ants: s.ants.update(k, a), ..s }
}

/// The world with the cache of the cell `(x, y)` set to `value`.
pub open spec fn set_cache(s: WorldView, x: int, y: int, value: bool) -> WorldView {
    WorldView { cache: s.cache.update(cell_index(s.width, x, y), value), ..s }
}

/// The world with the color of the cell `(x, y)` set to `color`.
pub open spec fn set_color(s: WorldView, x: int, y: int, color: u8) -> WorldView {
    WorldView { cells: s.cells.update(cell_index(s.width, x, y), color), ..s }
}

/// Ant `k` dies: it is marked dead and leaves its cell. A dead ant stays
/// as it is.
pub open spec fn die_at(s: WorldView, k: int) -> WorldView {
    if !live(s.ants[k]) {
        s
    } else {
        set_cache(
            set_ant(s, k, Ant { status: AntStatus::Dead, ..s.ants[k] }),
            s.ants[k].pos.x as int,
            s.ants[k].pos.y as int,
            false,
        )
    }
}

/// The first live ant at or after `i` that stands on the cell `(x, y)`.
pub open spec fn first_live_at(ants: Seq<Ant>, x: int, y: int, i: int) -> Option<int>
    decreases ants.len() - i,
{
    if i < 0 || i >= ants.len() {
        None
    } else if live(ants[i]) && ants[i].pos.x == x && ants[i].pos.y == y {
        Some(i)
    } else {
        first_live_at(ants, x, y, i + 1)
    }
}

/// The ant on the cell `(x, y)` dies, if there is one.
pub open spec fn kill_cell(s: WorldView, x: int, y: int) -> WorldView {
    if !cached(s, x, y) {
        s
    } else {
        match first_live_at(s.ants, x, y, 0) {
            Some(k) => die_at(s, k),
            None => s,
        }
    }
}

/// Ant `k` moves to the cell `(x, y)`.
pub open spec fn move_ant(s: WorldView, k: int, x: int, y: int) -> WorldView {
    set_cache(
        set_cache(
            set_ant(s, k, Ant { pos: Vec2u { x: x as usize, y: y as usize }, ..s.ants[k] }),
            x,
            y,
            true,
        ),
        s.ants[k].pos.x as int,
        s.ants[k].pos.y as int,
        false,
    )
}

/// An ant joins the population, unless there are 256 ants already or its
/// cell is taken.
pub open spec fn spawn_ant(s: WorldView, ant: Ant) -> WorldView {
    if s.ants.len() < 256 && !cached(s, ant.pos.x as int, ant.pos.y as int) {
        WorldView {
            ants: s.ants.push(ant),
            cache: s.cache.update(cell_index(s.width, ant.pos.x as int, ant.pos.y as int), true),
            ..s
        }
    } else {
        s
    }
}

proof fn lemma_first_live_at(ants: Seq<Ant>, x: int, y: int, i: int)
    requires
        0 <= i,
    ensures
        match first_live_at(ants, x, y, i) {
            Some(k) => i <= k < ants.len() && live(ants[k]) && ants[k].pos.x == x && ants[k].pos.y == y,
            None => forall|k: int|
                i <= k < ants.len() ==> !(live(#[trigger] ants[k]) && ants[k].pos.x == x && ants[k].pos.y
                    == y),
        },
    decreases ants.len() - i,
{
    if i < ants.len() && !(live(ants[i]) && ants[i].pos.x == x && ants[i].pos.y == y) {
        lemma_first_live_at(ants, x, y, i + 1);
    }
}

/// An ant that changes neither its cell nor whether it lives leaves the
/// world in order.
pub proof fn lemma_set_ant_ok(p: WorldPropertiesView, s: WorldView, k: int, a: Ant)
    requires
        world_ok(p, s),
        0 <= k < s.ants.len(),
        a.pos == s.ants[k].pos,
        live(a) == live(s.ants[k]),
        ant_ok(p, s, a),
    ensures
        world_ok(p, set_ant(s, k, a)),
{
    let t = set_ant(s, k, a);
    assert forall|x: int, y: int| 0 <= x < t.width && 0 <= y < t.height implies (#[trigger] cached(t, x, y)
        <==> occupied(t.ants, x, y)) by {
        assert(cached(t, x, y) == cached(s, x, y));
        if occupied(s.ants, x, y) {
            let j = choose|j: int|
                0 <= j < s.ants.len() && live(#[trigger] s.ants[j]) && s.ants[j].pos.x == x && s.ants[j].pos.y
                    == y;
            assert(live(t.ants[j]) && t.ants[j].pos.x == x && t.ants[j].pos.y == y);
        }
        if occupied(t.ants, x, y) {
            let j = choose|j: int|
                0 <= j < t.ants.len() && live(#[trigger] t.ants[j]) && t.ants[j].pos.x == x && t.ants[j].pos.y
                    == y;
            assert(live(s.ants[j]) && s.ants[j].pos.x == x && s.ants[j].pos.y == y);
        }
    }
    assert forall|one: int, two: int|
        0 <= one < t.ants.len() && 0 <= two < t.ants.len() && one != two && live(#[trigger] t.ants[one]) && live(
            #[trigger] t.ants[two],
        ) implies t.ants[one].pos != t.ants[two].pos by {
        assert(live(s.ants[one]) && live(s.ants[two]));
        assert(s.ants[one].pos != s.ants[two].pos);
    }
    assert forall|x: int, y: int| 0 <= x < t.width && 0 <= y < t.height implies color_ok(
        p.config.color_mode,
        #[trigger] color_at(t, x, y),
    ) by {
        assert(color_at(t, x, y) == color_at(s, x, y));
    }
    assert forall|j: int| 0 <= j < t.ants.len() implies ant_ok(p, t, #[trigger] t.ants[j]) by {
        if j != k {
            assert(ant_ok(p, s, s.ants[j]));
        }
    }
}

/// An ant that dies leaves the world in order.
pub proof fn lemma_die_at_ok(p: WorldPropertiesView, s: WorldView, k: int)
    requires
        world_ok(p, s),
        0 <= k < s.ants.len(),
    ensures
        world_ok(p, die_at(s, k)),
{
    if live(s.ants[k]) {
        let t = die_at(s, k);
        let px = s.ants[k].pos.x as int;
        let py = s.ants[k].pos.y as int;
        assert(ant_ok(p, s, s.ants[k]));
        lemma_update_cell(s.cache, s.width, s.height, px, py, false);
        assert forall|x: int, y: int| 0 <= x < t.width && 0 <= y < t.height implies (#[trigger] cached(
            t,
            x,
            y,
        ) <==> occupied(t.ants, x, y)) by {
            if x == px && y == py {
                assert(!cached(t, x, y));
                if occupied(t.ants, x, y) {
                    let j = choose|j: int|
                        0 <= j < t.ants.len() && live(#[trigger] t.ants[j]) && t.ants[j].pos.x == x
                            && t.ants[j].pos.y == y;
                    assert(j != k);
                    assert(live(s.ants[j]) && live(s.ants[k]));
                    assert(s.ants[j].pos != s.ants[k].pos);
                    assert(false);
                }
            } else {
                assert(cached(t, x, y) == cached(s, x, y));
                if occupied(s.ants, x, y) {
                    let j = choose|j: int|
                        0 <= j < s.ants.len() && live(#[trigger] s.ants[j]) && s.ants[j].pos.x == x
                            && s.ants[j].pos.y == y;
                    assert(j != k);
                    assert(live(t.ants[j]) && t.ants[j].pos.x == x && t.ants[j].pos.y == y);
                }
                if occupied(t.ants, x, y) {
                    let j = choose|j: int|
                        0 <= j < t.ants.len() && live(#[trigger] t.ants[j]) && t.ants[j].pos.x == x
                            && t.ants[j].pos.y == y;
                    assert(j != k);
                    assert(live(s.ants[j]) && s.ants[j].pos.x == x && s.ants[j].pos.y == y);
                }
            }
        }
        assert forall|one: int, two: int|
            0 <= one < t.ants.len() && 0 <= two < t.ants.len() && one != two && live(#[trigger] t.ants[one])
                && live(#[trigger] t.ants[two]) implies t.ants[one].pos != t.ants[two].pos by {
            assert(live(s.ants[one]) && live(s.ants[two]));
            assert(s.ants[one].pos != s.ants[two].pos);
        }
        assert forall|x: int, y: int| 0 <= x < t.width && 0 <= y < t.height implies color_ok(
            p.config.color_mode,
            #[trigger] color_at(t, x, y),
        ) by {
            assert(color_at(t, x, y) == color_at(s, x, y));
        }
        assert forall|j: int| 0 <= j < t.ants.len() implies ant_ok(p, t, #[trigger] t.ants[j]) by {
            assert(ant_ok(p, s, s.ants[j]));
        }
    }
}

/// A kill leaves the world in order.
pub proof fn lemma_kill_cell_ok(p: WorldPropertiesView, s: WorldView, x: int, y: int)
    requires
        world_ok(p, s),
    ensures
        world_ok(p, kill_cell(s, x, y)),
{
    if cached(s, x, y) {
        lemma_first_live_at(s.ants, x, y, 0);
        match first_live_at(s.ants, x, y, 0) {
            Some(k) => {
                lemma_die_at_ok(p, s, k);
            },
            None => {},
        }
    }
}

/// A move to a free cell leaves the world in order.
pub proof fn lemma_move_ant_ok(p: WorldPropertiesView, s: WorldView, k: int, x: int, y: int)
    requires
        world_ok(p, s),
        0 <= k < s.ants.len(),
        live(s.ants[k]),
        0 <= x < s.width,
        0 <= y < s.height,
        !cached(s, x, y),
    ensures
        world_ok(p, move_ant(s, k, x, y)),
{
    let t = move_ant(s, k, x, y);
    let ox = s.ants[k].pos.x as int;
    let oy = s.ants[k].pos.y as int;
    assert(ant_ok(p, s, s.ants[k]));
    assert(cached(s, ox, oy)) by {
        assert(live(s.ants[k]) && s.ants[k].pos.x == ox && s.ants[k].pos.y == oy);
        assert(occupied(s.ants, ox, oy));
    }
    assert(!(ox == x && oy == y));
    let marked = s.cache.update(cell_index(s.width, x, y), true);
    lemma_update_cell(s.cache, s.width, s.height, x, y, true);
    lemma_update_cell(marked, s.width, s.height, ox, oy, false);
    assert forall|cx2: int, cy2: int| 0 <= cx2 < t.width && 0 <= cy2 < t.height implies (#[trigger] cached(
        t,
        cx2,
        cy2,
    ) <==> occupied(t.ants, cx2, cy2)) by {
        assert(marked[cell_index(s.width, cx2, cy2)] == (if cx2 == x && cy2 == y {
            true
        } else {
            s.cache[cell_index(s.width, cx2, cy2)]
        }));
        if cx2 == x && cy2 == y {
            assert(cached(t, cx2, cy2));
            assert(live(t.ants[k]) && t.ants[k].pos.x == cx2 && t.ants[k].pos.y == cy2);
        } else if cx2 == ox && cy2 == oy {
            assert(!cached(t, cx2, cy2));
            if occupied(t.ants, cx2, cy2) {
                let j = choose|j: int|
                    0 <= j < t.ants.len() && live(#[trigger] t.ants[j]) && t.ants[j].pos.x == cx2
                        && t.ants[j].pos.y == cy2;
                assert(j != k);
                assert(live(s.ants[j]) && live(s.ants[k]));
                assert(s.ants[j].pos != s.ants[k].pos);
                assert(false);
            }
        } else {
            assert(cached(t, cx2, cy2) == cached(s, cx2, cy2));
            if occupied(s.ants, cx2, cy2) {
                let j = choose|j: int|
                    0 <= j < s.ants.len() && live(#[trigger] s.ants[j]) && s.ants[j].pos.x == cx2
                        && s.ants[j].pos.y == cy2;
                assert(j != k);
                assert(live(t.ants[j]) && t.ants[j].pos.x == cx2 && t.ants[j].pos.y == cy2);
            }
            if occupied(t.ants, cx2, cy2) {
                let j = choose|j: int|
                    0 <= j < t.ants.len() && live(#[trigger] t.ants[j]) && t.ants[j].pos.x == cx2
                        && t.ants[j].pos.y == cy2;
                assert(j != k);
                assert(live(s.ants[j]) && s.ants[j].pos.x == cx2 && s.ants[j].pos.y == cy2);
            }
        }
    }
    assert forall|one: int, two: int|
        0 <= one < t.ants.len() && 0 <= two < t.ants.len() && one != two && live(#[trigger] t.ants[one]) && live(
            #[trigger] t.ants[two],
        ) implies t.ants[one].pos != t.ants[two].pos by {
        assert(live(s.ants[one]) && live(s.ants[two]));
        assert(s.ants[one].pos != s.ants[two].pos);
        if one == k {
            if s.ants[two].pos.x == x && s.ants[two].pos.y == y {
                assert(occupied(s.ants, x, y));
            }
        } else if two == k {
            if s.ants[one].pos.x == x && s.ants[one].pos.y == y {
                assert(occupied(s.ants, x, y));
            }
        }
    }
    assert forall|cx2: int, cy2: int| 0 <= cx2 < t.width && 0 <= cy2 < t.height implies color_ok(
        p.config.color_mode,
        #[trigger] color_at(t, cx2, cy2),
    ) by {
        assert(color_at(t, cx2, cy2) == color_at(s, cx2, cy2));
    }
    assert forall|j: int| 0 <= j < t.ants.len() implies ant_ok(p, t, #[trigger] t.ants[j]) by {
        assert(ant_ok(p, s, s.ants[j]));
    }
}

/// A spawn leaves the world in order.
pub proof fn lemma_spawn_ant_ok(p: WorldPropertiesView, s: WorldView, ant: Ant)
    requires
        world_ok(p, s),
        ant_ok(p, s, ant),
        live(ant),
    ensures
        world_ok(p, spawn_ant(s, ant)),
{
    let x = ant.pos.x as int;
    let y = ant.pos.y as int;
    if s.ants.len() < 256 && !cached(s, x, y) {
        let t = spawn_ant(s, ant);
        let n = s.ants.len() as int;
        lemma_update_cell(s.cache, s.width, s.height, x, y, true);
        assert forall|cx2: int, cy2: int| 0 <= cx2 < t.width && 0 <= cy2 < t.height implies (#[trigger] cached(
            t,
            cx2,
            cy2,
        ) <==> occupied(t.ants, cx2, cy2)) by {
            if cx2 == x && cy2 == y {
                assert(cached(t, cx2, cy2));
                assert(live(t.ants[n]) && t.ants[n].pos.x == cx2 && t.ants[n].pos.y == cy2);
            } else {
                assert(cached(t, cx2, cy2) == cached(s, cx2, cy2));
                if occupied(s.ants, cx2, cy2) {
                    let j = choose|j: int|
                        0 <= j < s.ants.len() && live(#[trigger] s.ants[j]) && s.ants[j].pos.x == cx2
                            && s.ants[j].pos.y == cy2;
                    assert(live(t.ants[j]) && t.ants[j].pos.x == cx2 && t.ants[j].pos.y == cy2);
                }
                if occupied(t.ants, cx2, cy2) {
                    let j = choose|j: int|
                        0 <= j < t.ants.len() && live(#[trigger] t.ants[j]) && t.ants[j].pos.x == cx2
                            && t.ants[j].pos.y == cy2;
                    assert(j != n);
                    assert(live(s.ants[j]) && s.ants[j].pos.x == cx2 && s.ants[j].pos.y == cy2);
                }
            }
        }
        assert forall|one: int, two: int|
            0 <= one < t.ants.len() && 0 <= two < t.ants.len() && one != two && live(#[trigger] t.ants[one])
                && live(#[trigger] t.ants[two]) implies t.ants[one].pos != t.ants[two].pos by {
            if one < n && two < n {
                assert(live(s.ants[one]) && live(s.ants[two]));
                assert(s.ants[one].pos != s.ants[two].pos);
            } else if one == n {
                if s.ants[two].pos.x == x && s.ants[two].pos.y == y {
                    assert(live(s.ants[two]));
                    assert(occupied(s.ants, x, y));
                }
            } else {
                if s.ants[one].pos.x == x && s.ants[one].pos.y == y {
                    assert(live(s.ants[one]));
                    assert(occupied(s.ants, x, y));
                }
            }
        }
        assert forall|cx2: int, cy2: int| 0 <= cx2 < t.width && 0 <= cy2 < t.height implies color_ok(
            p.config.color_mode,
            #[trigger] color_at(t, cx2, cy2),
        ) by {
            assert(color_at(t, cx2, cy2) == color_at(s, cx2, cy2));
        }
        assert forall|j: int| 0 <= j < t.ants.len() implies ant_ok(p, t, #[trigger] t.ants[j]) by {
            if j < n {
                assert(ant_ok(p, s, s.ants[j]));
            }
        }
    }
}

/// A color that the color mode allows leaves the world in order.
pub proof fn lemma_set_color_ok(p: WorldPropertiesView, s: WorldView, x: int, y: int, color: u8)
    requires
        world_ok(p, s),
        0 <= x < s.width,
        0 <= y < s.height,
        color_ok(p.config.color_mode, color),
    ensures
        world_ok(p, set_color(s, x, y, color)),
{
    let t = set_color(s, x, y, color);
    lemma_update_cell(s.cells, s.width, s.height, x, y, color);
    assert forall|cx2: int, cy2: int| 0 <= cx2 < t.width && 0 <= cy2 < t.height implies color_ok(
        p.config.color_mode,
        #[trigger] color_at(t, cx2, cy2),
    ) by {
        if !(cx2 == x && cy2 == y) {
            assert(color_at(t, cx2, cy2) == color_at(s, cx2, cy2));
        }
    }
    assert forall|cx2: int, cy2: int| 0 <= cx2 < t.width && 0 <= cy2 < t.height implies (#[trigger] cached(
        t,
        cx2,
        cy2,
    ) <==> occupied(t.ants, cx2, cy2)) by {
        assert(cached(t, cx2, cy2) == cached(s, cx2, cy2));
    }
    assert forall|j: int| 0 <= j < t.ants.len() implies ant_ok(p, t, #[trigger] t.ants[j]) by {
        assert(ant_ok(p, s, s.ants[j]));
    }
}

/// The ant that ant `k` hatches for the value `v`: bound to behavior
/// `v - 1`, on the cell behind `k`, facing as `k` does. Nothing happens
/// where there is no cell behind `k` or no such behavior.
pub open spec fn reproduce(p: WorldPropertiesView, s: WorldView, k: int, v: u8) -> WorldView {
    let a = s.ants[k];
    let back = (a.dir + 4) % 8;
    match next_cell(a.pos.x as int, a.pos.y as int, back, s.width, s.height, p.config.border_mode) {
        Some((x, y)) => if v >= 1 && p.behaviors[v - 1] is Some {
            spawn_ant(
                s,
                Ant {
                    behavior: (v - 1) as u8,
                    status: AntStatus::Newborn,
                    pos: Vec2u { x: x as usize, y: y as usize },
                    dir: a.dir,
                    halted: false,
                    memory: 0,
                    age: 0,
                },
            )
        } else {
            s
        },
        None => s,
    }
}

/// One output value applied to ant `k` and the world.
pub open spec fn apply_output(p: WorldPropertiesView, s: WorldView, k: int, out: OutputValue) -> WorldView {
    let a = s.ants[k];
    let v = out.value;
    match out.output {
        Peripheral::Direction => set_ant(s, k, Ant { dir: ((a.dir + v) % 8) as u8, ..a }),
        Peripheral::Halted => set_ant(s, k, Ant { halted: v != 0, ..a }),
        Peripheral::Cell => if v != 0 {
            set_color(s, a.pos.x as int, a.pos.y as int, adjusted(p.config.color_mode, v))
        } else {
            s
        },
        Peripheral::CellClear => if v == 1 {
            set_color(s, a.pos.x as int, a.pos.y as int, 0)
        } else {
            s
        },
        Peripheral::Memory => set_ant(s, k, Ant { memory: v, ..a }),
        Peripheral::MemoryClear => if v == 1 {
            set_ant(s, k, Ant { memory: 0, ..a })
        } else {
            s
        },
        Peripheral::SpawnAnt => if v != 0 {
            reproduce(p, s, k, v)
        } else {
            s
        },
        Peripheral::Kill => if v == 1 {
            match next_cell(
                a.pos.x as int,
                a.pos.y as int,
                a.dir as int,
                s.width,
                s.height,
                p.config.border_mode,
            ) {
                Some((x, y)) => kill_cell(s, x, y),
                None => s,
            }
        } else {
            s
        },
        Peripheral::Die => if v == 1 {
            die_at(s, k)
        } else {
            s
        },
        _ => s,
    }
}

/// The output values from `i` on applied in order.
pub open spec fn apply_outputs(
    p: WorldPropertiesView,
    s: WorldView,
    k: int,
    outs: Seq<OutputValue>,
    i: int,
) -> WorldView
    decreases outs.len() - i,
{
    if i < 0 || i >= outs.len() {
        s
    } else {
        apply_outputs(p, apply_output(p, s, k, outs[i]), k, outs, i + 1)
    }
}

/// The step at the end of an ant's turn: an ant that is alive and not
/// halted moves to the cell before it if that is free; where there is no
/// such cell and ants despawn at the border, it dies.
pub open spec fn move_step(p: WorldPropertiesView, s: WorldView, k: int) -> WorldView {
    let a = s.ants[k];
    if a.status == AntStatus::Alive && !a.halted {
        match next_cell(
            a.pos.x as int,
            a.pos.y as int,
            a.dir as int,
            s.width,
            s.height,
            p.config.border_mode,
        ) {
            Some((x, y)) => if !cached(s, x, y) {
                move_ant(s, k, x, y)
            } else {
                s
            },
            None => if p.config.border_mode == BorderMode::Despawn {
                die_at(s, k)
            } else {
                s
            },
        }
    } else {
        s
    }
}

/// What a turn leaves as it found it: the number of ticks, the size of
/// the grid, and the age of every ant that was there. Ants that it adds
/// have the age 0.
pub open spec fn extends(s: WorldView, t: WorldView) -> bool {
    &&& t.tick_count == s.tick_count
    &&& t.width == s.width
    &&& t.height == s.height
    &&& t.ants.len() >= s.ants.len()
    &&& forall|j: int| 0 <= j < s.ants.len() ==> (#[trigger] t.ants[j]).age == s.ants[j].age
    &&& forall|j: int| s.ants.len() <= j < t.ants.len() ==> (#[trigger] t.ants[j]).age == 0
}

/// An output leaves the world in order.
pub proof fn lemma_apply_output_ok(p: WorldPropertiesView, s: WorldView, k: int, out: OutputValue)
    requires
        world_ok(p, s),
        0 <= k < s.ants.len(),
        out.output == Peripheral::Cell ==> out.value < 16,
    ensures
        world_ok(p, apply_output(p, s, k, out)),
        extends(s, apply_output(p, s, k, out)),
{
    let a = s.ants[k];
    let v = out.value;
    assert(ant_ok(p, s, a));
    let mode = p.config.border_mode;
    match out.output {
        Peripheral::Direction => {
            lemma_set_ant_ok(p, s, k, Ant { dir: ((a.dir + v) % 8) as u8, ..a });
        },
        Peripheral::Halted => {
            lemma_set_ant_ok(p, s, k, Ant { halted: v != 0, ..a });
        },
        Peripheral::Cell => {
            if v != 0 {
                lemma_set_color_ok(p, s, a.pos.x as int, a.pos.y as int, adjusted(p.config.color_mode, v));
            }
        },
        Peripheral::CellClear => {
            if v == 1 {
                lemma_set_color_ok(p, s, a.pos.x as int, a.pos.y as int, 0);
            }
        },
        Peripheral::Memory => {
            lemma_set_ant_ok(p, s, k, Ant { memory: v, ..a });
        },
        Peripheral::MemoryClear => {
            if v == 1 {
                lemma_set_ant_ok(p, s, k, Ant { memory: 0, ..a });
            }
        },
        Peripheral::SpawnAnt => {
            if v != 0 {
                let back = (a.dir + 4) % 8;
                lemma_next_cell_inside(a.pos.x as int, a.pos.y as int, back, s.width, s.height, mode);
                match next_cell(a.pos.x as int, a.pos.y as int, back, s.width, s.height, mode) {
                    Some((x, y)) => {
                        if p.behaviors[v - 1] is Some {
                            lemma_spawn_ant_ok(
                                p,
                                s,
                                Ant {
                                    behavior: (v - 1) as u8,
                                    status: AntStatus::Newborn,
                                    pos: Vec2u { x: x as usize, y: y as usize },
                                    dir: a.dir,
                                    halted: false,
                                    memory: 0,
                                    age: 0,
                                },
                            );
                        }
                    },
                    None => {},
                }
            }
        },
        Peripheral::Kill => {
            if v == 1 {
                match next_cell(a.pos.x as int, a.pos.y as int, a.dir as int, s.width, s.height, mode) {
                    Some((x, y)) => {
                        lemma_kill_cell_ok(p, s, x, y);
                        lemma_first_live_at(s.ants, x, y, 0);
                    },
                    None => {},
                }
            }
        },
        Peripheral::Die => {
            if v == 1 {
                lemma_die_at_ok(p, s, k);
            }
        },
        _ => {},
    }
}

/// The outputs of a turn leave the world in order.
pub proof fn lemma_apply_outputs_ok(
    p: WorldPropertiesView,
    s: WorldView,
    k: int,
    outs: Seq<OutputValue>,
    i: int,
)
    requires
        world_ok(p, s),
        0 <= k < s.ants.len(),
        0 <= i,
        forall|j: int|
            0 <= j < outs.len() ==> ((#[trigger] outs[j]).output == Peripheral::Cell ==> outs[j].value < 16),
    ensures
        world_ok(p, apply_outputs(p, s, k, outs, i)),
        extends(s, apply_outputs(p, s, k, outs, i)),
    decreases outs.len() - i,
{
    if i < outs.len() {
        lemma_apply_output_ok(p, s, k, outs[i]);
        let t = apply_output(p, s, k, outs[i]);
        lemma_apply_outputs_ok(p, t, k, outs, i + 1);
        let u = apply_outputs(p, t, k, outs, i + 1);
        assert forall|j: int| 0 <= j < s.ants.len() implies (#[trigger] u.ants[j]).age == s.ants[j].age by {
            assert(t.ants[j].age == s.ants[j].age);
        }
        assert forall|j: int| s.ants.len() <= j < u.ants.len() implies (#[trigger] u.ants[j]).age == 0 by {
            if j < t.ants.len() {
                assert(t.ants[j].age == 0);
            }
        }
    }
}

/// The step at the end of a turn leaves the world in order.
pub proof fn lemma_move_step_ok(p: WorldPropertiesView, s: WorldView, k: int)
    requires
        world_ok(p, s),
        0 <= k < s.ants.len(),
    ensures
        world_ok(p, move_step(p, s, k)),
        extends(s, move_step(p, s, k)),
{
    let a = s.ants[k];
    assert(ant_ok(p, s, a));
    if a.status == AntStatus::Alive && !a.halted {
        lemma_next_cell_inside(
            a.pos.x as int,
            a.pos.y as int,
            a.dir as int,
            s.width,
            s.height,
            p.config.border_mode,
        );
        match next_cell(
            a.pos.x as int,
            a.pos.y as int,
            a.dir as int,
            s.width,
            s.height,
            p.config.border_mode,
        ) {
            Some((x, y)) => {
                if !cached(s, x, y) {
                    lemma_move_ant_ok(p, s, k, x, y);
                }
            },
            None => {
                lemma_die_at_ok(p, s, k);
            },
        }
    }
}

#[verifier::external_type_specification]
#[verifier::external_body]
pub struct ExStdRng(rand::rngs::StdRng);

/// `StdRng::seed_from_u64` of `rand`: a generator made from a number.
/// Nothing is claimed of the generator.
#[verifier::external_body]
fn rng_from_number(seed: u64) -> rand::rngs::StdRng {
    <rand::rngs::StdRng as rand::SeedableRng>::seed_from_u64(seed)
}

/// `rand::random` for 32 bytes: a seed taken from the thread's generator.
/// Nothing is claimed of the bytes.
#[verifier::external_body]
fn random_seed() -> [u8; 32] {
    rand::random::<[u8; 32]>()
}

/// `StdRng::from_seed` of `rand`: a generator made from 32 bytes.
/// Nothing is claimed of the generator.
#[verifier::external_body]
fn rng_from_bytes(seed: [u8; 32]) -> rand::rngs::StdRng {
    <rand::rngs::StdRng as rand::SeedableRng>::from_seed(seed)
}

/// `Rng::random` of `rand` for a byte: the next byte of the generator.
/// The byte can be any; nothing else is claimed.
#[verifier::external_body]
fn rng_next_byte(rng: &mut rand::rngs::StdRng) -> u8 {
    rand::Rng::random(rng)
}

/// What changes from tick to tick.
pub struct WorldState {
    rng: StdRng,
    tick_count: u32,
    cells: Matrix<u8>,
    ants: Vec<Ant>,
    ant_cache: Matrix<bool>,
}

impl View for WorldState {
    type V = WorldView;

    closed spec fn view(&self) -> WorldView {
        WorldView {
            tick_count: self.tick_count,
            width: self.cells.width as int,
            height: self.cells.height as int,
            cells: self.cells.values@,
            ants: self.ants@,
            cache: self.ant_cache.values@,
        }
    }
}

impl WorldState {
    /// Whether the two grids have one size, no side longer than `SIDE_CAP`.
    pub closed spec fn shaped(&self) -> bool {
        &&& self.cells.wf()
        &&& self.ant_cache.wf()
        &&& self.ant_cache.width == self.cells.width
        &&& self.ant_cache.height == self.cells.height
        &&& self.cells.width <= crate::config::SIDE_CAP
        &&& self.cells.height <= crate::config::SIDE_CAP
    }

    /// Whether an ant stands on `pos`.
    fn is_occupied(&self, pos: &Vec2u) -> (r: bool)
        requires
            self.shaped(),
            pos.x < self@.width,
            pos.y < self@.height,
        ensures
            r == cached(self@, pos.x as int, pos.y as int),
    {
        match self.ant_cache.at(&pos.sign()) {
            Some(value) => *value,
            None => false,
        }
    }

    /// The color of the cell at `pos`.
    fn color(&self, pos: &Vec2u) -> (r: u8)
        requires
            self.shaped(),
            pos.x < self@.width,
            pos.y < self@.height,
        ensures
            r == color_at(self@, pos.x as int, pos.y as int),
    {
        match self.cells.at(&pos.sign()) {
            Some(value) => *value,
            None => 0,
        }
    }

    fn occupy(&mut self, pos: &Vec2u, value: bool)
        requires
            old(self).shaped(),
            pos.x < old(self)@.width,
            pos.y < old(self)@.height,
        ensures
            final(self).shaped(),
            final(self)@ == set_cache(old(self)@, pos.x as int, pos.y as int, value),
    {
        self.ant_cache.set_at(&pos.sign(), value);
    }

    fn paint(&mut self, pos: &Vec2u, color: u8)
        requires
            old(self).shaped(),
            pos.x < old(self)@.width,
            pos.y < old(self)@.height,
        ensures
            final(self).shaped(),
            final(self)@ == set_color(old(self)@, pos.x as int, pos.y as int, color),
    {
        self.cells.set_at(&pos.sign(), color);
    }

    fn put_ant(&mut self, k: usize, ant: Ant)
        requires
            k < old(self)@.ants.len(),
        ensures
            final(self).shaped() == old(self).shaped(),
            final(self)@ == set_ant(old(self)@, k as int, ant),
    {
        self.ants[k] = ant;
    }

    /// Marks ant `k` dead and frees its cell.
    fn die(&mut self, k: usize)
        requires
            old(self).shaped(),
            k < old(self)@.ants.len(),
            old(self)@.ants[k as int].pos.x < old(self)@.width,
            old(self)@.ants[k as int].pos.y < old(self)@.height,
        ensures
            final(self).shaped(),
            final(self)@ == die_at(old(self)@, k as int),
    {
        let ant = self.ants[k];
        if ant.status != AntStatus::Dead {
            let mut dead = ant;
            dead.status = AntStatus::Dead;
            self.put_ant(k, dead);
            self.occupy(&ant.pos, false);
        }
    }

    /// The live ant on `pos`, if the cache says that there is one.
    fn get_ant_index(&self, pos: &Vec2u) -> (r: Option<usize>)
        requires
            self.shaped(),
            pos.x < self@.width,
            pos.y < self@.height,
        ensures
            match r {
                Some(k) => cached(self@, pos.x as int, pos.y as int) && first_live_at(
                    self@.ants,
                    pos.x as int,
                    pos.y as int,
                    0,
                ) == Some(k as int) && k < self@.ants.len(),
                None => !cached(self@, pos.x as int, pos.y as int) || first_live_at(
                    self@.ants,
                    pos.x as int,
                    pos.y as int,
                    0,
                ) is None,
            },
    {
        if !self.is_occupied(pos) {
            return None;
        }
        let mut i: usize = 0;
        while i < self.ants.len()
            invariant
                i <= self.ants@.len(),
                cached(self@, pos.x as int, pos.y as int),
                first_live_at(self@.ants, pos.x as int, pos.y as int, 0) == first_live_at(
                    self@.ants,
                    pos.x as int,
                    pos.y as int,
                    i as int,
                ),
            decreases self.ants@.len() - i,
        {
            let ant = self.ants[i];
            if ant.status != AntStatus::Dead && ant.pos.x == pos.x && ant.pos.y == pos.y {
                return Some(i);
            }
            i += 1;
        }
        None
    }

    /// Marks the ant on `pos` dead, if there is one, and frees the cell.
    fn kill_at(&mut self, props: &WorldProperties, pos: &Vec2u)
        requires
            old(self).shaped(),
            world_ok(props@, old(self)@),
            pos.x < old(self)@.width,
            pos.y < old(self)@.height,
        ensures
            final(self).shaped(),
            final(self)@ == kill_cell(old(self)@, pos.x as int, pos.y as int),
    {
        match self.get_ant_index(pos) {
            Some(k) => {
                assert(ant_ok(props@, self@, self@.ants[k as int]));
                self.die(k);
            },
            None => {},
        }
    }

    /// Adds `ant` to the population, unless there are 256 ants already or
    /// its cell is taken.
    fn spawn(&mut self, ant: Ant)
        requires
            old(self).shaped(),
            ant.pos.x < old(self)@.width,
            ant.pos.y < old(self)@.height,
        ensures
            final(self).shaped(),
            final(self)@ == spawn_ant(old(self)@, ant),
    {
        if self.ants.len() < ANT_LIMIT && !self.is_occupied(&ant.pos) {
            self.ants.push(ant);
            self.occupy(&ant.pos, true);
        }
    }

    /// The color that is written for `color`.
    fn adjusted_color(config: &WorldConfig, color: u8) -> (r: u8)
        ensures
            r == adjusted(config@.color_mode, color),
    {
        match config.color_mode {
            ColorMode::Binary => {
                if color == 0 {
                    0
                } else {
                    15
                }
            },
            ColorMode::RGBI => color,
        }
    }

    /// The cell that an ant at `pos` steps to in direction `dir`, if any.
    fn next_pos(&self, config: &WorldConfig, pos: &Vec2u, dir: u8) -> (r: Option<Vec2u>)
        requires
            self.shaped(),
            pos.x < self@.width,
            pos.y < self@.height,
            dir < 8,
        ensures
            match r {
                Some(next) => next_cell(
                    pos.x as int,
                    pos.y as int,
                    dir as int,
                    self@.width,
                    self@.height,
                    config@.border_mode,
                ) == Some((next.x as int, next.y as int)) && next.x < self@.width && next.y
                    < self@.height,
                None => next_cell(
                    pos.x as int,
                    pos.y as int,
                    dir as int,
                    self@.width,
                    self@.height,
                    config@.border_mode,
                ) is None,
            },
    {
        let step = Vec2::principal(dir);
        let width = self.cells.width as i32;
        let height = self.cells.height as i32;
        let nx = pos.x as i32 + step.x;
        let ny = pos.y as i32 + step.y;
        proof {
            lemma_next_cell_inside(
                pos.x as int,
                pos.y as int,
                dir as int,
                self@.width,
                self@.height,
                config@.border_mode,
            );
        }
        if 0 <= nx && nx < width && 0 <= ny && ny < height {
            return Some(Vec2u { x: nx as usize, y: ny as usize });
        }
        match config.border_mode {
            BorderMode::Collide => None,
            BorderMode::Despawn => None,
            BorderMode::Cycle => Some(
                Vec2u { x: wrap_coord(nx, width) as usize, y: wrap_coord(ny, height) as usize },
            ),
            BorderMode::Wrap => {
                let cx = wrap_coord(nx, width);
                let cy = wrap_coord(ny, height);
                let (col, row) = if nx < 0 {
                    (width - 1, wrap_coord(cy - 1, height))
                } else if nx >= width {
                    (0, wrap_coord(cy + 1, height))
                } else {
                    (cx, cy)
                };
                if ny < 0 {
                    Some(Vec2u { x: wrap_coord(col - 1, width) as usize, y: (height - 1) as usize })
                } else if ny >= height {
                    Some(Vec2u { x: wrap_coord(col + 1, width) as usize, y: 0 })
                } else {
                    Some(Vec2u { x: col as usize, y: row as usize })
                }
            },
        }
    }
}

/// A coordinate one step outside of `0..n` brought back into it.
fn wrap_coord(v: i32, n: i32) -> (r: i32)
    requires
        0 < n <= 0x7fff_fffe,
        -1 <= v <= n,
    ensures
        r == wrapped(v as int, n as int),
        0 <= r < n,
{
    if v < 0 {
        v + n
    } else if v >= n {
        v - n
    } else {
        v
    }
}

/// The value of bit `bit` of a byte: 1, 2, 4, ... 128.
pub open spec fn bit_value(bit: u8) -> u8 {
    if bit == 0 {
        1
    } else if bit == 1 {
        2
    } else if bit == 2 {
        4
    } else if bit == 3 {
        8
    } else if bit == 4 {
        16
    } else if bit == 5 {
        32
    } else if bit == 6 {
        64
    } else if bit == 7 {
        128
    } else {
        0
    }
}

fn bit_mask(bit: u8) -> (r: u8)
    ensures
        r == bit_value(bit),
{
    if bit == 0 {
        1
    } else if bit == 1 {
        2
    } else if bit == 2 {
        4
    } else if bit == 3 {
        8
    } else if bit == 4 {
        16
    } else if bit == 5 {
        32
    } else if bit == 6 {
        64
    } else if bit == 7 {
        128
    } else {
        0
    }
}

/// No output has a value yet: one empty place for each peripheral.
pub open spec fn empty_slots() -> Seq<Option<u8>> {
    Seq::new(13, |i: int| None::<u8>)
}

/// The output word handed out to the first `k` output bits, the last of
/// them first: each takes the lowest bit of what is left of the word and
/// adds it, at its own bit index, to the value of its peripheral.
pub open spec fn dispatch_from(
    outputs: Seq<PeripheralBit>,
    k: int,
    word: u32,
    slots: Seq<Option<u8>>,
) -> Seq<Option<u8>>
    decreases k,
{
    if k <= 0 || k > outputs.len() {
        slots
    } else {
        let out = outputs[k - 1];
        let place = ordinal_of(out.peripheral) as int;
        let add: u8 = if word % 2 == 1 {
            bit_value(out.bit)
        } else {
            0
        };
        let old: u8 = match slots[place] {
            Some(v) => v,
            None => 0,
        };
        dispatch_from(outputs, k - 1, word / 2, slots.update(place, Some(old | add)))
    }
}

/// The values of the peripherals from place `place` on, in the order of
/// application, behind those already listed.
pub open spec fn collect_from(slots: Seq<Option<u8>>, place: int, outs: Seq<OutputValue>) -> Seq<
    OutputValue,
>
    decreases 13 - place,
{
    if place < 0 || place >= 13 {
        outs
    } else {
        collect_from(
            slots,
            place + 1,
            match slots[place] {
                Some(v) => outs.push(OutputValue { output: peripheral_at(place), value: v }),
                None => outs,
            },
        )
    }
}

/// The values that an output word gives to the peripherals of a
/// behavior, in the order in which they are applied.
pub open spec fn output_values(outputs: Seq<PeripheralBit>, word: u32) -> Seq<OutputValue> {
    collect_from(dispatch_from(outputs, outputs.len() as int, word, empty_slots()), 0, Seq::empty())
}

/// What an ant reads from an input peripheral. `random` is the byte that
/// the generator gave for it.
pub open spec fn input_value(p: WorldPropertiesView, s: WorldView, a: Ant, source: Peripheral, random: u8) -> u8 {
    let next = next_cell(
        a.pos.x as int,
        a.pos.y as int,
        a.dir as int,
        s.width,
        s.height,
        p.config.border_mode,
    );
    match source {
        Peripheral::Time => (a.age % 256) as u8,
        Peripheral::Cell => color_at(s, a.pos.x as int, a.pos.y as int),
        Peripheral::CellNext => match next {
            Some((x, y)) => color_at(s, x, y),
            None => 0,
        },
        Peripheral::Memory => a.memory,
        Peripheral::Random => random,
        Peripheral::Obstacle => match next {
            Some((x, y)) => if cached(s, x, y) {
                1
            } else {
                0
            },
            None => 1,
        },
        Peripheral::Direction => a.dir,
        Peripheral::Halted => if a.halted {
            1
        } else {
            0
        },
        _ => 0,
    }
}

/// The byte at place `i` of the list; 0 where the list has no such place.
pub open spec fn byte_at(randoms: Seq<u8>, i: int) -> u8 {
    if 0 <= i < randoms.len() {
        randoms[i]
    } else {
        0
    }
}

/// The bytes at place `i` of the list; none where the list has no such
/// place.
pub open spec fn bytes_at(randoms: Seq<Seq<u8>>, i: int) -> Seq<u8> {
    if 0 <= i < randoms.len() {
        randoms[i]
    } else {
        Seq::empty()
    }
}

/// The input word gathered from the input bits from `i` on: for each, the
/// word moves up by one bit and takes the bit in as its lowest. Every
/// input bit is read; only a random one looks at its byte of `randoms`.
pub open spec fn gather_from(
    p: WorldPropertiesView,
    s: WorldView,
    a: Ant,
    inputs: Seq<PeripheralBit>,
    randoms: Seq<u8>,
    i: int,
    word: u8,
) -> u8
    decreases inputs.len() - i,
{
    if i < 0 || i >= inputs.len() {
        word
    } else {
        let value = input_value(p, s, a, inputs[i].peripheral, byte_at(randoms, i));
        let bit: int = if crate::bits::bit_of(value as nat, inputs[i].bit as nat) {
            1
        } else {
            0
        };
        gather_from(p, s, a, inputs, randoms, i + 1, ((word * 2 + bit) % 256) as u8)
    }
}

/// The number of input bits of the behavior of ant `k`.
pub open spec fn input_count(p: WorldPropertiesView, s: WorldView, k: int) -> nat {
    p.behaviors[s.ants[k].behavior as int]->0.inputs.len()
}

/// The input word of ant `k`, where `randoms` holds for each input bit
/// the byte that the generator gave for it (a byte that no input uses
/// where the bit is not random).
pub open spec fn input_word(p: WorldPropertiesView, s: WorldView, k: int, randoms: Seq<u8>) -> u8 {
    let a = s.ants[k];
    gather_from(p, s, a, p.behaviors[a.behavior as int]->0.inputs, randoms, 0, 0)
}

/// The turn of ant `k` on the input word `word`: its behavior's table
/// gives the output word, the output values are applied in order, and the
/// ant takes its step.
pub open spec fn ant_step(p: WorldPropertiesView, s: WorldView, k: int, word: u8) -> WorldView {
    let b = p.behaviors[s.ants[k].behavior as int]->0;
    let out_word = if (word as int) < b.logic.entries.len() {
        b.logic.entries[word as int]
    } else {
        0u32
    };
    move_step(p, apply_outputs(p, s, k, output_values(b.outputs, out_word), 0), k)
}

pub proof fn lemma_or_bit_cell(v: u8, add: u8)
    by (bit_vector)
    requires
        v < 16,
        add == 0 || add == 1 || add == 2 || add == 4 || add == 8,
    ensures
        (v | add) < 16,
{
}

/// Hands the output word out to the output bits of a behavior.
fn dispatch(outputs: &Vec<PeripheralBit>, word: u32) -> (slots: Vec<Option<u8>>)
    requires
        crate::ant::periphs_valid(outputs@, crate::peripherals::IoType::Output) is Ok,
    ensures
        slots@ == dispatch_from(outputs@, outputs@.len() as int, word, empty_slots()),
        slots@.len() == 13,
        slots@[1] matches Some(v) ==> v < 16,
{
    let mut slots: Vec<Option<u8>> = Vec::new();
    let mut n: usize = 0;
    while n < 13
        invariant
            n <= 13,
            slots@.len() == n,
            forall|j: int| 0 <= j < n ==> slots@[j] is None,
        decreases 13 - n,
    {
        slots.push(None);
        n += 1;
    }
    assert(slots@ =~= empty_slots());
    let mut rest = word;
    let mut k: usize = outputs.len();
    proof {
        crate::ant::lemma_first_invalid(outputs@, crate::peripherals::IoType::Output, 0);
    }
    while k > 0
        invariant
            k <= outputs@.len(),
            slots@.len() == 13,
            forall|j: int|
                0 <= j < outputs@.len() ==> crate::peripherals::bit_valid(
                    #[trigger] outputs@[j],
                    crate::peripherals::IoType::Output,
                ) is Ok,
            slots@[1] matches Some(v) ==> v < 16,
            dispatch_from(outputs@, outputs@.len() as int, word, empty_slots()) == dispatch_from(
                outputs@,
                k as int,
                rest,
                slots@,
            ),
        decreases k,
    {
        let out = outputs[k - 1];
        let place = out.peripheral.ordinal() as usize;
        let add: u8 = if rest % 2 == 1 {
            bit_mask(out.bit)
        } else {
            0
        };
        let old: u8 = match slots[place] {
            Some(v) => v,
            None => 0,
        };
        proof {
            assert(crate::peripherals::bit_valid(out, crate::peripherals::IoType::Output) is Ok);
            if place == 1 {
                assert(out.peripheral == Peripheral::Cell);
                assert(out.bit < 4);
                lemma_or_bit_cell(old, add);
            }
        }
        slots[place] = Some(old | add);
        rest = rest / 2;
        k -= 1;
    }
    slots
}

/// Lists the values of the peripherals in the order of application.
fn sorted_outputs(slots: &Vec<Option<u8>>) -> (outs: Vec<OutputValue>)
    requires
        slots@.len() == 13,
        slots@[1] matches Some(v) ==> v < 16,
    ensures
        outs@ == collect_from(slots@, 0, Seq::empty()),
        forall|j: int|
            0 <= j < outs@.len() ==> ((#[trigger] outs@[j]).output == Peripheral::Cell ==> outs@[j].value
                < 16),
        forall|a: int, b: int|
            0 <= a < b < outs@.len() ==> crate::peripherals::applies_before(outs@[a], outs@[b]),
{
    let mut outs: Vec<OutputValue> = Vec::new();
    let mut place: u8 = 0;
    while place < 13
        invariant
            place <= 13,
            slots@.len() == 13,
            slots@[1] matches Some(v) ==> v < 16,
            collect_from(slots@, 0, Seq::empty()) == collect_from(slots@, place as int, outs@),
            forall|j: int|
                0 <= j < outs@.len() ==> ((#[trigger] outs@[j]).output == Peripheral::Cell
                    ==> outs@[j].value < 16),
            forall|j: int| 0 <= j < outs@.len() ==> ordinal_of((#[trigger] outs@[j]).output) < place,
            forall|a: int, b: int|
                0 <= a < b < outs@.len() ==> crate::peripherals::applies_before(outs@[a], outs@[b]),
        decreases 13 - place,
    {
        match slots[place as usize] {
            Some(v) => {
                outs.push(OutputValue { output: Peripheral::from_ordinal(place), value: v });
            },
            None => {},
        }
        place += 1;
    }
    outs
}

/// Bit `bit` of `value`.
fn bit_at(value: u8, bit: u8) -> (r: bool)
    requires
        bit < 8,
    ensures
        r == crate::bits::bit_of(value as nat, bit as nat),
{
    let bits = crate::bits::bits_from_int(value);
    bits[bit as usize]
}

impl WorldState {
    /// Hatches an ant behind ant `k` for the value `v`.
    fn reproduce(&mut self, props: &WorldProperties, k: usize, v: u8)
        requires
            old(self).shaped(),
            world_ok(props@, old(self)@),
            k < old(self)@.ants.len(),
            v != 0,
        ensures
            final(self).shaped(),
            final(self)@ == reproduce(props@, old(self)@, k as int, v),
    {
        let origin = self.ants[k];
        assert(ant_ok(props@, self@, origin));
        let back = (origin.dir + 4) % 8;
        match self.next_pos(&props.config, &origin.pos, back) {
            Some(pos) => {
                let id = v - 1;
                assert(props@.behaviors[id as int] == slot_view(props.behaviors@[id as int]));
                if props.behaviors[id as usize].is_some() {
                    let hatched = Ant::new(pos, origin.dir, id);
                    self.spawn(hatched);
                }
            },
            None => {},
        }
    }

    /// Applies one output value to ant `k` and the world.
    fn apply_output(&mut self, props: &WorldProperties, k: usize, out: OutputValue)
        requires
            old(self).shaped(),
            world_ok(props@, old(self)@),
            k < old(self)@.ants.len(),
            out.output == Peripheral::Cell ==> out.value < 16,
        ensures
            final(self).shaped(),
            final(self)@ == apply_output(props@, old(self)@, k as int, out),
    {
        let ant = self.ants[k];
        let v = out.value;
        assert(ant_ok(props@, self@, ant));
        match out.output {
            Peripheral::Direction => {
                let mut turned = ant;
                turned.dir = ((ant.dir as u16 + v as u16) % 8) as u8;
                self.put_ant(k, turned);
            },
            Peripheral::Halted => {
                let mut changed = ant;
                changed.halted = v != 0;
                self.put_ant(k, changed);
            },
            Peripheral::Cell => {
                if v != 0 {
                    let color = WorldState::adjusted_color(&props.config, v);
                    self.paint(&ant.pos, color);
                }
            },
            Peripheral::CellClear => {
                if v == 1 {
                    self.paint(&ant.pos, 0);
                }
            },
            Peripheral::Memory => {
                let mut changed = ant;
                changed.memory = v;
                self.put_ant(k, changed);
            },
            Peripheral::MemoryClear => {
                if v == 1 {
                    let mut changed = ant;
                    changed.memory = 0;
                    self.put_ant(k, changed);
                }
            },
            Peripheral::SpawnAnt => {
                if v != 0 {
                    self.reproduce(props, k, v);
                }
            },
            Peripheral::Kill => {
                if v == 1 {
                    match self.next_pos(&props.config, &ant.pos, ant.dir) {
                        Some(pos) => {
                            self.kill_at(props, &pos);
                        },
                        None => {},
                    }
                }
            },
            Peripheral::Die => {
                if v == 1 {
                    self.die(k);
                }
            },
            _ => {},
        }
    }

    /// The step at the end of the turn of ant `k`.
    fn move_tick(&mut self, props: &WorldProperties, k: usize)
        requires
            old(self).shaped(),
            world_ok(props@, old(self)@),
            k < old(self)@.ants.len(),
        ensures
            final(self).shaped(),
            final(self)@ == move_step(props@, old(self)@, k as int),
    {
        let ant = self.ants[k];
        assert(ant_ok(props@, self@, ant));
        if ant.status == AntStatus::Alive && !ant.halted {
            match self.next_pos(&props.config, &ant.pos, ant.dir) {
                Some(pos) => {
                    if !self.is_occupied(&pos) {
                        let mut moved = ant;
                        moved.pos = pos;
                        self.put_ant(k, moved);
                        self.occupy(&pos, true);
                        self.occupy(&ant.pos, false);
                    }
                },
                None => {
                    if props.config.border_mode == BorderMode::Despawn {
                        self.die(k);
                    }
                },
            }
        }
    }

    /// The turn of ant `k` on the input word `word`.
    fn apply_word(&mut self, props: &WorldProperties, k: usize, word: u8)
        requires
            old(self).shaped(),
            world_ok(props@, old(self)@),
            k < old(self)@.ants.len(),
        ensures
            final(self).shaped(),
            world_ok(props@, final(self)@),
            final(self)@ == ant_step(props@, old(self)@, k as int, word),
            extends(old(self)@, final(self)@),
    {
        let ghost start = self@;
        let ant = self.ants[k];
        assert(ant_ok(props@, self@, ant));
        assert(props@.behaviors[ant.behavior as int] == slot_view(props.behaviors@[ant.behavior as int]));
        match &props.behaviors[ant.behavior as usize] {
            Some(behavior) => {
                assert(behavior_wf(behavior@));
                let out_word = behavior.logic.get(word);
                let slots = dispatch(&behavior.outputs, out_word);
                let outs = sorted_outputs(&slots);
                proof {
                    lemma_apply_outputs_ok(props@, start, k as int, outs@, 0);
                }
                let mut i: usize = 0;
                while i < outs.len()
                    invariant
                        i <= outs@.len(),
                        self.shaped(),
                        world_ok(props@, self@),
                        k < self@.ants.len(),
                        forall|j: int|
                            0 <= j < outs@.len() ==> ((#[trigger] outs@[j]).output == Peripheral::Cell
                                ==> outs@[j].value < 16),
                        apply_outputs(props@, start, k as int, outs@, 0) == apply_outputs(
                            props@,
                            self@,
                            k as int,
                            outs@,
                            i as int,
                        ),
                    decreases outs@.len() - i,
                {
                    proof {
                        lemma_apply_output_ok(props@, self@, k as int, outs@[i as int]);
                    }
                    self.apply_output(props, k, outs[i]);
                    i += 1;
                }
                proof {
                    lemma_move_step_ok(props@, self@, k as int);
                    let mid = self@;
                    let end = move_step(props@, mid, k as int);
                    assert forall|j: int| 0 <= j < start.ants.len() implies (#[trigger] end.ants[j]).age
                        == start.ants[j].age by {
                        assert(mid.ants[j].age == start.ants[j].age);
                    }
                    assert forall|j: int| start.ants.len() <= j < end.ants.len() implies (
                    #[trigger] end.ants[j]).age == 0 by {
                        if j < mid.ants.len() {
                            assert(mid.ants[j].age == 0);
                        }
                    }
                }
                self.move_tick(props, k);
            },
            None => {},
        }
    }

    /// What ant `k` reads from the input peripheral `source`; `random` is
    /// the byte that the generator gave for it.
    fn read_input(&self, props: &WorldProperties, k: usize, source: Peripheral, random: u8) -> (r: u8)
        requires
            self.shaped(),
            world_ok(props@, self@),
            k < self@.ants.len(),
        ensures
            r == input_value(props@, self@, self@.ants[k as int], source, random),
    {
        let ant = self.ants[k];
        assert(ant_ok(props@, self@, ant));
        match source {
            Peripheral::Time => (ant.age % 256) as u8,
            Peripheral::Cell => self.color(&ant.pos),
            Peripheral::CellNext => match self.next_pos(&props.config, &ant.pos, ant.dir) {
                Some(pos) => self.color(&pos),
                None => 0,
            },
            Peripheral::Memory => ant.memory,
            Peripheral::Random => random,
            Peripheral::Obstacle => match self.next_pos(&props.config, &ant.pos, ant.dir) {
                Some(pos) => {
                    if self.is_occupied(&pos) {
                        1
                    } else {
                        0
                    }
                },
                None => 1,
            },
            Peripheral::Direction => ant.dir,
            Peripheral::Halted => {
                if ant.halted {
                    1
                } else {
                    0
                }
            },
            _ => 0,
        }
    }

    /// Gathers the input word of ant `k`. Each random input bit takes a
    /// new byte from the generator; nothing else changes.
    fn gather_inputs(&mut self, props: &WorldProperties, k: usize) -> (word: u8)
        requires
            old(self).shaped(),
            world_ok(props@, old(self)@),
            k < old(self)@.ants.len(),
        ensures
            final(self).shaped(),
            final(self)@ == old(self)@,
            exists|randoms: Seq<u8>|
                randoms.len() == input_count(props@, old(self)@, k as int) && word == input_word(
                    props@,
                    old(self)@,
                    k as int,
                    randoms,
                ),
    {
        let ant = self.ants[k];
        assert(ant_ok(props@, self@, ant));
        assert(props@.behaviors[ant.behavior as int] == slot_view(props.behaviors@[ant.behavior as int]));
        let mut word: u8 = 0;
        let ghost mut randoms: Seq<u8> = Seq::empty();
        match &props.behaviors[ant.behavior as usize] {
            Some(behavior) => {
                assert(behavior_wf(behavior@));
                let ghost inputs = behavior@.inputs;
                proof {
                    crate::ant::lemma_first_invalid(inputs, crate::peripherals::IoType::Input, 0);
                }
                let mut i: usize = 0;
                while i < behavior.inputs.len()
                    invariant
                        i <= behavior.inputs@.len(),
                        inputs == behavior.inputs@,
                        self.shaped(),
                        self@ == old(self)@,
                        world_ok(props@, self@),
                        k < self@.ants.len(),
                        ant == self@.ants[k as int],
                        randoms.len() == i,
                        forall|j: int|
                            0 <= j < inputs.len() ==> crate::peripherals::bit_valid(
                                #[trigger] inputs[j],
                                crate::peripherals::IoType::Input,
                            ) is Ok,
                        forall|more: Seq<u8>|
                            more.len() == inputs.len() && more.take(i as int) == randoms ==> #[trigger] gather_from(
                                props@,
                                self@,
                                ant,
                                inputs,
                                more,
                                0,
                                0,
                            ) == gather_from(props@, self@, ant, inputs, more, i as int, word),
                    decreases behavior.inputs@.len() - i,
                {
                    let input = behavior.inputs[i];
                    assert(crate::peripherals::bit_valid(input, crate::peripherals::IoType::Input) is Ok);
                    let random: u8 = if input.peripheral == Peripheral::Random {
                        rng_next_byte(&mut self.rng)
                    } else {
                        0
                    };
                    let value = self.read_input(props, k, input.peripheral, random);
                    let bit: u16 = if bit_at(value, input.bit) {
                        1
                    } else {
                        0
                    };
                    let ghost before = randoms;
                    let ghost old_word = word;
                    word = ((word as u16 * 2 + bit) % 256) as u8;
                    proof {
                        randoms = randoms.push(random);
                        assert forall|more: Seq<u8>|
                            more.len() == inputs.len() && more.take(i + 1) == randoms implies #[trigger] gather_from(
                            props@,
                            self@,
                            ant,
                            inputs,
                            more,
                            0,
                            0,
                        ) == gather_from(props@, self@, ant, inputs, more, i + 1, word) by {
                            assert(more.take(i as int) =~= before);
                            assert(more[i as int] == randoms[i as int]);
                        }
                    }
                    i += 1;
                }
                proof {
                    assert(randoms.take(inputs.len() as int) =~= randoms);
                    assert(randoms.len() == input_count(props@, old(self)@, k as int));
                    assert(word == input_word(props@, old(self)@, k as int, randoms));
                }
            },
            None => {},
        }
        word
    }

    /// The turn of ant `k`: it gathers its input word, looks up the output
    /// word, applies the output values in order and takes its step.
    fn ant_tick(&mut self, props: &WorldProperties, k: usize)
        requires
            old(self).shaped(),
            world_ok(props@, old(self)@),
            k < old(self)@.ants.len(),
        ensures
            final(self).shaped(),
            world_ok(props@, final(self)@),
            extends(old(self)@, final(self)@),
            exists|randoms: Seq<u8>|
                randoms.len() == input_count(props@, old(self)@, k as int) && final(self)@ == ant_step(
                    props@,
                    old(self)@,
                    k as int,
                    input_word(props@, old(self)@, k as int, randoms),
                ),
    {
        let word = self.gather_inputs(props, k);
        self.apply_word(props, k, word);
    }
}

/// An ant at the end of a tick: a newborn is alive, a living ant one
/// tick older.
pub open spec fn grown(a: Ant) -> Ant {
    match a.status {
        AntStatus::Newborn => Ant { status: AntStatus::Alive, ..a },
        AntStatus::Alive => Ant { age: (a.age + 1) as u32, ..a },
        AntStatus::Dead => a,
    }
}

/// The ants from `i` on that live, each grown, behind those already kept.
pub open spec fn survivors_from(ants: Seq<Ant>, i: int, kept: Seq<Ant>) -> Seq<Ant>
    decreases ants.len() - i,
{
    if i < 0 || i >= ants.len() {
        kept
    } else if live(ants[i]) {
        survivors_from(ants, i + 1, kept.push(grown(ants[i])))
    } else {
        survivors_from(ants, i + 1, kept)
    }
}

/// The places from `i` on of the ants that live, behind those already
/// listed.
pub open spec fn live_places_from(ants: Seq<Ant>, i: int, places: Seq<int>) -> Seq<int>
    decreases ants.len() - i,
{
    if i < 0 || i >= ants.len() {
        places
    } else if live(ants[i]) {
        live_places_from(ants, i + 1, places.push(i))
    } else {
        live_places_from(ants, i + 1, places)
    }
}

/// The end of a tick: every live ant grows, the dead leave.
pub open spec fn finish_tick(s: WorldView) -> WorldView {
    WorldView { ants: survivors_from(s.ants, 0, Seq::empty()), ..s }
}

/// The start of a tick: the count of ticks goes up by one.
pub open spec fn begin_tick(s: WorldView) -> WorldView {
    WorldView { tick_count: (s.tick_count + 1) as u32, ..s }
}

/// The turns of the ants from `i` up to `n`, in order, each on the state
/// that the turns before it left: an ant that is alive takes its turn on
/// the input word that it gathers, where `randoms[i]` holds the bytes that
/// the generator gave to ant `i`.
pub open spec fn turns_from(
    p: WorldPropertiesView,
    s: WorldView,
    i: int,
    n: int,
    randoms: Seq<Seq<u8>>,
) -> WorldView
    decreases n - i,
{
    if i < 0 || i >= n {
        s
    } else if i < s.ants.len() && s.ants[i].status == AntStatus::Alive {
        turns_from(p, ant_step(p, s, i, input_word(p, s, i, bytes_at(randoms, i))), i + 1, n, randoms)
    } else {
        turns_from(p, s, i + 1, n, randoms)
    }
}

/// One tick: the count goes up, the ants that were there at the start
/// take their turns in order, every live ant grows and the dead leave.
pub open spec fn tick_spec(p: WorldPropertiesView, s: WorldView, randoms: Seq<Seq<u8>>) -> WorldView {
    finish_tick(turns_from(p, begin_tick(s), 0, s.ants.len() as int, randoms))
}

/// The ticks from round `i` on, one after the other: `rounds[i]` holds
/// the bytes that the generator gave in that tick.
pub open spec fn ticks_spec(
    p: WorldPropertiesView,
    s: WorldView,
    rounds: Seq<Seq<Seq<u8>>>,
    i: int,
) -> WorldView
    decreases rounds.len() - i,
{
    if i < 0 || i >= rounds.len() {
        s
    } else {
        ticks_spec(p, tick_spec(p, s, rounds[i]), rounds, i + 1)
    }
}

proof fn lemma_ticks_push(
    p: WorldPropertiesView,
    s: WorldView,
    rounds: Seq<Seq<Seq<u8>>>,
    last: Seq<Seq<u8>>,
    i: int,
)
    requires
        0 <= i <= rounds.len(),
    ensures
        ticks_spec(p, s, rounds.push(last), i) == tick_spec(p, ticks_spec(p, s, rounds, i), last),
    decreases rounds.len() - i,
{
    if i < rounds.len() {
        assert(rounds.push(last)[i] == rounds[i]);
        lemma_ticks_push(p, tick_spec(p, s, rounds[i]), rounds, last, i + 1);
    } else {
        assert(ticks_spec(p, tick_spec(p, s, last), rounds.push(last), i + 1) == tick_spec(p, s, last));
    }
}

/// A tick does not look at how the run is paced: the limit of ticks, the
/// speed, the frames per second and whether the run loops.
pub proof fn lemma_tick_pacing(p: WorldPropertiesView, q: WorldPropertiesView, s: WorldView, randoms: Seq<Seq<u8>>)
    requires
        q.behaviors == p.behaviors,
        q.config.border_mode == p.config.border_mode,
        q.config.color_mode == p.config.color_mode,
    ensures
        tick_spec(q, s, randoms) == tick_spec(p, s, randoms),
{
    lemma_turns_pacing(p, q, begin_tick(s), 0, s.ants.len() as int, randoms);
}

proof fn lemma_turns_pacing(
    p: WorldPropertiesView,
    q: WorldPropertiesView,
    s: WorldView,
    i: int,
    n: int,
    randoms: Seq<Seq<u8>>,
)
    requires
        q.behaviors == p.behaviors,
        q.config.border_mode == p.config.border_mode,
        q.config.color_mode == p.config.color_mode,
    ensures
        turns_from(q, s, i, n, randoms) == turns_from(p, s, i, n, randoms),
    decreases n - i,
{
    if 0 <= i < n {
        if i < s.ants.len() && s.ants[i].status == AntStatus::Alive {
            let a = s.ants[i];
            let inputs = p.behaviors[a.behavior as int]->0.inputs;
            lemma_gather_pacing(p, q, s, a, inputs, bytes_at(randoms, i), 0, 0);
            let word = input_word(p, s, i, bytes_at(randoms, i));
            let b = p.behaviors[a.behavior as int]->0;
            let out_word = if (word as int) < b.logic.entries.len() {
                b.logic.entries[word as int]
            } else {
                0u32
            };
            let outs = output_values(b.outputs, out_word);
            lemma_outputs_pacing(p, q, s, i, outs, 0);
            lemma_turns_pacing(p, q, ant_step(p, s, i, word), i + 1, n, randoms);
        } else {
            lemma_turns_pacing(p, q, s, i + 1, n, randoms);
        }
    }
}

proof fn lemma_gather_pacing(
    p: WorldPropertiesView,
    q: WorldPropertiesView,
    s: WorldView,
    a: Ant,
    inputs: Seq<PeripheralBit>,
    randoms: Seq<u8>,
    i: int,
    word: u8,
)
    requires
        q.config.border_mode == p.config.border_mode,
    ensures
        gather_from(q, s, a, inputs, randoms, i, word) == gather_from(p, s, a, inputs, randoms, i, word),
    decreases inputs.len() - i,
{
    if 0 <= i < inputs.len() {
        let value = input_value(p, s, a, inputs[i].peripheral, byte_at(randoms, i));
        let bit: int = if crate::bits::bit_of(value as nat, inputs[i].bit as nat) {
            1
        } else {
            0
        };
        lemma_gather_pacing(p, q, s, a, inputs, randoms, i + 1, ((word * 2 + bit) % 256) as u8);
    }
}

proof fn lemma_outputs_pacing(
    p: WorldPropertiesView,
    q: WorldPropertiesView,
    s: WorldView,
    k: int,
    outs: Seq<OutputValue>,
    i: int,
)
    requires
        q.behaviors == p.behaviors,
        q.config.border_mode == p.config.border_mode,
        q.config.color_mode == p.config.color_mode,
    ensures
        apply_outputs(q, s, k, outs, i) == apply_outputs(p, s, k, outs, i),
        move_step(q, s, k) == move_step(p, s, k),
    decreases outs.len() - i,
{
    if 0 <= i < outs.len() {
        assert(apply_output(q, s, k, outs[i]) == apply_output(p, s, k, outs[i]));
        lemma_outputs_pacing(p, q, apply_output(p, s, k, outs[i]), k, outs, i + 1);
    }
}

proof fn lemma_survivors(ants: Seq<Ant>, i: int, kept: Seq<Ant>, places: Seq<int>)
    requires
        0 <= i <= ants.len(),
        kept.len() == places.len(),
        forall|m: int|
            0 <= m < places.len() ==> 0 <= #[trigger] places[m] < i && live(ants[places[m]]) && kept[m]
                == grown(ants[places[m]]),
        forall|lower: int, upper: int| 0 <= lower < upper < places.len() ==> #[trigger] places[lower] < #[trigger] places[upper],
        forall|j: int| 0 <= j < i && live(#[trigger] ants[j]) ==> exists|m: int| 0 <= m < places.len() && #[trigger] places[m] == j,
    ensures
        ({
            let r = survivors_from(ants, i, kept);
            let q = live_places_from(ants, i, places);
            &&& r.len() == q.len()
            &&& forall|m: int|
                0 <= m < q.len() ==> 0 <= #[trigger] q[m] < ants.len() && live(ants[q[m]]) && r[m] == grown(
                    ants[q[m]],
                )
            &&& forall|lower: int, upper: int| 0 <= lower < upper < q.len() ==> #[trigger] q[lower] < #[trigger] q[upper]
            &&& forall|j: int|
                0 <= j < ants.len() && live(#[trigger] ants[j]) ==> exists|m: int| 0 <= m < q.len() && #[trigger] q[m] == j
        }),
    decreases ants.len() - i,
{
    if i < ants.len() {
        if live(ants[i]) {
            let kept2 = kept.push(grown(ants[i]));
            let places2 = places.push(i);
            assert forall|j: int| 0 <= j < i + 1 && live(#[trigger] ants[j]) implies exists|m: int|
                0 <= m < places2.len() && #[trigger] places2[m] == j by {
                if j < i {
                    let m = choose|m: int| 0 <= m < places.len() && #[trigger] places[m] == j;
                    assert(places2[m] == j);
                } else {
                    assert(places2[places.len() as int] == j);
                }
            }
            lemma_survivors(ants, i + 1, kept2, places2);
        } else {
            assert forall|j: int| 0 <= j < i + 1 && live(#[trigger] ants[j]) implies exists|m: int|
                0 <= m < places.len() && #[trigger] places[m] == j by {
                assert(j < i);
            }
            lemma_survivors(ants, i + 1, kept, places);
        }
    }
}

proof fn lemma_increasing_bound(q: Seq<int>, m: int)
    requires
        0 <= m < q.len(),
        forall|lower: int, upper: int| 0 <= lower < upper < q.len() ==> #[trigger] q[lower] < #[trigger] q[upper],
        q[0] >= 0,
    ensures
        q[m] >= m,
    decreases m,
{
    if m > 0 {
        lemma_increasing_bound(q, m - 1);
        assert(q[m - 1] < q[m]);
    }
}

/// The end of a tick leaves the world in order, with every ant alive
/// and at most one tick older.
pub proof fn lemma_finish_tick_ok(p: WorldPropertiesView, s: WorldView, limit: int)
    requires
        world_ok(p, s),
    ensures
        world_ok(p, finish_tick(s)),
        settled(finish_tick(s)),
        limit <= u32::MAX && (forall|j: int| 0 <= j < s.ants.len() ==> (#[trigger] s.ants[j]).age < limit)
            ==> forall|k: int|
            0 <= k < finish_tick(s).ants.len() ==> (#[trigger] finish_tick(s).ants[k]).age <= limit,
        finish_tick(s).ants.len() <= s.ants.len(),
{
    let t = finish_tick(s);
    let q = live_places_from(s.ants, 0, Seq::empty());
    lemma_survivors(s.ants, 0, Seq::empty(), Seq::empty());
    assert(t.ants.len() == q.len());
    if q.len() > 0 {
        assert(0 <= q[0]);
        lemma_increasing_bound(q, q.len() - 1);
        assert(q[q.len() - 1] < s.ants.len());
    }
    assert forall|k: int| 0 <= k < t.ants.len() implies ant_ok(p, t, #[trigger] t.ants[k]) by {
        assert(0 <= q[k] < s.ants.len());
        assert(ant_ok(p, s, s.ants[q[k]]));
    }
    if limit <= u32::MAX && (forall|j: int| 0 <= j < s.ants.len() ==> (#[trigger] s.ants[j]).age < limit) {
        assert forall|k: int| 0 <= k < t.ants.len() implies (#[trigger] t.ants[k]).age <= limit by {
            assert(0 <= q[k] < s.ants.len());
            assert(s.ants[q[k]].age < limit);
        }
    }
    assert forall|x: int, y: int| 0 <= x < t.width && 0 <= y < t.height implies (#[trigger] cached(t, x, y)
        <==> occupied(t.ants, x, y)) by {
        assert(cached(t, x, y) == cached(s, x, y));
        if occupied(s.ants, x, y) {
            let j = choose|j: int|
                0 <= j < s.ants.len() && live(#[trigger] s.ants[j]) && s.ants[j].pos.x == x && s.ants[j].pos.y
                    == y;
            let m = choose|m: int| 0 <= m < q.len() && #[trigger] q[m] == j;
            assert(0 <= q[m] < s.ants.len());
            assert(live(t.ants[m]) && t.ants[m].pos.x == x && t.ants[m].pos.y == y);
        }
        if occupied(t.ants, x, y) {
            let m = choose|m: int|
                0 <= m < t.ants.len() && live(#[trigger] t.ants[m]) && t.ants[m].pos.x == x && t.ants[m].pos.y
                    == y;
            assert(0 <= q[m] < s.ants.len());
            let j = q[m];
            assert(live(s.ants[j]) && s.ants[j].pos.x == x && s.ants[j].pos.y == y);
        }
    }
    assert forall|a: int, b: int|
        0 <= a < t.ants.len() && 0 <= b < t.ants.len() && a != b && live(#[trigger] t.ants[a]) && live(
            #[trigger] t.ants[b],
        ) implies t.ants[a].pos != t.ants[b].pos by {
        assert(0 <= q[a] < s.ants.len());
        assert(0 <= q[b] < s.ants.len());
        if a < b {
            assert(q[a] < q[b]);
        } else {
            assert(q[b] < q[a]);
        }
        assert(live(s.ants[q[a]]) && live(s.ants[q[b]]));
        assert(s.ants[q[a]].pos != s.ants[q[b]].pos);
    }
    assert forall|x: int, y: int| 0 <= x < t.width && 0 <= y < t.height implies color_ok(
        p.config.color_mode,
        #[trigger] color_at(t, x, y),
    ) by {
        assert(color_at(t, x, y) == color_at(s, x, y));
    }
    assert forall|k: int| 0 <= k < t.ants.len() implies (#[trigger] t.ants[k]).status == AntStatus::Alive by {
        assert(0 <= q[k] < s.ants.len());
    }
}

/// The start of a tick leaves the world in order.
pub proof fn lemma_begin_tick_ok(p: WorldPropertiesView, s: WorldView)
    requires
        world_ok(p, s),
    ensures
        world_ok(p, begin_tick(s)),
{
    let t = begin_tick(s);
    assert forall|k: int| 0 <= k < t.ants.len() implies ant_ok(p, t, #[trigger] t.ants[k]) by {
        assert(ant_ok(p, s, s.ants[k]));
    }
    assert forall|x: int, y: int| 0 <= x < t.width && 0 <= y < t.height implies (#[trigger] cached(t, x, y)
        <==> occupied(t.ants, x, y)) by {
        assert(cached(t, x, y) == cached(s, x, y));
    }
    assert forall|x: int, y: int| 0 <= x < t.width && 0 <= y < t.height implies color_ok(
        p.config.color_mode,
        #[trigger] color_at(t, x, y),
    ) by {
        assert(color_at(t, x, y) == color_at(s, x, y));
    }
}

/// The ticks that a run without a limit of its own takes at most.
pub const MAX_TICKS: u32 = 0x10000;

impl WorldState {
    /// The end of a tick: every live ant grows, the dead leave.
    fn finish(&mut self)
        requires
            forall|j: int| 0 <= j < old(self)@.ants.len() ==> (#[trigger] old(self)@.ants[j]).age < u32::MAX,
        ensures
            final(self).shaped() == old(self).shaped(),
            final(self)@ == finish_tick(old(self)@),
    {
        let mut kept: Vec<Ant> = Vec::new();
        let mut i: usize = 0;
        while i < self.ants.len()
            invariant
                i <= self.ants@.len(),
                self@ == old(self)@,
                self.shaped() == old(self).shaped(),
                forall|j: int| 0 <= j < self@.ants.len() ==> (#[trigger] self@.ants[j]).age < u32::MAX,
                survivors_from(self@.ants, 0, Seq::empty()) == survivors_from(self@.ants, i as int, kept@),
            decreases self.ants@.len() - i,
        {
            let mut ant = self.ants[i];
            if ant.status != AntStatus::Dead {
                assert(self@.ants[i as int].age < u32::MAX);
                ant.grow_up();
                kept.push(ant);
            }
            i += 1;
        }
        self.ants = kept;
    }
}

/// A grid with its ants and the behaviors that drive them.
pub struct World {
    properties: WorldProperties,
    state: WorldState,
}

impl View for World {
    type V = WorldView;

    closed spec fn view(&self) -> WorldView {
        self.state@
    }
}

/// The cell on which the first ant starts.
pub open spec fn start_cell(config: WorldConfigView) -> (int, int) {
    match config.starting_pos {
        StartingPos::TopLeft => (0, 0),
        StartingPos::Center => ((config.width / 2) as int, (config.height / 2) as int),
        StartingPos::MiddleLeft => (0, (config.height / 2) as int),
    }
}

/// The first ant: bound to behavior 1, alive, on the starting cell,
/// facing north.
pub open spec fn first_ant(config: WorldConfigView) -> Ant {
    Ant {
        behavior: 1,
        status: AntStatus::Alive,
        pos: Vec2u { x: start_cell(config).0 as usize, y: start_cell(config).1 as usize },
        dir: 0,
        halted: false,
        memory: 0,
        age: 0,
    }
}

/// Whether a run goes on after a tick: there are ants, and the limit of
/// ticks, if there is one, is not reached.
pub open spec fn goes_on(p: WorldPropertiesView, s: WorldView) -> bool {
    s.ants.len() > 0 && !(p.config.ticks matches Some(max) && s.tick_count >= max)
}

impl World {
    /// The properties that the world was made of.
    pub closed spec fn props(&self) -> WorldPropertiesView {
        self.properties@
    }

    /// Whether the world is in order: see `world_ok`.
    pub closed spec fn wf(&self) -> bool {
        self.state.shaped() && world_ok(self.properties@, self.state@)
    }

    /// A world that is in order is so in the sense of `world_ok`.
    pub proof fn lemma_in_order(self)
        requires
            self.wf(),
        ensures
            world_ok(self.props(), self@),
    {
    }

    /// A world with black cells and the first ant on the starting cell.
    ///
    /// Fails with `WorldNoEntry` where no behavior is bound to id 1.
    pub fn new(properties: WorldProperties) -> (r: Result<World, CompileError>)
        requires
            properties_wf(properties@),
        ensures
            r is Ok <==> properties@.behaviors[1] is Some,
            r matches Err(e) ==> e@ == bare(ErrorKind::WorldNoEntry),
            r matches Ok(world) ==> {
                &&& world.wf()
                &&& settled(world@)
                &&& young(world@)
                &&& world.props() == properties@
                &&& world@.tick_count == 0
                &&& world@.width == properties@.config.width
                &&& world@.height == properties@.config.height
                &&& world@.ants == seq![first_ant(properties@.config)]
                &&& forall|i: int| 0 <= i < world@.cells.len() ==> world@.cells[i] == 0
            },
    {
        let width = properties.config.width;
        let height = properties.config.height;
        let rng = match properties.config.noise_seed {
            Some(seed) => rng_from_number(seed as u64),
            None => rng_from_bytes(random_seed()),
        };
        let mut state = WorldState {
            rng,
            tick_count: 0,
            cells: Matrix::new(width, height),
            ants: Vec::new(),
            ant_cache: Matrix::new(width, height),
        };
        let starting_pos = match properties.config.starting_pos {
            StartingPos::TopLeft => Vec2u { x: 0, y: 0 },
            StartingPos::Center => Vec2u { x: width / 2, y: height / 2 },
            StartingPos::MiddleLeft => Vec2u { x: 0, y: height / 2 },
        };
        assert(properties@.behaviors[1] == slot_view(properties.behaviors@[1]));
        if properties.behaviors[1].is_none() {
            return Err(CompileError::new(ErrorKind::WorldNoEntry));
        }
        let mut ant = Ant::new(starting_pos, 0, 1);
        ant.grow_up();
        proof {
            let p = properties@;
            let s = state@;
            assert forall|x: int, y: int| 0 <= x < s.width && 0 <= y < s.height implies (#[trigger] cached(
                s,
                x,
                y,
            ) <==> occupied(s.ants, x, y)) by {
                lemma_cell_index(s.width, s.height, x, y);
            }
            assert forall|x: int, y: int| 0 <= x < s.width && 0 <= y < s.height implies color_ok(
                p.config.color_mode,
                #[trigger] color_at(s, x, y),
            ) by {
                lemma_cell_index(s.width, s.height, x, y);
            }
            assert(world_ok(p, s));
            lemma_spawn_ant_ok(p, s, ant);
            lemma_cell_index(s.width, s.height, ant.pos.x as int, ant.pos.y as int);
        }
        state.spawn(ant);
        assert(state@.ants =~= seq![first_ant(properties@.config)]);
        Ok(World { properties, state })
    }

    /// One tick of the world. Returns whether the run goes on. The world
    /// must be able to take the tick: neither the count of ticks nor the
    /// age of an ant may be the largest number (see `can_tick_now`).
    ///
    /// The count of ticks goes up by one. The ants that were there at the
    /// start take their turns in order, each on what the turns before it
    /// left; then every live ant grows and the dead leave. The world stays
    /// in order: the cache is set exactly where an ant stands, there are at
    /// most 256 ants, no two on one cell, each facing one of eight
    /// directions, and every cell holds a color that the color mode allows.
    pub fn tick(&mut self) -> (r: bool)
        requires
            old(self).wf(),
            can_tick(old(self)@),
        ensures
            final(self).wf(),
            settled(final(self)@),
            young(old(self)@) ==> young(final(self)@),
            final(self).props() == old(self).props(),
            final(self)@.tick_count == old(self)@.tick_count + 1,
            r == goes_on(final(self).props(), final(self)@),
            exists|randoms: Seq<Seq<u8>>|
                randoms.len() == old(self)@.ants.len() && final(self)@ == tick_spec(
                    old(self).props(),
                    old(self)@,
                    randoms,
                ),
    {
        let ghost p = self.properties@;
        let ghost start = self.state@;
        proof {
            lemma_begin_tick_ok(p, start);
        }
        self.state.tick_count = self.state.tick_count + 1;
        let ghost begun = self.state@;
        assert(begun == begin_tick(start));
        let n = self.state.ants.len();
        let ghost mut randoms: Seq<Seq<u8>> = Seq::empty();
        let ghost limit: int = if young(start) {
            begun.tick_count as int
        } else {
            u32::MAX as int
        };
        let mut i: usize = 0;
        while i < n
            invariant
                i <= n,
                n == start.ants.len(),
                n <= self.state@.ants.len(),
                p == self.properties@,
                self.properties == old(self).properties,
                begun == begin_tick(start),
                self.state.shaped(),
                world_ok(p, self.state@),
                self.state@.tick_count == begun.tick_count,
                begun.tick_count == start.tick_count + 1,
                1 <= limit <= u32::MAX,
                forall|j: int| 0 <= j < self.state@.ants.len() ==> (#[trigger] self.state@.ants[j]).age < limit,
                randoms.len() == i,
                forall|more: Seq<Seq<u8>>|
                    more.len() == n && more.take(i as int) == randoms ==> #[trigger] turns_from(
                        p,
                        begun,
                        0,
                        n as int,
                        more,
                    ) == turns_from(p, self.state@, i as int, n as int, more),
            decreases n - i,
        {
            let ghost before = self.state@;
            let ghost done = randoms;
            let ghost mut used: Seq<u8> = Seq::empty();
            if self.state.ants[i].is_alive() {
                self.state.ant_tick(&self.properties, i);
                proof {
                    used = choose|used: Seq<u8>|
                        self.state@ == ant_step(p, before, i as int, input_word(p, before, i as int, used));
                    let after = self.state@;
                    assert forall|j: int| 0 <= j < after.ants.len() implies (#[trigger] after.ants[j]).age
                        < limit by {
                        if j < before.ants.len() {
                            assert(before.ants[j].age < limit);
                        }
                    }
                }
            }
            proof {
                randoms = randoms.push(used);
                assert forall|more: Seq<Seq<u8>>|
                    more.len() == n && more.take(i + 1) == randoms implies #[trigger] turns_from(
                    p,
                    begun,
                    0,
                    n as int,
                    more,
                ) == turns_from(p, self.state@, i + 1, n as int, more) by {
                    assert(more.take(i as int) =~= done);
                    assert(more[i as int] == randoms[i as int]);
                }
            }
            i += 1;
        }
        let ghost turned = self.state@;
        proof {
            assert(randoms.take(n as int) =~= randoms);
            assert(turns_from(p, begun, 0, n as int, randoms) == turns_from(
                p,
                turned,
                n as int,
                n as int,
                randoms,
            ));
            assert(turns_from(p, begun, 0, n as int, randoms) == turned);
            lemma_finish_tick_ok(p, turned, limit);
        }
        self.state.finish();
        proof {
            assert(self.state@ == finish_tick(turned));
            assert(self.state@ == tick_spec(p, start, randoms));
        }
        let no_ants = self.state.ants.len() == 0;
        let tick_overflow = match self.properties.config.ticks {
            Some(max) => self.state.tick_count >= max,
            None => false,
        };
        !(no_ants || tick_overflow)
    }

    /// The turn of ant `k`: it gathers its input word, looks up the output
    /// word in its behavior's table, applies the output values in the order
    /// of their peripherals and takes its step. Each random input bit takes
    /// a new byte from the generator.
    pub fn ant_tick(&mut self, ant_index: usize)
        requires
            old(self).wf(),
            ant_index < old(self)@.ants.len(),
        ensures
            final(self).wf(),
            final(self).props() == old(self).props(),
            extends(old(self)@, final(self)@),
            exists|randoms: Seq<u8>|
                randoms.len() == input_count(old(self).props(), old(self)@, ant_index as int)
                    && final(self)@ == ant_step(
                    old(self).props(),
                    old(self)@,
                    ant_index as int,
                    input_word(old(self).props(), old(self)@, ant_index as int, randoms),
                ),
    {
        self.state.ant_tick(&self.properties, ant_index);
    }

    /// The cell that `ant`, an ant inside the grid that faces one of the
    /// eight directions, steps to; `None` where the border stops it.
    pub fn next_pos(&self, ant: &Ant) -> (r: Option<Vec2u>)
        requires
            self.wf(),
            ant.pos.x < self@.width,
            ant.pos.y < self@.height,
            ant.dir < 8,
        ensures
            match r {
                Some(next) => next_cell(
                    ant.pos.x as int,
                    ant.pos.y as int,
                    ant.dir as int,
                    self@.width,
                    self@.height,
                    self.props().config.border_mode,
                ) == Some((next.x as int, next.y as int)) && next.x < self@.width && next.y
                    < self@.height,
                None => next_cell(
                    ant.pos.x as int,
                    ant.pos.y as int,
                    ant.dir as int,
                    self@.width,
                    self@.height,
                    self.props().config.border_mode,
                ) is None,
            },
    {
        self.state.next_pos(&self.properties.config, &ant.pos, ant.dir)
    }

    /// The turn of ant `ant_index` on the input word `word`: the table of
    /// its behavior gives the output word, the output values are applied in
    /// the order of their peripherals, and the ant takes its step.
    pub fn apply_word(&mut self, ant_index: usize, word: u8)
        requires
            old(self).wf(),
            ant_index < old(self)@.ants.len(),
        ensures
            final(self).wf(),
            final(self).props() == old(self).props(),
            final(self)@ == ant_step(old(self).props(), old(self)@, ant_index as int, word),
            extends(old(self)@, final(self)@),
    {
        self.state.apply_word(&self.properties, ant_index, word);
    }

    /// The step at the end of the turn of ant `ant_index`: an ant that is
    /// alive and not halted moves to the cell before it if that is free;
    /// where there is no such cell and ants despawn at the border, it dies;
    /// where they collide, nothing changes.
    pub fn move_tick(&mut self, ant_index: usize)
        requires
            old(self).wf(),
            ant_index < old(self)@.ants.len(),
        ensures
            final(self).wf(),
            final(self).props() == old(self).props(),
            final(self)@ == move_step(old(self).props(), old(self)@, ant_index as int),
    {
        proof {
            lemma_move_step_ok(self.properties@, self.state@, ant_index as int);
        }
        self.state.move_tick(&self.properties, ant_index);
    }

    /// The color that is written into a cell for `color`: in binary mode
    /// 0 for 0 and 15 for anything else, else `color` itself.
    pub fn adjusted_color(&self, color: u8) -> (r: u8)
        ensures
            r == adjusted(self.props().config.color_mode, color),
            self.props().config.color_mode == ColorMode::Binary ==> (r == 0 || r == 15) && (r == 0 <==> color
                == 0),
    {
        WorldState::adjusted_color(&self.properties.config, color)
    }

    /// What ant `ant_index` reads from the input peripheral `source`;
    /// `random` is the byte that the generator gave for it.
    pub fn read_input(&self, ant_index: usize, source: Peripheral, random: u8) -> (r: u8)
        requires
            self.wf(),
            ant_index < self@.ants.len(),
        ensures
            r == input_value(self.props(), self@, self@.ants[ant_index as int], source, random),
    {
        self.state.read_input(&self.properties, ant_index, source, random)
    }

    /// The ticks of one frame: as many as the speed says, fewer where the
    /// run ends before or the count of ticks is used up. Returns whether
    /// the run goes on.
    pub fn frame_tick(&mut self) -> (r: bool)
        requires
            old(self).wf(),
            old(self).props().config.speed is Some,
        ensures
            final(self).wf(),
            settled(old(self)@) || final(self)@.tick_count > old(self)@.tick_count ==> settled(final(self)@),
            final(self).props() == old(self).props(),
            final(self)@.tick_count >= old(self)@.tick_count,
            final(self)@.tick_count <= old(self)@.tick_count + old(self).props().config.speed->0,
            r ==> goes_on(final(self).props(), final(self)@) && final(self)@.tick_count == old(self)@.tick_count
                + old(self).props().config.speed->0,
            !r ==> !goes_on(final(self).props(), final(self)@) || !can_tick(final(self)@),
            young(old(self)@) ==> young(final(self)@),
            exists|rounds: Seq<Seq<Seq<u8>>>|
                rounds.len() == final(self)@.tick_count - old(self)@.tick_count && final(self)@ == ticks_spec(
                    old(self).props(),
                    old(self)@,
                    rounds,
                    0,
                ),
    {
        let speed = match self.properties.config.speed {
            Some(speed) => speed,
            None => 0,
        };
        let mut done: u32 = 0;
        let mut running = true;
        let ghost mut rounds: Seq<Seq<Seq<u8>>> = Seq::empty();
        if speed == 0 {
            assert(self@ == ticks_spec(self.props(), self@, rounds, 0));
            return self.goes_on_now() && self.can_tick_now();
        }
        while done < speed && running
            invariant
                done <= speed,
                rounds.len() == done,
                self@ == ticks_spec(old(self).props(), old(self)@, rounds, 0),
                speed == old(self).props().config.speed->0,
                self.wf(),
                settled(old(self)@) || done > 0 ==> settled(self@),
                self.props() == old(self).props(),
                self@.tick_count == old(self)@.tick_count + done,
                !running ==> !goes_on(self.props(), self@) || !can_tick(self@),
                running && done > 0 ==> goes_on(self.props(), self@),
                young(old(self)@) ==> young(self@),
            decreases speed - done + if running { 1int } else { 0int },
        {
            if !self.can_tick_now() {
                running = false;
            } else {
                let ghost before = self@;
                let more = self.tick();
                proof {
                    let used = choose|used: Seq<Seq<u8>>| self@ == tick_spec(self.props(), before, used);
                    lemma_ticks_push(old(self).props(), old(self)@, rounds, used, 0);
                    rounds = rounds.push(used);
                }
                done += 1;
                if !more {
                    running = false;
                }
            }
        }
        running
    }

    /// Whether the world can take one more tick: neither the count of
    /// ticks nor the age of an ant is the largest number.
    pub fn can_tick_now(&self) -> (r: bool)
        ensures
            r == can_tick(self@),
    {
        if self.state.tick_count == u32::MAX {
            return false;
        }
        let mut i: usize = 0;
        while i < self.state.ants.len()
            invariant
                i <= self.state.ants@.len(),
                forall|k: int| 0 <= k < i ==> (#[trigger] self.state.ants@[k]).age < u32::MAX,
            decreases self.state.ants@.len() - i,
        {
            if self.state.ants[i].age == u32::MAX {
                return false;
            }
            i += 1;
        }
        true
    }

    /// Whether a run goes on from here.
    pub fn goes_on_now(&self) -> (r: bool)
        ensures
            r == goes_on(self.props(), self@),
    {
        let tick_overflow = match self.properties.config.ticks {
            Some(max) => self.state.tick_count >= max,
            None => false,
        };
        self.state.ants.len() > 0 && !tick_overflow
    }

    /// Runs the world to its end: tick after tick until no ant is left or
    /// the limit of ticks is reached. A world without a limit gets the
    /// limit of 65536 ticks. Returns the number of ticks taken.
    ///
    /// A run from tick 0 with the limit `N` (at least 1), in a world in
    /// which no ant is older than the world, ends after exactly `N` ticks,
    /// or earlier with no ant left. A run also ends where the count of
    /// ticks or the age of an ant is the largest number.
    pub fn instant_run(&mut self) -> (ticks: u32)
        requires
            old(self).wf(),
        ensures
            final(self).wf(),
            settled(old(self)@) || ticks > 0 ==> settled(final(self)@),
            final(self).props().behaviors == old(self).props().behaviors,
            final(self).props().config.ticks == Some(
                match old(self).props().config.ticks {
                    Some(max) => max,
                    None => MAX_TICKS,
                },
            ),
            final(self)@.tick_count == old(self)@.tick_count + ticks,
            can_tick(old(self)@) ==> ticks >= 1,
            ticks > 1 ==> final(self)@.tick_count <= final(self).props().config.ticks->0,
            !goes_on(final(self).props(), final(self)@) || !can_tick(final(self)@),
            young(old(self)@) ==> young(final(self)@),
            exists|rounds: Seq<Seq<Seq<u8>>>|
                rounds.len() == ticks && final(self)@ == ticks_spec(old(self).props(), old(self)@, rounds, 0),
            old(self)@.tick_count == 0 && young(old(self)@) && final(self).props().config.ticks->0 >= 1 ==> {
                let limit = final(self).props().config.ticks->0;
                final(self)@.tick_count <= limit && (final(self)@.tick_count == limit || final(
                    self
                )@.ants.len() == 0)
            },
    {
        let max_ticks = match self.properties.config.ticks {
            Some(max) => max,
            None => MAX_TICKS,
        };
        proof {
            let p = self.properties@;
            let q = WorldPropertiesView {
                config: WorldConfigView { ticks: Some(max_ticks), ..p.config },
                ..p
            };
            lemma_same_world(p, q, self.state@);
        }
        self.properties.config.ticks = Some(max_ticks);
        let mut taken: u32 = 0;
        let mut running = self.can_tick_now();
        let ghost mut rounds: Seq<Seq<Seq<u8>>> = Seq::empty();
        while running
            invariant
                self.wf(),
                rounds.len() == taken,
                self@ == ticks_spec(old(self).props(), old(self)@, rounds, 0),
                self.props().config.border_mode == old(self).props().config.border_mode,
                self.props().config.color_mode == old(self).props().config.color_mode,
                settled(old(self)@) || taken > 0 ==> settled(self@),
                self.props().behaviors == old(self).props().behaviors,
                self.props().config.ticks == Some(max_ticks),
                self@.tick_count == old(self)@.tick_count + taken,
                running ==> can_tick(self@),
                running && taken > 0 ==> goes_on(self.props(), self@),
                !running && taken > 0 ==> !goes_on(self.props(), self@) || !can_tick(self@),
                !running && taken == 0 ==> !can_tick(self@),
                taken > 1 ==> self@.tick_count <= max_ticks,
                can_tick(old(self)@) ==> taken >= 1 || running,
                young(old(self)@) ==> young(self@),
            decreases u32::MAX - self@.tick_count + if running { 1int } else { 0int },
        {
            let ghost before = self@;
            let more = self.tick();
            proof {
                let used = choose|used: Seq<Seq<u8>>| self@ == tick_spec(self.props(), before, used);
                lemma_tick_pacing(old(self).props(), self.props(), before, used);
                lemma_ticks_push(old(self).props(), old(self)@, rounds, used, 0);
                rounds = rounds.push(used);
            }
            taken += 1;
            running = more && self.can_tick_now();
        }
        proof {
            if young(self@) && self@.tick_count < u32::MAX {
                lemma_young_can_tick(self@);
            }
        }
        taken
    }

    /// The number of ticks so far.
    pub fn tick_count(&self) -> (r: u32)
        ensures
            r == self@.tick_count,
    {
        self.state.tick_count
    }

    /// The settings.
    pub fn config(&self) -> (r: &WorldConfig)
        ensures
            r@ == self.props().config,
    {
        &self.properties.config
    }

    /// The ants.
    pub fn ants(&self) -> (r: &Vec<Ant>)
        ensures
            r@ == self@.ants,
    {
        &self.state.ants
    }

    /// The colors of the cells.
    pub fn cells(&self) -> (r: &Matrix<u8>)
        ensures
            r.values@ == self@.cells,
            r.width == self@.width,
            r.height == self@.height,
    {
        &self.state.cells
    }

    /// Whether an ant stands on `pos`, a cell of the grid.
    pub fn is_occupied(&self, pos: &Vec2u) -> (r: bool)
        requires
            self.wf(),
            pos.x < self@.width,
            pos.y < self@.height,
        ensures
            r == cached(self@, pos.x as int, pos.y as int),
            r == occupied(self@.ants, pos.x as int, pos.y as int),
    {
        assert(cached(self@, pos.x as int, pos.y as int) <==> occupied(self@.ants, pos.x as int, pos.y as int));
        self.state.is_occupied(pos)
    }

    /// Adds `ant` to the population, unless there are 256 ants already or
    /// its cell is taken. The ant may have any age, memory and behavior
    /// that is bound; it must stand inside the grid, face one of the eight
    /// directions and not be dead.
    pub fn spawn(&mut self, ant: Ant)
        requires
            old(self).wf(),
            ant_ok(old(self).props(), old(self)@, ant),
            live(ant),
        ensures
            final(self).wf(),
            final(self).props() == old(self).props(),
            final(self)@ == spawn_ant(old(self)@, ant),
    {
        proof {
            lemma_spawn_ant_ok(self.properties@, self.state@, ant);
        }
        self.state.spawn(ant);
    }

    /// Sets the limit of ticks.
    pub fn set_ticks(&mut self, ticks: Option<u32>)
        requires
            old(self).wf(),
        ensures
            final(self).wf(),
            final(self)@ == old(self)@,
            final(self).props() == (WorldPropertiesView {
                config: WorldConfigView { ticks, ..old(self).props().config },
                ..old(self).props()
            }),
    {
        proof {
            let p = self.properties@;
            lemma_same_world(
                p,
                WorldPropertiesView { config: WorldConfigView { ticks, ..p.config }, ..p },
                self.state@,
            );
        }
        self.properties.config.ticks = ticks;
    }

    /// Sets the frames per second; `None` waits for a key after each frame.
    pub fn set_fps(&mut self, fps: Option<u32>)
        requires
            old(self).wf(),
        ensures
            final(self).wf(),
            final(self)@ == old(self)@,
            final(self).props() == (WorldPropertiesView {
                config: WorldConfigView { fps, ..old(self).props().config },
                ..old(self).props()
            }),
    {
        proof {
            let p = self.properties@;
            lemma_same_world(
                p,
                WorldPropertiesView { config: WorldConfigView { fps, ..p.config }, ..p },
                self.state@,
            );
        }
        self.properties.config.fps = fps;
    }

    /// Sets the ticks per frame; `None` runs without frames.
    pub fn set_speed(&mut self, speed: Option<u32>)
        requires
            old(self).wf(),
        ensures
            final(self).wf(),
            final(self)@ == old(self)@,
            final(self).props() == (WorldPropertiesView {
                config: WorldConfigView { speed, ..old(self).props().config },
                ..old(self).props()
            }),
    {
        proof {
            let p = self.properties@;
            lemma_same_world(
                p,
                WorldPropertiesView { config: WorldConfigView { speed, ..p.config }, ..p },
                self.state@,
            );
        }
        self.properties.config.speed = speed;
    }

    /// Sets whether the run starts over at its end.
    pub fn set_looping(&mut self, looping: bool)
        requires
            old(self).wf(),
        ensures
            final(self).wf(),
            final(self)@ == old(self)@,
            final(self).props() == (WorldPropertiesView {
                config: WorldConfigView { looping, ..old(self).props().config },
                ..old(self).props()
            }),
    {
        proof {
            let p = self.properties@;
            lemma_same_world(
                p,
                WorldPropertiesView { config: WorldConfigView { looping, ..p.config }, ..p },
                self.state@,
            );
        }
        self.properties.config.looping = looping;
    }
}

/// Settings that differ only in how the run is paced leave the world in
/// order.
pub proof fn lemma_same_world(p: WorldPropertiesView, q: WorldPropertiesView, s: WorldView)
    requires
        world_ok(p, s),
        q.behaviors == p.behaviors,
        q.config.width == p.config.width,
        q.config.height == p.config.height,
        q.config.color_mode == p.config.color_mode,
    ensures
        world_ok(q, s),
{
    assert forall|k: int| 0 <= k < s.ants.len() implies ant_ok(q, s, #[trigger] s.ants[k]) by {
        assert(ant_ok(p, s, s.ants[k]));
    }
    assert forall|x: int, y: int| 0 <= x < s.width && 0 <= y < s.height implies color_ok(
        q.config.color_mode,
        #[trigger] color_at(s, x, y),
    ) by {
        assert(color_ok(p.config.color_mode, color_at(s, x, y)));
    }
}

} // verus!
