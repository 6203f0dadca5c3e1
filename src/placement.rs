//! The initial placement: which cell each occupant gets, why grid and
//! index stay consistent while it is built, and how many cells end up
//! occupied or padded.
use vstd::prelude::*;
use vstd::math::min;
use crate::assignment::{
    SeatType, Seating, cell, consistent, in_bounds, is_placed, occupant, rectangular, set_cell, width,
};
use crate::layout::{rank, rows_slots, seat_count};
use crate::seat::SekigaeEngine;
use crate::user::User;

verus! {

/// Occupant ids are pairwise distinct.
pub open spec fn distinct_ids(users: Seq<User>) -> bool {
    forall|a: int, b: int|
        0 <= a < users.len() && 0 <= b < users.len() && a != b ==> #[trigger] users[a].number
            != #[trigger] users[b].number
}

/// What the initial placement puts in cell `(r, c)`: nothing if it is no
/// slot; else the occupant whose position in the list is the slot's
/// row-major rank, or a placeholder once the list is used up.
pub open spec fn initial_cell(mask: Seq<Seq<bool>>, users: Seq<User>, r: int, c: int) -> SeatType {
    if !mask[r][c] {
        SeatType::Empty
    } else if rank(mask, r, c) < users.len() {
        SeatType::User(users[rank(mask, r, c)].number)
    } else {
        SeatType::Filled
    }
}

/// Putting a new occupant into an empty cell keeps grid and index consistent.
pub proof fn lemma_place_fresh(s: Seating, users: Seq<User>, m: int, p: (usize, usize))
    requires
        consistent(s, users.take(m)),
        distinct_ids(users),
        0 <= m < users.len(),
        in_bounds(s.grid, p),
        cell(s, p) == SeatType::Empty,
    ensures
        consistent(
            Seating {
                grid: set_cell(s.grid, p, SeatType::User(users[m].number)),
                index: s.index.insert(users[m].number, p),
            },
            users.take(m + 1),
        ),
{
    let uid = users[m].number;
    let t = Seating { grid: set_cell(s.grid, p, SeatType::User(uid)), index: s.index.insert(uid, p) };
    let pre = users.take(m);
    let post = users.take(m + 1);
    assert(!s.index.contains_key(uid)) by {
        if s.index.contains_key(uid) {
            assert(is_placed(pre, uid));
            let k = choose|k: int| 0 <= k < pre.len() && pre[k].number == uid;
            assert(users[k].number == users[m].number);
        }
    }
    assert forall|r: int| 0 <= r < t.grid.len() implies #[trigger] t.grid[r].len() == width(t.grid) by {
        assert(s.grid[r].len() == width(s.grid));
    }
    assert forall|k: int| 0 <= k < post.len() implies {
        let id = #[trigger] post[k].number;
        &&& t.index.contains_key(id)
        &&& in_bounds(t.grid, t.index[id])
        &&& cell(t, t.index[id]) == SeatType::User(id)
    } by {
        if k < m {
            assert(pre[k] == post[k]);
            let q = s.index[post[k].number];
            assert(cell(s, q) == SeatType::User(post[k].number));
            assert(q != p);
        }
    }
    assert forall|id: usize| #[trigger] t.index.contains_key(id) implies is_placed(post, id) by {
        if id == uid {
            assert(post[m].number == uid);
        } else {
            assert(is_placed(pre, id));
            let k = choose|k: int| 0 <= k < pre.len() && pre[k].number == id;
            assert(post[k].number == id);
        }
    }
    assert forall|r: usize, c: usize|
        in_bounds(t.grid, (r, c)) && (#[trigger] t.grid[r as int][c as int]) is User implies {
        let id = occupant(t.grid[r as int][c as int]);
        t.index.contains_key(id) && t.index[id] == (r, c)
    } by {
        if (r, c) != p {
            assert(t.grid[r as int][c as int] == s.grid[r as int][c as int]);
            let id = occupant(s.grid[r as int][c as int]);
            assert(id != uid);
        }
    }
}

/// Marking an empty cell as a placeholder keeps grid and index consistent.
pub proof fn lemma_place_filler(s: Seating, users: Seq<User>, p: (usize, usize))
    requires
        consistent(s, users),
        in_bounds(s.grid, p),
        cell(s, p) == SeatType::Empty,
    ensures
        consistent(Seating { grid: set_cell(s.grid, p, SeatType::Filled), index: s.index }, users),
{
    let t = Seating { grid: set_cell(s.grid, p, SeatType::Filled), index: s.index };
    assert forall|r: int| 0 <= r < t.grid.len() implies #[trigger] t.grid[r].len() == width(t.grid) by {
        assert(s.grid[r].len() == width(s.grid));
    }
    assert forall|k: int| 0 <= k < users.len() implies {
        let id = #[trigger] users[k].number;
        &&& t.index.contains_key(id)
        &&& in_bounds(t.grid, t.index[id])
        &&& cell(t, t.index[id]) == SeatType::User(id)
    } by {
        let q = s.index[users[k].number];
        assert(cell(s, q) == SeatType::User(users[k].number));
    }
    assert forall|r: usize, c: usize|
        in_bounds(t.grid, (r, c)) && (#[trigger] t.grid[r as int][c as int]) is User implies {
        let id = occupant(t.grid[r as int][c as int]);
        t.index.contains_key(id) && t.index[id] == (r, c)
    } by {
        assert(t.grid[r as int][c as int] == s.grid[r as int][c as int]);
    }
}

/// Number of cells among the first `c` of `row` that satisfy `f`.
pub open spec fn row_count(row: Seq<SeatType>, c: int, f: spec_fn(SeatType) -> bool) -> int
    decreases c,
{
    if c <= 0 {
        0
    } else {
        row_count(row, c - 1, f) + if f(row[c - 1]) {
            1int
        } else {
            0
        }
    }
}

/// Number of cells in the first `r` rows of `g` that satisfy `f`.
pub open spec fn grid_count(g: Seq<Seq<SeatType>>, r: int, f: spec_fn(SeatType) -> bool) -> int
    decreases r,
{
    if r <= 0 {
        0
    } else {
        grid_count(g, r - 1, f) + row_count(g[r - 1], g[r - 1].len() as int, f)
    }
}

/// Number of cells of `g` that satisfy `f`.
pub open spec fn count_cells(g: Seq<Seq<SeatType>>, f: spec_fn(SeatType) -> bool) -> int {
    grid_count(g, g.len() as int, f)
}

pub open spec fn holds_user() -> spec_fn(SeatType) -> bool {
    |t: SeatType| t is User
}

pub open spec fn holds_filler() -> spec_fn(SeatType) -> bool {
    |t: SeatType| t == SeatType::Filled
}

proof fn lemma_initial_row_counts(
    g: Seq<Seq<SeatType>>,
    mask: Seq<Seq<bool>>,
    users: Seq<User>,
    i: int,
    c: int,
)
    requires
        0 <= i < mask.len(),
        g.len() == mask.len(),
        g[i].len() == mask[i].len(),
        0 <= c <= mask[i].len(),
        forall|cc: int| 0 <= cc < mask[i].len() ==> #[trigger] g[i][cc] == initial_cell(mask, users, i, cc),
    ensures
        ({
            let n = users.len() as int;
            let a = rank(mask, i, 0);
            let b = rank(mask, i, c);
            &&& row_count(g[i], c, holds_user()) == min(b, n) - min(a, n)
            &&& row_count(g[i], c, holds_filler()) == (b - min(b, n)) - (a - min(a, n))
        }),
    decreases c,
{
    if c > 0 {
        lemma_initial_row_counts(g, mask, users, i, c - 1);
        assert(g[i][c - 1] == initial_cell(mask, users, i, c - 1));
    }
}

proof fn lemma_initial_grid_counts(g: Seq<Seq<SeatType>>, mask: Seq<Seq<bool>>, users: Seq<User>, r: int)
    requires
        0 <= r <= mask.len(),
        g.len() == mask.len(),
        forall|i: int| 0 <= i < mask.len() ==> #[trigger] g[i].len() == mask[i].len(),
        forall|i: int, c: int|
            0 <= i < mask.len() && 0 <= c < mask[i].len() ==> #[trigger] g[i][c] == initial_cell(mask, users, i, c),
    ensures
        ({
            let n = users.len() as int;
            let a = rows_slots(mask, r);
            &&& grid_count(g, r, holds_user()) == min(a, n)
            &&& grid_count(g, r, holds_filler()) == a - min(a, n)
        }),
    decreases r,
{
    if r > 0 {
        lemma_initial_grid_counts(g, mask, users, r - 1);
        let i = r - 1;
        assert forall|cc: int| 0 <= cc < mask[i].len() implies #[trigger] g[i][cc] == initial_cell(mask, users, i, cc) by {
        }
        lemma_initial_row_counts(g, mask, users, i, mask[i].len() as int);
        assert(rank(mask, i, mask[i].len() as int) == rows_slots(mask, r));
    }
}

/// With no more occupants than slots, `init` seats every occupant in exactly
/// one cell, so that exactly `N` cells hold occupants and exactly `S - N`
/// hold placeholders, and every other cell is no slot.
pub proof fn lemma_init_placement(e: SekigaeEngine, mask: Seq<Seq<bool>>, users: Seq<User>)
    requires
        rectangular(mask),
        users.len() <= seat_count(mask),
        e.initialized_from(mask, users),
    ensures
        e.users@ == users,
        count_cells(e.seating().grid, holds_user()) == users.len(),
        count_cells(e.seating().grid, holds_filler()) == seat_count(mask) - users.len(),
        forall|r: int, c: int|
            0 <= r < mask.len() && 0 <= c < mask[r].len() ==> (#[trigger] e.seating().grid[r][c]
                == SeatType::Empty <==> !mask[r][c]),
        forall|k: int|
            0 <= k < users.len() ==> {
                let id = #[trigger] users[k].number;
                &&& e.user_pos@.contains_key(id)
                &&& cell(e.seating(), e.user_pos@[id]) == SeatType::User(id)
                &&& forall|r: usize, c: usize|
                    in_bounds(e.seating().grid, (r, c)) && e.seating().grid[r as int][c as int]
                        == SeatType::User(id) ==> (r, c) == e.user_pos@[id]
            },
{
    let g = e.seating().grid;
    assert(users.take(users.len() as int) =~= users);
    lemma_initial_grid_counts(g, mask, users, mask.len() as int);
    assert forall|r: int, c: int| 0 <= r < mask.len() && 0 <= c < mask[r].len() implies (
    #[trigger] g[r][c] == SeatType::Empty <==> !mask[r][c]) by {
        assert(g[r][c] == initial_cell(mask, users, r, c));
    }
    assert forall|k: int| 0 <= k < users.len() implies {
        let id = #[trigger] users[k].number;
        &&& e.user_pos@.contains_key(id)
        &&& cell(e.seating(), e.user_pos@[id]) == SeatType::User(id)
        &&& forall|r: usize, c: usize|
            in_bounds(g, (r, c)) && g[r as int][c as int] == SeatType::User(id) ==> (r, c) == e.user_pos@[id]
    } by {
        let id = users[k].number;
        assert(e.users@[k].number == id);
        assert forall|r: usize, c: usize|
            in_bounds(g, (r, c)) && g[r as int][c as int] == SeatType::User(id) implies (r, c) == e.user_pos@[id] by {
            assert(g[r as int][c as int] is User);
        }
    }
}

} // verus!
