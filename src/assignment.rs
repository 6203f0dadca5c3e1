//! Mathematical model of an assignment: the grid of slot states together
//! with the index from occupant id to coordinate, the exchange of two cells,
//! and the total cost of a placement.
use vstd::prelude::*;
use vstd::math::min;
use crate::user::{User, user_cost, cap};

verus! {

/// State of one grid cell.
#[derive(Clone, Copy, Debug, PartialEq, Eq, Structural)]
pub enum SeatType {
    /// Not a physical slot.
    Empty,
    /// A slot holding the occupant with this id.
    User(usize),
    /// A slot with no occupant (the supply of occupants fell short).
    Filled,
}

/// An assignment as values: the grid and the position index.
pub struct Seating {
    pub grid: Seq<Seq<SeatType>>,
    pub index: Map<usize, (usize, usize)>,
}

pub open spec fn width<T>(g: Seq<Seq<T>>) -> int {
    if g.len() == 0 {
        0
    } else {
        g[0].len() as int
    }
}

/// All rows have the same length.
pub open spec fn rectangular<T>(g: Seq<Seq<T>>) -> bool {
    forall|r: int| 0 <= r < g.len() ==> #[trigger] g[r].len() == width(g)
}

pub open spec fn in_bounds<T>(g: Seq<Seq<T>>, p: (usize, usize)) -> bool {
    p.0 < g.len() && p.1 < g[p.0 as int].len()
}

pub open spec fn cell(s: Seating, p: (usize, usize)) -> SeatType {
    s.grid[p.0 as int][p.1 as int]
}

pub open spec fn set_cell(g: Seq<Seq<SeatType>>, p: (usize, usize), v: SeatType) -> Seq<Seq<SeatType>> {
    g.update(p.0 as int, g[p.0 as int].update(p.1 as int, v))
}

/// The id held by an occupied cell.
pub open spec fn occupant(t: SeatType) -> usize {
    match t {
        SeatType::User(id) => id,
        _ => 0,
    }
}

/// `id` belongs to one of the placed occupants.
pub open spec fn is_placed(users: Seq<User>, id: usize) -> bool {
    exists|k: int| 0 <= k < users.len() && users[k].number == id
}

/// Grid and index agree: every placed occupant sits in exactly the cell
/// that the index gives for it, every occupied cell is indexed, and ids are
/// unique.
pub open spec fn consistent(s: Seating, users: Seq<User>) -> bool {
    &&& rectangular(s.grid)
    &&& forall|a: int, b: int|
        0 <= a < users.len() && 0 <= b < users.len() && a != b ==> #[trigger] users[a].number
            != #[trigger] users[b].number
    &&& forall|k: int|
        0 <= k < users.len() ==> {
            let id = #[trigger] users[k].number;
            &&& s.index.contains_key(id)
            &&& in_bounds(s.grid, s.index[id])
            &&& cell(s, s.index[id]) == SeatType::User(id)
        }
    &&& forall|id: usize| #[trigger] s.index.contains_key(id) ==> is_placed(users, id)
    &&& forall|r: usize, c: usize|
        in_bounds(s.grid, (r, c)) && (#[trigger] s.grid[r as int][c as int]) is User ==> {
            let id = occupant(s.grid[r as int][c as int]);
            s.index.contains_key(id) && s.index[id] == (r, c)
        }
}

/// An exchange from `p1` to `p2` is a move the optimizer may try: `p1` holds
/// an occupant and `p2` is another slot, occupied or not.
pub open spec fn exchangeable(s: Seating, p1: (usize, usize), p2: (usize, usize)) -> bool {
    &&& in_bounds(s.grid, p1)
    &&& in_bounds(s.grid, p2)
    &&& p1 != p2
    &&& cell(s, p1) is User
    &&& cell(s, p2) != SeatType::Empty
}

/// The occupant at `p1` moves to `p2`; whatever `p2` held (an occupant or a
/// placeholder) moves to `p1`. Grid and index change together.
pub open spec fn exchange(s: Seating, p1: (usize, usize), p2: (usize, usize)) -> Seating {
    let u1 = occupant(cell(s, p1));
    let other = cell(s, p2);
    let grid = set_cell(set_cell(s.grid, p1, other), p2, SeatType::User(u1));
    let index = s.index.insert(u1, p2);
    Seating {
        grid,
        index: match other {
            SeatType::User(u2) => index.insert(u2, p1),
            _ => index,
        },
    }
}

/// Same grid dimensions and the same physical slots.
pub open spec fn same_layout(g1: Seq<Seq<SeatType>>, g2: Seq<Seq<SeatType>>) -> bool {
    &&& g1.len() == g2.len()
    &&& forall|r: int| 0 <= r < g1.len() ==> #[trigger] g1[r].len() == g2[r].len()
    &&& forall|r: int, c: int|
        0 <= r < g1.len() && 0 <= c < g1[r].len() ==> (#[trigger] g1[r][c] == SeatType::Empty
            <==> #[trigger] g2[r][c] == SeatType::Empty)
}

/// Sum of the occupants' costs, unsaturated.
pub open spec fn costs_sum(users: Seq<User>, index: Map<usize, (usize, usize)>) -> int
    decreases users.len(),
{
    if users.len() == 0 {
        0
    } else {
        let u = users.last();
        costs_sum(users.drop_last(), index) + user_cost(u, index[u.number], index)
    }
}

/// Total cost of a placement, saturated at `cap()`.
pub open spec fn total_of(users: Seq<User>, index: Map<usize, (usize, usize)>) -> int {
    min(costs_sum(users, index), cap())
}

/// Trying the exchange from `p1` to `p2` strictly lowers the total cost.
pub open spec fn improves(users: Seq<User>, s: Seating, p1: (usize, usize), p2: (usize, usize)) -> bool {
    exchangeable(s, p1, p2) && total_of(users, exchange(s, p1, p2).index) < total_of(users, s.index)
}

/// No exchange from the cell of any placed occupant lowers the total cost.
pub open spec fn local_optimum(users: Seq<User>, s: Seating) -> bool {
    forall|k: int, r: usize, c: usize|
        0 <= k < users.len() ==> !#[trigger] improves(users, s, s.index[users[k].number], (r, c))
}

/// An exchange keeps grid and index consistent and keeps the layout.
pub proof fn lemma_exchange_consistent(s: Seating, users: Seq<User>, p1: (usize, usize), p2: (usize, usize))
    requires
        consistent(s, users),
        exchangeable(s, p1, p2),
    ensures
        consistent(exchange(s, p1, p2), users),
        same_layout(s.grid, exchange(s, p1, p2).grid),
{
    let t = exchange(s, p1, p2);
    let u1 = occupant(cell(s, p1));
    let other = cell(s, p2);
    assert(s.index.contains_key(u1) && s.index[u1] == p1);
    if other is User {
        let u2 = occupant(other);
        assert(s.index.contains_key(u2) && s.index[u2] == p2);
    }
    assert forall|r: int| 0 <= r < t.grid.len() implies #[trigger] t.grid[r].len() == width(t.grid) by {
        assert(s.grid[r].len() == width(s.grid));
    }
    assert forall|k: int| 0 <= k < users.len() implies {
        let id = #[trigger] users[k].number;
        &&& t.index.contains_key(id)
        &&& in_bounds(t.grid, t.index[id])
        &&& cell(t, t.index[id]) == SeatType::User(id)
    } by {
        let id = users[k].number;
        let q = s.index[id];
        assert(cell(s, q) == SeatType::User(id));
    }
    assert forall|id: usize| #[trigger] t.index.contains_key(id) implies is_placed(users, id) by {
        assert(s.index.contains_key(id));
    }
    assert forall|r: usize, c: usize|
        in_bounds(t.grid, (r, c)) && (#[trigger] t.grid[r as int][c as int]) is User implies {
        let id = occupant(t.grid[r as int][c as int]);
        t.index.contains_key(id) && t.index[id] == (r, c)
    } by {
        if (r, c) != p1 && (r, c) != p2 {
            assert(t.grid[r as int][c as int] == s.grid[r as int][c as int]);
        }
    }
}

/// Exchanging from `p1` to `p2` and then back from `p2` to `p1` restores the
/// grid and the index exactly.
pub proof fn lemma_exchange_undone(s: Seating, users: Seq<User>, p1: (usize, usize), p2: (usize, usize))
    requires
        consistent(s, users),
        exchangeable(s, p1, p2),
    ensures
        exchangeable(exchange(s, p1, p2), p2, p1),
        exchange(exchange(s, p1, p2), p2, p1) == s,
{
    let t = exchange(s, p1, p2);
    let b = exchange(t, p2, p1);
    let u1 = occupant(cell(s, p1));
    assert(s.index.contains_key(u1) && s.index[u1] == p1);
    if cell(s, p2) is User {
        let u2 = occupant(cell(s, p2));
        assert(s.index.contains_key(u2) && s.index[u2] == p2);
    }
    assert(b.grid =~~= s.grid);
    assert(b.index =~= s.index);
}

/// Swapping two occupied cells twice restores the grid and the index exactly.
pub proof fn lemma_swap_twice(s: Seating, users: Seq<User>, p1: (usize, usize), p2: (usize, usize))
    requires
        consistent(s, users),
        exchangeable(s, p1, p2),
        cell(s, p2) is User,
    ensures
        exchangeable(exchange(s, p1, p2), p1, p2),
        exchange(exchange(s, p1, p2), p1, p2) == s,
{
    let t = exchange(s, p1, p2);
    let b = exchange(t, p1, p2);
    let u1 = occupant(cell(s, p1));
    let u2 = occupant(cell(s, p2));
    assert(s.index.contains_key(u1) && s.index[u1] == p1);
    assert(s.index.contains_key(u2) && s.index[u2] == p2);
    assert(b.grid =~~= s.grid);
    assert(b.index =~= s.index);
}

} // verus!
