//! The engine: places occupants into a layout and improves the placement
//! by local search over pairwise exchanges.
use std::collections::HashMap;
use vstd::prelude::*;
use vstd::math::min;
use crate::assignment::{
    SeatType, Seating, consistent, exchange, exchangeable, improves, local_optimum,
    same_layout, total_of, width, lemma_exchange_consistent, lemma_exchange_undone,
};
use crate::assignment::{occupant, in_bounds, rectangular, set_cell};
use crate::layout::{SeatStructure, rank, rows_slots, seat_count};
use crate::user::{User, user_cost};
use crate::placement::{distinct_ids, initial_cell, lemma_place_filler, lemma_place_fresh};

verus! {

broadcast use vstd::std_specs::hash::group_hash_axioms;

/// A read-only copy of the grid, for reporting.
pub struct ResponseSeat {
    pub result: Vec<Vec<SeatType>>,
}

/// The engine: the grid of slot states, the placed occupants in placement
/// order, and the index from occupant id to coordinate.
pub struct SekigaeEngine {
    pub structure: Vec<Vec<SeatType>>,
    pub users: Vec<User>,
    pub user_pos: HashMap<usize, (usize, usize)>,
}

/// Optimizing never raises the total cost, and optimizing a second time
/// changes nothing: neither the assignment nor the total cost.
pub proof fn lemma_optimize_twice(a: SekigaeEngine, b: SekigaeEngine, c: SekigaeEngine)
    requires
        b.optimized_from(&a),
        c.optimized_from(&b),
    ensures
        b.total_spec() <= a.total_spec(),
        c.seating() == b.seating(),
        c.total_spec() == b.total_spec(),
{
}

/// `k` occurs in `order`.
pub open spec fn listed(order: Seq<usize>, k: int) -> bool {
    exists|t: int| 0 <= t < order.len() && order[t] == k
}

pub open spec fn rows_view<T>(v: Seq<Vec<T>>) -> Seq<Seq<T>> {
    Seq::new(v.len(), |r: int| v[r]@)
}

impl SekigaeEngine {
    /// `self` is the placement that `init` makes of `users` into `mask`:
    /// consistent, with the first `min(N, S)` occupants placed and every
    /// cell as `initial_cell` gives it.
    pub open spec fn initialized_from(&self, mask: Seq<Seq<bool>>, users: Seq<User>) -> bool {
        let g = self.seating().grid;
        &&& self.wf()
        &&& self.users@ == users.take(min(users.len() as int, seat_count(mask)))
        &&& g.len() == mask.len()
        &&& forall|r: int| 0 <= r < mask.len() ==> #[trigger] g[r].len() == mask[r].len()
        &&& forall|r: int, c: int|
            0 <= r < mask.len() && 0 <= c < mask[r].len() ==> #[trigger] g[r][c] == initial_cell(
                mask,
                users,
                r,
                c,
            )
    }

    /// The assignment as values.
    pub open spec fn seating(&self) -> Seating {
        Seating { grid: rows_view(self.structure@), index: self.user_pos@ }
    }

    pub open spec fn wf(&self) -> bool {
        consistent(self.seating(), self.users@)
    }

    /// Current total cost.
    pub open spec fn total_spec(&self) -> int {
        total_of(self.users@, self.user_pos@)
    }

    /// Cost of the `k`-th placed occupant where it sits.
    pub open spec fn cost_of(&self, k: int) -> int {
        let u = self.users@[k];
        user_cost(u, self.user_pos@[u.number], self.user_pos@)
    }

    pub fn new() -> (r: Self)
        ensures
            r.wf(),
            r.structure@.len() == 0,
            r.users@.len() == 0,
            r.user_pos@ == Map::<usize, (usize, usize)>::empty(),
    {
        let r = SekigaeEngine { structure: Vec::new(), users: Vec::new(), user_pos: HashMap::new() };
        assert(rows_view(r.structure@) =~= Seq::<Seq<SeatType>>::empty());
        r
    }

    /// Lays the occupants out row-major into the slots of `structure`, in
    /// list order, padding leftover slots with placeholders and dropping
    /// occupants beyond the seat count. Replaces any earlier assignment.
    pub fn init(&mut self, structure: SeatStructure, users: Vec<User>)
        requires
            rectangular(structure.mask()),
            distinct_ids(users@),
        ensures
            final(self).initialized_from(structure.mask(), users@),
    {
        let ghost mask = structure.mask();
        let ghost all = users@;
        let mut users = users;
        let h = structure.structure.len();
        let w = if h > 0 {
            structure.structure[0].len()
        } else {
            0
        };
        let n = users.len();
        let mut grid: Vec<Vec<SeatType>> = Vec::new();
        let mut i: usize = 0;
        while i < h
            invariant
                i <= h,
                grid@.len() == i,
                forall|r: int, c: int|
                    0 <= r < i && 0 <= c < w ==> #[trigger] grid@[r]@[c] == SeatType::Empty,
                forall|r: int| 0 <= r < i ==> #[trigger] grid@[r]@.len() == w,
            decreases h - i,
        {
            let mut row: Vec<SeatType> = Vec::new();
            let mut j: usize = 0;
            while j < w
                invariant
                    j <= w,
                    row@.len() == j,
                    forall|c: int| 0 <= c < j ==> #[trigger] row@[c] == SeatType::Empty,
                decreases w - j,
            {
                row.push(SeatType::Empty);
                j = j + 1;
            }
            grid.push(row);
            i = i + 1;
        }
        let mut pos: HashMap<usize, (usize, usize)> = HashMap::new();
        let mut counter: usize = 0;
        proof {
            let s = Seating { grid: rows_view(grid@), index: pos@ };
            assert(users@.take(0) =~= Seq::<User>::empty());
            assert forall|r: usize, c: usize|
                in_bounds(s.grid, (r, c)) && (#[trigger] s.grid[r as int][c as int]) is User implies {
                let id = occupant(s.grid[r as int][c as int]);
                s.index.contains_key(id) && s.index[id] == (r, c)
            } by {
                assert(grid@[r as int]@[c as int] == SeatType::Empty);
            }
            assert(consistent(s, users@.take(0)));
        }
        let mut i: usize = 0;
        while i < h
            invariant
                mask == structure.mask(),
                rectangular(mask),
                h == mask.len(),
                h > 0 ==> w == mask[0].len(),
                users@ == all,
                distinct_ids(all),
                n == all.len(),
                i <= h,
                grid@.len() == h,
                forall|r: int| 0 <= r < h ==> #[trigger] grid@[r]@.len() == w,
                counter as int == min(rows_slots(mask, i as int), n as int),
                forall|r: int, c: int|
                    0 <= r < h && 0 <= c < w ==> #[trigger] grid@[r]@[c] == if r < i {
                        initial_cell(mask, all, r, c)
                    } else {
                        SeatType::Empty
                    },
                consistent(Seating { grid: rows_view(grid@), index: pos@ }, all.take(counter as int)),
            decreases h - i,
        {
            assert(mask[i as int].len() == w);
            let mut j: usize = 0;
            while j < w
                invariant
                    mask == structure.mask(),
                    rectangular(mask),
                    h == mask.len(),
                    w == mask[i as int].len(),
                    users@ == all,
                    distinct_ids(all),
                    n == all.len(),
                    i < h,
                    j <= w,
                    grid@.len() == h,
                    forall|r: int| 0 <= r < h ==> #[trigger] grid@[r]@.len() == w,
                    counter as int == min(rank(mask, i as int, j as int), n as int),
                    forall|r: int, c: int|
                        0 <= r < h && 0 <= c < w ==> #[trigger] grid@[r]@[c] == if r < i || (r == i && c < j) {
                            initial_cell(mask, all, r, c)
                        } else {
                            SeatType::Empty
                        },
                    consistent(Seating { grid: rows_view(grid@), index: pos@ }, all.take(counter as int)),
                decreases w - j,
            {
                let ghost g0 = grid@;
                let ghost s = Seating { grid: rows_view(grid@), index: pos@ };
                assert(s.grid[i as int][j as int] == SeatType::Empty);
                assert(structure.structure@[i as int]@[j as int] == mask[i as int][j as int]);
                if structure.structure[i][j] {
                    if counter < n {
                        let uid = users[counter].number;
                        proof {
                            lemma_place_fresh(s, all, counter as int, (i, j));
                        }
                        grid[i][j] = SeatType::User(uid);
                        pos.insert(uid, (i, j));
                        counter = counter + 1;
                        proof {
                            assert(rows_view(grid@) =~~= set_cell(s.grid, (i, j), SeatType::User(uid)));
                        }
                    } else {
                        proof {
                            lemma_place_filler(s, all.take(counter as int), (i, j));
                        }
                        grid[i][j] = SeatType::Filled;
                        proof {
                            assert(rows_view(grid@) =~~= set_cell(s.grid, (i, j), SeatType::Filled));
                        }
                    }
                }
                proof {
                    assert(forall|r: int| 0 <= r < h && r != i ==> grid@[r] == g0[r]);
                    assert(forall|c: int| 0 <= c < w && c != j ==> grid@[i as int]@[c] == g0[i as int]@[c]);
                }
                j = j + 1;
            }
            proof {
                assert(rank(mask, i as int, w as int) == rows_slots(mask, i + 1));
            }
            i = i + 1;
        }
        proof {
            assert(seat_count(mask) == rows_slots(mask, h as int));
        }
        users.truncate(counter);
        self.structure = grid;
        self.users = users;
        self.user_pos = pos;
        proof {
            assert forall|r: int, c: int|
                0 <= r < mask.len() && 0 <= c < mask[r].len() implies #[trigger] rows_view(self.structure@)[r][c]
                    == initial_cell(mask, all, r, c) by {
                assert(mask[r].len() == w);
                assert(self.structure@[r]@[c] == initial_cell(mask, all, r, c));
            }
            assert(h > 0 ==> w == mask[0].len());
            assert(self.initialized_from(mask, all));
        }
    }

    /// A copy of the grid of slot states.
    pub fn return_structure(&self) -> (r: ResponseSeat)
        ensures
            rows_view(r.result@) == rows_view(self.structure@),
    {
        let mut result: Vec<Vec<SeatType>> = Vec::new();
        let mut i: usize = 0;
        while i < self.structure.len()
            invariant
                i <= self.structure@.len(),
                rows_view(result@) == rows_view(self.structure@).take(i as int),
            decreases self.structure@.len() - i,
        {
            let row = &self.structure[i];
            let mut copy: Vec<SeatType> = Vec::new();
            let mut j: usize = 0;
            while j < row.len()
                invariant
                    i < self.structure@.len(),
                    row@ == self.structure@[i as int]@,
                    rows_view(result@) == rows_view(self.structure@).take(i as int),
                    j <= row@.len(),
                    copy@ == row@.take(j as int),
                decreases row@.len() - j,
            {
                copy.push(row[j]);
                j = j + 1;
                assert(copy@ =~= row@.take(j as int));
            }
            assert(copy@ =~= row@);
            let ghost prev = result@;
            result.push(copy);
            proof {
                assert(rows_view(prev).len() == i);
                assert(prev.len() == i);
                assert(result@ == prev.push(copy));
                assert(rows_view(result@).len() == i + 1);
                assert forall|t: int| 0 <= t < i + 1 implies rows_view(result@)[t] == rows_view(self.structure@)[t] by {
                    if t < i {
                        assert(rows_view(prev)[t] == rows_view(self.structure@).take(i as int)[t]);
                    }
                }
            }
            i = i + 1;
            assert(rows_view(result@) =~= rows_view(self.structure@).take(i as int));
        }
        assert(rows_view(self.structure@).take(i as int) =~= rows_view(self.structure@));
        ResponseSeat { result }
    }

    /// Moves the occupant at `(r1, c1)` to `(r2, c2)` and whatever was there
    /// to `(r1, c1)`, updating grid and index together.
    pub fn exchange(&mut self, r1: usize, c1: usize, r2: usize, c2: usize)
        requires
            old(self).wf(),
            exchangeable(old(self).seating(), (r1, c1), (r2, c2)),
        ensures
            final(self).wf(),
            final(self).users == old(self).users,
            final(self).seating() == exchange(old(self).seating(), (r1, c1), (r2, c2)),
    {
        proof {
            lemma_exchange_consistent(self.seating(), self.users@, (r1, c1), (r2, c2));
        }
        let ghost s0 = self.seating();
        let u1 = match self.structure[r1][c1] {
            SeatType::User(u) => u,
            _ => 0,
        };
        let other = self.structure[r2][c2];
        self.structure[r1][c1] = other;
        self.structure[r2][c2] = SeatType::User(u1);
        self.user_pos.insert(u1, (r2, c2));
        match other {
            SeatType::User(u2) => {
                self.user_pos.insert(u2, (r1, c1));
            },
            _ => {},
        }
        proof {
            let t = exchange(s0, (r1, c1), (r2, c2));
            assert(rows_view(self.structure@) =~~= t.grid);
            assert(self.user_pos@ =~= t.index);
        }
    }

    /// Total cost of the current placement.
    pub fn total_cost(&self) -> (r: u64)
        requires
            self.wf(),
        ensures
            r as int == self.total_spec(),
    {
        let n = self.users.len();
        let mut sum: u64 = 0;
        let mut k: usize = 0;
        while k < n
            invariant
                self.wf(),
                n == self.users@.len(),
                k <= n,
                sum as int == total_of(self.users@.take(k as int), self.user_pos@),
            decreases n - k,
        {
            proof {
                assert(self.users@.take(k + 1).drop_last() =~= self.users@.take(k as int));
            }
            let c = self.user_cost_at(k);
            sum = sum.saturating_add(c);
            k = k + 1;
        }
        proof {
            assert(self.users@.take(n as int) =~= self.users@);
        }
        sum
    }

    /// Cost of the `k`-th placed occupant where it sits.
    fn user_cost_at(&self, k: usize) -> (r: u64)
        requires
            self.wf(),
            k < self.users@.len(),
        ensures
            r as int == self.cost_of(k as int),
    {
        let u = &self.users[k];
        assert(self.user_pos@.contains_key(u.number));
        let pos = match self.user_pos.get(&u.number) {
            Some(p) => *p,
            None => (0, 0),
        };
        u.cost_calc(&pos, &self.user_pos)
    }

    /// Indices of the placed occupants, worst-off first; equal costs keep
    /// placement order.
    fn cost_order(&self) -> (order: Vec<usize>)
        requires
            self.wf(),
        ensures
            order@.len() == self.users@.len(),
            forall|t: int| 0 <= t < order@.len() ==> #[trigger] order@[t] < self.users@.len(),
            forall|k: int| 0 <= k < self.users@.len() ==> #[trigger] listed(order@, k),
            forall|a: int, b: int|
                0 <= a < b < order@.len() ==> self.cost_of(#[trigger] order@[a] as int) >= self.cost_of(
                    #[trigger] order@[b] as int,
                ),
    {
        let n = self.users.len();
        let mut costs: Vec<u64> = Vec::new();
        let mut k: usize = 0;
        while k < n
            invariant
                self.wf(),
                n == self.users@.len(),
                k <= n,
                costs@.len() == k,
                forall|j: int| 0 <= j < k ==> costs@[j] as int == self.cost_of(j),
            decreases n - k,
        {
            let c = self.user_cost_at(k);
            costs.push(c);
            k = k + 1;
        }
        let mut order: Vec<usize> = Vec::new();
        let mut k: usize = 0;
        while k < n
            invariant
                n == self.users@.len(),
                k <= n,
                costs@.len() == n,
                forall|j: int| 0 <= j < n ==> costs@[j] as int == self.cost_of(j),
                order@.len() == k,
                forall|t: int| 0 <= t < order@.len() ==> #[trigger] order@[t] < k,
                forall|j: int| 0 <= j < k ==> #[trigger] listed(order@, j),
                forall|a: int, b: int|
                    0 <= a < b < order@.len() ==> costs@[#[trigger] order@[a] as int] >= costs@[#[trigger] order@[b] as int],
            decreases n - k,
        {
            let ck = costs[k];
            let mut pos: usize = 0;
            while pos < order.len() && costs[order[pos]] >= ck
                invariant
                    pos <= order@.len(),
                    costs@.len() == n,
                    forall|t: int| 0 <= t < order@.len() ==> #[trigger] order@[t] < k,
                    k < n,
                    forall|t: int| 0 <= t < pos ==> costs@[#[trigger] order@[t] as int] >= ck,
                decreases order@.len() - pos,
            {
                pos = pos + 1;
            }
            let ghost old_order = order@;
            order.insert(pos, k);
            proof {
                assert(order@ == old_order.insert(pos as int, k));
                assert forall|j: int| 0 <= j < k + 1 implies #[trigger] listed(order@, j) by {
                    if j == k {
                        assert(order@[pos as int] == j);
                    } else {
                        assert(listed(old_order, j));
                        let t0 = choose|t: int| 0 <= t < old_order.len() && old_order[t] == j;
                        if t0 < pos {
                            assert(order@[t0] == j);
                        } else {
                            assert(order@[t0 + 1] == j);
                        }
                    }
                }
                assert forall|a: int, b: int| 0 <= a < b < order@.len() implies costs@[#[trigger] order@[a] as int]
                    >= costs@[#[trigger] order@[b] as int] by {
                    if pos < old_order.len() {
                        assert(costs@[old_order[pos as int] as int] < ck);
                    }
                    if a < pos && b == pos {
                        assert(costs@[old_order[a] as int] >= ck);
                    } else if a == pos && b > pos {
                        assert(costs@[old_order[b - 1] as int] <= costs@[old_order[pos as int] as int]) by {
                            if b - 1 > pos {
                            }
                        }
                    } else if a < pos && b > pos {
                        assert(costs@[old_order[a] as int] >= costs@[old_order[b - 1] as int]);
                    } else if a > pos {
                        assert(costs@[old_order[a - 1] as int] >= costs@[old_order[b - 1] as int]);
                    }
                }
            }
            k = k + 1;
        }
        order
    }
}


impl SekigaeEngine {
    /// `self` is what optimizing `before` may leave: the same occupants and
    /// layout, a total cost no higher, no improving exchange left, and
    /// nothing changed where `before` had none.
    pub open spec fn optimized_from(&self, before: &Self) -> bool {
        &&& self.wf()
        &&& self.users@ == before.users@
        &&& same_layout(before.seating().grid, self.seating().grid)
        &&& self.total_spec() <= before.total_spec()
        &&& local_optimum(self.users@, self.seating())
        &&& local_optimum(before.users@, before.seating()) ==> self.seating() == before.seating()
    }

    /// Hill climbing over pairwise exchanges: each pass orders the occupants
    /// worst-off first, commits the first exchange that strictly lowers the
    /// total cost and starts over, until a pass finds none.
    pub fn optimize(&mut self)
        requires
            old(self).wf(),
        ensures
            final(self).optimized_from(old(self)),
    {
        let ghost start = *self;
        let mut best = self.total_cost();
        loop
            invariant
                self.wf(),
                self.users@ == start.users@,
                same_layout(start.seating().grid, self.seating().grid),
                best as int == self.total_spec(),
                self.total_spec() <= start.total_spec(),
                local_optimum(start.users@, start.seating()) ==> self.seating() == start.seating(),
            ensures
                self.optimized_from(&start),
            decreases best,
        {
            let ghost before = *self;
            let improved = self.improve_once(best);
            if !improved {
                break;
            }
            proof {
                let g0 = start.seating().grid;
                let g1 = before.seating().grid;
                let g2 = self.seating().grid;
                assert forall|r: int, c: int| 0 <= r < g0.len() && 0 <= c < g0[r].len() implies (
                #[trigger] g0[r][c] == SeatType::Empty <==> #[trigger] g2[r][c] == SeatType::Empty) by {
                    assert(g1[r].len() == g0[r].len());
                    assert(g0[r][c] == SeatType::Empty <==> g1[r][c] == SeatType::Empty);
                }
            }
            best = self.total_cost();
        }
    }

    /// One pass of the optimizer. Commits the first improving exchange found
    /// and says so; otherwise leaves everything as it was.
    fn improve_once(&mut self, best: u64) -> (improved: bool)
        requires
            old(self).wf(),
            best as int == old(self).total_spec(),
        ensures
            final(self).wf(),
            final(self).users@ == old(self).users@,
            same_layout(old(self).seating().grid, final(self).seating().grid),
            improved ==> final(self).total_spec() < best,
            improved ==> !local_optimum(old(self).users@, old(self).seating()),
            !improved ==> final(self).seating() == old(self).seating(),
            !improved ==> local_optimum(old(self).users@, old(self).seating()),
    {
        let ghost s0 = self.seating();
        let ghost users = self.users@;
        let h = self.structure.len();
        let w = if h > 0 {
            self.structure[0].len()
        } else {
            0
        };
        assert(w == width(s0.grid));
        let order = self.cost_order();
        let n = order.len();
        let mut t: usize = 0;
        while t < n
            invariant
                self.wf(),
                self.users@ == users,
                self.seating() == s0,
                users == old(self).users@,
                s0 == old(self).seating(),
                best as int == total_of(users, s0.index),
                h == s0.grid.len(),
                w == width(s0.grid),
                n == order@.len(),
                n == users.len(),
                t <= n,
                forall|t2: int| 0 <= t2 < n ==> #[trigger] order@[t2] < n,
                forall|t2: int, r: usize, c: usize|
                    0 <= t2 < t ==> !#[trigger] improves(users, s0, s0.index[users[order@[t2] as int].number], (r, c)),
            decreases n - t,
        {
            let k = order[t];
            let uid1 = self.users[k].number;
            assert(self.user_pos@.contains_key(uid1));
            let (i1, j1) = match self.user_pos.get(&uid1) {
                Some(p) => *p,
                None => (0, 0),
            };
            let ghost p1 = (i1, j1);
            assert(p1 == s0.index[users[k as int].number]);
            let mut i2: usize = 0;
            while i2 < h
                invariant
                    self.wf(),
                    self.users@ == users,
                    self.seating() == s0,
                    users == old(self).users@,
                    s0 == old(self).seating(),
                    best as int == total_of(users, s0.index),
                    h == s0.grid.len(),
                    w == width(s0.grid),
                    p1 == (i1, j1),
                    k < n,
                    n == users.len(),
                    uid1 == users[k as int].number,
                    s0.index.contains_key(uid1),
                    p1 == s0.index[uid1],
                    i2 <= h,
                    forall|r: usize, c: usize| r < i2 ==> !#[trigger] improves(users, s0, p1, (r, c)),
                decreases h - i2,
            {
                let mut j2: usize = 0;
                while j2 < w
                    invariant
                        self.wf(),
                        self.users@ == users,
                        self.seating() == s0,
                        users == old(self).users@,
                        s0 == old(self).seating(),
                        best as int == total_of(users, s0.index),
                        h == s0.grid.len(),
                        w == width(s0.grid),
                        i2 < h,
                        p1 == (i1, j1),
                        k < n,
                        n == users.len(),
                        uid1 == users[k as int].number,
                        s0.index.contains_key(uid1),
                        p1 == s0.index[uid1],
                        j2 <= w,
                        forall|r: usize, c: usize| r < i2 ==> !#[trigger] improves(users, s0, p1, (r, c)),
                        forall|c: usize| c < j2 ==> !#[trigger] improves(users, s0, p1, (i2, c)),
                    decreases w - j2,
                {
                    assert(s0.grid[i2 as int].len() == w);
                    if !(i1 == i2 && j1 == j2) {
                        match self.structure[i2][j2] {
                            SeatType::Empty => {},
                            _ => {
                                proof {
                                    lemma_exchange_consistent(s0, users, p1, (i2, j2));
                                    lemma_exchange_undone(s0, users, p1, (i2, j2));
                                }
                                self.exchange(i1, j1, i2, j2);
                                let cost = self.total_cost();
                                if cost < best {
                                    assert(improves(users, s0, s0.index[users[k as int].number], (i2, j2)));
                                    assert(self.users@ == users);
                                    return true;
                                }
                                self.exchange(i2, j2, i1, j1);
                            },
                        }
                    }
                    j2 = j2 + 1;
                }
                assert forall|r: usize, c: usize| r < i2 + 1 implies !#[trigger] improves(users, s0, p1, (r, c)) by {
                    if r == i2 && c >= w {
                        assert(s0.grid[i2 as int].len() == w);
                    }
                }
                i2 = i2 + 1;
            }
            assert forall|t2: int, r: usize, c: usize| 0 <= t2 < t + 1 implies !#[trigger] improves(
                users,
                s0,
                s0.index[users[order@[t2] as int].number],
                (r, c),
            ) by {
                if t2 == t {
                    assert(!improves(users, s0, p1, (r, c)));
                }
            }
            t = t + 1;
        }
        assert forall|k: int, r: usize, c: usize| 0 <= k < users.len() implies !#[trigger] improves(
            users,
            s0,
            s0.index[users[k].number],
            (r, c),
        ) by {
            assert(listed(order@, k));
            let t2 = choose|t2: int| 0 <= t2 < order@.len() && order@[t2] == k;
            assert(!improves(users, s0, s0.index[users[order@[t2] as int].number], (r, c)));
        }
        false
    }
}

} // verus!
