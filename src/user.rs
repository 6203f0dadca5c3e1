//! Occupants, their preference groups, and the cost of a placement.
//!
//! Weights are integer multipliers on distances measured in thousandths of
//! a cell. Every cost saturates at `u64::MAX`, which also stands for an
//! unconstrained branch of a preference group.
use std::collections::HashMap;
use vstd::prelude::*;
use vstd::math::min;
use crate::distance::{scaled_dist, scaled_distance};

verus! {

broadcast use vstd::std_specs::hash::group_hash_axioms;

/// An occupant: identity, display name and ordered preference groups.
pub struct User {
    pub number: usize,
    pub name: String,
    pub want: Vec<WantSeat>,
}

/// One preference group: "near one of these positions, or near one of these
/// occupants". Either list may be empty.
pub struct WantSeat {
    pub poss: Vec<SeatPos>,
    pub with: Vec<WithUser>,
}

/// A desired absolute position (`x` is the row, `y` the column).
#[derive(Clone, Copy, Debug)]
pub struct SeatPos {
    pub x: usize,
    pub y: usize,
    pub weight: u32,
}

/// A desired proximity to another occupant.
#[derive(Clone, Copy, Debug)]
pub struct WithUser {
    pub number: usize,
    pub weight: u32,
}

/// The saturation bound of every cost, and the "unconstrained" sentinel.
pub open spec fn cap() -> int {
    u64::MAX as int
}

/// Weighted distance between two coordinates, saturated at `cap()`.
pub open spec fn weighted(weight: u32, a: (usize, usize), b: (usize, usize)) -> int {
    min(weight as int * scaled_dist(a, b), cap())
}

/// Cheapest of the position desires, seen from `at`; `cap()` if there are none.
pub open spec fn position_cost(poss: Seq<SeatPos>, at: (usize, usize)) -> int
    decreases poss.len(),
{
    if poss.len() == 0 {
        cap()
    } else {
        let p = poss.last();
        min(position_cost(poss.drop_last(), at), weighted(p.weight, at, (p.x, p.y)))
    }
}

/// Cheapest of the proximity desires, seen from `at`, over the occupants that
/// `index` places; `cap()` if there are none.
pub open spec fn proximity_cost(
    with: Seq<WithUser>,
    at: (usize, usize),
    index: Map<usize, (usize, usize)>,
) -> int
    decreases with.len(),
{
    if with.len() == 0 {
        cap()
    } else {
        let w = with.last();
        let rest = proximity_cost(with.drop_last(), at, index);
        if index.contains_key(w.number) {
            min(rest, weighted(w.weight, at, index[w.number]))
        } else {
            rest
        }
    }
}

/// Contribution of one preference group.
pub open spec fn group_cost(g: WantSeat, at: (usize, usize), index: Map<usize, (usize, usize)>) -> int {
    min(position_cost(g.poss@, at), proximity_cost(g.with@, at, index))
}

/// Sum of the contributions of the groups.
pub open spec fn groups_sum(
    want: Seq<WantSeat>,
    at: (usize, usize),
    index: Map<usize, (usize, usize)>,
) -> int
    decreases want.len(),
{
    if want.len() == 0 {
        0
    } else {
        groups_sum(want.drop_last(), at, index) + group_cost(want.last(), at, index)
    }
}

/// Cost of occupant `u` at `at`: the mean of its group contributions (their
/// sum saturated at `cap()`, divided down), or zero without groups.
pub open spec fn user_cost(u: User, at: (usize, usize), index: Map<usize, (usize, usize)>) -> int {
    if u.want@.len() == 0 {
        0
    } else {
        min(groups_sum(u.want@, at, index), cap()) / (u.want@.len() as int)
    }
}

/// Weighted distance between two coordinates.
pub fn weighted_distance(weight: u32, a: (usize, usize), b: (usize, usize)) -> (r: u64)
    ensures
        r as int == weighted(weight, a, b),
{
    let d = scaled_distance(a, b);
    assert(weight as u128 * d <= 0xFFFF_FFFE_FFFF_FFFF_0000_0001u128) by (nonlinear_arith)
        requires
            d <= u64::MAX,
            weight <= u32::MAX,
    ;
    let p = weight as u128 * d;
    if p > u64::MAX as u128 {
        u64::MAX
    } else {
        p as u64
    }
}

impl User {
    pub fn new(number: usize, name: String) -> (r: Self)
        ensures
            r.number == number,
            r.name == name,
            r.want@.len() == 0,
    {
        Self { number, name, want: Vec::new() }
    }

    /// Cost of this occupant at `pos`, given where every placed occupant sits.
    pub fn cost_calc(&self, pos: &(usize, usize), user_pos: &HashMap<usize, (usize, usize)>) -> (r: u64)
        ensures
            r as int == user_cost(*self, *pos, user_pos@),
    {
        let n = self.want.len();
        let mut sum: u64 = 0;
        let mut i: usize = 0;
        while i < n
            invariant
                n == self.want@.len(),
                i <= n,
                sum as int == min(groups_sum(self.want@.take(i as int), *pos, user_pos@), cap()),
            decreases n - i,
        {
            proof {
                assert(self.want@.take(i + 1).drop_last() =~= self.want@.take(i as int));
            }
            let c = self.want[i].group_cost(pos, user_pos);
            sum = sum.saturating_add(c);
            i = i + 1;
        }
        proof {
            assert(self.want@.take(n as int) =~= self.want@);
        }
        if n == 0 {
            0
        } else {
            sum / (n as u64)
        }
    }

    pub fn add_want(&mut self, want: WantSeat)
        ensures
            final(self).number == old(self).number,
            final(self).name == old(self).name,
            final(self).want@ == old(self).want@.push(want),
    {
        self.want.push(want);
    }
}

impl WantSeat {
    pub fn new() -> (r: Self)
        ensures
            r.poss@.len() == 0,
            r.with@.len() == 0,
    {
        Self { poss: Vec::new(), with: Vec::new() }
    }

    pub fn add_pos(&mut self, pos: SeatPos)
        ensures
            final(self).poss@ == old(self).poss@.push(pos),
            final(self).with@ == old(self).with@,
    {
        self.poss.push(pos);
    }

    pub fn add_with(&mut self, with: WithUser)
        ensures
            final(self).poss@ == old(self).poss@,
            final(self).with@ == old(self).with@.push(with),
    {
        self.with.push(with);
    }

    /// Contribution of this group for an occupant at `pos`.
    pub fn group_cost(&self, pos: &(usize, usize), user_pos: &HashMap<usize, (usize, usize)>) -> (r: u64)
        ensures
            r as int == group_cost(*self, *pos, user_pos@),
    {
        let mut best_pos: u64 = u64::MAX;
        let mut i: usize = 0;
        while i < self.poss.len()
            invariant
                i <= self.poss@.len(),
                best_pos as int == position_cost(self.poss@.take(i as int), *pos),
            decreases self.poss@.len() - i,
        {
            proof {
                assert(self.poss@.take(i + 1).drop_last() =~= self.poss@.take(i as int));
            }
            let p = self.poss[i];
            let c = weighted_distance(p.weight, *pos, (p.x, p.y));
            if c < best_pos {
                best_pos = c;
            }
            i = i + 1;
        }
        let mut best_with: u64 = u64::MAX;
        let mut j: usize = 0;
        while j < self.with.len()
            invariant
                j <= self.with@.len(),
                best_with as int == proximity_cost(self.with@.take(j as int), *pos, user_pos@),
            decreases self.with@.len() - j,
        {
            proof {
                assert(self.with@.take(j + 1).drop_last() =~= self.with@.take(j as int));
            }
            let w = self.with[j];
            match user_pos.get(&w.number) {
                Some(other) => {
                    let c = weighted_distance(w.weight, *pos, *other);
                    if c < best_with {
                        best_with = c;
                    }
                },
                None => {},
            }
            j = j + 1;
        }
        proof {
            assert(self.poss@.take(self.poss@.len() as int) =~= self.poss@);
            assert(self.with@.take(self.with@.len() as int) =~= self.with@);
        }
        if best_pos < best_with {
            best_pos
        } else {
            best_with
        }
    }
}

impl SeatPos {
    pub fn new(x: usize, y: usize, weight: u32) -> (r: Self)
        ensures
            r.x == x,
            r.y == y,
            r.weight == weight,
    {
        Self { x, y, weight }
    }
}

impl WithUser {
    pub fn new(number: usize, weight: u32) -> (r: Self)
        ensures
            r.number == number,
            r.weight == weight,
    {
        Self { number, weight }
    }
}

} // verus!
