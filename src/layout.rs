//! Seating layouts: which cells of a rectangular grid are physical slots,
//! and the row-major rank of each slot.
use vstd::prelude::*;
use crate::assignment::rectangular;

verus! {

/// A seating layout: `true` marks a physical slot.
pub struct SeatStructure {
    pub structure: Vec<Vec<bool>>,
}

/// Number of slots among the first `c` cells of `row`.
pub open spec fn row_slots(row: Seq<bool>, c: int) -> int
    decreases c,
{
    if c <= 0 {
        0
    } else {
        row_slots(row, c - 1) + if row[c - 1] {
            1int
        } else {
            0
        }
    }
}

/// Number of slots in the first `r` rows.
pub open spec fn rows_slots(mask: Seq<Seq<bool>>, r: int) -> int
    decreases r,
{
    if r <= 0 {
        0
    } else {
        rows_slots(mask, r - 1) + row_slots(mask[r - 1], mask[r - 1].len() as int)
    }
}

/// Number of slots in the layout.
pub open spec fn seat_count(mask: Seq<Seq<bool>>) -> int {
    rows_slots(mask, mask.len() as int)
}

/// Number of slots before cell `(r, c)` in row-major order.
pub open spec fn rank(mask: Seq<Seq<bool>>, r: int, c: int) -> int {
    rows_slots(mask, r) + row_slots(mask[r], c)
}

pub proof fn lemma_row_slots_bounds(row: Seq<bool>, c: int)
    ensures
        0 <= row_slots(row, c),
        c >= 0 ==> row_slots(row, c) <= c,
    decreases c,
{
    if c > 0 {
        lemma_row_slots_bounds(row, c - 1);
    }
}

pub proof fn lemma_rows_slots_monotone(mask: Seq<Seq<bool>>, a: int, b: int)
    requires
        a <= b,
    ensures
        0 <= rows_slots(mask, a) <= rows_slots(mask, b),
    decreases b - a,
{
    if a < b {
        lemma_rows_slots_monotone(mask, a, b - 1);
        if b > 0 {
            lemma_row_slots_bounds(mask[b - 1], mask[b - 1].len() as int);
        }
    } else {
        lemma_rows_slots_nonneg(mask, a);
    }
}

pub proof fn lemma_rows_slots_nonneg(mask: Seq<Seq<bool>>, r: int)
    ensures
        0 <= rows_slots(mask, r),
    decreases r,
{
    if r > 0 {
        lemma_rows_slots_nonneg(mask, r - 1);
        lemma_row_slots_bounds(mask[r - 1], mask[r - 1].len() as int);
    }
}

pub open spec fn mask_view(v: Seq<Vec<bool>>) -> Seq<Seq<bool>> {
    Seq::new(v.len(), |r: int| v[r]@)
}

impl SeatStructure {
    pub open spec fn mask(&self) -> Seq<Seq<bool>> {
        mask_view(self.structure@)
    }

    pub fn new(structure: Vec<Vec<bool>>) -> (r: Self)
        ensures
            r.structure == structure,
    {
        SeatStructure { structure }
    }

    /// Number of physical slots.
    pub fn count_seat_num(&self) -> (r: usize)
        requires
            seat_count(self.mask()) <= usize::MAX,
        ensures
            r as int == seat_count(self.mask()),
    {
        let mask = Ghost(self.mask());
        let h = self.structure.len();
        let mut total: usize = 0;
        let mut i: usize = 0;
        while i < h
            invariant
                mask@ == self.mask(),
                h == mask@.len(),
                seat_count(mask@) <= usize::MAX,
                i <= h,
                total as int == rows_slots(mask@, i as int),
            decreases h - i,
        {
            let row = &self.structure[i];
            let mut j: usize = 0;
            proof {
                lemma_rows_slots_monotone(mask@, i + 1, h as int);
                lemma_row_slots_bounds(mask@[i as int], 0);
            }
            while j < row.len()
                invariant
                    mask@ == self.mask(),
                    i < h == mask@.len(),
                    row@ == mask@[i as int],
                    j <= row@.len(),
                    total as int == rows_slots(mask@, i as int) + row_slots(row@, j as int),
                    rows_slots(mask@, i + 1) <= usize::MAX,
                decreases row@.len() - j,
            {
                proof {
                    lemma_row_slots_prefix(row@, j + 1, row@.len() as int);
                    lemma_row_slots_bounds(row@, 0);
                }
                if row[j] {
                    total = total + 1;
                }
                j = j + 1;
            }
            i = i + 1;
        }
        total
    }

    /// All rows have the same length.
    pub fn is_rectangular(&self) -> (r: bool)
        ensures
            r == rectangular(self.mask()),
    {
        let h = self.structure.len();
        if h == 0 {
            return true;
        }
        let w = self.structure[0].len();
        let mut i: usize = 0;
        while i < h
            invariant
                h == self.mask().len(),
                h > 0,
                w == self.mask()[0].len(),
                i <= h,
                forall|r: int| 0 <= r < i ==> #[trigger] self.mask()[r].len() == w,
            decreases h - i,
        {
            if self.structure[i].len() != w {
                assert(self.mask()[i as int].len() != crate::assignment::width(self.mask()));
                return false;
            }
            i = i + 1;
        }
        true
    }
}

/// A prefix of a row has no more slots than a longer prefix.
pub proof fn lemma_row_slots_prefix(row: Seq<bool>, a: int, b: int)
    requires
        a <= b,
    ensures
        row_slots(row, a) <= row_slots(row, b),
    decreases b - a,
{
    if a < b {
        lemma_row_slots_prefix(row, a, b - 1);
    }
}

} // verus!
