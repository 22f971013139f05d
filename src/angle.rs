//! Angles in integer units and the quarter-wave sine table that turns them
//! into fixed-point directions.
use vstd::prelude::*;

use crate::geometry::ONE;

verus! {

/// Angle units in a full turn.
pub const ANGLE_FULL: i64 = 16384;

/// Angle units in a quarter turn.
pub const ANGLE_QUARTER: i64 = 4096;

/// Entries of a quarter-wave sine table: one per unit from 0 to a quarter turn.
pub const TABLE_LEN: usize = 4097;

/// The angle in `[0, ANGLE_FULL)` that points the same way as `a`.
pub open spec fn normalized(a: int) -> int {
    a % (ANGLE_FULL as int)
}

/// Wraps an angle into `[0, ANGLE_FULL)`.
pub fn normalize(a: i64) -> (r: i64)
    ensures
        r == normalized(a as int),
        0 <= r < ANGLE_FULL,
{
    match a.checked_rem_euclid(ANGLE_FULL) {
        Some(r) => r,
        None => 0,
    }
}

/// Normalizing an angle that is already normalized leaves it as it is, and a
/// whole turn added or taken away before normalizing changes nothing.
pub proof fn lemma_normalize_laws(a: int)
    ensures
        normalized(normalized(a)) == normalized(a),
        normalized(a + ANGLE_FULL) == normalized(a),
        normalized(a - ANGLE_FULL) == normalized(a),
        0 <= a < ANGLE_FULL ==> normalized(a) == a,
{
}

/// A quarter-wave sine table: entry `i` is the sine of `i` angle units scaled
/// by `ONE`.
pub struct TrigTable {
    pub quarter: Vec<i64>,
}

/// The table conditions: one entry per unit of a quarter turn, starting at
/// zero, ending at `ONE`, and positive and at most `ONE` after the first.
pub open spec fn valid_table(t: Seq<i64>) -> bool {
    &&& t.len() == TABLE_LEN
    &&& t[0] == 0
    &&& t[ANGLE_QUARTER as int] == ONE
    &&& forall|i: int| 1 <= i < t.len() ==> 0 < #[trigger] t[i] <= ONE
}

/// Sine of `a`, scaled by `ONE`, read from a quarter-wave table by symmetry.
pub open spec fn sine(t: Seq<i64>, a: int) -> int {
    let n = normalized(a);
    let q = ANGLE_QUARTER as int;
    if n <= q {
        t[n] as int
    } else if n <= 2 * q {
        t[2 * q - n] as int
    } else if n <= 3 * q {
        -t[n - 2 * q]
    } else {
        -t[4 * q - n]
    }
}

/// Cosine of `a`, scaled by `ONE`: the sine a quarter turn further on.
pub open spec fn cosine(t: Seq<i64>, a: int) -> int {
    sine(t, normalized(a) + ANGLE_QUARTER)
}

impl TrigTable {
    pub open spec fn wf(&self) -> bool {
        valid_table(self.quarter@)
    }

    /// Takes the entries as a table when they meet the table conditions.
    pub fn new(values: Vec<i64>) -> (r: Option<TrigTable>)
        ensures
            r is Some <==> valid_table(values@),
            r matches Some(t) ==> t.quarter@ == values@,
    {
        if values.len() != TABLE_LEN {
            return None;
        }
        if values[0] != 0 || values[ANGLE_QUARTER as usize] != ONE {
            return None;
        }
        let mut i: usize = 1;
        while i < values.len()
            invariant
                values@.len() == TABLE_LEN,
                1 <= i <= values@.len(),
                forall|j: int| 1 <= j < i ==> 0 < #[trigger] values@[j] <= ONE,
            decreases values@.len() - i,
        {
            if values[i] <= 0 || values[i] > ONE {
                return None;
            }
            i = i + 1;
        }
        Some(TrigTable { quarter: values })
    }

    /// Sine of `a`, scaled by `ONE`.
    pub fn sin(&self, a: i64) -> (r: i64)
        requires
            self.wf(),
        ensures
            r == sine(self.quarter@, a as int),
            -ONE <= r <= ONE,
    {
        let n = normalize(a);
        let q = ANGLE_QUARTER;
        let v = if n <= q {
            self.quarter[n as usize]
        } else if n <= 2 * q {
            self.quarter[(2 * q - n) as usize]
        } else if n <= 3 * q {
            -self.quarter[(n - 2 * q) as usize]
        } else {
            -self.quarter[(4 * q - n) as usize]
        };
        v
    }

    /// Cosine of `a`, scaled by `ONE`.
    pub fn cos(&self, a: i64) -> (r: i64)
        requires
            self.wf(),
        ensures
            r == cosine(self.quarter@, a as int),
            -ONE <= r <= ONE,
    {
        self.sin(normalize(a) + ANGLE_QUARTER)
    }
}

/// A direction read from a table is never zero: where its sine is zero its
/// cosine is `ONE` or `-ONE`.
pub proof fn lemma_direction_nonzero(t: Seq<i64>, a: int)
    requires
        valid_table(t),
    ensures
        sine(t, a) == 0 ==> (cosine(t, a) == ONE || cosine(t, a) == -ONE),
{
    let n = normalized(a);
    assert(normalized(n + ANGLE_QUARTER) == n + ANGLE_QUARTER || normalized(n + ANGLE_QUARTER) == n
        + ANGLE_QUARTER - ANGLE_FULL);
}

/// The table gives the exact values at the axes: a cosine of `ONE` and a
/// sine of zero at angle zero.
pub proof fn lemma_axis_values(t: Seq<i64>)
    requires
        valid_table(t),
    ensures
        cosine(t, 0) == ONE,
        sine(t, 0) == 0,
{
}

} // verus!
