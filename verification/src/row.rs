//! Internal row type for representing rows in a matrix during elimination
use crate::scalar::Scalar;
use vstd::prelude::*;

verus! {

/// One matrix row, copied out of the flat buffer while an elimination runs;
/// it owns its entries and never aliases the parent matrix
pub(crate) struct Row<T: Scalar> {
    pub(crate) values: Vec<T>,
}

/// Every entry of `s` multiplied by `factor`.
pub open spec fn row_scaled<T: Scalar>(s: Seq<T>, factor: T) -> Seq<T> {
    Seq::new(s.len(), |j: int| s[j].smul(factor))
}

/// `a` minus `factor` times `b`, entry by entry.
pub open spec fn row_sub_scaled<T: Scalar>(a: Seq<T>, b: Seq<T>, factor: T) -> Seq<T> {
    Seq::new(a.len(), |j: int| a[j].ssub(factor.smul(b[j])))
}

/// The position of the first entry of `s` at or after `from` that is not near
/// zero; the row's length when there is none.
pub open spec fn row_lead<T: Scalar>(s: Seq<T>, from: int) -> int
    decreases s.len() - from,
{
    if from < 0 || from >= s.len() {
        s.len() as int
    } else if !s[from].snear_zero() {
        from
    } else {
        row_lead(s, from + 1)
    }
}

impl<T: Scalar> Row<T> {
    /// The entries, as specifications see them.
    pub(crate) open spec fn svals(&self) -> Seq<T> {
        self.values@
    }

    pub(crate) fn len(&self) -> (r: usize)
        ensures
            r as nat == self.svals().len(),
    {
        self.values.len()
    }

    pub(crate) fn get(&self, i: usize) -> (r: T)
        requires
            i < self.svals().len(),
        ensures
            r == self.svals()[i as int],
    {
        self.values[i]
    }

    /// Every entry multiplied by `factor`
    pub(crate) fn scaled(&self, factor: T) -> (r: Row<T>)
        ensures
            r.svals() == row_scaled(self.svals(), factor),
            r.svals().len() == self.svals().len(),
            forall|j: int| 0 <= j < self.svals().len() ==> r.svals()[j] == self.svals()[j].smul(
                factor,
            ),
    {
        let mut values: Vec<T> = Vec::with_capacity(self.values.len());
        let mut j: usize = 0;
        while j < self.values.len()
            invariant
                j <= self.svals().len(),
                values@.len() == j,
                forall|k: int| 0 <= k < j ==> values@[k] == self.svals()[k].smul(factor),
            decreases self.svals().len() - j,
        {
            values.push(self.values[j].mul(factor));
            j += 1;
        }
        proof {
            assert(values@ =~= row_scaled(self.svals(), factor));
        }
        Row { values }
    }

    /// This row minus `factor` times `other`, entry by entry
    pub(crate) fn sub_scaled(&self, other: &Row<T>, factor: T) -> (r: Row<T>)
        requires
            self.svals().len() == other.svals().len(),
        ensures
            r.svals() == row_sub_scaled(self.svals(), other.svals(), factor),
            r.svals().len() == self.svals().len(),
            forall|j: int| 0 <= j < self.svals().len() ==> r.svals()[j] == self.svals()[j].ssub(
                factor.smul(other.svals()[j]),
            ),
    {
        let mut values: Vec<T> = Vec::with_capacity(self.values.len());
        let mut j: usize = 0;
        while j < self.values.len()
            invariant
                self.svals().len() == other.svals().len(),
                j <= self.svals().len(),
                values@.len() == j,
                forall|k: int| 0 <= k < j ==> values@[k] == self.svals()[k].ssub(
                    factor.smul(other.svals()[k]),
                ),
            decreases self.svals().len() - j,
        {
            values.push(self.values[j].sub(factor.mul(other.values[j])));
            j += 1;
        }
        proof {
            assert(values@ =~= row_sub_scaled(self.svals(), other.svals(), factor));
        }
        Row { values }
    }

    /// The position of the first entry that is not near zero: the row's
    /// leading entry during reduction
    pub(crate) fn leading(&self) -> (r: Option<usize>)
        ensures
            r is Some <==> row_lead(self.svals(), 0) < self.svals().len(),
            r is Some ==> r.unwrap() == row_lead(self.svals(), 0),
            r is Some ==> (r.unwrap() as nat) < self.svals().len() && !self.svals()[
                r.unwrap() as int
            ].snear_zero(),
            r is Some ==> forall|k: int| 0 <= k < r.unwrap() ==> self.svals()[k].snear_zero(),
            r is None ==> forall|k: int| 0 <= k < self.svals().len() ==> self.svals()[
                k
            ].snear_zero(),
    {
        let mut j: usize = 0;
        while j < self.values.len()
            invariant
                j <= self.svals().len(),
                row_lead(self.svals(), 0) == row_lead(self.svals(), j as int),
                forall|k: int| 0 <= k < j ==> self.svals()[k].snear_zero(),
            decreases self.svals().len() - j,
        {
            if !self.values[j].near_zero() {
                return Some(j);
            }
            j += 1;
        }
        None
    }
}

/// Swaps the rows at positions `a` and `b`
pub(crate) fn swap_rows<T: Scalar>(rows: &mut Vec<Row<T>>, a: usize, b: usize)
    requires
        a < old(rows)@.len(),
        b < old(rows)@.len(),
    ensures
        final(rows)@ == old(rows)@.update(a as int, old(rows)@[b as int]).update(
            b as int,
            old(rows)@[a as int],
        ),
{
    if a == b {
        proof {
            assert(rows@ =~= rows@.update(a as int, rows@[b as int]).update(
                b as int,
                rows@[a as int],
            ));
        }
        return ;
    }
    let (x, y): (usize, usize) = if a < b {
        (a, b)
    } else {
        (b, a)
    };
    let row_y = rows.remove(y);
    let row_x = rows.remove(x);
    rows.insert(x, row_y);
    rows.insert(y, row_x);
    proof {
        assert(rows@ =~= old(rows)@.update(a as int, old(rows)@[b as int]).update(
            b as int,
            old(rows)@[a as int],
        ));
    }
}

} // verus!
