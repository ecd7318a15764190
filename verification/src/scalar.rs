//! Scalar arithmetic as a parameter: the recurrences are written once over a
//! handful of operations, and callers bring the precision.

use crate::numeric::Real;
use vstd::prelude::*;

verus! {

/// A scalar operation. Operations on one number ignore the second.
#[derive(Debug, Clone, Copy, PartialEq, Eq, Structural)]
pub enum ScalarOp {
    Plus,
    Minus,
    Times,
    Over,
    Larger,
    Smaller,
    Power,
    Negate,
    Exp,
    Ln,
    Root,
    Tanh,
}

/// How two numbers compare.
#[derive(Debug, Clone, Copy, PartialEq, Eq, Structural)]
pub enum Relation {
    /// The first equals the second.
    Same,
    /// The first is greater than the second.
    Above,
}

/// Where a number comes from.
#[derive(Debug, Clone, Copy, PartialEq, Eq, Structural)]
pub enum Number {
    Count(usize),
    Real(Real),
}

/// Ten to the power of minus twelve, as a double-precision bit pattern.
pub const TINY: u64 = 0x3d71_9799_812d_ea11;

/// Ten to the power of minus thirty, as a double-precision bit pattern.
pub const LEAST: u64 = 0x39b4_484b_feeb_c2a0;

/// Below every number, as a double-precision bit pattern.
pub const BOTTOM: u64 = 0xfff0_0000_0000_0000;

/// The arithmetic that a computation runs in.
pub struct Scalars<T, F, C, Z> {
    /// The operations.
    pub op: F,
    /// Counts and constants as numbers.
    pub given: C,
    /// Comparisons.
    pub holds: Z,
    /// Zero.
    pub nothing: T,
}

impl<T: Copy, F: Fn(ScalarOp, T, T) -> T, C: Fn(Number) -> T, Z: Fn(Relation, T, T) -> bool> Scalars<T, F, C, Z> {
    /// Every operation is there for all numbers, and gives the same result each
    /// time.
    pub open spec fn wf(&self) -> bool {
        &&& forall|o: ScalarOp, a: T, b: T| #[trigger] call_requires(self.op, (o, a, b))
        &&& forall|n: Number| #[trigger] call_requires(self.given, (n,))
        &&& forall|r: Relation, a: T, b: T| #[trigger] call_requires(self.holds, (r, a, b))
        &&& forall|o: ScalarOp, a: T, b: T, c: T| #[trigger]
            call_ensures(self.op, (o, a, b), c) ==> c == self.value(o, a, b)
        &&& forall|n: Number, c: T| #[trigger]
            call_ensures(self.given, (n,), c) ==> c == self.numbered(n)
        &&& forall|r: Relation, a: T, b: T, c: bool| #[trigger]
            call_ensures(self.holds, (r, a, b), c) ==> c == self.relates(r, a, b)
    }

    /// What an operation gives.
    pub open spec fn value(&self, o: ScalarOp, a: T, b: T) -> T {
        choose|c: T| call_ensures(self.op, (o, a, b), c)
    }

    /// A count or a constant as a number.
    pub open spec fn numbered(&self, n: Number) -> T {
        choose|c: T| call_ensures(self.given, (n,), c)
    }

    /// Whether a comparison holds.
    pub open spec fn relates(&self, r: Relation, a: T, b: T) -> bool {
        call_ensures(self.holds, (r, a, b), true)
    }

    /// Whether the number counts as zero.
    pub open spec fn zero_at(&self, a: T) -> bool {
        self.relates(Relation::Same, a, self.nothing)
    }

    /// A count as a number.
    #[verifier::allow_in_spec]
    pub fn number(&self, n: usize) -> T
        requires
            self.wf(),
        returns
            self.numbered(Number::Count(n)),
    {
        (self.given)(Number::Count(n))
    }

    /// A constant, given as a double-precision bit pattern.
    #[verifier::allow_in_spec]
    pub fn constant(&self, bits: u64) -> T
        requires
            self.wf(),
        returns
            self.numbered(Number::Real(Real { bits })),
    {
        (self.given)(Number::Real(Real { bits }))
    }

    /// Zero.
    #[verifier::allow_in_spec]
    pub fn zero(&self) -> T
        requires
            self.wf(),
        returns
            self.nothing,
    {
        self.nothing
    }

    /// One.
    #[verifier::allow_in_spec]
    pub fn one(&self) -> T
        requires
            self.wf(),
        returns
            self.numbered(Number::Count(1)),
    {
        self.number(1)
    }

    /// The least norm or decay that is divided by or taken a logarithm of.
    #[verifier::allow_in_spec]
    pub fn tiny(&self) -> T
        requires
            self.wf(),
        returns
            self.numbered(Number::Real(Real { bits: TINY })),
    {
        self.constant(TINY)
    }

    /// The least accumulated decay that is divided by.
    #[verifier::allow_in_spec]
    pub fn least(&self) -> T
        requires
            self.wf(),
        returns
            self.numbered(Number::Real(Real { bits: LEAST })),
    {
        self.constant(LEAST)
    }

    /// Below every number.
    #[verifier::allow_in_spec]
    pub fn bottom(&self) -> T
        requires
            self.wf(),
        returns
            self.numbered(Number::Real(Real { bits: BOTTOM })),
    {
        self.constant(BOTTOM)
    }

    /// Whether the number is zero.
    #[verifier::allow_in_spec]
    pub fn vanishes(&self, a: T) -> bool
        requires
            self.wf(),
        returns
            self.zero_at(a),
    {
        (self.holds)(Relation::Same, a, self.nothing)
    }

    /// Whether the first number is greater.
    #[verifier::allow_in_spec]
    pub fn above(&self, a: T, b: T) -> bool
        requires
            self.wf(),
        returns
            self.relates(Relation::Above, a, b),
    {
        (self.holds)(Relation::Above, a, b)
    }

    /// The sum.
    #[verifier::allow_in_spec]
    pub fn plus(&self, a: T, b: T) -> T
        requires
            self.wf(),
        returns
            self.value(ScalarOp::Plus, a, b),
    {
        (self.op)(ScalarOp::Plus, a, b)
    }

    /// The difference.
    #[verifier::allow_in_spec]
    pub fn minus(&self, a: T, b: T) -> T
        requires
            self.wf(),
        returns
            self.value(ScalarOp::Minus, a, b),
    {
        (self.op)(ScalarOp::Minus, a, b)
    }

    /// The product.
    #[verifier::allow_in_spec]
    pub fn times(&self, a: T, b: T) -> T
        requires
            self.wf(),
        returns
            self.value(ScalarOp::Times, a, b),
    {
        (self.op)(ScalarOp::Times, a, b)
    }

    /// The quotient.
    #[verifier::allow_in_spec]
    pub fn over(&self, a: T, b: T) -> T
        requires
            self.wf(),
        returns
            self.value(ScalarOp::Over, a, b),
    {
        (self.op)(ScalarOp::Over, a, b)
    }

    /// The larger of two numbers.
    #[verifier::allow_in_spec]
    pub fn larger(&self, a: T, b: T) -> T
        requires
            self.wf(),
        returns
            self.value(ScalarOp::Larger, a, b),
    {
        (self.op)(ScalarOp::Larger, a, b)
    }

    /// The smaller of two numbers.
    #[verifier::allow_in_spec]
    pub fn smaller(&self, a: T, b: T) -> T
        requires
            self.wf(),
        returns
            self.value(ScalarOp::Smaller, a, b),
    {
        (self.op)(ScalarOp::Smaller, a, b)
    }

    /// The first number to the power of the second.
    #[verifier::allow_in_spec]
    pub fn power(&self, a: T, b: T) -> T
        requires
            self.wf(),
        returns
            self.value(ScalarOp::Power, a, b),
    {
        (self.op)(ScalarOp::Power, a, b)
    }

    /// The number with the other sign.
    #[verifier::allow_in_spec]
    pub fn negated(&self, a: T) -> T
        requires
            self.wf(),
        returns
            self.value(ScalarOp::Negate, a, a),
    {
        (self.op)(ScalarOp::Negate, a, a)
    }

    /// The exponential.
    #[verifier::allow_in_spec]
    pub fn exp(&self, a: T) -> T
        requires
            self.wf(),
        returns
            self.value(ScalarOp::Exp, a, a),
    {
        (self.op)(ScalarOp::Exp, a, a)
    }

    /// The natural logarithm.
    #[verifier::allow_in_spec]
    pub fn ln(&self, a: T) -> T
        requires
            self.wf(),
        returns
            self.value(ScalarOp::Ln, a, a),
    {
        (self.op)(ScalarOp::Ln, a, a)
    }

    /// The square root.
    #[verifier::allow_in_spec]
    pub fn root(&self, a: T) -> T
        requires
            self.wf(),
        returns
            self.value(ScalarOp::Root, a, a),
    {
        (self.op)(ScalarOp::Root, a, a)
    }

    /// The hyperbolic tangent.
    #[verifier::allow_in_spec]
    pub fn tanh(&self, a: T) -> T
        requires
            self.wf(),
        returns
            self.value(ScalarOp::Tanh, a, a),
    {
        (self.op)(ScalarOp::Tanh, a, a)
    }

    /// `start`, with the first `n` terms added one after the other.
    pub open spec fn gathered(&self, start: T, n: nat, term: spec_fn(int) -> T) -> T
        decreases n,
    {
        if n == 0 {
            start
        } else {
            self.plus(self.gathered(start, (n - 1) as nat, term), term(n - 1))
        }
    }

    /// Only the terms that are added matter.
    pub proof fn lemma_gathered_same(
        &self,
        start: T,
        n: nat,
        a: spec_fn(int) -> T,
        b: spec_fn(int) -> T,
    )
        requires
            forall|i: int| 0 <= i < n ==> #[trigger] a(i) == b(i),
        ensures
            self.gathered(start, n, a) == self.gathered(start, n, b),
        decreases n,
    {
        if n > 0 {
            self.lemma_gathered_same(start, (n - 1) as nat, a, b);
            assert(a(n - 1) == b(n - 1));
        }
    }

    /// Adds `n` terms to `start`.
    pub(crate) fn gather<G: Fn(usize) -> T>(
        &self,
        start: T,
        n: usize,
        g: G,
        Ghost(term): Ghost<spec_fn(int) -> T>,
    ) -> (r: T)
        requires
            self.wf(),
            forall|i: usize| i < n ==> #[trigger] call_requires(g, (i,)),
            forall|i: usize, v: T|
                i < n && #[trigger] call_ensures(g, (i,), v) ==> v == term(i as int),
        ensures
            r == self.gathered(start, n as nat, term),
    {
        let mut total: T = start;
        for i in 0..n
            invariant
                self.wf(),
                forall|i: usize| i < n ==> #[trigger] call_requires(g, (i,)),
                forall|i: usize, v: T|
                    i < n && #[trigger] call_ensures(g, (i,), v) ==> v == term(i as int),
                total == self.gathered(start, i as nat, term),
        {
            let v = g(i);
            total = self.plus(total, v);
        }
        total
    }
}

/// The rows of a table as sequences.
pub open spec fn grid<T>(rows: Seq<Vec<T>>) -> Seq<Seq<T>> {
    Seq::new(rows.len(), |i: int| rows[i]@)
}

/// A table given cell by cell.
pub open spec fn cells<T>(rows: nat, cols: nat, cell: spec_fn(int, int) -> T) -> Seq<Seq<T>> {
    Seq::new(rows, |i: int| Seq::new(cols, |j: int| cell(i, j)))
}

/// Every row of the table is `cols` wide, and there are `rows` of them.
pub open spec fn shaped<T>(table: Seq<Seq<T>>, rows: nat, cols: nat) -> bool {
    &&& table.len() == rows
    &&& forall|i: int| 0 <= i < rows ==> #[trigger] table[i].len() == cols
}

/// A row, filled entry by entry.
pub(crate) fn fill_row<T, G: Fn(usize) -> T>(
    n: usize,
    g: G,
    Ghost(entry): Ghost<spec_fn(int) -> T>,
) -> (r: Vec<T>)
    requires
        forall|i: usize| i < n ==> #[trigger] call_requires(g, (i,)),
        forall|i: usize, v: T|
            i < n && #[trigger] call_ensures(g, (i,), v) ==> v == entry(i as int),
    ensures
        r@ == Seq::new(n as nat, |i: int| entry(i)),
{
    let mut row: Vec<T> = Vec::new();
    for i in 0..n
        invariant
            forall|i: usize| i < n ==> #[trigger] call_requires(g, (i,)),
            forall|i: usize, v: T|
                i < n && #[trigger] call_ensures(g, (i,), v) ==> v == entry(i as int),
            row@ == Seq::new(i as nat, |i: int| entry(i)),
    {
        let v = g(i);
        row.push(v);
    }
    row
}

/// A table, filled cell by cell.
pub(crate) fn fill_table<T, G: Fn(usize, usize) -> T>(
    rows: usize,
    cols: usize,
    g: G,
    Ghost(cell): Ghost<spec_fn(int, int) -> T>,
) -> (r: Vec<Vec<T>>)
    requires
        forall|i: usize, j: usize|
            i < rows && j < cols ==> #[trigger] call_requires(g, (i, j)),
        forall|i: usize, j: usize, v: T|
            i < rows && j < cols && #[trigger] call_ensures(g, (i, j), v) ==> v == cell(
                i as int,
                j as int,
            ),
    ensures
        r@.len() == rows,
        forall|i: int| 0 <= i < rows ==> #[trigger] r@[i]@.len() == cols,
        grid(r@) == cells(rows as nat, cols as nat, cell),
{
    let mut table: Vec<Vec<T>> = Vec::new();
    for i in 0..rows
        invariant
            forall|i: usize, j: usize|
                i < rows && j < cols ==> #[trigger] call_requires(g, (i, j)),
            forall|i: usize, j: usize, v: T|
                i < rows && j < cols && #[trigger] call_ensures(g, (i, j), v) ==> v == cell(
                    i as int,
                    j as int,
                ),
            grid(table@) == cells(i as nat, cols as nat, cell),
    {
        let ghost old_table = table@;
        let mut row: Vec<T> = Vec::new();
        for j in 0..cols
            invariant
                i < rows,
                forall|i: usize, j: usize|
                    i < rows && j < cols ==> #[trigger] call_requires(g, (i, j)),
                forall|i: usize, j: usize, v: T|
                    i < rows && j < cols && #[trigger] call_ensures(g, (i, j), v) ==> v == cell(
                        i as int,
                        j as int,
                    ),
                row@ == Seq::new(j as nat, |j: int| cell(i as int, j)),
        {
            let v = g(i, j);
            row.push(v);
        }
        table.push(row);
        proof {
            let want = cells((i + 1) as nat, cols as nat, cell);
            assert(old_table.len() == grid(old_table).len());
            assert(row@ =~= want[i as int]);
            assert forall|k: int| 0 <= k < i + 1 implies grid(table@)[k] == want[k] by {
                if k < i {
                    assert(grid(old_table)[k] == cells(i as nat, cols as nat, cell)[k]);
                    assert(table@[k] == old_table[k]);
                    assert(grid(old_table)[k] =~= want[k]);
                }
            }
            assert(grid(table@) =~= want);
        }
    }
    proof {
        assert(table@.len() == grid(table@).len());
        assert forall|i: int| 0 <= i < rows implies #[trigger] table@[i]@.len() == cols by {
            assert(grid(table@)[i] == cells(rows as nat, cols as nat, cell)[i]);
        }
    }
    table
}

} // verus!
