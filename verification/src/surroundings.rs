//! What a layer leaves to its surroundings: norms and projections, rotations,
//! and attention.

use crate::rows::copy_range;
use vstd::prelude::*;

verus! {

/// The heads that attention runs over.
#[derive(Debug, Clone, Copy, PartialEq, Eq, Structural)]
pub struct HeadShape {
    pub heads: usize,
    pub kv_heads: usize,
    pub head_dim: usize,
}

/// What a layer leaves to its surroundings: `apply` runs norms and
/// projections, `rotate` turns the rows of heads by their positions, and
/// `attend` runs causal attention of the queries of some heads over keys and
/// values.
pub struct Surroundings<G, R, H> {
    pub apply: G,
    pub rotate: R,
    pub attend: H,
}

impl<G, R, H> Surroundings<G, R, H> {
    /// `after` is what `apply` makes of `before`.
    pub open spec fn part_ran<P, T>(&self, part: P, before: Seq<T>, after: Seq<T>) -> bool where
        G: Fn(P, Vec<T>) -> Vec<T>,
     {
        exists|a: Vec<T>, r: Vec<T>|
            a@ == before && r@ == after && #[trigger] call_ensures(self.apply, (part, a), r)
    }

    /// `after` is what `rotate` makes of rows at their positions.
    pub open spec fn rotated<T>(&self, before: Seq<T>, positions: Seq<u32>, after: Seq<T>) -> bool where
        R: Fn(Vec<T>, Vec<u32>) -> Vec<T>,
     {
        exists|a: Vec<T>, p: Vec<u32>, r: Vec<T>|
            a@ == before && p@ == positions && r@ == after && #[trigger] call_ensures(
                self.rotate,
                (a, p),
                r,
            )
    }

    /// `out` is what `attend` makes of queries, keys and values.
    pub open spec fn attended<T>(
        &self,
        heads: HeadShape,
        q: Seq<T>,
        k: Seq<T>,
        v: Seq<T>,
        out: Seq<T>,
    ) -> bool where
        H: Fn(HeadShape, Vec<T>, Vec<T>, Vec<T>) -> Vec<T>,
     {
        exists|a: Vec<T>, b: Vec<T>, c: Vec<T>, r: Vec<T>|
            a@ == q && b@ == k && c@ == v && r@ == out && #[trigger] call_ensures(
                self.attend,
                (heads, a, b, c),
                r,
            )
    }

    /// A part runs on `rows` rows of the width that it takes, and gives as
    /// many of the width that it owes.
    pub open spec fn part_fits<P, T>(&self, part: P, rows: nat, takes: nat, gives: nat) -> bool where
        G: Fn(P, Vec<T>) -> Vec<T>,
     {
        &&& forall|a: Vec<T>|
            a@.len() == rows * takes ==> #[trigger] call_requires(self.apply, (part, a))
        &&& forall|a: Vec<T>, r: Vec<T>| #[trigger]
            call_ensures(self.apply, (part, a), r) && a@.len() == rows * takes ==> r@.len() == rows
                * gives
    }

    /// Rotations run on rows of heads with a position for each, and give as
    /// many elements as they take.
    pub open spec fn turn_fits<T>(&self, head_dim: nat) -> bool where
        R: Fn(Vec<T>, Vec<u32>) -> Vec<T>,
     {
        &&& forall|a: Vec<T>, p: Vec<u32>|
            a@.len() == p@.len() * head_dim ==> #[trigger] call_requires(self.rotate, (a, p))
        &&& forall|a: Vec<T>, p: Vec<u32>, r: Vec<T>| #[trigger]
            call_ensures(self.rotate, (a, p), r) && a@.len() == p@.len() * head_dim ==> r@.len()
                == a@.len()
    }

    /// Attention runs for `rows` tokens at the end of `total`, and gives as
    /// many elements as there are in the queries.
    pub open spec fn look_fits<T>(
        &self,
        heads: HeadShape,
        rows: nat,
        total: nat,
        q_width: nat,
        kv_width: nat,
    ) -> bool where
        H: Fn(HeadShape, Vec<T>, Vec<T>, Vec<T>) -> Vec<T>,
     {
        &&& forall|q: Vec<T>, k: Vec<T>, v: Vec<T>|
            q@.len() == rows * q_width && k@.len() == total * kv_width && v@.len() == k@.len()
                ==> #[trigger] call_requires(self.attend, (heads, q, k, v))
        &&& forall|q: Vec<T>, k: Vec<T>, v: Vec<T>, r: Vec<T>| #[trigger]
            call_ensures(self.attend, (heads, q, k, v), r) && q@.len() == rows * q_width && k@.len()
                == total * kv_width && v@.len() == k@.len() ==> r@.len() == q@.len()
    }

    /// Parts, rotations and attention give one result for the same rows.
    pub open spec fn gives_once<P, T>(&self) -> bool where
        G: Fn(P, Vec<T>) -> Vec<T>,
        R: Fn(Vec<T>, Vec<u32>) -> Vec<T>,
        H: Fn(HeadShape, Vec<T>, Vec<T>, Vec<T>) -> Vec<T>,
     {
        &&& forall|p: P, s: Seq<T>, r: Seq<T>, r2: Seq<T>|
            #![trigger self.part_ran(p, s, r), self.part_ran(p, s, r2)]
            self.part_ran(p, s, r) && self.part_ran(p, s, r2) ==> r == r2
        &&& forall|s: Seq<T>, at: Seq<u32>, r: Seq<T>, r2: Seq<T>|
            #![trigger self.rotated(s, at, r), self.rotated(s, at, r2)]
            self.rotated(s, at, r) && self.rotated(s, at, r2) ==> r == r2
        &&& forall|n: HeadShape, q: Seq<T>, k: Seq<T>, v: Seq<T>, r: Seq<T>, r2: Seq<T>|
            #![trigger self.attended(n, q, k, v, r), self.attended(n, q, k, v, r2)]
            self.attended(n, q, k, v, r) && self.attended(n, q, k, v, r2) ==> r == r2
    }

    /// Runs a part.
    pub fn run<P, T: Copy>(&self, part: P, rows: &Vec<T>) -> (r: Vec<T>) where
        G: Fn(P, Vec<T>) -> Vec<T>,

        requires
            forall|a: Vec<T>| a@ == rows@ ==> #[trigger] call_requires(self.apply, (part, a)),
        ensures
            self.part_ran(part, rows@, r@),
    {
        let own = copy_range(rows.as_slice(), 0, rows.len());
        assert(own@ =~= rows@);
        let ghost given = (part, own);
        let r = (self.apply)(part, own);
        assert(call_ensures(self.apply, given, r));
        r
    }

    /// Turns rows by their positions.
    pub fn turn<T: Copy>(&self, rows: &Vec<T>, positions: Vec<u32>) -> (r: Vec<T>) where
        R: Fn(Vec<T>, Vec<u32>) -> Vec<T>,

        requires
            forall|a: Vec<T>|
                a@ == rows@ ==> #[trigger] call_requires(self.rotate, (a, positions)),
        ensures
            self.rotated(rows@, positions@, r@),
    {
        let own = copy_range(rows.as_slice(), 0, rows.len());
        assert(own@ =~= rows@);
        let ghost given = (own, positions);
        let r = (self.rotate)(own, positions);
        assert(call_ensures(self.rotate, given, r));
        r
    }

    /// Attends queries over keys and values.
    pub fn look<T: Copy>(
        &self,
        heads: HeadShape,
        q: &Vec<T>,
        k: &Vec<T>,
        v: &Vec<T>,
    ) -> (r: Vec<T>) where
        H: Fn(HeadShape, Vec<T>, Vec<T>, Vec<T>) -> Vec<T>,

        requires
            forall|a: Vec<T>, b: Vec<T>, c: Vec<T>|
                a@ == q@ && b@ == k@ && c@ == v@ ==> #[trigger]
                call_requires(self.attend, (heads, a, b, c)),
        ensures
            self.attended(heads, q@, k@, v@, r@),
    {
        let a = copy_range(q.as_slice(), 0, q.len());
        let b = copy_range(k.as_slice(), 0, k.len());
        let c = copy_range(v.as_slice(), 0, v.len());
        assert(a@ =~= q@);
        assert(b@ =~= k@);
        assert(c@ =~= v@);
        let ghost given = (heads, a, b, c);
        let r = (self.attend)(heads, a, b, c);
        assert(call_ensures(self.attend, given, r));
        r
    }
}

/// A part treats every row for itself: for the rows of two calls in one, it
/// gives what it gives for the `a` rows of the first and the `b` rows of the
/// second.
pub open spec fn part_by_rows<P, T, G1, R1, H1, G2, R2, H2, G, R, H>(
    some: &Surroundings<G1, R1, H1>,
    other: &Surroundings<G2, R2, H2>,
    both: &Surroundings<G, R, H>,
    part: P,
    a: nat,
    b: nat,
    takes: nat,
) -> bool where
    G1: Fn(P, Vec<T>) -> Vec<T>,
    G2: Fn(P, Vec<T>) -> Vec<T>,
    G: Fn(P, Vec<T>) -> Vec<T>,
 {
    forall|s: Seq<T>, rs: Seq<T>, t: Seq<T>, rt: Seq<T>, r: Seq<T>|
        #![trigger some.part_ran(part, s, rs), other.part_ran(part, t, rt), both.part_ran(part, s + t, r)]
        some.part_ran(part, s, rs) && other.part_ran(part, t, rt) && both.part_ran(part, s + t, r)
            && s.len() == a * takes && t.len() == b * takes ==> r == rs + rt
}

/// Rotations treat every row of a head for itself.
pub open spec fn turns_by_rows<T, G1, R1, H1, G2, R2, H2, G, R, H>(
    some: &Surroundings<G1, R1, H1>,
    other: &Surroundings<G2, R2, H2>,
    both: &Surroundings<G, R, H>,
    head_dim: nat,
) -> bool where
    R1: Fn(Vec<T>, Vec<u32>) -> Vec<T>,
    R2: Fn(Vec<T>, Vec<u32>) -> Vec<T>,
    R: Fn(Vec<T>, Vec<u32>) -> Vec<T>,
 {
    forall|s: Seq<T>, ps: Seq<u32>, rs: Seq<T>, t: Seq<T>, pt: Seq<u32>, rt: Seq<T>, r: Seq<T>|
        #![trigger some.rotated(s, ps, rs), other.rotated(t, pt, rt), both.rotated(s + t, ps + pt, r)]
        some.rotated(s, ps, rs) && other.rotated(t, pt, rt) && both.rotated(s + t, ps + pt, r)
            && s.len() == ps.len() * head_dim && t.len() == pt.len() * head_dim ==> r == rs + rt
}

/// Attention is causal: queries see the keys and values up to their own token,
/// so that later tokens change nothing for earlier ones. `held` rows lie
/// before the `a` tokens of one call and the `b` tokens of the next.
pub open spec fn looks_causally<T, G1, R1, H1, G2, R2, H2, G, R, H>(
    some: &Surroundings<G1, R1, H1>,
    other: &Surroundings<G2, R2, H2>,
    both: &Surroundings<G, R, H>,
    heads: HeadShape,
    held: nat,
    a: nat,
    b: nat,
    q_width: nat,
    kv_width: nat,
) -> bool where
    H1: Fn(HeadShape, Vec<T>, Vec<T>, Vec<T>) -> Vec<T>,
    H2: Fn(HeadShape, Vec<T>, Vec<T>, Vec<T>) -> Vec<T>,
    H: Fn(HeadShape, Vec<T>, Vec<T>, Vec<T>) -> Vec<T>,
 {
    forall|
        q: Seq<T>,
        k: Seq<T>,
        v: Seq<T>,
        o: Seq<T>,
        q2: Seq<T>,
        k2: Seq<T>,
        v2: Seq<T>,
        o2: Seq<T>,
        r: Seq<T>,
    |
        #![trigger some.attended(heads, q, k, v, o), other.attended(heads, q2, k + k2, v + v2, o2), both.attended(heads, q + q2, k + k2, v + v2, r)]
        some.attended(heads, q, k, v, o) && other.attended(heads, q2, k + k2, v + v2, o2)
            && both.attended(
            heads,
            q + q2,
            k + k2,
            v + v2,
            r,
        ) && q.len() == a * q_width && q2.len() == b * q_width && k.len() == (held + a) * kv_width
            && v.len() == k.len() && k2.len() == b * kv_width && v2.len() == k2.len() ==> r == o
            + o2
}

} // verus!
