//! Filling the gaps of a column: the samples that are known fix a polynomial, in
//! Lagrange's form, and each missing position gets its value at that position's
//! point of the domain.

use crate::domain::{domain_points, EvaluationDomain};
use crate::field::{fadd, finv, fmul, fsub, is_inverse, modulus, values, Scalar};
use vstd::arithmetic::div_mod::{lemma_mod_self_0, lemma_small_mod};
use vstd::prelude::*;

verus! {

/// The numbers that a sequence of samples stands for, gaps kept.
pub open spec fn sample_values(samples: Seq<Option<Scalar>>) -> Seq<Option<nat>> {
    samples.map_values(
        |s: Option<Scalar>|
            match s {
                Some(v) => Some(v@),
                None => None,
            },
    )
}

/// The points at whose positions a sample is known, in order.
pub open spec fn known_points(points: Seq<nat>, samples: Seq<Option<nat>>) -> Seq<nat>
    decreases samples.len(),
{
    if samples.len() == 0 {
        seq![]
    } else {
        let rest = known_points(points.drop_last(), samples.drop_last());
        if samples.last() is Some {
            rest.push(points.last())
        } else {
            rest
        }
    }
}

/// The samples that are known, in order.
pub open spec fn known_values(samples: Seq<Option<nat>>) -> Seq<nat>
    decreases samples.len(),
{
    if samples.len() == 0 {
        seq![]
    } else {
        let rest = known_values(samples.drop_last());
        match samples.last() {
            Some(v) => rest.push(v),
            None => rest,
        }
    }
}

/// The product of `x - xs[t]` over the `t` below `upto` other than `skip`.
pub open spec fn numerator_upto(xs: Seq<nat>, skip: int, x: nat, upto: nat) -> nat
    decreases upto,
{
    if upto == 0 {
        1
    } else {
        let p = numerator_upto(xs, skip, x, (upto - 1) as nat);
        if upto - 1 == skip {
            p
        } else {
            fmul(p, fsub(x, xs[upto - 1]))
        }
    }
}

/// The product of `x - xs[t]` over every `t` other than `skip`.
pub open spec fn numerator(xs: Seq<nat>, skip: int, x: nat) -> nat {
    numerator_upto(xs, skip, x, xs.len())
}

/// What divides the basis polynomial of node `i`: its numerator at its own node.
pub open spec fn denominator(xs: Seq<nat>, i: int) -> nat {
    numerator(xs, i, xs[i])
}

/// The basis polynomial of node `i` at `x`.
pub open spec fn basis(xs: Seq<nat>, i: int, x: nat) -> nat {
    fmul(numerator(xs, i, x), finv(denominator(xs, i)))
}

/// The sum of `ys[i]` times the basis polynomial of node `i` at `x`, over the `i` below `upto`.
pub open spec fn lagrange_upto(xs: Seq<nat>, ys: Seq<nat>, x: nat, upto: nat) -> nat
    decreases upto,
{
    if upto == 0 {
        0
    } else {
        fadd(
            lagrange_upto(xs, ys, x, (upto - 1) as nat),
            fmul(ys[upto - 1], basis(xs, upto - 1, x)),
        )
    }
}

/// The value at `x` of the polynomial that Lagrange's formula gives for the nodes
/// `xs` with the values `ys`.
pub open spec fn lagrange(xs: Seq<nat>, ys: Seq<nat>, x: nat) -> nat {
    lagrange_upto(xs, ys, x, xs.len())
}

/// Some node's denominator is zero, so that its basis polynomial cannot be scaled.
pub open spec fn has_zero_denominator(xs: Seq<nat>) -> bool {
    exists|i: int| 0 <= i < xs.len() && denominator(xs, i) == 0
}

/// The full column: each known sample where it stands, and at each gap the value
/// of the polynomial through the known samples.
pub open spec fn reconstruction(points: Seq<nat>, samples: Seq<Option<nat>>) -> Seq<nat> {
    Seq::new(
        samples.len(),
        |j: int|
            match samples[j] {
                Some(y) => y,
                None => lagrange(known_points(points, samples), known_values(samples), points[j]),
            },
    )
}

/// Every node's denominator has its inverse, so that every basis polynomial is
/// one at its own node.
pub open spec fn denominators_invertible(xs: Seq<nat>) -> bool {
    forall|i: int|
        0 <= i < xs.len() ==> is_inverse(#[trigger] denominator(xs, i), finv(denominator(xs, i)))
}

/// A product that has passed the factor `x - x` is zero.
proof fn lemma_numerator_vanishes(xs: Seq<nat>, skip: int, s: int, upto: nat)
    requires
        0 <= s < upto <= xs.len(),
        s != skip,
        xs[s] < modulus(),
    ensures
        numerator_upto(xs, skip, xs[s], upto) == 0,
    decreases upto,
{
    let m = modulus();
    let x = xs[s];
    let p = numerator_upto(xs, skip, x, (upto - 1) as nat);
    if upto - 1 == s {
        assert(fsub(x, x) == 0) by {
            lemma_mod_self_0(m as int);
        }
        assert(p * 0 == 0) by (nonlinear_arith);
        lemma_small_mod(0, m);
    } else {
        lemma_numerator_vanishes(xs, skip, s, (upto - 1) as nat);
        if upto - 1 != skip {
            assert(0 * fsub(x, xs[upto - 1]) == 0) by (nonlinear_arith);
            lemma_small_mod(0, m);
        }
    }
}

/// At a node, the sum of Lagrange's formula is nothing before that node's term
/// and that node's value from there on.
proof fn lemma_lagrange_upto_at_node(xs: Seq<nat>, ys: Seq<nat>, s: int, upto: nat)
    requires
        xs.len() == ys.len(),
        0 <= s < xs.len(),
        upto <= xs.len(),
        xs[s] < modulus(),
        ys[s] < modulus(),
        is_inverse(denominator(xs, s), finv(denominator(xs, s))),
    ensures
        lagrange_upto(xs, ys, xs[s], upto) == if upto <= s {
            0
        } else {
            ys[s]
        },
    decreases upto,
{
    let m = modulus();
    if upto > 0 {
        let i = upto - 1;
        lemma_lagrange_upto_at_node(xs, ys, s, i as nat);
        let acc = lagrange_upto(xs, ys, xs[s], i as nat);
        if i == s {
            assert(ys[s] * 1 == ys[s]) by (nonlinear_arith);
            lemma_small_mod(ys[s], m);
        } else {
            lemma_numerator_vanishes(xs, i, s, xs.len());
            assert(0 * finv(denominator(xs, i)) == 0) by (nonlinear_arith);
            assert(ys[i] * 0 == 0) by (nonlinear_arith);
            lemma_small_mod(0, m);
            lemma_small_mod(acc, m);
        }
    }
}

/// The polynomial of Lagrange's formula takes, at each node whose denominator
/// has its inverse, the value given for that node.
pub proof fn lemma_lagrange_hits_node(xs: Seq<nat>, ys: Seq<nat>, s: int)
    requires
        xs.len() == ys.len(),
        0 <= s < xs.len(),
        xs[s] < modulus(),
        ys[s] < modulus(),
        is_inverse(denominator(xs, s), finv(denominator(xs, s))),
    ensures
        lagrange(xs, ys, xs[s]) == ys[s],
{
    lemma_lagrange_upto_at_node(xs, ys, s, xs.len());
}

/// A known sample is one of the nodes: its point and its value stand at one
/// index of the known points and the known values.
pub proof fn lemma_known_index(points: Seq<nat>, samples: Seq<Option<nat>>, j: int) -> (s: int)
    requires
        points.len() == samples.len(),
        0 <= j < samples.len(),
        samples[j] is Some,
    ensures
        0 <= s < known_points(points, samples).len(),
        known_points(points, samples).len() == known_values(samples).len(),
        known_points(points, samples)[s] == points[j],
        known_values(samples)[s] == samples[j]->0,
    decreases samples.len(),
{
    lemma_known_lengths(points, samples);
    lemma_known_lengths(points.drop_last(), samples.drop_last());
    if j == samples.len() - 1 {
        known_points(points.drop_last(), samples.drop_last()).len() as int
    } else {
        lemma_known_index(points.drop_last(), samples.drop_last(), j)
    }
}

/// The recovered column lies on one polynomial.
///
/// Where every node's denominator has its inverse, the column holds at every
/// row, known or not, the value at that row's point of the polynomial that
/// Lagrange's formula gives for the known samples.
pub proof fn lemma_reconstruction_on_polynomial(points: Seq<nat>, samples: Seq<Option<nat>>, j: int)
    requires
        points.len() == samples.len(),
        0 <= j < samples.len(),
        forall|i: int| 0 <= i < points.len() ==> points[i] < modulus(),
        forall|i: int| 0 <= i < samples.len() && samples[i] is Some ==> samples[i]->0 < modulus(),
        denominators_invertible(known_points(points, samples)),
    ensures
        reconstruction(points, samples)[j] == lagrange(
            known_points(points, samples),
            known_values(samples),
            points[j],
        ),
{
    if samples[j] is Some {
        let s = lemma_known_index(points, samples, j);
        let xs = known_points(points, samples);
        lemma_lagrange_hits_node(xs, known_values(samples), s);
    }
}

/// Too few samples are known to fix the column: none at all, or fewer than
/// half as many as the domain has points.
pub open spec fn too_few_known(size: nat, samples: Seq<Option<nat>>) -> bool {
    known_values(samples).len() == 0 || known_values(samples).len() < size / 2
}

/// What interpolating `samples` over the domain of `size` points comes to: the
/// full column, or nothing where there is not one sample for each point, where
/// too few of them are known, or where a node has a zero denominator.
pub open spec fn interpolation(size: nat, samples: Seq<Option<nat>>) -> Option<Seq<nat>> {
    if samples.len() != size || too_few_known(size, samples) || has_zero_denominator(
        known_points(domain_points(size), samples),
    ) {
        None
    } else {
        Some(reconstruction(domain_points(size), samples))
    }
}

/// As many points are known as values.
pub proof fn lemma_known_lengths(points: Seq<nat>, samples: Seq<Option<nat>>)
    ensures
        known_points(points, samples).len() == known_values(samples).len(),
        known_values(samples).len() <= samples.len(),
    decreases samples.len(),
{
    if samples.len() > 0 {
        lemma_known_lengths(points.drop_last(), samples.drop_last());
    }
}

/// The product of `x - xs[t]` over every `t` other than `skip`.
fn numerator_at(xs: &Vec<Scalar>, skip: usize, x: &Scalar) -> (r: Scalar)
    ensures
        r@ == numerator(values(xs@), skip as int, x@),
{
    let mut product = Scalar::one();
    let mut t: usize = 0;
    while t < xs.len()
        invariant
            t <= xs.len(),
            product@ == numerator_upto(values(xs@), skip as int, x@, t as nat),
        decreases xs.len() - t,
    {
        if t != skip {
            let factor = x.minus(&xs[t]);
            product = product.times(&factor);
        }
        t += 1;
    }
    product
}

/// The value at `x` of the polynomial through the nodes, given for each node the
/// inverse of its denominator.
fn lagrange_at(xs: &Vec<Scalar>, ys: &Vec<Scalar>, weights: &Vec<Scalar>, x: &Scalar) -> (r: Scalar)
    requires
        xs.len() == ys.len(),
        xs.len() == weights.len(),
        forall|i: int| 0 <= i < xs.len() ==> weights[i]@ == finv(denominator(values(xs@), i)),
    ensures
        r@ == lagrange(values(xs@), values(ys@), x@),
{
    let mut sum = Scalar::zero();
    let mut i: usize = 0;
    while i < xs.len()
        invariant
            i <= xs.len(),
            xs.len() == ys.len(),
            xs.len() == weights.len(),
            forall|k: int| 0 <= k < xs.len() ==> weights[k]@ == finv(denominator(values(xs@), k)),
            sum@ == lagrange_upto(values(xs@), values(ys@), x@, i as nat),
        decreases xs.len() - i,
    {
        let top = numerator_at(xs, i, x);
        let term = ys[i].times(&top.times(&weights[i]));
        sum = sum.plus(&term);
        i += 1;
    }
    sum
}

/// Fills the gaps of `samples`, whose positions stand at `points`.
///
/// `None` exactly where the two differ in length or some known node has a zero
/// denominator; otherwise the column that `reconstruction` describes.
pub fn fill_gaps(points: &Vec<Scalar>, samples: &Vec<Option<Scalar>>) -> (r: Option<Vec<Scalar>>)
    ensures
        r is None <==> points.len() != samples.len() || has_zero_denominator(
            known_points(values(points@), sample_values(samples@)),
        ),
        r matches Some(column) ==> values(column@) == reconstruction(
            values(points@),
            sample_values(samples@),
        ),
        r is Some ==> denominators_invertible(
            known_points(values(points@), sample_values(samples@)),
        ),
{
    if points.len() != samples.len() {
        return None;
    }
    let ghost pts = values(points@);
    let ghost smp = sample_values(samples@);
    // the nodes and their values
    let mut xs: Vec<Scalar> = Vec::new();
    let mut ys: Vec<Scalar> = Vec::new();
    let mut j: usize = 0;
    while j < samples.len()
        invariant
            j <= samples.len(),
            points.len() == samples.len(),
            pts == values(points@),
            smp == sample_values(samples@),
            values(xs@) == known_points(pts.take(j as int), smp.take(j as int)),
            values(ys@) == known_values(smp.take(j as int)),
        decreases samples.len() - j,
    {
        proof {
            assert(pts.take(j + 1).drop_last() =~= pts.take(j as int));
            assert(smp.take(j + 1).drop_last() =~= smp.take(j as int));
        }
        match &samples[j] {
            Some(y) => {
                xs.push(points[j]);
                ys.push(*y);
            },
            None => {},
        }
        j += 1;
    }
    proof {
        assert(pts.take(samples.len() as int) =~= pts);
        assert(smp.take(samples.len() as int) =~= smp);
        lemma_known_lengths(pts, smp);
    }
    // the inverse of each node's denominator
    let mut weights: Vec<Scalar> = Vec::new();
    let mut i: usize = 0;
    while i < xs.len()
        invariant
            i <= xs.len(),
            weights.len() == i,
            pts == values(points@),
            smp == sample_values(samples@),
            values(xs@) == known_points(pts, smp),
            forall|k: int| 0 <= k < i ==> denominator(values(xs@), k) != 0,
            forall|k: int| 0 <= k < i ==> weights[k]@ == finv(denominator(values(xs@), k)),
            forall|k: int|
                0 <= k < i ==> is_inverse(
                    #[trigger] denominator(values(xs@), k),
                    finv(denominator(values(xs@), k)),
                ),
        decreases xs.len() - i,
    {
        let bottom = numerator_at(&xs, i, &xs[i]);
        match bottom.inverse() {
            None => {
                assert(denominator(values(xs@), i as int) == 0);
                return None;
            },
            Some(w) => {
                weights.push(w);
            },
        }
        i += 1;
    }
    // the column
    let mut column: Vec<Scalar> = Vec::new();
    let mut j: usize = 0;
    while j < samples.len()
        invariant
            j <= samples.len(),
            points.len() == samples.len(),
            xs.len() == ys.len(),
            xs.len() == weights.len(),
            pts == values(points@),
            smp == sample_values(samples@),
            values(xs@) == known_points(pts, smp),
            values(ys@) == known_values(smp),
            forall|k: int| 0 <= k < xs.len() ==> weights[k]@ == finv(denominator(values(xs@), k)),
            denominators_invertible(values(xs@)),
            column.len() == j,
            forall|k: int| 0 <= k < j ==> column[k]@ == reconstruction(pts, smp)[k],
        decreases samples.len() - j,
    {
        let value = match &samples[j] {
            Some(y) => *y,
            None => lagrange_at(&xs, &ys, &weights, &points[j]),
        };
        column.push(value);
        j += 1;
    }
    Some(column)
}

/// How many samples are known.
pub fn count_known(samples: &Vec<Option<Scalar>>) -> (r: usize)
    ensures
        r == known_values(sample_values(samples@)).len(),
{
    let ghost smp = sample_values(samples@);
    let mut count: usize = 0;
    let mut i: usize = 0;
    while i < samples.len()
        invariant
            i <= samples.len(),
            count <= i,
            smp == sample_values(samples@),
            count == known_values(smp.take(i as int)).len(),
        decreases samples.len() - i,
    {
        proof {
            assert(smp.take(i + 1).drop_last() =~= smp.take(i as int));
        }
        if samples[i].is_some() {
            count += 1;
        }
        i += 1;
    }
    proof {
        assert(smp.take(samples.len() as int) =~= smp);
    }
    count
}

/// Recovers the full column from its samples over `domain`.
///
/// The result is `interpolation` of the samples: recovery fails exactly where
/// there is not one sample for each point of the domain, where none or fewer
/// than half of them are known, or where a node has a zero denominator. A column
/// that comes back rests on nodes whose denominators all have their inverses.
pub fn interpolate(domain: &EvaluationDomain, samples: &Vec<Option<Scalar>>) -> (r: Option<
    Vec<Scalar>,
>)
    ensures
        match r {
            Some(column) => interpolation(domain.spec_size(), sample_values(samples@)) == Some(
                values(column@),
            ),
            None => interpolation(domain.spec_size(), sample_values(samples@)) is None,
        },
        r is Some ==> denominators_invertible(
            known_points(domain_points(domain.spec_size()), sample_values(samples@)),
        ),
{
    if samples.len() != domain.size() {
        return None;
    }
    let known = count_known(samples);
    if known == 0 || known < domain.size() / 2 {
        return None;
    }
    let points = domain.points();
    fill_gaps(&points, samples)
}

} // verus!
