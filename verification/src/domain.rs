//! The evaluation domain of a column: the powers of a root of unity whose order
//! is the number of rows.

use crate::field::{fmul, fpow, modulus, two_adic_root, values, Scalar};
use vstd::arithmetic::div_mod::lemma_mod_bound;
use vstd::prelude::*;

verus! {

/// Whether `n` is a positive power of two.
pub open spec fn is_power_of_two(n: nat) -> bool
    decreases n,
{
    if n == 1 {
        true
    } else if n == 0 || n % 2 == 1 {
        false
    } else {
        is_power_of_two(n / 2)
    }
}

/// How often `n` can be halved before it reaches one.
pub open spec fn log2(n: nat) -> nat
    decreases n,
{
    if n <= 1 {
        0
    } else {
        1 + log2(n / 2)
    }
}

/// `a` after squaring it `times` times in the field.
pub open spec fn squared_times(a: nat, times: nat) -> nat
    decreases times,
{
    if times == 0 {
        a
    } else {
        let b = squared_times(a, (times - 1) as nat);
        fmul(b, b)
    }
}

/// The sizes for which the field holds a domain: powers of two below 2^32.
pub open spec fn domain_supported(size: nat) -> bool {
    is_power_of_two(size) && log2(size) < 32
}

/// The generator of the domain of `size` points: the root of order 2^32, squared
/// once for each halving that separates `size` from 2^32.
pub open spec fn domain_generator(size: nat) -> nat {
    squared_times(two_adic_root(), (32 - log2(size)) as nat)
}

/// The points of the domain of `size` points, in order: the powers of its generator.
pub open spec fn domain_points(size: nat) -> Seq<nat> {
    Seq::new(size, |j: int| fpow(domain_generator(size), j as nat))
}

/// Every point of a domain is a field element.
pub proof fn lemma_domain_points_bounded(size: nat, j: int)
    requires
        0 <= j < size,
    ensures
        domain_points(size)[j] < modulus(),
{
    let g = domain_generator(size);
    if j > 0 {
        lemma_mod_bound((fpow(g, (j - 1) as nat) * g) as int, modulus() as int);
    }
}

/// Decides whether `n` is a positive power of two.
pub fn check_power_of_two(n: usize) -> (r: bool)
    ensures
        r == is_power_of_two(n as nat),
{
    let mut m: usize = n;
    while m > 1 && m % 2 == 0
        invariant
            is_power_of_two(m as nat) == is_power_of_two(n as nat),
        decreases m,
    {
        m = m / 2;
    }
    m == 1
}

/// A domain of `size` points with its generator.
pub struct EvaluationDomain {
    size: usize,
    generator: Scalar,
}

impl EvaluationDomain {
    /// The number of points.
    pub closed spec fn spec_size(&self) -> nat {
        self.size as nat
    }

    /// What links the two fields: the generator is the one of the size.
    #[verifier::type_invariant]
    pub closed spec fn well_formed(self) -> bool {
        domain_supported(self.size as nat) && self.generator@ == domain_generator(self.size as nat)
    }

    /// The domain of `size` points; `None` where the field holds none of that size.
    pub fn new(size: usize) -> (r: Option<EvaluationDomain>)
        ensures
            r is Some <==> domain_supported(size as nat),
            r matches Some(d) ==> d.spec_size() == size,
    {
        if !check_power_of_two(size) {
            return None;
        }
        let mut log: u32 = 0;
        let mut m: usize = size;
        while m > 1
            invariant
                log2(size as nat) == log + log2(m as nat),
                log <= 32,
            decreases m,
        {
            if log >= 32 {
                return None;
            }
            m = m / 2;
            log += 1;
        }
        if log >= 32 {
            return None;
        }
        let mut generator = Scalar::root_of_unity();
        let mut done: u32 = 0;
        while done < 32 - log
            invariant
                log < 32,
                done <= 32 - log,
                generator@ == squared_times(two_adic_root(), done as nat),
            decreases 32 - log - done,
        {
            generator = generator.times(&generator);
            done += 1;
        }
        Some(EvaluationDomain { size, generator })
    }

    /// The number of points.
    pub fn size(&self) -> (r: usize)
        ensures
            r == self.spec_size(),
    {
        self.size
    }

    /// The points of the domain, in order.
    pub fn points(&self) -> (r: Vec<Scalar>)
        ensures
            values(r@) == domain_points(self.spec_size()),
    {
        proof {
            use_type_invariant(self);
        }
        let mut out: Vec<Scalar> = Vec::new();
        let mut current = Scalar::one();
        let mut j: usize = 0;
        while j < self.size
            invariant
                j <= self.size,
                out.len() == j,
                current@ == fpow(self.generator@, j as nat),
                self.generator@ == domain_generator(self.size as nat),
                forall|i: int| 0 <= i < j ==> out[i]@ == fpow(self.generator@, i as nat),
            decreases self.size - j,
        {
            out.push(current);
            current = current.times(&self.generator);
            j += 1;
        }
        out
    }
}

} // verus!
