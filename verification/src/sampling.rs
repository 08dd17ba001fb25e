//! Quasi-random and stratified sampling: the exact parts.
//!
//! The Halton sequence takes, in each dimension, the van der Corput sequence
//! in a prime base: the n-th value is the base-b digits of n read backwards
//! after the radix point. The digits are computed here; a value in [0, 1)
//! is `Σ d_k / b^(k+1)`. Latin hypercube sampling places each variable in a
//! random permutation of n strata; the permutation is computed here from the
//! random choices of a Fisher–Yates shuffle.

use vstd::prelude::*;
use vstd::arithmetic::div_mod::{lemma_div_decreases, lemma_fundamental_div_mod, lemma_mod_bound};
use vstd::arithmetic::power::pow;
use vstd::arithmetic::mul::{lemma_mul_inequality, lemma_mul_is_distributive_add_other_way};
use crate::error::{is_invalid_parameter, CopulaError, Result};

verus! {

/// The digits of `n` in base `b`, least significant first; no digits for 0.
pub open spec fn digits_of(n: u64, b: u32) -> Seq<u32>
    decreases n,
    when b >= 2
{
    if n == 0 {
        seq![]
    } else {
        proof {
            lemma_div_decreases(n as int, b as int);
        }
        seq![(n % (b as u64)) as u32] + digits_of(n / (b as u64), b)
    }
}

/// The number written by the digits `ds` (least significant first) in base `b`.
pub open spec fn digits_value(ds: Seq<u32>, b: int) -> int
    decreases ds.len(),
{
    if ds.len() == 0 {
        0
    } else {
        ds[0] + b * digits_value(ds.drop_first(), b)
    }
}

/// The numerator of the radical inverse of the digits `ds` in base `b`:
/// the van der Corput value is this divided by `b^len`.
pub open spec fn radical_inverse_numerator(ds: Seq<u32>, b: int) -> int
    decreases ds.len(),
{
    if ds.len() == 0 {
        0
    } else {
        ds[0] * pow(b, (ds.len() - 1) as nat) + radical_inverse_numerator(ds.drop_first(), b)
    }
}

/// The digits of `n` in base `b` are its base-`b` representation: each is a
/// base-`b` digit, they write `n`, and the most significant one is not 0.
pub proof fn lemma_digits_represent(n: u64, b: u32)
    requires
        b >= 2,
    ensures
        digits_value(digits_of(n, b), b as int) == n,
        forall|k: int|
            0 <= k < digits_of(n, b).len() ==> #[trigger] digits_of(n, b)[k] < b,
        digits_of(n, b).len() > 0 ==> digits_of(n, b).last() != 0,
        digits_of(n, b).len() == 0 <==> n == 0,
    decreases n,
{
    if n > 0 {
        let q = n / (b as u64);
        let r = n % (b as u64);
        lemma_div_decreases(n as int, b as int);
        lemma_fundamental_div_mod(n as int, b as int);
        lemma_mod_bound(n as int, b as int);
        lemma_digits_represent(q, b);
        let ds = digits_of(n, b);
        assert(ds.drop_first() =~= digits_of(q, b));
        if q == 0 {
            assert(r != 0);
        }
    }
}

/// The radical inverse of base-`b` digits is below 1: its numerator is less
/// than `b^len`.
pub proof fn lemma_radical_inverse_below_one(ds: Seq<u32>, b: int)
    requires
        b >= 2,
        forall|k: int| 0 <= k < ds.len() ==> #[trigger] ds[k] < b,
    ensures
        0 <= radical_inverse_numerator(ds, b) < pow(b, ds.len() as nat),
    decreases ds.len(),
{
    reveal(pow);
    if ds.len() > 0 {
        let rest = ds.drop_first();
        lemma_radical_inverse_below_one(rest, b);
        let p = pow(b, rest.len() as nat);
        assert(ds.len() - 1 == rest.len());
        assert(pow(b, ds.len() as nat) == b * p);
        assert(ds[0] < b);
        lemma_mul_inequality(ds[0] as int, b - 1, p);
        assert(ds[0] * p <= (b - 1) * p);
        lemma_mul_is_distributive_add_other_way(p, b - 1, 1);
        assert(0 <= ds[0] * p) by (nonlinear_arith)
            requires
                0 <= ds[0],
                0 < p,
        ;
    }
}

/// Every van der Corput value lies in [0, 1): for every index `n` and base
/// `b >= 2`, the radical inverse of the digits of `n` has a numerator in
/// `0 .. b^len`. So every coordinate of every Halton point, at whatever index
/// it is taken, lies in [0, 1).
pub proof fn lemma_van_der_corput_in_unit_interval(n: u64, b: u32)
    requires
        b >= 2,
    ensures
        0 <= radical_inverse_numerator(digits_of(n, b), b as int) < pow(
            b as int,
            digits_of(n, b).len(),
        ),
{
    lemma_digits_represent(n, b);
    let ds = digits_of(n, b);
    assert forall|k: int| 0 <= k < ds.len() implies #[trigger] ds[k] < b as int by {}
    lemma_radical_inverse_below_one(ds, b as int);
}

/// The bases of the Halton sequence: the first 16 primes.
pub open spec fn halton_primes() -> Seq<u32> {
    seq![2, 3, 5, 7, 11, 13, 17, 19, 23, 29, 31, 37, 41, 43, 47, 53]
}

/// `p` is a prime number.
pub open spec fn is_prime(p: int) -> bool {
    p >= 2 && forall|d: int| 2 <= d < p ==> #[trigger] (p % d) != 0
}

/// The bases of the Halton sequence are the first 16 primes, none left out:
/// every prime up to 53 is a base, and no base exceeds 53.
pub proof fn lemma_halton_bases_are_the_first_primes()
    ensures
        forall|k: int| 0 <= k < halton_primes().len() ==> #[trigger] halton_primes()[k] <= 53,
        forall|p: int|
            2 <= p <= 53 && #[trigger] is_prime(p) ==> exists|k: int|
                0 <= k < halton_primes().len() && halton_primes()[k] == p,
{
    assert forall|p: int|
        2 <= p <= 53 && #[trigger] is_prime(p) implies exists|k: int|
            0 <= k < halton_primes().len() && halton_primes()[k] == p by {
        if p > 2 {
            assert(p % 2 != 0);
        }
        if p > 3 {
            assert(p % 3 != 0);
        }
        if p > 5 {
            assert(p % 5 != 0);
        }
        if p > 7 {
            assert(p % 7 != 0);
        }
        if p == 2 {
            assert(halton_primes()[0] == 2);
        }
        if p == 3 {
            assert(halton_primes()[1] == 3);
        }
        if p == 5 {
            assert(halton_primes()[2] == 5);
        }
        if p == 7 {
            assert(halton_primes()[3] == 7);
        }
        if p == 11 {
            assert(halton_primes()[4] == 11);
        }
        if p == 13 {
            assert(halton_primes()[5] == 13);
        }
        if p == 17 {
            assert(halton_primes()[6] == 17);
        }
        if p == 19 {
            assert(halton_primes()[7] == 19);
        }
        if p == 23 {
            assert(halton_primes()[8] == 23);
        }
        if p == 29 {
            assert(halton_primes()[9] == 29);
        }
        if p == 31 {
            assert(halton_primes()[10] == 31);
        }
        if p == 37 {
            assert(halton_primes()[11] == 37);
        }
        if p == 41 {
            assert(halton_primes()[12] == 41);
        }
        if p == 43 {
            assert(halton_primes()[13] == 43);
        }
        if p == 47 {
            assert(halton_primes()[14] == 47);
        }
        if p == 53 {
            assert(halton_primes()[15] == 53);
        }
    }
}

/// No integer in `2..p` divides `p`.
spec fn no_small_divisor(p: u32) -> bool {
    forall|d: u32| 2 <= d < p ==> #[trigger] (p % d) != 0
}

/// The bases of the Halton sequence are distinct primes, in increasing
/// order, so the sequences of different dimensions are independent.
pub proof fn lemma_halton_bases_are_primes()
    ensures
        forall|k: int| 0 <= k < halton_primes().len() ==> is_prime(#[trigger] halton_primes()[k] as int),
        forall|a: int, b: int|
            0 <= a < b < halton_primes().len() ==> #[trigger] halton_primes()[a]
                < #[trigger] halton_primes()[b],
{
    assert(forall|d: u32| 2 <= d < 2 ==> #[trigger] (2u32 % d) != 0) by (bit_vector);
    assert(forall|d: u32| 2 <= d < 3 ==> #[trigger] (3u32 % d) != 0) by (bit_vector);
    assert(forall|d: u32| 2 <= d < 5 ==> #[trigger] (5u32 % d) != 0) by (bit_vector);
    assert(forall|d: u32| 2 <= d < 7 ==> #[trigger] (7u32 % d) != 0) by (bit_vector);
    assert(forall|d: u32| 2 <= d < 11 ==> #[trigger] (11u32 % d) != 0) by (bit_vector);
    assert(forall|d: u32| 2 <= d < 13 ==> #[trigger] (13u32 % d) != 0) by (bit_vector);
    assert(forall|d: u32| 2 <= d < 17 ==> #[trigger] (17u32 % d) != 0) by (bit_vector);
    assert(forall|d: u32| 2 <= d < 19 ==> #[trigger] (19u32 % d) != 0) by (bit_vector);
    assert(forall|d: u32| 2 <= d < 23 ==> #[trigger] (23u32 % d) != 0) by (bit_vector);
    assert(forall|d: u32| 2 <= d < 29 ==> #[trigger] (29u32 % d) != 0) by (bit_vector);
    assert(forall|d: u32| 2 <= d < 31 ==> #[trigger] (31u32 % d) != 0) by (bit_vector);
    assert(forall|d: u32| 2 <= d < 37 ==> #[trigger] (37u32 % d) != 0) by (bit_vector);
    assert(forall|d: u32| 2 <= d < 41 ==> #[trigger] (41u32 % d) != 0) by (bit_vector);
    assert(forall|d: u32| 2 <= d < 43 ==> #[trigger] (43u32 % d) != 0) by (bit_vector);
    assert(forall|d: u32| 2 <= d < 47 ==> #[trigger] (47u32 % d) != 0) by (bit_vector);
    assert(forall|d: u32| 2 <= d < 53 ==> #[trigger] (53u32 % d) != 0) by (bit_vector);
    assert forall|k: int| 0 <= k < halton_primes().len() implies is_prime(
        #[trigger] halton_primes()[k] as int,
    ) by {
        let p = halton_primes()[k];
        assert(no_small_divisor(p));
        assert forall|d: int| 2 <= d < p implies #[trigger] ((p as int) % d) != 0 by {
            assert((p % (d as u32)) != 0);
        }
    }
}

/// Halton sequence generator for low-discrepancy sampling.
///
/// A deterministic low-discrepancy sequence useful for quasi-Monte Carlo
/// methods. Dimension `k` uses the `k`-th prime as its base; there are
/// bases for 1 to 16 dimensions.
#[derive(Debug)]
pub struct HaltonSequence {
    dimension: usize,
    bases: Vec<u32>,
    index: u64,
}

impl HaltonSequence {
    #[verifier::type_invariant]
    spec fn bases_are_primes(self) -> bool {
        &&& 1 <= self.bases@.len() <= 16
        &&& self.bases@.len() == self.dimension
        &&& self.bases@ == halton_primes().take(self.bases@.len() as int)
    }

    /// The dimension the sequence was created with.
    pub closed spec fn spec_dimension(&self) -> nat {
        self.dimension as nat
    }

    /// The bases in use, one per dimension.
    pub closed spec fn spec_bases(&self) -> Seq<u32> {
        self.bases@
    }

    /// The index of the next point.
    pub closed spec fn spec_index(&self) -> u64 {
        self.index
    }

    /// Create a new Halton sequence generator, starting at index 0, whose
    /// bases are the first `dimension` primes. There are bases for 1 to 16
    /// dimensions.
    pub fn new(dimension: usize) -> (h: Self)
        requires
            1 <= dimension <= 16,
        ensures
            h.spec_dimension() == dimension,
            h.spec_bases() == halton_primes().take(dimension as int),
            h.spec_index() == 0,
    {
        let primes: Vec<u32> = vec![2, 3, 5, 7, 11, 13, 17, 19, 23, 29, 31, 37, 41, 43, 47, 53];
        assert(primes@ =~= halton_primes());
        let count = dimension;
        let mut bases: Vec<u32> = Vec::new();
        for k in 0..count
            invariant
                count <= 16,
                primes@ == halton_primes(),
                bases@ == halton_primes().take(k as int),
        {
            bases.push(primes[k]);
            assert(halton_primes().take(k + 1) =~= halton_primes().take(k as int).push(primes@[k as int]));
        }
        HaltonSequence { dimension, bases, index: 0 }
    }

    /// Create a new Halton sequence generator, as [`HaltonSequence::new`],
    /// for any requested dimension: there are bases for 1 to 16 dimensions,
    /// and any other dimension is refused with "HaltonSequence dimension must
    /// be between 1 and 16".
    pub fn try_new(dimension: usize) -> (r: Result<Self>)
        ensures
            r is Ok <==> 1 <= dimension <= 16,
            r is Err ==> is_invalid_parameter(
                r->Err_0,
                "HaltonSequence dimension must be between 1 and 16"@,
            ),
            r is Ok ==> {
                &&& r->Ok_0.spec_dimension() == dimension
                &&& r->Ok_0.spec_bases() == halton_primes().take(dimension as int)
                &&& r->Ok_0.spec_index() == 0
            },
    {
        if 1 <= dimension && dimension <= 16 {
            Ok(HaltonSequence::new(dimension))
        } else {
            Err(CopulaError::invalid_parameter("HaltonSequence dimension must be between 1 and 16"))
        }
    }

    /// The dimension.
    pub fn dimension(&self) -> (d: usize)
        ensures
            d == self.spec_dimension(),
    {
        self.dimension
    }

    /// The bases, one per dimension.
    pub fn bases(&self) -> (b: &Vec<u32>)
        ensures
            b@ == self.spec_bases(),
    {
        &self.bases
    }

    /// The index of the next point.
    pub fn index(&self) -> (i: u64)
        ensures
            i == self.spec_index(),
    {
        self.index
    }

    /// Advance the sequence: the digits of the current index in each base,
    /// from which the next point is formed, after which the index grows by 1.
    pub fn next_digits(&mut self) -> (point: Vec<Vec<u32>>)
        requires
            old(self).spec_index() < u64::MAX,
        ensures
            final(self).spec_index() == old(self).spec_index() + 1,
            final(self).spec_bases() == old(self).spec_bases(),
            final(self).spec_dimension() == old(self).spec_dimension(),
            point@.len() == old(self).spec_bases().len(),
            point@.len() == old(self).spec_dimension(),
            forall|k: int|
                0 <= k < point@.len() ==> (#[trigger] point@[k])@ == digits_of(
                    old(self).spec_index(),
                    old(self).spec_bases()[k],
                ),
    {
        proof {
            use_type_invariant(&*self);
        }
        let mut point: Vec<Vec<u32>> = Vec::new();
        let n = self.bases.len();
        assert forall|t: int| 0 <= t < self.bases@.len() implies #[trigger] self.bases@[t] >= 2 by {
            assert(self.bases@[t] == halton_primes()[t]);
        }
        for k in 0..n
            invariant
                n == self.bases@.len(),
                forall|t: int| 0 <= t < self.bases@.len() ==> #[trigger] self.bases@[t] >= 2,
                point@.len() == k,
                forall|t: int|
                    0 <= t < k ==> (#[trigger] point@[t])@ == digits_of(self.index, self.bases@[t]),
        {
            point.push(base_digits(self.index, self.bases[k]));
        }
        self.index = self.index + 1;
        point
    }
}

impl Clone for HaltonSequence {
    /// A copy of the generator, at the same index.
    fn clone(&self) -> (h: Self)
        ensures
            h.spec_dimension() == self.spec_dimension(),
            h.spec_bases() == self.spec_bases(),
            h.spec_index() == self.spec_index(),
    {
        proof {
            use_type_invariant(self);
        }
        let mut bases: Vec<u32> = Vec::new();
        let n = self.bases.len();
        for k in 0..n
            invariant
                n == self.bases@.len(),
                bases@ == self.bases@.take(k as int),
        {
            bases.push(self.bases[k]);
            assert(self.bases@.take(k + 1) =~= self.bases@.take(k as int).push(self.bases@[k as int]));
        }
        assert(self.bases@.take(n as int) =~= self.bases@);
        HaltonSequence { dimension: self.dimension, bases, index: self.index }
    }
}

/// The digits of `n` in base `base`, least significant first (no digits for
/// 0): the van der Corput value of `n` is `Σ d_k / base^(k+1)`.
pub fn base_digits(n: u64, base: u32) -> (ds: Vec<u32>)
    requires
        base >= 2,
    ensures
        ds@ == digits_of(n, base),
        digits_value(ds@, base as int) == n,
        forall|k: int| 0 <= k < ds@.len() ==> #[trigger] ds@[k] < base,
        ds@.len() > 0 ==> ds@.last() != 0,
{
    let mut ds: Vec<u32> = Vec::new();
    let mut q: u64 = n;
    let b = base as u64;
    while q > 0
        invariant
            b == base,
            base >= 2,
            ds@ + digits_of(q, base) == digits_of(n, base),
        decreases q,
    {
        proof {
            lemma_div_decreases(q as int, b as int);
            lemma_mod_bound(q as int, b as int);
        }
        let digit = (q % b) as u32;
        let ghost before = ds@;
        ds.push(digit);
        assert(digits_of(q, base) == seq![digit] + digits_of(q / b, base));
        assert(ds@ + digits_of(q / b, base) =~= before + digits_of(q, base));
        q = q / b;
    }
    assert(ds@ =~= digits_of(n, base));
    proof {
        lemma_digits_represent(n, base);
    }
    ds
}

/// The Fisher–Yates shuffle of `0..n` driven by the given choices: for
/// `i = n - 1` down to 1, position `i` is swapped with position
/// `swaps[n - 1 - i]`, which must lie in `0..=i`.
pub open spec fn shuffled(perm: Seq<usize>, swaps: Seq<usize>, i: int) -> Seq<usize>
    decreases i,
{
    if i <= 0 {
        perm
    } else {
        let t = swaps[perm.len() - 1 - i] as int;
        shuffled(perm.update(i, perm[t]).update(t, perm[i]), swaps, i - 1)
    }
}

/// `s` holds each of `0..s.len()` exactly once.
pub open spec fn is_permutation(s: Seq<usize>) -> bool {
    &&& forall|k: int| 0 <= k < s.len() ==> #[trigger] s[k] < s.len()
    &&& forall|a: int, b: int| 0 <= a < b < s.len() ==> #[trigger] s[a] != #[trigger] s[b]
}

/// `swaps` is a valid sequence of Fisher–Yates choices for `n` positions: one
/// choice per step, the `k`-th drawn from `0..=n-1-k`.
pub open spec fn valid_choices(swaps: Seq<usize>, n: int) -> bool {
    &&& swaps.len() == n - 1
    &&& forall|k: int| 0 <= k < swaps.len() ==> #[trigger] swaps[k] <= n - 1 - k
}

/// Exchanging two positions of a permutation gives a permutation.
proof fn lemma_swap_keeps_permutation(p: Seq<usize>, i: int, t: int)
    requires
        is_permutation(p),
        0 <= i < p.len(),
        0 <= t < p.len(),
    ensures
        is_permutation(p.update(i, p[t]).update(t, p[i])),
{
    let q = p.update(i, p[t]).update(t, p[i]);
    assert forall|x: int, y: int| 0 <= x < y < q.len() implies #[trigger] q[x] != #[trigger] q[y] by {
        let sx = if x == t { i } else if x == i { t } else { x };
        let sy = if y == t { i } else if y == i { t } else { y };
        assert(q[x] == p[sx]);
        assert(q[y] == p[sy]);
    }
}

/// The steps from `i` down never touch the positions above `i`, and keep the
/// length.
proof fn lemma_shuffled_frame(p: Seq<usize>, swaps: Seq<usize>, i: int)
    requires
        valid_choices(swaps, p.len() as int),
        0 <= i < p.len(),
    ensures
        shuffled(p, swaps, i).len() == p.len(),
        forall|j: int| i < j < p.len() ==> #[trigger] shuffled(p, swaps, i)[j] == p[j],
    decreases i,
{
    if i > 0 {
        let n = p.len() as int;
        let t = swaps[n - 1 - i] as int;
        assert(swaps[n - 1 - i] <= n - 1 - (n - 1 - i));
        let q = p.update(i, p[t]).update(t, p[i]);
        lemma_shuffled_frame(q, swaps, i - 1);
    }
}

/// Starting from the same permutation, two valid choice sequences that
/// differ at some step from `i` down end in different permutations.
proof fn lemma_shuffled_separates(p: Seq<usize>, s1: Seq<usize>, s2: Seq<usize>, i: int, k: int)
    requires
        is_permutation(p),
        valid_choices(s1, p.len() as int),
        valid_choices(s2, p.len() as int),
        0 <= i < p.len(),
        p.len() - 1 - i <= k < p.len() - 1,
        s1[k] != s2[k],
    ensures
        shuffled(p, s1, i) != shuffled(p, s2, i),
    decreases i,
{
    let n = p.len() as int;
    let k0 = n - 1 - i;
    let t1 = s1[k0] as int;
    let t2 = s2[k0] as int;
    assert(s1[k0] <= n - 1 - k0 && s2[k0] <= n - 1 - k0);
    let p1 = p.update(i, p[t1]).update(t1, p[i]);
    let p2 = p.update(i, p[t2]).update(t2, p[i]);
    lemma_swap_keeps_permutation(p, i, t1);
    lemma_swap_keeps_permutation(p, i, t2);
    if t1 == t2 {
        lemma_shuffled_separates(p1, s1, s2, i - 1, k);
    } else {
        lemma_shuffled_frame(p1, s1, i - 1);
        lemma_shuffled_frame(p2, s2, i - 1);
        assert(p1[i] == p[t1]);
        assert(p2[i] == p[t2]);
        if t1 < t2 {
            assert(p[t1] != p[t2]);
        } else {
            assert(p[t2] != p[t1]);
        }
        assert(shuffled(p, s1, i)[i] == p1[i]);
        assert(shuffled(p, s2, i)[i] == p2[i]);
    }
}

/// The Fisher–Yates shuffle loses no randomness: distinct valid choice
/// sequences give distinct permutations of `0..n`. (As there are `n!`
/// valid choice sequences, every permutation is reached exactly once.)
pub proof fn lemma_shuffle_choices_are_distinguished(n: usize, s1: Seq<usize>, s2: Seq<usize>)
    requires
        n > 0,
        valid_choices(s1, n as int),
        valid_choices(s2, n as int),
        s1 != s2,
    ensures
        shuffled(Seq::new(n as nat, |k: int| k as usize), s1, n - 1) != shuffled(
            Seq::new(n as nat, |k: int| k as usize),
            s2,
            n - 1,
        ),
{
    let start = Seq::new(n as nat, |k: int| k as usize);
    assert forall|a: int, b: int| 0 <= a < b < start.len() implies #[trigger] start[a]
        != #[trigger] start[b] by {
        assert(start[a] == a && start[b] == b);
    }
    assert(is_permutation(start));
    if forall|k: int| 0 <= k < s1.len() ==> s1[k] == s2[k] {
        assert(s1 =~= s2);
    }
    let k = choose|k: int| 0 <= k < s1.len() && s1[k] != s2[k];
    lemma_shuffled_separates(start, s1, s2, n - 1, k);
}

/// A random permutation of `0..n` as a Fisher–Yates shuffle computes it,
/// given the random choices it makes: `swaps[k]` is the position drawn from
/// `0..=n-1-k` when placing position `n - 1 - k`.
pub fn shuffle_indices(n: usize, swaps: &Vec<usize>) -> (perm: Vec<usize>)
    requires
        n > 0 ==> swaps@.len() == n - 1,
        forall|k: int| 0 <= k < swaps@.len() ==> #[trigger] swaps@[k] <= n - 1 - k,
    ensures
        perm@ == shuffled(Seq::new(n as nat, |k: int| k as usize), swaps@, n - 1),
        perm@.len() == n,
        is_permutation(perm@),
{
    let mut perm: Vec<usize> = Vec::new();
    for k in 0..n
        invariant
            perm@ == Seq::new(k as nat, |t: int| t as usize),
    {
        perm.push(k);
        assert(perm@ =~= Seq::new((k + 1) as nat, |t: int| t as usize));
    }
    let ghost start = perm@;
    assert(is_permutation(start));
    if n == 0 {
        return perm;
    }
    let mut i: usize = n - 1;
    while i > 0
        invariant
            n > 0,
            i < n,
            swaps@.len() == n - 1,
            forall|k: int| 0 <= k < swaps@.len() ==> #[trigger] swaps@[k] <= n - 1 - k,
            perm@.len() == n,
            is_permutation(perm@),
            shuffled(perm@, swaps@, i as int) == shuffled(start, swaps@, n - 1),
        decreases i,
    {
        let t = swaps[n - 1 - i];
        let ghost before = perm@;
        let a = perm[i];
        let b = perm[t];
        perm.set(i, b);
        perm.set(t, a);
        assert(perm@ == before.update(i as int, before[t as int]).update(t as int, before[i as int]));
        assert forall|x: int, y: int| 0 <= x < y < perm@.len() implies #[trigger] perm@[x]
            != #[trigger] perm@[y] by {
            let sx = if x == i { t as int } else if x == t { i as int } else { x };
            let sy = if y == i { t as int } else if y == t { i as int } else { y };
            assert(perm@[x] == before[sx]);
            assert(perm@[y] == before[sy]);
        }
        i = i - 1;
    }
    perm
}

} // verus!
