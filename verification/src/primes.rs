//! The primes that drive the prime walk: a sieve of Eratosthenes up to a
//! limit, handed out in increasing order.

use vstd::prelude::*;

use vstd::arithmetic::div_mod::lemma_fundamental_div_mod;
use vstd::arithmetic::div_mod::lemma_fundamental_div_mod_converse;

verus! {

/// Primality: at least two, and no smaller divisor but one.
pub open spec fn is_prime(n: int) -> bool {
    n >= 2 && forall|d: int| 2 <= d < n ==> #[trigger] (n % d) != 0
}

/// How many primes lie in `[2, n]`.
pub open spec fn primes_up_to(n: int) -> int
    decreases n,
{
    if n < 2 {
        0
    } else {
        primes_up_to(n - 1) + if is_prime(n) {
            1int
        } else {
            0int
        }
    }
}

/// The prime count never decreases as the bound grows.
pub proof fn lemma_primes_up_to_monotonic(a: int, b: int)
    requires
        a <= b,
    ensures
        primes_up_to(a) <= primes_up_to(b),
    decreases b - a,
{
    if a < b {
        lemma_primes_up_to_monotonic(a, b - 1);
    }
}

/// `n` has a factorization `d * k` with `2 <= d < p` and `d <= k`: the
/// composites the sieve has crossed out once every divisor below `p` has
/// been processed.
pub open spec fn has_small_factor(n: int, p: int) -> bool {
    exists|d: int, k: int| 2 <= d < p && d <= k && n == #[trigger] (d * k)
}

/// Raising the divisor bound by one admits exactly the multiples `p * k`
/// with `k` at least `p`.
pub proof fn lemma_small_factor_step(n: int, p: int)
    requires
        p >= 2,
    ensures
        has_small_factor(n, p + 1) <==> (has_small_factor(n, p) || exists|k: int|
            p <= k && n == #[trigger] (p * k)),
{
    if has_small_factor(n, p + 1) {
        let (d, k) = choose|d: int, k: int| 2 <= d < p + 1 && d <= k && n == #[trigger] (d * k);
        if d < p {
            assert(2 <= d < p && d <= k && n == d * k);
        } else {
            assert(p <= k && n == p * k);
        }
    }
    if has_small_factor(n, p) {
        let (d, k) = choose|d: int, k: int| 2 <= d < p && d <= k && n == #[trigger] (d * k);
        assert(2 <= d < p + 1 && d <= k && n == d * k);
    }
    if exists|k: int| p <= k && n == #[trigger] (p * k) {
        let k = choose|k: int| p <= k && n == #[trigger] (p * k);
        assert(2 <= p < p + 1 && p <= k && n == p * k);
    }
}

/// Once the divisor bound has passed the square root of `n`, surviving the
/// sieve is exactly primality.
pub proof fn lemma_sieved_is_prime(n: int, p: int)
    requires
        2 <= n,
        2 <= p,
        n < p * p,
    ensures
        !has_small_factor(n, p) <==> is_prime(n),
{
    if has_small_factor(n, p) {
        let (d, k) = choose|d: int, k: int| 2 <= d < p && d <= k && n == #[trigger] (d * k);
        assert(d < n && k >= 2) by (nonlinear_arith)
            requires
                2 <= d <= k,
                n == d * k,
        ;
        lemma_fundamental_div_mod_converse(n, d, k, 0);
        assert(n % d == 0);
        assert(!is_prime(n));
    }
    if !is_prime(n) {
        let d = choose|d: int| 2 <= d < n && #[trigger] (n % d) == 0;
        lemma_fundamental_div_mod(n, d);
        let k = n / d;
        assert(n == d * k);
        assert(k >= 2) by (nonlinear_arith)
            requires
                2 <= d < n,
                n == d * k,
        ;
        if d <= k {
            assert(d < p) by (nonlinear_arith)
                requires
                    n < p * p,
                    2 <= d <= k,
                    n == d * k,
                    p >= 0,
            ;
            assert(2 <= d < p && d <= k && n == d * k);
        } else {
            assert(k < p) by (nonlinear_arith)
                requires
                    n < p * p,
                    2 <= k <= d,
                    n == d * k,
                    p >= 0,
            ;
            assert(n == k * d) by (nonlinear_arith)
                requires
                    n == d * k,
            ;
            assert(2 <= k < p && k <= d && n == k * d);
        }
        assert(has_small_factor(n, p));
    }
}

/// The primes up to a limit, in increasing order, handed out one by one.
pub struct Primes {
    /// Every prime at most the limit, increasing.
    pub primes: Vec<u64>,
    /// How many primes have been handed out so far.
    pub index: usize,
}

/// `s` lists, in increasing order, exactly the primes in `[2, limit]`.
pub open spec fn lists_primes_up_to(s: Seq<u64>, limit: int) -> bool {
    &&& forall|i: int, j: int| 0 <= i < j < s.len() ==> s[i] < s[j]
    &&& forall|i: int| 0 <= i < s.len() ==> is_prime(#[trigger] s[i] as int) && 2 <= s[i] <= limit
    &&& forall|n: int| 2 <= n <= limit && is_prime(n) ==> s.contains(n as u64)
    &&& s.len() == primes_up_to(limit)
    &&& forall|i: int| 0 <= i < s.len() ==> primes_up_to(#[trigger] s[i] as int) == i + 1
    &&& forall|i: int| 0 <= i < s.len() ==> primes_up_to(#[trigger] s[i] as int - 1) == i
}

impl Primes {
    /// The sieve's output for the given limit, positioned at its first prime.
    pub fn with_limit(limit: usize) -> (primes: Primes)
        requires
            limit <= 0x7fff_ffff,
        ensures
            lists_primes_up_to(primes.primes@, limit as int),
            primes.index == 0,
    {
        let primes = Self::sieve_of_eratosthenes(limit);
        Primes { primes, index: 0 }
    }

    /// Crosses out every multiple of every number below the limit's square
    /// root and collects the survivors: exactly the primes in `[2, limit]`,
    /// in increasing order.
    pub fn sieve_of_eratosthenes(limit: usize) -> (primes: Vec<u64>)
        requires
            limit <= 0x7fff_ffff,
        ensures
            lists_primes_up_to(primes@, limit as int),
    {
        if limit < 2 {
            let primes: Vec<u64> = Vec::new();
            return primes;
        }
        let mut is_prime_flag: Vec<bool> = Vec::new();
        let mut k: usize = 0;
        while k < limit + 1
            invariant
                limit <= 0x7fff_ffff,
                k <= limit + 1,
                is_prime_flag@.len() == k,
                forall|n: int| 0 <= n < k ==> is_prime_flag@[n] == true,
            decreases limit + 1 - k,
        {
            is_prime_flag.push(true);
            k = k + 1;
        }
        is_prime_flag[0] = false;
        is_prime_flag[1] = false;

        let mut p: usize = 2;
        while p * p <= limit
            invariant
                limit <= 0x7fff_ffff,
                2 <= p <= 0xb506,
                p * p <= 0x8002_0000,
                is_prime_flag@.len() == limit + 1,
                is_prime_flag@[0] == false,
                is_prime_flag@[1] == false,
                forall|n: int|
                    2 <= n <= limit ==> (is_prime_flag@[n] <==> !has_small_factor(
                        n,
                        p as int,
                    )),
            decreases limit + 1 - p,
        {
            proof {
                assert(p <= limit) by (nonlinear_arith)
                    requires
                        2 <= p,
                        p * p <= limit,
                ;
            }
            if is_prime_flag[p] {
                let mut m: usize = p * p;
                let ghost kc: int = p as int;
                while m <= limit
                    invariant
                        limit <= 0x7fff_ffff,
                        2 <= p <= 0xb506,
                        p * p <= limit,
                        p <= kc,
                        m == p * kc,
                        is_prime_flag@.len() == limit + 1,
                        is_prime_flag@[0] == false,
                        is_prime_flag@[1] == false,
                        forall|n: int|
                            2 <= n <= limit ==> (is_prime_flag@[n] <==> !has_small_factor(n, p as int)
                                && !(exists|q: int|
                                p <= q < kc && n == #[trigger] (p as int * q))),
                    decreases limit + p - m,
                {
                    proof {
                        assert(m >= 2 && p * (kc + 1) == m + p) by (nonlinear_arith)
                            requires
                                2 <= p <= kc,
                                m == p * kc,
                        ;
                        assert(forall|q: int|
                            p <= q && q != kc ==> #[trigger] (p as int * q) != m) by {
                            assert forall|q: int| p <= q && q != kc implies #[trigger] (p as int
                                * q) != m by {
                                assert(p as int * q != p as int * kc) by (nonlinear_arith)
                                    requires
                                        q != kc,
                                        p >= 2,
                                ;
                            }
                        }
                    }
                    is_prime_flag[m] = false;
                    proof {
                        assert(exists|q: int| p <= q < kc + 1 && m == #[trigger] (p as int * q));
                    }
                    m = m + p;
                    proof {
                        kc = kc + 1;
                    }
                }
                proof {
                    assert forall|n: int| 2 <= n <= limit implies (is_prime_flag@[n]
                        <==> !has_small_factor(n, p as int + 1)) by {
                        lemma_small_factor_step(n, p as int);
                        if exists|q: int| p <= q && n == #[trigger] (p as int * q) {
                            let q = choose|q: int| p <= q && n == #[trigger] (p as int * q);
                            assert(q < kc) by (nonlinear_arith)
                                requires
                                    n == p as int * q,
                                    m == p as int * kc,
                                    n < m,
                                    p >= 2,
                                    q >= 0,
                            ;
                            assert(p <= q < kc && n == (p as int * q));
                        }
                        if exists|q: int| p <= q < kc && n == #[trigger] (p as int * q) {
                            let q = choose|q: int| p <= q < kc && n == #[trigger] (p as int * q);
                            assert(p <= q && n == (p as int * q));
                        }
                    }
                }
            } else {
                proof {
                    assert(has_small_factor(p as int, p as int));
                    let (d, dk) = choose|d: int, k: int|
                        2 <= d < p && d <= k && p as int == #[trigger] (d * k);
                    assert forall|n: int| 2 <= n <= limit implies (is_prime_flag@[n]
                        <==> !has_small_factor(n, p as int + 1)) by {
                        lemma_small_factor_step(n, p as int);
                        if exists|q: int| p <= q && n == #[trigger] (p as int * q) {
                            let q = choose|q: int| p <= q && n == #[trigger] (p as int * q);
                            assert(d <= dk * q && n == d * (dk * q)) by (nonlinear_arith)
                                requires
                                    2 <= d <= dk,
                                    p as int == d * dk,
                                    p <= q,
                                    n == p as int * q,
                            ;
                            assert(has_small_factor(n, p as int));
                        }
                    }
                }
            }
            proof {
                assert(p <= 0xb504 && (p + 1) * (p + 1) <= 0x8002_0000) by (nonlinear_arith)
                    requires
                        2 <= p,
                        p * p <= 0x7fff_ffff,
                ;
            }
            p = p + 1;
        }

        proof {
            assert forall|n: int| 2 <= n <= limit implies (is_prime_flag@[n] <==> is_prime(
                n,
            )) by {
                assert(n < p * p) by (nonlinear_arith)
                    requires
                        n <= limit,
                        limit < p * p,
                ;
                lemma_sieved_is_prime(n, p as int);
            }
        }

        let mut primes: Vec<u64> = Vec::new();
        let mut num: usize = 2;
        proof {
            assert(primes_up_to(1) == 0);
        }
        while num <= limit
            invariant
                limit <= 0x7fff_ffff,
                2 <= num <= limit + 1,
                is_prime_flag@.len() == limit + 1,
                forall|n: int| 2 <= n <= limit ==> (is_prime_flag@[n] <==> is_prime(n)),
                forall|i: int, j: int| 0 <= i < j < primes@.len() ==> primes@[i] < primes@[j],
                forall|i: int|
                    0 <= i < primes@.len() ==> is_prime(#[trigger] primes@[i] as int) && 2
                        <= primes@[i] < num,
                forall|n: int| 2 <= n < num && is_prime(n) ==> primes@.contains(n as u64),
                primes@.len() == primes_up_to(num - 1),
                forall|i: int|
                    0 <= i < primes@.len() ==> primes_up_to(#[trigger] primes@[i] as int) == i + 1,
                forall|i: int|
                    0 <= i < primes@.len() ==> primes_up_to(#[trigger] primes@[i] as int - 1) == i,
            decreases limit + 1 - num,
        {
            if is_prime_flag[num] {
                let ghost before = primes@;
                primes.push(num as u64);
                proof {
                    assert(primes@.len() == before.len() + 1);
                    assert(primes@[before.len() as int] == num as u64);
                    assert(forall|i: int| 0 <= i < before.len() ==> primes@[i] == before[i]);
                    assert(primes_up_to(num as int) == primes_up_to(num - 1) + 1);
                    assert forall|n2: int|
                        2 <= n2 < num + 1 && is_prime(n2) implies primes@.contains(
                        n2 as u64,
                    ) by {
                        if n2 < num {
                            let i = choose|i: int|
                                0 <= i < before.len() && before[i] == n2 as u64;
                            assert(primes@[i] == n2 as u64);
                        } else {
                            assert(primes@[before.len() as int] == n2 as u64);
                        }
                    }
                }
            }
            num = num + 1;
        }
        primes
    }

    /// Hands out the next prime, in increasing order, or `None` once every
    /// prime up to the limit has been handed out.
    pub fn next(&mut self) -> (next_prime: Option<u64>)
        ensures
            old(self).index < old(self).primes@.len() ==> next_prime == Some(
                old(self).primes@[old(self).index as int],
            ) && final(self).index == old(self).index + 1,
            old(self).index >= old(self).primes@.len() ==> next_prime is None && final(self).index
                == old(self).index,
            final(self).primes@ == old(self).primes@,
    {
        if self.index < self.primes.len() {
            let prime = self.primes[self.index];
            self.index = self.index + 1;
            Some(prime)
        } else {
            None
        }
    }
}

} // verus!
