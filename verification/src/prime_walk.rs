//! The prime walk: a lattice path that changes direction at every prime.
//!
//! The walk starts at the origin heading along the first axis and takes one
//! unit step per point. Whenever the step number is prime, it turns to the
//! next of six axis directions, cycling. Colors come precomputed, one per
//! step, from the host's gradient.

use vstd::prelude::*;

use vstd::arithmetic::div_mod::lemma_add_mod_noop;

use crate::primes::Primes;
use crate::primes::is_prime;
use crate::primes::lemma_primes_up_to_monotonic;
use crate::primes::lists_primes_up_to;
use crate::primes::primes_up_to;
use crate::space::Pixel3D;
use crate::space::Point3;

verus! {

/// The six axis directions the walk cycles through, in order.
pub open spec fn direction(d: int) -> (int, int, int) {
    if d == 0 {
        (1, 0, 0)
    } else if d == 1 {
        (0, 1, 0)
    } else if d == 2 {
        (0, 0, 1)
    } else if d == 3 {
        (-1, 0, 0)
    } else if d == 4 {
        (0, -1, 0)
    } else {
        (0, 0, -1)
    }
}

/// Where the walk stands before step `n`: the sum of the first `n` unit
/// steps, where the step taken at point `m` follows the direction that has
/// turned once for every prime at most `m`.
pub open spec fn walk_position(n: int) -> (int, int, int)
    decreases n,
{
    if n <= 0 {
        (0, 0, 0)
    } else {
        let prev = walk_position(n - 1);
        let dir = direction(primes_up_to(n - 1) % 6);
        (prev.0 + dir.0, prev.1 + dir.1, prev.2 + dir.2)
    }
}

/// The `d`-th of the six axis directions, as a unit step.
fn direction_step(d: usize) -> (step: (i64, i64, i64))
    requires
        d < 6,
    ensures
        (step.0 as int, step.1 as int, step.2 as int) == direction(d as int),
{
    if d == 0 {
        (1, 0, 0)
    } else if d == 1 {
        (0, 1, 0)
    } else if d == 2 {
        (0, 0, 1)
    } else if d == 3 {
        (-1, 0, 0)
    } else if d == 4 {
        (0, -1, 0)
    } else {
        (0, 0, -1)
    }
}

/// Walks `steps` points of the prime walk, coloring the `n`-th point with
/// `colors[n]`: point `n` stands at `walk_position(n)`.
pub fn walk(steps: usize, colors: &Vec<(u8, u8, u8)>) -> (path: Vec<Pixel3D>)
    requires
        2 <= steps <= 0x7fff_ffff,
        colors@.len() >= steps,
    ensures
        path@.len() == steps,
        forall|m: int|
            0 <= m < steps ==> (#[trigger] path@[m]).color == colors@[m] && (
            path@[m].coordinate.x as int,
            path@[m].coordinate.y as int,
            path@[m].coordinate.z as int,
            ) == walk_position(m),
{
    let mut result: Vec<Pixel3D> = Vec::new();
    let mut x: i64 = 0;
    let mut y: i64 = 0;
    let mut z: i64 = 0;
    let mut dir_index: usize = 0;
    let mut dir: (i64, i64, i64) = (1, 0, 0);

    let mut primes = Primes::with_limit(steps);
    proof {
        assert(is_prime(2));
        assert(primes_up_to(1) == 0);
        assert(primes_up_to(2) == 1);
        lemma_primes_up_to_monotonic(2, steps as int);
    }
    let ghost prime_seq = primes.primes@;
    // The sieve holds at least one prime for any limit of at least two, so
    // the first draw cannot miss.
    let mut p: u64 = match primes.next() {
        Some(q) => q,
        None => {
            proof {
                assert(false);
            }
            1
        },
    };
    proof {
        assert(prime_seq[0] as int == 2) by {
            assert(primes_up_to(prime_seq[0] as int) == 1);
            assert(prime_seq.contains(2u64));
            let i = choose|i: int| 0 <= i < prime_seq.len() && prime_seq[i] == 2u64;
            if i > 0 {
                assert(prime_seq[0] < prime_seq[i]);
                assert(is_prime(prime_seq[0] as int));
            }
        }
    }

    let mut n: usize = 0;
    while n < steps
        invariant
            2 <= steps <= 0x7fff_ffff,
            colors@.len() >= steps,
            n <= steps,
            result@.len() == n,
            forall|m: int|
                0 <= m < n ==> (#[trigger] result@[m]).color == colors@[m] && (
                result@[m].coordinate.x as int,
                result@[m].coordinate.y as int,
                result@[m].coordinate.z as int,
                ) == walk_position(m),
            (x as int, y as int, z as int) == walk_position(n as int),
            -(n as int) <= x <= n as int,
            -(n as int) <= y <= n as int,
            -(n as int) <= z <= n as int,
            dir_index < 6,
            dir_index as int == primes_up_to(n as int - 1) % 6,
            (dir.0 as int, dir.1 as int, dir.2 as int) == direction(dir_index as int),
            primes.primes@ == prime_seq,
            lists_primes_up_to(prime_seq, steps as int),
            (1 <= primes.index <= prime_seq.len() && p == prime_seq[primes.index - 1]
                && p as int >= n as int && primes_up_to(n as int - 1) == primes.index - 1) || (p
                == steps + 1 && primes.index == prime_seq.len() && primes_up_to(n as int - 1)
                == prime_seq.len()),
        decreases steps - n,
    {
        if n as u64 == p {
            proof {
                assert(primes_up_to(n as int) == primes.index as int) by {
                    assert(p == prime_seq[primes.index - 1]);
                    assert(primes_up_to(prime_seq[primes.index - 1] as int)
                        == primes.index - 1 + 1);
                }
                lemma_add_mod_noop(primes_up_to(n as int - 1), 1, 6);
            }
            dir_index = if dir_index == 5 {
                0
            } else {
                dir_index + 1
            };
            dir = direction_step(dir_index);
            let ghost old_index = primes.index as int;
            p = match primes.next() {
                Some(q) => q,
                None => steps as u64 + 1,
            };
            proof {
                if old_index < prime_seq.len() {
                    assert(p == prime_seq[old_index]);
                    assert(prime_seq[old_index - 1] < prime_seq[old_index]);
                } else {
                    assert(primes_up_to(prime_seq[old_index - 1] as int) == old_index);
                }
            }
        } else {
            proof {
                let ghost nn = n as int;
                if nn >= 1 {
                    lemma_primes_up_to_monotonic(nn - 1, nn);
                    if (p as int) <= steps {
                        assert(primes_up_to(prime_seq[primes.index - 1] as int - 1)
                            == primes.index - 1);
                        lemma_primes_up_to_monotonic(nn, p as int - 1);
                    } else {
                        lemma_primes_up_to_monotonic(nn, steps as int);
                    }
                }
            }
        }
        result.push(
            Pixel3D { coordinate: Point3 { x, y, z }, color: colors[n] },
        );
        proof {
            assert(result@[n as int].color == colors@[n as int]);
        }
        x = x + dir.0;
        y = y + dir.1;
        z = z + dir.2;
        n = n + 1;
    }
    result
}

} // verus!
