use prime_walk::primes::Primes;

#[test]
fn test_sieve_lists_primes_up_to_thirty() {
    let primes = Primes::sieve_of_eratosthenes(30);
    assert_eq!(primes, vec![2, 3, 5, 7, 11, 13, 17, 19, 23, 29]);
}

#[test]
fn test_sieve_below_two_is_empty() {
    assert_eq!(Primes::sieve_of_eratosthenes(0), Vec::<u64>::new());
    assert_eq!(Primes::sieve_of_eratosthenes(1), Vec::<u64>::new());
}

#[test]
fn test_sieve_limit_is_inclusive() {
    assert_eq!(Primes::sieve_of_eratosthenes(2), vec![2]);
    assert_eq!(Primes::sieve_of_eratosthenes(13), vec![2, 3, 5, 7, 11, 13]);
}

#[test]
fn test_with_limit_hands_out_primes_in_order() {
    let mut primes = Primes::with_limit(10);
    assert_eq!(primes.next(), Some(2));
    assert_eq!(primes.next(), Some(3));
    assert_eq!(primes.next(), Some(5));
    assert_eq!(primes.next(), Some(7));
    assert_eq!(primes.next(), None);
    assert_eq!(primes.next(), None);
}

#[test]
fn test_with_limit_below_two_is_exhausted() {
    let mut primes = Primes::with_limit(1);
    assert_eq!(primes.next(), None);
}
