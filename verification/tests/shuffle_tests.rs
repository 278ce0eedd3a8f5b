use ark_std::rand::rngs::StdRng;
use ark_std::rand::{RngCore, SeedableRng};
use tui_majo::mental_poker::shuffle::Permutation;

#[test]
fn permutation_is_valid_rejects_duplicates() {
    let p = Permutation::from_raw(vec![0, 1, 1, 3]);
    assert!(!p.is_valid());
}

#[test]
fn permutation_is_valid_rejects_out_of_range() {
    let p = Permutation::from_raw(vec![0, 1, 2, 9]);
    assert!(!p.is_valid());
}

#[test]
fn permutation_random_is_bijection() {
    let rng = &mut StdRng::seed_from_u64(0);
    for n in [1usize, 2, 4, 8, 16, 136] {
        let p = Permutation::random(rng, n);
        assert!(p.is_valid(), "n={n}");
        assert_eq!(p.len(), n);
    }
}

#[test]
fn permutation_apply_then_inverse_is_identity() {
    let rng = &mut StdRng::seed_from_u64(0);
    let n = 32;
    let p = Permutation::random(rng, n);
    let items: Vec<u32> = (0..n as u32).collect();
    let shuffled = p.apply(&items);
    let inv = p.inverse();
    let restored = inv.apply(&shuffled);
    assert_eq!(restored, items);
}

#[test]
fn permutation_apply_places_by_index() {
    let p = Permutation::from_raw(vec![2, 0, 1]);
    assert!(p.is_valid());
    assert_eq!(p.apply(&['a', 'b', 'c']), vec!['c', 'a', 'b']);
    assert_eq!(p.inverse().as_slice(), &[1, 2, 0]);
    assert!(!p.is_empty());
    assert!(Permutation::from_raw(vec![]).is_empty());
    assert!(Permutation::from_raw(vec![]).is_valid());
}

#[test]
fn permutation_from_draws_follows_fisher_yates() {
    let p = Permutation::from_draws(4, &vec![5, 7, 9]);
    assert_eq!(p.as_slice(), &[0, 2, 3, 1]);
    assert_eq!(Permutation::from_draws(1, &vec![]).as_slice(), &[0]);
    assert!(Permutation::from_draws(0, &vec![]).is_empty());
}

#[test]
fn permutation_random_uses_one_draw_per_step() {
    let n = 10;
    let mut a = StdRng::seed_from_u64(42);
    let mut b = StdRng::seed_from_u64(42);
    let draws: Vec<u64> = (0..n - 1).map(|_| b.next_u64()).collect();
    assert_eq!(Permutation::random(&mut a, n).as_slice(), Permutation::from_draws(n, &draws).as_slice());
}

#[test]
fn permutation_inverse_twice_gives_it_back() {
    let rng = &mut StdRng::seed_from_u64(7);
    let p = Permutation::random(rng, 20);
    let q = p.inverse();
    assert!(q.is_valid());
    assert_eq!(q.len(), p.len());
    for i in 0..p.len() {
        assert_eq!(q.as_slice()[p.as_slice()[i]], i);
    }
    assert_eq!(q.inverse().as_slice(), p.as_slice());
    let items: Vec<u64> = (100..120).collect();
    assert_eq!(q.apply(&p.apply(&items)), items);
}
