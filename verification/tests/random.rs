use comfy_core::random::{
    gen_range, rand, random_i32, random_usize, srand, ChooseRandom, FisherYates, RandomRange, Rng,
};

#[test]
fn crash_poop_gen_range() {
    let things = vec![1, 2, 3];
    let mut rng = Rng::new();

    let mut i: usize = 0;

    for _ in 0..1000000000usize {
        i += 1;
        if things.choose_one(&mut rng).is_none() {
            panic!("EXITING AFTER {} ITERATIONS", i);
        }
    }
}

#[test]
fn rand_from_zero_state() {
    let mut rng = Rng::new();
    assert_eq!(rand(&mut rng), 0);
    assert_eq!(rand(&mut rng), 1613493245);
    assert_eq!(rand(&mut rng), 3894649422);
    assert_eq!(rng.state, 11166244414315200793);
}

#[test]
fn srand_sets_state() {
    let mut rng = Rng::new();
    rand(&mut rng);
    srand(&mut rng, 42);
    assert_eq!(rng.state, 10915315373440060052);
}

#[test]
fn same_seed_same_draws() {
    let mut a = Rng::new();
    let mut b = Rng { state: 12345 };
    srand(&mut a, 99);
    srand(&mut b, 99);
    for _ in 0..10 {
        assert_eq!(rand(&mut a), rand(&mut b));
    }
}

#[test]
fn gen_range_values() {
    let mut rng = Rng::new();
    let got: Vec<i32> = (0..5).map(|_| gen_range(&mut rng, 0i32, 10i32)).collect();
    assert_eq!(got, vec![0, 3, 9, 4, 5]);
}

#[test]
fn random_i32_rounds_down() {
    let mut rng = Rng::new();
    srand(&mut rng, 7);
    let got: Vec<i32> = (0..5).map(|_| random_i32(&mut rng, -5, 5)).collect();
    assert_eq!(got, vec![-3, 4, -1, 3, -4]);
}

#[test]
fn random_i32_stays_below_max() {
    let mut rng = Rng::new();
    srand(&mut rng, 7);
    for _ in 0..10000 {
        let x = random_i32(&mut rng, -5, -1);
        assert!((-5..-1).contains(&x));
        let y = random_i32(&mut rng, 3, -2);
        assert!((-2..=3).contains(&y));
    }
    assert_eq!(random_i32(&mut rng, 4, 4), 4);
}

#[test]
fn gen_range_stays_in_bounds() {
    let mut rng = Rng::new();
    srand(&mut rng, 1);
    for _ in 0..10000 {
        let x = random_usize(&mut rng, 3, 17);
        assert!((3..17).contains(&x));
        let y = <u8 as RandomRange>::gen_range(&mut rng, 0, 255);
        assert!(y < 255);
        let z = gen_range(&mut rng, 10i64, -10i64);
        assert!((-10..=10).contains(&z));
    }
}

#[test]
fn gen_range_equal_bounds() {
    let mut rng = Rng::new();
    assert_eq!(gen_range(&mut rng, 5u32, 5u32), 5);
}

#[test]
fn fisher_yates_shuffle_known_order() {
    let mut rng = Rng::new();
    let mut data = vec![1, 2, 3, 4, 5, 6, 7, 8];
    let mut fy = FisherYates::default();
    fy.shuffle(&mut rng, &mut data);
    assert_eq!(data, vec![2, 8, 3, 1, 5, 4, 6, 7]);
    assert_eq!(rng.state, 11682375498643865569);
}

#[test]
fn fisher_yates_may_keep_the_order() {
    let mut kept = false;
    let mut swapped = false;
    for seed in 0..10u64 {
        let mut rng = Rng::new();
        srand(&mut rng, seed);
        let mut data = vec![1, 2];
        FisherYates::default().shuffle(&mut rng, &mut data);
        kept |= data == vec![1, 2];
        swapped |= data == vec![2, 1];
    }
    assert!(kept && swapped);
    let mut rng = Rng::new();
    srand(&mut rng, 0);
    let mut data = vec![1, 2];
    FisherYates::default().shuffle(&mut rng, &mut data);
    assert_eq!(data, vec![1, 2]);
}

#[test]
fn vec_shuffle_is_permutation() {
    let mut rng = Rng::new();
    srand(&mut rng, 3);
    let mut data: Vec<u32> = (0..10).collect();
    data.shuffle(&mut rng);
    assert_eq!(data, vec![7, 3, 2, 1, 9, 5, 6, 0, 8, 4]);
    let mut sorted = data.clone();
    sorted.sort();
    assert_eq!(sorted, (0..10).collect::<Vec<u32>>());
}

#[test]
fn shuffle_of_short_vectors() {
    let mut rng = Rng::new();
    let mut empty: Vec<u8> = vec![];
    empty.shuffle(&mut rng);
    assert!(empty.is_empty());
    let mut one = vec![7];
    one.shuffle(&mut rng);
    assert_eq!(one, vec![7]);
}

#[test]
fn choose_one_values() {
    let mut rng = Rng::new();
    let v = vec![10, 20, 30];
    let got: Vec<i32> = (0..5).map(|_| *v.choose_one(&mut rng).unwrap()).collect();
    assert_eq!(got, vec![10, 20, 30, 20, 20]);
}

#[test]
fn choose_one_from_empty_is_none() {
    let mut rng = Rng::new();
    let v: Vec<i32> = vec![];
    assert!(v.choose_one(&mut rng).is_none());
}

#[test]
fn choose_multiple_visits_shuffled_indices() {
    let mut rng = Rng::new();
    let v = vec![10, 20, 30, 40, 50];
    let mut it = v.choose_multiple(&mut rng, 3);
    assert_eq!(it.next(), Some(&20));
    assert_eq!(it.next(), Some(&40));
    assert_eq!(it.next(), Some(&30));
    assert_eq!(it.next(), None);
    assert_eq!(rng.state, 1459328389850446429);
}

#[test]
fn choose_multiple_pads_with_first_element() {
    let mut rng = Rng::new();
    let v = vec![1];
    let mut it = v.choose_multiple(&mut rng, 3);
    assert_eq!(it.next(), Some(&1));
    assert_eq!(it.next(), Some(&1));
    assert_eq!(it.next(), Some(&1));
    assert_eq!(it.next(), None);
}

#[test]
fn choose_multiple_never_repeats_within_the_length() {
    let mut rng = Rng::new();
    srand(&mut rng, 99);
    let v: Vec<u32> = (0..20).collect();
    for amount in 0..=20usize {
        let mut it = v.choose_multiple(&mut rng, amount);
        let mut seen = Vec::new();
        while let Some(x) = it.next() {
            assert!(!seen.contains(x));
            seen.push(*x);
        }
        assert_eq!(seen.len(), amount);
    }
}

#[test]
fn choose_mut_changes_the_chosen_element() {
    let mut a = Rng::new();
    srand(&mut a, 5);
    let mut b = Rng::new();
    srand(&mut b, 5);
    let v = vec![10, 20, 30, 40];
    let expected = *v.choose_one(&mut a).unwrap();
    let mut w = v.clone();
    let r = w.choose_mut(&mut b).unwrap();
    assert_eq!(*r, expected);
    *r = 99;
    assert_eq!(w.iter().filter(|x| **x == 99).count(), 1);
    assert_eq!(a.state, b.state);
    let mut empty: Vec<u8> = Vec::new();
    assert!(empty.choose_mut(&mut b).is_none());
}
