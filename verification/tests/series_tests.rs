use analytics::dashboard::HistoricalValue;
use analytics::scalar::Scalar;
use analytics::series::{find_slot, place, sort_by_time};

fn pt(x: f64, y: f64) -> HistoricalValue {
    HistoricalValue { x: Scalar::from_bits(x.to_bits()), y: Scalar::from_bits(y.to_bits()) }
}

fn pairs(v: &Vec<HistoricalValue>) -> Vec<(f64, f64)> {
    v.iter().map(|p| (f64::from_bits(p.x.to_bits()), f64::from_bits(p.y.to_bits()))).collect()
}

#[test]
fn find_slot_is_behind_the_last_point_not_later() {
    let v = vec![pt(1.0, 0.0), pt(2.0, 0.0), pt(2.0, 1.0), pt(5.0, 0.0)];
    assert_eq!(find_slot(&v, 4, pt(0.0, 9.0)), 0);
    assert_eq!(find_slot(&v, 4, pt(1.0, 9.0)), 1);
    assert_eq!(find_slot(&v, 4, pt(2.0, 9.0)), 3);
    assert_eq!(find_slot(&v, 4, pt(3.0, 9.0)), 3);
    assert_eq!(find_slot(&v, 4, pt(5.0, 9.0)), 4);
    assert_eq!(find_slot(&v, 4, pt(6.0, 9.0)), 4);
    assert_eq!(find_slot(&v, 2, pt(6.0, 9.0)), 2);
    assert_eq!(find_slot(&v, 0, pt(6.0, 9.0)), 0);
    assert_eq!(find_slot(&Vec::new(), 0, pt(6.0, 9.0)), 0);
}

#[test]
fn place_puts_a_point_in_its_slot() {
    let mut v = Vec::new();
    place(&mut v, pt(3.0, 1.0));
    place(&mut v, pt(1.0, 2.0));
    place(&mut v, pt(3.0, 3.0));
    place(&mut v, pt(2.0, 4.0));
    place(&mut v, pt(-0.0, 5.0));
    place(&mut v, pt(0.0, 6.0));
    assert_eq!(
        pairs(&v),
        vec![(-0.0, 5.0), (0.0, 6.0), (1.0, 2.0), (2.0, 4.0), (3.0, 1.0), (3.0, 3.0)]
    );
    assert!(f64::from_bits(v[0].x.to_bits()).is_sign_negative());
}

#[test]
fn sort_by_time_is_a_stable_sort() {
    let given = vec![
        pt(5.0, 0.0),
        pt(1.0, 1.0),
        pt(3.0, 2.0),
        pt(1.0, 3.0),
        pt(5.0, 4.0),
        pt(-2.0, 5.0),
        pt(3.0, 6.0),
        pt(1.0, 7.0),
    ];
    let mut v = given.clone();
    sort_by_time(&mut v);
    let mut expected = pairs(&given);
    expected.sort_by(|a, b| a.0.partial_cmp(&b.0).unwrap());
    assert_eq!(pairs(&v), expected);
    assert_eq!(
        pairs(&v),
        vec![
            (-2.0, 5.0),
            (1.0, 1.0),
            (1.0, 3.0),
            (1.0, 7.0),
            (3.0, 2.0),
            (3.0, 6.0),
            (5.0, 0.0),
            (5.0, 4.0)
        ]
    );
}

#[test]
fn sort_by_time_leaves_sorted_and_small_series_alone() {
    let mut empty: Vec<HistoricalValue> = Vec::new();
    sort_by_time(&mut empty);
    assert!(empty.is_empty());
    let mut one = vec![pt(4.0, 1.0)];
    sort_by_time(&mut one);
    assert_eq!(pairs(&one), vec![(4.0, 1.0)]);
    let sorted = vec![pt(1.0, 1.0), pt(1.0, 2.0), pt(2.0, 3.0), pt(9.0, 4.0)];
    let mut v = sorted.clone();
    sort_by_time(&mut v);
    assert_eq!(v, sorted);
    let mut reversed = vec![pt(3.0, 1.0), pt(2.0, 2.0), pt(1.0, 3.0)];
    sort_by_time(&mut reversed);
    assert_eq!(pairs(&reversed), vec![(1.0, 3.0), (2.0, 2.0), (3.0, 1.0)]);
}

fn next(seed: &mut u64) -> u64 {
    *seed = seed.wrapping_mul(6364136223846793005).wrapping_add(1442695040888963407);
    *seed >> 33
}

#[test]
fn sort_by_time_agrees_with_a_stable_sort_on_many_series() {
    let mut seed: u64 = 42;
    for round in 0..200 {
        let len = (next(&mut seed) % 40) as usize;
        let mut given = Vec::new();
        for i in 0..len {
            let x = (next(&mut seed) % 7) as f64 - 3.0;
            given.push(pt(x, (round * 100 + i) as f64));
        }
        let mut v = given.clone();
        sort_by_time(&mut v);
        let mut expected = pairs(&given);
        expected.sort_by(|a, b| a.0.partial_cmp(&b.0).unwrap());
        assert_eq!(pairs(&v), expected);
    }
}

#[test]
fn place_agrees_with_sorting_again_on_many_series() {
    let mut seed: u64 = 7;
    for _ in 0..100 {
        let len = (next(&mut seed) % 30) as usize;
        let mut v = Vec::new();
        let mut arrived = Vec::new();
        for i in 0..len {
            let x = (next(&mut seed) % 5) as f64 * 0.5;
            let p = pt(x, i as f64);
            place(&mut v, p);
            arrived.push((x, i as f64));
            let mut expected = arrived.clone();
            expected.sort_by(|a, b| a.0.partial_cmp(&b.0).unwrap());
            assert_eq!(pairs(&v), expected);
            assert_eq!(find_slot(&v, v.len(), pt(x, -1.0)), expected.iter().filter(|q| q.0 <= x).count());
        }
    }
}
