use hs_loop::json::{Json, JsonNumber};
use hs_loop::recall::{recall_k, tokens_estimate, PrefetchBooks, Speculation};

fn args_k(k: Option<u64>) -> Json {
    match k {
        Some(k) => Json::Object(vec![("k".to_string(), Json::Number(JsonNumber::PosInt(k)))]),
        None => Json::Object(vec![]),
    }
}

#[test]
fn recall_k_defaults_and_clamps() {
    assert_eq!(recall_k(&args_k(None)), 5);
    assert_eq!(recall_k(&args_k(Some(0))), 1);
    assert_eq!(recall_k(&args_k(Some(7))), 7);
    assert_eq!(recall_k(&args_k(Some(500))), 50);
    let neg = Json::Object(vec![("k".to_string(), Json::Number(JsonNumber::NegInt(-3)))]);
    assert_eq!(recall_k(&neg), 5);
    assert_eq!(recall_k(&Json::Null), 5);
}

#[test]
fn token_estimate_rounds_up_with_a_floor_of_one() {
    assert_eq!(tokens_estimate(0), 1);
    assert_eq!(tokens_estimate(1), 1);
    assert_eq!(tokens_estimate(4), 1);
    assert_eq!(tokens_estimate(5), 2);
    assert_eq!(tokens_estimate(400), 100);
}

#[test]
fn a_repeated_query_is_a_hit() {
    let mut b = PrefetchBooks::new();
    assert!(b.resolve(5).is_none());
    b.speculate(5, true, 40);
    assert_eq!(b.outstanding, Some(Speculation { k: 5, tokens_est: 10 }));
    let r = b.resolve(5).unwrap();
    assert!(r.hit);
    assert_eq!((r.hits, r.misses, r.retired), (1, 0, false));
    assert_eq!(b.outstanding, None);
}

#[test]
fn a_failed_fetch_is_not_speculated() {
    let mut b = PrefetchBooks::new();
    b.speculate(5, false, 40);
    assert_eq!(b.outstanding, None);
}

#[test]
fn predictor_retires_below_the_crossover_and_stays_retired() {
    let mut b = PrefetchBooks::new();
    // three misses: not enough samples yet
    for _ in 0..3 {
        b.speculate(5, true, 8);
        let r = b.resolve(6).unwrap();
        assert!(!r.hit && !r.retired);
    }
    assert!(b.enabled);
    // the fourth miss reaches min_samples with a 0% hit rate
    b.speculate(5, true, 8);
    let r = b.resolve(6).unwrap();
    assert!(r.retired);
    assert_eq!((r.hits, r.misses), (0, 4));
    assert!(!b.enabled);
    // retired: no more speculation
    b.speculate(5, true, 8);
    assert_eq!(b.outstanding, None);
}

#[test]
fn half_hits_do_not_retire_at_the_default_crossover() {
    let mut b = PrefetchBooks::new();
    for k in [5usize, 6, 5, 6] {
        b.speculate(5, true, 8);
        let r = b.resolve(k).unwrap();
        assert!(!r.retired);
    }
    assert_eq!((b.hits, b.misses), (2, 2));
    assert!(b.enabled);
}

#[test]
fn knobs_change_the_retirement_point() {
    let mut b = PrefetchBooks::new();
    b.set_knobs(1, 10_000);
    b.speculate(5, true, 8);
    let r = b.resolve(5).unwrap();
    // a 100% hit rate is not below a 100% crossover
    assert!(!r.retired);
    b.speculate(5, true, 8);
    let r = b.resolve(6).unwrap();
    assert!(r.retired);
}

#[test]
fn close_books_an_unconsumed_speculation_as_a_miss() {
    let mut b = PrefetchBooks::new();
    assert_eq!(b.close_unconsumed(), None);
    assert_eq!(b.misses, 0);
    b.speculate(9, true, 12);
    assert_eq!(b.close_unconsumed(), Some(Speculation { k: 9, tokens_est: 3 }));
    assert_eq!(b.misses, 1);
    assert_eq!(b.outstanding, None);
}
