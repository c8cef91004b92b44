use dank_paste::limiting::{
    LimitAddr, LimitGuard, Limiter, SenderInfo, INTERVAL, MAX_PER_INTERVAL, NANOS_PER_SEC,
    TOO_MANY_REQUESTS,
};

const SEC: u64 = NANOS_PER_SEC;

#[test]
fn limit_addr_counts_up_to_the_allowance() {
    let mut a = LimitAddr::new(5 * SEC);
    assert_eq!(a.start, 5 * SEC);
    assert_eq!(a.count, 0);
    for _ in 0..MAX_PER_INTERVAL {
        assert!(a.allow_post());
    }
    assert!(!a.allow_post());
    assert_eq!(a.count, MAX_PER_INTERVAL);
    assert_eq!(a.start, 5 * SEC);
}

#[test]
fn elapsed_secs_rounds_down_and_saturates() {
    let a = LimitAddr::new(10 * SEC);
    assert_eq!(a.elapsed_secs(10 * SEC), 0);
    assert_eq!(a.elapsed_secs(11 * SEC - 1), 0);
    assert_eq!(a.elapsed_secs(11 * SEC), 1);
    assert_eq!(a.elapsed_secs(SEC), 0);
}

#[test]
fn burst_lets_five_posts_through() {
    let mut l = Limiter::new();
    let addr = "10.0.0.1".to_string();
    let answers: Vec<bool> = (0..8).map(|i| l.can_paste(&addr, i * SEC)).collect();
    assert_eq!(answers, vec![true, true, true, true, true, false, false, false]);
}

#[test]
fn window_reopens_after_interval() {
    let mut l = Limiter::new();
    let addr = "10.0.0.1".to_string();
    for _ in 0..MAX_PER_INTERVAL {
        assert!(l.can_paste(&addr, 0));
    }
    assert!(!l.can_paste(&addr, (INTERVAL * SEC) - 1));
    assert!(l.can_paste(&addr, INTERVAL * SEC));
}

#[test]
fn addresses_are_limited_separately() {
    let mut l = Limiter::new();
    let a = "a".to_string();
    let b = "b".to_string();
    for _ in 0..MAX_PER_INTERVAL {
        assert!(l.can_paste(&a, SEC));
    }
    assert!(!l.can_paste(&a, 2 * SEC));
    assert!(l.can_paste(&b, 2 * SEC));
    l.handle_expired(100 * SEC);
    assert!(l.can_paste(&a, 100 * SEC));
}

#[test]
fn refused_sender_gets_429() {
    let mut l = Limiter::new();
    let s = SenderInfo::from_parts(Some("1.2.3.4"), None, 0);
    for _ in 0..MAX_PER_INTERVAL {
        assert!(LimitGuard::from_sender(&mut l, &s).is_ok());
    }
    match LimitGuard::from_sender(&mut l, &s) {
        Err(code) => assert_eq!(code, TOO_MANY_REQUESTS),
        Ok(_) => panic!("sixth post got through"),
    }
    assert_eq!(TOO_MANY_REQUESTS, 429);
}

#[test]
fn sender_prefers_proxy_header() {
    let s = SenderInfo::from_parts(Some("1.1.1.1"), Some("2.2.2.2"), 9);
    assert_eq!(s.addr, "1.1.1.1");
    assert_eq!(s.time, 9);
    let s = SenderInfo::from_parts(None, Some("2.2.2.2"), 9);
    assert_eq!(s.addr, "2.2.2.2");
}

#[test]
fn interleaved_addresses_each_get_their_allowance() {
    let mut l = Limiter::new();
    let a = "a".to_string();
    let b = "b".to_string();
    let mut through_a = 0;
    let mut through_b = 0;
    for i in 0..20u64 {
        if l.can_paste(&a, i * SEC / 4) {
            through_a += 1;
        }
        if i % 2 == 0 && l.can_paste(&b, i * SEC / 4) {
            through_b += 1;
        }
    }
    assert_eq!(through_a, MAX_PER_INTERVAL);
    assert_eq!(through_b, MAX_PER_INTERVAL);
}
