use memcrabd::server::conns::ConnectionLimiter;

#[test]
fn unlimited_serves_everyone() {
    let mut l = ConnectionLimiter::new(0, true);
    for _ in 0..5 {
        assert!(l.try_acquire());
    }
    assert_eq!(l.curr_connections(), 5);
    assert_eq!(l.total_connections(), 5);
    assert_eq!(l.rejected_connections(), 0);
    assert!(!l.release());
    assert_eq!(l.curr_connections(), 4);
    assert_eq!(l.max_connections(), 0);
}

#[test]
fn fast_mode_rejects_over_limit() {
    let mut l = ConnectionLimiter::new(2, true);
    assert!(l.try_acquire());
    assert!(l.try_acquire());
    assert!(!l.try_acquire());
    assert_eq!(l.curr_connections(), 2);
    assert_eq!(l.total_connections(), 3);
    assert_eq!(l.rejected_connections(), 1);
    assert!(l.is_accepting());
    assert!(!l.release());
    assert!(l.try_acquire());
}

#[test]
fn default_mode_pauses_then_resumes() {
    let mut l = ConnectionLimiter::new(1, false);
    assert!(l.try_acquire());
    assert!(l.is_accepting());
    assert!(l.try_acquire());
    assert!(!l.is_accepting());
    assert_eq!(l.listen_disabled_num(), 1);
    assert_eq!(l.curr_connections(), 2);
    // back to the limit: still paused
    assert!(!l.release());
    assert!(!l.is_accepting());
    // under the limit: resumes and wakes
    assert!(l.release());
    assert!(l.is_accepting());
    assert_eq!(l.curr_connections(), 0);
}
