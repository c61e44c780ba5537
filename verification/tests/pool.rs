use anytls::pool::{SessionChoice, SessionPool};

fn pool_with_idle(idle: &[(u64, u128)]) -> SessionPool {
    let mut pool = SessionPool::new();
    for (seq, since) in idle {
        pool.mark_idle(*seq, false, *since);
    }
    pool
}

fn reuse_all(pool: &mut SessionPool) -> Vec<u64> {
    let mut order: Vec<u64> = Vec::new();
    while let SessionChoice::Reuse(seq) = pool.get_session(false) {
        order.push(seq);
    }
    order
}

#[test]
fn an_empty_pool_creates() {
    let mut pool = SessionPool::new();
    assert_eq!(pool.candidate(), None);
    assert_eq!(pool.get_session(false), SessionChoice::Create);
    assert_eq!(pool.get_session(true), SessionChoice::Create);
}

#[test]
fn numbers_of_sessions() {
    let mut pool = SessionPool::new();
    assert_eq!(pool.next_session_seq(), 0);
    assert_eq!(pool.next_session_seq(), 1);
    assert_eq!(pool.next_session_seq(), 2);
}

#[test]
fn the_newest_session_is_reused() {
    let mut pool = pool_with_idle(&[(3, 10), (8, 5), (1, 20)]);
    assert_eq!(pool.candidate(), Some(8));
    assert_eq!(reuse_all(&mut pool), vec![8, 3, 1]);
}

#[test]
fn a_dead_session_is_dropped() {
    let mut pool = pool_with_idle(&[(1, 0), (2, 0)]);
    assert_eq!(pool.candidate(), Some(2));
    assert_eq!(pool.get_session(true), SessionChoice::Create);
    assert_eq!(reuse_all(&mut pool), vec![1]);
}

#[test]
fn dead_sessions_do_not_become_idle() {
    let mut pool = SessionPool::new();
    let seq: u64 = pool.next_session_seq();
    pool.session_created(seq);
    pool.mark_idle(seq, true, 7);
    assert_eq!(pool.candidate(), None);
}

#[test]
fn a_session_comes_back() {
    let mut pool = SessionPool::new();
    let seq: u64 = pool.next_session_seq();
    pool.session_created(seq);
    assert_eq!(pool.candidate(), None);
    pool.mark_idle(seq, false, 7);
    assert_eq!(pool.get_session(false), SessionChoice::Reuse(seq));
    assert_eq!(pool.get_session(false), SessionChoice::Create);
}

#[test]
fn cleanup_closes_what_waited_too_long() {
    let mut pool = pool_with_idle(&[(1, 100), (2, 0), (3, 50), (4, 99)]);
    assert_eq!(pool.cleanup(110, 60, 0), vec![2]);
    assert_eq!(pool.cleanup(111, 60, 0), vec![3]);
    assert_eq!(reuse_all(&mut pool), vec![4, 1]);
}

#[test]
fn cleanup_is_strict_about_the_timeout() {
    let mut pool = pool_with_idle(&[(1, 0)]);
    assert_eq!(pool.cleanup(60, 60, 0), Vec::<u64>::new());
    assert_eq!(pool.cleanup(61, 60, 0), vec![1]);
}

#[test]
fn cleanup_keeps_the_least_number() {
    let mut pool = pool_with_idle(&[(1, 30), (2, 10), (3, 20)]);
    assert_eq!(pool.cleanup(1000, 60, 1), vec![2, 3]);
    assert_eq!(pool.cleanup(1000, 60, 1), Vec::<u64>::new());
    assert_eq!(reuse_all(&mut pool), vec![1]);
    let mut small = pool_with_idle(&[(1, 0), (2, 0)]);
    assert_eq!(small.cleanup(1000, 60, 5), Vec::<u64>::new());
}

#[test]
fn cleanup_with_a_clock_that_lags() {
    let mut pool = pool_with_idle(&[(1, 500)]);
    assert_eq!(pool.cleanup(100, 0, 0), Vec::<u64>::new());
}

#[test]
fn sessions_that_wait_alike_close_in_their_order() {
    let mut pool = pool_with_idle(&[(5, 0), (2, 0), (9, 0)]);
    assert_eq!(pool.cleanup(1000, 60, 1), vec![5, 2]);
}
