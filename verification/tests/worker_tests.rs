use mandelbrot::worker::Worker;

#[test]
fn new_pool_is_idle() {
    let pool = Worker::new(4);
    assert_eq!(pool.threads(), 4);
    assert!(!pool.is_occupied());
    for n in 0..4 {
        assert_eq!(pool.occupancy(n), 0);
    }
}

#[test]
fn pool_without_threads_is_idle() {
    let pool = Worker::new(0);
    assert_eq!(pool.threads(), 0);
    assert!(!pool.is_occupied());
}

#[test]
fn push_goes_round_the_threads_when_all_are_equal() {
    let mut pool = Worker::new(3);
    assert_eq!(pool.push(), 0);
    assert_eq!(pool.push(), 1);
    assert_eq!(pool.push(), 2);
    assert_eq!(pool.push(), 0);
    assert_eq!(pool.occupancy(0), 2);
    assert_eq!(pool.occupancy(1), 1);
    assert_eq!(pool.occupancy(2), 1);
}

#[test]
fn push_picks_the_least_loaded_thread() {
    let mut pool = Worker::new(3);
    for _ in 0..6 {
        pool.push();
    }
    pool.finish(1);
    pool.finish(1);
    pool.finish(2);
    assert_eq!(pool.min_occupancy_index(), 1);
    assert_eq!(pool.push(), 1);
    assert_eq!(pool.min_occupancy_index(), 1);
    assert_eq!(pool.push(), 1);
    assert_eq!(pool.push(), 2);
    assert_eq!(pool.push(), 0);
}

#[test]
fn tie_goes_to_the_lowest_index() {
    let mut pool = Worker::new(4);
    for _ in 0..4 {
        pool.push();
    }
    pool.finish(3);
    pool.finish(1);
    assert_eq!(pool.min_occupancy_index(), 1);
}

#[test]
fn finish_takes_one_off_the_counter() {
    let mut pool = Worker::new(2);
    pool.push();
    pool.push();
    pool.push();
    assert_eq!(pool.occupancy(0), 2);
    pool.finish(0);
    assert_eq!(pool.occupancy(0), 1);
    assert_eq!(pool.occupancy(1), 1);
}

#[test]
fn pool_is_busy_until_the_last_task_is_finished() {
    for threads in 1..6usize {
        for tasks in 1..20usize {
            let mut pool = Worker::new(threads);
            let mut given: Vec<usize> = Vec::new();
            for _ in 0..tasks {
                given.push(pool.push());
                assert!(pool.is_occupied());
            }
            let mut finished = 0;
            for n in given.iter().rev() {
                assert!(pool.is_occupied());
                pool.finish(*n);
                finished += 1;
                assert_eq!(pool.is_occupied(), finished < tasks);
            }
            assert_eq!(finished, tasks);
            assert!(!pool.is_occupied());
        }
    }
}

#[test]
fn single_thread_takes_everything() {
    let mut pool = Worker::new(1);
    for k in 0..10 {
        assert_eq!(pool.push(), 0);
        assert_eq!(pool.occupancy(0), k + 1);
    }
}

#[test]
fn loads_never_differ_by_more_than_one_without_finishes() {
    let mut pool = Worker::new(5);
    for _ in 0..23 {
        pool.push();
    }
    let loads: Vec<i32> = (0..5).map(|n| pool.occupancy(n)).collect();
    assert_eq!(loads, vec![5, 5, 5, 4, 4]);
}
