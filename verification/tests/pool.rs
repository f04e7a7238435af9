use cooliris::pool::{
    in_window, total_cols, window_cols, Finished, Pool, Settled, Tile, Window,
};

fn done(index: usize, gen: u64) -> Finished {
    Finished { index, gen, w: 8, h: 4, empty: false, full: false }
}

const WIDE: Window = Window { first: 0, last: 32 };

#[test]
fn windows_reach_sixteen_columns_each_way() {
    assert_eq!(window_cols(0, 100), Window { first: 0, last: 16 });
    assert_eq!(window_cols(50, 100), Window { first: 34, last: 66 });
    assert_eq!(window_cols(95, 100), Window { first: 79, last: 99 });
    assert_eq!(window_cols(0, 0), Window { first: 0, last: -1 });
    assert!(in_window(Window { first: 2, last: 3 }, 6));
    assert!(!in_window(Window { first: 2, last: 3 }, 5));
    assert!(!in_window(Window { first: 2, last: 3 }, 12));
    assert_eq!(total_cols(0), 0);
    assert_eq!(total_cols(3), 1);
    assert_eq!(total_cols(4), 2);
}

#[test]
fn the_nearest_columns_are_asked_for_first() {
    let mut pool = Pool::new();
    let jobs = pool.dispatch(window_cols(5, 100), 5, 300);
    assert_eq!(jobs.len(), 32);
    assert_eq!(&jobs[0..9], &[15, 16, 17, 12, 13, 14, 18, 19, 20]);
    assert_eq!(pool.inflight(), 32);
    assert_eq!(pool.get(15), Some(Tile::Loading));
    assert!(pool.dispatch(window_cols(5, 100), 5, 300).is_empty());
}

#[test]
fn short_libraries_are_asked_for_whole() {
    let mut pool = Pool::new();
    let jobs = pool.dispatch(window_cols(0, total_cols(5)), 0, 5);
    assert_eq!(jobs, vec![0, 1, 2, 3, 4]);
}

#[test]
fn finished_decodes_are_settled() {
    let mut pool = Pool::new();
    pool.dispatch(window_cols(0, 40), 0, 120);
    assert_eq!(pool.settle(done(0, 1), 1, true), Settled::Uploaded { layer: 0 });
    assert_eq!(pool.get(0), Some(Tile::Ready { layer: 0, w: 8, h: 4 }));
    assert_eq!(pool.settle(done(0, 1), 1, true), Settled::Unwanted);
    assert_eq!(pool.settle(done(1, 0), 1, true), Settled::Stale);
    assert_eq!(pool.get(1), Some(Tile::Loading));
    assert_eq!(pool.settle(Finished { empty: true, ..done(1, 1) }, 1, true), Settled::Failed);
    assert_eq!(pool.get(1), Some(Tile::Failed));
    assert_eq!(pool.settle(Finished { w: 0, ..done(2, 1) }, 1, true), Settled::Failed);
    assert_eq!(pool.settle(done(3, 1), 1, false), Settled::Gone);
    assert_eq!(pool.get(3), None);
    assert_eq!(pool.settle(Finished { full: true, ..done(4, 1) }, 1, true), Settled::Full);
    assert_eq!(pool.get(4), Some(Tile::Loading));
    assert_eq!(pool.inflight(), 32 - 6);
    assert_eq!(pool.free_count(), 127);
    assert_eq!(pool.len(), 31);
}

#[test]
fn a_frame_uploads_ten_thumbnails_at_most() {
    let mut pool = Pool::new();
    let jobs = pool.dispatch(WIDE, 0, 99);
    let inbox: Vec<Finished> = jobs.iter().map(|&i| done(i, 0)).collect();
    let outcomes = pool.drain(&inbox, 0, WIDE, None);
    assert_eq!(outcomes.len(), 10);
    assert_eq!(pool.free_count(), 118);
    assert_eq!(pool.inflight(), 22);
    let mut mixed = vec![Finished { full: true, ..done(500, 0) }, done(0, 9)];
    mixed.extend(inbox[10..].iter().copied());
    let outcomes = pool.drain(&mixed, 0, WIDE, None);
    assert_eq!(outcomes.len(), 12);
    assert_eq!(outcomes[0], Settled::Full);
    assert_eq!(outcomes[1], Settled::Stale);
}

#[test]
fn what_leaves_the_window_gives_its_layer_back() {
    let mut pool = Pool::new();
    let jobs = pool.dispatch(WIDE, 0, 99);
    for &i in &jobs[0..6] {
        pool.settle(done(i, 0), 0, true);
    }
    assert_eq!(pool.free_count(), 122);
    let far = Window { first: 20, last: 30 };
    pool.evict(far, Some(jobs[1]));
    assert_eq!(pool.free_count(), 127);
    assert!(matches!(pool.get(jobs[1]), Some(Tile::Ready { .. })));
    assert_eq!(pool.get(jobs[0]), None);
    assert_eq!(pool.get(jobs[8]), Some(Tile::Loading));
    assert_eq!(pool.indices().len(), pool.len());
}

#[test]
fn the_open_item_is_asked_for_past_the_throttle() {
    let mut pool = Pool::new();
    pool.dispatch(window_cols(0, 100), 0, 300);
    assert_eq!(pool.ask_focus(Some(299), 300), Some(299));
    assert_eq!(pool.inflight(), 33);
    assert_eq!(pool.ask_focus(Some(299), 300), None);
    assert_eq!(pool.ask_focus(Some(300), 300), None);
    assert_eq!(pool.ask_focus(None, 300), None);
}

#[test]
fn layers_add_up_and_never_run_out() {
    let mut pool = Pool::new();
    let total = 3000usize;
    for step in 0..200i64 {
        let center = (step * 7) % 1000;
        let window = window_cols(center, 1000);
        pool.evict(window, None);
        let jobs = pool.dispatch(window, center, total);
        let inbox: Vec<Finished> = jobs.iter().map(|&i| done(i, 0)).collect();
        for outcome in pool.drain(&inbox, 0, window, None) {
            assert_ne!(outcome, Settled::NoLayer);
        }
        let ready = pool
            .indices()
            .iter()
            .filter(|&&i| matches!(pool.get(i), Some(Tile::Ready { .. })))
            .count();
        assert_eq!(ready + pool.free_count(), 128);
    }
}
