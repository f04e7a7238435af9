use cooliris::components::{Filter, SortMode};
use cooliris::dates::FileTimes;
use cooliris::gifs::GifAtlas;
use cooliris::library::Query;
use cooliris::media::Source;
use cooliris::pool::{Finished, Window};
use cooliris::wall::{since, Instance, Look, Wall};
use std::path::PathBuf;

fn gifs(n: usize) -> Vec<Source> {
    (0..n).map(|i| Source::File(PathBuf::from(format!("{i:03}.gif")))).collect()
}

fn load(wall: &mut Wall, tiles: &[usize]) {
    let window = Window { first: 0, last: wall.columns() - 1 };
    let total = wall.shown.len();
    wall.pool.dispatch(window, 0, total);
    for &i in tiles {
        let gen = wall.generation;
        let res = Finished { index: i, gen, w: 10, h: 10, empty: false, full: false };
        wall.pool.settle(res, wall.generation, true);
    }
}

fn atlas(frames: usize) -> GifAtlas {
    GifAtlas {
        rgba: Vec::new(),
        grid: 2,
        cell: 256,
        fw: 10,
        fh: 10,
        delays: vec![100_000_000; frames],
        total: 100_000_000 * frames as u64,
    }
}

#[test]
fn a_new_wall_shows_everything() {
    let wall = Wall::new(gifs(7), None, 0);
    assert_eq!(wall.shown, vec![0, 1, 2, 3, 4, 5, 6]);
    assert_eq!(wall.columns(), 3);
    assert_eq!(wall.ready_count(), 0);
    assert_eq!(wall.tile_at(2, 0), Some(6));
    assert_eq!(wall.tile_at(2, 1), None);
    assert_eq!(wall.tile_at(-1, 0), None);
    assert_eq!(wall.tile_at(0, 3), None);
    assert!(wall.source(7).is_none());
    assert!(wall.is_gif_tile(0) && !wall.is_video(0) && !wall.is_audio(0));
}

#[test]
fn a_query_starts_loading_anew() {
    let mut wall = Wall::new(gifs(4), Some(PathBuf::from("d")), 5);
    load(&mut wall, &[0, 1]);
    assert_eq!(wall.ready_count(), 2);
    let q = Query {
        kind: Filter::All,
        search: "2".to_string(),
        from: None,
        to: None,
        created: false,
        sort: SortMode::Default,
    };
    let times = vec![FileTimes { modified: None, created: None }; 4];
    wall.show(&times, &q);
    assert_eq!(wall.shown, vec![2]);
    assert_eq!(wall.generation, 1);
    assert_eq!(wall.ready_count(), 0);
    assert_eq!(wall.pool.inflight(), 0);
}

#[test]
fn the_nearest_gifs_are_decoded_three_at_a_time() {
    let mut wall = Wall::new(gifs(30), None, 0);
    load(&mut wall, &[0, 4, 9, 13, 20]);
    assert_eq!(wall.start_gifs(4), vec![13, 9, 20]);
    assert!(wall.start_gifs(4).is_empty());
    assert_eq!(wall.deliver_gif(13, 0, None, 1), None);
    assert_eq!(wall.start_gifs(4), vec![13]);
}

#[test]
fn delivered_animations_play_from_their_layer() {
    let mut wall = Wall::new(gifs(9), None, 0);
    load(&mut wall, &[0, 1, 2]);
    assert_eq!(wall.start_gifs(0), vec![0, 1, 2]);
    let layer = wall.deliver_gif(1, 0, Some(&atlas(4)), 1_000).unwrap();
    assert_eq!(layer, 1);
    assert_eq!(wall.deliver_gif(0, 7, Some(&atlas(4)), 1_000), None);
    assert_eq!(wall.deliver_gif(8, 0, Some(&atlas(4)), 1_000), None);
    wall.gifs.advance(100_000_000);
    assert_eq!(wall.gifs.cursors.get(&1), Some(&0));
    wall.gifs.advance(350_001_000);
    assert_eq!(wall.gifs.cursors.get(&1), Some(&3));
    wall.gifs.advance(400_000_000);
    assert_eq!(wall.gifs.cursors.get(&1), Some(&3));
    wall.gifs.advance(600_001_000);
    assert_eq!(wall.gifs.cursors.get(&1), Some(&2));
}

#[test]
fn dropped_tiles_stop_playing() {
    let mut wall = Wall::new(gifs(300), None, 0);
    load(&mut wall, &[0, 1]);
    wall.deliver_gif(0, 0, Some(&atlas(2)), 0);
    wall.deliver_gif(1, 0, Some(&atlas(2)), 0);
    wall.pool.evict(Window { first: 50, last: 60 }, Some(1));
    wall.gifs.retain(&wall.pool);
    assert!(wall.gifs.anims.get(&0).is_none());
    assert!(wall.gifs.anims.get(&1).is_some());
}

#[test]
fn tiles_are_painted_back_to_front() {
    let mut wall = Wall::new(gifs(5), None, 0);
    load(&mut wall, &[0, 2, 4]);
    wall.deliver_gif(4, 0, Some(&atlas(2)), 0);
    let painted = wall.instances(Window { first: 0, last: 1 }, true, Some(0));
    let looks: Vec<(usize, Look)> = painted.iter().map(|i| (i.index, i.look)).collect();
    assert_eq!(
        looks,
        vec![
            (2, Look::Reflection),
            (1, Look::Skeleton),
            (3, Look::Skeleton),
            (2, Look::Photo),
            (4, Look::Photo),
            (0, Look::Hovered),
        ]
    );
    assert_eq!(painted[4], Instance { index: 4, look: Look::Photo, layer: 2, frame: Some(0) });
    assert_eq!(painted[1], Instance { index: 1, look: Look::Skeleton, layer: 0, frame: None });
    let flat = wall.instances(Window { first: 0, last: 1 }, false, None);
    assert_eq!(flat.len(), 5);
    assert!(wall.instances(Window { first: 0, last: -1 }, true, None).is_empty());
}

#[test]
fn time_never_runs_backwards() {
    assert_eq!(since(10, 3), 7);
    assert_eq!(since(3, 10), 0);
}
