use cooliris::icons::pack_icons;
use cooliris::images::Pixels;
use cooliris::widgets::Icon;

fn cell(v: u8) -> Option<Pixels> {
    Some(Pixels { rgba: vec![v; 64 * 64 * 4], w: 64, h: 64 })
}

#[test]
fn icons_stand_in_cells_of_their_own() {
    let cells = vec![cell(1), cell(2), None, cell(4), cell(5)];
    let a = pack_icons(&cells);
    assert_eq!((a.grid, a.dim), (3, 192));
    assert_eq!(a.rgba.len(), 192 * 192 * 4);
    let at = |x: usize, y: usize| a.rgba[(y * 192 + x) * 4];
    assert_eq!(at(0, 0), 1);
    assert_eq!(at(63, 63), 1);
    assert_eq!(at(64, 0), 2);
    assert_eq!(at(128, 0), 0);
    assert_eq!(at(0, 64), 4);
    assert_eq!(at(127, 127), 5);
    assert_eq!(at(128, 128), 0);
}

#[test]
fn every_icon_has_a_name() {
    let names: Vec<&str> = Icon::all().into_iter().map(|i| i.name()).collect();
    assert_eq!(names.len(), 14);
    assert_eq!(names[0], "play");
    assert!(names.contains(&"fullscreen-exit"));
    let a = pack_icons(&names.iter().map(|_| cell(9)).collect());
    assert_eq!((a.grid, a.dim), (4, 256));
}
