use cooliris::tiles::{music_placeholder, video_placeholder};

fn pixel(rgba: &[u8], x: usize, y: usize) -> [u8; 4] {
    let i = (y * 512 + x) * 4;
    [rgba[i], rgba[i + 1], rgba[i + 2], rgba[i + 3]]
}

#[test]
fn video_tiles_match_the_real_valued_triangle() {
    let tile = video_placeholder();
    assert_eq!(tile.len(), 512 * 512 * 4);
    for y in 0..512usize {
        let fy = y as f32 / 512.0;
        for x in 0..512usize {
            let fx = x as f32 / 512.0;
            let inside = fx > 0.40 && fx < 0.60 && (fy - 0.5).abs() < (0.60 - fx) * 0.9;
            let want = if inside { [235, 235, 240, 255] } else { [20, 22, 28, 255] };
            assert_eq!(pixel(&tile, x, y), want, "{x} {y}");
        }
    }
}

#[test]
fn music_tiles_match_the_real_valued_note() {
    let tile = music_placeholder();
    assert_eq!(tile.len(), 512 * 512 * 4);
    let (cx, cy) = (512f32 * 0.42, 512f32 * 0.62);
    let r = 512f32 * 0.10;
    let stem = cx + r * 0.9;
    for y in 0..512usize {
        for x in 0..512usize {
            let (fx, fy) = (x as f32, y as f32);
            let note = (fx - cx).hypot(fy - cy) < r
                || (fx >= stem && fx < stem + r * 0.32 && fy > cy - r * 4.0 && fy < cy)
                || (fx >= stem && fx < stem + r * 1.6 && fy > cy - r * 4.0 && fy < cy - r * 3.0);
            let want = if note { [225, 225, 235, 255] } else { [26, 24, 34, 255] };
            assert_eq!(pixel(&tile, x, y), want, "{x} {y}");
        }
    }
}
