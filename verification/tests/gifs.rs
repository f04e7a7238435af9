use cooliris::gifs::{
    blit_into, decode_gif, decode_gif_atlas, frame_at, frame_delay, grid_for, play_on,
};
use cooliris::images::Pixels;
use image::codecs::gif::GifEncoder;
use image::{Delay, Frame, Rgba, RgbaImage};

fn gif(colours: &[[u8; 4]], ms: u32) -> Vec<u8> {
    let mut out = Vec::new();
    {
        let mut enc = GifEncoder::new(&mut out);
        for c in colours {
            let img = RgbaImage::from_pixel(8, 4, Rgba(*c));
            let delay = Delay::from_numer_denom_ms(ms, 1);
            enc.encode_frame(Frame::from_parts(img, 0, 0, delay)).unwrap();
        }
    }
    out
}

const RED: [u8; 4] = [255, 0, 0, 255];
const BLUE: [u8; 4] = [0, 0, 255, 255];

#[test]
fn frames_are_decoded_with_their_delays() {
    let frames = decode_gif(gif(&[RED, BLUE], 200), 2048, 400);
    assert_eq!(frames.len(), 2);
    assert_eq!(frames[0].delay, 200_000_000);
    assert_eq!((frames[0].pixels.w, frames[0].pixels.h), (8, 4));
    assert_eq!(&frames[0].pixels.rgba[0..4], &RED);
    assert_eq!(&frames[1].pixels.rgba[0..4], &BLUE);
}

#[test]
fn frames_are_capped_and_fitted() {
    let frames = decode_gif(gif(&[RED, BLUE, RED], 100), 4, 2);
    assert_eq!(frames.len(), 2);
    assert_eq!((frames[1].pixels.w, frames[1].pixels.h), (4, 2));
}

#[test]
fn broken_gifs_have_no_frames() {
    assert!(decode_gif(b"GIF89a".to_vec(), 64, 4).is_empty());
    assert!(decode_gif_atlas(Vec::new()).is_none());
}

#[test]
fn short_delays_stand_for_a_tenth_of_a_second() {
    assert_eq!(frame_delay(0, 1), 100_000_000);
    assert_eq!(frame_delay(19, 1), 100_000_000);
    assert_eq!(frame_delay(20, 1), 20_000_000);
    assert_eq!(frame_delay(100, 3), 33_333_333);
    assert_eq!(frame_delay(50, 0), 50_000_000);
}

#[test]
fn grids_are_as_small_as_they_can_be() {
    assert_eq!(grid_for(1), 1);
    assert_eq!(grid_for(2), 2);
    assert_eq!(grid_for(4), 2);
    assert_eq!(grid_for(5), 3);
    assert_eq!(grid_for(14), 4);
    assert_eq!(grid_for(256), 16);
}

#[test]
fn pictures_are_copied_where_they_belong() {
    let mut dst = vec![0u8; 4 * 3 * 4];
    let img = Pixels { rgba: (1..=16).collect(), w: 2, h: 2 };
    blit_into(&mut dst, 4, &img, 1, 1);
    assert_eq!(&dst[0..20], &[0u8; 20]);
    assert_eq!(&dst[20..28], &[1, 2, 3, 4, 5, 6, 7, 8]);
    assert_eq!(&dst[28..36], &[0u8; 8]);
    assert_eq!(&dst[36..44], &[9, 10, 11, 12, 13, 14, 15, 16]);
}

#[test]
fn packed_frames_read_back_from_their_cells() {
    let a = decode_gif_atlas(gif(&[RED, BLUE, RED], 100)).unwrap();
    assert_eq!((a.grid, a.cell, a.fw, a.fh), (2, 256, 8, 4));
    assert_eq!(a.rgba.len(), 512 * 512 * 4);
    assert_eq!(a.delays, vec![100_000_000; 3]);
    assert_eq!(a.total, 300_000_000);
    let at = |x: usize, y: usize| (y * 512 + x) * 4;
    assert_eq!(&a.rgba[at(0, 0)..at(0, 0) + 4], &RED);
    assert_eq!(&a.rgba[at(256, 0)..at(256, 0) + 4], &BLUE);
    assert_eq!(&a.rgba[at(7, 259)..at(7, 259) + 4], &RED);
    assert_eq!(&a.rgba[at(8, 256)..at(8, 256) + 4], &[0, 0, 0, 0]);
    assert_eq!(&a.rgba[at(256, 256)..at(256, 256) + 4], &[0, 0, 0, 0]);
}

#[test]
fn the_frame_of_a_time_is_found() {
    let delays = vec![100u64, 50, 200];
    assert_eq!(frame_at(&delays, 350, 0), 0);
    assert_eq!(frame_at(&delays, 350, 99), 0);
    assert_eq!(frame_at(&delays, 350, 100), 1);
    assert_eq!(frame_at(&delays, 350, 150), 2);
    assert_eq!(frame_at(&delays, 350, 349), 2);
    assert_eq!(frame_at(&delays, 350, 350), 0);
    assert_eq!(frame_at(&delays, 350, 455), 1);
}

#[test]
fn loops_play_on() {
    let delays = vec![100u64, 50, 200];
    assert_eq!(play_on(&delays, 0, 99), (0, 99));
    assert_eq!(play_on(&delays, 0, 100), (1, 0));
    assert_eq!(play_on(&delays, 1, 260), (0, 10));
}
