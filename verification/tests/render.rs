use braille_render::render::Action;
use braille_render::render::Bitmap;
use braille_render::render::Dimensions;
use braille_render::render::KeyInput;
use braille_render::render::clamp_dimensions;
use braille_render::render::render_frame;
use braille_render::render::render_resized;
use braille_render::render::step;

#[test]
fn bitmap_new_checks_length() {
    assert!(Bitmap::new(2, 4, vec![0u8; 8]).is_some());
    assert!(Bitmap::new(2, 4, vec![0u8; 7]).is_none());
    assert!(Bitmap::new(2, 4, vec![0u8; 9]).is_none());
}

#[test]
fn frame_single_block() {
    // Only the pixel at column 0, row 3 is on: dot (0, 3) is bit 6, offset 64.
    let mut pixels = vec![0u8; 8];
    pixels[3 * 2] = 255;
    let bm = Bitmap::new(2, 4, pixels).unwrap();
    assert_eq!(render_frame(&bm), "⡀\r\n".as_bytes());
}

#[test]
fn frame_two_blocks() {
    // Left block fully on, right block fully off.
    let mut pixels = vec![0u8; 16];
    for y in 0..4 {
        for x in 0..2 {
            pixels[y * 4 + x] = 1;
        }
    }
    let bm = Bitmap::new(4, 4, pixels).unwrap();
    assert_eq!(render_frame(&bm), "⣿⠀\r\n".as_bytes());
}

#[test]
fn frame_two_rows() {
    let pixels = vec![255u8; 16];
    let bm = Bitmap::new(2, 8, pixels).unwrap();
    assert_eq!(render_frame(&bm), "⣿\r\n⣿\r\n".as_bytes());
}

#[test]
fn resize_floor() {
    let mut d = Dimensions { width: 12, height: 12 };
    for _ in 0..5 {
        match step(d, KeyInput::Up) {
            Action::Redraw(d2) => d = d2,
            _ => panic!(),
        }
    }
    assert_eq!(d, Dimensions { width: 12, height: 4 });
    for _ in 0..5 {
        match step(d, KeyInput::Left) {
            Action::Redraw(d2) => d = d2,
            _ => panic!(),
        }
    }
    assert_eq!(d, Dimensions { width: 4, height: 4 });
}

#[test]
fn resize_grows_by_four() {
    let d = Dimensions { width: 8, height: 12 };
    assert_eq!(step(d, KeyInput::Down), Action::Redraw(Dimensions { width: 8, height: 16 }));
    assert_eq!(step(d, KeyInput::Right), Action::Redraw(Dimensions { width: 12, height: 12 }));
}

#[test]
fn escape_exits_and_other_keys_wait() {
    let d = Dimensions { width: 8, height: 8 };
    assert_eq!(step(d, KeyInput::Escape), Action::Exit);
    assert_eq!(step(d, KeyInput::Other), Action::Ignore);
}

#[test]
fn clamp_initial_viewport() {
    assert_eq!(clamp_dimensions(512, 64), None);
    assert_eq!(clamp_dimensions(100, 32), None);
    assert_eq!(clamp_dimensions(1024, 32), Some((512, 32)));
    assert_eq!(clamp_dimensions(100, 100), Some((100, 64)));
    assert_eq!(clamp_dimensions(513, 65), Some((512, 64)));
}

#[test]
fn resampled_frame_all_on() {
    let src = Bitmap::new(2, 4, vec![255u8; 8]).unwrap();
    let dims = Dimensions { width: 4, height: 8 };
    assert_eq!(render_resized(&src, dims), "⣿⣿\r\n⣿⣿\r\n".as_bytes());
}

#[test]
fn resampled_frame_all_off() {
    let src = Bitmap::new(2, 4, vec![0u8; 8]).unwrap();
    let dims = Dimensions { width: 4, height: 8 };
    assert_eq!(render_resized(&src, dims), "⠀⠀\r\n⠀⠀\r\n".as_bytes());
}
