use torch_lights::animation_handler::{
    parse_bmp, parse_fps, parse_frame_index, split_name, AnimationHandler, frame_from_rgb,
};
use torch_lights::messages::CommandError;

/// A 7x22 bitmap, 24 bits per pixel, every pixel the same color.
fn solid_bmp(r: u8, g: u8, b: u8) -> Vec<u8> {
    let width = 7u32;
    let height = 22u32;
    let row_bytes = 24u32; // 7 * 3 = 21, padded to a multiple of 4
    let image_size = row_bytes * height;
    let mut v = Vec::new();
    v.extend_from_slice(b"BM");
    v.extend_from_slice(&(54 + image_size).to_le_bytes());
    v.extend_from_slice(&[0, 0, 0, 0]);
    v.extend_from_slice(&54u32.to_le_bytes());
    v.extend_from_slice(&40u32.to_le_bytes());
    v.extend_from_slice(&(width as i32).to_le_bytes());
    v.extend_from_slice(&(height as i32).to_le_bytes());
    v.extend_from_slice(&1u16.to_le_bytes());
    v.extend_from_slice(&24u16.to_le_bytes());
    v.extend_from_slice(&0u32.to_le_bytes());
    v.extend_from_slice(&image_size.to_le_bytes());
    v.extend_from_slice(&2835u32.to_le_bytes());
    v.extend_from_slice(&2835u32.to_le_bytes());
    v.extend_from_slice(&0u32.to_le_bytes());
    v.extend_from_slice(&0u32.to_le_bytes());
    for _row in 0..height {
        for _col in 0..width {
            v.extend_from_slice(&[b, g, r]); // BGR on disk
        }
        v.extend_from_slice(&[0, 0, 0]); // row padding
    }
    v
}

fn scaled(c: u8) -> u8 {
    ((c as u16) * 100 / 255) as u8
}

#[test]
fn parse_fps_accepts_padded_decimals() {
    assert_eq!(parse_fps(&b" 12\n".to_vec()), Some(12));
    assert_eq!(parse_fps(&b"255".to_vec()), Some(255));
    assert_eq!(parse_fps(&b"007".to_vec()), Some(7));
    assert_eq!(parse_fps(&b"\t1\r\n".to_vec()), Some(1));
}

#[test]
fn parse_fps_rejects_bad_rates() {
    assert_eq!(parse_fps(&b"0".to_vec()), None);
    assert_eq!(parse_fps(&b"256".to_vec()), None);
    assert_eq!(parse_fps(&b"12a".to_vec()), None);
    assert_eq!(parse_fps(&b"".to_vec()), None);
    assert_eq!(parse_fps(&b"  ".to_vec()), None);
    assert_eq!(parse_fps(&b"1 2".to_vec()), None);
}

#[test]
fn split_name_cuts_at_last_dot() {
    let (stem, ext) = split_name("3.bmp").unwrap();
    assert_eq!(stem, "3");
    assert_eq!(ext, "bmp");
    let (stem, ext) = split_name("a.b.c").unwrap();
    assert_eq!(stem, "a.b");
    assert_eq!(ext, "c");
    assert!(split_name("noextension").is_none());
}

#[test]
fn parse_frame_index_is_plain_decimal() {
    assert_eq!(parse_frame_index("42"), Some(42));
    assert_eq!(parse_frame_index("0"), Some(0));
    assert_eq!(parse_frame_index(""), None);
    assert_eq!(parse_frame_index("4x"), None);
    assert_eq!(parse_frame_index("99999999999999999999999999"), None);
}

#[test]
fn frame_from_rgb_scales_every_channel() {
    let rgb: Vec<u8> = (0..462u16).map(|i| (i % 256) as u8).collect();
    let frame = frame_from_rgb(&rgb).unwrap();
    // Pixel at row 1, column 2 starts at byte 1*21 + 2*3 = 27.
    assert_eq!(frame[1][2], (scaled(27), scaled(28), scaled(29)));
    assert_eq!(frame[0][0], (scaled(0), scaled(1), scaled(2)));
    assert_eq!(frame[21][6], (scaled((459u16 % 256) as u8), scaled((460u16 % 256) as u8), scaled((461u16 % 256) as u8)));
}

#[test]
fn frame_from_rgb_rejects_wrong_sizes() {
    assert_eq!(frame_from_rgb(&vec![0u8; 461]), Err(CommandError::InvalidFormat));
    assert_eq!(frame_from_rgb(&vec![0u8; 0]), Err(CommandError::InvalidFormat));
}

#[test]
fn parse_bmp_decodes_and_scales() {
    let frame = parse_bmp(&solid_bmp(255, 0, 128)).unwrap();
    for row in frame.iter() {
        for px in row.iter() {
            assert_eq!(*px, (100, 0, scaled(128)));
        }
    }
}

#[test]
fn parse_bmp_rejects_garbage() {
    assert_eq!(parse_bmp(&b"not a bitmap".to_vec()), Err(CommandError::InvalidFormat));
}

#[test]
fn load_builds_an_animation_from_a_bundle() {
    let mut store = AnimationHandler::default();
    let files = vec![
        ("0.bmp".to_owned(), solid_bmp(255, 0, 0)),
        ("1.bmp".to_owned(), solid_bmp(0, 255, 0)),
        ("speed.fps".to_owned(), b"2".to_vec()),
        ("readme.txt".to_owned(), b"ignored".to_vec()),
    ];
    store.load("blink", &files).unwrap();
    let anim = store.find(&"blink".to_owned()).unwrap();
    assert_eq!(anim.fps, 2);
    assert_eq!(anim.frames.len(), 2);
    assert_eq!(anim.frames[0][0][0], (100, 0, 0));
    assert_eq!(anim.frames[1][0][0], (0, 100, 0));
}

#[test]
fn load_replaces_an_entry_of_the_same_name() {
    let mut store = AnimationHandler::default();
    let one = vec![("0.bmp".to_owned(), solid_bmp(1, 2, 3))];
    let two = vec![
        ("0.bmp".to_owned(), solid_bmp(9, 9, 9)),
        ("1.bmp".to_owned(), solid_bmp(8, 8, 8)),
    ];
    store.load("a", &one).unwrap();
    store.load("a", &two).unwrap();
    assert_eq!(store.animations.len(), 1);
    assert_eq!(store.find(&"a".to_owned()).unwrap().frames.len(), 2);
}

#[test]
fn load_rejects_missing_frame_indexes() {
    let mut store = AnimationHandler::default();
    let files = vec![("1.bmp".to_owned(), solid_bmp(0, 0, 0))]; // no 0.bmp
    assert_eq!(store.load("gap", &files), Err(CommandError::InvalidFormat));
    assert_eq!(store.animations.len(), 0);
}

#[test]
fn load_rejects_empty_and_malformed_bundles() {
    let mut store = AnimationHandler::default();
    assert_eq!(store.load("empty", &Vec::new()), Err(CommandError::InvalidFormat));
    let nodot = vec![("framezero".to_owned(), solid_bmp(0, 0, 0))];
    assert_eq!(store.load("nodot", &nodot), Err(CommandError::InvalidFormat));
    let badfps = vec![
        ("0.bmp".to_owned(), solid_bmp(0, 0, 0)),
        ("x.fps".to_owned(), b"0".to_vec()),
    ];
    assert_eq!(store.load("badfps", &badfps), Err(CommandError::InvalidFormat));
    let badindex = vec![("x.bmp".to_owned(), solid_bmp(0, 0, 0))];
    assert_eq!(store.load("badindex", &badindex), Err(CommandError::InvalidFormat));
    assert_eq!(store.animations.len(), 0);
}

#[test]
fn load_defaults_to_one_frame_per_second() {
    let mut store = AnimationHandler::default();
    let files = vec![("0.bmp".to_owned(), solid_bmp(5, 5, 5))];
    store.load("slow", &files).unwrap();
    assert_eq!(store.find(&"slow".to_owned()).unwrap().fps, 1);
}
