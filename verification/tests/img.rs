use bw_img::file::video::{convert_frame, convert_video_to_bw_imgs};
use bw_img::img::luma::luma_of;
use bw_img::{
    is_white, iter_direction, to_bw_data_byte, BWByteData, BWByteIter, BWDataErr, BWError,
    BWImage, BWImageSize, BWIterState, ImageData, IterDirection, IterOutput, NormalImage, RgbData,
};

const PICTURE: [&str; 11] = [
    "....######....",
    "..##......##..",
    ".#..........#.",
    ".#..##..##..#.",
    "#...##..##...#",
    "#............#",
    "#..#......#..#",
    ".#..######..#.",
    ".#..........#.",
    "..##......##..",
    "....######....",
];

fn rgba_of(pattern: &[&str]) -> (Vec<u8>, u32, u32) {
    let height = pattern.len() as u32;
    let width = pattern[0].len() as u32;
    let mut data = Vec::new();
    for row in pattern {
        for c in row.chars() {
            if c == '#' {
                data.extend_from_slice(&[250, 240, 230, 255]);
            } else {
                data.extend_from_slice(&[10, 20, 30, 0]);
            }
        }
    }
    (data, width, height)
}

fn rgb_of(pattern: &[&str]) -> (Vec<u8>, u32, u32) {
    let (rgba, width, height) = rgba_of(pattern);
    let rgb = rgba.chunks(4).flat_map(|p| p[..3].to_vec()).collect();
    (rgb, width, height)
}

fn drawn(pattern: &[&str]) -> String {
    let mut out = String::new();
    for row in pattern {
        for c in row.chars() {
            out.push_str(if c == '#' { "██" } else { "  " });
        }
        out.push('\n');
    }
    out
}

fn all_of<D: IterDirection>(mut it: BWByteIter<D>) -> Vec<IterOutput> {
    let mut out = Vec::new();
    while let Some(ele) = it.next() {
        out.push(ele);
    }
    out
}

#[test]
fn img_rs_horizontal() {
    let (data, width, height) = rgba_of(&PICTURE);
    let img = BWImage::parse(&NormalImage::new(&data, width, height)).unwrap();
    let mut out = String::new();
    let mut it = img.iterator(iter_direction::Horizontal);
    while let Some(ele) = it.next() {
        match ele {
            IterOutput::Byte { byte, len } => {
                for ele in byte.bw_byte_iter(len) {
                    if ele {
                        out.push_str("██");
                    } else {
                        out.push_str("  ");
                    }
                }
            }
            IterOutput::NewLine => out.push('\n'),
        }
    }
    assert_eq!(drawn(&PICTURE).as_bytes(), out.as_bytes());
}

#[test]
fn img_rs_vertical() {
    let (data, width, height) = rgba_of(&PICTURE);
    let img = BWImage::parse(&NormalImage::new(&data, width, height)).unwrap();
    let mut out: Vec<Vec<bool>> = vec![];
    let mut current = vec![];
    let mut it = img.iterator(iter_direction::Vertical);
    while let Some(ele) = it.next() {
        match ele {
            IterOutput::Byte { byte, len } => {
                for ele in byte.bw_byte_iter(len) {
                    current.push(ele);
                }
            }
            IterOutput::NewLine => {
                out.push(current);
                current = vec![];
            }
        }
    }

    assert_eq!(out.len(), img.size.width as usize);
    let rows = out[0].len();
    assert_eq!(rows, img.size.height as usize);
    let mut rotated = String::new();
    for row in 0..rows {
        for col in 0..img.size.width as usize {
            rotated.push_str(if out[col][row] { "██" } else { "  " });
        }
        rotated.push('\n');
    }
    assert_eq!(rotated, drawn(&PICTURE));
}

#[test]
fn padded_length_rounds_every_row_up() {
    let len = |width, height| BWImageSize { width, height }.get_padded_bytes_len();
    assert_eq!(len(0, 0), 0);
    assert_eq!(len(0, 9), 0);
    assert_eq!(len(9, 0), 0);
    assert_eq!(len(1, 1), 1);
    assert_eq!(len(8, 1), 1);
    assert_eq!(len(9, 1), 2);
    assert_eq!(len(8, 2), 2);
    assert_eq!(len(13, 3), 6);
    assert_eq!(len(1920, 1080), 259_200);
    assert_eq!(len(u32::MAX, u32::MAX), 0x2000_0000 * 0xFFFF_FFFF);
}

#[test]
fn threshold_is_strict() {
    assert!(is_white(255, 255, 255, 128));
    assert!(!is_white(0, 0, 0, 128));
    assert_eq!(luma_of(128, 128, 128), 128);
    assert!(!is_white(128, 128, 128, 128));
    assert!(is_white(129, 129, 129, 128));
    assert!(is_white(128, 128, 128, 127));
    assert!(!is_white(255, 255, 255, 255));
    assert!(is_white(0, 0, 1, 0) == (luma_of(0, 0, 1) > 0));
    assert!(is_white(1, 1, 1, 0));
}

#[test]
fn brightness_is_weighted_and_truncated() {
    assert_eq!(luma_of(255, 255, 255), 255);
    assert_eq!(luma_of(0, 0, 0), 0);
    assert_eq!(luma_of(255, 0, 0), 76);
    assert_eq!(luma_of(0, 255, 0), 149);
    assert_eq!(luma_of(0, 0, 255), 29);
    assert_eq!(luma_of(200, 100, 50), 124);
    assert_eq!(luma_of(100, 150, 200), 140);
    assert_eq!(luma_of(130, 128, 128), 128);
    assert_eq!(luma_of(1, 1, 1), 1);
}

#[test]
fn brightness_follows_single_precision() {
    for (r, g, b) in [(8u8, 80u8, 32u8), (9, 63, 152), (255, 255, 255), (200, 100, 50), (1, 2, 3)] {
        let expected = (0.299 * r as f32 + 0.587 * g as f32 + 0.114 * b as f32) as u8;
        assert_eq!(luma_of(r, g, b), expected);
    }
    assert_eq!(luma_of(8, 80, 32), 52);
    assert_eq!(luma_of(9, 63, 152), 56);
    for r in (0..=255u8).step_by(5) {
        for g in (0..=255u8).step_by(3) {
            for b in (0..=255u8).step_by(7) {
                let expected = (0.299 * r as f32 + 0.587 * g as f32 + 0.114 * b as f32) as u8;
                assert_eq!(luma_of(r, g, b), expected);
                assert_eq!(is_white(r, g, b, 128), expected > 128);
            }
        }
    }
}

fn agrees_with_single_precision(reds: std::ops::RangeInclusive<u8>) {
    for r in reds {
        for g in 0..=255u8 {
            let first = 0.299 * r as f32 + 0.587 * g as f32;
            for b in 0..=255u8 {
                assert_eq!(luma_of(r, g, b), (first + 0.114 * b as f32) as u8);
            }
        }
    }
}

#[test]
fn brightness_agrees_with_single_precision_for_reds_0_to_31() {
    agrees_with_single_precision(0..=31);
}

#[test]
fn brightness_agrees_with_single_precision_for_reds_32_to_63() {
    agrees_with_single_precision(32..=63);
}

#[test]
fn brightness_agrees_with_single_precision_for_reds_64_to_95() {
    agrees_with_single_precision(64..=95);
}

#[test]
fn brightness_agrees_with_single_precision_for_reds_96_to_127() {
    agrees_with_single_precision(96..=127);
}

#[test]
fn brightness_agrees_with_single_precision_for_reds_128_to_159() {
    agrees_with_single_precision(128..=159);
}

#[test]
fn brightness_agrees_with_single_precision_for_reds_160_to_191() {
    agrees_with_single_precision(160..=191);
}

#[test]
fn brightness_agrees_with_single_precision_for_reds_192_to_223() {
    agrees_with_single_precision(192..=223);
}

#[test]
fn brightness_agrees_with_single_precision_for_reds_224_to_255() {
    agrees_with_single_precision(224..=255);
}

#[test]
fn a_byte_packs_its_first_pixel_highest() {
    assert_eq!(to_bw_data_byte(&[]), 0);
    assert_eq!(to_bw_data_byte(&[true]), 0b1000_0000);
    assert_eq!(to_bw_data_byte(&[false, true]), 0b0100_0000);
    assert_eq!(to_bw_data_byte(&[true, false, true]), 0b1010_0000);
    assert_eq!(to_bw_data_byte(&[true; 8]), 0xFF);
    assert_eq!(
        to_bw_data_byte(&[false, false, false, false, false, false, false, true]),
        1
    );
    assert_eq!(
        to_bw_data_byte(&[true, true, false, false, true, false, true, true]),
        0b1100_1011
    );
}

#[test]
fn a_byte_gives_its_pixels_back() {
    assert_eq!(
        0b1010_0001u8.bw_byte_iter(8),
        vec![true, false, true, false, false, false, false, true]
    );
    assert_eq!(0b1010_0001u8.bw_byte_iter(3), vec![true, false, true]);
    assert_eq!(0xFFu8.bw_byte_iter(0), Vec::<bool>::new());
    for byte in 0..=255u8 {
        assert_eq!(to_bw_data_byte(&byte.bw_byte_iter(8)), byte);
    }
}

#[test]
fn rgb_rows_are_packed_one_by_one() {
    let (data, width, height) = rgb_of(&["#.#.#.#.#.", ".........#", "##########"]);
    let source = RgbData::new(&data, width, height);
    assert_eq!(source.image_config(), BWImageSize { width: 10, height: 3 });
    assert_eq!(
        source.to_bw_data().unwrap(),
        vec![0b1010_1010, 0b1000_0000, 0b0000_0000, 0b0100_0000, 0xFF, 0b1100_0000]
    );
    let img = source.parse_bw_image().unwrap();
    assert_eq!(img.size, BWImageSize { width: 10, height: 3 });
    assert_eq!(img.pixels.len() as u64, img.size.get_padded_bytes_len());
    assert!(img.is_well_formed());
}

#[test]
fn rgb_and_decoded_pictures_pack_alike() {
    let (rgb, width, height) = rgb_of(&PICTURE);
    let (rgba, _, _) = rgba_of(&PICTURE);
    let a = BWImage::parse(&RgbData::new(&rgb, width, height)).unwrap();
    let b = BWImage::parse(&NormalImage::new(&rgba, width, height)).unwrap();
    assert_eq!(a.size, b.size);
    assert_eq!(a.pixels, b.pixels);
    assert_eq!(a.pixels.len(), 2 * 11);
    assert_eq!(&a.pixels[..4], &[0b0000_1111, 0b1100_0000, 0b0011_0000, 0b0011_0000]);
}

#[test]
fn the_threshold_can_be_changed() {
    let data = [100u8, 100, 100, 200, 200, 200];
    let mut source = RgbData::new(&data, 2, 1);
    assert_eq!(source.to_bw_data().unwrap(), vec![0b0100_0000]);
    source.set_bw_threshold(99);
    assert_eq!(source.to_bw_data().unwrap(), vec![0b1100_0000]);
    source.set_bw_threshold(100);
    assert_eq!(source.to_bw_data().unwrap(), vec![0b0100_0000]);
    source.set_bw_threshold(200);
    assert_eq!(source.to_bw_data().unwrap(), vec![0]);

    let rgba = [100u8, 100, 100, 0, 200, 200, 200, 0];
    let mut picture = NormalImage::new(&rgba, 2, 1);
    assert_eq!(picture.to_bw_data().unwrap(), vec![0b0100_0000]);
    picture.set_bw_threshold(99);
    assert_eq!(picture.to_bw_data().unwrap(), vec![0b1100_0000]);
}

#[test]
fn a_buffer_that_does_not_fit_is_rejected() {
    let data = [0u8; 10];
    assert_eq!(RgbData::new(&data, 2, 2).to_bw_data(), Err(BWDataErr::WrongSize(2, 2, 3)));
    assert_eq!(RgbData::new(&data[..9], 2, 2).to_bw_data(), Err(BWDataErr::WrongSize(2, 2, 3)));
    assert_eq!(RgbData::new(&data[..9], 3, 1).to_bw_data(), Ok(vec![0]));
    assert_eq!(RgbData::new(&data[..9], 1, 3).to_bw_data(), Ok(vec![0, 0, 0]));
    assert_eq!(RgbData::new(&data[..0], 0, 0).to_bw_data(), Ok(vec![]));
    assert_eq!(RgbData::new(&data[..0], 0, 7).to_bw_data(), Ok(vec![]));
    assert_eq!(RgbData::new(&data[..3], 0, 7).to_bw_data(), Err(BWDataErr::WrongSize(0, 7, 1)));
    assert_eq!(
        RgbData::new(&data, u32::MAX, u32::MAX).to_bw_data(),
        Err(BWDataErr::WrongSize(u32::MAX, u32::MAX, 3))
    );
    assert_eq!(
        BWImage::parse(&NormalImage::new(&data, 2, 1)).unwrap_err(),
        BWDataErr::WrongSize(2, 1, 2)
    );
    assert_eq!(
        NormalImage::new(&data[..8], 2, 1).parse_bw_image().unwrap().pixels,
        vec![0]
    );
}

#[test]
fn an_image_is_built_only_over_a_buffer_that_fits() {
    let size = BWImageSize { width: 9, height: 2 };
    let img = BWImage::new(size, vec![1, 2, 3, 4]).unwrap();
    assert_eq!(img.size, size);
    assert_eq!(img.pixels, vec![1, 2, 3, 4]);
    assert!(img.is_well_formed());
    assert_eq!(BWImage::new(size, vec![1, 2, 3]).unwrap_err(), BWDataErr::WrongSize(9, 2, 3));
    assert_eq!(BWImage::new(size, vec![0; 5]).unwrap_err(), BWDataErr::WrongSize(9, 2, 5));
    assert!(BWImage::new(BWImageSize { width: 0, height: 4 }, vec![]).is_ok());
}

#[test]
fn horizontal_walk_over_two_full_rows() {
    let img = BWImage { size: BWImageSize { width: 8, height: 2 }, pixels: vec![0xFF, 0xFF] };
    assert_eq!(
        all_of(img.iterator(iter_direction::Horizontal)),
        vec![
            IterOutput::Byte { byte: 0xFF, len: 8 },
            IterOutput::NewLine,
            IterOutput::Byte { byte: 0xFF, len: 8 },
            IterOutput::NewLine,
        ]
    );
}

#[test]
fn horizontal_walk_ends_a_row_with_a_short_chunk() {
    let img = BWImage {
        size: BWImageSize { width: 11, height: 2 },
        pixels: vec![0x12, 0xE0, 0x34, 0xA0],
    };
    assert_eq!(
        all_of(img.iterator(iter_direction::Horizontal)),
        vec![
            IterOutput::Byte { byte: 0x12, len: 8 },
            IterOutput::Byte { byte: 0xE0, len: 3 },
            IterOutput::NewLine,
            IterOutput::Byte { byte: 0x34, len: 8 },
            IterOutput::Byte { byte: 0xA0, len: 3 },
            IterOutput::NewLine,
        ]
    );
}

#[test]
fn vertical_walk_transposes() {
    let img = BWImage {
        size: BWImageSize { width: 3, height: 10 },
        pixels: vec![0x80, 0x40, 0x20, 0x80, 0x40, 0x20, 0x80, 0x40, 0x20, 0xE0],
    };
    assert_eq!(
        all_of(img.iterator(iter_direction::Vertical)),
        vec![
            IterOutput::Byte { byte: 0b1001_0010, len: 8 },
            IterOutput::Byte { byte: 0b0100_0000, len: 2 },
            IterOutput::NewLine,
            IterOutput::Byte { byte: 0b0100_1001, len: 8 },
            IterOutput::Byte { byte: 0b0100_0000, len: 2 },
            IterOutput::NewLine,
            IterOutput::Byte { byte: 0b0010_0100, len: 8 },
            IterOutput::Byte { byte: 0b1100_0000, len: 2 },
            IterOutput::NewLine,
        ]
    );
}

#[test]
fn walks_over_empty_images_end_at_once() {
    let img = BWImage { size: BWImageSize { width: 0, height: 0 }, pixels: vec![] };
    assert_eq!(all_of(img.iterator(iter_direction::Horizontal)), vec![]);
    assert_eq!(all_of(img.iterator(iter_direction::Vertical)), vec![]);
    let img = BWImage { size: BWImageSize { width: 0, height: 2 }, pixels: vec![] };
    assert_eq!(
        all_of(img.iterator(iter_direction::Horizontal)),
        vec![IterOutput::NewLine, IterOutput::NewLine]
    );
    assert_eq!(all_of(img.iterator(iter_direction::Vertical)), vec![]);
    let img = BWImage { size: BWImageSize { width: 2, height: 0 }, pixels: vec![] };
    assert_eq!(all_of(img.iterator(iter_direction::Horizontal)), vec![]);
    assert_eq!(
        all_of(img.iterator(iter_direction::Vertical)),
        vec![IterOutput::NewLine, IterOutput::NewLine]
    );
}

#[test]
fn a_direction_gives_the_next_position() {
    let pixels = [0xAAu8, 0x80, 0x55, 0x00];
    let size = BWImageSize { width: 9, height: 2 };
    let at = |current| BWIterState { size, current, pixels: &pixels };
    let mut h = iter_direction::Horizontal;
    assert_eq!(h.next(at((0, 0))), Some(((8, 0), IterOutput::Byte { byte: 0xAA, len: 8 })));
    assert_eq!(h.next(at((8, 0))), Some(((16, 0), IterOutput::Byte { byte: 0x80, len: 1 })));
    assert_eq!(h.next(at((16, 0))), Some(((0, 1), IterOutput::NewLine)));
    assert_eq!(h.next(at((0, 1))), Some(((8, 1), IterOutput::Byte { byte: 0x55, len: 8 })));
    assert_eq!(h.next(at((9, 1))), Some(((0, 2), IterOutput::NewLine)));
    assert_eq!(h.next(at((0, 2))), None);
    let mut v = iter_direction::Vertical;
    assert_eq!(v.next(at((0, 0))), Some(((0, 2), IterOutput::Byte { byte: 0b1000_0000, len: 2 })));
    assert_eq!(v.next(at((1, 0))), Some(((1, 2), IterOutput::Byte { byte: 0b0100_0000, len: 2 })));
    assert_eq!(v.next(at((8, 1))), Some(((8, 2), IterOutput::Byte { byte: 0, len: 1 })));
    assert_eq!(v.next(at((8, 0))), Some(((8, 2), IterOutput::Byte { byte: 0b1000_0000, len: 2 })));
    assert_eq!(v.next(at((8, 2))), Some(((9, 0), IterOutput::NewLine)));
    assert_eq!(v.next(at((9, 0))), None);

    let wide = BWImageSize { width: u32::MAX, height: 0 };
    let none: [u8; 0] = [];
    let far = BWIterState { size: wide, current: (u32::MAX - 3, 0), pixels: &none };
    assert_eq!(h.next(far), None);
    let mut it = BWByteIter::new(&size, &pixels, iter_direction::Horizontal);
    assert_eq!(it.next(), Some(IterOutput::Byte { byte: 0xAA, len: 8 }));
}

#[test]
fn frames_that_do_not_fit_are_skipped() {
    let (good, width, height) = rgb_of(&["#.", ".#"]);
    let mut frames = Vec::new();
    let mut skipped = 0;
    let whole = RgbData::new(&good, width, height);
    assert_eq!(convert_frame(&whole, &mut frames, &mut skipped), Ok(()));
    let cut = RgbData::new(&good[..11], width, height);
    assert_eq!(convert_frame(&cut, &mut frames, &mut skipped), Ok(()));
    let taller = RgbData::new(&good, width, height + 1);
    assert_eq!(convert_frame(&taller, &mut frames, &mut skipped), Ok(()));
    let turned = RgbData::new(&good, height, width);
    assert_eq!(convert_frame(&turned, &mut frames, &mut skipped), Ok(()));
    assert_eq!(skipped, 2);
    assert_eq!(frames.len(), 2);
    assert_eq!(frames[0].pixels, vec![0b1000_0000, 0b0100_0000]);
    assert_eq!(frames[1].size, BWImageSize { width: 2, height: 2 });

    let mut full = u64::MAX;
    assert_eq!(convert_frame(&RgbData::new(&good[..1], 1, 1), &mut frames, &mut full), Ok(()));
    assert_eq!(full, u64::MAX);
    assert_eq!(frames.len(), 2);
}

struct Broken;

impl ImageData for Broken {
    fn to_bw_data(&self) -> Result<Vec<u8>, BWDataErr> {
        Err(BWDataErr::Custom("no pixels".to_string()))
    }

    fn image_config(&self) -> BWImageSize {
        BWImageSize { width: 1, height: 1 }
    }
}

#[test]
fn other_failures_of_a_frame_are_passed_on() {
    let mut frames = Vec::new();
    let mut skipped = 0;
    assert_eq!(
        convert_frame(&Broken, &mut frames, &mut skipped),
        Err(BWError::BWDataErr(BWDataErr::Custom("no pixels".to_string())))
    );
    assert_eq!(skipped, 0);
    assert!(frames.is_empty());
    assert_eq!(Broken.parse_bw_image().unwrap_err(), BWDataErr::Custom("no pixels".to_string()));
    assert_eq!(BWImage::parse(&Broken).unwrap_err(), BWDataErr::Custom("no pixels".to_string()));
}

struct Diagonal;

impl IterDirection for Diagonal {
    fn next(&mut self, state: BWIterState) -> Option<((u32, u32), IterOutput)> {
        let (x, y) = state.current;
        if x >= state.size.width || y >= state.size.height {
            None
        } else {
            let at = (y * ((state.size.width + 7) / 8) + x / 8) as usize;
            let on = state.pixels[at].bw_byte_iter(8)[(x % 8) as usize];
            let byte = if on { 0x80 } else { 0 };
            Some(((x + 1, y + 1), IterOutput::Byte { byte, len: 1 }))
        }
    }
}

#[test]
fn a_direction_of_ones_own_can_be_walked() {
    let img = BWImage {
        size: BWImageSize { width: 3, height: 3 },
        pixels: vec![0b1000_0000, 0b0000_0000, 0b0010_0000],
    };
    assert_eq!(
        all_of(img.iterator(Diagonal)),
        vec![
            IterOutput::Byte { byte: 0x80, len: 1 },
            IterOutput::Byte { byte: 0, len: 1 },
            IterOutput::Byte { byte: 0x80, len: 1 },
        ]
    );
}

#[test]
fn packets_are_put_together_in_order() {
    let img = |seed: u8| BWImage { size: BWImageSize { width: 8, height: 1 }, pixels: vec![seed] };
    let (frames, skipped) = convert_video_to_bw_imgs(vec![
        Ok((vec![img(1), img(2)], 3)),
        Ok((vec![], 0)),
        Ok((vec![img(3)], 4)),
    ])
    .unwrap();
    assert_eq!(frames.iter().map(|f| f.pixels[0]).collect::<Vec<_>>(), vec![1, 2, 3]);
    assert_eq!(skipped, 7);

    let (frames, skipped) = convert_video_to_bw_imgs(vec![]).unwrap();
    assert!(frames.is_empty());
    assert_eq!(skipped, 0);

    let (_, skipped) =
        convert_video_to_bw_imgs(vec![Ok((vec![], u64::MAX - 1)), Ok((vec![], 5))]).unwrap();
    assert_eq!(skipped, u64::MAX);

    let failed = convert_video_to_bw_imgs(vec![
        Ok((vec![img(1)], 1)),
        Err(BWError::Io(bw_img::IoFault::Other)),
        Err(BWError::Io(bw_img::IoFault::InvalidData)),
    ]);
    assert_eq!(failed.unwrap_err(), BWError::Io(bw_img::IoFault::Other));
}
