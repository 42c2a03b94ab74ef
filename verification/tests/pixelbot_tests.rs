use pixelbot::dispatch::{Progress, Worker};
use pixelbot::pixel_color::PixelColor;
use pixelbot::pixel_data::{PixelData, Rgb};
use pixelbot::requests::{
    get_requests, partition, reverse_commands, AppError, PixelGrid, Rgba,
};

fn opaque(r: u8, g: u8, b: u8) -> Rgba {
    Rgba { r, g, b, a: 255 }
}

fn grid_2x2() -> PixelGrid {
    // Distinct exact palette colors in the four corners.
    PixelGrid {
        width: 2,
        height: 2,
        pixels: vec![
            opaque(255, 255, 255), // White
            opaque(229, 0, 0),     // Red
            opaque(2, 190, 1),     // Green
            opaque(0, 0, 234),     // Blue
        ],
    }
}

fn expected_2x2() -> Vec<String> {
    vec![
        "{\"x\":10,\"y\":20,\"a\":38,\"color\":0,\"fingerprint\":\"fp\",\"token\":null}".to_string(),
        "{\"x\":11,\"y\":20,\"a\":39,\"color\":5,\"fingerprint\":\"fp\",\"token\":null}".to_string(),
        "{\"x\":10,\"y\":21,\"a\":39,\"color\":10,\"fingerprint\":\"fp\",\"token\":null}".to_string(),
        "{\"x\":11,\"y\":21,\"a\":40,\"color\":13,\"fingerprint\":\"fp\",\"token\":null}".to_string(),
    ]
}

#[test]
fn exact_palette_colors_quantize_to_themselves() {
    for color in PixelColor::all() {
        let chans = color.get_channels();
        let got = PixelData::pixel_color_from_channels(chans.as_slice(), false);
        assert_eq!(got, color);
    }
}

#[test]
fn quantizer_prefers_minimal_l1_distance() {
    // (250, 250, 250) is nearest White (distance 15); LightGray is 66 away.
    let got = PixelData::pixel_color_from_channels(&[250, 250, 250], false);
    assert_eq!(got, PixelColor::White);
    // (255, 0, 0) is nearest Red (distance 26).
    let got = PixelData::pixel_color_from_channels(&[255, 0, 0], false);
    assert_eq!(got, PixelColor::Red);
}

#[test]
fn quantizer_tie_breaks_to_earliest_palette_entry() {
    // (85, 85, 85) is 153 from Gray (136) and 153 from Black (34): the
    // earlier palette entry, Gray, must win.
    let got = PixelData::pixel_color_from_channels(&[85, 85, 85], true);
    assert_eq!(got, PixelColor::Gray);
}

#[test]
fn grayscale_mode_restricts_candidates_to_achromatic_colors() {
    // Pure red is nearest Red among all 16, but in grayscale mode only
    // {White, LightGray, Gray, Black} compete and Black wins.
    let full = PixelData::pixel_color_from_channels(&[229, 0, 0], false);
    assert_eq!(full, PixelColor::Red);
    let gray = PixelData::pixel_color_from_channels(&[229, 0, 0], true);
    assert_eq!(gray, PixelColor::Black);
}

#[test]
fn color_diff_is_l1_distance() {
    assert_eq!(PixelData::get_color_diff(&[255, 255, 255], &[250, 251, 252]), 12);
    assert_eq!(PixelData::get_color_diff(&[0, 0, 0], &[1, 2, 3]), 6);
    // Only the channels both slices have are compared.
    assert_eq!(PixelData::get_color_diff(&[1, 2, 3], &[5]), 4);
    assert_eq!(PixelData::get_color_diff(&[], &[9, 9]), 0);
}

#[test]
fn from_rgb8_quantizes_and_keeps_coordinates() {
    let pd = PixelData::from_rgb8(3, -4, &Rgb { r: 229, g: 0, b: 0 }, false);
    assert_eq!(pd, PixelData { x: 3, y: -4, color: PixelColor::Red });
}

#[test]
fn get_json_produces_the_wire_form() {
    let pd = PixelData { x: 10, y: 20, color: PixelColor::White };
    assert_eq!(
        pd.get_json("fp"),
        "{\"x\":10,\"y\":20,\"a\":38,\"color\":0,\"fingerprint\":\"fp\",\"token\":null}"
    );
}

#[test]
fn get_json_a_field_is_x_plus_y_plus_8() {
    let pd = PixelData { x: -5, y: 3, color: PixelColor::Gray };
    assert_eq!(
        pd.get_json("k"),
        "{\"x\":-5,\"y\":3,\"a\":6,\"color\":2,\"fingerprint\":\"k\",\"token\":null}"
    );
}

#[test]
fn get_json_escapes_the_fingerprint() {
    let pd = PixelData { x: 0, y: 0, color: PixelColor::White };
    assert_eq!(
        pd.get_json("a\"b"),
        "{\"x\":0,\"y\":0,\"a\":8,\"color\":0,\"fingerprint\":\"a\\\"b\",\"token\":null}"
    );
}

#[test]
fn end_to_end_2x2_image_one_worker() {
    let grid = grid_2x2();
    let cmds = get_requests(&grid, 10, 20, false, false, false, false, "fp");
    assert_eq!(cmds, expected_2x2());
    let chunks = partition(cmds.clone(), 1).unwrap();
    assert_eq!(chunks.len(), 1);
    assert_eq!(chunks[0], cmds);
}

#[test]
fn transparent_pixels_produce_no_commands() {
    let grid = PixelGrid {
        width: 2,
        height: 2,
        pixels: vec![
            opaque(255, 255, 255),
            Rgba { r: 229, g: 0, b: 0, a: 0 },
            Rgba { r: 2, g: 190, b: 1, a: 0 },
            Rgba { r: 0, g: 0, b: 234, a: 1 },
        ],
    };
    let cmds = get_requests(&grid, 0, 0, false, false, false, false, "fp");
    assert_eq!(cmds.len(), 2);
    assert_eq!(
        cmds[0],
        "{\"x\":0,\"y\":0,\"a\":8,\"color\":0,\"fingerprint\":\"fp\",\"token\":null}"
    );
    assert_eq!(
        cmds[1],
        "{\"x\":1,\"y\":1,\"a\":10,\"color\":13,\"fingerprint\":\"fp\",\"token\":null}"
    );
}

#[test]
fn invert_flips_every_color_channel() {
    let grid = PixelGrid { width: 1, height: 1, pixels: vec![opaque(0, 255, 255)] };
    let cmds = get_requests(&grid, 0, 0, false, true, false, false, "fp");
    // (0, 255, 255) inverted is (255, 0, 0), nearest Red.
    assert_eq!(
        cmds,
        vec!["{\"x\":0,\"y\":0,\"a\":8,\"color\":5,\"fingerprint\":\"fp\",\"token\":null}"
            .to_string()]
    );
}

#[test]
fn grayscale_converts_before_quantizing() {
    let grid = PixelGrid { width: 1, height: 1, pixels: vec![opaque(255, 0, 0)] };
    let cmds = get_requests(&grid, 0, 0, true, false, false, false, "fp");
    // Pure red's luminance is far below 85, so the gray candidates
    // resolve to Black, not to White as the raw red channel would.
    assert_eq!(
        cmds,
        vec!["{\"x\":0,\"y\":0,\"a\":8,\"color\":3,\"fingerprint\":\"fp\",\"token\":null}"
            .to_string()]
    );
}

#[test]
fn reverse_reverses_a_known_list() {
    let mut v = vec!["A".to_string(), "B".to_string(), "C".to_string()];
    reverse_commands(&mut v);
    assert_eq!(v, vec!["C".to_string(), "B".to_string(), "A".to_string()]);
}

#[test]
fn reverse_flag_reverses_the_command_list() {
    let grid = grid_2x2();
    let cmds = get_requests(&grid, 10, 20, false, false, false, true, "fp");
    let mut expected = expected_2x2();
    expected.reverse();
    assert_eq!(cmds, expected);
}

#[test]
fn shuffle_keeps_exactly_the_same_commands() {
    let grid = grid_2x2();
    let mut cmds = get_requests(&grid, 10, 20, false, false, true, false, "fp");
    assert_eq!(cmds.len(), 4);
    cmds.sort();
    let mut expected = expected_2x2();
    expected.sort();
    assert_eq!(cmds, expected);
}

#[test]
fn shuffle_then_reverse_keeps_exactly_the_same_commands() {
    let grid = grid_2x2();
    let mut cmds = get_requests(&grid, 10, 20, false, false, true, true, "fp");
    assert_eq!(cmds.len(), 4);
    cmds.sort();
    let mut expected = expected_2x2();
    expected.sort();
    assert_eq!(cmds, expected);
}

#[test]
fn partition_splits_with_remainder_on_last_chunk() {
    let cmds: Vec<String> = (0..10).map(|i| format!("c{}", i)).collect();
    let chunks = partition(cmds.clone(), 3).unwrap();
    assert_eq!(chunks.len(), 3);
    assert_eq!(chunks[0].len(), 3);
    assert_eq!(chunks[1].len(), 3);
    assert_eq!(chunks[2].len(), 4);
    let rebuilt: Vec<String> = chunks.into_iter().flatten().collect();
    assert_eq!(rebuilt, cmds);
}

#[test]
fn partition_even_split_has_equal_chunks() {
    let cmds: Vec<String> = (0..4).map(|i| format!("c{}", i)).collect();
    let chunks = partition(cmds.clone(), 4).unwrap();
    assert_eq!(chunks.len(), 4);
    for (i, chunk) in chunks.iter().enumerate() {
        assert_eq!(chunk.len(), 1);
        assert_eq!(chunk[0], cmds[i]);
    }
}

#[test]
fn partition_single_worker_gets_everything() {
    let cmds: Vec<String> = (0..5).map(|i| format!("c{}", i)).collect();
    let chunks = partition(cmds.clone(), 1).unwrap();
    assert_eq!(chunks, vec![cmds]);
}

#[test]
fn partition_rejects_zero_workers() {
    let cmds: Vec<String> = (0..3).map(|i| format!("c{}", i)).collect();
    assert!(matches!(partition(cmds, 0), Err(AppError::InvalidWorkerCount)));
}

#[test]
fn partition_rejects_more_workers_than_commands() {
    let cmds: Vec<String> = (0..3).map(|i| format!("c{}", i)).collect();
    assert!(matches!(partition(cmds, 5), Err(AppError::InvalidWorkerCount)));
    let none: Vec<String> = Vec::new();
    assert!(matches!(partition(none, 1), Err(AppError::InvalidWorkerCount)));
}

#[test]
fn a_failed_attempt_does_not_stop_the_chunk() {
    let chunk = vec!["one".to_string(), "two".to_string(), "three".to_string()];
    let mut worker = Worker::new(chunk);
    let mut progress = Progress::new(3);

    assert_eq!(worker.next_command(), Some("one".to_string()));
    worker.record_attempt(true, &mut progress);
    assert_eq!(progress.get(), 1);

    // The second request fails: the worker still moves on and the
    // counter still counts the attempt exactly once.
    assert_eq!(worker.next_command(), Some("two".to_string()));
    worker.record_attempt(false, &mut progress);
    assert_eq!(progress.get(), 2);

    assert_eq!(worker.next_command(), Some("three".to_string()));
    assert!(!worker.done());
    worker.record_attempt(true, &mut progress);
    assert_eq!(progress.get(), 3);
    assert!(worker.done());
    assert_eq!(worker.next_command(), None);
}

#[test]
fn palette_codes_follow_declaration_order() {
    let all = PixelColor::all();
    assert_eq!(all.len(), 16);
    for (i, color) in all.iter().enumerate() {
        assert_eq!(color.code() as usize, i);
    }
    assert_eq!(PixelColor::White.get_channels(), vec![255, 255, 255]);
    assert_eq!(PixelColor::Purple.get_channels(), vec![130, 0, 128]);
}

#[test]
fn get_json_handles_extreme_coordinates() {
    let pd = PixelData { x: i32::MAX, y: i32::MIN, color: PixelColor::Purple };
    assert_eq!(
        pd.get_json("fp"),
        "{\"x\":2147483647,\"y\":-2147483648,\"a\":7,\"color\":15,\"fingerprint\":\"fp\",\"token\":null}"
    );
}
