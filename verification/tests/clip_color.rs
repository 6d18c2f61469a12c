use terminal_renderer::clip::{clip_polygon, fan_triangulate, plan_clip, ClipAction, ClipPoint};
use terminal_renderer::color::{
    hex_char_to_u8, hex_pair_to_u8, hex_rgb_lenient, pack_rgb, parse_hex_rgb, unpack_rgb,
    HexColorError, Rgb8,
};

const C0: ClipPoint = ClipPoint::Corner(0);
const C1: ClipPoint = ClipPoint::Corner(1);

#[test]
fn fan_of_polygons() {
    assert_eq!(
        fan_triangulate(&vec![1, 2, 3, 4, 5]),
        vec![[1, 2, 3], [1, 3, 4], [1, 4, 5]]
    );
    assert_eq!(fan_triangulate(&vec![1, 2, 3]), vec![[1, 2, 3]]);
    assert!(fan_triangulate(&vec![1, 2]).is_empty());
    assert!(fan_triangulate(&vec![7]).is_empty());
}

#[test]
fn clip_keeps_and_discards_whole_triangles() {
    assert_eq!(plan_clip([true, true, true], [false, false, false]), ClipAction::Keep);
    assert_eq!(plan_clip([false, false, false], [true, true, true]), ClipAction::Discard);
}

#[test]
fn clip_one_corner_inside_gives_one_triangle() {
    let inside = [true, false, false];
    let below = [false, true, true];
    assert_eq!(
        clip_polygon(inside, below),
        vec![C0, ClipPoint::Crossing(0, 1), ClipPoint::Crossing(2, 0)]
    );
    assert_eq!(
        plan_clip(inside, below),
        ClipAction::Split(vec![[C0, ClipPoint::Crossing(0, 1), ClipPoint::Crossing(2, 0)]])
    );
}

#[test]
fn clip_two_corners_inside_gives_two_triangles() {
    let inside = [true, true, false];
    let below = [false, false, true];
    assert_eq!(
        plan_clip(inside, below),
        ClipAction::Split(vec![
            [C0, C1, ClipPoint::Crossing(1, 2)],
            [C0, ClipPoint::Crossing(1, 2), ClipPoint::Crossing(2, 0)],
        ])
    );
}

#[test]
fn hex_digits() {
    assert_eq!(hex_char_to_u8('7'), 7);
    assert_eq!(hex_char_to_u8('a'), 10);
    assert_eq!(hex_char_to_u8('F'), 15);
    assert_eq!(hex_char_to_u8('z'), 0);
    assert_eq!(hex_pair_to_u8('f', 'f'), 255);
    assert_eq!(hex_pair_to_u8('1', '0'), 16);
    assert_eq!(hex_pair_to_u8('g', '1'), 1);
}

#[test]
fn lenient_hex_colours() {
    assert_eq!(hex_rgb_lenient(b"#ff8000"), Rgb8 { r: 255, g: 128, b: 0 });
    assert_eq!(hex_rgb_lenient(b"ff8000"), Rgb8 { r: 255, g: 128, b: 0 });
    assert_eq!(hex_rgb_lenient(b"12zz34"), Rgb8 { r: 0x12, g: 0, b: 0x34 });
    assert_eq!(hex_rgb_lenient(b"0000ffEXTRA"), Rgb8 { r: 0, g: 0, b: 255 });
}

#[test]
fn strict_hex_colours() {
    assert_eq!(parse_hex_rgb(b"#ff8000"), Ok(Rgb8 { r: 255, g: 128, b: 0 }));
    assert_eq!(parse_hex_rgb(b"A0b1C2"), Ok(Rgb8 { r: 0xa0, g: 0xb1, b: 0xc2 }));
    assert_eq!(parse_hex_rgb(b"##010203"), Ok(Rgb8 { r: 1, g: 2, b: 3 }));
    assert_eq!(parse_hex_rgb(b"+f0000"), Ok(Rgb8 { r: 15, g: 0, b: 0 }));
}

#[test]
fn strict_hex_colour_errors() {
    assert_eq!(parse_hex_rgb(b"fff"), Err(HexColorError::WrongLength));
    assert_eq!(parse_hex_rgb(b""), Err(HexColorError::WrongLength));
    assert_eq!(parse_hex_rgb(b"#"), Err(HexColorError::WrongLength));
    assert_eq!(parse_hex_rgb(b"#ff80001"), Err(HexColorError::WrongLength));
    assert_eq!(parse_hex_rgb(b"gg0000"), Err(HexColorError::InvalidRed));
    assert_eq!(parse_hex_rgb(b"00zz00"), Err(HexColorError::InvalidGreen));
    assert_eq!(parse_hex_rgb(b"0000+g"), Err(HexColorError::InvalidBlue));
    assert_eq!(parse_hex_rgb(b"0+0000"), Err(HexColorError::InvalidRed));
}

#[test]
fn hex_error_messages() {
    assert_eq!(
        HexColorError::WrongLength.message(),
        "Hex string should be 6 characters long (RRGGBB)."
    );
    assert_eq!(HexColorError::InvalidRed.message(), "Invalid red component in hex");
    assert_eq!(HexColorError::InvalidGreen.message(), "Invalid green component in hex");
    assert_eq!(HexColorError::InvalidBlue.message(), "Invalid blue component in hex");
}

#[test]
fn packing_round_trip() {
    assert_eq!(pack_rgb(0x12, 0x34, 0x56), 0x123456);
    assert_eq!(unpack_rgb(0x123456), Rgb8 { r: 0x12, g: 0x34, b: 0x56 });
    assert_eq!(unpack_rgb(0xAB12_3456), Rgb8 { r: 0x12, g: 0x34, b: 0x56 });
    let c = pack_rgb(200, 7, 99);
    assert_eq!(unpack_rgb(c), Rgb8 { r: 200, g: 7, b: 99 });
    assert_eq!(pack_rgb(0x100, 0, 0), 0x0100_0000);
}

#[test]
fn checked_and_lenient_readings_agree_on_valid_colours() {
    for s in [&b"#1a2B3c"[..], &b"00ff7F"[..], &b"#000000"[..]] {
        assert_eq!(parse_hex_rgb(s), Ok(hex_rgb_lenient(s)));
    }
}
