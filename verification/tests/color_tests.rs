use vga_console::Color;
use vga_console::ColorCode;

#[test]
fn packs_green_on_black() {
    let code = ColorCode::from_colors(Color::Green, Color::Black);
    assert_eq!(code.as_byte(), 0x02);
}

#[test]
fn packs_yellow_on_blue() {
    let code = ColorCode::from_colors(Color::Yellow, Color::Blue);
    assert_eq!(code.as_byte(), 0x1E);
}

#[test]
fn packs_white_on_white() {
    let code = ColorCode::from_colors(Color::White, Color::White);
    assert_eq!(code.as_byte(), 0xFF);
}

#[test]
fn every_pair_lands_in_the_right_nibbles() {
    let colors = [
        Color::Black,
        Color::Blue,
        Color::Green,
        Color::Cyan,
        Color::Red,
        Color::Magenta,
        Color::Brown,
        Color::LightGray,
        Color::DarkGray,
        Color::LightBlue,
        Color::LightGreen,
        Color::LightCyan,
        Color::LightRed,
        Color::Pink,
        Color::Yellow,
        Color::White,
    ];
    for (bg_code, bg) in colors.iter().enumerate() {
        for (fg_code, fg) in colors.iter().enumerate() {
            let byte = ColorCode::from_colors(*fg, *bg).as_byte();
            assert_eq!((byte & 0x0F) as usize, fg_code);
            assert_eq!((byte >> 4) as usize, bg_code);
        }
    }
}

#[test]
fn color_codes_match_the_palette() {
    assert_eq!(Color::Black.code(), 0x0);
    assert_eq!(Color::Green.code(), 0x2);
    assert_eq!(Color::Red.code(), 0x4);
    assert_eq!(Color::LightGray.code(), 0x7);
    assert_eq!(Color::DarkGray.code(), 0x8);
    assert_eq!(Color::Yellow.code(), 0xE);
    assert_eq!(Color::White.code(), 0xF);
}
