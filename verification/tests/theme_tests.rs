use ghfetch::theme::{Ansi, Gruvbox, Icons};

#[test]
fn rgb_reads_palette() {
    assert_eq!(Gruvbox::rgb(Gruvbox::BG), (0x28, 0x28, 0x28));
    assert_eq!(Gruvbox::rgb(Gruvbox::ORANGE), (0xd6, 0x5d, 0x0e));
    assert_eq!(Gruvbox::rgb(Gruvbox::AQUA), (0x68, 0x9d, 0x6a));
}

#[test]
fn nearest_of_palette_colour_is_first_equal() {
    assert_eq!(Gruvbox::nearest(0x28, 0x28, 0x28), Gruvbox::BG);
    assert_eq!(Gruvbox::nearest(0xd6, 0x5d, 0x0e), Gruvbox::ORANGE);
    assert_eq!(Gruvbox::nearest(0xfb, 0xf1, 0xc7), Gruvbox::FG);
}

#[test]
fn nearest_of_black_and_white() {
    assert_eq!(Gruvbox::nearest(0, 0, 0), Gruvbox::BG0_H);
    assert_eq!(Gruvbox::nearest(255, 255, 255), Gruvbox::FG);
}

#[test]
fn ansi_sequences() {
    assert_eq!(Ansi::reset(), "\x1b[0m");
    assert_eq!(Ansi::bold(), "\x1b[1m");
    assert_eq!(Ansi::fg_rgb(1, 22, 255), "\x1b[38;2;1;22;255m");
    assert_eq!(Ansi::bg_rgb(0, 100, 9), "\x1b[48;2;0;100;9m");
    assert_eq!(Ansi::fg_gruv(Gruvbox::RED), "\x1b[38;2;204;36;29m");
    assert_eq!(Ansi::bg_gruv(Gruvbox::BG), "\x1b[48;2;40;40;40m");
    assert_eq!(Ansi::colored("hi", Gruvbox::GREEN), "\x1b[38;2;152;151;26mhi\x1b[0m");
    assert_eq!(
        Ansi::colored_bold("hi", Gruvbox::GREEN),
        "\x1b[1m\x1b[38;2;152;151;26mhi\x1b[0m"
    );
}

#[test]
fn icons_are_ghosts() {
    assert_eq!(Icons::get("os"), "\u{1F47B}");
    assert_eq!(Icons::get("arch"), "\u{1F47B}");
    assert_eq!(Icons::get("unknown-key"), "\u{1F47B}");
    assert_eq!(Icons::GHOST, "\u{1F47B}");
}
