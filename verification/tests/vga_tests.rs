use ef_os::vga::{VgaOut, WriteError, DEFAULT_COLOR, VGA_DEFAULT_SCREEN_SIZE};

fn screen(width: usize, height: usize) -> VgaOut {
    VgaOut::new((width, height), vec![0u16; width * height])
}

fn write(out: &mut VgaOut, text: &str) {
    assert!(VgaOut::accepts(text));
    assert_eq!(out.write_str(text), Ok(()));
}

#[test]
fn new_writer_starts_at_first_cell_in_white_on_black() {
    let out = VgaOut::new((3, 2), vec![7u16; 6]);
    assert_eq!(out.writing_idx(), 0);
    assert_eq!(out.current_color(), 0x0f00);
    assert_eq!(out.current_color(), DEFAULT_COLOR);
    assert_eq!(out.screen_size(), (3, 2));
    assert_eq!(out.buffer(), &[7u16; 6][..]);
}

#[test]
fn default_screen_size_is_eighty_by_twenty_four() {
    assert_eq!(VGA_DEFAULT_SCREEN_SIZE, (80, 24));
}

#[test]
fn plain_text_fills_cells_in_order() {
    let mut out = screen(4, 2);
    write(&mut out, "AB");
    assert_eq!(out.buffer(), &[0x0f41, 0x0f42, 0, 0, 0, 0, 0, 0][..]);
    assert_eq!(out.writing_idx(), 2);
}

#[test]
fn write_char_advances_the_cursor() {
    let mut out = screen(2, 1);
    assert_eq!(out.write_char_to_writing_idx(b'x'), Ok(()));
    assert_eq!(out.buffer(), &[0x0f78, 0][..]);
    assert_eq!(out.writing_idx(), 1);
}

#[test]
fn write_char_past_the_last_cell_fails_and_changes_nothing() {
    let mut out = screen(2, 1);
    write(&mut out, "xy");
    assert_eq!(out.write_char_to_writing_idx(b'z'), Err(WriteError));
    assert_eq!(out.buffer(), &[0x0f78, 0x0f79][..]);
    assert_eq!(out.writing_idx(), 2);
}

#[test]
fn foreground_code_sets_the_foreground_nibble() {
    let mut out = screen(4, 1);
    write(&mut out, "\x1b[31mA");
    assert_eq!(out.current_color(), 0x0100);
    assert_eq!(out.buffer()[0], 0x0141);
    assert_eq!(out.writing_idx(), 1);
}

#[test]
fn bright_foreground_code_picks_colors_eight_to_fifteen() {
    let mut out = screen(4, 1);
    write(&mut out, "\x1b[91m");
    assert_eq!(out.current_color(), 0x0900);
    write(&mut out, "\x1b[97m");
    assert_eq!(out.current_color(), 0x0f00);
}

#[test]
fn background_code_sets_the_background_nibble() {
    let mut out = screen(4, 1);
    write(&mut out, "\x1b[44m");
    assert_eq!(out.current_color(), 0x4f00);
    write(&mut out, "\x1b[104m");
    assert_eq!(out.current_color(), 0xcf00);
    assert_eq!(out.writing_idx(), 0);
    assert_eq!(out.buffer(), &[0u16; 4][..]);
}

#[test]
fn codes_separated_by_semicolons_apply_in_order() {
    let mut out = screen(4, 1);
    write(&mut out, "\x1b[31;42m");
    assert_eq!(out.current_color(), 0x2100);
    write(&mut out, "\x1b[39;44m");
    assert_eq!(out.current_color(), 0x4100);
}

#[test]
fn reset_code_restores_white_on_black() {
    let mut out = screen(4, 1);
    write(&mut out, "\x1b[45;32m");
    assert_eq!(out.current_color(), 0x5200);
    write(&mut out, "\x1b[0m");
    assert_eq!(out.current_color(), 0x0f00);
    write(&mut out, "\x1b[33m\x1b[m");
    assert_eq!(out.current_color(), 0x0f00);
}

#[test]
fn unknown_codes_change_nothing() {
    let mut out = screen(4, 1);
    write(&mut out, "\x1b[38m\x1b[5m\x1b[108m");
    assert_eq!(out.current_color(), 0x0f00);
    assert_eq!(out.writing_idx(), 0);
}

#[test]
fn escape_without_bracket_still_reads_a_code() {
    let mut out = screen(4, 1);
    write(&mut out, "\x1b34mZ");
    assert_eq!(out.current_color(), 0x0400);
    assert_eq!(out.buffer()[0], 0x045a);
}

#[test]
fn other_bytes_inside_an_escape_are_skipped() {
    let mut out = screen(4, 1);
    write(&mut out, "\x1b[3x2mQ");
    assert_eq!(out.current_color(), 0x0200);
    assert_eq!(out.buffer(), &[0x0251, 0, 0, 0][..]);
}

#[test]
fn newline_blanks_the_rest_of_the_row() {
    let mut out = screen(4, 2);
    write(&mut out, "ab\ncd");
    assert_eq!(
        out.buffer(),
        &[0x0f61, 0x0f62, 0x0f20, 0x0f20, 0x0f63, 0x0f64, 0, 0][..]
    );
    assert_eq!(out.writing_idx(), 6);
}

#[test]
fn newline_at_the_start_of_a_row_does_nothing() {
    let mut out = screen(4, 2);
    write(&mut out, "abcd\n");
    assert_eq!(out.writing_idx(), 4);
    write(&mut out, "\n");
    assert_eq!(out.writing_idx(), 4);
    assert_eq!(
        out.buffer(),
        &[0x0f61, 0x0f62, 0x0f63, 0x0f64, 0, 0, 0, 0][..]
    );
}

#[test]
fn newline_uses_the_current_color_for_blanks() {
    let mut out = screen(3, 1);
    write(&mut out, "\x1b[41mx\n");
    assert_eq!(out.buffer(), &[0x1f78, 0x1f20, 0x1f20][..]);
    assert_eq!(out.writing_idx(), 3);
}

#[test]
fn full_screen_scrolls_by_one_row_keeping_the_last_row() {
    let mut out = screen(2, 2);
    write(&mut out, "abcd");
    assert_eq!(out.writing_idx(), 4);
    write(&mut out, "e");
    assert_eq!(out.buffer(), &[0x0f63, 0x0f64, 0x0f65, 0x0f64][..]);
    assert_eq!(out.writing_idx(), 3);
}

#[test]
fn newline_on_a_full_screen_does_not_scroll() {
    let mut out = screen(2, 2);
    write(&mut out, "abcd\n");
    assert_eq!(out.writing_idx(), 4);
    assert_eq!(out.buffer(), &[0x0f61, 0x0f62, 0x0f63, 0x0f64][..]);
}

#[test]
fn long_text_scrolls_repeatedly() {
    let mut out = screen(3, 2);
    write(&mut out, "abcdefghij");
    assert_eq!(
        out.buffer(),
        &[0x0f67, 0x0f68, 0x0f69, 0x0f6a, 0x0f68, 0x0f69][..]
    );
    assert_eq!(out.writing_idx(), 4);
}

#[test]
fn accepts_codes_that_fit_in_sixteen_bits() {
    assert!(VgaOut::accepts("\x1b[65535m"));
    assert!(!VgaOut::accepts("\x1b[65536m"));
    assert!(!VgaOut::accepts("\x1b[1;99999m"));
    assert!(VgaOut::accepts("99999999"));
    assert!(VgaOut::accepts(""));
}

#[test]
fn large_code_within_range_changes_nothing() {
    let mut out = screen(2, 1);
    write(&mut out, "\x1b[65535mk");
    assert_eq!(out.current_color(), 0x0f00);
    assert_eq!(out.buffer(), &[0x0f6b, 0][..]);
}

#[test]
fn split_write_outside_escape_matches_single_write() {
    let mut whole = screen(3, 2);
    write(&mut whole, "ab\x1b[32mc\nde\x1b[0mfg");
    let mut split = screen(3, 2);
    write(&mut split, "ab\x1b[32mc\n");
    write(&mut split, "de\x1b[0mfg");
    assert_eq!(whole.buffer(), split.buffer());
    assert_eq!(whole.writing_idx(), split.writing_idx());
    assert_eq!(whole.current_color(), split.current_color());
}

#[test]
fn split_write_inside_escape_differs() {
    let mut whole = screen(4, 1);
    write(&mut whole, "\x1b[32mX");
    let mut split = screen(4, 1);
    write(&mut split, "\x1b[3");
    write(&mut split, "2mX");
    assert_eq!(whole.buffer(), &[0x0258, 0, 0, 0][..]);
    assert_eq!(split.buffer(), &[0x0f32, 0x0f6d, 0x0f58, 0][..]);
}

#[test]
fn plain_text_writes_char_plus_attribute() {
    let mut out = screen(5, 1);
    write(&mut out, "\x1b[46m");
    write(&mut out, "Hi!");
    assert_eq!(out.buffer(), &[0x6f48, 0x6f69, 0x6f21, 0, 0][..]);
    assert_eq!(out.writing_idx(), 3);
}

#[test]
fn ensure_valid_leaves_the_writer_unchanged() {
    let mut out = screen(3, 1);
    write(&mut out, "ab");
    out.ensure_valid();
    assert_eq!(out.writing_idx(), 2);
    assert_eq!(out.buffer(), &[0x0f61, 0x0f62, 0][..]);
}
