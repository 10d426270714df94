use perlrs::pmap_progress::{
    env_plain_line_mode, parse_usize, terminal_height, terminal_width, write_fullscreen_frame,
    write_line_mode_bar, write_piped_lines, PmapProgress,
};

#[test]
fn disabled_progress_tick_is_noop() {
    let mut p = PmapProgress::new(false, 10, true, false);
    for _ in 0..5 {
        assert_eq!(p.tick(80, 24), "");
    }
    assert_eq!(p.finish(), "");
    assert_eq!(p.done, 0);
}

#[test]
fn zero_total_disables_progress() {
    let mut p = PmapProgress::new(true, 0, true, false);
    assert!(!p.enabled);
    assert_eq!(p.tick(80, 24), "");
    assert_eq!(p.finish(), "");
}

#[test]
fn piped_lines_text() {
    let full = "\u{2588}".repeat(24);
    let empty = "\u{2591}".repeat(24);
    assert_eq!(
        write_piped_lines(1, 2),
        format!("[parallel] [{}{}]  50% (1/2)\n", full, empty)
    );
    assert_eq!(
        write_line_mode_bar(2, 2),
        format!("\r\x1b[K[parallel] [{}] 100% (2/2)", "\u{2588}".repeat(48))
    );
}

#[test]
fn fullscreen_frame_layout() {
    // cols 40 -> bar 36, pad (40 - 50 saturating) / 2 = 0; rows 10 -> 2 blank lines.
    let s = write_fullscreen_frame(0, 4, 40, 10);
    let expected = format!(
        "\x1b[2J\x1b[H\n\nparallel\n\n[{}]\n    0%     0/4\n",
        "\u{2591}".repeat(36)
    );
    assert_eq!(s, expected);
}

#[test]
fn tty_session_enters_and_leaves_alt_screen_once() {
    let mut p = PmapProgress::new(true, 2, true, false);
    let first = p.tick(80, 24);
    assert!(first.starts_with("\x1b[?1049h\x1b[?25l\x1b[2J\x1b[H"));
    let second = p.tick(80, 24);
    assert!(second.starts_with("\x1b[2J\x1b[H"));
    assert_eq!(p.finish(), "\x1b[?25h\x1b[?1049l\n");
    assert_eq!(p.finish(), "");
    assert_eq!(p.drop_text(), "");
}

#[test]
fn drop_without_finish_restores_screen() {
    let mut p = PmapProgress::new(true, 3, true, false);
    p.tick(80, 24);
    assert_eq!(p.drop_text(), "\x1b[?25h\x1b[?1049l\n");
    assert_eq!(p.drop_text(), "");
}

#[test]
fn piped_finish_writes_newline() {
    let mut p = PmapProgress::new(true, 1, false, false);
    assert!(p.tick(80, 24).ends_with("(1/1)\n"));
    assert_eq!(p.finish(), "\n");
}

#[test]
fn plain_mode_env_values() {
    assert!(!env_plain_line_mode(None));
    assert!(!env_plain_line_mode(Some("")));
    assert!(!env_plain_line_mode(Some("0")));
    assert!(!env_plain_line_mode(Some("FaLsE")));
    assert!(env_plain_line_mode(Some("1")));
    assert!(env_plain_line_mode(Some("yes")));
    assert!(env_plain_line_mode(Some("00")));
}

#[test]
fn terminal_size_parsing() {
    assert_eq!(parse_usize("123"), Some(123));
    assert_eq!(parse_usize("+7"), Some(7));
    assert_eq!(parse_usize("+"), None);
    assert_eq!(parse_usize("-1"), None);
    assert_eq!(parse_usize(" 1"), None);
    assert_eq!(parse_usize("99999999999999999999999"), None);
    assert_eq!(terminal_width(None), 80);
    assert_eq!(terminal_width(Some("10")), 40);
    assert_eq!(terminal_width(Some("500")), 200);
    assert_eq!(terminal_width(Some("abc")), 80);
    assert_eq!(terminal_height(None), 24);
    assert_eq!(terminal_height(Some("0")), 1);
    assert_eq!(terminal_height(Some("50")), 50);
}
