//! Progress reporting for parallel `p*` builtins (`pmap`, `pgrep`, `pfor`, ...)
//! when `progress => EXPR` is true: the state of one progress display, and the
//! exact text each event writes to stderr.
//!
//! On a terminal the display uses the alternate screen buffer and redraws a
//! full-screen frame on each tick; with `PERLRS_PROGRESS_PLAIN` set it redraws a
//! single `\r` line instead; when stderr is not a terminal it prints one line per
//! completed item. `finish` (or dropping the display) leaves the alternate screen
//! exactly once.
use vstd::prelude::*;
use vstd::string::StringSliceAdditionalSpecFns;
use crate::text::{str_eq, push_str, push_char, push_decimal, push_decimal_padded, push_repeat,
    decimal, decimal_padded, spaces};

verus! {

/// Filled bar cell (U+2588).
pub const BAR_FULL: char = '\u{2588}';

/// Empty bar cell (U+2591).
pub const BAR_EMPTY: char = '\u{2591}';

/// Width of the bar in line and piped modes.
pub const LINE_BAR_WIDTH: usize = 48;

/// A bar `width` cells wide with its first `filled` cells full.
pub open spec fn bar(width: nat, filled: nat) -> Seq<char> {
    Seq::new(width, |i: int| if i < filled { BAR_FULL } else { BAR_EMPTY })
}

/// Completed share in percent, rounded down (`total` 0 counts as 1).
pub open spec fn percent(done: nat, total: nat) -> nat {
    (done * 100) / (if total == 0 { 1 } else { total })
}

/// Full cells of a `width`-cell bar.
pub open spec fn filled_cells(done: nat, width: nat, total: nat) -> nat {
    (done * width) / (if total == 0 { 1 } else { total })
}

/// The `[parallel] [bar] pct% (done/total)` text shared by line and piped modes.
pub open spec fn status_line(done: nat, total: nat) -> Seq<char> {
    "[parallel] ["@ + bar(48, filled_cells(done, 48, total)) + "] "@ + decimal_padded(
        percent(done, total),
        3,
    ) + "% ("@ + decimal(done) + "/"@ + decimal(total) + ")"@
}

/// What one tick writes in single-line (`\r`) mode.
pub open spec fn line_mode_text(done: nat, total: nat) -> Seq<char> {
    "\r\x1b[K"@ + status_line(done, total)
}

/// What one tick writes when stderr is not a terminal.
pub open spec fn piped_text(done: nat, total: nat) -> Seq<char> {
    status_line(done, total) + "\n"@
}

/// The bar width of a full-screen frame on a terminal `cols` columns wide:
/// four columns of margin, at most 96, at least 16.
pub open spec fn frame_bar_width(cols: nat) -> nat {
    let w = if cols >= 4 { (cols - 4) as nat } else { 0 };
    let w = if w < 96 { w } else { 96 };
    if w < 16 { 16 } else { w }
}

/// Left padding that centres a frame line.
pub open spec fn frame_pad(cols: nat) -> nat {
    let inner = frame_bar_width(cols) + 14;
    (if cols >= inner { (cols - inner) as nat } else { 0 }) / 2
}

/// Blank lines above a frame on a terminal `rows` lines high.
pub open spec fn frame_top(rows: nat) -> nat {
    if rows / 2 >= 3 { (rows / 2 - 3) as nat } else { 0 }
}

/// One full-screen frame: clear and home, blank lines, then the title, an empty
/// line, the bar and the counts, each left-padded to be centred.
pub open spec fn fullscreen_text(done: nat, total: nat, cols: nat, rows: nat) -> Seq<char> {
    let w = frame_bar_width(cols);
    let pad = spaces(frame_pad(cols));
    "\x1b[2J\x1b[H"@ + Seq::new(frame_top(rows), |i: int| '\n') + pad + "parallel\n"@ + "\n"@ + pad
        + "["@ + bar(w, filled_cells(done, w, total)) + "]\n"@ + pad + "  "@ + decimal_padded(
        percent(done, total),
        3,
    ) + "%     "@ + decimal(done) + "/"@ + decimal(total) + "\n"@
}

/// The divisor of the bar and percentage shares: `total`, or 1 when it is 0.
pub open spec fn share_base(total: nat) -> nat {
    if total == 0 { 1 } else { total }
}

/// Cell `i` of a `w`-cell bar for `done` items out of `total` is full exactly when
/// the first `i + 1` cells do not exceed `done / total` of the width.
proof fn lemma_bar_cell(done: nat, w: nat, total: nat, i: int)
    requires
        0 <= i < w,
    ensures
        bar(w, filled_cells(done, w, total))[i] == (if (i + 1) * share_base(total) <= done * w { BAR_FULL } else { BAR_EMPTY }),
{
    let tt = share_base(total) as int;
    let x = (done * w) as int;
    let f = x / tt;
    vstd::arithmetic::div_mod::lemma_fundamental_div_mod(x, tt);
    let r = x % tt;
    assert(0 <= r < tt) by {
        vstd::arithmetic::div_mod::lemma_mod_bound(x, tt);
    }
    assert(f == filled_cells(done, w, total));
    if i < f {
        assert((i + 1) * tt <= f * tt) by (nonlinear_arith)
            requires
                i + 1 <= f,
                tt > 0,
        ;
        assert(f * tt == tt * f) by (nonlinear_arith);
    } else {
        assert((i + 1) * tt > x) by (nonlinear_arith)
            requires
                i >= f,
                x == tt * f + r,
                r < tt,
                tt > 0,
        ;
    }
}

/// Where the bar cells of a full-screen frame start: after the clearing escape
/// (7 characters), the blank lines, the padded title line, the empty line, the
/// padding and the `[`.
pub open spec fn frame_bar_start(cols: nat, rows: nat) -> nat {
    18 + frame_top(rows) + 2 * frame_pad(cols)
}

/// In a full-screen frame, the bar between `[` and `]` shows the share of items
/// done: cell `i` is full exactly when `(i + 1) * total <= done * width`; so when
/// every item is done, every cell is full, and when none is, every cell is empty.
pub proof fn law_frame_bar(done: nat, total: nat, cols: nat, rows: nat)
    ensures
        fullscreen_text(done, total, cols, rows)[frame_bar_start(cols, rows) - 1] == '[',
        fullscreen_text(done, total, cols, rows)[(frame_bar_start(cols, rows) + frame_bar_width(cols)) as int] == ']',
        forall|i: int| 0 <= i < frame_bar_width(cols) ==>
            #[trigger] fullscreen_text(done, total, cols, rows)[frame_bar_start(cols, rows) + i]
                == (if (i + 1) * share_base(total) <= done * frame_bar_width(cols) { BAR_FULL } else { BAR_EMPTY }),
        total > 0 && done == total ==> forall|i: int| 0 <= i < frame_bar_width(cols) ==>
            #[trigger] fullscreen_text(done, total, cols, rows)[frame_bar_start(cols, rows) + i] == BAR_FULL,
        done == 0 ==> forall|i: int| 0 <= i < frame_bar_width(cols) ==>
            #[trigger] fullscreen_text(done, total, cols, rows)[frame_bar_start(cols, rows) + i] == BAR_EMPTY,
{
    let w = frame_bar_width(cols);
    let pad = spaces(frame_pad(cols));
    let b = bar(w, filled_cells(done, w, total));
    reveal_strlit("\x1b[2J\x1b[H");
    reveal_strlit("parallel\n");
    reveal_strlit("\n");
    reveal_strlit("[");
    reveal_strlit("]\n");
    let pre = "\x1b[2J\x1b[H"@ + Seq::new(frame_top(rows), |i: int| '\n') + pad + "parallel\n"@ + "\n"@ + pad + "["@;
    let post = "]\n"@ + pad + "  "@ + decimal_padded(percent(done, total), 3) + "%     "@ + decimal(done) + "/"@
        + decimal(total) + "\n"@;
    let t = fullscreen_text(done, total, cols, rows);
    assert(t =~= pre + b + post);
    assert(pre.len() == frame_bar_start(cols, rows));
    assert forall|i: int| 0 <= i < w implies
        #[trigger] t[frame_bar_start(cols, rows) + i] == (if (i + 1) * share_base(total) <= done * w { BAR_FULL } else { BAR_EMPTY }) by {
        lemma_bar_cell(done, w, total, i);
        assert(t[frame_bar_start(cols, rows) + i] == b[i]);
    }
    if total > 0 && done == total {
        assert forall|i: int| 0 <= i < w implies #[trigger] t[frame_bar_start(cols, rows) + i] == BAR_FULL by {
            lemma_bar_cell(done, w, total, i);
            assert((i + 1) * share_base(total) <= done * w) by (nonlinear_arith)
                requires
                    i + 1 <= w,
                    share_base(total) == done,
            ;
        }
    }
    if done == 0 {
        assert forall|i: int| 0 <= i < w implies #[trigger] t[frame_bar_start(cols, rows) + i] == BAR_EMPTY by {
            lemma_bar_cell(done, w, total, i);
            assert((i + 1) * share_base(total) > 0) by (nonlinear_arith)
                requires
                    i + 1 >= 1,
                    share_base(total) >= 1,
            ;
        }
    }
}

/// In the single-line and piped status text, the 48-cell bar after
/// `[parallel] [` shows the share of items done in the same way: cell `i` is full
/// exactly when `(i + 1) * total <= done * 48`.
pub proof fn law_status_bar(done: nat, total: nat)
    ensures
        status_line(done, total)[11] == '[',
        status_line(done, total)[60int] == ']',
        forall|i: int| 0 <= i < 48 ==>
            #[trigger] status_line(done, total)[12 + i]
                == (if (i + 1) * share_base(total) <= done * 48 { BAR_FULL } else { BAR_EMPTY }),
{
    let b = bar(48, filled_cells(done, 48, total));
    reveal_strlit("[parallel] [");
    reveal_strlit("] ");
    let post = "] "@ + decimal_padded(percent(done, total), 3) + "% ("@ + decimal(done) + "/"@ + decimal(total) + ")"@;
    let t = status_line(done, total);
    assert(t =~= "[parallel] ["@ + b + post);
    assert forall|i: int| 0 <= i < 48 implies
        #[trigger] t[12 + i] == (if (i + 1) * share_base(total) <= done * 48 { BAR_FULL } else { BAR_EMPTY }) by {
        lemma_bar_cell(done, 48, total, i);
        assert(t[12 + i] == b[i]);
    }
}

/// Appends a bar of `width` cells with `filled` of them full.
fn push_bar(out: &mut String, width: usize, filled: usize)
    ensures
        final(out)@ == old(out)@ + bar(width as nat, filled as nat),
{
    let ghost start = out@;
    let mut i: usize = 0;
    while i < width
        invariant
            i <= width,
            out@ == start + bar(i as nat, filled as nat),
        decreases width - i,
    {
        if i < filled {
            push_char(out, BAR_FULL);
        } else {
            push_char(out, BAR_EMPTY);
        }
        i = i + 1;
        assert(out@ =~= start + bar(i as nat, filled as nat));
    }
}

/// Appends the shared status text.
fn push_status(out: &mut String, done: usize, total: usize)
    requires
        done * 100 <= usize::MAX,
    ensures
        final(out)@ == old(out)@ + status_line(done as nat, total as nat),
{
    let t = if total == 0 { 1 } else { total };
    let filled = (done * LINE_BAR_WIDTH) / t;
    let pct = (done * 100) / t;
    push_str(out, "[parallel] [");
    push_bar(out, LINE_BAR_WIDTH, filled);
    push_str(out, "] ");
    push_decimal_padded(out, pct, 3);
    push_str(out, "% (");
    push_decimal(out, done);
    push_str(out, "/");
    push_decimal(out, total);
    push_str(out, ")");
    assert(out@ =~= old(out)@ + status_line(done as nat, total as nat));
}

/// The text of one tick in single-line mode.
pub fn write_line_mode_bar(done: usize, total: usize) -> (s: String)
    requires
        done * 100 <= usize::MAX,
    ensures
        s@ == line_mode_text(done as nat, total as nat),
{
    let mut s = String::new();
    push_str(&mut s, "\r\x1b[K");
    push_status(&mut s, done, total);
    s
}

/// The text of one tick when stderr is not a terminal.
pub fn write_piped_lines(done: usize, total: usize) -> (s: String)
    requires
        done * 100 <= usize::MAX,
    ensures
        s@ == piped_text(done as nat, total as nat),
{
    let mut s = String::new();
    push_status(&mut s, done, total);
    push_str(&mut s, "\n");
    s
}

/// The text of one full-screen frame on a terminal of `cols` by `rows`.
#[verifier::spinoff_prover]
#[verifier::rlimit(40)]
pub fn write_fullscreen_frame(done: usize, total: usize, cols: usize, rows: usize) -> (s: String)
    requires
        done * 100 <= usize::MAX,
    ensures
        s@ == fullscreen_text(done as nat, total as nat, cols as nat, rows as nat),
{
    let w0 = if cols >= 4 { cols - 4 } else { 0 };
    let w1 = if w0 < 96 { w0 } else { 96 };
    let bar_w = if w1 < 16 { 16 } else { w1 };
    let t = if total == 0 { 1 } else { total };
    assert(done * bar_w <= done * 100) by (nonlinear_arith)
        requires
            bar_w <= 96,
    ;
    let filled = (done * bar_w) / t;
    let pct = (done * 100) / t;
    let mut s = String::new();
    push_str(&mut s, "\x1b[2J\x1b[H");
    let top = if rows / 2 >= 3 { rows / 2 - 3 } else { 0 };
    push_repeat(&mut s, '\n', top);
    let inner = bar_w + 14;
    let pad_l = (if cols >= inner { cols - inner } else { 0 }) / 2;
    let mut pad = String::new();
    push_repeat(&mut pad, ' ', pad_l);
    push_str(&mut s, pad.as_str());
    push_str(&mut s, "parallel\n");
    push_str(&mut s, "\n");
    push_str(&mut s, pad.as_str());
    push_str(&mut s, "[");
    push_bar(&mut s, bar_w, filled);
    push_str(&mut s, "]\n");
    push_str(&mut s, pad.as_str());
    push_str(&mut s, "  ");
    push_decimal_padded(&mut s, pct, 3);
    push_str(&mut s, "%     ");
    push_decimal(&mut s, done);
    push_str(&mut s, "/");
    push_decimal(&mut s, total);
    push_str(&mut s, "\n");
    assert(pad@ =~= spaces(frame_pad(cols as nat)));
    assert(s@ =~= fullscreen_text(done as nat, total as nat, cols as nat, rows as nat));
    s
}


/// The escape sequence that enters the alternate screen and hides the cursor.
pub open spec fn enter_alt_text() -> Seq<char> {
    "\x1b[?1049h\x1b[?25l"@
}

/// The escape sequence that shows the cursor and leaves the alternate screen.
pub open spec fn leave_alt_text() -> Seq<char> {
    "\x1b[?25h\x1b[?1049l\n"@
}

/// The state of one progress display.
#[derive(Debug, Clone, Copy, PartialEq, Eq, Structural)]
pub struct PmapProgress {
    /// Number of items to process.
    pub total: usize,
    /// Items completed so far.
    pub done: usize,
    /// Whether anything is shown at all.
    pub enabled: bool,
    /// Whether stderr is a terminal.
    pub tty: bool,
    /// Whether the alternate screen has been entered.
    pub alt_active: bool,
    /// Whether the alternate screen has been left (by `finish` or on drop).
    pub finished: bool,
    /// Whether single-line mode was asked for instead of the alternate screen.
    pub plain_line_mode: bool,
}

/// The display that `new` creates: shown only when asked for and there is work.
pub open spec fn spec_new(enabled: bool, total: usize, tty: bool, plain: bool) -> PmapProgress {
    PmapProgress {
        total,
        done: 0,
        enabled: enabled && total > 0,
        tty,
        alt_active: false,
        finished: false,
        plain_line_mode: plain,
    }
}

/// The state after one completed item and the text it writes.
pub open spec fn spec_tick(p: PmapProgress, cols: nat, rows: nat) -> (PmapProgress, Seq<char>) {
    if !p.enabled {
        (p, seq![])
    } else {
        let d = (p.done + 1) as usize;
        if p.tty && !p.plain_line_mode {
            let enter = if d == 1 { enter_alt_text() } else { seq![] };
            (
                PmapProgress { done: d, alt_active: p.alt_active || d == 1, ..p },
                enter + fullscreen_text(d as nat, p.total as nat, cols, rows),
            )
        } else if p.tty {
            (PmapProgress { done: d, ..p }, line_mode_text(d as nat, p.total as nat))
        } else {
            (PmapProgress { done: d, ..p }, piped_text(d as nat, p.total as nat))
        }
    }
}

/// The state after `finish` and the text it writes: on a terminal whose alternate
/// screen is active, leaving it the first time only; otherwise a newline ending
/// the last bar line.
pub open spec fn spec_finish(p: PmapProgress) -> (PmapProgress, Seq<char>) {
    if !p.enabled {
        (p, seq![])
    } else if p.tty && p.alt_active {
        if !p.finished {
            (PmapProgress { finished: true, ..p }, leave_alt_text())
        } else {
            (p, seq![])
        }
    } else {
        (p, "\n"@)
    }
}

/// The state after the display is dropped and the text written then: leaving the
/// alternate screen if that has not happened yet.
pub open spec fn spec_drop(p: PmapProgress) -> (PmapProgress, Seq<char>) {
    if !p.enabled {
        (p, seq![])
    } else if p.finished {
        (p, seq![])
    } else if p.tty && p.alt_active {
        (PmapProgress { finished: true, ..p }, leave_alt_text())
    } else {
        (PmapProgress { finished: true, ..p }, seq![])
    }
}

/// Whether `tick` can run on `p` without its counters overflowing.
pub open spec fn tick_fits(p: PmapProgress) -> bool {
    p.enabled ==> (p.done + 1) * 100 <= usize::MAX
}

impl PmapProgress {
    /// A progress display for `total` items; `tty` tells whether stderr is a
    /// terminal and `plain_line_mode` whether single-line mode was asked for.
    pub fn new(enabled: bool, total: usize, tty: bool, plain_line_mode: bool) -> (p: PmapProgress)
        ensures
            p == spec_new(enabled, total, tty, plain_line_mode),
    {
        PmapProgress {
            total,
            done: 0,
            enabled: enabled && total > 0,
            tty,
            alt_active: false,
            finished: false,
            plain_line_mode,
        }
    }

    /// Records one completed item; returns the text to write to stderr.
    pub fn tick(&mut self, cols: usize, rows: usize) -> (s: String)
        requires
            tick_fits(*old(self)),
        ensures
            (*final(self), s@) == spec_tick(*old(self), cols as nat, rows as nat),
    {
        if !self.enabled {
            return String::new();
        }
        let d = self.done + 1;
        self.done = d;
        if self.tty && !self.plain_line_mode {
            let mut s = String::new();
            if d == 1 {
                push_str(&mut s, "\x1b[?1049h\x1b[?25l");
                self.alt_active = true;
            }
            let frame = write_fullscreen_frame(d, self.total, cols, rows);
            push_str(&mut s, frame.as_str());
            s
        } else if self.tty {
            write_line_mode_bar(d, self.total)
        } else {
            write_piped_lines(d, self.total)
        }
    }

    /// Ends the display; returns the text to write to stderr.
    pub fn finish(&mut self) -> (s: String)
        ensures
            (*final(self), s@) == spec_finish(*old(self)),
    {
        if !self.enabled {
            return String::new();
        }
        if self.tty && self.alt_active {
            if !self.finished {
                self.finished = true;
                let mut s = String::new();
                push_str(&mut s, "\x1b[?25h\x1b[?1049l\n");
                s
            } else {
                String::new()
            }
        } else {
            let mut s = String::new();
            push_str(&mut s, "\n");
            s
        }
    }

    /// What dropping the display writes to stderr (restoring the main screen if
    /// `finish` did not).
    pub fn drop_text(&mut self) -> (s: String)
        ensures
            (*final(self), s@) == spec_drop(*old(self)),
    {
        if !self.enabled {
            return String::new();
        }
        if self.finished {
            return String::new();
        }
        self.finished = true;
        if self.tty && self.alt_active {
            let mut s = String::new();
            push_str(&mut s, "\x1b[?25h\x1b[?1049l\n");
            s
        } else {
            String::new()
        }
    }
}

/// A disabled display (not asked for, or nothing to do) writes nothing and does
/// not change on any event.
pub proof fn lemma_disabled_is_silent(enabled: bool, total: usize, tty: bool, plain: bool, cols: nat, rows: nat)
    requires
        !enabled || total == 0,
    ensures
        spec_tick(spec_new(enabled, total, tty, plain), cols, rows) == (spec_new(enabled, total, tty, plain), Seq::<char>::empty()),
        spec_finish(spec_new(enabled, total, tty, plain)) == (spec_new(enabled, total, tty, plain), Seq::<char>::empty()),
        spec_drop(spec_new(enabled, total, tty, plain)) == (spec_new(enabled, total, tty, plain), Seq::<char>::empty()),
{
}

/// Once the alternate screen has been left, neither a second `finish` nor the
/// drop writes anything: the main screen is restored exactly once.
pub proof fn lemma_leave_alt_once(p: PmapProgress)
    requires
        p.enabled,
        p.tty,
        p.alt_active,
    ensures
        spec_finish(spec_finish(p).0).1 == Seq::<char>::empty(),
        spec_drop(spec_finish(p).0).1 == Seq::<char>::empty(),
        spec_finish(p).1 + spec_drop(spec_finish(p).0).1 == leave_alt_text() || p.finished,
        !p.finished ==> spec_drop(p).1 == leave_alt_text() && spec_finish(spec_drop(p).0).1 == Seq::<char>::empty(),
{
    assert(spec_finish(p).1 + Seq::<char>::empty() =~= spec_finish(p).1);
}

/// On a terminal in full-screen mode, the first tick enters the alternate screen
/// and later ticks do not enter it again.
pub proof fn lemma_enter_alt_first_tick(p: PmapProgress, cols: nat, rows: nat)
    requires
        p.enabled,
        p.tty,
        !p.plain_line_mode,
        tick_fits(p),
        p.done > 0 ==> p.alt_active,
    ensures
        spec_tick(p, cols, rows).0.alt_active,
        p.done == 0 ==> spec_tick(p, cols, rows).1 == enter_alt_text() + fullscreen_text(1, p.total as nat, cols, rows),
        p.done > 0 ==> spec_tick(p, cols, rows).1 == fullscreen_text((p.done + 1) as nat, p.total as nat, cols, rows)
            && spec_tick(p, cols, rows).0.alt_active == p.alt_active,
{
    if p.done > 0 {
        assert(Seq::<char>::empty() + fullscreen_text((p.done + 1) as nat, p.total as nat, cols, rows)
            =~= fullscreen_text((p.done + 1) as nat, p.total as nat, cols, rows));
    }
}

/// With no more items done than there are, the percentage is at most 100 and the
/// full cells fit the bar.
pub proof fn lemma_bar_bounds(done: nat, width: nat, total: nat)
    requires
        done <= total,
        total > 0,
    ensures
        percent(done, total) <= 100,
        filled_cells(done, width, total) <= width,
        done == total ==> percent(done, total) == 100 && filled_cells(done, width, total) == width,
{
    assert(done * 100 <= total * 100) by (nonlinear_arith)
        requires
            done <= total,
    ;
    assert(done * width <= total * width) by (nonlinear_arith)
        requires
            done <= total,
    ;
    vstd::arithmetic::div_mod::lemma_div_is_ordered((done * 100) as int, (total * 100) as int, total as int);
    vstd::arithmetic::div_mod::lemma_div_is_ordered((done * width) as int, (total * width) as int, total as int);
    vstd::arithmetic::div_mod::lemma_div_multiples_vanish(100, total as int);
    vstd::arithmetic::div_mod::lemma_div_multiples_vanish(width as int, total as int);
    assert(total * 100 == 100 * total) by (nonlinear_arith);
    assert(total * width == width * total) by (nonlinear_arith);
}

/// The ASCII-lowercase form of a byte.
pub open spec fn ascii_lower(b: u8) -> u8 {
    if 65 <= b <= 90 { (b + 32) as u8 } else { b }
}

/// Byte strings equal up to ASCII case (Rust's `eq_ignore_ascii_case`).
pub open spec fn eq_ignore_ascii_case(a: Seq<u8>, b: Seq<u8>) -> bool {
    a.len() == b.len() && forall|i: int| 0 <= i < a.len() ==> ascii_lower(#[trigger] a[i]) == ascii_lower(b[i])
}

/// Whether `PERLRS_PROGRESS_PLAIN` asks for single-line mode: set to anything but
/// the empty string, `0` or (in any case) `false`.
pub open spec fn spec_plain_line_mode(value: Option<Seq<char>>) -> bool {
    match value {
        None => false,
        Some(s) => !(s == "0"@ || eq_ignore_ascii_case(vstd::utf8::encode_utf8(s), seq![102u8, 97u8, 108u8, 115u8, 101u8])
            || s.len() == 0),
    }
}

fn bytes_eq_ignore_ascii_case(a: &[u8], b: &[u8]) -> (r: bool)
    ensures
        r == eq_ignore_ascii_case(a@, b@),
{
    if a.len() != b.len() {
        return false;
    }
    let mut i: usize = 0;
    while i < a.len()
        invariant
            a@.len() == b@.len(),
            i <= a@.len(),
            forall|j: int| 0 <= j < i ==> ascii_lower(#[trigger] a@[j]) == ascii_lower(b@[j]),
        decreases a@.len() - i,
    {
        let x = a[i];
        let y = b[i];
        let lx = if 65 <= x && x <= 90 { x + 32 } else { x };
        let ly = if 65 <= y && y <= 90 { y + 32 } else { y };
        if lx != ly {
            return false;
        }
        i = i + 1;
    }
    true
}

/// Decides single-line mode from the value of `PERLRS_PROGRESS_PLAIN` (`None`
/// when unset or not Unicode).
pub fn env_plain_line_mode(value: Option<&str>) -> (b: bool)
    ensures
        b == spec_plain_line_mode(match value { Some(s) => Some(s@), None => None }),
{
    match value {
        None => false,
        Some(s) => {
            let f: [u8; 5] = [102u8, 97u8, 108u8, 115u8, 101u8];
            assert(f@ =~= seq![102u8, 97u8, 108u8, 115u8, 101u8]);
            if str_eq(s, "0") || bytes_eq_ignore_ascii_case(s.as_bytes(), &f) {
                false
            } else if s.is_empty() {
                false
            } else {
                true
            }
        },
    }
}

/// Whether a byte is an ASCII decimal digit.
pub open spec fn is_digit(b: u8) -> bool {
    48 <= b <= 57
}

/// The number written by the digits `d` (most significant first).
pub open spec fn digits_value(d: Seq<u8>) -> nat
    decreases d.len(),
{
    if d.len() == 0 {
        0
    } else {
        digits_value(d.drop_last()) * 10 + (d.last() - 48) as nat
    }
}

/// The bytes after an optional leading `+`.
pub open spec fn digits_part(b: Seq<u8>) -> Seq<u8> {
    if b.len() > 0 && b[0] == 43u8 {
        b.drop_first()
    } else {
        b
    }
}

/// What Rust's `str::parse::<usize>` makes of the bytes `b`: an optional `+`, then
/// one or more decimal digits whose value fits in `usize`; anything else fails.
pub open spec fn spec_parse_usize(b: Seq<u8>) -> Option<nat> {
    let d = digits_part(b);
    if d.len() == 0 || !(forall|i: int| 0 <= i < d.len() ==> is_digit(#[trigger] d[i])) {
        None
    } else if digits_value(d) > usize::MAX {
        None
    } else {
        Some(digits_value(d))
    }
}

proof fn lemma_digits_value_prefix(d: Seq<u8>, i: int)
    requires
        0 <= i <= d.len(),
        forall|j: int| 0 <= j < d.len() ==> is_digit(#[trigger] d[j]),
    ensures
        digits_value(d.subrange(0, i)) <= digits_value(d),
    decreases d.len() - i,
{
    if i < d.len() {
        lemma_digits_value_prefix(d, i + 1);
        let p = d.subrange(0, i + 1);
        assert(p.drop_last() =~= d.subrange(0, i));
    } else {
        assert(d.subrange(0, i) =~= d);
    }
}

/// Parses a `usize` as Rust's `str::parse` does.
pub fn parse_usize(s: &str) -> (r: Option<usize>)
    ensures
        match spec_parse_usize(s.spec_bytes()) {
            Some(v) => r == Some(v as usize),
            None => r is None,
        },
{
    let b = s.as_bytes();
    let start: usize = if b.len() > 0 && b[0] == 43u8 { 1 } else { 0 };
    let ghost d = digits_part(b@);
    assert(d =~= b@.subrange(start as int, b@.len() as int));
    if start == b.len() {
        return None;
    }
    // Every byte after the sign must be a digit.
    let mut i: usize = start;
    while i < b.len()
        invariant
            start <= i <= b@.len(),
            b@ == s.spec_bytes(),
            d == digits_part(b@),
            d =~= b@.subrange(start as int, b@.len() as int),
            forall|j: int| 0 <= j < i - start ==> is_digit(#[trigger] d[j]),
        decreases b@.len() - i,
    {
        if b[i] < 48u8 || b[i] > 57u8 {
            assert(!is_digit(d[i - start]));
            assert(!(forall|j: int| 0 <= j < d.len() ==> is_digit(#[trigger] d[j])));
            assert(spec_parse_usize(b@) is None);
            return None;
        }
        i = i + 1;
    }
    let mut v: usize = 0;
    let mut i: usize = start;
    while i < b.len()
        invariant
            start <= i <= b@.len(),
            b@ == s.spec_bytes(),
            d == digits_part(b@),
            d.len() > 0,
            d =~= b@.subrange(start as int, b@.len() as int),
            forall|j: int| 0 <= j < d.len() ==> is_digit(#[trigger] d[j]),
            v as nat == digits_value(d.subrange(0, i - start)),
        decreases b@.len() - i,
    {
        assert(d[i - start] == b@[i as int]);
        assert(is_digit(d[i - start]));
        let digit = (b[i] - 48u8) as usize;
        assert(d.subrange(0, i + 1 - start).drop_last() =~= d.subrange(0, i - start));
        match v.checked_mul(10) {
            None => {
                proof {
                    lemma_digits_value_prefix(d, i + 1 - start);
                }
                return None;
            },
            Some(m) => match m.checked_add(digit) {
                None => {
                    proof {
                        lemma_digits_value_prefix(d, i + 1 - start);
                    }
                    return None;
                },
                Some(n) => {
                    v = n;
                },
            },
        }
        i = i + 1;
    }
    assert(d.subrange(0, d.len() as int) =~= d);
    Some(v)
}

/// Terminal width from `COLUMNS` (`None` when unset): the parsed value, else 80,
/// kept within 40..=200.
pub fn terminal_width(columns: Option<&str>) -> (w: usize)
    ensures
        40 <= w <= 200,
        w == clamp(
            match columns {
                Some(c) => match spec_parse_usize(c.spec_bytes()) {
                    Some(v) => v,
                    None => 80,
                },
                None => 80,
            },
            40,
            200,
        ),
{
    let v = match columns {
        Some(c) => match parse_usize(c) {
            Some(v) => v,
            None => 80,
        },
        None => 80,
    };
    if v < 40 {
        40
    } else if v > 200 {
        200
    } else {
        v
    }
}

/// `v` kept within `lo..=hi`.
pub open spec fn clamp(v: nat, lo: nat, hi: nat) -> nat {
    if v < lo {
        lo
    } else if v > hi {
        hi
    } else {
        v
    }
}

/// Terminal height from `LINES` (`None` when unset): the parsed value, else 24,
/// and at least 1.
pub fn terminal_height(lines: Option<&str>) -> (h: usize)
    ensures
        h >= 1,
        h == (match lines {
            Some(c) => match spec_parse_usize(c.spec_bytes()) {
                Some(v) => if v >= 1 { v } else { 1 },
                None => 24,
            },
            None => 24,
        }),
{
    let v = match lines {
        Some(c) => match parse_usize(c) {
            Some(v) => v,
            None => 24,
        },
        None => 24,
    };
    if v >= 1 { v } else { 1 }
}

} // verus!
