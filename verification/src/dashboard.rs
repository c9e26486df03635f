//! The launcher dashboard's state and its per-frame rules: the scrolling
//! ledger, the receipt counter, the scanline and the twinkling grid, and
//! the glyphs and colours of the boot screen's depth map.
//!
//! Drawing to the terminal is the caller's part; the state here says what
//! each frame shows.

use crate::text::push_hex4;
use crate::text::push_two_digits;
use crate::text::u64_to_text;
use vstd::prelude::*;
use vstd::string::StringExecFns;

verus! {

/// The most ledger lines kept.
pub const LEDGER_LINES: usize = 30;

/// Frames between two new ledger lines.
pub const LEDGER_PERIOD: u64 = 3;

/// The dashboard's state.
#[derive(Debug)]
pub struct DashboardState {
    /// Ledger lines, newest first, each with its age in frames.
    pub logs: Vec<(String, u32)>,
    /// Receipts shown as minted.
    pub receipt_count: u64,
    /// Frames shown so far.
    pub frame_count: u64,
    /// Scanline position, in hundredths of the screen height.
    pub scan_line_y: u16,
    /// Twinkling grid points: column, row and brightness.
    pub grid_twinkle_map: Vec<(u16, u16, u8)>,
    /// Offset of the counter's blur.
    pub counter_blur_offset: i32,
    /// The frame that added the newest ledger line.
    pub last_log_frame: u64,
}

/// What chance decides in one frame: how far the counter moves, how its
/// blur shifts, the new twinkling points, and the hash of a new ledger line.
#[derive(Debug)]
pub struct FrameDraws {
    pub receipt_step: u64,
    pub blur_step: i32,
    pub twinkles: Vec<(u16, u16, u8)>,
    pub hash_prefix: u16,
    pub hash_suffix: u16,
}

/// The ledger lines by text and age.
pub open spec fn log_view(logs: Seq<(String, u32)>) -> Seq<(Seq<char>, int)> {
    logs.map_values(|e: (String, u32)| (e.0@, e.1 as int))
}

/// The ledger lines two frames older.
pub open spec fn aged(logs: Seq<(Seq<char>, int)>) -> Seq<(Seq<char>, int)> {
    logs.map_values(|e: (Seq<char>, int)| (e.0, e.1 + 2))
}

/// `a - b`, or zero where `b` is the larger.
pub open spec fn dimmed(a: u8, b: u8) -> u8 {
    if a >= b { (a - b) as u8 } else { 0 }
}

/// The twinkling points one frame later: each fades by 15, and those that
/// went dark are dropped.
pub open spec fn decayed(points: Seq<(u16, u16, u8)>) -> Seq<(u16, u16, u8)> {
    points.map_values(|p: (u16, u16, u8)| (p.0, p.1, dimmed(p.2, 15))).filter(|p: (u16, u16, u8)| p.2 > 0)
}

/// The remainder of `a / b` with the sign of `a`, as Rust's `%` computes it.
pub open spec fn signed_rem(a: int, b: int) -> int {
    if a >= 0 { a % b } else { -((-a) % b) }
}

/// The text of the ledger line added at frame `frame_count` with
/// `receipt_count` receipts: its time (one second per ten frames, from
/// 14:00:00), hash, and policy.
pub open spec fn ledger_text(frame_count: u64, receipt_count: u64, hash_prefix: u16, hash_suffix: u16) -> Seq<char> {
    let total = (frame_count / 10) as u32;
    let hours = (14 + (total / 3600) % 10) as u32;
    let minutes = ((total / 60) % 60) as u32;
    let seconds = (total % 60) as u32;
    "["@ + crate::text::two_digit_text(hours) + ":"@ + crate::text::two_digit_text(minutes) + ":"@
        + crate::text::two_digit_text(seconds) + "] 0x"@ + crate::text::hex4_text(hash_prefix) + "..."@
        + crate::text::hex4_text(hash_suffix) + " | POL-"@ + crate::text::decimal_text((489 + receipt_count % 100) as nat)
        + " | ACTIVE"@
}

/// The text of the ledger line added at frame `frame_count`.
pub fn ledger_line(frame_count: u64, receipt_count: u64, hash_prefix: u16, hash_suffix: u16) -> (res: String)
    ensures
        res@ == ledger_text(frame_count, receipt_count, hash_prefix, hash_suffix),
{
    let total = (frame_count / 10) as u32;
    let hours: u32 = 14 + (total / 3600) % 10;
    let minutes: u32 = (total / 60) % 60;
    let seconds: u32 = total % 60;
    let mut s = "[".to_owned();
    push_two_digits(&mut s, hours);
    s.append(":");
    push_two_digits(&mut s, minutes);
    s.append(":");
    push_two_digits(&mut s, seconds);
    s.append("] 0x");
    push_hex4(&mut s, hash_prefix);
    s.append("...");
    push_hex4(&mut s, hash_suffix);
    s.append(" | POL-");
    let policy = u64_to_text(489 + receipt_count % 100);
    s.append(policy.as_str());
    s.append(" | ACTIVE");
    s
}

/// Whether the state can take one more frame without a counter running out.
pub open spec fn can_advance(s: DashboardState, receipt_step: u64, blur_step: i32) -> bool {
    &&& s.frame_count < u64::MAX
    &&& s.receipt_count + receipt_step <= u64::MAX
    &&& s.scan_line_y + 3 <= u16::MAX
    &&& i32::MIN <= s.counter_blur_offset + blur_step <= i32::MAX
    &&& s.last_log_frame <= s.frame_count
    &&& forall|i: int| 0 <= i < s.logs@.len() ==> (#[trigger] s.logs@[i]).1 + 2 <= u32::MAX
}

/// The ledger after a frame: the lines two frames older, with a new line in
/// front when one is due, keeping the newest thirty.
pub open spec fn next_ledger(
    logs: Seq<(Seq<char>, int)>,
    due: bool,
    line: Seq<char>,
) -> Seq<(Seq<char>, int)> {
    let older = aged(logs);
    if due {
        let with_new = seq![(line, 0int)] + older;
        if with_new.len() > LEDGER_LINES { with_new.take(LEDGER_LINES as int) } else { with_new }
    } else {
        older
    }
}

impl DashboardState {
    /// The state the dashboard opens with: three ledger lines and 1402
    /// receipts.
    pub fn initial() -> (res: Self)
        ensures
            res.logs@.len() == 3,
            res.receipt_count == 1402,
            res.frame_count == 0,
            res.scan_line_y == 0,
            res.grid_twinkle_map@.len() == 0,
            res.counter_blur_offset == 0,
            res.last_log_frame == 0,
    {
        let mut logs: Vec<(String, u32)> = Vec::new();
        logs.push(("[14:32:01] 0x8f3a...42c1 | POL-489 | ACTIVE".to_owned(), 50));
        logs.push(("[14:32:03] 0x7b21...9af4 | POL-490 | ACTIVE".to_owned(), 40));
        logs.push(("[14:32:07] 0x3c85...1de2 | POL-491 | ACTIVE".to_owned(), 30));
        DashboardState {
            logs,
            receipt_count: 1402,
            frame_count: 0,
            scan_line_y: 0,
            grid_twinkle_map: Vec::new(),
            counter_blur_offset: 0,
            last_log_frame: 0,
        }
    }

    /// Advances one frame with the values chance gave: the ledger ages by
    /// two frames, the scanline moves three hundredths down (wrapping), the
    /// counter and its blur move, new points twinkle and old ones fade, and
    /// every third frame a new ledger line comes in front.
    pub fn advance(&mut self, draws: FrameDraws)
        requires
            can_advance(*old(self), draws.receipt_step, draws.blur_step),
            old(self).grid_twinkle_map@.len() + draws.twinkles@.len() <= usize::MAX,
        ensures
            final(self).frame_count == old(self).frame_count + 1,
            final(self).receipt_count == old(self).receipt_count + draws.receipt_step,
            final(self).scan_line_y == (old(self).scan_line_y + 3) % 100,
            final(self).counter_blur_offset == signed_rem(old(self).counter_blur_offset + draws.blur_step, 20),
            final(self).grid_twinkle_map@ == decayed(old(self).grid_twinkle_map@ + draws.twinkles@),
            ({
                let frame = old(self).frame_count + 1;
                let due = frame - old(self).last_log_frame >= LEDGER_PERIOD;
                &&& log_view(final(self).logs@) == next_ledger(
                    log_view(old(self).logs@),
                    due,
                    ledger_text(frame as u64, final(self).receipt_count, draws.hash_prefix, draws.hash_suffix),
                )
                &&& final(self).last_log_frame == if due { frame } else { old(self).last_log_frame as int }
            }),
    {
        self.frame_count = self.frame_count + 1;

        let ghost before = log_view(self.logs@);
        let mut older: Vec<(String, u32)> = Vec::new();
        let mut i: usize = 0;
        while i < self.logs.len()
            invariant
                i <= self.logs@.len(),
                before == log_view(self.logs@),
                forall|k: int| 0 <= k < self.logs@.len() ==> (#[trigger] self.logs@[k]).1 + 2 <= u32::MAX,
                older@.len() == i,
                log_view(older@) == aged(before).take(i as int),
            decreases self.logs@.len() - i,
        {
            let ghost prev = older@;
            older.push((self.logs[i].0.clone(), self.logs[i].1 + 2));
            proof {
                assert forall|k: int| 0 <= k < i + 1 implies #[trigger] log_view(older@)[k] == aged(before).take(i + 1)[k] by {
                    if k < i {
                        assert(older@[k] == prev[k]);
                        assert(log_view(prev)[k] == aged(before).take(i as int)[k]);
                    }
                }
                assert(log_view(older@) =~= aged(before).take(i + 1));
            }
            i = i + 1;
        }
        proof {
            assert(aged(before).take(i as int) =~= aged(before));
        }

        self.scan_line_y = (self.scan_line_y + 3) % 100;
        self.receipt_count = self.receipt_count + draws.receipt_step;
        let moved = self.counter_blur_offset + draws.blur_step;
        self.counter_blur_offset = if moved >= 0 { moved % 20 } else { -((-(moved as i64)) % 20) as i32 };

        let ghost points = self.grid_twinkle_map@ + draws.twinkles@;
        let ghost dimmed_points = points.map_values(|p: (u16, u16, u8)| (p.0, p.1, dimmed(p.2, 15)));
        let ghost keep = |p: (u16, u16, u8)| p.2 > 0;
        let mut lit: Vec<(u16, u16, u8)> = Vec::new();
        let mut j: usize = 0;
        let n_old = self.grid_twinkle_map.len();
        let n_all = n_old + draws.twinkles.len();
        proof {
            assert(dimmed_points.take(0) =~= Seq::<(u16, u16, u8)>::empty());
        }
        while j < n_all
            invariant
                n_old == self.grid_twinkle_map@.len(),
                n_all == n_old + draws.twinkles@.len(),
                points == self.grid_twinkle_map@ + draws.twinkles@,
                dimmed_points == points.map_values(|p: (u16, u16, u8)| (p.0, p.1, dimmed(p.2, 15))),
                keep == (|p: (u16, u16, u8)| p.2 > 0),
                j <= n_all,
                lit@ == dimmed_points.take(j as int).filter(keep),
            decreases n_all - j,
        {
            let p = if j < n_old { self.grid_twinkle_map[j] } else { draws.twinkles[j - n_old] };
            assert(p == points[j as int]);
            let faded = if p.2 >= 15 { p.2 - 15 } else { 0 };
            proof {
                assert(dimmed_points.take(j + 1) =~= dimmed_points.take(j as int).push(dimmed_points[j as int]));
                dimmed_points.take(j as int).lemma_filter_push(dimmed_points[j as int], keep);
            }
            if faded > 0 {
                lit.push((p.0, p.1, faded));
            }
            j = j + 1;
        }
        proof {
            assert(dimmed_points.take(j as int) =~= dimmed_points);
        }
        self.grid_twinkle_map = lit;

        let due = self.frame_count - self.last_log_frame >= LEDGER_PERIOD;
        if due {
            self.last_log_frame = self.frame_count;
            let line = ledger_line(self.frame_count, self.receipt_count, draws.hash_prefix, draws.hash_suffix);
            let ghost line_view = line@;
            older.insert(0, (line, 0));
            if older.len() > LEDGER_LINES {
                older.truncate(LEDGER_LINES);
            }
            proof {
                let with_new = seq![(line_view, 0int)] + aged(before);
                if with_new.len() > LEDGER_LINES {
                    assert(log_view(older@) =~= with_new.take(LEDGER_LINES as int));
                } else {
                    assert(log_view(older@) =~= with_new);
                }
            }
        }
        self.logs = older;
    }

    /// Advances one frame with values drawn at random: the counter moves by
    /// 1 to 4, its blur by -2 to 2, three to seven points twinkle (on a
    /// grid of 40 columns by 20 rows, brightness 150 to 254), and a new
    /// ledger line gets a random hash.
    pub fn tick(&mut self)
        requires
            can_advance(*old(self), 4, 2),
            can_advance(*old(self), 4, -2i32),
            old(self).grid_twinkle_map@.len() + 7 <= usize::MAX,
        ensures
            exists|draws: FrameDraws| {
                &&& 1 <= draws.receipt_step <= 4
                &&& -2 <= draws.blur_step <= 2
                &&& 3 <= draws.twinkles@.len() <= 7
                &&& forall|k: int| 0 <= k < draws.twinkles@.len() ==> {
                    &&& (#[trigger] draws.twinkles@[k]).0 % 40 == 0 && draws.twinkles@[k].0 < 8000
                    &&& draws.twinkles@[k].1 % 20 == 0 && draws.twinkles@[k].1 < 1200
                    &&& 150 <= draws.twinkles@[k].2 < 255
                }
                &&& #[trigger] advanced(*old(self), *final(self), draws)
            },
    {
        let receipt_step = 1 + crate::random::random_below(4);
        let blur_step = crate::random::random_below(5) as i32 - 2;
        let count = 3 + crate::random::random_below(5);
        let mut twinkles: Vec<(u16, u16, u8)> = Vec::new();
        let mut k: u64 = 0;
        while k < count
            invariant
                k <= count,
                count <= 7,
                twinkles@.len() == k,
                forall|m: int| 0 <= m < twinkles@.len() ==> {
                    &&& (#[trigger] twinkles@[m]).0 % 40 == 0 && twinkles@[m].0 < 8000
                    &&& twinkles@[m].1 % 20 == 0 && twinkles@[m].1 < 1200
                    &&& 150 <= twinkles@[m].2 < 255
                },
            decreases count - k,
        {
            let x = (crate::random::random_below(200) * 40) as u16;
            let y = (crate::random::random_below(60) * 20) as u16;
            let intensity = (150 + crate::random::random_below(105)) as u8;
            twinkles.push((x, y, intensity));
            k = k + 1;
        }
        let hash_prefix = crate::random::random_below(65536) as u16;
        let hash_suffix = crate::random::random_below(65536) as u16;
        let draws = FrameDraws { receipt_step, blur_step, twinkles, hash_prefix, hash_suffix };
        let ghost d = draws;
        self.advance(draws);
        assert(advanced(*old(self), *self, d));
    }
}

/// Whether `after` is `before` advanced one frame with `draws`.
pub open spec fn advanced(before: DashboardState, after: DashboardState, draws: FrameDraws) -> bool {
    let frame = before.frame_count + 1;
    let due = frame - before.last_log_frame >= LEDGER_PERIOD;
    &&& after.frame_count == frame
    &&& after.receipt_count == before.receipt_count + draws.receipt_step
    &&& after.scan_line_y == (before.scan_line_y + 3) % 100
    &&& after.counter_blur_offset == signed_rem(before.counter_blur_offset + draws.blur_step, 20)
    &&& after.grid_twinkle_map@ == decayed(before.grid_twinkle_map@ + draws.twinkles@)
    &&& log_view(after.logs@) == next_ledger(
        log_view(before.logs@),
        due,
        ledger_text(frame as u64, after.receipt_count, draws.hash_prefix, draws.hash_suffix),
    )
    &&& after.last_log_frame == if due { frame } else { before.last_log_frame as int }
}

/// The ledger never holds more than thirty lines once a line has come in,
/// and the newest line is the one just added.
pub proof fn lemma_ledger_bound(logs: Seq<(Seq<char>, int)>, line: Seq<char>)
    ensures
        next_ledger(logs, true, line).len() <= LEDGER_LINES,
        next_ledger(logs, true, line)[0] == (line, 0int),
        logs.len() <= LEDGER_LINES ==> next_ledger(logs, false, line).len() <= LEDGER_LINES,
{
    let with_new = seq![(line, 0int)] + aged(logs);
    assert(with_new[0] == (line, 0int));
}

/// The glyph of a point of the depth map: nearer points are denser.
pub fn depth_glyph(depth: u8) -> (res: char)
    ensures
        res == match depth {
            0 => ' ',
            1 => '·',
            2 => '.',
            3 => ':',
            4 => ';',
            5 => '!',
            6 => '*',
            7 => '◆',
            8 => '▓',
            _ => '█',
        },
{
    match depth {
        0 => ' ',
        1 => '·',
        2 => '.',
        3 => ':',
        4 => ';',
        5 => '!',
        6 => '*',
        7 => '◆',
        8 => '▓',
        _ => '█',
    }
}

/// The heat colour of a point of the depth map, from dark (far) to bright
/// cyan-white (near); `None` for the background.
pub fn heat_rgb(depth: u8) -> (res: Option<(u8, u8, u8)>)
    ensures
        res == match depth {
            0 => None,
            1 => Some((10u8, 25u8, 35u8)),
            2 => Some((15u8, 40u8, 55u8)),
            3 => Some((20u8, 60u8, 80u8)),
            4 => Some((25u8, 90u8, 110u8)),
            5 => Some((30u8, 120u8, 140u8)),
            6 => Some((40u8, 150u8, 170u8)),
            7 => Some((60u8, 180u8, 200u8)),
            8 => Some((100u8, 210u8, 230u8)),
            _ => Some((200u8, 240u8, 255u8)),
        },
{
    match depth {
        0 => None,
        1 => Some((10, 25, 35)),
        2 => Some((15, 40, 55)),
        3 => Some((20, 60, 80)),
        4 => Some((25, 90, 110)),
        5 => Some((30, 120, 140)),
        6 => Some((40, 150, 170)),
        7 => Some((60, 180, 200)),
        8 => Some((100, 210, 230)),
        _ => Some((200, 240, 255)),
    }
}

/// A colour channel moved by `delta`, kept within 0 to 255.
pub open spec fn clamp_channel(c: u8, delta: int) -> u8 {
    if c + delta < 0 { 0 } else if c + delta > 255 { 255 } else { (c + delta) as u8 }
}

/// A colour moved by five steps of `noise` (-1, 0 or 1) on each channel.
pub fn with_noise(rgb: (u8, u8, u8), noise: i16) -> (res: (u8, u8, u8))
    requires
        -1 <= noise <= 1,
    ensures
        res == (
            clamp_channel(rgb.0, noise * 5),
            clamp_channel(rgb.1, noise * 5),
            clamp_channel(rgb.2, noise * 5),
        ),
{
    (shift_channel(rgb.0, noise * 5), shift_channel(rgb.1, noise * 5), shift_channel(rgb.2, noise * 5))
}

/// A colour channel moved by `delta`, kept within 0 to 255.
fn shift_channel(c: u8, delta: i16) -> (res: u8)
    requires
        -5 <= delta <= 5,
    ensures
        res == clamp_channel(c, delta as int),
{
    let v: i16 = c as i16 + delta;
    if v < 0 {
        0
    } else if v > 255 {
        255
    } else {
        v as u8
    }
}

/// Whether a cell lies on the background grid (every 40 columns and every
/// 20 rows).
pub fn is_grid_point(x: u16, y: u16) -> (res: bool)
    ensures
        res == (x % 40 == 0 || y % 20 == 0),
{
    x % 40 == 0 || y % 20 == 0
}

/// A colour brightened by the scanline: the `offset`-th of its three rows
/// adds `40 - 10 * offset` to green and blue and half that to red.
pub fn scanline_boost(rgb: (u8, u8, u8), offset: u16) -> (res: (u8, u8, u8))
    requires
        offset < 3,
    ensures
        ({
            let boost = 40 - 10 * offset;
            res == (clamp_channel(rgb.0, boost / 2), clamp_channel(rgb.1, boost), clamp_channel(rgb.2, boost))
        }),
{
    let boost = (40 - offset * 10) as u8;
    (rgb.0.saturating_add(boost / 2), rgb.1.saturating_add(boost), rgb.2.saturating_add(boost))
}

/// The row of the scanline's `offset`-th row on a screen `height` rows
/// tall (the last row at most).
pub fn scanline_row(scan_line_y: u16, height: u16, offset: u16) -> (res: u16)
    requires
        height > 0,
        scan_line_y < 100,
        offset < 3,
    ensures
        res == if (scan_line_y * height) / 100 + offset < height - 1 {
            (scan_line_y * height) / 100 + offset
        } else {
            height - 1
        },
{
    assert(scan_line_y as u32 * height as u32 <= 100 * 65535) by (nonlinear_arith)
        requires
            scan_line_y < 100,
            height <= 65535,
    ;
    let row: u32 = (scan_line_y as u32 * height as u32) / 100 + offset as u32;
    if row < (height - 1) as u32 { row as u16 } else { height - 1 }
}

/// The counter with the ghosts of its blur: the count before (not below
/// zero) and after.
pub fn counter_ghosts(count: u64) -> (res: (u64, u64, u64))
    requires
        count < u64::MAX,
    ensures
        res == ((if count > 0 { count - 1 } else { 0 }) as u64, count, (count + 1) as u64),
{
    (count.saturating_sub(1), count, count + 1)
}

/// Whether the footer shows its alert colour: for thirty frames out of
/// every sixty.
pub fn status_alert(frame_count: u64) -> (res: bool)
    ensures
        res == ((frame_count / 30) % 2 == 0),
{
    (frame_count / 30) % 2 == 0
}

/// Whether a key press quits the dashboard: a press of `q`.
pub fn is_quit_key(pressed: bool, key: char) -> (res: bool)
    ensures
        res == (pressed && key == 'q'),
{
    pressed && key == 'q'
}

} // verus!
