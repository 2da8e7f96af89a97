//! Parser for the `key=value` lines that FFmpeg writes with
//! `-progress pipe:1`. Fields accumulate line by line; every `progress=` line
//! closes a block and reports a snapshot of what has accumulated so far.
//!
//! A field whose value does not read as a number (`frame=abc`,
//! `speed=N/A`) is ignored and keeps its value. The rate fields (`fps`,
//! `speed`, `bitrate`) are kept as the text that FFmpeg wrote, cleaned the
//! way the value is cleaned before it is read as a number; turning that text
//! into a floating-point value is the caller's part. Likewise the seconds field of an `out_time=HH:MM:SS.ffffff` clock is
//! handed back to the caller, who converts it and completes the line with
//! [`ProgressParser::apply_timecode`].
use vstd::prelude::*;

use crate::text;
use crate::text::{
    chars_of, find_char_in, parse_u64_in, range_eq, range_is_float, range_starts_with, sub_string,
    trim_bounds, trim_end_char_bound, trim_end_text_bound,
};

verus! {

// ========================= Model =========================

/// What a [`ProgressParser`] has accumulated.
pub struct ParserState {
    pub frame: u64,
    pub fps: Seq<char>,
    pub out_time_us: u64,
    pub speed: Seq<char>,
    pub total_size: u64,
    pub bitrate: Seq<char>,
}

/// The content of one [`ProgressSnapshot`].
pub struct SnapshotState {
    pub frame: u64,
    pub fps: Seq<char>,
    pub out_time_us: u64,
    pub speed: Seq<char>,
    pub total_size: u64,
    pub bitrate: Seq<char>,
    pub is_final: bool,
}

/// The content of one [`Timecode`].
pub struct TimecodeState {
    pub hours: u64,
    pub minutes: u64,
    pub seconds: Seq<char>,
}

/// What feeding one line yields.
pub enum Effect {
    Absorbed,
    Snapshot(SnapshotState),
    Timecode(TimecodeState),
}

/// The parser before any line.
pub open spec fn initial_state() -> ParserState {
    ParserState {
        frame: 0,
        fps: Seq::empty(),
        out_time_us: 0,
        speed: Seq::empty(),
        total_size: 0,
        bitrate: Seq::empty(),
    }
}

/// The snapshot that reports `st`.
pub open spec fn snapshot_of(st: ParserState, is_final: bool) -> SnapshotState {
    SnapshotState {
        frame: st.frame,
        fps: st.fps,
        out_time_us: st.out_time_us,
        speed: st.speed,
        total_size: st.total_size,
        bitrate: st.bitrate,
        is_final,
    }
}

/// The parts of a clock `[[H:]M:]S`: the hour and minute fields read as
/// integers (0 where they are not), and the seconds field as written.
/// A clock with more than three fields has none.
pub open spec fn split_timecode_spec(s: Seq<char>) -> Option<TimecodeState> {
    match text::find_char(s, ':') {
        None => Some(TimecodeState { hours: 0, minutes: 0, seconds: s }),
        Some(i) => {
            let rest = s.skip(i + 1);
            match text::find_char(rest, ':') {
                None => Some(
                    TimecodeState { hours: 0, minutes: text::parse_u64_or_zero(s.take(i)), seconds: rest },
                ),
                Some(j) => {
                    let last = rest.skip(j + 1);
                    if text::find_char(last, ':') is Some {
                        None
                    } else {
                        Some(
                            TimecodeState {
                                hours: text::parse_u64_or_zero(s.take(i)),
                                minutes: text::parse_u64_or_zero(rest.take(j)),
                                seconds: last,
                            },
                        )
                    }
                },
            }
        },
    }
}

/// Microseconds of a clock whose seconds field is worth `seconds_us`.
pub open spec fn timecode_total(tc: TimecodeState, seconds_us: u64) -> int {
    (tc.hours * 3600 + tc.minutes * 60) * 1_000_000 + seconds_us
}

/// The key and the value of a trimmed `key=value` line, both trimmed.
pub open spec fn key_value(line: Seq<char>) -> Option<(Seq<char>, Seq<char>)> {
    match text::find_char(line, '=') {
        Some(i) => Some((text::trim(line.take(i)), text::trim(line.skip(i + 1)))),
        None => None,
    }
}

/// The text of a `speed` value without its `x` suffix.
pub open spec fn speed_text(value: Seq<char>) -> Seq<char> {
    text::trim_end_char(text::trim_end_char(value, 'x'), 'X')
}

/// The text of a `bitrate` value without its unit.
pub open spec fn bitrate_text(value: Seq<char>) -> Seq<char> {
    text::trim_end_text(value, "kbits/s"@)
}

/// Whether the field `key` takes `value`: an integer field takes a decimal
/// number that fits in a `u64`, a rate field text that reads as a
/// floating-point number once its unit is removed. A field ignores any
/// other value; other keys take anything.
pub open spec fn accepts_value(key: Seq<char>, value: Seq<char>) -> bool {
    if key == "frame"@ || key == "out_time_us"@ || key == "out_time_ms"@ || key == "total_size"@ {
        text::parse_u64(value) is Some
    } else if key == "fps"@ {
        text::is_float_text(value)
    } else if key == "speed"@ {
        text::is_float_text(speed_text(value))
    } else if key == "bitrate"@ {
        text::is_float_text(bitrate_text(value))
    } else {
        true
    }
}

/// The state after a field line `key=value`, and what it yields.
pub open spec fn field_step(st: ParserState, key: Seq<char>, value: Seq<char>) -> (
    ParserState,
    Effect,
) {
    if !accepts_value(key, value) {
        (st, Effect::Absorbed)
    } else if key == "frame"@ {
        (ParserState { frame: text::parse_u64(value)->0, ..st }, Effect::Absorbed)
    } else if key == "fps"@ {
        (ParserState { fps: value, ..st }, Effect::Absorbed)
    } else if key == "out_time_us"@ {
        (ParserState { out_time_us: text::parse_u64(value)->0, ..st }, Effect::Absorbed)
    } else if key == "out_time_ms"@ {
        if st.out_time_us == 0 {
            (ParserState { out_time_us: text::parse_u64(value)->0, ..st }, Effect::Absorbed)
        } else {
            (st, Effect::Absorbed)
        }
    } else if key == "out_time"@ {
        if st.out_time_us == 0 {
            match split_timecode_spec(value) {
                Some(tc) => (st, Effect::Timecode(tc)),
                None => (st, Effect::Absorbed),
            }
        } else {
            (st, Effect::Absorbed)
        }
    } else if key == "speed"@ {
        (ParserState { speed: speed_text(value), ..st }, Effect::Absorbed)
    } else if key == "total_size"@ {
        (ParserState { total_size: text::parse_u64(value)->0, ..st }, Effect::Absorbed)
    } else if key == "bitrate"@ {
        (ParserState { bitrate: bitrate_text(value), ..st }, Effect::Absorbed)
    } else {
        (st, Effect::Absorbed)
    }
}

/// The state after the line `raw`, and what it yields.
pub open spec fn step(st: ParserState, raw: Seq<char>) -> (ParserState, Effect) {
    let line = text::trim(raw);
    if line.len() == 0 {
        (st, Effect::Absorbed)
    } else if text::starts_with(line, "progress="@) {
        let value = text::trim(line.skip("progress="@.len() as int));
        (st, Effect::Snapshot(snapshot_of(st, value == "end"@)))
    } else {
        match key_value(line) {
            Some((key, value)) => field_step(st, key, value),
            None => (st, Effect::Absorbed),
        }
    }
}

// ========================= Types =========================

/// One block of progress, reported when a `progress=` line closes it.
#[derive(Clone, Debug)]
pub struct ProgressSnapshot {
    /// Frames encoded so far.
    pub frame: u64,
    /// Frames per second, as FFmpeg wrote it.
    pub fps_text: String,
    /// Output time reached, in microseconds.
    pub out_time_us: u64,
    /// Speed relative to real time, as FFmpeg wrote it without the `x`.
    pub speed_text: String,
    /// Bytes written so far.
    pub total_size: u64,
    /// Bit rate in kbit/s, as FFmpeg wrote it without the unit.
    pub bitrate_text: String,
    /// Whether the block was the last one (`progress=end`).
    pub is_final: bool,
}

impl View for ProgressSnapshot {
    type V = SnapshotState;

    open spec fn view(&self) -> SnapshotState {
        SnapshotState {
            frame: self.frame,
            fps: self.fps_text@,
            out_time_us: self.out_time_us,
            speed: self.speed_text@,
            total_size: self.total_size,
            bitrate: self.bitrate_text@,
            is_final: self.is_final,
        }
    }
}

/// The fields of an `out_time` clock, whose seconds field awaits conversion.
#[derive(Clone, Debug)]
pub struct Timecode {
    pub hours: u64,
    pub minutes: u64,
    /// The seconds field as written, such as `05.000000`.
    pub seconds: String,
}

impl View for Timecode {
    type V = TimecodeState;

    open spec fn view(&self) -> TimecodeState {
        TimecodeState { hours: self.hours, minutes: self.minutes, seconds: self.seconds@ }
    }
}

/// What feeding one line yields.
#[derive(Clone, Debug)]
pub enum LineOutcome {
    /// Nothing to report.
    Absorbed,
    /// A `progress=` line closed a block.
    Snapshot(ProgressSnapshot),
    /// An `out_time` line is to set the output time from this clock: the
    /// caller converts the seconds field and calls
    /// [`ProgressParser::apply_timecode`].
    Timecode(Timecode),
}

impl View for LineOutcome {
    type V = Effect;

    open spec fn view(&self) -> Effect {
        match self {
            LineOutcome::Absorbed => Effect::Absorbed,
            LineOutcome::Snapshot(s) => Effect::Snapshot(s@),
            LineOutcome::Timecode(t) => Effect::Timecode(t@),
        }
    }
}

/// Accumulates the fields of FFmpeg's progress output line by line.
pub struct ProgressParser {
    frame: u64,
    fps: String,
    out_time_us: u64,
    speed: String,
    total_size: u64,
    bitrate: String,
}

impl View for ProgressParser {
    type V = ParserState;

    closed spec fn view(&self) -> ParserState {
        ParserState {
            frame: self.frame,
            fps: self.fps@,
            out_time_us: self.out_time_us,
            speed: self.speed@,
            total_size: self.total_size,
            bitrate: self.bitrate@,
        }
    }
}

/// `text::parse_u64_or_zero(cs[lo..hi])`.
fn parse_u64_or_zero_in(cs: &Vec<char>, lo: usize, hi: usize) -> (r: u64)
    requires
        lo <= hi <= cs.len(),
    ensures
        r == text::parse_u64_or_zero(cs@.subrange(lo as int, hi as int)),
{
    match parse_u64_in(cs, lo, hi) {
        Some(v) => v,
        None => 0,
    }
}

/// The clock fields of `text[lo..hi]`, where `cs` holds the characters of `text`.
fn split_timecode_in(text: &str, cs: &Vec<char>, lo: usize, hi: usize) -> (r: Option<Timecode>)
    requires
        cs@ == text@,
        lo <= hi <= cs.len(),
    ensures
        match r {
            Some(t) => split_timecode_spec(cs@.subrange(lo as int, hi as int)) == Some(t@),
            None => split_timecode_spec(cs@.subrange(lo as int, hi as int)) is None,
        },
{
    let ghost s = cs@.subrange(lo as int, hi as int);
    match find_char_in(cs, lo, hi, ':') {
        None => Some(Timecode { hours: 0, minutes: 0, seconds: sub_string(text, lo, hi) }),
        Some(i) => {
            let r1: usize = lo + i + 1;
            let ghost rest = s.skip(i + 1);
            assert(rest =~= cs@.subrange(r1 as int, hi as int));
            assert(s.take(i as int) =~= cs@.subrange(lo as int, lo + i));
            match find_char_in(cs, r1, hi, ':') {
                None => {
                    let minutes: u64 = parse_u64_or_zero_in(cs, lo, lo + i);
                    Some(Timecode { hours: 0, minutes, seconds: sub_string(text, r1, hi) })
                },
                Some(j) => {
                    let r2: usize = r1 + j + 1;
                    assert(rest.skip(j + 1) =~= cs@.subrange(r2 as int, hi as int));
                    assert(rest.take(j as int) =~= cs@.subrange(r1 as int, r1 + j));
                    match find_char_in(cs, r2, hi, ':') {
                        Some(_) => None,
                        None => {
                            let hours: u64 = parse_u64_or_zero_in(cs, lo, lo + i);
                            let minutes: u64 = parse_u64_or_zero_in(cs, r1, r1 + j);
                            Some(Timecode { hours, minutes, seconds: sub_string(text, r2, hi) })
                        },
                    }
                },
            }
        },
    }
}

/// The fields of the clock `s` (`[[H:]M:]S`), or `None` where it has more
/// than three.
pub fn split_timecode(s: &str) -> (r: Option<Timecode>)
    ensures
        match r {
            Some(t) => split_timecode_spec(s@) == Some(t@),
            None => split_timecode_spec(s@) is None,
        },
{
    let cs = chars_of(s);
    assert(cs@.subrange(0, cs@.len() as int) =~= s@);
    split_timecode_in(s, &cs, 0, cs.len())
}

/// Whether the clock `tc`, with its seconds field worth `seconds_us`, fits
/// in a `u64` count of microseconds.
pub fn timecode_fits(tc: &Timecode, seconds_us: u64) -> (r: bool)
    ensures
        r == (timecode_total(tc@, seconds_us) <= u64::MAX),
{
    let whole: u128 = (tc.hours as u128 * 3600 + tc.minutes as u128 * 60) * 1_000_000;
    whole + seconds_us as u128 <= u64::MAX as u128
}

/// Microseconds of the clock `tc` whose seconds field is worth `seconds_us`.
pub fn timecode_micros(tc: &Timecode, seconds_us: u64) -> (r: u64)
    requires
        timecode_total(tc@, seconds_us) <= u64::MAX,
    ensures
        r == timecode_total(tc@, seconds_us),
{
    (tc.hours * 3600 + tc.minutes * 60) * 1_000_000 + seconds_us
}

impl Default for ProgressSnapshot {
    fn default() -> (s: Self)
        ensures
            s@ == snapshot_of(initial_state(), false),
    {
        ProgressSnapshot {
            frame: 0,
            fps_text: String::new(),
            out_time_us: 0,
            speed_text: String::new(),
            total_size: 0,
            bitrate_text: String::new(),
            is_final: false,
        }
    }
}

impl Default for ProgressParser {
    fn default() -> (p: Self)
        ensures
            p@ == initial_state(),
    {
        ProgressParser::new()
    }
}

impl ProgressParser {
    /// A parser that has read nothing.
    pub fn new() -> (p: Self)
        ensures
            p@ == initial_state(),
    {
        ProgressParser {
            frame: 0,
            fps: String::new(),
            out_time_us: 0,
            speed: String::new(),
            total_size: 0,
            bitrate: String::new(),
        }
    }

    /// A snapshot of what has accumulated.
    fn snapshot(&self, is_final: bool) -> (s: ProgressSnapshot)
        ensures
            s@ == snapshot_of(self@, is_final),
    {
        ProgressSnapshot {
            frame: self.frame,
            fps_text: self.fps.clone(),
            out_time_us: self.out_time_us,
            speed_text: self.speed.clone(),
            total_size: self.total_size,
            bitrate_text: self.bitrate.clone(),
            is_final,
        }
    }

    /// Stores the field line whose key is `cs[ka..kb]` and whose value is
    /// `cs[va..vb]`, where `cs` holds the characters of `line`.
    fn store_field(
        &mut self,
        line: &str,
        cs: &Vec<char>,
        ka: usize,
        kb: usize,
        va: usize,
        vb: usize,
    ) -> (r: LineOutcome)
        requires
            cs@ == line@,
            ka <= kb <= cs.len(),
            va <= vb <= cs.len(),
        ensures
            ({
                let (st, eff) = field_step(
                    old(self)@,
                    cs@.subrange(ka as int, kb as int),
                    cs@.subrange(va as int, vb as int),
                );
                final(self)@ == st && r@ == eff
            }),
    {
        proof {
            lemma_keys_distinct();
        }
        if range_eq(cs, ka, kb, &chars_of("frame")) {
            if let Some(v) = parse_u64_in(cs, va, vb) {
                self.frame = v;
            }
        } else if range_eq(cs, ka, kb, &chars_of("fps")) {
            if range_is_float(cs, va, vb) {
                self.fps = sub_string(line, va, vb);
            }
        } else if range_eq(cs, ka, kb, &chars_of("out_time_us")) {
            if let Some(v) = parse_u64_in(cs, va, vb) {
                self.out_time_us = v;
            }
        } else if range_eq(cs, ka, kb, &chars_of("out_time_ms")) {
            if let Some(v) = parse_u64_in(cs, va, vb) {
                if self.out_time_us == 0 {
                    self.out_time_us = v;
                }
            }
        } else if range_eq(cs, ka, kb, &chars_of("out_time")) {
            if self.out_time_us == 0 {
                match split_timecode_in(line, cs, va, vb) {
                    Some(tc) => {
                        return LineOutcome::Timecode(tc);
                    },
                    None => {},
                }
            }
        } else if range_eq(cs, ka, kb, &chars_of("speed")) {
            let e1: usize = trim_end_char_bound(cs, va, vb, 'x');
            let e2: usize = trim_end_char_bound(cs, va, e1, 'X');
            if range_is_float(cs, va, e2) {
                self.speed = sub_string(line, va, e2);
            }
        } else if range_eq(cs, ka, kb, &chars_of("total_size")) {
            if let Some(v) = parse_u64_in(cs, va, vb) {
                self.total_size = v;
            }
        } else if range_eq(cs, ka, kb, &chars_of("bitrate")) {
            let unit = chars_of("kbits/s");
            proof {
                reveal_strlit("kbits/s");
            }
            let e: usize = trim_end_text_bound(cs, va, vb, &unit);
            if range_is_float(cs, va, e) {
                self.bitrate = sub_string(line, va, e);
            }
        }
        LineOutcome::Absorbed
    }

    /// Feeds one line of progress output. A `progress=` line yields a
    /// snapshot of the fields read so far; an `out_time` line that is to set
    /// the output time yields its clock; any other line yields nothing.
    pub fn feed_line(&mut self, line: &str) -> (r: LineOutcome)
        ensures
            ({
                let (st, eff) = step(old(self)@, line@);
                final(self)@ == st && r@ == eff
            }),
    {
        let cs = chars_of(line);
        let n: usize = cs.len();
        assert(cs@.subrange(0, n as int) =~= line@);
        let (a, b) = trim_bounds(&cs, 0, n);
        let ghost t = cs@.subrange(a as int, b as int);
        if a == b {
            return LineOutcome::Absorbed;
        }
        let marker = chars_of("progress=");
        if range_starts_with(&cs, a, b, &marker) {
            let (va, vb) = trim_bounds(&cs, a + marker.len(), b);
            assert(t.skip(marker@.len() as int) =~= cs@.subrange(a + marker.len(), b as int));
            let is_final = range_eq(&cs, va, vb, &chars_of("end"));
            return LineOutcome::Snapshot(self.snapshot(is_final));
        }
        match find_char_in(&cs, a, b, '=') {
            None => LineOutcome::Absorbed,
            Some(i) => {
                let (ka, kb) = trim_bounds(&cs, a, a + i);
                let (va, vb) = trim_bounds(&cs, a + i + 1, b);
                assert(t.take(i as int) =~= cs@.subrange(a as int, a + i));
                assert(t.skip(i + 1) =~= cs@.subrange(a + i + 1, b as int));
                self.store_field(line, &cs, ka, kb, va, vb)
            },
        }
    }

    /// Completes an `out_time` line: sets the output time to the clock `tc`
    /// whose seconds field is worth `seconds_us` microseconds.
    pub fn apply_timecode(&mut self, tc: &Timecode, seconds_us: u64)
        requires
            timecode_total(tc@, seconds_us) <= u64::MAX,
        ensures
            final(self)@ == (ParserState {
                out_time_us: timecode_total(tc@, seconds_us) as u64,
                ..old(self)@
            }),
    {
        self.out_time_us = timecode_micros(tc, seconds_us);
    }
}

// ========================= Laws =========================

/// The known field keys.
pub open spec fn is_known_key(key: Seq<char>) -> bool {
    ||| key == "frame"@
    ||| key == "fps"@
    ||| key == "out_time_us"@
    ||| key == "out_time_ms"@
    ||| key == "out_time"@
    ||| key == "speed"@
    ||| key == "total_size"@
    ||| key == "bitrate"@
}

/// A snapshot comes exactly from a `progress=` line; it reports the fields
/// read so far, unchanged, and is final exactly where the line says `end`.
pub proof fn lemma_snapshot_only_from_progress_line(st: ParserState, line: Seq<char>)
    ensures
        (step(st, line).1 is Snapshot) <==> text::starts_with(text::trim(line), "progress="@),
        step(st, line).1 is Snapshot ==> step(st, line).0 == st && step(st, line).1
            == Effect::Snapshot(
            snapshot_of(
                st,
                text::trim(text::trim(line).skip("progress="@.len() as int)) == "end"@,
            ),
        ),
{
    let t = text::trim(line);
    if t.len() == 0 {
        assert(!text::starts_with(t, "progress="@)) by {
            reveal_strlit("progress=");
        }
    }
}

/// Once the output time is known and not zero, only an `out_time_us` line
/// changes it: the `out_time_ms` and `out_time` fallbacks leave it alone and
/// ask for no clock conversion.
pub proof fn lemma_out_time_us_preferred(st: ParserState, line: Seq<char>)
    requires
        st.out_time_us != 0,
        !(key_value(text::trim(line)) matches Some((key, _)) && key == "out_time_us"@),
    ensures
        step(st, line).0.out_time_us == st.out_time_us,
        !(step(st, line).1 is Timecode),
{
}

/// A line without `=`, or with a key that is not a known field, changes
/// nothing and yields nothing.
pub proof fn lemma_unknown_lines_ignored(st: ParserState, line: Seq<char>)
    requires
        !text::starts_with(text::trim(line), "progress="@),
        match key_value(text::trim(line)) {
            Some((key, _)) => !is_known_key(key),
            None => true,
        },
    ensures
        step(st, line) == (st, Effect::Absorbed),
{
}

/// A field line changes only the field it names.
pub proof fn lemma_field_line_changes_its_field(st: ParserState, key: Seq<char>, value: Seq<char>)
    ensures
        ({
            let after = field_step(st, key, value).0;
            &&& key != "frame"@ ==> after.frame == st.frame
            &&& key != "fps"@ ==> after.fps == st.fps
            &&& (key != "out_time_us"@ && key != "out_time_ms"@) ==> after.out_time_us
                == st.out_time_us
            &&& key != "speed"@ ==> after.speed == st.speed
            &&& key != "total_size"@ ==> after.total_size == st.total_size
            &&& key != "bitrate"@ ==> after.bitrate == st.bitrate
        }),
{
}

/// The field that a line sets, if it is a `key=value` line and not a
/// `progress=` line.
pub open spec fn field_of(raw: Seq<char>) -> Option<(Seq<char>, Seq<char>)> {
    let line = text::trim(raw);
    if line.len() == 0 || text::starts_with(line, "progress="@) {
        None
    } else {
        key_value(line)
    }
}

/// The state after feeding `lines` in order, from `st`.
pub open spec fn feed_all(st: ParserState, lines: Seq<Seq<char>>) -> ParserState
    decreases lines.len(),
{
    if lines.len() == 0 {
        st
    } else {
        step(feed_all(st, lines.drop_last()), lines.last()).0
    }
}

/// The value of the last line of `lines` that sets the field `key` with a
/// value that the field takes.
pub open spec fn last_value(lines: Seq<Seq<char>>, key: Seq<char>) -> Option<Seq<char>>
    decreases lines.len(),
{
    if lines.len() == 0 {
        None
    } else {
        match field_of(lines.last()) {
            Some((k, v)) => if k == key && accepts_value(k, v) {
                Some(v)
            } else {
                last_value(lines.drop_last(), key)
            },
            None => last_value(lines.drop_last(), key),
        }
    }
}

/// The lengths and telling characters of the known keys, which keep them
/// apart.
proof fn lemma_keys_distinct()
    ensures
        "frame"@.len() == 5 && "frame"@[0] == 'f',
        "fps"@.len() == 3,
        "out_time_us"@.len() == 11 && "out_time_us"@[9] == 'u',
        "out_time_ms"@.len() == 11 && "out_time_ms"@[9] == 'm',
        "out_time"@.len() == 8,
        "speed"@.len() == 5 && "speed"@[0] == 's',
        "total_size"@.len() == 10,
        "bitrate"@.len() == 7,
{
    reveal_strlit("frame");
    reveal_strlit("fps");
    reveal_strlit("out_time_us");
    reveal_strlit("out_time_ms");
    reveal_strlit("out_time");
    reveal_strlit("speed");
    reveal_strlit("total_size");
    reveal_strlit("bitrate");
}

proof fn lemma_step_state(st: ParserState, raw: Seq<char>)
    ensures
        step(st, raw).0 == (match field_of(raw) {
            Some((k, v)) => field_step(st, k, v).0,
            None => st,
        }),
{
}

/// The fields accumulate across lines and blocks: after any lines, the
/// frame count, size, and rate texts are those of the last line that gave
/// them a value they take, or what they were before where no line did; a
/// value that does not read as a number is passed over.
pub proof fn lemma_fields_hold_last_value(st: ParserState, lines: Seq<Seq<char>>)
    ensures
        feed_all(st, lines).frame == (match last_value(lines, "frame"@) {
            Some(v) => text::parse_u64(v)->0,
            None => st.frame,
        }),
        feed_all(st, lines).fps == (match last_value(lines, "fps"@) {
            Some(v) => v,
            None => st.fps,
        }),
        feed_all(st, lines).speed == (match last_value(lines, "speed"@) {
            Some(v) => speed_text(v),
            None => st.speed,
        }),
        feed_all(st, lines).total_size == (match last_value(lines, "total_size"@) {
            Some(v) => text::parse_u64(v)->0,
            None => st.total_size,
        }),
        feed_all(st, lines).bitrate == (match last_value(lines, "bitrate"@) {
            Some(v) => bitrate_text(v),
            None => st.bitrate,
        }),
    decreases lines.len(),
{
    if lines.len() > 0 {
        let prev = feed_all(st, lines.drop_last());
        lemma_fields_hold_last_value(st, lines.drop_last());
        lemma_step_state(prev, lines.last());
        lemma_keys_distinct();
        match field_of(lines.last()) {
            Some((k, v)) => {
                lemma_field_line_changes_its_field(prev, k, v);
            },
            None => {},
        }
    }
}

/// A line that leaves the parser's fields as they are: a blank line, a
/// `progress=` line, a line without `=`, a line whose key is not a known
/// field, or one whose value the field does not take.
pub open spec fn keeps_fields(raw: Seq<char>) -> bool {
    match field_of(raw) {
        Some((key, value)) => !is_known_key(key) || !accepts_value(key, value),
        None => true,
    }
}

/// A known field given a value that does not read as a number, such as
/// `frame=abc` or `speed=N/A`, is ignored: the line changes nothing and
/// yields nothing.
pub proof fn lemma_malformed_value_ignored(st: ParserState, line: Seq<char>)
    requires
        field_of(line) matches Some((key, value)) && !accepts_value(key, value),
    ensures
        step(st, line) == (st, Effect::Absorbed),
{
}

/// Progress lines and ignored lines neither change nor reset the parser:
/// after any number of them, the fields are as they were, and the next
/// `progress=` line reports them all again.
pub proof fn lemma_ignored_lines_carry_over(st: ParserState, lines: Seq<Seq<char>>, next: Seq<char>)
    requires
        forall|i: int| 0 <= i < lines.len() ==> keeps_fields(#[trigger] lines[i]),
        text::starts_with(text::trim(next), "progress="@),
    ensures
        feed_all(st, lines) == st,
        step(feed_all(st, lines), next).1 == Effect::Snapshot(
            snapshot_of(
                st,
                text::trim(text::trim(next).skip("progress="@.len() as int)) == "end"@,
            ),
        ),
    decreases lines.len(),
{
    if lines.len() > 0 {
        let rest = lines.drop_last();
        assert forall|i: int| 0 <= i < rest.len() implies keeps_fields(#[trigger] rest[i]) by {
            assert(rest[i] == lines[i]);
        }
        lemma_ignored_lines_carry_over(st, rest, next);
        assert(keeps_fields(lines[lines.len() - 1]));
        lemma_step_state(st, lines.last());
    }
    lemma_snapshot_only_from_progress_line(feed_all(st, lines), next);
}

/// An integer field written as the decimal text of `n` reads back as `n`:
/// the line `frame=<n>`, `out_time_us=<n>` or `total_size=<n>` sets that
/// field to `n` and leaves the others as they were.
pub proof fn lemma_integer_field_reads_back(st: ParserState, key: Seq<char>, n: u64)
    requires
        key == "frame"@ || key == "out_time_us"@ || key == "total_size"@,
    ensures
        ({
            let (next, effect) = step(st, key + "="@ + text::decimal(n as nat));
            &&& effect == Effect::Absorbed
            &&& key == "frame"@ ==> next == ParserState { frame: n, ..st }
            &&& key == "out_time_us"@ ==> next == ParserState { out_time_us: n, ..st }
            &&& key == "total_size"@ ==> next == ParserState { total_size: n, ..st }
        }),
{
    reveal_strlit("frame");
    reveal_strlit("out_time_us");
    reveal_strlit("total_size");
    reveal_strlit("=");
    reveal_strlit("progress=");
    reveal_strlit("fps");
    reveal_strlit("out_time_ms");
    reveal_strlit("out_time");
    reveal_strlit("speed");
    let d = text::decimal(n as nat);
    text::lemma_decimal_digits(n as nat);
    text::lemma_decimal_reads_back(n);
    let tail = "="@ + d;
    let line = key + tail;
    assert(text::is_digit(d[0]) && text::is_digit(d.last()));
    assert(line.last() == d.last());
    assert(line[0] == key[0]);
    text::lemma_trim_unchanged(line);
    text::lemma_trim_unchanged(key);
    text::lemma_trim_unchanged(d);
    assert(!text::starts_with(line, "progress="@)) by {
        if "progress="@.len() <= line.len() {
            assert(line.take(9)[0] != "progress="@[0]);
        }
    }
    assert(tail[0] == '=');
    text::lemma_find_char_after(key, tail, '=');
    assert(line.take(key.len() as int) =~= key);
    assert(line.skip(key.len() as int + 1) =~= d);
    assert(key + "="@ + d =~= line);
    assert(key_value(line) == Some((key, d)));
    assert(text::parse_u64(d) == Some(n));
}

/// Digits are no clock separator.
proof fn lemma_decimal_has_no_colon(n: nat)
    ensures
        forall|j: int| 0 <= j < text::decimal(n).len() ==> text::decimal(n)[j] != ':',
{
    text::lemma_decimal_digits(n);
    assert forall|j: int| 0 <= j < text::decimal(n).len() implies text::decimal(n)[j] != ':' by {
        assert(text::is_digit(text::decimal(n)[j]));
    }
}

/// A clock is read field by field: `H:M:S` with the hours and minutes
/// written in decimal gives those hours and minutes and the seconds field as
/// written, `M:S` gives no hours, and `S` alone only seconds; its total is
/// the hours and minutes in microseconds plus what the seconds are worth.
pub proof fn lemma_clock_fields(h: u64, m: u64, sec: Seq<char>, sec_us: u64)
    requires
        forall|j: int| 0 <= j < sec.len() ==> sec[j] != ':',
    ensures
        split_timecode_spec(text::decimal(h as nat) + ":"@ + text::decimal(m as nat) + ":"@ + sec)
            == Some(TimecodeState { hours: h, minutes: m, seconds: sec }),
        split_timecode_spec(text::decimal(m as nat) + ":"@ + sec) == Some(
            TimecodeState { hours: 0, minutes: m, seconds: sec },
        ),
        split_timecode_spec(sec) == Some(TimecodeState { hours: 0, minutes: 0, seconds: sec }),
        timecode_total(TimecodeState { hours: h, minutes: m, seconds: sec }, sec_us) == h
            * 3_600_000_000 + m * 60_000_000 + sec_us,
{
    reveal_strlit(":");
    let dh = text::decimal(h as nat);
    let dm = text::decimal(m as nat);
    lemma_decimal_has_no_colon(h as nat);
    lemma_decimal_has_no_colon(m as nat);
    text::lemma_decimal_reads_back(h);
    text::lemma_decimal_reads_back(m);
    text::lemma_find_char(sec, ':');
    // `M:S`
    let two = dm + ":"@ + sec;
    assert(two =~= dm + (":"@ + sec));
    assert((":"@ + sec)[0] == ':');
    text::lemma_find_char_after(dm, ":"@ + sec, ':');
    assert(two.take(dm.len() as int) =~= dm);
    assert(two.skip(dm.len() as int + 1) =~= sec);
    // `H:M:S`
    let three = dh + ":"@ + dm + ":"@ + sec;
    assert(three =~= dh + (":"@ + two));
    assert((":"@ + two)[0] == ':');
    text::lemma_find_char_after(dh, ":"@ + two, ':');
    assert(three.take(dh.len() as int) =~= dh);
    assert(three.skip(dh.len() as int + 1) =~= two);
    assert((h * 3600 + m * 60) * 1_000_000 == h * 3_600_000_000 + m * 60_000_000) by (
    nonlinear_arith);
}

/// The `x` after a speed and the `kbits/s` after a bit rate are dropped,
/// and nothing else: a rate text that does not end in them is kept whole.
pub proof fn lemma_rate_units(t: Seq<char>)
    ensures
        (t.len() == 0 || (t.last() != 'x' && t.last() != 'X')) ==> {
            &&& speed_text(t + "x"@) == t
            &&& speed_text(t + "X"@) == t
            &&& speed_text(t) == t
        },
        !text::ends_with(t, "kbits/s"@) ==> {
            &&& bitrate_text(t + "kbits/s"@) == t
            &&& bitrate_text(t) == t
        },
{
    reveal_strlit("x");
    reveal_strlit("X");
    reveal_strlit("kbits/s");
    if t.len() == 0 || (t.last() != 'x' && t.last() != 'X') {
        assert((t + "x"@).drop_last() =~= t);
        assert((t + "X"@).last() == 'X');
        assert((t + "X"@).drop_last() =~= t);
        assert(text::trim_end_char(t, 'x') == t);
        assert(text::trim_end_char(t + "x"@, 'x') == text::trim_end_char(t, 'x'));
        assert(text::trim_end_char(t + "X"@, 'x') == t + "X"@);
        assert(text::trim_end_char(t + "X"@, 'X') == text::trim_end_char(t, 'X'));
    }
    if !text::ends_with(t, "kbits/s"@) {
        let u = t + "kbits/s"@;
        assert(u.skip(u.len() - 7) =~= "kbits/s"@);
        assert(u.take(u.len() - 7) =~= t);
        assert(text::ends_with(u, "kbits/s"@));
        assert(text::trim_end_text(u, "kbits/s"@) == text::trim_end_text(t, "kbits/s"@));
    }
}

/// A line `key=value` whose key and value are already trimmed reads as that
/// key and that value.
proof fn lemma_plain_field_line(key: Seq<char>, value: Seq<char>)
    requires
        key.len() > 0,
        key[0] != 'p',
        !text::is_ws(key[0]),
        !text::is_ws(key.last()),
        forall|j: int| 0 <= j < key.len() ==> key[j] != '=',
        value.len() > 0,
        !text::is_ws(value[0]),
        !text::is_ws(value.last()),
    ensures
        field_of(key + "="@ + value) == Some((key, value)),
{
    reveal_strlit("=");
    reveal_strlit("progress=");
    let tail = "="@ + value;
    let line = key + tail;
    assert(key + "="@ + value =~= line);
    assert(line[0] == key[0]);
    assert(line.last() == value.last());
    text::lemma_trim_unchanged(line);
    text::lemma_trim_unchanged(key);
    text::lemma_trim_unchanged(value);
    assert(!text::starts_with(line, "progress="@)) by {
        if "progress="@.len() <= line.len() {
            assert(line.take(9)[0] != "progress="@[0]);
        }
    }
    assert(tail[0] == '=');
    text::lemma_find_char_after(key, tail, '=');
    assert(line.take(key.len() as int) =~= key);
    assert(line.skip(key.len() as int + 1) =~= value);
}

/// While the output time is still unknown (0), `out_time_ms=<n>` sets it to
/// `n`, and `out_time=H:M:S` asks for the clock `H`, `M`, `S` to be
/// converted; once it is known, neither changes it.
pub proof fn lemma_time_fallbacks(st: ParserState, n: u64, h: u64, m: u64, sec: Seq<char>)
    requires
        sec.len() > 0,
        !text::is_ws(sec.last()),
        forall|j: int| 0 <= j < sec.len() ==> sec[j] != ':',
    ensures
        ({
            let ms = step(st, "out_time_ms"@ + "="@ + text::decimal(n as nat));
            let clock = text::decimal(h as nat) + ":"@ + text::decimal(m as nat) + ":"@ + sec;
            let tc = step(st, "out_time"@ + "="@ + clock);
            &&& st.out_time_us == 0 ==> ms == (ParserState { out_time_us: n, ..st }, Effect::Absorbed)
            &&& st.out_time_us == 0 ==> tc == (st, Effect::Timecode(
                TimecodeState { hours: h, minutes: m, seconds: sec },
            ))
            &&& st.out_time_us != 0 ==> ms == (st, Effect::Absorbed) && tc == (st, Effect::Absorbed)
        }),
{
    reveal_strlit("out_time_ms");
    reveal_strlit("out_time");
    reveal_strlit(":");
    lemma_keys_distinct();
    let d = text::decimal(n as nat);
    text::lemma_decimal_digits(n as nat);
    text::lemma_decimal_reads_back(n);
    assert(text::is_digit(d[0]) && text::is_digit(d.last()));
    lemma_plain_field_line("out_time_ms"@, d);
    let dh = text::decimal(h as nat);
    text::lemma_decimal_digits(h as nat);
    assert(text::is_digit(dh[0]));
    let clock = dh + ":"@ + text::decimal(m as nat) + ":"@ + sec;
    assert(clock[0] == dh[0]);
    assert(clock.last() == sec.last());
    lemma_plain_field_line("out_time"@, clock);
    lemma_clock_fields(h, m, sec, 0);
}

} // verus!
