//! What a transcoding job decides from the events of its FFmpeg process:
//! progress from stdout, an error log from stderr, and at the end whether
//! the job was canceled, succeeded, or failed, and with which message.
use vstd::prelude::*;

use crate::progress;
use crate::progress::{LineOutcome, ParserState, ProgressParser, Timecode};
use crate::text;
use crate::text::{chars_of, decimal_text, find_char_in, sub_string, text_eq, trim_bounds};

verus! {

// ========================= Error log =========================

/// The log after appending one stderr line: the line, then a newline unless
/// the log already ends with one.
pub open spec fn append_output_line(log: Seq<char>, line: Seq<char>) -> Seq<char> {
    let b = log + line;
    if b.len() > 0 && b.last() == '\n' {
        b
    } else {
        b + "\n"@
    }
}

/// The log after a failure of the event stream itself.
pub open spec fn append_stream_error(log: Seq<char>, msg: Seq<char>) -> Seq<char> {
    log + "ffmpeg stream error: "@ + msg + "\n"@
}

/// `l` without the carriage return that ends it, if any.
pub open spec fn strip_cr(l: Seq<char>) -> Seq<char> {
    if l.len() > 0 && l.last() == '\r' {
        l.drop_last()
    } else {
        l
    }
}

/// The lines of `s` as `str::lines` gives them: split at each `\n`, a `\r`
/// before it dropped, and no empty line after a final `\n`.
pub open spec fn lines(s: Seq<char>) -> Seq<Seq<char>>
    decreases s.len(),
{
    if s.len() == 0 {
        Seq::empty()
    } else {
        match text::find_char(s, '\n') {
            Some(k) => {
                proof {
                    text::lemma_find_char(s, '\n');
                }
                seq![strip_cr(s.take(k))] + lines(s.skip(k + 1))
            },
            None => seq![s],
        }
    }
}

/// A line that holds more than whitespace.
pub open spec fn is_nonblank(l: Seq<char>) -> bool {
    text::trim(l).len() > 0
}

/// The lines of `s` that hold more than whitespace.
pub open spec fn nonblank_lines(s: Seq<char>) -> Seq<Seq<char>> {
    lines(s).filter(|l: Seq<char>| is_nonblank(l))
}

/// The last `n` items of `ls`, or all of them where there are fewer.
pub open spec fn last_n<T>(ls: Seq<T>, n: nat) -> Seq<T> {
    if ls.len() > n {
        ls.skip(ls.len() - n)
    } else {
        ls
    }
}

/// The lines `ls` joined with `\n` between them.
pub open spec fn join_lines(ls: Seq<Seq<char>>) -> Seq<char>
    decreases ls.len(),
{
    if ls.len() == 0 {
        Seq::empty()
    } else if ls.len() == 1 {
        ls[0]
    } else {
        join_lines(ls.drop_last()) + "\n"@ + ls.last()
    }
}

/// The decimal text of a signed integer.
pub open spec fn signed_decimal(v: int) -> Seq<char> {
    if v < 0 {
        "-"@ + text::decimal((-v) as nat)
    } else {
        text::decimal(v as nat)
    }
}

/// How an exit code prints with `{:?}`.
pub open spec fn exit_code_text(code: Option<i32>) -> Seq<char> {
    match code {
        Some(v) => "Some("@ + signed_decimal(v as int) + ")"@,
        None => "None"@,
    }
}

/// The message of a failed job: the last five non-blank lines of its error
/// log, or, where the log holds only whitespace, the exit code.
pub open spec fn failure_message_spec(log: Seq<char>, code: Option<i32>) -> Seq<char> {
    if text::trim(log).len() == 0 {
        "ffmpeg 异常退出 (code="@ + exit_code_text(code) + ")"@
    } else {
        join_lines(last_n(nonblank_lines(log), 5))
    }
}

/// The texts that `spans` delimit in `s`.
pub open spec fn spans_text(s: Seq<char>, spans: Seq<(usize, usize)>) -> Seq<Seq<char>> {
    spans.map_values(|p: (usize, usize)| s.subrange(p.0 as int, p.1 as int))
}

proof fn lemma_nonblank_first_line(t: Seq<char>, k: int)
    requires
        t.len() > 0,
        text::find_char(t, '\n') == Some(k),
    ensures
        0 <= k < t.len(),
        nonblank_lines(t) == (if is_nonblank(strip_cr(t.take(k))) {
            seq![strip_cr(t.take(k))]
        } else {
            Seq::empty()
        }) + nonblank_lines(t.skip(k + 1)),
{
    text::lemma_find_char(t, '\n');
    let pred = |l: Seq<char>| is_nonblank(l);
    let head = seq![strip_cr(t.take(k))];
    assert(lines(t) == head + lines(t.skip(k + 1)));
    Seq::filter_distributes_over_add(head, lines(t.skip(k + 1)), pred);
    reveal_with_fuel(Seq::filter, 2);
    assert(head.drop_last() =~= Seq::<Seq<char>>::empty());
}

proof fn lemma_nonblank_last_line(t: Seq<char>)
    requires
        t.len() > 0,
        text::find_char(t, '\n') is None,
    ensures
        nonblank_lines(t) == (if is_nonblank(t) {
            seq![t]
        } else {
            Seq::empty()
        }),
{
    reveal_with_fuel(Seq::filter, 2);
    assert(seq![t].drop_last() =~= Seq::<Seq<char>>::empty());
}

/// The spans of the non-blank lines of `cs`.
fn nonblank_line_spans(cs: &Vec<char>) -> (r: Vec<(usize, usize)>)
    ensures
        forall|i: int| 0 <= i < r.len() ==> (#[trigger] r@[i]).0 <= r@[i].1 <= cs.len(),
        spans_text(cs@, r@) == nonblank_lines(cs@),
{
    let n: usize = cs.len();
    let mut spans: Vec<(usize, usize)> = Vec::new();
    let mut pos: usize = 0;
    assert(cs@.skip(0) =~= cs@);
    assert(spans_text(cs@, spans@) =~= Seq::<Seq<char>>::empty());
    while pos < n
        invariant
            n == cs.len(),
            pos <= n,
            forall|i: int| 0 <= i < spans.len() ==> (#[trigger] spans@[i]).0 <= spans@[i].1 <= cs.len(),
            spans_text(cs@, spans@) + nonblank_lines(cs@.skip(pos as int)) == nonblank_lines(cs@),
        decreases n - pos,
    {
        let ghost t = cs@.skip(pos as int);
        assert(t =~= cs@.subrange(pos as int, n as int));
        let ghost before = spans_text(cs@, spans@);
        match find_char_in(cs, pos, n, '\n') {
            Some(k) => {
                proof {
                    lemma_nonblank_first_line(t, k as int);
                }
                let mut e = pos + k;
                assert(t.take(k as int) =~= cs@.subrange(pos as int, e as int));
                if k > 0 && cs[e - 1] == '\r' {
                    assert(t.take(k as int).drop_last() =~= cs@.subrange(pos as int, e - 1));
                    e = e - 1;
                }
                assert(strip_cr(t.take(k as int)) == cs@.subrange(pos as int, e as int));
                let (ta, tb) = trim_bounds(cs, pos, e);
                if ta < tb {
                    spans.push((pos, e));
                    assert(spans_text(cs@, spans@) =~= before.push(
                        cs@.subrange(pos as int, e as int),
                    ));
                }
                assert(t.skip(k + 1) =~= cs@.skip(pos + k + 1));
                pos = pos + k + 1;
                assert(spans_text(cs@, spans@) + nonblank_lines(cs@.skip(pos as int))
                    =~= before + nonblank_lines(t));
            },
            None => {
                proof {
                    lemma_nonblank_last_line(t);
                }
                let (ta, tb) = trim_bounds(cs, pos, n);
                if ta < tb {
                    spans.push((pos, n));
                    assert(spans_text(cs@, spans@) =~= before.push(t));
                }
                pos = n;
                assert(cs@.skip(n as int).len() == 0);
                assert(nonblank_lines(cs@.skip(n as int)) =~= Seq::<Seq<char>>::empty()) by {
                    reveal_with_fuel(Seq::filter, 1);
                }
                assert(spans_text(cs@, spans@) + nonblank_lines(cs@.skip(pos as int))
                    =~= before + nonblank_lines(t));
            },
        }
    }
    assert(cs@.skip(n as int).len() == 0);
    assert(nonblank_lines(cs@.skip(n as int)) =~= Seq::<Seq<char>>::empty()) by {
        reveal_with_fuel(Seq::filter, 1);
    }
    assert(spans_text(cs@, spans@) =~= nonblank_lines(cs@));
    spans
}

/// The decimal text of `v`.
fn signed_decimal_text(v: i32) -> (r: String)
    ensures
        r@ == signed_decimal(v as int),
{
    if v < 0 {
        let magnitude: u64 = (0 - (v as i64)) as u64;
        let mut r = String::from_str("-");
        r.append(decimal_text(magnitude).as_str());
        r
    } else {
        decimal_text(v as u64)
    }
}

/// The message of a failed job whose error log is `log` and whose process
/// exited with `code`.
pub fn failure_message(log: &str, code: Option<i32>) -> (r: String)
    ensures
        r@ == failure_message_spec(log@, code),
{
    let cs = chars_of(log);
    assert(cs@.subrange(0, cs@.len() as int) =~= log@);
    let (a, b) = trim_bounds(&cs, 0, cs.len());
    if a == b {
        let mut r = String::from_str("ffmpeg 异常退出 (code=");
        match code {
            Some(v) => {
                r.append("Some(");
                r.append(signed_decimal_text(v).as_str());
                r.append(")");
            },
            None => {
                r.append("None");
            },
        }
        r.append(")");
        return r;
    }
    let spans = nonblank_line_spans(&cs);
    let ghost kept = nonblank_lines(log@);
    let count: usize = spans.len();
    let first: usize = if count > 5 { count - 5 } else { 0 };
    let ghost chosen = last_n(kept, 5);
    assert(chosen =~= kept.skip(first as int));
    let mut r = String::new();
    let mut j: usize = first;
    while j < count
        invariant
            first <= j <= count,
            count == spans.len(),
            cs@ == log@,
            forall|i: int| 0 <= i < spans.len() ==> (#[trigger] spans@[i]).0 <= spans@[i].1 <= cs.len(),
            spans_text(cs@, spans@) == kept,
            chosen == kept.skip(first as int),
            r@ == join_lines(chosen.take(j - first)),
        decreases count - j,
    {
        let (lo, hi) = spans[j];
        let ghost prev = chosen.take(j - first);
        let ghost next = chosen.take(j + 1 - first);
        assert(next.drop_last() =~= prev);
        assert(next.last() == cs@.subrange(lo as int, hi as int));
        if j > first {
            r.append("\n");
        }
        r.append(sub_string(log, lo, hi).as_str());
        assert(r@ =~= join_lines(next));
        j = j + 1;
    }
    assert(chosen.take(count - first) =~= chosen);
    r
}

/// Appends one stderr line to the error log `log`, then a newline unless
/// the log now ends with one.
pub fn push_output_line(log: &mut String, line: &str)
    ensures
        final(log)@ == append_output_line(old(log)@, line@),
{
    let line_chars = chars_of(line);
    let ends_with_newline = if line_chars.len() > 0 {
        line_chars[line_chars.len() - 1] == '\n'
    } else {
        let log_chars = chars_of(log.as_str());
        log_chars.len() > 0 && log_chars[log_chars.len() - 1] == '\n'
    };
    log.append(line);
    if !ends_with_newline {
        log.append("\n");
    }
}

/// Appends the report of a failed event stream to the error log `log`.
pub fn push_stream_error(log: &mut String, msg: &str)
    ensures
        final(log)@ == append_stream_error(old(log)@, msg@),
{
    log.append("ffmpeg stream error: ");
    log.append(msg);
    log.append("\n");
}

// ========================= Job outcome =========================

/// What a finished job reports.
#[derive(Clone, Debug)]
pub struct TranscodeResult {
    pub task_id: String,
    pub success: bool,
    pub output_path: String,
    pub message: String,
}

/// Whether a job succeeded, and its message: a canceled job failed with the
/// cancel message; otherwise it succeeded exactly where FFmpeg exited with
/// code 0, and a failure carries the end of the error log.
pub open spec fn outcome_spec(canceled: bool, code: Option<i32>, log: Seq<char>) -> (
    bool,
    Seq<char>,
) {
    if canceled {
        (false, "任务已取消"@)
    } else if code == Some(0i32) {
        (true, "转码完成"@)
    } else {
        (false, failure_message_spec(log, code))
    }
}

/// The state of a job as the front end sees it.
#[derive(Clone, Copy, Debug)]
pub enum JobStatus {
    Running,
    Completed,
    Failed,
    Canceled,
}

/// How a job ended: canceled whatever its exit code, else completed exactly
/// on exit code 0, else failed.
pub open spec fn end_status_spec(canceled: bool, code: Option<i32>) -> JobStatus {
    if canceled {
        JobStatus::Canceled
    } else if code == Some(0i32) {
        JobStatus::Completed
    } else {
        JobStatus::Failed
    }
}

/// The name under which a status is reported.
pub open spec fn status_name_spec(s: JobStatus) -> Seq<char> {
    match s {
        JobStatus::Running => "running"@,
        JobStatus::Completed => "completed"@,
        JobStatus::Failed => "failed"@,
        JobStatus::Canceled => "canceled"@,
    }
}

impl JobStatus {
    /// The name under which the status is reported.
    pub fn name(&self) -> (r: &'static str)
        ensures
            r@ == status_name_spec(*self),
    {
        match self {
            JobStatus::Running => "running",
            JobStatus::Completed => "completed",
            JobStatus::Failed => "failed",
            JobStatus::Canceled => "canceled",
        }
    }

    /// Whether the output file of a job that ended so is kept: only a
    /// completed job's; a canceled or failed job leaves an unfinished file.
    pub fn keeps_output(&self) -> (r: bool)
        ensures
            r == (*self is Completed),
    {
        match self {
            JobStatus::Completed => true,
            _ => false,
        }
    }

    /// Whether the job itself reports this status when its process ends: a
    /// completed or failed job does; a canceled one was already reported by
    /// the cancellation.
    pub fn announced_at_end(&self) -> (r: bool)
        ensures
            r == (*self is Completed || *self is Failed),
    {
        match self {
            JobStatus::Completed => true,
            JobStatus::Failed => true,
            _ => false,
        }
    }
}

/// What a [`TranscodeMonitor`] has gathered.
pub struct MonitorState {
    pub parser: ParserState,
    pub log: Seq<char>,
    pub exit_code: Option<i32>,
}

/// Follows the events of one FFmpeg process: its stdout feeds the progress
/// parser, its stderr and stream errors fill the error log, and its
/// termination records the exit code.
pub struct TranscodeMonitor {
    parser: ProgressParser,
    log: String,
    exit_code: Option<i32>,
}

impl View for TranscodeMonitor {
    type V = MonitorState;

    closed spec fn view(&self) -> MonitorState {
        MonitorState { parser: self.parser@, log: self.log@, exit_code: self.exit_code }
    }
}

impl TranscodeMonitor {
    /// A monitor that has seen no event.
    pub fn new() -> (m: Self)
        ensures
            m@ == (MonitorState { parser: progress::initial_state(), log: Seq::empty(), exit_code: None }),
    {
        TranscodeMonitor { parser: ProgressParser::new(), log: String::new(), exit_code: None }
    }

    /// A stdout line: fed to the progress parser.
    pub fn on_stdout(&mut self, line: &str) -> (r: LineOutcome)
        ensures
            ({
                let (st, eff) = progress::step(old(self)@.parser, line@);
                &&& final(self)@ == MonitorState { parser: st, ..old(self)@ }
                &&& r@ == eff
            }),
    {
        self.parser.feed_line(line)
    }

    /// Completes an `out_time` line of stdout with its converted clock.
    pub fn apply_timecode(&mut self, tc: &Timecode, seconds_us: u64)
        requires
            progress::timecode_total(tc@, seconds_us) <= u64::MAX,
        ensures
            final(self)@ == (MonitorState {
                parser: ParserState {
                    out_time_us: progress::timecode_total(tc@, seconds_us) as u64,
                    ..old(self)@.parser
                },
                ..old(self)@
            }),
    {
        self.parser.apply_timecode(tc, seconds_us);
    }

    /// A stderr line: appended to the error log.
    pub fn on_stderr(&mut self, line: &str)
        ensures
            final(self)@ == (MonitorState {
                log: append_output_line(old(self)@.log, line@),
                ..old(self)@
            }),
    {
        push_output_line(&mut self.log, line);
    }

    /// A failure of the event stream: reported in the error log.
    pub fn on_stream_error(&mut self, msg: &str)
        ensures
            final(self)@ == (MonitorState {
                log: append_stream_error(old(self)@.log, msg@),
                ..old(self)@
            }),
    {
        push_stream_error(&mut self.log, msg);
    }

    /// The process terminated with `code` (none where a signal ended it).
    pub fn on_terminated(&mut self, code: Option<i32>)
        ensures
            final(self)@ == (MonitorState { exit_code: code, ..old(self)@ }),
    {
        self.exit_code = code;
    }

    /// The error log gathered so far.
    pub fn log(&self) -> (r: &str)
        ensures
            r@ == self@.log,
    {
        self.log.as_str()
    }

    /// How the job ended once its process has ended, `canceled` telling
    /// whether it was canceled meanwhile.
    pub fn end_status(&self, canceled: bool) -> (r: JobStatus)
        ensures
            r == end_status_spec(canceled, self@.exit_code),
    {
        if canceled {
            JobStatus::Canceled
        } else if self.exit_code == Some(0i32) {
            JobStatus::Completed
        } else {
            JobStatus::Failed
        }
    }

    /// The job's result once its process has ended, `canceled` telling
    /// whether it was canceled meanwhile.
    pub fn finish(&self, task_id: String, output_path: String, canceled: bool) -> (r:
        TranscodeResult)
        ensures
            r.task_id == task_id,
            r.output_path == output_path,
            (r.success, r.message@) == outcome_spec(canceled, self@.exit_code, self@.log),
    {
        if canceled {
            TranscodeResult {
                task_id,
                success: false,
                output_path,
                message: String::from_str("任务已取消"),
            }
        } else if self.exit_code == Some(0i32) {
            TranscodeResult {
                task_id,
                success: true,
                output_path,
                message: String::from_str("转码完成"),
            }
        } else {
            TranscodeResult {
                task_id,
                success: false,
                output_path,
                message: failure_message(self.log.as_str(), self.exit_code),
            }
        }
    }
}

// ========================= Registry of running jobs =========================

/// The jobs that `entries` lists, each id mapped to its handle.
spec fn entries_map<C>(entries: Seq<(String, C)>) -> Map<Seq<char>, C>
    decreases entries.len(),
{
    if entries.len() == 0 {
        Map::empty()
    } else {
        entries_map(entries.drop_last()).insert(entries.last().0@, entries.last().1)
    }
}

/// No id occurs twice in `entries`.
spec fn ids_distinct<C>(entries: Seq<(String, C)>) -> bool {
    forall|i: int, j: int|
        #![trigger entries[i], entries[j]]
        0 <= i < j < entries.len() ==> entries[i].0@ != entries[j].0@
}

proof fn lemma_entries_map_dom<C>(s: Seq<(String, C)>, k: Seq<char>)
    ensures
        entries_map(s).dom().contains(k) <==> exists|i: int|
            0 <= i < s.len() && (#[trigger] s[i]).0@ == k,
    decreases s.len(),
{
    if s.len() > 0 {
        let t = s.drop_last();
        lemma_entries_map_dom(t, k);
        if entries_map(t).dom().contains(k) {
            let i = choose|i: int| 0 <= i < t.len() && (#[trigger] t[i]).0@ == k;
            assert(s[i] == t[i]);
        }
        if exists|i: int| 0 <= i < s.len() && (#[trigger] s[i]).0@ == k {
            let i = choose|i: int| 0 <= i < s.len() && (#[trigger] s[i]).0@ == k;
            if i < s.len() - 1 {
                assert(t[i] == s[i]);
            }
        }
    }
}

proof fn lemma_distinct_drop_last<C>(s: Seq<(String, C)>)
    requires
        ids_distinct(s),
        s.len() > 0,
    ensures
        ids_distinct(s.drop_last()),
        !entries_map(s.drop_last()).dom().contains(s.last().0@),
{
    let t = s.drop_last();
    assert forall|a: int, b: int| 0 <= a < b < t.len() implies #[trigger] t[a].0@ != #[trigger] t[b].0@ by {
        assert(t[a] == s[a] && t[b] == s[b]);
    }
    lemma_entries_map_dom(t, s.last().0@);
    if entries_map(t).dom().contains(s.last().0@) {
        let i = choose|i: int| 0 <= i < t.len() && (#[trigger] t[i]).0@ == s.last().0@;
        assert(t[i] == s[i]);
        assert(s[i].0@ != s[s.len() - 1].0@);
    }
}

proof fn lemma_entries_map_at<C>(s: Seq<(String, C)>, i: int)
    requires
        ids_distinct(s),
        0 <= i < s.len(),
    ensures
        entries_map(s).dom().contains(s[i].0@),
        entries_map(s)[s[i].0@] == s[i].1,
    decreases s.len(),
{
    let t = s.drop_last();
    if i < s.len() - 1 {
        lemma_distinct_drop_last(s);
        assert(t[i] == s[i]);
        lemma_entries_map_at(t, i);
        assert(s[i].0@ != s[s.len() - 1].0@);
    }
}

proof fn lemma_entries_map_push<C>(s: Seq<(String, C)>, e: (String, C))
    requires
        ids_distinct(s),
        !entries_map(s).dom().contains(e.0@),
    ensures
        ids_distinct(s.push(e)),
        entries_map(s.push(e)) == entries_map(s).insert(e.0@, e.1),
{
    let u = s.push(e);
    assert(u.drop_last() =~= s);
    lemma_entries_map_dom(s, e.0@);
    assert forall|a: int, b: int| 0 <= a < b < u.len() implies #[trigger] u[a].0@ != #[trigger] u[b].0@ by {
        assert(u[a] == s[a]);
        if b < s.len() {
            assert(u[b] == s[b]);
        }
    }
}

proof fn lemma_entries_map_remove<C>(s: Seq<(String, C)>, i: int)
    requires
        ids_distinct(s),
        0 <= i < s.len(),
    ensures
        ids_distinct(s.remove(i)),
        entries_map(s.remove(i)) == entries_map(s).remove(s[i].0@),
    decreases s.len(),
{
    let t = s.drop_last();
    let k = s[i].0@;
    let r = s.remove(i);
    lemma_distinct_drop_last(s);
    assert forall|a: int, b: int| 0 <= a < b < r.len() implies #[trigger] r[a].0@ != #[trigger] r[b].0@ by {
        let a1 = if a < i { a } else { a + 1 };
        let b1 = if b < i { b } else { b + 1 };
        assert(r[a] == s[a1] && r[b] == s[b1]);
    }
    if i == s.len() - 1 {
        assert(r =~= t);
        assert(entries_map(s).remove(k) =~= entries_map(t));
    } else {
        lemma_entries_map_remove(t, i);
        assert(r.drop_last() =~= t.remove(i));
        assert(r.last() == s.last());
        assert(s.last().0@ != k);
        assert(entries_map(r) =~= entries_map(s).remove(k));
    }
}

/// What registering `child` under `id` makes of the registry `m`, and the
/// handle it hands back: the one registered before under that id, if any.
pub open spec fn register_spec<C>(m: Map<Seq<char>, C>, id: Seq<char>, child: C) -> (Map<
    Seq<char>,
    C,
>, Option<C>) {
    (m.insert(id, child), if m.dom().contains(id) { Some(m[id]) } else { None })
}

/// What taking the handle of `id` out of the registry `m` makes of it, and
/// the handle taken, if there was one.
pub open spec fn take_spec<C>(m: Map<Seq<char>, C>, id: Seq<char>) -> (Map<Seq<char>, C>, Option<
    C,
>) {
    (m.remove(id), if m.dom().contains(id) { Some(m[id]) } else { None })
}

/// The handles of the running jobs, by task id. A job takes its own handle
/// out when its process ends; a cancellation takes it out first, so a job
/// that finds its handle gone was canceled.
pub struct TaskRegistry<C> {
    children: Vec<(String, C)>,
}

impl<C> TaskRegistry<C> {
    #[verifier::type_invariant]
    spec fn ids_unique(self) -> bool {
        ids_distinct(self.children@)
    }
}

impl<C> View for TaskRegistry<C> {
    type V = Map<Seq<char>, C>;

    closed spec fn view(&self) -> Map<Seq<char>, C> {
        entries_map(self.children@)
    }
}

impl<C> TaskRegistry<C> {
    /// An empty registry.
    pub fn new() -> (r: Self)
        ensures
            r@ == Map::<Seq<char>, C>::empty(),
    {
        TaskRegistry { children: Vec::new() }
    }

    fn position(&self, task_id: &str) -> (r: Option<usize>)
        ensures
            match r {
                Some(i) => i < self.children.len() && self.children@[i as int].0@ == task_id@,
                None => !self@.dom().contains(task_id@),
            },
    {
        let n: usize = self.children.len();
        let mut i: usize = 0;
        while i < n
            invariant
                n == self.children.len(),
                i <= n,
                forall|j: int| 0 <= j < i ==> (#[trigger] self.children@[j]).0@ != task_id@,
            decreases n - i,
        {
            if text_eq(self.children[i].0.as_str(), task_id) {
                return Some(i);
            }
            i = i + 1;
        }
        proof {
            lemma_entries_map_dom(self.children@, task_id@);
        }
        None
    }

    /// Whether a job with this id is registered.
    pub fn contains(&self, task_id: &str) -> (r: bool)
        ensures
            r == self@.dom().contains(task_id@),
    {
        proof {
            use_type_invariant(self);
        }
        match self.position(task_id) {
            Some(i) => {
                proof {
                    lemma_entries_map_at(self.children@, i as int);
                }
                true
            },
            None => false,
        }
    }

    /// Takes the handle of the job `task_id` out of the registry, if it is
    /// there.
    pub fn remove(&mut self, task_id: &str) -> (r: Option<C>)
        ensures
            (final(self)@, r) == take_spec(old(self)@, task_id@),
    {
        proof {
            use_type_invariant(&*self);
        }
        match self.position(task_id) {
            Some(i) => {
                proof {
                    lemma_entries_map_at(self.children@, i as int);
                    lemma_entries_map_remove(self.children@, i as int);
                }
                let mut entries: Vec<(String, C)> = Vec::new();
                std::mem::swap(&mut entries, &mut self.children);
                let (_, child) = entries.remove(i);
                self.children = entries;
                Some(child)
            },
            None => {
                assert(self@.remove(task_id@) =~= self@);
                None
            },
        }
    }

    /// Registers the handle of the job `task_id`; a handle registered before
    /// under that id is handed back.
    pub fn insert(&mut self, task_id: String, child: C) -> (r: Option<C>)
        ensures
            (final(self)@, r) == register_spec(old(self)@, task_id@, child),
    {
        let prev = self.remove(task_id.as_str());
        proof {
            use_type_invariant(&*self);
            lemma_entries_map_push(self.children@, (task_id, child));
        }
        let mut entries: Vec<(String, C)> = Vec::new();
        std::mem::swap(&mut entries, &mut self.children);
        entries.push((task_id, child));
        self.children = entries;
        assert(old(self)@.insert(task_id@, child) =~= old(self)@.remove(task_id@).insert(
            task_id@,
            child,
        ));
        prev
    }
}

// ========================= Laws =========================

/// After a stderr line the error log ends with a newline, so each line of
/// FFmpeg's stderr stays a line of its own.
pub proof fn lemma_log_ends_with_newline(log: Seq<char>, line: Seq<char>)
    ensures
        append_output_line(log, line).len() > 0,
        append_output_line(log, line).last() == '\n',
        (log + line).is_prefix_of(append_output_line(log, line)),
{
    reveal_strlit("\n");
    let b = log + line;
    if !(b.len() > 0 && b.last() == '\n') {
        assert(append_output_line(log, line) =~= b.push('\n'));
    }
}

/// A failure message built from the error log shows at most the five last
/// non-blank lines, in the order FFmpeg wrote them.
pub proof fn lemma_failure_lines(log: Seq<char>)
    ensures
        ({
            let kept = nonblank_lines(log);
            let shown = last_n(kept, 5);
            &&& shown.len() <= 5
            &&& shown.len() == (if kept.len() > 5 { 5 } else { kept.len() })
            &&& shown == kept.skip(kept.len() - shown.len())
            &&& forall|i: int| 0 <= i < shown.len() ==> is_nonblank(#[trigger] shown[i])
        }),
{
    let kept = nonblank_lines(log);
    let shown = last_n(kept, 5);
    assert(shown =~= kept.skip(kept.len() - shown.len()));
    assert forall|i: int| 0 <= i < shown.len() implies is_nonblank(#[trigger] shown[i]) by {
        let j = i + (kept.len() - shown.len());
        lines(log).lemma_filter_pred(|l: Seq<char>| is_nonblank(l), j);
        assert(shown[i] == kept[j]);
    }
}

/// A job succeeds exactly when it was not canceled and FFmpeg exited with
/// code 0; every other job fails with a message that says why.
pub proof fn lemma_success_iff_clean_exit(canceled: bool, code: Option<i32>, log: Seq<char>)
    ensures
        outcome_spec(canceled, code, log).0 <==> (!canceled && code == Some(0i32)),
        canceled ==> outcome_spec(canceled, code, log).1 == "任务已取消"@,
        (!canceled && code != Some(0i32)) ==> outcome_spec(canceled, code, log).1
            == failure_message_spec(log, code),
{
}

/// A job's reported end agrees with its result: it completed, and keeps its
/// output, exactly when the result is a success.
pub proof fn lemma_end_status_agrees(canceled: bool, code: Option<i32>, log: Seq<char>)
    ensures
        (end_status_spec(canceled, code) is Completed) <==> outcome_spec(canceled, code, log).0,
        (end_status_spec(canceled, code) is Canceled) <==> canceled,
{
}

/// A change that a party other than the job itself makes to the registry
/// while the job runs: another job registering its handle, or a handle
/// being taken out (by that job's end or by a cancellation).
pub enum RegistryChange<C> {
    Register(Seq<char>, C),
    Take(Seq<char>),
}

/// Whether `change` registers a handle under `id`.
pub open spec fn registers_under<C>(change: RegistryChange<C>, id: Seq<char>) -> bool {
    match change {
        RegistryChange::Register(k, _) => k == id,
        RegistryChange::Take(_) => false,
    }
}

/// The registry `m` after `changes`, in order.
pub open spec fn apply_changes<C>(m: Map<Seq<char>, C>, changes: Seq<RegistryChange<C>>) -> Map<
    Seq<char>,
    C,
>
    decreases changes.len(),
{
    if changes.len() == 0 {
        m
    } else {
        let before = apply_changes(m, changes.drop_last());
        match changes.last() {
            RegistryChange::Register(k, c) => register_spec(before, k, c).0,
            RegistryChange::Take(k) => take_spec(before, k).0,
        }
    }
}

proof fn lemma_changes_keep_handle<C>(
    m: Map<Seq<char>, C>,
    id: Seq<char>,
    child: C,
    changes: Seq<RegistryChange<C>>,
)
    requires
        m.dom().contains(id),
        m[id] == child,
        forall|i: int| 0 <= i < changes.len() ==> !registers_under(#[trigger] changes[i], id),
    ensures
        apply_changes(m, changes).dom().contains(id) <==> !(exists|i: int|
            0 <= i < changes.len() && #[trigger] changes[i] == RegistryChange::<C>::Take(id)),
        apply_changes(m, changes).dom().contains(id) ==> apply_changes(m, changes)[id] == child,
    decreases changes.len(),
{
    if changes.len() > 0 {
        let p = changes.drop_last();
        let last = changes[changes.len() - 1];
        assert forall|i: int| 0 <= i < p.len() implies !registers_under(#[trigger] p[i], id) by {
            assert(p[i] == changes[i]);
        }
        lemma_changes_keep_handle(m, id, child, p);
        if exists|i: int| 0 <= i < p.len() && #[trigger] p[i] == RegistryChange::<C>::Take(id) {
            let i = choose|i: int|
                0 <= i < p.len() && #[trigger] p[i] == RegistryChange::<C>::Take(id);
            assert(changes[i] == p[i]);
        }
        if exists|i: int|
            0 <= i < changes.len() && #[trigger] changes[i] == RegistryChange::<C>::Take(id) {
            let i = choose|i: int|
                0 <= i < changes.len() && #[trigger] changes[i] == RegistryChange::<C>::Take(id);
            if i < p.len() {
                assert(p[i] == changes[i]);
            }
        }
        assert(!registers_under(last, id));
        assert(changes.last() == last);
    }
}

/// Taking a job's handle out twice finds nothing the second time and
/// changes nothing: a second cancellation of a job is harmless.
pub proof fn lemma_take_twice<C>(m: Map<Seq<char>, C>, id: Seq<char>)
    ensures
        take_spec(take_spec(m, id).0, id) == (take_spec(m, id).0, None::<C>),
{
    assert(m.remove(id).remove(id) =~= m.remove(id));
}

/// The handle just registered under an id is the one taken out under it.
pub proof fn lemma_take_after_register<C>(m: Map<Seq<char>, C>, id: Seq<char>, child: C)
    ensures
        take_spec(register_spec(m, id, child).0, id) == (m.remove(id), Some(child)),
{
    assert(m.insert(id, child).remove(id) =~= m.remove(id));
}

/// A job registered under `id` finds its handle gone when its process ends
/// exactly when a cancellation took it out meanwhile, and otherwise finds
/// the handle it registered; what other jobs register or take under their
/// own ids changes nothing for it.
pub proof fn lemma_end_check_sees_cancel<C>(
    m: Map<Seq<char>, C>,
    id: Seq<char>,
    child: C,
    changes: Seq<RegistryChange<C>>,
)
    requires
        forall|i: int| 0 <= i < changes.len() ==> !registers_under(#[trigger] changes[i], id),
    ensures
        ({
            let found = take_spec(apply_changes(register_spec(m, id, child).0, changes), id).1;
            &&& found is None <==> exists|i: int|
                0 <= i < changes.len() && #[trigger] changes[i] == RegistryChange::<C>::Take(id)
            &&& found is Some ==> found == Some(child)
        }),
{
    lemma_changes_keep_handle(m.insert(id, child), id, child, changes);
}

} // verus!
