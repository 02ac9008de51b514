//! Minimal leveled logger for the UEFI console. Each line carries a wall-clock
//! timestamp and a log level. A line is a list of console operations, so that
//! the color changes wrap only the level label.

use vstd::prelude::*;

use crate::status::Status;
use crate::status::status_name;
use crate::text::decimal;
use crate::text::is_numeral;
use crate::text::law_padded_reads_back;
use crate::text::numeral_value;
use crate::text::padded;
use crate::text::push_padded;

verus! {

/// The console colors in use.
#[derive(Clone, Copy, PartialEq, Eq, Structural, Debug)]
pub enum Color {
    Black,
    Red,
    LightGray,
    DarkGray,
    LightGreen,
    LightRed,
    Yellow,
}

/// LightGray on Black is the conventional UEFI text-console default (there is
/// no API to read the current color back, so lines start and end with this).
pub const DEFAULT_FG: Color = Color::LightGray;

/// See [`DEFAULT_FG`].
pub const DEFAULT_BG: Color = Color::Black;

/// Severity of a log line, most severe first.
#[derive(Clone, Copy, Eq, Ord, Debug)]
pub enum Level {
    Fatal,
    Error,
    Warn,
    Info,
    Debug,
}

/// Global log level, `Debug` by default.
pub const LEVEL: Level = Level::Debug;

impl Level {
    /// Position of the level in the order of severity.
    pub open spec fn rank(self) -> int {
        match self {
            Level::Fatal => 0,
            Level::Error => 1,
            Level::Warn => 2,
            Level::Info => 3,
            Level::Debug => 4,
        }
    }

    /// The three-letter label of the level.
    pub open spec fn label_text(self) -> Seq<char> {
        match self {
            Level::Fatal => "FTL"@,
            Level::Error => "ERR"@,
            Level::Warn => "WRN"@,
            Level::Info => "INF"@,
            Level::Debug => "DBG"@,
        }
    }

    /// The color of the label.
    pub open spec fn label_color(self) -> Color {
        match self {
            Level::Fatal => Color::Red,
            Level::Error => Color::LightRed,
            Level::Warn => Color::Yellow,
            Level::Info => Color::LightGreen,
            Level::Debug => Color::DarkGray,
        }
    }

    fn severity(self) -> (n: u8)
        ensures
            n == self.rank(),
    {
        match self {
            Level::Fatal => 0,
            Level::Error => 1,
            Level::Warn => 2,
            Level::Info => 3,
            Level::Debug => 4,
        }
    }

    /// The three-letter label of the level.
    pub fn label(self) -> (text: &'static str)
        ensures
            text@ == self.label_text(),
    {
        match self {
            Level::Fatal => "FTL",
            Level::Error => "ERR",
            Level::Warn => "WRN",
            Level::Info => "INF",
            Level::Debug => "DBG",
        }
    }

    /// The color of the label.
    pub fn color(self) -> (color: Color)
        ensures
            color == self.label_color(),
    {
        match self {
            Level::Fatal => Color::Red,
            Level::Error => Color::LightRed,
            Level::Warn => Color::Yellow,
            Level::Info => Color::LightGreen,
            Level::Debug => Color::DarkGray,
        }
    }
}

impl PartialEq for Level {
    fn eq(&self, other: &Self) -> (r: bool) {
        self.severity() == other.severity()
    }
}

impl vstd::std_specs::cmp::PartialEqSpecImpl for Level {
    open spec fn obeys_eq_spec() -> bool {
        true
    }

    open spec fn eq_spec(&self, other: &Self) -> bool {
        self.rank() == other.rank()
    }
}

impl PartialOrd for Level {
    fn partial_cmp(&self, other: &Self) -> (r: Option<core::cmp::Ordering>) {
        let (a, b): (u8, u8) = (self.severity(), other.severity());
        if a < b {
            Some(core::cmp::Ordering::Less)
        } else if a == b {
            Some(core::cmp::Ordering::Equal)
        } else {
            Some(core::cmp::Ordering::Greater)
        }
    }
}

impl vstd::std_specs::cmp::PartialOrdSpecImpl for Level {
    open spec fn obeys_partial_cmp_spec() -> bool {
        true
    }

    open spec fn partial_cmp_spec(&self, other: &Self) -> Option<core::cmp::Ordering> {
        if self.rank() < other.rank() {
            Some(core::cmp::Ordering::Less)
        } else if self.rank() == other.rank() {
            Some(core::cmp::Ordering::Equal)
        } else {
            Some(core::cmp::Ordering::Greater)
        }
    }
}

/// Whether lines of `level` are printed.
pub open spec fn level_enabled(level: Level) -> bool {
    level.rank() <= LEVEL.rank()
}

/// Check if the given log level is enabled.
pub fn enabled(level: Level) -> (r: bool)
    ensures
        r == level_enabled(level),
{
    level <= LEVEL
}

/// A wall-clock time as the platform's real-time clock reports it.
#[derive(Clone, Copy, PartialEq, Eq, Structural, Debug)]
pub struct Time {
    pub year: u16,
    pub month: u8,
    pub day: u8,
    pub hour: u8,
    pub minute: u8,
    pub second: u8,
    /// Minutes east of UTC, `None` for local time with unknown offset.
    pub time_zone: Option<i16>,
}

/// Absolute value of an offset.
pub open spec fn magnitude(minutes: i16) -> nat {
    if minutes < 0 {
        (-(minutes as int)) as nat
    } else {
        minutes as nat
    }
}

/// RFC 3339 numeric offset: `-00:00` for an unknown local offset, `Z` for UTC.
pub open spec fn offset_text(time_zone: Option<i16>) -> Seq<char> {
    match time_zone {
        None => "-00:00"@,
        Some(minutes) => if minutes == 0 {
            "Z"@
        } else {
            (if minutes < 0 {
                "-"@
            } else {
                "+"@
            }) + padded(magnitude(minutes) / 60, 2) + ":"@ + padded(magnitude(minutes) % 60, 2)
        },
    }
}

/// RFC 3339 date and time, or dashes for a clock that cannot be read.
pub open spec fn timestamp_text(time: Option<Time>) -> Seq<char> {
    match time {
        None => "----------T--:--:--Z"@,
        Some(t) => padded(t.year as nat, 4) + "-"@ + padded(t.month as nat, 2) + "-"@ + padded(
            t.day as nat,
            2,
        ) + "T"@ + padded(t.hour as nat, 2) + ":"@ + padded(t.minute as nat, 2) + ":"@ + padded(
            t.second as nat,
            2,
        ) + offset_text(t.time_zone),
    }
}

/// RFC 3339 numeric offset for an optional UEFI timezone (minutes east of UTC).
/// `None`, the EFI "unspecified timezone", i.e. local time with unknown offset,
/// renders as `-00:00` per RFC 3339's unknown-local-offset convention. A zero
/// offset renders as `Z`.
pub fn rfc3339_offset(time_zone: Option<i16>) -> (out: String)
    ensures
        out@ == offset_text(time_zone),
{
    let mut out = String::new();
    match time_zone {
        None => {
            out.append("-00:00");
        },
        Some(minutes) => {
            if minutes == 0 {
                out.append("Z");
            } else {
                let wide: i32 = minutes as i32;
                let min: u32 = if wide < 0 {
                    out.append("-");
                    (-wide) as u32
                } else {
                    out.append("+");
                    wide as u32
                };
                push_padded(&mut out, min / 60, 2);
                out.append(":");
                push_padded(&mut out, min % 60, 2);
            }
        },
    }
    assert(out@ =~= offset_text(time_zone));
    out
}

/// RFC 3339 timestamp of a log line.
pub fn timestamp(time: Option<Time>) -> (out: String)
    ensures
        out@ == timestamp_text(time),
{
    let mut out = String::new();
    match time {
        None => {
            out.append("----------T--:--:--Z");
        },
        Some(t) => {
            push_padded(&mut out, t.year as u32, 4);
            out.append("-");
            push_padded(&mut out, t.month as u32, 2);
            out.append("-");
            push_padded(&mut out, t.day as u32, 2);
            out.append("T");
            push_padded(&mut out, t.hour as u32, 2);
            out.append(":");
            push_padded(&mut out, t.minute as u32, 2);
            out.append(":");
            push_padded(&mut out, t.second as u32, 2);
            let offset: String = rfc3339_offset(t.time_zone);
            out.append(offset.as_str());
        },
    }
    assert(out@ =~= timestamp_text(time));
    out
}

/// One step of writing a line to the console.
#[derive(Debug)]
pub enum ConsoleOp {
    SetColor { fg: Color, bg: Color },
    Print(String),
}

/// [`ConsoleOp`] with its text as a sequence of characters.
pub enum ConsoleOpView {
    SetColor { fg: Color, bg: Color },
    Print(Seq<char>),
}

impl View for ConsoleOp {
    type V = ConsoleOpView;

    open spec fn view(&self) -> ConsoleOpView {
        match *self {
            ConsoleOp::SetColor { fg, bg } => ConsoleOpView::SetColor { fg, bg },
            ConsoleOp::Print(text) => ConsoleOpView::Print(text@),
        }
    }
}

/// The console operations of a list, in order.
pub open spec fn ops_view(ops: Seq<ConsoleOp>) -> Seq<ConsoleOpView> {
    ops.map_values(|op: ConsoleOp| op@)
}

/// How a line is written: timestamp in the default color, label in the color of
/// its level, message in the default color.
pub open spec fn line_ops(
    level: Level,
    time: Option<Time>,
    message: Seq<char>,
    newline: bool,
) -> Seq<ConsoleOpView> {
    seq![
        ConsoleOpView::SetColor { fg: DEFAULT_FG, bg: DEFAULT_BG },
        ConsoleOpView::Print(timestamp_text(time) + " ["@),
        ConsoleOpView::SetColor { fg: level.label_color(), bg: DEFAULT_BG },
        ConsoleOpView::Print(level.label_text()),
        ConsoleOpView::SetColor { fg: DEFAULT_FG, bg: DEFAULT_BG },
        ConsoleOpView::Print(
            "] "@ + message + (if newline {
                "\n"@
            } else {
                Seq::empty()
            }),
        ),
    ]
}

fn line(level: Level, time: Option<Time>, message: &str, newline: bool) -> (ops: Vec<ConsoleOp>)
    ensures
        ops_view(ops@) == line_ops(level, time, message@, newline),
{
    let mut head: String = timestamp(time);
    head.append(" [");
    let mut label = String::new();
    label.append(level.label());
    let mut body = String::new();
    body.append("] ");
    body.append(message);
    if newline {
        body.append("\n");
    }
    let mut ops: Vec<ConsoleOp> = Vec::new();
    ops.push(ConsoleOp::SetColor { fg: DEFAULT_FG, bg: DEFAULT_BG });
    ops.push(ConsoleOp::Print(head));
    ops.push(ConsoleOp::SetColor { fg: level.color(), bg: DEFAULT_BG });
    ops.push(ConsoleOp::Print(label));
    ops.push(ConsoleOp::SetColor { fg: DEFAULT_FG, bg: DEFAULT_BG });
    ops.push(ConsoleOp::Print(body));
    assert(label@ =~= level.label_text());
    assert(body@ =~= "] "@ + message@ + (if newline {
        "\n"@
    } else {
        Seq::empty()
    }));
    assert(ops_view(ops@) =~= line_ops(level, time, message@, newline));
    ops
}

/// Format one log line with an RFC 3339 timestamp and a color-coded level.
/// Nothing is written for a level more verbose than [`LEVEL`].
pub fn emit(level: Level, time: Option<Time>, message: &str) -> (ops: Vec<ConsoleOp>)
    ensures
        ops_view(ops@) == (if level_enabled(level) {
            line_ops(level, time, message@, true)
        } else {
            Seq::empty()
        }),
{
    if !enabled(level) {
        let ops: Vec<ConsoleOp> = Vec::new();
        assert(ops_view(ops@) =~= Seq::empty());
        return ops;
    }
    line(level, time, message, true)
}

/// Format an info-level header and message with no trailing newline, so the
/// caller can read input on the same line (used for the PIN prompt).
pub fn prompt(time: Option<Time>, message: &str) -> (ops: Vec<ConsoleOp>)
    ensures
        ops_view(ops@) == line_ops(Level::Info, time, message@, false),
{
    line(Level::Info, time, message, false)
}

/// A message to be logged at some level.
#[derive(Debug)]
pub struct Record {
    pub level: Level,
    pub message: String,
}

/// [`Record`] with its message as a sequence of characters.
pub struct RecordView {
    pub level: Level,
    pub message: Seq<char>,
}

impl View for Record {
    type V = RecordView;

    open spec fn view(&self) -> RecordView {
        RecordView { level: self.level, message: self.message@ }
    }
}

/// The messages of a list, in order.
pub open spec fn records_view(records: Seq<Record>) -> Seq<RecordView> {
    records.map_values(|r: Record| r@)
}

/// A message at the given level.
pub fn record(level: Level, message: &str) -> (r: Record)
    ensures
        r@ == (RecordView { level, message: message@ }),
{
    let mut text = String::new();
    text.append(message);
    assert(text@ =~= message@);
    Record { level, message: text }
}

/// A fatal error: a UEFI status plus an operator-facing message.
#[derive(Debug)]
pub struct Fatal {
    pub status: Status,
    pub message: String,
}

/// [`Fatal`] with its message as a sequence of characters.
pub struct FatalView {
    pub status: Status,
    pub message: Seq<char>,
}

impl View for Fatal {
    type V = FatalView;

    open spec fn view(&self) -> FatalView {
        FatalView { status: self.status, message: self.message@ }
    }
}

/// The fatal error that an incidental failure with `status` turns into.
pub open spec fn unexpected(status: Status) -> FatalView {
    FatalView { status, message: "unexpected error: "@ + status.name_text() }
}

/// What reporting a fatal error does: write the lines, wait for a key so that
/// they stay on screen, then reboot with the status.
#[derive(Debug)]
pub struct Report {
    pub ops: Vec<ConsoleOp>,
    pub reset_status: Status,
}

impl Fatal {
    pub fn new(status: Status, message: String) -> (f: Fatal)
        ensures
            f@ == (FatalView { status, message: message@ }),
    {
        Fatal { status, message }
    }

    /// The message at fatal level, and the status of the warm reboot that
    /// follows the keypress pause.
    pub fn report(self, time: Option<Time>) -> (r: Report)
        ensures
            ops_view(r.ops@) == line_ops(Level::Fatal, time, self@.message, true),
            r.reset_status == self@.status,
            r.reset_status == self.status,
    {
        let ops: Vec<ConsoleOp> = emit(Level::Fatal, time, self.message.as_str());
        Report { ops, reset_status: self.status }
    }
}

impl From<Status> for Fatal {
    fn from(status: Status) -> (f: Fatal)
        ensures
            f@ == unexpected(status),
    {
        let mut message = String::new();
        message.append("unexpected error: ");
        let name: String = status.name();
        message.append(name.as_str());
        assert(message@ =~= "unexpected error: "@ + status.name_text());
        Fatal { status, message }
    }
}

impl vstd::std_specs::convert::FromSpecImpl<Status> for Fatal {
    open spec fn obeys_from_spec() -> bool {
        false
    }

    open spec fn from_spec(status: Status) -> Fatal {
        arbitrary()
    }
}

/// An offset reads back: a sign, hours, a colon and two digits of minutes below 60,
/// which together are the minutes east of UTC. Only UTC itself is `Z`, and only an
/// unknown offset is `-00:00`.
pub proof fn law_offset_reads_back(minutes: i16)
    ensures
        offset_text(None) == "-00:00"@,
        minutes == 0 ==> offset_text(Some(minutes)) == "Z"@,
        minutes != 0 ==> ({
            let text = offset_text(Some(minutes));
            let n = text.len() as int;
            let hours = numeral_value(text.subrange(1, n - 3));
            let rest = numeral_value(text.subrange(n - 2, n));
            &&& n >= 6
            &&& text[0] == (if minutes < 0 {
                '-'
            } else {
                '+'
            })
            &&& is_numeral(text.subrange(1, n - 3))
            &&& text[n - 3] == ':'
            &&& is_numeral(text.subrange(n - 2, n))
            &&& n > 6 ==> text[1] != '0'
            &&& 0 <= rest < 60
            &&& minutes == (if minutes < 0 {
                -(60 * hours + rest)
            } else {
                60 * hours + rest
            })
        }),
{
    reveal_strlit("-");
    reveal_strlit("+");
    reveal_strlit(":");
    if minutes != 0 {
        let h = magnitude(minutes) / 60;
        let m = magnitude(minutes) % 60;
        let text = offset_text(Some(minutes));
        let n = text.len() as int;
        law_padded_reads_back(h, 2);
        law_padded_reads_back(m, 2);
        lemma_two_digits(m);
        assert(text.subrange(1, n - 3) =~= padded(h, 2));
        assert(text.subrange(n - 2, n) =~= padded(m, 2));
    }
}

proof fn lemma_two_digits(n: nat)
    requires
        n < 100,
    ensures
        padded(n, 2).len() == 2,
{
    reveal_with_fuel(decimal, 3);
}

/// A timestamp reads back: year, month, day, hour, minute and second are numerals of at
/// least their usual width with their separators between them, and the offset ends it.
pub proof fn law_timestamp_reads_back(t: Time)
    ensures
        timestamp_text(None) == "----------T--:--:--Z"@,
        ({
            let text = timestamp_text(Some(t));
            let a = padded(t.year as nat, 4).len() as int;
            let b = a + 1 + padded(t.month as nat, 2).len();
            let c = b + 1 + padded(t.day as nat, 2).len();
            let d = c + 1 + padded(t.hour as nat, 2).len();
            let e = d + 1 + padded(t.minute as nat, 2).len();
            let f = e + 1 + padded(t.second as nat, 2).len();
            &&& text.subrange(0, a) == padded(t.year as nat, 4)
            &&& text[a] == '-'
            &&& text.subrange(a + 1, b) == padded(t.month as nat, 2)
            &&& text[b] == '-'
            &&& text.subrange(b + 1, c) == padded(t.day as nat, 2)
            &&& text[c] == 'T'
            &&& text.subrange(c + 1, d) == padded(t.hour as nat, 2)
            &&& text[d] == ':'
            &&& text.subrange(d + 1, e) == padded(t.minute as nat, 2)
            &&& text[e] == ':'
            &&& text.subrange(e + 1, f) == padded(t.second as nat, 2)
            &&& text.skip(f) == offset_text(t.time_zone)
        }),
{
    reveal_strlit("-");
    reveal_strlit("T");
    reveal_strlit(":");
    let text = timestamp_text(Some(t));
    let a = padded(t.year as nat, 4).len() as int;
    let b = a + 1 + padded(t.month as nat, 2).len();
    let c = b + 1 + padded(t.day as nat, 2).len();
    let d = c + 1 + padded(t.hour as nat, 2).len();
    let e = d + 1 + padded(t.minute as nat, 2).len();
    let f = e + 1 + padded(t.second as nat, 2).len();
    assert(text.subrange(0, a) =~= padded(t.year as nat, 4));
    assert(text.subrange(a + 1, b) =~= padded(t.month as nat, 2));
    assert(text.subrange(b + 1, c) =~= padded(t.day as nat, 2));
    assert(text.subrange(c + 1, d) =~= padded(t.hour as nat, 2));
    assert(text.subrange(d + 1, e) =~= padded(t.minute as nat, 2));
    assert(text.subrange(e + 1, f) =~= padded(t.second as nat, 2));
    assert(text.skip(f) =~= offset_text(t.time_zone));
}

/// A line holds the timestamp, the label and the whole message, whatever its length:
/// only the label is in the color of its level, and only a newline may follow.
pub proof fn law_line_holds_the_whole_message(
    level: Level,
    time: Option<Time>,
    message: Seq<char>,
    newline: bool,
)
    ensures
        ({
            let ops = line_ops(level, time, message, newline);
            let normal = ConsoleOpView::SetColor { fg: Color::LightGray, bg: Color::Black };
            let n = timestamp_text(time).len() as int;
            let m = message.len() as int;
            &&& ops.len() == 6
            &&& ops[0] == normal
            &&& ops[1] matches ConsoleOpView::Print(head) && head.len() == n + 2 && head.take(n)
                == timestamp_text(time) && head.skip(n) == " ["@
            &&& ops[2] == (ConsoleOpView::SetColor {
                fg: level.label_color(),
                bg: Color::Black,
            })
            &&& ops[3] == ConsoleOpView::Print(level.label_text())
            &&& ops[4] == normal
            &&& ops[5] matches ConsoleOpView::Print(body) && body.take(2) == "] "@
                && body.subrange(2, 2 + m) == message && body.skip(2 + m) == (if newline {
                "\n"@
            } else {
                Seq::empty()
            })
        }),
{
    reveal_strlit(" [");
    reveal_strlit("] ");
    let ops = line_ops(level, time, message, newline);
    let n = timestamp_text(time).len() as int;
    let m = message.len() as int;
    let head = ops[1]->Print_0;
    let body = ops[5]->Print_0;
    assert(head.take(n) =~= timestamp_text(time));
    assert(head.skip(n) =~= " ["@);
    assert(body.take(2) =~= "] "@);
    assert(body.subrange(2, 2 + m) =~= message);
    assert(body.skip(2 + m) =~= (if newline {
        "\n"@
    } else {
        Seq::empty()
    }));
}

/// Every level is printed: none is more verbose than the default. The labels and the
/// colors tell the levels apart.
pub proof fn law_levels_are_distinct(a: Level, b: Level)
    ensures
        level_enabled(a),
        a.rank() == b.rank() ==> a == b,
        a.label_color() == b.label_color() ==> a == b,
{
}

/// An incidental failure keeps its status, and its message ends in the name of exactly
/// that status.
pub proof fn law_unexpected_keeps_the_status(code: u64)
    ensures
        unexpected(Status(code)).status == Status(code),
        unexpected(Status(code)).message == "unexpected error: "@ + status_name(code, usize::BITS),
{
}

/// A message, a fatal error and a console operation are seen as they are.
pub proof fn law_log_views_keep_everything(line: Record, fatal: Fatal, op: ConsoleOp)
    ensures
        line@.level == line.level,
        line@.message == line.message@,
        fatal@.status == fatal.status,
        fatal@.message == fatal.message@,
        op matches ConsoleOp::Print(text) ==> op@ == ConsoleOpView::Print(text@),
        op matches ConsoleOp::SetColor { fg, bg } ==> op@ == (ConsoleOpView::SetColor { fg, bg }),
{
}

/// Lists of messages and of console operations are seen element by element.
pub proof fn law_log_lists_keep_everything(lines: Seq<Record>, ops: Seq<ConsoleOp>)
    ensures
        records_view(lines).len() == lines.len(),
        forall|i: int| 0 <= i < lines.len() ==> #[trigger] records_view(lines)[i] == lines[i]@,
        ops_view(ops).len() == ops.len(),
        forall|i: int| 0 <= i < ops.len() ==> #[trigger] ops_view(ops)[i] == ops[i]@,
{
}

} // verus!
