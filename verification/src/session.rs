//! The computing core of the interactive session: command and output
//! shapes, terminal-artefact scrubbing, echo/prompt stripping, and the
//! line-pump decisions that drive a command exchange.

use vstd::prelude::*;
use crate::device::DeviceHandler;
use crate::strutil::{is_space, is_space_char, starts_with_seq, str_starts_with, trim_end};

verus! {

/// Configuration for one command to execute on a device.
#[derive(Debug, Clone, PartialEq, Eq)]
pub struct Command {
    /// Device mode the command must run in.
    pub mode: String,
    /// The command text.
    pub command: String,
    /// Per-command timeout in seconds; the executor's default applies when
    /// absent.
    pub timeout: Option<u64>,
}

impl Default for Command {
    /// An empty command with no timeout.
    fn default() -> (r: Command)
        ensures
            r.mode@.len() == 0,
            r.command@.len() == 0,
            r.timeout is None,
    {
        Command { mode: String::new(), command: String::new(), timeout: None }
    }
}

/// The outcome of one command execution.
#[derive(Debug, Clone, PartialEq, Eq)]
pub struct Output {
    /// False when the device emitted an error-pattern line.
    pub success: bool,
    /// The cleaned output: echo and trailing prompt removed.
    pub content: String,
    /// The raw captured output.
    pub all: String,
    /// Prompt captured by the state machine after execution.
    pub prompt: Option<String>,
}

/// Length of the leading terminal-artefact run: a carriage-return run
/// optionally continued by whitespace runs each ending in a carriage
/// return, or the same shape with backspaces.
pub open spec fn artifact_prefix_len(s: Seq<char>) -> int {
    if s.len() > 0 && s[0] == '\r' {
        last_marker_within(s, ws_prefix_len(s), '\r')
    } else if s.len() > 0 && s[0] == '\u{8}' {
        last_marker_within(s, bs_prefix_len(s), '\u{8}')
    } else {
        0
    }
}

/// Length of the longest whitespace prefix.
pub open spec fn ws_prefix_len(s: Seq<char>) -> int
    decreases s.len(),
{
    if s.len() > 0 && is_space_char(s[0]) {
        1 + ws_prefix_len(s.skip(1))
    } else {
        0
    }
}

/// Length of the longest prefix of whitespace or backspace characters.
pub open spec fn bs_prefix_len(s: Seq<char>) -> int
    decreases s.len(),
{
    if s.len() > 0 && (is_space_char(s[0]) || s[0] == '\u{8}') {
        1 + bs_prefix_len(s.skip(1))
    } else {
        0
    }
}

/// The largest `j <= w` with `s[j - 1] == m`, or 0 when none exists.
pub open spec fn last_marker_within(s: Seq<char>, w: int, m: char) -> int
    decreases w,
{
    if w <= 0 || w > s.len() {
        0
    } else if s[w - 1] == m {
        w
    } else {
        last_marker_within(s, w - 1, m)
    }
}

/// Removes the leading terminal-artefact run (cursor returns and
/// backspaces interleaved with whitespace) from a line.
pub fn strip_line_artifacts(s: &str) -> (r: String)
    ensures
        r@ == s@.skip(artifact_prefix_len(s@)),
        0 <= artifact_prefix_len(s@) <= s@.len(),
{
    let n = s.unicode_len();
    let cut: usize;
    if n > 0 && s.get_char(0) == '\r' {
        let mut w: usize = 0;
        while w < n && is_space(s.get_char(w))
            invariant
                w <= n,
                n == s@.len(),
                forall|k: int| 0 <= k < w ==> is_space_char(s@[k]),
            decreases n - w,
        {
            w += 1;
        }
        proof {
            lemma_ws_prefix(s@, w as int);
        }
        let mut j: usize = w;
        while j > 0 && s.get_char(j - 1) != '\r'
            invariant
                j <= w <= n,
                n == s@.len(),
                last_marker_within(s@, j as int, '\r') == last_marker_within(s@, w as int, '\r'),
            decreases j,
        {
            j -= 1;
        }
        cut = j;
        proof {
            assert(last_marker_within(s@, cut as int, '\r') == cut as int);
        }
    } else if n > 0 && s.get_char(0) == '\u{8}' {
        let mut w: usize = 0;
        while w < n && (is_space(s.get_char(w)) || s.get_char(w) == '\u{8}')
            invariant
                w <= n,
                n == s@.len(),
                forall|k: int| 0 <= k < w ==> is_space_char(s@[k]) || s@[k] == '\u{8}',
            decreases n - w,
        {
            w += 1;
        }
        proof {
            lemma_bs_prefix(s@, w as int);
        }
        let mut j: usize = w;
        while j > 0 && s.get_char(j - 1) != '\u{8}'
            invariant
                j <= w <= n,
                n == s@.len(),
                last_marker_within(s@, j as int, '\u{8}') == last_marker_within(
                    s@,
                    w as int,
                    '\u{8}',
                ),
            decreases j,
        {
            j -= 1;
        }
        cut = j;
        proof {
            assert(last_marker_within(s@, cut as int, '\u{8}') == cut as int);
        }
    } else {
        cut = 0;
    }
    let r = s.substring_char(cut, n);
    proof {
        assert(r@ =~= s@.skip(artifact_prefix_len(s@)));
    }
    r.to_owned()
}

proof fn lemma_ws_prefix(s: Seq<char>, w: int)
    requires
        0 <= w <= s.len(),
        forall|k: int| 0 <= k < w ==> is_space_char(s[k]),
        w == s.len() || !is_space_char(s[w]),
    ensures
        ws_prefix_len(s) == w,
    decreases w,
{
    if w > 0 {
        lemma_ws_prefix(s.skip(1), w - 1);
    } else {
        if s.len() > 0 && is_space_char(s[0]) {
            assert(false);
        }
    }
}

proof fn lemma_bs_prefix(s: Seq<char>, w: int)
    requires
        0 <= w <= s.len(),
        forall|k: int| 0 <= k < w ==> is_space_char(s[k]) || s[k] == '\u{8}',
        w == s.len() || !(is_space_char(s[w]) || s[w] == '\u{8}'),
    ensures
        bs_prefix_len(s) == w,
    decreases w,
{
    if w > 0 {
        lemma_bs_prefix(s.skip(1), w - 1);
    } else {
        if s.len() > 0 && (is_space_char(s[0]) || s[0] == '\u{8}') {
            assert(false);
        }
    }
}

/// Leading newline and carriage-return characters removed.
pub open spec fn trim_nl_start(s: Seq<char>) -> Seq<char>
    decreases s.len(),
{
    if s.len() > 0 && (s[0] == '\n' || s[0] == '\r') {
        trim_nl_start(s.skip(1))
    } else {
        s
    }
}

/// The cleaned content of a raw capture: a leading echo of the command is
/// removed together with following line breaks, and everything from the
/// last line break on (the trailing prompt) is dropped.
pub open spec fn clean_content(command: Seq<char>, raw: Seq<char>) -> Seq<char> {
    let after_echo = if command.len() > 0 && starts_with_seq(raw, command) {
        trim_nl_start(raw.skip(command.len() as int))
    } else {
        raw
    };
    cut_after_last_newline(after_echo)
}

/// Everything before the last newline, or nothing when there is none.
pub open spec fn cut_after_last_newline(s: Seq<char>) -> Seq<char>
    decreases s.len(),
{
    if s.len() == 0 {
        Seq::empty()
    } else if s.last() == '\n' {
        s.drop_last()
    } else {
        cut_after_last_newline(s.drop_last())
    }
}

/// Cleans a raw capture into the command's content.
pub fn clean_output_content(command: &str, raw: &str) -> (r: String)
    ensures
        r@ == clean_content(command@, raw@),
{
    let stripped: String;
    if command.unicode_len() > 0 && str_starts_with(raw, command) {
        let rest = raw.substring_char(command.unicode_len(), raw.unicode_len());
        proof {
            assert(rest@ =~= raw@.skip(command@.len() as int));
        }
        let mut k: usize = 0;
        let n = rest.unicode_len();
        proof {
            assert(rest@.skip(0) =~= rest@);
        }
        while k < n && (rest.get_char(k) == '\n' || rest.get_char(k) == '\r')
            invariant
                k <= n,
                n == rest@.len(),
                trim_nl_start(rest@) == trim_nl_start(rest@.skip(k as int)),
            decreases n - k,
        {
            proof {
                assert(rest@.skip(k as int)[0] == rest@[k as int]);
                assert(rest@.skip(k as int).skip(1) =~= rest@.skip(k + 1));
            }
            k += 1;
        }
        proof {
            if (k as int) < rest@.len() {
                assert(trim_nl_start(rest@.skip(k as int)) == rest@.skip(k as int));
            } else {
                assert(rest@.skip(k as int).len() == 0);
            }
        }
        let cutd = rest.substring_char(k, n);
        proof {
            assert(cutd@ =~= rest@.skip(k as int));
        }
        stripped = cutd.to_owned();
    } else {
        stripped = raw.to_owned();
    }
    // drop everything from the last newline on
    let n = stripped.unicode_len();
    let mut j: usize = n;
    proof {
        assert(stripped@.take(n as int) =~= stripped@);
    }
    while j > 0 && stripped.get_char(j - 1) != '\n'
        invariant
            j <= n,
            n == stripped@.len(),
            cut_after_last_newline(stripped@) == cut_after_last_newline(
                stripped@.take(j as int),
            ),
        decreases j,
    {
        proof {
            assert(stripped@.take(j as int).drop_last() =~= stripped@.take(j - 1));
            assert(stripped@.take(j as int).last() == stripped@[j - 1]);
        }
        j -= 1;
    }
    if j == 0 {
        proof {
            assert(stripped@.take(0).len() == 0);
        }
        String::new()
    } else {
        proof {
            assert(stripped@.take(j as int).last() == stripped@[j - 1]);
            assert(cut_after_last_newline(stripped@) == stripped@.take(j - 1));
        }
        let out = stripped.substring_char(0, j - 1);
        proof {
            assert(out@ =~= stripped@.take(j - 1));
        }
        out.to_owned()
    }
}

/// The residual tail of a byte stream: what follows the last newline.
pub open spec fn residual_tail(s: Seq<char>) -> Seq<char>
    decreases s.len(),
{
    if s.len() == 0 {
        Seq::empty()
    } else if s.last() == '\n' {
        Seq::empty()
    } else {
        residual_tail(s.drop_last()).push(s.last())
    }
}

/// Index of the first newline in `s`, if any.
pub open spec fn first_newline(s: Seq<char>) -> Option<int>
    decreases s.len(),
{
    if s.len() == 0 {
        None
    } else if s[0] == '\n' {
        Some(0)
    } else {
        match first_newline(s.skip(1)) {
            Some(k) => Some(k + 1),
            None => None,
        }
    }
}

/// A line with its leading terminal-artefact run removed.
pub open spec fn scrub_line(l: Seq<char>) -> Seq<char> {
    l.skip(artifact_prefix_len(l))
}

/// The scrubbed text of every complete line of `s`: each
/// newline-terminated line with its artefact run removed, newlines kept;
/// the unterminated tail contributes nothing.
pub open spec fn scrub_complete(s: Seq<char>) -> Seq<char>
    decreases s.len(),
{
    match first_newline(s) {
        Some(k) => {
            if 0 <= k < s.len() {
                scrub_line(s.take(k)) + seq!['\n'] + scrub_complete(s.skip(k + 1))
            } else {
                Seq::empty()
            }
        },
        None => Seq::empty(),
    }
}

/// Whether some complete line of `s`, scrubbed and right-trimmed, reads
/// as an error under handler `h`.
pub open spec fn any_error_line(h: DeviceHandler, s: Seq<char>) -> bool
    decreases s.len(),
{
    match first_newline(s) {
        Some(k) => {
            if 0 <= k < s.len() {
                h.line_sets_error(crate::strutil::trim_end_seq(scrub_line(s.take(k))))
                    || any_error_line(h, s.skip(k + 1))
            } else {
                false
            }
        },
        None => false,
    }
}

pub proof fn lemma_first_newline_some(s: Seq<char>)
    requires
        first_newline(s) is Some,
    ensures
        first_newline(s) matches Some(k) && 0 <= k < s.len() && s[k] == '\n' && (forall|m: int|
            0 <= m < k ==> s[m] != '\n'),
    decreases s.len(),
{
    if s.len() > 0 && s[0] != '\n' {
        assert(first_newline(s.skip(1)) is Some);
        lemma_first_newline_some(s.skip(1));
        let k1 = first_newline(s.skip(1))->0;
        assert(s.skip(1)[k1] == s[k1 + 1]);
        assert forall|m: int| 0 <= m < k1 + 1 implies s[m] != '\n' by {
            if m > 0 {
                assert(s.skip(1)[m - 1] == s[m]);
            }
        }
    }
}

pub proof fn lemma_first_newline_none(s: Seq<char>)
    requires
        first_newline(s) is None,
    ensures
        forall|m: int| 0 <= m < s.len() ==> s[m] != '\n',
    decreases s.len(),
{
    if s.len() > 0 {
        lemma_first_newline_none(s.skip(1));
        assert forall|m: int| 0 <= m < s.len() implies s[m] != '\n' by {
            if m > 0 {
                assert(s.skip(1)[m - 1] == s[m]);
            }
        }
    }
}

pub proof fn lemma_first_newline_at(s: Seq<char>, k: int)
    requires
        0 <= k < s.len(),
        s[k] == '\n',
        forall|m: int| 0 <= m < k ==> s[m] != '\n',
    ensures
        first_newline(s) == Some(k),
    decreases k,
{
    if k > 0 {
        assert(forall|m: int| 0 <= m < k - 1 ==> s.skip(1)[m] == s[m + 1]);
        lemma_first_newline_at(s.skip(1), k - 1);
    }
}

/// One complete line decomposes definitionally.
proof fn lemma_scrub_one_line(l: Seq<char>)
    requires
        forall|m: int| 0 <= m < l.len() ==> l[m] != '\n',
    ensures
        scrub_complete(l.push('\n')) == scrub_line(l) + seq!['\n'],
        forall|h: DeviceHandler| #[trigger] any_error_line(h, l.push('\n')) == h.line_sets_error(
            crate::strutil::trim_end_seq(scrub_line(l)),
        ),
{
    let s = l.push('\n');
    lemma_first_newline_at(s, l.len() as int);
    assert(s.take(l.len() as int) =~= l);
    assert(s.skip(l.len() as int + 1) =~= Seq::<char>::empty());
    assert(scrub_complete(Seq::<char>::empty()) =~= Seq::<char>::empty());
    assert(scrub_complete(s) =~= scrub_line(l) + seq!['\n']);
    assert forall|h: DeviceHandler| #[trigger] any_error_line(h, s) == h.line_sets_error(
        crate::strutil::trim_end_seq(scrub_line(l)),
    ) by {
        assert(!any_error_line(h, Seq::<char>::empty()));
    }
}

/// Complete lines fold over concatenation: when `a` ends at a line
/// boundary, its lines come first and `b`'s after.
proof fn lemma_lines_concat(a: Seq<char>, b: Seq<char>)
    requires
        a.len() == 0 || a.last() == '\n',
    ensures
        scrub_complete(a + b) == scrub_complete(a) + scrub_complete(b),
        forall|h: DeviceHandler| #[trigger] any_error_line(h, a + b) == (any_error_line(h, a)
            || any_error_line(h, b)),
    decreases a.len(),
{
    if a.len() == 0 {
        assert(a + b =~= b);
        assert(scrub_complete(a) =~= Seq::<char>::empty());
        assert(scrub_complete(a) + scrub_complete(b) =~= scrub_complete(b));
        assert(forall|h: DeviceHandler| !(#[trigger] any_error_line(h, a)));
    } else {
        match first_newline(a) {
            None => {
                lemma_first_newline_none(a);
                assert(a.last() != '\n');
                assert(false);
            },
            Some(k) => {
                lemma_first_newline_some(a);
                let s = a + b;
                assert forall|m: int| 0 <= m < k implies s[m] != '\n' by {
                    assert(s[m] == a[m]);
                }
                assert(s[k] == a[k]);
                lemma_first_newline_at(s, k);
                assert(s.take(k) =~= a.take(k));
                assert(s.skip(k + 1) =~= a.skip(k + 1) + b);
                let a2 = a.skip(k + 1);
                assert(a2.len() == 0 || a2.last() == '\n') by {
                    if a2.len() > 0 {
                        assert(a2.last() == a.last());
                    }
                }
                lemma_lines_concat(a2, b);
                assert(scrub_complete(s) =~= scrub_line(a.take(k)) + seq!['\n'] + (scrub_complete(
                    a2,
                ) + scrub_complete(b)));
                assert(scrub_line(a.take(k)) + seq!['\n'] + (scrub_complete(a2) + scrub_complete(
                    b,
                )) =~= (scrub_line(a.take(k)) + seq!['\n'] + scrub_complete(a2)) + scrub_complete(
                    b,
                ));
                assert(scrub_complete(a) =~= scrub_line(a.take(k)) + seq!['\n'] + scrub_complete(
                    a2,
                ));
                let lv = crate::strutil::trim_end_seq(scrub_line(a.take(k)));
                assert forall|h: DeviceHandler| #[trigger] any_error_line(h, a + b) == (
                any_error_line(h, a) || any_error_line(h, b)) by {
                    assert(any_error_line(h, s) == (h.line_sets_error(lv) || any_error_line(
                        h,
                        a2 + b,
                    )));
                    assert(any_error_line(h, a2 + b) == (any_error_line(h, a2) || any_error_line(
                        h,
                        b,
                    )));
                    assert(any_error_line(h, a) == (h.line_sets_error(lv) || any_error_line(
                        h,
                        a2,
                    )));
                }
            },
        }
    }
}

/// The number of non-blank lines of `s`, counting an unterminated final
/// segment.
pub open spec fn nonblank_line_count(s: Seq<char>) -> int
    decreases s.len(),
{
    match first_newline(s) {
        Some(k) => {
            if 0 <= k < s.len() {
                (if !crate::strutil::is_blank_seq(s.take(k)) {
                    1int
                } else {
                    0int
                }) + nonblank_line_count(s.skip(k + 1))
            } else {
                0
            }
        },
        None => if !crate::strutil::is_blank_seq(s) {
            1int
        } else {
            0int
        },
    }
}

/// Non-blank lines count across a concatenation at a line boundary.
pub proof fn lemma_line_count_concat(a: Seq<char>, b: Seq<char>)
    requires
        a.len() == 0 || a.last() == '\n',
    ensures
        nonblank_line_count(a + b) == nonblank_line_count(a) + nonblank_line_count(b),
    decreases a.len(),
{
    if a.len() == 0 {
        assert(a + b =~= b);
        assert(crate::strutil::is_blank_seq(a));
        assert(nonblank_line_count(a) == 0);
    } else {
        match first_newline(a) {
            None => {
                lemma_first_newline_none(a);
                assert(false);
            },
            Some(k) => {
                lemma_first_newline_some(a);
                let s = a + b;
                assert forall|m: int| 0 <= m < k implies s[m] != '\n' by {
                    assert(s[m] == a[m]);
                }
                assert(s[k] == a[k]);
                lemma_first_newline_at(s, k);
                assert(s.take(k) =~= a.take(k));
                assert(s.skip(k + 1) =~= a.skip(k + 1) + b);
                let a2 = a.skip(k + 1);
                assert(a2.len() == 0 || a2.last() == '\n') by {
                    if a2.len() > 0 {
                        assert(a2.last() == a.last());
                    }
                }
                lemma_line_count_concat(a2, b);
            },
        }
    }
}

/// A single newline-terminated line counts by its blankness.
pub proof fn lemma_line_count_one(l: Seq<char>)
    requires
        forall|m: int| 0 <= m < l.len() ==> l[m] != '\n',
    ensures
        nonblank_line_count(l.push('\n')) == (if !crate::strutil::is_blank_seq(l) {
            1int
        } else {
            0int
        }),
{
    let s = l.push('\n');
    lemma_first_newline_at(s, l.len() as int);
    assert(s.take(l.len() as int) =~= l);
    assert(s.skip(l.len() as int + 1) =~= Seq::<char>::empty());
    assert(crate::strutil::is_blank_seq(Seq::<char>::empty()));
    assert(nonblank_line_count(Seq::<char>::empty()) == 0);
}

/// What the pump asks its driver to do after a chunk of data.
#[derive(Debug)]
pub enum PumpStep {
    /// Keep reading.
    Continue,
    /// Send this automatic reply to the channel.
    Reply { text: String },
    /// The prompt arrived: the command is finished.
    Done { success: bool },
}

/// The line pump for one in-flight command: accumulates the byte stream,
/// feeds completed lines to the state machine, and decides when the
/// exchange is over.
pub struct CommandPump {
    /// Data not yet terminated by a newline.
    pub line_buffer: String,
    /// The captured output so far, scrubbed.
    pub output: String,
    /// Whether an error-pattern line was seen.
    pub is_error: bool,
}

impl CommandPump {
    /// A fresh pump with empty buffers.
    pub fn new() -> (r: CommandPump)
        ensures
            r.line_buffer@.len() == 0,
            r.output@.len() == 0,
            r.is_error == false,
    {
        CommandPump { line_buffer: String::new(), output: String::new(), is_error: false }
    }

    /// Feeds one chunk of channel data.  Every completed line is
    /// scrubbed, right-trimmed and read into the state machine; the error
    /// flag records whether any such line read as a device error.  The
    /// unterminated tail then decides the step, exactly: a prompt tail
    /// ends the command (success iff no error line was seen, the tail
    /// joining the output); a tail that triggers an automatic input asks
    /// for that reply, an unrecorded reply clearing the tail from the
    /// buffer; anything else continues.  The captured output grows by
    /// precisely the scrubbed complete lines.
    pub fn feed(&mut self, handler: &mut DeviceHandler, data: &str) -> (r: PumpStep)
        requires
            old(handler).wf(),
        ensures
            final(handler).wf(),
            final(handler).config_m() == old(handler).config_m(),
            ({
                let buf = old(self).line_buffer@ + data@;
                let t = residual_tail(buf);
                &&& final(self).is_error == (old(self).is_error || any_error_line(
                    *old(handler),
                    buf,
                ))
                &&& match r {
                    PumpStep::Done { success } => {
                        &&& t.len() > 0
                        &&& old(handler).is_prompt_index(old(handler).line_state_index(t))
                        &&& success == !final(self).is_error
                        &&& final(self).line_buffer@ == t
                        &&& final(self).output@ == old(self).output@ + scrub_complete(buf) + t
                    },
                    PumpStep::Reply { text } => {
                        &&& t.len() > 0
                        &&& !old(handler).is_prompt_index(old(handler).line_state_index(t))
                        &&& (old(handler).need_write_spec(t) matches Some(p) && p.0 == text@ && (
                        p.1 ==> final(self).line_buffer@ == t) && (!p.1
                            ==> final(self).line_buffer@.len() == 0))
                        &&& final(self).output@ == old(self).output@ + scrub_complete(buf)
                    },
                    PumpStep::Continue => {
                        &&& (t.len() == 0 || (!old(handler).is_prompt_index(
                            old(handler).line_state_index(t),
                        ) && old(handler).need_write_spec(t) is None))
                        &&& final(self).line_buffer@ == t
                        &&& final(self).output@ == old(self).output@ + scrub_complete(buf)
                    },
                }
            }),
    {
        let mut buf = self.line_buffer.clone();
        buf.append(data);
        let ghost bufv = buf@;
        proof {
            assert(bufv == old(self).line_buffer@ + data@);
            assert(residual_tail(bufv.take(0)) =~= bufv.subrange(0, 0));
            assert(bufv.take(0) =~= Seq::<char>::empty());
            assert(scrub_complete(Seq::<char>::empty()) =~= Seq::<char>::empty());
            assert(self.output@ =~= old(self).output@ + scrub_complete(bufv.take(0)));
        }

        // process every complete line
        let mut start: usize = 0;
        let mut i: usize = 0;
        let n = buf.unicode_len();
        while i < n
            invariant
                start <= i <= n,
                n == buf@.len(),
                buf@ == bufv,
                handler.wf(),
                handler.config_m() == old(handler).config_m(),
                forall|l: Seq<char>| #[trigger] handler.line_sets_error(l) == old(
                    handler,
                ).line_sets_error(l),
                forall|l: Seq<char>| #[trigger] handler.line_state_index(l) == old(
                    handler,
                ).line_state_index(l),
                forall|p: int| #[trigger] handler.is_prompt_index(p) == old(
                    handler,
                ).is_prompt_index(p),
                forall|l: Seq<char>| #[trigger] handler.need_write_spec(l) == old(
                    handler,
                ).need_write_spec(l),
                residual_tail(bufv.take(i as int)) == bufv.subrange(start as int, i as int),
                residual_tail(bufv.take(start as int)).len() == 0,
                start as int == 0 || bufv[start as int - 1] == '\n',
                forall|m: int| start as int <= m < i as int ==> bufv[m] != '\n',
                self.line_buffer == old(self).line_buffer,
                self.output@ == old(self).output@ + scrub_complete(bufv.take(start as int)),
                self.is_error == (old(self).is_error || any_error_line(
                    *old(handler),
                    bufv.take(start as int),
                )),
            decreases n - i,
        {
            proof {
                assert(bufv.take(i + 1).last() == bufv[i as int]);
                assert(bufv.take(i + 1).drop_last() =~= bufv.take(i as int));
            }
            if buf.get_char(i) == '\n' {
                let line = buf.substring_char(start, i);
                let scrubbed = strip_line_artifacts(line);
                let trimmed = trim_end(scrubbed.as_str());
                let ghost linev = bufv.subrange(start as int, i as int);
                proof {
                    assert(line@ =~= linev);
                    assert(bufv.take(i + 1) =~= bufv.take(start as int) + linev.push('\n'));
                    lemma_scrub_one_line(linev);
                    lemma_lines_concat(bufv.take(start as int), linev.push('\n'));
                }
                let ghost h_pre = *handler;
                handler.read(trimmed.as_str());
                if handler.error() {
                    self.is_error = true;
                }
                proof {
                    // the error flag gains exactly this line's verdict
                    let processed = crate::strutil::trim_end_seq(scrub_line(linev));
                    assert(trimmed@ == processed);
                    handler.lemma_state_names();
                    if h_pre.ignore_matches(processed) {
                        assert(handler.state_index_m() == 0);
                        assert(handler.current_state_m() == handler.state_name_at(0));
                        assert(handler.state_name_at(0) == crate::device::output_name());
                        assert(crate::device::output_name().len()
                            != crate::device::error_name().len());
                        assert(!h_pre.line_sets_error(processed));
                    } else {
                        assert(handler.current_state_m() == handler.state_name_at(
                            h_pre.line_state_index(processed),
                        ));
                    }
                    assert((handler.current_state_m() == crate::device::error_name())
                        == h_pre.line_sets_error(processed));
                }
                self.output.append(scrubbed.as_str());
                self.output.append("\n");
                start = i + 1;
                proof {
                    reveal_strlit("\n");
                    assert("\n"@ =~= seq!['\n']);
                    assert(residual_tail(bufv.take(i + 1)) =~= bufv.subrange(i + 1, i + 1));
                    assert(scrubbed@ == scrub_line(linev));
                    assert(self.output@ =~= old(self).output@ + scrub_complete(
                        bufv.take(start as int),
                    ));
                }
            } else {
                proof {
                    assert(residual_tail(bufv.take(i + 1)) =~= bufv.subrange(
                        start as int,
                        i + 1,
                    ));
                }
            }
            i += 1;
        }
        let tail = buf.substring_char(start, n);
        proof {
            assert(bufv.take(n as int) =~= bufv);
            assert(tail@ =~= residual_tail(bufv));
            // everything past the last newline is tail: the whole stream's
            // complete lines are exactly those before `start`
            assert(bufv =~= bufv.take(start as int) + tail@);
            lemma_lines_concat(bufv.take(start as int), tail@);
            assert(first_newline(tail@) is None) by {
                if first_newline(tail@) is Some {
                    lemma_first_newline_some(tail@);
                    let k = first_newline(tail@)->0;
                    assert(tail@[k] == bufv[start as int + k]);
                }
            }
            assert(scrub_complete(tail@) =~= Seq::<char>::empty());
            assert(scrub_complete(bufv) =~= scrub_complete(bufv.take(start as int)));
            assert(!any_error_line(*old(handler), tail@));
            assert(any_error_line(*old(handler), bufv) == any_error_line(
                *old(handler),
                bufv.take(start as int),
            ));
            assert(self.output@ == old(self).output@ + scrub_complete(bufv));
        }
        self.line_buffer = tail.to_owned();

        if self.line_buffer.unicode_len() == 0 {
            return PumpStep::Continue;
        }
        let tail_ref = self.line_buffer.clone();
        if handler.read_prompt(tail_ref.as_str()) {
            handler.read(tail_ref.as_str());
            self.output.append(tail_ref.as_str());
            let success = !self.is_error;
            proof {
                assert(self.output@ =~= old(self).output@ + scrub_complete(bufv)
                    + residual_tail(bufv));
            }
            return PumpStep::Done { success };
        }
        match handler.read_need_write(tail_ref.as_str()) {
            Some((reply, record)) => {
                handler.read(tail_ref.as_str());
                if !record {
                    self.line_buffer = String::new();
                }
                PumpStep::Reply { text: reply }
            },
            None => PumpStep::Continue,
        }
    }
}

} // verus!
