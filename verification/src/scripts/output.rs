//! The last lines that a script printed.

use crate::ipc::{OutputLine, NEWLINE};
use crate::text::{chars_of, copied, string_of};
use std::collections::VecDeque;
use vstd::prelude::*;

verus! {

/// How many lines are kept per script.
pub const MAX_LINES: usize = 500;

/// A line longer than this is split, so that a program that prints without newlines cannot fill
/// the memory.
pub const MAX_LINE_BYTES: usize = 4096;

/// The text that bytes stand for, with a replacement character for what is not UTF-8.
pub uninterp spec fn lossy_text(bytes: Seq<u8>) -> Seq<char>;

/// Calls `String::from_utf8_lossy`: the text is a function of the bytes alone, and where the
/// bytes are valid UTF-8 it is the text that they encode.
#[verifier::external_body]
fn decode_lossy(bytes: &Vec<u8>) -> (r: String)
    ensures
        r@ == lossy_text(bytes@),
        vstd::utf8::valid_utf8(bytes@) ==> r@ == vstd::utf8::decode_utf8(bytes@),
{
    String::from_utf8_lossy(bytes).into_owned()
}

/// The text of raw bytes, such as the start of a file.
pub fn text_of_bytes(bytes: &Vec<u8>) -> (r: String)
    ensures
        r@ == lossy_text(bytes@),
        vstd::utf8::valid_utf8(bytes@) ==> r@ == vstd::utf8::decode_utf8(bytes@),
{
    decode_lossy(bytes)
}

/// Characters that steer a terminal instead of being shown.
pub open spec fn is_control(c: char) -> bool {
    c <= '\u{1f}' || '\u{7f}' <= c <= '\u{9f}'
}

/// The place after a colour code whose parameters start at `from`: behind its final byte, or at
/// the end of the text.
pub open spec fn after_code(s: Seq<char>, from: int) -> int
    decreases s.len() - from,
{
    if from < 0 || from >= s.len() {
        s.len() as int
    } else if '@' <= s[from] <= '~' {
        from + 1
    } else {
        after_code(s, from + 1)
    }
}

proof fn after_code_advances(s: Seq<char>, from: int)
    requires
        0 <= from <= s.len(),
    ensures
        from <= after_code(s, from) <= s.len(),
        from < s.len() ==> from < after_code(s, from),
    decreases s.len() - from,
{
    if from < s.len() && !('@' <= s[from] <= '~') {
        after_code_advances(s, from + 1);
    }
}

/// The text `s[from..]` without colour codes and control characters, and with tabs as spaces.
pub open spec fn cleaned(s: Seq<char>, from: int) -> Seq<char>
    decreases s.len() - from,
    when 0 <= from <= s.len()
    via cleaned_shrinks
{
    if from >= s.len() {
        Seq::empty()
    } else if s[from] == '\u{1b}' {
        if from + 1 < s.len() && s[from + 1] == '[' {
            cleaned(s, after_code(s, from + 2))
        } else {
            cleaned(s, from + 1)
        }
    } else if s[from] == '\t' {
        "    "@ + cleaned(s, from + 1)
    } else if is_control(s[from]) {
        cleaned(s, from + 1)
    } else {
        seq![s[from]] + cleaned(s, from + 1)
    }
}

#[via_fn]
proof fn cleaned_shrinks(s: Seq<char>, from: int) {
    if from + 1 < s.len() {
        after_code_advances(s, from + 2);
    }
}

/// Removes terminal colour codes, carriage returns and other control characters, which would be
/// drawn as garbage. Tabs become spaces.
pub fn clean(text: &str) -> (r: String)
    ensures
        r@ == cleaned(text@, 0),
{
    let chars = chars_of(text);
    let mut out: Vec<char> = Vec::new();
    let mut i: usize = 0;
    proof {
        assert(cleaned(text@, 0) =~= out@ + cleaned(text@, 0));
    }
    while i < chars.len()
        invariant
            i <= chars.len(),
            chars@ == text@,
            cleaned(text@, 0) == out@ + cleaned(text@, i as int),
        decreases chars.len() - i,
    {
        let c = chars[i];
        if c == '\u{1b}' {
            i = i + 1;
            if i < chars.len() && chars[i] == '[' {
                i = i + 1;
                let ghost start = i as int;
                let mut found = false;
                while i < chars.len() && !found
                    invariant
                        start <= i <= chars.len(),
                        chars@ == text@,
                        found ==> after_code(text@, start) == i,
                        !found ==> after_code(text@, start) == after_code(text@, i as int),
                    decreases
                            chars.len() - i + if found {
                                0int
                            } else {
                                1int
                            },
                {
                    let next = chars[i];
                    if '@' <= next && next <= '~' {
                        found = true;
                    }
                    i = i + 1;
                }
            }
        } else if c == '\t' {
            let ghost before = out@;
            out.push(' ');
            out.push(' ');
            out.push(' ');
            out.push(' ');
            proof {
                reveal_strlit("    ");
                assert(out@ =~= before + "    "@);
                assert(before + ("    "@ + cleaned(text@, i + 1)) =~= out@ + cleaned(
                    text@,
                    i + 1,
                ));
            }
            i = i + 1;
        } else if c <= '\u{1f}' || ('\u{7f}' <= c && c <= '\u{9f}') {
            i = i + 1;
        } else {
            let ghost before = out@;
            out.push(c);
            proof {
                assert(before + (seq![c] + cleaned(text@, i + 1)) =~= out@ + cleaned(
                    text@,
                    i + 1,
                ));
            }
            i = i + 1;
        }
    }
    assert(out@ + Seq::<char>::empty() =~= out@);
    string_of(&out)
}

/// One line as it is kept.
pub struct Line {
    pub text: Seq<char>,
    pub stderr: bool,
}

/// What is kept of a script's output.
#[verifier::ext_equal]
pub struct OutputModel {
    /// The finished lines, oldest first.
    pub lines: Seq<Line>,
    /// What was printed to stdout since its last line.
    pub out: Seq<u8>,
    /// What was printed to stderr since its last line.
    pub err: Seq<u8>,
}

/// How a line that was read looks when it is kept.
pub open spec fn shown_line(bytes: Seq<u8>, stderr: bool) -> Line {
    Line { text: cleaned(lossy_text(bytes), 0), stderr }
}

/// How lines that were read look when they are kept.
pub open spec fn shown_lines(lines: Seq<Seq<u8>>, stderr: bool) -> Seq<Line> {
    Seq::new(lines.len(), |i: int| shown_line(lines[i], stderr))
}

/// The newest lines, as many as are kept.
pub open spec fn newest(lines: Seq<Line>) -> Seq<Line> {
    if lines.len() > MAX_LINES {
        lines.skip(lines.len() - MAX_LINES)
    } else {
        lines
    }
}

/// The lines that end within `bytes[from..]` when `partial` was read before. A line ends at a
/// newline, and before a byte that would make it too long.
pub open spec fn ended(partial: Seq<u8>, bytes: Seq<u8>, from: int) -> Seq<Seq<u8>>
    decreases bytes.len() - from,
{
    if from < 0 || from >= bytes.len() {
        Seq::empty()
    } else if bytes[from] == NEWLINE {
        seq![partial] + ended(Seq::empty(), bytes, from + 1)
    } else if partial.len() >= MAX_LINE_BYTES {
        seq![partial] + ended(seq![bytes[from]], bytes, from + 1)
    } else {
        ended(partial.push(bytes[from]), bytes, from + 1)
    }
}

/// What is left after the last line that ends within `bytes[from..]`.
pub open spec fn left_over(partial: Seq<u8>, bytes: Seq<u8>, from: int) -> Seq<u8>
    decreases bytes.len() - from,
{
    if from < 0 || from >= bytes.len() {
        partial
    } else if bytes[from] == NEWLINE {
        left_over(Seq::empty(), bytes, from + 1)
    } else if partial.len() >= MAX_LINE_BYTES {
        left_over(seq![bytes[from]], bytes, from + 1)
    } else {
        left_over(partial.push(bytes[from]), bytes, from + 1)
    }
}

impl OutputModel {
    /// What was printed to one of the two since its last line.
    pub open spec fn partial(self, stderr: bool) -> Seq<u8> {
        if stderr {
            self.err
        } else {
            self.out
        }
    }

    /// The same output with another unfinished line on one of the two.
    pub open spec fn with_partial(self, stderr: bool, partial: Seq<u8>) -> OutputModel {
        if stderr {
            OutputModel { err: partial, ..self }
        } else {
            OutputModel { out: partial, ..self }
        }
    }

    /// The output with more lines, of which the newest are kept.
    pub open spec fn with_lines(self, more: Seq<Line>) -> OutputModel {
        OutputModel { lines: newest(self.lines + more), ..self }
    }

    /// The output after bytes were read from one of the two.
    pub open spec fn pushed(self, stderr: bool, bytes: Seq<u8>) -> OutputModel {
        let partial = self.partial(stderr);
        self.with_lines(shown_lines(ended(partial, bytes, 0), stderr)).with_partial(
            stderr,
            left_over(partial, bytes, 0),
        )
    }

    /// The output after one of the two was closed.
    pub open spec fn flushed(self, stderr: bool) -> OutputModel {
        if self.partial(stderr).len() == 0 {
            self
        } else {
            self.with_lines(seq![shown_line(self.partial(stderr), stderr)]).with_partial(
                stderr,
                Seq::empty(),
            )
        }
    }

    /// No more lines than are kept, and no unfinished line too long.
    pub open spec fn wf(self) -> bool {
        &&& self.lines.len() <= MAX_LINES
        &&& self.out.len() <= MAX_LINE_BYTES
        &&& self.err.len() <= MAX_LINE_BYTES
    }

    /// The output before anything was printed.
    pub open spec fn blank() -> OutputModel {
        OutputModel { lines: Seq::empty(), out: Seq::empty(), err: Seq::empty() }
    }
}

/// What lines hold.
pub open spec fn line_views(lines: Seq<OutputLine>) -> Seq<Line> {
    Seq::new(lines.len(), |i: int| Line { text: lines[i].text@, stderr: lines[i].stderr })
}

/// Captured stdout and stderr, interleaved in the order in which they were read.
#[derive(Debug)]
pub struct OutputBuffer {
    lines: VecDeque<OutputLine>,
    /// Bytes after the last newline of stdout.
    out: Vec<u8>,
    /// Bytes after the last newline of stderr.
    err: Vec<u8>,
}

impl View for OutputBuffer {
    type V = OutputModel;

    closed spec fn view(&self) -> OutputModel {
        OutputModel { lines: line_views(self.lines@), out: self.out@, err: self.err@ }
    }
}

impl Default for OutputBuffer {
    fn default() -> (r: Self)
        ensures
            r@ == OutputModel::blank(),
            r@.wf(),
    {
        let r = OutputBuffer { lines: VecDeque::new(), out: Vec::new(), err: Vec::new() };
        assert(r@ =~= OutputModel::blank());
        r
    }
}

impl OutputBuffer {
    /// Forgets everything, for a new run.
    pub fn clear(&mut self)
        ensures
            final(self)@ == OutputModel::blank(),
            final(self)@.wf(),
    {
        self.lines.clear();
        self.out = Vec::new();
        self.err = Vec::new();
        assert(self@ =~= OutputModel::blank());
    }

    /// Adds bytes that were read from one of the pipes.
    pub fn push(&mut self, stderr: bool, bytes: &Vec<u8>)
        requires
            old(self)@.wf(),
        ensures
            final(self)@ == old(self)@.pushed(stderr, bytes@),
            final(self)@.wf(),
    {
        let ghost before = self@;
        let ghost mut done: Seq<Seq<u8>> = Seq::empty();
        let mut i: usize = 0;
        proof {
            assert(newest(before.lines + shown_lines(done, stderr)) =~= before.lines);
            assert(done + ended(before.partial(stderr), bytes@, 0) =~= ended(
                before.partial(stderr),
                bytes@,
                0,
            ));
        }
        while i < bytes.len()
            invariant
                i <= bytes.len(),
                before.wf(),
                self@.wf(),
                self@ == before.with_lines(shown_lines(done, stderr)).with_partial(
                    stderr,
                    self@.partial(stderr),
                ),
                ended(before.partial(stderr), bytes@, 0) == done + ended(
                    self@.partial(stderr),
                    bytes@,
                    i as int,
                ),
                left_over(before.partial(stderr), bytes@, 0) == left_over(
                    self@.partial(stderr),
                    bytes@,
                    i as int,
                ),
            decreases bytes.len() - i,
        {
            let byte = bytes[i];
            let ghost start = self@;
            if byte == NEWLINE {
                self.finish_line(stderr);
                proof {
                    one_more_line(before, done, start.partial(stderr), stderr);
                    assert(self@ =~= before.with_lines(
                        shown_lines(done.push(start.partial(stderr)), stderr),
                    ).with_partial(stderr, Seq::empty()));
                    assert(done + (seq![start.partial(stderr)] + ended(
                        Seq::empty(),
                        bytes@,
                        i + 1,
                    )) =~= done.push(start.partial(stderr)) + ended(Seq::empty(), bytes@, i + 1));
                    done = done.push(start.partial(stderr));
                }
            } else {
                let length: usize = if stderr {
                    self.err.len()
                } else {
                    self.out.len()
                };
                if length >= MAX_LINE_BYTES {
                    self.finish_line(stderr);
                    proof {
                        let line = start.partial(stderr);
                        one_more_line(before, done, line, stderr);
                        assert(self@ =~= before.with_lines(
                            shown_lines(done.push(line), stderr),
                        ).with_partial(stderr, Seq::empty()));
                        let rest = ended(seq![byte], bytes@, i + 1);
                        assert(done + (seq![line] + rest) =~= done.push(line) + rest);
                        assert(Seq::<u8>::empty().push(byte) =~= seq![byte]);
                        done = done.push(line);
                    }
                }
                let ghost short = self@;
                if stderr {
                    self.err.push(byte);
                } else {
                    self.out.push(byte);
                }
                assert(self@ =~= short.with_partial(stderr, short.partial(stderr).push(byte)));
            }
            i = i + 1;
        }
        proof {
            assert(done + Seq::<Seq<u8>>::empty() =~= done);
        }
    }

    /// Keeps a final line that had no newline, when the pipe closes.
    pub fn flush(&mut self, stderr: bool)
        requires
            old(self)@.wf(),
        ensures
            final(self)@ == old(self)@.flushed(stderr),
            final(self)@.wf(),
    {
        let empty = if stderr {
            self.err.len() == 0
        } else {
            self.out.len() == 0
        };
        if !empty {
            self.finish_line(stderr);
        }
    }

    /// The newest `count` lines, oldest first.
    pub fn tail(&self, count: usize) -> (r: Vec<OutputLine>)
        ensures
            line_views(r@) == if self@.lines.len() > count {
                self@.lines.skip(self@.lines.len() - count)
            } else {
                self@.lines
            },
    {
        let length = self.lines.len();
        let skip: usize = if length > count {
            length - count
        } else {
            0
        };
        let mut out: Vec<OutputLine> = Vec::new();
        let mut i: usize = skip;
        while i < self.lines.len()
            invariant
                skip <= i <= self.lines@.len(),
                line_views(out@) == self@.lines.subrange(skip as int, i as int),
            decreases self.lines@.len() - i,
        {
            let line = &self.lines[i];
            let ghost before = out@;
            out.push(OutputLine { text: copied(line.text.as_str()), stderr: line.stderr });
            assert(line_views(out@) =~= line_views(before).push(self@.lines[i as int]));
            assert(line_views(out@) =~= self@.lines.subrange(skip as int, i + 1));
            i = i + 1;
        }
        proof {
            assert(self@.lines.subrange(skip as int, self@.lines.len() as int) =~= self@.lines.skip(
                skip as int,
            ));
            assert(self@.lines.skip(0) =~= self@.lines);
        }
        out
    }

    fn finish_line(&mut self, stderr: bool)
        requires
            old(self)@.lines.len() <= MAX_LINES,
        ensures
            final(self)@ == old(self)@.with_lines(
                seq![shown_line(old(self)@.partial(stderr), stderr)],
            ).with_partial(stderr, Seq::empty()),
            final(self)@.lines.len() <= MAX_LINES,
    {
        let ghost before = self@;
        let mut bytes: Vec<u8> = Vec::new();
        if stderr {
            std::mem::swap(&mut bytes, &mut self.err);
        } else {
            std::mem::swap(&mut bytes, &mut self.out);
        }
        let raw = decode_lossy(&bytes);
        let text = clean(raw.as_str());
        let ghost line = Line { text: text@, stderr };
        if self.lines.len() == MAX_LINES {
            let _ = self.lines.pop_front();
        }
        self.lines.push_back(OutputLine { text, stderr });
        proof {
            assert(line == shown_line(before.partial(stderr), stderr));
            assert(line_views(self.lines@) =~= newest(before.lines + seq![line]));
            assert(self@ =~= before.with_lines(seq![line]).with_partial(stderr, Seq::empty()));
        }
    }
}

proof fn newest_again(a: Seq<Line>, b: Seq<Line>)
    ensures
        newest(newest(a) + b) == newest(a + b),
{
    assert(newest(newest(a) + b) =~= newest(a + b));
}

proof fn one_more_line(before: OutputModel, done: Seq<Seq<u8>>, line: Seq<u8>, stderr: bool)
    ensures
        newest(newest(before.lines + shown_lines(done, stderr)) + seq![shown_line(line, stderr)])
            == newest(before.lines + shown_lines(done.push(line), stderr)),
{
    newest_again(before.lines + shown_lines(done, stderr), seq![shown_line(line, stderr)]);
    assert(before.lines + shown_lines(done.push(line), stderr) =~= before.lines + shown_lines(
        done,
        stderr,
    ) + seq![shown_line(line, stderr)]);
}

/// Output comes out the same however the reads cut it up.
pub proof fn reads_can_be_cut_anywhere(
    output: OutputModel,
    stderr: bool,
    first: Seq<u8>,
    second: Seq<u8>,
)
    ensures
        output.pushed(stderr, first + second) == output.pushed(stderr, first).pushed(
            stderr,
            second,
        ),
{
    let partial = output.partial(stderr);
    cut_lines(partial, first, second, 0);
    let left = left_over(partial, first, 0);
    let a = shown_lines(ended(partial, first, 0), stderr);
    let b = shown_lines(ended(left, second, 0), stderr);
    assert(shown_lines(ended(partial, first + second, 0), stderr) =~= a + b);
    newest_again(output.lines + a, b);
    assert(output.lines + a + b =~= output.lines + (a + b));
    assert(output.pushed(stderr, first + second) =~= output.pushed(stderr, first).pushed(
        stderr,
        second,
    ));
}

proof fn cut_lines(partial: Seq<u8>, first: Seq<u8>, second: Seq<u8>, from: int)
    requires
        0 <= from <= first.len(),
    ensures
        ended(partial, first + second, from) == ended(partial, first, from) + ended(
            left_over(partial, first, from),
            second,
            0,
        ),
        left_over(partial, first + second, from) == left_over(
            left_over(partial, first, from),
            second,
            0,
        ),
    decreases first.len() - from,
{
    let all = first + second;
    if from < first.len() {
        assert(all[from] == first[from]);
        let byte = first[from];
        if byte == NEWLINE {
            cut_lines(Seq::empty(), first, second, from + 1);
            let rest = left_over(Seq::empty(), first, from + 1);
            assert(seq![partial] + (ended(Seq::empty(), first, from + 1) + ended(rest, second, 0))
                =~= (seq![partial] + ended(Seq::empty(), first, from + 1)) + ended(
                rest,
                second,
                0,
            ));
        } else if partial.len() >= MAX_LINE_BYTES {
            cut_lines(seq![byte], first, second, from + 1);
            let rest = left_over(seq![byte], first, from + 1);
            assert(seq![partial] + (ended(seq![byte], first, from + 1) + ended(rest, second, 0))
                =~= (seq![partial] + ended(seq![byte], first, from + 1)) + ended(rest, second, 0));
        } else {
            cut_lines(partial.push(byte), first, second, from + 1);
        }
    } else {
        shifted_lines(partial, first, second, 0);
        assert(Seq::<Seq<u8>>::empty() + ended(partial, second, 0) =~= ended(partial, second, 0));
    }
}

proof fn shifted_lines(partial: Seq<u8>, first: Seq<u8>, second: Seq<u8>, from: int)
    requires
        0 <= from <= second.len(),
    ensures
        ended(partial, first + second, first.len() + from) == ended(partial, second, from),
        left_over(partial, first + second, first.len() + from) == left_over(
            partial,
            second,
            from,
        ),
    decreases second.len() - from,
{
    if from < second.len() {
        assert((first + second)[first.len() + from] == second[from]);
        shifted_lines(Seq::empty(), first, second, from + 1);
        shifted_lines(seq![second[from]], first, second, from + 1);
        shifted_lines(partial.push(second[from]), first, second, from + 1);
    }
}

/// Flushing twice adds nothing.
pub proof fn flushing_again_changes_nothing(output: OutputModel, stderr: bool)
    ensures
        output.flushed(stderr).flushed(stderr) == output.flushed(stderr),
{
}

/// The two pipes keep their unfinished lines apart: reading from one leaves the other's alone.
pub proof fn pipes_keep_apart(output: OutputModel, stderr: bool, bytes: Seq<u8>)
    ensures
        output.pushed(stderr, bytes).partial(!stderr) == output.partial(!stderr),
        output.flushed(stderr).partial(!stderr) == output.partial(!stderr),
{
}

/// A whole line of bytes shows as one line of text behind those that were there, unless it is
/// longer than [`MAX_LINE_BYTES`].
pub proof fn whole_lines_are_kept(output: OutputModel, stderr: bool, line: Seq<u8>)
    requires
        output.wf(),
        output.partial(stderr).len() == 0,
        line.len() <= MAX_LINE_BYTES,
        forall|k: int| 0 <= k < line.len() ==> line[k] != NEWLINE,
    ensures
        output.pushed(stderr, line.push(NEWLINE)) == output.with_lines(
            seq![shown_line(line, stderr)],
        ),
{
    line_ends(Seq::empty(), line, 0);
    assert(Seq::<u8>::empty() + line.skip(0) =~= line);
    assert(shown_lines(seq![line], stderr) =~= seq![shown_line(line, stderr)]);
    assert(output.partial(stderr) =~= Seq::empty());
    assert(output.pushed(stderr, line.push(NEWLINE)) =~= output.with_lines(
        seq![shown_line(line, stderr)],
    ));
}

proof fn line_ends(partial: Seq<u8>, line: Seq<u8>, from: int)
    requires
        0 <= from <= line.len(),
        partial.len() + line.len() - from <= MAX_LINE_BYTES,
        forall|k: int| 0 <= k < line.len() ==> line[k] != NEWLINE,
    ensures
        ended(partial, line.push(NEWLINE), from) == seq![partial + line.skip(from)],
        left_over(partial, line.push(NEWLINE), from) == Seq::<u8>::empty(),
    decreases line.len() - from,
{
    let bytes = line.push(NEWLINE);
    if from < line.len() {
        line_ends(partial.push(line[from]), line, from + 1);
        assert(partial.push(line[from]) + line.skip(from + 1) =~= partial + line.skip(from));
    } else {
        assert(partial + line.skip(from) =~= partial);
        assert(ended(Seq::empty(), bytes, from + 1) =~= Seq::empty());
        assert(seq![partial] + Seq::<Seq<u8>>::empty() =~= seq![partial]);
        assert(left_over(Seq::empty(), bytes, from + 1) =~= Seq::empty());
    }
}

/// True when nothing in a text is a control character.
pub open spec fn is_clean(s: Seq<char>) -> bool {
    forall|i: int| 0 <= i < s.len() ==> !is_control(#[trigger] s[i])
}

proof fn cleaned_is_clean(s: Seq<char>, from: int)
    requires
        0 <= from <= s.len(),
    ensures
        is_clean(cleaned(s, from)),
    decreases s.len() - from,
{
    reveal_strlit("    ");
    if from < s.len() {
        if s[from] == '\u{1b}' && from + 1 < s.len() && s[from + 1] == '[' {
            after_code_advances(s, from + 2);
            cleaned_is_clean(s, after_code(s, from + 2));
        } else {
            cleaned_is_clean(s, from + 1);
        }
    }
}

proof fn cleaned_behind(front: Seq<char>, s: Seq<char>, i: int)
    requires
        0 <= i <= s.len(),
    ensures
        cleaned(front + s, front.len() + i) == cleaned(s, i),
    decreases s.len() - i,
{
    let all = front + s;
    let n = front.len() as int;
    if i < s.len() {
        assert(all[n + i] == s[i]);
        if s[i] == '\u{1b}' && i + 1 < s.len() && s[i + 1] == '[' {
            assert(all[n + i + 1] == s[i + 1]);
            code_behind(front, s, i + 2);
            after_code_advances(s, i + 2);
            cleaned_behind(front, s, after_code(s, i + 2));
        } else {
            if i + 1 < s.len() {
                assert(all[n + i + 1] == s[i + 1]);
            }
            cleaned_behind(front, s, i + 1);
        }
    }
}

proof fn code_behind(front: Seq<char>, s: Seq<char>, i: int)
    requires
        0 <= i <= s.len(),
    ensures
        after_code(front + s, front.len() + i) == front.len() + after_code(s, i),
    decreases s.len() - i,
{
    if i < s.len() {
        assert((front + s)[front.len() + i] == s[i]);
        code_behind(front, s, i + 1);
    }
}

proof fn clean_text_stays(front: Seq<char>, rest: Seq<char>, i: int)
    requires
        0 <= i <= front.len(),
        is_clean(front),
    ensures
        cleaned(front + rest, i) == front.skip(i) + cleaned(rest, 0),
    decreases front.len() - i,
{
    let all = front + rest;
    if i < front.len() {
        assert(all[i] == front[i]);
        assert(!is_control(front[i]));
        clean_text_stays(front, rest, i + 1);
        assert(seq![front[i]] + (front.skip(i + 1) + cleaned(rest, 0)) =~= front.skip(i) + cleaned(
            rest,
            0,
        ));
    } else {
        cleaned_behind(front, rest, 0);
        assert(front.skip(i) + cleaned(rest, 0) =~= cleaned(rest, 0));
    }
}

/// Cleaning leaves no control character, and nothing else is lost: text without any stays as it
/// is, a tab becomes four spaces, a colour code goes as a whole, and any other control character
/// goes alone.
pub proof fn cleaning_takes_only_control_characters(
    text: Seq<char>,
    front: Seq<char>,
    code: Seq<char>,
    end: char,
    other: char,
    rest: Seq<char>,
)
    requires
        is_clean(front),
        forall|i: int| 0 <= i < code.len() ==> #[trigger] code[i] < '@',
        '@' <= end <= '~',
        is_control(other),
        other != '\t',
        other != '\u{1b}',
    ensures
        is_clean(cleaned(text, 0)),
        cleaned(front, 0) == front,
        cleaned(front + (seq!['\t'] + rest), 0) == front + ("    "@ + cleaned(rest, 0)),
        cleaned(front + (seq!['\u{1b}', '['] + code + seq![end] + rest), 0) == front + cleaned(
            rest,
            0,
        ),
        cleaned(front + (seq![other] + rest), 0) == front + cleaned(rest, 0),
{
    cleaned_is_clean(text, 0);
    let none = Seq::<char>::empty();
    clean_text_stays(front, none, 0);
    assert(front + none =~= front);
    assert(cleaned(none, 0) =~= none);
    assert(front.skip(0) =~= front);
    clean_text_stays(front, seq!['\t'] + rest, 0);
    cleaned_behind(seq!['\t'], rest, 0);
    assert((seq!['\t'] + rest)[0] == '\t');
    clean_text_stays(front, seq![other] + rest, 0);
    cleaned_behind(seq![other], rest, 0);
    assert((seq![other] + rest)[0] == other);
    let start = seq!['\u{1b}', '['];
    let whole = start + code + seq![end] + rest;
    clean_text_stays(front, whole, 0);
    assert(whole[0] == '\u{1b}' && whole[1] == '[');
    assert forall|i: int| 0 <= i < code.len() implies #[trigger] whole[2 + i] == code[i] by {}
    assert(whole[2 + code.len() as int] == end);
    code_ends(whole, 2, code.len() as int, 0);
    let before = start + code + seq![end];
    assert(whole =~= before + rest);
    cleaned_behind(before, rest, 0);
}

proof fn code_ends(s: Seq<char>, at: int, n: int, i: int)
    requires
        0 <= at,
        0 <= i <= n,
        at + n < s.len(),
        forall|k: int| 0 <= k < n ==> #[trigger] s[at + k] < '@',
        '@' <= s[at + n] <= '~',
    ensures
        after_code(s, at + i) == at + n + 1,
    decreases n - i,
{
    if i < n {
        assert(s[at + i] < '@');
        code_ends(s, at, n, i + 1);
    }
}

/// The newest five hundred lines are kept, in their order.
pub proof fn the_newest_lines_are_kept(lines: Seq<Line>, i: int)
    requires
        0 <= i < lines.len(),
    ensures
        newest(lines).len() == if lines.len() < 500 {
            lines.len() as int
        } else {
            500
        },
        lines.len() - i <= 500 ==> newest(lines)[newest(lines).len() - (lines.len() - i)]
            == lines[i],
{
}

/// All bytes of some lines, one behind the other.
pub open spec fn bytes_of(lines: Seq<Seq<u8>>) -> Seq<u8>
    decreases lines.len(),
{
    if lines.len() == 0 {
        Seq::empty()
    } else {
        lines[0] + bytes_of(lines.drop_first())
    }
}

/// No byte is lost on the way into lines but the line feeds, and they stay in order; no line
/// holds a line feed or is longer than the limit.
pub proof fn every_byte_is_on_a_line(partial: Seq<u8>, bytes: Seq<u8>, from: int)
    requires
        0 <= from <= bytes.len(),
        partial.len() <= 4096,
        !partial.contains(10u8),
    ensures
        bytes_of(ended(partial, bytes, from)) + left_over(partial, bytes, from) == partial
            + bytes.skip(from).filter(|b: u8| b != 10),
        left_over(partial, bytes, from).len() <= 4096,
        !left_over(partial, bytes, from).contains(10u8),
        forall|k: int|
            0 <= k < ended(partial, bytes, from).len() ==> {
                &&& (#[trigger] ended(partial, bytes, from)[k]).len() <= 4096
                &&& !ended(partial, bytes, from)[k].contains(10u8)
            },
    decreases bytes.len() - from,
{
    let kept = |b: u8| b != 10;
    let rest = bytes.skip(from);
    if from >= bytes.len() {
        assert(rest =~= Seq::empty());
        reveal(Seq::filter);
        assert(bytes_of(ended(partial, bytes, from)) =~= Seq::empty());
        assert(partial + rest.filter(kept) =~= partial);
    } else {
        let b = bytes[from];
        assert(rest =~= seq![b] + bytes.skip(from + 1));
        filter_first(b, bytes.skip(from + 1));
        let later = bytes.skip(from + 1).filter(kept);
        let none = Seq::<u8>::empty();
        if b == NEWLINE {
            every_byte_is_on_a_line(none, bytes, from + 1);
            let more = ended(none, bytes, from + 1);
            assert((seq![partial] + more).drop_first() =~= more);
            assert(partial + bytes_of(more) + left_over(none, bytes, from + 1) =~= partial + (none
                + later));
        } else if partial.len() >= MAX_LINE_BYTES {
            every_byte_is_on_a_line(seq![b], bytes, from + 1);
            let more = ended(seq![b], bytes, from + 1);
            assert((seq![partial] + more).drop_first() =~= more);
            assert(partial + bytes_of(more) + left_over(seq![b], bytes, from + 1) =~= partial + (
            bytes_of(more) + left_over(seq![b], bytes, from + 1)));
            assert(partial + (seq![b] + later) =~= partial + rest.filter(kept));
        } else {
            let longer = partial.push(b);
            assert(!longer.contains(10u8)) by {
                if longer.contains(10u8) {
                    let k = choose|k: int| 0 <= k < longer.len() && longer[k] == 10u8;
                    if k < partial.len() {
                        assert(partial[k] == 10u8);
                    }
                }
            }
            every_byte_is_on_a_line(longer, bytes, from + 1);
            assert(longer + later =~= partial + (seq![b] + later));
        }
    }
}

proof fn filter_first(b: u8, rest: Seq<u8>)
    ensures
        (seq![b] + rest).filter(|b: u8| b != 10) == (if b != 10 {
            seq![b]
        } else {
            Seq::empty()
        }) + rest.filter(|b: u8| b != 10),
    decreases rest.len(),
{
    reveal(Seq::filter);
    let kept = |b: u8| b != 10;
    let all = seq![b] + rest;
    let first = if b != 10 {
        seq![b]
    } else {
        Seq::empty()
    };
    if rest.len() == 0 {
        assert(all.drop_last() =~= Seq::empty());
        assert(all.drop_last().filter(kept) =~= Seq::empty());
        assert(all.filter(kept) =~= first + rest.filter(kept));
    } else {
        filter_first(b, rest.drop_last());
        assert(all.drop_last() =~= seq![b] + rest.drop_last());
        assert(all.last() == rest.last());
        assert(all.filter(kept) =~= first + rest.filter(kept));
    }
}

/// When a pipe closes, what was printed after the last line feed becomes the newest line, marked
/// with the pipe it came from; a pipe that ended with a line feed adds nothing.
pub proof fn the_last_line_is_not_lost(output: OutputModel, stderr: bool)
    requires
        output.wf(),
    ensures
        ({
            let rest = if stderr {
                output.err
            } else {
                output.out
            };
            let after = output.flushed(stderr);
            &&& rest.len() == 0 ==> after == output
            &&& rest.len() > 0 ==> {
                &&& after.lines.len() > 0
                &&& after.lines.last().text == cleaned(lossy_text(rest), 0)
                &&& after.lines.last().stderr == stderr
                &&& output.lines.len() < 500 ==> after.lines.drop_last() == output.lines
                &&& stderr ==> after.err.len() == 0 && after.out == output.out
                &&& !stderr ==> after.out.len() == 0 && after.err == output.err
            }
        }),
{
}

/// The control characters are those below the space and those from delete to the end of the
/// second block of them.
pub proof fn control_characters_are_two_blocks(c: char)
    ensures
        is_control(c) <==> (c as int) < 32 || 127 <= c as int && (c as int) < 160,
{
}

} // verus!
