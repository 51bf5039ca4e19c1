//! What is written for the lines of one target.

use vstd::prelude::*;
use vstd::string::*;
use crate::config::{texts, Numbering};
use crate::numeral::{
    digit_value, lemma_number_field_chars, lemma_number_field_round_trip, number_field,
    number_field_string, numeral_value,
};

verus! {

/// A line as it is written without a number: its text and a newline.
pub open spec fn plain_line(text: Seq<char>) -> Seq<char> {
    text + seq!['\n']
}

/// A line as it is written with the number `n`: the number in its field, a
/// tab, the text and a newline.
pub open spec fn numbered_line(n: nat, text: Seq<char>) -> Seq<char> {
    number_field(n) + seq!['\t'] + text + seq!['\n']
}

/// How many of `lines` are not empty.
pub open spec fn nonblank_count(lines: Seq<Seq<char>>) -> nat
    decreases lines.len(),
{
    if lines.len() == 0 {
        0
    } else {
        nonblank_count(lines.drop_last()) + if lines.last().len() > 0 {
            1nat
        } else {
            0nat
        }
    }
}

/// Whether a line with `text` carries a number.
pub open spec fn is_numbered(numbering: Numbering, text: Seq<char>) -> bool {
    match numbering {
        Numbering::All => true,
        Numbering::NonBlank => text.len() > 0,
        Numbering::Off => false,
    }
}

/// The number that line `i` of a target carries, if it carries one. Lines are
/// counted from 1 within their own target: all of them where every line is
/// numbered, else those that are not empty.
pub open spec fn line_number(numbering: Numbering, lines: Seq<Seq<char>>, i: int) -> Option<nat>
    recommends
        0 <= i < lines.len(),
{
    if !is_numbered(numbering, lines[i]) {
        None
    } else if numbering == Numbering::All {
        Some((i + 1) as nat)
    } else {
        Some(nonblank_count(lines.take(i + 1)))
    }
}

/// What is written for line `i` of a target.
pub open spec fn written_line(numbering: Numbering, lines: Seq<Seq<char>>, i: int) -> Seq<char>
    recommends
        0 <= i < lines.len(),
{
    match line_number(numbering, lines, i) {
        Some(n) => numbered_line(n, lines[i]),
        None => plain_line(lines[i]),
    }
}

/// What is written for each line of a target, line by line.
pub open spec fn written_lines(numbering: Numbering, lines: Seq<Seq<char>>) -> Seq<Seq<char>> {
    Seq::new(lines.len(), |i: int| written_line(numbering, lines, i))
}

/// Everything that is written for a target.
pub open spec fn target_output(numbering: Numbering, lines: Seq<Seq<char>>) -> Seq<char> {
    written_lines(numbering, lines).flatten()
}

/// The last number given out once `lines` have been written.
pub open spec fn last_number(numbering: Numbering, lines: Seq<Seq<char>>) -> nat {
    match numbering {
        Numbering::All => lines.len(),
        Numbering::NonBlank => nonblank_count(lines),
        Numbering::Off => 0,
    }
}

/// The last number given out after a line with `text`, where it was `last`
/// before that line.
pub open spec fn next_number(numbering: Numbering, last: nat, text: Seq<char>) -> nat {
    if is_numbered(numbering, text) {
        last + 1
    } else {
        last
    }
}

/// What is written for a line with `text` where the last number given out
/// was `last`.
pub open spec fn next_line(numbering: Numbering, last: nat, text: Seq<char>) -> Seq<char> {
    if is_numbered(numbering, text) {
        numbered_line(last + 1, text)
    } else {
        plain_line(text)
    }
}

/// No more lines are counted as not empty than there are lines.
pub proof fn lemma_nonblank_count_bound(lines: Seq<Seq<char>>)
    ensures
        nonblank_count(lines) <= lines.len(),
    decreases lines.len(),
{
    if lines.len() > 0 {
        lemma_nonblank_count_bound(lines.drop_last());
    }
}

/// The last number given out never exceeds the number of lines written.
pub proof fn lemma_last_number_bound(numbering: Numbering, lines: Seq<Seq<char>>)
    ensures
        last_number(numbering, lines) <= lines.len(),
{
    lemma_nonblank_count_bound(lines);
}

/// Writing the lines of a target one after the other, each from the last
/// number given out so far, writes for every line what its position in the
/// target calls for.
pub proof fn lemma_next_line_is_written_line(numbering: Numbering, lines: Seq<Seq<char>>, i: int)
    requires
        0 <= i < lines.len(),
    ensures
        next_line(numbering, last_number(numbering, lines.take(i)), lines[i]) == written_line(
            numbering,
            lines,
            i,
        ),
        next_number(numbering, last_number(numbering, lines.take(i)), lines[i]) == last_number(
            numbering,
            lines.take(i + 1),
        ),
{
    let before = lines.take(i);
    let upto = lines.take(i + 1);
    assert(upto.drop_last() =~= before);
    assert(upto.last() == lines[i]);
}

/// The lines of a text, each followed by a newline, one after the other.
pub open spec fn joined(lines: Seq<Seq<char>>) -> Seq<char> {
    Seq::new(lines.len(), |i: int| plain_line(lines[i])).flatten()
}

/// The position of the first tab in `s`, or the length of `s` if it has none.
pub open spec fn first_tab(s: Seq<char>) -> int
    decreases s.len(),
{
    if s.len() == 0 || s[0] == '\t' {
        0
    } else {
        1 + first_tab(s.drop_first())
    }
}

/// The number that a written line shows before its first tab.
pub open spec fn numeric_prefix(written: Seq<char>) -> nat {
    numeral_value(written.take(first_tab(written)))
}

/// How many of the first `k` lines of a target carry a number.
pub open spec fn numbered_upto(numbering: Numbering, lines: Seq<Seq<char>>, k: int) -> nat
    decreases k,
{
    if k <= 0 {
        0
    } else {
        numbered_upto(numbering, lines, k - 1) + if line_number(numbering, lines, k - 1).is_some() {
            1nat
        } else {
            0nat
        }
    }
}

proof fn lemma_first_tab_after(head: Seq<char>, tail: Seq<char>)
    requires
        forall|i: int| 0 <= i < head.len() ==> head[i] != '\t',
    ensures
        first_tab(head + seq!['\t'] + tail) == head.len(),
    decreases head.len(),
{
    let s = head + seq!['\t'] + tail;
    if head.len() == 0 {
        assert(s[0] == '\t');
    } else {
        assert(s[0] == head[0]);
        assert(s.drop_first() =~= head.drop_first() + seq!['\t'] + tail);
        lemma_first_tab_after(head.drop_first(), tail);
    }
}

/// A numbered line shows its number before its first tab, and that tab
/// stands right behind the number field.
pub proof fn lemma_numbered_line_prefix(n: nat, text: Seq<char>)
    ensures
        first_tab(numbered_line(n, text)) == number_field(n).len(),
        numeric_prefix(numbered_line(n, text)) == n,
{
    let field = number_field(n);
    let written = numbered_line(n, text);
    lemma_number_field_chars(n);
    assert forall|i: int| 0 <= i < field.len() implies field[i] != '\t' by {
        let c = field[i];
        assert(c == ' ' || digit_value(c).is_some());
    }
    assert(written =~= field + seq!['\t'] + (text + seq!['\n']));
    lemma_first_tab_after(field, text + seq!['\n']);
    assert(written.take(field.len() as int) =~= field);
    lemma_number_field_round_trip(n);
}

/// Without numbering, what is written for a target is the text of its lines:
/// every line as it was read, followed by a newline.
pub proof fn lemma_unnumbered_output(lines: Seq<Seq<char>>)
    ensures
        written_lines(Numbering::Off, lines).len() == lines.len(),
        forall|i: int|
            0 <= i < lines.len() ==> #[trigger] written_lines(Numbering::Off, lines)[i] == plain_line(
                lines[i],
            ),
        target_output(Numbering::Off, lines) == joined(lines),
{
    assert(written_lines(Numbering::Off, lines) =~= Seq::new(
        lines.len(),
        |i: int| plain_line(lines[i]),
    ));
}

/// With every line numbered, as many lines are written as were read, and
/// each shows its position in its own target, counted from 1.
pub proof fn lemma_all_lines_numbered(lines: Seq<Seq<char>>)
    ensures
        written_lines(Numbering::All, lines).len() == lines.len(),
        numbered_upto(Numbering::All, lines, lines.len() as int) == lines.len(),
        forall|i: int|
            0 <= i < lines.len() ==> {
                let written = #[trigger] written_lines(Numbering::All, lines)[i];
                &&& written == numbered_line((i + 1) as nat, lines[i])
                &&& numeric_prefix(written) == i + 1
            },
{
    assert forall|i: int| 0 <= i < lines.len() implies {
        let written = #[trigger] written_lines(Numbering::All, lines)[i];
        &&& written == numbered_line((i + 1) as nat, lines[i])
        &&& numeric_prefix(written) == i + 1
    } by {
        lemma_numbered_line_prefix((i + 1) as nat, lines[i]);
    }
    lemma_numbered_upto_all(lines, lines.len() as int);
}

proof fn lemma_numbered_upto_all(lines: Seq<Seq<char>>, k: int)
    requires
        0 <= k <= lines.len(),
    ensures
        numbered_upto(Numbering::All, lines, k) == k,
    decreases k,
{
    if k > 0 {
        lemma_numbered_upto_all(lines, k - 1);
    }
}

proof fn lemma_numbered_upto_nonblank(lines: Seq<Seq<char>>, k: int)
    requires
        0 <= k <= lines.len(),
    ensures
        numbered_upto(Numbering::NonBlank, lines, k) == nonblank_count(lines.take(k)),
    decreases k,
{
    if k > 0 {
        lemma_numbered_upto_nonblank(lines, k - 1);
        assert(lines.take(k).drop_last() =~= lines.take(k - 1));
        assert(lines.take(k).last() == lines[k - 1]);
    }
}

/// With the lines that are not empty numbered, as many lines carry a number
/// as the target has lines that are not empty; these are numbered 1, 2, 3
/// and so on in their order; and an empty line is written as a newline alone.
pub proof fn lemma_nonblank_lines_numbered(lines: Seq<Seq<char>>)
    ensures
        written_lines(Numbering::NonBlank, lines).len() == lines.len(),
        numbered_upto(Numbering::NonBlank, lines, lines.len() as int) == nonblank_count(lines),
        forall|i: int|
            0 <= i < lines.len() && lines[i].len() == 0 ==> #[trigger] written_lines(
                Numbering::NonBlank,
                lines,
            )[i] == seq!['\n'],
        forall|i: int|
            0 <= i < lines.len() && lines[i].len() > 0 ==> {
                let written = #[trigger] written_lines(Numbering::NonBlank, lines)[i];
                &&& written == numbered_line(numbered_upto(Numbering::NonBlank, lines, i + 1), lines[i])
                &&& numeric_prefix(written) == numbered_upto(Numbering::NonBlank, lines, i) + 1
            },
{
    lemma_numbered_upto_nonblank(lines, lines.len() as int);
    assert(lines.take(lines.len() as int) =~= lines);
    assert forall|i: int| 0 <= i < lines.len() && lines[i].len() == 0 implies #[trigger] written_lines(
        Numbering::NonBlank,
        lines,
    )[i] == seq!['\n'] by {
        assert(plain_line(lines[i]) =~= seq!['\n']);
    }
    assert forall|i: int| 0 <= i < lines.len() && lines[i].len() > 0 implies {
        let written = #[trigger] written_lines(Numbering::NonBlank, lines)[i];
        &&& written == numbered_line(numbered_upto(Numbering::NonBlank, lines, i + 1), lines[i])
        &&& numeric_prefix(written) == numbered_upto(Numbering::NonBlank, lines, i) + 1
    } by {
        lemma_numbered_upto_nonblank(lines, i + 1);
        lemma_numbered_line_prefix(numbered_upto(Numbering::NonBlank, lines, i + 1), lines[i]);
    }
}

/// The state of writing one target after another: the numbering in force and
/// the last number given out in the current target.
#[derive(Debug)]
pub struct LineEmitter {
    numbering: Numbering,
    last_num: usize,
}

/// What a `LineEmitter` holds, as mathematical values.
pub struct LineEmitterView {
    /// The numbering in force.
    pub numbering: Numbering,
    /// The last number given out in the current target; 0 before the first.
    pub last_num: nat,
}

impl View for LineEmitter {
    type V = LineEmitterView;

    closed spec fn view(&self) -> LineEmitterView {
        LineEmitterView { numbering: self.numbering, last_num: self.last_num as nat }
    }
}

impl LineEmitter {
    /// An emitter at the start of its first target.
    pub fn new(numbering: Numbering) -> (emitter: LineEmitter)
        ensures
            emitter@.numbering == numbering,
            emitter@.last_num == 0,
    {
        LineEmitter { numbering, last_num: 0 }
    }

    /// The numbering in force.
    pub fn numbering(&self) -> (numbering: Numbering)
        ensures
            numbering == self@.numbering,
    {
        self.numbering
    }

    /// The last number given out in the current target.
    pub fn last_num(&self) -> (last: usize)
        ensures
            last == self@.last_num,
    {
        self.last_num
    }

    /// Starts a new target: its lines are counted from 1 again.
    pub fn begin_target(&mut self)
        ensures
            final(self)@.numbering == old(self)@.numbering,
            final(self)@.last_num == 0,
    {
        self.last_num = 0;
    }

    /// Writes the next line of the current target. A line that carries a
    /// number needs one that the machine can hold.
    pub fn emit(&mut self, text: &str) -> (written: String)
        requires
            is_numbered(old(self)@.numbering, text@) ==> old(self)@.last_num < usize::MAX,
        ensures
            written@ == next_line(old(self)@.numbering, old(self)@.last_num, text@),
            final(self)@.numbering == old(self)@.numbering,
            final(self)@.last_num == next_number(old(self)@.numbering, old(self)@.last_num, text@),
    {
        let counted = match self.numbering {
            Numbering::All => true,
            Numbering::NonBlank => !text.is_empty(),
            Numbering::Off => false,
        };
        proof {
            reveal_strlit("\t");
            reveal_strlit("\n");
        }
        if counted {
            self.last_num = self.last_num + 1;
            let mut written = number_field_string(self.last_num);
            written.append("\t");
            written.append(text);
            written.append("\n");
            assert(written@ =~= numbered_line(self.last_num as nat, text@));
            written
        } else {
            let mut written = String::from_str(text);
            written.append("\n");
            assert(written@ =~= plain_line(text@));
            written
        }
    }
}

/// The line that reports that `target` could not be opened.
pub open spec fn failure_line(target: Seq<char>, reason: Seq<char>) -> Seq<char> {
    target + seq![':', ' '] + reason + seq!['\n']
}

/// Reports that `target` could not be opened for the given reason.
pub fn open_failure(target: &str, reason: &str) -> (line: String)
    ensures
        line@ == failure_line(target@, reason@),
{
    proof {
        reveal_strlit(": ");
        reveal_strlit("\n");
    }
    let mut line = String::from_str(target);
    line.append(": ");
    line.append(reason);
    line.append("\n");
    assert(": "@ =~= seq![':', ' ']);
    assert(line@ =~= failure_line(target@, reason@));
    line
}

/// The failure that ends a run early.
#[derive(Debug)]
pub struct RunError {
    /// The description of the failure, as the system gave it.
    pub message: String,
}

/// What happened at a target.
#[derive(Debug)]
pub enum Event<'a> {
    /// The next target was opened.
    Opened,
    /// The next target, of this name, could not be opened, for this reason.
    Unopened(&'a str, &'a str),
    /// This line was read from the open target; it comes without its line ending.
    Line(&'a str),
    /// Reading the open target failed, for this reason.
    ReadFailed(&'a str),
}

/// What an `Event` holds, as mathematical values.
pub enum EventView {
    Opened,
    Unopened(Seq<char>, Seq<char>),
    Line(Seq<char>),
    ReadFailed(Seq<char>),
}

impl<'a> View for Event<'a> {
    type V = EventView;

    open spec fn view(&self) -> EventView {
        match self {
            Event::Opened => EventView::Opened,
            Event::Unopened(target, reason) => EventView::Unopened(target@, reason@),
            Event::Line(text) => EventView::Line(text@),
            Event::ReadFailed(reason) => EventView::ReadFailed(reason@),
        }
    }
}

/// What is to be done about an event.
#[derive(Debug)]
pub enum Action {
    /// Nothing.
    Nothing,
    /// Write this text to standard output.
    Stdout(String),
    /// Write this text to standard error.
    Stderr(String),
    /// End the run with this failure, leaving the remaining targets alone.
    Stop(RunError),
}

/// What an `Action` holds, as mathematical values.
pub enum ActionView {
    Nothing,
    Stdout(Seq<char>),
    Stderr(Seq<char>),
    Stop(Seq<char>),
}

impl View for Action {
    type V = ActionView;

    open spec fn view(&self) -> ActionView {
        match self {
            Action::Nothing => ActionView::Nothing,
            Action::Stdout(text) => ActionView::Stdout(text@),
            Action::Stderr(text) => ActionView::Stderr(text@),
            Action::Stop(error) => ActionView::Stop(error.message@),
        }
    }
}

/// What is to be done about `event` where the emitter is in `state`. A
/// target that cannot be opened is reported and passed over; a failed read
/// ends the run.
pub open spec fn action_for(state: LineEmitterView, event: EventView) -> ActionView {
    match event {
        EventView::Opened => ActionView::Nothing,
        EventView::Unopened(target, reason) => ActionView::Stderr(failure_line(target, reason)),
        EventView::Line(text) => ActionView::Stdout(next_line(state.numbering, state.last_num, text)),
        EventView::ReadFailed(reason) => ActionView::Stop(reason),
    }
}

/// The state of the emitter after `event`, where it was in `state` before.
/// Every target that is opened is counted from 1.
pub open spec fn state_after(state: LineEmitterView, event: EventView) -> LineEmitterView {
    match event {
        EventView::Opened => LineEmitterView { numbering: state.numbering, last_num: 0 },
        EventView::Line(text) => LineEmitterView {
            numbering: state.numbering,
            last_num: next_number(state.numbering, state.last_num, text),
        },
        _ => state,
    }
}

impl LineEmitter {
    /// Takes note of `event` and says what is to be done about it. A line
    /// that carries a number needs one that the machine can hold.
    pub fn handle(&mut self, event: Event) -> (action: Action)
        requires
            event@ matches EventView::Line(text) ==> is_numbered(old(self)@.numbering, text)
                ==> old(self)@.last_num < usize::MAX,
        ensures
            action@ == action_for(old(self)@, event@),
            final(self)@ == state_after(old(self)@, event@),
    {
        match event {
            Event::Opened => {
                self.begin_target();
                Action::Nothing
            },
            Event::Unopened(target, reason) => Action::Stderr(open_failure(target, reason)),
            Event::Line(text) => Action::Stdout(self.emit(text)),
            Event::ReadFailed(reason) => Action::Stop(RunError { message: String::from_str(reason) }),
        }
    }
}

/// Writes the lines of a target that was just opened to the end of `out`.
pub fn write_lines(emitter: &mut LineEmitter, lines: &Vec<String>, out: &mut String)
    requires
        old(emitter)@.last_num == 0,
    ensures
        final(out)@ == old(out)@ + target_output(old(emitter)@.numbering, texts(lines@)),
        final(emitter)@.numbering == old(emitter)@.numbering,
        final(emitter)@.last_num == last_number(old(emitter)@.numbering, texts(lines@)),
{
    let ghost numbering = emitter@.numbering;
    let ghost before = out@;
    let ghost all = texts(lines@);
    let ghost chunks = written_lines(numbering, all);
    let mut i: usize = 0;
    while i < lines.len()
        invariant
            i <= lines.len(),
            all == texts(lines@),
            chunks == written_lines(numbering, all),
            emitter@.numbering == numbering,
            emitter@.last_num == last_number(numbering, all.take(i as int)),
            out@ == before + chunks.take(i as int).flatten(),
        decreases lines.len() - i,
    {
        proof {
            lemma_last_number_bound(numbering, all.take(i as int));
            lemma_next_line_is_written_line(numbering, all, i as int);
        }
        match emitter.handle(Event::Line(lines[i].as_str())) {
            Action::Stdout(written) => {
                out.append(written.as_str());
            },
            _ => {},
        }
        proof {
            assert(chunks.take(i + 1) =~= chunks.take(i as int).push(chunks[i as int]));
            chunks.take(i as int).lemma_flatten_push(chunks[i as int]);
            assert(out@ =~= before + chunks.take(i + 1).flatten());
        }
        i = i + 1;
    }
    assert(chunks.take(i as int) =~= chunks);
    assert(all.take(i as int) =~= all);
}

/// Writes all the lines of one target, counted from 1.
pub fn target_text(numbering: Numbering, lines: &Vec<String>) -> (out: String)
    ensures
        out@ == target_output(numbering, texts(lines@)),
{
    let mut emitter = LineEmitter::new(numbering);
    let mut out = String::new();
    write_lines(&mut emitter, lines, &mut out);
    assert(out@ =~= target_output(numbering, texts(lines@)));
    out
}

} // verus!
