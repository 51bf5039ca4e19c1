//! A whole run: one target after the other, each with what was found there.

use vstd::prelude::*;
use vstd::string::*;
use crate::config::{texts, Config, ConfigView, Numbering};
use crate::emit::{
    failure_line, joined, lemma_unnumbered_output, target_output, write_lines, Action, ActionView,
    Event, LineEmitter, RunError,
};
use crate::lines::{ends_lines, has_crlf, lemma_joined_lines_of, lines_of, split_lines};

verus! {

/// What was found at one target.
#[derive(Debug)]
pub enum Source {
    /// The target was opened and read to its end: its lines, without their
    /// line endings.
    Lines(Vec<String>),
    /// The target could not be opened: the system's description of why.
    Unopened(String),
    /// The target was opened and reading it failed: the lines read before
    /// that, and the description of the failure.
    Broken(Vec<String>, String),
}

/// What a `Source` holds, as mathematical values.
pub enum SourceView {
    Lines(Seq<Seq<char>>),
    Unopened(Seq<char>),
    Broken(Seq<Seq<char>>, Seq<char>),
}

impl View for Source {
    type V = SourceView;

    open spec fn view(&self) -> SourceView {
        match self {
            Source::Lines(lines) => SourceView::Lines(texts(lines@)),
            Source::Unopened(reason) => SourceView::Unopened(reason@),
            Source::Broken(lines, reason) => SourceView::Broken(texts(lines@), reason@),
        }
    }
}

impl Source {
    /// What is found at a target that holds `text` and is read to its end.
    pub fn of_text(text: &str) -> (source: Source)
        ensures
            source@ == SourceView::Lines(lines_of(text@)),
    {
        Source::Lines(split_lines(text))
    }
}

/// What is found at targets that hold `contents`, one text each, and are
/// read to their ends.
pub open spec fn sources_of(contents: Seq<Seq<char>>) -> Seq<SourceView> {
    Seq::new(contents.len(), |i: int| SourceView::Lines(lines_of(contents[i])))
}

/// The view of each source in `v`, in order.
pub open spec fn source_views(v: Seq<Source>) -> Seq<SourceView> {
    Seq::new(v.len(), |i: int| v[i]@)
}

/// What a run writes and how it ends.
#[derive(Debug)]
pub struct Transcript {
    /// The text for standard output.
    pub stdout: String,
    /// The text for standard error: one line for each target that could not
    /// be opened.
    pub stderr: String,
    /// `Ok` unless reading a target failed.
    pub result: Result<(), RunError>,
}

/// What a `Transcript` holds, as mathematical values.
pub struct TranscriptView {
    /// The text for standard output.
    pub stdout: Seq<char>,
    /// The text for standard error.
    pub stderr: Seq<char>,
    /// The description of the failed read that ended the run, if one did.
    pub failure: Option<Seq<char>>,
}

impl View for Transcript {
    type V = TranscriptView;

    open spec fn view(&self) -> TranscriptView {
        TranscriptView {
            stdout: self.stdout@,
            stderr: self.stderr@,
            failure: match self.result {
                Ok(_) => None,
                Err(error) => Some(error.message@),
            },
        }
    }
}

/// The transcript `before` with what `action` asks for taken down. Nothing
/// is taken down once the run has failed.
pub open spec fn recorded(before: TranscriptView, action: ActionView) -> TranscriptView {
    if before.failure is Some {
        before
    } else {
        match action {
            ActionView::Nothing => before,
            ActionView::Stdout(text) => TranscriptView {
                stdout: before.stdout + text,
                stderr: before.stderr,
                failure: None,
            },
            ActionView::Stderr(text) => TranscriptView {
                stdout: before.stdout,
                stderr: before.stderr + text,
                failure: None,
            },
            ActionView::Stop(reason) => TranscriptView {
                stdout: before.stdout,
                stderr: before.stderr,
                failure: Some(reason),
            },
        }
    }
}

impl Transcript {
    /// A transcript in which nothing is taken down yet.
    pub fn new() -> (transcript: Transcript)
        ensures
            transcript@ == (TranscriptView {
                stdout: Seq::empty(),
                stderr: Seq::empty(),
                failure: None,
            }),
    {
        Transcript { stdout: String::new(), stderr: String::new(), result: Ok(()) }
    }

    /// Takes down what `action` asks for. Nothing is taken down once the run
    /// has failed.
    pub fn record(&mut self, action: Action)
        ensures
            final(self)@ == recorded(old(self)@, action@),
    {
        if self.result.is_ok() {
            match action {
                Action::Nothing => {},
                Action::Stdout(text) => {
                    self.stdout.append(text.as_str());
                },
                Action::Stderr(text) => {
                    self.stderr.append(text.as_str());
                },
                Action::Stop(error) => {
                    self.result = Err(error);
                },
            }
        }
    }
}

/// How many targets a run deals with: each target for which a source was
/// handed in.
pub open spec fn paired(targets: Seq<Seq<char>>, sources: Seq<SourceView>) -> int {
    if targets.len() <= sources.len() {
        targets.len() as int
    } else {
        sources.len() as int
    }
}

/// The text for standard output from target `k` on. Every target is numbered
/// on its own, and nothing is read after a target whose reading failed.
pub open spec fn stdout_from(numbering: Numbering, sources: Seq<SourceView>, k: int) -> Seq<char>
    decreases sources.len() - k,
{
    if k < 0 || k >= sources.len() {
        Seq::empty()
    } else {
        match sources[k] {
            SourceView::Lines(lines) => target_output(numbering, lines) + stdout_from(
                numbering,
                sources,
                k + 1,
            ),
            SourceView::Unopened(_) => stdout_from(numbering, sources, k + 1),
            SourceView::Broken(lines, _) => target_output(numbering, lines),
        }
    }
}

/// The text for standard error from target `k` on.
pub open spec fn stderr_from(targets: Seq<Seq<char>>, sources: Seq<SourceView>, k: int) -> Seq<char>
    decreases sources.len() - k,
{
    if k < 0 || k >= sources.len() || k >= targets.len() {
        Seq::empty()
    } else {
        match sources[k] {
            SourceView::Lines(_) => stderr_from(targets, sources, k + 1),
            SourceView::Unopened(reason) => failure_line(targets[k], reason) + stderr_from(
                targets,
                sources,
                k + 1,
            ),
            SourceView::Broken(_, _) => Seq::empty(),
        }
    }
}

/// The description of the first failed read from target `k` on, if there is one.
pub open spec fn failure_from(sources: Seq<SourceView>, k: int) -> Option<Seq<char>>
    decreases sources.len() - k,
{
    if k < 0 || k >= sources.len() {
        None
    } else {
        match sources[k] {
            SourceView::Broken(_, reason) => Some(reason),
            _ => failure_from(sources, k + 1),
        }
    }
}

/// The sources that a run with `config` deals with.
pub open spec fn served(config: ConfigView, sources: Seq<SourceView>) -> Seq<SourceView> {
    sources.take(paired(config.files, sources))
}

/// The text that a run writes to standard output.
pub open spec fn run_stdout(config: ConfigView, sources: Seq<SourceView>) -> Seq<char> {
    stdout_from(config.numbering(), served(config, sources), 0)
}

/// The text that a run writes to standard error.
pub open spec fn run_stderr(config: ConfigView, sources: Seq<SourceView>) -> Seq<char> {
    stderr_from(config.files, served(config, sources), 0)
}

/// The failure that ends a run early, if one does.
pub open spec fn run_failure(config: ConfigView, sources: Seq<SourceView>) -> Option<Seq<char>> {
    failure_from(served(config, sources), 0)
}

/// What the targets from `k` on hold, one after the other: the lines that
/// were read, each followed by a newline, up to the first failed read.
pub open spec fn contents_from(sources: Seq<SourceView>, k: int) -> Seq<char>
    decreases sources.len() - k,
{
    if k < 0 || k >= sources.len() {
        Seq::empty()
    } else {
        match sources[k] {
            SourceView::Lines(lines) => joined(lines) + contents_from(sources, k + 1),
            SourceView::Unopened(_) => contents_from(sources, k + 1),
            SourceView::Broken(lines, _) => joined(lines),
        }
    }
}

/// Without numbering, a run writes to standard output what its targets hold,
/// one after the other and unchanged.
pub proof fn lemma_unnumbered_run(sources: Seq<SourceView>, k: int)
    ensures
        stdout_from(Numbering::Off, sources, k) == contents_from(sources, k),
    decreases sources.len() - k,
{
    if 0 <= k < sources.len() {
        match sources[k] {
            SourceView::Lines(lines) => {
                lemma_unnumbered_output(lines);
                lemma_unnumbered_run(sources, k + 1);
            },
            SourceView::Unopened(_) => {
                lemma_unnumbered_run(sources, k + 1);
            },
            SourceView::Broken(lines, _) => {
                lemma_unnumbered_output(lines);
            },
        }
    }
}

proof fn lemma_unnumbered_contents(contents: Seq<Seq<char>>, k: int)
    requires
        0 <= k <= contents.len(),
        forall|i: int|
            0 <= i < contents.len() ==> ends_lines(#[trigger] contents[i]) && !has_crlf(contents[i]),
    ensures
        stdout_from(Numbering::Off, sources_of(contents), k) == contents.skip(k).flatten(),
    decreases contents.len() - k,
{
    let sources = sources_of(contents);
    let behind = contents.skip(k);
    if k < contents.len() {
        assert(sources[k] == SourceView::Lines(lines_of(contents[k])));
        lemma_unnumbered_output(lines_of(contents[k]));
        lemma_joined_lines_of(contents[k]);
        lemma_unnumbered_contents(contents, k + 1);
        assert(behind.first() == contents[k]);
        assert(behind.drop_first() =~= contents.skip(k + 1));
    }
}

/// Without numbering, a run over targets that are read to their ends writes
/// to standard output what the targets hold, one text after the other and
/// unchanged, where every text ends with a newline or is empty, and no
/// carriage return stands before a newline.
pub proof fn lemma_unnumbered_run_copies(config: ConfigView, contents: Seq<Seq<char>>)
    requires
        !config.number_lines,
        !config.number_nonblank_lines,
        config.files.len() == contents.len(),
        forall|i: int|
            0 <= i < contents.len() ==> ends_lines(#[trigger] contents[i]) && !has_crlf(contents[i]),
    ensures
        run_stdout(config, sources_of(contents)) == contents.flatten(),
        run_stderr(config, sources_of(contents)) == Seq::<char>::empty(),
        run_failure(config, sources_of(contents)) is None,
{
    let sources = sources_of(contents);
    assert(served(config, sources) =~= sources);
    lemma_unnumbered_contents(contents, 0);
    assert(contents.skip(0) =~= contents);
    lemma_no_source_fails(config.files, contents, 0);
}

proof fn lemma_no_source_fails(targets: Seq<Seq<char>>, contents: Seq<Seq<char>>, k: int)
    requires
        0 <= k <= contents.len(),
    ensures
        stderr_from(targets, sources_of(contents), k) == Seq::<char>::empty(),
        failure_from(sources_of(contents), k) is None,
    decreases contents.len() - k,
{
    if k < contents.len() {
        assert(sources_of(contents)[k] == SourceView::Lines(lines_of(contents[k])));
        lemma_no_source_fails(targets, contents, k + 1);
    }
}

proof fn lemma_stdout_behind(numbering: Numbering, first: Seq<SourceView>, rest: Seq<SourceView>, j: int)
    requires
        0 <= j,
    ensures
        stdout_from(numbering, first + rest, first.len() + j) == stdout_from(numbering, rest, j),
    decreases rest.len() - j,
{
    let whole = first + rest;
    if j < rest.len() {
        assert(whole[first.len() + j] == rest[j]);
        lemma_stdout_behind(numbering, first, rest, j + 1);
    }
}

proof fn lemma_stdout_split(numbering: Numbering, first: Seq<SourceView>, rest: Seq<SourceView>, k: int)
    requires
        0 <= k <= first.len(),
        forall|i: int| 0 <= i < first.len() ==> !(#[trigger] first[i] is Broken),
    ensures
        stdout_from(numbering, first + rest, k) == stdout_from(numbering, first, k) + stdout_from(
            numbering,
            rest,
            0,
        ),
    decreases first.len() - k,
{
    let whole = first + rest;
    if k == first.len() {
        lemma_stdout_behind(numbering, first, rest, 0);
        assert(stdout_from(numbering, first, k) + stdout_from(numbering, rest, 0) =~= stdout_from(
            numbering,
            rest,
            0,
        ));
    } else {
        assert(whole[k] == first[k]);
        assert(!(first[k] is Broken));
        lemma_stdout_split(numbering, first, rest, k + 1);
        assert(stdout_from(numbering, whole, k) =~= stdout_from(numbering, first, k) + stdout_from(
            numbering,
            rest,
            0,
        ));
    }
}

/// Every target is numbered on its own. Behind targets that were read to
/// their end or could not be opened, a run writes what it would write had it
/// started there: no count is carried from one target to the next.
pub proof fn lemma_targets_numbered_apart(
    numbering: Numbering,
    first: Seq<SourceView>,
    rest: Seq<SourceView>,
)
    requires
        forall|i: int| 0 <= i < first.len() ==> !(#[trigger] first[i] is Broken),
    ensures
        stdout_from(numbering, first + rest, 0) == stdout_from(numbering, first, 0) + stdout_from(
            numbering,
            rest,
            0,
        ),
{
    lemma_stdout_split(numbering, first, rest, 0);
}

/// A target that could not be opened adds one line to standard error and
/// nothing to standard output, and the run goes on behind it.
pub proof fn lemma_unopened_target_is_skipped(
    numbering: Numbering,
    targets: Seq<Seq<char>>,
    sources: Seq<SourceView>,
    k: int,
)
    requires
        0 <= k < sources.len(),
        k < targets.len(),
        sources[k] is Unopened,
    ensures
        stdout_from(numbering, sources, k) == stdout_from(numbering, sources, k + 1),
        stderr_from(targets, sources, k) == failure_line(targets[k], sources[k]->Unopened_0)
            + stderr_from(targets, sources, k + 1),
        failure_from(sources, k) == failure_from(sources, k + 1),
{
}

/// What a run writes to standard output, and whether it fails, depends on
/// what was found at its targets and not on their names: standard input is
/// dealt with as any file is.
pub proof fn lemma_names_do_not_matter(a: ConfigView, b: ConfigView, sources: Seq<SourceView>)
    requires
        a.files.len() == b.files.len(),
        a.numbering() == b.numbering(),
    ensures
        run_stdout(a, sources) == run_stdout(b, sources),
        run_failure(a, sources) == run_failure(b, sources),
{
}

/// Runs over the targets of `config` in order, `sources[k]` being what was
/// found at target `k`.
///
/// A target that could not be opened is reported on standard error and
/// skipped. A target whose reading failed has the lines read so far written;
/// the run then ends with that failure and leaves the remaining targets
/// alone. Targets for which no source was handed in are not dealt with.
pub fn run(config: Config, sources: Vec<Source>) -> (transcript: Transcript)
    ensures
        transcript@ == (TranscriptView {
            stdout: run_stdout(config@, source_views(sources@)),
            stderr: run_stderr(config@, source_views(sources@)),
            failure: run_failure(config@, source_views(sources@)),
        }),
{
    let targets = config.files();
    let count = if targets.len() <= sources.len() {
        targets.len()
    } else {
        sources.len()
    };
    let ghost numbering = config@.numbering();
    let ghost names = config@.files;
    let ghost all = served(config@, source_views(sources@));
    let mut emitter = LineEmitter::new(config.numbering());
    let mut transcript = Transcript::new();
    let mut k: usize = 0;
    while k < count && transcript.result.is_ok()
        invariant
            k <= count,
            count == all.len(),
            count <= sources.len(),
            count <= targets.len(),
            names == texts(targets@),
            emitter@.numbering == numbering,
            forall|i: int| 0 <= i < count ==> all[i] == (#[trigger] sources@[i])@,
            match transcript.result {
                Ok(_) => {
                    &&& transcript.stdout@ + stdout_from(numbering, all, k as int) == stdout_from(
                        numbering,
                        all,
                        0,
                    )
                    &&& transcript.stderr@ + stderr_from(names, all, k as int) == stderr_from(names, all, 0)
                    &&& failure_from(all, k as int) == failure_from(all, 0)
                },
                Err(e) => {
                    &&& transcript.stdout@ == stdout_from(numbering, all, 0)
                    &&& transcript.stderr@ == stderr_from(names, all, 0)
                    &&& failure_from(all, 0) == Some(e.message@)
                },
            },
        decreases
                count - k,
                if transcript.result.is_ok() {
                    1int
                } else {
                    0int
                },
    {
        let ghost out_before = transcript.stdout@;
        let ghost err_before = transcript.stderr@;
        assert(all[k as int] == sources@[k as int]@);
        match &sources[k] {
            Source::Lines(lines) => {
                transcript.record(emitter.handle(Event::Opened));
                write_lines(&mut emitter, lines, &mut transcript.stdout);
                assert(transcript.stdout@ + stdout_from(numbering, all, k + 1) =~= out_before
                    + stdout_from(numbering, all, k as int));
                k = k + 1;
            },
            Source::Unopened(reason) => {
                transcript.record(emitter.handle(Event::Unopened(targets[k].as_str(), reason.as_str())));
                assert(transcript.stderr@ + stderr_from(names, all, k + 1) =~= err_before + stderr_from(
                    names,
                    all,
                    k as int,
                ));
                k = k + 1;
            },
            Source::Broken(lines, reason) => {
                transcript.record(emitter.handle(Event::Opened));
                write_lines(&mut emitter, lines, &mut transcript.stdout);
                transcript.record(emitter.handle(Event::ReadFailed(reason.as_str())));
                assert(stderr_from(names, all, k as int) =~= Seq::<char>::empty());
                assert(err_before + Seq::<char>::empty() =~= err_before);
            },
        }
    }
    proof {
        if transcript.result.is_ok() {
            assert(transcript.stdout@ + Seq::<char>::empty() =~= transcript.stdout@);
            assert(transcript.stderr@ + Seq::<char>::empty() =~= transcript.stderr@);
        }
    }
    transcript
}

} // verus!
