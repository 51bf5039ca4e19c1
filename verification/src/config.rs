//! The settings of one run: what to read and which lines to number.

use vstd::prelude::*;
use vstd::string::*;

verus! {

/// The target that stands for standard input.
pub const STDIN: &'static str = "-";

/// The characters of `STDIN`.
pub open spec fn stdin_target() -> Seq<char> {
    seq!['-']
}

/// The text of each string in `v`, in order.
pub open spec fn texts(v: Seq<String>) -> Seq<Seq<char>> {
    Seq::new(v.len(), |i: int| v[i]@)
}

/// The targets of a run that was asked to read `files`: the files
/// themselves, or standard input alone where none is named.
pub open spec fn targets_or_stdin(files: Seq<Seq<char>>) -> Seq<Seq<char>> {
    if files.len() == 0 {
        seq![stdin_target()]
    } else {
        files
    }
}

/// Which lines of a target get a number.
#[derive(Clone, Copy, Debug, PartialEq, Eq, Structural)]
pub enum Numbering {
    /// No line is numbered.
    Off,
    /// Lines that are not empty are numbered; empty lines are skipped.
    NonBlank,
    /// Every line is numbered.
    All,
}

/// The numbering that two flags ask for. Numbering every line wins over
/// numbering the lines that are not empty.
pub open spec fn numbering_of(number_lines: bool, number_nonblank_lines: bool) -> Numbering {
    if number_lines {
        Numbering::All
    } else if number_nonblank_lines {
        Numbering::NonBlank
    } else {
        Numbering::Off
    }
}

/// What a `Config` holds, as mathematical values.
pub struct ConfigView {
    /// The targets, in the order in which they are read. Never empty.
    pub files: Seq<Seq<char>>,
    /// Number every line.
    pub number_lines: bool,
    /// Number the lines that are not empty.
    pub number_nonblank_lines: bool,
}

impl ConfigView {
    /// The numbering that this configuration asks for.
    pub open spec fn numbering(self) -> Numbering {
        numbering_of(self.number_lines, self.number_nonblank_lines)
    }
}

/// The settings of one run. A configuration always names at least one target.
#[derive(Debug)]
pub struct Config {
    files: Vec<String>,
    number_lines: bool,
    number_nonblank_lines: bool,
}

impl View for Config {
    type V = ConfigView;

    closed spec fn view(&self) -> ConfigView {
        ConfigView {
            files: texts(self.files@),
            number_lines: self.number_lines,
            number_nonblank_lines: self.number_nonblank_lines,
        }
    }
}

impl Config {
    #[verifier::type_invariant]
    spec fn has_target(&self) -> bool {
        self.files@.len() >= 1
    }

    /// A configuration that reads `files` in order, or standard input where
    /// `files` is empty.
    pub fn new(files: Vec<String>, number_lines: bool, number_nonblank_lines: bool) -> (config: Config)
        ensures
            config@.files == targets_or_stdin(texts(files@)),
            config@.number_lines == number_lines,
            config@.number_nonblank_lines == number_nonblank_lines,
    {
        if files.len() == 0 {
            let mut only_stdin: Vec<String> = Vec::new();
            proof {
                reveal_strlit("-");
            }
            assert(STDIN@ =~= stdin_target());
            only_stdin.push(String::from_str(STDIN));
            assert(texts(only_stdin@) =~= seq![stdin_target()]);
            Config { files: only_stdin, number_lines, number_nonblank_lines }
        } else {
            Config { files, number_lines, number_nonblank_lines }
        }
    }

    /// The targets, in the order in which they are read.
    pub fn files(&self) -> (files: &Vec<String>)
        ensures
            texts(files@) == self@.files,
            files@.len() >= 1,
    {
        proof {
            use_type_invariant(self);
        }
        &self.files
    }

    /// Whether every line is numbered.
    pub fn number_lines(&self) -> (flag: bool)
        ensures
            flag == self@.number_lines,
    {
        self.number_lines
    }

    /// Whether the lines that are not empty are numbered.
    pub fn number_nonblank_lines(&self) -> (flag: bool)
        ensures
            flag == self@.number_nonblank_lines,
    {
        self.number_nonblank_lines
    }

    /// The numbering that this configuration asks for.
    pub fn numbering(&self) -> (numbering: Numbering)
        ensures
            numbering == self@.numbering(),
    {
        if self.number_lines {
            Numbering::All
        } else if self.number_nonblank_lines {
            Numbering::NonBlank
        } else {
            Numbering::Off
        }
    }
}

/// Whether `target` stands for standard input.
pub fn is_stdin(target: &str) -> (r: bool)
    ensures
        r == (target@ == stdin_target()),
{
    if target.unicode_len() == 1 {
        let first = target.get_char(0);
        assert(first == '-' ==> target@ =~= stdin_target());
        first == '-'
    } else {
        false
    }
}

} // verus!
