//! From the words of a command line to a `Config`.
//!
//! The command line is read by `clap`. What `clap` makes of a command line is
//! taken on trust and goes by the name `clap_matches`; everything around the
//! call is verified. The layout declares the switch that asks for the version
//! itself, so that `clap` adds none of its own and writes nothing.

use clap::{App, Arg};
use vstd::prelude::*;
use vstd::string::*;
use crate::config::{targets_or_stdin, texts, Config, ConfigView};

verus! {

/// The arguments that `clap` found on a command line.
#[verifier::external_type_specification]
#[verifier::external_body]
pub struct ExArgMatches<'a>(clap::ArgMatches<'a>);

/// How the command line is laid out: one operand that takes the targets, two
/// switches that choose the numbering, and one that asks for the version.
pub struct Usage {
    /// The program's name, as the help text shows it.
    pub program: &'static str,
    /// The program's version.
    pub version: &'static str,
    /// One line on what the program does.
    pub about: &'static str,
    /// The name under which the targets are looked up.
    pub files: &'static str,
    /// The word that stands for a target in the help text.
    pub files_label: &'static str,
    /// The help text of the targets.
    pub files_help: &'static str,
    /// Whether the targets count as required.
    pub files_required: bool,
    /// The least number of targets that a command line may name once it names any.
    pub files_least: u64,
    /// The target that is read where the command line names none.
    pub fallback: &'static str,
    /// The name under which the switch that numbers every line is looked up.
    pub number: &'static str,
    /// Its short form, without the hyphen.
    pub number_short: &'static str,
    /// Its long form, without the hyphens.
    pub number_long: &'static str,
    /// Its help text.
    pub number_help: &'static str,
    /// The name under which the switch that numbers the lines that are not
    /// empty is looked up.
    pub nonblank: &'static str,
    /// Its short form, without the hyphen.
    pub nonblank_short: &'static str,
    /// Its long form, without the hyphens.
    pub nonblank_long: &'static str,
    /// Its help text.
    pub nonblank_help: &'static str,
    /// The name under which the switch that asks for the version is looked up.
    pub show_version: &'static str,
    /// Its short form, without the hyphen.
    pub show_version_short: &'static str,
    /// Its long form, without the hyphens.
    pub show_version_long: &'static str,
    /// Its help text.
    pub show_version_help: &'static str,
}

/// Why a command line did not give a configuration.
#[derive(Debug)]
pub struct ArgError {
    /// What to tell the user: on standard error where the command line was
    /// malformed, else on standard output.
    pub message: String,
    /// Whether the command line was malformed. Where it was not, it asked
    /// for the help text or for the version, and `message` holds that.
    pub malformed: bool,
}

/// What `clap` makes of the command line `args` under `usage`, `args[0]`
/// being the program's name. `Ok` holds the arguments that it found, by
/// name, each with its values. `Err` says that it found none: `Err(true)`
/// where the command line is malformed, `Err(false)` where it asks for the
/// help text.
pub uninterp spec fn clap_matches(usage: Usage, args: Seq<Seq<char>>) -> Result<
    Map<Seq<char>, Seq<Seq<char>>>,
    bool,
>;

/// The arguments that `matches` holds, by name, each with its values in the
/// order in which they were given. A switch that was given has no values.
pub uninterp spec fn matched(matches: clap::ArgMatches<'static>) -> Map<Seq<char>, Seq<Seq<char>>>;

/// The layout of this program's command line.
pub open spec fn command_line() -> Usage {
    Usage {
        program: "catr",
        version: "0.1.0",
        about: "Concatenate files, optionally numbering their lines",
        files: "files",
        files_label: "FILES",
        files_help: "Input files, or - for standard input",
        files_required: true,
        files_least: 1,
        fallback: "-",
        number: "number_lines",
        number_short: "n",
        number_long: "number",
        number_help: "Number all output lines",
        nonblank: "number_nonblank_lines",
        nonblank_short: "b",
        nonblank_long: "number-nonblank",
        nonblank_help: "Number nonempty output lines",
        show_version: "version",
        show_version_short: "V",
        show_version_long: "version",
        show_version_help: "Prints version information",
    }
}

/// Calls `clap`: builds the command that `usage` describes with `App::new`
/// and `Arg::with_name`, the switch that numbers every line being in conflict
/// with the other, and has `App::get_matches_from_safe` read `args`. Of an
/// error it hands on what `Error::use_stderr` says and the message.
///
/// Trusted, of this program's layout and of no other: whether `clap` accepts
/// the command line, what it finds on one that it accepts, and whether one
/// that it does not accept is malformed or asks for the help text, depends on
/// `args` alone. Nothing is claimed of the message, which `clap` colours to
/// suit the terminal. With the long form `version` declared in the layout,
/// `clap` adds no version switch of its own and writes nothing.
#[verifier::external_body]
fn parse(usage: &Usage, args: &Vec<String>) -> (r: Result<clap::ArgMatches<'static>, (bool, String)>)
    requires
        *usage == command_line(),
    ensures
        match r {
            Ok(matches) => clap_matches(*usage, texts(args@)) == Ok::<
                Map<Seq<char>, Seq<Seq<char>>>,
                bool,
            >(matched(matches)),
            Err(refusal) => clap_matches(*usage, texts(args@)) == Err::<
                Map<Seq<char>, Seq<Seq<char>>>,
                bool,
            >(refusal.0),
        },
{
    App::new(usage.program).version(usage.version).about(usage.about)
        .arg(Arg::with_name(usage.files).value_name(usage.files_label).help(usage.files_help)
            .required(usage.files_required).min_values(usage.files_least)
            .default_value(usage.fallback))
        .arg(Arg::with_name(usage.number).short(usage.number_short).long(usage.number_long)
            .help(usage.number_help).conflicts_with(usage.nonblank))
        .arg(Arg::with_name(usage.nonblank).short(usage.nonblank_short)
            .long(usage.nonblank_long).help(usage.nonblank_help))
        .arg(Arg::with_name(usage.show_version).short(usage.show_version_short)
            .long(usage.show_version_long).help(usage.show_version_help))
        .get_matches_from_safe(args)
        .map_err(|e| (e.use_stderr(), e.message))
}

/// Calls `ArgMatches::values_of_lossy`, which looks `name` up among the
/// arguments that were found and hands out its values as strings.
///
/// Trusted: the result is `Some` exactly where `name` is among them, and
/// then holds the values in their order.
#[verifier::external_body]
fn values_of(matches: &clap::ArgMatches<'static>, name: &str) -> (r: Option<Vec<String>>)
    ensures
        r is Some <==> matched(*matches).contains_key(name@),
        r matches Some(values) ==> texts(values@) == matched(*matches)[name@],
{
    matches.values_of_lossy(name)
}

/// The layout of this program's command line.
pub fn usage() -> (usage: Usage)
    ensures
        usage == command_line(),
{
    Usage {
        program: "catr",
        version: "0.1.0",
        about: "Concatenate files, optionally numbering their lines",
        files: "files",
        files_label: "FILES",
        files_help: "Input files, or - for standard input",
        files_required: true,
        files_least: 1,
        fallback: "-",
        number: "number_lines",
        number_short: "n",
        number_long: "number",
        number_help: "Number all output lines",
        nonblank: "number_nonblank_lines",
        nonblank_short: "b",
        nonblank_long: "number-nonblank",
        nonblank_help: "Number nonempty output lines",
        show_version: "version",
        show_version_short: "V",
        show_version_long: "version",
        show_version_help: "Prints version information",
    }
}

/// The line that answers a command line that asks for the version.
pub open spec fn version_line(usage: Usage) -> Seq<char> {
    usage.program@ + seq![' '] + usage.version@
}

/// The targets that a command line names: the values that were found for
/// them, or standard input where there are none.
pub open spec fn targets_found(files: Option<Seq<Seq<char>>>) -> Seq<Seq<char>> {
    targets_or_stdin(
        match files {
            Some(values) => values,
            None => Seq::empty(),
        },
    )
}

/// The values of the argument `name` among `found`, if it is among them.
pub open spec fn values_found(found: Map<Seq<char>, Seq<Seq<char>>>, name: Seq<char>) -> Option<
    Seq<Seq<char>>,
> {
    if found.contains_key(name) {
        Some(found[name])
    } else {
        None
    }
}

/// The configuration that the arguments found on a command line stand for:
/// the targets that were named, or standard input where none was, and a flag
/// for each numbering switch that was given.
pub open spec fn config_of(usage: Usage, found: Map<Seq<char>, Seq<Seq<char>>>) -> ConfigView {
    ConfigView {
        files: targets_found(values_found(found, usage.files@)),
        number_lines: found.contains_key(usage.number@),
        number_nonblank_lines: found.contains_key(usage.nonblank@),
    }
}

/// Makes a configuration of what was found on a command line: the values of
/// the targets if there are any, and whether each switch was given.
///
/// A command line that asks for the version gets the version line and no
/// configuration. Any other gets the configuration that it stands for.
pub fn configure(
    files: Option<Vec<String>>,
    number_lines: bool,
    number_nonblank_lines: bool,
    version: bool,
) -> (r: Result<Config, ArgError>)
    ensures
        match r {
            Ok(config) => {
                &&& !version
                &&& config@.files == targets_found(
                    match files {
                        Some(values) => Some(texts(values@)),
                        None => None,
                    },
                )
                &&& config@.number_lines == number_lines
                &&& config@.number_nonblank_lines == number_nonblank_lines
            },
            Err(error) => {
                &&& version
                &&& !error.malformed
                &&& error.message@ == version_line(command_line())
            },
        },
{
    if version {
        let usage = usage();
        proof {
            reveal_strlit(" ");
        }
        let mut message = String::from_str(usage.program);
        message.append(" ");
        message.append(usage.version);
        assert(message@ =~= version_line(command_line()));
        Err(ArgError { message, malformed: false })
    } else {
        let named = match files {
            Some(values) => values,
            None => Vec::new(),
        };
        assert(files is None ==> texts(named@) =~= Seq::<Seq<char>>::empty());
        Ok(Config::new(named, number_lines, number_nonblank_lines))
    }
}

/// Reads the command line `args`, `args[0]` being the program's name.
///
/// Where `clap` accepts the command line, the result is the configuration
/// that it stands for, or the version line where it asks for the version.
/// Where `clap` does not, the result is an error with the message for the
/// user, which is the help text where the command line asks for it and is not
/// malformed.
pub fn get_args(args: Vec<String>) -> (r: Result<Config, ArgError>)
    ensures
        match clap_matches(command_line(), texts(args@)) {
            Ok(found) => if found.contains_key(command_line().show_version@) {
                &&& r matches Err(error)
                &&& !error.malformed
                &&& error.message@ == version_line(command_line())
            } else {
                &&& r matches Ok(config)
                &&& config@ == config_of(command_line(), found)
            },
            Err(malformed) => r matches Err(error) && error.malformed == malformed,
        },
{
    let usage = usage();
    match parse(&usage, &args) {
        Ok(matches) => {
            let files = values_of(&matches, usage.files);
            let number_lines = values_of(&matches, usage.number).is_some();
            let number_nonblank_lines = values_of(&matches, usage.nonblank).is_some();
            let version = values_of(&matches, usage.show_version).is_some();
            configure(files, number_lines, number_nonblank_lines, version)
        },
        Err(refusal) => Err(ArgError { message: refusal.1, malformed: refusal.0 }),
    }
}

} // verus!
