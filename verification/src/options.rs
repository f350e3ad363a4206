//! The command line: which geometry and which trace file a run is asked for.
//!
//! The arguments are taken apart by `getopts`. What that crate returns is not proved
//! here: the items below say what this module relies on.

use crate::number::{decimal_u32, parse_decimal_u32};
use vstd::prelude::*;
use vstd::slice::slice_subrange;
use vstd::string::is_ascii;

verus! {

/// `getopts::Options`, a list of declared options and the way to parse with them.
#[verifier::external_type_specification]
#[verifier::external_body]
pub struct ExOptions(getopts::Options);

/// `getopts::Matches`, what a successful parse found.
#[verifier::external_type_specification]
#[verifier::external_body]
pub struct ExMatches(getopts::Matches);

/// `getopts::Fail`, why a parse was refused.
#[verifier::external_type_specification]
#[verifier::external_body]
pub struct ExFail(getopts::Fail);

/// The short and the long name of each option that `options` declares, in the order of
/// declaration. A name that an option does not have is empty.
pub uninterp spec fn declared(options: getopts::Options) -> Seq<(Seq<char>, Seq<char>)>;

/// Every option of `options` is one that may occur at most once and takes a value,
/// free arguments may stand anywhere among the options, and a long name needs two
/// dashes: `options` is as `Options::new` and `optopt` alone leave it.
pub uninterp spec fn optopt_only(options: getopts::Options) -> bool;

/// What `Options::parse` finds in `args` when the options are `declared`, all of them
/// declared by `optopt`: `None` where it refuses the arguments, else for each name of a
/// declared option the value that the arguments give it, if they give one.
pub uninterp spec fn parsed(declared: Seq<(Seq<char>, Seq<char>)>, args: Seq<Seq<char>>) -> Option<
    Map<Seq<char>, Option<Seq<char>>>,
>;

/// For each option name that `matches` knows, what `Matches::opt_str` returns for it.
pub uninterp spec fn values_of(matches: getopts::Matches) -> Map<Seq<char>, Option<Seq<char>>>;

/// `name` is the short or the long name of one of `declared`.
pub open spec fn is_declared(declared: Seq<(Seq<char>, Seq<char>)>, name: Seq<char>) -> bool {
    name.len() > 0 && exists|i: int|
        0 <= i < declared.len() && ((#[trigger] declared[i]).0 == name || declared[i].1 == name)
}

/// Each of `declared` has a short or a long name.
pub open spec fn all_named(declared: Seq<(Seq<char>, Seq<char>)>) -> bool {
    forall|i: int|
        0 <= i < declared.len() ==> (#[trigger] declared[i]).0.len() + declared[i].1.len() > 0
}

/// The text of each of `args`.
pub open spec fn texts(args: Seq<String>) -> Seq<Seq<char>> {
    args.map_values(|arg: String| arg@)
}

/// The text of `value`, if there is one.
pub open spec fn text_of(value: Option<String>) -> Option<Seq<char>> {
    match value {
        Some(text) => Some(text@),
        None => None,
    }
}

/// `getopts::Options::new`: the result declares no option, and parses in the plain
/// style that `optopt_only` describes.
pub assume_specification[ getopts::Options::new ]() -> (options: getopts::Options)
    ensures
        declared(options) == Seq::<(Seq<char>, Seq<char>)>::empty(),
        optopt_only(options),
;

/// `getopts::Options::optopt`: adds one option that may occur at most once and takes
/// a value, after those already declared, and changes nothing else. The call panics
/// unless the short name is empty or one byte and the long name is empty or more than
/// one byte; the `requires` leaves those names out.
#[verifier::external_body]
fn declare(options: &mut getopts::Options, short_name: &str, long_name: &str, desc: &str, hint: &str)
    requires
        is_ascii(short_name),
        short_name@.len() <= 1,
        long_name@.len() != 1,
    ensures
        declared(*final(options)) == declared(*old(options)).push((short_name@, long_name@)),
        optopt_only(*final(options)) == optopt_only(*old(options)),
{
    options.optopt(short_name, long_name, desc, hint);
}

/// `getopts::Options::parse`: the outcome is the one that `parsed` names, and a
/// successful parse knows exactly the names that were declared. The call panics where
/// an option has neither name; the `requires` leaves that out.
#[verifier::external_body]
fn parse(options: &getopts::Options, args: &[String]) -> (outcome: Result<
    getopts::Matches,
    getopts::Fail,
>)
    requires
        optopt_only(*options),
        all_named(declared(*options)),
    ensures
        match outcome {
            Ok(matches) => parsed(declared(*options), texts(args@)) == Some(values_of(matches))
                && forall|name: Seq<char>|
                values_of(matches).dom().contains(name) <==> is_declared(declared(*options), name),
            Err(_) => parsed(declared(*options), texts(args@)) is None,
        },
{
    options.parse(args)
}

/// `getopts::Matches::opt_str`: the value that the arguments gave to the option
/// `name`, if they gave one. The call panics where `name` is not the name of a declared
/// option; the `requires` leaves that out.
pub assume_specification[ getopts::Matches::opt_str ](
    matches: &getopts::Matches,
    name: &str,
) -> (value: Option<String>)
    requires
        values_of(*matches).dom().contains(name@),
    ensures
        text_of(value) == values_of(*matches)[name@],
;

/// What a run is asked to do.
#[derive(Debug, PartialEq, Eq)]
pub struct Settings {
    /// Number of set-index bits.
    pub s: u32,
    /// Number of lines per set.
    pub e: u32,
    /// Number of block-offset bits.
    pub b: u32,
    /// Name of the trace file.
    pub trace_file: String,
}

/// Why the command line is refused.
#[derive(Debug, PartialEq, Eq)]
pub enum UsageError {
    /// Fewer than three arguments after the program's name.
    TooFewArguments,
    /// `getopts` refused the arguments.
    Rejected(getopts::Fail),
    /// The value of `-s`, `-b` or `-E` is no number of 32 bits. It holds that value.
    InvalidNumber(String),
}

/// The options of the command line: `-s`, `-E`, `-b` and `-t`, each with a value.
pub open spec fn flags() -> Seq<(Seq<char>, Seq<char>)> {
    seq![
        (seq!['s'], Seq::empty()),
        (seq!['E'], Seq::empty()),
        (seq!['b'], Seq::empty()),
        (seq!['t'], Seq::empty()),
    ]
}

/// The number that the text `value` spells in decimal, if it spells one.
pub open spec fn number_in(value: Seq<char>) -> Option<u32> {
    decimal_u32(vstd::utf8::encode_utf8(value))
}

/// `value` is no number, though it is there.
pub open spec fn is_faulty(value: Option<Seq<char>>) -> bool {
    value matches Some(text) && number_in(text) is None
}

/// The number that `value` spells, or zero where there is no value.
pub open spec fn number_or_zero(value: Option<Seq<char>>) -> u32 {
    match value {
        Some(text) => match number_in(text) {
            Some(n) => n,
            None => 0,
        },
        None => 0,
    }
}

/// `outcome` is what the values of `-s`, `-E`, `-b` and `-t` ask for. A value that is
/// missing counts as zero, or as the empty name. The first value among those of `-s`,
/// `-b` and `-E`, in this order, that is no number is refused; where each is one, the
/// settings hold the three numbers and the name.
pub open spec fn asks_for(
    outcome: Result<Settings, UsageError>,
    s: Option<Seq<char>>,
    e: Option<Seq<char>>,
    b: Option<Seq<char>>,
    t: Option<Seq<char>>,
) -> bool {
    if is_faulty(s) {
        outcome matches Err(UsageError::InvalidNumber(text)) && Some(text@) == s
    } else if is_faulty(b) {
        outcome matches Err(UsageError::InvalidNumber(text)) && Some(text@) == b
    } else if is_faulty(e) {
        outcome matches Err(UsageError::InvalidNumber(text)) && Some(text@) == e
    } else {
        &&& outcome matches Ok(settings)
        &&& settings.s == number_or_zero(s)
        &&& settings.e == number_or_zero(e)
        &&& settings.b == number_or_zero(b)
        &&& settings.trace_file@ == match t {
            Some(name) => name,
            None => Seq::empty(),
        }
    }
}

/// Reads the value of a numeric option: zero where it is missing, the value itself
/// where it is no number.
fn read_number(value: Option<String>) -> (number: Result<u32, String>)
    ensures
        match number {
            Ok(n) => !is_faulty(text_of(value)) && n == number_or_zero(text_of(value)),
            Err(text) => is_faulty(text_of(value)) && Some(text@) == text_of(value),
        },
{
    match value {
        None => Ok(0),
        Some(text) => {
            let found = parse_decimal_u32(text.as_str().as_bytes());
            match found {
                Some(n) => Ok(n),
                None => Err(text),
            }
        },
    }
}

impl Settings {
    /// The settings that the values of `-s`, `-E`, `-b` and `-t` ask for.
    pub fn from_values(
        s: Option<String>,
        e: Option<String>,
        b: Option<String>,
        t: Option<String>,
    ) -> (outcome: Result<Settings, UsageError>)
        ensures
            asks_for(outcome, text_of(s), text_of(e), text_of(b), text_of(t)),
    {
        let s: u32 = match read_number(s) {
            Ok(n) => n,
            Err(text) => {
                return Err(UsageError::InvalidNumber(text));
            },
        };
        let b: u32 = match read_number(b) {
            Ok(n) => n,
            Err(text) => {
                return Err(UsageError::InvalidNumber(text));
            },
        };
        let e: u32 = match read_number(e) {
            Ok(n) => n,
            Err(text) => {
                return Err(UsageError::InvalidNumber(text));
            },
        };
        let trace_file = match t {
            Some(name) => name,
            None => String::new(),
        };
        Ok(Settings { s, e, b, trace_file })
    }
}

/// Reads the command line `args`, the program's name first. With fewer than three
/// arguments after the name, or where `getopts` refuses them, there are no settings;
/// else the settings are those that the values of the four options ask for.
pub fn parse_arguments(args: &Vec<String>) -> (outcome: Result<Settings, UsageError>)
    ensures
        args@.len() < 4 ==> outcome == Err::<Settings, UsageError>(UsageError::TooFewArguments),
        args@.len() >= 4 ==> match parsed(flags(), texts(args@.skip(1))) {
            None => outcome matches Err(UsageError::Rejected(_)),
            Some(values) => asks_for(
                outcome,
                values[seq!['s']],
                values[seq!['E']],
                values[seq!['b']],
                values[seq!['t']],
            ),
        },
{
    if args.len() < 4 {
        return Err(UsageError::TooFewArguments);
    }
    proof {
        reveal_strlit("s");
        reveal_strlit("E");
        reveal_strlit("b");
        reveal_strlit("t");
        reveal_strlit("");
        assert("s"@ =~= seq!['s']);
        assert("E"@ =~= seq!['E']);
        assert("b"@ =~= seq!['b']);
        assert("t"@ =~= seq!['t']);
        assert(""@ =~= Seq::<char>::empty());
    }
    let mut options = getopts::Options::new();
    declare(&mut options, "s", "", "Number of set index bits", "S");
    declare(&mut options, "E", "", "Number of lines per set", "E");
    declare(&mut options, "b", "", "Number of block offset bits", "B");
    declare(&mut options, "t", "", "Name of valgrind trace file", "FILE");
    assert(declared(options) =~= flags());
    let rest = slice_subrange(args.as_slice(), 1, args.len());
    match parse(&options, rest) {
        Err(fail) => Err(UsageError::Rejected(fail)),
        Ok(matches) => {
            assert(is_declared(flags(), seq!['s']));
            assert(is_declared(flags(), seq!['E']));
            assert(is_declared(flags(), seq!['b']));
            assert(is_declared(flags(), seq!['t']));
            let s = matches.opt_str("s");
            let b = matches.opt_str("b");
            let e = matches.opt_str("E");
            let t = matches.opt_str("t");
            Settings::from_values(s, e, b, t)
        },
    }
}

} // verus!
