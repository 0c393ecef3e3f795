//! Sampling a metric out of a captured process listing.
//!
//! A listing command prints one row per process, its columns padded with a
//! variable amount of whitespace and the command name or path in the field
//! at index [`IDENTITY_FIELD`]. [`sample`] scrapes one metric value out of such
//! a capture: it finds the first row whose identity field equals the wanted
//! process name exactly, then reads the field at the metric's column.
//!
//! The [`Runner`] capability stands for whatever produces the value — the
//! real listing command or a scripted stand-in — so that the watch loop can
//! be exercised without touching the operating system.

use vstd::prelude::*;
use vstd::string::*;

use crate::metric::Metric;
use crate::text::{fields, segments, spec_fields, spec_segments, str_eq};

verus! {

/// The zero-based index of the field that identifies a process (its command
/// name or path) within a listing row.
pub const IDENTITY_FIELD: usize = 10;

/// Why a sample could not be produced.
#[derive(Debug, Clone, PartialEq, Eq)]
pub enum Error {
    /// The listing command could not be run at all.
    CommandExecutionError,
    /// The listing command's output was not valid text.
    CommandOutputUtf8DecodeError,
    /// No row's identity field equals the wanted process name.
    ProcessNotFound,
    /// The matching row lacks the metric's field: the output's shape differs
    /// from what this parser assumes.
    CommandOutputFormatError,
}

impl Error {
    /// The text of [`Error::message`].
    pub open spec fn spec_message(&self) -> Seq<char> {
        match self {
            Error::CommandExecutionError => "Error during command execution"@,
            Error::CommandOutputUtf8DecodeError => "Error during command execution output utf8 decode"@,
            Error::ProcessNotFound => "No process found for given name"@,
            Error::CommandOutputFormatError => "Command output format error"@,
        }
    }

    /// The human-readable description of this failure.
    pub fn message(&self) -> (r: String)
        ensures
            r@ == self.spec_message(),
    {
        match self {
            Error::CommandExecutionError => String::from_str("Error during command execution"),
            Error::CommandOutputUtf8DecodeError => String::from_str(
                "Error during command execution output utf8 decode",
            ),
            Error::ProcessNotFound => String::from_str("No process found for given name"),
            Error::CommandOutputFormatError => String::from_str("Command output format error"),
        }
    }
}

impl From<u8> for Error {
    /// Stand in for a sampler failure read out of a raw byte: whatever the
    /// byte, the process was not found.
    fn from(value: u8) -> (r: Error) {
        Error::ProcessNotFound
    }
}

impl vstd::std_specs::convert::FromSpecImpl<u8> for Error {
    open spec fn obeys_from_spec() -> bool {
        true
    }

    open spec fn from_spec(value: u8) -> Error {
        Error::ProcessNotFound
    }
}

/// Produces one raw sample of the given metric for the given process name, or
/// says why it could not. Implementations that consult the operating system
/// live outside this crate; tests script their own.
pub trait Runner {
    /// Sample the metric once. Every call is an independent query.
    fn execute(&self, process_name: &str, metric: &Metric) -> Result<String, Error>;
}

/// The lines of a captured listing, in output order: split on line feeds. A
/// carriage return before a line feed stays in its line, where the field
/// tokenizer then discards it as whitespace; an empty line has no fields and
/// so never matches.
pub open spec fn spec_lines(raw: Seq<char>) -> Seq<Seq<char>> {
    spec_segments(raw, '\n')
}

/// Whether a listing row's identity field equals `name` exactly.
pub open spec fn line_matches(line: Seq<char>, name: Seq<char>) -> bool {
    let f = spec_fields(line);
    f.len() > IDENTITY_FIELD && f[IDENTITY_FIELD as int] == name
}

/// The first of `lines` whose identity field equals `name`, if any.
pub open spec fn spec_find_line(lines: Seq<Seq<char>>, name: Seq<char>) -> Option<Seq<char>>
    decreases lines.len(),
{
    if lines.len() == 0 {
        None
    } else if line_matches(lines[0], name) {
        Some(lines[0])
    } else {
        spec_find_line(lines.drop_first(), name)
    }
}

/// The field of `line` at index `idx`, if the line has that many fields.
pub open spec fn spec_field_at(line: Seq<char>, idx: usize) -> Option<Seq<char>> {
    let f = spec_fields(line);
    if idx < f.len() {
        Some(f[idx as int])
    } else {
        None
    }
}

/// What sampling `metric` for `name` out of the captured listing `raw`
/// returns: the matching row's field at the metric's column, verbatim;
/// [`Error::ProcessNotFound`] when no row matches; and
/// [`Error::CommandOutputFormatError`] when the matching row is too short.
pub open spec fn spec_sample(raw: Seq<char>, name: Seq<char>, metric: Metric) -> Result<
    Seq<char>,
    Error,
> {
    match spec_find_line(spec_lines(raw), name) {
        Option::None => Result::Err(Error::ProcessNotFound),
        Option::Some(line) => match spec_field_at(line, metric.spec_column()) {
            Option::Some(value) => Result::Ok(value),
            Option::None => Result::Err(Error::CommandOutputFormatError),
        },
    }
}

/// Find the first line of `raw` whose identity field equals `process_name`
/// exactly — an exact match on the whole field, never a substring match.
pub fn find_process_line(raw: &str, process_name: &str) -> (r: Option<String>)
    ensures
        r.deep_view() == spec_find_line(spec_lines(raw@), process_name@),
{
    let lines = segments(raw, '\n');
    let ghost all = lines.deep_view();
    let mut k: usize = 0;
    proof {
        assert(all.skip(0) =~= all);
    }
    while k < lines.len()
        invariant
            all == lines.deep_view(),
            all == spec_lines(raw@),
            k <= lines.len(),
            spec_find_line(all, process_name@) == spec_find_line(
                all.skip(k as int),
                process_name@,
            ),
        decreases lines.len() - k,
    {
        proof {
            assert(all.skip(k as int)[0] == all[k as int]);
            assert(all.skip(k as int).drop_first() =~= all.skip(k as int + 1));
        }
        let line = &lines[k];
        let f = fields(line.as_str());
        if f.len() > IDENTITY_FIELD && str_eq(f[IDENTITY_FIELD].as_str(), process_name) {
            proof {
                assert(f.deep_view()[IDENTITY_FIELD as int] == f@[IDENTITY_FIELD as int]@);
                assert(line_matches(all[k as int], process_name@));
            }
            return Some(line.clone());
        }
        proof {
            assert(f.deep_view().len() == f@.len());
            if f.len() > IDENTITY_FIELD {
                assert(f.deep_view()[IDENTITY_FIELD as int] == f@[IDENTITY_FIELD as int]@);
            }
            assert(!line_matches(all[k as int], process_name@));
        }
        k += 1;
    }
    proof {
        assert(all.skip(k as int) =~= Seq::<Seq<char>>::empty());
    }
    None
}

/// Read the field holding `metric`'s value out of one listing row, or `None`
/// when the row has too few fields.
pub fn find_metric(line: &str, metric: &Metric) -> (r: Option<String>)
    ensures
        r.deep_view() == spec_field_at(line@, metric.spec_column()),
{
    let f = fields(line);
    let col = metric.column();
    if col < f.len() {
        proof {
            assert(f.deep_view()[col as int] == f@[col as int]@);
        }
        Some(f[col].clone())
    } else {
        proof {
            assert(f.deep_view().len() == f@.len());
        }
        None
    }
}

/// Sample `metric` for `process_name` out of the captured listing `raw`,
/// exactly as [`spec_sample`] describes.
pub fn sample(raw: &str, process_name: &str, metric: &Metric) -> (r: Result<String, Error>)
    ensures
        (match r {
            Result::Ok(value) => spec_sample(raw@, process_name@, *metric) == Result::<
                Seq<char>,
                Error,
            >::Ok(value@),
            Result::Err(e) => spec_sample(raw@, process_name@, *metric) == Result::<
                Seq<char>,
                Error,
            >::Err(e),
        }),
{
    match find_process_line(raw, process_name) {
        Some(line) => match find_metric(line.as_str(), metric) {
            Some(value) => Ok(value),
            None => Err(Error::CommandOutputFormatError),
        },
        None => Err(Error::ProcessNotFound),
    }
}

} // verus!
