use crate::date::{first_of, read_by, Date};
use crate::errors::Error;
use crate::load::InputData;
use crate::run::{kind_of, rustc_name, RunView, TestRun};
use crate::text::{find, first_occurrence, occurs};
use crate::timing::{by_crate_of, CrateSample};
use vstd::prelude::*;

verus! {

/// What one execution reported: the commit and the date of its header, the
/// date as the free text it was written in, and its timings crate by crate.
#[derive(Debug)]
pub struct Document {
    pub commit: String,
    pub date: String,
    pub times: Vec<CrateSample>,
}

/// What a file was found to hold.
#[derive(Debug)]
pub enum Contents {
    /// Nothing at all.
    Empty,
    /// Something that is not a document.
    Unreadable,
    /// A document.
    Document(Document),
}

/// A file of a source: its name and what it holds.
#[derive(Debug)]
pub struct SourceFile {
    pub name: String,
    pub contents: Contents,
}

/// What parts the name of a test from the date in a file's name.
pub open spec fn separator() -> Seq<char> {
    "--"@
}

/// What ends the date in a file's name.
pub open spec fn extension() -> Seq<char> {
    ".json"@
}

/// The format of the date in a document's header: the day of the week, the
/// month, the day, the time, the year, and the offset from UTC.
pub open spec fn header_format() -> Seq<char> {
    "%a %b %e %T %Y %z"@
}

/// The format of the date in a file's name where it has seconds.
pub open spec fn name_format_with_seconds() -> Seq<char> {
    "%Y-%m-%d-%H-%M-%S"@
}

/// The format of the date in a file's name where it has no seconds.
pub open spec fn name_format() -> Seq<char> {
    "%Y-%m-%d-%H-%M"@
}

/// The name of the test in a file's name: what stands before the first separator.
pub open spec fn test_name(filename: Seq<char>) -> Seq<char> {
    filename.subrange(0, first_occurrence(filename, separator()))
}

/// Where the date starts in a file's name: behind the first separator.
pub open spec fn date_start(filename: Seq<char>) -> int {
    first_occurrence(filename, separator()) + separator().len()
}

/// The date in a file's name as text: what stands between the first
/// separator and the first extension, where the name has them in that order.
pub open spec fn date_text(filename: Seq<char>) -> Option<Seq<char>> {
    if occurs(filename, separator()) && occurs(filename, extension()) && date_start(filename)
        <= first_occurrence(filename, extension()) {
        Some(filename.subrange(date_start(filename), first_occurrence(filename, extension())))
    } else {
        None
    }
}

/// The date that a text from a file's name gives: read with seconds, and
/// where that fails, without.
pub open spec fn name_date(text: Seq<char>) -> Result<Date, Error> {
    first_of(read_by(text, name_format_with_seconds()), read_by(text, name_format()))
}

/// The date that a file's name gives.
pub open spec fn filename_date(filename: Seq<char>) -> Result<Date, Error> {
    match date_text(filename) {
        Some(text) => name_date(text),
        None => Err(Error::UnresolvableDate),
    }
}

/// The date of a document: that of its header, and where the header gives
/// none, that of its file's name.
pub open spec fn document_date(header: Seq<char>, filename: Seq<char>) -> Result<Date, Error> {
    first_of(read_by(header, header_format()), filename_date(filename))
}

/// The date of the document that a file holds; none where it holds no document.
pub open spec fn file_date(file: SourceFile) -> Result<Date, Error> {
    match file.contents {
        Contents::Document(document) => document_date(document.date@, file.name@),
        _ => Err(Error::UnresolvableDate),
    }
}

/// The run that a file holds by itself once the date of its document has
/// been looked for, or why it holds none: the file is empty or unreadable,
/// its document lists no timings, or its name has no separator; or no date
/// was found.
pub open spec fn run_dated(file: SourceFile, date: Result<Date, Error>) -> Result<RunView, Error> {
    match file.contents {
        Contents::Empty => Err(Error::MalformedInput),
        Contents::Unreadable => Err(Error::MalformedInput),
        Contents::Document(document) => if document.times@.len() == 0 || !occurs(
            file.name@,
            separator(),
        ) {
            Err(Error::MalformedInput)
        } else {
            match date {
                Ok(date) => Ok(
                    RunView {
                        date,
                        commit: document.commit@,
                        kind: kind_of(test_name(file.name@)),
                        by_crate: by_crate_of(
                            document.times@,
                            test_name(file.name@) == rustc_name(),
                        ),
                    },
                ),
                Err(_) => Err(Error::UnresolvableDate),
            }
        },
    }
}

/// The run that a file holds by itself, or why it holds none.
pub open spec fn run_of(file: SourceFile) -> Result<RunView, Error> {
    run_dated(file, file_date(file))
}

/// Whether `run` is the outcome `wanted`: the same error, or a run that
/// holds what `wanted` holds.
pub open spec fn run_is(run: Result<TestRun, Error>, wanted: Result<RunView, Error>) -> bool {
    match run {
        Ok(r) => wanted == Ok::<RunView, Error>(r@),
        Err(e) => wanted == Err::<RunView, Error>(e),
    }
}

/// The run that a file holds by itself, given what the search for its
/// document's date came to.
pub fn run_from_file(file: &SourceFile, date: Result<Date, Error>) -> (run: Result<TestRun, Error>)
    ensures
        run_is(run, run_dated(*file, date)),
{
    match &file.contents {
        Contents::Empty => Err(Error::MalformedInput),
        Contents::Unreadable => Err(Error::MalformedInput),
        Contents::Document(document) => {
            if document.times.len() == 0 {
                return Err(Error::MalformedInput);
            }
            let filename = file.name.as_str();
            if find(filename, "--").is_none() {
                return Err(Error::MalformedInput);
            }
            match date {
                Ok(date) => {
                    let name = InputData::testname_from_filename(filename);
                    Ok(
                        TestRun::new(
                            date,
                            document.commit.clone(),
                            document.times.as_slice(),
                            name,
                        ),
                    )
                },
                Err(_) => Err(Error::UnresolvableDate),
            }
        },
    }
}

/// The run that a file holds by itself: looks for the date of its document,
/// in the header and then in the file's name, and goes on from there.
pub fn read_run(file: &SourceFile) -> (run: Result<TestRun, Error>)
    ensures
        run_is(run, run_of(*file)),
{
    let date = match &file.contents {
        Contents::Document(document) => Date::first_of(
            InputData::parse_from_header(document.date.as_str()),
            InputData::parse_from_filename(file.name.as_str()),
        ),
        _ => Err(Error::UnresolvableDate),
    };
    run_from_file(file, date)
}

impl InputData {
    /// Reads the date of a document's header.
    pub fn parse_from_header(date: &str) -> (parsed: Result<Date, Error>)
        ensures
            parsed == read_by(date@, header_format()),
    {
        Date::from_format(date, "%a %b %e %T %Y %z")
    }

    /// Reads the date in a file's name.
    pub fn parse_from_filename(filename: &str) -> (parsed: Result<Date, Error>)
        ensures
            parsed == filename_date(filename@),
    {
        let from = match find(filename, "--") {
            Some(at) => at,
            None => {
                return Err(Error::UnresolvableDate);
            },
        };
        let to = match find(filename, ".json") {
            Some(at) => at,
            None => {
                return Err(Error::UnresolvableDate);
            },
        };
        proof {
            reveal_strlit("--");
        }
        if to < 2 || from > to - 2 {
            return Err(Error::UnresolvableDate);
        }
        let text = filename.substring_char(from + 2, to);
        Date::first_of(
            Date::from_format(text, "%Y-%m-%d-%H-%M-%S"),
            Date::from_format(text, "%Y-%m-%d-%H-%M"),
        )
    }

    /// The name of the test in a file's name.
    pub fn testname_from_filename(filename: &str) -> (name: &str)
        requires
            occurs(filename@, separator()),
        ensures
            name@ == test_name(filename@),
    {
        match find(filename, "--") {
            Some(at) => filename.substring_char(0, at),
            None => filename,
        }
    }
}

} // verus!
