//! The options that the archive tools share.

use crate::endian::Endian;
use crate::path::same_text;
use vstd::prelude::*;

verus! {

/// Where an archive comes from or goes to.
#[derive(Debug, PartialEq, Eq)]
pub enum FileInput {
    /// The standard input, or for a new archive the standard output.
    Stdin,
    /// The file at this path.
    Path(String),
}

/// Where a tool prints what it reports.
#[derive(Debug, Clone, Copy, PartialEq, Eq, Structural)]
pub enum Stream {
    Stdout,
    Stderr,
}

/// The options of every subcommand.
pub struct BaseOptions {
    pub file: FileInput,
    pub verbose: bool,
}

/// The settings of the tool that converts tables from and to text.
pub struct AppSettings {
    /// The file to read; the standard input where there is none.
    pub input: Option<String>,
    /// The file to write; the standard output where there is none.
    pub output: Option<String>,
    /// A file of names, one in a line, to find the names of hashes with.
    pub crack: Option<String>,
    /// Whether a table is turned into text, and not text into a table.
    pub decode: bool,
    /// Whether the table holds its integers in little-endian order.
    pub little_endian: bool,
}

impl AppSettings {
    /// The byte order of the table that is read or written.
    pub fn endian(&self) -> (r: Endian)
        ensures
            r == if self.little_endian {
                Endian::Little
            } else {
                Endian::Big
            },
    {
        if self.little_endian {
            Endian::Little
        } else {
            Endian::Big
        }
    }
}

/// `value` if it lies between `min` and `max`, else the nearer of the two.
pub open spec fn clamped(value: usize, min: usize, max: usize) -> usize {
    if value < min {
        min
    } else if value > max {
        max
    } else {
        value
    }
}

/// `value` if it lies between `min` and `max`, else the nearer of the two.
pub fn clamp(value: usize, min: usize, max: usize) -> (r: usize)
    ensures
        r == clamped(value, min, max),
{
    if value < min {
        min
    } else if value > max {
        max
    } else {
        value
    }
}

/// The compression quality for the level that was asked for: 10 where none
/// was, else the level, brought into the range of 1 to 10.
pub fn quality_for(level: Option<usize>) -> (r: usize)
    ensures
        1 <= r <= 10,
        r == match level {
            Some(l) => clamped(l, 1, 10),
            None => 10,
        },
{
    match level {
        Some(l) => clamp(l, 1, 10),
        None => 10,
    }
}

impl FileInput {
    /// What the argument of the file option stands for: the standard input
    /// where it is missing or a lone hyphen, else the file that it names.
    pub fn from_arg(value: Option<&str>) -> (r: FileInput)
        ensures
            match value {
                None => r == FileInput::Stdin,
                Some(x) => if x@ == "-"@ {
                    r == FileInput::Stdin
                } else {
                    r matches FileInput::Path(p) && p@ == x@
                },
            },
    {
        match value {
            Some(x) => {
                if same_text(x, "-") {
                    FileInput::Stdin
                } else {
                    FileInput::Path(x.to_owned())
                }
            },
            None => FileInput::Stdin,
        }
    }

    /// Whether this is the standard input.
    pub fn is_stdin(&self) -> (r: bool)
        ensures
            r == (*self is Stdin),
    {
        match self {
            FileInput::Stdin => true,
            FileInput::Path(_) => false,
        }
    }

    /// The text that names this input: a hyphen for the standard input.
    pub fn name(&self) -> (r: &str)
        ensures
            match self {
                FileInput::Stdin => r@ == "-"@,
                FileInput::Path(p) => r@ == p@,
            },
    {
        match self {
            FileInput::Stdin => "-",
            FileInput::Path(p) => p.as_str(),
        }
    }
}

impl BaseOptions {
    /// The options for the argument of the file option and the verbose flag.
    pub fn new(file: Option<&str>, verbose: bool) -> (r: BaseOptions)
        ensures
            r.verbose == verbose,
            call_ensures(FileInput::from_arg, (file,), r.file),
    {
        BaseOptions { file: FileInput::from_arg(file), verbose }
    }

    /// Where a report goes: nowhere unless the tool is verbose; to the
    /// standard error where the archive itself goes through the standard
    /// streams, else to the standard output.
    pub fn report_stream(&self) -> (r: Option<Stream>)
        ensures
            r == if !self.verbose {
                None
            } else if self.file is Stdin {
                Some(Stream::Stderr)
            } else {
                Some(Stream::Stdout)
            },
    {
        if self.verbose {
            if self.file.is_stdin() {
                Some(Stream::Stderr)
            } else {
                Some(Stream::Stdout)
            }
        } else {
            None
        }
    }
}

} // verus!
