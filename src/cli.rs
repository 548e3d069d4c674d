//! The three commands and their arguments, as parsed from the command line.

use vstd::prelude::*;
use vstd::string::StringExecFns;

verus! {

/// The widest histogram bar; wider requests are cut to this.
pub const MAX_WIDTH: usize = 200;

/// The bar width when none is given.
pub const DEFAULT_WIDTH: usize = 50;

/// Parsed command line.
#[derive(Debug)]
pub struct Cli {
    pub command: Command,
}

/// A command with its arguments as given.
#[derive(Debug)]
pub enum Command {
    /// Find the oldest photo.
    Oldest { directory: Option<String> },
    /// Find the most recent photo.
    Latest { directory: Option<String> },
    /// Show the histogram of photos by year.
    Hist { width: usize, directory: Option<String> },
}

/// A command ready to run: what to compute and where to scan.
#[derive(Debug)]
pub struct CliCommand {
    pub kind: CommandKind,
    pub directory: String,
}

/// What to compute.
#[derive(Debug, PartialEq, Eq, Structural)]
pub enum CommandKind {
    Oldest,
    Latest,
    Hist { width: usize },
}

/// The directory to scan: the one given, else the current directory.
pub open spec fn directory_or_default(d: Option<String>) -> Seq<char> {
    match d {
        Some(s) => s@,
        None => seq!['.'],
    }
}

pub open spec fn width_error_text() -> Seq<char> {
    "Width must be at least 1"@
}

fn directory_of(d: Option<String>) -> (r: String)
    ensures
        r@ == directory_or_default(d),
{
    match d {
        Some(s) => s,
        None => {
            proof {
                reveal_strlit(".");
            }
            String::from_str(".")
        },
    }
}

impl Cli {
    /// Checks and completes the parsed arguments: a missing directory is the
    /// current one; a histogram width of 0 is refused and one above the
    /// maximum is cut to it.
    pub fn convert(cli: Cli) -> (r: Result<CliCommand, String>)
        ensures
            match cli.command {
                Command::Oldest { directory } => r is Ok && r->Ok_0.kind == CommandKind::Oldest
                    && r->Ok_0.directory@ == directory_or_default(directory),
                Command::Latest { directory } => r is Ok && r->Ok_0.kind == CommandKind::Latest
                    && r->Ok_0.directory@ == directory_or_default(directory),
                Command::Hist { width, directory } => if width == 0 {
                    r is Err && r->Err_0@ == width_error_text()
                } else {
                    r is Ok && r->Ok_0.kind == (CommandKind::Hist {
                        width: if width > MAX_WIDTH { MAX_WIDTH } else { width },
                    }) && r->Ok_0.directory@ == directory_or_default(directory)
                },
            },
    {
        let (kind, directory) = match cli.command {
            Command::Oldest { directory } => (CommandKind::Oldest, directory_of(directory)),
            Command::Latest { directory } => (CommandKind::Latest, directory_of(directory)),
            Command::Hist { width, directory } => {
                if width == 0 {
                    proof {
                        reveal_strlit("Width must be at least 1");
                    }
                    return Err(String::from_str("Width must be at least 1"));
                }
                let clamped_width = if width > MAX_WIDTH {
                    MAX_WIDTH
                } else {
                    width
                };
                (CommandKind::Hist { width: clamped_width }, directory_of(directory))
            },
        };
        Ok(CliCommand { kind, directory })
    }
}

} // verus!
