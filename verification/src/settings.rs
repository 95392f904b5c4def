//! The options the monitor runs with, and where they send each value.

use vstd::prelude::*;

verus! {

/// The seconds between two scans for the mail client's process, where the
/// user names none.
pub const DEFAULT_INTERVAL: u64 = 5;

/// What the user asked for.
#[derive(Debug)]
pub struct Settings {
    /// Do not print results to standard output.
    pub quiet: bool,
    /// File to write each result to, replacing what it held.
    pub output: Option<String>,
    /// Seconds between two scans for the mail client's process.
    pub interval: u64,
}

/// Why a set of options cannot be run with.
#[derive(Clone, Copy, Debug, PartialEq, Eq, Structural)]
pub enum SettingsError {
    /// Nothing would ever be shown: no printing, and no file to write to.
    QuietWithoutOutput,
}

/// Where one value goes: the text to print, if any, and the file to replace
/// with its text, if any.
#[derive(Debug, PartialEq, Eq)]
pub struct Emission {
    /// The line for standard output.
    pub print: Option<String>,
    /// The path of a file, and the text that the file is to hold.
    pub write: Option<(String, String)>,
}

/// `emission` sends `data`, and nothing else, where `settings` say.
pub open spec fn emits(emission: Emission, settings: Settings, data: Seq<char>) -> bool {
    &&& emission.print is Some <==> !settings.quiet
    &&& emission.print matches Some(line) ==> line@ == data
    &&& emission.write is Some <==> settings.output is Some
    &&& emission.write matches Some(file) ==> file.0@ == settings.output->Some_0@ && file.1@
        == data
}

impl Settings {
    /// Whether results reach anybody: a quiet run needs an output file.
    pub open spec fn is_valid(&self) -> bool {
        !(self.quiet && self.output is None)
    }

    /// Accepts the options, or says why they cannot be run with.
    pub fn validate(&self) -> (checked: Result<(), SettingsError>)
        ensures
            checked is Ok <==> self.is_valid(),
            checked is Err ==> checked == Err::<(), SettingsError>(
                SettingsError::QuietWithoutOutput,
            ),
    {
        if self.quiet && self.output.is_none() {
            Err(SettingsError::QuietWithoutOutput)
        } else {
            Ok(())
        }
    }
}

/// Says where `data` goes under these options: to standard output unless
/// they ask for quiet, and into the output file if they name one.
pub fn write_count(s: &Settings, data: &str) -> (emission: Emission)
    ensures
        emits(emission, *s, data@),
{
    let print = if s.quiet {
        None
    } else {
        Some(data.to_owned())
    };
    let write = match &s.output {
        Some(path) => Some((path.clone(), data.to_owned())),
        None => None,
    };
    Emission { print, write }
}

} // verus!
