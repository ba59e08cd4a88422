use crate::error::EpubError;
use crate::text::concat;
use crate::text::str_eq;
use vstd::prelude::*;

verus! {

/// What the user asked for about color.
#[derive(Clone, Copy, Debug, PartialEq, Eq, Structural)]
pub enum ColorMode {
    Always,
    Auto,
    Never,
}

/// What a stream is told about color.
#[derive(Clone, Copy, Debug, PartialEq, Eq, Structural)]
pub enum ColorChoice {
    Always,
    Auto,
    Never,
}

/// How a run ends.
#[derive(Clone, Copy, Debug, PartialEq, Eq, Structural)]
pub enum Outcome {
    /// A match was found.
    Success,
    /// No archive gave a match.
    NoMatch,
    /// The pattern or an option was refused before any archive was opened.
    UsageError,
}

/// The color mode that a word names, if it names one.
pub open spec fn color_mode_of(word: Seq<char>) -> Option<ColorMode> {
    if word == "always"@ {
        Some(ColorMode::Always)
    } else if word == "auto"@ {
        Some(ColorMode::Auto)
    } else if word == "never"@ {
        Some(ColorMode::Never)
    } else {
        None
    }
}

/// Reads the value of the color option: `always`, `auto` or `never`.
pub fn parse_color_mode(word: &str) -> (r: Option<ColorMode>)
    ensures
        r == color_mode_of(word@),
{
    if str_eq(word, "always") {
        Some(ColorMode::Always)
    } else if str_eq(word, "auto") {
        Some(ColorMode::Auto)
    } else if str_eq(word, "never") {
        Some(ColorMode::Never)
    } else {
        None
    }
}

/// What a stream is told: with `auto`, color is left to the stream where
/// it is a terminal and switched off where it is not.
pub fn color_choice(mode: ColorMode, is_terminal: bool) -> (r: ColorChoice)
    ensures
        r == match mode {
            ColorMode::Always => ColorChoice::Always,
            ColorMode::Never => ColorChoice::Never,
            ColorMode::Auto => if is_terminal {
                ColorChoice::Auto
            } else {
                ColorChoice::Never
            },
        },
{
    match mode {
        ColorMode::Always => ColorChoice::Always,
        ColorMode::Never => ColorChoice::Never,
        ColorMode::Auto => if is_terminal {
            ColorChoice::Auto
        } else {
            ColorChoice::Never
        },
    }
}

/// What is said of a color option that names no mode.
pub fn invalid_color_message(word: &str) -> (r: String)
    ensures
        r@ == "Error: Invalid color choice: "@ + word@,
{
    concat("Error: Invalid color choice: ", word)
}

/// What is said of a pattern that does not compile.
pub fn pattern_error_message() -> (r: &'static str)
    ensures
        r@ == "invalid regular expression"@,
{
    "invalid regular expression"
}

/// What is said of an archive that cannot be searched.
pub open spec fn archive_error_text(error: EpubError, file_name: Seq<char>) -> Seq<char> {
    match error {
        EpubError::Unreadable => "unable to open "@ + file_name,
        EpubError::NotAnArchive => file_name + " may not be a zip archive"@,
        EpubError::MalformedNavigation => "Error reading table of contents"@,
        _ => file_name + " may not be an epub file"@,
    }
}

/// Says why an archive cannot be searched.
pub fn archive_error_message(error: EpubError, file_name: &str) -> (r: String)
    ensures
        r@ == archive_error_text(error, file_name@),
{
    match error {
        EpubError::Unreadable => concat("unable to open ", file_name),
        EpubError::NotAnArchive => concat(file_name, " may not be a zip archive"),
        EpubError::MalformedNavigation => "Error reading table of contents".to_owned(),
        _ => concat(file_name, " may not be an epub file"),
    }
}

/// Says that a document of the spine cannot be had from its archive.
pub fn document_error_message(doc: &str) -> (r: String)
    ensures
        r@ == doc@ + " is a malformed epub"@,
{
    concat(doc, " is a malformed epub")
}

/// Whether any archive of a run has given a match.
pub struct Run {
    found_match: bool,
}

impl Run {
    /// Whether a match was found so far.
    pub closed spec fn found(&self) -> bool {
        self.found_match
    }

    /// A run that has searched nothing yet.
    pub fn new() -> (r: Self)
        ensures
            !r.found(),
    {
        Run { found_match: false }
    }

    /// Takes note of an archive whose search is over, and of whether it
    /// has given a match.
    pub fn record(&mut self, found_match: bool)
        ensures
            final(self).found() == (old(self).found() || found_match),
    {
        self.found_match = self.found_match || found_match;
    }

    /// How the run ends once every archive is searched.
    pub fn outcome(&self) -> (r: Outcome)
        ensures
            r == if self.found() {
                Outcome::Success
            } else {
                Outcome::NoMatch
            },
    {
        if self.found_match {
            Outcome::Success
        } else {
            Outcome::NoMatch
        }
    }
}

/// The exit status of the process for each way a run ends.
pub fn exit_code(outcome: Outcome) -> (r: i32)
    ensures
        r == match outcome {
            Outcome::Success => 0i32,
            Outcome::NoMatch => 1i32,
            Outcome::UsageError => 2i32,
        },
{
    match outcome {
        Outcome::Success => 0,
        Outcome::NoMatch => 1,
        Outcome::UsageError => 2,
    }
}

} // verus!
