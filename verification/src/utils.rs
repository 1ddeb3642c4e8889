//! Terminal colors: whether to use them, and the ANSI styling of each kind of text.

use owo_colors::OwoColorize;
use vstd::prelude::*;

verus! {

/// `ESC [ <code> m`: an ANSI select-graphic-rendition sequence.
pub open spec fn sgr(code: Seq<char>) -> Seq<char> {
    seq!['\u{1b}', '['] + code + seq!['m']
}

/// Text in a foreground color, as owo-colors writes it: the color's code, the text,
/// then the code that restores the default foreground (39).
pub open spec fn fg(code: Seq<char>, text: Seq<char>) -> Seq<char> {
    sgr(code) + text + sgr("39"@)
}

/// Text in a style, as owo-colors writes it: the style's code, the text, then the
/// reset (0).
pub open spec fn styled(code: Seq<char>, text: Seq<char>) -> Seq<char> {
    sgr(code) + text + sgr("0"@)
}

/// owo-colors' `text.green().bold().to_string()`. Claimed, from owo-colors'
/// `BoldDisplay` and `FgColorDisplay` formatting: `ESC[1m` `ESC[32m` text `ESC[39m` `ESC[0m`.
#[verifier::external_body]
fn green_bold(text: &str) -> (r: String)
    ensures
        r@ == styled("1"@, fg("32"@, text@)),
{
    text.green().bold().to_string()
}

/// owo-colors' `text.red().bold().to_string()`: `ESC[1m` `ESC[31m` text `ESC[39m` `ESC[0m`.
#[verifier::external_body]
fn red_bold(text: &str) -> (r: String)
    ensures
        r@ == styled("1"@, fg("31"@, text@)),
{
    text.red().bold().to_string()
}

/// owo-colors' `text.cyan().to_string()`: `ESC[36m` text `ESC[39m`.
#[verifier::external_body]
fn cyan(text: &str) -> (r: String)
    ensures
        r@ == fg("36"@, text@),
{
    text.cyan().to_string()
}

/// owo-colors' `text.yellow().bold().to_string()`: `ESC[1m` `ESC[33m` text `ESC[39m` `ESC[0m`.
#[verifier::external_body]
fn yellow_bold(text: &str) -> (r: String)
    ensures
        r@ == styled("1"@, fg("33"@, text@)),
{
    text.yellow().bold().to_string()
}

/// owo-colors' `text.dimmed().to_string()`: `ESC[2m` text `ESC[0m`.
#[verifier::external_body]
fn dimmed(text: &str) -> (r: String)
    ensures
        r@ == styled("2"@, text@),
{
    text.dimmed().to_string()
}

/// owo-colors' `text.blue().to_string()`: `ESC[34m` text `ESC[39m`.
#[verifier::external_body]
fn blue(text: &str) -> (r: String)
    ensures
        r@ == fg("34"@, text@),
{
    text.blue().to_string()
}

/// Whether output is colored: never with `NO_COLOR` set or `CLICOLOR=0`, otherwise
/// when standard output is a terminal.
pub open spec fn color_wanted(no_color_set: bool, clicolor: Option<Seq<char>>, stdout_is_terminal: bool) -> bool {
    !no_color_set && clicolor != Some("0"@) && stdout_is_terminal
}

/// Decides coloring from the environment (`NO_COLOR` present, the value of `CLICOLOR`
/// when it is set and valid Unicode) and whether standard output is a terminal.
pub fn color_enabled(no_color_set: bool, clicolor: Option<String>, stdout_is_terminal: bool) -> (r: bool)
    ensures
        r == color_wanted(no_color_set, clicolor.deep_view(), stdout_is_terminal),
{
    if no_color_set {
        return false;
    }
    match clicolor {
        Some(v) => {
            let zero = String::from_str("0");
            if v == zero {
                return false;
            }
        },
        None => {},
    }
    stdout_is_terminal
}

/// Whether text is colored.
#[derive(Debug, Clone, Copy)]
pub struct ColorMode {
    enabled: bool,
}

pub fn with_color(enabled: bool) -> (r: ColorMode)
    ensures
        r.enabled_spec() == enabled,
{
    ColorMode { enabled }
}

impl ColorMode {
    pub closed spec fn enabled_spec(&self) -> bool {
        self.enabled
    }

    /// `text` unchanged without color, otherwise `colored`.
    pub open spec fn paint(&self, text: Seq<char>, colored: Seq<char>) -> Seq<char> {
        if self.enabled_spec() {
            colored
        } else {
            text
        }
    }

    pub open spec fn success_spec(&self, text: Seq<char>) -> Seq<char> {
        self.paint(text, styled("1"@, fg("32"@, text)))
    }

    pub open spec fn error_spec(&self, text: Seq<char>) -> Seq<char> {
        self.paint(text, styled("1"@, fg("31"@, text)))
    }

    pub open spec fn info_spec(&self, text: Seq<char>) -> Seq<char> {
        self.paint(text, fg("36"@, text))
    }

    pub open spec fn highlight_spec(&self, text: Seq<char>) -> Seq<char> {
        self.paint(text, styled("1"@, fg("33"@, text)))
    }

    pub open spec fn dim_spec(&self, text: Seq<char>) -> Seq<char> {
        self.paint(text, styled("2"@, text))
    }

    pub open spec fn id_spec(&self, text: Seq<char>) -> Seq<char> {
        self.paint(text, fg("34"@, text))
    }

    /// Bold green.
    pub fn success(&self, text: &str) -> (r: String)
        ensures
            r@ == self.success_spec(text@),
    {
        if self.enabled { green_bold(text) } else { text.to_owned() }
    }

    /// Bold red.
    pub fn error(&self, text: &str) -> (r: String)
        ensures
            r@ == self.error_spec(text@),
    {
        if self.enabled { red_bold(text) } else { text.to_owned() }
    }

    /// Cyan.
    pub fn info(&self, text: &str) -> (r: String)
        ensures
            r@ == self.info_spec(text@),
    {
        if self.enabled { cyan(text) } else { text.to_owned() }
    }

    /// Bold yellow.
    pub fn highlight(&self, text: &str) -> (r: String)
        ensures
            r@ == self.highlight_spec(text@),
    {
        if self.enabled { yellow_bold(text) } else { text.to_owned() }
    }

    /// Dimmed.
    pub fn dim(&self, text: &str) -> (r: String)
        ensures
            r@ == self.dim_spec(text@),
    {
        if self.enabled { dimmed(text) } else { text.to_owned() }
    }

    /// Blue, for task identifiers.
    pub fn id(&self, text: &str) -> (r: String)
        ensures
            r@ == self.id_spec(text@),
    {
        if self.enabled { blue(text) } else { text.to_owned() }
    }
}

} // verus!
