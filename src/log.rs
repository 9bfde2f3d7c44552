//! Log levels of the events the engine reports.

use vstd::prelude::*;

verus! {

#[verifier::external_type_specification]
#[verifier::external_body]
pub struct ExColor(anstyle::Color);

/// The colour that `anstyle` gives to an index of the 16-colour ANSI palette.
pub uninterp spec fn ansi_palette_color(index: u8) -> anstyle::Color;

/// Relies on `anstyle::Ansi256Color::into_ansi`: each palette index below 16
/// is one of the 4-bit ANSI colours, which `anstyle::Color::Ansi` carries.
#[verifier::external_body]
fn ansi_color(index: u8) -> (r: anstyle::Color)
    requires
        index < 16,
    ensures
        r == ansi_palette_color(index),
{
    anstyle::Color::Ansi(anstyle::Ansi256Color(index).into_ansi().unwrap())
}

/// Logging level, ordered by severity.
#[derive(Debug, Clone, Copy, PartialEq, Eq, Structural)]
pub enum LogLevel {
    Info,
    Warning,
    Error,
    Fatal,
}

impl LogLevel {
    pub open spec fn spec_name(self) -> Seq<char> {
        match self {
            LogLevel::Info => "info"@,
            LogLevel::Warning => "warn"@,
            LogLevel::Error => "error"@,
            LogLevel::Fatal => "fatal"@,
        }
    }

    /// The palette index of the level's colour: bright white, yellow,
    /// bright red and red.
    pub open spec fn palette_index(self) -> u8 {
        match self {
            LogLevel::Info => 15,
            LogLevel::Warning => 3,
            LogLevel::Error => 9,
            LogLevel::Fatal => 1,
        }
    }

    /// The level's name as it is printed and as it appears in JSON events.
    pub fn name(&self) -> (r: &'static str)
        ensures
            r@ == self.spec_name(),
    {
        match self {
            LogLevel::Info => "info",
            LogLevel::Warning => "warn",
            LogLevel::Error => "error",
            LogLevel::Fatal => "fatal",
        }
    }

    /// The colour the level's title is printed in.
    pub fn color(&self) -> (r: anstyle::Color)
        ensures
            r == ansi_palette_color(self.palette_index()),
    {
        match self {
            LogLevel::Info => ansi_color(15),
            LogLevel::Warning => ansi_color(3),
            LogLevel::Error => ansi_color(9),
            LogLevel::Fatal => ansi_color(1),
        }
    }
}

} // verus!
