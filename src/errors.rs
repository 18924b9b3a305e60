//! The kinds of browser driver and the errors of the driver and report steps.

use vstd::prelude::*;

verus! {

/// A browser automation server that can be started for the crawl.
#[derive(Debug, Clone, Copy, PartialEq, Eq)]
pub enum WebDriver {
    GeckoDriver,
}

impl WebDriver {
    /// The program that runs this driver.
    pub fn program(&self) -> (r: &'static str)
        ensures
            r@ == match self {
                WebDriver::GeckoDriver => "geckodriver"@,
            },
    {
        match self {
            WebDriver::GeckoDriver => "geckodriver",
        }
    }
}

/// The driver process could not be stopped.
#[derive(Debug, Clone, PartialEq, Eq)]
pub enum WebDriverError {
    UnableToCloseProgram(String),
}

/// Reading an index or writing the report failed.
#[derive(Debug, Clone, Copy, PartialEq, Eq)]
pub enum FormattingError {
    ReadingFileError,
    WritingToFileError,
}

} // verus!
