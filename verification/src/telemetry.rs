//! Logging choices the core hands to the surrounding binary: which format
//! the log subscriber uses, and where it writes.

use vstd::prelude::*;

verus! {

/// The formats the log subscriber can be built with.
#[derive(Clone, Copy, Debug, PartialEq, Eq, Structural)]
pub enum LoggerFormat {
    Compact,
    Full,
    Pretty,
    Json,
    Bunyan,
}

impl LoggerFormat {
    /// The format's configuration name.
    pub fn as_str(&self) -> (r: &'static str)
        ensures
            r@ == (match self {
                LoggerFormat::Compact => "compact"@,
                LoggerFormat::Full => "full"@,
                LoggerFormat::Pretty => "pretty"@,
                LoggerFormat::Json => "json"@,
                LoggerFormat::Bunyan => "bunyan"@,
            }),
    {
        match self {
            LoggerFormat::Compact => "compact",
            LoggerFormat::Full => "full",
            LoggerFormat::Pretty => "pretty",
            LoggerFormat::Json => "json",
            LoggerFormat::Bunyan => "bunyan",
        }
    }
}

/// Where log output goes: a wrapper the binary unwraps to build its writer.
pub struct LoggerOutbound<W> {
    make_writer: W,
}

impl<W> LoggerOutbound<W> {
    /// The wrapped writer factory.
    pub closed spec fn writer(&self) -> W {
        self.make_writer
    }

    /// Wrap a writer factory.
    pub fn new(make_writer: W) -> (r: Self)
        ensures
            r.writer() == make_writer,
    {
        LoggerOutbound { make_writer }
    }

    /// Hand the writer factory back.
    pub fn into_inner(self) -> (r: W)
        ensures
            r == self.writer(),
    {
        self.make_writer
    }
}

} // verus!
