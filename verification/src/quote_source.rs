//! Where a hardware quote comes from: a configured collector command that
//! is given the 64-byte `report_data` as hex and prints the raw quote.
use vstd::prelude::*;

use crate::encoding::{hex_encode, hex_lower};
use crate::platform::Platform;
use crate::text::{push_str, split_words, strings_view, words};

verus! {

/// A collected hardware quote.
pub struct CollectedQuote {
    pub platform: Platform,
    pub raw_quote: Vec<u8>,
    /// Platform measurement, if the collector reported it separately.
    pub measurement: Vec<u8>,
}

/// A source of hardware quotes. `collect` gets the 64-byte `report_data`
/// (the first 32 bytes are the token's binding) and returns `Ok(None)` when
/// no TEE is present.
pub trait QuoteSource: Send + Sync {
    fn collect(&self, report_data: &[u8; 64]) -> Result<Option<CollectedQuote>, String>;

    fn name(&self) -> &'static str;

    /// The platform whose quotes this source collects, which the token is
    /// bound for before collection.
    fn platform(&self) -> Platform;
}

/// An external collector: the command is run with the `report_data` hex
/// appended as its final argument and must write the raw quote to stdout.
pub struct CommandQuoteSource {
    pub command: String,
    pub platform: Platform,
}

/// The argument vector of a command line: its white-space separated words;
/// an empty command is refused.
pub fn parse_command(command: &str) -> (r: Result<Vec<String>, String>)
    ensures
        match r {
            Ok(argv) => strings_view(argv@) == words(command@) && argv@.len() > 0,
            Err(msg) => words(command@).len() == 0 && msg@ == "quote command must not be empty"@,
        },
{
    let argv = split_words(command);
    if argv.len() == 0 {
        return Err("quote command must not be empty".to_owned());
    }
    Ok(argv)
}

/// The text of a failed collector run.
pub open spec fn command_failure_text(status: Seq<char>, stderr: Seq<char>) -> Seq<char> {
    "quote command failed ("@ + status + "): "@ + stderr
}

impl CommandQuoteSource {
    /// A collector for `command`, refused when the command has no words.
    pub fn new(command: String, platform: Platform) -> (r: Result<Self, String>)
        ensures
            match r {
                Ok(s) => s.command@ == command@ && s.platform == platform && words(command@).len()
                    > 0,
                Err(msg) => words(command@).len() == 0 && msg@
                    == "quote command must not be empty"@,
            },
    {
        match parse_command(command.as_str()) {
            Ok(_) => Ok(Self { command, platform }),
            Err(e) => Err(e),
        }
    }

    /// The program and arguments to run for `report_data`: the command's
    /// words, then the report data as lower-case hex.
    pub fn argv(&self, report_data: &[u8; 64]) -> (r: Result<Vec<String>, String>)
        ensures
            match r {
                Ok(argv) => strings_view(argv@) == words(self.command@).push(
                    hex_lower(report_data@),
                ),
                Err(msg) => words(self.command@).len() == 0 && msg@
                    == "quote command must not be empty"@,
            },
    {
        let mut argv = match parse_command(self.command.as_str()) {
            Ok(a) => a,
            Err(e) => return Err(e),
        };
        let ghost before = strings_view(argv@);
        argv.push(hex_encode(report_data));
        assert(strings_view(argv@) == before.push(hex_lower(report_data@)));
        Ok(argv)
    }

    /// What a finished collector run gives: on failure (status text and
    /// stderr text given) an error, on empty output an error, else the
    /// quote for this source's platform with no separate measurement.
    pub fn quote_from_output(
        &self,
        success: bool,
        status: &str,
        stderr: &str,
        stdout: Vec<u8>,
    ) -> (r: Result<CollectedQuote, String>)
        ensures
            !success ==> (r matches Err(msg) && msg@ == command_failure_text(status@, stderr@)),
            success && stdout@.len() == 0 ==> (r matches Err(msg) && msg@
                == "quote command produced no output"@),
            success && stdout@.len() > 0 ==> (r matches Ok(q) && q.platform == self.platform
                && q.raw_quote@ == stdout@ && q.measurement@.len() == 0),
    {
        if !success {
            let mut msg = "quote command failed (".to_owned();
            push_str(&mut msg, status);
            push_str(&mut msg, "): ");
            push_str(&mut msg, stderr);
            return Err(msg);
        }
        if stdout.len() == 0 {
            return Err("quote command produced no output".to_owned());
        }
        Ok(CollectedQuote { platform: self.platform, raw_quote: stdout, measurement: Vec::new() })
    }

    /// The source's kind.
    pub fn name(&self) -> (r: &'static str)
        ensures
            r@ == "command"@,
    {
        "command"
    }
}

} // verus!
