use crate::lexical::ScanError;
use crate::scanner::{result_view, scan, scan_outcome};
use crate::token::Token;
use vstd::prelude::*;
use vstd::utf8::encode_utf8;

verus! {

/// Session state of the interpreter front end: whether any run has failed.
#[derive(Debug, PartialEq, Eq, Structural)]
pub struct Lox {
    pub had_error: bool,
}

impl Lox {
    /// A fresh session in which nothing has failed yet.
    pub fn new() -> (r: Lox)
        ensures
            !r.had_error,
    {
        Lox { had_error: false }
    }

    /// Scans one source text in this session. A scan that fails marks the
    /// session as having had an error; a session never forgets one.
    pub fn run_source(&mut self, source: String) -> (r: Result<Vec<Token>, Vec<ScanError>>)
        requires
            encode_utf8(source@).len() < usize::MAX,
        ensures
            result_view(r) == scan_outcome(encode_utf8(source@)),
            final(self).had_error == (old(self).had_error || r is Err),
    {
        let r = scan(source);
        if r.is_err() {
            self.had_error = true;
        }
        r
    }
}

} // verus!
