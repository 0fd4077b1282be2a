//! A layer around a service that logs the requests that go through it.

use vstd::prelude::*;
use vstd::string::StringExecFns;

verus! {

/// A service whose requests are logged.
#[derive(Clone)]
pub struct Logger<S> {
    pub inner: S,
}

/// The line that is logged for a request.
pub open spec fn log_line_of(method: Seq<char>, path: Seq<char>) -> Seq<char> {
    "LOG: "@ + method + " "@ + path
}

impl<S> Logger<S> {
    /// Logs the requests that go through `inner`.
    pub fn new(inner: S) -> (res: Logger<S>)
        ensures
            res.inner == inner,
    {
        Logger { inner }
    }

    /// The line to log for a request.
    pub fn log_line(&self, method: &str, path: &str) -> (res: String)
        ensures
            res@ == log_line_of(method@, path@),
    {
        "LOG: ".to_owned().concat(method).concat(" ").concat(path)
    }
}

/// The line that is logged says the method and the path, and nothing is lost of either.
pub proof fn law_line_says_method_and_path(method: Seq<char>, path: Seq<char>)
    ensures
        log_line_of(method, path).len() == 6 + method.len() + path.len(),
        log_line_of(method, path).take(5) == seq!['L', 'O', 'G', ':', ' '],
        log_line_of(method, path).subrange(5, 5int + method.len()) == method,
        log_line_of(method, path)[5int + method.len()] == ' ',
        log_line_of(method, path).skip(6int + method.len()) == path,
{
    reveal_strlit("LOG: ");
    reveal_strlit(" ");
    let line = log_line_of(method, path);
    assert(line.take(5) =~= seq!['L', 'O', 'G', ':', ' ']);
    assert(line.subrange(5, 5int + method.len()) =~= method);
    assert(line.skip(6int + method.len()) =~= path);
}

} // verus!
