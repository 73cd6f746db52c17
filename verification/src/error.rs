use vstd::prelude::*;

verus! {

/// The two request-fatal failure classes of the gateway: a header line the
/// parser rejects (answered with a 400-class status) and a failed body
/// transfer or child setup (answered with a 500-class status).
#[derive(Clone, Copy, Debug, PartialEq, Eq, Structural)]
pub enum HttpError {
    MalformedHeader,
    TransferFault,
}

impl HttpError {
    /// The status text that follows `HTTP/1.0 ` in the early error reply the
    /// driver writes before exiting.
    pub fn status_line(&self) -> (r: &'static str)
        ensures
            *self == HttpError::MalformedHeader ==> r@ == "400 Invalid Header"@,
            *self == HttpError::TransferFault ==> r@ == "500 Internal Server Error"@,
    {
        match self {
            HttpError::MalformedHeader => "400 Invalid Header",
            HttpError::TransferFault => "500 Internal Server Error",
        }
    }
}

} // verus!
