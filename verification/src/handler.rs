//! The request handler abstraction: a capability with one operation, from
//! one request frame to one response frame, polymorphic over arbitrary
//! implementations.
//!
//! Two reference behaviours are provided: [`Hello`] echoes each request
//! unchanged, and [`Olleh`] reverses the request's character sequence.

use vstd::prelude::*;
use vstd::string::StrSliceExecFns;
use vstd::string::StringExecFns;

verus! {

/// A request handler bound to a listening endpoint: every decoded request
/// frame is passed to [`Handler::call`] and the returned frame is written
/// back. A handler names the response it owes in [`Handler::response_spec`]
/// and its `call` is held to it.
pub trait Handler {
    /// The response owed for a given request.
    spec fn response_spec(&self, req: Seq<char>) -> Seq<char>;

    /// Compute the response frame for one request frame.
    fn call(&self, req: String) -> (r: String)
        ensures
            r@ == self.response_spec(req@),
    ;
}

/// The identity handler: the response is the request itself.
pub struct Hello;

impl Handler for Hello {
    open spec fn response_spec(&self, req: Seq<char>) -> Seq<char> {
        req
    }

    fn call(&self, req: String) -> (r: String) {
        req
    }
}

/// The reversal handler: the response is the request's character sequence
/// in reverse order. It operates on Unicode scalar values, not raw bytes,
/// so multi-byte characters are never corrupted.
pub struct Olleh;

impl Handler for Olleh {
    open spec fn response_spec(&self, req: Seq<char>) -> Seq<char> {
        req.reverse()
    }

    fn call(&self, req: String) -> (r: String) {
        let s = req.as_str();
        let n = s.unicode_len();
        let mut out = String::new();
        let mut i = n;
        while i > 0
            invariant
                n == req@.len(),
                s@ == req@,
                0 <= i <= n,
                out@ == req@.skip(i as int).reverse(),
            decreases i,
        {
            i = i - 1;
            let piece = s.substring_char(i, i + 1);
            out.append(piece);
            proof {
                assert(out@ =~= req@.skip(i as int).reverse());
            }
        }
        proof {
            assert(req@.skip(0).reverse() =~= req@.reverse());
        }
        out
    }
}

} // verus!
