//! Text that describes an error for the log: its debug form, and what the
//! caller was doing.
use vstd::prelude::*;
use vstd::string::StringExecFns;

verus! {

/// Relies on the `Debug` formatting of the value; its text is the type's own
/// business, so nothing is stated of it.
#[verifier::external_body]
fn debug_text<E: core::fmt::Debug>(e: &E) -> String {
    format!("{e:?}")
}

/// `"<debug>; <desc>"`, as `mk_err` and `mk_err_str` build it.
fn describe<E: core::fmt::Debug>(e: &E, desc: &str) -> (r: String)
    ensures
        exists|d: Seq<char>| r@ == d + "; "@ + desc@,
{
    let mut s = debug_text(e);
    let ghost d = s@;
    s.append("; ");
    s.append(desc);
    assert(s@ == d + "; "@ + desc@);
    s
}

/// Describes the error `e` for the log, with what the caller was doing.
pub fn mk_err<E: std::error::Error>(e: E, desc: &str) -> (r: String)
    ensures
        exists|d: Seq<char>| r@ == d + "; "@ + desc@,
{
    describe(&e, desc)
}

/// Describes the error `e` for the log, with what the caller was doing.
pub fn mk_err_str<E: core::error::Error>(e: E, desc: &str) -> (r: String)
    ensures
        exists|d: Seq<char>| r@ == d + "; "@ + desc@,
{
    describe(&e, desc)
}

} // verus!
