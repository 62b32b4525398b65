use vstd::prelude::*;

verus! {

/// Declares the tokenizer's error type so that it can be carried in results.
#[verifier::external_type_specification]
#[verifier::external_body]
pub struct ExXmlError(xml::reader::Error);

/// Declares std's I/O error so that a failed read can be reported.
#[verifier::external_type_specification]
#[verifier::external_body]
pub struct ExIoError(std::io::Error);

} // verus!
