use vstd::prelude::*;

verus! {

/// What a field of the library dictionary was expected to hold.
#[derive(Debug, Clone, Copy, PartialEq, Eq, Structural)]
pub enum Expected {
    Integer,
    Text,
    Dict,
}

/// Why a read failed.
#[derive(Debug)]
pub enum ReadError {
    /// The input could not be read.
    IO(std::io::Error),
    /// The tokenizer reported malformed XML.
    Parse(xml::reader::Error),
    /// A mandatory field is missing or holds a value of another kind.
    Schema { field: String, expected: Expected },
}

} // verus!
