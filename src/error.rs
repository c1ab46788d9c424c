use vstd::prelude::*;

verus! {

/// Why a parse failed.
///
/// `Backtrack` asks the caller to try an alternative; `Eof` is reserved.
#[derive(Debug, Clone, Copy, PartialEq, Eq, Structural)]
pub enum Error {
    Eof,
    Backtrack,
}

} // verus!
