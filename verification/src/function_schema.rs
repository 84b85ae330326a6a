//! How tool parameters are described.
use vstd::prelude::*;

verus! {

/// The docstring conventions a tool's parameter descriptions can follow.
#[derive(Clone, Copy, Debug, PartialEq, Eq, Structural)]
pub enum DocstringStyle {
    Google,
    Numpy,
    Sphinx,
}

impl Default for DocstringStyle {
    /// Google style, unless said otherwise.
    fn default() -> (res: Self)
        ensures
            res == DocstringStyle::Google,
    {
        DocstringStyle::Google
    }
}

} // verus!
