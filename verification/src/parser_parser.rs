//! A later analysis pass that would merge facts across files (mixed-in
//! modules, inherited behavior). It is not implemented yet: the file comes
//! back unchanged.

use vstd::prelude::*;

use crate::ruby_parser::RubyFile;

verus! {

/// Hand the file through unchanged; the companion files are not consulted.
pub fn parse(file: RubyFile, files: &Vec<RubyFile>) -> (r: Result<RubyFile, String>)
    ensures
        r == Ok::<RubyFile, String>(file),
{
    Ok(file)
}

} // verus!
