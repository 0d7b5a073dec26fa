//! Lines read lazily from the files named on a command line, or from
//! standard input when none are named.
use vstd::prelude::*;

pub mod line;
pub mod reader;
pub mod resolve;
pub mod sequence;

use crate::reader::FileInput;
use crate::reader::ReaderModel;
use crate::resolve::sources_of;
use crate::resolve::views_of;

verus! {

/// The reader over the files that the command line `args` (without the
/// program name) names after `--files`, or over standard input when it
/// names none.
pub fn input(args: &[String]) -> (r: FileInput)
    ensures
        r@ == ReaderModel::initial(sources_of("files"@, views_of(args@))),
        r@.wf(),
{
    FileInput::new("files", args)
}

} // verus!
