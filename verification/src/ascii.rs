//! The user banner; the art itself is host content, the library carries
//! only the name it answers with.

use vstd::prelude::*;

verus! {

#[derive(Clone)]
pub struct AsciiArt;

impl AsciiArt {
    /// The banner `echo $USER` prints.
    pub fn get_user() -> (r: String)
        ensures
            r@ == "objz"@,
    {
        "objz".to_owned()
    }
}

} // verus!
