//! The three resource paths the client is started with.

use vstd::prelude::*;

verus! {

/// The paths of the index file, the blob file and the palette file, in the
/// order they appear on the command line after the program name.
#[derive(Debug)]
pub struct Paths {
    pub graphic_info: String,
    pub graphic: String,
    pub palette: String,
}

impl Paths {
    /// Captures the three resource paths from the program's arguments:
    /// the program name, then index path, blob path and palette path.
    pub fn new(args: &[String]) -> (r: Result<Paths, &'static str>)
        ensures
            r is Ok <==> args@.len() == 4,
            r is Ok ==> {
                &&& r->Ok_0.graphic_info@ == args@[1]@
                &&& r->Ok_0.graphic@ == args@[2]@
                &&& r->Ok_0.palette@ == args@[3]@
            },
            r is Err ==> r->Err_0@ == "not enough parameters."@,
    {
        if args.len() != 4 {
            return Err("not enough parameters.");
        }

        let graphic_info = vstd::slice::slice_index_get(args, 1).clone();
        let graphic = vstd::slice::slice_index_get(args, 2).clone();
        let palette = vstd::slice::slice_index_get(args, 3).clone();

        Ok(Paths { graphic_info, graphic, palette })
    }
}

} // verus!
