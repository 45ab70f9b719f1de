//! The input contract of one run: a salt and a nonempty, ordered list of
//! target path strings.

use vstd::prelude::*;
use vstd::string::*;

verus! {

/// One run's input: the salt to append and the target paths, in the order
/// in which they are to be processed.
pub struct Config {
    pub salt: String,
    pub files: Vec<String>,
}

impl Config {
    /// Build a `Config` from an ordered list of raw strings: the first
    /// element is the salt, every further element a target path.  Fails
    /// when fewer than a salt and one target are supplied.
    pub fn new(args: &[String]) -> (r: Result<Config, &str>)
        ensures
            r is Err <==> args@.len() < 2,
            r matches Err(m) ==> m@ == "Not enough arguments"@,
            r matches Ok(c) ==> {
                &&& c.salt@ == args@[0]@
                &&& c.files.deep_view() == args.deep_view().skip(1)
            },
    {
        if args.len() < 2 {
            return Err("Not enough arguments");
        }

        let salt = args[0].clone();
        let mut files: Vec<String> = Vec::new();
        let mut i: usize = 1;
        while i < args.len()
            invariant
                1 <= i <= args@.len(),
                2 <= args@.len(),
                files@.len() == i - 1,
                forall|k: int| 0 <= k < i - 1 ==> files@[k]@ == args@[k + 1]@,
            decreases args@.len() - i,
        {
            files.push(args[i].clone());
            i = i + 1;
        }
        proof {
            assert(files.deep_view() =~~= args.deep_view().skip(1)) by {
                assert(files.deep_view().len() == args.deep_view().skip(1).len());
                assert forall|k: int| 0 <= k < files@.len() implies files.deep_view()[k]
                    == args.deep_view().skip(1)[k] by {
                    assert(files.deep_view()[k] == files@[k]@);
                    assert(args.deep_view().skip(1)[k] == args@[k + 1]@);
                }
            }
        }
        Ok(Config { salt, files })
    }
}

} // verus!
