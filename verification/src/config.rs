//! Run configuration taken from the command line.

use vstd::prelude::*;

verus! {

/// The run configuration: the path of the text file that holds generation
/// zero.
#[derive(Debug)]
pub struct Config {
    pub filename: String,
}

impl Config {
    /// Reads the configuration out of the command-line arguments: the first
    /// argument after the program name is the input file's path.  With fewer
    /// arguments than that, configuration fails.
    pub fn new(args: &[String]) -> (r: Result<Config, &str>)
        ensures
            match r {
                Ok(c) => args@.len() >= 2 && c.filename == args@[1],
                Err(m) => args@.len() < 2 && m@ == "not enough arguments"@,
            },
    {
        if args.len() < 2 {
            return Err("not enough arguments");
        }

        let filename = args[1].clone();

        Ok(Config { filename })
    }
}

} // verus!
