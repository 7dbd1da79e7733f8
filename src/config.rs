//! The run's configuration, read from the command line.

use vstd::prelude::*;
use vstd::string::*;

use crate::common::ExecutableFormat;

verus! {

/// What to assemble, and into which format.
pub struct Config {
    pub filename: String,
    pub exec_format: ExecutableFormat,
}

/// The usage message for a program started as `program_name`.
pub open spec fn usage(program_name: Seq<char>) -> Seq<char> {
    "Usage: "@ + program_name + " program.jas"@
}

impl Config {
    /// Reads the configuration from the command line `args`, whose first
    /// element is the program's name: the source file is the next argument.
    pub fn new(mut args: Vec<String>) -> (r: Result<Config, String>)
        requires
            args.len() >= 1,
        ensures
            args.len() == 1 ==> r is Err && r->Err_0@ == usage(args[0]@),
            args.len() >= 2 ==> r is Ok && r->Ok_0.filename@ == args[1]@ && r->Ok_0.exec_format
                == ExecutableFormat::ELF,
    {
        let ghost given = args@;
        let program_name = args.remove(0);
        if args.len() == 0 {
            let mut message = String::from_str("Usage: ");
            message.append(program_name.as_str());
            message.append(" program.jas");
            Err(message)
        } else {
            assert(args@[0] == given[1]);
            Ok(Config { filename: args.remove(0), exec_format: ExecutableFormat::ELF })
        }
    }
}

} // verus!
