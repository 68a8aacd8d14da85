//! The command line arguments.
use vstd::prelude::*;
use vstd::string::StringExecFns;

verus! {

/// The command line arguments: the magic sequence (between 5 and 20 UDP ports,
/// as `port,port,...`), the ports to control (as `port,port,...`) and the path
/// of the configuration file.
///
/// The environment variables `KNOCKER_SEQ` and `KNOCKER_PORTS` stand in for the
/// first two when they are not valid.
#[derive(Debug)]
pub struct Args {
    pub magic_seq: String,
    pub ports: String,
    pub conf: String,
}

impl Default for Args {
    /// The values taken when an option is not given: `#####` for the two lists
    /// (which is never valid) and an empty configuration path.
    fn default() -> (a: Args)
        ensures
            a.magic_seq@ == "#####"@,
            a.ports@ == "#####"@,
            a.conf@ == ""@,
    {
        Args {
            magic_seq: String::from_str("#####"),
            ports: String::from_str("#####"),
            conf: String::from_str(""),
        }
    }
}

} // verus!
