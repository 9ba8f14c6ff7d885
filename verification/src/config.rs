//! Startup configuration.

use vstd::prelude::*;
use vstd::string::{StrSliceExecFns, StringExecFns};

verus! {

/// What the program needs to run: the address of the key-value store.
#[derive(PartialEq, Eq, Debug)]
pub struct Config {
    pub redis_ip: String,
}

/// Parse the configuration from the program's arguments, the program name
/// first.  With no argument the store is looked for locally; one argument
/// names its address, to be wrapped in the store's URL scheme.
pub fn parse_args(args: Vec<String>) -> (r: Config)
    requires
        args@.len() == 1 || args@.len() == 2,
    ensures
        args@.len() == 1 ==> r.redis_ip@ == "redis://127.0.0.1/"@,
        args@.len() == 2 ==> r.redis_ip@ == "redis://"@ + args@[1]@ + "/"@,
{
    if args.len() == 1 {
        Config { redis_ip: String::from_str("redis://127.0.0.1/") }
    } else {
        let mut s = String::from_str("redis://");
        s.append(args[1].as_str());
        s.append("/");
        Config { redis_ip: s }
    }
}

} // verus!
