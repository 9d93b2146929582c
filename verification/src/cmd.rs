//! The command a stage-two payload runs inside the guest: its program,
//! arguments, home directory, and the environment inherited from the target
//! process. Spawning the process (and the terminal plumbing it attaches to)
//! is I/O and stays outside the library.

use vstd::prelude::*;

use crate::proc::env_pairs;
use crate::proc::pair_views;
use crate::proc::parse_environ;

verus! {

/// A fully assembled command.
pub struct Cmd {
    pub command: String,
    pub arguments: Vec<String>,
    pub home: Option<Vec<u8>>,
    pub environment: Vec<(Vec<u8>, Vec<u8>)>,
}

impl Cmd {
    /// Assembles the command: without an explicit program the login shell
    /// `sh -l` is run, and with one the given arguments are kept; the
    /// environment is inherited from the target's NUL-delimited environment
    /// block.
    pub fn new(command: Option<String>, args: Vec<String>, environ: &Vec<u8>, home: Option<
        Vec<u8>,
    >) -> (r: Cmd)
        ensures
            match command {
                Some(c) => r.command@ == c@ && r.arguments@ == args@,
                None => r.command@ == "sh"@ && r.arguments@.len() == 1 && r.arguments@[0]@
                    == "-l"@,
            },
            r.home == home,
            pair_views(r.environment@) == env_pairs(environ@),
    {
        let environment = parse_environ(environ);
        match command {
            Some(c) => Cmd { command: c, arguments: args, home, environment },
            None => {
                let mut arguments: Vec<String> = Vec::new();
                arguments.push(String::from_str("-l"));
                Cmd {
                    command: String::from_str("sh"),
                    arguments,
                    home,
                    environment,
                }
            },
        }
    }
}

} // verus!
