//! Where the log goes: a directory for daily files, and the console.
use vstd::prelude::*;

verus! {

/// The logging set-up that the application starts with.
#[derive(Clone, Debug, PartialEq)]
pub struct Config<'s> {
    dir: &'s str,
    to_file: bool,
    to_console: bool,
}

impl<'s> Config<'s> {
    /// The directory that holds the log files.
    pub closed spec fn spec_dir(&self) -> Seq<char> {
        self.dir@
    }

    /// Whether records go to daily files.
    pub closed spec fn spec_to_file(&self) -> bool {
        self.to_file
    }

    /// Whether records go to the console.
    pub closed spec fn spec_to_console(&self) -> bool {
        self.to_console
    }

    /// A set-up that logs to files under `dir` when `to_file` holds and to
    /// the console when `to_console` holds.
    pub fn new(dir: &'s str, to_file: bool, to_console: bool) -> (r: Self)
        ensures
            r.spec_dir() == dir@,
            r.spec_to_file() == to_file,
            r.spec_to_console() == to_console,
    {
        Config { dir, to_file, to_console }
    }

    /// The directory that holds the log files.
    pub fn dir(&self) -> (r: &'s str)
        ensures
            r@ == self.spec_dir(),
    {
        self.dir
    }

    /// Whether records go to daily files.
    pub fn to_file(&self) -> (r: bool)
        ensures
            r == self.spec_to_file(),
    {
        self.to_file
    }

    /// Whether records go to the console.
    pub fn to_console(&self) -> (r: bool)
        ensures
            r == self.spec_to_console(),
    {
        self.to_console
    }
}

} // verus!
