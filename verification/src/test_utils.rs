//! Fixtures for exercising the engine: a source/destination pair with a
//! default source tree.

use vstd::prelude::*;
use vstd::string::*;

verus! {

/// A source and a destination path for a test run.
pub struct TestConfig {
    pub src: String,
    pub dest: String,
}

impl TestConfig {
    /// The default source tree of a test: the crate's own `src` directory.
    pub fn default_src() -> (r: String)
        ensures
            r@ == "src"@,
    {
        String::from_str("src")
    }

    /// The configured source path.
    pub fn get_src(&self) -> (r: String)
        ensures
            r@ == self.src@,
    {
        self.src.clone()
    }

    /// The configured destination path.
    pub fn get_dest(&self) -> (r: String)
        ensures
            r@ == self.dest@,
    {
        self.dest.clone()
    }

    /// Builds a pair from a destination and an optional source, the default
    /// source standing in for a missing one.  The destination must differ
    /// from the default source tree, which a test must never overwrite.
    pub fn new(dest: &str, src: Option<&str>) -> (r: TestConfig)
        requires
            dest@ != "src"@,
        ensures
            r.dest@ == dest@,
            r.src@ == match src {
                Some(s) => s@,
                None => "src"@,
            },
    {
        let dest = dest.to_owned();
        match src {
            Some(s) => TestConfig { src: s.to_owned(), dest },
            None => TestConfig { src: Self::default_src(), dest },
        }
    }
}

} // verus!
