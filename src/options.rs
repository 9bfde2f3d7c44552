//! Options of an engine run and of the command line.

use vstd::prelude::*;

use crate::errors::QuakeError;

verus! {

#[derive(Debug, Clone, Copy, PartialEq, Eq, Structural)]
pub struct EngineOptions {
    /// Suppress the output of executed commands.
    pub quiet: bool,
    /// Report events as line-delimited JSON objects.
    pub json: bool,
    /// Run tasks whatever their dirtiness.
    pub force: bool,
    /// Run again whenever sources change.
    pub watch: bool,
}

impl EngineOptions {
    /// Whether a call must run: always when forced, else when it is dirty.
    pub fn must_run(&self, dirty: bool) -> (r: bool)
        ensures
            r == (self.force || dirty),
    {
        self.force || dirty
    }
}

/// The position of the first `=` in `s`.
pub open spec fn is_first_equals(s: Seq<char>, pos: int) -> bool {
    &&& 0 <= pos < s.len()
    &&& s[pos] == '='
    &&& forall|k: int| 0 <= k < pos ==> s[k] != '='
}

/// Split a configuration property `KEY=VALUE` at its first `=`.
pub fn parse_config_property(s: &str) -> (r: Result<(String, String), QuakeError>)
    ensures
        match r {
            Ok((key, value)) => exists|pos: int|
                is_first_equals(s@, pos) && key@ == s@.subrange(0, pos) && value@ == s@.subrange(
                    pos + 1,
                    s@.len() as int,
                ),
            Err(e) => {
                &&& forall|k: int| 0 <= k < s@.len() ==> s@[k] != '='
                &&& e matches QuakeError::InvalidConfigProperty { property }
                &&& e->property@ == s@
            },
        },
{
    let n = s.unicode_len();
    let mut i: usize = 0;
    while i < n
        invariant
            n == s@.len(),
            i <= n,
            forall|k: int| 0 <= k < i ==> s@[k] != '=',
        decreases n - i,
    {
        if s.get_char(i) == '=' {
            let key = s.substring_char(0, i).to_owned();
            let value = s.substring_char(i + 1, n).to_owned();
            proof {
                assert(is_first_equals(s@, i as int));
            }
            return Ok((key, value));
        }
        i = i + 1;
    }
    Err(QuakeError::InvalidConfigProperty { property: s.to_owned() })
}

} // verus!
