//! Decisions behind the command line: splitting a `PREFIX=PATH` argument,
//! reading the interval unit, and the standard-input attach rule.

use vstd::prelude::*;
use crate::interval::IntervalUnit;
use crate::scan::copy_range;

verus! {

/// The index of the first `=` at or after `i`.
pub open spec fn eq_pos(s: Seq<u8>, i: int) -> Option<int>
    recommends
        0 <= i,
    decreases s.len() - i,
{
    if i >= s.len() {
        None
    } else if s[i] == 61 {
        Some(i)
    } else {
        eq_pos(s, i + 1)
    }
}

/// A source argument carrying its own prefix, written `PREFIX=PATH`.
pub struct PrefixedFile {
    pub prefix: Vec<u8>,
    pub path: Vec<u8>,
}

impl PrefixedFile {
    /// Splits an argument at its first `=`; without one, the whole text is
    /// the path and the prefix is empty.
    pub fn from_str(s: &Vec<u8>) -> (r: PrefixedFile)
        ensures
            (match eq_pos(s@, 0) {
                None => r.prefix@ == Seq::<u8>::empty() && r.path@ == s@,
                Some(i) => r.prefix@ == s@.subrange(0, i) && r.path@ == s@.subrange(
                    i + 1,
                    s@.len() as int,
                ),
            }),
    {
        let mut i: usize = 0;
        while i < s.len()
            invariant
                0 <= i <= s@.len(),
                eq_pos(s@, 0) == eq_pos(s@, i as int),
            decreases s@.len() - i,
        {
            if s[i] == 61 {
                let prefix = copy_range(s, 0, i);
                let path = copy_range(s, i + 1, s.len());
                return PrefixedFile { prefix, path };
            }
            i = i + 1;
        }
        let path = copy_range(s, 0, s.len());
        proof {
            assert(s@.subrange(0, s@.len() as int) =~= s@);
        }
        PrefixedFile { prefix: Vec::new(), path }
    }
}

/// The interval unit an argument names: `s` for seconds, `ms` for
/// milliseconds; anything else names none and is rejected by the caller.
pub open spec fn interval_unit_of(s: Seq<u8>) -> Option<IntervalUnit> {
    if s == seq![115u8] {
        Some(IntervalUnit::Seconds)
    } else if s == seq![109u8, 115u8] {
        Some(IntervalUnit::Milliseconds)
    } else {
        None
    }
}

/// Reads an interval unit argument.
pub fn parse_interval_unit(s: &Vec<u8>) -> (r: Option<IntervalUnit>)
    ensures
        r == interval_unit_of(s@),
{
    if s.len() == 1 && s[0] == 115 {
        proof {
            assert(s@ =~= seq![115u8]);
        }
        Some(IntervalUnit::Seconds)
    } else if s.len() == 2 && s[0] == 109 && s[1] == 115 {
        proof {
            assert(s@ =~= seq![109u8, 115u8]);
        }
        Some(IntervalUnit::Milliseconds)
    } else {
        proof {
            assert(s@ != seq![115u8]);
            assert(s@ != seq![109u8, 115u8]);
        }
        None
    }
}

/// Whether a path argument denotes standard input.
pub open spec fn spec_is_stdin(s: Seq<u8>) -> bool {
    s == seq![45u8]
}

pub fn is_stdin_path(s: &Vec<u8>) -> (r: bool)
    ensures
        r == spec_is_stdin(s@),
{
    if s.len() == 1 && s[0] == 45 {
        proof {
            assert(s@ =~= seq![45u8]);
        }
        true
    } else {
        proof {
            assert(s@ != seq![45u8]);
        }
        false
    }
}

/// The attach rule for one source argument: standard input is attached only
/// the first time it is named; a later specification that also resolves to
/// standard input is dropped whole, its classifier never constructed. The
/// result is the attach decision and the updated "standard input already
/// attached" flag.
pub fn source_decision(path: &Vec<u8>, stdin_found: bool) -> (r: (bool, bool))
    ensures
        r.0 == !(spec_is_stdin(path@) && stdin_found),
        r.1 == (stdin_found || spec_is_stdin(path@)),
{
    let is_stdin = is_stdin_path(path);
    (!(is_stdin && stdin_found), stdin_found || is_stdin)
}

} // verus!
