//! Pseudo-protocol command handling: URLs that address the host player
//! rather than the network.

use vstd::prelude::*;
use crate::context::{Avm1, UpdateContext};
use crate::text::fold;

verus! {

/// The command prefix, lowercased.
pub open spec fn command_prefix() -> Seq<char> {
    "fscommand:"@
}

/// The command a URL carries: everything after the prefix, which is matched
/// case-insensitively; any other URL carries none.
pub open spec fn spec_parse(url: Seq<char>) -> Option<Seq<char>> {
    if url.len() >= 10 && fold(url.take(10)) == command_prefix() {
        Some(url.skip(10))
    } else {
        None
    }
}

/// Parse a pseudo-protocol command URL.
pub fn parse(url: &str) -> (r: Option<String>)
    ensures
        match r {
            Some(c) => spec_parse(url@) == Some(c@),
            None => spec_parse(url@) is None,
        },
{
    proof {
        reveal_strlit("fscommand:");
    }
    let len = url.unicode_len();
    if len < 10 {
        return None;
    }
    let mut i: usize = 0;
    while i < 10
        invariant
            url@.len() >= 10,
            i <= 10,
            forall|j: int|
                0 <= j < i ==> crate::text::fold_char(#[trigger] url@[j]) == command_prefix()[j],
        decreases 10 - i,
    {
        proof {
            reveal_strlit("fscommand:");
        }
        let c = crate::text::fold_char_exec(url.get_char(i));
        let expected = "fscommand:".get_char(i);
        assert(expected == command_prefix()[i as int]);
        if c != expected {
            assert(fold(url@.take(10))[i as int] != command_prefix()[i as int]);
            assert(spec_parse(url@) is None);
            return None;
        }
        i = i + 1;
    }
    proof {
        assert(fold(url@.take(10)) =~= command_prefix());
    }
    let rest = url.substring_char(10, len);
    Some(rest.to_owned())
}

/// Handle a parsed command. No command is recognized yet: the command is
/// accepted and dropped, reported as success for script compatibility.
pub fn handle(_fscommand: &str, _avm: &Avm1, _ac: &mut UpdateContext) -> (r: Result<(), ()>)
    ensures
        r is Ok,
        *final(_ac) == *old(_ac),
{
    Ok(())
}

} // verus!
