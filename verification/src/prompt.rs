//! The path shown in the prompt: the working directory, with a home-directory
//! prefix abbreviated to a tilde.

use vstd::prelude::*;
use vstd::string::StrSliceExecFns;
use vstd::string::StringExecFns;

verus! {

/// The working directory as the prompt shows it: when `cwd` starts with
/// `home`, that prefix becomes `~`; otherwise `cwd` unchanged.
pub open spec fn spec_display_path(cwd: Seq<char>, home: Seq<char>) -> Seq<char> {
    if home.len() <= cwd.len() && cwd.take(home.len() as int) == home {
        seq!['~'] + cwd.skip(home.len() as int)
    } else {
        cwd
    }
}

/// Abbreviates a home-directory prefix of `cwd` to a tilde, as
/// [`spec_display_path`] says.
pub fn display_path(cwd: &str, home: &str) -> (r: String)
    ensures
        r@ == spec_display_path(cwd@, home@),
{
    let cn: usize = cwd.unicode_len();
    let hn: usize = home.unicode_len();
    if hn <= cn {
        let mut i: usize = 0;
        let mut matches: bool = true;
        proof {
            assert(cwd@.take(0) =~= home@.take(0));
        }
        while i < hn
            invariant
                i <= hn,
                hn == home@.len(),
                cn == cwd@.len(),
                hn <= cn,
                matches == (cwd@.take(i as int) == home@.take(i as int)),
            decreases hn - i,
        {
            if cwd.get_char(i) != home.get_char(i) {
                matches = false;
            }
            proof {
                if matches {
                    assert(cwd@.take(i + 1 as int) =~= home@.take(i + 1 as int));
                } else {
                    assert(cwd@.take(i + 1 as int)[i as int] != home@.take(i + 1 as int)[i as int]
                        || cwd@.take(i as int) != home@.take(i as int));
                    assert(cwd@.take(i + 1 as int) != home@.take(i + 1 as int)) by {
                        if cwd@.take(i + 1 as int) == home@.take(i + 1 as int) {
                            assert(cwd@.take(i as int) =~= cwd@.take(i + 1 as int).take(i as int));
                            assert(home@.take(i as int) =~= home@.take(i + 1 as int).take(
                                i as int,
                            ));
                        }
                    }
                }
            }
            i += 1;
        }
        proof {
            assert(home@.take(hn as int) =~= home@);
        }
        if matches {
            let suffix: &str = cwd.substring_char(hn, cn);
            let r = String::from_str("~").concat(suffix);
            proof {
                reveal_strlit("~");
                assert(r@ =~= seq!['~'] + cwd@.skip(hn as int));
                assert(r@ =~= spec_display_path(cwd@, home@));
            }
            r
        } else {
            String::from_str(cwd)
        }
    } else {
        String::from_str(cwd)
    }
}

} // verus!
