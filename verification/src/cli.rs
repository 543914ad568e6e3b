//! Reading the agent's command line.

use crate::text;
use vstd::prelude::*;

verus! {

/// The spellings of yes, in lower case.
pub open spec fn says_yes(s: Seq<char>) -> bool {
    s == "1"@ || s == "true"@ || s == "yes"@ || s == "on"@
}

/// The spellings of no, in lower case.
pub open spec fn says_no(s: Seq<char>) -> bool {
    s == "0"@ || s == "false"@ || s == "no"@ || s == "off"@ || s == ""@
}

/// Accept the spellings people actually put in a compose file.
///
/// clap's own bool parser takes only `true`/`false`, and everybody writes `1`.
pub fn lenient_bool(raw: &str) -> (r: Result<bool, String>)
    ensures
        ({
            let s = text::lower(text::trim(raw@));
            match r {
                Ok(b) => if b {
                    says_yes(s)
                } else {
                    says_no(s)
                },
                Err(e) => !says_yes(s) && !says_no(s) && e@ == "expected true or false, got `"@ + s
                    + "`"@,
            }
        }),
{
    let trimmed = text::trimmed(raw);
    let s = text::lowered(trimmed.as_str());
    let s = s.as_str();
    if text::same_text(s, "1") || text::same_text(s, "true") || text::same_text(s, "yes")
        || text::same_text(s, "on") {
        Ok(true)
    } else if text::same_text(s, "0") || text::same_text(s, "false") || text::same_text(s, "no")
        || text::same_text(s, "off") || text::same_text(s, "") {
        Ok(false)
    } else {
        let mut e = "expected true or false, got `".to_owned();
        e.append(s);
        e.append("`");
        Err(e)
    }
}

/// No spelling says both.
pub proof fn law_spellings_are_unambiguous(s: Seq<char>)
    ensures
        !(says_yes(s) && says_no(s)),
{
    reveal_strlit("1");
    reveal_strlit("true");
    reveal_strlit("yes");
    reveal_strlit("on");
    reveal_strlit("0");
    reveal_strlit("false");
    reveal_strlit("no");
    reveal_strlit("off");
    reveal_strlit("");
    if says_yes(s) && says_no(s) {
        assert(s.len() == 1 || s.len() == 4 || s.len() == 3 || s.len() == 2);
        if s.len() == 1 {
            assert("1"@[0] != "0"@[0]);
        } else if s.len() == 3 {
            assert("yes"@[0] != "off"@[0]);
        } else if s.len() == 2 {
            assert("on"@[0] != "no"@[0]);
        }
    }
}

} // verus!
