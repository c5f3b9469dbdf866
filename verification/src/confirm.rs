//! The confirmation gate's rule: how one line of operator input is read.
//! The answer is affirmative or negative when, after trimming surrounding
//! whitespace, it matches `yes`/`y` or `no`/`n` in any letter case; any
//! other line asks again.

use crate::chars::{char_from_code, chars_of};
use crate::codec::{is_json_ws, skip_ws, skip_ws_exec};
use vstd::prelude::*;

verus! {

broadcast use vstd::utf8::char_is_scalar, vstd::utf8::char_u32_cast;

/// What one line of operator input means.
#[derive(Clone, Copy, Debug, PartialEq, Eq, Structural)]
pub enum Answer {
    /// The operator confirmed; the operation proceeds.
    Affirm,
    /// The operator declined; the operation ends successfully with nothing
    /// done.
    Deny,
    /// The line was neither; the operator is asked again.
    Reprompt,
}

/// The input without its trailing whitespace.
pub open spec fn skip_ws_end(s: Seq<char>) -> Seq<char>
    decreases s.len(),
{
    if s.len() > 0 && is_json_ws(s.last()) {
        skip_ws_end(s.drop_last())
    } else {
        s
    }
}

/// The input without its surrounding whitespace.
pub open spec fn trim(s: Seq<char>) -> Seq<char> {
    skip_ws_end(skip_ws(s))
}

/// The letter with an upper-case letter folded to lower case.
pub open spec fn lower_char(c: char) -> char {
    if 'A' as u32 <= c as u32 && c as u32 <= 'Z' as u32 {
        ((c as u32 + 32) as u32) as char
    } else {
        c
    }
}

/// The input with its letters folded to lower case.
pub open spec fn lower(s: Seq<char>) -> Seq<char> {
    s.map_values(|c: char| lower_char(c))
}

/// What a line of operator input means: `yes` and `y` affirm, `no` and `n`
/// deny, anything else asks again; case and surrounding whitespace do not
/// matter.
pub open spec fn spec_answer(line: Seq<char>) -> Answer {
    let t = lower(trim(line));
    if t == "yes"@ || t == "y"@ {
        Answer::Affirm
    } else if t == "no"@ || t == "n"@ {
        Answer::Deny
    } else {
        Answer::Reprompt
    }
}

/// The letter with an upper-case letter folded to lower case.
fn lower_char_exec(c: char) -> (r: char)
    ensures
        r == lower_char(c),
{
    let u = c as u32;
    if 65 <= u && u <= 90 {
        match char_from_code(u + 32) {
            Some(l) => l,
            None => {
                proof {
                    assert(crate::valid_char_code((u + 32) as u32));
                    assert(false);
                }
                vstd::pervasive::unreached()
            },
        }
    } else {
        c
    }
}

proof fn lemma_skip_ws_end_drop(s: Seq<char>, j: int)
    requires
        0 <= j <= s.len(),
        forall|k: int| j <= k < s.len() ==> is_json_ws(s[k]),
    ensures
        skip_ws_end(s) == skip_ws_end(s.subrange(0, j)),
    decreases s.len() - j,
{
    if j < s.len() {
        assert(is_json_ws(s.last()));
        lemma_skip_ws_end_drop(s.drop_last(), j);
        assert(s.drop_last().subrange(0, j) =~= s.subrange(0, j));
    } else {
        assert(s.subrange(0, j) =~= s);
    }
}

fn ws_at(cs: &Vec<char>, k: usize) -> (r: bool)
    requires
        k < cs@.len(),
    ensures
        r == is_json_ws(cs@[k as int]),
{
    let c = cs[k];
    c == ' ' || c == '\t' || c == '\n' || c == '\r'
}

/// Reads one line of operator input.
pub fn classify_answer(line: &str) -> (a: Answer)
    ensures
        a == spec_answer(line@),
{
    let cs = chars_of(line);
    let n = cs.len();
    proof {
        assert(cs@.skip(0) =~= line@);
    }
    let i = skip_ws_exec(&cs, 0);
    let ghost mid = cs@.skip(i as int);
    let mut j: usize = n;
    while j > i && ws_at(&cs, j - 1)
        invariant
            i <= j <= n,
            n == cs@.len(),
            mid == cs@.skip(i as int),
            forall|k: int| j <= k < n ==> is_json_ws(cs@[k]),
        decreases j,
    {
        j = j - 1;
    }
    let ghost t = trim(line@);
    proof {
        assert forall|k: int| (j - i) <= k < mid.len() implies is_json_ws(mid[k]) by {
            assert(mid[k] == cs@[i + k]);
        }
        lemma_skip_ws_end_drop(mid, j - i);
        assert(t == skip_ws_end(mid));
        assert(t == mid.subrange(0, j - i));
        assert forall|k: int| 0 <= k < j - i implies t[k] == cs@[i + k] by {
            assert(mid[k] == cs@[i + k]);
        }
        if j > i {
            assert(t.len() > 0);
        }
    }
    let m = j - i;
    let ghost lt = lower(t);
    proof {
        assert(lt.len() == t.len());
        assert(forall|k: int| 0 <= k < t.len() ==> lt[k] == lower_char(t[k]));
        reveal_strlit("yes");
        reveal_strlit("y");
        reveal_strlit("no");
        reveal_strlit("n");
    }
    if m == 3 {
        let c0 = lower_char_exec(cs[i]);
        let c1 = lower_char_exec(cs[i + 1]);
        let c2 = lower_char_exec(cs[i + 2]);
        proof {
            assert(t[0] == cs@[i as int]);
            assert(t[1] == cs@[i as int + 1]);
            assert(t[2] == cs@[i as int + 2]);
            assert(lt[0] == lower_char(t[0]));
            assert(lt[1] == lower_char(t[1]));
            assert(lt[2] == lower_char(t[2]));
            assert(lt[0] == c0 && lt[1] == c1 && lt[2] == c2);
        }
        if c0 == 'y' && c1 == 'e' && c2 == 's' {
            proof {
                assert(lt =~= "yes"@);
            }
            return Answer::Affirm;
        }
        proof {
            assert(lt != "yes"@ && lt != "y"@ && lt != "no"@ && lt != "n"@);
        }
        return Answer::Reprompt;
    }
    if m == 2 {
        let c0 = lower_char_exec(cs[i]);
        let c1 = lower_char_exec(cs[i + 1]);
        proof {
            assert(t[0] == cs@[i as int]);
            assert(t[1] == cs@[i as int + 1]);
            assert(lt[0] == lower_char(t[0]));
            assert(lt[1] == lower_char(t[1]));
            assert(lt[0] == c0 && lt[1] == c1);
        }
        if c0 == 'n' && c1 == 'o' {
            proof {
                assert(lt =~= "no"@);
            }
            return Answer::Deny;
        }
        proof {
            assert(lt != "yes"@ && lt != "y"@ && lt != "no"@ && lt != "n"@);
        }
        return Answer::Reprompt;
    }
    if m == 1 {
        let c0 = lower_char_exec(cs[i]);
        proof {
            assert(t[0] == cs@[i as int]);
            assert(lt[0] == lower_char(t[0]));
            assert(lt[0] == c0);
        }
        if c0 == 'y' {
            proof {
                assert(lt =~= "y"@);
            }
            return Answer::Affirm;
        }
        if c0 == 'n' {
            proof {
                assert(lt =~= "n"@);
            }
            return Answer::Deny;
        }
        proof {
            assert(lt != "yes"@ && lt != "y"@ && lt != "no"@ && lt != "n"@);
        }
        return Answer::Reprompt;
    }
    proof {
        assert(lt.len() != 3 && lt.len() != 2 && lt.len() != 1);
        assert(lt != "yes"@ && lt != "y"@ && lt != "no"@ && lt != "n"@);
    }
    Answer::Reprompt
}

} // verus!
