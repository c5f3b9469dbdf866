//! The materializer's rule: what is written where, and with which mode, when
//! a bundle is laid out as files.  Writing the files happens outside the
//! library; the materializer produces the exact plan.

use crate::bundle::Bundle;
use vstd::prelude::*;

verus! {

/// Whether `s` ends in `suf`.
pub open spec fn ends_with(s: Seq<char>, suf: Seq<char>) -> bool {
    suf.len() <= s.len() && s.skip(s.len() - suf.len()) == suf
}

/// The mode of a materialized file: names of public keys are readable by
/// everyone, all other names are readable by the owner alone.
pub open spec fn spec_mode(name: Seq<char>) -> u32 {
    if ends_with(name, ".pub"@) || ends_with(name, ".public"@) {
        0o444
    } else {
        0o400
    }
}

/// Whether `s` ends in `suffix`.
pub fn str_ends_with(s: &str, suffix: &str) -> (r: bool)
    ensures
        r == ends_with(s@, suffix@),
{
    let n = s.unicode_len();
    let m = suffix.unicode_len();
    if m > n {
        return false;
    }
    let base = n - m;
    let mut j: usize = 0;
    while j < m
        invariant
            0 <= j <= m,
            m <= n,
            base == n - m,
            n == s@.len(),
            m == suffix@.len(),
            forall|k: int| 0 <= k < j ==> s@[base + k] == suffix@[k],
        decreases m - j,
    {
        if s.get_char(base + j) != suffix.get_char(j) {
            proof {
                let tail = s@.skip(base as int);
                assert(tail[j as int] == s@[base + j]);
                if tail == suffix@ {
                    assert(tail[j as int] == suffix@[j as int]);
                }
            }
            return false;
        }
        j = j + 1;
    }
    proof {
        let tail = s@.skip(base as int);
        assert(tail =~= suffix@) by {
            assert(forall|k: int| 0 <= k < m ==> tail[k] == s@[base + k]);
        }
    }
    true
}

/// The mode with which the named file is created.
pub fn mode_for(name: &str) -> (m: u32)
    ensures
        m == spec_mode(name@),
{
    if str_ends_with(name, ".pub") || str_ends_with(name, ".public") {
        0o444
    } else {
        0o400
    }
}

/// One file to create: its name, its creation mode, and its content.
pub struct FilePlan {
    /// The file's name, directly under the target directory.
    pub name: String,
    /// The mode bits fixed at creation.
    pub mode: u32,
    /// The bytes to write, verbatim.
    pub content: String,
}

/// `ps` lays out exactly the entries `es`, in order, with the mode policy.
pub open spec fn plan_matches(ps: Seq<FilePlan>, es: Seq<(Seq<char>, Seq<char>)>) -> bool {
    ps.len() == es.len() && forall|i: int|
        0 <= i < ps.len() ==> ps[i].name@ == es[i].0 && ps[i].content@ == es[i].1 && ps[i].mode
            == spec_mode(es[i].0)
}

/// The exact plan for laying the bundle out as files: one file per entry, in
/// sorted name order, with the mode policy applied to each name.
pub fn materialize_plan(b: &Bundle) -> (ps: Vec<FilePlan>)
    ensures
        plan_matches(ps@, b.entries_seq()),
{
    let n = b.entries.len();
    let mut ps: Vec<FilePlan> = Vec::new();
    let mut i: usize = 0;
    while i < n
        invariant
            0 <= i <= n,
            n == b.entries_seq().len(),
            ps@.len() == i,
            forall|j: int|
                0 <= j < i ==> ps@[j].name@ == b.entries_seq()[j].0 && ps@[j].content@
                    == b.entries_seq()[j].1 && ps@[j].mode == spec_mode(b.entries_seq()[j].0),
        decreases n - i,
    {
        let name = b.entries[i].name.clone();
        let mode = mode_for(name.as_str());
        let content = b.entries[i].content.clone();
        ps.push(FilePlan { name, mode, content });
        i = i + 1;
    }
    ps
}

} // verus!
