//! The directory scanner's rule: which observed directory entries become
//! bundle entries, and when the whole scan is rejected instead.  Reading the
//! directory itself happens outside the library; the scanner is handed the
//! observations as plain values.

use crate::bundle::Bundle;
use crate::errors::{ErrorKind, SyncError};
use vstd::prelude::*;

verus! {

/// One directory entry as the surrounding program observed it.
pub struct RawEntry {
    /// Whether the entry is a regular file.  Subdirectories and other
    /// non-regular entries are skipped.
    pub is_file: bool,
    /// The entry's file name, if it was valid text.
    pub name: Option<String>,
    /// The file's content, if it could be read as valid text.
    pub content: Option<String>,
    /// How the entry's path is shown in messages.
    pub display: String,
}

/// A regular file whose name or content was not valid text.
pub open spec fn entry_bad(e: RawEntry) -> bool {
    e.is_file && (e.name is None || e.content is None)
}

/// Every regular file has a text name and text content.
pub open spec fn scan_ok(es: Seq<RawEntry>) -> bool {
    forall|i: int| 0 <= i < es.len() ==> !entry_bad(es[i])
}

/// The bundle map described by the observed entries: each regular file's
/// name mapped to its content, everything else skipped.
pub open spec fn scan_insert_all(m: Map<Seq<char>, Seq<char>>, es: Seq<RawEntry>) -> Map<
    Seq<char>,
    Seq<char>,
>
    decreases es.len(),
{
    if es.len() == 0 {
        m
    } else {
        let e = es[0];
        let m2 = if e.is_file {
            m.insert(e.name->Some_0@, e.content->Some_0@)
        } else {
            m
        };
        scan_insert_all(m2, es.skip(1))
    }
}

/// The bundle map of a scan.
pub open spec fn scan_map(es: Seq<RawEntry>) -> Map<Seq<char>, Seq<char>> {
    scan_insert_all(Map::empty(), es)
}

/// The index of the first entry that makes the scan fail.
pub open spec fn first_bad(es: Seq<RawEntry>) -> int
    decreases es.len(),
{
    if es.len() == 0 {
        0
    } else if entry_bad(es[0]) {
        0
    } else {
        1 + first_bad(es.skip(1))
    }
}

/// The message with which a bad entry is rejected.
pub open spec fn scan_err_message(e: RawEntry) -> Seq<char> {
    if e.name is None {
        "invalid text in file name: "@ + e.display@
    } else {
        "invalid text in file content: "@ + e.display@
    }
}

proof fn lemma_scan_snoc(m: Map<Seq<char>, Seq<char>>, es: Seq<RawEntry>, e: RawEntry)
    ensures
        scan_insert_all(m, es.push(e)) == (if e.is_file {
            scan_insert_all(m, es).insert(e.name->Some_0@, e.content->Some_0@)
        } else {
            scan_insert_all(m, es)
        }),
    decreases es.len(),
{
    if es.len() == 0 {
        assert(es.push(e)[0] == e);
        assert(es.push(e).skip(1) =~= Seq::<RawEntry>::empty());
        assert(scan_insert_all(m, es) == m);
        if e.is_file {
            let m2 = m.insert(e.name->Some_0@, e.content->Some_0@);
            assert(scan_insert_all(m2, es.push(e).skip(1)) == m2);
        } else {
            assert(scan_insert_all(m, es.push(e).skip(1)) == m);
        }
    } else {
        assert(es.push(e)[0] == es[0]);
        assert(es.push(e).skip(1) =~= es.skip(1).push(e));
        let m2 = if es[0].is_file {
            m.insert(es[0].name->Some_0@, es[0].content->Some_0@)
        } else {
            m
        };
        lemma_scan_snoc(m2, es.skip(1), e);
    }
}

proof fn lemma_first_bad_at(es: Seq<RawEntry>, i: int)
    requires
        0 <= i < es.len(),
        entry_bad(es[i]),
        forall|j: int| 0 <= j < i ==> !entry_bad(es[j]),
    ensures
        first_bad(es) == i,
    decreases i,
{
    if i > 0 {
        assert(!entry_bad(es[0]));
        assert(es.skip(1)[i - 1] == es[i]);
        assert(forall|j: int| 0 <= j < i - 1 ==> es.skip(1)[j] == es[j + 1]);
        lemma_first_bad_at(es.skip(1), i - 1);
    }
}

/// Builds a bundle from the observed entries of the source directory.
/// Regular files become bundle entries; everything else is skipped.  The
/// scan fails on the first file whose name or content is not valid text,
/// and returns no partial bundle.
pub fn scan_entries(entries: Vec<RawEntry>) -> (r: Result<Bundle, SyncError>)
    ensures
        scan_ok(entries@) ==> (r matches Ok(b) && b.wf() && b@ == scan_map(entries@)),
        !scan_ok(entries@) ==> (r matches Err(e) && e.spec_kind() == ErrorKind::Encoding
            && e.spec_message() == scan_err_message(entries@[first_bad(entries@)])),
{
    let n = entries.len();
    let mut b = Bundle::new();
    let mut i: usize = 0;
    proof {
        assert(entries@.subrange(0, 0) =~= Seq::<RawEntry>::empty());
    }
    while i < n
        invariant
            0 <= i <= n,
            n == entries@.len(),
            b.wf(),
            b@ == scan_insert_all(Map::empty(), entries@.subrange(0, i as int)),
            forall|j: int| 0 <= j < i ==> !entry_bad(entries@[j]),
        decreases n - i,
    {
        let e = &entries[i];
        if e.is_file {
            let name = match &e.name {
                Some(name) => name.clone(),
                None => {
                    let msg = String::from_str("invalid text in file name: ").concat(
                        e.display.as_str(),
                    );
                    proof {
                        lemma_first_bad_at(entries@, i as int);
                    }
                    return Err(SyncError::Encoding { message: msg });
                },
            };
            let content = match &e.content {
                Some(content) => content.clone(),
                None => {
                    let msg = String::from_str("invalid text in file content: ").concat(
                        e.display.as_str(),
                    );
                    proof {
                        lemma_first_bad_at(entries@, i as int);
                    }
                    return Err(SyncError::Encoding { message: msg });
                },
            };
            b.insert(name, content);
        }
        proof {
            lemma_scan_snoc(Map::empty(), entries@.subrange(0, i as int), entries@[i as int]);
            assert(entries@.subrange(0, i as int).push(entries@[i as int]) =~= entries@.subrange(
                0,
                i as int + 1,
            ));
        }
        i = i + 1;
    }
    proof {
        assert(entries@.subrange(0, n as int) =~= entries@);
    }
    Ok(b)
}

} // verus!
