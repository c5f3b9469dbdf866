//! The key bundle: a mapping from file name to file content, kept as a
//! sequence of entries sorted by name so that every listing and encoding of
//! the bundle is deterministic.

use crate::chars::{lex_lt, lemma_lex_asym, lemma_lex_connex, lemma_lex_irrefl, lemma_lex_trans, str_eq, str_lex_lt};
use vstd::prelude::*;

verus! {

/// One named file of the bundle.
#[derive(Debug)]
pub struct Entry {
    /// The file's name.
    pub name: String,
    /// The file's content.
    pub content: String,
}

/// The abstract value of a sequence of entries: the map built by inserting
/// the pairs in order, so that a later entry for a name wins.
pub open spec fn insert_all(
    m: Map<Seq<char>, Seq<char>>,
    es: Seq<(Seq<char>, Seq<char>)>,
) -> Map<Seq<char>, Seq<char>>
    decreases es.len(),
{
    if es.len() == 0 {
        m
    } else {
        insert_all(m.insert(es[0].0, es[0].1), es.skip(1))
    }
}

/// The map described by a sequence of (name, content) pairs.
pub open spec fn map_of(es: Seq<(Seq<char>, Seq<char>)>) -> Map<Seq<char>, Seq<char>> {
    insert_all(Map::empty(), es)
}

/// The names of `es` are strictly increasing, hence unique.
pub open spec fn sorted_unique(es: Seq<(Seq<char>, Seq<char>)>) -> bool {
    forall|i: int, j: int| 0 <= i < j < es.len() ==> lex_lt(es[i].0, es[j].0)
}

/// `k` is not a name of `es`.
pub open spec fn fresh_name(es: Seq<(Seq<char>, Seq<char>)>, k: Seq<char>) -> bool {
    forall|i: int| 0 <= i < es.len() ==> es[i].0 != k
}

proof fn lemma_insert_all_app(
    m: Map<Seq<char>, Seq<char>>,
    a: Seq<(Seq<char>, Seq<char>)>,
    b: Seq<(Seq<char>, Seq<char>)>,
)
    ensures
        insert_all(m, a + b) == insert_all(insert_all(m, a), b),
    decreases a.len(),
{
    if a.len() == 0 {
        assert(a + b =~= b);
    } else {
        assert((a + b)[0] == a[0]);
        assert((a + b).skip(1) =~= a.skip(1) + b);
        lemma_insert_all_app(m.insert(a[0].0, a[0].1), a.skip(1), b);
    }
}

proof fn lemma_insert_all_fresh(
    m: Map<Seq<char>, Seq<char>>,
    es: Seq<(Seq<char>, Seq<char>)>,
    k: Seq<char>,
    v: Seq<char>,
)
    requires
        fresh_name(es, k),
    ensures
        insert_all(m.insert(k, v), es) == insert_all(m, es).insert(k, v),
    decreases es.len(),
{
    if es.len() == 0 {
    } else {
        let k0 = es[0].0;
        let v0 = es[0].1;
        assert(k0 != k);
        assert(m.insert(k, v).insert(k0, v0) =~= m.insert(k0, v0).insert(k, v));
        assert(fresh_name(es.skip(1), k)) by {
            assert(forall|i: int| 0 <= i < es.skip(1).len() ==> es.skip(1)[i] == es[i + 1]);
        }
        lemma_insert_all_fresh(m.insert(k0, v0), es.skip(1), k, v);
    }
}

/// A sorted sequence has no repeated name after its first entry.
proof fn lemma_sorted_fresh_head(es: Seq<(Seq<char>, Seq<char>)>)
    requires
        sorted_unique(es),
        es.len() > 0,
    ensures
        fresh_name(es.skip(1), es[0].0),
        sorted_unique(es.skip(1)),
{
    assert forall|i: int| 0 <= i < es.skip(1).len() implies es.skip(1)[i].0 != es[0].0 by {
        assert(es.skip(1)[i] == es[i + 1]);
        lemma_lex_asym(es[0].0, es[i + 1].0);
    }
    assert forall|i: int, j: int| 0 <= i < j < es.skip(1).len() implies lex_lt(
        es.skip(1)[i].0,
        es.skip(1)[j].0,
    ) by {
        assert(es.skip(1)[i] == es[i + 1]);
        assert(es.skip(1)[j] == es[j + 1]);
    }
}

/// In a sorted sequence, every entry's content is the map's value at its name.
pub proof fn lemma_map_of_sorted(es: Seq<(Seq<char>, Seq<char>)>, i: int)
    requires
        sorted_unique(es),
        0 <= i < es.len(),
    ensures
        map_of(es).contains_key(es[i].0),
        map_of(es)[es[i].0] == es[i].1,
    decreases es.len(),
{
    lemma_sorted_fresh_head(es);
    let m0 = Map::<Seq<char>, Seq<char>>::empty().insert(es[0].0, es[0].1);
    if i == 0 {
        lemma_insert_all_fresh(Map::empty(), es.skip(1), es[0].0, es[0].1);
        assert(map_of(es) == map_of(es.skip(1)).insert(es[0].0, es[0].1)) by {
            assert(insert_all(m0, es.skip(1)) == insert_all(Map::empty(), es.skip(1)).insert(
                es[0].0,
                es[0].1,
            ));
        }
    } else {
        lemma_map_of_sorted(es.skip(1), i - 1);
        assert(es.skip(1)[i - 1] == es[i]);
        lemma_insert_all_fresh(Map::empty(), es.skip(1), es[0].0, es[0].1);
        assert(insert_all(m0, es.skip(1)) == map_of(es.skip(1)).insert(es[0].0, es[0].1));
        assert(es[i].0 != es[0].0) by {
            lemma_lex_asym(es[0].0, es[i].0);
        }
    }
}

/// A name that occurs neither in the map nor among the entries is absent
/// from the combined map.
proof fn lemma_insert_all_absent(
    m: Map<Seq<char>, Seq<char>>,
    es: Seq<(Seq<char>, Seq<char>)>,
    k: Seq<char>,
)
    requires
        fresh_name(es, k),
        !m.contains_key(k),
    ensures
        !insert_all(m, es).contains_key(k),
    decreases es.len(),
{
    if es.len() > 0 {
        assert(fresh_name(es.skip(1), k)) by {
            assert(forall|i: int| 0 <= i < es.skip(1).len() ==> es.skip(1)[i] == es[i + 1]);
        }
        lemma_insert_all_absent(m.insert(es[0].0, es[0].1), es.skip(1), k);
    }
}

/// A name that is not among the entries is not in their map.
pub proof fn lemma_map_of_dom(es: Seq<(Seq<char>, Seq<char>)>, k: Seq<char>)
    requires
        fresh_name(es, k),
    ensures
        !map_of(es).contains_key(k),
{
    lemma_insert_all_absent(Map::empty(), es, k);
}

/// A mapping from file names to file contents.  The entries are kept sorted
/// by name, so listings and encodings are deterministic.
#[derive(Debug)]
pub struct Bundle {
    /// The entries, sorted strictly by name.
    pub entries: Vec<Entry>,
}

impl Bundle {
    /// The entries as a sequence of (name, content) character sequences.
    pub open spec fn entries_seq(&self) -> Seq<(Seq<char>, Seq<char>)> {
        self.entries@.map_values(|e: Entry| (e.name@, e.content@))
    }

    /// The entries are strictly sorted by name.
    pub open spec fn wf(&self) -> bool {
        sorted_unique(self.entries_seq())
    }

    /// The abstract value of the bundle: its name-to-content map.
    pub open spec fn view(&self) -> Map<Seq<char>, Seq<char>> {
        map_of(self.entries_seq())
    }

    /// An empty bundle.
    pub fn new() -> (b: Bundle)
        ensures
            b.wf(),
            b@ == Map::<Seq<char>, Seq<char>>::empty(),
            b.entries_seq() == Seq::<(Seq<char>, Seq<char>)>::empty(),
    {
        let b = Bundle { entries: Vec::new() };
        proof {
            assert(b.entries_seq() =~= Seq::<(Seq<char>, Seq<char>)>::empty());
        }
        b
    }

    /// The number of files in the bundle.
    pub fn len(&self) -> (n: usize)
        ensures
            n == self.entries_seq().len(),
    {
        self.entries.len()
    }

    /// Whether the bundle holds no files.
    pub fn is_empty(&self) -> (r: bool)
        ensures
            r == (self.entries_seq().len() == 0),
    {
        self.entries.len() == 0
    }

    /// Adds a file, replacing the content of an existing file of the same
    /// name.
    pub fn insert(&mut self, name: String, content: String)
        requires
            old(self).wf(),
        ensures
            final(self).wf(),
            final(self)@ == old(self)@.insert(name@, content@),
    {
        let ghost es0 = self.entries_seq();
        let n = self.entries.len();
        let mut i: usize = 0;
        while i < n && str_lex_lt(self.entries[i].name.as_str(), name.as_str())
            invariant
                0 <= i <= n,
                n == es0.len(),
                self.entries_seq() == es0,
                self.wf(),
                forall|j: int| 0 <= j < i ==> lex_lt(es0[j].0, name@),
            decreases n - i,
        {
            i = i + 1;
        }
        if i < n && str_eq(self.entries[i].name.as_str(), name.as_str()) {
            // replace the content of the existing entry
            let _old = self.entries.remove(i);
            self.entries.insert(i, Entry { name, content });
            proof {
                let es1 = self.entries_seq();
                assert(es1 =~= es0.subrange(0, i as int) + seq![(name@, content@)] + es0.subrange(
                    i as int + 1,
                    n as int,
                ));
                lemma_bundle_insert_view(es0, es1, i as int, name@, content@);
            }
        } else {
            // the name is new; it belongs at position i
            proof {
                if i < n {
                    assert(es0[i as int].0 == self.entries@[i as int].name@);
                    lemma_lex_connex(es0[i as int].0, name@);
                }
                assert forall|j: int| i as int <= j < es0.len() implies lex_lt(
                    name@,
                    es0[j].0,
                ) by {
                    if j > i as int {
                        lemma_lex_trans(name@, es0[i as int].0, es0[j].0);
                    }
                }
            }
            self.entries.insert(i, Entry { name, content });
            proof {
                let es1 = self.entries_seq();
                assert(es1 =~= es0.subrange(0, i as int) + seq![(name@, content@)] + es0.subrange(
                    i as int,
                    n as int,
                ));
                lemma_bundle_fresh_insert_view(es0, es1, i as int, name@, content@);
            }
        }
    }

    /// The content stored for `name`, if any.
    pub fn get(&self, name: &str) -> (r: Option<&String>)
        requires
            self.wf(),
        ensures
            match r {
                Some(c) => self@.contains_key(name@) && c@ == self@[name@],
                None => !self@.contains_key(name@),
            },
    {
        let n = self.entries.len();
        let mut i: usize = 0;
        while i < n
            invariant
                0 <= i <= n,
                n == self.entries_seq().len(),
                self.wf(),
                forall|j: int| 0 <= j < i ==> self.entries_seq()[j].0 != name@,
            decreases n - i,
        {
            if str_eq(self.entries[i].name.as_str(), name) {
                proof {
                    lemma_map_of_sorted(self.entries_seq(), i as int);
                }
                return Some(&self.entries[i].content);
            }
            i = i + 1;
        }
        proof {
            lemma_map_of_dom(self.entries_seq(), name@);
        }
        None
    }

    /// The sorted list of file names.
    pub fn names(&self) -> (r: Vec<String>)
        ensures
            r@.len() == self.entries_seq().len(),
            forall|i: int| 0 <= i < r@.len() ==> r@[i]@ == self.entries_seq()[i].0,
    {
        let n = self.entries.len();
        let mut r: Vec<String> = Vec::new();
        let mut i: usize = 0;
        while i < n
            invariant
                0 <= i <= n,
                n == self.entries_seq().len(),
                r@.len() == i,
                forall|j: int| 0 <= j < i ==> r@[j]@ == self.entries_seq()[j].0,
            decreases n - i,
        {
            r.push(self.entries[i].name.clone());
            i = i + 1;
        }
        r
    }
}

/// Replacing the entry at a sorted position keeps the order and updates the
/// map at that single name.
proof fn lemma_bundle_insert_view(
    es0: Seq<(Seq<char>, Seq<char>)>,
    es1: Seq<(Seq<char>, Seq<char>)>,
    i: int,
    k: Seq<char>,
    v: Seq<char>,
)
    requires
        sorted_unique(es0),
        0 <= i < es0.len(),
        es0[i].0 == k,
        es1 == es0.subrange(0, i) + seq![(k, v)] + es0.subrange(i + 1, es0.len() as int),
    ensures
        sorted_unique(es1),
        map_of(es1) == map_of(es0).insert(k, v),
{
    assert(es1.len() == es0.len());
    assert(forall|j: int| 0 <= j < es1.len() && j != i ==> es1[j] == es0[j]);
    assert(es1[i] == (k, v));
    assert forall|p: int, q: int| 0 <= p < q < es1.len() implies lex_lt(es1[p].0, es1[q].0) by {
        assert(es1[p].0 == es0[p].0);
        assert(es1[q].0 == es0[q].0);
    }
    lemma_split_view(es0, i);
    lemma_split_view(es1, i);
    let a0 = es0.subrange(0, i);
    let b0 = es0.subrange(i + 1, es0.len() as int);
    let a1 = es1.subrange(0, i);
    let b1 = es1.subrange(i + 1, es1.len() as int);
    assert(a1 =~= a0);
    assert(b1 =~= b0);
    assert(fresh_name(b0, k)) by {
        assert forall|j: int| 0 <= j < b0.len() implies b0[j].0 != k by {
            assert(b0[j] == es0[i + 1 + j]);
            lemma_lex_asym(k, es0[i + 1 + j].0);
        }
    }
    let am = insert_all(Map::empty(), a0);
    lemma_insert_all_fresh(am, b0, k, es0[i].1);
    lemma_insert_all_fresh(am, b0, k, v);
    assert(map_of(es0) == insert_all(am, b0).insert(k, es0[i].1));
    assert(map_of(es1) == insert_all(am, b0).insert(k, v));
    assert(insert_all(am, b0).insert(k, es0[i].1).insert(k, v) =~= insert_all(am, b0).insert(
        k,
        v,
    ));
}

/// Splitting a sequence at an inner entry factors its map through that entry.
proof fn lemma_split_view(es: Seq<(Seq<char>, Seq<char>)>, i: int)
    requires
        0 <= i < es.len(),
    ensures
        map_of(es) == insert_all(
            insert_all(Map::empty(), es.subrange(0, i)).insert(es[i].0, es[i].1),
            es.subrange(i + 1, es.len() as int),
        ),
{
    let a = es.subrange(0, i);
    let mid = seq![(es[i].0, es[i].1)];
    let b = es.subrange(i + 1, es.len() as int);
    assert(es =~= a + mid + b);
    lemma_insert_all_app(Map::empty(), a + mid, b);
    lemma_insert_all_app(Map::empty(), a, mid);
    let am = insert_all(Map::empty(), a);
    assert(mid[0] == (es[i].0, es[i].1));
    assert(insert_all(am, mid) == insert_all(am.insert(mid[0].0, mid[0].1), mid.skip(1)));
    assert(mid.skip(1).len() == 0);
    assert(insert_all(am.insert(mid[0].0, mid[0].1), mid.skip(1)) == am.insert(
        mid[0].0,
        mid[0].1,
    ));
}

/// Inserting a fresh name at its sorted position keeps the order and adds the
/// pair to the map.
proof fn lemma_bundle_fresh_insert_view(
    es0: Seq<(Seq<char>, Seq<char>)>,
    es1: Seq<(Seq<char>, Seq<char>)>,
    i: int,
    k: Seq<char>,
    v: Seq<char>,
)
    requires
        sorted_unique(es0),
        0 <= i <= es0.len(),
        forall|j: int| 0 <= j < i ==> lex_lt(es0[j].0, k),
        forall|j: int| i <= j < es0.len() ==> lex_lt(k, es0[j].0),
        es1 == es0.subrange(0, i) + seq![(k, v)] + es0.subrange(i, es0.len() as int),
    ensures
        sorted_unique(es1),
        map_of(es1) == map_of(es0).insert(k, v),
{
    assert(es1.len() == es0.len() + 1);
    assert(forall|j: int| 0 <= j < i ==> es1[j] == es0[j]);
    assert(es1[i] == (k, v));
    assert(forall|j: int| i < j < es1.len() ==> es1[j] == es0[j - 1]);
    assert forall|p: int, q: int| 0 <= p < q < es1.len() implies lex_lt(es1[p].0, es1[q].0) by {
        if p < i && q < i {
        } else if p < i && q == i {
        } else if p < i && q > i {
            lemma_lex_trans(es0[p].0, k, es0[q - 1].0);
        } else if p == i && q > i {
        } else if p > i && q > i {
        }
    }
    lemma_split_view(es1, i);
    let a = es1.subrange(0, i);
    let b = es1.subrange(i + 1, es1.len() as int);
    assert(a =~= es0.subrange(0, i));
    assert(b =~= es0.subrange(i, es0.len() as int));
    assert(es0 =~= es0.subrange(0, i) + es0.subrange(i, es0.len() as int));
    lemma_insert_all_app(Map::empty(), es0.subrange(0, i), es0.subrange(i, es0.len() as int));
    assert(fresh_name(b, k)) by {
        assert forall|j: int| 0 <= j < b.len() implies b[j].0 != k by {
            assert(b[j] == es0[i + j]);
            lemma_lex_asym(k, es0[i + j].0);
        }
    }
    lemma_insert_all_fresh(insert_all(Map::empty(), a), b, k, v);
}

/// The map of a sorted sequence factors through its first entry, whose name
/// is not among the rest.
pub proof fn lemma_map_of_head(es: Seq<(Seq<char>, Seq<char>)>)
    requires
        sorted_unique(es),
        es.len() > 0,
    ensures
        map_of(es) == map_of(es.skip(1)).insert(es[0].0, es[0].1),
        !map_of(es.skip(1)).contains_key(es[0].0),
{
    lemma_sorted_fresh_head(es);
    lemma_insert_all_fresh(Map::empty(), es.skip(1), es[0].0, es[0].1);
    lemma_map_of_dom(es.skip(1), es[0].0);
}

/// A name in the map of a sequence is the name of one of its entries.
pub proof fn lemma_map_of_keys(es: Seq<(Seq<char>, Seq<char>)>, k: Seq<char>)
    requires
        map_of(es).contains_key(k),
    ensures
        exists|i: int| 0 <= i < es.len() && es[i].0 == k,
{
    if fresh_name(es, k) {
        lemma_map_of_dom(es, k);
    }
}

/// A sorted sequence of entries is determined by its map: the bundle's
/// sorted representation is canonical.
pub proof fn lemma_sorted_unique_canonical(
    a: Seq<(Seq<char>, Seq<char>)>,
    b: Seq<(Seq<char>, Seq<char>)>,
)
    requires
        sorted_unique(a),
        sorted_unique(b),
        map_of(a) == map_of(b),
    ensures
        a == b,
    decreases a.len(),
{
    if a.len() == 0 {
        if b.len() > 0 {
            lemma_map_of_sorted(b, 0);
        }
        assert(a =~= b);
    } else if b.len() == 0 {
        lemma_map_of_sorted(a, 0);
    } else {
        let ka = a[0].0;
        let kb = b[0].0;
        if ka != kb {
            lemma_map_of_sorted(a, 0);
            lemma_map_of_sorted(b, 0);
            lemma_map_of_keys(b, ka);
            let i = choose|i: int| 0 <= i < b.len() && b[i].0 == ka;
            assert(i > 0);
            assert(lex_lt(kb, ka));
            lemma_map_of_keys(a, kb);
            let j = choose|j: int| 0 <= j < a.len() && a[j].0 == kb;
            assert(j > 0);
            assert(lex_lt(ka, kb));
            lemma_lex_trans(ka, kb, ka);
            lemma_lex_irrefl(ka);
        }
        assert(ka == kb);
        lemma_map_of_sorted(a, 0);
        lemma_map_of_sorted(b, 0);
        assert(a[0].1 == map_of(a)[ka]);
        assert(b[0].1 == map_of(b)[ka]);
        assert(a[0] == b[0]);
        lemma_map_of_head(a);
        lemma_map_of_head(b);
        lemma_sorted_fresh_head(a);
        lemma_sorted_fresh_head(b);
        assert(map_of(a.skip(1)) =~= map_of(b.skip(1))) by {
            assert(map_of(a.skip(1)) == map_of(a).remove(ka)) by {
                assert(map_of(a) == map_of(a.skip(1)).insert(ka, a[0].1));
                assert(map_of(a).remove(ka) =~= map_of(a.skip(1)));
            }
            assert(map_of(b.skip(1)) == map_of(b).remove(ka)) by {
                assert(map_of(b) == map_of(b.skip(1)).insert(ka, b[0].1));
                assert(map_of(b).remove(ka) =~= map_of(b.skip(1)));
            }
        }
        lemma_sorted_unique_canonical(a.skip(1), b.skip(1));
        assert(a =~= b) by {
            assert(forall|i: int| 0 < i < a.len() ==> a[i] == a.skip(1)[i - 1]);
            assert(forall|i: int| 0 < i < b.len() ==> b[i] == b.skip(1)[i - 1]);
        }
    }
}

} // verus!
