use std::collections::HashMap;
use vstd::prelude::*;

use crate::conventional::{key_of, path_key};
use crate::text::{
    chars_of, find_last_slash, lemma_last_slash, lemma_parent_shorter, name_of, parent_of,
    string_of, trim_end_slashes, trimmed_len,
};
use crate::crawler::Files;
use crate::{FoMetadata, InfoView};

verus! {

broadcast use vstd::std_specs::hash::group_hash_axioms;

/// One child of a directory: the directory, the child's name and whether
/// it is a file or a directory.
pub type DirTriple = (Seq<char>, Seq<char>, FoMetadata);

/// A child registered under a parent directory.
#[derive(Debug)]
pub struct DirEntry {
    pub parent: String,
    pub name: String,
    pub kind: FoMetadata,
}

impl View for DirEntry {
    type V = DirTriple;

    open spec fn view(&self) -> DirTriple {
        (self.parent@, self.name@, self.kind)
    }
}

/// The directory index. Entries are kept in buckets under the key of their
/// parent directory.
#[derive(Debug)]
pub struct Dirs {
    pub map: HashMap<u32, Vec<DirEntry>>,
}

/// `parent` has a child called `name` in the index `d`.
pub open spec fn has_pair(d: Set<DirTriple>, parent: Seq<char>, name: Seq<char>) -> bool {
    d.contains((parent, name, FoMetadata::File)) || d.contains((parent, name, FoMetadata::Dir))
}

/// `parent` has a child in the index `d`.
pub open spec fn has_children(d: Set<DirTriple>, parent: Seq<char>) -> bool {
    exists|t: DirTriple| #[trigger] d.contains(t) && t.0 == parent
}

/// Every directory that has a child is itself registered under its own
/// parent.
pub open spec fn closed(d: Set<DirTriple>) -> bool {
    forall|t: DirTriple|
        #[trigger] d.contains(t) && t.0.len() > 0 ==> has_pair(d, parent_of(t.0), name_of(t.0))
}

/// The `n`-th ancestor of a path.
pub open spec fn ancestor(p: Seq<char>, n: nat) -> Seq<char>
    decreases n,
{
    if n == 0 {
        p
    } else {
        parent_of(ancestor(p, (n - 1) as nat))
    }
}

/// The `n`-th ancestor of `p` is visited when `p` is registered: `p`
/// itself, and each ancestor that is not the root.
pub open spec fn chain_member(p: Seq<char>, n: nat) -> bool {
    n == 0 || ancestor(p, n).len() > 0
}

/// The child that registering `p` as `kind` records for its `n`-th ancestor.
pub open spec fn chain_triple(p: Seq<char>, n: nat, kind: FoMetadata) -> DirTriple {
    (
        parent_of(ancestor(p, n)),
        name_of(ancestor(p, n)),
        if n == 0 {
            kind
        } else {
            FoMetadata::Dir
        },
    )
}

/// Registering `p` as `kind` took the index `before` to `after`: what was
/// there stays, each chain member of `p` is a registered child, and each
/// new child is one of the chain that was missing.
pub open spec fn registered(
    before: Set<DirTriple>,
    after: Set<DirTriple>,
    p: Seq<char>,
    kind: FoMetadata,
) -> bool {
    &&& before.subset_of(after)
    &&& forall|n: nat|
        chain_member(p, n) ==> has_pair(
            after,
            parent_of(#[trigger] ancestor(p, n)),
            name_of(ancestor(p, n)),
        )
    &&& forall|t: DirTriple|
        after.contains(t) && !before.contains(t) ==> exists|n: nat|
            chain_member(p, n) && t == #[trigger] chain_triple(p, n, kind)
}

proof fn lemma_parent_of_empty(p: Seq<char>)
    requires
        p.len() == 0,
    ensures
        parent_of(p) == Seq::<char>::empty(),
{
}

/// In a closed index, once a chain member is registered, so is each later
/// one.
proof fn lemma_chain_closed(d: Set<DirTriple>, p: Seq<char>, s: nat, n: nat)
    requires
        closed(d),
        has_pair(d, parent_of(ancestor(p, s)), name_of(ancestor(p, s))),
        s <= n,
        n == s || ancestor(p, n).len() > 0,
    ensures
        has_pair(d, parent_of(ancestor(p, n)), name_of(ancestor(p, n))),
    decreases n - s,
{
    if n > s {
        let m = (n - 1) as nat;
        if ancestor(p, m).len() == 0 {
            lemma_parent_of_empty(ancestor(p, m));
        }
        lemma_chain_closed(d, p, s, m);
        let a = ancestor(p, m);
        if d.contains((parent_of(a), name_of(a), FoMetadata::File)) {
            assert(d.contains((parent_of(a), name_of(a), FoMetadata::File)));
        } else {
            assert(d.contains((parent_of(a), name_of(a), FoMetadata::Dir)));
        }
    }
}

/// Past an empty ancestor every ancestor is empty.
proof fn lemma_chain_ends(p: Seq<char>, s: nat, n: nat)
    requires
        ancestor(p, s).len() == 0,
        s <= n,
    ensures
        ancestor(p, n).len() == 0,
    decreases n - s,
{
    if n > s {
        lemma_chain_ends(p, s, (n - 1) as nat);
        lemma_parent_of_empty(ancestor(p, (n - 1) as nat));
    }
}

/// `d` indexes exactly the paths of `paths`: the chain of each is
/// registered, and each child stands in the chain of one of them.
pub open spec fn indexes(d: Set<DirTriple>, paths: Set<Seq<char>>) -> bool {
    &&& forall|p: Seq<char>, n: nat|
        #![trigger paths.contains(p), ancestor(p, n)]
        paths.contains(p) && chain_member(p, n) ==> has_pair(
            d,
            parent_of(ancestor(p, n)),
            name_of(ancestor(p, n)),
        )
    &&& forall|t: DirTriple|
        #[trigger] d.contains(t) ==> exists|p: Seq<char>, n: nat|
            #![trigger paths.contains(p), chain_triple(p, n, FoMetadata::File)]
            paths.contains(p) && chain_member(p, n) && t == chain_triple(p, n, FoMetadata::File)
}

/// The conventional paths of a registry.
pub open spec fn paths_of(files: Map<u32, InfoView>) -> Set<Seq<char>> {
    files.dom().map(|k: u32| files[k].conventional_path)
}

impl View for Dirs {
    type V = Set<DirTriple>;

    open spec fn view(&self) -> Set<DirTriple> {
        Set::new(|t: DirTriple| exists|k: u32, i: int| #[trigger] self.holds(k, i, t))
    }
}

impl Dirs {
    /// Bucket `k` holds the triple `t` at position `i`.
    pub open spec fn holds(&self, k: u32, i: int, t: DirTriple) -> bool {
        &&& self.map@.contains_key(k)
        &&& 0 <= i < self.map@[k].len()
        &&& self.map@[k][i]@ == t
    }

    /// Each entry is in the bucket of its parent's key, and no bucket holds
    /// a child twice.
    pub open spec fn wf(&self) -> bool {
        &&& forall|k: u32, i: int|
            #![trigger self.map@[k][i]]
            self.map@.contains_key(k) && 0 <= i < self.map@[k].len() ==> path_key(
                self.map@[k][i].parent@,
            ) == k
        &&& forall|k: u32, i: int, j: int|
            #![trigger self.map@[k][i], self.map@[k][j]]
            self.map@.contains_key(k) && 0 <= i < self.map@[k].len() && 0 <= j
                < self.map@[k].len() && i != j ==> (self.map@[k][i].parent@, self.map@[k][i].name@)
                != (self.map@[k][j].parent@, self.map@[k][j].name@)
    }

    pub fn new() -> (r: Dirs)
        ensures
            r.wf(),
            r@ == Set::<DirTriple>::empty(),
    {
        let r = Dirs { map: HashMap::new() };
        assert(r@ =~= Set::<DirTriple>::empty());
        r
    }

    /// The child `name` of `parent` is registered.
    pub fn contains_pair(&self, parent: &str, name: &str) -> (r: bool)
        requires
            self.wf(),
        ensures
            r == has_pair(self@, parent@, name@),
    {
        let key = key_of(parent);
        match self.map.get(&key) {
            None => {
                assert forall|t: DirTriple| self@.contains(t) implies t.0 != parent@ by {
                    let (k, i) = choose|k: u32, i: int| self.holds(k, i, t);
                    assert(path_key(self.map@[k][i].parent@) == k);
                }
                false
            },
            Some(bucket) => {
                let parent_s = parent.to_owned();
                let name_s = name.to_owned();
                let mut j: usize = 0;
                while j < bucket.len()
                    invariant
                        self.map@.contains_key(key),
                        bucket@ == self.map@[key]@,
                        parent_s@ == parent@,
                        name_s@ == name@,
                        j <= bucket.len(),
                        forall|m: int|
                            0 <= m < j ==> (#[trigger] bucket@[m].parent@, bucket@[m].name@) != (
                                parent@,
                                name@,
                            ),
                    decreases bucket.len() - j,
                {
                    if bucket[j].parent == parent_s && bucket[j].name == name_s {
                        assert(self.holds(key, j as int, bucket@[j as int]@));
                        return true;
                    }
                    j += 1;
                }
                assert forall|t: DirTriple|
                    self@.contains(t) && t.0 == parent@ implies t.1 != name@ by {
                    let (k, i) = choose|k: u32, i: int| self.holds(k, i, t);
                    assert(path_key(self.map@[k][i].parent@) == k);
                    assert(bucket@[i].parent@ == t.0);
                }
                false
            },
        }
    }

    /// Adds a child that is not registered yet.
    pub fn insert_entry(&mut self, entry: DirEntry)
        requires
            old(self).wf(),
            !has_pair(old(self)@, entry.parent@, entry.name@),
        ensures
            final(self).wf(),
            final(self)@ == old(self)@.insert(entry@),
    {
        let ghost e = entry@;
        let key = key_of(entry.parent.as_str());
        let mut bucket = match self.map.remove(&key) {
            Some(b) => b,
            None => Vec::new(),
        };
        let ghost oldb = bucket@;
        let ghost mid = self.map@;
        assert(old(self).map@.contains_key(key) ==> oldb == old(self).map@[key]@);
        assert(!old(self).map@.contains_key(key) ==> oldb.len() == 0);
        bucket.push(entry);
        self.map.insert(key, bucket);
        assert forall|m: int| 0 <= m < oldb.len() implies (#[trigger] oldb[m].parent@, oldb[m].name@)
            != (e.0, e.1) by {
            assert(old(self).holds(key, m, oldb[m]@));
        }
        assert forall|t: DirTriple| self@.contains(t) implies old(self)@.insert(e).contains(t) by {
            let (k, i) = choose|k: u32, i: int| self.holds(k, i, t);
            if k == key {
                if i < oldb.len() {
                    assert(old(self).holds(k, i, t));
                }
            } else {
                assert(old(self).holds(k, i, t));
            }
        }
        assert forall|t: DirTriple| old(self)@.insert(e).contains(t) implies self@.contains(t) by {
            if t == e {
                assert(self.holds(key, oldb.len() as int, t));
            } else {
                let (k, i) = choose|k: u32, i: int| old(self).holds(k, i, t);
                assert(self.holds(k, i, t));
            }
        }
        assert(self@ =~= old(self)@.insert(e));
    }
    /// Registers `path` as a child of its parent directory, then each
    /// ancestor as a directory, up to the first one already registered.
    pub fn register(&mut self, path: &str, kind: FoMetadata)
        requires
            old(self).wf(),
            closed(old(self)@),
        ensures
            final(self).wf(),
            closed(final(self)@),
            registered(old(self)@, final(self)@, path@, kind),
    {
        let ghost p = path@;
        let mut cur = chars_of(path);
        let mut cur_kind = kind;
        let ghost mut steps: nat = 0;
        loop
            invariant_except_break
                cur@ == ancestor(p, steps),
                chain_member(p, steps),
                cur_kind == (if steps == 0 {
                    kind
                } else {
                    FoMetadata::Dir
                }),
                forall|t: DirTriple|
                    #[trigger] self@.contains(t) && t.0.len() > 0 ==> has_pair(
                        self@,
                        parent_of(t.0),
                        name_of(t.0),
                    ) || t.0 == cur@,
                forall|m: nat|
                    m < steps ==> has_pair(
                        self@,
                        parent_of(#[trigger] ancestor(p, m)),
                        name_of(ancestor(p, m)),
                    ),
                forall|t: DirTriple|
                    self@.contains(t) && !old(self)@.contains(t) ==> exists|m: nat|
                        m < steps && chain_member(p, m) && t == #[trigger] chain_triple(
                            p,
                            m,
                            kind,
                        ),
            invariant
                p == path@,
                self.wf(),
                old(self)@.subset_of(self@),
            ensures
                closed(self@),
                registered(old(self)@, self@, p, kind),
            decreases cur@.len(),
        {
            let ghost a = cur@;
            proof {
                lemma_last_slash(a);
            }
            let slash = find_last_slash(&cur);
            let (parent, name) = match slash {
                Some(i) => (string_of(&cur, 0, i), string_of(&cur, i + 1, cur.len())),
                None => (String::new(), string_of(&cur, 0, cur.len())),
            };
            proof {
                lemma_last_slash(a);
                assert(parent@ == parent_of(a));
                assert(name@ == name_of(a));
            }
            if self.contains_pair(parent.as_str(), name.as_str()) {
                proof {
                    assert(closed(self@));
                    assert forall|n: nat| chain_member(p, n) implies has_pair(
                        self@,
                        parent_of(#[trigger] ancestor(p, n)),
                        name_of(ancestor(p, n)),
                    ) by {
                        if n >= steps {
                            lemma_chain_closed(self@, p, steps, n);
                        }
                    }
                    assert forall|t: DirTriple|
                        self@.contains(t) && !old(self)@.contains(t) implies exists|n: nat|
                            chain_member(p, n) && t == #[trigger] chain_triple(p, n, kind) by {
                        let m = choose|m: nat|
                            m < steps && chain_member(p, m) && t == #[trigger] chain_triple(
                                p,
                                m,
                                kind,
                            );
                        assert(chain_member(p, m) && t == chain_triple(p, m, kind));
                    }
                }
                break;
            }
            let ghost before = self@;
            let at_root = parent.as_str().is_empty();
            let entry = DirEntry { parent, name, kind: cur_kind };
            assert(entry@ == chain_triple(p, steps, kind));
            self.insert_entry(entry);
            proof {
                assert(has_pair(self@, parent_of(a), name_of(a)));
                assert forall|t: DirTriple|
                    #[trigger] self@.contains(t) && t.0.len() > 0 implies has_pair(
                        self@,
                        parent_of(t.0),
                        name_of(t.0),
                    ) || t.0 == parent_of(a) by {
                    if t != entry@ {
                        assert(before.contains(t));
                        if has_pair(before, parent_of(t.0), name_of(t.0)) {
                            if before.contains((parent_of(t.0), name_of(t.0), FoMetadata::File)) {
                                assert(self@.contains((parent_of(t.0), name_of(t.0), FoMetadata::File)));
                            } else {
                                assert(self@.contains((parent_of(t.0), name_of(t.0), FoMetadata::Dir)));
                            }
                        }
                    }
                }
                assert forall|m: nat| m < steps + 1 implies has_pair(
                    self@,
                    parent_of(#[trigger] ancestor(p, m)),
                    name_of(ancestor(p, m)),
                ) by {
                    if m < steps {
                        let b = ancestor(p, m);
                        if before.contains((parent_of(b), name_of(b), FoMetadata::File)) {
                            assert(self@.contains((parent_of(b), name_of(b), FoMetadata::File)));
                        } else {
                            assert(self@.contains((parent_of(b), name_of(b), FoMetadata::Dir)));
                        }
                    }
                }
                assert forall|t: DirTriple|
                    self@.contains(t) && !old(self)@.contains(t) implies exists|m: nat|
                        m < steps + 1 && chain_member(p, m) && t == #[trigger] chain_triple(
                            p,
                            m,
                            kind,
                        ) by {
                    if t == entry@ {
                        assert(chain_triple(p, steps, kind) == t);
                    } else {
                        assert(before.contains(t));
                    }
                }
            }
            if at_root {
                proof {
                    assert(parent_of(a).len() == 0);
                    assert(ancestor(p, steps + 1) == parent_of(a));
                    assert(closed(self@));
                    assert forall|n: nat| chain_member(p, n) implies has_pair(
                        self@,
                        parent_of(#[trigger] ancestor(p, n)),
                        name_of(ancestor(p, n)),
                    ) by {
                        if n > steps {
                            lemma_chain_ends(p, steps + 1, n);
                        }
                    }
                    assert forall|t: DirTriple|
                        self@.contains(t) && !old(self)@.contains(t) implies exists|n: nat|
                            chain_member(p, n) && t == #[trigger] chain_triple(p, n, kind) by {
                        let m = choose|m: nat|
                            m < steps + 1 && chain_member(p, m) && t == #[trigger] chain_triple(
                                p,
                                m,
                                kind,
                            );
                        assert(chain_member(p, m) && t == chain_triple(p, m, kind));
                    }
                }
                break;
            }
            let i = match slash {
                Some(i) => i,
                None => 0,
            };
            cur.truncate(i);
            cur_kind = FoMetadata::Dir;
            proof {
                lemma_parent_shorter(a);
                assert(cur@ == parent_of(a));
                assert(ancestor(p, steps + 1) == parent_of(a));
                steps = steps + 1;
            }
        }
    }

    /// The children registered under `parent`.
    pub fn children_of(&self, parent: &str) -> (r: Vec<(String, FoMetadata)>)
        requires
            self.wf(),
        ensures
            forall|i: int|
                0 <= i < r.len() ==> self@.contains((parent@, (#[trigger] r@[i]).0@, r@[i].1)),
            forall|t: DirTriple|
                #[trigger] self@.contains(t) && t.0 == parent@ ==> exists|i: int|
                    0 <= i < r.len() && (#[trigger] r@[i]).0@ == t.1 && r@[i].1 == t.2,
    {
        let mut out: Vec<(String, FoMetadata)> = Vec::new();
        let key = key_of(parent);
        match self.map.get(&key) {
            None => {
                assert forall|t: DirTriple| self@.contains(t) implies t.0 != parent@ by {
                    let (k, i) = choose|k: u32, i: int| self.holds(k, i, t);
                    assert(path_key(self.map@[k][i].parent@) == k);
                }
            },
            Some(bucket) => {
                let parent_s = parent.to_owned();
                let mut j: usize = 0;
                while j < bucket.len()
                    invariant
                        self.map@.contains_key(key),
                        bucket@ == self.map@[key]@,
                        parent_s@ == parent@,
                        j <= bucket.len(),
                        forall|i: int|
                            0 <= i < out.len() ==> self@.contains(
                                (parent@, (#[trigger] out@[i]).0@, out@[i].1),
                            ),
                        forall|m: int|
                            0 <= m < j && (#[trigger] bucket@[m]).parent@ == parent@ ==> exists|
                                i: int,
                            |
                                0 <= i < out.len() && (#[trigger] out@[i]).0@ == bucket@[m].name@
                                    && out@[i].1 == bucket@[m].kind,
                    decreases bucket.len() - j,
                {
                    let ghost prev = out@;
                    if bucket[j].parent == parent_s {
                        assert(self.holds(key, j as int, bucket@[j as int]@));
                        out.push((bucket[j].name.clone(), bucket[j].kind));
                        assert(out@[out.len() - 1].0@ == bucket@[j as int].name@);
                    }
                    proof {
                        assert forall|m: int|
                            0 <= m < j + 1 && (#[trigger] bucket@[m]).parent@ == parent@ implies exists|
                                i: int,
                            |
                                0 <= i < out.len() && (#[trigger] out@[i]).0@ == bucket@[m].name@
                                    && out@[i].1 == bucket@[m].kind by {
                            if m == j {
                                assert(out@[out.len() - 1].0@ == bucket@[m].name@);
                            } else {
                                let i = choose|i: int|
                                    0 <= i < prev.len() && (#[trigger] prev[i]).0@ == bucket@[m].name@
                                        && prev[i].1 == bucket@[m].kind;
                                assert(out@[i] == prev[i]);
                            }
                        }
                    }
                    j += 1;
                }
                assert forall|t: DirTriple| #[trigger] self@.contains(t) && t.0 == parent@ implies exists|
                    i: int,
                | 0 <= i < out.len() && (#[trigger] out@[i]).0@ == t.1 && out@[i].1 == t.2 by {
                    let (k, i) = choose|k: u32, i: int| self.holds(k, i, t);
                    assert(path_key(self.map@[k][i].parent@) == k);
                    assert(bucket@[i].parent@ == t.0);
                }
            },
        }
        out
    }

    /// Whether `path` names a directory: the root, or a path that has
    /// children once the `/` characters that end it are removed.
    pub fn is_dir(&self, path: &str) -> (r: bool)
        requires
            self.wf(),
        ensures
            r == (path@.len() == 0 || has_children(self@, trim_end_slashes(path@))),
    {
        if path.is_empty() {
            return true;
        }
        let chars = chars_of(path);
        let len = trimmed_len(&chars);
        let trimmed = string_of(&chars, 0, len);
        let children = self.children_of(trimmed.as_str());
        proof {
            if has_children(self@, trim_end_slashes(path@)) {
                let t = choose|t: DirTriple| #[trigger] self@.contains(t) && t.0 == trim_end_slashes(path@);
                assert(self@.contains(t));
            }
            if children.len() > 0 {
                assert(self@.contains((trimmed@, children@[0].0@, children@[0].1)));
            }
        }
        children.len() > 0
    }

    /// The children of a directory, or `None` where `path` is no directory.
    pub fn list(&self, path: &str) -> (r: Option<Vec<(String, FoMetadata)>>)
        requires
            self.wf(),
        ensures
            r is Some <==> (path@.len() == 0 || has_children(self@, trim_end_slashes(path@))),
            r matches Some(v) ==> {
                &&& forall|i: int|
                    0 <= i < v.len() ==> self@.contains(
                        (trim_end_slashes(path@), (#[trigger] v@[i]).0@, v@[i].1),
                    )
                &&& forall|t: DirTriple|
                    #[trigger] self@.contains(t) && t.0 == trim_end_slashes(path@) ==> exists|i: int|
                        0 <= i < v.len() && (#[trigger] v@[i]).0@ == t.1 && v@[i].1 == t.2
            },
    {
        let chars = chars_of(path);
        let len = trimmed_len(&chars);
        let trimmed = string_of(&chars, 0, len);
        let children = self.children_of(trimmed.as_str());
        proof {
            if has_children(self@, trim_end_slashes(path@)) {
                let t = choose|t: DirTriple| #[trigger] self@.contains(t) && t.0 == trim_end_slashes(path@);
                assert(self@.contains(t));
            }
            if children.len() > 0 {
                assert(self@.contains((trimmed@, children@[0].0@, children@[0].1)));
            }
            if path@.len() == 0 {
                assert(trim_end_slashes(path@) == path@);
            }
        }
        if path.is_empty() || children.len() > 0 {
            Some(children)
        } else {
            None
        }
    }

    /// The directory index of every path of a registry.
    pub fn index_files(files: &Files) -> (r: Dirs)
        ensures
            r.wf(),
            closed(r@),
            indexes(r@, paths_of(files@)),
    {
        let keys = files.keys();
        let mut dirs = Dirs::new();
        let ghost mut seen: Set<Seq<char>> = Set::empty();
        let mut i: usize = 0;
        while i < keys.len()
            invariant
                i <= keys.len(),
                keys@.to_set() == files@.dom(),
                dirs.wf(),
                closed(dirs@),
                indexes(dirs@, seen),
                forall|j: int| 0 <= j < i ==> seen.contains(files@[#[trigger] keys@[j]].conventional_path),
                forall|p: Seq<char>| #[trigger] seen.contains(p) ==> exists|j: int|
                    0 <= j < i && p == files@[#[trigger] keys@[j]].conventional_path,
            decreases keys.len() - i,
        {
            let k = keys[i];
            assert(keys@.to_set().contains(k));
            let info = files.get(k);
            match info {
                Some(info) => {
                    let ghost before = dirs@;
                    let ghost p = info.conventional_path@;
                    dirs.register(info.conventional_path.as_str(), FoMetadata::File);
                    proof {
                        let after = dirs@;
                        let seen2 = seen.insert(p);
                        assert forall|q: Seq<char>, n: nat|
                            #![trigger seen2.contains(q), ancestor(q, n)]
                            seen2.contains(q) && chain_member(q, n) implies has_pair(
                                after,
                                parent_of(ancestor(q, n)),
                                name_of(ancestor(q, n)),
                            ) by {
                            if q != p {
                                assert(seen.contains(q));
                                let a = ancestor(q, n);
                                if before.contains((parent_of(a), name_of(a), FoMetadata::File)) {
                                    assert(after.contains((parent_of(a), name_of(a), FoMetadata::File)));
                                } else {
                                    assert(after.contains((parent_of(a), name_of(a), FoMetadata::Dir)));
                                }
                            } else {
                                assert(has_pair(after, parent_of(ancestor(p, n)), name_of(ancestor(p, n))));
                            }
                        }
                        assert forall|t: DirTriple| #[trigger] after.contains(t) implies exists|
                            q: Seq<char>,
                            n: nat,
                        |
                            #![trigger seen2.contains(q), chain_triple(q, n, FoMetadata::File)]
                            seen2.contains(q) && chain_member(q, n) && t == chain_triple(
                                q,
                                n,
                                FoMetadata::File,
                            ) by {
                            if before.contains(t) {
                                let (q, n) = choose|q: Seq<char>, n: nat|
                                    #![trigger seen.contains(q), chain_triple(q, n, FoMetadata::File)]
                                    seen.contains(q) && chain_member(q, n) && t == chain_triple(
                                        q,
                                        n,
                                        FoMetadata::File,
                                    );
                                assert(seen2.contains(q));
                            } else {
                                let n = choose|n: nat|
                                    chain_member(p, n) && t == #[trigger] chain_triple(
                                        p,
                                        n,
                                        FoMetadata::File,
                                    );
                                assert(seen2.contains(p));
                            }
                        }
                        assert forall|j: int| 0 <= j < i + 1 implies seen2.contains(
                            files@[#[trigger] keys@[j]].conventional_path,
                        ) by {
                            if j < i {
                                assert(seen.contains(files@[keys@[j]].conventional_path));
                            }
                        }
                        assert forall|q: Seq<char>| #[trigger] seen2.contains(q) implies exists|j: int|
                            0 <= j < i + 1 && q == files@[#[trigger] keys@[j]].conventional_path by {
                            if q == p {
                                assert(q == files@[keys@[i as int]].conventional_path);
                            } else {
                                assert(seen.contains(q));
                            }
                        }
                        seen = seen2;
                    }
                },
                None => {
                    assert(false);
                },
            }
            i += 1;
        }
        proof {
            assert forall|q: Seq<char>| #[trigger] paths_of(files@).contains(q) implies seen.contains(q) by {
                let k = choose|k: u32| files@.dom().contains(k) && files@[k].conventional_path == q;
                assert(keys@.to_set().contains(k));
                let j = choose|j: int| 0 <= j < keys@.len() && keys@[j] == k;
                assert(seen.contains(files@[keys@[j]].conventional_path));
            }
            assert forall|q: Seq<char>| #[trigger] seen.contains(q) implies paths_of(files@).contains(q) by {
                let j = choose|j: int| 0 <= j < i && q == files@[#[trigger] keys@[j]].conventional_path;
                assert(keys@.to_set().contains(keys@[j]));
            }
            assert(seen =~= paths_of(files@));
        }
        dirs
    }

    /// An index of the given entries, or `None` where a child repeats
    /// under one parent.
    pub fn from_entries(entries: &Vec<DirEntry>) -> (r: Option<Dirs>)
        ensures
            r matches Some(d) ==> d.wf() && d@ == entries@.map_values(|e: DirEntry| e@).to_set(),
            r is None ==> exists|i: int, j: int|
                0 <= i < j < entries@.len() && (#[trigger] entries@[i]).parent@ == (
                #[trigger] entries@[j]).parent@ && entries@[i].name@ == entries@[j].name@,
    {
        broadcast use vstd::seq_lib::group_seq_properties;

        let mut dirs = Dirs::new();
        let ghost all = entries@.map_values(|e: DirEntry| e@);
        let mut i: usize = 0;
        while i < entries.len()
            invariant
                i <= entries.len(),
                all == entries@.map_values(|e: DirEntry| e@),
                dirs.wf(),
                dirs@ == all.take(i as int).to_set(),
            decreases entries.len() - i,
        {
            if dirs.contains_pair(entries[i].parent.as_str(), entries[i].name.as_str()) {
                proof {
                    let pn = (entries@[i as int].parent@, entries@[i as int].name@);
                    let t = if dirs@.contains((pn.0, pn.1, FoMetadata::File)) {
                        (pn.0, pn.1, FoMetadata::File)
                    } else {
                        (pn.0, pn.1, FoMetadata::Dir)
                    };
                    assert(all.take(i as int).to_set().contains(t));
                    let m = choose|m: int| 0 <= m < i && #[trigger] all.take(i as int)[m] == t;
                    assert(all[m] == entries@[m]@);
                    assert(entries@[m].parent@ == entries@[i as int].parent@);
                }
                return None;
            }
            let e = DirEntry {
                parent: entries[i].parent.clone(),
                name: entries[i].name.clone(),
                kind: entries[i].kind,
            };
            let ghost ev = e@;
            dirs.insert_entry(e);
            proof {
                assert(all.take(i + 1) == all.take(i as int).push(all[i as int]));
                all.take(i as int).lemma_push_to_set_commute(all[i as int]);
                assert(all[i as int] == ev);
                assert(dirs@ =~= all.take(i + 1).to_set());
            }
            i += 1;
        }
        proof {
            assert(all.take(i as int) == all);
        }
        Some(dirs)
    }
}





} // verus!
