//! The federated dataset layer: a registry of named graphs backed by
//! compressed store files, point-in-time snapshots of the registered stores,
//! and the pattern-lookup adapter that a query evaluator drives.
//!
//! The registry ([`AggregateHdt`]) owns the map from graph name to backing
//! file path. A snapshot ([`AggregateHdtSnapshot`]) is built from the
//! registry, loads each selected store, and is immutable afterwards: lookups
//! fan out over its stores and return the exact tagged union of each store's
//! own matches.

use vstd::multiset::Multiset;
use vstd::prelude::*;

use crate::errors::StoreError;
use crate::term::{hdt_bgp_str_to_term, parse_term, term_to_hdt_bgp_str, RdfTerm};

verus! {

/// The model of one stored triple: subject, predicate and object in the
/// store's native string encoding.
pub type TripleV = (Seq<char>, Seq<char>, Seq<char>);

/// The model of one lookup result: graph name, subject, predicate, object.
pub type QuadV = (Seq<char>, Seq<char>, Seq<char>, Seq<char>);

/// One triple handed out of a backing store.
pub struct TripleStrings {
    pub subject: String,
    pub predicate: String,
    pub object: String,
}

impl View for TripleStrings {
    type V = TripleV;

    open spec fn view(&self) -> TripleV {
        (self.subject@, self.predicate@, self.object@)
    }
}

/// One lookup result, tagged with the graph it came from.
pub struct QuadStrings {
    pub graph: String,
    pub subject: String,
    pub predicate: String,
    pub object: String,
}

impl View for QuadStrings {
    type V = QuadV;

    open spec fn view(&self) -> QuadV {
        (self.graph@, self.subject@, self.predicate@, self.object@)
    }
}

// ------------------------------------------------------------------
// Trusted boundary over the storage crate
// ------------------------------------------------------------------
#[verifier::external_type_specification]
#[verifier::external_body]
pub struct ExHdt(hdt::Hdt);

/// The triples a loaded store holds, as a multiset of native strings. What a
/// store holds is fixed once loaded, so this is a function of the handle
/// alone; no contract says what it is on a given handle.
pub uninterp spec fn hdt_triples(h: hdt::Hdt) -> Multiset<TripleV>;

/// Whether a triple matches a pattern; `None` stands for an unbound
/// position.
pub open spec fn pattern_matches(
    t: TripleV,
    s: Option<Seq<char>>,
    p: Option<Seq<char>>,
    o: Option<Seq<char>>,
) -> bool {
    &&& (match s {
        Some(x) => t.0 == x,
        None => true,
    })
    &&& (match p {
        Some(x) => t.1 == x,
        None => true,
    })
    &&& (match o {
        Some(x) => t.2 == x,
        None => true,
    })
}

/// The sub-multiset of `m` matching a pattern.
pub open spec fn matched_triples(
    m: Multiset<TripleV>,
    s: Option<Seq<char>>,
    p: Option<Seq<char>>,
    o: Option<Seq<char>>,
) -> Multiset<TripleV> {
    m.filter(|t: TripleV| pattern_matches(t, s, p, o))
}

/// The view of an optional bound pattern position.
pub open spec fn opt_view(x: Option<&String>) -> Option<Seq<char>> {
    match x {
        Some(s) => Some(s@),
        None => None,
    }
}

/// The views of a sequence of triples.
pub open spec fn triple_views(ts: Seq<TripleStrings>) -> Seq<TripleV> {
    ts.map_values(|t: TripleStrings| t@)
}

/// The multiset of triples a sequence of results stands for.
pub open spec fn triples_multiset(ts: Seq<TripleStrings>) -> Multiset<TripleV> {
    ts.map_values(|t: TripleStrings| t@).to_multiset()
}

/// The multiset of quads a sequence of results stands for.
pub open spec fn quads_multiset(qs: Seq<QuadStrings>) -> Multiset<QuadV> {
    qs.map_values(|q: QuadStrings| q@).to_multiset()
}

/// Relies on `hdt::Hdt::triples_with_pattern`: it visits exactly the stored
/// triples that match the given pattern, where `None` stands for a variable;
/// the visiting order is unspecified, so only the multiset of results is
/// stated. The store's lookup indexes must be well formed, as the loader
/// builds them; the call does not return on a store with broken indexes.
#[verifier::external_body]
fn hdt_triples_matching(
    h: &hdt::Hdt,
    s: Option<&String>,
    p: Option<&String>,
    o: Option<&String>,
) -> (r: Vec<TripleStrings>)
    ensures
        triples_multiset(r@) == matched_triples(
            hdt_triples(*h),
            opt_view(s),
            opt_view(p),
            opt_view(o),
        ),
{
    h.triples_with_pattern(
        s.map(|x| x.as_str()),
        p.map(|x| x.as_str()),
        o.map(|x| x.as_str()),
    ).map(|t: [std::sync::Arc<str>; 3]| TripleStrings {
        subject: t[0].to_string(),
        predicate: t[1].to_string(),
        object: t[2].to_string(),
    }).collect()
}

/// Relies on `hdt::Hdt::read_from_path`: it loads a store file into memory,
/// creating or reusing the cache sibling next to it. What comes back depends
/// on the disk, so nothing is promised of the loaded handle.
#[verifier::external_body]
fn load_hdt_file(path: &String) -> (r: Result<hdt::Hdt, String>) {
    hdt::Hdt::read_from_path(std::path::Path::new(path)).map_err(|e| e.to_string())
}

/// Relies on `std::path::Path::exists`: whether the path points at an
/// existing entity. The answer depends on the environment, so nothing is
/// promised of it.
#[verifier::external_body]
pub(crate) fn path_exists(p: &String) -> bool {
    std::path::Path::new(p).exists()
}

/// Relies on `std::path::Path::is_file`: whether the path points at a
/// regular file. The answer depends on the environment, so nothing is
/// promised of it.
#[verifier::external_body]
pub(crate) fn path_is_file(p: &String) -> bool {
    std::path::Path::new(p).is_file()
}

// ------------------------------------------------------------------
// Tagging lookup results with their graph
// ------------------------------------------------------------------
/// How many of the triples, tagged with graph `g`, equal the quad `q`.
pub open spec fn tag_count(g: Seq<char>, ts: Seq<TripleV>, q: QuadV) -> nat
    decreases ts.len(),
{
    if ts.len() == 0 {
        0
    } else {
        tag_count(g, ts.drop_last(), q) + (if q.0 == g && (q.1, q.2, q.3) == ts.last() {
            1nat
        } else {
            0nat
        })
    }
}

/// Tagging distributes over the triple multiset: a quad occurs as often as
/// its triple does, and only under the tagging graph.
proof fn lemma_tag_count_multiset(g: Seq<char>, ts: Seq<TripleV>, q: QuadV)
    ensures
        tag_count(g, ts, q) == (if q.0 == g {
            ts.to_multiset().count((q.1, q.2, q.3))
        } else {
            0nat
        }),
    decreases ts.len(),
{
    broadcast use vstd::seq_lib::group_to_multiset_ensures;

    if ts.len() == 0 {
        assert(ts.to_multiset() =~= Multiset::<TripleV>::empty());
    } else {
        lemma_tag_count_multiset(g, ts.drop_last(), q);
        assert(ts =~= ts.drop_last().push(ts.last()));
        assert(ts.to_multiset() =~= ts.drop_last().to_multiset().insert(ts.last()));
    }
}

/// A pointwise-tagged sequence of quads realizes `tag_count`.
proof fn lemma_tagged_seq_count(g: Seq<char>, ts: Seq<TripleV>, qs: Seq<QuadV>, q: QuadV)
    requires
        qs.len() == ts.len(),
        forall|i: int|
            0 <= i < qs.len() ==> qs[i] == (g, ts[i].0, ts[i].1, ts[i].2),
    ensures
        qs.to_multiset().count(q) == tag_count(g, ts, q),
    decreases ts.len(),
{
    broadcast use vstd::seq_lib::group_to_multiset_ensures;

    if ts.len() == 0 {
        assert(qs.to_multiset() =~= Multiset::<QuadV>::empty());
    } else {
        lemma_tagged_seq_count(g, ts.drop_last(), qs.drop_last(), q);
        assert(qs =~= qs.drop_last().push(qs.last()));
        assert(qs.to_multiset() =~= qs.drop_last().to_multiset().insert(qs.last()));
        assert(qs.last() == (g, ts.last().0, ts.last().1, ts.last().2));
        if q.0 == g && (q.1, q.2, q.3) == ts.last() {
            assert(qs.last() == q);
        } else {
            assert(qs.last() != q);
        }
    }
}

/// Tags every triple of a store's answer with the graph it came from.
fn tag_quads(g: &String, ts: &Vec<TripleStrings>) -> (r: Vec<QuadStrings>)
    ensures
        r@.len() == ts@.len(),
        forall|i: int|
            0 <= i < r@.len() ==> r@[i]@ == (g@, ts@[i]@.0, ts@[i]@.1, ts@[i]@.2),
{
    let mut r: Vec<QuadStrings> = Vec::new();
    let mut i: usize = 0;
    while i < ts.len()
        invariant
            0 <= i <= ts@.len(),
            r@.len() == i,
            forall|j: int|
                0 <= j < i ==> r@[j]@ == (g@, ts@[j]@.0, ts@[j]@.1, ts@[j]@.2),
        decreases ts@.len() - i,
    {
        let t = &ts[i];
        r.push(QuadStrings {
            graph: g.clone(),
            subject: t.subject.clone(),
            predicate: t.predicate.clone(),
            object: t.object.clone(),
        });
        i = i + 1;
    }
    r
}

// ------------------------------------------------------------------
// Graph names derived from file paths
// ------------------------------------------------------------------
/// The file-name component of a path: the characters after the last `/`.
pub open spec fn file_part(p: Seq<char>) -> Seq<char>
    decreases p.len(),
{
    if p.len() == 0 {
        Seq::empty()
    } else if p.last() == '/' {
        Seq::empty()
    } else {
        file_part(p.drop_last()) + seq![p.last()]
    }
}

/// Whether a path carries a usable file name.
pub open spec fn valid_store_path(p: Seq<char>) -> bool {
    let f = file_part(p);
    f.len() > 0 && f != seq!['.'] && f != seq!['.', '.']
}

/// The graph name a registered file is exposed under.
pub open spec fn graph_name_of(p: Seq<char>) -> Seq<char> {
    "file:///"@ + file_part(p)
}

/// The suffix of `p` starting at a position `i` that lies right after the
/// last slash is exactly the file-name component.
proof fn lemma_file_part_suffix(p: Seq<char>, i: int)
    requires
        0 <= i <= p.len(),
        forall|j: int| i <= j < p.len() ==> p[j] != '/',
        i > 0 ==> p[i - 1] == '/',
    ensures
        file_part(p) == p.subrange(i, p.len() as int),
    decreases p.len(),
{
    if p.len() == 0 {
        assert(file_part(p) =~= p.subrange(0, 0));
    } else if i == p.len() {
        assert(p.last() == '/');
        assert(file_part(p) =~= p.subrange(i, p.len() as int));
    } else {
        assert(p.last() != '/');
        lemma_file_part_suffix(p.drop_last(), i);
        assert(p.drop_last().subrange(i, p.len() - 1) =~= p.subrange(i, p.len() - 1));
        assert(file_part(p) =~= p.subrange(i, p.len() as int));
    }
}

/// Extracts the file-name component of a path.
fn file_part_exec(p: &String) -> (r: String)
    ensures
        r@ == file_part(p@),
{
    let ps = p.as_str();
    let n = ps.unicode_len();
    let mut i: usize = n;
    loop
        invariant_except_break
            0 <= i <= n,
            n == p@.len(),
            ps@ == p@,
            forall|j: int| i <= j < n ==> p@[j] != '/',
        ensures
            0 <= i <= n,
            n == p@.len(),
            ps@ == p@,
            forall|j: int| i <= j < n ==> p@[j] != '/',
            i > 0 ==> p@[i - 1] == '/',
        decreases i,
    {
        if i == 0 {
            break;
        }
        if ps.get_char(i - 1) == '/' {
            break;
        }
        i = i - 1;
    }
    proof {
        lemma_file_part_suffix(p@, i as int);
    }
    let r = ps.substring_char(i, n);
    proof {
        assert(r@ =~= p@.subrange(i as int, n as int));
    }
    r.to_owned()
}

/// Derives the graph name a path is registered under, or reports an
/// unusable path.
pub fn derive_graph_name(p: &String) -> (r: Result<String, StoreError>)
    ensures
        match r {
            Ok(g) => valid_store_path(p@) && g@ == graph_name_of(p@),
            Err(e) => !valid_store_path(p@) && e is ParseError,
        },
{
    let f = file_part_exec(p);
    let fs = f.as_str();
    let n = fs.unicode_len();
    if n == 0 {
        return Err(StoreError::ParseError(String::from_str("invalid file path")));
    }
    if n == 1 && fs.get_char(0) == '.' {
        proof {
            assert(f@ =~= seq!['.']);
        }
        return Err(StoreError::ParseError(String::from_str("invalid file path")));
    }
    if n == 2 && fs.get_char(0) == '.' && fs.get_char(1) == '.' {
        proof {
            assert(f@ =~= seq!['.', '.']);
        }
        return Err(StoreError::ParseError(String::from_str("invalid file path")));
    }
    proof {
        if f@ == seq!['.'] {
            assert(f@.len() == 1 && f@[0] == '.');
        }
        if f@ == seq!['.', '.'] {
            assert(f@.len() == 2 && f@[0] == '.' && f@[1] == '.');
        }
    }
    let mut g = String::from_str("file:///");
    g.append(fs);
    Ok(g)
}

/// The extension of the file-name component: what follows its last dot, if
/// a dot stands after the first character.
pub open spec fn extension_part(f: Seq<char>) -> Seq<char>
    decreases f.len(),
{
    if f.len() == 0 {
        Seq::empty()
    } else if f.last() == '.' {
        Seq::empty()
    } else {
        extension_part(f.drop_last()) + seq![f.last()]
    }
}

/// Whether the file-name component has an extension at all.
pub open spec fn has_extension(f: Seq<char>) -> bool {
    exists|j: int| 1 <= j < f.len() && f[j] == '.'
}

/// The extension of a path's file name, or `None` when it has none.
pub fn extension_of(p: &String) -> (r: Option<String>)
    ensures
        match r {
            Some(e) => has_extension(file_part(p@)) && e@ == extension_part(file_part(p@)),
            None => !has_extension(file_part(p@)),
        },
{
    let f = file_part_exec(p);
    let fs = f.as_str();
    let n = fs.unicode_len();
    let mut i: usize = n;
    loop
        invariant_except_break
            0 <= i <= n,
            n == f@.len(),
            fs@ == f@,
            forall|j: int| i <= j < n ==> f@[j] != '.',
        ensures
            0 <= i <= n,
            n == f@.len(),
            fs@ == f@,
            forall|j: int| i <= j < n ==> f@[j] != '.',
            i > 0 ==> f@[i - 1] == '.',
        decreases i,
    {
        if i == 0 {
            break;
        }
        if fs.get_char(i - 1) == '.' {
            break;
        }
        i = i - 1;
    }
    if i <= 1 {
        proof {
            if has_extension(f@) {
                let j = choose|j: int| 1 <= j < f@.len() && f@[j] == '.';
                if i == 0 {
                    assert(f@[j] != '.');
                } else {
                    assert(f@[i - 1] == '.');
                    assert(i - 1 == 0);
                    assert(f@[j] != '.');
                }
            }
        }
        return None;
    }
    proof {
        assert(f@[i - 1] == '.');
        assert(has_extension(f@));
        lemma_extension_suffix(f@, i as int);
    }
    let e = fs.substring_char(i, n);
    proof {
        assert(e@ =~= f@.subrange(i as int, n as int));
    }
    Some(e.to_owned())
}

/// The suffix after the last dot is exactly the extension component.
proof fn lemma_extension_suffix(f: Seq<char>, i: int)
    requires
        0 <= i <= f.len(),
        forall|j: int| i <= j < f.len() ==> f[j] != '.',
        i > 0 ==> f[i - 1] == '.',
    ensures
        extension_part(f) == f.subrange(i, f.len() as int),
    decreases f.len(),
{
    if f.len() == 0 {
        assert(extension_part(f) =~= f.subrange(0, 0));
    } else if i == f.len() {
        assert(f.last() == '.');
        assert(extension_part(f) =~= f.subrange(i, f.len() as int));
    } else {
        assert(f.last() != '.');
        lemma_extension_suffix(f.drop_last(), i);
        assert(f.drop_last().subrange(i, f.len() - 1) =~= f.subrange(i, f.len() - 1));
        assert(extension_part(f) =~= f.subrange(i, f.len() as int));
    }
}

// ------------------------------------------------------------------
// The registry
// ------------------------------------------------------------------
/// The graph names of a sequence of registry entries, in order.
pub open spec fn entry_names(entries: Seq<(String, String)>) -> Seq<Seq<char>> {
    entries.map_values(|e: (String, String)| e.0@)
}

/// The registry of named graphs: the single piece of shared mutable state,
/// mapping each graph name to the backing store file it is loaded from.
///
/// Callers that share a registry across threads wrap it in a
/// reader/writer lock; every method here takes the whole value, so a lock
/// guard is held for exactly the duration of one operation.
pub struct AggregateHdt {
    pub entries: Vec<(String, String)>,
}

impl AggregateHdt {
    /// Well-formed: no graph name is registered twice.
    pub open spec fn wf(self) -> bool {
        forall|i: int, j: int|
            0 <= i < j < self.entries@.len() ==> self.entries@[i].0@ != self.entries@[j].0@
    }

    /// The registered graph names, in registration order.
    pub open spec fn names(self) -> Seq<Seq<char>> {
        entry_names(self.entries@)
    }

    /// How many graphs are registered.
    pub open spec fn spec_len(self) -> nat {
        self.entries@.len()
    }

    /// Whether a graph name is registered.
    pub open spec fn spec_contains(self, n: Seq<char>) -> bool {
        exists|i: int| 0 <= i < self.entries@.len() && self.entries@[i].0@ == n
    }

    /// The index a registered name stands at.
    pub open spec fn index_of(self, n: Seq<char>) -> int {
        choose|i: int| 0 <= i < self.entries@.len() && self.entries@[i].0@ == n
    }

    /// The backing file path a registered name maps to.
    pub open spec fn spec_path_of(self, n: Seq<char>) -> Seq<char> {
        self.entries@[self.index_of(n)].1@
    }

    /// An entry at index `i` witnesses both membership and the mapped path.
    pub proof fn lemma_entry_witness(self, i: int)
        requires
            self.wf(),
            0 <= i < self.entries@.len(),
        ensures
            self.spec_contains(self.entries@[i].0@),
            self.spec_path_of(self.entries@[i].0@) == self.entries@[i].1@,
    {
        let n = self.entries@[i].0@;
        assert(self.spec_contains(n));
        let j = self.index_of(n);
        assert(0 <= j < self.entries@.len() && self.entries@[j].0@ == n);
        if i != j {
            assert(false);
        }
    }

    /// Registers or overwrites one mapping.
    fn upsert(&mut self, name: String, path: String)
        requires
            old(self).wf(),
        ensures
            final(self).wf(),
            final(self).spec_contains(name@),
            final(self).spec_path_of(name@) == path@,
            forall|m: Seq<char>|
                m != name@ ==> (#[trigger] final(self).spec_contains(m)) == old(self).spec_contains(m),
            forall|m: Seq<char>|
                m != name@ && old(self).spec_contains(m) ==> #[trigger] final(self).spec_path_of(m)
                    == old(self).spec_path_of(m),
            final(self).spec_len() == (if old(self).spec_contains(name@) {
                old(self).spec_len()
            } else {
                old(self).spec_len() + 1
            }),
    {
        let ghost pre = *self;
        let mut idx: usize = 0;
        let mut found = false;
        loop
            invariant_except_break
                *self == pre,
                0 <= idx <= self.entries@.len(),
                !found,
                forall|j: int| 0 <= j < idx ==> self.entries@[j].0@ != name@,
            ensures
                *self == pre,
                0 <= idx <= self.entries@.len(),
                found ==> idx < self.entries@.len() && self.entries@[idx as int].0@ == name@,
                !found ==> forall|j: int|
                    0 <= j < self.entries@.len() ==> self.entries@[j].0@ != name@,
                forall|j: int| 0 <= j < idx ==> self.entries@[j].0@ != name@,
            decreases self.entries@.len() - idx,
        {
            if idx >= self.entries.len() {
                break;
            }
            if self.entries[idx].0 == name {
                found = true;
                break;
            }
            idx = idx + 1;
        }
        if found {
            self.entries.remove(idx);
            proof {
                assert forall|j: int| 0 <= j < self.entries@.len() implies self.entries@[j] == (
                if j < idx {
                    pre.entries@[j]
                } else {
                    pre.entries@[j + 1]
                }) by {
                    assert(self.entries@ == pre.entries@.remove(idx as int));
                }
                assert forall|j: int| 0 <= j < self.entries@.len() implies self.entries@[j].0@
                    != name@ by {
                    if j < idx {
                        assert(self.entries@[j] == pre.entries@[j]);
                    } else {
                        assert(self.entries@[j] == pre.entries@[j + 1]);
                        assert(pre.entries@[idx as int].0@ == name@);
                    }
                }
            }
        } else {
            proof {
                assert(forall|j: int|
                    0 <= j < self.entries@.len() ==> self.entries@[j].0@ != name@);
            }
        }
        let ghost mid = *self;
        self.entries.push((name, path));
        proof {
            let len = self.entries@.len();
            assert(self.entries@[len - 1].0@ == name@);
            assert(forall|j: int| 0 <= j < len - 1 ==> self.entries@[j] == mid.entries@[j]);
            assert(self.wf());
            self.lemma_entry_witness(len - 1);
            assert forall|m: Seq<char>| m != name@ implies (#[trigger] self.spec_contains(m))
                == pre.spec_contains(m) by {
                if self.spec_contains(m) {
                    let j = choose|j: int|
                        0 <= j < self.entries@.len() && self.entries@[j].0@ == m;
                    assert(j < len - 1);
                    if found {
                        if j < idx {
                            assert(pre.entries@[j].0@ == m);
                        } else {
                            assert(pre.entries@[j + 1].0@ == m);
                        }
                    }
                }
                if pre.spec_contains(m) {
                    let j = choose|j: int|
                        0 <= j < pre.entries@.len() && pre.entries@[j].0@ == m;
                    if found {
                        if j < idx {
                            assert(self.entries@[j].0@ == m);
                        } else {
                            assert(j != idx);
                            assert(self.entries@[j - 1].0@ == m);
                        }
                    } else {
                        assert(self.entries@[j].0@ == m);
                    }
                }
            }
            assert forall|m: Seq<char>| m != name@ && pre.spec_contains(m) implies
                #[trigger] self.spec_path_of(m) == pre.spec_path_of(m) by {
                let j = pre.index_of(m);
                assert(0 <= j < pre.entries@.len() && pre.entries@[j].0@ == m);
                pre.lemma_entry_witness(j);
                if found {
                    if j < idx {
                        self.lemma_entry_witness(j);
                    } else {
                        assert(j != idx);
                        assert(self.entries@[j - 1] == pre.entries@[j]);
                        self.lemma_entry_witness(j - 1);
                    }
                } else {
                    self.lemma_entry_witness(j);
                }
            }
            if found {
                assert(pre.spec_contains(pre.entries@[idx as int].0@));
            } else {
                if pre.spec_contains(name@) {
                    let j = pre.index_of(name@);
                    assert(0 <= j < pre.entries@.len() && pre.entries@[j].0@ == name@);
                }
            }
        }
    }

    /// Builds a registry from store file paths: each path must exist, and is
    /// registered under the graph name derived from its file name, later
    /// paths overwriting earlier ones that share a name.
    pub fn new(paths: &Vec<String>) -> (r: Result<AggregateHdt, StoreError>)
        ensures
            match r {
                Ok(store) => {
                    &&& store.wf()
                    &&& paths@.len() > 0
                    &&& forall|k: int|
                        0 <= k < paths@.len() ==> valid_store_path(#[trigger] paths@[k]@)
                    &&& forall|k: int|
                        0 <= k < paths@.len() ==> store.spec_contains(graph_name_of(
                            #[trigger] paths@[k]@,
                        ))
                    &&& forall|n: Seq<char>|
                        #[trigger] store.spec_contains(n) ==> exists|k: int|
                            0 <= k < paths@.len() && graph_name_of(#[trigger] paths@[k]@) == n
                    &&& forall|k: int|
                        0 <= k < paths@.len() && (forall|l: int|
                            k < l < paths@.len() ==> graph_name_of(#[trigger] paths@[l]@)
                                != graph_name_of(paths@[k]@)) ==> store.spec_path_of(
                            graph_name_of(#[trigger] paths@[k]@),
                        ) == paths@[k]@
                },
                Err(e) => e is InputNotFound || e is ParseError,
            },
    {
        if paths.len() == 0 {
            return Err(StoreError::InputNotFound(String::from_str("no hdt files detected")));
        }
        let mut store = AggregateHdt { entries: Vec::new() };
        let mut k: usize = 0;
        while k < paths.len()
            invariant
                0 <= k <= paths@.len(),
                store.wf(),
                forall|j: int| 0 <= j < k ==> valid_store_path(#[trigger] paths@[j]@),
                forall|j: int|
                    0 <= j < k ==> store.spec_contains(graph_name_of(#[trigger] paths@[j]@)),
                forall|n: Seq<char>|
                    #[trigger] store.spec_contains(n) ==> exists|j: int|
                        0 <= j < k && graph_name_of(#[trigger] paths@[j]@) == n,
                forall|j: int|
                    0 <= j < k && (forall|l: int|
                        j < l < k ==> graph_name_of(#[trigger] paths@[l]@) != graph_name_of(
                            paths@[j]@,
                        )) ==> store.spec_path_of(graph_name_of(#[trigger] paths@[j]@))
                        == paths@[j]@,
            decreases paths@.len() - k,
        {
            let p = &paths[k];
            if !path_exists(p) {
                let mut msg = String::from_str("HDT file does not exist: ");
                msg.append(p.as_str());
                return Err(StoreError::InputNotFound(msg));
            }
            let name = match derive_graph_name(p) {
                Ok(g) => g,
                Err(e) => {
                    return Err(e);
                },
            };
            store.upsert(name, p.clone());
            k = k + 1;
        }
        Ok(store)
    }

    /// Whether a graph is currently registered.
    pub fn contains_graph_name(&self, graph_name: &String) -> (r: Result<bool, StoreError>)
        requires
            self.wf(),
        ensures
            r matches Ok(b) && b == self.spec_contains(graph_name@),
    {
        let mut i: usize = 0;
        while i < self.entries.len()
            invariant
                0 <= i <= self.entries@.len(),
                forall|j: int| 0 <= j < i ==> self.entries@[j].0@ != graph_name@,
            decreases self.entries@.len() - i,
        {
            if self.entries[i].0 == *graph_name {
                proof {
                    assert(self.spec_contains(graph_name@));
                }
                return Ok(true);
            }
            i = i + 1;
        }
        Ok(false)
    }

    /// Registers a native store file under a graph name, overwriting any
    /// prior registration of that name. Only a file carrying the native
    /// `hdt` extension can be registered (anything else is
    /// [`StoreError::UnsupportedFormat`]; [`insert_plan`] says how a plain
    /// triple file becomes one first), and the file must already exist: the
    /// answer of the existence probe decides between registration and
    /// [`StoreError::InputNotFound`]. A rejected call leaves the registry
    /// untouched.
    pub fn insert_named_graph(&mut self, graph_name: &String, file_path: &String) -> (r: Result<
        (),
        StoreError,
    >)
        requires
            old(self).wf(),
        ensures
            final(self).wf(),
            !(has_extension(file_part(file_path@)) && extension_part(file_part(file_path@))
                == "hdt"@) ==> (r matches Err(e) && e is UnsupportedFormat),
            match r {
                Ok(_) => {
                    &&& has_extension(file_part(file_path@))
                    &&& extension_part(file_part(file_path@)) == "hdt"@
                    &&& final(self).spec_contains(graph_name@)
                    &&& final(self).spec_path_of(graph_name@) == file_path@
                    &&& forall|m: Seq<char>|
                        m != graph_name@ ==> (#[trigger] final(self).spec_contains(m)) == old(self).spec_contains(m)
                    &&& forall|m: Seq<char>|
                        m != graph_name@ && old(self).spec_contains(m)
                            ==> #[trigger] final(self).spec_path_of(m) == old(self).spec_path_of(m)
                },
                Err(e) => {
                    &&& (e is InputNotFound || e is UnsupportedFormat)
                    &&& *final(self) == *old(self)
                    &&& (e is InputNotFound ==> has_extension(file_part(file_path@))
                        && extension_part(file_part(file_path@)) == "hdt"@)
                },
            },
    {
        let native = match extension_of(file_path) {
            Some(ext) => ext == String::from_str("hdt"),
            None => false,
        };
        if !native {
            return Err(StoreError::UnsupportedFormat(String::from_str(
                "Unsupported file extension: only native .hdt store files can be registered",
            )));
        }
        if !path_exists(file_path) {
            let mut msg = String::from_str("HDT file does not exist: ");
            msg.append(file_path.as_str());
            return Err(StoreError::InputNotFound(msg));
        }
        self.upsert(graph_name.clone(), file_path.clone());
        Ok(())
    }

    /// Unregisters a graph. Returns the backing file path that was mapped,
    /// so the caller can unlink it and its cache siblings; absence is not an
    /// error and returns nothing.
    pub fn remove_named_graph(&mut self, graph_name: &String) -> (r: Option<String>)
        requires
            old(self).wf(),
        ensures
            final(self).wf(),
            !final(self).spec_contains(graph_name@),
            r is Some <==> old(self).spec_contains(graph_name@),
            r matches Some(p) ==> p@ == old(self).spec_path_of(graph_name@),
            forall|m: Seq<char>|
                m != graph_name@ ==> (#[trigger] final(self).spec_contains(m)) == old(self).spec_contains(m),
            forall|m: Seq<char>|
                m != graph_name@ && old(self).spec_contains(m)
                    ==> #[trigger] final(self).spec_path_of(m) == old(self).spec_path_of(m),
    {
        let ghost pre = *self;
        let mut idx: usize = 0;
        while idx < self.entries.len()
            invariant
                *self == pre,
                pre == *old(self),
                pre.wf(),
                0 <= idx <= self.entries@.len(),
                forall|j: int| 0 <= j < idx ==> self.entries@[j].0@ != graph_name@,
            decreases self.entries@.len() - idx,
        {
            if self.entries[idx].0 == *graph_name {
                let entry = self.entries.remove(idx);
                proof {
                    assert forall|j: int| 0 <= j < self.entries@.len() implies self.entries@[j]
                        == (if j < idx {
                        pre.entries@[j]
                    } else {
                        pre.entries@[j + 1]
                    }) by {
                        assert(self.entries@ == pre.entries@.remove(idx as int));
                    }
                    assert forall|i2: int, j2: int|
                        0 <= i2 < j2 < self.entries@.len() implies self.entries@[i2].0@
                        != self.entries@[j2].0@ by {
                        if j2 < idx {
                        } else if i2 < idx {
                            assert(self.entries@[j2] == pre.entries@[j2 + 1]);
                        } else {
                            assert(self.entries@[i2] == pre.entries@[i2 + 1]);
                            assert(self.entries@[j2] == pre.entries@[j2 + 1]);
                        }
                    }
                    assert(self.wf());
                    pre.lemma_entry_witness(idx as int);
                    assert(pre.spec_contains(graph_name@));
                    if self.spec_contains(graph_name@) {
                        let j = choose|j: int|
                            0 <= j < self.entries@.len() && self.entries@[j].0@ == graph_name@;
                        if j < idx {
                            assert(pre.entries@[j].0@ == graph_name@);
                            assert(false);
                        } else {
                            assert(pre.entries@[j + 1].0@ == graph_name@);
                            assert(false);
                        }
                    }
                    assert forall|m: Seq<char>| m != graph_name@ implies
                        (#[trigger] self.spec_contains(m)) == pre.spec_contains(m) by {
                        if self.spec_contains(m) {
                            let j = choose|j: int|
                                0 <= j < self.entries@.len() && self.entries@[j].0@ == m;
                            if j < idx {
                                assert(pre.entries@[j].0@ == m);
                            } else {
                                assert(pre.entries@[j + 1].0@ == m);
                            }
                        }
                        if pre.spec_contains(m) {
                            let j = choose|j: int|
                                0 <= j < pre.entries@.len() && pre.entries@[j].0@ == m;
                            assert(j != idx);
                            if j < idx {
                                assert(self.entries@[j].0@ == m);
                            } else {
                                assert(self.entries@[j - 1].0@ == m);
                            }
                        }
                    }
                    assert forall|m: Seq<char>| m != graph_name@ && pre.spec_contains(m) implies
                        #[trigger] self.spec_path_of(m) == pre.spec_path_of(m) by {
                        let j = pre.index_of(m);
                        assert(0 <= j < pre.entries@.len() && pre.entries@[j].0@ == m);
                        pre.lemma_entry_witness(j);
                        assert(j != idx);
                        if j < idx {
                            self.lemma_entry_witness(j);
                        } else {
                            assert(self.entries@[j - 1] == pre.entries@[j]);
                            self.lemma_entry_witness(j - 1);
                        }
                    }
                }
                return Some(entry.1);
            }
            idx = idx + 1;
        }
        proof {
            if self.spec_contains(graph_name@) {
                assert(false);
            }
        }
        None
    }

    /// Empties the registry. Backing files stay on disk.
    pub fn clear(&mut self) -> (r: Result<(), StoreError>)
        ensures
            r is Ok,
            final(self).wf(),
            final(self).spec_len() == 0,
            forall|n: Seq<char>| !(#[trigger] final(self).spec_contains(n)),
    {
        self.entries = Vec::new();
        Ok(())
    }
}

/// The file-name stem of a graph name's last path segment: the text up to
/// `?` or `#`, its part after the last `/`, without its extension.
pub open spec fn spec_graph_to_file(name: Option<Seq<char>>) -> Option<Seq<char>> {
    match name {
        None => None,
        Some(iri) => {
            let path = {
                let q = iri.subrange(0, crate::negotiate::find_char(iri, '?'));
                q.subrange(0, crate::negotiate::find_char(q, '#'))
            };
            let f = file_part(path);
            if f.len() == 0 {
                None
            } else if has_extension(f) {
                Some(f.subrange(0, f.len() - extension_part(f).len() - 1))
            } else {
                Some(f)
            }
        },
    }
}

/// The backing file name a graph name suggests: the stem of the last path
/// segment of a named graph's IRI, nothing for a blank graph or an IRI
/// whose path ends in a separator.
pub fn graph_to_file(name: Option<&String>) -> (r: Option<String>)
    ensures
        match r {
            Some(s) => spec_graph_to_file(opt_view(name)) == Some(s@),
            None => spec_graph_to_file(opt_view(name)) is None,
        },
{
    let iri = match name {
        None => {
            return None;
        },
        Some(iri) => iri,
    };
    let is = iri.as_str();
    let q1 = crate::negotiate::find_char_exec(is, '?');
    let cut1 = is.substring_char(0, q1);
    proof {
        assert(cut1@ =~= iri@.subrange(0, crate::negotiate::find_char(iri@, '?')));
    }
    let q2 = crate::negotiate::find_char_exec(cut1, '#');
    let cut2 = cut1.substring_char(0, q2);
    proof {
        assert(cut2@ =~= cut1@.subrange(0, crate::negotiate::find_char(cut1@, '#')));
    }
    let path = cut2.to_owned();
    let f = file_part_exec(&path);
    let fs = f.as_str();
    let n = fs.unicode_len();
    if n == 0 {
        return None;
    }
    let mut i: usize = n;
    loop
        invariant_except_break
            0 <= i <= n,
            n == f@.len(),
            fs@ == f@,
            forall|j: int| i <= j < n ==> f@[j] != '.',
        ensures
            0 <= i <= n,
            n == f@.len(),
            fs@ == f@,
            forall|j: int| i <= j < n ==> f@[j] != '.',
            i > 0 ==> f@[i - 1] == '.',
        decreases i,
    {
        if i == 0 {
            break;
        }
        if fs.get_char(i - 1) == '.' {
            break;
        }
        i = i - 1;
    }
    if i <= 1 {
        proof {
            if has_extension(f@) {
                let j = choose|j: int| 1 <= j < f@.len() && f@[j] == '.';
                if i == 0 {
                    assert(f@[j] != '.');
                } else {
                    assert(i - 1 == 0);
                    assert(f@[j] != '.');
                }
            }
        }
        return Some(f);
    }
    proof {
        assert(f@[i - 1] == '.');
        assert(has_extension(f@));
        lemma_extension_suffix(f@, i as int);
    }
    let stem = fs.substring_char(0, i - 1);
    proof {
        assert(stem@ =~= f@.subrange(0, f@.len() - extension_part(f@).len() - 1));
    }
    Some(stem.to_owned())
}

// ------------------------------------------------------------------
// Plans for registering non-native files
// ------------------------------------------------------------------
/// How a file offered to the registry becomes a native store file: used as
/// it is, or converted into a sibling store file first.
pub enum InsertPlan {
    /// The file is a native store file already.
    UseDirectly(String),
    /// The file holds plain triples; convert it into the named target.
    ConvertTriplesTo(String),
}

/// The sibling path a plain triple file converts into: the same directory
/// and file stem, with the store extension.
pub open spec fn conversion_target(p: Seq<char>) -> Seq<char> {
    let f = file_part(p);
    let e = extension_part(f);
    p.subrange(0, p.len() - e.len() - 1) + ".hdt"@
}

/// Decides how a file becomes a native store file, from its extension:
/// `.hdt` is used directly, `.nt` converts to a sibling store file, and any
/// other extension is unsupported.
pub fn insert_plan(file_path: &String) -> (r: Result<InsertPlan, StoreError>)
    ensures
        match r {
            Ok(InsertPlan::UseDirectly(p)) => extension_part(file_part(file_path@)) == "hdt"@
                && has_extension(file_part(file_path@)) && p@ == file_path@,
            Ok(InsertPlan::ConvertTriplesTo(t)) => extension_part(file_part(file_path@)) == "nt"@
                && has_extension(file_part(file_path@)) && t@ == conversion_target(file_path@),
            Err(e) => e is UnsupportedFormat,
        },
{
    let ext = match extension_of(file_path) {
        Some(e) => e,
        None => {
            return Err(StoreError::UnsupportedFormat(String::from_str("File has no extension")));
        },
    };
    if ext == String::from_str("hdt") {
        Ok(InsertPlan::UseDirectly(file_path.clone()))
    } else if ext == String::from_str("nt") {
        let ps = file_path.as_str();
        let n = ps.unicode_len();
        proof {
            reveal_strlit("nt");
            lemma_extension_in_file_part(file_path@);
        }
        let stem_len = n - 3;
        let stem = ps.substring_char(0, stem_len);
        let mut t = stem.to_owned();
        t.append(".hdt");
        proof {
            assert(stem@ =~= file_path@.subrange(0, file_path@.len() - 3));
            assert(t@ =~= conversion_target(file_path@));
        }
        Ok(InsertPlan::ConvertTriplesTo(t))
    } else {
        Err(StoreError::UnsupportedFormat(String::from_str(
            "Unsupported file extension. Only .hdt and .nt are supported.",
        )))
    }
}

/// The extension is a proper suffix of the path, preceded by a dot.
proof fn lemma_extension_in_file_part(p: Seq<char>)
    requires
        has_extension(file_part(p)),
    ensures
        extension_part(file_part(p)).len() < file_part(p).len(),
        file_part(p).len() <= p.len(),
        p.subrange(
            p.len() - extension_part(file_part(p)).len(),
            p.len() as int,
        ) == extension_part(file_part(p)),
{
    lemma_file_part_is_suffix(p);
    lemma_extension_is_suffix(file_part(p));
    let f = file_part(p);
    let e = extension_part(f);
    assert(f =~= p.subrange(p.len() - f.len(), p.len() as int));
    assert(e =~= f.subrange(f.len() - e.len(), f.len() as int));
    assert(p.subrange(p.len() - e.len(), p.len() as int) =~= e);
}

/// The file-name component is a suffix of the path.
proof fn lemma_file_part_is_suffix(p: Seq<char>)
    ensures
        file_part(p).len() <= p.len(),
        file_part(p) == p.subrange(p.len() - file_part(p).len(), p.len() as int),
    decreases p.len(),
{
    if p.len() == 0 {
        assert(file_part(p) =~= p.subrange(0, 0));
    } else if p.last() == '/' {
        assert(file_part(p) =~= p.subrange(p.len() as int, p.len() as int));
    } else {
        lemma_file_part_is_suffix(p.drop_last());
        let f0 = file_part(p.drop_last());
        assert(f0 =~= p.drop_last().subrange(p.len() - 1 - f0.len(), p.len() - 1));
        assert(file_part(p) =~= f0 + seq![p.last()]);
        assert(file_part(p) =~= p.subrange(p.len() - file_part(p).len(), p.len() as int));
    }
}

/// The extension component is a suffix of the file name; when the file name
/// has an extension, a dot stands right before it.
proof fn lemma_extension_is_suffix(f: Seq<char>)
    ensures
        extension_part(f).len() <= f.len(),
        extension_part(f) == f.subrange(f.len() - extension_part(f).len(), f.len() as int),
        has_extension(f) ==> extension_part(f).len() < f.len() && f[f.len() - extension_part(
            f,
        ).len() - 1] == '.',
    decreases f.len(),
{
    if f.len() == 0 {
        assert(extension_part(f) =~= f.subrange(0, 0));
    } else if f.last() == '.' {
        assert(extension_part(f) =~= f.subrange(f.len() as int, f.len() as int));
    } else {
        lemma_extension_is_suffix(f.drop_last());
        let e0 = extension_part(f.drop_last());
        assert(e0 =~= f.drop_last().subrange(f.len() - 1 - e0.len(), f.len() - 1));
        assert(extension_part(f) =~= e0 + seq![f.last()]);
        assert(extension_part(f) =~= f.subrange(f.len() - extension_part(f).len(), f.len() as int));
        if has_extension(f) {
            let j = choose|j: int| 1 <= j < f.len() && f[j] == '.';
            assert(f[j] == '.');
            if has_extension(f.drop_last()) {
            } else {
                if j < f.len() - 1 {
                    assert(f.drop_last()[j] == '.');
                    assert(has_extension(f.drop_last()));
                }
            }
        }
    }
}

/// Whether a directory entry is a cache sibling of a removed store file:
/// its name starts with the store file's name and carries a recognized
/// cache-file marker.
pub open spec fn spec_is_cache_file_for(entry: Seq<char>, store_file: Seq<char>) -> bool {
    &&& store_file.len() <= entry.len()
    &&& entry.subrange(0, store_file.len() as int) == store_file
    &&& ((exists|i: int|
        0 <= i <= entry.len() - 7 && #[trigger] entry.subrange(i, i + 7) == ".index."@) || (
    entry.len() >= 6 && entry.subrange(entry.len() - 6, entry.len() as int) == ".cache"@))
}

/// Whether `needle` stands in `hay` at position `at`.
fn occurs_at(hay: &str, at: usize, needle: &str) -> (b: bool)
    requires
        at + needle@.len() <= hay@.len(),
        hay@.len() <= usize::MAX,
    ensures
        b == (hay@.subrange(at as int, at + needle@.len()) == needle@),
{
    let m = needle.unicode_len();
    let mut j: usize = 0;
    while j < m
        invariant
            0 <= j <= m,
            m == needle@.len(),
            at + m <= hay@.len(),
            hay@.len() <= usize::MAX,
            forall|l: int| 0 <= l < j ==> hay@[at + l] == needle@[l],
        decreases m - j,
    {
        if hay.get_char(at + j) != needle.get_char(j) {
            proof {
                assert(hay@.subrange(at as int, at + needle@.len())[j as int] != needle@[j as int]);
            }
            return false;
        }
        j = j + 1;
    }
    proof {
        assert(hay@.subrange(at as int, at + needle@.len()) =~= needle@);
    }
    true
}

/// Decides whether a directory entry is a cache sibling of a store file, as
/// [`spec_is_cache_file_for`] defines it; the caller unlinks those it
/// confirms.
pub fn is_cache_file_for(entry: &String, store_file: &String) -> (b: bool)
    ensures
        b == spec_is_cache_file_for(entry@, store_file@),
{
    proof {
        reveal_strlit(".cache");
        reveal_strlit(".index.");
    }
    let es = entry.as_str();
    let fs = store_file.as_str();
    let n = es.unicode_len();
    let m = fs.unicode_len();
    if m > n {
        return false;
    }
    if !occurs_at(es, 0, fs) {
        return false;
    }
    if n >= 6 && occurs_at(es, n - 6, ".cache") {
        return true;
    }
    if n >= 7 {
        let mut i: usize = 0;
        while i <= n - 7
            invariant
                n == entry@.len(),
                es@ == entry@,
                n >= 7,
                ".index."@.len() == 7,
                store_file@.len() <= entry@.len(),
                entry@.subrange(0, store_file@.len() as int) == store_file@,
                0 <= i <= n - 7 + 1,
                forall|l: int| 0 <= l < i ==> #[trigger] entry@.subrange(l, l + 7) != ".index."@,
            decreases n - i,
        {
            if occurs_at(es, i, ".index.") {
                proof {
                    assert(spec_is_cache_file_for(entry@, store_file@));
                }
                return true;
            }
            i = i + 1;
        }
    }
    proof {
        if exists|i: int|
            0 <= i <= entry@.len() - 7 && #[trigger] entry@.subrange(i, i + 7) == ".index."@ {
            let i = choose|i: int|
                0 <= i <= entry@.len() - 7 && #[trigger] entry@.subrange(i, i + 7) == ".index."@;
            assert(false);
        }
    }
    false
}

// ------------------------------------------------------------------
// Sorted enumeration
// ------------------------------------------------------------------
/// Lexicographic order on graph names, by character code.
pub open spec fn name_le(a: Seq<char>, b: Seq<char>) -> bool
    decreases a.len(),
{
    if a.len() == 0 {
        true
    } else if b.len() == 0 {
        false
    } else if (a[0] as u32) != (b[0] as u32) {
        (a[0] as u32) < (b[0] as u32)
    } else {
        name_le(a.drop_first(), b.drop_first())
    }
}

/// The order is reflexive.
proof fn lemma_name_le_refl(a: Seq<char>)
    ensures
        name_le(a, a),
    decreases a.len(),
{
    if a.len() > 0 {
        lemma_name_le_refl(a.drop_first());
    }
}

/// The order is total.
proof fn lemma_name_le_total(a: Seq<char>, b: Seq<char>)
    ensures
        name_le(a, b) || name_le(b, a),
    decreases a.len(),
{
    if a.len() > 0 && b.len() > 0 && (a[0] as u32) == (b[0] as u32) {
        lemma_name_le_total(a.drop_first(), b.drop_first());
    }
}

/// The order is transitive.
proof fn lemma_name_le_trans(a: Seq<char>, b: Seq<char>, c: Seq<char>)
    requires
        name_le(a, b),
        name_le(b, c),
    ensures
        name_le(a, c),
    decreases a.len(),
{
    if a.len() > 0 && b.len() > 0 && c.len() > 0 && (a[0] as u32) == (b[0] as u32) && (
    b[0] as u32) == (c[0] as u32) {
        lemma_name_le_trans(a.drop_first(), b.drop_first(), c.drop_first());
    }
}

/// Whether `a` sorts at or before `b`, decided as [`name_le`].
fn name_le_exec(a: &str, b: &str) -> (r: bool)
    ensures
        r == name_le(a@, b@),
{
    let n = a.unicode_len();
    let m = b.unicode_len();
    let mut i: usize = 0;
    proof {
        assert(a@.subrange(0, n as int) =~= a@);
        assert(b@.subrange(0, m as int) =~= b@);
    }
    loop
        invariant_except_break
            0 <= i <= n,
            i <= m,
            n == a@.len(),
            m == b@.len(),
            name_le(a@, b@) == name_le(
                a@.subrange(i as int, n as int),
                b@.subrange(i as int, m as int),
            ),
        ensures
            name_le(a@, b@) == (if i >= n {
                true
            } else if i >= m {
                false
            } else {
                (a@[i as int] as u32) < (b@[i as int] as u32)
            }),
        decreases n - i,
    {
        if i >= n {
            break;
        }
        if i >= m {
            break;
        }
        let ca = a.get_char(i);
        let cb = b.get_char(i);
        let ghost ra = a@.subrange(i as int, n as int);
        let ghost rb = b@.subrange(i as int, m as int);
        proof {
            assert(ra[0] == ca && rb[0] == cb);
            assert(ra.drop_first() =~= a@.subrange(i + 1, n as int));
            assert(rb.drop_first() =~= b@.subrange(i + 1, m as int));
        }
        if (ca as u32) != (cb as u32) {
            break;
        }
        i = i + 1;
    }
    if i >= n {
        true
    } else if i >= m {
        false
    } else {
        (a.get_char(i) as u32) < (b.get_char(i) as u32)
    }
}

impl AggregateHdt {
    /// The registered mappings in ascending graph-name order: the same
    /// mappings as the registry holds, rearranged and nothing else.
    pub fn sorted_entries(&self) -> (r: Vec<(String, String)>)
        requires
            self.wf(),
        ensures
            r@.to_multiset() == self.entries@.to_multiset(),
            forall|i: int, j: int| 0 <= i < j < r@.len() ==> name_le(r@[i].0@, r@[j].0@),
    {
        broadcast use vstd::seq_lib::group_to_multiset_ensures;

        let mut work: Vec<(String, String)> = Vec::new();
        let mut i: usize = 0;
        while i < self.entries.len()
            invariant
                0 <= i <= self.entries@.len(),
                work@ == self.entries@.subrange(0, i as int),
            decreases self.entries@.len() - i,
        {
            let e = &self.entries[i];
            work.push((e.0.clone(), e.1.clone()));
            proof {
                assert(work@ =~= self.entries@.subrange(0, i + 1 as int));
            }
            i = i + 1;
        }
        proof {
            assert(self.entries@.subrange(0, self.entries@.len() as int) =~= self.entries@);
        }
        let mut out: Vec<(String, String)> = Vec::new();
        while work.len() > 0
            invariant
                out@.to_multiset().add(work@.to_multiset()) =~= self.entries@.to_multiset(),
                forall|i2: int, j2: int|
                    0 <= i2 < j2 < out@.len() ==> name_le(out@[i2].0@, out@[j2].0@),
                forall|i2: int, j2: int|
                    0 <= i2 < out@.len() && 0 <= j2 < work@.len() ==> name_le(
                        out@[i2].0@,
                        work@[j2].0@,
                    ),
            decreases work@.len(),
        {
            broadcast use vstd::seq_lib::group_to_multiset_ensures;

            let mut m: usize = 0;
            let mut k: usize = 1;
            proof {
                lemma_name_le_refl(work@[0].0@);
            }
            while k < work.len()
                invariant
                    0 <= m < k <= work@.len(),
                    forall|j2: int| 0 <= j2 < k ==> name_le(work@[m as int].0@, work@[j2].0@),
                decreases work@.len() - k,
            {
                if !name_le_exec(work[m].0.as_str(), work[k].0.as_str()) {
                    proof {
                        lemma_name_le_total(work@[m as int].0@, work@[k as int].0@);
                        assert(name_le(work@[k as int].0@, work@[m as int].0@));
                        assert forall|j2: int| 0 <= j2 < k + 1 implies name_le(
                            work@[k as int].0@,
                            work@[j2].0@,
                        ) by {
                            if j2 == k {
                                lemma_name_le_refl(work@[k as int].0@);
                            } else {
                                lemma_name_le_trans(
                                    work@[k as int].0@,
                                    work@[m as int].0@,
                                    work@[j2].0@,
                                );
                            }
                        }
                    }
                    m = k;
                }
                k = k + 1;
            }
            let ghost work_old = work@;
            let ghost out_old = out@;
            let chosen = work.remove(m);
            out.push(chosen);
            proof {
                assert(chosen == work_old[m as int]);
                assert(work@ == work_old.remove(m as int));
                assert(work_old.remove(m as int).to_multiset() =~= work_old.to_multiset().remove(
                    work_old[m as int],
                ));
                assert(out@ =~= out_old.push(chosen));
                assert(out@.to_multiset() =~= out_old.to_multiset().insert(chosen));
                assert(work_old.to_multiset().contains(work_old[m as int]));
                assert(out@.to_multiset().add(work@.to_multiset())
                    =~= out_old.to_multiset().add(work_old.to_multiset()));
                assert forall|i2: int, j2: int|
                    0 <= i2 < out@.len() && 0 <= j2 < work@.len() implies name_le(
                    out@[i2].0@,
                    work@[j2].0@,
                ) by {
                    let j_old: int = if j2 < m {
                        j2
                    } else {
                        j2 + 1
                    };
                    assert(work@[j2] == work_old[j_old]);
                    if i2 < out_old.len() {
                        assert(name_le(out_old[i2].0@, work_old[j_old].0@));
                    } else {
                        assert(out@[i2] == chosen);
                        assert(name_le(work_old[m as int].0@, work_old[j_old].0@));
                    }
                }
            }
        }
        proof {
            assert(work@.to_multiset() =~= Multiset::<(String, String)>::empty());
            assert(out@.to_multiset() =~= self.entries@.to_multiset());
        }
        out
    }
}

// ------------------------------------------------------------------
// Snapshots
// ------------------------------------------------------------------
/// The graph names a snapshot's stores are registered under.
pub open spec fn store_names(stores: Seq<(String, hdt::Hdt)>) -> Seq<Seq<char>> {
    stores.map_values(|e: (String, hdt::Hdt)| e.0@)
}

/// Whether a registry entry passes an optional graph-name filter.
pub open spec fn snapshot_filter_pass(filter: Option<Seq<Seq<char>>>, name: Seq<char>) -> bool {
    match filter {
        None => true,
        Some(f) => f.contains(name),
    }
}

/// The view of an optional graph-name filter.
pub open spec fn filter_view(f: Option<&Vec<String>>) -> Option<Seq<Seq<char>>> {
    match f {
        Some(v) => Some(v@.map_values(|s: String| s@)),
        None => None,
    }
}

/// The view of a lookup's graph scope: unrestricted, the union default
/// graph, or one exact graph.
pub open spec fn gf_view(g: Option<Option<&String>>) -> Option<Option<Seq<char>>> {
    match g {
        None => None,
        Some(None) => Some(None),
        Some(Some(s)) => Some(Some(s@)),
    }
}

/// Whether a store is in scope for a lookup: an exact-graph scope selects
/// one store, every other scope selects them all.
pub open spec fn scope_pass(name: Seq<char>, gf: Option<Option<Seq<char>>>) -> bool {
    match gf {
        None => true,
        Some(None) => true,
        Some(Some(g)) => name == g,
    }
}

/// How many quads equal to `q` one store contributes to a lookup.
pub open spec fn store_contrib(
    e: (String, hdt::Hdt),
    gf: Option<Option<Seq<char>>>,
    s: Option<Seq<char>>,
    p: Option<Seq<char>>,
    o: Option<Seq<char>>,
    q: QuadV,
) -> nat {
    if scope_pass(e.0@, gf) && q.0 == e.0@ {
        matched_triples(hdt_triples(e.1), s, p, o).count((q.1, q.2, q.3))
    } else {
        0
    }
}

/// How many quads equal to `q` a lookup over these stores returns: the sum
/// of each in-scope store's own matches, tagged with its graph name.
pub open spec fn scope_matched_count(
    stores: Seq<(String, hdt::Hdt)>,
    gf: Option<Option<Seq<char>>>,
    s: Option<Seq<char>>,
    p: Option<Seq<char>>,
    o: Option<Seq<char>>,
    q: QuadV,
) -> nat
    decreases stores.len(),
{
    if stores.len() == 0 {
        0
    } else {
        scope_matched_count(stores.drop_last(), gf, s, p, o, q) + store_contrib(
            stores.last(),
            gf,
            s,
            p,
            o,
            q,
        )
    }
}

/// How many quads a lookup over these stores returns in all.
pub open spec fn scope_total(
    stores: Seq<(String, hdt::Hdt)>,
    gf: Option<Option<Seq<char>>>,
    s: Option<Seq<char>>,
    p: Option<Seq<char>>,
    o: Option<Seq<char>>,
) -> nat
    decreases stores.len(),
{
    if stores.len() == 0 {
        0
    } else {
        scope_total(stores.drop_last(), gf, s, p, o) + (if scope_pass(stores.last().0@, gf) {
            matched_triples(hdt_triples(stores.last().1), s, p, o).len()
        } else {
            0
        })
    }
}

/// A consistent, immutable, point-in-time set of loaded stores, built from
/// the registry and queried by one request; later registry mutations never
/// reach it.
pub struct AggregateHdtSnapshot {
    pub stores: Vec<(String, hdt::Hdt)>,
}

impl AggregateHdtSnapshot {
    /// Well-formed: no graph name occurs twice.
    pub open spec fn wf(self) -> bool {
        forall|i: int, j: int|
            0 <= i < j < self.stores@.len() ==> self.stores@[i].0@ != self.stores@[j].0@
    }

    /// The graph names this snapshot exposes.
    pub open spec fn graph_names(self) -> Seq<Seq<char>> {
        store_names(self.stores@)
    }

    /// Wraps loaded stores into a snapshot; the names must be distinct.
    pub fn from_stores(stores: Vec<(String, hdt::Hdt)>) -> (r: Result<
        AggregateHdtSnapshot,
        StoreError,
    >)
        ensures
            match r {
                Ok(snap) => snap.stores@ == stores@ && snap.wf(),
                Err(e) => e is AlreadyExists && !(AggregateHdtSnapshot { stores }.wf()),
            },
    {
        let snap = AggregateHdtSnapshot { stores };
        let mut i: usize = 0;
        while i < snap.stores.len()
            invariant
                snap.stores@ == stores@,
                0 <= i <= snap.stores@.len(),
                forall|a: int, b: int|
                    0 <= a < b < snap.stores@.len() && a < i ==> snap.stores@[a].0@
                        != snap.stores@[b].0@,
            decreases snap.stores@.len() - i,
        {
            let mut j: usize = i + 1;
            while j < snap.stores.len()
                invariant
                    snap.stores@ == stores@,
                    0 <= i < j <= snap.stores@.len(),
                    forall|b: int| i < b < j ==> snap.stores@[i as int].0@ != snap.stores@[b].0@,
                decreases snap.stores@.len() - j,
            {
                if snap.stores[i].0 == snap.stores[j].0 {
                    proof {
                        let bad = AggregateHdtSnapshot { stores };
                        assert(bad.stores@[i as int].0@ == bad.stores@[j as int].0@);
                        assert(!bad.wf());
                    }
                    return Err(StoreError::AlreadyExists(String::from_str(
                        "duplicate graph name in snapshot",
                    )));
                }
                j = j + 1;
            }
            i = i + 1;
        }
        Ok(snap)
    }

    /// The graph names present in this snapshot, one per loaded store.
    pub fn internal_named_graphs(&self) -> (r: Vec<String>)
        ensures
            r@.map_values(|s: String| s@) == self.graph_names(),
    {
        let mut r: Vec<String> = Vec::new();
        let mut i: usize = 0;
        while i < self.stores.len()
            invariant
                0 <= i <= self.stores@.len(),
                r@.len() == i,
                forall|j: int| 0 <= j < i ==> r@[j]@ == self.stores@[j].0@,
            decreases self.stores@.len() - i,
        {
            r.push(self.stores[i].0.clone());
            i = i + 1;
        }
        proof {
            assert(r@.map_values(|s: String| s@) =~= self.graph_names());
        }
        r
    }

    /// Whether a graph name is present in this snapshot (not in the live
    /// registry).
    pub fn contains_internal_graph_name(&self, graph_name: &String) -> (r: Result<
        bool,
        StoreError,
    >)
        ensures
            r matches Ok(b) && b == self.graph_names().contains(graph_name@),
    {
        let mut i: usize = 0;
        while i < self.stores.len()
            invariant
                0 <= i <= self.stores@.len(),
                forall|j: int| 0 <= j < i ==> self.stores@[j].0@ != graph_name@,
            decreases self.stores@.len() - i,
        {
            if self.stores[i].0 == *graph_name {
                proof {
                    assert(self.graph_names()[i as int] == graph_name@);
                }
                return Ok(true);
            }
            i = i + 1;
        }
        proof {
            if self.graph_names().contains(graph_name@) {
                let j = choose|j: int|
                    0 <= j < self.graph_names().len() && self.graph_names()[j] == graph_name@;
                assert(self.stores@[j].0@ == graph_name@);
            }
        }
        Ok(false)
    }

    /// Converts an evaluator term into the store's native encoding.
    pub fn internalize_term(&self, term: &RdfTerm) -> (r: Result<String, StoreError>)
        ensures
            r matches Ok(s) && s@ == crate::term::ser_term(term@),
    {
        Ok(term_to_hdt_bgp_str(term))
    }

    /// Parses a native term string back into an evaluator term.
    pub fn externalize_term(&self, s: &String) -> (r: Result<RdfTerm, StoreError>)
        ensures
            match r {
                Ok(t) => parse_term(s@) == Some(t@),
                Err(e) => parse_term(s@) is None && e is ParseError,
            },
    {
        hdt_bgp_str_to_term(s.as_str())
    }

    /// Pattern lookup over the stores in scope: each store is queried for
    /// the bound components, every hit is tagged with its owning graph name,
    /// and the results are concatenated. The result is the exact multiset
    /// union of the in-scope stores' own matches — no match is dropped and
    /// none is invented.
    pub fn internal_quads_for_pattern(
        &self,
        subject: Option<&String>,
        predicate: Option<&String>,
        object: Option<&String>,
        graph_name: Option<Option<&String>>,
    ) -> (r: Vec<QuadStrings>)
        ensures
            r@.len() == scope_total(
                self.stores@,
                gf_view(graph_name),
                opt_view(subject),
                opt_view(predicate),
                opt_view(object),
            ),
            forall|q: QuadV| #[trigger]
                quads_multiset(r@).count(q) == scope_matched_count(
                    self.stores@,
                    gf_view(graph_name),
                    opt_view(subject),
                    opt_view(predicate),
                    opt_view(object),
                    q,
                ),
            forall|k: int|
                0 <= k < r@.len() ==> self.graph_names().contains(#[trigger] r@[k]@.0),
    {
        broadcast use vstd::seq_lib::group_to_multiset_ensures;

        let ghost gf = gf_view(graph_name);
        let ghost sv = opt_view(subject);
        let ghost pv = opt_view(predicate);
        let ghost ov = opt_view(object);
        let mut r: Vec<QuadStrings> = Vec::new();
        proof {
            assert(r@.map_values(|qd: QuadStrings| qd@) =~= Seq::<QuadV>::empty());
            assert(quads_multiset(r@) =~= Multiset::<QuadV>::empty());
            assert(self.stores@.subrange(0, 0) =~= Seq::<(String, hdt::Hdt)>::empty());
        }
        let mut i: usize = 0;
        while i < self.stores.len()
            invariant
                0 <= i <= self.stores@.len(),
                gf == gf_view(graph_name),
                sv == opt_view(subject),
                pv == opt_view(predicate),
                ov == opt_view(object),
                r@.len() == scope_total(self.stores@.subrange(0, i as int), gf, sv, pv, ov),
                forall|q: QuadV| #[trigger]
                    quads_multiset(r@).count(q) == scope_matched_count(
                        self.stores@.subrange(0, i as int),
                        gf,
                        sv,
                        pv,
                        ov,
                        q,
                    ),
                forall|k: int|
                    0 <= k < r@.len() ==> exists|j: int|
                        0 <= j < i && (#[trigger] r@[k]@.0) == self.stores@[j].0@,
            decreases self.stores@.len() - i,
        {
            broadcast use vstd::seq_lib::group_to_multiset_ensures;

            let e = &self.stores[i];
            let pass = match graph_name {
                None => true,
                Some(None) => true,
                Some(Some(g)) => e.0 == *g,
            };
            let ghost r0 = r@;
            if pass {
                let ts = hdt_triples_matching(&e.1, subject, predicate, object);
                let mut quads = tag_quads(&e.0, &ts);
                let ghost tv = ts@.map_values(|t: TripleStrings| t@);
                let ghost qv = quads@.map_values(|qd: QuadStrings| qd@);
                proof {
                    assert(tv.to_multiset() == matched_triples(hdt_triples(e.1), sv, pv, ov));
                    assert(tv.to_multiset().len() == tv.len());
                    assert forall|q: QuadV| #[trigger]
                        qv.to_multiset().count(q) == store_contrib(
                            self.stores@[i as int],
                            gf,
                            sv,
                            pv,
                            ov,
                            q,
                        ) by {
                        assert forall|k: int| 0 <= k < qv.len() implies qv[k] == (
                        e.0@,
                        tv[k].0,
                        tv[k].1,
                        tv[k].2,
                        ) by {
                            assert(qv[k] == quads@[k]@);
                            assert(tv[k] == ts@[k]@);
                        }
                        lemma_tagged_seq_count(e.0@, tv, qv, q);
                        lemma_tag_count_multiset(e.0@, tv, q);
                        assert(scope_pass(e.0@, gf));
                    }
                }
                let ghost qseq = quads@;
                r.append(&mut quads);
                proof {
                    assert(r@ =~= r0 + qseq);
                    assert(qseq.map_values(|qd: QuadStrings| qd@) == qv);
                    assert forall|k: int| 0 <= k < r@.len() implies exists|j: int|
                        0 <= j < i + 1 && (#[trigger] r@[k]@.0) == self.stores@[j].0@ by {
                        if k < r0.len() {
                            let j = choose|j: int|
                                0 <= j < i && (#[trigger] r0[k]@.0) == self.stores@[j].0@;
                            assert(r@[k]@.0 == self.stores@[j].0@);
                        } else {
                            assert(r@[k] == qseq[k - r0.len()]);
                            assert(r@[k]@.0 == self.stores@[i as int].0@);
                        }
                    }
                    assert(r@.map_values(|qd: QuadStrings| qd@) =~= r0.map_values(
                        |qd: QuadStrings| qd@,
                    ) + qseq.map_values(|qd: QuadStrings| qd@));
                    vstd::seq_lib::lemma_multiset_commutative(
                        r0.map_values(|qd: QuadStrings| qd@),
                        qv,
                    );
                    assert(quads_multiset(r@) =~= quads_multiset(r0).add(qv.to_multiset()));
                    assert(qv.to_multiset().len() == qv.len());
                }
            }
            proof {
                let pre = self.stores@.subrange(0, i as int);
                let cur = self.stores@.subrange(0, i + 1 as int);
                assert(cur.drop_last() =~= pre);
                assert(cur.last() == self.stores@[i as int]);
                if !pass {
                    assert(!scope_pass(self.stores@[i as int].0@, gf));
                    assert forall|q: QuadV| #[trigger]
                        quads_multiset(r@).count(q) == scope_matched_count(
                            cur,
                            gf,
                            sv,
                            pv,
                            ov,
                            q,
                        ) by {
                        assert(store_contrib(self.stores@[i as int], gf, sv, pv, ov, q) == 0);
                    }
                }
            }
            i = i + 1;
        }
        proof {
            assert(self.stores@.subrange(0, self.stores@.len() as int) =~= self.stores@);
            assert forall|k: int| 0 <= k < r@.len() implies self.graph_names().contains(
                #[trigger] r@[k]@.0,
            ) by {
                let j = choose|j: int|
                    0 <= j < self.stores@.len() && (#[trigger] r@[k]@.0) == self.stores@[j].0@;
                assert(self.graph_names()[j] == r@[k]@.0);
            }
        }
        r
    }
}

/// Whether a vector of names holds a given name.
fn vec_contains_string(v: &Vec<String>, s: &String) -> (b: bool)
    ensures
        b == v@.map_values(|x: String| x@).contains(s@),
{
    let ghost views = v@.map_values(|x: String| x@);
    let mut i: usize = 0;
    while i < v.len()
        invariant
            0 <= i <= v@.len(),
            views == v@.map_values(|x: String| x@),
            forall|j: int| 0 <= j < i ==> views[j] != s@,
        decreases v@.len() - i,
    {
        if v[i] == *s {
            proof {
                assert(views[i as int] == s@);
            }
            return true;
        }
        i = i + 1;
    }
    proof {
        if views.contains(s@) {
            let j = choose|j: int| 0 <= j < views.len() && views[j] == s@;
            assert(false);
        }
    }
    false
}

/// The registry entries that pass an optional graph-name filter, in order.
pub open spec fn filtered_entries(
    entries: Seq<(String, String)>,
    filter: Option<Seq<Seq<char>>>,
) -> Seq<(String, String)> {
    entries.filter(|e: (String, String)| snapshot_filter_pass(filter, e.0@))
}

/// With no filter, every entry passes.
proof fn lemma_filter_none_is_identity(entries: Seq<(String, String)>)
    ensures
        filtered_entries(entries, None) == entries,
    decreases entries.len(),
{
    reveal(Seq::filter);
    if entries.len() > 0 {
        lemma_filter_none_is_identity(entries.drop_last());
        assert(filtered_entries(entries, None) =~= entries);
    } else {
        assert(filtered_entries(entries, None) =~= entries);
    }
}

/// A prefix never passes more entries through a filter than the whole list.
proof fn lemma_filtered_prefix_len(
    entries: Seq<(String, String)>,
    filter: Option<Seq<Seq<char>>>,
    j: int,
)
    requires
        0 <= j <= entries.len(),
    ensures
        filtered_entries(entries.subrange(0, j), filter).len() <= filtered_entries(
            entries,
            filter,
        ).len(),
    decreases entries.len() - j,
{
    reveal(Seq::filter);
    if j == entries.len() {
        assert(entries.subrange(0, j) =~= entries);
    } else {
        lemma_filtered_prefix_len(entries, filter, j + 1);
        let pre = entries.subrange(0, j);
        let cur = entries.subrange(0, j + 1);
        assert(cur.drop_last() =~= pre);
        assert(cur.last() == entries[j]);
        if snapshot_filter_pass(filter, entries[j].0@) {
            assert(filtered_entries(cur, filter) =~= filtered_entries(pre, filter).push(
                entries[j],
            ));
        } else {
            assert(filtered_entries(cur, filter) =~= filtered_entries(pre, filter));
        }
    }
}

impl AggregateHdt {
    /// Builds a point-in-time snapshot: every registered file whose name
    /// passes the optional filter is loaded; with no filter, the snapshot
    /// exposes exactly the registered graphs, one store per registration,
    /// under the registered names. A single failed load fails the whole
    /// build — partial snapshots are never returned.
    pub fn get_snapshot(&self, named_graphs: Option<Vec<String>>) -> (r: Result<
        AggregateHdtSnapshot,
        StoreError,
    >)
        requires
            self.wf(),
        ensures
            match r {
                Ok(snap) => {
                    &&& snap.wf()
                    &&& snap.graph_names() == entry_names(
                        filtered_entries(self.entries@, snap_filter_view(named_graphs)),
                    )
                    &&& (named_graphs is None ==> snap.graph_names() == self.names())
                },
                Err(e) => e is StoreLoadError,
            },
            filtered_entries(self.entries@, snap_filter_view(named_graphs)).len() == 0 ==> r
                is Ok,
    {
        let ghost fv = snap_filter_view(named_graphs);
        let mut stores: Vec<(String, hdt::Hdt)> = Vec::new();
        proof {
            reveal(Seq::filter);
            assert(self.entries@.subrange(0, 0) =~= Seq::<(String, String)>::empty());
            assert(store_names(stores@) =~= entry_names(
                filtered_entries(self.entries@.subrange(0, 0), fv),
            ));
        }
        let mut i: usize = 0;
        while i < self.entries.len()
            invariant
                self.wf(),
                fv == snap_filter_view(named_graphs),
                0 <= i <= self.entries@.len(),
                store_names(stores@) == entry_names(
                    filtered_entries(self.entries@.subrange(0, i as int), fv),
                ),
                forall|k: int|
                    0 <= k < stores@.len() ==> exists|j: int|
                        0 <= j < i && (#[trigger] stores@[k].0@) == self.entries@[j].0@,
                forall|k1: int, k2: int|
                    0 <= k1 < k2 < stores@.len() ==> stores@[k1].0@ != stores@[k2].0@,
            decreases self.entries@.len() - i,
        {
            let e = &self.entries[i];
            let pass = match &named_graphs {
                None => true,
                Some(f) => vec_contains_string(f, &e.0),
            };
            proof {
                assert(pass == snapshot_filter_pass(fv, self.entries@[i as int].0@));
            }
            let ghost stores_old = stores@;
            if pass {
                match load_hdt_file(&e.1) {
                    Ok(h) => {
                        stores.push((e.0.clone(), h));
                        proof {
                            assert(stores@[stores@.len() - 1].0@ == self.entries@[i as int].0@);
                            assert forall|k1: int, k2: int|
                                0 <= k1 < k2 < stores@.len() implies stores@[k1].0@
                                != stores@[k2].0@ by {
                                if k2 == stores@.len() - 1 {
                                    let j = choose|j: int|
                                        0 <= j < i && (#[trigger] stores_old[k1].0@)
                                            == self.entries@[j].0@;
                                    assert(self.entries@[j].0@ != self.entries@[i as int].0@);
                                }
                            }
                        }
                    },
                    Err(m) => {
                        proof {
                            reveal(Seq::filter);
                            let pre = self.entries@.subrange(0, i as int);
                            let cur = self.entries@.subrange(0, i + 1 as int);
                            assert(cur.drop_last() =~= pre);
                            assert(cur.last() == self.entries@[i as int]);
                            assert(filtered_entries(cur, fv) =~= filtered_entries(pre, fv).push(
                                self.entries@[i as int],
                            ));
                            lemma_filtered_prefix_len(self.entries@, fv, i + 1);
                        }
                        let mut msg = String::from_str("failed to load store file ");
                        msg.append(e.1.as_str());
                        msg.append(": ");
                        msg.append(m.as_str());
                        return Err(StoreError::StoreLoadError(msg));
                    },
                }
            }
            proof {
                reveal(Seq::filter);
                let pre = self.entries@.subrange(0, i as int);
                let cur = self.entries@.subrange(0, i + 1 as int);
                assert(cur.drop_last() =~= pre);
                assert(cur.last() == self.entries@[i as int]);
                if pass {
                    assert(filtered_entries(cur, fv) =~= filtered_entries(pre, fv).push(
                        self.entries@[i as int],
                    ));
                    assert(store_names(stores@) =~= store_names(stores_old).push(
                        self.entries@[i as int].0@,
                    ));
                    assert(entry_names(filtered_entries(cur, fv)) =~= entry_names(
                        filtered_entries(pre, fv),
                    ).push(self.entries@[i as int].0@));
                    assert(store_names(stores@) =~= entry_names(filtered_entries(cur, fv)));
                } else {
                    assert(filtered_entries(cur, fv) =~= filtered_entries(pre, fv));
                }
            }
            i = i + 1;
        }
        proof {
            assert(self.entries@.subrange(0, self.entries@.len() as int) =~= self.entries@);
            if named_graphs is None {
                lemma_filter_none_is_identity(self.entries@);
            }
        }
        Ok(AggregateHdtSnapshot { stores })
    }

    /// Loads every registered store into a fresh snapshot and collects all
    /// their triples, each tagged with its owning graph name: the result is
    /// the exact tagged union of the loaded stores' contents, and every
    /// quad carries a currently registered graph name. A single failed load
    /// aborts the whole collection with the offending path in the error;
    /// with nothing registered the collection trivially succeeds.
    pub fn collect_all_triples(&self) -> (r: Result<Vec<QuadStrings>, StoreError>)
        requires
            self.wf(),
        ensures
            self.entries@.len() == 0 ==> r is Ok,
            match r {
                Ok(quads) => {
                    &&& forall|k: int|
                        0 <= k < quads@.len() ==> self.spec_contains(#[trigger] quads@[k]@.0)
                    &&& exists|snap: AggregateHdtSnapshot|
                        #![trigger snap.graph_names()]
                        {
                            &&& snap.wf()
                            &&& snap.graph_names() == self.names()
                            &&& quads@.len() == scope_total(snap.stores@, None, None, None, None)
                            &&& forall|q: QuadV| #[trigger]
                                quads_multiset(quads@).count(q) == scope_matched_count(
                                    snap.stores@,
                                    None,
                                    None,
                                    None,
                                    None,
                                    q,
                                )
                        }
                },
                Err(e) => e is StoreLoadError,
            },
    {
        let snap = match self.get_snapshot(None) {
            Ok(s) => s,
            Err(e) => {
                proof {
                    lemma_filter_none_is_identity(self.entries@);
                }
                return Err(e);
            },
        };
        let quads = snap.internal_quads_for_pattern(None, None, None, None);
        proof {
            assert(snap.graph_names() == self.names());
            assert forall|k: int| 0 <= k < quads@.len() implies self.spec_contains(
                #[trigger] quads@[k]@.0,
            ) by {
                assert(snap.graph_names().contains(quads@[k]@.0));
                let j = choose|j: int|
                    0 <= j < self.names().len() && self.names()[j] == quads@[k]@.0;
                assert(self.entries@[j].0@ == quads@[k]@.0);
            }
        }
        Ok(quads)
    }
}

/// The view of an optional graph-name filter handed to a snapshot build.
pub open spec fn snap_filter_view(f: Option<Vec<String>>) -> Option<Seq<Seq<char>>> {
    match f {
        Some(v) => Some(v@.map_values(|s: String| s@)),
        None => None,
    }
}

// ------------------------------------------------------------------
// Laws of the lookup
// ------------------------------------------------------------------
/// How many quads equal to `q` the full tagged union of the stores holds.
pub open spec fn union_count(stores: Seq<(String, hdt::Hdt)>, q: QuadV) -> nat
    decreases stores.len(),
{
    if stores.len() == 0 {
        0
    } else {
        union_count(stores.drop_last(), q) + (if q.0 == stores.last().0@ {
            hdt_triples(stores.last().1).count((q.1, q.2, q.3))
        } else {
            0
        })
    }
}

/// The total number of triples over all stores.
pub open spec fn total_triples(stores: Seq<(String, hdt::Hdt)>) -> nat
    decreases stores.len(),
{
    if stores.len() == 0 {
        0
    } else {
        total_triples(stores.drop_last()) + hdt_triples(stores.last().1).len()
    }
}

/// An unrestricted pattern matches every triple.
proof fn lemma_matched_all(m: Multiset<TripleV>)
    ensures
        matched_triples(m, None, None, None) == m,
{
    broadcast use vstd::multiset::group_multiset_axioms;

    assert(matched_triples(m, None, None, None) =~= m);
}

/// Law: a fully-unbound, unrestricted lookup over stores is the
/// exact tagged union of the stores' contents: a quad occurs exactly as
/// often as its triple occurs in the store named by its graph, and the
/// total count is the sum of every store's triple count.
pub proof fn lemma_unbound_lookup_union(stores: Seq<(String, hdt::Hdt)>, q: QuadV)
    ensures
        scope_matched_count(stores, None, None, None, None, q) == union_count(stores, q),
        scope_total(stores, None, None, None, None) == total_triples(stores),
    decreases stores.len(),
{
    if stores.len() > 0 {
        lemma_unbound_lookup_union(stores.drop_last(), q);
        lemma_matched_all(hdt_triples(stores.last().1));
    }
}

} // verus!
