//! Genes (reusable payloads signed by their SHA-256 digest) and the gene
//! library that the machine resolves references against.

use crate::assoc::{entries_view, find_key, index_of, insert_entry, insert_key, keys, unique_keys};
use crate::bytes::copy_bytes;
use crate::digest::{sha256, sha256_digest};
use crate::text::{joined, owned};
use std::path::PathBuf;
use vstd::prelude::*;
use vstd::string::*;

verus! {

#[verifier::external_type_specification]
#[verifier::external_body]
pub struct ExPathBuf(PathBuf);

/// A reusable data primitive: an id, the SHA-256 signature of its payload,
/// the payload, and a usage counter with its last saved value.
#[derive(Debug)]
pub struct Gene {
    pub id: String,
    pub signature: [u8; 32],
    pub payload: Vec<u8>,
    pub hits: u64,
    pub hits_saved: u64,
}

/// The mathematical value of a [`Gene`].
pub struct GeneView {
    pub id: Seq<char>,
    pub signature: Seq<u8>,
    pub payload: Seq<u8>,
    pub hits: u64,
    pub hits_saved: u64,
}

impl View for Gene {
    type V = GeneView;

    open spec fn view(&self) -> GeneView {
        GeneView {
            id: self.id@,
            signature: self.signature@,
            payload: self.payload@,
            hits: self.hits,
            hits_saved: self.hits_saved,
        }
    }
}

/// The counter after one more use (the counter wraps around like an atomic add).
pub open spec fn used(g: GeneView) -> GeneView {
    GeneView { hits: g.hits.wrapping_add(1), ..g }
}

/// The gene with its counter saved for storage.
pub open spec fn frozen(g: GeneView) -> GeneView {
    GeneView { hits_saved: g.hits, ..g }
}

/// The gene with its counter restored from the saved value.
pub open spec fn thawed(g: GeneView) -> GeneView {
    GeneView { hits: g.hits_saved, ..g }
}

/// The signature matches the payload.
pub open spec fn signature_valid(g: GeneView) -> bool {
    g.signature == sha256(g.payload)
}

/// Whether two digests are equal, byte by byte.
pub(crate) fn same_digest(a: &[u8; 32], b: &[u8; 32]) -> (r: bool)
    ensures
        r == (a@ == b@),
{
    let mut i: usize = 0;
    while i < 32
        invariant
            0 <= i <= 32,
            a@.len() == 32,
            b@.len() == 32,
            forall|j: int| 0 <= j < i ==> a@[j] == b@[j],
        decreases 32 - i,
    {
        if a[i] != b[i] {
            return false;
        }
        i = i + 1;
    }
    assert(a@ =~= b@);
    true
}

impl Clone for Gene {
    fn clone(&self) -> (r: Gene)
        ensures
            r@ == self@,
    {
        Gene {
            id: self.id.clone(),
            signature: self.signature,
            payload: copy_bytes(&self.payload),
            hits: self.hits,
            hits_saved: self.hits_saved,
        }
    }
}

impl Gene {
    /// A new gene whose signature is the SHA-256 digest of its payload and
    /// whose counters are zero.
    pub fn new(id: String, payload: Vec<u8>) -> (g: Gene)
        ensures
            g@ == (GeneView { id: id@, signature: sha256(payload@), payload: payload@, hits: 0, hits_saved: 0 }),
    {
        let signature = sha256_digest(payload.as_slice());
        Gene { id, signature, payload, hits: 0, hits_saved: 0 }
    }

    /// Counts one more use.
    pub fn record_use(&mut self)
        ensures
            final(self)@ == used(old(self)@),
    {
        self.hits = self.hits.wrapping_add(1);
    }

    /// Saves the counter for storage.
    pub fn freeze(&mut self)
        ensures
            final(self)@ == frozen(old(self)@),
    {
        self.hits_saved = self.hits;
    }

    /// Restores the counter from its saved value.
    pub fn thaw(&mut self)
        ensures
            final(self)@ == thawed(old(self)@),
    {
        self.hits = self.hits_saved;
    }

    /// Whether the signature is the SHA-256 digest of the payload.
    pub(crate) fn has_valid_signature(&self) -> (r: bool)
        ensures
            r == signature_valid(self@),
    {
        let computed = sha256_digest(self.payload.as_slice());
        same_digest(&computed, &self.signature)
    }
}


/// A library of genes keyed by id, with the file it was loaded from.
pub struct GeneLibrary {
    entries: Vec<(String, Gene)>,
    path: Option<PathBuf>,
}

/// The mathematical value of a [`GeneLibrary`]: its entries in order, and
/// its storage path.
pub struct LibraryView {
    pub entries: Seq<(Seq<char>, GeneView)>,
    pub path: Option<PathBuf>,
}

impl View for GeneLibrary {
    type V = LibraryView;

    closed spec fn view(&self) -> LibraryView {
        LibraryView { entries: entries_view(self.entries@), path: self.path }
    }
}

/// The gene bound to `key`, if any.
pub open spec fn lookup(entries: Seq<(Seq<char>, GeneView)>, key: Seq<char>) -> Option<GeneView> {
    let i = index_of(entries, key);
    if i >= 0 { Some(entries[i].1) } else { None }
}

/// Every gene with its counter saved for storage.
pub open spec fn freeze_all(entries: Seq<(Seq<char>, GeneView)>) -> Seq<(Seq<char>, GeneView)> {
    entries.map_values(|e: (Seq<char>, GeneView)| (e.0, frozen(e.1)))
}

/// Every gene with its counter restored from the saved value.
pub open spec fn thaw_all(entries: Seq<(Seq<char>, GeneView)>) -> Seq<(Seq<char>, GeneView)> {
    entries.map_values(|e: (Seq<char>, GeneView)| (e.0, thawed(e.1)))
}

/// The entries at the positions marked `true` in `keep`, in order (a position
/// past the end of `keep` counts as unmarked).
pub open spec fn retained(entries: Seq<(Seq<char>, GeneView)>, keep: Seq<bool>) -> Seq<(Seq<char>, GeneView)>
    decreases entries.len(),
{
    if entries.len() == 0 {
        entries
    } else {
        let last = entries.len() - 1;
        let rest = retained(entries.subrange(0, last), keep);
        if last < keep.len() && keep[last] { rest.push(entries[last]) } else { rest }
    }
}

/// The entries bound one after the other, a later binding of a key replacing
/// an earlier one.
pub open spec fn bound_in_order(stored: Seq<(Seq<char>, GeneView)>) -> Seq<(Seq<char>, GeneView)>
    decreases stored.len(),
{
    if stored.len() == 0 {
        stored
    } else {
        let last = stored.len() - 1;
        insert_entry(bound_in_order(stored.subrange(0, last)), stored[last].0, stored[last].1)
    }
}

/// The position of the first gene whose signature does not match its payload,
/// searching from position `from`, or -1.
pub open spec fn first_invalid_from(entries: Seq<(Seq<char>, GeneView)>, from: int) -> int
    decreases entries.len() - from,
{
    if from < 0 || from >= entries.len() {
        -1
    } else if !signature_valid(entries[from].1) {
        from
    } else {
        first_invalid_from(entries, from + 1)
    }
}

/// The message of a rejected gene.
pub open spec fn mismatch_message(id: Seq<char>) -> Seq<char> {
    "Gene '"@ + id + "' signature mismatch"@
}

proof fn lemma_bound_unique(stored: Seq<(Seq<char>, GeneView)>)
    ensures
        unique_keys(bound_in_order(stored)),
    decreases stored.len(),
{
    if stored.len() > 0 {
        let last = stored.len() - 1;
        lemma_bound_unique(stored.subrange(0, last));
        crate::assoc::lemma_insert_unique(bound_in_order(stored.subrange(0, last)), stored[last].0, stored[last].1);
    }
}

proof fn lemma_first_invalid_none(entries: Seq<(Seq<char>, GeneView)>, from: int)
    requires
        0 <= from,
        forall|i: int| from <= i < entries.len() ==> signature_valid(#[trigger] entries[i].1),
    ensures
        first_invalid_from(entries, from) == -1,
    decreases entries.len() - from,
{
    if from < entries.len() {
        lemma_first_invalid_none(entries, from + 1);
    }
}

proof fn lemma_first_invalid_skip(entries: Seq<(Seq<char>, GeneView)>, from: int, to: int)
    requires
        0 <= from <= to <= entries.len(),
        forall|i: int| from <= i < to ==> signature_valid(#[trigger] entries[i].1),
    ensures
        first_invalid_from(entries, from) == first_invalid_from(entries, to),
    decreases to - from,
{
    if from < to {
        lemma_first_invalid_skip(entries, from + 1, to);
    }
}

/// Keys of a sub-list taken in order stay unique.
proof fn lemma_retained_unique(entries: Seq<(Seq<char>, GeneView)>, keep: Seq<bool>)
    requires
        unique_keys(entries),
    ensures
        unique_keys(retained(entries, keep)),
        forall|j: int| 0 <= j < retained(entries, keep).len() ==>
            exists|i: int| 0 <= i < entries.len() && #[trigger] retained(entries, keep)[j] == entries[i],
    decreases entries.len(),
{
    if entries.len() > 0 {
        let last = entries.len() - 1;
        let pre = entries.subrange(0, last);
        assert(unique_keys(pre)) by {
            assert forall|i: int, j: int| 0 <= i < pre.len() && 0 <= j < pre.len() && i != j implies keys(pre)[i] != keys(pre)[j] by {
                assert(keys(pre)[i] == keys(entries)[i]);
                assert(keys(pre)[j] == keys(entries)[j]);
            }
        }
        lemma_retained_unique(pre, keep);
        let rest = retained(pre, keep);
        if last < keep.len() && keep[last] {
            let r = rest.push(entries[last]);
            assert forall|j: int| 0 <= j < r.len() implies exists|i: int| 0 <= i < entries.len() && #[trigger] r[j] == entries[i] by {
                if j < rest.len() {
                    let i = choose|i: int| 0 <= i < pre.len() && rest[j] == pre[i];
                    assert(r[j] == entries[i]);
                } else {
                    assert(r[j] == entries[last]);
                }
            }
            assert forall|a: int, b: int| 0 <= a < r.len() && 0 <= b < r.len() && a != b implies keys(r)[a] != keys(r)[b] by {
                if a < rest.len() && b < rest.len() {
                    assert(keys(rest)[a] != keys(rest)[b]);
                } else if a < rest.len() {
                    let i = choose|i: int| 0 <= i < pre.len() && rest[a] == pre[i];
                    assert(keys(entries)[i] != keys(entries)[last]);
                } else {
                    let i = choose|i: int| 0 <= i < pre.len() && rest[b] == pre[i];
                    assert(keys(entries)[i] != keys(entries)[last]);
                }
            }
        } else {
            assert forall|j: int| 0 <= j < rest.len() implies exists|i: int| 0 <= i < entries.len() && #[trigger] rest[j] == entries[i] by {
                let i = choose|i: int| 0 <= i < pre.len() && rest[j] == pre[i];
                assert(rest[j] == entries[i]);
            }
        }
    }
}

fn copy_entry(e: &(String, Gene)) -> (r: (String, Gene))
    ensures
        r.0@ == e.0@,
        r.1@ == e.1@,
{
    (e.0.clone(), e.1.clone())
}

/// Calls `PathBuf::clone`. Claimed: the copy is the same path (std copies
/// the path's bytes as they are).
#[verifier::external_body]
fn copy_path(p: &PathBuf) -> (r: PathBuf)
    ensures
        r == *p,
{
    p.clone()
}

impl Clone for GeneLibrary {
    /// A copy with the same entries, in the same order, and the same path.
    fn clone(&self) -> (r: GeneLibrary)
        ensures
            r@ == self@,
    {
        let n = self.entries.len();
        let mut entries: Vec<(String, Gene)> = Vec::new();
        let mut i: usize = 0;
        while i < n
            invariant
                n == self.entries@.len(),
                0 <= i <= n,
                entries_view(entries@) == entries_view(self.entries@).subrange(0, i as int),
            decreases n - i,
        {
            let e = copy_entry(&self.entries[i]);
            let ghost prev = entries_view(entries@);
            entries.push(e);
            assert(entries_view(entries@) =~= prev.push((self.entries@[i as int].0@, self.entries@[i as int].1@)));
            assert(entries_view(entries@) =~= entries_view(self.entries@).subrange(0, i + 1));
            i = i + 1;
        }
        let path = match &self.path {
            Some(p) => Some(copy_path(p)),
            None => None,
        };
        assert(entries_view(self.entries@).subrange(0, n as int) =~= entries_view(self.entries@));
        GeneLibrary { entries, path }
    }
}

impl GeneLibrary {
    /// The library's entries have unique keys.
    pub open spec fn wf(&self) -> bool {
        unique_keys(self@.entries)
    }

    /// An empty library with no storage path.
    pub fn new() -> (lib: GeneLibrary)
        ensures
            lib.wf(),
            lib@.entries == Seq::<(Seq<char>, GeneView)>::empty(),
            lib@.path is None,
    {
        let lib = GeneLibrary { entries: Vec::new(), path: None };
        assert(lib@.entries =~= Seq::<(Seq<char>, GeneView)>::empty());
        lib
    }

    /// Builds a library from stored entries read back from `path`: binds the
    /// entries in order, then checks every gene's signature. The first gene
    /// (in binding order) whose signature does not match its payload is
    /// reported by its id; otherwise every gene has its counter restored.
    pub fn from_stored(stored: &Vec<(String, Gene)>, path: PathBuf) -> (r: Result<GeneLibrary, String>)
        ensures
            ({
                let bound = bound_in_order(entries_view(stored@));
                let bad = first_invalid_from(bound, 0);
                &&& bad == -1 ==> (r matches Ok(lib) && lib.wf() && lib@.entries == thaw_all(bound)
                    && lib@.path == Some(path))
                &&& bad != -1 ==> (r matches Err(msg) && 0 <= bad < bound.len()
                    && msg@ == mismatch_message(bound[bad].1.id))
            }),
    {
        let ghost sv = entries_view(stored@);
        let mut entries: Vec<(String, Gene)> = Vec::new();
        let n = stored.len();
        let mut i: usize = 0;
        assert(sv.subrange(0, 0) =~= Seq::<(Seq<char>, GeneView)>::empty());
        assert(entries_view(entries@) =~= Seq::<(Seq<char>, GeneView)>::empty());
        while i < n
            invariant
                n == stored@.len(),
                sv == entries_view(stored@),
                0 <= i <= n,
                entries_view(entries@) == bound_in_order(sv.subrange(0, i as int)),
                unique_keys(entries_view(entries@)),
            decreases n - i,
        {
            let e = copy_entry(&stored[i]);
            proof {
                assert(sv.subrange(0, i + 1).subrange(0, i as int) =~= sv.subrange(0, i as int));
                assert(sv.subrange(0, i + 1)[i as int] == sv[i as int]);
            }
            insert_key(&mut entries, e.0, e.1);
            i = i + 1;
        }
        assert(sv.subrange(0, n as int) =~= sv);
        let ghost bound = entries_view(entries@);
        let m = entries.len();
        let mut j: usize = 0;
        while j < m
            invariant
                m == entries@.len(),
                bound == entries_view(entries@),
                bound == bound_in_order(entries_view(stored@)),
                0 <= j <= m,
                forall|k: int| 0 <= k < j ==> signature_valid(#[trigger] bound[k].1),
            decreases m - j,
        {
            if !entries[j].1.has_valid_signature() {
                proof {
                    lemma_first_invalid_skip(bound, 0, j as int);
                    assert(bound[j as int] == (entries@[j as int].0@, entries@[j as int].1@));
                    assert(first_invalid_from(bound, j as int) == j);
                }
                let mut msg = joined("Gene '", entries[j].1.id.as_str());
                msg.append("' signature mismatch");
                return Err(msg);
            }
            j = j + 1;
        }
        proof { lemma_first_invalid_none(bound, 0); }
        let mut thawed_entries: Vec<(String, Gene)> = Vec::new();
        let mut k: usize = 0;
        while k < m
            invariant
                m == entries@.len(),
                bound == entries_view(entries@),
                unique_keys(bound),
                0 <= k <= m,
                entries_view(thawed_entries@) == thaw_all(bound).subrange(0, k as int),
            decreases m - k,
        {
            let mut e = copy_entry(&entries[k]);
            e.1.thaw();
            let ghost prev = entries_view(thawed_entries@);
            thawed_entries.push(e);
            assert(bound[k as int] == (entries@[k as int].0@, entries@[k as int].1@));
            assert(entries_view(thawed_entries@) =~= prev.push((bound[k as int].0, thawed(bound[k as int].1))));
            assert(entries_view(thawed_entries@) =~= thaw_all(bound).subrange(0, k + 1));
            k = k + 1;
        }
        let lib = GeneLibrary { entries: thawed_entries, path: Some(path) };
        assert(lib@.entries =~= thaw_all(bound));
        assert(keys(thaw_all(bound)) =~= keys(bound));
        Ok(lib)
    }

    /// The library's storage path, if it was loaded from a file.
    pub fn storage_path(&self) -> (r: Option<&PathBuf>)
        ensures
            r is None <==> self@.path is None,
            r matches Some(p) ==> self@.path == Some(*p),
    {
        self.path.as_ref()
    }

    /// The entries with every counter saved, as written to storage.
    pub fn snapshot(&self) -> (r: Vec<(String, Gene)>)
        ensures
            entries_view(r@) == freeze_all(self@.entries),
    {
        let n = self.entries.len();
        let mut out: Vec<(String, Gene)> = Vec::new();
        let mut i: usize = 0;
        while i < n
            invariant
                n == self.entries@.len(),
                0 <= i <= n,
                entries_view(out@) == freeze_all(self@.entries).subrange(0, i as int),
            decreases n - i,
        {
            let mut e = copy_entry(&self.entries[i]);
            e.1.freeze();
            let ghost prev = entries_view(out@);
            out.push(e);
            assert(self@.entries[i as int] == (self.entries@[i as int].0@, self.entries@[i as int].1@));
            assert(entries_view(out@) =~= prev.push((self@.entries[i as int].0, frozen(self@.entries[i as int].1))));
            assert(entries_view(out@) =~= freeze_all(self@.entries).subrange(0, i + 1));
            i = i + 1;
        }
        assert(freeze_all(self@.entries).subrange(0, n as int) =~= freeze_all(self@.entries));
        out
    }

    /// Adds a gene under its id with its counter restored from the saved
    /// value, replacing any gene bound to that id.
    pub fn insert(&mut self, gene: Gene)
        requires
            old(self).wf(),
        ensures
            final(self).wf(),
            final(self)@.entries == insert_entry(old(self)@.entries, gene@.id, thawed(gene@)),
            final(self)@.path == old(self)@.path,
    {
        let mut gene = gene;
        gene.thaw();
        let key = gene.id.clone();
        insert_key(&mut self.entries, key, gene);
    }

    /// A copy of the gene bound to `id`, if any.
    pub fn get(&self, id: &str) -> (r: Option<Gene>)
        requires
            self.wf(),
        ensures
            match lookup(self@.entries, id@) {
                Some(g) => r matches Some(x) && x@ == g,
                None => r is None,
            },
    {
        let key = owned(id);
        match find_key(&self.entries, &key) {
            Some(i) => Some(self.entries[i].1.clone()),
            None => None,
        }
    }

    /// Keeps the genes at the positions marked `true` in `keep`, in order.
    pub fn retain_marked(&mut self, keep: &Vec<bool>)
        requires
            old(self).wf(),
        ensures
            final(self).wf(),
            final(self)@.entries == retained(old(self)@.entries, keep@),
            final(self)@.path == old(self)@.path,
    {
        let ghost before = self@.entries;
        let n = self.entries.len();
        let mut kept: Vec<(String, Gene)> = Vec::new();
        let mut i: usize = 0;
        assert(before.subrange(0, 0) =~= Seq::<(Seq<char>, GeneView)>::empty());
        assert(entries_view(kept@) =~= Seq::<(Seq<char>, GeneView)>::empty());
        while i < n
            invariant
                n == self.entries@.len(),
                before == self@.entries,
                0 <= i <= n,
                entries_view(kept@) == retained(before.subrange(0, i as int), keep@),
            decreases n - i,
        {
            let ghost pre = before.subrange(0, i + 1);
            assert(pre.subrange(0, i as int) =~= before.subrange(0, i as int));
            if i < keep.len() && keep[i] {
                let e = copy_entry(&self.entries[i]);
                kept.push(e);
                assert(entries_view(kept@) =~= retained(pre, keep@));
            }
            i = i + 1;
        }
        assert(before.subrange(0, n as int) =~= before);
        proof { lemma_retained_unique(before, keep@); }
        self.entries = kept;
    }

    /// Counts one use of the gene bound to `id` in this library; says whether
    /// such a gene is bound. Nothing else changes.
    pub fn record_use(&mut self, id: &str) -> (found: bool)
        requires
            old(self).wf(),
        ensures
            final(self).wf(),
            final(self)@.path == old(self)@.path,
            ({
                let i = index_of(old(self)@.entries, id@);
                &&& found == (i >= 0)
                &&& i >= 0 ==> final(self)@.entries == old(self)@.entries.update(i, (id@, used(old(self)@.entries[i].1)))
                &&& i < 0 ==> final(self)@.entries == old(self)@.entries
            }),
    {
        let key = owned(id);
        self.use_gene(&key).is_some()
    }

    /// Looks up `id`; when it is bound, counts one use of that gene and hands
    /// back its payload.
    pub(crate) fn use_gene(&mut self, id: &String) -> (r: Option<Vec<u8>>)
        requires
            old(self).wf(),
        ensures
            final(self).wf(),
            final(self)@.path == old(self)@.path,
            ({
                let i = index_of(old(self)@.entries, id@);
                &&& i >= 0 ==> (r matches Some(p) && p@ == old(self)@.entries[i].1.payload
                    && final(self)@.entries == old(self)@.entries.update(i, (id@, used(old(self)@.entries[i].1))))
                &&& i < 0 ==> r is None && final(self)@.entries == old(self)@.entries
            }),
    {
        match find_key(&self.entries, id) {
            Some(i) => {
                let mut e = copy_entry(&self.entries[i]);
                e.1.record_use();
                let payload = copy_bytes(&e.1.payload);
                let ghost before = self@.entries;
                self.entries.set(i, e);
                proof {
                    assert(self@.entries =~= before.update(i as int, (id@, used(before[i as int].1))));
                    assert(keys(self@.entries) =~= keys(before));
                }
                Some(payload)
            },
            None => None,
        }
    }
}

impl Default for GeneLibrary {
    fn default() -> (lib: GeneLibrary)
        ensures
            lib.wf(),
            lib@.entries == Seq::<(Seq<char>, GeneView)>::empty(),
            lib@.path is None,
    {
        GeneLibrary::new()
    }
}

} // verus!
