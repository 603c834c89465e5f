//! Shared server state: the per-document tables keyed by URI, and
//! the record built at initialisation. Each field of the live server
//! sits behind its own reader-writer lock; the dispatch module plans
//! and grants those leases, this module holds the data.

use crate::checks::CheckRegistry;
use crate::document::DocumentBuffer;
use vstd::prelude::*;

verus! {

/// An association from document URIs (opaque strings compared for
/// equality) to values, with each key held at most once.
pub struct UriMap<V> {
    entries: Vec<(String, V)>,
}

/// The map denoted by an entry list; later entries would shadow
/// earlier ones, but well-formed maps never repeat a key.
pub open spec fn entries_map<V>(entries: Seq<(String, V)>) -> Map<Seq<char>, V>
    decreases entries.len(),
{
    if entries.len() == 0 {
        Map::empty()
    } else {
        entries_map(entries.drop_last()).insert(entries.last().0@, entries.last().1)
    }
}

impl<V> View for UriMap<V> {
    type V = Map<Seq<char>, V>;

    closed spec fn view(&self) -> Map<Seq<char>, V> {
        entries_map(self.entries@)
    }
}

impl<V> UriMap<V> {
    /// No key occurs twice.
    pub closed spec fn wf(self) -> bool {
        forall|i: int, j: int|
            0 <= i < j < self.entries@.len() ==> (#[trigger] self.entries@[i]).0@ != (
            #[trigger] self.entries@[j]).0@
    }

    /// How many documents are present.
    pub closed spec fn spec_len(self) -> nat {
        self.entries@.len()
    }

    pub fn new() -> (m: UriMap<V>)
        ensures
            m.wf(),
            m@ == Map::<Seq<char>, V>::empty(),
            m.spec_len() == 0,
    {
        UriMap { entries: Vec::new() }
    }

    /// How many documents are present.
    pub fn len(&self) -> (n: usize)
        ensures
            n == self.spec_len(),
    {
        self.entries.len()
    }

    proof fn lemma_entries_map(entries: Seq<(String, V)>, k: Seq<char>)
        ensures
            entries_map(entries).contains_key(k) <==> exists|i: int|
                0 <= i < entries.len() && (#[trigger] entries[i]).0@ == k,
        decreases entries.len(),
    {
        if entries.len() > 0 {
            Self::lemma_entries_map(entries.drop_last(), k);
            if entries_map(entries).contains_key(k) {
                if entries.last().0@ == k {
                    assert(entries[entries.len() - 1].0@ == k);
                } else {
                    let i = choose|i: int|
                        0 <= i < entries.drop_last().len() && (#[trigger] entries.drop_last()[
                            i
                        ]).0@ == k;
                    assert(entries[i].0@ == k);
                }
            }
            if exists|i: int| 0 <= i < entries.len() && (#[trigger] entries[i]).0@ == k {
                let i = choose|i: int| 0 <= i < entries.len() && (#[trigger] entries[i]).0@ == k;
                if i < entries.len() - 1 {
                    assert(entries.drop_last()[i].0@ == k);
                }
            }
        }
    }

    /// In a well-formed map the entry at `i` is the map's value for
    /// its key.
    proof fn lemma_entry_value(entries: Seq<(String, V)>, i: int)
        requires
            0 <= i < entries.len(),
            forall|a: int, b: int|
                0 <= a < b < entries.len() ==> (#[trigger] entries[a]).0@ != (
                #[trigger] entries[b]).0@,
        ensures
            entries_map(entries).contains_key(entries[i].0@),
            entries_map(entries)[entries[i].0@] == entries[i].1,
        decreases entries.len(),
    {
        if i == entries.len() - 1 {
        } else {
            Self::lemma_entry_value(entries.drop_last(), i);
            assert(entries.drop_last()[i] == entries[i]);
            assert(entries.last().0@ != entries[i].0@);
        }
    }

    /// The value stored under `uri`, when the document is present.
    pub fn get(&self, uri: &String) -> (r: Option<&V>)
        requires
            self.wf(),
        ensures
            self@.contains_key(uri@) ==> (r matches Some(v) && *v == self@[uri@]),
            !self@.contains_key(uri@) ==> r is None,
    {
        let n = self.entries.len();
        let mut i: usize = 0;
        while i < n
            invariant
                i <= n,
                n == self.entries@.len(),
                self.wf(),
                forall|j: int| 0 <= j < i ==> (#[trigger] self.entries@[j]).0@ != uri@,
            decreases n - i,
        {
            if self.entries[i].0.eq(uri) {
                proof {
                    Self::lemma_entry_value(self.entries@, i as int);
                }
                return Some(&self.entries[i].1);
            }
            i = i + 1;
        }
        proof {
            Self::lemma_entries_map(self.entries@, uri@);
        }
        None
    }

    /// Removes and returns the value stored under `uri`.
    pub fn take(&mut self, uri: &String) -> (r: Option<V>)
        requires
            old(self).wf(),
        ensures
            final(self).wf(),
            old(self)@.contains_key(uri@) ==> (r matches Some(v) && v == old(self)@[uri@]),
            !old(self)@.contains_key(uri@) ==> (r is None && *final(self) == *old(self)),
            final(self)@ == old(self)@.remove(uri@),
            final(self).spec_len() <= old(self).spec_len(),
        decreases old(self).spec_len(),
    {
        let n = self.entries.len();
        let mut i: usize = 0;
        while i < n
            invariant
                i <= n,
                n == self.entries@.len(),
                self.wf(),
                *self == *old(self),
                forall|j: int| 0 <= j < i ==> (#[trigger] self.entries@[j]).0@ != uri@,
            decreases n - i,
        {
            if self.entries[i].0.eq(uri) {
                proof {
                    Self::lemma_entry_value(self.entries@, i as int);
                }
                let ghost before = self.entries@;
                let entry = self.entries.remove(i);
                proof {
                    Self::lemma_remove_key(before, i as int);
                    assert(self.entries@ =~= before.remove(i as int));
                }
                return Some(entry.1);
            }
            i = i + 1;
        }
        proof {
            Self::lemma_entries_map(self.entries@, uri@);
            assert(self@ =~= self@.remove(uri@));
        }
        None
    }

    /// Removing entry `i` removes exactly its key from the denoted
    /// map, and keeps well-formedness.
    proof fn lemma_remove_key(entries: Seq<(String, V)>, i: int)
        requires
            0 <= i < entries.len(),
            forall|a: int, b: int|
                0 <= a < b < entries.len() ==> (#[trigger] entries[a]).0@ != (
                #[trigger] entries[b]).0@,
        ensures
            entries_map(entries.remove(i)) == entries_map(entries).remove(entries[i].0@),
            forall|a: int, b: int|
                0 <= a < b < entries.remove(i).len() ==> (#[trigger] entries.remove(i)[a]).0@ != (
                #[trigger] entries.remove(i)[b]).0@,
        decreases entries.len(),
    {
        let shorter = entries.remove(i);
        if i == entries.len() - 1 {
            assert(shorter =~= entries.drop_last());
            assert(entries_map(entries) == entries_map(entries.drop_last()).insert(
                entries.last().0@,
                entries.last().1,
            ));
            Self::lemma_not_contains(entries.drop_last(), entries.last().0@);
            assert(entries_map(entries.drop_last()).remove(entries.last().0@) =~= entries_map(
                entries.drop_last(),
            ));
            assert(entries_map(entries).remove(entries[i].0@) =~= entries_map(
                entries.drop_last(),
            ));
        } else {
            Self::lemma_remove_key(entries.drop_last(), i);
            assert(shorter.drop_last() =~= entries.drop_last().remove(i));
            assert(shorter.last() == entries.last());
            assert(entries_map(shorter) == entries_map(entries.drop_last().remove(i)).insert(
                entries.last().0@,
                entries.last().1,
            ));
            assert(entries[i].0@ != entries.last().0@);
            assert(entries_map(shorter) =~= entries_map(entries).remove(entries[i].0@));
        }
    }

    /// A key absent from every entry is absent from the denoted map.
    proof fn lemma_not_contains(entries: Seq<(String, V)>, k: Seq<char>)
        requires
            forall|i: int| 0 <= i < entries.len() ==> (#[trigger] entries[i]).0@ != k,
        ensures
            !entries_map(entries).contains_key(k),
        decreases entries.len(),
    {
        if entries.len() > 0 {
            assert(forall|i: int|
                0 <= i < entries.drop_last().len() ==> (#[trigger] entries.drop_last()[i]).0@
                    != k) by {
                assert(forall|i: int|
                    0 <= i < entries.drop_last().len() ==> entries.drop_last()[i] == entries[i]);
            }
            Self::lemma_not_contains(entries.drop_last(), k);
        }
    }

    /// Stores `val` under `uri`, replacing any previous value.
    pub fn insert(&mut self, uri: String, val: V)
        requires
            old(self).wf(),
            old(self).spec_len() < usize::MAX,
        ensures
            final(self).wf(),
            final(self)@ == old(self)@.insert(uri@, val),
            final(self).spec_len() <= old(self).spec_len() + 1,
    {
        let _ = self.take(&uri);
        proof {
            Self::lemma_entries_map(self.entries@, uri@);
        }
        let ghost mid = self.entries@;
        self.entries.push((uri, val));
        proof {
            assert(self.entries@.drop_last() =~= mid);
            assert(self@ =~= old(self)@.insert(uri@, val));
        }
    }
}

/// How document synchronisation is advertised: open and close
/// notifications, incremental changes, and will-save notices.
#[derive(Debug, Clone, Copy, PartialEq, Eq, Structural)]
pub struct SyncCapabilities {
    pub open_close: bool,
    pub change_incremental: bool,
    pub will_save: bool,
}

/// Everything this server advertises at initialisation.
#[derive(Debug, Clone, Copy, PartialEq, Eq, Structural)]
pub struct ServerCapabilities {
    pub text_document_sync: SyncCapabilities,
}

/// Lint configuration. The core passes it through untouched; only
/// the lint engine reads it.
pub struct LintSettings {}

/// The shared state of one running server. Each field lives behind
/// its own reader-writer lock in the live server; handlers declare
/// which fields they touch and the dispatcher grants the leases.
pub struct ServerState {
    pub project_root: Option<String>,
    pub open_buffers: UriMap<DocumentBuffer>,
    pub capabilities: ServerCapabilities,
    pub settings: LintSettings,
    pub checks: UriMap<CheckRegistry>,
}

/// The capabilities this server always advertises.
pub open spec fn fixed_capabilities() -> ServerCapabilities {
    ServerCapabilities {
        text_document_sync: SyncCapabilities {
            open_close: true,
            change_incremental: true,
            will_save: true,
        },
    }
}

impl ServerState {
    /// Both tables are sound and every open buffer satisfies its
    /// invariant.
    pub open spec fn wf(self) -> bool {
        &&& self.open_buffers.wf()
        &&& self.checks.wf()
        &&& forall|k: Seq<char>|
            self.open_buffers@.contains_key(k) ==> (#[trigger] self.open_buffers@[k]).wf()
    }

    /// Builds the state served after a successful `initialize`
    /// exchange: no open documents, no checks, and the fixed
    /// capability set.
    pub fn from_init(root_uri: Option<String>) -> (s: ServerState)
        ensures
            s.wf(),
            s.project_root == root_uri,
            s.open_buffers@ == Map::<Seq<char>, DocumentBuffer>::empty(),
            s.checks@ == Map::<Seq<char>, CheckRegistry>::empty(),
            s.capabilities == fixed_capabilities(),
    {
        ServerState {
            project_root: root_uri,
            open_buffers: UriMap::new(),
            capabilities: ServerCapabilities {
                text_document_sync: SyncCapabilities {
                    open_close: true,
                    change_incremental: true,
                    will_save: true,
                },
            },
            settings: LintSettings {},
            checks: UriMap::new(),
        }
    }
}

} // verus!
