//! The store behind a lock, for requests that are handled at the same time.
//!
//! Readers share the store; a writer has it alone. What a reader sees is the
//! store between two writes, never one that is half written.
//!
//! What the store holds at a given moment depends on who wrote before, so
//! the contracts cannot name it. They say that each call acts on some store
//! that can stand behind the lock, and does on it exactly what the call of
//! the same name does on a store that one has for oneself. Every store that
//! can stand behind the lock has grown out of the store that was put there,
//! its `base`: the notes of the base stay where they are, and its
//! identifiers are not given out again.

use crate::apps::note::model::{Note, NoteDraft, NoteView};
use crate::apps::note::store::{
    created_note, empty_store, extends, lookup, store_wf, NoteNotFound, NoteStore, StoreView,
};
use crate::apps::note::store_laws::{lemma_create_extends, lemma_extends_itself};
use vstd::prelude::*;
use vstd::rwlock::{RwLock, RwLockPredicate};

verus! {

/// What the lock keeps true of the store it guards: the store's invariant,
/// and that the store has grown out of the one that was put behind the lock.
pub struct GuardedStore {
    /// The store as it was put behind the lock.
    pub base: StoreView,
}

impl RwLockPredicate<NoteStore> for GuardedStore {
    open spec fn inv(self, store: NoteStore) -> bool {
        stands_behind(store@, self.base)
    }
}

/// A store that can stand behind the lock: it keeps its invariant and has
/// grown out of the store that was put behind the lock, so that the notes of
/// that store are where they were and none of its identifiers was given out
/// again.
pub open spec fn stands_behind(seen: StoreView, base: StoreView) -> bool {
    &&& store_wf(seen)
    &&& store_wf(base)
    &&& extends(seen, base)
}

/// The notes that a vector of notes holds.
pub open spec fn notes_view(notes: Seq<Note>) -> Seq<NoteView> {
    Seq::new(notes.len(), |i: int| notes[i]@)
}

/// A store that many can use at the same time.
pub struct SharedStore {
    lock: RwLock<NoteStore, GuardedStore>,
}

impl SharedStore {
    /// The store as it was put behind the lock.
    pub closed spec fn base(&self) -> StoreView {
        self.lock.pred().base
    }

    /// A store without notes, behind a lock.
    pub fn new() -> (shared: SharedStore)
        ensures
            shared.base() == empty_store(),
    {
        let store = NoteStore::new();
        proof {
            lemma_extends_itself(store@);
        }
        SharedStore { lock: RwLock::new(store, Ghost(GuardedStore { base: empty_store() })) }
    }

    /// Puts a store behind a lock, with the notes it holds.
    pub fn from_store(store: NoteStore) -> (shared: SharedStore)
        requires
            store.wf(),
        ensures
            shared.base() == store@,
    {
        let ghost base = store@;
        proof {
            lemma_extends_itself(base);
        }
        SharedStore { lock: RwLock::new(store, Ghost(GuardedStore { base })) }
    }

    /// Makes a note of the draft, alone with the store for as long as it
    /// takes, as `NoteStore::try_create` does on the store that it finds
    /// behind the lock: there is a note unless that store had given out its
    /// last identifier, and the note has the draft's fields and the
    /// identifier that was next in that store.
    pub fn create(&self, draft: NoteDraft) -> (made: Option<Note>)
        ensures
            exists|seen: StoreView|
                {
                    &&& #[trigger] stands_behind(seen, self.base())
                    &&& match made {
                        Some(note) => seen.next_id < u64::MAX && note@ == created_note(
                            seen,
                            draft@,
                        ),
                        None => seen.next_id == u64::MAX,
                    }
                },
    {
        let (mut store, handle) = self.lock.acquire_write();
        let ghost seen = store@;
        let made = store.try_create(draft);
        proof {
            assert(stands_behind(seen, self.base()));
            if made is Some {
                lemma_create_extends(seen, self.base(), draft@);
            }
        }
        handle.release_write(store);
        made
    }

    /// The note with this identifier, as `NoteStore::get` finds it in the
    /// store that stands behind the lock between two writes.
    pub fn get(&self, id: u64) -> (res: Result<Note, NoteNotFound>)
        ensures
            exists|seen: StoreView|
                {
                    &&& #[trigger] stands_behind(seen, self.base())
                    &&& match res {
                        Ok(note) => lookup(seen, id) == Some(note@),
                        Err(e) => e.id == id && lookup(seen, id) is None,
                    }
                },
    {
        let handle = self.lock.acquire_read();
        let store = handle.borrow();
        let res = match store.get(id) {
            Ok(note) => Ok(note.clone()),
            Err(e) => Err(e),
        };
        proof {
            assert(stands_behind(store@, self.base()));
        }
        handle.release_read();
        res
    }

    /// All notes, oldest first, as `NoteStore::list` finds them in the store
    /// that stands behind the lock between two writes.
    pub fn list(&self) -> (notes: Vec<Note>)
        ensures
            exists|seen: StoreView|
                #[trigger] stands_behind(seen, self.base()) && notes_view(notes@) == seen.notes,
    {
        let handle = self.lock.acquire_read();
        let store = handle.borrow();
        let notes = store.list();
        proof {
            assert(notes_view(notes@) =~= store@.notes);
            assert(stands_behind(store@, self.base()));
        }
        handle.release_read();
        notes
    }
}

} // verus!
