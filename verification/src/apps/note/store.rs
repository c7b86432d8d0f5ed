//! The store of notes: held in memory, in the order in which they came.

use crate::apps::note::model::{DraftView, Note, NoteDraft, NoteView};
use vstd::prelude::*;

verus! {

/// A store as contracts see it.
pub struct StoreView {
    /// The notes, oldest first.
    pub notes: Seq<NoteView>,
    /// The identifier that the next note will get.
    pub next_id: int,
}

/// The invariant of a store: identifiers start at 1, grow with every note,
/// and all lie below the next one. So no two notes share an identifier, and
/// none that was given out is given out again.
pub open spec fn store_wf(s: StoreView) -> bool {
    &&& 1 <= s.next_id <= u64::MAX
    &&& forall|i: int| 0 <= i < s.notes.len() ==> 1 <= (#[trigger] s.notes[i]).id < s.next_id
    &&& forall|i: int, j: int|
        0 <= i < j < s.notes.len() ==> (#[trigger] s.notes[i]).id < (#[trigger] s.notes[j]).id
}

/// A store without notes.
pub open spec fn empty_store() -> StoreView {
    StoreView { notes: Seq::empty(), next_id: 1 }
}

/// The note that a store makes of a draft.
pub open spec fn created_note(s: StoreView, draft: DraftView) -> NoteView {
    NoteView { id: s.next_id as u64, title: draft.title, content: draft.content }
}

/// The store after it has made a note of a draft.
pub open spec fn after_create(s: StoreView, draft: DraftView) -> StoreView {
    StoreView { notes: s.notes.push(created_note(s, draft)), next_id: s.next_id + 1 }
}

/// The store `s` has grown out of the store `base`: it holds the notes of
/// `base` at their places, and behind them notes whose identifiers `base`
/// had not given out yet.
pub open spec fn extends(s: StoreView, base: StoreView) -> bool {
    &&& base.next_id <= s.next_id
    &&& holds_since(s.notes, base)
}

/// The notes are those of `base`, at their places, and behind them notes
/// whose identifiers `base` had not given out yet.
pub open spec fn holds_since(notes: Seq<NoteView>, base: StoreView) -> bool {
    &&& base.notes.len() <= notes.len()
    &&& forall|i: int| 0 <= i < base.notes.len() ==> #[trigger] notes[i] == base.notes[i]
    &&& forall|i: int| base.notes.len() <= i < notes.len() ==> (#[trigger] notes[i]).id >= base.next_id
}

/// Whether the store holds a note with this identifier.
pub open spec fn holds(s: StoreView, id: u64) -> bool {
    exists|i: int| 0 <= i < s.notes.len() && (#[trigger] s.notes[i]).id == id
}

/// The note with this identifier, if the store holds one.
pub open spec fn lookup(s: StoreView, id: u64) -> Option<NoteView> {
    if holds(s, id) {
        Some(s.notes[choose|i: int| 0 <= i < s.notes.len() && (#[trigger] s.notes[i]).id == id])
    } else {
        None
    }
}

/// The outcome of asking for a note that the store does not hold.
#[derive(Clone, Copy, Debug, PartialEq, Eq, Structural)]
pub struct NoteNotFound {
    /// The identifier that was asked for.
    pub id: u64,
}

/// The notes, in memory.
pub struct NoteStore {
    notes: Vec<Note>,
    next_id: u64,
}

impl View for NoteStore {
    type V = StoreView;

    closed spec fn view(&self) -> StoreView {
        StoreView {
            notes: Seq::new(self.notes@.len(), |i: int| self.notes@[i]@),
            next_id: self.next_id as int,
        }
    }
}

impl NoteStore {
    /// The store's invariant.
    pub open spec fn wf(&self) -> bool {
        store_wf(self@)
    }

    /// A store without notes.
    pub fn new() -> (store: Self)
        ensures
            store@ == empty_store(),
            store.wf(),
    {
        let store = NoteStore { notes: Vec::new(), next_id: 1 };
        assert(store@.notes =~= Seq::<NoteView>::empty());
        store
    }

    /// The number of notes.
    pub fn len(&self) -> (n: usize)
        ensures
            n == self@.notes.len(),
    {
        self.notes.len()
    }

    /// Whether the store can take another note: an identifier is left.
    pub fn has_room(&self) -> (room: bool)
        ensures
            room == (self@.next_id < u64::MAX),
    {
        self.next_id < u64::MAX
    }

    /// Makes a note of the draft, under an identifier that no note had
    /// before, and keeps it behind the notes that are there. Returns the note
    /// as it is stored.
    pub fn create(&mut self, draft: NoteDraft) -> (note: Note)
        requires
            old(self).wf(),
            old(self)@.next_id < u64::MAX,
        ensures
            final(self).wf(),
            final(self)@ == after_create(old(self)@, draft@),
            note@ == created_note(old(self)@, draft@),
    {
        let note = Note { id: self.next_id, title: draft.title, content: draft.content };
        let copy = note.clone();
        self.notes.push(note);
        self.next_id = self.next_id + 1;
        proof {
            assert(self@.notes =~= old(self)@.notes.push(copy@));
            assert forall|i: int| 0 <= i < self@.notes.len() implies 1 <= (
            #[trigger] self@.notes[i]).id < self@.next_id by {
                if i < old(self)@.notes.len() {
                    assert(self@.notes[i] == old(self)@.notes[i]);
                }
            }
            assert forall|i: int, j: int| 0 <= i < j < self@.notes.len() implies (
            #[trigger] self@.notes[i]).id < (#[trigger] self@.notes[j]).id by {
                assert(self@.notes[i] == old(self)@.notes[i]);
                if j < old(self)@.notes.len() {
                    assert(self@.notes[j] == old(self)@.notes[j]);
                }
            }
        }
        copy
    }

    /// Makes a note of the draft if an identifier is left, as `create` does,
    /// and otherwise leaves the store as it is.
    pub fn try_create(&mut self, draft: NoteDraft) -> (made: Option<Note>)
        requires
            old(self).wf(),
        ensures
            final(self).wf(),
            match made {
                Some(note) => {
                    &&& old(self)@.next_id < u64::MAX
                    &&& note@ == created_note(old(self)@, draft@)
                    &&& final(self)@ == after_create(old(self)@, draft@)
                },
                None => old(self)@.next_id == u64::MAX && final(self)@ == old(self)@,
            },
    {
        if self.has_room() {
            Some(self.create(draft))
        } else {
            None
        }
    }

    /// The note with this identifier. The store is left as it is.
    pub fn get(&self, id: u64) -> (res: Result<&Note, NoteNotFound>)
        requires
            self.wf(),
        ensures
            match res {
                Ok(note) => lookup(self@, id) == Some(note@),
                Err(e) => lookup(self@, id) is None && e.id == id,
            },
    {
        let mut i: usize = 0;
        while i < self.notes.len()
            invariant
                0 <= i <= self.notes.len(),
                self.wf(),
                forall|k: int| 0 <= k < i ==> (#[trigger] self@.notes[k]).id != id,
            decreases self.notes.len() - i,
        {
            if self.notes[i].id == id {
                proof {
                    assert(self@.notes[i as int].id == id);
                    let c = choose|c: int|
                        0 <= c < self@.notes.len() && (#[trigger] self@.notes[c]).id == id;
                    if c < i {
                        assert(self@.notes[c].id < self@.notes[i as int].id);
                    } else if c > i {
                        assert(self@.notes[i as int].id < self@.notes[c].id);
                    }
                }
                return Ok(&self.notes[i]);
            }
            i += 1;
        }
        Err(NoteNotFound { id })
    }

    /// All notes, oldest first.
    pub fn list(&self) -> (notes: Vec<Note>)
        ensures
            notes@.len() == self@.notes.len(),
            forall|i: int| 0 <= i < notes@.len() ==> (#[trigger] notes@[i])@ == self@.notes[i],
    {
        let mut notes: Vec<Note> = Vec::new();
        let mut i: usize = 0;
        while i < self.notes.len()
            invariant
                0 <= i <= self.notes.len(),
                notes@.len() == i,
                forall|k: int| 0 <= k < i ==> (#[trigger] notes@[k])@ == self@.notes[k],
            decreases self.notes.len() - i,
        {
            notes.push(self.notes[i].clone());
            i += 1;
        }
        notes
    }
}

} // verus!
