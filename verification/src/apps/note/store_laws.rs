//! What holds of every store, whatever notes were put into it.

use crate::apps::note::model::{DraftView, NoteView};
use crate::apps::note::store::{
    after_create, created_note, empty_store, extends, holds, lookup, store_wf, StoreView,
};
use vstd::prelude::*;

verus! {

/// The store after it has made notes of the drafts, one after the other.
pub open spec fn after_creates(s: StoreView, drafts: Seq<DraftView>) -> StoreView
    decreases drafts.len(),
{
    if drafts.len() == 0 {
        s
    } else {
        after_create(after_creates(s, drafts.drop_last()), drafts.last())
    }
}

/// The notes that the store made of the drafts, in the order of the drafts.
pub open spec fn created_notes(s: StoreView, drafts: Seq<DraftView>) -> Seq<NoteView>
    decreases drafts.len(),
{
    if drafts.len() == 0 {
        Seq::empty()
    } else {
        created_notes(s, drafts.drop_last()).push(
            created_note(after_creates(s, drafts.drop_last()), drafts.last()),
        )
    }
}

/// In a store no two notes share an identifier.
pub proof fn lemma_ids_distinct(s: StoreView, i: int, j: int)
    requires
        store_wf(s),
        0 <= i < s.notes.len(),
        0 <= j < s.notes.len(),
        i != j,
    ensures
        s.notes[i].id != s.notes[j].id,
{
    if i < j {
        assert(s.notes[i].id < s.notes[j].id);
    } else {
        assert(s.notes[j].id < s.notes[i].id);
    }
}

/// Looking up the identifier of a note that the store holds gives that note.
pub proof fn lemma_lookup_finds(s: StoreView, i: int)
    requires
        store_wf(s),
        0 <= i < s.notes.len(),
    ensures
        lookup(s, s.notes[i].id) == Some(s.notes[i]),
{
    let id = s.notes[i].id;
    let c = choose|c: int| 0 <= c < s.notes.len() && (#[trigger] s.notes[c]).id == id;
    if c != i {
        lemma_ids_distinct(s, c, i);
    }
}

/// Creating keeps the invariant, as long as an identifier is left.
pub proof fn lemma_create_keeps_wf(s: StoreView, draft: DraftView)
    requires
        store_wf(s),
        s.next_id < u64::MAX,
    ensures
        store_wf(after_create(s, draft)),
{
    let t = after_create(s, draft);
    assert forall|i: int| 0 <= i < t.notes.len() implies 1 <= (#[trigger] t.notes[i]).id
        < t.next_id by {
        if i < s.notes.len() {
            assert(t.notes[i] == s.notes[i]);
        }
    }
    assert forall|i: int, j: int| 0 <= i < j < t.notes.len() implies (#[trigger] t.notes[i]).id < (
    #[trigger] t.notes[j]).id by {
        assert(t.notes[i] == s.notes[i]);
        if j < s.notes.len() {
            assert(t.notes[j] == s.notes[j]);
        }
    }
}

/// A note that was created is found under the identifier it was given, with
/// the title and the content of its draft.
pub proof fn lemma_create_then_get(s: StoreView, draft: DraftView)
    requires
        store_wf(s),
        s.next_id < u64::MAX,
    ensures
        lookup(after_create(s, draft), created_note(s, draft).id) == Some(created_note(s, draft)),
        created_note(s, draft).title == draft.title,
        created_note(s, draft).content == draft.content,
        !holds(s, created_note(s, draft).id),
{
    let t = after_create(s, draft);
    lemma_create_keeps_wf(s, draft);
    assert(t.notes[s.notes.len() as int] == created_note(s, draft));
    lemma_lookup_finds(t, s.notes.len() as int);
    if holds(s, created_note(s, draft).id) {
        let c = choose|c: int|
            0 <= c < s.notes.len() && (#[trigger] s.notes[c]).id == created_note(s, draft).id;
        assert(s.notes[c].id < s.next_id);
    }
}

/// Creating a note changes nothing about the notes that were there: each is
/// still found under its identifier.
pub proof fn lemma_create_keeps_notes(s: StoreView, draft: DraftView, id: u64)
    requires
        store_wf(s),
        s.next_id < u64::MAX,
        holds(s, id),
    ensures
        lookup(after_create(s, draft), id) == lookup(s, id),
{
    let t = after_create(s, draft);
    lemma_create_keeps_wf(s, draft);
    let c = choose|c: int| 0 <= c < s.notes.len() && (#[trigger] s.notes[c]).id == id;
    lemma_lookup_finds(s, c);
    assert(t.notes[c] == s.notes[c]);
    lemma_lookup_finds(t, c);
}

/// After a run of creations the store holds what it held, followed by the
/// new notes in the order of their drafts; the identifiers were given out in
/// ascending order, starting with the one that was next.
pub proof fn lemma_creates(s: StoreView, drafts: Seq<DraftView>)
    requires
        store_wf(s),
        s.next_id + drafts.len() <= u64::MAX,
    ensures
        store_wf(after_creates(s, drafts)),
        after_creates(s, drafts).next_id == s.next_id + drafts.len(),
        after_creates(s, drafts).notes == s.notes + created_notes(s, drafts),
        created_notes(s, drafts).len() == drafts.len(),
        forall|i: int|
            0 <= i < drafts.len() ==> (#[trigger] created_notes(s, drafts)[i]) == (NoteView {
                id: (s.next_id + i) as u64,
                title: drafts[i].title,
                content: drafts[i].content,
            }),
    decreases drafts.len(),
{
    if drafts.len() == 0 {
        assert(s.notes + created_notes(s, drafts) =~= s.notes);
    } else {
        let front = drafts.drop_last();
        lemma_creates(s, front);
        let mid = after_creates(s, front);
        lemma_create_keeps_wf(mid, drafts.last());
        assert(after_creates(s, drafts).notes =~= s.notes + created_notes(s, drafts));
        assert forall|i: int| 0 <= i < drafts.len() implies (#[trigger] created_notes(
            s,
            drafts,
        )[i]) == (NoteView {
            id: (s.next_id + i) as u64,
            title: drafts[i].title,
            content: drafts[i].content,
        }) by {
            if i < front.len() {
                assert(created_notes(s, drafts)[i] == created_notes(s, front)[i]);
                assert(front[i] == drafts[i]);
            }
        }
    }
}

/// The identifiers that a run of creations gives out are pairwise distinct,
/// and none of them belongs to a note that the store held before.
pub proof fn lemma_created_ids_distinct(s: StoreView, drafts: Seq<DraftView>)
    requires
        store_wf(s),
        s.next_id + drafts.len() <= u64::MAX,
    ensures
        forall|i: int, j: int|
            0 <= i < j < drafts.len() ==> (#[trigger] created_notes(s, drafts)[i]).id != (
            #[trigger] created_notes(s, drafts)[j]).id,
        forall|i: int| 0 <= i < drafts.len() ==> !holds(s, (#[trigger] created_notes(s, drafts)[i]).id),
{
    lemma_creates(s, drafts);
    assert forall|i: int| 0 <= i < drafts.len() implies !holds(
        s,
        (#[trigger] created_notes(s, drafts)[i]).id,
    ) by {
        let id = created_notes(s, drafts)[i].id;
        if holds(s, id) {
            let c = choose|c: int| 0 <= c < s.notes.len() && (#[trigger] s.notes[c]).id == id;
            assert(s.notes[c].id < s.next_id);
        }
    }
}

/// A store that began empty lists as many notes as were created, in the
/// order of their creation, each with the fields of its draft.
pub proof fn lemma_list_after_creates(drafts: Seq<DraftView>)
    requires
        drafts.len() < u64::MAX,
    ensures
        after_creates(empty_store(), drafts).notes.len() == drafts.len(),
        after_creates(empty_store(), drafts).notes == created_notes(empty_store(), drafts),
        forall|i: int|
            0 <= i < drafts.len() ==> {
                &&& (#[trigger] after_creates(empty_store(), drafts).notes[i]).title
                    == drafts[i].title
                &&& after_creates(empty_store(), drafts).notes[i].content == drafts[i].content
                &&& after_creates(empty_store(), drafts).notes[i].id == i + 1
            },
{
    lemma_creates(empty_store(), drafts);
    assert(empty_store().notes + created_notes(empty_store(), drafts) =~= created_notes(
        empty_store(),
        drafts,
    ));
    assert forall|i: int| 0 <= i < drafts.len() implies {
        &&& (#[trigger] after_creates(empty_store(), drafts).notes[i]).title == drafts[i].title
        &&& after_creates(empty_store(), drafts).notes[i].content == drafts[i].content
        &&& after_creates(empty_store(), drafts).notes[i].id == i + 1
    } by {
        assert(after_creates(empty_store(), drafts).notes[i] == created_notes(
            empty_store(),
            drafts,
        )[i]);
    }
}

/// Every store has grown out of itself.
pub proof fn lemma_extends_itself(s: StoreView)
    ensures
        extends(s, s),
{
}

/// A store that has grown out of another still has after it made one more
/// note: creating loses no note, moves none, and gives out no identifier a
/// second time.
pub proof fn lemma_create_extends(s: StoreView, base: StoreView, draft: DraftView)
    requires
        store_wf(s),
        s.next_id < u64::MAX,
        extends(s, base),
    ensures
        extends(after_create(s, draft), base),
{
    let t = after_create(s, draft);
    assert forall|i: int| 0 <= i < base.notes.len() implies #[trigger] t.notes[i]
        == base.notes[i] by {
        assert(t.notes[i] == s.notes[i]);
    }
    assert forall|i: int| base.notes.len() <= i < t.notes.len() implies (#[trigger] t.notes[i]).id
        >= base.next_id by {
        if i < s.notes.len() {
            assert(t.notes[i] == s.notes[i]);
        }
    }
}

/// A note of the store that another has grown out of is found in the grown
/// store under its identifier, unchanged; and what the grown store holds
/// under an identifier that the first had given out, the first held too.
pub proof fn lemma_extends_lookup(s: StoreView, base: StoreView, id: u64)
    requires
        store_wf(s),
        store_wf(base),
        extends(s, base),
    ensures
        holds(base, id) ==> lookup(s, id) == lookup(base, id),
        id < base.next_id ==> lookup(s, id) == lookup(base, id),
{
    if holds(base, id) {
        let c = choose|c: int| 0 <= c < base.notes.len() && (#[trigger] base.notes[c]).id == id;
        lemma_lookup_finds(base, c);
        assert(s.notes[c] == base.notes[c]);
        lemma_lookup_finds(s, c);
    } else if id < base.next_id && holds(s, id) {
        let c = choose|c: int| 0 <= c < s.notes.len() && (#[trigger] s.notes[c]).id == id;
        if c < base.notes.len() {
            assert(s.notes[c] == base.notes[c]);
        }
    }
}

} // verus!
