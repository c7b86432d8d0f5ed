//! What the operations on notes do, between a request that was read and an
//! answer that is still to be written.

use crate::apps::note::model::{form_outcome, DraftView, Note, NoteForm, ValidationError};
use crate::apps::note::store::{after_create, created_note, lookup, NoteStore, StoreView};
use vstd::prelude::*;

verus! {

/// Why no note was created.
#[derive(Clone, Copy, Debug, PartialEq, Eq, Structural)]
pub enum CreateError {
    /// The request did not bring a draft.
    Invalid(ValidationError),
    /// The store has given out its last identifier.
    Exhausted,
}

/// Why no note was handed out.
#[derive(Clone, Copy, Debug, PartialEq, Eq, Structural)]
pub enum GetError {
    /// What stands for the identifier is not a number that can be one.
    BadIdentifier,
    /// The store holds no note with this identifier.
    NotFound(u64),
}

/// The draft that a complete form brings.
pub open spec fn draft_of(form: NoteForm) -> DraftView {
    DraftView { title: form.title->0@, content: form.content->0@ }
}

/// Why a request creates no note, if it does not.
pub open spec fn create_outcome(s: StoreView, form: Option<NoteForm>) -> Option<CreateError> {
    match form {
        None => Some(CreateError::Invalid(ValidationError::MissingBody)),
        Some(form) => match form_outcome(form) {
            Some(e) => Some(CreateError::Invalid(e)),
            None => if s.next_id < u64::MAX {
                None
            } else {
                Some(CreateError::Exhausted)
            },
        },
    }
}

/// Whether the byte is a decimal digit.
pub open spec fn is_digit(b: u8) -> bool {
    48 <= b <= 57
}

/// The number that decimal digits spell.
pub open spec fn number(digits: Seq<u8>) -> nat
    decreases digits.len(),
{
    if digits.len() == 0 {
        0
    } else {
        (number(digits.drop_last()) * 10 + (digits.last() - 48)) as nat
    }
}

/// The identifier that the bytes spell: they have to be decimal digits, at
/// least one, of a number that an identifier can hold. Leading zeros do not
/// count.
pub open spec fn id_of(bytes: Seq<u8>) -> Option<u64> {
    if bytes.len() > 0 && (forall|i: int| 0 <= i < bytes.len() ==> is_digit(#[trigger] bytes[i]))
        && number(bytes) <= u64::MAX {
        Some(number(bytes) as u64)
    } else {
        None
    }
}

/// More digits spell no smaller number.
pub proof fn lemma_number_grows(digits: Seq<u8>, n: int)
    requires
        0 <= n <= digits.len(),
        forall|i: int| 0 <= i < digits.len() ==> is_digit(#[trigger] digits[i]),
    ensures
        number(digits.take(n)) <= number(digits),
    decreases digits.len() - n,
{
    if n < digits.len() {
        lemma_number_grows(digits, n + 1);
        let longer = digits.take(n + 1);
        assert(longer.drop_last() == digits.take(n));
        assert(is_digit(digits[n]));
        assert(longer.last() == digits[n]);
    } else {
        assert(digits.take(n) == digits);
    }
}

/// Reads an identifier.
pub fn parse_id(bytes: &[u8]) -> (id: Option<u64>)
    ensures
        id == id_of(bytes@),
{
    if bytes.len() == 0 {
        return None;
    }
    let mut value: u64 = 0;
    let mut i: usize = 0;
    while i < bytes.len()
        invariant
            0 <= i <= bytes.len(),
            forall|k: int| 0 <= k < i ==> is_digit(#[trigger] bytes@[k]),
            value == number(bytes@.take(i as int)),
        decreases bytes.len() - i,
    {
        let b: u8 = bytes[i];
        if b < 48 || b > 57 {
            assert(!is_digit(bytes@[i as int]));
            return None;
        }
        let digit: u64 = (b - 48) as u64;
        proof {
            let longer = bytes@.take(i as int + 1);
            assert(longer.drop_last() == bytes@.take(i as int));
            assert(longer.last() == b);
            assert(number(longer) == value * 10 + digit);
        }
        if value > (u64::MAX - digit) / 10 {
            proof {
                if forall|k: int| 0 <= k < bytes@.len() ==> is_digit(#[trigger] bytes@[k]) {
                    lemma_number_grows(bytes@, i as int + 1);
                }
            }
            return None;
        }
        value = value * 10 + digit;
        i += 1;
    }
    assert(bytes@.take(i as int) == bytes@);
    Some(value)
}

/// Lists the notes, oldest first.
pub fn list_notes(store: &NoteStore) -> (notes: Vec<Note>)
    ensures
        notes@.len() == store@.notes.len(),
        forall|i: int| 0 <= i < notes@.len() ==> (#[trigger] notes@[i])@ == store@.notes[i],
{
    store.list()
}

/// Creates a note from the form that a request brought.
///
/// The form has to be there and complete, and the store needs an identifier
/// to give. Otherwise the store stays as it was.
pub fn create_note(store: &mut NoteStore, form: Option<NoteForm>) -> (res: Result<
    Note,
    CreateError,
>)
    requires
        old(store).wf(),
    ensures
        final(store).wf(),
        match res {
            Ok(note) => {
                &&& create_outcome(old(store)@, form) is None
                &&& note@ == created_note(old(store)@, draft_of(form->0))
                &&& final(store)@ == after_create(old(store)@, draft_of(form->0))
            },
            Err(e) => {
                &&& create_outcome(old(store)@, form) == Some(e)
                &&& final(store)@ == old(store)@
            },
        },
{
    let form = match form {
        None => {
            return Err(CreateError::Invalid(ValidationError::MissingBody));
        },
        Some(form) => form,
    };
    let draft = match form.validate() {
        Err(e) => {
            return Err(CreateError::Invalid(e));
        },
        Ok(draft) => draft,
    };
    if !store.has_room() {
        return Err(CreateError::Exhausted);
    }
    Ok(store.create(draft))
}

/// Hands out the note whose identifier the bytes spell.
pub fn get_note(store: &NoteStore, id: &[u8]) -> (res: Result<Note, GetError>)
    requires
        store.wf(),
    ensures
        match res {
            Ok(note) => id_of(id@) is Some && lookup(store@, id_of(id@)->0) == Some(note@),
            Err(GetError::BadIdentifier) => id_of(id@) is None,
            Err(GetError::NotFound(missing)) => {
                &&& id_of(id@) == Some(missing)
                &&& lookup(store@, missing) is None
            },
        },
{
    let id = match parse_id(id) {
        None => {
            return Err(GetError::BadIdentifier);
        },
        Some(id) => id,
    };
    match store.get(id) {
        Ok(note) => Ok(note.clone()),
        Err(e) => Err(GetError::NotFound(e.id)),
    }
}

} // verus!
