//! The note, and what a request for a new note has to bring.

use vstd::prelude::*;

verus! {

/// A note as the store holds it.
#[derive(Debug)]
pub struct Note {
    /// Given by the store when the note is created, and never changed.
    pub id: u64,
    pub title: String,
    pub content: String,
}

/// A note as contracts see it.
pub struct NoteView {
    pub id: u64,
    pub title: Seq<char>,
    pub content: Seq<char>,
}

impl View for Note {
    type V = NoteView;

    open spec fn view(&self) -> NoteView {
        NoteView { id: self.id, title: self.title@, content: self.content@ }
    }
}

impl Clone for Note {
    fn clone(&self) -> (copy: Self)
        ensures
            copy == *self,
    {
        Note { id: self.id, title: self.title.clone(), content: self.content.clone() }
    }
}

/// What a note is made from: the fields that its author chooses.
#[derive(Debug)]
pub struct NoteDraft {
    pub title: String,
    pub content: String,
}

/// A draft as contracts see it.
pub struct DraftView {
    pub title: Seq<char>,
    pub content: Seq<char>,
}

impl View for NoteDraft {
    type V = DraftView;

    open spec fn view(&self) -> DraftView {
        DraftView { title: self.title@, content: self.content@ }
    }
}

/// The body of a request for a new note, as it was read: either field may be
/// missing.
#[derive(Debug)]
pub struct NoteForm {
    pub title: Option<String>,
    pub content: Option<String>,
}

/// Why a form is no draft.
#[derive(Clone, Copy, Debug, PartialEq, Eq, Structural)]
pub enum ValidationError {
    /// The request has no body that could be read as a form.
    MissingBody,
    /// The form has no title.
    MissingTitle,
    /// The form has no content.
    MissingContent,
    /// What stands for a note's identifier is not a number.
    BadIdentifier,
}

/// What checking a form comes to: the first field that is missing, if any.
pub open spec fn form_outcome(form: NoteForm) -> Option<ValidationError> {
    if form.title is None {
        Some(ValidationError::MissingTitle)
    } else if form.content is None {
        Some(ValidationError::MissingContent)
    } else {
        None
    }
}

impl NoteForm {
    /// Turns a form into a draft. Both fields have to be there; they may be
    /// empty. The title is looked at first.
    pub fn validate(self) -> (res: Result<NoteDraft, ValidationError>)
        ensures
            match res {
                Ok(draft) => {
                    &&& form_outcome(self) is None
                    &&& Some(draft.title) == self.title
                    &&& Some(draft.content) == self.content
                },
                Err(e) => form_outcome(self) == Some(e),
            },
    {
        match self.title {
            None => Err(ValidationError::MissingTitle),
            Some(title) => match self.content {
                None => Err(ValidationError::MissingContent),
                Some(content) => Ok(NoteDraft { title, content }),
            },
        }
    }
}

/// The reason for each error, in words.
pub open spec fn reason_of(error: ValidationError) -> &'static str {
    match error {
        ValidationError::MissingBody => "missing body",
        ValidationError::MissingTitle => "missing field `title`",
        ValidationError::MissingContent => "missing field `content`",
        ValidationError::BadIdentifier => "the identifier is not a number",
    }
}

impl ValidationError {
    /// The reason in words, for the one who sent the form.
    pub fn reason(&self) -> (text: &'static str)
        ensures
            text@ == reason_of(*self)@,
    {
        match self {
            ValidationError::MissingBody => "missing body",
            ValidationError::MissingTitle => "missing field `title`",
            ValidationError::MissingContent => "missing field `content`",
            ValidationError::BadIdentifier => "the identifier is not a number",
        }
    }
}

} // verus!
