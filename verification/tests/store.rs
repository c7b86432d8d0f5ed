use axum_demo::apps::note::handlers::{
    create_note, get_note, list_notes, parse_id, CreateError, GetError,
};
use axum_demo::apps::note::model::{NoteDraft, NoteForm, ValidationError};
use axum_demo::apps::note::store::{NoteNotFound, NoteStore};

fn draft(title: &str, content: &str) -> NoteDraft {
    NoteDraft { title: title.to_string(), content: content.to_string() }
}

#[test]
fn created_note_is_found_under_its_identifier() {
    let mut store = NoteStore::new();
    let note = store.create(draft("shopping", "milk, eggs"));
    assert_eq!(note.id, 1);
    assert_eq!(note.title, "shopping");
    assert_eq!(note.content, "milk, eggs");
    let found = store.get(note.id).unwrap();
    assert_eq!(found.id, note.id);
    assert_eq!(found.title, "shopping");
    assert_eq!(found.content, "milk, eggs");
}

#[test]
fn identifiers_are_pairwise_distinct() {
    let mut store = NoteStore::new();
    let mut ids = Vec::new();
    for i in 0..50 {
        ids.push(store.create(draft(&format!("t{}", i), "c")).id);
    }
    for i in 0..ids.len() {
        assert_eq!(ids[i], i as u64 + 1);
        for j in (i + 1)..ids.len() {
            assert_ne!(ids[i], ids[j]);
        }
    }
}

#[test]
fn list_has_every_created_note_in_order() {
    let mut store = NoteStore::new();
    assert_eq!(store.len(), 0);
    assert!(store.list().is_empty());
    let titles = ["first", "second", "third"];
    let mut created = Vec::new();
    for (count, title) in titles.iter().enumerate() {
        created.push(store.create(draft(title, "")).id);
        assert_eq!(store.list().len(), count + 1);
        assert_eq!(store.len(), count + 1);
    }
    let listed = store.list();
    for (i, note) in listed.iter().enumerate() {
        assert_eq!(note.title, titles[i]);
        assert_eq!(note.id, created[i]);
        assert_eq!(note.content, "");
    }
}

#[test]
fn missing_note_is_not_found() {
    let mut store = NoteStore::new();
    assert_eq!(store.get(1).unwrap_err(), NoteNotFound { id: 1 });
    store.create(draft("a", "b"));
    assert!(store.get(1).is_ok());
    assert_eq!(store.get(2).unwrap_err(), NoteNotFound { id: 2 });
    assert_eq!(store.get(0).unwrap_err(), NoteNotFound { id: 0 });
    assert_eq!(store.len(), 1);
    assert!(store.has_room());
}

#[test]
fn note_copy_has_the_same_fields() {
    let mut store = NoteStore::new();
    let note = store.create(draft("a", "b"));
    let copy = note.clone();
    assert_eq!(copy.id, note.id);
    assert_eq!(copy.title, note.title);
    assert_eq!(copy.content, note.content);
}

#[test]
fn forms_are_validated() {
    let complete = NoteForm { title: Some("a".to_string()), content: Some("b".to_string()) };
    let made = complete.validate().unwrap();
    assert_eq!(made.title, "a");
    assert_eq!(made.content, "b");
    let empty = NoteForm { title: Some(String::new()), content: Some(String::new()) };
    assert!(empty.validate().is_ok());
    let no_title = NoteForm { title: None, content: Some("b".to_string()) };
    assert_eq!(no_title.validate().unwrap_err(), ValidationError::MissingTitle);
    let no_content = NoteForm { title: Some("a".to_string()), content: None };
    assert_eq!(no_content.validate().unwrap_err(), ValidationError::MissingContent);
    let nothing = NoteForm { title: None, content: None };
    assert_eq!(nothing.validate().unwrap_err(), ValidationError::MissingTitle);
    assert_eq!(ValidationError::BadIdentifier.reason(), "the identifier is not a number");
}

#[test]
fn identifiers_are_read_from_decimal_digits() {
    assert_eq!(parse_id(b"0"), Some(0));
    assert_eq!(parse_id(b"7"), Some(7));
    assert_eq!(parse_id(b"007"), Some(7));
    assert_eq!(parse_id(b"1234567890"), Some(1234567890));
    assert_eq!(parse_id(b"18446744073709551615"), Some(u64::MAX));
    assert_eq!(parse_id(b"18446744073709551616"), None);
    assert_eq!(parse_id(b"99999999999999999999"), None);
    assert_eq!(parse_id(b"000018446744073709551615"), Some(u64::MAX));
    assert_eq!(parse_id(b""), None);
    assert_eq!(parse_id(b"12a"), None);
    assert_eq!(parse_id(b"-1"), None);
    assert_eq!(parse_id(b" 1"), None);
    assert_eq!(parse_id(b"1844674407370955161x"), None);
}

#[test]
fn note_handlers_work_on_the_store() {
    let mut store = NoteStore::new();
    assert!(list_notes(&store).is_empty());
    assert_eq!(
        create_note(&mut store, None).unwrap_err(),
        CreateError::Invalid(ValidationError::MissingBody)
    );
    let no_title = NoteForm { title: None, content: Some("b".to_string()) };
    assert_eq!(
        create_note(&mut store, Some(no_title)).unwrap_err(),
        CreateError::Invalid(ValidationError::MissingTitle)
    );
    let no_content = NoteForm { title: Some("a".to_string()), content: None };
    assert_eq!(
        create_note(&mut store, Some(no_content)).unwrap_err(),
        CreateError::Invalid(ValidationError::MissingContent)
    );
    assert_eq!(store.len(), 0);
    let form = NoteForm { title: Some("a".to_string()), content: Some("b".to_string()) };
    let note = create_note(&mut store, Some(form)).unwrap();
    assert_eq!((note.id, note.title.as_str(), note.content.as_str()), (1, "a", "b"));
    let listed = list_notes(&store);
    assert_eq!(listed.len(), 1);
    assert_eq!(listed[0].id, 1);
    let found = get_note(&store, b"1").unwrap();
    assert_eq!((found.id, found.title.as_str(), found.content.as_str()), (1, "a", "b"));
    assert_eq!(get_note(&store, b"2").unwrap_err(), GetError::NotFound(2));
    assert_eq!(get_note(&store, b"x").unwrap_err(), GetError::BadIdentifier);
    assert_eq!(get_note(&store, b"").unwrap_err(), GetError::BadIdentifier);
}
