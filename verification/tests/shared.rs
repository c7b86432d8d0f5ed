use axum_demo::apps::note::model::{NoteDraft, NoteForm, ValidationError};
use axum_demo::apps::note::shared::SharedStore;
use axum_demo::apps::note::store::{NoteNotFound, NoteStore};
use axum_demo::apps::operations::{schema_of, Handler};
use axum_demo::apps::service::Response;
use axum_demo::apps::shared_service::SharedService;
use axum_demo::routing::{Method, Router};

fn draft(title: &str, content: &str) -> NoteDraft {
    NoteDraft { title: title.to_string(), content: content.to_string() }
}

fn form(title: &str, content: &str) -> Option<NoteForm> {
    Some(NoteForm { title: Some(title.to_string()), content: Some(content.to_string()) })
}

#[test]
fn shared_store_keeps_what_two_handles_create() {
    let store = SharedStore::new();
    let left = &store;
    let right = &store;
    let first = left.create(draft("left", "x")).unwrap();
    let second = right.create(draft("right", "y")).unwrap();
    assert_eq!((first.id, first.title.as_str(), first.content.as_str()), (1, "left", "x"));
    assert_eq!((second.id, second.title.as_str(), second.content.as_str()), (2, "right", "y"));
    let listed = left.list();
    assert_eq!(listed.len(), 2);
    assert_eq!(listed[0].title, "left");
    assert_eq!(listed[1].title, "right");
    assert_eq!(right.get(2).unwrap().title, "right");
    assert_eq!(right.get(3).unwrap_err(), NoteNotFound { id: 3 });
    assert_eq!(left.list().len(), 2);
}

#[test]
fn shared_store_can_be_read_again_after_every_call() {
    let store = SharedStore::new();
    assert!(store.list().is_empty());
    assert!(store.get(1).is_err());
    for i in 1..=20u64 {
        assert_eq!(store.create(draft("t", "c")).unwrap().id, i);
        assert_eq!(store.list().len() as u64, i);
        assert_eq!(store.get(i).unwrap().id, i);
    }
}

#[test]
fn shared_service_answers_like_the_service() {
    let service = SharedService::new();
    assert!(matches!(service.handle(Method::Get, "/", None), Response::Greeting));
    match service.handle(Method::Get, "/user", None) {
        Response::User(user) => assert_eq!(user.id, 1),
        other => panic!("unexpected answer: {:?}", other),
    }
    match service.handle(Method::Post, "/note", form("a", "b")) {
        Response::Created(note) => {
            assert_eq!((note.id, note.title.as_str(), note.content.as_str()), (1, "a", "b"));
        }
        other => panic!("unexpected answer: {:?}", other),
    }
    match service.handle(Method::Post, "/note/", form("c", "d")) {
        Response::Created(note) => assert_eq!(note.id, 2),
        other => panic!("unexpected answer: {:?}", other),
    }
    match service.handle(Method::Get, "/note", None) {
        Response::Notes(notes) => {
            let seen: Vec<(u64, &str)> = notes.iter().map(|n| (n.id, n.title.as_str())).collect();
            assert_eq!(seen, vec![(1, "a"), (2, "c")]);
        }
        other => panic!("unexpected answer: {:?}", other),
    }
    match service.handle(Method::Get, "/openapi.json", None) {
        Response::Document(json) => {
            assert_eq!(json, axum_demo::apps::create_router().build_document().to_json());
        }
        other => panic!("unexpected answer: {:?}", other),
    }
    assert!(matches!(service.handle(Method::Get, "/scalar", None), Response::Viewer));
    assert!(matches!(
        service.handle(Method::Post, "/note", None),
        Response::Invalid(ValidationError::MissingBody)
    ));
    let no_title = NoteForm { title: None, content: Some("b".to_string()) };
    assert!(matches!(
        service.handle(Method::Post, "/note", Some(no_title)),
        Response::Invalid(ValidationError::MissingTitle)
    ));
    assert!(matches!(service.handle(Method::Put, "/note", None), Response::MethodNotAllowed));
    assert!(matches!(service.handle(Method::Get, "/none", None), Response::PathNotFound));
    match service.handle(Method::Get, "/note", None) {
        Response::Notes(notes) => assert_eq!(notes.len(), 2),
        other => panic!("unexpected answer: {:?}", other),
    }
}

#[test]
fn shared_service_serves_notes_by_identifier() {
    let mut router: Router<Handler> = Router::new();
    assert!(router
        .register(Method::Post, "/note", Handler::CreateNote, schema_of(Handler::CreateNote))
        .is_ok());
    assert!(router
        .register(Method::Get, "/note/:id", Handler::GetNote, schema_of(Handler::GetNote))
        .is_ok());
    assert!(router
        .register(Method::Get, "/first", Handler::GetNote, schema_of(Handler::GetNote))
        .is_ok());
    let service = SharedService::with_router(router);
    assert!(matches!(service.handle(Method::Post, "/note", form("a", "b")), Response::Created(_)));
    match service.handle(Method::Get, "/note/1", None) {
        Response::Found(note) => assert_eq!(note.title, "a"),
        other => panic!("unexpected answer: {:?}", other),
    }
    assert!(matches!(service.handle(Method::Get, "/note/2", None), Response::NoteNotFound(2)));
    assert!(matches!(
        service.handle(Method::Get, "/note/two", None),
        Response::Invalid(ValidationError::BadIdentifier)
    ));
    assert!(matches!(
        service.handle(Method::Get, "/first", None),
        Response::Invalid(ValidationError::BadIdentifier)
    ));
}

fn shared_between_threads<T: Send + Sync>(_: &T) {}

#[test]
fn shared_service_can_be_shared() {
    let service = SharedService::new();
    shared_between_threads(&service);
    let store = SharedStore::new();
    shared_between_threads(&store);
}

#[test]
fn shared_store_keeps_the_notes_it_was_given() {
    let mut store = NoteStore::new();
    let first = store.create(draft("kept", "x"));
    let second = store.create(draft("kept too", "y"));
    let shared = SharedStore::from_store(store);
    let listed = shared.list();
    assert_eq!(listed.len(), 2);
    assert_eq!((listed[0].id, listed[0].title.as_str()), (first.id, "kept"));
    assert_eq!((listed[1].id, listed[1].title.as_str()), (second.id, "kept too"));
    let made = shared.create(draft("new", "z")).unwrap();
    assert_eq!(made.id, 3);
    assert_eq!((made.title.as_str(), made.content.as_str()), ("new", "z"));
    let found = shared.get(first.id).unwrap();
    assert_eq!((found.id, found.title.as_str(), found.content.as_str()), (1, "kept", "x"));
    assert_eq!(shared.get(3).unwrap().title, "new");
    assert_eq!(shared.get(4).unwrap_err(), NoteNotFound { id: 4 });
    let listed = shared.list();
    let titles: Vec<&str> = listed.iter().map(|n| n.title.as_str()).collect();
    assert_eq!(titles, vec!["kept", "kept too", "new"]);
}

#[test]
fn store_makes_a_note_while_it_has_room() {
    let mut store = NoteStore::new();
    assert!(store.has_room());
    let made = store.try_create(draft("a", "b")).unwrap();
    assert_eq!((made.id, made.title.as_str(), made.content.as_str()), (1, "a", "b"));
    let made = store.try_create(draft("c", "d")).unwrap();
    assert_eq!(made.id, 2);
    assert_eq!(store.len(), 2);
    assert_eq!(store.get(2).unwrap().title, "c");
}
