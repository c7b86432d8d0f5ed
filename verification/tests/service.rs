use axum_demo::apps::note::model::{NoteForm, ValidationError};
use axum_demo::apps::operations::{schema_of, Handler};
use axum_demo::apps::service::{Response, Service, DOCUMENT_PATH, GREETING, VIEWER_PAGE};
use axum_demo::apps::{create_router, get_user, User};
use axum_demo::routing::{Method, Router};

fn form(title: &str, content: &str) -> Option<NoteForm> {
    Some(NoteForm { title: Some(title.to_string()), content: Some(content.to_string()) })
}

#[test]
fn posted_note_is_created_listed_and_described() {
    let mut service = Service::new();
    let created = service.handle(Method::Post, "/note", form("a", "b"));
    assert_eq!(created.status(), 200);
    let id = match created {
        Response::Created(note) => {
            assert_eq!(note.title, "a");
            assert_eq!(note.content, "b");
            note.id
        }
        other => panic!("unexpected answer: {:?}", other),
    };
    assert_eq!(id, 1);
    match service.handle(Method::Get, "/note", None) {
        Response::Notes(notes) => {
            assert_eq!(notes.len(), 1);
            assert_eq!(notes[0].id, id);
            assert_eq!(notes[0].title, "a");
            assert_eq!(notes[0].content, "b");
        }
        other => panic!("unexpected answer: {:?}", other),
    }
    match service.handle(Method::Get, "/openapi.json", None) {
        Response::Document(json) => {
            let text = String::from_utf8(json).unwrap();
            assert!(text.contains("{\"method\":\"GET\",\"path\":\"/note\",\"operation\":\"list_notes\""));
            assert!(text.contains("{\"method\":\"POST\",\"path\":\"/note\",\"operation\":\"create_note\""));
        }
        other => panic!("unexpected answer: {:?}", other),
    }
}

#[test]
fn user_is_always_the_first() {
    let mut service = Service::new();
    for _ in 0..3 {
        match service.handle(Method::Get, "/user", None) {
            Response::User(user) => assert_eq!(user.id, 1),
            other => panic!("unexpected answer: {:?}", other),
        }
    }
    assert_eq!(get_user().id, 1);
    assert_eq!(service.store().len(), 0);
}

#[test]
fn greeting_and_viewer_are_served() {
    let mut service = Service::new();
    assert!(matches!(service.handle(Method::Get, "/", None), Response::Greeting));
    assert!(matches!(service.handle(Method::Get, "/scalar", None), Response::Viewer));
    assert_eq!(GREETING, "Hello from Apps!");
    assert_eq!(DOCUMENT_PATH, "/openapi.json");
    assert!(VIEWER_PAGE.contains("fetch(\"/openapi.json\")"));
}

#[test]
fn incomplete_forms_are_rejected() {
    let mut service = Service::new();
    let no_body = service.handle(Method::Post, "/note", None);
    assert!(matches!(no_body, Response::Invalid(ValidationError::MissingBody)));
    assert_eq!(no_body.status(), 400);
    let no_title = NoteForm { title: None, content: Some("b".to_string()) };
    assert!(matches!(
        service.handle(Method::Post, "/note", Some(no_title)),
        Response::Invalid(ValidationError::MissingTitle)
    ));
    let no_content = NoteForm { title: Some("a".to_string()), content: None };
    assert!(matches!(
        service.handle(Method::Post, "/note", Some(no_content)),
        Response::Invalid(ValidationError::MissingContent)
    ));
    assert_eq!(service.store().len(), 0);
    assert_eq!(ValidationError::MissingTitle.reason(), "missing field `title`");
    assert_eq!(ValidationError::MissingContent.reason(), "missing field `content`");
    assert_eq!(ValidationError::MissingBody.reason(), "missing body");
}

#[test]
fn unknown_paths_and_methods_are_told_apart() {
    let mut service = Service::new();
    let missing = service.handle(Method::Get, "/nothing", None);
    assert!(matches!(missing, Response::PathNotFound));
    assert_eq!(missing.status(), 404);
    let refused = service.handle(Method::Delete, "/note", None);
    assert!(matches!(refused, Response::MethodNotAllowed));
    assert_eq!(refused.status(), 405);
    let refused = service.handle(Method::Post, "/user", None);
    assert!(matches!(refused, Response::MethodNotAllowed));
}

#[test]
fn service_router_has_the_six_routes() {
    let router = create_router();
    assert_eq!(router.len(), 6);
    let paths: Vec<String> = (0..router.len())
        .map(|i| {
            let route = router.route(i);
            let segments: Vec<String> = route
                .segments
                .iter()
                .map(|s| String::from_utf8(s.clone()).unwrap())
                .collect();
            format!("{:?} /{}", route.method, segments.join("/"))
        })
        .collect();
    assert_eq!(
        paths,
        vec![
            "Get /".to_string(),
            "Get /user".to_string(),
            "Get /note".to_string(),
            "Post /note".to_string(),
            "Get /openapi.json".to_string(),
            "Get /scalar".to_string(),
        ]
    );
}

#[test]
fn note_is_served_by_its_identifier() {
    let mut router: Router<Handler> = Router::new();
    assert!(router
        .register(Method::Post, "/note", Handler::CreateNote, schema_of(Handler::CreateNote))
        .is_ok());
    assert!(router
        .register(Method::Get, "/note/:id", Handler::GetNote, schema_of(Handler::GetNote))
        .is_ok());
    assert!(router
        .register(Method::Get, "/latest", Handler::GetNote, schema_of(Handler::GetNote))
        .is_ok());
    let mut service = Service::with_router(router);
    assert!(matches!(service.handle(Method::Post, "/note", form("a", "b")), Response::Created(_)));
    assert!(matches!(service.handle(Method::Post, "/note", form("c", "d")), Response::Created(_)));
    match service.handle(Method::Get, "/note/2", None) {
        Response::Found(note) => {
            assert_eq!(note.id, 2);
            assert_eq!(note.title, "c");
            assert_eq!(note.content, "d");
        }
        other => panic!("unexpected answer: {:?}", other),
    }
    let missing = service.handle(Method::Get, "/note/3", None);
    assert!(matches!(missing, Response::NoteNotFound(3)));
    assert_eq!(missing.status(), 404);
    let bad = service.handle(Method::Get, "/note/abc", None);
    assert!(matches!(bad, Response::Invalid(ValidationError::BadIdentifier)));
    assert_eq!(bad.status(), 400);
    assert!(matches!(
        service.handle(Method::Get, "/latest", None),
        Response::Invalid(ValidationError::BadIdentifier)
    ));
    assert_eq!(service.router().len(), 3);
    assert_eq!(service.store().len(), 2);
}

#[test]
fn status_of_every_answer() {
    assert_eq!(Response::Greeting.status(), 200);
    assert_eq!(Response::User(User { id: 1 }).status(), 200);
    assert_eq!(Response::Notes(Vec::new()).status(), 200);
    assert_eq!(Response::Document(Vec::new()).status(), 200);
    assert_eq!(Response::Viewer.status(), 200);
    assert_eq!(Response::Invalid(ValidationError::MissingBody).status(), 400);
    assert_eq!(Response::NoteNotFound(9).status(), 404);
    assert_eq!(Response::PathNotFound.status(), 404);
    assert_eq!(Response::MethodNotAllowed.status(), 405);
    assert_eq!(Response::Exhausted.status(), 500);
}

fn titles_after(order: [&str; 2]) -> Vec<(u64, String)> {
    let mut service = Service::new();
    for title in order {
        let answer = service.handle(Method::Post, "/note", form(title, "x"));
        assert!(matches!(answer, Response::Created(_)));
    }
    match service.handle(Method::Get, "/note", None) {
        Response::Notes(notes) => notes.into_iter().map(|n| (n.id, n.title)).collect(),
        other => panic!("unexpected answer: {:?}", other),
    }
}

#[test]
fn posts_in_either_order_are_both_kept() {
    assert_eq!(
        titles_after(["left", "right"]),
        vec![(1, "left".to_string()), (2, "right".to_string())]
    );
    assert_eq!(
        titles_after(["right", "left"]),
        vec![(1, "right".to_string()), (2, "left".to_string())]
    );
}
