use axum_demo::apps::create_router;
use axum_demo::apps::operations::{schema_of, Handler};
use axum_demo::document::{write_entry, write_field, write_reply, write_shape, Entry};
use axum_demo::json::{push_bytes, push_decimal, push_escaped_byte, push_json_string, push_text};
use axum_demo::routing::{Method, Router};
use axum_demo::schema::{Field, FieldKind, Reply, Schema, Shape};

fn text(bytes: Vec<u8>) -> String {
    String::from_utf8(bytes).unwrap()
}

const NOTE_FIELDS: &str = "[{\"name\":\"id\",\"type\":\"integer\"},{\"name\":\"title\",\"type\":\"string\"},{\"name\":\"content\",\"type\":\"string\"}]";

#[test]
fn json_strings_are_escaped() {
    let mut out = Vec::new();
    push_json_string(&mut out, b"a\"b\\c\n\x01\x1f/ \x7f");
    assert_eq!(text(out), "\"a\\\"b\\\\c\\u000a\\u0001\\u001f/ \x7f\"");
    let mut out = Vec::new();
    push_json_string(&mut out, b"");
    assert_eq!(text(out), "\"\"");
    let mut out = Vec::new();
    push_json_string(&mut out, "né".as_bytes());
    assert_eq!(text(out), "\"né\"");
    let mut out = b"x".to_vec();
    push_escaped_byte(&mut out, b'"');
    push_escaped_byte(&mut out, 0);
    push_escaped_byte(&mut out, b'y');
    assert_eq!(text(out), "x\\\"\\u0000y");
}

#[test]
fn numbers_are_written_in_decimal() {
    for (n, expected) in [
        (0u64, "0"),
        (7, "7"),
        (10, "10"),
        (200, "200"),
        (404, "404"),
        (65535, "65535"),
        (u64::MAX, "18446744073709551615"),
    ] {
        let mut out = b"#".to_vec();
        push_decimal(&mut out, n);
        assert_eq!(text(out), format!("#{}", expected));
    }
}

#[test]
fn text_and_bytes_are_appended() {
    let mut out = b"ab".to_vec();
    push_bytes(&mut out, b"cd");
    push_text(&mut out, "ef");
    push_bytes(&mut out, b"");
    assert_eq!(text(out), "abcdef");
}

#[test]
fn shapes_are_written_in_json() {
    let cases = [
        (Shape::Nothing, "{\"type\":\"none\"}".to_string()),
        (Shape::Text, "{\"type\":\"text\"}".to_string()),
        (Shape::Page, "{\"type\":\"html\"}".to_string()),
        (Shape::Record(Vec::new()), "{\"type\":\"object\",\"fields\":[]}".to_string()),
        (
            Shape::List(vec![Field::new("id", FieldKind::Integer)]),
            "{\"type\":\"array\",\"fields\":[{\"name\":\"id\",\"type\":\"integer\"}]}".to_string(),
        ),
        (
            Shape::Record(vec![
                Field::new("openapi", FieldKind::Text),
                Field::new("routes", FieldKind::Array),
            ]),
            "{\"type\":\"object\",\"fields\":[{\"name\":\"openapi\",\"type\":\"string\"},{\"name\":\"routes\",\"type\":\"array\"}]}".to_string(),
        ),
    ];
    for (shape, expected) in cases {
        let mut out = Vec::new();
        write_shape(&mut out, &shape);
        assert_eq!(text(out), expected);
        let mut out = Vec::new();
        write_shape(&mut out, &shape.duplicate());
        assert_eq!(text(out), expected);
    }
    let mut out = Vec::new();
    write_field(&mut out, &Field::new("a\"b", FieldKind::Text));
    assert_eq!(text(out), "{\"name\":\"a\\\"b\",\"type\":\"string\"}");
    let mut out = Vec::new();
    write_reply(&mut out, &Reply { status: 404, body: Shape::Text });
    assert_eq!(text(out), "{\"status\":404,\"body\":{\"type\":\"text\"}}");
}

#[test]
fn entry_is_written_in_json() {
    let entry = Entry {
        method: Method::Delete,
        path: b"/a/:id".to_vec(),
        schema: Schema::new("remove", Shape::Nothing).reply(204, Shape::Nothing).reply(404, Shape::Text),
    };
    let mut out = Vec::new();
    write_entry(&mut out, &entry);
    assert_eq!(
        text(out),
        "{\"method\":\"DELETE\",\"path\":\"/a/:id\",\"operation\":\"remove\",\"request\":{\"type\":\"none\"},\"responses\":[{\"status\":204,\"body\":{\"type\":\"none\"}},{\"status\":404,\"body\":{\"type\":\"text\"}}]}"
    );
}

#[test]
fn empty_router_has_an_empty_document() {
    let router: Router<u8> = Router::new();
    let document = router.build_document();
    assert!(document.entries.is_empty());
    assert_eq!(text(document.to_json()), "{\"openapi\":\"3.0.3\",\"routes\":[]}");
}

#[test]
fn document_has_one_entry_for_each_route() {
    let mut router: Router<u8> = Router::new();
    let methods = [
        (Method::Get, "GET"),
        (Method::Post, "POST"),
        (Method::Put, "PUT"),
        (Method::Patch, "PATCH"),
        (Method::Delete, "DELETE"),
        (Method::Head, "HEAD"),
        (Method::Options, "OPTIONS"),
    ];
    for (i, (method, _)) in methods.iter().enumerate() {
        let registered = router.register(
            *method,
            "/a//:id/",
            i as u8,
            Schema::new("op", Shape::Nothing).reply(200, Shape::Text),
        );
        assert_eq!(registered, Ok(()));
    }
    let document = router.build_document();
    assert_eq!(document.entries.len(), methods.len());
    for (i, entry) in document.entries.iter().enumerate() {
        assert_eq!(entry.method, methods[i].0);
        assert_eq!(entry.path, b"/a/:id".to_vec());
        for other in document.entries.iter().skip(i + 1) {
            assert!(entry.method != other.method || entry.path != other.path);
        }
    }
    let json = text(document.to_json());
    for (_, name) in methods {
        let entry = format!("{{\"method\":\"{}\",\"path\":\"/a/:id\",", name);
        assert_eq!(json.matches(&entry).count(), 1);
    }
}

#[test]
fn service_document_is_exact_and_stable() {
    let router = create_router();
    let note = format!("{{\"type\":\"object\",\"fields\":{}}}", NOTE_FIELDS);
    let error = "{\"type\":\"object\",\"fields\":[{\"name\":\"error\",\"type\":\"string\"}]}";
    let routes = [
        "{\"method\":\"GET\",\"path\":\"/\",\"operation\":\"greeting\",\"request\":{\"type\":\"none\"},\"responses\":[{\"status\":200,\"body\":{\"type\":\"text\"}}]}".to_string(),
        "{\"method\":\"GET\",\"path\":\"/user\",\"operation\":\"get_user\",\"request\":{\"type\":\"none\"},\"responses\":[{\"status\":200,\"body\":{\"type\":\"object\",\"fields\":[{\"name\":\"id\",\"type\":\"integer\"}]}}]}".to_string(),
        format!("{{\"method\":\"GET\",\"path\":\"/note\",\"operation\":\"list_notes\",\"request\":{{\"type\":\"none\"}},\"responses\":[{{\"status\":200,\"body\":{{\"type\":\"array\",\"fields\":{}}}}}]}}", NOTE_FIELDS),
        format!("{{\"method\":\"POST\",\"path\":\"/note\",\"operation\":\"create_note\",\"request\":{{\"type\":\"object\",\"fields\":[{{\"name\":\"title\",\"type\":\"string\"}},{{\"name\":\"content\",\"type\":\"string\"}}]}},\"responses\":[{{\"status\":200,\"body\":{}}},{{\"status\":400,\"body\":{}}}]}}", note, error),
        "{\"method\":\"GET\",\"path\":\"/openapi.json\",\"operation\":\"api_document\",\"request\":{\"type\":\"none\"},\"responses\":[{\"status\":200,\"body\":{\"type\":\"object\",\"fields\":[{\"name\":\"openapi\",\"type\":\"string\"},{\"name\":\"routes\",\"type\":\"array\"}]}}]}".to_string(),
        "{\"method\":\"GET\",\"path\":\"/scalar\",\"operation\":\"viewer\",\"request\":{\"type\":\"none\"},\"responses\":[{\"status\":200,\"body\":{\"type\":\"html\"}}]}".to_string(),
    ];
    let expected = format!("{{\"openapi\":\"3.0.3\",\"routes\":[{}]}}", routes.join(","));
    let first = router.build_document().to_json();
    assert_eq!(text(first.clone()), expected);
    let second = router.build_document().to_json();
    assert_eq!(first, second);
    let again = create_router().build_document().to_json();
    assert_eq!(first, again);
}

#[test]
fn schemas_of_the_operations() {
    let schema = schema_of(Handler::GetNote);
    assert_eq!(schema.operation, b"get_note".to_vec());
    assert!(matches!(schema.input, Shape::Nothing));
    let statuses: Vec<u16> = schema.replies.iter().map(|r| r.status).collect();
    assert_eq!(statuses, vec![200, 400, 404]);
    let copy = schema.duplicate();
    assert_eq!(copy.operation, schema.operation);
    assert_eq!(copy.replies.len(), 3);
    let created = schema_of(Handler::CreateNote);
    match &created.input {
        Shape::Record(fields) => {
            let names: Vec<&[u8]> = fields.iter().map(|f| f.name.as_slice()).collect();
            assert_eq!(names, vec![&b"title"[..], &b"content"[..]]);
            assert!(fields.iter().all(|f| f.kind == FieldKind::Text));
        }
        other => panic!("unexpected shape: {:?}", other),
    }
    for handler in [
        Handler::Greeting,
        Handler::StaticUser,
        Handler::ListNotes,
        Handler::ApiDocument,
        Handler::Viewer,
    ] {
        let schema = schema_of(handler);
        assert_eq!(schema.replies.len(), 1);
        assert_eq!(schema.replies[0].status, 200);
    }
}
