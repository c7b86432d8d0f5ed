//! The operations of the service, and what is declared of each.

use crate::json::text;
use crate::schema::{
    fields_view, Field, FieldKind, FieldView, ReplyView, Schema, SchemaView, Shape, ShapeView,
};
use vstd::prelude::*;

verus! {

/// The operations that a route of the service can be bound to.
#[derive(Clone, Copy, Debug, PartialEq, Eq, Structural)]
pub enum Handler {
    /// Answers with a greeting.
    Greeting,
    /// Answers with the one user that the service knows.
    StaticUser,
    /// Lists the notes.
    ListNotes,
    /// Creates a note.
    CreateNote,
    /// Answers with the note that the path names.
    GetNote,
    /// Answers with the description of the service's routes.
    ApiDocument,
    /// Answers with the page that shows that description.
    Viewer,
}

/// The fields of a note.
pub open spec fn note_fields() -> Seq<FieldView> {
    seq![
        FieldView { name: text("id"), kind: FieldKind::Integer },
        FieldView { name: text("title"), kind: FieldKind::Text },
        FieldView { name: text("content"), kind: FieldKind::Text },
    ]
}

/// The fields of a draft.
pub open spec fn draft_fields() -> Seq<FieldView> {
    seq![
        FieldView { name: text("title"), kind: FieldKind::Text },
        FieldView { name: text("content"), kind: FieldKind::Text },
    ]
}

/// The fields of a user.
pub open spec fn user_fields() -> Seq<FieldView> {
    seq![FieldView { name: text("id"), kind: FieldKind::Integer }]
}

/// The fields of an error.
pub open spec fn error_fields() -> Seq<FieldView> {
    seq![FieldView { name: text("error"), kind: FieldKind::Text }]
}

/// The fields of the description of the routes.
pub open spec fn document_fields() -> Seq<FieldView> {
    seq![
        FieldView { name: text("openapi"), kind: FieldKind::Text },
        FieldView { name: text("routes"), kind: FieldKind::Array },
    ]
}

/// What is declared of each operation.
pub open spec fn handler_schema(handler: Handler) -> SchemaView {
    match handler {
        Handler::Greeting => SchemaView {
            operation: text("greeting"),
            input: ShapeView::Nothing,
            replies: seq![ReplyView { status: 200, body: ShapeView::Text }],
        },
        Handler::StaticUser => SchemaView {
            operation: text("get_user"),
            input: ShapeView::Nothing,
            replies: seq![ReplyView { status: 200, body: ShapeView::Record(user_fields()) }],
        },
        Handler::ListNotes => SchemaView {
            operation: text("list_notes"),
            input: ShapeView::Nothing,
            replies: seq![ReplyView { status: 200, body: ShapeView::List(note_fields()) }],
        },
        Handler::CreateNote => SchemaView {
            operation: text("create_note"),
            input: ShapeView::Record(draft_fields()),
            replies: seq![
                ReplyView { status: 200, body: ShapeView::Record(note_fields()) },
                ReplyView { status: 400, body: ShapeView::Record(error_fields()) },
            ],
        },
        Handler::GetNote => SchemaView {
            operation: text("get_note"),
            input: ShapeView::Nothing,
            replies: seq![
                ReplyView { status: 200, body: ShapeView::Record(note_fields()) },
                ReplyView { status: 400, body: ShapeView::Record(error_fields()) },
                ReplyView { status: 404, body: ShapeView::Record(error_fields()) },
            ],
        },
        Handler::ApiDocument => SchemaView {
            operation: text("api_document"),
            input: ShapeView::Nothing,
            replies: seq![ReplyView { status: 200, body: ShapeView::Record(document_fields()) }],
        },
        Handler::Viewer => SchemaView {
            operation: text("viewer"),
            input: ShapeView::Nothing,
            replies: seq![ReplyView { status: 200, body: ShapeView::Page }],
        },
    }
}

/// The fields of a note, as data.
pub fn make_note_fields() -> (fields: Vec<Field>)
    ensures
        fields_view(fields@) == note_fields(),
{
    let mut fields: Vec<Field> = Vec::new();
    fields.push(Field::new("id", FieldKind::Integer));
    fields.push(Field::new("title", FieldKind::Text));
    fields.push(Field::new("content", FieldKind::Text));
    assert(fields_view(fields@) =~= note_fields());
    fields
}

/// The fields of a draft, as data.
pub fn make_draft_fields() -> (fields: Vec<Field>)
    ensures
        fields_view(fields@) == draft_fields(),
{
    let mut fields: Vec<Field> = Vec::new();
    fields.push(Field::new("title", FieldKind::Text));
    fields.push(Field::new("content", FieldKind::Text));
    assert(fields_view(fields@) =~= draft_fields());
    fields
}

/// The fields of a user, as data.
pub fn make_user_fields() -> (fields: Vec<Field>)
    ensures
        fields_view(fields@) == user_fields(),
{
    let mut fields: Vec<Field> = Vec::new();
    fields.push(Field::new("id", FieldKind::Integer));
    assert(fields_view(fields@) =~= user_fields());
    fields
}

/// The fields of an error, as data.
pub fn make_error_fields() -> (fields: Vec<Field>)
    ensures
        fields_view(fields@) == error_fields(),
{
    let mut fields: Vec<Field> = Vec::new();
    fields.push(Field::new("error", FieldKind::Text));
    assert(fields_view(fields@) =~= error_fields());
    fields
}

/// The fields of the description of the routes, as data.
pub fn make_document_fields() -> (fields: Vec<Field>)
    ensures
        fields_view(fields@) == document_fields(),
{
    let mut fields: Vec<Field> = Vec::new();
    fields.push(Field::new("openapi", FieldKind::Text));
    fields.push(Field::new("routes", FieldKind::Array));
    assert(fields_view(fields@) =~= document_fields());
    fields
}

/// The schema of an operation, as data.
pub fn schema_of(handler: Handler) -> (schema: Schema)
    ensures
        schema@ == handler_schema(handler),
{
    let schema = match handler {
        Handler::Greeting => Schema::new("greeting", Shape::Nothing).reply(200, Shape::Text),
        Handler::StaticUser => Schema::new("get_user", Shape::Nothing).reply(
            200,
            Shape::Record(make_user_fields()),
        ),
        Handler::ListNotes => Schema::new("list_notes", Shape::Nothing).reply(
            200,
            Shape::List(make_note_fields()),
        ),
        Handler::CreateNote => Schema::new(
            "create_note",
            Shape::Record(make_draft_fields()),
        ).reply(200, Shape::Record(make_note_fields())).reply(
            400,
            Shape::Record(make_error_fields()),
        ),
        Handler::GetNote => Schema::new("get_note", Shape::Nothing).reply(
            200,
            Shape::Record(make_note_fields()),
        ).reply(400, Shape::Record(make_error_fields())).reply(
            404,
            Shape::Record(make_error_fields()),
        ),
        Handler::ApiDocument => Schema::new("api_document", Shape::Nothing).reply(
            200,
            Shape::Record(make_document_fields()),
        ),
        Handler::Viewer => Schema::new("viewer", Shape::Nothing).reply(200, Shape::Page),
    };
    assert(schema@.replies =~= handler_schema(handler).replies);
    schema
}

} // verus!
