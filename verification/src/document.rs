//! The description of a router's routes, and its JSON form.
//!
//! The document is made from the routes themselves, one entry for each, in
//! the order of registration: it cannot name a route that is not there, nor
//! leave one out. Its JSON form is a function of the entries alone, so the
//! same routes always give the same bytes.

use crate::json::{
    comma_joined, decimal, json_array, json_string, lemma_comma_joined_push, push_decimal,
    push_json_string, push_text, separator, text,
};
use crate::path::{render_path, render_segments};
use crate::routing::{Method, RouteView, Router};
use crate::schema::{
    fields_view, replies_view, Field, FieldKind, FieldView, Reply, ReplyView, Schema, SchemaView,
    Shape, ShapeView,
};
use vstd::prelude::*;

verus! {

/// What the document says of one route.
#[derive(Debug)]
pub struct Entry {
    pub method: Method,
    /// The route's pattern, written out in its shortest spelling.
    pub path: Vec<u8>,
    pub schema: Schema,
}

/// An entry as contracts see it.
pub struct EntryView {
    pub method: Method,
    pub path: Seq<u8>,
    pub schema: SchemaView,
}

impl View for Entry {
    type V = EntryView;

    open spec fn view(&self) -> EntryView {
        EntryView { method: self.method, path: self.path@, schema: self.schema@ }
    }
}

/// The description of all routes of a router.
#[derive(Debug)]
pub struct Document {
    pub entries: Vec<Entry>,
}

impl View for Document {
    type V = Seq<EntryView>;

    open spec fn view(&self) -> Seq<EntryView> {
        Seq::new(self.entries@.len(), |i: int| self.entries@[i]@)
    }
}

/// The document of a router's routes: for each route, in order, its method,
/// its path and its schema.
pub open spec fn document_of<H>(routes: Seq<RouteView<H>>) -> Seq<EntryView> {
    Seq::new(
        routes.len(),
        |i: int|
            EntryView {
                method: routes[i].method,
                path: render_path(routes[i].pattern),
                schema: routes[i].schema,
            },
    )
}

/// A method as it is written in the document.
pub open spec fn method_json(method: Method) -> Seq<u8> {
    match method {
        Method::Get => text("\"GET\""),
        Method::Post => text("\"POST\""),
        Method::Put => text("\"PUT\""),
        Method::Patch => text("\"PATCH\""),
        Method::Delete => text("\"DELETE\""),
        Method::Head => text("\"HEAD\""),
        Method::Options => text("\"OPTIONS\""),
    }
}

/// A field's kind as it is written in the document.
pub open spec fn kind_json(kind: FieldKind) -> Seq<u8> {
    match kind {
        FieldKind::Integer => text("\"integer\""),
        FieldKind::Text => text("\"string\""),
        FieldKind::Array => text("\"array\""),
    }
}

/// A field in JSON.
pub open spec fn field_json(field: FieldView) -> Seq<u8> {
    text("{\"name\":") + json_string(field.name) + text(",\"type\":") + kind_json(field.kind)
        + text("}")
}

/// Fields in JSON, as an array.
pub open spec fn fields_json(fields: Seq<FieldView>) -> Seq<u8> {
    json_array(Seq::new(fields.len(), |i: int| field_json(fields[i])))
}

/// A shape in JSON.
pub open spec fn shape_json(shape: ShapeView) -> Seq<u8> {
    match shape {
        ShapeView::Nothing => text("{\"type\":\"none\"}"),
        ShapeView::Text => text("{\"type\":\"text\"}"),
        ShapeView::Page => text("{\"type\":\"html\"}"),
        ShapeView::Record(fields) => text("{\"type\":\"object\",\"fields\":") + fields_json(fields)
            + text("}"),
        ShapeView::List(fields) => text("{\"type\":\"array\",\"fields\":") + fields_json(fields)
            + text("}"),
    }
}

/// A reply in JSON.
pub open spec fn reply_json(reply: ReplyView) -> Seq<u8> {
    text("{\"status\":") + decimal(reply.status as nat) + text(",\"body\":") + shape_json(
        reply.body,
    ) + text("}")
}

/// Replies in JSON, as an array.
pub open spec fn replies_json(replies: Seq<ReplyView>) -> Seq<u8> {
    json_array(Seq::new(replies.len(), |i: int| reply_json(replies[i])))
}

/// An entry in JSON.
pub open spec fn entry_json(entry: EntryView) -> Seq<u8> {
    text("{\"method\":") + method_json(entry.method) + text(",\"path\":") + json_string(entry.path)
        + text(",\"operation\":") + json_string(entry.schema.operation) + text(",\"request\":")
        + shape_json(entry.schema.input) + text(",\"responses\":") + replies_json(
        entry.schema.replies,
    ) + text("}")
}

/// A document in JSON.
pub open spec fn document_json(entries: Seq<EntryView>) -> Seq<u8> {
    text("{\"openapi\":\"3.0.3\",\"routes\":") + json_array(
        Seq::new(entries.len(), |i: int| entry_json(entries[i])),
    ) + text("}")
}

/// Appends a method as it is written in the document.
pub fn write_method(out: &mut Vec<u8>, method: Method)
    ensures
        final(out)@ == old(out)@ + method_json(method),
{
    match method {
        Method::Get => push_text(out, "\"GET\""),
        Method::Post => push_text(out, "\"POST\""),
        Method::Put => push_text(out, "\"PUT\""),
        Method::Patch => push_text(out, "\"PATCH\""),
        Method::Delete => push_text(out, "\"DELETE\""),
        Method::Head => push_text(out, "\"HEAD\""),
        Method::Options => push_text(out, "\"OPTIONS\""),
    }
}

/// Appends a field in JSON.
pub fn write_field(out: &mut Vec<u8>, field: &Field)
    ensures
        final(out)@ == old(out)@ + field_json(field@),
{
    push_text(out, "{\"name\":");
    push_json_string(out, field.name.as_slice());
    push_text(out, ",\"type\":");
    match field.kind {
        FieldKind::Integer => push_text(out, "\"integer\""),
        FieldKind::Text => push_text(out, "\"string\""),
        FieldKind::Array => push_text(out, "\"array\""),
    }
    push_text(out, "}");
    assert(out@ =~= old(out)@ + field_json(field@));
}

/// Appends fields in JSON, as an array.
pub fn write_fields(out: &mut Vec<u8>, fields: &Vec<Field>)
    ensures
        final(out)@ == old(out)@ + fields_json(fields_view(fields@)),
{
    let ghost items = Seq::new(fields@.len(), |i: int| field_json(fields_view(fields@)[i]));
    out.push(91);
    let mut i: usize = 0;
    while i < fields.len()
        invariant
            0 <= i <= fields.len(),
            items == Seq::new(fields@.len(), |i: int| field_json(fields_view(fields@)[i])),
            out@ == old(out)@ + seq![91u8] + comma_joined(items.take(i as int)),
        decreases fields.len() - i,
    {
        if i > 0 {
            out.push(44);
        }
        write_field(out, &fields[i]);
        proof {
            lemma_comma_joined_push(items.take(i as int), items[i as int]);
            assert(items.take(i as int).push(items[i as int]) == items.take(i as int + 1));
            assert(out@ =~= old(out)@ + seq![91u8] + (comma_joined(items.take(i as int))
                + separator(i as int) + items[i as int]));
        }
        i += 1;
    }
    assert(items.take(i as int) == items);
    out.push(93);
    assert(out@ =~= old(out)@ + (seq![91u8] + comma_joined(items) + seq![93u8]));
}

/// Appends a shape in JSON.
pub fn write_shape(out: &mut Vec<u8>, shape: &Shape)
    ensures
        final(out)@ == old(out)@ + shape_json(shape@),
{
    match shape {
        Shape::Nothing => push_text(out, "{\"type\":\"none\"}"),
        Shape::Text => push_text(out, "{\"type\":\"text\"}"),
        Shape::Page => push_text(out, "{\"type\":\"html\"}"),
        Shape::Record(fields) => {
            push_text(out, "{\"type\":\"object\",\"fields\":");
            write_fields(out, fields);
            push_text(out, "}");
            assert(out@ =~= old(out)@ + shape_json(shape@));
        },
        Shape::List(fields) => {
            push_text(out, "{\"type\":\"array\",\"fields\":");
            write_fields(out, fields);
            push_text(out, "}");
            assert(out@ =~= old(out)@ + shape_json(shape@));
        },
    }
}

/// Appends a reply in JSON.
pub fn write_reply(out: &mut Vec<u8>, reply: &Reply)
    ensures
        final(out)@ == old(out)@ + reply_json(reply@),
{
    push_text(out, "{\"status\":");
    push_decimal(out, reply.status as u64);
    push_text(out, ",\"body\":");
    write_shape(out, &reply.body);
    push_text(out, "}");
    assert(out@ =~= old(out)@ + reply_json(reply@));
}

/// Appends replies in JSON, as an array.
pub fn write_replies(out: &mut Vec<u8>, replies: &Vec<Reply>)
    ensures
        final(out)@ == old(out)@ + replies_json(replies_view(replies@)),
{
    let ghost items = Seq::new(replies@.len(), |i: int| reply_json(replies_view(replies@)[i]));
    out.push(91);
    let mut i: usize = 0;
    while i < replies.len()
        invariant
            0 <= i <= replies.len(),
            items == Seq::new(replies@.len(), |i: int| reply_json(replies_view(replies@)[i])),
            out@ == old(out)@ + seq![91u8] + comma_joined(items.take(i as int)),
        decreases replies.len() - i,
    {
        if i > 0 {
            out.push(44);
        }
        write_reply(out, &replies[i]);
        proof {
            lemma_comma_joined_push(items.take(i as int), items[i as int]);
            assert(items.take(i as int).push(items[i as int]) == items.take(i as int + 1));
            assert(out@ =~= old(out)@ + seq![91u8] + (comma_joined(items.take(i as int))
                + separator(i as int) + items[i as int]));
        }
        i += 1;
    }
    assert(items.take(i as int) == items);
    out.push(93);
    assert(out@ =~= old(out)@ + (seq![91u8] + comma_joined(items) + seq![93u8]));
}

/// Appends an entry in JSON.
pub fn write_entry(out: &mut Vec<u8>, entry: &Entry)
    ensures
        final(out)@ == old(out)@ + entry_json(entry@),
{
    push_text(out, "{\"method\":");
    write_method(out, entry.method);
    push_text(out, ",\"path\":");
    push_json_string(out, entry.path.as_slice());
    push_text(out, ",\"operation\":");
    push_json_string(out, entry.schema.operation.as_slice());
    push_text(out, ",\"request\":");
    write_shape(out, &entry.schema.input);
    push_text(out, ",\"responses\":");
    write_replies(out, &entry.schema.replies);
    push_text(out, "}");
    assert(out@ =~= old(out)@ + entry_json(entry@));
}

impl Document {
    /// The document in JSON.
    pub fn to_json(&self) -> (json: Vec<u8>)
        ensures
            json@ == document_json(self@),
    {
        let ghost items = Seq::new(self@.len(), |i: int| entry_json(self@[i]));
        let mut out: Vec<u8> = Vec::new();
        push_text(&mut out, "{\"openapi\":\"3.0.3\",\"routes\":");
        out.push(91);
        let ghost head = text("{\"openapi\":\"3.0.3\",\"routes\":") + seq![91u8];
        assert(out@ =~= head);
        let mut i: usize = 0;
        while i < self.entries.len()
            invariant
                0 <= i <= self.entries.len(),
                items == Seq::new(self@.len(), |i: int| entry_json(self@[i])),
                out@ == head + comma_joined(items.take(i as int)),
            decreases self.entries.len() - i,
        {
            if i > 0 {
                out.push(44);
            }
            write_entry(&mut out, &self.entries[i]);
            proof {
                lemma_comma_joined_push(items.take(i as int), items[i as int]);
                assert(items.take(i as int).push(items[i as int]) == items.take(i as int + 1));
                assert(out@ =~= head + (comma_joined(items.take(i as int)) + separator(i as int)
                    + items[i as int]));
            }
            i += 1;
        }
        assert(items.take(i as int) == items);
        out.push(93);
        push_text(&mut out, "}");
        assert(out@ =~= text("{\"openapi\":\"3.0.3\",\"routes\":") + (seq![91u8] + comma_joined(
            items,
        ) + seq![93u8]) + text("}"));
        out
    }
}

impl<H: Copy> Router<H> {
    /// Describes the router's routes: one entry for each route, in the order
    /// of registration, with the route's method, its path and its schema.
    pub fn build_document(&self) -> (doc: Document)
        ensures
            doc@ == document_of(self@),
    {
        let mut entries: Vec<Entry> = Vec::new();
        let mut i: usize = 0;
        while i < self.len()
            invariant
                0 <= i <= self@.len(),
                entries@.len() == i,
                forall|k: int| 0 <= k < i ==> (#[trigger] entries@[k])@ == document_of(self@)[k],
            decreases self@.len() - i,
        {
            let route = self.route(i);
            entries.push(
                Entry {
                    method: route.method,
                    path: render_segments(&route.segments),
                    schema: route.schema.duplicate(),
                },
            );
            i += 1;
        }
        let doc = Document { entries };
        assert(doc@ =~= document_of(self@));
        doc
    }
}

} // verus!
