//! The shapes of what an operation takes and gives.
//!
//! Every route carries a schema: the name of its operation, the shape of the
//! body it reads, and for each status it can answer with, the shape of the
//! body it writes. Schemas are plain data, stated when the route is
//! registered.

use crate::path::copy_bytes;
use vstd::prelude::*;
use vstd::string::StringSliceAdditionalSpecFns;

verus! {

/// What a field of a record holds.
#[derive(Clone, Copy, Debug, PartialEq, Eq, Structural)]
pub enum FieldKind {
    Integer,
    Text,
    Array,
}

/// A named field of a record.
#[derive(Debug)]
pub struct Field {
    pub name: Vec<u8>,
    pub kind: FieldKind,
}

/// A field as contracts see it.
pub struct FieldView {
    pub name: Seq<u8>,
    pub kind: FieldKind,
}

impl View for Field {
    type V = FieldView;

    open spec fn view(&self) -> FieldView {
        FieldView { name: self.name@, kind: self.kind }
    }
}

/// The fields that a vector of fields holds.
pub open spec fn fields_view(fields: Seq<Field>) -> Seq<FieldView> {
    Seq::new(fields.len(), |i: int| fields[i]@)
}

/// The shape of a body.
#[derive(Debug)]
pub enum Shape {
    /// No body.
    Nothing,
    /// Plain text.
    Text,
    /// A page of markup.
    Page,
    /// One record with these fields.
    Record(Vec<Field>),
    /// Any number of records with these fields.
    List(Vec<Field>),
}

/// A shape as contracts see it.
pub enum ShapeView {
    Nothing,
    Text,
    Page,
    Record(Seq<FieldView>),
    List(Seq<FieldView>),
}

impl View for Shape {
    type V = ShapeView;

    open spec fn view(&self) -> ShapeView {
        match *self {
            Shape::Nothing => ShapeView::Nothing,
            Shape::Text => ShapeView::Text,
            Shape::Page => ShapeView::Page,
            Shape::Record(fields) => ShapeView::Record(fields_view(fields@)),
            Shape::List(fields) => ShapeView::List(fields_view(fields@)),
        }
    }
}

/// What an operation answers under one status.
#[derive(Debug)]
pub struct Reply {
    pub status: u16,
    pub body: Shape,
}

/// A reply as contracts see it.
pub struct ReplyView {
    pub status: u16,
    pub body: ShapeView,
}

impl View for Reply {
    type V = ReplyView;

    open spec fn view(&self) -> ReplyView {
        ReplyView { status: self.status, body: self.body@ }
    }
}

/// The replies that a vector of replies holds.
pub open spec fn replies_view(replies: Seq<Reply>) -> Seq<ReplyView> {
    Seq::new(replies.len(), |i: int| replies[i]@)
}

/// What is declared of one operation.
#[derive(Debug)]
pub struct Schema {
    /// The operation's name.
    pub operation: Vec<u8>,
    /// The body that the operation reads.
    pub input: Shape,
    /// The replies that the operation can give, in the order in which they
    /// were declared.
    pub replies: Vec<Reply>,
}

/// A schema as contracts see it.
pub struct SchemaView {
    pub operation: Seq<u8>,
    pub input: ShapeView,
    pub replies: Seq<ReplyView>,
}

impl View for Schema {
    type V = SchemaView;

    open spec fn view(&self) -> SchemaView {
        SchemaView {
            operation: self.operation@,
            input: self.input@,
            replies: replies_view(self.replies@),
        }
    }
}

impl Field {
    /// A field with this name.
    pub fn new(name: &str, kind: FieldKind) -> (field: Field)
        ensures
            field@ == (FieldView { name: name.spec_bytes(), kind }),
    {
        Field { name: copy_bytes(name.as_bytes()), kind }
    }

    /// A copy of the field.
    pub fn duplicate(&self) -> (copy: Field)
        ensures
            copy@ == self@,
    {
        Field { name: copy_bytes(self.name.as_slice()), kind: self.kind }
    }
}

/// A copy of the fields.
pub fn duplicate_fields(fields: &Vec<Field>) -> (copy: Vec<Field>)
    ensures
        fields_view(copy@) == fields_view(fields@),
{
    let mut copy: Vec<Field> = Vec::new();
    let mut i: usize = 0;
    while i < fields.len()
        invariant
            0 <= i <= fields.len(),
            copy@.len() == i,
            forall|k: int| 0 <= k < i ==> (#[trigger] copy@[k])@ == fields@[k]@,
        decreases fields.len() - i,
    {
        copy.push(fields[i].duplicate());
        i += 1;
    }
    assert(fields_view(copy@) =~= fields_view(fields@));
    copy
}

impl Shape {
    /// A copy of the shape.
    pub fn duplicate(&self) -> (copy: Shape)
        ensures
            copy@ == self@,
    {
        match self {
            Shape::Nothing => Shape::Nothing,
            Shape::Text => Shape::Text,
            Shape::Page => Shape::Page,
            Shape::Record(fields) => Shape::Record(duplicate_fields(fields)),
            Shape::List(fields) => Shape::List(duplicate_fields(fields)),
        }
    }
}

impl Reply {
    /// A copy of the reply.
    pub fn duplicate(&self) -> (copy: Reply)
        ensures
            copy@ == self@,
    {
        Reply { status: self.status, body: self.body.duplicate() }
    }
}

impl Schema {
    /// The schema of an operation that reads `input` and has no reply yet.
    pub fn new(operation: &str, input: Shape) -> (schema: Schema)
        ensures
            schema@ == (SchemaView {
                operation: operation.spec_bytes(),
                input: input@,
                replies: Seq::empty(),
            }),
    {
        let schema = Schema {
            operation: copy_bytes(operation.as_bytes()),
            input,
            replies: Vec::new(),
        };
        assert(replies_view(schema.replies@) =~= Seq::<ReplyView>::empty());
        schema
    }

    /// The schema with one more reply, behind those it has.
    pub fn reply(self, status: u16, body: Shape) -> (schema: Schema)
        ensures
            schema@ == (SchemaView {
                operation: self@.operation,
                input: self@.input,
                replies: self@.replies.push(ReplyView { status, body: body@ }),
            }),
    {
        let mut replies = self.replies;
        replies.push(Reply { status, body });
        let schema = Schema { operation: self.operation, input: self.input, replies };
        assert(replies_view(schema.replies@) =~= self@.replies.push(
            ReplyView { status, body: body@ },
        ));
        schema
    }

    /// A copy of the schema.
    pub fn duplicate(&self) -> (copy: Schema)
        ensures
            copy@ == self@,
    {
        let mut replies: Vec<Reply> = Vec::new();
        let mut i: usize = 0;
        while i < self.replies.len()
            invariant
                0 <= i <= self.replies.len(),
                replies@.len() == i,
                forall|k: int| 0 <= k < i ==> (#[trigger] replies@[k])@ == self.replies@[k]@,
            decreases self.replies.len() - i,
        {
            replies.push(self.replies[i].duplicate());
            i += 1;
        }
        assert(replies_view(replies@) =~= replies_view(self.replies@));
        Schema {
            operation: copy_bytes(self.operation.as_slice()),
            input: self.input.duplicate(),
            replies,
        }
    }
}

} // verus!
