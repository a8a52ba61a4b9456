use vstd::prelude::*;

pub mod docs;
pub mod order;
pub mod pyi;
pub mod sink;
pub mod text;
pub mod types;

pub use crate::pyi::pyi_impl;

use crate::pyi::{enum_def, enum_text, record_text, struct_def, Record, TaggedUnion};
use crate::sink::{file_text, StubSink};

verus! {

/// The body of an annotated type declaration.
pub enum DeclData {
    Struct(Record),
    Enum(TaggedUnion),
    /// A kind of declaration that has no stub form.
    Union,
}

/// The stub block of declaration `name` with body `data`, if it has one.
pub open spec fn decl_text(name: Seq<char>, data: DeclData) -> Option<Seq<char>> {
    match data {
        DeclData::Struct(r) => Some(record_text(name, r.fields@)),
        DeclData::Enum(e) => Some(enum_text(name, e.variants@)),
        DeclData::Union => None,
    }
}

/// Writes the stub block of declaration `name` to `sink`, where it has one, and
/// returns the text to append to the file.
pub fn pyi(name: &str, data: &DeclData, sink: &mut StubSink) -> (r: Option<String>)
    requires
        old(sink).wf(),
    ensures
        final(sink).wf(),
        match decl_text(name@, *data) {
            None => r is None && final(sink)@ == old(sink)@,
            Some(block) => r is Some && final(sink)@ == old(sink)@.push(block) && file_text(
                old(sink)@,
            ) + r.unwrap()@ == file_text(final(sink)@),
        },
{
    match data {
        DeclData::Struct(item) => Some(struct_def(item, name, sink)),
        DeclData::Enum(item) => Some(enum_def(item, name, sink)),
        DeclData::Union => None,
    }
}

} // verus!
