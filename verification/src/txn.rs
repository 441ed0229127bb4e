//! What a transaction wrote.
#[allow(unused_imports)]
use vstd::prelude::*;
#[allow(unused_imports)]
use vstd::string::*;

verus! {

/// What happened to a document.
#[derive(Debug, Clone, Copy, PartialEq, Eq, Structural)]
pub enum OpKind {
    Insert,
    Patch,
    Delete,
}

/// A document that was written, and how.
#[derive(Debug, Clone)]
pub struct DocOp {
    pub table: String,
    pub id: String,
    pub kind: OpKind,
}

/// The mathematical form of a write.
pub struct OpV {
    pub table: Seq<char>,
    pub id: Seq<char>,
    pub kind: OpKind,
}

impl View for DocOp {
    type V = OpV;

    open spec fn view(&self) -> OpV {
        OpV { table: self.table@, id: self.id@, kind: self.kind }
    }
}

/// The views of writes.
pub open spec fn op_views(v: Seq<DocOp>) -> Seq<OpV> {
    Seq::new(v.len(), |i: int| v[i]@)
}

/// What a transaction wrote: tables, documents by table and id, and operations.
#[derive(Debug, Clone)]
pub struct WriteSet {
    pub tables: Vec<String>,
    pub docs: Vec<(String, String)>,
    pub ops: Vec<DocOp>,
}

} // verus!
