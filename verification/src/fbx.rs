use vstd::prelude::*;
use crate::fbx::header::{HEADER_LENGTH, parse_header, spec_parse_header};
use crate::fbx::importer::{import, spec_import};
use crate::fbx::node::{NodeRecord, NodeView, nodes_view, parse_nodes, spec_parse_nodes};
use crate::scene::Scene;
use crate::scene::mesh::MeshView;

pub mod bytes;
pub mod header;
pub mod importer;
pub mod node;
pub mod node_collection;
pub mod property;

verus! {

/// How a decoding failure is classified, independent of the message it
/// carries: the shape of every `ParseError` at specification level.
#[derive(Clone, Copy, PartialEq, Eq, Structural, Debug)]
pub enum ParseErrorKind {
    /// Malformed encoding at the byte level: invalid UTF-8, or an
    /// unrecognized property type tag.
    Format,
    /// A structural offset, length, or sentinel invariant was violated.
    Validation,
    /// The input ended before a read could be completed.
    EndOfData,
}

/// The single error channel of the decoder: every failure while decoding
/// a file is reported as one of these, and the whole import aborts on the
/// first one encountered.
#[derive(Debug)]
pub enum ParseError {
    /// Malformed encoding at the byte level.
    FormatError,
    /// A structural invariant was violated; carries the reason.
    ValidationError(String),
    /// The input ended before a read could be completed.
    UnexpectedEndOfData,
}

impl ParseError {
    /// The classification of this error, with the message stripped.
    pub open spec fn kind(&self) -> ParseErrorKind {
        match self {
            ParseError::FormatError => ParseErrorKind::Format,
            ParseError::ValidationError(_) => ParseErrorKind::Validation,
            ParseError::UnexpectedEndOfData => ParseErrorKind::EndOfData,
        }
    }
}

/// The root record list of a file: a well-formed header, then records
/// from `HEADER_LENGTH` up to a terminator or the end of the input.
pub open spec fn spec_parse_fbx(b: Seq<u8>) -> Result<Seq<NodeView>, ParseErrorKind> {
    match spec_parse_header(b) {
        Err(e) => Err(e),
        Ok(_) => match spec_parse_nodes(b, HEADER_LENGTH as int) {
            Err(e) => Err(e),
            Ok((roots, _)) => Ok(roots),
        },
    }
}

/// Validates the header and decodes the whole node tree of a file.
pub fn parse_fbx(data: &Vec<u8>) -> (r: Result<Vec<NodeRecord>, ParseError>)
    ensures
        match r {
            Ok(v) => spec_parse_fbx(data@) == Ok::<_, ParseErrorKind>(nodes_view(v@)),
            Err(e) => spec_parse_fbx(data@) == Err::<Seq<NodeView>, _>(e.kind()),
        },
{
    let _header = match parse_header(data) {
        Ok(h) => h,
        Err(e) => { return Err(e) },
    };
    match parse_nodes(data, HEADER_LENGTH) {
        Ok((roots, _)) => Ok(roots),
        Err(e) => Err(e),
    }
}

/// The scene a file yields: its node tree, imported.
pub open spec fn spec_import_fbx(b: Seq<u8>) -> Result<Seq<MeshView>, ParseErrorKind> {
    match spec_parse_fbx(b) {
        Err(e) => Err(e),
        Ok(roots) => spec_import(roots),
    }
}

/// Decodes a whole file into a scene: header validation, the node tree,
/// and mesh extraction; the caller receives either a fully valid scene or
/// the first violated invariant.
pub fn import_fbx(data: &Vec<u8>) -> (r: Result<Scene, ParseError>)
    ensures
        match r {
            Ok(s) => spec_import_fbx(data@) == Ok::<_, ParseErrorKind>(s@),
            Err(e) => spec_import_fbx(data@) == Err::<Seq<MeshView>, _>(e.kind()),
        },
{
    let roots = match parse_fbx(data) {
        Ok(n) => n,
        Err(e) => { return Err(e) },
    };
    import(&roots)
}

} // verus!
