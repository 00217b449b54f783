use vstd::prelude::*;
use vstd::utf8::{decode_utf8, valid_utf8};
use crate::fbx::{ParseError, ParseErrorKind};
use crate::fbx::bytes::{copy_range, le32_at, read_u32_at, read_u8_at, string_from_utf8};
use crate::fbx::property::{
    PropertyRecordType, PropertyView, parse_properties, props_view, spec_parse_properties,
};

verus! {

/// One record of the node tree at specification level: a name, the decoded
/// properties, and the nested records, all in stored order.
pub struct NodeView {
    pub name: Seq<char>,
    pub properties: Seq<PropertyView>,
    pub children: Seq<NodeView>,
}

/// One record of the node tree: a named element carrying decoded
/// properties and an ordered list of nested records. Each record
/// exclusively owns its children; the decoded tree is immutable once
/// built.
#[derive(Debug)]
pub struct NodeRecord {
    pub name: String,
    pub properties: Vec<PropertyRecordType>,
    pub nested_list: Vec<NodeRecord>,
}

/// The view of one record: its name, its decoded properties, and the
/// views of its nested records.
pub open spec fn node_view_of(n: NodeRecord) -> NodeView
    decreases n,
    via node_view_of_decreases
{
    NodeView {
        name: n.name@,
        properties: props_view(n.properties@),
        children: Seq::new(
            n.nested_list@.len(),
            |i: int|
                if 0 <= i < n.nested_list@.len() {
                    node_view_of(n.nested_list@[i])
                } else {
                    vstd::pervasive::arbitrary()
                },
        ),
    }
}

#[via_fn]
proof fn node_view_of_decreases(n: NodeRecord) {
    broadcast use vstd::seq::axiom_seq_index_decreases, vstd::std_specs::vec::axiom_vec_decreases_to_view;

    assert forall|i: int| 0 <= i < n.nested_list@.len() implies decreases_to!(
        n => n.nested_list@[i]
    ) by {
        assert(decreases_to!(n => n.nested_list));
        assert(decreases_to!(n.nested_list => n.nested_list@));
        assert(decreases_to!(n.nested_list@ => n.nested_list@[i]));
    };
}

impl View for NodeRecord {
    type V = NodeView;

    open spec fn view(&self) -> NodeView {
        node_view_of(*self)
    }
}

/// The views of a list of records, in order.
pub open spec fn nodes_view(s: Seq<NodeRecord>) -> Seq<NodeView> {
    Seq::new(s.len(), |i: int| s[i]@)
}

/// An option of a record, viewed.
pub open spec fn opt_node_view(n: Option<NodeRecord>) -> Option<NodeView> {
    match n {
        Some(x) => Some(x@),
        None => None,
    }
}

// ---------------------------------------------------------------------------
// The header fields of the record that starts at `pos`.
// ---------------------------------------------------------------------------

/// The declared end offset of the record at `pos`: the stream position at
/// which the record must end exactly. A value of 0 marks a terminator
/// instead of a record.
pub open spec fn node_end_offset(b: Seq<u8>, pos: int) -> int {
    le32_at(b, pos)
}

/// The declared number of properties of the record at `pos`.
pub open spec fn node_property_count(b: Seq<u8>, pos: int) -> int {
    le32_at(b, pos + 4)
}

/// The declared byte length of the properties of the record at `pos`.
pub open spec fn node_property_byte_length(b: Seq<u8>, pos: int) -> int {
    le32_at(b, pos + 8)
}

/// The length of the name of the record at `pos`.
pub open spec fn node_name_length(b: Seq<u8>, pos: int) -> int {
    b[pos + 12] as int
}

/// The position at which the properties of the record at `pos` begin.
pub open spec fn node_properties_start(b: Seq<u8>, pos: int) -> int {
    pos + 13 + node_name_length(b, pos)
}

/// The size of the all-zero block that closes every record with nested
/// children: three 4-byte zero fields plus one zero byte, mirroring the
/// record-header shape.
pub const SENTINEL_BLOCK_LENGTH: usize = 13;

/// The name stored at `pos`: a one-byte length prefix followed by that
/// many UTF-8 bytes.
pub open spec fn spec_parse_name(b: Seq<u8>, pos: int) -> Result<
    (Seq<char>, int),
    ParseErrorKind,
> {
    if pos + 1 > b.len() {
        Err(ParseErrorKind::EndOfData)
    } else {
        let p = pos + 1 + b[pos];
        if p > b.len() {
            Err(ParseErrorKind::EndOfData)
        } else {
            let bytes = b.subrange(pos + 1, p);
            if valid_utf8(bytes) {
                Ok((decode_utf8(bytes), p))
            } else {
                Err(ParseErrorKind::Format)
            }
        }
    }
}

/// Reads a one-byte-length-prefixed UTF-8 name.
pub fn parse_string(data: &Vec<u8>, pos: usize) -> (r: Result<(String, usize), ParseError>)
    ensures
        match r {
            Ok((s, p)) => spec_parse_name(data@, pos as int) == Ok::<_, ParseErrorKind>((
                s@,
                p as int,
            )) && p <= data@.len(),
            Err(e) => spec_parse_name(data@, pos as int) == Err::<(Seq<char>, int), _>(e.kind()),
        },
{
    let (length, p) = match read_u8_at(data, pos) {
        Ok(x) => x,
        Err(e) => { return Err(e) },
    };
    let (bytes, p2) = match copy_range(data, p, length as usize) {
        Ok(x) => x,
        Err(e) => { return Err(e) },
    };
    match string_from_utf8(bytes) {
        Some(s) => Ok((s, p2)),
        None => Err(ParseError::FormatError),
    }
}

// ---------------------------------------------------------------------------
// The recursive record parser at specification level.
//
// A record is: end offset, property count, property byte length, a
// length-prefixed name, the properties, then optionally nested records
// closed by an all-zero sentinel block, ending exactly at the declared end
// offset.
// ---------------------------------------------------------------------------

/// The record stored at `pos`: `None` for a terminator, or the decoded
/// record and the position after it, which a well-formed record declares
/// as its end offset.
pub open spec fn spec_parse_node(b: Seq<u8>, pos: int) -> Result<
    (Option<NodeView>, int),
    ParseErrorKind,
>
    decreases b.len() - pos, 0int,
{
    if pos + 4 > b.len() {
        Err(ParseErrorKind::EndOfData)
    } else {
        let end = node_end_offset(b, pos);
        if end == 0 {
            Ok((None, pos + 4))
        } else if end >= b.len() {
            Err(ParseErrorKind::Validation)
        } else if pos + 13 > b.len() {
            Err(ParseErrorKind::EndOfData)
        } else {
            let p1 = node_properties_start(b, pos);
            if p1 > b.len() {
                Err(ParseErrorKind::EndOfData)
            } else {
                let name_bytes = b.subrange(pos + 13, p1);
                if !valid_utf8(name_bytes) {
                    Err(ParseErrorKind::Format)
                } else {
                    let name = decode_utf8(name_bytes);
                    let plen = node_property_byte_length(b, pos);
                    if p1 + plen > b.len() {
                        Err(ParseErrorKind::Validation)
                    } else {
                        match spec_parse_properties(b, p1, node_property_count(b, pos)) {
                            Err(e) => Err(e),
                            Ok((props, p2)) => {
                                if p2 != p1 + plen {
                                    Err(ParseErrorKind::Validation)
                                } else if p2 < end {
                                    if end - p2 < 13 {
                                        Err(ParseErrorKind::Validation)
                                    } else {
                                        match spec_parse_node_list(b, p2, end) {
                                            Err(e) => Err(e),
                                            Ok((children, p3)) => {
                                                if p3 + 13 > b.len() {
                                                    Err(ParseErrorKind::EndOfData)
                                                } else if exists|i: int|
                                                    p3 <= i < p3 + 13 && b[i] != 0 {
                                                    Err(ParseErrorKind::Validation)
                                                } else if p3 + 13 != end {
                                                    Err(ParseErrorKind::Validation)
                                                } else {
                                                    Ok(
                                                        (
                                                            Some(
                                                                NodeView {
                                                                    name,
                                                                    properties: props,
                                                                    children,
                                                                },
                                                            ),
                                                            end,
                                                        ),
                                                    )
                                                }
                                            },
                                        }
                                    }
                                } else if p2 != end {
                                    Err(ParseErrorKind::Validation)
                                } else {
                                    Ok(
                                        (
                                            Some(
                                                NodeView {
                                                    name,
                                                    properties: props,
                                                    children: Seq::empty(),
                                                },
                                            ),
                                            end,
                                        ),
                                    )
                                }
                            },
                        }
                    }
                }
            }
        }
    }
}

/// The nested records between `pos` and the sentinel block that precedes
/// `end`: records are read while the position is below `end - 13`, and
/// terminators contribute nothing.
pub open spec fn spec_parse_node_list(b: Seq<u8>, pos: int, end: int) -> Result<
    (Seq<NodeView>, int),
    ParseErrorKind,
>
    decreases b.len() - pos, 1int,
{
    if pos >= end - 13 {
        Ok((Seq::empty(), pos))
    } else {
        match spec_parse_node(b, pos) {
            Err(e) => Err(e),
            Ok((maybe_node, p)) => {
                if p <= pos || p > b.len() {
                    // Never taken: a record or terminator always advances the
                    // position and stays within the input.
                    Err(ParseErrorKind::Validation)
                } else {
                    match spec_parse_node_list(b, p, end) {
                        Err(e) => Err(e),
                        Ok((rest, pf)) => match maybe_node {
                            Some(n) => Ok((seq![n] + rest, pf)),
                            None => Ok((rest, pf)),
                        },
                    }
                }
            },
        }
    }
}

/// The top-level record list: records are read until a terminator or the
/// end of the input, and the first failure aborts the sequence.
pub open spec fn spec_parse_nodes(b: Seq<u8>, pos: int) -> Result<
    (Seq<NodeView>, int),
    ParseErrorKind,
>
    decreases b.len() - pos,
{
    if pos >= b.len() {
        Ok((Seq::empty(), pos))
    } else {
        match spec_parse_node(b, pos) {
            Err(e) => Err(e),
            Ok((None, p)) => Ok((Seq::empty(), p)),
            Ok((Some(n), p)) => {
                if p <= pos || p > b.len() {
                    // Never taken: a record always advances the position and
                    // stays within the input.
                    Err(ParseErrorKind::Validation)
                } else {
                    match spec_parse_nodes(b, p) {
                        Err(e) => Err(e),
                        Ok((rest, pf)) => Ok((seq![n] + rest, pf)),
                    }
                }
            },
        }
    }
}

// ---------------------------------------------------------------------------
// Laws of the record parser.
// ---------------------------------------------------------------------------

/// Every decoded record ends exactly where it said it would: the input
/// position after its properties, children, and sentinel block equals the
/// end offset declared in its first field.
pub proof fn lemma_node_ends_at_declared_offset(b: Seq<u8>, pos: int)
    requires
        spec_parse_node(b, pos) matches Ok((Some(_), _)),
    ensures
        spec_parse_node(b, pos) matches Ok((_, p)) && p == node_end_offset(b, pos),
{
}

/// The guards of the record at `pos` that precede its property sequence:
/// a non-terminator end offset inside the input, a complete header, a
/// valid UTF-8 name, and a property span inside the input.
pub open spec fn node_prelude_ok(b: Seq<u8>, pos: int) -> bool {
    &&& pos + 4 <= b.len()
    &&& node_end_offset(b, pos) != 0
    &&& node_end_offset(b, pos) < b.len()
    &&& pos + 13 <= b.len()
    &&& node_properties_start(b, pos) <= b.len()
    &&& valid_utf8(b.subrange(pos + 13, node_properties_start(b, pos)))
    &&& node_properties_start(b, pos) + node_property_byte_length(b, pos) <= b.len()
}

/// Decoding a record's properties consumes exactly its declared property
/// byte length.
pub proof fn lemma_properties_consume_declared_length(b: Seq<u8>, pos: int)
    requires
        spec_parse_node(b, pos) matches Ok((Some(_), _)),
    ensures
        spec_parse_properties(b, node_properties_start(b, pos), node_property_count(b, pos))
            matches Ok((_, p2)) && p2 == node_properties_start(b, pos)
            + node_property_byte_length(b, pos),
{
}

/// A property sequence that consumes anything other than the declared
/// property byte length makes the record parse fail.
pub proof fn lemma_property_length_mismatch_rejected(b: Seq<u8>, pos: int)
    requires
        node_prelude_ok(b, pos),
        spec_parse_properties(b, node_properties_start(b, pos), node_property_count(b, pos))
            matches Ok((_, p2)) && p2 != node_properties_start(b, pos)
            + node_property_byte_length(b, pos),
    ensures
        spec_parse_node(b, pos) == Err::<(Option<NodeView>, int), _>(ParseErrorKind::Validation),
{
}

/// Every record decoded with nested children had an all-zero sentinel
/// block: the 13 bytes just below its declared end offset are all zero,
/// so a single non-zero byte anywhere in the block makes the parse fail.
pub proof fn lemma_sentinel_all_zero(b: Seq<u8>, pos: int)
    requires
        spec_parse_node(b, pos) matches Ok((Some(_), _)),
        node_properties_start(b, pos) + node_property_byte_length(b, pos) < node_end_offset(
            b,
            pos,
        ),
    ensures
        forall|i: int|
            node_end_offset(b, pos) - 13 <= i < node_end_offset(b, pos) ==> b[i] == 0,
{
    let end = node_end_offset(b, pos);
    let p1 = node_properties_start(b, pos);
    let p2 = p1 + node_property_byte_length(b, pos);
    match spec_parse_node_list(b, p2, end) {
        Ok((_, p3)) => {
            assert(p3 + 13 == end);
            assert(!(exists|i: int| p3 <= i < p3 + 13 && b[i] != 0));
            assert forall|i: int| end - 13 <= i < end implies b[i] == 0 by {
                assert(p3 <= i < p3 + 13);
            }
        },
        Err(_) => {},
    }
}

// ---------------------------------------------------------------------------
// The executable parser.
// ---------------------------------------------------------------------------

/// Reads the record at `pos`: `None` for a terminator, or the fully
/// decoded record, whose nested records are read recursively and whose
/// declared end offset is reached exactly.
#[verifier::loop_isolation(false)]
#[verifier::rlimit(50)]
pub fn parse_node(data: &Vec<u8>, pos: usize) -> (r: Result<
    (Option<NodeRecord>, usize),
    ParseError,
>)
    ensures
        match r {
            Ok((n, p)) => spec_parse_node(data@, pos as int) == Ok::<_, ParseErrorKind>((
                opt_node_view(n),
                p as int,
            )) && pos < p <= data@.len(),
            Err(e) => spec_parse_node(data@, pos as int) == Err::<(Option<NodeView>, int), _>(
                e.kind(),
            ),
        },
    decreases data@.len() - pos,
{
    let (end_offset, p_term) = match read_u32_at(data, pos) {
        Ok(x) => x,
        Err(e) => { return Err(e) },
    };
    if end_offset == 0 {
        // A zero end offset is the terminator of a sibling list, not a
        // record.
        return Ok((None, p_term));
    }
    let end = end_offset as usize;
    if end >= data.len() {
        return Err(ParseError::ValidationError("end offset is outside bounds".to_owned()));
    }
    let (num_properties, _) = match read_u32_at(data, pos + 4) {
        Ok(x) => x,
        Err(e) => { return Err(e) },
    };
    let (property_length, _) = match read_u32_at(data, pos + 8) {
        Ok(x) => x,
        Err(e) => { return Err(e) },
    };
    let (name, p1) = match parse_string(data, pos + 12) {
        Ok(x) => x,
        Err(e) => { return Err(e) },
    };
    proof {
        assert(pos + 13 <= data@.len());
        assert(p1 == node_properties_start(data@, pos as int));
        assert(valid_utf8(data@.subrange(pos + 13, p1 as int)));
        assert(name@ == decode_utf8(data@.subrange(pos + 13, p1 as int)));
    }
    let plen = property_length as usize;
    if plen > data.len() - p1 {
        return Err(ParseError::ValidationError("property length out of bounds".to_owned()));
    }
    let (properties, p2) = match parse_properties(data, p1, num_properties) {
        Ok(x) => x,
        Err(e) => { return Err(e) },
    };
    if p2 != p1 + plen {
        return Err(
            ParseError::ValidationError(
                "did not read correct amount of bytes when parsing properties".to_owned(),
            ),
        );
    }
    proof {
        assert(spec_parse_properties(
            data@,
            p1 as int,
            node_property_count(data@, pos as int),
        ) == Ok::<_, ParseErrorKind>((props_view(properties@), p2 as int)));
    }
    let mut child_nodes: Vec<NodeRecord> = Vec::new();
    if p2 < end {
        if end - p2 < SENTINEL_BLOCK_LENGTH {
            return Err(
                ParseError::ValidationError("insufficient amount of bytes at end of node".to_owned()),
            );
        }
        let stop = end - SENTINEL_BLOCK_LENGTH;
        let mut cur = p2;
        while cur < stop
            invariant
                data@.len() <= usize::MAX,
                pos < p2 <= cur <= data@.len(),
                p2 < end < data@.len(),
                13 <= end,
                stop == end - 13,
                spec_parse_node_list(data@, p2 as int, end as int) == (
                match spec_parse_node_list(data@, cur as int, end as int) {
                    Ok((rest, pf)) => Ok::<_, ParseErrorKind>((
                        nodes_view(child_nodes@) + rest,
                        pf,
                    )),
                    Err(e) => Err::<(Seq<NodeView>, int), _>(e),
                }),
            decreases data@.len() - cur,
        {
            let ghost prev_children = child_nodes@;
            let ghost prev_cur = cur as int;
            match parse_node(data, cur) {
                Ok((maybe_node, p)) => {
                    proof {
                        let sp = spec_parse_node_list(data@, p as int, end as int);
                        match sp {
                            Ok((rest2, pf)) => {
                                match maybe_node {
                                    Some(ref n) => {
                                        assert(spec_parse_node_list(data@, prev_cur, end as int)
                                            == Ok::<_, ParseErrorKind>((seq![n@] + rest2, pf)));
                                        assert(nodes_view(prev_children.push(*n)) =~= nodes_view(
                                            prev_children,
                                        ) + seq![n@]);
                                        assert((nodes_view(prev_children) + seq![n@]) + rest2
                                            =~= nodes_view(prev_children) + (seq![n@] + rest2));
                                    },
                                    None => {
                                        assert(spec_parse_node_list(data@, prev_cur, end as int)
                                            == Ok::<_, ParseErrorKind>((rest2, pf)));
                                    },
                                }
                            },
                            Err(_) => {},
                        }
                    }
                    if let Some(n) = maybe_node {
                        child_nodes.push(n);
                    }
                    cur = p;
                },
                Err(e) => {
                    proof {
                        assert(spec_parse_node_list(data@, prev_cur, end as int) == Err::<
                            (Seq<NodeView>, int),
                            _,
                        >(e.kind()));
                    }
                    return Err(e);
                },
            }
        }
        proof {
            assert(spec_parse_node_list(data@, cur as int, end as int) == Ok::<
                _,
                ParseErrorKind,
            >((Seq::<NodeView>::empty(), cur as int)));
            assert(nodes_view(child_nodes@) + Seq::<NodeView>::empty() =~= nodes_view(
                child_nodes@,
            ));
        }
        if data.len() - cur < SENTINEL_BLOCK_LENGTH {
            return Err(ParseError::UnexpectedEndOfData);
        }
        let mut k: usize = 0;
        while k < SENTINEL_BLOCK_LENGTH
            invariant
                k <= 13,
                cur + 13 <= data@.len(),
                forall|j: int| 0 <= j < k ==> #[trigger] data@[cur + j] == 0,
            decreases 13 - k,
        {
            if data[cur + k] != 0 {
                return Err(
                    ParseError::ValidationError("sentinel block contains non-zero values".to_owned()),
                );
            }
            k = k + 1;
        }
        if cur + SENTINEL_BLOCK_LENGTH != end {
            return Err(ParseError::ValidationError("end offset not reached.".to_owned()));
        }
        let record = NodeRecord { properties, nested_list: child_nodes, name };
        proof {
            assert forall|i: int| cur <= i < cur + 13 implies data@[i] == 0 by {
                assert(data@[cur + (i - cur)] == 0);
            }
            assert(record@.children =~= nodes_view(record.nested_list@));
            assert(record@ == (NodeView {
                name: record.name@,
                properties: props_view(record.properties@),
                children: nodes_view(record.nested_list@),
            }));
            assert(spec_parse_node(data@, pos as int) == Ok::<_, ParseErrorKind>((
                Some(record@),
                end as int,
            )));
        }
        Ok((Some(record), end))
    } else {
        if p2 != end {
            return Err(ParseError::ValidationError("end offset not reached.".to_owned()));
        }
        let record = NodeRecord { properties, nested_list: child_nodes, name };
        proof {
            assert(record@.children =~= Seq::<NodeView>::empty());
            assert(record@ == (NodeView {
                name: record.name@,
                properties: props_view(record.properties@),
                children: Seq::<NodeView>::empty(),
            }));
            assert(spec_parse_node(data@, pos as int) == Ok::<_, ParseErrorKind>((
                Some(record@),
                p2 as int,
            )));
        }
        Ok((Some(record), p2))
    }
}

/// Reads the top-level record list: records until a terminator or the end
/// of the input, and the position after them.
#[verifier::loop_isolation(false)]
#[verifier::rlimit(50)]
pub fn parse_nodes(data: &Vec<u8>, pos: usize) -> (r: Result<(Vec<NodeRecord>, usize), ParseError>)
    ensures
        match r {
            Ok((v, p)) => spec_parse_nodes(data@, pos as int) == Ok::<_, ParseErrorKind>((
                nodes_view(v@),
                p as int,
            )),
            Err(e) => spec_parse_nodes(data@, pos as int) == Err::<(Seq<NodeView>, int), _>(
                e.kind(),
            ),
        },
{
    let mut result: Vec<NodeRecord> = Vec::new();
    let mut cur = pos;
    let mut terminated = false;
    while !terminated && cur < data.len()
        invariant
            cur <= data@.len() || cur == pos,
            if terminated {
                spec_parse_nodes(data@, pos as int) == Ok::<_, ParseErrorKind>((
                    nodes_view(result@),
                    cur as int,
                ))
            } else {
                spec_parse_nodes(data@, pos as int) == (
                match spec_parse_nodes(data@, cur as int) {
                    Ok((rest, pf)) => Ok::<_, ParseErrorKind>((nodes_view(result@) + rest, pf)),
                    Err(e) => Err::<(Seq<NodeView>, int), _>(e),
                })
            },
        decreases data@.len() - cur + (if terminated { 0int } else { 1int }),
    {
        let ghost prev_result = result@;
        let ghost prev_cur = cur as int;
        match parse_node(data, cur) {
            Ok((Some(n), p)) => {
                proof {
                    let sp = spec_parse_nodes(data@, p as int);
                    match sp {
                        Ok((rest2, pf)) => {
                            assert(spec_parse_nodes(data@, prev_cur) == Ok::<_, ParseErrorKind>((
                                seq![n@] + rest2,
                                pf,
                            )));
                            assert(nodes_view(prev_result.push(n)) =~= nodes_view(prev_result)
                                + seq![n@]);
                            assert((nodes_view(prev_result) + seq![n@]) + rest2 =~= nodes_view(
                                prev_result,
                            ) + (seq![n@] + rest2));
                        },
                        Err(_) => {},
                    }
                }
                result.push(n);
                cur = p;
            },
            Ok((None, p)) => {
                proof {
                    assert(spec_parse_nodes(data@, prev_cur) == Ok::<_, ParseErrorKind>((
                        Seq::<NodeView>::empty(),
                        p as int,
                    )));
                    assert(nodes_view(result@) + Seq::<NodeView>::empty() =~= nodes_view(
                        result@,
                    ));
                }
                cur = p;
                terminated = true;
            },
            Err(e) => {
                proof {
                    assert(spec_parse_nodes(data@, prev_cur) == Err::<(Seq<NodeView>, int), _>(
                        e.kind(),
                    ));
                }
                return Err(e);
            },
        }
    }
    proof {
        if !terminated {
            assert(spec_parse_nodes(data@, cur as int) == Ok::<_, ParseErrorKind>((
                Seq::<NodeView>::empty(),
                cur as int,
            )));
            assert(nodes_view(result@) + Seq::<NodeView>::empty() =~= nodes_view(result@));
        }
    }
    Ok((result, cur))
}

} // verus!
