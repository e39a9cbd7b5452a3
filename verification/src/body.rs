//! Decoders for the bodies of the frames that hold a record.

use vstd::prelude::*;
use vstd::slice::slice_subrange;
use crate::data::BBox;
use crate::data::ElementType;
use crate::data::MemberView;
use crate::data::Node;
use crate::data::NodeData;
use crate::data::NodeView;
use crate::data::Relation;
use crate::data::RelationData;
use crate::data::RelationMember;
use crate::data::RelationView;
use crate::data::Timestamp;
use crate::data::Way;
use crate::data::WayData;
use crate::data::WayView;
use crate::error::DecodeError;
use crate::format::base_member;
use crate::format::base_place;
use crate::format::base_ref;
use crate::format::shrink;
use crate::format::spec_bbox;
use crate::format::spec_member;
use crate::format::spec_member_kind;
use crate::format::spec_members;
use crate::format::spec_node;
use crate::format::spec_node_rest;
use crate::format::spec_refs;
use crate::format::spec_relation;
use crate::format::spec_relation_rest;
use crate::format::spec_timestamp;
use crate::format::spec_way;
use crate::format::spec_way_rest;
use crate::format::wrap32;
use crate::parse::cstring;
use crate::parse::info;
use crate::parse::rest;
use crate::parse::signed;
use crate::parse::tags;
use crate::parse::unsigned;
use crate::strings::StringTable;
use crate::tags::TagMap;
use crate::tags::Tags;
use crate::text::text;

verus! {

/// Cuts `x` to 32 bits.
fn cut32(x: i64) -> (r: i32)
    ensures
        r == wrap32(x as int),
{
    let r: i32 = #[verifier::truncate] (x as i32);
    assert(r == wrap32(x as int)) by (bit_vector)
        requires
            r == x as i32,
    ;
    r
}

/// Moves `base` by `delta`, within 32 bits.
fn shift32(base: i32, delta: i64) -> (r: i32)
    ensures
        r == wrap32(base + delta),
{
    let sum: i64 = delta.wrapping_add(base as i64);
    let r: i32 = #[verifier::truncate] (sum as i32);
    assert(r == wrap32(base + delta)) by (bit_vector)
        requires
            sum == vstd::wrapping::i64_specs::wrapping_add(delta, base as i64),
            r == sum as i32,
    ;
    r
}

/// What is left of a section of `section` bytes once `n` of them are read.
fn shrunk(section: u64, n: usize) -> (left: u64)
    ensures
        left == shrink(section as nat, n as int),
{
    if section <= n as u64 {
        0
    } else {
        section - n as u64
    }
}

/// The place of `prev`, or 0 and 0.
fn last_place(prev: &Option<Node>) -> (place: NodeData)
    ensures
        place == base_place(prev.deep_view()),
{
    match prev {
        Some(before) => match before.data {
            Some(data) => data,
            None => NodeData { longitude: 0, latitude: 0 },
        },
        None => NodeData { longitude: 0, latitude: 0 },
    }
}

/// Reads what follows the head in the body of a node.
fn node_rest(buf: &[u8], base: NodeData, strings: &mut StringTable) -> (r: Result<
    (NodeData, Tags),
    DecodeError,
>)
    ensures
        final(strings)@ == spec_node_rest(buf@, base, old(strings)@).strings,
        match r {
            Ok((data, tags)) => spec_node_rest(buf@, base, old(strings)@).result == Ok::<
                (NodeData, TagMap),
                DecodeError,
            >((data, tags@)),
            Err(e) => spec_node_rest(buf@, base, old(strings)@).result == Err::<
                (NodeData, TagMap),
                DecodeError,
            >(e),
        },
{
    let (n1, east) = match signed(buf) {
        Ok(found) => found,
        Err(e) => {
            return Err(e);
        },
    };
    let (n2, north) = match signed(rest(buf, n1)) {
        Ok(found) => found,
        Err(e) => {
            return Err(e);
        },
    };
    let data = NodeData {
        longitude: shift32(base.longitude, east),
        latitude: shift32(base.latitude, north),
    };
    match tags(rest(buf, n1 + n2), strings) {
        Ok((_, tags)) => Ok((data, tags)),
        Err(e) => Err(e),
    }
}

/// Decodes the body of a node frame. `prev` is the node that was decoded
/// before this one, if any: identifier, timestamp, changeset and place are
/// deltas against it.
pub fn node(buf: &[u8], prev: &Option<Node>, strings: &mut StringTable) -> (r: Result<
    Node,
    DecodeError,
>)
    ensures
        final(strings)@ == spec_node(buf@, prev.deep_view(), old(strings)@).strings,
        match r {
            Ok(node) => spec_node(buf@, prev.deep_view(), old(strings)@).result == Ok::<
                NodeView,
                DecodeError,
            >(node@),
            Err(e) => spec_node(buf@, prev.deep_view(), old(strings)@).result == Err::<
                NodeView,
                DecodeError,
            >(e),
        },
{
    let head = match prev {
        Some(before) => info(buf, &Some(before.id), &before.info, strings),
        None => info(buf, &None, &None, strings),
    };
    let (n, (id, info)) = match head {
        Ok(found) => found,
        Err(e) => {
            return Err(e);
        },
    };
    if n == buf.len() {
        return Ok(Node { id, info, data: None, tags: Tags::new() });
    }
    match node_rest(rest(buf, n), last_place(prev), strings) {
        Ok((data, tags)) => Ok(Node { id, info, data: Some(data), tags }),
        Err(e) => Err(e),
    }
}

/// Reads the references of a way from the start of `buf` until `section`
/// bytes are taken. Gives the number of bytes taken and the references.
fn refs(buf: &[u8], section: u64, base: u64) -> (r: Result<(usize, Vec<u64>), DecodeError>)
    ensures
        match r {
            Ok((n, refs)) => spec_refs(buf@, section as nat, base, Seq::empty()) == Ok::<
                (Seq<u8>, Seq<u64>),
                DecodeError,
            >((buf@.skip(n as int), refs@)) && n <= buf@.len(),
            Err(e) => spec_refs(buf@, section as nat, base, Seq::empty()) == Err::<
                (Seq<u8>, Seq<u64>),
                DecodeError,
            >(e),
        },
{
    let mut refs: Vec<u64> = Vec::new();
    let mut last = base;
    let mut left = section;
    let mut offset: usize = 0;
    assert(buf@.skip(0) =~= buf@);
    while left > 0
        invariant
            offset <= buf@.len(),
            spec_refs(buf@.skip(offset as int), left as nat, last, refs@) == spec_refs(
                buf@,
                section as nat,
                base,
                Seq::empty(),
            ),
        decreases left,
    {
        match signed(rest(buf, offset)) {
            Ok((n, by)) => {
                last = last.wrapping_add_signed(by);
                refs.push(last);
                left = shrunk(left, n);
                assert(buf@.skip(offset as int).skip(n as int) =~= buf@.skip(offset + n));
                offset += n;
            },
            Err(e) => {
                return Err(e);
            },
        }
    }
    Ok((offset, refs))
}

/// The last reference of `prev`, or 0.
fn last_ref(prev: &Option<Way>) -> (id: u64)
    ensures
        id == base_ref(prev.deep_view()),
{
    match prev {
        Some(before) => match &before.data {
            Some(data) => if data.refs.len() > 0 {
                data.refs[data.refs.len() - 1]
            } else {
                0
            },
            None => 0,
        },
        None => 0,
    }
}

/// Reads what follows the head in the body of a way.
fn way_rest(buf: &[u8], base: u64, strings: &mut StringTable) -> (r: Result<
    (Vec<u64>, Tags),
    DecodeError,
>)
    ensures
        final(strings)@ == spec_way_rest(buf@, base, old(strings)@).strings,
        match r {
            Ok((refs, tags)) => spec_way_rest(buf@, base, old(strings)@).result == Ok::<
                (Seq<u64>, TagMap),
                DecodeError,
            >((refs@, tags@)),
            Err(e) => spec_way_rest(buf@, base, old(strings)@).result == Err::<
                (Seq<u64>, TagMap),
                DecodeError,
            >(e),
        },
{
    let (n, section) = match unsigned(buf) {
        Ok(found) => found,
        Err(e) => {
            return Err(e);
        },
    };
    let (n1, refs) = match refs(rest(buf, n), section, base) {
        Ok(found) => found,
        Err(e) => {
            return Err(e);
        },
    };
    assert(buf@.skip(n as int).skip(n1 as int) =~= buf@.skip(n + n1));
    match tags(rest(buf, n + n1), strings) {
        Ok((_, tags)) => Ok((refs, tags)),
        Err(e) => Err(e),
    }
}

/// Decodes the body of a way frame. `prev` is the way that was decoded before
/// this one, if any: identifier, timestamp and changeset are deltas against
/// it, and the first reference is a delta against its last reference.
pub fn way(buf: &[u8], prev: &Option<Way>, strings: &mut StringTable) -> (r: Result<
    Way,
    DecodeError,
>)
    ensures
        final(strings)@ == spec_way(buf@, prev.deep_view(), old(strings)@).strings,
        match r {
            Ok(way) => spec_way(buf@, prev.deep_view(), old(strings)@).result == Ok::<
                WayView,
                DecodeError,
            >(way@),
            Err(e) => spec_way(buf@, prev.deep_view(), old(strings)@).result == Err::<
                WayView,
                DecodeError,
            >(e),
        },
{
    let head = match prev {
        Some(before) => info(buf, &Some(before.id), &before.info, strings),
        None => info(buf, &None, &None, strings),
    };
    let (n, (id, info)) = match head {
        Ok(found) => found,
        Err(e) => {
            return Err(e);
        },
    };
    if n == buf.len() {
        return Ok(Way { id, info, data: None, tags: Tags::new() });
    }
    match way_rest(rest(buf, n), last_ref(prev), strings) {
        Ok((refs, tags)) => Ok(Way { id, info, data: Some(WayData { refs }), tags }),
        Err(e) => Err(e),
    }
}

/// Reads what a member's string says: the kind of the member and its role.
fn member_kind(string: &[u8]) -> (r: Result<(ElementType, String), DecodeError>)
    ensures
        match r {
            Ok((element_type, role)) => spec_member_kind(string@) == Ok::<
                (ElementType, Seq<char>),
                DecodeError,
            >((element_type, role@)),
            Err(e) => spec_member_kind(string@) == Err::<(ElementType, Seq<char>), DecodeError>(e),
        },
{
    let first: u8 = if string.len() > 0 {
        string[0]
    } else {
        0
    };
    let element_type = if first == 0x30 {
        ElementType::Node()
    } else if first == 0x31 {
        ElementType::Way()
    } else if first == 0x32 {
        ElementType::Relation()
    } else {
        return Err(DecodeError::UnexpectedElementType { received: first });
    };
    match text(rest(string, 1)) {
        Ok(role) => Ok((element_type, role)),
        Err(e) => Err(e),
    }
}

/// Reads one member of a relation at the start of `buf`.
fn member(buf: &[u8], base: u64, strings: &mut StringTable) -> (r: Result<
    (usize, RelationMember),
    DecodeError,
>)
    ensures
        final(strings)@ == spec_member(buf@, base, old(strings)@).strings,
        match r {
            Ok((n, member)) => spec_member(buf@, base, old(strings)@).result == Ok::<
                (int, MemberView),
                DecodeError,
            >((n as int, member@)) && 1 <= n <= buf@.len(),
            Err(e) => spec_member(buf@, base, old(strings)@).result == Err::<
                (int, MemberView),
                DecodeError,
            >(e),
        },
{
    let (n, by) = match signed(buf) {
        Ok(found) => found,
        Err(e) => {
            return Err(e);
        },
    };
    let id = base.wrapping_add_signed(by);
    let tail = rest(buf, n);
    let (n1, selector) = match unsigned(tail) {
        Ok(found) => found,
        Err(e) => {
            return Err(e);
        },
    };
    if selector == 0 {
        let (n2, string) = cstring(rest(tail, n1));
        let nothing = slice_subrange(buf, 0, 0);
        assert(nothing@ =~= Seq::<u8>::empty());
        strings.insert_if_eligible(string, nothing);
        match member_kind(string) {
            Ok((element_type, role)) => Ok((n + n1 + n2, RelationMember { id, element_type, role })),
            Err(e) => Err(e),
        }
    } else {
        let (string, _) = match strings.lookup(selector) {
            Ok(pair) => pair,
            Err(e) => {
                return Err(e);
            },
        };
        match member_kind(string) {
            Ok((element_type, role)) => Ok((n + n1, RelationMember { id, element_type, role })),
            Err(e) => Err(e),
        }
    }
}

/// Reads the members of a relation from the start of `buf` until `section`
/// bytes are taken. Gives the number of bytes taken and the members.
fn members(buf: &[u8], section: u64, base: u64, strings: &mut StringTable) -> (r: Result<
    (usize, Vec<RelationMember>),
    DecodeError,
>)
    ensures
        final(strings)@ == spec_members(
            buf@,
            section as nat,
            base,
            old(strings)@,
            Seq::empty(),
        ).strings,
        match r {
            Ok((n, members)) => spec_members(
                buf@,
                section as nat,
                base,
                old(strings)@,
                Seq::empty(),
            ).result == Ok::<(Seq<u8>, Seq<MemberView>), DecodeError>(
                (buf@.skip(n as int), members.deep_view()),
            ) && n <= buf@.len(),
            Err(e) => spec_members(buf@, section as nat, base, old(strings)@, Seq::empty()).result
                == Err::<(Seq<u8>, Seq<MemberView>), DecodeError>(e),
        },
{
    let mut members: Vec<RelationMember> = Vec::new();
    let mut left = section;
    let mut offset: usize = 0;
    assert(buf@.skip(0) =~= buf@);
    assert(members.deep_view() =~= Seq::<MemberView>::empty());
    while left > 0
        invariant
            offset <= buf@.len(),
            spec_members(
                buf@.skip(offset as int),
                left as nat,
                base,
                strings@,
                members.deep_view(),
            ) == spec_members(buf@, section as nat, base, old(strings)@, Seq::empty()),
        decreases left,
    {
        match member(rest(buf, offset), base, strings) {
            Ok((n, found)) => {
                let ghost before = members.deep_view();
                let ghost added = found@;
                members.push(found);
                assert(members.deep_view() =~= before.push(added));
                left = shrunk(left, n);
                assert(buf@.skip(offset as int).skip(n as int) =~= buf@.skip(offset + n));
                offset += n;
            },
            Err(e) => {
                return Err(e);
            },
        }
    }
    Ok((offset, members))
}

/// The identifier of the last member of `prev`, or 0.
fn last_member(prev: &Option<Relation>) -> (id: u64)
    ensures
        id == base_member(prev.deep_view()),
{
    match prev {
        Some(before) => match &before.data {
            Some(data) => if data.members.len() > 0 {
                data.members[data.members.len() - 1].id
            } else {
                0
            },
            None => 0,
        },
        None => 0,
    }
}

/// Reads what follows the head in the body of a relation.
fn relation_rest(buf: &[u8], base: u64, strings: &mut StringTable) -> (r: Result<
    (Vec<RelationMember>, Tags),
    DecodeError,
>)
    ensures
        final(strings)@ == spec_relation_rest(buf@, base, old(strings)@).strings,
        match r {
            Ok((members, tags)) => spec_relation_rest(buf@, base, old(strings)@).result == Ok::<
                (Seq<MemberView>, TagMap),
                DecodeError,
            >((members.deep_view(), tags@)),
            Err(e) => spec_relation_rest(buf@, base, old(strings)@).result == Err::<
                (Seq<MemberView>, TagMap),
                DecodeError,
            >(e),
        },
{
    let (n, section) = match unsigned(buf) {
        Ok(found) => found,
        Err(e) => {
            return Err(e);
        },
    };
    let (n1, members) = match members(rest(buf, n), section, base, strings) {
        Ok(found) => found,
        Err(e) => {
            return Err(e);
        },
    };
    assert(buf@.skip(n as int).skip(n1 as int) =~= buf@.skip(n + n1));
    match tags(rest(buf, n + n1), strings) {
        Ok((_, tags)) => Ok((members, tags)),
        Err(e) => Err(e),
    }
}

/// Decodes the body of a relation frame. `prev` is the relation that was
/// decoded before this one, if any: identifier, timestamp and changeset are
/// deltas against it, and the identifier of every member is a delta against
/// that of its last member.
pub fn relation(buf: &[u8], prev: &Option<Relation>, strings: &mut StringTable) -> (r: Result<
    Relation,
    DecodeError,
>)
    ensures
        final(strings)@ == spec_relation(buf@, prev.deep_view(), old(strings)@).strings,
        match r {
            Ok(relation) => spec_relation(buf@, prev.deep_view(), old(strings)@).result == Ok::<
                RelationView,
                DecodeError,
            >(relation@),
            Err(e) => spec_relation(buf@, prev.deep_view(), old(strings)@).result == Err::<
                RelationView,
                DecodeError,
            >(e),
        },
{
    let head = match prev {
        Some(before) => info(buf, &Some(before.id), &before.info, strings),
        None => info(buf, &None, &None, strings),
    };
    let (n, (id, info)) = match head {
        Ok(found) => found,
        Err(e) => {
            return Err(e);
        },
    };
    if n == buf.len() {
        return Ok(Relation { id, info, data: None, tags: Tags::new() });
    }
    match relation_rest(rest(buf, n), last_member(prev), strings) {
        Ok((members, tags)) => Ok(
            Relation { id, info, data: Some(RelationData { members }), tags },
        ),
        Err(e) => Err(e),
    }
}

/// Decodes the body of a bounding-box frame.
pub fn bbox(buf: &[u8]) -> (r: Result<BBox, DecodeError>)
    ensures
        r == spec_bbox(buf@),
{
    let (n1, x1) = match signed(buf) {
        Ok(found) => found,
        Err(e) => {
            return Err(e);
        },
    };
    let (n2, y1) = match signed(rest(buf, n1)) {
        Ok(found) => found,
        Err(e) => {
            return Err(e);
        },
    };
    let (n3, x2) = match signed(rest(buf, n1 + n2)) {
        Ok(found) => found,
        Err(e) => {
            return Err(e);
        },
    };
    let (_, y2) = match signed(rest(buf, n1 + n2 + n3)) {
        Ok(found) => found,
        Err(e) => {
            return Err(e);
        },
    };
    Ok(BBox { x1: cut32(x1), y1: cut32(y1), x2: cut32(x2), y2: cut32(y2) })
}

/// Decodes the body of a timestamp frame.
pub fn timestamp(buf: &[u8]) -> (r: Result<Timestamp, DecodeError>)
    ensures
        r == spec_timestamp(buf@),
{
    match signed(buf) {
        Ok((_, time)) => Ok(Timestamp { time }),
        Err(e) => Err(e),
    }
}

} // verus!
