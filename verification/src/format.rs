//! What the bytes of a frame body mean.
//!
//! Each function here reads one part of a body from the start of the bytes it
//! is given and says what the part holds, how many bytes it takes, and what the
//! string table looks like afterwards. A body that ends before a separator or
//! a terminating NUL byte is read as if NUL bytes followed it; the number of
//! bytes taken never exceeds the number of bytes given.

use vstd::prelude::*;
use crate::data::BBox;
use crate::data::ElementType;
use crate::data::InfoView;
use crate::data::MemberView;
use crate::data::NodeData;
use crate::data::NodeView;
use crate::data::RelationView;
use crate::data::Timestamp;
use crate::data::WayView;
use crate::error::Context;
use crate::error::DecodeError;
use crate::strings::bounded;
use crate::strings::insert_if_eligible;
use crate::strings::lemma_capacity;
use crate::strings::lookup;
use crate::strings::Pair;
use crate::tags::TagMap;
use crate::text::spec_text;
use crate::varint::leading;
use crate::varint::lemma_leading_bounds;
use crate::varint::spec_signed;
use crate::varint::spec_unsigned;

verus! {

/// What reading a part of a body gives: the string table afterwards, and the
/// part or the error. The table is given for the error too: pairs that
/// entered it before the error was met stay in it.
pub struct Parsed<T> {
    pub strings: Seq<Pair>,
    pub result: Result<T, DecodeError>,
}

/// Reading stopped with `error`.
pub open spec fn failed<T>(strings: Seq<Pair>, error: DecodeError) -> Parsed<T> {
    Parsed { strings, result: Err(error) }
}

/// Reading gave `value`.
pub open spec fn done<T>(strings: Seq<Pair>, value: T) -> Parsed<T> {
    Parsed { strings, result: Ok(value) }
}

/// `base` moved by `delta`, within 64 bits: the sum, taken modulo 2^64.
pub open spec fn apply_delta(base: u64, delta: i64) -> u64 {
    let sum = base + delta;
    if sum > u64::MAX {
        (sum - 0x1_0000_0000_0000_0000) as u64
    } else if sum < 0 {
        (sum + 0x1_0000_0000_0000_0000) as u64
    } else {
        sum as u64
    }
}

/// `base` moved by `delta`, within a signed 64-bit number: the one number in
/// its range that differs from the sum by a multiple of 2^64.
pub open spec fn apply_delta_signed(base: i64, delta: i64) -> i64 {
    let sum = base + delta;
    if sum > i64::MAX {
        (sum - 0x1_0000_0000_0000_0000) as i64
    } else if sum < i64::MIN {
        (sum + 0x1_0000_0000_0000_0000) as i64
    } else {
        sum as i64
    }
}

/// The one signed 32-bit number that differs from `x` by a multiple of 2^32.
pub open spec fn wrap32(x: int) -> i32 {
    let low = x % 0x1_0000_0000;
    if low > i32::MAX {
        (low - 0x1_0000_0000) as i32
    } else {
        low as i32
    }
}

/// The byte of `buf` at `at`, or NUL behind the end of `buf`.
pub open spec fn byte_at(buf: Seq<u8>, at: int) -> u8 {
    if 0 <= at < buf.len() {
        buf[at]
    } else {
        0
    }
}

/// A NUL-terminated string at the start of `buf`: the number of bytes it
/// takes with its NUL byte, and the bytes in front of the NUL byte. Without a
/// NUL byte the string is all of `buf`.
pub open spec fn spec_cstring(buf: Seq<u8>) -> (int, Seq<u8>) {
    let n = leading(buf, 1) as int;
    (
        if n < buf.len() {
            n + 1
        } else {
            n
        },
        buf.take(n),
    )
}

/// The identifier that a delta is applied to: that of the previous record of
/// the same kind, or 0.
pub open spec fn base_id(prev_id: Option<u64>) -> u64 {
    match prev_id {
        Some(id) => id,
        None => 0,
    }
}

/// The timestamp that a delta is applied to: that of the previous record of
/// the same kind, or 0.
pub open spec fn base_timestamp(prev_info: Option<InfoView>) -> i64 {
    match prev_info {
        Some(info) => match info.timestamp {
            Some(timestamp) => timestamp,
            None => 0,
        },
        None => 0,
    }
}

/// The changeset that a delta is applied to: that of the previous record of
/// the same kind, or 0.
pub open spec fn base_changeset(prev_info: Option<InfoView>) -> u64 {
    match prev_info {
        Some(info) => match info.changeset {
            Some(changeset) => changeset,
            None => 0,
        },
        None => 0,
    }
}

/// An author written out in the body, from the uid on: the uid as a varint, a
/// NUL byte, and the user name with its NUL byte. Gives the bytes taken, the
/// uid and the name. The pair of the uid's bytes and the name's bytes is
/// offered to the table.
pub open spec fn spec_inline_author(buf: Seq<u8>, strings: Seq<Pair>) -> Parsed<
    (int, u64, Seq<char>),
> {
    match spec_unsigned(buf) {
        Err(e) => failed(strings, e),
        Ok((n, uid)) => {
            let separator = byte_at(buf, n);
            if separator != 0 {
                failed(
                    strings,
                    DecodeError::UnexpectedByte {
                        context: Context::UidSeparator,
                        expected: 0,
                        received: separator,
                    },
                )
            } else {
                let start = if n < buf.len() {
                    n + 1
                } else {
                    n
                };
                let (m, name) = spec_cstring(buf.skip(start));
                match spec_text(name) {
                    Err(e) => failed(strings, e),
                    Ok(user) => done(
                        insert_if_eligible(strings, buf.take(n), name),
                        (start + m, uid, user),
                    ),
                }
            }
        },
    }
}

/// An author taken from the table: the first string of the pair holds the uid
/// as a varint, the second the user name.
pub open spec fn spec_cached_author(strings: Seq<Pair>, selector: u64) -> Result<
    (u64, Seq<char>),
    DecodeError,
> {
    match lookup(strings, selector) {
        Err(e) => Err(e),
        Ok((first, second)) => match spec_unsigned(first) {
            Err(e) => Err(e),
            Ok((_, uid)) => match spec_text(second) {
                Err(e) => Err(e),
                Ok(user) => Ok((uid, user)),
            },
        },
    }
}

/// The author of a version: a selector, which is 0 in front of an author that
/// is written out and else refers to the table. Gives the bytes taken, the
/// uid and the user name.
pub open spec fn spec_author(buf: Seq<u8>, strings: Seq<Pair>) -> Parsed<(int, u64, Seq<char>)> {
    match spec_unsigned(buf) {
        Err(e) => failed(strings, e),
        Ok((n, selector)) => if selector == 0 {
            let inline = spec_inline_author(buf.skip(n), strings);
            match inline.result {
                Err(e) => failed(inline.strings, e),
                Ok((m, uid, user)) => done(inline.strings, (n + m, uid, user)),
            }
        } else {
            match spec_cached_author(strings, selector) {
                Err(e) => failed(strings, e),
                Ok((uid, user)) => done(strings, (n, uid, user)),
            }
        },
    }
}

/// Metadata that stops behind the version.
pub open spec fn version_only(version: u64) -> InfoView {
    InfoView { version: Some(version), timestamp: None, changeset: None, uid: None, user: None }
}

/// The part of the head of an element's body that follows a version other
/// than 0: the timestamp as a delta and, unless the timestamp is 0, the
/// changeset as a delta and the author. Gives the bytes taken and the
/// metadata.
pub open spec fn spec_info_tail(
    buf: Seq<u8>,
    version: u64,
    prev_info: Option<InfoView>,
    strings: Seq<Pair>,
) -> Parsed<(int, InfoView)> {
    match spec_signed(buf) {
        Err(e) => failed(strings, e),
        Ok((n1, by)) => {
            let timestamp = apply_delta_signed(base_timestamp(prev_info), by);
            if timestamp == 0 {
                done(strings, (n1, version_only(version)))
            } else {
                match spec_signed(buf.skip(n1)) {
                    Err(e) => failed(strings, e),
                    Ok((n2, by)) => {
                        let changeset = apply_delta(base_changeset(prev_info), by);
                        let author = spec_author(buf.skip(n1 + n2), strings);
                        match author.result {
                            Err(e) => failed(author.strings, e),
                            Ok((n3, uid, user)) => done(
                                author.strings,
                                (
                                    n1 + n2 + n3,
                                    InfoView {
                                        version: Some(version),
                                        timestamp: Some(timestamp),
                                        changeset: Some(changeset),
                                        uid: Some(uid),
                                        user: Some(user),
                                    },
                                ),
                            ),
                        }
                    },
                }
            }
        },
    }
}

/// The head of an element's body: the identifier as a delta, the version
/// and, unless the version is 0, what `spec_info_tail` reads. Gives the bytes
/// taken, the identifier and the metadata.
pub open spec fn spec_info(
    buf: Seq<u8>,
    prev_id: Option<u64>,
    prev_info: Option<InfoView>,
    strings: Seq<Pair>,
) -> Parsed<(int, u64, Option<InfoView>)> {
    match spec_signed(buf) {
        Err(e) => failed(strings, e),
        Ok((n1, by)) => {
            let id = apply_delta(base_id(prev_id), by);
            match spec_unsigned(buf.skip(n1)) {
                Err(e) => failed(strings, e),
                Ok((n2, version)) => if version == 0 {
                    done(strings, (n1 + n2, id, None))
                } else {
                    let tail = spec_info_tail(buf.skip(n1 + n2), version, prev_info, strings);
                    match tail.result {
                        Err(e) => failed(tail.strings, e),
                        Ok((n3, info)) => done(tail.strings, (n1 + n2 + n3, id, Some(info))),
                    }
                },
            }
        },
    }
}

/// The two strings as the key and the value of a tag.
pub open spec fn spec_tag_text(key: Seq<u8>, value: Seq<u8>) -> Result<
    (Seq<char>, Seq<char>),
    DecodeError,
> {
    match spec_text(key) {
        Err(e) => Err(e),
        Ok(key) => match spec_text(value) {
            Err(e) => Err(e),
            Ok(value) => Ok((key, value)),
        },
    }
}

/// One tag: a selector, which is 0 in front of a key and a value that are
/// written out, each with its NUL byte, and else refers to the table. Gives
/// the bytes taken, the key and the value. A pair that is written out and is
/// text is offered to the table.
pub open spec fn spec_tag(buf: Seq<u8>, strings: Seq<Pair>) -> Parsed<
    (int, Seq<char>, Seq<char>),
> {
    match spec_unsigned(buf) {
        Err(e) => failed(strings, e),
        Ok((n, selector)) => if selector == 0 {
            let (n1, key) = spec_cstring(buf.skip(n));
            let (n2, value) = spec_cstring(buf.skip(n + n1));
            match spec_tag_text(key, value) {
                Err(e) => failed(strings, e),
                Ok((k, v)) => done(insert_if_eligible(strings, key, value), (n + n1 + n2, k, v)),
            }
        } else {
            match lookup(strings, selector) {
                Err(e) => failed(strings, e),
                Ok((key, value)) => match spec_tag_text(key, value) {
                    Err(e) => failed(strings, e),
                    Ok((k, v)) => done(strings, (n, k, v)),
                },
            }
        },
    }
}

/// The tags that `buf` holds from start to end, added to `tags` in the order
/// in which they stand. A key that comes again takes the later value.
pub open spec fn spec_tags(buf: Seq<u8>, strings: Seq<Pair>, tags: TagMap) -> Parsed<TagMap>
    decreases buf.len(),
    via spec_tags_decreases
{
    if buf.len() == 0 {
        done(strings, tags)
    } else {
        let tag = spec_tag(buf, strings);
        match tag.result {
            Err(e) => failed(tag.strings, e),
            Ok((n, key, value)) => spec_tags(buf.skip(n), tag.strings, tags.insert(key, value)),
        }
    }
}

#[via_fn]
proof fn spec_tags_decreases(buf: Seq<u8>, strings: Seq<Pair>, tags: TagMap) {
    lemma_tag_bounds(buf, strings);
}

/// A varint takes at least one byte and no more than there are.
pub proof fn lemma_varint_bounds(buf: Seq<u8>)
    ensures
        spec_unsigned(buf) matches Ok((n, _)) ==> 1 <= n <= buf.len(),
        spec_signed(buf) matches Ok((n, _)) ==> 1 <= n <= buf.len(),
{
    lemma_leading_bounds(buf, 0x80);
}

/// A string takes no more bytes than there are.
pub proof fn lemma_cstring_bounds(buf: Seq<u8>)
    ensures
        0 <= spec_cstring(buf).0 <= buf.len(),
        spec_cstring(buf).1.len() <= spec_cstring(buf).0,
{
    lemma_leading_bounds(buf, 1);
}

/// A tag takes at least one byte and no more than there are.
pub proof fn lemma_tag_bounds(buf: Seq<u8>, strings: Seq<Pair>)
    ensures
        spec_tag(buf, strings).result matches Ok((n, _, _)) ==> 1 <= n <= buf.len(),
{
    lemma_varint_bounds(buf);
    match spec_unsigned(buf) {
        Ok((n, selector)) => {
            lemma_cstring_bounds(buf.skip(n));
            let n1 = spec_cstring(buf.skip(n)).0;
            lemma_cstring_bounds(buf.skip(n + n1));
        },
        Err(_) => {},
    }
}

/// What is left of a section of `section` bytes once `n` of them are read.
pub open spec fn shrink(section: nat, n: int) -> nat {
    if section <= n {
        0
    } else {
        (section - n) as nat
    }
}

/// The node references of a way: deltas, each against the reference before
/// it, the first against `last`, read until `section` bytes are taken. Gives
/// `refs` with the references added, and the bytes of `buf` behind them.
pub open spec fn spec_refs(buf: Seq<u8>, section: nat, last: u64, refs: Seq<u64>) -> Result<
    (Seq<u8>, Seq<u64>),
    DecodeError,
>
    decreases section,
    via spec_refs_decreases
{
    if section == 0 {
        Ok((buf, refs))
    } else {
        match spec_signed(buf) {
            Err(e) => Err(e),
            Ok((n, by)) => {
                let next = apply_delta(last, by);
                spec_refs(buf.skip(n), shrink(section, n), next, refs.push(next))
            },
        }
    }
}

#[via_fn]
proof fn spec_refs_decreases(buf: Seq<u8>, section: nat, last: u64, refs: Seq<u64>) {
    lemma_varint_bounds(buf);
}

/// The kind of element that the first byte of a member's string names.
pub open spec fn spec_element_type(byte: u8) -> Result<ElementType, DecodeError> {
    if byte == 0x30 {
        Ok(ElementType::Node())
    } else if byte == 0x31 {
        Ok(ElementType::Way())
    } else if byte == 0x32 {
        Ok(ElementType::Relation())
    } else {
        Err(DecodeError::UnexpectedElementType { received: byte })
    }
}

/// The string of a relation member: a selector, which is 0 in front of a
/// string that is written out with its NUL byte, and else refers to the first
/// string of a pair in the table. Gives the bytes taken and the string. A
/// string that is written out is offered to the table, paired with the empty
/// string.
pub open spec fn spec_member_string(buf: Seq<u8>, strings: Seq<Pair>) -> Parsed<(int, Seq<u8>)> {
    match spec_unsigned(buf) {
        Err(e) => failed(strings, e),
        Ok((n, selector)) => if selector == 0 {
            let (m, string) = spec_cstring(buf.skip(n));
            done(insert_if_eligible(strings, string, Seq::empty()), (n + m, string))
        } else {
            match lookup(strings, selector) {
                Err(e) => failed(strings, e),
                Ok((first, _)) => done(strings, (n, first)),
            }
        },
    }
}

/// What a member's string says: its first byte the kind of the member, the
/// rest the role.
pub open spec fn spec_member_kind(string: Seq<u8>) -> Result<(ElementType, Seq<char>), DecodeError> {
    match spec_element_type(byte_at(string, 0)) {
        Err(e) => Err(e),
        Ok(element_type) => match spec_text(string.skip(1)) {
            Err(e) => Err(e),
            Ok(role) => Ok((element_type, role)),
        },
    }
}

/// One member of a relation: its identifier as a delta against `base`, and
/// its string. Gives the bytes taken and the member.
pub open spec fn spec_member(buf: Seq<u8>, base: u64, strings: Seq<Pair>) -> Parsed<
    (int, MemberView),
> {
    match spec_signed(buf) {
        Err(e) => failed(strings, e),
        Ok((n, by)) => {
            let string = spec_member_string(buf.skip(n), strings);
            match string.result {
                Err(e) => failed(string.strings, e),
                Ok((m, bytes)) => match spec_member_kind(bytes) {
                    Err(e) => failed(string.strings, e),
                    Ok((element_type, role)) => done(
                        string.strings,
                        (n + m, MemberView { id: apply_delta(base, by), element_type, role }),
                    ),
                },
            }
        },
    }
}

/// The members of a relation, read until `section` bytes are taken, each
/// identifier a delta against the same `base`. Gives `members` with the
/// members added, and the bytes of `buf` behind them.
pub open spec fn spec_members(
    buf: Seq<u8>,
    section: nat,
    base: u64,
    strings: Seq<Pair>,
    members: Seq<MemberView>,
) -> Parsed<(Seq<u8>, Seq<MemberView>)>
    decreases section,
    via spec_members_decreases
{
    if section == 0 {
        done(strings, (buf, members))
    } else {
        let member = spec_member(buf, base, strings);
        match member.result {
            Err(e) => failed(member.strings, e),
            Ok((n, found)) => spec_members(
                buf.skip(n),
                shrink(section, n),
                base,
                member.strings,
                members.push(found),
            ),
        }
    }
}

#[via_fn]
proof fn spec_members_decreases(
    buf: Seq<u8>,
    section: nat,
    base: u64,
    strings: Seq<Pair>,
    members: Seq<MemberView>,
) {
    lemma_member_bounds(buf, base, strings);
}

/// A member takes at least one byte and no more than there are.
pub proof fn lemma_member_bounds(buf: Seq<u8>, base: u64, strings: Seq<Pair>)
    ensures
        spec_member(buf, base, strings).result matches Ok((n, _)) ==> 1 <= n <= buf.len(),
{
    lemma_varint_bounds(buf);
    match spec_signed(buf) {
        Ok((n, _)) => {
            lemma_varint_bounds(buf.skip(n));
            match spec_unsigned(buf.skip(n)) {
                Ok((m, _)) => {
                    lemma_cstring_bounds(buf.skip(n).skip(m));
                },
                Err(_) => {},
            }
        },
        Err(_) => {},
    }
}

/// The identifier of the previous node, if there was one.
pub open spec fn node_id(prev: Option<NodeView>) -> Option<u64> {
    match prev {
        Some(node) => Some(node.id),
        None => None,
    }
}

/// The metadata of the previous node, if there was one and it had some.
pub open spec fn node_info(prev: Option<NodeView>) -> Option<InfoView> {
    match prev {
        Some(node) => node.info,
        None => None,
    }
}

/// The place that a node's deltas are applied to: that of the previous node,
/// or 0 and 0.
pub open spec fn base_place(prev: Option<NodeView>) -> NodeData {
    match prev {
        Some(node) => match node.data {
            Some(data) => data,
            None => NodeData { longitude: 0, latitude: 0 },
        },
        None => NodeData { longitude: 0, latitude: 0 },
    }
}

/// What follows the head in the body of a node: the longitude and the
/// latitude as deltas against `base`, and the tags.
pub open spec fn spec_node_rest(buf: Seq<u8>, base: NodeData, strings: Seq<Pair>) -> Parsed<
    (NodeData, TagMap),
> {
    match spec_signed(buf) {
        Err(e) => failed(strings, e),
        Ok((n1, east)) => match spec_signed(buf.skip(n1)) {
            Err(e) => failed(strings, e),
            Ok((n2, north)) => {
                let data = NodeData {
                    longitude: wrap32(base.longitude + east),
                    latitude: wrap32(base.latitude + north),
                };
                let tags = spec_tags(buf.skip(n1 + n2), strings, TagMap::empty());
                match tags.result {
                    Err(e) => failed(tags.strings, e),
                    Ok(found) => done(tags.strings, (data, found)),
                }
            },
        },
    }
}

/// The body of a node frame: the head; then, unless the body ends there, the
/// place, as deltas against that of the previous node, and the tags.
pub open spec fn spec_node(buf: Seq<u8>, prev: Option<NodeView>, strings: Seq<Pair>) -> Parsed<
    NodeView,
> {
    let head = spec_info(buf, node_id(prev), node_info(prev), strings);
    match head.result {
        Err(e) => failed(head.strings, e),
        Ok((n, id, info)) => if n == buf.len() {
            done(head.strings, NodeView { id, info, data: None, tags: TagMap::empty() })
        } else {
            let rest = spec_node_rest(buf.skip(n), base_place(prev), head.strings);
            match rest.result {
                Err(e) => failed(rest.strings, e),
                Ok((data, tags)) => done(rest.strings, NodeView { id, info, data: Some(data), tags }),
            }
        },
    }
}

/// The identifier of the previous way, if there was one.
pub open spec fn way_id(prev: Option<WayView>) -> Option<u64> {
    match prev {
        Some(way) => Some(way.id),
        None => None,
    }
}

/// The metadata of the previous way, if there was one and it had some.
pub open spec fn way_info(prev: Option<WayView>) -> Option<InfoView> {
    match prev {
        Some(way) => way.info,
        None => None,
    }
}

/// The reference that a way's first delta is applied to: the last reference
/// of the previous way, or 0.
pub open spec fn base_ref(prev: Option<WayView>) -> u64 {
    match prev {
        Some(way) => match way.data {
            Some(refs) => if refs.len() > 0 {
                refs.last()
            } else {
                0
            },
            None => 0,
        },
        None => 0,
    }
}

/// What follows the head in the body of a way: the length of the reference
/// section in bytes, the references, the first as a delta against `base`, and
/// the tags.
pub open spec fn spec_way_rest(buf: Seq<u8>, base: u64, strings: Seq<Pair>) -> Parsed<
    (Seq<u64>, TagMap),
> {
    match spec_unsigned(buf) {
        Err(e) => failed(strings, e),
        Ok((n, section)) => match spec_refs(buf.skip(n), section as nat, base, Seq::empty()) {
            Err(e) => failed(strings, e),
            Ok((left, refs)) => {
                let tags = spec_tags(left, strings, TagMap::empty());
                match tags.result {
                    Err(e) => failed(tags.strings, e),
                    Ok(found) => done(tags.strings, (refs, found)),
                }
            },
        },
    }
}

/// The body of a way frame: the head; then, unless the body ends there, the
/// references, the first as a delta against the last reference of the
/// previous way, and the tags.
pub open spec fn spec_way(buf: Seq<u8>, prev: Option<WayView>, strings: Seq<Pair>) -> Parsed<
    WayView,
> {
    let head = spec_info(buf, way_id(prev), way_info(prev), strings);
    match head.result {
        Err(e) => failed(head.strings, e),
        Ok((n, id, info)) => if n == buf.len() {
            done(head.strings, WayView { id, info, data: None, tags: TagMap::empty() })
        } else {
            let rest = spec_way_rest(buf.skip(n), base_ref(prev), head.strings);
            match rest.result {
                Err(e) => failed(rest.strings, e),
                Ok((refs, tags)) => done(rest.strings, WayView { id, info, data: Some(refs), tags }),
            }
        },
    }
}

/// The identifier of the previous relation, if there was one.
pub open spec fn relation_id(prev: Option<RelationView>) -> Option<u64> {
    match prev {
        Some(relation) => Some(relation.id),
        None => None,
    }
}

/// The metadata of the previous relation, if there was one and it had some.
pub open spec fn relation_info(prev: Option<RelationView>) -> Option<InfoView> {
    match prev {
        Some(relation) => relation.info,
        None => None,
    }
}

/// The identifier that the deltas of a relation's members are applied to: that
/// of the last member of the previous relation, or 0.
pub open spec fn base_member(prev: Option<RelationView>) -> u64 {
    match prev {
        Some(relation) => match relation.data {
            Some(members) => if members.len() > 0 {
                members.last().id
            } else {
                0
            },
            None => 0,
        },
        None => 0,
    }
}

/// What follows the head in the body of a relation: the length of the member
/// section in bytes, the members, their identifiers as deltas against `base`,
/// and the tags.
pub open spec fn spec_relation_rest(buf: Seq<u8>, base: u64, strings: Seq<Pair>) -> Parsed<
    (Seq<MemberView>, TagMap),
> {
    match spec_unsigned(buf) {
        Err(e) => failed(strings, e),
        Ok((n, section)) => {
            let members = spec_members(buf.skip(n), section as nat, base, strings, Seq::empty());
            match members.result {
                Err(e) => failed(members.strings, e),
                Ok((left, found)) => {
                    let tags = spec_tags(left, members.strings, TagMap::empty());
                    match tags.result {
                        Err(e) => failed(tags.strings, e),
                        Ok(tags_found) => done(tags.strings, (found, tags_found)),
                    }
                },
            }
        },
    }
}

/// The body of a relation frame: the head; then, unless the body ends there,
/// the members, their identifiers as deltas against that of the last member
/// of the previous relation, and the tags.
pub open spec fn spec_relation(
    buf: Seq<u8>,
    prev: Option<RelationView>,
    strings: Seq<Pair>,
) -> Parsed<RelationView> {
    let head = spec_info(buf, relation_id(prev), relation_info(prev), strings);
    match head.result {
        Err(e) => failed(head.strings, e),
        Ok((n, id, info)) => if n == buf.len() {
            done(head.strings, RelationView { id, info, data: None, tags: TagMap::empty() })
        } else {
            let rest = spec_relation_rest(buf.skip(n), base_member(prev), head.strings);
            match rest.result {
                Err(e) => failed(rest.strings, e),
                Ok((members, tags)) => done(
                    rest.strings,
                    RelationView { id, info, data: Some(members), tags },
                ),
            }
        },
    }
}

/// The body of a bounding-box frame: four signed numbers, each cut to 32
/// bits.
pub open spec fn spec_bbox(buf: Seq<u8>) -> Result<BBox, DecodeError> {
    match spec_signed(buf) {
        Err(e) => Err(e),
        Ok((n1, x1)) => match spec_signed(buf.skip(n1)) {
            Err(e) => Err(e),
            Ok((n2, y1)) => match spec_signed(buf.skip(n1 + n2)) {
                Err(e) => Err(e),
                Ok((n3, x2)) => match spec_signed(buf.skip(n1 + n2 + n3)) {
                    Err(e) => Err(e),
                    Ok((_, y2)) => Ok(
                        BBox {
                            x1: wrap32(x1 as int),
                            y1: wrap32(y1 as int),
                            x2: wrap32(x2 as int),
                            y2: wrap32(y2 as int),
                        },
                    ),
                },
            },
        },
    }
}

/// The body of a timestamp frame: one signed number.
pub open spec fn spec_timestamp(buf: Seq<u8>) -> Result<Timestamp, DecodeError> {
    match spec_signed(buf) {
        Err(e) => Err(e),
        Ok((_, time)) => Ok(Timestamp { time }),
    }
}

/// Reading an author keeps the table within its bounds.
pub proof fn lemma_author_bounded(buf: Seq<u8>, strings: Seq<Pair>)
    requires
        bounded(strings),
    ensures
        bounded(spec_author(buf, strings).strings),
{
    match spec_unsigned(buf) {
        Ok((n, selector)) => {
            if selector == 0 {
                let inner = buf.skip(n);
                match spec_unsigned(inner) {
                    Ok((m, _)) => {
                        let start = if m < inner.len() {
                            m + 1
                        } else {
                            m
                        };
                        lemma_capacity(strings, inner.take(m), spec_cstring(inner.skip(start)).1);
                    },
                    Err(_) => {},
                }
            }
        },
        Err(_) => {},
    }
}

/// Reading the head of an element's body keeps the table within its bounds.
pub proof fn lemma_info_bounded(
    buf: Seq<u8>,
    prev_id: Option<u64>,
    prev_info: Option<InfoView>,
    strings: Seq<Pair>,
)
    requires
        bounded(strings),
    ensures
        bounded(spec_info(buf, prev_id, prev_info, strings).strings),
{
    match spec_signed(buf) {
        Ok((n1, _)) => match spec_unsigned(buf.skip(n1)) {
            Ok((n2, _)) => {
                let tail = buf.skip(n1 + n2);
                match spec_signed(tail) {
                    Ok((n3, _)) => match spec_signed(tail.skip(n3)) {
                        Ok((n4, _)) => {
                            lemma_author_bounded(tail.skip(n3 + n4), strings);
                        },
                        Err(_) => {},
                    },
                    Err(_) => {},
                }
            },
            Err(_) => {},
        },
        Err(_) => {},
    }
}

/// Reading tags keeps the table within its bounds.
pub proof fn lemma_tags_bounded(buf: Seq<u8>, strings: Seq<Pair>, tags: TagMap)
    requires
        bounded(strings),
    ensures
        bounded(spec_tags(buf, strings, tags).strings),
    decreases buf.len(),
{
    if buf.len() > 0 {
        lemma_tag_bounds(buf, strings);
        let tag = spec_tag(buf, strings);
        match spec_unsigned(buf) {
            Ok((n, selector)) => {
                if selector == 0 {
                    let (n1, key) = spec_cstring(buf.skip(n));
                    let (n2, value) = spec_cstring(buf.skip(n + n1));
                    lemma_capacity(strings, key, value);
                }
            },
            Err(_) => {},
        }
        match tag.result {
            Ok((n, key, value)) => {
                lemma_tags_bounded(buf.skip(n), tag.strings, tags.insert(key, value));
            },
            Err(_) => {},
        }
    }
}

/// Reading the members of a relation keeps the table within its bounds.
pub proof fn lemma_members_bounded(
    buf: Seq<u8>,
    section: nat,
    base: u64,
    strings: Seq<Pair>,
    members: Seq<MemberView>,
)
    requires
        bounded(strings),
    ensures
        bounded(spec_members(buf, section, base, strings, members).strings),
    decreases section,
{
    if section > 0 {
        lemma_member_bounds(buf, base, strings);
        let member = spec_member(buf, base, strings);
        match spec_signed(buf) {
            Ok((n, _)) => {
                match spec_unsigned(buf.skip(n)) {
                    Ok((m, selector)) => {
                        if selector == 0 {
                            lemma_capacity(
                                strings,
                                spec_cstring(buf.skip(n).skip(m)).1,
                                Seq::empty(),
                            );
                        }
                    },
                    Err(_) => {},
                }
            },
            Err(_) => {},
        }
        match member.result {
            Ok((n, found)) => {
                lemma_members_bounded(
                    buf.skip(n),
                    shrink(section, n),
                    base,
                    member.strings,
                    members.push(found),
                );
            },
            Err(_) => {},
        }
    }
}

/// Reading the body of a node keeps the table within its bounds.
pub proof fn lemma_node_bounded(buf: Seq<u8>, prev: Option<NodeView>, strings: Seq<Pair>)
    requires
        bounded(strings),
    ensures
        bounded(spec_node(buf, prev, strings).strings),
{
    lemma_info_bounded(buf, node_id(prev), node_info(prev), strings);
    let head = spec_info(buf, node_id(prev), node_info(prev), strings);
    match head.result {
        Ok((n, _, _)) => {
            let rest = buf.skip(n);
            match spec_signed(rest) {
                Ok((n1, _)) => match spec_signed(rest.skip(n1)) {
                    Ok((n2, _)) => {
                        lemma_tags_bounded(rest.skip(n1 + n2), head.strings, TagMap::empty());
                    },
                    Err(_) => {},
                },
                Err(_) => {},
            }
        },
        Err(_) => {},
    }
}

/// Reading the body of a way keeps the table within its bounds.
pub proof fn lemma_way_bounded(buf: Seq<u8>, prev: Option<WayView>, strings: Seq<Pair>)
    requires
        bounded(strings),
    ensures
        bounded(spec_way(buf, prev, strings).strings),
{
    lemma_info_bounded(buf, way_id(prev), way_info(prev), strings);
    let head = spec_info(buf, way_id(prev), way_info(prev), strings);
    match head.result {
        Ok((n, _, _)) => {
            let rest = buf.skip(n);
            match spec_unsigned(rest) {
                Ok((n1, section)) => match spec_refs(
                    rest.skip(n1),
                    section as nat,
                    base_ref(prev),
                    Seq::empty(),
                ) {
                    Ok((left, _)) => {
                        lemma_tags_bounded(left, head.strings, TagMap::empty());
                    },
                    Err(_) => {},
                },
                Err(_) => {},
            }
        },
        Err(_) => {},
    }
}

/// Reading the body of a relation keeps the table within its bounds.
pub proof fn lemma_relation_bounded(buf: Seq<u8>, prev: Option<RelationView>, strings: Seq<Pair>)
    requires
        bounded(strings),
    ensures
        bounded(spec_relation(buf, prev, strings).strings),
{
    lemma_info_bounded(buf, relation_id(prev), relation_info(prev), strings);
    let head = spec_info(buf, relation_id(prev), relation_info(prev), strings);
    match head.result {
        Ok((n, _, _)) => {
            let rest = buf.skip(n);
            match spec_unsigned(rest) {
                Ok((n1, section)) => {
                    lemma_members_bounded(
                        rest.skip(n1),
                        section as nat,
                        base_member(prev),
                        head.strings,
                        Seq::empty(),
                    );
                    let members = spec_members(
                        rest.skip(n1),
                        section as nat,
                        base_member(prev),
                        head.strings,
                        Seq::empty(),
                    );
                    match members.result {
                        Ok((left, _)) => {
                            lemma_tags_bounded(left, members.strings, TagMap::empty());
                        },
                        Err(_) => {},
                    }
                },
                Err(_) => {},
            }
        },
        Err(_) => {},
    }
}

} // verus!
