//! Decoders for the parts of a frame body.

use vstd::prelude::*;
use vstd::slice::slice_subrange;
use crate::data::Info;
use crate::data::InfoView;
use crate::error::Context;
use crate::error::DecodeError;
use crate::format::spec_author;
use crate::format::spec_cached_author;
use crate::format::spec_cstring;
use crate::format::spec_info;
use crate::format::spec_info_tail;
use crate::format::spec_inline_author;
use crate::format::spec_tag;
use crate::format::spec_tag_text;
use crate::format::spec_tags;
use crate::strings::StringTable;
use crate::tags::TagMap;
use crate::tags::Tags;
use crate::text::text;
use crate::varint::leading;
use crate::varint::lemma_leading_is;
use crate::varint::lemma_low64_add;
use crate::varint::lemma_low64_step;
use crate::varint::low64;
use crate::varint::spec_signed;
use crate::varint::spec_unsigned;
use crate::varint::unzigzag;
use crate::varint::varint_value;

verus! {

/// Counts the bytes at the start of `buf` that are at least `floor`, up to
/// the first smaller one or the end of `buf`.
pub(crate) fn count_leading(buf: &[u8], floor: u8) -> (n: usize)
    ensures
        n == leading(buf@, floor),
        n <= buf@.len(),
{
    let mut i: usize = 0;
    while i < buf.len() && buf[i] >= floor
        invariant
            i <= buf@.len(),
            forall|j: int| 0 <= j < i ==> buf@[j] >= floor,
        decreases buf@.len() - i,
    {
        i += 1;
    }
    proof {
        lemma_leading_is(buf@, floor, i as int);
    }
    i
}

/// Decodes the unsigned varint at the start of `buf`: the number of bytes it
/// takes and its value. Groups beyond the 64th bit are dropped.
pub fn unsigned(buf: &[u8]) -> (r: Result<(usize, u64), DecodeError>)
    ensures
        match r {
            Ok((n, value)) => spec_unsigned(buf@) == Ok::<(int, u64), DecodeError>((n as int, value))
                && 1 <= n <= buf@.len(),
            Err(e) => spec_unsigned(buf@) == Err::<(int, u64), DecodeError>(e),
        },
{
    let last = count_leading(buf, 0x80);
    if last >= buf.len() {
        return Err(DecodeError::UnterminatedUnsignedInteger);
    }
    let n = last + 1;
    let ghost digits = buf@.take(n as int);
    let mut value: u64 = 0;
    let mut i: usize = n;
    assert(digits.subrange(n as int, n as int) =~= Seq::<u8>::empty());
    while i > 0
        invariant
            0 <= i <= n <= buf@.len(),
            digits == buf@.take(n as int),
            value == low64(varint_value(digits.subrange(i as int, n as int)) as int),
        decreases i,
    {
        i -= 1;
        let digit: u64 = (buf[i] % 128) as u64;
        proof {
            let now = digits.subrange(i as int, n as int);
            let before = digits.subrange(i as int + 1, n as int);
            assert(now.drop_first() =~= before);
            assert(now[0] == buf@[i as int]);
            lemma_low64_step(digit as int, varint_value(before) as int);
            assert(vstd::wrapping::u64_specs::wrapping_mul(value, 128) == low64(128 * (value as int)));
            assert(low64(digit + low64(128 * (value as int))) == low64(digit + 128 * (value as int))) by {
                lemma_low64_add(digit as int, 128 * (value as int));
            }
        }
        value = value.wrapping_mul(128).wrapping_add(digit);
    }
    assert(digits.subrange(0, n as int) =~= digits);
    Ok((n, value))
}

/// Turns a zigzag code into the signed number it stands for.
pub fn zigzag_decode(raw: u64) -> (value: i64)
    ensures
        value == unzigzag(raw),
{
    if raw % 2 == 0 {
        (raw / 2) as i64
    } else {
        -((raw / 2) as i64) - 1
    }
}

/// Decodes the signed varint at the start of `buf`: the number of bytes it
/// takes and its value.
pub fn signed(buf: &[u8]) -> (r: Result<(usize, i64), DecodeError>)
    ensures
        match r {
            Ok((n, value)) => spec_signed(buf@) == Ok::<(int, i64), DecodeError>((n as int, value))
                && 1 <= n <= buf@.len(),
            Err(e) => spec_signed(buf@) == Err::<(int, i64), DecodeError>(e),
        },
{
    match unsigned(buf) {
        Ok((n, raw)) => Ok((n, zigzag_decode(raw))),
        Err(_) => Err(DecodeError::UnterminatedSignedInteger),
    }
}

/// The part of `buf` from `from` on.
pub(crate) fn rest(buf: &[u8], from: usize) -> (tail: &[u8])
    requires
        from <= buf@.len(),
    ensures
        tail@ == buf@.skip(from as int),
        tail@.len() == buf@.len() - from,
        buf@.len() <= usize::MAX,
{
    slice_subrange(buf, from, buf.len())
}

/// Reads the NUL-terminated string at the start of `buf`: the number of bytes
/// it takes with its NUL byte, and the bytes in front of the NUL byte. Where
/// `buf` holds no NUL byte, the string is all of `buf`.
pub(crate) fn cstring(buf: &[u8]) -> (r: (usize, &[u8]))
    ensures
        (r.0 as int, r.1@) == spec_cstring(buf@),
        r.0 <= buf@.len(),
{
    let n = count_leading(buf, 1);
    let bytes = slice_subrange(buf, 0, n);
    if n < buf.len() {
        (n + 1, bytes)
    } else {
        (n, bytes)
    }
}

/// Reads an author that is written out in the body, from the uid on, and
/// offers the pair of the uid's bytes and the name's bytes to `strings`.
fn inline_author(buf: &[u8], strings: &mut StringTable) -> (r: Result<
    (usize, u64, String),
    DecodeError,
>)
    ensures
        final(strings)@ == spec_inline_author(buf@, old(strings)@).strings,
        match r {
            Ok((n, uid, user)) => spec_inline_author(buf@, old(strings)@).result == Ok::<
                (int, u64, Seq<char>),
                DecodeError,
            >((n as int, uid, user@)) && n <= buf@.len(),
            Err(e) => spec_inline_author(buf@, old(strings)@).result == Err::<
                (int, u64, Seq<char>),
                DecodeError,
            >(e),
        },
{
    let (n, uid) = match unsigned(buf) {
        Ok(found) => found,
        Err(e) => {
            return Err(e);
        },
    };
    let uid_bytes = slice_subrange(buf, 0, n);
    let mut start = n;
    if n < buf.len() {
        if buf[n] != 0 {
            return Err(
                DecodeError::UnexpectedByte {
                    context: Context::UidSeparator,
                    expected: 0,
                    received: buf[n],
                },
            );
        }
        start = n + 1;
    }
    let (m, name) = cstring(rest(buf, start));
    let user = match text(name) {
        Ok(user) => user,
        Err(e) => {
            return Err(e);
        },
    };
    strings.insert_if_eligible(uid_bytes, name);
    Ok((start + m, uid, user))
}

/// Reads the author that `selector` refers to from `strings`.
fn cached_author(strings: &StringTable, selector: u64) -> (r: Result<(u64, String), DecodeError>)
    ensures
        match r {
            Ok((uid, user)) => spec_cached_author(strings@, selector) == Ok::<
                (u64, Seq<char>),
                DecodeError,
            >((uid, user@)),
            Err(e) => spec_cached_author(strings@, selector) == Err::<
                (u64, Seq<char>),
                DecodeError,
            >(e),
        },
{
    let (first, second) = match strings.lookup(selector) {
        Ok(pair) => pair,
        Err(e) => {
            return Err(e);
        },
    };
    let uid = match unsigned(first) {
        Ok((_, uid)) => uid,
        Err(e) => {
            return Err(e);
        },
    };
    match text(second) {
        Ok(user) => Ok((uid, user)),
        Err(e) => Err(e),
    }
}

/// Reads the author of a version: written out behind a selector of 0, or
/// taken from `strings`.
fn author(buf: &[u8], strings: &mut StringTable) -> (r: Result<(usize, u64, String), DecodeError>)
    ensures
        final(strings)@ == spec_author(buf@, old(strings)@).strings,
        match r {
            Ok((n, uid, user)) => spec_author(buf@, old(strings)@).result == Ok::<
                (int, u64, Seq<char>),
                DecodeError,
            >((n as int, uid, user@)) && n <= buf@.len(),
            Err(e) => spec_author(buf@, old(strings)@).result == Err::<
                (int, u64, Seq<char>),
                DecodeError,
            >(e),
        },
{
    let (n, selector) = match unsigned(buf) {
        Ok(found) => found,
        Err(e) => {
            return Err(e);
        },
    };
    if selector == 0 {
        match inline_author(rest(buf, n), strings) {
            Ok((m, uid, user)) => Ok((n + m, uid, user)),
            Err(e) => Err(e),
        }
    } else {
        match cached_author(strings, selector) {
            Ok((uid, user)) => Ok((n, uid, user)),
            Err(e) => Err(e),
        }
    }
}

/// Reads what follows a version other than 0 in the head of an element's
/// body.
fn info_tail(buf: &[u8], version: u64, prev_info: &Option<Info>, strings: &mut StringTable) -> (r:
    Result<(usize, Info), DecodeError>)
    ensures
        final(strings)@ == spec_info_tail(
            buf@,
            version,
            prev_info.deep_view(),
            old(strings)@,
        ).strings,
        match r {
            Ok((n, info)) => spec_info_tail(
                buf@,
                version,
                prev_info.deep_view(),
                old(strings)@,
            ).result == Ok::<(int, InfoView), DecodeError>((n as int, info@)) && n <= buf@.len(),
            Err(e) => spec_info_tail(buf@, version, prev_info.deep_view(), old(strings)@).result
                == Err::<(int, InfoView), DecodeError>(e),
        },
{
    let (n1, by) = match signed(buf) {
        Ok(found) => found,
        Err(e) => {
            return Err(e);
        },
    };
    let base: i64 = match prev_info {
        Some(info) => match info.timestamp {
            Some(timestamp) => timestamp,
            None => 0,
        },
        None => 0,
    };
    let timestamp = base.wrapping_add(by);
    if timestamp == 0 {
        return Ok(
            (
                n1,
                Info {
                    version: Some(version),
                    timestamp: None,
                    changeset: None,
                    uid: None,
                    user: None,
                },
            ),
        );
    }
    let (n2, by) = match signed(rest(buf, n1)) {
        Ok(found) => found,
        Err(e) => {
            return Err(e);
        },
    };
    let base: u64 = match prev_info {
        Some(info) => match info.changeset {
            Some(changeset) => changeset,
            None => 0,
        },
        None => 0,
    };
    let changeset = base.wrapping_add_signed(by);
    let (n3, uid, user) = match author(rest(buf, n1 + n2), strings) {
        Ok(found) => found,
        Err(e) => {
            return Err(e);
        },
    };
    Ok(
        (
            n1 + n2 + n3,
            Info {
                version: Some(version),
                timestamp: Some(timestamp),
                changeset: Some(changeset),
                uid: Some(uid),
                user: Some(user),
            },
        ),
    )
}

/// Reads the head of an element's body: the identifier, as a delta against
/// `prev_id`, and the metadata, with its timestamp and changeset as deltas
/// against those of `prev_info`. Gives the number of bytes taken, the
/// identifier and the metadata, which is absent where the version is 0.
pub fn info(
    buf: &[u8],
    prev_id: &Option<u64>,
    prev_info: &Option<Info>,
    strings: &mut StringTable,
) -> (r: Result<(usize, (u64, Option<Info>)), DecodeError>)
    ensures
        final(strings)@ == spec_info(buf@, *prev_id, prev_info.deep_view(), old(strings)@).strings,
        match r {
            Ok((n, (id, info))) => spec_info(
                buf@,
                *prev_id,
                prev_info.deep_view(),
                old(strings)@,
            ).result == Ok::<(int, u64, Option<InfoView>), DecodeError>(
                (n as int, id, info.deep_view()),
            ) && n <= buf@.len(),
            Err(e) => spec_info(buf@, *prev_id, prev_info.deep_view(), old(strings)@).result
                == Err::<(int, u64, Option<InfoView>), DecodeError>(e),
        },
{
    let (n1, by) = match signed(buf) {
        Ok(found) => found,
        Err(e) => {
            return Err(e);
        },
    };
    let base: u64 = match prev_id {
        Some(id) => *id,
        None => 0,
    };
    let id = base.wrapping_add_signed(by);
    let (n2, version) = match unsigned(rest(buf, n1)) {
        Ok(found) => found,
        Err(e) => {
            return Err(e);
        },
    };
    if version == 0 {
        return Ok((n1 + n2, (id, None)));
    }
    match info_tail(rest(buf, n1 + n2), version, prev_info, strings) {
        Ok((n3, info)) => Ok((n1 + n2 + n3, (id, Some(info)))),
        Err(e) => Err(e),
    }
}

/// Reads two strings as the key and the value of a tag.
fn tag_text(key: &[u8], value: &[u8]) -> (r: Result<(String, String), DecodeError>)
    ensures
        match r {
            Ok((k, v)) => spec_tag_text(key@, value@) == Ok::<(Seq<char>, Seq<char>), DecodeError>(
                (k@, v@),
            ),
            Err(e) => spec_tag_text(key@, value@) == Err::<(Seq<char>, Seq<char>), DecodeError>(e),
        },
{
    let k = match text(key) {
        Ok(k) => k,
        Err(e) => {
            return Err(e);
        },
    };
    match text(value) {
        Ok(v) => Ok((k, v)),
        Err(e) => Err(e),
    }
}

/// Reads one tag at the start of `buf`: written out behind a selector of 0,
/// or taken from `strings`.
fn tag(buf: &[u8], strings: &mut StringTable) -> (r: Result<(usize, String, String), DecodeError>)
    ensures
        final(strings)@ == spec_tag(buf@, old(strings)@).strings,
        match r {
            Ok((n, key, value)) => spec_tag(buf@, old(strings)@).result == Ok::<
                (int, Seq<char>, Seq<char>),
                DecodeError,
            >((n as int, key@, value@)) && 1 <= n <= buf@.len(),
            Err(e) => spec_tag(buf@, old(strings)@).result == Err::<
                (int, Seq<char>, Seq<char>),
                DecodeError,
            >(e),
        },
{
    let (n, selector) = match unsigned(buf) {
        Ok(found) => found,
        Err(e) => {
            return Err(e);
        },
    };
    if selector == 0 {
        let (n1, key) = cstring(rest(buf, n));
        let (n2, value) = cstring(rest(buf, n + n1));
        match tag_text(key, value) {
            Ok((k, v)) => {
                strings.insert_if_eligible(key, value);
                Ok((n + n1 + n2, k, v))
            },
            Err(e) => Err(e),
        }
    } else {
        let (key, value) = match strings.lookup(selector) {
            Ok(pair) => pair,
            Err(e) => {
                return Err(e);
            },
        };
        match tag_text(key, value) {
            Ok((k, v)) => Ok((n, k, v)),
            Err(e) => Err(e),
        }
    }
}

/// Reads the tags that fill `buf`. Gives the number of bytes taken, which is
/// the length of `buf`, and the tags.
pub fn tags(buf: &[u8], strings: &mut StringTable) -> (r: Result<(usize, Tags), DecodeError>)
    ensures
        final(strings)@ == spec_tags(buf@, old(strings)@, TagMap::empty()).strings,
        match r {
            Ok((n, tags)) => spec_tags(buf@, old(strings)@, TagMap::empty()).result == Ok::<
                TagMap,
                DecodeError,
            >(tags@) && n == buf@.len(),
            Err(e) => spec_tags(buf@, old(strings)@, TagMap::empty()).result == Err::<
                TagMap,
                DecodeError,
            >(e),
        },
{
    let mut tags = Tags::new();
    let mut offset: usize = 0;
    assert(buf@.skip(0) =~= buf@);
    while offset < buf.len()
        invariant
            offset <= buf@.len(),
            spec_tags(buf@.skip(offset as int), strings@, tags@) == spec_tags(
                buf@,
                old(strings)@,
                TagMap::empty(),
            ),
        decreases buf@.len() - offset,
    {
        match tag(rest(buf, offset), strings) {
            Ok((n, key, value)) => {
                tags.insert(key, value);
                assert(buf@.skip(offset as int).skip(n as int) =~= buf@.skip(offset + n));
                offset += n;
            },
            Err(e) => {
                return Err(e);
            },
        }
    }
    Ok((offset, tags))
}

} // verus!
