use o5m_stream::decode;
use o5m_stream::decode_chunks;
use o5m_stream::Context;
use o5m_stream::Dataset;
use o5m_stream::DecodeError;
use o5m_stream::Decoder;
use o5m_stream::Element;
use o5m_stream::ElementType;
use o5m_stream::Info;
use o5m_stream::NodeData;
use o5m_stream::RelationMember;

fn unsigned(mut value: u64) -> Vec<u8> {
    let mut bytes = Vec::new();
    while value >= 0x80 {
        bytes.push((value & 0x7f) as u8 | 0x80);
        value >>= 7;
    }
    bytes.push(value as u8);
    bytes
}

fn signed(value: i64) -> Vec<u8> {
    unsigned(((value << 1) ^ (value >> 63)) as u64)
}

fn frame(kind: u8, body: &[u8]) -> Vec<u8> {
    let mut bytes = vec![kind];
    bytes.extend(unsigned(body.len() as u64));
    bytes.extend_from_slice(body);
    bytes
}

fn join(parts: &[&[u8]]) -> Vec<u8> {
    let mut bytes = Vec::new();
    for part in parts {
        bytes.extend_from_slice(part);
    }
    bytes
}

/// A node without metadata: identifier, place and tags as given bytes.
fn node_body(id: i64, east: i64, north: i64, tags: &[u8]) -> Vec<u8> {
    join(&[&signed(id), &[0x00], &signed(east), &signed(north), tags])
}

fn way_body(id: i64, refs: &[i64], tags: &[u8]) -> Vec<u8> {
    let mut section = Vec::new();
    for r in refs {
        section.extend(signed(*r));
    }
    join(&[&signed(id), &[0x00], &unsigned(section.len() as u64), &section, tags])
}

fn relation_body(id: i64, members: &[(i64, &[u8])], tags: &[u8]) -> Vec<u8> {
    let mut section = Vec::new();
    for (member, string) in members {
        section.extend(signed(*member));
        section.extend_from_slice(string);
    }
    join(&[&signed(id), &[0x00], &unsigned(section.len() as u64), &section, tags])
}

/// Feeds the chunks to a decoder one after the other and collects what comes
/// out, as a caller does that reads the stream piece by piece.
fn feed(chunks: &[&[u8]]) -> Vec<Result<Dataset, DecodeError>> {
    let mut decoder = Decoder::new();
    let mut results = Vec::new();
    for chunk in chunks {
        let mut pos = 0;
        while pos < chunk.len() {
            let (taken, result) = decoder.next_item(&chunk[pos..]);
            assert!(taken >= 1 && taken <= chunk.len() - pos);
            pos += taken;
            match result {
                Ok(Some(record)) => results.push(Ok(record)),
                Ok(None) => assert_eq!(pos, chunk.len()),
                Err(e) => results.push(Err(e)),
            }
        }
    }
    if let Err(e) = decoder.finish() {
        results.push(Err(e));
    }
    results
}

fn show(results: &[Result<Dataset, DecodeError>]) -> Vec<String> {
    results.iter().map(|r| format!("{:?}", r)).collect()
}

fn same(first: &[Result<Dataset, DecodeError>], second: &[Result<Dataset, DecodeError>]) {
    assert_eq!(first, second);
    assert_eq!(show(first), show(second));
}

fn sample_stream() -> Vec<u8> {
    let author = join(&[
        &signed(1_600_000_000),
        &signed(77),
        &[0x00],
        &unsigned(4711),
        &[0x00],
        b"alice\x00",
    ]);
    let first_node = join(&[
        &signed(1000),
        &unsigned(3),
        &author,
        &signed(134_000_000),
        &signed(-525_000_000),
        b"\x00amenity\x00caf\xc3\xa9\x00",
    ]);
    // the same author and the same tag, by reference
    let second_node = join(&[
        &signed(1),
        &unsigned(1),
        &signed(60),
        &signed(1),
        &[0x02],
        &signed(-500),
        &signed(250),
        &[0x01],
    ]);
    let way = join(&[
        &signed(50),
        &[0x00],
        &unsigned(3),
        &signed(1000),
        &signed(1),
        b"\x00highway\x00residential\x00",
    ]);
    let relation = relation_body(
        7,
        &[(1000, b"\x000stop\x00"), (50, b"\x001\x00"), (6, b"\x01")],
        b"\x00type\x00route\x00",
    );
    join(&[
        &[0xff],
        &frame(0xe0, b"\x04o5m2"),
        &frame(0xdc, &signed(1_600_000_123)),
        &frame(0xdb, &join(&[&signed(-10), &signed(-20), &signed(30), &signed(40)])),
        &frame(0x10, &first_node),
        &frame(0x10, &second_node),
        &[0xff],
        &frame(0x11, &way),
        &frame(0x42, b"ignored"),
        &[0xff],
        &frame(0x12, &relation),
        &frame(0xee, &[]),
    ])
}

#[test]
fn empty_stream_ends_cleanly() {
    assert!(feed(&[]).is_empty());
    assert!(decode(&[]).is_empty());
    assert!(decode(&[0xff]).is_empty());
}

#[test]
fn signature_must_come_first() {
    let results = decode(&[0x10, 0x02, 0x0a, 0x00]);
    assert_eq!(results.len(), 1);
    assert_eq!(
        results[0].as_ref().err(),
        Some(&DecodeError::UnexpectedByte {
            context: Context::Signature,
            expected: 0xff,
            received: 0x10
        })
    );
}

#[test]
fn node_with_version_zero_and_nothing_more() {
    let results = decode(&[0xff, 0x10, 0x02, 0x0a, 0x00]);
    assert_eq!(results.len(), 1);
    match &results[0] {
        Ok(Dataset::Node(node)) => {
            assert_eq!(node.id, 5);
            assert_eq!(node.info, None);
            assert_eq!(node.data, None);
            assert!(node.tags.is_empty());
        },
        other => panic!("{:?}", other),
    }
}

#[test]
fn node_with_place_and_tags() {
    let stream = join(&[
        &[0xff],
        &frame(0x10, &node_body(5, 134_000_000, -525_000_000, b"\x00a\x00b\x00")),
    ]);
    let results = decode(&stream);
    assert_eq!(results.len(), 1);
    match &results[0] {
        Ok(Dataset::Node(node)) => {
            assert_eq!(node.id, 5);
            assert_eq!(node.info, None);
            assert_eq!(
                node.data,
                Some(NodeData { longitude: 134_000_000, latitude: -525_000_000 })
            );
            assert_eq!(node.tags.get(&"a".to_string()), Some(&"b".to_string()));
        },
        other => panic!("{:?}", other),
    }
}

#[test]
fn nodes_are_deltas_against_the_node_before() {
    let stream = join(&[
        &[0xff],
        &frame(0x10, &node_body(100, 1000, 2000, &[])),
        &frame(0x10, &node_body(-1, -10, 20, &[])),
        &frame(0x10, &join(&[&signed(5), &[0x00]])),
        &frame(0x10, &node_body(1, 7, 8, &[])),
    ]);
    let results = decode(&stream);
    let places: Vec<(u64, Option<NodeData>)> = results
        .iter()
        .map(|r| match r {
            Ok(Dataset::Node(node)) => (node.id, node.data),
            other => panic!("{:?}", other),
        })
        .collect();
    assert_eq!(
        places,
        vec![
            (100, Some(NodeData { longitude: 1000, latitude: 2000 })),
            (99, Some(NodeData { longitude: 990, latitude: 2020 })),
            (104, None),
            (105, Some(NodeData { longitude: 7, latitude: 8 })),
        ]
    );
}

#[test]
fn place_wraps_within_32_bits() {
    let stream = join(&[
        &[0xff],
        &frame(0x10, &node_body(1, i32::MAX as i64, i32::MIN as i64, &[])),
        &frame(0x10, &node_body(1, 1, -1, &[])),
        &frame(0x10, &node_body(1, (1 << 32) + 5, -(1 << 33), &[])),
    ]);
    let results = decode(&stream);
    let places: Vec<Option<NodeData>> = results
        .iter()
        .map(|r| match r {
            Ok(Dataset::Node(node)) => node.data,
            other => panic!("{:?}", other),
        })
        .collect();
    assert_eq!(
        places,
        vec![
            Some(NodeData { longitude: i32::MAX, latitude: i32::MIN }),
            Some(NodeData { longitude: i32::MIN, latitude: i32::MAX }),
            Some(NodeData { longitude: i32::MIN + 5, latitude: i32::MAX }),
        ]
    );
}

#[test]
fn second_way_continues_from_last_reference_of_first() {
    let stream = join(&[
        &[0xff],
        &frame(0x11, &way_body(10, &[100, 5], &[])),
        &frame(0x11, &way_body(1, &[2], &[])),
    ]);
    let results = decode(&stream);
    assert_eq!(results.len(), 2);
    match (&results[0], &results[1]) {
        (Ok(Dataset::Way(first)), Ok(Dataset::Way(second))) => {
            assert_eq!(first.id, 10);
            assert_eq!(first.data.as_ref().unwrap().refs, vec![100, 105]);
            assert_eq!(second.id, 11);
            assert_eq!(second.data.as_ref().unwrap().refs, vec![107]);
        },
        other => panic!("{:?}", other),
    }
}

#[test]
fn way_without_references_of_its_own() {
    let stream = join(&[
        &[0xff],
        &frame(0x11, &way_body(10, &[100, 5], &[])),
        &frame(0x11, &join(&[&signed(1), &[0x00]])),
        &frame(0x11, &way_body(1, &[], b"\x00a\x00b\x00")),
        &frame(0x11, &way_body(1, &[-4, 1], &[])),
    ]);
    let results = decode(&stream);
    let refs: Vec<Option<Vec<u64>>> = results
        .iter()
        .map(|r| match r {
            Ok(Dataset::Way(way)) => way.data.as_ref().map(|d| d.refs.clone()),
            other => panic!("{:?}", other),
        })
        .collect();
    // a way without references gives the next way nothing to continue from
    assert_eq!(refs, vec![Some(vec![100, 105]), None, Some(vec![]), Some(vec![u64::MAX - 3, u64::MAX - 2])]);
}

#[test]
fn way_reference_section_longer_than_the_body() {
    let body = join(&[&signed(1), &[0x00], &unsigned(9), &signed(5)]);
    let results = decode(&join(&[&[0xff], &frame(0x11, &body)]));
    assert_eq!(results.len(), 1);
    assert_eq!(results[0].as_ref().err(), Some(&DecodeError::UnterminatedSignedInteger));
}

#[test]
fn relation_with_members() {
    let body = relation_body(
        7,
        &[(1000, b"\x000stop\x00"), (50, b"\x001\x00"), (6, b"\x002inner\x00"), (1, b"\x03")],
        b"\x00type\x00route\x00",
    );
    let results = decode(&join(&[&[0xff], &frame(0x12, &body)]));
    assert_eq!(results.len(), 1);
    match &results[0] {
        Ok(Dataset::Relation(relation)) => {
            assert_eq!(relation.id, 7);
            assert_eq!(relation.get_type(), ElementType::Relation());
            assert_eq!(
                relation.data.as_ref().unwrap().members,
                vec![
                    RelationMember {
                        id: 1000,
                        element_type: ElementType::Node(),
                        role: "stop".to_string()
                    },
                    RelationMember {
                        id: 50,
                        element_type: ElementType::Way(),
                        role: String::new()
                    },
                    RelationMember {
                        id: 6,
                        element_type: ElementType::Relation(),
                        role: "inner".to_string()
                    },
                    RelationMember {
                        id: 1,
                        element_type: ElementType::Node(),
                        role: "stop".to_string()
                    },
                ]
            );
            assert_eq!(relation.tags.get(&"type".to_string()), Some(&"route".to_string()));
        },
        other => panic!("{:?}", other),
    }
}

#[test]
fn members_are_deltas_against_last_member_of_relation_before() {
    let stream = join(&[
        &[0xff],
        &frame(0x12, &relation_body(1, &[(10, b"\x000\x00"), (20, b"\x000\x00")], &[])),
        &frame(0x12, &relation_body(1, &[(1, b"\x000\x00"), (2, b"\x000\x00")], &[])),
    ]);
    let results = decode(&stream);
    let ids: Vec<Vec<u64>> = results
        .iter()
        .map(|r| match r {
            Ok(Dataset::Relation(relation)) => {
                relation.data.as_ref().unwrap().members.iter().map(|m| m.id).collect()
            },
            other => panic!("{:?}", other),
        })
        .collect();
    assert_eq!(ids, vec![vec![10, 20], vec![21, 22]]);
}

#[test]
fn member_type_nine_is_refused() {
    let body = relation_body(1, &[(1, b"\x009role\x00")], &[]);
    let results = decode(&join(&[&[0xff], &frame(0x12, &body)]));
    assert_eq!(results.len(), 1);
    assert_eq!(
        results[0].as_ref().err(),
        Some(&DecodeError::UnexpectedElementType { received: 0x39 })
    );
}

#[test]
fn member_without_type_is_refused() {
    let body = relation_body(1, &[(1, b"\x00\x00")], &[]);
    let results = decode(&join(&[&[0xff], &frame(0x12, &body)]));
    assert_eq!(results.len(), 1);
    assert_eq!(
        results[0].as_ref().err(),
        Some(&DecodeError::UnexpectedElementType { received: 0 })
    );
}

#[test]
fn member_role_must_be_text() {
    let body = relation_body(1, &[(1, b"\x000\xff\x00")], &[]);
    let results = decode(&join(&[&[0xff], &frame(0x12, &body)]));
    assert_eq!(results[0].as_ref().err(), Some(&DecodeError::StringEncodingError));
}

#[test]
fn member_reference_out_of_range() {
    let body = relation_body(1, &[(1, b"\x05")], &[]);
    let results = decode(&join(&[&[0xff], &frame(0x12, &body)]));
    assert_eq!(results[0].as_ref().err(), Some(&DecodeError::StringUnavailable { index: 5 }));
}

#[test]
fn bounding_box_and_timestamp() {
    let stream = join(&[
        &[0xff],
        &frame(0xdb, &join(&[&signed(-10), &signed(-20), &signed(30), &signed(40)])),
        &frame(0xdc, &signed(1_600_000_123)),
        &frame(0xdb, &join(&[&signed(1), &signed(2), &signed(3), &signed(4)])),
    ]);
    let results = decode(&stream);
    assert_eq!(
        show(&results),
        vec![
            "Ok(BBox(BBox { x1: -10, y1: -20, x2: 30, y2: 40 }))",
            "Ok(Timestamp(Timestamp { time: 1600000123 }))",
            "Ok(BBox(BBox { x1: 1, y1: 2, x2: 3, y2: 4 }))",
        ]
    );
}

#[test]
fn bounding_box_with_three_numbers() {
    let stream = join(&[&[0xff], &frame(0xdb, &join(&[&signed(1), &signed(2), &signed(3)]))]);
    let results = decode(&stream);
    assert_eq!(results[0].as_ref().err(), Some(&DecodeError::UnterminatedSignedInteger));
}

#[test]
fn other_frames_are_passed_over() {
    let stream = join(&[
        &[0xff],
        &frame(0xe0, b"\x04o5m2"),
        &frame(0xee, &[1, 2, 3]),
        &frame(0xef, &[0xff, 0xff]),
        &frame(0x42, &[0x10; 300]),
        &frame(0xee, &[]),
        &frame(0x10, &join(&[&signed(5), &[0x00]])),
        &frame(0x13, &[]),
    ]);
    let results = decode(&stream);
    assert_eq!(results.len(), 1);
    assert_eq!(results[0].as_ref().unwrap().get_id(), Some(5));
}

#[test]
fn reset_forgets_previous_records_and_keeps_strings() {
    let stream = join(&[
        &[0xff],
        &frame(0x10, &join(&[
            &signed(100),
            &unsigned(1),
            &signed(5000),
            &signed(40),
            &[0x00],
            &unsigned(9),
            b"\x00ann\x00",
            &signed(10),
            &signed(20),
            b"\x00a\x00b\x00",
        ])),
        &[0xff],
        &frame(0x10, &join(&[
            &signed(7),
            &unsigned(1),
            &signed(3),
            &signed(2),
            &[0x02],
            &signed(1),
            &signed(2),
            &[0x01],
        ])),
    ]);
    let results = decode(&stream);
    assert_eq!(results.len(), 2);
    match &results[1] {
        Ok(Dataset::Node(node)) => {
            assert_eq!(node.id, 7);
            assert_eq!(
                node.info,
                Some(Info {
                    version: Some(1),
                    timestamp: Some(3),
                    changeset: Some(2),
                    uid: Some(9),
                    user: Some("ann".to_string()),
                })
            );
            assert_eq!(node.data, Some(NodeData { longitude: 1, latitude: 2 }));
            assert_eq!(node.tags.get(&"a".to_string()), Some(&"b".to_string()));
        },
        other => panic!("{:?}", other),
    }
}

#[test]
fn without_reset_deltas_go_on() {
    let stream = join(&[
        &[0xff],
        &frame(0x10, &node_body(100, 10, 20, &[])),
        &frame(0x10, &node_body(7, 1, 2, &[])),
    ]);
    let results = decode(&stream);
    match &results[1] {
        Ok(Dataset::Node(node)) => {
            assert_eq!(node.id, 107);
            assert_eq!(node.data, Some(NodeData { longitude: 11, latitude: 22 }));
        },
        other => panic!("{:?}", other),
    }
}

#[test]
fn each_kind_has_its_own_previous_record() {
    let stream = join(&[
        &[0xff],
        &frame(0x10, &node_body(100, 10, 20, &[])),
        &frame(0x11, &way_body(50, &[30], &[])),
        &frame(0xdc, &signed(5)),
        &frame(0x10, &node_body(1, 1, 1, &[])),
        &frame(0x12, &relation_body(9, &[(4, b"\x000\x00")], &[])),
        &frame(0x11, &way_body(1, &[1], &[])),
    ]);
    let results = decode(&stream);
    let ids: Vec<Option<u64>> = results.iter().map(|r| r.as_ref().unwrap().get_id()).collect();
    assert_eq!(ids, vec![Some(100), Some(50), None, Some(101), Some(9), Some(51)]);
    match &results[5] {
        Ok(Dataset::Way(way)) => assert_eq!(way.data.as_ref().unwrap().refs, vec![31]),
        other => panic!("{:?}", other),
    }
}

#[test]
fn stream_cut_within_a_frame_is_truncated() {
    let whole = join(&[&[0xff], &frame(0x10, &node_body(5, 1, 2, &[]))]);
    for cut in 2..whole.len() {
        let results = decode(&whole[..cut]);
        assert_eq!(results.len(), 1);
        assert_eq!(results[0].as_ref().err(), Some(&DecodeError::TruncatedStream));
    }
    assert_eq!(decode(&whole).len(), 1);
    assert!(decode(&whole[..1]).is_empty());
}

#[test]
fn nothing_comes_after_an_error() {
    let stream = join(&[
        &[0xff],
        &frame(0x10, &node_body(5, 1, 2, &[])),
        &frame(0x12, &relation_body(1, &[(1, b"\x009\x00")], &[])),
        &frame(0x10, &node_body(5, 1, 2, &[])),
        &[0x10, 0x05],
    ]);
    let results = decode(&stream);
    assert_eq!(results.len(), 2);
    assert!(results[0].is_ok());
    assert_eq!(
        results[1].as_ref().err(),
        Some(&DecodeError::UnexpectedElementType { received: 0x39 })
    );
}

#[test]
fn failed_source_ends_the_session() {
    let mut decoder = Decoder::new();
    let stream = join(&[&[0xff], &frame(0x10, &node_body(5, 1, 2, &[]))]);
    let (taken, result) = decoder.next_item(&stream[..3]);
    assert_eq!(taken, 3);
    assert!(matches!(result, Ok(None)));
    assert_eq!(decoder.read_failed(), DecodeError::StreamReadError);
    let (taken, result) = decoder.next_item(&stream[3..]);
    assert_eq!(taken, stream.len() - 3);
    assert!(matches!(result, Ok(None)));
    assert_eq!(decoder.finish(), Ok(()));
}

#[test]
fn one_record_for_each_call() {
    let stream = join(&[
        &[0xff],
        &frame(0x10, &node_body(5, 1, 2, &[])),
        &frame(0x10, &node_body(1, 1, 2, &[])),
    ]);
    let mut decoder = Decoder::new();
    let (taken, result) = decoder.next_item(&stream);
    assert_eq!(taken, 1 + 6);
    assert_eq!(result.unwrap().unwrap().get_id(), Some(5));
    let (more, result) = decoder.next_item(&stream[taken..]);
    assert_eq!(taken + more, stream.len());
    assert_eq!(result.unwrap().unwrap().get_id(), Some(6));
    let (none, result) = decoder.next_item(&[]);
    assert_eq!(none, 0);
    assert!(matches!(result, Ok(None)));
    assert_eq!(decoder.finish(), Ok(()));
}

#[test]
fn frame_length_of_several_bytes() {
    let tags: Vec<u8> = join(&[b"\x00k\x00", &[b'v'; 300], &[0x00]]);
    let stream = join(&[&[0xff], &frame(0x10, &node_body(5, 1, 2, &tags))]);
    assert_eq!(stream[2], 0xb4);
    assert_eq!(stream[3], 0x02);
    let results = decode(&stream);
    assert_eq!(results.len(), 1);
    match &results[0] {
        Ok(Dataset::Node(node)) => {
            let value = String::from_utf8(vec![b'v'; 300]).unwrap();
            assert_eq!(node.tags.get(&"k".to_string()), Some(&value));
        },
        other => panic!("{:?}", other),
    }
}

#[test]
fn sample_stream_decodes() {
    let results = decode(&sample_stream());
    assert_eq!(results.len(), 6);
    assert!(results.iter().all(|r| r.is_ok()));
    match &results[3] {
        Ok(Dataset::Node(node)) => {
            assert_eq!(node.id, 1001);
            assert_eq!(
                node.info,
                Some(Info {
                    version: Some(1),
                    timestamp: Some(1_600_000_060),
                    changeset: Some(78),
                    uid: Some(4711),
                    user: Some("alice".to_string()),
                })
            );
            assert_eq!(
                node.data,
                Some(NodeData { longitude: 133_999_500, latitude: -524_999_750 })
            );
            assert_eq!(node.tags.get(&"amenity".to_string()), Some(&"caf\u{e9}".to_string()));
        },
        other => panic!("{:?}", other),
    }
    match &results[5] {
        Ok(Dataset::Relation(relation)) => {
            let members = &relation.data.as_ref().unwrap().members;
            assert_eq!(members.len(), 3);
            assert_eq!(members[2].role, "");
            assert_eq!(members[2].element_type, ElementType::Way());
        },
        other => panic!("{:?}", other),
    }
}

#[test]
fn cutting_the_stream_in_two_changes_nothing() {
    let stream = sample_stream();
    let whole = decode(&stream);
    same(&feed(&[&stream]), &whole);
    for cut in 0..=stream.len() {
        let (first, second) = stream.split_at(cut);
        same(&feed(&[first, second]), &whole);
    }
    for cut in 0..stream.len() {
        for more in [1, 2, 10] {
            let (first, rest) = stream.split_at(cut);
            let (second, third) = rest.split_at(more.min(rest.len()));
            same(&feed(&[first, second, third]), &whole);
        }
    }
}

#[test]
fn feeding_byte_by_byte_changes_nothing() {
    let stream = sample_stream();
    let whole = decode(&stream);
    let chunks: Vec<&[u8]> = stream.chunks(1).collect();
    same(&feed(&chunks), &whole);
    for size in [2, 3, 5, 7, 16, 64] {
        let chunks: Vec<&[u8]> = stream.chunks(size).collect();
        same(&feed(&chunks), &whole);
    }
}

#[test]
fn cutting_a_failing_stream_changes_nothing() {
    let stream = join(&[
        &[0xff],
        &frame(0x10, &node_body(5, 1, 2, b"\x00a\x00b\x00")),
        &frame(0x12, &relation_body(1, &[(1, b"\x009\x00")], &[])),
        &frame(0x10, &node_body(5, 1, 2, &[])),
    ]);
    let whole = show(&decode(&stream));
    assert_eq!(whole.len(), 2);
    for cut in 0..=stream.len() {
        let (first, second) = stream.split_at(cut);
        assert_eq!(show(&feed(&[first, second])), whole);
    }
    let truncated = &stream[..stream.len() - 2];
    let whole = show(&decode(truncated));
    for cut in 0..=truncated.len() {
        let (first, second) = truncated.split_at(cut);
        assert_eq!(show(&feed(&[first, second])), whole);
    }
}

#[test]
fn chunks_decode_as_the_whole_does() {
    let stream = sample_stream();
    let whole = decode(&stream);
    assert_eq!(decode_chunks(&vec![]), decode(&[]));
    assert_eq!(decode_chunks(&vec![stream.clone()]), whole);
    for cut in 0..=stream.len() {
        let chunks = vec![stream[..cut].to_vec(), Vec::new(), stream[cut..].to_vec()];
        same(&decode_chunks(&chunks), &whole);
    }
    for size in [1, 2, 3, 4, 9, 33] {
        let chunks: Vec<Vec<u8>> = stream.chunks(size).map(|c| c.to_vec()).collect();
        same(&decode_chunks(&chunks), &whole);
    }
}

#[test]
fn chunks_of_a_truncated_stream() {
    let stream = sample_stream();
    let short = &stream[..stream.len() - 5];
    let whole = decode(short);
    assert_eq!(whole.last().unwrap().as_ref().err(), Some(&DecodeError::TruncatedStream));
    for size in [1, 7, 50] {
        let chunks: Vec<Vec<u8>> = short.chunks(size).map(|c| c.to_vec()).collect();
        same(&decode_chunks(&chunks), &whole);
    }
}

#[test]
fn feed_gives_what_is_complete() {
    let stream = join(&[
        &[0xff],
        &frame(0x10, &node_body(5, 1, 2, &[])),
        &frame(0x10, &node_body(1, 1, 2, &[])),
        &frame(0x10, &node_body(1, 1, 2, &[])),
    ]);
    let mut decoder = Decoder::new();
    let first = decoder.feed(&stream[..10]);
    assert_eq!(first.len(), 1);
    assert_eq!(decoder.finish(), Err(DecodeError::TruncatedStream));
    let second = decoder.feed(&stream[10..]);
    assert_eq!(second.len(), 2);
    assert_eq!(decoder.finish(), Ok(()));
    let ids: Vec<Option<u64>> =
        first.iter().chain(second.iter()).map(|r| r.as_ref().unwrap().get_id()).collect();
    assert_eq!(ids, vec![Some(5), Some(6), Some(7)]);
    assert!(decoder.feed(&[]).is_empty());
}
