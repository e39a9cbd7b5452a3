use o5m_stream::BBox;
use o5m_stream::Dataset;
use o5m_stream::DatasetType;
use o5m_stream::Element;
use o5m_stream::ElementType;
use o5m_stream::Info;
use o5m_stream::Node;
use o5m_stream::NodeData;
use o5m_stream::Relation;
use o5m_stream::RelationData;
use o5m_stream::RelationMember;
use o5m_stream::Tags;
use o5m_stream::Timestamp;
use o5m_stream::Way;
use o5m_stream::WayData;

fn some_info() -> Info {
    Info {
        version: Some(2),
        timestamp: Some(1_600_000_000),
        changeset: Some(5),
        uid: Some(9),
        user: Some("ann".to_string()),
    }
}

fn some_tags() -> Tags {
    let mut tags = Tags::new();
    tags.insert("highway".to_string(), "primary".to_string());
    tags.insert("name".to_string(), "Main Street".to_string());
    tags
}

#[test]
fn info_new_is_empty() {
    let info = Info::new();
    assert_eq!(
        info,
        Info { version: None, timestamp: None, changeset: None, uid: None, user: None }
    );
    assert_eq!(Info::default(), info);
}

#[test]
fn info_clone_is_equal() {
    assert_eq!(some_info().clone(), some_info());
}

#[test]
fn tags_insert_and_get() {
    let mut tags = Tags::new();
    assert!(tags.is_empty());
    assert_eq!(tags.get(&"a".to_string()), None);
    tags.insert("a".to_string(), "1".to_string());
    tags.insert("b".to_string(), "2".to_string());
    assert!(!tags.is_empty());
    assert_eq!(tags.get(&"a".to_string()), Some(&"1".to_string()));
    assert_eq!(tags.get(&"b".to_string()), Some(&"2".to_string()));
    assert_eq!(tags.get(&"c".to_string()), None);
    tags.insert("a".to_string(), "3".to_string());
    assert_eq!(tags.get(&"a".to_string()), Some(&"3".to_string()));
    assert_eq!(tags.get(&"b".to_string()), Some(&"2".to_string()));
}

#[test]
fn tags_clone_holds_the_same() {
    let tags = some_tags();
    let copy = tags.clone();
    assert_eq!(copy.get(&"highway".to_string()), Some(&"primary".to_string()));
    assert_eq!(copy.get(&"name".to_string()), Some(&"Main Street".to_string()));
    assert_eq!(copy.get(&"other".to_string()), None);
}

#[test]
fn dataset_id_of_elements() {
    let node = Dataset::Node(Node { id: 1, info: None, data: None, tags: Tags::new() });
    let way = Dataset::Way(Way { id: 2, info: None, data: None, tags: Tags::new() });
    let relation =
        Dataset::Relation(Relation { id: 3, info: None, data: None, tags: Tags::new() });
    assert_eq!(node.get_id(), Some(1));
    assert_eq!(way.get_id(), Some(2));
    assert_eq!(relation.get_id(), Some(3));
}

#[test]
fn dataset_id_of_other_records() {
    let bbox = Dataset::BBox(BBox { x1: 1, y1: 2, x2: 3, y2: 4 });
    let timestamp = Dataset::Timestamp(Timestamp { time: 5 });
    assert_eq!(bbox.get_id(), None);
    assert_eq!(timestamp.get_id(), None);
    assert_eq!(bbox.get_info(), None);
    assert_eq!(timestamp.get_info(), None);
}

#[test]
fn dataset_info_of_elements() {
    let node =
        Dataset::Node(Node { id: 1, info: Some(some_info()), data: None, tags: Tags::new() });
    let way = Dataset::Way(Way { id: 2, info: None, data: None, tags: Tags::new() });
    let relation = Dataset::Relation(Relation {
        id: 3,
        info: Some(Info::new()),
        data: None,
        tags: Tags::new(),
    });
    assert_eq!(node.get_info(), Some(some_info()));
    assert_eq!(way.get_info(), None);
    assert_eq!(relation.get_info(), Some(Info::new()));
}

#[test]
fn dataset_clone_holds_the_same() {
    let relation = Dataset::Relation(Relation {
        id: 3,
        info: Some(some_info()),
        data: Some(RelationData {
            members: vec![
                RelationMember { id: 1, element_type: ElementType::Node(), role: "a".to_string() },
                RelationMember { id: 2, element_type: ElementType::Way(), role: String::new() },
            ],
        }),
        tags: some_tags(),
    });
    assert_eq!(format!("{:?}", relation.clone()), format!("{:?}", relation));
    let way = Dataset::Way(Way {
        id: 2,
        info: None,
        data: Some(WayData { refs: vec![5, 6, 7] }),
        tags: some_tags(),
    });
    assert_eq!(format!("{:?}", way.clone()), format!("{:?}", way));
    let node = Dataset::Node(Node {
        id: 1,
        info: Some(some_info()),
        data: Some(NodeData { longitude: -1, latitude: 1 }),
        tags: some_tags(),
    });
    assert_eq!(format!("{:?}", node.clone()), format!("{:?}", node));
}

#[test]
fn element_of_node() {
    let node = Node {
        id: 1,
        info: Some(some_info()),
        data: Some(NodeData { longitude: 10, latitude: 20 }),
        tags: some_tags(),
    };
    assert_eq!(Element::get_id(&node), 1);
    assert_eq!(Element::get_info(&node), Some(&some_info()));
    assert_eq!(node.get_type(), ElementType::Node());
    assert_eq!(node.get_tags().get(&"highway".to_string()), Some(&"primary".to_string()));
}

#[test]
fn element_of_way_and_relation() {
    let way = Way { id: 2, info: None, data: None, tags: Tags::new() };
    assert_eq!(Element::get_id(&way), 2);
    assert_eq!(Element::get_info(&way), None);
    assert_eq!(way.get_type(), ElementType::Way());
    assert!(way.get_tags().is_empty());
    let relation = Relation { id: 3, info: None, data: None, tags: some_tags() };
    assert_eq!(Element::get_id(&relation), 3);
    assert_eq!(relation.get_type(), ElementType::Relation());
    assert_eq!(relation.get_tags().get(&"name".to_string()), Some(&"Main Street".to_string()));
}

#[test]
fn frame_kinds_differ() {
    assert_ne!(DatasetType::Node(), DatasetType::Way());
    assert_ne!(DatasetType::Header(), DatasetType::Reset());
    assert_eq!(DatasetType::Sync(), DatasetType::Sync());
}

#[test]
fn tags_len_counts_keys() {
    let mut tags = Tags::new();
    assert_eq!(tags.len(), 0);
    tags.insert("a".to_string(), "1".to_string());
    tags.insert("b".to_string(), "2".to_string());
    assert_eq!(tags.len(), 2);
    tags.insert("a".to_string(), "3".to_string());
    assert_eq!(tags.len(), 2);
    tags.insert(String::new(), String::new());
    assert_eq!(tags.len(), 3);
}

#[test]
fn tags_keys_come_once_each() {
    let mut tags = Tags::new();
    assert!(tags.keys().is_empty());
    tags.insert("b".to_string(), "2".to_string());
    tags.insert("a".to_string(), "1".to_string());
    tags.insert("b".to_string(), "3".to_string());
    let mut keys: Vec<String> = tags.keys().into_iter().cloned().collect();
    keys.sort();
    assert_eq!(keys, vec!["a".to_string(), "b".to_string()]);
}

#[test]
fn tags_equal_whatever_the_order() {
    let mut first = Tags::new();
    first.insert("a".to_string(), "1".to_string());
    first.insert("b".to_string(), "2".to_string());
    let mut second = Tags::new();
    second.insert("b".to_string(), "0".to_string());
    second.insert("a".to_string(), "1".to_string());
    assert!(first != second);
    second.insert("b".to_string(), "2".to_string());
    assert!(first == second);
    assert!(second == first);
    second.insert("c".to_string(), "3".to_string());
    assert!(first != second);
    assert!(second != first);
    assert!(Tags::new() == Tags::new());
    assert!(first != Tags::new());
    assert!(first.clone() == first);
}

#[test]
fn records_compare_by_what_they_hold() {
    let node = |id: u64, tags: Tags| {
        Dataset::Node(Node {
            id,
            info: Some(some_info()),
            data: Some(NodeData { longitude: 1, latitude: 2 }),
            tags,
        })
    };
    assert_eq!(node(1, some_tags()), node(1, some_tags()));
    assert_ne!(node(1, some_tags()), node(2, some_tags()));
    assert_ne!(node(1, some_tags()), node(1, Tags::new()));
    let way = Dataset::Way(Way {
        id: 1,
        info: None,
        data: Some(WayData { refs: vec![1, 2] }),
        tags: Tags::new(),
    });
    assert_eq!(way.clone(), way);
    assert_ne!(way, node(1, Tags::new()));
    assert_eq!(node(1, some_tags()).clone(), node(1, some_tags()));
}
