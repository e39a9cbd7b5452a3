//! The records that the decoder hands out.

use vstd::prelude::*;
use crate::tags::Tags;
use crate::tags::TagMap;

verus! {

/// The kind of a frame, as its type byte gives it.
#[derive(Clone, Copy, Debug, PartialEq, Eq, Structural)]
pub enum DatasetType {
    Node(),
    Way(),
    Relation(),
    BBox(),
    Timestamp(),
    Header(),
    Sync(),
    Jump(),
    Reset(),
}

/// The kind of a map element.
#[derive(Clone, Copy, Debug, PartialEq, Eq, Structural)]
pub enum ElementType {
    Node(),
    Way(),
    Relation(),
}

/// Who made a version of an element, and when. Every field may be absent.
#[derive(Debug, PartialEq)]
pub struct Info {
    pub version: Option<u64>,
    /// Seconds since the epoch.
    pub timestamp: Option<i64>,
    pub changeset: Option<u64>,
    pub uid: Option<u64>,
    pub user: Option<String>,
}

/// What an `Info` stands for.
pub struct InfoView {
    pub version: Option<u64>,
    pub timestamp: Option<i64>,
    pub changeset: Option<u64>,
    pub uid: Option<u64>,
    pub user: Option<Seq<char>>,
}

impl View for Info {
    type V = InfoView;

    open spec fn view(&self) -> InfoView {
        InfoView {
            version: self.version,
            timestamp: self.timestamp,
            changeset: self.changeset,
            uid: self.uid,
            user: match self.user {
                Some(user) => Some(user@),
                None => None,
            },
        }
    }
}

impl DeepView for Info {
    type V = InfoView;

    open spec fn deep_view(&self) -> InfoView {
        self@
    }
}

impl Info {
    /// An `Info` with every field absent.
    pub fn new() -> (info: Info)
        ensures
            info@ == (InfoView {
                version: None,
                timestamp: None,
                changeset: None,
                uid: None,
                user: None,
            }),
    {
        Info { version: None, timestamp: None, changeset: None, uid: None, user: None }
    }
}

impl Default for Info {
    fn default() -> (info: Info)
        ensures
            info@ == (InfoView {
                version: None,
                timestamp: None,
                changeset: None,
                uid: None,
                user: None,
            }),
    {
        Info::new()
    }
}

impl Clone for Info {
    fn clone(&self) -> (info: Info)
        ensures
            info@ == self@,
    {
        Info {
            version: self.version,
            timestamp: self.timestamp,
            changeset: self.changeset,
            uid: self.uid,
            user: match &self.user {
                Some(user) => Some(user.clone()),
                None => None,
            },
        }
    }
}

/// Where a node lies, in units of 1e-7 degrees.
#[derive(Clone, Copy, Debug, PartialEq, Eq, Structural)]
pub struct NodeData {
    pub longitude: i32,
    pub latitude: i32,
}

/// A point of the map.
#[derive(Debug, PartialEq)]
pub struct Node {
    pub id: u64,
    pub info: Option<Info>,
    pub data: Option<NodeData>,
    pub tags: Tags,
}

/// What a `Node` stands for.
pub struct NodeView {
    pub id: u64,
    pub info: Option<InfoView>,
    pub data: Option<NodeData>,
    pub tags: TagMap,
}

impl View for Node {
    type V = NodeView;

    open spec fn view(&self) -> NodeView {
        NodeView { id: self.id, info: self.info.deep_view(), data: self.data, tags: self.tags@ }
    }
}

impl DeepView for Node {
    type V = NodeView;

    open spec fn deep_view(&self) -> NodeView {
        self@
    }
}

impl Clone for Node {
    fn clone(&self) -> (node: Node)
        ensures
            node@ == self@,
    {
        Node {
            id: self.id,
            info: match &self.info {
                Some(info) => Some(info.clone()),
                None => None,
            },
            data: self.data,
            tags: self.tags.clone(),
        }
    }
}

/// The nodes that a way runs through, in order.
#[derive(Debug, PartialEq)]
pub struct WayData {
    pub refs: Vec<u64>,
}

impl View for WayData {
    type V = Seq<u64>;

    open spec fn view(&self) -> Seq<u64> {
        self.refs@
    }
}

impl DeepView for WayData {
    type V = Seq<u64>;

    open spec fn deep_view(&self) -> Seq<u64> {
        self@
    }
}

impl Clone for WayData {
    fn clone(&self) -> (data: WayData)
        ensures
            data@ == self@,
    {
        let refs = self.refs.clone();
        assert(refs@ =~= self.refs@);
        WayData { refs }
    }
}

/// A line or an area of the map.
#[derive(Debug, PartialEq)]
pub struct Way {
    pub id: u64,
    pub info: Option<Info>,
    pub data: Option<WayData>,
    pub tags: Tags,
}

/// What a `Way` stands for.
pub struct WayView {
    pub id: u64,
    pub info: Option<InfoView>,
    pub data: Option<Seq<u64>>,
    pub tags: TagMap,
}

impl View for Way {
    type V = WayView;

    open spec fn view(&self) -> WayView {
        WayView {
            id: self.id,
            info: self.info.deep_view(),
            data: self.data.deep_view(),
            tags: self.tags@,
        }
    }
}

impl DeepView for Way {
    type V = WayView;

    open spec fn deep_view(&self) -> WayView {
        self@
    }
}

impl Clone for Way {
    fn clone(&self) -> (way: Way)
        ensures
            way@ == self@,
    {
        Way {
            id: self.id,
            info: match &self.info {
                Some(info) => Some(info.clone()),
                None => None,
            },
            data: match &self.data {
                Some(data) => Some(data.clone()),
                None => None,
            },
            tags: self.tags.clone(),
        }
    }
}

/// One member of a relation.
#[derive(Debug, PartialEq)]
pub struct RelationMember {
    pub id: u64,
    pub element_type: ElementType,
    pub role: String,
}

/// What a `RelationMember` stands for.
pub struct MemberView {
    pub id: u64,
    pub element_type: ElementType,
    pub role: Seq<char>,
}

impl View for RelationMember {
    type V = MemberView;

    open spec fn view(&self) -> MemberView {
        MemberView { id: self.id, element_type: self.element_type, role: self.role@ }
    }
}

impl DeepView for RelationMember {
    type V = MemberView;

    open spec fn deep_view(&self) -> MemberView {
        self@
    }
}

impl Clone for RelationMember {
    fn clone(&self) -> (member: RelationMember)
        ensures
            member@ == self@,
    {
        RelationMember {
            id: self.id,
            element_type: self.element_type,
            role: self.role.clone(),
        }
    }
}

/// The members of a relation, in order.
#[derive(Debug, PartialEq)]
pub struct RelationData {
    pub members: Vec<RelationMember>,
}

impl View for RelationData {
    type V = Seq<MemberView>;

    open spec fn view(&self) -> Seq<MemberView> {
        self.members.deep_view()
    }
}

impl DeepView for RelationData {
    type V = Seq<MemberView>;

    open spec fn deep_view(&self) -> Seq<MemberView> {
        self@
    }
}

impl Clone for RelationData {
    fn clone(&self) -> (data: RelationData)
        ensures
            data@ == self@,
    {
        let mut members: Vec<RelationMember> = Vec::new();
        let mut i: usize = 0;
        while i < self.members.len()
            invariant
                i <= self.members@.len(),
                members@.len() == i,
                forall|j: int| 0 <= j < i ==> members@[j]@ == self.members@[j]@,
            decreases self.members@.len() - i,
        {
            members.push(self.members[i].clone());
            i += 1;
        }
        assert(members.deep_view() =~= self.members.deep_view());
        RelationData { members }
    }
}

/// A group of elements.
#[derive(Debug, PartialEq)]
pub struct Relation {
    pub id: u64,
    pub info: Option<Info>,
    pub data: Option<RelationData>,
    pub tags: Tags,
}

/// What a `Relation` stands for.
pub struct RelationView {
    pub id: u64,
    pub info: Option<InfoView>,
    pub data: Option<Seq<MemberView>>,
    pub tags: TagMap,
}

impl View for Relation {
    type V = RelationView;

    open spec fn view(&self) -> RelationView {
        RelationView {
            id: self.id,
            info: self.info.deep_view(),
            data: self.data.deep_view(),
            tags: self.tags@,
        }
    }
}

impl DeepView for Relation {
    type V = RelationView;

    open spec fn deep_view(&self) -> RelationView {
        self@
    }
}

impl Clone for Relation {
    fn clone(&self) -> (relation: Relation)
        ensures
            relation@ == self@,
    {
        Relation {
            id: self.id,
            info: match &self.info {
                Some(info) => Some(info.clone()),
                None => None,
            },
            data: match &self.data {
                Some(data) => Some(data.clone()),
                None => None,
            },
            tags: self.tags.clone(),
        }
    }
}

/// The bounds of the data, in units of 1e-7 degrees.
#[derive(Clone, Copy, Debug, PartialEq, Eq, Structural)]
pub struct BBox {
    pub x1: i32,
    pub y1: i32,
    pub x2: i32,
    pub y2: i32,
}

/// The time at which the data was current, in seconds since the epoch.
#[derive(Clone, Copy, Debug, PartialEq, Eq, Structural)]
pub struct Timestamp {
    pub time: i64,
}

/// One record of the stream.
#[derive(Debug, PartialEq)]
pub enum Dataset {
    Node(Node),
    Way(Way),
    Relation(Relation),
    BBox(BBox),
    Timestamp(Timestamp),
}

/// What a `Dataset` stands for.
pub enum DatasetView {
    Node(NodeView),
    Way(WayView),
    Relation(RelationView),
    BBox(BBox),
    Timestamp(Timestamp),
}

impl DatasetView {
    /// The identifier of a map element; nothing for other records.
    pub open spec fn id(self) -> Option<u64> {
        match self {
            DatasetView::Node(node) => Some(node.id),
            DatasetView::Way(way) => Some(way.id),
            DatasetView::Relation(relation) => Some(relation.id),
            _ => None,
        }
    }

    /// The metadata of a map element that has some; nothing for other records.
    pub open spec fn info(self) -> Option<InfoView> {
        match self {
            DatasetView::Node(node) => node.info,
            DatasetView::Way(way) => way.info,
            DatasetView::Relation(relation) => relation.info,
            _ => None,
        }
    }
}

impl View for Dataset {
    type V = DatasetView;

    open spec fn view(&self) -> DatasetView {
        match self {
            Dataset::Node(node) => DatasetView::Node(node@),
            Dataset::Way(way) => DatasetView::Way(way@),
            Dataset::Relation(relation) => DatasetView::Relation(relation@),
            Dataset::BBox(bbox) => DatasetView::BBox(*bbox),
            Dataset::Timestamp(timestamp) => DatasetView::Timestamp(*timestamp),
        }
    }
}

impl DeepView for Dataset {
    type V = DatasetView;

    open spec fn deep_view(&self) -> DatasetView {
        self@
    }
}

impl Dataset {
    /// The identifier of a node, a way or a relation.
    pub fn get_id(&self) -> (id: Option<u64>)
        ensures
            id == self@.id(),
    {
        match self {
            Dataset::Node(node) => Some(node.id),
            Dataset::Way(way) => Some(way.id),
            Dataset::Relation(relation) => Some(relation.id),
            _ => None,
        }
    }

    /// A copy of the metadata of a node, a way or a relation.
    pub fn get_info(&self) -> (info: Option<Info>)
        ensures
            info.deep_view() == self@.info(),
    {
        let info = match self {
            Dataset::Node(node) => &node.info,
            Dataset::Way(way) => &way.info,
            Dataset::Relation(relation) => &relation.info,
            _ => {
                return None;
            },
        };
        match info {
            Some(info) => Some(info.clone()),
            None => None,
        }
    }
}

impl Clone for Dataset {
    fn clone(&self) -> (dataset: Dataset)
        ensures
            dataset@ == self@,
    {
        match self {
            Dataset::Node(node) => Dataset::Node(node.clone()),
            Dataset::Way(way) => Dataset::Way(way.clone()),
            Dataset::Relation(relation) => Dataset::Relation(relation.clone()),
            Dataset::BBox(bbox) => Dataset::BBox(*bbox),
            Dataset::Timestamp(timestamp) => Dataset::Timestamp(*timestamp),
        }
    }
}

/// What nodes, ways and relations have in common.
pub trait Element {
    /// The element's identifier.
    spec fn id(&self) -> u64;

    /// The element's metadata.
    spec fn info(&self) -> Option<InfoView>;

    /// The element's kind.
    spec fn element_type(&self) -> ElementType;

    /// The element's tags.
    spec fn tags(&self) -> TagMap;

    /// Gives the element's identifier.
    fn get_id(&self) -> (id: u64)
        ensures
            id == self.id(),
    ;

    /// Gives the element's metadata, if it has some.
    fn get_info(&self) -> (info: Option<&Info>)
        ensures
            info.deep_view() == self.info(),
    ;

    /// Gives the element's kind.
    fn get_type(&self) -> (element_type: ElementType)
        ensures
            element_type == self.element_type(),
    ;

    /// Gives the element's tags.
    fn get_tags(&self) -> (tags: &Tags)
        ensures
            tags@ == self.tags(),
    ;
}

impl Element for Node {
    open spec fn id(&self) -> u64 {
        self@.id
    }

    open spec fn info(&self) -> Option<InfoView> {
        self@.info
    }

    open spec fn element_type(&self) -> ElementType {
        ElementType::Node()
    }

    open spec fn tags(&self) -> TagMap {
        self@.tags
    }

    fn get_id(&self) -> (id: u64) {
        self.id
    }

    fn get_info(&self) -> (info: Option<&Info>) {
        self.info.as_ref()
    }

    fn get_type(&self) -> (element_type: ElementType) {
        ElementType::Node()
    }

    fn get_tags(&self) -> (tags: &Tags) {
        &self.tags
    }
}

impl Element for Way {
    open spec fn id(&self) -> u64 {
        self@.id
    }

    open spec fn info(&self) -> Option<InfoView> {
        self@.info
    }

    open spec fn element_type(&self) -> ElementType {
        ElementType::Way()
    }

    open spec fn tags(&self) -> TagMap {
        self@.tags
    }

    fn get_id(&self) -> (id: u64) {
        self.id
    }

    fn get_info(&self) -> (info: Option<&Info>) {
        self.info.as_ref()
    }

    fn get_type(&self) -> (element_type: ElementType) {
        ElementType::Way()
    }

    fn get_tags(&self) -> (tags: &Tags) {
        &self.tags
    }
}

impl Element for Relation {
    open spec fn id(&self) -> u64 {
        self@.id
    }

    open spec fn info(&self) -> Option<InfoView> {
        self@.info
    }

    open spec fn element_type(&self) -> ElementType {
        ElementType::Relation()
    }

    open spec fn tags(&self) -> TagMap {
        self@.tags
    }

    fn get_id(&self) -> (id: u64) {
        self.id
    }

    fn get_info(&self) -> (info: Option<&Info>) {
        self.info.as_ref()
    }

    fn get_type(&self) -> (element_type: ElementType) {
        ElementType::Relation()
    }

    fn get_tags(&self) -> (tags: &Tags) {
        &self.tags
    }
}

} // verus!
