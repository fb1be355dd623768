use vstd::prelude::*;
use crate::secure::SecureBytes;
use crate::timestamp::Timestamp;

verus! {

// The in-memory tree a database document describes: one Meta record and
// one root Group, groups holding groups and entries, entries holding
// named field values, optional keystroke automation, prior snapshots and
// timestamps. Unrecognized fields are preserved by name and text so a
// document survives a round trip unchanged.

/// A field value of an entry.
#[derive(Debug, Clone, PartialEq)]
pub enum Value {
    /// An opaque binary payload.
    Bytes(Vec<u8>),
    /// A secret payload, held in memory that zeroes on release.
    Protected(SecureBytes),
    /// A visible string.
    Unprotected(String),
}

/// The abstract form of a field value.
#[verifier::ext_equal]
pub enum ValueView {
    Bytes(Seq<u8>),
    Protected(Seq<u8>),
    Unprotected(Seq<char>),
}

/// The abstract form of a field value.
pub open spec fn value_view(v: Value) -> ValueView {
    match v {
        Value::Bytes(b) => ValueView::Bytes(b@),
        Value::Protected(p) => ValueView::Protected(p@),
        Value::Unprotected(s) => ValueView::Unprotected(s@),
    }
}

impl View for Value {
    type V = ValueView;

    open spec fn view(&self) -> ValueView {
        value_view(*self)
    }
}

/// One window-to-keystrokes association of an AutoType record.
#[derive(Debug, Clone, PartialEq, Eq)]
pub struct AutoTypeAssociation {
    pub window: Option<String>,
    pub sequence: Option<String>,
}

/// The abstract form of an association.
#[verifier::ext_equal]
pub struct AutoTypeAssociationView {
    pub window: Option<Seq<char>>,
    pub sequence: Option<Seq<char>>,
}

/// The abstract form of an association.
pub open spec fn association_view(a: AutoTypeAssociation) -> AutoTypeAssociationView {
    AutoTypeAssociationView {
        window: match a.window {
            Some(w) => Some(w@),
            None => None,
        },
        sequence: match a.sequence {
            Some(s) => Some(s@),
            None => None,
        },
    }
}

impl View for AutoTypeAssociation {
    type V = AutoTypeAssociationView;

    open spec fn view(&self) -> AutoTypeAssociationView {
        association_view(*self)
    }
}

/// An entry's keystroke automation record.
#[derive(Debug, Clone, PartialEq, Eq)]
pub struct AutoType {
    pub enabled: bool,
    pub sequence: Option<String>,
    pub associations: Vec<AutoTypeAssociation>,
}

/// The abstract form of an AutoType record.
#[verifier::ext_equal]
pub struct AutoTypeView {
    pub enabled: bool,
    pub sequence: Option<Seq<char>>,
    pub associations: Seq<AutoTypeAssociationView>,
}

/// The abstract form of an AutoType record.
pub open spec fn autotype_view(a: AutoType) -> AutoTypeView {
    AutoTypeView {
        enabled: a.enabled,
        sequence: match a.sequence {
            Some(s) => Some(s@),
            None => None,
        },
        associations: Seq::new(a.associations@.len(), |i: int| association_view(a.associations@[i])),
    }
}

impl View for AutoType {
    type V = AutoTypeView;

    open spec fn view(&self) -> AutoTypeView {
        autotype_view(*self)
    }
}

impl Default for AutoType {
    /// An empty record: disabled, no default sequence, no associations.
    fn default() -> (r: AutoType)
        ensures
            r@.enabled == false,
            r@.sequence is None,
            r@.associations == Seq::<AutoTypeAssociationView>::empty(),
    {
        let r = AutoType { enabled: false, sequence: None, associations: Vec::new() };
        proof {
            assert(r@.associations =~= Seq::<AutoTypeAssociationView>::empty());
        }
        r
    }
}

/// The abstract form of a name-to-text map held as insertion-ordered
/// pairs.
pub open spec fn strpairs_view(s: Seq<(String, String)>) -> Seq<(Seq<char>, Seq<char>)> {
    Seq::new(s.len(), |i: int| (s[i].0@, s[i].1@))
}

/// The abstract form of a name-to-timestamp map held as
/// insertion-ordered pairs: seconds since the year-1 epoch.
pub open spec fn times_view(s: Seq<(String, Timestamp)>) -> Seq<(Seq<char>, i64)> {
    Seq::new(s.len(), |i: int| (s[i].0@, s[i].1.seconds))
}

/// The abstract form of an entry's ordered fields.
pub open spec fn fields_view(s: Seq<(String, Value)>) -> Seq<(Seq<char>, ValueView)> {
    Seq::new(s.len(), |i: int| (s[i].0@, value_view(s[i].1)))
}

/// A password entry: ordered named fields, optional automation, prior
/// snapshots, timestamps, and preserved unrecognized fields.
#[derive(Debug, PartialEq)]
pub struct Entry {
    pub uuid: String,
    pub fields: Vec<(String, Value)>,
    pub autotype: Option<AutoType>,
    pub history: Vec<Entry>,
    pub times: Vec<(String, Timestamp)>,
    pub expires: bool,
    pub unhandled_fields: Vec<(String, String)>,
}

/// The abstract form of an entry.
#[verifier::ext_equal]
pub struct EntryView {
    pub uuid: Seq<char>,
    pub fields: Seq<(Seq<char>, ValueView)>,
    pub autotype: Option<AutoTypeView>,
    pub history: Seq<EntryView>,
    pub times: Seq<(Seq<char>, i64)>,
    pub expires: bool,
    pub unhandled: Seq<(Seq<char>, Seq<char>)>,
}

/// The abstract form of a sequence of entries.
pub open spec fn entries_view(s: Seq<Entry>) -> Seq<EntryView>
    decreases s,
{
    Seq::new(
        s.len(),
        |i: int|
            if 0 <= i < s.len() {
                entry_view(s[i])
            } else {
                arbitrary()
            },
    )
}

/// The abstract form of an entry.
pub open spec fn entry_view(e: Entry) -> EntryView
    decreases e,
{
    EntryView {
        uuid: e.uuid@,
        fields: fields_view(e.fields@),
        autotype: match e.autotype {
            Some(a) => Some(autotype_view(a)),
            None => None,
        },
        history: entries_view(e.history@),
        times: times_view(e.times@),
        expires: e.expires,
        unhandled: strpairs_view(e.unhandled_fields@),
    }
}

impl View for Entry {
    type V = EntryView;

    open spec fn view(&self) -> EntryView {
        entry_view(*self)
    }
}

impl Default for Entry {
    /// An empty entry, to be populated by the codec.
    fn default() -> (r: Entry)
        ensures
            r@.uuid == Seq::<char>::empty(),
            r@.fields == Seq::<(Seq<char>, ValueView)>::empty(),
            r@.autotype is None,
            r@.history == Seq::<EntryView>::empty(),
            r@.times == Seq::<(Seq<char>, i64)>::empty(),
            r@.expires == false,
            r@.unhandled == Seq::<(Seq<char>, Seq<char>)>::empty(),
    {
        let r = Entry {
            uuid: String::new(),
            fields: Vec::new(),
            autotype: None,
            history: Vec::new(),
            times: Vec::new(),
            expires: false,
            unhandled_fields: Vec::new(),
        };
        proof {
            assert(r@.fields =~= Seq::<(Seq<char>, ValueView)>::empty());
            assert(r@.history =~= Seq::<EntryView>::empty());
            assert(r@.times =~= Seq::<(Seq<char>, i64)>::empty());
            assert(r@.unhandled =~= Seq::<(Seq<char>, Seq<char>)>::empty());
        }
        r
    }
}

/// A child of a group: either a nested group or an entry.
#[derive(Debug, PartialEq)]
pub enum Node {
    Group(Group),
    Entry(Entry),
}

/// The abstract form of a group child.
#[verifier::ext_equal]
pub enum NodeView {
    Group(GroupView),
    Entry(EntryView),
}

/// A group: a named container of groups and entries, with timestamps
/// and preserved unrecognized fields.
#[derive(Debug, PartialEq)]
pub struct Group {
    pub uuid: String,
    pub name: String,
    pub children: Vec<Node>,
    pub times: Vec<(String, Timestamp)>,
    pub expires: bool,
    pub unhandled_fields: Vec<(String, String)>,
}

/// The abstract form of a group.
#[verifier::ext_equal]
pub struct GroupView {
    pub uuid: Seq<char>,
    pub name: Seq<char>,
    pub children: Seq<NodeView>,
    pub times: Seq<(Seq<char>, i64)>,
    pub expires: bool,
    pub unhandled: Seq<(Seq<char>, Seq<char>)>,
}

/// The abstract form of a group child.
pub open spec fn node_view(n: Node) -> NodeView
    decreases n,
{
    match n {
        Node::Group(g) => NodeView::Group(group_view(g)),
        Node::Entry(e) => NodeView::Entry(entry_view(e)),
    }
}

/// The abstract form of a sequence of group children.
pub open spec fn model_nodes_view(s: Seq<Node>) -> Seq<NodeView>
    decreases s,
{
    Seq::new(
        s.len(),
        |i: int|
            if 0 <= i < s.len() {
                node_view(s[i])
            } else {
                arbitrary()
            },
    )
}

/// The abstract form of a group.
pub open spec fn group_view(g: Group) -> GroupView
    decreases g,
{
    GroupView {
        uuid: g.uuid@,
        name: g.name@,
        children: model_nodes_view(g.children@),
        times: times_view(g.times@),
        expires: g.expires,
        unhandled: strpairs_view(g.unhandled_fields@),
    }
}

impl View for Node {
    type V = NodeView;

    open spec fn view(&self) -> NodeView {
        node_view(*self)
    }
}

impl View for Group {
    type V = GroupView;

    open spec fn view(&self) -> GroupView {
        group_view(*self)
    }
}

impl Default for Group {
    /// An empty group, to be populated by the codec.
    fn default() -> (r: Group)
        ensures
            r@.uuid == Seq::<char>::empty(),
            r@.name == Seq::<char>::empty(),
            r@.children == Seq::<NodeView>::empty(),
            r@.times == Seq::<(Seq<char>, i64)>::empty(),
            r@.expires == false,
            r@.unhandled == Seq::<(Seq<char>, Seq<char>)>::empty(),
    {
        let r = Group {
            uuid: String::new(),
            name: String::new(),
            children: Vec::new(),
            times: Vec::new(),
            expires: false,
            unhandled_fields: Vec::new(),
        };
        proof {
            assert(r@.children =~= Seq::<NodeView>::empty());
            assert(r@.times =~= Seq::<(Seq<char>, i64)>::empty());
            assert(r@.unhandled =~= Seq::<(Seq<char>, Seq<char>)>::empty());
        }
        r
    }
}

/// Database-wide metadata: the recycle-bin identifier and the preserved
/// unrecognized fields.
#[derive(Debug, Clone, PartialEq, Eq)]
pub struct Meta {
    pub recyclebin_uuid: String,
    pub unhandled_fields: Vec<(String, String)>,
}

/// The abstract form of the metadata.
#[verifier::ext_equal]
pub struct MetaView {
    pub recyclebin_uuid: Seq<char>,
    pub unhandled: Seq<(Seq<char>, Seq<char>)>,
}

/// The abstract form of the metadata.
pub open spec fn meta_view(m: Meta) -> MetaView {
    MetaView { recyclebin_uuid: m.recyclebin_uuid@, unhandled: strpairs_view(m.unhandled_fields@) }
}

impl View for Meta {
    type V = MetaView;

    open spec fn view(&self) -> MetaView {
        meta_view(*self)
    }
}

impl Default for Meta {
    /// Empty metadata, to be populated by the codec.
    fn default() -> (r: Meta)
        ensures
            r@.recyclebin_uuid == Seq::<char>::empty(),
            r@.unhandled == Seq::<(Seq<char>, Seq<char>)>::empty(),
    {
        let r = Meta { recyclebin_uuid: String::new(), unhandled_fields: Vec::new() };
        proof {
            assert(r@.unhandled =~= Seq::<(Seq<char>, Seq<char>)>::empty());
        }
        r
    }
}

/// The root aggregate: one metadata record and one root group.
#[derive(Debug, PartialEq)]
pub struct Database {
    pub meta: Meta,
    pub root: Group,
}

/// The abstract form of a database.
#[verifier::ext_equal]
pub struct DatabaseView {
    pub meta: MetaView,
    pub root: GroupView,
}

impl View for Database {
    type V = DatabaseView;

    open spec fn view(&self) -> DatabaseView {
        DatabaseView { meta: meta_view(self.meta), root: group_view(self.root) }
    }
}

} // verus!
