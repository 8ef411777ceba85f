//! Type hierarchy items: what a client is shown for a class, and the `data`
//! payload that carries the class's fully-qualified name between requests.
use vstd::prelude::*;
use crate::text::{trim_separators, trim_leading_separators};

verus! {

/// LSP symbol kind code of a class (also used for traits).
pub const SYMBOL_KIND_CLASS: i32 = 5;

/// LSP symbol kind code of an enum.
pub const SYMBOL_KIND_ENUM: i32 = 10;

/// LSP symbol kind code of an interface.
pub const SYMBOL_KIND_INTERFACE: i32 = 11;

/// A zero-based line and character offset in a document.
#[derive(Clone, Copy, Debug, PartialEq, Eq)]
pub struct Position {
    pub line: u32,
    pub character: u32,
}

/// A span of a document between two positions.
#[derive(Clone, Copy, Debug, PartialEq, Eq)]
pub struct Range {
    pub start: Position,
    pub end: Position,
}

/// The value of one member of a JSON object: a string, or any other JSON value.
#[derive(Debug, PartialEq, Eq)]
pub enum MemberValue {
    Str(String),
    Other,
}

pub enum MemberValueView {
    Str(Seq<char>),
    Other,
}

impl View for MemberValue {
    type V = MemberValueView;

    open spec fn view(&self) -> MemberValueView {
        match self {
            MemberValue::Str(s) => MemberValueView::Str(s@),
            MemberValue::Other => MemberValueView::Other,
        }
    }
}

/// The `data` payload of an item: a JSON object given by its members in
/// order (string values kept, others marked), or any other JSON value.
#[derive(Debug, PartialEq, Eq)]
pub enum ItemData {
    Object(Vec<(String, MemberValue)>),
    Other,
}

pub enum ItemDataView {
    Object(Seq<(Seq<char>, MemberValueView)>),
    Other,
}

pub open spec fn members_view(ms: Seq<(String, MemberValue)>) -> Seq<(Seq<char>, MemberValueView)> {
    ms.map_values(|m: (String, MemberValue)| (m.0@, m.1@))
}

impl View for ItemData {
    type V = ItemDataView;

    open spec fn view(&self) -> ItemDataView {
        match self {
            ItemData::Object(ms) => ItemDataView::Object(members_view(ms@)),
            ItemData::Other => ItemDataView::Other,
        }
    }
}

pub open spec fn opt_data_view(d: Option<ItemData>) -> Option<ItemDataView> {
    match d {
        Some(x) => Some(x@),
        None => None,
    }
}

/// One entry of a type hierarchy: a class, interface, trait or enum as the client sees it.
#[derive(Debug, PartialEq, Eq)]
pub struct HierarchyItem {
    pub name: String,
    /// LSP symbol kind code.
    pub kind: i32,
    pub uri: String,
    pub range: Range,
    pub selection_range: Range,
    pub data: Option<ItemData>,
}

pub struct HierarchyItemView {
    pub name: Seq<char>,
    pub kind: i32,
    pub uri: Seq<char>,
    pub range: Range,
    pub selection_range: Range,
    pub data: Option<ItemDataView>,
}

impl View for HierarchyItem {
    type V = HierarchyItemView;

    open spec fn view(&self) -> HierarchyItemView {
        HierarchyItemView {
            name: self.name@,
            kind: self.kind,
            uri: self.uri@,
            range: self.range,
            selection_range: self.selection_range,
            data: opt_data_view(self.data),
        }
    }
}

pub open spec fn items_view(s: Seq<HierarchyItem>) -> Seq<HierarchyItemView> {
    s.map_values(|i: HierarchyItem| i@)
}

/// The key under which an item's data carries its fully-qualified name.
pub open spec fn fqn_key() -> Seq<char> {
    seq!['f', 'q', 'n']
}

/// The value of the first member named `key`, if any (a JSON object's member names are unique).
pub open spec fn member_named(ms: Seq<(Seq<char>, MemberValueView)>, key: Seq<char>) -> Option<MemberValueView>
    decreases ms.len(),
{
    if ms.len() == 0 {
        None
    } else if ms[0].0 == key {
        Some(ms[0].1)
    } else {
        member_named(ms.drop_first(), key)
    }
}

/// The fully-qualified name that an item's data carries: the `fqn` member of
/// a data object, when that member is a string.
pub open spec fn data_fqn(d: Option<ItemDataView>) -> Option<Seq<char>> {
    match d {
        Some(ItemDataView::Object(ms)) => match member_named(ms, fqn_key()) {
            Some(MemberValueView::Str(s)) => Some(s),
            _ => None,
        },
        _ => None,
    }
}

/// The data payload `{"fqn": fqn}`.
pub open spec fn fqn_data(fqn: Seq<char>) -> ItemDataView {
    ItemDataView::Object(seq![(fqn_key(), MemberValueView::Str(fqn))])
}

/// The zero-width range at the start of `line`.
pub open spec fn line_start_range(line: u32) -> Range {
    Range { start: Position { line, character: 0 }, end: Position { line, character: 0 } }
}

/// The item for a class named `name` of symbol kind `kind`, declared at
/// `line` of `uri`, whose data carries `fqn` without its leading backslashes.
pub open spec fn index_item(name: Seq<char>, kind: i32, uri: Seq<char>, line: u32, fqn: Seq<char>) -> HierarchyItemView {
    HierarchyItemView {
        name,
        kind,
        uri,
        range: line_start_range(line),
        selection_range: line_start_range(line),
        data: Some(fqn_data(trim_separators(fqn))),
    }
}

/// The zero-width range at the start of `line`.
pub fn zero_width_range(line: u32) -> (r: Range)
    ensures
        r == line_start_range(line),
{
    Range { start: Position { line, character: 0 }, end: Position { line, character: 0 } }
}

/// The data payload `{"fqn": fqn}`.
pub fn make_fqn_data(fqn: String) -> (d: ItemData)
    ensures
        d@ == fqn_data(fqn@),
{
    let key = "fqn".to_owned();
    proof {
        reveal_strlit("fqn");
    }
    assert(key@ =~= fqn_key());
    let ghost fqn_view = fqn@;
    let mut members: Vec<(String, MemberValue)> = Vec::new();
    members.push((key, MemberValue::Str(fqn)));
    assert(members_view(members@)[0] == (fqn_key(), MemberValueView::Str(fqn_view)));
    let d = ItemData::Object(members);
    assert(members_view(members@) =~= seq![(fqn_key(), MemberValueView::Str(fqn_view))]);
    d
}

/// Builds the item for a class of the workspace index; its data carries the
/// class's fully-qualified name with the leading backslashes removed.
pub fn make_item_from_index(name: &str, kind: i32, uri: &String, start_line: u32, fqn: &str) -> (item: HierarchyItem)
    ensures
        item@ == index_item(name@, kind, uri@, start_line, fqn@),
{
    let range = zero_width_range(start_line);
    HierarchyItem {
        name: name.to_owned(),
        kind,
        uri: uri.clone(),
        range,
        selection_range: range,
        data: Some(make_fqn_data(trim_leading_separators(fqn))),
    }
}

/// The fully-qualified name carried in an item's data: the `fqn` member of
/// the data object when it is a string; `None` for any other payload.
pub fn item_fqn(item: &HierarchyItem) -> (r: Option<&str>)
    ensures
        match r {
            Some(s) => data_fqn(item@.data) == Some(s@),
            None => data_fqn(item@.data) is None,
        },
{
    match &item.data {
        Some(ItemData::Object(members)) => {
            let key = "fqn".to_owned();
            proof {
                reveal_strlit("fqn");
            }
            assert(key@ =~= fqn_key());
            let mut i: usize = 0;
            assert(members_view(members@).skip(0) =~= members_view(members@));
            while i < members.len()
                invariant
                    i <= members.len(),
                    key@ == fqn_key(),
                    item@.data == Some(ItemDataView::Object(members_view(members@))),
                    member_named(members_view(members@).skip(i as int), fqn_key())
                        == member_named(members_view(members@), fqn_key()),
                decreases members.len() - i,
            {
                let ghost rest = members_view(members@).skip(i as int);
                assert(rest[0] == (members@[i as int].0@, members@[i as int].1@));
                if members[i].0 == key {
                    match &members[i].1 {
                        MemberValue::Str(s) => {
                            return Some(s.as_str());
                        },
                        MemberValue::Other => {
                            return None;
                        },
                    }
                }
                assert(rest.drop_first() =~= members_view(members@).skip(i + 1));
                i = i + 1;
            }
            None
        },
        _ => None,
    }
}

/// The data of a built item gives back the name it was built with, without
/// its leading backslashes.
pub proof fn lemma_index_item_fqn_roundtrip(name: Seq<char>, kind: i32, uri: Seq<char>, line: u32, fqn: Seq<char>)
    ensures
        data_fqn(index_item(name, kind, uri, line, fqn).data) == Some(trim_separators(fqn)),
{
    let ms = seq![(fqn_key(), MemberValueView::Str(trim_separators(fqn)))];
    assert(member_named(ms, fqn_key()) == Some(MemberValueView::Str(trim_separators(fqn))));
}

/// The item built for a class has that class's name, kind and uri, the
/// zero-width range at the start of its line as both ranges, and data that
/// carries its fully-qualified name without leading backslashes.
pub proof fn lemma_index_item_fields(name: Seq<char>, kind: i32, uri: Seq<char>, line: u32, fqn: Seq<char>)
    ensures
        index_item(name, kind, uri, line, fqn).name == name,
        index_item(name, kind, uri, line, fqn).kind == kind,
        index_item(name, kind, uri, line, fqn).uri == uri,
        index_item(name, kind, uri, line, fqn).range == (Range {
            start: Position { line, character: 0 },
            end: Position { line, character: 0 },
        }),
        index_item(name, kind, uri, line, fqn).selection_range == (Range {
            start: Position { line, character: 0 },
            end: Position { line, character: 0 },
        }),
        data_fqn(index_item(name, kind, uri, line, fqn).data) == Some(trim_separators(fqn)),
{
    lemma_index_item_fqn_roundtrip(name, kind, uri, line, fqn);
}

/// The name carried in an object payload is the value of its first member
/// named `fqn` when that value is a string, and there is none when that
/// value is not a string or no member is named `fqn`; other payloads carry none.
pub proof fn lemma_data_fqn_first_member(ms: Seq<(Seq<char>, MemberValueView)>)
    ensures
        forall|i: int|
            0 <= i < ms.len() && (#[trigger] ms[i]).0 == seq!['f', 'q', 'n'] && (forall|j: int|
                0 <= j < i ==> ms[j].0 != seq!['f', 'q', 'n']) ==> data_fqn(Some(ItemDataView::Object(ms)))
                == match ms[i].1 {
                MemberValueView::Str(s) => Some(s),
                MemberValueView::Other => None::<Seq<char>>,
            },
        (forall|i: int| 0 <= i < ms.len() ==> (#[trigger] ms[i]).0 != seq!['f', 'q', 'n']) ==> data_fqn(
            Some(ItemDataView::Object(ms)),
        ) is None,
        data_fqn(Some(ItemDataView::Other)) is None,
        data_fqn(None) is None,
    decreases ms.len(),
{
    if ms.len() > 0 {
        let rest = ms.drop_first();
        lemma_data_fqn_first_member(rest);
        assert forall|i: int|
            0 <= i < ms.len() && (#[trigger] ms[i]).0 == seq!['f', 'q', 'n'] && (forall|j: int|
                0 <= j < i ==> ms[j].0 != seq!['f', 'q', 'n']) implies data_fqn(Some(ItemDataView::Object(ms)))
                == match ms[i].1 {
                MemberValueView::Str(s) => Some(s),
                MemberValueView::Other => None::<Seq<char>>,
            } by {
            if i > 0 {
                assert(ms[0].0 != seq!['f', 'q', 'n']);
                assert(rest[i - 1] == ms[i]);
                assert forall|j: int| 0 <= j < i - 1 implies rest[j].0 != seq!['f', 'q', 'n'] by {
                    assert(rest[j] == ms[j + 1]);
                }
                assert(member_named(ms, fqn_key()) == member_named(rest, fqn_key()));
            }
        }
        if forall|i: int| 0 <= i < ms.len() ==> (#[trigger] ms[i]).0 != seq!['f', 'q', 'n'] {
            assert(ms[0].0 != seq!['f', 'q', 'n']);
            assert forall|i: int| 0 <= i < rest.len() implies (#[trigger] rest[i]).0 != seq!['f', 'q', 'n'] by {
                assert(rest[i] == ms[i + 1]);
            }
            assert(member_named(ms, fqn_key()) == member_named(rest, fqn_key()));
        }
    }
}

} // verus!
