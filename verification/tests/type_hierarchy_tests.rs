use std::collections::HashMap;

use type_hierarchy::hierarchy::{
    name_refers_to, prepare_type_hierarchy_from_fqn, subtypes_of_from_workspace,
    subtypes_of_mir_backed, supertypes_of_from_workspace,
};
use type_hierarchy::item::{
    item_fqn, make_item_from_index, HierarchyItem, ItemData, MemberValue, Position, Range,
    SYMBOL_KIND_CLASS, SYMBOL_KIND_ENUM, SYMBOL_KIND_INTERFACE,
};
use type_hierarchy::sort::{item_precedes, sort_items_stably};
use type_hierarchy::text::{
    chars_eq_ignore_ascii_case, rank_chars, string_chars, trim_leading_separators, Rank,
};
use type_hierarchy::workspace::{
    declared_supertype_names, symbol_kind_for, ClassInfo, ClassKind, ClassRef, FileClasses,
    WorkspaceIndexData,
};

fn class(name: &str, kind: ClassKind, line: u32, fqn: &str, parent: Option<&str>, implements: &[&str], traits: &[&str]) -> ClassInfo {
    ClassInfo {
        name: name.to_string(),
        kind,
        start_line: line,
        fqn: fqn.to_string(),
        parent: parent.map(|p| p.to_string()),
        implements: implements.iter().map(|s| s.to_string()).collect(),
        traits: traits.iter().map(|s| s.to_string()).collect(),
    }
}

fn file(uri: &str, classes: Vec<ClassInfo>) -> FileClasses {
    FileClasses { uri: uri.to_string(), classes }
}

fn fqn_data(fqn: &str) -> Option<ItemData> {
    Some(ItemData::Object(vec![("fqn".to_string(), MemberValue::Str(fqn.to_string()))]))
}

fn zero(line: u32) -> Range {
    Range { start: Position { line, character: 0 }, end: Position { line, character: 0 } }
}

fn item(name: &str, uri: &str, line: u32, character: u32) -> HierarchyItem {
    let r = Range { start: Position { line, character }, end: Position { line, character } };
    HierarchyItem { name: name.to_string(), kind: SYMBOL_KIND_CLASS, uri: uri.to_string(), range: r, selection_range: r, data: None }
}

/// A document is its namespace; names resolve as PHP resolves unqualified
/// class names without imports: a leading backslash means fully-qualified.
fn resolve(doc: &String, name: &str) -> String {
    if name.starts_with('\\') {
        name.to_string()
    } else if doc.is_empty() {
        name.to_string()
    } else {
        format!("{}\\{}", doc, name)
    }
}

/// A workspace: `App\Animal` (class), `App\Pet` (interface), `App\Walks`
/// (trait), `App\Dog extends Animal implements Pet uses Walks`,
/// `App\Cat extends \App\Animal`, `Zoo\Animal` (class, other namespace).
fn workspace() -> (WorkspaceIndexData, HashMap<String, String>) {
    let wi = WorkspaceIndexData {
        files: vec![
            file("file:///animal.php", vec![class("Animal", ClassKind::Class, 2, "\\App\\Animal", None, &[], &[])]),
            file("file:///pet.php", vec![
                class("Pet", ClassKind::Interface, 3, "App\\Pet", None, &[], &[]),
                class("Walks", ClassKind::Trait, 9, "App\\Walks", None, &[], &[]),
            ]),
            file("file:///dog.php", vec![class("Dog", ClassKind::Class, 4, "App\\Dog", Some("Animal"), &["Pet"], &["Walks"])]),
            file("file:///cat.php", vec![class("Cat", ClassKind::Class, 1, "App\\Cat", Some("\\App\\Animal"), &[], &[])]),
            file("file:///zoo.php", vec![class("Animal", ClassKind::Class, 7, "Zoo\\Animal", None, &[], &[])]),
        ],
    };
    let mut docs = HashMap::new();
    for uri in ["file:///animal.php", "file:///pet.php", "file:///dog.php", "file:///cat.php"] {
        docs.insert(uri.to_string(), "App".to_string());
    }
    docs.insert("file:///zoo.php".to_string(), "Zoo".to_string());
    (wi, docs)
}

fn class_ref_table() -> HashMap<String, ClassRef> {
    let mut t = HashMap::new();
    t.insert("App\\Animal".to_string(), ClassRef { file: 0, class: 0 });
    t.insert("\\App\\Animal".to_string(), ClassRef { file: 0, class: 0 });
    t.insert("App\\Pet".to_string(), ClassRef { file: 1, class: 0 });
    t.insert("App\\Walks".to_string(), ClassRef { file: 1, class: 1 });
    t.insert("App\\Dog".to_string(), ClassRef { file: 2, class: 0 });
    t.insert("App\\Cat".to_string(), ClassRef { file: 3, class: 0 });
    t.insert("Zoo\\Animal".to_string(), ClassRef { file: 4, class: 0 });
    t
}

#[test]
fn make_item_trims_leading_backslashes_into_data() {
    let it = make_item_from_index("Animal", SYMBOL_KIND_CLASS, &"file:///a.php".to_string(), 4, "\\\\App\\Animal");
    assert_eq!(it.name, "Animal");
    assert_eq!(it.kind, SYMBOL_KIND_CLASS);
    assert_eq!(it.uri, "file:///a.php");
    assert_eq!(it.range, zero(4));
    assert_eq!(it.selection_range, zero(4));
    assert_eq!(it.data, fqn_data("App\\Animal"));
    assert_eq!(item_fqn(&it), Some("App\\Animal"));
}

#[test]
fn make_item_keeps_inner_backslashes() {
    let it = make_item_from_index("A", SYMBOL_KIND_ENUM, &"u".to_string(), 0, "Vendor\\Pkg\\A");
    assert_eq!(item_fqn(&it), Some("Vendor\\Pkg\\A"));
    assert_eq!(it.kind, SYMBOL_KIND_ENUM);
}

#[test]
fn item_fqn_absent_for_other_payloads() {
    let mut it = item("X", "u", 0, 0);
    assert_eq!(item_fqn(&it), None);
    it.data = Some(ItemData::Other);
    assert_eq!(item_fqn(&it), None);
    it.data = Some(ItemData::Object(vec![("fqn".to_string(), MemberValue::Other)]));
    assert_eq!(item_fqn(&it), None);
    it.data = Some(ItemData::Object(vec![("name".to_string(), MemberValue::Str("X".to_string()))]));
    assert_eq!(item_fqn(&it), None);
    it.data = Some(ItemData::Object(vec![
        ("kind".to_string(), MemberValue::Other),
        ("fqn".to_string(), MemberValue::Str("A\\B".to_string())),
    ]));
    assert_eq!(item_fqn(&it), Some("A\\B"));
}

#[test]
fn symbol_kinds_follow_lsp_codes() {
    assert_eq!(symbol_kind_for(ClassKind::Class), 5);
    assert_eq!(symbol_kind_for(ClassKind::Trait), 5);
    assert_eq!(symbol_kind_for(ClassKind::Interface), 11);
    assert_eq!(symbol_kind_for(ClassKind::Enum), 10);
    assert_eq!(SYMBOL_KIND_INTERFACE, 11);
}

#[test]
fn prepare_builds_item_for_class_ref() {
    let (wi, _) = workspace();
    let it = prepare_type_hierarchy_from_fqn(ClassRef { file: 1, class: 0 }, &wi).unwrap();
    assert_eq!(it.name, "Pet");
    assert_eq!(it.kind, SYMBOL_KIND_INTERFACE);
    assert_eq!(it.uri, "file:///pet.php");
    assert_eq!(it.range, zero(3));
    assert_eq!(item_fqn(&it), Some("App\\Pet"));
    let animal = prepare_type_hierarchy_from_fqn(ClassRef { file: 0, class: 0 }, &wi).unwrap();
    assert_eq!(item_fqn(&animal), Some("App\\Animal"));
}

#[test]
fn prepare_none_for_dangling_ref() {
    let (wi, _) = workspace();
    assert!(prepare_type_hierarchy_from_fqn(ClassRef { file: 9, class: 0 }, &wi).is_none());
    assert!(prepare_type_hierarchy_from_fqn(ClassRef { file: 1, class: 2 }, &wi).is_none());
}

#[test]
fn declared_supertypes_are_parent_interfaces_traits() {
    let c = class("Dog", ClassKind::Class, 0, "App\\Dog", Some("Animal"), &["Pet", "Friend"], &["Walks"]);
    assert_eq!(declared_supertype_names(&c), vec!["Animal", "Pet", "Friend", "Walks"]);
    let c = class("Dog", ClassKind::Class, 0, "App\\Dog", None, &[], &["Walks"]);
    assert_eq!(declared_supertype_names(&c), vec!["Walks"]);
}

#[test]
fn supertypes_in_declaration_order() {
    let (wi, docs) = workspace();
    let refs = class_ref_table();
    let dog = prepare_type_hierarchy_from_fqn(ClassRef { file: 2, class: 0 }, &wi).unwrap();
    let supers = supertypes_of_from_workspace(
        &dog,
        &wi,
        |u: &String| docs.get(u).cloned(),
        |s: &str| refs.get(s).copied(),
        resolve,
    );
    let names: Vec<&str> = supers.iter().map(|i| i.name.as_str()).collect();
    assert_eq!(names, vec!["Animal", "Pet", "Walks"]);
    assert_eq!(supers[0].kind, SYMBOL_KIND_CLASS);
    assert_eq!(supers[1].kind, SYMBOL_KIND_INTERFACE);
    assert_eq!(supers[2].kind, SYMBOL_KIND_CLASS);
    assert_eq!(item_fqn(&supers[0]), Some("App\\Animal"));
    assert_eq!(supers[2].uri, "file:///pet.php");
    assert_eq!(supers[2].range, zero(9));
}

#[test]
fn supertypes_skip_repeated_fqn() {
    let wi = WorkspaceIndexData {
        files: vec![
            file("file:///a.php", vec![class("A", ClassKind::Interface, 0, "App\\A", None, &[], &[])]),
            file("file:///b.php", vec![class("B", ClassKind::Class, 0, "App\\B", Some("A"), &["\\App\\A", "A"], &[])]),
        ],
    };
    let mut refs = HashMap::new();
    refs.insert("App\\A".to_string(), ClassRef { file: 0, class: 0 });
    refs.insert("\\App\\A".to_string(), ClassRef { file: 0, class: 0 });
    refs.insert("App\\B".to_string(), ClassRef { file: 1, class: 0 });
    let b = prepare_type_hierarchy_from_fqn(ClassRef { file: 1, class: 0 }, &wi).unwrap();
    let supers = supertypes_of_from_workspace(
        &b,
        &wi,
        |_: &String| Some("App".to_string()),
        |s: &str| refs.get(s).copied(),
        resolve,
    );
    assert_eq!(supers.len(), 1);
    assert_eq!(supers[0].name, "A");
}

#[test]
fn supertypes_skip_unresolved_names() {
    let wi = WorkspaceIndexData {
        files: vec![file("file:///b.php", vec![class("B", ClassKind::Class, 0, "App\\B", Some("Missing"), &["Gone"], &[])])],
    };
    let b = prepare_type_hierarchy_from_fqn(ClassRef { file: 0, class: 0 }, &wi).unwrap();
    let supers = supertypes_of_from_workspace(
        &b,
        &wi,
        |_: &String| Some("App".to_string()),
        |s: &str| if s == "App\\B" { Some(ClassRef { file: 0, class: 0 }) } else if s == "App\\Gone" { Some(ClassRef { file: 5, class: 0 }) } else { None },
        resolve,
    );
    assert!(supers.is_empty());
}

#[test]
fn supertypes_empty_without_fqn_or_document() {
    let (wi, docs) = workspace();
    let refs = class_ref_table();
    let bare = item("Dog", "file:///dog.php", 4, 0);
    let supers = supertypes_of_from_workspace(&bare, &wi, |u: &String| docs.get(u).cloned(), |s: &str| refs.get(s).copied(), resolve);
    assert!(supers.is_empty());
    let dog = prepare_type_hierarchy_from_fqn(ClassRef { file: 2, class: 0 }, &wi).unwrap();
    let supers = supertypes_of_from_workspace(&dog, &wi, |_: &String| None::<String>, |s: &str| refs.get(s).copied(), resolve);
    assert!(supers.is_empty());
    let supers = supertypes_of_from_workspace(&dog, &wi, |u: &String| docs.get(u).cloned(), |_: &str| None, resolve);
    assert!(supers.is_empty());
}

#[test]
fn subtypes_found_through_mentions_and_sorted() {
    let (wi, docs) = workspace();
    let animal = prepare_type_hierarchy_from_fqn(ClassRef { file: 0, class: 0 }, &wi).unwrap();
    let subs = subtypes_of_from_workspace(
        &animal,
        "App\\Animal",
        &wi,
        |name: &str| {
            assert_eq!(name, "Animal");
            vec!["file:///dog.php".to_string(), "file:///cat.php".to_string(), "file:///zoo.php".to_string()]
        },
        |u: &String| docs.get(u).cloned(),
        resolve,
    );
    let names: Vec<&str> = subs.iter().map(|i| i.name.as_str()).collect();
    assert_eq!(names, vec!["Cat", "Dog"]);
    assert_eq!(subs[0].uri, "file:///cat.php");
    assert_eq!(item_fqn(&subs[1]), Some("App\\Dog"));
}

#[test]
fn subtypes_match_ignoring_ascii_case() {
    let (wi, docs) = workspace();
    let animal = prepare_type_hierarchy_from_fqn(ClassRef { file: 0, class: 0 }, &wi).unwrap();
    let subs = subtypes_of_from_workspace(
        &animal,
        "app\\ANIMAL",
        &wi,
        |_: &str| vec!["file:///dog.php".to_string()],
        |u: &String| docs.get(u).cloned(),
        resolve,
    );
    assert_eq!(subs.len(), 1);
    assert_eq!(subs[0].name, "Dog");
}

#[test]
fn subtypes_need_a_document() {
    let (wi, _) = workspace();
    let animal = prepare_type_hierarchy_from_fqn(ClassRef { file: 0, class: 0 }, &wi).unwrap();
    let subs = subtypes_of_from_workspace(
        &animal,
        "App\\Animal",
        &wi,
        |_: &str| vec!["file:///dog.php".to_string(), "file:///cat.php".to_string()],
        |_: &String| None::<String>,
        resolve,
    );
    assert!(subs.is_empty());
}

#[test]
fn subtypes_of_interface_and_trait() {
    let (wi, docs) = workspace();
    let pet = prepare_type_hierarchy_from_fqn(ClassRef { file: 1, class: 0 }, &wi).unwrap();
    let all: Vec<String> = wi.files.iter().map(|f| f.uri.clone()).collect();
    let subs = subtypes_of_from_workspace(&pet, "App\\Pet", &wi, |_: &str| all.clone(), |u: &String| docs.get(u).cloned(), resolve);
    assert_eq!(subs.iter().map(|i| i.name.as_str()).collect::<Vec<_>>(), vec!["Dog"]);
    let subs = subtypes_of_from_workspace(&pet, "App\\Walks", &wi, |_: &str| all.clone(), |u: &String| docs.get(u).cloned(), resolve);
    assert_eq!(subs.iter().map(|i| i.name.as_str()).collect::<Vec<_>>(), vec!["Dog"]);
}

#[test]
fn mir_backed_uses_given_files() {
    let (wi, docs) = workspace();
    let animal = prepare_type_hierarchy_from_fqn(ClassRef { file: 0, class: 0 }, &wi).unwrap();
    let subs = subtypes_of_mir_backed(
        &animal,
        "App\\Animal",
        &wi,
        &vec!["file:///cat.php".to_string()],
        |_: &str| -> Vec<String> { panic!("mention candidates are not consulted when files are given") },
        |u: &String| docs.get(u).cloned(),
        resolve,
    );
    assert_eq!(subs.iter().map(|i| i.name.as_str()).collect::<Vec<_>>(), vec!["Cat"]);
}

#[test]
fn mir_backed_falls_back_to_mentions_when_no_files() {
    let (wi, docs) = workspace();
    let animal = prepare_type_hierarchy_from_fqn(ClassRef { file: 0, class: 0 }, &wi).unwrap();
    let subs = subtypes_of_mir_backed(
        &animal,
        "App\\Animal",
        &wi,
        &Vec::new(),
        |_: &str| vec!["file:///dog.php".to_string(), "file:///cat.php".to_string()],
        |u: &String| docs.get(u).cloned(),
        resolve,
    );
    assert_eq!(subs.iter().map(|i| i.name.as_str()).collect::<Vec<_>>(), vec!["Cat", "Dog"]);
}

#[test]
fn classes_in_uris_follow_uri_order() {
    let (wi, _) = workspace();
    let refs = wi.classes_in_uris(&vec!["file:///pet.php".to_string(), "file:///nope.php".to_string(), "file:///animal.php".to_string()]);
    assert_eq!(refs, vec![
        ClassRef { file: 1, class: 0 },
        ClassRef { file: 1, class: 1 },
        ClassRef { file: 0, class: 0 },
    ]);
    assert_eq!(wi.at(ClassRef { file: 1, class: 1 }).map(|(u, c)| (u.as_str(), c.name.as_str())), Some(("file:///pet.php", "Walks")));
    assert!(wi.at(ClassRef { file: 1, class: 2 }).is_none());
}

#[test]
fn sort_orders_by_name_uri_line_character() {
    let mut items = vec![
        item("b", "u1", 0, 0),
        item("a", "u2", 5, 0),
        item("a", "u1", 7, 3),
        item("a", "u1", 7, 1),
        item("a", "u1", 2, 9),
    ];
    sort_items_stably(&mut items);
    let got: Vec<(String, String, u32, u32)> = items.iter().map(|i| (i.name.clone(), i.uri.clone(), i.range.start.line, i.range.start.character)).collect();
    let want = vec![
        ("a".to_string(), "u1".to_string(), 2, 9),
        ("a".to_string(), "u1".to_string(), 7, 1),
        ("a".to_string(), "u1".to_string(), 7, 3),
        ("a".to_string(), "u2".to_string(), 5, 0),
        ("b".to_string(), "u1".to_string(), 0, 0),
    ];
    assert_eq!(got, want);
}

#[test]
fn sort_keeps_equal_keys_in_input_order() {
    let mut first = item("Same", "u", 1, 0);
    first.kind = SYMBOL_KIND_ENUM;
    let mut second = item("Same", "u", 1, 0);
    second.kind = SYMBOL_KIND_INTERFACE;
    let mut items = vec![item("Z", "u", 0, 0), first, item("A", "u", 0, 0), second];
    sort_items_stably(&mut items);
    let kinds: Vec<(String, i32)> = items.iter().map(|i| (i.name.clone(), i.kind)).collect();
    assert_eq!(kinds, vec![
        ("A".to_string(), SYMBOL_KIND_CLASS),
        ("Same".to_string(), SYMBOL_KIND_ENUM),
        ("Same".to_string(), SYMBOL_KIND_INTERFACE),
        ("Z".to_string(), SYMBOL_KIND_CLASS),
    ]);
}

#[test]
fn sort_is_idempotent_and_matches_std() {
    let mut items = vec![
        item("Ω", "u", 0, 0),
        item("é", "u", 0, 0),
        item("e", "u", 0, 0),
        item("E", "u", 0, 0),
        item("", "u", 0, 0),
        item("ee", "u", 0, 0),
    ];
    let mut expected: Vec<String> = items.iter().map(|i| i.name.clone()).collect();
    expected.sort();
    sort_items_stably(&mut items);
    let got: Vec<String> = items.iter().map(|i| i.name.clone()).collect();
    assert_eq!(got, expected);
    sort_items_stably(&mut items);
    let again: Vec<String> = items.iter().map(|i| i.name.clone()).collect();
    assert_eq!(again, expected);
}

#[test]
fn sort_empty_and_single() {
    let mut none: Vec<HierarchyItem> = Vec::new();
    sort_items_stably(&mut none);
    assert!(none.is_empty());
    let mut one = vec![item("x", "u", 3, 3)];
    sort_items_stably(&mut one);
    assert_eq!(one, vec![item("x", "u", 3, 3)]);
}

#[test]
fn item_precedes_is_strict() {
    assert!(item_precedes(&item("a", "u", 0, 0), &item("b", "a", 0, 0)));
    assert!(!item_precedes(&item("a", "u", 0, 0), &item("a", "u", 0, 0)));
    assert!(item_precedes(&item("a", "u", 0, 0), &item("a", "u", 0, 1)));
    assert!(!item_precedes(&item("a", "v", 0, 0), &item("a", "u", 9, 9)));
}

#[test]
fn trim_removes_only_leading_backslashes() {
    assert_eq!(trim_leading_separators("\\\\App\\X"), "App\\X");
    assert_eq!(trim_leading_separators("App\\X\\"), "App\\X\\");
    assert_eq!(trim_leading_separators("\\"), "");
    assert_eq!(trim_leading_separators(""), "");
    assert_eq!(trim_leading_separators("\\名前"), "名前");
}

#[test]
fn case_insensitive_equality_is_ascii_only() {
    let eq = |a: &str, b: &str| chars_eq_ignore_ascii_case(&string_chars(a), &string_chars(b));
    assert!(eq("App\\Animal", "app\\animal"));
    assert!(eq("", ""));
    assert!(!eq("Animal", "Animals"));
    assert!(!eq("É", "é"));
    assert!(eq("café", "CAFé"));
    assert!(!eq("[", "{"));
    assert_eq!(eq("App\\X", "APP\\x"), "App\\X".eq_ignore_ascii_case("APP\\x"));
}

#[test]
fn name_refers_to_trims_and_folds_case() {
    assert!(name_refers_to("\\App\\Animal", "app\\animal"));
    assert!(name_refers_to("App\\Animal", "App\\Animal"));
    assert!(!name_refers_to("App\\Animal", "\\App\\Animal"));
    assert!(!name_refers_to("Zoo\\Animal", "App\\Animal"));
}

#[test]
fn rank_chars_orders_like_str() {
    let r = |a: &str, b: &str| rank_chars(&string_chars(a), &string_chars(b));
    assert_eq!(r("a", "b"), Rank::Less);
    assert_eq!(r("ab", "a"), Rank::Greater);
    assert_eq!(r("", ""), Rank::Equal);
    assert_eq!(r("z", "é"), Rank::Less);
    assert_eq!(r("名", "z"), Rank::Greater);
}

#[test]
fn class_without_declared_supertypes_is_never_a_subtype() {
    let (wi, docs) = workspace();
    let animal = prepare_type_hierarchy_from_fqn(ClassRef { file: 0, class: 0 }, &wi).unwrap();
    let subs = subtypes_of_from_workspace(
        &animal,
        "App\\Animal",
        &wi,
        |_: &str| vec!["file:///animal.php".to_string(), "file:///pet.php".to_string(), "file:///zoo.php".to_string()],
        |u: &String| docs.get(u).cloned(),
        |_: &String, _: &str| "App\\Animal".to_string(),
    );
    assert!(subs.is_empty());
}

#[test]
fn collect_supertypes_keeps_first_of_each_fqn() {
    let (wi, _) = workspace();
    let found = vec![
        None,
        Some(ClassRef { file: 1, class: 1 }),
        Some(ClassRef { file: 7, class: 0 }),
        Some(ClassRef { file: 0, class: 0 }),
        Some(ClassRef { file: 1, class: 1 }),
        Some(ClassRef { file: 4, class: 0 }),
    ];
    let items = type_hierarchy::hierarchy::collect_supertypes(&wi, &found);
    let got: Vec<(&str, &str)> = items.iter().map(|i| (i.name.as_str(), i.uri.as_str())).collect();
    assert_eq!(got, vec![("Walks", "file:///pet.php"), ("Animal", "file:///animal.php"), ("Animal", "file:///zoo.php")]);
}

#[test]
fn collect_subtypes_takes_matched_and_sorts() {
    let (wi, _) = workspace();
    let refs = vec![
        ClassRef { file: 2, class: 0 },
        ClassRef { file: 4, class: 0 },
        ClassRef { file: 0, class: 0 },
        ClassRef { file: 3, class: 0 },
    ];
    let matched = vec![true, true, false, true];
    let items = type_hierarchy::hierarchy::collect_subtypes(&wi, &refs, &matched);
    let got: Vec<(&str, &str)> = items.iter().map(|i| (i.name.as_str(), i.uri.as_str())).collect();
    assert_eq!(got, vec![("Animal", "file:///zoo.php"), ("Cat", "file:///cat.php"), ("Dog", "file:///dog.php")]);
}

#[test]
fn subtypes_depend_only_on_item_name() {
    let (wi, docs) = workspace();
    let animal = prepare_type_hierarchy_from_fqn(ClassRef { file: 0, class: 0 }, &wi).unwrap();
    let other = item("Animal", "file:///elsewhere.php", 40, 2);
    let mentions = |_: &str| vec!["file:///dog.php".to_string(), "file:///cat.php".to_string()];
    let a = subtypes_of_from_workspace(&animal, "App\\Animal", &wi, mentions, |u: &String| docs.get(u).cloned(), resolve);
    let b = subtypes_of_from_workspace(&other, "App\\Animal", &wi, mentions, |u: &String| docs.get(u).cloned(), resolve);
    assert_eq!(a, b);
    assert_eq!(a.len(), 2);
}

#[test]
fn given_files_equal_mentions_of_those_files() {
    let (wi, docs) = workspace();
    let animal = prepare_type_hierarchy_from_fqn(ClassRef { file: 0, class: 0 }, &wi).unwrap();
    let urls = vec!["file:///cat.php".to_string(), "file:///zoo.php".to_string(), "file:///dog.php".to_string()];
    let a = subtypes_of_mir_backed(&animal, "App\\Animal", &wi, &urls, |_: &str| Vec::new(), |u: &String| docs.get(u).cloned(), resolve);
    let b = subtypes_of_from_workspace(&animal, "App\\Animal", &wi, |_: &str| urls.clone(), |u: &String| docs.get(u).cloned(), resolve);
    assert_eq!(a, b);
    assert_eq!(a.len(), 2);
}

#[test]
fn given_files_path_does_not_read_item() {
    let (wi, docs) = workspace();
    let urls = vec!["file:///dog.php".to_string()];
    let a = subtypes_of_mir_backed(&item("Animal", "u", 0, 0), "App\\Animal", &wi, &urls, |_: &str| Vec::new(), |u: &String| docs.get(u).cloned(), resolve);
    let b = subtypes_of_mir_backed(&item("Other", "v", 9, 9), "App\\Animal", &wi, &urls, |_: &str| Vec::new(), |u: &String| docs.get(u).cloned(), resolve);
    assert_eq!(a, b);
    assert_eq!(a.len(), 1);
}
