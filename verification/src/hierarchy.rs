//! `textDocument/prepareTypeHierarchy`, `typeHierarchy/supertypes` and
//! `typeHierarchy/subtypes` over the workspace index.
use vstd::prelude::*;
use crate::sort::{is_stable_sort, lemma_stable_sort_unique, sort_items_stably};
use crate::text::{lemma_eq_ignore_ascii_case_chars, lemma_trim_separators_removes_leading, chars_eq_ignore_ascii_case, eq_ignore_ascii_case, lemma_eq_ignore_ascii_case_equivalence, string_chars, trim_leading_separators, trim_separators};
use crate::item::{Position, Range, lemma_index_item_fields, lemma_index_item_fqn_roundtrip, HierarchyItem, HierarchyItemView, data_fqn, index_item, item_fqn, items_view, make_item_from_index};
use crate::workspace::{
    ClassInfo, ClassInfoView, ClassRef, FileClassesView, WorkspaceIndexData, class_at, class_symbol_kind,
    declared_supertype_names, declared_supertypes, first_file_with_uri, index_fits, refs_in_uris, refs_of_uri,
    lemma_class_symbol_kind_codes, strings_view, symbol_kind_for,
};

verus! {

/// A class together with the uri of the file that declares it.
pub type Located = (Seq<char>, ClassInfoView);

/// The item shown for class `c` declared in `uri`.
pub open spec fn class_item(uri: Seq<char>, c: ClassInfoView) -> HierarchyItemView {
    index_item(c.name, class_symbol_kind(c.kind), uri, c.start_line, c.fqn)
}

/// The fully-qualified names of located classes, in order.
pub open spec fn located_fqns(s: Seq<Located>) -> Seq<Seq<char>> {
    s.map_values(|l: Located| l.1.fqn)
}

/// The supertypes found for a class, from the references its declared
/// supertype names resolved to (in declaration order): each resolved class
/// in order, skipping those whose fully-qualified name was already taken.
pub open spec fn supertype_classes(wi: Seq<FileClassesView>, found: Seq<Option<ClassRef>>) -> Seq<Located>
    decreases found.len(),
{
    if found.len() == 0 {
        Seq::empty()
    } else {
        let prev = supertype_classes(wi, found.drop_last());
        match found.last() {
            Some(r) => match class_at(wi, r) {
                Some(l) => if located_fqns(prev).contains(l.1.fqn) {
                    prev
                } else {
                    prev.push(l)
                },
                None => prev,
            },
            None => prev,
        }
    }
}

/// The items shown for the supertypes found from `found`.
pub open spec fn supertype_items(wi: Seq<FileClassesView>, found: Seq<Option<ClassRef>>) -> Seq<HierarchyItemView> {
    supertype_classes(wi, found).map_values(|l: Located| class_item(l.0, l.1))
}

/// The item shown for class `cls` declared in `uri`.
pub fn item_for_class(uri: &String, cls: &ClassInfo) -> (item: HierarchyItem)
    ensures
        item@ == class_item(uri@, cls@),
{
    make_item_from_index(cls.name.as_str(), symbol_kind_for(cls.kind), uri, cls.start_line, cls.fqn.as_str())
}

/// The hierarchy item of the class that `class_ref` refers to, or `None`
/// when it refers to no class of the index.
pub fn prepare_type_hierarchy_from_fqn(class_ref: ClassRef, wi: &WorkspaceIndexData) -> (r: Option<HierarchyItem>)
    ensures
        match class_at(wi@, class_ref) {
            Some(l) => r is Some && r.unwrap()@ == class_item(l.0, l.1),
            None => r is None,
        },
{
    match wi.at(class_ref) {
        Some((uri, cls)) => {
            let item = item_for_class(uri, cls);
            assert(class_at(wi@, class_ref) == Some((uri@, cls@)));
            Some(item)
        },
        None => None,
    }
}

/// Whether `s` is among `v`.
fn contains_string(v: &Vec<String>, s: &String) -> (r: bool)
    ensures
        r == strings_view(v@).contains(s@),
{
    let mut i: usize = 0;
    while i < v.len()
        invariant
            i <= v.len(),
            forall|k: int| 0 <= k < i ==> strings_view(v@)[k] != s@,
        decreases v.len() - i,
    {
        if v[i] == *s {
            assert(strings_view(v@)[i as int] == s@);
            return true;
        }
        i = i + 1;
    }
    false
}

/// The supertype items for the references that a class's declared
/// supertypes resolved to, first occurrence of each fully-qualified name only.
pub fn collect_supertypes(wi: &WorkspaceIndexData, found: &Vec<Option<ClassRef>>) -> (items: Vec<HierarchyItem>)
    ensures
        items_view(items@) == supertype_items(wi@, found@),
{
    let mut items: Vec<HierarchyItem> = Vec::new();
    let mut seen: Vec<String> = Vec::new();
    let mut i: usize = 0;
    while i < found.len()
        invariant
            i <= found.len(),
            strings_view(seen@) == located_fqns(supertype_classes(wi@, found@.take(i as int))),
            items_view(items@) == supertype_items(wi@, found@.take(i as int)),
        decreases found.len() - i,
    {
        let ghost prev = supertype_classes(wi@, found@.take(i as int));
        assert(found@.take(i + 1).drop_last() =~= found@.take(i as int));
        assert(found@.take(i + 1).last() == found@[i as int]);
        match found[i] {
            Some(r) => match wi.at(r) {
                Some((uri, cls)) => {
                    if !contains_string(&seen, &cls.fqn) {
                        let ghost old_seen = seen@;
                        let ghost old_items = items@;
                        seen.push(cls.fqn.clone());
                        items.push(item_for_class(uri, cls));
                        assert(strings_view(seen@) =~= strings_view(old_seen).push(cls.fqn@));
                        assert(items_view(items@) =~= items_view(old_items).push(class_item(uri@, cls@)));
                        assert(supertype_classes(wi@, found@.take(i + 1)) == prev.push((uri@, cls@)));
                        assert(located_fqns(prev.push((uri@, cls@))) =~= located_fqns(prev).push(cls.fqn@));
                        assert(supertype_items(wi@, found@.take(i + 1)) =~= supertype_items(wi@, found@.take(i as int)).push(
                            class_item(uri@, cls@),
                        ));
                    }
                },
                None => {},
            },
            None => {},
        }
        i = i + 1;
    }
    assert(found@.take(found.len() as int) =~= found@);
    items
}

/// The lookups made from `item`'s data reached class `l` of the index and
/// its document `doc`: the name in the data was resolved to a reference to
/// `l`, and `get_doc` gave `doc` for `l`'s uri.
pub open spec fn class_lookup<D, G, R>(
    item: HierarchyItemView,
    wi: Seq<FileClassesView>,
    get_doc: G,
    resolve_class_ref: R,
    l: Located,
    doc: D,
) -> bool where G: Fn(&String) -> Option<D>, R: Fn(&str) -> Option<ClassRef> {
    exists|f: &str, r0: ClassRef, u: &String|
        {
            &&& data_fqn(item.data) == Some(f@)
            &&& #[trigger] resolve_class_ref.ensures((f,), Some(r0))
            &&& class_at(wi, r0) == Some(l)
            &&& u@ == l.0
            &&& #[trigger] get_doc.ensures((u,), Some(doc))
        }
}

/// The lookups made from `item`'s data stopped before reaching a class
/// and its document: the item carries no name, the name resolved to no
/// reference, the reference to no class, or the class's document was not given.
pub open spec fn class_lookup_failed<D, G, R>(item: HierarchyItemView, wi: Seq<FileClassesView>, get_doc: G, resolve_class_ref: R) -> bool where
    G: Fn(&String) -> Option<D>,
    R: Fn(&str) -> Option<ClassRef>,
 {
    ||| data_fqn(item.data) is None
    ||| exists|f: &str|
        data_fqn(item.data) == Some(f@) && #[trigger] resolve_class_ref.ensures((f,), None)
    ||| exists|f: &str, r0: ClassRef|
        data_fqn(item.data) == Some(f@) && #[trigger] resolve_class_ref.ensures((f,), Some(r0))
            && class_at(wi, r0) is None
    ||| exists|f: &str, r0: ClassRef, u: &String|
        {
            &&& data_fqn(item.data) == Some(f@)
            &&& #[trigger] resolve_class_ref.ensures((f,), Some(r0))
            &&& class_at(wi, r0) is Some
            &&& u@ == class_at(wi, r0).unwrap().0
            &&& #[trigger] get_doc.ensures((u,), None)
        }
}

/// `r` is what resolving the declared supertype `name` gave: `resolve_name`
/// turned it into a name in `doc`, which `resolve_class_ref` turned into `r`.
pub open spec fn supertype_lookup<D, R, N>(resolve_class_ref: R, resolve_name: N, doc: D, name: Seq<char>, r: Option<ClassRef>) -> bool where
    R: Fn(&str) -> Option<ClassRef>,
    N: Fn(&D, &str) -> String,
 {
    exists|n: &str, s: String, t: &str|
        {
            &&& n@ == name
            &&& #[trigger] resolve_name.ensures((&doc, n), s)
            &&& t@ == s@
            &&& #[trigger] resolve_class_ref.ensures((t,), r)
        }
}

/// Supertypes of `item`: the fully-qualified name in its data is resolved to
/// a class of the index; each name that class declares as parent, interface
/// or trait is resolved in the class's document (`resolve_name`, given the
/// document from `get_doc`) and then to a class of the index; the items of
/// those classes come in declaration order, each fully-qualified name once.
/// Empty when the item carries no name, or its class or document is not found.
pub fn supertypes_of_from_workspace<D, G, R, N>(
    item: &HierarchyItem,
    wi: &WorkspaceIndexData,
    get_doc: G,
    resolve_class_ref: R,
    resolve_name: N,
) -> (result: Vec<HierarchyItem>) where
    G: Fn(&String) -> Option<D>,
    R: Fn(&str) -> Option<ClassRef>,
    N: Fn(&D, &str) -> String,

    requires
        forall|u: &String| get_doc.requires((u,)),
        forall|s: &str| resolve_class_ref.requires((s,)),
        forall|d: &D, s: &str| resolve_name.requires((d, s)),
    ensures
        ({
            ||| result@.len() == 0 && class_lookup_failed(item@, wi@, get_doc, resolve_class_ref)
            ||| exists|l: Located, doc: D, found: Seq<Option<ClassRef>>|
                #![trigger class_lookup(item@, wi@, get_doc, resolve_class_ref, l, doc), supertype_items(wi@, found)]
                {
                    &&& class_lookup(item@, wi@, get_doc, resolve_class_ref, l, doc)
                    &&& found.len() == declared_supertypes(l.1).len()
                    &&& forall|i: int|
                        0 <= i < found.len() ==> supertype_lookup(
                            resolve_class_ref,
                            resolve_name,
                            doc,
                            declared_supertypes(l.1)[i],
                            #[trigger] found[i],
                        )
                    &&& items_view(result@) == supertype_items(wi@, found)
                }
        }),
{
    let fqn = match item_fqn(item) {
        Some(f) => f,
        None => {
            return Vec::new();
        },
    };
    let class_ref = match resolve_class_ref(fqn) {
        Some(r) => r,
        None => {
            assert(resolve_class_ref.ensures((fqn,), None));
            return Vec::new();
        },
    };
    assert(resolve_class_ref.ensures((fqn,), Some(class_ref)));
    let (uri, cls) = match wi.at(class_ref) {
        Some(p) => p,
        None => {
            return Vec::new();
        },
    };
    let doc = match get_doc(uri) {
        Some(d) => d,
        None => {
            assert(get_doc.ensures((uri,), None));
            return Vec::new();
        },
    };
    let ghost l: Located = (uri@, cls@);
    assert(get_doc.ensures((uri,), Some(doc)));
    assert(class_lookup(item@, wi@, get_doc, resolve_class_ref, l, doc));
    let names = declared_supertype_names(cls);
    let mut found: Vec<Option<ClassRef>> = Vec::new();
    let mut i: usize = 0;
    while i < names.len()
        invariant
            i <= names.len(),
            found.len() == i,
            strings_view(names@) == declared_supertypes(l.1),
            forall|s: &str| resolve_class_ref.requires((s,)),
            forall|d: &D, s: &str| resolve_name.requires((d, s)),
            forall|k: int|
                0 <= k < found.len() ==> supertype_lookup(
                    resolve_class_ref,
                    resolve_name,
                    doc,
                    declared_supertypes(l.1)[k],
                    #[trigger] found@[k],
                ),
        decreases names.len() - i,
    {
        let n = names[i].as_str();
        let resolved = resolve_name(&doc, n);
        let t = resolved.as_str();
        let r = resolve_class_ref(t);
        assert(strings_view(names@)[i as int] == n@);
        assert(resolve_name.ensures((&doc, n), resolved));
        assert(resolve_class_ref.ensures((t,), r));
        assert(supertype_lookup(resolve_class_ref, resolve_name, doc, declared_supertypes(l.1)[i as int], r));
        found.push(r);
        i = i + 1;
    }
    let result = collect_supertypes(wi, &found);
    assert(found@.len() == declared_supertypes(l.1).len());
    result
}


/// A name resolved in a document refers to the class named `target` when,
/// without its leading backslashes, it equals `target` up to ASCII case.
pub open spec fn refers_to(resolved: Seq<char>, target: Seq<char>) -> bool {
    eq_ignore_ascii_case(trim_separators(resolved), target)
}

/// Whether a resolved name refers to the class named `target`.
pub fn name_refers_to(resolved: &str, target: &str) -> (r: bool)
    ensures
        r == refers_to(resolved@, target@),
{
    let trimmed = trim_leading_separators(resolved);
    let a = string_chars(trimmed.as_str());
    let b = string_chars(target);
    chars_eq_ignore_ascii_case(&a, &b)
}

/// The items of the classes `refs` for which `matched` holds, in order.
pub open spec fn matched_items(wi: Seq<FileClassesView>, refs: Seq<ClassRef>, matched: Seq<bool>) -> Seq<HierarchyItemView>
    decreases refs.len(),
{
    if refs.len() == 0 || matched.len() != refs.len() {
        Seq::empty()
    } else {
        let prev = matched_items(wi, refs.drop_last(), matched.drop_last());
        if matched.last() {
            match class_at(wi, refs.last()) {
                Some(l) => prev.push(class_item(l.0, l.1)),
                None => prev,
            }
        } else {
            prev
        }
    }
}

/// The subtype items for the classes `refs` for which `matched` holds,
/// sorted stably by name, uri and position.
pub fn collect_subtypes(wi: &WorkspaceIndexData, refs: &Vec<ClassRef>, matched: &Vec<bool>) -> (items: Vec<HierarchyItem>)
    requires
        refs.len() == matched.len(),
    ensures
        exists|perm: Seq<int>| is_stable_sort(matched_items(wi@, refs@, matched@), items_view(items@), perm),
{
    let mut items: Vec<HierarchyItem> = Vec::new();
    let mut i: usize = 0;
    while i < refs.len()
        invariant
            i <= refs.len(),
            refs.len() == matched.len(),
            items_view(items@) == matched_items(wi@, refs@.take(i as int), matched@.take(i as int)),
        decreases refs.len() - i,
    {
        assert(refs@.take(i + 1).drop_last() =~= refs@.take(i as int));
        assert(matched@.take(i + 1).drop_last() =~= matched@.take(i as int));
        assert(refs@.take(i + 1).last() == refs@[i as int]);
        assert(matched@.take(i + 1).last() == matched@[i as int]);
        if matched[i] {
            match wi.at(refs[i]) {
                Some((uri, cls)) => {
                    let ghost old_items = items@;
                    items.push(item_for_class(uri, cls));
                    assert(items_view(items@) =~= items_view(old_items).push(class_item(uri@, cls@)));
                },
                None => {},
            }
        }
        i = i + 1;
    }
    assert(refs@.take(refs.len() as int) =~= refs@);
    assert(matched@.take(matched.len() as int) =~= matched@);
    sort_items_stably(&mut items);
    items
}

/// `resolve_name` resolved the declared supertype `name` of a class in
/// `doc` to `s`.
pub open spec fn name_resolution<D, N>(resolve_name: N, doc: D, name: Seq<char>, s: Seq<char>) -> bool where
    N: Fn(&D, &str) -> String,
 {
    exists|n: &str, r: String| n@ == name && r@ == s && #[trigger] resolve_name.ensures((&doc, n), r)
}

/// `resolve_name` resolved `name` in `doc` to a name that refers to `target`.
pub open spec fn resolves_to<D, N>(resolve_name: N, doc: D, name: Seq<char>, target: Seq<char>) -> bool where
    N: Fn(&D, &str) -> String,
 {
    exists|s: Seq<char>| #[trigger] name_resolution(resolve_name, doc, name, s) && refers_to(s, target)
}

/// `resolve_name` resolved `name` in `doc` to a name that does not refer to `target`.
pub open spec fn resolves_elsewhere<D, N>(resolve_name: N, doc: D, name: Seq<char>, target: Seq<char>) -> bool where
    N: Fn(&D, &str) -> String,
 {
    exists|s: Seq<char>| #[trigger] name_resolution(resolve_name, doc, name, s) && !refers_to(s, target)
}

/// `m` is what testing class `l` against `target` decided: true when
/// `get_doc` gave a document for `l`'s uri in which one of `l`'s declared
/// supertypes resolved to a name that refers to `target`; false when no
/// document was given, or when every declared supertype resolved to a
/// name that does not.
pub open spec fn subtype_decision<D, G, N>(get_doc: G, resolve_name: N, l: Located, target: Seq<char>, m: bool) -> bool where
    G: Fn(&String) -> Option<D>,
    N: Fn(&D, &str) -> String,
 {
    ||| !m && exists|u: &String| u@ == l.0 && #[trigger] get_doc.ensures((u,), None)
    ||| exists|u: &String, d: D|
        {
            &&& u@ == l.0
            &&& #[trigger] get_doc.ensures((u,), Some(d))
            &&& if m {
                exists|i: int|
                    0 <= i < declared_supertypes(l.1).len() && #[trigger] resolves_to(
                        resolve_name,
                        d,
                        declared_supertypes(l.1)[i],
                        target,
                    )
            } else {
                forall|i: int|
                    0 <= i < declared_supertypes(l.1).len() ==> #[trigger] resolves_elsewhere(
                        resolve_name,
                        d,
                        declared_supertypes(l.1)[i],
                        target,
                    )
            }
        }
}

/// A class whose document was given, and none of whose declared supertypes
/// resolved to the target, is decided not to match.
proof fn lemma_subtype_decision_unmatched<D, G, N>(get_doc: G, resolve_name: N, l: Located, target: Seq<char>, u: &String, d: D) where
    G: Fn(&String) -> Option<D>,
    N: Fn(&D, &str) -> String,

    requires
        u@ == l.0,
        get_doc.ensures((u,), Some(d)),
        forall|i: int|
            0 <= i < declared_supertypes(l.1).len() ==> #[trigger] resolves_elsewhere(
                resolve_name,
                d,
                declared_supertypes(l.1)[i],
                target,
            ),
    ensures
        subtype_decision(get_doc, resolve_name, l, target, false),
{
}

/// `m` is what testing the class that a reference points to decided; a
/// reference to no class is never matched.
pub open spec fn class_decision<D, G, N>(get_doc: G, resolve_name: N, lo: Option<Located>, target: Seq<char>, m: bool) -> bool where
    G: Fn(&String) -> Option<D>,
    N: Fn(&D, &str) -> String,
 {
    match lo {
        Some(l) => subtype_decision(get_doc, resolve_name, l, target, m),
        None => !m,
    }
}

/// `result` is the subtypes found among the classes of the files `uris`:
/// each class was tested against `target`, and the matched ones' items
/// come sorted stably by name, uri and position.
pub open spec fn subtypes_among<D, G, N>(
    wi: Seq<FileClassesView>,
    uris: Seq<Seq<char>>,
    target: Seq<char>,
    get_doc: G,
    resolve_name: N,
    result: Seq<HierarchyItemView>,
) -> bool where G: Fn(&String) -> Option<D>, N: Fn(&D, &str) -> String {
    exists|matched: Seq<bool>, perm: Seq<int>|
        #![trigger matched_items(wi, refs_in_uris(wi, uris), matched), is_stable_sort(matched_items(wi, refs_in_uris(wi, uris), matched), result, perm)]
        {
            &&& matched.len() == refs_in_uris(wi, uris).len()
            &&& forall|i: int|
                0 <= i < matched.len() ==> class_decision(
                    get_doc,
                    resolve_name,
                    class_at(wi, refs_in_uris(wi, uris)[i]),
                    target,
                    #[trigger] matched[i],
                )
            &&& is_stable_sort(matched_items(wi, refs_in_uris(wi, uris), matched), result, perm)
        }
}

/// The subtypes of the class named `target` among the classes of the files `uris`.
fn subtypes_in_uris<D, G, N>(target: &str, wi: &WorkspaceIndexData, uris: &Vec<String>, get_doc: G, resolve_name: N) -> (result: Vec<HierarchyItem>) where
    G: Fn(&String) -> Option<D>,
    N: Fn(&D, &str) -> String,

    requires
        forall|u: &String| get_doc.requires((u,)),
        forall|d: &D, s: &str| resolve_name.requires((d, s)),
    ensures
        subtypes_among(wi@, strings_view(uris@), target@, get_doc, resolve_name, items_view(result@)),
{
    let refs = wi.classes_in_uris(uris);
    let mut matched: Vec<bool> = Vec::new();
    let mut i: usize = 0;
    while i < refs.len()
        invariant
            i <= refs.len(),
            matched.len() == i,
            refs@ == refs_in_uris(wi@, strings_view(uris@)),
            forall|u: &String| get_doc.requires((u,)),
            forall|d: &D, s: &str| resolve_name.requires((d, s)),
            forall|k: int|
                0 <= k < matched.len() ==> class_decision(
                    get_doc,
                    resolve_name,
                    class_at(wi@, refs@[k]),
                    target@,
                    #[trigger] matched@[k],
                ),
        decreases refs.len() - i,
    {
        let mut m = false;
        match wi.at(refs[i]) {
            Some((uri, cls)) => {
                let ghost l: Located = (uri@, cls@);
                match get_doc(uri) {
                    None => {
                        assert(get_doc.ensures((uri,), None));
                    },
                    Some(doc) => {
                        assert(get_doc.ensures((uri,), Some(doc)));
                        let names = declared_supertype_names(cls);
                        let mut j: usize = 0;
                        let ghost mut seen: Seq<Seq<char>> = Seq::empty();
                        while j < names.len()
                            invariant_except_break
                                !m,
                            invariant
                                j <= names.len(),
                                seen.len() == j,
                                l == (uri@, cls@),
                                get_doc.ensures((uri,), Some(doc)),
                                strings_view(names@) == declared_supertypes(l.1),
                                names.len() == declared_supertypes(l.1).len(),
                                forall|d: &D, s: &str| resolve_name.requires((d, s)),
                                forall|k: int|
                                    0 <= k < j ==> #[trigger] name_resolution(
                                        resolve_name,
                                        doc,
                                        declared_supertypes(l.1)[k],
                                        seen[k],
                                    ) && !refers_to(seen[k], target@),
                            ensures
                                m ==> subtype_decision(get_doc, resolve_name, l, target@, true),
                                !m ==> seen.len() == declared_supertypes(l.1).len(),
                                !m ==> forall|k: int|
                                    0 <= k < seen.len() ==> #[trigger] name_resolution(
                                        resolve_name,
                                        doc,
                                        declared_supertypes(l.1)[k],
                                        seen[k],
                                    ) && !refers_to(seen[k], target@),
                            decreases names.len() - j,
                        {
                            let n = names[j].as_str();
                            let resolved = resolve_name(&doc, n);
                            assert(strings_view(names@)[j as int] == n@);
                            assert(resolve_name.ensures((&doc, n), resolved));
                            assert(name_resolution(resolve_name, doc, declared_supertypes(l.1)[j as int], resolved@));
                            let hit = name_refers_to(resolved.as_str(), target);
                            assert(hit == refers_to(resolved@, target@));
                            if hit {
                                m = true;
                                assert(resolves_to(resolve_name, doc, declared_supertypes(l.1)[j as int], target@));
                                assert(subtype_decision(get_doc, resolve_name, l, target@, true));
                                break;
                            }
                            proof {
                                seen = seen.push(resolved@);
                            }
                            j = j + 1;
                        }
                        if !m {
                            assert forall|k: int|
                                0 <= k < declared_supertypes(l.1).len() implies #[trigger] resolves_elsewhere(
                                    resolve_name,
                                    doc,
                                    declared_supertypes(l.1)[k],
                                    target@,
                                ) by {
                                assert(name_resolution(resolve_name, doc, declared_supertypes(l.1)[k], seen[k]));
                            }
                            assert(get_doc.ensures((uri,), Some(doc)));
                            assert(uri@ == l.0);
                            proof {
                                lemma_subtype_decision_unmatched(get_doc, resolve_name, l, target@, uri, doc);
                            }
                        }
                    },
                }
                assert(subtype_decision(get_doc, resolve_name, l, target@, m));
            },
            None => {},
        }
        matched.push(m);
        i = i + 1;
    }
    let result = collect_subtypes(wi, &refs, &matched);
    proof {
        let perm = choose|perm: Seq<int>|
            is_stable_sort(matched_items(wi@, refs@, matched@), items_view(result@), perm);
        assert(is_stable_sort(
            matched_items(wi@, refs_in_uris(wi@, strings_view(uris@)), matched@),
            items_view(result@),
            perm,
        ));
    }
    result
}

/// The candidate files that `mention_candidates` gave for `name` hold the
/// subtypes `result` of the class named `target`.
pub open spec fn subtypes_among_mentions<D, M, G, N>(
    wi: Seq<FileClassesView>,
    name: Seq<char>,
    target: Seq<char>,
    mention_candidates: M,
    get_doc: G,
    resolve_name: N,
    result: Seq<HierarchyItemView>,
) -> bool where M: Fn(&str) -> Vec<String>, G: Fn(&String) -> Option<D>, N: Fn(&D, &str) -> String {
    exists|n: &str, uris: Vec<String>|
        {
            &&& n@ == name
            &&& #[trigger] mention_candidates.ensures((n,), uris)
            &&& subtypes_among(wi, strings_view(uris@), target, get_doc, resolve_name, result)
        }
}

/// Subtypes of the class named `item_fqn`: the files that mention the
/// item's name (`mention_candidates`) are the only ones whose classes can
/// name it as parent, interface or trait; each of their classes is tested by
/// resolving its declared supertypes in its document and comparing them,
/// without leading backslashes and up to ASCII case, with `item_fqn`. The
/// matching classes' items come sorted stably by name, uri and position.
pub fn subtypes_of_from_workspace<D, M, G, N>(
    item: &HierarchyItem,
    item_fqn: &str,
    wi: &WorkspaceIndexData,
    mention_candidates: M,
    get_doc: G,
    resolve_name: N,
) -> (result: Vec<HierarchyItem>) where
    M: Fn(&str) -> Vec<String>,
    G: Fn(&String) -> Option<D>,
    N: Fn(&D, &str) -> String,

    requires
        forall|s: &str| mention_candidates.requires((s,)),
        forall|u: &String| get_doc.requires((u,)),
        forall|d: &D, s: &str| resolve_name.requires((d, s)),
    ensures
        subtypes_among_mentions(
            wi@,
            item@.name,
            item_fqn@,
            mention_candidates,
            get_doc,
            resolve_name,
            items_view(result@),
        ),
{
    let name = item.name.as_str();
    let candidate_uris = mention_candidates(name);
    assert(mention_candidates.ensures((name,), candidate_uris));
    subtypes_in_uris(item_fqn, wi, &candidate_uris, get_doc, resolve_name)
}

/// Subtypes of the class named `item_fqn` among the classes of the files
/// `subtype_urls` (the files known to declare its subtypes), tested as in
/// [`subtypes_of_from_workspace`]; when `subtype_urls` is empty, the result
/// of [`subtypes_of_from_workspace`] instead.
pub fn subtypes_of_mir_backed<D, M, G, N>(
    item: &HierarchyItem,
    item_fqn: &str,
    wi: &WorkspaceIndexData,
    subtype_urls: &Vec<String>,
    mention_candidates: M,
    get_doc: G,
    resolve_name: N,
) -> (result: Vec<HierarchyItem>) where
    M: Fn(&str) -> Vec<String>,
    G: Fn(&String) -> Option<D>,
    N: Fn(&D, &str) -> String,

    requires
        forall|s: &str| mention_candidates.requires((s,)),
        forall|u: &String| get_doc.requires((u,)),
        forall|d: &D, s: &str| resolve_name.requires((d, s)),
    ensures
        subtype_urls.len() == 0 ==> subtypes_among_mentions(
            wi@,
            item@.name,
            item_fqn@,
            mention_candidates,
            get_doc,
            resolve_name,
            items_view(result@),
        ),
        subtype_urls.len() > 0 ==> subtypes_among(
            wi@,
            strings_view(subtype_urls@),
            item_fqn@,
            get_doc,
            resolve_name,
            items_view(result@),
        ),
{
    if subtype_urls.len() == 0 {
        return subtypes_of_from_workspace(item, item_fqn, wi, mention_candidates, get_doc, resolve_name);
    }
    subtypes_in_uris(item_fqn, wi, subtype_urls, get_doc, resolve_name)
}

/// `found[i]` refers to class `l` of the index.
pub open spec fn found_class(wi: Seq<FileClassesView>, found: Seq<Option<ClassRef>>, i: int, l: Located) -> bool {
    &&& 0 <= i < found.len()
    &&& found[i] is Some
    &&& class_at(wi, found[i].unwrap()) == Some(l)
}

/// No two supertypes share a fully-qualified name.
pub proof fn lemma_supertypes_distinct(wi: Seq<FileClassesView>, found: Seq<Option<ClassRef>>)
    ensures
        located_fqns(supertype_classes(wi, found)).no_duplicates(),
    decreases found.len(),
{
    if found.len() > 0 {
        lemma_supertypes_distinct(wi, found.drop_last());
        let prev = supertype_classes(wi, found.drop_last());
        let cur = supertype_classes(wi, found);
        if cur != prev {
            let l = class_at(wi, found.last().unwrap()).unwrap();
            assert(cur == prev.push(l));
            assert(located_fqns(cur) =~= located_fqns(prev).push(l.1.fqn));
            assert(!located_fqns(prev).contains(l.1.fqn));
        }
    }
}

/// `found[i]` is the first found reference that reaches a class with the
/// fully-qualified name of `l`, and it reaches `l`.
pub open spec fn first_found(wi: Seq<FileClassesView>, found: Seq<Option<ClassRef>>, i: int, l: Located) -> bool {
    &&& found_class(wi, found, i, l)
    &&& forall|j: int, l2: Located| 0 <= j < i && #[trigger] found_class(wi, found, j, l2) ==> l2.1.fqn != l.1.fqn
}

/// The supertype at position `k` is reached first by some found reference.
pub open spec fn supertype_first_found(wi: Seq<FileClassesView>, found: Seq<Option<ClassRef>>, k: int) -> bool {
    exists|i: int| #[trigger] first_found(wi, found, i, supertype_classes(wi, found)[k])
}

/// Every class that a found reference points to has its fully-qualified
/// name among the supertypes.
pub proof fn lemma_supertypes_cover(wi: Seq<FileClassesView>, found: Seq<Option<ClassRef>>)
    ensures
        forall|i: int, l: Located|
            #[trigger] found_class(wi, found, i, l) ==> located_fqns(supertype_classes(wi, found)).contains(l.1.fqn),
    decreases found.len(),
{
    if found.len() > 0 {
        let init = found.drop_last();
        lemma_supertypes_cover(wi, init);
        let prev = supertype_classes(wi, init);
        let last = found.len() - 1;
        assert forall|i: int, l: Located| #[trigger] found_class(wi, found, i, l) implies located_fqns(
            supertype_classes(wi, found),
        ).contains(l.1.fqn) by {
            if i < last {
                assert(found_class(wi, init, i, l));
                assert(located_fqns(prev).contains(l.1.fqn));
                let t = choose|t: int| 0 <= t < located_fqns(prev).len() && located_fqns(prev)[t] == l.1.fqn;
                if supertype_classes(wi, found) != prev {
                    assert(located_fqns(supertype_classes(wi, found))[t] == l.1.fqn);
                }
            } else {
                if supertype_classes(wi, found) != prev {
                    assert(located_fqns(supertype_classes(wi, found))[prev.len() as int] == l.1.fqn);
                }
            }
        }
    }
}

/// Each supertype is the class of the first found reference that reaches a
/// class with its fully-qualified name.
pub proof fn lemma_supertypes_first_found(wi: Seq<FileClassesView>, found: Seq<Option<ClassRef>>)
    ensures
        forall|k: int|
            0 <= k < supertype_classes(wi, found).len() ==> #[trigger] supertype_first_found(wi, found, k),
    decreases found.len(),
{
    if found.len() > 0 {
        let init = found.drop_last();
        let prev = supertype_classes(wi, init);
        let last = found.len() - 1;
        lemma_supertypes_first_found(wi, init);
        lemma_supertypes_cover(wi, init);
        assert forall|k: int|
            0 <= k < supertype_classes(wi, found).len() implies #[trigger] supertype_first_found(wi, found, k) by {
            if k < prev.len() {
                assert(supertype_first_found(wi, init, k));
                assert(supertype_classes(wi, found)[k] == prev[k]);
                let i = choose|i: int| #[trigger] first_found(wi, init, i, prev[k]);
                assert forall|j: int, l: Located|
                    0 <= j < i && #[trigger] found_class(wi, found, j, l) implies l.1.fqn != prev[k].1.fqn by {
                    assert(found_class(wi, init, j, l));
                }
                assert(first_found(wi, found, i, supertype_classes(wi, found)[k]));
            } else {
                let l = class_at(wi, found.last().unwrap()).unwrap();
                assert(supertype_classes(wi, found) == prev.push(l));
                assert(supertype_classes(wi, found)[k] == l);
                assert forall|j: int, l2: Located|
                    0 <= j < last && #[trigger] found_class(wi, found, j, l2) implies l2.1.fqn != l.1.fqn by {
                    assert(found_class(wi, init, j, l2));
                    assert(located_fqns(prev).contains(l2.1.fqn));
                }
                assert(first_found(wi, found, last, supertype_classes(wi, found)[k]));
            }
        }
    }
}

/// The item prepared for a class carries the class's fully-qualified name
/// without leading backslashes, which is what the supertypes request reads back.
pub proof fn lemma_prepared_item_carries_fqn(wi: Seq<FileClassesView>, r: ClassRef)
    requires
        class_at(wi, r) is Some,
    ensures
        data_fqn(class_item(class_at(wi, r).unwrap().0, class_at(wi, r).unwrap().1).data) == Some(
            trim_separators(class_at(wi, r).unwrap().1.fqn),
        ),
{
    let l = class_at(wi, r).unwrap();
    lemma_index_item_fqn_roundtrip(l.1.name, class_symbol_kind(l.1.kind), l.0, l.1.start_line, l.1.fqn);
}

/// A class that declares no parent, interface or trait is never a subtype.
pub proof fn lemma_no_declared_supertypes_no_match<D, G, N>(get_doc: G, resolve_name: N, l: Located, target: Seq<char>) where
    G: Fn(&String) -> Option<D>,
    N: Fn(&D, &str) -> String,

    requires
        declared_supertypes(l.1).len() == 0,
    ensures
        !subtype_decision(get_doc, resolve_name, l, target, true),
{
}

/// Whether a resolved name refers to a class ignores any leading
/// backslash and ASCII case.
pub proof fn lemma_refers_to_ignores_separator_and_case(s: Seq<char>, t: Seq<char>, u: Seq<char>)
    requires
        eq_ignore_ascii_case(t, u),
    ensures
        refers_to(seq!['\\'] + s, t) == refers_to(s, t),
        refers_to(s, t) == refers_to(s, u),
{
    let p = seq!['\\'] + s;
    assert(p.drop_first() =~= s);
    lemma_eq_ignore_ascii_case_equivalence(trim_separators(s), t, u);
    lemma_eq_ignore_ascii_case_equivalence(t, u, trim_separators(s));
    lemma_eq_ignore_ascii_case_equivalence(trim_separators(s), u, t);
    lemma_eq_ignore_ascii_case_equivalence(u, t, trim_separators(s));
}

/// Every reference gathered for a list of uris points to a class declared in
/// a file whose uri is on the list.
pub proof fn lemma_refs_in_uris_declared_there(wi: Seq<FileClassesView>, uris: Seq<Seq<char>>)
    requires
        index_fits(wi),
    ensures
        forall|i: int|
            0 <= i < refs_in_uris(wi, uris).len() ==> {
                &&& #[trigger] class_at(wi, refs_in_uris(wi, uris)[i]) is Some
                &&& uris.contains(class_at(wi, refs_in_uris(wi, uris)[i]).unwrap().0)
            },
    decreases uris.len(),
{
    if uris.len() > 0 {
        let init = uris.drop_last();
        let u = uris.last();
        lemma_refs_in_uris_declared_there(wi, init);
        let prev = refs_in_uris(wi, init);
        let here = refs_of_uri(wi, u);
        assert(refs_in_uris(wi, uris) == prev + here);
        assert forall|i: int|
            0 <= i < refs_in_uris(wi, uris).len() implies {
                &&& #[trigger] class_at(wi, refs_in_uris(wi, uris)[i]) is Some
                &&& uris.contains(class_at(wi, refs_in_uris(wi, uris)[i]).unwrap().0)
            } by {
            if i < prev.len() {
                assert(refs_in_uris(wi, uris)[i] == prev[i]);
                assert(class_at(wi, prev[i]) is Some);
                let t = choose|t: int| 0 <= t < init.len() && init[t] == class_at(wi, prev[i]).unwrap().0;
                assert(uris[t] == init[t]);
            } else {
                assert(here.len() > 0);
                assert(first_file_with_uri(wi, u) is Some);
                let j = first_file_with_uri(wi, u).unwrap();
                assert(0 <= j < wi.len() && wi[j].uri == u);
                let m = i - prev.len();
                assert(0 <= m < wi[j].classes.len());
                assert(refs_in_uris(wi, uris)[i] == here[m]);
                assert(here[m] == ClassRef { file: j as usize, class: m as usize });
                assert(class_at(wi, here[m]) == Some((wi[j].uri, wi[j].classes[m])));
                assert(uris[uris.len() - 1] == u);
            }
        }
    }
}

/// `it` is the item of a class that one of `refs` points to.
pub open spec fn item_of_ref(wi: Seq<FileClassesView>, refs: Seq<ClassRef>, it: HierarchyItemView) -> bool {
    exists|i: int|
        0 <= i < refs.len() && #[trigger] class_at(wi, refs[i]) is Some && it == class_item(
            class_at(wi, refs[i]).unwrap().0,
            class_at(wi, refs[i]).unwrap().1,
        )
}

/// Every matched item is the item of a class that one of `refs` points to.
proof fn lemma_matched_items_from_refs(wi: Seq<FileClassesView>, refs: Seq<ClassRef>, matched: Seq<bool>)
    ensures
        forall|k: int|
            0 <= k < matched_items(wi, refs, matched).len() ==> #[trigger] item_of_ref(
                wi,
                refs,
                matched_items(wi, refs, matched)[k],
            ),
    decreases refs.len(),
{
    if refs.len() > 0 && matched.len() == refs.len() {
        let init = refs.drop_last();
        lemma_matched_items_from_refs(wi, init, matched.drop_last());
        let prev = matched_items(wi, init, matched.drop_last());
        assert forall|k: int| 0 <= k < matched_items(wi, refs, matched).len() implies #[trigger] item_of_ref(
            wi,
            refs,
            matched_items(wi, refs, matched)[k],
        ) by {
            if k < prev.len() {
                assert(matched_items(wi, refs, matched)[k] == prev[k]);
                assert(item_of_ref(wi, init, prev[k]));
                let i = choose|i: int|
                    0 <= i < init.len() && #[trigger] class_at(wi, init[i]) is Some && prev[k] == class_item(
                        class_at(wi, init[i]).unwrap().0,
                        class_at(wi, init[i]).unwrap().1,
                    );
                assert(refs[i] == init[i]);
            } else {
                assert(class_at(wi, refs[refs.len() - 1]) is Some);
            }
        }
    }
}

/// The subtypes found among the classes of some files are all declared in
/// those files: mention candidates (or the given files) bound where subtypes come from.
pub proof fn lemma_subtypes_declared_in_files<D, G, N>(
    wi: Seq<FileClassesView>,
    uris: Seq<Seq<char>>,
    target: Seq<char>,
    get_doc: G,
    resolve_name: N,
    result: Seq<HierarchyItemView>,
) where G: Fn(&String) -> Option<D>, N: Fn(&D, &str) -> String
    requires
        index_fits(wi),
        subtypes_among(wi, uris, target, get_doc, resolve_name, result),
    ensures
        forall|k: int| 0 <= k < result.len() ==> uris.contains(#[trigger] result[k].uri),
{
    let (matched, perm) = choose|matched: Seq<bool>, perm: Seq<int>|
        {
            &&& matched.len() == refs_in_uris(wi, uris).len()
            &&& forall|i: int|
                0 <= i < matched.len() ==> class_decision(
                    get_doc,
                    resolve_name,
                    class_at(wi, refs_in_uris(wi, uris)[i]),
                    target,
                    #[trigger] matched[i],
                )
            &&& is_stable_sort(matched_items(wi, refs_in_uris(wi, uris), matched), result, perm)
        };
    let refs = refs_in_uris(wi, uris);
    let before = matched_items(wi, refs, matched);
    lemma_refs_in_uris_declared_there(wi, uris);
    lemma_matched_items_from_refs(wi, refs, matched);
    assert forall|k: int| 0 <= k < result.len() implies uris.contains(#[trigger] result[k].uri) by {
        assert(result[k] == before[perm[k]]);
        assert(item_of_ref(wi, refs, before[perm[k]]));
        let i = choose|i: int|
            0 <= i < refs.len() && #[trigger] class_at(wi, refs[i]) is Some && before[perm[k]] == class_item(
                class_at(wi, refs[i]).unwrap().0,
                class_at(wi, refs[i]).unwrap().1,
            );
        assert(uris.contains(class_at(wi, refs[i]).unwrap().0));
    }
}

/// `get_doc` gives one result per uri.
pub open spec fn doc_lookup_is_function<D, G>(get_doc: G) -> bool where G: Fn(&String) -> Option<D> {
    forall|u1: &String, u2: &String, r1: Option<D>, r2: Option<D>|
        u1@ == u2@ && #[trigger] get_doc.ensures((u1,), r1) && #[trigger] get_doc.ensures((u2,), r2) ==> r1 == r2
}

/// `resolve_name` gives one resolved name per document and name.
pub open spec fn resolution_is_function<D, N>(resolve_name: N) -> bool where N: Fn(&D, &str) -> String {
    forall|d: &D, n1: &str, n2: &str, r1: String, r2: String|
        n1@ == n2@ && #[trigger] resolve_name.ensures((d, n1), r1) && #[trigger] resolve_name.ensures((d, n2), r2)
            ==> r1@ == r2@
}

/// `mention_candidates` gives one list of uris per name.
pub open spec fn mentions_are_function<M>(mention_candidates: M) -> bool where M: Fn(&str) -> Vec<String> {
    forall|n1: &str, n2: &str, r1: Vec<String>, r2: Vec<String>|
        n1@ == n2@ && #[trigger] mention_candidates.ensures((n1,), r1) && #[trigger] mention_candidates.ensures(
            (n2,),
            r2,
        ) ==> strings_view(r1@) == strings_view(r2@)
}

/// With lookups that give one result per input, whether a class matches is determined.
proof fn lemma_decision_unique<D, G, N>(get_doc: G, resolve_name: N, lo: Option<Located>, target: Seq<char>, a: bool, b: bool) where
    G: Fn(&String) -> Option<D>,
    N: Fn(&D, &str) -> String,

    requires
        doc_lookup_is_function(get_doc),
        resolution_is_function(resolve_name),
        class_decision(get_doc, resolve_name, lo, target, a),
        class_decision(get_doc, resolve_name, lo, target, b),
    ensures
        a == b,
{
    if a != b && lo is Some {
        let l = lo.unwrap();
        assert(subtype_decision(get_doc, resolve_name, l, target, true));
        assert(subtype_decision(get_doc, resolve_name, l, target, false));
        let (u1, d1) = choose|u: &String, d: D|
            {
                &&& u@ == l.0
                &&& #[trigger] get_doc.ensures((u,), Some(d))
                &&& exists|i: int|
                    0 <= i < declared_supertypes(l.1).len() && #[trigger] resolves_to(
                        resolve_name,
                        d,
                        declared_supertypes(l.1)[i],
                        target,
                    )
            };
        let i = choose|i: int|
            0 <= i < declared_supertypes(l.1).len() && #[trigger] resolves_to(
                resolve_name,
                d1,
                declared_supertypes(l.1)[i],
                target,
            );
        if exists|u: &String| u@ == l.0 && #[trigger] get_doc.ensures((u,), None) {
            let u2 = choose|u: &String| u@ == l.0 && #[trigger] get_doc.ensures((u,), None);
            assert(get_doc.ensures((u1,), Some(d1)) && get_doc.ensures((u2,), None));
        } else {
            let (u2, d2) = choose|u: &String, d: D|
                {
                    &&& u@ == l.0
                    &&& #[trigger] get_doc.ensures((u,), Some(d))
                    &&& forall|i: int|
                        0 <= i < declared_supertypes(l.1).len() ==> #[trigger] resolves_elsewhere(
                            resolve_name,
                            d,
                            declared_supertypes(l.1)[i],
                            target,
                        )
                };
            assert(get_doc.ensures((u1,), Some(d1)) && get_doc.ensures((u2,), Some(d2)));
            assert(d1 == d2);
            let name = declared_supertypes(l.1)[i];
            assert(resolves_elsewhere(resolve_name, d2, name, target));
            let s1 = choose|s: Seq<char>| #[trigger] name_resolution(resolve_name, d1, name, s) && refers_to(s, target);
            let s2 = choose|s: Seq<char>| #[trigger] name_resolution(resolve_name, d1, name, s) && !refers_to(s, target);
            let (n1, r1) = choose|n: &str, r: String| n@ == name && r@ == s1 && #[trigger] resolve_name.ensures((&d1, n), r);
            let (n2, r2) = choose|n: &str, r: String| n@ == name && r@ == s2 && #[trigger] resolve_name.ensures((&d1, n), r);
            assert(resolve_name.ensures((&d1, n1), r1) && resolve_name.ensures((&d1, n2), r2));
            assert(s1 == s2);
        }
    }
}

/// With lookups that give one result per input, the subtypes found among
/// the classes of given files are determined: two results for the same index,
/// files, target and lookups are equal.
pub proof fn lemma_subtypes_among_unique<D, G, N>(
    wi: Seq<FileClassesView>,
    uris: Seq<Seq<char>>,
    target: Seq<char>,
    get_doc: G,
    resolve_name: N,
    r1: Seq<HierarchyItemView>,
    r2: Seq<HierarchyItemView>,
) where G: Fn(&String) -> Option<D>, N: Fn(&D, &str) -> String
    requires
        doc_lookup_is_function(get_doc),
        resolution_is_function(resolve_name),
        subtypes_among(wi, uris, target, get_doc, resolve_name, r1),
        subtypes_among(wi, uris, target, get_doc, resolve_name, r2),
    ensures
        r1 == r2,
{
    let refs = refs_in_uris(wi, uris);
    let (m1, p1) = choose|matched: Seq<bool>, perm: Seq<int>|
        {
            &&& matched.len() == refs_in_uris(wi, uris).len()
            &&& forall|i: int|
                0 <= i < matched.len() ==> class_decision(
                    get_doc,
                    resolve_name,
                    class_at(wi, refs_in_uris(wi, uris)[i]),
                    target,
                    #[trigger] matched[i],
                )
            &&& is_stable_sort(matched_items(wi, refs_in_uris(wi, uris), matched), r1, perm)
        };
    let (m2, p2) = choose|matched: Seq<bool>, perm: Seq<int>|
        {
            &&& matched.len() == refs_in_uris(wi, uris).len()
            &&& forall|i: int|
                0 <= i < matched.len() ==> class_decision(
                    get_doc,
                    resolve_name,
                    class_at(wi, refs_in_uris(wi, uris)[i]),
                    target,
                    #[trigger] matched[i],
                )
            &&& is_stable_sort(matched_items(wi, refs_in_uris(wi, uris), matched), r2, perm)
        };
    assert forall|i: int| 0 <= i < m1.len() implies m1[i] == m2[i] by {
        lemma_decision_unique(get_doc, resolve_name, class_at(wi, refs[i]), target, m1[i], m2[i]);
    }
    assert(m1 =~= m2);
    lemma_stable_sort_unique(matched_items(wi, refs, m1), r1, p1, r2, p2);
}

/// With lookups that give one result per input, the subtypes found through
/// the files that mention a name are determined by that name: two results for
/// the same index, name, target and lookups are equal. So the subtypes of an
/// item depend on its name only, not on its uri, range or data.
pub proof fn lemma_subtypes_among_mentions_unique<D, M, G, N>(
    wi: Seq<FileClassesView>,
    name: Seq<char>,
    target: Seq<char>,
    mention_candidates: M,
    get_doc: G,
    resolve_name: N,
    r1: Seq<HierarchyItemView>,
    r2: Seq<HierarchyItemView>,
) where M: Fn(&str) -> Vec<String>, G: Fn(&String) -> Option<D>, N: Fn(&D, &str) -> String
    requires
        mentions_are_function(mention_candidates),
        doc_lookup_is_function(get_doc),
        resolution_is_function(resolve_name),
        subtypes_among_mentions(wi, name, target, mention_candidates, get_doc, resolve_name, r1),
        subtypes_among_mentions(wi, name, target, mention_candidates, get_doc, resolve_name, r2),
    ensures
        r1 == r2,
{
    let (n1, u1) = choose|n: &str, uris: Vec<String>|
        {
            &&& n@ == name
            &&& #[trigger] mention_candidates.ensures((n,), uris)
            &&& subtypes_among(wi, strings_view(uris@), target, get_doc, resolve_name, r1)
        };
    let (n2, u2) = choose|n: &str, uris: Vec<String>|
        {
            &&& n@ == name
            &&& #[trigger] mention_candidates.ensures((n,), uris)
            &&& subtypes_among(wi, strings_view(uris@), target, get_doc, resolve_name, r2)
        };
    assert(mention_candidates.ensures((n1,), u1) && mention_candidates.ensures((n2,), u2));
    assert(strings_view(u1@) == strings_view(u2@));
    lemma_subtypes_among_unique(wi, strings_view(u1@), target, get_doc, resolve_name, r1, r2);
}

/// With lookups that give one result per input, the subtypes found among
/// given files are those found through mentions when the mention lookup
/// gives exactly those files for every name.
pub proof fn lemma_given_files_as_mentions<D, M, G, N>(
    wi: Seq<FileClassesView>,
    uris: Seq<Seq<char>>,
    name: Seq<char>,
    target: Seq<char>,
    mention_candidates: M,
    get_doc: G,
    resolve_name: N,
    r1: Seq<HierarchyItemView>,
    r2: Seq<HierarchyItemView>,
) where M: Fn(&str) -> Vec<String>, G: Fn(&String) -> Option<D>, N: Fn(&D, &str) -> String
    requires
        forall|n: &str, r: Vec<String>| #[trigger] mention_candidates.ensures((n,), r) ==> strings_view(r@) == uris,
        doc_lookup_is_function(get_doc),
        resolution_is_function(resolve_name),
        subtypes_among(wi, uris, target, get_doc, resolve_name, r1),
        subtypes_among_mentions(wi, name, target, mention_candidates, get_doc, resolve_name, r2),
    ensures
        r1 == r2,
{
    let (n2, u2) = choose|n: &str, us: Vec<String>|
        {
            &&& n@ == name
            &&& #[trigger] mention_candidates.ensures((n,), us)
            &&& subtypes_among(wi, strings_view(us@), target, get_doc, resolve_name, r2)
        };
    assert(strings_view(u2@) == uris);
    lemma_subtypes_among_unique(wi, uris, target, get_doc, resolve_name, r1, r2);
}

/// A resolved name refers to the target exactly when, once its leading
/// backslashes are dropped, what remains has the target's length and matches
/// it char by char, where only an ASCII letter may differ from its other case.
/// A longer name that merely ends in the target, or one that differs in a
/// digit or any non-letter, never refers to it.
pub proof fn lemma_refers_to_whole_name(resolved: Seq<char>, target: Seq<char>)
    ensures
        refers_to(resolved, target) <==> exists|k: int|
            #![trigger resolved.skip(k)]
            {
                &&& 0 <= k <= resolved.len()
                &&& forall|j: int| 0 <= j < k ==> resolved[j] == '\\'
                &&& (k == resolved.len() || resolved[k] != '\\')
                &&& resolved.len() - k == target.len()
                &&& forall|i: int|
                    0 <= i < target.len() ==> {
                        ||| resolved.skip(k)[i] == #[trigger] target[i]
                        ||| 65 <= (resolved.skip(k)[i] as u32) <= 90 && (target[i] as u32) == (resolved.skip(k)[i] as u32) + 32
                        ||| 65 <= (target[i] as u32) <= 90 && (resolved.skip(k)[i] as u32) == (target[i] as u32) + 32
                    }
            },
{
    lemma_trim_separators_removes_leading(resolved);
    let k0 = choose|k: int|
        #![trigger resolved.skip(k)]
        {
            &&& 0 <= k <= resolved.len()
            &&& trim_separators(resolved) == resolved.skip(k)
            &&& forall|j: int| 0 <= j < k ==> resolved[j] == '\\'
            &&& (k == resolved.len() || resolved[k] != '\\')
        };
    lemma_eq_ignore_ascii_case_chars(resolved.skip(k0), target);
    if exists|k: int|
        #![trigger resolved.skip(k)]
        {
            &&& 0 <= k <= resolved.len()
            &&& forall|j: int| 0 <= j < k ==> resolved[j] == '\\'
            &&& (k == resolved.len() || resolved[k] != '\\')
            &&& resolved.len() - k == target.len()
            &&& forall|i: int|
                0 <= i < target.len() ==> {
                    ||| resolved.skip(k)[i] == #[trigger] target[i]
                    ||| 65 <= (resolved.skip(k)[i] as u32) <= 90 && (target[i] as u32) == (resolved.skip(k)[i] as u32) + 32
                    ||| 65 <= (target[i] as u32) <= 90 && (resolved.skip(k)[i] as u32) == (target[i] as u32) + 32
                }
        } {
        let k = choose|k: int|
            #![trigger resolved.skip(k)]
            {
                &&& 0 <= k <= resolved.len()
                &&& forall|j: int| 0 <= j < k ==> resolved[j] == '\\'
                &&& (k == resolved.len() || resolved[k] != '\\')
                &&& resolved.len() - k == target.len()
                &&& forall|i: int|
                    0 <= i < target.len() ==> {
                        ||| resolved.skip(k)[i] == #[trigger] target[i]
                        ||| 65 <= (resolved.skip(k)[i] as u32) <= 90 && (target[i] as u32) == (resolved.skip(k)[i] as u32) + 32
                        ||| 65 <= (target[i] as u32) <= 90 && (resolved.skip(k)[i] as u32) == (target[i] as u32) + 32
                    }
            };
        if k < k0 {
            assert(resolved[k] == '\\');
        }
        if k0 < k {
            assert(resolved[k0] == '\\');
        }
        assert(k == k0);
    }
    if refers_to(resolved, target) {
        assert(resolved.skip(k0).len() == target.len());
    }
}

/// The item shown for a class has the class's name and uri, the symbol kind
/// of its declaration (class or trait 5, interface 11, enum 10), the
/// zero-width range at the start of its line, and data carrying its
/// fully-qualified name without leading backslashes.
pub proof fn lemma_class_item_fields(uri: Seq<char>, c: ClassInfoView)
    ensures
        class_item(uri, c).name == c.name,
        class_item(uri, c).uri == uri,
        c.kind is Class ==> class_item(uri, c).kind == 5,
        c.kind is Trait ==> class_item(uri, c).kind == 5,
        c.kind is Interface ==> class_item(uri, c).kind == 11,
        c.kind is Enum ==> class_item(uri, c).kind == 10,
        class_item(uri, c).range == (Range {
            start: Position { line: c.start_line, character: 0 },
            end: Position { line: c.start_line, character: 0 },
        }),
        class_item(uri, c).selection_range == class_item(uri, c).range,
        data_fqn(class_item(uri, c).data) == Some(trim_separators(c.fqn)),
{
    lemma_index_item_fields(c.name, class_symbol_kind(c.kind), uri, c.start_line, c.fqn);
    lemma_class_symbol_kind_codes(c.kind);
}

/// Every reference that is matched and points to a class contributes that
/// class's item: the matched items are exactly the items of the matched
/// classes, in the order of the references.
pub proof fn lemma_matched_items_complete(wi: Seq<FileClassesView>, refs: Seq<ClassRef>, matched: Seq<bool>)
    requires
        matched.len() == refs.len(),
    ensures
        forall|i: int|
            0 <= i < refs.len() && #[trigger] matched[i] && class_at(wi, refs[i]) is Some ==> matched_items(
                wi,
                refs,
                matched,
            ).contains(class_item(class_at(wi, refs[i]).unwrap().0, class_at(wi, refs[i]).unwrap().1)),
        matched_items(wi, refs, matched).len() <= refs.len(),
    decreases refs.len(),
{
    if refs.len() > 0 {
        let r0 = refs.drop_last();
        let m0 = matched.drop_last();
        lemma_matched_items_complete(wi, r0, m0);
        let prev = matched_items(wi, r0, m0);
        let cur = matched_items(wi, refs, matched);
        assert forall|i: int|
            0 <= i < refs.len() && #[trigger] matched[i] && class_at(wi, refs[i]) is Some implies cur.contains(
                class_item(class_at(wi, refs[i]).unwrap().0, class_at(wi, refs[i]).unwrap().1),
            ) by {
            let it = class_item(class_at(wi, refs[i]).unwrap().0, class_at(wi, refs[i]).unwrap().1);
            if i < refs.len() - 1 {
                assert(m0[i] == matched[i] && r0[i] == refs[i]);
                assert(prev.contains(it));
                let t = choose|t: int| 0 <= t < prev.len() && prev[t] == it;
                assert(cur[t] == prev[t]);
            } else {
                assert(cur[cur.len() - 1] == it);
            }
        }
    }
}

} // verus!
