//! The workspace index: the classes declared in each indexed file, and
//! references that pick one class out of it.
use vstd::prelude::*;
use crate::item::{SYMBOL_KIND_CLASS, SYMBOL_KIND_ENUM, SYMBOL_KIND_INTERFACE};

verus! {

/// What a class-like declaration is.
#[derive(Clone, Copy, Debug, PartialEq, Eq)]
pub enum ClassKind {
    Class,
    Interface,
    Trait,
    Enum,
}

/// A class, interface, trait or enum declared in an indexed file.
#[derive(Debug, PartialEq, Eq)]
pub struct ClassInfo {
    /// The short name, as declared.
    pub name: String,
    pub kind: ClassKind,
    /// The zero-based line of the declaration.
    pub start_line: u32,
    /// The fully-qualified name, possibly with a leading backslash.
    pub fqn: String,
    /// The name in the `extends` clause, as written.
    pub parent: Option<String>,
    /// The names in the `implements` clause, as written.
    pub implements: Vec<String>,
    /// The names of the traits it uses, as written.
    pub traits: Vec<String>,
}

pub struct ClassInfoView {
    pub name: Seq<char>,
    pub kind: ClassKind,
    pub start_line: u32,
    pub fqn: Seq<char>,
    pub parent: Option<Seq<char>>,
    pub implements: Seq<Seq<char>>,
    pub traits: Seq<Seq<char>>,
}

pub open spec fn strings_view(v: Seq<String>) -> Seq<Seq<char>> {
    v.map_values(|s: String| s@)
}

pub open spec fn opt_string_view(s: Option<String>) -> Option<Seq<char>> {
    match s {
        Some(x) => Some(x@),
        None => None,
    }
}

impl View for ClassInfo {
    type V = ClassInfoView;

    open spec fn view(&self) -> ClassInfoView {
        ClassInfoView {
            name: self.name@,
            kind: self.kind,
            start_line: self.start_line,
            fqn: self.fqn@,
            parent: opt_string_view(self.parent),
            implements: strings_view(self.implements@),
            traits: strings_view(self.traits@),
        }
    }
}

/// The classes declared in one indexed file, in declaration order.
#[derive(Debug, PartialEq, Eq)]
pub struct FileClasses {
    pub uri: String,
    pub classes: Vec<ClassInfo>,
}

pub struct FileClassesView {
    pub uri: Seq<char>,
    pub classes: Seq<ClassInfoView>,
}

impl View for FileClasses {
    type V = FileClassesView;

    open spec fn view(&self) -> FileClassesView {
        FileClassesView { uri: self.uri@, classes: self.classes@.map_values(|c: ClassInfo| c@) }
    }
}

/// The workspace index: the indexed files and their classes.
#[derive(Debug, PartialEq, Eq)]
pub struct WorkspaceIndexData {
    pub files: Vec<FileClasses>,
}

impl View for WorkspaceIndexData {
    type V = Seq<FileClassesView>;

    open spec fn view(&self) -> Seq<FileClassesView> {
        self.files@.map_values(|f: FileClasses| f@)
    }
}

/// A reference to a class of the index: the file's position and the class's position in it.
#[derive(Clone, Copy, Debug, PartialEq, Eq)]
pub struct ClassRef {
    pub file: usize,
    pub class: usize,
}

/// Positions in the index fit in `usize`, as they do for every index held in memory.
pub open spec fn index_fits(wi: Seq<FileClassesView>) -> bool {
    &&& wi.len() <= usize::MAX
    &&& forall|j: int| 0 <= j < wi.len() ==> #[trigger] wi[j].classes.len() <= usize::MAX
}

/// The uri and the class that `r` refers to, if it refers to one.
pub open spec fn class_at(wi: Seq<FileClassesView>, r: ClassRef) -> Option<(Seq<char>, ClassInfoView)> {
    if r.file < wi.len() && r.class < wi[r.file as int].classes.len() {
        Some((wi[r.file as int].uri, wi[r.file as int].classes[r.class as int]))
    } else {
        None
    }
}

/// The position of the first indexed file with this uri.
pub open spec fn first_file_with_uri(wi: Seq<FileClassesView>, uri: Seq<char>) -> Option<int> {
    if exists|j: int|
        0 <= j < wi.len() && wi[j].uri == uri && forall|k: int| 0 <= k < j ==> wi[k].uri != uri {
        Some(
            choose|j: int|
                0 <= j < wi.len() && wi[j].uri == uri && forall|k: int| 0 <= k < j ==> wi[k].uri != uri,
        )
    } else {
        None
    }
}

/// References to all classes of the file with this uri, in declaration order.
pub open spec fn refs_of_uri(wi: Seq<FileClassesView>, uri: Seq<char>) -> Seq<ClassRef> {
    match first_file_with_uri(wi, uri) {
        Some(j) => Seq::new(
            wi[j].classes.len(),
            |k: int| ClassRef { file: j as usize, class: k as usize },
        ),
        None => Seq::empty(),
    }
}

/// References to the classes of the files with these uris, uri by uri.
pub open spec fn refs_in_uris(wi: Seq<FileClassesView>, uris: Seq<Seq<char>>) -> Seq<ClassRef>
    decreases uris.len(),
{
    if uris.len() == 0 {
        Seq::empty()
    } else {
        refs_in_uris(wi, uris.drop_last()) + refs_of_uri(wi, uris.last())
    }
}

/// The LSP symbol kind shown for a class-like declaration: traits are shown as classes.
pub open spec fn class_symbol_kind(kind: ClassKind) -> i32 {
    match kind {
        ClassKind::Class | ClassKind::Trait => SYMBOL_KIND_CLASS,
        ClassKind::Interface => SYMBOL_KIND_INTERFACE,
        ClassKind::Enum => SYMBOL_KIND_ENUM,
    }
}

/// The names a class declares as its supertypes: its parent, then the
/// interfaces it implements, then the traits it uses, as written.
pub open spec fn declared_supertypes(c: ClassInfoView) -> Seq<Seq<char>> {
    let parent = match c.parent {
        Some(p) => seq![p],
        None => Seq::empty(),
    };
    parent + c.implements + c.traits
}

/// The LSP symbol kind shown for a class-like declaration.
pub fn symbol_kind_for(kind: ClassKind) -> (r: i32)
    ensures
        r == class_symbol_kind(kind),
{
    match kind {
        ClassKind::Class | ClassKind::Trait => SYMBOL_KIND_CLASS,
        ClassKind::Interface => SYMBOL_KIND_INTERFACE,
        ClassKind::Enum => SYMBOL_KIND_ENUM,
    }
}

fn push_all_strings(out: &mut Vec<String>, from: &Vec<String>)
    ensures
        strings_view(final(out)@) == strings_view(old(out)@) + strings_view(from@),
{
    let ghost start = strings_view(out@);
    let mut i: usize = 0;
    while i < from.len()
        invariant
            i <= from.len(),
            strings_view(out@) == start + strings_view(from@).take(i as int),
        decreases from.len() - i,
    {
        let ghost prev = out@;
        out.push(from[i].clone());
        assert(strings_view(out@) =~= strings_view(prev).push(from@[i as int]@));
        assert(strings_view(from@).take(i + 1) =~= strings_view(from@).take(i as int).push(
            from@[i as int]@,
        ));
        assert(strings_view(out@) =~= start + strings_view(from@).take(i + 1));
        i = i + 1;
    }
    assert(strings_view(from@).take(from.len() as int) =~= strings_view(from@));
}

/// The names a class declares as its supertypes: parent, interfaces, traits.
pub fn declared_supertype_names(cls: &ClassInfo) -> (names: Vec<String>)
    ensures
        strings_view(names@) == declared_supertypes(cls@),
{
    let mut names: Vec<String> = Vec::new();
    match &cls.parent {
        Some(p) => {
            names.push(p.clone());
            assert(strings_view(names@) =~= seq![p@]);
        },
        None => {
            assert(strings_view(names@) =~= Seq::<Seq<char>>::empty());
        },
    }
    push_all_strings(&mut names, &cls.implements);
    push_all_strings(&mut names, &cls.traits);
    assert(strings_view(names@) =~= declared_supertypes(cls@));
    names
}

impl WorkspaceIndexData {
    /// The positions of every index fit in `usize`.
    pub proof fn lemma_fits(&self)
        ensures
            index_fits(self@),
    {
        assert(self@.len() == self.files@.len());
        assert(self.files@.len() == self.files.len());
        assert forall|j: int| 0 <= j < self@.len() implies #[trigger] self@[j].classes.len() <= usize::MAX by {
            assert(self@[j] == self.files@[j]@);
            assert(self.files@[j].classes@.len() == self.files@[j].classes.len());
        }
    }

    /// The uri and the class that `r` refers to, if it refers to one.
    pub fn at(&self, r: ClassRef) -> (res: Option<(&String, &ClassInfo)>)
        ensures
            match res {
                Some((u, c)) => class_at(self@, r) == Some((u@, c@)),
                None => class_at(self@, r) is None,
            },
    {
        if r.file < self.files.len() && r.class < self.files[r.file].classes.len() {
            let f = &self.files[r.file];
            Some((&f.uri, &f.classes[r.class]))
        } else {
            None
        }
    }

    /// The position of the first file with this uri.
    pub fn file_with_uri(&self, uri: &String) -> (r: Option<usize>)
        ensures
            match r {
                Some(j) => j < self.files.len() && first_file_with_uri(self@, uri@) == Some(j as int),
                None => first_file_with_uri(self@, uri@) is None,
            },
    {
        let mut j: usize = 0;
        while j < self.files.len()
            invariant
                j <= self.files.len(),
                forall|k: int| 0 <= k < j ==> self@[k].uri != uri@,
            decreases self.files.len() - j,
        {
            if self.files[j].uri == *uri {
                assert(self@[j as int].uri == uri@);
                return Some(j);
            }
            j = j + 1;
        }
        None
    }

    /// Appends references to all classes of the file with this uri.
    fn push_refs_of_uri(&self, refs: &mut Vec<ClassRef>, uri: &String)
        ensures
            final(refs)@ == old(refs)@ + refs_of_uri(self@, uri@),
    {
        let ghost before = refs@;
        match self.file_with_uri(uri) {
            Some(j) => {
                let n = self.files[j].classes.len();
                let mut k: usize = 0;
                while k < n
                    invariant
                        k <= n,
                        j < self.files.len(),
                        n == self@[j as int].classes.len(),
                        refs@ == before + Seq::new(k as nat, |m: int| ClassRef { file: j, class: m as usize }),
                    decreases n - k,
                {
                    refs.push(ClassRef { file: j, class: k });
                    assert(refs@ =~= before + Seq::new(
                        (k + 1) as nat,
                        |m: int| ClassRef { file: j, class: m as usize },
                    ));
                    k = k + 1;
                }
                assert(refs@ =~= before + refs_of_uri(self@, uri@));
            },
            None => {
                assert(refs@ =~= before + refs_of_uri(self@, uri@));
            },
        }
    }

    /// References to the classes of the files with these uris, uri by uri,
    /// each file's classes in declaration order.
    pub fn classes_in_uris(&self, uris: &Vec<String>) -> (refs: Vec<ClassRef>)
        ensures
            refs@ == refs_in_uris(self@, strings_view(uris@)),
    {
        let mut refs: Vec<ClassRef> = Vec::new();
        let mut i: usize = 0;
        while i < uris.len()
            invariant
                i <= uris.len(),
                refs@ == refs_in_uris(self@, strings_view(uris@).take(i as int)),
            decreases uris.len() - i,
        {
            self.push_refs_of_uri(&mut refs, &uris[i]);
            assert(strings_view(uris@).take(i + 1).drop_last() =~= strings_view(uris@).take(i as int));
            i = i + 1;
        }
        assert(strings_view(uris@).take(uris.len() as int) =~= strings_view(uris@));
        refs
    }
}

/// A class's declared supertypes are its parent (when it has one), then
/// every interface it implements, then every trait it uses, each as written
/// and in declaration order; an `implements` clause counts whether or not
/// there is an `extends` clause.
pub proof fn lemma_declared_supertypes_layout(c: ClassInfoView)
    ensures
        ({
            let p: int = if c.parent is Some { 1 } else { 0 };
            &&& declared_supertypes(c).len() == p + c.implements.len() + c.traits.len()
            &&& c.parent is Some ==> declared_supertypes(c)[0] == c.parent.unwrap()
            &&& forall|i: int| 0 <= i < c.implements.len() ==> declared_supertypes(c)[p + i] == #[trigger] c.implements[i]
            &&& forall|i: int|
                0 <= i < c.traits.len() ==> declared_supertypes(c)[p + c.implements.len() + i] == #[trigger] c.traits[i]
        }),
{
}

/// The symbol kind shown for a declaration: a class or a trait is shown as
/// a class (5), an interface as an interface (11), an enum as an enum (10).
pub proof fn lemma_class_symbol_kind_codes(kind: ClassKind)
    ensures
        kind is Class ==> class_symbol_kind(kind) == 5,
        kind is Trait ==> class_symbol_kind(kind) == 5,
        kind is Interface ==> class_symbol_kind(kind) == 11,
        kind is Enum ==> class_symbol_kind(kind) == 10,
{
}

/// The file looked up for a uri is the first indexed file with that uri,
/// and there is none exactly when no indexed file has it.
pub proof fn lemma_first_file_with_uri(wi: Seq<FileClassesView>, uri: Seq<char>)
    ensures
        forall|j: int|
            0 <= j < wi.len() && (#[trigger] wi[j]).uri == uri && (forall|k: int| 0 <= k < j ==> wi[k].uri != uri)
                ==> first_file_with_uri(wi, uri) == Some(j),
        (forall|j: int| 0 <= j < wi.len() ==> (#[trigger] wi[j]).uri != uri) ==> first_file_with_uri(wi, uri) is None,
{
    assert forall|j: int|
        0 <= j < wi.len() && (#[trigger] wi[j]).uri == uri && (forall|k: int| 0 <= k < j ==> wi[k].uri != uri)
            implies first_file_with_uri(wi, uri) == Some(j) by {
        let c = choose|c: int|
            0 <= c < wi.len() && wi[c].uri == uri && forall|k: int| 0 <= k < c ==> wi[k].uri != uri;
        if c < j {
            assert(wi[c].uri != uri);
        }
        if j < c {
            assert(wi[j].uri != uri);
        }
    }
}

/// The references gathered for a list of uris hold every class of the first
/// file with each listed uri.
pub proof fn lemma_refs_in_uris_complete(wi: Seq<FileClassesView>, uris: Seq<Seq<char>>)
    requires
        index_fits(wi),
    ensures
        forall|u: int, k: int|
            #![trigger uris[u], refs_in_uris(wi, uris).contains(ClassRef { file: first_file_with_uri(wi, uris[u]).unwrap() as usize, class: k as usize })]
            0 <= u < uris.len() && first_file_with_uri(wi, uris[u]) is Some && 0 <= k
                < wi[first_file_with_uri(wi, uris[u]).unwrap()].classes.len() ==> refs_in_uris(wi, uris).contains(
                ClassRef { file: first_file_with_uri(wi, uris[u]).unwrap() as usize, class: k as usize },
            ),
    decreases uris.len(),
{
    if uris.len() > 0 {
        let init = uris.drop_last();
        lemma_refs_in_uris_complete(wi, init);
        let prev = refs_in_uris(wi, init);
        let here = refs_of_uri(wi, uris.last());
        assert(refs_in_uris(wi, uris) == prev + here);
        assert forall|u: int, k: int|
            #![trigger uris[u], refs_in_uris(wi, uris).contains(ClassRef { file: first_file_with_uri(wi, uris[u]).unwrap() as usize, class: k as usize })]
            0 <= u < uris.len() && first_file_with_uri(wi, uris[u]) is Some && 0 <= k
                < wi[first_file_with_uri(wi, uris[u]).unwrap()].classes.len() implies refs_in_uris(wi, uris).contains(
                ClassRef { file: first_file_with_uri(wi, uris[u]).unwrap() as usize, class: k as usize },
            ) by {
            let j = first_file_with_uri(wi, uris[u]).unwrap();
            let r = ClassRef { file: j as usize, class: k as usize };
            if u < uris.len() - 1 {
                assert(init[u] == uris[u]);
                let _ = prev.contains(r);
                assert(prev.contains(r));
                let t = choose|t: int| 0 <= t < prev.len() && prev[t] == r;
                assert((prev + here)[t] == r);
            } else {
                assert(uris[u] == uris.last());
                assert(here[k] == r);
                assert((prev + here)[prev.len() + k] == r);
            }
        }
    }
}

} // verus!
