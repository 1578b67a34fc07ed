//! Partitioning a file's declarations into its report, and collecting file
//! reports into a directory report.

use vstd::prelude::*;
use vstd::multiset::Multiset;
use crate::classify::{Classification, MalformedTree, classify, classification_of, class_in_range};
use crate::language::Language;
use crate::model::{ClassRecord, DeclView, Declaration, DirectoryReport, FileReport, decls_view, strings_view};
use crate::model::FileReportView;
use crate::syntax::{EventView, SyntaxEvent, events_view};

verus! {

/// The declarations reported as top-level functions: those outside any class
/// whose kind is a function or an arrow, in source order. An accessor
/// (getter or property) outside every class is dropped: it is neither a
/// top-level function nor a member of a class.
pub open spec fn free_functions(ds: Seq<DeclView>) -> Seq<DeclView>
    decreases ds.len(),
{
    if ds.len() == 0 {
        Seq::empty()
    } else {
        let rest = free_functions(ds.drop_last());
        let d = ds.last();
        if d.enclosing_class is None && d.kind.spec_is_free_function() {
            rest.push(d)
        } else {
            rest
        }
    }
}

/// The members of class `c`, in source order.
pub open spec fn methods_of(ds: Seq<DeclView>, c: nat) -> Seq<DeclView>
    decreases ds.len(),
{
    if ds.len() == 0 {
        Seq::empty()
    } else {
        let rest = methods_of(ds.drop_last(), c);
        if ds.last().enclosing_class == Some(c) {
            rest.push(ds.last())
        } else {
            rest
        }
    }
}

/// The member lists of classes `0 .. n`.
pub open spec fn class_groups(ds: Seq<DeclView>, n: nat) -> Seq<Seq<DeclView>> {
    Seq::new(n, |c: int| methods_of(ds, c as nat))
}

/// What a file report built from `names` and `ds` holds, apart from its path.
pub open spec fn report_matches(r: FileReport, names: Seq<Seq<char>>, ds: Seq<DeclView>) -> bool {
    &&& decls_view(r.functions@) == free_functions(ds)
    &&& r.classes@.len() == names.len()
    &&& forall|c: int| 0 <= c < names.len() ==> {
        &&& (#[trigger] r.classes@[c]).name@ == names[c]
        &&& decls_view(r.classes@[c].methods@) == methods_of(ds, c as nat)
    }
}

/// The member lists of a report's classes.
pub open spec fn report_groups(r: FileReport) -> Seq<Seq<DeclView>> {
    r.classes@.map_values(|k: ClassRecord| decls_view(k.methods@))
}

/// All that a list of member lists holds, counted with repetition.
pub open spec fn grouped_multiset(groups: Seq<Seq<DeclView>>) -> Multiset<DeclView>
    decreases groups.len(),
{
    if groups.len() == 0 {
        Multiset::empty()
    } else {
        grouped_multiset(groups.drop_last()).add(groups.last().to_multiset())
    }
}

/// Declarations that the partition places somewhere: outside classes, a
/// function or an arrow; inside, a class among the first `n`.
pub open spec fn placeable(ds: Seq<DeclView>, n: nat) -> bool {
    forall|i: int| 0 <= i < ds.len() ==> {
        &&& class_in_range((#[trigger] ds[i]).enclosing_class, n)
        &&& ds[i].enclosing_class is None ==> ds[i].kind.spec_is_free_function()
    }
}

proof fn lemma_grouped_insert(g: Seq<Seq<DeclView>>, k: int, x: DeclView)
    requires
        0 <= k < g.len(),
    ensures
        grouped_multiset(g.update(k, g[k].push(x))) == grouped_multiset(g).insert(x),
    decreases g.len(),
{
    broadcast use vstd::seq_lib::group_to_multiset_ensures;
    let h = g.update(k, g[k].push(x));
    if k == g.len() - 1 {
        assert(h.drop_last() =~= g.drop_last());
        assert(h.last() == g.last().push(x));
    } else {
        assert(h.drop_last() =~= g.drop_last().update(k, g.drop_last()[k].push(x)));
        lemma_grouped_insert(g.drop_last(), k, x);
    }
    assert(grouped_multiset(h) =~= grouped_multiset(g).insert(x));
}

proof fn lemma_partition(ds: Seq<DeclView>, n: nat)
    requires
        placeable(ds, n),
    ensures
        free_functions(ds).to_multiset().add(grouped_multiset(class_groups(ds, n)))
            == ds.to_multiset(),
    decreases ds.len(),
{
    broadcast use vstd::seq_lib::group_to_multiset_ensures;
    if ds.len() == 0 {
        assert(ds =~= Seq::<DeclView>::empty());
        lemma_grouped_empty(n);
        assert(free_functions(ds).to_multiset() =~= Multiset::empty());
        assert(ds.to_multiset() =~= Multiset::empty());
        assert(Multiset::<DeclView>::empty().add(Multiset::empty()) =~= Multiset::empty());
        assert(free_functions(ds).to_multiset().add(grouped_multiset(class_groups(ds, n)))
            == ds.to_multiset());
    } else {
        let prev = ds.drop_last();
        let x = ds.last();
        assert(placeable(prev, n)) by {
            assert forall|i: int| 0 <= i < prev.len() implies {
                &&& class_in_range((#[trigger] prev[i]).enclosing_class, n)
                &&& prev[i].enclosing_class is None ==> prev[i].kind.spec_is_free_function()
            } by {
                assert(prev[i] == ds[i]);
            }
        }
        lemma_partition(prev, n);
        assert(ds =~= prev.push(x));
        assert(x == ds[ds.len() - 1]);
        match x.enclosing_class {
            None => {
                assert(class_groups(ds, n) =~= class_groups(prev, n));
                assert(free_functions(ds) == free_functions(prev).push(x));
            },
            Some(k) => {
                assert(free_functions(ds) == free_functions(prev));
                let g = class_groups(prev, n);
                assert(class_groups(ds, n) =~= g.update(k as int, g[k as int].push(x)));
                lemma_grouped_insert(g, k as int, x);
            },
        }
        assert(free_functions(ds).to_multiset().add(grouped_multiset(class_groups(ds, n)))
            =~= ds.to_multiset());
    }
}

proof fn lemma_grouped_empty(n: nat)
    ensures
        grouped_multiset(class_groups(Seq::empty(), n)) == Multiset::<DeclView>::empty(),
    decreases n,
{
    broadcast use vstd::seq_lib::group_to_multiset_ensures;
    if n > 0 {
        lemma_grouped_empty((n - 1) as nat);
        assert(class_groups(Seq::empty(), n).drop_last() =~= class_groups(Seq::empty(), (n - 1) as nat));
        assert(class_groups(Seq::<DeclView>::empty(), n).last() =~= Seq::<DeclView>::empty());
        assert(Seq::<DeclView>::empty().to_multiset() =~= Multiset::empty());
        assert(grouped_multiset(class_groups(Seq::empty(), n)) =~= Multiset::<DeclView>::empty());
    }
}

impl Declaration {
    /// A copy of this declaration.
    pub fn duplicate(&self) -> (r: Declaration)
        ensures
            r@ == self@,
    {
        Declaration {
            name: self.name.clone(),
            kind: self.kind,
            is_static: self.is_static,
            is_async: self.is_async,
            enclosing_class: self.enclosing_class,
        }
    }
}

/// The report of one file from its classification: top-level functions and
/// arrows in `functions`, every class (members or none) in the order first
/// seen, each with its members in source order. A getter or property
/// declared outside every class appears in neither.
pub fn aggregate(path: &str, classification: &Classification) -> (r: FileReport)
    ensures
        r.path@ == path@,
        !r.parse_failed,
        report_matches(r, classification@.0, classification@.1),
{
    let ds = &classification.declarations;
    let mut functions: Vec<Declaration> = Vec::new();
    let mut i: usize = 0;
    while i < ds.len()
        invariant
            i <= ds@.len(),
            decls_view(functions@) == free_functions(decls_view(ds@.take(i as int))),
        decreases ds@.len() - i,
    {
        proof {
            assert(decls_view(ds@.take(i as int + 1)).drop_last() =~= decls_view(ds@.take(i as int)));
        }
        if ds[i].enclosing_class.is_none() && ds[i].kind.is_free_function() {
            functions.push(ds[i].duplicate());
        }
        proof {
            assert(decls_view(functions@) =~= free_functions(decls_view(ds@.take(i as int + 1))));
        }
        i = i + 1;
    }
    assert(ds@.take(ds@.len() as int) =~= ds@);
    let names = &classification.class_names;
    let mut classes: Vec<ClassRecord> = Vec::new();
    let mut c: usize = 0;
    while c < names.len()
        invariant
            c <= names@.len(),
            classes@.len() == c,
            forall|k: int| 0 <= k < c ==> {
                &&& (#[trigger] classes@[k]).name@ == names@[k]@
                &&& decls_view(classes@[k].methods@) == methods_of(decls_view(ds@), k as nat)
            },
        decreases names@.len() - c,
    {
        let methods = members_of(ds, c);
        classes.push(ClassRecord { name: names[c].clone(), methods });
        c = c + 1;
    }
    let r = FileReport { path: path.to_owned(), functions, classes, parse_failed: false };
    proof {
        assert forall|k: int| 0 <= k < classification@.0.len() implies {
            &&& (#[trigger] r.classes@[k]).name@ == classification@.0[k]
            &&& decls_view(r.classes@[k].methods@) == methods_of(classification@.1, k as nat)
        } by {
            assert(strings_view(names@)[k] == names@[k]@);
        }
    }
    r
}

/// The members of class `c` among `ds`, in order.
fn members_of(ds: &Vec<Declaration>, c: usize) -> (r: Vec<Declaration>)
    ensures
        decls_view(r@) == methods_of(decls_view(ds@), c as nat),
{
    let mut r: Vec<Declaration> = Vec::new();
    let mut i: usize = 0;
    while i < ds.len()
        invariant
            i <= ds@.len(),
            decls_view(r@) == methods_of(decls_view(ds@.take(i as int)), c as nat),
        decreases ds@.len() - i,
    {
        proof {
            assert(decls_view(ds@.take(i as int + 1)).drop_last() =~= decls_view(ds@.take(i as int)));
        }
        if ds[i].enclosing_class == Some(c) {
            r.push(ds[i].duplicate());
        }
        proof {
            assert(decls_view(r@) =~= methods_of(decls_view(ds@.take(i as int + 1)), c as nat));
        }
        i = i + 1;
    }
    assert(ds@.take(ds@.len() as int) =~= ds@);
    r
}

/// The report of a file whose syntax tree could not be had: it lists
/// nothing and carries the error flag.
pub fn failed_report(path: &str) -> (r: FileReport)
    ensures
        r.path@ == path@,
        r.parse_failed,
        r.functions@.len() == 0,
        r.classes@.len() == 0,
{
    FileReport { path: path.to_owned(), functions: Vec::new(), classes: Vec::new(), parse_failed: true }
}

/// What the report of the file at `path` holds, given the front end's
/// result for it: the depth-first walk of its syntax tree, or `None` where
/// the front end signalled a parse error.
pub open spec fn file_report_spec(r: FileReport, lang: Language, path: Seq<char>, tree: Option<Seq<EventView>>) -> bool {
    &&& r.path@ == path
    &&& match tree {
        Some(events) => match classification_of(lang, events) {
            Some(v) => !r.parse_failed && report_matches(r, v.0, v.1),
            None => r.parse_failed && r.functions@.len() == 0 && r.classes@.len() == 0,
        },
        None => r.parse_failed && r.functions@.len() == 0 && r.classes@.len() == 0,
    }
}

/// Classifies and aggregates one file. A parse error or a malformed tree
/// gives an empty report with the error flag; it never stops the run.
pub fn analyze_file(lang: Language, path: &str, tree: Option<&Vec<SyntaxEvent>>) -> (r: FileReport)
    ensures
        file_report_spec(r, lang, path@, match tree {
            Some(t) => Some(events_view(t@)),
            None => None,
        }),
{
    match tree {
        Some(events) => match classify(lang, events) {
            Ok(classification) => aggregate(path, &classification),
            Err(_) => failed_report(path),
        },
        None => failed_report(path),
    }
}

/// Collects file reports, in the order given, into a directory report.
pub fn merge(reports: Vec<FileReport>) -> (r: DirectoryReport)
    ensures
        r.files@ == reports@,
{
    DirectoryReport { files: reports }
}

/// No function node outside every class is written as an accessor.
pub open spec fn no_free_accessor(ds: Seq<DeclView>) -> bool {
    forall|i: int| 0 <= i < ds.len() ==> (#[trigger] ds[i]).enclosing_class is None
        ==> ds[i].kind.spec_is_free_function()
}

/// A file's report lists every declaration of its tree that is not nested in
/// a function body exactly once: its top-level functions together with the
/// members of all its classes are, counted with repetition, the classifier's
/// declarations.
pub proof fn law_report_lists_each_declaration_once(lang: Language, events: Seq<EventView>, r: FileReport)
    requires
        classification_of(lang, events) is Some,
        no_free_accessor((classification_of(lang, events)->0).1),
        report_matches(r, (classification_of(lang, events)->0).0, (classification_of(lang, events)->0).1),
    ensures
        decls_view(r.functions@).to_multiset().add(grouped_multiset(report_groups(r)))
            == (classification_of(lang, events)->0).1.to_multiset(),
{
    let (names, ds) = classification_of(lang, events)->0;
    crate::classify::lemma_classification_well_formed(lang, events);
    assert(report_groups(r) =~= class_groups(ds, names.len()));
    lemma_partition(ds, names.len());
}

/// One file handed to the classifier: its path and its front end's result,
/// the walk of its syntax tree or `None` for a parse error.
#[derive(Clone, Debug)]
pub struct SourceTree {
    pub path: String,
    pub tree: Option<Vec<SyntaxEvent>>,
}

/// The front end's result for a file, as the model sees it.
pub open spec fn tree_view(t: Option<Vec<SyntaxEvent>>) -> Option<Seq<EventView>> {
    match t {
        Some(v) => Some(events_view(v@)),
        None => None,
    }
}

/// What the directory report of `sources`, in that order, holds.
pub open spec fn directory_report_spec(r: DirectoryReport, lang: Language, sources: Seq<SourceTree>) -> bool {
    &&& r.files@.len() == sources.len()
    &&& forall|i: int| 0 <= i < sources.len()
        ==> file_report_spec(#[trigger] r.files@[i], lang, sources[i].path@, tree_view(sources[i].tree))
}

/// Classifies and aggregates each file, keeping their order; a file whose
/// tree is missing or malformed gets an empty report with the error flag.
pub fn analyze_files(lang: Language, sources: &Vec<SourceTree>) -> (r: DirectoryReport)
    ensures
        directory_report_spec(r, lang, sources@),
{
    let mut reports: Vec<FileReport> = Vec::new();
    let mut i: usize = 0;
    while i < sources.len()
        invariant
            i <= sources@.len(),
            reports@.len() == i,
            forall|k: int| 0 <= k < i
                ==> file_report_spec(#[trigger] reports@[k], lang, sources@[k].path@, tree_view(sources@[k].tree)),
        decreases sources@.len() - i,
    {
        let source = &sources[i];
        let report = match &source.tree {
            Some(t) => analyze_file(lang, source.path.as_str(), Some(t)),
            None => analyze_file(lang, source.path.as_str(), None),
        };
        reports.push(report);
        i = i + 1;
    }
    merge(reports)
}

/// Two reports that both meet the contract of one file's analysis, for the
/// same language, path and tree, are identical.
pub proof fn lemma_file_report_unique(
    lang: Language,
    path: Seq<char>,
    tree: Option<Seq<EventView>>,
    a: FileReport,
    b: FileReport,
)
    requires
        file_report_spec(a, lang, path, tree),
        file_report_spec(b, lang, path, tree),
    ensures
        a@ == b@,
{
    assert(a@.classes =~= b@.classes) by {
        if a.classes@.len() == b.classes@.len() {
            assert forall|c: int| 0 <= c < a.classes@.len() implies a@.classes[c] == b@.classes[c] by {
                assert(a.classes@[c].name@ == b.classes@[c].name@);
            }
        }
    }
    assert(a@.functions =~= b@.functions);
}

/// Analyzing the same files twice gives the same directory report, order
/// included: what the analysis returns is fixed by its input alone.
pub proof fn law_analysis_deterministic(lang: Language, sources: Seq<SourceTree>, a: DirectoryReport, b: DirectoryReport)
    requires
        directory_report_spec(a, lang, sources),
        directory_report_spec(b, lang, sources),
    ensures
        a@ == b@,
{
    assert forall|i: int| 0 <= i < sources.len() implies a@[i] == b@[i] by {
        lemma_file_report_unique(lang, sources[i].path@, tree_view(sources[i].tree), a.files@[i], b.files@[i]);
    }
    assert(a@ =~= b@);
}

} // verus!
