//! The front end for Rust sources. syn parses the text; its items are
//! converted to [`RustItem`] values, and the walk that the classifier reads
//! is computed from those.
//!
//! Free functions and closures bound to constants are reported at module
//! level, also inside inline modules. A struct, and each inherent `impl`
//! block, opens the class named by its type; a function of such a block
//! without a `self` receiver is static. Trait definitions, trait impls,
//! function bodies and macro invocations contribute nothing.

use vstd::prelude::*;
use crate::aggregate::{SourceTree, file_report_spec, analyze_file};
use crate::language::Language;
use crate::model::{FileReport, strings_view};
use crate::syntax::{Accessor, EventView, FunctionForm, Modifiers, SyntaxEvent, balanced, depth, events_view,
    never_underflows, lemma_push_event};

verus! {

#[verifier::external_type_specification]
#[verifier::external_body]
pub struct ExItem(syn::Item);

#[verifier::external_type_specification]
#[verifier::external_body]
pub struct ExItemConst(syn::ItemConst);

#[verifier::external_type_specification]
#[verifier::external_body]
pub struct ExItemImpl(syn::ItemImpl);

#[verifier::external_type_specification]
#[verifier::external_body]
pub struct ExSignature(syn::Signature);

/// What the classifier needs of a Rust function signature.
#[derive(Clone, Debug)]
pub struct RustSignature {
    pub name: String,
    pub is_async: bool,
    /// Whether its first parameter is a `self` receiver.
    pub has_receiver: bool,
}

/// A constant whose value is a closure.
#[derive(Clone, Debug)]
pub struct RustClosureBinding {
    pub name: String,
    pub is_async: bool,
}

/// An item of an `impl` block.
#[derive(Clone, Debug)]
pub enum RustImplItem {
    Function(RustSignature),
    Other,
}

/// An `impl` block.
#[derive(Clone, Debug)]
pub struct RustImpl {
    /// Whether it implements a trait.
    pub for_trait: bool,
    /// The segments of its self type, where that type is a path.
    pub type_path: Option<Vec<String>>,
    pub items: Vec<RustImplItem>,
}

/// A top-level item of a Rust source file, or of an inline module.
#[derive(Debug)]
pub enum RustItem {
    Function(RustSignature),
    ClosureConst(RustClosureBinding),
    Struct(String),
    Impl(RustImpl),
    /// An inline module, with its items.
    Module(Vec<RustItem>),
    Other,
}

pub struct SignatureView {
    pub name: Seq<char>,
    pub is_async: bool,
    pub has_receiver: bool,
}

/// The mathematical value of a [`RustItem`].
pub enum RustItemView {
    Function(SignatureView),
    ClosureConst(Seq<char>, bool),
    Struct(Seq<char>),
    Impl { for_trait: bool, type_path: Option<Seq<Seq<char>>>, functions: Seq<Option<SignatureView>> },
    Module(Seq<RustItemView>),
    Other,
}

pub open spec fn signature_view(s: RustSignature) -> SignatureView {
    SignatureView { name: s.name@, is_async: s.is_async, has_receiver: s.has_receiver }
}

pub open spec fn path_view(p: Option<Vec<String>>) -> Option<Seq<Seq<char>>> {
    match p {
        Some(p) => Some(strings_view(p@)),
        None => None,
    }
}

pub open spec fn impl_item_view(i: RustImplItem) -> Option<SignatureView> {
    match i {
        RustImplItem::Function(s) => Some(signature_view(s)),
        RustImplItem::Other => None,
    }
}

pub open spec fn item_view(i: RustItem) -> RustItemView
    decreases i, 0nat,
{
    match i {
        RustItem::Function(s) => RustItemView::Function(signature_view(s)),
        RustItem::ClosureConst(b) => RustItemView::ClosureConst(b.name@, b.is_async),
        RustItem::Struct(n) => RustItemView::Struct(n@),
        RustItem::Impl(imp) => RustItemView::Impl {
            for_trait: imp.for_trait,
            type_path: path_view(imp.type_path),
            functions: imp.items@.map_values(|x: RustImplItem| impl_item_view(x)),
        },
        RustItem::Module(v) => RustItemView::Module(items_view_upto(v, v@.len())),
        RustItem::Other => RustItemView::Other,
    }
}

/// The views of the first `n` items of `v`.
pub open spec fn items_view_upto(v: Vec<RustItem>, n: nat) -> Seq<RustItemView>
    decreases v, n,
{
    if n == 0 || n > v@.len() {
        Seq::empty()
    } else {
        items_view_upto(v, (n - 1) as nat).push(item_view(v@[n - 1]))
    }
}

pub open spec fn items_view(v: Vec<RustItem>) -> Seq<RustItemView> {
    items_view_upto(v, v@.len())
}

proof fn lemma_items_view(v: Vec<RustItem>, n: nat)
    requires
        n <= v@.len(),
    ensures
        items_view_upto(v, n).len() == n,
        forall|k: int| 0 <= k < n ==> #[trigger] items_view_upto(v, n)[k] == item_view(v@[k]),
    decreases n,
{
    if n > 0 {
        lemma_items_view(v, (n - 1) as nat);
    }
}

/// The items that syn finds in a Rust source text, or `None` where syn
/// rejects the text.
pub uninterp spec fn rust_items_of(text: Seq<char>) -> Option<Seq<RustItemView>>;

/// Relies on `syn::parse_file`: parses the whole text of a Rust source file,
/// failing where it is not valid Rust; its items are converted one for one.
#[verifier::external_body]
fn parse_rust_items(text: &str) -> (r: Option<Vec<RustItem>>)
    ensures
        match rust_items_of(text@) {
            Some(items) => r is Some && items_view(r->0) == items,
            None => r is None,
        },
{
    syn::parse_file(text).ok().map(|f| rust_items(&f.items))
}

/// Converts syn's items (`syn::Item`), one for one; the items of an inline
/// module are converted in turn.
#[verifier::external_body]
fn rust_items(items: &Vec<syn::Item>) -> Vec<RustItem> {
    items.iter().map(|item| match item {
        syn::Item::Fn(f) => RustItem::Function(rust_signature(&f.sig)),
        syn::Item::Const(c) => rust_const(c),
        syn::Item::Struct(s) => RustItem::Struct(s.ident.to_string()),
        syn::Item::Impl(i) => RustItem::Impl(rust_impl(i)),
        syn::Item::Mod(m) => RustItem::Module(m.content.as_ref().map_or(Vec::new(), |c| rust_items(&c.1))),
        _ => RustItem::Other,
    }).collect()
}

/// Converts a `syn::ItemConst`: a closure value (`syn::Expr::Closure`) or not.
#[verifier::external_body]
fn rust_const(c: &syn::ItemConst) -> RustItem {
    match &*c.expr {
        syn::Expr::Closure(cl) => RustItem::ClosureConst(RustClosureBinding {
            name: c.ident.to_string(),
            is_async: cl.asyncness.is_some(),
        }),
        _ => RustItem::Other,
    }
}

/// Converts a `syn::ItemImpl`: its `trait_`, its self type's path segments
/// (`syn::Type::Path`), and its items (`syn::ImplItem::Fn` or other).
#[verifier::external_body]
fn rust_impl(i: &syn::ItemImpl) -> RustImpl {
    RustImpl {
        for_trait: i.trait_.is_some(),
        type_path: match &*i.self_ty {
            syn::Type::Path(p) => Some(p.path.segments.iter().map(|s| s.ident.to_string()).collect()),
            _ => None,
        },
        items: i.items.iter().map(|x| match x {
            syn::ImplItem::Fn(f) => RustImplItem::Function(rust_signature(&f.sig)),
            _ => RustImplItem::Other,
        }).collect(),
    }
}

/// Converts a `syn::Signature`: its identifier, its `async` token, and
/// `Signature::receiver`, the `self` parameter if there is one.
#[verifier::external_body]
fn rust_signature(sig: &syn::Signature) -> RustSignature {
    RustSignature {
        name: sig.ident.to_string(),
        is_async: sig.asyncness.is_some(),
        has_receiver: sig.receiver().is_some(),
    }
}

/// The modifiers of a Rust function: static where it belongs to an `impl`
/// block and takes no `self`.
pub open spec fn rust_modifiers(is_async: bool, has_receiver: bool, in_impl: bool) -> Modifiers {
    Modifiers { is_static: in_impl && !has_receiver, is_async, accessor: Accessor::Plain }
}

/// The walk of a function with signature `s`: it opens and closes at once.
pub open spec fn signature_walk(s: SignatureView, in_impl: bool) -> Seq<EventView> {
    seq![
        EventView::EnterFunction(s.name, FunctionForm::Named, rust_modifiers(s.is_async, s.has_receiver, in_impl)),
        EventView::Leave,
    ]
}

/// The walk of the functions of an `impl` block, in order.
pub open spec fn impl_functions_walk(fs: Seq<Option<SignatureView>>) -> Seq<EventView>
    decreases fs.len(),
{
    if fs.len() == 0 {
        Seq::empty()
    } else {
        impl_functions_walk(fs.drop_last()) + match fs.last() {
            Some(s) => signature_walk(s, true),
            None => Seq::empty(),
        }
    }
}

/// The class that an `impl` block opens: none for a trait impl or a self
/// type that is not a path, else the last segment of the path.
pub open spec fn impl_class(for_trait: bool, type_path: Option<Seq<Seq<char>>>) -> Option<Seq<char>> {
    match type_path {
        Some(p) => if !for_trait && p.len() > 0 {
            Some(p.last())
        } else {
            None
        },
        None => None,
    }
}

/// The walk that one item contributes.
pub open spec fn item_walk(i: RustItemView) -> Seq<EventView>
    decreases i, 0nat,
{
    match i {
        RustItemView::Function(s) => signature_walk(s, false),
        RustItemView::ClosureConst(name, is_async) => seq![
            EventView::EnterFunction(name, FunctionForm::BoundLambda, rust_modifiers(is_async, false, false)),
            EventView::Leave,
        ],
        RustItemView::Struct(name) => seq![EventView::EnterClass(name), EventView::Leave],
        RustItemView::Impl { for_trait, type_path, functions } => match impl_class(for_trait, type_path) {
            Some(name) => seq![EventView::EnterClass(name)] + impl_functions_walk(functions) + seq![EventView::Leave],
            None => Seq::empty(),
        },
        RustItemView::Module(items) => items_walk_upto(items, items.len()),
        RustItemView::Other => Seq::empty(),
    }
}

/// The walk of the first `n` items, in order.
pub open spec fn items_walk_upto(items: Seq<RustItemView>, n: nat) -> Seq<EventView>
    decreases items, n,
{
    if n == 0 || n > items.len() {
        Seq::empty()
    } else {
        items_walk_upto(items, (n - 1) as nat) + item_walk(items[n - 1])
    }
}

/// The depth-first walk of a Rust file's items.
pub open spec fn rust_walk(items: Seq<RustItemView>) -> Seq<EventView> {
    items_walk_upto(items, items.len())
}

/// The walk of a Rust source text, or `None` where it does not parse.
pub open spec fn rust_tree_of(text: Seq<char>) -> Option<Seq<EventView>> {
    match rust_items_of(text) {
        Some(items) => Some(rust_walk(items)),
        None => None,
    }
}

fn push_event(out: &mut Vec<SyntaxEvent>, e: SyntaxEvent)
    requires
        never_underflows(events_view(old(out)@)),
        depth(events_view(old(out)@).push(e@)) >= 0,
    ensures
        events_view(final(out)@) == events_view(old(out)@).push(e@),
        never_underflows(events_view(final(out)@)),
        depth(events_view(final(out)@)) == depth(events_view(old(out)@)) + if e is Leave { -1int } else { 1int },
{
    proof {
        lemma_push_event(events_view(old(out)@), e@);
    }
    out.push(e);
    assert(events_view(out@) =~= events_view(old(out)@).push(e@));
}

/// Appends `open`, then a `Leave`.
fn push_closed(out: &mut Vec<SyntaxEvent>, open: SyntaxEvent)
    requires
        never_underflows(events_view(old(out)@)),
        depth(events_view(old(out)@)) >= 0,
        !(open is Leave),
    ensures
        events_view(final(out)@) == events_view(old(out)@) + seq![open@, EventView::Leave],
        never_underflows(events_view(final(out)@)),
        depth(events_view(final(out)@)) == depth(events_view(old(out)@)),
{
    let ghost e = open@;
    proof {
        assert(events_view(old(out)@).push(e).drop_last() =~= events_view(old(out)@));
    }
    push_event(out, open);
    proof {
        assert(events_view(out@).push(EventView::Leave).drop_last() =~= events_view(out@));
    }
    push_event(out, SyntaxEvent::Leave);
    assert(events_view(out@) =~= events_view(old(out)@) + seq![e, EventView::Leave]);
}

/// The event that opens the function with signature `sig`.
pub fn signature_event(sig: &RustSignature, in_impl: bool) -> (r: SyntaxEvent)
    ensures
        r@ == EventView::EnterFunction(sig.name@, FunctionForm::Named,
            rust_modifiers(sig.is_async, sig.has_receiver, in_impl)),
{
    SyntaxEvent::EnterFunction {
        name: sig.name.clone(),
        form: FunctionForm::Named,
        modifiers: Modifiers {
            is_static: in_impl && !sig.has_receiver,
            is_async: sig.is_async,
            accessor: Accessor::Plain,
        },
    }
}

/// Appends the class of an inherent `impl` block with its functions.
fn push_impl(out: &mut Vec<SyntaxEvent>, imp: &RustImpl)
    requires
        never_underflows(events_view(old(out)@)),
        depth(events_view(old(out)@)) >= 0,
    ensures
        events_view(final(out)@) == events_view(old(out)@)
            + item_walk(item_view(RustItem::Impl(*imp))),
        never_underflows(events_view(final(out)@)),
        depth(events_view(final(out)@)) == depth(events_view(old(out)@)),
{
    let ghost fs = imp.items@.map_values(|x: RustImplItem| impl_item_view(x));
    let ghost tp = path_view(imp.type_path);
    if imp.for_trait {
        assert(events_view(out@) =~= events_view(old(out)@) + Seq::<EventView>::empty());
        return;
    }
    let name = match &imp.type_path {
        Some(p) => {
            if p.len() == 0 {
                assert(events_view(out@) =~= events_view(old(out)@) + Seq::<EventView>::empty());
                return;
            }
            assert(strings_view(p@).last() == p@[p@.len() - 1]@);
            p[p.len() - 1].clone()
        },
        None => {
            assert(events_view(out@) =~= events_view(old(out)@) + Seq::<EventView>::empty());
            return;
        },
    };
    assert(impl_class(imp.for_trait, tp) == Some(name@));
    let ghost start = events_view(out@);
    let open = SyntaxEvent::EnterClass { name };
    proof {
        assert(events_view(out@).push(open@).drop_last() =~= events_view(out@));
    }
    push_event(out, open);
    let mut i: usize = 0;
    while i < imp.items.len()
        invariant
            i <= imp.items@.len(),
            fs == imp.items@.map_values(|x: RustImplItem| impl_item_view(x)),
            never_underflows(events_view(out@)),
            depth(events_view(out@)) == depth(start) + 1,
            depth(start) >= 0,
            events_view(out@) == start.push(open@) + impl_functions_walk(fs.take(i as int)),
        decreases imp.items@.len() - i,
    {
        let ghost before = events_view(out@);
        proof {
            assert(fs.take(i as int + 1).drop_last() =~= fs.take(i as int));
            assert(fs.take(i as int + 1).last() == impl_item_view(imp.items@[i as int]));
        }
        match &imp.items[i] {
            RustImplItem::Function(sig) => {
                push_closed(out, signature_event(sig, true));
                assert(events_view(out@) =~= start.push(open@) + impl_functions_walk(fs.take(i as int + 1)));
            },
            RustImplItem::Other => {
                assert(events_view(out@) =~= start.push(open@) + impl_functions_walk(fs.take(i as int + 1)));
            },
        }
        i = i + 1;
    }
    proof {
        assert(fs.take(imp.items@.len() as int) =~= fs);
        assert(events_view(out@).push(EventView::Leave).drop_last() =~= events_view(out@));
    }
    push_event(out, SyntaxEvent::Leave);
    assert(events_view(out@) =~= start + (seq![open@] + impl_functions_walk(fs) + seq![EventView::Leave]));
}

/// Appends the walk of one item.
fn push_item(out: &mut Vec<SyntaxEvent>, item: &RustItem)
    requires
        never_underflows(events_view(old(out)@)),
        depth(events_view(old(out)@)) >= 0,
    ensures
        events_view(final(out)@) == events_view(old(out)@) + item_walk(item_view(*item)),
        never_underflows(events_view(final(out)@)),
        depth(events_view(final(out)@)) == depth(events_view(old(out)@)),
    decreases item, 1nat,
{
    match item {
        RustItem::Function(sig) => push_closed(out, signature_event(sig, false)),
        RustItem::ClosureConst(b) => push_closed(out, SyntaxEvent::EnterFunction {
            name: b.name.clone(),
            form: FunctionForm::BoundLambda,
            modifiers: Modifiers { is_static: false, is_async: b.is_async, accessor: Accessor::Plain },
        }),
        RustItem::Struct(name) => push_closed(out, SyntaxEvent::EnterClass { name: name.clone() }),
        RustItem::Impl(imp) => push_impl(out, imp),
        RustItem::Module(items) => {
            proof {
                assert((*item)->Module_0 == *items);
                assert(decreases_to!(*item => (*item)->Module_0));
            }
            push_items(out, items);
        },
        RustItem::Other => {
            assert(events_view(out@) =~= events_view(old(out)@) + Seq::<EventView>::empty());
        },
    }
}

/// Appends the walk of `items`, in order.
fn push_items(out: &mut Vec<SyntaxEvent>, items: &Vec<RustItem>)
    requires
        never_underflows(events_view(old(out)@)),
        depth(events_view(old(out)@)) >= 0,
    ensures
        events_view(final(out)@) == events_view(old(out)@) + rust_walk(items_view(*items)),
        never_underflows(events_view(final(out)@)),
        depth(events_view(final(out)@)) == depth(events_view(old(out)@)),
    decreases items, 0nat,
{
    let ghost vs = items_view(*items);
    proof {
        lemma_items_view(*items, items@.len());
    }
    let mut i: usize = 0;
    while i < items.len()
        invariant
            i <= items@.len(),
            vs == items_view(*items),
            vs.len() == items@.len(),
            forall|k: int| 0 <= k < items@.len() ==> #[trigger] vs[k] == item_view(items@[k]),
            never_underflows(events_view(out@)),
            depth(events_view(out@)) == depth(events_view(old(out)@)),
            depth(events_view(old(out)@)) >= 0,
            events_view(out@) == events_view(old(out)@) + items_walk_upto(vs, i as nat),
        decreases items@.len() - i,
    {
        proof {
            vstd::std_specs::vec::axiom_vec_index_decreases(*items, i as int);
            assert(decreases_to!(*items => items[i as int]));
        }
        let ghost before = events_view(out@);
        push_item(out, &items[i]);
        proof {
            assert(items_walk_upto(vs, (i + 1) as nat) == items_walk_upto(vs, i as nat) + item_walk(vs[i as int]));
            assert(events_view(out@) =~= events_view(old(out)@) + items_walk_upto(vs, (i + 1) as nat));
        }
        i = i + 1;
    }
}

/// The walk of the given items: the part of the Rust front end that follows
/// the parse.
pub fn rust_walk_events(items: &Vec<RustItem>) -> (r: Vec<SyntaxEvent>)
    ensures
        events_view(r@) == rust_walk(items_view(*items)),
        balanced(events_view(r@)),
{
    let mut out: Vec<SyntaxEvent> = Vec::new();
    proof {
        assert(events_view(out@) =~= Seq::<EventView>::empty());
        assert forall|k: int| 0 <= k <= events_view(out@).len()
            implies depth(#[trigger] events_view(out@).take(k)) >= 0 by {
            assert(events_view(out@).take(k) =~= Seq::<EventView>::empty());
        }
    }
    push_items(&mut out, items);
    assert(events_view(out@) =~= rust_walk(items_view(*items)));
    out
}

/// A Rust source text that is not valid Rust.
#[derive(Clone, Copy, Debug, PartialEq, Eq, Structural)]
pub struct RustSyntaxError;

/// The depth-first walk of the syntax tree of a Rust source file.
pub fn rust_syntax_events(text: &str) -> (r: Result<Vec<SyntaxEvent>, RustSyntaxError>)
    ensures
        match rust_tree_of(text@) {
            Some(walk) => r is Ok && events_view(r->Ok_0@) == walk && balanced(walk),
            None => r is Err,
        },
{
    match parse_rust_items(text) {
        Some(items) => Ok(rust_walk_events(&items)),
        None => Err(RustSyntaxError),
    }
}

/// The file at `path` with the walk of its Rust text; no walk where the
/// text does not parse.
pub fn rust_source_tree(path: &str, text: &str) -> (r: SourceTree)
    ensures
        r.path@ == path@,
        crate::aggregate::tree_view(r.tree) == rust_tree_of(text@),
        rust_tree_of(text@) matches Some(walk) ==> balanced(walk),
{
    let tree = match rust_syntax_events(text) {
        Ok(events) => Some(events),
        Err(_) => None,
    };
    SourceTree { path: path.to_owned(), tree }
}

/// Parses, classifies and aggregates one Rust source file.
pub fn analyze_rust_file(path: &str, text: &str) -> (r: FileReport)
    ensures
        file_report_spec(r, Language::Rust, path@, rust_tree_of(text@)),
        rust_tree_of(text@) is Some ==> !r.parse_failed,
{
    let source = rust_source_tree(path, text);
    let r = match &source.tree {
        Some(t) => analyze_file(Language::Rust, path, Some(t)),
        None => analyze_file(Language::Rust, path, None),
    };
    proof {
        if rust_tree_of(text@) is Some {
            crate::classify::lemma_balanced_walk_classifies(Language::Rust, rust_tree_of(text@)->0);
        }
    }
    r
}

/// Analyzing an unchanged Rust file twice gives the same report, order
/// included: the report is fixed by the path and the text alone.
pub proof fn law_rust_analysis_deterministic(path: Seq<char>, text: Seq<char>, a: FileReport, b: FileReport)
    requires
        file_report_spec(a, Language::Rust, path, rust_tree_of(text)),
        file_report_spec(b, Language::Rust, path, rust_tree_of(text)),
    ensures
        a@ == b@,
{
    crate::aggregate::lemma_file_report_unique(Language::Rust, path, rust_tree_of(text), a, b);
}

} // verus!
