//! The declaration classifier: a state machine over the depth-first walk of
//! a syntax tree, with an explicit stack of enclosing scopes.

use vstd::prelude::*;
use crate::language::Language;
use crate::model::{DeclKind, Declaration, DeclView, decls_view, strings_view};
use crate::syntax::{Accessor, EventView, FunctionForm, Modifiers, SyntaxEvent, balanced, depth, events_view, never_underflows};

verus! {

/// An open scope, as the model sees it: a class body, with the class's index
/// among the file's classes, or a function body.
pub enum ScopeView {
    Class(nat),
    Body,
}

/// The classifier's state after a prefix of the walk.
pub struct ClassifierState {
    /// Open scopes, innermost last.
    pub stack: Seq<ScopeView>,
    /// Names of the classes seen so far, in the order they were entered.
    pub class_names: Seq<Seq<char>>,
    /// Declarations emitted so far, in source order.
    pub decls: Seq<DeclView>,
}

pub open spec fn initial_state() -> ClassifierState {
    ClassifierState { stack: Seq::empty(), class_names: Seq::empty(), decls: Seq::empty() }
}

/// Whether the innermost open scope is a function body: declarations there
/// are details of that function and are not reported.
pub open spec fn in_body(st: ClassifierState) -> bool {
    st.stack.len() > 0 && st.stack.last() is Body
}

/// The class whose body is the innermost open scope, if it is one.
pub open spec fn enclosing_class(st: ClassifierState) -> Option<nat> {
    if st.stack.len() > 0 && st.stack.last() is Class {
        Some(st.stack.last()->Class_0)
    } else {
        None
    }
}

/// The kind of a function node, by the first rule that matches: initializer
/// of its class, accessor, member of a class, lambda bound to a name, plain
/// function.
pub open spec fn kind_of(
    lang: Language,
    class_name: Option<Seq<char>>,
    name: Seq<char>,
    form: FunctionForm,
    accessor: Accessor,
) -> DeclKind {
    if class_name is Some && lang.spec_is_initializer(name, class_name->0) {
        DeclKind::Constructor
    } else if accessor == Accessor::Getter {
        DeclKind::Getter
    } else if accessor == Accessor::Property {
        DeclKind::Property
    } else if class_name is Some {
        DeclKind::Method
    } else if form == FunctionForm::BoundLambda {
        DeclKind::Arrow
    } else {
        DeclKind::Function
    }
}

/// The declaration that a function node outside any function body stands for.
pub open spec fn declaration_of(
    lang: Language,
    st: ClassifierState,
    name: Seq<char>,
    form: FunctionForm,
    modifiers: Modifiers,
) -> DeclView {
    let class = enclosing_class(st);
    let class_name = match class {
        Some(c) => Some(st.class_names[c as int]),
        None => None,
    };
    DeclView {
        name,
        kind: kind_of(lang, class_name, name, form, modifiers.accessor),
        is_static: modifiers.is_static,
        is_async: modifiers.is_async,
        enclosing_class: class,
    }
}

/// The index of the class named `name` among `names`: its first
/// occurrence, or the next free index where it is not there yet. A class
/// entered again (a second body for the same type) keeps its first index.
pub open spec fn class_index(names: Seq<Seq<char>>, name: Seq<char>) -> nat {
    match names.index_of_first(name) {
        Some(i) => i as nat,
        None => names.len(),
    }
}

proof fn lemma_class_index(names: Seq<Seq<char>>, name: Seq<char>)
    ensures
        class_index(names, name) <= names.len(),
        class_index(names, name) < names.len() ==> names[class_index(names, name) as int] == name,
{
    names.index_of_first_ensures(name);
}

/// One step of the classifier; `None` where the walk closes a scope that is not open.
pub open spec fn step(lang: Language, st: ClassifierState, e: EventView) -> Option<ClassifierState> {
    match e {
        EventView::EnterClass(name) => {
            if in_body(st) {
                Some(ClassifierState { stack: st.stack.push(ScopeView::Body), ..st })
            } else {
                let c = class_index(st.class_names, name);
                Some(ClassifierState {
                    stack: st.stack.push(ScopeView::Class(c)),
                    class_names: if c < st.class_names.len() {
                        st.class_names
                    } else {
                        st.class_names.push(name)
                    },
                    decls: st.decls,
                })
            }
        },
        EventView::EnterFunction(name, form, modifiers) => {
            if in_body(st) {
                Some(ClassifierState { stack: st.stack.push(ScopeView::Body), ..st })
            } else {
                Some(ClassifierState {
                    stack: st.stack.push(ScopeView::Body),
                    class_names: st.class_names,
                    decls: st.decls.push(declaration_of(lang, st, name, form, modifiers)),
                })
            }
        },
        EventView::Leave => {
            if st.stack.len() == 0 {
                None
            } else {
                Some(ClassifierState { stack: st.stack.drop_last(), ..st })
            }
        },
    }
}

/// The classifier's state after the whole of `events`, or `None` if the walk
/// is malformed.
pub open spec fn run(lang: Language, events: Seq<EventView>) -> Option<ClassifierState>
    decreases events.len(),
{
    if events.len() == 0 {
        Some(initial_state())
    } else {
        match run(lang, events.drop_last()) {
            Some(st) => step(lang, st, events.last()),
            None => None,
        }
    }
}

/// The classes and declarations of a well-formed walk (every opened scope
/// closed), or `None` for a malformed one.
pub open spec fn classification_of(lang: Language, events: Seq<EventView>) -> Option<(Seq<Seq<char>>, Seq<DeclView>)> {
    match run(lang, events) {
        Some(st) => if st.stack.len() == 0 {
            Some((st.class_names, st.decls))
        } else {
            None
        },
        None => None,
    }
}

/// The classes of one file, in the order they were first entered, and its
/// reported declarations, in source order.
#[derive(Clone, Debug)]
pub struct Classification {
    pub class_names: Vec<String>,
    pub declarations: Vec<Declaration>,
}

impl View for Classification {
    type V = (Seq<Seq<char>>, Seq<DeclView>);

    open spec fn view(&self) -> (Seq<Seq<char>>, Seq<DeclView>) {
        (strings_view(self.class_names@), decls_view(self.declarations@))
    }
}

impl Classification {
    /// Every declaration's class is one of the listed classes.
    pub open spec fn well_formed(&self) -> bool {
        forall|i: int| 0 <= i < self.declarations@.len()
            ==> class_in_range((#[trigger] self.declarations@[i])@.enclosing_class, self.class_names@.len())
    }
}

/// The walk of a syntax tree closes a scope that it never opened, or leaves
/// one open at its end.
#[derive(Clone, Copy, Debug, PartialEq, Eq, Structural)]
pub struct MalformedTree;

/// An open scope of the running classifier.
#[derive(Clone, Copy, Debug, PartialEq, Eq, Structural)]
pub enum Scope {
    Class(usize),
    Body,
}

impl View for Scope {
    type V = ScopeView;

    open spec fn view(&self) -> ScopeView {
        match self {
            Scope::Class(c) => ScopeView::Class(*c as nat),
            Scope::Body => ScopeView::Body,
        }
    }
}

pub open spec fn scopes_view(s: Seq<Scope>) -> Seq<ScopeView> {
    s.map_values(|x: Scope| x@)
}

/// A class id, if any, is below the number of classes.
pub open spec fn class_in_range(c: Option<nat>, n: nat) -> bool {
    match c {
        Some(c) => c < n,
        None => true,
    }
}

pub open spec fn scope_in_range(s: ScopeView, n: nat) -> bool {
    match s {
        ScopeView::Class(c) => c < n,
        ScopeView::Body => true,
    }
}

/// Facts that hold of every state the classifier reaches.
pub open spec fn state_ok(st: ClassifierState) -> bool {
    &&& forall|i: int| 0 <= i < st.stack.len()
        ==> scope_in_range(#[trigger] st.stack[i], st.class_names.len())
    &&& forall|i: int| 0 <= i < st.decls.len()
        ==> class_in_range((#[trigger] st.decls[i]).enclosing_class, st.class_names.len())
}

proof fn lemma_step_ok(lang: Language, st: ClassifierState, e: EventView)
    requires
        state_ok(st),
        step(lang, st, e) is Some,
    ensures
        state_ok(step(lang, st, e)->0),
{
    let nx = step(lang, st, e)->0;
    if let EventView::EnterClass(name) = e {
        lemma_class_index(st.class_names, name);
    }
    assert forall|i: int| 0 <= i < nx.stack.len()
        implies scope_in_range(#[trigger] nx.stack[i], nx.class_names.len()) by {
        if i < st.stack.len() as int && !(e is Leave) {
            assert(nx.stack[i] == st.stack[i]);
        }
        if e is Leave {
            assert(nx.stack[i] == st.stack[i]);
        }
    }
    assert forall|i: int| 0 <= i < nx.decls.len()
        implies class_in_range((#[trigger] nx.decls[i]).enclosing_class, nx.class_names.len()) by {
        if i < st.decls.len() as int {
            assert(nx.decls[i] == st.decls[i]);
        } else {
            if st.stack.len() > 0 {
                assert(st.stack[st.stack.len() - 1] == st.stack.last());
            }
        }
    }
}

proof fn lemma_run_ok(lang: Language, events: Seq<EventView>)
    requires
        run(lang, events) is Some,
    ensures
        state_ok(run(lang, events)->0),
    decreases events.len(),
{
    if events.len() > 0 {
        lemma_run_ok(lang, events.drop_last());
        lemma_step_ok(lang, run(lang, events.drop_last())->0, events.last());
    }
}

/// Every class id in a classifier's result names one of its classes.
pub proof fn lemma_classification_well_formed(lang: Language, events: Seq<EventView>)
    requires
        classification_of(lang, events) is Some,
    ensures
        ({
            let (names, decls) = classification_of(lang, events)->0;
            forall|i: int| 0 <= i < decls.len()
                ==> class_in_range((#[trigger] decls[i]).enclosing_class, names.len())
        }),
{
    lemma_run_ok(lang, events);
}

/// The index that a class named `name` gets, given the classes seen so far.
fn find_class(names: &Vec<String>, name: &str) -> (r: usize)
    ensures
        r as nat == class_index(strings_view(names@), name@),
{
    let ghost ns = strings_view(names@);
    let mut i: usize = 0;
    while i < names.len() && !crate::text::str_eq(names[i].as_str(), name)
        invariant
            i <= names@.len(),
            ns == strings_view(names@),
            forall|j: int| 0 <= j < i ==> ns[j] != name@,
        decreases names@.len() - i,
    {
        assert(ns[i as int] == names@[i as int]@);
        i = i + 1;
    }
    proof {
        ns.index_of_first_ensures(name@);
        if i < names@.len() {
            assert(ns[i as int] == names@[i as int]@);
            let c = ns.index_of_first(name@)->0;
            if c > i as int {
                assert(ns[i as int] != name@);
            }
        } else {
            if ns.contains(name@) {
                let c = ns.index_of_first(name@)->0;
                assert(ns[c] != name@);
            }
        }
    }
    i
}

/// Classifies the declarations of one file from the depth-first walk of its
/// syntax tree. A malformed walk yields no declarations but an error.
pub fn classify(lang: Language, events: &Vec<SyntaxEvent>) -> (r: Result<Classification, MalformedTree>)
    ensures
        match classification_of(lang, events_view(events@)) {
            Some(v) => r is Ok && r->Ok_0@ == v && r->Ok_0.well_formed(),
            None => r is Err,
        },
{
    let mut stack: Vec<Scope> = Vec::new();
    let mut class_names: Vec<String> = Vec::new();
    let mut decls: Vec<Declaration> = Vec::new();
    let mut i: usize = 0;
    while i < events.len()
        invariant
            i <= events@.len(),
            run(lang, events_view(events@).take(i as int)) is Some,
            ({
                let st = run(lang, events_view(events@).take(i as int))->0;
                &&& scopes_view(stack@) == st.stack
                &&& strings_view(class_names@) == st.class_names
                &&& decls_view(decls@) == st.decls
            }),
        decreases events@.len() - i,
    {
        let ghost st = run(lang, events_view(events@).take(i as int))->0;
        proof {
            lemma_run_ok(lang, events_view(events@).take(i as int));
            assert(events_view(events@).take(i as int + 1).drop_last() =~= events_view(events@).take(i as int));
            assert(events_view(events@).take(i as int + 1).last() == events@[i as int]@);
        }
        let in_fn_body = stack.len() > 0 && stack[stack.len() - 1] == Scope::Body;
        proof {
            if stack.len() > 0 {
                assert(scopes_view(stack@).last() == stack@.last()@);
            }
        }
        assert(in_fn_body == in_body(st));
        match &events[i] {
            SyntaxEvent::EnterClass { name } => {
                if in_fn_body {
                    stack.push(Scope::Body);
                } else {
                    proof {
                        lemma_class_index(st.class_names, name@);
                    }
                    let c = find_class(&class_names, name.as_str());
                    stack.push(Scope::Class(c));
                    if c == class_names.len() {
                        class_names.push(name.clone());
                    }
                }
            },
            SyntaxEvent::EnterFunction { name, form, modifiers } => {
                if !in_fn_body {
                    let mut class: Option<usize> = None;
                    let mut class_name: Option<&String> = None;
                    if stack.len() > 0 {
                        if let Scope::Class(c) = stack[stack.len() - 1] {
                            proof {
                                assert(scopes_view(stack@)[stack@.len() - 1] == stack@[stack@.len() - 1]@);
                                assert(st.stack[st.stack.len() - 1] == st.stack.last());
                            }
                            class = Some(c);
                            class_name = Some(&class_names[c]);
                        }
                    }
                    proof {
                        if class is Some {
                            let c = class->0 as int;
                            assert(strings_view(class_names@)[c] == class_names@[c]@);
                        }
                    }
                    let initializer = match class_name {
                        Some(cn) => lang.is_initializer(name.as_str(), cn.as_str()),
                        None => false,
                    };
                    let kind = if initializer {
                        DeclKind::Constructor
                    } else if modifiers.accessor == Accessor::Getter {
                        DeclKind::Getter
                    } else if modifiers.accessor == Accessor::Property {
                        DeclKind::Property
                    } else if class.is_some() {
                        DeclKind::Method
                    } else if *form == FunctionForm::BoundLambda {
                        DeclKind::Arrow
                    } else {
                        DeclKind::Function
                    };
                    let d = Declaration {
                        name: name.clone(),
                        kind,
                        is_static: modifiers.is_static,
                        is_async: modifiers.is_async,
                        enclosing_class: class,
                    };
                    proof {
                        let dv = declaration_of(lang, st, name@, *form, *modifiers);
                        assert(d@.enclosing_class == dv.enclosing_class);
                        assert(d@ == dv);
                    }
                    decls.push(d);
                }
                stack.push(Scope::Body);
            },
            SyntaxEvent::Leave => {
                if stack.len() == 0 {
                    proof {
                        assert(run(lang, events_view(events@).take(i as int + 1)) is None);
                        lemma_run_none_extends(lang, events_view(events@), i as int + 1);
                    }
                    return Err(MalformedTree);
                }
                stack.pop();
            },
        }
        proof {
            let nx = run(lang, events_view(events@).take(i as int + 1))->0;
            assert(scopes_view(stack@) =~= nx.stack);
            assert(strings_view(class_names@) =~= nx.class_names);
            assert(decls_view(decls@) =~= nx.decls);
        }
        i = i + 1;
    }
    proof {
        assert(events_view(events@).take(events@.len() as int) =~= events_view(events@));
        lemma_run_ok(lang, events_view(events@));
    }
    if stack.len() > 0 {
        return Err(MalformedTree);
    }
    let r = Classification { class_names, declarations: decls };
    proof {
        let st = run(lang, events_view(events@))->0;
        assert forall|k: int| 0 <= k < r.declarations@.len()
            implies class_in_range((#[trigger] r.declarations@[k])@.enclosing_class, r.class_names@.len()) by {
            assert(decls_view(r.declarations@)[k] == r.declarations@[k]@);
            assert(st.decls[k] == r.declarations@[k]@);
        }
    }
    Ok(r)
}

/// Once a prefix of the walk is malformed, so is every longer prefix.
proof fn lemma_run_none_extends(lang: Language, events: Seq<EventView>, k: int)
    requires
        0 <= k <= events.len(),
        run(lang, events.take(k)) is None,
    ensures
        run(lang, events) is None,
    decreases events.len() - k,
{
    if k < events.len() {
        assert(events.take(k + 1).drop_last() =~= events.take(k));
        lemma_run_none_extends(lang, events, k + 1);
    } else {
        assert(events.take(k) =~= events);
    }
}

proof fn lemma_run_depth(lang: Language, events: Seq<EventView>)
    requires
        never_underflows(events),
    ensures
        run(lang, events) is Some,
        run(lang, events)->0.stack.len() == depth(events),
    decreases events.len(),
{
    if events.len() > 0 {
        let prev = events.drop_last();
        assert forall|k: int| 0 <= k <= prev.len() implies depth(#[trigger] prev.take(k)) >= 0 by {
            assert(prev.take(k) =~= events.take(k));
        }
        lemma_run_depth(lang, prev);
        assert(events.take(events.len() as int) =~= events);
    }
}

/// The classifier accepts every balanced walk, whatever the language.
pub proof fn lemma_balanced_walk_classifies(lang: Language, events: Seq<EventView>)
    requires
        balanced(events),
    ensures
        classification_of(lang, events) is Some,
{
    lemma_run_depth(lang, events);
}

} // verus!
