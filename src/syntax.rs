//! The syntax tree that a language front end hands to the classifier.
//!
//! A tree is given as its depth-first walk: each class or function node
//! opens a scope with an `Enter...` event, and `Leave` closes the innermost
//! open scope. Nodes of other kinds need not appear.

use vstd::prelude::*;

verus! {

/// How a function node is written.
#[derive(Clone, Copy, Debug, PartialEq, Eq, Structural)]
pub enum FunctionForm {
    /// A function declared with its own name.
    Named,
    /// An anonymous function expression bound to a name by an assignment.
    BoundLambda,
}

/// Accessor syntax carried by a function node.
#[derive(Clone, Copy, Debug, PartialEq, Eq, Structural)]
pub enum Accessor {
    Plain,
    Getter,
    Property,
}

/// The modifiers of a function node that the classifier reads.
#[derive(Clone, Copy, Debug, PartialEq, Eq, Structural)]
pub struct Modifiers {
    /// A static or class-level marker: the function has no instance receiver.
    pub is_static: bool,
    /// An asynchronous-execution marker.
    pub is_async: bool,
    pub accessor: Accessor,
}

/// One step of the depth-first walk of a syntax tree.
#[derive(Clone, Debug)]
pub enum SyntaxEvent {
    /// Entering the body of a class, struct or other type with methods.
    EnterClass { name: String },
    /// Entering a function-like node; `name` is its identifier, or for a
    /// bound lambda the identifier it is bound to.
    EnterFunction { name: String, form: FunctionForm, modifiers: Modifiers },
    /// Leaving the innermost open class or function.
    Leave,
}

/// The mathematical value of a [`SyntaxEvent`].
pub enum EventView {
    EnterClass(Seq<char>),
    EnterFunction(Seq<char>, FunctionForm, Modifiers),
    Leave,
}

impl View for SyntaxEvent {
    type V = EventView;

    open spec fn view(&self) -> EventView {
        match self {
            SyntaxEvent::EnterClass { name } => EventView::EnterClass(name@),
            SyntaxEvent::EnterFunction { name, form, modifiers } => EventView::EnterFunction(name@, *form, *modifiers),
            SyntaxEvent::Leave => EventView::Leave,
        }
    }
}

/// The views of a walk's events.
pub open spec fn events_view(s: Seq<SyntaxEvent>) -> Seq<EventView> {
    s.map_values(|e: SyntaxEvent| e@)
}

/// The number of scopes left open after the walk `events`.
pub open spec fn depth(events: Seq<EventView>) -> int
    decreases events.len(),
{
    if events.len() == 0 {
        0
    } else if events.last() is Leave {
        depth(events.drop_last()) - 1
    } else {
        depth(events.drop_last()) + 1
    }
}

/// No prefix of the walk closes more scopes than it opened.
pub open spec fn never_underflows(events: Seq<EventView>) -> bool {
    forall|k: int| 0 <= k <= events.len() ==> depth(#[trigger] events.take(k)) >= 0
}

/// A well-formed walk: every scope it opens it closes, and it closes none
/// that it did not open.
pub open spec fn balanced(events: Seq<EventView>) -> bool {
    never_underflows(events) && depth(events) == 0
}

/// Appending one event to a walk that never underflows keeps it so, as long
/// as the new depth is not negative.
pub proof fn lemma_push_event(events: Seq<EventView>, e: EventView)
    requires
        never_underflows(events),
        depth(events.push(e)) >= 0,
    ensures
        never_underflows(events.push(e)),
        depth(events.push(e)) == depth(events) + if e is Leave { -1int } else { 1int },
{
    let s = events.push(e);
    assert(s.drop_last() =~= events);
    assert forall|k: int| 0 <= k <= s.len() implies depth(#[trigger] s.take(k)) >= 0 by {
        if k < s.len() {
            assert(s.take(k) =~= events.take(k));
        } else {
            assert(s.take(k) =~= s);
        }
    }
}

} // verus!
