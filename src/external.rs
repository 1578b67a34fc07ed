//! The response of a front end that runs as its own program: the walk of one
//! file's syntax tree, one event per line, its fields separated by single
//! spaces.
//!
//! - `class NAME` enters a class;
//! - `function NAME FLAGS..` or `lambda NAME FLAGS..` enters a named function
//!   or a lambda bound to `NAME`, each flag one of `static`, `async`,
//!   `getter`, `property`;
//! - `leave` closes the innermost open scope.
//!
//! Empty lines are skipped; any other line makes the whole response invalid.

use vstd::prelude::*;
use crate::config::{split_on, split_spec};
use crate::model::strings_view;
use crate::syntax::{Accessor, EventView, FunctionForm, Modifiers, SyntaxEvent, events_view};
use crate::text::str_eq;

verus! {

/// Whether `flag` is among `flags`.
pub open spec fn has_flag(flags: Seq<Seq<char>>, flag: Seq<char>) -> bool
    decreases flags.len(),
{
    if flags.len() == 0 {
        false
    } else {
        has_flag(flags.drop_last(), flag) || flags.last() == flag
    }
}

/// Whether every one of `flags` is a known flag.
pub open spec fn known_flags(flags: Seq<Seq<char>>) -> bool
    decreases flags.len(),
{
    if flags.len() == 0 {
        true
    } else {
        known_flags(flags.drop_last()) && {
            let f = flags.last();
            f == "static"@ || f == "async"@ || f == "getter"@ || f == "property"@
        }
    }
}

/// The event that one line's fields stand for, if they stand for one.
pub open spec fn line_event(fields: Seq<Seq<char>>) -> Option<EventView> {
    if fields.len() == 1 && fields[0] == "leave"@ {
        Some(EventView::Leave)
    } else if fields.len() == 2 && fields[0] == "class"@ && fields[1].len() > 0 {
        Some(EventView::EnterClass(fields[1]))
    } else if fields.len() >= 2 && (fields[0] == "function"@ || fields[0] == "lambda"@)
        && fields[1].len() > 0 && known_flags(fields.subrange(2, fields.len() as int)) {
        let flags = fields.subrange(2, fields.len() as int);
        Some(EventView::EnterFunction(
            fields[1],
            if fields[0] == "lambda"@ { FunctionForm::BoundLambda } else { FunctionForm::Named },
            Modifiers {
                is_static: has_flag(flags, "static"@),
                is_async: has_flag(flags, "async"@),
                accessor: if has_flag(flags, "getter"@) {
                    Accessor::Getter
                } else if has_flag(flags, "property"@) {
                    Accessor::Property
                } else {
                    Accessor::Plain
                },
            },
        ))
    } else {
        None
    }
}

/// The walk that the given lines stand for, or `None` if one is invalid.
pub open spec fn walk_of_lines(lines: Seq<Seq<char>>) -> Option<Seq<EventView>>
    decreases lines.len(),
{
    if lines.len() == 0 {
        Some(Seq::empty())
    } else {
        match walk_of_lines(lines.drop_last()) {
            Some(prev) => if lines.last().len() == 0 {
                Some(prev)
            } else {
                match line_event(split_spec(lines.last(), ' ')) {
                    Some(e) => Some(prev.push(e)),
                    None => None,
                }
            },
            None => None,
        }
    }
}

/// The walk that a front end's response stands for.
pub open spec fn walk_of_response(text: Seq<char>) -> Option<Seq<EventView>> {
    walk_of_lines(split_spec(text, '\n'))
}

/// Reads the flags among `fields` from index 2 on.
fn read_flags(fields: &Vec<String>) -> (r: (bool, bool, bool, bool, bool))
    requires
        fields@.len() >= 2,
    ensures
        ({
            let flags = strings_view(fields@).subrange(2, fields@.len() as int);
            r == (known_flags(flags), has_flag(flags, "static"@), has_flag(flags, "async"@),
                has_flag(flags, "getter"@), has_flag(flags, "property"@))
        }),
{
    let ghost flags = strings_view(fields@).subrange(2, fields@.len() as int);
    let mut known = true;
    let mut is_static = false;
    let mut is_async = false;
    let mut getter = false;
    let mut property = false;
    let mut k: usize = 2;
    while k < fields.len()
        invariant
            2 <= k <= fields@.len(),
            flags == strings_view(fields@).subrange(2, fields@.len() as int),
            ({
                let seen = flags.take(k - 2);
                &&& known == known_flags(seen)
                &&& is_static == has_flag(seen, "static"@)
                &&& is_async == has_flag(seen, "async"@)
                &&& getter == has_flag(seen, "getter"@)
                &&& property == has_flag(seen, "property"@)
            }),
        decreases fields@.len() - k,
    {
        let f = fields[k].as_str();
        proof {
            let seen = flags.take(k + 1 - 2);
            assert(seen.drop_last() =~= flags.take(k - 2));
            assert(seen.last() == fields@[k as int]@);
        }
        let s = str_eq(f, "static");
        let a = str_eq(f, "async");
        let g = str_eq(f, "getter");
        let p = str_eq(f, "property");
        known = known && (s || a || g || p);
        is_static = is_static || s;
        is_async = is_async || a;
        getter = getter || g;
        property = property || p;
        k = k + 1;
    }
    assert(flags.take(fields@.len() - 2) =~= flags);
    (known, is_static, is_async, getter, property)
}

/// The event that one line's fields stand for.
pub fn parse_line(fields: &Vec<String>) -> (r: Option<SyntaxEvent>)
    ensures
        match line_event(strings_view(fields@)) {
            Some(e) => r is Some && r->0@ == e,
            None => r is None,
        },
{
    let ghost fs = strings_view(fields@);
    if fields.len() == 0 {
        return None;
    }
    assert(fs[0] == fields@[0]@);
    if fields.len() == 1 {
        return if str_eq(fields[0].as_str(), "leave") { Some(SyntaxEvent::Leave) } else { None };
    }
    assert(fs[1] == fields@[1]@);
    let head = fields[0].as_str();
    let name = &fields[1];
    if name.as_str().unicode_len() == 0 {
        return None;
    }
    if str_eq(head, "class") {
        proof {
            reveal_strlit("class");
            reveal_strlit("function");
            reveal_strlit("lambda");
            assert("class"@ != "function"@ && "class"@ != "lambda"@) by {
                assert("class"@[0] != "function"@[0]);
                assert("class"@[0] != "lambda"@[0]);
            }
        }
        return if fields.len() == 2 { Some(SyntaxEvent::EnterClass { name: name.clone() }) } else { None };
    }
    let lambda = str_eq(head, "lambda");
    if !lambda && !str_eq(head, "function") {
        return None;
    }
    let (known, is_static, is_async, getter, property) = read_flags(fields);
    if !known {
        return None;
    }
    let accessor = if getter { Accessor::Getter } else if property { Accessor::Property } else { Accessor::Plain };
    let form = if lambda { FunctionForm::BoundLambda } else { FunctionForm::Named };
    Some(SyntaxEvent::EnterFunction { name: name.clone(), form, modifiers: Modifiers { is_static, is_async, accessor } })
}

/// Reads a front end's response into the walk it stands for; `None` where a
/// line is invalid.
pub fn parse_response(text: &str) -> (r: Option<Vec<SyntaxEvent>>)
    ensures
        match walk_of_response(text@) {
            Some(w) => r is Some && events_view(r->0@) == w,
            None => r is None,
        },
{
    let lines = split_on(text, '\n');
    let ghost ls = strings_view(lines@);
    let mut out: Vec<SyntaxEvent> = Vec::new();
    let mut i: usize = 0;
    while i < lines.len()
        invariant
            i <= lines@.len(),
            ls == strings_view(lines@),
            ls == split_spec(text@, '\n'),
            walk_of_lines(ls.take(i as int)) == Some(events_view(out@)),
        decreases lines@.len() - i,
    {
        let line = lines[i].as_str();
        proof {
            assert(ls.take(i as int + 1).drop_last() =~= ls.take(i as int));
            assert(ls.take(i as int + 1).last() == lines@[i as int]@);
        }
        if line.unicode_len() > 0 {
            let fields = split_on(line, ' ');
            match parse_line(&fields) {
                Some(e) => {
                    let ghost before = events_view(out@);
                    out.push(e);
                    assert(events_view(out@) =~= before.push(e@));
                },
                None => {
                    proof {
                        lemma_invalid_line_extends(ls, i as int + 1);
                    }
                    return None;
                },
            }
        }
        i = i + 1;
    }
    assert(ls.take(lines@.len() as int) =~= ls);
    Some(out)
}

/// Once a prefix of the lines is invalid, so are all the lines.
proof fn lemma_invalid_line_extends(lines: Seq<Seq<char>>, k: int)
    requires
        0 <= k <= lines.len(),
        walk_of_lines(lines.take(k)) is None,
    ensures
        walk_of_lines(lines) is None,
    decreases lines.len() - k,
{
    if k < lines.len() {
        assert(lines.take(k + 1).drop_last() =~= lines.take(k));
        lemma_invalid_line_extends(lines, k + 1);
    } else {
        assert(lines.take(k) =~= lines);
    }
}

} // verus!
