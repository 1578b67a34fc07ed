//! Front ends that run as programs of their own: which program parses a
//! language, and the source tree that its response for one file gives.

use vstd::prelude::*;
use crate::aggregate::{SourceTree, tree_view};
use crate::external::{parse_response, walk_of_response};
use crate::language::Language;

verus! {

/// How a front end that runs as its own program is started: the program,
/// and the script it runs where it is an interpreter. It is given the path of
/// one file and answers with that file's walk (see [`crate::external`]).
#[derive(Clone, Copy, Debug)]
pub struct FrontEndProgram {
    pub program: &'static str,
    pub script: Option<&'static str>,
}

/// The separate program that parses `lang`, or `None` where the front end
/// runs in-process.
pub open spec fn spec_front_end_program(lang: Language) -> Option<(Seq<char>, Option<Seq<char>>)> {
    match lang {
        Language::Rust => None,
        Language::Python => Some(("python3"@, Some("pythonAPI.py"@))),
        Language::JavaScript => Some(("node"@, Some("javascriptAPI.js"@))),
        Language::Java => Some(("java"@, Some("JavaAPI"@))),
        Language::C => Some(("cAPI"@, None)),
        Language::Cpp => Some(("cppAPI"@, None)),
    }
}

pub fn front_end_program(lang: Language) -> (r: Option<FrontEndProgram>)
    ensures
        match spec_front_end_program(lang) {
            Some((p, s)) => r is Some && r->0.program@ == p && match s {
                Some(s) => r->0.script is Some && r->0.script->0@ == s,
                None => r->0.script is None,
            },
            None => r is None,
        },
{
    match lang {
        Language::Rust => None,
        Language::Python => Some(FrontEndProgram { program: "python3", script: Some("pythonAPI.py") }),
        Language::JavaScript => Some(FrontEndProgram { program: "node", script: Some("javascriptAPI.js") }),
        Language::Java => Some(FrontEndProgram { program: "java", script: Some("JavaAPI") }),
        Language::C => Some(FrontEndProgram { program: "cAPI", script: None }),
        Language::Cpp => Some(FrontEndProgram { program: "cppAPI", script: None }),
    }
}

/// The file at `path` with the walk that a front end's response gives; no
/// walk where the response is invalid.
pub fn response_source_tree(path: &str, response: &str) -> (r: SourceTree)
    ensures
        r.path@ == path@,
        tree_view(r.tree) == walk_of_response(response@),
{
    SourceTree { path: path.to_owned(), tree: parse_response(response) }
}

} // verus!
