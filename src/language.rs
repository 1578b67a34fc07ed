//! The supported source languages and what the classifier needs to know of each.

use vstd::prelude::*;
use crate::text::str_eq;

verus! {

#[derive(Clone, Copy, Debug, PartialEq, Eq, Structural)]
pub enum Language {
    Rust,
    Python,
    JavaScript,
    Java,
    C,
    Cpp,
}

/// The language that a command-line name selects, aliases included.
pub open spec fn language_named(s: Seq<char>) -> Option<Language> {
    if s == "rust"@ {
        Some(Language::Rust)
    } else if s == "python"@ {
        Some(Language::Python)
    } else if s == "javascript"@ || s == "js"@ {
        Some(Language::JavaScript)
    } else if s == "java"@ {
        Some(Language::Java)
    } else if s == "c"@ {
        Some(Language::C)
    } else if s == "cpp"@ || s == "c++"@ {
        Some(Language::Cpp)
    } else {
        None
    }
}

impl Language {
    /// The canonical name of the language.
    pub open spec fn spec_name(self) -> Seq<char> {
        match self {
            Language::Rust => "rust"@,
            Language::Python => "python"@,
            Language::JavaScript => "javascript"@,
            Language::Java => "java"@,
            Language::C => "c"@,
            Language::Cpp => "cpp"@,
        }
    }

    /// The file-name extension of the language's source files, without the dot.
    pub open spec fn spec_extension(self) -> Seq<char> {
        match self {
            Language::Rust => "rs"@,
            Language::Python => "py"@,
            Language::JavaScript => "js"@,
            Language::Java => "java"@,
            Language::C => "c"@,
            Language::Cpp => "cpp"@,
        }
    }

    /// Whether a function named `name`, declared directly in the body of the
    /// class named `class_name`, is that class's initializer.
    pub open spec fn spec_is_initializer(self, name: Seq<char>, class_name: Seq<char>) -> bool {
        match self {
            Language::Rust => name == "new"@,
            Language::Python => name == "__init__"@,
            Language::JavaScript => name == "constructor"@,
            Language::Java => name == class_name,
            Language::Cpp => name == class_name,
            Language::C => false,
        }
    }

    /// Selects a language by name; `js` and `c++` are accepted as aliases.
    pub fn from_name(name: &str) -> (r: Option<Language>)
        ensures
            r == language_named(name@),
    {
        if str_eq(name, "rust") {
            Some(Language::Rust)
        } else if str_eq(name, "python") {
            Some(Language::Python)
        } else if str_eq(name, "javascript") || str_eq(name, "js") {
            Some(Language::JavaScript)
        } else if str_eq(name, "java") {
            Some(Language::Java)
        } else if str_eq(name, "c") {
            Some(Language::C)
        } else if str_eq(name, "cpp") || str_eq(name, "c++") {
            Some(Language::Cpp)
        } else {
            None
        }
    }

    pub fn name(&self) -> (r: &'static str)
        ensures
            r@ == self.spec_name(),
    {
        match self {
            Language::Rust => "rust",
            Language::Python => "python",
            Language::JavaScript => "javascript",
            Language::Java => "java",
            Language::C => "c",
            Language::Cpp => "cpp",
        }
    }

    pub fn extension(&self) -> (r: &'static str)
        ensures
            r@ == self.spec_extension(),
    {
        match self {
            Language::Rust => "rs",
            Language::Python => "py",
            Language::JavaScript => "js",
            Language::Java => "java",
            Language::C => "c",
            Language::Cpp => "cpp",
        }
    }

    pub fn is_initializer(&self, name: &str, class_name: &str) -> (r: bool)
        ensures
            r == self.spec_is_initializer(name@, class_name@),
    {
        match self {
            Language::Rust => str_eq(name, "new"),
            Language::Python => str_eq(name, "__init__"),
            Language::JavaScript => str_eq(name, "constructor"),
            Language::Java => str_eq(name, class_name),
            Language::Cpp => str_eq(name, class_name),
            Language::C => false,
        }
    }
}

/// The languages that have a front end, in the order they are listed to users.
pub fn supported_languages() -> (r: Vec<Language>)
    ensures
        r@ == seq![Language::Rust, Language::Python, Language::JavaScript, Language::Java,
            Language::C, Language::Cpp],
{
    let r = vec![Language::Rust, Language::Python, Language::JavaScript, Language::Java,
        Language::C, Language::Cpp];
    assert(r@ =~= seq![Language::Rust, Language::Python, Language::JavaScript, Language::Java,
            Language::C, Language::Cpp]);
    r
}

} // verus!
