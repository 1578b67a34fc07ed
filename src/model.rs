//! The report data model: declarations, class records, file and directory
//! reports, with their mathematical views.

use vstd::prelude::*;

verus! {

/// The kind that a declaration is classified as.
#[derive(Clone, Copy, Debug, PartialEq, Eq, Structural)]
pub enum DeclKind {
    Function,
    Arrow,
    Constructor,
    Method,
    Getter,
    Property,
}

impl DeclKind {
    /// Whether a declaration of this kind may be reported as a top-level function.
    pub open spec fn spec_is_free_function(self) -> bool {
        self == DeclKind::Function || self == DeclKind::Arrow
    }

    /// Whether a declaration of this kind may be reported as a top-level function.
    pub fn is_free_function(&self) -> (r: bool)
        ensures
            r == self.spec_is_free_function(),
    {
        match self {
            DeclKind::Function => true,
            DeclKind::Arrow => true,
            _ => false,
        }
    }
}

/// One function or method found in a file.
#[derive(Clone, Debug)]
pub struct Declaration {
    pub name: String,
    pub kind: DeclKind,
    pub is_static: bool,
    pub is_async: bool,
    /// Index, among the file's classes, of the class whose body holds it.
    pub enclosing_class: Option<usize>,
}

/// The mathematical value of a [`Declaration`].
pub struct DeclView {
    pub name: Seq<char>,
    pub kind: DeclKind,
    pub is_static: bool,
    pub is_async: bool,
    pub enclosing_class: Option<nat>,
}

impl View for Declaration {
    type V = DeclView;

    open spec fn view(&self) -> DeclView {
        DeclView {
            name: self.name@,
            kind: self.kind,
            is_static: self.is_static,
            is_async: self.is_async,
            enclosing_class: match self.enclosing_class {
                Some(c) => Some(c as nat),
                None => None,
            },
        }
    }
}

/// The views of a sequence of declarations.
pub open spec fn decls_view(s: Seq<Declaration>) -> Seq<DeclView> {
    s.map_values(|d: Declaration| d@)
}

/// The views of a sequence of strings.
pub open spec fn strings_view(s: Seq<String>) -> Seq<Seq<char>> {
    s.map_values(|x: String| x@)
}

/// A class (or struct, or other type with methods) and its members in source order.
#[derive(Clone, Debug)]
pub struct ClassRecord {
    pub name: String,
    pub methods: Vec<Declaration>,
}

/// What one file defines.
#[derive(Clone, Debug)]
pub struct FileReport {
    pub path: String,
    pub functions: Vec<Declaration>,
    pub classes: Vec<ClassRecord>,
    /// Set when the file's syntax tree could not be had or was malformed;
    /// such a report lists nothing.
    pub parse_failed: bool,
}

/// The mathematical value of a [`FileReport`].
pub struct FileReportView {
    pub path: Seq<char>,
    pub functions: Seq<DeclView>,
    pub classes: Seq<(Seq<char>, Seq<DeclView>)>,
    pub parse_failed: bool,
}

impl View for FileReport {
    type V = FileReportView;

    open spec fn view(&self) -> FileReportView {
        FileReportView {
            path: self.path@,
            functions: decls_view(self.functions@),
            classes: self.classes@.map_values(|k: ClassRecord| (k.name@, decls_view(k.methods@))),
            parse_failed: self.parse_failed,
        }
    }
}

/// The reports of all files of one run, in traversal order.
#[derive(Clone, Debug)]
pub struct DirectoryReport {
    pub files: Vec<FileReport>,
}

impl View for DirectoryReport {
    type V = Seq<FileReportView>;

    open spec fn view(&self) -> Seq<FileReportView> {
        self.files@.map_values(|f: FileReport| f@)
    }
}

} // verus!
