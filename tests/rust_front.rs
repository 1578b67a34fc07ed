use code_parser::aggregate::analyze_files;
use code_parser::language::Language;
use code_parser::model::{DeclKind, DirectoryReport, FileReport};
use code_parser::render::render_inventory;
use code_parser::rust_front::{
    analyze_rust_file, rust_source_tree, rust_syntax_events, rust_walk_events, RustImpl, RustImplItem, RustItem,
    RustSignature, RustSyntaxError,
};
use code_parser::syntax::{Accessor, FunctionForm, Modifiers, SyntaxEvent};

fn analyze(path: &str, text: &str) -> FileReport {
    let d = analyze_files(Language::Rust, &vec![rust_source_tree(path, text)]);
    d.files.into_iter().next().unwrap()
}

fn functions(r: &FileReport) -> Vec<(String, DeclKind, bool)> {
    r.functions.iter().map(|d| (d.name.clone(), d.kind, d.is_async)).collect()
}

fn methods(r: &FileReport) -> Vec<(String, Vec<(String, DeclKind, bool, bool)>)> {
    r.classes
        .iter()
        .map(|c| {
            let ms = c.methods.iter().map(|d| (d.name.clone(), d.kind, d.is_static, d.is_async)).collect();
            (c.name.clone(), ms)
        })
        .collect()
}

fn s(x: &str) -> String {
    x.to_string()
}

#[test]
fn test_rust_parser() {
    let r = analyze("test.rs", r#"
pub fn simple_function() {
    println!("Hello, World!");
}

pub struct TestStruct {
    name: String,
}

impl TestStruct {
    pub fn new(name: String) -> Self {
        Self { name }
    }
    
    pub fn instance_method(&self) -> String {
        format!("Hello, {}!", self.name)
    }
    
    pub fn static_method() -> &'static str {
        "Static method"
    }
}

pub async fn async_function() -> String {
    tokio::time::sleep(tokio::time::Duration::from_secs(1)).await;
    "Async function".to_string()
}

pub const LAMBDA: fn(i32) -> i32 = |x| x * 2;
"#);
    assert!(!r.parse_failed);
    assert_eq!(r.path, "test.rs");
    assert_eq!(functions(&r), vec![
        (s("simple_function"), DeclKind::Function, false),
        (s("async_function"), DeclKind::Function, true),
        (s("LAMBDA"), DeclKind::Arrow, false),
    ]);
    assert_eq!(methods(&r), vec![(s("TestStruct"), vec![
        (s("new"), DeclKind::Constructor, true, false),
        (s("instance_method"), DeclKind::Method, false, false),
        (s("static_method"), DeclKind::Method, true, false),
    ])]);
}

#[test]
fn test_rust_parser_with_traits() {
    let r = analyze("test_traits.rs", r#"
use std::fmt::Display;

pub trait Printable {
    fn print(&self);
}

pub struct Data<T: Display> {
    value: T,
}

impl<T: Display> Data<T> {
    pub fn new(value: T) -> Self {
        Self { value }
    }
    
    pub fn get_value(&self) -> &T {
        &self.value
    }
}

impl<T: Display> Printable for Data<T> {
    fn print(&self) {
        println!("{}", self.value);
    }
}
"#);
    assert!(r.functions.is_empty());
    assert_eq!(methods(&r), vec![(s("Data"), vec![
        (s("new"), DeclKind::Constructor, true, false),
        (s("get_value"), DeclKind::Method, false, false),
    ])]);
}

#[test]
fn rust_nested_items_and_modules() {
    let r = analyze("m.rs", r#"
fn outer() {
    fn inner() {}
    struct Hidden;
}
mod inside {
    pub fn in_module() {}
    mod deeper {
        pub async fn deepest() {}
    }
}
impl Extra {
    fn take(self) {}
}
"#);
    assert_eq!(functions(&r), vec![
        (s("outer"), DeclKind::Function, false),
        (s("in_module"), DeclKind::Function, false),
        (s("deepest"), DeclKind::Function, true),
    ]);
    assert_eq!(methods(&r), vec![(s("Extra"), vec![(s("take"), DeclKind::Method, false, false)])]);
}

#[test]
fn rust_syntax_error_gives_failed_report() {
    assert_eq!(rust_syntax_events("fn broken( {").unwrap_err(), RustSyntaxError);
    let d = analyze_files(Language::Rust, &vec![
        rust_source_tree("good.rs", "fn ok() {}"),
        rust_source_tree("bad.rs", "fn broken( {"),
    ]);
    assert!(!d.files[0].parse_failed);
    assert_eq!(functions(&d.files[0]), vec![(s("ok"), DeclKind::Function, false)]);
    assert!(d.files[1].parse_failed);
    assert!(d.files[1].functions.is_empty() && d.files[1].classes.is_empty());
}

#[test]
fn rust_walk_is_balanced() {
    let events = rust_syntax_events("struct A; impl A { fn f(&self) {} } fn g() {}").unwrap();
    assert_eq!(events.len(), 8);
}

#[test]
fn inventory_text_form() {
    let d: DirectoryReport = analyze_files(Language::Rust, &vec![
        rust_source_tree("a.rs", "fn f() {} struct S; impl S { fn new() -> S { S } }"),
        rust_source_tree("empty.rs", "use std::fmt;"),
        rust_source_tree("b.rs", "fn g() {}"),
    ]);
    assert_eq!(
        render_inventory(&d),
        "文件: a.rs\n  - f\n  - S::new\n文件: b.rs\n  - g\n"
    );
}

fn sig(name: &str, is_async: bool, has_receiver: bool) -> RustSignature {
    RustSignature { name: name.to_string(), is_async, has_receiver }
}

fn describe(events: &[SyntaxEvent]) -> Vec<String> {
    events
        .iter()
        .map(|e| match e {
            SyntaxEvent::EnterClass { name } => format!("class {}", name),
            SyntaxEvent::EnterFunction { name, form, modifiers } => {
                let Modifiers { is_static, is_async, accessor } = modifiers;
                assert_eq!(*accessor, Accessor::Plain);
                let f = if *form == FunctionForm::BoundLambda { "lambda" } else { "fn" };
                format!("{} {} static={} async={}", f, name, is_static, is_async)
            }
            SyntaxEvent::Leave => "leave".to_string(),
        })
        .collect()
}

#[test]
fn walk_of_converted_items() {
    let items = vec![
        RustItem::Function(sig("top", true, false)),
        RustItem::Struct("S".to_string()),
        RustItem::Impl(RustImpl {
            for_trait: false,
            type_path: Some(vec!["crate".to_string(), "S".to_string()]),
            items: vec![RustImplItem::Function(sig("new", false, false)), RustImplItem::Other,
                RustImplItem::Function(sig("get", false, true))],
        }),
        RustItem::Impl(RustImpl {
            for_trait: true,
            type_path: Some(vec!["S".to_string()]),
            items: vec![RustImplItem::Function(sig("fmt", false, true))],
        }),
        RustItem::Impl(RustImpl { for_trait: false, type_path: None, items: vec![] }),
        RustItem::Module(vec![RustItem::Other, RustItem::Function(sig("inner", false, false))]),
        RustItem::Other,
    ];
    assert_eq!(describe(&rust_walk_events(&items)), vec![
        "fn top static=false async=true", "leave",
        "class S", "leave",
        "class S", "fn new static=true async=false", "leave", "fn get static=false async=false", "leave", "leave",
        "fn inner static=false async=false", "leave",
    ]);
}

#[test]
fn rust_file_analysis_is_repeatable() {
    let text = "struct A; impl A { fn new() -> A { A } fn f(&self) {} } fn g() {} const C: fn() = || {};";
    let a = analyze_rust_file("a.rs", text);
    let b = analyze_rust_file("a.rs", text);
    assert_eq!(format!("{:?}", a), format!("{:?}", b));
    assert_eq!(functions(&a), vec![(s("g"), DeclKind::Function, false), (s("C"), DeclKind::Arrow, false)]);
    assert!(analyze_rust_file("b.rs", "fn (").parse_failed);
}
