use code_parser::aggregate::{aggregate, analyze_file, analyze_files, SourceTree};
use code_parser::classify::{classify, Classification, MalformedTree};
use code_parser::language::Language;
use code_parser::model::{DeclKind, Declaration, FileReport};
use code_parser::syntax::{Accessor, FunctionForm, Modifiers, SyntaxEvent};

fn mods(is_static: bool, is_async: bool, accessor: Accessor) -> Modifiers {
    Modifiers { is_static, is_async, accessor }
}

fn func(name: &str, is_async: bool) -> SyntaxEvent {
    SyntaxEvent::EnterFunction {
        name: name.to_string(),
        form: FunctionForm::Named,
        modifiers: mods(false, is_async, Accessor::Plain),
    }
}

fn lambda(name: &str) -> SyntaxEvent {
    SyntaxEvent::EnterFunction {
        name: name.to_string(),
        form: FunctionForm::BoundLambda,
        modifiers: mods(false, false, Accessor::Plain),
    }
}

fn member(name: &str, is_static: bool, accessor: Accessor) -> SyntaxEvent {
    SyntaxEvent::EnterFunction {
        name: name.to_string(),
        form: FunctionForm::Named,
        modifiers: mods(is_static, false, accessor),
    }
}

fn class(name: &str) -> SyntaxEvent {
    SyntaxEvent::EnterClass { name: name.to_string() }
}

fn leave() -> SyntaxEvent {
    SyntaxEvent::Leave
}

fn report(lang: Language, events: Vec<SyntaxEvent>) -> FileReport {
    analyze_file(lang, "test.py", Some(&events))
}

fn functions(r: &FileReport) -> Vec<(String, DeclKind, bool)> {
    r.functions.iter().map(|d| (d.name.clone(), d.kind, d.is_async)).collect()
}

fn methods(r: &FileReport) -> Vec<(String, Vec<(String, DeclKind, bool, bool)>)> {
    r.classes
        .iter()
        .map(|c| {
            let ms = c.methods.iter().map(|d| (d.name.clone(), d.kind, d.is_static, d.is_async)).collect();
            (c.name.clone(), ms)
        })
        .collect()
}

fn s(x: &str) -> String {
    x.to_string()
}

#[test]
fn module_level_functions_and_lambda() {
    let r = report(Language::Python, vec![
        func("f", false), leave(),
        func("g", true), leave(),
        lambda("h"), leave(),
    ]);
    assert!(!r.parse_failed);
    assert_eq!(functions(&r), vec![
        (s("f"), DeclKind::Function, false),
        (s("g"), DeclKind::Function, true),
        (s("h"), DeclKind::Arrow, false),
    ]);
    assert!(r.classes.is_empty());
}

#[test]
fn constructor_instance_and_static_methods() {
    let r = report(Language::Python, vec![
        class("C"),
        member("__init__", false, Accessor::Plain), leave(),
        member("instance", false, Accessor::Plain), leave(),
        member("static_one", true, Accessor::Plain), leave(),
        leave(),
    ]);
    assert_eq!(methods(&r), vec![(s("C"), vec![
        (s("__init__"), DeclKind::Constructor, false, false),
        (s("instance"), DeclKind::Method, false, false),
        (s("static_one"), DeclKind::Method, true, false),
    ])]);
    assert!(r.functions.is_empty());
}

#[test]
fn accessor_member_is_a_getter() {
    let r = report(Language::JavaScript, vec![
        class("Shape"),
        member("constructor", false, Accessor::Plain), leave(),
        member("area", false, Accessor::Getter), leave(),
        member("describe", false, Accessor::Plain), leave(),
        leave(),
    ]);
    assert_eq!(methods(&r), vec![(s("Shape"), vec![
        (s("constructor"), DeclKind::Constructor, false, false),
        (s("area"), DeclKind::Getter, false, false),
        (s("describe"), DeclKind::Method, false, false),
    ])]);
}

#[test]
fn property_member_is_a_property() {
    let r = report(Language::Python, vec![
        class("P"), member("name", false, Accessor::Property), leave(), leave(),
    ]);
    assert_eq!(methods(&r), vec![(s("P"), vec![(s("name"), DeclKind::Property, false, false)])]);
}

#[test]
fn nested_functions_are_not_reported() {
    let r = report(Language::Python, vec![
        func("outer", false),
        func("inner", false), leave(),
        lambda("helper"), leave(),
        class("Local"), member("m", false, Accessor::Plain), leave(), leave(),
        leave(),
        func("after", false), leave(),
    ]);
    assert_eq!(functions(&r), vec![
        (s("outer"), DeclKind::Function, false),
        (s("after"), DeclKind::Function, false),
    ]);
    assert!(r.classes.is_empty());
}

#[test]
fn class_without_members_is_recorded() {
    let r = report(Language::Java, vec![class("Empty"), leave(), func("f", false), leave()]);
    assert_eq!(methods(&r), vec![(s("Empty"), vec![])]);
    assert_eq!(functions(&r), vec![(s("f"), DeclKind::Function, false)]);
}

#[test]
fn class_named_constructor_in_java_and_cpp() {
    for lang in [Language::Java, Language::Cpp] {
        let r = report(lang, vec![
            class("Point"), member("Point", false, Accessor::Plain), leave(),
            member("norm", false, Accessor::Plain), leave(), leave(),
        ]);
        assert_eq!(methods(&r), vec![(s("Point"), vec![
            (s("Point"), DeclKind::Constructor, false, false),
            (s("norm"), DeclKind::Method, false, false),
        ])]);
    }
    let r = report(Language::Python, vec![class("Point"), member("Point", false, Accessor::Plain), leave(), leave()]);
    assert_eq!(methods(&r), vec![(s("Point"), vec![(s("Point"), DeclKind::Method, false, false)])]);
}

#[test]
fn nested_classes_get_their_own_records() {
    let r = report(Language::Java, vec![
        class("Outer"),
        member("a", false, Accessor::Plain), leave(),
        class("Inner"), member("b", true, Accessor::Plain), leave(), leave(),
        member("c", false, Accessor::Plain), leave(),
        leave(),
    ]);
    assert_eq!(methods(&r), vec![
        (s("Outer"), vec![(s("a"), DeclKind::Method, false, false), (s("c"), DeclKind::Method, false, false)]),
        (s("Inner"), vec![(s("b"), DeclKind::Method, true, false)]),
    ]);
}

#[test]
fn a_class_entered_twice_is_one_record() {
    let r = report(Language::Rust, vec![
        class("Data"), leave(),
        func("free", false), leave(),
        class("Data"), member("new", true, Accessor::Plain), leave(), leave(),
        class("Other"), leave(),
        class("Data"), member("get", false, Accessor::Plain), leave(), leave(),
    ]);
    assert_eq!(methods(&r), vec![
        (s("Data"), vec![(s("new"), DeclKind::Constructor, true, false), (s("get"), DeclKind::Method, false, false)]),
        (s("Other"), vec![]),
    ]);
}

#[test]
fn classify_reports_classes_and_declarations() {
    let events = vec![class("K"), member("m", false, Accessor::Plain), leave(), leave(), func("f", true), leave()];
    let c: Classification = classify(Language::Python, &events).unwrap();
    assert_eq!(c.class_names, vec![s("K")]);
    let ds: Vec<(String, DeclKind, Option<usize>, bool)> =
        c.declarations.iter().map(|d| (d.name.clone(), d.kind, d.enclosing_class, d.is_async)).collect();
    assert_eq!(ds, vec![(s("m"), DeclKind::Method, Some(0), false), (s("f"), DeclKind::Function, None, true)]);
}

#[test]
fn malformed_walks_are_rejected() {
    assert_eq!(classify(Language::Python, &vec![leave()]).unwrap_err(), MalformedTree);
    assert_eq!(classify(Language::Python, &vec![func("f", false)]).unwrap_err(), MalformedTree);
    assert_eq!(classify(Language::Python, &vec![class("A"), leave(), leave()]).unwrap_err(), MalformedTree);
    assert!(classify(Language::Python, &vec![]).unwrap().declarations.is_empty());
}

#[test]
fn malformed_tree_gives_failed_report() {
    let r = report(Language::Python, vec![func("f", false)]);
    assert!(r.parse_failed);
    assert!(r.functions.is_empty());
    assert!(r.classes.is_empty());
    let r = analyze_file(Language::Python, "bad.py", None);
    assert!(r.parse_failed);
    assert_eq!(r.path, "bad.py");
}

#[test]
fn one_invalid_file_does_not_stop_the_run() {
    let sources = vec![
        SourceTree { path: s("a.py"), tree: Some(vec![func("a", false), leave()]) },
        SourceTree { path: s("broken.py"), tree: None },
        SourceTree { path: s("c.py"), tree: Some(vec![class("C"), leave()]) },
    ];
    let d = analyze_files(Language::Python, &sources);
    assert_eq!(d.files.len(), 3);
    assert_eq!(d.files[0].path, "a.py");
    assert!(!d.files[0].parse_failed);
    assert_eq!(functions(&d.files[0]), vec![(s("a"), DeclKind::Function, false)]);
    assert_eq!(d.files[1].path, "broken.py");
    assert!(d.files[1].parse_failed);
    assert!(d.files[1].functions.is_empty() && d.files[1].classes.is_empty());
    assert!(!d.files[2].parse_failed);
    assert_eq!(methods(&d.files[2]), vec![(s("C"), vec![])]);
}

#[test]
fn every_declaration_listed_once() {
    let events = vec![
        func("f", false), leave(),
        class("A"), member("x", false, Accessor::Plain), leave(), member("x", false, Accessor::Plain), leave(), leave(),
        class("B"), member("y", true, Accessor::Plain), leave(), leave(),
        lambda("g"), leave(),
    ];
    let c = classify(Language::Python, &events).unwrap();
    let r = aggregate("m.py", &c);
    let mut listed: Vec<String> = r.functions.iter().map(|d| d.name.clone()).collect();
    for k in &r.classes {
        listed.extend(k.methods.iter().map(|d| d.name.clone()));
    }
    let mut all: Vec<String> = c.declarations.iter().map(|d: &Declaration| d.name.clone()).collect();
    listed.sort();
    all.sort();
    assert_eq!(listed, all);
    assert_eq!(listed, vec![s("f"), s("g"), s("x"), s("x"), s("y")]);
}

#[test]
fn analysis_is_repeatable() {
    let sources = vec![
        SourceTree { path: s("a.py"), tree: Some(vec![class("A"), member("m", false, Accessor::Plain), leave(), leave()]) },
        SourceTree { path: s("b.py"), tree: Some(vec![func("f", true), leave()]) },
    ];
    let first = analyze_files(Language::Python, &sources);
    let second = analyze_files(Language::Python, &sources);
    assert_eq!(format!("{:?}", first), format!("{:?}", second));
}

#[test]
fn test_python_parser() {
    let events = vec![
        func("simple_function", false), leave(),
        class("TestClass"),
        member("__init__", false, Accessor::Plain), leave(),
        member("instance_method", false, Accessor::Plain), leave(),
        member("static_method", true, Accessor::Plain), leave(),
        member("class_method", false, Accessor::Plain), leave(),
        leave(),
        func("async_function", true), leave(),
        lambda("lambda_function"), leave(),
    ];
    let r = analyze_file(Language::Python, "test.py", Some(&events));
    assert_eq!(r.path, "test.py");
    assert_eq!(functions(&r), vec![
        (s("simple_function"), DeclKind::Function, false),
        (s("async_function"), DeclKind::Function, true),
        (s("lambda_function"), DeclKind::Arrow, false),
    ]);
    assert_eq!(methods(&r), vec![(s("TestClass"), vec![
        (s("__init__"), DeclKind::Constructor, false, false),
        (s("instance_method"), DeclKind::Method, false, false),
        (s("static_method"), DeclKind::Method, true, false),
        (s("class_method"), DeclKind::Method, false, false),
    ])]);
}

#[test]
fn test_python_parser_with_imports() {
    let events = vec![
        func("process_data", false), leave(),
        class("DataProcessor"),
        member("__init__", false, Accessor::Plain), leave(),
        member("process", false, Accessor::Plain), leave(),
        leave(),
    ];
    let r = analyze_file(Language::Python, "test_imports.py", Some(&events));
    assert_eq!(functions(&r), vec![(s("process_data"), DeclKind::Function, false)]);
    assert_eq!(methods(&r), vec![(s("DataProcessor"), vec![
        (s("__init__"), DeclKind::Constructor, false, false),
        (s("process"), DeclKind::Method, false, false),
    ])]);
}

#[test]
fn test_python_parser_with_decorators() {
    let events = vec![
        func("cache_result", false),
        func("wrapper", false), leave(),
        leave(),
        func("cached_function", false), leave(),
        class("DecoratorTest"),
        member("name", false, Accessor::Property), leave(),
        member("cached_class_method", true, Accessor::Plain), leave(),
        leave(),
    ];
    let r = analyze_file(Language::Python, "test_decorators.py", Some(&events));
    assert_eq!(functions(&r), vec![
        (s("cache_result"), DeclKind::Function, false),
        (s("cached_function"), DeclKind::Function, false),
    ]);
    assert_eq!(methods(&r), vec![(s("DecoratorTest"), vec![
        (s("name"), DeclKind::Property, false, false),
        (s("cached_class_method"), DeclKind::Method, true, false),
    ])]);
}

#[test]
fn test_javascript_parser() {
    let events = vec![
        func("simpleFunction", false), leave(),
        class("TestClass"),
        member("constructor", false, Accessor::Plain), leave(),
        member("instanceMethod", false, Accessor::Plain), leave(),
        member("staticMethod", true, Accessor::Plain), leave(),
        leave(),
        func("asyncFunction", true),
        lambda("resolve"), leave(),
        leave(),
        lambda("lambdaFunction"), leave(),
    ];
    let r = analyze_file(Language::JavaScript, "test.js", Some(&events));
    assert_eq!(functions(&r), vec![
        (s("simpleFunction"), DeclKind::Function, false),
        (s("asyncFunction"), DeclKind::Function, true),
        (s("lambdaFunction"), DeclKind::Arrow, false),
    ]);
    assert_eq!(methods(&r), vec![(s("TestClass"), vec![
        (s("constructor"), DeclKind::Constructor, false, false),
        (s("instanceMethod"), DeclKind::Method, false, false),
        (s("staticMethod"), DeclKind::Method, true, false),
    ])]);
}
