use code_parser::config::{parse_depth, split_on, Config, OutputFormat, SettingError, DEFAULT_MAX_DEPTH};
use code_parser::frontend::front_end_program;
use code_parser::language::{supported_languages, Language};
use code_parser::text::str_eq;

#[test]
fn default_configuration() {
    let c = Config::default();
    assert_eq!(c.ignore_dirs, vec!["tests", "node_modules", "target", "venv", "__pycache__"]);
    assert_eq!(c.output_format, OutputFormat::Text);
    assert_eq!(c.max_depth, 5);
    assert_eq!(c.log_level, "info");
    assert_eq!(c.output_dir, "~/.parser/output");
}

#[test]
fn settings_are_applied() {
    let mut c = Config::default();
    assert_eq!(c.apply_setting("output_format=json"), Ok(()));
    assert_eq!(c.output_format, OutputFormat::Json);
    assert_eq!(c.apply_setting("max_depth=12"), Ok(()));
    assert_eq!(c.max_depth, 12);
    assert_eq!(c.apply_setting("max_depth=deep"), Ok(()));
    assert_eq!(c.max_depth, DEFAULT_MAX_DEPTH);
    assert_eq!(c.apply_setting("log_level=debug"), Ok(()));
    assert_eq!(c.log_level, "debug");
    assert_eq!(c.apply_setting("output_dir=/tmp/out"), Ok(()));
    assert_eq!(c.output_dir, "/tmp/out");
}

#[test]
fn bad_settings_change_nothing() {
    let mut c = Config::default();
    assert_eq!(c.apply_setting("colour=red"), Err(SettingError::UnknownKey));
    assert_eq!(c.apply_setting("output_format=pdf"), Err(SettingError::UnknownFormat));
    assert_eq!(c.apply_setting("max_depth"), Err(SettingError::NotAnAssignment));
    assert_eq!(c.apply_setting("a=b=c"), Err(SettingError::NotAnAssignment));
    assert_eq!(c.output_format, OutputFormat::Text);
    assert_eq!(c.max_depth, 5);
}

#[test]
fn ignore_list_from_text() {
    let mut c = Config::default();
    c.set_ignore_dirs("build,dist");
    assert_eq!(c.ignore_dirs, vec!["build", "dist"]);
    assert_eq!(c.max_depth, 5);
}

#[test]
fn depth_values() {
    assert_eq!(parse_depth("0"), Some(0));
    assert_eq!(parse_depth("007"), Some(7));
    assert_eq!(parse_depth("18446744073709551615"), Some(usize::MAX));
    assert_eq!(parse_depth("18446744073709551616"), None);
    assert_eq!(parse_depth(""), None);
    assert_eq!(parse_depth("-1"), None);
    assert_eq!(parse_depth("3x"), None);
    let mut c = Config::default();
    c.set_max_depth("2");
    assert_eq!(c.max_depth, 2);
    c.set_max_depth("two");
    assert_eq!(c.max_depth, 5);
}

#[test]
fn splitting_keeps_empty_pieces() {
    assert_eq!(split_on("a,b,c", ','), vec!["a", "b", "c"]);
    assert_eq!(split_on("a,,b", ','), vec!["a", "", "b"]);
    assert_eq!(split_on("", ','), vec![""]);
    assert_eq!(split_on(",", ','), vec!["", ""]);
    assert_eq!(split_on("k=v", '='), vec!["k", "v"]);
}

#[test]
fn output_format_names() {
    assert_eq!(OutputFormat::from_name("html"), Some(OutputFormat::Html));
    assert_eq!(OutputFormat::from_name("HTML"), None);
    assert_eq!(OutputFormat::Json.name(), "json");
}

#[test]
fn language_names_and_aliases() {
    assert_eq!(Language::from_name("rust"), Some(Language::Rust));
    assert_eq!(Language::from_name("js"), Some(Language::JavaScript));
    assert_eq!(Language::from_name("javascript"), Some(Language::JavaScript));
    assert_eq!(Language::from_name("c++"), Some(Language::Cpp));
    assert_eq!(Language::from_name("cpp"), Some(Language::Cpp));
    assert_eq!(Language::from_name("go"), None);
    assert_eq!(Language::Python.extension(), "py");
    assert_eq!(Language::Cpp.extension(), "cpp");
    let names: Vec<&str> = supported_languages().iter().map(|l| l.name()).collect();
    assert_eq!(names, vec!["rust", "python", "javascript", "java", "c", "cpp"]);
}

#[test]
fn initializer_names() {
    assert!(Language::Rust.is_initializer("new", "Data"));
    assert!(Language::Python.is_initializer("__init__", "C"));
    assert!(Language::JavaScript.is_initializer("constructor", "C"));
    assert!(Language::Java.is_initializer("Point", "Point"));
    assert!(!Language::Java.is_initializer("point", "Point"));
    assert!(!Language::C.is_initializer("init", "init"));
}

#[test]
fn traversal_from_configuration() {
    let c = Config::default();
    let t = c.traversal(Language::JavaScript);
    assert_eq!(t.extension, "js");
    assert_eq!(t.max_depth, 5);
    assert_eq!(t.ignore_dirs, c.ignore_dirs);
}

#[test]
fn front_end_programs() {
    let p = front_end_program(Language::Python).unwrap();
    assert_eq!((p.program, p.script), ("python3", Some("pythonAPI.py")));
    assert!(front_end_program(Language::Rust).is_none());
    assert_eq!(front_end_program(Language::C).unwrap().script, None);
}

#[test]
fn string_equality() {
    assert!(str_eq("abc", "abc"));
    assert!(!str_eq("abc", "abd"));
    assert!(!str_eq("ab", "abc"));
    assert!(str_eq("", ""));
    assert!(str_eq("文件", "文件"));
}
