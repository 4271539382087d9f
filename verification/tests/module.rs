use nakati::ast::Spanned;
use nakati::common::Span;
use nakati::interpreter::InterpreterError;
use nakati::module::ModuleLabel;

fn make_spanned(value: &str) -> Spanned<String> {
    Spanned::new(value.to_string(), Span::new_string(value))
}

fn label(
    developer: Option<&str>,
    package: Option<&str>,
    path: Option<&str>,
    special: Option<&str>,
) -> ModuleLabel {
    ModuleLabel {
        developer: developer.map(|s| s.to_string()),
        package: package.map(|s| s.to_string()),
        path: path.map(|s| s.to_string()),
        special: special.map(|s| s.to_string()),
    }
}

#[test]
fn special() {
    assert_eq!(
        ModuleLabel::parse(make_spanned("<builtins>")).unwrap(),
        ModuleLabel {
            developer: None,
            package: None,
            path: None,
            special: Some("builtins".to_string())
        }
    );
}

#[test]
fn stdlib() {
    assert_eq!(
        ModuleLabel::parse(make_spanned("#io")).unwrap(),
        ModuleLabel {
            developer: Some("nakati".to_string()),
            package: Some("std".to_string()),
            path: Some("io".to_string()),
            special: None
        }
    );
}

#[test]
fn developer_package_module() {
    assert_eq!(
        ModuleLabel::parse(make_spanned("@developer//package:module")).unwrap(),
        ModuleLabel {
            developer: Some("developer".to_string()),
            package: Some("package".to_string()),
            path: Some("module".to_string()),
            special: None
        }
    );
}

#[test]
fn package_module() {
    assert_eq!(
        ModuleLabel::parse(make_spanned("//package:module")).unwrap(),
        ModuleLabel {
            developer: None,
            package: Some("package".to_string()),
            path: Some("module".to_string()),
            special: None
        }
    );
}

#[test]
fn package() {
    assert_eq!(
        ModuleLabel::parse(make_spanned("//package")).unwrap(),
        ModuleLabel {
            developer: None,
            package: Some("package".to_string()),
            path: Some("package".to_string()),
            special: None
        }
    );
}

#[test]
fn module() {
    assert_eq!(
        ModuleLabel::parse(make_spanned("module")).unwrap(),
        ModuleLabel {
            developer: None,
            package: None,
            path: Some("module".to_string()),
            special: None
        }
    );

    assert_eq!(
        ModuleLabel::parse(make_spanned(":module")).unwrap(),
        ModuleLabel {
            developer: None,
            package: None,
            path: Some("module".to_string()),
            special: None
        }
    );
}

#[test]
fn developer_with_package_and_no_module() {
    assert_eq!(
        ModuleLabel::parse(make_spanned("@dev//a/b/c")).unwrap(),
        label(Some("dev"), Some("a/b/c"), Some("c"), None)
    );
}

#[test]
fn package_ending_in_slash_names_empty_module() {
    assert_eq!(
        ModuleLabel::parse(make_spanned("//a/")).unwrap(),
        label(None, Some("a/"), Some(""), None)
    );
}

#[test]
fn developer_without_package_is_invalid() {
    match ModuleLabel::parse(make_spanned("@dev")) {
        Err(InterpreterError::InvalidImport(message, _)) => {
            assert_eq!(message, "Package must be specified if developer is specified.")
        }
        other => panic!("unexpected result: {:?}", other.map(|l| l.absolute(l.clone()))),
    }
    assert!(ModuleLabel::parse(make_spanned("@dev:mod")).is_err());
}

#[test]
fn empty_developer_is_no_developer() {
    assert_eq!(
        ModuleLabel::parse(make_spanned("@//pkg:m")).unwrap(),
        label(None, Some("pkg"), Some("m"), None)
    );
}

#[test]
fn empty_label_has_no_parts() {
    assert_eq!(
        ModuleLabel::parse(make_spanned("")).unwrap(),
        label(None, None, None, None)
    );
}

#[test]
fn special_with_empty_name() {
    assert_eq!(
        ModuleLabel::parse(make_spanned("<>")).unwrap(),
        label(None, None, None, Some(""))
    );
    assert_eq!(
        ModuleLabel::parse(make_spanned("<abc")).unwrap(),
        label(None, None, Some("<abc"), None)
    );
}

#[test]
fn fill_from_takes_missing_parts_from_context() {
    let context = label(Some("dev"), Some("pkg"), Some("main"), None);
    assert_eq!(
        label(None, None, Some("io"), None).fill_from(context.clone()),
        label(Some("dev"), Some("pkg"), Some("io"), None)
    );
    assert_eq!(
        label(Some("me"), Some("mine"), None, None).fill_from(context),
        label(Some("me"), Some("mine"), Some("/"), None)
    );
}

#[test]
fn absolute_names() {
    let context = label(Some("dev"), Some("pkg"), Some("main"), None);
    assert_eq!(
        ModuleLabel::parse(make_spanned("#io")).unwrap().absolute(context.clone()),
        "@nakati//std:io"
    );
    assert_eq!(
        ModuleLabel::parse(make_spanned(":util")).unwrap().absolute(context.clone()),
        "@dev//pkg:util"
    );
    assert_eq!(ModuleLabel::from_special("builtins").absolute(context), "<builtins>");
}

#[test]
fn written_out_labels_name_themselves() {
    let context = label(Some("me"), Some("app"), Some("main"), None);
    for text in ["@kazani//tools/cli:run", "@nakati//std:io", "<builtins>", "<x//y:z>"] {
        let l = ModuleLabel::parse(make_spanned(text)).unwrap();
        assert_eq!(l.absolute(context.clone()), text);
        assert_eq!(l.absolute(label(None, None, None, None)), text);
    }
}
