use ordered_tree::builder::Language;
use ordered_tree::builder::PackageBuilder;

#[test]
fn builds_with_defaults() {
    let base64 = PackageBuilder::new("base64".to_string()).version("0.13".to_string()).build();
    assert_eq!(base64.name, "base64");
    assert_eq!(base64.version, "0.13");
    assert!(base64.authors.is_empty());
    assert!(base64.dependencies.is_empty());
    assert!(base64.language.is_none());
}

#[test]
fn builds_with_language() {
    let log = PackageBuilder::new("log".to_string())
        .version("0.4".to_string())
        .language(Language::Rust)
        .build();
    assert_eq!(log.name, "log");
    assert_eq!(log.version, "0.4");
    assert!(matches!(log.language, Some(Language::Rust)));
}

#[test]
fn builds_with_authors_and_dependencies() {
    let base64 = PackageBuilder::new("base64".to_string()).version("0.13".to_string()).build();
    let log = PackageBuilder::new("log".to_string())
        .version("0.4".to_string())
        .language(Language::Rust)
        .build();
    let serde = PackageBuilder::new("serde".to_string())
        .authors(vec!["djmitche".to_string()])
        .version("4.0".to_string())
        .dependency(base64.as_dependency())
        .dependency(log.as_dependency())
        .language(Language::Rust)
        .build();
    assert_eq!(serde.name, "serde");
    assert_eq!(serde.version, "4.0");
    assert_eq!(serde.authors, vec!["djmitche".to_string()]);
    assert_eq!(serde.dependencies.len(), 2);
    assert_eq!(serde.dependencies[0].name, "base64");
    assert_eq!(serde.dependencies[0].version_expression, "0.13");
    assert_eq!(serde.dependencies[1].name, "log");
    assert_eq!(serde.dependencies[1].version_expression, "0.4");
}
