use npmrc::text::{has_prefix, same_text, starts_with_char};
use npmrc::{Npmrc, Scope};

fn scope(name: &str, url: &str) -> Scope {
    Scope { name: name.to_string(), registry_url: url.to_string() }
}

fn config(registry: &str, scopes: Vec<Scope>) -> Npmrc {
    Npmrc {
        access: String::new(),
        loglevel: String::new(),
        progress: false,
        package_lock: false,
        registry: registry.to_string(),
        save: false,
        scopes,
        init_author_name: String::new(),
        init_author_email: String::new(),
        other: vec![],
    }
}

#[test]
fn scoped_package_gets_its_scope() {
    let c = config("https://general/", vec![scope("foo", "https://foo/")]);
    assert_eq!(c.get_registry_for_package("@foo/bar"), Some("https://foo/"));
    let c = config("", vec![scope("foo", "https://foo/")]);
    assert_eq!(c.get_registry_for_package("@foo/bar"), Some("https://foo/"));
}

#[test]
fn plain_package_gets_the_general_registry() {
    let c = config("https://general/", vec![scope("foo", "https://foo/")]);
    assert_eq!(c.get_registry_for_package("plainpkg"), Some("https://general/"));
}

#[test]
fn nothing_configured_gives_nothing() {
    let c = config("", vec![scope("foo", "https://foo/")]);
    assert_eq!(c.get_registry_for_package("plainpkg"), None);
    assert_eq!(c.get_registry_for_package("@other/pkg"), None);
    assert_eq!(c.get_registry_for_package(""), None);
}

#[test]
fn the_first_matching_scope_wins() {
    let c = config("https://general/", vec![scope("a", "https://a1/"), scope("b", "https://b/"), scope("a", "https://a2/")]);
    assert_eq!(c.get_registry_for_package("@a/x"), Some("https://a1/"));
    assert_eq!(c.get_registry_for_package("@b/x"), Some("https://b/"));
}

#[test]
fn the_scope_must_match_up_to_the_slash() {
    let c = config("https://general/", vec![scope("foo", "https://foo/")]);
    assert_eq!(c.get_registry_for_package("@foobar/x"), Some("https://general/"));
    assert_eq!(c.get_registry_for_package("@foo"), Some("https://general/"));
    assert_eq!(c.get_registry_for_package("@fo/x"), Some("https://general/"));
    assert_eq!(c.get_registry_for_package("foo/x"), Some("https://general/"));
    assert_eq!(c.get_registry_for_package("@foo/"), Some("https://foo/"));
}

#[test]
fn text_helpers() {
    assert!(has_prefix("@foo/bar", "@foo/"));
    assert!(has_prefix("abc", ""));
    assert!(has_prefix("abc", "abc"));
    assert!(!has_prefix("ab", "abc"));
    assert!(!has_prefix("abd", "abc"));
    assert!(same_text(&"save".to_string(), "save"));
    assert!(!same_text(&"save".to_string(), "saved"));
    assert!(starts_with_char("@a", '@'));
    assert!(!starts_with_char("a@", '@'));
    assert!(!starts_with_char("", '@'));
}
