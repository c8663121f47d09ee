use npmrc::{decode_lines, load, parse, DecodeError, Error, HomeFile, Line, Npmrc, Scope};

fn value(key: &str, value: &str) -> Line {
    Line::Value(key.to_string(), value.to_string())
}

fn pair(key: &str, value: &str) -> (String, String) {
    (key.to_string(), value.to_string())
}

const SAMPLE: &str =
    "registry=https://registry.npmjs.org/\n@acme:registry=https://acme.example/\nsave=true\nprogress=false";

#[test]
fn sample_file_decodes() {
    let config = parse(SAMPLE).unwrap();
    assert_eq!(config.registry, "https://registry.npmjs.org/");
    assert!(config.save);
    assert!(!config.progress);
    assert_eq!(
        config.scopes,
        vec![Scope { name: "acme".to_string(), registry_url: "https://acme.example/".to_string() }]
    );
    assert_eq!(config.other, vec![pair("@acme:registry", "https://acme.example/")]);
    assert_eq!(config.access, "");
    assert_eq!(config.loglevel, "");
    assert!(!config.package_lock);
    assert_eq!(config.init_author_name, "");
    assert_eq!(config.init_author_email, "");
}

#[test]
fn sample_file_scoped_package() {
    let config = parse(SAMPLE).unwrap();
    assert_eq!(config.get_registry_for_package("@acme/widget"), Some("https://acme.example/"));
}

#[test]
fn sample_file_plain_package() {
    let config = parse(SAMPLE).unwrap();
    assert_eq!(config.get_registry_for_package("lodash"), Some("https://registry.npmjs.org/"));
}

#[test]
fn empty_file_gives_defaults() {
    let config = parse("").unwrap();
    assert_eq!(
        config,
        Npmrc {
            access: String::new(),
            loglevel: String::new(),
            progress: false,
            package_lock: false,
            registry: String::new(),
            save: false,
            scopes: vec![],
            init_author_name: String::new(),
            init_author_email: String::new(),
            other: vec![],
        }
    );
    assert_eq!(config.get_registry_for_package("anything"), None);
}

#[test]
fn save_must_be_a_boolean() {
    assert_eq!(parse("save=notabool"), Err(DecodeError::Boolean));
}

#[test]
fn every_known_key_fills_its_field() {
    let text = "access=public\nloglevel=warn\nregistry=https://r.example/\nsave=true\nprogress=true\n\
                package-lock=false\ninit-author-name=Ada\ninit-author-email=ada@example.org\n";
    let config = parse(text).unwrap();
    assert_eq!(config.access, "public");
    assert_eq!(config.loglevel, "warn");
    assert_eq!(config.registry, "https://r.example/");
    assert!(config.save);
    assert!(config.progress);
    assert!(!config.package_lock);
    assert_eq!(config.init_author_name, "Ada");
    assert_eq!(config.init_author_email, "ada@example.org");
    assert!(config.scopes.is_empty());
    assert!(config.other.is_empty());
}

#[test]
fn booleans_are_true_or_false_only() {
    assert!(parse("progress=true").unwrap().progress);
    assert!(!parse("progress=false").unwrap().progress);
    assert!(parse("package-lock=true").unwrap().package_lock);
    assert!(!parse("package-lock=false").unwrap().package_lock);
    assert_eq!(parse("progress=True"), Err(DecodeError::Boolean));
    assert_eq!(parse("package-lock=1"), Err(DecodeError::Boolean));
    assert_eq!(parse("save="), Err(DecodeError::Boolean));
}

#[test]
fn keys_and_values_are_trimmed() {
    let config = parse("  registry =  https://r.example/  \n save = true ").unwrap();
    assert_eq!(config.registry, "https://r.example/");
    assert!(config.save);
}

#[test]
fn comments_and_blank_lines_are_skipped() {
    let config = parse("; a comment\n# another\n\nregistry=https://r.example/\n\n").unwrap();
    assert_eq!(config.registry, "https://r.example/");
    assert!(config.other.is_empty());
}

#[test]
fn a_line_without_equals_is_a_syntax_error() {
    assert_eq!(parse("registry"), Err(DecodeError::Syntax));
    assert_eq!(parse("save=true\nnonsense\nprogress=maybe"), Err(DecodeError::Syntax));
    assert_eq!(parse("[open"), Err(DecodeError::Syntax));
}

#[test]
fn a_section_is_refused() {
    assert_eq!(parse("[section]\nkey=value"), Err(DecodeError::Section));
}

#[test]
fn the_key_scopes_is_reserved() {
    assert_eq!(parse("scopes=acme"), Err(DecodeError::Reserved));
}

#[test]
fn a_known_key_stated_twice_is_refused() {
    assert_eq!(parse("registry=a\nregistry=b"), Err(DecodeError::Duplicate));
    assert_eq!(parse("save=true\nsave=nonsense"), Err(DecodeError::Duplicate));
}

#[test]
fn the_first_fault_decides() {
    assert_eq!(parse("save=maybe\n[section]"), Err(DecodeError::Boolean));
    assert_eq!(parse("[section]\nsave=maybe"), Err(DecodeError::Section));
}

#[test]
fn unknown_keys_go_to_other() {
    let config = parse("email=ada@example.org\nregistry=r\ncolor=always\n").unwrap();
    assert_eq!(config.other, vec![pair("email", "ada@example.org"), pair("color", "always")]);
    assert!(config.scopes.is_empty());
    assert_eq!(config.registry, "r");
}

#[test]
fn an_unknown_key_stated_twice_keeps_its_place_and_last_value() {
    let config = parse("a=1\nb=2\na=3\n").unwrap();
    assert_eq!(config.other, vec![pair("a", "3"), pair("b", "2")]);
}

#[test]
fn scopes_follow_the_order_of_other() {
    let config = parse("@b:registry=https://b/\ncolor=always\n@a:registry=https://a/\n@b:registry=https://b2/").unwrap();
    assert_eq!(
        config.scopes,
        vec![
            Scope { name: "b".to_string(), registry_url: "https://b2/".to_string() },
            Scope { name: "a".to_string(), registry_url: "https://a/".to_string() },
        ]
    );
    assert_eq!(
        config.other,
        vec![pair("@b:registry", "https://b2/"), pair("color", "always"), pair("@a:registry", "https://a/")]
    );
}

#[test]
fn scope_name_ends_at_the_first_colon() {
    let config = parse("@acme:registry:extra=u\n@bare=v\n@=w").unwrap();
    assert_eq!(
        config.scopes,
        vec![
            Scope { name: "acme".to_string(), registry_url: "u".to_string() },
            Scope { name: "bare".to_string(), registry_url: "v".to_string() },
            Scope { name: String::new(), registry_url: "w".to_string() },
        ]
    );
}

#[test]
fn scope_names_may_hold_other_scripts() {
    let config = parse("@caf\u{e9}:registry=https://cafe.example/").unwrap();
    assert_eq!(config.scopes[0].name, "caf\u{e9}");
    assert_eq!(config.get_registry_for_package("@caf\u{e9}/cup"), Some("https://cafe.example/"));
}

#[test]
fn decode_lines_on_given_lines() {
    let lines = vec![
        Line::Comment("; npm".to_string()),
        value("registry", "https://r.example/"),
        Line::Empty,
        value("@acme:registry", "https://acme.example/"),
        value("save", "true"),
    ];
    let config = decode_lines(&lines).unwrap();
    assert_eq!(config.registry, "https://r.example/");
    assert!(config.save);
    assert_eq!(config.scopes.len(), 1);
    assert_eq!(config.scopes[0].name, "acme");
    assert_eq!(config.scopes[0].registry_url, "https://acme.example/");
}

#[test]
fn decode_lines_reports_each_fault() {
    assert_eq!(decode_lines(&vec![Line::Malformed]), Err(DecodeError::Syntax));
    assert_eq!(decode_lines(&vec![Line::Section("s".to_string())]), Err(DecodeError::Section));
    assert_eq!(decode_lines(&vec![value("scopes", "")]), Err(DecodeError::Reserved));
    assert_eq!(decode_lines(&vec![value("access", "a"), value("access", "a")]), Err(DecodeError::Duplicate));
    assert_eq!(decode_lines(&vec![value("progress", "yes")]), Err(DecodeError::Boolean));
}

#[test]
fn load_without_home() {
    assert_eq!(load(HomeFile::NoHome), Err(Error::HomeDirectoryNotFound));
}

#[test]
fn load_unreadable_file() {
    assert_eq!(
        load(HomeFile::Unreadable("permission denied".to_string())),
        Err(Error::Io("permission denied".to_string()))
    );
}

#[test]
fn load_contents() {
    let config = load(HomeFile::Contents(SAMPLE.to_string())).unwrap();
    assert_eq!(config.registry, "https://registry.npmjs.org/");
    assert_eq!(load(HomeFile::Contents("save=notabool".to_string())), Err(Error::Decode(DecodeError::Boolean)));
}

#[test]
fn a_file_of_comments_gives_defaults() {
    let config = parse("# nothing here\n\n; nor here\n").unwrap();
    assert_eq!(config, parse("").unwrap());
    assert_eq!(config.registry, "");
    assert!(!config.save && !config.progress && !config.package_lock);
    assert!(config.scopes.is_empty() && config.other.is_empty());
}

#[test]
fn a_scope_wins_over_the_general_registry() {
    let config = parse("@foo:registry=https://foo.example/\nregistry=https://general.example/").unwrap();
    assert_eq!(config.get_registry_for_package("@foo/bar"), Some("https://foo.example/"));
    assert_eq!(config.get_registry_for_package("plainpkg"), Some("https://general.example/"));
    let config = parse("@foo:registry=https://foo.example/").unwrap();
    assert_eq!(config.get_registry_for_package("@foo/bar"), Some("https://foo.example/"));
    assert_eq!(config.get_registry_for_package("plainpkg"), None);
}
