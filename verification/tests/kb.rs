use docli::error::ErrorCode;
use docli::kb::{category_entries, join, render_template_on, split_front_matter, yaml_failure, KbEntry, KbResolver};

#[test]
fn front_matter_is_split_from_the_body() {
    let (front, body) = split_front_matter("---\ntitle: Example Rule\nseverity: warning\n---\nRule body").unwrap();
    assert_eq!(front, "title: Example Rule\nseverity: warning");
    assert_eq!(body, "Rule body");
}

#[test]
fn written_front_matter_reads_back() {
    let front = "title: x";
    let body = "line one\n---\nline two";
    let content = format!("---\n{front}\n---\n{body}");
    assert_eq!(split_front_matter(&content), Some((front.to_string(), body.to_string())));
}

#[test]
fn missing_front_matter_is_none() {
    assert_eq!(split_front_matter("title: x\nbody"), None);
    assert_eq!(split_front_matter("---\ntitle: x\nno end"), None);
}

#[test]
fn kb_references_map_under_the_templates_directory() {
    let r = KbResolver::new("/kb");
    assert_eq!(r.candidate_path("kb://sections/intro.yaml").unwrap(), "/kb/templates/docli/sections/intro.yaml");
    let e = r.candidate_path("http://x").unwrap_err();
    assert_eq!(e.code(), ErrorCode::RefNotFound);
    assert_eq!(e.message(), "Reference not found: http://x");
}

#[test]
fn resolve_missing_reference_is_not_found() {
    let r = KbResolver::new("/nonexistent-root-for-tests");
    let e = r.resolve("kb://cat/none.yaml").unwrap_err();
    assert_eq!(e.code(), ErrorCode::RefNotFound);
}

#[test]
fn environment_root_defaults_under_home() {
    assert_eq!(KbResolver::from_vars(Some("/kb"), Some("/home/u")).kb_root(), "/kb");
    assert_eq!(KbResolver::from_vars(None, Some("/home/u")).kb_root(), "/home/u/.config/docli/kb");
    assert_eq!(KbResolver::from_vars(None, None).kb_root(), "/tmp/.config/docli/kb");
}

#[test]
fn paths_join_with_one_separator() {
    assert_eq!(join("a", "b"), "a/b");
    assert_eq!(join("a/", "b"), "a/b");
    assert_eq!(join("", "b"), "b");
    assert_eq!(join("a", "/b"), "/b");
}

#[test]
fn broken_yaml_is_recorded_with_its_reference() {
    assert_eq!(yaml_failure("cat/a.yaml", "key: value\n"), None);
    let (uri, message) = yaml_failure("cat/b.yaml", "key: [unclosed").unwrap();
    assert_eq!(uri, "kb://cat/b.yaml");
    assert!(!message.is_empty());
}

#[test]
fn a_given_date_wins_on_any_day() {
    let vars = vec![("date".to_string(), "\"1999-01-01\"".to_string())];
    let a = render_template_on("{{ date }}", &vars, "2020-01-01").unwrap();
    let b = render_template_on("{{ date }}", &vars, "2030-12-31").unwrap();
    assert_eq!(a, "1999-01-01");
    assert_eq!(a, b);
}

#[test]
fn category_entries_are_sorted_file_stems() {
    let entry = |is_file: bool, stem: Option<&str>| KbEntry { is_file, stem: stem.map(|s| s.to_string()) };
    let entries = vec![
        entry(true, Some("gamma")),
        entry(false, Some("subdir")),
        entry(true, Some("alpha")),
        entry(true, None),
        entry(true, Some("beta")),
    ];
    assert_eq!(category_entries(&entries), vec!["alpha", "beta", "gamma"]);
}
