use docli::commands::diff::{execute, DiffArgs};
use docli::commands::edit::{run as edit_run, EditCommand};
use docli::commands::extract::{extract_text, ExtractTextArgs};
use docli::commands::kb::{execute_get, KbGetArgs};
use docli::commands::review::{run as review_run, ReviewCommand};
use docli::commands::edit::{
    build_delete, build_find_replace, build_insert, build_replace, DeleteArgs, FindReplaceArgs, InsertArgs,
    PositionArg, ReplaceArgs, ScopeArg,
};
use docli::commands::extract::{file_name, image_entries, image_entry};
use docli::commands::kb::make_resolver;
use docli::commands::review::{build_comment, build_track_delete, build_track_insert, CommentArgs, TrackDeleteArgs, TrackInsertArgs};
use docli::commands::run::{job_syntax, JobSyntax};
use docli::commands::schema::{run as schema_run, SchemaArgs, SchemaType};
use docli::commands::validate::{default_repair_output, repair_parts, run as validate_run, ValidateArgs};
use docli::error::ErrorCode;
use docli::job::{ContentBlock, Operation, ParagraphContent, Position, Scope, Story, Target};
use docli::package::{Package, PartInventory, XmlPart};

fn target() -> Target {
    Target::Paragraph { paragraph: 2, story: Story::Body }
}

#[test]
fn replace_job_carries_target_and_text() {
    let args = ReplaceArgs { input: "a.docx".into(), output: "b.docx".into(), target: "{}".into(), content: "New".into() };
    let job = build_replace(args, Ok(target())).unwrap();
    assert_eq!(job.operations.len(), 1);
    match &job.operations[0] {
        Operation::EditReplace { target: Target::Paragraph { paragraph: 2, .. }, content } => assert_eq!(content, "New"),
        other => panic!("unexpected {other:?}"),
    }
}

#[test]
fn bad_target_error_is_passed_on() {
    let args = DeleteArgs { input: "a".into(), output: "b".into(), target: "{".into() };
    let err = build_delete(args, Err("invalid target selector JSON: eof".to_string())).unwrap_err();
    assert_eq!(err, "invalid target selector JSON: eof");
}

#[test]
fn insert_job_wraps_text_in_one_paragraph() {
    let args = InsertArgs {
        input: "a".into(),
        output: "b".into(),
        target: "{}".into(),
        position: PositionArg::After,
        content: "Hi".into(),
    };
    let job = build_insert(args, Ok(target())).unwrap();
    match &job.operations[0] {
        Operation::EditInsert { position, content, .. } => {
            assert_eq!(*position, Position::After);
            assert_eq!(content.len(), 1);
            match &content[0] {
                ContentBlock::Paragraph { paragraph: ParagraphContent::Text(t) } => assert_eq!(t, "Hi"),
                other => panic!("unexpected {other:?}"),
            }
        },
        other => panic!("unexpected {other:?}"),
    }
}

#[test]
fn find_replace_job_maps_scope() {
    let args = FindReplaceArgs { input: "a".into(), output: "b".into(), find: "x".into(), replace: "y".into(), scope: ScopeArg::First };
    let job = build_find_replace(args).unwrap();
    match &job.operations[0] {
        Operation::EditFindReplace { find, replace, scope } => {
            assert_eq!((find.as_str(), replace.as_str()), ("x", "y"));
            assert!(matches!(scope, Scope::First));
        },
        other => panic!("unexpected {other:?}"),
    }
}

#[test]
fn review_jobs() {
    let c = CommentArgs { input: "a".into(), output: "b".into(), target: "{}".into(), text: "Note".into() };
    let job = build_comment(c, Ok(target())).unwrap();
    assert!(matches!(&job.operations[0], Operation::ReviewComment { parent: None, .. }));
    let i = TrackInsertArgs {
        input: "a".into(),
        output: "b".into(),
        target: "{}".into(),
        position: docli::commands::review::PositionArg::Before,
        content: "x".into(),
    };
    let job = build_track_insert(i, Ok(target())).unwrap();
    assert!(matches!(&job.operations[0], Operation::ReviewTrackInsert { position: Position::Before, .. }));
    let d = TrackDeleteArgs { input: "a".into(), output: "b".into(), target: "{}".into() };
    assert!(build_track_delete(d, Err("bad".into())).is_err());
}

#[test]
fn image_entries_are_filtered_and_named() {
    let names: Vec<String> = vec!["word/media/image1.png", "word/document.xml", "word/media/pic.JPG", "media/x.png", "word/media/a.emf"]
        .into_iter()
        .map(String::from)
        .collect();
    let found = image_entries(&names);
    assert_eq!(
        found,
        vec![("word/media/image1.png".to_string(), "image1.png".to_string()), ("word/media/a.emf".to_string(), "a.emf".to_string())]
    );
    assert!(image_entry("word/media/x.jpeg"));
    assert!(!image_entry("word/media/x.txt"));
    assert_eq!(file_name("no_slash"), "no_slash");
}

#[test]
fn job_text_syntax_is_sniffed() {
    assert_eq!(job_syntax("  \n{\"operations\": []}"), JobSyntax::Json);
    assert_eq!(job_syntax("[1]"), JobSyntax::Json);
    assert_eq!(job_syntax("operations: []"), JobSyntax::Yaml);
    assert_eq!(job_syntax(""), JobSyntax::Yaml);
}

#[test]
fn schema_kinds() {
    let s = schema_run(&SchemaArgs { schema_type: SchemaType::Target });
    assert_eq!(s.kind, "target");
    assert!(!s.generated);
    assert!(s.schema.contains("docli selector target"));
    let s = schema_run(&SchemaArgs { schema_type: SchemaType::Envelope });
    assert_eq!(s.kind, "envelope");
}

#[test]
fn resolver_root_comes_from_flag_then_environment() {
    let r = make_resolver(&Some("/kb".to_string()), Some("/env")).unwrap();
    assert_eq!(r.kb_root(), "/kb");
    let r = make_resolver(&None, Some("/env")).unwrap();
    assert_eq!(r.kb_root(), "/env");
    let e = make_resolver(&None, None).unwrap_err();
    assert_eq!(e.code(), ErrorCode::DependencyMissing);
    assert_eq!(e.message(), "Missing dependency: DOCLI_KB_ROOT environment variable or --kb-root flag");
}

#[test]
fn default_repair_output_sits_beside_the_source() {
    assert_eq!(default_repair_output("/tmp/report.docx"), "/tmp/report.repaired.docx");
    assert_eq!(default_repair_output("report.docx"), "report.repaired.docx");
}

fn package_with(parts: &[(&str, &str)]) -> Package {
    Package {
        path: "t.docx".into(),
        source_hash: String::new(),
        inventory: PartInventory { entries: Vec::new() },
        xml_parts: parts.iter().map(|(p, x)| XmlPart { path: p.to_string(), bytes: x.as_bytes().to_vec() }).collect(),
        binary_parts: Vec::new(),
    }
}

#[test]
fn validate_reports_and_repairs() {
    let doc = r#"<w:document xmlns:w="w"><w:body><w:p><w:ins w:id="1"/><w:t> x</w:t></w:p></w:body></w:document>"#;
    let pkg = package_with(&[("word/document.xml", doc)]);
    let args = ValidateArgs { source: "in/a.docx".into(), repair: true, output: None };
    let data = validate_run(&args, &pkg);
    assert_eq!(data.output.as_deref(), Some("in/a.repaired.docx"));
    assert_eq!(data.issue_count, data.issues.len());
    assert_eq!(data.valid, data.issues.is_empty());
    assert!(data.issues.iter().any(|i| i.code == "redline-missing-author"));
    let changed = repair_parts(&pkg).unwrap();
    assert_eq!(changed.len(), 1);
    let text = String::from_utf8(changed[0].bytes.clone()).unwrap();
    assert!(text.contains("xml:space=\"preserve\""));
    let clean = package_with(&[("word/document.xml", "<w:document><w:t>x</w:t></w:document>")]);
    assert!(repair_parts(&clean).unwrap().is_empty());
    let args = ValidateArgs { source: "a.docx".into(), repair: false, output: Some("o.docx".into()) };
    assert_eq!(validate_run(&args, &clean).output, None);
}

#[test]
fn edit_run_labels_the_command_and_builds_its_job() {
    let cmd = EditCommand::Replace(ReplaceArgs { input: "in.docx".into(), output: "out.docx".into(), target: "{\"paragraph\":2}".into(), content: "x".into() });
    assert_eq!(cmd.target_text(), Some("{\"paragraph\":2}"));
    let r = edit_run(cmd, Ok(target()));
    assert_eq!((r.label.as_str(), r.input.as_str(), r.output.as_str()), ("edit.replace", "in.docx", "out.docx"));
    assert_eq!(r.job.unwrap().operations.len(), 1);
    let cmd = EditCommand::FindReplace(FindReplaceArgs { input: "a".into(), output: "b".into(), find: "x".into(), replace: "y".into(), scope: ScopeArg::All });
    assert_eq!(cmd.target_text(), None);
    let r = edit_run(cmd, Err(String::new()));
    assert_eq!(r.label, "edit.find-replace");
    assert!(r.job.is_ok());
}

#[test]
fn review_run_passes_selector_errors_on() {
    let cmd = ReviewCommand::TrackDelete(TrackDeleteArgs { input: "a".into(), output: "b".into(), target: "{".into() });
    assert_eq!(cmd.target_text(), "{");
    let r = review_run(cmd, Err("invalid target selector JSON: x".into()));
    assert_eq!(r.label, "review.track-delete");
    assert_eq!(r.job.unwrap_err(), "invalid target selector JSON: x");
}

#[test]
fn diff_execute_compares_main_parts() {
    let doc = |t: &str| format!(r#"<w:document xmlns:w="http://schemas.openxmlformats.org/wordprocessingml/2006/main"><w:body><w:p><w:r><w:t>{t}</w:t></w:r></w:p></w:body></w:document>"#);
    let a = package_with(&[("word/document.xml", &doc("one"))]);
    let b = package_with(&[("word/document.xml", &doc("two"))]);
    let args = DiffArgs { old: "a.docx".into(), new: "b.docx".into() };
    let d = execute(&args, &a, &b).unwrap();
    assert_eq!((d.diff.summary.insertions, d.diff.summary.deletions, d.diff.summary.unchanged), (1, 1, 0));
    let empty = package_with(&[]);
    let e = execute(&args, &a, &empty).unwrap_err();
    assert_eq!(e.message(), "new file missing word/document.xml");
    let e = execute(&args, &empty, &a).unwrap_err();
    assert_eq!(e.message(), "old file missing word/document.xml");
}

#[test]
fn extract_text_joins_paragraphs() {
    let doc = r#"<w:document xmlns:w="http://schemas.openxmlformats.org/wordprocessingml/2006/main"><w:body><w:p><w:r><w:t>one</w:t></w:r></w:p><w:p><w:r><w:t>two</w:t></w:r></w:p></w:body></w:document>"#;
    let d = extract_text(&ExtractTextArgs { input: "a.docx".into() }, &package_with(&[("word/document.xml", doc)])).unwrap();
    assert_eq!(d.text, "one\ntwo");
    assert_eq!(d.source, "a.docx");
}

#[test]
fn kb_get_needs_a_root_and_a_kb_reference() {
    let args = KbGetArgs { uri: "kb://x/y.yaml".into(), kb_root: None };
    assert_eq!(execute_get(&args, None).unwrap_err().code(), ErrorCode::DependencyMissing);
    let args = KbGetArgs { uri: "file:///x".into(), kb_root: Some("/kb".into()) };
    assert_eq!(execute_get(&args, None).unwrap_err().code(), ErrorCode::RefNotFound);
}
