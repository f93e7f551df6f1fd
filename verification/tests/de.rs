use stager::action::Action;
use stager::de::{abs_to_rel, Directory, MapStage, Source, SourceFile, SourceFiles, Symlink};
use stager::error::{ErrorKind, StagingError};
use stager::template::{OneOrMany, Template, TemplateEngine};

fn s(x: &str) -> String {
    x.to_string()
}

fn engine_with(vars: &[(&str, &str)]) -> TemplateEngine {
    let pairs: Vec<(String, String)> = vars.iter().map(|(k, v)| (s(k), s(v))).collect();
    TemplateEngine::new(&pairs)
}

#[test]
fn render_passes_plain_text_through() {
    let engine = engine_with(&[]);
    let r = Template::new(s("/bin")).format(&engine).unwrap();
    assert_eq!(r, "/bin");
}

#[test]
fn render_substitutes_context_variables() {
    let engine = engine_with(&[("version", "1.0")]);
    let r = Template::new(s("/opt/tool-{{version}}")).format(&engine).unwrap();
    assert_eq!(r, "/opt/tool-1.0");
}

#[test]
fn render_fails_on_invalid_template() {
    let engine = engine_with(&[]);
    let e = Template::new(s("/opt/{{")).format(&engine).unwrap_err();
    assert_eq!(e.kind(), ErrorKind::InvalidConfiguration);
    assert!(e.message().contains("Failed to render template"));
}

#[test]
fn one_or_many_renders_each_value() {
    let engine = engine_with(&[("v", "2")]);
    let one = OneOrMany::One(Template::new(s("a-{{v}}")));
    assert_eq!(one.format(&engine).unwrap(), vec![s("a-2")]);
    let many = OneOrMany::Many(vec![Template::new(s("x")), Template::new(s("y-{{v}}"))]);
    assert_eq!(many.format(&engine).unwrap(), vec![s("x"), s("y-2")]);
}

#[test]
fn map_stage_formats_and_builds_one_copy() {
    let engine = engine_with(&[]);
    let stage = MapStage::new(vec![(
        Template::new(s("/bin")),
        vec![Source::SourceFile(SourceFile {
            path: Template::new(s("/abs/tool")),
            rename: None,
            symlink: None,
        })],
    )]);
    let built = stage.format(&engine).unwrap();
    let acts = built.build("/R").unwrap();
    assert_eq!(acts.len(), 1);
    match &acts[0] {
        Action::CopyFile(c) => {
            assert_eq!(c.staged, "/R/bin/tool");
            assert_eq!(c.source, "/abs/tool");
        },
        other => panic!("expected a copy, got {:?}", other),
    }
}

#[test]
fn map_stage_renders_templated_targets_and_sources() {
    let engine = engine_with(&[("version", "1.0"), ("prefix", "opt")]);
    let stage = MapStage::new(vec![(
        Template::new(s("/{{prefix}}/bin")),
        vec![Source::SourceFile(SourceFile {
            path: Template::new(s("/abs/tool-{{version}}")),
            rename: Some(Template::new(s("tool"))),
            symlink: None,
        })],
    )]);
    let built = stage.format(&engine).unwrap();
    let acts = built.build("/R").unwrap();
    match &acts[0] {
        Action::CopyFile(c) => {
            assert_eq!(c.staged, "/R/opt/bin/tool");
            assert_eq!(c.source, "/abs/tool-1.0");
        },
        other => panic!("expected a copy, got {:?}", other),
    }
}

#[test]
fn map_stage_symlink_source_stages_one_link() {
    let engine = engine_with(&[]);
    let stage = MapStage::new(vec![(
        Template::new(s("/bin")),
        vec![Source::Symlink(Symlink { target: Template::new(s("/abs/tool")), rename: None })],
    )]);
    let acts = stage.format(&engine).unwrap().build("/R").unwrap();
    assert_eq!(acts.len(), 1);
    match &acts[0] {
        Action::Symlink(l) => {
            assert_eq!(l.staged, "/R/bin/tool");
            assert_eq!(l.target, "/abs/tool");
        },
        other => panic!("expected a symlink, got {:?}", other),
    }
}

#[test]
fn map_stage_directory_source_creates_the_target() {
    let engine = engine_with(&[]);
    let stage = MapStage::new(vec![(
        Template::new(s("/var/empty")),
        vec![Source::Directory(Directory {})],
    )]);
    let acts = stage.format(&engine).unwrap().build("/R").unwrap();
    assert_eq!(acts.len(), 1);
    match &acts[0] {
        Action::CreateDirectory(d) => assert_eq!(d.staged, "/R/var/empty"),
        other => panic!("expected a mkdir, got {:?}", other),
    }
}

#[test]
fn map_stage_rejects_relative_target_keys() {
    let engine = engine_with(&[]);
    let stage = MapStage::new(vec![(
        Template::new(s("bin")),
        vec![Source::Symlink(Symlink { target: Template::new(s("/abs/tool")), rename: None })],
    )]);
    let errs = stage.format(&engine).unwrap_err().into_vec();
    assert_eq!(errs.len(), 1);
    assert_eq!(errs[0].kind(), ErrorKind::InvalidConfiguration);
    assert!(errs[0].message().contains("not absolute"));
}

#[test]
fn map_stage_reports_every_failing_target_together() {
    let engine = engine_with(&[]);
    let bad_file = |p: &str| {
        Source::SourceFile(SourceFile { path: Template::new(s(p)), rename: None, symlink: None })
    };
    let stage = MapStage::new(vec![
        (Template::new(s("/bin")), vec![bad_file("/ok/one"), bad_file("{{undefined")]),
        (Template::new(s("/lib")), vec![bad_file("{{also-bad")]),
    ]);
    let errs = stage.format(&engine).unwrap_err().into_vec();
    assert_eq!(errs.len(), 2);
    assert!(errs[0].message().contains("{{undefined"));
    assert!(errs[1].message().contains("{{also-bad"));
}

#[test]
fn map_stage_formats_glob_sources() {
    let engine = engine_with(&[("root", "/data")]);
    let stage = MapStage::new(vec![(
        Template::new(s("/docs")),
        vec![Source::SourceFiles(SourceFiles {
            path: Template::new(s("{{root}}")),
            pattern: OneOrMany::One(Template::new(s("*.txt"))),
            follow_links: false,
            allow_empty: true,
        })],
    )]);
    assert!(stage.format(&engine).is_ok());
}

#[test]
fn staging_error_carries_its_kind() {
    let e = StagingError::new(ErrorKind::StagingFailed);
    assert_eq!(e.kind(), ErrorKind::StagingFailed);
    assert!(e.message().contains("Staging failed."));
    let e = StagingError::new(ErrorKind::HarvestingFailed);
    assert!(e.message().contains("Preparing to stage failed."));
}

#[test]
fn abs_to_rel_is_reachable_through_the_model_module() {
    assert_eq!(abs_to_rel("/a/b").unwrap(), "a/b");
}
