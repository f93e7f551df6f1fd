use stager::action::{previews, Action};
use stager::builder::{Directory, Source, SourceFile, SourceFiles, Stage, Symlink, WalkEntry};
use stager::error::ErrorKind;

fn s(x: &str) -> String {
    x.to_string()
}

#[test]
fn source_file_defaults_copy_name_to_basename() {
    let acts = SourceFile::new(s("/abs/tool")).build("/stage/bin").unwrap();
    assert_eq!(acts.len(), 1);
    match &acts[0] {
        Action::CopyFile(c) => {
            assert_eq!(c.staged, "/stage/bin/tool");
            assert_eq!(c.source, "/abs/tool");
        },
        other => panic!("expected a copy, got {:?}", other),
    }
}

#[test]
fn source_file_rename_with_separator_fails() {
    let r = SourceFile::new(s("/abs/tool"))
        .rename(Some(s("bin/tool")))
        .build("/stage/bin");
    let errs = r.unwrap_err().into_vec();
    assert_eq!(errs.len(), 1);
    assert_eq!(errs[0].kind(), ErrorKind::InvalidConfiguration);
    assert!(errs[0].message().contains("rename must not change directories"));
}

#[test]
fn source_file_rename_sets_copy_name() {
    let acts = SourceFile::new(s("/abs/tool"))
        .rename(Some(s("tool-1.0")))
        .build("/stage/bin")
        .unwrap();
    match &acts[0] {
        Action::CopyFile(c) => assert_eq!(c.staged, "/stage/bin/tool-1.0"),
        other => panic!("expected a copy, got {:?}", other),
    }
}

#[test]
fn source_file_relative_path_fails() {
    let errs = SourceFile::new(s("abs/tool")).build("/stage/bin").unwrap_err().into_vec();
    assert_eq!(errs.len(), 1);
    assert_eq!(errs[0].kind(), ErrorKind::HarvestingFailed);
    assert!(errs[0].message().contains("must be absolute"));
}

#[test]
fn source_file_aliases_point_at_the_copy() {
    let acts = SourceFile::new(s("/abs/tool-1.0"))
        .push_symlinks(vec![s("tool"), s("t")])
        .build("/stage/bin")
        .unwrap();
    assert_eq!(acts.len(), 3);
    match &acts[1] {
        Action::Symlink(l) => {
            assert_eq!(l.staged, "/stage/bin/tool");
            assert_eq!(l.target, "/stage/bin/tool-1.0");
        },
        other => panic!("expected a symlink, got {:?}", other),
    }
    match &acts[2] {
        Action::Symlink(l) => assert_eq!(l.staged, "/stage/bin/t"),
        other => panic!("expected a symlink, got {:?}", other),
    }
}

#[test]
fn source_file_alias_with_separator_fails() {
    let errs = SourceFile::new(s("/abs/tool"))
        .push_symlinks(vec![s("../escape")])
        .build("/stage/bin")
        .unwrap_err()
        .into_vec();
    assert_eq!(errs.len(), 1);
    assert_eq!(errs[0].kind(), ErrorKind::InvalidConfiguration);
}

#[test]
fn symlink_defaults_link_name_to_target_basename() {
    let acts = Symlink::new(s("/abs/tool")).build("/R/bin").unwrap();
    assert_eq!(acts.len(), 1);
    match &acts[0] {
        Action::Symlink(l) => {
            assert_eq!(l.staged, "/R/bin/tool");
            assert_eq!(l.target, "/abs/tool");
        },
        other => panic!("expected a symlink, got {:?}", other),
    }
}

#[test]
fn symlink_rename_with_separator_fails() {
    let errs = Symlink::new(s("/abs/tool"))
        .rename(Some(s("a/b")))
        .build("/R/bin")
        .unwrap_err()
        .into_vec();
    assert_eq!(errs.len(), 1);
    assert_eq!(errs[0].kind(), ErrorKind::InvalidConfiguration);
}

#[test]
fn directory_creates_the_target() {
    let acts = Directory::new().build("/R/opt").unwrap();
    assert_eq!(acts.len(), 1);
    match &acts[0] {
        Action::CreateDirectory(d) => assert_eq!(d.staged, "/R/opt"),
        other => panic!("expected a mkdir, got {:?}", other),
    }
}

#[test]
fn source_files_empty_match_fails_unless_allowed() {
    let src = SourceFiles::new(s("/data"));
    let errs = src.build_from_entries("/R/docs", vec![]).unwrap_err().into_vec();
    assert_eq!(errs.len(), 1);
    assert_eq!(errs[0].kind(), ErrorKind::HarvestingFailed);
    assert!(errs[0].message().contains("No files found"));

    let src = SourceFiles::new(s("/data")).allow_empty(true);
    let acts = src.build_from_entries("/R/docs", vec![]).unwrap();
    assert!(acts.is_empty());
}

#[test]
fn source_files_copies_each_file_relative_to_the_root() {
    let src = SourceFiles::new(s("/data"));
    let entries = vec![
        WalkEntry::Found(s("/data"), true),
        WalkEntry::Found(s("/data/a.txt"), false),
        WalkEntry::Found(s("/data/sub"), true),
        WalkEntry::Found(s("/data/sub/b.txt"), false),
    ];
    let acts = src.build_from_entries("/R/docs", entries).unwrap();
    assert_eq!(acts.len(), 2);
    match &acts[0] {
        Action::CopyFile(c) => {
            assert_eq!(c.staged, "/R/docs/a.txt");
            assert_eq!(c.source, "/data/a.txt");
        },
        other => panic!("expected a copy, got {:?}", other),
    }
    match &acts[1] {
        Action::CopyFile(c) => assert_eq!(c.staged, "/R/docs/sub/b.txt"),
        other => panic!("expected a copy, got {:?}", other),
    }
}

#[test]
fn source_files_reports_unreadable_entries() {
    let src = SourceFiles::new(s("/data"));
    let entries = vec![
        WalkEntry::Found(s("/data/a.txt"), false),
        WalkEntry::Failed(s("permission denied")),
    ];
    let errs = src.build_from_entries("/R/docs", entries).unwrap_err().into_vec();
    assert_eq!(errs.len(), 1);
    assert_eq!(errs[0].kind(), ErrorKind::HarvestingFailed);
    assert!(errs[0].message().contains("permission denied"));
}

#[test]
fn source_files_relative_root_fails_before_walking() {
    let errs = SourceFiles::new(s("data")).build("/R/docs").unwrap_err().into_vec();
    assert_eq!(errs.len(), 1);
    assert_eq!(errs[0].kind(), ErrorKind::HarvestingFailed);
}

#[test]
fn stage_builds_one_copy_under_its_target() {
    let stage = Stage::new(vec![(
        s("bin"),
        vec![Source::SourceFile(SourceFile::new(s("/abs/tool")))],
    )]);
    let acts = stage.build("/R").unwrap();
    assert_eq!(acts.len(), 1);
    match &acts[0] {
        Action::CopyFile(c) => {
            assert_eq!(c.staged, "/R/bin/tool");
            assert_eq!(c.source, "/abs/tool");
        },
        other => panic!("expected a copy, got {:?}", other),
    }
}

#[test]
fn stage_rejects_absolute_target_keys() {
    let stage = Stage::new(vec![(
        s("/bin"),
        vec![Source::SourceFile(SourceFile::new(s("/abs/tool")))],
    )]);
    let errs = stage.build("/R").unwrap_err().into_vec();
    assert_eq!(errs.len(), 1);
    assert!(errs[0].message().contains("relative to the stage root"));
}

#[test]
fn stage_reports_both_invalid_sources_under_two_targets() {
    let stage = Stage::new(vec![
        (s("bin"), vec![Source::SourceFile(SourceFile::new(s("not-absolute")))]),
        (s("lib"), vec![Source::SourceFile(SourceFile::new(s("also-relative")))]),
    ]);
    let errs = stage.build("/R").unwrap_err().into_vec();
    assert_eq!(errs.len(), 2);
    assert!(errs[0].message().contains("not-absolute"));
    assert!(errs[1].message().contains("also-relative"));
}

#[test]
fn stage_keeps_source_and_target_order() {
    let stage = Stage::new(vec![
        (
            s("bin"),
            vec![
                Source::Directory(Directory::new()),
                Source::SourceFile(SourceFile::new(s("/abs/tool"))),
            ],
        ),
        (s("doc"), vec![Source::Symlink(Symlink::new(s("/abs/README")))]),
    ]);
    let acts = stage.build("/R").unwrap();
    let lines: Vec<String> = previews(&acts).into_iter().collect();
    assert_eq!(
        lines,
        vec![
            "mkdir /R/bin".to_string(),
            "cp /abs/tool /R/bin/tool".to_string(),
            "ln -s /abs/README /R/doc/README".to_string(),
        ]
    );
}

#[test]
fn previews_are_one_line_per_action_in_order() {
    let stage = Stage::new(vec![(
        s("bin"),
        vec![Source::SourceFile(SourceFile::new(s("/abs/tool")))],
    )]);
    let acts = stage.build("/R").unwrap();
    let first = previews(&acts);
    let second = previews(&acts);
    assert_eq!(first.len(), acts.len());
    assert_eq!(first, second);
    assert_eq!(first[0], acts[0].preview());
}
