use phi::skill_catalog::{DiagnosticLevel, SkillCatalogBuilder, SkillError};
use phi::skill_config::{SkillDirectory, SkillsConfig};
use phi::skill_discovery::{is_within, parent_dir, EntryAction, EntryFacts, ProbeError, RootFacts};
use phi::turn_loop::{new_run, next_turn, RunAction, RunEvent, RunPhase};

fn config() -> SkillsConfig {
    let mut config = SkillsConfig::default();
    config.enabled = true;
    config
}

fn directory(path: &str, required: bool) -> SkillDirectory {
    SkillDirectory {
        path: path.to_owned(),
        required,
        source: None,
    }
}

fn root_found(canonical: &str) -> RootFacts {
    RootFacts {
        link: Ok(false),
        is_dir: Ok(true),
        canonical: Ok(canonical.to_owned()),
    }
}

fn skill_entry(name: &str, canonical: &str, size: u64) -> EntryFacts {
    EntryFacts {
        path: format!("/skills/{name}"),
        file_type: Ok((false, true)),
        target_is_dir: false,
        name: Some(name.to_owned()),
        skill_path: format!("/skills/{name}/SKILL.md"),
        skill_link: Ok(false),
        skill_meta: Ok((true, size)),
        skill_canonical: Ok(canonical.to_owned()),
    }
}

#[test]
fn roots_are_scanned_once_and_missing_optional_roots_are_skipped() {
    let config = config();
    let mut builder = SkillCatalogBuilder::new();
    let missing = RootFacts {
        link: Err(ProbeError { not_found: true, message: "gone".to_owned() }),
        is_dir: Err("gone".to_owned()),
        canonical: Err("gone".to_owned()),
    };
    assert_eq!(builder.root_step(&config, &directory("/a", false), missing).unwrap(), None);
    assert_eq!(
        builder.root_step(&config, &directory("/a", false), root_found("/real")).unwrap(),
        Some("/real".to_owned())
    );
    assert_eq!(builder.root_step(&config, &directory("/b", false), root_found("/real")).unwrap(), None);
    let catalog = builder.finish_for(&config);
    assert_eq!(catalog.diagnostics().len(), 1);
    assert_eq!(catalog.diagnostics()[0].code, "duplicate_directory");
}

#[test]
fn a_missing_required_root_fails() {
    let mut builder = SkillCatalogBuilder::new();
    let missing = RootFacts {
        link: Err(ProbeError { not_found: true, message: "No such file".to_owned() }),
        is_dir: Ok(false),
        canonical: Ok(String::new()),
    };
    match builder.root_step(&config(), &directory("/req", true), missing) {
        Err(SkillError::Load { path, message }) => {
            assert_eq!(path, "/req");
            assert_eq!(message, "skill directory is unavailable: No such file");
        }
        _ => panic!("expected a load failure"),
    }
}

#[test]
fn entries_are_decided_before_they_are_read() {
    let config = config();
    let mut builder = SkillCatalogBuilder::new();
    match builder.entry_step(&config, "/skills", skill_entry("alpha", "/skills/alpha/SKILL.md", 10)).unwrap() {
        EntryAction::Read { name, canonical, .. } => {
            assert_eq!(name, "alpha");
            assert_eq!(canonical, "/skills/alpha/SKILL.md");
        }
        EntryAction::Skip => panic!("expected a read"),
    }
    let outside = skill_entry("beta", "/elsewhere/SKILL.md", 10);
    assert!(matches!(builder.entry_step(&config, "/skills", outside).unwrap(), EntryAction::Skip));
    let large = skill_entry("gamma", "/skills/gamma/SKILL.md", u64::MAX);
    assert!(matches!(builder.entry_step(&config, "/skills", large).unwrap(), EntryAction::Skip));
    let mut file = skill_entry("delta", "/skills/delta/SKILL.md", 10);
    file.file_type = Ok((false, false));
    assert!(matches!(builder.entry_step(&config, "/skills", file).unwrap(), EntryAction::Skip));
    let catalog = builder.finish_for(&config);
    let codes: Vec<&str> = catalog.diagnostics().iter().map(|d| d.code.as_str()).collect();
    assert_eq!(codes, vec!["skill_outside_root", "skill_too_large"]);
    assert_eq!(catalog.diagnostics()[0].level, DiagnosticLevel::Error);
}

#[test]
fn skill_files_are_checked_parsed_and_added() {
    let config = config();
    let mut builder = SkillCatalogBuilder::new();
    let dir = directory("/skills", false);
    builder
        .load_skill_file(&config, &dir, "alpha", "/skills/alpha/SKILL.md", "/skills/alpha/SKILL.md", Ok(vec![0xff, 0xfe]))
        .unwrap();
    builder
        .load_skill_file(
            &config,
            &dir,
            "alpha",
            "/skills/alpha/SKILL.md",
            "/skills/alpha/SKILL.md",
            Ok(b"---\nname: alpha\ndescription: Does alpha things\n---\nBody".to_vec()),
        )
        .unwrap();
    builder
        .load_skill_file(&config, &dir, "beta", "/skills/beta/SKILL.md", "/skills/beta/SKILL.md", Err("denied".to_owned()))
        .unwrap();
    let catalog = builder.finish_for(&config);
    assert_eq!(catalog.skills().len(), 1);
    assert_eq!(catalog.skills()[0].name, "alpha");
    let codes: Vec<&str> = catalog.diagnostics().iter().map(|d| d.code.as_str()).collect();
    assert_eq!(codes, vec!["invalid_utf8", "read_skill_failed"]);
    assert_eq!(catalog.diagnostics()[1].message, "could not read skill file: denied");
}

#[test]
fn disabled_discovery_yields_an_empty_catalog() {
    let mut config = config();
    config.enabled = false;
    let mut builder = SkillCatalogBuilder::new();
    builder.root_step(&config, &directory("/a", false), root_found("/a")).unwrap();
    let catalog = builder.finish_for(&config);
    assert!(catalog.is_empty());
    assert!(catalog.diagnostics().is_empty());
}

#[test]
fn paths_are_compared_by_component() {
    assert!(is_within("/a/b/SKILL.md", "/a/b"));
    assert!(!is_within("/a/bc/SKILL.md", "/a/b"));
    assert!(is_within("/x", "/"));
    assert_eq!(parent_dir("/a/b/SKILL.md"), "/a/b");
    assert_eq!(parent_dir("/SKILL.md"), "/");
}

#[test]
fn the_turn_loop_runs_tools_then_completes() {
    let (state, action) = next_turn(new_run(), RunEvent::Proceed);
    assert_eq!(action, RunAction::SavePrompt);
    let (state, action) = next_turn(state, RunEvent::Proceed);
    assert_eq!(action, RunAction::StartTurn { turn: 1 });
    let (state, action) = next_turn(state, RunEvent::Responded { has_tool_calls: true });
    assert_eq!(action, RunAction::JournalTools);
    let (state, action) = next_turn(state, RunEvent::Proceed);
    assert_eq!(action, RunAction::ExecuteTools);
    let (state, action) = next_turn(state, RunEvent::ToolsFinished { stopped: false });
    assert_eq!(action, RunAction::RecordToolResults);
    let (state, action) = next_turn(state, RunEvent::Proceed);
    assert_eq!(action, RunAction::EndTurn);
    let (state, action) = next_turn(state, RunEvent::Proceed);
    assert_eq!(action, RunAction::ManageContext);
    let (state, action) = next_turn(state, RunEvent::Proceed);
    assert_eq!(action, RunAction::StartTurn { turn: 2 });
    let (state, action) = next_turn(state, RunEvent::Responded { has_tool_calls: false });
    assert_eq!(action, RunAction::EndTurn);
    let (state, _) = next_turn(state, RunEvent::Proceed);
    let (state, action) = next_turn(state, RunEvent::Proceed);
    assert_eq!(action, RunAction::Complete);
    assert_eq!(state.phase, RunPhase::Done);
}

#[test]
fn the_turn_loop_stops_and_fails() {
    let (state, _) = next_turn(new_run(), RunEvent::Proceed);
    let (state, _) = next_turn(state, RunEvent::Proceed);
    let (state, _) = next_turn(state, RunEvent::Responded { has_tool_calls: true });
    let (state, _) = next_turn(state, RunEvent::Proceed);
    let (recording, action) = next_turn(state, RunEvent::ToolsFinished { stopped: true });
    assert_eq!(action, RunAction::RecordToolResults);
    let (stopped, action) = next_turn(recording, RunEvent::Proceed);
    assert_eq!(action, RunAction::FinishStopped);
    assert_eq!(stopped.phase, RunPhase::Done);
    let (_, action) = next_turn(state, RunEvent::Failed);
    assert_eq!(action, RunAction::Fail);
    let (_, action) = next_turn(new_run(), RunEvent::Stopped);
    assert_eq!(action, RunAction::FinishStopped);
}
