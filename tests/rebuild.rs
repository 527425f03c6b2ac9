use spar::FileStamp::{At, Missing, Untimed};
use spar::{
    log_line, needs_rebuild, project_json, rebuild, rebuild_edition, rebuild_edition_args,
    source_paths, LogLevel, RustEdition,
};

#[test]
fn staleness() {
    assert!(needs_rebuild(Missing, &vec![]));
    assert!(!needs_rebuild(Untimed, &vec![]));
    assert!(needs_rebuild(Untimed, &vec![At(1)]));
    assert!(!needs_rebuild(At(10), &vec![At(5), At(10)]));
    assert!(needs_rebuild(At(10), &vec![At(5), At(11)]));
    assert!(needs_rebuild(At(10), &vec![At(5), Missing]));
    assert!(needs_rebuild(At(10), &vec![Untimed]));
    assert!(!needs_rebuild(At(-3), &vec![At(-4)]));
}

#[test]
fn rustc_arguments() {
    let opts = vec![("-C".to_string(), Some("opt-level=2".to_string())), ("-g".to_string(), None)];
    assert_eq!(
        rebuild_edition_args(RustEdition::R2021, "prog", "main.rs", &opts),
        vec!["-C", "opt-level=2", "-g", "--edition", "2021", "-o", "prog", "main.rs"]
    );
    assert_eq!(
        rebuild_edition(RustEdition::R2018, "prog", "main.rs"),
        vec!["-O", "--edition", "2018", "-o", "prog", "main.rs"]
    );
    assert_eq!(rebuild("p", "m.rs"), vec!["-O", "--edition", "2024", "-o", "p", "m.rs"]);
}

#[test]
fn watched_sources() {
    let extra = vec!["a.rs".to_string(), "b.rs".to_string()];
    assert_eq!(source_paths("main.rs", &extra), vec!["main.rs", "a.rs", "b.rs"]);
}

#[test]
fn edition_text() {
    assert_eq!(RustEdition::R2024.to_string(), "2024");
    assert_eq!(RustEdition::R2021.to_string(), "2021");
    assert_eq!(RustEdition::R2018.to_string(), "2018");
}

#[test]
fn log_lines() {
    assert_eq!(log_line(LogLevel::INFO, "Build successful"), Some("[INFO] Build successful".to_string()));
    assert_eq!(log_line(LogLevel::WARNING, "w"), Some("[WARN] w".to_string()));
    assert_eq!(log_line(LogLevel::ERROR, "Build failed"), Some("[ERROR] Build failed".to_string()));
    assert_eq!(log_line(LogLevel::NO_LOGS, "x"), None);
    assert!(LogLevel::ERROR.to_stderr());
    assert!(!LogLevel::INFO.to_stderr());
}

#[test]
fn project_file() {
    let text = project_json("/sys", "example.rs", RustEdition::R2018);
    let expected = "{\n\"sysroot_src\": \"/sys/lib/rustlib/src/rust/library\",\n\"crates\": [\n    {\n        \"root_module\": \"example.rs\",\n        \"edition\": \"2018\",\n        \"deps\": []\n    }\n]\n}";
    assert_eq!(text, expected);
}
