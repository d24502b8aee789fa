use sfdl::session::{
    after_build, confirm_load, confirm_prompt, load_summary, LoadDecision, RunStep,
};
use sfdl::template::{TemplateConfig, TemplateOptions, TemplateTarget};

#[test]
fn a_dry_run_never_loads() {
    assert!(matches!(
        after_build(true, Some("preview.csv".to_string())),
        RunStep::SaveDryRun(path) if path == "preview.csv"
    ));
    assert!(matches!(after_build(true, None), RunStep::ShowDryRun));
    assert!(matches!(after_build(false, None), RunStep::Confirm));
    assert!(matches!(after_build(false, Some("x".to_string())), RunStep::Confirm));
}

#[test]
fn answers() {
    for answer in ["y", "Y\n", " yes \r\n", "YES"] {
        assert_eq!(confirm_load(answer), Some(LoadDecision::Yes));
    }
    for answer in ["n", "N\n", " no\n", "No"] {
        assert_eq!(confirm_load(answer), Some(LoadDecision::No));
    }
    for answer in ["", "\n", "maybe", "yep", "y n"] {
        assert_eq!(confirm_load(answer), None);
    }
}

#[test]
fn the_question() {
    assert_eq!(confirm_prompt(12), "\nReady to load 12 record(s). Continue? (y/n): ");
}

#[test]
fn the_summary() {
    let config = TemplateConfig {
        name: "Contacts".to_string(),
        version: 4294967295,
        description: "All contacts".to_string(),
        target: TemplateTarget { object: "Contact".to_string(), operation: "insert".to_string() },
        options: TemplateOptions { strict_headers: true },
        fields: vec![],
    };
    assert_eq!(
        load_summary(&config, 7),
        "----------------------------------------\n\
         Template:    Contacts\n\
         Version:     4294967295\n\
         Description: All contacts\n\
         Object:      Contact\n\
         Operation:   insert\n\
         Records:     7\n\
         ----------------------------------------"
    );
}
