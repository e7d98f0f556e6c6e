use rigger::delivery::{github_repo, no_releases, publish_state, registry, shipped_body, tag_version, Delivery, Run};

fn run(name: &str, status: &str, conclusion: &str) -> Run {
    Run {
        workflow_name: Some(name.to_string()),
        status: Some(status.to_string()),
        conclusion: Some(conclusion.to_string()),
    }
}

#[test]
fn a_remote_names_its_repository_in_either_spelling() {
    assert_eq!(github_repo("https://github.com/acme/widget.git").as_deref(), Some("acme/widget"));
    assert_eq!(github_repo("https://github.com/acme/widget").as_deref(), Some("acme/widget"));
    assert_eq!(github_repo("git@github.com:acme/widget.git").as_deref(), Some("acme/widget"));
    assert_eq!(github_repo("https://gitlab.com/acme/widget.git"), None);
    assert_eq!(github_repo("https://github.com/acme"), None);
}

#[test]
fn only_the_publish_run_decides_publication() {
    let built_only = [run("Release", "completed", "success")];
    assert_eq!(publish_state(&built_only, 3), Delivery::Released);
    assert_eq!(publish_state(&built_only, 0), Delivery::NoAssets);

    let red = [run("Publish", "completed", "failure"), run("Release", "completed", "success")];
    assert_eq!(publish_state(&red, 3), Delivery::PublishFailed);

    let running = [run("Publish", "in_progress", "")];
    assert_eq!(publish_state(&running, 3), Delivery::PublishRunning);

    let rerun = [run("Publish", "completed", "success"), run("Publish", "completed", "failure")];
    assert_eq!(publish_state(&rerun, 3), Delivery::Published);

    let library = [run("Publish", "completed", "success")];
    assert_eq!(publish_state(&library, 0), Delivery::Published);
}

#[test]
fn the_engine_is_read_by_what_it_did() {
    assert_eq!(Delivery::from_engine(true, &["crates.io".into()]), Delivery::Published);
    assert_eq!(Delivery::from_engine(false, &["crates.io".into()]), Delivery::Published);
    assert_eq!(Delivery::from_engine(true, &[]), Delivery::Released);
    assert_eq!(Delivery::from_engine(false, &[]), Delivery::TagOnly);
}

#[test]
fn every_state_reads_back_as_itself() {
    for state in [
        Delivery::TagOnly,
        Delivery::NoAssets,
        Delivery::Released,
        Delivery::PublishRunning,
        Delivery::PublishFailed,
        Delivery::Published,
    ] {
        assert_eq!(Delivery::parse(state.as_str()), Some(state));
    }
}

#[test]
fn a_tag_must_name_a_version() {
    assert_eq!(tag_version("v0.23.0").unwrap(), "v0.23.0");
    assert_eq!(tag_version("1.2").unwrap(), "1.2");
    assert!(tag_version("latest").is_err());
    assert!(tag_version("v3").is_err());
}

#[test]
fn a_registry_name_is_one_word() {
    assert_eq!(registry("  crates.io ").unwrap(), "crates.io");
    assert_eq!(registry("crates io").unwrap_err().name, "crates io");
    assert!(registry("npm,pypi").is_err());
    assert!(registry("   ").is_err());
}

#[test]
fn the_shipped_event_says_what_the_release_reached() {
    assert_eq!(shipped_body("v1.0.0", false, &[], None), "v1.0.0 went out as a tag");
    assert_eq!(
        shipped_body("v1.0.0", true, &["crates.io".to_string(), "npm".to_string()], Some("  Notes.  ")),
        "v1.0.0 went out: the release with its archives, crates.io, npm\n\nNotes."
    );
    assert_eq!(shipped_body("v1.0.0", false, &["npm".to_string()], Some("   ")), "v1.0.0 went out: npm");
}

#[test]
fn an_empty_release_list_is_no_releases_at_all() {
    assert!(no_releases(" [ ] \n"));
    assert!(no_releases("[]"));
    assert!(!no_releases("[{\"tagName\":\"v1\"}]"));
}

#[test]
fn only_a_version_nobody_can_install_is_short() {
    assert!(Delivery::TagOnly.is_short());
    assert!(Delivery::PublishFailed.is_short());
    assert!(!Delivery::Published.is_short());
    assert_eq!(Delivery::PublishRunning.describe(), "released, publish still running");
}
