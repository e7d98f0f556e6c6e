use rigger::profile::{AddRefused, Config, Kind, Profile, DEFAULT};

fn tickets() -> Profile {
    Profile {
        kind: Kind::Tickets,
        roots: vec!["C:\\work".to_string()],
        hubs: None,
        id_pattern: Some("[A-Z]{2,8}-\\d+".to_string()),
        trays: Some("C:\\work\\trays".to_string()),
    }
}

#[test]
fn a_fresh_config_has_the_line_profile_in_use() {
    let config = Config::fresh();
    assert_eq!(config.current, "line");
    assert_eq!(DEFAULT, "line");
    assert_eq!(config.get("line"), Some(&Profile::default()));
    assert_eq!(config.get("line").unwrap().kind, Kind::Line);
    assert!(config.get("work").is_none());
}

#[test]
fn the_environment_names_the_profile_over_the_config_unless_it_is_blank() {
    let mut config = Config::fresh();
    config.add("work", tickets(), false);
    assert_eq!(config.current_name(None), "line");
    assert_eq!(config.current_name(Some("work")), "work");
    assert_eq!(config.current_name(Some("   ")), "line");
    let (name, profile) = config.current(Some("work")).ok().unwrap();
    assert_eq!(name, "work");
    assert_eq!(profile.kind, Kind::Tickets);
    let refused = config.current(Some("home")).err().unwrap();
    assert_eq!(refused.message(), "no profile named 'home'; see `rigger profile list`");
}

#[test]
fn profiles_are_kept_in_the_order_of_their_names_and_a_name_once() {
    let mut config = Config::fresh();
    config.insert("work", tickets());
    config.insert("alpha", Profile::default());
    config.insert("work", Profile::default());
    let names: Vec<&str> = config.profiles.iter().map(|(n, _)| n.as_str()).collect();
    assert_eq!(names, vec!["alpha", "line", "work"]);
    assert_eq!(config.get("work"), Some(&Profile::default()));
}

#[test]
fn a_profile_name_is_one_word_and_not_taken() {
    let config = Config::fresh();
    assert!(config.can_add("work").is_ok());
    match config.can_add("my work") {
        Err(e @ AddRefused::NotAName(_)) => {
            assert_eq!(e.message(), "a profile name is one word, without slashes: 'my work' is not")
        }
        _ => panic!("a name with a space is not a name"),
    }
    assert!(matches!(config.can_add("a/b"), Err(AddRefused::NotAName(_))));
    assert!(matches!(config.can_add("  "), Err(AddRefused::NotAName(_))));
    match config.can_add("line") {
        Err(e @ AddRefused::Taken(_)) => assert_eq!(
            e.message(),
            "a profile named 'line' already exists; see `rigger profile show line`"
        ),
        _ => panic!("the default profile is there"),
    }
}

#[test]
fn using_a_profile_that_is_not_there_changes_nothing() {
    let mut config = Config::fresh();
    assert!(config.use_profile("work").is_err());
    assert_eq!(config.current, "line");
    config.add("work", tickets(), true);
    assert_eq!(config.current, "work");
    assert!(config.use_profile("line").is_ok());
    assert_eq!(config.current, "line");
}

#[test]
fn only_the_fields_given_change_and_nothing_given_is_refused() {
    let mut p = tickets();
    assert_eq!(p.set(vec![], None, None, None).err().unwrap().message(), "nothing to set; give --root, --hubs, --id-pattern or --inbox");
    assert_eq!(p, tickets());
    p.set(vec![], Some("C:\\hubs".to_string()), None, None).ok().unwrap();
    assert_eq!(p.roots, vec!["C:\\work".to_string()]);
    assert_eq!(p.hubs.as_deref(), Some("C:\\hubs"));
    p.set(vec!["D:\\src".to_string()], None, None, None).ok().unwrap();
    assert_eq!(p.roots, vec!["D:\\src".to_string()]);
}
