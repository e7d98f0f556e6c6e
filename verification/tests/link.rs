use rigger::link::{parted, Drift, End, Kind, Link, Pair};

fn end(project: &str, version: &str, shipped: bool) -> End {
    End {
        project: project.into(),
        version: Some(version.into()),
        shipped: Some(shipped),
    }
}

fn bare(project: &str) -> End {
    End {
        project: project.into(),
        version: None,
        shipped: None,
    }
}

fn pair(near: End, far: End, near_ahead: u32, far_ahead: u32) -> Pair {
    Pair {
        link: Link {
            id: 1,
            kind: Kind::Pair,
            near,
            far,
            note: None,
        },
        near_ahead,
        far_ahead,
    }
}

#[test]
fn a_half_that_shipped_without_the_other_is_the_loudest_signal() {
    let drifted = parted(&[pair(end("kasl", "v1.12.0", true), end("kasl-server", "v0.22.0", false), 0, 0)]);
    assert_eq!(drifted.len(), 1);
    assert_eq!(drifted[0].drift, Drift::ShippedAlone);
    assert_eq!(drifted[0].ahead.project, "kasl");
    assert_eq!(drifted[0].behind.project, "kasl-server");
}

#[test]
fn the_side_a_pair_was_recorded_from_does_not_change_what_it_says() {
    let drifted = parted(&[pair(end("kasl-server", "v0.22.0", false), end("kasl", "v1.12.0", true), 0, 0)]);
    assert_eq!(drifted[0].ahead.project, "kasl");
    assert_eq!(drifted[0].behind.project, "kasl-server");
}

#[test]
fn a_pair_that_shipped_both_halves_is_the_pair_working() {
    assert!(parted(&[pair(end("kasl", "v1.12.0", true), end("kasl-server", "v0.22.0", true), 0, 0)]).is_empty());
}

#[test]
fn one_version_ahead_is_not_yet_drift() {
    assert!(parted(&[pair(end("a", "v0.3.0", false), end("b", "v0.1.0", false), 1, 0)]).is_empty());
}

#[test]
fn two_versions_ahead_is_reported_with_the_number() {
    let drifted = parted(&[pair(end("a", "v0.3.0", false), end("b", "v0.1.0", false), 2, 0)]);
    assert_eq!(drifted.len(), 1);
    assert_eq!(drifted[0].drift, Drift::RunAhead);
    assert_eq!(drifted[0].ahead.project, "a");
    assert_eq!(drifted[0].versions, Some(2));
}

#[test]
fn the_far_end_can_be_the_one_that_ran_ahead() {
    let drifted = parted(&[pair(end("a", "v0.1.0", false), end("b", "v0.4.0", false), 0, 3)]);
    assert_eq!(drifted[0].ahead.project, "b");
    assert_eq!(drifted[0].versions, Some(3));
}

#[test]
fn a_consumer_running_ahead_is_not_reported() {
    let mut p = pair(end("lyrid", "v0.12.0", false), end("dowel", "v0.26.0", false), 5, 0);
    p.link.kind = Kind::Consumer;
    assert!(parted(&[p]).is_empty());
    let mut p = pair(end("lyrid", "v0.12.0", true), end("dowel", "v0.26.0", false), 0, 0);
    p.link.kind = Kind::Consumer;
    assert!(parted(&[p]).is_empty());
}

#[test]
fn a_link_without_versions_says_nothing_about_drift() {
    assert!(parted(&[pair(bare("a"), bare("b"), 0, 0)]).is_empty());
}

#[test]
fn one_anchored_end_is_not_a_comparison() {
    assert!(parted(&[pair(end("a", "v0.3.0", true), bare("b"), 0, 0)]).is_empty());
}

#[test]
fn the_shipped_half_outranks_the_widest_gap() {
    let drifted = parted(&[
        pair(end("a", "v0.9.0", false), end("b", "v0.1.0", false), 8, 0),
        pair(end("c", "v1.0.0", true), end("d", "v0.1.0", false), 0, 0),
    ]);
    assert_eq!(drifted[0].ahead.project, "c");
    assert_eq!(drifted[1].ahead.project, "a");
}

#[test]
fn a_kind_pads_to_the_width_it_is_given() {
    assert_eq!(format!("{:<9}|", Kind::Pair.as_str()), "pair     |");
    assert_eq!(format!("{:<9}|", Kind::Consumer.as_str()), "consumer |");
}

#[test]
fn a_directed_kind_reads_as_its_opposite_from_the_far_end() {
    assert_eq!(Kind::Consumer.flipped(), Kind::Donor);
    assert_eq!(Kind::Donor.flipped(), Kind::Consumer);
    assert_eq!(Kind::Pair.flipped(), Kind::Pair);
    assert!(Kind::Pair.symmetric());
    assert!(!Kind::Consumer.symmetric());
}

#[test]
fn a_kind_reads_back_from_its_name() {
    for kind in [Kind::Pair, Kind::Consumer, Kind::Donor] {
        assert_eq!(Kind::parse(kind.as_str()), Some(kind));
        assert_eq!(kind.flipped().flipped(), kind);
    }
    assert_eq!(Kind::parse("Pair"), None);
}

#[test]
fn equal_gaps_are_reported_by_the_name_of_the_end_ahead() {
    let drifted = parted(&[
        pair(end("zeta", "v0.9.0", false), end("b", "v0.1.0", false), 3, 0),
        pair(end("alpha", "v0.9.0", false), end("d", "v0.1.0", false), 3, 0),
        pair(end("mid", "v0.9.0", false), end("e", "v0.1.0", false), 5, 0),
    ]);
    let names: Vec<&str> = drifted.iter().map(|d| d.ahead.project.as_str()).collect();
    assert_eq!(names, vec!["mid", "alpha", "zeta"]);
}
