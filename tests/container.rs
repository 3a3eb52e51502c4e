use volumemounts_policy::{
    validate_container, validate_ephemeral_container, validate_volume_mounts, Container,
    EphemeralContainer, Reject, Settings, VolumeMount,
};

fn mounts(names: &[&str]) -> Vec<VolumeMount> {
    names.iter().map(|n| VolumeMount { name: n.to_string() }).collect()
}

fn settings(operator: Reject, names: &[&str]) -> Settings {
    Settings::new(operator, names.iter().map(|n| n.to_string()).collect())
}

const ALL_MODES: [Reject; 4] =
    [Reject::AnyIn, Reject::AnyNotIn, Reject::AllAreUsed, Reject::NotAllAreUsed];

#[test]
fn no_mounts_is_valid_in_every_mode() {
    for mode in ALL_MODES {
        let s = settings(mode, &["a", "b"]);
        let none = Container { name: "c".to_string(), volume_mounts: None };
        let empty = Container { name: "c".to_string(), volume_mounts: Some(Vec::new()) };
        let eph = EphemeralContainer { name: "e".to_string(), volume_mounts: Some(Vec::new()) };
        assert_eq!(validate_container(&none, &s), Ok(()));
        assert_eq!(validate_container(&empty, &s), Ok(()));
        assert_eq!(validate_ephemeral_container(&eph, &s), Ok(()));
    }
}

#[test]
fn any_in_denylist() {
    let m = mounts(&["a", "b"]);
    assert_eq!(
        validate_volume_mounts(&m, &settings(Reject::AnyIn, &["a"])),
        Err("volumeMount names not allowed: [\"a\"]".to_string())
    );
    assert_eq!(validate_volume_mounts(&m, &settings(Reject::AnyIn, &["c"])), Ok(()));
}

#[test]
fn any_not_in_allowlist() {
    let m = mounts(&["a", "b"]);
    assert_eq!(validate_volume_mounts(&m, &settings(Reject::AnyNotIn, &["a", "b", "c"])), Ok(()));
    assert_eq!(
        validate_volume_mounts(&m, &settings(Reject::AnyNotIn, &["a"])),
        Err("volumeMount names not allowed: [\"b\"]".to_string())
    );
}

#[test]
fn all_are_used_subset() {
    let m = mounts(&["a", "b", "c"]);
    assert_eq!(
        validate_volume_mounts(&m, &settings(Reject::AllAreUsed, &["b", "a"])),
        Err("volumeMount names not allowed together: [\"a\", \"b\"]".to_string())
    );
    assert_eq!(validate_volume_mounts(&m, &settings(Reject::AllAreUsed, &["a", "d"])), Ok(()));
}

#[test]
fn not_all_are_used_missing() {
    let m = mounts(&["a", "b"]);
    assert_eq!(validate_volume_mounts(&m, &settings(Reject::NotAllAreUsed, &["a", "b"])), Ok(()));
    assert_eq!(
        validate_volume_mounts(&m, &settings(Reject::NotAllAreUsed, &["a", "b", "c"])),
        Err("volumeMount names are missing: [\"c\"]".to_string())
    );
}

#[test]
fn repeated_mounts_count_once() {
    let m = mounts(&["b", "a", "b", "a"]);
    assert_eq!(
        validate_volume_mounts(&m, &settings(Reject::AnyNotIn, &["c"])),
        Err("volumeMount names not allowed: [\"a\", \"b\"]".to_string())
    );
}

#[test]
fn names_are_quoted_with_escapes() {
    let m = mounts(&["q\"x", "plain"]);
    assert_eq!(
        validate_volume_mounts(&m, &settings(Reject::AnyNotIn, &["other"])),
        Err("volumeMount names not allowed: [\"plain\", \"q\\\"x\"]".to_string())
    );
}
