use volumemounts_policy::{
    validate_pod, Container, EphemeralContainer, PodSpec, Reject, Settings, VolumeMount,
};

fn container(name: &str, mounts: &[&str]) -> Container {
    Container {
        name: name.to_string(),
        volume_mounts: Some(
            mounts
                .iter()
                .map(|m| VolumeMount { name: m.to_string() })
                .collect(),
        ),
    }
}

fn bare_container(name: &str) -> Container {
    Container { name: name.to_string(), volume_mounts: None }
}

fn settings(operator: Reject, names: &[&str]) -> Settings {
    Settings::new(operator, names.iter().map(|n| n.to_string()).collect())
}

/// A pod whose only container mounts nothing.
fn pod_creation() -> PodSpec {
    PodSpec {
        containers: vec![bare_container("nginx")],
        init_containers: None,
        ephemeral_containers: None,
    }
}

/// Two containers and two init containers with volume mounts.
fn pod_creation_volume_mounts() -> PodSpec {
    PodSpec {
        containers: vec![
            container(
                "busybox",
                &["test-var", "test-var-local-aaa", "kube-api-access-kplj9"],
            ),
            container("busybox2", &["test-var-local-aaa"]),
        ],
        init_containers: Some(vec![
            container("init-myservice", &["test-data"]),
            container("init-myservice2", &["test-var"]),
        ]),
        ephemeral_containers: None,
    }
}

/// One container that mounts two volumes.
fn pod_creation_volume_mounts_only2() -> PodSpec {
    PodSpec {
        containers: vec![container("busybox", &["test-var", "test-var-local-aaa"])],
        init_containers: None,
        ephemeral_containers: None,
    }
}

#[test]
fn accept_pod_no_volume_mounts_default_settings() -> Result<(), ()> {
    let result = validate_pod(&pod_creation(), &Settings::default());
    assert!(result.is_ok());
    Ok(())
}

#[test]
fn accept_pod_with_no_volume_mounts_denylist() -> Result<(), ()> {
    let result = validate_pod(&pod_creation(), &settings(Reject::AnyIn, &["test1"]));
    assert!(result.is_ok());
    Ok(())
}

#[test]
fn reject_pod_with_denylist() -> Result<(), ()> {
    let result = validate_pod(
        &pod_creation_volume_mounts(),
        &settings(Reject::AnyIn, &["test-var", "test-data"]),
    );
    let expected = "container busybox is invalid: volumeMount names not allowed: [\"test-var\"]
container init-myservice is invalid: volumeMount names not allowed: [\"test-data\"]
container init-myservice2 is invalid: volumeMount names not allowed: [\"test-var\"]
";
    assert_eq!(expected, result.unwrap_err());
    Ok(())
}

#[test]
fn accept_pod_with_allowlist() -> Result<(), ()> {
    let result = validate_pod(
        &pod_creation_volume_mounts(),
        &settings(
            Reject::AnyNotIn,
            &["test-var", "test-data", "test-var-local-aaa", "kube-api-access-kplj9"],
        ),
    );
    assert!(result.is_ok());
    Ok(())
}

#[test]
fn reject_pod_with_allowlist() -> Result<(), ()> {
    let result = validate_pod(
        &pod_creation_volume_mounts(),
        &settings(Reject::AnyNotIn, &["unexistent"]),
    );
    let expected = "container busybox is invalid: volumeMount names not allowed: [\"kube-api-access-kplj9\", \"test-var\", \"test-var-local-aaa\"]
container busybox2 is invalid: volumeMount names not allowed: [\"test-var-local-aaa\"]
container init-myservice is invalid: volumeMount names not allowed: [\"test-data\"]
container init-myservice2 is invalid: volumeMount names not allowed: [\"test-var\"]
";
    assert_eq!(expected, result.unwrap_err());
    Ok(())
}

#[test]
fn accept_pod_with_all_are_used() -> Result<(), ()> {
    let result = validate_pod(
        &pod_creation_volume_mounts(),
        &settings(Reject::AllAreUsed, &["test-var", "unexistent"]),
    );
    assert!(result.is_ok());
    Ok(())
}

#[test]
fn reject_pod_with_all_are_used() -> Result<(), ()> {
    let result = validate_pod(
        &pod_creation_volume_mounts(),
        &settings(Reject::AllAreUsed, &["test-var", "test-var-local-aaa"]),
    );
    let expected = "container busybox is invalid: volumeMount names not allowed together: [\"test-var\", \"test-var-local-aaa\"]\n";
    assert_eq!(expected, result.unwrap_err());
    Ok(())
}

#[test]
fn accept_pod_with_not_all_are_used() -> Result<(), ()> {
    let result = validate_pod(
        &pod_creation_volume_mounts_only2(),
        &settings(Reject::NotAllAreUsed, &["test-var", "test-var-local-aaa"]),
    );
    assert!(result.is_ok());
    Ok(())
}

#[test]
fn reject_pod_with_not_all_are_used() -> Result<(), ()> {
    let result = validate_pod(
        &pod_creation_volume_mounts_only2(),
        &settings(Reject::NotAllAreUsed, &["test-var", "nonexistent"]),
    );
    let expected =
        "container busybox is invalid: volumeMount names are missing: [\"nonexistent\"]\n";
    assert_eq!(expected, result.unwrap_err());
    Ok(())
}

#[test]
fn ephemeral_containers_come_last() {
    let mut pod = pod_creation_volume_mounts_only2();
    pod.init_containers = Some(vec![container("init", &["b"])]);
    pod.ephemeral_containers = Some(vec![EphemeralContainer {
        name: "debug".to_string(),
        volume_mounts: Some(vec![VolumeMount { name: "a".to_string() }]),
    }]);
    let result = validate_pod(&pod, &settings(Reject::AnyNotIn, &["test-var", "test-var-local-aaa"]));
    let expected = "container init is invalid: volumeMount names not allowed: [\"b\"]
container debug is invalid: volumeMount names not allowed: [\"a\"]
";
    assert_eq!(expected, result.unwrap_err());
}

#[test]
fn three_containers_first_and_third_violate() {
    let pod = PodSpec {
        containers: vec![
            container("one", &["z", "x", "y"]),
            container("two", &["w"]),
            container("three", &["y", "b"]),
        ],
        init_containers: None,
        ephemeral_containers: None,
    };
    let result = validate_pod(&pod, &settings(Reject::AnyIn, &["y", "x", "z", "b"]));
    let expected = "container one is invalid: volumeMount names not allowed: [\"x\", \"y\", \"z\"]
container three is invalid: volumeMount names not allowed: [\"b\", \"y\"]
";
    assert_eq!(expected, result.unwrap_err());
}

#[test]
fn same_pod_twice_gives_same_verdict() {
    let pod = pod_creation_volume_mounts();
    let first = validate_pod(&pod, &settings(Reject::AnyNotIn, &["unexistent", "test-data"]));
    let second = validate_pod(&pod, &settings(Reject::AnyNotIn, &["test-data", "unexistent", "test-data"]));
    assert_eq!(first, second);
    assert!(first.is_err());
}
