//! The decision: which containers of a pod break the configured rule, and the
//! message that says so.
use vstd::prelude::*;

use crate::names::{
    dedup_names, filter_names, format_name_list, lemma_empty_names, name_list_text,
    sort_names, sorted_names, views,
};
use crate::pod::{mount_name_seq, mount_names, Container, EphemeralContainer, PodSpec, VolumeMount};
use crate::settings::{Reject, Settings};

verus! {

/// The names that a container with mounts `actual` is blamed for.
pub open spec fn violating_names(
    mode: Reject,
    configured: Set<Seq<char>>,
    actual: Set<Seq<char>>,
) -> Set<Seq<char>> {
    match mode {
        Reject::AnyIn => configured.intersect(actual),
        Reject::AnyNotIn => actual.difference(configured),
        Reject::AllAreUsed => configured,
        Reject::NotAllAreUsed => configured.difference(actual),
    }
}

/// Whether a container with mounts `actual` breaks the rule.
pub open spec fn violates(mode: Reject, configured: Set<Seq<char>>, actual: Set<Seq<char>>) -> bool {
    match mode {
        Reject::AllAreUsed => configured.subset_of(actual),
        _ => violating_names(mode, configured, actual) != Set::<Seq<char>>::empty(),
    }
}

/// The phrase that says which rule was broken.
pub open spec fn reason(mode: Reject) -> Seq<char> {
    match mode {
        Reject::AllAreUsed => "volumeMount names not allowed together"@,
        Reject::AnyIn | Reject::AnyNotIn => "volumeMount names not allowed"@,
        Reject::NotAllAreUsed => "volumeMount names are missing"@,
    }
}

/// What is wrong with a list of mounts under the settings, if anything.
pub open spec fn mounts_verdict(settings: Settings, mounts: Seq<VolumeMount>) -> Option<Seq<char>> {
    let actual = mount_names(mounts);
    if violates(settings.mode(), settings.names(), actual) {
        Some(
            reason(settings.mode()) + ": "@ + name_list_text(
                sorted_names(violating_names(settings.mode(), settings.names(), actual)),
            ),
        )
    } else {
        None
    }
}

/// What is wrong with a container's mounts, if anything: a container that
/// mounts nothing is always fine.
pub open spec fn container_verdict(
    settings: Settings,
    mounts: Option<Vec<VolumeMount>>,
) -> Option<Seq<char>> {
    match mounts {
        Some(m) => if m@.len() == 0 {
            None
        } else {
            mounts_verdict(settings, m@)
        },
        None => None,
    }
}

/// The outcome of a check: `None` for success, else the message.
pub open spec fn outcome(r: Result<(), String>) -> Option<Seq<char>> {
    match r {
        Ok(_) => None,
        Err(m) => Some(m@),
    }
}

/// The line of the message for one container; empty when it is fine.
pub open spec fn line(name: Seq<char>, verdict: Option<Seq<char>>) -> Seq<char> {
    match verdict {
        Some(m) => "container "@ + name + " is invalid: "@ + m + "\n"@,
        None => Seq::empty(),
    }
}

/// The lines for a list of containers, in order.
pub open spec fn containers_text(settings: Settings, cs: Seq<Container>) -> Seq<char>
    decreases cs.len(),
{
    if cs.len() == 0 {
        Seq::empty()
    } else {
        containers_text(settings, cs.drop_last()) + line(
            cs.last().name@,
            container_verdict(settings, cs.last().volume_mounts),
        )
    }
}

/// The lines for a list of ephemeral containers, in order.
pub open spec fn ephemeral_text(settings: Settings, cs: Seq<EphemeralContainer>) -> Seq<char>
    decreases cs.len(),
{
    if cs.len() == 0 {
        Seq::empty()
    } else {
        ephemeral_text(settings, cs.drop_last()) + line(
            cs.last().name@,
            container_verdict(settings, cs.last().volume_mounts),
        )
    }
}

/// The whole message for a pod: ordinary containers, then init containers,
/// then ephemeral containers.
pub open spec fn pod_text(settings: Settings, pod: PodSpec) -> Seq<char> {
    containers_text(settings, pod.containers@) + match pod.init_containers {
        Some(v) => containers_text(settings, v@),
        None => Seq::empty(),
    } + match pod.ephemeral_containers {
        Some(v) => ephemeral_text(settings, v@),
        None => Seq::empty(),
    }
}

/// The verdict on a pod: accepted when no container breaks the rule, else
/// rejected with one line per container that does.
pub open spec fn pod_verdict(settings: Settings, pod: PodSpec) -> Option<Seq<char>> {
    if pod_text(settings, pod).len() == 0 {
        None
    } else {
        Some(pod_text(settings, pod))
    }
}

/// The names of a list of mounts, each once.
fn mount_name_list(volume_mounts: &[VolumeMount]) -> (r: Vec<String>)
    ensures
        views(r@).no_duplicates(),
        views(r@).to_set() == mount_names(volume_mounts@),
{
    let mut all: Vec<String> = Vec::new();
    let mut i: usize = 0;
    while i < volume_mounts.len()
        invariant
            i <= volume_mounts@.len(),
            views(all@) =~= mount_name_seq(volume_mounts@).subrange(0, i as int),
        decreases volume_mounts@.len() - i,
    {
        let ghost old_all = views(all@);
        all.push(volume_mounts[i].name.clone());
        proof {
            assert(views(all@) =~= old_all.push(volume_mounts@[i as int].name@));
            assert(mount_name_seq(volume_mounts@).subrange(0, i + 1) =~= mount_name_seq(
                volume_mounts@,
            ).subrange(0, i as int).push(volume_mounts@[i as int].name@));
        }
        i = i + 1;
    }
    assert(mount_name_seq(volume_mounts@).subrange(0, volume_mounts@.len() as int)
        =~= mount_name_seq(volume_mounts@));
    dedup_names(&all)
}

/// The text of a broken rule: the reason and the names, sorted.
fn violation_text(mode: Reject, names: &Vec<String>) -> (r: String)
    requires
        views(names@).no_duplicates(),
    ensures
        r@ == reason(mode) + ": "@ + name_list_text(sorted_names(views(names@).to_set())),
{
    let sorted = sort_names(names);
    let list = format_name_list(&sorted);
    let mut r = match mode {
        Reject::AllAreUsed => String::from_str("volumeMount names not allowed together"),
        Reject::AnyIn | Reject::AnyNotIn => String::from_str("volumeMount names not allowed"),
        Reject::NotAllAreUsed => String::from_str("volumeMount names are missing"),
    };
    r.append(": ");
    r.append(list.as_str());
    r
}

/// Checks a list of mounts against the settings.
pub fn validate_volume_mounts(volume_mounts: &[VolumeMount], settings: &Settings) -> (r: Result<
    (),
    String,
>)
    ensures
        outcome(r) == mounts_verdict(*settings, volume_mounts@),
{
    let actual = mount_name_list(volume_mounts);
    let configured = settings.volume_mounts_names();
    let mode = settings.operator();
    let ghost act = mount_names(volume_mounts@);
    let ghost conf = settings.names();
    match mode {
        Reject::AllAreUsed => {
            let missing = filter_names(configured, &actual, false);
            proof {
                lemma_empty_names(views(missing@));
                if conf.subset_of(act) {
                    assert(views(missing@).to_set() =~= Set::<Seq<char>>::empty());
                } else {
                    let x = choose|x: Seq<char>| conf.contains(x) && !act.contains(x);
                    assert(views(missing@).to_set().contains(x));
                }
            }
            if missing.len() == 0 {
                Err(violation_text(mode, configured))
            } else {
                Ok(())
            }
        },
        _ => {
            let found = match mode {
                Reject::AnyNotIn => filter_names(&actual, configured, false),
                Reject::AnyIn => filter_names(configured, &actual, true),
                _ => filter_names(configured, &actual, false),
            };
            proof {
                lemma_empty_names(views(found@));
            }
            if found.len() == 0 {
                Ok(())
            } else {
                Err(violation_text(mode, &found))
            }
        },
    }
}

/// Checks the mounts of an ordinary or init container.
pub fn validate_container(container: &Container, settings: &Settings) -> (r: Result<(), String>)
    ensures
        outcome(r) == container_verdict(*settings, container.volume_mounts),
{
    if let Some(volume_mounts) = &container.volume_mounts {
        if volume_mounts.len() > 0 {
            return validate_volume_mounts(volume_mounts.as_slice(), settings);
        }
    }
    Ok(())
}

/// Checks the mounts of an ephemeral container.
pub fn validate_ephemeral_container(container: &EphemeralContainer, settings: &Settings) -> (r:
    Result<(), String>)
    ensures
        outcome(r) == container_verdict(*settings, container.volume_mounts),
{
    if let Some(volume_mounts) = &container.volume_mounts {
        if volume_mounts.len() > 0 {
            return validate_volume_mounts(volume_mounts.as_slice(), settings);
        }
    }
    Ok(())
}

/// Appends the line of one container, if it breaks the rule.
fn append_line(err: &mut String, name: &String, verdict: Result<(), String>)
    ensures
        final(err)@ == old(err)@ + line(name@, outcome(verdict)),
{
    match verdict {
        Ok(_) => {
            assert(final(err)@ =~= old(err)@ + Seq::<char>::empty());
        },
        Err(m) => {
            err.append("container ");
            err.append(name.as_str());
            err.append(" is invalid: ");
            err.append(m.as_str());
            err.append("\n");
            assert(final(err)@ =~= old(err)@ + line(name@, outcome(Err(m))));
        },
    }
}

/// Appends the lines of a list of containers.
fn append_container_lines(err: &mut String, cs: &Vec<Container>, settings: &Settings)
    ensures
        final(err)@ == old(err)@ + containers_text(*settings, cs@),
{
    let mut i: usize = 0;
    while i < cs.len()
        invariant
            i <= cs@.len(),
            err@ == old(err)@ + containers_text(*settings, cs@.subrange(0, i as int)),
        decreases cs@.len() - i,
    {
        let verdict = validate_container(&cs[i], settings);
        append_line(err, &cs[i].name, verdict);
        proof {
            let sub1 = cs@.subrange(0, i + 1);
            assert(sub1.drop_last() =~= cs@.subrange(0, i as int));
            assert(sub1.last() == cs@[i as int]);
            assert(err@ =~= old(err)@ + containers_text(*settings, sub1));
        }
        i = i + 1;
    }
    assert(cs@.subrange(0, cs@.len() as int) =~= cs@);
}

/// Appends the lines of a list of ephemeral containers.
fn append_ephemeral_lines(err: &mut String, cs: &Vec<EphemeralContainer>, settings: &Settings)
    ensures
        final(err)@ == old(err)@ + ephemeral_text(*settings, cs@),
{
    let mut i: usize = 0;
    while i < cs.len()
        invariant
            i <= cs@.len(),
            err@ == old(err)@ + ephemeral_text(*settings, cs@.subrange(0, i as int)),
        decreases cs@.len() - i,
    {
        let verdict = validate_ephemeral_container(&cs[i], settings);
        append_line(err, &cs[i].name, verdict);
        proof {
            let sub1 = cs@.subrange(0, i + 1);
            assert(sub1.drop_last() =~= cs@.subrange(0, i as int));
            assert(sub1.last() == cs@[i as int]);
            assert(err@ =~= old(err)@ + ephemeral_text(*settings, sub1));
        }
        i = i + 1;
    }
    assert(cs@.subrange(0, cs@.len() as int) =~= cs@);
}

/// Checks every container of a pod and gathers one line for each that breaks
/// the rule; the pod is accepted when there is none.
pub fn validate_pod(pod: &PodSpec, settings: &Settings) -> (r: Result<(), String>)
    ensures
        outcome(r) == pod_verdict(*settings, *pod),
{
    let mut err_message = String::new();
    append_container_lines(&mut err_message, &pod.containers, settings);
    if let Some(init_containers) = &pod.init_containers {
        append_container_lines(&mut err_message, init_containers, settings);
    }
    if let Some(ephemeral_containers) = &pod.ephemeral_containers {
        append_ephemeral_lines(&mut err_message, ephemeral_containers, settings);
    }
    assert(err_message@ =~= pod_text(*settings, *pod));
    if err_message.as_str().is_empty() {
        return Ok(());
    }
    Err(err_message)
}

/// A container that declares no volume mounts is fine, whatever the mode and
/// the configured names.
pub proof fn lemma_no_mounts_is_valid(settings: Settings, mounts: Option<Vec<VolumeMount>>)
    requires
        mounts matches Some(m) ==> m@.len() == 0,
    ensures
        container_verdict(settings, mounts) is None,
{
}

proof fn lemma_containers_text_same(s1: Settings, s2: Settings, cs: Seq<Container>)
    requires
        s1.mode() == s2.mode(),
        s1.names() == s2.names(),
    ensures
        containers_text(s1, cs) == containers_text(s2, cs),
    decreases cs.len(),
{
    if cs.len() > 0 {
        lemma_containers_text_same(s1, s2, cs.drop_last());
    }
}

proof fn lemma_ephemeral_text_same(s1: Settings, s2: Settings, cs: Seq<EphemeralContainer>)
    requires
        s1.mode() == s2.mode(),
        s1.names() == s2.names(),
    ensures
        ephemeral_text(s1, cs) == ephemeral_text(s2, cs),
    decreases cs.len(),
{
    if cs.len() > 0 {
        lemma_ephemeral_text_same(s1, s2, cs.drop_last());
    }
}

/// The verdict on a pod is a function of the pod, the mode and the set of
/// configured names alone: evaluating it twice, or with the names given in
/// another order or with repeats, yields the same verdict, byte for byte.
pub proof fn lemma_verdict_deterministic(s1: Settings, s2: Settings, pod: PodSpec)
    requires
        s1.mode() == s2.mode(),
        s1.names() == s2.names(),
    ensures
        pod_verdict(s1, pod) == pod_verdict(s2, pod),
{
    lemma_containers_text_same(s1, s2, pod.containers@);
    if let Some(v) = pod.init_containers {
        lemma_containers_text_same(s1, s2, v@);
    }
    if let Some(v) = pod.ephemeral_containers {
        lemma_ephemeral_text_same(s1, s2, v@);
    }
}

/// Of three containers where the first and the third break the rule and the
/// second does not, the pod is rejected with exactly the two lines of the
/// first and the third, in that order (each line lists its names in
/// ascending order, see `mounts_verdict`).
pub proof fn lemma_three_containers(settings: Settings, pod: PodSpec)
    requires
        pod.containers@.len() == 3,
        pod.init_containers is None,
        pod.ephemeral_containers is None,
        container_verdict(settings, pod.containers@[0].volume_mounts) is Some,
        container_verdict(settings, pod.containers@[1].volume_mounts) is None,
        container_verdict(settings, pod.containers@[2].volume_mounts) is Some,
    ensures
        pod_verdict(settings, pod) == Some(
            line(
                pod.containers@[0].name@,
                container_verdict(settings, pod.containers@[0].volume_mounts),
            ) + line(
                pod.containers@[2].name@,
                container_verdict(settings, pod.containers@[2].volume_mounts),
            ),
        ),
{
    let cs = pod.containers@;
    let l0 = line(cs[0].name@, container_verdict(settings, cs[0].volume_mounts));
    let l2 = line(cs[2].name@, container_verdict(settings, cs[2].volume_mounts));
    let c2 = cs.drop_last();
    let c1 = c2.drop_last();
    let c0 = c1.drop_last();
    assert(c0 =~= Seq::<Container>::empty());
    assert(c1.last() == cs[0]);
    assert(c2.last() == cs[1]);
    assert(containers_text(settings, c0) == Seq::<char>::empty());
    assert(containers_text(settings, c1) == containers_text(settings, c0) + l0);
    assert(containers_text(settings, c1) =~= l0);
    let l1 = line(cs[1].name@, container_verdict(settings, cs[1].volume_mounts));
    assert(l1 == Seq::<char>::empty());
    assert(containers_text(settings, c2) == containers_text(settings, c1) + l1);
    assert(containers_text(settings, c2) =~= l0);
    assert(containers_text(settings, cs) == containers_text(settings, c2) + l2);
    assert(pod_text(settings, pod) =~= l0 + l2);
    assert((l0 + l2).len() > 0) by {
        assert(l0 =~= "container "@ + cs[0].name@ + " is invalid: "@ + container_verdict(
            settings,
            cs[0].volume_mounts,
        )->0 + "\n"@);
        reveal_strlit("\n");
    }
}

proof fn lemma_line_empty(name: Seq<char>, verdict: Option<Seq<char>>)
    ensures
        (line(name, verdict).len() == 0) <==> verdict is None,
{
    if let Some(m) = verdict {
        reveal_strlit("\n");
        assert(line(name, verdict).len() >= "\n"@.len());
    }
}

proof fn lemma_containers_text_empty(settings: Settings, cs: Seq<Container>)
    ensures
        (containers_text(settings, cs).len() == 0) <==> forall|i: int|
            0 <= i < cs.len() ==> (#[trigger] container_verdict(settings, cs[i].volume_mounts)) is None,
    decreases cs.len(),
{
    if cs.len() > 0 {
        let init = cs.drop_last();
        lemma_containers_text_empty(settings, init);
        lemma_line_empty(cs.last().name@, container_verdict(settings, cs.last().volume_mounts));
        if containers_text(settings, cs).len() == 0 {
            assert forall|i: int| 0 <= i < cs.len() implies (#[trigger] container_verdict(
                settings,
                cs[i].volume_mounts,
            )) is None by {
                if i < init.len() {
                    assert(init[i] == cs[i]);
                }
            }
        }
        if forall|i: int|
            0 <= i < cs.len() ==> (#[trigger] container_verdict(settings, cs[i].volume_mounts)) is None {
            assert(container_verdict(settings, cs[cs.len() - 1].volume_mounts) is None);
            assert forall|i: int| 0 <= i < init.len() implies (#[trigger] container_verdict(
                settings,
                init[i].volume_mounts,
            )) is None by {
                assert(init[i] == cs[i]);
                assert(container_verdict(settings, cs[i].volume_mounts) is None);
            }
        }
    }
}

proof fn lemma_ephemeral_text_empty(settings: Settings, cs: Seq<EphemeralContainer>)
    ensures
        (ephemeral_text(settings, cs).len() == 0) <==> forall|i: int|
            0 <= i < cs.len() ==> (#[trigger] container_verdict(settings, cs[i].volume_mounts)) is None,
    decreases cs.len(),
{
    if cs.len() > 0 {
        let init = cs.drop_last();
        lemma_ephemeral_text_empty(settings, init);
        lemma_line_empty(cs.last().name@, container_verdict(settings, cs.last().volume_mounts));
        if ephemeral_text(settings, cs).len() == 0 {
            assert forall|i: int| 0 <= i < cs.len() implies (#[trigger] container_verdict(
                settings,
                cs[i].volume_mounts,
            )) is None by {
                if i < init.len() {
                    assert(init[i] == cs[i]);
                }
            }
        }
        if forall|i: int|
            0 <= i < cs.len() ==> (#[trigger] container_verdict(settings, cs[i].volume_mounts)) is None {
            assert(container_verdict(settings, cs[cs.len() - 1].volume_mounts) is None);
            assert forall|i: int| 0 <= i < init.len() implies (#[trigger] container_verdict(
                settings,
                init[i].volume_mounts,
            )) is None by {
                assert(init[i] == cs[i]);
                assert(container_verdict(settings, cs[i].volume_mounts) is None);
            }
        }
    }
}

/// A pod is accepted exactly when none of its containers, of any of the three
/// kinds, breaks the rule.
pub proof fn lemma_accepted_iff_all_valid(settings: Settings, pod: PodSpec)
    ensures
        pod_verdict(settings, pod) is None <==> {
            &&& forall|i: int|
                0 <= i < pod.containers@.len() ==> (#[trigger] container_verdict(
                    settings,
                    pod.containers@[i].volume_mounts,
                )) is None
            &&& pod.init_containers matches Some(v) ==> forall|i: int|
                0 <= i < v@.len() ==> (#[trigger] container_verdict(settings, v@[i].volume_mounts))
                    is None
            &&& pod.ephemeral_containers matches Some(v) ==> forall|i: int|
                0 <= i < v@.len() ==> (#[trigger] container_verdict(settings, v@[i].volume_mounts))
                    is None
        },
{
    lemma_containers_text_empty(settings, pod.containers@);
    if let Some(v) = pod.init_containers {
        lemma_containers_text_empty(settings, v@);
    }
    if let Some(v) = pod.ephemeral_containers {
        lemma_ephemeral_text_empty(settings, v@);
    }
}

} // verus!
