use vstd::prelude::*;

use crate::model::{ObjectPath, PodRecord, PvcRecord, paths_view, strings_view};

verus! {

/// The phase a pod must be in to be considered.
pub open spec fn running_phase() -> Seq<char> {
    "Running"@
}

/// A claim qualifies when its identity is complete and it names a storage
/// class that is one of `classes`, compared as whole strings.
pub open spec fn pvc_qualifies(p: PvcRecord, classes: Seq<Seq<char>>) -> bool {
    &&& p.namespace is Some
    &&& p.name is Some
    &&& p.storage_class_name is Some
    &&& classes.contains(p.storage_class_name->0@)
}

/// The join key of a claim: its namespace and its name.
pub open spec fn pvc_path(p: PvcRecord) -> (Seq<char>, Seq<char>) {
    (p.namespace->0@, p.name->0@)
}

/// The keys of the qualifying claims, in listing order.
pub open spec fn qualifying_paths_of(pvcs: Seq<PvcRecord>, classes: Seq<Seq<char>>) -> Seq<(Seq<char>, Seq<char>)>
    decreases pvcs.len(),
{
    if pvcs.len() == 0 {
        seq![]
    } else {
        let rest = qualifying_paths_of(pvcs.drop_last(), classes);
        if pvc_qualifies(pvcs.last(), classes) {
            rest.push(pvc_path(pvcs.last()))
        } else {
            rest
        }
    }
}

/// Some volume of the pod refers to a claim whose key, within the pod's own
/// namespace, is one of `paths`.
pub open spec fn mounts_qualifying(p: PodRecord, paths: Seq<(Seq<char>, Seq<char>)>) -> bool {
    exists|j: int|
        0 <= j < p.claims@.len() && (#[trigger] p.claims@[j]) is Some
            && paths.contains((p.namespace->0@, p.claims@[j]->0@))
}

/// A pod is a target when its identity is complete, it is running, it has an
/// owner (unless uncontrolled pods are allowed), and it mounts a qualifying claim.
pub open spec fn pod_selected(p: PodRecord, paths: Seq<(Seq<char>, Seq<char>)>, allow_uncontrolled: bool) -> bool {
    &&& p.namespace is Some
    &&& p.name is Some
    &&& p.phase is Some
    &&& p.phase->0@ == running_phase()
    &&& allow_uncontrolled || p.owner_count > 0
    &&& mounts_qualifying(p, paths)
}

/// The identity of a pod.
pub open spec fn pod_path(p: PodRecord) -> (Seq<char>, Seq<char>) {
    (p.namespace->0@, p.name->0@)
}

/// The identities of the selected pods, one per selected pod, in listing order.
pub open spec fn selected_of(
    pods: Seq<PodRecord>,
    paths: Seq<(Seq<char>, Seq<char>)>,
    allow_uncontrolled: bool,
) -> Seq<(Seq<char>, Seq<char>)>
    decreases pods.len(),
{
    if pods.len() == 0 {
        seq![]
    } else {
        let rest = selected_of(pods.drop_last(), paths, allow_uncontrolled);
        if pod_selected(pods.last(), paths, allow_uncontrolled) {
            rest.push(pod_path(pods.last()))
        } else {
            rest
        }
    }
}

/// The targets of a pass over a snapshot of claims and pods.
pub open spec fn targets_of(
    pvcs: Seq<PvcRecord>,
    pods: Seq<PodRecord>,
    classes: Seq<Seq<char>>,
    allow_uncontrolled: bool,
) -> Seq<(Seq<char>, Seq<char>)> {
    selected_of(pods, qualifying_paths_of(pvcs, classes), allow_uncontrolled)
}

/// A claim's key is among the qualifying keys exactly when some claim with
/// that key has a storage class that is, as a whole string, one of `classes`.
pub proof fn lemma_qualifying_membership(
    pvcs: Seq<PvcRecord>,
    classes: Seq<Seq<char>>,
    key: (Seq<char>, Seq<char>),
)
    ensures
        qualifying_paths_of(pvcs, classes).contains(key) <==> exists|i: int|
            0 <= i < pvcs.len() && pvc_qualifies(#[trigger] pvcs[i], classes) && pvc_path(pvcs[i]) == key,
    decreases pvcs.len(),
{
    if pvcs.len() > 0 {
        let init = pvcs.drop_last();
        lemma_qualifying_membership(init, classes, key);
        let rest = qualifying_paths_of(init, classes);
        if qualifying_paths_of(pvcs, classes).contains(key) {
            if rest.contains(key) {
                let i = choose|i: int|
                    0 <= i < init.len() && pvc_qualifies(#[trigger] init[i], classes) && pvc_path(init[i]) == key;
                assert(pvcs[i] == init[i]);
            } else {
                let r = rest.push(pvc_path(pvcs.last()));
                let j = choose|j: int| 0 <= j < r.len() && r[j] == key;
                assert(j == rest.len());
                assert(pvcs[pvcs.len() - 1] == pvcs.last());
            }
        }
        if exists|i: int|
            0 <= i < pvcs.len() && pvc_qualifies(#[trigger] pvcs[i], classes) && pvc_path(pvcs[i]) == key {
            let i = choose|i: int|
                0 <= i < pvcs.len() && pvc_qualifies(#[trigger] pvcs[i], classes) && pvc_path(pvcs[i]) == key;
            if i < init.len() {
                assert(init[i] == pvcs[i]);
                let j = choose|j: int| 0 <= j < rest.len() && rest[j] == key;
                if pvc_qualifies(pvcs.last(), classes) {
                    assert(rest.push(pvc_path(pvcs.last()))[j] == key);
                }
            } else {
                assert(rest.push(pvc_path(pvcs.last()))[rest.len() as int] == key);
            }
        }
    }
}

/// Taking out a pod that is not selected leaves the selection unchanged.
pub proof fn lemma_unselected_contributes_nothing(
    pods: Seq<PodRecord>,
    paths: Seq<(Seq<char>, Seq<char>)>,
    allow_uncontrolled: bool,
    i: int,
)
    requires
        0 <= i < pods.len(),
        !pod_selected(pods[i], paths, allow_uncontrolled),
    ensures
        selected_of(pods, paths, allow_uncontrolled) == selected_of(pods.remove(i), paths, allow_uncontrolled),
    decreases pods.len(),
{
    if i == pods.len() - 1 {
        assert(pods.remove(i) =~= pods.drop_last());
    } else {
        assert(pods.remove(i).drop_last() =~= pods.drop_last().remove(i));
        assert(pods.remove(i).last() == pods.last());
        lemma_unselected_contributes_nothing(pods.drop_last(), paths, allow_uncontrolled, i);
    }
}

/// When uncontrolled pods are not allowed, a pod without owners is never
/// selected, whatever its volumes: taking it out leaves the selection unchanged.
pub proof fn lemma_uncontrolled_never_selected(pods: Seq<PodRecord>, paths: Seq<(Seq<char>, Seq<char>)>, i: int)
    requires
        0 <= i < pods.len(),
        pods[i].owner_count == 0,
    ensures
        !pod_selected(pods[i], paths, false),
        selected_of(pods, paths, false) == selected_of(pods.remove(i), paths, false),
{
    lemma_unselected_contributes_nothing(pods, paths, false, i);
}

/// A pod whose phase is not `Running` is never selected: taking it out leaves
/// the selection unchanged.
pub proof fn lemma_not_running_never_selected(
    pods: Seq<PodRecord>,
    paths: Seq<(Seq<char>, Seq<char>)>,
    allow_uncontrolled: bool,
    i: int,
)
    requires
        0 <= i < pods.len(),
        !(pods[i].phase is Some && pods[i].phase->0@ == running_phase()),
    ensures
        !pod_selected(pods[i], paths, allow_uncontrolled),
        selected_of(pods, paths, allow_uncontrolled) == selected_of(pods.remove(i), paths, allow_uncontrolled),
{
    lemma_unselected_contributes_nothing(pods, paths, allow_uncontrolled, i);
}

/// A running, eligible pod with two volumes on qualifying claims adds its
/// identity to the selection exactly once.
pub proof fn lemma_selected_once(
    pods: Seq<PodRecord>,
    paths: Seq<(Seq<char>, Seq<char>)>,
    allow_uncontrolled: bool,
    pod: PodRecord,
    j1: int,
    j2: int,
)
    requires
        pod.namespace is Some,
        pod.name is Some,
        pod.phase is Some && pod.phase->0@ == running_phase(),
        allow_uncontrolled || pod.owner_count > 0,
        0 <= j1 < pod.claims@.len(),
        0 <= j2 < pod.claims@.len(),
        j1 != j2,
        pod.claims@[j1] is Some && paths.contains((pod.namespace->0@, pod.claims@[j1]->0@)),
        pod.claims@[j2] is Some && paths.contains((pod.namespace->0@, pod.claims@[j2]->0@)),
    ensures
        selected_of(pods.push(pod), paths, allow_uncontrolled) == selected_of(pods, paths, allow_uncontrolled).push(
            pod_path(pod),
        ),
{
    assert(pods.push(pod).drop_last() =~= pods);
    assert(mounts_qualifying(pod, paths));
}

/// Whether `name` is one of `classes`, by exact string comparison.
pub fn class_listed(classes: &Vec<String>, name: &String) -> (r: bool)
    ensures
        r == strings_view(classes@).contains(name@),
{
    let ghost cv = strings_view(classes@);
    let mut i: usize = 0;
    while i < classes.len()
        invariant
            i <= classes@.len(),
            cv == strings_view(classes@),
            forall|k: int| 0 <= k < i ==> cv[k] != name@,
        decreases classes@.len() - i,
    {
        if classes[i].eq(name) {
            assert(cv[i as int] == name@);
            return true;
        }
        i = i + 1;
    }
    assert(!cv.contains(name@));
    false
}

/// Whether `(namespace, name)` is one of `paths`.
pub fn path_listed(paths: &Vec<ObjectPath>, namespace: &String, name: &String) -> (r: bool)
    ensures
        r == paths_view(paths@).contains((namespace@, name@)),
{
    let ghost pv = paths_view(paths@);
    let mut i: usize = 0;
    while i < paths.len()
        invariant
            i <= paths@.len(),
            pv == paths_view(paths@),
            forall|k: int| 0 <= k < i ==> pv[k] != (namespace@, name@),
        decreases paths@.len() - i,
    {
        if paths[i].namespace.eq(namespace) && paths[i].name.eq(name) {
            assert(pv[i as int] == (namespace@, name@));
            return true;
        }
        i = i + 1;
    }
    assert(!pv.contains((namespace@, name@)));
    false
}

/// The keys of the claims whose storage class is one of `classes`.
pub fn qualifying_paths(pvcs: &Vec<PvcRecord>, classes: &Vec<String>) -> (r: Vec<ObjectPath>)
    ensures
        paths_view(r@) == qualifying_paths_of(pvcs@, strings_view(classes@)),
{
    let ghost cv = strings_view(classes@);
    let mut r: Vec<ObjectPath> = Vec::new();
    let mut i: usize = 0;
    while i < pvcs.len()
        invariant
            i <= pvcs@.len(),
            cv == strings_view(classes@),
            paths_view(r@) == qualifying_paths_of(pvcs@.take(i as int), cv),
        decreases pvcs@.len() - i,
    {
        let pvc = &pvcs[i];
        assert(pvcs@.take(i + 1).drop_last() =~= pvcs@.take(i as int));
        assert(pvcs@.take(i + 1).last() == pvcs@[i as int]);
        match (&pvc.namespace, &pvc.name, &pvc.storage_class_name) {
            (Some(ns), Some(name), Some(sc)) => {
                if class_listed(classes, sc) {
                    r.push(ObjectPath::new(ns.clone(), name.clone()));
                    assert(paths_view(r@) =~= qualifying_paths_of(pvcs@.take(i as int), cv).push(
                        pvc_path(*pvc),
                    ));
                }
            },
            _ => {},
        }
        i = i + 1;
    }
    assert(pvcs@.take(pvcs@.len() as int) =~= pvcs@);
    r
}

/// Whether some volume of `pod` refers to a claim listed in `paths` within
/// `namespace`. Stops at the first such volume.
fn mounts_listed(pod: &PodRecord, namespace: &String, paths: &Vec<ObjectPath>) -> (r: bool)
    ensures
        r == exists|j: int|
            0 <= j < pod.claims@.len() && (#[trigger] pod.claims@[j]) is Some
                && paths_view(paths@).contains((namespace@, pod.claims@[j]->0@)),
{
    let mut j: usize = 0;
    while j < pod.claims.len()
        invariant
            j <= pod.claims@.len(),
            forall|k: int|
                0 <= k < j ==> !((#[trigger] pod.claims@[k]) is Some && paths_view(paths@).contains(
                    (namespace@, pod.claims@[k]->0@),
                )),
        decreases pod.claims@.len() - j,
    {
        if let Some(claim) = &pod.claims[j] {
            if path_listed(paths, namespace, claim) {
                return true;
            }
        }
        j = j + 1;
    }
    false
}

/// Whether `pod` is a target, given the keys of the qualifying claims.
pub fn pod_is_target(pod: &PodRecord, paths: &Vec<ObjectPath>, allow_uncontrolled: bool) -> (r: bool)
    ensures
        r == pod_selected(*pod, paths_view(paths@), allow_uncontrolled),
{
    if !allow_uncontrolled && pod.owner_count == 0 {
        return false;
    }
    match (&pod.namespace, &pod.name, &pod.phase) {
        (Some(ns), Some(_), Some(phase)) => {
            let running = String::from_str("Running");
            if !phase.eq(&running) {
                return false;
            }
            mounts_listed(pod, ns, paths)
        },
        _ => false,
    }
}

/// The identities of the target pods among `pods`, one per pod, in listing order.
pub fn select_pods(pods: &Vec<PodRecord>, paths: &Vec<ObjectPath>, allow_uncontrolled: bool) -> (r: Vec<
    ObjectPath,
>)
    ensures
        paths_view(r@) == selected_of(pods@, paths_view(paths@), allow_uncontrolled),
{
    let ghost pv = paths_view(paths@);
    let mut r: Vec<ObjectPath> = Vec::new();
    let mut i: usize = 0;
    while i < pods.len()
        invariant
            i <= pods@.len(),
            pv == paths_view(paths@),
            paths_view(r@) == selected_of(pods@.take(i as int), pv, allow_uncontrolled),
        decreases pods@.len() - i,
    {
        let pod = &pods[i];
        assert(pods@.take(i + 1).drop_last() =~= pods@.take(i as int));
        assert(pods@.take(i + 1).last() == pods@[i as int]);
        if pod_is_target(pod, paths, allow_uncontrolled) {
            match (&pod.namespace, &pod.name) {
                (Some(ns), Some(name)) => {
                    r.push(ObjectPath::new(ns.clone(), name.clone()));
                    assert(paths_view(r@) =~= selected_of(pods@.take(i as int), pv, allow_uncontrolled).push(
                        pod_path(*pod),
                    ));
                },
                _ => {},
            }
        }
        i = i + 1;
    }
    assert(pods@.take(pods@.len() as int) =~= pods@);
    r
}

/// The pods to delete: running pods that mount a claim of one of `classes`,
/// each once, skipping pods without an owner unless `allow_uncontrolled`.
pub fn select_targets(
    pvcs: &Vec<PvcRecord>,
    pods: &Vec<PodRecord>,
    classes: &Vec<String>,
    allow_uncontrolled: bool,
) -> (r: Vec<ObjectPath>)
    ensures
        paths_view(r@) == targets_of(pvcs@, pods@, strings_view(classes@), allow_uncontrolled),
{
    let paths = qualifying_paths(pvcs, classes);
    select_pods(pods, &paths, allow_uncontrolled)
}

} // verus!
