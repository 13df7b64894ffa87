use vstd::multiset::Multiset;
use vstd::prelude::*;

use crate::group::{
    NamespaceGroup, bucket_pairs, grouped, grouped_pairs, groups_view, lemma_grouping_is_partition,
};
use crate::model::{ObjectPath, paths_view, strings_view};

verus! {

/// What one delete call returned.
pub enum DeleteOutcome {
    /// The pod object came back: the deletion was accepted.
    Accepted,
    /// A status came back that reports success.
    StatusSuccess,
    /// A status came back that reports failure: the deletion is not confirmed.
    StatusFailure,
    /// The call failed at the transport or API level.
    TransportError,
}

/// A delete call to issue: the pod and the dry-run flag to send with it.
pub struct DeleteRequest {
    pub namespace: String,
    pub name: String,
    pub dry_run: bool,
}

impl View for DeleteRequest {
    type V = (Seq<char>, Seq<char>, bool);

    open spec fn view(&self) -> (Seq<char>, Seq<char>, bool) {
        (self.namespace@, self.name@, self.dry_run)
    }
}

/// The state of a deletion pass, as a mathematical value.
pub struct PassState {
    pub targets: Seq<(Seq<char>, Seq<char>)>,
    pub dry_run: bool,
    pub next: nat,
    pub failed: bool,
    pub deleted: nat,
    pub unconfirmed: Seq<(Seq<char>, Seq<char>)>,
}

/// The pods of `groups`, group after group, each group in its own order.
pub open spec fn group_targets(groups: Seq<(Seq<char>, Seq<Seq<char>>)>) -> Seq<(Seq<char>, Seq<char>)>
    decreases groups.len(),
{
    if groups.len() == 0 {
        seq![]
    } else {
        let (ns, names) = groups.last();
        group_targets(groups.drop_last()) + names.map_values(|n: Seq<char>| (ns, n))
    }
}

proof fn lemma_bucket_targets(ns: Seq<char>, names: Seq<Seq<char>>)
    ensures
        names.map_values(|n: Seq<char>| (ns, n)).to_multiset() == bucket_pairs(ns, names),
    decreases names.len(),
{
    let m = names.map_values(|n: Seq<char>| (ns, n));
    if names.len() == 0 {
        m.to_multiset_ensures();
        assert(m.to_multiset() =~= Multiset::empty());
    } else {
        let init = names.drop_last();
        lemma_bucket_targets(ns, init);
        let mi = init.map_values(|n: Seq<char>| (ns, n));
        assert(m =~= mi.push((ns, names.last())));
        mi.to_multiset_ensures();
    }
}

proof fn lemma_group_targets_pairs(groups: Seq<(Seq<char>, Seq<Seq<char>>)>)
    ensures
        group_targets(groups).to_multiset() == grouped_pairs(groups),
    decreases groups.len(),
{
    if groups.len() == 0 {
        let e = Seq::<(Seq<char>, Seq<char>)>::empty();
        e.to_multiset_ensures();
        assert(e.to_multiset() =~= Multiset::empty());
        assert(group_targets(groups) == e);
    } else {
        let (ns, names) = groups.last();
        lemma_group_targets_pairs(groups.drop_last());
        lemma_bucket_targets(ns, names);
        vstd::seq_lib::lemma_multiset_commutative(
            group_targets(groups.drop_last()),
            names.map_values(|n: Seq<char>| (ns, n)),
        );
    }
}

/// Every selected pod gets exactly one delete call: the pods of a grouping,
/// taken group after group, are with their multiplicities the pods grouped.
pub proof fn lemma_each_target_once(paths: Seq<(Seq<char>, Seq<char>)>)
    ensures
        group_targets(grouped(paths)).to_multiset() == paths.to_multiset(),
{
    lemma_grouping_is_partition(paths);
    lemma_group_targets_pairs(grouped(paths));
}

/// A pass that has issued nothing yet.
pub open spec fn initial_state(targets: Seq<(Seq<char>, Seq<char>)>, dry_run: bool) -> PassState {
    PassState { targets, dry_run, next: 0, failed: false, deleted: 0, unconfirmed: seq![] }
}

/// The delete call a pass issues next, if any: none once a call has failed
/// or every target has been handled.
pub open spec fn pending_request(s: PassState) -> Option<(Seq<char>, Seq<char>, bool)> {
    if !s.failed && s.next < s.targets.len() {
        Some((s.targets[s.next as int].0, s.targets[s.next as int].1, s.dry_run))
    } else {
        None
    }
}

/// The state after the pending call returned `outcome`.
pub open spec fn step(s: PassState, outcome: DeleteOutcome) -> PassState {
    match outcome {
        DeleteOutcome::Accepted | DeleteOutcome::StatusSuccess => PassState {
            next: s.next + 1,
            deleted: s.deleted + 1,
            ..s
        },
        DeleteOutcome::StatusFailure => PassState {
            next: s.next + 1,
            unconfirmed: s.unconfirmed.push(s.targets[s.next as int]),
            ..s
        },
        DeleteOutcome::TransportError => PassState { failed: true, ..s },
    }
}

/// The calls a pass starting in `s` issues when its calls return `outcomes`
/// in turn; it stops when it has nothing pending or no outcome is left.
pub open spec fn issued(s: PassState, outcomes: Seq<DeleteOutcome>) -> Seq<(Seq<char>, Seq<char>, bool)>
    decreases outcomes.len(),
{
    match pending_request(s) {
        None => seq![],
        Some(req) => if outcomes.len() == 0 {
            seq![]
        } else {
            seq![req] + issued(step(s, outcomes[0]), outcomes.drop_first())
        },
    }
}

/// Every call a pass issues carries the pass's dry-run flag.
pub proof fn lemma_dry_run_forwarded(s: PassState, outcomes: Seq<DeleteOutcome>)
    ensures
        forall|k: int| 0 <= k < issued(s, outcomes).len() ==> (#[trigger] issued(s, outcomes)[k]).2 == s.dry_run,
    decreases outcomes.len(),
{
    if pending_request(s) is Some && outcomes.len() > 0 {
        let t = step(s, outcomes[0]);
        lemma_dry_run_forwarded(t, outcomes.drop_first());
        assert forall|k: int| 0 <= k < issued(s, outcomes).len() implies (#[trigger] issued(s, outcomes)[k]).2
            == s.dry_run by {
            if k > 0 {
                assert(issued(s, outcomes)[k] == issued(t, outcomes.drop_first())[k - 1]);
            }
        }
    }
}

/// A failed call ends the pass: when the call that gets the `n`th outcome
/// fails at the transport level, no more than `n` calls are issued, whatever
/// outcomes would follow.
pub proof fn lemma_transport_error_stops_pass(s: PassState, outcomes: Seq<DeleteOutcome>, n: int)
    requires
        1 <= n <= outcomes.len(),
        outcomes[n - 1] is TransportError,
    ensures
        issued(s, outcomes).len() <= n,
        issued(s, outcomes) == issued(s, outcomes.take(n)),
    decreases outcomes.len(),
{
    if pending_request(s) is Some {
        let t = step(s, outcomes[0]);
        assert(outcomes.take(n)[0] == outcomes[0]);
        assert(outcomes.take(n).drop_first() =~= outcomes.drop_first().take(n - 1));
        if n == 1 {
            assert(pending_request(t) is None);
            assert(issued(t, outcomes.drop_first()) =~= seq![]);
            assert(issued(t, outcomes.take(n).drop_first()) =~= seq![]);
        } else {
            assert(outcomes.drop_first()[n - 2] == outcomes[n - 1]);
            lemma_transport_error_stops_pass(t, outcomes.drop_first(), n - 1);
        }
    }
}

/// The result of a pass that ran to its end.
pub struct Summary {
    /// How many deletions were accepted.
    pub deleted: usize,
    /// The pods whose deletion came back with a failure status.
    pub unconfirmed: Vec<ObjectPath>,
}

/// Why a pass failed.
pub enum CoreError {
    /// Listing claims or pods failed.
    ClusterQuery,
    /// The delete call for this pod failed.
    ClusterDelete(ObjectPath),
}

/// A deletion pass: issues one delete call per target, in group order, and
/// stops at the first call that fails at the transport level.
pub struct DeletionPass {
    targets: Vec<ObjectPath>,
    dry_run: bool,
    next: usize,
    failed: bool,
    deleted: usize,
    unconfirmed: Vec<ObjectPath>,
}

impl View for DeletionPass {
    type V = PassState;

    closed spec fn view(&self) -> PassState {
        PassState {
            targets: paths_view(self.targets@),
            dry_run: self.dry_run,
            next: self.next as nat,
            failed: self.failed,
            deleted: self.deleted as nat,
            unconfirmed: paths_view(self.unconfirmed@),
        }
    }
}

impl DeletionPass {
    /// The counters stay within the targets.
    pub closed spec fn wf(&self) -> bool {
        &&& self.next <= self.targets@.len()
        &&& self.deleted <= self.next
        &&& self.failed ==> self.next < self.targets@.len()
    }

    /// Starts a pass over the pods of `groups` that sends `dry_run` with every call.
    pub fn new(groups: &Vec<NamespaceGroup>, dry_run: bool) -> (r: DeletionPass)
        ensures
            r.wf(),
            r@ == initial_state(group_targets(groups_view(groups@)), dry_run),
    {
        let ghost gv = groups_view(groups@);
        let mut targets: Vec<ObjectPath> = Vec::new();
        let mut g: usize = 0;
        while g < groups.len()
            invariant
                g <= groups@.len(),
                gv == groups_view(groups@),
                paths_view(targets@) == group_targets(gv.take(g as int)),
            decreases groups@.len() - g,
        {
            let group = &groups[g];
            let ghost names = gv[g as int].1;
            let ghost before = paths_view(targets@);
            assert(names == strings_view(group.pods@));
            let mut p: usize = 0;
            while p < group.pods.len()
                invariant
                    g < groups@.len(),
                    gv == groups_view(groups@),
                    group == groups@[g as int],
                    names == gv[g as int].1,
                    names == strings_view(group.pods@),
                    p <= group.pods@.len(),
                    paths_view(targets@) == before + names.take(p as int).map_values(
                        |n: Seq<char>| (group.namespace@, n),
                    ),
                decreases group.pods@.len() - p,
            {
                let ghost prev = targets@;
                targets.push(ObjectPath::new(group.namespace.clone(), group.pods[p].clone()));
                assert(targets@ =~= prev.push(targets@.last()));
                assert(paths_view(targets@) =~= paths_view(prev).push((group.namespace@, names[p as int])));
                assert(names.take(p + 1).map_values(|n: Seq<char>| (group.namespace@, n)) =~= names.take(
                    p as int,
                ).map_values(|n: Seq<char>| (group.namespace@, n)).push((group.namespace@, names[p as int])));
                assert(paths_view(targets@) =~= before + names.take(p + 1).map_values(
                    |n: Seq<char>| (group.namespace@, n),
                ));
                p = p + 1;
            }
            assert(names.take(p as int) =~= names);
            assert(gv.take(g + 1).drop_last() =~= gv.take(g as int));
            assert(gv.take(g + 1).last() == gv[g as int]);
            g = g + 1;
        }
        assert(gv.take(gv.len() as int) =~= gv);
        let r = DeletionPass { targets, dry_run, next: 0, failed: false, deleted: 0, unconfirmed: Vec::new() };
        assert(paths_view(r.unconfirmed@) =~= seq![]);
        r
    }

    /// The delete call to issue next, if any.
    pub fn next_request(&self) -> (r: Option<DeleteRequest>)
        requires
            self.wf(),
        ensures
            match r {
                Some(req) => pending_request(self@) == Some(req@),
                None => pending_request(self@) is None,
            },
    {
        if !self.failed && self.next < self.targets.len() {
            let t = &self.targets[self.next];
            Some(DeleteRequest { namespace: t.namespace.clone(), name: t.name.clone(), dry_run: self.dry_run })
        } else {
            None
        }
    }

    /// Records what the pending call returned.
    pub fn record(&mut self, outcome: DeleteOutcome)
        requires
            old(self).wf(),
            pending_request(old(self)@) is Some,
        ensures
            final(self).wf(),
            final(self)@ == step(old(self)@, outcome),
    {
        let total = self.targets.len();
        assert(paths_view(self.targets@).len() == total);
        assert(self.next < total);
        match outcome {
            DeleteOutcome::Accepted | DeleteOutcome::StatusSuccess => {
                self.next = self.next + 1;
                self.deleted = self.deleted + 1;
            },
            DeleteOutcome::StatusFailure => {
                let t = &self.targets[self.next];
                let copy = ObjectPath::new(t.namespace.clone(), t.name.clone());
                let ghost before = paths_view(self.unconfirmed@);
                self.unconfirmed.push(copy);
                assert(paths_view(self.unconfirmed@) =~= before.push(self@.targets[self.next as int]));
                self.next = self.next + 1;
            },
            DeleteOutcome::TransportError => {
                self.failed = true;
            },
        }
    }

    /// The result of a pass that has nothing pending: the failed call's pod if
    /// a call failed, else the number of accepted deletions and the pods whose
    /// deletion was not confirmed.
    pub fn finish(self) -> (r: Result<Summary, CoreError>)
        requires
            self.wf(),
            pending_request(self@) is None,
        ensures
            match r {
                Ok(summary) => !self@.failed && summary.deleted == self@.deleted && paths_view(
                    summary.unconfirmed@,
                ) == self@.unconfirmed,
                Err(CoreError::ClusterDelete(p)) => self@.failed && p@ == self@.targets[self@.next as int],
                Err(CoreError::ClusterQuery) => false,
            },
    {
        if self.failed {
            let t = &self.targets[self.next];
            Err(CoreError::ClusterDelete(ObjectPath::new(t.namespace.clone(), t.name.clone())))
        } else {
            Ok(Summary { deleted: self.deleted, unconfirmed: self.unconfirmed })
        }
    }
}

} // verus!
