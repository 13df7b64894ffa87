use vstd::multiset::Multiset;
use vstd::prelude::*;

use crate::model::{ObjectPath, paths_view, strings_view};

verus! {

broadcast use vstd::multiset::group_multiset_axioms;

/// The pods of one namespace that a pass deletes, in selection order.
pub struct NamespaceGroup {
    pub namespace: String,
    pub pods: Vec<String>,
}

impl View for NamespaceGroup {
    type V = (Seq<char>, Seq<Seq<char>>);

    open spec fn view(&self) -> (Seq<char>, Seq<Seq<char>>) {
        (self.namespace@, strings_view(self.pods@))
    }
}

/// The contents of a sequence of groups.
pub open spec fn groups_view(groups: Seq<NamespaceGroup>) -> Seq<(Seq<char>, Seq<Seq<char>>)> {
    groups.map_values(|g: NamespaceGroup| g@)
}

/// Some group of `groups` is for `ns`.
pub open spec fn has_bucket(groups: Seq<(Seq<char>, Seq<Seq<char>>)>, ns: Seq<char>) -> bool {
    exists|k: int| 0 <= k < groups.len() && (#[trigger] groups[k]).0 == ns
}

/// No two groups are for the same namespace.
pub open spec fn distinct_buckets(groups: Seq<(Seq<char>, Seq<Seq<char>>)>) -> bool {
    forall|a: int, b: int|
        0 <= a < groups.len() && 0 <= b < groups.len() && a != b ==> (#[trigger] groups[a]).0 != (
        #[trigger] groups[b]).0
}

/// `paths` grouped by namespace: one group per namespace, in order of first
/// appearance; each group holds the names of its namespace in input order.
pub open spec fn grouped(paths: Seq<(Seq<char>, Seq<char>)>) -> Seq<(Seq<char>, Seq<Seq<char>>)>
    decreases paths.len(),
{
    if paths.len() == 0 {
        seq![]
    } else {
        let gs = grouped(paths.drop_last());
        let (ns, name) = paths.last();
        if has_bucket(gs, ns) {
            let k = choose|k: int| 0 <= k < gs.len() && (#[trigger] gs[k]).0 == ns;
            gs.update(k, (ns, gs[k].1.push(name)))
        } else {
            gs.push((ns, seq![name]))
        }
    }
}

/// The (namespace, name) pairs that one group stands for.
pub open spec fn bucket_pairs(ns: Seq<char>, names: Seq<Seq<char>>) -> Multiset<(Seq<char>, Seq<char>)>
    decreases names.len(),
{
    if names.len() == 0 {
        Multiset::empty()
    } else {
        bucket_pairs(ns, names.drop_last()).insert((ns, names.last()))
    }
}

/// The (namespace, name) pairs that a sequence of groups stands for.
pub open spec fn grouped_pairs(groups: Seq<(Seq<char>, Seq<Seq<char>>)>) -> Multiset<(Seq<char>, Seq<char>)>
    decreases groups.len(),
{
    if groups.len() == 0 {
        Multiset::empty()
    } else {
        grouped_pairs(groups.drop_last()).add(bucket_pairs(groups.last().0, groups.last().1))
    }
}

proof fn lemma_grouped_distinct(paths: Seq<(Seq<char>, Seq<char>)>)
    ensures
        distinct_buckets(grouped(paths)),
    decreases paths.len(),
{
    if paths.len() > 0 {
        lemma_grouped_distinct(paths.drop_last());
    }
}

/// Replacing one group changes the pairs by that group's pairs alone.
proof fn lemma_grouped_pairs_update(
    groups: Seq<(Seq<char>, Seq<Seq<char>>)>,
    k: int,
    g: (Seq<char>, Seq<Seq<char>>),
)
    requires
        0 <= k < groups.len(),
    ensures
        forall|v: (Seq<char>, Seq<char>)|
            #[trigger] grouped_pairs(groups.update(k, g)).count(v) + bucket_pairs(groups[k].0, groups[k].1).count(v)
                == grouped_pairs(groups).count(v) + bucket_pairs(g.0, g.1).count(v),
    decreases groups.len(),
{
    let u = groups.update(k, g);
    let init = groups.drop_last();
    if k == groups.len() - 1 {
        assert(u.drop_last() =~= init);
        assert(u.last() == g);
    } else {
        assert(u.drop_last() =~= init.update(k, g));
        assert(u.last() == groups.last());
        assert(init[k] == groups[k]);
        lemma_grouped_pairs_update(init, k, g);
    }
    assert forall|v: (Seq<char>, Seq<char>)|
        #[trigger] grouped_pairs(u).count(v) + bucket_pairs(groups[k].0, groups[k].1).count(v)
            == grouped_pairs(groups).count(v) + bucket_pairs(g.0, g.1).count(v) by {
        assert(grouped_pairs(u).count(v) == grouped_pairs(u.drop_last()).count(v) + bucket_pairs(
            u.last().0,
            u.last().1,
        ).count(v));
        assert(grouped_pairs(groups).count(v) == grouped_pairs(init).count(v) + bucket_pairs(
            groups.last().0,
            groups.last().1,
        ).count(v));
        if k != groups.len() - 1 {
            assert(grouped_pairs(init.update(k, g)).count(v) + bucket_pairs(init[k].0, init[k].1).count(v)
                == grouped_pairs(init).count(v) + bucket_pairs(g.0, g.1).count(v));
        }
    }
}

/// Grouping is a lossless partition: every group is for a namespace of its
/// own, and the (namespace, name) pairs the groups stand for are, with their
/// multiplicities, exactly the pairs that were grouped.
pub proof fn lemma_grouping_is_partition(paths: Seq<(Seq<char>, Seq<char>)>)
    ensures
        distinct_buckets(grouped(paths)),
        grouped_pairs(grouped(paths)) == paths.to_multiset(),
    decreases paths.len(),
{
    lemma_grouped_distinct(paths);
    if paths.len() > 0 {
        let init = paths.drop_last();
        lemma_grouping_is_partition(init);
        let gs = grouped(init);
        let (ns, name) = paths.last();
        assert(paths =~= init.push(paths.last()));
        init.to_multiset_ensures();
        if has_bucket(gs, ns) {
            let k = choose|k: int| 0 <= k < gs.len() && (#[trigger] gs[k]).0 == ns;
            let g = (ns, gs[k].1.push(name));
            lemma_grouped_pairs_update(gs, k, g);
            assert(g.1.drop_last() =~= gs[k].1);
            assert(bucket_pairs(ns, g.1) == bucket_pairs(ns, gs[k].1).insert((ns, name)));
            assert(grouped(paths) == gs.update(k, g));
            assert forall|v: (Seq<char>, Seq<char>)|
                #[trigger] grouped_pairs(gs.update(k, g)).count(v) == grouped_pairs(gs).insert((ns, name)).count(v) by {
                assert(grouped_pairs(gs.update(k, g)).count(v) + bucket_pairs(gs[k].0, gs[k].1).count(v)
                    == grouped_pairs(gs).count(v) + bucket_pairs(g.0, g.1).count(v));
                assert(bucket_pairs(ns, g.1).count(v) == bucket_pairs(ns, gs[k].1).count(v) + Multiset::singleton(
                    (ns, name),
                ).count(v));
            }
            assert(grouped_pairs(gs.update(k, g)) =~= grouped_pairs(gs).insert((ns, name)));
        } else {
            let g = (ns, seq![name]);
            assert(gs.push(g).drop_last() =~= gs);
            assert(g.1.drop_last() =~= Seq::<Seq<char>>::empty());
            assert(bucket_pairs(ns, g.1.drop_last()) == Multiset::<(Seq<char>, Seq<char>)>::empty());
            assert(bucket_pairs(ns, g.1) =~= Multiset::empty().insert((ns, name)));
            assert(grouped(paths) == gs.push(g));
            assert(grouped_pairs(gs.push(g)) =~= grouped_pairs(gs).insert((ns, name)));
        }
        assert(paths.to_multiset() == init.to_multiset().insert(paths.last())) by {
            init.to_multiset_ensures();
        }
        assert(grouped_pairs(grouped(paths)) =~= paths.to_multiset());
    } else {
        paths.to_multiset_ensures();
        assert(paths.to_multiset() =~= Multiset::empty());
    }
}

/// Partitions `paths` by namespace, keeping the input order within each group.
pub fn group_by_namespace(paths: &Vec<ObjectPath>) -> (r: Vec<NamespaceGroup>)
    ensures
        groups_view(r@) == grouped(paths_view(paths@)),
{
    let ghost pv = paths_view(paths@);
    let mut r: Vec<NamespaceGroup> = Vec::new();
    let mut i: usize = 0;
    while i < paths.len()
        invariant
            i <= paths@.len(),
            pv == paths_view(paths@),
            groups_view(r@) == grouped(pv.take(i as int)),
        decreases paths@.len() - i,
    {
        let ghost gs = groups_view(r@);
        proof {
            assert(pv.take(i + 1).drop_last() =~= pv.take(i as int));
            assert(pv.take(i + 1).last() == pv[i as int]);
            lemma_grouped_distinct(pv.take(i as int));
        }
        let ns = &paths[i].namespace;
        let name = &paths[i].name;
        let mut k: usize = 0;
        let mut found = false;
        while k < r.len() && !found
            invariant
                k <= r@.len(),
                gs == groups_view(r@),
                forall|a: int| 0 <= a < k ==> (#[trigger] gs[a]).0 != ns@,
                found ==> k < r@.len() && gs[k as int].0 == ns@,
            decreases r@.len() - k + (if found { 0int } else { 1int }),
        {
            if r[k].namespace.eq(ns) {
                found = true;
            } else {
                k = k + 1;
            }
        }
        if found {
            proof {
                assert(has_bucket(gs, ns@));
                let c = choose|c: int| 0 <= c < gs.len() && (#[trigger] gs[c]).0 == ns@;
                assert(c == k);
            }
            let ghost before = r@;
            let mut g = r.remove(k);
            assert(g@ == gs[k as int]);
            g.pods.push(name.clone());
            assert(strings_view(g.pods@) =~= gs[k as int].1.push(name@));
            r.insert(k, g);
            assert(r@ =~= before.update(k as int, g));
            assert(groups_view(r@) =~= gs.update(k as int, (ns@, gs[k as int].1.push(name@))));
        } else {
            assert(!has_bucket(gs, ns@));
            let mut pods: Vec<String> = Vec::new();
            pods.push(name.clone());
            r.push(NamespaceGroup { namespace: ns.clone(), pods });
            assert(strings_view(pods@) =~= seq![name@]);
            assert(groups_view(r@) =~= gs.push((ns@, seq![name@])));
        }
        i = i + 1;
    }
    assert(pv.take(pv.len() as int) =~= pv);
    r
}

} // verus!
