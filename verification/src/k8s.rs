//! Coordinated checkpointing of a distributed application whose parts run
//! as containers: discovery results, label matching, and the order in
//! which containers are checkpointed.
//!
//! Talking to the cluster (listing pods, posting checkpoint requests,
//! polling their status) happens outside the library; the decisions made
//! on what comes back are verified here.

use vstd::prelude::*;

use vstd::set_lib::lemma_len_subset;

use crate::text::{spec_split, str_eq};

verus! {

/// One container found in the cluster.
pub struct DiscoveredContainer {
    pub pod_name: String,
    pub namespace: String,
    pub container_name: String,
    pub node_name: String,
}

/// A distributed application: its containers and the dependencies between
/// them, keyed by container id.
pub struct DistributedApp {
    pub name: String,
    pub containers: Vec<DiscoveredContainer>,
    pub dependencies: Vec<(String, Vec<String>)>,
}

impl DistributedApp {
    pub fn new(name: &str) -> (r: DistributedApp)
        ensures
            r.name@ == name@,
            r.containers@ == Seq::<DiscoveredContainer>::empty(),
            r.dependencies@ == Seq::<(String, Vec<String>)>::empty(),
    {
        DistributedApp {
            name: String::from_str(name),
            containers: Vec::new(),
            dependencies: Vec::new(),
        }
    }

    pub fn add_container(&mut self, container: DiscoveredContainer)
        ensures
            final(self).containers@ == old(self).containers@.push(container),
            final(self).name == old(self).name,
            final(self).dependencies == old(self).dependencies,
    {
        self.containers.push(container);
    }

    pub fn set_dependencies(&mut self, deps: Vec<(String, Vec<String>)>)
        ensures
            final(self).dependencies == deps,
            final(self).name == old(self).name,
            final(self).containers == old(self).containers,
    {
        self.dependencies = deps;
    }
}

// ------------------------------------------------------------------
// Label selectors
// ------------------------------------------------------------------

/// The value of the first label named `key`, if any.
pub open spec fn spec_label_value(
    labels: Seq<(Seq<char>, Seq<char>)>,
    key: Seq<char>,
) -> Option<Seq<char>>
    decreases labels.len(),
{
    if labels.len() == 0 {
        None
    } else if labels[0].0 == key {
        Some(labels[0].1)
    } else {
        spec_label_value(labels.drop_first(), key)
    }
}

/// One `key=value` selector pair holds of the labels.  A piece that is not
/// of that two-part shape constrains nothing.
pub open spec fn spec_pair_matches(labels: Seq<(Seq<char>, Seq<char>)>, piece: Seq<char>) -> bool {
    let kv = spec_split(piece, '=');
    kv.len() == 2 ==> spec_label_value(labels, kv[0]) == Some(kv[1])
}

/// Every comma-separated `key=value` pair of the selector holds of the
/// labels.
pub open spec fn spec_matches_labels(
    labels: Seq<(Seq<char>, Seq<char>)>,
    selector: Seq<char>,
) -> bool {
    forall|p: int|
        0 <= p < spec_split(selector, ',').len() ==> spec_pair_matches(
            labels,
            spec_split(selector, ',')[p],
        )
}

fn label_value<'a>(labels: &'a Vec<(String, String)>, key: &str) -> (r: Option<&'a String>)
    ensures
        match r {
            Some(v) => spec_label_value(labels.deep_view(), key@) == Some(v@),
            None => spec_label_value(labels.deep_view(), key@) is None,
        },
{
    let ghost lv = labels.deep_view();
    let n: usize = labels.len();
    let mut i: usize = 0;
    proof {
        assert(lv.skip(0) =~= lv);
    }
    while i < n
        invariant
            i <= n,
            n == labels@.len(),
            lv == labels.deep_view(),
            spec_label_value(lv, key@) == spec_label_value(lv.skip(i as int), key@),
        decreases n - i,
    {
        proof {
            assert(lv.skip(i as int)[0] == lv[i as int]);
        }
        if str_eq(labels[i].0.as_str(), key) {
            return Some(&labels[i].1);
        }
        proof {
            assert(lv.skip(i as int).drop_first() =~= lv.skip(i as int + 1));
        }
        i = i + 1;
    }
    proof {
        assert(lv.skip(n as int) =~= Seq::<(Seq<char>, Seq<char>)>::empty());
    }
    None
}

/// Does a pod's label set satisfy a `k=v,k2=v2` selector?  Pieces that are
/// not of the `key=value` shape constrain nothing.
pub fn matches_labels(labels: &Vec<(String, String)>, selector: &str) -> (r: bool)
    ensures
        r == spec_matches_labels(labels.deep_view(), selector@),
{
    let pieces = crate::text::split_str(selector, ',');
    let ghost pv = pieces.deep_view();
    let n: usize = pieces.len();
    let mut i: usize = 0;
    while i < n
        invariant
            i <= n,
            n == pieces@.len(),
            pv == pieces.deep_view(),
            pv == spec_split(selector@, ','),
            forall|p: int| 0 <= p < i ==> spec_pair_matches(labels.deep_view(), pv[p]),
        decreases n - i,
    {
        let kv = crate::text::split_str(pieces[i].as_str(), '=');
        if kv.len() == 2 {
            proof {
                assert(kv.deep_view()[0] == kv@[0]@);
                assert(kv.deep_view()[1] == kv@[1]@);
            }
            let ghost piece = pv[i as int];
            proof {
                assert(kv.deep_view() == spec_split(piece, '='));
                assert(kv.deep_view().len() == 2);
            }
            match label_value(labels, kv[0].as_str()) {
                Some(v) => {
                    if !str_eq(v.as_str(), kv[1].as_str()) {
                        proof {
                            assert(!spec_pair_matches(labels.deep_view(), piece));
                        }
                        return false;
                    }
                },
                None => {
                    proof {
                        assert(!spec_pair_matches(labels.deep_view(), piece));
                    }
                    return false;
                },
            }
        }
        i = i + 1;
    }
    true
}

// ------------------------------------------------------------------
// Checkpoint order
// ------------------------------------------------------------------

/// The ids of a sequence of owned strings, as a set.
pub open spec fn ids_set(s: Seq<String>) -> Set<Seq<char>>
    decreases s.len(),
{
    if s.len() == 0 {
        Set::empty()
    } else {
        ids_set(s.drop_last()).insert(s.last()@)
    }
}

pub proof fn lemma_ids_set_props(s: Seq<String>)
    ensures
        ids_set(s).finite(),
        forall|k: Seq<char>|
            ids_set(s).contains(k) <==> exists|i: int| 0 <= i < s.len() && s[i]@ == k,
    decreases s.len(),
{
    if s.len() > 0 {
        lemma_ids_set_props(s.drop_last());
        assert forall|k: Seq<char>| #[trigger]
            ids_set(s).contains(k) implies exists|i: int| 0 <= i < s.len() && s[i]@ == k by {
            if k == s.last()@ {
                assert(s[s.len() - 1]@ == k);
            } else {
                let i = choose|i: int| 0 <= i < s.drop_last().len() && s.drop_last()[i]@ == k;
                assert(s[i]@ == k);
            }
        }
        assert forall|k: Seq<char>| (exists|i: int| 0 <= i < s.len() && s[i]@ == k) implies
            ids_set(s).contains(k) by {
            let i = choose|i: int| 0 <= i < s.len() && s[i]@ == k;
            if i < s.len() - 1 {
                assert(s.drop_last()[i]@ == k);
            }
        }
    }
}

pub proof fn lemma_ids_set_push(s: Seq<String>, x: String)
    ensures
        ids_set(s.push(x)) == ids_set(s).insert(x@),
{
    assert(s.push(x).drop_last() =~= s);
    assert(s.push(x).last() == x);
}

/// All ids that a dependency table mentions, keys and values alike.
pub open spec fn table_ids(t: Seq<(Seq<char>, Seq<Seq<char>>)>) -> Set<Seq<char>>
    decreases t.len(),
{
    if t.len() == 0 {
        Set::empty()
    } else {
        table_ids(t.drop_last()).insert(t.last().0).union(t.last().1.to_set())
    }
}

pub proof fn lemma_table_ids_props(t: Seq<(Seq<char>, Seq<Seq<char>>)>)
    ensures
        table_ids(t).finite(),
        forall|i: int, k: int|
            0 <= i < t.len() && 0 <= k < t[i].1.len() ==> table_ids(t).contains(#[trigger] t[i].1[k]),
        forall|i: int| 0 <= i < t.len() ==> table_ids(t).contains(#[trigger] t[i].0),
    decreases t.len(),
{
    if t.len() > 0 {
        lemma_table_ids_props(t.drop_last());
        assert(t.last().1.to_set().finite()) by {
            vstd::seq_lib::seq_to_set_is_finite(t.last().1);
        }
        assert forall|i: int, k: int|
            0 <= i < t.len() && 0 <= k < t[i].1.len() implies table_ids(t).contains(
            #[trigger] t[i].1[k],
        ) by {
            if i < t.len() - 1 {
                assert(t.drop_last()[i] == t[i]);
            } else {
                assert(t.last().1.to_set().contains(t[i].1[k]));
            }
        }
        assert forall|i: int| 0 <= i < t.len() implies table_ids(t).contains(
            #[trigger] t[i].0,
        ) by {
            if i < t.len() - 1 {
                assert(t.drop_last()[i] == t[i]);
            }
        }
    }
}

/// No id occurs twice.
pub open spec fn no_dup_ids(s: Seq<String>) -> bool {
    forall|i: int, j: int| 0 <= i < j < s.len() ==> s[i]@ != s[j]@
}

/// Is `id` one of the ids in `s`?
fn contains_id(s: &Vec<String>, id: &str) -> (r: bool)
    ensures
        r == ids_set(s@).contains(id@),
{
    proof {
        lemma_ids_set_props(s@);
    }
    let n: usize = s.len();
    let mut i: usize = 0;
    while i < n
        invariant
            i <= n,
            n == s@.len(),
            forall|j: int| 0 <= j < i ==> s@[j]@ != id@,
        decreases n - i,
    {
        if str_eq(s[i].as_str(), id) {
            proof {
                lemma_ids_set_props(s@);
            }
            return true;
        }
        i = i + 1;
    }
    false
}

/// The dependency list recorded for exactly `id`, if any.
fn deps_of<'a>(deps: &'a Vec<(String, Vec<String>)>, id: &str) -> (r: Option<&'a Vec<String>>)
    ensures
        match r {
            Some(v) => exists|i: int|
                0 <= i < deps@.len() && deps@[i].0@ == id@ && deps@[i].1@ == v@,
            None => forall|i: int| 0 <= i < deps@.len() ==> deps@[i].0@ != id@,
        },
{
    let n: usize = deps.len();
    let mut i: usize = 0;
    while i < n
        invariant
            i <= n,
            n == deps@.len(),
            forall|j: int| 0 <= j < i ==> deps@[j].0@ != id@,
        decreases n - i,
    {
        if str_eq(deps[i].0.as_str(), id) {
            return Some(&deps[i].1);
        }
        i = i + 1;
    }
    None
}

/// Every id a dependency table mentions lies in `u`.
pub open spec fn deps_ids_in(deps: Seq<(String, Vec<String>)>, u: Set<Seq<char>>) -> bool {
    forall|i: int, k: int|
        0 <= i < deps.len() && 0 <= k < deps[i].1@.len() ==> u.contains(
            #[trigger] deps[i].1@[k]@,
        )
}

/// One depth-first visit: marks `id` visited, visits its unvisited
/// dependencies, then appends `id` to the order, so that dependencies come
/// before their dependents along the visited tree.  An already-visited id
/// is left alone.  The visited list and the order are threaded through by
/// value.
fn visit(
    id: &str,
    deps: &Vec<(String, Vec<String>)>,
    visited_in: Vec<String>,
    order_in: Vec<String>,
    Ghost(u): Ghost<Set<Seq<char>>>,
) -> (r: (Vec<String>, Vec<String>))
    requires
        u.finite(),
        u.contains(id@),
        ids_set(visited_in@).subset_of(u),
        ids_set(order_in@).subset_of(ids_set(visited_in@)),
        deps_ids_in(deps@, u),
        no_dup_ids(order_in@),
    ensures
        ids_set(r.0@).subset_of(u),
        ids_set(visited_in@).subset_of(ids_set(r.0@)),
        ids_set(r.1@).subset_of(ids_set(r.0@)),
        no_dup_ids(r.1@),
        r.1@.len() >= order_in@.len(),
        forall|i: int| 0 <= i < order_in@.len() ==> r.1@[i] == order_in@[i],
        ids_set(r.0@) == ids_set(visited_in@).union(
            ids_set(r.1@).difference(ids_set(order_in@)),
        ).insert(id@),
        !ids_set(visited_in@).contains(id@) ==> ids_set(r.1@).contains(id@),
        forall|k: Seq<char>|
            ids_set(r.1@).contains(k) && !ids_set(order_in@).contains(k) ==> !ids_set(
                visited_in@,
            ).contains(k),
    decreases u.difference(ids_set(visited_in@)).len(),
{
    proof {
        lemma_ids_set_props(visited_in@);
        lemma_ids_set_props(order_in@);
    }
    let ghost visited0 = visited_in@;
    let ghost order0 = order_in@;
    let mut visited = visited_in;
    let mut order = order_in;
    if contains_id(&visited, id) {
        proof {
            assert(ids_set(visited0).insert(id@) =~= ids_set(visited0));
            assert(ids_set(visited0).union(
                ids_set(order0).difference(ids_set(order0)),
            ).insert(id@) =~= ids_set(visited0));
        }
        return (visited, order);
    }
    visited.push(String::from_str(id));
    proof {
        lemma_ids_set_push(visited0, visited@.last());
    }
    let list: Vec<String> = match deps_of(deps, id) {
        Some(l) => crate::text::clone_string_vec(l),
        None => Vec::new(),
    };
    proof {
        assert(forall|k: int| 0 <= k < list@.len() ==> u.contains(#[trigger] list@[k]@)) by {
            if list@.len() > 0 {
                let i = choose|i: int|
                    0 <= i < deps@.len() && deps@[i].0@ == id@ && deps@[i].1@ == list@;
                assert(forall|k: int|
                    0 <= k < list@.len() ==> u.contains(#[trigger] deps@[i].1@[k]@));
                assert(forall|k: int|
                    0 <= k < list@.len() ==> list@[k]@ == deps@[i].1@[k]@);
            }
        }
    }
    {
        let ghost base = ids_set(visited0).insert(id@);
        let list_len: usize = list.len();
        let mut k: usize = 0;
        while k < list_len
            invariant
                k <= list_len,
                list_len == list@.len(),
                u.finite(),
                u.contains(id@),
                deps_ids_in(deps@, u),
                forall|j: int| 0 <= j < list@.len() ==> u.contains(#[trigger] list@[j]@),
                base == ids_set(visited0).insert(id@),
                visited0 == visited_in@,
                ids_set(visited0).subset_of(u),
                !ids_set(visited0).contains(id@),
                ids_set(order0).subset_of(ids_set(visited0)),
                no_dup_ids(order0),
                ids_set(visited@).subset_of(u),
                base.subset_of(ids_set(visited@)),
                ids_set(order@).subset_of(ids_set(visited@)),
                no_dup_ids(order@),
                order@.len() >= order0.len(),
                forall|i: int| 0 <= i < order0.len() ==> order@[i] == order0[i],
                ids_set(visited@) == base.union(
                    ids_set(order@).difference(ids_set(order0)),
                ),
                forall|x: Seq<char>|
                    ids_set(order@).contains(x) && !ids_set(order0).contains(x)
                        ==> !ids_set(visited0).contains(x) && x != id@,
            decreases list_len - k,
        {
            let ghost visited_before = visited@;
            let ghost order_before = order@;
            proof {
                // the measure shrinks: everything visited so far includes
                // id, which was fresh at entry
                assert(u.difference(ids_set(visited@)).len() < u.difference(
                    ids_set(visited0),
                ).len()) by {
                    u.lemma_set_insert_diff_decreases(ids_set(visited0), id@);
                    assert(u.difference(ids_set(visited@)).subset_of(
                        u.difference(ids_set(visited0).insert(id@)),
                    ));
                    lemma_len_subset(
                        u.difference(ids_set(visited@)),
                        u.difference(ids_set(visited0).insert(id@)),
                    );
                    assert(u.difference(ids_set(visited@)).finite()) by {
                        lemma_len_subset(u.difference(ids_set(visited@)), u);
                    }
                }
            }
            let rec = visit(list[k].as_str(), deps, visited, order, Ghost(u));
            visited = rec.0;
            order = rec.1;
            proof {
                assert(ids_set(visited@) =~= base.union(
                    ids_set(order@).difference(ids_set(order0)),
                )) by {
                    assert(ids_set(visited@) == ids_set(visited_before).union(
                        ids_set(order@).difference(ids_set(order_before)),
                    ).insert(list@[k as int]@));
                    assert(ids_set(order_before).subset_of(ids_set(order@))) by {
                        lemma_ids_set_props(order_before);
                        lemma_ids_set_props(order@);
                    }
                }
            }
            k = k + 1;
        }
    }
    let ghost order_mid = order@;
    proof {
        assert(!ids_set(order_mid).contains(id@)) by {
            if ids_set(order_mid).contains(id@) {
                if ids_set(order0).contains(id@) {
                    assert(ids_set(visited0).contains(id@));
                }
            }
        }
        lemma_ids_set_props(order_mid);
    }
    order.push(String::from_str(id));
    proof {
        lemma_ids_set_push(order_mid, order@.last());
        lemma_ids_set_props(order@);
        assert(no_dup_ids(order@)) by {
            assert(forall|i: int| 0 <= i < order_mid.len() ==> order@[i] == order_mid[i]);
            assert(order@.last()@ == id@);
            assert forall|i: int, j: int| 0 <= i < j < order@.len() implies order@[i]@
                != order@[j]@ by {
                if j == order@.len() - 1 {
                    if order@[i]@ == id@ {
                        assert(ids_set(order_mid).contains(id@));
                    }
                }
            }
        }
        assert(ids_set(visited@) =~= ids_set(visited0).union(
            ids_set(order@).difference(ids_set(order0)),
        ).insert(id@));
    }
    (visited, order)
}

/// The order in which the containers of an application are checkpointed:
/// a depth-first walk of the dependency table from each container, so that
/// along the visited tree a dependency is checkpointed before its
/// dependents.  Every container id appears exactly once.
pub fn checkpoint_order(containers: &Vec<String>, deps: &Vec<(String, Vec<String>)>) -> (r: Vec<
    String,
>)
    ensures
        no_dup_ids(r@),
        forall|i: int| 0 <= i < containers@.len() ==> ids_set(r@).contains(containers@[i]@),
{
    let ghost u_deps = table_ids(deps.deep_view());
    let ghost u = u_deps.union(ids_set(containers@));
    proof {
        lemma_table_ids_props(deps.deep_view());
        lemma_ids_set_props(containers@);
        assert(u.finite());
        assert(deps_ids_in(deps@, u)) by {
            assert forall|i: int, k: int|
                0 <= i < deps@.len() && 0 <= k < deps@[i].1@.len() implies u.contains(
                #[trigger] deps@[i].1@[k]@,
            ) by {
                assert(deps.deep_view()[i].1[k] == deps@[i].1@[k]@);
                assert(table_ids(deps.deep_view()).contains(deps.deep_view()[i].1[k]));
            }
        }
    }
    let mut visited: Vec<String> = Vec::new();
    let mut order: Vec<String> = Vec::new();
    let n: usize = containers.len();
    let mut i: usize = 0;
    while i < n
        invariant
            i <= n,
            n == containers@.len(),
            u.finite(),
            u == table_ids(deps.deep_view()).union(ids_set(containers@)),
            deps_ids_in(deps@, u),
            ids_set(visited@).subset_of(u),
            ids_set(order@).subset_of(ids_set(visited@)),
            ids_set(visited@).subset_of(ids_set(order@)),
            no_dup_ids(order@),
            forall|j: int| 0 <= j < i ==> ids_set(order@).contains(containers@[j]@),
        decreases n - i,
    {
        proof {
            lemma_ids_set_props(containers@);
            assert(u.contains(containers@[i as int]@));
        }
        let ghost visited0 = visited@;
        let ghost order0 = order@;
        let rec = visit(containers[i].as_str(), deps, visited, order, Ghost(u));
        visited = rec.0;
        order = rec.1;
        proof {
            assert(ids_set(visited@).subset_of(ids_set(order@))) by {
                assert(ids_set(visited@) == ids_set(visited0).union(
                    ids_set(order@).difference(ids_set(order0)),
                ).insert(containers@[i as int]@));
                assert(ids_set(order0).subset_of(ids_set(order@))) by {
                    lemma_ids_set_props(order0);
                    lemma_ids_set_props(order@);
                }
            }
            assert(ids_set(order@).contains(containers@[i as int]@)) by {
                if ids_set(visited0).contains(containers@[i as int]@) {
                    assert(ids_set(order0).contains(containers@[i as int]@));
                    lemma_ids_set_props(order0);
                    lemma_ids_set_props(order@);
                }
            }
            assert(forall|j: int|
                0 <= j < i ==> ids_set(order@).contains(#[trigger] containers@[j]@)) by {
                lemma_ids_set_props(order0);
                lemma_ids_set_props(order@);
            }
        }
        i = i + 1;
    }
    order
}

} // verus!
