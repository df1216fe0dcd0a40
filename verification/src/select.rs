//! Selection and grouping of the containers an invocation acts on.
//!
//! The runtime query returns one record per existing container, tagged with
//! its owning service's name. A container takes part in the invocation when
//! its service was named on the command line — or, when no service was
//! named, when its service appears in the configuration. The participating
//! containers are grouped by service, services in order of first
//! appearance, containers in query order; services with no participating
//! container never appear. Joining the groups with the configured
//! prerequisite declarations yields the live-service set the orchestrator
//! runs on.

use vstd::prelude::*;

use crate::graph::{contains_name, has_name, LiveService};
use crate::util::names_view;

verus! {

/// One container as reported by the runtime query: the owning service's
/// name label and the container's first name, either of which may be
/// missing.
pub struct ContainerRecord {
    pub service: Option<String>,
    pub name: Option<String>,
}

/// A record takes part in the invocation: it carries a service label and a
/// name, and its service is among those selected — every configured
/// service stands selected when none was named.
pub open spec fn record_selected(
    r: ContainerRecord,
    selected: Seq<String>,
    configured: Seq<String>,
) -> bool {
    &&& r.service is Some
    &&& r.name is Some
    &&& (has_name(selected, r.service->Some_0@) || (selected.len() == 0 && has_name(
        configured,
        r.service->Some_0@,
    )))
}

/// First group whose key is `key`, if any.
pub open spec fn find_group(gs: Seq<(Seq<char>, Seq<Seq<char>>)>, key: Seq<char>) -> Option<int>
    decreases gs.len(),
{
    if gs.len() == 0 {
        None
    } else if gs[0].0 == key {
        Some(0int)
    } else {
        match find_group(gs.drop_first(), key) {
            None => None,
            Some(i) => Some(i + 1),
        }
    }
}

/// `find_group` returns the first group with the key, or `None` when no
/// group has it.
pub proof fn lemma_find_group(gs: Seq<(Seq<char>, Seq<Seq<char>>)>, key: Seq<char>)
    ensures
        match find_group(gs, key) {
            Some(i) => 0 <= i < gs.len() && gs[i].0 == key && forall|j: int|
                0 <= j < i ==> (#[trigger] gs[j]).0 != key,
            None => forall|j: int| 0 <= j < gs.len() ==> (#[trigger] gs[j]).0 != key,
        },
    decreases gs.len(),
{
    if gs.len() > 0 && gs[0].0 != key {
        lemma_find_group(gs.drop_first(), key);
        match find_group(gs.drop_first(), key) {
            Some(i) => {
                assert forall|j: int| 0 <= j < i + 1 implies (#[trigger] gs[j]).0 != key by {
                    if j > 0 {
                        assert(gs.drop_first()[j - 1] == gs[j]);
                    }
                }
            }
            None => {
                assert forall|j: int| 0 <= j < gs.len() implies (#[trigger] gs[j]).0 != key by {
                    if j > 0 {
                        assert(gs.drop_first()[j - 1] == gs[j]);
                    }
                }
            }
        }
    }
}

/// A position holding `key` with no earlier occurrence is what
/// `find_group` returns.
pub proof fn lemma_find_group_at(gs: Seq<(Seq<char>, Seq<Seq<char>>)>, key: Seq<char>, i: int)
    requires
        0 <= i < gs.len(),
        gs[i].0 == key,
        forall|j: int| 0 <= j < i ==> (#[trigger] gs[j]).0 != key,
    ensures
        find_group(gs, key) == Some(i),
    decreases gs.len(),
{
    if gs[0].0 != key {
        assert forall|j: int| 0 <= j < i - 1 implies (#[trigger] gs.drop_first()[j]).0 != key by {
            assert(gs.drop_first()[j] == gs[j + 1]);
        }
        assert(gs.drop_first()[i - 1] == gs[i]);
        lemma_find_group_at(gs.drop_first(), key, i - 1);
    }
}

/// Adds one container name under its service's key: appended to the
/// service's existing group, or opening a new group at the end.
pub open spec fn insert_grouped(
    gs: Seq<(Seq<char>, Seq<Seq<char>>)>,
    key: Seq<char>,
    val: Seq<char>,
) -> Seq<(Seq<char>, Seq<Seq<char>>)> {
    match find_group(gs, key) {
        Some(i) => gs.update(i, (key, gs[i].1.push(val))),
        None => gs.push((key, seq![val])),
    }
}

/// The grouping of the selected records: services in order of first
/// appearance, containers in record order.
pub open spec fn spec_groups(
    records: Seq<ContainerRecord>,
    selected: Seq<String>,
    configured: Seq<String>,
) -> Seq<(Seq<char>, Seq<Seq<char>>)>
    decreases records.len(),
{
    if records.len() == 0 {
        Seq::empty()
    } else {
        let prev = spec_groups(records.drop_last(), selected, configured);
        let r = records.last();
        if record_selected(r, selected, configured) {
            insert_grouped(prev, r.service->Some_0@, r.name->Some_0@)
        } else {
            prev
        }
    }
}

/// The mathematical value of a grouped container table.
pub open spec fn groups_view(g: Seq<(String, Vec<String>)>) -> Seq<(Seq<char>, Seq<Seq<char>>)> {
    Seq::new(g.len(), |i: int| (g[i].0@, names_view(g[i].1@)))
}

/// Index of the first group keyed by `key`, if any.
fn find_group_exec(groups: &Vec<(String, Vec<String>)>, key: &String) -> (r: Option<usize>)
    ensures
        match r {
            Some(i) => find_group(groups_view(groups@), key@) == Some(i as int),
            None => find_group(groups_view(groups@), key@) is None,
        },
{
    let n = groups.len();
    let mut i: usize = 0;
    while i < n
        invariant
            i <= n,
            n == groups@.len(),
            forall|j: int| 0 <= j < i ==> (#[trigger] groups@[j]).0@ != key@,
        decreases n - i,
    {
        if groups[i].0 == *key {
            proof {
                let gv = groups_view(groups@);
                assert forall|j: int| 0 <= j < i implies (#[trigger] gv[j]).0 != key@ by {
                    assert(gv[j].0 == groups@[j].0@);
                }
                assert(gv[i as int].0 == key@);
                lemma_find_group_at(gv, key@, i as int);
            }
            return Some(i);
        }
        i = i + 1;
    }
    proof {
        let gv = groups_view(groups@);
        lemma_find_group(gv, key@);
        if let Some(k) = find_group(gv, key@) {
            assert(gv[k].0 == groups@[k].0@);
        }
    }
    None
}

/// Groups the participating containers by service: services in order of
/// first appearance, containers in query order. Every group holds at least
/// one container, and no two groups share a key.
pub fn group_containers(
    records: &Vec<ContainerRecord>,
    selected: &Vec<String>,
    configured: &Vec<String>,
) -> (groups: Vec<(String, Vec<String>)>)
    ensures
        groups_view(groups@) == spec_groups(records@, selected@, configured@),
        forall|i: int| 0 <= i < groups@.len() ==> (#[trigger] groups@[i]).1@.len() >= 1,
        forall|i: int, j: int|
            0 <= i < j < groups@.len() ==> (#[trigger] groups@[i]).0@ != (#[trigger] groups@[j]).0@,
{
    let mut groups: Vec<(String, Vec<String>)> = Vec::new();
    let n = records.len();
    let mut i: usize = 0;
    while i < n
        invariant
            i <= n,
            n == records@.len(),
            groups_view(groups@) == spec_groups(records@.subrange(0, i as int), selected@, configured@),
            forall|a: int| 0 <= a < groups@.len() ==> (#[trigger] groups@[a]).1@.len() >= 1,
            forall|a: int, b: int|
                0 <= a < b < groups@.len() ==> (#[trigger] groups@[a]).0@ != (#[trigger] groups@[b]).0@,
        decreases n - i,
    {
        proof {
            assert(records@.subrange(0, i + 1).drop_last() =~= records@.subrange(0, i as int));
            assert(records@.subrange(0, i + 1).last() == records@[i as int]);
        }
        let ghost old_groups = groups@;
        let rec = &records[i];
        let mut take = false;
        if let Some(svc) = &rec.service {
            if rec.name.is_some() {
                take = contains_name(selected, svc) || (selected.len() == 0 && contains_name(
                    configured,
                    svc,
                ));
            }
        }
        if take {
            let svc = match &rec.service {
                Some(s) => s.clone(),
                None => String::new(),
            };
            let nm = match &rec.name {
                Some(s) => s.clone(),
                None => String::new(),
            };
            match find_group_exec(&groups, &svc) {
                Some(idx) => {
                    proof {
                        lemma_find_group(groups_view(groups@), svc@);
                    }
                    groups[idx].1.push(nm);
                    proof {
                        let gv_old = groups_view(old_groups);
                        let gv_new = groups_view(groups@);
                        assert(gv_new =~= gv_old.update(
                            idx as int,
                            (svc@, gv_old[idx as int].1.push(nm@)),
                        )) by {
                            assert forall|a: int| 0 <= a < gv_new.len() implies gv_new[a]
                                == gv_old.update(
                                idx as int,
                                (svc@, gv_old[idx as int].1.push(nm@)),
                            )[a] by {
                                if a == idx as int {
                                    assert(names_view(groups@[a].1@) =~= names_view(
                                        old_groups[a].1@,
                                    ).push(nm@));
                                } else {
                                    assert(groups@[a] == old_groups[a]);
                                }
                            }
                        }
                    }
                }
                None => {
                    proof {
                        lemma_find_group(groups_view(groups@), svc@);
                    }
                    let mut one: Vec<String> = Vec::new();
                    one.push(nm);
                    groups.push((svc, one));
                    proof {
                        let gv_old = groups_view(old_groups);
                        let gv_new = groups_view(groups@);
                        let last = groups@[groups@.len() - 1];
                        assert(names_view(last.1@) =~= seq![last.1@[0]@]);
                        assert(gv_new =~= gv_old.push((last.0@, names_view(last.1@))));
                        assert forall|a: int, b: int|
                            0 <= a < b < groups@.len() implies (#[trigger] groups@[a]).0@
                            != (#[trigger] groups@[b]).0@ by {
                            if b == groups@.len() - 1 {
                                assert(gv_old[a].0 == groups@[a].0@);
                            } else {
                                assert(groups@[a] == old_groups[a]);
                                assert(groups@[b] == old_groups[b]);
                            }
                        }
                    }
                }
            }
        }
        i = i + 1;
    }
    proof {
        assert(records@.subrange(0, n as int) =~= records@);
    }
    groups
}

/// First configuration entry for `name`, if any.
pub open spec fn find_config(cfg: Seq<(String, Vec<String>)>, name: Seq<char>) -> Option<int>
    decreases cfg.len(),
{
    if cfg.len() == 0 {
        None
    } else if cfg[0].0@ == name {
        Some(0int)
    } else {
        match find_config(cfg.drop_first(), name) {
            None => None,
            Some(i) => Some(i + 1),
        }
    }
}

/// `find_config` returns the first entry with the name, or `None` when no
/// entry has it.
pub proof fn lemma_find_config(cfg: Seq<(String, Vec<String>)>, name: Seq<char>)
    ensures
        match find_config(cfg, name) {
            Some(i) => 0 <= i < cfg.len() && cfg[i].0@ == name && forall|j: int|
                0 <= j < i ==> (#[trigger] cfg[j]).0@ != name,
            None => forall|j: int| 0 <= j < cfg.len() ==> (#[trigger] cfg[j]).0@ != name,
        },
    decreases cfg.len(),
{
    if cfg.len() > 0 && cfg[0].0@ != name {
        lemma_find_config(cfg.drop_first(), name);
        match find_config(cfg.drop_first(), name) {
            Some(i) => {
                assert forall|j: int| 0 <= j < i + 1 implies (#[trigger] cfg[j]).0@ != name by {
                    if j > 0 {
                        assert(cfg.drop_first()[j - 1] == cfg[j]);
                    }
                }
            }
            None => {
                assert forall|j: int| 0 <= j < cfg.len() implies (#[trigger] cfg[j]).0@ != name by {
                    if j > 0 {
                        assert(cfg.drop_first()[j - 1] == cfg[j]);
                    }
                }
            }
        }
    }
}

/// A position holding `name` with no earlier occurrence is what
/// `find_config` returns.
proof fn lemma_find_config_at(cfg: Seq<(String, Vec<String>)>, name: Seq<char>, i: int)
    requires
        0 <= i < cfg.len(),
        cfg[i].0@ == name,
        forall|j: int| 0 <= j < i ==> (#[trigger] cfg[j]).0@ != name,
    ensures
        find_config(cfg, name) == Some(i),
    decreases cfg.len(),
{
    if cfg[0].0@ != name {
        assert forall|j: int| 0 <= j < i - 1 implies (#[trigger] cfg.drop_first()[j]).0@ != name by {
            assert(cfg.drop_first()[j] == cfg[j + 1]);
        }
        assert(cfg.drop_first()[i - 1] == cfg[i]);
        lemma_find_config_at(cfg.drop_first(), name, i - 1);
    }
}

/// The prerequisite names configured for `name`: those of its first
/// configuration entry, none when it has no entry.
fn prerequisites_for(config: &Vec<(String, Vec<String>)>, name: &String) -> (r: Vec<String>)
    ensures
        r@ == match find_config(config@, name@) {
            Some(i) => config@[i].1@,
            None => Seq::<String>::empty(),
        },
{
    let n = config.len();
    let mut i: usize = 0;
    while i < n
        invariant
            i <= n,
            n == config@.len(),
            forall|j: int| 0 <= j < i ==> (#[trigger] config@[j]).0@ != name@,
        decreases n - i,
    {
        if config[i].0 == *name {
            proof {
                lemma_find_config_at(config@, name@, i as int);
            }
            return crate::util::clone_names(&config[i].1);
        }
        i = i + 1;
    }
    proof {
        lemma_find_config(config@, name@);
        if let Some(k) = find_config(config@, name@) {
            assert(config@[k].0@ != name@);
        }
    }
    Vec::new()
}

/// Joins the grouped containers with the configured prerequisite
/// declarations into the live-service set of one invocation: one entry per
/// group, in group order, carrying the group's containers and the
/// service's configured prerequisites.
pub fn live_services(
    groups: Vec<(String, Vec<String>)>,
    config: &Vec<(String, Vec<String>)>,
) -> (live: Vec<LiveService>)
    ensures
        live@.len() == groups@.len(),
        forall|i: int| 0 <= i < groups@.len() ==> {
            let s = #[trigger] live@[i];
            &&& s.name == groups@[i].0
            &&& s.containers == groups@[i].1
            &&& s.prerequisites@ == match find_config(config@, groups@[i].0@) {
                Some(j) => config@[j].1@,
                None => Seq::<String>::empty(),
            }
        },
{
    let mut live: Vec<LiveService> = Vec::new();
    let n = groups.len();
    let ghost gsnap = groups@;
    let mut rest = groups;
    let mut i: usize = 0;
    while i < n
        invariant
            i <= n,
            n == gsnap.len(),
            rest@ == gsnap.skip(i as int),
            live@.len() == i,
            forall|a: int| 0 <= a < i ==> {
                let s = #[trigger] live@[a];
                &&& s.name == gsnap[a].0
                &&& s.containers == gsnap[a].1
                &&& s.prerequisites@ == match find_config(config@, gsnap[a].0@) {
                    Some(j) => config@[j].1@,
                    None => Seq::<String>::empty(),
                }
            },
        decreases n - i,
    {
        proof {
            assert(rest@[0] == gsnap[i as int]);
        }
        let (name, containers) = rest.remove(0);
        let prerequisites = prerequisites_for(config, &name);
        live.push(LiveService { name, containers, prerequisites });
        i = i + 1;
        proof {
            assert(rest@ =~= gsnap.skip(i as int));
        }
    }
    live
}

} // verus!
