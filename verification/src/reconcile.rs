use vstd::prelude::*;

use crate::digest::with_digest;
use crate::model::Project;
use crate::model::ProjectView;
use crate::model::opt_view;

verus! {

/// One row of a foundation's registered-project index: a project name and the
/// digest stored for it (the datastore may hold a row without a digest).
pub struct RegisteredEntry {
    pub name: String,
    pub digest: Option<String>,
}

/// Mathematical image of a `RegisteredEntry`.
pub ghost struct RegisteredEntryView {
    pub name: Seq<char>,
    pub digest: Option<Seq<char>>,
}

impl View for RegisteredEntry {
    type V = RegisteredEntryView;

    open spec fn view(&self) -> RegisteredEntryView {
        RegisteredEntryView { name: self.name@, digest: opt_view(self.digest) }
    }
}

pub open spec fn project_views(s: Seq<Project>) -> Seq<ProjectView> {
    s.map_values(|p: Project| p@)
}

pub open spec fn entry_views(s: Seq<RegisteredEntry>) -> Seq<RegisteredEntryView> {
    s.map_values(|e: RegisteredEntry| e@)
}

/// Every project record with its digest filled from its own content.
pub open spec fn digested(s: Seq<ProjectView>) -> Seq<ProjectView> {
    s.map_values(|p: ProjectView| with_digest(p))
}

pub open spec fn unique_names(s: Seq<ProjectView>) -> bool {
    forall|i: int, j: int| 0 <= i < j < s.len() ==> s[i].name != s[j].name
}

pub open spec fn unique_entry_names(s: Seq<RegisteredEntryView>) -> bool {
    forall|i: int, j: int| 0 <= i < j < s.len() ==> s[i].name != s[j].name
}

/// The "available" mapping a manifest describes: project name to record,
/// the last record winning when a name repeats.
pub open spec fn avail_map(s: Seq<ProjectView>) -> Map<Seq<char>, ProjectView>
    decreases s.len(),
{
    if s.len() == 0 {
        Map::empty()
    } else {
        avail_map(s.drop_last()).insert(s.last().name, s.last())
    }
}

/// The registered-project index as a mapping: name to stored digest.
pub open spec fn reg_map(s: Seq<RegisteredEntryView>) -> Map<Seq<char>, Option<Seq<char>>>
    decreases s.len(),
{
    if s.len() == 0 {
        Map::empty()
    } else {
        reg_map(s.drop_last()).insert(s.last().name, s.last().digest)
    }
}

/// The names that must be registered or updated: available, and either absent
/// from the registered index or stored under a different digest.
pub open spec fn to_register(
    av: Seq<ProjectView>,
    rm: Map<Seq<char>, Option<Seq<char>>>,
) -> Set<Seq<char>> {
    Set::new(
        |n: Seq<char>|
            avail_map(av).dom().contains(n) && (!rm.dom().contains(n) || rm[n] != avail_map(
                av,
            )[n].digest),
    )
}

/// The names that must be unregistered: registered but no longer available.
/// An empty manifest unregisters nothing, so that a transient empty response
/// can never wipe a foundation's projects.
pub open spec fn to_unregister(
    av: Seq<ProjectView>,
    rm: Map<Seq<char>, Option<Seq<char>>>,
) -> Set<Seq<char>> {
    if av.len() == 0 {
        Set::empty()
    } else {
        rm.dom().difference(avail_map(av).dom())
    }
}

pub proof fn lemma_avail_map_contains(s: Seq<ProjectView>, n: Seq<char>)
    ensures
        avail_map(s).dom().contains(n) <==> exists|i: int| 0 <= i < s.len() && s[i].name == n,
    decreases s.len(),
{
    if s.len() == 0 {
    } else {
        lemma_avail_map_contains(s.drop_last(), n);
        if s.last().name == n {
            assert(s[s.len() - 1].name == n);
        } else {
            if exists|i: int| 0 <= i < s.len() && s[i].name == n {
                let i = choose|i: int| 0 <= i < s.len() && s[i].name == n;
                assert(s.drop_last()[i].name == n);
            }
        }
    }
}

pub proof fn lemma_avail_map_index(s: Seq<ProjectView>, i: int)
    requires
        0 <= i < s.len(),
        forall|j: int| i < j < s.len() ==> s[j].name != s[i].name,
    ensures
        avail_map(s).dom().contains(s[i].name),
        avail_map(s)[s[i].name] == s[i],
    decreases s.len(),
{
    if i == s.len() - 1 {
    } else {
        assert(s.drop_last()[i] == s[i]);
        lemma_avail_map_index(s.drop_last(), i);
    }
}

pub proof fn lemma_reg_map_contains(s: Seq<RegisteredEntryView>, n: Seq<char>)
    ensures
        reg_map(s).dom().contains(n) <==> exists|i: int| 0 <= i < s.len() && s[i].name == n,
    decreases s.len(),
{
    if s.len() == 0 {
    } else {
        lemma_reg_map_contains(s.drop_last(), n);
        if s.last().name == n {
            assert(s[s.len() - 1].name == n);
        } else {
            if exists|i: int| 0 <= i < s.len() && s[i].name == n {
                let i = choose|i: int| 0 <= i < s.len() && s[i].name == n;
                assert(s.drop_last()[i].name == n);
            }
        }
    }
}

pub proof fn lemma_reg_map_index(s: Seq<RegisteredEntryView>, i: int)
    requires
        0 <= i < s.len(),
        forall|j: int| i < j < s.len() ==> s[j].name != s[i].name,
    ensures
        reg_map(s).dom().contains(s[i].name),
        reg_map(s)[s[i].name] == s[i].digest,
    decreases s.len(),
{
    if i == s.len() - 1 {
    } else {
        assert(s.drop_last()[i] == s[i]);
        lemma_reg_map_index(s.drop_last(), i);
    }
}

proof fn lemma_avail_map_push(s: Seq<ProjectView>, p: ProjectView)
    ensures
        avail_map(s.push(p)) == avail_map(s).insert(p.name, p),
{
    assert(s.push(p).drop_last() =~= s);
    assert(s.push(p).last() == p);
}

proof fn lemma_avail_map_replace(s: Seq<ProjectView>, k: int, pv: ProjectView)
    requires
        0 <= k < s.len(),
        forall|j: int| k < j < s.len() ==> s[j].name != s[k].name,
    ensures
        avail_map(s.remove(k)).insert(s[k].name, pv) == avail_map(s).insert(s[k].name, pv),
    decreases s.len(),
{
    let n = s[k].name;
    if k == s.len() - 1 {
        assert(s.remove(k) =~= s.drop_last());
        assert(avail_map(s.remove(k)).insert(n, pv) =~= avail_map(s).insert(n, pv));
    } else {
        let d = s.drop_last();
        let l = s.last();
        assert(s.remove(k).drop_last() =~= d.remove(k));
        assert(s.remove(k).last() == l);
        assert(d[k] == s[k]);
        assert(forall|j: int| k < j < d.len() ==> d[j].name != d[k].name);
        lemma_avail_map_replace(d, k, pv);
        assert(l.name != n);
        // insertions at distinct keys commute, so the replacement in the
        // prefix carries through the final insertion of the last element
        assert(avail_map(s.remove(k)).insert(n, pv) =~= avail_map(d.remove(k)).insert(
            n,
            pv,
        ).insert(l.name, l));
        assert(avail_map(s).insert(n, pv) =~= avail_map(d).insert(n, pv).insert(l.name, l));
        assert(avail_map(s.remove(k)).insert(n, pv) =~= avail_map(s).insert(n, pv));
    }
}

fn opt_str_eq(a: &Option<String>, b: &Option<String>) -> (r: bool)
    ensures
        r <==> opt_view(*a) == opt_view(*b),
{
    match a {
        None => match b {
            None => true,
            Some(_) => false,
        },
        Some(x) => match b {
            None => false,
            Some(y) => x.eq(y),
        },
    }
}

fn find_project(v: &Vec<Project>, name: &String) -> (r: Option<usize>)
    ensures
        match r {
            Some(k) => 0 <= k < v@.len() && v@[k as int]@.name == name@,
            None => forall|i: int| 0 <= i < v@.len() ==> v@[i]@.name != name@,
        },
{
    let mut k: usize = 0;
    while k < v.len()
        invariant
            k <= v@.len(),
            forall|i: int| 0 <= i < k ==> v@[i]@.name != name@,
        decreases v@.len() - k,
    {
        if v[k].name.eq(name) {
            return Some(k);
        }
        k += 1;
    }
    None
}

fn find_registered(reg: &Vec<RegisteredEntry>, name: &String) -> (r: Option<usize>)
    ensures
        match r {
            Some(k) => 0 <= k < reg@.len() && reg@[k as int]@.name == name@,
            None => forall|i: int| 0 <= i < reg@.len() ==> reg@[i]@.name != name@,
        },
{
    let mut k: usize = 0;
    while k < reg.len()
        invariant
            k <= reg@.len(),
            forall|i: int| 0 <= i < reg@.len() && i < k ==> reg@[i]@.name != name@,
        decreases reg@.len() - k,
    {
        if reg[k].name.eq(name) {
            return Some(k);
        }
        k += 1;
    }
    None
}

/// Builds the "available" set from a fetched manifest: computes every record's
/// content digest and keeps one record per name, the last one winning, exactly
/// as the manifest mapping `avail_map` describes.
pub fn build_available(fetched: Vec<Project>) -> (out: Vec<Project>)
    ensures
        unique_names(project_views(out@)),
        avail_map(project_views(out@)) == avail_map(digested(project_views(fetched@))),
        fetched@.len() == 0 ==> out@.len() == 0,
{
    let ghost orig: Seq<Project> = fetched@;
    let ghost dv: Seq<ProjectView> = digested(project_views(orig));
    let mut rest = fetched;
    let mut out: Vec<Project> = Vec::new();
    let ghost mut i: int = 0;
    while rest.len() > 0
        invariant
            0 <= i,
            i + rest@.len() == orig.len(),
            rest@ =~= orig.skip(i),
            dv == digested(project_views(orig)),
            dv.len() == orig.len(),
            unique_names(project_views(out@)),
            avail_map(project_views(out@)) == avail_map(dv.take(i)),
            orig.len() == 0 ==> out@.len() == 0,
        decreases rest@.len(),
    {
        let mut p = rest.remove(0);
        proof {
            assert(p == orig[i]);
            assert(rest@ =~= orig.skip(i + 1));
        }
        p.set_digest();
        proof {
            assert(p@ == with_digest(orig[i]@));
            assert(dv[i] == with_digest(orig[i]@));
        }
        let ghost old_out: Seq<ProjectView> = project_views(out@);
        match find_project(&out, &p.name) {
            Some(k) => {
                proof {
                    assert(old_out[k as int].name == p@.name);
                    lemma_avail_map_replace(old_out, k as int, p@);
                }
                let _ = out.remove(k);
                out.push(p);
                proof {
                    assert(project_views(out@) =~= old_out.remove(k as int).push(p@));
                    lemma_avail_map_push(old_out.remove(k as int), p@);
                    assert(dv.take(i + 1) =~= dv.take(i).push(dv[i]));
                    lemma_avail_map_push(dv.take(i), dv[i]);
                    assert(avail_map(project_views(out@)) == avail_map(dv.take(i + 1)));
                    assert forall|a: int, b: int|
                        0 <= a < b < project_views(out@).len() implies project_views(
                        out@,
                    )[a].name != project_views(out@)[b].name by {
                        let nw = project_views(out@);
                        let ol = old_out.remove(k as int);
                        if b < nw.len() - 1 {
                            assert(nw[a] == ol[a] && nw[b] == ol[b]);
                        } else {
                            assert(nw[b] == p@);
                            assert(nw[a] == ol[a]);
                        }
                    }
                }
            },
            None => {
                out.push(p);
                proof {
                    assert(project_views(out@) =~= old_out.push(p@));
                    lemma_avail_map_push(old_out, p@);
                    assert(dv.take(i + 1) =~= dv.take(i).push(dv[i]));
                    lemma_avail_map_push(dv.take(i), dv[i]);
                    assert forall|a: int, b: int|
                        0 <= a < b < project_views(out@).len() implies project_views(
                        out@,
                    )[a].name != project_views(out@)[b].name by {
                        let nw = project_views(out@);
                        if b < nw.len() - 1 {
                            assert(nw[a] == old_out[a] && nw[b] == old_out[b]);
                        } else {
                            assert(nw[b] == p@ && nw[a] == old_out[a]);
                        }
                    }
                }
            },
        }
        proof {
            i = i + 1;
        }
    }
    proof {
        assert(dv.take(i) =~= dv);
    }
    out
}

/// The minimal set of datastore writes that brings one foundation's
/// registered state in line with its manifest: the projects to register or
/// update, and the names to unregister.
pub struct Plan {
    pub registrations: Vec<Project>,
    pub unregistrations: Vec<String>,
}

pub open spec fn name_views(s: Seq<String>) -> Seq<Seq<char>> {
    s.map_values(|x: String| x@)
}

/// The registrations of a plan are exactly the projects that are new or
/// changed: one per name in `to_register`, each carrying the available record
/// for that name, and nothing else.
pub open spec fn plan_registers_exactly(
    av: Seq<ProjectView>,
    rm: Map<Seq<char>, Option<Seq<char>>>,
    regs: Seq<ProjectView>,
) -> bool {
    &&& forall|k: int|
        0 <= k < regs.len() ==> to_register(av, rm).contains(#[trigger] regs[k].name)
            && avail_map(av)[regs[k].name] == regs[k]
    &&& forall|n: Seq<char>|
        to_register(av, rm).contains(n) ==> exists|k: int|
            0 <= k < regs.len() && #[trigger] regs[k].name == n
    &&& forall|k1: int, k2: int| 0 <= k1 < k2 < regs.len() ==> regs[k1].name != regs[k2].name
}

/// The unregistrations of a plan are exactly the names in `to_unregister`:
/// each registered but gone from a non-empty manifest, one entry per name,
/// and nothing else.
pub open spec fn plan_unregisters_exactly(
    av: Seq<ProjectView>,
    rm: Map<Seq<char>, Option<Seq<char>>>,
    unregs: Seq<Seq<char>>,
) -> bool {
    &&& forall|k: int| 0 <= k < unregs.len() ==> to_unregister(av, rm).contains(#[trigger] unregs[k])
    &&& forall|n: Seq<char>|
        to_unregister(av, rm).contains(n) ==> exists|k: int|
            0 <= k < unregs.len() && #[trigger] unregs[k] == n
    &&& forall|k1: int, k2: int| 0 <= k1 < k2 < unregs.len() ==> unregs[k1] != unregs[k2]
}

/// The unregister pass of a plan: every registered name gone from a
/// non-empty manifest, in index order. An empty manifest unregisters nothing.
#[verifier::rlimit(50)]
fn plan_unregistrations(available: &Vec<Project>, registered: &Vec<RegisteredEntry>) -> (unregs:
    Vec<String>)
    requires
        unique_entry_names(entry_views(registered@)),
    ensures
        plan_unregisters_exactly(
            project_views(available@),
            reg_map(entry_views(registered@)),
            name_views(unregs@),
        ),
        available@.len() == 0 ==> unregs@.len() == 0,
{
    let ghost av = project_views(available@);
    let ghost rv = entry_views(registered@);
    let ghost rm = reg_map(rv);
    let mut unregs: Vec<String> = Vec::new();
    if available.len() == 0 {
        return unregs;
    }
    let mut j: usize = 0;
    while j < registered.len()
        invariant
            j <= registered@.len(),
            available@.len() > 0,
            av == project_views(available@),
            rv == entry_views(registered@),
            rm == reg_map(rv),
            av.len() == available@.len(),
            rv.len() == registered@.len(),
            unique_entry_names(rv),
            forall|k: int|
                0 <= k < unregs@.len() ==> to_unregister(av, rm).contains(#[trigger] unregs@[k]@),
            forall|t: int|
                0 <= t < j && to_unregister(av, rm).contains(#[trigger] rv[t].name) ==> exists|k: int|
                    0 <= k < unregs@.len() && unregs@[k]@ == rv[t].name,
            forall|k: int|
                0 <= k < unregs@.len() ==> exists|t: int|
                    0 <= t < j && #[trigger] unregs@[k]@ == rv[t].name,
            forall|k1: int, k2: int| 0 <= k1 < k2 < unregs@.len() ==> unregs@[k1]@ != unregs@[k2]@,
        decreases registered@.len() - j,
    {
        let name = &registered[j].name;
        proof {
            assert(rv[j as int].name == name@);
        }
        match find_project(available, name) {
            Some(idx) => {
                proof {
                    assert(av[idx as int].name == name@);
                    lemma_avail_map_contains(av, name@);
                    assert(avail_map(av).dom().contains(name@));
                    assert(!to_unregister(av, rm).contains(rv[j as int].name));
                }
            },
            None => {
                let ghost old_unregs = unregs@;
                proof {
                    assert(forall|t: int| 0 <= t < av.len() ==> av[t].name != name@);
                    lemma_avail_map_contains(av, name@);
                    lemma_reg_map_index(rv, j as int);
                    assert(to_unregister(av, rm).contains(name@));
                }
                unregs.push(name.clone());
                proof {
                    assert(unregs@ =~= old_unregs.push(*name));
                    assert(forall|k: int| 0 <= k < old_unregs.len() ==> unregs@[k] == old_unregs[k]);
                    assert(unregs@[unregs@.len() - 1]@ == rv[j as int].name);
                    assert forall|t: int|
                        0 <= t < j + 1 && to_unregister(av, rm).contains(
                            #[trigger] rv[t].name,
                        ) implies exists|k: int|
                        0 <= k < unregs@.len() && unregs@[k]@ == rv[t].name by {
                        if t < j {
                            let k0 = choose|k0: int|
                                0 <= k0 < old_unregs.len() && #[trigger] old_unregs[k0]@ == rv[t].name;
                            assert(unregs@[k0]@ == rv[t].name);
                        } else {
                            assert(unregs@[unregs@.len() - 1]@ == rv[t].name);
                        }
                    }
                    assert forall|k: int| 0 <= k < old_unregs.len() implies old_unregs[k]@
                        != name@ by {
                        let t = choose|t: int|
                            0 <= t < j && #[trigger] old_unregs[k]@ == rv[t].name;
                        assert(rv[t].name != rv[j as int].name);
                    }
                }
            },
        }
        j += 1;
    }
    proof {
        assert forall|n: Seq<char>| to_unregister(av, rm).contains(n) implies exists|k: int|
            0 <= k < unregs@.len() && #[trigger] name_views(unregs@)[k] == n by {
            assert(rm.dom().contains(n));
            lemma_reg_map_contains(rv, n);
            let t = choose|t: int| 0 <= t < rv.len() && rv[t].name == n;
            let k = choose|k: int| 0 <= k < unregs@.len() && unregs@[k]@ == rv[t].name;
            assert(name_views(unregs@)[k] == n);
        }
    }
    unregs
}

/// The register pass of a plan: every available project that is new or whose
/// stored digest differs, in manifest order; an unchanged project is not
/// touched. Consumes the available list, moving the chosen records out.
#[verifier::rlimit(100)]
fn plan_registrations(available: Vec<Project>, registered: &Vec<RegisteredEntry>) -> (regs: Vec<
    Project>)
    requires
        unique_names(project_views(available@)),
        unique_entry_names(entry_views(registered@)),
    ensures
        plan_registers_exactly(
            project_views(available@),
            reg_map(entry_views(registered@)),
            project_views(regs@),
        ),
{
    let ghost av = project_views(available@);
    let ghost rv = entry_views(registered@);
    let ghost rm = reg_map(rv);
    let ghost orig_avail: Seq<Project> = available@;
    let mut rest = available;
    let mut regs: Vec<Project> = Vec::new();
    let ghost mut i: int = 0;
    while rest.len() > 0
        invariant
            0 <= i,
            i + rest@.len() == orig_avail.len(),
            rest@ =~= orig_avail.skip(i),
            av == project_views(orig_avail),
            rv == entry_views(registered@),
            rm == reg_map(rv),
            av.len() == orig_avail.len(),
            rv.len() == registered@.len(),
            unique_names(av),
            unique_entry_names(rv),
            forall|k: int|
                0 <= k < regs@.len() ==> to_register(av, rm).contains(#[trigger] regs@[k]@.name)
                    && avail_map(av)[regs@[k]@.name] == regs@[k]@,
            forall|t: int|
                0 <= t < i && to_register(av, rm).contains(#[trigger] av[t].name) ==> exists|k: int|
                    0 <= k < regs@.len() && regs@[k]@.name == av[t].name,
            forall|k: int|
                0 <= k < regs@.len() ==> exists|t: int|
                    0 <= t < i && #[trigger] regs@[k]@.name == av[t].name,
            forall|k1: int, k2: int| 0 <= k1 < k2 < regs@.len() ==> regs@[k1]@.name != regs@[k2]@.name,
        decreases rest@.len(),
    {
        let p = rest.remove(0);
        proof {
            assert(p == orig_avail[i]);
            assert(rest@ =~= orig_avail.skip(i + 1));
            assert(p@ == av[i]);
            lemma_avail_map_index(av, i);
        }
        let needs = match find_registered(registered, &p.name) {
            None => {
                proof {
                    lemma_reg_map_contains(rv, p@.name);
                    assert(to_register(av, rm).contains(av[i].name));
                }
                true
            },
            Some(k) => {
                proof {
                    assert(rv[k as int].name == p@.name);
                    lemma_reg_map_index(rv, k as int);
                    assert(rm[p@.name] == rv[k as int].digest);
                }
                let differs = !opt_str_eq(&registered[k].digest, &p.digest);
                proof {
                    assert(rv[k as int] == registered@[k as int]@);
                    assert(rv[k as int].digest == opt_view(registered@[k as int].digest));
                    assert(p@.digest == opt_view(p.digest));
                    assert(differs <==> to_register(av, rm).contains(av[i].name));
                }
                differs
            },
        };
        if needs {
            let ghost old_regs = regs@;
            proof {
                assert(to_register(av, rm).contains(av[i].name));
            }
            regs.push(p);
            proof {
                assert(regs@ =~= old_regs.push(p));
                assert(forall|k: int| 0 <= k < old_regs.len() ==> regs@[k] == old_regs[k]);
                assert(regs@[regs@.len() - 1]@.name == av[i].name);
                assert forall|t: int|
                    0 <= t < i + 1 && to_register(av, rm).contains(
                        #[trigger] av[t].name,
                    ) implies exists|k: int|
                    0 <= k < regs@.len() && regs@[k]@.name == av[t].name by {
                    if t < i {
                        let k0 = choose|k0: int|
                            0 <= k0 < old_regs.len() && #[trigger] old_regs[k0]@.name
                                == av[t].name;
                        assert(regs@[k0]@.name == av[t].name);
                    } else {
                        assert(regs@[regs@.len() - 1]@.name == av[t].name);
                    }
                }
                assert forall|k: int| 0 <= k < old_regs.len() implies old_regs[k]@.name
                    != av[i].name by {
                    let t = choose|t: int|
                        0 <= t < i && #[trigger] old_regs[k]@.name == av[t].name;
                    assert(av[t].name != av[i].name);
                }
            }
        } else {
            proof {
                assert(!to_register(av, rm).contains(av[i].name));
            }
        }
        proof {
            i = i + 1;
        }
    }
    proof {
        assert forall|n: Seq<char>| to_register(av, rm).contains(n) implies exists|k: int|
            0 <= k < regs@.len() && #[trigger] project_views(regs@)[k].name == n by {
            lemma_avail_map_contains(av, n);
            let t = choose|t: int| 0 <= t < av.len() && av[t].name == n;
            let k = choose|k: int| 0 <= k < regs@.len() && regs@[k]@.name == av[t].name;
            assert(project_views(regs@)[k].name == n);
        }
    }
    regs
}

/// Plans one reconciliation pass for a foundation. Every available project
/// that is absent from the registered index, or stored under a different
/// digest, is registered; every registered name gone from a non-empty
/// manifest is unregistered; a project whose digest is unchanged triggers no
/// call at all. An empty manifest never unregisters anything.
pub fn plan_foundation(available: Vec<Project>, registered: &Vec<RegisteredEntry>) -> (plan: Plan)
    requires
        unique_names(project_views(available@)),
        unique_entry_names(entry_views(registered@)),
    ensures
        plan_registers_exactly(
            project_views(available@),
            reg_map(entry_views(registered@)),
            project_views(plan.registrations@),
        ),
        plan_unregisters_exactly(
            project_views(available@),
            reg_map(entry_views(registered@)),
            name_views(plan.unregistrations@),
        ),
        available@.len() == 0 ==> plan.unregistrations@.len() == 0,
{
    let unregistrations = plan_unregistrations(&available, registered);
    let registrations = plan_registrations(available, registered);
    Plan { registrations, unregistrations }
}

/// The registered index after a pass whose writes all succeeded: for a
/// non-empty manifest, exactly the available names, each stored under its
/// fresh digest (an unchanged name keeps the digest it already had, which is
/// the same value); an empty manifest leaves the index as it was.
pub open spec fn apply_plan(
    av: Seq<ProjectView>,
    rm: Map<Seq<char>, Option<Seq<char>>>,
) -> Map<Seq<char>, Option<Seq<char>>> {
    if av.len() == 0 {
        rm
    } else {
        Map::new(
            |n: Seq<char>| avail_map(av).dom().contains(n),
            |n: Seq<char>| avail_map(av)[n].digest,
        )
    }
}

/// No-op stability: once a pass has fully applied, planning again against the
/// same manifest finds nothing to register and nothing to unregister, so the
/// second run issues zero datastore writes.
pub proof fn lemma_noop_stability(av: Seq<ProjectView>, rm: Map<Seq<char>, Option<Seq<char>>>)
    ensures
        to_register(av, apply_plan(av, rm)) =~= Set::<Seq<char>>::empty(),
        to_unregister(av, apply_plan(av, rm)) =~= Set::<Seq<char>>::empty(),
{
    if av.len() == 0 {
        assert forall|n: Seq<char>| !to_register(av, apply_plan(av, rm)).contains(n) by {
            lemma_avail_map_contains(av, n);
        }
    } else {
        assert forall|n: Seq<char>| !to_register(av, apply_plan(av, rm)).contains(n) by {
            if avail_map(av).dom().contains(n) {
                assert(apply_plan(av, rm)[n] == avail_map(av)[n].digest);
            }
        }
    }
}

} // verus!
