use crate::paths::{file_name, lookup_path};
use crate::uutils::UutilsExperiment;
use crate::worker::{ErrorKind, HostOp};
use vstd::prelude::*;

verus! {

/// The paths that a sequence of requests replaced with symlinks.
pub open spec fn linked_paths(ops: Seq<HostOp>) -> Set<Seq<char>> {
    Set::new(
        |p: Seq<char>|
            exists|i: int| 0 <= i < ops.len() && #[trigger] ops[i] is Link && ops[i]->Link_path == p,
    )
}

/// The paths that a sequence of requests restored.
pub open spec fn restored_paths(ops: Seq<HostOp>) -> Set<Seq<char>> {
    Set::new(
        |p: Seq<char>|
            exists|i: int| 0 <= i < ops.len() && #[trigger] ops[i] is Restore && ops[i]->Restore_path
                == p,
    )
}

/// The lookup answers recorded by a walk over `entries`, in order.
pub open spec fn walk_answers(entries: Seq<Seq<char>>, ops: Seq<HostOp>) -> Seq<
    Result<Seq<char>, ErrorKind>,
>
    decreases entries.len(),
{
    if entries.len() == 0 || ops.len() < 2 {
        Seq::empty()
    } else {
        seq![ops[0]->Lookup_answer] + walk_answers(
            entries.drop_first(),
            ops.subrange(2, ops.len() as int),
        )
    }
}

/// The paths that the resolution rule gives for `entries` with lookup
/// `answers`.
pub open spec fn resolved_paths(
    entries: Seq<Seq<char>>,
    answers: Seq<Result<Seq<char>, ErrorKind>>,
) -> Set<Seq<char>> {
    Set::new(
        |p: Seq<char>|
            exists|k: int|
                0 <= k < entries.len() && k < answers.len() && #[trigger] lookup_path(
                    file_name(entries[k]),
                    answers[k],
                ) == Some(p),
    )
}

/// What the requests can change on a host: the installed packages, and
/// which paths are replaced by a symlink (to which target). A path absent
/// from `links` holds its original content.
pub struct HostState {
    pub packages: Set<Seq<char>>,
    pub links: Map<Seq<char>, Seq<char>>,
}

/// The host after one recorded request; a failed one changes nothing.
pub open spec fn apply(s: HostState, op: HostOp) -> HostState {
    match op {
        HostOp::Install { package, ok } => if ok {
            HostState { packages: s.packages.insert(package), links: s.links }
        } else {
            s
        },
        HostOp::Remove { package, ok } => if ok {
            HostState { packages: s.packages.remove(package), links: s.links }
        } else {
            s
        },
        HostOp::Link { target, path, ok } => if ok {
            HostState { packages: s.packages, links: s.links.insert(path, target) }
        } else {
            s
        },
        HostOp::Restore { path, ok } => if ok {
            HostState { packages: s.packages, links: s.links.remove(path) }
        } else {
            s
        },
        _ => s,
    }
}

/// The host after a sequence of recorded requests, in order.
pub open spec fn apply_all(s: HostState, ops: Seq<HostOp>) -> HostState
    decreases ops.len(),
{
    if ops.len() == 0 {
        s
    } else {
        apply_all(apply(s, ops[0]), ops.drop_first())
    }
}

proof fn lemma_apply_concat(s: HostState, a: Seq<HostOp>, b: Seq<HostOp>)
    ensures
        apply_all(s, a + b) == apply_all(apply_all(s, a), b),
    decreases a.len(),
{
    if a.len() == 0 {
        assert(a + b =~= b);
    } else {
        assert((a + b).drop_first() =~= a.drop_first() + b);
        assert((a + b)[0] == a[0]);
        lemma_apply_concat(apply(s, a[0]), a.drop_first(), b);
    }
}

proof fn lemma_resolved_cons(entries: Seq<Seq<char>>, answers: Seq<Result<Seq<char>, ErrorKind>>)
    requires
        entries.len() > 0,
        answers.len() > 0,
        lookup_path(file_name(entries[0]), answers[0]) is Some,
    ensures
        resolved_paths(entries, answers) == resolved_paths(
            entries.drop_first(),
            answers.drop_first(),
        ).insert(lookup_path(file_name(entries[0]), answers[0])->Some_0),
{
    let p0 = lookup_path(file_name(entries[0]), answers[0])->Some_0;
    let rest = resolved_paths(entries.drop_first(), answers.drop_first());
    assert forall|p: Seq<char>| resolved_paths(entries, answers).contains(p) implies rest.insert(
        p0,
    ).contains(p) by {
        let k = choose|k: int|
            0 <= k < entries.len() && k < answers.len() && #[trigger] lookup_path(
                file_name(entries[k]),
                answers[k],
            ) == Some(p);
        if k > 0 {
            assert(entries.drop_first()[k - 1] == entries[k]);
            assert(answers.drop_first()[k - 1] == answers[k]);
        }
    }
    assert forall|p: Seq<char>| rest.insert(p0).contains(p) implies resolved_paths(
        entries,
        answers,
    ).contains(p) by {
        if p != p0 {
            let k = choose|k: int|
                0 <= k < entries.drop_first().len() && k < answers.drop_first().len()
                    && #[trigger] lookup_path(
                    file_name(entries.drop_first()[k]),
                    answers.drop_first()[k],
                ) == Some(p);
            assert(lookup_path(file_name(entries[k + 1]), answers[k + 1]) == Some(p));
        }
    }
    assert(resolved_paths(entries, answers) =~= rest.insert(p0));
}

proof fn lemma_walk_shape(e: UutilsExperiment, entries: Seq<Seq<char>>, ops: Seq<HostOp>, restoring: bool)
    requires
        e.walk(entries, ops, restoring) == Some(true),
        entries.len() > 0,
    ensures
        ops.len() >= 2,
        e.step_fits(entries[0], ops[0], ops[1], restoring),
        restoring ==> (ops[1] == (HostOp::Restore {
            path: lookup_path(file_name(entries[0]), ops[0]->Lookup_answer)->Some_0,
            ok: true,
        })),
        !restoring ==> (ops[1] == (HostOp::Link {
            target: e.link_target(entries[0]),
            path: lookup_path(file_name(entries[0]), ops[0]->Lookup_answer)->Some_0,
            ok: true,
        })),
        e.walk(entries.drop_first(), ops.subrange(2, ops.len() as int), restoring) == Some(true),
        walk_answers(entries, ops)[0] == ops[0]->Lookup_answer,
        walk_answers(entries, ops).drop_first() == walk_answers(
            entries.drop_first(),
            ops.subrange(2, ops.len() as int),
        ),
        walk_answers(entries, ops).len() > 0,
{
    let w = walk_answers(entries, ops);
    assert(w.drop_first() =~= walk_answers(entries.drop_first(), ops.subrange(2, ops.len() as int)));
}

proof fn lemma_link_walk(e: UutilsExperiment, s: HostState, entries: Seq<Seq<char>>, ops: Seq<HostOp>)
    requires
        e.walk(entries, ops, false) == Some(true),
    ensures
        apply_all(s, ops).packages == s.packages,
        apply_all(s, ops).links.dom() == s.links.dom() + resolved_paths(
            entries,
            walk_answers(entries, ops),
        ),
        forall|k: Seq<char>|
            s.links.dom().contains(k) && !resolved_paths(entries, walk_answers(entries, ops)).contains(
                k,
            ) ==> #[trigger] apply_all(s, ops).links[k] == s.links[k],
    decreases entries.len(),
{
    let a = walk_answers(entries, ops);
    if entries.len() == 0 {
        assert(resolved_paths(entries, a) =~= Set::<Seq<char>>::empty());
        assert(s.links.dom() + Set::<Seq<char>>::empty() =~= s.links.dom());
    } else {
        lemma_walk_shape(e, entries, ops, false);
        let rest = ops.subrange(2, ops.len() as int);
        let p0 = lookup_path(file_name(entries[0]), ops[0]->Lookup_answer)->Some_0;
        let s1 = apply(s, ops[1]);
        assert(apply(s, ops[0]) == s);
        assert(ops.drop_first().drop_first() =~= rest);
        assert(ops.drop_first()[0] == ops[1]);
        assert(apply_all(s, ops) == apply_all(s, ops.drop_first()));
        assert(apply_all(s, ops.drop_first()) == apply_all(s1, ops.drop_first().drop_first()));
        assert(apply_all(s, ops) == apply_all(s1, rest));
        lemma_link_walk(e, s1, entries.drop_first(), rest);
        lemma_resolved_cons(entries, a);
        assert(apply_all(s, ops).links.dom() =~= s.links.dom() + resolved_paths(entries, a));
    }
}

proof fn lemma_restore_walk(e: UutilsExperiment, s: HostState, entries: Seq<Seq<char>>, ops: Seq<HostOp>)
    requires
        e.walk(entries, ops, true) == Some(true),
    ensures
        apply_all(s, ops).packages == s.packages,
        apply_all(s, ops).links == s.links.remove_keys(
            resolved_paths(entries, walk_answers(entries, ops)),
        ),
    decreases entries.len(),
{
    let a = walk_answers(entries, ops);
    if entries.len() == 0 {
        assert(resolved_paths(entries, a) =~= Set::<Seq<char>>::empty());
        assert(s.links.remove_keys(Set::<Seq<char>>::empty()) =~= s.links);
    } else {
        lemma_walk_shape(e, entries, ops, true);
        let rest = ops.subrange(2, ops.len() as int);
        let p0 = lookup_path(file_name(entries[0]), ops[0]->Lookup_answer)->Some_0;
        let s1 = apply(s, ops[1]);
        assert(apply(s, ops[0]) == s);
        assert(ops.drop_first().drop_first() =~= rest);
        assert(ops.drop_first()[0] == ops[1]);
        assert(apply_all(s, ops) == apply_all(s, ops.drop_first()));
        assert(apply_all(s, ops.drop_first()) == apply_all(s1, ops.drop_first().drop_first()));
        assert(apply_all(s, ops) == apply_all(s1, rest));
        lemma_restore_walk(e, s1, entries.drop_first(), rest);
        lemma_resolved_cons(entries, a);
        assert(s1.links.remove_keys(resolved_paths(entries.drop_first(), a.drop_first()))
            =~= s.links.remove_keys(resolved_paths(entries, a)));
    }
}

proof fn lemma_walk_paths(e: UutilsExperiment, entries: Seq<Seq<char>>, ops: Seq<HostOp>, restoring: bool)
    requires
        e.walk(entries, ops, restoring) == Some(true),
    ensures
        restoring ==> restored_paths(ops) == resolved_paths(entries, walk_answers(entries, ops)),
        !restoring ==> linked_paths(ops) == resolved_paths(entries, walk_answers(entries, ops)),
    decreases entries.len(),
{
    let a = walk_answers(entries, ops);
    if entries.len() == 0 {
        assert(ops.len() == 0);
        assert(resolved_paths(entries, a) =~= Set::<Seq<char>>::empty());
        assert(restored_paths(ops) =~= Set::<Seq<char>>::empty());
        assert(linked_paths(ops) =~= Set::<Seq<char>>::empty());
    } else {
        lemma_walk_shape(e, entries, ops, restoring);
        let rest = ops.subrange(2, ops.len() as int);
        lemma_walk_paths(e, entries.drop_first(), rest, restoring);
        lemma_resolved_cons(entries, a);
        let p0 = lookup_path(file_name(entries[0]), ops[0]->Lookup_answer)->Some_0;
        if restoring {
            assert forall|p: Seq<char>| restored_paths(ops).contains(p) implies restored_paths(
                rest,
            ).insert(p0).contains(p) by {
                let i = choose|i: int|
                    0 <= i < ops.len() && #[trigger] ops[i] is Restore && ops[i]->Restore_path == p;
                if i >= 2 {
                    assert(rest[i - 2] == ops[i]);
                }
            }
            assert forall|p: Seq<char>| restored_paths(rest).insert(p0).contains(p) implies restored_paths(
                ops,
            ).contains(p) by {
                if p == p0 {
                    assert(ops[1] is Restore);
                } else {
                    let i = choose|i: int|
                        0 <= i < rest.len() && #[trigger] rest[i] is Restore && rest[i]->Restore_path
                            == p;
                    assert(ops[i + 2] == rest[i]);
                }
            }
            assert(restored_paths(ops) =~= restored_paths(rest).insert(p0));
        } else {
            assert forall|p: Seq<char>| linked_paths(ops).contains(p) implies linked_paths(
                rest,
            ).insert(p0).contains(p) by {
                let i = choose|i: int|
                    0 <= i < ops.len() && #[trigger] ops[i] is Link && ops[i]->Link_path == p;
                if i >= 2 {
                    assert(rest[i - 2] == ops[i]);
                }
            }
            assert forall|p: Seq<char>| linked_paths(rest).insert(p0).contains(p) implies linked_paths(
                ops,
            ).contains(p) by {
                if p == p0 {
                    assert(ops[1] is Link);
                } else {
                    let i = choose|i: int|
                        0 <= i < rest.len() && #[trigger] rest[i] is Link && rest[i]->Link_path == p;
                    assert(ops[i + 2] == rest[i]);
                }
            }
            assert(linked_paths(ops) =~= linked_paths(rest).insert(p0));
        }
    }
}

/// `en` and `dis` are complete runs of `enable` and of `disable` that
/// recorded the same listing and the same lookup answers.
pub open spec fn matching_runs(e: UutilsExperiment, en: Seq<HostOp>, dis: Seq<HostOp>) -> bool {
    &&& e.enable_steps(en) == Some(true)
    &&& e.disable_steps(dis) == Some(true)
    &&& en[1]->Listed_answer == dis[0]->Listed_answer
    &&& walk_answers(en[1]->Listed_answer->Some_0, en.subrange(2, en.len() as int)) == walk_answers(
        dis[0]->Listed_answer->Some_0,
        dis.subrange(1, dis.len() - 1),
    )
}

proof fn lemma_run_parts(e: UutilsExperiment, en: Seq<HostOp>, dis: Seq<HostOp>)
    requires
        matching_runs(e, en, dis),
    ensures
        en.len() >= 2,
        dis.len() >= 2,
        en[0] == (HostOp::Install { package: e.package_view(), ok: true }),
        en[1] is Listed,
        en[1]->Listed_answer is Some,
        dis[0] == en[1],
        dis.last() == (HostOp::Remove { package: e.package_view(), ok: true }),
        e.walk(en[1]->Listed_answer->Some_0, en.subrange(2, en.len() as int), false) == Some(true),
        e.walk(en[1]->Listed_answer->Some_0, dis.subrange(1, dis.len() - 1), true) == Some(true),
        linked_paths(en) == linked_paths(en.subrange(2, en.len() as int)),
        restored_paths(dis) == restored_paths(dis.subrange(1, dis.len() - 1)),
        linked_paths(en) == restored_paths(dis),
        linked_paths(en) == resolved_paths(
            en[1]->Listed_answer->Some_0,
            walk_answers(en[1]->Listed_answer->Some_0, en.subrange(2, en.len() as int)),
        ),
{
    let entries = en[1]->Listed_answer->Some_0;
    let wen = en.subrange(2, en.len() as int);
    let rest = dis.subrange(1, dis.len() as int);
    assert(rest.drop_last() =~= dis.subrange(1, dis.len() - 1));
    let wdis = dis.subrange(1, dis.len() - 1);
    assert(dis.last() == rest.last());
    assert forall|p: Seq<char>| linked_paths(en).contains(p) implies linked_paths(wen).contains(p) by {
        let i = choose|i: int| 0 <= i < en.len() && #[trigger] en[i] is Link && en[i]->Link_path == p;
        assert(wen[i - 2] == en[i]);
    }
    assert forall|p: Seq<char>| linked_paths(wen).contains(p) implies linked_paths(en).contains(p) by {
        let i = choose|i: int| 0 <= i < wen.len() && #[trigger] wen[i] is Link && wen[i]->Link_path == p;
        assert(en[i + 2] == wen[i]);
    }
    assert(linked_paths(en) =~= linked_paths(wen));
    assert forall|p: Seq<char>| restored_paths(dis).contains(p) implies restored_paths(wdis).contains(
        p,
    ) by {
        let i = choose|i: int|
            0 <= i < dis.len() && #[trigger] dis[i] is Restore && dis[i]->Restore_path == p;
        assert(i != dis.len() - 1);
        assert(wdis[i - 1] == dis[i]);
    }
    assert forall|p: Seq<char>| restored_paths(wdis).contains(p) implies restored_paths(dis).contains(
        p,
    ) by {
        let i = choose|i: int|
            0 <= i < wdis.len() && #[trigger] wdis[i] is Restore && wdis[i]->Restore_path == p;
        assert(dis[i + 1] == wdis[i]);
    }
    assert(restored_paths(dis) =~= restored_paths(wdis));
    lemma_walk_paths(e, entries, wen, false);
    lemma_walk_paths(e, entries, wdis, true);
}

/// `disable` restores exactly the paths that `enable` linked, when both
/// runs completed and saw the same listing and the same search-path
/// answers.
pub proof fn lemma_disable_restores_linked_paths(
    e: UutilsExperiment,
    en: Seq<HostOp>,
    dis: Seq<HostOp>,
)
    requires
        matching_runs(e, en, dis),
    ensures
        linked_paths(en) == restored_paths(dis),
{
    lemma_run_parts(e, en, dis);
}

/// A completed `enable` followed by a completed `disable` that saw the same
/// listing and search-path answers leaves the host as it was: the package
/// is absent again and every redirected path holds its original content.
/// This holds of a host where the package was not installed and none of
/// the redirected paths was already a replacement.
pub proof fn lemma_enable_disable_round_trip(
    e: UutilsExperiment,
    s: HostState,
    en: Seq<HostOp>,
    dis: Seq<HostOp>,
)
    requires
        matching_runs(e, en, dis),
        !s.packages.contains(e.package_view()),
        forall|k: Seq<char>| linked_paths(en).contains(k) ==> !#[trigger] s.links.dom().contains(k),
    ensures
        apply_all(s, en + dis) == s,
{
    lemma_run_parts(e, en, dis);
    let entries = en[1]->Listed_answer->Some_0;
    let wen = en.subrange(2, en.len() as int);
    let wdis = dis.subrange(1, dis.len() - 1);
    let paths = resolved_paths(entries, walk_answers(entries, wen));
    let head = en.subrange(0, 2);
    let rm = seq![dis.last()];
    let first = seq![dis[0]];
    assert(en =~= head + wen);
    assert(dis =~= first + wdis + rm);
    assert(en + dis =~= head + wen + first + wdis + rm);
    lemma_apply_concat(s, head + wen + first + wdis, rm);
    lemma_apply_concat(s, head + wen + first, wdis);
    lemma_apply_concat(s, head + wen, first);
    lemma_apply_concat(s, head, wen);
    let s1 = apply(s, en[0]);
    assert(head.drop_first().drop_first() =~= Seq::<HostOp>::empty());
    assert(head.drop_first()[0] == en[1]);
    assert(apply_all(s, head) == apply_all(s1, head.drop_first()));
    assert(apply_all(s1, head.drop_first()) == apply_all(apply(s1, en[1]), head.drop_first().drop_first()));
    assert(apply_all(s, head) == s1);
    lemma_link_walk(e, s1, entries, wen);
    let s2 = apply_all(s1, wen);
    assert(first.drop_first() =~= Seq::<HostOp>::empty());
    assert(apply_all(s2, first) == apply_all(apply(s2, first[0]), first.drop_first()));
    assert(apply_all(s2, first) == s2);
    lemma_restore_walk(e, s2, entries, wdis);
    let s3 = apply_all(s2, wdis);
    assert(s3.links =~= s.links);
    assert(rm.drop_first() =~= Seq::<HostOp>::empty());
    assert(apply_all(s3, rm) == apply_all(apply(s3, rm[0]), rm.drop_first()));
    let s4 = apply_all(s3, rm);
    assert(s4.packages =~= s.packages);
    assert(s4 == s);
}

} // verus!
