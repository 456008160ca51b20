//! Expansion of self-referential optional-dependency groups.
//!
//! A group may name the owning project itself with further extras; each such
//! reference is replaced, in place, by the flattened contents of the group it
//! names. A visited set scoped to one top-level call guarantees that every
//! extra name is expanded at most once, so expansion terminates on every
//! reference graph, including direct self-reference and mutual reference;
//! an already-visited extra is skipped silently.

use vstd::prelude::*;
use vstd::seq_lib::group_seq_properties;
use vstd::set_lib::lemma_len_subset;

use crate::name::{ExtraName, PackageName};
use crate::requirement::{ReqModel, Requirement};

verus! {

/// One unit of pending work: a requirement to copy or expand, or a reference
/// to an extra group that still has to be flattened.
pub enum FlattenTask {
    Req(Requirement),
    ExtraRef(ExtraName),
}

pub ghost enum TaskModel {
    Req(ReqModel),
    ExtraRef(Seq<char>),
}

impl View for FlattenTask {
    type V = TaskModel;

    open spec fn view(&self) -> TaskModel {
        match self {
            FlattenTask::Req(r) => TaskModel::Req(r@),
            FlattenTask::ExtraRef(e) => TaskModel::ExtraRef(e@),
        }
    }
}

/// The group list of a manifest, as a model: names with their requirement
/// lists, in document order.
pub open spec fn map_model(map: Seq<(ExtraName, Vec<Requirement>)>) -> Seq<
    (Seq<char>, Seq<ReqModel>),
> {
    map.map_values(|p: (ExtraName, Vec<Requirement>)| (p.0@, p.1@.map_values(|r: Requirement| r@)))
}

/// The first group with the given name, searching in order.
pub open spec fn group_lookup(map: Seq<(Seq<char>, Seq<ReqModel>)>, name: Seq<char>) -> Option<
    Seq<ReqModel>,
>
    decreases map.len(),
{
    if map.len() == 0 {
        None
    } else if map[0].0 == name {
        Some(map[0].1)
    } else {
        group_lookup(map.drop_first(), name)
    }
}

pub open spec fn keys_of(map: Seq<(Seq<char>, Seq<ReqModel>)>) -> Set<Seq<char>> {
    map.map_values(|p: (Seq<char>, Seq<ReqModel>)| p.0).to_set()
}

proof fn lemma_lookup_in_keys(map: Seq<(Seq<char>, Seq<ReqModel>)>, name: Seq<char>)
    requires
        group_lookup(map, name) is Some,
    ensures
        keys_of(map).contains(name),
    decreases map.len(),
{
    if map.len() > 0 && map[0].0 != name {
        lemma_lookup_in_keys(map.drop_first(), name);
        assert(map.drop_first().map_values(|p: (Seq<char>, Seq<ReqModel>)| p.0) =~= map.map_values(
            |p: (Seq<char>, Seq<ReqModel>)| p.0,
        ).drop_first());
        broadcast use group_seq_properties;

    } else if map.len() > 0 {
        assert(map.map_values(|p: (Seq<char>, Seq<ReqModel>)| p.0)[0] == name);
        broadcast use group_seq_properties;

    }
}

/// How many group names have not yet been visited: the termination measure.
pub open spec fn unseen_count(map: Seq<(Seq<char>, Seq<ReqModel>)>, seen: Set<Seq<char>>) -> nat {
    keys_of(map).difference(seen).len()
}

pub open spec fn task_weight(t: TaskModel) -> nat {
    match t {
        TaskModel::Req(r) => r.extras.len() + 1,
        TaskModel::ExtraRef(_) => 1,
    }
}

pub open spec fn stack_weight(stack: Seq<TaskModel>) -> nat
    decreases stack.len(),
{
    if stack.len() == 0 {
        0
    } else {
        task_weight(stack[0]) + stack_weight(stack.drop_first())
    }
}

proof fn lemma_stack_weight_append(a: Seq<TaskModel>, b: Seq<TaskModel>)
    ensures
        stack_weight(a + b) == stack_weight(a) + stack_weight(b),
    decreases a.len(),
{
    if a.len() == 0 {
        assert(a + b =~= b);
    } else {
        lemma_stack_weight_append(a.drop_first(), b);
        assert((a + b).drop_first() =~= a.drop_first() + b);
    }
}

pub open spec fn tasks_of_reqs(reqs: Seq<ReqModel>) -> Seq<TaskModel> {
    reqs.map_values(|r: ReqModel| TaskModel::Req(r))
}

pub open spec fn tasks_of_extras(names: Seq<Seq<char>>) -> Seq<TaskModel> {
    names.map_values(|n: Seq<char>| TaskModel::ExtraRef(n))
}

proof fn lemma_tasks_of_extras_weight(names: Seq<Seq<char>>)
    ensures
        stack_weight(tasks_of_extras(names)) == names.len(),
    decreases names.len(),
{
    if names.len() > 0 {
        lemma_tasks_of_extras_weight(names.drop_first());
        assert(tasks_of_extras(names).drop_first() =~= tasks_of_extras(names.drop_first()));
    }
}

proof fn lemma_keys_finite(map: Seq<(Seq<char>, Seq<ReqModel>)>, seen: Set<Seq<char>>)
    ensures
        keys_of(map).finite(),
        keys_of(map).difference(seen).finite(),
{
    broadcast use vstd::seq_lib::seq_to_set_is_finite;

    assert(keys_of(map).difference(seen).subset_of(keys_of(map)));
    vstd::set_lib::lemma_set_subset_finite(keys_of(map), keys_of(map).difference(seen));
}

/// The whole expansion, processing a queue of tasks in order. Returns the
/// flattened requirements, the final visited set, and the trace of extras
/// that were actually visited, in visit order.
pub open spec fn flatten_rec(
    project: Seq<char>,
    stack: Seq<TaskModel>,
    map: Seq<(Seq<char>, Seq<ReqModel>)>,
    seen: Set<Seq<char>>,
) -> (Seq<ReqModel>, Set<Seq<char>>, Seq<Seq<char>>)
    decreases unseen_count(map, seen), stack_weight(stack),
    via flatten_rec_dec
{
    if stack.len() == 0 {
        (Seq::empty(), seen, Seq::empty())
    } else {
        let rest = stack.drop_first();
        match stack[0] {
            TaskModel::Req(r) => {
                if r.name == project {
                    flatten_rec(project, tasks_of_extras(r.extras) + rest, map, seen)
                } else {
                    let sub = flatten_rec(project, rest, map, seen);
                    (seq![r] + sub.0, sub.1, sub.2)
                }
            },
            TaskModel::ExtraRef(e) => {
                if seen.contains(e) {
                    flatten_rec(project, rest, map, seen)
                } else {
                    let seen2 = seen.insert(e);
                    let sub = match group_lookup(map, e) {
                        Some(group) => flatten_rec(
                            project,
                            tasks_of_reqs(group) + rest,
                            map,
                            seen2,
                        ),
                        None => flatten_rec(project, rest, map, seen2),
                    };
                    (sub.0, sub.1, seq![e] + sub.2)
                }
            },
        }
    }
}

/// The measure facts every recursive step of the expansion needs.
proof fn lemma_flatten_measure(
    project: Seq<char>,
    stack: Seq<TaskModel>,
    map: Seq<(Seq<char>, Seq<ReqModel>)>,
    seen: Set<Seq<char>>,
)
    requires
        stack.len() > 0,
    ensures
        ({
            let rest = stack.drop_first();
            &&& (match stack[0] {
                TaskModel::Req(r) => stack_weight(tasks_of_extras(r.extras) + rest)
                    == r.extras.len() + stack_weight(rest),
                TaskModel::ExtraRef(e) => true,
            })
            &&& stack_weight(stack) == task_weight(stack[0]) + stack_weight(rest)
            &&& task_weight(stack[0]) >= 1
        }),
        (match stack[0] {
            TaskModel::ExtraRef(e) => !seen.contains(e) ==> {
                &&& unseen_count(map, seen.insert(e)) <= unseen_count(map, seen)
                &&& (group_lookup(map, e) is Some ==> unseen_count(map, seen.insert(e))
                    < unseen_count(map, seen))
            },
            TaskModel::Req(r) => true,
        }),
{
    lemma_keys_finite(map, seen);
    let rest = stack.drop_first();
    match stack[0] {
        TaskModel::Req(r) => {
            lemma_stack_weight_append(tasks_of_extras(r.extras), rest);
            lemma_tasks_of_extras_weight(r.extras);
        },
        TaskModel::ExtraRef(e) => {
            if !seen.contains(e) {
                let seen2 = seen.insert(e);
                lemma_keys_finite(map, seen2);
                if group_lookup(map, e) is Some {
                    lemma_lookup_in_keys(map, e);
                    assert(keys_of(map).difference(seen2) =~= keys_of(map).difference(seen).remove(
                        e,
                    ));
                    assert(keys_of(map).difference(seen).contains(e));
                    assert(keys_of(map).difference(seen).remove(e).len() == keys_of(
                        map,
                    ).difference(seen).len() - 1);
                } else {
                    assert(keys_of(map).difference(seen2).subset_of(
                        keys_of(map).difference(seen),
                    ));
                    lemma_len_subset(keys_of(map).difference(seen2), keys_of(map).difference(seen));
                }
            }
        },
    }
}

#[via_fn]
proof fn flatten_rec_dec(
    project: Seq<char>,
    stack: Seq<TaskModel>,
    map: Seq<(Seq<char>, Seq<ReqModel>)>,
    seen: Set<Seq<char>>,
) {
    lemma_keys_finite(map, seen);
    if stack.len() > 0 {
        lemma_flatten_measure(project, stack, map, seen);
    }
}

/// No extra is ever visited twice in one expansion, and nothing already
/// visited is visited again: the trace has no duplicates and avoids the
/// incoming visited set.
pub proof fn lemma_no_duplicate_expansion(
    project: Seq<char>,
    stack: Seq<TaskModel>,
    map: Seq<(Seq<char>, Seq<ReqModel>)>,
    seen: Set<Seq<char>>,
)
    ensures
        flatten_rec(project, stack, map, seen).2.no_duplicates(),
        forall|i: int|
            0 <= i < flatten_rec(project, stack, map, seen).2.len() ==> !seen.contains(
                #[trigger] flatten_rec(project, stack, map, seen).2[i],
            ),
        seen.subset_of(flatten_rec(project, stack, map, seen).1),
        forall|i: int|
            0 <= i < flatten_rec(project, stack, map, seen).2.len() ==> flatten_rec(
                project,
                stack,
                map,
                seen,
            ).1.contains(#[trigger] flatten_rec(project, stack, map, seen).2[i]),
    decreases unseen_count(map, seen), stack_weight(stack),
{
    lemma_keys_finite(map, seen);
    if stack.len() > 0 {
        lemma_flatten_measure(project, stack, map, seen);
    }
    if stack.len() > 0 {
        let rest = stack.drop_first();
        match stack[0] {
            TaskModel::Req(r) => {
                if r.name == project {
                    lemma_no_duplicate_expansion(
                        project,
                        tasks_of_extras(r.extras) + rest,
                        map,
                        seen,
                    );
                } else {
                    lemma_no_duplicate_expansion(project, rest, map, seen);
                }
            },
            TaskModel::ExtraRef(e) => {
                if seen.contains(e) {
                    lemma_no_duplicate_expansion(project, rest, map, seen);
                } else {
                    let seen2 = seen.insert(e);
                    match group_lookup(map, e) {
                        Some(group) => {
                            lemma_no_duplicate_expansion(
                                project,
                                tasks_of_reqs(group) + rest,
                                map,
                                seen2,
                            );
                        },
                        None => {
                            lemma_no_duplicate_expansion(project, rest, map, seen2);
                        },
                    }
                }
            },
        }
    }
}

/// The visited set as stored at run time.
pub open spec fn seen_set(seen: Seq<ExtraName>) -> Set<Seq<char>> {
    seen.map_values(|e: ExtraName| e@).to_set()
}

fn seen_contains(seen: &Vec<ExtraName>, e: &ExtraName) -> (r: bool)
    ensures
        r == seen_set(seen@).contains(e@),
{
    let mut i: usize = 0;
    while i < seen.len()
        invariant
            0 <= i <= seen.len(),
            forall|k: int| 0 <= k < i ==> seen@[k]@ != e@,
        decreases seen.len() - i,
    {
        if seen[i].eq_name(e) {
            proof {
                broadcast use group_seq_properties;

                assert(seen@.map_values(|x: ExtraName| x@)[i as int] == e@);
            }
            return true;
        }
        i = i + 1;
    }
    proof {
        broadcast use group_seq_properties;

        let sm = seen@.map_values(|x: ExtraName| x@);
        assert forall|k: int| 0 <= k < sm.len() implies #[trigger] sm[k] != e@ by {
            assert(sm[k] == seen@[k]@);
        }
    }
    false
}

fn lookup_group(map: &Vec<(ExtraName, Vec<Requirement>)>, e: &ExtraName) -> (r: Option<
    Vec<Requirement>,
>)
    ensures
        r is Some <==> group_lookup(map_model(map@), e@) is Some,
        r is Some ==> r.unwrap()@.map_values(|q: Requirement| q@) == group_lookup(
            map_model(map@),
            e@,
        ).unwrap(),
{
    proof {
        assert(map_model(map@).skip(0) =~= map_model(map@));
    }
    let mut i: usize = 0;
    while i < map.len()
        invariant
            0 <= i <= map.len(),
            forall|k: int| 0 <= k < i ==> map@[k].0@ != e@,
            group_lookup(map_model(map@), e@) == group_lookup(
                map_model(map@).skip(i as int),
                e@,
            ),
        decreases map.len() - i,
    {
        proof {
            assert(map_model(map@).skip(i as int)[0] == map_model(map@)[i as int]);
            assert(map_model(map@).skip(i as int).drop_first() =~= map_model(map@).skip(i + 1));
        }
        if map[i].0.eq_name(e) {
            let mut out: Vec<Requirement> = Vec::new();
            let group = &map[i].1;
            let mut j: usize = 0;
            while j < group.len()
                invariant
                    0 <= j <= group.len(),
                    out.len() == j,
                    forall|k: int| 0 <= k < j ==> out@[k]@ == group@[k]@,
                decreases group.len() - j,
            {
                out.push(group[j].duplicate());
                j = j + 1;
            }
            proof {
                assert(out@.map_values(|q: Requirement| q@) =~= map_model(map@)[i as int].1);
            }
            return Some(out);
        }
        i = i + 1;
    }
    None
}

fn flatten_tasks(
    project: &PackageName,
    stack: Vec<FlattenTask>,
    map: &Vec<(ExtraName, Vec<Requirement>)>,
    seen: &mut Vec<ExtraName>,
) -> (out: Vec<Requirement>)
    ensures
        out@.map_values(|q: Requirement| q@) == flatten_rec(
            project@,
            stack@.map_values(|t: FlattenTask| t@),
            map_model(map@),
            seen_set(old(seen)@),
        ).0,
        seen_set(final(seen)@) == flatten_rec(
            project@,
            stack@.map_values(|t: FlattenTask| t@),
            map_model(map@),
            seen_set(old(seen)@),
        ).1,
    decreases unseen_count(map_model(map@), seen_set(seen@)), stack_weight(
        stack@.map_values(|t: FlattenTask| t@),
    ),
{
    proof {
        lemma_keys_finite(map_model(map@), seen_set(seen@));
        if stack@.len() > 0 {
            lemma_flatten_measure(
                project@,
                stack@.map_values(|t: FlattenTask| t@),
                map_model(map@),
                seen_set(seen@),
            );
        }
    }
    let ghost stack0 = stack@.map_values(|t: FlattenTask| t@);
    if stack.len() == 0 {
        let out: Vec<Requirement> = Vec::new();
        proof {
            assert(out@.map_values(|q: Requirement| q@) =~= Seq::<ReqModel>::empty());
        }
        return out;
    }
    let mut stack = stack;
    let first = stack.remove(0);
    proof {
        assert(stack@.map_values(|t: FlattenTask| t@) =~= stack0.drop_first());
    }
    match first {
        FlattenTask::Req(r) => {
            if r.name.eq_name(project) {
                let mut newstack: Vec<FlattenTask> = Vec::new();
                let mut i: usize = 0;
                while i < r.extras.len()
                    invariant
                        0 <= i <= r.extras.len(),
                        newstack.len() == i,
                        forall|k: int|
                            0 <= k < i ==> newstack@[k]@ == TaskModel::ExtraRef(r.extras@[k]@),
                    decreases r.extras.len() - i,
                {
                    newstack.push(FlattenTask::ExtraRef(r.extras[i].duplicate()));
                    i = i + 1;
                }
                let mut j: usize = 0;
                let ghost pre = newstack@.map_values(|t: FlattenTask| t@);
                proof {
                    assert(forall|k: int|
                        0 <= k < pre.len() ==> pre[k] == (#[trigger] newstack@[k])@);
                }
                while j < stack.len()
                    invariant
                        0 <= j <= stack.len(),
                        newstack.len() == pre.len() + j,
                        forall|k: int| 0 <= k < pre.len() ==> newstack@[k]@ == pre[k],
                        forall|k: int|
                            0 <= k < j ==> newstack@[pre.len() + k]@ == (#[trigger] stack@[k])@,
                    decreases stack.len() - j,
                {
                    newstack.push(stack[j].duplicate_task());
                    j = j + 1;
                }
                proof {
                    let lhs = newstack@.map_values(|t: FlattenTask| t@);
                    let rhs = tasks_of_extras(r@.extras) + stack0.drop_first();
                    assert(stack@.map_values(|t: FlattenTask| t@) == stack0.drop_first());
                    assert forall|k: int| 0 <= k < lhs.len() implies lhs[k] == rhs[k] by {
                        assert(lhs[k] == newstack@[k]@);
                        if k < pre.len() {
                            assert(pre[k] == TaskModel::ExtraRef(r.extras@[k]@));
                        } else {
                            assert(newstack@[k]@ == stack@[k - pre.len()]@);
                            assert(stack0.drop_first()[k - pre.len()] == stack@.map_values(
                                |t: FlattenTask| t@,
                            )[k - pre.len()]);
                        }
                    }
                    assert(lhs =~= rhs);
                }
                flatten_tasks(project, newstack, map, seen)
            } else {
                let sub = flatten_tasks(project, stack, map, seen);
                let mut out: Vec<Requirement> = Vec::new();
                out.push(r);
                let mut j: usize = 0;
                let ghost subm = sub@.map_values(|q: Requirement| q@);
                while j < sub.len()
                    invariant
                        0 <= j <= sub.len(),
                        out.len() == 1 + j,
                        out@[0]@ == stack0[0]->Req_0,
                        forall|k: int| 0 <= k < j ==> out@[1 + k]@ == subm[k],
                        forall|k: int| 0 <= k < sub.len() ==> (#[trigger] sub@[k])@ == subm[k],
                    decreases sub.len() - j,
                {
                    out.push(sub[j].duplicate());
                    j = j + 1;
                }
                proof {
                    assert(out@.map_values(|q: Requirement| q@) =~= seq![stack0[0]->Req_0] + subm);
                }
                out
            }
        },
        FlattenTask::ExtraRef(e) => {
            if seen_contains(seen, &e) {
                flatten_tasks(project, stack, map, seen)
            } else {
                seen.push(e.duplicate());
                proof {
                    broadcast use group_seq_properties;

                    assert(seen@.map_values(|x: ExtraName| x@) =~= old(seen)@.map_values(
                        |x: ExtraName| x@,
                    ).push(e@));
                    assert(seen_set(seen@) =~= seen_set(old(seen)@).insert(e@));
                }
                match lookup_group(map, &e) {
                    Some(group) => {
                        let mut newstack: Vec<FlattenTask> = Vec::new();
                        let mut i: usize = 0;
                        while i < group.len()
                            invariant
                                0 <= i <= group.len(),
                                newstack.len() == i,
                                forall|k: int|
                                    0 <= k < i ==> newstack@[k]@ == TaskModel::Req(
                                        (#[trigger] group@[k])@,
                                    ),
                            decreases group.len() - i,
                        {
                            newstack.push(FlattenTask::Req(group[i].duplicate()));
                            i = i + 1;
                        }
                        let mut j: usize = 0;
                        let ghost pre = newstack@.map_values(|t: FlattenTask| t@);
                        proof {
                            assert(forall|k: int|
                                0 <= k < pre.len() ==> pre[k] == (#[trigger] newstack@[k])@);
                        }
                        while j < stack.len()
                            invariant
                                0 <= j <= stack.len(),
                                newstack.len() == pre.len() + j,
                                forall|k: int| 0 <= k < pre.len() ==> newstack@[k]@ == pre[k],
                                forall|k: int|
                                    0 <= k < j ==> newstack@[pre.len() + k]@ == (
                                    #[trigger] stack@[k])@,
                            decreases stack.len() - j,
                        {
                            newstack.push(stack[j].duplicate_task());
                            j = j + 1;
                        }
                        proof {
                            let lhs = newstack@.map_values(|t: FlattenTask| t@);
                            let gm = group_lookup(map_model(map@), e@).unwrap();
                            let rhs = tasks_of_reqs(gm) + stack0.drop_first();
                            assert(stack@.map_values(|t: FlattenTask| t@)
                                == stack0.drop_first());
                            assert(group@.map_values(|q: Requirement| q@) == gm);
                            assert forall|k: int| 0 <= k < lhs.len() implies lhs[k] == rhs[k] by {
                                assert(lhs[k] == newstack@[k]@);
                                if k < pre.len() {
                                    assert(pre[k] == TaskModel::Req(group@[k]@));
                                    assert(gm[k] == group@[k]@);
                                } else {
                                    assert(newstack@[k]@ == stack@[k - pre.len()]@);
                                    assert(stack0.drop_first()[k - pre.len()] == stack@.map_values(
                                        |t: FlattenTask| t@,
                                    )[k - pre.len()]);
                                }
                            }
                            assert(lhs =~= rhs);
                        }
                        flatten_tasks(project, newstack, map, seen)
                    },
                    None => flatten_tasks(project, stack, map, seen),
                }
            }
        },
    }
}

impl FlattenTask {
    fn duplicate_task(&self) -> (r: FlattenTask)
        ensures
            r@ == self@,
    {
        match self {
            FlattenTask::Req(q) => FlattenTask::Req(q.duplicate()),
            FlattenTask::ExtraRef(e) => FlattenTask::ExtraRef(e.duplicate()),
        }
    }
}

/// What one top-level flatten of a group denotes.
pub open spec fn flatten_extra_spec(
    project: Seq<char>,
    reqs: Seq<ReqModel>,
    map: Seq<(Seq<char>, Seq<ReqModel>)>,
) -> Seq<ReqModel> {
    flatten_rec(project, tasks_of_reqs(reqs), map, Set::empty()).0
}

/// Flattens one optional-dependency group of `project`, expanding references
/// to the project's own extras through `map` with a fresh visited set.
pub fn flatten_extra(
    project: &PackageName,
    requirements: &Vec<Requirement>,
    map: &Vec<(ExtraName, Vec<Requirement>)>,
) -> (out: Vec<Requirement>)
    ensures
        out@.map_values(|q: Requirement| q@) == flatten_extra_spec(
            project@,
            requirements@.map_values(|q: Requirement| q@),
            map_model(map@),
        ),
{
    let mut stack: Vec<FlattenTask> = Vec::new();
    let mut i: usize = 0;
    while i < requirements.len()
        invariant
            0 <= i <= requirements.len(),
            stack.len() == i,
            forall|k: int|
                0 <= k < i ==> stack@[k]@ == TaskModel::Req((#[trigger] requirements@[k])@),
        decreases requirements.len() - i,
    {
        stack.push(FlattenTask::Req(requirements[i].duplicate()));
        i = i + 1;
    }
    let mut seen: Vec<ExtraName> = Vec::new();
    proof {
        assert(stack@.map_values(|t: FlattenTask| t@) =~= tasks_of_reqs(
            requirements@.map_values(|q: Requirement| q@),
        ));
        assert(seen@.map_values(|e: ExtraName| e@).to_set() =~= Set::<Seq<char>>::empty());
    }
    flatten_tasks(project, stack, map, &mut seen)
}

} // verus!
