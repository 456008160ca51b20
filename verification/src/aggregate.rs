//! Aggregation: folding an ordered list of per-source specifications, in
//! three role groups (requirements, then constraints, then overrides), into
//! one specification. The first non-empty project name wins; the first
//! explicit primary index URL wins and a later distinct one is a conflict;
//! everything a constraints- or overrides-role source carries is coerced
//! into that role, and an unnamed requirement there is a role violation.

use vstd::prelude::*;

use crate::requirement::{EntryModel, ReqModel, Requirement, RequirementEntry};
use crate::source::{
    append_unique, empty_spec_model, from_source, from_source_spec, lemma_append_unique_no_dup,
    loaded_text, merge_extras, ExtrasModel, ExtrasSpecification, LoadedModel, LoadedSource,
    RequirementsSpecification, SpecModel,
};
use crate::{Error, ErrorKind};

verus! {

/// The role under which a source's contents enter the aggregate.
#[derive(Debug, Clone, Copy, PartialEq, Eq, Structural)]
pub enum Role {
    Requirements,
    Constraints,
    Overrides,
}

/// Every entry must already be named; the first unnamed one is a role
/// violation.
pub open spec fn coerce_entries(entries: Seq<EntryModel>) -> Result<Seq<ReqModel>, ErrorKind>
    decreases entries.len(),
{
    if entries.len() == 0 {
        Ok(Seq::empty())
    } else {
        match entries[0] {
            EntryModel::Named(r) => match coerce_entries(entries.drop_first()) {
                Ok(rest) => Ok(seq![r] + rest),
                Err(k) => Err(k),
            },
            EntryModel::Unnamed(_) => Err(ErrorKind::RoleViolation),
        }
    }
}

/// Two explicit primary index URLs that differ.
pub open spec fn index_conflict(acc: SpecModel, src: SpecModel) -> bool {
    acc.index_url is Some && src.index_url is Some && acc.index_url != src.index_url
}

/// The first explicit primary URL wins.
pub open spec fn merged_index_url(acc: SpecModel, src: SpecModel) -> Option<Seq<char>> {
    if acc.index_url is Some {
        acc.index_url
    } else {
        src.index_url
    }
}

/// Folding one per-source specification into the aggregate under a role.
pub open spec fn merge_step(acc: SpecModel, src: SpecModel, role: Role) -> Result<
    SpecModel,
    ErrorKind,
> {
    match role {
        Role::Requirements => {
            if index_conflict(acc, src) {
                Err(ErrorKind::Conflict)
            } else {
                Ok(
                    SpecModel {
                        project: if acc.project is Some {
                            acc.project
                        } else {
                            src.project
                        },
                        requirements: acc.requirements + src.requirements,
                        constraints: acc.constraints + src.constraints,
                        overrides: acc.overrides + src.overrides,
                        editables: acc.editables + src.editables,
                        extras: append_unique(acc.extras, src.extras),
                        index_url: merged_index_url(acc, src),
                        extra_index_urls: acc.extra_index_urls + src.extra_index_urls,
                        no_index: acc.no_index || src.no_index,
                        find_links: acc.find_links + src.find_links,
                    },
                )
            }
        },
        Role::Constraints => match coerce_entries(src.requirements) {
            Err(k) => Err(k),
            Ok(coerced) => {
                if index_conflict(acc, src) {
                    Err(ErrorKind::Conflict)
                } else {
                    Ok(
                        SpecModel {
                            constraints: acc.constraints + coerced + src.constraints
                                + src.overrides,
                            index_url: merged_index_url(acc, src),
                            extra_index_urls: acc.extra_index_urls + src.extra_index_urls,
                            no_index: acc.no_index || src.no_index,
                            find_links: acc.find_links + src.find_links,
                            ..acc
                        },
                    )
                }
            },
        },
        Role::Overrides => match coerce_entries(src.requirements) {
            Err(k) => Err(k),
            Ok(coerced) => {
                if index_conflict(acc, src) {
                    Err(ErrorKind::Conflict)
                } else {
                    Ok(
                        SpecModel {
                            overrides: acc.overrides + coerced + src.constraints + src.overrides,
                            index_url: merged_index_url(acc, src),
                            extra_index_urls: acc.extra_index_urls + src.extra_index_urls,
                            no_index: acc.no_index || src.no_index,
                            find_links: acc.find_links + src.find_links,
                            ..acc
                        },
                    )
                }
            },
        },
    }
}

/// Reading and merging a whole role list, strictly in input order.
pub open spec fn fold_role(
    acc: SpecModel,
    srcs: Seq<LoadedModel>,
    role: Role,
    extras: ExtrasModel,
) -> Result<SpecModel, ErrorKind>
    decreases srcs.len(),
{
    if srcs.len() == 0 {
        Ok(acc)
    } else {
        match from_source_spec(srcs[0], extras) {
            Err(k) => Err(k),
            Ok(s) => match merge_step(acc, s, role) {
                Err(k) => Err(k),
                Ok(acc2) => fold_role(acc2, srcs.drop_first(), role, extras),
            },
        }
    }
}

/// What the whole aggregation denotes: requirements-role sources first, then
/// constraints, then overrides; no partial result survives an error.
pub open spec fn from_sources_spec(
    reqs: Seq<LoadedModel>,
    cons: Seq<LoadedModel>,
    overr: Seq<LoadedModel>,
    extras: ExtrasModel,
) -> Result<SpecModel, ErrorKind> {
    match fold_role(empty_spec_model(), reqs, Role::Requirements, extras) {
        Err(k) => Err(k),
        Ok(a1) => match fold_role(a1, cons, Role::Constraints, extras) {
            Err(k) => Err(k),
            Ok(a2) => fold_role(a2, overr, Role::Overrides, extras),
        },
    }
}

/// Whether `t` is the text of one of the listed sources.
pub open spec fn names_source_text(t: Seq<char>, all: Seq<LoadedModel>) -> bool {
    exists|i: int| 0 <= i < all.len() && t == loaded_text(#[trigger] all[i])
}

/// Whether `t` is the URL of an unnamed requirement carried by one of the
/// listed sources.
pub open spec fn names_unnamed_url(t: Seq<char>, srcs: Seq<LoadedModel>, extras: ExtrasModel) -> bool {
    exists|i: int, k: int|
        0 <= i < srcs.len() && from_source_spec(srcs[i], extras) is Ok && 0 <= k
            < from_source_spec(srcs[i], extras)->Ok_0.requirements.len() && (
        #[trigger] from_source_spec(srcs[i], extras)->Ok_0.requirements[k]) is Unnamed
            && from_source_spec(srcs[i], extras)->Ok_0.requirements[k]->Unnamed_0.url == t
}

/// Whether some source in the list declares this primary index URL.
pub open spec fn cites_index_url(u: Seq<char>, all: Seq<LoadedModel>, extras: ExtrasModel) -> bool {
    exists|i: int|
        0 <= i < all.len() && #[trigger] from_source_spec(all[i], extras) is Ok
            && from_source_spec(all[i], extras)->Ok_0.index_url == Some(u)
}

fn coerce_entries_exec(entries: Vec<RequirementEntry>) -> (r: Result<Vec<Requirement>, Error>)
    ensures
        r is Ok <==> coerce_entries(entries@.map_values(|e: RequirementEntry| e@)) is Ok,
        r is Ok ==> r.unwrap()@.map_values(|q: Requirement| q@) == coerce_entries(
            entries@.map_values(|e: RequirementEntry| e@),
        )->Ok_0,
        r is Err ==> r.unwrap_err().kind() == ErrorKind::RoleViolation && coerce_entries(
            entries@.map_values(|e: RequirementEntry| e@),
        ) == Err::<Seq<ReqModel>, ErrorKind>(ErrorKind::RoleViolation),
        r is Err ==> (r.unwrap_err() matches Error::RoleViolationError(t) && exists|k: int|
            0 <= k < entries@.len() && (#[trigger] entries@[k])@ is Unnamed
                && entries@[k]@->Unnamed_0.url == t@),
{
    let ghost em = entries@.map_values(|e: RequirementEntry| e@);
    let mut out: Vec<Requirement> = Vec::new();
    let mut rest = entries;
    proof {
        assert(rest@.map_values(|e: RequirementEntry| e@) =~= em.skip(0));
    }
    while rest.len() > 0
        invariant
            em == entries@.map_values(|e: RequirementEntry| e@),
            rest@.len() <= em.len(),
            rest@.map_values(|e: RequirementEntry| e@) == em.skip(em.len() - rest@.len()),
            ({
                let om = out@.map_values(|q: Requirement| q@);
                let rm = rest@.map_values(|e: RequirementEntry| e@);
                match coerce_entries(rm) {
                    Ok(tail) => coerce_entries(em) == Ok::<Seq<ReqModel>, ErrorKind>(om + tail),
                    Err(k) => coerce_entries(em) == Err::<Seq<ReqModel>, ErrorKind>(k),
                }
            }),
        decreases rest.len(),
    {
        let ghost om = out@.map_values(|q: Requirement| q@);
        let ghost rm = rest@.map_values(|e: RequirementEntry| e@);
        let ghost idx = em.len() - rm.len();
        let head = rest.remove(0);
        proof {
            broadcast use vstd::seq_lib::group_seq_properties;

            assert(rest@.map_values(|e: RequirementEntry| e@) =~= rm.drop_first());
            assert(rm.drop_first() =~= em.skip(idx + 1));
            assert(rm[0] == em.skip(idx)[0]);
            assert(rm[0] == em[idx]);
        }
        match head {
            RequirementEntry::Named(q) => {
                out.push(q);
                proof {
                    assert(rm[0] is Named);
                    assert(out@.map_values(|x: Requirement| x@) =~= om.push(rm[0]->Named_0));
                    if coerce_entries(rm.drop_first()) is Ok {
                        assert(coerce_entries(rm)->Ok_0 == seq![rm[0]->Named_0] + coerce_entries(
                            rm.drop_first(),
                        )->Ok_0);
                        assert(om + coerce_entries(rm)->Ok_0 =~= om.push(rm[0]->Named_0)
                            + coerce_entries(rm.drop_first())->Ok_0);
                    }
                }
            },
            RequirementEntry::Unnamed(u) => {
                return Err(Error::RoleViolationError(u.url));
            },
        }
    }
    proof {
        assert(rest@.map_values(|e: RequirementEntry| e@).len() == 0);
        assert(out@.map_values(|q: Requirement| q@) + Seq::<ReqModel>::empty() =~= out@.map_values(
            |q: Requirement| q@,
        ));
    }
    Ok(out)
}

fn merge_step_exec(acc: RequirementsSpecification, src: RequirementsSpecification, role: Role) -> (r:
    Result<RequirementsSpecification, Error>)
    ensures
        r is Ok <==> merge_step(acc@, src@, role) is Ok,
        r is Ok ==> r.unwrap()@ == merge_step(acc@, src@, role)->Ok_0,
        r is Err ==> r.unwrap_err().kind() == merge_step(acc@, src@, role)->Err_0,
        r is Err && merge_step(acc@, src@, role)->Err_0 == ErrorKind::Conflict ==> (r.unwrap_err()
            matches Error::ConflictError(a, b) && acc@.index_url == Some(a@) && src@.index_url
            == Some(b@) && a@ != b@),
        r is Err && merge_step(acc@, src@, role)->Err_0 == ErrorKind::RoleViolation ==> (
        r.unwrap_err() matches Error::RoleViolationError(t) && exists|k: int|
            0 <= k < src@.requirements.len() && (#[trigger] src@.requirements[k]) is Unnamed
                && src@.requirements[k]->Unnamed_0.url == t@),
{
    let ghost accm = acc@;
    let ghost srcm = src@;
    let mut acc = acc;
    let mut src = src;
    match role {
        Role::Requirements => {
            if let Some(u) = src.index_url {
                if let Some(existing) = acc.index_url {
                    if !crate::strutil::str_eq(existing.as_str(), u.as_str()) {
                        return Err(Error::ConflictError(existing, u));
                    }
                    acc.index_url = Some(existing);
                } else {
                    acc.index_url = Some(u);
                }
            }
            if acc.project.is_none() {
                acc.project = src.project;
            }
            acc.requirements.append(&mut src.requirements);
            acc.constraints.append(&mut src.constraints);
            acc.overrides.append(&mut src.overrides);
            acc.editables.append(&mut src.editables);
            let acc_extras = acc.extras;
            acc.extras = merge_extras(acc_extras, src.extras);
            acc.extra_index_urls.append(&mut src.extra_index_urls);
            acc.no_index = acc.no_index || src.no_index;
            acc.find_links.append(&mut src.find_links);
            proof {
                assert(acc@.requirements =~= accm.requirements + srcm.requirements);
                assert(acc@.constraints =~= accm.constraints + srcm.constraints);
                assert(acc@.overrides =~= accm.overrides + srcm.overrides);
                assert(acc@.editables =~= accm.editables + srcm.editables);
                assert(acc@.extras == append_unique(accm.extras, srcm.extras));
                assert(acc@.extra_index_urls =~= accm.extra_index_urls + srcm.extra_index_urls);
                assert(acc@.find_links =~= accm.find_links + srcm.find_links);
                assert(acc@ == merge_step(accm, srcm, role)->Ok_0);
            }
            Ok(acc)
        },
        Role::Constraints => {
            let ghost reqs_v = src.requirements@;
            let coerced = match coerce_entries_exec(src.requirements) {
                Ok(c) => c,
                Err(e) => {
                    proof {
                        if e is RoleViolationError {
                            let tv = e->RoleViolationError_0;
                            let k = choose|k: int|
                                0 <= k < reqs_v.len() && (#[trigger] reqs_v[k])@ is Unnamed
                                    && reqs_v[k]@->Unnamed_0.url == tv@;
                            assert(srcm.requirements[k] == reqs_v[k]@);
                        }
                    }
                    return Err(e);
                },
            };
            let mut coerced = coerced;
            if let Some(u) = src.index_url {
                if let Some(existing) = acc.index_url {
                    if !crate::strutil::str_eq(existing.as_str(), u.as_str()) {
                        return Err(Error::ConflictError(existing, u));
                    }
                    acc.index_url = Some(existing);
                } else {
                    acc.index_url = Some(u);
                }
            }
            acc.constraints.append(&mut coerced);
            acc.constraints.append(&mut src.constraints);
            acc.constraints.append(&mut src.overrides);
            acc.extra_index_urls.append(&mut src.extra_index_urls);
            acc.no_index = acc.no_index || src.no_index;
            acc.find_links.append(&mut src.find_links);
            proof {
                assert(acc@.constraints =~= accm.constraints + coerce_entries(
                    srcm.requirements,
                )->Ok_0 + srcm.constraints + srcm.overrides);
                assert(acc@.extra_index_urls =~= accm.extra_index_urls + srcm.extra_index_urls);
                assert(acc@.find_links =~= accm.find_links + srcm.find_links);
                assert(acc@.requirements == accm.requirements);
                assert(acc@.overrides == accm.overrides);
                assert(acc@.editables == accm.editables);
                assert(acc@.extras == accm.extras);
                assert(acc@ == merge_step(accm, srcm, role)->Ok_0);
            }
            Ok(acc)
        },
        Role::Overrides => {
            let ghost reqs_v = src.requirements@;
            let coerced = match coerce_entries_exec(src.requirements) {
                Ok(c) => c,
                Err(e) => {
                    proof {
                        if e is RoleViolationError {
                            let tv = e->RoleViolationError_0;
                            let k = choose|k: int|
                                0 <= k < reqs_v.len() && (#[trigger] reqs_v[k])@ is Unnamed
                                    && reqs_v[k]@->Unnamed_0.url == tv@;
                            assert(srcm.requirements[k] == reqs_v[k]@);
                        }
                    }
                    return Err(e);
                },
            };
            let mut coerced = coerced;
            if let Some(u) = src.index_url {
                if let Some(existing) = acc.index_url {
                    if !crate::strutil::str_eq(existing.as_str(), u.as_str()) {
                        return Err(Error::ConflictError(existing, u));
                    }
                    acc.index_url = Some(existing);
                } else {
                    acc.index_url = Some(u);
                }
            }
            acc.overrides.append(&mut coerced);
            acc.overrides.append(&mut src.constraints);
            acc.overrides.append(&mut src.overrides);
            acc.extra_index_urls.append(&mut src.extra_index_urls);
            acc.no_index = acc.no_index || src.no_index;
            acc.find_links.append(&mut src.find_links);
            proof {
                assert(acc@.overrides =~= accm.overrides + coerce_entries(
                    srcm.requirements,
                )->Ok_0 + srcm.constraints + srcm.overrides);
                assert(acc@.extra_index_urls =~= accm.extra_index_urls + srcm.extra_index_urls);
                assert(acc@.find_links =~= accm.find_links + srcm.find_links);
                assert(acc@.requirements == accm.requirements);
                assert(acc@.constraints == accm.constraints);
                assert(acc@.editables == accm.editables);
                assert(acc@.extras == accm.extras);
                assert(acc@ == merge_step(accm, srcm, role)->Ok_0);
            }
            Ok(acc)
        },
    }
}

impl RequirementsSpecification {
    /// Reads and merges three ordered role lists of loaded sources into one
    /// specification, strictly in input order within each list and across
    /// lists. The result is exactly the denotation of `from_sources_spec`:
    /// no partial specification survives an error.
    #[verifier::rlimit(60)]
    pub fn from_sources(
        requirements: Vec<LoadedSource>,
        constraints: Vec<LoadedSource>,
        overrides: Vec<LoadedSource>,
        extras: &ExtrasSpecification,
    ) -> (r: Result<RequirementsSpecification, Error>)
        ensures
            r is Ok <==> from_sources_spec(
                requirements@.map_values(|s: LoadedSource| s@),
                constraints@.map_values(|s: LoadedSource| s@),
                overrides@.map_values(|s: LoadedSource| s@),
                extras@,
            ) is Ok,
            r is Ok ==> r.unwrap()@ == from_sources_spec(
                requirements@.map_values(|s: LoadedSource| s@),
                constraints@.map_values(|s: LoadedSource| s@),
                overrides@.map_values(|s: LoadedSource| s@),
                extras@,
            )->Ok_0,
            r is Ok ==> r.unwrap()@.extras.no_duplicates(),
            r is Err ==> r.unwrap_err().kind() == from_sources_spec(
                requirements@.map_values(|s: LoadedSource| s@),
                constraints@.map_values(|s: LoadedSource| s@),
                overrides@.map_values(|s: LoadedSource| s@),
                extras@,
            )->Err_0,
            r is Err && r.unwrap_err().kind() == ErrorKind::Parse ==> (r.unwrap_err()
                matches Error::ParseError(t) && names_source_text(
                t@,
                requirements@.map_values(|s: LoadedSource| s@) + constraints@.map_values(
                    |s: LoadedSource| s@,
                ) + overrides@.map_values(|s: LoadedSource| s@),
            )),
            r is Err && r.unwrap_err().kind() == ErrorKind::RoleViolation ==> (r.unwrap_err()
                matches Error::RoleViolationError(t) && names_unnamed_url(
                t@,
                constraints@.map_values(|s: LoadedSource| s@) + overrides@.map_values(
                    |s: LoadedSource| s@,
                ),
                extras@,
            )),
            r is Err && r.unwrap_err().kind() == ErrorKind::Conflict ==> (r.unwrap_err()
                matches Error::ConflictError(a, b) && a@ != b@ && cites_index_url(
                a@,
                requirements@.map_values(|s: LoadedSource| s@) + constraints@.map_values(
                    |s: LoadedSource| s@,
                ) + overrides@.map_values(|s: LoadedSource| s@),
                extras@,
            ) && cites_index_url(
                b@,
                requirements@.map_values(|s: LoadedSource| s@) + constraints@.map_values(
                    |s: LoadedSource| s@,
                ) + overrides@.map_values(|s: LoadedSource| s@),
                extras@,
            )),
    {
        let ghost r0 = requirements@.map_values(|s: LoadedSource| s@);
        let ghost c0 = constraints@.map_values(|s: LoadedSource| s@);
        let ghost o0 = overrides@.map_values(|s: LoadedSource| s@);
        let ghost all = r0 + c0 + o0;
        let mut acc = RequirementsSpecification::empty();
        let mut srcs = requirements;
        proof {
            assert(srcs@.map_values(|s: LoadedSource| s@) =~= r0.skip(0));
        }
        while srcs.len() > 0
            invariant
                r0 == requirements@.map_values(|s: LoadedSource| s@),
                c0 == constraints@.map_values(|s: LoadedSource| s@),
                o0 == overrides@.map_values(|s: LoadedSource| s@),
                all == r0 + c0 + o0,
                srcs@.len() <= r0.len(),
                srcs@.map_values(|s: LoadedSource| s@) == r0.skip(r0.len() - srcs@.len()),
                acc@.extras.no_duplicates(),
                acc@.index_url is Some ==> cites_index_url(acc@.index_url.unwrap(), all, extras@),
                fold_role(acc@, srcs@.map_values(|s: LoadedSource| s@), Role::Requirements, extras@)
                    == fold_role(empty_spec_model(), r0, Role::Requirements, extras@),
            decreases srcs.len(),
        {
            let ghost rm = srcs@.map_values(|s: LoadedSource| s@);
            let ghost accm = acc@;
            let ghost idx = r0.len() - rm.len();
            let s = srcs.remove(0);
            proof {
                broadcast use vstd::seq_lib::group_seq_properties;

                assert(rm == r0.skip(idx));
                assert(srcs@.map_values(|x: LoadedSource| x@) =~= rm.drop_first());
                assert(rm.drop_first() =~= r0.skip(idx + 1));
                assert(rm[0] == r0.skip(idx)[0]);
                assert(rm[0] == r0[idx]);
                assert((r0 + c0)[idx] == r0[idx]);
                assert(all[idx] == (r0 + c0)[idx]);
            }
            let persrc = match from_source(s, extras) {
                Ok(p) => p,
                Err(e) => {
                    proof {
                        crate::source::lemma_from_source_err_kind(rm[0], extras@);
                        assert(loaded_text(all[idx]) == loaded_text(rm[0]));
                    }
                    return Err(e);
                },
            };
            acc = match merge_step_exec(acc, persrc, Role::Requirements) {
                Ok(a) => a,
                Err(e) => {
                    proof {
                        let persrcm = from_source_spec(rm[0], extras@)->Ok_0;
                        lemma_coerce_err_kind(persrcm.requirements);
                        if persrcm.index_url is Some {
                            assert(cites_index_url(persrcm.index_url.unwrap(), all, extras@));
                        }
                    }
                    return Err(e);
                },
            };
            proof {
                let persrcm = from_source_spec(rm[0], extras@)->Ok_0;
                assert(acc@.index_url == merged_index_url(accm, persrcm));
                lemma_append_unique_no_dup(accm.extras, persrcm.extras);
                if acc@.index_url is Some && accm.index_url is None {
                    assert(cites_index_url(acc@.index_url.unwrap(), all, extras@));
                }
            }
        }
        proof {
            assert(srcs@.map_values(|s: LoadedSource| s@).len() == 0);
        }
        let mut srcs = constraints;
        let ghost a1 = acc@;
        proof {
            assert(fold_role(empty_spec_model(), r0, Role::Requirements, extras@) == Ok::<
                SpecModel,
                ErrorKind,
            >(a1));
        }
        proof {
            assert(srcs@.map_values(|s: LoadedSource| s@) =~= c0.skip(0));
        }
        while srcs.len() > 0
            invariant
                r0 == requirements@.map_values(|s: LoadedSource| s@),
                c0 == constraints@.map_values(|s: LoadedSource| s@),
                o0 == overrides@.map_values(|s: LoadedSource| s@),
                all == r0 + c0 + o0,
                srcs@.len() <= c0.len(),
                srcs@.map_values(|s: LoadedSource| s@) == c0.skip(c0.len() - srcs@.len()),
                acc@.extras.no_duplicates(),
                acc@.index_url is Some ==> cites_index_url(acc@.index_url.unwrap(), all, extras@),
                fold_role(empty_spec_model(), r0, Role::Requirements, extras@) == Ok::<
                    SpecModel,
                    ErrorKind,
                >(a1),
                fold_role(a1, c0, Role::Constraints, extras@) == fold_role(
                    acc@,
                    srcs@.map_values(|s: LoadedSource| s@),
                    Role::Constraints,
                    extras@,
                ),
            decreases srcs.len(),
        {
            let ghost rm = srcs@.map_values(|s: LoadedSource| s@);
            let ghost accm = acc@;
            let ghost idx = c0.len() - rm.len();
            let s = srcs.remove(0);
            proof {
                broadcast use vstd::seq_lib::group_seq_properties;

                assert(rm == c0.skip(idx));
                assert(srcs@.map_values(|x: LoadedSource| x@) =~= rm.drop_first());
                assert(rm.drop_first() =~= c0.skip(idx + 1));
                assert(rm[0] == c0.skip(idx)[0]);
                assert(rm[0] == c0[idx]);
                assert((r0 + c0)[r0.len() + idx] == c0[idx]);
                assert(all[r0.len() + idx] == (r0 + c0)[r0.len() + idx]);
            }
            let persrc = match from_source(s, extras) {
                Ok(p) => p,
                Err(e) => {
                    proof {
                        crate::source::lemma_from_source_err_kind(rm[0], extras@);
                        assert(loaded_text(all[r0.len() + idx]) == loaded_text(rm[0]));
                    }
                    return Err(e);
                },
            };
            acc = match merge_step_exec(acc, persrc, Role::Constraints) {
                Ok(a) => a,
                Err(e) => {
                    proof {
                        let persrcm = from_source_spec(rm[0], extras@)->Ok_0;
                        lemma_coerce_err_kind(persrcm.requirements);
                        if persrcm.index_url is Some {
                            assert(cites_index_url(persrcm.index_url.unwrap(), all, extras@));
                        }
                        let cw = c0 + o0;
                        assert(cw[idx] == c0[idx]);
                        if e.kind() == ErrorKind::RoleViolation && e is RoleViolationError {
                            let tv = e->RoleViolationError_0;
                            let k = choose|k: int|
                                0 <= k < persrcm.requirements.len() && (
                                #[trigger] persrcm.requirements[k]) is Unnamed
                                    && persrcm.requirements[k]->Unnamed_0.url == tv@;
                            assert(from_source_spec(cw[idx], extras@)->Ok_0.requirements[k]
                                is Unnamed && from_source_spec(
                                cw[idx],
                                extras@,
                            )->Ok_0.requirements[k]->Unnamed_0.url == tv@);
                            assert(names_unnamed_url(tv@, cw, extras@));
                        }
                    }
                    return Err(e);
                },
            };
            proof {
                let persrcm = from_source_spec(rm[0], extras@)->Ok_0;
                assert(acc@.index_url == merged_index_url(accm, persrcm));
                if acc@.index_url is Some && accm.index_url is None {
                    assert(cites_index_url(acc@.index_url.unwrap(), all, extras@));
                }
            }
        }
        proof {
            assert(srcs@.map_values(|s: LoadedSource| s@).len() == 0);
        }
        let mut srcs = overrides;
        let ghost a2 = acc@;
        proof {
            assert(fold_role(a1, c0, Role::Constraints, extras@) == Ok::<SpecModel, ErrorKind>(
                a2,
            ));
        }
        proof {
            assert(srcs@.map_values(|s: LoadedSource| s@) =~= o0.skip(0));
        }
        while srcs.len() > 0
            invariant
                r0 == requirements@.map_values(|s: LoadedSource| s@),
                c0 == constraints@.map_values(|s: LoadedSource| s@),
                o0 == overrides@.map_values(|s: LoadedSource| s@),
                all == r0 + c0 + o0,
                srcs@.len() <= o0.len(),
                srcs@.map_values(|s: LoadedSource| s@) == o0.skip(o0.len() - srcs@.len()),
                acc@.extras.no_duplicates(),
                acc@.index_url is Some ==> cites_index_url(acc@.index_url.unwrap(), all, extras@),
                fold_role(empty_spec_model(), r0, Role::Requirements, extras@) == Ok::<
                    SpecModel,
                    ErrorKind,
                >(a1),
                fold_role(a1, c0, Role::Constraints, extras@) == Ok::<SpecModel, ErrorKind>(a2),
                fold_role(a2, o0, Role::Overrides, extras@) == fold_role(
                    acc@,
                    srcs@.map_values(|s: LoadedSource| s@),
                    Role::Overrides,
                    extras@,
                ),
            decreases srcs.len(),
        {
            let ghost rm = srcs@.map_values(|s: LoadedSource| s@);
            let ghost accm = acc@;
            let ghost idx = o0.len() - rm.len();
            let s = srcs.remove(0);
            proof {
                broadcast use vstd::seq_lib::group_seq_properties;

                assert(rm == o0.skip(idx));
                assert(srcs@.map_values(|x: LoadedSource| x@) =~= rm.drop_first());
                assert(rm.drop_first() =~= o0.skip(idx + 1));
                assert(rm[0] == o0.skip(idx)[0]);
                assert(rm[0] == o0[idx]);
                assert(all[r0.len() + c0.len() + idx] == o0[idx]);
            }
            let persrc = match from_source(s, extras) {
                Ok(p) => p,
                Err(e) => {
                    proof {
                        crate::source::lemma_from_source_err_kind(rm[0], extras@);
                        assert(loaded_text(all[r0.len() + c0.len() + idx]) == loaded_text(rm[0]));
                    }
                    return Err(e);
                },
            };
            acc = match merge_step_exec(acc, persrc, Role::Overrides) {
                Ok(a) => a,
                Err(e) => {
                    proof {
                        let persrcm = from_source_spec(rm[0], extras@)->Ok_0;
                        lemma_coerce_err_kind(persrcm.requirements);
                        if persrcm.index_url is Some {
                            assert(cites_index_url(persrcm.index_url.unwrap(), all, extras@));
                        }
                        let cw = c0 + o0;
                        assert(cw[c0.len() + idx] == o0[idx]);
                        if e.kind() == ErrorKind::RoleViolation && e is RoleViolationError {
                            let tv = e->RoleViolationError_0;
                            let k = choose|k: int|
                                0 <= k < persrcm.requirements.len() && (
                                #[trigger] persrcm.requirements[k]) is Unnamed
                                    && persrcm.requirements[k]->Unnamed_0.url == tv@;
                            assert(from_source_spec(cw[c0.len() + idx], extras@)->Ok_0
                                .requirements[k] is Unnamed && from_source_spec(
                                cw[c0.len() + idx],
                                extras@,
                            )->Ok_0.requirements[k]->Unnamed_0.url == tv@);
                            assert(names_unnamed_url(tv@, cw, extras@));
                        }
                    }
                    return Err(e);
                },
            };
            proof {
                let persrcm = from_source_spec(rm[0], extras@)->Ok_0;
                assert(acc@.index_url == merged_index_url(accm, persrcm));
                if acc@.index_url is Some && accm.index_url is None {
                    assert(cites_index_url(acc@.index_url.unwrap(), all, extras@));
                }
            }
        }
        proof {
            assert(srcs@.map_values(|s: LoadedSource| s@).len() == 0);
        }
        Ok(acc)
    }

    /// Reads a plain list of requirements-role sources, with no constraints,
    /// overrides or extras.
    pub fn from_simple_sources(requirements: Vec<LoadedSource>) -> (r: Result<
        RequirementsSpecification,
        Error,
    >)
        ensures
            r is Ok <==> from_sources_spec(
                requirements@.map_values(|s: LoadedSource| s@),
                Seq::empty(),
                Seq::empty(),
                ExtrasModel::NoneRequested,
            ) is Ok,
            r is Ok ==> r.unwrap()@ == from_sources_spec(
                requirements@.map_values(|s: LoadedSource| s@),
                Seq::empty(),
                Seq::empty(),
                ExtrasModel::NoneRequested,
            )->Ok_0,
            r is Err ==> r.unwrap_err().kind() == from_sources_spec(
                requirements@.map_values(|s: LoadedSource| s@),
                Seq::empty(),
                Seq::empty(),
                ExtrasModel::NoneRequested,
            )->Err_0,
    {
        let cons: Vec<LoadedSource> = Vec::new();
        let overr: Vec<LoadedSource> = Vec::new();
        let extras = ExtrasSpecification::NoneRequested;
        proof {
            assert(cons@.map_values(|s: LoadedSource| s@) =~= Seq::<LoadedModel>::empty());
            assert(overr@.map_values(|s: LoadedSource| s@) =~= Seq::<LoadedModel>::empty());
        }
        RequirementsSpecification::from_sources(requirements, cons, overr, &extras)
    }
}

/// The first non-empty project name among a role list's sources, in source
/// order.
pub open spec fn first_project(srcs: Seq<LoadedModel>, extras: ExtrasModel) -> Option<Seq<char>>
    decreases srcs.len(),
{
    if srcs.len() == 0 {
        None
    } else {
        match from_source_spec(srcs[0], extras) {
            Ok(s) => if s.project is Some {
                s.project
            } else {
                first_project(srcs.drop_first(), extras)
            },
            Err(_) => first_project(srcs.drop_first(), extras),
        }
    }
}

proof fn lemma_fold_requirements_project(acc: SpecModel, srcs: Seq<LoadedModel>, extras: ExtrasModel)
    ensures
        fold_role(acc, srcs, Role::Requirements, extras) is Ok ==> fold_role(
            acc,
            srcs,
            Role::Requirements,
            extras,
        )->Ok_0.project == (if acc.project is Some {
            acc.project
        } else {
            first_project(srcs, extras)
        }),
    decreases srcs.len(),
{
    if srcs.len() > 0 {
        match from_source_spec(srcs[0], extras) {
            Ok(s) => match merge_step(acc, s, Role::Requirements) {
                Ok(acc2) => {
                    lemma_fold_requirements_project(acc2, srcs.drop_first(), extras);
                },
                Err(_) => {},
            },
            Err(_) => {},
        }
    }
}

proof fn lemma_fold_keeps_project(acc: SpecModel, srcs: Seq<LoadedModel>, role: Role, extras: ExtrasModel)
    requires
        role == Role::Constraints || role == Role::Overrides,
    ensures
        fold_role(acc, srcs, role, extras) is Ok ==> fold_role(acc, srcs, role, extras)->Ok_0.project
            == acc.project,
    decreases srcs.len(),
{
    if srcs.len() > 0 {
        match from_source_spec(srcs[0], extras) {
            Ok(s) => match merge_step(acc, s, role) {
                Ok(acc2) => {
                    lemma_fold_keeps_project(acc2, srcs.drop_first(), role, extras);
                },
                Err(_) => {},
            },
            Err(_) => {},
        }
    }
}

/// The aggregate's project name equals the first non-empty project name
/// among the requirements-role sources, in source order; constraints- and
/// overrides-role sources never contribute one.
pub proof fn lemma_first_project_wins(
    reqs: Seq<LoadedModel>,
    cons: Seq<LoadedModel>,
    overr: Seq<LoadedModel>,
    extras: ExtrasModel,
)
    ensures
        from_sources_spec(reqs, cons, overr, extras) is Ok ==> from_sources_spec(
            reqs,
            cons,
            overr,
            extras,
        )->Ok_0.project == first_project(reqs, extras),
{
    lemma_fold_requirements_project(empty_spec_model(), reqs, extras);
    if fold_role(empty_spec_model(), reqs, Role::Requirements, extras) is Ok {
        let a1 = fold_role(empty_spec_model(), reqs, Role::Requirements, extras)->Ok_0;
        lemma_fold_keeps_project(a1, cons, Role::Constraints, extras);
        if fold_role(a1, cons, Role::Constraints, extras) is Ok {
            let a2 = fold_role(a1, cons, Role::Constraints, extras)->Ok_0;
            lemma_fold_keeps_project(a2, overr, Role::Overrides, extras);
        }
    }
}

/// Merging a source whose explicit primary index URL differs from the one
/// already merged always raises the conflict error; repeating the same URL,
/// or giving none, never does, and in the requirements role the merge then
/// succeeds outright.
pub proof fn lemma_index_url_conflict(acc: SpecModel, src: SpecModel)
    ensures
        index_conflict(acc, src) ==> merge_step(acc, src, Role::Requirements) == Err::<
            SpecModel,
            ErrorKind,
        >(ErrorKind::Conflict),
        !index_conflict(acc, src) ==> merge_step(acc, src, Role::Requirements) is Ok,
        !index_conflict(acc, src) ==> (forall|role: Role|
            merge_step(acc, src, role) is Err ==> merge_step(acc, src, role)->Err_0
                != ErrorKind::Conflict),
{
    assert forall|role: Role|
        !index_conflict(acc, src) && merge_step(acc, src, role) is Err implies merge_step(
        acc,
        src,
        role,
    )->Err_0 != ErrorKind::Conflict by {
        lemma_coerce_err_kind(src.requirements);
    }
}

proof fn lemma_coerce_err_kind(entries: Seq<EntryModel>)
    ensures
        coerce_entries(entries) is Err ==> coerce_entries(entries)->Err_0
            == ErrorKind::RoleViolation,
        coerce_entries(entries) is Err <==> (exists|k: int|
            0 <= k < entries.len() && entries[k] is Unnamed),
    decreases entries.len(),
{
    if entries.len() > 0 {
        lemma_coerce_err_kind(entries.drop_first());
        match entries[0] {
            EntryModel::Named(_) => {
                if coerce_entries(entries.drop_first()) is Err {
                    let k = choose|k: int|
                        0 <= k < entries.drop_first().len() && entries.drop_first()[k] is Unnamed;
                    assert(entries[k + 1] is Unnamed);
                }
                if exists|k: int| 0 <= k < entries.len() && entries[k] is Unnamed {
                    let k = choose|k: int| 0 <= k < entries.len() && entries[k] is Unnamed;
                    assert(entries.drop_first()[k - 1] is Unnamed);
                }
            },
            EntryModel::Unnamed(_) => {
                assert(entries[0] is Unnamed);
            },
        }
    }
}

/// Coercing a source that carries any unnamed requirement into the
/// constraints or overrides role always raises the role-violation error.
pub proof fn lemma_unnamed_coercion_rejected(acc: SpecModel, src: SpecModel, role: Role)
    requires
        role == Role::Constraints || role == Role::Overrides,
        exists|k: int| 0 <= k < src.requirements.len() && src.requirements[k] is Unnamed,
    ensures
        merge_step(acc, src, role) == Err::<SpecModel, ErrorKind>(ErrorKind::RoleViolation),
{
    lemma_coerce_err_kind(src.requirements);
}

proof fn lemma_fold_coerces_all(
    acc: SpecModel,
    srcs: Seq<LoadedModel>,
    role: Role,
    extras: ExtrasModel,
)
    requires
        role == Role::Constraints || role == Role::Overrides,
    ensures
        fold_role(acc, srcs, role, extras) is Ok ==> forall|i: int|
            0 <= i < srcs.len() ==> (#[trigger] from_source_spec(srcs[i], extras)) is Ok
                && coerce_entries(from_source_spec(srcs[i], extras)->Ok_0.requirements) is Ok,
    decreases srcs.len(),
{
    if srcs.len() > 0 && fold_role(acc, srcs, role, extras) is Ok {
        match from_source_spec(srcs[0], extras) {
            Ok(sm) => match merge_step(acc, sm, role) {
                Ok(acc2) => {
                    lemma_fold_coerces_all(acc2, srcs.drop_first(), role, extras);
                    assert(forall|i: int|
                        1 <= i < srcs.len() ==> srcs[i] == srcs.drop_first()[i - 1]);
                },
                Err(_) => {},
            },
            Err(_) => {},
        }
    }
}

/// Whatever the role lists hold: if the whole aggregation succeeds, no
/// constraints- or overrides-role source carried an unnamed requirement; so
/// an unnamed requirement anywhere in those lists always aborts the merge.
pub proof fn lemma_unnamed_never_aggregates(
    reqs: Seq<LoadedModel>,
    cons: Seq<LoadedModel>,
    overr: Seq<LoadedModel>,
    extras: ExtrasModel,
)
    ensures
        from_sources_spec(reqs, cons, overr, extras) is Ok ==> forall|i: int, k: int|
            0 <= i < cons.len() && (#[trigger] from_source_spec(cons[i], extras)) is Ok && 0 <= k
                < from_source_spec(cons[i], extras)->Ok_0.requirements.len() ==> !((
            #[trigger] from_source_spec(cons[i], extras)->Ok_0.requirements[k]) is Unnamed),
        from_sources_spec(reqs, cons, overr, extras) is Ok ==> forall|i: int, k: int|
            0 <= i < overr.len() && (#[trigger] from_source_spec(overr[i], extras)) is Ok && 0 <= k
                < from_source_spec(overr[i], extras)->Ok_0.requirements.len() ==> !((
            #[trigger] from_source_spec(overr[i], extras)->Ok_0.requirements[k]) is Unnamed),
{
    if from_sources_spec(reqs, cons, overr, extras) is Ok {
        let a1 = fold_role(empty_spec_model(), reqs, Role::Requirements, extras)->Ok_0;
        let a2 = fold_role(a1, cons, Role::Constraints, extras)->Ok_0;
        lemma_fold_coerces_all(a1, cons, Role::Constraints, extras);
        lemma_fold_coerces_all(a2, overr, Role::Overrides, extras);
        assert forall|i: int|
            0 <= i < cons.len() && (#[trigger] from_source_spec(cons[i], extras))
                is Ok implies !(exists|k: int|
            0 <= k < from_source_spec(cons[i], extras)->Ok_0.requirements.len()
                && from_source_spec(cons[i], extras)->Ok_0.requirements[k] is Unnamed) by {
            lemma_coerce_err_kind(from_source_spec(cons[i], extras)->Ok_0.requirements);
        }
        assert forall|i: int|
            0 <= i < overr.len() && (#[trigger] from_source_spec(overr[i], extras))
                is Ok implies !(exists|k: int|
            0 <= k < from_source_spec(overr[i], extras)->Ok_0.requirements.len()
                && from_source_spec(overr[i], extras)->Ok_0.requirements[k] is Unnamed) by {
            lemma_coerce_err_kind(from_source_spec(overr[i], extras)->Ok_0.requirements);
        }
    }
}

proof fn lemma_fold_urls_agree(
    acc: SpecModel,
    srcs: Seq<LoadedModel>,
    role: Role,
    extras: ExtrasModel,
)
    ensures
        fold_role(acc, srcs, role, extras) is Ok ==> {
            let res = fold_role(acc, srcs, role, extras)->Ok_0;
            &&& (acc.index_url is Some ==> res.index_url == acc.index_url)
            &&& forall|i: int|
                0 <= i < srcs.len() && (#[trigger] from_source_spec(srcs[i], extras)) is Ok
                    && from_source_spec(srcs[i], extras)->Ok_0.index_url is Some
                    ==> res.index_url == from_source_spec(srcs[i], extras)->Ok_0.index_url
        },
    decreases srcs.len(),
{
    if srcs.len() > 0 && fold_role(acc, srcs, role, extras) is Ok {
        match from_source_spec(srcs[0], extras) {
            Ok(sm) => match merge_step(acc, sm, role) {
                Ok(acc2) => {
                    lemma_fold_urls_agree(acc2, srcs.drop_first(), role, extras);
                    assert(forall|i: int|
                        1 <= i < srcs.len() ==> srcs[i] == srcs.drop_first()[i - 1]);
                },
                Err(_) => {},
            },
            Err(_) => {},
        }
    }
}

/// Every explicit primary index URL that survives reading agrees with the
/// aggregate's: on success, all the sources' declared primary URLs are one
/// and the same, so two distinct ones can never both merge.
pub proof fn lemma_primary_urls_agree(
    reqs: Seq<LoadedModel>,
    cons: Seq<LoadedModel>,
    overr: Seq<LoadedModel>,
    extras: ExtrasModel,
)
    ensures
        from_sources_spec(reqs, cons, overr, extras) is Ok ==> forall|i: int|
            0 <= i < (reqs + cons + overr).len() && (#[trigger] from_source_spec(
                (reqs + cons + overr)[i],
                extras,
            )) is Ok && from_source_spec((reqs + cons + overr)[i], extras)->Ok_0.index_url
                is Some ==> from_sources_spec(reqs, cons, overr, extras)->Ok_0.index_url
                == from_source_spec((reqs + cons + overr)[i], extras)->Ok_0.index_url,
{
    if from_sources_spec(reqs, cons, overr, extras) is Ok {
        let a1 = fold_role(empty_spec_model(), reqs, Role::Requirements, extras)->Ok_0;
        let a2 = fold_role(a1, cons, Role::Constraints, extras)->Ok_0;
        let a3 = fold_role(a2, overr, Role::Overrides, extras)->Ok_0;
        lemma_fold_urls_agree(empty_spec_model(), reqs, Role::Requirements, extras);
        lemma_fold_urls_agree(a1, cons, Role::Constraints, extras);
        lemma_fold_urls_agree(a2, overr, Role::Overrides, extras);
        assert forall|i: int|
            0 <= i < (reqs + cons + overr).len() && (#[trigger] from_source_spec(
                (reqs + cons + overr)[i],
                extras,
            )) is Ok && from_source_spec((reqs + cons + overr)[i], extras)->Ok_0.index_url
                is Some implies a3.index_url == from_source_spec(
            (reqs + cons + overr)[i],
            extras,
        )->Ok_0.index_url by {
            if i < reqs.len() {
                assert((reqs + cons + overr)[i] == reqs[i]);
            } else if i < reqs.len() + cons.len() {
                assert((reqs + cons + overr)[i] == cons[i - reqs.len()]);
            } else {
                assert((reqs + cons + overr)[i] == overr[i - reqs.len() - cons.len()]);
            }
        }
    }
}

/// When every source that declares an explicit primary index URL declares
/// the same one, the aggregation never raises the conflict error, whatever
/// else goes wrong.
pub proof fn lemma_repeated_url_never_conflicts(
    reqs: Seq<LoadedModel>,
    cons: Seq<LoadedModel>,
    overr: Seq<LoadedModel>,
    extras: ExtrasModel,
    u: Seq<char>,
)
    requires
        forall|i: int|
            0 <= i < (reqs + cons + overr).len() && (#[trigger] from_source_spec(
                (reqs + cons + overr)[i],
                extras,
            )) is Ok && from_source_spec((reqs + cons + overr)[i], extras)->Ok_0.index_url
                is Some ==> from_source_spec((reqs + cons + overr)[i], extras)->Ok_0.index_url
                == Some(u),
    ensures
        from_sources_spec(reqs, cons, overr, extras) is Err ==> from_sources_spec(
            reqs,
            cons,
            overr,
            extras,
        )->Err_0 != ErrorKind::Conflict,
{
    assert forall|i: int|
        0 <= i < reqs.len() && (#[trigger] from_source_spec(reqs[i], extras)) is Ok
            && from_source_spec(reqs[i], extras)->Ok_0.index_url is Some implies from_source_spec(
        reqs[i],
        extras,
    )->Ok_0.index_url == Some(u) by {
        assert((reqs + cons + overr)[i] == reqs[i]);
    }
    assert forall|i: int|
        0 <= i < cons.len() && (#[trigger] from_source_spec(cons[i], extras)) is Ok
            && from_source_spec(cons[i], extras)->Ok_0.index_url is Some implies from_source_spec(
        cons[i],
        extras,
    )->Ok_0.index_url == Some(u) by {
        assert((reqs + cons + overr)[reqs.len() + i] == cons[i]);
    }
    assert forall|i: int|
        0 <= i < overr.len() && (#[trigger] from_source_spec(overr[i], extras)) is Ok
            && from_source_spec(overr[i], extras)->Ok_0.index_url is Some implies from_source_spec(
        overr[i],
        extras,
    )->Ok_0.index_url == Some(u) by {
        assert((reqs + cons + overr)[reqs.len() + cons.len() + i] == overr[i]);
    }
    lemma_fold_no_conflict(empty_spec_model(), reqs, Role::Requirements, extras, u);
    if fold_role(empty_spec_model(), reqs, Role::Requirements, extras) is Ok {
        let a1 = fold_role(empty_spec_model(), reqs, Role::Requirements, extras)->Ok_0;
        lemma_fold_no_conflict(a1, cons, Role::Constraints, extras, u);
        if fold_role(a1, cons, Role::Constraints, extras) is Ok {
            let a2 = fold_role(a1, cons, Role::Constraints, extras)->Ok_0;
            lemma_fold_no_conflict(a2, overr, Role::Overrides, extras, u);
        }
    }
}

proof fn lemma_fold_no_conflict(
    acc: SpecModel,
    srcs: Seq<LoadedModel>,
    role: Role,
    extras: ExtrasModel,
    u: Seq<char>,
)
    requires
        acc.index_url is Some ==> acc.index_url == Some(u),
        forall|i: int|
            0 <= i < srcs.len() && (#[trigger] from_source_spec(srcs[i], extras)) is Ok
                && from_source_spec(srcs[i], extras)->Ok_0.index_url is Some
                ==> from_source_spec(srcs[i], extras)->Ok_0.index_url == Some(u),
    ensures
        fold_role(acc, srcs, role, extras) is Err ==> fold_role(acc, srcs, role, extras)->Err_0
            != ErrorKind::Conflict,
        fold_role(acc, srcs, role, extras) is Ok ==> (fold_role(acc, srcs, role, extras)->Ok_0
            .index_url is Some ==> fold_role(acc, srcs, role, extras)->Ok_0.index_url == Some(u)),
    decreases srcs.len(),
{
    if srcs.len() > 0 {
        crate::source::lemma_from_source_err_kind(srcs[0], extras);
        match from_source_spec(srcs[0], extras) {
            Ok(sm) => {
                lemma_coerce_err_kind(sm.requirements);
                assert(!index_conflict(acc, sm));
                match merge_step(acc, sm, role) {
                    Ok(acc2) => {
                        assert(forall|i: int|
                            1 <= i < srcs.len() ==> srcs[i] == srcs.drop_first()[i - 1]);
                        lemma_fold_no_conflict(acc2, srcs.drop_first(), role, extras, u);
                    },
                    Err(_) => {},
                }
            },
            Err(_) => {},
        }
    }
}

} // verus!
