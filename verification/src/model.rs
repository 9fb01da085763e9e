//! A mathematical model of the remote directory and of what executing a plan
//! does to it, with end-to-end theorems about the clearing phase: the actions
//! of a successful clearing plan, applied in order, delete exactly the
//! orphaned tag-roles and strip the member of every tag-role of the category.

use vstd::prelude::*;

use crate::laws::is_tag_role_id;
use crate::laws::lemma_clear_garbage_collects;
use crate::laws::lemma_clear_touches_only_held_tag_roles;
use crate::laws::lemma_concat_cancel_suffix;
use crate::laws::lemma_contains_step;
use crate::parse::lemma_parse_no_duplicates;
use crate::parse::parse_spec;
use crate::sync::ActionV;
use crate::sync::CharKind;
use crate::sync::MemberInfo;
use crate::sync::RoleInfo;
use crate::sync::assign_plan;
use crate::sync::clear_plan;
use crate::sync::clear_step;
use crate::sync::colour_spec;
use crate::sync::find_named_spec;
use crate::sync::find_role_spec;
use crate::sync::postfix_spec;
use crate::sync::role_empty_spec;

verus! {

/// A role of the model directory.
pub struct RoleV {
    pub id: u64,
    pub name: Seq<u8>,
}

/// A member of the model directory and the roles the member holds.
pub struct MemberV {
    pub user_id: u64,
    pub held: Seq<u64>,
}

/// The whole directory: the guild's role table and its members.
pub struct DirectoryV {
    pub roles: Seq<RoleV>,
    pub members: Seq<MemberV>,
}

pub open spec fn role_view(r: RoleInfo) -> RoleV {
    RoleV { id: r.id, name: r.name@ }
}

pub open spec fn roles_view(rs: Seq<RoleInfo>) -> Seq<RoleV> {
    rs.map_values(|r: RoleInfo| role_view(r))
}

pub open spec fn member_view(m: MemberInfo) -> MemberV {
    MemberV { user_id: m.user_id, held: m.roles@ }
}

pub open spec fn members_view(ms: Seq<MemberInfo>) -> Seq<MemberV> {
    ms.map_values(|m: MemberInfo| member_view(m))
}

/// One directory mutation, as the remote directory honours it: `u` is the
/// acting member and `fresh` the identifier the directory assigns to a
/// created role. Deleting a role strips it from every member.
pub open spec fn apply_action(d: DirectoryV, u: u64, a: ActionV, fresh: u64) -> DirectoryV {
    match a {
        ActionV::RemoveMemberRole { role_id } => DirectoryV {
            roles: d.roles,
            members: d.members.map_values(
                |m: MemberV|
                    if m.user_id == u {
                        MemberV { user_id: m.user_id, held: m.held.filter(|x: u64| x != role_id) }
                    } else {
                        m
                    },
            ),
        },
        ActionV::DeleteRole { role_id } => DirectoryV {
            roles: d.roles.filter(|r: RoleV| r.id != role_id),
            members: d.members.map_values(
                |m: MemberV| MemberV {
                    user_id: m.user_id,
                    held: m.held.filter(|x: u64| x != role_id),
                },
            ),
        },
        ActionV::AddMemberRole { role_id } => DirectoryV {
            roles: d.roles,
            members: d.members.map_values(
                |m: MemberV|
                    if m.user_id == u {
                        MemberV { user_id: m.user_id, held: m.held.push(role_id) }
                    } else {
                        m
                    },
            ),
        },
        ActionV::CreateRoleAndAdd { name, colour: _ } => DirectoryV {
            roles: d.roles.push(RoleV { id: fresh, name: name }),
            members: d.members.map_values(
                |m: MemberV|
                    if m.user_id == u {
                        MemberV { user_id: m.user_id, held: m.held.push(fresh) }
                    } else {
                        m
                    },
            ),
        },
    }
}

/// A whole plan applied in order; `fresh` supplies, head first, the
/// identifiers of the roles that creations bring into being.
pub open spec fn apply_plan(d: DirectoryV, u: u64, plan: Seq<ActionV>, fresh: Seq<u64>) -> DirectoryV
    decreases plan.len(),
{
    if plan.len() == 0 {
        d
    } else {
        let f = if fresh.len() > 0 {
            fresh[0]
        } else {
            0
        };
        if plan[0] matches ActionV::CreateRoleAndAdd { .. } {
            apply_plan(apply_action(d, u, plan[0], f), u, plan.skip(1), fresh.skip(1))
        } else {
            apply_plan(apply_action(d, u, plan[0], f), u, plan.skip(1), fresh)
        }
    }
}

/// A plan that only removes roles from the member and deletes roles from the
/// guild — the shape of every clearing plan.
pub open spec fn only_remove_delete(plan: Seq<ActionV>) -> bool {
    forall|i: int|
        0 <= i < plan.len() ==> ((#[trigger] plan[i]) matches ActionV::RemoveMemberRole { .. }
            || plan[i] matches ActionV::DeleteRole { .. })
}

/// Every successful clearing plan only removes and deletes.
pub proof fn lemma_clear_plan_shape(
    roles: Seq<RoleInfo>,
    members: Seq<MemberInfo>,
    self_id: u64,
    held: Seq<u64>,
    kind: CharKind,
)
    ensures
        clear_plan(roles, members, self_id, held, kind) matches Ok(plan) ==> only_remove_delete(
            plan,
        ),
    decreases held.len(),
{
    if held.len() > 0 && clear_plan(roles, members, self_id, held, kind) is Ok {
        lemma_clear_plan_shape(roles, members, self_id, held.skip(1), kind);
        let role0 = find_role_spec(roles, held[0]).unwrap();
        let step = clear_step(members, self_id, role0, held[0], kind);
        let rest = clear_plan(roles, members, self_id, held.skip(1), kind).unwrap();
        assert forall|i: int|
            0 <= i < (step + rest).len() implies ((#[trigger] (step + rest)[i]) matches
            ActionV::RemoveMemberRole { .. } || (step + rest)[i] matches ActionV::DeleteRole {
                ..
            }) by {
            if i >= step.len() {
                assert((step + rest)[i] == rest[i - step.len()]);
            }
        }
    }
}

/// What a remove-and-delete plan leaves in the role table: exactly the roles
/// whose identifier the plan does not delete.
pub proof fn lemma_apply_plan_roles(
    d: DirectoryV,
    u: u64,
    plan: Seq<ActionV>,
    fresh: Seq<u64>,
    r: RoleV,
)
    requires
        only_remove_delete(plan),
    ensures
        apply_plan(d, u, plan, fresh).roles.contains(r) <==> (d.roles.contains(r)
            && !plan.contains(ActionV::DeleteRole { role_id: r.id })),
    decreases plan.len(),
{
    broadcast use vstd::prelude::Seq::lemma_filter_contains_rev;

    if plan.len() > 0 {
        let d1 = apply_action(
            d,
            u,
            plan[0],
            if fresh.len() > 0 {
                fresh[0]
            } else {
                0
            },
        );
        assert(only_remove_delete(plan.skip(1))) by {
            assert(forall|i: int| 0 <= i < plan.skip(1).len() ==> plan.skip(1)[i] == plan[i + 1]);
        }
        lemma_apply_plan_roles(d1, u, plan.skip(1), fresh, r);
        lemma_contains_step(plan, ActionV::DeleteRole { role_id: r.id });
        match plan[0] {
            ActionV::DeleteRole { role_id } => {
                assert(d1.roles.contains(r) <==> (d.roles.contains(r) && r.id != role_id)) by {
                    if d1.roles.contains(r) {
                        let i = choose|i: int| 0 <= i < d1.roles.len() && d1.roles[i] == r;
                        d.roles.lemma_filter_pred(|x: RoleV| x.id != role_id, i);
                    }
                    if d.roles.contains(r) && r.id != role_id {
                        let i = choose|i: int| 0 <= i < d.roles.len() && d.roles[i] == r;
                        d.roles.lemma_filter_contains(|x: RoleV| x.id != role_id, i);
                    }
                }
            },
            _ => {},
        }
    }
}

/// What a remove-and-delete plan leaves in a member's holdings: the role
/// identifiers the member held, less those the plan deletes from the guild,
/// and — for the acting member — less those the plan removes.
pub proof fn lemma_apply_plan_held(
    d: DirectoryV,
    u: u64,
    plan: Seq<ActionV>,
    fresh: Seq<u64>,
    k: int,
    rid: u64,
)
    requires
        only_remove_delete(plan),
        0 <= k < d.members.len(),
    ensures
        apply_plan(d, u, plan, fresh).members.len() == d.members.len(),
        apply_plan(d, u, plan, fresh).members[k].user_id == d.members[k].user_id,
        apply_plan(d, u, plan, fresh).members[k].held.contains(rid) <==> (d.members[k].held.contains(
            rid,
        ) && !(d.members[k].user_id == u && plan.contains(
            ActionV::RemoveMemberRole { role_id: rid },
        )) && !plan.contains(ActionV::DeleteRole { role_id: rid })),
    decreases plan.len(),
{
    broadcast use vstd::prelude::Seq::lemma_filter_contains_rev;

    if plan.len() > 0 {
        let d1 = apply_action(
            d,
            u,
            plan[0],
            if fresh.len() > 0 {
                fresh[0]
            } else {
                0
            },
        );
        assert(only_remove_delete(plan.skip(1))) by {
            assert(forall|i: int| 0 <= i < plan.skip(1).len() ==> plan.skip(1)[i] == plan[i + 1]);
        }
        lemma_apply_plan_held(d1, u, plan.skip(1), fresh, k, rid);
        lemma_contains_step(plan, ActionV::RemoveMemberRole { role_id: rid });
        lemma_contains_step(plan, ActionV::DeleteRole { role_id: rid });
        let m = d.members[k];
        match plan[0] {
            ActionV::RemoveMemberRole { role_id } => {
                if m.user_id == u {
                    assert(d1.members[k].held.contains(rid) <==> (m.held.contains(rid) && rid
                        != role_id)) by {
                        if d1.members[k].held.contains(rid) {
                            let i = choose|i: int|
                                0 <= i < d1.members[k].held.len() && d1.members[k].held[i] == rid;
                            m.held.lemma_filter_pred(|x: u64| x != role_id, i);
                        }
                        if m.held.contains(rid) && rid != role_id {
                            let i = choose|i: int| 0 <= i < m.held.len() && m.held[i] == rid;
                            m.held.lemma_filter_contains(|x: u64| x != role_id, i);
                        }
                    }
                }
            },
            ActionV::DeleteRole { role_id } => {
                assert(d1.members[k].held.contains(rid) <==> (m.held.contains(rid) && rid
                    != role_id)) by {
                    if d1.members[k].held.contains(rid) {
                        let i = choose|i: int|
                            0 <= i < d1.members[k].held.len() && d1.members[k].held[i] == rid;
                        m.held.lemma_filter_pred(|x: u64| x != role_id, i);
                    }
                    if m.held.contains(rid) && rid != role_id {
                        let i = choose|i: int| 0 <= i < m.held.len() && m.held[i] == rid;
                        m.held.lemma_filter_contains(|x: u64| x != role_id, i);
                    }
                }
            },
            _ => {},
        }
    }
}

/// Garbage collection, end to end: execute a successful clearing plan for
/// the member `u` against the directory it was planned from. A tag-role of
/// the category that `u` held and nobody else holds disappears from the role
/// table; one that another member still holds survives; and `u` is left
/// holding no tag-role of the category that the plan covered.
pub proof fn lemma_clear_execution(
    roles: Seq<RoleInfo>,
    members: Seq<MemberInfo>,
    u: u64,
    held: Seq<u64>,
    kind: CharKind,
    rid: u64,
    k: int,
)
    requires
        clear_plan(roles, members, u, held, kind) is Ok,
        0 <= k < members.len(),
    ensures
        ({
            let plan = clear_plan(roles, members, u, held, kind).unwrap();
            let d = DirectoryV { roles: roles_view(roles), members: members_view(members) };
            let d2 = apply_plan(d, u, plan, Seq::empty());
            &&& (held.contains(rid) && is_tag_role_id(roles, rid, kind) && role_empty_spec(
                members,
                u,
                rid,
            ) ==> forall|r: RoleV| #[trigger] d2.roles.contains(r) ==> r.id != rid)
            &&& (!role_empty_spec(members, u, rid) ==> forall|r: RoleV|
                #[trigger] d.roles.contains(r) && r.id == rid ==> d2.roles.contains(r))
            &&& (members[k].user_id == u && held.contains(rid) && is_tag_role_id(roles, rid, kind)
                ==> !d2.members[k].held.contains(rid))
        }),
{
    let plan = clear_plan(roles, members, u, held, kind).unwrap();
    let d = DirectoryV { roles: roles_view(roles), members: members_view(members) };
    let d2 = apply_plan(d, u, plan, Seq::empty());
    lemma_clear_plan_shape(roles, members, u, held, kind);
    lemma_clear_garbage_collects(roles, members, u, held, kind, rid);
    lemma_clear_touches_only_held_tag_roles(roles, members, u, held, kind, rid);
    if held.contains(rid) && is_tag_role_id(roles, rid, kind) && role_empty_spec(members, u, rid) {
        assert forall|r: RoleV| #[trigger] d2.roles.contains(r) implies r.id != rid by {
            lemma_apply_plan_roles(d, u, plan, Seq::empty(), r);
        }
    }
    if !role_empty_spec(members, u, rid) {
        assert forall|r: RoleV| #[trigger] d.roles.contains(r) && r.id == rid implies d2.roles.contains(
            r,
        ) by {
            lemma_apply_plan_roles(d, u, plan, Seq::empty(), r);
        }
    }
    if members[k].user_id == u && held.contains(rid) && is_tag_role_id(roles, rid, kind) {
        lemma_apply_plan_held(d, u, plan, Seq::empty(), k, rid);
    }
}

/// How many roles of the table carry the given display name.
pub open spec fn count_named(roles: Seq<RoleV>, n: Seq<u8>) -> nat {
    roles.filter(|r: RoleV| r.name == n).len()
}

/// A plan that only adds roles to the member and creates roles — the shape
/// of every assignment plan.
pub open spec fn only_add_create(plan: Seq<ActionV>) -> bool {
    forall|i: int|
        0 <= i < plan.len() ==> ((#[trigger] plan[i]) matches ActionV::AddMemberRole { .. }
            || plan[i] matches ActionV::CreateRoleAndAdd { .. })
}

/// How many creations of a role with the given name a plan holds.
pub open spec fn count_create_named(plan: Seq<ActionV>, n: Seq<u8>) -> nat
    decreases plan.len(),
{
    if plan.len() == 0 {
        0
    } else {
        (match plan[0] {
            ActionV::CreateRoleAndAdd { name, colour: _ } => if name == n {
                1nat
            } else {
                0nat
            },
            _ => 0nat,
        }) + count_create_named(plan.skip(1), n)
    }
}

proof fn lemma_count_create_named_add(a: Seq<ActionV>, b: Seq<ActionV>, n: Seq<u8>)
    ensures
        count_create_named(a + b, n) == count_create_named(a, n) + count_create_named(b, n),
    decreases a.len(),
{
    if a.len() == 0 {
        assert(a + b =~= b);
    } else {
        lemma_count_create_named_add(a.skip(1), b, n);
        assert((a + b).skip(1) =~= a.skip(1) + b);
        assert((a + b)[0] == a[0]);
    }
}

/// Every assignment plan only adds and creates.
pub proof fn lemma_assign_plan_shape(roles: Seq<RoleInfo>, tags: Seq<Seq<u8>>, kind: CharKind)
    ensures
        only_add_create(assign_plan(roles, tags, kind)),
    decreases tags.len(),
{
    if tags.len() > 0 {
        lemma_assign_plan_shape(roles, tags.skip(1), kind);
        let name0 = tags[0] + postfix_spec(kind);
        let rest = assign_plan(roles, tags.skip(1), kind);
        let head = if find_named_spec(roles, name0) is Some {
            seq![ActionV::AddMemberRole { role_id: find_named_spec(roles, name0).unwrap().id }]
        } else {
            seq![ActionV::CreateRoleAndAdd { name: name0, colour: colour_spec(kind) }]
        };
        assert(assign_plan(roles, tags, kind) == head + rest);
        assert forall|i: int|
            0 <= i < (head + rest).len() implies ((#[trigger] (head + rest)[i]) matches
            ActionV::AddMemberRole { .. } || (head + rest)[i] matches ActionV::CreateRoleAndAdd {
                ..
            }) by {
            if i >= head.len() {
                assert((head + rest)[i] == rest[i - head.len()]);
            }
        }
    }
}

/// What an add-and-create plan does to the number of roles of a given name:
/// each creation of the name adds one role bearing it, and nothing else
/// touches the role table.
pub proof fn lemma_apply_plan_count(
    d: DirectoryV,
    u: u64,
    plan: Seq<ActionV>,
    fresh: Seq<u64>,
    n: Seq<u8>,
)
    requires
        only_add_create(plan),
    ensures
        count_named(apply_plan(d, u, plan, fresh).roles, n) == count_named(d.roles, n)
            + count_create_named(plan, n),
    decreases plan.len(),
{
    broadcast use vstd::prelude::Seq::lemma_filter_len_push;

    if plan.len() > 0 {
        let f = if fresh.len() > 0 {
            fresh[0]
        } else {
            0
        };
        let d1 = apply_action(d, u, plan[0], f);
        assert(only_add_create(plan.skip(1))) by {
            assert(forall|i: int| 0 <= i < plan.skip(1).len() ==> plan.skip(1)[i] == plan[i + 1]);
        }
        if plan[0] matches ActionV::CreateRoleAndAdd { .. } {
            lemma_apply_plan_count(d1, u, plan.skip(1), fresh.skip(1), n);
        } else {
            lemma_apply_plan_count(d1, u, plan.skip(1), fresh, n);
        }
        match plan[0] {
            ActionV::CreateRoleAndAdd { name, colour: _ } => {
                assert(d1.roles == d.roles.push(RoleV { id: f, name: name }));
                assert(d.roles.push(RoleV { id: f, name: name }).filter(
                    |r: RoleV| r.name == n,
                ).len() == d.roles.filter(|r: RoleV| r.name == n).len() + (if name == n {
                    1int
                } else {
                    0int
                }));
            },
            _ => {
                assert(d1.roles == d.roles);
            },
        }
    }
}

/// A name is in the role snapshot exactly when some entry carries it.
pub proof fn lemma_find_named_none(roles: Seq<RoleInfo>, n: Seq<u8>)
    ensures
        find_named_spec(roles, n) is None <==> (forall|i: int|
            0 <= i < roles.len() ==> (#[trigger] roles[i]).name@ != n),
    decreases roles.len(),
{
    if roles.len() > 0 {
        lemma_find_named_none(roles.skip(1), n);
        assert(forall|i: int| 0 <= i < roles.skip(1).len() ==> roles.skip(1)[i] == roles[i + 1]);
        if find_named_spec(roles, n) is None {
            assert forall|i: int| 0 <= i < roles.len() implies (#[trigger] roles[i]).name@ != n by {
                if i > 0 {
                    assert(roles.skip(1)[i - 1] == roles[i]);
                }
            }
        }
    }
}

/// A name absent from the snapshot is absent from the model role table.
pub proof fn lemma_count_named_zero(roles: Seq<RoleInfo>, n: Seq<u8>)
    requires
        find_named_spec(roles, n) is None,
    ensures
        count_named(roles_view(roles), n) == 0,
{
    broadcast use vstd::prelude::Seq::lemma_filter_contains_rev;

    lemma_find_named_none(roles, n);
    let filtered = roles_view(roles).filter(|r: RoleV| r.name == n);
    if filtered.len() > 0 {
        roles_view(roles).lemma_filter_pred(|r: RoleV| r.name == n, 0);
        assert(filtered.contains(filtered[0]));
        assert(roles_view(roles).contains(filtered[0]));
        let i = choose|i: int|
            0 <= i < roles_view(roles).len() && roles_view(roles)[i] == filtered[0];
        assert(roles[i].name@ != n);
    }
}

/// How often an assignment plan creates a given name: once when the name is
/// a desired tag's role name and the snapshot lacks it, never otherwise.
pub proof fn lemma_assign_create_count(
    roles: Seq<RoleInfo>,
    tags: Seq<Seq<u8>>,
    kind: CharKind,
    n: Seq<u8>,
)
    requires
        forall|i: int, j: int| 0 <= i < j < tags.len() ==> tags[i] != tags[j],
    ensures
        count_create_named(assign_plan(roles, tags, kind), n) == (if (exists|j: int|
            0 <= j < tags.len() && n == #[trigger] tags[j] + postfix_spec(kind)) && find_named_spec(
            roles,
            n,
        ) is None {
            1nat
        } else {
            0nat
        }),
    decreases tags.len(),
{
    if tags.len() > 0 {
        assert(forall|i: int, j: int|
            0 <= i < j < tags.skip(1).len() ==> tags.skip(1)[i] != tags.skip(1)[j]);
        lemma_assign_create_count(roles, tags.skip(1), kind, n);
        let name0 = tags[0] + postfix_spec(kind);
        let rest = assign_plan(roles, tags.skip(1), kind);
        let head = if find_named_spec(roles, name0) is Some {
            seq![ActionV::AddMemberRole { role_id: find_named_spec(roles, name0).unwrap().id }]
        } else {
            seq![ActionV::CreateRoleAndAdd { name: name0, colour: colour_spec(kind) }]
        };
        assert(assign_plan(roles, tags, kind) == head + rest);
        lemma_count_create_named_add(head, rest, n);
        assert(count_create_named(head.skip(1), n) == 0) by {
            assert(head.skip(1).len() == 0);
        }
        // The tail's desired names and the head's name coincide only for
        // equal tags, which distinctness rules out.
        if exists|j: int| 0 <= j < tags.skip(1).len() && n == #[trigger] tags.skip(1)[j]
            + postfix_spec(kind) {
            let j = choose|j: int|
                0 <= j < tags.skip(1).len() && n == #[trigger] tags.skip(1)[j] + postfix_spec(kind);
            assert(tags.skip(1)[j] == tags[j + 1]);
            assert(tags[j + 1] + postfix_spec(kind) == n);
            if n == name0 {
                lemma_concat_cancel_suffix(tags[j + 1], tags[0], postfix_spec(kind));
            }
        }
        if exists|j: int| 0 <= j < tags.len() && n == #[trigger] tags[j] + postfix_spec(kind) {
            let j = choose|j: int| 0 <= j < tags.len() && n == #[trigger] tags[j] + postfix_spec(
                kind,
            );
            if j > 0 {
                assert(tags.skip(1)[j - 1] == tags[j]);
                assert(n == tags.skip(1)[j - 1] + postfix_spec(kind));
            }
        }
    }
}

/// Single creation, end to end: execute an assignment plan for distinct
/// desired tags — parsing always yields distinct tags — against the
/// directory it was planned from. A desired role name the snapshot lacked
/// exists exactly once afterwards; the number of roles under any name the
/// snapshot already had does not change, whatever identifiers the directory
/// assigns to the created roles. A repeated invocation therefore never
/// duplicates a tag-role: its snapshot holds the role already, and the count
/// under that name stays as it was.
pub proof fn lemma_assign_execution(
    roles: Seq<RoleInfo>,
    tags: Seq<Seq<u8>>,
    kind: CharKind,
    d: DirectoryV,
    u: u64,
    fresh: Seq<u64>,
    n: Seq<u8>,
)
    requires
        d.roles == roles_view(roles),
        forall|i: int, j: int| 0 <= i < j < tags.len() ==> tags[i] != tags[j],
    ensures
        ({
            let d2 = apply_plan(d, u, assign_plan(roles, tags, kind), fresh);
            &&& (find_named_spec(roles, n) is Some ==> count_named(d2.roles, n) == count_named(
                d.roles,
                n,
            ))
            &&& (find_named_spec(roles, n) is None && (exists|j: int|
                0 <= j < tags.len() && n == #[trigger] tags[j] + postfix_spec(kind))
                ==> count_named(d2.roles, n) == 1)
            &&& (find_named_spec(roles, n) is None && !(exists|j: int|
                0 <= j < tags.len() && n == #[trigger] tags[j] + postfix_spec(kind))
                ==> count_named(d2.roles, n) == 0)
        }),
{
    lemma_assign_plan_shape(roles, tags, kind);
    lemma_apply_plan_count(d, u, assign_plan(roles, tags, kind), fresh, n);
    lemma_assign_create_count(roles, tags, kind, n);
    if find_named_spec(roles, n) is None {
        lemma_count_named_zero(roles, n);
    }
}

/// The single-creation law for a whole invocation: the tags handed to the
/// assignment phase come from parsing, parsing never yields a name twice, so
/// executing the assignment plan for any raw input leaves exactly one role
/// under each desired name the snapshot lacked and leaves the count under
/// every name the snapshot had unchanged.
pub proof fn lemma_invocation_single_create(
    roles: Seq<RoleInfo>,
    raw: Seq<u8>,
    kind: CharKind,
    d: DirectoryV,
    u: u64,
    fresh: Seq<u64>,
    n: Seq<u8>,
)
    requires
        d.roles == roles_view(roles),
    ensures
        ({
            let tags = parse_spec(raw);
            let d2 = apply_plan(d, u, assign_plan(roles, tags, kind), fresh);
            &&& (find_named_spec(roles, n) is Some ==> count_named(d2.roles, n) == count_named(
                d.roles,
                n,
            ))
            &&& (find_named_spec(roles, n) is None && (exists|j: int|
                0 <= j < tags.len() && n == #[trigger] tags[j] + postfix_spec(kind))
                ==> count_named(d2.roles, n) == 1)
            &&& (find_named_spec(roles, n) is None && !(exists|j: int|
                0 <= j < tags.len() && n == #[trigger] tags[j] + postfix_spec(kind))
                ==> count_named(d2.roles, n) == 0)
        }),
{
    lemma_parse_no_duplicates(raw);
    lemma_assign_execution(roles, parse_spec(raw), kind, d, u, fresh, n);
}

} // verus!
