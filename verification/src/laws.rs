//! Engine-wide laws: what the clearing and assignment plans guarantee for
//! every snapshot, member, and tag set.

use vstd::prelude::*;

use crate::bytes::ends_with_seq;
use crate::sync::ActionV;
use crate::sync::CharKind;
use crate::sync::MemberInfo;
use crate::sync::RoleInfo;
use crate::sync::SyncError;
use crate::sync::assign_plan;
use crate::sync::clear_plan;
use crate::sync::clear_step;
use crate::sync::colour_spec;
use crate::sync::find_named_spec;
use crate::sync::find_role_spec;
use crate::sync::postfix_spec;
use crate::sync::role_empty_spec;

verus! {

broadcast use vstd::seq_lib::lemma_seq_concat_contains_all_elements;

/// The directory snapshot knows `rid` as a tag-role of the category: a role
/// with that identifier exists and its name ends with the category suffix.
pub open spec fn is_tag_role_id(roles: Seq<RoleInfo>, rid: u64, kind: CharKind) -> bool {
    match find_role_spec(roles, rid) {
        Some(role) => ends_with_seq(role.name@, postfix_spec(kind)),
        None => false,
    }
}

/// Membership in a non-empty sequence splits into the head and the tail.
pub proof fn lemma_contains_step<A>(s: Seq<A>, x: A)
    requires
        s.len() > 0,
    ensures
        s.contains(x) <==> (s[0] == x || s.skip(1).contains(x)),
{
    if s.contains(x) {
        let i = choose|i: int| 0 <= i < s.len() && s[i] == x;
        if i > 0 {
            assert(s.skip(1)[i - 1] == x);
        }
    }
    if s.skip(1).contains(x) {
        let i = choose|i: int| 0 <= i < s.skip(1).len() && s.skip(1)[i] == x;
        assert(s[i + 1] == x);
    }
}

/// Garbage collection: a successful clearing plan removes from the member
/// every held tag-role of the category, and it deletes a role from the guild
/// exactly when no member of the snapshot other than the invoker holds it —
/// a role that deletion would orphan no one else from is collected, and a
/// role another member still holds always survives.
pub proof fn lemma_clear_garbage_collects(
    roles: Seq<RoleInfo>,
    members: Seq<MemberInfo>,
    self_id: u64,
    held: Seq<u64>,
    kind: CharKind,
    rid: u64,
)
    ensures
        clear_plan(roles, members, self_id, held, kind) matches Ok(plan) ==> {
            &&& (plan.contains(ActionV::DeleteRole { role_id: rid }) ==> role_empty_spec(
                members,
                self_id,
                rid,
            ))
            &&& (held.contains(rid) && is_tag_role_id(roles, rid, kind) ==> plan.contains(
                ActionV::RemoveMemberRole { role_id: rid },
            ))
            &&& (held.contains(rid) && is_tag_role_id(roles, rid, kind) && role_empty_spec(
                members,
                self_id,
                rid,
            ) ==> plan.contains(ActionV::DeleteRole { role_id: rid }))
        },
    decreases held.len(),
{
    if held.len() > 0 && clear_plan(roles, members, self_id, held, kind) is Ok {
        lemma_clear_garbage_collects(roles, members, self_id, held.skip(1), kind, rid);
        lemma_contains_step(held, rid);
        let role0 = find_role_spec(roles, held[0]).unwrap();
        let step = clear_step(members, self_id, role0, held[0], kind);
        if step.contains(ActionV::DeleteRole { role_id: rid }) {
            let i = choose|i: int| 0 <= i < step.len() && step[i] == ActionV::DeleteRole {
                role_id: rid,
            };
            assert(role_empty_spec(members, self_id, rid));
        }
        if held[0] == rid && is_tag_role_id(roles, rid, kind) {
            assert(step[0] == ActionV::RemoveMemberRole { role_id: rid });
            assert(step.contains(ActionV::RemoveMemberRole { role_id: rid }));
            if role_empty_spec(members, self_id, rid) {
                assert(step[1] == ActionV::DeleteRole { role_id: rid });
                assert(step.contains(ActionV::DeleteRole { role_id: rid }));
            }
        }
    }
}

/// Corrupt-state detection: the clearing plan fails, and fails with
/// `CorruptState`, exactly when some role identifier held by the member has
/// no entry in the role snapshot. A failed plan carries no action, so the
/// invocation performs no mutation at all.
pub proof fn lemma_clear_detects_corruption(
    roles: Seq<RoleInfo>,
    members: Seq<MemberInfo>,
    self_id: u64,
    held: Seq<u64>,
    kind: CharKind,
)
    ensures
        (exists|i: int|
            0 <= i < held.len() && find_role_spec(roles, #[trigger] held[i]) is None) <==> clear_plan(
            roles,
            members,
            self_id,
            held,
            kind,
        ) == Err::<Seq<ActionV>, SyncError>(SyncError::CorruptState),
    decreases held.len(),
{
    if held.len() > 0 {
        lemma_clear_detects_corruption(roles, members, self_id, held.skip(1), kind);
        if exists|i: int| 0 <= i < held.len() && find_role_spec(roles, #[trigger] held[i]) is None {
            let i = choose|i: int|
                0 <= i < held.len() && find_role_spec(roles, #[trigger] held[i]) is None;
            if i > 0 {
                assert(held.skip(1)[i - 1] == held[i]);
            }
        }
        if exists|j: int|
            0 <= j < held.skip(1).len() && find_role_spec(roles, #[trigger] held.skip(1)[j])
                is None {
            let j = choose|j: int|
                0 <= j < held.skip(1).len() && find_role_spec(roles, #[trigger] held.skip(1)[j])
                    is None;
            assert(held[j + 1] == held.skip(1)[j]);
        }
    }
}

/// Lookup before creation: when the snapshot already holds a role with the
/// given name, the assignment plan never creates another role under that
/// name, whatever the desired tags are. In particular, a second invocation
/// for the same tag finds the role its first invocation created and reuses
/// it, so the guild never ends up with a duplicate tag-role.
pub proof fn lemma_assign_no_duplicate_create(
    roles: Seq<RoleInfo>,
    tags: Seq<Seq<u8>>,
    kind: CharKind,
    name: Seq<u8>,
)
    requires
        find_named_spec(roles, name) is Some,
    ensures
        forall|c: u64|
            !(#[trigger] assign_plan(roles, tags, kind).contains(
                ActionV::CreateRoleAndAdd { name: name, colour: c },
            )),
    decreases tags.len(),
{
    if tags.len() > 0 {
        lemma_assign_no_duplicate_create(roles, tags.skip(1), kind, name);
        let name0 = tags[0] + postfix_spec(kind);
        let rest = assign_plan(roles, tags.skip(1), kind);
        let head = if find_named_spec(roles, name0) is Some {
            seq![ActionV::AddMemberRole { role_id: find_named_spec(roles, name0).unwrap().id }]
        } else {
            seq![ActionV::CreateRoleAndAdd { name: name0, colour: colour_spec(kind) }]
        };
        assert(assign_plan(roles, tags, kind) == head + rest);
        assert forall|c: u64|
            !(#[trigger] assign_plan(roles, tags, kind).contains(
                ActionV::CreateRoleAndAdd { name: name, colour: c },
            )) by {
            let x = ActionV::CreateRoleAndAdd { name: name, colour: c };
            if (head + rest).contains(x) {
                if head.contains(x) {
                    let i = choose|i: int| 0 <= i < head.len() && head[i] == x;
                    assert(head[0] == x);
                    assert(name0 == name);
                    assert(find_named_spec(roles, name0) is None);
                }
            }
        }
    }
}

/// How often an action occurs in a plan.
pub open spec fn count_matching(s: Seq<ActionV>, x: ActionV) -> nat
    decreases s.len(),
{
    if s.len() == 0 {
        0
    } else {
        (if s[0] == x {
            1nat
        } else {
            0nat
        }) + count_matching(s.skip(1), x)
    }
}

proof fn lemma_count_matching_add(a: Seq<ActionV>, b: Seq<ActionV>, x: ActionV)
    ensures
        count_matching(a + b, x) == count_matching(a, x) + count_matching(b, x),
    decreases a.len(),
{
    if a.len() == 0 {
        assert(a + b =~= b);
    } else {
        lemma_count_matching_add(a.skip(1), b, x);
        assert((a + b).skip(1) =~= a.skip(1) + b);
        assert((a + b)[0] == a[0]);
    }
}

proof fn lemma_count_matching_zero(s: Seq<ActionV>, x: ActionV)
    requires
        !s.contains(x),
    ensures
        count_matching(s, x) == 0,
    decreases s.len(),
{
    if s.len() > 0 {
        assert(s[0] != x);
        assert(!s.skip(1).contains(x)) by {
            if s.skip(1).contains(x) {
                let i = choose|i: int| 0 <= i < s.skip(1).len() && s.skip(1)[i] == x;
                assert(s[i + 1] == x);
            }
        }
        lemma_count_matching_zero(s.skip(1), x);
    }
}

/// Every creation in an assignment plan is owed: it carries the category's
/// colour and the name of a desired tag followed by the category suffix, and
/// the snapshot holds no role of that name.
pub proof fn lemma_assign_create_origin(
    roles: Seq<RoleInfo>,
    tags: Seq<Seq<u8>>,
    kind: CharKind,
)
    ensures
        forall|n: Seq<u8>, c: u64|
            #[trigger] assign_plan(roles, tags, kind).contains(
                ActionV::CreateRoleAndAdd { name: n, colour: c },
            ) ==> c == colour_spec(kind) && find_named_spec(roles, n) is None && (exists|j: int|
                0 <= j < tags.len() && n == #[trigger] tags[j] + postfix_spec(kind)),
    decreases tags.len(),
{
    if tags.len() > 0 {
        lemma_assign_create_origin(roles, tags.skip(1), kind);
        let name0 = tags[0] + postfix_spec(kind);
        let rest = assign_plan(roles, tags.skip(1), kind);
        let head = if find_named_spec(roles, name0) is Some {
            seq![ActionV::AddMemberRole { role_id: find_named_spec(roles, name0).unwrap().id }]
        } else {
            seq![ActionV::CreateRoleAndAdd { name: name0, colour: colour_spec(kind) }]
        };
        assert(assign_plan(roles, tags, kind) == head + rest);
        assert forall|n: Seq<u8>, c: u64|
            #[trigger] assign_plan(roles, tags, kind).contains(
                ActionV::CreateRoleAndAdd { name: n, colour: c },
            ) implies c == colour_spec(kind) && find_named_spec(roles, n) is None && (exists|j: int|
            0 <= j < tags.len() && n == #[trigger] tags[j] + postfix_spec(kind)) by {
            let x = ActionV::CreateRoleAndAdd { name: n, colour: c };
            assert((head + rest).contains(x));
            if head.contains(x) {
                let i = choose|i: int| 0 <= i < head.len() && head[i] == x;
                assert(head[0] == x);
                assert(n == tags[0] + postfix_spec(kind));
            } else {
                assert(rest.contains(x));
                let j = choose|j: int|
                    0 <= j < tags.skip(1).len() && n == #[trigger] tags.skip(1)[j] + postfix_spec(
                        kind,
                    );
                assert(tags[j + 1] == tags.skip(1)[j]);
            }
        }
    }
}

/// Appending the same suffix to two different sequences keeps them
/// different.
pub proof fn lemma_concat_cancel_suffix(a: Seq<u8>, b: Seq<u8>, p: Seq<u8>)
    requires
        a + p == b + p,
    ensures
        a == b,
{
    assert((a + p).len() == (b + p).len());
    assert((a + p).len() == a.len() + p.len());
    assert((b + p).len() == b.len() + p.len());
    assert(a.len() == b.len());
    assert(a =~= b) by {
        assert(forall|i: int| 0 <= i < a.len() ==> a[i] == (a + p)[i] && b[i] == (b + p)[i]);
    }
}

/// No duplicate creation within one invocation: over distinct desired tags —
/// and parsing always yields distinct tags — the assignment plan creates a
/// role of any given name at most once. Together with the lookup-before-
/// creation law this keeps tag-role names unique in a guild whose tag-role
/// names start out unique: an invocation creates a missing name once, and
/// every later invocation finds it and reuses it.
pub proof fn lemma_assign_single_create(
    roles: Seq<RoleInfo>,
    tags: Seq<Seq<u8>>,
    kind: CharKind,
    name: Seq<u8>,
)
    requires
        forall|i: int, j: int| 0 <= i < j < tags.len() ==> tags[i] != tags[j],
    ensures
        count_matching(
            assign_plan(roles, tags, kind),
            ActionV::CreateRoleAndAdd { name: name, colour: colour_spec(kind) },
        ) <= 1,
    decreases tags.len(),
{
    let x = ActionV::CreateRoleAndAdd { name: name, colour: colour_spec(kind) };
    if tags.len() > 0 {
        assert(forall|i: int, j: int|
            0 <= i < j < tags.skip(1).len() ==> tags.skip(1)[i] != tags.skip(1)[j]);
        lemma_assign_single_create(roles, tags.skip(1), kind, name);
        let name0 = tags[0] + postfix_spec(kind);
        let rest = assign_plan(roles, tags.skip(1), kind);
        let head = if find_named_spec(roles, name0) is Some {
            seq![ActionV::AddMemberRole { role_id: find_named_spec(roles, name0).unwrap().id }]
        } else {
            seq![ActionV::CreateRoleAndAdd { name: name0, colour: colour_spec(kind) }]
        };
        assert(assign_plan(roles, tags, kind) == head + rest);
        lemma_count_matching_add(head, rest, x);
        assert(count_matching(head.skip(1), x) == 0) by {
            assert(head.skip(1).len() == 0);
            lemma_count_matching_zero(head.skip(1), x);
        }
        assert(count_matching(head, x) <= 1);
        if count_matching(head, x) == 1 {
            // The head created `name`, so `name` is the first tag's role name
            // and no later tag yields it again.
            assert(head[0] == x);
            assert(name == name0);
            assert(!rest.contains(x)) by {
                if rest.contains(x) {
                    lemma_assign_create_origin(roles, tags.skip(1), kind);
                    let j = choose|j: int|
                        0 <= j < tags.skip(1).len() && name == #[trigger] tags.skip(1)[j]
                            + postfix_spec(kind);
                    lemma_concat_cancel_suffix(tags.skip(1)[j], tags[0], postfix_spec(kind));
                    assert(tags[j + 1] == tags.skip(1)[j]);
                }
            }
            lemma_count_matching_zero(rest, x);
        }
    }
}

/// Clearing touches nothing else: every removal or deletion in a successful
/// clearing plan concerns a tag-role of the category that the member holds;
/// unrelated roles are never removed from the member nor deleted from the
/// guild.
pub proof fn lemma_clear_touches_only_held_tag_roles(
    roles: Seq<RoleInfo>,
    members: Seq<MemberInfo>,
    self_id: u64,
    held: Seq<u64>,
    kind: CharKind,
    rid: u64,
)
    ensures
        clear_plan(roles, members, self_id, held, kind) matches Ok(plan) ==> ((plan.contains(
            ActionV::RemoveMemberRole { role_id: rid },
        ) || plan.contains(ActionV::DeleteRole { role_id: rid })) ==> held.contains(rid)
            && is_tag_role_id(roles, rid, kind)),
    decreases held.len(),
{
    if held.len() > 0 && clear_plan(roles, members, self_id, held, kind) is Ok {
        lemma_clear_touches_only_held_tag_roles(roles, members, self_id, held.skip(1), kind, rid);
        lemma_contains_step(held, rid);
        let role0 = find_role_spec(roles, held[0]).unwrap();
        let step = clear_step(members, self_id, role0, held[0], kind);
        if step.contains(ActionV::RemoveMemberRole { role_id: rid }) {
            let i = choose|i: int|
                0 <= i < step.len() && step[i] == ActionV::RemoveMemberRole { role_id: rid };
            assert(rid == held[0]);
        }
        if step.contains(ActionV::DeleteRole { role_id: rid }) {
            let i = choose|i: int|
                0 <= i < step.len() && step[i] == ActionV::DeleteRole { role_id: rid };
            assert(rid == held[0]);
        }
    }
}

/// An existing role is reused: when the snapshot holds a role named after a
/// desired tag, the assignment plan adds that role to the member.
pub proof fn lemma_assign_reuses_existing(
    roles: Seq<RoleInfo>,
    tags: Seq<Seq<u8>>,
    kind: CharKind,
    i: int,
)
    requires
        0 <= i < tags.len(),
    ensures
        find_named_spec(roles, tags[i] + postfix_spec(kind)) matches Some(role)
            ==> assign_plan(roles, tags, kind).contains(ActionV::AddMemberRole { role_id: role.id }),
    decreases i,
{
    let name0 = tags[0] + postfix_spec(kind);
    if i == 0 {
        if find_named_spec(roles, name0) is Some {
            let role = find_named_spec(roles, name0).unwrap();
            let head = seq![ActionV::AddMemberRole { role_id: role.id }];
            assert(head.contains(ActionV::AddMemberRole { role_id: role.id })) by {
                assert(head[0] == ActionV::AddMemberRole { role_id: role.id });
            }
        }
    } else {
        lemma_assign_reuses_existing(roles, tags.skip(1), kind, i - 1);
        assert(tags.skip(1)[i - 1] == tags[i]);
    }
}

/// A missing role is created: when the snapshot holds no role named after a
/// desired tag, the assignment plan creates one with that name and the
/// category's colour.
pub proof fn lemma_assign_creates_missing(
    roles: Seq<RoleInfo>,
    tags: Seq<Seq<u8>>,
    kind: CharKind,
    i: int,
)
    requires
        0 <= i < tags.len(),
        find_named_spec(roles, tags[i] + postfix_spec(kind)) is None,
    ensures
        assign_plan(roles, tags, kind).contains(
            ActionV::CreateRoleAndAdd {
                name: tags[i] + postfix_spec(kind),
                colour: colour_spec(kind),
            },
        ),
    decreases i,
{
    let name0 = tags[0] + postfix_spec(kind);
    if i == 0 {
        let head = seq![ActionV::CreateRoleAndAdd { name: name0, colour: colour_spec(kind) }];
        assert(head.contains(
            ActionV::CreateRoleAndAdd { name: name0, colour: colour_spec(kind) },
        )) by {
            assert(head[0] == ActionV::CreateRoleAndAdd { name: name0, colour: colour_spec(kind) });
        }
    } else {
        lemma_assign_creates_missing(roles, tags.skip(1), kind, i - 1);
        assert(tags.skip(1)[i - 1] == tags[i]);
    }
}

} // verus!
