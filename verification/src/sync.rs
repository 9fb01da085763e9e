//! Synchronization engine: reconciles a member's tag-roles against a desired
//! tag set. `clear` plans the removal of the member's current tag-roles for a
//! category, garbage-collecting roles left with no other holder, and
//! `assign_characters` plans the assignment of the desired set, creating
//! roles on demand. The plans are sequences of directory actions that a
//! caller executes against the remote directory in order, aborting on the
//! first failure.

use vstd::prelude::*;

use crate::bytes::ends_with;
use crate::bytes::ends_with_seq;
use crate::bytes::concat;
use crate::bytes::seq_eq;
use crate::bytes::views;
use crate::parse::Characters;

verus! {

/// A tag category: a namespace of tag-roles distinguished by a role-name
/// suffix, with a display colour for newly created roles.
#[derive(Clone, Copy, PartialEq, Eq, Structural, Debug)]
pub enum CharKind {
    Main,
    Secondary,
}

/// The role-name suffix of a category: " main" or " secondary". A role is a
/// tag-role for the category exactly when its name ends with this suffix.
pub open spec fn postfix_spec(kind: CharKind) -> Seq<u8> {
    match kind {
        CharKind::Main => seq![32u8, 109u8, 97u8, 105u8, 110u8],
        CharKind::Secondary => seq![
            32u8,
            115u8,
            101u8,
            99u8,
            111u8,
            110u8,
            100u8,
            97u8,
            114u8,
            121u8,
        ],
    }
}

/// The display colour of a category's roles: gold for mains, dark gold for
/// secondaries.
pub open spec fn colour_spec(kind: CharKind) -> u64 {
    match kind {
        CharKind::Main => 15844367,
        CharKind::Secondary => 12745742,
    }
}

pub open spec fn lit_main_cmd() -> Seq<u8> {
    seq![109u8, 97u8, 105u8, 110u8]
}

pub open spec fn lit_secondary_cmd() -> Seq<u8> {
    seq![115u8, 101u8, 99u8, 111u8, 110u8, 100u8, 97u8, 114u8, 121u8]
}

/// What can go wrong during an invocation. A remote-call failure is reported
/// by the caller executing the plan; the planner itself reports corrupt
/// directory state, and the command layer reports an unknown category or a
/// missing guild context before any plan is made.
#[derive(Clone, Copy, PartialEq, Eq, Structural, Debug)]
pub enum SyncError {
    Transport,
    CorruptState,
    UnknownCategory,
    NotInGuild,
}

/// A tag-role as observed in the directory snapshot: its stable identifier
/// and display name.
#[derive(Clone, Debug)]
pub struct RoleInfo {
    pub id: u64,
    pub name: Vec<u8>,
}

/// A guild member as observed in the directory snapshot: the member's
/// identifier and the identifiers of the roles the member holds.
#[derive(Clone, Debug)]
pub struct MemberInfo {
    pub user_id: u64,
    pub roles: Vec<u64>,
}

/// The mathematical form of one directory mutation.
pub enum ActionV {
    RemoveMemberRole { role_id: u64 },
    DeleteRole { role_id: u64 },
    AddMemberRole { role_id: u64 },
    CreateRoleAndAdd { name: Seq<u8>, colour: u64 },
}

/// One mutation of the remote directory, to be executed in plan order:
/// remove a role from the invoking member, delete a role from the guild, add
/// an existing role to the member, or create a role with the given name and
/// colour and add it to the member.
#[derive(Clone, PartialEq, Eq, Debug)]
pub enum DirectoryAction {
    RemoveMemberRole { role_id: u64 },
    DeleteRole { role_id: u64 },
    AddMemberRole { role_id: u64 },
    CreateRoleAndAdd { name: Vec<u8>, colour: u64 },
}

impl View for DirectoryAction {
    type V = ActionV;

    open spec fn view(&self) -> ActionV {
        match self {
            DirectoryAction::RemoveMemberRole { role_id } => ActionV::RemoveMemberRole {
                role_id: *role_id,
            },
            DirectoryAction::DeleteRole { role_id } => ActionV::DeleteRole { role_id: *role_id },
            DirectoryAction::AddMemberRole { role_id } => ActionV::AddMemberRole {
                role_id: *role_id,
            },
            DirectoryAction::CreateRoleAndAdd { name, colour } => ActionV::CreateRoleAndAdd {
                name: name@,
                colour: *colour,
            },
        }
    }
}

/// The views of a sequence of directory actions.
pub open spec fn acts(s: Seq<DirectoryAction>) -> Seq<ActionV> {
    s.map_values(|a: DirectoryAction| a@)
}

/// The first role in the snapshot with the given identifier.
pub open spec fn find_role_spec(roles: Seq<RoleInfo>, id: u64) -> Option<RoleInfo>
    decreases roles.len(),
{
    if roles.len() == 0 {
        None
    } else if roles[0].id == id {
        Some(roles[0])
    } else {
        find_role_spec(roles.skip(1), id)
    }
}

/// The first role in the snapshot with the given display name.
pub open spec fn find_named_spec(roles: Seq<RoleInfo>, name: Seq<u8>) -> Option<RoleInfo>
    decreases roles.len(),
{
    if roles.len() == 0 {
        None
    } else if roles[0].name@ == name {
        Some(roles[0])
    } else {
        find_named_spec(roles.skip(1), name)
    }
}

/// No member other than `self_id` holds the role in the snapshot.
pub open spec fn role_empty_spec(members: Seq<MemberInfo>, self_id: u64, role_id: u64) -> bool {
    forall|i: int|
        0 <= i < members.len() ==> (#[trigger] members[i]).user_id == self_id || !members[i].roles@.contains(role_id)
}

/// The clearing plan for one held role identifier: nothing if the role is
/// not a tag-role of the category; otherwise removal from the member,
/// followed by deletion from the guild when no other member holds it.
pub open spec fn clear_step(
    members: Seq<MemberInfo>,
    self_id: u64,
    role: RoleInfo,
    id: u64,
    kind: CharKind,
) -> Seq<ActionV> {
    if ends_with_seq(role.name@, postfix_spec(kind)) {
        if role_empty_spec(members, self_id, id) {
            seq![ActionV::RemoveMemberRole { role_id: id }, ActionV::DeleteRole { role_id: id }]
        } else {
            seq![ActionV::RemoveMemberRole { role_id: id }]
        }
    } else {
        Seq::empty()
    }
}

/// The clearing plan over the member's held role identifiers, in order. A
/// held identifier with no entry in the role snapshot is corrupt state and
/// fails the whole plan, so that no mutation at all is performed.
pub open spec fn clear_plan(
    roles: Seq<RoleInfo>,
    members: Seq<MemberInfo>,
    self_id: u64,
    held: Seq<u64>,
    kind: CharKind,
) -> Result<Seq<ActionV>, SyncError>
    decreases held.len(),
{
    if held.len() == 0 {
        Ok(Seq::empty())
    } else {
        match find_role_spec(roles, held[0]) {
            None => Err(SyncError::CorruptState),
            Some(role) => match clear_plan(roles, members, self_id, held.skip(1), kind) {
                Err(e) => Err(e),
                Ok(rest) => Ok(clear_step(members, self_id, role, held[0], kind) + rest),
            },
        }
    }
}

/// The assignment plan over the desired tag names, in order: add the first
/// role whose name is the tag followed by the category suffix, or create a
/// role with that name and the category colour and add it.
pub open spec fn assign_plan(roles: Seq<RoleInfo>, tags: Seq<Seq<u8>>, kind: CharKind) -> Seq<
    ActionV,
>
    decreases tags.len(),
{
    if tags.len() == 0 {
        Seq::empty()
    } else {
        let name = tags[0] + postfix_spec(kind);
        let head = match find_named_spec(roles, name) {
            Some(role) => seq![ActionV::AddMemberRole { role_id: role.id }],
            None => seq![ActionV::CreateRoleAndAdd { name: name, colour: colour_spec(kind) }],
        };
        head + assign_plan(roles, tags.skip(1), kind)
    }
}

/// The category a command name selects: "main" or "secondary", by exact
/// match; any other name is an unknown category.
pub open spec fn command_kind_spec(name: Seq<u8>) -> Result<CharKind, SyncError> {
    if name == lit_main_cmd() {
        Ok(CharKind::Main)
    } else if name == lit_secondary_cmd() {
        Ok(CharKind::Secondary)
    } else {
        Err(SyncError::UnknownCategory)
    }
}

impl CharKind {
    /// The category's role-name suffix as a fresh byte vector.
    pub fn postfix(&self) -> (r: Vec<u8>)
        ensures
            r@ == postfix_spec(*self),
    {
        let mut v: Vec<u8> = Vec::new();
        match self {
            CharKind::Main => {
                v.push(32);
                v.push(109);
                v.push(97);
                v.push(105);
                v.push(110);
            },
            CharKind::Secondary => {
                v.push(32);
                v.push(115);
                v.push(101);
                v.push(99);
                v.push(111);
                v.push(110);
                v.push(100);
                v.push(97);
                v.push(114);
                v.push(121);
            },
        }
        proof {
            assert(v@ =~= postfix_spec(*self));
        }
        v
    }

    /// The category's display colour.
    pub fn colour(&self) -> (r: u64)
        ensures
            r == colour_spec(*self),
    {
        match self {
            CharKind::Main => 15844367,
            CharKind::Secondary => 12745742,
        }
    }
}

/// The category named by a command, or `UnknownCategory`.
pub fn kind_of_command(name: &Vec<u8>) -> (r: Result<CharKind, SyncError>)
    ensures
        r == command_kind_spec(name@),
{
    let mut main_cmd: Vec<u8> = Vec::new();
    main_cmd.push(109);
    main_cmd.push(97);
    main_cmd.push(105);
    main_cmd.push(110);
    proof {
        assert(main_cmd@ =~= lit_main_cmd());
    }
    if seq_eq(name, &main_cmd) {
        return Ok(CharKind::Main);
    }
    let mut sec_cmd: Vec<u8> = Vec::new();
    sec_cmd.push(115);
    sec_cmd.push(101);
    sec_cmd.push(99);
    sec_cmd.push(111);
    sec_cmd.push(110);
    sec_cmd.push(100);
    sec_cmd.push(97);
    sec_cmd.push(114);
    sec_cmd.push(121);
    proof {
        assert(sec_cmd@ =~= lit_secondary_cmd());
    }
    if seq_eq(name, &sec_cmd) {
        return Ok(CharKind::Secondary);
    }
    Err(SyncError::UnknownCategory)
}

/// Whether a role is a tag-role of the category: its name ends with the
/// category's suffix.
pub fn is_character_role(role: &RoleInfo, kind: &CharKind) -> (r: bool)
    ensures
        r == ends_with_seq(role.name@, postfix_spec(*kind)),
{
    let p = kind.postfix();
    ends_with(&role.name, &p)
}

/// Whether a member's role list holds the identifier.
fn member_holds(roles: &Vec<u64>, role_id: u64) -> (r: bool)
    ensures
        r == roles@.contains(role_id),
{
    let mut i: usize = 0;
    while i < roles.len()
        invariant
            i <= roles@.len(),
            forall|j: int| 0 <= j < i ==> roles@[j] != role_id,
        decreases roles@.len() - i,
    {
        if roles[i] == role_id {
            return true;
        }
        i += 1;
    }
    false
}

/// Whether no member other than `self_id` holds the role in the snapshot.
pub fn is_role_empty(members: &Vec<MemberInfo>, self_id: u64, role_id: u64) -> (r: bool)
    ensures
        r == role_empty_spec(members@, self_id, role_id),
{
    let mut i: usize = 0;
    while i < members.len()
        invariant
            i <= members@.len(),
            forall|j: int|
                0 <= j < i ==> (#[trigger] members@[j]).user_id == self_id
                    || !members@[j].roles@.contains(role_id),
        decreases members@.len() - i,
    {
        if members[i].user_id != self_id && member_holds(&members[i].roles, role_id) {
            return false;
        }
        i += 1;
    }
    true
}

/// The first role in the snapshot with the given identifier, as an index.
pub fn find_role(roles: &Vec<RoleInfo>, id: u64) -> (r: Option<usize>)
    ensures
        match r {
            Some(idx) => idx < roles@.len() && find_role_spec(roles@, id) == Some(
                roles@[idx as int],
            ),
            None => find_role_spec(roles@, id) is None,
        },
{
    proof {
        assert(roles@.skip(0) =~= roles@);
    }
    let mut i: usize = 0;
    while i < roles.len()
        invariant
            i <= roles@.len(),
            find_role_spec(roles@, id) == find_role_spec(roles@.skip(i as int), id),
        decreases roles@.len() - i,
    {
        proof {
            assert(roles@.skip(i as int)[0] == roles@[i as int]);
            assert(roles@.skip(i as int).skip(1) =~= roles@.skip(i + 1));
        }
        if roles[i].id == id {
            return Some(i);
        }
        i += 1;
    }
    None
}

/// The first role in the snapshot with the given display name, as an index.
pub fn find_named(roles: &Vec<RoleInfo>, name: &Vec<u8>) -> (r: Option<usize>)
    ensures
        match r {
            Some(idx) => idx < roles@.len() && find_named_spec(roles@, name@) == Some(
                roles@[idx as int],
            ),
            None => find_named_spec(roles@, name@) is None,
        },
{
    proof {
        assert(roles@.skip(0) =~= roles@);
    }
    let mut i: usize = 0;
    while i < roles.len()
        invariant
            i <= roles@.len(),
            find_named_spec(roles@, name@) == find_named_spec(roles@.skip(i as int), name@),
        decreases roles@.len() - i,
    {
        proof {
            assert(roles@.skip(i as int)[0] == roles@[i as int]);
            assert(roles@.skip(i as int).skip(1) =~= roles@.skip(i + 1));
        }
        if seq_eq(&roles[i].name, name) {
            return Some(i);
        }
        i += 1;
    }
    None
}

impl CharKind {
    /// Plans the clearing phase for this category from one coherent snapshot
    /// of the directory: for every tag-role of the category that the
    /// invoking member holds, remove it from the member, and delete it from
    /// the guild when no other member of the snapshot holds it. A held role
    /// identifier absent from the role snapshot is corrupt state: the plan
    /// fails and no action is produced.
    pub fn clear(
        &self,
        roles: &Vec<RoleInfo>,
        members: &Vec<MemberInfo>,
        member: &MemberInfo,
    ) -> (r: Result<Vec<DirectoryAction>, SyncError>)
        ensures
            match r {
                Ok(plan) => clear_plan(roles@, members@, member.user_id, member.roles@, *self)
                    == Ok::<Seq<ActionV>, SyncError>(acts(plan@)),
                Err(e) => clear_plan(roles@, members@, member.user_id, member.roles@, *self)
                    == Err::<Seq<ActionV>, SyncError>(e),
            },
{
        let ghost full = clear_plan(roles@, members@, member.user_id, member.roles@, *self);
        let mut out: Vec<DirectoryAction> = Vec::new();
        proof {
            assert(member.roles@.skip(0) =~= member.roles@);
            assert(clear_plan(roles@, members@, member.user_id, member.roles@, *self) matches Ok(
                rest,
            ) ==> acts(out@) + rest =~= rest);
        }
        let mut i: usize = 0;
        while i < member.roles.len()
            invariant
                i <= member.roles@.len(),
                full == clear_plan(roles@, members@, member.user_id, member.roles@, *self),
                (clear_plan(roles@, members@, member.user_id, member.roles@.skip(i as int), *self)
                    matches Ok(rest) ==> full == Ok::<Seq<ActionV>, SyncError>(
                    acts(out@) + rest,
                )),
                (clear_plan(roles@, members@, member.user_id, member.roles@.skip(i as int), *self)
                    matches Err(e) ==> full == Err::<Seq<ActionV>, SyncError>(e)),
            decreases member.roles@.len() - i,
        {
            let ghost held = member.roles@.skip(i as int);
            proof {
                assert(held[0] == member.roles@[i as int]);
                assert(held.skip(1) =~= member.roles@.skip(i + 1));
            }
            let id = member.roles[i];
            match find_role(roles, id) {
                None => {
                    return Err(SyncError::CorruptState);
                },
                Some(idx) => {
                    let ghost out_old = out@;
                    let ghost role = roles@[idx as int];
                    let ghost head = clear_step(members@, member.user_id, role, id, *self);
                    if is_character_role(&roles[idx], self) {
                        out.push(DirectoryAction::RemoveMemberRole { role_id: id });
                        if is_role_empty(members, member.user_id, id) {
                            out.push(DirectoryAction::DeleteRole { role_id: id });
                            proof {
                                assert(acts(out@) =~= acts(out_old) + head);
                            }
                        } else {
                            proof {
                                assert(acts(out@) =~= acts(out_old) + head);
                            }
                        }
                    } else {
                        proof {
                            assert(acts(out@) =~= acts(out_old) + head);
                        }
                    }
                    proof {
                        assert(clear_plan(roles@, members@, member.user_id, held.skip(1), *self)
                            matches Ok(rest) ==> acts(out_old) + (head + rest) =~= acts(out@)
                            + rest);
                    }
                },
            }
            i += 1;
        }
        proof {
            assert(member.roles@.skip(member.roles@.len() as int).len() == 0);
            assert(clear_plan(
                roles@,
                members@,
                member.user_id,
                member.roles@.skip(member.roles@.len() as int),
                *self,
            ) matches Ok(rest) ==> acts(out@) + rest =~= acts(out@));
        }
        Ok(out)
    }

    /// Plans the assignment phase for this category against a fresh role
    /// snapshot: for each desired tag name in order, add the first existing
    /// role named tag-plus-suffix to the member, or create a role with that
    /// name and this category's colour and add it.
    pub fn assign_characters(&self, roles: &Vec<RoleInfo>, characters: &Characters) -> (r: Vec<
        DirectoryAction,
    >)
        ensures
            acts(r@) == assign_plan(roles@, views(characters.0@), *self),
    {
        let ghost tags = views(characters.0@);
        let mut out: Vec<DirectoryAction> = Vec::new();
        proof {
            assert(tags.skip(0) =~= tags);
        }
        let mut i: usize = 0;
        while i < characters.0.len()
            invariant
                i <= characters.0@.len(),
                tags == views(characters.0@),
                assign_plan(roles@, tags, *self) == acts(out@) + assign_plan(
                    roles@,
                    tags.skip(i as int),
                    *self,
                ),
            decreases characters.0@.len() - i,
        {
            let ghost rest = tags.skip(i as int);
            proof {
                assert(rest[0] == characters.0@[i as int]@);
                assert(rest.skip(1) =~= tags.skip(i + 1));
            }
            let p = self.postfix();
            let name = concat(&characters.0[i], &p);
            let ghost out_old = out@;
            match find_named(roles, &name) {
                Some(idx) => {
                    out.push(DirectoryAction::AddMemberRole { role_id: roles[idx].id });
                },
                None => {
                    out.push(
                        DirectoryAction::CreateRoleAndAdd { name: name, colour: self.colour() },
                    );
                },
            }
            proof {
                let head = assign_plan(roles@, rest, *self).subrange(
                    0,
                    assign_plan(roles@, rest, *self).len() - assign_plan(
                        roles@,
                        tags.skip(i + 1),
                        *self,
                    ).len(),
                );
                assert(acts(out@) =~= acts(out_old).push(out@[out@.len() - 1]@));
                assert(assign_plan(roles@, rest, *self) =~= seq![out@[out@.len() - 1]@]
                    + assign_plan(roles@, tags.skip(i + 1), *self));
                assert(acts(out_old) + assign_plan(roles@, rest, *self) =~= acts(out@)
                    + assign_plan(roles@, tags.skip(i + 1), *self));
            }
            i += 1;
        }
        proof {
            assert(tags.skip(tags.len() as int).len() == 0);
            assert(acts(out@) + assign_plan(roles@, tags.skip(tags.len() as int), *self) =~= acts(
                out@,
            ));
        }
        out
    }
}

/// The response reported to the caller after a successful synchronization.
pub fn success_message() -> (r: &'static str)
    ensures
        r@ == "Roles successfully updated"@,
{
    "Roles successfully updated"
}

/// The response text of an error.
pub open spec fn message_spec(e: SyncError) -> Seq<char> {
    match e {
        SyncError::Transport => "remote directory call failed"@,
        SyncError::CorruptState => "corrupt role instance"@,
        SyncError::UnknownCategory => "unknown category"@,
        SyncError::NotInGuild => "command from non-guild"@,
    }
}

impl SyncError {
    /// The human-readable text reported to the caller for this error.
    pub fn message(&self) -> (r: &'static str)
        ensures
            r@ == message_spec(*self),
    {
        match self {
            SyncError::Transport => "remote directory call failed",
            SyncError::CorruptState => "corrupt role instance",
            SyncError::UnknownCategory => "unknown category",
            SyncError::NotInGuild => "command from non-guild",
        }
    }
}

} // verus!
