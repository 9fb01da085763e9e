use tag_sync::parse::Characters;
use tag_sync::sync::kind_of_command;
use tag_sync::sync::success_message;
use tag_sync::sync::CharKind;
use tag_sync::sync::DirectoryAction;
use tag_sync::sync::MemberInfo;
use tag_sync::sync::RoleInfo;
use tag_sync::sync::SyncError;

fn v(s: &str) -> Vec<u8> {
    s.as_bytes().to_vec()
}

/// An in-memory stand-in for the remote directory: executes a plan the way
/// the transport layer would, action by action.
struct Guild {
    roles: Vec<RoleInfo>,
    members: Vec<MemberInfo>,
    next_id: u64,
}

impl Guild {
    fn new(member_ids: &[u64]) -> Guild {
        Guild {
            roles: Vec::new(),
            members: member_ids
                .iter()
                .map(|id| MemberInfo {
                    user_id: *id,
                    roles: Vec::new(),
                })
                .collect(),
            next_id: 1,
        }
    }

    fn apply(&mut self, self_idx: usize, actions: &[DirectoryAction]) {
        for action in actions {
            match action {
                DirectoryAction::RemoveMemberRole { role_id } => {
                    self.members[self_idx].roles.retain(|r| r != role_id);
                }
                DirectoryAction::DeleteRole { role_id } => {
                    self.roles.retain(|r| r.id != *role_id);
                    for m in self.members.iter_mut() {
                        m.roles.retain(|r| r != role_id);
                    }
                }
                DirectoryAction::AddMemberRole { role_id } => {
                    self.members[self_idx].roles.push(*role_id);
                }
                DirectoryAction::CreateRoleAndAdd { name, colour: _ } => {
                    let id = self.next_id;
                    self.next_id += 1;
                    self.roles.push(RoleInfo {
                        id,
                        name: name.clone(),
                    });
                    self.members[self_idx].roles.push(id);
                }
            }
        }
    }

    /// One full invocation: clear, execute, re-read roles, assign, execute.
    fn invoke(&mut self, self_idx: usize, kind: CharKind, raw: &str) -> Result<(), SyncError> {
        let characters = Characters::parse(&v(raw));
        let member = self.members[self_idx].clone();
        let clearing = kind.clear(&self.roles, &self.members, &member)?;
        self.apply(self_idx, &clearing);
        let assigning = kind.assign_characters(&self.roles, &characters);
        self.apply(self_idx, &assigning);
        Ok(())
    }

    fn role_names(&self) -> Vec<Vec<u8>> {
        self.roles.iter().map(|r| r.name.clone()).collect()
    }

    fn count_named(&self, name: &str) -> usize {
        self.roles.iter().filter(|r| r.name == v(name)).count()
    }

    fn holds_named(&self, self_idx: usize, name: &str) -> bool {
        self.members[self_idx]
            .roles
            .iter()
            .any(|id| self.roles.iter().any(|r| r.id == *id && r.name == v(name)))
    }
}

#[test]
fn category_policy_values() {
    assert_eq!(CharKind::Main.postfix(), v(" main"));
    assert_eq!(CharKind::Secondary.postfix(), v(" secondary"));
    assert_eq!(CharKind::Main.colour(), 15844367);
    assert_eq!(CharKind::Secondary.colour(), 12745742);
}

#[test]
fn command_names_select_categories() {
    assert_eq!(kind_of_command(&v("main")), Ok(CharKind::Main));
    assert_eq!(kind_of_command(&v("secondary")), Ok(CharKind::Secondary));
    assert_eq!(
        kind_of_command(&v("tertiary")),
        Err(SyncError::UnknownCategory)
    );
    assert_eq!(kind_of_command(&v("")), Err(SyncError::UnknownCategory));
}

#[test]
fn response_messages() {
    assert_eq!(success_message(), "Roles successfully updated");
    assert_eq!(SyncError::CorruptState.message(), "corrupt role instance");
    assert_eq!(SyncError::UnknownCategory.message(), "unknown category");
    assert_eq!(SyncError::NotInGuild.message(), "command from non-guild");
    assert_eq!(
        SyncError::Transport.message(),
        "remote directory call failed"
    );
}

#[test]
fn end_to_end_three_new_roles() {
    let mut g = Guild::new(&[10]);
    let r = g.invoke(0, CharKind::Main, "rosalina,  Pyra Mythra, dk");
    assert_eq!(r, Ok(()));
    assert_eq!(
        g.role_names(),
        vec![
            v("Rosalina & Luma main"),
            v("Aegis main"),
            v("Donkey Kong main")
        ]
    );
    assert!(g.holds_named(0, "Rosalina & Luma main"));
    assert!(g.holds_named(0, "Aegis main"));
    assert!(g.holds_named(0, "Donkey Kong main"));
    assert_eq!(success_message(), "Roles successfully updated");
}

#[test]
fn repeated_invocation_creates_no_duplicate_role() {
    let mut g = Guild::new(&[10]);
    assert_eq!(g.invoke(0, CharKind::Main, "mario"), Ok(()));
    assert_eq!(g.count_named("Mario main"), 1);
    assert_eq!(g.invoke(0, CharKind::Main, "mario"), Ok(()));
    assert_eq!(g.count_named("Mario main"), 1);
    assert!(g.holds_named(0, "Mario main"));
}

#[test]
fn clearing_deletes_a_role_with_no_other_holder() {
    let mut g = Guild::new(&[10]);
    assert_eq!(g.invoke(0, CharKind::Main, "mario"), Ok(()));
    assert_eq!(g.count_named("Mario main"), 1);
    // Empty desired set: clearing runs, assigning is a no-op.
    assert_eq!(g.invoke(0, CharKind::Main, ""), Ok(()));
    assert_eq!(g.count_named("Mario main"), 0);
    assert!(g.members[0].roles.is_empty());
}

#[test]
fn clearing_keeps_a_role_another_member_holds() {
    let mut g = Guild::new(&[10, 20]);
    assert_eq!(g.invoke(0, CharKind::Main, "mario"), Ok(()));
    // The second member picks up the same tag-role.
    assert_eq!(g.invoke(1, CharKind::Main, "mario"), Ok(()));
    assert_eq!(g.count_named("Mario main"), 1);
    // The first member drops the tag; the role must survive for the second.
    assert_eq!(g.invoke(0, CharKind::Main, ""), Ok(()));
    assert_eq!(g.count_named("Mario main"), 1);
    assert!(!g.holds_named(0, "Mario main"));
    assert!(g.holds_named(1, "Mario main"));
}

#[test]
fn categories_do_not_interfere() {
    let mut g = Guild::new(&[10]);
    assert_eq!(g.invoke(0, CharKind::Main, "mario"), Ok(()));
    assert_eq!(g.invoke(0, CharKind::Secondary, "luigi"), Ok(()));
    assert_eq!(g.count_named("Mario main"), 1);
    assert_eq!(g.count_named("Luigi secondary"), 1);
    // Replacing the secondaries leaves the mains alone.
    assert_eq!(g.invoke(0, CharKind::Secondary, "peach"), Ok(()));
    assert_eq!(g.count_named("Mario main"), 1);
    assert_eq!(g.count_named("Luigi secondary"), 0);
    assert_eq!(g.count_named("Peach secondary"), 1);
}

#[test]
fn corrupt_member_state_aborts_without_mutation() {
    let mut g = Guild::new(&[10]);
    assert_eq!(g.invoke(0, CharKind::Main, "mario"), Ok(()));
    // A role identifier on the member with no entry in the role table.
    g.members[0].roles.push(999);
    let before_roles = g.role_names();
    let before_member = g.members[0].roles.clone();
    assert_eq!(
        g.invoke(0, CharKind::Main, "luigi"),
        Err(SyncError::CorruptState)
    );
    assert_eq!(g.role_names(), before_roles);
    assert_eq!(g.members[0].roles, before_member);
}

#[test]
fn assignment_reuses_an_existing_role() {
    let mut g = Guild::new(&[10, 20]);
    g.roles.push(RoleInfo {
        id: 7,
        name: v("Mario main"),
    });
    let characters = Characters::parse(&v("mario"));
    let plan = CharKind::Main.assign_characters(&g.roles, &characters);
    assert_eq!(plan, vec![DirectoryAction::AddMemberRole { role_id: 7 }]);
}

#[test]
fn assignment_creates_a_missing_role() {
    let g = Guild::new(&[10]);
    let characters = Characters::parse(&v("mario"));
    let plan = CharKind::Main.assign_characters(&g.roles, &characters);
    assert_eq!(
        plan,
        vec![DirectoryAction::CreateRoleAndAdd {
            name: v("Mario main"),
            colour: 15844367
        }]
    );
}

#[test]
fn clearing_ignores_unrelated_roles() {
    let mut g = Guild::new(&[10]);
    g.roles.push(RoleInfo {
        id: 1,
        name: v("Moderator"),
    });
    g.members[0].roles.push(1);
    assert_eq!(g.invoke(0, CharKind::Main, ""), Ok(()));
    // The unrelated role is untouched.
    assert_eq!(g.role_names(), vec![v("Moderator")]);
    assert_eq!(g.members[0].roles, vec![1]);
}
