//! Session metadata shared between the daemon and its clients: lifecycle
//! status, execution mode and the satellites of a session's record.

use vstd::prelude::*;

verus! {

/// Lifecycle status of a session.
#[derive(Debug, Clone, Copy, PartialEq, Eq, Structural)]
pub enum SessionStatus {
    Idle,
    Working,
    WaitingApproval,
    Error,
}

/// Execution mode: controls tool approval and autonomous budgeting.
///
/// * `Guarded`: read-only tools are auto-approved; writes and commands
///   still ask.
/// * `Interactive`: every tool call asks for approval, including reads.
/// * `Autonomous`: every tool is auto-approved until the turn budget is
///   exhausted.
#[derive(Debug, Clone, Copy, PartialEq, Eq, Structural)]
pub enum SessionMode {
    Interactive,
    Guarded,
    Autonomous,
}

impl Default for SessionMode {
    /// Sessions start interactive.
    fn default() -> (r: Self)
        ensures
            r == SessionMode::Interactive,
    {
        SessionMode::Interactive
    }
}

/// Where a forked session came from: the parent id, the parent's name at
/// fork time (a snapshot; the parent may be renamed or gone), and the branch
/// point (conversation rounds carried over).
#[derive(Debug, Clone)]
pub struct ForkedFrom {
    pub session_id: String,
    pub name: String,
    pub at_turn: u32,
}

/// A git worktree backing a session's workdir. `created_by_codeoid` marks a
/// worktree created for fork isolation (removed on destroy) versus one the
/// user bound (never touched).
#[derive(Debug, Clone)]
pub struct SessionWorktree {
    pub path: String,
    pub branch: String,
    pub created_by_codeoid: bool,
}

/// One role in a collaborative session: a backend and model chosen per
/// purpose. `name` is free-form, so new roles need no release.
#[derive(Debug, Clone)]
pub struct CollaborationRole {
    pub name: String,
    /// Backend this role's children run on.
    pub provider_id: String,
    /// Model within that backend; `None` = the backend's own default.
    pub model: Option<String>,
    /// How many children to fan out for this role; `None` = 1.
    pub count: Option<u32>,
    /// What this role is for; surfaced in the child's brief.
    pub purpose: Option<String>,
    /// Whether this role's children may modify the workspace;
    /// `None`/`false` = read-only.
    pub write: Option<bool>,
    /// Artifact kinds this role may read; `None` = the default profile for
    /// this role name.
    pub reads: Option<Vec<String>>,
    /// Artifact kinds this role may write; `None` = the default profile for
    /// this role name.
    pub writes: Option<Vec<String>>,
}

/// Set on a role-child of a collaborative session: which collaboration it
/// belongs to and which role it plays.
#[derive(Debug, Clone)]
pub struct CollaborationRoleRef {
    /// Session id of the orchestrating parent.
    pub parent_session_id: String,
    /// Role name from the parent's config.
    pub role_name: String,
    /// 1-based index within this role's fan-out.
    pub ordinal: u32,
    /// Whether this child's identity carries write authority.
    pub write: bool,
}

/// Collaborative-session config: one goal worked by several role-children
/// on possibly different backends.
#[derive(Debug, Clone)]
pub struct CollaborationConfig {
    pub goal: String,
    pub roles: Vec<CollaborationRole>,
}

/// Rotation telemetry: how many times the backing agent session has been
/// rolled over to avoid context compaction.
#[derive(Debug, Clone)]
pub struct RotationInfo {
    pub count: u32,
    /// Unix ms of the last rotation, or `None` if never rotated.
    pub last_rotated_at: Option<i64>,
    pub claude_code_session_id: Option<String>,
}

/// Active sub-agent for the identity chain display.
#[derive(Debug, Clone)]
pub struct Subagent {
    pub agent_id: String,
    pub wimse_uri: Option<String>,
    pub agent_type: String,
    pub spawned_at: i64,
    pub active: bool,
}

} // verus!
