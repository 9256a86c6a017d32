//! Actions and control tokens of the coordinator's wire protocol.
//!
//! A session header names one of the lifecycle actions below; the
//! coordinator answers with one of the ASCII control tokens.

use vstd::prelude::*;

use crate::text::str_eq;

verus! {

/// One lifecycle action announced by a hook client.
#[derive(Clone, Copy, Debug, PartialEq, Eq, Structural)]
pub enum Action {
    PreDump,
    PostDump,
    PreRestore,
    PostRestore,
    NetworkLock,
    NetworkUnlock,
    PostResume,
    PreStream,
    PostStream,
    AddDependencies,
}

/// The wire name of each action.
pub open spec fn spec_action_name(a: Action) -> Seq<char> {
    match a {
        Action::PreDump => "pre-dump"@,
        Action::PostDump => "post-dump"@,
        Action::PreRestore => "pre-restore"@,
        Action::PostRestore => "post-restore"@,
        Action::NetworkLock => "network-lock"@,
        Action::NetworkUnlock => "network-unlock"@,
        Action::PostResume => "post-resume"@,
        Action::PreStream => "pre-stream"@,
        Action::PostStream => "post-stream"@,
        Action::AddDependencies => "add-dependencies"@,
    }
}

/// The action named `s`, if any.
pub open spec fn spec_action_of_name(s: Seq<char>) -> Option<Action> {
    if s == spec_action_name(Action::PreDump) {
        Some(Action::PreDump)
    } else if s == spec_action_name(Action::PostDump) {
        Some(Action::PostDump)
    } else if s == spec_action_name(Action::PreRestore) {
        Some(Action::PreRestore)
    } else if s == spec_action_name(Action::PostRestore) {
        Some(Action::PostRestore)
    } else if s == spec_action_name(Action::NetworkLock) {
        Some(Action::NetworkLock)
    } else if s == spec_action_name(Action::NetworkUnlock) {
        Some(Action::NetworkUnlock)
    } else if s == spec_action_name(Action::PostResume) {
        Some(Action::PostResume)
    } else if s == spec_action_name(Action::PreStream) {
        Some(Action::PreStream)
    } else if s == spec_action_name(Action::PostStream) {
        Some(Action::PostStream)
    } else if s == spec_action_name(Action::AddDependencies) {
        Some(Action::AddDependencies)
    } else {
        None
    }
}

impl Action {
    /// Actions whose completion removes the participant's registry entry.
    pub open spec fn spec_is_terminal(self) -> bool {
        self == Action::PostDump || self == Action::PostRestore || self == Action::PostResume
            || self == Action::PostStream
    }

    pub fn is_terminal(&self) -> (r: bool)
        ensures
            r == self.spec_is_terminal(),
    {
        match self {
            Action::PostDump => true,
            Action::PostRestore => true,
            Action::PostResume => true,
            Action::PostStream => true,
            _ => false,
        }
    }

    /// Actions that belong to the dump half of a coordinated operation.
    pub open spec fn spec_is_dump(self) -> bool {
        self == Action::PreDump || self == Action::NetworkLock || self == Action::PostDump
            || self == Action::PreStream
    }

    /// Actions that belong to the restore half of a coordinated operation.
    pub open spec fn spec_is_restore(self) -> bool {
        self == Action::PreRestore || self == Action::PostRestore
            || self == Action::NetworkUnlock || self == Action::PostResume
    }

    pub fn is_dump(&self) -> (r: bool)
        ensures
            r == self.spec_is_dump(),
    {
        match self {
            Action::PreDump => true,
            Action::NetworkLock => true,
            Action::PostDump => true,
            Action::PreStream => true,
            _ => false,
        }
    }

    pub fn is_restore(&self) -> (r: bool)
        ensures
            r == self.spec_is_restore(),
    {
        match self {
            Action::PreRestore => true,
            Action::PostRestore => true,
            Action::NetworkUnlock => true,
            Action::PostResume => true,
            _ => false,
        }
    }

    /// Parses a wire action name.
    pub fn from_name(s: &str) -> (r: Option<Action>)
        ensures
            r == spec_action_of_name(s@),
    {
        if str_eq(s, "pre-dump") {
            Some(Action::PreDump)
        } else if str_eq(s, "post-dump") {
            Some(Action::PostDump)
        } else if str_eq(s, "pre-restore") {
            Some(Action::PreRestore)
        } else if str_eq(s, "post-restore") {
            Some(Action::PostRestore)
        } else if str_eq(s, "network-lock") {
            Some(Action::NetworkLock)
        } else if str_eq(s, "network-unlock") {
            Some(Action::NetworkUnlock)
        } else if str_eq(s, "post-resume") {
            Some(Action::PostResume)
        } else if str_eq(s, "pre-stream") {
            Some(Action::PreStream)
        } else if str_eq(s, "post-stream") {
            Some(Action::PostStream)
        } else if str_eq(s, "add-dependencies") {
            Some(Action::AddDependencies)
        } else {
            None
        }
    }

    /// The wire name of this action.
    pub fn name(&self) -> (r: &'static str)
        ensures
            r@ == spec_action_name(*self),
    {
        match self {
            Action::PreDump => "pre-dump",
            Action::PostDump => "post-dump",
            Action::PreRestore => "pre-restore",
            Action::PostRestore => "post-restore",
            Action::NetworkLock => "network-lock",
            Action::NetworkUnlock => "network-unlock",
            Action::PostResume => "post-resume",
            Action::PreStream => "pre-stream",
            Action::PostStream => "post-stream",
            Action::AddDependencies => "add-dependencies",
        }
    }
}

/// Every action name parses back to its action.
pub proof fn lemma_action_name_round_trip(a: Action)
    ensures
        spec_action_of_name(spec_action_name(a)) == Some(a),
{
    reveal_strlit("pre-dump");
    reveal_strlit("post-dump");
    reveal_strlit("pre-restore");
    reveal_strlit("post-restore");
    reveal_strlit("network-lock");
    reveal_strlit("network-unlock");
    reveal_strlit("post-resume");
    reveal_strlit("pre-stream");
    reveal_strlit("post-stream");
    reveal_strlit("add-dependencies");
    // Names of different lengths are distinct; ...
    assert("pre-dump"@.len() == 8);
    assert("post-dump"@.len() == 9);
    assert("pre-restore"@.len() == 11);
    assert("post-restore"@.len() == 12);
    assert("network-lock"@.len() == 12);
    assert("network-unlock"@.len() == 14);
    assert("post-resume"@.len() == 11);
    assert("pre-stream"@.len() == 10);
    assert("post-stream"@.len() == 11);
    assert("add-dependencies"@.len() == 16);
    // ... and names of equal length are told apart by one differing character.
    assert("post-resume"@[1] != "pre-restore"@[1]);
    assert("post-stream"@[1] != "pre-restore"@[1]);
    assert("post-stream"@[5] != "post-resume"@[5]);
    assert("network-lock"@[0] != "post-restore"@[0]);
    match a {
        Action::PreDump => assert(spec_action_of_name(spec_action_name(a)) == Some(a)),
        Action::PostDump => assert(spec_action_of_name(spec_action_name(a)) == Some(a)),
        Action::PreRestore => assert(spec_action_of_name(spec_action_name(a)) == Some(a)),
        Action::PostRestore => assert(spec_action_of_name(spec_action_name(a)) == Some(a)),
        Action::NetworkLock => assert(spec_action_of_name(spec_action_name(a)) == Some(a)),
        Action::NetworkUnlock => assert(spec_action_of_name(spec_action_name(a)) == Some(a)),
        Action::PostResume => assert(spec_action_of_name(spec_action_name(a)) == Some(a)),
        Action::PreStream => assert(spec_action_of_name(spec_action_name(a)) == Some(a)),
        Action::PostStream => assert(spec_action_of_name(spec_action_name(a)) == Some(a)),
        Action::AddDependencies => assert(spec_action_of_name(spec_action_name(a)) == Some(a)),
    }
}

/// A verdict the coordinator sends to a client at the end of the barrier
/// phase, as an ASCII control token.
#[derive(Clone, Copy, Debug, PartialEq, Eq, Structural)]
pub enum Response {
    /// The operation may proceed.
    Ack,
    /// A dependency did not reach the awaited state within the wait-timeout.
    Timeout,
    /// A post-dump arrived for a participant that never connected.
    NotConnected,
    /// A second post-dump arrived for a session whose checkpoint exists.
    CheckpointExists,
    /// A second concurrent session used an id that is already active.
    AlreadyConnected,
}

/// The wire text of each response token.
pub open spec fn spec_response_text(r: Response) -> Seq<char> {
    match r {
        Response::Ack => "ACK"@,
        Response::Timeout => "timeout"@,
        Response::NotConnected => "not connected"@,
        Response::CheckpointExists => "checkpoint is already created"@,
        Response::AlreadyConnected => "client already connected"@,
    }
}

impl Response {
    /// The ASCII token sent over the wire for this response.
    pub fn text(&self) -> (r: &'static str)
        ensures
            r@ == spec_response_text(*self),
    {
        match self {
            Response::Ack => "ACK",
            Response::Timeout => "timeout",
            Response::NotConnected => "not connected",
            Response::CheckpointExists => "checkpoint is already created",
            Response::AlreadyConnected => "client already connected",
        }
    }
}

/// The synchronization token of the pre-stream sub-protocol.
pub fn syn_token() -> (r: &'static str)
    ensures
        r@ == "SYN"@,
{
    "SYN"
}

/// The acknowledgment token for one received image.
pub fn img_ack_token() -> (r: &'static str)
    ensures
        r@ == "IMG_ACK"@,
{
    "IMG_ACK"
}

/// Is `s` the ACK token?  Hook clients treat anything else as fatal.
pub fn is_ack(s: &str) -> (r: bool)
    ensures
        r == (s@ == "ACK"@),
{
    str_eq(s, "ACK")
}

/// Is `s` the SYN token?
pub fn is_syn(s: &str) -> (r: bool)
    ensures
        r == (s@ == "SYN"@),
{
    str_eq(s, "SYN")
}

/// Is `s` the IMG_ACK token?
pub fn is_img_ack(s: &str) -> (r: bool)
    ensures
        r == (s@ == "IMG_ACK"@),
{
    str_eq(s, "IMG_ACK")
}

} // verus!
