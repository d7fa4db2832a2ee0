//! Binding a Unix socket where one of an earlier run may have been left.
//!
//! A left-over socket is removed, but nothing else ever is: what is not a
//! socket, what someone listens on, and what has been put there in the
//! meantime, all end the attempt.

use vstd::prelude::*;
use vstd::string::*;

use crate::ingest::config;
use crate::ingest::config::{ConfigError, UnixSocketIngestConfig};

verus! {

/// What there is at a path.
#[derive(Debug, Clone, Copy, PartialEq, Eq, Structural)]
pub struct PathEntry {
    pub is_socket: bool,
    /// The device and the inode: what tells one entry from another.
    pub device: u64,
    pub inode: u64,
}

/// Why a socket is not bound.
#[derive(Debug, Clone, Copy, PartialEq, Eq, Structural)]
pub enum BindRefusal {
    /// The configuration could never work.
    Config(ConfigError),
    /// There is something at the path that is not a socket.
    NotASocket,
    /// Someone listens on the socket.
    InUse,
    /// What was at the path has been replaced in the meantime.
    Replaced,
}

/// What an attempt to bind waits to be told.
#[derive(Debug, Clone, Copy, PartialEq, Eq, Structural)]
pub enum BindPhase {
    /// What there is at the path.
    Statting,
    /// Whether someone listens on the socket.
    Probing { device: u64, inode: u64 },
    /// What there is at the path once more, just before it is removed.
    Restatting { device: u64, inode: u64 },
    /// Whether it was removed.
    Removing,
    /// Whether the socket was bound.
    Binding,
    /// Whether the permissions were set.
    SettingPermissions,
}

/// What is to be done next to bind a socket.
#[derive(Debug, Clone, Copy, PartialEq, Eq, Structural)]
pub enum BindAction {
    /// Look what there is at the path, without following links.
    Stat,
    /// Connect to the socket, and hang up.
    Probe,
    /// Delete what is at the path.
    Remove,
    /// Bind the socket.
    Bind,
    /// Set the permission bits of the socket.
    SetPermissions { mode: u32 },
    /// Nothing: the socket is bound.
    Finish,
    /// Nothing: the attempt is over.
    Refuse(BindRefusal),
    /// Nothing: something could not be done.
    Fail,
    /// Nothing: it could not be found out whether someone listens.
    FailProbe,
}

/// What came of an action.
#[derive(Debug, Clone, Copy, PartialEq, Eq, Structural)]
pub enum BindEvent {
    /// This is at the path.
    Entry(PathEntry),
    /// There is nothing at the path.
    Missing,
    Done,
    /// The connection was refused: nobody listens.
    Refused,
    Failed,
}

/// Where an attempt to bind stands.
#[derive(Debug, Clone, Copy, PartialEq, Eq, Structural)]
pub struct BindState {
    /// What it waits for, unless it is over.
    pub phase: Option<BindPhase>,
    pub action: BindAction,
}

/// The attempt goes on.
pub open spec fn goes_on(phase: BindPhase, action: BindAction) -> BindState {
    BindState { phase: Some(phase), action }
}

/// The attempt is over.
pub open spec fn over(action: BindAction) -> BindState {
    BindState { phase: None, action }
}

/// How an attempt begins.
pub open spec fn bind_begun(config: UnixSocketIngestConfig) -> BindState {
    match config::limits_fault(config.max_frame_bytes, config.handshake_timeout_ns) {
        Some(e) => over(BindAction::Refuse(BindRefusal::Config(e))),
        None => goes_on(BindPhase::Statting, BindAction::Stat),
    }
}

/// How an attempt goes on, after what came of the last action.
pub open spec fn bind_resumed(
    config: UnixSocketIngestConfig,
    phase: BindPhase,
    event: BindEvent,
) -> BindState {
    let bind = goes_on(BindPhase::Binding, BindAction::Bind);
    match (phase, event) {
        (BindPhase::Statting, BindEvent::Entry(e)) => if !e.is_socket {
            over(BindAction::Refuse(BindRefusal::NotASocket))
        } else if config.force_rebind {
            goes_on(
                BindPhase::Restatting { device: e.device, inode: e.inode },
                BindAction::Stat,
            )
        } else {
            goes_on(BindPhase::Probing { device: e.device, inode: e.inode }, BindAction::Probe)
        },
        (BindPhase::Statting, BindEvent::Missing) => bind,
        (BindPhase::Probing { .. }, BindEvent::Done) => over(
            BindAction::Refuse(BindRefusal::InUse),
        ),
        (BindPhase::Probing { device, inode }, BindEvent::Refused) => goes_on(
            BindPhase::Restatting { device, inode },
            BindAction::Stat,
        ),
        (BindPhase::Probing { .. }, BindEvent::Missing) => bind,
        (BindPhase::Probing { .. }, _) => over(BindAction::FailProbe),
        (BindPhase::Restatting { device, inode }, BindEvent::Entry(e)) => if e.is_socket
            && e.device == device && e.inode == inode {
            goes_on(BindPhase::Removing, BindAction::Remove)
        } else {
            over(BindAction::Refuse(BindRefusal::Replaced))
        },
        (BindPhase::Restatting { .. }, BindEvent::Missing) => bind,
        (BindPhase::Removing, BindEvent::Done) => bind,
        (BindPhase::Removing, BindEvent::Missing) => bind,
        (BindPhase::Binding, BindEvent::Done) => match config.socket_permissions {
            Some(mode) => goes_on(
                BindPhase::SettingPermissions,
                BindAction::SetPermissions { mode },
            ),
            None => over(BindAction::Finish),
        },
        (BindPhase::SettingPermissions, BindEvent::Done) => over(BindAction::Finish),
        _ => over(BindAction::Fail),
    }
}

/// Begins to bind a socket, and says what is to be done first.
pub fn begin_bind(config: &UnixSocketIngestConfig) -> (r: BindState)
    ensures
        r == bind_begun(*config),
{
    match config.validate() {
        Err(e) => BindState { phase: None, action: BindAction::Refuse(BindRefusal::Config(e)) },
        Ok(_) => BindState { phase: Some(BindPhase::Statting), action: BindAction::Stat },
    }
}

/// Goes on: takes in what came of the last action, and says what is to be done
/// next.
pub fn resume_bind(config: &UnixSocketIngestConfig, phase: BindPhase, event: BindEvent) -> (r:
    BindState)
    ensures
        r == bind_resumed(*config, phase, event),
{
    let bind = BindState { phase: Some(BindPhase::Binding), action: BindAction::Bind };
    match (phase, event) {
        (BindPhase::Statting, BindEvent::Entry(e)) => if !e.is_socket {
            refuse(BindRefusal::NotASocket)
        } else if config.force_rebind {
            BindState {
                phase: Some(BindPhase::Restatting { device: e.device, inode: e.inode }),
                action: BindAction::Stat,
            }
        } else {
            BindState {
                phase: Some(BindPhase::Probing { device: e.device, inode: e.inode }),
                action: BindAction::Probe,
            }
        },
        (BindPhase::Statting, BindEvent::Missing) => bind,
        (BindPhase::Probing { .. }, BindEvent::Done) => refuse(BindRefusal::InUse),
        (BindPhase::Probing { device, inode }, BindEvent::Refused) => BindState {
            phase: Some(BindPhase::Restatting { device, inode }),
            action: BindAction::Stat,
        },
        (BindPhase::Probing { .. }, BindEvent::Missing) => bind,
        (BindPhase::Probing { .. }, _) => BindState { phase: None, action: BindAction::FailProbe },
        (BindPhase::Restatting { device, inode }, BindEvent::Entry(e)) => if e.is_socket
            && e.device == device && e.inode == inode {
            BindState { phase: Some(BindPhase::Removing), action: BindAction::Remove }
        } else {
            refuse(BindRefusal::Replaced)
        },
        (BindPhase::Restatting { .. }, BindEvent::Missing) => bind,
        (BindPhase::Removing, BindEvent::Done) => bind,
        (BindPhase::Removing, BindEvent::Missing) => bind,
        (BindPhase::Binding, BindEvent::Done) => match config.socket_permissions {
            Some(mode) => BindState {
                phase: Some(BindPhase::SettingPermissions),
                action: BindAction::SetPermissions { mode },
            },
            None => BindState { phase: None, action: BindAction::Finish },
        },
        (BindPhase::SettingPermissions, BindEvent::Done) => BindState {
            phase: None,
            action: BindAction::Finish,
        },
        _ => BindState { phase: None, action: BindAction::Fail },
    }
}

fn refuse(why: BindRefusal) -> (r: BindState)
    ensures
        r == over(BindAction::Refuse(why)),
{
    BindState { phase: None, action: BindAction::Refuse(why) }
}

/// Where an attempt stands after these events.
pub open spec fn bind_run(config: UnixSocketIngestConfig, events: Seq<BindEvent>) -> BindState
    decreases events.len(),
{
    if events.len() == 0 {
        bind_begun(config)
    } else {
        let before = bind_run(config, events.drop_last());
        match before.phase {
            Some(phase) => bind_resumed(config, phase, events.last()),
            None => before,
        }
    }
}

/// An entry that an attempt has seen and holds on to: a socket with this
/// device and inode.
spec fn saw(event: BindEvent, device: u64, inode: u64) -> bool {
    event == BindEvent::Entry(PathEntry { is_socket: true, device, inode })
}

/// What an attempt waits for tells what it has been told.
proof fn lemma_bind_run(config: UnixSocketIngestConfig, events: Seq<BindEvent>)
    ensures
        match bind_run(config, events).phase {
            Some(BindPhase::Statting) => events.len() == 0,
            Some(BindPhase::Probing { device, inode }) => events.len() == 1 && !config.force_rebind
                && saw(events[0], device, inode),
            Some(BindPhase::Restatting { device, inode }) => saw(events[0], device, inode) && if config.force_rebind {
                events.len() == 1
            } else {
                events.len() == 2 && events[1] is Refused
            },
            Some(BindPhase::Removing) => saw(
                events[0],
                events.last()->Entry_0.device,
                events.last()->Entry_0.inode,
            ) && events.last() == events[0] && if config.force_rebind {
                events.len() == 2
            } else {
                events.len() == 3 && events[1] is Refused
            },
            _ => true,
        },
    decreases events.len(),
{
    if events.len() > 0 {
        lemma_bind_run(config, events.drop_last());
    }
}

/// A delete is asked for in its phase, and in no other.
proof fn lemma_removal_has_its_phase(config: UnixSocketIngestConfig, events: Seq<BindEvent>)
    ensures
        (bind_run(config, events).action is Remove) ==> (bind_run(config, events).phase == Some(
            BindPhase::Removing,
        )),
    decreases events.len(),
{
    if events.len() > 0 {
        lemma_removal_has_its_phase(config, events.drop_last());
    }
}

/// An entry is removed only if it is a socket, both when it was first looked at
/// and just before, and the very same one; and, unless a takeover was asked
/// for, only if nobody listens on it.
pub proof fn law_removes_only_a_stale_socket(
    config: UnixSocketIngestConfig,
    events: Seq<BindEvent>,
)
    requires
        bind_run(config, events).action is Remove,
    ensures
        events.len() >= 2,
        events.first() is Entry,
        events.first()->Entry_0.is_socket,
        events.last() == events.first(),
        config.force_rebind || (events.len() == 3 && events[1] is Refused),
{
    lemma_removal_has_its_phase(config, events);
    lemma_bind_run(config, events);
}

/// A socket that someone listens on is left alone, unless a takeover was asked
/// for.
pub proof fn law_live_socket_is_left_alone(config: UnixSocketIngestConfig, e: PathEntry)
    requires
        config::limits_fault(config.max_frame_bytes, config.handshake_timeout_ns) is None,
        e.is_socket,
        !config.force_rebind,
    ensures
        bind_run(config, seq![BindEvent::Entry(e), BindEvent::Done]) == over(
            BindAction::Refuse(BindRefusal::InUse),
        ),
{
    let events = seq![BindEvent::Entry(e), BindEvent::Done];
    assert(events.drop_last() =~= seq![BindEvent::Entry(e)]);
    assert(seq![BindEvent::Entry(e)].drop_last() =~= seq![]);
    reveal_with_fuel(bind_run, 3);
}

impl BindRefusal {
    /// The sentence for the refusal, for a socket at this path. The file type is
    /// that of what there is at the path.
    pub open spec fn text(self, path: Seq<char>, file_type: Seq<char>) -> Seq<char> {
        match self {
            BindRefusal::Config(e) => e.text(),
            BindRefusal::NotASocket => "refusing to bind: "@ + path
                + " exists and is not a Unix domain socket (file type: "@ + file_type
                + "); aborting rather than risk deleting the wrong file"@,
            BindRefusal::InUse => "refusing to bind: "@ + path
                + " is already owned by an active listener; set force_rebind = true to take over intentionally"@,
            BindRefusal::Replaced => "refusing to bind: "@ + path
                + " was replaced between the initial check and the unlink (file type or inode changed); aborting rather than risk deleting the wrong file"@,
        }
    }

    /// A sentence that tells a person why the socket at this path is not bound.
    /// The file type is that of what there is at the path.
    pub fn message(&self, path: &str, file_type: &str) -> (r: String)
        ensures
            r@ == self.text(path@, file_type@),
    {
        match self {
            BindRefusal::Config(e) => e.message().to_owned(),
            BindRefusal::NotASocket => "refusing to bind: ".to_owned().concat(path).concat(
                " exists and is not a Unix domain socket (file type: ",
            ).concat(file_type).concat("); aborting rather than risk deleting the wrong file"),
            BindRefusal::InUse => "refusing to bind: ".to_owned().concat(path).concat(
                " is already owned by an active listener; set force_rebind = true to take over intentionally",
            ),
            BindRefusal::Replaced => "refusing to bind: ".to_owned().concat(path).concat(
                " was replaced between the initial check and the unlink (file type or inode changed); aborting rather than risk deleting the wrong file",
            ),
        }
    }
}

/// How a peer is called: by its path, where it has one.
pub fn unix_peer_name(path: Option<&str>) -> (r: String)
    ensures
        r@ == match path {
            Some(p) => "unix:"@ + p@,
            None => "unix:anonymous"@,
        },
{
    match path {
        Some(p) => "unix:".to_owned().concat(p),
        None => "unix:anonymous".to_owned(),
    }
}

} // verus!
