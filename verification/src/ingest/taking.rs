//! How a path is taken over for a socket, and what is refused.

use vstd::prelude::*;

use crate::ingest::config::{ConfigError, TcpIngestConfig, UnixSocketIngestConfig};
use crate::ingest::socket;
use crate::ingest::socket::{
    BindAction, BindEvent, BindPhase, BindRefusal, BindState, PathEntry,
};

verus! {

/// A listener is refused if and only if no frame would be small enough for it, or
/// no handshake fast enough; the frames come first.
pub proof fn law_limits(
    tcp: TcpIngestConfig,
    unix: UnixSocketIngestConfig,
    a: Result<(), ConfigError>,
    b: Result<(), ConfigError>,
)
    requires
        call_ensures(TcpIngestConfig::validate, (&tcp,), a),
        call_ensures(UnixSocketIngestConfig::validate, (&unix,), b),
    ensures
        a == if tcp.max_frame_bytes == 0 {
            Err::<(), ConfigError>(ConfigError::ZeroMaxFrameBytes)
        } else if tcp.handshake_timeout_ns == 0 {
            Err(ConfigError::ZeroHandshakeTimeout)
        } else {
            Ok(())
        },
        b == if unix.max_frame_bytes == 0 {
            Err::<(), ConfigError>(ConfigError::ZeroMaxFrameBytes)
        } else if unix.handshake_timeout_ns == 0 {
            Err(ConfigError::ZeroHandshakeTimeout)
        } else {
            Ok(())
        },
{
}

/// The limits that a listener has where nothing else is asked for: frames of 65535
/// bytes, and five seconds for a handshake.
pub proof fn law_defaults(tcp: TcpIngestConfig, unix: UnixSocketIngestConfig)
    requires
        call_ensures(TcpIngestConfig::default, (), tcp),
        call_ensures(UnixSocketIngestConfig::default, (), unix),
    ensures
        tcp.max_frame_bytes == 65_535,
        tcp.handshake_timeout_ns == 5_000_000_000,
        tcp.bind_addr@ == "127.0.0.1:8463"@,
        tcp.tls is None,
        unix.max_frame_bytes == 65_535,
        unix.handshake_timeout_ns == 5_000_000_000,
        unix.socket_path@ == "/var/run/otk-node.sock"@,
        unix.socket_permissions is None,
        !unix.force_rebind,
{
}

/// Whether states are those of one attempt: each state but the first one came of
/// the one before and what was told then.
pub open spec fn is_attempt(
    config: UnixSocketIngestConfig,
    states: Seq<BindState>,
    events: Seq<BindEvent>,
) -> bool {
    &&& states.len() == events.len() + 1
    &&& call_ensures(socket::begin_bind, (&config,), states[0])
    &&& forall|i: int, j: int|
        0 <= i < events.len() && j == i + 1 ==> follows(
            config,
            #[trigger] states[i],
            events[i],
            #[trigger] states[j],
        )
}

/// Whether a state came of another.
pub open spec fn follows(
    config: UnixSocketIngestConfig,
    before: BindState,
    event: BindEvent,
    after: BindState,
) -> bool {
    before.phase matches Some(phase) && call_ensures(
        socket::resume_bind,
        (&config, phase, event),
        after,
    )
}

/// The state of an attempt, by what it was told.
proof fn lemma_attempt(
    config: UnixSocketIngestConfig,
    states: Seq<BindState>,
    events: Seq<BindEvent>,
    i: int,
)
    requires
        is_attempt(config, states, events),
        0 <= i < states.len(),
    ensures
        states[i] == socket::bind_run(config, events.take(i)),
    decreases i,
{
    if i > 0 {
        lemma_attempt(config, states, events, i - 1);
        assert(events.take(i).drop_last() =~= events.take(i - 1));
        assert(follows(config, states[i - 1], events[i - 1], states[i]));
    } else {
        assert(events.take(0) =~= seq![]);
    }
}

/// What an attempt has been told, by what it asks for. Nothing is deleted but a
/// socket that was seen at first and, the very same one, again just before; unless
/// a takeover was asked for, only if a connection to it was refused in between. A
/// socket is bound only where nothing was there, where it has disappeared, or where
/// it was deleted.
pub open spec fn has_reason(
    config: UnixSocketIngestConfig,
    events: Seq<BindEvent>,
    action: BindAction,
) -> bool {
    let n = events.len() as int;
    match action {
        BindAction::Stat => n == 0 || (is_socket(events[0]) && if config.force_rebind {
            n == 1
        } else {
            n == 2 && events[1] == BindEvent::Refused
        }),
        BindAction::Probe => n == 1 && is_socket(events[0]) && !config.force_rebind,
        BindAction::Remove => n >= 2 && is_socket(events[0]) && events[n - 1] == events[0]
            && if config.force_rebind {
            n == 2
        } else {
            n == 3 && events[1] == BindEvent::Refused
        },
        BindAction::Bind => n >= 1 && (events[n - 1] == BindEvent::Missing || (n >= 3 && events[n
            - 1] == BindEvent::Done && is_socket(events[n - 2]) && events[n - 2] == events[0])),
        BindAction::SetPermissions { mode } => n >= 2 && events[n - 1] == BindEvent::Done
            && config.socket_permissions == Some(mode),
        BindAction::Finish => n >= 2 && events[n - 1] == BindEvent::Done,
        BindAction::Refuse(BindRefusal::Config(e)) => n == 0 && e == if config.max_frame_bytes == 0 {
            ConfigError::ZeroMaxFrameBytes
        } else {
            ConfigError::ZeroHandshakeTimeout
        } && (config.max_frame_bytes == 0 || config.handshake_timeout_ns == 0),
        BindAction::Refuse(BindRefusal::NotASocket) => n == 1 && (events[0] matches BindEvent::Entry(
            e,
        ) && !e.is_socket),
        BindAction::Refuse(BindRefusal::InUse) => n == 2 && is_socket(events[0]) && events[1]
            == BindEvent::Done && !config.force_rebind,
        BindAction::Refuse(BindRefusal::Replaced) => n >= 2 && is_socket(events[0]) && events[n
            - 1] is Entry && events[n - 1] != events[0],
        BindAction::FailProbe => n == 2 && is_socket(events[0]) && !config.force_rebind,
        BindAction::Fail => n >= 1,
    }
}

/// Whether a socket was seen.
pub open spec fn is_socket(event: BindEvent) -> bool {
    event matches BindEvent::Entry(e) && e.is_socket
}

/// What an attempt asks for goes with what it waits for.
pub open spec fn waits_for(
    config: UnixSocketIngestConfig,
    events: Seq<BindEvent>,
    state: BindState,
) -> bool {
    let n = events.len() as int;
    match state.phase {
        None => match state.action {
            BindAction::Finish => true,
            BindAction::Refuse(_) => true,
            BindAction::Fail => true,
            BindAction::FailProbe => true,
            _ => false,
        },
        Some(BindPhase::Statting) => n == 0 && state.action == BindAction::Stat,
        Some(BindPhase::Probing { device, inode }) => state.action == BindAction::Probe && events[0]
            == BindEvent::Entry(PathEntry { is_socket: true, device, inode }),
        Some(BindPhase::Restatting { device, inode }) => n > 0 && state.action == BindAction::Stat
            && events[0] == BindEvent::Entry(PathEntry { is_socket: true, device, inode }),
        Some(BindPhase::Removing) => state.action == BindAction::Remove,
        Some(BindPhase::Binding) => state.action == BindAction::Bind,
        Some(BindPhase::SettingPermissions) => state.action is SetPermissions,
    }
}

/// Every action of an attempt has its reason.
proof fn lemma_reason(config: UnixSocketIngestConfig, events: Seq<BindEvent>)
    requires
        forall|i: int|
            0 <= i < events.len() ==> (#[trigger] socket::bind_run(config, events.take(i))).phase
                is Some,
    ensures
        has_reason(config, events, socket::bind_run(config, events).action),
        waits_for(config, events, socket::bind_run(config, events)),
    decreases events.len(),
{
    if events.len() > 0 {
        let n = events.len() as int;
        let front = events.drop_last();
        assert forall|i: int| 0 <= i < front.len() implies (#[trigger] socket::bind_run(
            config,
            front.take(i),
        )).phase is Some by {
            assert(front.take(i) =~= events.take(i));
        }
        lemma_reason(config, front);
        assert(front =~= events.take(n - 1));
        assert(socket::bind_run(config, events.take(n - 1)).phase is Some);
    }
}

/// Whatever an attempt is told, each thing that it asks for has its reason in what it
/// was told before.
pub proof fn law_binding_has_reasons(
    config: UnixSocketIngestConfig,
    states: Seq<BindState>,
    events: Seq<BindEvent>,
    i: int,
)
    requires
        is_attempt(config, states, events),
        0 <= i < states.len(),
    ensures
        has_reason(config, events.take(i), states[i].action),
{
    lemma_attempt(config, states, events, i);
    let upto = events.take(i);
    assert forall|k: int| 0 <= k < upto.len() implies (#[trigger] socket::bind_run(
        config,
        upto.take(k),
    )).phase is Some by {
        assert(upto.take(k) =~= events.take(k));
        lemma_attempt(config, states, events, k);
        assert(follows(config, states[k], events[k], states[k + 1]));
    }
    lemma_reason(config, upto);
}

/// An attempt is not over before its time. It looks at the path first. Where nothing
/// is there, the socket is bound; a socket is probed, or with a takeover looked at
/// again; one that refuses connections is looked at again; one that is still the
/// same is deleted; and once deleted, or gone, the socket is bound. A bound socket
/// gets its permissions where some are asked for, and then the attempt is over.
pub proof fn law_binding_goes_on(
    config: UnixSocketIngestConfig,
    phase: BindPhase,
    event: BindEvent,
    r: BindState,
    first: BindState,
)
    requires
        call_ensures(socket::begin_bind, (&config,), first),
        call_ensures(socket::resume_bind, (&config, phase, event), r),
    ensures
        config.max_frame_bytes > 0 && config.handshake_timeout_ns > 0 ==> first.phase == Some(
            BindPhase::Statting,
        ) && first.action == BindAction::Stat,
        phase == BindPhase::Statting && is_socket(event) ==> r.action == if config.force_rebind {
            BindAction::Stat
        } else {
            BindAction::Probe
        },
        event == BindEvent::Missing && (phase is Statting || phase is Probing || phase is Restatting
            || phase is Removing) ==> r.action == BindAction::Bind && r.phase == Some(
            BindPhase::Binding,
        ),
        phase is Probing && event == BindEvent::Refused ==> r.action == BindAction::Stat,
        (phase matches BindPhase::Restatting { device, inode } && event == BindEvent::Entry(
            PathEntry { is_socket: true, device, inode },
        )) ==> r.action == BindAction::Remove && r.phase == Some(BindPhase::Removing),
        phase == BindPhase::Removing && event == BindEvent::Done ==> r.action == BindAction::Bind,
        phase == BindPhase::Binding && event == BindEvent::Done ==> r.action
            == match config.socket_permissions {
            Some(mode) => BindAction::SetPermissions { mode },
            None => BindAction::Finish,
        },
        phase == BindPhase::SettingPermissions && event == BindEvent::Done ==> r.action
            == BindAction::Finish,
        event == BindEvent::Failed ==> r.phase is None && r.action == if phase is Probing {
            BindAction::FailProbe
        } else {
            BindAction::Fail
        },
{
}

} // verus!
