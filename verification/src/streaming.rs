//! The streaming session: which receiver is played to, at what volume, and
//! what has to be done to the audio pipeline when that changes.
//!
//! The session owns no process and no connection. Every operation returns
//! the actions that bring the real pipeline in line with the session, in the
//! order in which they are to be performed; the caller performs them and
//! reports back what failed.
//!
//! Three rules hold throughout. At most one receiver is played to, and a
//! pipeline (capture source and one transport client) exists exactly while
//! one is. Connections are opened and released by `update` alone: the relay
//! only forwards chunks, and asking again for the receiver that is played to
//! keeps its connection and at most sets its volume. A failure that leaves
//! the receiver without a working pipeline ends the session, so that the
//! session never names a receiver that nothing is sent to.

use vstd::prelude::*;
use crate::address::Address;

verus! {

/// Samples per second and channel, for capture and transport alike.
pub const SAMPLE_RATE: u32 = 44100;

/// Bits per sample; samples are signed and little-endian.
pub const BITS_PER_SAMPLE: u8 = 16;

/// Interleaved channels.
pub const CHANNELS: u8 = 2;

/// Bytes of one frame: one sample for each channel.
pub const BYTES_PER_FRAME: usize = 4;

/// The most frames that one chunk carries.
pub const FRAMES_PER_CHUNK: usize = 352;

/// The most bytes that one read from the capture source asks for.
pub const CHUNK_BYTES: usize = FRAMES_PER_CHUNK * BYTES_PER_FRAME;

/// The buffering that a new transport client is asked for, in frames.
pub const LATENCY_FRAMES: u32 = 44100;

/// The loudest level.
pub const MAX_PERCENT: u8 = 100;

/// A volume on the scale from 0 to 100.
#[derive(Clone, Copy, Debug, PartialEq, Eq, Structural)]
pub struct Level {
    percent: u8,
}

impl View for Level {
    type V = nat;

    closed spec fn view(&self) -> nat {
        self.percent as nat
    }
}

impl Level {
    #[verifier::type_invariant]
    spec fn on_scale(&self) -> bool {
        self.percent <= MAX_PERCENT
    }

    /// The level of `percent`, if that is on the scale.
    pub fn from_percent(percent: u8) -> (level: Option<Level>)
        ensures
            percent <= MAX_PERCENT ==> level is Some && level->Some_0@ == percent,
            percent > MAX_PERCENT ==> level is None,
    {
        if percent <= MAX_PERCENT {
            Some(Level { percent })
        } else {
            None
        }
    }

    /// The level as a number from 0 to 100.
    pub fn percent(&self) -> (percent: u8)
        ensures
            percent == self@,
            percent <= MAX_PERCENT,
    {
        proof {
            use_type_invariant(self);
        }
        self.percent
    }
}

/// Two levels with the same number are the same level.
pub proof fn lemma_level_by_number(a: Level, b: Level)
    requires
        a@ == b@,
    ensures
        a == b,
{
}

/// One thing to do to the audio pipeline.
#[derive(Clone, Copy, Debug, PartialEq, Eq, Structural)]
pub enum Action {
    /// Stop the capture source, so that no further chunk is read.
    StopCapture,
    /// Let the transport client to this receiver end its session, and wait
    /// until it has.
    Teardown(Address),
    /// Start a capture source.
    StartCapture,
    /// Open a transport client to this receiver, in the fixed audio format.
    Connect(Address),
    /// Set the volume of the transport client to this receiver.
    SetVolume(Address, Level),
    /// Describe the session to the receiver. A failure here is reported and
    /// otherwise ignored.
    SetMetadata(Address),
    /// Let the transport client to this receiver make room for the chunk
    /// that follows.
    AcceptFrames(Address),
    /// Send the first bytes of the chunk just read to this receiver.
    SendChunk(Address, usize),
}

/// What a `Streamer` is in contracts: the receiver played to, if any, and
/// the volume last asked for.
pub struct Session {
    pub target: Option<Address>,
    pub volume: Option<Level>,
}

impl Session {
    /// No receiver is played to and no pipeline exists.
    pub open spec fn is_idle(self) -> bool {
        self.target is None
    }

    /// A receiver is played to and its pipeline is live.
    pub open spec fn is_active(self) -> bool {
        self.target is Some
    }

    /// Whether a capture source runs.
    pub open spec fn capturing(self) -> bool {
        self.target is Some
    }

    /// The receivers to which a transport client is open.
    pub open spec fn clients(self) -> Seq<Address> {
        match self.target {
            Some(addr) => seq![addr],
            None => Seq::empty(),
        }
    }
}

/// Releasing the pipeline of `session`: the capture source first, then the
/// transport client.
pub open spec fn teardown_plan(session: Session) -> Seq<Action> {
    match session.target {
        Some(addr) => seq![Action::StopCapture, Action::Teardown(addr)],
        None => Seq::empty(),
    }
}

/// Applying `volume`, where one is given, to the client to `addr`.
pub open spec fn volume_plan(addr: Address, volume: Option<Level>) -> Seq<Action> {
    match volume {
        Some(level) => seq![Action::SetVolume(addr, level)],
        None => Seq::empty(),
    }
}

/// Standing up a pipeline to `addr`: capture, connection, volume where one
/// is given, then the description of the session.
pub open spec fn setup_plan(addr: Address, volume: Option<Level>) -> Seq<Action> {
    seq![Action::StartCapture, Action::Connect(addr)] + volume_plan(addr, volume)
        + seq![Action::SetMetadata(addr)]
}

/// What `update` asks for: on the receiver already played to, only the
/// volume; otherwise the old pipeline is released before a new one is set up.
pub open spec fn update_plan(
    session: Session,
    target: Option<Address>,
    volume: Option<Level>,
) -> Seq<Action> {
    match target {
        Some(addr) => if session.target == Some(addr) {
            volume_plan(addr, volume)
        } else {
            teardown_plan(session) + setup_plan(addr, volume)
        },
        None => teardown_plan(session),
    }
}

/// The session after `update`.
pub open spec fn updated(target: Option<Address>, volume: Option<Level>) -> Session {
    Session { target, volume }
}

/// The session without a receiver; the volume asked for is kept.
pub open spec fn stopped(session: Session) -> Session {
    Session { target: None, volume: session.volume }
}

/// What becomes of a read from the capture source: a chunk with data is
/// announced and then sent to the receiver played to, in full; a failed read
/// (`None`) and the end of the stream (no bytes) end the session, and its
/// pipeline is released. Without a session the chunk is dropped.
pub open spec fn relay_plan(session: Session, read: Option<usize>) -> Seq<Action> {
    match session.target {
        Some(addr) => match read {
            Some(len) => if len > 0 {
                seq![Action::AcceptFrames(addr), Action::SendChunk(addr, len)]
            } else {
                teardown_plan(session)
            },
            None => teardown_plan(session),
        },
        None => Seq::empty(),
    }
}

/// The session after a read from the capture source.
pub open spec fn relayed(session: Session, read: Option<usize>) -> Session {
    match read {
        Some(len) => if len > 0 {
            session
        } else {
            stopped(session)
        },
        None => stopped(session),
    }
}

/// Whether the failure of `action` ends `session`: a capture source that does
/// not start, and a connection that fails to open, to take the volume or to
/// take audio. A failure that concerns another receiver than the one played
/// to, a failure to describe the session, and a failure while releasing do not.
pub open spec fn ends_session(session: Session, action: Action) -> bool {
    match action {
        Action::StartCapture => session.target is Some,
        Action::Connect(addr) => session.target == Some(addr),
        Action::SetVolume(addr, _) => session.target == Some(addr),
        Action::AcceptFrames(addr) => session.target == Some(addr),
        Action::SendChunk(addr, _) => session.target == Some(addr),
        Action::SetMetadata(_) => false,
        Action::StopCapture => false,
        Action::Teardown(_) => false,
    }
}

/// What is left to release when `action` has failed: whatever the steps
/// before it had already started.
pub open spec fn cleanup_plan(session: Session, action: Action) -> Seq<Action> {
    if ends_session(session, action) {
        match action {
            Action::StartCapture => Seq::empty(),
            Action::Connect(_) => seq![Action::StopCapture],
            _ => teardown_plan(session),
        }
    } else {
        Seq::empty()
    }
}

/// The session after the failure of `action`.
pub open spec fn after_failure(session: Session, action: Action) -> Session {
    if ends_session(session, action) {
        stopped(session)
    } else {
        session
    }
}

/// Whether `action` hands audio to a receiver.
pub open spec fn sends_audio(action: Action) -> bool {
    action is SendChunk
}

/// The session controller.
pub struct Streamer {
    target: Option<Address>,
    volume: Option<Level>,
}

impl View for Streamer {
    type V = Session;

    closed spec fn view(&self) -> Session {
        Session { target: self.target, volume: self.volume }
    }
}

impl Streamer {
    /// An idle session with no volume asked for.
    pub fn new() -> (streamer: Streamer)
        ensures
            streamer@ == (Session { target: None, volume: None }),
    {
        Streamer { target: None, volume: None }
    }

    /// The receiver played to, if any.
    pub fn addr(&self) -> (addr: Option<Address>)
        ensures
            addr == self@.target,
    {
        self.target
    }

    /// The volume last asked for, if any.
    pub fn volume(&self) -> (volume: Option<Level>)
        ensures
            volume == self@.volume,
    {
        self.volume
    }

    /// Makes `addr` and `volume` the session's state and returns what has to
    /// be done for it. A receiver that is already played to keeps its
    /// connection and only has the volume set again; any other live pipeline
    /// is released first, and a new one is set up if `addr` names a receiver.
    pub fn update(&mut self, addr: Option<Address>, volume: Option<Level>) -> (plan: Vec<Action>)
        ensures
            final(self)@ == updated(addr, volume),
            plan@ == update_plan(old(self)@, addr, volume),
    {
        let mut plan: Vec<Action> = Vec::new();
        let reuse = match (self.target, addr) {
            (Some(old_addr), Some(new_addr)) => old_addr == new_addr,
            _ => false,
        };
        if !reuse {
            if let Some(old_addr) = self.target {
                plan.push(Action::StopCapture);
                plan.push(Action::Teardown(old_addr));
            }
            assert(plan@ =~= teardown_plan(old(self)@));
        }
        if let Some(new_addr) = addr {
            if !reuse {
                plan.push(Action::StartCapture);
                plan.push(Action::Connect(new_addr));
            }
            if let Some(level) = volume {
                plan.push(Action::SetVolume(new_addr, level));
            }
            if !reuse {
                plan.push(Action::SetMetadata(new_addr));
            }
        }
        self.target = addr;
        self.volume = volume;
        assert(plan@ =~= update_plan(old(self)@, addr, volume));
        plan
    }

    /// How many bytes the relay is to read from the capture source next:
    /// one chunk while a receiver is played to, nothing while idle.
    pub fn next_read(&self) -> (size: Option<usize>)
        ensures
            size == if self@.is_active() {
                Some(CHUNK_BYTES)
            } else {
                None::<usize>
            },
    {
        match self.target {
            Some(_) => Some(CHUNK_BYTES),
            None => None,
        }
    }

    /// Takes the outcome of a read from the capture source: the number of
    /// bytes read, none at the end of the stream, or `None` for a failed
    /// read. Returns what has to be done with it.
    pub fn relay(&mut self, read: Option<usize>) -> (plan: Vec<Action>)
        ensures
            final(self)@ == relayed(old(self)@, read),
            plan@ == relay_plan(old(self)@, read),
    {
        let mut plan: Vec<Action> = Vec::new();
        let len: usize = match read {
            Some(len) => len,
            None => 0,
        };
        if let Some(addr) = self.target {
            if len > 0 {
                plan.push(Action::AcceptFrames(addr));
                plan.push(Action::SendChunk(addr, len));
            } else {
                plan.push(Action::StopCapture);
                plan.push(Action::Teardown(addr));
            }
        }
        if len == 0 {
            self.target = None;
        }
        assert(plan@ =~= relay_plan(old(self)@, read));
        plan
    }

    /// Takes the report that `action` has failed and returns what is left to
    /// release. The session ends where the failure leaves the receiver
    /// without a working pipeline, so that it never names a receiver that
    /// nothing is sent to.
    pub fn failed(&mut self, action: Action) -> (plan: Vec<Action>)
        ensures
            final(self)@ == after_failure(old(self)@, action),
            plan@ == cleanup_plan(old(self)@, action),
    {
        let mut plan: Vec<Action> = Vec::new();
        let target = match self.target {
            Some(target) => target,
            None => {
                assert(plan@ =~= cleanup_plan(old(self)@, action));
                return plan;
            },
        };
        let ends = match action {
            Action::StartCapture => true,
            Action::Connect(addr) => {
                if addr == target {
                    plan.push(Action::StopCapture);
                }
                addr == target
            },
            Action::SetVolume(addr, _) | Action::AcceptFrames(addr) | Action::SendChunk(addr, _) => {
                if addr == target {
                    plan.push(Action::StopCapture);
                    plan.push(Action::Teardown(target));
                }
                addr == target
            },
            Action::SetMetadata(_) | Action::StopCapture | Action::Teardown(_) => false,
        };
        if ends {
            self.target = None;
        }
        assert(plan@ =~= cleanup_plan(old(self)@, action));
        plan
    }
}

/// Clearing the session leaves it idle, without capture and without a
/// client, whatever it was before; it asks only for releases; and clearing
/// an idle session asks for nothing, so that nothing can fail.
pub proof fn law_clear_leaves_idle(
    session: Session,
    volume: Option<Level>,
    again: Option<Level>,
)
    ensures
        updated(None, volume).is_idle(),
        !updated(None, volume).capturing(),
        updated(None, volume).clients().len() == 0,
        update_plan(session, None, volume) == teardown_plan(session),
        update_plan(updated(None, volume), None, again) == Seq::<Action>::empty(),
{
}

/// Two updates in a row to different receivers leave one client, to the
/// second receiver: the first one's pipeline is released before the second
/// one's is set up, and the second volume is set on the new connection
/// before any audio is sent.
pub proof fn law_switch_leaves_one_client(
    first: Address,
    first_volume: Option<Level>,
    second: Address,
    second_volume: Option<Level>,
)
    requires
        first != second,
    ensures
        updated(Some(second), second_volume).clients() == seq![second],
        !updated(Some(second), second_volume).clients().contains(first),
        updated(Some(second), second_volume).volume == second_volume,
        update_plan(updated(Some(first), first_volume), Some(second), second_volume) == seq![
            Action::StopCapture,
            Action::Teardown(first),
            Action::StartCapture,
            Action::Connect(second),
        ] + volume_plan(second, second_volume) + seq![Action::SetMetadata(second)],
        forall|i: int|
            0 <= i < update_plan(
                updated(Some(first), first_volume),
                Some(second),
                second_volume,
            ).len() ==> !sends_audio(
                #[trigger] update_plan(
                    updated(Some(first), first_volume),
                    Some(second),
                    second_volume,
                )[i],
            ),
{
    let clients = updated(Some(second), second_volume).clients();
    assert(clients =~= seq![second]);
    if clients.contains(first) {
        let i = choose|i: int| 0 <= i < clients.len() && clients[i] == first;
        assert(clients[i] == second);
    }
    let plan = update_plan(updated(Some(first), first_volume), Some(second), second_volume);
    assert(plan =~= seq![
        Action::StopCapture,
        Action::Teardown(first),
        Action::StartCapture,
        Action::Connect(second),
    ] + volume_plan(second, second_volume) + seq![Action::SetMetadata(second)]);
}

/// A new volume for the receiver that is played to is set on the connection
/// that exists: nothing is released and nothing is opened.
pub proof fn law_volume_keeps_connection(
    addr: Address,
    first_volume: Option<Level>,
    second_volume: Level,
)
    ensures
        update_plan(updated(Some(addr), first_volume), Some(addr), Some(second_volume)) == seq![
            Action::SetVolume(addr, second_volume),
        ],
        updated(Some(addr), Some(second_volume)).clients() == updated(
            Some(addr),
            first_volume,
        ).clients(),
        updated(Some(addr), Some(second_volume)).volume == Some(second_volume),
{
}

/// From idle, playing to a receiver starts capture, opens one connection and
/// sets the volume on it, in that order, and sends no audio yet.
pub proof fn law_start_from_idle(idle: Session, addr: Address, volume: Level)
    requires
        idle.is_idle(),
    ensures
        updated(Some(addr), Some(volume)).is_active(),
        updated(Some(addr), Some(volume)).capturing(),
        updated(Some(addr), Some(volume)).clients() == seq![addr],
        update_plan(idle, Some(addr), Some(volume)) == seq![
            Action::StartCapture,
            Action::Connect(addr),
            Action::SetVolume(addr, volume),
            Action::SetMetadata(addr),
        ],
{
    assert(update_plan(idle, Some(addr), Some(volume)) =~= seq![
        Action::StartCapture,
        Action::Connect(addr),
        Action::SetVolume(addr, volume),
        Action::SetMetadata(addr),
    ]);
}

/// A read that fails or ends the stream leaves the session idle, and
/// clearing it afterwards asks for nothing.
pub proof fn law_clear_after_lost_capture(
    session: Session,
    read: Option<usize>,
    volume: Option<Level>,
)
    requires
        read is None || read == Some(0usize),
    ensures
        relayed(session, read).is_idle(),
        relay_plan(session, read) == teardown_plan(session),
        update_plan(relayed(session, read), None, volume) == Seq::<Action>::empty(),
        updated(None, volume).is_idle(),
{
}

} // verus!
