//! The event dispatcher: one replay session, driven event by event.
//!
//! The external trace reader walks the file's chunk framing and hands
//! over one typed event per recognised chunk, synchronously and in
//! file order. The `Replayer` consumes them through a three-state
//! machine:
//!
//! * `AwaitingDeviceInfo` — before the device-info event. Memory
//!   writes are applied at once (raw content is device-independent),
//!   but a command-queue event is a fatal format error, because no
//!   decode session exists yet. The device-info event resolves the
//!   device through the table and moves to `Active`.
//! * `Active` — memory writes go to the address space; a ring write
//!   is answered with a `Decode` action that the caller hands to the
//!   external decoder, together with this replayer as the address
//!   resolver and line sink; an execlist write is logged as a
//!   context-switch marker only.
//! * `Closed` — after end-of-stream; no further event is accepted.
//!
//! Events are never reordered and are processed one at a time; that
//! sequencing is what makes the model's last-write-wins semantics
//! correct. Output is collected as structured records; a decode-line
//! budget (`--max-vbo-lines`) suppresses decode text once exhausted
//! while memory-model replay continues unaffected.

use vstd::prelude::*;

use crate::addr_space::resolved_loc;
use crate::addr_space::run_ok;
use crate::addr_space::AddressSpace;
use crate::addr_space::BufferObject;
use crate::addr_space::Domain;
use crate::addr_space::SpaceModel;
use crate::addr_space::empty_model;
use crate::addr_space::model_write_entry;
use crate::addr_space::model_write_region;
use crate::device::device_lookup;
use crate::device::lookup_device;
use crate::device::DeviceDescriptor;
use crate::errors::MalformedTraceError;
use crate::errors::ReplayError;
use crate::errors::SetupError;
use crate::gtt::GgttEntry;
use crate::options::CmdLine;
use crate::session::decode_flags;
use crate::session::flags_spec;
use crate::session::DecodeSession;

verus! {

/// One typed event, as the trace reader delivers it: exactly one per
/// recognised chunk, in file order.
#[derive(Debug, Clone)]
pub enum Event {
    /// The application name and PCI device id the trace was taken on.
    DeviceInfo { pci_id: i32, app_name: String },
    /// Raw content written to local memory.
    LocalWrite { addr: u64, data: Vec<u8> },
    /// Raw content written to physical memory.
    PhysWrite { addr: u64, data: Vec<u8> },
    /// Raw content written to the flat graphics-visible space.
    GgttWrite { addr: u64, data: Vec<u8> },
    /// A translation-table entry update.
    GgttEntryWrite { index: u64, addr: u64, valid: bool },
    /// A command-queue submission: inline instruction bytes for one
    /// hardware engine.
    RingWrite { engine: u16, data: Vec<u8> },
    /// A context-switch notification; carries no ring content in this
    /// trace format version, so it is informational only.
    ExeclistWrite { engine: u16, context_descriptor: u64 },
}

/// One line of structured replay output. The caller renders records
/// as text; the replayer only collects them.
#[derive(Debug, Clone)]
pub enum OutputRecord {
    /// The trace's application name and device id, logged on the
    /// device-info event.
    AppInfo { pci_id: i32, app_name: String },
    /// A ring write was dispatched to the decoder.
    RingMarker { engine: u16 },
    /// A context-switch marker for an execlist write.
    ExeclistMarker { engine: u16, context_descriptor: u64 },
    /// One line of external decoder output that fit the line budget.
    DecodeLine { text: String },
    /// A buffer-object reference that resolution could not back;
    /// decode continues past it.
    UnresolvedNote { addr: u64, domain: Domain },
}

/// What the caller must do after an event was dispatched.
#[derive(Debug)]
pub enum Action {
    /// Nothing: the event's whole effect is recorded in the replayer.
    Recorded,
    /// Hand these instruction bytes to the external decoder, with
    /// this replayer as its address resolver and line sink.
    Decode { engine: u16, data: Vec<u8> },
}

/// The dispatcher's state machine.
#[derive(Debug, Clone, Copy, PartialEq, Eq, Structural)]
pub enum DispatchState {
    AwaitingDeviceInfo,
    Active,
    Closed,
}

/// The address-space effect of one event: content and entry writes
/// update the model, every other event leaves it unchanged.
pub open spec fn event_step(m: SpaceModel, e: Event) -> SpaceModel {
    match e {
        Event::LocalWrite { addr, data } => model_write_region(m, Domain::Local, addr, data@),
        Event::PhysWrite { addr, data } => model_write_region(m, Domain::Physical, addr, data@),
        Event::GgttWrite { addr, data } => model_write_region(m, Domain::Ggtt, addr, data@),
        Event::GgttEntryWrite { index, addr, valid } => model_write_entry(
            m,
            index,
            GgttEntry { addr, valid },
        ),
        _ => m,
    }
}

/// The model an ordered event list builds on top of `m`.
pub open spec fn replay_from(m: SpaceModel, es: Seq<Event>) -> SpaceModel
    decreases es.len(),
{
    if es.len() == 0 {
        m
    } else {
        event_step(replay_from(m, es.drop_last()), es.last())
    }
}

/// The model an ordered event list builds from the empty space.
pub open spec fn replay_model(es: Seq<Event>) -> SpaceModel {
    replay_from(empty_model(), es)
}

/// Whether the dispatcher refuses event `e` in state `st`, and with
/// what error, given the device table `dv`.
pub open spec fn step_error(st: DispatchState, dv: Seq<DeviceDescriptor>, e: Event) -> Option<
    ReplayError,
> {
    match st {
        DispatchState::Closed => Some(ReplayError::Malformed(MalformedTraceError::EventAfterClose)),
        DispatchState::AwaitingDeviceInfo => match e {
            Event::DeviceInfo { pci_id, .. } => if device_lookup(dv, pci_id) is Some {
                None
            } else {
                Some(ReplayError::Setup(SetupError::DeviceLookup { pci_id }))
            },
            Event::RingWrite { engine, .. } => Some(
                ReplayError::Malformed(MalformedTraceError::DecodeEventBeforeDeviceInfo { engine }),
            ),
            Event::ExeclistWrite { engine, .. } => Some(
                ReplayError::Malformed(MalformedTraceError::DecodeEventBeforeDeviceInfo { engine }),
            ),
            _ => None,
        },
        DispatchState::Active => None,
    }
}

/// The dispatcher state after one event: only a successful
/// device-info event moves the machine, from `AwaitingDeviceInfo` to
/// `Active`.
pub open spec fn next_state(st: DispatchState, dv: Seq<DeviceDescriptor>, e: Event) -> DispatchState {
    if step_error(st, dv, e) is Some {
        st
    } else {
        match st {
            DispatchState::AwaitingDeviceInfo => match e {
                Event::DeviceInfo { .. } => DispatchState::Active,
                _ => st,
            },
            _ => st,
        }
    }
}

/// The dispatcher state after an ordered event list.
pub open spec fn state_after(st: DispatchState, dv: Seq<DeviceDescriptor>, es: Seq<Event>) -> DispatchState
    decreases es.len(),
{
    if es.len() == 0 {
        st
    } else {
        next_state(state_after(st, dv, es.drop_last()), dv, es.last())
    }
}

/// Whether an ordered event list is dispatched without any refusal,
/// starting from state `st`.
pub open spec fn prefix_ok(st: DispatchState, dv: Seq<DeviceDescriptor>, es: Seq<Event>) -> bool
    decreases es.len(),
{
    if es.len() == 0 {
        true
    } else {
        prefix_ok(st, dv, es.drop_last()) && step_error(
            state_after(st, dv, es.drop_last()),
            dv,
            es.last(),
        ) is None
    }
}

/// A refusal anywhere in the list means the whole list is not
/// dispatched without refusal.
proof fn lemma_refusal_breaks_prefix(
    st: DispatchState,
    dv: Seq<DeviceDescriptor>,
    es: Seq<Event>,
    k: int,
)
    requires
        0 <= k < es.len(),
        step_error(state_after(st, dv, es.take(k)), dv, es[k]) is Some,
    ensures
        !prefix_ok(st, dv, es),
    decreases es.len(),
{
    if es.len() == k + 1 {
        assert(es.take(k) =~= es.drop_last());
        assert(es[k] == es.last());
    } else {
        let t = es.drop_last();
        assert(t.take(k) =~= es.take(k));
        assert(t[k] == es[k]);
        lemma_refusal_breaks_prefix(st, dv, t, k);
    }
}

/// Replay is idempotent with respect to event order: two replayers
/// fed the same ordered event list build the very same model, so
/// every address resolves identically in both — replaying a trace
/// prefix twice cannot change any resolution result.
pub proof fn lemma_replay_deterministic(
    m1: SpaceModel,
    m2: SpaceModel,
    es: Seq<Event>,
    addr: u64,
    domain: Domain,
)
    requires
        m1 == replay_model(es),
        m2 == replay_model(es),
    ensures
        m1 == m2,
        resolved_loc(m1, addr, domain) == resolved_loc(m2, addr, domain),
{
}

/// One replay session: the state machine, the reconstructed address
/// space, the configuration, the decode session once known, the
/// remaining decode-line budget, and the output collected so far.
#[derive(Debug)]
pub struct Replayer {
    pub state: DispatchState,
    pub space: AddressSpace,
    pub options: CmdLine,
    pub devices: Vec<DeviceDescriptor>,
    pub session: Option<DecodeSession>,
    pub remaining: Option<u64>,
    pub output: Vec<OutputRecord>,
}

impl Replayer {
    pub open spec fn wf(self) -> bool {
        &&& self.space.wf()
        &&& match self.state {
            DispatchState::AwaitingDeviceInfo => self.session is None,
            DispatchState::Active => self.session is Some,
            DispatchState::Closed => true,
        }
    }

    /// A fresh session over an empty address space, configured but
    /// not yet knowing the device; the decode-line budget starts at
    /// the configured maximum.
    pub fn new(options: CmdLine, devices: Vec<DeviceDescriptor>) -> (r: Replayer)
        ensures
            r.wf(),
            r.state == DispatchState::AwaitingDeviceInfo,
            r.space.model() == empty_model(),
            r.options == options,
            r.devices == devices,
            r.session is None,
            r.remaining == options.max_vbo_lines,
            r.output@ =~= Seq::<OutputRecord>::empty(),
    {
        let remaining = match options.max_vbo_lines {
            Some(n) => Some(n),
            None => None,
        };
        Replayer {
            state: DispatchState::AwaitingDeviceInfo,
            space: AddressSpace::new(),
            options,
            devices,
            session: None,
            remaining,
            output: Vec::new(),
        }
    }

    /// Dispatch one event, in file order. The address-space model
    /// advances by exactly `event_step` unless the stream is closed;
    /// the state machine, session, output and result follow the
    /// contract below, clause by clause.
    pub fn process_event(&mut self, e: &Event) -> (r: Result<Action, ReplayError>)
        requires
            old(self).wf(),
        ensures
            final(self).wf(),
            final(self).options == old(self).options,
            final(self).devices == old(self).devices,
            final(self).remaining == old(self).remaining,
            final(self).space.model() == if old(self).state == DispatchState::Closed {
                old(self).space.model()
            } else {
                event_step(old(self).space.model(), *e)
            },
            match old(self).state {
                DispatchState::Closed => {
                    &&& r == Err::<Action, ReplayError>(
                        ReplayError::Malformed(MalformedTraceError::EventAfterClose),
                    )
                    &&& final(self).state == old(self).state
                    &&& final(self).session == old(self).session
                    &&& final(self).output@ == old(self).output@
                },
                DispatchState::AwaitingDeviceInfo => match *e {
                    Event::DeviceInfo { pci_id, app_name } => match device_lookup(
                        old(self).devices@,
                        pci_id,
                    ) {
                        Some(d) => {
                            &&& r == Ok::<Action, ReplayError>(Action::Recorded)
                            &&& final(self).state == DispatchState::Active
                            &&& final(self).session == Some(
                                DecodeSession { device: d, flags: flags_spec(old(self).options) },
                            )
                            &&& final(self).output@ == old(self).output@.push(
                                OutputRecord::AppInfo { pci_id, app_name },
                            )
                        },
                        None => {
                            &&& r == Err::<Action, ReplayError>(
                                ReplayError::Setup(SetupError::DeviceLookup { pci_id }),
                            )
                            &&& final(self).state == DispatchState::AwaitingDeviceInfo
                            &&& final(self).session is None
                            &&& final(self).output@ == old(self).output@
                        },
                    },
                    Event::RingWrite { engine, .. } => {
                        &&& r == Err::<Action, ReplayError>(
                            ReplayError::Malformed(
                                MalformedTraceError::DecodeEventBeforeDeviceInfo { engine },
                            ),
                        )
                        &&& final(self).state == old(self).state
                        &&& final(self).session is None
                        &&& final(self).output@ == old(self).output@
                    },
                    Event::ExeclistWrite { engine, .. } => {
                        &&& r == Err::<Action, ReplayError>(
                            ReplayError::Malformed(
                                MalformedTraceError::DecodeEventBeforeDeviceInfo { engine },
                            ),
                        )
                        &&& final(self).state == old(self).state
                        &&& final(self).session is None
                        &&& final(self).output@ == old(self).output@
                    },
                    _ => {
                        &&& r == Ok::<Action, ReplayError>(Action::Recorded)
                        &&& final(self).state == old(self).state
                        &&& final(self).session is None
                        &&& final(self).output@ == old(self).output@
                    },
                },
                DispatchState::Active => match *e {
                    Event::DeviceInfo { pci_id, app_name } => {
                        &&& r == Ok::<Action, ReplayError>(Action::Recorded)
                        &&& final(self).state == DispatchState::Active
                        &&& final(self).session == old(self).session
                        &&& final(self).output@ == old(self).output@.push(
                            OutputRecord::AppInfo { pci_id, app_name },
                        )
                    },
                    Event::RingWrite { engine, data } => {
                        &&& match r {
                            Ok(Action::Decode { engine: eng, data: d }) => eng == engine && d@
                                == data@,
                            _ => false,
                        }
                        &&& final(self).state == DispatchState::Active
                        &&& final(self).session == old(self).session
                        &&& final(self).output@ == old(self).output@.push(
                            OutputRecord::RingMarker { engine },
                        )
                    },
                    Event::ExeclistWrite { engine, context_descriptor } => {
                        &&& r == Ok::<Action, ReplayError>(Action::Recorded)
                        &&& final(self).state == DispatchState::Active
                        &&& final(self).session == old(self).session
                        &&& final(self).output@ == old(self).output@.push(
                            OutputRecord::ExeclistMarker { engine, context_descriptor },
                        )
                    },
                    _ => {
                        &&& r == Ok::<Action, ReplayError>(Action::Recorded)
                        &&& final(self).state == DispatchState::Active
                        &&& final(self).session == old(self).session
                        &&& final(self).output@ == old(self).output@
                    },
                },
            },
    {
        match self.state {
            DispatchState::Closed => {
                return Err(ReplayError::Malformed(MalformedTraceError::EventAfterClose));
            },
            _ => {},
        }
        let active = match self.state {
            DispatchState::Active => true,
            _ => false,
        };
        match e {
            Event::DeviceInfo { pci_id, app_name } => {
                if active {
                    self.output.push(
                        OutputRecord::AppInfo { pci_id: *pci_id, app_name: app_name.clone() },
                    );
                    Ok(Action::Recorded)
                } else {
                    match lookup_device(&self.devices, *pci_id) {
                        Some(d) => {
                            let flags = decode_flags(&self.options);
                            self.session = Some(DecodeSession { device: d, flags });
                            self.state = DispatchState::Active;
                            self.output.push(
                                OutputRecord::AppInfo {
                                    pci_id: *pci_id,
                                    app_name: app_name.clone(),
                                },
                            );
                            Ok(Action::Recorded)
                        },
                        None => Err(
                            ReplayError::Setup(SetupError::DeviceLookup { pci_id: *pci_id }),
                        ),
                    }
                }
            },
            Event::LocalWrite { addr, data } => {
                self.space.write_local(*addr, data);
                Ok(Action::Recorded)
            },
            Event::PhysWrite { addr, data } => {
                self.space.write_physical(*addr, data);
                Ok(Action::Recorded)
            },
            Event::GgttWrite { addr, data } => {
                self.space.write_ggtt(*addr, data);
                Ok(Action::Recorded)
            },
            Event::GgttEntryWrite { index, addr, valid } => {
                self.space.write_ggtt_entry(*index, *addr, *valid);
                Ok(Action::Recorded)
            },
            Event::RingWrite { engine, data } => {
                if active {
                    self.output.push(OutputRecord::RingMarker { engine: *engine });
                    let mut copy: Vec<u8> = Vec::new();
                    let mut i: usize = 0;
                    while i < data.len()
                        invariant
                            i <= data.len(),
                            copy@ =~= data@.take(i as int),
                        decreases data.len() - i,
                    {
                        copy.push(data[i]);
                        proof {
                            assert(copy@ =~= data@.take(i as int + 1));
                        }
                        i = i + 1;
                    }
                    proof {
                        assert(copy@ =~= data@);
                    }
                    Ok(Action::Decode { engine: *engine, data: copy })
                } else {
                    Err(
                        ReplayError::Malformed(
                            MalformedTraceError::DecodeEventBeforeDeviceInfo { engine: *engine },
                        ),
                    )
                }
            },
            Event::ExeclistWrite { engine, context_descriptor } => {
                if active {
                    self.output.push(
                        OutputRecord::ExeclistMarker {
                            engine: *engine,
                            context_descriptor: *context_descriptor,
                        },
                    );
                    Ok(Action::Recorded)
                } else {
                    Err(
                        ReplayError::Malformed(
                            MalformedTraceError::DecodeEventBeforeDeviceInfo { engine: *engine },
                        ),
                    )
                }
            },
        }
    }

    /// Dispatch a whole ordered event list, stopping at the first
    /// refused event. Decode actions are dropped: this drives the
    /// memory model alone, exactly as a replay without a linked
    /// decoder does. It succeeds exactly when no event of the list is
    /// refused, and then the address-space model is precisely the
    /// fold of `event_step` over the list; on failure the error is
    /// the first refusal, and the model holds the fold of the prefix
    /// before it (a refused event never touches the model). Per-event
    /// effects on state, session and output are those of
    /// `process_event`.
    pub fn replay_events(&mut self, events: &Vec<Event>) -> (r: Result<(), ReplayError>)
        requires
            old(self).wf(),
        ensures
            final(self).wf(),
            final(self).options == old(self).options,
            final(self).devices == old(self).devices,
            final(self).remaining == old(self).remaining,
            r is Ok <==> prefix_ok(old(self).state, old(self).devices@, events@),
            match r {
                Ok(()) => {
                    &&& final(self).space.model() == replay_from(old(self).space.model(), events@)
                    &&& final(self).state == state_after(
                        old(self).state,
                        old(self).devices@,
                        events@,
                    )
                },
                Err(e) => exists|k: int|
                    {
                        &&& 0 <= k < events@.len()
                        &&& prefix_ok(old(self).state, old(self).devices@, #[trigger] events@.take(k))
                        &&& step_error(
                            state_after(old(self).state, old(self).devices@, events@.take(k)),
                            old(self).devices@,
                            events@[k],
                        ) == Some(e)
                        &&& final(self).space.model() == replay_from(
                            old(self).space.model(),
                            events@.take(k),
                        )
                    },
            },
    {
        let ghost m0 = self.space.model();
        let ghost st0 = self.state;
        let ghost dv = self.devices@;
        let mut i: usize = 0;
        proof {
            assert(events@.take(0) =~= Seq::<Event>::empty());
        }
        while i < events.len()
            invariant
                self.wf(),
                i <= events.len(),
                m0 == old(self).space.model(),
                st0 == old(self).state,
                dv == old(self).devices@,
                self.options == old(self).options,
                self.devices == old(self).devices,
                self.remaining == old(self).remaining,
                self.space.model() == replay_from(m0, events@.take(i as int)),
                self.state == state_after(st0, dv, events@.take(i as int)),
                prefix_ok(st0, dv, events@.take(i as int)),
            decreases events.len() - i,
        {
            let ghost pre = *self;
            let step = self.process_event(&events[i]);
            proof {
                let t = events@.take(i as int + 1);
                assert(t.drop_last() =~= events@.take(i as int));
                assert(t.last() == events@[i as int]);
                assert(replay_from(m0, t) == event_step(
                    replay_from(m0, events@.take(i as int)),
                    events@[i as int],
                ));
                assert(state_after(st0, dv, t) == next_state(
                    state_after(st0, dv, events@.take(i as int)),
                    dv,
                    events@[i as int],
                ));
            }
            match step {
                Ok(_) => {
                    proof {
                        assert(step_error(pre.state, dv, events@[i as int]) is None);
                    }
                },
                Err(e) => {
                    proof {
                        assert(step_error(pre.state, dv, events@[i as int]) == Some(e));
                        assert(self.space.model() == replay_from(m0, events@.take(i as int)));
                        lemma_refusal_breaks_prefix(st0, dv, events@, i as int);
                    }
                    return Err(e);
                },
            }
            i = i + 1;
        }
        proof {
            assert(events@.take(i as int) =~= events@);
        }
        Ok(())
    }

    /// End-of-stream: move to `Closed`; nothing else changes, and no
    /// further event will be accepted.
    pub fn close(&mut self)
        requires
            old(self).wf(),
        ensures
            final(self).wf(),
            final(self).state == DispatchState::Closed,
            final(self).space == old(self).space,
            final(self).options == old(self).options,
            final(self).devices == old(self).devices,
            final(self).session == old(self).session,
            final(self).remaining == old(self).remaining,
            final(self).output@ == old(self).output@,
    {
        self.state = DispatchState::Closed;
    }

    /// The external decoder's line sink. A line is recorded while the
    /// budget allows and the budget is decremented; once it reaches
    /// zero, further decode output is suppressed — but nothing else
    /// of the replay is affected. Returns whether the line was kept.
    pub fn emit_decode_line(&mut self, text: String) -> (kept: bool)
        requires
            old(self).wf(),
        ensures
            final(self).wf(),
            final(self).state == old(self).state,
            final(self).space == old(self).space,
            final(self).options == old(self).options,
            final(self).devices == old(self).devices,
            final(self).session == old(self).session,
            match old(self).remaining {
                Some(n) => if n == 0 {
                    &&& !kept
                    &&& final(self).remaining == Some(0u64)
                    &&& final(self).output@ == old(self).output@
                } else {
                    &&& kept
                    &&& final(self).remaining == Some((n - 1) as u64)
                    &&& final(self).output@ == old(self).output@.push(
                        OutputRecord::DecodeLine { text },
                    )
                },
                None => {
                    &&& kept
                    &&& final(self).remaining == None::<u64>
                    &&& final(self).output@ == old(self).output@.push(
                        OutputRecord::DecodeLine { text },
                    )
                },
            },
    {
        match self.remaining {
            Some(n) => {
                if n == 0 {
                    false
                } else {
                    self.remaining = Some(n - 1);
                    self.output.push(OutputRecord::DecodeLine { text });
                    true
                }
            },
            None => {
                self.output.push(OutputRecord::DecodeLine { text });
                true
            },
        }
    }

    /// The address resolver handed to the external decoder for the
    /// scope of one ring-write decode pass. A failed resolution is
    /// annotated inline in the output and decode continues; a
    /// successful one returns the buffer object and leaves the output
    /// alone. The model itself is never changed, and every call reads
    /// it afresh: no per-buffer identity is cached across ring
    /// writes, so a later write changing what an address means is
    /// always seen. This trace format version carries no separate
    /// per-process translation tables, so `use_ppgtt` does not alter
    /// the outcome; the flag exists because the decoder's resolver
    /// interface carries it.
    pub fn resolve_for_decode(&mut self, addr: u64, domain: Domain, use_ppgtt: bool) -> (r: Option<
        BufferObject,
    >)
        requires
            old(self).wf(),
        ensures
            final(self).wf(),
            final(self).state == old(self).state,
            final(self).space == old(self).space,
            final(self).options == old(self).options,
            final(self).devices == old(self).devices,
            final(self).session == old(self).session,
            final(self).remaining == old(self).remaining,
            match resolved_loc(old(self).space.model(), addr, domain) {
                Some(loc) => {
                    &&& r matches Some(bo) && run_ok(old(self).space.model(), bo, loc.0, loc.1)
                    &&& final(self).output@ == old(self).output@
                },
                None => {
                    &&& r is None
                    &&& final(self).output@ == old(self).output@.push(
                        OutputRecord::UnresolvedNote { addr, domain },
                    )
                },
            },
    {
        let _ = use_ppgtt;
        match self.space.resolve(addr, domain) {
            Ok(bo) => Some(bo),
            Err(_) => {
                self.output.push(OutputRecord::UnresolvedNote { addr, domain });
                None
            },
        }
    }
}

} // verus!
