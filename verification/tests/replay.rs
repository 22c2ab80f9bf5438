//! End-to-end replay scenarios: the dispatcher state machine, the
//! reconstructed address spaces, resolution, and the line budget.

use aubinator::addr_space::AddressSpace;
use aubinator::addr_space::Domain;
use aubinator::device::DeviceDescriptor;
use aubinator::dispatch::Action;
use aubinator::dispatch::DispatchState;
use aubinator::dispatch::Event;
use aubinator::dispatch::OutputRecord;
use aubinator::dispatch::Replayer;
use aubinator::errors::MalformedTraceError;
use aubinator::errors::ReplayError;
use aubinator::errors::SetupError;
use aubinator::options::CmdLine;

fn plain_cmdline() -> CmdLine {
    CmdLine {
        gen: None,
        headers: false,
        color: None,
        max_vbo_lines: None,
        disable_pager: true,
        no_offsets: false,
        xml_dir: None,
    }
}

fn known_devices() -> Vec<DeviceDescriptor> {
    vec![
        DeviceDescriptor { pci_id: 0x1234, generation: 9 },
        DeviceDescriptor { pci_id: 0x5916, generation: 9 },
    ]
}

fn count_decode_lines(r: &Replayer) -> usize {
    r.output
        .iter()
        .filter(|rec| matches!(rec, OutputRecord::DecodeLine { .. }))
        .count()
}

fn count_unresolved(r: &Replayer) -> usize {
    r.output
        .iter()
        .filter(|rec| matches!(rec, OutputRecord::UnresolvedNote { .. }))
        .count()
}

#[test]
fn last_write_wins_in_one_region() {
    let mut space = AddressSpace::new();
    space.write_local(0x1000, &vec![1, 2, 3]);
    space.write_local(0x1000, &vec![9, 8, 7]);
    let bo = space.resolve(0x1000, Domain::Local).expect("written address must resolve");
    assert_eq!(bo.addr, 0x1000);
    assert_eq!(bo.domain, Domain::Local);
    // One page was materialised; the run covers it, zero-filled past
    // the written bytes, and the last write's content wins.
    assert_eq!(bo.data.len(), 4096);
    assert_eq!(&bo.data[0..3], &[9, 8, 7]);
    assert_eq!(bo.data[3], 0);
}

#[test]
fn unaligned_write_spans_pages() {
    let mut space = AddressSpace::new();
    // Four bytes across a page boundary materialise both pages.
    space.write_physical(0x1ffe, &vec![0xde, 0xad, 0xbe, 0xef]);
    let bo = space.resolve(0x1ffe, Domain::Physical).expect("resolves");
    assert_eq!(bo.data[0], 0xde);
    assert_eq!(bo.data[1], 0xad);
    assert_eq!(bo.data[2], 0xbe);
    assert_eq!(bo.data[3], 0xef);
    // Both touched pages are in the run: from 0x1ffe to 0x3000.
    assert_eq!(bo.data.len(), 0x3000 - 0x1ffe);
    let head = space.resolve(0x1000, Domain::Physical).expect("page start resolves");
    assert_eq!(head.data[0], 0);
    assert_eq!(head.data.len(), 0x2000);
}

#[test]
fn ggtt_entry_latest_wins() {
    let mut space = AddressSpace::new();
    space.write_physical(0x5000, &vec![0xaa]);
    space.write_physical(0x6000, &vec![0xbb]);
    // Two entry writes for page 2: the later one wins, regardless of
    // the backing writes having happened first.
    space.write_ggtt_entry(2, 0x5000, true);
    space.write_ggtt_entry(2, 0x6000, true);
    let bo = space.resolve(0x2000, Domain::Ggtt).expect("translated address resolves");
    assert_eq!(bo.data[0], 0xbb);
    assert_eq!(bo.addr, 0x6000);
}

#[test]
fn ggtt_backing_write_after_entry_write() {
    let mut space = AddressSpace::new();
    // Entry first, backing content afterwards: resolution still sees
    // the content, because translation happens at resolve time.
    space.write_ggtt_entry(3, 0x9000, true);
    space.write_physical(0x9000, &vec![0x42]);
    let bo = space.resolve(0x3004, Domain::Ggtt).expect("resolves");
    // Page offset 4 is carried through the translation.
    assert_eq!(bo.addr, 0x9004);
    assert_eq!(bo.data[0], 0);
    let bo0 = space.resolve(0x3000, Domain::Ggtt).expect("resolves");
    assert_eq!(bo0.data[0], 0x42);
}

#[test]
fn invalid_entry_falls_back_to_flat_space() {
    let mut space = AddressSpace::new();
    space.write_ggtt(0x2000, &vec![0xc3]);
    space.write_ggtt_entry(2, 0x7000, false);
    let bo = space.resolve(0x2000, Domain::Ggtt).expect("flat content resolves");
    assert_eq!(bo.addr, 0x2000);
    assert_eq!(bo.data[0], 0xc3);
}

#[test]
fn unresolved_address_is_reported_not_fatal() {
    let mut space = AddressSpace::new();
    let err = space.resolve(0xdead0000, Domain::Ggtt).expect_err("nothing was written");
    assert_eq!(err.addr, 0xdead0000);
    assert_eq!(err.domain, Domain::Ggtt);
    // The model is intact: later events still apply and resolve.
    space.write_local(0x40, &vec![7]);
    let bo = space.resolve(0x40, Domain::Local).expect("resolves after failed lookup");
    assert_eq!(bo.data[0x40], 0);
    assert_eq!(bo.data[0], 7);
}

#[test]
fn replay_twice_yields_identical_resolutions() {
    let events = || {
        vec![
            Event::DeviceInfo { pci_id: 0x1234, app_name: "app".to_string() },
            Event::GgttWrite { addr: 0x2000, data: vec![5, 6, 7] },
            Event::GgttEntryWrite { index: 2, addr: 0x2000, valid: true },
            Event::LocalWrite { addr: 0x80, data: vec![1] },
            Event::PhysWrite { addr: 0x180, data: vec![2] },
        ]
    };
    let mut a = Replayer::new(plain_cmdline(), known_devices());
    let mut b = Replayer::new(plain_cmdline(), known_devices());
    a.replay_events(&events()).expect("replay a");
    b.replay_events(&events()).expect("replay b");
    for (addr, domain) in [
        (0x2000u64, Domain::Ggtt),
        (0x80u64, Domain::Local),
        (0x180u64, Domain::Physical),
        (0xffff_0000u64, Domain::Ggtt),
    ] {
        let ra = a.space.resolve(addr, domain);
        let rb = b.space.resolve(addr, domain);
        match (ra, rb) {
            (Ok(x), Ok(y)) => {
                assert_eq!(x.addr, y.addr);
                assert_eq!(x.domain, y.domain);
                assert_eq!(x.data, y.data);
            },
            (Err(x), Err(y)) => {
                assert_eq!(x.addr, y.addr);
                assert_eq!(x.domain, y.domain);
            },
            _ => panic!("one replay resolved where the other did not"),
        }
    }
}

#[test]
fn replay_stops_at_first_refused_event_with_model_intact() {
    let mut r = Replayer::new(plain_cmdline(), known_devices());
    let events = vec![
        Event::LocalWrite { addr: 0x10, data: vec![3] },
        Event::RingWrite { engine: 0, data: vec![0, 0, 0, 0] },
        Event::LocalWrite { addr: 0x20, data: vec![4] },
    ];
    let err = r.replay_events(&events).expect_err("ring before device info");
    assert_eq!(
        err,
        ReplayError::Malformed(MalformedTraceError::DecodeEventBeforeDeviceInfo { engine: 0 })
    );
    // The prefix before the refused event was applied; the rest was not.
    let bo = r.space.resolve(0x10, Domain::Local).expect("prefix applied");
    assert_eq!(bo.data[0], 3);
    // Address 0x20 is 0x10 into the run: the refused suffix left it zero.
    assert_eq!(bo.data[0x10], 0);
}

#[test]
fn decode_event_before_device_info_is_malformed() {
    let mut r = Replayer::new(plain_cmdline(), known_devices());
    // Memory writes are fine before the device is known ...
    r.process_event(&Event::LocalWrite { addr: 0, data: vec![1] }).expect("memory write ok");
    // ... but a command-queue event is a fatal format error.
    let err = r
        .process_event(&Event::RingWrite { engine: 1, data: vec![0, 0, 0, 0] })
        .expect_err("ring before info");
    assert_eq!(
        err,
        ReplayError::Malformed(MalformedTraceError::DecodeEventBeforeDeviceInfo { engine: 1 })
    );
    let err = r
        .process_event(&Event::ExeclistWrite { engine: 2, context_descriptor: 9 })
        .expect_err("execlist before info");
    assert_eq!(
        err,
        ReplayError::Malformed(MalformedTraceError::DecodeEventBeforeDeviceInfo { engine: 2 })
    );
}

#[test]
fn unknown_device_is_a_setup_error() {
    let mut r = Replayer::new(plain_cmdline(), known_devices());
    let err = r
        .process_event(&Event::DeviceInfo { pci_id: 0x9999, app_name: "x".to_string() })
        .expect_err("unknown pci id");
    assert_eq!(err, ReplayError::Setup(SetupError::DeviceLookup { pci_id: 0x9999 }));
    assert_eq!(r.state, DispatchState::AwaitingDeviceInfo);
}

#[test]
fn repeated_device_info_only_logs_and_keeps_session() {
    let mut r = Replayer::new(plain_cmdline(), known_devices());
    r.process_event(&Event::DeviceInfo { pci_id: 0x1234, app_name: "first".to_string() })
        .expect("device known");
    let session = r.session.expect("session built");
    // A second info event is logged, but the session stays as built.
    let action = r
        .process_event(&Event::DeviceInfo { pci_id: 0x5916, app_name: "second".to_string() })
        .expect("logged only");
    assert!(matches!(action, Action::Recorded));
    assert_eq!(r.session.expect("still present"), session);
    let infos = r
        .output
        .iter()
        .filter(|rec| matches!(rec, OutputRecord::AppInfo { .. }))
        .count();
    assert_eq!(infos, 2);
}

#[test]
fn no_event_accepted_after_close() {
    let mut r = Replayer::new(plain_cmdline(), known_devices());
    r.close();
    let err = r
        .process_event(&Event::LocalWrite { addr: 0, data: vec![1] })
        .expect_err("closed stream");
    assert_eq!(err, ReplayError::Malformed(MalformedTraceError::EventAfterClose));
}

/// A stand-in for the external instruction decoder: one output line
/// per 4-byte instruction word, resolving no external buffers.
fn toy_decode(r: &mut Replayer, data: &[u8]) {
    for (i, word) in data.chunks(4).enumerate() {
        let _ = word;
        r.emit_decode_line(format!("instruction {}", i));
    }
}

#[test]
fn one_inline_instruction_decodes_to_one_line() {
    let mut r = Replayer::new(plain_cmdline(), known_devices());
    r.process_event(&Event::DeviceInfo { pci_id: 0x1234, app_name: "demo".to_string() })
        .expect("device known");
    assert_eq!(r.state, DispatchState::Active);
    assert_eq!(r.session.expect("session built").device.generation, 9);
    r.process_event(&Event::LocalWrite { addr: 0x1000, data: vec![0u8; 64] })
        .expect("local write");
    let action = r
        .process_event(&Event::RingWrite { engine: 0, data: vec![0x05, 0, 0, 0] })
        .expect("ring write dispatches");
    match action {
        Action::Decode { engine, data } => {
            assert_eq!(engine, 0);
            toy_decode(&mut r, &data);
        },
        Action::Recorded => panic!("a ring write must ask for decode"),
    }
    assert_eq!(count_decode_lines(&r), 1);
    assert_eq!(count_unresolved(&r), 0);
}

#[test]
fn ggtt_reference_from_ring_resolves_to_written_content() {
    let content = vec![0xc0, 0xc1, 0xc2, 0xc3];
    let mut r = Replayer::new(plain_cmdline(), known_devices());
    r.process_event(&Event::DeviceInfo { pci_id: 0x1234, app_name: "demo".to_string() })
        .expect("device known");
    r.process_event(&Event::GgttWrite { addr: 0x2000, data: content.clone() })
        .expect("ggtt write");
    r.process_event(&Event::GgttEntryWrite { index: 2, addr: 0x2000, valid: true })
        .expect("entry write");
    let action = r
        .process_event(&Event::RingWrite { engine: 0, data: vec![1, 0, 0, 0] })
        .expect("ring write");
    assert!(matches!(action, Action::Decode { .. }));
    // The decoder asks the resolver for GGTT page 2.
    let bo = r.resolve_for_decode(0x2000, Domain::Ggtt, false).expect("page 2 resolves");
    assert_eq!(&bo.data[0..4], &content[..]);
    assert_eq!(count_unresolved(&r), 0);
}

#[test]
fn line_budget_suppresses_decode_but_not_replay() {
    let mut opts = plain_cmdline();
    opts.max_vbo_lines = Some(5);
    let mut r = Replayer::new(opts, known_devices());
    r.process_event(&Event::DeviceInfo { pci_id: 0x1234, app_name: "demo".to_string() })
        .expect("device known");
    let action = r
        .process_event(&Event::RingWrite { engine: 0, data: vec![0u8; 40] })
        .expect("ring write");
    match action {
        Action::Decode { data, .. } => toy_decode(&mut r, &data),  // emits 10 lines
        Action::Recorded => panic!("a ring write must ask for decode"),
    }
    assert_eq!(count_decode_lines(&r), 5);
    assert_eq!(r.remaining, Some(0));
    // Memory-model events from the rest of the file still apply.
    r.process_event(&Event::LocalWrite { addr: 0xbeef_0000, data: vec![0x77] })
        .expect("late write applies");
    let bo = r.space.resolve(0xbeef_0000, Domain::Local).expect("late address resolves");
    assert_eq!(bo.data[0], 0x77);
    // And further decode output stays suppressed.
    assert!(!r.emit_decode_line("extra".to_string()));
    assert_eq!(count_decode_lines(&r), 5);
}

#[test]
fn unlimited_budget_keeps_every_line() {
    let mut r = Replayer::new(plain_cmdline(), known_devices());
    for i in 0..100 {
        assert!(r.emit_decode_line(format!("line {}", i)));
    }
    assert_eq!(count_decode_lines(&r), 100);
    assert_eq!(r.remaining, None);
}

#[test]
fn unresolved_reference_is_annotated_and_decode_continues() {
    let mut r = Replayer::new(plain_cmdline(), known_devices());
    r.process_event(&Event::DeviceInfo { pci_id: 0x1234, app_name: "demo".to_string() })
        .expect("device known");
    assert!(r.resolve_for_decode(0x4000, Domain::Ggtt, false).is_none());
    assert_eq!(count_unresolved(&r), 1);
    // The failed lookup corrupted nothing: subsequent events apply.
    r.process_event(&Event::GgttWrite { addr: 0x4000, data: vec![9] }).expect("write applies");
    let bo = r.resolve_for_decode(0x4000, Domain::Ggtt, false).expect("resolves now");
    assert_eq!(bo.data[0], 9);
    assert_eq!(count_unresolved(&r), 1);
}

#[test]
fn execlist_write_is_logged_as_marker_only() {
    let mut r = Replayer::new(plain_cmdline(), known_devices());
    r.process_event(&Event::DeviceInfo { pci_id: 0x1234, app_name: "demo".to_string() })
        .expect("device known");
    let action = r
        .process_event(&Event::ExeclistWrite { engine: 3, context_descriptor: 0xabcd })
        .expect("execlist logged");
    assert!(matches!(action, Action::Recorded));
    assert!(r.output.iter().any(|rec| matches!(
        rec,
        OutputRecord::ExeclistMarker { engine: 3, context_descriptor: 0xabcd }
    )));
}
