use minimq::client::{ConnectEvent, OpStatus};
use minimq::properties::{Properties, Property};
use minimq::staging::{
    mqtt_varint_len, payload_padding, required_rx_bytes, should_log_chunk_progress, valid_id,
    Action, Config, CreateError, Handle, Manifest, Service, StagingRequest, State, StatusCode,
    StepPoll,
};
use minimq::ResourceError;

const ID: &[u8] = b"7ea690cc8c2cd8ed";
const ID_6: &[u8] = b"97463f6d0098b84a";
const SLOT: usize = 32;

const JSON_MANIFEST_8: &[u8] =
    br#"{"id":"7ea690cc8c2cd8ed","size":8,"fnv1a64":9126140903112366317}"#;
const JSON_MANIFEST_6: &[u8] =
    br#"{"id":"97463f6d0098b84a","size":6,"fnv1a64":10900469685490858058}"#;
const JSON_MANIFEST_0: &[u8] =
    br#"{"id":"cbf29ce484222325","size":0,"fnv1a64":14695981039346656037}"#;
const JSON_MANIFEST_MISSING_DIGEST: &[u8] = br#"{"id":"7ea690cc8c2cd8ed","size":8}"#;
const JSON_MANIFEST_UNKNOWN_FIELD: &[u8] =
    br#"{"id":"7ea690cc8c2cd8ed","size":8,"fnv1a64":9126140903112366317,"hash":"sha256"}"#;

/// What decoding the JSON object of `payload` gives, as the JSON decoder reports it: the
/// manifest fields and the bytes the object took, or nothing for an object that is not a
/// manifest (a missing field, an unknown one).
fn decode(payload: &[u8]) -> Option<(Manifest<'static>, usize)> {
    let whole = payload.len();
    match payload {
        p if p == JSON_MANIFEST_8 => Some((Manifest { id: "7ea690cc8c2cd8ed", size: 8, fnv1a64: 9126140903112366317 }, whole)),
        p if p == JSON_MANIFEST_6 => Some((Manifest { id: "97463f6d0098b84a", size: 6, fnv1a64: 10900469685490858058 }, whole)),
        p if p == JSON_MANIFEST_0 => Some((Manifest { id: "cbf29ce484222325", size: 0, fnv1a64: 14695981039346656037 }, whole)),
        p if p == br#"{"id":"7ea690cc8c2cd8ed","size":129,"fnv1a64":9126140903112366317}"# => {
            Some((Manifest { id: "7ea690cc8c2cd8ed", size: 129, fnv1a64: 9126140903112366317 }, whole))
        }
        p if p == br#"{"id":"7ea690cc8c2cd8ed","size":64,"fnv1a64":0}"# => {
            Some((Manifest { id: "7ea690cc8c2cd8ed", size: 64, fnv1a64: 0 }, whole))
        }
        p if p == br#"{"id":"","size":8,"fnv1a64":9126140903112366317}"# => {
            Some((Manifest { id: "", size: 8, fnv1a64: 9126140903112366317 }, whole))
        }
        p if p == br#"{"id":"bad/id","size":8,"fnv1a64":9126140903112366317}"# => {
            Some((Manifest { id: "bad/id", size: 8, fnv1a64: 9126140903112366317 }, whole))
        }
        p if p == br#"{"id":"7ea690cc8c2cd8ed","size":8,"fnv1a64":9126140903112366317}x"# => {
            Some((Manifest { id: "7ea690cc8c2cd8ed", size: 8, fnv1a64: 9126140903112366317 }, whole - 1))
        }
        _ => None,
    }
}

#[derive(Default)]
struct Backend {
    prepared: Option<u32>,
    writes: Vec<(u32, Vec<u8>)>,
    finished: Option<u32>,
    fail_finish: bool,
}

impl Backend {
    fn apply(&mut self, request: StagingRequest<'_>) -> bool {
        match request {
            StagingRequest::Prepare { size } => {
                self.prepared = Some(size);
                true
            }
            StagingRequest::Write(write) => {
                self.writes.push((write.offset, write.payload.to_vec()));
                if write.fnv1a64.is_some() {
                    if self.fail_finish {
                        return false;
                    }
                    self.finished = Some(write.size);
                }
                true
            }
        }
    }
}

fn apply_handle(service: &mut Service, backend: &mut Backend, handle: Handle<'_>) {
    if let Handle::Request(request) = handle {
        service.complete_request(backend.apply(request));
    }
}

fn manifest<'a>(service: &mut Service, payload: &'a [u8]) -> Handle<'a> {
    let topic = service.manifest_topic();
    service.handle_publish_with_properties(
        topic.as_str(),
        payload,
        &Properties::from_slice(&[]),
        decode(payload),
    )
}

fn chunk<'a>(service: &mut Service, id: &[u8], offset: &str, payload: &'a [u8]) -> Handle<'a> {
    let properties = [
        Property::CorrelationData(id),
        Property::UserProperty("offset", offset),
    ];
    let topic = service.chunk_topic();
    service.handle_publish_with_properties(
        topic.as_str(),
        payload,
        &Properties::from_slice(&properties),
        None,
    )
}

fn drive_manifest(service: &mut Service, backend: &mut Backend, payload: &[u8]) {
    let handle = manifest(service, payload);
    apply_handle(service, backend, handle);
}

fn drive_chunk(service: &mut Service, backend: &mut Backend, id: &[u8], offset: &str, payload: &[u8]) {
    let handle = chunk(service, id, offset, payload);
    apply_handle(service, backend, handle);
}

/// Start whatever is queued, as a step does, with nothing left to acknowledge.
fn drain(service: &mut Service) {
    if let StepPoll::Start(action) = service.step_poll(OpStatus::Complete) {
        let _ = service.action_started(action, None);
    }
    assert_eq!(service.pending(), None);
}

fn service(rx: usize) -> Service {
    let mut service = Service::new(
        "devices/example/staging",
        Config { capacity: 128, max_chunk_size: SLOT, write_size: 4 },
    )
    .unwrap();
    service.set_max_rx_packet_size(rx);
    service
}

/// A service whose transfer of 64 bytes is ready for the chunk at 32.
fn ready_service() -> Service {
    let mut service = service(128);
    let mut backend = Backend::default();
    drive_manifest(&mut service, &mut backend, br#"{"id":"7ea690cc8c2cd8ed","size":64,"fnv1a64":0}"#);
    drive_chunk(&mut service, &mut backend, ID, "0", &[0u8; 32]);
    assert_eq!(service.state(), State::Ready);
    assert_eq!(service.status().next_offset, 32);
    service
}

#[test]
fn connected_startup_queues_subscribe_only_for_idle_service() {
    let mut service = service(128);
    service.begin_startup(ConnectEvent::Connected);
    assert_eq!(service.pending(), Some(Action::Subscribe));
    assert_eq!(service.startup_publish(), None);
}

#[test]
fn connected_startup_defers_status_replay_until_after_subscribe() {
    let mut service = ready_service();
    service.begin_startup(ConnectEvent::Connected);
    assert_eq!(service.pending(), Some(Action::Subscribe));
    assert_eq!(service.startup_publish(), Some(StatusCode::Accepted));
}

#[test]
fn reconnected_startup_replays_current_status_without_subscribe() {
    let mut service = ready_service();
    service.begin_startup(ConnectEvent::Reconnected);
    assert_eq!(service.pending(), Some(Action::Publish(StatusCode::Accepted)));
    assert_eq!(service.startup_publish(), None);
}

#[test]
fn status_reports_ready_transfer_state() {
    let service = ready_service();
    let status = service.status();
    assert_eq!(status.state, State::Ready);
    assert_eq!(status.code, StatusCode::Accepted);
    assert_eq!(status.id, "7ea690cc8c2cd8ed");
    assert_eq!(status.next_offset, 32);
    assert_eq!(status.size, 64);
    assert_eq!(status.mtu, SLOT);
    assert_eq!(status.write_size, 4);
}

#[test]
fn abort_marks_ready_transfer_failed() {
    let mut service = ready_service();
    assert!(service.abort());
    assert_eq!(service.status().state, State::Error);
    assert_eq!(service.status().code, StatusCode::Error);
    assert_eq!(service.pending(), Some(Action::Publish(StatusCode::Error)));
}

#[test]
fn abort_is_noop_without_active_transfer() {
    let mut service = service(128);
    assert!(!service.abort());
    assert_eq!(service.status().state, State::Idle);
}

#[test]
fn abort_is_noop_after_transfer_completes() {
    let mut service = service(128);
    let mut backend = Backend::default();
    drive_manifest(&mut service, &mut backend, JSON_MANIFEST_8);
    drive_chunk(&mut service, &mut backend, ID, "0", &[1, 2, 3, 4]);
    drive_chunk(&mut service, &mut backend, ID, "4", &[5, 6, 7, 8]);
    assert_eq!(service.state(), State::Complete);
    assert!(!service.abort());
    assert_eq!(service.status().state, State::Complete);
}

#[test]
fn manifest_reports_preparing_before_storage_prepare_completes() {
    let mut service = service(128);
    let handle = manifest(&mut service, JSON_MANIFEST_8);
    assert!(matches!(handle, Handle::Request(StagingRequest::Prepare { size: 8 })));
    assert_eq!(service.status().state, State::Preparing);
    assert_eq!(service.pending(), Some(Action::Publish(StatusCode::Accepted)));
}

#[test]
fn manifest_rejects_if_one_aligned_chunk_cannot_fit() {
    let mut service = service(64);
    assert!(matches!(manifest(&mut service, JSON_MANIFEST_8), Handle::Consumed));
    assert_eq!(service.status().state, State::Idle);
    assert_eq!(service.status().code, StatusCode::Idle);
    assert_eq!(service.pending(), Some(Action::Publish(StatusCode::Mtu)));
}

#[test]
fn manifest_accepts_exact_qos1_chunk_packet_budget() {
    let required = required_rx_bytes("devices/example/staging/chunk", ID, SLOT);
    assert!(matches!(
        manifest(&mut service(required), JSON_MANIFEST_8),
        Handle::Request(StagingRequest::Prepare { .. })
    ));

    let mut undersized = service(required - 1);
    assert!(matches!(manifest(&mut undersized, JSON_MANIFEST_8), Handle::Consumed));
    assert_eq!(undersized.pending(), Some(Action::Publish(StatusCode::Mtu)));
}

#[test]
fn manifest_rejects_invalid_json_profiles() {
    for payload in [
        JSON_MANIFEST_0,
        JSON_MANIFEST_MISSING_DIGEST,
        JSON_MANIFEST_UNKNOWN_FIELD,
        br#"{"id":"","size":8,"fnv1a64":9126140903112366317}"#,
        br#"{"id":"bad/id","size":8,"fnv1a64":9126140903112366317}"#,
        br#"{"id":"7ea690cc8c2cd8ed","size":8,"fnv1a64":9126140903112366317}x"#,
    ] {
        let mut service = service(128);
        assert!(matches!(manifest(&mut service, payload), Handle::Consumed));
        assert_eq!(service.status().state, State::Idle);
        assert_eq!(service.pending(), Some(Action::Publish(StatusCode::Error)));
    }
}

#[test]
fn oversized_manifest_is_one_shot_and_next_manifest_can_succeed() {
    let mut service = service(128);
    let mut backend = Backend::default();
    let oversized = br#"{"id":"7ea690cc8c2cd8ed","size":129,"fnv1a64":9126140903112366317}"#;

    assert!(matches!(manifest(&mut service, oversized), Handle::Consumed));
    assert_eq!(service.status().state, State::Idle);
    assert_eq!(service.pending(), Some(Action::Publish(StatusCode::Oversize)));

    drive_manifest(&mut service, &mut backend, JSON_MANIFEST_8);
    assert_eq!(service.status().state, State::Ready);
    assert_eq!(backend.prepared, Some(8));
}

#[test]
fn ordered_chunks_write_immediately_and_finish() {
    let mut service = service(128);
    let mut backend = Backend::default();
    drive_manifest(&mut service, &mut backend, JSON_MANIFEST_8);
    assert_eq!(service.state(), State::Ready);

    drive_chunk(&mut service, &mut backend, ID, "0", &[1, 2, 3, 4]);
    assert_eq!(service.state(), State::Ready);

    drive_chunk(&mut service, &mut backend, ID, "4", &[5, 6, 7, 8]);
    assert_eq!(service.state(), State::Complete);

    assert_eq!(backend.prepared, Some(8));
    assert_eq!(backend.writes, vec![(0, vec![1, 2, 3, 4]), (4, vec![5, 6, 7, 8])]);
    assert_eq!(backend.finished, Some(8));
}

#[test]
fn duplicate_final_chunk_replays_complete_status() {
    let mut service = service(128);
    let mut backend = Backend::default();
    drive_manifest(&mut service, &mut backend, JSON_MANIFEST_8);
    drive_chunk(&mut service, &mut backend, ID, "0", &[1, 2, 3, 4]);
    drive_chunk(&mut service, &mut backend, ID, "4", &[5, 6, 7, 8]);
    drain(&mut service);

    assert!(matches!(chunk(&mut service, ID, "4", &[5, 6, 7, 8]), Handle::Consumed));
    assert_eq!(service.state(), State::Complete);
    assert_eq!(service.pending(), Some(Action::Publish(StatusCode::Complete)));
    assert_eq!(backend.writes.len(), 2);
}

#[test]
fn unrelated_chunks_do_not_disrupt_active_transfer() {
    let mut service = service(128);
    let mut backend = Backend::default();
    drive_manifest(&mut service, &mut backend, JSON_MANIFEST_8);
    drain(&mut service);

    let topic = service.chunk_topic();
    assert!(matches!(
        service.handle_publish_with_properties(
            topic.as_str(),
            &[1, 2, 3, 4],
            &Properties::from_slice(&[]),
            None,
        ),
        Handle::Consumed
    ));
    assert_eq!(service.state(), State::Ready);
    assert_eq!(service.pending(), None);

    assert!(matches!(
        chunk(&mut service, b"another-transfer", "0", &[1, 2, 3, 4]),
        Handle::Consumed
    ));
    assert_eq!(service.state(), State::Ready);
    assert_eq!(service.pending(), None);
}

#[test]
fn future_offset_is_rejected_without_write() {
    let mut service = service(128);
    let mut backend = Backend::default();
    drive_manifest(&mut service, &mut backend, JSON_MANIFEST_8);
    assert!(matches!(chunk(&mut service, ID, "4", &[5, 6, 7, 8]), Handle::Consumed));

    assert!(backend.writes.is_empty());
    assert_eq!(backend.finished, None);
}

#[test]
fn chunks_wait_for_the_pending_storage_write() {
    let mut service = service(128);
    let mut backend = Backend::default();
    drive_manifest(&mut service, &mut backend, JSON_MANIFEST_8);
    drain(&mut service);

    assert!(matches!(
        chunk(&mut service, ID, "0", &[1, 2, 3, 4]),
        Handle::Request(StagingRequest::Write(_))
    ));
    assert!(matches!(chunk(&mut service, ID, "0", &[1, 2, 3, 4]), Handle::Consumed));
    assert!(matches!(chunk(&mut service, ID, "4", &[5, 6, 7, 8]), Handle::Consumed));
    assert_eq!(service.state(), State::Writing);
    assert_eq!(service.pending(), None);

    service.complete_request(true);
    assert_eq!(service.state(), State::Ready);
    assert_eq!(service.status().next_offset, 4);
}

#[test]
fn overlapping_manifest_does_not_disrupt_active_transfer() {
    let mut service = service(128);
    let mut backend = Backend::default();
    drive_manifest(&mut service, &mut backend, JSON_MANIFEST_8);
    drain(&mut service);
    assert!(matches!(manifest(&mut service, JSON_MANIFEST_6), Handle::Consumed));

    assert_eq!(backend.prepared, Some(8));
    assert_eq!(service.state(), State::Ready);
    assert_eq!(service.pending(), None);
    let transfer = service.transfer().unwrap();
    assert_eq!(transfer.size(), 8);
    assert_eq!(transfer.next_offset(), 0);
}

#[test]
fn duplicate_manifest_replays_active_status() {
    let mut service = service(128);
    let mut backend = Backend::default();
    drive_manifest(&mut service, &mut backend, JSON_MANIFEST_8);
    drain(&mut service);

    assert!(matches!(manifest(&mut service, JSON_MANIFEST_8), Handle::Consumed));
    assert_eq!(service.state(), State::Ready);
    assert_eq!(service.pending(), Some(Action::Publish(StatusCode::Accepted)));
    assert_eq!(backend.prepared, Some(8));
}

#[test]
fn final_chunk_may_be_erased_value_padded() {
    let mut service = service(128);
    let mut backend = Backend::default();
    drive_manifest(&mut service, &mut backend, JSON_MANIFEST_6);
    drive_chunk(&mut service, &mut backend, ID_6, "0", &[1, 2, 3, 4]);
    drive_chunk(&mut service, &mut backend, ID_6, "4", &[5, 6, 0xff, 0xff]);
    assert_eq!(service.state(), State::Complete);

    assert_eq!(backend.writes, vec![(0, vec![1, 2, 3, 4]), (4, vec![5, 6, 0xff, 0xff])]);
    assert_eq!(backend.finished, Some(6));
}

#[test]
fn final_chunk_rejects_non_erased_padding() {
    let mut service = service(128);
    let mut backend = Backend::default();
    drive_manifest(&mut service, &mut backend, JSON_MANIFEST_6);
    drive_chunk(&mut service, &mut backend, ID_6, "0", &[1, 2, 3, 4]);
    assert!(matches!(chunk(&mut service, ID_6, "4", &[5, 6, 0, 0]), Handle::Consumed));

    assert_eq!(backend.finished, None);
}

#[test]
fn backend_failure_marks_transfer_error() {
    let mut service = service(128);
    let mut backend = Backend { fail_finish: true, ..Backend::default() };

    drive_manifest(&mut service, &mut backend, JSON_MANIFEST_8);
    drive_chunk(&mut service, &mut backend, ID, "0", &[1, 2, 3, 4]);
    drive_chunk(&mut service, &mut backend, ID, "4", &[5, 6, 7, 8]);
    assert_eq!(service.state(), State::Error);
    assert_eq!(service.pending(), Some(Action::Publish(StatusCode::Storage)));
}

// Further cases.

#[test]
fn config_is_checked_before_topics() {
    let bad = Config { capacity: 128, max_chunk_size: 6, write_size: 4 };
    assert_eq!(Service::new("x", bad).err(), Some(CreateError::InvalidChunkSize));
    let zero = Config { capacity: 128, max_chunk_size: 0, write_size: 4 };
    assert_eq!(Service::new("x", zero).err(), Some(CreateError::InvalidChunkSize));
    let long = "p".repeat(120);
    let good = Config { capacity: 128, max_chunk_size: 8, write_size: 4 };
    assert_eq!(
        Service::new(&long, good).err(),
        Some(CreateError::Topic(ResourceError::BufferTooSmall))
    );
    let fits = "p".repeat(119);
    let service = Service::new(&fits, good).unwrap();
    assert_eq!(service.manifest_topic().as_str(), format!("{}/manifest", fits));
    assert_eq!(service.status_topic().as_str(), format!("{}/status", fits));
}

#[test]
fn step_subscribes_then_releases_held_status() {
    let mut service = ready_service();
    service.begin_startup(ConnectEvent::Connected);
    assert_eq!(service.step_poll(OpStatus::Pending), StepPoll::Start(Action::Subscribe));
    let op = minimq::client::Op::new(minimq::client::OpKind::Subscribe, 1, 1);
    assert_eq!(service.action_started(Action::Subscribe, Some(op)), minimq::staging::Step::Pending);
    assert_eq!(service.inflight_op(), Some(op));
    assert_eq!(service.step_poll(OpStatus::Pending), StepPoll::Pending);
    assert_eq!(
        service.step_poll(OpStatus::Complete),
        StepPoll::Start(Action::Publish(StatusCode::Accepted))
    );
    assert_eq!(service.startup_publish(), None);
    assert_eq!(
        service.action_started(Action::Publish(StatusCode::Accepted), None),
        minimq::staging::Step::Quiescent
    );
    assert_eq!(service.step_poll(OpStatus::Complete), StepPoll::Quiescent);
}

#[test]
fn lost_session_queues_work_again() {
    let mut service = service(128);
    service.begin_startup(ConnectEvent::Connected);
    assert_eq!(service.step_poll(OpStatus::Pending), StepPoll::Start(Action::Subscribe));
    let op = minimq::client::Op::new(minimq::client::OpKind::Subscribe, 1, 1);
    let _ = service.action_started(Action::Subscribe, Some(op));
    assert_eq!(service.step_poll(OpStatus::Invalidated), StepPoll::Disconnected);
    assert_eq!(service.pending(), Some(Action::Subscribe));
    assert_eq!(service.inflight_op(), None);
    service.action_failed(Action::Publish(StatusCode::Idle));
    assert_eq!(service.pending(), Some(Action::Publish(StatusCode::Idle)));
}

#[test]
fn chunk_without_active_transfer_reports_idle() {
    let mut service = service(128);
    assert!(matches!(chunk(&mut service, ID, "0", &[1, 2, 3, 4]), Handle::Consumed));
    assert_eq!(service.pending(), Some(Action::Publish(StatusCode::Idle)));
}

#[test]
fn misaligned_and_oversized_chunks_fail_the_transfer() {
    let mut service = service(128);
    let mut backend = Backend::default();
    drive_manifest(&mut service, &mut backend, JSON_MANIFEST_8);
    assert!(matches!(chunk(&mut service, ID, "0", &[1, 2, 3]), Handle::Consumed));
    assert_eq!(service.state(), State::Error);
    assert_eq!(service.pending(), Some(Action::Publish(StatusCode::Unaligned)));

    let mut other = self::service(128);
    drive_manifest(&mut other, &mut backend, JSON_MANIFEST_8);
    assert!(matches!(chunk(&mut other, ID, "0", &[0u8; 36]), Handle::Consumed));
    assert_eq!(other.state(), State::Error);
    assert_eq!(other.pending(), Some(Action::Publish(StatusCode::Mtu)));
}

#[test]
fn earlier_offset_is_a_duplicate() {
    let mut service = service(128);
    let mut backend = Backend::default();
    drive_manifest(&mut service, &mut backend, JSON_MANIFEST_8);
    drive_chunk(&mut service, &mut backend, ID, "0", &[1, 2, 3, 4]);
    assert!(matches!(chunk(&mut service, ID, "+0", &[1, 2, 3, 4]), Handle::Consumed));
    assert_eq!(service.pending(), Some(Action::Publish(StatusCode::Duplicate)));
    assert_eq!(service.state(), State::Ready);
}

#[test]
fn chunk_with_unreadable_offset_is_ignored() {
    let mut service = service(128);
    let mut backend = Backend::default();
    drive_manifest(&mut service, &mut backend, JSON_MANIFEST_8);
    drain(&mut service);
    assert!(matches!(chunk(&mut service, ID, "zero", &[1, 2, 3, 4]), Handle::Consumed));
    assert_eq!(service.pending(), None);
    assert!(matches!(chunk(&mut service, ID, "4294967296", &[1, 2, 3, 4]), Handle::Consumed));
    assert_eq!(service.pending(), None);
}

#[test]
fn storage_failure_while_preparing_reports_storage() {
    let mut service = service(128);
    let handle = manifest(&mut service, JSON_MANIFEST_8);
    assert!(matches!(handle, Handle::Request(_)));
    service.complete_request(false);
    assert_eq!(service.state(), State::Error);
    assert_eq!(service.pending(), Some(Action::Publish(StatusCode::Storage)));
    assert!(!service.is_complete());
}

#[test]
fn complete_and_drained_service_is_complete() {
    let mut service = service(128);
    let mut backend = Backend::default();
    drive_manifest(&mut service, &mut backend, JSON_MANIFEST_8);
    drive_chunk(&mut service, &mut backend, ID, "0", &[1, 2, 3, 4]);
    drive_chunk(&mut service, &mut backend, ID, "4", &[5, 6, 7, 8]);
    assert!(!service.is_complete());
    drain(&mut service);
    assert!(service.is_complete());
}

#[test]
fn helpers_compute_exact_values() {
    assert_eq!(mqtt_varint_len(0), 1);
    assert_eq!(mqtt_varint_len(127), 1);
    assert_eq!(mqtt_varint_len(128), 2);
    assert_eq!(mqtt_varint_len(16_383), 2);
    assert_eq!(mqtt_varint_len(16_384), 3);
    // 42 property bytes, 2 + 29 + 2 + 1 + 42 + 32 = 108 remaining, 1 + 1 + 108 in all.
    assert_eq!(required_rx_bytes("devices/example/staging/chunk", ID, SLOT), 110);
    assert_eq!(payload_padding(&[1, 2, 3, 4], 2), Some(&[3u8, 4][..]));
    assert_eq!(payload_padding(&[1, 2, 3, 4], 4), None);
    assert!(valid_id("a-b.c_9"));
    assert!(!valid_id(""));
    assert!(!valid_id("a b"));
    assert!(!valid_id(&"a".repeat(49)));
    assert!(valid_id(&"a".repeat(48)));
    assert!(should_log_chunk_progress(0, 100, 4));
    assert!(should_log_chunk_progress(96, 100, 4));
    assert!(!should_log_chunk_progress(4, 100, 4));
    assert!(should_log_chunk_progress(512, 10_000, 4));
    assert_eq!(minimq::staging::offset_text(4_294_967_295), "4294967295");
    assert_eq!(minimq::staging::offset_text(0), "0");
}
