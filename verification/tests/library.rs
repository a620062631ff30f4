use wsmq::client::{request_port, uses_tls};
use wsmq::error::Error;
use wsmq::message::{message_dispatch, DispatchError, Event, MessageContexts, ProgressContext};
use wsmq::protos::message::{Begin, Compression, End, Header, Oneshot, Process, Type};
use wsmq::protos::status::{file_descriptor_proto, parse_descriptor_proto, Status};
use wsmq::protos::wire::{read_fields, read_varint, write_bytes_field, write_varint, WireValue};
use wsmq::response::{PollResult, Response, ResponseFuture};
use wsmq::shared::SharedData;

const UUID: u128 = 0x936DA01F9ABD4D9D80C702AF85C822A8;

fn uuid_be() -> Vec<u8> {
    UUID.to_be_bytes().to_vec()
}

fn run(contexts: &mut MessageContexts, frames: &[Vec<u8>]) -> Vec<Event> {
    let mut all = Vec::new();
    for f in frames {
        all.extend(message_dispatch(contexts, f));
    }
    all
}

fn messages(events: &[Event]) -> Vec<(u128, Vec<u8>)> {
    events
        .iter()
        .filter_map(|e| match e {
            Event::Message(u, d) => Some((*u, d.clone())),
            _ => None,
        })
        .collect()
}

fn progress(events: &[Event]) -> Vec<ProgressContext> {
    events
        .iter()
        .filter_map(|e| match e {
            Event::Progress(p) => Some(*p),
            _ => None,
        })
        .collect()
}

// ----------------------------------------------------------------------------
// Status codes
// ----------------------------------------------------------------------------

#[test]
fn status_values_and_numbers() {
    assert_eq!(Status::OK.value(), 200);
    assert_eq!(Status::NOT_FOUNT.value(), 404);
    assert_eq!(Status::UNAUTHORIZED.value(), 406);
    assert_eq!(Status::INVALID_TOKEN.value(), 497);
    assert_eq!(Status::ACCESS_TOKEN_EXPIRED.value(), 498);
    assert_eq!(Status::INTERNAL_ERROR.value(), 500);
    for s in Status::values() {
        assert_eq!(Status::from_i32(s.value()), Some(s));
    }
    assert_eq!(Status::values().len(), 6);
    assert_eq!(Status::from_i32(201), None);
    assert_eq!(Status::from_i32(0), None);
    assert_eq!(Status::default(), Status::OK);
}

#[test]
fn status_descriptor_parses() {
    let d = file_descriptor_proto().expect("descriptor");
    assert_eq!(d.get_name(), "status.proto");
    assert_eq!(d.get_enum_type()[0].get_name(), "Status");
    assert_eq!(d.get_enum_type()[0].get_value().len(), 6);
    assert_eq!(parse_descriptor_proto(), Some(d.clone()));
    assert_eq!(file_descriptor_proto(), Some(d));
}

// ----------------------------------------------------------------------------
// Errors
// ----------------------------------------------------------------------------

#[test]
fn error_texts_and_causes() {
    assert_eq!(Error::ConnectionError().message(), "Connection error");
    assert_eq!(Error::InvalidParameters().message(), "Invalid parameters");
    assert_eq!(Error::NotFound().message(), "Not found");
    assert_eq!(Error::MutexError().message(), "Mutex error");
    let e = Error::InternalError("broken pipe".to_string());
    assert_eq!(e.message(), "Internal error");
    assert_eq!(e.cause(), "broken pipe");
    assert_eq!(Error::ConnectionError().cause(), "Connection error");
}

// ----------------------------------------------------------------------------
// Wire format
// ----------------------------------------------------------------------------

#[test]
fn varint_encoding() {
    let mut out = Vec::new();
    write_varint(&mut out, 300);
    assert_eq!(out, vec![0xac, 0x02]);
    let mut out = Vec::new();
    write_varint(&mut out, 0);
    assert_eq!(out, vec![0]);
    let mut out = Vec::new();
    write_varint(&mut out, u64::MAX);
    assert_eq!(out.len(), 10);
    assert_eq!(read_varint(&out, 0), Some((u64::MAX, 10)));
    assert_eq!(read_varint(&[0xac, 0x02, 0x07], 0), Some((300, 2)));
    assert_eq!(read_varint(&[0xac, 0x02, 0x07], 2), Some((7, 3)));
    // truncated and too long
    assert_eq!(read_varint(&[0x80], 0), None);
    assert_eq!(read_varint(&[0x80; 11], 0), None);
    // too large: the bits beyond the 64th are dropped
    assert_eq!(
        read_varint(&[0xff, 0xff, 0xff, 0xff, 0xff, 0xff, 0xff, 0xff, 0xff, 0x02], 0),
        Some((0x7fff_ffff_ffff_ffff, 10))
    );
}

#[test]
fn fields_read_back() {
    let mut out = Vec::new();
    write_bytes_field(&mut out, 2, &[1, 2, 3]);
    assert_eq!(out, vec![0x12, 3, 1, 2, 3]);
    let fields = read_fields(&out).expect("fields");
    assert_eq!(fields.len(), 1);
    assert_eq!(fields[0].number, 2);
    match &fields[0].value {
        WireValue::Bytes(b) => assert_eq!(b, &vec![1, 2, 3]),
        _ => panic!("wrong wire type"),
    }
    // a length that runs past the end
    assert!(read_fields(&[0x12, 5, 1]).is_none());
    // field number zero
    assert!(read_fields(&[0x02, 0]).is_none());
    // fixed-width fields are skipped over
    let fixed = read_fields(&[0x09, 1, 2, 3, 4, 5, 6, 7, 8, 0x15, 1, 2, 3, 4]).expect("fixed");
    assert_eq!(fixed.len(), 2);
}

#[test]
fn frames_encode_as_protobuf() {
    let o = Oneshot { field_type: Type::ONESHOT, uuid: vec![0xaa; 16], message: vec![7, 8] };
    let bytes = o.write_to_bytes();
    let mut expected = vec![0x12, 16];
    expected.extend(vec![0xaa; 16]);
    expected.extend(vec![0x1a, 2, 7, 8]);
    assert_eq!(bytes, expected);
    let back = Oneshot::parse_from_bytes(&bytes).expect("oneshot");
    assert_eq!(back.field_type, Type::ONESHOT);
    assert_eq!(back.uuid, vec![0xaa; 16]);
    assert_eq!(back.message, vec![7, 8]);

    let b = Begin {
        field_type: Type::BEGIN,
        uuid: vec![1; 16],
        compression: Compression::SNAPPY,
        length: 300,
    };
    let bytes = b.write_to_bytes();
    let back = Begin::parse_from_bytes(&bytes).expect("begin");
    assert_eq!(back.field_type, Type::BEGIN);
    assert_eq!(back.compression, Compression::SNAPPY);
    assert_eq!(back.length, 300);
    let h = Header::parse_from_bytes(&bytes).expect("header");
    assert_eq!(h.field_type, Type::BEGIN);
    assert_eq!(h.uuid, vec![1; 16]);

    let p = Process { field_type: Type::PROCESS, uuid: vec![2; 16], seq: 5, message: vec![9] };
    let back = Process::parse_from_bytes(&p.write_to_bytes()).expect("process");
    assert_eq!(back.seq, 5);
    assert_eq!(back.message, vec![9]);

    let e = End { field_type: Type::END, uuid: vec![3; 16] };
    let back = End::parse_from_bytes(&e.write_to_bytes()).expect("end");
    assert_eq!(back.field_type, Type::END);
    assert_eq!(back.uuid, vec![3; 16]);
}

#[test]
fn wrong_wire_type_makes_frame_unreadable() {
    // field 2 (uuid) given as a varint
    assert!(Header::parse_from_bytes(&[0x10, 1]).is_none());
    // an unknown type value is passed over
    let h = Header::parse_from_bytes(&[0x08, 1, 0x08, 9]).expect("header");
    assert_eq!(h.field_type, Type::BEGIN);
}

#[test]
fn varints_are_read_as_protobuf_reads_them() {
    // a ten-byte varint keeps its low 64 bits
    let mut b = vec![0x08, 0x01, 0x20];
    b.extend([0xff; 9]);
    b.push(0x7f);
    let g = Begin::parse_from_bytes(&b).expect("begin");
    assert_eq!(g.length, u64::MAX);
    // an eleven-byte varint is refused
    let mut b = vec![0x08, 0x01, 0x20];
    b.extend([0xff; 10]);
    b.push(0x01);
    assert!(Begin::parse_from_bytes(&b).is_none());
    // a tag keeps its low 32 bits: 8 + 2^32 is field 1 as a varint
    let h = Header::parse_from_bytes(&[0x88, 0x80, 0x80, 0x80, 0x10, 0x01]).expect("header");
    assert_eq!(h.field_type, Type::BEGIN);
    // an enumeration value keeps its low 32 bits: 2^32 + 2 is PROCESS
    let h = Header::parse_from_bytes(&[0x08, 0x82, 0x80, 0x80, 0x80, 0x10]).expect("header");
    assert_eq!(h.field_type, Type::PROCESS);
    // a length keeps its low 32 bits: 2^32 + 16 is 16
    let mut b = vec![0x12, 0x90, 0x80, 0x80, 0x80, 0x10];
    b.extend(uuid_be());
    let h = Header::parse_from_bytes(&b).expect("header");
    assert_eq!(h.uuid, uuid_be());
}

#[test]
fn unknown_group_fields_are_skipped() {
    // group 5 holding a varint field, then type BEGIN
    let h = Header::parse_from_bytes(&[0x2b, 0x08, 0x01, 0x2c, 0x08, 0x01]).expect("header");
    assert_eq!(h.field_type, Type::BEGIN);
    // an end-group tag with no group open
    assert!(Header::parse_from_bytes(&[0x2c]).is_none());
    // a group where the known field 1 is expected
    assert!(Header::parse_from_bytes(&[0x0b, 0x0c]).is_none());
}

// ----------------------------------------------------------------------------
// Sending and receiving
// ----------------------------------------------------------------------------

#[test]
fn small_message_goes_in_one_frame() {
    let shared: SharedData<()> = SharedData::new(16);
    let frames = shared.send(UUID, vec![1, 2, 3, 4, 5]).expect("send");
    assert_eq!(frames.len(), 1);
    let o = Oneshot::parse_from_bytes(&frames[0]).expect("oneshot");
    assert_eq!(o.uuid, uuid_be());
    assert_eq!(o.message, vec![1, 2, 3, 4, 5]);

    let mut contexts = MessageContexts::new();
    let events = run(&mut contexts, &frames);
    assert_eq!(events.len(), 1);
    assert_eq!(messages(&events), vec![(UUID, vec![1, 2, 3, 4, 5])]);
    assert_eq!(contexts.len(), 0);
}

#[test]
fn large_message_goes_compressed_in_chunks() {
    let data: Vec<u8> = (0..1000u32).map(|i| (i % 251) as u8).collect();
    let shared: SharedData<()> = SharedData::new(7);
    let frames = shared.send(UUID, data.clone()).expect("send");
    let begin = Begin::parse_from_bytes(&frames[0]).expect("begin");
    assert_eq!(begin.field_type, Type::BEGIN);
    assert_eq!(begin.compression, Compression::SNAPPY);
    let compressed_len = begin.length as usize;
    // the payload is compressed, not the message itself
    assert_ne!(compressed_len, data.len());
    assert_eq!(frames.len(), 2 + (compressed_len + 6) / 7);
    for (i, f) in frames[1..frames.len() - 1].iter().enumerate() {
        let p = Process::parse_from_bytes(f).expect("process");
        assert_eq!(p.seq, i as u64);
        assert!(p.message.len() <= 7 && !p.message.is_empty());
        assert_eq!(p.uuid, uuid_be());
    }
    let end = End::parse_from_bytes(frames.last().unwrap()).expect("end");
    assert_eq!(end.field_type, Type::END);

    let mut contexts = MessageContexts::new();
    let events = run(&mut contexts, &frames);
    assert_eq!(messages(&events), vec![(UUID, data)]);
    let reports = progress(&events);
    let last = reports.last().unwrap();
    assert_eq!(last.method, Type::END);
    assert_eq!(last.uuid(), UUID);
    assert_eq!(last.total_length, compressed_len as u64);
    assert_eq!(last.current, compressed_len as u64);
    let chunk_reports: Vec<&ProgressContext> =
        reports.iter().filter(|p| p.method == Type::PROCESS).collect();
    assert_eq!(chunk_reports.len(), frames.len() - 2);
    assert_eq!(chunk_reports[0].current, 7);
    assert_eq!(contexts.len(), 0);
}

#[test]
fn bandwidth_boundary() {
    let shared: SharedData<()> = SharedData::new(4);
    assert_eq!(shared.send(UUID, vec![1, 2, 3, 4]).unwrap().len(), 1);
    assert!(shared.send(UUID, vec![1, 2, 3, 4, 5]).unwrap().len() >= 3);
    let empty: SharedData<()> = SharedData::new(0);
    assert_eq!(empty.send(UUID, vec![]).unwrap().len(), 1);
}

#[test]
fn dispatch_reports_errors() {
    let mut contexts = MessageContexts::new();
    // not a sequence of fields
    let events = message_dispatch(&mut contexts, &[0xff]);
    assert!(matches!(events[..], [Event::Error(DispatchError::MalformedHeader)]));
    // an identifier of the wrong length
    let o = Oneshot { field_type: Type::ONESHOT, uuid: vec![1, 2, 3], message: vec![1] };
    let events = message_dispatch(&mut contexts, &o.write_to_bytes());
    assert!(matches!(events[..], [Event::Error(DispatchError::InvalidUuid)]));
    // a payload that does not decompress
    let b = Begin {
        field_type: Type::BEGIN,
        uuid: uuid_be(),
        compression: Compression::SNAPPY,
        length: 3,
    };
    let p = Process { field_type: Type::PROCESS, uuid: uuid_be(), seq: 0, message: vec![1, 2, 3] };
    let e = End { field_type: Type::END, uuid: uuid_be() };
    let events = run(&mut contexts, &[b.write_to_bytes(), p.write_to_bytes(), e.write_to_bytes()]);
    assert!(matches!(events.last(), Some(Event::Error(DispatchError::Decompression))));
    assert_eq!(contexts.len(), 0);
}

#[test]
fn dispatch_begin_twice_reports_restart() {
    let mut contexts = MessageContexts::new();
    let b = Begin {
        field_type: Type::BEGIN,
        uuid: uuid_be(),
        compression: Compression::SNAPPY,
        length: 10,
    };
    assert!(message_dispatch(&mut contexts, &b.write_to_bytes()).is_empty());
    let events = message_dispatch(&mut contexts, &b.write_to_bytes());
    let reports = progress(&events);
    assert_eq!(reports.len(), 1);
    assert_eq!(reports[0].method, Type::BEGIN);
    assert_eq!(reports[0].current, 0);
    assert_eq!(contexts.len(), 1);
    assert_eq!(contexts.get(UUID).unwrap().total_length, 10);
}

#[test]
fn chunks_and_ends_without_context_are_ignored() {
    let mut contexts = MessageContexts::new();
    let p = Process { field_type: Type::PROCESS, uuid: uuid_be(), seq: 0, message: vec![1] };
    assert!(message_dispatch(&mut contexts, &p.write_to_bytes()).is_empty());
    let e = End { field_type: Type::END, uuid: uuid_be() };
    assert!(message_dispatch(&mut contexts, &e.write_to_bytes()).is_empty());
}

#[test]
fn uncompressed_multi_frame_message_is_not_delivered() {
    let mut contexts = MessageContexts::new();
    let b = Begin { field_type: Type::BEGIN, uuid: uuid_be(), compression: Compression::NONE, length: 1 };
    let p = Process { field_type: Type::PROCESS, uuid: uuid_be(), seq: 0, message: vec![1] };
    let e = End { field_type: Type::END, uuid: uuid_be() };
    let events = run(&mut contexts, &[b.write_to_bytes(), p.write_to_bytes(), e.write_to_bytes()]);
    assert!(messages(&events).is_empty());
    assert_eq!(contexts.len(), 0);
}

// ----------------------------------------------------------------------------
// Awaited responses
// ----------------------------------------------------------------------------

#[test]
fn reply_reaches_waiting_task() {
    let mut shared: SharedData<u32> = SharedData::new(16);
    let uuid = shared.generate_uuid();
    assert_ne!(uuid, 0);
    let future = ResponseFuture::new(uuid);
    assert!(matches!(future.poll(&mut shared, 1), PollResult::Pending));
    assert!(matches!(future.poll(&mut shared, 2), PollResult::Pending));
    assert_eq!(shared.complete_response(uuid, vec![4, 2]), Some(1));
    match future.poll(&mut shared, 3) {
        PollResult::Ready(Ok(resp)) => {
            assert_eq!(resp.uuid(), uuid);
            assert_eq!(resp.to_vec(), &vec![4, 2]);
        },
        _ => panic!("reply expected"),
    }
    future.release(&mut shared);
    assert!(matches!(future.poll(&mut shared, 4), PollResult::Ready(Err(Error::NotFound()))));
}

#[test]
fn reply_before_first_poll_is_kept() {
    let mut shared: SharedData<u32> = SharedData::new(16);
    let uuid = shared.generate_uuid();
    // nobody waits yet, so nobody is woken
    assert_eq!(shared.complete_response(uuid, vec![1]), None);
    let future = ResponseFuture::new(uuid);
    match future.poll(&mut shared, 1) {
        PollResult::Ready(Ok(resp)) => {
            assert_eq!(resp.uuid(), uuid);
            assert_eq!(resp.to_vec(), &vec![1]);
        },
        _ => panic!("reply expected"),
    }
}

#[test]
fn reply_to_unknown_uuid_is_dropped() {
    let mut shared: SharedData<u32> = SharedData::new(16);
    assert_eq!(shared.complete_response(UUID, vec![1]), None);
    let future = ResponseFuture::new(UUID);
    assert!(matches!(future.poll(&mut shared, 1), PollResult::Ready(Err(Error::NotFound()))));
}

#[test]
fn generated_uuids_are_distinct() {
    let mut shared: SharedData<()> = SharedData::new(16);
    let a = shared.generate_uuid();
    let b = shared.generate_uuid();
    assert_ne!(a, b);
    assert_ne!(a, 0);
    assert_ne!(b, 0);
    for u in [a, b] {
        assert_eq!((u >> 76) & 0xf, 4);
        assert_eq!((u >> 62) & 0x3, 2);
    }
    let waiting = shared.clear();
    assert_eq!(waiting.len(), 2);
    let future = ResponseFuture::new(a);
    assert!(matches!(future.poll(&mut shared, ()), PollResult::Ready(Err(Error::NotFound()))));
}

#[test]
fn requests_go_under_fresh_identifiers() {
    let mut shared: SharedData<u32> = SharedData::new(16);
    let (a, fa) = shared.send_request(vec![1, 2, 3]);
    let (b, fb) = shared.send_request(vec![4]);
    assert_ne!(a, b);
    for (u, f, m) in [(a, fa, vec![1, 2, 3]), (b, fb, vec![4])] {
        assert_eq!((u >> 76) & 0xf, 4);
        let frames = f.expect("frames");
        assert_eq!(frames.len(), 1);
        let o = Oneshot::parse_from_bytes(&frames[0]).expect("oneshot");
        assert_eq!(o.uuid, u.to_be_bytes().to_vec());
        assert_eq!(o.message, m);
        let future = ResponseFuture::new(u);
        assert!(matches!(future.poll(&mut shared, 0), PollResult::Pending));
    }
}

#[test]
fn reply_is_sent_under_the_same_uuid() {
    let mut shared: SharedData<()> = SharedData::new(16);
    let response = Response::new(UUID, vec![1]);
    let frames = response.reply(&mut shared, vec![5, 6]).expect("reply");
    let o = Oneshot::parse_from_bytes(&frames[0]).expect("oneshot");
    assert_eq!(o.uuid, uuid_be());
    assert_eq!(o.message, vec![5, 6]);
    let future = ResponseFuture::new(UUID);
    assert!(matches!(future.poll(&mut shared, ()), PollResult::Pending));
}

// ----------------------------------------------------------------------------
// Connecting
// ----------------------------------------------------------------------------

#[test]
fn ports_by_scheme() {
    assert_eq!(request_port(Some(65000), Some("ws")), Some(65000));
    assert_eq!(request_port(None, Some("wss")), Some(443));
    assert_eq!(request_port(None, Some("ws")), Some(80));
    assert_eq!(request_port(None, Some("http")), None);
    assert_eq!(request_port(None, None), None);
    assert!(uses_tls(Some("wss")));
    assert!(!uses_tls(Some("ws")));
    assert!(!uses_tls(None));
}

#[test]
fn interleaved_messages_are_each_delivered() {
    let a: Vec<u8> = (0..300u32).map(|i| (i * 7 % 256) as u8).collect();
    let b: Vec<u8> = (0..200u32).map(|i| (i * 13 % 256) as u8).collect();
    let ua: u128 = 1;
    let ub: u128 = u128::MAX;
    let shared: SharedData<()> = SharedData::new(1);
    let fa = shared.send(ua, a.clone()).expect("send a");
    let fb = shared.send(ub, b.clone()).expect("send b");
    let mut interleaved = Vec::new();
    let mut ia = fa.into_iter();
    let mut ib = fb.into_iter();
    loop {
        let x = ia.next();
        let y = ib.next();
        if x.is_none() && y.is_none() {
            break;
        }
        interleaved.extend(x);
        interleaved.extend(y);
    }
    let mut contexts = MessageContexts::new();
    let events = run(&mut contexts, &interleaved);
    let mut got = messages(&events);
    got.sort();
    assert_eq!(got, vec![(ua, a), (ub, b)]);
    assert_eq!(contexts.len(), 0);
}

#[test]
fn bandwidth_of_one_byte() {
    let data = vec![42u8; 64];
    let shared: SharedData<()> = SharedData::new(1);
    let frames = shared.send(UUID, data.clone()).expect("send");
    for f in &frames[1..frames.len() - 1] {
        assert_eq!(Process::parse_from_bytes(f).unwrap().message.len(), 1);
    }
    let mut contexts = MessageContexts::new();
    assert_eq!(messages(&run(&mut contexts, &frames)), vec![(UUID, data)]);
}
