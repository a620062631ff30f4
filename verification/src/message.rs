//! The receiving side: frames come in one by one and are turned into
//! delivered messages, progress reports and errors, reassembling the
//! messages that arrive in several frames.

use crate::compression::{snappy_decompress, snappy_unframed};
use crate::ids::{uuid_from_slice, uuid_value};
use crate::protos::message::{
    parse_begin, parse_end, parse_header, parse_oneshot, parse_process, Begin, Compression, End,
    Header, Oneshot, Process, Type,
};
use std::collections::HashMap;
use vstd::prelude::*;

verus! {

broadcast use vstd::std_specs::hash::group_hash_axioms;

/// A message that arrives in several frames, while its chunks come in.
pub struct MessageContext {
    pub compression: Compression,
    pub total_length: u64,
    pub buffer: Vec<u8>,
    pub canceled: bool,
}

pub ghost struct MessageContextView {
    pub compression: Compression,
    pub total_length: u64,
    pub buffer: Seq<u8>,
    pub canceled: bool,
}

impl View for MessageContext {
    type V = MessageContextView;

    open spec fn view(&self) -> MessageContextView {
        MessageContextView {
            compression: self.compression,
            total_length: self.total_length,
            buffer: self.buffer@,
            canceled: self.canceled,
        }
    }
}

/// How far a multi-frame message has come.
#[derive(Clone, Copy, Debug)]
pub struct ProgressContext {
    pub method: Type,
    pub uuid: u128,
    pub total_length: u64,
    pub current: u64,
}

/// The progress report with the given parts.
pub open spec fn progress(method: Type, uuid: u128, total_length: u64, current: u64) -> ProgressContext {
    ProgressContext { method, uuid, total_length, current }
}

impl ProgressContext {
    pub fn new(method: Type, uuid: u128, total_length: u64, current: u64) -> (r: ProgressContext)
        ensures
            r == progress(method, uuid, total_length, current),
    {
        ProgressContext { method, uuid, total_length, current }
    }

    /// The identifier of the message this report is about.
    pub fn uuid(&self) -> (r: u128)
        ensures
            r == self.uuid,
    {
        self.uuid
    }
}

/// Why an incoming frame could not be handled.
#[derive(Clone, Copy, PartialEq, Eq, Structural, Debug)]
pub enum DispatchError {
    /// The frame's header could not be read.
    MalformedHeader,
    /// The frame's identifier is not sixteen bytes long.
    InvalidUuid,
    /// A completed message's compressed payload could not be decompressed.
    Decompression,
}

/// What handling a frame gives rise to.
pub enum Event {
    /// A complete message, with its identifier.
    Message(u128, Vec<u8>),
    Progress(ProgressContext),
    Error(DispatchError),
}

pub ghost enum EventView {
    Message(u128, Seq<u8>),
    Progress(ProgressContext),
    Error(DispatchError),
}

impl View for Event {
    type V = EventView;

    open spec fn view(&self) -> EventView {
        match self {
            Event::Message(u, d) => EventView::Message(*u, d@),
            Event::Progress(p) => EventView::Progress(*p),
            Event::Error(e) => EventView::Error(*e),
        }
    }
}

/// The events of a vector, each by its view.
pub open spec fn events_view(es: Seq<Event>) -> Seq<EventView> {
    es.map_values(|e: Event| e@)
}

/// The messages that are in reassembly, by identifier.
pub struct MessageContexts {
    contexts: HashMap<u128, MessageContext>,
}

impl View for MessageContexts {
    type V = Map<u128, MessageContextView>;

    closed spec fn view(&self) -> Map<u128, MessageContextView> {
        self.contexts@.map_values(|c: MessageContext| c@)
    }
}

/// The context that a begin frame opens.
pub open spec fn fresh_context(compression: Compression, total_length: u64) -> MessageContextView {
    MessageContextView { compression, total_length, buffer: seq![], canceled: false }
}

/// The state after a frame and the events it gives rise to, in order.
///
/// - A frame whose header cannot be read, or whose identifier is not sixteen
///   bytes, is reported as an error.
/// - A single-frame message is delivered.
/// - A begin frame opens a context for its identifier, replacing any
///   context that was open; only a replacement is reported as progress.
/// - A chunk frame appends its bytes to the open context and reports the
///   length reached; without an open context it is ignored.
/// - An end frame closes the context; if the payload was snappy-compressed
///   it is decompressed, reported as complete and delivered, or reported as
///   an error where it does not decompress.
/// - A frame whose body cannot be read as its type says is ignored.
pub open spec fn dispatch_spec(ctx: Map<u128, MessageContextView>, data: Seq<u8>) -> (
    Map<u128, MessageContextView>,
    Seq<EventView>,
) {
    match parse_header(data) {
        None => (ctx, seq![EventView::Error(DispatchError::MalformedHeader)]),
        Some(h) => if h.uuid.len() != 16 {
            (ctx, seq![EventView::Error(DispatchError::InvalidUuid)])
        } else {
            match h.field_type {
                Type::ONESHOT => match parse_oneshot(data) {
                    Some(o) => (ctx, seq![EventView::Message(uuid_value(h.uuid), o.message)]),
                    None => (ctx, seq![]),
                },
                Type::BEGIN => match parse_begin(data) {
                    Some(b) => if b.uuid.len() == 16 {
                        let u = uuid_value(b.uuid);
                        (
                            ctx.insert(u, fresh_context(b.compression, b.length)),
                            if ctx.contains_key(u) {
                                seq![EventView::Progress(progress(Type::BEGIN, u, b.length, 0))]
                            } else {
                                seq![]
                            },
                        )
                    } else {
                        (ctx, seq![])
                    },
                    None => (ctx, seq![]),
                },
                Type::PROCESS => match parse_process(data) {
                    Some(p) => if p.uuid.len() == 16 && ctx.contains_key(uuid_value(p.uuid)) {
                        let u = uuid_value(p.uuid);
                        let c = ctx[u];
                        let buffer = c.buffer + p.message;
                        (
                            ctx.insert(u, MessageContextView { buffer, ..c }),
                            seq![
                                EventView::Progress(
                                    progress(Type::PROCESS, u, c.total_length, buffer.len() as u64),
                                ),
                            ],
                        )
                    } else {
                        (ctx, seq![])
                    },
                    None => (ctx, seq![]),
                },
                Type::END => match parse_end(data) {
                    Some(e) => if e.uuid.len() == 16 && ctx.contains_key(uuid_value(e.uuid)) {
                        let u = uuid_value(e.uuid);
                        let c = ctx[u];
                        (
                            ctx.remove(u),
                            if c.compression == Compression::SNAPPY {
                                match snappy_unframed(c.buffer) {
                                    Some(d) => seq![
                                        EventView::Progress(
                                            progress(Type::END, u, c.total_length, c.total_length),
                                        ),
                                        EventView::Message(u, d),
                                    ],
                                    None => seq![EventView::Error(DispatchError::Decompression)],
                                }
                            } else {
                                seq![]
                            },
                        )
                    } else {
                        (ctx, seq![])
                    },
                    None => (ctx, seq![]),
                },
            }
        },
    }
}

/// The identifier that a frame's header names, where it names one.
pub open spec fn frame_uuid(data: Seq<u8>) -> Option<u128> {
    match parse_header(data) {
        Some(h) => if h.uuid.len() == 16 {
            Some(uuid_value(h.uuid))
        } else {
            None
        },
        None => None,
    }
}

/// A frame changes the reassembly of the message its header names, and of
/// no other: frames of different messages may come interleaved.
pub proof fn law_frame_touches_only_its_message(ctx: Map<u128, MessageContextView>, data: Seq<u8>)
    ensures
        match frame_uuid(data) {
            Some(u) => dispatch_spec(ctx, data).0.remove(u) == ctx.remove(u),
            None => dispatch_spec(ctx, data).0 == ctx,
        },
{
    match frame_uuid(data) {
        Some(u) => {
            let r = dispatch_spec(ctx, data).0;
            assert(r.remove(u) =~= ctx.remove(u));
        },
        None => {},
    }
}

impl MessageContexts {
    /// No message in reassembly.
    pub fn new() -> (r: MessageContexts)
        ensures
            r@ == Map::<u128, MessageContextView>::empty(),
    {
        let r = MessageContexts { contexts: HashMap::new() };
        assert(r@ =~= Map::<u128, MessageContextView>::empty());
        r
    }

    /// The number of messages in reassembly.
    pub fn len(&self) -> (r: usize)
        ensures
            r == self@.len(),
    {
        assert(self.contexts@.dom() =~= self@.dom());
        self.contexts.len()
    }

    /// The context of the message with the given identifier, if it is in
    /// reassembly.
    pub fn get(&self, uuid: u128) -> (r: Option<&MessageContext>)
        ensures
            match r {
                Some(c) => self@.contains_key(uuid) && self@[uuid] == c@,
                None => !self@.contains_key(uuid),
            },
    {
        self.contexts.get(&uuid)
    }
}

/// Handles one incoming frame: updates the messages in reassembly and returns
/// what the frame gives rise to, in the order in which it happens.
pub fn message_dispatch(contexts: &mut MessageContexts, data: &[u8]) -> (r: Vec<Event>)
    ensures
        (final(contexts)@, events_view(r@)) == dispatch_spec(old(contexts)@, data@),
{
    let ghost ctx0 = contexts@;
    let mut events: Vec<Event> = Vec::new();
    let header = match Header::parse_from_bytes(data) {
        Some(h) => h,
        None => {
            events.push(Event::Error(DispatchError::MalformedHeader));
            assert(events_view(events@) =~= seq![EventView::Error(DispatchError::MalformedHeader)]);
            return events;
        },
    };
    let uuid = match uuid_from_slice(header.uuid.as_slice()) {
        Some(u) => u,
        None => {
            events.push(Event::Error(DispatchError::InvalidUuid));
            assert(events_view(events@) =~= seq![EventView::Error(DispatchError::InvalidUuid)]);
            return events;
        },
    };
    match header.field_type {
        Type::ONESHOT => {
            if let Some(oneshot) = Oneshot::parse_from_bytes(data) {
                events.push(Event::Message(uuid, oneshot.message));
            }
        },
        Type::BEGIN => {
            if let Some(begin) = Begin::parse_from_bytes(data) {
                if let Some(u) = uuid_from_slice(begin.uuid.as_slice()) {
                    let length = begin.length;
                    let context = MessageContext {
                        compression: begin.compression,
                        total_length: length,
                        buffer: Vec::new(),
                        canceled: false,
                    };
                    let replaced = contexts.contexts.insert(u, context);
                    assert(contexts@ =~= ctx0.insert(u, fresh_context(begin.compression, length)));
                    if replaced.is_some() {
                        events.push(Event::Progress(ProgressContext::new(Type::BEGIN, u, length, 0)));
                    }
                }
            }
        },
        Type::PROCESS => {
            if let Some(process) = Process::parse_from_bytes(data) {
                if let Some(u) = uuid_from_slice(process.uuid.as_slice()) {
                    if let Some(mut context) = contexts.contexts.remove(&u) {
                        let ghost c = context@;
                        let mut chunk = process.message;
                        context.buffer.append(&mut chunk);
                        let total_length = context.total_length;
                        let current = context.buffer.len() as u64;
                        let ghost c2 = context@;
                        contexts.contexts.insert(u, context);
                        assert(c2 == MessageContextView { buffer: c.buffer + process.message@, ..c });
                        assert(contexts@ =~= ctx0.insert(u, c2));
                        events.push(
                            Event::Progress(
                                ProgressContext::new(Type::PROCESS, u, total_length, current),
                            ),
                        );
                    }
                }
            }
        },
        Type::END => {
            if let Some(end) = End::parse_from_bytes(data) {
                if let Some(u) = uuid_from_slice(end.uuid.as_slice()) {
                    if let Some(context) = contexts.contexts.remove(&u) {
                        assert(contexts@ =~= ctx0.remove(u));
                        if context.compression == Compression::SNAPPY {
                            match snappy_decompress(context.buffer.as_slice()) {
                                Some(decompressed) => {
                                    let total = context.total_length;
                                    events.push(
                                        Event::Progress(
                                            ProgressContext::new(Type::END, u, total, total),
                                        ),
                                    );
                                    events.push(Event::Message(u, decompressed));
                                },
                                None => {
                                    events.push(Event::Error(DispatchError::Decompression));
                                },
                            }
                        }
                    }
                }
            }
        },
    }
    proof {
        let ev = events_view(events@);
        let spec = dispatch_spec(ctx0, data@);
        assert(ev =~= spec.1);
        assert(contexts@ =~= spec.0);
    }
    events
}

} // verus!
