//! What the receiving side makes of the frames that the sending side
//! produces: every message sent is delivered whole, once, under the
//! identifier it was sent with, and nothing of it stays in reassembly.

use crate::compression::{snappy_framed, snappy_unframed, starts_with_stream_identifier};
use crate::error::Error;
use crate::ids::{lemma_uuid_roundtrip, uuid_bytes};
use crate::message::{dispatch_spec, fresh_context, progress, EventView, MessageContextView};
use crate::protos::message::{
    lemma_begin_roundtrip, lemma_end_roundtrip, lemma_oneshot_roundtrip, lemma_process_roundtrip,
    BeginView, Compression, EndView, OneshotView, ProcessView, Type,
};
use crate::shared::{
    begin_frame, chunk_frames, end_frame, frames_view, large_frames, oneshot_frame, process_frame,
    send_outcome,
};
use vstd::prelude::*;

verus! {

/// The state after a sequence of frames and the events they give rise to,
/// in order.
pub open spec fn dispatch_all(ctx: Map<u128, MessageContextView>, frames: Seq<Seq<u8>>) -> (
    Map<u128, MessageContextView>,
    Seq<EventView>,
)
    decreases frames.len(),
{
    if frames.len() == 0 {
        (ctx, seq![])
    } else {
        let first = dispatch_spec(ctx, frames[0]);
        let rest = dispatch_all(first.0, frames.drop_first());
        (rest.0, first.1 + rest.1)
    }
}

/// The messages delivered among `es`, in order, with their identifiers.
pub open spec fn messages_of(es: Seq<EventView>) -> Seq<(u128, Seq<u8>)>
    decreases es.len(),
{
    if es.len() == 0 {
        seq![]
    } else {
        (match es[0] {
            EventView::Message(u, d) => seq![(u, d)],
            _ => seq![],
        }) + messages_of(es.drop_first())
    }
}

/// No event of `es` is an error.
pub open spec fn no_errors(es: Seq<EventView>) -> bool {
    forall|i: int| 0 <= i < es.len() ==> !(#[trigger] es[i] is Error)
}

/// Every event of `es` is a progress report.
pub open spec fn all_progress(es: Seq<EventView>) -> bool {
    forall|i: int| 0 <= i < es.len() ==> #[trigger] es[i] is Progress
}

/// The context of a snappy-compressed message of `length` bytes that has
/// received `buffer` so far.
pub open spec fn snappy_context(length: u64, buffer: Seq<u8>) -> MessageContextView {
    MessageContextView {
        compression: Compression::SNAPPY,
        total_length: length,
        buffer,
        canceled: false,
    }
}

proof fn lemma_dispatch_all_concat(
    ctx: Map<u128, MessageContextView>,
    a: Seq<Seq<u8>>,
    b: Seq<Seq<u8>>,
)
    ensures
        dispatch_all(ctx, a + b) == (
            dispatch_all(dispatch_all(ctx, a).0, b).0,
            dispatch_all(ctx, a).1 + dispatch_all(dispatch_all(ctx, a).0, b).1,
        ),
    decreases a.len(),
{
    if a.len() == 0 {
        assert(a + b =~= b);
        assert(Seq::<EventView>::empty() + dispatch_all(ctx, b).1 =~= dispatch_all(ctx, b).1);
    } else {
        assert((a + b)[0] == a[0]);
        assert((a + b).drop_first() =~= a.drop_first() + b);
        let first = dispatch_spec(ctx, a[0]);
        lemma_dispatch_all_concat(first.0, a.drop_first(), b);
        let ra = dispatch_all(first.0, a.drop_first());
        let rb = dispatch_all(ra.0, b);
        assert(first.1 + (ra.1 + rb.1) =~= (first.1 + ra.1) + rb.1);
    }
}

proof fn lemma_dispatch_all_single(ctx: Map<u128, MessageContextView>, f: Seq<u8>)
    ensures
        dispatch_all(ctx, seq![f]) == dispatch_spec(ctx, f),
{
    assert(seq![f].drop_first() =~= Seq::<Seq<u8>>::empty());
    let first = dispatch_spec(ctx, f);
    assert(dispatch_all(first.0, Seq::<Seq<u8>>::empty()) == (first.0, Seq::<EventView>::empty()));
    assert(first.1 + Seq::<EventView>::empty() =~= first.1);
}

proof fn lemma_messages_concat(a: Seq<EventView>, b: Seq<EventView>)
    ensures
        messages_of(a + b) == messages_of(a) + messages_of(b),
    decreases a.len(),
{
    if a.len() == 0 {
        assert(a + b =~= b);
        assert(Seq::<(u128, Seq<u8>)>::empty() + messages_of(b) =~= messages_of(b));
    } else {
        assert((a + b)[0] == a[0]);
        assert((a + b).drop_first() =~= a.drop_first() + b);
        lemma_messages_concat(a.drop_first(), b);
        let head = match a[0] {
            EventView::Message(u, d) => seq![(u, d)],
            _ => Seq::<(u128, Seq<u8>)>::empty(),
        };
        assert(head + (messages_of(a.drop_first()) + messages_of(b)) =~= (head + messages_of(
            a.drop_first(),
        )) + messages_of(b));
    }
}

proof fn lemma_messages_of_message(uuid: u128, message: Seq<u8>)
    ensures
        messages_of(seq![EventView::Message(uuid, message)]) == seq![(uuid, message)],
{
    let es = seq![EventView::Message(uuid, message)];
    assert(es.drop_first() =~= Seq::<EventView>::empty());
    assert(messages_of(Seq::<EventView>::empty()) == Seq::<(u128, Seq<u8>)>::empty());
    assert(seq![(uuid, message)] + Seq::<(u128, Seq<u8>)>::empty() =~= seq![(uuid, message)]);
}

proof fn lemma_progress_no_messages(es: Seq<EventView>)
    requires
        all_progress(es),
    ensures
        messages_of(es) == Seq::<(u128, Seq<u8>)>::empty(),
    decreases es.len(),
{
    if es.len() > 0 {
        assert(es[0] is Progress);
        assert forall|i: int| 0 <= i < es.drop_first().len() implies #[trigger] es.drop_first()[i] is Progress by {
            assert(es.drop_first()[i] == es[i + 1]);
        }
        lemma_progress_no_messages(es.drop_first());
        assert(Seq::<(u128, Seq<u8>)>::empty() + Seq::<(u128, Seq<u8>)>::empty() =~= Seq::<
            (u128, Seq<u8>),
        >::empty());
    }
}

// ---------------------------------------------------------------------------
// One frame at a time
// ---------------------------------------------------------------------------

proof fn lemma_step_oneshot(ctx: Map<u128, MessageContextView>, uuid: u128, message: Seq<u8>)
    requires
        message.len() <= u32::MAX,
    ensures
        dispatch_spec(ctx, oneshot_frame(uuid, message)) == (
            ctx,
            seq![EventView::Message(uuid, message)],
        ),
{
    lemma_uuid_roundtrip(uuid, seq![]);
    lemma_oneshot_roundtrip(
        OneshotView { field_type: Type::ONESHOT, uuid: uuid_bytes(uuid), message },
    );
}

proof fn lemma_step_begin(ctx: Map<u128, MessageContextView>, uuid: u128, length: u64)
    ensures
        dispatch_spec(ctx, begin_frame(uuid, length)).0 == ctx.insert(
            uuid,
            snappy_context(length, seq![]),
        ),
        all_progress(dispatch_spec(ctx, begin_frame(uuid, length)).1),
        !ctx.contains_key(uuid) ==> dispatch_spec(ctx, begin_frame(uuid, length)).1
            == Seq::<EventView>::empty(),
{
    lemma_uuid_roundtrip(uuid, seq![]);
    lemma_begin_roundtrip(
        BeginView {
            field_type: Type::BEGIN,
            uuid: uuid_bytes(uuid),
            compression: Compression::SNAPPY,
            length,
        },
    );
    assert(fresh_context(Compression::SNAPPY, length) == snappy_context(length, seq![]));
    let out = dispatch_spec(ctx, begin_frame(uuid, length)).1;
    if ctx.contains_key(uuid) {
        assert(out == seq![EventView::Progress(progress(Type::BEGIN, uuid, length, 0))]);
        assert(out[0] is Progress);
    } else {
        assert(out == Seq::<EventView>::empty());
    }
}

proof fn lemma_step_process(
    ctx: Map<u128, MessageContextView>,
    uuid: u128,
    seq: u64,
    chunk: Seq<u8>,
    length: u64,
    buffer: Seq<u8>,
)
    requires
        chunk.len() <= u32::MAX,
        ctx.contains_key(uuid),
        ctx[uuid] == snappy_context(length, buffer),
    ensures
        dispatch_spec(ctx, process_frame(uuid, seq, chunk)).0 == ctx.insert(
            uuid,
            snappy_context(length, buffer + chunk),
        ),
        all_progress(dispatch_spec(ctx, process_frame(uuid, seq, chunk)).1),
{
    lemma_uuid_roundtrip(uuid, seq![]);
    lemma_process_roundtrip(
        ProcessView { field_type: Type::PROCESS, uuid: uuid_bytes(uuid), seq, message: chunk },
    );
    let out = dispatch_spec(ctx, process_frame(uuid, seq, chunk));
    assert(out.1 == seq![
        EventView::Progress(progress(Type::PROCESS, uuid, length, (buffer + chunk).len() as u64)),
    ]);
    assert(out.1[0] is Progress);
}

proof fn lemma_step_end(
    ctx: Map<u128, MessageContextView>,
    uuid: u128,
    length: u64,
    buffer: Seq<u8>,
    message: Seq<u8>,
)
    requires
        ctx.contains_key(uuid),
        ctx[uuid] == snappy_context(length, buffer),
        snappy_unframed(buffer) == Some(message),
    ensures
        dispatch_spec(ctx, end_frame(uuid)) == (
            ctx.remove(uuid),
            seq![
                EventView::Progress(progress(Type::END, uuid, length, length)),
                EventView::Message(uuid, message),
            ],
        ),
{
    lemma_uuid_roundtrip(uuid, seq![]);
    lemma_end_roundtrip(EndView { field_type: Type::END, uuid: uuid_bytes(uuid) });
}

proof fn lemma_chunks(
    ctx: Map<u128, MessageContextView>,
    uuid: u128,
    data: Seq<u8>,
    bw: nat,
    seq: nat,
    length: u64,
    buffer: Seq<u8>,
)
    requires
        bw > 0,
        data.len() <= u64::MAX,
        bw <= u32::MAX || data.len() <= u32::MAX,
        ctx.contains_key(uuid),
        ctx[uuid] == snappy_context(length, buffer),
    ensures
        dispatch_all(ctx, chunk_frames(uuid, data, bw, seq)).0 == ctx.insert(
            uuid,
            snappy_context(length, buffer + data),
        ),
        all_progress(dispatch_all(ctx, chunk_frames(uuid, data, bw, seq)).1),
    decreases data.len(),
{
    let frames = chunk_frames(uuid, data, bw, seq);
    if data.len() == 0 {
        assert(buffer + data =~= buffer);
        assert(ctx.insert(uuid, snappy_context(length, buffer)) =~= ctx);
    } else {
        let n = if bw < data.len() {
            bw
        } else {
            data.len()
        };
        let chunk = data.take(n as int);
        let rest = data.skip(n as int);
        let f = process_frame(uuid, seq as u64, chunk);
        assert(frames == seq![f] + chunk_frames(uuid, rest, bw, seq + 1));
        lemma_dispatch_all_concat(ctx, seq![f], chunk_frames(uuid, rest, bw, seq + 1));
        lemma_dispatch_all_single(ctx, f);
        lemma_step_process(ctx, uuid, seq as u64, chunk, length, buffer);
        let ctx1 = ctx.insert(uuid, snappy_context(length, buffer + chunk));
        lemma_chunks(ctx1, uuid, rest, bw, seq + 1, length, buffer + chunk);
        assert(buffer + chunk + rest =~= buffer + data);
        assert(ctx1.insert(uuid, snappy_context(length, buffer + data)) =~= ctx.insert(
            uuid,
            snappy_context(length, buffer + data),
        ));
        let e1 = dispatch_spec(ctx, f).1;
        let e2 = dispatch_all(ctx1, chunk_frames(uuid, rest, bw, seq + 1)).1;
        assert forall|i: int| 0 <= i < (e1 + e2).len() implies #[trigger] (e1 + e2)[i] is Progress by {
            if i < e1.len() {
                assert((e1 + e2)[i] == e1[i]);
            } else {
                assert((e1 + e2)[i] == e2[i - e1.len()]);
            }
        }
    }
}

// ---------------------------------------------------------------------------
// The laws
// ---------------------------------------------------------------------------

/// A chunk that arrives for a message in reassembly is appended to what has
/// come in of that message, and its progress report counts every byte
/// received so far for the message, out of the total its begin frame
/// announced.
pub proof fn law_chunk_report(
    ctx: Map<u128, MessageContextView>,
    uuid: u128,
    seq: u64,
    chunk: Seq<u8>,
)
    requires
        ctx.contains_key(uuid),
        chunk.len() <= u32::MAX,
    ensures
        dispatch_spec(ctx, process_frame(uuid, seq, chunk)) == (
            ctx.insert(uuid, MessageContextView { buffer: ctx[uuid].buffer + chunk, ..ctx[uuid] }),
            seq![
                EventView::Progress(
                    progress(
                        Type::PROCESS,
                        uuid,
                        ctx[uuid].total_length,
                        (ctx[uuid].buffer.len() + chunk.len()) as u64,
                    ),
                ),
            ],
        ),
{
    lemma_uuid_roundtrip(uuid, seq![]);
    lemma_process_roundtrip(
        ProcessView { field_type: Type::PROCESS, uuid: uuid_bytes(uuid), seq, message: chunk },
    );
}

/// The bytes of `data` received once its first `i + 1` chunks of `bw`
/// bytes have come in.
pub open spec fn received_after(data: Seq<u8>, bw: nat, i: int) -> int {
    if (i + 1) * bw < data.len() {
        (i + 1) * bw
    } else {
        data.len() as int
    }
}

proof fn lemma_received_step(l: int, b: int, i: int)
    by (nonlinear_arith)
    requires
        b > 0,
        b < l,
        i >= 0,
    ensures
        b + (if (i + 1) * b < l - b { (i + 1) * b } else { l - b }) == (if (i + 2) * b < l {
            (i + 2) * b
        } else {
            l
        }),
{
}

/// Chunk by chunk, the reports on a message in reassembly count up: the
/// report on chunk `i` gives what had come in before plus the first `i + 1`
/// chunks' bytes, so the reports rise by the chunks' lengths and the last
/// one counts the whole payload. Nothing else is reported.
pub proof fn law_chunk_progress(
    ctx: Map<u128, MessageContextView>,
    uuid: u128,
    data: Seq<u8>,
    bw: nat,
    seq: nat,
)
    requires
        bw > 0,
        data.len() <= u64::MAX,
        bw <= u32::MAX || data.len() <= u32::MAX,
        ctx.contains_key(uuid),
    ensures
        dispatch_all(ctx, chunk_frames(uuid, data, bw, seq)).0 == ctx.insert(
            uuid,
            MessageContextView { buffer: ctx[uuid].buffer + data, ..ctx[uuid] },
        ),
        dispatch_all(ctx, chunk_frames(uuid, data, bw, seq)).1.len() == chunk_frames(
            uuid,
            data,
            bw,
            seq,
        ).len(),
        forall|i: int|
            0 <= i < chunk_frames(uuid, data, bw, seq).len() ==> #[trigger] dispatch_all(
                ctx,
                chunk_frames(uuid, data, bw, seq),
            ).1[i] == EventView::Progress(
                progress(
                    Type::PROCESS,
                    uuid,
                    ctx[uuid].total_length,
                    (ctx[uuid].buffer.len() + received_after(data, bw, i)) as u64,
                ),
            ),
    decreases data.len(),
{
    let c = ctx[uuid];
    let frames = chunk_frames(uuid, data, bw, seq);
    if data.len() == 0 {
        assert(c.buffer + data =~= c.buffer);
        assert(ctx.insert(uuid, MessageContextView { buffer: c.buffer + data, ..c }) =~= ctx);
    } else {
        let n = if bw < data.len() {
            bw
        } else {
            data.len()
        };
        let chunk = data.take(n as int);
        let rest = data.skip(n as int);
        let f = process_frame(uuid, seq as u64, chunk);
        let rf = chunk_frames(uuid, rest, bw, seq + 1);
        assert(frames == seq![f] + rf);
        lemma_dispatch_all_concat(ctx, seq![f], rf);
        lemma_dispatch_all_single(ctx, f);
        law_chunk_report(ctx, uuid, seq as u64, chunk);
        let c1 = MessageContextView { buffer: c.buffer + chunk, ..c };
        let ctx1 = ctx.insert(uuid, c1);
        law_chunk_progress(ctx1, uuid, rest, bw, seq + 1);
        assert(c.buffer + chunk + rest =~= c.buffer + data);
        assert(ctx1.insert(uuid, MessageContextView { buffer: c1.buffer + rest, ..c1 })
            =~= ctx.insert(uuid, MessageContextView { buffer: c.buffer + data, ..c }));
        let e1 = dispatch_spec(ctx, f).1;
        let e2 = dispatch_all(ctx1, rf).1;
        let es = dispatch_all(ctx, frames).1;
        assert(es == e1 + e2);
        assert forall|i: int| 0 <= i < frames.len() implies #[trigger] es[i] == EventView::Progress(
            progress(
                Type::PROCESS,
                uuid,
                c.total_length,
                (c.buffer.len() + received_after(data, bw, i)) as u64,
            ),
        ) by {
            if i == 0 {
                assert(es[0] == e1[0]);
                assert((0int + 1) * (bw as int) == bw as int) by (nonlinear_arith);
                assert(received_after(data, bw, 0) == n);
            } else {
                assert(es[i] == e2[i - 1]);
                assert(bw < data.len()) by {
                    if bw >= data.len() {
                        assert(rest.len() == 0);
                        assert(rf.len() == 0);
                    }
                }
                lemma_received_step(data.len() as int, bw as int, i - 1);
                assert(received_after(data, bw, i) == bw + received_after(rest, bw, i - 1));
                assert(c1.buffer.len() == c.buffer.len() + bw);
            }
        }
    }
}

/// The reports a receiver gives on a message sent compressed in chunks,
/// when nothing is in reassembly under its identifier: one per chunk, the
/// report on chunk `i` counting the bytes of the first `i + 1` chunks out of
/// the announced total (so the last chunk's report reaches that total), then
/// the report that the message is complete, then the message itself.
pub proof fn law_chunked_progress(
    ctx: Map<u128, MessageContextView>,
    uuid: u128,
    message: Seq<u8>,
    compressed: Seq<u8>,
    bw: nat,
)
    requires
        !ctx.contains_key(uuid),
        bw > 0,
        compressed.len() <= u64::MAX,
        bw <= u32::MAX || compressed.len() <= u32::MAX,
        snappy_unframed(compressed) == Some(message),
    ensures
        ({
            let es = dispatch_all(ctx, large_frames(uuid, compressed, bw)).1;
            let k = chunk_frames(uuid, compressed, bw, 0).len() as int;
            &&& es.len() == k + 2
            &&& forall|i: int|
                0 <= i < k ==> #[trigger] es[i] == EventView::Progress(
                    progress(
                        Type::PROCESS,
                        uuid,
                        compressed.len() as u64,
                        received_after(compressed, bw, i) as u64,
                    ),
                )
            &&& k > 0 ==> received_after(compressed, bw, k - 1) == compressed.len()
            &&& es[k] == EventView::Progress(
                progress(Type::END, uuid, compressed.len() as u64, compressed.len() as u64),
            )
            &&& es[k + 1] == EventView::Message(uuid, message)
        }),
{
    let len = compressed.len() as u64;
    let b = begin_frame(uuid, len);
    let cs = chunk_frames(uuid, compressed, bw, 0);
    let e = end_frame(uuid);
    let all = large_frames(uuid, compressed, bw);
    assert(all == seq![b] + cs + seq![e]);
    lemma_dispatch_all_concat(ctx, seq![b] + cs, seq![e]);
    lemma_dispatch_all_concat(ctx, seq![b], cs);
    lemma_dispatch_all_single(ctx, b);
    lemma_step_begin(ctx, uuid, len);
    let ctx1 = ctx.insert(uuid, snappy_context(len, seq![]));
    law_chunk_progress(ctx1, uuid, compressed, bw, 0);
    assert(Seq::<u8>::empty() + compressed =~= compressed);
    let ctx2 = ctx1.insert(uuid, snappy_context(len, compressed));
    assert(ctx2 =~= ctx1.insert(
        uuid,
        MessageContextView { buffer: ctx1[uuid].buffer + compressed, ..ctx1[uuid] },
    ));
    lemma_dispatch_all_single(ctx2, e);
    lemma_step_end(ctx2, uuid, len, compressed, message);
    let e_chunks = dispatch_all(ctx1, cs).1;
    let es = dispatch_all(ctx, all).1;
    assert(dispatch_spec(ctx, b).1 == Seq::<EventView>::empty());
    assert(es == Seq::<EventView>::empty() + e_chunks + dispatch_spec(ctx2, e).1);
    let k = cs.len() as int;
    assert forall|i: int| 0 <= i < k implies #[trigger] es[i] == EventView::Progress(
        progress(Type::PROCESS, uuid, len, received_after(compressed, bw, i) as u64),
    ) by {
        assert(es[i] == e_chunks[i]);
    }
    if k > 0 {
        law_chunks_respect_bandwidth(uuid, compressed, bw, 0);
        let l = compressed.len() as int;
        let bb = bw as int;
        assert(received_after(compressed, bw, k - 1) == l) by {
            assert(k == (l + bb - 1) / bb);
            assert(k * bb >= l) by (nonlinear_arith)
                requires
                    k == (l + bb - 1) / bb,
                    bb > 0,
                    l >= 0,
            ;
        }
    }
}


/// The payloads of the chunks that `data` is cut into, `bw` bytes each.
pub open spec fn chunk_payloads(data: Seq<u8>, bw: nat) -> Seq<Seq<u8>>
    decreases data.len(),
{
    if data.len() == 0 || bw == 0 {
        seq![]
    } else {
        let n = if bw < data.len() {
            bw
        } else {
            data.len()
        };
        seq![data.take(n as int)] + chunk_payloads(data.skip(n as int), bw)
    }
}

/// The byte sequences of `ss`, one after the other.
pub open spec fn concat_all(ss: Seq<Seq<u8>>) -> Seq<u8>
    decreases ss.len(),
{
    if ss.len() == 0 {
        seq![]
    } else {
        ss[0] + concat_all(ss.drop_first())
    }
}

/// A payload larger than the bandwidth is cut into as many chunk frames as
/// it takes bandwidth-sized pieces to hold it (the last piece may be
/// shorter). Read back, chunk `i` carries the message's identifier, the
/// number `seq + i` and a non-empty piece no longer than the bandwidth; the
/// pieces, in order, make up the payload. (The pieces are read back where
/// they fit the 32-bit length field: the bandwidth or the payload does.)
pub proof fn law_chunks_respect_bandwidth(uuid: u128, data: Seq<u8>, bw: nat, seq: nat)
    requires
        bw > 0,
        data.len() <= u64::MAX,
        bw <= u32::MAX || data.len() <= u32::MAX,
        seq + data.len() <= u64::MAX,
    ensures
        chunk_frames(uuid, data, bw, seq).len() == chunk_payloads(data, bw).len(),
        chunk_payloads(data, bw).len() == (data.len() + bw - 1) / (bw as int),
        concat_all(chunk_payloads(data, bw)) == data,
        forall|i: int|
            #![trigger chunk_frames(uuid, data, bw, seq)[i]]
            0 <= i < chunk_payloads(data, bw).len() ==> {
                &&& 1 <= chunk_payloads(data, bw)[i].len() <= bw
                &&& crate::protos::message::parse_process(chunk_frames(uuid, data, bw, seq)[i])
                    == Some(
                    ProcessView {
                        field_type: Type::PROCESS,
                        uuid: uuid_bytes(uuid),
                        seq: (seq + i) as u64,
                        message: chunk_payloads(data, bw)[i],
                    },
                )
            },
    decreases data.len(),
{
    let cs = chunk_frames(uuid, data, bw, seq);
    let ps = chunk_payloads(data, bw);
    if data.len() == 0 {
        assert(cs.len() == 0);
        assert(ps.len() == 0);
        assert((data.len() + bw - 1) / (bw as int) == 0) by (nonlinear_arith)
            requires
                data.len() == 0,
                bw > 0,
        ;
        assert(concat_all(ps) =~= data);
    } else {
        let n = if bw < data.len() {
            bw
        } else {
            data.len()
        };
        let rest = data.skip(n as int);
        law_chunks_respect_bandwidth(uuid, rest, bw, seq + 1);
        let crs = chunk_frames(uuid, rest, bw, seq + 1);
        let prs = chunk_payloads(rest, bw);
        assert(cs == seq![process_frame(uuid, seq as u64, data.take(n as int))] + crs);
        assert(ps == seq![data.take(n as int)] + prs);
        assert(ps.drop_first() =~= prs);
        assert(data.take(n as int) + rest =~= data);
        let l = data.len() as int;
        let b = bw as int;
        if bw < data.len() {
            assert((l + b - 1) / b == 1 + (l - b + b - 1) / b) by {
                vstd::arithmetic::div_mod::lemma_div_plus_one(l - b + b - 1, b);
            }
        } else {
            assert((l + b - 1) / b == 1) by (nonlinear_arith)
                requires
                    1 <= l <= b,
            {
                vstd::arithmetic::div_mod::lemma_div_plus_one(l - 1, b);
                assert(0 <= l - 1 < b);
            }
            assert(rest.len() == 0);
        }
        assert forall|i: int|
            #![trigger cs[i]]
            0 <= i < ps.len() implies {
                &&& 1 <= ps[i].len() <= bw
                &&& crate::protos::message::parse_process(cs[i]) == Some(
                    ProcessView {
                        field_type: Type::PROCESS,
                        uuid: uuid_bytes(uuid),
                        seq: (seq + i) as u64,
                        message: ps[i],
                    },
                )
            } by {
            if i == 0 {
                lemma_uuid_roundtrip(uuid, seq![]);
                lemma_process_roundtrip(
                    ProcessView {
                        field_type: Type::PROCESS,
                        uuid: uuid_bytes(uuid),
                        seq: seq as u64,
                        message: data.take(n as int),
                    },
                );
            } else {
                assert(cs[i] == crs[i - 1]);
                assert(ps[i] == prs[i - 1]);
                assert(seq + 1 + (i - 1) == seq + i);
            }
        }
    }
}

/// A message sent in a single frame, shorter than 2^32 bytes, is delivered
/// whole, under its identifier, with nothing else happening and the
/// receiver's state unchanged.
pub proof fn law_oneshot_delivery(ctx: Map<u128, MessageContextView>, uuid: u128, message: Seq<u8>)
    requires
        message.len() <= u32::MAX,
    ensures
        dispatch_all(ctx, seq![oneshot_frame(uuid, message)]) == (
            ctx,
            seq![EventView::Message(uuid, message)],
        ),
{
    lemma_dispatch_all_single(ctx, oneshot_frame(uuid, message));
    lemma_step_oneshot(ctx, uuid, message);
}

/// A message sent compressed in chunks is delivered
/// whole, exactly once, as the last event and under its identifier, just
/// after the report that it is complete; no error arises. Afterwards the
/// receiver has nothing in reassembly under that identifier (a reassembly
/// that was open under it is abandoned) and everything else as before. This
/// holds wherever each chunk's length fits the 32-bit length field, that is,
/// where the bandwidth or the compressed payload does.
pub proof fn law_chunked_delivery(
    ctx: Map<u128, MessageContextView>,
    uuid: u128,
    message: Seq<u8>,
    compressed: Seq<u8>,
    bw: nat,
)
    requires
        bw > 0,
        compressed.len() <= u64::MAX,
        bw <= u32::MAX || compressed.len() <= u32::MAX,
        snappy_unframed(compressed) == Some(message),
    ensures
        dispatch_all(ctx, large_frames(uuid, compressed, bw)).0 == ctx.remove(uuid),
        messages_of(dispatch_all(ctx, large_frames(uuid, compressed, bw)).1) == seq![
            (uuid, message),
        ],
        no_errors(dispatch_all(ctx, large_frames(uuid, compressed, bw)).1),
        dispatch_all(ctx, large_frames(uuid, compressed, bw)).1.last() == EventView::Message(
            uuid,
            message,
        ),
        dispatch_all(ctx, large_frames(uuid, compressed, bw)).1.len() >= 2,
        dispatch_all(ctx, large_frames(uuid, compressed, bw)).1[dispatch_all(
            ctx,
            large_frames(uuid, compressed, bw),
        ).1.len() - 2] == EventView::Progress(
            progress(Type::END, uuid, compressed.len() as u64, compressed.len() as u64),
        ),
{
    let len = compressed.len() as u64;
    let b = begin_frame(uuid, len);
    let cs = chunk_frames(uuid, compressed, bw, 0);
    let e = end_frame(uuid);
    let all = large_frames(uuid, compressed, bw);
    assert(all == seq![b] + cs + seq![e]);
    lemma_dispatch_all_concat(ctx, seq![b] + cs, seq![e]);
    lemma_dispatch_all_concat(ctx, seq![b], cs);
    lemma_dispatch_all_single(ctx, b);
    lemma_step_begin(ctx, uuid, len);
    let e_begin = dispatch_spec(ctx, b).1;
    let ctx1 = ctx.insert(uuid, snappy_context(len, seq![]));
    lemma_chunks(ctx1, uuid, compressed, bw, 0, len, seq![]);
    assert(Seq::<u8>::empty() + compressed =~= compressed);
    let ctx2 = ctx1.insert(uuid, snappy_context(len, compressed));
    assert(ctx2 =~= ctx.insert(uuid, snappy_context(len, compressed)));
    lemma_dispatch_all_single(ctx2, e);
    lemma_step_end(ctx2, uuid, len, compressed, message);
    assert(ctx2.remove(uuid) =~= ctx.remove(uuid));
    let e_chunks = dispatch_all(ctx1, cs).1;
    let e_end = seq![
        EventView::Progress(progress(Type::END, uuid, len, len)),
        EventView::Message(uuid, message),
    ];
    let e_pre = e_begin + e_chunks;
    let events = dispatch_all(ctx, all).1;
    assert(events == e_pre + e_end);
    assert forall|i: int| 0 <= i < e_pre.len() implies #[trigger] e_pre[i] is Progress by {
        if i < e_begin.len() {
            assert(e_pre[i] == e_begin[i]);
        } else {
            assert(e_pre[i] == e_chunks[i - e_begin.len()]);
        }
    }
    lemma_progress_no_messages(e_pre);
    lemma_messages_concat(e_pre, e_end);
    assert(e_end.drop_first() =~= seq![EventView::Message(uuid, message)]);
    lemma_messages_of_message(uuid, message);
    assert(messages_of(e_end) == Seq::<(u128, Seq<u8>)>::empty() + messages_of(e_end.drop_first()));
    assert(messages_of(e_end) =~= seq![(uuid, message)]);
    assert(Seq::<(u128, Seq<u8>)>::empty() + seq![(uuid, message)] =~= seq![(uuid, message)]);
    assert forall|i: int| 0 <= i < events.len() implies !(#[trigger] events[i] is Error) by {
        if i < e_pre.len() {
            assert(events[i] == e_pre[i]);
        } else {
            assert(events[i] == e_end[i - e_pre.len()]);
        }
    }
}

/// Whatever `SharedData::send` gives back for a message, the frames it
/// returns, fed to a receiver in any state, deliver exactly that message
/// under that identifier and raise no error; the receiver's state is left as
/// it was, except that nothing stays in reassembly under the identifier.
/// This holds wherever every payload put in a frame is shorter than 2^32
/// bytes, the limit of the length field as it is read.
pub proof fn law_send_then_receive(
    ctx: Map<u128, MessageContextView>,
    bw: nat,
    uuid: u128,
    message: Seq<u8>,
    r: Result<Vec<Vec<u8>>, Error>,
)
    requires
        bw > 0 || message.len() == 0,
        if message.len() <= bw {
            message.len() <= u32::MAX
        } else {
            bw <= u32::MAX || snappy_framed(message).len() <= u32::MAX
        },
        send_outcome(bw, uuid, message, r),
    ensures
        r is Ok,
        dispatch_all(ctx, frames_view(r->Ok_0@)).0.remove(uuid) == ctx.remove(uuid),
        !ctx.contains_key(uuid) ==> dispatch_all(ctx, frames_view(r->Ok_0@)).0 == ctx,
        messages_of(dispatch_all(ctx, frames_view(r->Ok_0@)).1) == seq![(uuid, message)],
        no_errors(dispatch_all(ctx, frames_view(r->Ok_0@)).1),
{
    if message.len() <= bw {
        law_oneshot_delivery(ctx, uuid, message);
        lemma_messages_of_message(uuid, message);
    } else {
        law_chunked_delivery(ctx, uuid, message, snappy_framed(message), bw);
        assert(ctx.remove(uuid).remove(uuid) =~= ctx.remove(uuid));
        if !ctx.contains_key(uuid) {
            assert(ctx.remove(uuid) =~= ctx);
        }
    }
}

/// A message longer than the bandwidth goes out as a snappy frame-format
/// stream: the payloads of its chunk frames, joined in order, are the whole
/// stream, which opens with the stream identifier chunk, and decompress to
/// the message.
pub proof fn law_sent_payload_is_snappy_stream(
    bw: nat,
    uuid: u128,
    message: Seq<u8>,
    r: Result<Vec<Vec<u8>>, Error>,
)
    requires
        bw > 0,
        message.len() > bw,
        send_outcome(bw, uuid, message, r),
    ensures
        starts_with_stream_identifier(concat_all(chunk_payloads(snappy_framed(message), bw))),
        snappy_unframed(concat_all(chunk_payloads(snappy_framed(message), bw))) == Some(message),
{
    let data = snappy_framed(message);
    lemma_concat_chunk_payloads(data, bw);
}

/// Joining the chunks that `data` is cut into gives `data` back.
proof fn lemma_concat_chunk_payloads(data: Seq<u8>, bw: nat)
    requires
        bw > 0,
    ensures
        concat_all(chunk_payloads(data, bw)) == data,
    decreases data.len(),
{
    if data.len() > 0 {
        let n = if bw < data.len() {
            bw
        } else {
            data.len()
        };
        let ps = chunk_payloads(data, bw);
        lemma_concat_chunk_payloads(data.skip(n as int), bw);
        assert(ps.drop_first() =~= chunk_payloads(data.skip(n as int), bw));
        assert(data.take(n as int) + data.skip(n as int) =~= data);
    } else {
        assert(concat_all(chunk_payloads(data, bw)) =~= data);
    }
}

} // verus!
