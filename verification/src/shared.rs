//! The sending side of a connection and the table of awaited responses.
//!
//! A message no longer than the connection's bandwidth goes out in a single
//! frame. A longer one is snappy-compressed and sent as a begin frame with the
//! compressed length, one chunk frame per `bandwidth` bytes of the compressed
//! stream (numbered from zero), and an end frame.

use crate::compression::{
    has_stream_identifier, snappy_compress, snappy_framed, snappy_unframed,
    starts_with_stream_identifier,
};
use crate::error::Error;
use crate::ids::{random_uuid, uuid_bytes, uuid_to_bytes};
use crate::protos::message::{
    begin_bytes, end_bytes, oneshot_bytes, process_bytes, Begin, BeginView, Compression, End,
    EndView, Oneshot, OneshotView, Process, ProcessView, Type,
};
use crate::response::{Status, StatusView};
use std::collections::HashMap;
use vstd::prelude::*;
use vstd::slice::{slice_subrange, slice_to_vec};

verus! {

broadcast use vstd::std_specs::hash::group_hash_axioms;

// ---------------------------------------------------------------------------
// Frames
// ---------------------------------------------------------------------------

/// The frame that carries `message` whole.
pub open spec fn oneshot_frame(uuid: u128, message: Seq<u8>) -> Seq<u8> {
    oneshot_bytes(OneshotView { field_type: Type::ONESHOT, uuid: uuid_bytes(uuid), message })
}

/// The frame that opens a snappy-compressed message of `length` bytes.
pub open spec fn begin_frame(uuid: u128, length: u64) -> Seq<u8> {
    begin_bytes(
        BeginView {
            field_type: Type::BEGIN,
            uuid: uuid_bytes(uuid),
            compression: Compression::SNAPPY,
            length,
        },
    )
}

/// The chunk frame number `seq`.
pub open spec fn process_frame(uuid: u128, seq: u64, chunk: Seq<u8>) -> Seq<u8> {
    process_bytes(
        ProcessView { field_type: Type::PROCESS, uuid: uuid_bytes(uuid), seq, message: chunk },
    )
}

/// The frame that closes a multi-frame message.
pub open spec fn end_frame(uuid: u128) -> Seq<u8> {
    end_bytes(EndView { field_type: Type::END, uuid: uuid_bytes(uuid) })
}

/// The chunk frames for `data`, `bw` bytes each (the last one shorter),
/// numbered from `seq` on.
pub open spec fn chunk_frames(uuid: u128, data: Seq<u8>, bw: nat, seq: nat) -> Seq<Seq<u8>>
    decreases data.len(),
{
    if data.len() == 0 || bw == 0 {
        seq![]
    } else {
        let n = if bw < data.len() {
            bw
        } else {
            data.len()
        };
        seq![process_frame(uuid, seq as u64, data.take(n as int))] + chunk_frames(
            uuid,
            data.skip(n as int),
            bw,
            seq + 1,
        )
    }
}

/// The frames of a message sent in chunks: begin, the chunks, end.
pub open spec fn large_frames(uuid: u128, data: Seq<u8>, bw: nat) -> Seq<Seq<u8>> {
    seq![begin_frame(uuid, data.len() as u64)] + chunk_frames(uuid, data, bw, 0) + seq![
        end_frame(uuid),
    ]
}

/// The frames of a vector, each by its bytes.
pub open spec fn frames_view(fs: Seq<Vec<u8>>) -> Seq<Seq<u8>> {
    fs.map_values(|f: Vec<u8>| f@)
}

/// What sending `message` under `uuid` with bandwidth `bw` gives: a message
/// no longer than `bw` is sent in a single frame; a longer one is sent
/// snappy-compressed in chunks, where the compressed stream decompresses to
/// the message.
pub open spec fn send_outcome(bw: nat, uuid: u128, message: Seq<u8>, r: Result<Vec<Vec<u8>>, Error>) -> bool {
    if message.len() <= bw {
        r matches Ok(fs) && frames_view(fs@) == seq![oneshot_frame(uuid, message)]
    } else {
        r matches Ok(fs) && frames_view(fs@) == large_frames(uuid, snappy_framed(message), bw)
            && snappy_unframed(snappy_framed(message)) == Some(message)
            && snappy_framed(message).len() <= u64::MAX
            && starts_with_stream_identifier(snappy_framed(message))
    }
}

// ---------------------------------------------------------------------------
// The table of awaited responses
// ---------------------------------------------------------------------------

/// The table after `uuid` is entered as awaited (unchanged where it is
/// awaited already).
pub open spec fn registered<W>(m: Map<u128, StatusView<W>>, uuid: u128) -> Map<u128, StatusView<W>> {
    if m.contains_key(uuid) {
        m
    } else {
        m.insert(uuid, StatusView::NotStarted)
    }
}

/// What a poll for `uuid` finds.
pub ghost enum PollOutcome {
    Pending,
    Arrived(Seq<u8>),
    NotFound,
}

pub open spec fn poll_outcome<W>(m: Map<u128, StatusView<W>>, uuid: u128) -> PollOutcome {
    if !m.contains_key(uuid) {
        PollOutcome::NotFound
    } else {
        match m[uuid] {
            StatusView::Completed(d) => PollOutcome::Arrived(d),
            _ => PollOutcome::Pending,
        }
    }
}

/// The table after a poll for `uuid` by a task woken with `waker`.
pub open spec fn polled<W>(m: Map<u128, StatusView<W>>, uuid: u128, waker: W) -> Map<u128, StatusView<W>> {
    if !m.contains_key(uuid) {
        m
    } else {
        match m[uuid] {
            StatusView::NotStarted => m.insert(uuid, StatusView::Started(waker)),
            StatusView::Started(_) => m,
            StatusView::Completed(_) => m.insert(uuid, StatusView::Completed(seq![])),
        }
    }
}

/// The table after the reply `message` to `uuid` arrives: where `uuid` is
/// awaited the reply is kept for the task that polls for it, whether that
/// task waits already or polls later; a reply to an identifier that is not
/// awaited is passed over.
pub open spec fn completed<W>(m: Map<u128, StatusView<W>>, uuid: u128, message: Seq<u8>) -> Map<
    u128,
    StatusView<W>,
> {
    if m.contains_key(uuid) {
        m.insert(uuid, StatusView::Completed(message))
    } else {
        m
    }
}

/// A reply that arrives while a task waits for it reaches that task: the
/// identifier, once entered, polls as pending; after the task has polled and
/// the reply has arrived, the next poll hands out exactly that reply; the
/// other entries of the table are left as they were.
pub proof fn law_reply_reaches_waiting_task<W>(
    m: Map<u128, StatusView<W>>,
    uuid: u128,
    waker: W,
    message: Seq<u8>,
)
    requires
        !m.contains_key(uuid),
    ensures
        poll_outcome(registered(m, uuid), uuid) == PollOutcome::Pending,
        poll_outcome(completed(polled(registered(m, uuid), uuid, waker), uuid, message), uuid)
            == PollOutcome::Arrived(message),
        completed(polled(registered(m, uuid), uuid, waker), uuid, message).remove(uuid) == m,
{
    let m3 = completed(polled(registered(m, uuid), uuid, waker), uuid, message);
    assert(m3.remove(uuid) =~= m);
}

/// A reply that arrives before the first poll is handed out by that poll,
/// and the other entries of the table are left as they were.
pub proof fn law_reply_before_first_poll<W>(
    m: Map<u128, StatusView<W>>,
    uuid: u128,
    waker: W,
    message: Seq<u8>,
)
    requires
        !m.contains_key(uuid),
    ensures
        poll_outcome(completed(registered(m, uuid), uuid, message), uuid) == PollOutcome::Arrived(
            message,
        ),
        polled(completed(registered(m, uuid), uuid, message), uuid, waker).remove(uuid) == m,
{
    let m2 = polled(completed(registered(m, uuid), uuid, message), uuid, waker);
    assert(m2.remove(uuid) =~= m);
}

/// Whatever state an awaited identifier is in, before its first poll or
/// after any number of polls, the reply that arrives for it is what the next
/// poll hands out.
pub proof fn law_awaited_reply_is_handed_out<W>(
    m: Map<u128, StatusView<W>>,
    uuid: u128,
    message: Seq<u8>,
)
    requires
        m.contains_key(uuid),
    ensures
        poll_outcome(completed(m, uuid, message), uuid) == PollOutcome::Arrived(message),
{
}

/// Two requests sent one after the other go under different identifiers:
/// the second is drawn from outside the table that already holds the first.
pub proof fn law_successive_requests_differ<W>(m: Map<u128, StatusView<W>>, u1: u128, u2: u128)
    requires
        !m.insert(u1, StatusView::NotStarted).contains_key(u2),
    ensures
        u1 != u2,
{
    assert(m.insert(u1, StatusView::NotStarted).contains_key(u1));
}

/// Entering an identifier twice is entering it once, and a waiting task
/// stays pending however often it polls before the reply arrives.
pub proof fn law_register_and_poll_idempotent<W>(
    m: Map<u128, StatusView<W>>,
    uuid: u128,
    w1: W,
    w2: W,
)
    ensures
        registered(registered(m, uuid), uuid) == registered(m, uuid),
        poll_outcome(polled(polled(registered(m, uuid), uuid, w1), uuid, w2), uuid) == poll_outcome(
            polled(registered(m, uuid), uuid, w1),
            uuid,
        ),
{
}

/// An identifier that is released is no longer awaited.
pub proof fn law_release_forgets<W>(m: Map<u128, StatusView<W>>, uuid: u128)
    ensures
        poll_outcome(m.remove(uuid), uuid) == PollOutcome::NotFound,
{
}

/// Whether `u` has the shape of a random version-4 identifier: version
/// nibble 4 and the RFC 4122 variant bits `10`.
pub open spec fn is_v4(u: u128) -> bool {
    (u >> 76u128) & 0xfu128 == 4u128 && (u >> 62u128) & 0x3u128 == 2u128
}

/// The version-4 identifier numbered `k`: the low 62 bits of `k` in its low
/// 62 bits, the two top bits of `k` in bits 64 and 65, and the version and
/// variant bits set.
pub open spec fn v4_id(k: u64) -> u128 {
    (4u128 << 76u128) | (2u128 << 62u128) | ((k & 0x3fff_ffff_ffff_ffffu64) as u128) | (((k
        >> 62u64) as u128) << 64u128)
}

fn make_v4_id(k: u64) -> (r: u128)
    ensures
        r == v4_id(k),
{
    (4u128 << 76u128) | (2u128 << 62u128) | ((k & 0x3fff_ffff_ffff_ffffu64) as u128) | (((k
        >> 62u64) as u128) << 64u128)
}

proof fn lemma_v4_id(a: u64, b: u64)
    ensures
        is_v4(v4_id(a)),
        v4_id(a) != 0,
        v4_id(a) == v4_id(b) ==> a == b,
{
    assert(is_v4(v4_id(a))) by (bit_vector);
    assert(v4_id(a) != 0) by (bit_vector);
    assert(v4_id(a) == v4_id(b) ==> a == b) by (bit_vector);
}

/// The numbers below `n`, as a set.
spec fn numbers_below(n: nat) -> Set<u64> {
    Set::new(|k: u64| k < n)
}

proof fn lemma_numbers_below_len(n: nat)
    requires
        n <= u64::MAX + 1,
    ensures
        numbers_below(n).finite(),
        numbers_below(n).len() == n,
    decreases n,
{
    if n == 0 {
        assert(numbers_below(n) =~= Set::<u64>::empty());
    } else {
        let m = (n - 1) as nat;
        lemma_numbers_below_len(m);
        assert(numbers_below(n) =~= numbers_below(m).insert(m as u64));
    }
}

/// A finite table that holds the version-4 identifiers numbered below `n`
/// holds at least `n` entries.
proof fn lemma_v4_prefix_count<V>(m: Map<u128, V>, n: nat)
    requires
        n <= u64::MAX + 1,
        m.dom().finite(),
        forall|k: u64| k < n ==> m.dom().contains(#[trigger] v4_id(k)),
    ensures
        n <= m.dom().len(),
{
    let f = |k: u64| v4_id(k);
    let x = numbers_below(n);
    let y = x.map(f);
    lemma_numbers_below_len(n);
    assert forall|a: u64, b: u64| x.contains(a) && x.contains(b) && #[trigger] f(a) == #[trigger] f(
        b,
    ) implies a == b by {
        lemma_v4_id(a, b);
    }
    vstd::set_lib::lemma_map_size(x, y, f);
    assert(y.subset_of(m.dom())) by {
        assert forall|u: u128| y.contains(u) implies m.dom().contains(u) by {
            let k = choose|k: u64| x.contains(k) && f(k) == u;
            assert(m.dom().contains(v4_id(k)));
        }
    }
    vstd::set_lib::lemma_len_subset(y, m.dom());
}

/// The state that both directions of a connection share: its bandwidth and
/// the responses it awaits.
pub struct SharedData<W> {
    bandwidth: usize,
    responses: HashMap<u128, Status<W>>,
}

impl<W> SharedData<W> {
    pub closed spec fn bandwidth_of(&self) -> usize {
        self.bandwidth
    }

    pub closed spec fn responses_of(&self) -> Map<u128, StatusView<W>> {
        self.responses@.map_values(|s: Status<W>| s@)
    }

    /// A connection with the given bandwidth that awaits nothing.
    pub fn new(bandwidth: usize) -> (r: SharedData<W>)
        ensures
            r.bandwidth_of() == bandwidth,
            r.responses_of() == Map::<u128, StatusView<W>>::empty(),
    {
        let r = SharedData { bandwidth, responses: HashMap::new() };
        assert(r.responses_of() =~= Map::<u128, StatusView<W>>::empty());
        r
    }

    pub fn bandwidth(&self) -> (r: usize)
        ensures
            r == self.bandwidth_of(),
    {
        self.bandwidth
    }

    /// Forgets every awaited response and hands back the table as it was,
    /// so that the tasks that wait can be woken.
    pub fn clear(&mut self) -> (r: HashMap<u128, Status<W>>)
        ensures
            final(self).bandwidth_of() == old(self).bandwidth_of(),
            final(self).responses_of() == Map::<u128, StatusView<W>>::empty(),
            r@.map_values(|s: Status<W>| s@) == old(self).responses_of(),
    {
        let mut taken: HashMap<u128, Status<W>> = HashMap::new();
        std::mem::swap(&mut taken, &mut self.responses);
        assert(self.responses_of() =~= Map::<u128, StatusView<W>>::empty());
        taken
    }

    /// A fresh identifier, entered as awaited: always of the version-4 shape,
    /// so never the nil identifier 0. Random version-4 identifiers are drawn
    /// until one is not awaited yet; should every one of 2^64 draws be
    /// awaited already, the version-4 identifiers `v4_id(0)`, `v4_id(1)`, ...
    /// are tried in turn, and one that is not awaited is found among the
    /// first `n + 1` of them, for `n` awaited identifiers.
    pub fn generate_uuid(&mut self) -> (r: u128)
        ensures
            final(self).bandwidth_of() == old(self).bandwidth_of(),
            r != 0,
            is_v4(r),
            !old(self).responses_of().contains_key(r),
            final(self).responses_of() == old(self).responses_of().insert(r, StatusView::NotStarted),
    {
        let mut attempts: u64 = 0;
        while attempts < u64::MAX
            invariant
                self.responses == old(self).responses,
                self.bandwidth == old(self).bandwidth,
            decreases u64::MAX - attempts,
        {
            let candidate = random_uuid();
            assert(candidate != 0) by (bit_vector)
                requires
                    (candidate >> 76u128) & 0xfu128 == 4u128,
            ;
            if !self.responses.contains_key(&candidate) {
                self.responses.insert(candidate, Status::NotStarted);
                assert(self.responses_of() =~= old(self).responses_of().insert(
                    candidate,
                    StatusView::NotStarted,
                ));
                return candidate;
            }
            attempts = attempts + 1;
        }
        let count = self.responses.len();
        let mut k: u64 = 0;
        while self.responses.contains_key(&make_v4_id(k))
            invariant
                self.responses == old(self).responses,
                self.bandwidth == old(self).bandwidth,
                count == self.responses@.len(),
                k <= count,
                forall|j: u64| j < k ==> self.responses@.dom().contains(#[trigger] v4_id(j)),
            decreases count - k,
        {
            proof {
                assert forall|j: u64| j < k + 1 implies self.responses@.dom().contains(
                    #[trigger] v4_id(j),
                ) by {
                    if j == k {
                    }
                }
                lemma_v4_prefix_count(self.responses@, (k + 1) as nat);
            }
            k = k + 1;
        }
        let c = make_v4_id(k);
        proof {
            lemma_v4_id(k, k);
        }
        self.responses.insert(c, Status::NotStarted);
        assert(self.responses_of() =~= old(self).responses_of().insert(c, StatusView::NotStarted));
        c
    }

    /// Enters `uuid` as awaited, unless it is already.
    pub fn register_response(&mut self, uuid: u128)
        ensures
            final(self).bandwidth_of() == old(self).bandwidth_of(),
            final(self).responses_of() == registered(old(self).responses_of(), uuid),
    {
        if !self.responses.contains_key(&uuid) {
            self.responses.insert(uuid, Status::NotStarted);
            assert(self.responses_of() =~= old(self).responses_of().insert(uuid, StatusView::NotStarted));
        }
    }

    /// Polls for the reply to `uuid`: `None` where it is not awaited,
    /// `Some(None)` while it is pending, `Some(Some(reply))` once it has
    /// arrived.
    pub fn poll_response(&mut self, uuid: u128, waker: W) -> (r: Option<Option<Vec<u8>>>)
        ensures
            final(self).bandwidth_of() == old(self).bandwidth_of(),
            final(self).responses_of() == polled(old(self).responses_of(), uuid, waker),
            match poll_outcome(old(self).responses_of(), uuid) {
                PollOutcome::Pending => r == Some(None::<Vec<u8>>),
                PollOutcome::Arrived(d) => r matches Some(Some(v)) && v@ == d,
                PollOutcome::NotFound => r is None,
            },
    {
        let ghost m0 = self.responses@;
        match self.responses.remove(&uuid) {
            None => {
                assert(self.responses@ =~= m0);
                None
            },
            Some(Status::NotStarted) => {
                self.responses.insert(uuid, Status::Started(waker));
                assert(self.responses_of() =~= old(self).responses_of().insert(
                    uuid,
                    StatusView::Started(waker),
                ));
                Some(None)
            },
            Some(Status::Started(w)) => {
                self.responses.insert(uuid, Status::Started(w));
                assert(self.responses@ =~= m0);
                Some(None)
            },
            Some(Status::Completed(data)) => {
                self.responses.insert(uuid, Status::Completed(Vec::new()));
                assert(self.responses_of() =~= old(self).responses_of().insert(
                    uuid,
                    StatusView::Completed(seq![]),
                ));
                Some(Some(data))
            },
        }
    }

    /// Takes in the reply `message` to `uuid`. Where `uuid` is awaited the
    /// reply is kept for the task that polls for it; where that task waits
    /// already, its waker is handed back to wake it. A reply to an identifier
    /// that is not awaited is passed over.
    pub fn complete_response(&mut self, uuid: u128, message: Vec<u8>) -> (r: Option<W>)
        ensures
            final(self).bandwidth_of() == old(self).bandwidth_of(),
            final(self).responses_of() == completed(old(self).responses_of(), uuid, message@),
            match r {
                Some(w) => old(self).responses_of().contains_key(uuid) && old(
                    self,
                ).responses_of()[uuid] == StatusView::Started(w),
                None => !(old(self).responses_of().contains_key(uuid) && old(
                    self,
                ).responses_of()[uuid] is Started),
            },
    {
        let ghost m0 = self.responses@;
        match self.responses.remove(&uuid) {
            Some(Status::Started(w)) => {
                self.responses.insert(uuid, Status::Completed(message));
                assert(self.responses_of() =~= old(self).responses_of().insert(
                    uuid,
                    StatusView::Completed(message@),
                ));
                Some(w)
            },
            Some(_) => {
                self.responses.insert(uuid, Status::Completed(message));
                assert(self.responses_of() =~= old(self).responses_of().insert(
                    uuid,
                    StatusView::Completed(message@),
                ));
                None
            },
            None => {
                assert(self.responses@ =~= m0);
                None
            },
        }
    }

    /// Stops awaiting `uuid`.
    pub fn release_response(&mut self, uuid: u128)
        ensures
            final(self).bandwidth_of() == old(self).bandwidth_of(),
            final(self).responses_of() == old(self).responses_of().remove(uuid),
    {
        let _ = self.responses.remove(&uuid);
        assert(self.responses_of() =~= old(self).responses_of().remove(uuid));
    }

    /// The frame that carries `message` whole under `uuid`.
    pub fn send_bytes(&self, uuid: u128, message: Vec<u8>) -> (r: Vec<Vec<u8>>)
        ensures
            frames_view(r@) == seq![oneshot_frame(uuid, message@)],
    {
        let oneshot = Oneshot { field_type: Type::ONESHOT, uuid: uuid_to_bytes(uuid), message };
        let frame = oneshot.write_to_bytes();
        let mut frames: Vec<Vec<u8>> = Vec::new();
        frames.push(frame);
        assert(frames_view(frames@) =~= seq![oneshot_frame(uuid, oneshot.message@)]);
        frames
    }

    /// The frames that carry the (already compressed) `message` under `uuid`
    /// in chunks of the connection's bandwidth.
    pub fn send_large_bytes(&self, uuid: u128, message: Vec<u8>) -> (r: Vec<Vec<u8>>)
        requires
            self.bandwidth_of() > 0,
        ensures
            frames_view(r@) == large_frames(uuid, message@, self.bandwidth_of() as nat),
    {
        let bw = self.bandwidth;
        let ub = uuid_to_bytes(uuid);
        let len = message.len();
        let begin = Begin {
            field_type: Type::BEGIN,
            uuid: slice_to_vec(ub.as_slice()),
            compression: Compression::SNAPPY,
            length: len as u64,
        };
        let mut frames: Vec<Vec<u8>> = Vec::new();
        frames.push(begin.write_to_bytes());
        let ghost data = message@;
        let mut pos: usize = 0;
        let mut seq: u64 = 0;
        assert(data.skip(0) =~= data);
        assert(frames_view(frames@) =~= seq![begin_frame(uuid, len as u64)]);
        while pos < len
            invariant
                bw == self.bandwidth_of(),
                bw > 0,
                len == message@.len(),
                data == message@,
                ub@ == uuid_bytes(uuid),
                pos <= len,
                seq <= pos,
                frames_view(frames@) + chunk_frames(uuid, data.skip(pos as int), bw as nat, seq as nat)
                    == seq![begin_frame(uuid, len as u64)] + chunk_frames(uuid, data, bw as nat, 0),
            decreases len - pos,
        {
            let n = if bw < len - pos {
                bw
            } else {
                len - pos
            };
            let chunk = slice_to_vec(slice_subrange(message.as_slice(), pos, pos + n));
            let process = Process {
                field_type: Type::PROCESS,
                uuid: slice_to_vec(ub.as_slice()),
                seq,
                message: chunk,
            };
            let frame = process.write_to_bytes();
            let ghost before = frames_view(frames@);
            let ghost rest = data.skip(pos as int);
            assert(rest.take(n as int) =~= chunk@);
            assert(rest.skip(n as int) =~= data.skip((pos + n) as int));
            frames.push(frame);
            assert(frames_view(frames@) =~= before.push(frame@));
            assert(chunk_frames(uuid, rest, bw as nat, seq as nat) == seq![
                process_frame(uuid, seq, rest.take(n as int)),
            ] + chunk_frames(uuid, rest.skip(n as int), bw as nat, (seq + 1) as nat));
            assert(frames_view(frames@) + chunk_frames(
                uuid,
                data.skip((pos + n) as int),
                bw as nat,
                (seq + 1) as nat,
            ) =~= before + chunk_frames(uuid, rest, bw as nat, seq as nat));
            pos = pos + n;
            seq = seq + 1;
        }
        let end = End { field_type: Type::END, uuid: ub };
        let ghost before = frames_view(frames@);
        let end_frame_bytes = end.write_to_bytes();
        frames.push(end_frame_bytes);
        proof {
            assert(data.skip(pos as int).len() == 0);
            assert(chunk_frames(uuid, data.skip(pos as int), bw as nat, seq as nat) == Seq::<
                Seq<u8>,
            >::empty());
            assert(before + Seq::<Seq<u8>>::empty() =~= before);
            assert(frames_view(frames@) =~= before.push(end_frame(uuid)));
            assert(frames_view(frames@) =~= large_frames(uuid, data, bw as nat));
        }
        frames
    }

    /// The frames that carry `message` under `uuid`: a single frame when it
    /// is no longer than the bandwidth, else the snappy-compressed message in
    /// chunks. It always succeeds.
    pub fn send(&self, uuid: u128, message: Vec<u8>) -> (r: Result<Vec<Vec<u8>>, Error>)
        requires
            self.bandwidth_of() > 0 || message@.len() == 0,
        ensures
            send_outcome(self.bandwidth_of() as nat, uuid, message@, r),
    {
        if message.len() > self.bandwidth {
            match snappy_compress(message.as_slice()) {
                Some(compressed) if has_stream_identifier(compressed.as_slice()) => {
                    assert(compressed@.len() == compressed.len());
                    Ok(self.send_large_bytes(uuid, compressed))
                },
                _ => Err(Error::InternalError("snappy compression failed".to_owned())),
            }
        } else {
            Ok(self.send_bytes(uuid, message))
        }
    }

    /// Sends `message` as a new request: a fresh identifier is drawn and
    /// entered as awaited, and the frames that carry the message under it are
    /// returned with it.
    pub fn send_request(&mut self, message: Vec<u8>) -> (r: (u128, Result<Vec<Vec<u8>>, Error>))
        requires
            old(self).bandwidth_of() > 0 || message@.len() == 0,
        ensures
            final(self).bandwidth_of() == old(self).bandwidth_of(),
            r.0 != 0,
            is_v4(r.0),
            !old(self).responses_of().contains_key(r.0),
            final(self).responses_of() == old(self).responses_of().insert(r.0, StatusView::NotStarted),
            send_outcome(old(self).bandwidth_of() as nat, r.0, message@, r.1),
    {
        let uuid = self.generate_uuid();
        let frames = self.send(uuid, message);
        (uuid, frames)
    }
}

} // verus!
