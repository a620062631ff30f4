//! Replies: the state of each awaited response, the message that arrived,
//! and the future that waits for the reply to a message.

use crate::error::Error;
use crate::shared::SharedData;
use vstd::prelude::*;

verus! {

/// Where the reply to a sent message stands. `W` is what wakes the task
/// that waits for it.
pub enum Status<W> {
    /// Nobody waits yet.
    NotStarted,
    /// A task waits, and is woken with this.
    Started(W),
    /// The reply has arrived.
    Completed(Vec<u8>),
}

pub ghost enum StatusView<W> {
    NotStarted,
    Started(W),
    Completed(Seq<u8>),
}

impl<W> View for Status<W> {
    type V = StatusView<W>;

    open spec fn view(&self) -> StatusView<W> {
        match self {
            Status::NotStarted => StatusView::NotStarted,
            Status::Started(w) => StatusView::Started(*w),
            Status::Completed(d) => StatusView::Completed(d@),
        }
    }
}

/// A message that has arrived, with the identifier it came under.
pub struct Response {
    uuid: u128,
    data: Vec<u8>,
}

impl Response {
    pub fn new(uuid: u128, data: Vec<u8>) -> (r: Response)
        ensures
            r.uuid_spec() == uuid,
            r.data_spec() == data@,
    {
        Response { uuid, data }
    }

    pub closed spec fn uuid_spec(&self) -> u128 {
        self.uuid
    }

    pub closed spec fn data_spec(&self) -> Seq<u8> {
        self.data@
    }

    /// The identifier that the message came under.
    pub fn uuid(&self) -> (r: u128)
        ensures
            r == self.uuid_spec(),
    {
        self.uuid
    }

    /// The bytes of the message.
    pub fn to_vec(&self) -> (r: &Vec<u8>)
        ensures
            r@ == self.data_spec(),
    {
        &self.data
    }

    /// Prepares the reply `message` to this one: the reply goes under the
    /// same identifier, which is entered among the awaited responses unless
    /// it is there already. Returns the frames to send, as `SharedData::send`
    /// does.
    pub fn reply<W>(&self, shared: &mut SharedData<W>, message: Vec<u8>) -> (r: Result<
        Vec<Vec<u8>>,
        Error,
    >)
        requires
            old(shared).bandwidth_of() > 0 || message@.len() == 0,
        ensures
            final(shared).bandwidth_of() == old(shared).bandwidth_of(),
            final(shared).responses_of() == crate::shared::registered(
                old(shared).responses_of(),
                self.uuid_spec(),
            ),
            crate::shared::send_outcome(
                old(shared).bandwidth_of() as nat,
                self.uuid_spec(),
                message@,
                r,
            ),
    {
        shared.register_response(self.uuid);
        shared.send(self.uuid, message)
    }
}

/// What polling for a reply finds.
pub enum PollResult {
    /// The reply has not arrived; the task will be woken when it does.
    Pending,
    /// The reply, or the error that ends the wait.
    Ready(Result<Response, Error>),
}

/// Waits for the reply to the message sent under `uuid`.
pub struct ResponseFuture {
    uuid: u128,
}

impl ResponseFuture {
    pub fn new(uuid: u128) -> (r: ResponseFuture)
        ensures
            r.uuid_spec() == uuid,
    {
        ResponseFuture { uuid }
    }

    pub closed spec fn uuid_spec(&self) -> u128 {
        self.uuid
    }

    /// The identifier whose reply this waits for.
    pub fn uuid(&self) -> (r: u128)
        ensures
            r == self.uuid_spec(),
    {
        self.uuid
    }

    /// Looks for the reply. With nobody waiting yet, the task is entered as
    /// waiting (woken with `waker`) and the reply is pending; while it waits
    /// the reply stays pending; once it has arrived it is handed out (and
    /// taken out of the table's entry); for an identifier that is not
    /// awaited the result is `NotFound`.
    pub fn poll<W>(&self, shared: &mut SharedData<W>, waker: W) -> (r: PollResult)
        ensures
            final(shared).bandwidth_of() == old(shared).bandwidth_of(),
            final(shared).responses_of() == crate::shared::polled(
                old(shared).responses_of(),
                self.uuid_spec(),
                waker,
            ),
            match crate::shared::poll_outcome(old(shared).responses_of(), self.uuid_spec()) {
                crate::shared::PollOutcome::Pending => r is Pending,
                crate::shared::PollOutcome::Arrived(d) => r matches PollResult::Ready(Ok(resp))
                    && resp.uuid_spec() == self.uuid_spec() && resp.data_spec() == d,
                crate::shared::PollOutcome::NotFound => r matches PollResult::Ready(
                    Err(Error::NotFound()),
                ),
            },
    {
        match shared.poll_response(self.uuid, waker) {
            Some(Some(data)) => PollResult::Ready(Ok(Response::new(self.uuid, data))),
            Some(None) => PollResult::Pending,
            None => PollResult::Ready(Err(Error::NotFound())),
        }
    }

    /// Stops waiting: the identifier leaves the awaited responses.
    pub fn release<W>(&self, shared: &mut SharedData<W>)
        ensures
            final(shared).bandwidth_of() == old(shared).bandwidth_of(),
            final(shared).responses_of() == old(shared).responses_of().remove(self.uuid_spec()),
    {
        shared.release_response(self.uuid);
    }
}

} // verus!
