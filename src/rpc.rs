//! The serial link to the host.
//!
//! `Transport` owns the two byte queues: bytes from the receive register go
//! into the inbound queue (which overwrites its oldest byte when full, so the
//! interrupt never waits), and bytes for the transmit register come from the
//! outbound queue (which refuses bytes when full). `Service` assembles frames
//! from the inbound queue, answers each request, and queues the answer whole
//! or not at all.
use vstd::prelude::*;
use crate::codec::{decode_request, encode_response, request_of_frame, response_frame};
use crate::protocol::{answer, process_request, Request, RequestBody, Response, ResponseBody};
use crate::queue::{
    buffer_clear, buffer_items, buffer_len, buffer_new, buffer_push, buffer_to_vec, push_result,
    ByteQueue, FullPolicy, FRAME_CAPACITY, QUEUE_CAPACITY,
};

verus! {

/// The byte that ends every frame on the wire.
pub const DELIMITER: u8 = 0;

/// What the transmit register did with a byte.
#[derive(Debug, Clone, Copy, PartialEq, Eq, Structural)]
pub enum TxStatus {
    /// The byte was taken.
    Accepted,
    /// There is no room now; try again later.
    WouldBlock,
    /// The peripheral failed.
    Fault,
}

/// A transmit register that never blocks.
pub trait ByteSink {
    /// Offers one byte to the register.
    fn try_write(&mut self, byte: u8) -> TxStatus;
}

/// The serial peripheral reported an error other than "would block"; the
/// link cannot recover from it.
#[derive(Debug, Clone, Copy, PartialEq, Eq, Structural)]
pub struct SerialFault;

/// The state of frame assembly after one byte: the bytes gathered so far,
/// whether an oversized frame is being skipped, and the frame completed by
/// this byte, if any.
///
/// A delimiter completes the gathered bytes, unless there are none (an empty
/// frame, ignored) or the frame outgrew the buffer (it is dropped). Any other
/// byte is gathered; one that does not fit drops the frame and skips the rest
/// of it, up to the next delimiter.
pub open spec fn accept(pending: Seq<u8>, skipping: bool, b: u8) -> (Seq<u8>, bool, Option<Seq<u8>>) {
    if b == DELIMITER {
        if skipping || pending.len() == 0 {
            (Seq::empty(), false, None)
        } else {
            (Seq::empty(), false, Some(pending))
        }
    } else if skipping {
        (pending, true, None)
    } else if pending.len() < FRAME_CAPACITY {
        (pending.push(b), false, None)
    } else {
        (Seq::empty(), true, None)
    }
}

/// The outbound bytes after queueing `bytes` whole, or not at all when they do
/// not fit.
pub open spec fn enqueue_whole(out: Seq<u8>, bytes: Seq<u8>) -> Seq<u8> {
    if out.len() + bytes.len() <= QUEUE_CAPACITY {
        out + bytes
    } else {
        out
    }
}

/// The outbound bytes after answering `frame`: nothing is sent for a frame
/// that holds no request.
pub open spec fn reply(frame: Seq<u8>, out: Seq<u8>) -> Seq<u8> {
    match request_of_frame(frame) {
        Some(request) => match answer(request) {
            Some(response) => match response_frame(response) {
                Some(bytes) => enqueue_whole(out, bytes),
                None => out,
            },
            None => out,
        },
        None => out,
    }
}

/// Gathered bytes, skipping flag and outbound bytes after serving `input`.
pub open spec fn serve(pending: Seq<u8>, skipping: bool, input: Seq<u8>, out: Seq<u8>) -> (
    Seq<u8>,
    bool,
    Seq<u8>,
)
    decreases input.len(),
{
    if input.len() == 0 {
        (pending, skipping, out)
    } else {
        let (p, s, frame) = accept(pending, skipping, input[0]);
        let out2 = match frame {
            Some(f) => reply(f, out),
            None => out,
        };
        serve(p, s, input.drop_first(), out2)
    }
}

/// Gathered bytes, skipping flag, first completed frame and the number of
/// bytes taken from `input` to get there (all of it when no frame completes).
pub open spec fn next_frame(pending: Seq<u8>, skipping: bool, input: Seq<u8>) -> (
    Seq<u8>,
    bool,
    Option<Seq<u8>>,
    nat,
)
    decreases input.len(),
{
    if input.len() == 0 {
        (pending, skipping, None, 0)
    } else {
        let (p, s, frame) = accept(pending, skipping, input[0]);
        if frame is Some {
            (p, s, frame, 1)
        } else {
            let (later_pending, later_skipping, later_frame, n) = next_frame(p, s, input.drop_first());
            (later_pending, later_skipping, later_frame, n + 1)
        }
    }
}

/// Bytes that can form the body of a frame: none of them is the delimiter.
pub open spec fn frame_body(bytes: Seq<u8>) -> bool {
    forall|i: int| 0 <= i < bytes.len() ==> bytes[i] != DELIMITER
}

/// Finishing a frame: with `pending` already gathered, the remaining bytes
/// `f` of the frame and its delimiter leave assembly idle with the whole
/// frame answered, whatever follows.
proof fn lemma_finish_frame(pending: Seq<u8>, f: Seq<u8>, rest: Seq<u8>, out: Seq<u8>)
    requires
        frame_body(f),
        pending.len() + f.len() <= FRAME_CAPACITY,
        pending.len() + f.len() > 0,
    ensures
        serve(pending, false, f + seq![DELIMITER] + rest, out) == serve(
            Seq::empty(),
            false,
            rest,
            reply(pending + f, out),
        ),
    decreases f.len(),
{
    let input = f + seq![DELIMITER] + rest;
    if f.len() == 0 {
        assert(input =~= seq![DELIMITER] + rest);
        assert(input.drop_first() =~= rest);
        assert(pending + f =~= pending);
    } else {
        let next = pending.push(f[0]);
        let tail = f.drop_first();
        assert(input[0] == f[0]);
        assert(input.drop_first() =~= tail + seq![DELIMITER] + rest);
        assert(next + tail =~= pending + f);
        lemma_finish_frame(next, tail, rest, out);
    }
}

/// A complete frame, from idle assembly: a frame body that fits the buffer,
/// then the delimiter, is answered as a whole and leaves assembly idle, so
/// nothing of it reaches the frames that follow.
pub proof fn lemma_serve_frame(frame: Seq<u8>, rest: Seq<u8>, out: Seq<u8>)
    requires
        frame_body(frame),
        0 < frame.len() <= FRAME_CAPACITY,
    ensures
        serve(Seq::empty(), false, frame + seq![DELIMITER] + rest, out) == serve(
            Seq::empty(),
            false,
            rest,
            reply(frame, out),
        ),
{
    lemma_finish_frame(Seq::empty(), frame, rest, out);
    assert(Seq::<u8>::empty() + frame =~= frame);
}

/// A malformed frame followed by a well-formed one yields exactly the answer
/// to the well-formed frame, and assembly ends idle.
pub proof fn lemma_malformed_then_wellformed(bad: Seq<u8>, good: Seq<u8>, out: Seq<u8>)
    requires
        frame_body(bad),
        0 < bad.len() <= FRAME_CAPACITY,
        request_of_frame(bad) is None,
        frame_body(good),
        0 < good.len() <= FRAME_CAPACITY,
    ensures
        serve(Seq::empty(), false, bad + seq![DELIMITER] + good + seq![DELIMITER], out) == (
            Seq::<u8>::empty(),
            false,
            reply(good, out),
        ),
{
    let rest = good + seq![DELIMITER];
    assert(bad + seq![DELIMITER] + good + seq![DELIMITER] =~= bad + seq![DELIMITER] + rest);
    lemma_serve_frame(bad, rest, out);
    assert(reply(bad, out) == out);
    assert(good + seq![DELIMITER] =~= good + seq![DELIMITER] + Seq::<u8>::empty());
    lemma_serve_frame(good, Seq::empty(), out);
}

/// A ping frame with correlation id `id`, sent twice in a row, is answered
/// twice with the same response bytes: the first leaves nothing behind that
/// changes the second.
pub proof fn lemma_repeated_ping(frame: Seq<u8>, id: i32, bytes: Seq<u8>, out: Seq<u8>)
    requires
        frame_body(frame),
        0 < frame.len() <= FRAME_CAPACITY,
        request_of_frame(frame) == Some(Request { correlation_id: id, body: RequestBody::Ping }),
        response_frame(Response { correlation_id: id, body: ResponseBody::Ping }) == Some(bytes),
        out.len() + 2 * bytes.len() <= QUEUE_CAPACITY,
    ensures
        serve(Seq::empty(), false, frame + seq![DELIMITER] + frame + seq![DELIMITER], out) == (
            Seq::<u8>::empty(),
            false,
            out + bytes + bytes,
        ),
{
    let rest = frame + seq![DELIMITER];
    assert(frame + seq![DELIMITER] + frame + seq![DELIMITER] =~= frame + seq![DELIMITER] + rest);
    lemma_serve_frame(frame, rest, out);
    let once = reply(frame, out);
    assert(once == out + bytes);
    assert(rest =~= frame + seq![DELIMITER] + Seq::<u8>::empty());
    lemma_serve_frame(frame, Seq::empty(), once);
}

/// The bytes of an optional frame.
pub open spec fn bytes_of(v: Option<Vec<u8>>) -> Option<Seq<u8>> {
    match v {
        Some(v) => Some(v@),
        None => None,
    }
}

/// The side of the link that moves bytes between the peripheral and the two
/// queues.
pub struct Transport {
    requests: ByteQueue,
    responses: ByteQueue,
}

impl Transport {
    /// Bytes received and not yet taken by the service, oldest first.
    pub closed spec fn inbound(&self) -> Seq<u8> {
        self.requests@
    }

    /// Bytes queued for sending, oldest first.
    pub closed spec fn outbound(&self) -> Seq<u8> {
        self.responses@
    }

    pub closed spec fn wf(&self) -> bool {
        &&& self.requests.wf()
        &&& self.responses.wf()
        &&& self.requests.policy() == FullPolicy::OverwriteOldest
        &&& self.responses.policy() == FullPolicy::Reject
    }

    /// Both queues empty.
    pub fn new() -> (r: Transport)
        ensures
            r.wf(),
            r.inbound() == Seq::<u8>::empty(),
            r.outbound() == Seq::<u8>::empty(),
    {
        Transport {
            requests: ByteQueue::new(FullPolicy::OverwriteOldest),
            responses: ByteQueue::new(FullPolicy::Reject),
        }
    }

    /// Takes one byte from the receive register. The inbound queue drops its
    /// oldest byte when full. The result says whether the byte ends a frame,
    /// so that frame assembly should be scheduled.
    pub fn receive(&mut self, byte: u8) -> (r: bool)
        requires
            old(self).wf(),
        ensures
            final(self).wf(),
            r == (byte == DELIMITER),
            final(self).inbound() == push_result(old(self).inbound(), FullPolicy::OverwriteOldest, byte),
            final(self).outbound() == old(self).outbound(),
    {
        self.requests.push_back(byte);
        byte == DELIMITER
    }

    /// The next byte to hand to the transmit register: the oldest queued one.
    pub fn next_outbound(&self) -> (r: Option<u8>)
        requires
            self.wf(),
        ensures
            self.outbound().len() == 0 ==> r is None,
            self.outbound().len() > 0 ==> r == Some(self.outbound()[0]),
    {
        self.responses.peek_front()
    }

    /// What to do after the register answered `status` for the next byte: a
    /// taken byte leaves the queue and sending goes on (`None`); on "would
    /// block" sending stops cleanly; on a fault it stops with the error. In
    /// both of the latter cases the byte stays queued.
    pub fn after_write(&mut self, status: TxStatus) -> (r: Option<Result<(), SerialFault>>)
        requires
            old(self).wf(),
            old(self).outbound().len() > 0,
        ensures
            final(self).wf(),
            final(self).inbound() == old(self).inbound(),
            status == TxStatus::Accepted ==> r is None && final(self).outbound() == old(
                self,
            ).outbound().drop_first(),
            status == TxStatus::WouldBlock ==> r == Some(Ok::<(), SerialFault>(()))
                && final(self).outbound() == old(self).outbound(),
            status == TxStatus::Fault ==> r == Some(Err::<(), SerialFault>(SerialFault))
                && final(self).outbound() == old(self).outbound(),
    {
        match status {
            TxStatus::Accepted => {
                self.responses.pop_front();
                None
            },
            TxStatus::WouldBlock => Some(Ok(())),
            TxStatus::Fault => Some(Err(SerialFault)),
        }
    }

    /// Hands queued bytes to the transmit register, oldest first, until the
    /// queue is empty or the register would block. Each byte offered is the one
    /// `next_outbound` gives, and `after_write` decides on the answer. `Ok(n)`
    /// tells how many the register took: the first `n` queued bytes, which
    /// leave the queue. On a fault the bytes taken before it stay removed.
    pub fn write_nb<W: ByteSink>(&mut self, tx: &mut W) -> (r: Result<usize, SerialFault>)
        requires
            old(self).wf(),
        ensures
            final(self).wf(),
            final(self).inbound() == old(self).inbound(),
            old(self).outbound().len() == 0 ==> r == Ok::<usize, SerialFault>(0),
            match r {
                Ok(n) => {
                    &&& n <= old(self).outbound().len()
                    &&& final(self).outbound() == old(self).outbound().skip(n as int)
                },
                Err(_) => exists|n: int|
                    {
                        &&& 0 <= n <= old(self).outbound().len()
                        &&& final(self).outbound() == old(self).outbound().skip(n)
                    },
            },
    {
        let ghost start = self.responses@;
        proof {
            self.responses.lemma_bounded();
        }
        let mut sent: usize = 0;
        loop
            invariant
                self.wf(),
                self.inbound() == old(self).inbound(),
                start == old(self).outbound(),
                start.len() <= QUEUE_CAPACITY,
                sent <= start.len(),
                self.outbound() == start.skip(sent as int),
            decreases self.outbound().len(),
        {
            match self.next_outbound() {
                Some(byte) => {
                    let status = tx.try_write(byte);
                    match self.after_write(status) {
                        None => {
                            sent = sent + 1;
                            assert(self.outbound() =~= start.skip(sent as int));
                        },
                        Some(Ok(())) => {
                            return Ok(sent);
                        },
                        Some(Err(fault)) => {
                            return Err(fault);
                        },
                    }
                },
                None => {
                    return Ok(sent);
                },
            }
        }
    }
}

/// The side of the link that assembles frames and answers them.
pub struct Service {
    incomplete: heapless::Vec<u8, 256>,
    skipping: bool,
}

impl Service {
    /// Bytes of the frame being assembled.
    pub closed spec fn pending(&self) -> Seq<u8> {
        buffer_items(self.incomplete)
    }

    /// Whether the rest of an oversized frame is being skipped.
    pub closed spec fn skipping(&self) -> bool {
        self.skipping
    }

    pub closed spec fn wf(&self) -> bool {
        buffer_items(self.incomplete).len() <= FRAME_CAPACITY
    }

    /// No frame in progress.
    pub fn new() -> (r: Service)
        ensures
            r.wf(),
            r.pending() == Seq::<u8>::empty(),
            !r.skipping(),
    {
        Service { incomplete: buffer_new(), skipping: false }
    }

    /// Feeds one byte to frame assembly; returns the frame it completes.
    fn take_byte(&mut self, b: u8) -> (r: Option<Vec<u8>>)
        requires
            old(self).wf(),
        ensures
            final(self).wf(),
            (final(self).pending(), final(self).skipping(), bytes_of(r)) == accept(
                old(self).pending(),
                old(self).skipping(),
                b,
            ),
    {
        if b == DELIMITER {
            if self.skipping || buffer_len(&self.incomplete) == 0 {
                buffer_clear(&mut self.incomplete);
                self.skipping = false;
                None
            } else {
                let frame = buffer_to_vec(&self.incomplete);
                buffer_clear(&mut self.incomplete);
                Some(frame)
            }
        } else if self.skipping {
            None
        } else if buffer_push(&mut self.incomplete, b) {
            None
        } else {
            buffer_clear(&mut self.incomplete);
            self.skipping = true;
            None
        }
    }

    /// Queues `packet` whole on the outbound queue, or nothing when it does
    /// not fit; the result says which.
    pub fn send(&self, link: &mut Transport, packet: &[u8]) -> (r: bool)
        requires
            old(link).wf(),
        ensures
            final(link).wf(),
            final(link).inbound() == old(link).inbound(),
            r == (old(link).outbound().len() + packet@.len() <= QUEUE_CAPACITY),
            final(link).outbound() == enqueue_whole(old(link).outbound(), packet@),
    {
        let used = link.responses.len();
        if packet.len() > QUEUE_CAPACITY - used {
            return false;
        }
        let ghost start = link.outbound();
        let mut i: usize = 0;
        while i < packet.len()
            invariant
                link.wf(),
                link.inbound() == old(link).inbound(),
                start == old(link).outbound(),
                start.len() + packet@.len() <= QUEUE_CAPACITY,
                i <= packet@.len(),
                link.outbound() == start + packet@.subrange(0, i as int),
            decreases packet@.len() - i,
        {
            link.responses.push_back(packet[i]);
            i = i + 1;
            assert(link.outbound() =~= start + packet@.subrange(0, i as int));
        }
        assert(packet@.subrange(0, packet@.len() as int) =~= packet@);
        true
    }

    /// Queues the encoded response whole, or nothing; the result says whether
    /// it was queued.
    pub fn response(&self, link: &mut Transport, response: &Response) -> (r: bool)
        requires
            old(link).wf(),
        ensures
            final(link).wf(),
            final(link).inbound() == old(link).inbound(),
            final(link).outbound() == match response_frame(*response) {
                Some(bytes) => enqueue_whole(old(link).outbound(), bytes),
                None => old(link).outbound(),
            },
            r == match response_frame(*response) {
                Some(bytes) => old(link).outbound().len() + bytes.len() <= QUEUE_CAPACITY,
                None => false,
            },
    {
        match encode_response(response) {
            Some(bytes) => self.send(link, bytes.as_slice()),
            None => false,
        }
    }

    /// Answers one complete frame.
    fn dispatch(&self, link: &mut Transport, frame: &Vec<u8>)
        requires
            old(link).wf(),
        ensures
            final(link).wf(),
            final(link).inbound() == old(link).inbound(),
            final(link).outbound() == reply(frame@, old(link).outbound()),
    {
        match decode_request(frame) {
            Some(request) => match process_request(request) {
                Some(response) => {
                    self.response(link, &response);
                },
                None => {},
            },
            None => {},
        }
    }

    /// Takes inbound bytes until a frame completes and returns that frame,
    /// ending with its delimiter, or `None` once the inbound queue is empty.
    pub fn recv(&mut self, link: &mut Transport) -> (r: Option<Vec<u8>>)
        requires
            old(self).wf(),
            old(link).wf(),
        ensures
            final(self).wf(),
            final(link).wf(),
            final(link).outbound() == old(link).outbound(),
            ({
                let (p, s, frame, n) = next_frame(old(self).pending(), old(self).skipping(), old(link).inbound());
                &&& final(self).pending() == p
                &&& final(self).skipping() == s
                &&& bytes_of(r) == match frame {
                    Some(f) => Some(f.push(DELIMITER)),
                    None => None,
                }
                &&& final(link).inbound() == old(link).inbound().skip(n as int)
            }),
    {
        let ghost start = link.inbound();
        let ghost mut taken: nat = 0;
        loop
            invariant
                self.wf(),
                link.wf(),
                link.outbound() == old(link).outbound(),
                start == old(link).inbound(),
                taken <= start.len(),
                link.inbound() == start.skip(taken as int),
                ({
                    let (p, s, frame, n) = next_frame(self.pending(), self.skipping(), link.inbound());
                    next_frame(old(self).pending(), old(self).skipping(), start) == (p, s, frame, n + taken)
                }),
            decreases link.inbound().len(),
        {
            let ghost before = link.inbound();
            match link.requests.pop_front() {
                Some(b) => {
                    proof {
                        taken = taken + 1;
                    }
                    assert(link.inbound() =~= start.skip(taken as int));
                    assert(before[0] == b && link.inbound() == before.drop_first());
                    match self.take_byte(b) {
                        Some(frame) => {
                            let mut frame = frame;
                            frame.push(DELIMITER);
                            return Some(frame);
                        },
                        None => {},
                    }
                },
                None => {
                    return None;
                },
            }
        }
    }

    /// Serves every byte in the inbound queue: each complete frame that holds
    /// a request is answered, and the answer is queued whole or not at all.
    /// Malformed and empty frames are dropped without an answer.
    pub fn process(&mut self, link: &mut Transport)
        requires
            old(self).wf(),
            old(link).wf(),
        ensures
            final(self).wf(),
            final(link).wf(),
            final(link).inbound() == Seq::<u8>::empty(),
            (final(self).pending(), final(self).skipping(), final(link).outbound()) == serve(
                old(self).pending(),
                old(self).skipping(),
                old(link).inbound(),
                old(link).outbound(),
            ),
    {
        loop
            invariant
                self.wf(),
                link.wf(),
                serve(self.pending(), self.skipping(), link.inbound(), link.outbound()) == serve(
                    old(self).pending(),
                    old(self).skipping(),
                    old(link).inbound(),
                    old(link).outbound(),
                ),
            decreases link.inbound().len(),
        {
            let ghost before = link.inbound();
            match link.requests.pop_front() {
                Some(b) => {
                    assert(before[0] == b && link.inbound() == before.drop_first());
                    match self.take_byte(b) {
                        Some(frame) => self.dispatch(link, &frame),
                        None => {},
                    }
                },
                None => {
                    return;
                },
            }
        }
    }
}

/// The link before it is split into its two sides.
pub struct Rpc {
    transport: Transport,
    service: Service,
}

impl Rpc {
    /// The two sides that `split` hands out.
    pub closed spec fn parts(&self) -> (Transport, Service) {
        (self.transport, self.service)
    }

    /// Empty queues and no frame in progress.
    pub fn new() -> (r: Rpc)
        ensures
            r.parts().0.wf(),
            r.parts().1.wf(),
            r.parts().0.inbound() == Seq::<u8>::empty(),
            r.parts().0.outbound() == Seq::<u8>::empty(),
            r.parts().1.pending() == Seq::<u8>::empty(),
            !r.parts().1.skipping(),
    {
        Rpc { transport: Transport::new(), service: Service::new() }
    }

    /// Hands out the transport side (for interrupt context) and the service
    /// side (for task context).
    pub fn split(self) -> (r: (Transport, Service))
        ensures
            r == self.parts(),
    {
        (self.transport, self.service)
    }
}

impl Default for Rpc {
    /// The same as `Rpc::new`.
    fn default() -> (r: Rpc)
        ensures
            r.parts().0.wf(),
            r.parts().1.wf(),
            r.parts().0.inbound() == Seq::<u8>::empty(),
            r.parts().0.outbound() == Seq::<u8>::empty(),
            r.parts().1.pending() == Seq::<u8>::empty(),
            !r.parts().1.skipping(),
    {
        Rpc::new()
    }
}

} // verus!
