use microcontroller::codec::{decode_request, encode_response, request_from_pair};
use microcontroller::protocol::{process_request, Request, RequestBody, Response, ResponseBody};
use microcontroller::queue::{ByteQueue, FullPolicy, QUEUE_CAPACITY};
use microcontroller::rpc::{ByteSink, Rpc, SerialFault, Service, Transport, TxStatus};

struct Wire {
    sent: Vec<u8>,
    room: usize,
    fail: bool,
}

impl Wire {
    fn open() -> Wire {
        Wire { sent: Vec::new(), room: usize::MAX, fail: false }
    }
}

impl ByteSink for Wire {
    fn try_write(&mut self, byte: u8) -> TxStatus {
        if self.fail {
            TxStatus::Fault
        } else if self.room == 0 {
            TxStatus::WouldBlock
        } else {
            self.room -= 1;
            self.sent.push(byte);
            TxStatus::Accepted
        }
    }
}

fn ping_frame(id: i32) -> Vec<u8> {
    postcard::to_allocvec_cobs(&(id, 0u32)).unwrap()
}

fn feed(link: &mut Transport, bytes: &[u8]) -> bool {
    let mut boundary = false;
    for b in bytes {
        boundary = link.receive(*b);
    }
    boundary
}

fn run(link: &mut Transport, service: &mut Service) -> Vec<u8> {
    service.process(link);
    let mut wire = Wire::open();
    link.write_nb(&mut wire).unwrap();
    wire.sent
}

fn responses_in(bytes: &[u8]) -> Vec<(i32, u32)> {
    let mut out = Vec::new();
    for chunk in bytes.split(|b| *b == 0) {
        if chunk.is_empty() {
            continue;
        }
        let mut frame = chunk.to_vec();
        out.push(postcard::from_bytes_cobs::<(i32, u32)>(&mut frame).unwrap());
    }
    out
}

#[test]
fn handler_echoes_correlation_id() {
    for id in [0, 1, 7, -1, i32::MIN, i32::MAX] {
        let request = Request { correlation_id: id, body: RequestBody::Ping };
        assert_eq!(
            process_request(request),
            Some(Response { correlation_id: id, body: ResponseBody::Ping })
        );
    }
}

#[test]
fn response_frame_round_trips() {
    for id in [0, 1, 7, -1, 300, i32::MIN, i32::MAX] {
        let bytes = encode_response(&Response { correlation_id: id, body: ResponseBody::Ping }).unwrap();
        assert_eq!(*bytes.last().unwrap(), 0);
        assert!(bytes[..bytes.len() - 1].iter().all(|b| *b != 0));
        let frame = bytes[..bytes.len() - 1].to_vec();
        assert_eq!(
            decode_request(&frame),
            Some(Request { correlation_id: id, body: RequestBody::Ping })
        );
    }
}

#[test]
fn response_frame_matches_wire_layout() {
    // correlation id 7 is zig-zag 14, body index 0: stuffed as 02 0e 01 00
    let bytes = encode_response(&Response { correlation_id: 7, body: ResponseBody::Ping }).unwrap();
    assert_eq!(bytes, vec![0x02, 0x0e, 0x01, 0x00]);
}

#[test]
fn unknown_body_index_is_no_request() {
    assert_eq!(request_from_pair(Some((5, 1))), None);
    assert_eq!(request_from_pair(None), None);
    assert_eq!(
        request_from_pair(Some((5, 0))),
        Some(Request { correlation_id: 5, body: RequestBody::Ping })
    );
}

#[test]
fn reject_queue_refuses_when_full() {
    let mut q = ByteQueue::new(FullPolicy::Reject);
    for i in 0..QUEUE_CAPACITY {
        assert!(q.push_back(i as u8));
    }
    assert!(!q.push_back(0xaa));
    assert_eq!(q.len(), QUEUE_CAPACITY);
    assert_eq!(q.peek_front(), Some(0));
    assert_eq!(q.pop_front(), Some(0));
    assert_eq!(q.pop_front(), Some(1));
}

#[test]
fn overwrite_queue_drops_oldest() {
    let mut q = ByteQueue::new(FullPolicy::OverwriteOldest);
    for i in 0..QUEUE_CAPACITY {
        assert!(q.push_back(i as u8));
    }
    assert!(q.push_back(0xaa));
    assert_eq!(q.len(), QUEUE_CAPACITY);
    assert_eq!(q.pop_front(), Some(1));
    let mut last = None;
    while let Some(b) = q.pop_front() {
        last = Some(b);
    }
    assert_eq!(last, Some(0xaa));
    assert_eq!(q.pop_front(), None);
    assert_eq!(q.peek_front(), None);
}

#[test]
fn delimiter_signals_frame_boundary() {
    let mut link = Transport::new();
    assert!(!link.receive(5));
    assert!(link.receive(0));
}

#[test]
fn ping_is_answered_with_same_id() {
    let (mut link, mut service) = Rpc::new().split();
    assert!(feed(&mut link, &ping_frame(7)));
    let sent = run(&mut link, &mut service);
    assert_eq!(sent, ping_frame(7));
    assert_eq!(responses_in(&sent), vec![(7, 0)]);
}

#[test]
fn repeated_ping_is_answered_independently() {
    let (mut link, mut service) = Rpc::new().split();
    feed(&mut link, &ping_frame(7));
    let first = run(&mut link, &mut service);
    feed(&mut link, &ping_frame(7));
    let second = run(&mut link, &mut service);
    assert_eq!(first, ping_frame(7));
    assert_eq!(second, ping_frame(7));
}

#[test]
fn two_pings_in_one_batch() {
    let (mut link, mut service) = Rpc::new().split();
    feed(&mut link, &ping_frame(7));
    feed(&mut link, &ping_frame(7));
    let sent = run(&mut link, &mut service);
    assert_eq!(responses_in(&sent), vec![(7, 0), (7, 0)]);
}

#[test]
fn corrupted_frame_then_good_frame_gives_one_response() {
    let (mut link, mut service) = Rpc::new().split();
    // a stuffing code that points past the end of the frame
    feed(&mut link, &[0x09, 0x01, 0x00]);
    feed(&mut link, &ping_frame(42));
    let sent = run(&mut link, &mut service);
    assert_eq!(responses_in(&sent), vec![(42, 0)]);
}

#[test]
fn unknown_body_gets_no_response() {
    let (mut link, mut service) = Rpc::new().split();
    feed(&mut link, &postcard::to_allocvec_cobs(&(3i32, 1u32)).unwrap());
    assert!(run(&mut link, &mut service).is_empty());
}

#[test]
fn empty_frames_are_ignored() {
    let (mut link, mut service) = Rpc::new().split();
    feed(&mut link, &[0, 0, 0]);
    assert!(run(&mut link, &mut service).is_empty());
    feed(&mut link, &ping_frame(1));
    assert_eq!(responses_in(&run(&mut link, &mut service)), vec![(1, 0)]);
}

#[test]
fn oversized_frame_is_dropped_and_link_resynchronizes() {
    let (mut link, mut service) = Rpc::new().split();
    feed(&mut link, &[0x11; 200]);
    service.process(&mut link);
    feed(&mut link, &[0x11; 200]);
    feed(&mut link, &[0]);
    feed(&mut link, &ping_frame(9));
    let sent = run(&mut link, &mut service);
    assert_eq!(responses_in(&sent), vec![(9, 0)]);
}

#[test]
fn recv_returns_frame_with_delimiter() {
    let (mut link, mut service) = Rpc::new().split();
    feed(&mut link, &[0, 1, 2, 0, 3]);
    assert_eq!(service.recv(&mut link), Some(vec![1, 2, 0]));
    assert_eq!(service.recv(&mut link), None);
    feed(&mut link, &[4, 0]);
    assert_eq!(service.recv(&mut link), Some(vec![3, 4, 0]));
}

#[test]
fn send_is_all_or_nothing() {
    let (mut link, service) = Rpc::new().split();
    assert!(service.send(&mut link, &[1u8; 200]));
    assert!(!service.send(&mut link, &[2u8; 56]));
    assert!(service.send(&mut link, &[3u8; 55]));
    let mut wire = Wire::open();
    assert_eq!(link.write_nb(&mut wire), Ok(255));
    assert_eq!(wire.sent.len(), 255);
    assert_eq!(wire.sent[199], 1);
    assert_eq!(wire.sent[200], 3);
}

#[test]
fn response_is_queued_whole() {
    let (mut link, service) = Rpc::new().split();
    assert!(service.response(&mut link, &Response { correlation_id: 7, body: ResponseBody::Ping }));
    let mut wire = Wire::open();
    assert_eq!(link.write_nb(&mut wire), Ok(4));
    assert_eq!(wire.sent, ping_frame(7));
}

#[test]
fn write_stops_when_register_would_block() {
    let (mut link, service) = Rpc::new().split();
    service.send(&mut link, &[1, 2, 3, 4]);
    let mut wire = Wire { sent: Vec::new(), room: 3, fail: false };
    assert_eq!(link.write_nb(&mut wire), Ok(3));
    assert_eq!(wire.sent, vec![1, 2, 3]);
    wire.room = 10;
    assert_eq!(link.write_nb(&mut wire), Ok(1));
    assert_eq!(wire.sent, vec![1, 2, 3, 4]);
    assert_eq!(link.write_nb(&mut wire), Ok(0));
}

#[test]
fn write_reports_peripheral_fault() {
    let (mut link, service) = Rpc::new().split();
    service.send(&mut link, &[1, 2]);
    let mut wire = Wire { sent: Vec::new(), room: 10, fail: true };
    assert_eq!(link.write_nb(&mut wire), Err(SerialFault));
}

#[test]
fn default_link_is_empty() {
    let (mut link, mut service) = Rpc::default().split();
    assert!(run(&mut link, &mut service).is_empty());
    assert_eq!(service.recv(&mut link), None);
}

#[test]
fn write_on_empty_queue_is_ok_zero() {
    let (mut link, _service) = Rpc::new().split();
    let mut wire = Wire { sent: Vec::new(), room: 10, fail: true };
    assert_eq!(link.write_nb(&mut wire), Ok(0));
    assert!(wire.sent.is_empty());
}

#[test]
fn write_steps_decide_per_status() {
    let (mut link, service) = Rpc::new().split();
    assert_eq!(link.next_outbound(), None);
    service.send(&mut link, &[5, 6]);
    assert_eq!(link.next_outbound(), Some(5));
    assert_eq!(link.after_write(TxStatus::WouldBlock), Some(Ok(())));
    assert_eq!(link.next_outbound(), Some(5));
    assert_eq!(link.after_write(TxStatus::Fault), Some(Err(SerialFault)));
    assert_eq!(link.next_outbound(), Some(5));
    assert_eq!(link.after_write(TxStatus::Accepted), None);
    assert_eq!(link.next_outbound(), Some(6));
}

#[test]
fn drain_removes_a_range() {
    let mut q = ByteQueue::new(FullPolicy::Reject);
    for b in 1..=6u8 {
        q.push_back(b);
    }
    assert_eq!(q.drain(1, 4), vec![2, 3, 4]);
    assert_eq!(q.len(), 3);
    assert_eq!(q.pop_front(), Some(1));
    assert_eq!(q.pop_front(), Some(5));
    assert_eq!(q.pop_front(), Some(6));
    assert_eq!(q.drain(0, 0), Vec::<u8>::new());
}
