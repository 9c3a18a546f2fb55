use shmkv::codec::{Action, Response, MSG_SIZE};
use shmkv::conn::{inbound_index, outbound_index, recv_outcome, send_outcome, Step};
use shmkv::ring::{pop_step, push_step};
use shmkv::slot::{recv_step, reserve_step, submit_expected, submit_must_wait, Poll, FIRST_ID, NONE_ADMITTED};
use shmkv::store::ConcurrentMap;
use shmkv::worker::serve_frame;

const SLOTS: usize = 16;

/// Two rings of frames, driven only through the library's cursor decisions.
struct Rings {
    slots: [[[u8; MSG_SIZE]; SLOTS]; 2],
    read: [usize; 2],
    write: [usize; 2],
    closed: bool,
}

impl Rings {
    fn new() -> Rings {
        Rings { slots: [[[0u8; MSG_SIZE]; SLOTS]; 2], read: [0; 2], write: [0; 2], closed: false }
    }

    fn send(&mut self, host: bool, frame: [u8; MSG_SIZE]) -> bool {
        let b = outbound_index(host);
        let pushed = !self.closed
            && match push_step(self.write[b], self.read[b], SLOTS) {
                Some(next) => {
                    self.slots[b][self.write[b]] = frame;
                    self.write[b] = next;
                    true
                }
                None => false,
            };
        match send_outcome(self.closed, pushed) {
            Step::Return(r) => r,
            Step::Again => panic!("ring unexpectedly full"),
        }
    }

    fn recv(&mut self, host: bool) -> Option<[u8; MSG_SIZE]> {
        let b = inbound_index(host);
        let popped = match pop_step(self.read[b], self.write[b], SLOTS) {
            Some(next) => {
                let f = self.slots[b][self.read[b]];
                self.read[b] = next;
                Some(f)
            }
            None => None,
        };
        let closed = popped.is_none() && self.closed;
        match recv_outcome(popped, closed) {
            Step::Return(r) => r,
            Step::Again => panic!("would block"),
        }
    }
}

#[test]
fn end_to_end_insert_then_get() {
    // registry: the client reserves and publishes id 1; the server admits it
    let (id, _next) = reserve_step(FIRST_ID).unwrap();
    assert_eq!(id, 1);
    let mut current = NONE_ADMITTED;
    assert!(!submit_must_wait(current, id));
    assert_eq!(submit_expected(id), current);
    current = id;
    assert_eq!(recv_step(NONE_ADMITTED, current, false), Poll::Admit(1));

    // connection "1": the client is the host, the server the peer
    let map = ConcurrentMap::new(16);
    let mut conn = Rings::new();
    assert!(conn.send(true, Action::Insert(42, 100).encode()));
    let frame = conn.recv(false).unwrap();
    assert_eq!(serve_frame(&map, frame), Ok(None));
    assert!(conn.send(true, Action::Get(42).encode()));
    let frame = conn.recv(false).unwrap();
    let reply = serve_frame(&map, frame).unwrap().unwrap();
    assert!(conn.send(false, reply));
    let answer = Response::decode(conn.recv(true).unwrap()).unwrap();
    assert_eq!(answer, Response(42, Some(100)));
    assert_eq!(answer.1, Some(100));
}

#[test]
fn close_drains_then_ends() {
    let map = ConcurrentMap::new(4);
    map.insert(42, 7u64);
    let mut conn = Rings::new();
    assert!(conn.send(true, Action::Delete(42).encode()));
    // the client lets go of its handle
    conn.closed = true;
    let frame = conn.recv(false).expect("a frame queued before close is still delivered");
    assert_eq!(Action::decode(frame), Ok(Action::Delete(42)));
    assert_eq!(serve_frame(&map, frame), Ok(None));
    assert_eq!(conn.recv(false), None);
    assert_eq!(map.get(&42), None);
    // nothing more can be sent once closed
    assert!(!conn.send(false, Response(42, None).encode()));
}

#[test]
fn ring_refuses_sixteenth_frame() {
    let mut conn = Rings::new();
    for k in 0..(SLOTS as u64 - 1) {
        assert!(conn.send(true, Action::Get(k).encode()));
    }
    let b = outbound_index(true);
    assert_eq!(push_step(conn.write[b], conn.read[b], SLOTS), None);
    for k in 0..(SLOTS as u64 - 1) {
        assert_eq!(Action::decode(conn.recv(false).unwrap()), Ok(Action::Get(k)));
    }
    assert_eq!(pop_step(conn.read[b], conn.write[b], SLOTS), None);
}

#[test]
fn admission_out_of_order_submissions() {
    // ids 1..=3 reserved; the publisher of 3 must wait for 1 and 2
    let mut current = NONE_ADMITTED;
    assert!(submit_must_wait(current, 3));
    assert!(submit_must_wait(current, 2));
    current = 1;
    assert!(submit_must_wait(current, 3));
    assert!(!submit_must_wait(current, 2));
    current = 2;
    current = if submit_expected(3) == current { 3 } else { current };
    assert_eq!(current, 3);
    let mut last = NONE_ADMITTED;
    let mut seen = Vec::new();
    for _ in 0..5 {
        if let Poll::Admit(id) = recv_step(last, current, false) {
            seen.push(id);
            last = id;
        }
    }
    assert_eq!(seen, vec![1, 2, 3]);
    assert_eq!(recv_step(last, current, true), Poll::Stop);
}
