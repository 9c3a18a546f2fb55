use vstd::prelude::*;

verus! {

/// Width of one frame: a tag byte followed by two 8-byte integers.
pub const MSG_SIZE: usize = 17;

/// The bytes of `x` in the machine's native byte order.
pub uninterp spec fn ne_bytes(x: u64) -> Seq<u8>;

/// The integer whose native-order bytes are `b`.
pub uninterp spec fn ne_value(b: Seq<u8>) -> u64;

/// Relies on `u64::to_ne_bytes`: the memory representation of `x`, which
/// `u64::from_ne_bytes` turns back into `x`.
#[verifier::external_body]
fn to_ne(x: u64) -> (r: [u8; 8])
    ensures
        r@ == ne_bytes(x),
        ne_value(r@) == x,
{
    x.to_ne_bytes()
}

/// Relies on `u64::from_ne_bytes`: the integer with memory representation `b`.
#[verifier::external_body]
fn from_ne(b: [u8; 8]) -> (r: u64)
    ensures
        r == ne_value(b@),
{
    u64::from_ne_bytes(b)
}

/// The frame holding tag `a` and the integers `b` and `c`.
pub open spec fn frame_of(a: u8, b: u64, c: u64) -> Seq<u8> {
    seq![a] + ne_bytes(b) + ne_bytes(c)
}

/// The tag and the two integers that a frame holds.
pub open spec fn fields_of(s: Seq<u8>) -> (u8, u64, u64) {
    (s[0], ne_value(s.subrange(1, 9)), ne_value(s.subrange(9, 17)))
}

/// Splits a frame into its tag and its two integers.
pub fn unpack(bytes: [u8; MSG_SIZE]) -> (r: (u8, u64, u64))
    ensures
        r == fields_of(bytes@),
{
    let mut a = [0u8; 8];
    let mut b = [0u8; 8];
    let mut i: usize = 0;
    while i < 8
        invariant
            0 <= i <= 8,
            forall|j: int| 0 <= j < i ==> a@[j] == bytes@[1 + j],
            forall|j: int| 0 <= j < i ==> b@[j] == bytes@[9 + j],
        decreases 8 - i,
    {
        a[i] = bytes[1 + i];
        b[i] = bytes[9 + i];
        i = i + 1;
    }
    assert(a@ =~= bytes@.subrange(1, 9));
    assert(b@ =~= bytes@.subrange(9, 17));
    (bytes[0], from_ne(a), from_ne(b))
}

/// Lays out tag `a` and the integers `b` and `c` as one frame.
pub fn pack(a: u8, b: u64, c: u64) -> (r: [u8; MSG_SIZE])
    ensures
        r@ == frame_of(a, b, c),
        fields_of(r@) == (a, b, c),
{
    let bb = to_ne(b);
    let cb = to_ne(c);
    let mut r = [0u8; MSG_SIZE];
    r[0] = a;
    let mut i: usize = 0;
    while i < 8
        invariant
            0 <= i <= 8,
            r@.len() == 17,
            r@[0] == a,
            forall|j: int| 0 <= j < i ==> r@[1 + j] == bb@[j],
            forall|j: int| 0 <= j < i ==> r@[9 + j] == cb@[j],
        decreases 8 - i,
    {
        r[1 + i] = bb[i];
        r[9 + i] = cb[i];
        i = i + 1;
    }
    assert(r@.subrange(1, 9) =~= bb@);
    assert(r@.subrange(9, 17) =~= cb@);
    assert(r@ =~= frame_of(a, b, c));
    r
}

/// Raised when a frame carries a tag outside the protocol.
#[derive(Debug, Clone, Copy, PartialEq, Eq, Structural)]
pub enum WireError {
    ProtocolViolation,
}

/// A request sent from a client to the server.
#[derive(Debug, Clone, Copy, PartialEq, Eq, Structural)]
pub enum Action {
    Insert(u64, u64),
    Delete(u64),
    Get(u64),
}

/// The frame that encodes a request.
pub open spec fn action_frame(a: Action) -> Seq<u8> {
    match a {
        Action::Insert(k, v) => frame_of(0, k, v),
        Action::Delete(k) => frame_of(1, k, 0),
        Action::Get(k) => frame_of(2, k, 0),
    }
}

/// The request that a frame decodes to.
pub open spec fn action_of(s: Seq<u8>) -> Result<Action, WireError> {
    let (a, b, c) = fields_of(s);
    if a == 0 {
        Ok(Action::Insert(b, c))
    } else if a == 1 {
        Ok(Action::Delete(b))
    } else if a == 2 {
        Ok(Action::Get(b))
    } else {
        Err(WireError::ProtocolViolation)
    }
}

impl Action {
    /// Encodes the request; decoding the frame gives the request back.
    pub fn encode(&self) -> (r: [u8; MSG_SIZE])
        ensures
            r@ == action_frame(*self),
            action_of(r@) == Ok::<Action, WireError>(*self),
    {
        match *self {
            Action::Insert(k, v) => pack(0, k, v),
            Action::Delete(k) => pack(1, k, 0),
            Action::Get(k) => pack(2, k, 0),
        }
    }

    /// Decodes a request frame; a tag other than 0, 1 or 2 is a protocol violation.
    pub fn decode(bytes: [u8; MSG_SIZE]) -> (r: Result<Action, WireError>)
        ensures
            r == action_of(bytes@),
    {
        let (a, b, c) = unpack(bytes);
        if a == 0 {
            Ok(Action::Insert(b, c))
        } else if a == 1 {
            Ok(Action::Delete(b))
        } else if a == 2 {
            Ok(Action::Get(b))
        } else {
            Err(WireError::ProtocolViolation)
        }
    }
}

/// The server's answer to a `Get`: the key asked for and its value, if any.
#[derive(Debug, Clone, Copy, PartialEq, Eq, Structural)]
pub struct Response(pub u64, pub Option<u64>);

/// The frame that encodes a response.
pub open spec fn response_frame(r: Response) -> Seq<u8> {
    match r.1 {
        Some(v) => frame_of(1, r.0, v),
        None => frame_of(0, r.0, 0),
    }
}

/// The response that a frame decodes to.
pub open spec fn response_of(s: Seq<u8>) -> Result<Response, WireError> {
    let (a, b, c) = fields_of(s);
    if a == 0 {
        Ok(Response(b, None))
    } else if a == 1 {
        Ok(Response(b, Some(c)))
    } else {
        Err(WireError::ProtocolViolation)
    }
}

impl Response {
    /// Encodes the response; decoding the frame gives the response back.
    pub fn encode(&self) -> (r: [u8; MSG_SIZE])
        ensures
            r@ == response_frame(*self),
            response_of(r@) == Ok::<Response, WireError>(*self),
    {
        match self.1 {
            Some(v) => pack(1, self.0, v),
            None => pack(0, self.0, 0),
        }
    }

    /// Decodes a response frame; a tag other than 0 or 1 is a protocol violation.
    pub fn decode(bytes: [u8; MSG_SIZE]) -> (r: Result<Response, WireError>)
        ensures
            r == response_of(bytes@),
    {
        let (a, b, c) = unpack(bytes);
        if a == 0 {
            Ok(Response(b, None))
        } else if a == 1 {
            Ok(Response(b, Some(c)))
        } else {
            Err(WireError::ProtocolViolation)
        }
    }
}

} // verus!
