use vstd::prelude::*;
use crate::codec::{action_of, Action, Response, WireError, MSG_SIZE, response_frame};
use crate::store::ConcurrentMap;

verus! {

/// Serves one request frame against the store: an insert or a delete is
/// applied and answered by nothing, a get is answered by the frame of the
/// response that echoes its key. A frame with a tag outside the protocol is
/// refused and leaves the store alone.
pub fn serve_frame(map: &ConcurrentMap<u64>, frame: [u8; MSG_SIZE]) -> (r: Result<
    Option<[u8; MSG_SIZE]>,
    WireError,
>)
    requires
        map.wf(),
    ensures
        action_of(frame@) is Err <==> r is Err,
        r is Err ==> r == Err::<Option<[u8; MSG_SIZE]>, WireError>(WireError::ProtocolViolation),
        action_of(frame@) matches Ok(Action::Insert(_, _)) ==> r == Ok::<
            Option<[u8; MSG_SIZE]>,
            WireError,
        >(None),
        action_of(frame@) matches Ok(Action::Delete(_)) ==> r == Ok::<
            Option<[u8; MSG_SIZE]>,
            WireError,
        >(None),
        action_of(frame@) matches Ok(Action::Get(k)) ==> r is Ok && r->Ok_0 is Some && exists|
            v: Option<u64>,
        | r->Ok_0->Some_0@ == #[trigger] response_frame(Response(k, v)),
{
    match Action::decode(frame) {
        Err(e) => Err(e),
        Ok(Action::Insert(k, v)) => {
            map.insert(k, v);
            Ok(None)
        },
        Ok(Action::Delete(k)) => {
            map.remove(&k);
            Ok(None)
        },
        Ok(Action::Get(k)) => {
            let resp = Response(k, map.get(&k));
            Ok(Some(resp.encode()))
        },
    }
}

} // verus!
