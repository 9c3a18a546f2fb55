use shmkv::codec::{pack, Action, Response, WireError};
use shmkv::store::{ConcurrentMap, SimpleHash};
use shmkv::worker::serve_frame;

#[test]
fn map_insert_then_get() {
    let map = ConcurrentMap::new(4);
    map.insert(42, 100u64);
    assert_eq!(map.get(&42), Some(100));
}

#[test]
fn map_overwrite() {
    let map = ConcurrentMap::new(4);
    map.insert(42, 1u64);
    map.insert(42, 2);
    assert_eq!(map.get(&42), Some(2));
}

#[test]
fn map_remove_then_get() {
    let map = ConcurrentMap::new(3);
    map.insert(42, 1u64);
    map.insert(45, 7);
    map.remove(&42);
    assert_eq!(map.get(&42), None);
    assert_eq!(map.get(&45), Some(7));
    map.remove(&1000);
    assert_eq!(map.get(&1000), None);
}

#[test]
fn map_single_bucket_and_many_keys() {
    let map = ConcurrentMap::new(1);
    for k in 0..100u64 {
        map.insert(k * 7, k);
    }
    for k in 0..100u64 {
        assert_eq!(map.get(&(k * 7)), Some(k));
    }
    assert_eq!(map.get(&1), None);
}

#[test]
fn hash_is_identity() {
    assert_eq!(17u64.hash(), 17usize);
    assert_eq!(0u64.hash(), 0usize);
}

#[test]
fn serve_insert_get_delete() {
    let map = ConcurrentMap::new(8);
    assert_eq!(serve_frame(&map, Action::Insert(42, 100).encode()), Ok(None));
    let reply = serve_frame(&map, Action::Get(42).encode()).unwrap().unwrap();
    assert_eq!(Response::decode(reply), Ok(Response(42, Some(100))));
    assert_eq!(serve_frame(&map, Action::Delete(42).encode()), Ok(None));
    let reply = serve_frame(&map, Action::Get(42).encode()).unwrap().unwrap();
    assert_eq!(Response::decode(reply), Ok(Response(42, None)));
}

#[test]
fn serve_refuses_bad_tag() {
    let map = ConcurrentMap::new(2);
    assert_eq!(serve_frame(&map, pack(9, 42, 1)), Err(WireError::ProtocolViolation));
    assert_eq!(map.get(&42), None);
}
