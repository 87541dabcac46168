use salus::{
    Input, InputMarker, InternalServerError, IntoNonGenericHandler, Json, State, StateMap,
    StoredInput,
};
use std::any::TypeId;

#[test]
fn stored_input_keeps_the_latest_update() {
    let mut input = StoredInput::new(1);
    assert_eq!(input.0, 1);
    input.on_update(5);
    assert_eq!(input.0, 5);
    let fresh: StoredInput<i32> = StoredInput::default();
    assert_eq!(fresh.0, 0);
}

#[test]
fn plain_input_keeps_nothing() {
    let mut input: Input<i32> = Input::new();
    input.on_update(5);
    let mut other: Input<String> = Input::default();
    other.on_update("x".to_string());
    assert_eq!(std::mem::size_of::<Input<String>>(), 0);
}

#[test]
fn json_wraps_its_payload() {
    let j: Json<Vec<u8>> = vec![1, 2].into();
    assert_eq!(j.0, vec![1, 2]);
    assert_eq!(j.len(), 2);
    assert_eq!(*Json::from(7u8), 7);
}

#[test]
fn state_is_shared_between_handles() {
    let state = State::new(std::sync::Mutex::new(0));
    let other = state.share();
    *other.lock().unwrap() += 1;
    assert_eq!(*state.lock().unwrap(), 1);
}

#[test]
fn wrapper_holds_the_handler() {
    let h: IntoNonGenericHandler<u8, ()> = IntoNonGenericHandler::new(3);
    assert_eq!(*h.handler(), 3);
    assert_eq!(InternalServerError("boom".to_string()).0, "boom");
}

#[test]
fn state_map_keeps_one_value_for_each_type() {
    let mut map: StateMap<&str> = StateMap::new();
    assert_eq!(map.get(TypeId::of::<u8>()), None);
    map.insert(TypeId::of::<u8>(), "a byte");
    map.insert(TypeId::of::<String>(), "a string");
    map.insert(TypeId::of::<Vec<u8>>(), "bytes");
    assert_eq!(map.get(TypeId::of::<String>()), Some(&"a string"));
    assert_eq!(map.get(TypeId::of::<u8>()), Some(&"a byte"));
    assert_eq!(map.get(TypeId::of::<Vec<u8>>()), Some(&"bytes"));
    assert_eq!(map.get(TypeId::of::<u16>()), None);
}
