use kvs::{
    accept_action, get_engine, parse_engine, AcceptAction, AcceptEvent, Engine, ACCEPT_POLL_MILLIS,
};

#[test]
fn engine_defaults_to_the_recorded_one_then_to_kvs() {
    assert_eq!(get_engine(None, None), Some(Engine::Kvs));
    assert_eq!(get_engine(None, Some(Engine::Sled)), Some(Engine::Sled));
    assert_eq!(get_engine(Some(Engine::Sled), None), Some(Engine::Sled));
    assert_eq!(get_engine(Some(Engine::Kvs), Some(Engine::Kvs)), Some(Engine::Kvs));
    assert_eq!(get_engine(Some(Engine::Sled), Some(Engine::Sled)), Some(Engine::Sled));
}

#[test]
fn engine_mismatch_is_refused() {
    assert_eq!(get_engine(Some(Engine::Kvs), Some(Engine::Sled)), None);
    assert_eq!(get_engine(Some(Engine::Sled), Some(Engine::Kvs)), None);
}

#[test]
fn engine_names_parse_in_any_case() {
    assert_eq!(parse_engine("kvs"), Some(Engine::Kvs));
    assert_eq!(parse_engine("sled"), Some(Engine::Sled));
    assert_eq!(parse_engine("KVS"), Some(Engine::Kvs));
    assert_eq!(parse_engine("Sled"), Some(Engine::Sled));
    assert_eq!(parse_engine(""), None);
    assert_eq!(parse_engine("kv"), None);
    assert_eq!(parse_engine("kvs "), None);
    assert_eq!(parse_engine("sleds"), None);
    assert_eq!(parse_engine("rocks"), None);
}

#[test]
fn engine_names_round_trip() {
    assert_eq!(Engine::Kvs.name(), "kvs");
    assert_eq!(Engine::Sled.name(), "sled");
    assert_eq!(parse_engine(&Engine::Kvs.name()), Some(Engine::Kvs));
    assert_eq!(parse_engine(&Engine::Sled.name()), Some(Engine::Sled));
}

#[test]
fn accept_loop_steps() {
    assert_eq!(accept_action(AcceptEvent::Connection, false), AcceptAction::Serve);
    assert_eq!(accept_action(AcceptEvent::Connection, true), AcceptAction::Serve);
    assert_eq!(
        accept_action(AcceptEvent::WouldBlock, false),
        AcceptAction::Wait { millis: 10 }
    );
    assert_eq!(ACCEPT_POLL_MILLIS, 10);
    assert_eq!(accept_action(AcceptEvent::WouldBlock, true), AcceptAction::Stop);
    assert_eq!(accept_action(AcceptEvent::Failed, false), AcceptAction::Report);
    assert_eq!(accept_action(AcceptEvent::Failed, true), AcceptAction::Report);
}
