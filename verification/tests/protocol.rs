use kvs::{
    ack_response, ack_result, get_output, get_response, get_result, remove_output, serve_request,
    KvsEngine, KvsError, Request, Response,
};
use std::cell::RefCell;
use std::collections::HashMap;

struct MemoryEngine {
    map: RefCell<HashMap<String, String>>,
}

impl KvsEngine for MemoryEngine {
    fn set(&self, key: String, value: String) -> Result<(), KvsError> {
        self.map.borrow_mut().insert(key, value);
        Ok(())
    }

    fn get(&self, key: String) -> Result<Option<String>, KvsError> {
        Ok(self.map.borrow().get(&key).cloned())
    }

    fn remove(&self, key: String) -> Result<(), KvsError> {
        match self.map.borrow_mut().remove(&key) {
            Some(_) => Ok(()),
            None => Err(KvsError::KeyNotFound),
        }
    }
}

#[test]
fn error_messages() {
    assert_eq!(KvsError::KeyNotFound.message(), "Key not found");
    assert_eq!(KvsError::UnexpectedCommandType.message(), "Get unexpected command type");
    let io = std::io::Error::new(std::io::ErrorKind::Other, "disk");
    assert_eq!(KvsError::Io(io).message(), "Io error");
    let utf8 = String::from_utf8(vec![0xff]).unwrap_err();
    assert_eq!(KvsError::FromUtf8(utf8).message(), "From utf8 error");
    let json = serde_json::from_str::<String>("{").unwrap_err();
    assert_eq!(KvsError::SerdeJson(json).message(), "Serde json error");
    assert_eq!(KvsError::Sled(sled::Error::Unsupported("x".to_string())).message(), "Sled error");
    assert_eq!(KvsError::StringError("boom".to_string()).message(), "String error `boom`");
}

#[test]
fn responses_carry_the_outcome_or_the_message() {
    assert_eq!(get_response(Ok(Some("v".to_string()))), Ok(Some("v".to_string())));
    assert_eq!(get_response(Ok(None)), Ok(None));
    assert_eq!(
        get_response(Err(KvsError::UnexpectedCommandType)),
        Err("Get unexpected command type".to_string())
    );
    assert_eq!(ack_response(Ok(())), Ok(()));
    assert_eq!(ack_response(Err(KvsError::KeyNotFound)), Err("Key not found".to_string()));
}

#[test]
fn results_on_the_client_side() {
    assert!(matches!(get_result(Ok(Some("v".to_string()))), Ok(Some(v)) if v == "v"));
    assert!(matches!(get_result(Ok(None)), Ok(None)));
    assert!(
        matches!(get_result(Err("Key not found".to_string())), Err(KvsError::StringError(t)) if t == "Key not found")
    );
    assert!(matches!(ack_result(Ok(())), Ok(())));
    assert!(matches!(ack_result(Err("e".to_string())), Err(KvsError::StringError(t)) if t == "e"));
}

#[test]
fn serve_request_answers_in_kind() {
    let engine = MemoryEngine { map: RefCell::new(HashMap::new()) };
    let put = Request::Put { key: "x".to_string(), value: "y".to_string() };
    assert!(matches!(serve_request(&engine, put), Response::Put(Ok(()))));
    let get = Request::Get { key: "x".to_string() };
    assert!(matches!(serve_request(&engine, get), Response::Get(Ok(Some(v))) if v == "y"));
    let remove = Request::Remove { key: "x".to_string() };
    assert!(matches!(serve_request(&engine, remove), Response::Remove(Ok(()))));
    let get = Request::Get { key: "x".to_string() };
    assert!(matches!(serve_request(&engine, get), Response::Get(Ok(None))));
}

#[test]
fn unknown_key_over_the_wire() {
    let engine = MemoryEngine { map: RefCell::new(HashMap::new()) };
    let get = Request::Get { key: "unknown".to_string() };
    match serve_request(&engine, get) {
        Response::Get(response) => {
            let found = get_result(response).unwrap();
            assert_eq!(get_output(found), "Key not found");
        }
        other => panic!("a Get is answered by {:?}", other),
    }
    let remove = Request::Remove { key: "unknown".to_string() };
    match serve_request(&engine, remove) {
        Response::Remove(response) => {
            assert_eq!(response, Err("Key not found".to_string()));
            let outcome = ack_result(response);
            assert!(matches!(&outcome, Err(KvsError::StringError(t)) if t == "Key not found"));
            assert_eq!(remove_output(outcome), Some(("Key not found".to_string(), true)));
        }
        other => panic!("a Remove is answered by {:?}", other),
    }
}

#[test]
fn get_output_prints_the_value() {
    assert_eq!(get_output(Some("y".to_string())), "y");
    assert_eq!(get_output(None), "Key not found");
}

#[test]
fn remove_output_reports_failures() {
    assert_eq!(remove_output(Ok(())), None);
    assert_eq!(
        remove_output(Err(KvsError::KeyNotFound)),
        Some(("Key not found".to_string(), true))
    );
    assert_eq!(
        remove_output(Err(KvsError::StringError("Key not found".to_string()))),
        Some(("Key not found".to_string(), true))
    );
    assert_eq!(
        remove_output(Err(KvsError::StringError("Io error".to_string()))),
        Some(("String error `Io error`".to_string(), false))
    );
    assert_eq!(
        remove_output(Err(KvsError::UnexpectedCommandType)),
        Some(("Get unexpected command type".to_string(), false))
    );
}

struct RecordingEngine {
    calls: RefCell<Vec<String>>,
}

impl KvsEngine for RecordingEngine {
    fn set(&self, key: String, value: String) -> Result<(), KvsError> {
        self.calls.borrow_mut().push(format!("set {} {}", key, value));
        Err(KvsError::StringError("full".to_string()))
    }

    fn get(&self, key: String) -> Result<Option<String>, KvsError> {
        self.calls.borrow_mut().push(format!("get {}", key));
        Err(KvsError::UnexpectedCommandType)
    }

    fn remove(&self, key: String) -> Result<(), KvsError> {
        self.calls.borrow_mut().push(format!("remove {}", key));
        Ok(())
    }
}

#[test]
fn serve_request_calls_the_engine_once_with_the_strings_of_the_request() {
    let engine = RecordingEngine { calls: RefCell::new(Vec::new()) };
    let put = Request::Put { key: "k".to_string(), value: "v".to_string() };
    assert!(
        matches!(serve_request(&engine, put), Response::Put(Err(t)) if t == "String error `full`")
    );
    let get = Request::Get { key: "g".to_string() };
    assert!(
        matches!(serve_request(&engine, get), Response::Get(Err(t)) if t == "Get unexpected command type")
    );
    let remove = Request::Remove { key: "r".to_string() };
    assert!(matches!(serve_request(&engine, remove), Response::Remove(Ok(()))));
    assert_eq!(*engine.calls.borrow(), vec!["set k v", "get g", "remove r"]);
}
