use sysconfig::error::Error;
use sysconfig::json::Json;
use sysconfig::state::SystemState;

fn str_of(j: &Json) -> &str {
    match j {
        Json::Str(s) => s.as_str(),
        _ => panic!("not a string"),
    }
}

#[test]
fn test_set_then_get() {
    let mut s = SystemState::new();
    s.set("network.dns.primary", Json::Str("1.1.1.1".to_string())).unwrap();
    assert_eq!(str_of(&s.get("network.dns.primary").unwrap()), "1.1.1.1");
    assert!(s.get("network.dns.secondary").is_none());
}

#[test]
fn test_set_into_array() {
    let mut s = SystemState::new();
    s.set("list", Json::Array(vec![Json::Null, Json::Null])).unwrap();
    s.set("list.1", Json::Str("b".to_string())).unwrap();
    assert_eq!(str_of(&s.get("list.1").unwrap()), "b");
    match s.set("list.5", Json::Null) {
        Err(Error::State(m)) => assert_eq!(m, "Index out of bounds: 5"),
        _ => panic!("expected an error"),
    }
    match s.set("list.x", Json::Null) {
        Err(Error::State(m)) => assert_eq!(m, "Invalid array index: x"),
        _ => panic!("expected an error"),
    }
}

#[test]
fn test_remove() {
    let mut s = SystemState::new();
    s.set("a.b", Json::Bool(true)).unwrap();
    s.remove("a.b").unwrap();
    assert!(s.get("a.b").is_none());
    match s.remove("") {
        Err(Error::State(m)) => assert_eq!(m, "Cannot remove root state"),
        _ => panic!("expected an error"),
    }
    assert!(s.remove("missing.path").is_ok());
}

#[test]
fn test_set_through_scalar() {
    let mut s = SystemState::new();
    s.set("x", Json::PosInt(1)).unwrap();
    match s.set("x.y", Json::Null) {
        Err(Error::State(m)) => assert_eq!(m, "Cannot set value at path: x.y"),
        _ => panic!("expected an error"),
    }
}
