use lazers::env::{Environment, EnvironmentError, MAX_ENV_VARS};

fn key_for(index: usize) -> String {
    format!("K{}", index)
}

#[test]
fn insert_and_lookup_variable() {
    let mut env = Environment::new();
    env.set("SHELL", "/bin/lash").unwrap();
    assert_eq!(env.get("SHELL"), Some("/bin/lash"));
}

#[test]
fn update_existing_variable() {
    let mut env = Environment::new();
    env.set("TERM", "vt").unwrap();
    env.set("TERM", "text").unwrap();
    assert_eq!(env.get("TERM"), Some("text"));
}

#[test]
fn remove_variable() {
    let mut env = Environment::new();
    env.set("USER", "root").unwrap();
    assert!(env.remove("USER"));
    assert_eq!(env.get("USER"), None);
}

#[test]
fn empty_value_is_allowed() {
    let mut env = Environment::new();
    env.set("EMPTY", "").unwrap();
    assert_eq!(env.get("EMPTY"), Some(""));
}

#[test]
fn invalid_key_is_rejected() {
    let mut env = Environment::new();
    assert_eq!(env.set("", "x"), Err(EnvironmentError::InvalidKey));
    assert_eq!(env.set("BAD=KEY", "x"), Err(EnvironmentError::InvalidKey));
}

#[test]
fn capacity_exhaustion_is_reported() {
    let mut env = Environment::new();
    for index in 0..MAX_ENV_VARS {
        let key = key_for(index);
        env.set(key.as_str(), "x").unwrap();
    }

    assert_eq!(
        env.set("OVERFLOW", "x"),
        Err(EnvironmentError::CapacityExceeded)
    );
}

#[test]
fn inheritance_copies_independently() {
    let mut parent = Environment::new();
    let mut child = Environment::new();
    parent.set("USER", "root").unwrap();
    parent.set("SHELL", "/bin/lash").unwrap();

    parent.inherit_into(&mut child).unwrap();
    child.set("USER", "guest").unwrap();
    child.remove("SHELL");

    assert_eq!(parent.get("USER"), Some("root"));
    assert_eq!(parent.get("SHELL"), Some("/bin/lash"));
    assert_eq!(child.get("USER"), Some("guest"));
    assert_eq!(child.get("SHELL"), None);
}

#[test]
fn key_too_long_and_value_too_long_are_reported() {
    let mut env = Environment::new();
    let long_key = "K".repeat(33);
    assert_eq!(env.set(long_key.as_str(), "x"), Err(EnvironmentError::KeyTooLong));
    let long_value = "v".repeat(129);
    assert_eq!(env.set("KEY", long_value.as_str()), Err(EnvironmentError::ValueTooLong));
    assert_eq!(env.len(), 0);
}

#[test]
fn clear_empties_the_block() {
    let mut env = Environment::new();
    env.set("A", "1").unwrap();
    env.set("B", "2").unwrap();
    env.clear();
    assert_eq!(env.len(), 0);
    assert_eq!(env.get("A"), None);
}
