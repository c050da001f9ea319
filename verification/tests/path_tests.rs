use lazers::storage::path::normalize_path;
use lazers::storage::StorageError;

fn normalized(cwd: &str, path: &str, buffer_len: usize) -> Result<String, StorageError> {
    let mut buffer = vec![0u8; buffer_len];
    let len = normalize_path(cwd, path, &mut buffer)?;
    Ok(core::str::from_utf8(&buffer[..len]).unwrap().to_string())
}

#[test]
fn preserves_absolute_paths() {
    assert_eq!(normalized("/system", "/bin/echo", 64).unwrap(), "/bin/echo");
}

#[test]
fn resolves_relative_paths_against_cwd() {
    assert_eq!(normalized("/system/bin", "echo", 64).unwrap(), "/system/bin/echo");
}

#[test]
fn removes_current_directory_segments() {
    assert_eq!(normalized("/system/bin", "./echo", 64).unwrap(), "/system/bin/echo");
}

#[test]
fn resolves_parent_segments() {
    assert_eq!(normalized("/system/bin", "../cat", 64).unwrap(), "/system/cat");
}

#[test]
fn collapses_repeated_slashes() {
    assert_eq!(normalized("/system//bin", "///echo///", 64).unwrap(), "/echo");
}

#[test]
fn clamps_parent_walks_at_root() {
    assert_eq!(normalized("/", "../../../../echo", 64).unwrap(), "/echo");
}

#[test]
fn rejects_empty_input() {
    let mut buffer = [0u8; 16];
    assert!(matches!(
        normalize_path("/system", "", &mut buffer),
        Err(StorageError::InvalidPath)
    ));
}

#[test]
fn rejects_too_many_components() {
    let path = std::iter::repeat("a").take(65).collect::<Vec<_>>().join("/");
    let mut buffer = [0u8; 256];
    assert!(matches!(
        normalize_path("/", &path, &mut buffer),
        Err(StorageError::InvalidPath)
    ));
}

#[test]
fn rejects_too_small_output_buffer() {
    let mut buffer = [0u8; 4];
    assert!(matches!(
        normalize_path("/system/bin", "echo", &mut buffer),
        Err(StorageError::InvalidPath)
    ));
}

#[test]
fn normalized_root_is_a_single_slash() {
    assert_eq!(normalized("/system", "..", 8).unwrap(), "/");
    assert_eq!(normalized("/", "/", 8).unwrap(), "/");
}

#[test]
fn exact_fit_buffer_is_accepted() {
    assert_eq!(normalized("/", "abc", 4).unwrap(), "/abc");
    assert!(normalized("/", "abcd", 4).is_err());
}

#[test]
fn normalizing_a_normalized_path_keeps_it() {
    let cases = [("/system/bin", "../x/./y//z/.."), ("/", "a/b/../c"), ("/deep/cwd", "/abs//path/")];
    for (cwd, path) in cases {
        let once = normalized(cwd, path, 64).unwrap();
        let again = normalized("/elsewhere", &once, 64).unwrap();
        assert_eq!(again, once);
    }
}
