use dock::codec::{encode_config, parse_config};
use dock::config::{ContainerConfig, Status};
use dock::errors::DockError;
use dock::manager::ContainerManager;
use dock::python::{detect_python_version, PythonVersion};
use dock::storage::Storage;

fn fresh_manager() -> ContainerManager {
    ContainerManager::new(Storage::new("/home/user/.dock".to_string()))
}

#[test]
fn create_then_exists() {
    let mut mgr = fresh_manager();
    let r = mgr.create("a", "/tmp/a.py", Some("print('hi')\n"));
    assert!(r.is_ok());
    assert!(mgr.storage().container_exists("a"));
    let again = mgr.create("a", "/tmp/a.py", Some("print('hi')\n"));
    assert!(matches!(again, Err(DockError::AlreadyExists)));
}

#[test]
fn create_missing_script() {
    let mut mgr = fresh_manager();
    let r = mgr.create("a", "/tmp/missing.py", None);
    assert!(matches!(r, Err(DockError::Io)));
    assert!(!mgr.storage().container_exists("a"));
}

#[test]
fn created_config_fields() {
    let mut mgr = fresh_manager();
    let c = mgr.create("web", "/tmp/app.py", Some("print(\"x\")\n")).unwrap();
    assert_eq!(c.name, "web");
    assert_eq!(c.script, "/tmp/app.py");
    assert_eq!(c.python_version, PythonVersion::Python3);
    assert_eq!(c.status, Status::Stopped);
    assert!(c.port_mapping.is_none());
    assert_eq!(c.id.len(), 36);
}

#[test]
fn start_transitions_to_running() {
    let mut mgr = fresh_manager();
    mgr.create("a", "/tmp/a.py", Some("x = 1\n")).unwrap();
    let c = mgr.start("a", Some("8080:80".to_string())).unwrap();
    assert_eq!(c.status, Status::Running);
    assert_eq!(c.port_mapping.as_deref(), Some("8080:80"));
    let again = mgr.start("a", None);
    assert!(matches!(again, Err(DockError::InvalidState)));
}

#[test]
fn start_unknown_name() {
    let mut mgr = fresh_manager();
    assert!(matches!(mgr.start("ghost", None), Err(DockError::NotFound)));
}

#[test]
fn stop_on_stopped_fails() {
    let mut mgr = fresh_manager();
    mgr.create("a", "/tmp/a.py", Some("x = 1\n")).unwrap();
    let r = mgr.stop("a");
    assert!(matches!(r, Err(DockError::InvalidState)));
    // the refused stop leaves the persisted state as it was
    let loaded = mgr.storage().load_config("a").unwrap();
    assert_eq!(loaded.status, Status::Stopped);
}

#[test]
fn stop_running_then_repeat() {
    let mut mgr = fresh_manager();
    mgr.create("a", "/tmp/a.py", Some("x = 1\n")).unwrap();
    mgr.start("a", Some("80:80".to_string())).unwrap();
    let c = mgr.stop("a").unwrap();
    assert_eq!(c.status, Status::Stopped);
    assert!(c.port_mapping.is_none());
    // repeated failed attempts change nothing persisted
    assert!(matches!(mgr.stop("a"), Err(DockError::InvalidState)));
    assert!(matches!(mgr.stop("a"), Err(DockError::InvalidState)));
    let loaded = mgr.storage().load_config("a").unwrap();
    assert_eq!(loaded.status, Status::Stopped);
    assert!(loaded.port_mapping.is_none());
}

#[test]
fn remove_running_refused() {
    let mut mgr = fresh_manager();
    mgr.create("a", "/tmp/a.py", Some("x = 1\n")).unwrap();
    mgr.start("a", None).unwrap();
    let r = mgr.remove("a");
    assert!(matches!(r, Err(DockError::InvalidState)));
    assert!(mgr.storage().container_exists("a"));
}

#[test]
fn remove_stopped_deletes() {
    let mut mgr = fresh_manager();
    mgr.create("a", "/tmp/a.py", Some("x = 1\n")).unwrap();
    mgr.start("a", None).unwrap();
    mgr.stop("a").unwrap();
    mgr.remove("a").unwrap();
    assert!(!mgr.storage().container_exists("a"));
    assert!(matches!(mgr.remove("a"), Err(DockError::NotFound)));
}

#[test]
fn shebang_python3_wins_over_body() {
    let v = detect_python_version("#!/usr/bin/env python3\nprint \"hi\"\nxrange(3)\n");
    assert_eq!(v, PythonVersion::Python3);
}

#[test]
fn shebang_python2() {
    assert_eq!(
        detect_python_version("#!/usr/bin/python2\nx = 1\n"),
        PythonVersion::Python2
    );
}

#[test]
fn shebang_generic_python() {
    assert_eq!(
        detect_python_version("#!/usr/bin/env python\nprint(\"hi\")\n"),
        PythonVersion::Python
    );
}

#[test]
fn print_statement_is_python2() {
    assert_eq!(detect_python_version("print \"hi\"\n"), PythonVersion::Python2);
}

#[test]
fn print_call_is_python3() {
    assert_eq!(detect_python_version("print(\"hi\")\n"), PythonVersion::Python3);
}

#[test]
fn no_signal_is_generic() {
    assert_eq!(detect_python_version("x = 1\n"), PythonVersion::Python);
}

#[test]
fn tie_is_generic() {
    // one signal each way
    assert_eq!(
        detect_python_version("xrange(3)\nprint(\"hi\")\n"),
        PythonVersion::Python
    );
}

#[test]
fn signals_beyond_ten_lines_ignored() {
    let mut content = String::new();
    for _ in 0..10 {
        content.push_str("x = 1\n");
    }
    content.push_str("print \"hi\"\n");
    assert_eq!(detect_python_version(&content), PythonVersion::Python);
}

#[test]
fn version_commands() {
    assert_eq!(PythonVersion::Python2.command(), "python2");
    assert_eq!(PythonVersion::Python3.command(), "python3");
    assert_eq!(PythonVersion::Python.command(), "python");
    assert_eq!(PythonVersion::Python2.label(), "Python2");
    assert_eq!(PythonVersion::Python3.label(), "Python3");
    assert_eq!(PythonVersion::Python.label(), "Python");
}

#[test]
fn list_empty_is_distinct() {
    let mgr = fresh_manager();
    assert!(mgr.list().is_none());
}

#[test]
fn list_two_containers() {
    let mut mgr = fresh_manager();
    mgr.create("a", "/tmp/a.py", Some("print(\"hi\")\n")).unwrap();
    mgr.create("b", "/tmp/b.py", Some("print \"hi\"\n")).unwrap();
    mgr.start("b", Some("8080:80".to_string())).unwrap();
    let table = mgr.list().unwrap();
    let mut expected = String::new();
    expected.push_str(&format!(
        "{:<20} {:<15} {:<20} {:<15}\n",
        "NAME", "STATUS", "PYTHON", "PORT"
    ));
    expected.push_str(&"-".repeat(70));
    expected.push('\n');
    expected.push_str(&format!(
        "{:<20} {:<15} {:<20} {:<15}\n",
        "a", "stopped", "Python3", "-"
    ));
    expected.push_str(&format!(
        "{:<20} {:<15} {:<20} {:<15}\n",
        "b", "running", "Python2", "8080:80"
    ));
    assert_eq!(table, expected);
}

#[test]
fn logs_without_file_is_not_an_error() {
    let mgr = fresh_manager();
    let msg = mgr.logs("quiet", None);
    assert_eq!(msg, "No logs available for container 'quiet'");
}

#[test]
fn logs_with_content() {
    let mgr = fresh_manager();
    let msg = mgr.logs("a", Some("line one\nline two\n".to_string()));
    assert_eq!(msg, "line one\nline two\n");
}

#[test]
fn enter_unknown_and_shell_choice() {
    let mut mgr = fresh_manager();
    assert!(matches!(mgr.enter("nope", true), Err(DockError::NotFound)));
    mgr.create("a", "/tmp/a.py", Some("x = 1\n")).unwrap();
    assert_eq!(mgr.enter("a", true).unwrap(), "bash");
    assert_eq!(mgr.enter("a", false).unwrap(), "sh");
}

#[test]
fn paths_are_deterministic() {
    let storage = Storage::new("/home/user/.dock".to_string());
    assert_eq!(
        storage.container_dir("web"),
        "/home/user/.dock/containers/web"
    );
    assert_eq!(
        storage.config_path("web"),
        "/home/user/.dock/containers/web/config.json"
    );
    assert_eq!(
        storage.filesystem_path("web"),
        "/home/user/.dock/containers/web/fs"
    );
    assert_eq!(
        storage.logs_path("web"),
        "/home/user/.dock/containers/web/logs.txt"
    );
}

#[test]
fn signal_pattern_shape() {
    let mgr = fresh_manager();
    assert_eq!(mgr.signal_pattern("web"), "DOCK_CONTAINER=web");
}

#[test]
fn encode_exact_json() {
    let config = ContainerConfig {
        id: "0f8fad5b-d9cb-469f-a165-70867728950e".to_string(),
        name: "web".to_string(),
        script: "/tmp/app.py".to_string(),
        python_version: PythonVersion::Python3,
        status: Status::Stopped,
        port_mapping: None,
    };
    let json = encode_config(&config);
    let expected = "{\n  \"id\": \"0f8fad5b-d9cb-469f-a165-70867728950e\",\n  \"name\": \"web\",\n  \"script\": \"/tmp/app.py\",\n  \"python_version\": \"Python3\",\n  \"status\": \"stopped\",\n  \"port_mapping\": null\n}";
    assert_eq!(json, expected);
}

#[test]
fn encode_with_port_and_escapes() {
    let config = ContainerConfig {
        id: "id-1".to_string(),
        name: "we\"b\\x".to_string(),
        script: "/tmp/a b.py".to_string(),
        python_version: PythonVersion::Python2,
        status: Status::Running,
        port_mapping: Some("8080:80".to_string()),
    };
    let json = encode_config(&config);
    let expected = "{\n  \"id\": \"id-1\",\n  \"name\": \"we\\\"b\\\\x\",\n  \"script\": \"/tmp/a b.py\",\n  \"python_version\": \"Python2\",\n  \"status\": \"running\",\n  \"port_mapping\": \"8080:80\"\n}";
    assert_eq!(json, expected);
}

#[test]
fn save_then_load_round_trip() {
    let config = ContainerConfig {
        id: "id-2".to_string(),
        name: "tabs\tand\nnewlines".to_string(),
        script: "/tmp/x.py".to_string(),
        python_version: PythonVersion::Python,
        status: Status::Running,
        port_mapping: Some("90:90".to_string()),
    };
    let json = encode_config(&config);
    let back = parse_config(&json).unwrap();
    assert_eq!(back.id, config.id);
    assert_eq!(back.name, config.name);
    assert_eq!(back.script, config.script);
    assert_eq!(back.python_version, config.python_version);
    assert_eq!(back.status, config.status);
    assert_eq!(back.port_mapping, config.port_mapping);
}

#[test]
fn parse_rejects_garbage() {
    assert!(matches!(parse_config("not json"), Err(DockError::Parse)));
    assert!(matches!(parse_config(""), Err(DockError::Parse)));
    let bad_label = "{\n  \"id\": \"x\",\n  \"name\": \"n\",\n  \"script\": \"s\",\n  \"python_version\": \"Ruby\",\n  \"status\": \"stopped\",\n  \"port_mapping\": null\n}";
    assert!(matches!(parse_config(bad_label), Err(DockError::Parse)));
    let truncated = "{\n  \"id\": \"x\",\n  \"name\": \"n\"";
    assert!(matches!(parse_config(truncated), Err(DockError::Parse)));
}

#[test]
fn error_messages() {
    assert_eq!(DockError::NotFound.message(), "container not found");
    assert_eq!(DockError::AlreadyExists.message(), "container already exists");
    assert_eq!(DockError::InvalidState.message(), "invalid container state");
    assert_eq!(DockError::Io.message(), "filesystem access failure");
    assert_eq!(DockError::Parse.message(), "corrupt container config");
}

#[test]
fn list_containers_returns_saved_records() {
    let mut mgr = fresh_manager();
    mgr.create("a", "/tmp/a.py", Some("x = 1\n")).unwrap();
    mgr.create("b", "/tmp/b.py", Some("x = 2\n")).unwrap();
    let all = mgr.storage().list_containers();
    assert_eq!(all.len(), 2);
    assert_eq!(all[0].name, "a");
    assert_eq!(all[1].name, "b");
}

#[test]
fn delete_container_is_idempotent() {
    let mut storage = Storage::new("/home/user/.dock".to_string());
    let config = ContainerConfig {
        id: "id-3".to_string(),
        name: "gone".to_string(),
        script: "/tmp/g.py".to_string(),
        python_version: PythonVersion::Python,
        status: Status::Stopped,
        port_mapping: None,
    };
    storage.save_config(&config);
    assert!(storage.container_exists("gone"));
    storage.delete_container("gone");
    assert!(!storage.container_exists("gone"));
    storage.delete_container("gone");
    assert!(!storage.container_exists("gone"));
}

#[test]
fn bare_final_print_line_is_a_tie() {
    // the final line's terminator is not part of the joined sample, so a
    // lone `print` has no trailing whitespace and neither side scores
    assert_eq!(detect_python_version("print\n"), PythonVersion::Python);
    assert_eq!(detect_python_version("print\r\n"), PythonVersion::Python);
    assert_eq!(detect_python_version("x = 1\nprint\n"), PythonVersion::Python);
}

#[test]
fn print_at_inner_line_end_is_python2() {
    // between lines the join supplies a newline, which is whitespace
    assert_eq!(detect_python_version("print\nx = 1\n"), PythonVersion::Python2);
}

#[test]
fn crlf_lines_classify_like_lf_lines() {
    assert_eq!(
        detect_python_version("#!/usr/bin/env python3\r\nprint \"hi\"\r\n"),
        PythonVersion::Python3
    );
    assert_eq!(
        detect_python_version("print \"hi\"\r\nx = 1\r\n"),
        PythonVersion::Python2
    );
}

#[test]
fn unicode_whitespace_counts() {
    // a no-break space after `print` is whitespace to the signal classes
    assert_eq!(detect_python_version("print\u{a0}7\n"), PythonVersion::Python2);
}

#[test]
fn corrupt_config_surfaces_parse() {
    let mut storage = Storage::new("/home/user/.dock".to_string());
    storage.load_entry("bad", Some("not json at all"));
    assert!(storage.container_exists("bad"));
    assert!(matches!(storage.load_config("bad"), Err(DockError::Parse)));
    let mut mgr = ContainerManager::new(storage);
    assert!(matches!(mgr.start("bad", None), Err(DockError::Parse)));
    assert!(matches!(mgr.stop("bad"), Err(DockError::Parse)));
    assert!(matches!(mgr.remove("bad"), Err(DockError::Parse)));
    // its config file exists, so the name is taken ...
    assert!(matches!(
        mgr.create("bad", "/tmp/b.py", Some("x = 1\n")),
        Err(DockError::AlreadyExists)
    ));
    // ... and enter reaches it, but the listing skips it
    assert!(mgr.enter("bad", true).is_ok());
    assert!(mgr.list().is_none());
}

#[test]
fn load_entry_fills_the_store() {
    let mut storage = Storage::new("/home/user/.dock".to_string());
    let config = ContainerConfig {
        id: "id-4".to_string(),
        name: "web".to_string(),
        script: "/tmp/w.py".to_string(),
        python_version: PythonVersion::Python3,
        status: Status::Running,
        port_mapping: Some("80:80".to_string()),
    };
    let json = encode_config(&config);
    storage.load_entry("web", Some(&json));
    let back = storage.load_config("web").unwrap();
    assert_eq!(back.name, "web");
    assert_eq!(back.status, Status::Running);
    // a directory without a config file is no container
    storage.load_entry("empty", None);
    assert!(!storage.container_exists("empty"));
}

#[test]
fn delete_clears_a_corrupt_mark() {
    let mut storage = Storage::new("/home/user/.dock".to_string());
    storage.load_entry("bad", Some("{broken"));
    assert!(storage.container_exists("bad"));
    storage.delete_container("bad");
    assert!(!storage.container_exists("bad"));
    assert!(matches!(storage.load_config("bad"), Err(DockError::NotFound)));
}
