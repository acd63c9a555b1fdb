use std::path::PathBuf;

use wasmtime_mysql::cli::{exit_code_from_i32, first_of_each_key, guest_argv, thread_spawn_result, EnvPair, ExitStatus, Preopen};

#[test]
fn parses_preopen() {
    let parsed = Preopen::from_str("/tmp/mysql=/data").unwrap();
    assert_eq!(PathBuf::from(&parsed.host), PathBuf::from("/tmp/mysql"));
    assert_eq!(parsed.guest, "/data");
}

#[test]
fn parses_env_pair() {
    let parsed = EnvPair::from_str("MYSQL_HOME=/data").unwrap();
    assert_eq!(parsed.key, "MYSQL_HOME");
    assert_eq!(parsed.value, "/data");
}

#[test]
fn rejects_empty_preopen_guest() {
    assert!(Preopen::from_str("/tmp/mysql=").is_err());
}

#[test]
fn preopen_errors_name_the_problem() {
    assert_eq!(Preopen::from_str("/tmp/mysql").unwrap_err(), "expected HOST=GUEST");
    assert_eq!(Preopen::from_str("=/data").unwrap_err(), "host path cannot be empty");
    assert_eq!(Preopen::from_str("/tmp/mysql=").unwrap_err(), "guest path cannot be empty");
}

#[test]
fn preopen_splits_at_the_first_equals_sign() {
    let parsed = Preopen::from_str("/a=b=/c").unwrap();
    assert_eq!(parsed.host, "/a");
    assert_eq!(parsed.guest, "b=/c");
}

#[test]
fn env_pair_value_may_be_empty_or_hold_equals_signs() {
    let parsed = EnvPair::from_str("A=").unwrap();
    assert_eq!(parsed.key, "A");
    assert_eq!(parsed.value, "");
    let parsed = EnvPair::from_str("OPTS=a=b").unwrap();
    assert_eq!(parsed.key, "OPTS");
    assert_eq!(parsed.value, "a=b");
}

#[test]
fn env_pair_errors_name_the_problem() {
    assert_eq!(EnvPair::from_str("NOVALUE").unwrap_err(), "expected KEY=VALUE");
    assert_eq!(EnvPair::from_str("=x").unwrap_err(), "environment key cannot be empty");
}

#[test]
fn parses_non_ascii_values() {
    let parsed = Preopen::from_str("/tmp/données=/dätä").unwrap();
    assert_eq!(parsed.host, "/tmp/données");
    assert_eq!(parsed.guest, "/dätä");
}

#[test]
fn exit_status_of_guest_exit_codes() {
    assert_eq!(exit_code_from_i32(0), ExitStatus::Success);
    assert_eq!(exit_code_from_i32(1), ExitStatus::Code(1));
    assert_eq!(exit_code_from_i32(255), ExitStatus::Code(255));
    assert_eq!(exit_code_from_i32(256), ExitStatus::Failure);
    assert_eq!(exit_code_from_i32(-1), ExitStatus::Failure);
}

#[test]
fn guest_argv_starts_with_the_program_name() {
    let argv = guest_argv(&vec!["--console".to_string(), "--port=3307".to_string()]);
    assert_eq!(argv, vec!["mysqld".to_string(), "--console".to_string(), "--port=3307".to_string()]);
    assert_eq!(guest_argv(&Vec::new()), vec!["mysqld".to_string()]);
}

#[test]
fn thread_spawn_results() {
    assert_eq!(thread_spawn_result(7, true, libc::EAGAIN), 7);
    assert_eq!(thread_spawn_result(7, false, libc::EAGAIN), -libc::EAGAIN);
    assert_eq!(thread_spawn_result(i32::MIN, true, libc::EAGAIN), -libc::EAGAIN);
    assert_eq!(thread_spawn_result(0, true, libc::EAGAIN), -libc::EAGAIN);
}

#[test]
fn joined_values_read_back() {
    for (host, guest) in [("/srv/run", "/tmp"), ("data", "."), ("/x", "a=b")] {
        let parsed = Preopen::from_str(&format!("{host}={guest}")).unwrap();
        assert_eq!((parsed.host.as_str(), parsed.guest.as_str()), (host, guest));
    }
    for (key, value) in [("HOME", "/tmp"), ("EMPTY", ""), ("OPTS", "x=1,y=2")] {
        let parsed = EnvPair::from_str(&format!("{key}={value}")).unwrap();
        assert_eq!((parsed.key.as_str(), parsed.value.as_str()), (key, value));
    }
}

#[test]
fn each_memory_import_key_is_defined_once() {
    let key = |m: &str, n: &str| (m.to_string(), n.to_string());
    let keys = vec![key("env", "memory"), key("wasi", "memory"), key("env", "memory"), key("env", "mem")];
    assert_eq!(first_of_each_key(&keys), vec![true, true, false, true]);
    assert_eq!(first_of_each_key(&Vec::new()), Vec::<bool>::new());
}
