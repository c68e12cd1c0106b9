//! Host-binding tests: the engine-facing shims translate results and errors,
//! and the auxiliary clock and randomness imports behave as stated.

use std::sync::Mutex;

use saf::host::host_fill;
use saf::host::host_fill_from;
use saf::host::host_get_text;
use saf::host::host_list_dir;
use saf::host::host_now_unix_seconds;
use saf::host::host_read_text;
use saf::host::host_write_text;
use saf::host::RandomnessSource;
use saf::Context;
use saf::FsHost;
use saf::LogHost;
use saf::NetHost;

struct QuietLog;

impl LogHost for QuietLog {
    fn event(&self, _message: &str) {}
}

struct OneFileFs {
    calls: Mutex<usize>,
}

impl FsHost for OneFileFs {
    fn list_dir(&self, path: &str) -> Result<Vec<String>, String> {
        *self.calls.lock().unwrap() += 1;
        if path.is_empty() {
            Ok(vec!["b.txt".to_string(), "a.txt".to_string(), "a.txt".to_string()])
        } else {
            Err("no such directory".to_string())
        }
    }

    fn read_text(&self, path: &str) -> Result<String, String> {
        *self.calls.lock().unwrap() += 1;
        if path == "a.txt" {
            Ok("contents".to_string())
        } else {
            Err("no such file".to_string())
        }
    }

    fn write_text(&self, _path: &str, _content: &str) -> Result<(), String> {
        *self.calls.lock().unwrap() += 1;
        Ok(())
    }
}

struct OneRouteNet;

impl NetHost for OneRouteNet {
    fn get_text(&self, url: &str) -> Result<String, String> {
        if url == "https://example.org/data.json" {
            Ok("{\"example\":true}".to_string())
        } else {
            Err("blocked by policy".to_string())
        }
    }
}

#[test]
fn bindings_translate_success_and_failure() {
    let fs = OneFileFs { calls: Mutex::new(0) };
    let net = OneRouteNet;
    let log = QuietLog;
    let ctx = Context { fs: &fs, net: &net, log: &log };

    let entries = host_list_dir(&ctx, "".to_string()).expect("list");
    assert_eq!(entries, vec!["a.txt".to_string(), "b.txt".to_string()]);

    let text = host_read_text(&ctx, "a.txt".to_string()).expect("read");
    assert_eq!(text, "contents");

    host_write_text(&ctx, "a.txt".to_string(), "new".to_string()).expect("write");

    let body = host_get_text(&ctx, "https://example.org/data.json".to_string()).expect("fetch");
    assert_eq!(body, "{\"example\":true}");

    let err = host_get_text(&ctx, "https://evil.example/".to_string()).unwrap_err();
    assert_eq!(err, "net error: blocked by policy");

    let err = host_list_dir(&ctx, "nope".to_string()).unwrap_err();
    assert_eq!(err, "fs error: no such directory");
}

#[test]
fn bindings_trap_invalid_paths_before_the_provider() {
    let fs = OneFileFs { calls: Mutex::new(0) };
    let net = OneRouteNet;
    let log = QuietLog;
    let ctx = Context { fs: &fs, net: &net, log: &log };

    let err = host_list_dir(&ctx, "../up".to_string()).unwrap_err();
    assert_eq!(err, "invalid or unsafe path");
    let err = host_read_text(&ctx, "/abs".to_string()).unwrap_err();
    assert_eq!(err, "invalid or unsafe path");
    let err = host_write_text(&ctx, "a/../b".to_string(), "x".to_string()).unwrap_err();
    assert_eq!(err, "invalid or unsafe path");
    assert_eq!(*fs.calls.lock().unwrap(), 0);
}

#[test]
fn random_fill_returns_the_requested_length() {
    assert_eq!(host_fill(0).len(), 0);
    assert_eq!(host_fill(16).len(), 16);
    let a = host_fill(32);
    let b = host_fill(32);
    assert_eq!(a.len(), 32);
    // Two 32-byte draws from a freshly entropy-seeded generator coincide
    // only with negligible probability.
    assert_ne!(a, b);
}

#[test]
fn seeded_fill_is_reproducible() {
    let a = host_fill_from(&RandomnessSource::Seeded(7), 16);
    let b = host_fill_from(&RandomnessSource::Seeded(7), 16);
    assert_eq!(a, b);
    assert_eq!(a.len(), 16);
    let c = host_fill_from(&RandomnessSource::Seeded(8), 16);
    assert_ne!(a, c);
    assert_eq!(host_fill_from(&RandomnessSource::OsEntropy, 9).len(), 9);
    assert_eq!(host_fill_from(&RandomnessSource::Seeded(7), 0).len(), 0);
}

#[test]
fn clock_read_returns() {
    let t = host_now_unix_seconds();
    assert!(t < u64::MAX);
}
