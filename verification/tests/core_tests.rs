//! In-memory capability providers and the mediated-operation tests.

use std::collections::BTreeSet;
use std::collections::HashMap;
use std::sync::Mutex;

use saf::fetch_json;
use saf::list_dir;
use saf::read_text;
use saf::sanitize_rel_path;
use saf::write_text;
use saf::Context;
use saf::CoreError;
use saf::FsHost;
use saf::LogHost;
use saf::NetHost;

struct MemLog {
    events: Mutex<Vec<String>>,
}

impl MemLog {
    fn new() -> MemLog {
        MemLog { events: Mutex::new(Vec::new()) }
    }

    fn events(&self) -> Vec<String> {
        self.events.lock().unwrap().clone()
    }
}

impl LogHost for MemLog {
    fn event(&self, message: &str) {
        self.events.lock().unwrap().push(message.to_string());
    }
}

#[derive(Default)]
struct MemFs {
    dirs: HashMap<String, BTreeSet<String>>,
    files: HashMap<String, String>,
    calls: Mutex<usize>,
}

impl MemFs {
    fn ensure_dir(&mut self, dir: &str) {
        self.dirs.entry(dir.to_string()).or_default();
    }

    fn add_file(&mut self, path: &str, content: &str) {
        let normalized = sanitize_rel_path(path).expect("valid path in test");
        let (parent, name) = match normalized.rfind('/') {
            Some(pos) => (normalized[..pos].to_string(), normalized[pos + 1..].to_string()),
            None => (String::new(), normalized.clone()),
        };
        self.ensure_dir(&parent);
        self.dirs.get_mut(&parent).unwrap().insert(name);
        self.files.insert(normalized, content.to_string());
    }

    fn add_dir(&mut self, path: &str) {
        let normalized = sanitize_rel_path(path).expect("valid path in test");
        if normalized.is_empty() {
            self.ensure_dir("");
            return;
        }
        let (parent, name) = match normalized.rfind('/') {
            Some(pos) => (normalized[..pos].to_string(), normalized[pos + 1..].to_string()),
            None => (String::new(), normalized.clone()),
        };
        self.ensure_dir(&parent);
        self.ensure_dir(&normalized);
        self.dirs.get_mut(&parent).unwrap().insert(name);
    }

    fn provider_calls(&self) -> usize {
        *self.calls.lock().unwrap()
    }
}

impl FsHost for MemFs {
    fn list_dir(&self, path: &str) -> Result<Vec<String>, String> {
        *self.calls.lock().unwrap() += 1;
        if let Some(set) = self.dirs.get(path) {
            Ok(set.iter().cloned().collect())
        } else {
            Err("no such directory".to_string())
        }
    }

    fn read_text(&self, path: &str) -> Result<String, String> {
        *self.calls.lock().unwrap() += 1;
        self.files.get(path).cloned().ok_or_else(|| "no such file".to_string())
    }

    fn write_text(&self, path: &str, content: &str) -> Result<(), String> {
        *self.calls.lock().unwrap() += 1;
        let parent = match path.rfind('/') {
            Some(pos) => path[..pos].to_string(),
            None => String::new(),
        };
        if !self.dirs.contains_key(&parent) {
            return Err("parent dir missing".to_string());
        }
        let _ = (path, content);
        Ok(())
    }
}

struct MemNet {
    routes: HashMap<String, String>,
}

impl NetHost for MemNet {
    fn get_text(&self, url: &str) -> Result<String, String> {
        self.routes.get(url).cloned().ok_or_else(|| "blocked or not found".to_string())
    }
}

#[test]
fn path_sanitization() {
    assert!(sanitize_rel_path("../../etc").is_none());
    assert!(sanitize_rel_path("/abs").is_none());
    assert!(sanitize_rel_path("a/./b").is_some());
    assert_eq!(sanitize_rel_path("a/./b").unwrap(), "a/b");
}

#[test]
fn fs_list_and_read_write() {
    let mut fs = MemFs::default();
    fs.add_dir("");
    fs.add_dir("docs");
    fs.add_file("docs/readme.txt", "hello");

    let net = MemNet { routes: HashMap::new() };
    let log = MemLog::new();
    let ctx = Context { fs: &fs, net: &net, log: &log };

    let entries = list_dir(&ctx, "docs").expect("list");
    assert_eq!(entries, vec!["readme.txt".to_string()]);

    let content = read_text(&ctx, "docs/readme.txt").expect("read");
    assert_eq!(content, "hello");

    // write into existing parent dir
    write_text(&ctx, "docs/note.txt", "note").expect("write");
}

#[test]
fn net_fetch_json() {
    let fs = MemFs::default();
    let mut routes = HashMap::new();
    routes.insert(
        "https://example.org/data.json".to_string(),
        "{\"k\":\"v\"}".to_string(),
    );
    let net = MemNet { routes };
    let log = MemLog::new();
    let ctx = Context { fs: &fs, net: &net, log: &log };

    let body = fetch_json(&ctx, "https://example.org/data.json").expect("fetch");
    assert_eq!(body, "{\"k\":\"v\"}");
}

#[test]
fn sanitize_accepts_root_and_odd_dots() {
    assert_eq!(sanitize_rel_path("").unwrap(), "");
    assert_eq!(sanitize_rel_path("...").unwrap(), "...");
    assert_eq!(sanitize_rel_path("a/.../b").unwrap(), "a/.../b");
    assert_eq!(sanitize_rel_path(".").unwrap(), "");
    assert!(sanitize_rel_path("a//b").is_none());
    assert!(sanitize_rel_path("a/b/").is_none());
    assert!(sanitize_rel_path("a/../b").is_none());
}

#[test]
fn windows_style_escapes_are_rejected() {
    assert!(sanitize_rel_path("\\evil").is_none());
    assert!(sanitize_rel_path("C:\\evil").is_none());
    assert!(sanitize_rel_path("C:/evil").is_none());
    assert!(sanitize_rel_path("c:").is_none());
    assert!(sanitize_rel_path("a\\..\\b").is_none());
    assert!(sanitize_rel_path("a/b\\c").is_none());
    assert!(sanitize_rel_path("./c:/x").is_none());
    // a colon anywhere but the drive position is an ordinary name character
    assert_eq!(sanitize_rel_path("ab:c").unwrap(), "ab:c");
    assert_eq!(sanitize_rel_path("x/c:d").unwrap(), "x/c:d");
    assert_eq!(sanitize_rel_path("1:x").unwrap(), "1:x");
}

#[test]
fn audit_event_builders_format() {
    assert_eq!(saf::context::list_dir_event("docs"), "fs.list_dir path=docs");
    assert_eq!(
        saf::context::read_text_event("docs/readme.txt", 5),
        "fs.read_text path=docs/readme.txt bytes=5"
    );
    assert_eq!(
        saf::context::write_text_event("a/b.txt", 0),
        "fs.write_text path=a/b.txt bytes=0"
    );
    assert_eq!(
        saf::context::fetch_event("https://example.org/data.json", 16),
        "net.get_text url=https://example.org/data.json bytes=16"
    );
}

#[test]
fn traversal_never_reaches_the_provider() {
    let mut fs = MemFs::default();
    fs.add_dir("");
    let net = MemNet { routes: HashMap::new() };
    let log = MemLog::new();
    let ctx = Context { fs: &fs, net: &net, log: &log };

    assert_eq!(list_dir(&ctx, "../secrets"), Err(CoreError::InvalidPath));
    assert_eq!(read_text(&ctx, "/etc/passwd"), Err(CoreError::InvalidPath));
    assert_eq!(write_text(&ctx, "../x", "y"), Err(CoreError::InvalidPath));
    assert_eq!(fs.provider_calls(), 0);
    assert_eq!(log.events().len(), 0);
}

#[test]
fn provider_faults_surface_as_errors() {
    let fs = MemFs::default();
    let net = MemNet { routes: HashMap::new() };
    let log = MemLog::new();
    let ctx = Context { fs: &fs, net: &net, log: &log };

    assert_eq!(
        list_dir(&ctx, "missing"),
        Err(CoreError::Fs("no such directory".to_string()))
    );
    assert_eq!(
        read_text(&ctx, "missing.txt"),
        Err(CoreError::Fs("no such file".to_string()))
    );
    assert_eq!(
        write_text(&ctx, "ghost/x.txt", "y"),
        Err(CoreError::Fs("parent dir missing".to_string()))
    );
    assert_eq!(
        fetch_json(&ctx, "https://example.org/"),
        Err(CoreError::Net("blocked or not found".to_string()))
    );
    assert_eq!(log.events().len(), 0);
}

#[test]
fn listing_is_sorted_and_deduplicated() {
    struct MessyFs;
    impl FsHost for MessyFs {
        fn list_dir(&self, _path: &str) -> Result<Vec<String>, String> {
            Ok(vec![
                "zeta".to_string(),
                "alpha".to_string(),
                "zeta".to_string(),
                "beta".to_string(),
                "alpha".to_string(),
            ])
        }
        fn read_text(&self, _path: &str) -> Result<String, String> {
            Err("unused".to_string())
        }
        fn write_text(&self, _path: &str, _content: &str) -> Result<(), String> {
            Err("unused".to_string())
        }
    }
    let fs = MessyFs;
    let net = MemNet { routes: HashMap::new() };
    let log = MemLog::new();
    let ctx = Context { fs: &fs, net: &net, log: &log };

    let entries = list_dir(&ctx, "any").expect("list");
    assert_eq!(entries, vec!["alpha".to_string(), "beta".to_string(), "zeta".to_string()]);
}

#[test]
fn end_to_end_mediation_scenario() {
    let mut fs = MemFs::default();
    fs.add_dir("");
    fs.add_dir("docs");
    fs.add_file("docs/readme.txt", "hello");
    let net = MemNet { routes: HashMap::new() };
    let log = MemLog::new();
    let ctx = Context { fs: &fs, net: &net, log: &log };

    let entries = list_dir(&ctx, "docs").expect("list");
    assert_eq!(entries, vec!["readme.txt".to_string()]);
    let events = log.events();
    assert_eq!(events.len(), 1);
    assert!(events[0].contains("path=docs"));
    assert_eq!(events[0], "fs.list_dir path=docs");

    let content = read_text(&ctx, "docs/readme.txt").expect("read");
    assert_eq!(content, "hello");
    let events = log.events();
    assert_eq!(events.len(), 2);
    assert!(events[1].contains("bytes=5"));
    assert_eq!(events[1], "fs.read_text path=docs/readme.txt bytes=5");

    let calls_before = fs.provider_calls();
    assert_eq!(read_text(&ctx, "../../etc/passwd"), Err(CoreError::InvalidPath));
    assert_eq!(fs.provider_calls(), calls_before);
    assert_eq!(log.events().len(), 2);
}
