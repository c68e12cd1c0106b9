//! The capability context: the bundle of filesystem, network and logging
//! capabilities handed to mediated operations, and the mediated operations
//! themselves. Each operation validates its input, delegates to the
//! underlying provider, records an audit event and returns; a sanitization
//! failure is rejected before any provider is consulted.

use vstd::prelude::*;
use crate::path::sanitize_rel_path;
use crate::path::sanitize_spec;
use crate::text::lemma_lex_lt_irrefl;
use crate::text::lemma_lex_lt_connected;
use crate::text::lemma_lex_lt_trans;
use crate::text::lex_lt;
use crate::text::str_lex_lt;
use crate::text::dec_digits;
use crate::text::u64_to_dec;

verus! {

/// Errors surfaced by the mediated operations. `InvalidPath` is a local,
/// lexical rejection: no provider call was made and no side effect happened.
/// `Fs` and `Net` wrap a provider-reported fault's detail string.
#[derive(Debug, Clone, PartialEq, Eq)]
pub enum CoreError {
    InvalidPath,
    Fs(String),
    Net(String),
}

pub type CoreResult<T> = Result<T, CoreError>;

/// The description of an error, as surfaced to callers and to the engine
/// binding layer.
pub open spec fn error_message_spec(e: CoreError) -> Seq<char> {
    match e {
        CoreError::InvalidPath => "invalid or unsafe path"@,
        CoreError::Fs(m) => "fs error: "@ + m@,
        CoreError::Net(m) => "net error: "@ + m@,
    }
}

impl CoreError {
    /// Renders the error's description.
    pub fn message(&self) -> (r: String)
        ensures
            r@ == error_message_spec(*self),
    {
        match self {
            CoreError::InvalidPath => String::from_str("invalid or unsafe path"),
            CoreError::Fs(m) => String::from_str("fs error: ").concat(m.as_str()),
            CoreError::Net(m) => String::from_str("net error: ").concat(m.as_str()),
        }
    }
}

/// Only the invalid-path error carries the invalid-path description: the
/// wrapped provider faults render under their own distinct prefixes.
pub proof fn lemma_error_messages_distinct(e: CoreError)
    ensures
        e is InvalidPath <==> error_message_spec(e) == error_message_spec(CoreError::InvalidPath),
{
    reveal_strlit("invalid or unsafe path");
    reveal_strlit("fs error: ");
    reveal_strlit("net error: ");
    let inv = error_message_spec(CoreError::InvalidPath);
    match e {
        CoreError::InvalidPath => {
        },
        CoreError::Fs(m) => {
            let s = "fs error: "@ + m@;
            assert(s[0] == 'f');
            assert(inv[0] == 'i');
            if s == inv {
                assert(s[0] == inv[0]);
            }
        },
        CoreError::Net(m) => {
            let s = "net error: "@ + m@;
            assert(s[0] == 'n');
            assert(inv[0] == 'i');
            if s == inv {
                assert(s[0] == inv[0]);
            }
        },
    }
}

/// Filesystem capability, implemented by the embedding application's
/// provider. Paths handed to it are sanitized, workspace-relative paths.
pub trait FsHost: Send + Sync {
    fn list_dir(&self, path: &str) -> Result<Vec<String>, String>;

    fn read_text(&self, path: &str) -> Result<String, String>;

    fn write_text(&self, path: &str, content: &str) -> Result<(), String>;
}

/// Network capability: fetch a text body by URL. Policy gating is applied by
/// the provider or by an enclosing layer.
pub trait NetHost: Send + Sync {
    fn get_text(&self, url: &str) -> Result<String, String>;
}

/// Logging capability: fire-and-forget event recording.
pub trait LogHost: Send + Sync {
    fn event(&self, message: &str);
}

/// The bundle of capability handles borrowed for the duration of one
/// mediated call; handles may be shared across concurrent calls.
pub struct Context<'a, F: FsHost, N: NetHost, L: LogHost> {
    pub fs: &'a F,
    pub net: &'a N,
    pub log: &'a L,
}

/// Strictly ascending in lexicographic order: sorted, with no duplicates.
pub open spec fn strictly_sorted(entries: Seq<Seq<char>>) -> bool {
    forall|i: int, j: int| 0 <= i < j < entries.len() ==> lex_lt(entries[i], entries[j])
}

/// The names of `entries`, as character sequences.
pub open spec fn entry_views(entries: Seq<String>) -> Seq<Seq<char>> {
    entries.map_values(|s: String| s@)
}

/// A strictly sorted listing holds no name twice.
pub proof fn lemma_strictly_sorted_distinct(entries: Seq<Seq<char>>)
    requires
        strictly_sorted(entries),
    ensures
        forall|i: int, j: int| 0 <= i < entries.len() && 0 <= j < entries.len() && i != j
            ==> entries[i] != entries[j],
{
    assert forall|i: int, j: int|
        0 <= i < entries.len() && 0 <= j < entries.len() && i != j implies entries[i]
        != entries[j] by {
        lemma_lex_lt_irrefl(entries[i]);
        if i < j {
            assert(lex_lt(entries[i], entries[j]));
        } else {
            assert(lex_lt(entries[j], entries[i]));
        }
    }
}

/// Sorts directory entries ascending and drops duplicates: the result holds
/// exactly the names of the input, each once, in strictly ascending order —
/// stable, reproducible output however the provider ordered or repeated them.
pub fn normalize_entries(entries: Vec<String>) -> (r: Vec<String>)
    ensures
        strictly_sorted(entry_views(r@)),
        forall|x: Seq<char>| entry_views(r@).contains(x) <==> entry_views(entries@).contains(x),
{
    let mut out: Vec<String> = Vec::new();
    let mut idx: usize = 0;
    let n: usize = entries.len();
    while idx < n
        invariant
            idx <= n,
            n == entries@.len(),
            strictly_sorted(entry_views(out@)),
            forall|x: Seq<char>|
                entry_views(out@).contains(x) <==> entry_views(entries@.take(idx as int)).contains(
                    x,
                ),
        decreases n - idx,
    {
        let e: String = entries[idx].clone();
        let ghost prev = out@;
        proof {
            assert(e@ == entry_views(entries@)[idx as int]);
        }
        let mut j: usize = 0;
        let m: usize = out.len();
        while j < m && str_lex_lt(out[j].as_str(), e.as_str())
            invariant
                j <= m,
                m == out@.len(),
                forall|k: int| 0 <= k < j ==> lex_lt(entry_views(out@)[k], e@),
            decreases m - j,
        {
            proof {
                assert(entry_views(out@)[j as int] == out@[j as int]@);
            }
            j = j + 1;
        }
        let duplicate = j < m && out[j].eq(&e);
        if !duplicate {
            out.insert(j, e);
            proof {
                assert(out@ =~= prev.insert(j as int, e));
                lemma_insert_views(prev, e, j as int);
                lemma_contains_insert(entry_views(prev), e@, j as int);
                assert forall|x: Seq<char>|
                    entry_views(out@).contains(x) <==> (entry_views(prev).contains(x) || x
                        == e@) by {
                    assert(entry_views(out@) == entry_views(prev).insert(j as int, e@));
                    assert(entry_views(out@).contains(x) == entry_views(prev).insert(
                        j as int,
                        e@,
                    ).contains(x));
                }
                assert forall|p: int, q: int|
                    0 <= p < q < entry_views(out@).len() implies lex_lt(
                    entry_views(out@)[p],
                    entry_views(out@)[q],
                ) by {
                    let ov = entry_views(prev);
                    let nv = entry_views(out@);
                    if q < j {
                        assert(nv[p] == ov[p] && nv[q] == ov[q]);
                    } else if p > j {
                        assert(nv[p] == ov[p - 1] && nv[q] == ov[q - 1]);
                    } else if p < j && q == j {
                        assert(nv[p] == ov[p] && nv[q] == e@);
                    } else if p == j && q > j {
                        assert(nv[p] == e@ && nv[q] == ov[q - 1]);
                        if j < m {
                            assert(!lex_lt(ov[j as int], e@));
                            assert(ov[j as int] != e@);
                            lemma_lex_lt_connected_cases(e@, ov[j as int]);
                            if q - 1 > j {
                                lemma_lex_lt_trans(e@, ov[j as int], ov[q - 1]);
                            }
                        }
                    } else if p < j && q > j {
                        assert(nv[p] == ov[p] && nv[q] == ov[q - 1]);
                    }
                }
            }
        } else {
            proof {
                assert(entry_views(out@)[j as int] == out@[j as int]@);
                assert(entry_views(out@).contains(e@));
                assert forall|x: Seq<char>|
                    entry_views(out@).contains(x) <==> (entry_views(prev).contains(x) || x
                        == e@) by {
                    assert(entry_views(out@) == entry_views(prev));
                }
            }
        }
        proof {
            assert(entry_views(entries@.take(idx as int + 1)) =~= entry_views(
                entries@.take(idx as int),
            ).push(e@));
            lemma_contains_push(entry_views(entries@.take(idx as int)), e@);
            assert forall|x: Seq<char>|
                entry_views(out@).contains(x) <==> entry_views(
                entries@.take(idx as int + 1),
            ).contains(x) by {
                assert(entry_views(out@).contains(x) <==> (entry_views(prev).contains(x) || x
                    == e@));
                assert(entry_views(prev).contains(x) <==> entry_views(
                    entries@.take(idx as int),
                ).contains(x));
                assert(entry_views(entries@.take(idx as int + 1)).contains(x) == entry_views(
                    entries@.take(idx as int),
                ).push(e@).contains(x));
            }
        }
        idx = idx + 1;
    }
    proof {
        assert(entries@.take(n as int) =~= entries@);
    }
    out
}

/// Inserting a name into a listing inserts its view at the same position.
proof fn lemma_insert_views(entries: Seq<String>, e: String, j: int)
    requires
        0 <= j <= entries.len(),
    ensures
        entry_views(entries.insert(j, e)) =~= entry_views(entries).insert(j, e@),
{
}

/// What a listing contains after a name is inserted at position `j`.
proof fn lemma_contains_insert(views: Seq<Seq<char>>, x: Seq<char>, j: int)
    requires
        0 <= j <= views.len(),
    ensures
        forall|y: Seq<char>| views.insert(j, x).contains(y) <==> (views.contains(y) || y == x),
{
    let nv = views.insert(j, x);
    assert forall|y: Seq<char>| nv.contains(y) implies (views.contains(y) || y == x) by {
        let i = choose|i: int| 0 <= i < nv.len() && nv[i] == y;
        if i < j {
            assert(views[i] == y);
        } else if i > j {
            assert(views[i - 1] == y);
        }
    }
    assert forall|y: Seq<char>| (views.contains(y) || y == x) implies nv.contains(y) by {
        if y == x {
            assert(nv[j] == x);
        } else {
            let i = choose|i: int| 0 <= i < views.len() && views[i] == y;
            if i < j {
                assert(nv[i] == y);
            } else {
                assert(nv[i + 1] == y);
            }
        }
    }
}

/// What a listing contains after one more name.
proof fn lemma_contains_push(views: Seq<Seq<char>>, x: Seq<char>)
    ensures
        forall|y: Seq<char>| views.push(x).contains(y) <==> (views.contains(y) || y == x),
{
    assert forall|y: Seq<char>| views.push(x).contains(y) implies (views.contains(y) || y == x) by {
        let i = choose|i: int| 0 <= i < views.push(x).len() && views.push(x)[i] == y;
        if i < views.len() {
            assert(views[i] == y);
        }
    }
    assert forall|y: Seq<char>| (views.contains(y) || y == x) implies views.push(x).contains(y) by {
        if y == x {
            assert(views.push(x)[views.len() as int] == x);
        } else {
            let i = choose|i: int| 0 <= i < views.len() && views[i] == y;
            assert(views.push(x)[i] == y);
        }
    }
}

/// Of two distinct names, one strictly precedes the other.
proof fn lemma_lex_lt_connected_cases(a: Seq<char>, b: Seq<char>)
    requires
        a != b,
    ensures
        lex_lt(a, b) || lex_lt(b, a),
{
    if !lex_lt(a, b) && !lex_lt(b, a) {
        lemma_lex_lt_connected(a, b);
    }
}

/// Builds the audit event recorded for a directory listing of `rel`.
pub fn list_dir_event(rel: &str) -> (m: String)
    ensures
        m@ == "fs.list_dir path="@ + rel@,
{
    let mut m = String::from_str("fs.list_dir path=");
    m.append(rel);
    m
}

/// Builds the audit event recorded for reading `n` bytes from `rel`.
pub fn read_text_event(rel: &str, n: u64) -> (m: String)
    ensures
        m@ == "fs.read_text path="@ + rel@ + " bytes="@ + dec_digits(n as nat),
{
    let mut m = String::from_str("fs.read_text path=");
    m.append(rel);
    m.append(" bytes=");
    let digits = u64_to_dec(n);
    m.append(digits.as_str());
    m
}

/// Builds the audit event recorded for writing `n` bytes to `rel`.
pub fn write_text_event(rel: &str, n: u64) -> (m: String)
    ensures
        m@ == "fs.write_text path="@ + rel@ + " bytes="@ + dec_digits(n as nat),
{
    let mut m = String::from_str("fs.write_text path=");
    m.append(rel);
    m.append(" bytes=");
    let digits = u64_to_dec(n);
    m.append(digits.as_str());
    m
}

/// Builds the audit event recorded for fetching `n` bytes from `url`.
pub fn fetch_event(url: &str, n: u64) -> (m: String)
    ensures
        m@ == "net.get_text url="@ + url@ + " bytes="@ + dec_digits(n as nat),
{
    let mut m = String::from_str("net.get_text url=");
    m.append(url);
    m.append(" bytes=");
    let digits = u64_to_dec(n);
    m.append(digits.as_str());
    m
}

/// Lists a directory: sanitize the path, delegate to the filesystem
/// provider, sort and deduplicate the returned names, record an audit event.
/// Rejected paths never reach the provider and come back as `InvalidPath`;
/// provider faults come back as `Fs`.
pub fn list_dir<'a, F: FsHost, N: NetHost, L: LogHost>(
    ctx: &Context<'a, F, N, L>,
    path: &str,
) -> (r: CoreResult<Vec<String>>)
    ensures
        sanitize_spec(path@) is None <==> r == Err::<Vec<String>, CoreError>(
            CoreError::InvalidPath,
        ),
        r matches Ok(v) ==> strictly_sorted(entry_views(v@)),
        r matches Err(e) ==> e is InvalidPath || e is Fs,
{
    let rel = match sanitize_rel_path(path) {
        Some(rel) => rel,
        None => {
            return Err(CoreError::InvalidPath);
        },
    };
    let entries = match ctx.fs.list_dir(rel.as_str()) {
        Ok(entries) => entries,
        Err(m) => {
            return Err(CoreError::Fs(m));
        },
    };
    let entries = normalize_entries(entries);
    let msg = list_dir_event(rel.as_str());
    ctx.log.event(msg.as_str());
    Ok(entries)
}

/// Reads a text file: sanitize the path, delegate to the filesystem
/// provider, record an audit event holding the byte length.
pub fn read_text<'a, F: FsHost, N: NetHost, L: LogHost>(
    ctx: &Context<'a, F, N, L>,
    path: &str,
) -> (r: CoreResult<String>)
    ensures
        sanitize_spec(path@) is None <==> r == Err::<String, CoreError>(CoreError::InvalidPath),
        r matches Err(e) ==> e is InvalidPath || e is Fs,
{
    let rel = match sanitize_rel_path(path) {
        Some(rel) => rel,
        None => {
            return Err(CoreError::InvalidPath);
        },
    };
    let text = match ctx.fs.read_text(rel.as_str()) {
        Ok(text) => text,
        Err(m) => {
            return Err(CoreError::Fs(m));
        },
    };
    let msg = read_text_event(rel.as_str(), text.as_str().len() as u64);
    ctx.log.event(msg.as_str());
    Ok(text)
}

/// Writes a text file: sanitize the path, delegate to the filesystem
/// provider (which creates intermediate directories), record an audit event
/// holding the byte length.
pub fn write_text<'a, F: FsHost, N: NetHost, L: LogHost>(
    ctx: &Context<'a, F, N, L>,
    path: &str,
    content: &str,
) -> (r: CoreResult<()>)
    ensures
        sanitize_spec(path@) is None <==> r == Err::<(), CoreError>(CoreError::InvalidPath),
        r matches Err(e) ==> e is InvalidPath || e is Fs,
{
    let rel = match sanitize_rel_path(path) {
        Some(rel) => rel,
        None => {
            return Err(CoreError::InvalidPath);
        },
    };
    match ctx.fs.write_text(rel.as_str(), content) {
        Ok(_) => {},
        Err(m) => {
            return Err(CoreError::Fs(m));
        },
    };
    let msg = write_text_event(rel.as_str(), content.len() as u64);
    ctx.log.event(msg.as_str());
    Ok(())
}

/// Fetches a text body by URL: delegate to the network provider (policy is
/// enforced by the provider or an enclosing layer, not re-checked here),
/// record an audit event holding the URL and the response length. Provider
/// faults come back as `Net`.
pub fn fetch_json<'a, F: FsHost, N: NetHost, L: LogHost>(
    ctx: &Context<'a, F, N, L>,
    url: &str,
) -> (r: CoreResult<String>)
    ensures
        r matches Err(e) ==> e is Net,
{
    let body = match ctx.net.get_text(url) {
        Ok(body) => body,
        Err(m) => {
            return Err(CoreError::Net(m));
        },
    };
    let msg = fetch_event(url, body.as_str().len() as u64);
    ctx.log.event(msg.as_str());
    Ok(body)
}

} // verus!
