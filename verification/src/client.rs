//! The hook client: identity and dependency resolution, configuration
//! files, and the decisions a hook makes before it talks to the
//! coordinator.
//!
//! The surrounding process reads files, environment variables and sockets;
//! everything it then decides — which id to announce, which dependencies,
//! whether to stream — is computed and specified here.

use vstd::prelude::*;

use crate::messages::Action;
use crate::server::spec_lookup_prefix;
use crate::text::{spec_join, str_is_prefix};
use crate::wire::{spec_field, spec_parse_document, FieldValue, FieldValueV};

verus! {

/// Everything a hook client needs to contact the coordinator.
pub struct ClientConfig {
    pub log_file: String,
    pub address: String,
    pub port: String,
    pub id: String,
    pub dependencies: String,
}

impl ClientConfig {
    pub fn new(
        log_file: String,
        address: String,
        port: String,
        id: String,
        dependencies: String,
    ) -> (r: ClientConfig)
        ensures
            r.log_file@ == log_file@,
            r.address@ == address@,
            r.port@ == port@,
            r.id@ == id@,
            r.dependencies@ == dependencies@,
    {
        ClientConfig { log_file, address, port, id, dependencies }
    }

    pub fn get_log_file(&self) -> (r: &str)
        ensures
            r@ == self.log_file@,
    {
        self.log_file.as_str()
    }

    pub fn get_address(&self) -> (r: &str)
        ensures
            r@ == self.address@,
    {
        self.address.as_str()
    }

    pub fn get_port(&self) -> (r: &str)
        ensures
            r@ == self.port@,
    {
        self.port.as_str()
    }

    pub fn get_id(&self) -> (r: &str)
        ensures
            r@ == self.id@,
    {
        self.id.as_str()
    }

    pub fn get_dependencies(&self) -> (r: &str)
        ensures
            r@ == self.dependencies@,
    {
        self.dependencies.as_str()
    }
}

/// Actions that belong to the dump half of a coordinated operation.
pub fn is_dump_action(action: &str) -> (r: bool)
    ensures
        r == (action@ == "pre-dump"@ || action@ == "network-lock"@ || action@ == "post-dump"@
            || action@ == "pre-stream"@),
{
    crate::text::str_eq(action, "pre-dump") || crate::text::str_eq(action, "network-lock")
        || crate::text::str_eq(action, "post-dump") || crate::text::str_eq(action, "pre-stream")
}

/// Actions that belong to the restore half of a coordinated operation.
pub fn is_restore_action(action: &str) -> (r: bool)
    ensures
        r == (action@ == "pre-restore"@ || action@ == "post-restore"@ || action@
            == "network-unlock"@ || action@ == "post-resume"@),
{
    crate::text::str_eq(action, "pre-restore") || crate::text::str_eq(action, "post-restore")
        || crate::text::str_eq(action, "network-unlock") || crate::text::str_eq(
        action,
        "post-resume",
    )
}

// ------------------------------------------------------------------
// Configuration files
// ------------------------------------------------------------------

/// The text of the field `name`, a given fallback when the field is
/// absent, and nothing when it is present but no text.
pub open spec fn spec_text_field_or(
    doc: Seq<(Seq<char>, FieldValueV)>,
    name: Seq<char>,
    fallback: Seq<char>,
) -> Option<Seq<char>> {
    match spec_field(doc, name) {
        None => Some(fallback),
        Some(FieldValueV::Text(t)) => Some(t),
        Some(_) => None,
    }
}

fn text_field_or(doc: &Vec<(String, FieldValue)>, name: &str, fallback: &str) -> (r: Option<
    String,
>)
    ensures
        match r {
            Some(t) => spec_text_field_or(doc.deep_view(), name@, fallback@) == Some(t@),
            None => spec_text_field_or(doc.deep_view(), name@, fallback@) is None,
        },
{
    match crate::wire::get_field(doc, name) {
        None => Some(String::from_str(fallback)),
        Some(FieldValue::Text(t)) => Some(t.clone()),
        Some(_) => None,
    }
}

/// What a per-image-directory configuration file means: `id` is required;
/// `dependencies`, `address`, `port` and `log-file` fall back to defaults.
pub open spec fn spec_local_config(s: Seq<char>) -> Option<
    (Seq<char>, Seq<char>, Seq<char>, Seq<char>, Seq<char>),
> {
    match spec_parse_document(s) {
        None => None,
        Some(doc) => match spec_field(doc, "id"@) {
            Some(FieldValueV::Text(id)) => {
                match (
                    spec_text_field_or(doc, "dependencies"@, Seq::empty()),
                    spec_text_field_or(doc, "address"@, "127.0.0.1"@),
                    spec_text_field_or(doc, "port"@, "8080"@),
                    spec_text_field_or(doc, "log-file"@, "-"@),
                ) {
                    (Some(deps), Some(address), Some(port), Some(log)) => Some(
                        (id, deps, address, port, log),
                    ),
                    _ => None,
                }
            },
            _ => None,
        },
    }
}

/// Reads a per-image-directory configuration file, written at dump time and
/// read back by restore-side hooks.
pub fn parse_local_config(s: &str) -> (r: Option<ClientConfig>)
    ensures
        match r {
            Some(c) => spec_local_config(s@) == Some(
                (
                    c.id@,
                    c.dependencies@,
                    c.address@,
                    c.port@,
                    c.log_file@,
                ),
            ),
            None => spec_local_config(s@) is None,
        },
{
    let doc = match crate::wire::parse_document(s) {
        None => {
            return None;
        },
        Some(d) => d,
    };
    let id = match crate::wire::get_field(&doc, "id") {
        Some(FieldValue::Text(t)) => t.clone(),
        _ => {
            return None;
        },
    };
    let deps = match text_field_or(&doc, "dependencies", "") {
        Some(t) => t,
        None => {
            return None;
        },
    };
    let address = match text_field_or(&doc, "address", "127.0.0.1") {
        Some(t) => t,
        None => {
            return None;
        },
    };
    let port = match text_field_or(&doc, "port", "8080") {
        Some(t) => t,
        None => {
            return None;
        },
    };
    let log_file = match text_field_or(&doc, "log-file", "-") {
        Some(t) => t,
        None => {
            return None;
        },
    };
    proof {
        reveal_strlit("");
        assert(""@ =~= Seq::<char>::empty());
    }
    Some(ClientConfig::new(log_file, address, port, id, deps))
}

/// The connection settings and the dependency table of the global
/// configuration file.
pub struct GlobalConfig {
    pub address: String,
    pub port: String,
    pub log_file: String,
    /// The dependency map, when the file carries one: id prefix to list of
    /// dependency ids.
    pub dependencies: Option<Vec<(String, Vec<String>)>>,
}

/// What the global configuration file means: every setting falls back to a
/// default; the dependency table is optional.
pub open spec fn spec_global_config(s: Seq<char>) -> Option<
    (Seq<char>, Seq<char>, Seq<char>, Option<Seq<(Seq<char>, Seq<Seq<char>>)>>),
> {
    match spec_parse_document(s) {
        None => None,
        Some(doc) => {
            match (
                spec_text_field_or(doc, "address"@, "127.0.0.1"@),
                spec_text_field_or(doc, "port"@, "8080"@),
                spec_text_field_or(doc, "log-file"@, "-"@),
            ) {
                (Some(address), Some(port), Some(log)) => match spec_field(
                    doc,
                    "dependencies"@,
                ) {
                    None => Some((address, port, log, None)),
                    Some(FieldValueV::Table(t)) => Some((address, port, log, Some(t))),
                    Some(_) => None,
                },
                _ => None,
            }
        },
    }
}

/// Reads the global configuration file (for example under `/etc/criu`),
/// shared by every container of one coordinated application.
pub fn parse_global_config(s: &str) -> (r: Option<GlobalConfig>)
    ensures
        match r {
            Some(c) => spec_global_config(s@) == Some(
                (
                    c.address@,
                    c.port@,
                    c.log_file@,
                    match c.dependencies {
                        Some(t) => Some(t.deep_view()),
                        None => None,
                    },
                ),
            ),
            None => spec_global_config(s@) is None,
        },
{
    let doc = match crate::wire::parse_document(s) {
        None => {
            return None;
        },
        Some(d) => d,
    };
    let address = match text_field_or(&doc, "address", "127.0.0.1") {
        Some(t) => t,
        None => {
            return None;
        },
    };
    let port = match text_field_or(&doc, "port", "8080") {
        Some(t) => t,
        None => {
            return None;
        },
    };
    let log_file = match text_field_or(&doc, "log-file", "-") {
        Some(t) => t,
        None => {
            return None;
        },
    };
    let dependencies = match crate::wire::get_field(&doc, "dependencies") {
        None => None,
        Some(FieldValue::Table(t)) => Some(crate::server::clone_table(t)),
        Some(_) => {
            return None;
        },
    };
    Some(GlobalConfig { address, port, log_file, dependencies })
}

/// The dependency list of the entry whose key is a prefix of `id`, joined
/// with colons; bulk maps may use short ids, and the first match in table
/// order wins.  The error carries the id that matched nothing.
pub fn find_dependencies_in_global_config(
    deps_map: &Vec<(String, Vec<String>)>,
    id: &str,
) -> (r: Result<String, String>)
    ensures
        match r {
            Ok(deps) => match spec_lookup_prefix(deps_map.deep_view(), id@) {
                Some(vals) => deps@ == spec_join(vals, ':'),
                None => false,
            },
            Err(e) => spec_lookup_prefix(deps_map.deep_view(), id@) is None && e@
                == "No dependency entry found for container ID matching '"@ + id@ + "'"@,
        },
{
    let ghost m = deps_map.deep_view();
    let n: usize = deps_map.len();
    let mut i: usize = 0;
    proof {
        assert(m.skip(0) =~= m);
    }
    while i < n
        invariant
            i <= n,
            n == deps_map@.len(),
            m == deps_map.deep_view(),
            spec_lookup_prefix(m, id@) == spec_lookup_prefix(m.skip(i as int), id@),
        decreases n - i,
    {
        proof {
            assert(m.skip(i as int)[0] == m[i as int]);
        }
        if str_is_prefix(deps_map[i].0.as_str(), id) {
            let joined = crate::text::join_colon(&deps_map[i].1);
            proof {
                assert(spec_lookup_prefix(m.skip(i as int), id@) == Some(m[i as int].1));
            }
            return Ok(joined);
        }
        proof {
            assert(m.skip(i as int).drop_first() =~= m.skip(i as int + 1));
        }
        i = i + 1;
    }
    proof {
        assert(m.skip(n as int) =~= Seq::<(Seq<char>, Seq<Seq<char>>)>::empty());
    }
    let mut e = String::from_str("No dependency entry found for container ID matching '");
    e.append(id);
    e.append("'");
    Err(e)
}

// ------------------------------------------------------------------
// Container identity
// ------------------------------------------------------------------

/// Is `c` an ASCII hexadecimal digit?
pub open spec fn spec_is_hex(c: char) -> bool {
    crate::wire::spec_digit(c) is Some || c == 'a' || c == 'b' || c == 'c' || c == 'd' || c == 'e'
        || c == 'f' || c == 'A' || c == 'B' || c == 'C' || c == 'D' || c == 'E' || c == 'F'
}

fn is_hex(c: char) -> (r: bool)
    ensures
        r == spec_is_hex(c),
{
    crate::wire::digit_of(c).is_some() || c == 'a' || c == 'b' || c == 'c' || c == 'd' || c == 'e'
        || c == 'f' || c == 'A' || c == 'B' || c == 'C' || c == 'D' || c == 'E' || c == 'F'
}

/// A container id occupies `line[i..i+64]`: 64 hexadecimal characters
/// bounded on both sides by the line's ends or by non-hexadecimal
/// characters.
pub open spec fn spec_token_at(line: Seq<char>, i: int) -> bool {
    &&& 0 <= i
    &&& i + 64 <= line.len()
    &&& forall|k: int| i <= k < i + 64 ==> spec_is_hex(line[k])
    &&& (i == 0 || !spec_is_hex(line[i - 1]))
    &&& (i + 64 == line.len() || !spec_is_hex(line[i + 64]))
}

/// The container id of `line` whose position is the largest at or below
/// `i`, if any.
pub open spec fn spec_scan_line_from(line: Seq<char>, i: int) -> Option<Seq<char>>
    decreases i + 1,
{
    if i < 0 {
        None
    } else if spec_token_at(line, i) {
        Some(line.subrange(i, i + 64))
    } else {
        spec_scan_line_from(line, i - 1)
    }
}

/// The last container id of the last line that carries one, if any: the
/// scan of the whole cgroup listing keeps the latest match.
pub open spec fn spec_scan_lines(lines: Seq<Seq<char>>) -> Option<Seq<char>>
    decreases lines.len(),
{
    if lines.len() == 0 {
        None
    } else {
        match spec_scan_line_from(lines.last(), lines.last().len() - 64) {
            Some(t) => Some(t),
            None => spec_scan_lines(lines.drop_last()),
        }
    }
}

/// Does `line[i..i+64]` satisfy the token conditions?
fn token_at(line: &str, i: usize) -> (r: bool)
    requires
        i + 64 <= line@.len(),
    ensures
        r == spec_token_at(line@, i as int),
{
    let n: usize = line.unicode_len();
    if i > 0 && is_hex(line.get_char(i - 1)) {
        return false;
    }
    if i + 64 < n && is_hex(line.get_char(i + 64)) {
        return false;
    }
    let mut k: usize = i;
    while k < i + 64
        invariant
            i <= k <= i + 64,
            i + 64 <= line@.len(),
            n == line@.len(),
            forall|j: int| i <= j < k ==> spec_is_hex(line@[j]),
        decreases i + 64 - k,
    {
        if !is_hex(line.get_char(k)) {
            return false;
        }
        k = k + 1;
    }
    true
}

/// The last container id on `line`, if any.
fn scan_line(line: &str) -> (r: Option<String>)
    ensures
        match r {
            Some(t) => spec_scan_line_from(line@, line@.len() - 64) == Some(t@),
            None => spec_scan_line_from(line@, line@.len() - 64) is None,
        },
{
    let n: usize = line.unicode_len();
    if n < 64 {
        proof {
            assert(line@.len() - 64 < 0);
            assert(spec_scan_line_from(line@, line@.len() - 64) is None);
        }
        return None;
    }
    let mut i: usize = n - 64;
    loop
        invariant
            i <= n - 64,
            n == line@.len(),
            n >= 64,
            spec_scan_line_from(line@, n - 64) == spec_scan_line_from(line@, i as int),
        decreases i,
    {
        if token_at(line, i) {
            return Some(String::from_str(line.substring_char(i, i + 64)));
        }
        if i == 0 {
            proof {
                assert(spec_scan_line_from(line@, -1) is None);
                assert(spec_scan_line_from(line@, 0) is None);
            }
            return None;
        }
        i = i - 1;
    }
}

/// The container id in a cgroup listing: the last 64-character hexadecimal
/// token, bounded by non-hexadecimal characters, of the last line that
/// carries one.
pub fn find_container_id(content: &str) -> (r: Option<String>)
    ensures
        match r {
            Some(t) => spec_scan_lines(crate::text::spec_split(content@, '\n')) == Some(t@),
            None => spec_scan_lines(crate::text::spec_split(content@, '\n')) is None,
        },
{
    let lines = crate::text::split_str(content, '\n');
    let ghost lv = lines.deep_view();
    let n: usize = lines.len();
    let mut i: usize = n;
    proof {
        assert(lv.take(n as int) =~= lv);
    }
    while i > 0
        invariant
            i <= n,
            n == lines@.len(),
            lv == lines.deep_view(),
            lv == crate::text::spec_split(content@, '\n'),
            spec_scan_lines(lv) == spec_scan_lines(lv.take(i as int)),
        decreases i,
    {
        proof {
            assert(lv.take(i as int).last() == lv[i - 1]);
            assert(lv.take(i as int).drop_last() =~= lv.take(i - 1));
        }
        match scan_line(lines[i - 1].as_str()) {
            Some(t) => {
                return Some(t);
            },
            None => {},
        }
        i = i - 1;
    }
    None
}

// ------------------------------------------------------------------
// Hook-mode decisions
// ------------------------------------------------------------------

/// What a hook invocation should do about streaming, given its action and
/// what stands at the image streamer's socket path.
#[derive(Clone, Copy, Debug, PartialEq, Eq, Structural)]
pub enum StreamingMode {
    /// Talk to the coordinator and run the image streamer.
    Stream,
    /// Talk to the coordinator without streaming.
    Plain,
    /// Ignore this hook: a streaming socket exists, so the non-streaming
    /// pre-dump hook has nothing to do.
    Skip,
    /// Fail: the socket path is occupied by something that is no socket.
    Reject,
}

/// Decides streaming for one hook invocation: `pre-stream` always streams;
/// `pre-dump` defers to the streaming socket if one exists, but a
/// non-socket file at its path is an error; every other action runs plain.
pub fn streaming_mode(action: Action, path_exists: bool, path_is_socket: bool) -> (r:
    StreamingMode)
    ensures
        r == (if action == Action::PreStream {
            StreamingMode::Stream
        } else if action == Action::PreDump && path_exists && path_is_socket {
            StreamingMode::Skip
        } else if action == Action::PreDump && path_exists {
            StreamingMode::Reject
        } else {
            StreamingMode::Plain
        }),
{
    if action == Action::PreStream {
        StreamingMode::Stream
    } else if action == Action::PreDump && path_exists && path_is_socket {
        StreamingMode::Skip
    } else if action == Action::PreDump && path_exists {
        StreamingMode::Reject
    } else {
        StreamingMode::Plain
    }
}

} // verus!
