//! Benchmark configuration: defaults, the server registry and how server
//! references resolve against it, the `response` and `servers` settings,
//! benchmark selection, and the tally of `--verify` checks.
use vstd::prelude::*;
use crate::json::JsonValue;
use crate::expect::{self, ExpectConfig};
use crate::text;

verus! {

// ---------------------------------------------------------------------------
// Types
// ---------------------------------------------------------------------------

/// A server to benchmark.
pub struct ServerConfig {
    pub label: String,
    pub description: String,
    pub link: String,
    pub cmd: String,
    pub args: Vec<String>,
    /// Git ref to check out and build from.
    pub commit: Option<String>,
    /// Path to the git repository to build from.
    pub repo: Option<String>,
}

/// A named version of a registry entry; each field present overrides the
/// entry's.
pub struct ServerVersion {
    pub cmd: Option<String>,
    pub args: Option<Vec<String>>,
    pub link: Option<String>,
    pub description: Option<String>,
    pub commit: Option<String>,
    pub repo: Option<String>,
}

/// A server definition in the registry, with its named versions.
pub struct RegistryEntry {
    pub cmd: String,
    pub args: Vec<String>,
    pub link: String,
    pub description: String,
    pub commit: Option<String>,
    pub repo: Option<String>,
    pub versions: Vec<(String, ServerVersion)>,
}

/// The server registry: server name to definition.
pub struct ServerRegistry {
    pub entries: Vec<(String, RegistryEntry)>,
}

pub ghost struct Server {
    pub label: Seq<char>,
    pub description: Seq<char>,
    pub link: Seq<char>,
    pub cmd: Seq<char>,
    pub args: Seq<Seq<char>>,
    pub commit: Option<Seq<char>>,
    pub repo: Option<Seq<char>>,
}

pub ghost struct Version {
    pub cmd: Option<Seq<char>>,
    pub args: Option<Seq<Seq<char>>>,
    pub link: Option<Seq<char>>,
    pub description: Option<Seq<char>>,
    pub commit: Option<Seq<char>>,
    pub repo: Option<Seq<char>>,
}

pub ghost struct Entry {
    pub cmd: Seq<char>,
    pub args: Seq<Seq<char>>,
    pub link: Seq<char>,
    pub description: Seq<char>,
    pub commit: Option<Seq<char>>,
    pub repo: Option<Seq<char>>,
    pub versions: Seq<(Seq<char>, Version)>,
}

pub open spec fn strings(v: Seq<String>) -> Seq<Seq<char>> {
    v.map_values(|s: String| s@)
}

impl View for ServerConfig {
    type V = Server;

    open spec fn view(&self) -> Server {
        Server {
            label: self.label@,
            description: self.description@,
            link: self.link@,
            cmd: self.cmd@,
            args: strings(self.args@),
            commit: text::opt_view(self.commit),
            repo: text::opt_view(self.repo),
        }
    }
}

impl View for ServerVersion {
    type V = Version;

    open spec fn view(&self) -> Version {
        Version {
            cmd: text::opt_view(self.cmd),
            args: match self.args {
                Some(a) => Some(strings(a@)),
                None => None,
            },
            link: text::opt_view(self.link),
            description: text::opt_view(self.description),
            commit: text::opt_view(self.commit),
            repo: text::opt_view(self.repo),
        }
    }
}

impl View for RegistryEntry {
    type V = Entry;

    open spec fn view(&self) -> Entry {
        Entry {
            cmd: self.cmd@,
            args: strings(self.args@),
            link: self.link@,
            description: self.description@,
            commit: text::opt_view(self.commit),
            repo: text::opt_view(self.repo),
            versions: self.versions@.map_values(|p: (String, ServerVersion)| (p.0@, p.1@)),
        }
    }
}

impl View for ServerRegistry {
    type V = Seq<(Seq<char>, Entry)>;

    open spec fn view(&self) -> Seq<(Seq<char>, Entry)> {
        self.entries@.map_values(|p: (String, RegistryEntry)| (p.0@, p.1@))
    }
}

// ---------------------------------------------------------------------------
// Keyed lists
// ---------------------------------------------------------------------------

/// The value stored under `k` (the first pair with that key).
pub open spec fn lookup<T>(m: Seq<(Seq<char>, T)>, k: Seq<char>) -> Option<T>
    decreases m.len(),
{
    if m.len() == 0 {
        None
    } else if m[0].0 == k {
        Some(m[0].1)
    } else {
        lookup(m.drop_first(), k)
    }
}

/// No key occurs twice.
pub open spec fn keys_unique<T>(m: Seq<(Seq<char>, T)>) -> bool {
    forall|i: int, j: int| 0 <= i < j < m.len() ==> #[trigger] m[i].0 != #[trigger] m[j].0
}

/// The list after storing `v` under `k`: in place where `k` is present,
/// appended otherwise.
pub open spec fn upsert<T>(m: Seq<(Seq<char>, T)>, k: Seq<char>, v: T) -> Seq<(Seq<char>, T)> {
    if exists|i: int| 0 <= i < m.len() && m[i].0 == k {
        let i = choose|i: int| 0 <= i < m.len() && m[i].0 == k;
        m.update(i, (k, v))
    } else {
        m.push((k, v))
    }
}

impl ServerRegistry {
    /// Names are unique, as in a map.
    pub open spec fn wf(&self) -> bool {
        &&& keys_unique(self@)
        &&& forall|i: int| 0 <= i < self@.len() ==> keys_unique(#[trigger] self@[i].1.versions)
    }

    /// An empty registry.
    pub fn new() -> (r: ServerRegistry)
        ensures
            r.wf(),
            r@ == Seq::<(Seq<char>, Entry)>::empty(),
    {
        let r = ServerRegistry { entries: Vec::new() };
        assert(r@ =~= Seq::<(Seq<char>, Entry)>::empty());
        r
    }

    /// Stores a definition under a name, replacing an earlier one.
    pub fn insert(&mut self, name: String, entry: RegistryEntry)
        requires
            old(self).wf(),
            keys_unique(entry@.versions),
        ensures
            final(self).wf(),
            final(self)@ == upsert(old(self)@, name@, entry@),
    {
        let ghost m = self@;
        let mut i: usize = 0;
        while i < self.entries.len()
            invariant
                i <= self.entries@.len(),
                self@ == m,
                m == old(self)@,
                old(self).wf(),
                keys_unique(entry@.versions),
                forall|j: int| 0 <= j < i ==> m[j].0 != name@,
            decreases self.entries.len() - i,
        {
            if json_eq(self.entries[i].0.as_str(), name.as_str()) {
                proof {
                    assert(m[i as int].0 == name@);
                    assert(exists|j: int| 0 <= j < m.len() && m[j].0 == name@);
                    let c = choose|j: int| 0 <= j < m.len() && m[j].0 == name@;
                    if c != i {
                        if c < i {
                            assert(m[c].0 != name@);
                        } else {
                            assert(keys_unique(m));
                            assert(m[i as int].0 != m[c].0);
                        }
                    }
                }
                let ghost e = entry@;
                self.entries.set(i, (name, entry));
                assert(self@ =~= m.update(i as int, (m[i as int].0, e)));
                assert forall|a: int, b: int| 0 <= a < b < self@.len() implies #[trigger] self@[a].0
                    != #[trigger] self@[b].0 by {
                    assert(self@[a].0 == m[a].0);
                    assert(self@[b].0 == m[b].0);
                    assert(m[a].0 != m[b].0);
                }
                assert forall|a: int| 0 <= a < self@.len() implies keys_unique(#[trigger] self@[a].1.versions) by {
                    if a != i {
                        assert(self@[a] == m[a]);
                    }
                }
                return;
            }
            i += 1;
        }
        let ghost e = entry@;
        let ghost k = name@;
        self.entries.push((name, entry));
        assert(self@ =~= m.push((k, e)));
        assert forall|a: int, b: int| 0 <= a < b < self@.len() implies #[trigger] self@[a].0
            != #[trigger] self@[b].0 by {
            if b < m.len() {
                assert(self@[a].0 == m[a].0);
                assert(self@[b].0 == m[b].0);
                assert(m[a].0 != m[b].0);
            } else {
                assert(self@[a].0 == m[a].0);
            }
        }
        assert forall|a: int| 0 <= a < self@.len() implies keys_unique(#[trigger] self@[a].1.versions) by {
            if a < m.len() {
                assert(self@[a] == m[a]);
            }
        }
    }
}

// ---------------------------------------------------------------------------
// Server references
// ---------------------------------------------------------------------------

/// `name.split_once('@')`: the base name and the version after the first `@`.
pub open spec fn split_reference(name: Seq<char>) -> (Seq<char>, Option<Seq<char>>) {
    match text::find(name, "@"@) {
        Some(i) => (name.subrange(0, i), Some(name.subrange(i + 1, name.len() as int))),
        None => (name, None),
    }
}

pub open spec fn or_str(o: Option<Seq<char>>, d: Seq<char>) -> Seq<char> {
    match o {
        Some(s) => s,
        None => d,
    }
}

pub open spec fn or_opt(o: Option<Seq<char>>, d: Option<Seq<char>>) -> Option<Seq<char>> {
    match o {
        Some(s) => Some(s),
        None => d,
    }
}

/// The server a reference such as "mmsaki" or "mmsaki@v0.1.20" stands for:
/// the registry entry of the base name, labelled "base version" when a
/// version is named, with the fields of that version (when the entry has
/// it) overriding the entry's; a name not in the registry is both label
/// and command.
pub open spec fn resolved(name: Seq<char>, reg: Seq<(Seq<char>, Entry)>) -> Server {
    let (base, version) = split_reference(name);
    match lookup(reg, base) {
        Some(e) => {
            let label = match version {
                Some(v) => base + " "@ + v,
                None => base,
            };
            let ver = match version {
                Some(v) => lookup(e.versions, v),
                None => None,
            };
            match ver {
                Some(x) => Server {
                    label,
                    cmd: or_str(x.cmd, e.cmd),
                    args: match x.args {
                        Some(a) => a,
                        None => e.args,
                    },
                    link: or_str(x.link, e.link),
                    description: or_str(x.description, e.description),
                    commit: or_opt(x.commit, e.commit),
                    repo: or_opt(x.repo, e.repo),
                },
                None => Server {
                    label,
                    cmd: e.cmd,
                    args: e.args,
                    link: e.link,
                    description: e.description,
                    commit: e.commit,
                    repo: e.repo,
                },
            }
        },
        None => Server {
            label: name,
            cmd: name,
            args: Seq::empty(),
            link: Seq::empty(),
            description: Seq::empty(),
            commit: None,
            repo: None,
        },
    }
}

/// A server whose entry is missing the version the reference names:
/// `(version, base)`.
pub open spec fn missing_version_of(name: Seq<char>, reg: Seq<(Seq<char>, Entry)>) -> Option<
    (Seq<char>, Seq<char>),
> {
    let (base, version) = split_reference(name);
    match (lookup(reg, base), version) {
        (Some(e), Some(v)) => if lookup(e.versions, v) is None {
            Some((v, base))
        } else {
            None
        },
        _ => None,
    }
}

fn copy_string(s: &String) -> (r: String)
    ensures
        r@ == s@,
{
    s.as_str().to_owned()
}

fn copy_opt(o: &Option<String>) -> (r: Option<String>)
    ensures
        text::opt_view(r) == text::opt_view(*o),
{
    match o {
        Some(s) => Some(copy_string(s)),
        None => None,
    }
}

fn copy_strings(v: &Vec<String>) -> (r: Vec<String>)
    ensures
        strings(r@) == strings(v@),
{
    let mut r: Vec<String> = Vec::new();
    let mut i: usize = 0;
    while i < v.len()
        invariant
            i <= v@.len(),
            strings(r@) == strings(v@.subrange(0, i as int)),
        decreases v.len() - i,
    {
        let ghost before = r@;
        let c = copy_string(&v[i]);
        r.push(c);
        assert(r@ == before.push(c));
        assert(strings(r@) =~= strings(before).push(v@[i as int]@));
        i += 1;
        assert(v@.subrange(0, i as int) =~= v@.subrange(0, i - 1).push(v@[i - 1]));
        assert(strings(r@) =~= strings(v@.subrange(0, i as int)));
    }
    assert(v@.subrange(0, v@.len() as int) =~= v@);
    r
}

/// A copy of a server definition.
pub fn copy_server(c: &ServerConfig) -> (r: ServerConfig)
    ensures
        r@ == c@,
{
    ServerConfig {
        label: copy_string(&c.label),
        description: copy_string(&c.description),
        link: copy_string(&c.link),
        cmd: copy_string(&c.cmd),
        args: copy_strings(&c.args),
        commit: copy_opt(&c.commit),
        repo: copy_opt(&c.repo),
    }
}

fn find_entry<'a>(reg: &'a ServerRegistry, name: &str) -> (r: Option<&'a RegistryEntry>)
    ensures
        match r {
            Some(e) => lookup(reg@, name@) == Some(e@),
            None => lookup(reg@, name@) is None,
        },
{
    let mut i: usize = 0;
    assert(reg@.subrange(0, reg@.len() as int) =~= reg@);
    while i < reg.entries.len()
        invariant
            i <= reg.entries@.len(),
            lookup(reg@, name@) == lookup(reg@.subrange(i as int, reg@.len() as int), name@),
        decreases reg.entries.len() - i,
    {
        let ghost t = reg@.subrange(i as int, reg@.len() as int);
        assert(t.drop_first() =~= reg@.subrange(i + 1, reg@.len() as int));
        assert(t[0] == (reg.entries@[i as int].0@, reg.entries@[i as int].1@));
        if json_eq(reg.entries[i].0.as_str(), name) {
            return Some(&reg.entries[i].1);
        }
        i += 1;
    }
    None
}

fn find_version<'a>(e: &'a RegistryEntry, name: &str) -> (r: Option<&'a ServerVersion>)
    ensures
        match r {
            Some(v) => lookup(e@.versions, name@) == Some(v@),
            None => lookup(e@.versions, name@) is None,
        },
{
    let ghost vs = e@.versions;
    let mut i: usize = 0;
    assert(vs.subrange(0, vs.len() as int) =~= vs);
    while i < e.versions.len()
        invariant
            i <= e.versions@.len(),
            vs == e@.versions,
            lookup(vs, name@) == lookup(vs.subrange(i as int, vs.len() as int), name@),
        decreases e.versions.len() - i,
    {
        let ghost t = vs.subrange(i as int, vs.len() as int);
        assert(t.drop_first() =~= vs.subrange(i + 1, vs.len() as int));
        assert(t[0] == (e.versions@[i as int].0@, e.versions@[i as int].1@));
        if json_eq(e.versions[i].0.as_str(), name) {
            return Some(&e.versions[i].1);
        }
        i += 1;
    }
    None
}

fn json_eq(a: &str, b: &str) -> (r: bool)
    ensures
        r == (a@ == b@),
{
    crate::json::str_eq(a, b)
}

/// Splits a reference at its first `@`.
fn split_reference_exec(name: &str) -> (r: (String, Option<String>))
    ensures
        (r.0@, text::opt_view(r.1)) == split_reference(name@),
{
    let cs = text::chars_of(name);
    let at: Vec<char> = vec!['@'];
    proof {
        reveal_strlit("@");
        assert(at@ =~= "@"@);
        text::lemma_find_from_bound(name@, "@"@, 0);
    }
    match text::find_exec(cs.as_slice(), at.as_slice()) {
        Some(i) => {
            let n = cs.len();
            let b = text::slice_of(cs.as_slice(), 0, i);
            let v = text::slice_of(cs.as_slice(), i + 1, n);
            (text::string_of(b.as_slice()), Some(text::string_of(v.as_slice())))
        },
        None => (name.to_owned(), None),
    }
}

/// Resolves a server reference against the registry.
pub fn resolve_server(name: &str, registry: &ServerRegistry) -> (r: ServerConfig)
    ensures
        r@ == resolved(name@, registry@),
{
    let (base, version) = split_reference_exec(name);
    match find_entry(registry, base.as_str()) {
        Some(entry) => {
            let label = match &version {
                Some(v) => {
                    let mut l: Vec<char> = text::chars_of(base.as_str());
                    text::extend_str(&mut l, " ");
                    text::extend_str(&mut l, v.as_str());
                    text::string_of(l.as_slice())
                },
                None => copy_string(&base),
            };
            let ver: Option<&ServerVersion> = match &version {
                Some(v) => find_version(entry, v.as_str()),
                None => None,
            };
            match ver {
                Some(x) => ServerConfig {
                    label,
                    cmd: match &x.cmd {
                        Some(c) => copy_string(c),
                        None => copy_string(&entry.cmd),
                    },
                    args: match &x.args {
                        Some(a) => copy_strings(a),
                        None => copy_strings(&entry.args),
                    },
                    link: match &x.link {
                        Some(l) => copy_string(l),
                        None => copy_string(&entry.link),
                    },
                    description: match &x.description {
                        Some(d) => copy_string(d),
                        None => copy_string(&entry.description),
                    },
                    commit: match &x.commit {
                        Some(c) => Some(copy_string(c)),
                        None => copy_opt(&entry.commit),
                    },
                    repo: match &x.repo {
                        Some(p) => Some(copy_string(p)),
                        None => copy_opt(&entry.repo),
                    },
                },
                None => ServerConfig {
                    label,
                    cmd: copy_string(&entry.cmd),
                    args: copy_strings(&entry.args),
                    link: copy_string(&entry.link),
                    description: copy_string(&entry.description),
                    commit: copy_opt(&entry.commit),
                    repo: copy_opt(&entry.repo),
                },
            }
        },
        None => {
            let r = ServerConfig {
                label: name.to_owned(),
                cmd: name.to_owned(),
                args: Vec::new(),
                link: String::new(),
                description: String::new(),
                commit: None,
                repo: None,
            };
            assert(r@.args =~= Seq::<Seq<char>>::empty());
            r
        },
    }
}

/// The version a reference names when its registry entry lacks it, with
/// the base name: `(version, base)`.
pub fn missing_version(name: &str, registry: &ServerRegistry) -> (r: Option<(String, String)>)
    ensures
        match r {
            Some((v, b)) => missing_version_of(name@, registry@) == Some((v@, b@)),
            None => missing_version_of(name@, registry@) is None,
        },
{
    let (base, version) = split_reference_exec(name);
    match (find_entry(registry, base.as_str()), version) {
        (Some(entry), Some(v)) => {
            if find_version(entry, v.as_str()).is_none() {
                Some((v, base))
            } else {
                None
            }
        },
        _ => None,
    }
}

/// The servers after resolving each string reference (an entry with an
/// empty command) against the registry.
pub open spec fn resolved_servers(s: Seq<Server>, reg: Seq<(Seq<char>, Entry)>) -> Seq<Server> {
    Seq::new(
        s.len(),
        |i: int|
            if s[i].cmd.len() == 0 {
                resolved(s[i].label, reg)
            } else {
                s[i]
            },
    )
}

pub open spec fn servers_view(v: Seq<ServerConfig>) -> Seq<Server> {
    v.map_values(|s: ServerConfig| s@)
}

/// Resolves string-reference servers against the registry; inline
/// definitions (non-empty command) are left as they are.
pub fn resolve_servers(servers: &mut Vec<ServerConfig>, registry: &ServerRegistry)
    ensures
        servers_view(final(servers)@) == resolved_servers(servers_view(old(servers)@), registry@),
{
    let ghost orig = servers_view(servers@);
    let mut i: usize = 0;
    while i < servers.len()
        invariant
            i <= servers@.len(),
            servers@.len() == orig.len(),
            orig == servers_view(old(servers)@),
            forall|j: int| 0 <= j < i ==> (#[trigger] servers_view(servers@)[j]) == resolved_servers(orig, registry@)[j],
            forall|j: int| i <= j < servers@.len() ==> (#[trigger] servers_view(servers@)[j]) == orig[j],
        decreases servers.len() - i,
    {
        let ghost before = servers_view(servers@);
        assert(before[i as int] == orig[i as int]);
        if servers[i].cmd.as_str().is_empty() {
            let r = resolve_server(servers[i].label.as_str(), registry);
            servers.set(i, r);
            assert forall|j: int| 0 <= j < servers@.len() && j != i implies (#[trigger] servers_view(servers@)[j]) == before[j] by {
            }
            assert(servers_view(servers@)[i as int] == resolved_servers(orig, registry@)[i as int]);
        } else {
            assert(servers_view(servers@)[i as int] == resolved_servers(orig, registry@)[i as int]);
        }
        i += 1;
    }
    assert(servers_view(servers@) =~= resolved_servers(orig, registry@));
}

// ---------------------------------------------------------------------------
// Defaults
// ---------------------------------------------------------------------------

/// The benchmark target a configuration names: its `project` directory and
/// its `file`, both required.
pub open spec fn target_of(project: Option<Seq<char>>, file: Option<Seq<char>>) -> Result<
    (Seq<char>, Seq<char>),
    Seq<char>,
> {
    match (project, file) {
        (None, _) => Err("missing field `project`"@),
        (Some(_), None) => Err("missing field `file`"@),
        (Some(p), Some(f)) => Ok((p, f)),
    }
}

/// Reads the benchmark target of a configuration: `project` and `file` must
/// both be given.
pub fn config_target(project: Option<String>, file: Option<String>) -> (r: Result<(String, String), String>)
    ensures
        match r {
            Ok((p, f)) => target_of(text::opt_view(project), text::opt_view(file)) == Ok::<
                (Seq<char>, Seq<char>),
                Seq<char>,
            >((p@, f@)),
            Err(m) => target_of(text::opt_view(project), text::opt_view(file)) == Err::<
                (Seq<char>, Seq<char>),
                Seq<char>,
            >(m@),
        },
{
    match (project, file) {
        (None, _) => Err("missing field `project`".to_owned()),
        (Some(_), None) => Err("missing field `file`".to_owned()),
        (Some(p), Some(f)) => Ok((p, f)),
    }
}

/// The current directory as a project path: where `replay` runs a server
/// when no project is given.
pub fn default_project() -> (r: String)
    ensures
        r@ == "."@,
{
    ".".to_owned()
}

/// Default 0-based line of the target position.
pub fn default_line() -> (r: u32)
    ensures
        r == 102,
{
    102
}

/// Default 0-based column of the target position.
pub fn default_col() -> (r: u32)
    ensures
        r == 15,
{
    15
}

/// Default number of measured iterations.
pub fn default_iterations() -> (r: usize)
    ensures
        r == 10,
{
    10
}

/// Default number of warmup iterations.
pub fn default_warmup() -> (r: usize)
    ensures
        r == 2,
{
    2
}

/// Default request timeout in seconds.
pub fn default_timeout() -> (r: u64)
    ensures
        r == 10,
{
    10
}

/// Default indexing timeout in seconds.
pub fn default_index_timeout() -> (r: u64)
    ensures
        r == 15,
{
    15
}

/// Default output directory.
pub fn default_output() -> (r: String)
    ensures
        r@ == "benchmarks"@,
{
    "benchmarks".to_owned()
}

/// Default report style.
pub fn default_report_style() -> (r: String)
    ensures
        r@ == "delta"@,
{
    "delta".to_owned()
}

/// Default response preview length in characters.
pub fn default_response_limit() -> (r: usize)
    ensures
        r == 80,
{
    80
}

/// The server benchmarked when the configuration names none.
pub open spec fn default_server() -> Server {
    Server {
        label: "mmsaki"@,
        description: Seq::empty(),
        link: "https://github.com/mmsaki/solidity-language-server"@,
        cmd: "solidity-language-server"@,
        args: Seq::empty(),
        commit: None,
        repo: None,
    }
}

/// The default server list: solidity-language-server alone.
pub fn default_servers() -> (r: Vec<ServerConfig>)
    ensures
        servers_view(r@) == seq![default_server()],
{
    let s = ServerConfig {
        label: "mmsaki".to_owned(),
        cmd: "solidity-language-server".to_owned(),
        args: Vec::new(),
        link: "https://github.com/mmsaki/solidity-language-server".to_owned(),
        description: String::new(),
        commit: None,
        repo: None,
    };
    proof {
        reveal_strlit("");
        assert(s@.args =~= Seq::<Seq<char>>::empty());
        assert(s@.description =~= Seq::<char>::empty());
    }
    let mut v: Vec<ServerConfig> = Vec::new();
    v.push(s);
    assert(servers_view(v@) =~= seq![default_server()]);
    v
}

// ---------------------------------------------------------------------------
// Settings read from YAML
// ---------------------------------------------------------------------------

/// The `response` setting as written in the configuration.
pub enum ResponseSetting {
    Null,
    Text(String),
    Flag(bool),
    Unsigned(u64),
    /// A number that is not an unsigned integer.
    OtherNumber,
    /// Any other YAML value.
    Other,
}

/// The response preview limit a setting gives: "full" and `true` are 0 (no
/// limit), a number is taken as it is, null is 80; anything else is an
/// error.
pub open spec fn response_limit_of(s: ResponseSetting) -> Result<usize, Seq<char>> {
    match s {
        ResponseSetting::Null => Ok(80),
        ResponseSetting::Text(t) => if t@ == "full"@ {
            Ok(0)
        } else {
            Err("response must be \"full\" or a number"@)
        },
        ResponseSetting::Flag(b) => if b {
            Ok(0)
        } else {
            Err("response must be \"full\" or a number"@)
        },
        ResponseSetting::Unsigned(v) => Ok(v as usize),
        ResponseSetting::OtherNumber => Err("response must be \"full\" or a positive number"@),
        ResponseSetting::Other => Err("response must be \"full\" or a number"@),
    }
}

pub open spec fn result_text<T>(r: Result<T, String>) -> Result<T, Seq<char>> {
    match r {
        Ok(v) => Ok(v),
        Err(e) => Err(e@),
    }
}

/// Reads the `response` setting.
pub fn response_limit(setting: ResponseSetting) -> (r: Result<usize, String>)
    ensures
        result_text(r) == response_limit_of(setting),
{
    match setting {
        ResponseSetting::Null => Ok(80),
        ResponseSetting::Text(t) => if json_eq(t.as_str(), "full") {
            Ok(0)
        } else {
            Err("response must be \"full\" or a number".to_owned())
        },
        ResponseSetting::Flag(b) => if b {
            Ok(0)
        } else {
            Err("response must be \"full\" or a number".to_owned())
        },
        ResponseSetting::Unsigned(v) => Ok(#[verifier::truncate] (v as usize)),
        ResponseSetting::OtherNumber => Err("response must be \"full\" or a positive number".to_owned()),
        ResponseSetting::Other => Err("response must be \"full\" or a number".to_owned()),
    }
}

/// One entry of the `servers` list.
pub enum ServerEntry {
    /// A registry reference such as "mmsaki@v0.1.20".
    Reference(String),
    /// An inline definition.
    Inline(ServerConfig),
    /// Any other YAML value.
    Other,
}

/// The `servers` setting as written in the configuration.
pub enum ServersSetting {
    Null,
    List(Vec<ServerEntry>),
    Other,
}

/// The placeholder a reference stands as until it is resolved: the name as
/// label and an empty command.
pub open spec fn placeholder(name: Seq<char>) -> Server {
    Server {
        label: name,
        description: Seq::empty(),
        link: Seq::empty(),
        cmd: Seq::empty(),
        args: Seq::empty(),
        commit: None,
        repo: None,
    }
}

/// The entries are all references or inline definitions.
pub open spec fn entries_valid(es: Seq<ServerEntry>) -> bool {
    forall|i: int| 0 <= i < es.len() ==> !(#[trigger] es[i] is Other)
}

pub open spec fn entry_server(e: ServerEntry) -> Server {
    match e {
        ServerEntry::Reference(n) => placeholder(n@),
        ServerEntry::Inline(c) => c@,
        ServerEntry::Other => placeholder(Seq::empty()),
    }
}

/// The server list a `servers` setting gives: the default list for null; a
/// placeholder per reference and the definition per inline entry; an
/// error for anything else.
pub open spec fn servers_of(s: ServersSetting) -> Result<Seq<Server>, Seq<char>> {
    match s {
        ServersSetting::Null => Ok(seq![default_server()]),
        ServersSetting::List(es) => if entries_valid(es@) {
            Ok(es@.map_values(|e: ServerEntry| entry_server(e)))
        } else {
            Err("servers entries must be strings or objects"@)
        },
        ServersSetting::Other => Err("servers must be an array of strings or objects"@),
    }
}

/// Reads the `servers` setting.
pub fn servers_setting(setting: ServersSetting) -> (r: Result<Vec<ServerConfig>, String>)
    ensures
        match r {
            Ok(v) => servers_of(setting) == Ok::<Seq<Server>, Seq<char>>(servers_view(v@)),
            Err(e) => servers_of(setting) == Err::<Seq<Server>, Seq<char>>(e@),
        },
{
    match setting {
        ServersSetting::Null => {
            let v = default_servers();
            Ok(v)
        },
        ServersSetting::List(es) => {
            let ghost ev = es@;
            let mut out: Vec<ServerConfig> = Vec::new();
            let mut i: usize = 0;
            while i < es.len()
                invariant
                    i <= ev.len(),
                    ev == es@,
                    !entries_valid(ev) ==> servers_of(setting) == Err::<Seq<Server>, Seq<char>>(
                        "servers entries must be strings or objects"@,
                    ),
                    servers_view(out@) == ev.subrange(0, i as int).map_values(|e: ServerEntry| entry_server(e)),
                    entries_valid(ev.subrange(0, i as int)),
                decreases es.len() - i,
            {
                let ghost before = servers_view(out@);
                match &es[i] {
                    ServerEntry::Reference(name) => {
                        let p = ServerConfig {
                            label: copy_string(name),
                            cmd: String::new(),
                            args: Vec::new(),
                            link: String::new(),
                            description: String::new(),
                            commit: None,
                            repo: None,
                        };
                        proof {
                            reveal_strlit("");
                            assert(p@.args =~= Seq::<Seq<char>>::empty());
                        }
                        out.push(p);
                    },
                    ServerEntry::Inline(c) => {
                        out.push(copy_server(c));
                    },
                    ServerEntry::Other => {
                        proof {
                            assert(ev[i as int] is Other);
                            assert(!entries_valid(ev));
                        }
                        return Err("servers entries must be strings or objects".to_owned());
                    },
                }
                i += 1;
                assert(ev.subrange(0, i as int).map_values(|e: ServerEntry| entry_server(e)) =~= ev.subrange(
                    0,
                    i - 1,
                ).map_values(|e: ServerEntry| entry_server(e)).push(entry_server(ev[i - 1])));
                assert(servers_view(out@) =~= before.push(entry_server(ev[i - 1])));
                assert forall|j: int| 0 <= j < i implies !(#[trigger] ev.subrange(0, i as int)[j] is Other) by {
                    if j < i - 1 {
                        assert(ev.subrange(0, i as int)[j] == ev.subrange(0, i - 1)[j]);
                    }
                }
            }
            assert(ev.subrange(0, ev.len() as int) =~= ev);
            Ok(out)
        },
        ServersSetting::Other => Err("servers must be an array of strings or objects".to_owned()),
    }
}

// ---------------------------------------------------------------------------
// Benchmark selection
// ---------------------------------------------------------------------------

pub open spec fn contains_name(v: Seq<Seq<char>>, x: Seq<char>) -> bool {
    exists|i: int| 0 <= i < v.len() && v[i] == x
}

/// The benchmarks a run asks for: all of them when none are listed or
/// "all" is among them, else those listed; minus the excluded ones.
pub open spec fn requested_benchmarks(
    requested: Seq<Seq<char>>,
    exclude: Seq<Seq<char>>,
    all: Seq<Seq<char>>,
) -> Seq<Seq<char>> {
    let base = if requested.len() == 0 || contains_name(requested, "all"@) {
        all
    } else {
        requested
    };
    base.filter(|b: Seq<char>| !contains_name(exclude, b))
}

/// The index of the first name of `sel` at or after `i` that is not in `all`.
pub open spec fn first_unknown_from(sel: Seq<Seq<char>>, all: Seq<Seq<char>>, i: int) -> Option<int>
    decreases sel.len() - i,
{
    if i < 0 || i >= sel.len() {
        None
    } else if !contains_name(all, sel[i]) {
        Some(i)
    } else {
        first_unknown_from(sel, all, i + 1)
    }
}

/// The selection, or the first selected name that is not a known benchmark.
pub open spec fn selection(
    requested: Seq<Seq<char>>,
    exclude: Seq<Seq<char>>,
    all: Seq<Seq<char>>,
) -> Result<Seq<Seq<char>>, Seq<char>> {
    let sel = requested_benchmarks(requested, exclude, all);
    match first_unknown_from(sel, all, 0) {
        Some(k) => Err(sel[k]),
        None => Ok(sel),
    }
}

fn contains_name_exec(v: &Vec<String>, x: &str) -> (r: bool)
    ensures
        r == contains_name(strings(v@), x@),
{
    let mut i: usize = 0;
    while i < v.len()
        invariant
            i <= v@.len(),
            forall|j: int| 0 <= j < i ==> strings(v@)[j] != x@,
        decreases v.len() - i,
    {
        if json_eq(v[i].as_str(), x) {
            assert(strings(v@)[i as int] == x@);
            return true;
        }
        i += 1;
    }
    false
}

/// Resolves which benchmarks to run; `Err` names the first unknown one.
pub fn select_benchmarks(requested: &Vec<String>, exclude: &Vec<String>, all: &Vec<String>) -> (r:
    Result<Vec<String>, String>)
    ensures
        match r {
            Ok(v) => selection(strings(requested@), strings(exclude@), strings(all@)) == Ok::<
                Seq<Seq<char>>,
                Seq<char>,
            >(strings(v@)),
            Err(e) => selection(strings(requested@), strings(exclude@), strings(all@)) == Err::<
                Seq<Seq<char>>,
                Seq<char>,
            >(e@),
        },
{
    let ghost rq = strings(requested@);
    let ghost ex = strings(exclude@);
    let ghost al = strings(all@);
    let use_all = requested.len() == 0 || contains_name_exec(requested, "all");
    let base: &Vec<String> = if use_all { all } else { requested };
    let ghost bs = strings(base@);
    let ghost pred = |b: Seq<char>| !contains_name(ex, b);
    let mut sel: Vec<String> = Vec::new();
    let mut i: usize = 0;
    assert(bs.subrange(0, 0).filter(pred) =~= Seq::<Seq<char>>::empty()) by {
        reveal(Seq::filter);
    }
    while i < base.len()
        invariant
            i <= base@.len(),
            bs == strings(base@),
            ex == strings(exclude@),
            pred == (|b: Seq<char>| !contains_name(ex, b)),
            strings(sel@) == bs.subrange(0, i as int).filter(pred),
        decreases base.len() - i,
    {
        let ghost before = strings(sel@);
        assert(bs.subrange(0, i + 1).drop_last() =~= bs.subrange(0, i as int));
        let keep = !contains_name_exec(exclude, base[i].as_str());
        if keep {
            sel.push(copy_string(&base[i]));
            assert(strings(sel@) =~= before.push(bs[i as int]));
        } else {
            assert(strings(sel@) =~= before);
        }
        proof {
            reveal(Seq::filter);
            assert(bs.subrange(0, i + 1).last() == bs[i as int]);
        }
        i += 1;
    }
    assert(bs.subrange(0, base@.len() as int) =~= bs);
    proof {
        reveal_strlit("all");
    }
    assert(strings(sel@) == requested_benchmarks(rq, ex, al));
    let ghost sv = strings(sel@);
    let ghost sel_spec = requested_benchmarks(rq, ex, al);
    assert(sv == sel_spec);
    let mut k: usize = 0;
    while k < sel.len()
        invariant
            k <= sel@.len(),
            sv == strings(sel@),
            al == strings(all@),
            first_unknown_from(sv, al, 0) == first_unknown_from(sv, al, k as int),
            selection(strings(requested@), strings(exclude@), strings(all@)) == match first_unknown_from(sv, al, 0) {
                Some(j) => Err(sv[j]),
                None => Ok(sv),
            },
        decreases sel.len() - k,
    {
        if !contains_name_exec(all, sel[k].as_str()) {
            let bad = copy_string(&sel[k]);
            return Err(bad);
        }
        k += 1;
    }
    Ok(sel)
}

// ---------------------------------------------------------------------------
// Tally of expectation checks
// ---------------------------------------------------------------------------

/// Outcome counts of the `--verify` checks of a run.
pub struct VerifyTally {
    pub passed: usize,
    pub failed: usize,
    /// Responses with no expectation to check.
    pub skipped: usize,
}

/// The expectation a response is checked against: its own (a snapshot's or
/// a didOpen step's) where it has one, else the method's; none means the
/// check is skipped.
pub fn effective_expect<'a, E>(own: Option<&'a E>, method: Option<&'a E>) -> (r: Option<&'a E>)
    ensures
        r == (match own {
            Some(e) => Some(e),
            None => method,
        }),
{
    match own {
        Some(e) => Some(e),
        None => method,
    }
}

/// The closing verdict of a `--verify` run.
pub enum VerifyVerdict {
    /// No expectation was checked; `skipped` responses had none.
    NoExpectations { skipped: usize },
    /// Every check passed: `passed` of `total`.
    AllPassed { passed: usize, total: usize },
    /// `failed` of `total` checks failed.
    SomeFailed { failed: usize, total: usize },
}

impl VerifyTally {
    /// A tally with nothing counted.
    pub fn new() -> (r: VerifyTally)
        ensures
            r.passed == 0,
            r.failed == 0,
            r.skipped == 0,
    {
        VerifyTally { passed: 0, failed: 0, skipped: 0 }
    }

    /// Checks a response against its expectation, if it has one, and
    /// counts the outcome: skipped without one, passed or failed with one.
    pub fn record(&mut self, resp: &JsonValue, expect: Option<&ExpectConfig>) -> (r: Option<
        Result<(), String>,
    >)
        requires
            old(self).passed + old(self).failed + old(self).skipped < usize::MAX,
        ensures
            match expect {
                None => r is None && final(self).skipped == old(self).skipped + 1
                    && final(self).passed == old(self).passed && final(self).failed == old(
                    self,
                ).failed,
                Some(e) => r is Some && expect::outcome_text(r->0) == expect::expectation_outcome(
                    resp@,
                    e@,
                ) && final(self).skipped == old(self).skipped && (if r->0 is Ok {
                    final(self).passed == old(self).passed + 1 && final(self).failed == old(
                        self,
                    ).failed
                } else {
                    final(self).failed == old(self).failed + 1 && final(self).passed == old(
                        self,
                    ).passed
                }),
            },
    {
        match expect {
            None => {
                self.skipped = self.skipped + 1;
                None
            },
            Some(e) => {
                let out = expect::check_expectation(resp, e);
                if out.is_ok() {
                    self.passed = self.passed + 1;
                } else {
                    self.failed = self.failed + 1;
                }
                Some(out)
            },
        }
    }

    /// The verdict printed at the end of a `--verify` run.
    pub fn verdict(&self) -> (r: VerifyVerdict)
        requires
            self.passed + self.failed <= usize::MAX,
        ensures
            r == (if self.passed + self.failed == 0 && self.skipped > 0 {
                VerifyVerdict::NoExpectations { skipped: self.skipped }
            } else if self.failed == 0 {
                VerifyVerdict::AllPassed {
                    passed: self.passed,
                    total: (self.passed + self.failed) as usize,
                }
            } else {
                VerifyVerdict::SomeFailed {
                    failed: self.failed,
                    total: (self.passed + self.failed) as usize,
                }
            }),
    {
        let total = self.passed + self.failed;
        if total == 0 && self.skipped > 0 {
            VerifyVerdict::NoExpectations { skipped: self.skipped }
        } else if self.failed == 0 {
            VerifyVerdict::AllPassed { passed: self.passed, total }
        } else {
            VerifyVerdict::SomeFailed { failed: self.failed, total }
        }
    }
}


// ---------------------------------------------------------------------------
// Merging a sub-configuration into shared defaults
// ---------------------------------------------------------------------------

/// The list after setting `k` to `v`: the first pair with key `k` takes the
/// new value in its place; without one, the pair is appended.
pub open spec fn put<T>(m: Seq<(Seq<char>, T)>, k: Seq<char>, v: T) -> Seq<(Seq<char>, T)>
    decreases m.len(),
{
    if m.len() == 0 {
        seq![(k, v)]
    } else if m[0].0 == k {
        m.update(0, (k, v))
    } else {
        seq![m[0]] + put(m.drop_first(), k, v)
    }
}

/// Top-level defaults with every pair of the overrides put over them, in
/// order: a key of the overrides wins over the same key of the defaults.
pub open spec fn merged<T>(base: Seq<(Seq<char>, T)>, overrides: Seq<(Seq<char>, T)>) -> Seq<(Seq<char>, T)>
    decreases overrides.len(),
{
    if overrides.len() == 0 {
        base
    } else {
        put(merged(base, overrides.drop_last()), overrides.last().0, overrides.last().1)
    }
}

/// The value of the last pair with key `k`.
pub open spec fn last_value<T>(m: Seq<(Seq<char>, T)>, k: Seq<char>) -> Option<T>
    decreases m.len(),
{
    if m.len() == 0 {
        None
    } else if m.last().0 == k {
        Some(m.last().1)
    } else {
        last_value(m.drop_last(), k)
    }
}

/// Keyed pairs by the text of their keys.
pub open spec fn pairs_view<T>(m: Seq<(String, T)>) -> Seq<(Seq<char>, T)> {
    m.map_values(|p: (String, T)| (p.0@, p.1))
}

proof fn lemma_put_at<T>(m: Seq<(Seq<char>, T)>, k: Seq<char>, v: T, i: int)
    requires
        0 <= i < m.len(),
        m[i].0 == k,
        forall|j: int| 0 <= j < i ==> m[j].0 != k,
    ensures
        put(m, k, v) == m.update(i, (k, v)),
    decreases i,
{
    if i > 0 {
        lemma_put_at(m.drop_first(), k, v, i - 1);
        assert(put(m, k, v) =~= m.update(i, (k, v)));
    }
}

proof fn lemma_put_absent<T>(m: Seq<(Seq<char>, T)>, k: Seq<char>, v: T)
    requires
        forall|j: int| 0 <= j < m.len() ==> m[j].0 != k,
    ensures
        put(m, k, v) == m.push((k, v)),
    decreases m.len(),
{
    if m.len() > 0 {
        lemma_put_absent(m.drop_first(), k, v);
        assert(put(m, k, v) =~= m.push((k, v)));
    } else {
        assert(put(m, k, v) =~= m.push((k, v)));
    }
}

/// Sets the value of a key in a keyed list: the first pair with that key
/// takes it in place, or the pair is appended.
pub fn put_entry<V>(m: &mut Vec<(String, V)>, k: String, v: V)
    ensures
        pairs_view(final(m)@) == put(pairs_view(old(m)@), k@, v),
{
    let ghost pm = pairs_view(m@);
    let mut i: usize = 0;
    while i < m.len()
        invariant
            i <= m@.len(),
            pairs_view(m@) == pm,
            pm == pairs_view(old(m)@),
            forall|j: int| 0 <= j < i ==> pm[j].0 != k@,
        decreases m.len() - i,
    {
        if json_eq(m[i].0.as_str(), k.as_str()) {
            proof {
                assert(pm[i as int].0 == k@);
                lemma_put_at(pm, k@, v, i as int);
            }
            let ghost kv = k@;
            m.set(i, (k, v));
            assert(pairs_view(m@) =~= pm.update(i as int, (kv, v)));
            return;
        }
        i += 1;
    }
    proof {
        lemma_put_absent(pm, k@, v);
    }
    let ghost kv = k@;
    m.push((k, v));
    assert(pairs_view(m@) =~= pm.push((kv, v)));
}

/// Merges a sub-configuration's top-level pairs into the shared defaults:
/// each key of the sub-configuration wins, taking the place of the same key
/// among the defaults or coming after them; values are taken whole.
pub fn merge_top_level<V>(base: &mut Vec<(String, V)>, overrides: Vec<(String, V)>)
    ensures
        pairs_view(final(base)@) == merged(pairs_view(old(base)@), pairs_view(overrides@)),
{
    let ghost b0 = pairs_view(base@);
    let ghost o0 = pairs_view(overrides@);
    let total = overrides.len();
    let mut rest = overrides;
    let mut n: usize = 0;
    while rest.len() > 0
        invariant
            b0 == pairs_view(old(base)@),
            o0.len() == total,
            n <= o0.len(),
            pairs_view(rest@) == o0.skip(n as int),
            pairs_view(base@) == merged(b0, o0.take(n as int)),
        decreases rest.len(),
    {
        let ghost r0 = pairs_view(rest@);
        let ghost rr = rest@;
        let (k, v) = rest.remove(0);
        assert(rest@ == rr.remove(0));
        proof {
            assert(r0.len() == o0.len() - n);
            assert(r0[0] == (k@, v));
            assert(o0.skip(n as int)[0] == o0[n as int]);
            assert(o0[n as int] == (k@, v));
            assert(o0.take(n as int + 1).drop_last() =~= o0.take(n as int));
            assert(o0.take(n as int + 1).last() == (k@, v));
        }
        put_entry(base, k, v);
        n += 1;
        assert forall|j: int| 0 <= j < rest@.len() implies #[trigger] pairs_view(rest@)[j] == o0.skip(n as int)[j] by {
            assert(rest@[j] == rr[j + 1]);
            assert(r0[j + 1] == o0.skip(n as int - 1)[j + 1]);
        }
        assert(pairs_view(rest@) =~= o0.skip(n as int));
    }
    assert(o0.take(n as int) =~= o0);
}

// ---------------------------------------------------------------------------
// Configurations that include others
// ---------------------------------------------------------------------------

/// The included configurations' paths, each relative to the directory of
/// the including file, taken from the `include` list in order (entries
/// that are not strings are passed over); the first `n` entries.
pub open spec fn included(dir: Seq<char>, items: Seq<Option<Seq<char>>>, n: int) -> Seq<Seq<char>>
    decreases n,
{
    if n <= 0 || n > items.len() {
        Seq::empty()
    } else {
        let prev = included(dir, items, n - 1);
        match items[n - 1] {
            Some(s) => prev.push(spec_path_join(dir, s)),
            None => prev,
        }
    }
}

/// The text of each optional string.
pub open spec fn opt_strings(v: Seq<Option<String>>) -> Seq<Option<Seq<char>>> {
    v.map_values(|o: Option<String>| text::opt_view(o))
}

/// The configurations an including file runs: none when its `include` list
/// is empty, else the string entries joined onto the file's directory
/// (`.` for a file without one).
pub open spec fn include_targets(config_path: Seq<char>, items: Seq<Option<Seq<char>>>) -> Option<Seq<Seq<char>>> {
    if items.len() == 0 {
        None
    } else {
        Some(included(or_str(spec_path_parent(config_path), "."@), items, items.len() as int))
    }
}

/// The paths of the configurations named by an `include` list (`None` for
/// an entry that is not a string).
pub fn include_paths(config_path: &str, items: &Vec<Option<String>>) -> (r: Option<Vec<String>>)
    ensures
        match r {
            Some(v) => include_targets(config_path@, opt_strings(items@)) == Some(strings(v@)),
            None => include_targets(config_path@, opt_strings(items@)) is None,
        },
{
    proof {
        reveal_strlit(".");
    }
    if items.len() == 0 {
        return None;
    }
    let dir: String = match path_parent(config_path) {
        Some(d) => d,
        None => ".".to_owned(),
    };
    let ghost iv = opt_strings(items@);
    let mut out: Vec<String> = Vec::new();
    let mut i: usize = 0;
    while i < items.len()
        invariant
            i <= items@.len(),
            iv == opt_strings(items@),
            dir@ == or_str(spec_path_parent(config_path@), "."@),
            strings(out@) == included(dir@, iv, i as int),
        decreases items.len() - i,
    {
        let ghost before = out@;
        match &items[i] {
            Some(s) => {
                out.push(path_join(dir.as_str(), s.as_str()));
                assert(strings(out@) =~= strings(before).push(spec_path_join(dir@, s@)));
            },
            None => {},
        }
        i += 1;
    }
    Some(out)
}

// ---------------------------------------------------------------------------
// Locating the server registry file
// ---------------------------------------------------------------------------

/// The directory part of a path, as `Path::parent` gives it.
pub uninterp spec fn spec_path_parent(p: Seq<char>) -> Option<Seq<char>>;

/// A path with another joined onto it, as `Path::join` gives it.
pub uninterp spec fn spec_path_join(base: Seq<char>, p: Seq<char>) -> Seq<char>;

/// `Path::parent`: the path without its final component (so strictly
/// shorter), `None` for the empty path and for a root.
#[verifier::external_body]
pub(crate) fn path_parent(p: &str) -> (r: Option<String>)
    ensures
        text::opt_view(r) == spec_path_parent(p@),
        r matches Some(q) ==> q@.len() < p@.len(),
{
    std::path::Path::new(p).parent().map(|q| q.to_string_lossy().into_owned())
}

/// `Path::join`: `p` relative to `base` (or `p` itself when absolute).
#[verifier::external_body]
pub(crate) fn path_join(base: &str, p: &str) -> (r: String)
    ensures
        r@ == spec_path_join(base@, p@),
{
    std::path::Path::new(base).join(p).to_string_lossy().into_owned()
}

/// `d` and its ancestors, nearest first.
pub open spec fn ancestors(d: Seq<char>) -> Seq<Seq<char>>
    decreases d.len(),
{
    seq![d] + match spec_path_parent(d) {
        Some(q) => if q.len() < d.len() {
            ancestors(q)
        } else {
            Seq::empty()
        },
        None => Seq::empty(),
    }
}

/// Where a server registry is looked for, in order: the explicit path
/// relative to the config's directory (or "."), the explicit path itself,
/// servers.yaml next to the config, then servers.yaml in each directory
/// above it.
pub open spec fn registry_candidates(config: Seq<char>, explicit: Option<Seq<char>>) -> Seq<
    Seq<char>,
> {
    let parent = spec_path_parent(config);
    let yaml = "servers.yaml"@;
    let first = match explicit {
        Some(p) => seq![spec_path_join(or_str(parent, "."@), p), p],
        None => Seq::empty(),
    };
    let beside = match parent {
        Some(dir) => seq![spec_path_join(dir, yaml)],
        None => Seq::empty(),
    };
    let above = match parent {
        Some(d1) => match spec_path_parent(d1) {
            Some(d2) => ancestors(d2).map_values(|d: Seq<char>| spec_path_join(d, yaml)),
            None => Seq::empty(),
        },
        None => Seq::empty(),
    };
    first + beside + above
}

/// The paths where the server registry is looked for, in order.
pub fn servers_file_candidates(config_path: &str, explicit: Option<&str>) -> (r: Vec<String>)
    ensures
        strings(r@) == registry_candidates(
            config_path@,
            match explicit {
                Some(p) => Some(p@),
                None => None,
            },
        ),
{
    let parent = path_parent(config_path);
    let mut out: Vec<String> = Vec::new();
    if let Some(p) = explicit {
        let base: String = match &parent {
            Some(d) => copy_string(d),
            None => ".".to_owned(),
        };
        out.push(path_join(base.as_str(), p));
        out.push(p.to_owned());
    }
    let ghost first = strings(out@);
    if let Some(dir) = &parent {
        out.push(path_join(dir.as_str(), "servers.yaml"));
    }
    let ghost upto = strings(out@);
    let mut above: Vec<String> = Vec::new();
    let mut cur: Option<String> = match &parent {
        Some(d1) => path_parent(d1.as_str()),
        None => None,
    };
    let ghost start = text::opt_view(cur);
    let ghost yaml = "servers.yaml"@;
    assert(strings(above@) =~= Seq::<Seq<char>>::empty());
    while cur.is_some()
        invariant
            yaml == "servers.yaml"@,
            match start {
                Some(d2) => strings(above@) + match text::opt_view(cur) {
                    Some(d) => ancestors(d).map_values(|d: Seq<char>| spec_path_join(d, yaml)),
                    None => Seq::<Seq<char>>::empty(),
                } == ancestors(d2).map_values(|d: Seq<char>| spec_path_join(d, yaml)),
                None => cur is None && strings(above@) == Seq::<Seq<char>>::empty(),
            },
        decreases match cur {
            Some(d) => d@.len() + 1,
            None => 0,
        },
    {
        let d = match cur {
            Some(d) => d,
            None => String::new(),
        };
        let ghost before = strings(above@);
        above.push(path_join(d.as_str(), "servers.yaml"));
        let next = path_parent(d.as_str());
        proof {
            let anc = ancestors(d@);
            assert(anc == seq![d@] + match spec_path_parent(d@) {
                Some(q) => if q.len() < d@.len() {
                    ancestors(q)
                } else {
                    Seq::empty()
                },
                None => Seq::empty(),
            });
            let tail = match text::opt_view(next) {
                Some(q) => ancestors(q).map_values(|x: Seq<char>| spec_path_join(x, yaml)),
                None => Seq::<Seq<char>>::empty(),
            };
            assert(anc.map_values(|x: Seq<char>| spec_path_join(x, yaml)) =~= seq![spec_path_join(d@, yaml)] + tail);
            assert(strings(above@) =~= before.push(spec_path_join(d@, yaml)));
            assert(strings(above@) + tail =~= before + (seq![spec_path_join(d@, yaml)] + tail));
        }
        cur = next;
    }
    let mut i: usize = 0;
    let ghost base_out = strings(out@);
    while i < above.len()
        invariant
            i <= above@.len(),
            strings(out@) == base_out + strings(above@).subrange(0, i as int),
        decreases above.len() - i,
    {
        let ghost before = out@;
        let c = copy_string(&above[i]);
        out.push(c);
        assert(strings(out@) =~= strings(before).push(above@[i as int]@));
        i += 1;
        assert(strings(above@).subrange(0, i as int) =~= strings(above@).subrange(0, i - 1).push(
            above@[i - 1]@,
        ));
        assert(strings(out@) =~= base_out + strings(above@).subrange(0, i as int));
    }
    proof {
        reveal_strlit(".");
        assert(strings(above@).subrange(0, above@.len() as int) =~= strings(above@));
        let ex = match explicit {
            Some(p) => Some(p@),
            None => None,
        };
        assert(first =~= match ex {
            Some(p) => seq![spec_path_join(or_str(spec_path_parent(config_path@), "."@), p), p],
            None => Seq::<Seq<char>>::empty(),
        });
        assert(strings(out@) =~= registry_candidates(config_path@, ex));
    }
    out
}

/// The first candidate that exists, by the flags found for each, in order.
pub open spec fn first_existing(candidates: Seq<Seq<char>>, exists: Seq<bool>) -> Option<Seq<char>>
    decreases candidates.len(),
{
    if candidates.len() == 0 || exists.len() == 0 {
        None
    } else if exists[0] {
        Some(candidates[0])
    } else {
        first_existing(candidates.drop_first(), exists.drop_first())
    }
}

/// Picks the server registry file: the first candidate path (see
/// `servers_file_candidates`) that exists.
pub fn discover_servers_file(candidates: &Vec<String>, exists: &Vec<bool>) -> (r: Option<String>)
    requires
        exists@.len() == candidates@.len(),
    ensures
        text::opt_view(r) == first_existing(strings(candidates@), exists@),
{
    let ghost cs = strings(candidates@);
    let mut i: usize = 0;
    assert(cs.subrange(0, cs.len() as int) =~= cs);
    assert(exists@.subrange(0, exists@.len() as int) =~= exists@);
    while i < candidates.len()
        invariant
            i <= candidates@.len() == exists@.len(),
            cs == strings(candidates@),
            first_existing(cs, exists@) == first_existing(
                cs.subrange(i as int, cs.len() as int),
                exists@.subrange(i as int, exists@.len() as int),
            ),
        decreases candidates.len() - i,
    {
        let ghost a = cs.subrange(i as int, cs.len() as int);
        let ghost b = exists@.subrange(i as int, exists@.len() as int);
        assert(a.drop_first() =~= cs.subrange(i + 1, cs.len() as int));
        assert(b.drop_first() =~= exists@.subrange(i + 1, exists@.len() as int));
        if exists[i] {
            return Some(copy_string(&candidates[i]));
        }
        i += 1;
    }
    None
}

} // verus!
