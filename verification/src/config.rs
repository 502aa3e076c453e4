//! Named targets and server settings from the configuration file, and the
//! choice of the server a client talks to.
use vstd::prelude::*;

use crate::address::{parse_result_view, parse_url, parsed_url, UrlParts};
use crate::device::opt_view;
use crate::text::{chars_of, concat, join, str_eq};

verus! {

/// The model of a target: its address and its optional token.
pub type TargetView = (Seq<char>, Option<Seq<char>>);

/// A named server in the configuration file.
#[derive(Debug, Clone)]
pub struct TargetConfig {
    pub address: String,
    pub token: Option<String>,
}

impl View for TargetConfig {
    type V = TargetView;

    open spec fn view(&self) -> TargetView {
        (self.address@, opt_view(self.token))
    }
}

/// An IP address, as the server binds it.
#[derive(Debug, Clone, Copy, PartialEq, Eq)]
pub enum IpAddress {
    V4(u8, u8, u8, u8),
    V6([u16; 8]),
}

impl IpAddress {
    /// `127.0.0.1`.
    pub fn localhost() -> (r: Self)
        ensures
            r == IpAddress::V4(127, 0, 0, 1),
    {
        IpAddress::V4(127, 0, 0, 1)
    }
}

/// The `[server]` section of the configuration file.
#[derive(Debug, Clone)]
pub struct ServerConfig {
    pub host: Option<IpAddress>,
    pub port: Option<u16>,
    pub token: Option<String>,
}

/// The server a client talks to.
#[derive(Debug, Clone, PartialEq, Eq)]
pub struct ResolvedTarget {
    pub address: String,
    pub token: Option<String>,
}

impl View for ResolvedTarget {
    type V = TargetView;

    open spec fn view(&self) -> TargetView {
        (self.address@, opt_view(self.token))
    }
}

#[derive(Debug, Clone)]
struct NamedTarget {
    name: String,
    target: TargetConfig,
}

/// `a` sorts before `b`: lexicographic order of code points, which is the
/// byte order of `String` for UTF-8 text.
pub open spec fn seq_lt(a: Seq<char>, b: Seq<char>) -> bool
    decreases a.len(),
{
    if a.len() == 0 {
        b.len() > 0
    } else if b.len() == 0 {
        false
    } else if a[0] != b[0] {
        (a[0] as u32) < (b[0] as u32)
    } else {
        seq_lt(a.drop_first(), b.drop_first())
    }
}

/// Names in strictly increasing order (so each occurs once).
pub open spec fn names_sorted(names: Seq<Seq<char>>) -> bool {
    forall|i: int, j: int| 0 <= i < j < names.len() ==> seq_lt(#[trigger] names[i], #[trigger] names[j])
}

/// Whether the entry at `i` is stored under `name`.
pub open spec fn entry_has_name(entries: Seq<(Seq<char>, TargetView)>, name: Seq<char>, i: int) -> bool {
    0 <= i < entries.len() && entries[i].0 == name
}

/// The target stored under `name` in `entries`.
pub open spec fn entries_lookup(entries: Seq<(Seq<char>, TargetView)>, name: Seq<char>) -> Option<
    TargetView,
> {
    if exists|i: int| entry_has_name(entries, name, i) {
        Some(entries[choose|i: int| entry_has_name(entries, name, i)].1)
    } else {
        None
    }
}

/// The names of `entries`, in order.
pub open spec fn entry_names(entries: Seq<(Seq<char>, TargetView)>) -> Seq<Seq<char>> {
    entries.map_values(|e: (Seq<char>, TargetView)| e.0)
}

/// The settings read from the configuration file: targets by name, in name
/// order, and the optional server section.
#[derive(Debug)]
pub struct Config {
    targets: Vec<NamedTarget>,
    server: Option<ServerConfig>,
}

impl Config {
    /// The targets, as (name, target) pairs in name order.
    pub closed spec fn entries(&self) -> Seq<(Seq<char>, TargetView)> {
        self.targets@.map_values(|e: NamedTarget| (e.name@, e.target@))
    }

    /// The target names, in order.
    pub open spec fn names(&self) -> Seq<Seq<char>> {
        entry_names(self.entries())
    }

    /// The target stored under `name`.
    pub open spec fn lookup(&self, name: Seq<char>) -> Option<TargetView> {
        entries_lookup(self.entries(), name)
    }

    /// The server section.
    pub closed spec fn server_section(&self) -> Option<ServerConfig> {
        self.server
    }

    #[verifier::type_invariant]
    spec fn sorted(&self) -> bool {
        names_sorted(self.names())
    }

    /// The configuration of a missing file: no targets, no server section.
    pub fn new() -> (c: Self)
        ensures
            c.entries() == Seq::<(Seq<char>, TargetView)>::empty(),
            c.server_section() is None,
            names_sorted(c.names()),
    {
        let c = Config { targets: Vec::new(), server: None };
        assert(c.entries() =~= Seq::<(Seq<char>, TargetView)>::empty());
        c
    }

    /// The number of targets.
    pub fn target_count(&self) -> (n: usize)
        ensures
            n == self.entries().len(),
            names_sorted(self.names()),
    {
        proof {
            use_type_invariant(self);
        }
        self.targets.len()
    }

    /// The target names, in order.
    pub fn target_names(&self) -> (r: Vec<String>)
        ensures
            r@.map_values(|s: String| s@) == self.names(),
            names_sorted(self.names()),
    {
        proof {
            use_type_invariant(self);
        }
        let mut r: Vec<String> = Vec::new();
        let mut i: usize = 0;
        while i < self.targets.len()
            invariant
                0 <= i <= self.targets@.len(),
                r@.map_values(|s: String| s@) == self.names().take(i as int),
            decreases self.targets@.len() - i,
        {
            let ghost before = r@;
            let s = self.targets[i].name.clone();
            assert(s@ == self.names()[i as int]);
            r.push(s);
            assert(r@.map_values(|s: String| s@) =~= before.map_values(|s: String| s@).push(s@));
            assert(r@.map_values(|s: String| s@) =~= self.names().take(i + 1));
            i += 1;
        }
        assert(self.names().take(self.targets@.len() as int) =~= self.names());
        r
    }

    /// The target stored under `name`.
    pub fn get_target(&self, name: &str) -> (r: Option<&TargetConfig>)
        ensures
            match r {
                Some(t) => self.lookup(name@) == Some(t@),
                None => self.lookup(name@) is None,
            },
    {
        proof {
            use_type_invariant(self);
        }
        let mut i: usize = 0;
        while i < self.targets.len()
            invariant
                0 <= i <= self.targets@.len(),
                names_sorted(self.names()),
                forall|j: int| 0 <= j < i ==> self.entries()[j].0 != name@,
            decreases self.targets@.len() - i,
        {
            if str_eq(self.targets[i].name.as_str(), name) {
                proof {
                    lemma_lookup_at(self.entries(), i as int);
                }
                return Some(&self.targets[i].target);
            }
            i += 1;
        }
        None
    }

    /// The server section.
    pub fn server(&self) -> (r: &Option<ServerConfig>)
        ensures
            *r == self.server_section(),
    {
        &self.server
    }

    /// Replaces the server section.
    pub fn set_server(&mut self, server: Option<ServerConfig>)
        ensures
            final(self).entries() == old(self).entries(),
            final(self).server_section() == server,
            names_sorted(final(self).names()),
    {
        proof {
            use_type_invariant(&*self);
        }
        self.server = server;
    }

    /// Stores `target` under `name`, replacing the target stored under that
    /// name, if any.
    pub fn insert_target(&mut self, name: String, target: TargetConfig)
        ensures
            final(self).lookup(name@) == Some(target@),
            forall|n: Seq<char>| n != name@ ==> final(self).lookup(n) == old(self).lookup(n),
            final(self).server_section() == old(self).server_section(),
            names_sorted(final(self).names()),
            forall|n: Seq<char>|
                #![auto]
                final(self).names().contains(n) <==> (old(self).names().contains(n) || n == name@),
            final(self).names().len() == old(self).names().len() + (if old(self).names().contains(
                name@,
            ) {
                0int
            } else {
                1int
            }),
    {
        proof {
            use_type_invariant(&*self);
        }
        let ghost old_entries = self.entries();
        let key = chars_of(name.as_str());
        let mut p: usize = 0;
        while p < self.targets.len() && lex_lt(&chars_of(self.targets[p].name.as_str()), &key)
            invariant
                0 <= p <= self.targets@.len(),
                old_entries == self.entries(),
                key@ == name@,
                forall|j: int| 0 <= j < p ==> seq_lt(#[trigger] old_entries[j].0, name@),
            decreases self.targets@.len() - p,
        {
            p += 1;
        }
        let mut targets: Vec<NamedTarget> = Vec::new();
        std::mem::swap(&mut targets, &mut self.targets);
        let entry = NamedTarget { name, target };
        let ghost e = (entry.name@, entry.target@);
        if p < targets.len() && str_eq(targets[p].name.as_str(), entry.name.as_str()) {
            targets.set(p, entry);
            let ghost new_entries = targets@.map_values(|e: NamedTarget| (e.name@, e.target@));
            proof {
                assert(new_entries =~= old_entries.update(p as int, e));
                assert(entry_names(new_entries) =~= entry_names(old_entries));
                assert(entry_names(old_entries)[p as int] == name@);
                assert(entry_names(old_entries).contains(name@));
                lemma_lookup_at(new_entries, p as int);
                assert forall|n: Seq<char>| n != name@ implies entries_lookup(new_entries, n)
                    == entries_lookup(old_entries, n) by {
                    lemma_lookup_shift(old_entries, new_entries, n, p as int, false);
                }
            }
            self.targets = targets;
        } else {
            proof {
                if p < old_entries.len() {
                    lemma_lt_total(old_entries[p as int].0, name@);
                }
            }
            targets.insert(p, entry);
            let ghost new_entries = targets@.map_values(|e: NamedTarget| (e.name@, e.target@));
            proof {
                assert(new_entries =~= old_entries.insert(p as int, e));
                lemma_sorted_insert(old_entries, p as int, e);
                let on = entry_names(old_entries);
                let nn = entry_names(new_entries);
                assert(nn =~= on.insert(p as int, name@));
                assert forall|j: int| 0 <= j < on.len() implies on[j] != name@ by {
                    lemma_lt_irreflexive(name@);
                    if j < p {
                        assert(seq_lt(old_entries[j].0, name@));
                    } else {
                        assert(seq_lt(name@, on[p as int]));
                        if j > p {
                            assert(seq_lt(on[p as int], on[j]));
                            lemma_lt_transitive(name@, on[p as int], on[j]);
                        }
                    }
                }
                assert(!on.contains(name@));
                assert forall|n: Seq<char>| nn.contains(n) <==> (on.contains(n) || n == name@) by {
                    if nn.contains(n) {
                        let k = choose|k: int| 0 <= k < nn.len() && nn[k] == n;
                        if k < p {
                            assert(on[k] == n);
                        } else if k > p {
                            assert(on[k - 1] == n);
                        }
                    }
                    if on.contains(n) {
                        let k = choose|k: int| 0 <= k < on.len() && on[k] == n;
                        if k < p {
                            assert(nn[k] == n);
                        } else {
                            assert(nn[k + 1] == n);
                        }
                    }
                    if n == name@ {
                        assert(nn[p as int] == n);
                    }
                }
                lemma_lookup_at(new_entries, p as int);
                assert forall|n: Seq<char>| n != name@ implies entries_lookup(new_entries, n)
                    == entries_lookup(old_entries, n) by {
                    lemma_lookup_shift(old_entries, new_entries, n, p as int, true);
                }
            }
            self.targets = targets;
        }
    }
}

impl Default for Config {
    fn default() -> (c: Self)
        ensures
            c.entries() == Seq::<(Seq<char>, TargetView)>::empty(),
            c.server_section() is None,
            names_sorted(c.names()),
    {
        Config::new()
    }
}

// ---------------------------------------------------------------------------
// Order and lookup lemmas
// ---------------------------------------------------------------------------
pub proof fn lemma_lt_irreflexive(a: Seq<char>)
    ensures
        !seq_lt(a, a),
    decreases a.len(),
{
    if a.len() > 0 {
        lemma_lt_irreflexive(a.drop_first());
    }
}

pub proof fn lemma_lt_transitive(a: Seq<char>, b: Seq<char>, c: Seq<char>)
    requires
        seq_lt(a, b),
        seq_lt(b, c),
    ensures
        seq_lt(a, c),
    decreases a.len(),
{
    if a.len() > 0 && b.len() > 0 && c.len() > 0 && a[0] == b[0] && b[0] == c[0] {
        lemma_lt_transitive(a.drop_first(), b.drop_first(), c.drop_first());
    }
}

pub proof fn lemma_lt_total(a: Seq<char>, b: Seq<char>)
    requires
        a != b,
    ensures
        seq_lt(a, b) || seq_lt(b, a),
    decreases a.len(),
{
    if a.len() > 0 && b.len() > 0 && a[0] == b[0] {
        if a.drop_first() == b.drop_first() {
            assert(a =~= seq![a[0]] + a.drop_first());
            assert(b =~= seq![b[0]] + b.drop_first());
        }
        lemma_lt_total(a.drop_first(), b.drop_first());
    } else if a.len() > 0 && b.len() > 0 {
        vstd::utf8::char_u32_cast(a[0], a[0] as u32);
        vstd::utf8::char_u32_cast(b[0], b[0] as u32);
    } else if a.len() == 0 && b.len() == 0 {
        assert(a =~= b);
    }
}

/// In sorted entries, the entry at `i` is the one stored under its name.
pub proof fn lemma_lookup_at(entries: Seq<(Seq<char>, TargetView)>, i: int)
    requires
        names_sorted(entry_names(entries)),
        0 <= i < entries.len(),
    ensures
        entries_lookup(entries, entries[i].0) == Some(entries[i].1),
{
    let name = entries[i].0;
    assert(entry_names(entries)[i] == name);
    assert(entry_has_name(entries, name, i));
    let j = choose|i: int| entry_has_name(entries, name, i);
    if j != i {
        assert(entry_names(entries)[j] == name);
        if j < i {
            assert(seq_lt(entry_names(entries)[j], entry_names(entries)[i]));
        } else {
            assert(seq_lt(entry_names(entries)[i], entry_names(entries)[j]));
        }
        lemma_lt_irreflexive(name);
    }
}

/// Inserting `e` at `p` keeps the names sorted when the names before `p` sort
/// before it and the name at `p` sorts after it.
proof fn lemma_sorted_insert(entries: Seq<(Seq<char>, TargetView)>, p: int, e: (Seq<char>, TargetView))
    requires
        names_sorted(entry_names(entries)),
        0 <= p <= entries.len(),
        forall|j: int| 0 <= j < p ==> seq_lt(#[trigger] entries[j].0, e.0),
        p < entries.len() ==> seq_lt(e.0, entries[p].0),
    ensures
        names_sorted(entry_names(entries.insert(p, e))),
{
    let n = entry_names(entries);
    let m = entry_names(entries.insert(p, e));
    assert forall|i: int, j: int| 0 <= i < j < m.len() implies seq_lt(#[trigger] m[i], #[trigger] m[j]) by {
        assert(m.len() == entries.len() + 1);
        if j < p {
            assert(m[i] == n[i] && m[j] == n[j]);
        } else if j == p {
            assert(m[j] == e.0 && m[i] == entries[i].0);
        } else if i == p {
            assert(m[i] == e.0 && m[j] == n[j - 1]);
            if j - 1 > p {
                assert(seq_lt(n[p], n[j - 1]));
                lemma_lt_transitive(e.0, n[p], n[j - 1]);
            }
        } else if i < p {
            assert(m[i] == n[i] && m[j] == n[j - 1]);
            if i < j - 1 {
                assert(seq_lt(n[i], n[j - 1]));
            } else {
            }
        } else {
            assert(m[i] == n[i - 1] && m[j] == n[j - 1]);
        }
    }
}

/// Replacing (`inserted == false`) or inserting (`inserted == true`) one
/// entry at `p` leaves the lookup of every other name unchanged.
proof fn lemma_lookup_shift(
    old_entries: Seq<(Seq<char>, TargetView)>,
    new_entries: Seq<(Seq<char>, TargetView)>,
    n: Seq<char>,
    p: int,
    inserted: bool,
)
    requires
        0 <= p <= old_entries.len(),
        names_sorted(entry_names(old_entries)),
        names_sorted(entry_names(new_entries)),
        inserted ==> new_entries.len() == old_entries.len() + 1,
        inserted ==> forall|j: int| 0 <= j < p ==> new_entries[j] == old_entries[j],
        inserted ==> forall|j: int| p < j < new_entries.len() ==> new_entries[j] == old_entries[j - 1],
        !inserted ==> new_entries.len() == old_entries.len() && p < old_entries.len(),
        !inserted ==> forall|j: int| 0 <= j < old_entries.len() && j != p ==> new_entries[j] == old_entries[j],
        !inserted ==> new_entries[p].0 == old_entries[p].0,
        p < new_entries.len(),
        new_entries[p].0 != n,
    ensures
        entries_lookup(new_entries, n) == entries_lookup(old_entries, n),
{
    if exists|i: int| entry_has_name(old_entries, n, i) {
        let i = choose|i: int| entry_has_name(old_entries, n, i);
        lemma_lookup_at(old_entries, i);
        let k = if inserted && i >= p {
            i + 1
        } else {
            i
        };
        if !inserted {
            assert(i != p);
        }
        assert(new_entries[k] == old_entries[i]);
        lemma_lookup_at(new_entries, k);
        assert(entry_has_name(new_entries, n, k));
    } else {
        if exists|k: int| 0 <= k < new_entries.len() && new_entries[k].0 == n {
                let k = choose|i: int| 0 <= i < new_entries.len() && new_entries[i].0 == n;
            if inserted {
                if k < p {
                    assert(entry_has_name(old_entries, n, k));
                } else if k > p {
                    assert(entry_has_name(old_entries, n, k - 1));
                }
            } else {
                assert(k != p);
                assert(entry_has_name(old_entries, n, k));
            }
        }
    }
}

/// Whether `a` sorts before `b` (see [`seq_lt`]).
pub fn lex_lt(a: &Vec<char>, b: &Vec<char>) -> (r: bool)
    ensures
        r == seq_lt(a@, b@),
{
    let mut i: usize = 0;
    assert(a@.skip(0) =~= a@ && b@.skip(0) =~= b@);
    while i < a.len() && i < b.len() && a[i] == b[i]
        invariant
            0 <= i <= a@.len(),
            i <= b@.len(),
            seq_lt(a@, b@) == seq_lt(a@.skip(i as int), b@.skip(i as int)),
        decreases a@.len() - i,
    {
        assert(a@.skip(i as int).drop_first() =~= a@.skip(i + 1));
        assert(b@.skip(i as int).drop_first() =~= b@.skip(i + 1));
        i += 1;
    }
    if i == a.len() {
        i < b.len()
    } else if i == b.len() {
        false
    } else {
        (a[i] as u32) < (b[i] as u32)
    }
}

// ---------------------------------------------------------------------------
// Resolving a client's target
// ---------------------------------------------------------------------------
/// Why a client's target could not be resolved.
#[derive(Debug, Clone, PartialEq, Eq)]
pub enum ConfigError {
    /// The named target is not in the configuration; `available` is the
    /// `; available targets: ...` suffix (empty when there are none).
    TargetNotFound { name: String, available: String },
    /// Neither a server nor a target was given, and there are no targets.
    ServerOrTargetRequired,
    /// No target was given, and there are several.
    TargetSelectionRequired,
    /// The address from `source` is empty.
    EmptyAddress { source: String },
    /// The address from `source` is not a URL; `reason` is what the URL
    /// parser reported.
    InvalidUrl { source: String, reason: String },
    /// The address from `source` has another scheme than http or https.
    UnsupportedScheme { source: String },
}

/// The model of [`ConfigError`].
pub enum ConfigErrorView {
    TargetNotFound { name: Seq<char>, available: Seq<char> },
    ServerOrTargetRequired,
    TargetSelectionRequired,
    EmptyAddress { source: Seq<char> },
    InvalidUrl { source: Seq<char>, reason: Seq<char> },
    UnsupportedScheme { source: Seq<char> },
}

impl View for ConfigError {
    type V = ConfigErrorView;

    open spec fn view(&self) -> ConfigErrorView {
        match self {
            ConfigError::TargetNotFound { name, available } => ConfigErrorView::TargetNotFound {
                name: name@,
                available: available@,
            },
            ConfigError::ServerOrTargetRequired => ConfigErrorView::ServerOrTargetRequired,
            ConfigError::TargetSelectionRequired => ConfigErrorView::TargetSelectionRequired,
            ConfigError::EmptyAddress { source } => ConfigErrorView::EmptyAddress {
                source: source@,
            },
            ConfigError::InvalidUrl { source, reason } => ConfigErrorView::InvalidUrl {
                source: source@,
                reason: reason@,
            },
            ConfigError::UnsupportedScheme { source } => ConfigErrorView::UnsupportedScheme {
                source: source@,
            },
        }
    }
}

/// The text of an error (the reason of an invalid URL is its cause).
pub open spec fn config_error_message(e: ConfigErrorView) -> Seq<char> {
    match e {
        ConfigErrorView::TargetNotFound { name, available } => "target "@ + name
            + " was not found in config"@ + available,
        ConfigErrorView::ServerOrTargetRequired => "--server or --target is required"@,
        ConfigErrorView::TargetSelectionRequired => "target must be selected when multiple targets are configured"@,
        ConfigErrorView::EmptyAddress { source } => source + " cannot be empty"@,
        ConfigErrorView::InvalidUrl { source, .. } => source
            + " must be a valid http URL; include a scheme such as http://"@,
        ConfigErrorView::UnsupportedScheme { source } => source + " must use http or https"@,
    }
}

impl ConfigError {
    /// The text of the error (what `Display` shows).
    pub fn message(&self) -> (r: String)
        ensures
            r@ == config_error_message(self@),
    {
        match self {
            ConfigError::TargetNotFound { name, available } => {
                let a = concat("target ", name.as_str());
                let b = concat(a.as_str(), " was not found in config");
                concat(b.as_str(), available.as_str())
            },
            ConfigError::ServerOrTargetRequired => "--server or --target is required".to_owned(),
            ConfigError::TargetSelectionRequired => {
                "target must be selected when multiple targets are configured".to_owned()
            },
            ConfigError::EmptyAddress { source } => concat(source.as_str(), " cannot be empty"),
            ConfigError::InvalidUrl { source, .. } => concat(
                source.as_str(),
                " must be a valid http URL; include a scheme such as http://",
            ),
            ConfigError::UnsupportedScheme { source } => concat(
                source.as_str(),
                " must use http or https",
            ),
        }
    }
}

/// The `; available targets: a, b` suffix of a not-found error, or nothing
/// when there are no targets.
pub open spec fn available_targets_text(names: Seq<Seq<char>>) -> Seq<char> {
    if names.len() == 0 {
        seq![]
    } else {
        "; available targets: "@ + join(names, ", "@)
    }
}

/// Joins `parts` with `sep` between consecutive parts.
pub fn join_strings(parts: &Vec<String>, sep: &str) -> (r: String)
    ensures
        r@ == join(parts@.map_values(|s: String| s@), sep@),
{
    let ghost pv = parts@.map_values(|s: String| s@);
    if parts.len() == 0 {
        return String::new();
    }
    let mut r = parts[0].clone();
    assert(pv.take(1).drop_last() =~= pv.take(0));
    let mut i: usize = 1;
    while i < parts.len()
        invariant
            1 <= i <= parts@.len(),
            pv == parts@.map_values(|s: String| s@),
            r@ == join(pv.take(i as int), sep@),
        decreases parts@.len() - i,
    {
        let with_sep = concat(r.as_str(), sep);
        r = concat(with_sep.as_str(), parts[i].as_str());
        assert(pv.take(i + 1).drop_last() =~= pv.take(i as int));
        i += 1;
    }
    assert(pv.take(parts@.len() as int) =~= pv);
    r
}

/// The `; available targets: a, b` suffix of a not-found error.
pub fn available_targets(config: &Config) -> (r: String)
    ensures
        r@ == available_targets_text(config.names()),
{
    let names = config.target_names();
    if names.len() == 0 {
        String::new()
    } else {
        let joined = join_strings(&names, ", ");
        concat("; available targets: ", joined.as_str())
    }
}

/// The description of the address of the target `name` in error messages.
pub open spec fn target_address_source(name: Seq<char>) -> Seq<char> {
    "target "@ + name + " address"@
}

/// What `validate_address` decides of an address from `source` that
/// `Url::parse` read as `parsed`.
pub open spec fn spec_check_scheme(
    source: Seq<char>,
    parsed: Result<(Seq<char>, Option<Seq<char>>), Seq<char>>,
) -> Result<(), ConfigErrorView> {
    match parsed {
        Err(reason) => Err(ConfigErrorView::InvalidUrl { source, reason }),
        Ok((scheme, _)) => if scheme == "http"@ || scheme == "https"@ {
            Ok(())
        } else {
            Err(ConfigErrorView::UnsupportedScheme { source })
        },
    }
}

/// The model of a result that carries an error.
pub open spec fn unit_result_view(r: Result<(), ConfigError>) -> Result<(), ConfigErrorView> {
    match r {
        Ok(()) => Ok(()),
        Err(e) => Err(e@),
    }
}

/// Accepts an address whose parse gave an http or https URL.
pub fn check_scheme(source: &str, parsed: Result<UrlParts, String>) -> (r: Result<(), ConfigError>)
    ensures
        unit_result_view(r) == spec_check_scheme(source@, parse_result_view(parsed)),
{
    match parsed {
        Err(reason) => Err(ConfigError::InvalidUrl { source: source.to_owned(), reason }),
        Ok(p) => {
            if str_eq(p.scheme.as_str(), "http") || str_eq(p.scheme.as_str(), "https") {
                Ok(())
            } else {
                Err(ConfigError::UnsupportedScheme { source: source.to_owned() })
            }
        },
    }
}

/// Accepts `address` where it is an http or https URL.
pub fn validate_address(source: &str, address: &str) -> (r: Result<(), ConfigError>)
    ensures
        unit_result_view(r) == spec_check_scheme(source@, parsed_url(address@)),
{
    let parsed = parse_url(address);
    check_scheme(source, parsed)
}

/// The target a client talks to: the named target, else the only target,
/// else the `--server` address; `--server` and `--token` override the
/// address and token; the address must be a non-empty http or https URL.
pub open spec fn spec_resolve_target(
    entries: Seq<(Seq<char>, TargetView)>,
    target_name: Option<Seq<char>>,
    server_override: Option<Seq<char>>,
    token_override: Option<Seq<char>>,
) -> Result<TargetView, ConfigErrorView> {
    let base: Result<(TargetView, Seq<char>), ConfigErrorView> = match target_name {
        Some(name) => match entries_lookup(entries, name) {
            None => Err(
                ConfigErrorView::TargetNotFound {
                    name,
                    available: available_targets_text(entry_names(entries)),
                },
            ),
            Some(t) => Ok((t, target_address_source(name))),
        },
        None => if entries.len() == 0 {
            match server_override {
                None => Err(ConfigErrorView::ServerOrTargetRequired),
                Some(server) => Ok(((server, None), "--server"@)),
            }
        } else if entries.len() == 1 {
            Ok((entries[0].1, target_address_source(entries[0].0)))
        } else {
            Err(ConfigErrorView::TargetSelectionRequired)
        },
    };
    match base {
        Err(e) => Err(e),
        Ok((target, source)) => {
            let (address, source) = match server_override {
                Some(server) => (server, "--server"@),
                None => (target.0, source),
            };
            let token = match token_override {
                Some(token) => Some(token),
                None => target.1,
            };
            if address.len() == 0 {
                Err(ConfigErrorView::EmptyAddress { source })
            } else {
                match spec_check_scheme(source, parsed_url(address)) {
                    Err(e) => Err(e),
                    Ok(()) => Ok((address, token)),
                }
            }
        },
    }
}

/// The model of an optional string argument.
pub open spec fn opt_str_view(o: Option<&str>) -> Option<Seq<char>> {
    match o {
        Some(s) => Some(s@),
        None => None,
    }
}

/// The model of a resolution result.
pub open spec fn resolve_result_view(r: Result<ResolvedTarget, ConfigError>) -> Result<TargetView, ConfigErrorView> {
    match r {
        Ok(t) => Ok(t@),
        Err(e) => Err(e@),
    }
}

/// Chooses the server a client talks to (see [`spec_resolve_target`]).
pub fn resolve_target(
    config: &Config,
    target_name: Option<&str>,
    server_override: Option<&str>,
    token_override: Option<&str>,
) -> (r: Result<ResolvedTarget, ConfigError>)
    ensures
        resolve_result_view(r) == spec_resolve_target(
            config.entries(),
            opt_str_view(target_name),
            opt_str_view(server_override),
            opt_str_view(token_override),
        ),
{
    proof {
        use_type_invariant(config);
    }
    let (mut target, mut address_source) = match target_name {
        Some(name) => {
            match config.get_target(name) {
                None => {
                    return Err(
                        ConfigError::TargetNotFound {
                            name: name.to_owned(),
                            available: available_targets(config),
                        },
                    );
                },
                Some(t) => {
                    let a = concat("target ", name);
                    (
                        ResolvedTarget { address: t.address.clone(), token: t.token.clone() },
                        concat(a.as_str(), " address"),
                    )
                },
            }
        },
        None => {
            if config.target_count() == 0 {
                match server_override {
                    None => {
                        return Err(ConfigError::ServerOrTargetRequired);
                    },
                    Some(server) => (
                        ResolvedTarget { address: server.to_owned(), token: None },
                        "--server".to_owned(),
                    ),
                }
            } else if config.target_count() == 1 {
                let only = &config.targets[0];
                let a = concat("target ", only.name.as_str());
                (
                    ResolvedTarget {
                        address: only.target.address.clone(),
                        token: only.target.token.clone(),
                    },
                    concat(a.as_str(), " address"),
                )
            } else {
                return Err(ConfigError::TargetSelectionRequired);
            }
        },
    };
    if let Some(server) = server_override {
        target.address = server.to_owned();
        address_source = "--server".to_owned();
    }
    if let Some(token) = token_override {
        target.token = Some(token.to_owned());
    }
    if target.address.as_str().is_empty() {
        return Err(ConfigError::EmptyAddress { source: address_source });
    }
    match validate_address(address_source.as_str(), target.address.as_str()) {
        Err(e) => Err(e),
        Ok(()) => Ok(target),
    }
}

/// The client configuration file: `$XDG_CONFIG_HOME/rusbee/config.toml`, else
/// `$HOME/.config/rusbee/config.toml`, ignoring empty variables.
pub open spec fn spec_config_path(xdg_config_home: Option<Seq<char>>, home: Option<Seq<char>>) -> Option<
    Seq<char>,
> {
    match xdg_config_home {
        Some(x) if x.len() > 0 => Some(path_join(x, "rusbee/config.toml"@)),
        _ => match home {
            Some(h) if h.len() > 0 => Some(path_join(h, ".config/rusbee/config.toml"@)),
            _ => None,
        },
    }
}

/// `PathBuf::join` of a relative path onto a non-empty base.
pub open spec fn path_join(base: Seq<char>, rel: Seq<char>) -> Seq<char> {
    if base.last() == '/' {
        base + rel
    } else {
        base + "/"@ + rel
    }
}

fn path_join_exec(base: &str, rel: &str) -> (r: String)
    requires
        base@.len() > 0,
    ensures
        r@ == path_join(base@, rel@),
{
    let b = chars_of(base);
    if b[b.len() - 1] == '/' {
        concat(base, rel)
    } else {
        let with_slash = concat(base, "/");
        concat(with_slash.as_str(), rel)
    }
}

/// The client configuration file, from the values of `XDG_CONFIG_HOME` and
/// `HOME`.
pub fn config_path(xdg_config_home: Option<&str>, home: Option<&str>) -> (r: Option<String>)
    ensures
        opt_view(r) == spec_config_path(opt_str_view(xdg_config_home), opt_str_view(home)),
{
    if let Some(x) = xdg_config_home {
        if !x.is_empty() {
            return Some(path_join_exec(x, "rusbee/config.toml"));
        }
    }
    if let Some(h) = home {
        if !h.is_empty() {
            return Some(path_join_exec(h, ".config/rusbee/config.toml"));
        }
    }
    None
}

// ---------------------------------------------------------------------------
// Laws
// ---------------------------------------------------------------------------
/// The target a client talks to: `--server` gives the address where it is
/// given, otherwise the chosen target does (the named one, or the only one
/// when no name is given); `--token` gives the token where it is given,
/// otherwise the chosen target's configured token does.
pub proof fn law_resolved_fields(
    entries: Seq<(Seq<char>, TargetView)>,
    target_name: Option<Seq<char>>,
    server_override: Option<Seq<char>>,
    token_override: Option<Seq<char>>,
)
    ensures
        match spec_resolve_target(entries, target_name, server_override, token_override) {
            Ok((address, token)) => {
                let chosen: Option<TargetView> = match target_name {
                    Some(n) => entries_lookup(entries, n),
                    None => if entries.len() == 1 {
                        Some(entries[0].1)
                    } else {
                        None
                    },
                };
                &&& target_name is Some ==> chosen is Some
                &&& target_name is None ==> entries.len() <= 1
                &&& address == (match server_override {
                    Some(s) => s,
                    None => chosen.unwrap().0,
                })
                &&& token == (match token_override {
                    Some(k) => Some(k),
                    None => match chosen {
                        Some(t) => t.1,
                        None => None,
                    },
                })
            },
            Err(_) => true,
        },
{
}

/// With exactly one target configured and no name, `--server` or `--token`,
/// a valid http or https address resolves to that target, token included.
pub proof fn law_only_target_resolves(entries: Seq<(Seq<char>, TargetView)>)
    requires
        entries.len() == 1,
        entries[0].1.0.len() > 0,
        parsed_url(entries[0].1.0) matches Ok((scheme, _)) && (scheme == "http"@ || scheme == "https"@),
    ensures
        spec_resolve_target(entries, None, None, None) == Ok::<TargetView, ConfigErrorView>(entries[0].1),
{
}

/// The client configuration file is `rusbee/config.toml` under a non-empty
/// `XDG_CONFIG_HOME`, else `.config/rusbee/config.toml` under a non-empty
/// `HOME`, each joined with one `/` between them (none added where the
/// directory already ends in `/`); without either there is none.
pub proof fn law_config_path(xdg_config_home: Option<Seq<char>>, home: Option<Seq<char>>)
    ensures
        match xdg_config_home {
            Some(x) => x.len() > 0 ==> spec_config_path(xdg_config_home, home) == Some(
                if x.last() == '/' {
                    x + "rusbee/config.toml"@
                } else {
                    x + "/"@ + "rusbee/config.toml"@
                },
            ),
            None => true,
        },
        !(xdg_config_home matches Some(x) && x.len() > 0) ==> spec_config_path(xdg_config_home, home)
            == (match home {
            Some(h) => if h.len() == 0 {
                None
            } else if h.last() == '/' {
                Some(h + ".config/rusbee/config.toml"@)
            } else {
                Some(h + "/"@ + ".config/rusbee/config.toml"@)
            },
            None => None,
        }),
{
}

/// A resolved target always has a non-empty http or https address.
pub proof fn law_resolved_address_is_http(
    entries: Seq<(Seq<char>, TargetView)>,
    target_name: Option<Seq<char>>,
    server_override: Option<Seq<char>>,
    token_override: Option<Seq<char>>,
)
    ensures
        spec_resolve_target(entries, target_name, server_override, token_override) matches Ok(
            (address, _),
        ) ==> (address.len() > 0 && (parsed_url(address) matches Ok((scheme, _)) && (scheme
            == "http"@ || scheme == "https"@))),
{
}

/// `--server` and `--token` win over the configured target.
pub proof fn law_flags_override_target(
    entries: Seq<(Seq<char>, TargetView)>,
    target_name: Option<Seq<char>>,
    server_override: Option<Seq<char>>,
    token_override: Option<Seq<char>>,
)
    ensures
        spec_resolve_target(entries, target_name, server_override, token_override) matches Ok(
            (address, token),
        ) ==> (server_override matches Some(s) ==> address == s) && (token_override matches Some(
            k,
        ) ==> token == Some(k)),
{
}

/// Naming a target that is not configured is an error whatever the flags,
/// and the error lists the configured names.
pub proof fn law_unknown_target_is_error(
    entries: Seq<(Seq<char>, TargetView)>,
    name: Seq<char>,
    server_override: Option<Seq<char>>,
    token_override: Option<Seq<char>>,
)
    requires
        entries_lookup(entries, name) is None,
    ensures
        spec_resolve_target(entries, Some(name), server_override, token_override) == Err::<
            TargetView,
            ConfigErrorView,
        >(
            ConfigErrorView::TargetNotFound {
                name,
                available: available_targets_text(entry_names(entries)),
            },
        ),
{
}

} // verus!
