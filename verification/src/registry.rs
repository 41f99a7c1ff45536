//! Plugin metadata, registry settings and execution statistics.
use vstd::prelude::*;
use std::time::Instant;
use crate::ast::{attr_get, attr_set, Attributes, AttrsM};
use crate::text::{chars_eq, chars_of, owned, str_eq, strings_view};

verus! {

/// A point in time (`std::time::Instant`), carried as an opaque value.
#[verifier::external_type_specification]
#[verifier::external_body]
pub struct ExInstant(Instant);

/// `Instant::now`. Trusted: returns the current instant; nothing is stated of it.
#[verifier::external_body]
fn instant_now() -> (r: Instant) {
    Instant::now()
}

/// Metadata of a plugin.
pub struct PluginMetadata {
    /// The plugin's name, unique in a registry.
    pub name: String,
    /// What the plugin does.
    pub description: String,
    /// Its semantic version.
    pub version: String,
    /// Its author.
    pub author: Option<String>,
    /// Tags it is listed under.
    pub tags: Vec<String>,
    /// Whether it is experimental.
    pub experimental: bool,
    /// The least host version it needs.
    pub min_vexy_svgo_version: Option<String>,
    /// The plugins it depends on.
    pub dependencies: Vec<PluginDependency>,
    /// What it does to documents.
    pub capabilities: Vec<PluginCapability>,
    /// How it performs.
    pub performance_hints: PerformanceHints,
}

/// A dependency on another plugin.
pub struct PluginDependency {
    /// The plugin depended on.
    pub name: String,
    /// The version required of it.
    pub version: String,
    /// Whether the dependency may be missing.
    pub optional: bool,
}

/// What a plugin does to documents.
pub enum PluginCapability {
    /// Changes the structure of the tree.
    StructuralChanges,
    /// Changes attributes only.
    AttributeChanges,
    /// Works on a stream.
    StreamingCompatible,
    /// Gains from several passes.
    MultipassAware,
    /// Has effects outside the document.
    HasSideEffects,
    /// Can run asynchronously.
    AsyncCapable,
}

/// How a plugin performs.
pub struct PerformanceHints {
    /// Expected time cost, on a scale of 1 to 10.
    pub time_complexity: u8,
    /// Expected memory use, on a scale of 1 to 10.
    pub memory_usage: u8,
    /// Preferred place in the run order (lower runs earlier).
    pub execution_order: i32,
    /// Whether results may be cached.
    pub cacheable: bool,
    /// Whether it is CPU intensive.
    pub cpu_intensive: bool,
}

impl Default for PerformanceHints {
    fn default() -> (r: Self)
        ensures
            r.time_complexity == 5,
            r.memory_usage == 5,
            r.execution_order == 0,
            !r.cacheable,
            !r.cpu_intensive,
    {
        PerformanceHints {
            time_complexity: 5,
            memory_usage: 5,
            execution_order: 0,
            cacheable: false,
            cpu_intensive: false,
        }
    }
}

/// The largest span a `std::time::Duration` holds, in nanoseconds.
pub open spec fn duration_max() -> int {
    0xFFFF_FFFF_FFFF_FFFFint * 1_000_000_000 + 999_999_999
}

/// Whether one more execution of `duration` nanoseconds, a success or not, can be counted
/// in `s` without overflow.
pub open spec fn can_record(s: PluginStats, duration: u128, success: bool) -> bool {
    &&& s.executions < u64::MAX
    &&& !success ==> s.error_count < u64::MAX
    &&& s.total_time + duration <= duration_max()
}

/// Whether `b` is `a` after counting one execution of `duration` nanoseconds: the mean is
/// the total (taken modulo 2^64) divided by the count.
pub open spec fn recorded(a: PluginStats, b: PluginStats, duration: u128, success: bool) -> bool {
    &&& b.executions == a.executions + 1
    &&& b.total_time == a.total_time + duration
    &&& b.avg_time as int == (b.total_time as int % 0x1_0000_0000_0000_0000int) / (
    b.executions as int)
    &&& b.min_time == if a.executions == 0 || duration < a.min_time {
        duration
    } else {
        a.min_time
    }
    &&& b.max_time == if a.executions == 0 || duration > a.max_time {
        duration
    } else {
        a.max_time
    }
    &&& b.error_count == if success {
        a.error_count as int
    } else {
        a.error_count + 1
    }
    &&& b.last_execution.is_some()
}

/// Execution statistics of a plugin; spans of time are in nanoseconds.
pub struct PluginStats {
    /// Number of executions.
    pub executions: u64,
    /// Total time of all executions.
    pub total_time: u128,
    /// Mean time of an execution.
    pub avg_time: u128,
    /// Shortest execution.
    pub min_time: u128,
    /// Longest execution.
    pub max_time: u128,
    /// Number of failed executions.
    pub error_count: u64,
    /// When the last execution was recorded.
    pub last_execution: Option<Instant>,
}

impl Default for PluginStats {
    fn default() -> (r: Self)
        ensures
            r.executions == 0,
            r.total_time == 0,
            r.avg_time == 0,
            r.min_time == 0,
            r.max_time == 0,
            r.error_count == 0,
            r.last_execution.is_none(),
    {
        PluginStats {
            executions: 0,
            total_time: 0,
            avg_time: 0,
            min_time: 0,
            max_time: 0,
            error_count: 0,
            last_execution: None,
        }
    }
}

impl PluginStats {
    /// Records one execution that took `duration` nanoseconds and succeeded or not.
    /// The mean is the total (taken modulo 2^64) divided by the count.
    pub fn record_execution(&mut self, duration: u128, success: bool)
        requires
            can_record(*old(self), duration, success),
        ensures
            recorded(*old(self), *final(self), duration, success),
    {
        self.executions = self.executions + 1;
        assert(duration_max() < u128::MAX);
        self.total_time = self.total_time + duration;
        let low = (self.total_time % 0x1_0000_0000_0000_0000) as u64;
        self.avg_time = (low / self.executions) as u128;
        if self.executions == 1 || duration < self.min_time {
            self.min_time = duration;
        }
        if self.executions == 1 || duration > self.max_time {
            self.max_time = duration;
        }
        if !success {
            self.error_count = self.error_count + 1;
        }
        self.last_execution = Some(instant_now());
    }
}

/// Whether statistics are what a series of recorded executions leaves: all zero
/// before the first one; after it, the shortest time at most the longest, the total
/// between the count times the shortest and the count times the longest, and no more
/// failures than executions.
pub open spec fn stats_consistent(s: PluginStats) -> bool {
    &&& s.error_count <= s.executions
    &&& s.executions == 0 ==> s.total_time == 0 && s.avg_time == 0 && s.min_time == 0
        && s.max_time == 0
    &&& s.executions > 0 ==> s.min_time <= s.max_time && s.executions * s.min_time
        <= s.total_time <= s.executions * s.max_time
}

/// Statistics that record nothing yet are consistent.
pub proof fn lemma_default_stats_consistent(s: PluginStats)
    requires
        s.executions == 0,
        s.total_time == 0,
        s.avg_time == 0,
        s.min_time == 0,
        s.max_time == 0,
        s.error_count == 0,
    ensures
        stats_consistent(s),
{
}

/// Recording an execution keeps statistics consistent, whatever its duration.
pub proof fn lemma_record_keeps_consistent(a: PluginStats, b: PluginStats, duration: u128, success: bool)
    requires
        stats_consistent(a),
        recorded(a, b, duration, success),
    ensures
        stats_consistent(b),
{
    let n = a.executions as int;
    let d = duration as int;
    if n > 0 {
        let lo = b.min_time as int;
        let hi = b.max_time as int;
        assert(lo <= a.min_time && lo <= d);
        assert(hi >= a.max_time && hi >= d);
        assert(n * lo <= n * (a.min_time as int)) by (nonlinear_arith)
            requires
                0 <= lo <= a.min_time,
                n > 0,
        ;
        assert(n * (a.max_time as int) <= n * hi) by (nonlinear_arith)
            requires
                a.max_time <= hi,
                n > 0,
        ;
        assert((n + 1) * lo == n * lo + lo) by (nonlinear_arith);
        assert((n + 1) * hi == n * hi + hi) by (nonlinear_arith);
        assert(b.executions as int == n + 1);
        assert(b.executions * b.min_time == (n + 1) * lo);
        assert(b.executions * b.max_time == (n + 1) * hi);
    } else {
        assert(b.executions as int == 1);
        assert(b.min_time as int == d && b.max_time as int == d);
        assert(b.executions * b.min_time == d);
        assert(b.executions * b.max_time == d);
    }
}

/// With consistent statistics whose total fits in 64 bits, the mean lies between the
/// shortest and the longest time.
pub proof fn lemma_mean_between(s: PluginStats)
    requires
        stats_consistent(s),
        s.executions > 0,
        s.total_time < 0x1_0000_0000_0000_0000int,
        s.avg_time as int == (s.total_time as int % 0x1_0000_0000_0000_0000int) / (s.executions as int),
    ensures
        s.min_time <= s.avg_time <= s.max_time,
{
    let n = s.executions as int;
    let t = s.total_time as int;
    assert(t % 0x1_0000_0000_0000_0000int == t) by {
        vstd::arithmetic::div_mod::lemma_small_mod(t as nat, 0x1_0000_0000_0000_0000nat);
    }
    let q = t / n;
    assert(q * n <= t < q * n + n) by {
        vstd::arithmetic::div_mod::lemma_fundamental_div_mod(t, n);
        vstd::arithmetic::div_mod::lemma_mod_bound(t, n);
    }
    let lo = s.min_time as int;
    let hi = s.max_time as int;
    assert(lo <= q) by (nonlinear_arith)
        requires
            n * lo <= t,
            t < q * n + n,
            n > 0,
    ;
    assert(q <= hi) by (nonlinear_arith)
        requires
            q * n <= t,
            t <= n * hi,
            n > 0,
    ;
}

/// Settings of a plugin registry.
pub struct RegistryConfig {
    /// Cache plugin instances.
    pub enable_caching: bool,
    /// Collect execution statistics.
    pub collect_stats: bool,
    /// Most instances in the cache.
    pub max_cache_size: usize,
    /// Where plugins are looked for.
    pub search_paths: Vec<String>,
    /// Accept experimental plugins.
    pub allow_experimental: bool,
}

impl Default for RegistryConfig {
    fn default() -> (r: Self)
        ensures
            r.enable_caching,
            r.collect_stats,
            r.max_cache_size == 100,
            r.search_paths@.len() == 0,
            !r.allow_experimental,
    {
        RegistryConfig {
            enable_caching: true,
            collect_stats: true,
            max_cache_size: 100,
            search_paths: Vec::new(),
            allow_experimental: false,
        }
    }
}

/// Why the registry refused a request.
#[derive(Debug)]
pub enum RegistryError {
    /// An experimental plugin while experimental plugins are not accepted.
    ExperimentalNotAllowed(String),
    /// A plugin of that name is registered already.
    AlreadyRegistered(String),
    /// No plugin of that name is registered.
    NotFound(String),
    /// The required dependencies that are not registered, in order.
    MissingDependencies(Vec<String>),
    /// A plugin that depends on itself through its required dependencies.
    CircularDependency(String),
}

/// The names of the given plugins, in order.
pub open spec fn plugin_names(p: Seq<PluginMetadata>) -> Seq<Seq<char>> {
    p.map_values(|m: PluginMetadata| m.name@)
}

/// The position of the first plugin named `name`, or the number of plugins.
pub open spec fn plugin_pos(p: Seq<PluginMetadata>, name: Seq<char>) -> nat
    decreases p.len(),
{
    if p.len() == 0 {
        0
    } else if p[0].name@ == name {
        0
    } else {
        1 + plugin_pos(p.drop_first(), name)
    }
}

/// The names of the required (not optional) dependencies, in order.
pub open spec fn required_deps(ds: Seq<PluginDependency>) -> Seq<Seq<char>>
    decreases ds.len(),
{
    if ds.len() == 0 {
        seq![]
    } else {
        required_deps(ds.drop_last()) + if !ds.last().optional {
            seq![ds.last().name@]
        } else {
            seq![]
        }
    }
}

/// The required dependencies of every plugin, one plugin after the other.
pub open spec fn all_deps(p: Seq<PluginMetadata>) -> Seq<Seq<char>>
    decreases p.len(),
{
    if p.len() == 0 {
        seq![]
    } else {
        all_deps(p.drop_last()) + required_deps(p.last().dependencies@)
    }
}

/// The plugins, names, aliases and statistics that a registry's decisions read.
pub struct RegistryIndex {
    /// The registered plugins, in the order they were registered.
    pub plugins: Vec<PluginMetadata>,
    /// Aliases, each naming a plugin.
    pub aliases: Attributes,
    /// The statistics of each plugin, by name.
    pub stats: Vec<(String, PluginStats)>,
    /// The registry's settings.
    pub config: RegistryConfig,
}

impl RegistryIndex {
    /// No two registered plugins share a name.
    pub open spec fn well_formed(&self) -> bool {
        plugin_names(self.plugins@).no_duplicates()
    }

    /// The name an alias stands for, or the name itself.
    pub open spec fn resolved(&self, name: Seq<char>) -> Seq<char> {
        match attr_get(self.aliases@, name) {
            Some(t) => t,
            None => name,
        }
    }

    /// The plugin a name (or alias) designates.
    pub open spec fn meta_of(&self, name: Seq<char>) -> Option<PluginMetadata> {
        let p = plugin_pos(self.plugins@, self.resolved(name));
        if p < self.plugins@.len() {
            Some(self.plugins@[p as int])
        } else {
            None
        }
    }

    /// The required dependencies of the plugin a name designates (none when there is
    /// no such plugin).
    pub open spec fn deps_of(&self, name: Seq<char>) -> Seq<Seq<char>> {
        match self.meta_of(name) {
            Some(m) => required_deps(m.dependencies@),
            None => seq![],
        }
    }

    /// A depth-first visit of a name and its required dependencies: names already
    /// placed are skipped, a name met again on the current path is a cycle (the error
    /// names it), and a name is placed after its dependencies. `fuel` bounds the
    /// depth; one more than the number of dependency entries always suffices.
    pub open spec fn visit(
        &self,
        name: Seq<char>,
        ordered: Seq<Seq<char>>,
        path: Seq<Seq<char>>,
        fuel: nat,
    ) -> Result<Seq<Seq<char>>, Seq<char>>
        decreases fuel, 0nat,
    {
        if ordered.contains(name) {
            Ok(ordered)
        } else if path.contains(name) {
            Err(name)
        } else if fuel == 0 {
            Ok(ordered.push(name))
        } else {
            match self.visit_all(self.deps_of(name), ordered, path.push(name), (fuel - 1) as nat) {
                Ok(o) => Ok(o.push(name)),
                Err(e) => Err(e),
            }
        }
    }

    /// The names visited in turn.
    pub open spec fn visit_all(
        &self,
        names: Seq<Seq<char>>,
        ordered: Seq<Seq<char>>,
        path: Seq<Seq<char>>,
        fuel: nat,
    ) -> Result<Seq<Seq<char>>, Seq<char>>
        decreases fuel, names.len() + 1,
    {
        if names.len() == 0 {
            Ok(ordered)
        } else {
            match self.visit_all(names.drop_last(), ordered, path, fuel) {
                Ok(o) => self.visit(names.last(), o, path, fuel),
                Err(e) => Err(e),
            }
        }
    }

    /// The order in which the named plugins and their required dependencies run.
    pub open spec fn execution_order(&self, names: Seq<Seq<char>>) -> Result<
        Seq<Seq<char>>,
        Seq<char>,
    > {
        self.visit_all(names, seq![], seq![], all_deps(self.plugins@).len() + 1)
    }
}

/// A list without repetitions whose items all occur in `t` is no longer than `t`.
pub proof fn lemma_distinct_bound(s: Seq<Seq<char>>, t: Seq<Seq<char>>)
    requires
        s.no_duplicates(),
        forall|i: int| 0 <= i < s.len() ==> t.contains(#[trigger] s[i]),
    ensures
        s.len() <= t.len(),
{
    broadcast use vstd::seq_lib::seq_to_set_is_finite;
    broadcast use vstd::seq_lib::group_seq_properties;

    s.unique_seq_to_set();
    t.lemma_cardinality_of_set();
    assert(s.to_set().subset_of(t.to_set())) by {
        assert forall|x: Seq<char>| s.to_set().contains(x) implies t.to_set().contains(x) by {
            let i = choose|i: int| 0 <= i < s.len() && s[i] == x;
            assert(t.contains(s[i]));
        }
    }
    vstd::set_lib::lemma_len_subset(s.to_set(), t.to_set());
}

/// The required dependencies of any registered plugin occur among `all_deps`.
pub proof fn lemma_deps_in_all(p: Seq<PluginMetadata>, k: int, x: Seq<char>)
    requires
        0 <= k < p.len(),
        required_deps(p[k].dependencies@).contains(x),
    ensures
        all_deps(p).contains(x),
    decreases p.len(),
{
    let a = all_deps(p.drop_last());
    let b = required_deps(p.last().dependencies@);
    if k == p.len() - 1 {
        let i = choose|i: int| 0 <= i < b.len() && b[i] == x;
        assert((a + b)[a.len() + i] == x);
    } else {
        assert(p.drop_last()[k] == p[k]);
        lemma_deps_in_all(p.drop_last(), k, x);
        let i = choose|i: int| 0 <= i < a.len() && a[i] == x;
        assert((a + b)[i] == x);
    }
}

/// Facts about `plugin_pos`.
pub proof fn lemma_plugin_pos(p: Seq<PluginMetadata>, name: Seq<char>)
    ensures
        plugin_pos(p, name) <= p.len(),
        plugin_pos(p, name) < p.len() ==> p[plugin_pos(p, name) as int].name@ == name,
        forall|j: int| 0 <= j < plugin_pos(p, name) ==> p[j].name@ != name,
    decreases p.len(),
{
    if p.len() > 0 && p[0].name@ != name {
        lemma_plugin_pos(p.drop_first(), name);
        assert forall|j: int| 0 <= j < plugin_pos(p, name) implies p[j].name@ != name by {
            if j > 0 {
                assert(p[j] == p.drop_first()[j - 1]);
            }
        }
    }
}

/// The position of a name after one more plugin is added at the end.
proof fn lemma_plugin_pos_push(p: Seq<PluginMetadata>, m: PluginMetadata, name: Seq<char>)
    ensures
        plugin_pos(p.push(m), name) == if plugin_pos(p, name) < p.len() {
            plugin_pos(p, name)
        } else if m.name@ == name {
            p.len()
        } else {
            p.len() + 1
        },
    decreases p.len(),
{
    lemma_plugin_pos(p, name);
    if p.len() > 0 {
        assert(p.push(m)[0] == p[0]);
        assert(p.push(m).drop_first() =~= p.drop_first().push(m));
        if p[0].name@ != name {
            lemma_plugin_pos_push(p.drop_first(), m, name);
            lemma_plugin_pos(p.drop_first(), name);
            assert(plugin_pos(p.push(m), name) == 1 + plugin_pos(p.drop_first().push(m), name));
            assert(plugin_pos(p, name) == 1 + plugin_pos(p.drop_first(), name));
        } else {
            assert(plugin_pos(p.push(m), name) == 0);
            assert(plugin_pos(p, name) == 0);
        }
    } else {
        assert(p.push(m)[0] == m);
        assert(p.push(m).drop_first() =~= Seq::<PluginMetadata>::empty());
        assert(plugin_pos(p.push(m).drop_first(), name) == 0);
    }
}

/// A registered plugin can be looked up: once a plugin of a new name is added (and no
/// alias has that name), its name designates it, and every name that designated a
/// plugin still designates the same one.
pub proof fn lemma_registered_found(before: RegistryIndex, after: RegistryIndex, m: PluginMetadata)
    requires
        after.plugins@ == before.plugins@.push(m),
        after.aliases@ == before.aliases@,
        plugin_pos(before.plugins@, m.name@) == before.plugins@.len(),
        attr_get(before.aliases@, m.name@) is None,
    ensures
        after.meta_of(m.name@) == Some(m),
        forall|n: Seq<char>| #[trigger] before.meta_of(n) is Some ==> after.meta_of(n) == before.meta_of(n),
{
    lemma_plugin_pos_push(before.plugins@, m, m.name@);
    assert forall|n: Seq<char>| #[trigger] before.meta_of(n) is Some implies after.meta_of(n) == before.meta_of(
        n,
    ) by {
        lemma_plugin_pos_push(before.plugins@, m, before.resolved(n));
    }
}

/// The position of the first entry of a name is the first position that holds it.
proof fn lemma_stats_pos_at(s: Seq<(String, PluginStats)>, name: Seq<char>, k: int)
    requires
        0 <= k < s.len(),
        s[k].0@ == name,
        forall|j: int| 0 <= j < k ==> s[j].0@ != name,
    ensures
        stats_pos(s, name) == k,
        stats_of(s, name) == Some(s[k].1),
    decreases k,
{
    if k > 0 {
        assert forall|j: int| 0 <= j < k - 1 implies s.drop_first()[j].0@ != name by {
            assert(s.drop_first()[j] == s[j + 1]);
        }
        lemma_stats_pos_at(s.drop_first(), name, k - 1);
    }
}

/// Counting a creation is read back: after `record_creation` updated the entry of the
/// plugin a name designates, the statistics read for that name are the updated ones.
pub proof fn lemma_recorded_stats_read_back(
    before: RegistryIndex,
    after: RegistryIndex,
    name: Seq<char>,
    duration: u128,
    success: bool,
)
    requires
        after.aliases@ == before.aliases@,
        stats_of(before.stats@, before.resolved(name)) is Some,
        after.stats@.len() == before.stats@.len(),
        ({
            let k = stats_pos(before.stats@, before.resolved(name)) as int;
            &&& after.stats@[k].0 == before.stats@[k].0
            &&& recorded(
                stats_of(before.stats@, before.resolved(name)).unwrap(),
                after.stats@[k].1,
                duration,
                success,
            )
            &&& forall|j: int|
                0 <= j < before.stats@.len() && j != k ==> after.stats@[j] == before.stats@[j]
        }),
    ensures
        ({
            let k = stats_pos(before.stats@, before.resolved(name)) as int;
            &&& stats_of(after.stats@, after.resolved(name)) == Some(after.stats@[k].1)
            &&& recorded(
                stats_of(before.stats@, before.resolved(name)).unwrap(),
                stats_of(after.stats@, after.resolved(name)).unwrap(),
                duration,
                success,
            )
        }),
{
    let rn = before.resolved(name);
    lemma_stats_pos(before.stats@, rn);
    let k = stats_pos(before.stats@, rn) as int;
    assert forall|j: int| 0 <= j < k implies after.stats@[j].0@ != rn by {
        assert(after.stats@[j] == before.stats@[j]);
    }
    lemma_stats_pos_at(after.stats@, rn, k);
}

/// Whether every name's required dependencies come before it in `o`.
pub open spec fn deps_first(idx: RegistryIndex, o: Seq<Seq<char>>) -> bool {
    forall|j: int, d: Seq<char>|
        0 <= j < o.len() && #[trigger] idx.deps_of(o[j]).contains(d) ==> exists|k: int|
            0 <= k < j && #[trigger] o[k] == d
}

/// What a depth-first visit may assume of its path: no name twice, every name after
/// the first a dependency entry, and fuel and path length adding up to one more than
/// the number of dependency entries.
pub open spec fn path_ok(idx: RegistryIndex, path: Seq<Seq<char>>, fuel: nat) -> bool {
    &&& path.no_duplicates()
    &&& forall|i: int| 1 <= i < path.len() ==> all_deps(idx.plugins@).contains(#[trigger] path[i])
    &&& fuel + path.len() == all_deps(idx.plugins@).len() + 1
}

/// The dependencies of a name occur among the dependency entries.
pub proof fn lemma_deps_of_in_all(idx: RegistryIndex, name: Seq<char>, x: Seq<char>)
    requires
        idx.deps_of(name).contains(x),
    ensures
        all_deps(idx.plugins@).contains(x),
{
    let p = plugin_pos(idx.plugins@, idx.resolved(name));
    lemma_deps_in_all(idx.plugins@, p as int, x);
}

/// Under `path_ok`, a name not on the path can be visited: the fuel is not spent.
pub proof fn lemma_fuel_left(idx: RegistryIndex, name: Seq<char>, path: Seq<Seq<char>>, fuel: nat)
    requires
        path_ok(idx, path, fuel),
        !path.contains(name),
        path.len() > 0 ==> all_deps(idx.plugins@).contains(name),
    ensures
        fuel > 0,
        path_ok(idx, path.push(name), (fuel - 1) as nat),
{
    let np = path.push(name);
    let d = all_deps(idx.plugins@);
    assert(np.no_duplicates()) by {
        assert forall|i: int, j: int| 0 <= i < j < np.len() implies np[i] != np[j] by {
            if j == np.len() - 1 {
                assert(np[i] == path[i]);
            } else {
                assert(np[i] == path[i] && np[j] == path[j]);
            }
        }
    }
    if path.len() > 0 {
        let tail = np.drop_first();
        assert(tail.no_duplicates()) by {
            assert forall|i: int, j: int| 0 <= i < j < tail.len() implies tail[i] != tail[j] by {
                assert(tail[i] == np[i + 1] && tail[j] == np[j + 1]);
            }
        }
        assert forall|i: int| 0 <= i < tail.len() implies d.contains(#[trigger] tail[i]) by {
            assert(tail[i] == np[i + 1]);
            if i + 1 < path.len() {
                assert(np[i + 1] == path[i + 1]);
            }
        }
        lemma_distinct_bound(tail, d);
    }
    assert forall|i: int| 1 <= i < np.len() implies d.contains(#[trigger] np[i]) by {
        if i < path.len() {
            assert(np[i] == path[i]);
        }
    }
}

/// A successful visit keeps what was placed, places the name, places no name of the
/// path, keeps every name once, and keeps every name after its dependencies.
pub proof fn lemma_visit_ok(
    idx: RegistryIndex,
    name: Seq<char>,
    ordered: Seq<Seq<char>>,
    path: Seq<Seq<char>>,
    fuel: nat,
)
    requires
        path_ok(idx, path, fuel),
        path.len() > 0 ==> all_deps(idx.plugins@).contains(name),
        ordered.no_duplicates(),
        deps_first(idx, ordered),
        forall|i: int| 0 <= i < path.len() ==> !ordered.contains(#[trigger] path[i]),
    ensures
        idx.visit(name, ordered, path, fuel) is Ok ==> ({
            let o = idx.visit(name, ordered, path, fuel)->Ok_0;
            &&& o.len() >= ordered.len()
            &&& o.take(ordered.len() as int) == ordered
            &&& o.contains(name)
            &&& o.no_duplicates()
            &&& deps_first(idx, o)
            &&& forall|i: int| 0 <= i < path.len() ==> !o.contains(#[trigger] path[i])
        }),
    decreases fuel, 0nat,
{
    if ordered.contains(name) {
        assert(ordered.take(ordered.len() as int) =~= ordered);
    } else if path.contains(name) {
    } else {
        lemma_fuel_left(idx, name, path, fuel);
        let np = path.push(name);
        let deps = idx.deps_of(name);
        assert forall|i: int| 0 <= i < np.len() implies !ordered.contains(#[trigger] np[i]) by {
            if i < path.len() {
                assert(np[i] == path[i]);
            }
        }
        assert forall|i: int| 0 <= i < deps.len() implies all_deps(idx.plugins@).contains(
            #[trigger] deps[i],
        ) by {
            lemma_deps_of_in_all(idx, name, deps[i]);
        }
        lemma_visit_all_ok(idx, deps, ordered, np, (fuel - 1) as nat);
        let r = idx.visit_all(deps, ordered, np, (fuel - 1) as nat);
        if r is Ok {
            let o1 = r->Ok_0;
            let o = o1.push(name);
            assert(!o1.contains(name)) by {
                assert(np[np.len() - 1] == name);
            }
            assert(o.take(ordered.len() as int) =~= o1.take(ordered.len() as int));
            assert(o[o.len() - 1] == name);
            assert(o.no_duplicates()) by {
                assert forall|i: int, j: int| 0 <= i < j < o.len() implies o[i] != o[j] by {
                    if j == o.len() - 1 {
                        assert(o[i] == o1[i]);
                        assert(o1.contains(o1[i]));
                    } else {
                        assert(o[i] == o1[i] && o[j] == o1[j]);
                    }
                }
            }
            assert(deps_first(idx, o)) by {
                assert forall|j: int, d: Seq<char>|
                    0 <= j < o.len() && #[trigger] idx.deps_of(o[j]).contains(d) implies exists|
                    k: int,
                | 0 <= k < j && #[trigger] o[k] == d by {
                    if j == o.len() - 1 {
                        assert(o[j] == name);
                        let t = choose|t: int| 0 <= t < deps.len() && deps[t] == d;
                        assert(o1.contains(deps[t]));
                        let k = choose|k: int| 0 <= k < o1.len() && o1[k] == d;
                        assert(o[k] == o1[k]);
                    } else {
                        assert(o[j] == o1[j]);
                        let k = choose|k: int| 0 <= k < j && #[trigger] o1[k] == d;
                        assert(o[k] == o1[k]);
                    }
                }
            }
            assert forall|i: int| 0 <= i < path.len() implies !o.contains(#[trigger] path[i]) by {
                assert(np[i] == path[i]);
                assert(!o1.contains(np[i]));
                assert(path[i] != name) by {
                    assert(np[i] != np[np.len() - 1]);
                }
                if o.contains(path[i]) {
                    let k = choose|k: int| 0 <= k < o.len() && o[k] == path[i];
                    if k < o1.len() {
                        assert(o[k] == o1[k]);
                    }
                }
            }
        }
    }
}

/// A successful visit of several names keeps what was placed and places each name,
/// with the same guarantees as one visit.
pub proof fn lemma_visit_all_ok(
    idx: RegistryIndex,
    names: Seq<Seq<char>>,
    ordered: Seq<Seq<char>>,
    path: Seq<Seq<char>>,
    fuel: nat,
)
    requires
        path_ok(idx, path, fuel),
        path.len() > 0 ==> forall|i: int|
            0 <= i < names.len() ==> all_deps(idx.plugins@).contains(#[trigger] names[i]),
        ordered.no_duplicates(),
        deps_first(idx, ordered),
        forall|i: int| 0 <= i < path.len() ==> !ordered.contains(#[trigger] path[i]),
    ensures
        idx.visit_all(names, ordered, path, fuel) is Ok ==> ({
            let o = idx.visit_all(names, ordered, path, fuel)->Ok_0;
            &&& o.len() >= ordered.len()
            &&& o.take(ordered.len() as int) == ordered
            &&& forall|i: int| 0 <= i < names.len() ==> o.contains(#[trigger] names[i])
            &&& o.no_duplicates()
            &&& deps_first(idx, o)
            &&& forall|i: int| 0 <= i < path.len() ==> !o.contains(#[trigger] path[i])
        }),
    decreases fuel, names.len() + 1,
{
    if names.len() == 0 {
        assert(ordered.take(ordered.len() as int) =~= ordered);
    } else {
        let init = names.drop_last();
        assert forall|i: int| 0 <= i < init.len() && path.len() > 0 implies all_deps(
            idx.plugins@,
        ).contains(#[trigger] init[i]) by {
            assert(init[i] == names[i]);
        }
        lemma_visit_all_ok(idx, init, ordered, path, fuel);
        let r1 = idx.visit_all(init, ordered, path, fuel);
        if r1 is Ok {
            let o1 = r1->Ok_0;
            if path.len() > 0 {
                assert(all_deps(idx.plugins@).contains(names[names.len() - 1]));
            }
            lemma_visit_ok(idx, names.last(), o1, path, fuel);
            let r = idx.visit(names.last(), o1, path, fuel);
            if r is Ok {
                let o = r->Ok_0;
                assert(o.take(ordered.len() as int) =~= o.take(o1.len() as int).take(
                    ordered.len() as int,
                ));
                assert forall|i: int| 0 <= i < names.len() implies o.contains(#[trigger] names[i]) by {
                    if i < names.len() - 1 {
                        assert(init[i] == names[i]);
                        assert(o1.contains(init[i]));
                        let k = choose|k: int| 0 <= k < o1.len() && o1[k] == init[i];
                        assert(o.take(o1.len() as int)[k] == o[k]);
                    }
                }
            }
        }
    }
}

/// The execution order of a registry: when it can be had, it holds every requested
/// name, holds no name twice, and places each name after the required dependencies
/// of the plugin it designates.
pub proof fn lemma_execution_order(idx: RegistryIndex, names: Seq<Seq<char>>)
    ensures
        idx.execution_order(names) is Ok ==> ({
            let o = idx.execution_order(names)->Ok_0;
            &&& forall|i: int| 0 <= i < names.len() ==> o.contains(#[trigger] names[i])
            &&& o.no_duplicates()
            &&& deps_first(idx, o)
        }),
{
    let fuel = (all_deps(idx.plugins@).len() + 1) as nat;
    assert(path_ok(idx, seq![], fuel));
    lemma_visit_all_ok(idx, names, seq![], seq![], fuel);
}

/// Whether each name of `q` after the first is a required dependency of the one before.
pub open spec fn dep_chain(idx: RegistryIndex, q: Seq<Seq<char>>) -> bool {
    forall|i: int| 0 <= i < q.len() - 1 ==> #[trigger] idx.deps_of(q[i]).contains(q[i + 1])
}

/// Whether the last name of `q` occurs earlier in it.
pub open spec fn closes_cycle(q: Seq<Seq<char>>) -> bool {
    q.len() > 0 && exists|j: int| 0 <= j < q.len() - 1 && #[trigger] q[j] == q.last()
}

/// Whether a chain of required dependencies from one of the names runs into a cycle.
pub open spec fn cycle_reachable(idx: RegistryIndex, names: Seq<Seq<char>>) -> bool {
    exists|q: Seq<Seq<char>>| #[trigger] dep_chain(idx, q) && closes_cycle(q) && names.contains(q[0])
}

/// A chain that runs into a cycle from where a visit stands: `path` followed by `q`'s
/// names after its first, `q` starting at `path`'s first name (or at `start` when the
/// path is empty), and ending with `e`.
pub open spec fn failing_chain(idx: RegistryIndex, q: Seq<Seq<char>>, path: Seq<Seq<char>>, starts: Seq<Seq<char>>, e: Seq<char>) -> bool {
    &&& dep_chain(idx, q)
    &&& closes_cycle(q)
    &&& q.last() == e
    &&& path.len() > 0 ==> q[0] == path[0]
    &&& path.len() == 0 ==> starts.contains(q[0])
}

/// A failing visit has met a cycle: the name it reports closes a chain of required
/// dependencies that starts where the path starts (or at the name).
proof fn lemma_visit_err(
    idx: RegistryIndex,
    name: Seq<char>,
    ordered: Seq<Seq<char>>,
    path: Seq<Seq<char>>,
    fuel: nat,
)
    requires
        path_ok(idx, path, fuel),
        path.len() > 0 ==> all_deps(idx.plugins@).contains(name),
        dep_chain(idx, path),
        path.len() > 0 ==> idx.deps_of(path.last()).contains(name),
    ensures
        idx.visit(name, ordered, path, fuel) is Err ==> exists|q: Seq<Seq<char>>|
            #[trigger] failing_chain(idx, q, path, seq![name], idx.visit(name, ordered, path, fuel)->Err_0),
    decreases fuel, 0nat,
{
    if ordered.contains(name) {
    } else if path.contains(name) {
        let q = path.push(name);
        let j = choose|j: int| 0 <= j < path.len() && path[j] == name;
        assert(q[j] == q.last());
        assert forall|i: int| 0 <= i < q.len() - 1 implies #[trigger] idx.deps_of(q[i]).contains(q[i + 1]) by {
            assert(q[i] == path[i]);
            if i < path.len() - 1 {
                assert(q[i + 1] == path[i + 1]);
            }
        }
        assert(q[0] == path[0]);
        assert(q.last() == name);
        assert(closes_cycle(q));
        assert(failing_chain(idx, q, path, seq![name], name));
        assert(idx.visit(name, ordered, path, fuel) == Err::<Seq<Seq<char>>, Seq<char>>(name));
        assert(failing_chain(idx, q, path, seq![name], idx.visit(name, ordered, path, fuel)->Err_0));
    } else {
        lemma_fuel_left(idx, name, path, fuel);
        let np = path.push(name);
        let deps = idx.deps_of(name);
        assert forall|i: int| 0 <= i < deps.len() implies all_deps(idx.plugins@).contains(
            #[trigger] deps[i],
        ) by {
            lemma_deps_of_in_all(idx, name, deps[i]);
        }
        assert(dep_chain(idx, np)) by {
            assert forall|i: int| 0 <= i < np.len() - 1 implies #[trigger] idx.deps_of(np[i]).contains(np[i + 1]) by {
                assert(np[i] == path[i]);
                if i < path.len() - 1 {
                    assert(np[i + 1] == path[i + 1]);
                }
            }
        }
        assert(np.last() == name);
        lemma_visit_all_err(idx, deps, ordered, np, (fuel - 1) as nat);
        let r = idx.visit_all(deps, ordered, np, (fuel - 1) as nat);
        if r is Err {
            let q = choose|q: Seq<Seq<char>>| #[trigger] failing_chain(idx, q, np, deps, r->Err_0);
            assert(np[0] == if path.len() > 0 { path[0] } else { name });
            assert(seq![name][0] == name);
            assert(failing_chain(idx, q, path, seq![name], r->Err_0));
            assert(idx.visit(name, ordered, path, fuel) == r);
            assert(failing_chain(idx, q, path, seq![name], idx.visit(name, ordered, path, fuel)->Err_0));
        }
    }
}

/// A failing visit of several names has met a cycle, as for one name; with an empty
/// path the chain starts at one of the names.
proof fn lemma_visit_all_err(
    idx: RegistryIndex,
    names: Seq<Seq<char>>,
    ordered: Seq<Seq<char>>,
    path: Seq<Seq<char>>,
    fuel: nat,
)
    requires
        path_ok(idx, path, fuel),
        path.len() > 0 ==> forall|i: int|
            0 <= i < names.len() ==> all_deps(idx.plugins@).contains(#[trigger] names[i]),
        dep_chain(idx, path),
        path.len() > 0 ==> forall|i: int|
            0 <= i < names.len() ==> idx.deps_of(path.last()).contains(#[trigger] names[i]),
    ensures
        idx.visit_all(names, ordered, path, fuel) is Err ==> exists|q: Seq<Seq<char>>|
            #[trigger] failing_chain(idx, q, path, names, idx.visit_all(names, ordered, path, fuel)->Err_0),
    decreases fuel, names.len() + 1,
{
    if names.len() > 0 {
        let init = names.drop_last();
        assert forall|i: int| 0 <= i < init.len() && path.len() > 0 implies all_deps(
            idx.plugins@,
        ).contains(#[trigger] init[i]) && idx.deps_of(path.last()).contains(init[i]) by {
            assert(init[i] == names[i]);
        }
        lemma_visit_all_err(idx, init, ordered, path, fuel);
        let r1 = idx.visit_all(init, ordered, path, fuel);
        if r1 is Err {
            let q = choose|q: Seq<Seq<char>>| #[trigger] failing_chain(idx, q, path, init, r1->Err_0);
            if path.len() == 0 {
                let k = choose|k: int| 0 <= k < init.len() && init[k] == q[0];
                assert(names[k] == init[k]);
            }
            assert(failing_chain(idx, q, path, names, r1->Err_0));
        } else {
            let o1 = r1->Ok_0;
            let last = names.last();
            if path.len() > 0 {
                assert(all_deps(idx.plugins@).contains(names[names.len() - 1]));
                assert(idx.deps_of(path.last()).contains(names[names.len() - 1]));
            }
            lemma_visit_err(idx, last, o1, path, fuel);
            let r = idx.visit(last, o1, path, fuel);
            if r is Err {
                let q = choose|q: Seq<Seq<char>>| #[trigger] failing_chain(idx, q, path, seq![last], r->Err_0);
                if path.len() == 0 {
                    assert(seq![last].contains(q[0]));
                    assert(q[0] == last);
                    assert(names[names.len() - 1] == last);
                }
                assert(failing_chain(idx, q, path, names, r->Err_0));
            }
        }
    }
}

/// Along a chain of required dependencies that starts at position `k0` of a list in
/// which every name comes after its dependencies, the names come ever earlier.
proof fn lemma_chain_positions(idx: RegistryIndex, o: Seq<Seq<char>>, q: Seq<Seq<char>>, k0: int, t: int)
    requires
        deps_first(idx, o),
        dep_chain(idx, q),
        0 <= k0 < o.len(),
        q.len() > 0,
        o[k0] == q[0],
        0 <= t < q.len(),
    ensures
        exists|k: int| 0 <= k <= k0 - t && #[trigger] o[k] == q[t],
    decreases t,
{
    if t == 0 {
        assert(o[k0] == q[0]);
    } else {
        lemma_chain_positions(idx, o, q, k0, t - 1);
        let k = choose|k: int| 0 <= k <= k0 - (t - 1) && #[trigger] o[k] == q[t - 1];
        assert(idx.deps_of(q[t - 1]).contains(q[(t - 1) + 1]));
        assert(idx.deps_of(o[k]).contains(q[t]));
        let k2 = choose|k2: int| 0 <= k2 < k && #[trigger] o[k2] == q[t];
        assert(0 <= k2 <= k0 - t && o[k2] == q[t]);
    }
}

/// The execution order fails exactly when a chain of required dependencies from one
/// of the requested names runs into a cycle; the name it reports closes such a chain.
pub proof fn lemma_execution_order_fails_iff_cycle(idx: RegistryIndex, names: Seq<Seq<char>>)
    ensures
        idx.execution_order(names) is Err <==> cycle_reachable(idx, names),
        idx.execution_order(names) is Err ==> exists|q: Seq<Seq<char>>|
            #[trigger] dep_chain(idx, q) && closes_cycle(q) && names.contains(q[0]) && q.last()
                == idx.execution_order(names)->Err_0,
{
    let fuel = (all_deps(idx.plugins@).len() + 1) as nat;
    let e: Seq<Seq<char>> = seq![];
    assert(path_ok(idx, e, fuel));
    lemma_visit_all_err(idx, names, e, e, fuel);
    let r = idx.execution_order(names);
    if r is Err {
        let q = choose|q: Seq<Seq<char>>| #[trigger] failing_chain(idx, q, e, names, r->Err_0);
        assert(dep_chain(idx, q) && closes_cycle(q) && names.contains(q[0]));
    } else if cycle_reachable(idx, names) {
        lemma_execution_order(idx, names);
        let o = r->Ok_0;
        let q = choose|q: Seq<Seq<char>>| #[trigger] dep_chain(idx, q) && closes_cycle(q) && names.contains(q[0]);
        let j = choose|j: int| 0 <= j < q.len() - 1 && #[trigger] q[j] == q.last();
        let i = choose|i: int| 0 <= i < names.len() && names[i] == q[0];
        assert(o.contains(names[i]));
        let k0 = choose|k0: int| 0 <= k0 < o.len() && o[k0] == q[0];
        lemma_chain_positions(idx, o, q, k0, j);
        let kj = choose|kj: int| 0 <= kj <= k0 - j && #[trigger] o[kj] == q[j];
        let q2 = q.subrange(j, q.len() as int);
        assert(dep_chain(idx, q2)) by {
            assert forall|t: int| 0 <= t < q2.len() - 1 implies #[trigger] idx.deps_of(q2[t]).contains(q2[t + 1]) by {
                assert(q2[t] == q[j + t] && q2[t + 1] == q[j + t + 1]);
                assert(idx.deps_of(q[j + t]).contains(q[(j + t) + 1]));
            }
        }
        lemma_chain_positions(idx, o, q2, kj, q2.len() - 1);
        let kl = choose|kl: int| 0 <= kl <= kj - (q2.len() - 1) && #[trigger] o[kl] == q2[q2.len() - 1];
        assert(q2[q2.len() - 1] == q.last());
        assert(o[kl] == o[kj]);
        assert(kl < kj);
        assert(false);
    }
}

/// The statistics recorded for a name, if any (the first entry of that name).
pub open spec fn stats_of(s: Seq<(String, PluginStats)>, name: Seq<char>) -> Option<PluginStats>
    decreases s.len(),
{
    if s.len() == 0 {
        None
    } else if s[0].0@ == name {
        Some(s[0].1)
    } else {
        stats_of(s.drop_first(), name)
    }
}

/// The position of the first statistics entry of a name, or the number of entries.
pub open spec fn stats_pos(s: Seq<(String, PluginStats)>, name: Seq<char>) -> nat
    decreases s.len(),
{
    if s.len() == 0 {
        0
    } else if s[0].0@ == name {
        0
    } else {
        1 + stats_pos(s.drop_first(), name)
    }
}

/// The first entry of a name is where `stats_pos` points, and no entry before it has that name.
pub proof fn lemma_stats_pos(s: Seq<(String, PluginStats)>, name: Seq<char>)
    ensures
        stats_pos(s, name) <= s.len(),
        stats_pos(s, name) < s.len() ==> stats_of(s, name) == Some(s[stats_pos(s, name) as int].1)
            && s[stats_pos(s, name) as int].0@ == name,
        stats_pos(s, name) == s.len() <==> stats_of(s, name) is None,
        forall|j: int| 0 <= j < stats_pos(s, name) ==> s[j].0@ != name,
    decreases s.len(),
{
    if s.len() > 0 && s[0].0@ != name {
        lemma_stats_pos(s.drop_first(), name);
        assert forall|j: int| 0 <= j < stats_pos(s, name) implies s[j].0@ != name by {
            if j > 0 {
                assert(s[j] == s.drop_first()[j - 1]);
            }
        }
    }
}

/// Whether statistics are those of a plugin never run.
pub open spec fn fresh_stats(s: PluginStats) -> bool {
    s.executions == 0 && s.total_time == 0 && s.avg_time == 0 && s.min_time == 0 && s.max_time
        == 0 && s.error_count == 0 && s.last_execution.is_none()
}

/// The plugins that carry a tag, in order.
pub open spec fn with_tag(p: Seq<PluginMetadata>, tag: Seq<char>) -> Seq<PluginMetadata>
    decreases p.len(),
{
    if p.len() == 0 {
        seq![]
    } else {
        with_tag(p.drop_last(), tag) + if strings_view(p.last().tags@).contains(tag) {
            seq![p.last()]
        } else {
            seq![]
        }
    }
}

/// The position after the leading plugins whose execution order is at most `k`.
pub open spec fn order_pos(s: Seq<PluginMetadata>, k: int) -> nat
    decreases s.len(),
{
    if s.len() == 0 {
        0
    } else if s[0].performance_hints.execution_order <= k {
        1 + order_pos(s.drop_first(), k)
    } else {
        0
    }
}

/// The plugins ordered by their preferred execution order, plugins of equal order
/// keeping their order (an insertion sort).
pub open spec fn by_execution_order(s: Seq<PluginMetadata>) -> Seq<PluginMetadata>
    decreases s.len(),
{
    if s.len() == 0 {
        s
    } else {
        let t = by_execution_order(s.drop_last());
        t.insert(
            order_pos(t, s.last().performance_hints.execution_order as int) as int,
            s.last(),
        )
    }
}

/// `order_pos` stays within the list.
proof fn lemma_order_pos(s: Seq<PluginMetadata>, k: int)
    ensures
        order_pos(s, k) <= s.len(),
    decreases s.len(),
{
    if s.len() > 0 && s[0].performance_hints.execution_order <= k {
        lemma_order_pos(s.drop_first(), k);
    }
}

/// Facts about `order_pos`: every plugin before it has an execution order of at most `k`,
/// the plugin at it (if any) a greater one.
proof fn lemma_order_pos_bounds(t: Seq<PluginMetadata>, k: int)
    ensures
        order_pos(t, k) <= t.len(),
        forall|q: int| 0 <= q < order_pos(t, k) ==> #[trigger] t[q].performance_hints.execution_order <= k,
        order_pos(t, k) < t.len() ==> t[order_pos(t, k) as int].performance_hints.execution_order > k,
    decreases t.len(),
{
    if t.len() > 0 && t[0].performance_hints.execution_order <= k {
        lemma_order_pos_bounds(t.drop_first(), k);
        assert forall|q: int| 0 <= q < order_pos(t, k) implies #[trigger] t[q].performance_hints.execution_order <= k by {
            if q > 0 {
                assert(t[q] == t.drop_first()[q - 1]);
            }
        }
        if order_pos(t, k) < t.len() {
            assert(t[order_pos(t, k) as int] == t.drop_first()[order_pos(t.drop_first(), k) as int]);
        }
    }
}

/// Ordering by execution order keeps the plugins, counted with repetition, and orders
/// them: no plugin has a greater execution order than one after it.
pub proof fn lemma_by_execution_order_sorted(s: Seq<PluginMetadata>)
    ensures
        by_execution_order(s).to_multiset() == s.to_multiset(),
        forall|i: int, j: int|
            0 <= i < j < by_execution_order(s).len() ==> #[trigger] by_execution_order(s)[i].performance_hints.execution_order
                <= #[trigger] by_execution_order(s)[j].performance_hints.execution_order,
    decreases s.len(),
{
    broadcast use vstd::seq_lib::to_multiset_insert, vstd::seq_lib::to_multiset_build;

    if s.len() > 0 {
        let t = by_execution_order(s.drop_last());
        let x = s.last();
        let k = x.performance_hints.execution_order as int;
        lemma_by_execution_order_sorted(s.drop_last());
        lemma_order_pos_bounds(t, k);
        let p = order_pos(t, k) as int;
        let u = t.insert(p, x);
        assert(s.drop_last().push(x) =~= s);
        assert(u.to_multiset() == t.to_multiset().insert(x));
        assert(s.drop_last().push(x).to_multiset() == s.drop_last().to_multiset().insert(x));
        assert forall|i: int, j: int| 0 <= i < j < u.len() implies #[trigger] u[i].performance_hints.execution_order
            <= #[trigger] u[j].performance_hints.execution_order by {
            if j < p {
                assert(u[i] == t[i] && u[j] == t[j]);
            } else if j == p {
                assert(u[i] == t[i]);
                assert(t[i].performance_hints.execution_order <= k);
            } else if i < p {
                assert(u[i] == t[i] && u[j] == t[j - 1]);
                assert(t[p].performance_hints.execution_order > k);
                assert(t[i].performance_hints.execution_order <= k);
                if j - 1 > p {
                    assert(t[p].performance_hints.execution_order <= t[j - 1].performance_hints.execution_order);
                }
            } else if i == p {
                assert(u[j] == t[j - 1]);
                assert(t[p].performance_hints.execution_order > k);
                if j - 1 > p {
                    assert(t[p].performance_hints.execution_order <= t[j - 1].performance_hints.execution_order);
                }
            } else {
                assert(u[i] == t[i - 1] && u[j] == t[j - 1]);
            }
        }
    }
}

/// Ordering keeps the number of plugins.
proof fn lemma_by_order_len(s: Seq<PluginMetadata>)
    ensures
        by_execution_order(s).len() == s.len(),
    decreases s.len(),
{
    if s.len() > 0 {
        lemma_by_order_len(s.drop_last());
        lemma_order_pos(
            by_execution_order(s.drop_last()),
            s.last().performance_hints.execution_order as int,
        );
    }
}

/// The required dependencies among `ds` that no registered plugin answers, in order.
pub open spec fn missing_deps(idx: RegistryIndex, ds: Seq<PluginDependency>) -> Seq<Seq<char>>
    decreases ds.len(),
{
    if ds.len() == 0 {
        seq![]
    } else {
        missing_deps(idx, ds.drop_last()) + if !ds.last().optional && idx.meta_of(
            ds.last().name@,
        ) is None {
            seq![ds.last().name@]
        } else {
            seq![]
        }
    }
}

/// Model of a list of references to plugins.
pub open spec fn metas(v: Seq<&PluginMetadata>) -> Seq<PluginMetadata> {
    v.map_values(|m: &PluginMetadata| *m)
}

/// The names of the required dependencies (computed).
fn required_dep_names(ds: &Vec<PluginDependency>) -> (r: Vec<String>)
    ensures
        strings_view(r@) == required_deps(ds@),
{
    let mut out: Vec<String> = Vec::new();
    let n = ds.len();
    let mut i: usize = 0;
    assert(ds@.take(0) =~= Seq::<PluginDependency>::empty());
    assert(strings_view(out@) =~= seq![]);
    while i < n
        invariant
            n == ds@.len(),
            0 <= i <= n,
            strings_view(out@) == required_deps(ds@.take(i as int)),
        decreases n - i,
    {
        assert(ds@.take(i + 1).drop_last() =~= ds@.take(i as int));
        let ghost before = strings_view(out@);
        if !ds[i].optional {
            out.push(ds[i].name.clone());
            assert(strings_view(out@) =~= before + seq![ds@[i as int].name@]);
        } else {
            assert(before =~= before + Seq::<Seq<char>>::empty());
        }
        i += 1;
    }
    assert(ds@.take(n as int) =~= ds@);
    out
}

impl RegistryIndex {
    /// An empty registry with the given settings.
    pub fn new(config: RegistryConfig) -> (r: Self)
        ensures
            r.plugins@.len() == 0,
            r.aliases@.len() == 0,
            r.stats@.len() == 0,
            r.config == config,
            r.well_formed(),
    {
        let r = RegistryIndex { plugins: Vec::new(), aliases: Attributes::new(), stats: Vec::new(), config };
        assert(plugin_names(r.plugins@) =~= Seq::<Seq<char>>::empty());
        r
    }

    /// The position of the plugin named `name` (no alias read), or the number of plugins.
    pub fn position_of(&self, name: &str) -> (p: usize)
        ensures
            p == plugin_pos(self.plugins@, name@),
    {
        let n = self.plugins.len();
        let mut i: usize = 0;
        assert(self.plugins@.skip(0) =~= self.plugins@);
        while i < n
            invariant
                n == self.plugins@.len(),
                0 <= i <= n,
                plugin_pos(self.plugins@, name@) == i + plugin_pos(self.plugins@.skip(i as int), name@),
            decreases n - i,
        {
            assert(self.plugins@.skip(i as int)[0] == self.plugins@[i as int]);
            if str_eq(self.plugins[i].name.as_str(), name) {
                return i;
            }
            assert(self.plugins@.skip(i as int).drop_first() =~= self.plugins@.skip(i + 1));
            i += 1;
        }
        i
    }

    /// The name an alias stands for, or the name itself.
    pub fn resolve_name(&self, name: &str) -> (r: String)
        ensures
            r@ == self.resolved(name@),
    {
        match self.aliases.get(name) {
            Some(t) => t.clone(),
            None => owned(name),
        }
    }

    /// The plugin a name (or alias) designates.
    pub fn get_metadata(&self, name: &str) -> (r: Option<&PluginMetadata>)
        ensures
            match r {
                Some(m) => self.meta_of(name@) == Some(*m),
                None => self.meta_of(name@) is None,
            },
    {
        let rn = self.resolve_name(name);
        let p = self.position_of(rn.as_str());
        if p < self.plugins.len() {
            Some(&self.plugins[p])
        } else {
            None
        }
    }

    /// Whether a name (or alias) designates a registered plugin.
    pub fn has_plugin(&self, name: &str) -> (r: bool)
        ensures
            r == self.meta_of(name@) is Some,
    {
        self.get_metadata(name).is_some()
    }

    /// Registers a plugin's metadata: refuses an experimental plugin unless those are
    /// accepted, and a name registered already; starts its statistics when they are
    /// collected.
    pub fn register(&mut self, metadata: PluginMetadata) -> (r: Result<(), RegistryError>)
        requires
            old(self).well_formed(),
        ensures
            final(self).well_formed(),
            final(self).config == old(self).config,
            final(self).aliases == old(self).aliases,
            metadata.experimental && !old(self).config.allow_experimental ==> (r matches Err(
                RegistryError::ExperimentalNotAllowed(n),
            ) && n@ == metadata.name@),
            !(metadata.experimental && !old(self).config.allow_experimental) && plugin_pos(
                old(self).plugins@,
                metadata.name@,
            ) < old(self).plugins@.len() ==> (r matches Err(RegistryError::AlreadyRegistered(n))
                && n@ == metadata.name@),
            r is Err ==> *final(self) == *old(self),
            r is Ok <==> !(metadata.experimental && !old(self).config.allow_experimental)
                && plugin_pos(old(self).plugins@, metadata.name@) == old(self).plugins@.len(),
            r is Ok ==> final(self).plugins@ == old(self).plugins@.push(metadata),
            r is Ok && !old(self).config.collect_stats ==> final(self).stats == old(self).stats,
            r is Ok && old(self).config.collect_stats ==> {
                &&& final(self).stats@.len() == old(self).stats@.len() + 1
                &&& final(self).stats@.drop_last() == old(self).stats@
                &&& final(self).stats@.last().0@ == metadata.name@
                &&& fresh_stats(final(self).stats@.last().1)
            },
    {
        if metadata.experimental && !self.config.allow_experimental {
            return Err(RegistryError::ExperimentalNotAllowed(metadata.name));
        }
        let p = self.position_of(metadata.name.as_str());
        if p < self.plugins.len() {
            return Err(RegistryError::AlreadyRegistered(metadata.name));
        }
        proof {
            lemma_plugin_pos(self.plugins@, metadata.name@);
        }
        let name = metadata.name.clone();
        let ghost before = self.plugins@;
        self.plugins.push(metadata);
        assert(plugin_names(self.plugins@) =~= plugin_names(before).push(metadata.name@));
        assert(plugin_names(self.plugins@).no_duplicates()) by {
            let ns = plugin_names(self.plugins@);
            assert forall|i: int, j: int| 0 <= i < j < ns.len() implies ns[i] != ns[j] by {
                if j == ns.len() - 1 {
                    assert(ns[i] == before[i].name@);
                    assert(before[i].name@ != metadata.name@);
                } else {
                    assert(ns[i] == plugin_names(before)[i] && ns[j] == plugin_names(before)[j]);
                }
            }
        }
        if self.config.collect_stats {
            let ghost before_stats = self.stats@;
            self.stats.push((name, PluginStats::default()));
            assert(self.stats@.drop_last() =~= before_stats);
        }
        Ok(())
    }

    /// Registers an alias for a registered plugin (named exactly, no alias read).
    pub fn register_alias(&mut self, alias: &str, plugin_name: &str) -> (r: Result<(), RegistryError>)
        ensures
            r is Ok <==> plugin_pos(old(self).plugins@, plugin_name@) < old(self).plugins@.len(),
            r matches Err(RegistryError::NotFound(n)) ==> n@ == plugin_name@,
            r is Err ==> (r matches Err(RegistryError::NotFound(_)) && *final(self) == *old(self)),
            r is Ok ==> final(self).aliases@ == attr_set(old(self).aliases@, alias@, plugin_name@)
                && final(self).plugins == old(self).plugins && final(self).stats == old(self).stats
                && final(self).config == old(self).config,
    {
        if self.position_of(plugin_name) >= self.plugins.len() {
            return Err(RegistryError::NotFound(owned(plugin_name)));
        }
        self.aliases.insert(owned(alias), owned(plugin_name));
        Ok(())
    }

    /// The registered plugins, in the order they were registered.
    pub fn list_plugins(&self) -> (r: Vec<&PluginMetadata>)
        ensures
            metas(r@) == self.plugins@,
    {
        let mut out: Vec<&PluginMetadata> = Vec::new();
        let n = self.plugins.len();
        let mut i: usize = 0;
        while i < n
            invariant
                n == self.plugins@.len(),
                0 <= i <= n,
                metas(out@) == self.plugins@.take(i as int),
            decreases n - i,
        {
            let item = &self.plugins[i];
            assert(*item == self.plugins@[i as int]);
            let ghost before = out@;
            out.push(item);
            assert(metas(out@) =~= metas(before).push(*item));
            assert(self.plugins@.take(i + 1) =~= self.plugins@.take(i as int).push(self.plugins@[i as int]));
            i += 1;
        }
        assert(self.plugins@.take(n as int) =~= self.plugins@);
        out
    }

    /// The registered plugins that carry a tag, in order.
    pub fn list_plugins_by_tag(&self, tag: &str) -> (r: Vec<&PluginMetadata>)
        ensures
            metas(r@) == with_tag(self.plugins@, tag@),
    {
        let mut out: Vec<&PluginMetadata> = Vec::new();
        let n = self.plugins.len();
        let mut i: usize = 0;
        assert(self.plugins@.take(0) =~= Seq::<PluginMetadata>::empty());
        assert(metas(out@) =~= seq![]);
        while i < n
            invariant
                n == self.plugins@.len(),
                0 <= i <= n,
                metas(out@) == with_tag(self.plugins@.take(i as int), tag@),
            decreases n - i,
        {
            assert(self.plugins@.take(i + 1).drop_last() =~= self.plugins@.take(i as int));
            let ghost before = metas(out@);
            if crate::text::strings_have(&self.plugins[i].tags, &chars_of(tag)) {
                out.push(&self.plugins[i]);
                assert(metas(out@) =~= before + seq![self.plugins@[i as int]]);
            } else {
                assert(before =~= before + Seq::<PluginMetadata>::empty());
            }
            i += 1;
        }
        assert(self.plugins@.take(n as int) =~= self.plugins@);
        out
    }

    /// The registered plugins ordered by their preferred execution order, plugins of
    /// equal order keeping their registration order.
    pub fn get_ordered_plugins(&self) -> (r: Vec<&PluginMetadata>)
        ensures
            metas(r@) == by_execution_order(self.plugins@),
    {
        let ghost orig = self.plugins@;
        let mut out: Vec<&PluginMetadata> = Vec::new();
        let n = self.plugins.len();
        let mut i: usize = 0;
        assert(orig.take(0) =~= Seq::<PluginMetadata>::empty());
        assert(metas(out@) =~= by_execution_order(orig.take(0)));
        while i < n
            invariant
                n == orig.len(),
                orig == self.plugins@,
                0 <= i <= n,
                metas(out@) == by_execution_order(orig.take(i as int)),
                out@.len() == i,
            decreases n - i,
        {
            let item = &self.plugins[i];
            let k = item.performance_hints.execution_order;
            let ghost cur = metas(out@);
            let mut p: usize = 0;
            assert(cur.skip(0) =~= cur);
            while p < out.len() && out[p].performance_hints.execution_order <= k
                invariant
                    cur == metas(out@),
                    0 <= p <= out@.len(),
                    order_pos(cur, k as int) == p + order_pos(cur.skip(p as int), k as int),
                decreases out@.len() - p,
            {
                assert(cur.skip(p as int).drop_first() =~= cur.skip(p + 1));
                assert(cur.skip(p as int)[0] == cur[p as int]);
                p += 1;
            }
            proof {
                if p < out@.len() {
                    assert(cur.skip(p as int)[0] == cur[p as int]);
                } else {
                    assert(cur.skip(p as int) =~= Seq::<PluginMetadata>::empty());
                }
                assert(orig.take(i + 1).drop_last() =~= orig.take(i as int));
                assert(orig.take(i + 1).last() == orig[i as int]);
                lemma_by_order_len(orig.take(i as int));
            }
            let ghost before = out@;
            out.insert(p, item);
            assert(metas(out@) =~= metas(before).insert(p as int, *item));
            i += 1;
        }
        assert(orig.take(n as int) =~= orig);
        out
    }

    /// The required dependencies of a plugin that are not registered: an error naming
    /// them when there are some, an error when the plugin itself is not registered.
    pub fn check_dependencies(&self, plugin_name: &str) -> (r: Result<Vec<String>, RegistryError>)
        ensures
            self.meta_of(plugin_name@) is None ==> (r matches Err(RegistryError::NotFound(n))
                && n@ == plugin_name@),
            self.meta_of(plugin_name@) matches Some(m) ==> {
                let missing = missing_deps(*self, m.dependencies@);
                &&& (missing.len() == 0 ==> (r matches Ok(v) && v@.len() == 0))
                &&& (missing.len() > 0 ==> (r matches Err(RegistryError::MissingDependencies(v))
                    && strings_view(v@) == missing))
            },
    {
        let meta = match self.get_metadata(plugin_name) {
            Some(m) => m,
            None => {
                return Err(RegistryError::NotFound(owned(plugin_name)));
            },
        };
        let ghost ds = meta.dependencies@;
        let mut missing: Vec<String> = Vec::new();
        let n = meta.dependencies.len();
        let mut i: usize = 0;
        assert(ds.take(0) =~= Seq::<PluginDependency>::empty());
        assert(strings_view(missing@) =~= seq![]);
        while i < n
            invariant
                n == ds.len(),
                ds == meta.dependencies@,
                0 <= i <= n,
                strings_view(missing@) == missing_deps(*self, ds.take(i as int)),
            decreases n - i,
        {
            assert(ds.take(i + 1).drop_last() =~= ds.take(i as int));
            let ghost before = strings_view(missing@);
            let d = &meta.dependencies[i];
            if !d.optional && !self.has_plugin(d.name.as_str()) {
                missing.push(d.name.clone());
                assert(strings_view(missing@) =~= before + seq![ds[i as int].name@]);
            } else {
                assert(before =~= before + Seq::<Seq<char>>::empty());
            }
            i += 1;
        }
        assert(ds.take(n as int) =~= ds);
        if missing.len() == 0 {
            Ok(missing)
        } else {
            Err(RegistryError::MissingDependencies(missing))
        }
    }

    /// The required dependencies of the plugin a name designates (computed).
    fn deps_list(&self, name: &str) -> (r: Vec<String>)
        ensures
            strings_view(r@) == self.deps_of(name@),
    {
        match self.get_metadata(name) {
            Some(m) => required_dep_names(&m.dependencies),
            None => {
                let v: Vec<String> = Vec::new();
                assert(strings_view(v@) =~= seq![]);
                v
            },
        }
    }

    /// Visits a name and its required dependencies, depth first.
    fn visit_exec(
        &self,
        name: &String,
        ordered: &mut Vec<String>,
        path: &mut Vec<String>,
        Ghost(fuel): Ghost<nat>,
    ) -> (r: Result<(), String>)
        requires
            path_ok(*self, strings_view(old(path)@), fuel),
            old(path)@.len() > 0 ==> all_deps(self.plugins@).contains(name@),
        ensures
            match self.visit(name@, strings_view(old(ordered)@), strings_view(old(path)@), fuel) {
                Ok(o) => r is Ok && strings_view(final(ordered)@) == o && strings_view(
                    final(path)@,
                ) == strings_view(old(path)@),
                Err(e) => r matches Err(x) && x@ == e,
            },
        decreases fuel,
    {
        let nv = chars_of(name.as_str());
        if crate::text::strings_have(ordered, &nv) {
            return Ok(());
        }
        if crate::text::strings_have(path, &nv) {
            return Err(name.clone());
        }
        proof {
            lemma_fuel_left(*self, name@, strings_view(path@), fuel);
        }
        let ghost p0 = strings_view(path@);
        let ghost o0 = strings_view(ordered@);
        path.push(name.clone());
        assert(strings_view(path@) =~= p0.push(name@));
        let deps = self.deps_list(name.as_str());
        let ghost dm = strings_view(deps@);
        let ghost np = strings_view(path@);
        let ghost f1 = (fuel - 1) as nat;
        let n = deps.len();
        let mut i: usize = 0;
        assert(dm.take(0) =~= Seq::<Seq<char>>::empty());
        while i < n
            invariant
                n == deps@.len(),
                dm == strings_view(deps@),
                dm == self.deps_of(name@),
                np == p0.push(name@),
                o0 == strings_view(old(ordered)@),
                p0 == strings_view(old(path)@),
                !o0.contains(name@),
                !p0.contains(name@),
                fuel > 0,
                f1 == fuel - 1,
                path_ok(*self, np, f1),
                strings_view(path@) == np,
                0 <= i <= n,
                self.visit_all(dm.take(i as int), o0, np, f1) == Ok::<Seq<Seq<char>>, Seq<char>>(
                    strings_view(ordered@),
                ),
            decreases n - i,
        {
            assert(dm.take(i + 1).drop_last() =~= dm.take(i as int));
            assert(dm.take(i + 1).last() == dm[i as int]);
            assert(strings_view(deps@)[i as int] == deps@[i as int]@);
            proof {
                lemma_deps_of_in_all(*self, name@, dm[i as int]);
            }
            match self.visit_exec(&deps[i], ordered, path, Ghost(f1)) {
                Ok(()) => {},
                Err(e) => {
                    proof {
                        self.lemma_visit_all_err_extends(dm, i as nat, o0, np, f1);
                    }
                    return Err(e);
                },
            }
            i += 1;
        }
        assert(dm.take(n as int) =~= dm);
        let ghost full = path@;
        path.pop();
        assert(np.drop_last() =~= p0);
        assert(strings_view(path@) =~= strings_view(full).drop_last());
        let ghost before = strings_view(ordered@);
        ordered.push(name.clone());
        assert(strings_view(ordered@) =~= before.push(name@));
        Ok(())
    }

    /// An error met by the visit of the first `i + 1` names stays the error of the
    /// visit of all of them.
    proof fn lemma_visit_all_err_extends(
        &self,
        names: Seq<Seq<char>>,
        i: nat,
        ordered: Seq<Seq<char>>,
        path: Seq<Seq<char>>,
        fuel: nat,
    )
        requires
            i < names.len(),
            self.visit_all(names.take(i as int + 1), ordered, path, fuel) is Err,
        ensures
            self.visit_all(names, ordered, path, fuel) == self.visit_all(
                names.take(i as int + 1),
                ordered,
                path,
                fuel,
            ),
        decreases names.len() - i,
    {
        if i + 1 == names.len() {
            assert(names.take(i as int + 1) =~= names);
        } else {
            assert(names.take(i as int + 2).drop_last() =~= names.take(i as int + 1));
            self.lemma_visit_all_err_extends(names, (i + 1) as nat, ordered, path, fuel);
        }
    }

    /// The order in which the named plugins and their required dependencies run, each
    /// after its required dependencies; an error names a plugin met again on a chain of
    /// dependencies.
    pub fn resolve_execution_order(&self, plugin_names: &Vec<String>) -> (r: Result<
        Vec<String>,
        RegistryError,
    >)
        ensures
            match self.execution_order(strings_view(plugin_names@)) {
                Ok(o) => r matches Ok(v) && strings_view(v@) == o,
                Err(e) => r matches Err(RegistryError::CircularDependency(n)) && n@ == e,
            },
    {
        let ghost names = strings_view(plugin_names@);
        let ghost fuel = (all_deps(self.plugins@).len() + 1) as nat;
        let mut ordered: Vec<String> = Vec::new();
        let mut path: Vec<String> = Vec::new();
        assert(strings_view(path@) =~= Seq::<Seq<char>>::empty());
        assert(strings_view(ordered@) =~= Seq::<Seq<char>>::empty());
        let n = plugin_names.len();
        let mut i: usize = 0;
        assert(names.take(0) =~= Seq::<Seq<char>>::empty());
        while i < n
            invariant
                n == plugin_names@.len(),
                names == strings_view(plugin_names@),
                strings_view(path@) == Seq::<Seq<char>>::empty(),
                path_ok(*self, Seq::<Seq<char>>::empty(), fuel),
                0 <= i <= n,
                self.visit_all(names.take(i as int), seq![], seq![], fuel) == Ok::<
                    Seq<Seq<char>>,
                    Seq<char>,
                >(strings_view(ordered@)),
            decreases n - i,
        {
            assert(names.take(i + 1).drop_last() =~= names.take(i as int));
            assert(names.take(i + 1).last() == names[i as int]);
            match self.visit_exec(&plugin_names[i], &mut ordered, &mut path, Ghost(fuel)) {
                Ok(()) => {},
                Err(e) => {
                    proof {
                        self.lemma_visit_all_err_extends(names, i as nat, seq![], seq![], fuel);
                    }
                    return Err(RegistryError::CircularDependency(e));
                },
            }
            i += 1;
        }
        assert(names.take(n as int) =~= names);
        Ok(ordered)
    }

    /// The position of the first statistics entry of a name, or the number of entries.
    fn stats_index(&self, name: &str) -> (k: usize)
        ensures
            k == stats_pos(self.stats@, name@),
    {
        let n = self.stats.len();
        let mut i: usize = 0;
        assert(self.stats@.skip(0) =~= self.stats@);
        while i < n
            invariant
                n == self.stats@.len(),
                0 <= i <= n,
                stats_pos(self.stats@, name@) == i + stats_pos(self.stats@.skip(i as int), name@),
            decreases n - i,
        {
            assert(self.stats@.skip(i as int)[0] == self.stats@[i as int]);
            if str_eq(self.stats[i].0.as_str(), name) {
                return i;
            }
            assert(self.stats@.skip(i as int).drop_first() =~= self.stats@.skip(i + 1));
            i += 1;
        }
        i
    }

    /// Counts one creation of the plugin a name (or alias) designates, which took `duration`
    /// nanoseconds and succeeded or not: refuses a name that designates no plugin, and
    /// updates that plugin's statistics when statistics are collected.
    pub fn record_creation(&mut self, name: &str, duration: u128, success: bool) -> (r: Result<
        (),
        RegistryError,
    >)
        requires
            old(self).config.collect_stats ==> match stats_of(
                old(self).stats@,
                old(self).resolved(name@),
            ) {
                Some(st) => can_record(st, duration, success),
                None => true,
            },
        ensures
            r is Ok <==> old(self).meta_of(name@) is Some,
            r matches Err(e) ==> (e matches RegistryError::NotFound(n) && n@ == name@),
            r is Err ==> *final(self) == *old(self),
            final(self).plugins == old(self).plugins,
            final(self).aliases == old(self).aliases,
            final(self).config == old(self).config,
            r is Ok && old(self).config.collect_stats ==> match stats_of(
                old(self).stats@,
                old(self).resolved(name@),
            ) {
                Some(st) => {
                    let k = stats_pos(old(self).stats@, old(self).resolved(name@)) as int;
                    &&& final(self).stats@.len() == old(self).stats@.len()
                    &&& final(self).stats@[k].0 == old(self).stats@[k].0
                    &&& recorded(st, final(self).stats@[k].1, duration, success)
                    &&& forall|j: int|
                        0 <= j < old(self).stats@.len() && j != k ==> final(self).stats@[j]
                            == old(self).stats@[j]
                },
                None => final(self).stats == old(self).stats,
            },
            !(r is Ok && old(self).config.collect_stats) ==> final(self).stats == old(self).stats,
    {
        let rn = self.resolve_name(name);
        if self.position_of(rn.as_str()) >= self.plugins.len() {
            return Err(RegistryError::NotFound(owned(name)));
        }
        if !self.config.collect_stats {
            return Ok(());
        }
        let k = self.stats_index(rn.as_str());
        proof {
            lemma_stats_pos(self.stats@, rn@);
        }
        if k < self.stats.len() {
            let ghost before = self.stats@;
            let mut entry = self.stats.remove(k);
            entry.1.record_execution(duration, success);
            self.stats.insert(k, entry);
            assert forall|j: int| 0 <= j < before.len() && j != k implies self.stats@[j]
                == before[j] by {
                if j < k {
                    assert(self.stats@[j] == before.remove(k as int)[j]);
                } else {
                    assert(self.stats@[j] == before.remove(k as int)[j - 1]);
                }
            }
        }
        Ok(())
    }

    /// Every statistics entry, in the order the plugins were registered, or none when
    /// statistics are not collected.
    pub fn get_all_stats(&self) -> (r: Vec<&(String, PluginStats)>)
        ensures
            !self.config.collect_stats ==> r@.len() == 0,
            self.config.collect_stats ==> r@.len() == self.stats@.len() && forall|i: int|
                0 <= i < r@.len() ==> *r@[i] == self.stats@[i],
    {
        let mut out: Vec<&(String, PluginStats)> = Vec::new();
        if !self.config.collect_stats {
            return out;
        }
        let n = self.stats.len();
        let mut i: usize = 0;
        while i < n
            invariant
                n == self.stats@.len(),
                0 <= i <= n,
                out@.len() == i,
                forall|j: int| 0 <= j < i ==> *out@[j] == self.stats@[j],
            decreases n - i,
        {
            out.push(&self.stats[i]);
            i += 1;
        }
        out
    }

    /// The statistics of the plugin a name designates, when statistics are collected.
    pub fn get_stats(&self, name: &str) -> (r: Option<&PluginStats>)
        ensures
            !self.config.collect_stats ==> r is None,
            self.config.collect_stats ==> match r {
                Some(s) => stats_of(self.stats@, self.resolved(name@)) == Some(*s),
                None => stats_of(self.stats@, self.resolved(name@)) is None,
            },
    {
        if !self.config.collect_stats {
            return None;
        }
        let rn = self.resolve_name(name);
        let n = self.stats.len();
        let mut i: usize = 0;
        assert(self.stats@.skip(0) =~= self.stats@);
        while i < n
            invariant
                n == self.stats@.len(),
                0 <= i <= n,
                self.config.collect_stats,
                rn@ == self.resolved(name@),
                stats_of(self.stats@, rn@) == stats_of(self.stats@.skip(i as int), rn@),
            decreases n - i,
        {
            assert(self.stats@.skip(i as int)[0] == self.stats@[i as int]);
            if str_eq(self.stats[i].0.as_str(), rn.as_str()) {
                return Some(&self.stats[i].1);
            }
            assert(self.stats@.skip(i as int).drop_first() =~= self.stats@.skip(i + 1));
            i += 1;
        }
        None
    }
}

} // verus!
