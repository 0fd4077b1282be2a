//! The configuration, when it is accepted, and how a running balancer gets a new one.

use arc_swap::{ArcSwap, Guard};
use std::sync::Arc;
use vstd::prelude::*;
use vstd::string::StringExecFns;

verus! {

/// How often a watcher that polls looks at the configuration file, in seconds.
pub const POLL_INTERVAL_SECS: u64 = 2;

/// How long a modified configuration file is left to settle before it is read, in milliseconds.
pub const SETTLE_MILLIS: u64 = 150;

/// A backend as the configuration names it.
#[derive(Debug, Clone)]
pub struct BackendConfig {
    pub address: String,
    pub weight: usize,
}

/// What the balancer does besides forwarding.
#[derive(Debug, Clone)]
pub struct FeatureFlags {
    pub enable_caching: bool,
    pub enable_rate_limiting: bool,
    pub rate_limit_per_second: u32,
}

/// The configuration of the balancer.
#[derive(Debug, Clone)]
pub struct Config {
    pub server_port: u16,
    pub timeout_ms: u64,
    pub max_connections: usize,
    pub feature_flags: FeatureFlags,
    pub backends: Vec<BackendConfig>,
}

/// The first thing that is wrong with `config`, if anything is.
pub open spec fn problem(config: Config) -> Option<Seq<char>> {
    if config.server_port == 0 {
        Some("server_port must be non-zero"@)
    } else if config.timeout_ms == 0 {
        Some("timeout_ms must be non-zero"@)
    } else if config.max_connections == 0 {
        Some("max_connections must be non-zero"@)
    } else if config.feature_flags.enable_rate_limiting && config.feature_flags.rate_limit_per_second == 0 {
        Some("rate_limit_per_second must be set when enable_rate_limiting is enabled"@)
    } else {
        None
    }
}

impl Default for FeatureFlags {
    /// Neither caching nor rate limiting, with a limit at hand for when the latter is enabled.
    fn default() -> (res: FeatureFlags)
        ensures
            !res.enable_caching,
            !res.enable_rate_limiting,
            res.rate_limit_per_second == 100,
    {
        FeatureFlags { enable_caching: false, enable_rate_limiting: false, rate_limit_per_second: 100 }
    }
}

impl Default for Config {
    /// The values of keys that a configuration file leaves out.
    fn default() -> (res: Config)
        ensures
            res.server_port == 8080,
            res.timeout_ms == 8000,
            res.max_connections == 1000,
            !res.feature_flags.enable_caching,
            !res.feature_flags.enable_rate_limiting,
            res.feature_flags.rate_limit_per_second == 100,
            res.backends@.len() == 0,
            problem(res) is None,
    {
        Config {
            server_port: 8080,
            timeout_ms: 8000,
            max_connections: 1000,
            feature_flags: FeatureFlags::default(),
            backends: Vec::new(),
        }
    }
}

impl Config {
    /// Accepts the configuration, or says what is wrong with it first.
    pub fn validate(&self) -> (res: Result<(), String>)
        ensures
            match problem(*self) {
                None => res is Ok,
                Some(p) => res matches Err(e) && e@ == p,
            },
    {
        if self.server_port == 0 {
            return Err("server_port must be non-zero".to_owned());
        }
        if self.timeout_ms == 0 {
            return Err("timeout_ms must be non-zero".to_owned());
        }
        if self.max_connections == 0 {
            return Err("max_connections must be non-zero".to_owned());
        }
        if self.feature_flags.enable_rate_limiting && self.feature_flags.rate_limit_per_second == 0 {
            return Err(
                "rate_limit_per_second must be set when enable_rate_limiting is enabled".to_owned(),
            );
        }
        Ok(())
    }
}

/// A place for the configuration in force, out of which readers get snapshots that outlive its
/// replacement.
#[verifier::external_body]
pub struct ConfigCell {
    held: ArcSwap<Config>,
}

/// The configuration that `cell` holds. It is replaced only through a unique reference to the cell.
pub uninterp spec fn held_config(cell: ConfigCell) -> Config;

/// Calls `arc_swap::ArcSwapAny::from_pointee`. It claims that the new cell holds what it was given.
#[verifier::external_body]
fn cell_with(config: Config) -> (cell: ConfigCell)
    ensures
        held_config(cell) == config,
{
    ConfigCell { held: ArcSwap::from_pointee(config) }
}

/// Calls `arc_swap::ArcSwapAny::load`. It claims that the snapshot is what the cell holds.
#[verifier::external_body]
fn cell_load(cell: &ConfigCell) -> (res: Arc<Config>)
    ensures
        *res == held_config(*cell),
{
    Guard::into_inner(cell.held.load())
}

/// Calls `arc_swap::ArcSwapAny::store`. It claims that the cell then holds what it was given.
#[verifier::external_body]
fn cell_store(cell: &mut ConfigCell, config: Config)
    ensures
        held_config(*final(cell)) == config,
{
    cell.held.store(Arc::new(config))
}

/// The configuration in force once a file was read: one that is in order replaces `current`, and
/// one that could not be read or is not in order changes nothing.
pub open spec fn accepted(current: Config, read: Option<Config>) -> Config {
    match read {
        Some(config) => if problem(config) is None {
            config
        } else {
            current
        },
        None => current,
    }
}

/// The configuration in force once files were read one after the other.
pub open spec fn accepted_all(current: Config, reads: Seq<Option<Config>>) -> Config
    decreases reads.len(),
{
    if reads.len() == 0 {
        current
    } else {
        accepted(accepted_all(current, reads.drop_last()), reads.last())
    }
}

/// Keeps the configuration in force, and where it comes from.
pub struct ConfigManager {
    config: ConfigCell,
    path: String,
}

impl ConfigManager {
    /// The configuration in force.
    pub closed spec fn current(self) -> Config {
        held_config(self.config)
    }

    /// Where the configuration comes from.
    pub closed spec fn source(self) -> Seq<char> {
        self.path@
    }

    /// Starts with what was read from `path`. A balancer does not start with a configuration that
    /// could not be read or is not in order.
    pub fn new(path: &str, read: Result<Config, String>) -> (res: Result<ConfigManager, String>)
        ensures
            match read {
                Err(e) => res matches Err(m) && m@ == e@,
                Ok(config) => match problem(config) {
                    Some(p) => res matches Err(m) && m@ == "Valid startup configuration: "@ + p,
                    None => res matches Ok(manager) && manager.current() == config && manager.source()
                        == path@,
                },
            },
    {
        let config: Config = match read {
            Ok(config) => config,
            Err(e) => {
                return Err(e);
            },
        };
        match config.validate() {
            Err(e) => Err("Valid startup configuration: ".to_owned().concat(e.as_str())),
            Ok(()) => Ok(ConfigManager { config: cell_with(config), path: path.to_owned() }),
        }
    }

    /// Puts what was read in force if it is in order, and else keeps what is in force.
    pub fn reload_with_validation(&mut self, read: Result<Config, String>) -> (res: Result<(), String>)
        ensures
            final(self).source() == old(self).source(),
            final(self).current() == accepted(old(self).current(), read.ok()),
            match read {
                Err(e) => res matches Err(m) && m@ == e@,
                Ok(config) => match problem(config) {
                    Some(p) => res matches Err(m) && m@ == p,
                    None => res is Ok,
                },
            },
    {
        let config: Config = match read {
            Ok(config) => config,
            Err(e) => {
                return Err(e);
            },
        };
        match config.validate() {
            Err(e) => Err(e),
            Ok(()) => {
                cell_store(&mut self.config, config);
                Ok(())
            },
        }
    }

    /// A snapshot of the configuration in force.
    pub fn get(&self) -> (res: Arc<Config>)
        ensures
            *res == self.current(),
    {
        cell_load(&self.config)
    }

    /// Puts what was read in force, whatever it says.
    pub fn reload(&mut self, read: Result<Config, String>) -> (res: Result<(), String>)
        ensures
            final(self).source() == old(self).source(),
            match read {
                Err(e) => res matches Err(m) && m@ == e@ && final(self).current() == old(self).current(),
                Ok(config) => res is Ok && final(self).current() == config,
            },
    {
        match read {
            Err(e) => Err(e),
            Ok(config) => {
                cell_store(&mut self.config, config);
                Ok(())
            },
        }
    }

    /// The path of the configuration file.
    pub fn path(&self) -> (res: &str)
        ensures
            res@ == self.source(),
    {
        self.path.as_str()
    }
}

/// What a watcher reports of the configuration file.
#[derive(Debug, Clone, Copy, PartialEq, Eq, Structural)]
pub enum FileChange {
    Any,
    Access,
    Create,
    Modify,
    Remove,
    Other,
}

/// What to do about a report of the watcher.
#[derive(Debug, Clone, Copy, PartialEq, Eq, Structural)]
pub enum WatchAction {
    /// Wait for the next report.
    Ignore,
    /// Wait, then read the file and reload with validation.
    ReloadAfter { millis: u64 },
}

/// A configuration file is read again when it was modified, and only then.
pub fn on_file_change(change: FileChange) -> (res: WatchAction)
    ensures
        res == if change == FileChange::Modify {
            WatchAction::ReloadAfter { millis: SETTLE_MILLIS }
        } else {
            WatchAction::Ignore
        },
{
    match change {
        FileChange::Modify => WatchAction::ReloadAfter { millis: SETTLE_MILLIS },
        _ => WatchAction::Ignore,
    }
}

/// A balancer that started with a configuration in order never has another in force, whatever files
/// it reads with validation.
pub proof fn law_config_in_force_is_in_order(current: Config, reads: Seq<Option<Config>>)
    requires
        problem(current) is None,
    ensures
        problem(accepted_all(current, reads)) is None,
    decreases reads.len(),
{
    if reads.len() > 0 {
        law_config_in_force_is_in_order(current, reads.drop_last());
    }
}

/// Files that cannot be read or are not in order change nothing, however many there are.
pub proof fn law_bad_files_change_nothing(current: Config, reads: Seq<Option<Config>>)
    requires
        forall|i: int|
            0 <= i < reads.len() ==> ((#[trigger] reads[i]) matches Some(c) ==> problem(c) is Some),
    ensures
        accepted_all(current, reads) == current,
    decreases reads.len(),
{
    if reads.len() > 0 {
        assert(reads.last() == reads[reads.len() - 1]);
        assert forall|i: int| 0 <= i < reads.drop_last().len() implies ((
        #[trigger] reads.drop_last()[i]) matches Some(c) ==> problem(c) is Some) by {
            assert(reads.drop_last()[i] == reads[i]);
        }
        law_bad_files_change_nothing(current, reads.drop_last());
    }
}

/// The last file in order is in force, whatever was read before it and whatever bad files came
/// after.
pub proof fn law_last_good_file_is_in_force(
    current: Config,
    earlier: Seq<Option<Config>>,
    good: Config,
    later: Seq<Option<Config>>,
)
    requires
        problem(good) is None,
        forall|i: int|
            0 <= i < later.len() ==> ((#[trigger] later[i]) matches Some(c) ==> problem(c) is Some),
    ensures
        accepted_all(current, earlier.push(Some(good)) + later) == good,
    decreases later.len(),
{
    let reads = earlier.push(Some(good)) + later;
    if later.len() == 0 {
        assert(reads.last() == Some(good));
    } else {
        assert(reads.drop_last() == earlier.push(Some(good)) + later.drop_last());
        assert(reads.last() == later[later.len() - 1]);
        assert forall|i: int| 0 <= i < later.drop_last().len() implies ((
        #[trigger] later.drop_last()[i]) matches Some(c) ==> problem(c) is Some) by {
            assert(later.drop_last()[i] == later[i]);
        }
        law_last_good_file_is_in_force(current, earlier, good, later.drop_last());
    }
}

/// A configuration is accepted if and only if the port, the timeout and the maximum of connections are
/// not zero, and neither is the limit if there is one to keep.
pub proof fn law_config_is_accepted_by_its_numbers(config: Config)
    ensures
        problem(config) is None <==> {
            &&& config.server_port != 0
            &&& config.timeout_ms != 0
            &&& config.max_connections != 0
            &&& config.feature_flags.enable_rate_limiting ==> config.feature_flags.rate_limit_per_second != 0
        },
{
}

/// Each problem is named if and only if it is there and none comes before it.
pub proof fn law_named_problem_is_the_first(config: Config)
    ensures
        problem(config) == Some("server_port must be non-zero"@) <==> config.server_port == 0,
        problem(config) == Some("timeout_ms must be non-zero"@) <==> config.server_port != 0
            && config.timeout_ms == 0,
        problem(config) == Some("max_connections must be non-zero"@) <==> config.server_port != 0
            && config.timeout_ms != 0 && config.max_connections == 0,
        problem(config) == Some("rate_limit_per_second must be set when enable_rate_limiting is enabled"@)
            <==> config.server_port != 0 && config.timeout_ms != 0 && config.max_connections != 0
            && config.feature_flags.enable_rate_limiting && config.feature_flags.rate_limit_per_second == 0,
{
    reveal_strlit("server_port must be non-zero");
    reveal_strlit("timeout_ms must be non-zero");
    reveal_strlit("max_connections must be non-zero");
    reveal_strlit("rate_limit_per_second must be set when enable_rate_limiting is enabled");
    assert("server_port must be non-zero"@.len() == 28);
    assert("timeout_ms must be non-zero"@.len() == 27);
    assert("max_connections must be non-zero"@.len() == 32);
    assert("rate_limit_per_second must be set when enable_rate_limiting is enabled"@.len() == 70);
}

/// Neither caching, nor the backends, nor a limit that is not kept, nor by how much a number is above
/// zero makes a problem.
pub proof fn law_other_settings_are_no_problem(a: Config, b: Config)
    requires
        a.server_port == 0 <==> b.server_port == 0,
        a.timeout_ms == 0 <==> b.timeout_ms == 0,
        a.max_connections == 0 <==> b.max_connections == 0,
        a.feature_flags.enable_rate_limiting == b.feature_flags.enable_rate_limiting,
        a.feature_flags.enable_rate_limiting ==> (a.feature_flags.rate_limit_per_second == 0
            <==> b.feature_flags.rate_limit_per_second == 0),
    ensures
        problem(a) == problem(b),
{
}

/// What is in force after a file was read is what was in force or what was read, and it is the latter
/// if and only if the numbers that were read are in order.
pub proof fn law_file_is_taken_whole_or_not(current: Config, read: Config)
    ensures
        accepted(current, None) == current,
        read.server_port != 0 && read.timeout_ms != 0 && read.max_connections != 0 && (
        !read.feature_flags.enable_rate_limiting || read.feature_flags.rate_limit_per_second != 0) ==> accepted(
            current,
            Some(read),
        ) == read,
        read.server_port == 0 || read.timeout_ms == 0 || read.max_connections == 0 || (
        read.feature_flags.enable_rate_limiting && read.feature_flags.rate_limit_per_second == 0) ==> accepted(
            current,
            Some(read),
        ) == current,
{
}

/// A polling watcher looks every two seconds, and a modified file settles for 150 milliseconds.
pub proof fn law_watcher_keeps_time()
    ensures
        POLL_INTERVAL_SECS == 2,
        SETTLE_MILLIS == 150,
{
}

} // verus!
