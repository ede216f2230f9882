//! How a ledger is configured.

use es_entity::clock::ClockHandle;
use job::JobPollerConfig;
use vstd::prelude::*;

verus! {

/// A handle to a clock.
#[verifier::external_type_specification]
#[verifier::external_body]
pub struct ExClockHandle(es_entity::clock::ClockHandle);

/// Tuning of a job poller.
#[verifier::external_type_specification]
#[verifier::external_body]
pub struct ExJobPollerConfig(job::JobPollerConfig);

/// The handle of the global clock, `es_entity::clock::Clock::handle`. Nothing
/// is claimed of it: which clock that is depends on what the process has
/// installed.
#[verifier::external_body]
fn global_clock() -> (clock: ClockHandle) {
    es_entity::clock::Clock::handle().clone()
}

/// `<JobPollerConfig as Default>::default`. Nothing is claimed of it: the
/// tuning is handed on unread.
#[verifier::external_body]
fn default_poller_config() -> (config: JobPollerConfig) {
    JobPollerConfig::default()
}

/// `<ClockHandle as Clone>::clone`. Claimed of it: the clone is a handle to the
/// same clock.
#[verifier::external_body]
fn clone_clock(clock: &ClockHandle) -> (clone: ClockHandle)
    ensures
        clone == *clock,
{
    clock.clone()
}

/// `<JobPollerConfig as Clone>::clone`. Claimed of it: the clone is the same
/// tuning.
#[verifier::external_body]
fn clone_poller_config(config: &JobPollerConfig) -> (clone: JobPollerConfig)
    ensures
        clone == *config,
{
    config.clone()
}

/// How a ledger is reached, and what it hosts. `P` is a pool of connections.
#[derive(Debug)]
pub struct CalaLedgerConfig<P> {
    pub pg_con: Option<String>,
    pub max_connections: Option<u32>,
    pub exec_migrations: bool,
    pub pool: Option<P>,
    pub clock: ClockHandle,
    /// Have the ledger host the streaming balance projector in a job runtime
    /// it owns. Eventually-consistent account sets are maintained only by the
    /// projector, so exactly one must run somewhere: with `true` the ledger
    /// spawns it into its own runtime; with `false` (the default) the embedder
    /// registers it in a runtime it already owns.
    pub ec_balance_projector: bool,
    /// Poller tuning for the job runtime that the ledger hosts; only read when
    /// `ec_balance_projector` is enabled.
    pub job_poller_config: JobPollerConfig,
}

/// Whether one text is the same as another, where there is one.
pub open spec fn same_text(a: Option<String>, b: Option<String>) -> bool {
    match (a, b) {
        (Some(a), Some(b)) => a@ == b@,
        (None, None) => true,
        _ => false,
    }
}

/// Whether one pool is a clone of another, where there is one.
pub open spec fn cloned_pool<P: Clone>(a: Option<P>, b: Option<P>) -> bool {
    match (a, b) {
        (Some(a), Some(b)) => cloned(a, b),
        (None, None) => true,
        _ => false,
    }
}

fn clone_text(text: &Option<String>) -> (clone: Option<String>)
    ensures
        same_text(*text, clone),
{
    match text {
        Some(text) => Some(text.clone()),
        None => None,
    }
}

fn clone_pool<P: Clone>(pool: &Option<P>) -> (clone: Option<P>)
    ensures
        cloned_pool(*pool, clone),
{
    match pool {
        Some(pool) => Some(pool.clone()),
        None => None,
    }
}

impl<P: Clone> Clone for CalaLedgerConfig<P> {
    fn clone(&self) -> (clone: Self)
        ensures
            same_text(self.pg_con, clone.pg_con),
            clone.max_connections == self.max_connections,
            clone.exec_migrations == self.exec_migrations,
            cloned_pool(self.pool, clone.pool),
            clone.clock == self.clock,
            clone.ec_balance_projector == self.ec_balance_projector,
            clone.job_poller_config == self.job_poller_config,
    {
        CalaLedgerConfig {
            pg_con: clone_text(&self.pg_con),
            max_connections: self.max_connections,
            exec_migrations: self.exec_migrations,
            pool: clone_pool(&self.pool),
            clock: clone_clock(&self.clock),
            ec_balance_projector: self.ec_balance_projector,
            job_poller_config: clone_poller_config(&self.job_poller_config),
        }
    }
}

/// Builds a [`CalaLedgerConfig`]. A field that was not set takes its default.
pub struct CalaLedgerConfigBuilder<P> {
    pub pg_con: Option<Option<String>>,
    pub max_connections: Option<Option<u32>>,
    pub exec_migrations: Option<bool>,
    pub pool: Option<Option<P>>,
    pub clock: Option<ClockHandle>,
    pub ec_balance_projector: Option<bool>,
    pub job_poller_config: Option<JobPollerConfig>,
}

/// Why a configuration was not built.
#[derive(Debug)]
pub enum CalaLedgerConfigBuilderError {
    /// The fields that were set contradict each other.
    ValidationError(String),
}

impl<P> CalaLedgerConfig<P> {
    /// A builder with nothing set.
    pub fn builder() -> (builder: CalaLedgerConfigBuilder<P>)
        ensures
            builder == CalaLedgerConfigBuilder::<P>::unset(),
    {
        CalaLedgerConfigBuilder {
            pg_con: None,
            max_connections: None,
            exec_migrations: None,
            pool: None,
            clock: None,
            ec_balance_projector: None,
            job_poller_config: None,
        }
    }
}

impl<P> Default for CalaLedgerConfigBuilder<P> {
    fn default() -> (builder: Self)
        ensures
            builder == CalaLedgerConfigBuilder::<P>::unset(),
    {
        CalaLedgerConfig::builder()
    }
}

impl<P: Clone> Clone for CalaLedgerConfigBuilder<P> {
    fn clone(&self) -> (clone: Self)
        ensures
            match (self.pg_con, clone.pg_con) {
                (Some(text), Some(copy)) => same_text(text, copy),
                (None, None) => true,
                _ => false,
            },
            clone.max_connections == self.max_connections,
            clone.exec_migrations == self.exec_migrations,
            match (self.pool, clone.pool) {
                (Some(pool), Some(copy)) => cloned_pool(pool, copy),
                (None, None) => true,
                _ => false,
            },
            clone.clock == self.clock,
            clone.ec_balance_projector == self.ec_balance_projector,
            clone.job_poller_config == self.job_poller_config,
    {
        CalaLedgerConfigBuilder {
            pg_con: match &self.pg_con {
                Some(text) => Some(clone_text(text)),
                None => None,
            },
            max_connections: self.max_connections,
            exec_migrations: self.exec_migrations,
            pool: match &self.pool {
                Some(pool) => Some(clone_pool(pool)),
                None => None,
            },
            clock: match &self.clock {
                Some(clock) => Some(clone_clock(clock)),
                None => None,
            },
            ec_balance_projector: self.ec_balance_projector,
            job_poller_config: match &self.job_poller_config {
                Some(config) => Some(clone_poller_config(config)),
                None => None,
            },
        }
    }
}

/// The message where neither a connection string nor a pool is set.
pub open spec fn neither_message() -> Seq<char> {
    "One of pg_con or pool must be set"@
}

/// The message where both a connection string and a pool are set.
pub open spec fn both_message() -> Seq<char> {
    "Only one of pg_con or pool must be set"@
}

impl<P> CalaLedgerConfigBuilder<P> {
    /// A builder with nothing set.
    pub open spec fn unset() -> CalaLedgerConfigBuilder<P> {
        CalaLedgerConfigBuilder {
            pg_con: None,
            max_connections: None,
            exec_migrations: None,
            pool: None,
            clock: None,
            ec_balance_projector: None,
            job_poller_config: None,
        }
    }

    /// What speaks against the fields as they are set, if anything: a
    /// connection string and a pool exclude each other, and one of them is
    /// needed.
    pub open spec fn objection(&self) -> Option<Seq<char>> {
        if self.pg_con is Some && self.pool is Some {
            Some(both_message())
        } else if (self.pg_con is Some && self.pg_con->0 is Some) || (self.pool is Some
            && self.pool->0 is Some) {
            None
        } else {
            Some(neither_message())
        }
    }

    /// Checks that exactly one of `pg_con` and `pool` is set.
    pub fn validate(&self) -> (valid: Result<(), String>)
        ensures
            match self.objection() {
                None => valid == Ok::<(), String>(()),
                Some(message) => valid is Err && valid->Err_0@ == message,
            },
    {
        match (self.pg_con.as_ref(), self.pool.as_ref()) {
            (None, None) | (Some(None), None) | (None, Some(None)) => {
                return Err("One of pg_con or pool must be set".to_owned());
            },
            (Some(_), Some(_)) => {
                return Err("Only one of pg_con or pool must be set".to_owned());
            },
            _ => (),
        }
        Ok(())
    }

    /// Sets the connection string.
    pub fn pg_con(&mut self, value: String) -> (builder: &mut Self)
        ensures
            *builder == (CalaLedgerConfigBuilder { pg_con: Some(Some(value)), ..*old(self) }),
            *final(self) == *final(builder),
    {
        self.pg_con = Some(Some(value));
        self
    }

    /// Sets the most connections that the ledger's own pool opens.
    pub fn max_connections(&mut self, value: u32) -> (builder: &mut Self)
        ensures
            *builder == (CalaLedgerConfigBuilder {
                max_connections: Some(Some(value)),
                ..*old(self)
            }),
            *final(self) == *final(builder),
    {
        self.max_connections = Some(Some(value));
        self
    }

    /// Sets whether the ledger runs the migrations.
    pub fn exec_migrations(&mut self, value: bool) -> (builder: &mut Self)
        ensures
            *builder == (CalaLedgerConfigBuilder { exec_migrations: Some(value), ..*old(self) }),
            *final(self) == *final(builder),
    {
        self.exec_migrations = Some(value);
        self
    }

    /// Sets the pool.
    pub fn pool(&mut self, value: P) -> (builder: &mut Self)
        ensures
            *builder == (CalaLedgerConfigBuilder { pool: Some(Some(value)), ..*old(self) }),
            *final(self) == *final(builder),
    {
        self.pool = Some(Some(value));
        self
    }

    /// Sets the clock.
    pub fn clock(&mut self, value: ClockHandle) -> (builder: &mut Self)
        ensures
            *builder == (CalaLedgerConfigBuilder { clock: Some(value), ..*old(self) }),
            *final(self) == *final(builder),
    {
        self.clock = Some(value);
        self
    }

    /// Sets whether the ledger hosts the projector.
    pub fn ec_balance_projector(&mut self, value: bool) -> (builder: &mut Self)
        ensures
            *builder == (CalaLedgerConfigBuilder {
                ec_balance_projector: Some(value),
                ..*old(self)
            }),
            *final(self) == *final(builder),
    {
        self.ec_balance_projector = Some(value);
        self
    }

    /// Sets the tuning of the job poller.
    pub fn job_poller_config(&mut self, value: JobPollerConfig) -> (builder: &mut Self)
        ensures
            *builder == (CalaLedgerConfigBuilder { job_poller_config: Some(value), ..*old(self) }),
            *final(self) == *final(builder),
    {
        self.job_poller_config = Some(value);
        self
    }

    /// Whether `config` holds the fields as they are set, and the default of
    /// those that are not. The default clock is the global one, and the
    /// default tuning is the poller's own; which these are is not said.
    pub open spec fn builds(&self, config: CalaLedgerConfig<P>) -> bool where P: Clone {
        &&& match self.pg_con {
            Some(Some(pg_con)) => config.pg_con is Some && config.pg_con->0@ == pg_con@,
            _ => config.pg_con is None,
        }
        &&& config.max_connections == match self.max_connections {
            Some(max_connections) => max_connections,
            None => None,
        }
        &&& config.exec_migrations == (self.exec_migrations == Some(true))
        &&& match self.pool {
            Some(Some(pool)) => config.pool is Some && cloned(pool, config.pool->0),
            _ => config.pool is None,
        }
        &&& self.clock is Some ==> config.clock == self.clock->0
        &&& config.ec_balance_projector == (self.ec_balance_projector == Some(true))
        &&& self.job_poller_config is Some ==> config.job_poller_config
            == self.job_poller_config->0
    }

    /// Builds the configuration, if nothing speaks against it.
    pub fn build(&self) -> (built: Result<CalaLedgerConfig<P>, CalaLedgerConfigBuilderError>)
        where P: Clone
        ensures
            match self.objection() {
                None => built is Ok && self.builds(built->Ok_0),
                Some(message) => built is Err && (built->Err_0 matches
                    CalaLedgerConfigBuilderError::ValidationError(text) && text@ == message),
            },
    {
        if let Err(message) = self.validate() {
            return Err(CalaLedgerConfigBuilderError::ValidationError(message));
        }
        let pg_con: Option<String> = match &self.pg_con {
            Some(pg_con) => clone_text(pg_con),
            None => None,
        };
        let max_connections: Option<u32> = match self.max_connections {
            Some(max_connections) => max_connections,
            None => None,
        };
        let exec_migrations = match self.exec_migrations {
            Some(exec_migrations) => exec_migrations,
            None => false,
        };
        let pool: Option<P> = match &self.pool {
            Some(pool) => clone_pool(pool),
            None => None,
        };
        let clock = match &self.clock {
            Some(clock) => clone_clock(clock),
            None => global_clock(),
        };
        let ec_balance_projector = match self.ec_balance_projector {
            Some(ec_balance_projector) => ec_balance_projector,
            None => false,
        };
        let job_poller_config = match &self.job_poller_config {
            Some(job_poller_config) => clone_poller_config(job_poller_config),
            None => default_poller_config(),
        };
        Ok(
            CalaLedgerConfig {
                pg_con,
                max_connections,
                exec_migrations,
                pool,
                clock,
                ec_balance_projector,
                job_poller_config,
            },
        )
    }
}

} // verus!
