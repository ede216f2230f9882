use std::time::Duration;

use cala_projector::ledger::config::{
    CalaLedgerConfig, CalaLedgerConfigBuilder, CalaLedgerConfigBuilderError,
};
use chrono::{DateTime, Utc};
use es_entity::clock::ClockHandle;
use job::JobPollerConfig;

/// Stands for a pool: a handle by its number.
#[derive(Clone, Debug, PartialEq)]
struct Pool(u8);

const NEITHER: &str = "One of pg_con or pool must be set";
const BOTH: &str = "Only one of pg_con or pool must be set";

fn builder() -> CalaLedgerConfigBuilder<Pool> {
    CalaLedgerConfig::builder()
}

fn refusal(builder: &CalaLedgerConfigBuilder<Pool>) -> String {
    let validated = builder.validate().unwrap_err();
    match builder.build() {
        Err(CalaLedgerConfigBuilderError::ValidationError(message)) => {
            assert_eq!(message, validated);
            message
        }
        Ok(_) => panic!("built in spite of: {validated}"),
    }
}

#[test]
fn builder_needs_a_source_of_connections() {
    assert_eq!(refusal(&builder()), NEITHER);
    let mut no_connection = builder();
    no_connection.pg_con = Some(None);
    assert_eq!(refusal(&no_connection), NEITHER);
    let mut no_pool = builder();
    no_pool.pool = Some(None);
    assert_eq!(refusal(&no_pool), NEITHER);
}

#[test]
fn builder_takes_one_source_of_connections_only() {
    let mut both = builder();
    both.pg_con("postgres://localhost".to_owned()).pool(Pool(1));
    assert_eq!(refusal(&both), BOTH);
    let mut both_empty = builder();
    both_empty.pg_con = Some(None);
    both_empty.pool = Some(None);
    assert_eq!(refusal(&both_empty), BOTH);
    let mut one_empty = builder();
    one_empty.pg_con("postgres://localhost".to_owned());
    one_empty.pool = Some(None);
    assert_eq!(refusal(&one_empty), BOTH);
}

#[test]
fn fields_that_are_not_set_take_their_defaults() {
    let mut with_pool = CalaLedgerConfigBuilder::default();
    with_pool.pool(Pool(3));
    assert!(with_pool.validate().is_ok());
    let config = with_pool.build().unwrap();
    assert_eq!(config.pg_con, None);
    assert_eq!(config.max_connections, None);
    assert!(!config.exec_migrations);
    assert_eq!(config.pool, Some(Pool(3)));
    assert!(!config.clock.is_manual());
    assert!(!config.ec_balance_projector);
    let default = JobPollerConfig::default();
    assert_eq!(config.job_poller_config.job_lost_interval, default.job_lost_interval);
    assert_eq!(config.job_poller_config.max_jobs_per_process, default.max_jobs_per_process);
}

#[test]
fn fields_that_are_set_are_built() {
    let start: DateTime<Utc> = DateTime::from_timestamp(1_700_000_000, 0).unwrap();
    let (clock, _controller) = ClockHandle::manual_at(start);
    let poller = JobPollerConfig {
        job_lost_interval: Duration::from_secs(30),
        pending_jobs_check_interval: Duration::from_secs(1),
        ..JobPollerConfig::default()
    };
    let mut all = builder();
    all.pg_con("postgres://localhost".to_owned())
        .max_connections(40)
        .exec_migrations(true)
        .clock(clock)
        .ec_balance_projector(true)
        .job_poller_config(poller);
    let config = all.build().unwrap();
    assert_eq!(config.pg_con, Some("postgres://localhost".to_owned()));
    assert_eq!(config.max_connections, Some(40));
    assert!(config.exec_migrations);
    assert_eq!(config.pool, None);
    assert_eq!(config.clock.now(), start);
    assert!(config.ec_balance_projector);
    assert_eq!(config.job_poller_config.job_lost_interval, Duration::from_secs(30));
    assert_eq!(
        config.job_poller_config.pending_jobs_check_interval,
        Duration::from_secs(1)
    );
}

#[test]
fn the_flags_can_be_switched_off_again() {
    let mut flags = builder();
    flags.pool(Pool(1)).exec_migrations(true).ec_balance_projector(true);
    flags.exec_migrations(false).ec_balance_projector(false);
    let config = flags.build().unwrap();
    assert!(!config.exec_migrations);
    assert!(!config.ec_balance_projector);
}

#[test]
fn a_clone_holds_the_same_fields() {
    let start: DateTime<Utc> = DateTime::from_timestamp(1_700_000_000, 0).unwrap();
    let (clock, _controller) = ClockHandle::manual_at(start);
    let poller =
        JobPollerConfig { job_lost_interval: Duration::from_secs(30), ..JobPollerConfig::default() };
    let mut first = builder();
    first.pool(Pool(4)).max_connections(9).exec_migrations(true);
    first.clock(clock).ec_balance_projector(true).job_poller_config(poller);
    let mut second = first.clone();
    second.pool(Pool(5));
    assert_eq!(first.pool, Some(Some(Pool(4))));
    assert_eq!(second.pool, Some(Some(Pool(5))));
    let config = second.build().unwrap().clone();
    assert_eq!(config.pg_con, None);
    assert_eq!(config.max_connections, Some(9));
    assert!(config.exec_migrations);
    assert_eq!(config.pool, Some(Pool(5)));
    assert_eq!(config.clock.now(), start);
    assert!(config.ec_balance_projector);
    assert_eq!(config.job_poller_config.job_lost_interval, Duration::from_secs(30));
    assert!(format!("{config:?}").starts_with("CalaLedgerConfig"));

    let mut by_text = builder();
    by_text.pg_con("postgres://localhost".to_owned());
    let config = by_text.clone().build().unwrap();
    assert_eq!(config.clone().pg_con, Some("postgres://localhost".to_owned()));
}
