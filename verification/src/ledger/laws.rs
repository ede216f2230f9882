//! What holds of the configuration of a ledger, said of its fields.

use crate::ledger::config::{
    cloned_pool, same_text, CalaLedgerConfig, CalaLedgerConfigBuilder,
};
use vstd::prelude::*;

verus! {

/// A builder is refused where both sources of connections were set, whatever to,
/// and where neither was set to anything; with exactly one set, to something, it
/// is not.
pub proof fn law_one_source_of_connections<P>(builder: CalaLedgerConfigBuilder<P>)
    ensures
        builder.pg_con is Some && builder.pool is Some ==> builder.objection() == Some(
            "Only one of pg_con or pool must be set"@,
        ),
        builder.pg_con is None && builder.pool is None ==> builder.objection() == Some(
            "One of pg_con or pool must be set"@,
        ),
        builder.pg_con is None && builder.pool == Some(None::<P>) ==> builder.objection() == Some(
            "One of pg_con or pool must be set"@,
        ),
        builder.pool is None && builder.pg_con == Some(None::<String>) ==> builder.objection()
            == Some("One of pg_con or pool must be set"@),
        builder.pg_con is None && builder.pool is Some && builder.pool->0 is Some
            ==> builder.objection() is None,
        builder.pool is None && builder.pg_con is Some && builder.pg_con->0 is Some
            ==> builder.objection() is None,
{
}

/// What is built holds what was set, and where nothing was set it holds nothing,
/// runs no migrations and hosts no projector.
pub proof fn law_what_is_set_is_built<P: Clone>(
    builder: CalaLedgerConfigBuilder<P>,
    config: CalaLedgerConfig<P>,
)
    requires
        builder.builds(config),
    ensures
        builder.pg_con is Some && builder.pg_con->0 is Some ==> config.pg_con is Some
            && config.pg_con->0@ == builder.pg_con->0->0@,
        builder.pg_con is None || builder.pg_con->0 is None ==> config.pg_con is None,
        builder.max_connections is Some ==> config.max_connections == builder.max_connections->0,
        builder.max_connections is None ==> config.max_connections is None,
        builder.exec_migrations is Some ==> config.exec_migrations == builder.exec_migrations->0,
        builder.exec_migrations is None ==> !config.exec_migrations,
        builder.pool is Some && builder.pool->0 is Some ==> config.pool is Some && cloned(
            builder.pool->0->0,
            config.pool->0,
        ),
        builder.pool is None || builder.pool->0 is None ==> config.pool is None,
        builder.clock is Some ==> config.clock == builder.clock->0,
        builder.ec_balance_projector is Some ==> config.ec_balance_projector
            == builder.ec_balance_projector->0,
        builder.ec_balance_projector is None ==> !config.ec_balance_projector,
        builder.job_poller_config is Some ==> config.job_poller_config
            == builder.job_poller_config->0,
{
}

/// A builder with nothing set has nothing set.
pub proof fn law_unset_builders_are_empty<P>()
    ensures
        ({
            let builder = CalaLedgerConfigBuilder::<P>::unset();
            &&& builder.pg_con is None && builder.max_connections is None
            &&& builder.exec_migrations is None && builder.pool is None && builder.clock is None
            &&& builder.ec_balance_projector is None && builder.job_poller_config is None
        }),
{
}

/// A cloned text is there where its source is, and has the same characters; a
/// cloned pool is there where its source is, and is a clone of it.
pub proof fn law_clones_keep_what_is_there<P: Clone>(
    text: Option<String>,
    text_copy: Option<String>,
    pool: Option<P>,
    pool_copy: Option<P>,
)
    ensures
        same_text(text, text_copy) <==> (text is Some <==> text_copy is Some) && (text is Some
            ==> text->0@ == text_copy->0@),
        cloned_pool(pool, pool_copy) <==> (pool is Some <==> pool_copy is Some) && (pool is Some
            ==> cloned(pool->0, pool_copy->0)),
{
}

} // verus!
