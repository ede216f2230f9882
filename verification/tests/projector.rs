//! Whole batches against a ledger in memory.

use std::collections::{BTreeMap, HashMap, HashSet};
use std::time::Duration;

use cala_projector::balance::amount::{Amount, MAX_MANTISSA};
use cala_projector::balance::snapshot::{BalanceSnapshot, Snapshots};
use cala_projector::balance::store::{BalanceKey, BalanceMap};
use cala_projector::primitives::{
    AccountId, AccountSetId, Currency, Date, DebitOrCredit, EntryId, EntryValues, JobId, JournalId,
    Layer, Timestamp, TransactionId,
};
use cala_projector::projector::batch::{BatchOp, BatchStage};
use cala_projector::projector::collect::{
    BatchCollector, CollectStep, CollectedBatch, OutboxEvent, OutboxEventPayload,
};
use cala_projector::projector::effective::{EffectiveDates, Rebuild};
use cala_projector::projector::error::ProjectorError;
use cala_projector::projector::listing::{EcSetListing, EcSetPage};
use cala_projector::projector::mappings::AccountSetMappings;
use cala_projector::projector::runner::{JobRun, RunStep, SingleBatchRun, SingleStep};
use cala_projector::projector::{BalanceProjectorConfig, ProjectorState};
use obix::EventSequence;

const BTC: Currency = Currency(1);
const USD: Currency = Currency(2);
const JOURNAL: JournalId = JournalId(0x10);
const JOB: JobId = JobId(0x77);
const SENDER: AccountId = AccountId(0xa0);

fn units(mantissa: i128) -> Amount {
    Amount { mantissa, scale: 0 }
}

fn account_of(set: AccountSetId) -> AccountId {
    AccountId::of_set(set)
}

/// What the ledger persists.
#[derive(Clone, Default)]
struct Tables {
    cursor: Option<ProjectorState>,
    current: HashMap<(JournalId, BalanceKey), BalanceSnapshot>,
    history: Vec<(JournalId, BalanceKey)>,
    effective: HashMap<(JournalId, AccountSetId, Currency), BTreeMap<i32, i128>>,
    rebuilt: Vec<(JournalId, Rebuild)>,
}

/// A ledger in memory. Inline sets are folded as entries are posted.
#[derive(Default)]
struct Ledger {
    tables: Tables,
    sets: HashMap<AccountId, Vec<AccountSetId>>,
    ec_sets: Vec<AccountSetId>,
    effective_journals: HashSet<JournalId>,
    dates: HashMap<TransactionId, Date>,
    entries: Vec<EntryValues>,
    outbox: Vec<OutboxEvent>,
    next_id: u128,
    now: i64,
}

impl Ledger {
    fn new() -> Self {
        Ledger { next_id: 1, now: 1_000, ..Ledger::default() }
    }

    fn new_ec_set(&mut self, id: u128) -> AccountSetId {
        self.ec_sets.push(AccountSetId(id));
        AccountSetId(id)
    }

    /// The account, and what is above it, become members of the set.
    fn add_member(&mut self, set: AccountSetId, account: AccountId) {
        self.sets.entry(account).or_default().push(set);
    }

    fn emit(&mut self, payload: Option<OutboxEventPayload>) {
        let number = self.outbox.len() as u64 + 1;
        self.outbox.push(OutboxEvent::new(EventSequence::from(number), payload));
    }

    fn time(&self) -> Timestamp {
        Timestamp { seconds: self.now, nanos: 1 }
    }

    fn head(&self) -> i64 {
        self.outbox.len() as i64
    }

    fn fold_inline(&mut self, entry: &EntryValues) {
        let above = self.sets.get(&entry.account_id).cloned().unwrap_or_default();
        let inline = above.into_iter().filter(|id| !self.ec_sets.contains(id)).map(account_of);
        let accounts: Vec<AccountId> = inline.chain([entry.account_id]).collect();
        for account_id in accounts {
            let at = (entry.journal_id, BalanceKey { account_id, currency: entry.currency });
            let time = self.time();
            let snapshot = match self.tables.current.get(&at) {
                Some(current) => Snapshots::update_snapshot(time, *current, entry),
                None => Snapshots::new_snapshot(time, account_id, entry),
            };
            self.tables.current.insert(at, snapshot.unwrap());
            self.tables.history.push(at);
        }
    }

    fn post_entries(
        &mut self,
        journal_id: JournalId,
        date: i32,
        moves: &[(AccountId, Currency, Layer, DebitOrCredit, i128)],
    ) {
        self.now += 1;
        let transaction_id = TransactionId(self.next_id);
        self.dates.insert(transaction_id, Date(date));
        self.emit(Some(OutboxEventPayload::Other));
        for (account_id, currency, layer, direction, amount) in moves {
            let entry = EntryValues {
                id: EntryId(self.next_id),
                journal_id,
                transaction_id,
                account_id: *account_id,
                currency: *currency,
                layer: *layer,
                direction: *direction,
                units: units(*amount),
            };
            self.next_id += 1;
            self.entries.push(entry);
            self.fold_inline(&entry);
            self.emit(Some(OutboxEventPayload::EntryCreated { entry }));
        }
        self.emit(Some(OutboxEventPayload::Other));
        self.emit(None);
    }

    fn post_on(&mut self, date: i32, sender: AccountId, recipient: AccountId) {
        self.post_entries(
            JOURNAL,
            date,
            &[
                (sender, BTC, Layer::Settled, DebitOrCredit::Debit, 1290),
                (recipient, BTC, Layer::Settled, DebitOrCredit::Credit, 1290),
                (sender, USD, Layer::Settled, DebitOrCredit::Debit, 100),
                (recipient, USD, Layer::Settled, DebitOrCredit::Credit, 100),
                (sender, USD, Layer::Pending, DebitOrCredit::Debit, 100),
                (recipient, USD, Layer::Pending, DebitOrCredit::Credit, 100),
            ],
        );
    }

    fn post(&mut self, sender: AccountId, recipient: AccountId) {
        self.post_on(0, sender, recipient);
    }

    fn find(&self, account_id: AccountId, currency: Currency) -> Option<BalanceSnapshot> {
        self.tables.current.get(&(JOURNAL, BalanceKey { account_id, currency })).copied()
    }

    fn settled_credit(&self, account_id: AccountId, currency: Currency) -> i128 {
        let snapshot = self.find(account_id, currency).unwrap();
        assert_eq!(snapshot.settled.cr_balance.scale, 0);
        snapshot.settled.cr_balance.mantissa - snapshot.settled.dr_balance.mantissa
    }

    fn history_row_count(&self, account_id: AccountId, currency: Currency) -> usize {
        let at = (JOURNAL, BalanceKey { account_id, currency });
        self.tables.history.iter().filter(|row| **row == at).count()
    }

    /// Drains the outbox from where `state` stands.
    fn collect(&self, state: &ProjectorState, mut collector: BatchCollector) -> CollectedBatch {
        let after = u64::from(state.listen_from());
        let mut stream = self.outbox.iter().filter(|event| event.sequence > after);
        loop {
            match (collector.step(), stream.next()) {
                (CollectStep::Finished, _) => return collector.finish(),
                (_, Some(event)) => collector.on_event(event),
                (CollectStep::AwaitNextOrIdle, None) => collector.on_idle(),
                (CollectStep::AwaitNext, None) => collector.on_end(),
            }
        }
    }

    /// Does what the operation asks for, until it asks for the cursor.
    fn fold(&self, tables: &mut Tables, op: &mut BatchOp) -> Result<(), ProjectorError> {
        loop {
            match op.stage() {
                BatchStage::ListEcSets => {
                    let mut listing: EcSetListing<usize> = EcSetListing::new();
                    while let Some(query) = listing.take_query() {
                        let start = query.after.unwrap_or(0);
                        let end = (start + query.first).min(self.ec_sets.len());
                        listing.on_page(EcSetPage {
                            ids: self.ec_sets[start..end].to_vec(),
                            has_next_page: end < self.ec_sets.len(),
                            end_cursor: Some(end),
                        });
                    }
                    op.on_ec_sets(listing.into_ids());
                }
                BatchStage::FetchMappings { account_ids } => {
                    let mut mappings = AccountSetMappings::new();
                    for id in account_ids {
                        if let Some(sets) = self.sets.get(id) {
                            mappings.insert(*id, sets.clone());
                        }
                    }
                    op.on_mappings(&mappings);
                }
                BatchStage::LoadBalances { account_ids, .. } => {
                    let journal_id = op.journal_id();
                    let mut balances = BalanceMap::new();
                    for ((journal, key), snapshot) in &tables.current {
                        if *journal == journal_id && account_ids.contains(&key.account_id) {
                            balances.insert(*key, *snapshot);
                        }
                    }
                    if !op.on_balances(self.time(), balances) {
                        return Err(ProjectorError::BalanceError("Addition overflowed".to_owned()));
                    }
                }
                BatchStage::InsertSnapshots { snapshots, .. } => {
                    let journal_id = op.journal_id();
                    for (key, snapshot) in snapshots {
                        assert_eq!(snapshot.journal_id, journal_id);
                        tables.current.insert((journal_id, *key), *snapshot);
                        tables.history.push((journal_id, *key));
                    }
                    op.on_inserted();
                }
                BatchStage::FindJournal { .. } => {
                    let effective = self.effective_journals.contains(&op.journal_id());
                    op.on_journal(effective);
                }
                BatchStage::FindTransactions { transaction_ids, .. } => {
                    let mut dates = EffectiveDates::new();
                    for id in transaction_ids {
                        dates.insert(*id, self.dates[id]);
                    }
                    op.on_transactions(&dates);
                }
                BatchStage::RebuildEffective { rebuilds, next } => {
                    let rebuild = rebuilds[*next];
                    self.rebuild_effective(tables, op.journal_id(), rebuild);
                    op.on_rebuilt();
                }
                BatchStage::AdvanceCursor | BatchStage::Advanced => return Ok(()),
            }
        }
    }

    /// Recomputes the cumulative credits of a set, by date, from a date on.
    fn rebuild_effective(&self, tables: &mut Tables, journal_id: JournalId, rebuild: Rebuild) {
        tables.rebuilt.push((journal_id, rebuild));
        let from = rebuild.from_date.0;
        for currency in [BTC, USD] {
            let posted: Vec<(i32, i128)> = self
                .entries
                .iter()
                .filter(|e| e.journal_id == journal_id && e.currency == currency)
                .filter(|e| e.layer == Layer::Settled && e.direction == DebitOrCredit::Credit)
                .filter(|e| {
                    let above = self.sets.get(&e.account_id);
                    above.is_some_and(|sets| sets.contains(&rebuild.set_id))
                })
                .map(|e| (self.dates[&e.transaction_id].0, e.units.mantissa))
                .collect();
            let by_date =
                tables.effective.entry((journal_id, rebuild.set_id, currency)).or_default();
            by_date.retain(|date, _| *date < from);
            for (date, _) in posted.iter().filter(|(date, _)| *date >= from) {
                let total = posted.iter().filter(|(d, _)| d <= date).map(|(_, n)| n).sum();
                by_date.insert(*date, total);
            }
        }
    }

    fn advance(tables: &mut Tables, op: &mut BatchOp) -> Result<(), ProjectorError> {
        assert!(matches!(op.stage(), BatchStage::AdvanceCursor));
        let cursor = op.cursor();
        assert_eq!(cursor.job_id, JOB);
        let persisted = tables.cursor.unwrap_or_default();
        let rows = if persisted.sequence == cursor.expected {
            tables.cursor = Some(cursor.new_state);
            1
        } else {
            0
        };
        op.on_cursor(rows)
    }

    /// One batch inside an operation that the caller commits or drops.
    fn run_single_batch_in_op(
        &self,
        tables: &mut Tables,
        config: &BalanceProjectorConfig,
        state: &mut ProjectorState,
    ) -> Result<usize, ProjectorError> {
        let mut run = SingleBatchRun::new(JOB, state, false);
        let batch = self.collect(state, run.collector(config));
        if let Some(mut op) = run.on_batch(&batch) {
            assert_eq!(run.step, SingleStep::Project);
            self.fold(tables, &mut op)?;
            Ledger::advance(tables, &mut op)?;
            run.on_projected(&op);
        }
        assert_eq!(run.step, SingleStep::Done);
        *state = run.state;
        Ok(run.events)
    }

    /// One batch, committed.
    fn run_single_batch(
        &mut self,
        config: &BalanceProjectorConfig,
        state: &mut ProjectorState,
    ) -> Result<usize, ProjectorError> {
        let mut run = SingleBatchRun::new(JOB, state, true);
        let batch = self.collect(state, run.collector(config));
        if let Some(mut op) = run.on_batch(&batch) {
            let mut tables = self.tables.clone();
            self.fold(&mut tables, &mut op)?;
            Ledger::advance(&mut tables, &mut op)?;
            run.on_projected(&op);
            assert_eq!(run.step, SingleStep::Commit);
            self.tables = tables;
            run.on_committed();
        }
        assert_eq!(run.step, SingleStep::Done);
        *state = run.state;
        Ok(run.events)
    }

    /// The job, until the outbox is drained.
    fn run_job(&mut self, config: &BalanceProjectorConfig) -> Result<(), ProjectorError> {
        let mut run = JobRun::new(JOB, self.tables.cursor);
        while run.step == RunStep::Collect {
            let batch = self.collect(&run.state, run.collector(config));
            if let Some(mut op) = run.on_batch(&batch) {
                assert_eq!(run.step, RunStep::Persist);
                let mut tables = self.tables.clone();
                self.fold(&mut tables, &mut op)?;
                Ledger::advance(&mut tables, &mut op)?;
                self.tables = tables;
                run.on_persisted(&op);
            }
        }
        assert_eq!(run.step, RunStep::RescheduleNow);
        assert_eq!(run.state.sequence, self.head());
        Ok(())
    }
}

fn direct_config() -> BalanceProjectorConfig {
    BalanceProjectorConfig { batch_size: 10_000, idle_timeout: Duration::from_millis(1_500) }
}

struct Fixture {
    ledger: Ledger,
    leaf: AccountId,
    inline_set: AccountSetId,
    ec_set: AccountSetId,
    /// Where the outbox stood before the test posted anything.
    seed: ProjectorState,
}

impl Fixture {
    fn new() -> Self {
        let mut ledger = Ledger::new();
        let leaf = AccountId(0xa1);
        let inline_set = AccountSetId(0x51);
        let ec_set = ledger.new_ec_set(0x50);
        ledger.add_member(inline_set, leaf);
        ledger.add_member(ec_set, leaf);
        for _ in 0..5 {
            ledger.emit(Some(OutboxEventPayload::Other));
        }
        let seed = ProjectorState { sequence: ledger.head() };
        ledger.tables.cursor = Some(seed);
        Fixture { ledger, leaf, inline_set, ec_set, seed }
    }

    fn post(&mut self) {
        self.ledger.post(SENDER, self.leaf);
    }

    fn assert_converged(&self, currency: Currency) {
        let inline = self.ledger.find(account_of(self.inline_set), currency).unwrap();
        let ec = self.ledger.find(account_of(self.ec_set), currency).unwrap();
        assert_eq!(ec.settled, inline.settled);
        assert_eq!(ec.pending, inline.pending);
        assert_eq!(ec.encumbrance, inline.encumbrance);
        assert_eq!(ec.version, inline.version);
        assert_eq!(ec.entry_id, inline.entry_id);
    }
}

#[test]
fn stale_cursor_cas_aborts_whole_batch() {
    let mut fixture = Fixture::new();
    let mut state = fixture.seed;
    let head = state.sequence;
    for _ in 0..2 {
        fixture.post();
    }
    let fenced_sequence = head + 1_000_000;
    fixture.ledger.tables.cursor = Some(ProjectorState { sequence: fenced_sequence });
    let err = fixture.ledger.run_single_batch(&direct_config(), &mut state).unwrap_err();
    match err {
        ProjectorError::CursorFenced { job_id, expected } => {
            assert_eq!((job_id, expected), (JOB, head));
        }
        other => panic!("expected CursorFenced, got {}", other.message()),
    }
    assert_eq!(state.sequence, head);
    assert!(fixture.ledger.find(account_of(fixture.ec_set), BTC).is_none());
    assert_eq!(
        fixture.ledger.tables.cursor,
        Some(ProjectorState { sequence: fenced_sequence })
    );
}

#[test]
fn concurrent_projectors_fold_exactly_once() {
    let mut fixture = Fixture::new();
    for _ in 0..3 {
        fixture.post();
    }
    let ledger = &fixture.ledger;
    let config = direct_config();
    let mut state_a = fixture.seed;
    let mut state_b = fixture.seed;
    let mut run_a = SingleBatchRun::new(JOB, &state_a, true);
    let mut run_b = SingleBatchRun::new(JOB, &state_b, true);
    let batch_a = ledger.collect(&state_a, run_a.collector(&config));
    let batch_b = ledger.collect(&state_b, run_b.collector(&config));
    let mut op_a = run_a.on_batch(&batch_a).unwrap();
    let mut op_b = run_b.on_batch(&batch_b).unwrap();
    let mut tables_a = ledger.tables.clone();
    let mut tables_b = ledger.tables.clone();
    ledger.fold(&mut tables_a, &mut op_a).unwrap();
    ledger.fold(&mut tables_b, &mut op_b).unwrap();
    Ledger::advance(&mut tables_b, &mut op_b).unwrap();
    run_b.on_projected(&op_b);
    run_b.on_committed();
    state_b = run_b.state;
    tables_a.cursor = tables_b.cursor;
    let loser = Ledger::advance(&mut tables_a, &mut op_a).unwrap_err();
    assert!(matches!(loser, ProjectorError::CursorFenced { .. }));
    state_a = run_a.state;
    assert_eq!(state_a, fixture.seed);
    fixture.ledger.tables = tables_b;
    while fixture.ledger.run_single_batch(&config, &mut state_b).unwrap() > 0 {}
    let ec = account_of(fixture.ec_set);
    assert_eq!(fixture.ledger.settled_credit(ec, BTC), 1290 * 3);
    assert_eq!(fixture.ledger.find(ec, BTC).unwrap().version, 3);
}

#[test]
fn crash_mid_batch_resumes_exactly_once() {
    let mut fixture = Fixture::new();
    for _ in 0..2 {
        fixture.post();
    }
    let ec = account_of(fixture.ec_set);
    {
        let mut crashed = fixture.ledger.tables.clone();
        let mut crashed_state = fixture.seed;
        let events = fixture
            .ledger
            .run_single_batch_in_op(&mut crashed, &direct_config(), &mut crashed_state)
            .unwrap();
        assert!(events > 0);
        assert_ne!(crashed_state, fixture.seed);
    }
    assert!(fixture.ledger.find(ec, BTC).is_none());
    assert_eq!(fixture.ledger.tables.cursor, Some(fixture.seed));

    let mut state = fixture.seed;
    assert!(fixture.ledger.run_single_batch(&direct_config(), &mut state).unwrap() > 0);
    fixture.assert_converged(BTC);
    assert_eq!(fixture.ledger.find(ec, BTC).unwrap().version, 2);
    assert_eq!(fixture.ledger.history_row_count(ec, BTC), 1);
    assert_eq!(fixture.ledger.history_row_count(ec, USD), 1);

    for _ in 0..3 {
        fixture.ledger.emit(Some(OutboxEventPayload::Other));
    }
    assert_eq!(fixture.ledger.run_single_batch(&direct_config(), &mut state).unwrap(), 3);
    assert_eq!(state.sequence, fixture.ledger.head());
    assert_eq!(fixture.ledger.run_single_batch(&direct_config(), &mut state).unwrap(), 0);
    assert_eq!(fixture.ledger.find(ec, BTC).unwrap().version, 2);
    assert_eq!(fixture.ledger.history_row_count(ec, BTC), 1);
}

#[test]
fn eventually_consistent_balances_converge() {
    let mut fixture = Fixture::new();
    let mut state = fixture.seed;
    let inline = account_of(fixture.inline_set);
    let ec = account_of(fixture.ec_set);
    for _ in 0..2 {
        fixture.post();
    }
    assert!(fixture.ledger.run_single_batch(&direct_config(), &mut state).unwrap() > 0);
    fixture.assert_converged(BTC);
    fixture.assert_converged(USD);
    let first = fixture.ledger.find(ec, BTC).unwrap();
    assert_eq!(first.version, 2);
    assert_eq!(fixture.ledger.find(ec, USD).unwrap().version, 4);
    assert_eq!(fixture.ledger.history_row_count(ec, BTC), 1);
    assert_eq!(fixture.ledger.history_row_count(inline, BTC), 2);
    assert_eq!(fixture.ledger.history_row_count(ec, USD), 1);
    assert_eq!(fixture.ledger.history_row_count(inline, USD), 4);

    for _ in 0..2 {
        fixture.post();
    }
    assert!(fixture.ledger.run_single_batch(&direct_config(), &mut state).unwrap() > 0);
    fixture.assert_converged(BTC);
    fixture.assert_converged(USD);
    assert!(fixture.ledger.find(ec, BTC).unwrap().version > first.version);
    assert_eq!(fixture.ledger.history_row_count(ec, BTC), 2);
    assert_eq!(fixture.ledger.history_row_count(inline, BTC), 4);
}

#[test]
fn convergence_does_not_depend_on_where_batches_are_cut() {
    for batch_size in 1..12 {
        let mut fixture = Fixture::new();
        for _ in 0..3 {
            fixture.post();
        }
        let config = BalanceProjectorConfig { batch_size, ..direct_config() };
        fixture.ledger.run_job(&config).unwrap();
        fixture.assert_converged(BTC);
        fixture.assert_converged(USD);
        let ec = account_of(fixture.ec_set);
        assert_eq!(fixture.ledger.settled_credit(ec, BTC), 1290 * 3);
        assert_eq!(fixture.ledger.find(ec, BTC).unwrap().version, 3);
    }
}

#[test]
fn shared_member_hierarchy_converges() {
    let mut ledger = Ledger::new();
    let recipient = AccountId(0xa1);
    let extra = AccountId(0xa2);
    let set_a = ledger.new_ec_set(0x51);
    let set_b = ledger.new_ec_set(0x52);
    let root = ledger.new_ec_set(0x50);
    ledger.add_member(set_a, recipient);
    ledger.add_member(set_b, extra);
    ledger.add_member(root, recipient);
    ledger.add_member(root, extra);
    for _ in 0..3 {
        ledger.post(SENDER, recipient);
    }
    for _ in 0..2 {
        ledger.post(extra, SENDER);
    }
    ledger.run_job(&BalanceProjectorConfig::default()).unwrap();
    let recipient_bal = ledger.settled_credit(recipient, BTC);
    let extra_bal = ledger.settled_credit(extra, BTC);
    assert_eq!((recipient_bal, extra_bal), (3870, -2580));
    assert_eq!(ledger.settled_credit(account_of(set_a), BTC), recipient_bal);
    assert_eq!(ledger.settled_credit(account_of(set_b), BTC), extra_bal);
    assert_eq!(ledger.settled_credit(account_of(root), BTC), recipient_bal + extra_bal);
    let version = |set| ledger.find(account_of(set), BTC).unwrap().version;
    assert_eq!(version(root), version(set_a) + version(set_b));
}

#[test]
fn deep_hierarchy_converges() {
    let mut ledger = Ledger::new();
    let recipient = AccountId(0xa1);
    let child = ledger.new_ec_set(0x51);
    let root = ledger.new_ec_set(0x50);
    ledger.add_member(child, recipient);
    ledger.add_member(root, recipient);
    for _ in 0..3 {
        ledger.post(SENDER, recipient);
    }
    ledger.run_job(&BalanceProjectorConfig::default()).unwrap();
    let recipient_bal = ledger.settled_credit(recipient, BTC);
    assert_eq!(ledger.settled_credit(account_of(child), BTC), recipient_bal);
    assert_eq!(ledger.settled_credit(account_of(root), BTC), recipient_bal);
    let child_usd = ledger.find(account_of(child), USD).unwrap();
    let root_usd = ledger.find(account_of(root), USD).unwrap();
    assert_eq!(child_usd.version, root_usd.version);
    assert_eq!(child_usd.pending, root_usd.pending);
}

#[test]
fn mixed_hierarchy_converges() {
    let mut ledger = Ledger::new();
    let leaf_a = AccountId(0xa1);
    let leaf_b = AccountId(0xa2);
    let ec_root = ledger.new_ec_set(0x50);
    let ec_child = ledger.new_ec_set(0x51);
    let inline_child = AccountSetId(0x52);
    ledger.add_member(ec_child, leaf_a);
    ledger.add_member(inline_child, leaf_b);
    ledger.add_member(ec_root, leaf_a);
    ledger.add_member(ec_root, leaf_b);
    ledger.post(SENDER, leaf_a);
    ledger.post(SENDER, leaf_b);
    let leaf_a_bal = ledger.settled_credit(leaf_a, BTC);
    let leaf_b_bal = ledger.settled_credit(leaf_b, BTC);
    let inline_after_posts = ledger.find(account_of(inline_child), BTC).unwrap();
    assert_eq!(ledger.settled_credit(account_of(inline_child), BTC), leaf_b_bal);
    ledger.run_job(&BalanceProjectorConfig::default()).unwrap();
    assert_eq!(ledger.settled_credit(account_of(ec_child), BTC), leaf_a_bal);
    assert_eq!(ledger.settled_credit(account_of(ec_root), BTC), leaf_a_bal + leaf_b_bal);
    let inline_after_convergence = ledger.find(account_of(inline_child), BTC).unwrap();
    assert_eq!(inline_after_posts, inline_after_convergence);
}

#[test]
fn list_current_balances_for_eventually_consistent_account_set() {
    let mut ledger = Ledger::new();
    let recipient_one = AccountId(0xa1);
    let recipient_two = AccountId(0xa2);
    let inline_set = AccountSetId(0x51);
    let ec_set = ledger.new_ec_set(0x50);
    for recipient in [recipient_one, recipient_two] {
        ledger.add_member(inline_set, recipient);
        ledger.add_member(ec_set, recipient);
    }
    ledger.post(SENDER, recipient_one);
    ledger.post(SENDER, recipient_two);
    ledger.run_job(&BalanceProjectorConfig::default()).unwrap();
    let currencies: HashSet<Currency> = ledger
        .tables
        .current
        .keys()
        .filter(|(_, key)| key.account_id == account_of(ec_set))
        .map(|(_, key)| key.currency)
        .collect();
    assert_eq!(currencies, HashSet::from([BTC, USD]));
    for currency in [BTC, USD] {
        let ec = ledger.find(account_of(ec_set), currency).unwrap();
        let inline = ledger.find(account_of(inline_set), currency).unwrap();
        assert_eq!(ec.settled, inline.settled);
        assert_eq!(ec.pending, inline.pending);
        assert_eq!(ec.encumbrance, inline.encumbrance);
    }
}

#[test]
fn backdated_effective_converges() {
    let mut fixture = Fixture::new();
    fixture.ledger.effective_journals.insert(JOURNAL);
    let mut state = fixture.seed;
    let (leaf, ec_set) = (fixture.leaf, fixture.ec_set);
    let (date1, date2, date3) = (10, 20, 15);
    fixture.ledger.post_on(date1, SENDER, leaf);
    fixture.ledger.post_on(date2, SENDER, leaf);
    assert!(fixture.ledger.run_single_batch(&direct_config(), &mut state).unwrap() > 0);
    let at = (JOURNAL, ec_set, BTC);
    assert_eq!(
        fixture.ledger.tables.effective[&at],
        BTreeMap::from([(date1, 1290), (date2, 2580)])
    );
    fixture.ledger.post_on(date3, SENDER, leaf);
    assert!(fixture.ledger.run_single_batch(&direct_config(), &mut state).unwrap() > 0);
    assert_eq!(
        fixture.ledger.tables.effective[&at],
        BTreeMap::from([(date1, 1290), (date3, 2580), (date2, 3870)])
    );
    let from = |date| (JOURNAL, Rebuild { set_id: ec_set, from_date: Date(date) });
    assert_eq!(fixture.ledger.tables.rebuilt, vec![from(date1), from(date3)]);
}

#[test]
fn ec_effective_balances_converge() {
    let mut fixture = Fixture::new();
    fixture.ledger.effective_journals.insert(JOURNAL);
    let date = 612;
    for _ in 0..2 {
        fixture.ledger.post_on(date, SENDER, fixture.leaf);
    }
    fixture.ledger.run_job(&BalanceProjectorConfig::default()).unwrap();
    let effective = &fixture.ledger.tables.effective;
    assert_eq!(effective[&(JOURNAL, fixture.ec_set, BTC)], BTreeMap::from([(date, 2580)]));
    assert_eq!(effective[&(JOURNAL, fixture.ec_set, USD)], BTreeMap::from([(date, 200)]));
}

#[test]
fn journals_without_effective_balances_are_not_rebuilt() {
    let mut fixture = Fixture::new();
    fixture.post();
    fixture.ledger.run_job(&BalanceProjectorConfig::default()).unwrap();
    assert!(fixture.ledger.tables.rebuilt.is_empty());
}

#[test]
fn attached_subtree_converges() {
    let mut ledger = Ledger::new();
    let early = AccountId(0xa3);
    let child = ledger.new_ec_set(0x51);
    ledger.add_member(child, early);
    ledger.post(SENDER, early);
    ledger.run_job(&BalanceProjectorConfig::default()).unwrap();
    let child_before = ledger.find(account_of(child), BTC).unwrap();

    let parent = ledger.new_ec_set(0x50);
    let second_child = ledger.new_ec_set(0x52);
    let leaf = AccountId(0xa1);
    ledger.add_member(second_child, leaf);
    ledger.add_member(parent, leaf);
    for _ in 0..2 {
        ledger.post(SENDER, leaf);
    }
    ledger.run_job(&BalanceProjectorConfig::default()).unwrap();
    let leaf_bal = ledger.settled_credit(leaf, BTC);
    assert_eq!(ledger.settled_credit(account_of(second_child), BTC), leaf_bal);
    assert_eq!(ledger.settled_credit(account_of(parent), BTC), leaf_bal);
    assert_eq!(ledger.find(account_of(child), BTC).unwrap(), child_before);
}

#[test]
fn ec_projector_race_under_concurrency() {
    const N_MEMBERS: u128 = 8;
    const N_WRITERS: u128 = 8;
    const N_ITERATIONS: u128 = 4;
    const POSTS_PER_WRITER_PER_ITERATION: u128 = 6;
    const POST_AMOUNT: i128 = 7;
    let mut ledger = Ledger::new();
    let ec_set = ledger.new_ec_set(0x50);
    let members: Vec<AccountId> = (0..N_MEMBERS).map(|i| AccountId(0x100 + i)).collect();
    for member in &members {
        ledger.add_member(ec_set, *member);
    }
    let config = BalanceProjectorConfig { batch_size: 17, ..direct_config() };
    let mut state = ProjectorState::default();
    for iteration in 0..N_ITERATIONS {
        for writer in 0..N_WRITERS {
            for post in 0..POSTS_PER_WRITER_PER_ITERATION {
                let picked = (iteration * 31 + writer * 7 + post * 3) % N_MEMBERS;
                let recipient = members[picked as usize];
                ledger.post_entries(
                    JOURNAL,
                    0,
                    &[
                        (SENDER, USD, Layer::Settled, DebitOrCredit::Debit, POST_AMOUNT),
                        (recipient, USD, Layer::Settled, DebitOrCredit::Credit, POST_AMOUNT),
                    ],
                );
                ledger.run_single_batch(&config, &mut state).unwrap();
            }
        }
    }
    while ledger.run_single_batch(&config, &mut state).unwrap() > 0 {}
    let total_posts = (N_ITERATIONS * N_WRITERS * POSTS_PER_WRITER_PER_ITERATION) as i128;
    let expected_total = POST_AMOUNT * total_posts;
    assert_eq!(expected_total, 1344);
    let ec = account_of(ec_set);
    assert_eq!(ledger.settled_credit(ec, USD), expected_total);
    assert_eq!(ledger.find(ec, USD).unwrap().version as i128, total_posts);
    let sum_members: i128 = members
        .iter()
        .filter(|member| ledger.find(**member, USD).is_some())
        .map(|member| ledger.settled_credit(*member, USD))
        .sum();
    assert_eq!(sum_members, expected_total);
}

#[test]
fn ec_projector_hierarchy_race_under_concurrency() {
    let mut ledger = Ledger::new();
    let ec_set = ledger.new_ec_set(0x50);
    let parent_set = AccountSetId(0x51);
    let members: Vec<AccountId> = (0..8).map(|i| AccountId(0x100 + i)).collect();
    for member in &members {
        ledger.add_member(ec_set, *member);
        ledger.add_member(parent_set, *member);
    }
    for post in 0..192 {
        let recipient = members[(post * 5 + post / 7) % 8];
        ledger.post_entries(
            JOURNAL,
            0,
            &[
                (SENDER, USD, Layer::Settled, DebitOrCredit::Debit, 7),
                (recipient, USD, Layer::Settled, DebitOrCredit::Credit, 7),
            ],
        );
    }
    assert_eq!(ledger.settled_credit(account_of(parent_set), USD), 1344);
    ledger.run_job(&BalanceProjectorConfig::default()).unwrap();
    assert_eq!(ledger.settled_credit(account_of(ec_set), USD), 1344);
    assert_eq!(ledger.settled_credit(account_of(parent_set), USD), 1344);
}

#[test]
fn journals_of_a_batch_are_kept_apart() {
    let mut ledger = Ledger::new();
    let other = JournalId(0x11);
    let leaf = AccountId(0xa1);
    let ec_set = ledger.new_ec_set(0x50);
    ledger.add_member(ec_set, leaf);
    ledger.effective_journals.insert(other);
    let credit = |amount| (leaf, USD, Layer::Settled, DebitOrCredit::Credit, amount);
    ledger.post_entries(other, 3, &[credit(5)]);
    ledger.post_entries(JOURNAL, 4, &[credit(7)]);
    ledger.post_entries(other, 2, &[credit(9)]);
    let mut state = ProjectorState::default();
    ledger.run_single_batch(&direct_config(), &mut state).unwrap();
    let key = BalanceKey { account_id: account_of(ec_set), currency: USD };
    assert_eq!(ledger.tables.current[&(JOURNAL, key)].settled.cr_balance, units(7));
    assert_eq!(ledger.tables.current[&(other, key)].settled.cr_balance, units(14));
    assert_eq!(ledger.tables.current[&(other, key)].version, 2);
    assert_eq!(
        ledger.tables.rebuilt,
        vec![(other, Rebuild { set_id: ec_set, from_date: Date(2) })]
    );
}

#[test]
fn more_sets_than_a_page_holds_are_all_folded() {
    let mut ledger = Ledger::new();
    let leaf = AccountId(0xa1);
    for id in 0..250 {
        let set = ledger.new_ec_set(0x1000 + id);
        ledger.add_member(set, leaf);
    }
    ledger.post(SENDER, leaf);
    ledger.run_job(&BalanceProjectorConfig::default()).unwrap();
    for id in 0..250 {
        assert_eq!(ledger.settled_credit(AccountId(0x1000 + id), BTC), 1290);
    }
}

#[test]
fn a_balance_that_overflows_changes_nothing() {
    let mut ledger = Ledger::new();
    let leaf = AccountId(0xa1);
    let ec_set = ledger.new_ec_set(0x50);
    ledger.add_member(ec_set, leaf);
    let credit = |account, amount| (account, USD, Layer::Settled, DebitOrCredit::Credit, amount);
    ledger.post_entries(JOURNAL, 0, &[credit(leaf, MAX_MANTISSA)]);
    let second = AccountId(0xa2);
    ledger.add_member(ec_set, second);
    ledger.post_entries(JOURNAL, 0, &[credit(second, 1)]);
    let mut state = ProjectorState::default();
    assert!(ledger.run_single_batch(&direct_config(), &mut state).is_err());
    assert_eq!(state, ProjectorState::default());
    assert!(ledger.find(account_of(ec_set), USD).is_none());
    assert_eq!(ledger.tables.cursor, None);
}

#[test]
fn versions_add_up_even_where_a_sum_is_rounded() {
    let mut ledger = Ledger::new();
    let (leaf_a, leaf_b) = (AccountId(0xa1), AccountId(0xa2));
    let set_a = ledger.new_ec_set(0x51);
    let set_b = ledger.new_ec_set(0x52);
    let root = ledger.new_ec_set(0x50);
    for (set, leaf) in [(set_a, leaf_a), (set_b, leaf_b), (root, leaf_a), (root, leaf_b)] {
        ledger.add_member(set, leaf);
    }
    let credit = |account, amount| (account, USD, Layer::Settled, DebitOrCredit::Credit, amount);
    ledger.post_entries(JOURNAL, 0, &[credit(leaf_a, MAX_MANTISSA - 1), credit(leaf_b, 1)]);
    let Some(OutboxEventPayload::EntryCreated { entry }) = &mut ledger.outbox[2].payload else {
        panic!("the second entry is the third event");
    };
    entry.units = Amount { mantissa: 1, scale: 1 };
    ledger.run_job(&BalanceProjectorConfig::default()).unwrap();
    let find = |set| ledger.find(account_of(set), USD).unwrap();
    assert_eq!(find(set_a).settled.cr_balance, units(MAX_MANTISSA - 1));
    assert_eq!(find(set_b).settled.cr_balance, Amount { mantissa: 1, scale: 1 });
    assert_eq!(find(root).settled.cr_balance, units(MAX_MANTISSA - 1));
    assert_eq!(find(root).version, find(set_a).version + find(set_b).version);
}

#[test]
fn a_batch_without_entries_asks_for_the_cursor_alone() {
    let state = ProjectorState { sequence: 4 };
    let new_state = ProjectorState { sequence: 9 };
    let mut op = BatchOp::new(JOB, &state, &new_state, &Vec::new());
    assert!(matches!(op.stage(), BatchStage::AdvanceCursor));
    let cursor = op.cursor();
    assert_eq!((cursor.job_id, cursor.expected, cursor.new_state), (JOB, 4, new_state));
    op.on_cursor(1).unwrap();
    assert!(matches!(op.stage(), BatchStage::Advanced));
}

#[test]
fn the_swap_of_the_cursor_comes_last() {
    let mut fixture = Fixture::new();
    fixture.post();
    let mut run = SingleBatchRun::new(JOB, &fixture.seed, true);
    let batch = fixture.ledger.collect(&fixture.seed, run.collector(&direct_config()));
    let mut op = run.on_batch(&batch).unwrap();
    assert!(matches!(op.stage(), BatchStage::ListEcSets));
    let mut tables = fixture.ledger.tables.clone();
    fixture.ledger.fold(&mut tables, &mut op).unwrap();
    assert!(tables.current.contains_key(&(
        JOURNAL,
        BalanceKey { account_id: account_of(fixture.ec_set), currency: BTC }
    )));
    assert!(matches!(op.stage(), BatchStage::AdvanceCursor));
    assert!(op.on_cursor(0).is_err());
    assert!(matches!(op.stage(), BatchStage::AdvanceCursor));
    op.on_cursor(1).unwrap();
    assert!(matches!(op.stage(), BatchStage::Advanced));
}

#[test]
fn a_shutdown_ends_the_run() {
    let mut run = JobRun::new(JOB, Some(ProjectorState { sequence: 12 }));
    assert_eq!(run.step, RunStep::Collect);
    run.on_shutdown();
    assert_eq!(run.step, RunStep::RescheduleNow);
    assert_eq!(run.state, ProjectorState { sequence: 12 });
}

#[test]
fn a_run_without_a_state_begins_at_the_beginning() {
    let run = JobRun::new(JOB, None);
    assert_eq!(run.state, ProjectorState { sequence: 0 });
    let mut ledger = Ledger::new();
    ledger.run_job(&BalanceProjectorConfig::default()).unwrap();
    assert_eq!(ledger.tables.cursor, None);
}

#[test]
fn a_job_waits_for_its_first_event_and_a_single_batch_does_not() {
    let job = JobRun::new(JOB, None);
    assert_eq!(job.collector(&direct_config()).step(), CollectStep::AwaitNext);
    let single = SingleBatchRun::new(JOB, &ProjectorState::default(), true);
    assert_eq!(single.collector(&direct_config()).step(), CollectStep::AwaitNextOrIdle);
    let none = BalanceProjectorConfig { batch_size: 0, ..direct_config() };
    assert_eq!(job.collector(&none).step(), CollectStep::Finished);
    assert_eq!(single.collector(&none).step(), CollectStep::Finished);
}

#[test]
fn a_failure_names_the_service_that_was_asked() {
    let mut fixture = Fixture::new();
    fixture.post();
    let mut run = SingleBatchRun::new(JOB, &fixture.seed, true);
    let batch = fixture.ledger.collect(&fixture.seed, run.collector(&direct_config()));
    let mut op = run.on_batch(&batch).unwrap();
    let said = |op: &BatchOp| op.failed("gone".to_owned()).message();

    assert_eq!(said(&op), "ProjectorError - AccountSetError: gone");
    let mut ids = EcSetListing::<u8>::new().into_ids();
    ids.insert(fixture.ec_set);
    op.on_ec_sets(ids);
    assert!(matches!(op.stage(), BatchStage::FetchMappings { .. }));
    assert_eq!(said(&op), "ProjectorError - AccountSetError: gone");
    let mut mappings = AccountSetMappings::new();
    mappings.insert(fixture.leaf, vec![fixture.ec_set]);
    op.on_mappings(&mappings);
    assert!(matches!(op.stage(), BatchStage::LoadBalances { .. }));
    assert_eq!(said(&op), "ProjectorError - BalanceError: gone");
    assert!(op.on_balances(fixture.ledger.time(), BalanceMap::new()));
    assert!(matches!(op.stage(), BatchStage::InsertSnapshots { .. }));
    assert_eq!(said(&op), "ProjectorError - BalanceError: gone");
    op.on_inserted();
    assert!(matches!(op.stage(), BatchStage::FindJournal { .. }));
    assert_eq!(said(&op), "ProjectorError - JournalError: gone");
    op.on_journal(true);
    let mut dates = EffectiveDates::new();
    match op.stage() {
        BatchStage::FindTransactions { transaction_ids, .. } => {
            for id in transaction_ids {
                dates.insert(*id, Date(1));
            }
        }
        _ => panic!("the dates are asked for next"),
    }
    assert_eq!(said(&op), "ProjectorError - TransactionError: gone");
    op.on_transactions(&dates);
    assert!(matches!(op.stage(), BatchStage::RebuildEffective { .. }));
    assert_eq!(said(&op), "ProjectorError - BalanceError: gone");
    op.on_rebuilt();
    assert!(matches!(op.stage(), BatchStage::AdvanceCursor));
    assert_eq!(said(&op), "ProjectorError - Sqlx: gone");
}

#[test]
fn snapshots_keep_the_nanoseconds_of_their_operation() {
    let mut fixture = Fixture::new();
    fixture.post();
    let mut state = fixture.seed;
    fixture.ledger.run_single_batch(&direct_config(), &mut state).unwrap();
    let snapshot = fixture.ledger.find(account_of(fixture.ec_set), BTC).unwrap();
    assert_eq!(snapshot.created_at, fixture.ledger.time());
    assert_eq!(snapshot.modified_at.nanos, 1);
}
