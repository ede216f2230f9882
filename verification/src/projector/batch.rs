//! Projecting one batch inside one database operation.
//!
//! A [`BatchOp`] decides what the operation does next; whoever runs it does
//! that and reports what came back. The compare-and-swap of the cursor is the
//! last thing that it asks for.

use crate::balance::snapshot::BalanceSnapshot;
use crate::balance::store::{lists_balances, BalanceKey, BalanceMap};
use crate::primitives::{
    AccountId, AccountSetId, EntryValues, JobId, JournalId, Timestamp, TransactionId,
};
use crate::projector::effective::{
    dated, min_effective_dates, rebuilds_from, EffectiveDates, Rebuild,
};
use crate::projector::error::ProjectorError;
use crate::projector::fold::{
    all_fold, deliveries, fold_entries, folds_exactly, folds_without_rounding, snapshots_after,
};
use crate::projector::grouping::{
    account_ids, accounts_of, group_by_journal, groups_by_journal, journal_entries, journals,
    lemma_journals, transaction_ids, transactions_of, JournalBatch,
};
use crate::projector::mappings::{ec_mappings, set_accounts, AccountSetMappings, EcSetIds};
use crate::projector::ordered::{lists_accounts, lists_transactions};
use crate::projector::repo::ProjectorRepo;
use crate::projector::state::ProjectorState;
use vstd::prelude::*;

verus! {

/// What the operation does next.
pub enum BatchStage {
    /// List the eventually-consistent account sets.
    ListEcSets,
    /// Fetch the sets of these accounts, in the current journal.
    FetchMappings { account_ids: Vec<AccountId> },
    /// Load the current balances of these accounts of sets.
    LoadBalances { ec_mappings: AccountSetMappings, account_ids: Vec<AccountId> },
    /// Insert these snapshots.
    InsertSnapshots {
        ec_mappings: AccountSetMappings,
        snapshots: Vec<(BalanceKey, BalanceSnapshot)>,
    },
    /// Find out whether the journal has effective balances.
    FindJournal { ec_mappings: AccountSetMappings },
    /// Find the effective dates of these transactions.
    FindTransactions { ec_mappings: AccountSetMappings, transaction_ids: Vec<TransactionId> },
    /// Rebuild the effective balances of the set at `next`.
    RebuildEffective { rebuilds: Vec<Rebuild>, next: usize },
    /// Advance the cursor.
    AdvanceCursor,
    /// Nothing: the cursor is advanced, and the operation can be committed.
    Advanced,
}

/// What [`BatchStage`] stands for.
pub enum StageModel {
    ListEcSets,
    FetchMappings,
    LoadBalances { mappings: Map<AccountId, Seq<AccountSetId>> },
    InsertSnapshots {
        mappings: Map<AccountId, Seq<AccountSetId>>,
        snapshots: Map<BalanceKey, BalanceSnapshot>,
    },
    FindJournal { mappings: Map<AccountId, Seq<AccountSetId>> },
    FindTransactions { mappings: Map<AccountId, Seq<AccountSetId>> },
    RebuildEffective { rebuilds: Seq<Rebuild>, next: int },
    AdvanceCursor,
    Advanced,
}

/// Where an operation stands.
pub struct BatchModel {
    pub job_id: JobId,
    /// Where the cursor was when the batch was collected.
    pub expected: i64,
    /// Where the batch takes it.
    pub new_state: ProjectorState,
    /// The entries of the batch.
    pub entries: Seq<EntryValues>,
    /// The number of journals that are done.
    pub done: int,
    pub ec_set_ids: Set<AccountSetId>,
    pub stage: StageModel,
}

impl BatchModel {
    /// An operation that has done nothing yet. A batch without entries has
    /// nothing to fold.
    pub open spec fn start(
        job_id: JobId,
        state: ProjectorState,
        new_state: ProjectorState,
        entries: Seq<EntryValues>,
    ) -> BatchModel {
        BatchModel {
            job_id,
            expected: state.sequence,
            new_state,
            entries,
            done: 0,
            ec_set_ids: Set::empty(),
            stage: if entries.len() == 0 {
                StageModel::AdvanceCursor
            } else {
                StageModel::ListEcSets
            },
        }
    }

    /// The journal that is being folded.
    pub open spec fn journal_id(self) -> JournalId {
        journals(self.entries)[self.done]
    }

    /// The entries that are being folded.
    pub open spec fn current_entries(self) -> Seq<EntryValues> {
        journal_entries(self.entries, self.journal_id())
    }

    pub open spec fn at(self, stage: StageModel) -> BatchModel {
        BatchModel { stage, ..self }
    }

    /// On to the next journal, or to the cursor after the last.
    pub open spec fn next_journal(self) -> BatchModel {
        BatchModel {
            done: self.done + 1,
            stage: if self.done + 1 < journals(self.entries).len() {
                StageModel::FetchMappings
            } else {
                StageModel::AdvanceCursor
            },
            ..self
        }
    }

    /// The eventually-consistent sets are known.
    pub open spec fn after_ec_sets(self, ec_set_ids: Set<AccountSetId>) -> BatchModel {
        BatchModel { ec_set_ids, stage: StageModel::FetchMappings, ..self }
    }

    /// The sets of the accounts are known. A journal none of whose accounts is
    /// in an eventually-consistent set is done.
    pub open spec fn after_mappings(
        self,
        mappings: Map<AccountId, Seq<AccountSetId>>,
    ) -> BatchModel {
        let mappings = ec_mappings(mappings, self.ec_set_ids);
        if mappings.dom().is_empty() {
            self.next_journal()
        } else {
            self.at(StageModel::LoadBalances { mappings })
        }
    }

    /// The sets that the entries are folded into.
    pub open spec fn mappings(self) -> Map<AccountId, Seq<AccountSetId>> {
        match self.stage {
            StageModel::LoadBalances { mappings } => mappings,
            StageModel::InsertSnapshots { mappings, .. } => mappings,
            StageModel::FindJournal { mappings } => mappings,
            StageModel::FindTransactions { mappings } => mappings,
            _ => Map::empty(),
        }
    }

    /// Whether the entries can all be folded into these balances.
    pub open spec fn can_fold(
        self,
        time: Timestamp,
        balances: Map<BalanceKey, BalanceSnapshot>,
    ) -> bool {
        all_fold(time, balances, deliveries(self.current_entries(), self.mappings()))
    }

    /// Whether the entries, folded into these balances, add up.
    pub open spec fn can_fold_exactly(
        self,
        time: Timestamp,
        balances: Map<BalanceKey, BalanceSnapshot>,
    ) -> bool {
        folds_exactly(time, balances, deliveries(self.current_entries(), self.mappings()))
    }

    /// Whether the entries can all be folded into these balances without
    /// rounding.
    pub open spec fn folds_without_rounding(
        self,
        time: Timestamp,
        balances: Map<BalanceKey, BalanceSnapshot>,
    ) -> bool {
        folds_without_rounding(time, balances, deliveries(self.current_entries(), self.mappings()))
    }

    /// The current balances are known: the entries are folded into them.
    pub open spec fn after_balances(
        self,
        time: Timestamp,
        balances: Map<BalanceKey, BalanceSnapshot>,
    ) -> BatchModel {
        self.at(
            StageModel::InsertSnapshots {
                mappings: self.mappings(),
                snapshots: snapshots_after(
                    time,
                    balances,
                    deliveries(self.current_entries(), self.mappings()),
                ),
            },
        )
    }

    /// The snapshots are inserted.
    pub open spec fn after_insert(self) -> BatchModel {
        self.at(StageModel::FindJournal { mappings: self.mappings() })
    }

    /// It is known whether the journal has effective balances. One that has
    /// none is done.
    pub open spec fn after_journal(self, insert_effective_balances: bool) -> BatchModel {
        if insert_effective_balances {
            self.at(StageModel::FindTransactions { mappings: self.mappings() })
        } else {
            self.next_journal()
        }
    }

    /// The effective dates are known, and with them what is rebuilt.
    pub open spec fn after_transactions(self, rebuilds: Seq<Rebuild>) -> BatchModel {
        if rebuilds.len() == 0 {
            self.next_journal()
        } else {
            self.at(StageModel::RebuildEffective { rebuilds, next: 0 })
        }
    }

    /// One set is rebuilt.
    pub open spec fn after_rebuild(self) -> BatchModel {
        match self.stage {
            StageModel::RebuildEffective { rebuilds, next } => if next + 1 < rebuilds.len() {
                self.at(StageModel::RebuildEffective { rebuilds, next: next + 1 })
            } else {
                self.next_journal()
            },
            _ => self,
        }
    }

    /// The error that the operation fails with, where the service that it asks
    /// fails for `cause`.
    pub open spec fn failure(self, cause: String) -> ProjectorError {
        match self.stage {
            StageModel::ListEcSets | StageModel::FetchMappings => ProjectorError::AccountSetError(
                cause,
            ),
            StageModel::LoadBalances { .. } | StageModel::InsertSnapshots { .. }
            | StageModel::RebuildEffective { .. } => ProjectorError::BalanceError(cause),
            StageModel::FindJournal { .. } => ProjectorError::JournalError(cause),
            StageModel::FindTransactions { .. } => ProjectorError::TransactionError(cause),
            StageModel::AdvanceCursor | StageModel::Advanced => ProjectorError::Sqlx(cause),
        }
    }

    /// Whether the operation folds a journal.
    pub open spec fn in_journal(self) -> bool {
        match self.stage {
            StageModel::ListEcSets | StageModel::AdvanceCursor | StageModel::Advanced => false,
            _ => true,
        }
    }
}

/// A compare-and-swap of a job's cursor.
#[derive(Clone, Copy, Debug, PartialEq, Eq, Structural)]
pub struct CursorAdvance {
    pub job_id: JobId,
    pub expected: i64,
    pub new_state: ProjectorState,
}

/// One batch, projected inside one database operation.
pub struct BatchOp {
    job_id: JobId,
    expected: i64,
    new_state: ProjectorState,
    groups: Vec<JournalBatch>,
    done: usize,
    ec_set_ids: EcSetIds,
    stage: BatchStage,
    entries: Ghost<Seq<EntryValues>>,
}

impl View for BatchStage {
    type V = StageModel;

    open spec fn view(&self) -> StageModel {
        match self {
            BatchStage::ListEcSets => StageModel::ListEcSets,
            BatchStage::FetchMappings { .. } => StageModel::FetchMappings,
            BatchStage::LoadBalances { ec_mappings, .. } => StageModel::LoadBalances {
                mappings: ec_mappings@,
            },
            BatchStage::InsertSnapshots { ec_mappings, snapshots } => StageModel::InsertSnapshots {
                mappings: ec_mappings@,
                snapshots: listed_balances(snapshots@),
            },
            BatchStage::FindJournal { ec_mappings } => StageModel::FindJournal {
                mappings: ec_mappings@,
            },
            BatchStage::FindTransactions { ec_mappings, .. } => StageModel::FindTransactions {
                mappings: ec_mappings@,
            },
            BatchStage::RebuildEffective { rebuilds, next } => StageModel::RebuildEffective {
                rebuilds: rebuilds@,
                next: *next as int,
            },
            BatchStage::AdvanceCursor => StageModel::AdvanceCursor,
            BatchStage::Advanced => StageModel::Advanced,
        }
    }
}

/// The map that `listed` lists.
pub open spec fn listed_balances(listed: Seq<(BalanceKey, BalanceSnapshot)>) -> Map<
    BalanceKey,
    BalanceSnapshot,
> {
    Map::new(
        |key: BalanceKey| exists|i: int| 0 <= i < listed.len() && #[trigger] listed[i].0 == key,
        |key: BalanceKey|
            listed[choose|i: int| 0 <= i < listed.len() && #[trigger] listed[i].0 == key].1,
    )
}

/// A list of a map stands for that map.
proof fn lemma_listed_balances(
    listed: Seq<(BalanceKey, BalanceSnapshot)>,
    of: Map<BalanceKey, BalanceSnapshot>,
)
    requires
        lists_balances(listed, of),
    ensures
        listed_balances(listed) == of,
{
    let map = listed_balances(listed);
    assert forall|key: BalanceKey| map.contains_key(key) <==> of.contains_key(key) by {
        if map.contains_key(key) {
            let i = choose|i: int| 0 <= i < listed.len() && #[trigger] listed[i].0 == key;
            assert(of.contains_key(listed[i].0));
        }
    }
    assert forall|key: BalanceKey| map.contains_key(key) implies map[key] == of[key] by {
        let i = choose|i: int| 0 <= i < listed.len() && #[trigger] listed[i].0 == key;
        assert(of[listed[i].0] == listed[i].1);
    }
    assert(map =~= of);
}

impl BatchStage {
    /// Whether what is asked for is listed in order, and is what an operation
    /// that stands at `model` asks for.
    pub open spec fn asks_for(&self, model: BatchModel) -> bool {
        match self {
            BatchStage::FetchMappings { account_ids } => lists_accounts(
                account_ids@,
                accounts_of(model.current_entries()),
            ),
            BatchStage::LoadBalances { ec_mappings, account_ids } => lists_accounts(
                account_ids@,
                set_accounts(ec_mappings@),
            ),
            BatchStage::InsertSnapshots { snapshots, .. } => lists_balances(
                snapshots@,
                listed_balances(snapshots@),
            ),
            BatchStage::FindTransactions { transaction_ids, .. } => lists_transactions(
                transaction_ids@,
                transactions_of(model.current_entries()),
            ),
            BatchStage::RebuildEffective { rebuilds, next } => *next < rebuilds@.len(),
            _ => true,
        }
    }
}

impl View for BatchOp {
    type V = BatchModel;

    closed spec fn view(&self) -> BatchModel {
        BatchModel {
            job_id: self.job_id,
            expected: self.expected,
            new_state: self.new_state,
            entries: self.entries@,
            done: self.done as int,
            ec_set_ids: self.ec_set_ids@,
            stage: self.stage@,
        }
    }
}

impl BatchOp {
    /// Whether the operation is in a state that it can come to.
    pub closed spec fn well_formed(&self) -> bool {
        &&& groups_by_journal(self.groups@, self.entries@)
        &&& self.done <= self.groups@.len()
        &&& self@.in_journal() || self@.stage is ListEcSets ==> self.done < self.groups@.len()
        &&& self.stage.asks_for(self@)
    }

    /// An operation that projects `entries` and takes the cursor of `job_id`
    /// from `state` to `new_state`.
    pub fn new(
        job_id: JobId,
        state: &ProjectorState,
        new_state: &ProjectorState,
        entries: &Vec<EntryValues>,
    ) -> (op: BatchOp)
        ensures
            op.well_formed(),
            op@ == BatchModel::start(job_id, *state, *new_state, entries@),
    {
        let groups: Vec<JournalBatch> = group_by_journal(entries);
        proof {
            lemma_journals(entries@);
            if entries@.len() > 0 {
                assert(entries@[0].journal_id == entries@[0].journal_id);
                assert(journals(entries@).contains(entries@[0].journal_id));
            }
        }
        let ec_set_ids = EcSetIds::new();
        let stage = if entries.len() == 0 {
            BatchStage::AdvanceCursor
        } else {
            BatchStage::ListEcSets
        };
        BatchOp {
            job_id,
            expected: state.sequence,
            new_state: *new_state,
            groups,
            done: 0,
            ec_set_ids,
            stage,
            entries: Ghost(entries@),
        }
    }

    /// What the operation does next.
    pub fn stage(&self) -> (stage: &BatchStage)
        requires
            self.well_formed(),
        ensures
            stage@ == self@.stage,
            stage.asks_for(self@),
    {
        &self.stage
    }

    /// The journal that is being folded.
    pub fn journal_id(&self) -> (journal_id: JournalId)
        requires
            self.well_formed(),
            self@.in_journal(),
        ensures
            journal_id == self@.journal_id(),
    {
        self.groups[self.done].journal_id
    }

    /// The compare-and-swap of the cursor: of which job, from where, to where.
    pub fn cursor(&self) -> (cursor: CursorAdvance)
        ensures
            cursor.job_id == self@.job_id,
            cursor.expected == self@.expected,
            cursor.new_state == self@.new_state,
    {
        CursorAdvance {
            job_id: self.job_id,
            expected: self.expected,
            new_state: self.new_state,
        }
    }

    /// What the operation asked for has failed for `cause`: the error names the
    /// service that was asked. After the last journal that is the database
    /// itself, for the swap of the cursor and then for the commit.
    pub fn failed(&self, cause: String) -> (error: ProjectorError)
        ensures
            error == self@.failure(cause),
    {
        match &self.stage {
            BatchStage::ListEcSets | BatchStage::FetchMappings { .. } => {
                ProjectorError::AccountSetError(cause)
            },
            BatchStage::LoadBalances { .. } | BatchStage::InsertSnapshots { .. }
            | BatchStage::RebuildEffective { .. } => ProjectorError::BalanceError(cause),
            BatchStage::FindJournal { .. } => ProjectorError::JournalError(cause),
            BatchStage::FindTransactions { .. } => ProjectorError::TransactionError(cause),
            BatchStage::AdvanceCursor | BatchStage::Advanced => ProjectorError::Sqlx(cause),
        }
    }

    /// On to the next journal, or to the cursor after the last.
    fn next_journal(&mut self)
        requires
            old(self).well_formed(),
            old(self).done < old(self).groups@.len(),
        ensures
            final(self).well_formed(),
            final(self)@ == old(self)@.next_journal(),
    {
        let count: usize = self.groups.len();
        self.done += 1;
        if self.done < count {
            let account_ids: Vec<AccountId> = account_ids(&self.groups[self.done].entries);
            self.stage = BatchStage::FetchMappings { account_ids };
        } else {
            self.stage = BatchStage::AdvanceCursor;
        }
    }

    /// The eventually-consistent sets have been listed.
    pub fn on_ec_sets(&mut self, ec_set_ids: EcSetIds)
        requires
            old(self).well_formed(),
            old(self)@.stage is ListEcSets,
        ensures
            final(self).well_formed(),
            final(self)@ == old(self)@.after_ec_sets(ec_set_ids@),
    {
        let account_ids: Vec<AccountId> = account_ids(&self.groups[self.done].entries);
        self.ec_set_ids = ec_set_ids;
        self.stage = BatchStage::FetchMappings { account_ids };
    }

    /// The sets of the accounts have been fetched.
    pub fn on_mappings(&mut self, mappings: &AccountSetMappings)
        requires
            old(self).well_formed(),
            old(self)@.stage is FetchMappings,
        ensures
            final(self).well_formed(),
            final(self)@ == old(self)@.after_mappings(mappings@),
    {
        let ec_mappings = mappings.keep_ec(&self.ec_set_ids);
        if ec_mappings.is_empty() {
            self.next_journal();
        } else {
            let account_ids: Vec<AccountId> = ec_mappings.set_account_ids();
            self.stage = BatchStage::LoadBalances { ec_mappings, account_ids };
        }
    }

    /// The current balances have been loaded, at `time`. `false`, and nothing
    /// has changed, where some entry cannot be folded into them.
    pub fn on_balances(&mut self, time: Timestamp, balances: BalanceMap) -> (folded: bool)
        requires
            old(self).well_formed(),
            old(self)@.stage is LoadBalances,
        ensures
            final(self).well_formed(),
            folded == old(self)@.can_fold(time, balances@),
            old(self)@.folds_without_rounding(time, balances@) ==> folded,
            folded ==> old(self)@.can_fold_exactly(time, balances@),
            final(self)@ == if folded {
                old(self)@.after_balances(time, balances@)
            } else {
                old(self)@
            },
    {
        let mut stage = BatchStage::AdvanceCursor;
        std::mem::swap(&mut self.stage, &mut stage);
        match stage {
            BatchStage::LoadBalances { ec_mappings, account_ids } => {
                let entries = &self.groups[self.done].entries;
                match fold_entries(time, entries, &ec_mappings, balances) {
                    Some(snapshots) => {
                        proof {
                            lemma_listed_balances(
                                snapshots@,
                                snapshots_after(
                                    time,
                                    balances@,
                                    deliveries(entries@, ec_mappings@),
                                ),
                            );
                        }
                        self.stage = BatchStage::InsertSnapshots { ec_mappings, snapshots };
                        true
                    },
                    None => {
                        self.stage = BatchStage::LoadBalances { ec_mappings, account_ids };
                        false
                    },
                }
            },
            _ => false,
        }
    }

    /// The snapshots have been inserted.
    pub fn on_inserted(&mut self)
        requires
            old(self).well_formed(),
            old(self)@.stage is InsertSnapshots,
        ensures
            final(self).well_formed(),
            final(self)@ == old(self)@.after_insert(),
    {
        let mut stage = BatchStage::AdvanceCursor;
        std::mem::swap(&mut self.stage, &mut stage);
        if let BatchStage::InsertSnapshots { ec_mappings, snapshots: _ } = stage {
            self.stage = BatchStage::FindJournal { ec_mappings };
        }
    }

    /// The journal has been found.
    pub fn on_journal(&mut self, insert_effective_balances: bool)
        requires
            old(self).well_formed(),
            old(self)@.stage is FindJournal,
        ensures
            final(self).well_formed(),
            final(self)@ == old(self)@.after_journal(insert_effective_balances),
    {
        if !insert_effective_balances {
            self.next_journal();
            return ;
        }
        let mut stage = BatchStage::AdvanceCursor;
        std::mem::swap(&mut self.stage, &mut stage);
        if let BatchStage::FindJournal { ec_mappings } = stage {
            let transaction_ids: Vec<TransactionId> = transaction_ids(
                &self.groups[self.done].entries,
            );
            self.stage = BatchStage::FindTransactions { ec_mappings, transaction_ids };
        }
    }

    /// The effective dates of the transactions have been found.
    pub fn on_transactions(&mut self, dates: &EffectiveDates)
        requires
            old(self).well_formed(),
            old(self)@.stage is FindTransactions,
            dated(old(self)@.current_entries(), dates@),
        ensures
            final(self).well_formed(),
            exists|rebuilds: Seq<Rebuild>|
                {
                    &&& rebuilds_from(
                        rebuilds,
                        deliveries(old(self)@.current_entries(), old(self)@.mappings()),
                        dates@,
                    )
                    &&& final(self)@ == #[trigger] old(self)@.after_transactions(rebuilds)
                },
    {
        let mut stage = BatchStage::AdvanceCursor;
        std::mem::swap(&mut self.stage, &mut stage);
        if let BatchStage::FindTransactions { ec_mappings, transaction_ids: _ } = stage {
            let rebuilds: Vec<Rebuild> = min_effective_dates(
                &self.groups[self.done].entries,
                &ec_mappings,
                dates,
            );
            if rebuilds.len() == 0 {
                self.next_journal();
            } else {
                self.stage = BatchStage::RebuildEffective { rebuilds, next: 0 };
            }
            assert(self@ == old(self)@.after_transactions(rebuilds@));
        }
    }

    /// The effective balances of one set have been rebuilt.
    pub fn on_rebuilt(&mut self)
        requires
            old(self).well_formed(),
            old(self)@.stage is RebuildEffective,
        ensures
            final(self).well_formed(),
            final(self)@ == old(self)@.after_rebuild(),
    {
        let mut stage = BatchStage::AdvanceCursor;
        std::mem::swap(&mut self.stage, &mut stage);
        if let BatchStage::RebuildEffective { rebuilds, next } = stage {
            let count: usize = rebuilds.len();
            if next + 1 < count {
                self.stage = BatchStage::RebuildEffective { rebuilds, next: next + 1 };
            } else {
                self.next_journal();
            }
        }
    }

    /// The compare-and-swap of the cursor has changed so many rows.
    pub fn on_cursor(&mut self, rows_affected: u64) -> (advanced: Result<(), ProjectorError>)
        requires
            old(self).well_formed(),
            old(self)@.stage is AdvanceCursor,
            rows_affected <= 1,
        ensures
            final(self).well_formed(),
            rows_affected == 1 ==> advanced == Ok::<(), ProjectorError>(()) && final(self)@ == old(
                self,
            )@.at(StageModel::Advanced),
            rows_affected == 0 ==> advanced == Err::<(), ProjectorError>(
                ProjectorError::CursorFenced {
                    job_id: old(self)@.job_id,
                    expected: old(self)@.expected,
                },
            ) && final(self)@ == old(self)@,
    {
        let advanced = ProjectorRepo::cursor_advanced(rows_affected, self.job_id, self.expected);
        if advanced.is_ok() {
            self.stage = BatchStage::Advanced;
        }
        advanced
    }
}

} // verus!
