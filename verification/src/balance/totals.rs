//! What a snapshot says of the entries alone.

use crate::balance::amount::decimal_sum;
use crate::balance::snapshot::{BalanceAmount, BalanceSnapshot};
use crate::primitives::{EntryValues, Layer, Timestamp};
use crate::projector::fold::fold_all;
use vstd::prelude::*;

verus! {

/// The layers and the version of a snapshot: what remains of it once the
/// times at which it was written are set aside.
pub struct Totals {
    pub version: u32,
    pub settled: BalanceAmount,
    pub pending: BalanceAmount,
    pub encumbrance: BalanceAmount,
}

impl BalanceSnapshot {
    /// The totals of the snapshot.
    pub open spec fn totals(self) -> Totals {
        Totals {
            version: self.version,
            settled: self.settled,
            pending: self.pending,
            encumbrance: self.encumbrance,
        }
    }
}

impl Totals {
    /// The totals of no entries.
    pub open spec fn zero() -> Totals {
        Totals {
            version: 0,
            settled: BalanceAmount::spec_zero(),
            pending: BalanceAmount::spec_zero(),
            encumbrance: BalanceAmount::spec_zero(),
        }
    }

    /// The layer that `layer` names.
    pub open spec fn layer(self, layer: Layer) -> BalanceAmount {
        match layer {
            Layer::Settled => self.settled,
            Layer::Pending => self.pending,
            Layer::Encumbrance => self.encumbrance,
        }
    }

    /// The totals with another value of the layer that `layer` names.
    pub open spec fn with_layer(self, layer: Layer, amount: BalanceAmount) -> Totals {
        match layer {
            Layer::Settled => Totals { settled: amount, ..self },
            Layer::Pending => Totals { pending: amount, ..self },
            Layer::Encumbrance => Totals { encumbrance: amount, ..self },
        }
    }

    /// The totals once `entry` is posted, or `None` where it cannot be.
    pub open spec fn after(self, entry: EntryValues) -> Option<Totals> {
        let layer = self.layer(entry.layer);
        match decimal_sum(layer.side(entry.direction), entry.units) {
            Some(sum) if self.version < u32::MAX => Some(
                Totals {
                    version: (self.version + 1) as u32,
                    ..self.with_layer(entry.layer, layer.with_side(entry.direction, sum))
                },
            ),
            _ => None,
        }
    }

    /// The totals once `entries` are posted one by one, or `None` where one of
    /// them cannot be.
    pub open spec fn after_all(self, entries: Seq<EntryValues>) -> Option<Totals>
        decreases entries.len(),
    {
        if entries.len() == 0 {
            Some(self)
        } else {
            match self.after_all(entries.drop_last()) {
                Some(totals) => totals.after(entries.last()),
                None => None,
            }
        }
    }
}

/// Folding entries into a snapshot posts them to its totals, whenever that
/// happens.
pub proof fn lemma_fold_posts(time: Timestamp, snapshot: BalanceSnapshot, entries: Seq<EntryValues>)
    ensures
        match fold_all(time, snapshot, entries) {
            Some(folded) => snapshot.totals().after_all(entries) == Some(folded.totals()),
            None => snapshot.totals().after_all(entries) is None,
        },
    decreases entries.len(),
{
    if entries.len() > 0 {
        lemma_fold_posts(time, snapshot, entries.drop_last());
    }
}

/// Posting in two goes is posting at once.
pub proof fn lemma_after_all_add(totals: Totals, a: Seq<EntryValues>, b: Seq<EntryValues>)
    ensures
        totals.after_all(a + b) == match totals.after_all(a) {
            Some(posted) => posted.after_all(b),
            None => None,
        },
    decreases b.len(),
{
    if b.len() == 0 {
        assert(a + b =~= a);
    } else {
        assert((a + b).drop_last() =~= a + b.drop_last());
        lemma_after_all_add(totals, a, b.drop_last());
    }
}

/// The version grows by one with every entry.
pub proof fn lemma_version_counts(totals: Totals, entries: Seq<EntryValues>)
    requires
        totals.after_all(entries) is Some,
    ensures
        totals.after_all(entries)->0.version == totals.version + entries.len(),
    decreases entries.len(),
{
    if entries.len() > 0 {
        lemma_version_counts(totals, entries.drop_last());
    }
}

} // verus!
