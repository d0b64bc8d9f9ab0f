use vstd::prelude::*;
use vstd::pervasive::VecAdditionalExecFns;
use crate::amount::Amount;
use crate::error::{
    build_amount_not_empty, build_missing_amount, build_unknown_type, msg_amount_not_empty,
    msg_missing_amount, msg_unknown_type, EngineError,
};
use crate::record::Record;
use crate::text::ascii_seq;

verus! {

/// Transaction identifier, unique within one account's history.
pub type TxId = u16;

/// Reserved id for the internal close control event; never a real transaction.
pub const CLOSE_TX_ID: TxId = 65535;

/// What one input record asks for.
#[derive(Clone, Copy, PartialEq, Eq, Structural, Debug)]
pub enum TxAction {
    Deposit(Amount),
    Withdrawal(Amount),
    Dispute,
    Resolve,
    Chargeback,
    Close,
}

/// The disputable outcome a deposit leaves in the history.
#[derive(Clone, Copy, PartialEq, Eq, Structural, Debug)]
pub enum TxResult {
    Deposited(Amount),
    Disputed(Amount),
}

/// One event addressed to one account.
#[derive(Clone, Copy, PartialEq, Eq, Structural, Debug)]
pub struct TransactionInfo {
    pub id: TxId,
    pub tx: TxAction,
}

// ---------------------------------------------------------------------------
// History: transaction id -> disputable outcome, for one account.
// ---------------------------------------------------------------------------
/// Index of the entry for `id`, or -1 when there is none.
pub open spec fn tx_find(h: Seq<(TxId, TxResult)>, id: TxId) -> int
    decreases h.len(),
{
    if h.len() == 0 {
        -1
    } else if h[0].0 == id {
        0
    } else {
        let r = tx_find(h.skip(1), id);
        if r < 0 {
            -1
        } else {
            r + 1
        }
    }
}

pub proof fn lemma_tx_find(h: Seq<(TxId, TxResult)>, id: TxId)
    ensures
        tx_find(h, id) == -1 <==> (forall|i: int| 0 <= i < h.len() ==> h[i].0 != id),
        tx_find(h, id) != -1 ==> 0 <= tx_find(h, id) < h.len() && h[tx_find(h, id)].0 == id && (
        forall|i: int| 0 <= i < tx_find(h, id) ==> h[i].0 != id),
    decreases h.len(),
{
    if h.len() == 0 {
    } else if h[0].0 == id {
    } else {
        lemma_tx_find(h.skip(1), id);
        let r = tx_find(h.skip(1), id);
        assert(forall|i: int| 0 <= i < h.skip(1).len() ==> h.skip(1)[i] == h[i + 1]);
        if r < 0 {
            assert forall|i: int| 0 <= i < h.len() implies h[i].0 != id by {
                if i > 0 {
                    assert(h.skip(1)[i - 1] == h[i]);
                }
            }
        } else {
            assert(h.skip(1)[r] == h[r + 1]);
            assert forall|i: int| 0 <= i < r + 1 implies h[i].0 != id by {
                if i > 0 {
                    assert(h.skip(1)[i - 1] == h[i]);
                }
            }
        }
    }
}

/// The entry recorded for `id`, if any.
pub open spec fn tx_lookup(h: Seq<(TxId, TxResult)>, id: TxId) -> Option<TxResult> {
    if tx_find(h, id) < 0 {
        None
    } else {
        Some(h[tx_find(h, id)].1)
    }
}

/// The history after recording `e` under `id` (replacing any old entry).
pub open spec fn tx_set(h: Seq<(TxId, TxResult)>, id: TxId, e: TxResult) -> Seq<(TxId, TxResult)> {
    if tx_find(h, id) < 0 {
        h.push((id, e))
    } else {
        h.update(tx_find(h, id), (id, e))
    }
}

/// The history after erasing the entry for `id`, if present.
pub open spec fn tx_remove(h: Seq<(TxId, TxResult)>, id: TxId) -> Seq<(TxId, TxResult)> {
    if tx_find(h, id) < 0 {
        h
    } else {
        h.remove(tx_find(h, id))
    }
}

/// Each id maps to at most one entry.
pub open spec fn unique_ids(h: Seq<(TxId, TxResult)>) -> bool {
    forall|i: int, j: int| 0 <= i < j < h.len() ==> h[i].0 != h[j].0
}

/// How much one entry contributes to the held funds.
pub open spec fn entry_weight(e: (TxId, TxResult)) -> nat {
    match e.1 {
        TxResult::Disputed(a) => a.units as nat,
        TxResult::Deposited(_) => 0,
    }
}

/// Sum of all disputed amounts in the history.
pub open spec fn disputed_total(h: Seq<(TxId, TxResult)>) -> nat
    decreases h.len(),
{
    if h.len() == 0 {
        0
    } else {
        disputed_total(h.drop_last()) + entry_weight(h.last())
    }
}

pub proof fn lemma_disputed_total_update(h: Seq<(TxId, TxResult)>, i: int, p: (TxId, TxResult))
    requires
        0 <= i < h.len(),
    ensures
        disputed_total(h.update(i, p)) + entry_weight(h[i]) == disputed_total(h) + entry_weight(p),
    decreases h.len(),
{
    let u = h.update(i, p);
    if i == h.len() - 1 {
        assert(u.drop_last() =~= h.drop_last());
        assert(u.last() == p);
    } else {
        assert(u.drop_last() =~= h.drop_last().update(i, p));
        assert(u.last() == h.last());
        lemma_disputed_total_update(h.drop_last(), i, p);
    }
}

pub proof fn lemma_disputed_total_push(h: Seq<(TxId, TxResult)>, p: (TxId, TxResult))
    ensures
        disputed_total(h.push(p)) == disputed_total(h) + entry_weight(p),
{
    assert(h.push(p).drop_last() =~= h);
    assert(h.push(p).last() == p);
}

pub proof fn lemma_disputed_total_remove(h: Seq<(TxId, TxResult)>, i: int)
    requires
        0 <= i < h.len(),
    ensures
        disputed_total(h.remove(i)) + entry_weight(h[i]) == disputed_total(h),
    decreases h.len(),
{
    let u = h.remove(i);
    if i == h.len() - 1 {
        assert(u =~= h.drop_last());
    } else {
        assert(u.drop_last() =~= h.drop_last().remove(i));
        assert(u.last() == h.last());
        lemma_disputed_total_remove(h.drop_last(), i);
    }
}

pub proof fn lemma_entry_weight_le_total(h: Seq<(TxId, TxResult)>, i: int)
    requires
        0 <= i < h.len(),
    ensures
        entry_weight(h[i]) <= disputed_total(h),
    decreases h.len(),
{
    if i == h.len() - 1 {
    } else {
        lemma_entry_weight_le_total(h.drop_last(), i);
    }
}

pub proof fn lemma_unique_set(h: Seq<(TxId, TxResult)>, id: TxId, e: TxResult)
    requires
        unique_ids(h),
    ensures
        unique_ids(tx_set(h, id, e)),
        tx_lookup(tx_set(h, id, e), id) == Some(e),
{
    lemma_tx_find(h, id);
    let f = tx_find(h, id);
    let u = tx_set(h, id, e);
    if f < 0 {
        assert(u == h.push((id, e)));
        assert forall|i: int, j: int| 0 <= i < j < u.len() implies u[i].0 != u[j].0 by {
            if j < h.len() {
            } else {
                assert(u[j] == (id, e));
                assert(h[i].0 != id);
            }
        }
        lemma_tx_find(u, id);
        let g = tx_find(u, id);
        if g == -1 {
            assert(u[h.len() as int].0 == id);
            assert(false);
        }
        if g < h.len() {
            assert(u[g] == h[g]);
            assert(false);
        }
        assert(u[g] == (id, e));
    } else {
        assert forall|i: int, j: int| 0 <= i < j < u.len() implies u[i].0 != u[j].0 by {
            assert(h[i].0 != h[j].0);
        }
        lemma_tx_find(u, id);
        let g = tx_find(u, id);
        if g == -1 {
            assert(u[f].0 == id);
            assert(false);
        }
        if g < f {
            assert(u[g] == h[g]);
            assert(false);
        }
        if g > f {
            assert(u[f].0 == id);
            assert(false);
        }
        assert(u[g] == (id, e));
    }
}

pub proof fn lemma_unique_remove(h: Seq<(TxId, TxResult)>, id: TxId)
    requires
        unique_ids(h),
    ensures
        unique_ids(tx_remove(h, id)),
        tx_lookup(tx_remove(h, id), id) is None,
{
    lemma_tx_find(h, id);
    let f = tx_find(h, id);
    let u = tx_remove(h, id);
    if f < 0 {
        lemma_tx_find(u, id);
    } else {
        assert(forall|i: int|
            0 <= i < u.len() ==> u[i] == (if i < f {
                h[i]
            } else {
                h[i + 1]
            }));
        assert forall|i: int, j: int| 0 <= i < j < u.len() implies u[i].0 != u[j].0 by {}
        lemma_tx_find(u, id);
        let g = tx_find(u, id);
        if g != -1 {
            if g < f {
                assert(u[g] == h[g]);
                assert(false);
            } else {
                assert(u[g] == h[g + 1]);
                assert(h[f].0 == id);
                assert(false);
            }
        }
    }
}

/// The per-account history map: deposits that can still be disputed and
/// disputes awaiting resolution.
#[derive(Debug)]
pub struct Transactions {
    entries: Vec<(TxId, TxResult)>,
}

impl View for Transactions {
    type V = Seq<(TxId, TxResult)>;

    closed spec fn view(&self) -> Seq<(TxId, TxResult)> {
        self.entries@
    }
}

impl Transactions {
    pub fn new() -> (t: Transactions)
        ensures
            t@.len() == 0,
            unique_ids(t@),
    {
        Transactions { entries: Vec::new() }
    }

    fn position(&self, id: TxId) -> (r: Option<usize>)
        ensures
            match r {
                Some(i) => 0 <= i < self@.len() && tx_find(self@, id) == i,
                None => tx_find(self@, id) == -1,
            },
    {
        let ghost h = self@;
        let mut i: usize = 0;
        while i < self.entries.len()
            invariant
                0 <= i <= h.len(),
                h == self@,
                forall|j: int| 0 <= j < i ==> h[j].0 != id,
            decreases h.len() - i,
        {
            if self.entries[i].0 == id {
                proof {
                    lemma_tx_find(h, id);
                    let f = tx_find(h, id);
                    if f == -1 {
                        assert(false);
                    }
                    if f < i {
                        assert(h[f].0 == id);
                        assert(false);
                    }
                    if f > i {
                        assert(false);
                    }
                }
                return Some(i);
            }
            i += 1;
        }
        proof {
            lemma_tx_find(h, id);
            if tx_find(h, id) != -1 {
                assert(h[tx_find(h, id)].0 == id);
                assert(false);
            }
        }
        None
    }

    /// The entry currently recorded for `id`.
    pub fn get(&self, id: TxId) -> (r: Option<TxResult>)
        ensures
            r == tx_lookup(self@, id),
    {
        match self.position(id) {
            Some(i) => Some(self.entries[i].1),
            None => None,
        }
    }

    /// Records `e` under `id`, replacing any earlier entry.
    pub fn insert(&mut self, id: TxId, e: TxResult)
        requires
            unique_ids(old(self)@),
        ensures
            final(self)@ == tx_set(old(self)@, id, e),
            unique_ids(final(self)@),
    {
        proof {
            lemma_unique_set(old(self)@, id, e);
        }
        match self.position(id) {
            Some(i) => {
                self.entries.set(i, (id, e));
            },
            None => {
                self.entries.push((id, e));
            },
        }
    }

    /// Erases the entry for `id`, if present.
    pub fn remove(&mut self, id: TxId)
        requires
            unique_ids(old(self)@),
        ensures
            final(self)@ == tx_remove(old(self)@, id),
            unique_ids(final(self)@),
    {
        proof {
            lemma_unique_remove(old(self)@, id);
        }
        match self.position(id) {
            Some(i) => {
                self.entries.remove(i);
            },
            None => {},
        }
    }
}

// ---------------------------------------------------------------------------
// Classifying a record into an action.
// ---------------------------------------------------------------------------
pub open spec fn kw_deposit() -> Seq<u8> {
    seq![100u8, 101u8, 112u8, 111u8, 115u8, 105u8, 116u8]
}

pub open spec fn kw_withdrawal() -> Seq<u8> {
    seq![119u8, 105u8, 116u8, 104u8, 100u8, 114u8, 97u8, 119u8, 97u8, 108u8]
}

pub open spec fn kw_dispute() -> Seq<u8> {
    seq![100u8, 105u8, 115u8, 112u8, 117u8, 116u8, 101u8]
}

pub open spec fn kw_resolve() -> Seq<u8> {
    seq![114u8, 101u8, 115u8, 111u8, 108u8, 118u8, 101u8]
}

pub open spec fn kw_chargeback() -> Seq<u8> {
    seq![99u8, 104u8, 97u8, 114u8, 103u8, 101u8, 98u8, 97u8, 99u8, 107u8]
}

/// The action denoted by a record's type field and amount column, or the
/// message of the record-level error it raises.
pub open spec fn spec_classify(ty: Seq<u8>, amount: Option<Amount>) -> Result<TxAction, Seq<char>> {
    if ty == kw_deposit() {
        match amount {
            Option::Some(a) => Ok(TxAction::Deposit(a)),
            Option::None => Err(msg_missing_amount("deposit"@)),
        }
    } else if ty == kw_withdrawal() {
        match amount {
            Option::Some(a) => Ok(TxAction::Withdrawal(a)),
            Option::None => Err(msg_missing_amount("withdrawal"@)),
        }
    } else if ty == kw_dispute() {
        match amount {
            Option::Some(_) => Err(msg_amount_not_empty("dispute"@)),
            Option::None => Ok(TxAction::Dispute),
        }
    } else if ty == kw_resolve() {
        match amount {
            Option::Some(_) => Err(msg_amount_not_empty("resolve"@)),
            Option::None => Ok(TxAction::Resolve),
        }
    } else if ty == kw_chargeback() {
        match amount {
            Option::Some(_) => Err(msg_amount_not_empty("chargeback"@)),
            Option::None => Ok(TxAction::Chargeback),
        }
    } else {
        Err(msg_unknown_type(ty))
    }
}

fn is_kw_deposit(f: &[u8]) -> (r: bool)
    ensures
        r <==> f@ == kw_deposit(),
{
    let r = f.len() == 7 && f[0] == 100 && f[1] == 101 && f[2] == 112 && f[3] == 111 && f[4] == 115
        && f[5] == 105 && f[6] == 116;
    proof {
        if r {
            assert(f@ =~= kw_deposit());
        }
    }
    r
}

fn is_kw_withdrawal(f: &[u8]) -> (r: bool)
    ensures
        r <==> f@ == kw_withdrawal(),
{
    let r = f.len() == 10 && f[0] == 119 && f[1] == 105 && f[2] == 116 && f[3] == 104 && f[4]
        == 100 && f[5] == 114 && f[6] == 97 && f[7] == 119 && f[8] == 97 && f[9] == 108;
    proof {
        if r {
            assert(f@ =~= kw_withdrawal());
        }
    }
    r
}

fn is_kw_dispute(f: &[u8]) -> (r: bool)
    ensures
        r <==> f@ == kw_dispute(),
{
    let r = f.len() == 7 && f[0] == 100 && f[1] == 105 && f[2] == 115 && f[3] == 112 && f[4] == 117
        && f[5] == 116 && f[6] == 101;
    proof {
        if r {
            assert(f@ =~= kw_dispute());
        }
    }
    r
}

fn is_kw_resolve(f: &[u8]) -> (r: bool)
    ensures
        r <==> f@ == kw_resolve(),
{
    let r = f.len() == 7 && f[0] == 114 && f[1] == 101 && f[2] == 115 && f[3] == 111 && f[4] == 108
        && f[5] == 118 && f[6] == 101;
    proof {
        if r {
            assert(f@ =~= kw_resolve());
        }
    }
    r
}

fn is_kw_chargeback(f: &[u8]) -> (r: bool)
    ensures
        r <==> f@ == kw_chargeback(),
{
    let r = f.len() == 10 && f[0] == 99 && f[1] == 104 && f[2] == 97 && f[3] == 114 && f[4] == 103
        && f[5] == 101 && f[6] == 98 && f[7] == 97 && f[8] == 99 && f[9] == 107;
    proof {
        if r {
            assert(f@ =~= kw_chargeback());
        }
    }
    r
}

impl TransactionInfo {
    /// The internal control event that asks an account to finish.
    pub fn close() -> (t: TransactionInfo)
        ensures
            t == (TransactionInfo { id: CLOSE_TX_ID, tx: TxAction::Close }),
    {
        TransactionInfo { id: CLOSE_TX_ID, tx: TxAction::Close }
    }

    /// Classifies a parsed record: the five known type literals, with an
    /// amount exactly when the type calls for one.
    pub fn from_record(r: &Record) -> (res: Result<TransactionInfo, EngineError>)
        ensures
            match spec_classify(r.ty@, r.amount) {
                Ok(a) => res == Ok::<TransactionInfo, EngineError>(TransactionInfo {
                    id: r.tx_id,
                    tx: a,
                }),
                Err(m) => res is Err && res->Err_0 is RecordError && (ascii_seq(r.ty@)
                    ==> res->Err_0->RecordError_0@ == m),
            },
    {
        let ty = r.ty.as_slice();
        if is_kw_deposit(ty) {
            match r.amount {
                Some(a) => Ok(TransactionInfo { id: r.tx_id, tx: TxAction::Deposit(a) }),
                None => Err(EngineError::RecordError(build_missing_amount("deposit"))),
            }
        } else if is_kw_withdrawal(ty) {
            match r.amount {
                Some(a) => Ok(TransactionInfo { id: r.tx_id, tx: TxAction::Withdrawal(a) }),
                None => Err(EngineError::RecordError(build_missing_amount("withdrawal"))),
            }
        } else if is_kw_dispute(ty) {
            match r.amount {
                Some(_) => Err(EngineError::RecordError(build_amount_not_empty("dispute"))),
                None => Ok(TransactionInfo { id: r.tx_id, tx: TxAction::Dispute }),
            }
        } else if is_kw_resolve(ty) {
            match r.amount {
                Some(_) => Err(EngineError::RecordError(build_amount_not_empty("resolve"))),
                None => Ok(TransactionInfo { id: r.tx_id, tx: TxAction::Resolve }),
            }
        } else if is_kw_chargeback(ty) {
            match r.amount {
                Some(_) => Err(EngineError::RecordError(build_amount_not_empty("chargeback"))),
                None => Ok(TransactionInfo { id: r.tx_id, tx: TxAction::Chargeback }),
            }
        } else {
            Err(EngineError::RecordError(build_unknown_type(ty)))
        }
    }
}

} // verus!
