use vstd::prelude::*;
use crate::amount::Amount;
use crate::transaction::{
    disputed_total, entry_weight, lemma_disputed_total_push, lemma_disputed_total_remove,
    lemma_disputed_total_update, lemma_entry_weight_le_total, lemma_tx_find, lemma_unique_remove,
    lemma_unique_set, tx_find, tx_lookup, tx_remove, tx_set, unique_ids, Transactions,
    TransactionInfo, TxAction, TxId, TxResult,
};
use crate::wallet::Wallet;

verus! {

/// Account identifier from the input's `client` column.
pub type ClientId = u32;

/// The sequential processing unit for one account: it owns that account's
/// wallet and history and applies the account's events in arrival order.
#[derive(Debug)]
pub struct Client {
    wallet: Wallet,
    history: Transactions,
}

/// Model of one account: the wallet and the history entries in order.
pub struct ClientV {
    pub wallet: Wallet,
    pub history: Seq<(TxId, TxResult)>,
}

impl View for Client {
    type V = ClientV;

    closed spec fn view(&self) -> ClientV {
        ClientV { wallet: self.wallet, history: self.history@ }
    }
}

/// A newly created account: empty wallet, empty history.
pub open spec fn empty_client() -> ClientV {
    ClientV {
        wallet: Wallet { available: 0, held: 0, total: 0, locked: false },
        history: Seq::empty(),
    }
}

/// What holds of every reachable account state: the balance invariant, at
/// most one history entry per id, and held funds covering all open disputes.
pub open spec fn client_inv(c: ClientV) -> bool {
    &&& c.wallet.wf()
    &&& unique_ids(c.history)
    &&& disputed_total(c.history) <= c.wallet.held
}

/// The one-step transition of the account state machine. A locked account
/// ignores everything. Otherwise a deposit adds to the available funds and
/// records a disputable entry; a withdrawal removes available funds when
/// they suffice; dispute, resolve and chargeback move the deposited amount
/// between available and held by the entry's state; an event whose
/// precondition fails changes nothing.
pub open spec fn client_step(c: ClientV, t: TransactionInfo) -> ClientV {
    if c.wallet.locked {
        c
    } else {
        match t.tx {
            TxAction::Deposit(a) => {
                if c.wallet.total + a.units <= u64::MAX {
                    ClientV {
                        wallet: Wallet {
                            available: (c.wallet.available + a.units) as u64,
                            total: (c.wallet.total + a.units) as u64,
                            ..c.wallet
                        },
                        history: tx_set(c.history, t.id, TxResult::Deposited(a)),
                    }
                } else {
                    c
                }
            },
            TxAction::Withdrawal(a) => {
                if c.wallet.available >= a.units {
                    ClientV {
                        wallet: Wallet {
                            available: (c.wallet.available - a.units) as u64,
                            total: (c.wallet.total - a.units) as u64,
                            ..c.wallet
                        },
                        history: c.history,
                    }
                } else {
                    c
                }
            },
            TxAction::Dispute => {
                match tx_lookup(c.history, t.id) {
                    Option::Some(TxResult::Deposited(a)) => {
                        if c.wallet.available >= a.units {
                            ClientV {
                                wallet: Wallet {
                                    available: (c.wallet.available - a.units) as u64,
                                    held: (c.wallet.held + a.units) as u64,
                                    ..c.wallet
                                },
                                history: tx_set(c.history, t.id, TxResult::Disputed(a)),
                            }
                        } else {
                            c
                        }
                    },
                    _ => c,
                }
            },
            TxAction::Resolve => {
                match tx_lookup(c.history, t.id) {
                    Option::Some(TxResult::Disputed(a)) => {
                        ClientV {
                            wallet: Wallet {
                                available: (c.wallet.available + a.units) as u64,
                                held: (c.wallet.held - a.units) as u64,
                                ..c.wallet
                            },
                            history: tx_set(c.history, t.id, TxResult::Deposited(a)),
                        }
                    },
                    _ => c,
                }
            },
            TxAction::Chargeback => {
                match tx_lookup(c.history, t.id) {
                    Option::Some(TxResult::Disputed(a)) => {
                        ClientV {
                            wallet: Wallet {
                                held: (c.wallet.held - a.units) as u64,
                                total: (c.wallet.total - a.units) as u64,
                                locked: true,
                                ..c.wallet
                            },
                            history: tx_remove(c.history, t.id),
                        }
                    },
                    _ => c,
                }
            },
            TxAction::Close => c,
        }
    }
}

/// Every event preserves the account invariant; in particular the balance
/// equation `total == available + held` holds after every step.
pub proof fn lemma_client_step_inv(c: ClientV, t: TransactionInfo)
    requires
        client_inv(c),
    ensures
        client_inv(client_step(c, t)),
{
    if !c.wallet.locked {
        match t.tx {
            TxAction::Deposit(a) => {
                if c.wallet.total + a.units <= u64::MAX {
                    lemma_tx_find(c.history, t.id);
                    lemma_unique_set(c.history, t.id, TxResult::Deposited(a));
                    let f = tx_find(c.history, t.id);
                    if f < 0 {
                        lemma_disputed_total_push(c.history, (t.id, TxResult::Deposited(a)));
                    } else {
                        lemma_disputed_total_update(c.history, f, (t.id, TxResult::Deposited(a)));
                    }
                }
            },
            TxAction::Withdrawal(_) => {},
            TxAction::Dispute => {
                match tx_lookup(c.history, t.id) {
                    Option::Some(TxResult::Deposited(a)) => {
                        if c.wallet.available >= a.units {
                            lemma_tx_find(c.history, t.id);
                            lemma_unique_set(c.history, t.id, TxResult::Disputed(a));
                            let f = tx_find(c.history, t.id);
                            lemma_disputed_total_update(
                                c.history,
                                f,
                                (t.id, TxResult::Disputed(a)),
                            );
                            assert(entry_weight(c.history[f]) == 0);
                        }
                    },
                    _ => {},
                }
            },
            TxAction::Resolve => {
                match tx_lookup(c.history, t.id) {
                    Option::Some(TxResult::Disputed(a)) => {
                        lemma_tx_find(c.history, t.id);
                        let f = tx_find(c.history, t.id);
                        lemma_entry_weight_le_total(c.history, f);
                        lemma_unique_set(c.history, t.id, TxResult::Deposited(a));
                        lemma_disputed_total_update(c.history, f, (t.id, TxResult::Deposited(a)));
                        assert(entry_weight(c.history[f]) == a.units);
                    },
                    _ => {},
                }
            },
            TxAction::Chargeback => {
                match tx_lookup(c.history, t.id) {
                    Option::Some(TxResult::Disputed(a)) => {
                        lemma_tx_find(c.history, t.id);
                        let f = tx_find(c.history, t.id);
                        lemma_entry_weight_le_total(c.history, f);
                        lemma_unique_remove(c.history, t.id);
                        lemma_disputed_total_remove(c.history, f);
                        assert(entry_weight(c.history[f]) == a.units);
                    },
                    _ => {},
                }
            },
            TxAction::Close => {},
        }
    }
}

/// Once an account is locked, no event changes it in any way, and it
/// stays locked: the lock is terminal and monotonic.
pub proof fn lemma_locked_account_frozen(c: ClientV, t: TransactionInfo)
    requires
        c.wallet.locked,
    ensures
        client_step(c, t) == c,
        client_step(c, t).wallet.locked,
{
}

/// A dispute naming an id with no history entry, or whose entry is not in
/// the deposited state, leaves the account completely unchanged.
pub proof fn lemma_dispute_without_deposit_is_noop(c: ClientV, t: TransactionInfo)
    requires
        t.tx is Dispute,
        !(tx_lookup(c.history, t.id) matches Option::Some(TxResult::Deposited(_))),
    ensures
        client_step(c, t) == c,
{
}

/// A resolve or chargeback naming an id with no history entry leaves the
/// account completely unchanged.
pub proof fn lemma_missing_id_is_noop(c: ClientV, id: TxId)
    requires
        tx_lookup(c.history, id) is None,
    ensures
        client_step(c, TransactionInfo { id, tx: TxAction::Resolve }) == c,
        client_step(c, TransactionInfo { id, tx: TxAction::Chargeback }) == c,
{
}

/// A chargeback erases the disputed id from the history, so no later
/// event can name that transaction again.
pub proof fn lemma_chargeback_erases_history(c: ClientV, id: TxId, a: Amount)
    requires
        client_inv(c),
        !c.wallet.locked,
        tx_lookup(c.history, id) == Some(TxResult::Disputed(a)),
    ensures
        tx_lookup(client_step(c, TransactionInfo { id, tx: TxAction::Chargeback }).history, id)
            is None,
{
    lemma_unique_remove(c.history, id);
}

/// Depositing, disputing the same transaction, then resolving it brings
/// available, held and total back to exactly their post-deposit values.
pub proof fn lemma_deposit_dispute_resolve_round_trip(c: ClientV, id: TxId, a: Amount)
    requires
        client_inv(c),
        !c.wallet.locked,
        c.wallet.total + a.units <= u64::MAX,
    ensures
        ({
            let c1 = client_step(c, TransactionInfo { id, tx: TxAction::Deposit(a) });
            let c2 = client_step(c1, TransactionInfo { id, tx: TxAction::Dispute });
            let c3 = client_step(c2, TransactionInfo { id, tx: TxAction::Resolve });
            c3.wallet == c1.wallet
        }),
{
    let c1 = client_step(c, TransactionInfo { id, tx: TxAction::Deposit(a) });
    let c2 = client_step(c1, TransactionInfo { id, tx: TxAction::Dispute });
    let c3 = client_step(c2, TransactionInfo { id, tx: TxAction::Resolve });
    lemma_client_step_inv(c, TransactionInfo { id, tx: TxAction::Deposit(a) });
    lemma_unique_set(c.history, id, TxResult::Deposited(a));
    assert(tx_lookup(c1.history, id) == Some(TxResult::Deposited(a)));
    lemma_client_step_inv(c1, TransactionInfo { id, tx: TxAction::Dispute });
    lemma_unique_set(c1.history, id, TxResult::Disputed(a));
    assert(tx_lookup(c2.history, id) == Some(TxResult::Disputed(a)));
    assert(c3.wallet == c1.wallet);
}

impl Client {
    /// A fresh account: empty wallet, empty history.
    pub fn new() -> (c: Client)
        ensures
            client_inv(c@),
            c@ == empty_client(),
    {
        let c = Client { wallet: Wallet::default(), history: Transactions::new() };
        proof {
            assert(c@.history =~= Seq::<(TxId, TxResult)>::empty());
        }
        c
    }

    /// Applies one event to this account, in arrival order.
    pub fn process_transaction(&mut self, t: TransactionInfo)
        requires
            client_inv(old(self)@),
        ensures
            client_inv(final(self)@),
            final(self)@ == client_step(old(self)@, t),
    {
        proof {
            lemma_client_step_inv(old(self)@, t);
        }
        if self.wallet.locked() {
            return ;
        }
        match t.tx {
            TxAction::Deposit(a) => {
                if self.wallet.deposit(a) {
                    self.history.insert(t.id, TxResult::Deposited(a));
                }
            },
            TxAction::Withdrawal(a) => {
                let _applied = self.wallet.withdrawal(a);
            },
            TxAction::Dispute => {
                match self.history.get(t.id) {
                    Option::Some(TxResult::Deposited(a)) => {
                        if self.wallet.dispute(a) {
                            self.history.insert(t.id, TxResult::Disputed(a));
                        }
                    },
                    _ => {},
                }
            },
            TxAction::Resolve => {
                match self.history.get(t.id) {
                    Option::Some(TxResult::Disputed(a)) => {
                        proof {
                            lemma_tx_find(old(self)@.history, t.id);
                            lemma_entry_weight_le_total(
                                old(self)@.history,
                                tx_find(old(self)@.history, t.id),
                            );
                        }
                        self.wallet.resolve(a);
                        self.history.insert(t.id, TxResult::Deposited(a));
                    },
                    _ => {},
                }
            },
            TxAction::Chargeback => {
                match self.history.get(t.id) {
                    Option::Some(TxResult::Disputed(a)) => {
                        proof {
                            lemma_tx_find(old(self)@.history, t.id);
                            lemma_entry_weight_le_total(
                                old(self)@.history,
                                tx_find(old(self)@.history, t.id),
                            );
                        }
                        self.wallet.chargeback(a);
                        self.history.remove(t.id);
                    },
                    _ => {},
                }
            },
            TxAction::Close => {},
        }
    }

    /// The internal close control event: acted on even when locked, and
    /// the account state is left exactly as it is.
    pub fn close(&mut self)
        requires
            client_inv(old(self)@),
        ensures
            final(self)@ == old(self)@,
    {
        self.process_transaction(TransactionInfo::close());
    }

    /// The final snapshot of this account's wallet.
    pub fn wallet(&self) -> (w: Wallet)
        ensures
            w == self@.wallet,
    {
        self.wallet
    }
}

} // verus!
