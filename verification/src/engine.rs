use vstd::prelude::*;
use vstd::string::StringExecFns;
use crate::client::{client_inv, client_step, empty_client, Client, ClientId, ClientV};
use crate::error::EngineError;
use crate::record::Record;
use crate::text::{ascii_seq, dec_chars, digit_char, digit_str, u64_to_string};
use crate::transaction::{spec_classify, TransactionInfo};
use crate::wallet::Wallet;

verus! {

/// Routes each event to the account it names, creating accounts lazily,
/// and renders the final report. Accounts are kept sorted by id, so the
/// report is deterministic (account-id-ascending).
pub struct Engine {
    clients: Vec<(ClientId, Client)>,
}

impl View for Engine {
    type V = Seq<(ClientId, ClientV)>;

    closed spec fn view(&self) -> Seq<(ClientId, ClientV)> {
        Seq::new(self.clients@.len(), |i: int| (self.clients@[i].0, self.clients@[i].1@))
    }
}

/// Account ids strictly ascending, and every account in a reachable state.
pub open spec fn engine_inv(s: Seq<(ClientId, ClientV)>) -> bool {
    &&& forall|i: int, j: int| 0 <= i < j < s.len() ==> (#[trigger] s[i]).0 < (#[trigger] s[j]).0
    &&& forall|i: int| 0 <= i < s.len() ==> client_inv((#[trigger] s[i]).1)
}

/// First position whose id is at least `id`; `s.len()` when all are below.
pub open spec fn eng_pos(s: Seq<(ClientId, ClientV)>, id: ClientId) -> int
    decreases s.len(),
{
    if s.len() == 0 {
        0
    } else if s[0].0 >= id {
        0
    } else {
        1 + eng_pos(s.skip(1), id)
    }
}

pub proof fn lemma_eng_pos(s: Seq<(ClientId, ClientV)>, id: ClientId)
    ensures
        0 <= eng_pos(s, id) <= s.len(),
        forall|i: int| 0 <= i < eng_pos(s, id) ==> (#[trigger] s[i]).0 < id,
        eng_pos(s, id) < s.len() ==> s[eng_pos(s, id)].0 >= id,
    decreases s.len(),
{
    if s.len() == 0 {
    } else if s[0].0 >= id {
    } else {
        lemma_eng_pos(s.skip(1), id);
        assert(forall|i: int| 0 <= i < s.skip(1).len() ==> s.skip(1)[i] == s[i + 1]);
        let p = 1 + eng_pos(s.skip(1), id);
        assert forall|i: int| 0 <= i < p implies (#[trigger] s[i]).0 < id by {
            if i > 0 {
                assert(s.skip(1)[i - 1] == s[i]);
            }
        }
        if p < s.len() {
            assert(s.skip(1)[p - 1] == s[p]);
        }
    }
}

/// The engine after routing one event to account `id` (created on first
/// reference), applying the account state machine to it.
pub open spec fn engine_step(s: Seq<(ClientId, ClientV)>, id: ClientId, t: TransactionInfo) -> Seq<
    (ClientId, ClientV),
> {
    let p = eng_pos(s, id);
    if p < s.len() && s[p].0 == id {
        s.update(p, (id, client_step(s[p].1, t)))
    } else {
        s.insert(p, (id, client_step(empty_client(), t)))
    }
}

pub proof fn lemma_engine_step_inv(s: Seq<(ClientId, ClientV)>, id: ClientId, t: TransactionInfo)
    requires
        engine_inv(s),
    ensures
        engine_inv(engine_step(s, id, t)),
{
    lemma_eng_pos(s, id);
    let p = eng_pos(s, id);
    let u = engine_step(s, id, t);
    if p < s.len() && s[p].0 == id {
        crate::client::lemma_client_step_inv(s[p].1, t);
        assert forall|i: int, j: int| 0 <= i < j < u.len() implies (#[trigger] u[i]).0 < (
        #[trigger] u[j]).0 by {
            assert(s[i].0 < s[j].0);
        }
    } else {
        crate::client::lemma_client_step_inv(empty_client(), t);
        assert(forall|k: int|
            0 <= k < u.len() ==> (#[trigger] u[k]) == (if k < p {
                s[k]
            } else if k == p {
                (id, client_step(empty_client(), t))
            } else {
                s[k - 1]
            }));
        assert forall|i: int, j: int| 0 <= i < j < u.len() implies (#[trigger] u[i]).0 < (
        #[trigger] u[j]).0 by {
            if i < p && j == p {
                assert(u[i] == s[i]);
            } else if i == p && j > p {
                assert(u[j] == s[j - 1]);
                assert(s[j - 1].0 >= id);
                if s[j - 1].0 == id {
                    assert(p < s.len() ==> s[p].0 != id);
                    if j - 1 > p {
                        assert(s[p].0 < s[j - 1].0 || p >= s.len());
                    }
                }
            }
        }
    }
}

// ---------------------------------------------------------------------------
// Rendering the final report.
// ---------------------------------------------------------------------------
/// Trailing zero digits removed.
pub open spec fn strip_zeros(s: Seq<char>) -> Seq<char>
    decreases s.len(),
{
    if s.len() > 0 && s.last() == '0' {
        strip_zeros(s.drop_last())
    } else {
        s
    }
}

/// The up-to-four fractional digits of `f` ten-thousandths, with trailing
/// zeros dropped.
pub open spec fn frac_chars(f: nat) -> Seq<char> {
    strip_zeros(
        seq![
            digit_char(f / 1000),
            digit_char((f / 100) % 10),
            digit_char((f / 10) % 10),
            digit_char(f % 10),
        ],
    )
}

/// A monetary value rendered with at most four decimals and no trailing
/// zeros: 15000 ten-thousandths renders as `1.5`, 20000 as `2`.
pub open spec fn spec_amount_chars(units: u64) -> Seq<char> {
    if units % 10000 == 0 {
        dec_chars((units / 10000) as nat)
    } else {
        dec_chars((units / 10000) as nat) + "."@ + frac_chars((units % 10000) as nat)
    }
}

pub open spec fn spec_bool_chars(b: bool) -> Seq<char> {
    if b {
        "true"@
    } else {
        "false"@
    }
}

/// One report row: id, the three balances, and the lock flag.
pub open spec fn spec_row_chars(id: ClientId, w: Wallet) -> Seq<char> {
    dec_chars(id as nat) + ","@ + spec_amount_chars(w.available) + ","@ + spec_amount_chars(w.held)
        + ","@ + spec_amount_chars(w.total) + ","@ + spec_bool_chars(w.locked)
}

pub open spec fn spec_rows(s: Seq<(ClientId, ClientV)>) -> Seq<char>
    decreases s.len(),
{
    if s.len() == 0 {
        Seq::empty()
    } else {
        spec_rows(s.drop_last()) + "\n"@ + spec_row_chars(s.last().0, s.last().1.wallet)
    }
}

/// The whole report: the header line, then one row per account in
/// ascending id order, each on its own line.
pub open spec fn spec_report(s: Seq<(ClientId, ClientV)>) -> Seq<char> {
    "client,available,held,total,locked"@ + spec_rows(s)
}

proof fn lemma_digit_char_zero(d: nat)
    requires
        d < 10,
    ensures
        (digit_char(d) == '0') <==> (d == 0),
{
    if d == 0 {
        assert(digit_char(0) == '0');
    } else if d == 1 {
        assert(digit_char(1) == '1');
        assert('1' != '0');
    } else if d == 2 {
        assert(digit_char(2) == '2');
        assert('2' != '0');
    } else if d == 3 {
        assert(digit_char(3) == '3');
        assert('3' != '0');
    } else if d == 4 {
        assert(digit_char(4) == '4');
        assert('4' != '0');
    } else if d == 5 {
        assert(digit_char(5) == '5');
        assert('5' != '0');
    } else if d == 6 {
        assert(digit_char(6) == '6');
        assert('6' != '0');
    } else if d == 7 {
        assert(digit_char(7) == '7');
        assert('7' != '0');
    } else if d == 8 {
        assert(digit_char(8) == '8');
        assert('8' != '0');
    } else {
        assert(digit_char(9) == '9');
        assert('9' != '0');
    }
}

/// Renders a monetary value with four-decimal rounding and no trailing
/// zeros.
pub fn amount_to_string(units: u64) -> (s: String)
    ensures
        s@ == spec_amount_chars(units),
{
    let mut s = u64_to_string(units / 10000);
    let f: u64 = units % 10000;
    let ghost fd = seq![
        digit_char(f as nat / 1000),
        digit_char((f as nat / 100) % 10),
        digit_char((f as nat / 10) % 10),
        digit_char(f as nat % 10),
    ];
    if f > 0 {
        s.append(".");
        let d3: u64 = f / 1000;
        let d2: u64 = (f / 100) % 10;
        let d1: u64 = (f / 10) % 10;
        let d0: u64 = f % 10;
        proof {
            lemma_digit_char_zero(d3 as nat);
            lemma_digit_char_zero(d2 as nat);
            lemma_digit_char_zero(d1 as nat);
            lemma_digit_char_zero(d0 as nat);
            if d3 == 0 && d2 == 0 && d1 == 0 && d0 == 0 {
                assert(f == 0);
            }
        }
        s.append(digit_str(d3 as u8));
        if d0 != 0 {
            s.append(digit_str(d2 as u8));
            s.append(digit_str(d1 as u8));
            s.append(digit_str(d0 as u8));
            proof {
                assert(strip_zeros(fd) == fd);
                assert(s@ =~= spec_amount_chars(units));
            }
        } else if d1 != 0 {
            s.append(digit_str(d2 as u8));
            s.append(digit_str(d1 as u8));
            proof {
                assert(fd.drop_last() =~= fd.take(3));
                assert(strip_zeros(fd) == strip_zeros(fd.take(3)));
                assert(fd.take(3).last() == digit_char((f as nat / 10) % 10));
                assert(strip_zeros(fd.take(3)) == fd.take(3));
                assert(s@ =~= spec_amount_chars(units));
            }
        } else if d2 != 0 {
            s.append(digit_str(d2 as u8));
            proof {
                assert(fd.drop_last() =~= fd.take(3));
                assert(strip_zeros(fd) == strip_zeros(fd.take(3)));
                assert(fd.take(3).drop_last() =~= fd.take(2));
                assert(strip_zeros(fd.take(3)) == strip_zeros(fd.take(2)));
                assert(fd.take(2).last() == digit_char((f as nat / 100) % 10));
                assert(strip_zeros(fd.take(2)) == fd.take(2));
                assert(s@ =~= spec_amount_chars(units));
            }
        } else {
            proof {
                assert(d3 != 0);
                assert(fd.drop_last() =~= fd.take(3));
                assert(strip_zeros(fd) == strip_zeros(fd.take(3)));
                assert(fd.take(3).drop_last() =~= fd.take(2));
                assert(strip_zeros(fd.take(3)) == strip_zeros(fd.take(2)));
                assert(fd.take(2).drop_last() =~= fd.take(1));
                assert(strip_zeros(fd.take(2)) == strip_zeros(fd.take(1)));
                assert(fd.take(1).last() == digit_char(f as nat / 1000));
                assert(strip_zeros(fd.take(1)) == fd.take(1));
                assert(s@ =~= spec_amount_chars(units));
            }
        }
    }
    s
}

/// Renders one account row.
pub fn row_to_string(id: ClientId, w: &Wallet) -> (s: String)
    ensures
        s@ == spec_row_chars(id, *w),
{
    let mut s = u64_to_string(id as u64);
    s.append(",");
    let av = amount_to_string(w.available);
    s.append(av.as_str());
    s.append(",");
    let hd = amount_to_string(w.held);
    s.append(hd.as_str());
    s.append(",");
    let tt = amount_to_string(w.total);
    s.append(tt.as_str());
    s.append(",");
    if w.locked {
        s.append("true");
    } else {
        s.append("false");
    }
    s
}

impl Engine {
    /// A fresh dispatcher with no accounts.
    pub fn new() -> (e: Engine)
        ensures
            e@.len() == 0,
            engine_inv(e@),
    {
        let e = Engine { clients: Vec::new() };
        proof {
            assert(e@ =~= Seq::<(ClientId, ClientV)>::empty());
        }
        e
    }

    /// Where account `id` sits, or where it would be inserted.
    fn position(&self, id: ClientId) -> (p: usize)
        ensures
            p == eng_pos(self@, id),
    {
        let ghost s = self@;
        let mut p: usize = 0;
        while p < self.clients.len() && self.clients[p].0 < id
            invariant
                0 <= p <= s.len(),
                s == self@,
                forall|i: int| 0 <= i < p ==> (#[trigger] s[i]).0 < id,
            decreases s.len() - p,
        {
            p += 1;
        }
        proof {
            lemma_eng_pos(s, id);
            let q = eng_pos(s, id);
            if q < p {
                assert(s[q].0 < id);
                assert(false);
            }
            if p < q {
                assert(s[p as int].0 < id);
                assert(p < s.len());
                assert(s[p as int].0 >= id);
                assert(false);
            }
        }
        p
    }

    /// Classifies one record and routes it to its account, creating the
    /// account on first reference. A record-level error aborts the run
    /// and leaves every account untouched.
    pub fn process_record(&mut self, r: &Record) -> (res: Result<(), EngineError>)
        requires
            engine_inv(old(self)@),
        ensures
            engine_inv(final(self)@),
            match spec_classify(r.ty@, r.amount) {
                Ok(a) => res is Ok && final(self)@ == engine_step(
                    old(self)@,
                    r.client_id,
                    TransactionInfo { id: r.tx_id, tx: a },
                ),
                Err(m) => final(self)@ == old(self)@ && (res matches Err(
                    EngineError::RecordError(s),
                ) && (ascii_seq(r.ty@) ==> s@ == m)),
            },
    {
        let t = match TransactionInfo::from_record(r) {
            Ok(t) => t,
            Err(e) => {
                return Err(e);
            },
        };
        proof {
            lemma_engine_step_inv(old(self)@, r.client_id, t);
            lemma_eng_pos(old(self)@, r.client_id);
        }
        let p = self.position(r.client_id);
        let hit = p < self.clients.len() && self.clients[p].0 == r.client_id;
        if hit {
            let (cid, mut c) = self.clients.remove(p);
            c.process_transaction(t);
            self.clients.insert(p, (cid, c));
            proof {
                let s0 = old(self)@;
                assert(self@ =~= s0.update(p as int, (r.client_id, client_step(s0[p as int].1, t))));
            }
        } else {
            let mut c = Client::new();
            c.process_transaction(t);
            self.clients.insert(p, (r.client_id, c));
            proof {
                let s0 = old(self)@;
                assert(self@ =~= s0.insert(p as int, (r.client_id, client_step(empty_client(), t))));
            }
        }
        Ok(())
    }

    /// The final report: header plus one row per account, ids ascending.
    pub fn render_wallets(&self) -> (out: String)
        ensures
            out@ == spec_report(self@),
    {
        let ghost s = self@;
        let mut out = String::from_str("client,available,held,total,locked");
        proof {
            assert(s.take(0) =~= Seq::<(ClientId, ClientV)>::empty());
            assert(out@ =~= spec_report(s.take(0)));
        }
        let mut i: usize = 0;
        while i < self.clients.len()
            invariant
                0 <= i <= s.len(),
                s == self@,
                out@ == spec_report(s.take(i as int)),
            decreases s.len() - i,
        {
            out.append("\n");
            let w = self.clients[i].1.wallet();
            let row = row_to_string(self.clients[i].0, &w);
            out.append(row.as_str());
            proof {
                assert(s.take(i + 1).drop_last() =~= s.take(i as int));
                assert(s.take(i + 1).last() == s[i as int]);
                assert(s[i as int].1.wallet == w);
                assert(out@ =~= spec_report(s.take(i + 1)));
            }
            i += 1;
        }
        proof {
            assert(s.take(s.len() as int) =~= s);
        }
        out
    }
}

} // verus!
