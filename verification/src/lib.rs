use vstd::prelude::*;

pub mod amount;
pub mod client;
pub mod engine;
pub mod error;
pub mod record;
pub mod text;
pub mod transaction;
pub mod util;
pub mod wallet;

use crate::client::{ClientId, ClientV};
use crate::engine::{engine_inv, engine_step, spec_report, Engine};
use crate::error::{
    build_bad_header, build_field_count, build_invalid_digit, build_invalid_float, msg_bad_header,
    msg_field_count, msg_invalid_digit, msg_invalid_float, EngineError,
};
use crate::record::{
    check_header, parse_record_line, spec_parse_line, split4, valid_header, LineErrV, LineError,
};
use crate::text::{ascii_seq, lemma_trim_ascii};
use crate::transaction::{spec_classify, TransactionInfo};
use crate::util::{find_byte, lemma_count_zero, lemma_find_byte, scan_byte, B_HASH, B_NL, B_COMMA};

verus! {

/// A fatal outcome of a run: either the stream was not a well-formed
/// four-column table, or a record carried the wrong shape for its type.
pub enum RunErrV {
    Csv(Seq<char>),
    Rec(Seq<char>),
}

/// The message a malformed line produces, in the style of the reader:
/// record number, line number, and byte offset of the record.
pub open spec fn line_err_msg(ev: LineErrV, rec: nat, line: nat, byte: nat) -> Seq<char> {
    match ev {
        LineErrV::FieldCount(cc) => msg_field_count(rec, line, byte, cc + 1),
        LineErrV::InvalidDigit(f) => msg_invalid_digit(rec, line, byte, f),
        LineErrV::InvalidFloat => msg_invalid_float(rec, line, byte),
    }
}

/// How one line advances the run: comments and blank lines are skipped,
/// the first real line must be the header, every later line is a record
/// routed to its account.
pub open spec fn spec_line_step(
    line: Seq<u8>,
    accounts: Seq<(ClientId, ClientV)>,
    header_seen: bool,
    rec_no: nat,
    line_no: nat,
    off: nat,
) -> Result<(Seq<(ClientId, ClientV)>, bool, nat), RunErrV> {
    if line.len() == 0 || line[0] == B_HASH {
        Ok((accounts, header_seen, rec_no))
    } else if !header_seen {
        if valid_header(line) {
            Ok((accounts, true, rec_no))
        } else {
            Err(RunErrV::Csv(msg_bad_header()))
        }
    } else {
        match spec_parse_line(line) {
            Err(ev) => Err(RunErrV::Csv(line_err_msg(ev, rec_no + 1, line_no, off))),
            Ok(v) => match spec_classify(v.ty, v.amount) {
                Err(m) => Err(RunErrV::Rec(m)),
                Ok(a) => Ok(
                    (
                        engine_step(accounts, v.client, TransactionInfo { id: v.tx, tx: a }),
                        header_seen,
                        rec_no + 1,
                    ),
                ),
            },
        }
    }
}

/// The whole run, line by line: the final accounts, or the first fatal
/// error.
pub open spec fn spec_run(
    input: Seq<u8>,
    accounts: Seq<(ClientId, ClientV)>,
    header_seen: bool,
    rec_no: nat,
    line_no: nat,
    off: nat,
) -> Result<Seq<(ClientId, ClientV)>, RunErrV>
    decreases input.len(),
{
    if input.len() == 0 {
        Ok(accounts)
    } else {
        let nl = find_byte(input, B_NL);
        if nl < 0 || nl >= input.len() {
            match spec_line_step(input, accounts, header_seen, rec_no, line_no, off) {
                Err(e) => Err(e),
                Ok(st) => Ok(st.0),
            }
        } else {
            match spec_line_step(input.take(nl), accounts, header_seen, rec_no, line_no, off) {
                Err(e) => Err(e),
                Ok(st) => spec_run(
                    input.skip(nl + 1),
                    st.0,
                    st.1,
                    st.2,
                    line_no + 1,
                    (off + nl + 1) as nat,
                ),
            }
        }
    }
}

/// One line keeps every account in a reachable state: the only change it
/// can make is one step of the account state machine.
pub proof fn lemma_line_step_inv(
    line: Seq<u8>,
    accounts: Seq<(ClientId, ClientV)>,
    header_seen: bool,
    rec_no: nat,
    line_no: nat,
    off: nat,
)
    requires
        engine_inv(accounts),
        spec_line_step(line, accounts, header_seen, rec_no, line_no, off) is Ok,
    ensures
        engine_inv(spec_line_step(line, accounts, header_seen, rec_no, line_no, off)->Ok_0.0),
{
    if line.len() == 0 || line[0] == B_HASH {
    } else if !header_seen {
    } else {
        match spec_parse_line(line) {
            Err(_) => {},
            Ok(v) => match spec_classify(v.ty, v.amount) {
                Err(_) => {},
                Ok(a) => {
                    crate::engine::lemma_engine_step_inv(
                        accounts,
                        v.client,
                        TransactionInfo { id: v.tx, tx: a },
                    );
                },
            },
        }
    }
}

/// For every account at every point of a run, `total == available + held`
/// (with the other account invariants): a run that starts from reachable
/// accounts only ever applies account steps, which preserve them.
pub proof fn lemma_spec_run_inv(
    input: Seq<u8>,
    accounts: Seq<(ClientId, ClientV)>,
    header_seen: bool,
    rec_no: nat,
    line_no: nat,
    off: nat,
)
    requires
        engine_inv(accounts),
        spec_run(input, accounts, header_seen, rec_no, line_no, off) is Ok,
    ensures
        engine_inv(spec_run(input, accounts, header_seen, rec_no, line_no, off)->Ok_0),
    decreases input.len(),
{
    if input.len() == 0 {
    } else {
        let nl = find_byte(input, B_NL);
        if nl < 0 || nl >= input.len() {
            lemma_line_step_inv(input, accounts, header_seen, rec_no, line_no, off);
        } else {
            let line = input.take(nl);
            lemma_line_step_inv(line, accounts, header_seen, rec_no, line_no, off);
            let st = spec_line_step(line, accounts, header_seen, rec_no, line_no, off)->Ok_0;
            lemma_spec_run_inv(
                input.skip(nl + 1),
                st.0,
                st.1,
                st.2,
                line_no + 1,
                (off + nl + 1) as nat,
            );
        }
    }
}

/// How a returned error corresponds to the specified one. Messages are
/// pinned exactly; the one that quotes the offending type field is pinned
/// for ASCII input (other bytes pass through a lossy decoding).
pub open spec fn err_matches(e: EngineError, v: RunErrV, input: Seq<u8>) -> bool {
    match v {
        RunErrV::Csv(m) => e matches EngineError::CsvError(s) && s@ == m,
        RunErrV::Rec(m) => e matches EngineError::RecordError(s) && (ascii_seq(input) ==> s@ == m),
    }
}

/// Replays an ordered log of account transactions and reports the final
/// wallet of every account, one row per account in ascending id order.
/// A malformed or ill-typed record aborts the run with its error and no
/// report at all. (The length bound is a machine limit: the line and
/// record counters in error messages must not wrap.)
#[verifier::rlimit(100)]
pub fn process_transactions(input: &[u8]) -> (res: Result<String, EngineError>)
    requires
        input@.len() < usize::MAX,
    ensures
        ({
            let r = spec_run(input@, Seq::empty(), false, 0, 1, 0);
            match res {
                Ok(out) => r is Ok && out@ == spec_report(r->Ok_0),
                Err(e) => r is Err && err_matches(e, r->Err_0, input@),
            }
        }),
{
    let ghost init: Seq<(ClientId, ClientV)> = Seq::empty();
    let ghost goal = spec_run(input@, init, false, 0, 1, 0);
    let mut engine = Engine::new();
    let n = input.len();
    let mut pos: usize = 0;
    let mut header_seen: bool = false;
    let mut rec_no: usize = 0;
    let mut line_no: usize = 1;
    proof {
        assert(engine@ =~= init);
        assert(input@.skip(0) =~= input@);
    }
    while pos < n
        invariant
            0 <= pos <= n,
            n == input@.len(),
            n < usize::MAX,
            engine_inv(engine@),
            rec_no <= pos,
            line_no <= pos + 1,
            goal == spec_run(input@, init, false, 0, 1, 0),
            init == Seq::<(ClientId, ClientV)>::empty(),
            spec_run(
                input@.skip(pos as int),
                engine@,
                header_seen,
                rec_no as nat,
                line_no as nat,
                pos as nat,
            ) == goal,
        decreases n - pos,
    {
        let ghost tail = input@.skip(pos as int);
        let ghost acc0 = engine@;
        let ghost hs0 = header_seen;
        let ghost rn0 = rec_no as nat;
        let (line_end, has_nl): (usize, bool) = match scan_byte(input, pos, B_NL) {
            Some(k) => (k, true),
            None => (n, false),
        };
        let line: &[u8] = vstd::slice::slice_subrange(input, pos, line_end);
        proof {
            let nl = find_byte(tail, B_NL);
            if has_nl {
                assert(nl == line_end - pos);
                assert(line@ =~= tail.take(nl));
            } else {
                assert(nl == -1);
                assert(line@ =~= tail);
            }
        }
        let ghost lstep = spec_line_step(line@, acc0, hs0, rn0, line_no as nat, pos as nat);
        if line.len() == 0 || line[0] == B_HASH {
            proof {
                assert(lstep == Ok::<(Seq<(ClientId, ClientV)>, bool, nat), RunErrV>(
                    (acc0, hs0, rn0),
                ));
            }
        } else if !header_seen {
            if check_header(line) {
                header_seen = true;
                proof {
                    assert(lstep == Ok::<(Seq<(ClientId, ClientV)>, bool, nat), RunErrV>(
                        (acc0, true, rn0),
                    ));
                }
            } else {
                let m = build_bad_header();
                proof {
                    assert(goal == Err::<Seq<(ClientId, ClientV)>, RunErrV>(
                        RunErrV::Csv(msg_bad_header()),
                    ));
                }
                return Err(EngineError::CsvError(m));
            }
        } else {
            match parse_record_line(line) {
                Err(e) => {
                    let m: String = match e {
                        LineError::FieldCount { commas } => {
                            proof {
                                crate::util::lemma_count_le(line@, B_COMMA);
                            }
                            build_field_count(
                                rec_no as u64 + 1,
                                line_no as u64,
                                pos as u64,
                                commas as u64 + 1,
                            )
                        },
                        LineError::InvalidDigit { field } => {
                            build_invalid_digit(
                                rec_no as u64 + 1,
                                line_no as u64,
                                pos as u64,
                                field as u64,
                            )
                        },
                        LineError::InvalidFloat => {
                            build_invalid_float(rec_no as u64 + 1, line_no as u64, pos as u64)
                        },
                    };
                    proof {
                        let ev = spec_parse_line(line@)->Err_0;
                        assert(m@ == line_err_msg(ev, rn0 + 1, line_no as nat, pos as nat));
                        assert(goal == Err::<Seq<(ClientId, ClientV)>, RunErrV>(
                            RunErrV::Csv(line_err_msg(ev, rn0 + 1, line_no as nat, pos as nat)),
                        ));
                    }
                    return Err(EngineError::CsvError(m));
                },
                Ok(record) => {
                    let ghost v = spec_parse_line(line@)->Ok_0;
                    match engine.process_record(&record) {
                        Ok(()) => {
                            rec_no += 1;
                            proof {
                                let a = spec_classify(v.ty, v.amount)->Ok_0;
                                assert(lstep == Ok::<
                                    (Seq<(ClientId, ClientV)>, bool, nat),
                                    RunErrV,
                                >(
                                    (
                                        engine_step(
                                            acc0,
                                            v.client,
                                            TransactionInfo { id: v.tx, tx: a },
                                        ),
                                        hs0,
                                        rn0 + 1,
                                    ),
                                ));
                                assert(engine@ == engine_step(
                                    acc0,
                                    v.client,
                                    TransactionInfo { id: v.tx, tx: a },
                                ));
                            }
                        },
                        Err(e) => {
                            proof {
                                let m = spec_classify(v.ty, v.amount)->Err_0;
                                assert(goal == Err::<Seq<(ClientId, ClientV)>, RunErrV>(
                                    RunErrV::Rec(m),
                                ));
                                if ascii_seq(input@) {
                                    assert(forall|i: int|
                                        0 <= i < line@.len() ==> line@[i] == input@[pos + i]);
                                    assert(ascii_seq(line@));
                                    assert(crate::util::count_byte(line@, B_COMMA) == 3);
                                    lemma_count_zero(line@, B_COMMA);
                                    lemma_find_byte(line@, B_COMMA);
                                    assert(line@.skip(0) =~= line@);
                                    let fs = split4(line@);
                                    let i1 = crate::record::find_from(line@, 0, B_COMMA);
                                    assert(0 <= i1 < line@.len());
                                    assert(forall|i: int|
                                        0 <= i < fs.0.len() ==> fs.0[i] == line@[i]);
                                    assert(ascii_seq(fs.0));
                                    lemma_trim_ascii(fs.0);
                                    assert(ascii_seq(record.ty@));
                                }
                            }
                            return Err(e);
                        },
                    }
                },
            }
        }
        // move past the line (and its newline, if it had one)
        if has_nl {
            pos = line_end + 1;
        } else {
            pos = n;
        }
        line_no += 1;
        proof {
            let nl = find_byte(tail, B_NL);
            if nl < 0 || nl >= tail.len() {
                assert(input@.skip(pos as int) =~= Seq::<u8>::empty());
            } else {
                assert(tail.skip(nl + 1) =~= input@.skip(pos as int));
            }
        }
    }
    proof {
        assert(input@.skip(n as int) =~= Seq::<u8>::empty());
        assert(goal == Ok::<Seq<(ClientId, ClientV)>, RunErrV>(engine@));
    }
    let out = engine.render_wallets();
    Ok(out)
}

} // verus!
