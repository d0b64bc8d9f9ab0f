use vstd::prelude::*;
use crate::amount::{parse_amount, spec_parse_amount_units, Amount};
use crate::client::ClientId;
use crate::transaction::TxId;
use crate::util::{
    count_byte, count_byte_from, find_byte, lemma_count_split, lemma_count_zero, parse_uint,
    scan_byte, spec_parse_uint, spec_trim, trim, B_COMMA,
};

verus! {

/// One data row of the input, already split into typed columns.
#[derive(Debug)]
pub struct Record {
    pub ty: Vec<u8>,
    pub client_id: ClientId,
    pub tx_id: TxId,
    pub amount: Option<Amount>,
}

/// The mathematical shape of a parsed row.
pub struct RecordV {
    pub ty: Seq<u8>,
    pub client: ClientId,
    pub tx: TxId,
    pub amount: Option<Amount>,
}

/// Why a row could not be read: the wrong number of columns (the comma
/// count is carried), a non-numeric id column, or a malformed amount.
pub enum LineErrV {
    FieldCount(nat),
    InvalidDigit(nat),
    InvalidFloat,
}

#[derive(Debug, PartialEq, Eq)]
pub enum LineError {
    FieldCount { commas: usize },
    InvalidDigit { field: usize },
    InvalidFloat,
}

pub open spec fn line_err_matches(e: LineError, v: LineErrV) -> bool {
    match v {
        LineErrV::FieldCount(n) => e matches LineError::FieldCount { commas } && commas == n,
        LineErrV::InvalidDigit(n) => e matches LineError::InvalidDigit { field } && field == n,
        LineErrV::InvalidFloat => e matches LineError::InvalidFloat,
    }
}

pub open spec fn record_matches(r: Record, v: RecordV) -> bool {
    r.ty@ == v.ty && r.client_id == v.client && r.tx_id == v.tx && r.amount == v.amount
}

/// Position of the first `b` at or after `from`, or -1.
pub open spec fn find_from(s: Seq<u8>, from: int, b: u8) -> int {
    if find_byte(s.skip(from), b) < 0 {
        -1
    } else {
        from + find_byte(s.skip(from), b)
    }
}

/// The four column slices of a row with exactly three commas.
pub open spec fn split4(line: Seq<u8>) -> (Seq<u8>, Seq<u8>, Seq<u8>, Seq<u8>) {
    let i1 = find_from(line, 0, B_COMMA);
    let i2 = find_from(line, i1 + 1, B_COMMA);
    let i3 = find_from(line, i2 + 1, B_COMMA);
    (
        line.subrange(0, i1),
        line.subrange(i1 + 1, i2),
        line.subrange(i2 + 1, i3),
        line.subrange(i3 + 1, line.len() as int),
    )
}

pub open spec fn spec_parse_u32_field(f: Seq<u8>) -> Option<u32> {
    match spec_parse_uint(f) {
        Option::Some(v) => if v <= u32::MAX {
            Some(v as u32)
        } else {
            None
        },
        Option::None => None,
    }
}

pub open spec fn spec_parse_u16_field(f: Seq<u8>) -> Option<u16> {
    match spec_parse_uint(f) {
        Option::Some(v) => if v <= u16::MAX {
            Some(v as u16)
        } else {
            None
        },
        Option::None => None,
    }
}

/// How one line of the body parses: four trimmed columns
/// `type, client, tx, amount`, the ids numeric, the amount optional.
pub open spec fn spec_parse_line(line: Seq<u8>) -> Result<RecordV, LineErrV> {
    let cc = count_byte(line, B_COMMA);
    if cc != 3 {
        Err(LineErrV::FieldCount(cc))
    } else {
        let fs = split4(line);
        match spec_parse_u32_field(spec_trim(fs.1)) {
            Option::None => Err(LineErrV::InvalidDigit(1)),
            Option::Some(client) => match spec_parse_u16_field(spec_trim(fs.2)) {
                Option::None => Err(LineErrV::InvalidDigit(2)),
                Option::Some(tx) => {
                    let af = spec_trim(fs.3);
                    if af.len() == 0 {
                        Ok(RecordV { ty: spec_trim(fs.0), client, tx, amount: None })
                    } else {
                        match spec_parse_amount_units(af) {
                            Option::None => Err(LineErrV::InvalidFloat),
                            Option::Some(u) => Ok(
                                RecordV {
                                    ty: spec_trim(fs.0),
                                    client,
                                    tx,
                                    amount: Some(Amount { units: u }),
                                },
                            ),
                        }
                    }
                },
            },
        }
    }
}

/// Finds the three comma positions of a line known to hold exactly three.
fn comma_positions(line: &[u8]) -> (r: (usize, usize, usize))
    requires
        count_byte(line@, B_COMMA) == 3,
    ensures
        r.0 == find_from(line@, 0, B_COMMA),
        r.1 == find_from(line@, r.0 + 1, B_COMMA),
        r.2 == find_from(line@, r.1 + 1, B_COMMA),
        0 <= r.0 < r.1 < r.2 < line@.len(),
{
    let n = line.len();
    proof {
        assert(n <= usize::MAX);
        assert(line@.skip(0) =~= line@);
    }
    let i1 = match scan_byte(line, 0, B_COMMA) {
        Some(x) => x,
        None => {
            proof {
                lemma_count_zero(line@, B_COMMA);
                assert(false);
            }
            return (0, 0, 0);
        },
    };
    proof {
        lemma_count_split(line@, i1 + 1, B_COMMA);
        lemma_count_zero(line@.take(i1 as int), B_COMMA);
        assert(forall|j: int| 0 <= j < i1 ==> line@.take(i1 as int)[j] == line@[j]);
        assert(line@.take(i1 + 1).drop_last() =~= line@.take(i1 as int));
        assert(line@.take(i1 + 1).last() == line@[i1 as int]);
        assert(count_byte(line@.take(i1 + 1), B_COMMA) == 1);
        assert(count_byte(line@.skip(i1 + 1), B_COMMA) == 2);
    }
    let i2 = match scan_byte(line, i1 + 1, B_COMMA) {
        Some(x) => x,
        None => {
            proof {
                lemma_count_zero(line@.skip(i1 + 1), B_COMMA);
                assert(forall|k: int|
                    0 <= k < line@.skip(i1 + 1).len() ==> #[trigger] line@.skip(i1 + 1)[k]
                        == line@[i1 + 1 + k]);
                assert(false);
            }
            return (0, 0, 0);
        },
    };
    proof {
        lemma_count_split(line@.skip(i1 + 1), i2 - i1, B_COMMA);
        assert(forall|k: int|
            0 <= k < line@.skip(i1 + 1).len() ==> #[trigger] line@.skip(i1 + 1)[k] == line@[i1 + 1
                + k]);
        let pre = line@.skip(i1 + 1).take(i2 - i1);
        lemma_count_zero(pre.drop_last(), B_COMMA);
        assert(forall|k: int| 0 <= k < pre.len() - 1 ==> pre.drop_last()[k] == pre[k]);
        assert(pre.last() == line@[i2 as int]);
        assert(count_byte(pre, B_COMMA) == 1);
        assert(line@.skip(i1 + 1).skip(i2 - i1) =~= line@.skip(i2 + 1));
        assert(count_byte(line@.skip(i2 + 1), B_COMMA) == 1);
    }
    let i3 = match scan_byte(line, i2 + 1, B_COMMA) {
        Some(x) => x,
        None => {
            proof {
                lemma_count_zero(line@.skip(i2 + 1), B_COMMA);
                assert(forall|k: int|
                    0 <= k < line@.skip(i2 + 1).len() ==> #[trigger] line@.skip(i2 + 1)[k]
                        == line@[i2 + 1 + k]);
                assert(false);
            }
            return (0, 0, 0);
        },
    };
    (i1, i2, i3)
}

// ---------------------------------------------------------------------------
// The header row.
// ---------------------------------------------------------------------------
pub open spec fn spec_to_lower(b: u8) -> u8 {
    if 65 <= b && b <= 90 {
        (b + 32) as u8
    } else {
        b
    }
}

pub open spec fn lower_seq(s: Seq<u8>) -> Seq<u8> {
    Seq::new(s.len(), |i: int| spec_to_lower(s[i]))
}

pub open spec fn kw_type() -> Seq<u8> {
    seq![116u8, 121u8, 112u8, 101u8]
}

pub open spec fn kw_client() -> Seq<u8> {
    seq![99u8, 108u8, 105u8, 101u8, 110u8, 116u8]
}

pub open spec fn kw_tx() -> Seq<u8> {
    seq![116u8, 120u8]
}

pub open spec fn kw_amount() -> Seq<u8> {
    seq![97u8, 109u8, 111u8, 117u8, 110u8, 116u8]
}

/// The header row: the four column names in order, compared after
/// trimming and without regard to ASCII case.
pub open spec fn valid_header(line: Seq<u8>) -> bool {
    let fs = split4(line);
    &&& count_byte(line, B_COMMA) == 3
    &&& lower_seq(spec_trim(fs.0)) == kw_type()
    &&& lower_seq(spec_trim(fs.1)) == kw_client()
    &&& lower_seq(spec_trim(fs.2)) == kw_tx()
    &&& lower_seq(spec_trim(fs.3)) == kw_amount()
}

fn to_lower(b: u8) -> (r: u8)
    ensures
        r == spec_to_lower(b),
{
    if 65 <= b && b <= 90 {
        b + 32
    } else {
        b
    }
}

fn lower_vec(s: &[u8]) -> (v: Vec<u8>)
    ensures
        v@ == lower_seq(s@),
{
    let mut v: Vec<u8> = Vec::new();
    let mut i: usize = 0;
    while i < s.len()
        invariant
            0 <= i <= s@.len(),
            v@.len() == i,
            forall|j: int| 0 <= j < i ==> v@[j] == spec_to_lower(s@[j]),
        decreases s@.len() - i,
    {
        v.push(to_lower(s[i]));
        i += 1;
    }
    proof {
        assert(v@ =~= lower_seq(s@));
    }
    v
}

fn is_kw_type(f: &[u8]) -> (r: bool)
    ensures
        r <==> f@ == kw_type(),
{
    let r = f.len() == 4 && f[0] == 116 && f[1] == 121 && f[2] == 112 && f[3] == 101;
    proof {
        if r {
            assert(f@ =~= kw_type());
        }
    }
    r
}

fn is_kw_client(f: &[u8]) -> (r: bool)
    ensures
        r <==> f@ == kw_client(),
{
    let r = f.len() == 6 && f[0] == 99 && f[1] == 108 && f[2] == 105 && f[3] == 101 && f[4] == 110
        && f[5] == 116;
    proof {
        if r {
            assert(f@ =~= kw_client());
        }
    }
    r
}

fn is_kw_tx(f: &[u8]) -> (r: bool)
    ensures
        r <==> f@ == kw_tx(),
{
    let r = f.len() == 2 && f[0] == 116 && f[1] == 120;
    proof {
        if r {
            assert(f@ =~= kw_tx());
        }
    }
    r
}

fn is_kw_amount(f: &[u8]) -> (r: bool)
    ensures
        r <==> f@ == kw_amount(),
{
    let r = f.len() == 6 && f[0] == 97 && f[1] == 109 && f[2] == 111 && f[3] == 117 && f[4] == 110
        && f[5] == 116;
    proof {
        if r {
            assert(f@ =~= kw_amount());
        }
    }
    r
}

/// Decides whether a line is the expected header row.
pub fn check_header(line: &[u8]) -> (r: bool)
    ensures
        r == valid_header(line@),
{
    let n = line.len();
    proof {
        assert(line@.skip(0) =~= line@);
    }
    let commas = count_byte_from(line, 0, B_COMMA);
    if commas != 3 {
        return false;
    }
    let (i1, i2, i3) = comma_positions(line);
    let f0: &[u8] = vstd::slice::slice_subrange(line, 0, i1);
    let f1: &[u8] = vstd::slice::slice_subrange(line, i1 + 1, i2);
    let f2: &[u8] = vstd::slice::slice_subrange(line, i2 + 1, i3);
    let f3: &[u8] = vstd::slice::slice_subrange(line, i3 + 1, n);
    let t0 = lower_vec(trim(f0));
    let t1 = lower_vec(trim(f1));
    let t2 = lower_vec(trim(f2));
    let t3 = lower_vec(trim(f3));
    is_kw_type(t0.as_slice()) && is_kw_client(t1.as_slice()) && is_kw_tx(t2.as_slice())
        && is_kw_amount(t3.as_slice())
}

/// Splits one body line into its four columns and parses them.
pub fn parse_record_line(line: &[u8]) -> (res: Result<Record, LineError>)
    ensures
        ({
            let s = spec_parse_line(line@);
            match s {
                Ok(v) => res matches Ok(r) && record_matches(r, v),
                Err(ev) => res matches Err(e) && line_err_matches(e, ev),
            }
        }),
{
    let n = line.len();
    proof {
        assert(line@.skip(0) =~= line@);
    }
    let commas = count_byte_from(line, 0, B_COMMA);
    if commas != 3 {
        return Err(LineError::FieldCount { commas });
    }
    let (i1, i2, i3) = comma_positions(line);
    let f0: &[u8] = vstd::slice::slice_subrange(line, 0, i1);
    let f1: &[u8] = vstd::slice::slice_subrange(line, i1 + 1, i2);
    let f2: &[u8] = vstd::slice::slice_subrange(line, i2 + 1, i3);
    let f3: &[u8] = vstd::slice::slice_subrange(line, i3 + 1, n);
    let t0 = trim(f0);
    let t1 = trim(f1);
    let t2 = trim(f2);
    let t3 = trim(f3);
    let client_id: u32 = match parse_uint(t1) {
        Option::None => {
            return Err(LineError::InvalidDigit { field: 1 });
        },
        Option::Some(v) => {
            if v > u32::MAX as u64 {
                return Err(LineError::InvalidDigit { field: 1 });
            }
            v as u32
        },
    };
    let tx_id: u16 = match parse_uint(t2) {
        Option::None => {
            return Err(LineError::InvalidDigit { field: 2 });
        },
        Option::Some(v) => {
            if v > u16::MAX as u64 {
                return Err(LineError::InvalidDigit { field: 2 });
            }
            v as u16
        },
    };
    let amount: Option<Amount> = if t3.len() == 0 {
        None
    } else {
        match parse_amount(t3) {
            Option::None => {
                return Err(LineError::InvalidFloat);
            },
            Option::Some(a) => Some(a),
        }
    };
    let ty: Vec<u8> = vstd::slice::slice_to_vec(t0);
    Ok(Record { ty, client_id, tx_id, amount })
}

} // verus!
