use vstd::prelude::*;
use vstd::string::StringExecFns;

verus! {

/// The character for one decimal digit.
pub open spec fn digit_char(d: nat) -> char {
    ((48 + d) as u8) as char
}

/// Decimal rendering of a natural number, most significant digit first.
pub open spec fn dec_chars(n: nat) -> Seq<char>
    decreases n,
{
    if n < 10 {
        seq![digit_char(n)]
    } else {
        dec_chars(n / 10) + seq![digit_char(n % 10)]
    }
}

/// ASCII bytes read as the characters they encode.
pub open spec fn ascii_chars(s: Seq<u8>) -> Seq<char> {
    Seq::new(s.len(), |i: int| s[i] as char)
}

pub open spec fn ascii_seq(s: Seq<u8>) -> bool {
    forall|i: int| 0 <= i < s.len() ==> s[i] < 128
}

pub fn digit_str(d: u8) -> (s: &'static str)
    requires
        d < 10,
    ensures
        s@ =~= seq![digit_char(d as nat)],
{
    proof {
        reveal_strlit("0");
        reveal_strlit("1");
        reveal_strlit("2");
        reveal_strlit("3");
        reveal_strlit("4");
        reveal_strlit("5");
        reveal_strlit("6");
        reveal_strlit("7");
        reveal_strlit("8");
        reveal_strlit("9");
    }
    match d {
        0 => "0",
        1 => "1",
        2 => "2",
        3 => "3",
        4 => "4",
        5 => "5",
        6 => "6",
        7 => "7",
        8 => "8",
        _ => "9",
    }
}

/// Decimal rendering of `n`, e.g. `1052` becomes `"1052"`.
pub fn u64_to_string(n: u64) -> (s: String)
    ensures
        s@ == dec_chars(n as nat),
    decreases n,
{
    if n < 10 {
        let s = String::from_str(digit_str(n as u8));
        proof {
            assert(s@ =~= dec_chars(n as nat));
        }
        s
    } else {
        let mut s = u64_to_string(n / 10);
        s.append(digit_str((n % 10) as u8));
        proof {
            assert(s@ =~= dec_chars(n as nat));
        }
        s
    }
}

proof fn lemma_trim_front_ascii(s: Seq<u8>)
    requires
        ascii_seq(s),
    ensures
        ascii_seq(crate::util::trim_front(s)),
    decreases s.len(),
{
    if s.len() > 0 && crate::util::is_ws(s[0]) {
        assert(forall|i: int| 0 <= i < s.skip(1).len() ==> s.skip(1)[i] == s[i + 1]);
        lemma_trim_front_ascii(s.skip(1));
    }
}

proof fn lemma_trim_back_ascii(s: Seq<u8>)
    requires
        ascii_seq(s),
    ensures
        ascii_seq(crate::util::trim_back(s)),
    decreases s.len(),
{
    if s.len() > 0 && crate::util::is_ws(s.last()) {
        assert(forall|i: int| 0 <= i < s.len() - 1 ==> s.drop_last()[i] == s[i]);
        lemma_trim_back_ascii(s.drop_last());
    }
}

/// Trimming a field keeps its bytes, so it keeps them ASCII.
pub proof fn lemma_trim_ascii(s: Seq<u8>)
    requires
        ascii_seq(s),
    ensures
        ascii_seq(crate::util::spec_trim(s)),
{
    lemma_trim_front_ascii(s);
    lemma_trim_back_ascii(crate::util::trim_front(s));
}

/// Relies on std's `String::from_utf8_lossy`: ASCII bytes decode to
/// themselves, one character per byte.
#[verifier::external_body]
pub fn bytes_to_string(v: &[u8]) -> (s: String)
    ensures
        ascii_seq(v@) ==> s@ == ascii_chars(v@),
{
    String::from_utf8_lossy(v).into_owned()
}

} // verus!
