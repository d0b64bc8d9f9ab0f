use vstd::prelude::*;

verus! {

// Byte constants for the delimited input format.
pub const B_TAB: u8 = 9;
pub const B_NL: u8 = 10;
pub const B_CR: u8 = 13;
pub const B_SPACE: u8 = 32;
pub const B_HASH: u8 = 35;
pub const B_COMMA: u8 = 44;
pub const B_DOT: u8 = 46;
pub const B_ZERO: u8 = 48;
pub const B_NINE: u8 = 57;

/// Whitespace that is trimmed from the ends of a field.
pub open spec fn is_ws(b: u8) -> bool {
    b == B_SPACE || b == B_TAB || b == B_CR
}

pub open spec fn is_digit(b: u8) -> bool {
    B_ZERO <= b && b <= B_NINE
}

/// Index of the first occurrence of byte `b` in `s`, or -1.
pub open spec fn find_byte(s: Seq<u8>, b: u8) -> int
    decreases s.len(),
{
    if s.len() == 0 {
        -1
    } else if s[0] == b {
        0
    } else {
        let r = find_byte(s.skip(1), b);
        if r < 0 {
            -1
        } else {
            r + 1
        }
    }
}

pub proof fn lemma_find_byte(s: Seq<u8>, b: u8)
    ensures
        find_byte(s, b) == -1 <==> (forall|i: int| 0 <= i < s.len() ==> s[i] != b),
        find_byte(s, b) != -1 ==> 0 <= find_byte(s, b) < s.len() && s[find_byte(s, b)] == b && (
        forall|i: int| 0 <= i < find_byte(s, b) ==> s[i] != b),
    decreases s.len(),
{
    if s.len() == 0 {
    } else if s[0] == b {
    } else {
        lemma_find_byte(s.skip(1), b);
        let r = find_byte(s.skip(1), b);
        assert(forall|i: int| 0 <= i < s.skip(1).len() ==> s.skip(1)[i] == s[i + 1]);
        if r < 0 {
            assert forall|i: int| 0 <= i < s.len() implies s[i] != b by {
                if i > 0 {
                    assert(s.skip(1)[i - 1] == s[i]);
                }
            }
        } else {
            assert(find_byte(s, b) == r + 1);
            assert(s.skip(1)[r] == s[r + 1]);
            assert forall|i: int| 0 <= i < r + 1 implies s[i] != b by {
                if i > 0 {
                    assert(s.skip(1)[i - 1] == s[i]);
                }
            }
        }
    }
}

/// How many times byte `b` occurs in `s`.
pub open spec fn count_byte(s: Seq<u8>, b: u8) -> nat
    decreases s.len(),
{
    if s.len() == 0 {
        0
    } else {
        count_byte(s.drop_last(), b) + if s.last() == b {
            1nat
        } else {
            0nat
        }
    }
}

pub open spec fn trim_front(s: Seq<u8>) -> Seq<u8>
    decreases s.len(),
{
    if s.len() > 0 && is_ws(s[0]) {
        trim_front(s.skip(1))
    } else {
        s
    }
}

pub open spec fn trim_back(s: Seq<u8>) -> Seq<u8>
    decreases s.len(),
{
    if s.len() > 0 && is_ws(s.last()) {
        trim_back(s.drop_last())
    } else {
        s
    }
}

/// A field with the whitespace removed from both ends.
pub open spec fn spec_trim(s: Seq<u8>) -> Seq<u8> {
    trim_back(trim_front(s))
}

/// Numeric value of a string of ASCII digits, most significant first.
pub open spec fn digits_val(s: Seq<u8>) -> nat
    decreases s.len(),
{
    if s.len() == 0 {
        0
    } else {
        digits_val(s.drop_last()) * 10 + (s.last() - B_ZERO) as nat
    }
}

pub open spec fn all_digits(s: Seq<u8>) -> bool {
    forall|i: int| 0 <= i < s.len() ==> is_digit(s[i])
}

pub open spec fn pow10(k: nat) -> nat
    decreases k,
{
    if k == 0 {
        1
    } else {
        10 * pow10((k - 1) as nat)
    }
}

/// A string of `n` digits has value below `10^n`.
pub proof fn lemma_digits_val_bound(s: Seq<u8>)
    requires
        all_digits(s),
    ensures
        digits_val(s) < pow10(s.len()),
    decreases s.len(),
{
    if s.len() == 0 {
    } else {
        assert(all_digits(s.drop_last()));
        lemma_digits_val_bound(s.drop_last());
        assert(is_digit(s.last()));
    }
}

pub proof fn lemma_count_zero(s: Seq<u8>, b: u8)
    ensures
        count_byte(s, b) == 0 <==> (forall|i: int| 0 <= i < s.len() ==> s[i] != b),
    decreases s.len(),
{
    if s.len() == 0 {
    } else {
        lemma_count_zero(s.drop_last(), b);
        assert(forall|i: int| 0 <= i < s.len() - 1 ==> s.drop_last()[i] == s[i]);
        assert(s.last() == s[s.len() - 1]);
    }
}

pub proof fn lemma_count_le(s: Seq<u8>, b: u8)
    ensures
        count_byte(s, b) <= s.len(),
    decreases s.len(),
{
    if s.len() > 0 {
        lemma_count_le(s.drop_last(), b);
    }
}

pub proof fn lemma_count_split(s: Seq<u8>, i: int, b: u8)
    requires
        0 <= i <= s.len(),
    ensures
        count_byte(s, b) == count_byte(s.take(i), b) + count_byte(s.skip(i), b),
    decreases s.len(),
{
    if i == s.len() {
        assert(s.take(i) =~= s);
        assert(s.skip(i) =~= Seq::<u8>::empty());
    } else {
        lemma_count_split(s.drop_last(), i, b);
        assert(s.drop_last().take(i) =~= s.take(i));
        assert(s.drop_last().skip(i) =~= s.skip(i).drop_last());
        assert(s.skip(i).last() == s.last());
    }
}

pub proof fn lemma_pow10_adds(a: nat, b: nat)
    ensures
        pow10(a + b) == pow10(a) * pow10(b),
    decreases a,
{
    if a == 0 {
        assert(pow10(0) == 1);
        assert(a + b == b);
        assert(pow10(a + b) == pow10(a) * pow10(b));
    } else {
        lemma_pow10_adds((a - 1) as nat, b);
        let x = pow10((a - 1) as nat);
        let y = pow10(b);
        assert((a + b - 1) as nat == (a - 1) as nat + b);
        assert(pow10(a) == 10 * x);
        assert(pow10(a + b) == 10 * pow10((a + b - 1) as nat));
        assert(pow10((a + b - 1) as nat) == x * y);
        assert(10 * (x * y) == (10 * x) * y) by (nonlinear_arith);
        assert(pow10(a + b) == pow10(a) * pow10(b));
    }
}

pub proof fn lemma_pow10_le(a: nat, b: nat)
    requires
        a <= b,
    ensures
        pow10(a) <= pow10(b),
    decreases b,
{
    if a < b {
        lemma_pow10_le(a, (b - 1) as nat);
        assert(pow10(b) == 10 * pow10((b - 1) as nat));
        assert(pow10((b - 1) as nat) >= 1) by {
            lemma_pow10_pos((b - 1) as nat);
        }
    }
}

pub proof fn lemma_pow10_pos(a: nat)
    ensures
        pow10(a) >= 1,
    decreases a,
{
    if a > 0 {
        lemma_pow10_pos((a - 1) as nat);
    }
}

// ---------------------------------------------------------------------------
// Executable counterparts.
// ---------------------------------------------------------------------------
pub fn ws(b: u8) -> (r: bool)
    ensures
        r == is_ws(b),
{
    b == B_SPACE || b == B_TAB || b == B_CR
}

pub fn digit(b: u8) -> (r: bool)
    ensures
        r == is_digit(b),
{
    B_ZERO <= b && b <= B_NINE
}

/// First occurrence of `b` in `s` at or after `from`, if any.
pub fn scan_byte(s: &[u8], from: usize, b: u8) -> (r: Option<usize>)
    requires
        from <= s@.len(),
    ensures
        match r {
            Some(k) => from <= k < s@.len() && s@[k as int] == b && (forall|j: int|
                from <= j < k ==> s@[j] != b) && find_byte(s@.skip(from as int), b) == k - from,
            None => (forall|j: int| from <= j < s@.len() ==> s@[j] != b) && find_byte(
                s@.skip(from as int),
                b,
            ) == -1,
        },
{
    let ghost tail = s@.skip(from as int);
    proof {
        lemma_find_byte(tail, b);
        assert(forall|j: int| 0 <= j < tail.len() ==> tail[j] == s@[from + j]);
    }
    let mut i: usize = from;
    while i < s.len()
        invariant
            from <= i <= s@.len(),
            tail == s@.skip(from as int),
            forall|j: int| from <= j < i ==> s@[j] != b,
        decreases s@.len() - i,
    {
        if s[i] == b {
            proof {
                lemma_find_byte(tail, b);
                assert(tail[i - from] == b);
                let f = find_byte(tail, b);
                assert(f != -1);
                assert(tail[f] == b);
                if f < i - from {
                    assert(s@[from + f] == b);
                    assert(false);
                }
                if f > i - from {
                    assert(false);
                }
            }
            return Some(i);
        }
        i += 1;
    }
    proof {
        lemma_find_byte(tail, b);
        if find_byte(tail, b) != -1 {
            let f = find_byte(tail, b);
            assert(s@[from + f] == b);
            assert(false);
        }
    }
    None
}

/// Trimmed view of a field: whitespace removed from both ends.
pub fn trim(s: &[u8]) -> (t: &[u8])
    ensures
        t@ == spec_trim(s@),
{
    proof {
        assert(s@.skip(0) =~= s@);
    }
    let mut lo: usize = 0;
    while lo < s.len() && ws(s[lo])
        invariant
            0 <= lo <= s@.len(),
            trim_front(s@) == trim_front(s@.skip(lo as int)),
        decreases s@.len() - lo,
    {
        proof {
            assert(s@.skip(lo as int)[0] == s@[lo as int]);
            assert(s@.skip(lo as int).skip(1) =~= s@.skip(lo as int + 1));
        }
        lo += 1;
    }
    proof {
        if lo < s@.len() {
            assert(s@.skip(lo as int)[0] == s@[lo as int]);
        }
        assert(trim_front(s@) == s@.skip(lo as int));
    }
    let ghost t1 = s@.skip(lo as int);
    proof {
        assert(t1.take(s@.len() - lo as int) =~= t1);
    }
    let mut hi: usize = s.len();
    while hi > lo && ws(s[hi - 1])
        invariant
            lo <= hi <= s@.len(),
            t1 == s@.skip(lo as int),
            trim_front(s@) == t1,
            trim_back(t1) == trim_back(t1.take(hi - lo as int)),
        decreases hi,
    {
        proof {
            let cur = t1.take(hi - lo as int);
            assert(cur.last() == s@[hi - 1]);
            assert(cur.drop_last() =~= t1.take(hi - 1 - lo as int));
        }
        hi -= 1;
    }
    proof {
        let cur = t1.take(hi - lo as int);
        if hi > lo {
            assert(cur.last() == s@[hi - 1]);
        }
        assert(trim_back(cur) == cur);
        assert(s@.subrange(lo as int, hi as int) =~= t1.take(hi - lo as int));
    }
    vstd::slice::slice_subrange(s, lo, hi)
}

/// Counts occurrences of `b` in `s` from position `from` on.
pub fn count_byte_from(s: &[u8], from: usize, b: u8) -> (c: usize)
    requires
        from <= s@.len(),
    ensures
        c == count_byte(s@.skip(from as int), b),
        c <= s@.len() - from,
{
    let mut cnt: usize = 0;
    let mut i: usize = from;
    proof {
        assert(s@.subrange(from as int, from as int) =~= Seq::<u8>::empty());
    }
    while i < s.len()
        invariant
            from <= i <= s@.len(),
            cnt == count_byte(s@.subrange(from as int, i as int), b),
            cnt <= i - from,
        decreases s@.len() - i,
    {
        proof {
            assert(s@.subrange(from as int, i + 1).drop_last() =~= s@.subrange(
                from as int,
                i as int,
            ));
            assert(s@.subrange(from as int, i + 1).last() == s@[i as int]);
        }
        if s[i] == b {
            cnt += 1;
        }
        i += 1;
    }
    proof {
        assert(s@.subrange(from as int, s@.len() as int) =~= s@.skip(from as int));
    }
    cnt
}

/// Parses a non-empty run of ASCII digits; `None` on empty input, a
/// non-digit byte, or a value that does not fit in `u64`.
pub open spec fn spec_parse_uint(s: Seq<u8>) -> Option<nat> {
    if s.len() > 0 && all_digits(s) {
        Some(digits_val(s))
    } else {
        None
    }
}

pub fn parse_uint(s: &[u8]) -> (r: Option<u64>)
    ensures
        match spec_parse_uint(s@) {
            Option::None => r is None,
            Option::Some(v) => if v <= u64::MAX {
                r == Some(v as u64)
            } else {
                r is None
            },
        },
{
    if s.len() == 0 {
        return None;
    }
    let mut acc: u64 = 0;
    let mut over: bool = false;
    let mut i: usize = 0;
    while i < s.len()
        invariant
            0 <= i <= s@.len(),
            all_digits(s@.take(i as int)),
            !over ==> acc == digits_val(s@.take(i as int)),
            over ==> digits_val(s@.take(i as int)) > u64::MAX,
        decreases s@.len() - i,
    {
        let b = s[i];
        if !digit(b) {
            proof {
                assert(!is_digit(s@[i as int]));
            }
            return None;
        }
        let d: u64 = (b - B_ZERO) as u64;
        proof {
            assert(s@.take(i + 1).drop_last() =~= s@.take(i as int));
            assert(s@.take(i + 1).last() == s@[i as int]);
        }
        if !over {
            if acc > (u64::MAX - d) / 10 {
                proof {
                    let m = u64::MAX - d;
                    assert(acc * 10 + d > u64::MAX) by (nonlinear_arith)
                        requires
                            acc > m / 10,
                            m == u64::MAX - d,
                            0 <= d <= 9,
                            acc <= u64::MAX,
                    ;
                }
                over = true;
            } else {
                proof {
                    let m = u64::MAX - d;
                    assert(acc * 10 + d <= u64::MAX) by (nonlinear_arith)
                        requires
                            acc <= m / 10,
                            m == u64::MAX - d,
                            0 <= d <= 9,
                    ;
                }
                acc = acc * 10 + d;
            }
        } else {
            proof {
                assert(digits_val(s@.take(i + 1)) >= digits_val(s@.take(i as int)) * 10);
            }
        }
        i += 1;
    }
    proof {
        assert(s@.take(s@.len() as int) =~= s@);
    }
    if over {
        None
    } else {
        Some(acc)
    }
}

} // verus!
