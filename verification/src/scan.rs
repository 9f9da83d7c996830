//! Byte-level scanning primitives shared by the response decoder: whitespace,
//! decimal digit runs, string bodies, and the decimal numeral of a `u64`.
use vstd::prelude::*;

verus! {

/// JSON insignificant whitespace: space, tab, line feed, carriage return.
pub open spec fn is_ws_byte(b: u8) -> bool {
    b == 32 || b == 9 || b == 10 || b == 13
}

/// ASCII decimal digit.
pub open spec fn is_digit_byte(b: u8) -> bool {
    48 <= b && b <= 57
}

/// A byte that may stand unescaped inside a string body: anything but the
/// closing quote, a backslash, or a control byte.
pub open spec fn is_text_byte(b: u8) -> bool {
    b != 34 && b != 92 && b >= 32
}

/// Index of the first non-whitespace byte at or after `i`.
pub open spec fn skip_ws(s: Seq<u8>, i: int) -> int
    decreases s.len() - i,
{
    if 0 <= i && i < s.len() && is_ws_byte(s[i]) {
        skip_ws(s, i + 1)
    } else {
        i
    }
}


/// If nothing at `i` is whitespace, skipping is the identity.
pub proof fn lemma_skip_ws_noop(s: Seq<u8>, i: int)
    requires
        0 <= i <= s.len(),
        i < s.len() ==> !is_ws_byte(s[i]),
    ensures
        skip_ws(s, i) == i,
{
}

pub fn skip_ws_x(s: &[u8], i: usize) -> (r: usize)
    requires
        i <= s@.len(),
    ensures
        r == skip_ws(s@, i as int),
        i <= r <= s@.len(),
        r < s@.len() ==> !is_ws_byte(s@[r as int]),
{
    let n = s.len();
    let mut j = i;
    while j < n && (s[j] == 32 || s[j] == 9 || s[j] == 10 || s[j] == 13)
        invariant
            i <= j <= n,
            n == s@.len(),
            skip_ws(s@, i as int) == skip_ws(s@, j as int),
        decreases n - j,
    {
        j = j + 1;
    }
    j
}

/// Index of the first non-digit byte at or after `i`.
pub open spec fn digits_end(s: Seq<u8>, i: int) -> int
    decreases s.len() - i,
{
    if 0 <= i && i < s.len() && is_digit_byte(s[i]) {
        digits_end(s, i + 1)
    } else {
        i
    }
}

pub proof fn lemma_digits_end_bounds(s: Seq<u8>, i: int)
    requires
        0 <= i <= s.len(),
    ensures
        i <= digits_end(s, i) <= s.len(),
        digits_end(s, i) < s.len() ==> !is_digit_byte(s[digits_end(s, i)]),
        forall|t: int| i <= t < digits_end(s, i) ==> is_digit_byte(s[t]),
    decreases s.len() - i,
{
    if i < s.len() && is_digit_byte(s[i]) {
        lemma_digits_end_bounds(s, i + 1);
    }
}

pub fn digits_end_x(s: &[u8], i: usize) -> (r: usize)
    requires
        i <= s@.len(),
    ensures
        r == digits_end(s@, i as int),
        i <= r <= s@.len(),
{
    let n = s.len();
    let mut j = i;
    while j < n && 48 <= s[j] && s[j] <= 57
        invariant
            i <= j <= n,
            n == s@.len(),
            digits_end(s@, i as int) == digits_end(s@, j as int),
        decreases n - j,
    {
        j = j + 1;
    }
    j
}

/// Value of the decimal digit run `s[i..j)`, most significant digit first.
pub open spec fn digits_val(s: Seq<u8>, i: int, j: int) -> nat
    decreases j - i,
{
    if i < j {
        digits_val(s, i, j - 1) * 10 + (if s[j - 1] >= 48 { (s[j - 1] - 48) as nat } else { 0 })
    } else {
        0
    }
}

/// An unsigned decimal integer: a nonempty digit run without a superfluous
/// leading zero, whose value fits in a `u64`.  Returns the value and the
/// index just past the run.
pub open spec fn spec_parse_u64(s: Seq<u8>, i: int) -> Option<(u64, int)> {
    let j = digits_end(s, i);
    if j == i {
        None
    } else if s[i] == 48 && j > i + 1 {
        None
    } else if digits_val(s, i, j) > u64::MAX {
        None
    } else {
        Some((digits_val(s, i, j) as u64, j))
    }
}


pub fn parse_u64_x(s: &[u8], i: usize) -> (r: Option<(u64, usize)>)
    requires
        i <= s@.len(),
    ensures
        match r {
            Some(p) => spec_parse_u64(s@, i as int) == Some((p.0, p.1 as int)) && i < p.1
                <= s@.len(),
            None => spec_parse_u64(s@, i as int) is None,
        },
{
    let n = s.len();
    let mut j = i;
    let mut acc: u64 = 0;
    let mut over = false;
    while j < n && 48 <= s[j] && s[j] <= 57
        invariant
            i <= j <= n,
            n == s@.len(),
            digits_end(s@, i as int) == digits_end(s@, j as int),
            !over ==> acc == digits_val(s@, i as int, j as int),
            over ==> digits_val(s@, i as int, j as int) > u64::MAX,
        decreases n - j,
    {
        let d = s[j] - 48;
        proof {
            assert(digits_val(s@, i as int, j + 1 as int) == digits_val(s@, i as int, j as int)
                * 10 + d);
        }
        if !over {
            if acc > (u64::MAX - d as u64) / 10 {
                proof {
                    let q = (u64::MAX - d) as int / 10;
                    vstd::arithmetic::div_mod::lemma_fundamental_div_mod((u64::MAX - d) as int, 10);
                    vstd::arithmetic::mul::lemma_mul_inequality(q + 1, acc as int, 10);
                    assert(acc as int * 10 + d > u64::MAX);
                }
                over = true;
            } else {
                proof {
                    let q = (u64::MAX - d) as int / 10;
                    vstd::arithmetic::div_mod::lemma_fundamental_div_mod((u64::MAX - d) as int, 10);
                    vstd::arithmetic::mul::lemma_mul_inequality(acc as int, q, 10);
                    assert(acc as int * 10 + d <= u64::MAX);
                }
                acc = acc * 10 + d as u64;
            }
        } else {
            proof {
                let v = digits_val(s@, i as int, j as int);
                vstd::arithmetic::mul::lemma_mul_inequality(1, 10, v as int);
                assert(v * 10 >= v);
            }
        }
        j = j + 1;
    }
    if j == i {
        return None;
    }
    if s[i] == 48 && j > i + 1 {
        return None;
    }
    if over {
        return None;
    }
    Some((acc, j))
}

/// Index of the quote closing a string body that starts at `i` (just past the
/// opening quote).  `None` when a backslash, a control byte, or the end of
/// input intervenes: the decoder keeps string bodies escape-free.
pub open spec fn str_end(s: Seq<u8>, i: int) -> Option<int>
    decreases s.len() - i,
{
    if !(0 <= i && i < s.len()) {
        None
    } else if s[i] == 34 {
        Some(i)
    } else if !is_text_byte(s[i]) {
        None
    } else {
        str_end(s, i + 1)
    }
}


/// A body of text bytes terminated by a quote scans to exactly that quote.
pub proof fn lemma_str_end_complete(s: Seq<u8>, i: int, e: int)
    requires
        0 <= i <= e < s.len(),
        s[e] == 34,
        forall|t: int| i <= t < e ==> is_text_byte(s[t]),
    ensures
        str_end(s, i) == Some(e),
    decreases e - i,
{
    if i < e {
        assert(is_text_byte(s[i]));
        lemma_str_end_complete(s, i + 1, e);
    }
}

pub fn str_end_x(s: &[u8], i: usize) -> (r: Option<usize>)
    requires
        i <= s@.len(),
    ensures
        match r {
            Some(e) => str_end(s@, i as int) == Some(e as int) && i <= e < s@.len(),
            None => str_end(s@, i as int) is None,
        },
{
    let n = s.len();
    let mut j = i;
    while j < n
        invariant
            i <= j <= n,
            n == s@.len(),
            str_end(s@, i as int) == str_end(s@, j as int),
        decreases n - j,
    {
        if s[j] == 34 {
            return Some(j);
        }
        if s[j] == 92 || s[j] < 32 {
            return None;
        }
        j = j + 1;
    }
    None
}

/// The decimal numeral of `n`, most significant digit first.
pub open spec fn spec_digits_of(n: nat) -> Seq<u8>
    decreases n,
{
    if n < 10 {
        seq![(48 + n) as u8]
    } else {
        spec_digits_of(n / 10).push((48 + n % 10) as u8)
    }
}

pub proof fn lemma_digits_of_props(n: nat)
    ensures
        spec_digits_of(n).len() >= 1,
        forall|t: int| 0 <= t < spec_digits_of(n).len() ==> is_digit_byte(spec_digits_of(n)[t]),
        spec_digits_of(n)[0] == 48 ==> n < 10,
    decreases n,
{
    if n >= 10 {
        lemma_digits_of_props(n / 10);
    }
}

/// Reading back a numeral embedded in `s` yields the number it was written
/// from: the digit run `[i, j)` holding the numeral of `n` has value `n`.
pub proof fn lemma_digits_of_val(s: Seq<u8>, i: int, j: int, n: nat)
    requires
        0 <= i < j <= s.len(),
        s.subrange(i, j) =~= spec_digits_of(n),
    ensures
        digits_val(s, i, j) == n,
    decreases n,
{
    lemma_digits_of_props(n);
    if n < 10 {
        assert(j == i + 1);
        assert(s.subrange(i, j)[0] == s[i]);
        assert(s[i] == (48 + n) as u8);
        assert(digits_val(s, i, i) == 0);
    } else {
        assert(s[j - 1] == spec_digits_of(n)[j - 1 - i]);
        assert(s[j - 1] == (48 + n % 10) as u8);
        assert(s.subrange(i, j - 1) =~= spec_digits_of(n / 10)) by {
            assert forall|t: int| 0 <= t < j - 1 - i implies #[trigger] s.subrange(i, j - 1)[t]
                == spec_digits_of(n / 10)[t] by {
                assert(s.subrange(i, j)[t] == spec_digits_of(n)[t]);
            }
        }
        lemma_digits_of_val(s, i, j - 1, n / 10);
        assert(digits_val(s, i, j) == (n / 10) * 10 + n % 10);
        vstd::arithmetic::div_mod::lemma_fundamental_div_mod(n as int, 10);
    }
}

/// A numeral written into `s` and followed by a non-digit parses back to the
/// number it was written from.
pub proof fn lemma_parse_u64_complete(s: Seq<u8>, i: int, j: int, n: u64)
    requires
        0 <= i < j <= s.len(),
        s.subrange(i, j) =~= spec_digits_of(n as nat),
        j == s.len() || !is_digit_byte(s[j]),
    ensures
        spec_parse_u64(s, i) == Some((n, j)),
{
    lemma_digits_of_props(n as nat);
    assert forall|t: int| i <= t < j implies is_digit_byte(s[t]) by {
        assert(s.subrange(i, j)[t - i] == s[t]);
    }
    lemma_digits_end_from(s, i, j);
    lemma_digits_of_val(s, i, j, n as nat);
    assert(s.subrange(i, j)[0] == s[i]);
    if s[i] == 48 {
        assert(n < 10);
        assert(j == i + 1);
    }
}

/// A run of digits over `[i, j)` followed by a non-digit ends exactly at `j`.
pub proof fn lemma_digits_end_from(s: Seq<u8>, i: int, j: int)
    requires
        0 <= i <= j <= s.len(),
        forall|t: int| i <= t < j ==> is_digit_byte(s[t]),
        j == s.len() || !is_digit_byte(s[j]),
    ensures
        digits_end(s, i) == j,
    decreases j - i,
{
    if i < j {
        lemma_digits_end_from(s, i + 1, j);
    }
}

/// Renders `n` in decimal, most significant digit first.
pub fn u64_to_digits(n: u64) -> (v: Vec<u8>)
    ensures
        v@ =~= spec_digits_of(n as nat),
{
    let mut rev: Vec<u8> = Vec::new();
    rev.push((n % 10) as u8 + 48);
    let mut m = n / 10;
    proof {
        assert(rev_bytes(rev@) =~= seq![(48 + n as nat % 10) as u8]);
        if n < 10 {
            assert(spec_digits_of(n as nat) =~= rev_bytes(rev@));
        }
    }
    while m > 0
        invariant
            rev@.len() >= 1,
            spec_digits_of(n as nat) =~= (if m > 0 {
                spec_digits_of(m as nat)
            } else {
                Seq::<u8>::empty()
            }) + rev_bytes(rev@),
        decreases m,
    {
        let ghost prev = rev@;
        let d = (m % 10) as u8 + 48;
        rev.push(d);
        proof {
            assert(rev_bytes(rev@) =~= seq![d] + rev_bytes(prev));
            if m >= 10 {
                assert(spec_digits_of(m as nat) == spec_digits_of((m as nat) / 10).push(
                    (48 + m as nat % 10) as u8,
                ));
                assert(spec_digits_of((m as nat) / 10) + rev_bytes(rev@) =~= spec_digits_of(
                    m as nat,
                ) + rev_bytes(prev));
            } else {
                assert(spec_digits_of(m as nat) =~= seq![d]);
                assert(rev_bytes(rev@) =~= spec_digits_of(m as nat) + rev_bytes(prev));
            }
        }
        m = m / 10;
    }
    let mut out: Vec<u8> = Vec::new();
    let len = rev.len();
    let mut k = len;
    while k > 0
        invariant
            k <= len,
            len == rev@.len(),
            out@.len() == len - k,
            forall|t: int| 0 <= t < out@.len() ==> out@[t] == rev@[len - 1 - t],
        decreases k,
    {
        k = k - 1;
        out.push(rev[k]);
    }
    proof {
        assert(out@ =~= rev_bytes(rev@));
    }
    out
}

/// `s` reversed.
pub open spec fn rev_bytes(s: Seq<u8>) -> Seq<u8> {
    Seq::new(s.len(), |t: int| s[s.len() - 1 - t])
}

/// Whether `s[lo..hi)` equals `k`, decided byte by byte.
pub fn range_eq(s: &[u8], lo: usize, hi: usize, k: &[u8]) -> (r: bool)
    requires
        lo <= hi <= s@.len(),
    ensures
        r == (s@.subrange(lo as int, hi as int) == k@),
{
    if hi - lo != k.len() {
        proof {
            assert(s@.subrange(lo as int, hi as int).len() != k@.len());
        }
        return false;
    }
    let m = k.len();
    let mut t: usize = 0;
    while t < m
        invariant
            t <= m,
            m == k@.len(),
            lo <= hi <= s@.len(),
            hi - lo == m,
            forall|u: int| 0 <= u < t ==> s@[lo + u] == k@[u],
        decreases m - t,
    {
        if s[lo + t] != k[t] {
            proof {
                assert(s@.subrange(lo as int, hi as int)[t as int] != k@[t as int]);
            }
            return false;
        }
        t = t + 1;
    }
    proof {
        assert(s@.subrange(lo as int, hi as int) =~= k@);
    }
    true
}

} // verus!
