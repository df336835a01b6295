//! Exact fixed-point cell values: every numeric CSV cell is held as an
//! integer count of 10^-8 units, parsed exactly from its decimal text. A
//! cell that does not parse under this grammar stands for a missing value
//! and has its row dropped by the cleaning step.

use vstd::prelude::*;
use vstd::string::StrSliceExecFns;

verus! {

/// One whole unit in cell scale: 10^8.
pub const CELL_ONE: i128 = 100000000;

/// Ten to the `n`th power.
pub open spec fn pow10(n: nat) -> int
    decreases n,
{
    if n == 0 {
        1
    } else {
        10 * pow10((n - 1) as nat)
    }
}

/// Proof that powers of ten are positive and monotone.
pub proof fn lemma_pow10_monotone(a: nat, b: nat)
    requires
        a <= b,
    ensures
        0 < pow10(a) <= pow10(b),
    decreases b,
{
    if b > 0 {
        if a == b {
            lemma_pow10_monotone(0, (b - 1) as nat);
        } else {
            lemma_pow10_monotone(a, (b - 1) as nat);
        }
    }
}

/// Proof of the concrete powers of ten the parser's bounds rest on.
pub proof fn lemma_pow10_values()
    ensures
        pow10(8) == 100000000,
        pow10(18) == 1000000000000000000,
        pow10(20) == 100000000000000000000,
{
    assert(pow10(0) == 1);
    assert(pow10(1) == 10);
    assert(pow10(2) == 100);
    assert(pow10(3) == 1000);
    assert(pow10(4) == 10000);
    assert(pow10(5) == 100000);
    assert(pow10(6) == 1000000);
    assert(pow10(7) == 10000000);
    assert(pow10(8) == 100000000);
    assert(pow10(9) == 1000000000);
    assert(pow10(10) == 10000000000);
    assert(pow10(11) == 100000000000);
    assert(pow10(12) == 1000000000000);
    assert(pow10(13) == 10000000000000);
    assert(pow10(14) == 100000000000000);
    assert(pow10(15) == 1000000000000000);
    assert(pow10(16) == 10000000000000000);
    assert(pow10(17) == 100000000000000000);
    assert(pow10(18) == 1000000000000000000);
    assert(pow10(19) == 10000000000000000000);
    assert(pow10(20) == 100000000000000000000);
}

/// Whether `c` is a decimal digit.
pub open spec fn is_digit(c: char) -> bool {
    48 <= c as u32 <= 57
}

/// The value of one digit character.
pub open spec fn digit_val(c: char) -> int {
    c as u32 - 48
}

/// Whether every character of `s` is a decimal digit.
pub open spec fn all_digits(s: Seq<char>) -> bool {
    forall|j: int| 0 <= j < s.len() ==> is_digit(#[trigger] s[j])
}

/// The value of a digit string, most significant digit first.
pub open spec fn digits_val(s: Seq<char>) -> int
    decreases s.len(),
{
    if s.len() == 0 {
        0
    } else {
        digits_val(s.drop_last()) * 10 + digit_val(s.last())
    }
}

/// Proof that a digit string's value is bounded by the power of ten of its
/// length.
pub proof fn lemma_digits_val_bound(s: Seq<char>)
    requires
        all_digits(s),
    ensures
        0 <= digits_val(s) < pow10(s.len()),
    decreases s.len(),
{
    if s.len() > 0 {
        assert(all_digits(s.drop_last())) by {
            assert(forall|j: int| 0 <= j < s.len() - 1 ==> s.drop_last()[j] == #[trigger] s[j]);
        }
        lemma_digits_val_bound(s.drop_last());
        assert(is_digit(s[s.len() - 1]));
    }
}

/// The index of the first occurrence of `c` in `s`, or `s.len()` if none.
pub open spec fn idx_of_char(s: Seq<char>, c: char) -> nat
    decreases s.len(),
{
    if s.len() == 0 {
        0
    } else if s[0] == c {
        0
    } else {
        1 + idx_of_char(s.skip(1), c)
    }
}

/// Proof that a first character index is determined by what it
/// characterizes.
pub proof fn lemma_idx_of_char_is(s: Seq<char>, c: char, m: int)
    requires
        0 <= m <= s.len(),
        forall|j: int| 0 <= j < m ==> #[trigger] s[j] != c,
        m < s.len() ==> s[m] == c,
    ensures
        idx_of_char(s, c) == m,
    decreases s.len(),
{
    if s.len() > 0 && s[0] != c {
        assert(m > 0);
        assert forall|j: int| 0 <= j < m - 1 implies #[trigger] s.skip(1)[j] != c by {
            assert(s.skip(1)[j] == s[j + 1]);
        }
        assert(m - 1 < s.skip(1).len() ==> s.skip(1)[m - 1] == c);
        lemma_idx_of_char_is(s.skip(1), c, m - 1);
    }
}

/// The exact cell value of a decimal text, in 10^-8 units: an optional
/// leading minus sign, one to twenty integer digits, and optionally a dot
/// followed by one to eight fraction digits. Anything else — in particular
/// an empty cell — is a missing value.
pub open spec fn spec_cell_value(s: Seq<char>) -> Option<int> {
    let neg = s.len() > 0 && s[0] == '-';
    let body = if neg {
        s.skip(1)
    } else {
        s
    };
    let dot = idx_of_char(body, '.');
    let ip = body.take(dot as int);
    if !(1 <= ip.len() <= 20 && all_digits(ip)) {
        None
    } else if dot >= body.len() {
        if neg {
            Some(-(digits_val(ip) * pow10(8)))
        } else {
            Some(digits_val(ip) * pow10(8))
        }
    } else {
        let fp = body.skip(dot + 1 as int);
        if !(1 <= fp.len() <= 8 && all_digits(fp)) {
            None
        } else {
            let mag = digits_val(ip) * pow10(8) + digits_val(fp) * pow10((8 - fp.len()) as nat);
            if neg {
                Some(-mag)
            } else {
                Some(mag)
            }
        }
    }
}

/// Whether `s@[j]` is a decimal digit, and its value.
fn digit_at(s: &str, j: usize) -> (r: Option<u32>)
    requires
        j < s@.len(),
    ensures
        r is Some <==> is_digit(s@[j as int]),
        r matches Some(d) ==> d == digit_val(s@[j as int]) && d <= 9,
{
    let v = s.get_char(j) as u32;
    if 48 <= v && v <= 57 {
        Some(v - 48)
    } else {
        None
    }
}

/// The value of the digit run `s@[from..to]`; `None` if a non-digit occurs.
pub(crate) fn digits_val_exec(s: &str, from: usize, to: usize) -> (r: Option<i128>)
    requires
        from <= to <= s@.len(),
        to - from <= 20,
    ensures
        r is Some <==> all_digits(s@.subrange(from as int, to as int)),
        r matches Some(v) ==> v == digits_val(s@.subrange(from as int, to as int)) && 0 <= v
            < pow10((to - from) as nat),
{
    let ghost whole = s@.subrange(from as int, to as int);
    let mut val: i128 = 0;
    let mut j = from;
    proof {
        lemma_pow10_values();
        assert(whole.subrange(0, 0) =~= Seq::<char>::empty());
    }
    while j < to
        invariant
            from <= j <= to <= s@.len(),
            to - from <= 20,
            whole == s@.subrange(from as int, to as int),
            all_digits(whole.subrange(0, j - from)),
            val == digits_val(whole.subrange(0, j - from)),
            0 <= val < pow10((j - from) as nat),
            pow10(20) == 100000000000000000000,
        decreases to - j,
    {
        let ghost prefix = whole.subrange(0, j - from);
        match digit_at(s, j) {
            None => {
                proof {
                    assert(whole[j - from] == s@[j as int]);
                }
                return None;
            },
            Some(d) => {
                proof {
                    assert(whole[j - from] == s@[j as int]);
                    lemma_pow10_monotone((j - from + 1) as nat, 20);
                    assert(pow10((j - from + 1) as nat) == 10 * pow10((j - from) as nat));
                    assert(whole.subrange(0, j - from + 1).drop_last() =~= prefix);
                    assert(whole.subrange(0, j - from + 1).last() == whole[j - from]);
                }
                val = val * 10 + (d as i128);
                j = j + 1;
            },
        }
    }
    proof {
        assert(whole.subrange(0, whole.len() as int) =~= whole);
    }
    Some(val)
}

/// Parses one cell's decimal text into its exact value in 10^-8 units;
/// `None` stands for a missing value.
pub fn parse_cell(s: &str) -> (r: Option<i128>)
    ensures
        r is Some <==> spec_cell_value(s@) is Some,
        r matches Some(v) ==> spec_cell_value(s@) == Some(v as int),
{
    let n = s.unicode_len();
    let neg = n > 0 && s.get_char(0) as u32 == 45;
    let start: usize = if neg {
        1
    } else {
        0
    };
    let ghost body = if neg {
        s@.skip(1)
    } else {
        s@
    };
    assert(body =~= s@.subrange(start as int, n as int));
    // find the dot inside the body
    let mut dot = start;
    while dot < n && !is_dot_at(s, dot)
        invariant
            start <= dot <= n,
            n == s@.len(),
            forall|k: int| start <= k < dot ==> #[trigger] s@[k] != '.',
        decreases n - dot,
    {
        dot = dot + 1;
    }
    proof {
        assert forall|k: int| 0 <= k < dot - start implies #[trigger] body[k] != '.' by {
            assert(body[k] == s@[start + k]);
        }
        if dot < n {
            assert(body[dot - start] == s@[dot as int]);
        }
        lemma_idx_of_char_is(body, '.', dot - start as int);
        lemma_pow10_values();
    }
    let ghost ip = body.take(dot - start as int);
    assert(ip =~= s@.subrange(start as int, dot as int));
    if dot - start < 1 || dot - start > 20 {
        return None;
    }
    let ipval = match digits_val_exec(s, start, dot) {
        None => {
            return None;
        },
        Some(v) => v,
    };
    proof {
        lemma_digits_val_bound(ip);
        lemma_pow10_monotone(ip.len() as nat, 20);
        assert(ipval * 100000000 < 100000000000000000000 * 100000000 && 0 <= ipval * 100000000)
            by (nonlinear_arith)
            requires
                0 <= ipval < 100000000000000000000i128,
        ;
    }
    let scaled_ip: i128 = ipval * CELL_ONE;
    if dot >= n {
        // no fraction part
        if neg {
            return Some(-scaled_ip);
        }
        return Some(scaled_ip);
    }
    let ghost fp = body.skip(dot - start + 1);
    assert(fp =~= s@.subrange(dot + 1 as int, n as int));
    if n - dot - 1 < 1 || n - dot - 1 > 8 {
        return None;
    }
    let fpval = match digits_val_exec(s, dot + 1, n) {
        None => {
            return None;
        },
        Some(v) => v,
    };
    let scale = pow10_exec(8 - (n - dot - 1));
    proof {
        lemma_digits_val_bound(fp);
        lemma_pow10_monotone((8 - fp.len()) as nat, 8);
        lemma_pow10_monotone(fp.len() as nat, 8);
        assert(fpval * scale <= fpval * 100000000 && fpval * scale >= 0 && fpval * 100000000
            < 100000000 * 100000000) by (nonlinear_arith)
            requires
                0 <= fpval < 100000000i128,
                0 < scale <= 100000000i128,
        ;
    }
    let mag: i128 = scaled_ip + fpval * scale;
    if neg {
        Some(-mag)
    } else {
        Some(mag)
    }
}

/// Whether `s@[j]` is the decimal dot.
fn is_dot_at(s: &str, j: usize) -> (r: bool)
    requires
        j < s@.len(),
    ensures
        r == (s@[j as int] == '.'),
{
    s.get_char(j) as u32 == 46
}

/// Ten to the `k`th power, as a cell value.
fn pow10_exec(k: usize) -> (r: i128)
    requires
        k <= 20,
    ensures
        r == pow10(k as nat),
        0 < r <= 100000000000000000000,
{
    proof {
        lemma_pow10_values();
    }
    let mut r: i128 = 1;
    let mut i: usize = 0;
    while i < k
        invariant
            i <= k <= 20,
            r == pow10(i as nat),
        decreases k - i,
    {
        proof {
            lemma_pow10_monotone((i + 1) as nat, 20);
            lemma_pow10_values();
            assert(pow10((i + 1) as nat) == 10 * pow10(i as nat));
        }
        r = r * 10;
        i = i + 1;
    }
    proof {
        lemma_pow10_monotone(k as nat, 20);
        lemma_pow10_monotone(0, k as nat);
        lemma_pow10_values();
    }
    r
}

} // verus!
