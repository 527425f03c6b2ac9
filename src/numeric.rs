use vstd::prelude::*;

verus! {

/// Whether `c` is an ASCII decimal digit.
pub open spec fn is_digit(c: char) -> bool {
    '0' <= c && c <= '9'
}

/// The value of the decimal digit `c`.
pub open spec fn digit_value(c: char) -> nat {
    (c as u32 - '0' as u32) as nat
}

/// Whether `s` is a non-empty run of decimal digits.
pub open spec fn is_digit_run(s: Seq<char>) -> bool {
    s.len() > 0 && forall|i: int| 0 <= i < s.len() ==> is_digit(#[trigger] s[i])
}

/// The number that the digits of `s` spell out, most significant first.
pub open spec fn digits_value(s: Seq<char>) -> nat
    decreases s.len(),
{
    if s.len() == 0 {
        0
    } else {
        digits_value(s.drop_last()) * 10 + digit_value(s.last())
    }
}

/// Whether `c` is a sign character.
pub open spec fn is_sign(c: char) -> bool {
    c == '+' || c == '-'
}

/// The signed integer that `s` writes in decimal: an optional `+` or `-`
/// followed by at least one digit, with no other character.
pub open spec fn int_literal(s: Seq<char>) -> Option<int> {
    if s.len() > 0 && is_sign(s[0]) {
        if is_digit_run(s.drop_first()) {
            let m = digits_value(s.drop_first()) as int;
            Some(if s[0] == '-' { -m } else { m })
        } else {
            None
        }
    } else if is_digit_run(s) {
        Some(digits_value(s) as int)
    } else {
        None
    }
}

/// The `i64` that the text `s` denotes, if it is an integer literal in range.
pub open spec fn long_literal(s: Seq<char>) -> Option<i64> {
    match int_literal(s) {
        Some(v) => if i64::MIN <= v <= i64::MAX { Some(v as i64) } else { None },
        None => None,
    }
}

/// The `u64` that the text `s` denotes: no minus sign, and the value in range.
pub open spec fn ulong_literal(s: Seq<char>) -> Option<u64> {
    if s.len() > 0 && s[0] == '-' {
        None
    } else {
        match int_literal(s) {
            Some(v) => if 0 <= v <= u64::MAX { Some(v as u64) } else { None },
            None => None,
        }
    }
}

proof fn lemma_digits_value_prefix(s: Seq<char>, k: int)
    requires
        0 <= k <= s.len(),
    ensures
        digits_value(s.subrange(0, k)) <= digits_value(s),
    decreases s.len() - k,
{
    if k < s.len() {
        lemma_digits_value_prefix(s, k + 1);
        let p = s.subrange(0, k + 1);
        assert(p.drop_last() =~= s.subrange(0, k));
    } else {
        assert(s.subrange(0, k) =~= s);
    }
}

/// The characters of `s`, one per element.
pub fn chars_of(s: &str) -> (r: Vec<char>)
    ensures
        r@ == s@,
{
    let n = s.unicode_len();
    let mut r: Vec<char> = Vec::new();
    let mut i: usize = 0;
    while i < n
        invariant
            n == s@.len(),
            i <= n,
            r@ == s@.subrange(0, i as int),
        decreases n - i,
    {
        r.push(s.get_char(i));
        i = i + 1;
    }
    assert(r@ =~= s@);
    r
}

/// Reads the digits of `s[start..]` as an unsigned magnitude: `None` when a
/// character there is not a digit, or the value does not fit in `u64`.
fn read_magnitude(s: &Vec<char>, start: usize) -> (r: Option<u64>)
    requires
        start <= s@.len(),
    ensures
        ({
            let body = s@.subrange(start as int, s@.len() as int);
            r == if (forall|i: int| 0 <= i < body.len() ==> is_digit(#[trigger] body[i]))
                && digits_value(body) <= u64::MAX {
                Some(digits_value(body) as u64)
            } else {
                None::<u64>
            }
        }),
{
    let ghost body = s@.subrange(start as int, s@.len() as int);
    let mut acc: u64 = 0;
    let mut i: usize = start;
    while i < s.len()
        invariant
            start <= i <= s@.len(),
            body == s@.subrange(start as int, s@.len() as int),
            forall|j: int| start <= j < i ==> is_digit(#[trigger] s@[j]),
            acc == digits_value(s@.subrange(start as int, i as int)),
        decreases s@.len() - i,
    {
        let c = s[i];
        let ghost pre = s@.subrange(start as int, i as int);
        let ghost next = s@.subrange(start as int, i + 1);
        assert(next.drop_last() =~= pre);
        if !('0' <= c && c <= '9') {
            assert(!is_digit(body[i - start]));
            return None;
        }
        let d = (c as u32 - '0' as u32) as u64;
        if acc > (u64::MAX - d) / 10 {
            assert(digits_value(next) > u64::MAX) by (nonlinear_arith)
                requires
                    acc > (u64::MAX - d) / 10,
                    digits_value(next) == acc * 10 + d,
                    d <= 9,
            ;
            proof {
                lemma_digits_value_prefix(body, i + 1 - start);
                assert(body.subrange(0, i + 1 - start) =~= next);
            }
            return None;
        }
        assert(acc * 10 + d <= u64::MAX) by (nonlinear_arith)
            requires
                acc <= (u64::MAX - d) / 10,
                d <= 9,
        ;
        acc = acc * 10 + d;
        i = i + 1;
    }
    assert(s@.subrange(start as int, i as int) =~= body);
    Some(acc)
}

/// Parses `s` as a decimal `i64`: an optional sign and at least one digit.
pub fn parse_long(s: &Vec<char>) -> (r: Option<i64>)
    ensures
        r == long_literal(s@),
{
    let n = s.len();
    let mut start: usize = 0;
    let mut neg = false;
    if n > 0 && (s[0] == '+' || s[0] == '-') {
        start = 1;
        neg = s[0] == '-';
    }
    let ghost body = s@.subrange(start as int, n as int);
    proof {
        if start == 1 {
            assert(body =~= s@.drop_first());
        } else {
            assert(body =~= s@);
        }
    }
    if start == n {
        return None;
    }
    match read_magnitude(s, start) {
        None => {
            proof {
                if is_digit_run(body) && digits_value(body) > u64::MAX {
                    assert(digits_value(body) > i64::MAX + 1);
                }
            }
            None
        },
        Some(m) => {
            if neg {
                if m <= 9223372036854775807 {
                    Some(-(m as i64))
                } else if m == 9223372036854775808 {
                    Some(i64::MIN)
                } else {
                    None
                }
            } else if m <= 9223372036854775807 {
                Some(m as i64)
            } else {
                None
            }
        },
    }
}

/// Parses `s` as a decimal `u64`: an optional `+` and at least one digit.
pub fn parse_ulong(s: &Vec<char>) -> (r: Option<u64>)
    ensures
        r == ulong_literal(s@),
{
    let n = s.len();
    if n > 0 && s[0] == '-' {
        return None;
    }
    let start: usize = if n > 0 && s[0] == '+' { 1 } else { 0 };
    let ghost body = s@.subrange(start as int, n as int);
    proof {
        if start == 1 {
            assert(body =~= s@.drop_first());
        } else {
            assert(body =~= s@);
        }
    }
    if start == n {
        return None;
    }
    read_magnitude(s, start)
}

/// Whether `c` is `e` or `E`, which opens the exponent of a float literal.
pub open spec fn is_exp_marker(c: char) -> bool {
    c == 'e' || c == 'E'
}

/// Whether `s` equals the lower-case ASCII word `word` once ASCII upper-case
/// letters are folded to lower case.
pub open spec fn equals_folded(s: Seq<char>, word: Seq<char>) -> bool {
    &&& s.len() == word.len()
    &&& forall|i: int|
        0 <= i < s.len() ==> (#[trigger] s[i] == word[i] || s[i] as u32 + 32 == word[i] as u32)
}

/// Whether `m` is the digits-and-point part of a float literal: digits and at
/// most one `.`, with at least one digit.
pub open spec fn is_mantissa(m: Seq<char>) -> bool {
    &&& forall|i: int| 0 <= i < m.len() ==> is_digit(#[trigger] m[i]) || m[i] == '.'
    &&& forall|i: int, j: int|
        0 <= i < m.len() && 0 <= j < m.len() && #[trigger] m[i] == '.' && #[trigger] m[j] == '.'
            ==> i == j
    &&& exists|i: int| 0 <= i < m.len() && is_digit(#[trigger] m[i])
}

/// Whether `e` is the part of a float literal after its `e`: an optional sign
/// and at least one digit.
pub open spec fn is_exponent(e: Seq<char>) -> bool {
    is_digit_run(e) || (e.len() > 0 && is_sign(e[0]) && is_digit_run(e.drop_first()))
}

/// Whether `s` is an unsigned decimal float: a mantissa, then optionally an
/// exponent marker and an exponent.
pub open spec fn is_decimal_float(s: Seq<char>) -> bool {
    exists|p: int|
        0 <= p <= s.len() && is_mantissa(#[trigger] s.subrange(0, p)) && (p == s.len() || (
        is_exp_marker(s[p]) && is_exponent(s.subrange(p + 1, s.len() as int))))
}

/// Whether `s` is a floating-point literal in the syntax that Rust's float
/// parsing accepts: an optional sign, then `inf`, `infinity` or `nan` in any
/// letter case, or a decimal number with an optional exponent.
pub open spec fn float_literal(s: Seq<char>) -> bool {
    let body = if s.len() > 0 && is_sign(s[0]) {
        s.drop_first()
    } else {
        s
    };
    ||| equals_folded(body, seq!['i', 'n', 'f'])
    ||| equals_folded(body, seq!['i', 'n', 'f', 'i', 'n', 'i', 't', 'y'])
    ||| equals_folded(body, seq!['n', 'a', 'n'])
    ||| is_decimal_float(body)
}

fn equals_folded_at(s: &Vec<char>, lo: usize, word: &Vec<char>) -> (r: bool)
    requires
        lo <= s@.len(),
    ensures
        r == equals_folded(s@.subrange(lo as int, s@.len() as int), word@),
{
    let ghost body = s@.subrange(lo as int, s@.len() as int);
    if s.len() - lo != word.len() {
        return false;
    }
    let mut i: usize = 0;
    while i < word.len()
        invariant
            lo <= s@.len(),
            body == s@.subrange(lo as int, s@.len() as int),
            body.len() == word@.len(),
            lo + word@.len() == s@.len(),
            s@.len() <= usize::MAX,
            i <= word@.len(),
            forall|k: int|
                0 <= k < i ==> (#[trigger] body[k] == word@[k] || body[k] as u32 + 32
                    == word@[k] as u32),
        decreases word@.len() - i,
    {
        let c = s[lo + i];
        let w = word[i];
        if !(c == w || c as u32 as u64 + 32 == w as u32 as u64) {
            assert(body[i as int] == c);
            return false;
        }
        i = i + 1;
    }
    true
}

fn is_mantissa_at(s: &Vec<char>, lo: usize, hi: usize) -> (r: bool)
    requires
        lo <= hi <= s@.len(),
    ensures
        r == is_mantissa(s@.subrange(lo as int, hi as int)),
{
    let ghost m = s@.subrange(lo as int, hi as int);
    let mut seen_dot = false;
    let mut dot_at: usize = 0;
    let mut seen_digit = false;
    let mut i: usize = lo;
    while i < hi
        invariant
            lo <= i <= hi <= s@.len(),
            m == s@.subrange(lo as int, hi as int),
            forall|k: int| lo <= k < i ==> is_digit(#[trigger] s@[k]) || s@[k] == '.',
            seen_dot ==> lo <= dot_at < i && s@[dot_at as int] == '.',
            forall|k: int| lo <= k < i && #[trigger] s@[k] == '.' ==> seen_dot && k == dot_at,
            seen_digit == exists|k: int| lo <= k < i && is_digit(#[trigger] s@[k]),
        decreases hi - i,
    {
        let c = s[i];
        if c == '.' {
            if seen_dot {
                assert(m[dot_at - lo] == '.' && m[i - lo] == '.');
                return false;
            }
            seen_dot = true;
            dot_at = i;
        } else if '0' <= c && c <= '9' {
            seen_digit = true;
        } else {
            assert(m[i - lo] == c);
            return false;
        }
        i = i + 1;
    }
    if !seen_digit {
        assert forall|k: int| 0 <= k < m.len() implies !is_digit(#[trigger] m[k]) by {
            assert(m[k] == s@[lo + k]);
        }
        return false;
    }
    proof {
        let k = choose|k: int| lo <= k < i && is_digit(#[trigger] s@[k]);
        assert(m[k - lo] == s@[k]);
        assert forall|a: int, b: int|
            0 <= a < m.len() && 0 <= b < m.len() && #[trigger] m[a] == '.' && #[trigger] m[b]
                == '.' implies a == b by {
            assert(m[a] == s@[lo + a]);
            assert(m[b] == s@[lo + b]);
        }
        assert forall|a: int| 0 <= a < m.len() implies is_digit(#[trigger] m[a]) || m[a]
            == '.' by {
            assert(m[a] == s@[lo + a]);
        }
    }
    true
}

fn is_digit_run_at(s: &Vec<char>, lo: usize) -> (r: bool)
    requires
        lo <= s@.len(),
    ensures
        r == is_digit_run(s@.subrange(lo as int, s@.len() as int)),
{
    let ghost body = s@.subrange(lo as int, s@.len() as int);
    if lo == s.len() {
        return false;
    }
    let mut i: usize = lo;
    while i < s.len()
        invariant
            lo <= i <= s@.len(),
            body == s@.subrange(lo as int, s@.len() as int),
            forall|k: int| lo <= k < i ==> is_digit(#[trigger] s@[k]),
        decreases s@.len() - i,
    {
        if !('0' <= s[i] && s[i] <= '9') {
            assert(body[i - lo] == s@[i as int]);
            return false;
        }
        i = i + 1;
    }
    assert forall|k: int| 0 <= k < body.len() implies is_digit(#[trigger] body[k]) by {
        assert(body[k] == s@[lo + k]);
    }
    true
}

fn is_exponent_at(s: &Vec<char>, lo: usize) -> (r: bool)
    requires
        lo <= s@.len(),
    ensures
        r == is_exponent(s@.subrange(lo as int, s@.len() as int)),
{
    let ghost e = s@.subrange(lo as int, s@.len() as int);
    if lo < s.len() && (s[lo] == '+' || s[lo] == '-') {
        assert(e.drop_first() =~= s@.subrange(lo + 1, s@.len() as int));
        assert(!is_digit(e[0]));
        is_digit_run_at(s, lo + 1)
    } else {
        is_digit_run_at(s, lo)
    }
}

fn is_decimal_float_at(s: &Vec<char>, lo: usize) -> (r: bool)
    requires
        lo <= s@.len(),
    ensures
        r == is_decimal_float(s@.subrange(lo as int, s@.len() as int)),
{
    let ghost b = s@.subrange(lo as int, s@.len() as int);
    let mut p: usize = lo;
    while p < s.len() && !(s[p] == 'e' || s[p] == 'E')
        invariant
            lo <= p <= s@.len(),
            forall|k: int| lo <= k < p ==> !is_exp_marker(#[trigger] s@[k]),
        decreases s@.len() - p,
    {
        p = p + 1;
    }
    let ghost q = p - lo;
    assert(b.subrange(0, q) =~= s@.subrange(lo as int, p as int));
    let r = is_mantissa_at(s, lo, p) && (p == s.len() || is_exponent_at(s, p + 1));
    proof {
        if p < s@.len() {
            assert(b.subrange(q + 1, b.len() as int) =~= s@.subrange(p + 1, s@.len() as int));
            assert(b[q] == s@[p as int]);
        }
        if r {
            assert(is_mantissa(b.subrange(0, q)));
        } else {
            assert forall|x: int|
                0 <= x <= b.len() && is_mantissa(#[trigger] b.subrange(0, x)) implies !(x
                == b.len() || (is_exp_marker(b[x]) && is_exponent(
                b.subrange(x + 1, b.len() as int)))) by {
                if x < q {
                    assert(b[x] == s@[lo + x]);
                } else if x > q {
                    assert(b.subrange(0, x)[q] == s@[p as int]);
                }
            }
        }
    }
    r
}

/// Whether `s` is a floating-point literal (see `float_literal`).
pub fn is_float_literal(s: &Vec<char>) -> (r: bool)
    ensures
        r == float_literal(s@),
{
    let lo: usize = if s.len() > 0 && (s[0] == '+' || s[0] == '-') { 1 } else { 0 };
    proof {
        if lo == 1 {
            assert(s@.subrange(1, s@.len() as int) =~= s@.drop_first());
        } else {
            assert(s@.subrange(0, s@.len() as int) =~= s@);
        }
    }
    equals_folded_at(s, lo, &vec!['i', 'n', 'f'])
        || equals_folded_at(s, lo, &vec!['i', 'n', 'f', 'i', 'n', 'i', 't', 'y'])
        || equals_folded_at(s, lo, &vec!['n', 'a', 'n'])
        || is_decimal_float_at(s, lo)
}

/// The character of the decimal digit `d`.
pub open spec fn digit_char(d: nat) -> char {
    seq!['0', '1', '2', '3', '4', '5', '6', '7', '8', '9'][d as int]
}

/// The decimal text of `n`, with no leading zero.
pub open spec fn nat_text(n: nat) -> Seq<char>
    decreases n,
{
    if n < 10 {
        seq![digit_char(n)]
    } else {
        nat_text(n / 10).push(digit_char(n % 10))
    }
}

/// The decimal text of `v`, with a `-` in front when it is negative.
pub open spec fn int_text(v: int) -> Seq<char> {
    if v < 0 {
        seq!['-'] + nat_text((-v) as nat)
    } else {
        nat_text(v as nat)
    }
}

fn digit_str(d: u64) -> (r: &'static str)
    requires
        d < 10,
    ensures
        r@ == seq![digit_char(d as nat)],
{
    proof {
        reveal_strlit("0");
        reveal_strlit("1");
        reveal_strlit("2");
        reveal_strlit("3");
        reveal_strlit("4");
        reveal_strlit("5");
        reveal_strlit("6");
        reveal_strlit("7");
        reveal_strlit("8");
        reveal_strlit("9");
    }
    let r = if d == 0 {
        "0"
    } else if d == 1 {
        "1"
    } else if d == 2 {
        "2"
    } else if d == 3 {
        "3"
    } else if d == 4 {
        "4"
    } else if d == 5 {
        "5"
    } else if d == 6 {
        "6"
    } else if d == 7 {
        "7"
    } else if d == 8 {
        "8"
    } else {
        "9"
    };
    assert(r@ =~= seq![digit_char(d as nat)]);
    r
}

/// The decimal text of `n`.
pub fn ulong_text(n: u64) -> (r: String)
    ensures
        r@ == nat_text(n as nat),
    decreases n,
{
    if n < 10 {
        String::from_str(digit_str(n))
    } else {
        let mut r = ulong_text(n / 10);
        r.append(digit_str(n % 10));
        r
    }
}

/// The decimal text of `v`, signed.
pub fn long_text(v: i64) -> (r: String)
    ensures
        r@ == int_text(v as int),
{
    if v < 0 {
        let m: u64 = (-(v as i128)) as u64;
        let digits = ulong_text(m);
        proof {
            reveal_strlit("-");
        }
        String::from_str("-").concat(digits.as_str())
    } else {
        ulong_text(v as u64)
    }
}

} // verus!
