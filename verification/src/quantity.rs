//! Kubernetes resource quantities: parsing CPU and memory strings into
//! millicores and bytes, and rendering them back for display.
use vstd::prelude::*;
use crate::text::{dec_repr, digit_char, seq_ends_with, chars_of, append_u64, push_digit};

verus! {

/// `c` is an ASCII decimal digit.
pub open spec fn is_digit(c: char) -> bool {
    '0' <= c && c <= '9'
}

pub open spec fn digit_value(c: char) -> nat {
    (c as int - 48) as nat
}

pub open spec fn all_digits(s: Seq<char>) -> bool {
    forall|i: int| 0 <= i < s.len() ==> is_digit(#[trigger] s[i])
}

/// The number written by the digit string `s` (most significant first).
pub open spec fn digits_value(s: Seq<char>) -> nat
    decreases s.len(),
{
    if s.len() == 0 {
        0
    } else {
        digits_value(s.drop_last()) * 10 + digit_value(s.last())
    }
}

/// What `str::parse::<u64>` gives: an optional `+`, then one or more
/// decimal digits whose value fits in a `u64`.
pub open spec fn parse_u64_spec(s: Seq<char>) -> Option<u64> {
    let body = if s.len() > 0 && s[0] == '+' { s.drop_first() } else { s };
    if body.len() > 0 && all_digits(body) && digits_value(body) <= u64::MAX {
        Some(digits_value(body) as u64)
    } else {
        None
    }
}

/// `parse::<u64>().unwrap_or(0)`.
pub open spec fn parse_u64_or_zero(s: Seq<char>) -> u64 {
    match parse_u64_spec(s) {
        Some(v) => v,
        None => 0,
    }
}

/// `s` without its last `k` characters.
pub open spec fn drop_suffix(s: Seq<char>, k: nat) -> Seq<char> {
    s.subrange(0, s.len() - k)
}

pub open spec fn ends_with_char(s: Seq<char>, c: char) -> bool {
    s.len() > 0 && s.last() == c
}

/// Index of the first `.` in `s`, if any.
pub open spec fn dot_index(s: Seq<char>) -> Option<int> {
    if exists|i: int| 0 <= i < s.len() && s[i] == '.' {
        Some(choose|i: int| 0 <= i < s.len() && s[i] == '.' && forall|j: int| 0 <= j < i ==> s[j] != '.')
    } else {
        None
    }
}

/// `c` is the letter `w` in either case (`w` given in lower case).
pub open spec fn ci_char_eq(c: char, w: char) -> bool {
    c == w || ('a' <= w && w <= 'z' && c as int + 32 == w as int)
}

/// `s` is the word `w` (given in lower case), in any case.
pub open spec fn word_ci(s: Seq<char>, w: Seq<char>) -> bool {
    s.len() == w.len() && forall|i: int| 0 <= i < s.len() ==> ci_char_eq(#[trigger] s[i], w[i])
}

/// The index of the first `e` or `E` in `s`.
pub open spec fn exp_index(s: Seq<char>) -> Option<int>
    decreases s.len(),
{
    if s.len() == 0 {
        None
    } else if s[0] == 'e' || s[0] == 'E' {
        Some(0)
    } else {
        match exp_index(s.drop_first()) {
            Some(i) => Some(i + 1),
            None => None,
        }
    }
}

/// An exponent: an optional sign, then one or more digits.
pub open spec fn exponent_value(x: Seq<char>) -> Option<int> {
    let neg = x.len() > 0 && x[0] == '-';
    let ds = if x.len() > 0 && (x[0] == '+' || x[0] == '-') { x.drop_first() } else { x };
    if ds.len() > 0 && all_digits(ds) {
        Some(if neg { -(digits_value(ds) as int) } else { digits_value(ds) as int })
    } else {
        None
    }
}

/// The integer digits, fraction digits and exponent of an unsigned decimal
/// `digits[.digits][(e|E)[+|-]digits]` with at least one mantissa digit.
pub open spec fn decimal_parts(body: Seq<char>) -> Option<(Seq<char>, Seq<char>, int)> {
    let (mant, e) = match exp_index(body) {
        Some(x) => (body.subrange(0, x), exponent_value(body.subrange(x + 1, body.len() as int))),
        None => (body, Some(0int)),
    };
    let (ip, fp) = match dot_index(mant) {
        Some(d) => (mant.subrange(0, d), mant.subrange(d + 1, mant.len() as int)),
        None => (mant, Seq::<char>::empty()),
    };
    if e is None || ip.len() + fp.len() == 0 || !all_digits(ip) || !all_digits(fp) {
        None
    } else {
        Some((ip, fp, e.unwrap()))
    }
}

/// The first `len` digits of `d`, padded with zeros; empty when `len <= 0`.
/// Reading them as a number moves the decimal point of `d`.
pub open spec fn shifted_digits(d: Seq<char>, len: int) -> Seq<char> {
    Seq::new(if len > 0 { len as nat } else { 0 }, |i: int| if i < d.len() { d[i] } else { '0' })
}

/// A number of cores as `str::parse::<f64>` accepts it (an optional sign,
/// then `inf`, `infinity` or `nan` in any case, or a decimal with an
/// optional fraction and exponent) in whole millicores: its exact decimal
/// value times 1000, rounded toward zero and held to the `u64` range, 0 for
/// a negative number or `nan` and `u64::MAX` for `inf`; `None` when `s` is
/// not such a number.
#[verifier::opaque]
pub open spec fn cores_to_millis_spec(s: Seq<char>) -> Option<u64> {
    let neg = s.len() > 0 && s[0] == '-';
    let body = if s.len() > 0 && (s[0] == '+' || s[0] == '-') { s.drop_first() } else { s };
    if word_ci(body, seq!['i', 'n', 'f']) || word_ci(body, seq!['i', 'n', 'f', 'i', 'n', 'i', 't', 'y']) {
        Some(if neg { 0u64 } else { u64::MAX })
    } else if word_ci(body, seq!['n', 'a', 'n']) {
        Some(0u64)
    } else {
        match decimal_parts(body) {
            None => None,
            Some((ip, fp, e)) => if neg {
                Some(0u64)
            } else {
                let v = digits_value(shifted_digits(ip + fp, ip.len() + 3 + e));
                Some(if v > u64::MAX { u64::MAX } else { v as u64 })
            },
        }
    }
}

/// CPU quantity in millicores: `n` (nanocores) and `u` (microcores) are
/// scaled down, `m` is taken as is, anything else is a number of cores.
pub open spec fn parse_cpu_spec(s: Seq<char>) -> u64 {
    if ends_with_char(s, 'n') {
        (parse_u64_or_zero(drop_suffix(s, 1)) / 1_000_000) as u64
    } else if ends_with_char(s, 'u') {
        (parse_u64_or_zero(drop_suffix(s, 1)) / 1_000) as u64
    } else if ends_with_char(s, 'm') {
        parse_u64_or_zero(drop_suffix(s, 1))
    } else {
        match cores_to_millis_spec(s) {
            Some(v) => v,
            None => 0,
        }
    }
}

/// `parse_u64_or_zero(s) * factor`, wrapping around at 2^64.
pub open spec fn scaled(s: Seq<char>, factor: u64) -> u64 {
    vstd::wrapping::u64_specs::wrapping_mul(parse_u64_or_zero(s), factor)
}

/// Memory quantity in bytes: binary suffixes `Ki`, `Mi`, `Gi`, decimal
/// suffixes `K`, `M`, `G`, or a plain byte count.
pub open spec fn parse_memory_spec(s: Seq<char>) -> u64 {
    if seq_ends_with(s, seq!['K', 'i']) {
        scaled(drop_suffix(s, 2), 1024)
    } else if seq_ends_with(s, seq!['M', 'i']) {
        scaled(drop_suffix(s, 2), 1048576u64)
    } else if seq_ends_with(s, seq!['G', 'i']) {
        scaled(drop_suffix(s, 2), 1073741824u64)
    } else if ends_with_char(s, 'K') {
        scaled(drop_suffix(s, 1), 1000)
    } else if ends_with_char(s, 'M') {
        scaled(drop_suffix(s, 1), 1_000_000)
    } else if ends_with_char(s, 'G') {
        scaled(drop_suffix(s, 1), 1_000_000_000)
    } else {
        parse_u64_or_zero(s)
    }
}

/// `a / b` rounded to the nearest integer, halves to the even neighbour.
pub open spec fn div_round(a: nat, b: nat) -> nat
    recommends
        b > 0,
{
    let q = a / b;
    let r = a % b;
    if 2 * r > b || (2 * r == b && q % 2 == 1) {
        q + 1
    } else {
        q
    }
}

/// The decimal rendering of `n` is a digit string that reads back as `n`.
pub proof fn lemma_dec_repr_reads_back(n: nat)
    ensures
        dec_repr(n).len() > 0,
        all_digits(dec_repr(n)),
        digits_value(dec_repr(n)) == n,
    decreases n,
{
    if n < 10 {
        let d = dec_repr(n);
        assert(d =~= seq![digit_char(n)]);
        assert(d.drop_last() =~= Seq::<char>::empty());
        assert(digit_char(n) as int == 48 + n);
        assert(d.last() == digit_char(n));
        assert(digit_value(d.last()) == n);
        assert(digits_value(d.drop_last()) == 0);
        assert(digits_value(d) == digits_value(d.drop_last()) * 10 + digit_value(d.last()));
    } else {
        lemma_dec_repr_reads_back(n / 10);
        let d = dec_repr(n);
        assert(d.drop_last() =~= dec_repr(n / 10));
        assert(d.last() == digit_char(n % 10));
        assert(digit_char(n % 10) as int == 48 + n % 10);
        assert(digit_value(d.last()) == n % 10);
        assert(digits_value(d) == digits_value(d.drop_last()) * 10 + digit_value(d.last()));
        assert((n / 10) * 10 + n % 10 == n);
        assert forall|i: int| 0 <= i < d.len() implies is_digit(#[trigger] d[i]) by {
            if i < d.len() - 1 {
                assert(d[i] == dec_repr(n / 10)[i]);
            }
        }
    }
}

/// A digit string of a number that fits in a `u64` parses as that number.
pub proof fn lemma_parse_dec_repr(n: nat)
    requires
        n <= u64::MAX,
    ensures
        parse_u64_spec(dec_repr(n)) == Some(n as u64),
        parse_u64_or_zero(dec_repr(n)) == n,
{
    lemma_dec_repr_reads_back(n);
    assert(is_digit(dec_repr(n)[0]));
}

/// A count of tenths rendered with one decimal: `12` is `1.2`.
pub open spec fn tenths_repr(t: nat) -> Seq<char> {
    dec_repr(t / 10) + seq!['.'] + seq![digit_char(t % 10)]
}

/// The digits of `v` parsed as a `u64`, `None` when they are not a valid
/// number.
fn parse_digits(v: &Vec<char>, from: usize, to: usize) -> (r: Option<u64>)
    requires
        from <= to <= v@.len(),
    ensures
        r == (if to > from && all_digits(v@.subrange(from as int, to as int))
            && digits_value(v@.subrange(from as int, to as int)) <= u64::MAX {
            Some(digits_value(v@.subrange(from as int, to as int)) as u64)
        } else {
            None
        }),
{
    if to == from {
        return None;
    }
    let mut acc: u64 = 0;
    let mut i: usize = from;
    while i < to
        invariant
            from <= i <= to <= v@.len(),
            all_digits(v@.subrange(from as int, i as int)),
            acc as nat == digits_value(v@.subrange(from as int, i as int)),
        decreases to - i,
    {
        let c = v[i];
        let ghost prev = v@.subrange(from as int, i as int);
        let ghost next = v@.subrange(from as int, i + 1);
        assert(next.drop_last() =~= prev);
        if c < '0' || c > '9' {
            assert(!is_digit(v@.subrange(from as int, to as int)[i - from]));
            return None;
        }
        let d: u64 = (c as u32 - 48) as u64;
        if acc > (u64::MAX - d) / 10 {
            proof {
                assert(v@.subrange(from as int, to as int).subrange(0, (i + 1 - from) as int) =~= next);
                assert(digits_value(next) == acc * 10 + d);
                if all_digits(v@.subrange(from as int, to as int)) {
                    lemma_digits_prefix_bound(v@.subrange(from as int, to as int), (i + 1 - from) as nat);
                }
                assert(acc * 10 + d > u64::MAX) by (nonlinear_arith)
                    requires acc > (u64::MAX - d) / 10, d <= 9;
            }
            return None;
        }
        acc = acc * 10 + d;
        i = i + 1;
        assert(digits_value(next) == digits_value(prev) * 10 + digit_value(c));
    }
    Some(acc)
}

/// Digit strings never shrink in value when extended.
proof fn lemma_digits_prefix_bound(s: Seq<char>, k: nat)
    requires
        k <= s.len(),
        all_digits(s),
    ensures
        digits_value(s.subrange(0, k as int)) <= digits_value(s),
        all_digits(s.subrange(0, k as int)),
    decreases s.len(),
{
    if k < s.len() {
        lemma_digits_prefix_bound(s.drop_last(), k);
        assert(s.drop_last().subrange(0, k as int) =~= s.subrange(0, k as int));
    } else {
        assert(s.subrange(0, k as int) =~= s);
    }
}

/// `v[from..to]` parsed like `str::parse::<u64>`.
fn parse_u64_range(v: &Vec<char>, from: usize, to: usize) -> (r: Option<u64>)
    requires
        from <= to <= v@.len(),
    ensures
        r == parse_u64_spec(v@.subrange(from as int, to as int)),
{
    let ghost s = v@.subrange(from as int, to as int);
    if to > from && v[from] == '+' {
        assert(s.drop_first() =~= v@.subrange(from + 1, to as int));
        parse_digits(v, from + 1, to)
    } else {
        parse_digits(v, from, to)
    }
}

/// `str::parse::<u64>` of `s`.
pub fn parse_u64(s: &str) -> (r: Option<u64>)
    ensures
        r == parse_u64_spec(s@),
{
    let v = chars_of(s);
    assert(v@.subrange(0, v@.len() as int) =~= v@);
    parse_u64_range(&v, 0, v.len())
}

fn parse_or_zero_range(v: &Vec<char>, from: usize, to: usize) -> (r: u64)
    requires
        from <= to <= v@.len(),
    ensures
        r == parse_u64_or_zero(v@.subrange(from as int, to as int)),
{
    match parse_u64_range(v, from, to) {
        Some(x) => x,
        None => 0,
    }
}

/// First index `>= from` in `v[..to]` holding `c`, or `to`.
fn find_char(v: &Vec<char>, from: usize, to: usize, c: char) -> (r: usize)
    requires
        from <= to <= v@.len(),
    ensures
        from <= r <= to,
        r < to ==> v@[r as int] == c,
        forall|j: int| from <= j < r ==> v@[j] != c,
{
    let mut i = from;
    while i < to
        invariant
            from <= i <= to <= v@.len(),
            forall|j: int| from <= j < i ==> v@[j] != c,
        decreases to - i,
    {
        if v[i] == c {
            return i;
        }
        i = i + 1;
    }
    i
}

/// Whether `v[from..to]` is the word `w` (given in lower case), in any case.
fn word_ci_exec(v: &Vec<char>, from: usize, to: usize, w: &Vec<char>, up: &Vec<char>) -> (r: bool)
    requires
        from <= to <= v@.len(),
        up@.len() == w@.len(),
        forall|k: int| 0 <= k < w@.len() ==> 'a' <= #[trigger] w@[k] <= 'z' && up@[k] as int + 32 == w@[k] as int,
    ensures
        r == word_ci(v@.subrange(from as int, to as int), w@),
{
    let ghost s = v@.subrange(from as int, to as int);
    if to - from != w.len() {
        return false;
    }
    let mut i: usize = 0;
    while i < w.len()
        invariant
            to - from == w@.len(),
            from <= to <= v@.len(),
            i <= w@.len(),
            s == v@.subrange(from as int, to as int),
            up@.len() == w@.len(),
            forall|k: int| 0 <= k < w@.len() ==> 'a' <= #[trigger] w@[k] <= 'z' && up@[k] as int + 32 == w@[k] as int,
            forall|k: int| 0 <= k < i ==> ci_char_eq(#[trigger] s[k], w@[k]),
        decreases w@.len() - i,
    {
        let c = v[from + i];
        let x = w[i];
        assert(s[i as int] == c);
        let y = up[i];
        let ok = c == x || c == y;
        assert(w@[i as int] == x && up@[i as int] == y);
        assert(ok == ci_char_eq(c, x));
        if !ok {
            return false;
        }
        i = i + 1;
    }
    true
}

proof fn lemma_exp_index(s: Seq<char>, i: int)
    requires
        0 <= i <= s.len(),
        forall|j: int| 0 <= j < i ==> s[j] != 'e' && s[j] != 'E',
        i < s.len() ==> (s[i] == 'e' || s[i] == 'E'),
    ensures
        exp_index(s) == (if i < s.len() { Some(i) } else { None::<int> }),
    decreases s.len(),
{
    if s.len() > 0 && i > 0 {
        let d = s.drop_first();
        assert forall|j: int| 0 <= j < i - 1 implies d[j] != 'e' && d[j] != 'E' by {
            assert(d[j] == s[j + 1]);
        }
        if i < s.len() {
            assert(d[i - 1] == s[i]);
        }
        lemma_exp_index(d, i - 1);
    }
}

/// The first index `>= from` in `v[..to]` holding `e` or `E`, or `to`.
fn find_exp(v: &Vec<char>, from: usize, to: usize) -> (r: usize)
    requires
        from <= to <= v@.len(),
    ensures
        from <= r <= to,
        exp_index(v@.subrange(from as int, to as int)) == (if r < to { Some(r - from) } else { None::<int> }),
{
    let mut i = from;
    while i < to
        invariant
            from <= i <= to <= v@.len(),
            forall|j: int| from <= j < i ==> v@[j] != 'e' && v@[j] != 'E',
        decreases to - i,
    {
        if v[i] == 'e' || v[i] == 'E' {
            proof {
                let s = v@.subrange(from as int, to as int);
                assert forall|j: int| 0 <= j < i - from implies s[j] != 'e' && s[j] != 'E' by {
                    assert(s[j] == v@[from + j]);
                }
                assert(s[i - from] == v@[i as int]);
                lemma_exp_index(s, i - from);
            }
            return i;
        }
        i = i + 1;
    }
    proof {
        let s = v@.subrange(from as int, to as int);
        assert forall|j: int| 0 <= j < i - from implies s[j] != 'e' && s[j] != 'E' by {
            assert(s[j] == v@[from + j]);
        }
        lemma_exp_index(s, i - from);
    }
    i
}

/// The bound at which an exponent is held: beyond it every exponent gives
/// the same number of millicores.
const EXP_CAP: u128 = 1180591620717411303424;

/// The digits of `v[from..to]` read as a number, held to `cap`.
fn digits_capped(v: &Vec<char>, from: usize, to: usize, cap: u128) -> (r: u128)
    requires
        from <= to <= v@.len(),
        all_digits(v@.subrange(from as int, to as int)),
        cap <= EXP_CAP,
    ensures
        r == (if digits_value(v@.subrange(from as int, to as int)) > cap { cap as nat } else { digits_value(v@.subrange(from as int, to as int)) }),
{
    let mut acc: u128 = 0;
    let mut i: usize = from;
    assert(v@.subrange(from as int, from as int) =~= Seq::<char>::empty());
    while i < to
        invariant
            from <= i <= to <= v@.len(),
            cap <= EXP_CAP,
            all_digits(v@.subrange(from as int, to as int)),
            acc == (if digits_value(v@.subrange(from as int, i as int)) > cap { cap as nat } else { digits_value(v@.subrange(from as int, i as int)) }),
        decreases to - i,
    {
        let ghost prev = v@.subrange(from as int, i as int);
        let ghost next = v@.subrange(from as int, i + 1);
        assert(next.drop_last() =~= prev);
        assert(next.last() == v@[i as int]);
        assert(v@.subrange(from as int, to as int)[i - from] == v@[i as int]);
        assert(is_digit(v@[i as int]));
        let d: u128 = (v[i] as u32 - 48) as u128;
        assert(digits_value(next) == digits_value(prev) * 10 + d);
        if acc >= cap {
            acc = cap;
        } else {
            let x = acc * 10 + d;
            acc = if x > cap { cap } else { x };
        }
        i = i + 1;
    }
    acc
}

/// Every string of zeros reads as 0.
proof fn lemma_zeros_value(s: Seq<char>)
    requires
        forall|i: int| 0 <= i < s.len() ==> s[i] == '0',
    ensures
        digits_value(s) == 0,
    decreases s.len(),
{
    if s.len() > 0 {
        lemma_zeros_value(s.drop_last());
    }
}

pub open spec fn pow10(n: nat) -> nat
    decreases n,
{
    if n == 0 { 1 } else { 10 * pow10((n - 1) as nat) }
}

/// A digit string with a non-zero digit at `z` reads as at least ten to the
/// number of digits after it.
proof fn lemma_value_lower(s: Seq<char>, z: int)
    requires
        all_digits(s),
        0 <= z < s.len(),
        s[z] != '0',
    ensures
        digits_value(s) >= pow10((s.len() - 1 - z) as nat),
    decreases s.len(),
{
    let d = s.drop_last();
    assert(is_digit(s.last()));
    if z == s.len() - 1 {
        assert(digit_value(s.last()) >= 1);
    } else {
        assert(d[z] == s[z]);
        assert(all_digits(d)) by {
            assert forall|i: int| 0 <= i < d.len() implies is_digit(#[trigger] d[i]) by {
                assert(d[i] == s[i]);
            }
        }
        lemma_value_lower(d, z);
    }
}

/// The first `n` digits of `d`, padded with zeros.
pub open spec fn padded(d: Seq<char>, n: nat) -> Seq<char> {
    Seq::new(n, |i: int| if i < d.len() { d[i] } else { '0' })
}

/// The millicores of the decimal whose integer digits are `v[ifrom..ito]`
/// and fraction digits `v[ffrom..fto]`, with exponent `e` (of sign `eneg`,
/// its size held to `EXP_CAP` in `emag`): its digits moved by the
/// exponent and three places more, read as a number held to `u64`.
fn moved_millis(v: &Vec<char>, ifrom: usize, ito: usize, ffrom: usize, fto: usize, eneg: bool, emag: u128, Ghost(e): Ghost<int>) -> (r: u64)
    requires
        ifrom <= ito <= ffrom <= fto <= v@.len(),
        all_digits(v@.subrange(ifrom as int, ito as int)),
        all_digits(v@.subrange(ffrom as int, fto as int)),
        emag <= EXP_CAP,
        emag < EXP_CAP ==> e == (if eneg { -(emag as int) } else { emag as int }),
        emag == EXP_CAP ==> (if eneg { e <= -(EXP_CAP as int) } else { e >= EXP_CAP as int }),
    ensures
        ({
            let ip = v@.subrange(ifrom as int, ito as int);
            let fp = v@.subrange(ffrom as int, fto as int);
            let m = digits_value(shifted_digits(ip + fp, ip.len() + 3 + e));
            r == (if m > u64::MAX { u64::MAX as nat } else { m })
        }),
{
    let ghost ip = v@.subrange(ifrom as int, ito as int);
    let ghost fp = v@.subrange(ffrom as int, fto as int);
    let ghost dd = ip + fp;
    let ghost lt: int = ip.len() + 3 + e;
    let dl: usize = ito - ifrom;
    let fl: usize = fto - ffrom;
    // A mantissa of zeros is worth nothing however far it is moved.
    let mut z: usize = 0;
    while z < dl + fl
        invariant
            dl == ip.len(), fl == fp.len(), dd == ip + fp,
            ip == v@.subrange(ifrom as int, ito as int), fp == v@.subrange(ffrom as int, fto as int),
            ifrom <= ito <= v@.len(), ffrom <= fto <= v@.len(),
            ito <= ffrom,
            z <= dl + fl,
            forall|k: int| 0 <= k < z ==> dd[k] == '0',
        ensures
            z <= dl + fl,
            forall|k: int| 0 <= k < z ==> dd[k] == '0',
            z < dl + fl ==> dd[z as int] != '0',
        decreases dl + fl - z,
    {
        let c = if z < dl { v[ifrom + z] } else { v[ffrom + (z - dl)] };
        assert(c == dd[z as int]);
        if c != '0' {
            break;
        }
        z = z + 1;
    }
    if z == dl + fl {
        proof {
            let sh = shifted_digits(dd, lt);
            assert forall|i: int| 0 <= i < sh.len() implies sh[i] == '0' by {}
            lemma_zeros_value(sh);
        }
        return 0;
    }
    let lc: i128 = if eneg { dl as i128 + 3 - emag as i128 } else { dl as i128 + 3 + emag as i128 };
    let mut acc: u128 = 0;
    let mut j: u128 = 0;
    assert(padded(dd, 0) =~= Seq::<char>::empty());
    while (j as i128) < lc && acc <= u64::MAX as u128
        invariant
            dl == ip.len(), fl == fp.len(), dd == ip + fp,
            ip == v@.subrange(ifrom as int, ito as int), fp == v@.subrange(ffrom as int, fto as int),
            ifrom <= ito <= v@.len(), ffrom <= fto <= v@.len(),
            all_digits(ip), all_digits(fp),
            ito <= ffrom,
            0 <= j,
            lc > 0 ==> j <= lc,
            lc <= 0 ==> j == 0,
            acc == digits_value(padded(dd, j as nat)),
        decreases lc - j,
    {
        let c = if j < dl as u128 { v[ifrom + j as usize] } else if j < (dl + fl) as u128 { v[ffrom + (j as usize - dl)] } else { '0' };
        let ghost prev = padded(dd, j as nat);
        let ghost next = padded(dd, (j + 1) as nat);
        assert(next.drop_last() =~= prev);
        assert(next.last() == c);
        assert(is_digit(c)) by {
            if j < dl { assert(ip[j as int] == c); } else if j < dl + fl { assert(fp[j - dl] == c); }
        }
        let d: u128 = (c as u32 - 48) as u128;
        acc = acc * 10 + d;
        j = j + 1;
    }
    let ghost lcg: int = lc as int;
    proof {
        if emag < EXP_CAP {
            assert(lcg == lt);
        }
    }
    proof {
        let sh = shifted_digits(dd, lt);
        assert(all_digits(dd)) by {
            assert forall|i: int| 0 <= i < dd.len() implies is_digit(#[trigger] dd[i]) by {
                if i < ip.len() { assert(dd[i] == ip[i]); } else { assert(dd[i] == fp[i - ip.len()]); }
            }
        }
        assert(all_digits(sh));
        assert(dd[z as int] != '0');
        if acc > u64::MAX {
            assert(j <= lt);
            assert(sh.subrange(0, j as int) =~= padded(dd, j as nat));
            lemma_digits_prefix_bound(sh, j as nat);
        } else if lc > 0 && lc != lt {
            // A held exponent: the mantissa moved this far is beyond u64.
            assert(!eneg);
            let p = padded(dd, (z + 21) as nat);
            assert(all_digits(p));
            assert(p[z as int] != '0');
            lemma_value_lower(p, z as int);
            reveal_with_fuel(pow10, 21);
            assert(padded(dd, j as nat).subrange(0, z + 21) =~= p);
            assert(all_digits(padded(dd, j as nat)));
            lemma_digits_prefix_bound(padded(dd, j as nat), (z + 21) as nat);
            assert(false);
        } else {
            if lt > 0 {
                assert(sh =~= padded(dd, j as nat));
            } else {
                assert(sh =~= Seq::<char>::empty());
                assert(padded(dd, 0) =~= Seq::<char>::empty());
            }
        }
    }
    if acc > u64::MAX as u128 { u64::MAX } else { acc as u64 }
}

/// The exponent `v[from..to]` (an optional sign, then digits): its sign
/// and its size held to `EXP_CAP`; `None` when it is not one.
fn exponent_part(v: &Vec<char>, from: usize, to: usize) -> (r: Option<(bool, u128)>)
    requires
        from <= to <= v@.len(),
    ensures
        match r {
            None => exponent_value(v@.subrange(from as int, to as int)) is None,
            Some((eneg, emag)) => exponent_value(v@.subrange(from as int, to as int)) matches Some(e) && {
                &&& emag <= EXP_CAP
                &&& emag < EXP_CAP ==> e == (if eneg { -(emag as int) } else { emag as int })
                &&& emag == EXP_CAP ==> (if eneg { e <= -(EXP_CAP as int) } else { e >= EXP_CAP as int })
            },
        },
{
    let ghost x = v@.subrange(from as int, to as int);
    let dfrom: usize = if from < to && (v[from] == '+' || v[from] == '-') { from + 1 } else { from };
    let ghost ds = if x.len() > 0 && (x[0] == '+' || x[0] == '-') { x.drop_first() } else { x };
    assert(ds =~= v@.subrange(dfrom as int, to as int));
    if dfrom == to || !all_digits_exec(v, dfrom, to) {
        return None;
    }
    let eneg = from < to && v[from] == '-';
    let emag = digits_capped(v, dfrom, to, EXP_CAP);
    Some((eneg, emag))
}

/// The mantissa `v[from..to]` split at its first `.` into the ranges of
/// its integer and fraction digits.
fn split_mantissa(v: &Vec<char>, from: usize, to: usize) -> (r: (usize, usize, usize, usize))
    requires
        from <= to <= v@.len(),
    ensures
        from <= r.0 <= r.1 <= r.2 <= r.3 <= to,
        ({
            let mant = v@.subrange(from as int, to as int);
            match dot_index(mant) {
                Some(d) => v@.subrange(r.0 as int, r.1 as int) == mant.subrange(0, d)
                    && v@.subrange(r.2 as int, r.3 as int) == mant.subrange(d + 1, mant.len() as int),
                None => v@.subrange(r.0 as int, r.1 as int) == mant
                    && v@.subrange(r.2 as int, r.3 as int) == Seq::<char>::empty(),
            }
        }),
{
    let ghost mant = v@.subrange(from as int, to as int);
    let dot = find_char(v, from, to, '.');
    if dot < to {
        proof {
            let d = (dot - from) as int;
            assert(mant[d] == '.');
            assert forall|j: int| 0 <= j < d implies mant[j] != '.' by {
                assert(mant[j] == v@[from + j]);
            }
            assert(dot_index(mant) == Some(d)) by {
                let w = choose|i: int| 0 <= i < mant.len() && mant[i] == '.' && forall|j: int| 0 <= j < i ==> mant[j] != '.';
                assert(0 <= d < mant.len() && mant[d] == '.' && forall|j: int| 0 <= j < d ==> mant[j] != '.');
                if w < d { assert(mant[w] != '.'); }
                if w > d { assert(mant[d] != '.'); }
            }
            assert(mant.subrange(0, d) =~= v@.subrange(from as int, dot as int));
            assert(mant.subrange(d + 1, mant.len() as int) =~= v@.subrange(dot + 1, to as int));
        }
        (from, dot, dot + 1, to)
    } else {
        proof {
            assert forall|i: int| 0 <= i < mant.len() implies mant[i] != '.' by {
                assert(mant[i] == v@[from + i]);
            }
            assert(dot_index(mant) == None::<int>);
            assert(v@.subrange(to as int, to as int) =~= Seq::<char>::empty());
        }
        (from, to, to, to)
    }
}

/// The decimal `v[from..]` (no sign) in millicores held to `u64`, as
/// `cores_to_millis_spec` reads a non-negative number; `None` when it is not
/// a decimal.
fn decimal_millis(v: &Vec<char>, from: usize) -> (r: Option<u64>)
    requires
        from <= v@.len(),
    ensures
        match decimal_parts(v@.subrange(from as int, v@.len() as int)) {
            None => r is None,
            Some((ip, fp, e)) => r == Some({
                let m = digits_value(shifted_digits(ip + fp, ip.len() + 3 + e));
                if m > u64::MAX { u64::MAX } else { m as u64 }
            }),
        },
{
    let n = v.len();
    let ghost body = v@.subrange(from as int, n as int);
    let ei = find_exp(v, from, n);
    let ghost mant = if ei < n { body.subrange(0, ei - from) } else { body };
    assert(mant =~= v@.subrange(from as int, ei as int));
    let (eneg, emag) = if ei < n {
        assert(body.subrange(ei - from + 1, body.len() as int) =~= v@.subrange(ei + 1, n as int));
        match exponent_part(v, ei + 1, n) {
            None => {
                return None;
            },
            Some(p) => p,
        }
    } else {
        (false, 0u128)
    };
    let ghost e: int = if ei < n { exponent_value(body.subrange(ei - from + 1, body.len() as int)).unwrap() } else { 0 };
    let (ifrom, ito, ffrom, fto) = split_mantissa(v, from, ei);
    if ito - ifrom + (fto - ffrom) == 0 {
        return None;
    }
    if !all_digits_exec(v, ifrom, ito) || !all_digits_exec(v, ffrom, fto) {
        return None;
    }
    Some(moved_millis(v, ifrom, ito, ffrom, fto, eneg, emag, Ghost(e)))
}

/// A number of cores as `str::parse::<f64>` accepts it, in millicores.
fn cores_to_millis(v: &Vec<char>) -> (r: Option<u64>)
    ensures
        r == cores_to_millis_spec(v@),
{
    reveal(cores_to_millis_spec);
    let ghost s = v@;
    let n = v.len();
    let neg = n > 0 && v[0] == '-';
    let start: usize = if n > 0 && (v[0] == '+' || v[0] == '-') { 1 } else { 0 };
    let ghost body = if s.len() > 0 && (s[0] == '+' || s[0] == '-') { s.drop_first() } else { s };
    assert(body =~= s.subrange(start as int, n as int));
    let inf = vec!['i', 'n', 'f'];
    let inf_up = vec!['I', 'N', 'F'];
    let infinity = vec!['i', 'n', 'f', 'i', 'n', 'i', 't', 'y'];
    let infinity_up = vec!['I', 'N', 'F', 'I', 'N', 'I', 'T', 'Y'];
    let nan = vec!['n', 'a', 'n'];
    let nan_up = vec!['N', 'A', 'N'];
    assert(inf@ =~= seq!['i', 'n', 'f']);
    assert(infinity@ =~= seq!['i', 'n', 'f', 'i', 'n', 'i', 't', 'y']);
    assert(nan@ =~= seq!['n', 'a', 'n']);
    if word_ci_exec(v, start, n, &inf, &inf_up) || word_ci_exec(v, start, n, &infinity, &infinity_up) {
        return Some(if neg { 0 } else { u64::MAX });
    }
    if word_ci_exec(v, start, n, &nan, &nan_up) {
        return Some(0);
    }
    match decimal_millis(v, start) {
        None => None,
        Some(m) => if neg { Some(0) } else { Some(m) },
    }
}

/// Whether every character of `v[from..to]` is a digit.
fn all_digits_exec(v: &Vec<char>, from: usize, to: usize) -> (r: bool)
    requires
        from <= to <= v@.len(),
    ensures
        r == all_digits(v@.subrange(from as int, to as int)),
{
    let mut i = from;
    while i < to
        invariant
            from <= i <= to <= v@.len(),
            forall|j: int| from <= j < i ==> is_digit(v@[j]),
        decreases to - i,
    {
        if v[i] < '0' || v[i] > '9' {
            assert(!is_digit(v@.subrange(from as int, to as int)[i - from]));
            return false;
        }
        i = i + 1;
    }
    assert forall|j: int| 0 <= j < to - from implies is_digit(#[trigger] v@.subrange(from as int, to as int)[j]) by {
        assert(v@.subrange(from as int, to as int)[j] == v@[from + j]);
    }
    true
}

/// Whether `v[from..to]` is all digits, and its value when that fits a `u64`.
fn parse_digits_all(v: &Vec<char>, from: usize, to: usize) -> (r: (bool, Option<u64>))
    requires
        from <= to <= v@.len(),
    ensures
        r.0 == all_digits(v@.subrange(from as int, to as int)),
        r.0 ==> (r.1 == (if digits_value(v@.subrange(from as int, to as int)) <= u64::MAX {
            Some(digits_value(v@.subrange(from as int, to as int)) as u64)
        } else {
            None
        })),
{
    let ok = all_digits_exec(v, from, to);
    if !ok {
        return (false, None);
    }
    if from == to {
        assert(v@.subrange(from as int, to as int) =~= Seq::<char>::empty());
        return (true, Some(0));
    }
    (true, parse_digits(v, from, to))
}

/// CPU usage or request in millicores.
pub fn parse_cpu(cpu_str: &str) -> (r: u64)
    ensures
        r == parse_cpu_spec(cpu_str@),
{
    let v = chars_of(cpu_str);
    let n = v.len();
    if n > 0 && v[n - 1] == 'n' {
        parse_or_zero_range(&v, 0, n - 1) / 1_000_000
    } else if n > 0 && v[n - 1] == 'u' {
        parse_or_zero_range(&v, 0, n - 1) / 1_000
    } else if n > 0 && v[n - 1] == 'm' {
        parse_or_zero_range(&v, 0, n - 1)
    } else {
        match cores_to_millis(&v) {
            Some(x) => x,
            None => 0,
        }
    }
}

/// Whether `v` ends with the two characters `a`, `b`.
fn ends_with2(v: &Vec<char>, a: char, b: char) -> (r: bool)
    ensures
        r == seq_ends_with(v@, seq![a, b]),
{
    let n = v.len();
    if n < 2 {
        return false;
    }
    let r = v[n - 2] == a && v[n - 1] == b;
    assert(r == (v@.subrange(n - 2, n as int) =~= seq![a, b]));
    r
}

/// Memory usage or request in bytes.
pub fn parse_memory(mem_str: &str) -> (r: u64)
    ensures
        r == parse_memory_spec(mem_str@),
{
    let v = chars_of(mem_str);
    let n = v.len();
    if ends_with2(&v, 'K', 'i') {
        parse_or_zero_range(&v, 0, n - 2).wrapping_mul(1024)
    } else if ends_with2(&v, 'M', 'i') {
        parse_or_zero_range(&v, 0, n - 2).wrapping_mul(1024 * 1024)
    } else if ends_with2(&v, 'G', 'i') {
        parse_or_zero_range(&v, 0, n - 2).wrapping_mul(1024 * 1024 * 1024)
    } else if n > 0 && v[n - 1] == 'K' {
        parse_or_zero_range(&v, 0, n - 1).wrapping_mul(1000)
    } else if n > 0 && v[n - 1] == 'M' {
        parse_or_zero_range(&v, 0, n - 1).wrapping_mul(1_000_000)
    } else if n > 0 && v[n - 1] == 'G' {
        parse_or_zero_range(&v, 0, n - 1).wrapping_mul(1_000_000_000)
    } else {
        assert(v@.subrange(0, n as int) =~= v@);
        parse_or_zero_range(&v, 0, n)
    }
}

/// `a / b` rounded to nearest, halves to even.
pub fn div_round_exec(a: u128, b: u128) -> (r: u128)
    requires
        b > 0,
    ensures
        r == div_round(a as nat, b as nat),
{
    let q = a / b;
    let rem = a % b;
    if rem > b - rem || (rem == b - rem && q % 2 == 1) {
        assert(q < u128::MAX) by (nonlinear_arith)
            requires q == a / b, b > 0, rem == a % b, rem > 0 || b == 2 * rem;
        q + 1
    } else {
        q
    }
}

/// Appends `t` tenths with one decimal (`12` gives `1.2`).
pub fn append_tenths(s: &mut String, t: u64)
    ensures
        final(s)@ == old(s)@ + tenths_repr(t as nat),
{
    append_u64(s, t / 10);
    s.append(".");
    push_digit(s, t % 10);
    proof { reveal_strlit("."); }
    assert(final(s)@ =~= old(s)@ + tenths_repr(t as nat));
}

} // verus!
