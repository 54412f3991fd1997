//! Character-level text helpers: decimal rendering of integers, substring
//! search, prefix/suffix tests and joining, all over `Seq<char>` views.
use vstd::prelude::*;

verus! {

/// The ASCII digit for `d` (meaningful for `d < 10`).
pub open spec fn digit_char(d: nat) -> char {
    (48 + d) as char
}

/// Decimal rendering of a natural number, without leading zeros.
pub open spec fn dec_repr(n: nat) -> Seq<char>
    decreases n,
{
    if n < 10 {
        seq![digit_char(n)]
    } else {
        dec_repr(n / 10).push(digit_char(n % 10))
    }
}

/// Decimal rendering of an integer, with a leading `-` when negative.
pub open spec fn int_repr(i: int) -> Seq<char> {
    if i < 0 {
        seq!['-'] + dec_repr((-i) as nat)
    } else {
        dec_repr(i as nat)
    }
}

/// `needle` occurs in `hay` at position `i`.
pub open spec fn occurs_at(hay: Seq<char>, needle: Seq<char>, i: int) -> bool {
    0 <= i && i + needle.len() <= hay.len() && hay.subrange(i, i + needle.len()) == needle
}

/// `needle` occurs somewhere in `hay`.
pub open spec fn seq_contains(hay: Seq<char>, needle: Seq<char>) -> bool {
    exists|i: int| occurs_at(hay, needle, i)
}

pub open spec fn seq_starts_with(s: Seq<char>, p: Seq<char>) -> bool {
    p.len() <= s.len() && s.subrange(0, p.len() as int) == p
}

pub open spec fn seq_ends_with(s: Seq<char>, p: Seq<char>) -> bool {
    p.len() <= s.len() && s.subrange(s.len() - p.len(), s.len() as int) == p
}

/// The items of `items` separated by `sep`.
pub open spec fn join_seq(items: Seq<Seq<char>>, sep: Seq<char>) -> Seq<char>
    decreases items.len(),
{
    if items.len() == 0 {
        Seq::empty()
    } else if items.len() == 1 {
        items[0]
    } else {
        join_seq(items.drop_last(), sep) + sep + items.last()
    }
}

/// The views of a sequence of strings.
pub open spec fn views(v: Seq<String>) -> Seq<Seq<char>> {
    v.map_values(|s: String| s@)
}

/// Appends the digit `d` to `s`.
pub fn push_digit(s: &mut String, d: u64)
    requires
        d < 10,
    ensures
        final(s)@ == old(s)@.push(digit_char(d as nat)),
{
    let lit: &str = match d {
        0 => "0",
        1 => "1",
        2 => "2",
        3 => "3",
        4 => "4",
        5 => "5",
        6 => "6",
        7 => "7",
        8 => "8",
        _ => "9",
    };
    proof {
        reveal_strlit("0");
        reveal_strlit("1");
        reveal_strlit("2");
        reveal_strlit("3");
        reveal_strlit("4");
        reveal_strlit("5");
        reveal_strlit("6");
        reveal_strlit("7");
        reveal_strlit("8");
        reveal_strlit("9");
        assert(lit@ =~= seq![digit_char(d as nat)]);
    }
    s.append(lit);
}

/// Appends the decimal rendering of `n` to `s`.
pub fn append_u64(s: &mut String, n: u64)
    ensures
        final(s)@ == old(s)@ + dec_repr(n as nat),
    decreases n,
{
    if n >= 10 {
        append_u64(s, n / 10);
    }
    push_digit(s, n % 10);
    proof {
        if n >= 10 {
            assert(dec_repr(n as nat) == dec_repr((n / 10) as nat).push(digit_char((n % 10) as nat)));
        }
    }
    assert(final(s)@ =~= old(s)@ + dec_repr(n as nat)) by {
        if n >= 10 {
            assert(dec_repr(n as nat) == dec_repr((n / 10) as nat).push(digit_char((n % 10) as nat)));
        }
    }
}

/// Appends the decimal rendering of `n` (with a sign when negative) to `s`.
pub fn append_i64(s: &mut String, n: i64)
    ensures
        final(s)@ == old(s)@ + int_repr(n as int),
{
    if n < 0 {
        s.append("-");
        proof { reveal_strlit("-"); }
        let mag: u64 = (0i128 - n as i128) as u64;
        append_u64(s, mag);
        assert(final(s)@ =~= old(s)@ + int_repr(n as int));
    } else {
        append_u64(s, n as u64);
    }
}

/// The decimal rendering of `n`, signed.
pub fn i64_to_string(n: i64) -> (r: String)
    ensures
        r@ == int_repr(n as int),
{
    let mut s = String::new();
    append_i64(&mut s, n);
    assert(s@ =~= int_repr(n as int));
    s
}

/// A copy of the string `s`.
pub fn string_of(s: &str) -> (r: String)
    ensures
        r@ == s@,
{
    String::from_str(s)
}

/// The characters of `s`, one per element.
pub fn chars_of(s: &str) -> (v: Vec<char>)
    ensures
        v@ == s@,
{
    let n = s.unicode_len();
    let mut v: Vec<char> = Vec::new();
    let mut i: usize = 0;
    while i < n
        invariant
            n == s@.len(),
            i <= n,
            v@ == s@.subrange(0, i as int),
        decreases n - i,
    {
        let c = s.get_char(i);
        v.push(c);
        i = i + 1;
        assert(v@ =~= s@.subrange(0, i as int));
    }
    assert(v@ =~= s@);
    v
}

/// Whether `a` and `b` hold the same characters.
pub fn str_eq(a: &str, b: &str) -> (r: bool)
    ensures
        r == (a@ == b@),
{
    let x = String::from_str(a);
    let y = String::from_str(b);
    x == y
}

/// Whether `needle` occurs at position `i` of `hay`.
fn chars_occur_at(hay: &Vec<char>, needle: &Vec<char>, i: usize) -> (r: bool)
    requires
        i + needle@.len() <= hay@.len(),
    ensures
        r == occurs_at(hay@, needle@, i as int),
{
    let hl = hay.len();
    let mut k: usize = 0;
    while k < needle.len()
        invariant
            hl == hay@.len(),
            i + needle@.len() <= hay@.len(),
            k <= needle@.len(),
            forall|t: int| 0 <= t < k ==> hay@[i + t] == needle@[t],
        decreases needle@.len() - k,
    {
        assert(i + k < hay@.len());
        if hay[i + k] != needle[k] {
            assert(hay@.subrange(i as int, i + needle@.len())[k as int] != needle@[k as int]);
            return false;
        }
        k = k + 1;
    }
    assert(hay@.subrange(i as int, i + needle@.len()) =~= needle@);
    true
}

/// Whether `needle` occurs in `hay`.
pub fn chars_contain(hay: &Vec<char>, needle: &Vec<char>) -> (r: bool)
    ensures
        r == seq_contains(hay@, needle@),
{
    if needle.len() > hay.len() {
        assert forall|i: int| !occurs_at(hay@, needle@, i) by {}
        return false;
    }
    if needle.len() == 0 {
        assert(hay@.subrange(0, 0) =~= needle@);
        assert(occurs_at(hay@, needle@, 0));
        return true;
    }
    let last = hay.len() - needle.len();
    let mut i: usize = 0;
    while i <= last
        invariant
            last == hay@.len() - needle@.len(),
            0 < needle@.len() <= hay@.len(),
            hay@.len() <= usize::MAX,
            i <= last + 1,
            forall|j: int| 0 <= j < i ==> !occurs_at(hay@, needle@, j),
        decreases last + 1 - i,
    {
        if chars_occur_at(hay, needle, i) {
            return true;
        }
        i = i + 1;
    }
    assert forall|j: int| !occurs_at(hay@, needle@, j) by {
        if occurs_at(hay@, needle@, j) {
            assert(0 <= j <= last);
        }
    }
    false
}

/// Whether `needle` occurs in `hay`.
pub fn str_contains(hay: &str, needle: &str) -> (r: bool)
    ensures
        r == seq_contains(hay@, needle@),
{
    let h = chars_of(hay);
    let n = chars_of(needle);
    chars_contain(&h, &n)
}

/// Whether `s` starts with `p`.
pub fn str_starts_with(s: &str, p: &str) -> (r: bool)
    ensures
        r == seq_starts_with(s@, p@),
{
    let sv = chars_of(s);
    let pv = chars_of(p);
    if pv.len() > sv.len() {
        return false;
    }
    let r = chars_occur_at(&sv, &pv, 0);
    r
}

/// Whether `s` ends with `p`.
pub fn str_ends_with(s: &str, p: &str) -> (r: bool)
    ensures
        r == seq_ends_with(s@, p@),
{
    let sv = chars_of(s);
    let pv = chars_of(p);
    if pv.len() > sv.len() {
        return false;
    }
    let start = sv.len() - pv.len();
    chars_occur_at(&sv, &pv, start)
}

/// Whether the character `c` occurs in `s`.
pub fn str_has_char(s: &str, c: char) -> (r: bool)
    ensures
        r == s@.contains(c),
{
    let v = chars_of(s);
    let mut i: usize = 0;
    while i < v.len()
        invariant
            v@ == s@,
            i <= v@.len(),
            forall|j: int| 0 <= j < i ==> v@[j] != c,
        decreases v@.len() - i,
    {
        if v[i] == c {
            assert(s@[i as int] == c);
            return true;
        }
        i = i + 1;
    }
    false
}

/// The characters `v[from..to]` as a string.
pub fn string_from_range(v: &Vec<char>, from: usize, to: usize) -> (r: String)
    requires
        from <= to <= v@.len(),
    ensures
        r@ == v@.subrange(from as int, to as int),
{
    let mut s = String::new();
    let mut i: usize = from;
    while i < to
        invariant
            from <= i <= to,
            to <= v@.len(),
            s@ == v@.subrange(from as int, i as int),
        decreases to - i,
    {
        push_char(&mut s, v[i]);
        i = i + 1;
        assert(s@ =~= v@.subrange(from as int, i as int));
    }
    s
}

/// Wraps `char::to_string` (std's `ToString` through `Display` for `char`):
/// the contract claims the result holds exactly the one character `c`.
#[verifier::external_body]
fn char_string(c: char) -> (r: String)
    ensures
        r@ == seq![c],
{
    c.to_string()
}

/// Appends the single character `c` to `s`.
pub fn push_char(s: &mut String, c: char)
    ensures
        final(s)@ == old(s)@.push(c),
{
    let one = char_string(c);
    s.append(one.as_str());
    assert(final(s)@ =~= old(s)@.push(c));
}

/// Joins `items` with `sep` between consecutive items.
pub fn join(items: &Vec<String>, sep: &str) -> (r: String)
    ensures
        r@ == join_seq(views(items@), sep@),
{
    let mut s = String::new();
    let mut i: usize = 0;
    while i < items.len()
        invariant
            i <= items@.len(),
            s@ == join_seq(views(items@.subrange(0, i as int)), sep@),
        decreases items@.len() - i,
    {
        let ghost prev = views(items@.subrange(0, i as int));
        if i > 0 {
            s.append(sep);
        }
        s.append(items[i].as_str());
        i = i + 1;
        proof {
            let cur = views(items@.subrange(0, i as int));
            assert(cur.drop_last() =~= prev);
            assert(cur.last() == items@[i - 1]@);
            if i == 1 {
                assert(cur.len() == 1);
            }
        }
        assert(s@ =~= join_seq(views(items@.subrange(0, i as int)), sep@));
    }
    assert(items@.subrange(0, i as int) =~= items@);
    s
}

/// The pieces of `s` between `'\n'` characters: always at least one.
pub open spec fn nl_pieces(s: Seq<char>) -> Seq<Seq<char>>
    decreases s.len(),
{
    if s.len() == 0 {
        seq![Seq::<char>::empty()]
    } else {
        let p = nl_pieces(s.drop_last());
        if s.last() == '\n' {
            p.push(Seq::<char>::empty())
        } else {
            p.update(p.len() - 1, p.last().push(s.last()))
        }
    }
}

/// `x` without one trailing carriage return.
pub open spec fn strip_cr(x: Seq<char>) -> Seq<char> {
    if x.len() > 0 && x.last() == '\r' {
        x.drop_last()
    } else {
        x
    }
}

/// The lines of `s`: the pieces between line feeds, each line that a line
/// feed ends losing one trailing carriage return, and an empty last piece
/// left out.
pub open spec fn text_lines(s: Seq<char>) -> Seq<Seq<char>> {
    let p = nl_pieces(s);
    let n: int = if p.last().len() == 0 { p.len() - 1 } else { p.len() as int };
    Seq::new(n as nat, |k: int| if k < p.len() - 1 { strip_cr(p[k]) } else { p[k] })
}

proof fn lemma_nl_pieces_nonempty(s: Seq<char>)
    ensures
        nl_pieces(s).len() >= 1,
    decreases s.len(),
{
    if s.len() > 0 {
        lemma_nl_pieces_nonempty(s.drop_last());
    }
}

/// The lines of `text`, as `str::lines` splits them.
pub fn split_lines(text: &str) -> (r: Vec<String>)
    ensures
        views(r@) == text_lines(text@),
{
    let v = chars_of(text);
    let n = v.len();
    let mut out: Vec<String> = Vec::new();
    let mut start: usize = 0;
    let mut i: usize = 0;
    proof {
        assert(v@.subrange(0, 0) =~= Seq::<char>::empty());
    }
    while i < n
        invariant
            n == v@.len(),
            v@ == text@,
            start <= i <= n,
            nl_pieces(v@.subrange(0, i as int)).len() == out@.len() + 1,
            nl_pieces(v@.subrange(0, i as int)).last() == v@.subrange(start as int, i as int),
            forall|k: int| 0 <= k < out@.len() ==> #[trigger] out@[k]@ == strip_cr(nl_pieces(v@.subrange(0, i as int))[k]),
        decreases n - i,
    {
        let ghost pre = v@.subrange(0, i as int);
        let ghost cur = v@.subrange(0, i + 1);
        proof {
            assert(cur.drop_last() =~= pre);
            assert(cur.last() == v@[i as int]);
            lemma_nl_pieces_nonempty(pre);
        }
        if v[i] == '\n' {
            let mut end = i;
            if end > start && v[end - 1] == '\r' {
                end = end - 1;
            }
            let line = string_from_range(&v, start, end);
            proof {
                let last = v@.subrange(start as int, i as int);
                if i > start && v@[i - 1] == '\r' {
                    assert(last.drop_last() =~= v@.subrange(start as int, end as int));
                } else {
                    assert(last =~= v@.subrange(start as int, end as int));
                }
            }
            out.push(line);
            start = i + 1;
            proof {
                assert(v@.subrange(start as int, i + 1) =~= Seq::<char>::empty());
            }
        } else {
            proof {
                assert(v@.subrange(start as int, i + 1) =~= v@.subrange(start as int, i as int).push(v@[i as int]));
            }
        }
        i = i + 1;
    }
    proof {
        assert(v@.subrange(0, n as int) =~= v@);
    }
    if start < n {
        let line = string_from_range(&v, start, n);
        out.push(line);
    }
    proof {
        let p = nl_pieces(text@);
        assert(views(out@) =~= text_lines(text@));
    }
    out
}

/// Lexicographic order of character sequences, by code point (the byte
/// order of their UTF-8 encodings).
pub open spec fn seq_lt(a: Seq<char>, b: Seq<char>) -> bool
    decreases a.len(),
{
    if a.len() == 0 {
        b.len() > 0
    } else if b.len() == 0 {
        false
    } else if a[0] < b[0] {
        true
    } else if a[0] > b[0] {
        false
    } else {
        seq_lt(a.drop_first(), b.drop_first())
    }
}

/// `seq_lt` is a strict total order.
pub proof fn lemma_seq_lt_total(a: Seq<char>, b: Seq<char>)
    ensures
        seq_lt(a, b) ==> !seq_lt(b, a),
        seq_lt(a, b) || a == b || seq_lt(b, a),
    decreases a.len(),
{
    if a.len() > 0 && b.len() > 0 && a[0] == b[0] {
        lemma_seq_lt_total(a.drop_first(), b.drop_first());
        if a.drop_first() == b.drop_first() {
            assert(a =~= seq![a[0]] + a.drop_first());
            assert(b =~= seq![b[0]] + b.drop_first());
        }
    } else if a.len() == 0 && b.len() == 0 {
        assert(a =~= b);
    }
}

pub proof fn lemma_seq_lt_transitive(a: Seq<char>, b: Seq<char>, c: Seq<char>)
    requires
        seq_lt(a, b),
        seq_lt(b, c),
    ensures
        seq_lt(a, c),
    decreases a.len(),
{
    if a.len() > 0 && b.len() > 0 && c.len() > 0 && a[0] == b[0] && b[0] == c[0] {
        lemma_seq_lt_transitive(a.drop_first(), b.drop_first(), c.drop_first());
    }
}

/// Whether `a` sorts strictly before `b` (as `String`'s `cmp` orders).
pub fn str_lt(a: &str, b: &str) -> (r: bool)
    ensures
        r == seq_lt(a@, b@),
{
    let x = chars_of(a);
    let y = chars_of(b);
    let mut i: usize = 0;
    assert(a@.subrange(0, a@.len() as int) =~= a@);
    assert(b@.subrange(0, b@.len() as int) =~= b@);
    while i < x.len() && i < y.len()
        invariant
            x@ == a@,
            y@ == b@,
            i <= x@.len(),
            i <= y@.len(),
            x@.subrange(0, i as int) == y@.subrange(0, i as int),
            seq_lt(a@, b@) == seq_lt(a@.subrange(i as int, a@.len() as int), b@.subrange(i as int, b@.len() as int)),
        decreases x@.len() - i,
    {
        let ghost ra = a@.subrange(i as int, a@.len() as int);
        let ghost rb = b@.subrange(i as int, b@.len() as int);
        assert(ra[0] == x@[i as int]);
        assert(rb[0] == y@[i as int]);
        if x[i] < y[i] {
            return true;
        }
        if x[i] > y[i] {
            return false;
        }
        assert(ra.drop_first() =~= a@.subrange(i + 1, a@.len() as int));
        assert(rb.drop_first() =~= b@.subrange(i + 1, b@.len() as int));
        assert(x@.subrange(0, i + 1) =~= x@.subrange(0, i as int).push(x@[i as int]));
        assert(y@.subrange(0, i + 1) =~= y@.subrange(0, i as int).push(y@[i as int]));
        i = i + 1;
    }
    i < y.len()
}

/// A copy of a list of strings.
pub fn clone_strings(v: &Vec<String>) -> (r: Vec<String>)
    ensures
        views(r@) == views(v@),
{
    let mut out: Vec<String> = Vec::new();
    let mut i: usize = 0;
    while i < v.len()
        invariant
            i <= v@.len(),
            views(out@) == views(v@.subrange(0, i as int)),
        decreases v@.len() - i,
    {
        let ghost before = out@;
        let c = string_of(v[i].as_str());
        out.push(c);
        proof {
            assert(out@ == before.push(c));
            assert(views(out@) =~= views(before).push(v@[i as int]@));
            assert(views(v@.subrange(0, i + 1)) =~= views(v@.subrange(0, i as int)).push(v@[i as int]@));
        }
        i = i + 1;
    }
    assert(v@.subrange(0, v@.len() as int) =~= v@);
    out
}

/// The strings of an optional list, none when absent.
pub open spec fn opt_views(o: Option<Vec<String>>) -> Seq<Seq<char>> {
    match o {
        Some(v) => views(v@),
        None => Seq::empty(),
    }
}

/// A copy of an optional list of strings, empty when absent.
pub fn strings_or_empty(o: &Option<Vec<String>>) -> (r: Vec<String>)
    ensures
        views(r@) == opt_views(*o),
{
    match o {
        Some(v) => clone_strings(v),
        None => {
            let r: Vec<String> = Vec::new();
            assert(views(r@) =~= Seq::<Seq<char>>::empty());
            r
        },
    }
}

/// Whether `v` holds the string `s`.
pub fn vec_has(v: &Vec<String>, s: &str) -> (r: bool)
    ensures
        r == views(v@).contains(s@),
{
    let mut i: usize = 0;
    while i < v.len()
        invariant
            i <= v@.len(),
            forall|k: int| 0 <= k < i ==> v@[k]@ != s@,
        decreases v@.len() - i,
    {
        if str_eq(v[i].as_str(), s) {
            assert(views(v@)[i as int] == s@);
            return true;
        }
        i = i + 1;
    }
    assert forall|k: int| 0 <= k < views(v@).len() implies views(v@)[k] != s@ by {
        assert(views(v@)[k] == v@[k]@);
    }
    false
}

/// Every character of `s` is ASCII.
pub open spec fn is_ascii_seq(s: Seq<char>) -> bool {
    forall|i: int| 0 <= i < s.len() ==> (#[trigger] s[i]) as int <= 127
}

/// `c` with an ASCII capital turned into its small letter.
pub open spec fn ascii_lower_char(c: char) -> char {
    if 'A' <= c && c <= 'Z' { ((c as int) + 32) as char } else { c }
}

/// `c` with an ASCII small letter turned into its capital.
pub open spec fn ascii_upper_char(c: char) -> char {
    if 'a' <= c && c <= 'z' { ((c as int) - 32) as char } else { c }
}

/// What `str::to_lowercase` gives for a text that is not all ASCII.
pub uninterp spec fn unicode_lowercase(s: Seq<char>) -> Seq<char>;

/// What `str::to_uppercase` gives for a text that is not all ASCII.
pub uninterp spec fn unicode_uppercase(s: Seq<char>) -> Seq<char>;

/// What `str::to_lowercase` gives for `s`: on ASCII text each capital
/// letter becomes its small letter and all else stays.
pub open spec fn lowercase(s: Seq<char>) -> Seq<char> {
    if is_ascii_seq(s) { s.map_values(|c: char| ascii_lower_char(c)) } else { unicode_lowercase(s) }
}

/// What `str::to_uppercase` gives for `s`: on ASCII text each small letter
/// becomes its capital and all else stays.
pub open spec fn uppercase(s: Seq<char>) -> Seq<char> {
    if is_ascii_seq(s) { s.map_values(|c: char| ascii_upper_char(c)) } else { unicode_uppercase(s) }
}

/// Wraps std's `str::to_lowercase`: the contract claims that the result is
/// `lowercase` of the argument: for ASCII text its letters in small case
/// (as the Unicode case mapping std documents gives them), for other text
/// the name `unicode_lowercase` of it, a function of it alone.
#[verifier::external_body]
pub(crate) fn to_lower(s: &str) -> (r: String)
    ensures
        r@ == lowercase(s@),
        !is_ascii_seq(s@) ==> r@ == unicode_lowercase(s@),
{
    s.to_lowercase()
}

/// Wraps std's `str::to_uppercase`: the contract claims that the result is
/// `uppercase` of the argument: for ASCII text its letters in capitals, for
/// other text the name `unicode_uppercase` of it, a function of it alone.
#[verifier::external_body]
pub(crate) fn to_upper(s: &str) -> (r: String)
    ensures
        r@ == uppercase(s@),
        !is_ascii_seq(s@) ==> r@ == unicode_uppercase(s@),
{
    s.to_uppercase()
}

/// The index of the last `c` in `s`.
pub open spec fn last_index(s: Seq<char>, c: char) -> Option<int>
    decreases s.len(),
{
    if s.len() == 0 {
        None
    } else if s.last() == c {
        Some(s.len() - 1)
    } else {
        last_index(s.drop_last(), c)
    }
}

/// The index of the first `c` in `s`.
pub open spec fn first_index(s: Seq<char>, c: char) -> Option<int>
    decreases s.len(),
{
    if s.len() == 0 {
        None
    } else if s[0] == c {
        Some(0)
    } else {
        match first_index(s.drop_first(), c) {
            Some(i) => Some(i + 1),
            None => None,
        }
    }
}

proof fn lemma_last_index(s: Seq<char>, c: char, i: int)
    requires
        0 <= i <= s.len(),
        forall|k: int| i <= k < s.len() ==> s[k] != c,
    ensures
        i > 0 && s[i - 1] == c ==> last_index(s, c) == Some(i - 1),
        i == 0 ==> last_index(s, c) is None,
    decreases s.len() - i,
{
    if i < s.len() {
        lemma_last_index(s.drop_last(), c, i);
    }
}

proof fn lemma_first_index(s: Seq<char>, c: char, i: int)
    requires
        0 <= i <= s.len(),
        forall|k: int| 0 <= k < i ==> s[k] != c,
    ensures
        i < s.len() && s[i] == c ==> first_index(s, c) == Some(i),
        i == s.len() ==> first_index(s, c) is None,
    decreases i,
{
    if i > 0 {
        lemma_first_index(s.drop_first(), c, i - 1);
    }
}

/// The index of the last `c` among the characters `v`.
pub fn rfind_char(v: &Vec<char>, c: char) -> (r: Option<usize>)
    ensures
        match r {
            Some(i) => last_index(v@, c) == Some(i as int) && i < v@.len(),
            None => last_index(v@, c) is None,
        },
{
    let mut i: usize = v.len();
    while i > 0
        invariant
            i <= v@.len(),
            forall|k: int| i <= k < v@.len() ==> v@[k] != c,
        decreases i,
    {
        if v[i - 1] == c {
            proof {
                lemma_last_index(v@, c, i as int);
            }
            return Some(i - 1);
        }
        i = i - 1;
    }
    proof {
        lemma_last_index(v@, c, 0);
    }
    None
}

/// The index of the first `c` among the characters `v`.
pub fn find_char(v: &Vec<char>, c: char) -> (r: Option<usize>)
    ensures
        match r {
            Some(i) => first_index(v@, c) == Some(i as int) && i < v@.len(),
            None => first_index(v@, c) is None,
        },
{
    let mut i: usize = 0;
    while i < v.len()
        invariant
            i <= v@.len(),
            forall|k: int| 0 <= k < i ==> v@[k] != c,
        decreases v@.len() - i,
    {
        if v[i] == c {
            proof {
                lemma_first_index(v@, c, i as int);
            }
            return Some(i);
        }
        i = i + 1;
    }
    proof {
        lemma_first_index(v@, c, v@.len() as int);
    }
    None
}

} // verus!
