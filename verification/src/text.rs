//! Characters, decimal numbers and the few string shapes the catalogs use.

use vstd::prelude::*;

verus! {

/// Whether `c` is an ASCII decimal digit.
pub open spec fn is_digit(c: char) -> bool {
    '0' <= c && c <= '9'
}

/// The value of an ASCII digit.
pub open spec fn digit_value(c: char) -> nat {
    (c as nat - '0' as nat) as nat
}

/// The digit that stands for `d`, for `d < 10`.
pub open spec fn digit_char(d: nat) -> char {
    (d + '0' as nat) as char
}

/// Every character of `s` is an ASCII digit.
pub open spec fn all_digits(s: Seq<char>) -> bool {
    forall|i: int| 0 <= i < s.len() ==> is_digit(#[trigger] s[i])
}

/// The number that a string of decimal digits denotes.
pub open spec fn digits_value(s: Seq<char>) -> nat
    decreases s.len(),
{
    if s.len() == 0 {
        0
    } else {
        digits_value(s.drop_last()) * 10 + digit_value(s.last())
    }
}

/// What `str::parse` gives for an unsigned integer type whose largest value is `max`:
/// an optional leading `+`, then one or more ASCII digits whose value is at most `max`.
pub open spec fn spec_parse_uint(s: Seq<char>, max: nat) -> Option<nat> {
    let body = unsigned_body(s);
    if body.len() > 0 && all_digits(body) && digits_value(body) <= max {
        Some(digits_value(body))
    } else {
        None
    }
}

/// The digits of an unsigned number: `s` without a leading `+`.
pub open spec fn unsigned_body(s: Seq<char>) -> Seq<char> {
    if s.len() > 0 && s[0] == '+' {
        s.drop_first()
    } else {
        s
    }
}

/// The decimal rendering of `n`, without leading zeros.
pub open spec fn decimal(n: nat) -> Seq<char>
    decreases n,
{
    if n < 10 {
        seq![digit_char(n)]
    } else {
        decimal(n / 10).push(digit_char(n % 10))
    }
}

proof fn lemma_digits_value_prefix_grows(s: Seq<char>, i: int)
    requires
        0 <= i <= s.len(),
        all_digits(s),
    ensures
        digits_value(s.take(i)) <= digits_value(s),
    decreases s.len() - i,
{
    if i < s.len() {
        lemma_digits_value_prefix_grows(s, i + 1);
        assert(s.take(i + 1).drop_last() =~= s.take(i));
    } else {
        assert(s.take(i) =~= s);
    }
}

/// The rendering of a number is all digits, never empty, and reads back as the number.
pub proof fn lemma_decimal(n: nat)
    ensures
        decimal(n).len() > 0,
        all_digits(decimal(n)),
        digits_value(decimal(n)) == n,
        decimal(n)[0] != '+',
    decreases n,
{
    if n < 10 {
        assert(digit_value(digit_char(n)) == n);
        assert(decimal(n).drop_last() =~= Seq::<char>::empty());
        assert(digits_value(Seq::<char>::empty()) == 0);
        assert(decimal(n).last() == digit_char(n));
    } else {
        lemma_decimal(n / 10);
        let d = decimal(n);
        assert(digit_value(digit_char(n % 10)) == n % 10);
        assert((n / 10) * 10 + n % 10 == n) by (nonlinear_arith);
        assert(d.last() == digit_char(n % 10));
        assert(d.drop_last() =~= decimal(n / 10));
        assert forall|i: int| 0 <= i < d.len() implies is_digit(#[trigger] d[i]) by {
            if i < d.len() - 1 {
                assert(d[i] == decimal(n / 10)[i]);
            }
        }
    }
}

/// Parsing a rendered number gives the number back.
pub proof fn lemma_parse_decimal(n: nat, max: nat)
    requires
        n <= max,
    ensures
        spec_parse_uint(decimal(n), max) == Some(n),
{
    lemma_decimal(n);
}

/// `i` is the first position of `c` in `s`.
pub open spec fn is_first_at(s: Seq<char>, c: char, i: int) -> bool {
    &&& 0 <= i < s.len()
    &&& s[i] == c
    &&& forall|j: int| 0 <= j < i ==> s[j] != c
}

/// The position of the first `c` in `s`, if any.
pub open spec fn first_index(s: Seq<char>, c: char) -> Option<int> {
    if exists|i: int| is_first_at(s, c, i) {
        Some(choose|i: int| is_first_at(s, c, i))
    } else {
        None
    }
}

/// `str::split_once` with a character: the text before and after the first `c`.
pub open spec fn split_once(s: Seq<char>, c: char) -> Option<(Seq<char>, Seq<char>)> {
    match first_index(s, c) {
        Some(i) => Some((s.take(i), s.skip(i + 1))),
        None => None,
    }
}

/// The two-character pattern `a b` starts at `j` in `s`.
pub open spec fn pair_at(s: Seq<char>, a: char, b: char, j: int) -> bool {
    s[j] == a && s[j + 1] == b
}

/// `i` is the first position where the two-character pattern `a b` starts in `s`.
pub open spec fn is_first_pair_at(s: Seq<char>, a: char, b: char, i: int) -> bool {
    &&& 0 <= i && i + 1 < s.len()
    &&& pair_at(s, a, b, i)
    &&& forall|j: int| 0 <= j < i ==> !#[trigger] pair_at(s, a, b, j)
}

/// `str::split_once` with a two-character pattern: the text before and after its first
/// occurrence.
pub open spec fn split_once_pair(s: Seq<char>, a: char, b: char) -> Option<(Seq<char>, Seq<char>)> {
    if exists|i: int| is_first_pair_at(s, a, b, i) {
        let i = choose|i: int| is_first_pair_at(s, a, b, i);
        Some((s.take(i), s.skip(i + 2)))
    } else {
        None
    }
}

/// Any two first positions are the same position.
pub proof fn lemma_first_unique(s: Seq<char>, c: char, i: int, k: int)
    requires
        is_first_at(s, c, i),
        is_first_at(s, c, k),
    ensures
        i == k,
{
    if i < k {
        assert(s[i] != c);
    } else if k < i {
        assert(s[k] != c);
    }
}

/// The first `c` is found at `i`.
pub proof fn lemma_first_index_at(s: Seq<char>, c: char, i: int)
    requires
        is_first_at(s, c, i),
    ensures
        first_index(s, c) == Some(i),
{
    let k = choose|k: int| is_first_at(s, c, k);
    lemma_first_unique(s, c, i, k);
}

/// Any two first positions of a pair are the same position.
pub proof fn lemma_first_pair_unique(s: Seq<char>, a: char, b: char, i: int, k: int)
    requires
        is_first_pair_at(s, a, b, i),
        is_first_pair_at(s, a, b, k),
    ensures
        i == k,
{
    if i < k {
        assert(!pair_at(s, a, b, i));
    } else if k < i {
        assert(!pair_at(s, a, b, k));
    }
}

/// Digits followed by a separator that is not a digit: splitting at the separator gives
/// the digits and the rest back.
pub proof fn lemma_split_after_digits(d: Seq<char>, c: char, rest: Seq<char>)
    requires
        all_digits(d),
        !is_digit(c),
    ensures
        split_once(d + seq![c] + rest, c) == Some((d, rest)),
{
    let s = d + seq![c] + rest;
    assert(s[d.len() as int] == c);
    assert forall|j: int| 0 <= j < d.len() implies s[j] != c by {
        assert(s[j] == d[j]);
    }
    lemma_first_index_at(s, c, d.len() as int);
    assert(s.take(d.len() as int) =~= d);
    assert(s.skip(d.len() as int + 1) =~= rest);
}

/// Text without `c`, then `c`: splitting at `c` gives the text and the rest back.
pub proof fn lemma_split_after(p: Seq<char>, c: char, rest: Seq<char>)
    requires
        forall|j: int| 0 <= j < p.len() ==> p[j] != c,
    ensures
        split_once(p + seq![c] + rest, c) == Some((p, rest)),
{
    let s = p + seq![c] + rest;
    assert(s[p.len() as int] == c);
    assert forall|j: int| 0 <= j < p.len() implies s[j] != c by {
        assert(s[j] == p[j]);
    }
    lemma_first_index_at(s, c, p.len() as int);
    assert(s.take(p.len() as int) =~= p);
    assert(s.skip(p.len() as int + 1) =~= rest);
}

/// Text with no `c` in it has no first `c`.
pub proof fn lemma_no_first(p: Seq<char>, c: char)
    requires
        forall|j: int| 0 <= j < p.len() ==> p[j] != c,
    ensures
        first_index(p, c) is None,
{
    if exists|i: int| is_first_at(p, c, i) {
        let i = choose|i: int| is_first_at(p, c, i);
        assert(p[i] != c);
    }
}

/// A string of digits holds no separator that is not a digit.
pub proof fn lemma_no_separator_in_digits(d: Seq<char>, c: char)
    requires
        all_digits(d),
        !is_digit(c),
    ensures
        first_index(d, c) is None,
{
    if exists|i: int| is_first_at(d, c, i) {
        let i = choose|i: int| is_first_at(d, c, i);
        assert(is_digit(d[i]));
    }
}

/// The first position of `c` in `s[lo..hi]`, as a position in `s`.
pub fn find_char(s: &[char], lo: usize, hi: usize, c: char) -> (res: Option<usize>)
    requires
        lo <= hi <= s@.len(),
    ensures
        match res {
            Some(k) => lo <= k < hi && first_index(s@.subrange(lo as int, hi as int), c) == Some(
                k - lo,
            ),
            None => first_index(s@.subrange(lo as int, hi as int), c) is None,
        },
{
    let ghost sub = s@.subrange(lo as int, hi as int);
    let mut i = lo;
    while i < hi
        invariant
            lo <= i <= hi <= s@.len(),
            sub == s@.subrange(lo as int, hi as int),
            forall|j: int| 0 <= j < i - lo ==> sub[j] != c,
        decreases hi - i,
    {
        if s[i] == c {
            proof {
                assert(sub[i - lo] == c);
                lemma_first_index_at(sub, c, i - lo);
            }
            return Some(i);
        }
        assert(sub[i - lo] == s@[i as int]);
        i = i + 1;
    }
    proof {
        if exists|k: int| is_first_at(sub, c, k) {
            let k = choose|k: int| is_first_at(sub, c, k);
            assert(sub[k] != c);
        }
    }
    None
}

/// Whether `c` occurs in `s[lo..hi]`.
pub fn contains_char(s: &[char], lo: usize, hi: usize, c: char) -> (res: bool)
    requires
        lo <= hi <= s@.len(),
    ensures
        res == (first_index(s@.subrange(lo as int, hi as int), c) is Some),
{
    find_char(s, lo, hi, c).is_some()
}

/// The first position where `a b` starts in `s[lo..hi]`, as a position in `s`.
pub fn find_pair(s: &[char], lo: usize, hi: usize, a: char, b: char) -> (res: Option<usize>)
    requires
        lo <= hi <= s@.len(),
    ensures
        match res {
            Some(k) => lo <= k && k + 1 < hi && is_first_pair_at(
                s@.subrange(lo as int, hi as int),
                a,
                b,
                k - lo,
            ),
            None => !exists|i: int| is_first_pair_at(s@.subrange(lo as int, hi as int), a, b, i),
        },
{
    let ghost sub = s@.subrange(lo as int, hi as int);
    let mut i = lo;
    while hi - i > 1
        invariant
            lo <= i <= hi <= s@.len(),
            sub == s@.subrange(lo as int, hi as int),
            forall|j: int| 0 <= j < i - lo ==> !#[trigger] pair_at(sub, a, b, j),
        decreases hi - i,
    {
        assert(sub[i - lo] == s@[i as int]);
        assert(sub[i + 1 - lo] == s@[i + 1]);
        if s[i] == a && s[i + 1] == b {
            assert(pair_at(sub, a, b, i - lo));
            return Some(i);
        }
        i = i + 1;
    }
    proof {
        if exists|k: int| is_first_pair_at(sub, a, b, k) {
            let k = choose|k: int| is_first_pair_at(sub, a, b, k);
            assert(!pair_at(sub, a, b, k));
        }
    }
    None
}

/// Appends the decimal rendering of `n`.
pub fn push_decimal(out: &mut Vec<char>, n: u64)
    ensures
        final(out)@ == old(out)@ + decimal(n as nat),
    decreases n,
{
    if n >= 10 {
        push_decimal(out, n / 10);
    }
    let d: u32 = (n % 10) as u32;
    let c = char_from_digit(d);
    out.push(c);
    proof {
        if n >= 10 {
            assert(decimal(n as nat) =~= decimal((n / 10) as nat).push(c));
        }
    }
    assert(final(out)@ =~= old(out)@ + decimal(n as nat)) by {
        if n < 10 {
            assert(decimal(n as nat) =~= seq![c]);
        }
    }
}

/// The ASCII digit for `d`.
pub fn char_from_digit(d: u32) -> (c: char)
    requires
        d < 10,
    ensures
        c == digit_char(d as nat),
        is_digit(c),
        digit_value(c) == d,
{
    let c = match d {
        0 => '0',
        1 => '1',
        2 => '2',
        3 => '3',
        4 => '4',
        5 => '5',
        6 => '6',
        7 => '7',
        8 => '8',
        _ => '9',
    };
    c
}

/// Appends the characters of `s`.
pub fn push_all(out: &mut Vec<char>, s: &[char])
    ensures
        final(out)@ == old(out)@ + s@,
{
    let ghost start = out@;
    let mut i: usize = 0;
    while i < s.len()
        invariant
            i <= s@.len(),
            out@ == start + s@.take(i as int),
        decreases s@.len() - i,
    {
        out.push(s[i]);
        i = i + 1;
        assert(out@ =~= start + s@.take(i as int));
    }
    assert(s@.take(i as int) =~= s@);
}

/// The string made of the characters of `s`.
#[verifier::external_body]
pub(crate) fn string_from_chars(s: &[char]) -> (out: String)
    ensures
        out@ == s@,
{
    String::from_iter(s.iter())
}

/// Whether two strings hold the same characters.
pub fn str_eq(a: &str, b: &str) -> (res: bool)
    ensures
        res == (a@ == b@),
{
    let x = chars_of(a);
    let y = chars_of(b);
    if x.len() != y.len() {
        return false;
    }
    let mut i: usize = 0;
    while i < x.len()
        invariant
            x@ == a@,
            y@ == b@,
            x@.len() == y@.len(),
            i <= x@.len(),
            forall|j: int| 0 <= j < i ==> x@[j] == y@[j],
        decreases x@.len() - i,
    {
        if x[i] != y[i] {
            return false;
        }
        i = i + 1;
    }
    assert(x@ =~= y@);
    true
}

/// The string made of `s[lo..hi]`.
pub fn string_of_range(s: &[char], lo: usize, hi: usize) -> (out: String)
    requires
        lo <= hi <= s@.len(),
    ensures
        out@ == s@.subrange(lo as int, hi as int),
{
    let mut v: Vec<char> = Vec::new();
    let mut i = lo;
    while i < hi
        invariant
            lo <= i <= hi <= s@.len(),
            v@ == s@.subrange(lo as int, i as int),
        decreases hi - i,
    {
        v.push(s[i]);
        i = i + 1;
        assert(v@ =~= s@.subrange(lo as int, i as int));
    }
    string_from_chars(v.as_slice())
}

/// The characters of each string.
pub open spec fn texts(list: Seq<String>) -> Seq<Seq<char>> {
    list.map_values(|s: String| s@)
}

/// Whether some string in `list` holds the same characters as `s`.
pub fn contains_str(list: &[String], s: &str) -> (res: bool)
    ensures
        res == exists|i: int| 0 <= i < list@.len() && #[trigger] list@[i]@ == s@,
{
    let mut i: usize = 0;
    while i < list.len()
        invariant
            i <= list@.len(),
            forall|j: int| 0 <= j < i ==> #[trigger] list@[j]@ != s@,
        decreases list@.len() - i,
    {
        if str_eq(list[i].as_str(), s) {
            return true;
        }
        i = i + 1;
    }
    false
}

/// The characters of `s`.
pub fn chars_of(s: &str) -> (out: Vec<char>)
    ensures
        out@ == s@,
{
    let n = s.unicode_len();
    let mut out: Vec<char> = Vec::new();
    let mut i: usize = 0;
    while i < n
        invariant
            n == s@.len(),
            i <= n,
            out@ == s@.take(i as int),
        decreases n - i,
    {
        out.push(s.get_char(i));
        i = i + 1;
        assert(out@ =~= s@.take(i as int));
    }
    assert(out@ =~= s@);
    out
}

/// Parses `s[lo..hi]` the way `str::parse` parses an unsigned integer no larger than `max`.
pub fn parse_uint(s: &[char], lo: usize, hi: usize, max: u64) -> (res: Option<u64>)
    requires
        lo <= hi <= s@.len(),
    ensures
        res matches Some(v) ==> spec_parse_uint(s@.subrange(lo as int, hi as int), max as nat)
            == Some(v as nat),
        res is None ==> spec_parse_uint(s@.subrange(lo as int, hi as int), max as nat) is None,
{
    let ghost whole = s@.subrange(lo as int, hi as int);
    let mut start = lo;
    if lo < hi && s[lo] == '+' {
        start = lo + 1;
    }
    let ghost body = s@.subrange(start as int, hi as int);
    assert(body =~= unsigned_body(whole));
    if start == hi {
        return None;
    }
    let mut value: u64 = 0;
    let mut i = start;
    while i < hi
        invariant
            lo <= start <= i <= hi <= s@.len(),
            body == s@.subrange(start as int, hi as int),
            whole == s@.subrange(lo as int, hi as int),
            body == unsigned_body(whole),
            all_digits(body.take(i - start)),
            value as nat == digits_value(body.take(i - start)),
            value <= max,
        decreases hi - i,
    {
        let c = s[i];
        assert(body[i - start] == s@[i as int]);
        if c < '0' || c > '9' {
            assert(!is_digit(body[i - start]));
            assert(!all_digits(body));
            assert(spec_parse_uint(whole, max as nat) is None);
            return None;
        }
        let d: u64 = (c as u32 - '0' as u32) as u64;
        assert(body.take(i + 1 - start).drop_last() =~= body.take(i - start));
        if d > max || value > max / 10 || value * 10 > max - d {
            proof {
                assert(value * 10 + d > max) by (nonlinear_arith)
                    requires d > max || value > max / 10 || value * 10 > max - d;
                assert forall|j: int| 0 <= j < i + 1 - start implies is_digit(
                    #[trigger] body.take(i + 1 - start)[j],
                ) by {
                    if j < i - start {
                        assert(body.take(i + 1 - start)[j] == body.take(i - start)[j]);
                    }
                }
                if all_digits(body) {
                    lemma_digits_value_prefix_grows(body, i + 1 - start);
                }
            }
            return None;
        }
        value = value * 10 + d;
        i = i + 1;
        assert forall|j: int| 0 <= j < i - start implies is_digit(#[trigger] body.take(i - start)[j]) by {
            if j < i - 1 - start {
                assert(body.take(i - start)[j] == body.take(i - 1 - start)[j]);
            }
        }
    }
    assert(body.take(hi - start) =~= body);
    Some(value)
}

/// `a` sorts before `b`: compared character by character by code point, a proper prefix
/// first. This is the order of `str`'s comparison, as UTF-8 keeps code point order.
pub open spec fn text_lt(a: Seq<char>, b: Seq<char>) -> bool
    decreases a.len(),
{
    if a.len() == 0 {
        b.len() > 0
    } else if b.len() == 0 {
        false
    } else if a[0] != b[0] {
        (a[0] as int) < (b[0] as int)
    } else {
        text_lt(a.drop_first(), b.drop_first())
    }
}

/// Text order is irreflexive, asymmetric and total.
pub proof fn lemma_text_lt_strict_total(a: Seq<char>, b: Seq<char>)
    ensures
        !text_lt(a, a),
        text_lt(a, b) ==> !text_lt(b, a),
        a != b ==> text_lt(a, b) || text_lt(b, a),
    decreases a.len(),
{
    if a.len() > 0 {
        lemma_text_lt_strict_total(a.drop_first(), a.drop_first());
    }
    if a.len() > 0 && b.len() > 0 && a[0] == b[0] {
        lemma_text_lt_strict_total(a.drop_first(), b.drop_first());
        if a.drop_first() == b.drop_first() {
            assert(a =~= seq![a[0]] + a.drop_first());
            assert(b =~= seq![b[0]] + b.drop_first());
        }
    }
    if a.len() > 0 && b.len() > 0 && a[0] != b[0] {
        assert((a[0] as int) != (b[0] as int));
    }
    if a.len() == 0 && b.len() == 0 {
        assert(a =~= b);
    }
}

/// Text order is transitive.
pub proof fn lemma_text_lt_transitive(a: Seq<char>, b: Seq<char>, c: Seq<char>)
    requires
        text_lt(a, b),
        text_lt(b, c),
    ensures
        text_lt(a, c),
    decreases a.len(),
{
    if a.len() > 0 && b.len() > 0 && c.len() > 0 && a[0] == b[0] && b[0] == c[0] {
        lemma_text_lt_transitive(a.drop_first(), b.drop_first(), c.drop_first());
    }
}

/// Whether `a` sorts before `b`.
pub fn text_less(a: &[char], b: &[char]) -> (r: bool)
    ensures
        r == text_lt(a@, b@),
{
    let mut i: usize = 0;
    assert(a@.skip(0) =~= a@);
    assert(b@.skip(0) =~= b@);
    while i < a.len() && i < b.len() && a[i] == b[i]
        invariant
            i <= a@.len(),
            i <= b@.len(),
            text_lt(a@, b@) == text_lt(a@.skip(i as int), b@.skip(i as int)),
        decreases a@.len() - i,
    {
        assert(a@.skip(i as int).drop_first() =~= a@.skip(i + 1));
        assert(b@.skip(i as int).drop_first() =~= b@.skip(i + 1));
        assert(a@.skip(i as int)[0] == a@[i as int]);
        assert(b@.skip(i as int)[0] == b@[i as int]);
        i = i + 1;
    }
    if i == a.len() {
        i < b.len()
    } else if i == b.len() {
        false
    } else {
        assert(a@.skip(i as int)[0] == a@[i as int]);
        assert(b@.skip(i as int)[0] == b@[i as int]);
        a[i] < b[i]
    }
}

} // verus!
