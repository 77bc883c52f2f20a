//! Text primitives used by the form and query parsers: whitespace trimming
//! (as `str::trim`), integer parsing (as `<i64 as FromStr>`), integer
//! formatting (as `i64`'s `Display`), and comma splitting (as `str::split`).
use vstd::prelude::*;

verus! {

broadcast use vstd::string::group_string_axioms;

/// `char::is_whitespace`: the Unicode `White_Space` property.
pub open spec fn is_ws(c: char) -> bool {
    ||| '\u{9}' <= c <= '\u{d}'
    ||| c == ' '
    ||| c == '\u{85}'
    ||| c == '\u{a0}'
    ||| c == '\u{1680}'
    ||| '\u{2000}' <= c <= '\u{200a}'
    ||| c == '\u{2028}'
    ||| c == '\u{2029}'
    ||| c == '\u{202f}'
    ||| c == '\u{205f}'
    ||| c == '\u{3000}'
}

/// `s` without its leading whitespace.
pub open spec fn trim_start(s: Seq<char>) -> Seq<char>
    decreases s.len(),
{
    if s.len() > 0 && is_ws(s[0]) {
        trim_start(s.drop_first())
    } else {
        s
    }
}

/// `s` without its trailing whitespace.
pub open spec fn trim_end(s: Seq<char>) -> Seq<char>
    decreases s.len(),
{
    if s.len() > 0 && is_ws(s.last()) {
        trim_end(s.drop_last())
    } else {
        s
    }
}

/// `str::trim`: `s` without leading and trailing whitespace.
pub open spec fn trim(s: Seq<char>) -> Seq<char> {
    trim_end(trim_start(s))
}

proof fn lemma_trim_start_shape(s: Seq<char>)
    ensures
        trim_start(s).len() > 0 ==> !is_ws(trim_start(s)[0]),
    decreases s.len(),
{
    if s.len() > 0 && is_ws(s[0]) {
        lemma_trim_start_shape(s.drop_first());
    }
}

proof fn lemma_trim_end_shape(s: Seq<char>)
    ensures
        trim_end(s).len() <= s.len(),
        trim_end(s) == s.take(trim_end(s).len() as int),
        trim_end(s).len() > 0 ==> !is_ws(trim_end(s).last()),
    decreases s.len(),
{
    if s.len() > 0 && is_ws(s.last()) {
        lemma_trim_end_shape(s.drop_last());
        assert(s.drop_last().take(trim_end(s).len() as int) =~= s.take(trim_end(s).len() as int));
    } else {
        assert(s.take(s.len() as int) =~= s);
    }
}

/// Trimming is idempotent: a trimmed text has no whitespace left at either
/// end, so trimming it again changes nothing.
pub proof fn lemma_trim_idempotent(s: Seq<char>)
    ensures
        trim(trim(s)) == trim(s),
        trim(s).len() > 0 ==> !is_ws(trim(s)[0]) && !is_ws(trim(s).last()),
{
    let t = trim_start(s);
    let u = trim_end(t);
    lemma_trim_start_shape(s);
    lemma_trim_end_shape(t);
    lemma_trim_end_shape(u);
    if u.len() > 0 {
        assert(u[0] == t[0]);
    }
    // `u` starts with no whitespace, so trimming its start leaves it alone.
    assert(trim_start(u) == u);
    // `u` ends with no whitespace, so trimming its end leaves it alone.
    assert(trim_end(u) == u);
}

pub open spec fn is_digit(c: char) -> bool {
    '0' <= c <= '9'
}

pub open spec fn all_digits(s: Seq<char>) -> bool {
    forall|i: int| 0 <= i < s.len() ==> #[trigger] is_digit(s[i])
}

pub open spec fn digit_value(c: char) -> int {
    c as int - '0' as int
}

/// The number that a string of decimal digits spells.
pub open spec fn digits_value(s: Seq<char>) -> int
    decreases s.len(),
{
    if s.len() == 0 {
        0
    } else {
        digits_value(s.drop_last()) * 10 + digit_value(s.last())
    }
}

pub open spec fn in_i64(x: int) -> bool {
    i64::MIN <= x <= i64::MAX
}

/// `<i64 as FromStr>::from_str(s).ok()`: an optional sign, then one or more
/// ASCII digits, and a value within `i64`.
pub open spec fn parse_i64_spec(s: Seq<char>) -> Option<i64> {
    if s.len() == 0 {
        None
    } else {
        let neg = s[0] == '-';
        let body = if s[0] == '-' || s[0] == '+' {
            s.drop_first()
        } else {
            s
        };
        let v = if neg {
            -digits_value(body)
        } else {
            digits_value(body)
        };
        if body.len() > 0 && all_digits(body) && in_i64(v) {
            Some(v as i64)
        } else {
            None
        }
    }
}

/// The decimal digits of a natural number, most significant first.
pub open spec fn nat_digits(n: nat) -> Seq<char>
    decreases n,
{
    if n < 10 {
        seq![((n + '0' as int) as u32) as char]
    } else {
        nat_digits(n / 10) + seq![(((n % 10) + '0' as int) as u32) as char]
    }
}

/// `i64`'s `Display`: an optional minus sign and the decimal digits.
pub open spec fn int_text(n: int) -> Seq<char> {
    if n < 0 {
        seq!['-'] + nat_digits((-n) as nat)
    } else {
        nat_digits(n as nat)
    }
}

/// `str::split(sep)`: the pieces between separators; always at least one.
pub open spec fn split_on(s: Seq<char>, sep: char) -> Seq<Seq<char>>
    decreases s.len(),
{
    if s.len() == 0 {
        seq![Seq::<char>::empty()]
    } else {
        let rest = split_on(s.drop_last(), sep);
        if s.last() == sep {
            rest.push(Seq::<char>::empty())
        } else {
            rest.update(rest.len() - 1, rest.last().push(s.last()))
        }
    }
}

pub proof fn lemma_split_on_nonempty(s: Seq<char>, sep: char)
    ensures
        split_on(s, sep).len() >= 1,
    decreases s.len(),
{
    if s.len() > 0 {
        lemma_split_on_nonempty(s.drop_last(), sep);
    }
}

/// The positive integers among the comma-separated pieces, in order: each
/// piece trimmed and parsed as an `i64`, pieces that do not parse or are not
/// positive dropped.
pub open spec fn positive_ids(pieces: Seq<Seq<char>>) -> Seq<i64>
    decreases pieces.len(),
{
    if pieces.len() == 0 {
        Seq::<i64>::empty()
    } else {
        let prev = positive_ids(pieces.drop_last());
        match parse_i64_spec(trim(pieces.last())) {
            Some(x) => if x > 0 {
                prev.push(x)
            } else {
                prev
            },
            None => prev,
        }
    }
}

/// `s.split(',').filter_map(|p| p.trim().parse().ok()).filter(|id| *id > 0)`.
pub open spec fn id_list(s: Seq<char>) -> Seq<i64> {
    positive_ids(split_on(s, ','))
}

pub proof fn lemma_positive_ids_positive(pieces: Seq<Seq<char>>)
    ensures
        forall|i: int|
            0 <= i < positive_ids(pieces).len() ==> #[trigger] positive_ids(pieces)[i] > 0,
    decreases pieces.len(),
{
    if pieces.len() > 0 {
        lemma_positive_ids_positive(pieces.drop_last());
        let prev = positive_ids(pieces.drop_last());
        assert forall|i: int|
            0 <= i < positive_ids(pieces).len() implies #[trigger] positive_ids(pieces)[i] > 0 by {
            if i < prev.len() {
                assert(prev[i] > 0);
            }
        }
    }
}

pub fn is_whitespace(c: char) -> (r: bool)
    ensures
        r == is_ws(c),
{
    ('\u{9}' <= c && c <= '\u{d}') || c == ' ' || c == '\u{85}' || c == '\u{a0}' || c
        == '\u{1680}' || ('\u{2000}' <= c && c <= '\u{200a}') || c == '\u{2028}' || c
        == '\u{2029}' || c == '\u{202f}' || c == '\u{205f}' || c == '\u{3000}'
}

proof fn lemma_trim_start_skip(s: Seq<char>, i: int)
    requires
        0 <= i < s.len(),
        is_ws(s[i]),
    ensures
        trim_start(s.subrange(i, s.len() as int)) == trim_start(s.subrange(i + 1, s.len() as int)),
{
    let t = s.subrange(i, s.len() as int);
    assert(t[0] == s[i]);
    assert(t.drop_first() =~= s.subrange(i + 1, s.len() as int));
}

proof fn lemma_trim_end_skip(s: Seq<char>, i: int, j: int)
    requires
        0 <= i < j <= s.len(),
        is_ws(s[j - 1]),
    ensures
        trim_end(s.subrange(i, j)) == trim_end(s.subrange(i, j - 1)),
{
    let t = s.subrange(i, j);
    assert(t.last() == s[j - 1]);
    assert(t.drop_last() =~= s.subrange(i, j - 1));
}

/// The bounds of `s.trim()` within the characters `v[lo..hi]`.
pub fn trim_bounds(v: &Vec<char>, lo: usize, hi: usize) -> (r: (usize, usize))
    requires
        lo <= hi <= v.len(),
    ensures
        lo <= r.0 <= r.1 <= hi,
        v@.subrange(r.0 as int, r.1 as int) == trim(v@.subrange(lo as int, hi as int)),
{
    let ghost s = v@.subrange(lo as int, hi as int);
    let mut i = lo;
    while i < hi && is_whitespace(v[i])
        invariant
            lo <= i <= hi <= v.len(),
            s == v@.subrange(lo as int, hi as int),
            trim_start(s) == trim_start(v@.subrange(i as int, hi as int)),
        decreases hi - i,
    {
        proof {
            let w = v@.subrange(lo as int, hi as int);
            lemma_trim_start_skip(v@.subrange(0, hi as int), i as int);
            assert(v@.subrange(0, hi as int).subrange(i as int, hi as int) =~= v@.subrange(
                i as int,
                hi as int,
            ));
            assert(v@.subrange(0, hi as int).subrange(i + 1, hi as int) =~= v@.subrange(
                i + 1,
                hi as int,
            ));
        }
        i = i + 1;
    }
    proof {
        let t = v@.subrange(i as int, hi as int);
        if t.len() > 0 {
            assert(t[0] == v@[i as int]);
        }
        assert(trim_start(t) == t);
    }
    let mut j = hi;
    while j > i && is_whitespace(v[j - 1])
        invariant
            lo <= i <= j <= hi <= v.len(),
            trim_end(v@.subrange(i as int, hi as int)) == trim_end(v@.subrange(i as int, j as int)),
        decreases j - i,
    {
        proof {
            lemma_trim_end_skip(v@, i as int, j as int);
        }
        j = j - 1;
    }
    proof {
        let t = v@.subrange(i as int, j as int);
        if t.len() > 0 {
            assert(t.last() == v@[j - 1]);
        }
        assert(trim_end(t) == t);
    }
    (i, j)
}

proof fn lemma_digits_value_nonneg(s: Seq<char>)
    requires
        all_digits(s),
    ensures
        digits_value(s) >= 0,
    decreases s.len(),
{
    if s.len() > 0 {
        assert(all_digits(s.drop_last())) by {
            assert forall|i: int| 0 <= i < s.drop_last().len() implies #[trigger] is_digit(
                s.drop_last()[i],
            ) by {
                assert(is_digit(s[i]));
            }
        }
        lemma_digits_value_nonneg(s.drop_last());
        assert(is_digit(s[s.len() - 1]));
    }
}

/// Appending digits never makes the spelled number smaller.
proof fn lemma_digits_value_grows(s: Seq<char>, k: int)
    requires
        all_digits(s),
        0 <= k <= s.len(),
    ensures
        digits_value(s.take(k)) <= digits_value(s),
    decreases s.len() - k,
{
    if k < s.len() {
        lemma_digits_value_grows(s, k + 1);
        let t = s.take(k + 1);
        assert(t.drop_last() =~= s.take(k));
        assert(all_digits(s.take(k))) by {
            assert forall|i: int| 0 <= i < s.take(k).len() implies #[trigger] is_digit(
                s.take(k)[i],
            ) by {
                assert(is_digit(s[i]));
            }
        }
        lemma_digits_value_nonneg(s.take(k));
        assert(is_digit(s[k]));
        assert(t.last() == s[k]);
    } else {
        assert(s.take(k) =~= s);
    }
}

/// `<i64 as FromStr>::from_str(&s[lo..hi]).ok()` over a character buffer.
pub fn parse_i64_range(v: &Vec<char>, lo: usize, hi: usize) -> (r: Option<i64>)
    requires
        lo <= hi <= v.len(),
    ensures
        r == parse_i64_spec(v@.subrange(lo as int, hi as int)),
{
    let ghost s = v@.subrange(lo as int, hi as int);
    if lo == hi {
        return None;
    }
    let neg = v[lo] == '-';
    let start = if v[lo] == '-' || v[lo] == '+' {
        lo + 1
    } else {
        lo
    };
    let ghost body = v@.subrange(start as int, hi as int);
    proof {
        assert(s[0] == v@[lo as int]);
        if v[lo as int] == '-' || v[lo as int] == '+' {
            assert(s.drop_first() =~= body);
        } else {
            assert(s =~= body);
        }
    }
    if start == hi {
        return None;
    }
    // Largest magnitude admitted: 2^63 for a negative number, 2^63 - 1 otherwise.
    let limit: i128 = if neg {
        9223372036854775808i128
    } else {
        9223372036854775807i128
    };
    let mut acc: i128 = 0;
    let mut i = start;
    while i < hi
        invariant
            start <= i <= hi <= v.len(),
            body == v@.subrange(start as int, hi as int),
            0 <= acc <= limit,
            9223372036854775807i128 <= limit <= 9223372036854775808i128,
            neg == (v@[lo as int] == '-'),
            s == v@.subrange(lo as int, hi as int),
            s.len() > 0,
            s[0] == v@[lo as int],
            body.len() > 0,
            (v@[lo as int] == '-' || v@[lo as int] == '+') ==> body == s.drop_first(),
            !(v@[lo as int] == '-' || v@[lo as int] == '+') ==> body == s,
            limit == (if neg { 9223372036854775808i128 } else { 9223372036854775807i128 }),
            all_digits(body.take(i - start)),
            acc == digits_value(body.take(i - start)),
        decreases hi - i,
    {
        let c = v[i];
        if !('0' <= c && c <= '9') {
            proof {
                assert(body[i - start] == c);
                assert(!is_digit(body[i - start]));
                assert(!all_digits(body));
            }
            return None;
        }
        let d = (c as u32 - '0' as u32) as i128;
        proof {
            assert(0 <= d <= 9);
            assert(d == digit_value(c));
            let t = body.take(i - start + 1);
            assert(t.drop_last() =~= body.take(i - start));
            assert(t.last() == c);
            assert(all_digits(t)) by {
                assert forall|k: int| 0 <= k < t.len() implies #[trigger] is_digit(t[k]) by {
                    if k < t.len() - 1 {
                        assert(t[k] == body.take(i - start)[k]);
                    }
                }
            }
        }
        if acc > (limit - d) / 10 {
            proof {
                let t = body.take(i - start + 1);
                assert(digits_value(t) == acc * 10 + d);
                assert(acc * 10 + d > limit) by (nonlinear_arith)
                    requires
                        acc > (limit - d) / 10,
                        0 <= d <= 9,
                        limit >= 9,
                ;
                if all_digits(body) {
                    lemma_digits_value_grows(body, i - start + 1);
                    assert(digits_value(body) > limit);
                    if neg {
                        assert(!in_i64(-digits_value(body)));
                    } else {
                        assert(!in_i64(digits_value(body)));
                    }
                }
            }
            return None;
        }
        proof {
            assert(acc * 10 + d <= limit) by (nonlinear_arith)
                requires
                    acc <= (limit - d) / 10,
                    0 <= d <= 9,
                    limit >= 9,
            ;
        }
        acc = acc * 10 + d;
        i = i + 1;
    }
    proof {
        assert(body.take(hi - start) =~= body);
    }
    if neg {
        Some((-acc) as i64)
    } else {
        Some(acc as i64)
    }
}

/// `s.split(',').filter_map(|p| p.trim().parse::<i64>().ok()).filter(|id| *id > 0).collect()`.
pub fn parse_positive_id_list(s: &str) -> (r: Vec<i64>)
    ensures
        r@ == id_list(s@),
        forall|i: int| 0 <= i < r.len() ==> #[trigger] r@[i] > 0,
{
    let v = chars_of(s);
    let mut out: Vec<i64> = Vec::new();
    let mut start: usize = 0;
    let mut i: usize = 0;
    while i < v.len()
        invariant
            start <= i <= v.len(),
            v@ == s@,
            split_on(v@.take(i as int), ',').len() >= 1,
            split_on(v@.take(i as int), ',').last() == v@.subrange(start as int, i as int),
            out@ == positive_ids(split_on(v@.take(i as int), ',').drop_last()),
        decreases v.len() - i,
    {
        let ghost pre = split_on(v@.take(i as int), ',');
        proof {
            assert(v@.take(i + 1).drop_last() =~= v@.take(i as int));
            assert(v@.take(i + 1).last() == v@[i as int]);
        }
        if v[i] == ',' {
            let (a, b) = trim_bounds(&v, start, i);
            let p = parse_i64_range(&v, a, b);
            match p {
                Some(x) => {
                    if x > 0 {
                        out.push(x);
                    }
                },
                None => {},
            }
            proof {
                let post = split_on(v@.take(i + 1), ',');
                assert(post == pre.push(Seq::<char>::empty()));
                assert(post.drop_last() =~= pre);
                assert(pre.drop_last() =~= pre.drop_last());
                assert(pre =~= pre.drop_last().push(pre.last()));
            }
            start = i + 1;
        } else {
            proof {
                let post = split_on(v@.take(i + 1), ',');
                assert(post == pre.update(pre.len() - 1, pre.last().push(v@[i as int])));
                assert(post.drop_last() =~= pre.drop_last());
                assert(post.last() =~= v@.subrange(start as int, i + 1));
            }
        }
        i = i + 1;
    }
    let (a, b) = trim_bounds(&v, start, i);
    let p = parse_i64_range(&v, a, b);
    match p {
        Some(x) => {
            if x > 0 {
                out.push(x);
            }
        },
        None => {},
    }
    proof {
        let all = split_on(v@.take(i as int), ',');
        assert(v@.take(i as int) =~= s@);
        assert(all =~= all.drop_last().push(all.last()));
        lemma_positive_ids_positive(split_on(s@, ','));
        assert(out@ == id_list(s@));
        assert forall|i: int| 0 <= i < out.len() implies #[trigger] out@[i] > 0 by {
            assert(out@[i] == positive_ids(split_on(s@, ','))[i]);
        }
    }
    out
}

fn digit_char(d: u64) -> (c: char)
    requires
        d < 10,
    ensures
        c == (((d as nat) + '0' as int) as u32) as char,
{
    match d {
        0 => '0',
        1 => '1',
        2 => '2',
        3 => '3',
        4 => '4',
        5 => '5',
        6 => '6',
        7 => '7',
        8 => '8',
        _ => '9',
    }
}

/// The decimal text of `n` (`i64`'s `Display`).
pub fn int_to_text(n: i64) -> (r: String)
    ensures
        r@ == int_text(n as int),
{
    let neg = n < 0;
    let mut m: u64 = if neg {
        (0i128 - n as i128) as u64
    } else {
        n as u64
    };
    let ghost m0 = m as nat;
    // Digits of `m0`, least significant first.
    let mut rev: Vec<char> = Vec::new();
    loop
        invariant_except_break
            nat_digits(m0) == nat_digits(m as nat) + rev@.reverse(),
        invariant
            m0 == (if neg { -(n as int) } else { n as int }),
        ensures
            nat_digits(m0) == rev@.reverse(),
        decreases m,
    {
        let c = digit_char(m % 10);
        if m < 10 {
            proof {
                assert(nat_digits(m as nat) == seq![c]);
            }
            rev.push(c);
            proof {
                assert(rev@.reverse() =~= seq![c] + rev@.drop_last().reverse());
                assert(nat_digits(m0) =~= rev@.reverse());
            }
            break ;
        }
        proof {
            assert(nat_digits(m as nat) == nat_digits((m / 10) as nat) + seq![c]);
        }
        rev.push(c);
        proof {
            assert(rev@.reverse() =~= seq![c] + rev@.drop_last().reverse());
            assert(nat_digits(m0) =~= nat_digits((m / 10) as nat) + rev@.reverse());
        }
        m = m / 10;
    }
    let mut out: Vec<char> = Vec::new();
    if neg {
        out.push('-');
    }
    let mut k = rev.len();
    while k > 0
        invariant
            k <= rev.len(),
            out@ == (if neg { seq!['-'] } else { Seq::<char>::empty() }) + rev@.subrange(
                k as int,
                rev.len() as int,
            ).reverse(),
        decreases k,
    {
        k = k - 1;
        out.push(rev[k]);
        proof {
            assert(rev@.subrange(k as int, rev.len() as int).reverse() =~= rev@.subrange(
                k + 1,
                rev.len() as int,
            ).reverse().push(rev@[k as int]));
        }
    }
    proof {
        assert(rev@.subrange(0, rev.len() as int) =~= rev@);
    }
    string_from_chars(&out)
}

/// Whether the text is empty once trimmed (`s.trim().is_empty()`).
pub fn is_blank(s: &str) -> (r: bool)
    ensures
        r == (trim(s@).len() == 0),
{
    let v = chars_of(s);
    let (a, b) = trim_bounds(&v, 0, v.len());
    proof {
        assert(v@.subrange(0, v@.len() as int) =~= s@);
    }
    a == b
}

/// `s.trim().to_string()`.
pub fn trimmed(s: &str) -> (r: String)
    ensures
        r@ == trim(s@),
{
    let v = chars_of(s);
    let (a, b) = trim_bounds(&v, 0, v.len());
    proof {
        assert(v@.subrange(0, v@.len() as int) =~= s@);
    }
    let mut out: Vec<char> = Vec::new();
    let mut i = a;
    while i < b
        invariant
            a <= i <= b <= v.len(),
            out@ == v@.subrange(a as int, i as int),
        decreases b - i,
    {
        out.push(v[i]);
        proof {
            assert(out@ =~= v@.subrange(a as int, i + 1));
        }
        i = i + 1;
    }
    string_from_chars(&out)
}

/// `"#{id}"`.
pub open spec fn hash_id(id: int) -> Seq<char> {
    seq!['#'] + int_text(id)
}

/// `format!("#{id}")`.
pub fn hash_id_text(id: i64) -> (r: String)
    ensures
        r@ == hash_id(id as int),
{
    let mut s = String::from_str("#");
    proof {
        reveal_strlit("#");
    }
    let t = int_to_text(id);
    s.append(t.as_str());
    s
}

/// Whether two texts are equal.
pub fn str_eq(a: &str, b: &str) -> (r: bool)
    ensures
        r == (a@ == b@),
{
    let x = chars_of(a);
    let y = chars_of(b);
    if x.len() != y.len() {
        return false;
    }
    let mut i: usize = 0;
    while i < x.len()
        invariant
            i <= x.len(),
            x.len() == y.len(),
            x@ == a@,
            y@ == b@,
            forall|k: int| 0 <= k < i ==> x@[k] == y@[k],
        decreases x.len() - i,
    {
        if x[i] != y[i] {
            proof {
                assert(x@[i as int] != y@[i as int]);
                assert(a@[i as int] != b@[i as int]);
            }
            return false;
        }
        i = i + 1;
    }
    proof {
        assert(x@ =~= y@);
    }
    true
}

/// `s` with every occurrence of the non-empty `pat`, taken left to right
/// without overlaps, replaced by `rep` (`str::replace`).
pub open spec fn replace_all(s: Seq<char>, pat: Seq<char>, rep: Seq<char>) -> Seq<char>
    decreases s.len(),
{
    if s.len() == 0 || pat.len() == 0 {
        s
    } else if pat.len() <= s.len() && s.take(pat.len() as int) == pat {
        rep + replace_all(s.skip(pat.len() as int), pat, rep)
    } else {
        seq![s[0]] + replace_all(s.skip(1), pat, rep)
    }
}

fn matches_at(v: &Vec<char>, i: usize, p: &Vec<char>) -> (r: bool)
    requires
        i <= v.len(),
    ensures
        r == (p.len() <= v.len() - i && v@.skip(i as int).take(p.len() as int) == p@),
{
    if p.len() > v.len() - i {
        return false;
    }
    let mut k: usize = 0;
    while k < p.len()
        invariant
            k <= p.len(),
            p.len() <= v.len() - i,
            forall|m: int| 0 <= m < k ==> v@[i + m] == p@[m],
        decreases p.len() - k,
    {
        if v[i + k] != p[k] {
            proof {
                let t = v@.skip(i as int).take(p.len() as int);
                assert(t[k as int] == v@[i + k]);
            }
            return false;
        }
        k = k + 1;
    }
    proof {
        assert(v@.skip(i as int).take(p.len() as int) =~= p@);
    }
    true
}

/// `s.replace(pat, rep)` for a non-empty pattern.
pub fn replace_text(s: &str, pat: &str, rep: &str) -> (r: String)
    requires
        pat@.len() > 0,
    ensures
        r@ == replace_all(s@, pat@, rep@),
{
    let v = chars_of(s);
    let p = chars_of(pat);
    let q = chars_of(rep);
    let mut out: Vec<char> = Vec::new();
    let mut i: usize = 0;
    proof {
        assert(v@.skip(0) =~= v@);
        assert(out@ + replace_all(v@.skip(0), p@, q@) =~= replace_all(v@, p@, q@));
    }
    while i < v.len()
        invariant
            i <= v.len(),
            v@ == s@,
            p@ == pat@,
            q@ == rep@,
            p@.len() > 0,
            out@ + replace_all(v@.skip(i as int), p@, q@) == replace_all(v@, p@, q@),
        decreases v.len() - i,
    {
        let ghost rest = v@.skip(i as int);
        let ghost before = out@;
        if matches_at(&v, i, &p) {
            let mut m: usize = 0;
            while m < q.len()
                invariant
                    m <= q.len(),
                    out@ == before + q@.take(m as int),
                decreases q.len() - m,
            {
                out.push(q[m]);
                proof {
                    assert(out@ =~= before + q@.take(m + 1));
                }
                m = m + 1;
            }
            proof {
                assert(q@.take(m as int) =~= q@);
                assert(rest.len() > 0);
                assert(rest.skip(p@.len() as int) =~= v@.skip(i + p@.len()));
                assert(replace_all(rest, p@, q@) == q@ + replace_all(rest.skip(p@.len() as int), p@, q@));
                assert(out@ + replace_all(v@.skip(i + p@.len()), p@, q@) =~= before + (q@
                    + replace_all(rest.skip(p@.len() as int), p@, q@)));
            }
            i = i + p.len();
        } else {
            out.push(v[i]);
            proof {
                assert(rest.len() > 0);
                assert(rest[0] == v@[i as int]);
                assert(rest.skip(1) =~= v@.skip(i + 1));
                assert(replace_all(rest, p@, q@) == seq![rest[0]] + replace_all(rest.skip(1), p@, q@));
                assert(out@ + replace_all(v@.skip(i + 1), p@, q@) =~= before + (seq![rest[0]]
                    + replace_all(rest.skip(1), p@, q@)));
            }
            i = i + 1;
        }
    }
    proof {
        assert(v@.skip(i as int) =~= Seq::<char>::empty());
        assert(out@ + Seq::<char>::empty() =~= out@);
    }
    string_from_chars(&out)
}

/// Texts separated by `sep`.
pub open spec fn join_with(parts: Seq<Seq<char>>, sep: Seq<char>) -> Seq<char>
    decreases parts.len(),
{
    if parts.len() == 0 {
        Seq::empty()
    } else if parts.len() == 1 {
        parts[0]
    } else {
        join_with(parts.drop_last(), sep) + sep + parts.last()
    }
}

/// `parts.join(sep)`.
pub fn join_text(parts: &Vec<String>, sep: &str) -> (r: String)
    ensures
        r@ == join_with(parts@.map_values(|p: String| p@), sep@),
{
    let mut out = String::from_str("");
    proof {
        reveal_strlit("");
        assert(parts@.map_values(|p: String| p@).take(0) =~= Seq::<Seq<char>>::empty());
    }
    let mut i: usize = 0;
    while i < parts.len()
        invariant
            i <= parts.len(),
            out@ == join_with(parts@.map_values(|p: String| p@).take(i as int), sep@),
        decreases parts.len() - i,
    {
        let ghost all = parts@.map_values(|p: String| p@);
        proof {
            assert(all.take(i + 1).drop_last() =~= all.take(i as int));
            assert(all.take(i + 1).last() == parts@[i as int]@);
        }
        if i > 0 {
            out.append(sep);
        }
        out.append(parts[i].as_str());
        proof {
            if i == 0 {
                assert(all.take(1)[0] == parts@[0]@);
                assert(out@ =~= parts@[0]@);
            }
        }
        i = i + 1;
    }
    proof {
        assert(parts@.map_values(|p: String| p@).take(i as int) =~= parts@.map_values(|p: String| p@));
    }
    out
}

/// The bounds of the pieces of `v` between separators (`str::split`).
pub fn split_bounds(v: &Vec<char>, sep: char) -> (r: Vec<(usize, usize)>)
    ensures
        r.len() == split_on(v@, sep).len(),
        forall|k: int|
            0 <= k < r.len() ==> (#[trigger] r@[k]).0 <= r@[k].1 <= v.len() && v@.subrange(
                r@[k].0 as int,
                r@[k].1 as int,
            ) == split_on(v@, sep)[k],
{
    let mut out: Vec<(usize, usize)> = Vec::new();
    let mut start: usize = 0;
    let mut i: usize = 0;
    proof {
        assert(v@.take(0) =~= Seq::<char>::empty());
    }
    while i < v.len()
        invariant
            start <= i <= v.len(),
            split_on(v@.take(i as int), sep).len() >= 1,
            split_on(v@.take(i as int), sep).last() == v@.subrange(start as int, i as int),
            out.len() == split_on(v@.take(i as int), sep).len() - 1,
            forall|k: int|
                0 <= k < out.len() ==> (#[trigger] out@[k]).0 <= out@[k].1 <= v.len() && v@.subrange(
                    out@[k].0 as int,
                    out@[k].1 as int,
                ) == split_on(v@.take(i as int), sep)[k],
        decreases v.len() - i,
    {
        let ghost pre = split_on(v@.take(i as int), sep);
        proof {
            assert(v@.take(i + 1).drop_last() =~= v@.take(i as int));
            assert(v@.take(i + 1).last() == v@[i as int]);
        }
        if v[i] == sep {
            out.push((start, i));
            proof {
                let post = split_on(v@.take(i + 1), sep);
                assert(post == pre.push(Seq::<char>::empty()));
                assert forall|k: int| 0 <= k < out.len() implies (#[trigger] out@[k]).0 <= out@[k].1
                    <= v.len() && v@.subrange(out@[k].0 as int, out@[k].1 as int) == post[k] by {
                    if k < out.len() - 1 {
                        assert(post[k] == pre[k]);
                    } else {
                        assert(post[k] == pre.last());
                    }
                }
                assert(post.last() =~= v@.subrange(i + 1, i + 1));
            }
            start = i + 1;
        } else {
            proof {
                let post = split_on(v@.take(i + 1), sep);
                assert(post == pre.update(pre.len() - 1, pre.last().push(v@[i as int])));
                assert forall|k: int| 0 <= k < out.len() implies (#[trigger] out@[k]).0 <= out@[k].1
                    <= v.len() && v@.subrange(out@[k].0 as int, out@[k].1 as int) == post[k] by {
                    assert(post[k] == pre[k]);
                }
                assert(post.last() =~= v@.subrange(start as int, i + 1));
            }
        }
        i = i + 1;
    }
    out.push((start, i));
    proof {
        assert(v@.take(i as int) =~= v@);
        let all = split_on(v@, sep);
        assert forall|k: int| 0 <= k < out.len() implies (#[trigger] out@[k]).0 <= out@[k].1 <= v.len()
            && v@.subrange(out@[k].0 as int, out@[k].1 as int) == all[k] by {
        }
    }
    out
}

/// The characters `v[lo..hi]` as a string.
pub fn text_of_range(v: &Vec<char>, lo: usize, hi: usize) -> (r: String)
    requires
        lo <= hi <= v.len(),
    ensures
        r@ == v@.subrange(lo as int, hi as int),
{
    let mut out: Vec<char> = Vec::new();
    let mut i = lo;
    while i < hi
        invariant
            lo <= i <= hi <= v.len(),
            out@ == v@.subrange(lo as int, i as int),
        decreases hi - i,
    {
        out.push(v[i]);
        proof {
            assert(out@ =~= v@.subrange(lo as int, i + 1));
        }
        i = i + 1;
    }
    string_from_chars(&out)
}

/// The characters of a string slice, in order.
pub fn chars_of(s: &str) -> (v: Vec<char>)
    ensures
        v@ == s@,
{
    let mut v: Vec<char> = Vec::new();
    for c in it: s.chars()
        invariant
            v@ == it.seq().take(it.index() as int),
            it.seq() == s@,
    {
        v.push(c);
        assert(it.seq().take(it.index() + 1) =~= it.seq().take(it.index() as int).push(c));
    }
    v
}

/// `String::from_iter` over characters.
#[verifier::external_body]
pub(crate) fn string_from_chars(v: &Vec<char>) -> (s: String)
    ensures
        s@ == v@,
{
    String::from_iter(v.iter())
}

/// Whether `a` sorts strictly before `b` as `String`'s `Ord` sorts: by code
/// points, and a proper prefix first.
pub open spec fn text_lt(a: Seq<char>, b: Seq<char>) -> bool
    decreases a.len(),
{
    if a.len() == 0 {
        b.len() > 0
    } else if b.len() == 0 {
        false
    } else if a[0] != b[0] {
        (a[0] as u32) < (b[0] as u32)
    } else {
        text_lt(a.drop_first(), b.drop_first())
    }
}

/// Texts in ascending order (equal texts side by side).
pub open spec fn texts_sorted(s: Seq<Seq<char>>) -> bool {
    forall|i: int, j: int| 0 <= i < j < s.len() ==> !text_lt(#[trigger] s[j], #[trigger] s[i])
}

/// The texts of a list of strings.
pub open spec fn texts_of(s: Seq<String>) -> Seq<Seq<char>> {
    s.map_values(|t: String| t@)
}

pub proof fn lemma_text_lt_irreflexive(a: Seq<char>)
    ensures
        !text_lt(a, a),
    decreases a.len(),
{
    if a.len() > 0 {
        lemma_text_lt_irreflexive(a.drop_first());
    }
}

pub proof fn lemma_text_lt_transitive(a: Seq<char>, b: Seq<char>, c: Seq<char>)
    requires
        text_lt(a, b),
        text_lt(b, c),
    ensures
        text_lt(a, c),
    decreases a.len(),
{
    if a.len() > 0 && a[0] == b[0] && b[0] == c[0] {
        lemma_text_lt_transitive(a.drop_first(), b.drop_first(), c.drop_first());
    }
}

pub proof fn lemma_text_lt_total(a: Seq<char>, b: Seq<char>)
    requires
        a != b,
    ensures
        text_lt(a, b) || text_lt(b, a),
    decreases a.len(),
{
    if a.len() == 0 && b.len() == 0 {
        assert(a =~= b);
    } else if a.len() > 0 && b.len() > 0 {
        if a[0] != b[0] {
            vstd::utf8::char_u32_cast(a[0], a[0] as u32);
            vstd::utf8::char_u32_cast(b[0], b[0] as u32);
        } else {
            if a.drop_first() == b.drop_first() {
                assert(a =~= seq![a[0]] + a.drop_first());
                assert(b =~= seq![b[0]] + b.drop_first());
            }
            lemma_text_lt_total(a.drop_first(), b.drop_first());
        }
    }
}

/// Sorting texts has one outcome: two ascending lists of the same texts
/// are equal.
pub proof fn lemma_sorted_texts_unique(s1: Seq<Seq<char>>, s2: Seq<Seq<char>>)
    requires
        texts_sorted(s1),
        texts_sorted(s2),
        s1.to_multiset() == s2.to_multiset(),
    ensures
        s1 == s2,
    decreases s1.len(),
{
    broadcast use vstd::seq_lib::group_to_multiset_ensures;

    vstd::seq_lib::to_multiset_len(s1);
    vstd::seq_lib::to_multiset_len(s2);
    if s1.len() == 0 {
        assert(s1 =~= s2);
    } else {
        let a = s1[0];
        let b = s2[0];
        assert(s1.to_multiset().count(a) > 0);
        assert(s2.contains(a));
        let j = choose|j: int| 0 <= j < s2.len() && s2[j] == a;
        if j > 0 {
            assert(!text_lt(s2[j], s2[0]));
        } else {
            lemma_text_lt_irreflexive(a);
        }
        assert(s2.to_multiset().count(b) > 0);
        assert(s1.contains(b));
        let i = choose|i: int| 0 <= i < s1.len() && s1[i] == b;
        if i > 0 {
            assert(!text_lt(s1[i], s1[0]));
        } else {
            lemma_text_lt_irreflexive(b);
        }
        if a != b {
            lemma_text_lt_total(a, b);
        }
        vstd::seq_lib::to_multiset_remove(s1, 0);
        vstd::seq_lib::to_multiset_remove(s2, 0);
        assert(s1.remove(0) =~= s1.drop_first());
        assert(s2.remove(0) =~= s2.drop_first());
        let t1 = s1.drop_first();
        let t2 = s2.drop_first();
        assert forall|x: int, y: int| 0 <= x < y < t1.len() implies !text_lt(#[trigger] t1[y], #[trigger] t1[x]) by {
            assert(t1[y] == s1[y + 1] && t1[x] == s1[x + 1]);
        }
        assert forall|x: int, y: int| 0 <= x < y < t2.len() implies !text_lt(#[trigger] t2[y], #[trigger] t2[x]) by {
            assert(t2[y] == s2[y + 1] && t2[x] == s2[x + 1]);
        }
        assert(a == b);
        lemma_sorted_texts_unique(t1, t2);
        assert forall|k: int| 0 <= k < s1.len() implies s1[k] == s2[k] by {
            if k > 0 {
                assert(s1[k] == t1[k - 1] && s2[k] == t2[k - 1]);
            }
        }
        assert(s1 =~= s2);
    }
}

/// `a < b` on strings.
pub fn text_less(a: &str, b: &str) -> (r: bool)
    ensures
        r == text_lt(a@, b@),
{
    let x = chars_of(a);
    let y = chars_of(b);
    let mut i: usize = 0;
    proof {
        assert(x@.skip(0) =~= x@);
        assert(y@.skip(0) =~= y@);
    }
    while i < x.len() && i < y.len()
        invariant
            i <= x.len(),
            i <= y.len(),
            text_lt(a@, b@) == text_lt(x@.skip(i as int), y@.skip(i as int)),
            x@ == a@,
            y@ == b@,
        decreases x.len() - i,
    {
        let ca = x[i];
        let cb = y[i];
        proof {
            assert(x@.skip(i as int)[0] == ca);
            assert(y@.skip(i as int)[0] == cb);
        }
        if ca != cb {
            return (ca as u32) < (cb as u32);
        }
        proof {
            assert(x@.skip(i as int).drop_first() =~= x@.skip(i + 1));
            assert(y@.skip(i as int).drop_first() =~= y@.skip(i + 1));
        }
        i = i + 1;
    }
    i < y.len()
}

/// `v` sorted ascending, as `sort` leaves a `Vec<String>`.
pub fn sort_texts(v: &Vec<String>) -> (r: Vec<String>)
    ensures
        texts_of(r@).to_multiset() == texts_of(v@).to_multiset(),
        texts_sorted(texts_of(r@)),
{
    let mut out: Vec<String> = Vec::new();
    let mut i: usize = 0;
    proof {
        assert(texts_of(v@).take(0) =~= Seq::<Seq<char>>::empty());
        assert(texts_of(out@) =~= Seq::<Seq<char>>::empty());
    }
    while i < v.len()
        invariant
            i <= v.len(),
            texts_of(out@).to_multiset() == texts_of(v@).take(i as int).to_multiset(),
            texts_sorted(texts_of(out@)),
        decreases v.len() - i,
    {
        let x = v[i].clone();
        let mut k: usize = 0;
        let mut found = false;
        while k < out.len() && !found
            invariant
                k <= out.len(),
                forall|m: int| 0 <= m < k ==> !text_lt(x@, #[trigger] texts_of(out@)[m]),
                found ==> k < out.len() && text_lt(x@, texts_of(out@)[k as int]),
            decreases out.len() - k + if found { 0int } else { 1int },
        {
            if text_less(x.as_str(), out[k].as_str()) {
                found = true;
            } else {
                k = k + 1;
            }
        }
        let ghost old_texts = texts_of(out@);
        out.insert(k, x);
        proof {
            let xs = v@[i as int]@;
            assert(texts_of(out@) =~= old_texts.insert(k as int, xs));
            assert(texts_of(v@).take(i + 1) =~= texts_of(v@).take(i as int).push(xs));
            vstd::seq_lib::to_multiset_build(texts_of(v@).take(i as int), xs);
            vstd::seq_lib::to_multiset_insert(old_texts, k as int, xs);
            let nt = texts_of(out@);
            assert forall|a: int, b: int| 0 <= a < b < nt.len() implies !text_lt(
                #[trigger] nt[b],
                #[trigger] nt[a],
            ) by {
                if b < k {
                    assert(nt[a] == old_texts[a] && nt[b] == old_texts[b]);
                } else if a > k {
                    assert(nt[a] == old_texts[a - 1] && nt[b] == old_texts[b - 1]);
                } else if a == k {
                    // x before old_texts[b - 1], with k <= b - 1.
                    let y = old_texts[b - 1];
                    if text_lt(y, xs) {
                        let z = old_texts[k as int];
                        lemma_text_lt_transitive(y, xs, z);
                        if b - 1 == k {
                            lemma_text_lt_irreflexive(y);
                        }
                    }
                } else if b == k {
                    assert(nt[a] == old_texts[a]);
                } else {
                    assert(nt[a] == old_texts[a] && nt[b] == old_texts[b - 1]);
                }
            }
        }
        i = i + 1;
    }
    proof {
        assert(texts_of(v@).take(v.len() as int) =~= texts_of(v@));
    }
    out
}

} // verus!
