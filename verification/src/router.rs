use vstd::prelude::*;
use crate::types::{FileId, TimestampMillis};

verus! {

/// What an HTTP request path asks for.
#[derive(Clone, Copy, Debug, PartialEq, Eq, Structural)]
pub enum Route {
    File(u128),
    Logs(Option<TimestampMillis>),
    Traces(Option<TimestampMillis>),
    Metrics,
    Other,
}

/// `s` without its leading slashes.
pub open spec fn drop_leading_slashes(s: Seq<char>) -> Seq<char>
    decreases s.len(),
{
    if s.len() > 0 && s[0] == '/' {
        drop_leading_slashes(s.drop_first())
    } else {
        s
    }
}

/// `s` without its trailing slashes.
pub open spec fn drop_trailing_slashes(s: Seq<char>) -> Seq<char>
    decreases s.len(),
{
    if s.len() > 0 && s.last() == '/' {
        drop_trailing_slashes(s.drop_last())
    } else {
        s
    }
}

/// The lower-case form of a string, as `str::to_lowercase` computes it.
pub uninterp spec fn lowercase(s: Seq<char>) -> Seq<char>;

/// Every character of `s` is an ASCII character.
pub open spec fn is_ascii_text(s: Seq<char>) -> bool {
    forall|i: int| 0 <= i < s.len() ==> (#[trigger] s[i] as u32) < 128
}

/// The lower-case form of an ASCII character: `A` to `Z` become `a` to `z`, and every other
/// character stays as it is.
pub open spec fn ascii_lower(c: char) -> char {
    if 65 <= (c as u32) && (c as u32) <= 90 {
        ((c as u32) + 32) as char
    } else {
        c
    }
}

/// The upper-case form of an ASCII character: `a` to `z` become `A` to `Z`, and every other
/// character stays as it is.
pub open spec fn ascii_upper(c: char) -> char {
    if 97 <= (c as u32) && (c as u32) <= 122 {
        ((c as u32) - 32) as char
    } else {
        c
    }
}

/// The lower-case form of an ASCII string.
pub open spec fn ascii_lowercase(s: Seq<char>) -> Seq<char> {
    s.map_values(|c: char| ascii_lower(c))
}

/// The upper-case form of an ASCII string.
pub open spec fn ascii_uppercase(s: Seq<char>) -> Seq<char> {
    s.map_values(|c: char| ascii_upper(c))
}

/// `n` slashes.
pub open spec fn slashes(n: nat) -> Seq<char> {
    Seq::new(n, |i: int| '/')
}

/// With only slashes before position `i` and no slash at it, trimming leading slashes leaves
/// what starts at `i`.
proof fn lemma_drop_leading_at(s: Seq<char>, i: int)
    requires
        0 <= i <= s.len(),
        forall|j: int| 0 <= j < i ==> s[j] == '/',
        i < s.len() ==> s[i] != '/',
    ensures
        drop_leading_slashes(s) == s.subrange(i, s.len() as int),
    decreases i,
{
    if i == 0 {
        if s.len() > 0 {
            assert(s[0] != '/');
        }
        assert(s.subrange(0, s.len() as int) =~= s);
    } else {
        let t = s.drop_first();
        assert forall|j: int| 0 <= j < i - 1 implies t[j] == '/' by {
            assert(t[j] == s[j + 1]);
        }
        if i - 1 < t.len() {
            assert(t[i - 1] == s[i]);
        }
        lemma_drop_leading_at(t, i - 1);
        assert(t.subrange(i - 1, t.len() as int) =~= s.subrange(i, s.len() as int));
    }
}

/// With only slashes from position `i` on and no slash just before it, trimming trailing
/// slashes leaves what ends at `i`.
proof fn lemma_drop_trailing_at(s: Seq<char>, i: int)
    requires
        0 <= i <= s.len(),
        forall|j: int| i <= j < s.len() ==> s[j] == '/',
        i > 0 ==> s[i - 1] != '/',
    ensures
        drop_trailing_slashes(s) == s.subrange(0, i),
    decreases s.len() - i,
{
    if i == s.len() {
        if s.len() > 0 {
            assert(s.last() == s[i - 1]);
        }
        assert(s.subrange(0, i) =~= s);
    } else {
        let t = s.drop_last();
        assert(s.last() == s[s.len() - 1]);
        assert forall|j: int| i <= j < t.len() implies t[j] == '/' by {
            assert(t[j] == s[j]);
        }
        if i > 0 {
            assert(t[i - 1] == s[i - 1]);
        }
        lemma_drop_trailing_at(t, i);
        assert(t.subrange(0, i) =~= s.subrange(0, i));
    }
}

/// `s` without its leading slashes, as `str::trim_start_matches('/')` gives it.
fn trim_start_slashes(s: &str) -> (r: &str)
    ensures
        r@ == drop_leading_slashes(s@),
{
    let n = s.unicode_len();
    let mut i: usize = 0;
    while i < n && s.get_char(i) == '/'
        invariant
            n == s@.len(),
            i <= n,
            forall|j: int| 0 <= j < i ==> s@[j] == '/',
        decreases n - i,
    {
        i = i + 1;
    }
    proof {
        lemma_drop_leading_at(s@, i as int);
    }
    s.substring_char(i, n)
}

/// `s` without its trailing slashes, as `str::trim_end_matches('/')` gives it.
fn trim_end_slashes(s: &str) -> (r: &str)
    ensures
        r@ == drop_trailing_slashes(s@),
{
    let n = s.unicode_len();
    let mut i: usize = n;
    while i > 0 && s.get_char(i - 1) == '/'
        invariant
            n == s@.len(),
            i <= n,
            forall|j: int| i <= j < n ==> s@[j] == '/',
        decreases i,
    {
        i = i - 1;
    }
    proof {
        lemma_drop_trailing_at(s@, i as int);
    }
    s.substring_char(0, i)
}

/// Calls `str::to_lowercase`. The result depends on `s` alone and is named; of an ASCII
/// string the contract states it in full: `A` to `Z` become `a` to `z` and every other
/// character stays. What it gives for other characters is left unsaid.
#[verifier::external_body]
fn to_lowercase(s: &str) -> (r: String)
    ensures
        r@ == lowercase(s@),
        is_ascii_text(s@) ==> r@ == ascii_lowercase(s@),
{
    s.to_lowercase()
}

/// The first position of a slash in `s`, if any.
pub open spec fn first_slash(s: Seq<char>) -> Option<int> {
    if exists|i: int| 0 <= i < s.len() && s[i] == '/' {
        Some(choose|i: int| 0 <= i < s.len() && s[i] == '/' && forall|j: int| 0 <= j < i ==> s[j] != '/')
    } else {
        None
    }
}

/// The first segment of `s` when split at slashes.
pub open spec fn first_segment(s: Seq<char>) -> Seq<char> {
    match first_slash(s) {
        Some(i) => s.take(i),
        None => s,
    }
}

/// What follows the first slash of `s`.
pub open spec fn after_first_slash(s: Seq<char>) -> Seq<char> {
    match first_slash(s) {
        Some(i) => s.skip(i + 1),
        None => Seq::empty(),
    }
}

pub open spec fn is_digit(c: char) -> bool {
    '0' <= c && c <= '9'
}

/// The value of a string of decimal digits.
pub open spec fn digits_value(d: Seq<char>) -> nat
    decreases d.len(),
{
    if d.len() == 0 {
        0
    } else {
        digits_value(d.drop_last()) * 10 + ((d.last() as int) - ('0' as int)) as nat
    }
}

/// The digits of an unsigned number's text: the text without a leading `+`.
pub open spec fn unsigned_digits(s: Seq<char>) -> Seq<char> {
    if s.len() > 0 && s[0] == '+' {
        s.drop_first()
    } else {
        s
    }
}

/// Every character is a decimal digit.
pub open spec fn all_digits(d: Seq<char>) -> bool {
    forall|i: int| 0 <= i < d.len() ==> #[trigger] is_digit(d[i])
}

/// The value that the standard library parses from `s` as an unsigned integer no larger than
/// `max`: an optional `+` followed by at least one decimal digit and nothing else.
pub open spec fn parse_unsigned(s: Seq<char>, max: nat) -> Option<nat> {
    let d = unsigned_digits(s);
    if d.len() > 0 && all_digits(d) && digits_value(d) <= max {
        Some(digits_value(d))
    } else {
        None
    }
}

/// The route named by a path that is already trimmed of slashes and lower-cased: the first
/// segment chooses the route, and the second, where there is one, gives its number.
pub open spec fn spec_route(path: Seq<char>) -> Route {
    let first = first_segment(path);
    let has_second = first_slash(path) is Some;
    let second = first_segment(after_first_slash(path));
    if path.len() == 0 {
        Route::Other
    } else if (first == seq!['b', 'l', 'o', 'b', 's'] || first == seq!['f', 'i', 'l', 'e', 's']) && has_second {
        match parse_unsigned(second, u128::MAX as nat) {
            Some(id) => Route::File(id as u128),
            None => Route::Other,
        }
    } else if first == seq!['l', 'o', 'g', 's'] {
        Route::Logs(if has_second {
            match parse_unsigned(second, u64::MAX as nat) {
                Some(t) => Some(t as u64),
                None => None,
            }
        } else {
            None
        })
    } else if first == seq!['t', 'r', 'a', 'c', 'e'] {
        Route::Traces(if has_second {
            match parse_unsigned(second, u64::MAX as nat) {
                Some(t) => Some(t as u64),
                None => None,
            }
        } else {
            None
        })
    } else if first == seq!['m', 'e', 't', 'r', 'i', 'c', 's'] {
        Route::Metrics
    } else {
        Route::Other
    }
}

/// A character that is not a digit makes the parse fail.
proof fn lemma_parse_non_digit(s: Seq<char>, max: nat, k: int)
    requires
        0 <= k < unsigned_digits(s).len(),
        !is_digit(unsigned_digits(s)[k]),
    ensures
        parse_unsigned(s, max) is None,
{
}

/// A digit string is worth at least as much as any of its prefixes.
proof fn lemma_digits_prefix(d: Seq<char>, k: int)
    requires
        0 <= k <= d.len(),
        forall|i: int| 0 <= i < d.len() ==> #[trigger] is_digit(d[i]),
    ensures
        digits_value(d.take(k)) <= digits_value(d),
    decreases d.len() - k,
{
    if k < d.len() {
        lemma_digits_prefix(d, k + 1);
        assert(d.take(k + 1).drop_last() =~= d.take(k));
        assert(is_digit(d[k]));
        assert(d.take(k + 1).last() == d[k]);
    } else {
        assert(d.take(k) =~= d);
    }
}

/// The characters of `s`.
fn chars_of(s: &str) -> (v: Vec<char>)
    ensures
        v@ == s@,
{
    let n = s.unicode_len();
    let mut v: Vec<char> = Vec::new();
    let mut i: usize = 0;
    while i < n
        invariant
            n == s@.len(),
            i <= n,
            v@ == s@.take(i as int),
        decreases n - i,
    {
        v.push(s.get_char(i));
        i = i + 1;
        assert(v@ =~= s@.take(i as int));
    }
    assert(s@.take(n as int) =~= s@);
    v
}

/// The first slash at or after `from` in `s`, or the end of `s`.
fn next_slash(s: &Vec<char>, from: usize) -> (r: usize)
    requires
        from <= s@.len(),
    ensures
        from <= r <= s@.len(),
        r < s@.len() ==> s@[r as int] == '/',
        forall|j: int| from <= j < r ==> s@[j] != '/',
{
    let mut i = from;
    while i < s.len()
        invariant
            from <= i <= s@.len(),
            forall|j: int| from <= j < i ==> s@[j] != '/',
        decreases s@.len() - i,
    {
        if s[i] == '/' {
            return i;
        }
        i = i + 1;
    }
    i
}

/// Whether the characters of `s` from `start` to `end` are exactly `lit`.
fn segment_is(s: &Vec<char>, start: usize, end: usize, lit: &[char]) -> (b: bool)
    requires
        start <= end <= s@.len(),
    ensures
        b == (s@.subrange(start as int, end as int) == lit@),
{
    if end - start != lit.len() {
        return false;
    }
    let mut i: usize = 0;
    while i < lit.len()
        invariant
            end - start == lit@.len(),
            start <= end <= s@.len(),
            i <= lit@.len(),
            forall|j: int| 0 <= j < i ==> s@[start + j] == lit@[j],
        decreases lit@.len() - i,
    {
        if s[start + i] != lit[i] {
            assert(s@.subrange(start as int, end as int)[i as int] != lit@[i as int]);
            return false;
        }
        i = i + 1;
    }
    assert(s@.subrange(start as int, end as int) =~= lit@);
    true
}

/// Parses the characters of `s` from `start` to `end` as an unsigned decimal number no
/// larger than `max`, as the standard library's `from_str` does for unsigned integers.
fn parse_decimal(s: &Vec<char>, start: usize, end: usize, max: u128) -> (r: Option<u128>)
    requires
        start <= end <= s@.len(),
    ensures
        r == (match parse_unsigned(s@.subrange(start as int, end as int), max as nat) {
            Some(v) => Some(v as u128),
            None => None,
        }),
{
    let ghost t = s@.subrange(start as int, end as int);
    let mut first = start;
    if end > start && s[start] == '+' {
        first = start + 1;
    }
    let ghost d = s@.subrange(first as int, end as int);
    assert(d =~= unsigned_digits(t));
    if first == end {
        return None;
    }
    let mut i = first;
    while i < end
        invariant
            start <= first <= i <= end <= s@.len(),
            d == s@.subrange(first as int, end as int),
            t == s@.subrange(start as int, end as int),
            d == unsigned_digits(t),
            forall|j: int| 0 <= j < i - first ==> #[trigger] is_digit(d[j]),
        decreases end - i,
    {
        let c = s[i];
        if !('0' <= c && c <= '9') {
            assert(d[i - first] == c);
            assert(!is_digit(d[i - first]));
            assert(0 <= i - first < d.len());
            proof { lemma_parse_non_digit(t, max as nat, i - first); }
            return None;
        }
        i = i + 1;
    }
    let mut value: u128 = 0;
    let mut k = first;
    while k < end
        invariant
            start <= first <= k <= end <= s@.len(),
            d == s@.subrange(first as int, end as int),
            t == s@.subrange(start as int, end as int),
            d == unsigned_digits(t),
            forall|j: int| 0 <= j < d.len() ==> #[trigger] is_digit(d[j]),
            value == digits_value(d.take(k - first)),
            value <= max,
        decreases end - k,
    {
        let c = s[k];
        proof {
            assert(d.take(k - first + 1).drop_last() =~= d.take(k - first));
            assert(d.take(k - first + 1).last() == c);
            assert(is_digit(d[k - first]));
            assert(d[k - first] == c);
        }
        let digit = (c as u32 - '0' as u32) as u128;
        assert(digits_value(d.take(k - first + 1)) == value * 10 + digit);
        if digit > max || value > (max - digit) / 10 {
            proof {
                assert(value * 10 + digit > max) by (nonlinear_arith)
                    requires
                        digit > max || value > (max - digit) / 10,
                        digit >= 0,
                        value >= 0,
                ;
                lemma_digits_prefix(d, k - first + 1);
                assert(digits_value(d) > max);
                assert(parse_unsigned(t, max as nat) is None);
            }
            return None;
        }
        proof {
            assert(value * 10 + digit <= max) by (nonlinear_arith)
                requires
                    digit <= max,
                    value <= (max - digit) / 10,
                    value >= 0,
            ;
        }
        value = value * 10 + digit;
        k = k + 1;
    }
    assert(d.take(end - first) =~= d);
    Some(value)
}

/// The route named by `path` once it is trimmed of slashes and lower-cased.
#[verifier::spinoff_prover]
#[verifier::rlimit(40)]
pub fn route_from_normalized(path: &str) -> (r: Route)
    ensures
        r == spec_route(path@),
{
    let s = chars_of(path);
    if s.len() == 0 {
        return Route::Other;
    }
    let n = s.len();
    let e1 = next_slash(&s, 0);
    let has_second = e1 < n;
    let ghost p = s@;
    proof {
        if has_second {
            assert(exists|i: int| 0 <= i < p.len() && p[i] == '/') by {
                assert(p[e1 as int] == '/');
            }
            let c = choose|i: int| 0 <= i < p.len() && p[i] == '/' && forall|j: int| 0 <= j < i ==> p[j] != '/';
            assert(0 <= e1 < p.len() && p[e1 as int] == '/' && forall|j: int| 0 <= j < e1 ==> p[j] != '/');
            assert(c == e1) by {
                if c < e1 {
                    assert(p[c] != '/');
                }
                if e1 < c {
                    assert(p[e1 as int] != '/');
                }
            }
            assert(first_segment(p) =~= p.subrange(0, e1 as int));
        } else {
            assert(first_slash(p) is None);
            assert(first_segment(p) =~= p.subrange(0, e1 as int));
        }
    }
    let start2: usize = if has_second { e1 + 1 } else { n };
    let e2 = next_slash(&s, start2);
    proof {
        let rest = after_first_slash(p);
        if has_second {
            assert(rest =~= p.subrange(start2 as int, n as int));
            if e2 < n {
                assert(exists|i: int| 0 <= i < rest.len() && rest[i] == '/') by {
                    assert(rest[e2 - start2] == '/');
                }
                let c = choose|i: int| 0 <= i < rest.len() && rest[i] == '/' && forall|j: int| 0 <= j < i ==> rest[j] != '/';
                let w = e2 - start2;
                assert(0 <= w < rest.len() && rest[w] == '/' && forall|j: int| 0 <= j < w ==> rest[j] != '/');
                assert(c == w) by {
                    if c < w {
                        assert(rest[c] != '/');
                    }
                    if w < c {
                        assert(rest[w] != '/');
                    }
                }
            } else {
                assert forall|i: int| 0 <= i < rest.len() implies rest[i] != '/' by {
                    assert(rest[i] == p[start2 + i]);
                }
            }
            assert(first_segment(rest) =~= p.subrange(start2 as int, e2 as int));
        }
    }
    let blobs_lit: [char; 5] = ['b', 'l', 'o', 'b', 's'];
    let files_lit: [char; 5] = ['f', 'i', 'l', 'e', 's'];
    let logs_lit: [char; 4] = ['l', 'o', 'g', 's'];
    let trace_lit: [char; 5] = ['t', 'r', 'a', 'c', 'e'];
    let metrics_lit: [char; 7] = ['m', 'e', 't', 'r', 'i', 'c', 's'];
    assert(blobs_lit@ =~= seq!['b', 'l', 'o', 'b', 's']);
    assert(files_lit@ =~= seq!['f', 'i', 'l', 'e', 's']);
    assert(logs_lit@ =~= seq!['l', 'o', 'g', 's']);
    assert(trace_lit@ =~= seq!['t', 'r', 'a', 'c', 'e']);
    assert(metrics_lit@ =~= seq!['m', 'e', 't', 'r', 'i', 'c', 's']);
    if (segment_is(&s, 0, e1, blobs_lit.as_slice()) || segment_is(&s, 0, e1, files_lit.as_slice())) && has_second {
        match parse_decimal(&s, start2, e2, u128::MAX) {
            Some(file_id) => Route::File(file_id),
            None => Route::Other,
        }
    } else if segment_is(&s, 0, e1, logs_lit.as_slice()) {
        let since = if has_second {
            match parse_decimal(&s, start2, e2, u64::MAX as u128) {
                Some(t) => Some(t as u64),
                None => None,
            }
        } else {
            None
        };
        Route::Logs(since)
    } else if segment_is(&s, 0, e1, trace_lit.as_slice()) {
        let since = if has_second {
            match parse_decimal(&s, start2, e2, u64::MAX as u128) {
                Some(t) => Some(t as u64),
                None => None,
            }
        } else {
            None
        };
        Route::Traces(since)
    } else if segment_is(&s, 0, e1, metrics_lit.as_slice()) {
        Route::Metrics
    } else {
        Route::Other
    }
}

/// The route that an HTTP request path asks for: the path is trimmed of leading and trailing
/// slashes and lower-cased, then read as `spec_route` says.
pub fn extract_route(path: &str) -> (r: Route)
    ensures
        r == spec_route(lowercase(drop_trailing_slashes(drop_leading_slashes(path@)))),
        is_ascii_text(path@) ==> r == ascii_route(path@),
{
    proof {
        if is_ascii_text(path@) {
            lemma_drop_leading_ascii(path@);
            lemma_drop_trailing_ascii(drop_leading_slashes(path@));
        }
    }
    let trimmed = trim_end_slashes(trim_start_slashes(path));
    let lower = to_lowercase(trimmed);
    route_from_normalized(lower.as_str())
}


/// The route of an ASCII path: trimmed of slashes, lower-cased, then read as `spec_route` says.
pub open spec fn ascii_route(path: Seq<char>) -> Route {
    spec_route(ascii_lowercase(drop_trailing_slashes(drop_leading_slashes(path))))
}

/// Dropping leading slashes keeps a string ASCII.
proof fn lemma_drop_leading_ascii(s: Seq<char>)
    requires
        is_ascii_text(s),
    ensures
        is_ascii_text(drop_leading_slashes(s)),
    decreases s.len(),
{
    if s.len() > 0 && s[0] == '/' {
        assert forall|i: int| 0 <= i < s.drop_first().len() implies (#[trigger] s.drop_first()[i] as u32) < 128 by {
            assert(s.drop_first()[i] == s[i + 1]);
        }
        lemma_drop_leading_ascii(s.drop_first());
    }
}

/// Dropping trailing slashes keeps a string ASCII.
proof fn lemma_drop_trailing_ascii(s: Seq<char>)
    requires
        is_ascii_text(s),
    ensures
        is_ascii_text(drop_trailing_slashes(s)),
    decreases s.len(),
{
    if s.len() > 0 && s.last() == '/' {
        assert forall|i: int| 0 <= i < s.drop_last().len() implies (#[trigger] s.drop_last()[i] as u32) < 128 by {
            assert(s.drop_last()[i] == s[i]);
        }
        lemma_drop_trailing_ascii(s.drop_last());
    }
}

/// Leading slashes in front of a string are trimmed with its own.
proof fn lemma_drop_leading_prefix(k: nat, q: Seq<char>)
    ensures
        drop_leading_slashes(slashes(k) + q) == drop_leading_slashes(q),
    decreases k,
{
    if k == 0 {
        assert(slashes(k) + q =~= q);
    } else {
        let s = slashes(k) + q;
        assert(s[0] == '/');
        assert(s.drop_first() =~= slashes((k - 1) as nat) + q);
        lemma_drop_leading_prefix((k - 1) as nat, q);
    }
}

/// Trimming leading slashes from a string followed by slashes: all goes when the string
/// itself is all slashes, else the slashes stay behind what is left of it.
proof fn lemma_drop_leading_suffix(q: Seq<char>, m: nat)
    ensures
        drop_leading_slashes(q + slashes(m)) == (if drop_leading_slashes(q).len() == 0 {
            Seq::<char>::empty()
        } else {
            drop_leading_slashes(q) + slashes(m)
        }),
    decreases q.len(),
{
    if q.len() == 0 {
        assert(q + slashes(m) =~= slashes(m) + Seq::<char>::empty());
        lemma_drop_leading_prefix(m, Seq::<char>::empty());
    } else if q[0] == '/' {
        assert((q + slashes(m)).drop_first() =~= q.drop_first() + slashes(m));
        lemma_drop_leading_suffix(q.drop_first(), m);
    } else {
        assert((q + slashes(m))[0] == q[0]);
    }
}

/// Trailing slashes behind a string are trimmed with its own.
proof fn lemma_drop_trailing_suffix(x: Seq<char>, m: nat)
    ensures
        drop_trailing_slashes(x + slashes(m)) == drop_trailing_slashes(x),
    decreases m,
{
    if m == 0 {
        assert(x + slashes(m) =~= x);
    } else {
        let s = x + slashes(m);
        assert(s.last() == '/');
        assert(s.drop_last() =~= x + slashes((m - 1) as nat));
        lemma_drop_trailing_suffix(x, (m - 1) as nat);
    }
}

/// Upper-casing neither makes nor unmakes a slash.
proof fn lemma_upper_slash(c: char)
    ensures
        (ascii_upper(c) == '/') == (c == '/'),
        (c as u32) < 128 ==> (ascii_upper(c) as u32) < 128,
        ascii_lower(ascii_upper(c)) == ascii_lower(c),
{
}

/// Trimming commutes with upper-casing.
proof fn lemma_trim_upper(q: Seq<char>)
    ensures
        drop_leading_slashes(ascii_uppercase(q)) == ascii_uppercase(drop_leading_slashes(q)),
        drop_trailing_slashes(ascii_uppercase(q)) == ascii_uppercase(drop_trailing_slashes(q)),
    decreases q.len(),
{
    let u = ascii_uppercase(q);
    if q.len() > 0 {
        lemma_upper_slash(q[0]);
        lemma_upper_slash(q.last());
        assert(u[0] == ascii_upper(q[0]));
        assert(u.last() == ascii_upper(q.last()));
        assert(u.drop_first() =~= ascii_uppercase(q.drop_first()));
        assert(u.drop_last() =~= ascii_uppercase(q.drop_last()));
        lemma_trim_upper(q.drop_first());
        lemma_trim_upper(q.drop_last());
    } else {
        assert(u =~= q);
    }
}

/// Reading an ASCII path ignores the slashes around it and the case of its letters; an ASCII
/// path stays ASCII with slashes around it or upper-cased.
pub proof fn lemma_route_ignores_case_and_slashes(p: Seq<char>, k: nat, m: nat)
    ensures
        ascii_route(slashes(k) + p + slashes(m)) == ascii_route(p),
        ascii_route(ascii_uppercase(p)) == ascii_route(p),
        is_ascii_text(p) ==> is_ascii_text(slashes(k) + p + slashes(m)),
        is_ascii_text(p) ==> is_ascii_text(ascii_uppercase(p)),
{
    let q = slashes(k) + p;
    lemma_drop_leading_prefix(k, p);
    lemma_drop_leading_suffix(q, m);
    let t = drop_leading_slashes(p);
    if t.len() > 0 {
        lemma_drop_trailing_suffix(t, m);
    } else {
        assert(drop_trailing_slashes(t) =~= t);
    }
    lemma_trim_upper(p);
    lemma_trim_upper(t);
    let x = drop_trailing_slashes(t);
    assert forall|i: int| 0 <= i < x.len() implies #[trigger] ascii_lowercase(ascii_uppercase(x))[i] == ascii_lowercase(x)[i] by {
        lemma_upper_slash(x[i]);
    }
    assert(ascii_lowercase(ascii_uppercase(x)) =~= ascii_lowercase(x));
    if is_ascii_text(p) {
        let w = slashes(k) + p + slashes(m);
        assert forall|i: int| 0 <= i < w.len() implies (#[trigger] w[i] as u32) < 128 by {
            if i >= k && i < k + p.len() {
                assert(w[i] == p[i - k]);
            }
        }
        assert forall|i: int| 0 <= i < p.len() implies (#[trigger] ascii_uppercase(p)[i] as u32) < 128 by {
            lemma_upper_slash(p[i]);
        }
    }
}

/// The decimal digit for `d`, below ten.
pub open spec fn digit_char(d: nat) -> char {
    ((d + 48) as u32) as char
}

/// The decimal text of `n`, without leading zeros.
pub open spec fn decimal(n: nat) -> Seq<char>
    decreases n,
{
    if n < 10 {
        seq![digit_char(n)]
    } else {
        decimal(n / 10).push(digit_char(n % 10))
    }
}

/// The decimal text of a number is a non-empty string of digits worth that number.
proof fn lemma_decimal(n: nat)
    ensures
        decimal(n).len() > 0,
        all_digits(decimal(n)),
        digits_value(decimal(n)) == n,
    decreases n,
{
    if n < 10 {
        let d = decimal(n);
        assert(d.drop_last() =~= Seq::<char>::empty());
        assert((digit_char(n) as int) == n + 48);
        assert(d.last() == digit_char(n));
        assert(('0' as int) == 48);
        assert(digits_value(d) == digits_value(d.drop_last()) * 10 + ((d.last() as int) - ('0' as int)) as nat);
    } else {
        lemma_decimal(n / 10);
        let d = decimal(n);
        assert(d.drop_last() =~= decimal(n / 10));
        assert((digit_char(n % 10) as int) == n % 10 + 48);
        assert(d.last() == digit_char(n % 10));
        assert(('0' as int) == 48);
        assert(digits_value(d) == digits_value(d.drop_last()) * 10 + ((d.last() as int) - ('0' as int)) as nat);
        assert(n == (n / 10) * 10 + n % 10) by (nonlinear_arith);
        assert forall|i: int| 0 <= i < d.len() implies #[trigger] is_digit(d[i]) by {
            if i < d.len() - 1 {
                assert(d[i] == decimal(n / 10)[i]);
            }
        }
    }
}

/// A path made of a first segment with no slash, a slash, and a second segment of digits:
/// the first segment and the second are read apart.
proof fn lemma_two_segments(first: Seq<char>, second: Seq<char>)
    requires
        first.len() > 0,
        forall|i: int| 0 <= i < first.len() ==> first[i] != '/',
        all_digits(second),
    ensures
        first_slash(first.push('/') + second) == Some(first.len() as int),
        first_segment(first.push('/') + second) == first,
        after_first_slash(first.push('/') + second) == second,
        first_segment(second) == second,
{
    let p = first.push('/') + second;
    let k = first.len() as int;
    assert(p[k] == '/');
    assert(forall|j: int| 0 <= j < k ==> p[j] == first[j]);
    let c = choose|i: int| 0 <= i < p.len() && p[i] == '/' && forall|j: int| 0 <= j < i ==> p[j] != '/';
    assert(0 <= k < p.len() && p[k] == '/' && forall|j: int| 0 <= j < k ==> p[j] != '/');
    if c < k {
        assert(p[c] == first[c]);
    }
    if c > k {
        assert(p[k] != '/');
    }
    assert(p.take(k) =~= first);
    assert(p.skip(k + 1) =~= second);
    assert forall|i: int| 0 <= i < second.len() implies second[i] != '/' by {
        assert(is_digit(second[i]));
    }
}

/// A route followed by the decimal text of a number, read as a number no larger than `max`.
proof fn lemma_parse_decimal(n: nat, max: nat)
    requires
        n <= max,
    ensures
        parse_unsigned(decimal(n), max) == Some(n),
{
    lemma_decimal(n);
    let d = decimal(n);
    assert(is_digit(d[0]));
    assert(unsigned_digits(d) == d);
}

/// A path with a number as its second segment routes to what its first segment names, with
/// that number: traces or logs since a timestamp, for every timestamp, and a file, for every
/// file id.
pub proof fn lemma_route_with_number(t: u64, id: u128)
    ensures
        spec_route(seq!['t', 'r', 'a', 'c', 'e'].push('/') + decimal(t as nat)) == Route::Traces(Some(t)),
        spec_route(seq!['l', 'o', 'g', 's'].push('/') + decimal(t as nat)) == Route::Logs(Some(t)),
        spec_route(seq!['f', 'i', 'l', 'e', 's'].push('/') + decimal(id as nat)) == Route::File(id),
        spec_route(seq!['b', 'l', 'o', 'b', 's'].push('/') + decimal(id as nat)) == Route::File(id),
{
    lemma_route_trace(t);
    lemma_route_logs(t);
    lemma_route_file(id);
    lemma_route_blob(id);
}

/// The parts of a path made of a named first segment and a number.
proof fn lemma_number_path(first: Seq<char>, n: nat, max: nat)
    requires
        first.len() > 0,
        forall|i: int| 0 <= i < first.len() ==> first[i] != '/',
        n <= max,
    ensures
        first_slash(first.push('/') + decimal(n)) is Some,
        first_segment(first.push('/') + decimal(n)) == first,
        (first.push('/') + decimal(n)).len() > 0,
        parse_unsigned(first_segment(after_first_slash(first.push('/') + decimal(n))), max) == Some(n),
{
    lemma_decimal(n);
    lemma_two_segments(first, decimal(n));
    lemma_parse_decimal(n, max);
}

#[verifier::spinoff_prover]
#[verifier::rlimit(100)]
proof fn lemma_route_trace(t: u64)
    ensures
        spec_route(seq!['t', 'r', 'a', 'c', 'e'].push('/') + decimal(t as nat)) == Route::Traces(Some(t)),
{
    let trace = seq!['t', 'r', 'a', 'c', 'e'];
    lemma_number_path(trace, t as nat, u64::MAX as nat);
    assert(trace != seq!['b', 'l', 'o', 'b', 's']) by {
        assert(trace[0] != 'b');
    }
    assert(trace != seq!['f', 'i', 'l', 'e', 's']) by {
        assert(trace[0] != 'f');
    }
    assert(trace != seq!['l', 'o', 'g', 's']) by {
        assert(trace.len() != 4);
    }
}

#[verifier::spinoff_prover]
#[verifier::rlimit(100)]
proof fn lemma_route_logs(t: u64)
    ensures
        spec_route(seq!['l', 'o', 'g', 's'].push('/') + decimal(t as nat)) == Route::Logs(Some(t)),
{
    let logs = seq!['l', 'o', 'g', 's'];
    lemma_number_path(logs, t as nat, u64::MAX as nat);
    assert(logs != seq!['b', 'l', 'o', 'b', 's']) by {
        assert(logs.len() != 5);
    }
    assert(logs != seq!['f', 'i', 'l', 'e', 's']) by {
        assert(logs.len() != 5);
    }
}

#[verifier::spinoff_prover]
#[verifier::rlimit(100)]
proof fn lemma_route_file(id: u128)
    ensures
        spec_route(seq!['f', 'i', 'l', 'e', 's'].push('/') + decimal(id as nat)) == Route::File(id),
{
    lemma_number_path(seq!['f', 'i', 'l', 'e', 's'], id as nat, u128::MAX as nat);
}

#[verifier::spinoff_prover]
#[verifier::rlimit(100)]
proof fn lemma_route_blob(id: u128)
    ensures
        spec_route(seq!['b', 'l', 'o', 'b', 's'].push('/') + decimal(id as nat)) == Route::File(id),
{
    lemma_number_path(seq!['b', 'l', 'o', 'b', 's'], id as nat, u128::MAX as nat);
}

} // verus!
