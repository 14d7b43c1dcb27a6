//! Character-level text handling: trimming, searching, splitting and number parsing,
//! all stated over the `Seq<char>` view of strings.
use vstd::prelude::*;
use vstd::string::StringExecFns;

verus! {

// ---------------------------------------------------------------------------
// Unicode character classes of std, which take the Unicode tables to state.
// ---------------------------------------------------------------------------

/// Whether the non-ASCII character `c` has the Unicode `White_Space` property.
pub uninterp spec fn unicode_white_space(c: char) -> bool;

/// Whether the non-ASCII character `c` is alphabetic or numeric in Unicode.
pub uninterp spec fn unicode_alphanumeric(c: char) -> bool;

/// Whether `c` is white space (what `char::is_whitespace` answers): among ASCII characters,
/// the space and `\t`, `\n`, `\x0B`, `\x0C`, `\r`; beyond ASCII, the `White_Space` property.
pub open spec fn white_space(c: char) -> bool {
    if c <= '\u{7f}' {
        c == ' ' || ('\t' <= c && c <= '\r')
    } else {
        unicode_white_space(c)
    }
}

/// Whether `c` is alphabetic or numeric (what `char::is_alphanumeric` answers): among ASCII
/// characters, the letters and digits; beyond ASCII, as the Unicode tables say.
pub open spec fn alphanumeric(c: char) -> bool {
    if c <= '\u{7f}' {
        ('a' <= c && c <= 'z') || ('A' <= c && c <= 'Z') || ('0' <= c && c <= '9')
    } else {
        unicode_alphanumeric(c)
    }
}

/// The Unicode lower-case mapping of a string (what `str::to_lowercase` returns).
pub uninterp spec fn unicode_lowercase(s: Seq<char>) -> Seq<char>;

/// Calls `char::is_whitespace`, which answers the space and `\t`..=`\r` among ASCII
/// characters and the `White_Space` property beyond.
#[verifier::external_body]
pub(crate) fn is_whitespace(c: char) -> (r: bool)
    ensures
        r == white_space(c),
        c > '\u{7f}' ==> r == unicode_white_space(c),
{
    c.is_whitespace()
}

/// Calls `char::is_alphanumeric`, which answers the ASCII letters and digits among ASCII
/// characters and the Unicode `Alphabetic` or numeric characters beyond.
#[verifier::external_body]
pub(crate) fn is_alphanumeric(c: char) -> (r: bool)
    ensures
        r == alphanumeric(c),
        c > '\u{7f}' ==> r == unicode_alphanumeric(c),
{
    c.is_alphanumeric()
}

/// Calls `str::to_lowercase`: the result is the lower-case mapping of `s`.
#[verifier::external_body]
pub(crate) fn to_lowercase(s: &str) -> (r: String)
    ensures
        r@ == unicode_lowercase(s@),
{
    s.to_lowercase()
}

/// Calls `String::push`: appends `c` to the end of `s`.
#[verifier::external_body]
pub(crate) fn push_char(s: &mut String, c: char)
    ensures
        final(s)@ == old(s)@.push(c),
{
    s.push(c)
}

// ---------------------------------------------------------------------------
// Conversions between strings and character vectors.
// ---------------------------------------------------------------------------

/// The characters of `s`, in order.
pub fn chars_of(s: &str) -> (v: Vec<char>)
    ensures
        v@ == s@,
{
    let mut v: Vec<char> = Vec::new();
    for c in it: s.chars()
        invariant
            v@ == it.seq().take(it.index() as int),
            it.seq() == s@,
    {
        v.push(c);
    }
    v
}

/// A new string holding the characters `cs[lo..hi]`.
pub fn string_from(cs: &Vec<char>, lo: usize, hi: usize) -> (r: String)
    requires
        lo <= hi <= cs.len(),
    ensures
        r@ == cs@.subrange(lo as int, hi as int),
{
    let mut r = String::new();
    let mut i = lo;
    while i < hi
        invariant
            lo <= i <= hi <= cs.len(),
            r@ == cs@.subrange(lo as int, i as int),
        decreases hi - i,
    {
        push_char(&mut r, cs[i]);
        i = i + 1;
        assert(r@ =~= cs@.subrange(lo as int, i as int));
    }
    r
}

/// A new string that is `a` followed by `b`.
pub fn concat(a: &str, b: &str) -> (r: String)
    ensures
        r@ == a@ + b@,
{
    let mut r = String::from_str(a);
    r.append(b);
    r
}

// ---------------------------------------------------------------------------
// ASCII digits.
// ---------------------------------------------------------------------------

pub open spec fn is_ascii_digit(c: char) -> bool {
    '0' <= c && c <= '9'
}

pub fn char_is_ascii_digit(c: char) -> (r: bool)
    ensures
        r == is_ascii_digit(c),
{
    '0' <= c && c <= '9'
}

pub open spec fn all_digits(s: Seq<char>) -> bool {
    forall|i: int| 0 <= i < s.len() ==> is_ascii_digit(#[trigger] s[i])
}

/// The decimal value of a string of digits.
pub open spec fn digits_value(s: Seq<char>) -> int
    decreases s.len(),
{
    if s.len() == 0 {
        0
    } else {
        digits_value(s.drop_last()) * 10 + (s.last() as int - '0' as int)
    }
}

/// The ASCII digits of `s`, in order, all others dropped.
pub open spec fn only_digits(s: Seq<char>) -> Seq<char>
    decreases s.len(),
{
    if s.len() == 0 {
        s
    } else if is_ascii_digit(s.last()) {
        only_digits(s.drop_last()).push(s.last())
    } else {
        only_digits(s.drop_last())
    }
}

proof fn lemma_digits_value_nonneg(s: Seq<char>)
    requires
        all_digits(s),
    ensures
        digits_value(s) >= 0,
    decreases s.len(),
{
    if s.len() > 0 {
        lemma_digits_value_nonneg(s.drop_last());
    }
}

/// The characters of `cs` that are ASCII digits.
pub fn keep_digits(cs: &Vec<char>) -> (r: Vec<char>)
    ensures
        r@ == only_digits(cs@),
{
    let mut r: Vec<char> = Vec::new();
    let mut i: usize = 0;
    while i < cs.len()
        invariant
            i <= cs.len(),
            r@ == only_digits(cs@.take(i as int)),
        decreases cs.len() - i,
    {
        assert(cs@.take(i + 1).drop_last() =~= cs@.take(i as int));
        if char_is_ascii_digit(cs[i]) {
            r.push(cs[i]);
        }
        i = i + 1;
    }
    assert(cs@.take(cs.len() as int) =~= cs@);
    r
}

// ---------------------------------------------------------------------------
// Trimming.
// ---------------------------------------------------------------------------

/// `s` without its leading white space.
pub open spec fn trim_start(s: Seq<char>) -> Seq<char>
    decreases s.len(),
{
    if s.len() > 0 && white_space(s[0]) {
        trim_start(s.drop_first())
    } else {
        s
    }
}

/// `s` without its trailing white space.
pub open spec fn trim_end(s: Seq<char>) -> Seq<char>
    decreases s.len(),
{
    if s.len() > 0 && white_space(s.last()) {
        trim_end(s.drop_last())
    } else {
        s
    }
}

/// `s` without leading and trailing white space (what `str::trim` returns).
pub open spec fn trimmed(s: Seq<char>) -> Seq<char> {
    trim_end(trim_start(s))
}

proof fn lemma_trim_start_at(s: Seq<char>, k: int)
    requires
        0 <= k <= s.len(),
        forall|i: int| 0 <= i < k ==> white_space(#[trigger] s[i]),
        k < s.len() ==> !white_space(s[k]),
    ensures
        trim_start(s) == s.subrange(k, s.len() as int),
    decreases k,
{
    if k == 0 {
        assert(s.subrange(0, s.len() as int) =~= s);
    } else {
        let t = s.drop_first();
        assert forall|i: int| 0 <= i < k - 1 implies white_space(#[trigger] t[i]) by {
            assert(t[i] == s[i + 1]);
        }
        lemma_trim_start_at(t, k - 1);
        assert(t.subrange(k - 1, t.len() as int) =~= s.subrange(k, s.len() as int));
    }
}

proof fn lemma_trim_end_at(s: Seq<char>, k: int)
    requires
        0 <= k <= s.len(),
        forall|i: int| k <= i < s.len() ==> white_space(#[trigger] s[i]),
        k > 0 ==> !white_space(s[k - 1]),
    ensures
        trim_end(s) == s.subrange(0, k),
    decreases s.len() - k,
{
    if k == s.len() {
        assert(s.subrange(0, k) =~= s);
    } else {
        let t = s.drop_last();
        lemma_trim_end_at(t, k);
        assert(t.subrange(0, k) =~= s.subrange(0, k));
    }
}

/// The bounds `lo..hi` of `cs` that remain after trimming white space at both ends.
pub fn trim_bounds(cs: &Vec<char>) -> (b: (usize, usize))
    ensures
        b.0 <= b.1 <= cs.len(),
        cs@.subrange(b.0 as int, b.1 as int) == trimmed(cs@),
{
    let mut lo: usize = 0;
    while lo < cs.len() && is_whitespace(cs[lo])
        invariant
            lo <= cs.len(),
            forall|i: int| 0 <= i < lo ==> white_space(#[trigger] cs@[i]),
        decreases cs.len() - lo,
    {
        lo = lo + 1;
    }
    proof {
        lemma_trim_start_at(cs@, lo as int);
    }
    let mut hi: usize = cs.len();
    while hi > lo && is_whitespace(cs[hi - 1])
        invariant
            lo <= hi <= cs.len(),
            forall|i: int| hi <= i < cs.len() ==> white_space(#[trigger] cs@[i]),
        decreases hi,
    {
        hi = hi - 1;
    }
    proof {
        let t = cs@.subrange(lo as int, cs.len() as int);
        assert forall|i: int| hi - lo <= i < t.len() implies white_space(#[trigger] t[i]) by {
            assert(t[i] == cs@[i + lo]);
        }
        if hi - lo > 0 {
            assert(t[hi - lo - 1] == cs@[hi - 1]);
        }
        lemma_trim_end_at(t, hi - lo);
        assert(t.subrange(0, hi - lo) =~= cs@.subrange(lo as int, hi as int));
    }
    (lo, hi)
}

/// `s` with leading and trailing white space removed.
pub fn trim(s: &str) -> (r: String)
    ensures
        r@ == trimmed(s@),
{
    let cs = chars_of(s);
    let (lo, hi) = trim_bounds(&cs);
    string_from(&cs, lo, hi)
}

/// `s` without all copies of `c` at its end (what `str::trim_end_matches(c)` returns).
pub open spec fn trim_end_char(s: Seq<char>, c: char) -> Seq<char>
    decreases s.len(),
{
    if s.len() > 0 && s.last() == c {
        trim_end_char(s.drop_last(), c)
    } else {
        s
    }
}

/// The length of `cs` once every trailing `c` is removed.
pub fn trim_end_char_len(cs: &Vec<char>, c: char) -> (n: usize)
    ensures
        n <= cs.len(),
        cs@.take(n as int) == trim_end_char(cs@, c),
{
    let mut n = cs.len();
    assert(cs@.take(n as int) =~= cs@);
    while n > 0 && cs[n - 1] == c
        invariant
            n <= cs.len(),
            trim_end_char(cs@, c) == trim_end_char(cs@.take(n as int), c),
        decreases n,
    {
        assert(cs@.take(n as int).drop_last() =~= cs@.take(n - 1));
        n = n - 1;
    }
    n
}

/// `s` without all copies of the non-empty pattern `p` at its end
/// (what `str::trim_end_matches(p)` returns).
pub open spec fn trim_end_pattern(s: Seq<char>, p: Seq<char>) -> Seq<char>
    decreases s.len(),
{
    if p.len() > 0 && p.is_suffix_of(s) {
        trim_end_pattern(s.subrange(0, s.len() - p.len()), p)
    } else {
        s
    }
}

/// Whether `p` is the last part of `cs[..n]`.
fn ends_with_at(cs: &Vec<char>, n: usize, p: &Vec<char>) -> (r: bool)
    requires
        n <= cs.len(),
    ensures
        r == p@.is_suffix_of(cs@.take(n as int)),
{
    if p.len() > n {
        return false;
    }
    let base = n - p.len();
    let mut j: usize = 0;
    while j < p.len()
        invariant
            p.len() <= n <= cs.len(),
            base == n - p.len(),
            j <= p.len(),
            forall|i: int| 0 <= i < j ==> cs@[base + i] == p@[i],
        decreases p.len() - j,
    {
        if cs[base + j] != p[j] {
            assert(cs@.take(n as int).subrange(base as int, n as int)[j as int] == cs@[base + j]);
            return false;
        }
        j = j + 1;
    }
    assert(p@ =~= cs@.take(n as int).subrange(base as int, n as int));
    true
}

/// The length of `cs` once every trailing copy of the non-empty `p` is removed.
pub fn trim_end_pattern_len(cs: &Vec<char>, p: &Vec<char>) -> (n: usize)
    requires
        p.len() > 0,
    ensures
        n <= cs.len(),
        cs@.take(n as int) == trim_end_pattern(cs@, p@),
{
    let mut n = cs.len();
    assert(cs@.take(n as int) =~= cs@);
    while ends_with_at(cs, n, p)
        invariant
            n <= cs.len(),
            p.len() > 0,
            trim_end_pattern(cs@, p@) == trim_end_pattern(cs@.take(n as int), p@),
        decreases n,
    {
        assert(cs@.take(n as int).subrange(0, n - p.len()) =~= cs@.take(n - p.len()));
        n = n - p.len();
    }
    n
}

// ---------------------------------------------------------------------------
// Searching.
// ---------------------------------------------------------------------------

/// Whether `p` occurs in `s` starting at position `i`.
pub open spec fn occurs_at(s: Seq<char>, p: Seq<char>, i: int) -> bool {
    0 <= i && i + p.len() <= s.len() && s.subrange(i, i + p.len()) == p
}

/// The first position at or after `start` where `p` occurs in `s`.
pub open spec fn find_from_spec(s: Seq<char>, p: Seq<char>, start: int) -> Option<int>
    decreases s.len() + 1 - start,
{
    if start < 0 || start + p.len() > s.len() {
        None
    } else if occurs_at(s, p, start) {
        Some(start)
    } else {
        find_from_spec(s, p, start + 1)
    }
}

/// The first position where `p` occurs in `s` (what `str::find` gives, counted in characters).
pub open spec fn find_spec(s: Seq<char>, p: Seq<char>) -> Option<int> {
    find_from_spec(s, p, 0)
}

/// Whether `p` occurs somewhere in `s` (what `str::contains` answers).
pub open spec fn contains_spec(s: Seq<char>, p: Seq<char>) -> bool {
    find_spec(s, p) is Some
}

fn occurs_at_exec(cs: &Vec<char>, p: &Vec<char>, i: usize) -> (r: bool)
    requires
        i + p.len() <= cs.len(),
    ensures
        r == occurs_at(cs@, p@, i as int),
{
    let mut j: usize = 0;
    while j < p.len()
        invariant
            i + p.len() <= cs.len(),
            j <= p.len(),
            forall|k: int| 0 <= k < j ==> cs@[i + k] == p@[k],
        decreases p.len() - j,
    {
        if cs[i + j] != p[j] {
            assert(cs@.subrange(i as int, i + p.len())[j as int] == cs@[i + j]);
            return false;
        }
        j = j + 1;
    }
    assert(cs@.subrange(i as int, i + p.len()) =~= p@);
    true
}

/// The first position at or after `start` where `p` occurs in `cs`.
pub fn find_from(cs: &Vec<char>, p: &Vec<char>, start: usize) -> (r: Option<usize>)
    ensures
        match r {
            Some(i) => find_from_spec(cs@, p@, start as int) == Some(i as int),
            None => find_from_spec(cs@, p@, start as int) is None,
        },
        r matches Some(i) ==> start <= i && occurs_at(cs@, p@, i as int),
{
    if p.len() > cs.len() {
        return None;
    }
    let last = cs.len() - p.len();
    let mut i = start;
    while i <= last
        invariant
            last == cs.len() - p.len(),
            p.len() <= cs.len(),
            start <= i,
            find_from_spec(cs@, p@, start as int) == find_from_spec(cs@, p@, i as int),
        decreases last + 1 - i,
    {
        if occurs_at_exec(cs, p, i) {
            return Some(i);
        }
        if i == last {
            return None;
        }
        i = i + 1;
    }
    None
}

/// Whether `p` occurs in `s`.
pub fn contains(s: &str, p: &str) -> (r: bool)
    ensures
        r == contains_spec(s@, p@),
{
    let cs = chars_of(s);
    let ps = chars_of(p);
    find_from(&cs, &ps, 0).is_some()
}

/// Whether `s` begins with `p`.
pub fn starts_with(s: &Vec<char>, p: &str) -> (r: bool)
    ensures
        r == p@.is_prefix_of(s@),
{
    let ps = chars_of(p);
    if ps.len() > s.len() {
        return false;
    }
    let r = occurs_at_exec(s, &ps, 0);
    r
}

pub open spec fn shift_found(o: Option<int>, d: int) -> Option<int> {
    match o {
        Some(x) => Some(x + d),
        None => None,
    }
}

pub proof fn lemma_find_from_skip(s: Seq<char>, p: Seq<char>, start: int, i: int)
    requires
        0 <= start <= i <= s.len(),
    ensures
        find_from_spec(s, p, i) == shift_found(find_from_spec(s.skip(start), p, i - start), start),
    decreases s.len() + 1 - i,
{
    let t = s.skip(start);
    if i + p.len() <= s.len() {
        assert(t.subrange(i - start, i - start + p.len()) =~= s.subrange(i, i + p.len()));
        if p.len() == 0 {
            assert(s.subrange(i, i) =~= p);
        }
        if !occurs_at(s, p, i) {
            lemma_find_from_skip(s, p, start, i + 1);
        }
    }
}

/// The text between the first `marker` in `s` and the next `"` after it, if both occur.
pub open spec fn quoted_after_spec(s: Seq<char>, marker: Seq<char>) -> Option<Seq<char>> {
    match find_spec(s, marker) {
        None => None,
        Some(i) => {
            let rest = s.skip(i + marker.len());
            match find_spec(rest, "\""@) {
                None => None,
                Some(j) => Some(rest.take(j)),
            }
        },
    }
}

/// The text between the first `marker` in `s` and the next `"` after it, if both occur.
pub fn quoted_after(s: &str, marker: &str) -> (r: Option<String>)
    ensures
        opt_seq(r) == quoted_after_spec(s@, marker@),
{
    let cs = chars_of(s);
    let ms = chars_of(marker);
    let qs = chars_of("\"");
    match find_from(&cs, &ms, 0) {
        None => None,
        Some(i) => {
            assert(occurs_at(cs@, ms@, i as int));
            assert(i + ms@.len() <= cs@.len());
            assert(cs@.len() == cs.len() && ms@.len() == ms.len());
            let from = i + ms.len();
            proof {
                lemma_find_from_skip(cs@, qs@, from as int, from as int);
            }
            match find_from(&cs, &qs, from) {
                None => None,
                Some(j) => {
                    assert(cs@.skip(from as int).take(j - from) =~= cs@.subrange(
                        from as int,
                        j as int,
                    ));
                    Some(string_from(&cs, from, j))
                },
            }
        },
    }
}

pub open spec fn opt_seq(o: Option<String>) -> Option<Seq<char>> {
    match o {
        Some(s) => Some(s@),
        None => None,
    }
}

// ---------------------------------------------------------------------------
// Splitting on a separator character.
// ---------------------------------------------------------------------------

/// The part of `s` after its last `c`, or all of `s` when it holds no `c`
/// (the last item of `str::split(c)`).
pub open spec fn after_last(s: Seq<char>, c: char) -> Seq<char>
    decreases s.len(),
{
    if s.len() == 0 || s.last() == c {
        Seq::empty()
    } else {
        after_last(s.drop_last(), c).push(s.last())
    }
}

/// How many times `c` occurs in `s`; `str::split(c)` yields one item more.
pub open spec fn count_char(s: Seq<char>, c: char) -> nat
    decreases s.len(),
{
    if s.len() == 0 {
        0
    } else {
        count_char(s.drop_last(), c) + if s.last() == c {
            1nat
        } else {
            0nat
        }
    }
}

/// The position in `cs[..end]` just after its last `c` (0 when there is none).
pub fn after_last_start(cs: &Vec<char>, end: usize, c: char) -> (k: usize)
    requires
        end <= cs.len(),
    ensures
        k <= end,
        cs@.subrange(k as int, end as int) == after_last(cs@.take(end as int), c),
        k > 0 ==> cs@[k - 1] == c,
        k == 0 ==> count_char(cs@.take(end as int), c) == 0,
{
    let mut k = end;
    while k > 0 && cs[k - 1] != c
        invariant
            k <= end <= cs.len(),
            after_last(cs@.take(end as int), c) == after_last(cs@.take(k as int), c)
                + cs@.subrange(k as int, end as int),
            count_char(cs@.take(end as int), c) == count_char(cs@.take(k as int), c),
        decreases k,
    {
        assert(cs@.take(k as int).drop_last() =~= cs@.take(k - 1));
        assert(after_last(cs@.take(k - 1), c).push(cs@[k - 1]) + cs@.subrange(
            k as int,
            end as int,
        ) =~= after_last(cs@.take(k - 1), c) + cs@.subrange(k - 1, end as int));
        k = k - 1;
    }
    assert(after_last(cs@.take(k as int), c) =~= Seq::<char>::empty());
    assert(Seq::<char>::empty() + cs@.subrange(k as int, end as int) =~= cs@.subrange(
        k as int,
        end as int,
    ));
    k
}

/// Whether `c` occurs at least twice in `cs[..end]`.
pub fn has_two_of(cs: &Vec<char>, end: usize, c: char) -> (r: bool)
    requires
        end <= cs.len(),
    ensures
        r == (count_char(cs@.take(end as int), c) >= 2),
{
    let mut n: usize = 0;
    let mut i: usize = 0;
    while i < end
        invariant
            i <= end <= cs.len(),
            n == count_char(cs@.take(i as int), c),
            n <= i,
        decreases end - i,
    {
        assert(cs@.take(i + 1).drop_last() =~= cs@.take(i as int));
        if cs[i] == c {
            n = n + 1;
        }
        i = i + 1;
    }
    n >= 2
}

// ---------------------------------------------------------------------------
// Number parsing, as `str::parse` does it.
// ---------------------------------------------------------------------------

/// What `s.parse::<usize>()` gives: an optional `+`, then one or more ASCII digits,
/// whose value fits in `usize`.
pub open spec fn parse_usize_spec(s: Seq<char>) -> Option<int> {
    let d = if s.len() > 0 && s[0] == '+' {
        s.drop_first()
    } else {
        s
    };
    if d.len() > 0 && all_digits(d) && digits_value(d) <= usize::MAX {
        Some(digits_value(d))
    } else {
        None
    }
}

/// What `s.parse::<i32>()` gives: an optional sign, then one or more ASCII digits,
/// whose signed value fits in `i32`.
pub open spec fn parse_i32_spec(s: Seq<char>) -> Option<int> {
    let signed = s.len() > 0 && (s[0] == '+' || s[0] == '-');
    let d = if signed {
        s.drop_first()
    } else {
        s
    };
    let v = if s.len() > 0 && s[0] == '-' {
        -digits_value(d)
    } else {
        digits_value(d)
    };
    if d.len() > 0 && all_digits(d) && i32::MIN <= v <= i32::MAX {
        Some(v)
    } else {
        None
    }
}

/// The value of the digits `cs[from..]`, when they are all digits and the value is at most
/// `bound`.
fn digits_up_to(cs: &Vec<char>, from: usize, bound: u128) -> (r: Option<u128>)
    requires
        from <= cs.len(),
        bound <= u128::MAX / 16,
    ensures
        match r {
            Some(v) => {
                &&& all_digits(cs@.skip(from as int))
                &&& v == digits_value(cs@.skip(from as int))
                &&& v <= bound
            },
            None => !all_digits(cs@.skip(from as int)) || digits_value(cs@.skip(from as int))
                > bound,
        },
{
    let ghost d = cs@.skip(from as int);
    let mut v: u128 = 0;
    let mut i = from;
    let mut too_big = false;
    while i < cs.len()
        invariant
            from <= i <= cs.len(),
            d == cs@.skip(from as int),
            bound <= u128::MAX / 16,
            all_digits(d.take(i - from)),
            !too_big ==> v == digits_value(d.take(i - from)) && v <= bound,
            too_big ==> digits_value(d.take(i - from)) > bound,
        decreases cs.len() - i,
    {
        let c = cs[i];
        if !char_is_ascii_digit(c) {
            assert(d[i - from] == c);
            return None;
        }
        let ghost prev = d.take(i - from);
        assert(d.take(i + 1 - from).drop_last() =~= prev);
        assert(d.take(i + 1 - from).last() == c);
        proof {
            lemma_digits_value_nonneg(prev);
        }
        if !too_big {
            let digit = (c as u32 - '0' as u32) as u128;
            v = v * 10 + digit;
            if v > bound {
                too_big = true;
            }
        }
        i = i + 1;
    }
    assert(d.take(i - from) =~= d);
    if too_big {
        None
    } else {
        Some(v)
    }
}

/// Parses `cs` as `str::parse::<usize>()` does.
pub fn parse_usize(cs: &Vec<char>) -> (r: Option<usize>)
    ensures
        match r {
            Some(v) => parse_usize_spec(cs@) == Some(v as int),
            None => parse_usize_spec(cs@) is None,
        },
{
    let from: usize = if cs.len() > 0 && cs[0] == '+' {
        1
    } else {
        0
    };
    assert(from == 1 ==> cs@.skip(1) =~= cs@.drop_first());
    assert(from == 0 ==> cs@.skip(0) =~= cs@);
    if from == cs.len() {
        return None;
    }
    match digits_up_to(cs, from, usize::MAX as u128) {
        Some(v) => Some(v as usize),
        None => None,
    }
}

/// Parses `cs` as `str::parse::<i32>()` does.
pub fn parse_i32(cs: &Vec<char>) -> (r: Option<i32>)
    ensures
        match r {
            Some(v) => parse_i32_spec(cs@) == Some(v as int),
            None => parse_i32_spec(cs@) is None,
        },
{
    let neg = cs.len() > 0 && cs[0] == '-';
    let from: usize = if cs.len() > 0 && (cs[0] == '+' || cs[0] == '-') {
        1
    } else {
        0
    };
    assert(from == 1 ==> cs@.skip(1) =~= cs@.drop_first());
    assert(from == 0 ==> cs@.skip(0) =~= cs@);
    if from == cs.len() {
        return None;
    }
    let bound: u128 = if neg {
        0x8000_0000
    } else {
        0x7fff_ffff
    };
    match digits_up_to(cs, from, bound) {
        Some(v) => {
            if neg {
                Some((0 - (v as i64)) as i32)
            } else {
                Some(v as i32)
            }
        },
        None => None,
    }
}

// ---------------------------------------------------------------------------
// Ordered insertion into a sequence.
// ---------------------------------------------------------------------------

/// Inserting `x` at `p`, where no later item satisfies `pred` when `x` does, adds `x` at the
/// end of the items that satisfy `pred`, or leaves them as they were.
pub proof fn lemma_filter_insert<A>(s: Seq<A>, p: int, x: A, pred: spec_fn(A) -> bool)
    requires
        0 <= p <= s.len(),
        pred(x) ==> forall|q: int| p <= q < s.len() ==> !pred(#[trigger] s[q]),
    ensures
        s.insert(p, x).filter(pred) == if pred(x) {
            s.filter(pred).push(x)
        } else {
            s.filter(pred)
        },
{
    broadcast use Seq::filter_distributes_over_add, Seq::lemma_filter_push;

    let a = s.take(p);
    let b = s.skip(p);
    assert(s =~= a + b);
    assert(s.insert(p, x) =~= a.push(x) + b);
    if pred(x) {
        assert forall|i: int| 0 <= i < b.len() implies !pred(#[trigger] b[i]) by {
            assert(b[i] == s[p + i]);
        }
        assert(b.all(|y: A| !pred(y)));
        b.lemma_all_neg_filter_empty(pred);
        assert(b.filter(pred) =~= Seq::<A>::empty());
        assert(a.filter(pred).push(x) + Seq::<A>::empty() =~= a.filter(pred).push(x));
        assert(a.filter(pred) + Seq::<A>::empty() =~= a.filter(pred));
    }
}

} // verus!
