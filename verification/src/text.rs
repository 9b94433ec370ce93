//! Character-level text handling shared by the grammars: whitespace and
//! trimming as `str::trim` defines them, ASCII case folding, decimal
//! integers as `str::parse` reads them, and building owned strings.
//!
//! Text is handled as the sequence of its chars; every function here says
//! exactly which sequence it produces.

use vstd::prelude::*;
use vstd::string::StringExecFns;
use vstd::string::StrSliceExecFns;

verus! {

/// `char::is_whitespace`: the Unicode `White_Space` property.
pub open spec fn is_ws(c: char) -> bool {
    let u = c as u32;
    ||| 0x09 <= u <= 0x0D
    ||| u == 0x20
    ||| u == 0x85
    ||| u == 0xA0
    ||| u == 0x1680
    ||| 0x2000 <= u <= 0x200A
    ||| u == 0x2028
    ||| u == 0x2029
    ||| u == 0x202F
    ||| u == 0x205F
    ||| u == 0x3000
}

/// Index of the first non-whitespace char at or after `i`.
pub open spec fn skip_ws(s: Seq<char>, i: int) -> int
    decreases s.len() - i,
{
    if 0 <= i < s.len() && is_ws(s[i]) {
        skip_ws(s, i + 1)
    } else {
        i
    }
}

/// End of the text once trailing whitespace down to `lo` is dropped.
pub open spec fn back_ws(s: Seq<char>, lo: int, j: int) -> int
    decreases j - lo,
{
    if lo < j <= s.len() && is_ws(s[j - 1]) {
        back_ws(s, lo, j - 1)
    } else {
        j
    }
}

/// `str::trim`: leading and trailing whitespace removed.
pub open spec fn trim(s: Seq<char>) -> Seq<char> {
    let lo = skip_ws(s, 0);
    s.subrange(lo, back_ws(s, lo, s.len() as int))
}

/// `char::to_ascii_lowercase`.
pub open spec fn lower_char(c: char) -> char {
    if 'A' <= c <= 'Z' {
        ((c as u32) + 32) as char
    } else {
        c
    }
}

/// `char::to_ascii_uppercase`.
pub open spec fn upper_char(c: char) -> char {
    if 'a' <= c <= 'z' {
        ((c as u32) - 32) as char
    } else {
        c
    }
}

/// `str::to_ascii_lowercase`.
pub open spec fn lower(s: Seq<char>) -> Seq<char> {
    s.map_values(|c: char| lower_char(c))
}

pub open spec fn is_digit(c: char) -> bool {
    '0' <= c <= '9'
}

pub open spec fn digit_value(c: char) -> int {
    (c as u32) - ('0' as u32)
}

pub open spec fn all_digits(s: Seq<char>) -> bool {
    forall|i: int| 0 <= i < s.len() ==> #[trigger] is_digit(s[i])
}

/// The value of a run of decimal digits.
pub open spec fn digits_value(s: Seq<char>) -> int
    decreases s.len(),
{
    if s.len() == 0 {
        0
    } else {
        10 * digits_value(s.drop_last()) + digit_value(s.last())
    }
}

/// `u64::from_str`: an optional `+`, then at least one digit, within range.
pub open spec fn parse_u64_spec(s: Seq<char>) -> Option<u64> {
    let body = if s.len() > 0 && s[0] == '+' { s.drop_first() } else { s };
    if body.len() > 0 && all_digits(body) && digits_value(body) <= u64::MAX {
        Some(digits_value(body) as u64)
    } else {
        None
    }
}

/// `i32::from_str`: an optional sign, then at least one digit, within range.
pub open spec fn parse_i32_spec(s: Seq<char>) -> Option<i32> {
    let neg = s.len() > 0 && s[0] == '-';
    let body = if s.len() > 0 && (s[0] == '-' || s[0] == '+') { s.drop_first() } else { s };
    let v = if neg { -digits_value(body) } else { digits_value(body) };
    if body.len() > 0 && all_digits(body) && i32::MIN <= v <= i32::MAX {
        Some(v as i32)
    } else {
        None
    }
}

/// Index of the first `c` at or after `i`, or the length when there is none.
pub open spec fn find_from(s: Seq<char>, c: char, i: int) -> int
    decreases s.len() - i,
{
    if i >= s.len() {
        s.len() as int
    } else if s[i] == c {
        i
    } else {
        find_from(s, c, i + 1)
    }
}

/// `str::split(c)`: the pieces between occurrences of `c`; always at least
/// one piece.
pub open spec fn split_on(s: Seq<char>, c: char) -> Seq<Seq<char>>
    decreases s.len(),
{
    let i = find_from(s, c, 0);
    if i < s.len() {
        proof {
            lemma_find_from_bounds(s, c, 0);
        }
        seq![s.take(i)] + split_on(s.skip(i + 1), c)
    } else {
        seq![s]
    }
}

pub open spec fn views_of(v: Seq<Vec<char>>) -> Seq<Seq<char>> {
    v.map_values(|p: Vec<char>| p@)
}

/// `char::is_whitespace`.
pub fn is_whitespace(c: char) -> (b: bool)
    ensures
        b == is_ws(c),
{
    let u = c as u32;
    (0x09 <= u && u <= 0x0D) || u == 0x20 || u == 0x85 || u == 0xA0 || u == 0x1680 || (0x2000
        <= u && u <= 0x200A) || u == 0x2028 || u == 0x2029 || u == 0x202F || u == 0x205F || u
        == 0x3000
}

/// `char::to_ascii_lowercase`.
pub fn lower_ascii(c: char) -> (r: char)
    ensures
        r == lower_char(c),
{
    if 'A' <= c && c <= 'Z' {
        let u: u8 = (c as u32 + 32) as u8;
        u as char
    } else {
        c
    }
}

/// `char::to_ascii_uppercase`.
pub fn upper_ascii(c: char) -> (r: char)
    ensures
        r == upper_char(c),
{
    if 'a' <= c && c <= 'z' {
        let u: u8 = (c as u32 - 32) as u8;
        u as char
    } else {
        c
    }
}

/// The chars of a string slice.
pub fn chars_of(s: &str) -> (v: Vec<char>)
    ensures
        v@ == s@,
{
    let n = s.unicode_len();
    let mut v: Vec<char> = Vec::new();
    let mut i: usize = 0;
    while i < n
        invariant
            i <= n,
            n == s@.len(),
            v@ == s@.take(i as int),
        decreases n - i,
    {
        v.push(s.get_char(i));
        i = i + 1;
        assert(v@ =~= s@.take(i as int));
    }
    assert(v@ =~= s@);
    v
}

/// `String::push` (std): appends one char to the string.
#[verifier::external_body]
fn push_char(s: &mut String, c: char)
    ensures
        final(s)@ == old(s)@.push(c),
{
    s.push(c);
}

/// Append the chars to the string.
pub fn append_chars(s: &mut String, v: &Vec<char>)
    ensures
        final(s)@ == old(s)@ + v@,
{
    let mut i: usize = 0;
    while i < v.len()
        invariant
            i <= v@.len(),
            s@ == old(s)@ + v@.take(i as int),
        decreases v@.len() - i,
    {
        push_char(s, v[i]);
        i = i + 1;
        assert(s@ =~= old(s)@ + v@.take(i as int));
    }
    assert(v@.take(i as int) =~= v@);
}

/// An owned string holding exactly these chars.
pub fn string_of(v: &Vec<char>) -> (r: String)
    ensures
        r@ == v@,
{
    let mut r = String::new();
    let mut i: usize = 0;
    while i < v.len()
        invariant
            i <= v@.len(),
            r@ == v@.take(i as int),
        decreases v@.len() - i,
    {
        push_char(&mut r, v[i]);
        i = i + 1;
        assert(r@ =~= v@.take(i as int));
    }
    assert(r@ =~= v@);
    r
}

/// The chars `v[lo..hi]`.
pub fn slice_of(v: &Vec<char>, lo: usize, hi: usize) -> (r: Vec<char>)
    requires
        lo <= hi <= v@.len(),
    ensures
        r@ == v@.subrange(lo as int, hi as int),
{
    let mut r: Vec<char> = Vec::new();
    let mut i: usize = lo;
    while i < hi
        invariant
            lo <= i <= hi <= v@.len(),
            r@ == v@.subrange(lo as int, i as int),
        decreases hi - i,
    {
        r.push(v[i]);
        i = i + 1;
        assert(r@ =~= v@.subrange(lo as int, i as int));
    }
    r
}

/// Where the text starts and ends once surrounding whitespace is dropped.
pub fn trim_bounds(v: &Vec<char>) -> (r: (usize, usize))
    ensures
        r.0 == skip_ws(v@, 0),
        r.1 == back_ws(v@, r.0 as int, v@.len() as int),
        r.0 <= r.1 <= v@.len(),
{
    let mut lo: usize = 0;
    while lo < v.len() && is_whitespace(v[lo])
        invariant
            lo <= v@.len(),
            skip_ws(v@, lo as int) == skip_ws(v@, 0),
        decreases v@.len() - lo,
    {
        lo = lo + 1;
    }
    let mut hi: usize = v.len();
    while hi > lo && is_whitespace(v[hi - 1])
        invariant
            lo <= hi <= v@.len(),
            lo == skip_ws(v@, 0),
            back_ws(v@, lo as int, hi as int) == back_ws(v@, lo as int, v@.len() as int),
        decreases hi,
    {
        hi = hi - 1;
    }
    (lo, hi)
}

/// `str::trim` on a char sequence.
pub fn trimmed(v: &Vec<char>) -> (r: Vec<char>)
    ensures
        r@ == trim(v@),
{
    let (lo, hi) = trim_bounds(v);
    slice_of(v, lo, hi)
}

/// `str::to_ascii_lowercase` on a char sequence.
pub fn lowered(v: &Vec<char>) -> (r: Vec<char>)
    ensures
        r@ == lower(v@),
{
    let mut r: Vec<char> = Vec::new();
    let mut i: usize = 0;
    while i < v.len()
        invariant
            i <= v@.len(),
            r@ == lower(v@.take(i as int)),
        decreases v@.len() - i,
    {
        let c = lower_ascii(v[i]);
        r.push(c);
        i = i + 1;
        assert(r@ =~= lower(v@.take(i as int)));
    }
    assert(v@.take(v@.len() as int) =~= v@);
    r
}

/// Whether the chars spell exactly `lit`.
pub fn eq_lit(v: &Vec<char>, lit: &str) -> (b: bool)
    ensures
        b == (v@ == lit@),
{
    let w = chars_of(lit);
    if v.len() != w.len() {
        return false;
    }
    let mut i: usize = 0;
    while i < v.len()
        invariant
            i <= v@.len(),
            v@.len() == w@.len(),
            w@ == lit@,
            v@.take(i as int) == w@.take(i as int),
        decreases v@.len() - i,
    {
        if v[i] != w[i] {
            return false;
        }
        i = i + 1;
        assert(v@.take(i as int) =~= w@.take(i as int));
    }
    assert(v@ =~= v@.take(i as int));
    assert(w@ =~= w@.take(i as int));
    true
}

proof fn lemma_digits_step(s: Seq<char>, i: int)
    requires
        0 <= i < s.len(),
    ensures
        digits_value(s.take(i + 1)) == 10 * digits_value(s.take(i)) + digit_value(s[i]),
{
    assert(s.take(i + 1).drop_last() =~= s.take(i));
}

/// A longer run of digits is worth at least as much as its prefix.
pub proof fn lemma_digits_prefix(s: Seq<char>, k: int)
    requires
        all_digits(s),
        0 <= k <= s.len(),
    ensures
        0 <= digits_value(s.take(k)) <= digits_value(s),
    decreases s.len(),
{
    if k == s.len() {
        assert(s.take(k) =~= s);
        if s.len() > 0 {
            lemma_digits_prefix(s.drop_last(), s.len() - 1);
            assert(s.drop_last().take(s.len() - 1) =~= s.drop_last());
            assert(is_digit(s[s.len() - 1]));
        }
    } else {
        lemma_digits_prefix(s.drop_last(), k);
        assert(s.drop_last().take(k) =~= s.take(k));
        lemma_digits_prefix(s.drop_last(), s.len() - 1);
        assert(s.drop_last().take(s.len() - 1) =~= s.drop_last());
        assert(is_digit(s[s.len() - 1]));
    }
}

/// Accumulate the digits `v[start..]` while the value stays at most
/// `limit`; `None` when a char is not a digit, the run is empty, or the
/// value passes `limit`.
fn digits_upto(v: &Vec<char>, start: usize, limit: u64) -> (r: Option<u64>)
    requires
        start <= v@.len(),
    ensures
        ({
            let body = v@.subrange(start as int, v@.len() as int);
            match r {
                Some(x) => body.len() > 0 && all_digits(body) && x == digits_value(body) && x <= limit,
                None => !(body.len() > 0 && all_digits(body) && digits_value(body) <= limit),
            }
        }),
{
    let ghost body = v@.subrange(start as int, v@.len() as int);
    if start == v.len() {
        return None;
    }
    let mut acc: u64 = 0;
    let mut i: usize = start;
    while i < v.len()
        invariant
            start <= i <= v@.len(),
            body == v@.subrange(start as int, v@.len() as int),
            all_digits(body.take(i - start)),
            acc == digits_value(body.take(i - start)),
            acc <= limit,
        decreases v@.len() - i,
    {
        let c = v[i];
        if !('0' <= c && c <= '9') {
            proof {
                assert(!is_digit(body[i - start]));
            }
            return None;
        }
        let d: u64 = (c as u32 - '0' as u32) as u64;
        proof {
            lemma_digits_step(body, i - start);
        }
        if d > limit || acc > (limit - d) / 10 {
            proof {
                assert(digits_value(body.take(i - start + 1)) > limit) by (nonlinear_arith)
                    requires
                        digits_value(body.take(i - start + 1)) == 10 * acc + d,
                        acc > (limit - d) / 10 || d > limit,
                        d <= 9,
                ;
                if all_digits(body) {
                    lemma_digits_prefix(body, i - start + 1);
                }
            }
            return None;
        }
        proof {
            assert(10 * acc + d <= limit) by (nonlinear_arith)
                requires
                    acc <= (limit - d) / 10,
                    d <= limit,
            ;
        }
        acc = acc * 10 + d;
        i = i + 1;
        proof {
            assert forall|j: int| 0 <= j < body.take(i - start).len() implies #[trigger] is_digit(
                body.take(i - start)[j],
            ) by {
                if j < i - 1 - start {
                    assert(body.take(i - 1 - start)[j] == body.take(i - start)[j]);
                }
            }
        }
    }
    assert(body.take(i - start) =~= body);
    Some(acc)
}

/// `u64::from_str` on a char sequence.
pub fn parse_u64(v: &Vec<char>) -> (r: Option<u64>)
    ensures
        r == parse_u64_spec(v@),
{
    let start: usize = if v.len() > 0 && v[0] == '+' { 1 } else { 0 };
    let r = digits_upto(v, start, u64::MAX);
    proof {
        let body = if v@.len() > 0 && v@[0] == '+' { v@.drop_first() } else { v@ };
        assert(body =~= v@.subrange(start as int, v@.len() as int));
    }
    r
}

/// `i32::from_str` on a char sequence.
pub fn parse_i32(v: &Vec<char>) -> (r: Option<i32>)
    ensures
        r == parse_i32_spec(v@),
{
    let neg = v.len() > 0 && v[0] == '-';
    let start: usize = if v.len() > 0 && (v[0] == '-' || v[0] == '+') { 1 } else { 0 };
    let ghost body = v@.subrange(start as int, v@.len() as int);
    proof {
        let b2 = if v@.len() > 0 && (v@[0] == '-' || v@[0] == '+') { v@.drop_first() } else { v@ };
        assert(b2 =~= body);
    }
    match digits_upto(v, start, 2147483648) {
        None => None,
        Some(m) => {
            if neg {
                let x: i64 = -(m as i64);
                Some(x as i32)
            } else if m <= 2147483647 {
                Some(m as i32)
            } else {
                None
            }
        },
    }
}

/// Where the search for `c` can land.
pub proof fn lemma_find_from_bounds(s: Seq<char>, c: char, i: int)
    requires
        0 <= i <= s.len(),
    ensures
        i <= find_from(s, c, i) <= s.len(),
        find_from(s, c, i) < s.len() ==> s[find_from(s, c, i)] == c,
        forall|j: int| i <= j < find_from(s, c, i) ==> s[j] != c,
    decreases s.len() - i,
{
    if i < s.len() && s[i] != c {
        lemma_find_from_bounds(s, c, i + 1);
    }
}

/// Index of the first `c` at or after `from` (the length when absent).
pub fn find_char(v: &Vec<char>, c: char, from: usize) -> (r: usize)
    requires
        from <= v@.len(),
    ensures
        r == find_from(v@, c, from as int),
        from <= r <= v@.len(),
{
    let mut i = from;
    while i < v.len() && v[i] != c
        invariant
            from <= i <= v@.len(),
            find_from(v@, c, i as int) == find_from(v@, c, from as int),
        decreases v@.len() - i,
    {
        i = i + 1;
    }
    i
}

proof fn lemma_find_shift(s: Seq<char>, c: char, k: int, i: int)
    requires
        0 <= k <= s.len(),
        0 <= i <= s.len() - k,
    ensures
        find_from(s.skip(k), c, i) == find_from(s, c, k + i) - k,
    decreases s.len() - k - i,
{
    if i < s.len() - k && s.skip(k)[i] != c {
        lemma_find_shift(s, c, k, i + 1);
    }
}

/// `str::split(c)` on a char sequence.
pub fn split_chars(v: &Vec<char>, c: char) -> (r: Vec<Vec<char>>)
    ensures
        views_of(r@) == split_on(v@, c),
{
    let mut r: Vec<Vec<char>> = Vec::new();
    let mut start: usize = 0;
    assert(v@.skip(0) =~= v@);
    assert(views_of(r@) + split_on(v@, c) =~= split_on(v@, c));
    loop
        invariant
            start <= v@.len(),
            views_of(r@) + split_on(v@.skip(start as int), c) == split_on(v@, c),
        decreases v@.len() - start,
    {
        let i = find_char(v, c, start);
        proof {
            lemma_find_shift(v@, c, start as int, 0);
            lemma_find_from_bounds(v@, c, start as int);
        }
        let ghost rest = v@.skip(start as int);
        if i < v.len() {
            let piece = slice_of(v, start, i);
            proof {
                assert(rest.take(i - start) =~= piece@);
                assert(rest.skip(i - start + 1) =~= v@.skip(i + 1));
                assert(views_of(r@.push(piece)) =~= views_of(r@).push(piece@));
                assert(split_on(rest, c) == seq![piece@] + split_on(v@.skip(i + 1), c));
                assert(views_of(r@).push(piece@) + split_on(v@.skip(i + 1), c) =~= views_of(r@) + (seq![piece@] + split_on(v@.skip(i + 1), c)));
            }
            r.push(piece);
            start = i + 1;
        } else {
            let piece = slice_of(v, start, v.len());
            proof {
                assert(rest =~= piece@);
                assert(views_of(r@.push(piece)) =~= views_of(r@).push(piece@));
                assert(split_on(rest, c) == seq![piece@]);
                assert(views_of(r@).push(piece@) =~= views_of(r@) + seq![piece@]);
            }
            r.push(piece);
            return r;
        }
    }
}

/// What `format!("{:?}", s)` gives for a string: the text in double
/// quotes with std's escapes. The escaping rules are std's and are not
/// restated here.
pub uninterp spec fn debug_text(s: Seq<char>) -> Seq<char>;

/// `<str as Debug>::fmt` (std), through `format!`: the string quoted and
/// escaped as std writes it. The contract only names the result.
#[verifier::external_body]
pub(crate) fn debug_quoted(s: &str) -> (r: String)
    ensures
        r@ == debug_text(s@),
{
    format!("{:?}", s)
}

/// How `{:?}` spells a list of strings: each quoted as `debug_text` has it,
/// separated by `, `, in brackets.
pub open spec fn debug_strings(v: Seq<Seq<char>>) -> Seq<char> {
    seq!['['] + joined_debug(v) + seq![']']
}

pub open spec fn joined_debug(v: Seq<Seq<char>>) -> Seq<char>
    decreases v.len(),
{
    if v.len() == 0 {
        Seq::empty()
    } else if v.len() == 1 {
        debug_text(v[0])
    } else {
        joined_debug(v.drop_last()) + ", "@ + debug_text(v.last())
    }
}

/// `{:?}` of a list of strings.
pub fn debug_string_list(v: &Vec<String>) -> (r: String)
    ensures
        r@ == debug_strings(v@.map_values(|s: String| s@)),
{
    let ghost vs = v@.map_values(|s: String| s@);
    let mut r = "[".to_owned();
    let mut i: usize = 0;
    proof {
        reveal_strlit("[");
        reveal_strlit(", ");
    }
    while i < v.len()
        invariant
            i <= v@.len(),
            vs == v@.map_values(|s: String| s@),
            r@ == seq!['['] + joined_debug(vs.take(i as int)),
        decreases v@.len() - i,
    {
        if i > 0 {
            r.append(", ");
        }
        let q = debug_quoted(v[i].as_str());
        r.append(q.as_str());
        proof {
            assert(vs.take(i + 1).drop_last() =~= vs.take(i as int));
            assert(vs.take(i + 1).last() == v@[i as int]@);
            if i == 0 {
                assert(vs.take(1) =~= seq![v@[0]@]);
            }
        }
        i = i + 1;
    }
    r.append("]");
    proof {
        reveal_strlit("]");
        assert(vs.take(i as int) =~= vs);
    }
    r
}

/// Index of the first char at or after `i` that is not an ASCII digit.
pub open spec fn skip_digits(s: Seq<char>, i: int) -> int
    decreases s.len() - i,
{
    if 0 <= i < s.len() && is_digit(s[i]) {
        skip_digits(s, i + 1)
    } else {
        i
    }
}

pub fn first_non_digit(v: &Vec<char>) -> (r: usize)
    ensures
        r == skip_digits(v@, 0),
        r <= v@.len(),
        all_digits(v@.take(r as int)),
{
    let mut i: usize = 0;
    while i < v.len() && '0' <= v[i] && v[i] <= '9'
        invariant
            i <= v@.len(),
            skip_digits(v@, i as int) == skip_digits(v@, 0),
            all_digits(v@.take(i as int)),
        decreases v@.len() - i,
    {
        i = i + 1;
        assert forall|j: int| 0 <= j < i implies #[trigger] is_digit(v@.take(i as int)[j]) by {
            if j < i - 1 {
                assert(v@.take(i - 1)[j] == v@.take(i as int)[j]);
            }
        }
    }
    i
}

/// `t` starts with `q`.
pub open spec fn has_prefix(t: Seq<char>, q: Seq<char>) -> bool {
    q.len() <= t.len() && t.take(q.len() as int) == q
}

/// `q` occurs somewhere in `t` (the empty text occurs everywhere).
pub open spec fn has_infix(t: Seq<char>, q: Seq<char>) -> bool {
    exists|i: int| 0 <= i && i + q.len() <= t.len() && #[trigger] t.subrange(i, i + q.len()) == q
}

/// Whether `t[at..]` starts with `q`.
fn matches_at(t: &Vec<char>, q: &Vec<char>, at: usize) -> (b: bool)
    requires
        at + q@.len() <= t@.len(),
    ensures
        b == (t@.subrange(at as int, at + q@.len()) == q@),
{
    let n = t.len();
    let mut i: usize = 0;
    while i < q.len()
        invariant
            i <= q@.len(),
            at + q@.len() <= t@.len(),
            n == t@.len(),
            t@.subrange(at as int, at + i) == q@.take(i as int),
        decreases q@.len() - i,
    {
        if t[at + i] != q[i] {
            assert(t@.subrange(at as int, at + q@.len())[i as int] != q@[i as int]);
            return false;
        }
        i = i + 1;
        assert(t@.subrange(at as int, at + i) =~= q@.take(i as int));
    }
    assert(q@.take(i as int) =~= q@);
    true
}

/// `str::starts_with` on char sequences.
pub fn starts_with(t: &Vec<char>, q: &Vec<char>) -> (b: bool)
    ensures
        b == has_prefix(t@, q@),
{
    if q.len() > t.len() {
        return false;
    }
    let b = matches_at(t, q, 0);
    assert(t@.subrange(0, q@.len() as int) =~= t@.take(q@.len() as int));
    b
}

/// `str::contains` on char sequences.
pub fn contains(t: &Vec<char>, q: &Vec<char>) -> (b: bool)
    ensures
        b == has_infix(t@, q@),
{
    if q.len() > t.len() {
        return false;
    }
    if q.len() == 0 {
        assert(t@.subrange(0int, 0int + q@.len()) =~= q@);
        return true;
    }
    let n = t.len();
    let last = n - q.len();
    let mut at: usize = 0;
    while at <= last
        invariant
            1 <= q@.len() <= t@.len(),
            n == t@.len(),
            last == t@.len() - q@.len(),
            at <= last + 1,
            forall|i: int| 0 <= i < at ==> #[trigger] t@.subrange(i, i + q@.len()) != q@,
        decreases t@.len() - at,
    {
        if matches_at(t, q, at) {
            return true;
        }
        at = at + 1;
    }
    false
}

/// The Unicode lowercase of a text, as `str::to_lowercase` computes it.
/// The case tables are std's and are not restated here.
pub uninterp spec fn unicode_lower(s: Seq<char>) -> Seq<char>;

/// `str::to_lowercase` (std): the full Unicode lowercase mapping. The
/// contract names the result; it depends on the text alone.
#[verifier::external_body]
pub(crate) fn to_lowercase(s: &str) -> (r: String)
    ensures
        r@ == unicode_lower(s@),
{
    s.to_lowercase()
}

/// Whether two char sequences are equal.
pub fn same_chars(a: &Vec<char>, b: &Vec<char>) -> (r: bool)
    ensures
        r == (a@ == b@),
{
    if a.len() != b.len() {
        return false;
    }
    let r = starts_with(a, b);
    assert(a@.take(b@.len() as int) =~= a@);
    r
}

} // verus!
