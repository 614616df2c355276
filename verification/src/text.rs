//! Character-level text utilities: whitespace tokenisation, splitting on a
//! separator, trimming, prefix stripping, and a decimal codec for `u64`.
//!
//! Each executable helper is specified against a recursive spec function
//! over `Seq<char>`, so that the record codec's contract can speak about
//! the exact token structure of its input.

use vstd::prelude::*;

verus! {

/// The whitespace characters recognised between the fields of a root record.
pub open spec fn is_ws(c: char) -> bool {
    c == ' ' || c == '\t' || c == '\r' || c == '\n'
}

/// Runtime test for [`is_ws`].
pub fn ws_char(c: char) -> (r: bool)
    ensures
        r == is_ws(c),
{
    c == ' ' || c == '\t' || c == '\r' || c == '\n'
}

/// Length of the longest whitespace-free prefix of `s`.
pub open spec fn ws_token_len(s: Seq<char>) -> nat
    decreases s.len(),
{
    if s.len() == 0 || is_ws(s[0]) {
        0
    } else {
        1 + ws_token_len(s.drop_first())
    }
}

pub proof fn lemma_ws_token_len_le(s: Seq<char>)
    ensures
        ws_token_len(s) <= s.len(),
    decreases s.len(),
{
    if s.len() > 0 && !is_ws(s[0]) {
        lemma_ws_token_len_le(s.drop_first());
    }
}

/// The whitespace-separated tokens of `s`, in order, with no empty tokens.
pub open spec fn spec_split_ws(s: Seq<char>) -> Seq<Seq<char>>
    decreases s.len(),
    via spec_split_ws_decreases
{
    if s.len() == 0 {
        Seq::empty()
    } else if is_ws(s[0]) {
        spec_split_ws(s.drop_first())
    } else {
        seq![s.take(ws_token_len(s) as int)] + spec_split_ws(s.skip(ws_token_len(s) as int))
    }
}

#[via_fn]
proof fn spec_split_ws_decreases(s: Seq<char>) {
    lemma_ws_token_len_le(s);
}

/// If the characters of `s` in `[a, b)` are not whitespace and `b` is either
/// the end of `s` or a whitespace position, the token starting at `a` ends
/// exactly at `b`.
pub proof fn lemma_ws_token_len_range(s: Seq<char>, a: int, b: int)
    requires
        0 <= a <= b <= s.len(),
        forall|k: int| a <= k < b ==> !is_ws(s[k]),
        b == s.len() || is_ws(s[b]),
    ensures
        ws_token_len(s.skip(a)) == b - a,
    decreases b - a,
{
    if a == b {
        if a < s.len() {
            assert(s.skip(a)[0] == s[a]);
        }
    } else {
        assert(s.skip(a)[0] == s[a]);
        assert(s.skip(a).drop_first() =~= s.skip(a + 1));
        lemma_ws_token_len_range(s, a + 1, b);
    }
}

/// Splits `s` into its whitespace-separated tokens.
pub fn split_whitespace_tokens(s: &str) -> (tokens: Vec<String>)
    ensures
        tokens.deep_view() == spec_split_ws(s@),
{
    let n = s.unicode_len();
    let mut tokens: Vec<String> = Vec::new();
    let mut i: usize = 0;
    proof {
        assert(s@.skip(0) =~= s@);
        assert(tokens.deep_view() =~= Seq::<Seq<char>>::empty());
    }
    while i < n
        invariant
            n == s@.len(),
            i <= n,
            tokens.deep_view() + spec_split_ws(s@.skip(i as int)) =~= spec_split_ws(s@),
        decreases n - i,
    {
        let c = s.get_char(i);
        if ws_char(c) {
            proof {
                assert(s@.skip(i as int)[0] == s@[i as int]);
                assert(s@.skip(i as int).drop_first() =~= s@.skip(i as int + 1));
            }
            i = i + 1;
        } else {
            let start = i;
            let mut j = i + 1;
            while j < n && !ws_char(s.get_char(j))
                invariant
                    n == s@.len(),
                    start < j <= n,
                    forall|k: int| start <= k < j ==> !is_ws(s@[k]),
                decreases n - j,
            {
                j = j + 1;
            }
            let token = s.substring_char(start, j).to_owned();
            proof {
                lemma_ws_token_len_range(s@, start as int, j as int);
                let rest = s@.skip(start as int);
                assert(rest[0] == s@[start as int]);
                assert(rest.take(j - start) =~= s@.subrange(start as int, j as int));
                assert(rest.skip(j - start) =~= s@.skip(j as int));
                assert(spec_split_ws(s@.skip(start as int)) == seq![token@] + spec_split_ws(
                    s@.skip(j as int),
                ));
            }
            let ghost old_tokens = tokens.deep_view();
            tokens.push(token);
            proof {
                assert(tokens.deep_view() =~= old_tokens + seq![token@]);
            }
            i = j;
        }
    }
    proof {
        assert(s@.skip(n as int) =~= Seq::<char>::empty());
        assert(tokens.deep_view() =~= spec_split_ws(s@));
    }
    tokens
}

/// Appending `rest` after a whitespace-free non-empty token `t` splits as
/// the token followed by the split of `rest`.
pub proof fn lemma_split_ws_concat(t: Seq<char>, rest: Seq<char>)
    requires
        t.len() > 0,
        forall|k: int| 0 <= k < t.len() ==> !is_ws(t[k]),
        rest.len() == 0 || is_ws(rest[0]),
    ensures
        spec_split_ws(t + rest) == seq![t] + spec_split_ws(rest),
{
    let s = t + rest;
    assert forall|k: int| 0 <= k < t.len() implies !is_ws(s[k]) by {
        assert(s[k] == t[k]);
    }
    if t.len() < s.len() {
        assert(s[t.len() as int] == rest[0]);
    }
    lemma_ws_token_len_range(s, 0, t.len() as int);
    assert(s.skip(0) =~= s);
    assert(s.take(t.len() as int) =~= t);
    assert(s.skip(t.len() as int) =~= rest);
}

/// Length of the longest prefix of `s` free of the separator `sep`.
pub open spec fn sep_token_len(s: Seq<char>, sep: char) -> nat
    decreases s.len(),
{
    if s.len() == 0 || s[0] == sep {
        0
    } else {
        1 + sep_token_len(s.drop_first(), sep)
    }
}

pub proof fn lemma_sep_token_len_le(s: Seq<char>, sep: char)
    ensures
        sep_token_len(s, sep) <= s.len(),
    decreases s.len(),
{
    if s.len() > 0 && s[0] != sep {
        lemma_sep_token_len_le(s.drop_first(), sep);
    }
}

/// The tokens of `s` between occurrences of `sep`, empty tokens included:
/// splitting `"a,,b"` on `','` gives `["a", "", "b"]`, and splitting the
/// empty sequence gives `[""]`.
pub open spec fn spec_split_sep(s: Seq<char>, sep: char) -> Seq<Seq<char>>
    decreases s.len(),
    via spec_split_sep_decreases
{
    let n = sep_token_len(s, sep) as int;
    if n == s.len() {
        seq![s]
    } else {
        seq![s.take(n)] + spec_split_sep(s.skip(n + 1), sep)
    }
}

#[via_fn]
proof fn spec_split_sep_decreases(s: Seq<char>, sep: char) {
    lemma_sep_token_len_le(s, sep);
}

/// Position of the first occurrence of `sep` in `s`, if any.
pub open spec fn spec_find_sep(s: Seq<char>, sep: char) -> Option<int> {
    if sep_token_len(s, sep) == s.len() {
        None
    } else {
        Some(sep_token_len(s, sep) as int)
    }
}

/// If the characters of `s` in `[a, b)` differ from `sep` and `b` is either
/// the end of `s` or an occurrence of `sep`, the token starting at `a` ends
/// exactly at `b`.
pub proof fn lemma_sep_token_len_range(s: Seq<char>, sep: char, a: int, b: int)
    requires
        0 <= a <= b <= s.len(),
        forall|k: int| a <= k < b ==> s[k] != sep,
        b == s.len() || s[b] == sep,
    ensures
        sep_token_len(s.skip(a), sep) == b - a,
    decreases b - a,
{
    if a == b {
        if a < s.len() {
            assert(s.skip(a)[0] == s[a]);
        }
    } else {
        assert(s.skip(a)[0] == s[a]);
        assert(s.skip(a).drop_first() =~= s.skip(a + 1));
        lemma_sep_token_len_range(s, sep, a + 1, b);
    }
}

/// Splits `s` on every occurrence of `sep`, keeping empty tokens.
pub fn split_on_char(s: &str, sep: char) -> (tokens: Vec<String>)
    ensures
        tokens.deep_view() == spec_split_sep(s@, sep),
{
    let n = s.unicode_len();
    let mut tokens: Vec<String> = Vec::new();
    let mut start: usize = 0;
    let mut i: usize = 0;
    proof {
        assert(s@.skip(0) =~= s@);
        assert(tokens.deep_view() =~= Seq::<Seq<char>>::empty());
    }
    while i < n
        invariant
            n == s@.len(),
            start <= i <= n,
            forall|k: int| start <= k < i ==> s@[k] != sep,
            tokens.deep_view() + spec_split_sep(s@.skip(start as int), sep) =~= spec_split_sep(
                s@,
                sep,
            ),
        decreases n - i,
    {
        if s.get_char(i) == sep {
            let token = s.substring_char(start, i).to_owned();
            proof {
                lemma_sep_token_len_range(s@, sep, start as int, i as int);
                let rest = s@.skip(start as int);
                assert(rest.take(i - start) =~= s@.subrange(start as int, i as int));
                assert(rest.skip(i - start + 1) =~= s@.skip(i as int + 1));
                assert(spec_split_sep(s@.skip(start as int), sep) == seq![token@]
                    + spec_split_sep(s@.skip(i as int + 1), sep));
            }
            let ghost old_tokens = tokens.deep_view();
            tokens.push(token);
            proof {
                assert(tokens.deep_view() =~= old_tokens + seq![token@]);
            }
            start = i + 1;
        }
        i = i + 1;
    }
    let token = s.substring_char(start, n).to_owned();
    proof {
        lemma_sep_token_len_range(s@, sep, start as int, n as int);
        let rest = s@.skip(start as int);
        assert(rest =~= s@.subrange(start as int, n as int));
        assert(spec_split_sep(s@.skip(start as int), sep) == seq![token@]);
    }
    let ghost old_tokens = tokens.deep_view();
    tokens.push(token);
    proof {
        assert(tokens.deep_view() =~= old_tokens + seq![token@]);
        assert(tokens.deep_view() =~= spec_split_sep(s@, sep));
    }
    tokens
}

/// Splits `s` at the first occurrence of `sep`, if there is one.
pub fn split_once_at(s: &str, sep: char) -> (r: Option<(String, String)>)
    ensures
        match r {
            Some(parts) => {
                &&& spec_find_sep(s@, sep) == Some(parts.0@.len() as int)
                &&& s@ == parts.0@ + seq![sep] + parts.1@
                &&& forall|k: int| 0 <= k < parts.0@.len() ==> parts.0@[k] != sep
            },
            None => spec_find_sep(s@, sep) is None,
        },
{
    let n = s.unicode_len();
    let mut i: usize = 0;
    while i < n
        invariant
            n == s@.len(),
            i <= n,
            forall|k: int| 0 <= k < i ==> s@[k] != sep,
        decreases n - i,
    {
        if s.get_char(i) == sep {
            let left = s.substring_char(0, i).to_owned();
            let right = s.substring_char(i + 1, n).to_owned();
            proof {
                assert(s@.skip(0) =~= s@);
                lemma_sep_token_len_range(s@, sep, 0, i as int);
                assert(s@ =~= left@ + seq![sep] + right@);
            }
            return Some((left, right));
        }
        i = i + 1;
    }
    proof {
        assert(s@.skip(0) =~= s@);
        lemma_sep_token_len_range(s@, sep, 0, n as int);
    }
    None
}

/// A token free of `sep` followed by `sep` and a remainder splits as that
/// token followed by the split of the remainder.
pub proof fn lemma_split_sep_concat(t: Seq<char>, rest: Seq<char>, sep: char)
    requires
        forall|k: int| 0 <= k < t.len() ==> t[k] != sep,
        rest.len() > 0,
        rest[0] == sep,
    ensures
        spec_split_sep(t + rest, sep) == seq![t] + spec_split_sep(rest.drop_first(), sep),
{
    let s = t + rest;
    assert forall|k: int| 0 <= k < t.len() implies s[k] != sep by {
        assert(s[k] == t[k]);
    }
    assert(s[t.len() as int] == rest[0]);
    lemma_sep_token_len_range(s, sep, 0, t.len() as int);
    assert(s.skip(0) =~= s);
    assert(s.take(t.len() as int) =~= t);
    assert(s.skip(t.len() as int + 1) =~= rest.drop_first());
}

/// A sequence free of `sep` splits as a single token.
pub proof fn lemma_split_sep_whole(t: Seq<char>, sep: char)
    requires
        forall|k: int| 0 <= k < t.len() ==> t[k] != sep,
    ensures
        spec_split_sep(t, sep) == seq![t],
{
    lemma_sep_token_len_range(t, sep, 0, t.len() as int);
    assert(t.skip(0) =~= t);
}

/// Number of leading whitespace characters of `s`.
pub open spec fn trim_start_len(s: Seq<char>) -> nat
    decreases s.len(),
{
    if s.len() == 0 || !is_ws(s[0]) {
        0
    } else {
        1 + trim_start_len(s.drop_first())
    }
}

/// Number of trailing whitespace characters of `s`.
pub open spec fn trim_end_len(s: Seq<char>) -> nat
    decreases s.len(),
{
    if s.len() == 0 || !is_ws(s.last()) {
        0
    } else {
        1 + trim_end_len(s.drop_last())
    }
}

/// `s` with leading and trailing whitespace removed.
pub open spec fn spec_trim(s: Seq<char>) -> Seq<char> {
    let t = s.skip(trim_start_len(s) as int);
    t.take(t.len() - trim_end_len(t) as int)
}

pub proof fn lemma_trim_start_range(s: Seq<char>, a: int)
    requires
        0 <= a <= s.len(),
        forall|k: int| 0 <= k < a ==> is_ws(s[k]),
        a == s.len() || !is_ws(s[a]),
    ensures
        trim_start_len(s) == a,
    decreases a,
{
    if a == 0 {
    } else {
        assert(s[0] == s[0]);
        assert(s.drop_first() =~= s.skip(1));
        lemma_trim_start_range(s.skip(1), a - 1);
    }
}

pub proof fn lemma_trim_end_range(s: Seq<char>, b: int)
    requires
        0 <= b <= s.len(),
        forall|k: int| b <= k < s.len() ==> is_ws(s[k]),
        b == 0 || !is_ws(s[b - 1]),
    ensures
        trim_end_len(s) == s.len() - b,
    decreases s.len() - b,
{
    if b == s.len() {
    } else {
        assert(is_ws(s.last()));
        lemma_trim_end_range(s.drop_last(), b);
    }
}

/// Removes leading and trailing whitespace from `s`.
pub fn trim_str<'a>(s: &'a str) -> (r: &'a str)
    ensures
        r@ == spec_trim(s@),
{
    let n = s.unicode_len();
    let mut a: usize = 0;
    while a < n && ws_char(s.get_char(a))
        invariant
            n == s@.len(),
            a <= n,
            forall|k: int| 0 <= k < a ==> is_ws(s@[k]),
        decreases n - a,
    {
        a = a + 1;
    }
    let mut b: usize = n;
    while b > a && ws_char(s.get_char(b - 1))
        invariant
            n == s@.len(),
            a <= b <= n,
            forall|k: int| b <= k < n ==> is_ws(s@[k]),
        decreases b,
    {
        b = b - 1;
    }
    proof {
        lemma_trim_start_range(s@, a as int);
        let t = s@.skip(a as int);
        if b == a {
            lemma_trim_end_range(t, 0);
        } else {
            assert(t[b - a - 1] == s@[b - 1]);
            assert(forall|k: int| b - a <= k < t.len() ==> t[k] == s@[k + a]);
            lemma_trim_end_range(t, b - a);
        }
        assert(t.take(b - a) =~= s@.subrange(a as int, b as int));
    }
    s.substring_char(a, b)
}

/// Trimming a sequence with no whitespace at either end is the identity.
pub proof fn lemma_trim_noop(s: Seq<char>)
    requires
        s.len() == 0 || (!is_ws(s[0]) && !is_ws(s.last())),
    ensures
        spec_trim(s) == s,
{
    lemma_trim_start_range(s, 0);
    assert(s.skip(0) =~= s);
    if s.len() == 0 {
        lemma_trim_end_range(s, 0);
    } else {
        lemma_trim_end_range(s, s.len() as int);
    }
    assert(s.take(s.len() as int) =~= s);
}

/// `p` is a prefix of `s`.
pub open spec fn has_prefix(s: Seq<char>, p: Seq<char>) -> bool {
    p.len() <= s.len() && s.take(p.len() as int) == p
}

/// Strips the prefix `p` from `s`, if `s` begins with it.
pub fn strip_prefix_str<'a>(s: &'a str, p: &str) -> (r: Option<&'a str>)
    ensures
        match r {
            Some(rest) => s@ == p@ + rest@ && has_prefix(s@, p@),
            None => !has_prefix(s@, p@),
        },
{
    let n = p.unicode_len();
    let m = s.unicode_len();
    if m < n {
        proof {
            assert(!has_prefix(s@, p@));
        }
        return None;
    }
    let mut i: usize = 0;
    while i < n
        invariant
            n == p@.len(),
            m == s@.len(),
            n <= m,
            i <= n,
            forall|k: int| 0 <= k < i ==> s@[k] == p@[k],
        decreases n - i,
    {
        if s.get_char(i) != p.get_char(i) {
            proof {
                assert(s@.take(n as int)[i as int] == s@[i as int]);
            }
            return None;
        }
        i = i + 1;
    }
    let rest = s.substring_char(n, m);
    proof {
        assert(s@.take(n as int) =~= p@);
        assert(s@ =~= p@ + rest@);
    }
    Some(rest)
}

/// The character for a single decimal digit.
pub open spec fn digit_char(d: int) -> char {
    if d == 0 {
        '0'
    } else if d == 1 {
        '1'
    } else if d == 2 {
        '2'
    } else if d == 3 {
        '3'
    } else if d == 4 {
        '4'
    } else if d == 5 {
        '5'
    } else if d == 6 {
        '6'
    } else if d == 7 {
        '7'
    } else if d == 8 {
        '8'
    } else {
        '9'
    }
}

/// The value of a decimal digit character, or `-1` for any other character.
pub open spec fn digit_val(c: char) -> int {
    if c == '0' {
        0
    } else if c == '1' {
        1
    } else if c == '2' {
        2
    } else if c == '3' {
        3
    } else if c == '4' {
        4
    } else if c == '5' {
        5
    } else if c == '6' {
        6
    } else if c == '7' {
        7
    } else if c == '8' {
        8
    } else if c == '9' {
        9
    } else {
        -1
    }
}

pub open spec fn is_digit(c: char) -> bool {
    digit_val(c) >= 0
}

/// The decimal digits of `n`, most significant first, with no sign and no
/// leading zero (except for `n == 0` itself).
pub open spec fn digits_of(n: nat) -> Seq<char>
    decreases n,
{
    if n < 10 {
        seq![digit_char(n as int)]
    } else {
        digits_of(n / 10) + seq![digit_char((n % 10) as int)]
    }
}

pub open spec fn all_digits(s: Seq<char>) -> bool {
    forall|k: int| 0 <= k < s.len() ==> is_digit(s[k])
}

/// The numeric value of a sequence of decimal digit characters.
pub open spec fn digits_value(s: Seq<char>) -> int
    decreases s.len(),
{
    if s.len() == 0 {
        0
    } else {
        digits_value(s.drop_last()) * 10 + digit_val(s.last())
    }
}

/// The `u64` denoted by `s` when `s` is a non-empty run of decimal digits
/// whose value fits; `None` otherwise.
pub open spec fn spec_parse_u64(s: Seq<char>) -> Option<u64> {
    if s.len() > 0 && all_digits(s) && digits_value(s) <= u64::MAX {
        Some(digits_value(s) as u64)
    } else {
        None
    }
}

pub proof fn lemma_digits_value_nonneg(s: Seq<char>)
    requires
        all_digits(s),
    ensures
        digits_value(s) >= 0,
    decreases s.len(),
{
    if s.len() > 0 {
        assert(all_digits(s.drop_last()));
        lemma_digits_value_nonneg(s.drop_last());
    }
}

/// A longer run of digits denotes at least as large a value as any of its
/// prefixes.
pub proof fn lemma_digits_value_prefix_le(s: Seq<char>, j: int)
    requires
        0 <= j <= s.len(),
        all_digits(s),
    ensures
        digits_value(s.take(j)) <= digits_value(s),
    decreases s.len() - j,
{
    if j == s.len() {
        assert(s.take(j) =~= s);
    } else {
        let t = s.take(j + 1);
        assert(t.drop_last() =~= s.take(j));
        assert(all_digits(s.take(j)));
        lemma_digits_value_nonneg(s.take(j));
        assert(digits_value(t) == digits_value(s.take(j)) * 10 + digit_val(s[j]));
        lemma_digits_value_prefix_le(s, j + 1);
    }
}

/// Parses a non-empty run of decimal digits as a `u64`.
pub fn parse_dec_u64(s: &str) -> (r: Option<u64>)
    ensures
        r == spec_parse_u64(s@),
{
    let n = s.unicode_len();
    if n == 0 {
        return None;
    }
    let mut val: u64 = 0;
    let mut i: usize = 0;
    proof {
        assert(s@.take(0) =~= Seq::<char>::empty());
    }
    while i < n
        invariant
            n == s@.len(),
            i <= n,
            all_digits(s@.take(i as int)),
            val == digits_value(s@.take(i as int)),
        decreases n - i,
    {
        let c = s.get_char(i);
        let d: u64 = if c == '0' {
            0
        } else if c == '1' {
            1
        } else if c == '2' {
            2
        } else if c == '3' {
            3
        } else if c == '4' {
            4
        } else if c == '5' {
            5
        } else if c == '6' {
            6
        } else if c == '7' {
            7
        } else if c == '8' {
            8
        } else if c == '9' {
            9
        } else {
            proof {
                assert(!is_digit(s@[i as int]));
            }
            return None;
        };
        proof {
            assert(s@.take(i as int + 1).drop_last() =~= s@.take(i as int));
            assert(s@.take(i as int + 1).last() == s@[i as int]);
            assert(digit_val(s@[i as int]) == d);
        }
        if val > (u64::MAX - d) / 10 {
            proof {
                if all_digits(s@) {
                    assert(val * 10 + d > u64::MAX) by (nonlinear_arith)
                        requires
                            val > (u64::MAX - d) / 10,
                            0 <= d <= 9,
                    ;
                    assert(digits_value(s@.take(i as int + 1)) > u64::MAX);
                    lemma_digits_value_prefix_le(s@, i as int + 1);
                }
            }
            return None;
        }
        proof {
            assert(val * 10 + d <= u64::MAX) by (nonlinear_arith)
                requires
                    val <= (u64::MAX - d) / 10,
                    0 <= d <= 9,
            ;
        }
        val = val * 10 + d;
        i = i + 1;
    }
    proof {
        assert(s@.take(n as int) =~= s@);
    }
    Some(val)
}

/// Writes `n` in decimal.
pub fn u64_to_dec(n: u64) -> (r: String)
    ensures
        r@ == digits_of(n as nat),
    decreases n,
{
    let digits = "0123456789";
    proof {
        reveal_strlit("0123456789");
    }
    let d = (n % 10) as usize;
    let ds = digits.substring_char(d, d + 1);
    proof {
        assert(ds@ =~= seq![digit_char((n % 10) as int)]);
    }
    if n < 10 {
        ds.to_owned()
    } else {
        let prefix = u64_to_dec(n / 10);
        let r = prefix.concat(ds);
        proof {
            assert(r@ =~= digits_of(n as nat));
        }
        r
    }
}

/// The decimal form of `n` is all digits and parses back to `n`.
pub proof fn lemma_parse_digits_of(n: u64)
    ensures
        digits_of(n as nat).len() > 0,
        all_digits(digits_of(n as nat)),
        spec_parse_u64(digits_of(n as nat)) == Some(n),
    decreases n,
{
    let s = digits_of(n as nat);
    if n < 10 {
        assert(digits_value(s.drop_last()) == 0);
        assert(digits_value(s) == n);
    } else {
        lemma_parse_digits_of(n / 10);
        let p = digits_of((n / 10) as nat);
        lemma_digits_value_nonneg(p);
        assert(s == p + seq![digit_char((n % 10) as int)]);
        assert(s.drop_last() =~= p);
        assert(digits_value(s) == digits_value(p) * 10 + (n % 10) as int);
        assert(digits_value(p) == (n / 10) as int);
        assert(all_digits(s));
    }
}

} // verus!
