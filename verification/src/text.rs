//! Text helpers for the log decoder: splitting a record into fields,
//! splitting a trace into lines, comparing strings, and reading unsigned
//! integers written in decimal or hexadecimal.

use vstd::prelude::*;

verus! {

/// The whitespace characters recognised between the fields of a record
/// head. The log format only ever separates them by spaces; the wider ASCII
/// set is accepted for robustness.
pub open spec fn is_ws_char(c: char) -> bool {
    c == ' ' || c == '\t' || c == '\r' || c == '\n' || c == '\u{b}' || c == '\u{c}'
}

/// Index of the first occurrence of `sep` in `s`, or `s.len()` if none.
pub open spec fn sep_pos(s: Seq<char>, sep: char) -> int
    decreases s.len(),
{
    if s.len() == 0 {
        0
    } else if s[0] == sep {
        0
    } else {
        1 + sep_pos(s.skip(1), sep)
    }
}

pub proof fn lemma_sep_pos(s: Seq<char>, sep: char)
    ensures
        0 <= sep_pos(s, sep) <= s.len(),
        forall|j: int| 0 <= j < sep_pos(s, sep) ==> s[j] != sep,
        sep_pos(s, sep) < s.len() ==> s[sep_pos(s, sep)] == sep,
    decreases s.len(),
{
    if s.len() > 0 && s[0] != sep {
        lemma_sep_pos(s.skip(1), sep);
        assert forall|j: int| 0 <= j < sep_pos(s, sep) implies s[j] != sep by {
            if j > 0 {
                assert(s.skip(1)[j - 1] != sep);
            }
        }
    }
}

/// If every character before `k` differs from `sep` and `k` is either the
/// end of `s` or an occurrence of `sep`, then `k` is where the first `sep`
/// stands.
pub proof fn lemma_sep_pos_is(s: Seq<char>, sep: char, k: int)
    requires
        0 <= k <= s.len(),
        forall|j: int| 0 <= j < k ==> s[j] != sep,
        k < s.len() ==> s[k] == sep,
    ensures
        sep_pos(s, sep) == k,
    decreases k,
{
    if k > 0 {
        lemma_sep_pos_is(s.skip(1), sep, k - 1);
    }
}

/// The pieces of `s` between occurrences of `sep`. Every occurrence
/// separates two pieces, so empty pieces are kept and the result always has
/// one piece more than `s` has separators.
pub open spec fn split_on(s: Seq<char>, sep: char) -> Seq<Seq<char>>
    decreases s.len(),
    via split_on_decreases
{
    let k = sep_pos(s, sep);
    if k == s.len() {
        seq![s]
    } else {
        seq![s.take(k)] + split_on(s.skip(k + 1), sep)
    }
}

#[via_fn]
proof fn split_on_decreases(s: Seq<char>, sep: char) {
    lemma_sep_pos(s, sep);
}

/// Length of the run of non-whitespace characters at the front of `s`.
pub open spec fn token_len(s: Seq<char>) -> int
    decreases s.len(),
{
    if s.len() == 0 || is_ws_char(s[0]) {
        0
    } else {
        1 + token_len(s.skip(1))
    }
}

pub proof fn lemma_token_len(s: Seq<char>)
    ensures
        0 <= token_len(s) <= s.len(),
        forall|j: int| 0 <= j < token_len(s) ==> !is_ws_char(s[j]),
        token_len(s) < s.len() ==> is_ws_char(s[token_len(s)]),
    decreases s.len(),
{
    if s.len() > 0 && !is_ws_char(s[0]) {
        lemma_token_len(s.skip(1));
        assert forall|j: int| 0 <= j < token_len(s) implies !is_ws_char(s[j]) by {
            if j > 0 {
                assert(!is_ws_char(s.skip(1)[j - 1]));
            }
        }
    }
}

/// If the first `k` characters are not whitespace and `k` is the end of `s`
/// or a whitespace character, the front token is exactly `k` long.
pub proof fn lemma_token_len_is(s: Seq<char>, k: int)
    requires
        0 <= k <= s.len(),
        forall|j: int| 0 <= j < k ==> !is_ws_char(s[j]),
        k < s.len() ==> is_ws_char(s[k]),
    ensures
        token_len(s) == k,
    decreases k,
{
    if k > 0 {
        lemma_token_len_is(s.skip(1), k - 1);
    }
}

/// The maximal non-whitespace tokens of `s`, in order. Runs of whitespace
/// separate tokens and are dropped; there are no empty tokens.
pub open spec fn split_ws(s: Seq<char>) -> Seq<Seq<char>>
    decreases s.len(),
    via split_ws_decreases
{
    if s.len() == 0 {
        Seq::empty()
    } else if is_ws_char(s[0]) {
        split_ws(s.skip(1))
    } else {
        seq![s.take(token_len(s))] + split_ws(s.skip(token_len(s)))
    }
}

#[via_fn]
proof fn split_ws_decreases(s: Seq<char>) {
    lemma_token_len(s);
}

/// Combined length of a list of pieces.
pub open spec fn total_len(ps: Seq<Seq<char>>) -> int
    decreases ps.len(),
{
    if ps.len() == 0 {
        0
    } else {
        ps[0].len() + total_len(ps.skip(1))
    }
}

/// The tokens of `s` are disjoint pieces of it, so their lengths sum to at
/// most its length.
pub proof fn lemma_split_ws_total(s: Seq<char>)
    ensures
        total_len(split_ws(s)) <= s.len(),
    decreases s.len(),
{
    lemma_token_len(s);
    if s.len() == 0 {
    } else if is_ws_char(s[0]) {
        lemma_split_ws_total(s.skip(1));
    } else {
        let k = token_len(s);
        lemma_split_ws_total(s.skip(k));
        let whole = seq![s.take(k)] + split_ws(s.skip(k));
        assert(whole.skip(1) =~= split_ws(s.skip(k)));
        assert(whole[0] == s.take(k));
    }
}

/// Length of the run of copies of `c` at the front of `s`.
pub open spec fn run_of(s: Seq<char>, c: char) -> int
    decreases s.len(),
{
    if s.len() == 0 || s[0] != c {
        0
    } else {
        1 + run_of(s.skip(1), c)
    }
}

/// Length of the run of copies of `c` at the back of `s`.
pub open spec fn rev_run_of(s: Seq<char>, c: char) -> int
    decreases s.len(),
{
    if s.len() == 0 || s.last() != c {
        0
    } else {
        1 + rev_run_of(s.drop_last(), c)
    }
}

/// `s` without every copy of `c` at its front and at its back.
pub open spec fn trim_matches(s: Seq<char>, c: char) -> Seq<char> {
    let t = s.skip(run_of(s, c));
    t.take(t.len() - rev_run_of(t, c))
}

pub proof fn lemma_run_of_is(s: Seq<char>, c: char, k: int)
    requires
        0 <= k <= s.len(),
        forall|j: int| 0 <= j < k ==> s[j] == c,
        k < s.len() ==> s[k] != c,
    ensures
        run_of(s, c) == k,
    decreases k,
{
    if k > 0 {
        lemma_run_of_is(s.skip(1), c, k - 1);
    }
}

pub proof fn lemma_rev_run_of_is(s: Seq<char>, c: char, k: int)
    requires
        0 <= k <= s.len(),
        forall|j: int| s.len() - k <= j < s.len() ==> s[j] == c,
        s.len() - k - 1 >= 0 ==> s[s.len() - k - 1] != c,
    ensures
        rev_run_of(s, c) == k,
    decreases k,
{
    if k > 0 {
        lemma_rev_run_of_is(s.drop_last(), c, k - 1);
    }
}

/// `s` with every leading and trailing copy of `c` removed, as
/// [`trim_matches`] describes.
pub fn trim_matches_str<'a>(s: &'a str, c: char) -> (r: &'a str)
    ensures
        r@ == trim_matches(s@, c),
{
    let n = s.unicode_len();
    let mut a: usize = 0;
    while a < n
        invariant
            a <= n,
            n == s@.len(),
            forall|j: int| 0 <= j < a ==> s@[j] == c,
        ensures
            a <= n,
            forall|j: int| 0 <= j < a ==> s@[j] == c,
            a < n ==> s@[a as int] != c,
        decreases n - a,
    {
        if s.get_char(a) != c {
            break ;
        }
        a += 1;
    }
    proof {
        lemma_run_of_is(s@, c, a as int);
    }
    let mut b: usize = n;
    while b > a
        invariant
            a <= b <= n,
            n == s@.len(),
            forall|j: int| b <= j < n ==> s@[j] == c,
        ensures
            a <= b <= n,
            forall|j: int| b <= j < n ==> s@[j] == c,
            b > a ==> s@[b - 1] != c,
        decreases b,
    {
        if s.get_char(b - 1) != c {
            break ;
        }
        b -= 1;
    }
    proof {
        let t = s@.skip(a as int);
        lemma_rev_run_of_is(t, c, n - b);
        assert(t.take(t.len() - (n - b)) =~= s@.subrange(a as int, b as int));
    }
    s.substring_char(a, b)
}

/// A line with its trailing carriage return removed, so that traces with
/// CRLF line endings decode like traces with bare LF endings.
pub open spec fn strip_cr(s: Seq<char>) -> Seq<char> {
    if s.len() > 0 && s.last() == '\r' {
        s.drop_last()
    } else {
        s
    }
}

/// The lines of `s`: pieces between newline characters, each with a
/// trailing carriage return removed, and without the empty piece that a
/// trailing newline would otherwise produce.
pub open spec fn split_lines(s: Seq<char>) -> Seq<Seq<char>> {
    let raw = split_on(s, '\n').map_values(|p: Seq<char>| strip_cr(p));
    if s.len() == 0 {
        Seq::empty()
    } else if s.last() == '\n' {
        raw.drop_last()
    } else {
        raw
    }
}

/// Numeric value of `c` as a digit in the given base, or `-1` when `c` is
/// no such digit. Decimal accepts `0`-`9`; hexadecimal also accepts both
/// letter cases.
pub open spec fn digit_value(c: char, base: int) -> int {
    let v = c as u32;
    if '0' as u32 <= v <= '9' as u32 {
        v - '0' as u32
    } else if base == 16 && 'a' as u32 <= v <= 'f' as u32 {
        10 + (v - 'a' as u32)
    } else if base == 16 && 'A' as u32 <= v <= 'F' as u32 {
        10 + (v - 'A' as u32)
    } else {
        -1
    }
}

pub open spec fn all_digits(s: Seq<char>, base: int) -> bool {
    forall|i: int| 0 <= i < s.len() ==> digit_value(s[i], base) >= 0
}

/// The unsigned value written by a digit string, most significant first.
pub open spec fn digits_value(s: Seq<char>, base: int) -> int
    decreases s.len(),
{
    if s.len() == 0 {
        0
    } else {
        digits_value(s.drop_last(), base) * base + digit_value(s.last(), base)
    }
}

/// The number a string denotes in the given base, exactly as the standard
/// unsigned integer parsers read it: an optional leading plus sign, then at
/// least one digit, and a value that fits in 64 bits; anything else is
/// rejected.
pub open spec fn parse_u64(s: Seq<char>, base: int) -> Option<u64> {
    let ds = if s.len() > 0 && s[0] == '+' {
        s.skip(1)
    } else {
        s
    };
    if ds.len() >= 1 && all_digits(ds, base) && digits_value(ds, base) <= u64::MAX {
        Some(digits_value(ds, base) as u64)
    } else {
        None
    }
}

pub proof fn lemma_digits_value_nonneg(s: Seq<char>, base: int)
    requires
        base == 10 || base == 16,
        all_digits(s, base),
    ensures
        digits_value(s, base) >= 0,
    decreases s.len(),
{
    if s.len() > 0 {
        assert(all_digits(s.drop_last(), base));
        lemma_digits_value_nonneg(s.drop_last(), base);
    }
}

fn digit_value_exec(c: char, base: u32) -> (r: Option<u8>)
    requires
        base == 10 || base == 16,
    ensures
        (match r {
            Some(d) => digit_value(c, base as int) == d as int && (d as int) < base as int,
            None => digit_value(c, base as int) < 0,
        }),
{
    let v = c as u32;
    if v >= '0' as u32 && v <= '9' as u32 {
        Some((v - '0' as u32) as u8)
    } else if base == 16 && v >= 'a' as u32 && v <= 'f' as u32 {
        Some((10 + (v - 'a' as u32)) as u8)
    } else if base == 16 && v >= 'A' as u32 && v <= 'F' as u32 {
        Some((10 + (v - 'A' as u32)) as u8)
    } else {
        None
    }
}

/// Read an unsigned 64-bit integer from `s` in the given base, as
/// [`parse_u64`] describes.
pub fn parse_u64_str(s: &str, base: u32) -> (r: Option<u64>)
    requires
        base == 10 || base == 16,
    ensures
        r == parse_u64(s@, base as int),
{
    let n = s.unicode_len();
    let start: usize = if n > 0 && s.get_char(0) == '+' {
        1
    } else {
        0
    };
    let ghost ds = if s@.len() > 0 && s@[0] == '+' {
        s@.skip(1)
    } else {
        s@
    };
    if n == start {
        return None;
    }
    let mut acc: u128 = 0;
    let mut i: usize = start;
    proof {
        assert(ds.take(0) =~= Seq::<char>::empty());
    }
    while i < n
        invariant
            base == 10 || base == 16,
            start == 0 || start == 1,
            start <= i <= n,
            n == s@.len(),
            start == 1 ==> s@.len() > 0 && s@[0] == '+' && ds == s@.skip(1),
            start == 0 ==> ds == s@ && !(s@.len() > 0 && s@[0] == '+'),
            ds.len() == n - start,
            forall|j: int| 0 <= j < ds.len() ==> ds[j] == s@[j + start],
            all_digits(ds.take(i - start), base as int),
            digits_value(ds.take(i - start), base as int) <= u64::MAX ==> acc == digits_value(
                ds.take(i - start),
                base as int,
            ),
            digits_value(ds.take(i - start), base as int) > u64::MAX ==> acc > u64::MAX,
            acc <= 0xFFFF_FFFF_FFFF_FFFFu128 * 16 + 15,
        decreases n - i,
    {
        let c = s.get_char(i);
        match digit_value_exec(c, base) {
            None => {
                proof {
                    assert(ds[i - start] == s@[i as int]);
                    assert(!all_digits(ds, base as int));
                }
                return None;
            },
            Some(d) => {
                proof {
                    let pre = ds.take(i - start);
                    let post = ds.take(i + 1 - start);
                    assert(post.drop_last() =~= pre);
                    assert(post.last() == ds[i - start]);
                    assert(ds[i - start] == s@[i as int]);
                    assert(all_digits(post, base as int));
                    lemma_digits_value_nonneg(pre, base as int);
                }
                if acc <= 0xFFFF_FFFF_FFFF_FFFFu128 {
                    if base == 10 {
                        acc = acc * 10 + (d as u128);
                    } else {
                        acc = acc * 16 + (d as u128);
                    }
                } else {
                    proof {
                        let pre = ds.take(i - start);
                        let post = ds.take(i + 1 - start);
                        assert(digits_value(post, base as int) == digits_value(pre, base as int) * base
                            + digit_value(post.last(), base as int));
                        assert(digits_value(pre, base as int) * base > u64::MAX * base) by {
                            assert(digits_value(pre, base as int) > u64::MAX);
                            if base == 10 {
                                assert(digits_value(pre, base as int) * 10 > u64::MAX * 10);
                            } else {
                                assert(digits_value(pre, base as int) * 16 > u64::MAX * 16);
                            }
                        }
                    }
                }
            },
        }
        i += 1;
    }
    proof {
        assert(ds.take(n - start) =~= ds);
    }
    if acc <= 0xFFFF_FFFF_FFFF_FFFFu128 {
        Some(acc as u64)
    } else {
        None
    }
}

/// Character-wise string equality.
pub fn str_eq(a: &str, b: &str) -> (r: bool)
    ensures
        r == (a@ == b@),
{
    let n = a.unicode_len();
    if n != b.unicode_len() {
        return false;
    }
    let mut i: usize = 0;
    while i < n
        invariant
            i <= n,
            n == a@.len(),
            n == b@.len(),
            forall|j: int| 0 <= j < i ==> a@[j] == b@[j],
        decreases n - i,
    {
        if a.get_char(i) != b.get_char(i) {
            return false;
        }
        i += 1;
    }
    proof {
        assert(a@ =~= b@);
    }
    true
}

/// Split `s` at every occurrence of `sep`, keeping empty pieces.
pub fn split_str<'a>(s: &'a str, sep: char) -> (r: Vec<&'a str>)
    ensures
        r.deep_view() == split_on(s@, sep),
{
    let n = s.unicode_len();
    let mut r: Vec<&'a str> = Vec::new();
    let mut start: usize = 0;
    let mut i: usize = 0;
    proof {
        assert(s@.skip(0) =~= s@);
        assert(r.deep_view() =~= Seq::<Seq<char>>::empty());
        assert(r.deep_view() + split_on(s@, sep) =~= split_on(s@, sep));
    }
    while i < n
        invariant
            start <= i <= n,
            n == s@.len(),
            forall|j: int| start <= j < i ==> s@[j] != sep,
            r.deep_view() + split_on(s@.skip(start as int), sep) =~= split_on(s@, sep),
        decreases n - i,
    {
        if s.get_char(i) == sep {
            let piece = s.substring_char(start, i);
            proof {
                let rest = s@.skip(start as int);
                lemma_sep_pos_is(rest, sep, i - start);
                assert(rest.take(i - start) =~= s@.subrange(start as int, i as int));
                assert(rest.skip(i - start + 1) =~= s@.skip(i + 1));
            }
            r.push(piece);
            start = i + 1;
        }
        i += 1;
    }
    let last = s.substring_char(start, n);
    proof {
        let rest = s@.skip(start as int);
        lemma_sep_pos_is(rest, sep, n - start);
        assert(rest =~= s@.subrange(start as int, n as int));
    }
    r.push(last);
    proof {
        assert(r.deep_view() =~= split_on(s@, sep));
    }
    r
}

/// Split `s` into its maximal non-whitespace tokens.
pub fn split_ws_str<'a>(s: &'a str) -> (r: Vec<&'a str>)
    ensures
        r.deep_view() == split_ws(s@),
{
    let n = s.unicode_len();
    let mut r: Vec<&'a str> = Vec::new();
    let mut i: usize = 0;
    proof {
        assert(s@.skip(0) =~= s@);
        assert(r.deep_view() =~= Seq::<Seq<char>>::empty());
        assert(r.deep_view() + split_ws(s@) =~= split_ws(s@));
    }
    while i < n
        invariant
            i <= n,
            n == s@.len(),
            r.deep_view() + split_ws(s@.skip(i as int)) =~= split_ws(s@),
        decreases n - i,
    {
        let c = s.get_char(i);
        if c == ' ' || c == '\t' || c == '\r' || c == '\n' || c == '\u{b}' || c == '\u{c}' {
            proof {
                assert(s@.skip(i as int).skip(1) =~= s@.skip(i + 1));
            }
            i += 1;
        } else {
            let mut j: usize = i + 1;
            while j < n
                invariant
                    i < j <= n,
                    n == s@.len(),
                    forall|k: int| i <= k < j ==> !is_ws_char(s@[k]),
                ensures
                    i < j <= n,
                    forall|k: int| i <= k < j ==> !is_ws_char(s@[k]),
                    j < n ==> is_ws_char(s@[j as int]),
                decreases n - j,
            {
                let c2 = s.get_char(j);
                if c2 == ' ' || c2 == '\t' || c2 == '\r' || c2 == '\n' || c2 == '\u{b}' || c2
                    == '\u{c}' {
                    break ;
                }
                j += 1;
            }
            let piece = s.substring_char(i, j);
            proof {
                let rest = s@.skip(i as int);
                lemma_token_len_is(rest, j - i);
                assert(rest.take(j - i) =~= s@.subrange(i as int, j as int));
                assert(rest.skip(j - i) =~= s@.skip(j as int));
            }
            r.push(piece);
            i = j;
        }
    }
    proof {
        assert(s@.skip(n as int) =~= Seq::<char>::empty());
        assert(r.deep_view() =~= split_ws(s@));
    }
    r
}

/// Split `s` into lines as [`split_lines`] describes them.
pub fn split_lines_str<'a>(s: &'a str) -> (r: Vec<&'a str>)
    ensures
        r.deep_view() == split_lines(s@),
{
    let n = s.unicode_len();
    let pieces = split_str(s, '\n');
    let mut r: Vec<&'a str> = Vec::new();
    let mut i: usize = 0;
    while i < pieces.len()
        invariant
            i <= pieces.len(),
            pieces.deep_view() == split_on(s@, '\n'),
            r.deep_view() =~= pieces.deep_view().take(i as int).map_values(
                |p: Seq<char>| strip_cr(p),
            ),
        decreases pieces.len() - i,
    {
        let piece = pieces[i];
        proof {
            assert(piece@ == pieces.deep_view()[i as int]);
        }
        let m = piece.unicode_len();
        if m > 0 && piece.get_char(m - 1) == '\r' {
            let trimmed = piece.substring_char(0, m - 1);
            proof {
                assert(trimmed@ =~= piece@.drop_last());
            }
            r.push(trimmed);
        } else {
            r.push(piece);
        }
        proof {
            assert(pieces.deep_view().take(i + 1).map_values(|p: Seq<char>| strip_cr(p))
                =~= pieces.deep_view().take(i as int).map_values(|p: Seq<char>| strip_cr(p)).push(
                strip_cr(pieces.deep_view()[i as int]),
            ));
        }
        i += 1;
    }
    proof {
        assert(pieces.deep_view().take(pieces.deep_view().len() as int) =~= pieces.deep_view());
    }
    if n == 0 {
        let empty: Vec<&'a str> = Vec::new();
        return empty;
    }
    if s.get_char(n - 1) == '\n' {
        r.pop();
        proof {
            assert(r.deep_view() =~= split_lines(s@));
        }
    }
    r
}

} // verus!
