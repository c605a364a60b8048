//! Character-level helpers: string comparison, whitespace tests, decimal
//! parsing of attribute values, and bracket stripping for column widths.

use vstd::prelude::*;

verus! {

/// Compare two string slices by their character sequences.
pub fn str_eq(a: &str, b: &str) -> (r: bool)
    ensures
        r == (a@ == b@),
{
    let na = a.unicode_len();
    let nb = b.unicode_len();
    if na != nb {
        proof {
            if a@ == b@ {
                assert(a@.len() == b@.len());
            }
        }
        return false;
    }
    let mut i: usize = 0;
    while i < na
        invariant
            na == a@.len(),
            na == b@.len(),
            i <= na,
            forall|j: int| 0 <= j < i ==> a@[j] == b@[j],
        decreases na - i,
    {
        let ca = a.get_char(i);
        let cb = b.get_char(i);
        if ca != cb {
            proof {
                if a@ == b@ {
                    assert(a@[i as int] == b@[i as int]);
                }
            }
            return false;
        }
        i += 1;
    }
    proof {
        assert(a@ =~= b@);
    }
    true
}

/// The Unicode White_Space property, as `char::is_whitespace` tests it.
pub open spec fn spec_is_whitespace(c: char) -> bool {
    c == ' ' || c == '\t' || c == '\n' || c == '\u{b}' || c == '\u{c}' || c == '\r'
        || c == '\u{85}' || c == '\u{a0}' || c == '\u{1680}'
        || ('\u{2000}' <= c && c <= '\u{200a}')
        || c == '\u{2028}' || c == '\u{2029}' || c == '\u{202f}' || c == '\u{205f}'
        || c == '\u{3000}'
}

/// Whether `c` is Unicode whitespace.
pub fn is_whitespace_char(c: char) -> (r: bool)
    ensures
        r == spec_is_whitespace(c),
{
    c == ' ' || c == '\t' || c == '\n' || c == '\u{b}' || c == '\u{c}' || c == '\r'
        || c == '\u{85}' || c == '\u{a0}' || c == '\u{1680}'
        || ('\u{2000}' <= c && c <= '\u{200a}')
        || c == '\u{2028}' || c == '\u{2029}' || c == '\u{202f}' || c == '\u{205f}'
        || c == '\u{3000}'
}

/// Whether every character of `s` is whitespace (true of the empty string).
pub open spec fn spec_all_whitespace(s: Seq<char>) -> bool {
    forall|i: int| 0 <= i < s.len() ==> spec_is_whitespace(s[i])
}

/// Whether the string is empty after trimming whitespace from both ends.
pub fn is_all_whitespace(s: &str) -> (r: bool)
    ensures
        r == spec_all_whitespace(s@),
{
    let n = s.unicode_len();
    let mut i: usize = 0;
    while i < n
        invariant
            n == s@.len(),
            i <= n,
            forall|j: int| 0 <= j < i ==> spec_is_whitespace(s@[j]),
        decreases n - i,
    {
        if !is_whitespace_char(s.get_char(i)) {
            return false;
        }
        i += 1;
    }
    true
}

/// The numeric value of a decimal digit character.
pub open spec fn spec_digit(c: char) -> nat {
    (c as nat - '0' as nat) as nat
}

/// Whether `c` is an ASCII decimal digit.
pub open spec fn spec_is_digit(c: char) -> bool {
    '0' <= c && c <= '9'
}

/// Whether every character of `s` is a decimal digit.
pub open spec fn spec_all_digits(s: Seq<char>) -> bool {
    forall|i: int| 0 <= i < s.len() ==> spec_is_digit(s[i])
}

/// The value of a digit string read in base ten.
pub open spec fn spec_digits_value(s: Seq<char>) -> nat
    decreases s.len(),
{
    if s.len() == 0 {
        0
    } else {
        spec_digits_value(s.drop_last()) * 10 + spec_digit(s.last())
    }
}

/// The unbounded value of `s` read as `str::parse` reads an unsigned integer:
/// an optional leading `+`, then at least one decimal digit.
pub open spec fn spec_parse_uint(s: Seq<char>) -> Option<nat> {
    let body = if s.len() > 0 && s[0] == '+' {
        s.drop_first()
    } else {
        s
    };
    if body.len() > 0 && spec_all_digits(body) {
        Some(spec_digits_value(body))
    } else {
        None
    }
}

/// A longer digit string never has a smaller value.
proof fn lemma_digits_value_prefix(s: Seq<char>, i: int)
    requires
        0 <= i <= s.len(),
    ensures
        spec_digits_value(s.take(i)) <= spec_digits_value(s),
    decreases s.len() - i,
{
    if i < s.len() {
        lemma_digits_value_prefix(s, i + 1);
        assert(s.take(i + 1).drop_last() =~= s.take(i));
        assert(s.take(i + 1).last() == s[i]);
        assert(spec_digits_value(s.take(i)) <= spec_digits_value(s.take(i + 1)));
    } else {
        assert(s.take(i) =~= s);
    }
}

/// Parse the digit characters of `s` starting at `from`, with the value capped
/// at `u64::MAX`: the result of `str::parse::<u64>` on `s[from..]` when that
/// suffix is all digits.
fn parse_digits_u64(s: &str, from: usize) -> (r: Option<u64>)
    requires
        from <= s@.len(),
    ensures
        ({
            let body = s@.skip(from as int);
            match r {
                Some(v) => body.len() > 0 && spec_all_digits(body) && spec_digits_value(body) == v,
                None => body.len() == 0 || !spec_all_digits(body) || spec_digits_value(body)
                    > u64::MAX,
            }
        }),
{
    let n = s.unicode_len();
    let ghost body = s@.skip(from as int);
    if from == n {
        return None;
    }
    let mut acc: u64 = 0;
    let mut i: usize = from;
    while i < n
        invariant
            n == s@.len(),
            from <= i <= n,
            body == s@.skip(from as int),
            spec_all_digits(body.take(i - from)),
            acc == spec_digits_value(body.take(i - from)),
        decreases n - i,
    {
        let c = s.get_char(i);
        if c < '0' || c > '9' {
            proof {
                assert(body[i - from] == s@[i as int]);
                assert(!spec_is_digit(body[i - from]));
            }
            return None;
        }
        let d: u64 = (c as u32 as u64) - ('0' as u32 as u64);
        proof {
            assert(body.take(i - from + 1).drop_last() =~= body.take(i - from));
            assert(body.take(i - from + 1).last() == s@[i as int]);
        }
        let next = match acc.checked_mul(10) {
            Some(m) => m.checked_add(d),
            None => None,
        };
        match next {
            Some(v) => {
                acc = v;
            },
            None => {
                proof {
                    assert(spec_digits_value(body.take(i - from + 1)) > u64::MAX);
                    lemma_digits_value_prefix(body, i - from + 1);
                }
                return None;
            },
        }
        i += 1;
    }
    proof {
        assert(body.take(n - from) =~= body);
    }
    Some(acc)
}

/// The result of `str::parse::<u64>` on `s`, with errors collapsed to `None`:
/// `Some` exactly when the string is an optional `+` followed by one or more
/// digits whose value fits in a `u64`.
pub fn parse_u64(s: &str) -> (r: Option<u64>)
    ensures
        match r {
            Some(v) => spec_parse_uint(s@) == Some(v as nat) && v <= u64::MAX,
            None => match spec_parse_uint(s@) {
                Some(v) => v > u64::MAX,
                None => true,
            },
        },
{
    let n = s.unicode_len();
    let from: usize = if n > 0 && s.get_char(0) == '+' {
        1
    } else {
        0
    };
    let ghost body = if s@.len() > 0 && s@[0] == '+' {
        s@.drop_first()
    } else {
        s@
    };
    proof {
        assert(body =~= s@.skip(from as int));
    }
    parse_digits_u64(s, from)
}

/// The result of `str::parse::<u32>` on `s`, with errors collapsed to `None`.
pub fn parse_u32(s: &str) -> (r: Option<u32>)
    ensures
        match r {
            Some(v) => spec_parse_uint(s@) == Some(v as nat) && v <= u32::MAX,
            None => match spec_parse_uint(s@) {
                Some(v) => v > u32::MAX,
                None => true,
            },
        },
{
    match parse_u64(s) {
        Some(v) => {
            if v <= u32::MAX as u64 {
                Some(v as u32)
            } else {
                None
            }
        },
        None => None,
    }
}

/// The result of `str::parse::<bool>` on `s`, with errors collapsed to `None`.
pub open spec fn spec_parse_bool(s: Seq<char>) -> Option<bool> {
    if s == "true"@ {
        Some(true)
    } else if s == "false"@ {
        Some(false)
    } else {
        None
    }
}

/// Parse `"true"` or `"false"`.
pub fn parse_bool(s: &str) -> (r: Option<bool>)
    ensures
        r == spec_parse_bool(s@),
{
    if str_eq(s, "true") {
        Some(true)
    } else if str_eq(s, "false") {
        Some(false)
    } else {
        None
    }
}

/// `s` with every leading `open` character and every trailing `close`
/// character removed, as `trim_start_matches(open)` followed by
/// `trim_end_matches(close)` strips them.
pub open spec fn spec_strip_brackets(s: Seq<char>, open: char, close: char) -> Seq<char> {
    let from = spec_leading_count(s, open);
    let kept = s.skip(from);
    kept.take(kept.len() - spec_trailing_count(kept, close))
}

/// How many copies of `c` start the string.
pub open spec fn spec_leading_count(s: Seq<char>, c: char) -> int
    decreases s.len(),
{
    if s.len() == 0 || s[0] != c {
        0
    } else {
        1 + spec_leading_count(s.drop_first(), c)
    }
}

/// How many copies of `c` end the string.
pub open spec fn spec_trailing_count(s: Seq<char>, c: char) -> int
    decreases s.len(),
{
    if s.len() == 0 || s.last() != c {
        0
    } else {
        1 + spec_trailing_count(s.drop_last(), c)
    }
}

proof fn lemma_leading_count_bounds(s: Seq<char>, c: char)
    ensures
        0 <= spec_leading_count(s, c) <= s.len(),
        forall|j: int| 0 <= j < spec_leading_count(s, c) ==> s[j] == c,
        spec_leading_count(s, c) < s.len() ==> s[spec_leading_count(s, c)] != c,
    decreases s.len(),
{
    if s.len() > 0 && s[0] == c {
        lemma_leading_count_bounds(s.drop_first(), c);
        assert forall|j: int| 0 <= j < spec_leading_count(s, c) implies s[j] == c by {
            if j > 0 {
                assert(s.drop_first()[j - 1] == s[j]);
            }
        }
    }
}

proof fn lemma_trailing_count_bounds(s: Seq<char>, c: char)
    ensures
        0 <= spec_trailing_count(s, c) <= s.len(),
        forall|j: int| s.len() - spec_trailing_count(s, c) <= j < s.len() ==> s[j] == c,
        spec_trailing_count(s, c) > 0 ==> s.len() > 0,
        s.len() - spec_trailing_count(s, c) - 1 >= 0 ==> s[s.len() - spec_trailing_count(s, c)
            - 1] != c || spec_trailing_count(s, c) == s.len(),
    decreases s.len(),
{
    if s.len() > 0 && s.last() == c {
        lemma_trailing_count_bounds(s.drop_last(), c);
        assert forall|j: int|
            s.len() - spec_trailing_count(s, c) <= j < s.len() implies s[j] == c by {
            if j < s.len() - 1 {
                assert(s.drop_last()[j] == s[j]);
            }
        }
    }
}

/// The first index at or after `from` whose character is not `c`, or the
/// length of the string.
fn scan_while(s: &str, from: usize, c: char) -> (r: usize)
    requires
        from <= s@.len(),
    ensures
        from <= r <= s@.len(),
        forall|j: int| from <= j < r ==> s@[j] == c,
        r < s@.len() ==> s@[r as int] != c,
{
    let n = s.unicode_len();
    let mut i: usize = from;
    while i < n
        invariant
            n == s@.len(),
            from <= i <= n,
            forall|j: int| from <= j < i ==> s@[j] == c,
        decreases n - i,
    {
        if s.get_char(i) != c {
            return i;
        }
        i += 1;
    }
    i
}

/// The last index at or before `to` such that the character before it is not
/// `c`, or `from`.
fn scan_back_while(s: &str, from: usize, to: usize, c: char) -> (r: usize)
    requires
        from <= to <= s@.len(),
    ensures
        from <= r <= to,
        forall|j: int| r <= j < to ==> s@[j] == c,
        r > from ==> s@[r - 1] != c,
{
    let mut i: usize = to;
    while i > from
        invariant
            from <= i <= to <= s@.len(),
            forall|j: int| i <= j < to ==> s@[j] == c,
        decreases i,
    {
        if s.get_char(i - 1) != c {
            return i;
        }
        i -= 1;
    }
    i
}

/// `s` with all leading `[` and, after that, all trailing `]` removed: the
/// value of `s.trim_start_matches('[').trim_end_matches(']')`.
pub fn strip_brackets<'a>(s: &'a str) -> (r: &'a str)
    ensures
        r@ == spec_strip_brackets(s@, '[', ']'),
{
    let n = s.unicode_len();
    let from = scan_while(s, 0, '[');
    let to = scan_back_while(s, from, n, ']');
    proof {
        lemma_leading_count_bounds(s@, '[');
        assert(spec_leading_count(s@, '[') == from as int) by {
            lemma_scan_matches_leading(s@, '[', from as int);
        }
        let kept = s@.skip(from as int);
        lemma_trailing_count_bounds(kept, ']');
        assert(spec_trailing_count(kept, ']') == kept.len() - (to - from)) by {
            lemma_scan_matches_trailing(kept, ']', to as int - from as int);
        }
        assert(kept.take(to - from) =~= s@.subrange(from as int, to as int));
    }
    s.substring_char(from, to)
}

/// A block of `c` of the observed length starting the string pins down the
/// leading count.
proof fn lemma_scan_matches_leading(s: Seq<char>, c: char, r: int)
    requires
        0 <= r <= s.len(),
        forall|j: int| 0 <= j < r ==> s[j] == c,
        r < s.len() ==> s[r] != c,
    ensures
        spec_leading_count(s, c) == r,
    decreases s.len(),
{
    if s.len() > 0 && s[0] == c {
        assert(r > 0);
        lemma_scan_matches_leading(s.drop_first(), c, r - 1);
    }
}

/// A block of `c` of the observed length ending the string pins down the
/// trailing count.
proof fn lemma_scan_matches_trailing(s: Seq<char>, c: char, r: int)
    requires
        0 <= r <= s.len(),
        forall|j: int| r <= j < s.len() ==> s[j] == c,
        r > 0 ==> s[r - 1] != c,
    ensures
        spec_trailing_count(s, c) == s.len() - r,
    decreases s.len(),
{
    if s.len() > 0 && s.last() == c {
        assert(r < s.len());
        lemma_scan_matches_trailing(s.drop_last(), c, r);
    }
}

} // verus!
