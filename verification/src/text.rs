//! Text helpers over character sequences: Unicode white space, trimming,
//! line splitting, prefix stripping, decimal numbers and line-ending
//! normalisation.
use vstd::prelude::*;

verus! {

/// The characters of `s`, in order.
#[verifier::external_body]
pub(crate) fn chars_of(s: &str) -> (r: Vec<char>)
    ensures
        r@ == s@,
{
    s.chars().collect()
}

/// A string made of the characters `chars`, in order.
#[verifier::external_body]
pub(crate) fn string_of(chars: &[char]) -> (r: String)
    ensures
        r@ == chars@,
{
    chars.iter().collect()
}

/// Appends one character (`String::push`).
#[verifier::external_body]
pub(crate) fn push_char(s: &mut String, c: char)
    ensures
        final(s)@ == old(s)@.push(c),
{
    s.push(c)
}

/// Unicode's `White_Space` property, as `char::is_whitespace` documents it.
pub open spec fn spec_is_whitespace(c: char) -> bool {
    ||| '\t' <= c <= '\r'
    ||| c == ' '
    ||| c == '\u{85}'
    ||| c == '\u{A0}'
    ||| c == '\u{1680}'
    ||| '\u{2000}' <= c <= '\u{200A}'
    ||| c == '\u{2028}'
    ||| c == '\u{2029}'
    ||| c == '\u{202F}'
    ||| c == '\u{205F}'
    ||| c == '\u{3000}'
}

pub fn is_whitespace(c: char) -> (r: bool)
    ensures
        r == spec_is_whitespace(c),
{
    ('\t' <= c && c <= '\r') || c == ' ' || c == '\u{85}' || c == '\u{A0}' || c == '\u{1680}' || (
    '\u{2000}' <= c && c <= '\u{200A}') || c == '\u{2028}' || c == '\u{2029}' || c == '\u{202F}'
        || c == '\u{205F}' || c == '\u{3000}'
}

pub open spec fn spec_trim_start(s: Seq<char>) -> Seq<char>
    decreases s.len(),
{
    if s.len() > 0 && spec_is_whitespace(s[0]) {
        spec_trim_start(s.skip(1))
    } else {
        s
    }
}

pub open spec fn spec_trim_end(s: Seq<char>) -> Seq<char>
    decreases s.len(),
{
    if s.len() > 0 && spec_is_whitespace(s.last()) {
        spec_trim_end(s.drop_last())
    } else {
        s
    }
}

/// `s` without leading and trailing white space (as `str::trim`).
pub open spec fn spec_trim(s: Seq<char>) -> Seq<char> {
    spec_trim_end(spec_trim_start(s))
}

pub proof fn lemma_trim_start_skip(s: Seq<char>, i: int)
    requires
        0 <= i <= s.len(),
        forall|j: int| 0 <= j < i ==> spec_is_whitespace(s[j]),
        i == s.len() || !spec_is_whitespace(s[i]),
    ensures
        spec_trim_start(s) == s.skip(i),
    decreases i,
{
    if i == 0 {
        assert(s.skip(0) =~= s);
    } else {
        lemma_trim_start_skip(s.skip(1), i - 1);
        assert(s.skip(1).skip(i - 1) =~= s.skip(i));
    }
}

pub proof fn lemma_trim_end_take(s: Seq<char>, k: int)
    requires
        0 <= k <= s.len(),
        forall|j: int| k <= j < s.len() ==> spec_is_whitespace(s[j]),
        k == 0 || !spec_is_whitespace(s[k - 1]),
    ensures
        spec_trim_end(s) == s.take(k),
    decreases s.len() - k,
{
    if k == s.len() {
        assert(s.take(k) =~= s);
    } else {
        lemma_trim_end_take(s.drop_last(), k);
        assert(s.drop_last().take(k) =~= s.take(k));
    }
}

/// `s` without leading and trailing white space.
pub fn trim(s: &[char]) -> (r: Vec<char>)
    ensures
        r@ == spec_trim(s@),
{
    let n = s.len();
    let mut i: usize = 0;
    while i < n && is_whitespace(s[i])
        invariant
            i <= n,
            n == s@.len(),
            forall|j: int| 0 <= j < i ==> spec_is_whitespace(s@[j]),
        decreases n - i,
    {
        i = i + 1;
    }
    proof {
        lemma_trim_start_skip(s@, i as int);
    }
    let mut k: usize = n;
    while k > i && is_whitespace(s[k - 1])
        invariant
            i <= k <= n,
            n == s@.len(),
            forall|j: int| k <= j < n ==> spec_is_whitespace(s@[j]),
        decreases k,
    {
        k = k - 1;
    }
    let ghost t = s@.skip(i as int);
    proof {
        assert forall|j: int| k - i <= j < t.len() implies spec_is_whitespace(t[j]) by {
            assert(t[j] == s@[j + i]);
        }
        if k > i {
            assert(t[k - i - 1] == s@[k - 1]);
        }
        lemma_trim_end_take(t, k - i);
    }
    let mut r: Vec<char> = Vec::new();
    let mut q: usize = i;
    while q < k
        invariant
            i <= q <= k <= n,
            n == s@.len(),
            r@ == s@.subrange(i as int, q as int),
        decreases k - q,
    {
        r.push(s[q]);
        q = q + 1;
    }
    assert(r@ =~= t.take(k - i));
    r
}

/// `line` without one trailing carriage return.
pub open spec fn strip_cr(line: Seq<char>) -> Seq<char> {
    if line.len() > 0 && line.last() == '\r' {
        line.drop_last()
    } else {
        line
    }
}

/// The index of the first `\n` at or after `from`, or the length of `s`.
pub open spec fn newline_index(s: Seq<char>, from: int) -> int
    decreases s.len() - from,
{
    if from >= s.len() {
        s.len() as int
    } else if s[from] == '\n' {
        from
    } else {
        newline_index(s, from + 1)
    }
}

/// The lines of `s` from index `start` on; see `spec_lines`.
pub open spec fn spec_lines_from(s: Seq<char>, start: int) -> Seq<Seq<char>>
    decreases s.len() - start,
{
    if start < 0 || start >= s.len() {
        Seq::empty()
    } else {
        let e = newline_index(s, start);
        let e = if e < start {
            start
        } else {
            e
        };
        if e >= s.len() {
            seq![s.subrange(start, s.len() as int)]
        } else {
            seq![strip_cr(s.subrange(start, e))] + spec_lines_from(s, e + 1)
        }
    }
}

/// The lines of `s` as `str::lines` yields them: split after each `\n`,
/// the `\n` and then one `\r` before it removed; a last line without `\n`
/// is kept as it is, and no empty line follows a final `\n`.
pub open spec fn spec_lines(s: Seq<char>) -> Seq<Seq<char>> {
    spec_lines_from(s, 0)
}

proof fn lemma_newline_index(s: Seq<char>, from: int, i: int)
    requires
        0 <= from <= i <= s.len(),
        forall|j: int| from <= j < i ==> s[j] != '\n',
        i == s.len() || s[i] == '\n',
    ensures
        newline_index(s, from) == i,
    decreases i - from,
{
    if from < i {
        lemma_newline_index(s, from + 1, i);
    }
}

proof fn lemma_newline_index_bounds(s: Seq<char>, from: int)
    requires
        0 <= from <= s.len(),
    ensures
        from <= newline_index(s, from) <= s.len(),
    decreases s.len() - from,
{
    if from < s.len() && s[from] != '\n' {
        lemma_newline_index_bounds(s, from + 1);
    }
}

proof fn lemma_newline_index_shift(p: Seq<char>, s: Seq<char>, i: int)
    requires
        0 <= i,
    ensures
        newline_index(p + s, p.len() + i) == p.len() + newline_index(s, i),
    decreases s.len() - i,
{
    if i < s.len() {
        assert((p + s)[p.len() + i] == s[i]);
        if s[i] != '\n' {
            lemma_newline_index_shift(p, s, i + 1);
        }
    }
}

proof fn lemma_lines_from_shift(p: Seq<char>, s: Seq<char>, i: int)
    requires
        0 <= i,
    ensures
        spec_lines_from(p + s, p.len() + i) == spec_lines_from(s, i),
    decreases s.len() - i,
{
    let t = p + s;
    if i < s.len() {
        lemma_newline_index_shift(p, s, i);
        lemma_newline_index_bounds(s, i);
        let e = newline_index(s, i);
        if e < s.len() {
            lemma_lines_from_shift(p, s, e + 1);
            assert(t.subrange(p.len() + i, p.len() + e) =~= s.subrange(i, e));
        } else {
            assert(t.subrange(p.len() + i, t.len() as int) =~= s.subrange(i, s.len() as int));
        }
    }
}

/// A line without `\n`, a `\n` and more text: the line comes first.
pub proof fn lemma_lines_cons(a: Seq<char>, b: Seq<char>)
    requires
        forall|j: int| 0 <= j < a.len() ==> a[j] != '\n',
    ensures
        spec_lines(a + seq!['\n'] + b) == seq![strip_cr(a)] + spec_lines(b),
{
    let s = a + seq!['\n'] + b;
    lemma_newline_index(s, 0, a.len() as int);
    assert(s.subrange(0, a.len() as int) =~= a);
    lemma_lines_from_shift(a + seq!['\n'], b, 0);
}

proof fn lemma_trim_start_len(s: Seq<char>)
    ensures
        spec_trim_start(s).len() <= s.len(),
        s.len() > 0 && spec_is_whitespace(s[0]) ==> spec_trim_start(s).len() < s.len(),
    decreases s.len(),
{
    if s.len() > 0 && spec_is_whitespace(s[0]) {
        lemma_trim_start_len(s.skip(1));
    }
}

proof fn lemma_trim_end_len(s: Seq<char>)
    ensures
        spec_trim_end(s).len() <= s.len(),
        s.len() > 0 && spec_is_whitespace(s.last()) ==> spec_trim_end(s).len() < s.len(),
    decreases s.len(),
{
    if s.len() > 0 && spec_is_whitespace(s.last()) {
        lemma_trim_end_len(s.drop_last());
    }
}

/// Text that trimming leaves alone neither starts nor ends with white
/// space.
pub proof fn lemma_trimmed_ends(s: Seq<char>)
    requires
        spec_trim(s) == s,
        s.len() > 0,
    ensures
        !spec_is_whitespace(s[0]),
        !spec_is_whitespace(s.last()),
{
    lemma_trim_start_len(s);
    lemma_trim_end_len(spec_trim_start(s));
    if !spec_is_whitespace(s[0]) {
        assert(spec_trim_start(s) == s);
        lemma_trim_end_len(s);
    }
}

/// Trimming text after a space trims the text.
pub proof fn lemma_trim_after_space(v: Seq<char>)
    ensures
        spec_trim(seq![' '] + v) == spec_trim(v),
{
    assert((seq![' '] + v).skip(1) =~= v);
}

/// Text without white space is its own trim.
pub proof fn lemma_trim_none(s: Seq<char>)
    requires
        forall|j: int| 0 <= j < s.len() ==> !spec_is_whitespace(s[j]),
    ensures
        spec_trim(s) == s,
{
    lemma_trim_start_skip(s, 0);
    assert(s.skip(0) =~= s);
    lemma_trim_end_take(s, s.len() as int);
    assert(s.take(s.len() as int) =~= s);
}

/// The first line of `s` starting at `start` and where the next one starts.
fn next_line(s: &[char], start: usize) -> (r: (Vec<char>, usize))
    requires
        start < s@.len(),
    ensures
        start < r.1 <= s@.len(),
        spec_lines_from(s@, start as int) == seq![r.0@] + spec_lines_from(s@, r.1 as int),
{
    let n = s.len();
    let mut i: usize = start;
    while i < n && s[i] != '\n'
        invariant
            start <= i <= n,
            n == s@.len(),
            forall|j: int| start <= j < i ==> s@[j] != '\n',
        decreases n - i,
    {
        i = i + 1;
    }
    proof {
        lemma_newline_index(s@, start as int, i as int);
    }
    let mut line: Vec<char> = Vec::new();
    let mut q: usize = start;
    while q < i
        invariant
            start <= q <= i <= n,
            n == s@.len(),
            line@ == s@.subrange(start as int, q as int),
        decreases i - q,
    {
        line.push(s[q]);
        q = q + 1;
    }
    if i == n {
        proof {
            assert(spec_lines_from(s@, n as int) =~= Seq::<Seq<char>>::empty());
            assert(seq![line@] + Seq::<Seq<char>>::empty() =~= seq![line@]);
        }
        (line, n)
    } else {
        let has_cr = line.len() > 0 && line[line.len() - 1] == '\r';
        if has_cr {
            line.pop();
        }
        proof {
            assert(line@ == strip_cr(s@.subrange(start as int, i as int)));
        }
        (line, i + 1)
    }
}

/// The lines of `s` (as `str::lines`).
pub fn lines(s: &[char]) -> (r: Vec<Vec<char>>)
    ensures
        r@.map_values(|l: Vec<char>| l@) == spec_lines(s@),
{
    let n = s.len();
    let mut r: Vec<Vec<char>> = Vec::new();
    let mut pos: usize = 0;
    while pos < n
        invariant
            pos <= n,
            n == s@.len(),
            spec_lines(s@) == r@.map_values(|l: Vec<char>| l@) + spec_lines_from(s@, pos as int),
        decreases n - pos,
    {
        let (line, next) = next_line(s, pos);
        proof {
            let old_r = r@.map_values(|l: Vec<char>| l@);
            assert(old_r.push(line@) =~= (r@.push(line)).map_values(|l: Vec<char>| l@));
            assert(old_r + (seq![line@] + spec_lines_from(s@, next as int)) =~= old_r.push(line@)
                + spec_lines_from(s@, next as int));
        }
        r.push(line);
        pos = next;
    }
    proof {
        assert(spec_lines_from(s@, n as int) =~= Seq::<Seq<char>>::empty());
        let rv = r@.map_values(|l: Vec<char>| l@);
        assert(rv + Seq::<Seq<char>>::empty() =~= rv);
    }
    r
}

/// `s` without `prefix` when it starts with it (as `str::strip_prefix`).
pub open spec fn spec_strip_prefix(s: Seq<char>, prefix: Seq<char>) -> Option<Seq<char>> {
    if prefix.len() <= s.len() && s.take(prefix.len() as int) == prefix {
        Some(s.skip(prefix.len() as int))
    } else {
        None
    }
}

pub fn strip_prefix(s: &[char], prefix: &str) -> (r: Option<Vec<char>>)
    ensures
        r matches Some(v) ==> spec_strip_prefix(s@, prefix@) == Some(v@),
        r is None <==> spec_strip_prefix(s@, prefix@) is None,
{
    let p = chars_of(prefix);
    let m = p.len();
    if m > s.len() {
        return None;
    }
    let mut i: usize = 0;
    while i < m
        invariant
            i <= m <= s@.len(),
            m == p@.len(),
            p@ == prefix@,
            forall|j: int| 0 <= j < i ==> s@[j] == p@[j],
        decreases m - i,
    {
        if s[i] != p[i] {
            assert(s@.take(m as int)[i as int] != prefix@[i as int]);
            return None;
        }
        i = i + 1;
    }
    assert(s@.take(m as int) =~= prefix@);
    let mut r: Vec<char> = Vec::new();
    let mut q: usize = m;
    while q < s.len()
        invariant
            m <= q <= s@.len(),
            r@ == s@.subrange(m as int, q as int),
        decreases s@.len() - q,
    {
        r.push(s[q]);
        q = q + 1;
    }
    assert(r@ =~= s@.skip(m as int));
    Some(r)
}

/// The ASCII digit for `d < 10`.
pub open spec fn digit_char(d: nat) -> char {
    (48 + d) as char
}

/// The value of an ASCII digit.
pub open spec fn digit_value(c: char) -> nat {
    if '0' <= c <= '9' {
        (c as int - 48) as nat
    } else {
        0
    }
}

/// The decimal digits of `n`, most significant first, without leading zeros.
pub open spec fn decimal_digits(n: nat) -> Seq<char>
    decreases n,
{
    if n < 10 {
        seq![digit_char(n)]
    } else {
        decimal_digits(n / 10).push(digit_char(n % 10))
    }
}

/// Appends the decimal form of `n` to `s`.
pub fn push_decimal(s: &mut String, n: usize)
    ensures
        final(s)@ == old(s)@ + decimal_digits(n as nat),
    decreases n,
{
    if n >= 10 {
        push_decimal(s, n / 10);
    }
    let d = (n % 10) as u8;
    let c = (48u8 + d) as char;
    assert(c == digit_char((n % 10) as nat));
    push_char(s, c);
    proof {
        if n < 10 {
            assert(old(s)@.push(c) =~= old(s)@ + seq![c]);
        } else {
            assert((old(s)@ + decimal_digits((n / 10) as nat)).push(c) =~= old(s)@
                + decimal_digits((n / 10) as nat).push(c));
        }
    }
}

pub open spec fn is_ascii_digit(c: char) -> bool {
    '0' <= c <= '9'
}

/// The value of a string of decimal digits.
pub open spec fn decimal_value(s: Seq<char>) -> nat
    decreases s.len(),
{
    if s.len() == 0 {
        0
    } else {
        decimal_value(s.drop_last()) * 10 + digit_value(s.last())
    }
}

pub open spec fn all_digits(s: Seq<char>) -> bool {
    forall|i: int| 0 <= i < s.len() ==> is_ascii_digit(#[trigger] s[i])
}

/// What `str::parse::<usize>` reads from `s`: an optional `+` and then at
/// least one ASCII digit, whose value fits in `usize`.
pub open spec fn spec_parse_usize(s: Seq<char>) -> Option<usize> {
    let digits = if s.len() > 0 && s[0] == '+' {
        s.skip(1)
    } else {
        s
    };
    if digits.len() > 0 && all_digits(digits) && decimal_value(digits) <= usize::MAX {
        Some(decimal_value(digits) as usize)
    } else {
        None
    }
}

proof fn lemma_decimal_value_step(s: Seq<char>, i: int)
    requires
        0 <= i < s.len(),
    ensures
        decimal_value(s.take(i + 1)) == decimal_value(s.take(i)) * 10 + digit_value(s[i]),
{
    assert(s.take(i + 1).drop_last() =~= s.take(i));
}

/// Reads a `usize` from `s` (as `str::parse::<usize>`).
pub fn parse_usize(s: &[char]) -> (r: Option<usize>)
    ensures
        r == spec_parse_usize(s@),
{
    let n = s.len();
    let start: usize = if n > 0 && s[0] == '+' {
        1
    } else {
        0
    };
    let ghost digits = if s@.len() > 0 && s@[0] == '+' {
        s@.skip(1)
    } else {
        s@
    };
    assert(digits =~= s@.skip(start as int));
    assert(spec_parse_usize(s@) == (if digits.len() > 0 && all_digits(digits) && decimal_value(digits)
        <= usize::MAX {
        Some(decimal_value(digits) as usize)
    } else {
        None
    }));
    if start >= n {
        assert(digits.len() == 0);
        return None;
    }
    let mut value: usize = 0;
    let mut i: usize = start;
    while i < n
        invariant
            start <= i <= n,
            n == s@.len(),
            digits == s@.skip(start as int),
            spec_parse_usize(s@) == (if digits.len() > 0 && all_digits(digits) && decimal_value(
                digits,
            ) <= usize::MAX {
                Some(decimal_value(digits) as usize)
            } else {
                None
            }),
            all_digits(digits.take(i - start)),
            value as nat == decimal_value(digits.take(i - start)),
        decreases n - i,
    {
        let c = s[i];
        proof {
            assert(digits[i - start] == c);
            lemma_decimal_value_step(digits, i - start);
        }
        if !('0' <= c && c <= '9') {
            assert(!is_ascii_digit(digits[i - start]));
            assert(!all_digits(digits));
            return None;
        }
        let d = (c as u32 - '0' as u32) as usize;
        assert(d == digit_value(c));
        proof {
            assert forall|q: int| 0 <= q < i - start + 1 implies is_ascii_digit(
                #[trigger] digits.take(i - start + 1)[q],
            ) by {
                if q < i - start {
                    assert(digits.take(i - start)[q] == digits.take(i - start + 1)[q]);
                }
            }
        }
        if value > (usize::MAX - d) / 10 {
            proof {
                assert(decimal_value(digits.take(i - start + 1)) > usize::MAX) by (nonlinear_arith)
                    requires
                        value > (usize::MAX - d) / 10,
                        decimal_value(digits.take(i - start + 1)) == value * 10 + d,
                        d <= 9,
                ;
                lemma_decimal_value_monotone(digits, i - start + 1);
                if all_digits(digits) {
                    assert(decimal_value(digits) > usize::MAX);
                }
                assert(spec_parse_usize(s@) is None);
            }
            return None;
        }
        proof {
            assert(value * 10 + d <= usize::MAX) by (nonlinear_arith)
                requires
                    value <= (usize::MAX - d) / 10,
                    d <= 9,
            ;
        }
        value = value * 10 + d;
        i = i + 1;
    }
    assert(digits.take(n - start) =~= digits);
    Some(value)
}

proof fn lemma_decimal_value_monotone(s: Seq<char>, k: int)
    requires
        0 <= k <= s.len(),
        all_digits(s.take(k)),
    ensures
        all_digits(s) ==> decimal_value(s) >= decimal_value(s.take(k)),
    decreases s.len() - k,
{
    if k < s.len() && all_digits(s) {
        assert(all_digits(s.take(k + 1)));
        lemma_decimal_value_monotone(s, k + 1);
        lemma_decimal_value_step(s, k);
    } else if k == s.len() {
        assert(s.take(k) =~= s);
    }
}

/// Decimal digits read back give the number they were written from.
pub proof fn lemma_decimal_round_trip(n: nat)
    ensures
        all_digits(decimal_digits(n)),
        decimal_digits(n).len() > 0,
        decimal_value(decimal_digits(n)) == n,
        decimal_digits(n)[0] != '+',
    decreases n,
{
    if n >= 10 {
        lemma_decimal_round_trip(n / 10);
        let d = decimal_digits(n);
        assert(d.drop_last() =~= decimal_digits(n / 10));
        assert(d[0] == decimal_digits(n / 10)[0]);
        assert(d.last() == digit_char(n % 10));
        assert(digit_char(n % 10) as int == 48 + n % 10);
        assert(digit_value(d.last()) == n % 10);
        assert(decimal_value(d) == decimal_value(d.drop_last()) * 10 + digit_value(d.last()));
        assert(n == (n / 10) * 10 + n % 10);
        assert(decimal_value(d.drop_last()) == n / 10);
        assert(decimal_value(d) == n);
    } else {
        let d = decimal_digits(n);
        assert(d.drop_last() =~= Seq::<char>::empty());
        assert(decimal_value(Seq::<char>::empty()) == 0);
        assert(digit_char(n) as int == 48 + n);
        assert(digit_value(d.last()) == n);
        assert(decimal_value(d) == decimal_value(d.drop_last()) * 10 + digit_value(d.last()));
        assert(decimal_value(d) == n);
    }
}

/// `s` with every `\r\n` turned into `\n`.
pub open spec fn spec_crlf_to_lf(s: Seq<char>) -> Seq<char>
    decreases s.len(),
{
    if s.len() == 0 {
        s
    } else if s.len() >= 2 && s[0] == '\r' && s[1] == '\n' {
        seq!['\n'] + spec_crlf_to_lf(s.skip(2))
    } else {
        seq![s[0]] + spec_crlf_to_lf(s.skip(1))
    }
}

/// `s` with every `\r\n` turned into `\n` (as `str::replace("\r\n", "\n")`).
pub fn crlf_to_lf(s: &[char]) -> (r: Vec<char>)
    ensures
        r@ == spec_crlf_to_lf(s@),
{
    let n = s.len();
    let mut r: Vec<char> = Vec::new();
    let mut i: usize = 0;
    assert(s@.skip(0) =~= s@);
    while i < n
        invariant
            i <= n,
            n == s@.len(),
            spec_crlf_to_lf(s@) == r@ + spec_crlf_to_lf(s@.skip(i as int)),
        decreases n - i,
    {
        let ghost t = s@.skip(i as int);
        if i + 1 < n && s[i] == '\r' && s[i + 1] == '\n' {
            proof {
                assert(t[0] == '\r' && t[1] == '\n');
                assert(t.skip(2) =~= s@.skip(i + 2));
                assert(r@ + (seq!['\n'] + spec_crlf_to_lf(t.skip(2))) =~= r@.push('\n')
                    + spec_crlf_to_lf(t.skip(2)));
            }
            r.push('\n');
            i = i + 2;
        } else {
            proof {
                assert(t[0] == s@[i as int]);
                assert(t.skip(1) =~= s@.skip(i + 1));
                assert(r@ + (seq![t[0]] + spec_crlf_to_lf(t.skip(1))) =~= r@.push(t[0])
                    + spec_crlf_to_lf(t.skip(1)));
            }
            r.push(s[i]);
            i = i + 1;
        }
    }
    assert(s@.skip(n as int) =~= Seq::<char>::empty());
    assert(r@ + Seq::<char>::empty() =~= r@);
    r
}

} // verus!
