//! Character-level text handling: whitespace, words, lines, decimal numbers,
//! and the code-point order of strings.
use vstd::prelude::*;

verus! {

/// Contract for std's `String::push`: the character is appended at the end
/// of the string, as the function's documentation says; nothing else changes.
pub assume_specification[ std::string::String::push ](s: &mut String, ch: char)
    ensures
        final(s)@ == old(s)@.push(ch),
;

// ---------------------------------------------------------------------------
// Whitespace
// ---------------------------------------------------------------------------

/// The Unicode `White_Space` property, the set of characters that
/// `char::is_whitespace` accepts.
pub open spec fn is_white(c: char) -> bool {
    let n = c as u32;
    ||| 9 <= n <= 13
    ||| n == 32
    ||| n == 0x85
    ||| n == 0xA0
    ||| n == 0x1680
    ||| 0x2000 <= n <= 0x200A
    ||| n == 0x2028
    ||| n == 0x2029
    ||| n == 0x202F
    ||| n == 0x205F
    ||| n == 0x3000
}

pub fn is_whitespace(c: char) -> (r: bool)
    ensures
        r == is_white(c),
{
    let n = c as u32;
    (9 <= n && n <= 13) || n == 32 || n == 0x85 || n == 0xA0 || n == 0x1680 || (0x2000 <= n && n
        <= 0x200A) || n == 0x2028 || n == 0x2029 || n == 0x202F || n == 0x205F || n == 0x3000
}

/// The characters of `s`, in order.
pub fn chars_of(s: &str) -> (out: Vec<char>)
    ensures
        out@ == s@,
{
    let mut out: Vec<char> = Vec::new();
    for c in it: s.chars()
        invariant
            out@ == it.seq().take(it.index() as int),
            it.seq() == s@,
    {
        out.push(c);
    }
    out
}

/// Appends all of `v` to `s`.
pub fn push_chars(s: &mut String, v: &[char])
    ensures
        final(s)@ == old(s)@ + v@,
{
    let ghost start = s@;
    let mut i: usize = 0;
    while i < v.len()
        invariant
            i <= v@.len(),
            s@ == start + v@.take(i as int),
        decreases v@.len() - i,
    {
        s.push(v[i]);
        i = i + 1;
        assert(v@.take(i as int) == v@.take(i - 1).push(v@[i - 1]));
    }
    assert(v@.take(v@.len() as int) == v@);
}

/// Appends all characters of `t` to `s`.
pub fn push_str(s: &mut String, t: &str)
    ensures
        final(s)@ == old(s)@ + t@,
{
    let cs = chars_of(t);
    push_chars(s, cs.as_slice());
}

// ---------------------------------------------------------------------------
// Words: maximal runs of non-whitespace characters
// ---------------------------------------------------------------------------

/// Length of the leading run of non-whitespace characters.
pub open spec fn word_len(s: Seq<char>) -> nat
    decreases s.len(),
{
    if s.len() == 0 || is_white(s[0]) {
        0
    } else {
        1 + word_len(s.drop_first())
    }
}

pub proof fn lemma_word_len_bound(s: Seq<char>)
    ensures
        word_len(s) <= s.len(),
        s.len() > 0 && !is_white(s[0]) ==> word_len(s) >= 1,
    decreases s.len(),
{
    if s.len() > 0 && !is_white(s[0]) {
        lemma_word_len_bound(s.drop_first());
    }
}

proof fn lemma_word_len_exact(s: Seq<char>, k: int)
    requires
        0 <= k <= s.len(),
        forall|i: int| 0 <= i < k ==> !is_white(#[trigger] s[i]),
        k == s.len() || is_white(s[k]),
    ensures
        word_len(s) == k,
    decreases k,
{
    if k > 0 {
        lemma_word_len_exact(s.drop_first(), k - 1);
    }
}

/// The words of `s`, as `str::split_whitespace` yields them: the maximal
/// runs of characters that are not whitespace, in order.
pub open spec fn words(s: Seq<char>) -> Seq<Seq<char>>
    decreases s.len(),
{
    if s.len() == 0 {
        seq![]
    } else if is_white(s[0]) {
        words(s.drop_first())
    } else {
        proof {
            lemma_word_len_bound(s);
        }
        seq![s.take(word_len(s) as int)] + words(s.skip(word_len(s) as int))
    }
}

/// The views of a vector of character vectors.
pub open spec fn char_vecs_view(v: Seq<Vec<char>>) -> Seq<Seq<char>> {
    v.map_values(|w: Vec<char>| w@)
}

/// The words of `chars[start..end]`.
pub fn split_whitespace(chars: &[char], start: usize, end: usize) -> (out: Vec<Vec<char>>)
    requires
        start <= end <= chars@.len(),
    ensures
        char_vecs_view(out@) == words(chars@.subrange(start as int, end as int)),
{
    let mut out: Vec<Vec<char>> = Vec::new();
    let mut i = start;
    while i < end
        invariant
            start <= i <= end <= chars@.len(),
            words(chars@.subrange(start as int, end as int)) == char_vecs_view(out@) + words(
                chars@.subrange(i as int, end as int),
            ),
        decreases end - i,
    {
        let ghost rest = chars@.subrange(i as int, end as int);
        if is_whitespace(chars[i]) {
            assert(rest.drop_first() == chars@.subrange(i + 1, end as int));
            i = i + 1;
        } else {
            let mut j = i;
            let mut word: Vec<char> = Vec::new();
            while j < end && !is_whitespace(chars[j])
                invariant
                    i <= j <= end <= chars@.len(),
                    word@ == chars@.subrange(i as int, j as int),
                    forall|k: int| i <= k < j ==> !is_white(#[trigger] chars@[k]),
                decreases end - j,
            {
                word.push(chars[j]);
                j = j + 1;
                assert(word@ == chars@.subrange(i as int, j as int));
            }
            proof {
                assert forall|k: int| 0 <= k < j - i implies !is_white(#[trigger] rest[k]) by {
                    assert(rest[k] == chars@[i + k]);
                }
                lemma_word_len_exact(rest, j - i);
                assert(rest.take(j - i) == chars@.subrange(i as int, j as int));
                assert(rest.skip(j - i) == chars@.subrange(j as int, end as int));
                let ghost before = out@;
                assert(char_vecs_view(before.push(word)) == char_vecs_view(before).push(word@));
            }
            out.push(word);
            i = j;
        }
    }
    assert(words(chars@.subrange(end as int, end as int)) == Seq::<Seq<char>>::empty());
    out
}

// ---------------------------------------------------------------------------
// Lines
// ---------------------------------------------------------------------------

/// Length of the leading run of characters other than `'\n'`.
pub open spec fn line_len(s: Seq<char>) -> nat
    decreases s.len(),
{
    if s.len() == 0 || s[0] == '\n' {
        0
    } else {
        1 + line_len(s.drop_first())
    }
}

pub proof fn lemma_line_len_bound(s: Seq<char>)
    ensures
        line_len(s) <= s.len(),
        line_len(s) < s.len() ==> s[line_len(s) as int] == '\n',
    decreases s.len(),
{
    if s.len() > 0 && s[0] != '\n' {
        lemma_line_len_bound(s.drop_first());
    }
}

proof fn lemma_line_len_exact(s: Seq<char>, k: int)
    requires
        0 <= k <= s.len(),
        forall|i: int| 0 <= i < k ==> #[trigger] s[i] != '\n',
        k == s.len() || s[k] == '\n',
    ensures
        line_len(s) == k,
    decreases k,
{
    if k > 0 {
        lemma_line_len_exact(s.drop_first(), k - 1);
    }
}

/// `t` without one trailing carriage return.
pub open spec fn strip_cr(t: Seq<char>) -> Seq<char> {
    if t.len() > 0 && t.last() == '\r' {
        t.drop_last()
    } else {
        t
    }
}

/// The lines of `s`, as `str::lines` yields them: the text is cut at each
/// `'\n'`, a line that ended in `"\r\n"` loses its `'\r'`, and a final
/// empty line after the last `'\n'` is not a line.
pub open spec fn lines(s: Seq<char>) -> Seq<Seq<char>>
    decreases s.len(),
{
    if s.len() == 0 {
        seq![]
    } else {
        proof {
            lemma_line_len_bound(s);
        }
        if line_len(s) == s.len() {
            seq![s]
        } else {
            seq![strip_cr(s.take(line_len(s) as int))] + lines(s.skip(line_len(s) + 1int))
        }
    }
}

/// Where the line that starts at `start` ends: the index of the next `'\n'`
/// at or after `start`, or the length of `chars`.
pub fn line_end(chars: &[char], start: usize) -> (k: usize)
    requires
        start <= chars@.len(),
    ensures
        start <= k <= chars@.len(),
        k - start == line_len(chars@.subrange(start as int, chars@.len() as int)),
        forall|i: int| start <= i < k ==> #[trigger] chars@[i] != '\n',
        k < chars@.len() ==> chars@[k as int] == '\n',
{
    let mut k = start;
    while k < chars.len() && chars[k] != '\n'
        invariant
            start <= k <= chars@.len(),
            forall|i: int| start <= i < k ==> #[trigger] chars@[i] != '\n',
        decreases chars@.len() - k,
    {
        k = k + 1;
    }
    proof {
        let rest = chars@.subrange(start as int, chars@.len() as int);
        assert forall|i: int| 0 <= i < k - start implies #[trigger] rest[i] != '\n' by {
            assert(rest[i] == chars@[start + i]);
        }
        lemma_line_len_exact(rest, k - start);
    }
    k
}

// ---------------------------------------------------------------------------
// Unsigned decimal numbers
// ---------------------------------------------------------------------------

pub open spec fn is_digit(c: char) -> bool {
    48 <= (c as u32) <= 57
}

pub open spec fn digit_value(c: char) -> nat {
    ((c as u32) - 48) as nat
}

pub open spec fn all_digits(s: Seq<char>) -> bool {
    forall|i: int| 0 <= i < s.len() ==> is_digit(#[trigger] s[i])
}

/// The number that a string of decimal digits spells.
pub open spec fn digits_value(s: Seq<char>) -> nat
    decreases s.len(),
{
    if s.len() == 0 {
        0
    } else {
        digits_value(s.drop_last()) * 10 + digit_value(s.last())
    }
}

/// What `str::parse` gives for an unsigned integer type whose largest
/// value is `max`: an optional `'+'`, then one or more ASCII digits, whose
/// value must not exceed `max`.
pub open spec fn parse_unsigned(s: Seq<char>, max: nat) -> Option<nat> {
    if s.len() == 0 {
        None
    } else {
        let ds = if s[0] == '+' {
            s.drop_first()
        } else {
            s
        };
        if ds.len() > 0 && all_digits(ds) && digits_value(ds) <= max {
            Some(digits_value(ds))
        } else {
            None
        }
    }
}

/// `str::parse::<u32>`.
pub open spec fn parse_u32(s: Seq<char>) -> Option<u32> {
    match parse_unsigned(s, 0xFFFF_FFFF) {
        Some(v) => Some(v as u32),
        None => None,
    }
}

/// `str::parse::<u16>`.
pub open spec fn parse_u16(s: Seq<char>) -> Option<u16> {
    match parse_unsigned(s, 0xFFFF) {
        Some(v) => Some(v as u16),
        None => None,
    }
}

proof fn lemma_digits_value_prefix(s: Seq<char>, k: int)
    requires
        0 <= k <= s.len(),
        all_digits(s),
    ensures
        digits_value(s.take(k)) <= digits_value(s),
    decreases s.len(),
{
    if k < s.len() {
        assert(s.drop_last().take(k) == s.take(k));
        lemma_digits_value_prefix(s.drop_last(), k);
    } else {
        assert(s.take(k) == s);
    }
}

/// Parses `s` as an unsigned decimal number not above `max`.
pub fn parse_decimal(s: &[char], max: u32) -> (r: Option<u32>)
    ensures
        match parse_unsigned(s@, max as nat) {
            Some(v) => r == Some(v as u32),
            None => r is None,
        },
{
    if s.len() == 0 {
        return None;
    }
    let first: usize = if s[0] == '+' {
        1
    } else {
        0
    };
    if first == s.len() {
        return None;
    }
    let ghost ds = s@.subrange(first as int, s@.len() as int);
    assert(ds == (if s@[0] == '+' { s@.drop_first() } else { s@ }));
    let mut value: u64 = 0;
    let mut i = first;
    while i < s.len()
        invariant
            first <= i <= s@.len(),
            s@.len() > 0,
            ds == s@.subrange(first as int, s@.len() as int),
            ds == (if s@[0] == '+' { s@.drop_first() } else { s@ }),
            ds.len() > 0,
            all_digits(ds.take(i - first)),
            value == digits_value(ds.take(i - first)),
            value <= max,
        decreases s@.len() - i,
    {
        let c = s[i];
        let n = c as u32;
        if n < 48 || n > 57 {
            assert(!all_digits(ds)) by {
                assert(ds[i - first] == c);
            }
            return None;
        }
        let ghost prefix = ds.take(i - first);
        value = value * 10 + (n - 48) as u64;
        i = i + 1;
        proof {
            let next = ds.take(i - first);
            assert(next.drop_last() == prefix);
            assert(next.last() == c);
            assert(all_digits(next));
        }
        if value > max as u64 {
            proof {
                let next = ds.take(i - first);
                if all_digits(ds) {
                    lemma_digits_value_prefix(ds, i - first);
                }
            }
            return None;
        }
    }
    assert(ds.take(s@.len() - first) == ds);
    Some(value as u32)
}

/// Parses `s` as `str::parse::<u32>` does.
pub fn parse_u32_chars(s: &[char]) -> (r: Option<u32>)
    ensures
        r == parse_u32(s@),
{
    parse_decimal(s, 0xFFFF_FFFF)
}

/// Parses `s` as `str::parse::<u16>` does.
pub fn parse_u16_chars(s: &[char]) -> (r: Option<u16>)
    ensures
        r == parse_u16(s@),
{
    match parse_decimal(s, 0xFFFF) {
        Some(v) => Some(v as u16),
        None => None,
    }
}

/// The decimal digit character for `d < 10`.
pub open spec fn digit_char(d: nat) -> char {
    (48 + d) as char
}

/// The decimal representation of `n`, as `Display` prints an unsigned integer.
pub open spec fn decimal(n: nat) -> Seq<char>
    decreases n,
{
    if n < 10 {
        seq![digit_char(n)]
    } else {
        decimal(n / 10).push(digit_char(n % 10))
    }
}

/// Appends the decimal representation of `n` to `s`.
pub fn push_decimal(s: &mut String, n: u64)
    ensures
        final(s)@ == old(s)@ + decimal(n as nat),
    decreases n,
{
    if n >= 10 {
        push_decimal(s, n / 10);
    }
    let d = (n % 10) as u8;
    let c = (48u8 + d) as char;
    assert(c == digit_char((n % 10) as nat));
    s.push(c);
}

// ---------------------------------------------------------------------------
// Joining, suffixes, trimming
// ---------------------------------------------------------------------------

/// The pieces of `ws` with `sep` between each two, as `join` on a slice of
/// strings builds it.
pub open spec fn join(ws: Seq<Seq<char>>, sep: Seq<char>) -> Seq<char>
    decreases ws.len(),
{
    if ws.len() == 0 {
        seq![]
    } else if ws.len() == 1 {
        ws[0]
    } else {
        join(ws.drop_last(), sep) + sep + ws.last()
    }
}

/// Appends the first `k` words of `ws`, separated by single spaces, to `out`.
pub fn push_joined(out: &mut String, ws: &[Vec<char>], k: usize)
    requires
        k <= ws@.len(),
    ensures
        final(out)@ == old(out)@ + join(char_vecs_view(ws@).take(k as int), seq![' ']),
{
    let ghost start = out@;
    let ghost view = char_vecs_view(ws@);
    let mut i: usize = 0;
    while i < k
        invariant
            i <= k <= ws@.len(),
            view == char_vecs_view(ws@),
            out@ == start + join(view.take(i as int), seq![' ']),
        decreases k - i,
    {
        if i > 0 {
            out.push(' ');
        }
        push_chars(out, ws[i].as_slice());
        i = i + 1;
        assert(view.take(i as int).drop_last() == view.take(i - 1));
        assert(view.take(i as int).last() == ws@[i - 1]@);
    }
}

/// What follows the last `c` in `s`, or all of `s` when it holds no `c`:
/// the first piece that `str::rsplit(c)` yields.
pub open spec fn after_last(s: Seq<char>, c: char) -> Seq<char>
    decreases s.len(),
{
    if s.len() == 0 {
        s
    } else if s.last() == c {
        seq![]
    } else {
        after_last(s.drop_last(), c).push(s.last())
    }
}

proof fn lemma_after_last(s: Seq<char>, c: char, j: int)
    requires
        0 <= j <= s.len(),
        forall|i: int| j <= i < s.len() ==> #[trigger] s[i] != c,
        j == 0 || s[j - 1] == c,
    ensures
        after_last(s, c) == s.skip(j),
    decreases s.len(),
{
    if s.len() == 0 {
    } else if j == s.len() {
        assert(s.skip(j) == Seq::<char>::empty());
    } else {
        lemma_after_last(s.drop_last(), c, j);
        assert(s.drop_last().skip(j).push(s.last()) == s.skip(j));
    }
}

/// The characters after the last `':'` in `s`, or all of `s` when it has none.
pub fn after_last_colon(s: &[char]) -> (r: Vec<char>)
    ensures
        r@ == after_last(s@, ':'),
{
    let mut j = s.len();
    while j > 0 && s[j - 1] != ':'
        invariant
            j <= s@.len(),
            forall|i: int| j <= i < s@.len() ==> #[trigger] s@[i] != ':',
        decreases j,
    {
        j = j - 1;
    }
    let mut r: Vec<char> = Vec::new();
    let mut i = j;
    while i < s.len()
        invariant
            j <= i <= s@.len(),
            r@ == s@.subrange(j as int, i as int),
        decreases s@.len() - i,
    {
        r.push(s[i]);
        i = i + 1;
    }
    proof {
        lemma_after_last(s@, ':', j as int);
    }
    r
}

/// `s` without leading whitespace.
pub open spec fn trim_start(s: Seq<char>) -> Seq<char>
    decreases s.len(),
{
    if s.len() > 0 && is_white(s[0]) {
        trim_start(s.drop_first())
    } else {
        s
    }
}

/// `s` without trailing whitespace.
pub open spec fn trim_end(s: Seq<char>) -> Seq<char>
    decreases s.len(),
{
    if s.len() > 0 && is_white(s.last()) {
        trim_end(s.drop_last())
    } else {
        s
    }
}

/// `str::trim`: `s` without leading and trailing whitespace.
pub open spec fn trim(s: Seq<char>) -> Seq<char> {
    trim_end(trim_start(s))
}

proof fn lemma_trim_start(s: Seq<char>, a: int)
    requires
        0 <= a <= s.len(),
        forall|i: int| 0 <= i < a ==> is_white(#[trigger] s[i]),
        a == s.len() || !is_white(s[a]),
    ensures
        trim_start(s) == s.skip(a),
    decreases a,
{
    if a > 0 {
        lemma_trim_start(s.drop_first(), a - 1);
        assert(s.drop_first().skip(a - 1) == s.skip(a));
    } else {
        assert(s.skip(0) == s);
    }
}

proof fn lemma_trim_end(s: Seq<char>, b: int)
    requires
        0 <= b <= s.len(),
        forall|i: int| b <= i < s.len() ==> is_white(#[trigger] s[i]),
        b == 0 || !is_white(s[b - 1]),
    ensures
        trim_end(s) == s.take(b),
    decreases s.len() - b,
{
    if b < s.len() {
        lemma_trim_end(s.drop_last(), b);
        assert(s.drop_last().take(b) == s.take(b));
    } else {
        assert(s.take(b) == s);
    }
}

/// The characters of `s` without leading and trailing whitespace.
pub fn trim_chars(s: &[char]) -> (r: Vec<char>)
    ensures
        r@ == trim(s@),
{
    let mut a: usize = 0;
    while a < s.len() && is_whitespace(s[a])
        invariant
            a <= s@.len(),
            forall|i: int| 0 <= i < a ==> is_white(#[trigger] s@[i]),
        decreases s@.len() - a,
    {
        a = a + 1;
    }
    let mut b = s.len();
    while b > a && is_whitespace(s[b - 1])
        invariant
            a <= b <= s@.len(),
            forall|i: int| b <= i < s@.len() ==> is_white(#[trigger] s@[i]),
        decreases b,
    {
        b = b - 1;
    }
    let mut r: Vec<char> = Vec::new();
    let mut i = a;
    while i < b
        invariant
            a <= i <= b,
            b <= s@.len(),
            r@ == s@.subrange(a as int, i as int),
        decreases b - i,
    {
        r.push(s[i]);
        i = i + 1;
    }
    proof {
        lemma_trim_start(s@, a as int);
        let t = s@.skip(a as int);
        assert forall|i: int| b - a <= i < t.len() implies is_white(#[trigger] t[i]) by {
            assert(t[i] == s@[a + i]);
        }
        if b > a {
            assert(t[b - a - 1] == s@[b - 1]);
        }
        lemma_trim_end(t, b - a);
        assert(t.take(b - a) == s@.subrange(a as int, b as int));
    }
    r
}

// ---------------------------------------------------------------------------
// Code-point order
// ---------------------------------------------------------------------------

/// Lexicographic order of strings by code point, which is the order that
/// `Ord` for `String` gives (UTF-8 keeps the order of code points).
pub open spec fn lex_less(a: Seq<char>, b: Seq<char>) -> bool
    decreases a.len(),
{
    if a.len() == 0 {
        b.len() > 0
    } else if b.len() == 0 {
        false
    } else if a[0] != b[0] {
        (a[0] as int) < (b[0] as int)
    } else {
        lex_less(a.drop_first(), b.drop_first())
    }
}

pub proof fn lemma_lex_irreflexive(a: Seq<char>)
    ensures
        !lex_less(a, a),
    decreases a.len(),
{
    if a.len() > 0 {
        lemma_lex_irreflexive(a.drop_first());
    }
}

pub proof fn lemma_lex_trichotomy(a: Seq<char>, b: Seq<char>)
    ensures
        lex_less(a, b) || lex_less(b, a) || a == b,
        !(lex_less(a, b) && lex_less(b, a)),
    decreases a.len(),
{
    if a.len() > 0 && b.len() > 0 {
        lemma_lex_trichotomy(a.drop_first(), b.drop_first());
        if a[0] == b[0] && a.drop_first() == b.drop_first() {
            assert(a == seq![a[0]] + a.drop_first());
            assert(b == seq![b[0]] + b.drop_first());
        }
    } else if a.len() == 0 && b.len() == 0 {
        assert(a == b);
    }
}

pub proof fn lemma_lex_transitive(a: Seq<char>, b: Seq<char>, c: Seq<char>)
    requires
        lex_less(a, b),
        lex_less(b, c),
    ensures
        lex_less(a, c),
    decreases a.len(),
{
    if a.len() > 0 && b.len() > 0 && c.len() > 0 {
        if a[0] == b[0] && b[0] == c[0] {
            lemma_lex_transitive(a.drop_first(), b.drop_first(), c.drop_first());
        }
    }
}

/// Whether `a` comes strictly before `b` in code-point order.
pub fn lex_less_chars(a: &[char], b: &[char]) -> (r: bool)
    ensures
        r == lex_less(a@, b@),
{
    let mut i: usize = 0;
    assert(a@.skip(0) == a@ && b@.skip(0) == b@);
    while i < a.len() && i < b.len() && a[i] == b[i]
        invariant
            i <= a@.len(),
            i <= b@.len(),
            lex_less(a@, b@) == lex_less(a@.skip(i as int), b@.skip(i as int)),
        decreases a@.len() - i,
    {
        proof {
            let sa = a@.skip(i as int);
            let sb = b@.skip(i as int);
            assert(sa.drop_first() == a@.skip(i + 1));
            assert(sb.drop_first() == b@.skip(i + 1));
        }
        i = i + 1;
    }
    if i == a.len() {
        i < b.len()
    } else if i == b.len() {
        false
    } else {
        a[i] < b[i]
    }
}

/// Appends `v[from..to]` to `s`.
pub fn push_range(s: &mut String, v: &[char], from: usize, to: usize)
    requires
        from <= to <= v@.len(),
    ensures
        final(s)@ == old(s)@ + v@.subrange(from as int, to as int),
{
    let ghost start = s@;
    let mut i = from;
    while i < to
        invariant
            from <= i <= to <= v@.len(),
            s@ == start + v@.subrange(from as int, i as int),
        decreases to - i,
    {
        s.push(v[i]);
        i = i + 1;
        assert(v@.subrange(from as int, i as int) == v@.subrange(from as int, i - 1).push(
            v@[i - 1],
        ));
    }
}

proof fn lemma_decimal_digits(n: nat)
    ensures
        decimal(n).len() >= 1,
        all_digits(decimal(n)),
        digits_value(decimal(n)) == n,
        is_digit(decimal(n)[0]),
    decreases n,
{
    if n >= 10 {
        lemma_decimal_digits(n / 10);
        let d = decimal(n);
        assert(d.drop_last() == decimal(n / 10));
        assert(d.last() == digit_char(n % 10));
        assert(digit_value(digit_char(n % 10)) == n % 10);
        assert((n / 10) * 10 + n % 10 == n);
        assert(digits_value(d) == digits_value(d.drop_last()) * 10 + digit_value(d.last()));
        assert(digits_value(d) == n);
        assert forall|i: int| 0 <= i < d.len() implies is_digit(#[trigger] d[i]) by {
            if i < d.len() - 1 {
                assert(d[i] == decimal(n / 10)[i]);
            }
        }
    } else {
        assert(decimal(n).drop_last() =~= Seq::<char>::empty());
        assert(digit_value(digit_char(n)) == n);
        assert(digits_value(decimal(n)) == digits_value(decimal(n).drop_last()) * 10 + digit_value(decimal(n).last()));
        assert(digits_value(decimal(n)) == n);
    }
}

/// A number printed in decimal parses back to itself.
pub proof fn law_decimal_parses_back(n: nat, max: nat)
    requires
        n <= max,
    ensures
        parse_unsigned(decimal(n), max) == Some(n),
{
    lemma_decimal_digits(n);
}

} // verus!
