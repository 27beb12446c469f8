//! Character-level text utilities: whitespace, trimming, decimal numbers,
//! joining and line splitting, each with a specification over `Seq<char>`.
use vstd::prelude::*;

verus! {

/// The characters of `s`, in order.
pub fn chars_of(s: &str) -> (out: Vec<char>)
    ensures
        out@ == s@,
{
    let mut out: Vec<char> = Vec::new();
    for c in it: s.chars()
        invariant
            out@ == it.seq().take(it.index() as int),
    {
        out.push(c);
    }
    out
}

/// `String::push`: appends one character at the end of the string.
#[verifier::external_body]
fn push_char(s: &mut String, c: char)
    ensures
        final(s)@ == old(s)@.push(c),
{
    s.push(c);
}

/// The string made of the characters of `v`, in order.
pub fn string_of(v: &[char]) -> (out: String)
    ensures
        out@ == v@,
{
    let mut out = String::new();
    let n = v.len();
    for i in 0..n
        invariant
            n == v@.len(),
            out@ == v@.take(i as int),
    {
        push_char(&mut out, v[i]);
        assert(v@.take(i + 1) == v@.take(i as int).push(v@[i as int]));
    }
    assert(v@.take(n as int) == v@);
    out
}

/// Appends the characters of `src` to `dst`.
pub fn extend_chars(dst: &mut Vec<char>, src: &[char])
    ensures
        final(dst)@ == old(dst)@ + src@,
{
    let n = src.len();
    for i in 0..n
        invariant
            n == src@.len(),
            dst@ == old(dst)@ + src@.take(i as int),
    {
        dst.push(src[i]);
        assert(src@.take(i + 1) == src@.take(i as int).push(src@[i as int]));
    }
    assert(src@.take(n as int) == src@);
}

/// Whether two character sequences are equal.
pub fn chars_eq(a: &[char], b: &[char]) -> (r: bool)
    ensures
        r == (a@ == b@),
{
    if a.len() != b.len() {
        return false;
    }
    let n = a.len();
    for i in 0..n
        invariant
            n == a@.len(),
            n == b@.len(),
            forall|k: int| 0 <= k < i ==> a@[k] == b@[k],
    {
        if a[i] != b[i] {
            return false;
        }
    }
    assert(a@ =~= b@);
    true
}

/// Whether two strings hold the same characters.
pub fn str_eq(a: &str, b: &str) -> (r: bool)
    ensures
        r == (a@ == b@),
{
    let va = chars_of(a);
    let vb = chars_of(b);
    chars_eq(va.as_slice(), vb.as_slice())
}

/// The Unicode `White_Space` characters, which `char::is_whitespace` accepts.
pub open spec fn is_ws(c: char) -> bool {
    ||| ('\u{9}' <= c && c <= '\u{d}')
    ||| c == ' '
    ||| c == '\u{85}'
    ||| c == '\u{a0}'
    ||| c == '\u{1680}'
    ||| ('\u{2000}' <= c && c <= '\u{200a}')
    ||| c == '\u{2028}'
    ||| c == '\u{2029}'
    ||| c == '\u{202f}'
    ||| c == '\u{205f}'
    ||| c == '\u{3000}'
}

/// Whether `c` is a whitespace character.
pub fn is_whitespace(c: char) -> (r: bool)
    ensures
        r == is_ws(c),
{
    ('\u{9}' <= c && c <= '\u{d}') || c == ' ' || c == '\u{85}' || c == '\u{a0}' || c
        == '\u{1680}' || ('\u{2000}' <= c && c <= '\u{200a}') || c == '\u{2028}' || c
        == '\u{2029}' || c == '\u{202f}' || c == '\u{205f}' || c == '\u{3000}'
}

/// Every character of `s` is whitespace (in particular, the empty sequence).
pub open spec fn is_blank(s: Seq<char>) -> bool {
    forall|i: int| 0 <= i < s.len() ==> #[trigger] is_ws(s[i])
}

/// Index of the first non-whitespace character of `s` at or after `i`, or `s.len()`.
pub open spec fn first_non_ws(s: Seq<char>, i: int) -> int
    decreases s.len() - i,
{
    if i < 0 || i >= s.len() {
        s.len() as int
    } else if !is_ws(s[i]) {
        i
    } else {
        first_non_ws(s, i + 1)
    }
}

/// One past the last non-whitespace character of `s` before `j`, or 0.
pub open spec fn end_non_ws(s: Seq<char>, j: int) -> int
    decreases j,
{
    if j <= 0 || j > s.len() {
        0
    } else if !is_ws(s[j - 1]) {
        j
    } else {
        end_non_ws(s, j - 1)
    }
}

/// `s` with leading and trailing whitespace removed (`str::trim`).
pub open spec fn trim(s: Seq<char>) -> Seq<char> {
    let a = first_non_ws(s, 0);
    let b = end_non_ws(s, s.len() as int);
    if a < b {
        s.subrange(a, b)
    } else {
        Seq::empty()
    }
}

pub proof fn lemma_first_non_ws(s: Seq<char>, i: int)
    requires
        0 <= i <= s.len(),
    ensures
        i <= first_non_ws(s, i) <= s.len(),
        forall|k: int| i <= k < first_non_ws(s, i) ==> is_ws(#[trigger] s[k]),
        first_non_ws(s, i) < s.len() ==> !is_ws(s[first_non_ws(s, i)]),
    decreases s.len() - i,
{
    if i < s.len() && is_ws(s[i]) {
        lemma_first_non_ws(s, i + 1);
    }
}

pub proof fn lemma_end_non_ws(s: Seq<char>, j: int)
    requires
        0 <= j <= s.len(),
    ensures
        0 <= end_non_ws(s, j) <= j,
        forall|k: int| end_non_ws(s, j) <= k < j ==> is_ws(#[trigger] s[k]),
        end_non_ws(s, j) > 0 ==> !is_ws(s[end_non_ws(s, j) - 1]),
    decreases j,
{
    if j > 0 && is_ws(s[j - 1]) {
        lemma_end_non_ws(s, j - 1);
    }
}

/// The trimmed text is empty exactly when the text is blank.
pub proof fn lemma_trim_empty(s: Seq<char>)
    ensures
        (trim(s).len() == 0) == is_blank(s),
{
    lemma_first_non_ws(s, 0);
    lemma_end_non_ws(s, s.len() as int);
    let a = first_non_ws(s, 0);
    let b = end_non_ws(s, s.len() as int);
    if a < b {
        assert(!is_ws(s[a]));
    } else if a < s.len() {
        assert(!is_ws(s[a]));
        assert(is_ws(s[a]));
    } else {
        assert forall|i: int| 0 <= i < s.len() implies #[trigger] is_ws(s[i]) by {}
    }
}

/// A sequence whose ends are not whitespace is its own trim.
pub proof fn lemma_trim_fixed(s: Seq<char>)
    requires
        s.len() > 0,
        !is_ws(s[0]),
        !is_ws(s[s.len() - 1]),
    ensures
        trim(s) == s,
{
    assert(trim(s) =~= s);
}

/// Trimming twice is trimming once.
pub proof fn lemma_trim_idempotent(s: Seq<char>)
    ensures
        trim(trim(s)) == trim(s),
        is_blank(trim(s)) == is_blank(s),
{
    lemma_first_non_ws(s, 0);
    lemma_end_non_ws(s, s.len() as int);
    lemma_trim_empty(s);
    lemma_trim_empty(trim(s));
    let t = trim(s);
    if t.len() > 0 {
        lemma_trim_fixed(t);
    }
}

/// Every element of `trim(s)` is an element of `s`.
pub proof fn lemma_trim_sub(s: Seq<char>)
    ensures
        forall|k: int| 0 <= k < trim(s).len() ==> exists|m: int|
            0 <= m < s.len() && s[m] == #[trigger] trim(s)[k],
{
    lemma_first_non_ws(s, 0);
    lemma_end_non_ws(s, s.len() as int);
    let a = first_non_ws(s, 0);
    assert forall|k: int| 0 <= k < trim(s).len() implies exists|m: int|
        0 <= m < s.len() && s[m] == #[trigger] trim(s)[k] by {
        assert(s[a + k] == trim(s)[k]);
    }
}

/// Bounds `(a, b)` such that `v[a..b]` is `trim(v)`.
pub fn trim_bounds(v: &[char]) -> (r: (usize, usize))
    ensures
        r.0 <= r.1 <= v@.len(),
        v@.subrange(r.0 as int, r.1 as int) == trim(v@),
{
    let n = v.len();
    let mut a: usize = 0;
    while a < n && is_whitespace(v[a])
        invariant
            a <= n,
            n == v@.len(),
            first_non_ws(v@, 0) == first_non_ws(v@, a as int),
        decreases n - a,
    {
        a = a + 1;
    }
    let mut b: usize = n;
    while b > 0 && is_whitespace(v[b - 1])
        invariant
            b <= n,
            n == v@.len(),
            end_non_ws(v@, n as int) == end_non_ws(v@, b as int),
        decreases b,
    {
        b = b - 1;
    }
    proof {
        lemma_first_non_ws(v@, 0);
        lemma_end_non_ws(v@, n as int);
    }
    if a < b {
        (a, b)
    } else {
        (0, 0)
    }
}

/// The trimmed copy of `v`.
pub fn trimmed(v: &[char]) -> (r: Vec<char>)
    ensures
        r@ == trim(v@),
{
    let (a, b) = trim_bounds(v);
    let mut out: Vec<char> = Vec::new();
    for i in a..b
        invariant
            a <= b <= v@.len(),
            out@ == v@.subrange(a as int, i as int),
    {
        out.push(v[i]);
        assert(v@.subrange(a as int, i + 1) == v@.subrange(a as int, i as int).push(v@[i as int]));
    }
    out
}

/// Whether `v` is blank.
pub fn blank(v: &[char]) -> (r: bool)
    ensures
        r == is_blank(v@),
{
    let n = v.len();
    for i in 0..n
        invariant
            n == v@.len(),
            forall|k: int| 0 <= k < i ==> is_ws(#[trigger] v@[k]),
    {
        if !is_whitespace(v[i]) {
            return false;
        }
    }
    true
}


/// The ASCII digit for `d` (0 to 9).
pub open spec fn digit_char(d: nat) -> char {
    (d + 48) as char
}

pub open spec fn is_digit(c: char) -> bool {
    '0' <= c && c <= '9'
}

pub open spec fn digit_value(c: char) -> nat {
    (c as int - 48) as nat
}

/// Decimal notation of `n`, without sign or leading zeros.
pub open spec fn dec(n: nat) -> Seq<char>
    decreases n,
{
    if n < 10 {
        seq![digit_char(n)]
    } else {
        dec(n / 10).push(digit_char(n % 10))
    }
}

/// The number that a sequence of decimal digits stands for.
pub open spec fn digits_value(s: Seq<char>) -> nat
    decreases s.len(),
{
    if s.len() == 0 {
        0
    } else {
        digits_value(s.drop_last()) * 10 + digit_value(s.last())
    }
}

pub open spec fn all_digits(s: Seq<char>) -> bool {
    forall|i: int| 0 <= i < s.len() ==> #[trigger] is_digit(s[i])
}

/// `s` without one leading `+`, if it has one.
pub open spec fn unsigned_body(s: Seq<char>) -> Seq<char> {
    if s.len() > 0 && s[0] == '+' {
        s.skip(1)
    } else {
        s
    }
}

/// `str::parse::<u32>`: an optional `+` followed by one or more ASCII digits,
/// whose value fits in a `u32`.
pub open spec fn parse_u32_spec(s: Seq<char>) -> Option<u32> {
    let body = unsigned_body(s);
    if body.len() > 0 && all_digits(body) && digits_value(body) <= u32::MAX {
        Some(digits_value(body) as u32)
    } else {
        None
    }
}

pub proof fn lemma_digit_char(d: nat)
    requires
        d < 10,
    ensures
        digit_value(digit_char(d)) == d,
        is_digit(digit_char(d)),
        !is_ws(digit_char(d)),
        digit_char(d) != '+',
{
    assert((d + 48) as char as int == d + 48);
}

pub proof fn lemma_dec_digits(n: nat)
    ensures
        dec(n).len() > 0,
        all_digits(dec(n)),
        digits_value(dec(n)) == n,
        dec(n)[0] != '+',
        !is_ws(dec(n)[0]),
        !is_ws(dec(n)[dec(n).len() - 1]),
    decreases n,
{
    lemma_digit_char(n % 10);
    if n < 10 {
        assert(dec(n).drop_last() =~= Seq::<char>::empty());
        assert(digits_value(Seq::<char>::empty()) == 0);
        assert(n % 10 == n);
    } else {
        lemma_dec_digits(n / 10);
        let s = dec(n);
        assert(s.drop_last() == dec(n / 10));
        assert(s.last() == digit_char(n % 10));
        assert(digits_value(s) == digits_value(dec(n / 10)) * 10 + digit_value(digit_char(n % 10)));
        assert((n / 10) * 10 + n % 10 == n) by (nonlinear_arith);
        assert forall|i: int| 0 <= i < s.len() implies #[trigger] is_digit(s[i]) by {
            if i < s.len() - 1 {
                assert(s[i] == dec(n / 10)[i]);
            }
        }
        assert(s[0] == dec(n / 10)[0]);
    }
}

/// Parsing the decimal notation of a `u32` gives it back.
pub proof fn lemma_parse_dec(n: u32)
    ensures
        parse_u32_spec(dec(n as nat)) == Some(n),
{
    lemma_dec_digits(n as nat);
}

/// The value of a digit sequence never falls below the value of a prefix.
pub proof fn lemma_digits_value_prefix(s: Seq<char>, k: int)
    requires
        0 <= k <= s.len(),
        all_digits(s),
    ensures
        digits_value(s.take(k)) <= digits_value(s),
    decreases s.len() - k,
{
    if k < s.len() {
        lemma_digits_value_prefix(s, k + 1);
        assert(s.take(k + 1).drop_last() == s.take(k));
    } else {
        assert(s.take(k) == s);
    }
}

/// Decimal notation of `n`.
pub fn decimal(n: u64) -> (r: Vec<char>)
    ensures
        r@ == dec(n as nat),
    decreases n,
{
    if n < 10 {
        let mut v: Vec<char> = Vec::new();
        let d = (n as u8 + 48u8) as char;
        v.push(d);
        assert(v@ =~= seq![digit_char(n as nat)]);
        v
    } else {
        let mut v = decimal(n / 10);
        let d = ((n % 10) as u8 + 48u8) as char;
        v.push(d);
        v
    }
}

/// Decimal notation of `n`, as a `String`.
pub fn decimal_string(n: u64) -> (r: String)
    ensures
        r@ == dec(n as nat),
{
    let v = decimal(n);
    string_of(v.as_slice())
}

/// Decimal notation of `i`: a `-` before the digits of a negative number.
pub open spec fn int_dec(i: int) -> Seq<char> {
    if i < 0 {
        seq!['-'] + dec((-i) as nat)
    } else {
        dec(i as nat)
    }
}

/// Decimal notation of `i`, as `{}` writes an `i64`.
pub fn signed_decimal(i: i64) -> (r: String)
    ensures
        r@ == int_dec(i as int),
{
    if i < 0 {
        let magnitude: u64 = if i == i64::MIN {
            9223372036854775808u64
        } else {
            (-i) as u64
        };
        let digits = decimal(magnitude);
        let mut v: Vec<char> = Vec::new();
        v.push('-');
        extend_chars(&mut v, digits.as_slice());
        assert(v@ =~= seq!['-'] + dec((-(i as int)) as nat));
        string_of(v.as_slice())
    } else {
        decimal_string(i as u64)
    }
}

/// `str::parse::<u32>` on a sequence of characters.
pub fn parse_u32(s: &[char]) -> (r: Option<u32>)
    ensures
        r == parse_u32_spec(s@),
{
    let n = s.len();
    let start: usize = if n > 0 && s[0] == '+' {
        1
    } else {
        0
    };
    let ghost body = unsigned_body(s@);
    assert(body == s@.subrange(start as int, n as int));
    if start == n {
        return None;
    }
    let mut value: u64 = 0;
    let mut i = start;
    while i < n
        invariant
            start < n,
            start <= i <= n,
            n == s@.len(),
            body == s@.subrange(start as int, n as int),
            body == unsigned_body(s@),
            all_digits(body.take(i - start)),
            value == digits_value(body.take(i - start)),
            value <= u32::MAX,
        decreases n - i,
    {
        let c = s[i];
        if !('0' <= c && c <= '9') {
            assert(!is_digit(body[i - start]));
            assert(!all_digits(body));
            assert(parse_u32_spec(s@).is_none());
            return None;
        }
        let d = (c as u32 - 48) as u64;
        let ghost k = (i - start) as int;
        assert(body.take(k + 1).drop_last() == body.take(k));
        assert(body.take(k + 1).last() == c);
        value = value * 10 + d;
        assert(all_digits(body.take(k + 1))) by {
            assert forall|j: int| 0 <= j < k + 1 implies #[trigger] is_digit(body.take(k + 1)[j]) by {
                if j < k {
                    assert(body.take(k + 1)[j] == body.take(k)[j]);
                }
            }
        }
        if value > 4294967295 {
            proof {
                if all_digits(body) {
                    lemma_digits_value_prefix(body, k + 1);
                    assert(digits_value(body) > u32::MAX);
                }
                assert(parse_u32_spec(s@).is_none());
            }
            return None;
        }
        i = i + 1;
    }
    assert(body.take(n - start) == body);
    Some(value as u32)
}

/// Concatenation of `parts` with `sep` between consecutive parts (`join`).
pub open spec fn join(parts: Seq<Seq<char>>, sep: Seq<char>) -> Seq<char>
    decreases parts.len(),
{
    if parts.len() == 0 {
        Seq::empty()
    } else if parts.len() == 1 {
        parts[0]
    } else {
        parts[0] + sep + join(parts.skip(1), sep)
    }
}

pub proof fn lemma_join_push(parts: Seq<Seq<char>>, x: Seq<char>, sep: Seq<char>)
    requires
        parts.len() > 0,
    ensures
        join(parts.push(x), sep) == join(parts, sep) + sep + x,
    decreases parts.len(),
{
    if parts.len() == 1 {
        assert(parts.push(x).skip(1) =~= seq![x]);
        assert(join(seq![x], sep) == x);
        assert(join(parts, sep) == parts[0]);
        assert(join(parts.push(x), sep) == parts[0] + sep + x);
    } else {
        lemma_join_push(parts.skip(1), x, sep);
        assert(parts.push(x).skip(1) =~= parts.skip(1).push(x));
        assert(parts.push(x)[0] == parts[0]);
        assert(join(parts.push(x), sep) == parts[0] + sep + (join(parts.skip(1), sep) + sep + x));
        assert(parts[0] + sep + (join(parts.skip(1), sep) + sep + x) =~= (parts[0] + sep + join(
            parts.skip(1),
            sep,
        )) + sep + x);
    }
}

/// Index of the first `c` in `s` at or after `i`, or `s.len()`.
pub open spec fn index_of(s: Seq<char>, c: char, i: int) -> int
    decreases s.len() - i,
{
    if i < 0 || i >= s.len() {
        s.len() as int
    } else if s[i] == c {
        i
    } else {
        index_of(s, c, i + 1)
    }
}

pub proof fn lemma_index_of(s: Seq<char>, c: char, i: int)
    requires
        0 <= i <= s.len(),
    ensures
        i <= index_of(s, c, i) <= s.len(),
        forall|k: int| i <= k < index_of(s, c, i) ==> #[trigger] s[k] != c,
        index_of(s, c, i) < s.len() ==> s[index_of(s, c, i)] == c,
    decreases s.len() - i,
{
    if i < s.len() && s[i] != c {
        lemma_index_of(s, c, i + 1);
    }
}

/// `index_of` over a slice.
pub fn index_in(s: &[char], c: char, from: usize) -> (r: usize)
    requires
        from <= s@.len(),
    ensures
        r == index_of(s@, c, from as int),
{
    let mut i = from;
    while i < s.len() && s[i] != c
        invariant
            from <= i <= s@.len(),
            index_of(s@, c, from as int) == index_of(s@, c, i as int),
        decreases s@.len() - i,
    {
        i = i + 1;
    }
    i
}

/// The characters of `v` from index `from` on.
pub fn tail(v: &[char], from: usize) -> (r: Vec<char>)
    requires
        from <= v@.len(),
    ensures
        r@ == v@.skip(from as int),
{
    let mut out: Vec<char> = Vec::new();
    for m in from..v.len()
        invariant
            from <= v@.len(),
            out@ == v@.subrange(from as int, m as int),
    {
        out.push(v[m]);
        assert(v@.subrange(from as int, m + 1) == v@.subrange(from as int, m as int).push(v@[m as int]));
    }
    out
}

/// The first `to` characters of `v`.
pub fn head(v: &[char], to: usize) -> (r: Vec<char>)
    requires
        to <= v@.len(),
    ensures
        r@ == v@.take(to as int),
{
    let mut out: Vec<char> = Vec::new();
    for m in 0..to
        invariant
            to <= v@.len(),
            out@ == v@.take(m as int),
    {
        out.push(v[m]);
        assert(v@.take(m + 1) == v@.take(m as int).push(v@[m as int]));
    }
    out
}

/// The texts of a sequence of strings.
pub open spec fn string_views(v: Seq<String>) -> Seq<Seq<char>> {
    v.map_values(|s: String| s@)
}

/// The character views of a sequence of character vectors.
pub open spec fn views(vs: Seq<Vec<char>>) -> Seq<Seq<char>> {
    vs.map_values(|v: Vec<char>| v@)
}

/// Index of the first `'\n'` in `s` at or after `i`, or `s.len()`.
pub open spec fn nl_index(s: Seq<char>, i: int) -> int
    decreases s.len() - i,
{
    if i < 0 || i >= s.len() {
        s.len() as int
    } else if s[i] == '\n' {
        i
    } else {
        nl_index(s, i + 1)
    }
}

pub proof fn lemma_nl_index(s: Seq<char>, i: int)
    requires
        0 <= i <= s.len(),
    ensures
        i <= nl_index(s, i) <= s.len(),
        forall|k: int| i <= k < nl_index(s, i) ==> #[trigger] s[k] != '\n',
        nl_index(s, i) < s.len() ==> s[nl_index(s, i)] == '\n',
    decreases s.len() - i,
{
    if i < s.len() && s[i] != '\n' {
        lemma_nl_index(s, i + 1);
    }
}

/// `l` without one trailing carriage return.
pub open spec fn strip_cr(l: Seq<char>) -> Seq<char> {
    if l.len() > 0 && l.last() == '\r' {
        l.drop_last()
    } else {
        l
    }
}

/// The lines of `s` from index `i` on, as `str::lines` gives them: split at
/// `'\n'`, one `'\r'` before a `'\n'` removed, no empty line after a final `'\n'`.
pub open spec fn lines_from(s: Seq<char>, i: int) -> Seq<Seq<char>>
    decreases s.len() - i,
{
    if i < 0 || i >= s.len() {
        Seq::empty()
    } else {
        let j = nl_index(s, i);
        if j >= s.len() {
            seq![s.subrange(i, s.len() as int)]
        } else {
            proof {
                lemma_nl_index(s, i);
            }
            seq![strip_cr(s.subrange(i, j))] + lines_from(s, j + 1)
        }
    }
}

/// `str::lines`.
pub open spec fn lines(s: Seq<char>) -> Seq<Seq<char>> {
    lines_from(s, 0)
}

pub open spec fn no_nl(l: Seq<char>) -> bool {
    forall|k: int| 0 <= k < l.len() ==> #[trigger] l[k] != '\n'
}

/// No line contains a newline.
pub proof fn lemma_lines_no_nl(s: Seq<char>, i: int)
    requires
        0 <= i,
    ensures
        forall|k: int| 0 <= k < lines_from(s, i).len() ==> no_nl(#[trigger] lines_from(s, i)[k]),
    decreases s.len() - i,
{
    if i < s.len() {
        lemma_nl_index(s, i);
        let j = nl_index(s, i);
        if j < s.len() {
            lemma_lines_no_nl(s, j + 1);
            let l = s.subrange(i, j);
            assert(no_nl(strip_cr(l))) by {
                assert forall|k: int| 0 <= k < strip_cr(l).len() implies #[trigger] strip_cr(l)[k]
                    != '\n' by {
                    assert(strip_cr(l)[k] == s[i + k]);
                }
            }
            let r = lines_from(s, i);
            assert forall|k: int| 0 <= k < r.len() implies no_nl(#[trigger] r[k]) by {
                if k > 0 {
                    assert(r[k] == lines_from(s, j + 1)[k - 1]);
                }
            }
        } else {
            let l = s.subrange(i, s.len() as int);
            assert forall|k: int| 0 <= k < l.len() implies #[trigger] l[k] != '\n' by {
                assert(l[k] == s[i + k]);
            }
            assert(lines_from(s, i)[0] == l);
        }
    }
}

pub proof fn lemma_nl_index_shift(p: Seq<char>, s: Seq<char>, i: int)
    requires
        0 <= i <= s.len(),
    ensures
        nl_index(p + s, p.len() + i) == p.len() + nl_index(s, i),
    decreases s.len() - i,
{
    if i < s.len() {
        assert((p + s)[p.len() + i] == s[i]);
        if s[i] != '\n' {
            lemma_nl_index_shift(p, s, i + 1);
        }
    }
}

/// The lines of a suffix do not depend on what precedes it.
pub proof fn lemma_lines_shift(p: Seq<char>, s: Seq<char>, i: int)
    requires
        0 <= i,
    ensures
        lines_from(p + s, p.len() + i) == lines_from(s, i),
    decreases s.len() - i,
{
    if i < s.len() {
        lemma_nl_index_shift(p, s, i);
        lemma_nl_index(s, i);
        let j = nl_index(s, i);
        if j < s.len() {
            lemma_lines_shift(p, s, j + 1);
            assert((p + s).subrange(p.len() + i, p.len() + j) =~= s.subrange(i, j));
        } else {
            assert((p + s).subrange(p.len() + i, (p + s).len() as int) =~= s.subrange(
                i,
                s.len() as int,
            ));
        }
    }
}

pub proof fn lemma_nl_index_prefix(x: Seq<char>, y: Seq<char>, i: int)
    requires
        0 <= i <= nl_index(x, i) < x.len(),
    ensures
        nl_index(x + y, i) == nl_index(x, i),
    decreases x.len() - i,
{
    lemma_nl_index(x, i);
    if x[i] != '\n' {
        lemma_nl_index_prefix(x, y, i + 1);
    }
}

pub proof fn lemma_lines_append_from(x: Seq<char>, y: Seq<char>, i: int)
    requires
        x.len() > 0,
        x.last() == '\n',
        0 <= i <= x.len(),
    ensures
        lines_from(x + y, i) == lines_from(x, i) + lines(y),
    decreases x.len() - i,
{
    if i == x.len() {
        lemma_lines_shift(x, y, 0);
        assert(lines_from(x, i) =~= Seq::<Seq<char>>::empty());
        assert(Seq::<Seq<char>>::empty() + lines(y) =~= lines(y));
    } else {
        lemma_nl_index(x, i);
        let j = nl_index(x, i);
        if j == x.len() {
            assert(x[x.len() - 1] != '\n');
        }
        lemma_nl_index_prefix(x, y, i);
        lemma_lines_append_from(x, y, j + 1);
        assert((x + y).subrange(i, j) =~= x.subrange(i, j));
        assert(lines_from(x + y, i) == seq![strip_cr(x.subrange(i, j))] + lines_from(x + y, j + 1));
        assert(lines_from(x, i) == seq![strip_cr(x.subrange(i, j))] + lines_from(x, j + 1));
        assert(seq![strip_cr(x.subrange(i, j))] + (lines_from(x, j + 1) + lines(y)) =~= (seq![
            strip_cr(x.subrange(i, j)),
        ] + lines_from(x, j + 1)) + lines(y));
    }
}

/// Text that ends with a newline contributes its own lines, whatever follows.
pub proof fn lemma_lines_append(x: Seq<char>, y: Seq<char>)
    requires
        x.len() > 0,
        x.last() == '\n',
    ensures
        lines(x + y) == lines(x) + lines(y),
{
    lemma_lines_append_from(x, y, 0);
}

/// A newline-free text followed by a newline is one line.
pub proof fn lemma_lines_single(l: Seq<char>)
    requires
        no_nl(l),
    ensures
        lines(l.push('\n')) == seq![strip_cr(l)],
{
    let x = l.push('\n');
    lemma_nl_index(x, 0);
    assert(x[l.len() as int] == '\n');
    if nl_index(x, 0) < l.len() {
        assert(x[nl_index(x, 0)] == l[nl_index(x, 0)]);
    }
    assert(nl_index(x, 0) == l.len());
    assert(x.subrange(0, l.len() as int) =~= l);
    assert(lines_from(x, l.len() + 1int) =~= Seq::<Seq<char>>::empty());
    assert(lines(x) == seq![strip_cr(l)] + Seq::<Seq<char>>::empty());
    assert(seq![strip_cr(l)] + Seq::<Seq<char>>::empty() =~= seq![strip_cr(l)]);
}

/// `str::lines` on a sequence of characters.
pub fn split_lines(v: &[char]) -> (r: Vec<Vec<char>>)
    ensures
        views(r@) == lines(v@),
{
    let n = v.len();
    let mut out: Vec<Vec<char>> = Vec::new();
    let mut i: usize = 0;
    while i < n
        invariant
            i <= n,
            n == v@.len(),
            views(out@) + lines_from(v@, i as int) == lines(v@),
        decreases n - i,
    {
        let mut line: Vec<char> = Vec::new();
        let mut j = i;
        while j < n && v[j] != '\n'
            invariant
                i <= j <= n,
                n == v@.len(),
                nl_index(v@, i as int) == nl_index(v@, j as int),
                line@ == v@.subrange(i as int, j as int),
            decreases n - j,
        {
            line.push(v[j]);
            assert(v@.subrange(i as int, j + 1) == v@.subrange(i as int, j as int).push(v@[j as int]));
            j = j + 1;
        }
        proof {
            lemma_nl_index(v@, i as int);
        }
        let ghost before = views(out@);
        if j < n {
            if line.len() > 0 && line[line.len() - 1] == '\r' {
                line.pop();
            }
            assert(line@ == strip_cr(v@.subrange(i as int, j as int)));
        }
        out.push(line);
        assert(views(out@) =~= before.push(out@[out@.len() - 1]@));
        if j < n {
            assert(lines_from(v@, i as int) == seq![strip_cr(v@.subrange(i as int, j as int))]
                + lines_from(v@, j + 1));
            assert(before + lines_from(v@, i as int) =~= views(out@) + lines_from(v@, j + 1));
            i = j + 1;
        } else {
            assert(lines_from(v@, i as int) == seq![v@.subrange(i as int, n as int)]);
            assert(lines_from(v@, n as int) =~= Seq::<Seq<char>>::empty());
            assert(before + lines_from(v@, i as int) =~= views(out@) + lines_from(v@, n as int));
            i = n;
        }
    }
    assert(views(out@) + lines_from(v@, n as int) =~= views(out@));
    out
}

/// The pieces of `t` between newlines from index `i` on (`str::split('\n')`):
/// there is always at least one, possibly empty.
pub open spec fn pieces_from(t: Seq<char>, i: int) -> Seq<Seq<char>>
    decreases t.len() - i,
{
    if i < 0 || i > t.len() {
        Seq::empty()
    } else {
        let j = nl_index(t, i);
        if j >= t.len() {
            seq![t.subrange(i, t.len() as int)]
        } else {
            proof {
                lemma_nl_index(t, i);
            }
            seq![t.subrange(i, j)] + pieces_from(t, j + 1)
        }
    }
}

/// The pieces of `t` between newlines.
pub open spec fn pieces(t: Seq<char>) -> Seq<Seq<char>> {
    pieces_from(t, 0)
}

pub open spec fn ends_cr(l: Seq<char>) -> bool {
    l.len() > 0 && l.last() == '\r'
}

pub proof fn lemma_pieces_nonempty(t: Seq<char>, i: int)
    requires
        0 <= i <= t.len(),
    ensures
        pieces_from(t, i).len() >= 1,
{
    lemma_nl_index(t, i);
}

/// The empty text is one empty piece.
pub proof fn lemma_pieces_empty(t: Seq<char>)
    requires
        t.len() == 0,
    ensures
        pieces(t) == seq![Seq::<char>::empty()],
{
    assert(nl_index(t, 0) == 0);
    assert(t.subrange(0, 0) =~= Seq::<char>::empty());
}

/// Joining the pieces with newlines gives the text back.
pub proof fn lemma_join_pieces(t: Seq<char>, i: int)
    requires
        0 <= i <= t.len(),
    ensures
        join(pieces_from(t, i), seq!['\n']) == t.subrange(i, t.len() as int),
    decreases t.len() - i,
{
    lemma_nl_index(t, i);
    let j = nl_index(t, i);
    if j < t.len() {
        lemma_join_pieces(t, j + 1);
        lemma_pieces_nonempty(t, j + 1);
        let ps = pieces_from(t, i);
        let rest = pieces_from(t, j + 1);
        assert(ps == seq![t.subrange(i, j)] + rest);
        assert(ps.skip(1) =~= rest);
        assert(ps[0] == t.subrange(i, j));
        assert(join(ps, seq!['\n']) == t.subrange(i, j) + seq!['\n'] + join(rest, seq!['\n']));
        assert(t.subrange(i, j) + seq!['\n'] + t.subrange(j + 1, t.len() as int) =~= t.subrange(
            i,
            t.len() as int,
        ));
    }
}

/// The lines of a text followed by a newline are its pieces, each without a
/// trailing carriage return.
pub proof fn lemma_lines_of_pieces(t: Seq<char>, i: int)
    requires
        0 <= i <= t.len(),
    ensures
        lines_from(t.push('\n'), i) == pieces_from(t, i).map_values(|p: Seq<char>| strip_cr(p)),
    decreases t.len() - i,
{
    let x = t.push('\n');
    lemma_nl_index(t, i);
    lemma_nl_index(x, i);
    let j = nl_index(t, i);
    assert(t =~= x.subrange(0, t.len() as int));
    if j < t.len() {
        assert(x == t + seq!['\n']);
        lemma_nl_index_prefix(t, seq!['\n'], i);
        lemma_lines_of_pieces(t, j + 1);
        assert(x.subrange(i, j) =~= t.subrange(i, j));
        let ps = pieces_from(t, i);
        let rest = pieces_from(t, j + 1);
        assert(ps == seq![t.subrange(i, j)] + rest);
        assert(ps.map_values(|p: Seq<char>| strip_cr(p)) =~= seq![strip_cr(t.subrange(i, j))]
            + rest.map_values(|p: Seq<char>| strip_cr(p)));
    } else {
        assert(x[t.len() as int] == '\n');
        if nl_index(x, i) < t.len() {
            assert(x[nl_index(x, i)] == t[nl_index(x, i)]);
        }
        assert(nl_index(x, i) == t.len());
        assert(x.subrange(i, t.len() as int) =~= t.subrange(i, t.len() as int));
        assert(lines_from(x, t.len() + 1int) =~= Seq::<Seq<char>>::empty());
        let ps = pieces_from(t, i);
        assert(ps == seq![t.subrange(i, t.len() as int)]);
        assert(ps.map_values(|p: Seq<char>| strip_cr(p)) =~= seq![
            strip_cr(t.subrange(i, t.len() as int)),
        ]);
        assert(lines_from(x, i) =~= seq![strip_cr(t.subrange(i, t.len() as int))]);
    }
}

/// When no piece ends with a carriage return, the lines of the text followed by
/// a newline are exactly its pieces.
pub proof fn lemma_lines_are_pieces(t: Seq<char>)
    requires
        forall|k: int| 0 <= k < pieces(t).len() ==> !ends_cr(#[trigger] pieces(t)[k]),
    ensures
        lines(t.push('\n')) == pieces(t),
{
    lemma_lines_of_pieces(t, 0);
    assert(pieces(t).map_values(|p: Seq<char>| strip_cr(p)) =~= pieces(t));
}

pub proof fn lemma_pieces_shift(p: Seq<char>, s: Seq<char>, i: int)
    requires
        0 <= i <= s.len(),
    ensures
        pieces_from(p + s, p.len() + i) == pieces_from(s, i),
    decreases s.len() - i,
{
    lemma_nl_index_shift(p, s, i);
    lemma_nl_index(s, i);
    let j = nl_index(s, i);
    if j < s.len() {
        lemma_pieces_shift(p, s, j + 1);
        assert((p + s).subrange(p.len() + i, p.len() + j) =~= s.subrange(i, j));
    } else {
        assert((p + s).subrange(p.len() + i, (p + s).len() as int) =~= s.subrange(
            i,
            s.len() as int,
        ));
    }
}

/// Splitting a newline-join of newline-free parts gives the parts back.
pub proof fn lemma_pieces_of_join(parts: Seq<Seq<char>>)
    requires
        parts.len() > 0,
        forall|k: int| 0 <= k < parts.len() ==> no_nl(#[trigger] parts[k]),
    ensures
        pieces(join(parts, seq!['\n'])) == parts,
    decreases parts.len(),
{
    let a = parts[0];
    assert(no_nl(a));
    lemma_nl_index(a, 0);
    if nl_index(a, 0) < a.len() {
        assert(a[nl_index(a, 0)] != '\n');
    }
    if parts.len() == 1 {
        assert(join(parts, seq!['\n']) == a);
        assert(a.subrange(0, a.len() as int) =~= a);
        assert(pieces(a) =~= parts);
    } else {
        let rest = parts.skip(1);
        assert forall|k: int| 0 <= k < rest.len() implies no_nl(#[trigger] rest[k]) by {
            assert(rest[k] == parts[k + 1]);
        }
        lemma_pieces_of_join(rest);
        let jr = join(rest, seq!['\n']);
        let t = join(parts, seq!['\n']);
        assert(t == a + seq!['\n'] + jr);
        let pre = a + seq!['\n'];
        assert(t == pre + jr);
        lemma_nl_index(t, 0);
        assert(t[a.len() as int] == '\n');
        if nl_index(t, 0) < a.len() {
            assert(t[nl_index(t, 0)] == a[nl_index(t, 0)]);
        }
        assert(nl_index(t, 0) == a.len());
        assert(t.subrange(0, a.len() as int) =~= a);
        lemma_pieces_shift(pre, jr, 0);
        assert(pieces_from(t, a.len() + 1int) == pieces(jr));
        assert(pieces(t) == seq![a] + rest);
        assert(seq![a] + rest =~= parts);
    }
}

} // verus!
