use vstd::prelude::*;

verus! {

// ---------------------------------------------------------------------------
// Characters and strings
// ---------------------------------------------------------------------------

/// Appends one character to a string.
#[verifier::external_body]
fn push_char(s: &mut String, c: char)
    ensures
        final(s)@ == old(s)@.push(c),
{
    s.push(c);
}

/// Appends a string slice to a string.
pub(crate) fn push_str(s: &mut String, t: &str)
    ensures
        final(s)@ == old(s)@ + t@,
{
    s.append(t);
}

/// The characters of a string slice, in order.
pub fn chars_of(s: &str) -> (v: Vec<char>)
    ensures
        v@ == s@,
{
    let mut v: Vec<char> = Vec::new();
    for c in it: s.chars()
        invariant
            v@ == it.seq().take(it.index() as int),
            it.seq() == s@,
    {
        v.push(c);
    }
    v
}

/// The string made of the characters of `v[from..to]`.
pub fn string_of(v: &Vec<char>, from: usize, to: usize) -> (s: String)
    requires
        from <= to <= v.len(),
    ensures
        s@ == v@.subrange(from as int, to as int),
{
    let mut s = String::new();
    let mut i: usize = from;
    while i < to
        invariant
            from <= i <= to <= v.len(),
            s@ == v@.subrange(from as int, i as int),
        decreases to - i,
    {
        push_char(&mut s, v[i]);
        i += 1;
        assert(s@ =~= v@.subrange(from as int, i as int));
    }
    s
}

/// Whether two string slices hold the same characters.
pub fn same_text(a: &str, b: &str) -> (r: bool)
    ensures
        r == (a@ == b@),
{
    let va = chars_of(a);
    let vb = chars_of(b);
    if va.len() != vb.len() {
        return false;
    }
    let mut i: usize = 0;
    while i < va.len()
        invariant
            va@ == a@,
            vb@ == b@,
            va.len() == vb.len(),
            0 <= i <= va.len(),
            forall|j: int| 0 <= j < i ==> va@[j] == vb@[j],
        decreases va.len() - i,
    {
        if va[i] != vb[i] {
            return false;
        }
        i += 1;
    }
    assert(a@ =~= b@);
    true
}

// ---------------------------------------------------------------------------
// Decimal notation of integers
// ---------------------------------------------------------------------------

/// The character of the decimal digit `d` (0 to 9).
pub open spec fn digit_char(d: int) -> char {
    (d + 48) as char
}

/// The decimal digits of a natural number, most significant first, without
/// leading zeros ("0" for zero).
pub open spec fn digits_of(n: nat) -> Seq<char>
    decreases n,
{
    if n < 10 {
        seq![digit_char(n as int)]
    } else {
        digits_of(n / 10).push(digit_char((n % 10) as int))
    }
}

/// The decimal notation of an integer, as `Display` writes it: a minus sign
/// for negative numbers, then the digits of the magnitude.
pub open spec fn decimal(n: int) -> Seq<char> {
    if n < 0 {
        seq!['-'] + digits_of((-n) as nat)
    } else {
        digits_of(n as nat)
    }
}

fn push_digits(s: &mut String, m: u64)
    ensures
        final(s)@ == old(s)@ + digits_of(m as nat),
    decreases m,
{
    if m >= 10 {
        push_digits(s, m / 10);
    }
    let d = (m % 10) as u8;
    let c = (48u8 + d) as char;
    assert(c == digit_char((m % 10) as int));
    push_char(s, c);
    assert(s@ =~= old(s)@ + digits_of(m as nat));
}

/// The decimal notation of `n`.
pub fn decimal_string(n: i64) -> (r: String)
    ensures
        r@ == decimal(n as int),
{
    let mut s = String::new();
    if n < 0 {
        push_char(&mut s, '-');
        let m: u64 = (0i128 - n as i128) as u64;
        push_digits(&mut s, m);
    } else {
        push_digits(&mut s, n as u64);
    }
    s
}


// ---------------------------------------------------------------------------
// Reading an `i32` from text
// ---------------------------------------------------------------------------

/// Whether `c` is an ASCII decimal digit.
pub open spec fn is_digit(c: char) -> bool {
    '0' <= c && c <= '9'
}

/// Whether every character of `s` is an ASCII decimal digit.
pub open spec fn all_digits(s: Seq<char>) -> bool {
    forall|i: int| 0 <= i < s.len() ==> is_digit(#[trigger] s[i])
}

/// The number that the digits `s` denote.
pub open spec fn digits_value(s: Seq<char>) -> int
    decreases s.len(),
{
    if s.len() == 0 {
        0
    } else {
        digits_value(s.drop_last()) * 10 + (s.last() as int - 48)
    }
}

/// What `str::parse::<i32>` gives: an optional `+` or `-` sign followed by
/// at least one decimal digit and nothing else, whose value lies in the range
/// of `i32`; `None` for every other text.
pub open spec fn parse_i32_spec(s: Seq<char>) -> Option<i32> {
    let signed = s.len() > 0 && (s[0] == '-' || s[0] == '+');
    let body = if signed { s.drop_first() } else { s };
    if body.len() == 0 || !all_digits(body) {
        None
    } else {
        let v = if s[0] == '-' { -digits_value(body) } else { digits_value(body) };
        if i32::MIN <= v <= i32::MAX {
            Some(v as i32)
        } else {
            None
        }
    }
}

/// Reads an `i32` written in decimal, as `str::parse::<i32>` does.
pub fn parse_i32(s: &str) -> (r: Option<i32>)
    ensures
        r == parse_i32_spec(s@),
{
    let v = chars_of(s);
    let n = v.len();
    let mut start: usize = 0;
    if n > 0 && (v[0] == '-' || v[0] == '+') {
        start = 1;
    }
    let ghost body = if start == 1 { s@.drop_first() } else { s@ };
    assert(body =~= v@.subrange(start as int, n as int));
    assert(body == (if s@.len() > 0 && (s@[0] == '-' || s@[0] == '+') {
        s@.drop_first()
    } else {
        s@
    }));
    if start == n {
        return None;
    }
    let big: i64 = 2147483649;
    let mut acc: i64 = 0;
    let mut i: usize = start;
    while i < n
        invariant
            v@ == s@,
            n == v.len(),
            start <= i <= n,
            body == v@.subrange(start as int, n as int),
            body == (if s@.len() > 0 && (s@[0] == '-' || s@[0] == '+') {
                s@.drop_first()
            } else {
                s@
            }),
            body.len() > 0,
            0 <= acc <= big,
            big == 2147483649,
            all_digits(v@.subrange(start as int, i as int)),
            acc == (if digits_value(v@.subrange(start as int, i as int)) >= big {
                big as int
            } else {
                digits_value(v@.subrange(start as int, i as int))
            }),
        decreases n - i,
    {
        let c = v[i];
        if !('0' <= c && c <= '9') {
            assert(body[i - start] == c);
            assert(!is_digit(body[i - start]));
            assert(!all_digits(body));
            assert(parse_i32_spec(s@) is None);
            return None;
        }
        let d: i64 = (c as u32 - 48) as i64;
        let ghost pre = v@.subrange(start as int, i as int);
        let ghost post = v@.subrange(start as int, i + 1);
        assert(post.drop_last() =~= pre);
        assert(digits_value(post) == digits_value(pre) * 10 + d);
        if acc < big {
            let t = acc * 10 + d;
            acc = if t > big { big } else { t };
        }
        i += 1;
        assert(all_digits(v@.subrange(start as int, i as int))) by {
            assert(forall|j: int| 0 <= j < post.len() ==> post[j] == v@[start + j]);
        }
    }
    assert(v@.subrange(start as int, n as int) == body);
    let val: i64 = if v[0] == '-' { -acc } else { acc };
    if val < -2147483648 || val > 2147483647 {
        None
    } else {
        Some(val as i32)
    }
}


proof fn lemma_digits_of(n: nat)
    ensures
        digits_of(n).len() > 0,
        all_digits(digits_of(n)),
        digits_value(digits_of(n)) == n,
    decreases n,
{
    if n < 10 {
        let d = digits_of(n);
        assert(digit_char(n as int) as int == n + 48);
        assert(d.drop_last() =~= Seq::<char>::empty());
        assert(digits_value(d.drop_last()) == 0);
        assert(digits_value(d) == n);
    } else {
        assert(digit_char((n % 10) as int) as int == n % 10 + 48);
        lemma_digits_of(n / 10);
        let d = digits_of(n);
        assert(d.drop_last() =~= digits_of(n / 10));
        assert(forall|i: int| 0 <= i < d.len() - 1 ==> d[i] == digits_of(n / 10)[i]);
        assert(d.last() == digit_char((n % 10) as int));
        assert(n == (n / 10) * 10 + n % 10) by (nonlinear_arith);
        assert(digits_value(d) == digits_value(digits_of(n / 10)) * 10 + (n % 10));
        assert(digits_value(d) == n);
    }
}

/// Writing an `i32` in decimal and reading it back gives the same number:
/// `parse_i32(decimal_string(n)) == Some(n)`.
pub proof fn lemma_parse_decimal_roundtrip(n: i32)
    ensures
        parse_i32_spec(decimal(n as int)) == Some(n),
{
    if n < 0 {
        let m = (-n) as nat;
        lemma_digits_of(m);
        let s = decimal(n as int);
        assert(s.drop_first() =~= digits_of(m));
    } else {
        lemma_digits_of(n as nat);
        let d = digits_of(n as nat);
        assert(is_digit(d[0]));
    }
}

// ---------------------------------------------------------------------------
// Trimming and splitting
// ---------------------------------------------------------------------------

/// The characters that `char::is_whitespace` accepts (Unicode `White_Space`).
pub open spec fn is_whitespace(c: char) -> bool {
    ||| c == '\t' || c == '\n' || c == '\u{0B}' || c == '\u{0C}' || c == '\r'
    ||| c == ' ' || c == '\u{85}' || c == '\u{A0}' || c == '\u{1680}'
    ||| ('\u{2000}' <= c && c <= '\u{200A}')
    ||| c == '\u{2028}' || c == '\u{2029}' || c == '\u{202F}' || c == '\u{205F}'
    ||| c == '\u{3000}'
}

fn is_whitespace_exec(c: char) -> (r: bool)
    ensures
        r == is_whitespace(c),
{
    c == '\t' || c == '\n' || c == '\u{0B}' || c == '\u{0C}' || c == '\r' || c == ' '
        || c == '\u{85}' || c == '\u{A0}' || c == '\u{1680}' || ('\u{2000}' <= c && c
        <= '\u{200A}') || c == '\u{2028}' || c == '\u{2029}' || c == '\u{202F}' || c
        == '\u{205F}' || c == '\u{3000}'
}

/// The index of the first character at or after `i` that is no whitespace
/// (the length of `s` if there is none).
pub open spec fn skip_spaces_from(s: Seq<char>, i: int) -> int
    decreases s.len() - i,
{
    if i < 0 || i >= s.len() || !is_whitespace(s[i]) {
        i
    } else {
        skip_spaces_from(s, i + 1)
    }
}

/// The end of `s[lo..j]` once the whitespace at its end is dropped.
pub open spec fn drop_spaces_back(s: Seq<char>, lo: int, j: int) -> int
    decreases j - lo,
{
    if j <= lo || j > s.len() || !is_whitespace(s[j - 1]) {
        j
    } else {
        drop_spaces_back(s, lo, j - 1)
    }
}

/// `s` without its leading and trailing whitespace, as `str::trim` gives it.
pub open spec fn trim(s: Seq<char>) -> Seq<char> {
    let a = skip_spaces_from(s, 0);
    s.subrange(a, drop_spaces_back(s, a, s.len() as int))
}



/// The characters of `s` without leading and trailing whitespace.
pub fn trim_chars(s: &str) -> (r: Vec<char>)
    ensures
        r@ == trim(s@),
{
    let v = chars_of(s);
    let n = v.len();
    let mut a: usize = 0;
    while a < n && is_whitespace_exec(v[a])
        invariant
            v@ == s@,
            n == v.len(),
            a <= n,
            skip_spaces_from(s@, 0) == skip_spaces_from(s@, a as int),
        decreases n - a,
    {
        a += 1;
    }
    let mut b: usize = n;
    while b > a && is_whitespace_exec(v[b - 1])
        invariant
            v@ == s@,
            n == v.len(),
            a <= b <= n,
            a == skip_spaces_from(s@, 0),
            drop_spaces_back(s@, a as int, n as int) == drop_spaces_back(s@, a as int, b as int),
        decreases b,
    {
        b -= 1;
    }
    let mut r: Vec<char> = Vec::new();
    let mut i: usize = a;
    while i < b
        invariant
            v@ == s@,
            a <= i <= b <= n == v.len(),
            r@ == v@.subrange(a as int, i as int),
        decreases b - i,
    {
        r.push(v[i]);
        i += 1;
        assert(r@ =~= v@.subrange(a as int, i as int));
    }
    r
}

/// `s` without leading and trailing whitespace, as a string.
pub fn trim_string(s: &str) -> (r: String)
    ensures
        r@ == trim(s@),
{
    let v = trim_chars(s);
    string_of(&v, 0, v.len())
}

/// The index of the first `c` in `s` at or after `i` (the length of `s` if
/// there is none).
pub open spec fn index_of_from(s: Seq<char>, c: char, i: int) -> int
    decreases s.len() - i,
{
    if i < 0 || i >= s.len() || s[i] == c {
        i
    } else {
        index_of_from(s, c, i + 1)
    }
}

/// What `str::split_once` with a one-character pattern gives: the text before
/// the first `c` and the text after it, or `None` when `s` holds no `c`.
pub open spec fn split_once(s: Seq<char>, c: char) -> Option<(Seq<char>, Seq<char>)> {
    let i = index_of_from(s, c, 0);
    if i >= s.len() {
        None
    } else {
        Some((s.take(i), s.skip(i + 1)))
    }
}


/// The index of the first `c` in `v` (the length of `v` if there is none).
pub fn index_of(v: &Vec<char>, c: char) -> (r: usize)
    ensures
        r == index_of_from(v@, c, 0),
        r <= v.len(),
{
    let mut i: usize = 0;
    while i < v.len() && v[i] != c
        invariant
            i <= v.len(),
            index_of_from(v@, c, 0) == index_of_from(v@, c, i as int),
        decreases v.len() - i,
    {
        i += 1;
    }
    i
}

// ---------------------------------------------------------------------------
// Case folding and padding
// ---------------------------------------------------------------------------

/// What `str::to_lowercase` gives for a text (Unicode lowercase mapping).
pub uninterp spec fn lowercase(s: Seq<char>) -> Seq<char>;

/// Whether `c` lies in Latin-1 (U+0000 to U+00FF).
pub open spec fn is_latin1(c: char) -> bool {
    (c as int) < 256
}

/// Whether every character of `s` lies in Latin-1.
pub open spec fn latin1_text(s: Seq<char>) -> bool {
    forall|i: int| 0 <= i < s.len() ==> is_latin1(#[trigger] s[i])
}

/// Whether `c` is a Latin-1 capital letter: `A` to `Z`, `À` to `Ö` and `Ø` to
/// `Þ`.
pub open spec fn is_latin1_capital(c: char) -> bool {
    ('A' <= c && c <= 'Z') || ('\u{C0}' <= c && c <= '\u{DE}' && c != '\u{D7}')
}

/// The Unicode lowercase of a Latin-1 character: each capital letter becomes
/// the small letter 32 code points above it; every other character stays.
pub open spec fn latin1_lower(c: char) -> char {
    if is_latin1_capital(c) {
        ((c as int) + 32) as char
    } else {
        c
    }
}

/// The Unicode lowercase of a Latin-1 text, character by character.
pub open spec fn latin1_lowercase(s: Seq<char>) -> Seq<char> {
    s.map_values(|c: char| latin1_lower(c))
}

/// The lowercase of a text as `str::to_lowercase` gives it, with the Latin-1
/// case spelled out.
pub open spec fn folded(s: Seq<char>) -> Seq<char> {
    if latin1_text(s) {
        latin1_lowercase(s)
    } else {
        lowercase(s)
    }
}

/// `str::to_lowercase`: the result is the Unicode lowercase mapping of `s`,
/// which depends on `s` alone. On Latin-1 text that mapping works character
/// by character: the capitals `A`-`Z`, `À`-`Ö` and `Ø`-`Þ` become their small
/// letters and every other character stays; beyond Latin-1 the mapping is
/// left unstated.
#[verifier::external_body]
pub(crate) fn to_lowercase(s: &str) -> (r: String)
    ensures
        r@ == lowercase(s@),
        latin1_text(s@) ==> r@ == latin1_lowercase(s@),
{
    s.to_lowercase()
}

/// Two Latin-1 texts that differ only in the case of their letters have the
/// same lowercase: when every character of `a` is `b`'s, or its capital or
/// small counterpart, `folded(a) == folded(b)`.
pub proof fn lemma_lowercase_ignores_latin1_case(a: Seq<char>, b: Seq<char>)
    requires
        latin1_text(a),
        latin1_text(b),
        a.len() == b.len(),
        forall|i: int| 0 <= i < a.len() ==> latin1_lower(#[trigger] a[i]) == latin1_lower(b[i]),
    ensures
        folded(a) == folded(b),
{
    assert(latin1_lowercase(a) =~= latin1_lowercase(b));
}

/// Lowercasing a Latin-1 capital letter gives another character: the case of
/// letters is really folded, accented capitals included.
pub proof fn lemma_latin1_capitals_change(s: Seq<char>, i: int)
    requires
        latin1_text(s),
        0 <= i < s.len(),
        is_latin1_capital(s[i]),
    ensures
        folded(s).len() == s.len(),
        folded(s)[i] != s[i],
        folded(s)[i] as int == s[i] as int + 32,
{
}

/// `n` spaces.
pub open spec fn spaces(n: int) -> Seq<char> {
    Seq::new(n as nat, |i: int| ' ')
}

/// `s` followed by spaces up to a width of `w` characters (`{:<w}`).
pub open spec fn pad_right(s: Seq<char>, w: int) -> Seq<char> {
    if s.len() < w {
        s + spaces(w - s.len())
    } else {
        s
    }
}

/// `s` preceded by spaces up to a width of `w` characters (`{:>w}`).
pub open spec fn pad_left(s: Seq<char>, w: int) -> Seq<char> {
    if s.len() < w {
        spaces(w - s.len()) + s
    } else {
        s
    }
}

fn push_spaces(s: &mut String, n: usize)
    ensures
        final(s)@ == old(s)@ + spaces(n as int),
{
    let mut k: usize = 0;
    while k < n
        invariant
            k <= n,
            s@ == old(s)@ + spaces(k as int),
        decreases n - k,
    {
        push_char(s, ' ');
        k += 1;
        assert(s@ =~= old(s)@ + spaces(k as int));
    }
}

/// Appends `t` padded with spaces on the right to `w` characters.
pub(crate) fn push_padded_right(s: &mut String, t: &str, w: usize)
    ensures
        final(s)@ == old(s)@ + pad_right(t@, w as int),
{
    let v = chars_of(t);
    push_str(s, t);
    if v.len() < w {
        push_spaces(s, w - v.len());
    }
    assert(s@ =~= old(s)@ + pad_right(t@, w as int));
}

/// Appends `t` padded with spaces on the left to `w` characters.
pub(crate) fn push_padded_left(s: &mut String, t: &str, w: usize)
    ensures
        final(s)@ == old(s)@ + pad_left(t@, w as int),
{
    let v = chars_of(t);
    if v.len() < w {
        push_spaces(s, w - v.len());
    }
    push_str(s, t);
    assert(s@ =~= old(s)@ + pad_left(t@, w as int));
}

} // verus!
