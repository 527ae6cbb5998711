use vstd::prelude::*;
use vstd::string::*;

verus! {

/// Whether `needle` occurs in `hay` as a contiguous run of characters.
pub open spec fn has_substring(hay: Seq<char>, needle: Seq<char>) -> bool {
    exists|k: int|
        0 <= k && k + needle.len() <= hay.len() && #[trigger] hay.subrange(k, k + needle.len())
            == needle
}

/// Whether two strings hold the same characters.
pub fn str_eq(a: &str, b: &str) -> (r: bool)
    ensures
        r == (a@ == b@),
{
    a.to_owned() == b.to_owned()
}

/// Whether `needle` occurs in `hay` (true for an empty `needle`).
pub fn str_contains(hay: &str, needle: &str) -> (r: bool)
    ensures
        r == has_substring(hay@, needle@),
{
    let hl = hay.unicode_len();
    let nl = needle.unicode_len();
    if nl > hl {
        return false;
    }
    let last = hl - nl;
    let mut k: usize = 0;
    while k < last
        invariant
            hl == hay@.len(),
            nl == needle@.len(),
            last == hl - nl,
            k <= last,
            forall|j: int| 0 <= j < k ==> #[trigger] hay@.subrange(j, j + nl) != needle@,
        decreases last - k,
    {
        if str_eq(hay.substring_char(k, k + nl), needle) {
            assert(hay@.subrange(k as int, k + needle@.len()) == needle@);
            return true;
        }
        k = k + 1;
    }
    if str_eq(hay.substring_char(last, hl), needle) {
        assert(hay@.subrange(last as int, last + needle@.len()) == needle@);
        return true;
    }
    proof {
        assert forall|j: int| 0 <= j && j + needle@.len() <= hay@.len() implies #[trigger] hay@.subrange(
            j,
            j + needle@.len(),
        ) != needle@ by {
            if j < k {
            } else {
                assert(j == last);
            }
        }
    }
    false
}

/// The decimal digit character for `d` (0 through 9).
pub open spec fn digit_char(d: int) -> char {
    seq!['0', '1', '2', '3', '4', '5', '6', '7', '8', '9'][d]
}

/// The decimal text of `n`, without leading zeros (as `to_string` prints it).
pub open spec fn decimal(n: nat) -> Seq<char>
    decreases n,
{
    if n < 10 {
        seq![digit_char(n as int)]
    } else {
        decimal(n / 10).push(digit_char((n % 10) as int))
    }
}

/// The digit characters are distinct.
pub proof fn lemma_digit_char_injective(a: int, b: int)
    requires
        0 <= a < 10,
        0 <= b < 10,
        digit_char(a) == digit_char(b),
    ensures
        a == b,
{
}

/// A decimal text is never empty; it has a single character exactly when the
/// number is below ten.
pub proof fn lemma_decimal_len(n: nat)
    ensures
        decimal(n).len() >= 1,
        (decimal(n).len() == 1) == (n < 10),
    decreases n,
{
    if n >= 10 {
        lemma_decimal_len(n / 10);
    }
}

/// Different numbers have different decimal texts.
pub proof fn lemma_decimal_injective(a: nat, b: nat)
    requires
        decimal(a) == decimal(b),
    ensures
        a == b,
    decreases a,
{
    lemma_decimal_len(a);
    lemma_decimal_len(b);
    if a < 10 {
        if b >= 10 {
            assert(decimal(a).len() != decimal(b).len());
        } else {
            assert(decimal(a)[0] == digit_char(a as int));
            assert(decimal(b)[0] == digit_char(b as int));
            lemma_digit_char_injective(a as int, b as int);
        }
    } else {
        if b < 10 {
            assert(decimal(a).len() != decimal(b).len());
        } else {
            let da = decimal(a);
            let db = decimal(b);
            assert(da.last() == db.last());
            lemma_digit_char_injective((a % 10) as int, (b % 10) as int);
            assert(da.drop_last() =~= decimal(a / 10));
            assert(db.drop_last() =~= decimal(b / 10));
            lemma_decimal_injective(a / 10, b / 10);
        }
    }
}

/// The one-character text of the digit `d`.
fn digit_str(d: u64) -> (s: &'static str)
    requires
        d < 10,
    ensures
        s@ == seq![digit_char(d as int)],
{
    let digits = "0123456789";
    proof {
        reveal_strlit("0123456789");
    }
    let s = digits.substring_char(d as usize, (d + 1) as usize);
    proof {
        assert(s@ =~= seq![digit_char(d as int)]);
    }
    s
}

/// Appends the decimal text of `n` to `out`.
pub fn push_decimal(out: &mut String, n: u64)
    ensures
        final(out)@ == old(out)@ + decimal(n as nat),
    decreases n,
{
    if n < 10 {
        out.append(digit_str(n));
    } else {
        push_decimal(out, n / 10);
        out.append(digit_str(n % 10));
        proof {
            assert(decimal(n as nat) == decimal((n / 10) as nat).push(digit_char((n % 10) as int)));
        }
    }
}

/// The decimal text of `n`.
pub fn to_decimal(n: u64) -> (s: String)
    ensures
        s@ == decimal(n as nat),
{
    let mut s = String::new();
    push_decimal(&mut s, n);
    proof {
        assert(s@ =~= decimal(n as nat));
    }
    s
}

/// Whether `c` is white space as `char::is_whitespace` defines it (the
/// Unicode `White_Space` property).
pub open spec fn is_whitespace(c: char) -> bool {
    c == '\u{9}' || c == '\u{a}' || c == '\u{b}' || c == '\u{c}' || c == '\u{d}' || c == ' '
        || c == '\u{85}' || c == '\u{a0}' || c == '\u{1680}' || ('\u{2000}' <= c && c
        <= '\u{200a}') || c == '\u{2028}' || c == '\u{2029}' || c == '\u{202f}' || c
        == '\u{205f}' || c == '\u{3000}'
}

/// Whether `c` is white space.
pub fn char_is_whitespace(c: char) -> (r: bool)
    ensures
        r == is_whitespace(c),
{
    c == '\u{9}' || c == '\u{a}' || c == '\u{b}' || c == '\u{c}' || c == '\u{d}' || c == ' '
        || c == '\u{85}' || c == '\u{a0}' || c == '\u{1680}' || ('\u{2000}' <= c && c
        <= '\u{200a}') || c == '\u{2028}' || c == '\u{2029}' || c == '\u{202f}' || c
        == '\u{205f}' || c == '\u{3000}'
}

/// Whether `s` holds only white space (true for the empty string); this is
/// `s.trim().is_empty()`.
pub fn is_blank_str(s: &str) -> (r: bool)
    ensures
        r == forall|i: int| 0 <= i < s@.len() ==> is_whitespace(#[trigger] s@[i]),
{
    let n = s.unicode_len();
    let mut i: usize = 0;
    while i < n
        invariant
            n == s@.len(),
            i <= n,
            forall|j: int| 0 <= j < i ==> is_whitespace(#[trigger] s@[j]),
        decreases n - i,
    {
        if !char_is_whitespace(s.get_char(i)) {
            return false;
        }
        i = i + 1;
    }
    true
}

/// Number of leading white-space characters of `s`.
pub open spec fn leading_ws(s: Seq<char>) -> nat
    decreases s.len(),
{
    if s.len() > 0 && is_whitespace(s[0]) {
        1 + leading_ws(s.drop_first())
    } else {
        0
    }
}

/// Number of trailing white-space characters of `s`.
pub open spec fn trailing_ws(s: Seq<char>) -> nat
    decreases s.len(),
{
    if s.len() > 0 && is_whitespace(s.last()) {
        1 + trailing_ws(s.drop_last())
    } else {
        0
    }
}

/// `s` without leading and trailing white space, as `str::trim` gives it.
pub open spec fn trimmed(s: Seq<char>) -> Seq<char> {
    let a = leading_ws(s) as int;
    if a == s.len() {
        Seq::empty()
    } else {
        s.subrange(a, s.len() - trailing_ws(s))
    }
}

proof fn lemma_leading_ws(s: Seq<char>, i: int)
    requires
        0 <= i <= s.len(),
        forall|j: int| 0 <= j < i ==> is_whitespace(#[trigger] s[j]),
        i < s.len() ==> !is_whitespace(s[i]),
    ensures
        leading_ws(s) == i,
    decreases s.len(),
{
    if i > 0 {
        assert forall|j: int| 0 <= j < i - 1 implies is_whitespace(#[trigger] s.drop_first()[j]) by {
            assert(s.drop_first()[j] == s[j + 1]);
        }
        if i - 1 < s.len() - 1 {
            assert(s.drop_first()[i - 1] == s[i]);
        }
        lemma_leading_ws(s.drop_first(), i - 1);
    }
}

proof fn lemma_trailing_ws(s: Seq<char>, k: int)
    requires
        0 <= k <= s.len(),
        forall|j: int| s.len() - k <= j < s.len() ==> is_whitespace(#[trigger] s[j]),
        k < s.len() ==> !is_whitespace(s[s.len() - k - 1]),
    ensures
        trailing_ws(s) == k,
    decreases s.len(),
{
    if k > 0 {
        let t = s.drop_last();
        assert forall|j: int| t.len() - (k - 1) <= j < t.len() implies is_whitespace(#[trigger] t[j]) by {
            assert(t[j] == s[j]);
        }
        if k - 1 < t.len() {
            assert(t[t.len() - (k - 1) - 1] == s[s.len() - k - 1]);
        }
        lemma_trailing_ws(t, k - 1);
    }
}

/// `s` without leading and trailing white space.
pub fn trim(s: &str) -> (r: String)
    ensures
        r@ == trimmed(s@),
{
    let n = s.unicode_len();
    let mut a: usize = 0;
    while a < n && char_is_whitespace(s.get_char(a))
        invariant
            n == s@.len(),
            a <= n,
            forall|j: int| 0 <= j < a ==> is_whitespace(#[trigger] s@[j]),
        decreases n - a,
    {
        a = a + 1;
    }
    proof {
        lemma_leading_ws(s@, a as int);
    }
    if a == n {
        return String::new();
    }
    let mut b: usize = n;
    while b > a && char_is_whitespace(s.get_char(b - 1))
        invariant
            n == s@.len(),
            a < n,
            !is_whitespace(s@[a as int]),
            a <= b <= n,
            forall|j: int| b <= j < n ==> is_whitespace(#[trigger] s@[j]),
        decreases b,
    {
        b = b - 1;
    }
    proof {
        lemma_trailing_ws(s@, (n - b) as int);
    }
    s.substring_char(a, b).to_owned()
}

/// `s` with every occurrence of `pat` replaced by `with`, scanning from the
/// left and not overlapping, as `str::replace` does for a non-empty pattern.
pub open spec fn replaced(s: Seq<char>, pat: Seq<char>, with: Seq<char>) -> Seq<char>
    recommends
        pat.len() > 0,
    decreases s.len(),
{
    if pat.len() == 0 || s.len() < pat.len() {
        s
    } else if s.take(pat.len() as int) == pat {
        with + replaced(s.skip(pat.len() as int), pat, with)
    } else {
        seq![s[0]] + replaced(s.skip(1), pat, with)
    }
}

/// Whether `pat` occurs in `s` at position `i`.
fn occurs_at(s: &str, n: usize, pat: &str, m: usize, i: usize) -> (r: bool)
    requires
        n == s@.len(),
        m == pat@.len(),
        i + m <= n,
    ensures
        r == (s@.subrange(i as int, i + m) == pat@),
{
    let mut k: usize = 0;
    while k < m
        invariant
            n == s@.len(),
            m == pat@.len(),
            i + m <= n,
            k <= m,
            forall|j: int| 0 <= j < k ==> s@[i + j] == #[trigger] pat@[j],
        decreases m - k,
    {
        if s.get_char(i + k) != pat.get_char(k) {
            proof {
                assert(s@.subrange(i as int, i + m)[k as int] != pat@[k as int]);
            }
            return false;
        }
        k = k + 1;
    }
    proof {
        assert(s@.subrange(i as int, i + m) =~= pat@);
    }
    true
}

/// `s` with every occurrence of `pat` replaced by `with`.
pub fn replace_all(s: &str, pat: &str, with: &str) -> (r: String)
    requires
        pat@.len() > 0,
    ensures
        r@ == replaced(s@, pat@, with@),
{
    let n = s.unicode_len();
    let m = pat.unicode_len();
    let mut out = String::new();
    let mut i: usize = 0;
    proof {
        assert(s@.skip(0) =~= s@);
        assert(out@ + replaced(s@.skip(0), pat@, with@) =~= replaced(s@, pat@, with@));
    }
    while i < n
        invariant
            n == s@.len(),
            m == pat@.len(),
            m > 0,
            i <= n,
            out@ + replaced(s@.skip(i as int), pat@, with@) == replaced(s@, pat@, with@),
        decreases n - i,
    {
        let ghost rest = s@.skip(i as int);
        if m <= n - i && occurs_at(s, n, pat, m, i) {
            proof {
                assert(rest.take(m as int) =~= s@.subrange(i as int, i + m));
                assert(rest.skip(m as int) =~= s@.skip(i + m));
            }
            out.append(with);
            i = i + m;
        } else {
            proof {
                if rest.len() >= m {
                    assert(rest.take(m as int) =~= s@.subrange(i as int, i + m));
                }
                assert(rest.skip(1) =~= s@.skip(i + 1));
                assert(rest[0] == s@[i as int]);
            }
            let c = s.substring_char(i, i + 1);
            proof {
                assert(c@ =~= seq![rest[0]]);
            }
            out.append(c);
            i = i + 1;
        }
        proof {
            assert(out@ + replaced(s@.skip(i as int), pat@, with@) =~= replaced(s@, pat@, with@));
        }
    }
    proof {
        assert(s@.skip(n as int) =~= Seq::<char>::empty());
        assert(out@ =~= out@ + replaced(s@.skip(n as int), pat@, with@));
    }
    out
}

/// The four decimal digits of `n` (below 10000), with leading zeros.
pub open spec fn four_digits(n: nat) -> Seq<char> {
    seq![
        digit_char((n / 1000) as int),
        digit_char(((n / 100) % 10) as int),
        digit_char(((n / 10) % 10) as int),
        digit_char((n % 10) as int),
    ]
}

/// `raw` / 127 rounded to four decimals, in units of 1/10000.
pub open spec fn norm_units(raw: u8) -> nat {
    ((raw as nat * 20000 + 127) / 254) as nat
}

/// The text of `raw` / 127 with four decimals, as `format!("{:.4}", ..)`
/// prints the quotient.
pub open spec fn norm_text(raw: u8) -> Seq<char> {
    decimal(norm_units(raw) / 10000) + seq!['.'] + four_digits(norm_units(raw) % 10000)
}

/// The text of `raw` / 127 with four decimals.
pub fn norm_value_text(raw: u8) -> (s: String)
    ensures
        s@ == norm_text(raw),
{
    let units: u32 = (raw as u32 * 20000 + 127) / 254;
    let mut s = String::new();
    push_decimal(&mut s, (units / 10000) as u64);
    s.append(".");
    let frac = units % 10000;
    s.append(digit_str((frac / 1000) as u64));
    s.append(digit_str(((frac / 100) % 10) as u64));
    s.append(digit_str(((frac / 10) % 10) as u64));
    s.append(digit_str((frac % 10) as u64));
    proof {
        reveal_strlit(".");
        assert(s@ =~= norm_text(raw));
    }
    s
}

/// The upper-case hexadecimal digit for `d` (0 through 15).
pub open spec fn hex_digit(d: int) -> char {
    seq!['0', '1', '2', '3', '4', '5', '6', '7', '8', '9', 'A', 'B', 'C', 'D', 'E', 'F'][d]
}

/// The bytes of `data` as two upper-case hexadecimal digits each, separated
/// by single spaces.
pub open spec fn hex_line(data: Seq<u8>) -> Seq<char>
    decreases data.len(),
{
    if data.len() == 0 {
        Seq::empty()
    } else if data.len() == 1 {
        seq![hex_digit((data[0] / 16) as int), hex_digit((data[0] % 16) as int)]
    } else {
        hex_line(data.drop_last()) + seq![' ', hex_digit((data.last() / 16) as int), hex_digit((data.last() % 16) as int)]
    }
}

fn hex_str(d: u8) -> (s: &'static str)
    requires
        d < 16,
    ensures
        s@ == seq![hex_digit(d as int)],
{
    let digits = "0123456789ABCDEF";
    proof {
        reveal_strlit("0123456789ABCDEF");
    }
    let s = digits.substring_char(d as usize, (d + 1) as usize);
    proof {
        assert(s@ =~= seq![hex_digit(d as int)]);
    }
    s
}

/// Appends the hexadecimal text of `data` to `out`.
pub fn push_hex_line(out: &mut String, data: &[u8])
    ensures
        final(out)@ == old(out)@ + hex_line(data@),
{
    let mut i: usize = 0;
    proof {
        assert(data@.take(0) =~= Seq::<u8>::empty());
        assert(out@ =~= old(out)@ + hex_line(data@.take(0)));
    }
    while i < data.len()
        invariant
            i <= data@.len(),
            out@ == old(out)@ + hex_line(data@.take(i as int)),
        decreases data@.len() - i,
    {
        let b = data[i];
        if i > 0 {
            out.append(" ");
        }
        out.append(hex_str(b / 16));
        out.append(hex_str(b % 16));
        proof {
            reveal_strlit(" ");
            let t = data@.take(i + 1);
            assert(t.drop_last() =~= data@.take(i as int));
            assert(t.last() == b);
            if i == 0 {
                assert(t.len() == 1);
            }
            assert(out@ =~= old(out)@ + hex_line(t));
        }
        i = i + 1;
    }
    proof {
        assert(data@.take(i as int) =~= data@);
    }
}

} // verus!
