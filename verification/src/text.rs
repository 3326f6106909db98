//! Text handling shared by the tools: Unicode whitespace, trimming,
//! splitting at a separator and decimal number parsing.

use vstd::prelude::*;
use vstd::string::StrSliceExecFns;

verus! {

/// The Unicode `White_Space` property, as `char::is_whitespace` documents it.
pub open spec fn is_space(c: char) -> bool {
    let u = c as u32;
    ||| 0x9 <= u <= 0xD
    ||| u == 0x20
    ||| u == 0x85
    ||| u == 0xA0
    ||| u == 0x1680
    ||| 0x2000 <= u <= 0x200A
    ||| u == 0x2028
    ||| u == 0x2029
    ||| u == 0x202F
    ||| u == 0x205F
    ||| u == 0x3000
}

/// Whether `c` is Unicode whitespace.
pub fn is_whitespace(c: char) -> (r: bool)
    ensures
        r == is_space(c),
{
    let u = c as u32;
    (0x9 <= u && u <= 0xD) || u == 0x20 || u == 0x85 || u == 0xA0 || u == 0x1680 || (0x2000 <= u
        && u <= 0x200A) || u == 0x2028 || u == 0x2029 || u == 0x202F || u == 0x205F || u == 0x3000
}


/// `s` without its leading whitespace.
pub open spec fn trim_start(s: Seq<char>) -> Seq<char>
    decreases s.len(),
{
    if s.len() > 0 && is_space(s[0]) {
        trim_start(s.drop_first())
    } else {
        s
    }
}

/// `s` without its trailing whitespace.
pub open spec fn trim_end(s: Seq<char>) -> Seq<char>
    decreases s.len(),
{
    if s.len() > 0 && is_space(s.last()) {
        trim_end(s.drop_last())
    } else {
        s
    }
}

/// `s` without leading and trailing whitespace, as `str::trim` gives it.
pub open spec fn trimmed(s: Seq<char>) -> Seq<char> {
    trim_end(trim_start(s))
}

/// Neither end of `s` is whitespace.
pub open spec fn is_trimmed(s: Seq<char>) -> bool {
    s.len() > 0 ==> !is_space(s[0]) && !is_space(s.last())
}

proof fn lemma_trim_start_shape(s: Seq<char>)
    ensures
        trim_start(s).len() <= s.len(),
        trim_start(s) =~= s.subrange(s.len() - trim_start(s).len(), s.len() as int),
        trim_start(s).len() > 0 ==> !is_space(trim_start(s)[0]),
    decreases s.len(),
{
    if s.len() > 0 && is_space(s[0]) {
        lemma_trim_start_shape(s.drop_first());
    }
}

proof fn lemma_trim_end_shape(s: Seq<char>)
    ensures
        trim_end(s).len() <= s.len(),
        trim_end(s) =~= s.subrange(0, trim_end(s).len() as int),
        trim_end(s).len() > 0 ==> !is_space(trim_end(s).last()),
    decreases s.len(),
{
    if s.len() > 0 && is_space(s.last()) {
        lemma_trim_end_shape(s.drop_last());
    }
}

/// What `trimmed` gives has no whitespace at either end, and is a piece of `s`.
pub proof fn lemma_trimmed_shape(s: Seq<char>)
    ensures
        is_trimmed(trimmed(s)),
        exists|a: int, b: int| 0 <= a <= b <= s.len() && trimmed(s) == s.subrange(a, b),
{
    let t = trim_start(s);
    lemma_trim_start_shape(s);
    lemma_trim_end_shape(t);
    let u = trim_end(t);
    let a = s.len() - t.len();
    if u.len() > 0 {
        assert(u[0] == t[0]);
    }
    assert(u =~= s.subrange(a, a + u.len()));
}

/// A text with no whitespace at either end is left as it is by trimming.
pub proof fn lemma_trimmed_fixed(s: Seq<char>)
    requires
        is_trimmed(s),
    ensures
        trimmed(s) == s,
{
}

/// Trimming twice gives what trimming once gives.
pub proof fn lemma_trim_idempotent(s: Seq<char>)
    ensures
        trimmed(trimmed(s)) == trimmed(s),
{
    lemma_trimmed_shape(s);
    lemma_trimmed_fixed(trimmed(s));
}

proof fn lemma_trim_start_step(s: Seq<char>, i: int)
    requires
        0 <= i < s.len(),
        is_space(s[i]),
    ensures
        trim_start(s.subrange(i, s.len() as int)) == trim_start(s.subrange(i + 1, s.len() as int)),
{
    assert(s.subrange(i, s.len() as int).drop_first() =~= s.subrange(i + 1, s.len() as int));
}

proof fn lemma_trim_end_step(s: Seq<char>, i: int, j: int)
    requires
        0 <= i < j <= s.len(),
        is_space(s[j - 1]),
    ensures
        trim_end(s.subrange(i, j)) == trim_end(s.subrange(i, j - 1)),
{
    assert(s.subrange(i, j).drop_last() =~= s.subrange(i, j - 1));
}

/// `s` without leading and trailing Unicode whitespace.
pub fn trim(s: &str) -> (r: &str)
    ensures
        r@ == trimmed(s@),
{
    let n = s.unicode_len();
    let mut i: usize = 0;
    assert(s@.subrange(0, n as int) =~= s@);
    while i < n && is_whitespace(s.get_char(i))
        invariant
            n == s@.len(),
            0 <= i <= n,
            trim_start(s@) == trim_start(s@.subrange(i as int, n as int)),
        decreases n - i,
    {
        proof {
            lemma_trim_start_step(s@, i as int);
        }
        i = i + 1;
    }
    let ghost t = s@.subrange(i as int, n as int);
    assert(trim_start(t) == t);
    let mut j: usize = n;
    while j > i && is_whitespace(s.get_char(j - 1))
        invariant
            n == s@.len(),
            0 <= i <= j <= n,
            trim_start(s@) == t,
            t == s@.subrange(i as int, n as int),
            trim_end(t) == trim_end(s@.subrange(i as int, j as int)),
        decreases j - i,
    {
        proof {
            lemma_trim_end_step(s@, i as int, j as int);
        }
        j = j - 1;
    }
    assert(trim_end(s@.subrange(i as int, j as int)) == s@.subrange(i as int, j as int));
    s.substring_char(i, j)
}


/// Position of the first `c` in `s`, as `s@.index_of_first(c)` gives it.
pub fn find_first(s: &str, c: char) -> (r: Option<usize>)
    ensures
        r matches Some(i) ==> s@.index_of_first(c) == Some(i as int),
        r is None ==> s@.index_of_first(c) is None,
{
    let n = s.unicode_len();
    let mut i: usize = 0;
    while i < n
        invariant
            n == s@.len(),
            0 <= i <= n,
            forall|k: int| 0 <= k < i ==> s@[k] != c,
        decreases n - i,
    {
        if s.get_char(i) == c {
            proof {
                s@.index_of_first_ensures(c);
                assert(s@.contains(c));
            }
            return Some(i);
        }
        i = i + 1;
    }
    proof {
        s@.index_of_first_ensures(c);
    }
    None
}

/// Position of the last `c` in `s`, as `s@.index_of_last(c)` gives it.
pub fn find_last(s: &str, c: char) -> (r: Option<usize>)
    ensures
        r matches Some(i) ==> s@.index_of_last(c) == Some(i as int),
        r is None ==> s@.index_of_last(c) is None,
{
    let n = s.unicode_len();
    let mut i: usize = n;
    while i > 0
        invariant
            n == s@.len(),
            0 <= i <= n,
            forall|k: int| i <= k < n ==> s@[k] != c,
        decreases i,
    {
        if s.get_char(i - 1) == c {
            proof {
                s@.index_of_last_ensures(c);
                assert(s@.contains(c));
            }
            return Some(i - 1);
        }
        i = i - 1;
    }
    proof {
        s@.index_of_last_ensures(c);
    }
    None
}

/// Whether `a` and `b` hold the same characters.
pub fn same_text(a: &str, b: &str) -> (r: bool)
    ensures
        r == (a@ == b@),
{
    let n = a.unicode_len();
    if n != b.unicode_len() {
        return false;
    }
    let mut i: usize = 0;
    while i < n
        invariant
            n == a@.len() == b@.len(),
            0 <= i <= n,
            forall|k: int| 0 <= k < i ==> a@[k] == b@[k],
        decreases n - i,
    {
        if a.get_char(i) != b.get_char(i) {
            return false;
        }
        i = i + 1;
    }
    assert(a@ =~= b@);
    true
}

/// The text `str::to_lowercase` gives for `s`: the Unicode lowercase
/// mapping of each character, a function of `s` alone.
pub uninterp spec fn lowercase(s: Seq<char>) -> Seq<char>;

/// The text `str::to_uppercase` gives for `s`: the Unicode uppercase
/// mapping of each character, a function of `s` alone.
pub uninterp spec fn uppercase(s: Seq<char>) -> Seq<char>;

/// An ASCII lowercase letter mapped to its uppercase form; any other
/// character unchanged.
pub open spec fn ascii_upper_char(c: char) -> char {
    if 'a' <= c && c <= 'z' {
        ((c as u32) - 32) as char
    } else {
        c
    }
}

/// An ASCII uppercase letter mapped to its lowercase form; any other
/// character unchanged.
pub open spec fn ascii_lower_char(c: char) -> char {
    if 'A' <= c && c <= 'Z' {
        ((c as u32) + 32) as char
    } else {
        c
    }
}

/// `s` with its ASCII letters uppercased.
pub open spec fn ascii_uppercase(s: Seq<char>) -> Seq<char> {
    s.map_values(|c: char| ascii_upper_char(c))
}

/// `s` with its ASCII letters lowercased.
pub open spec fn ascii_lowercase(s: Seq<char>) -> Seq<char> {
    s.map_values(|c: char| ascii_lower_char(c))
}

/// Calls `str::to_lowercase`.  Its Unicode case tables are not restated
/// here: the contract claims that the result is `lowercase(s@)`, which
/// depends on `s` alone, and, as the documentation's mapping gives it for
/// ASCII text, that an ASCII text has just its letters `A`..`Z` lowercased.
#[verifier::external_body]
pub(crate) fn to_lowercase(s: &str) -> (r: String)
    ensures
        r@ == lowercase(s@),
        vstd::utf8::is_ascii_chars(s@) ==> r@ == ascii_lowercase(s@),
{
    s.to_lowercase()
}

/// Calls `str::to_uppercase`.  Its Unicode case tables are not restated
/// here: the contract claims that the result is `uppercase(s@)`, which
/// depends on `s` alone, and, as the documentation's mapping gives it for
/// ASCII text, that an ASCII text has just its letters `a`..`z` uppercased.
#[verifier::external_body]
pub(crate) fn to_uppercase(s: &str) -> (r: String)
    ensures
        r@ == uppercase(s@),
        vstd::utf8::is_ascii_chars(s@) ==> r@ == ascii_uppercase(s@),
{
    s.to_uppercase()
}

/// Two texts that differ only in the case of ASCII letters uppercase to
/// the same text.
pub proof fn lemma_ascii_case_variants(s: Seq<char>, t: Seq<char>)
    requires
        s.len() == t.len(),
        forall|i: int| 0 <= i < s.len() ==> ascii_upper_char(#[trigger] s[i]) == ascii_upper_char(t[i]),
    ensures
        ascii_uppercase(s) == ascii_uppercase(t),
{
    assert(ascii_uppercase(s) =~= ascii_uppercase(t));
}

/// An ASCII decimal digit.
pub open spec fn is_digit(c: char) -> bool {
    '0' <= c && c <= '9'
}

/// The number an ASCII decimal digit stands for.
pub open spec fn digit_value(c: char) -> nat {
    (c as int - '0' as int) as nat
}

/// Every character of `s` is an ASCII decimal digit.
pub open spec fn all_digits(s: Seq<char>) -> bool {
    forall|i: int| 0 <= i < s.len() ==> is_digit(#[trigger] s[i])
}

/// The number that the decimal digits `s` write.
pub open spec fn digits_value(s: Seq<char>) -> nat
    decreases s.len(),
{
    if s.len() == 0 {
        0
    } else {
        digits_value(s.drop_last()) * 10 + digit_value(s.last())
    }
}

/// The number written by `d` when `d` is a non-empty run of decimal digits
/// whose value is at most `max`; `None` otherwise.
pub open spec fn decimal_at_most(d: Seq<char>, max: nat) -> Option<nat> {
    if d.len() > 0 && all_digits(d) && digits_value(d) <= max {
        Some(digits_value(d))
    } else {
        None
    }
}

/// What `str::parse` gives for an unsigned integer type whose largest value
/// is `max`: an optional `+` followed by at least one decimal digit, and
/// nothing else, with a value in range.
pub open spec fn parse_unsigned(s: Seq<char>, max: nat) -> Option<nat> {
    if s.len() > 0 && s[0] == '+' {
        decimal_at_most(s.drop_first(), max)
    } else {
        decimal_at_most(s, max)
    }
}

/// What `str::parse::<i32>` gives: an optional `+` or `-` followed by at
/// least one decimal digit, and nothing else, with a value in range.
pub open spec fn parse_i32_value(s: Seq<char>) -> Option<int> {
    if s.len() > 0 && s[0] == '-' {
        match decimal_at_most(s.drop_first(), 0x8000_0000) {
            Some(m) => Some(-m),
            None => None,
        }
    } else {
        match parse_unsigned(s, 0x7fff_ffff) {
            Some(m) => Some(m as int),
            None => None,
        }
    }
}

proof fn lemma_digits_prefix_le(t: Seq<char>, k: int)
    requires
        all_digits(t),
        0 <= k <= t.len(),
    ensures
        digits_value(t.subrange(0, k)) <= digits_value(t),
    decreases t.len() - k,
{
    if k < t.len() {
        let u = t.drop_last();
        assert(all_digits(u)) by {
            assert forall|i: int| 0 <= i < u.len() implies is_digit(#[trigger] u[i]) by {
                assert(u[i] == t[i]);
            }
        }
        lemma_digits_prefix_le(u, k);
        assert(u.subrange(0, k) =~= t.subrange(0, k));
    } else {
        assert(t.subrange(0, k) =~= t);
    }
}

/// The value of the decimal digits `s[from..]`, if they are a non-empty run
/// of digits whose value is at most `max`.
fn digits_at_most(s: &str, from: usize, max: u64) -> (r: Option<u64>)
    requires
        from <= s@.len(),
    ensures
        match r {
            Some(v) => decimal_at_most(s@.subrange(from as int, s@.len() as int), max as nat)
                == Some(v as nat),
            None => decimal_at_most(s@.subrange(from as int, s@.len() as int), max as nat) is None,
        },
{
    let n = s.unicode_len();
    let ghost t = s@.subrange(from as int, n as int);
    if n == from {
        return None;
    }
    let mut acc: u64 = 0;
    let mut i: usize = from;
    assert(s@.subrange(from as int, from as int) =~= Seq::<char>::empty());
    while i < n
        invariant
            n == s@.len(),
            from <= i <= n,
            t == s@.subrange(from as int, n as int),
            acc == digits_value(s@.subrange(from as int, i as int)),
            acc <= max,
            all_digits(s@.subrange(from as int, i as int)),
        decreases n - i,
    {
        let c = s.get_char(i);
        if !('0' <= c && c <= '9') {
            assert(t[i - from] == c);
            return None;
        }
        let d: u64 = (c as u32 - '0' as u32) as u64;
        let ghost next = s@.subrange(from as int, i + 1);
        assert(next.drop_last() =~= s@.subrange(from as int, i as int));
        assert(next.last() == c);
        assert(all_digits(next)) by {
            assert forall|k: int| 0 <= k < next.len() implies is_digit(#[trigger] next[k]) by {
                if k < next.len() - 1 {
                    assert(next[k] == s@.subrange(from as int, i as int)[k]);
                }
            }
        }
        if d > max || acc > (max - d) / 10 {
            assert(acc * 10 + d > max) by (nonlinear_arith)
                requires
                    d > max || acc > (max - d) / 10,
            ;
            proof {
                if all_digits(t) {
                    lemma_digits_prefix_le(t, i + 1 - from);
                    assert(t.subrange(0, i + 1 - from) =~= next);
                }
            }
            return None;
        }
        assert(acc * 10 + d <= max) by (nonlinear_arith)
            requires
                d <= max,
                acc <= (max - d) / 10,
        ;
        acc = acc * 10 + d;
        i = i + 1;
    }
    assert(s@.subrange(from as int, i as int) =~= t);
    Some(acc)
}

/// `s` read as a `u32` the way `str::parse::<u32>` reads it.
pub fn parse_u32(s: &str) -> (r: Option<u32>)
    ensures
        match r {
            Some(v) => parse_unsigned(s@, u32::MAX as nat) == Some(v as nat),
            None => parse_unsigned(s@, u32::MAX as nat) is None,
        },
{
    let n = s.unicode_len();
    let from: usize = if n > 0 && s.get_char(0) == '+' { 1 } else { 0 };
    assert(s@.subrange(0, n as int) =~= s@);
    assert(s@.subrange(1, n as int) =~= s@.drop_first());
    match digits_at_most(s, from, 0xffff_ffff) {
        Some(v) => Some(v as u32),
        None => None,
    }
}

/// `s` read as a `u16` the way `str::parse::<u16>` reads it.
pub fn parse_u16(s: &str) -> (r: Option<u16>)
    ensures
        match r {
            Some(v) => parse_unsigned(s@, u16::MAX as nat) == Some(v as nat),
            None => parse_unsigned(s@, u16::MAX as nat) is None,
        },
{
    let n = s.unicode_len();
    let from: usize = if n > 0 && s.get_char(0) == '+' { 1 } else { 0 };
    assert(s@.subrange(0, n as int) =~= s@);
    assert(s@.subrange(1, n as int) =~= s@.drop_first());
    match digits_at_most(s, from, 0xffff) {
        Some(v) => Some(v as u16),
        None => None,
    }
}

/// `s` read as an `i32` the way `str::parse::<i32>` reads it.
pub fn parse_i32(s: &str) -> (r: Option<i32>)
    ensures
        match r {
            Some(v) => parse_i32_value(s@) == Some(v as int),
            None => parse_i32_value(s@) is None,
        },
{
    let n = s.unicode_len();
    assert(s@.subrange(0, n as int) =~= s@);
    assert(s@.subrange(1, n as int) =~= s@.drop_first());
    if n > 0 && s.get_char(0) == '-' {
        match digits_at_most(s, 1, 0x8000_0000) {
            Some(m) => {
                if m == 0x8000_0000 {
                    Some(i32::MIN)
                } else {
                    Some(-(m as i32))
                }
            },
            None => None,
        }
    } else {
        let from: usize = if n > 0 && s.get_char(0) == '+' { 1 } else { 0 };
        match digits_at_most(s, from, 0x7fff_ffff) {
            Some(m) => Some(m as i32),
            None => None,
        }
    }
}

/// The character that writes the decimal digit `d`.
pub open spec fn digit_char(d: nat) -> char {
    if d == 0 {
        '0'
    } else if d == 1 {
        '1'
    } else if d == 2 {
        '2'
    } else if d == 3 {
        '3'
    } else if d == 4 {
        '4'
    } else if d == 5 {
        '5'
    } else if d == 6 {
        '6'
    } else if d == 7 {
        '7'
    } else if d == 8 {
        '8'
    } else {
        '9'
    }
}

/// `n` written in decimal, without sign or leading zeros.
pub open spec fn decimal_digits(n: nat) -> Seq<char>
    decreases n,
{
    if n < 10 {
        seq![digit_char(n)]
    } else {
        decimal_digits(n / 10).push(digit_char(n % 10))
    }
}

/// `n` written in decimal is a non-empty run of digits worth `n`.
pub proof fn lemma_decimal_digits(n: nat)
    ensures
        decimal_digits(n).len() > 0,
        all_digits(decimal_digits(n)),
        digits_value(decimal_digits(n)) == n,
        !decimal_digits(n).contains(':'),
        decimal_digits(n)[0] != '+' && decimal_digits(n)[0] != '-',
    decreases n,
{
    if n < 10 {
        let d = decimal_digits(n);
        assert(d.drop_last() =~= Seq::<char>::empty());
        assert(digits_value(Seq::<char>::empty()) == 0);
    } else {
        lemma_decimal_digits(n / 10);
        let d = decimal_digits(n);
        let e = decimal_digits(n / 10);
        assert(d.drop_last() =~= e);
        assert forall|i: int| 0 <= i < d.len() implies is_digit(#[trigger] d[i]) by {
            if i < e.len() {
                assert(d[i] == e[i]);
            }
        }
        if d.contains(':') {
            let i = choose|i: int| 0 <= i < d.len() && d[i] == ':';
            if i < e.len() {
                assert(d[i] == e[i]);
                assert(e.contains(':'));
            }
        }
        assert(d[0] == e[0]);
    }
}

/// Reading a number written in decimal gives the number back, for every
/// number up to the type's largest value, and a number above it is refused.
pub proof fn lemma_parse_unsigned_reads_decimal(n: nat, max: nat)
    ensures
        n <= max ==> parse_unsigned(decimal_digits(n), max) == Some(n),
        n > max ==> parse_unsigned(decimal_digits(n), max) is None,
{
    lemma_decimal_digits(n);
}

/// Reading an `i32` written in decimal, with a `-` in front for a negative
/// number, gives the number back over the whole `i32` range.
pub proof fn lemma_parse_i32_reads_decimal(n: nat)
    ensures
        n <= 0x7fff_ffff ==> parse_i32_value(decimal_digits(n)) == Some(n as int),
        n <= 0x8000_0000 ==> parse_i32_value(seq!['-'] + decimal_digits(n)) == Some(-(n as int)),
        n > 0x8000_0000 ==> parse_i32_value(seq!['-'] + decimal_digits(n)) is None,
{
    lemma_decimal_digits(n);
    let d = decimal_digits(n);
    assert((seq!['-'] + d).drop_first() =~= d);
    assert((seq!['-'] + d)[0] == '-');
}

/// The characters `char::is_whitespace` accepts, as the Unicode
/// `White_Space` property lists them, are exactly the ones `is_space` and
/// `is_whitespace` accept.
pub proof fn lemma_whitespace_is_unicode_white_space(c: char)
    ensures
        is_space(c) <==> {
            ||| '\t' <= c <= '\r'
            ||| c == ' '
            ||| c == '\u{85}'
            ||| c == '\u{a0}'
            ||| c == '\u{1680}'
            ||| '\u{2000}' <= c <= '\u{200a}'
            ||| c == '\u{2028}'
            ||| c == '\u{2029}'
            ||| c == '\u{202f}'
            ||| c == '\u{205f}'
            ||| c == '\u{3000}'
        },
        is_space('\t') && is_space('\n') && is_space('\u{b}') && is_space('\u{c}') && is_space('\r'),
        is_space(' '),
{
}

proof fn lemma_trim_start_append_space(t: Seq<char>, p: Seq<char>)
    requires
        forall|i: int| 0 <= i < p.len() ==> is_space(#[trigger] p[i]),
    ensures
        trim_start(t).len() > 0 ==> trim_start(t + p) == trim_start(t) + p,
        trim_start(t).len() == 0 ==> trim_start(t + p).len() == 0,
    decreases t.len() + p.len(),
{
    if t.len() > 0 {
        if is_space(t[0]) {
            assert((t + p).drop_first() =~= t.drop_first() + p);
            lemma_trim_start_append_space(t.drop_first(), p);
        } else {
            assert((t + p)[0] == t[0]);
        }
    } else {
        assert(t + p =~= p);
        if p.len() > 0 {
            assert(p.drop_first() =~= Seq::<char>::empty() + p.drop_first());
            assert(Seq::<char>::empty() + p.drop_first() =~= p.drop_first());
            lemma_trim_start_append_space(Seq::<char>::empty(), p.drop_first());
            assert(trim_start(Seq::<char>::empty()).len() == 0);
        }
    }
}

proof fn lemma_trim_end_append_space(t: Seq<char>, p: Seq<char>)
    requires
        forall|i: int| 0 <= i < p.len() ==> is_space(#[trigger] p[i]),
    ensures
        trim_end(t + p) == trim_end(t),
    decreases p.len(),
{
    if p.len() == 0 {
        assert(t + p =~= t);
    } else {
        assert((t + p).drop_last() =~= t + p.drop_last());
        assert((t + p).last() == p.last());
        lemma_trim_end_append_space(t, p.drop_last());
    }
}

/// Whitespace after a text does not change what trimming gives; for
/// example a line read with its `\r\n` trims to the line.
pub proof fn lemma_trim_ignores_trailing_space(t: Seq<char>, p: Seq<char>)
    requires
        forall|i: int| 0 <= i < p.len() ==> is_space(#[trigger] p[i]),
    ensures
        trimmed(t + p) == trimmed(t),
        trimmed(t + seq!['\r', '\n']) == trimmed(t),
{
    lemma_trim_start_append_space(t, p);
    lemma_trim_end_append_space(trim_start(t), p);
    lemma_trim_start_shape(t);
    lemma_trim_start_shape(t + p);
    if trim_start(t).len() == 0 {
        assert(trim_start(t + p) =~= Seq::<char>::empty());
        assert(trim_start(t) =~= Seq::<char>::empty());
    }
    let crlf = seq!['\r', '\n'];
    assert forall|i: int| 0 <= i < crlf.len() implies is_space(#[trigger] crlf[i]) by {}
    lemma_trim_start_append_space(t, crlf);
    lemma_trim_end_append_space(trim_start(t), crlf);
    lemma_trim_start_shape(t + crlf);
    if trim_start(t).len() == 0 {
        assert(trim_start(t + crlf) =~= Seq::<char>::empty());
        assert(trim_start(t) =~= Seq::<char>::empty());
    }
}

} // verus!
