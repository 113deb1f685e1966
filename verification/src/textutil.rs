//! Verified helpers for character-level work on strings: decimal digits,
//! rendering and parsing integers, affix tests, searching, and trimming.

use vstd::prelude::*;
use vstd::string::StrSliceExecFns;
use vstd::string::StringExecFns;

verus! {

/// A decimal digit `'0'..='9'`.
pub open spec fn is_dec_digit(c: char) -> bool {
    '0' <= c && c <= '9'
}

/// Every character of `s` is a decimal digit.
pub open spec fn all_dec_digits(s: Seq<char>) -> bool {
    forall|i: int| 0 <= i < s.len() ==> is_dec_digit(#[trigger] s[i])
}

/// Numeric value of one decimal digit.
pub open spec fn digit_val_of(c: char) -> nat {
    (c as int - '0' as int) as nat
}

/// Value of a decimal digit string, most significant digit first.
pub open spec fn digits_val(s: Seq<char>) -> nat
    decreases s.len(),
{
    if s.len() == 0 {
        0
    } else {
        digits_val(s.drop_last()) * 10 + digit_val_of(s.last())
    }
}

/// The digit character for a value below ten.
pub open spec fn spec_digit_char(d: nat) -> char {
    if d == 0 { '0' }
    else if d == 1 { '1' }
    else if d == 2 { '2' }
    else if d == 3 { '3' }
    else if d == 4 { '4' }
    else if d == 5 { '5' }
    else if d == 6 { '6' }
    else if d == 7 { '7' }
    else if d == 8 { '8' }
    else { '9' }
}

/// Decimal rendering of a natural number, without sign or leading zeros.
pub open spec fn dec_digits(n: nat) -> Seq<char>
    decreases n,
{
    if n < 10 {
        seq![spec_digit_char(n)]
    } else {
        dec_digits(n / 10).push(spec_digit_char(n % 10))
    }
}

fn digit_str(d: u64) -> (r: &'static str)
    requires
        d < 10,
    ensures
        r@ =~= seq![spec_digit_char(d as nat)],
{
    match d {
        0 => {
            proof { reveal_strlit("0"); }
            "0"
        },
        1 => {
            proof { reveal_strlit("1"); }
            "1"
        },
        2 => {
            proof { reveal_strlit("2"); }
            "2"
        },
        3 => {
            proof { reveal_strlit("3"); }
            "3"
        },
        4 => {
            proof { reveal_strlit("4"); }
            "4"
        },
        5 => {
            proof { reveal_strlit("5"); }
            "5"
        },
        6 => {
            proof { reveal_strlit("6"); }
            "6"
        },
        7 => {
            proof { reveal_strlit("7"); }
            "7"
        },
        8 => {
            proof { reveal_strlit("8"); }
            "8"
        },
        _ => {
            proof { reveal_strlit("9"); }
            "9"
        },
    }
}

/// Render `n` in decimal.
pub fn u64_to_dec(n: u64) -> (r: String)
    ensures
        r@ == dec_digits(n as nat),
    decreases n,
{
    if n < 10 {
        let r = digit_str(n).to_owned();
        proof {
            assert(r@ =~= dec_digits(n as nat));
        }
        r
    } else {
        let prefix = u64_to_dec(n / 10);
        let last = digit_str(n % 10);
        let r = prefix.concat(last);
        proof {
            assert(r@ =~= dec_digits(n as nat));
        }
        r
    }
}

/// The characters of `s`, in order.
pub fn str_chars(s: &str) -> (v: Vec<char>)
    ensures
        v@ == s@,
{
    let n = s.unicode_len();
    let mut v: Vec<char> = Vec::new();
    let mut i: usize = 0;
    while i < n
        invariant
            i <= n,
            n == s@.len(),
            v@ =~= s@.subrange(0, i as int),
        decreases n - i,
    {
        v.push(s.get_char(i));
        i = i + 1;
    }
    proof {
        assert(v@ =~= s@);
    }
    v
}

/// `s` ends with `suffix`.
pub open spec fn ends_with_spec(s: Seq<char>, suffix: Seq<char>) -> bool {
    suffix.len() <= s.len() && s.skip(s.len() - suffix.len()) =~= suffix
}

/// `s` begins with `prefix`.
pub open spec fn starts_with_spec(s: Seq<char>, prefix: Seq<char>) -> bool {
    prefix.len() <= s.len() && s.take(prefix.len() as int) =~= prefix
}

/// Whether the characters `s` end with the characters `suffix`.
pub fn chars_end_with(s: &Vec<char>, suffix: &str) -> (r: bool)
    ensures
        r == ends_with_spec(s@, suffix@),
{
    let n = s.len();
    let m = suffix.unicode_len();
    if m > n {
        return false;
    }
    let start = n - m;
    let mut i: usize = 0;
    while i < m
        invariant
            i <= m,
            m <= n,
            start == n - m,
            n == s@.len(),
            m == suffix@.len(),
            forall|j: int| 0 <= j < i ==> s@[start + j] == suffix@[j],
        decreases m - i,
    {
        if s[start + i] != suffix.get_char(i) {
            assert(s@.skip(s@.len() - suffix@.len())[i as int] != suffix@[i as int]);
            return false;
        }
        i = i + 1;
    }
    proof {
        assert(s@.skip(s@.len() - suffix@.len()) =~= suffix@);
    }
    true
}

/// Whether the characters `s` begin with the characters of `prefix`.
pub fn chars_start_with(s: &Vec<char>, prefix: &Vec<char>) -> (r: bool)
    ensures
        r == starts_with_spec(s@, prefix@),
{
    let n = s.len();
    let m = prefix.len();
    if m > n {
        return false;
    }
    let mut i: usize = 0;
    while i < m
        invariant
            i <= m,
            m <= n,
            n == s@.len(),
            m == prefix@.len(),
            forall|j: int| 0 <= j < i ==> s@[j] == prefix@[j],
        decreases m - i,
    {
        if s[i] != prefix[i] {
            assert(s@.take(prefix@.len() as int)[i as int] != prefix@[i as int]);
            return false;
        }
        i = i + 1;
    }
    proof {
        assert(s@.take(prefix@.len() as int) =~= prefix@);
    }
    true
}

/// Value of a nonempty digit string, as `u32`; a value too large for `u32`
/// parses as zero, mirroring a lenient `parse().unwrap_or(0)`.
pub open spec fn dec_u32_or_zero(s: Seq<char>) -> nat {
    if digits_val(s) <= u32::MAX { digits_val(s) } else { 0 }
}

proof fn lemma_digits_val_grows(s: Seq<char>, t: Seq<char>)
    requires
        s.len() < t.len(),
        t.take(s.len() as int) =~= s,
    ensures
        digits_val(t) >= digits_val(s),
    decreases t.len(),
{
    if t.len() == s.len() + 1 {
        assert(t.drop_last() =~= s);
        assert(digits_val(t) == digits_val(s) * 10 + digit_val_of(t.last()));
        assert(digits_val(s) * 10 >= digits_val(s)) by (nonlinear_arith);
    } else {
        lemma_digits_val_grows(s, t.drop_last());
        assert(t.drop_last().take(s.len() as int) =~= s);
        assert(digits_val(t) == digits_val(t.drop_last()) * 10 + digit_val_of(t.last()));
        assert(digits_val(t.drop_last()) * 10 >= digits_val(t.drop_last())) by (nonlinear_arith);
    }
}

/// Parse a digit-run `s[from..to]` as `u32`, treating overflow as zero.
pub fn parse_u32_or_zero(s: &Vec<char>, from: usize, to: usize) -> (r: u32)
    requires
        from <= to <= s@.len(),
        all_dec_digits(s@.subrange(from as int, to as int)),
    ensures
        r == dec_u32_or_zero(s@.subrange(from as int, to as int)),
{
    let ghost whole = s@.subrange(from as int, to as int);
    let mut acc: u64 = 0;
    let cap: u64 = 4294967296;
    let mut i: usize = from;
    while i < to
        invariant
            from <= i <= to <= s@.len(),
            whole == s@.subrange(from as int, to as int),
            all_dec_digits(whole),
            acc == if digits_val(whole.take(i - from)) <= u32::MAX {
                digits_val(whole.take(i - from))
            } else {
                cap as nat
            },
            cap == 4294967296,
            acc <= cap,
        decreases to - i,
    {
        let ghost prefix = whole.take(i - from);
        let ghost next_prefix = whole.take(i + 1 - from);
        proof {
            assert(next_prefix.drop_last() =~= prefix);
            assert(whole[i - from] == s@[i as int]);
        }
        let c = s[i];
        assert(is_dec_digit(c));
        let d: u64 = (c as u64) - ('0' as u64);
        proof {
            assert(digits_val(next_prefix) == digits_val(prefix) * 10 + digit_val_of(c));
        }
        if acc >= cap {
            proof {
                assert(digits_val(prefix) > u32::MAX);
                assert(digits_val(prefix) * 10 >= digits_val(prefix)) by (nonlinear_arith);
            }
        } else {
            acc = acc * 10 + d;
            if acc > 4294967295 {
                proof {
                    assert(digits_val(next_prefix) > u32::MAX);
                }
                acc = cap;
            }
        }
        i = i + 1;
    }
    proof {
        assert(whole.take(to - from) =~= whole);
    }
    if acc > 4294967295 {
        0
    } else {
        acc as u32
    }
}

/// Whether every character of `s[from..to]` is a decimal digit.
pub fn range_all_digits(s: &Vec<char>, from: usize, to: usize) -> (r: bool)
    requires
        from <= to <= s@.len(),
    ensures
        r == all_dec_digits(s@.subrange(from as int, to as int)),
{
    let mut i: usize = from;
    while i < to
        invariant
            from <= i <= to <= s@.len(),
            forall|j: int| from <= j < i ==> is_dec_digit(#[trigger] s@[j]),
        decreases to - i,
    {
        let c = s[i];
        if !('0' <= c && c <= '9') {
            assert(s@.subrange(from as int, to as int)[i - from] == s@[i as int]);
            return false;
        }
        i = i + 1;
    }
    proof {
        assert forall|j: int| 0 <= j < to - from implies is_dec_digit(
            #[trigger] s@.subrange(from as int, to as int)[j],
        ) by {
            assert(s@.subrange(from as int, to as int)[j] == s@[from + j]);
        }
    }
    true
}

/// ASCII whitespace, the blank characters this crate's text formats skip.
pub open spec fn is_blank_char(c: char) -> bool {
    c == ' ' || c == '\t' || c == '\r' || c == '\n'
}

/// Every character of `s` is blank.
pub open spec fn all_blank(s: Seq<char>) -> bool {
    forall|i: int| 0 <= i < s.len() ==> is_blank_char(#[trigger] s[i])
}

fn is_blank_c(c: char) -> (r: bool)
    ensures
        r == is_blank_char(c),
{
    c == ' ' || c == '\t' || c == '\r' || c == '\n'
}

/// Whether the slice `s[from..to]` is blank throughout.
pub fn range_is_blank(s: &Vec<char>, from: usize, to: usize) -> (r: bool)
    requires
        from <= to <= s@.len(),
    ensures
        r == all_blank(s@.subrange(from as int, to as int)),
{
    let mut i: usize = from;
    while i < to
        invariant
            from <= i <= to <= s@.len(),
            forall|j: int| from <= j < i ==> is_blank_char(#[trigger] s@[j]),
        decreases to - i,
    {
        if !is_blank_c(s[i]) {
            assert(s@.subrange(from as int, to as int)[i - from] == s@[i as int]);
            return false;
        }
        i = i + 1;
    }
    proof {
        assert forall|j: int| 0 <= j < to - from implies is_blank_char(
            #[trigger] s@.subrange(from as int, to as int)[j],
        ) by {
            assert(s@.subrange(from as int, to as int)[j] == s@[from + j]);
        }
    }
    true
}

/// `s` with blank characters removed from the front.
pub open spec fn trim_front_spec(s: Seq<char>) -> Seq<char>
    decreases s.len(),
{
    if s.len() > 0 && is_blank_char(s.first()) {
        trim_front_spec(s.drop_first())
    } else {
        s
    }
}

/// `s` with blank characters removed from the back.
pub open spec fn trim_back_spec(s: Seq<char>) -> Seq<char>
    decreases s.len(),
{
    if s.len() > 0 && is_blank_char(s.last()) {
        trim_back_spec(s.drop_last())
    } else {
        s
    }
}

/// `s` with blank characters removed from both ends.
pub open spec fn trim_spec(s: Seq<char>) -> Seq<char> {
    trim_back_spec(trim_front_spec(s))
}

proof fn lemma_trim_front_range(s: Seq<char>, a: int)
    requires
        0 <= a <= s.len(),
        forall|j: int| 0 <= j < a ==> is_blank_char(#[trigger] s[j]),
        a == s.len() || !is_blank_char(s[a]),
    ensures
        trim_front_spec(s) =~= s.skip(a),
    decreases a,
{
    if a > 0 {
        assert(is_blank_char(s.first()));
        lemma_trim_front_range(s.drop_first(), a - 1);
        assert(s.drop_first().skip(a - 1) =~= s.skip(a));
    }
}

proof fn lemma_trim_back_range(s: Seq<char>, b: int)
    requires
        0 <= b <= s.len(),
        forall|j: int| b <= j < s.len() ==> is_blank_char(#[trigger] s[j]),
        b == 0 || !is_blank_char(s[b - 1]),
    ensures
        trim_back_spec(s) =~= s.take(b),
    decreases s.len() - b,
{
    if b < s.len() {
        assert(is_blank_char(s.last()));
        lemma_trim_back_range(s.drop_last(), b);
        assert(s.drop_last().take(b) =~= s.take(b));
    } else {
        assert(s.take(b) =~= s);
    }
}

/// The bounds of the non-blank middle of `s[from..to]`: the trimmed slice is
/// `s[r.0..r.1]`.
pub fn trim_bounds(s: &Vec<char>, from: usize, to: usize) -> (r: (usize, usize))
    requires
        from <= to <= s@.len(),
    ensures
        from <= r.0 <= r.1 <= to,
        s@.subrange(r.0 as int, r.1 as int) =~= trim_spec(s@.subrange(from as int, to as int)),
    decreases to - from,
{
    let ghost whole = s@.subrange(from as int, to as int);
    let mut a: usize = from;
    while a < to && is_blank_c(s[a])
        invariant
            from <= a <= to <= s@.len(),
            forall|j: int| from <= j < a ==> is_blank_char(#[trigger] s@[j]),
        decreases to - a,
    {
        a = a + 1;
    }
    let mut b: usize = to;
    while b > a && is_blank_c(s[b - 1])
        invariant
            a <= b <= to <= s@.len(),
            forall|j: int| b <= j < to ==> is_blank_char(#[trigger] s@[j]),
        decreases b,
    {
        b = b - 1;
    }
    proof {
        assert forall|j: int| 0 <= j < a - from implies is_blank_char(#[trigger] whole[j]) by {
            assert(whole[j] == s@[from + j]);
        }
        if a < to {
            assert(whole[a - from] == s@[a as int]);
        }
        lemma_trim_front_range(whole, a - from);
        let mid = whole.skip(a - from);
        assert forall|j: int| b - a <= j < mid.len() implies is_blank_char(#[trigger] mid[j]) by {
            assert(mid[j] == s@[a + j]);
        }
        if b > a {
            assert(mid[b - 1 - a] == s@[b - 1]);
        }
        lemma_trim_back_range(mid, b - a);
        assert(mid.take(b - a) =~= s@.subrange(a as int, b as int));
    }
    (a, b)
}

/// Smallest index of `c` in `s[from..]`, if any.
pub fn find_char_from(s: &Vec<char>, c: char, from: usize) -> (r: Option<usize>)
    requires
        from <= s@.len(),
    ensures
        match r {
            Some(p) => {
                &&& from <= p < s@.len()
                &&& s@[p as int] == c
                &&& forall|j: int| from <= j < p ==> s@[j] != c
            },
            None => forall|j: int| from <= j < s@.len() ==> s@[j] != c,
        },
{
    let n = s.len();
    let mut i: usize = from;
    while i < n
        invariant
            from <= i <= n,
            n == s@.len(),
            forall|j: int| from <= j < i ==> s@[j] != c,
        decreases n - i,
    {
        if s[i] == c {
            return Some(i);
        }
        i = i + 1;
    }
    None
}

/// The digits of a signed decimal text, past any single leading sign.
pub open spec fn sign_digits(s: Seq<char>) -> Seq<char> {
    if s.len() > 0 && (s.first() == '+' || s.first() == '-') {
        s.drop_first()
    } else {
        s
    }
}

/// The text carries a leading minus sign.
pub open spec fn sign_negative(s: Seq<char>) -> bool {
    s.len() > 0 && s.first() == '-'
}

/// The text is a decimal `i64`: an optional sign, then digits, with the
/// value in range.
pub open spec fn i64_parse_ok(s: Seq<char>) -> bool {
    let d = sign_digits(s);
    &&& d.len() > 0
    &&& all_dec_digits(d)
    &&& if sign_negative(s) {
        digits_val(d) <= 0x8000000000000000
    } else {
        digits_val(d) <= 0x7fffffffffffffff
    }
}

/// The value of a decimal `i64` text.
pub open spec fn i64_parse_val(s: Seq<char>) -> int {
    if sign_negative(s) {
        -(digits_val(sign_digits(s)) as int)
    } else {
        digits_val(sign_digits(s)) as int
    }
}

/// The value the text parses to, or `default` where it is not a decimal
/// `i64` — the lenient `parse().unwrap_or(default)`.
pub open spec fn parsed_i64_or(s: Seq<char>, default: i64) -> i64 {
    if i64_parse_ok(s) {
        i64_parse_val(s) as i64
    } else {
        default
    }
}

/// Parse `s` as a decimal `i64`, falling back to `default`.
pub fn parse_i64_or(s: &str, default: i64) -> (r: i64)
    ensures
        r == parsed_i64_or(s@, default),
{
    let chars = str_chars(s);
    let n = chars.len();
    let (neg, start): (bool, usize) = if n > 0 && (chars[0] == '+' || chars[0] == '-') {
        (chars[0] == '-', 1)
    } else {
        (false, 0)
    };
    let ghost digits = sign_digits(s@);
    proof {
        assert(digits =~= chars@.subrange(start as int, n as int));
        assert(neg == sign_negative(s@));
    }
    if start >= n {
        proof {
            assert(!i64_parse_ok(s@));
        }
        return default;
    }
    let cap: u128 = 0x8000000000000001;
    let mut acc: u128 = 0;
    let mut i: usize = start;
    while i < n
        invariant
            start <= i <= n,
            start < n,
            n == chars@.len(),
            chars@ == s@,
            digits == chars@.subrange(start as int, n as int),
            digits == sign_digits(s@),
            neg == sign_negative(s@),
            all_dec_digits(chars@.subrange(start as int, i as int)),
            cap == 0x8000000000000001,
            acc == if digits_val(chars@.subrange(start as int, i as int)) < cap as nat {
                digits_val(chars@.subrange(start as int, i as int))
            } else {
                cap as nat
            },
            acc <= cap,
        decreases n - i,
    {
        let ghost prefix = chars@.subrange(start as int, i as int);
        let ghost next_prefix = chars@.subrange(start as int, i + 1);
        proof {
            assert(next_prefix.drop_last() =~= prefix);
            assert(next_prefix.last() == chars@[i as int]);
        }
        let c = chars[i];
        if !('0' <= c && c <= '9') {
            proof {
                assert(digits[i - start] == chars@[i as int]);
                assert(!all_dec_digits(digits));
            }
            return default;
        }
        let d: u128 = (c as u128) - ('0' as u128);
        proof {
            assert(digits_val(next_prefix) == digits_val(prefix) * 10 + digit_val_of(c));
        }
        if acc >= cap {
            proof {
                assert(digits_val(prefix) >= cap as nat);
                assert(digits_val(prefix) * 10 >= digits_val(prefix)) by (nonlinear_arith);
            }
        } else {
            acc = acc * 10 + d;
            if acc > 0x8000000000000000 {
                proof {
                    assert(digits_val(next_prefix) >= cap as nat);
                }
                acc = cap;
            }
        }
        i = i + 1;
    }
    proof {
        assert(chars@.subrange(start as int, n as int) =~= digits);
        assert(all_dec_digits(digits));
        assert(digits.len() > 0);
    }
    if neg {
        if acc > 0x8000000000000000 {
            proof {
                assert(!i64_parse_ok(s@));
            }
            default
        } else if acc == 0x8000000000000000 {
            proof {
                assert(i64_parse_ok(s@));
            }
            i64::MIN
        } else {
            proof {
                assert(i64_parse_ok(s@));
            }
            let v: i64 = acc as i64;
            -v
        }
    } else {
        if acc > 0x7fffffffffffffff {
            proof {
                assert(!i64_parse_ok(s@));
            }
            default
        } else {
            proof {
                assert(i64_parse_ok(s@));
            }
            acc as i64
        }
    }
}

/// Copy the bytes of `v`.
pub fn copy_bytes(v: &Vec<u8>) -> (r: Vec<u8>)
    ensures
        r@ == v@,
{
    let n = v.len();
    let mut r: Vec<u8> = Vec::new();
    let mut i: usize = 0;
    while i < n
        invariant
            i <= n,
            n == v@.len(),
            r@ =~= v@.subrange(0, i as int),
        decreases n - i,
    {
        r.push(v[i]);
        i = i + 1;
    }
    proof {
        assert(r@ =~= v@);
    }
    r
}

/// Index of the first `c` at or after `from`, defined by recursion.
pub open spec fn index_of_from(s: Seq<char>, c: char, from: int) -> Option<int>
    decreases s.len() - from,
    when 0 <= from <= s.len()
{
    if from >= s.len() {
        None
    } else if s[from] == c {
        Some(from)
    } else {
        index_of_from(s, c, from + 1)
    }
}

/// A position where `c` first occurs determines `index_of_from`.
pub proof fn lemma_index_of_from_found(s: Seq<char>, c: char, from: int, p: int)
    requires
        0 <= from <= p < s.len(),
        s[p] == c,
        forall|j: int| from <= j < p ==> s[j] != c,
    ensures
        index_of_from(s, c, from) == Some(p),
    decreases p - from,
{
    if from < p {
        lemma_index_of_from_found(s, c, from + 1, p);
    }
}

/// Absence of `c` determines `index_of_from`.
pub proof fn lemma_index_of_from_none(s: Seq<char>, c: char, from: int)
    requires
        0 <= from <= s.len(),
        forall|j: int| from <= j < s.len() ==> s[j] != c,
    ensures
        index_of_from(s, c, from) is None,
    decreases s.len() - from,
{
    if from < s.len() {
        lemma_index_of_from_none(s, c, from + 1);
    }
}

/// Smallest index of `c` in `s[from..to]`, if any.
pub fn find_char_in(s: &Vec<char>, c: char, from: usize, to: usize) -> (r: Option<usize>)
    requires
        from <= to <= s@.len(),
    ensures
        match r {
            Some(p) => {
                &&& from <= p < to
                &&& s@[p as int] == c
                &&& forall|j: int| from <= j < p ==> s@[j] != c
            },
            None => forall|j: int| from <= j < to ==> s@[j] != c,
        },
{
    let mut i: usize = from;
    while i < to
        invariant
            from <= i <= to <= s@.len(),
            forall|j: int| from <= j < i ==> s@[j] != c,
        decreases to - i,
    {
        if s[i] == c {
            return Some(i);
        }
        i = i + 1;
    }
    None
}

/// Copy the characters `s[from..to]` of an ASCII-or-not string into an owned
/// `String`, via the substring of the backing text.
pub fn substring_copy(s: &str, chars: &Vec<char>, from: usize, to: usize) -> (r: String)
    requires
        chars@ == s@,
        from <= to <= s@.len(),
    ensures
        r@ == s@.subrange(from as int, to as int),
{
    s.substring_char(from, to).to_owned()
}

} // verus!
