//! Verified text helpers: decimal rendering and parsing, case-insensitive
//! word matching, echoed-value truncation, and message-template substitution.
//!
//! The numeric grammars are deliberately strict and locale-independent:
//! an integer is an optional sign followed by one or more ASCII digits, and
//! a decimal number is an optional sign, one or more digits, and optionally
//! a point followed by one or more digits. No whitespace, exponent or
//! grouping forms are accepted.

use vstd::prelude::*;
use vstd::string::StrSliceExecFns;
use vstd::string::StringExecFns;

verus! {

/// The character for one decimal digit.
pub open spec fn digit_char(d: int) -> char {
    if d == 0 {
        '0'
    } else if d == 1 {
        '1'
    } else if d == 2 {
        '2'
    } else if d == 3 {
        '3'
    } else if d == 4 {
        '4'
    } else if d == 5 {
        '5'
    } else if d == 6 {
        '6'
    } else if d == 7 {
        '7'
    } else if d == 8 {
        '8'
    } else {
        '9'
    }
}

/// The decimal text of a nonnegative integer, without sign or padding.
pub open spec fn dec_digits(n: nat) -> Seq<char>
    decreases n,
{
    if n < 10 {
        seq![digit_char(n as int)]
    } else {
        dec_digits(n / 10) + seq![digit_char((n % 10) as int)]
    }
}

/// The decimal text of an integer: a minus sign for negatives, then digits.
pub open spec fn int_text(i: int) -> Seq<char> {
    if i < 0 {
        seq!['-'] + dec_digits((-i) as nat)
    } else {
        dec_digits(i as nat)
    }
}

/// The one-character text of a decimal digit.
pub fn digit_str(d: u64) -> (r: &'static str)
    requires
        d < 10,
    ensures
        r@ == seq![digit_char(d as int)],
{
    proof {
        reveal_strlit("0");
        reveal_strlit("1");
        reveal_strlit("2");
        reveal_strlit("3");
        reveal_strlit("4");
        reveal_strlit("5");
        reveal_strlit("6");
        reveal_strlit("7");
        reveal_strlit("8");
        reveal_strlit("9");
    }
    match d {
        0 => "0",
        1 => "1",
        2 => "2",
        3 => "3",
        4 => "4",
        5 => "5",
        6 => "6",
        7 => "7",
        8 => "8",
        _ => "9",
    }
}

/// Appends the decimal text of `n` to `out`.
pub fn push_u64_dec(out: &mut String, n: u64)
    ensures
        final(out)@ == old(out)@ + dec_digits(n as nat),
    decreases n,
{
    if n >= 10 {
        push_u64_dec(out, n / 10);
    }
    let d = digit_str(n % 10);
    out.append(d);
    proof {
        if n >= 10 {
            assert(final(out)@ == old(out)@ + dec_digits((n / 10) as nat) + seq![
                digit_char((n % 10) as int),
            ]);
            assert(final(out)@ == old(out)@ + dec_digits(n as nat)) by {
                assert(old(out)@ + dec_digits((n / 10) as nat) + seq![
                    digit_char((n % 10) as int),
                ] =~= old(out)@ + (dec_digits((n / 10) as nat) + seq![
                    digit_char((n % 10) as int),
                ]));
            }
        }
    }
}

/// The decimal text of an unsigned integer.
pub fn u64_to_string(n: u64) -> (r: String)
    ensures
        r@ == dec_digits(n as nat),
{
    let mut out = String::new();
    push_u64_dec(&mut out, n);
    proof {
        assert(Seq::<char>::empty() + dec_digits(n as nat) =~= dec_digits(n as nat));
    }
    out
}

/// The decimal text of a signed integer.
pub fn i64_to_string(i: i64) -> (r: String)
    ensures
        r@ == int_text(i as int),
{
    if i >= 0 {
        u64_to_string(i as u64)
    } else {
        let mag: u64 = (-(i as i128)) as u64;
        let mut out = String::from_str("-");
        proof {
            reveal_strlit("-");
        }
        push_u64_dec(&mut out, mag);
        proof {
            assert("-"@ + dec_digits(mag as nat) =~= seq!['-'] + dec_digits(mag as nat));
        }
        out
    }
}

/// The echoed form of a value's text: text of more than 50 characters keeps
/// its first 25 and last 24 characters, joined by an ellipsis.
pub open spec fn truncated_text(s: Seq<char>) -> Seq<char> {
    if s.len() > 50 {
        s.subrange(0, 25) + "..."@ + s.subrange(s.len() - 24, s.len() as int)
    } else {
        s
    }
}

/// Truncates an echoed value's text for rendering.
pub fn truncate_echo(s: &str) -> (r: String)
    ensures
        r@ == truncated_text(s@),
{
    let n = s.unicode_len();
    if n > 50 {
        let head = s.substring_char(0, 25);
        let tail = s.substring_char(n - 24, n);
        let mut out = String::from_str(head);
        out.append("...");
        out.append(tail);
        proof {
            assert(out@ =~= truncated_text(s@));
        }
        out
    } else {
        s.to_owned()
    }
}

/// Whether `c` is an ASCII decimal digit.
pub open spec fn is_digit(c: char) -> bool {
    48 <= c as int <= 57
}

/// The numeric value of an ASCII decimal digit.
pub open spec fn digit_val(c: char) -> int {
    c as int - 48
}

/// Whether every character of `s` is an ASCII decimal digit.
pub open spec fn all_digits(s: Seq<char>) -> bool {
    forall|i: int| 0 <= i < s.len() ==> is_digit(s[i])
}

/// The nonnegative integer denoted by a digit string; 0 for the empty string.
pub open spec fn digits_val(s: Seq<char>) -> int
    decreases s.len(),
{
    if s.len() == 0 {
        0
    } else {
        digits_val(s.drop_last()) * 10 + digit_val(s.last())
    }
}

pub open spec fn pow10(n: nat) -> int
    decreases n,
{
    if n == 0 {
        1
    } else {
        10 * pow10((n - 1) as nat)
    }
}

pub proof fn lemma_digits_val_lower(s: Seq<char>)
    requires
        all_digits(s),
        s.len() > 0,
        s[0] != '0',
    ensures
        digits_val(s) >= pow10((s.len() - 1) as nat),
    decreases s.len(),
{
    if s.len() == 1 {
        assert(digits_val(s.drop_last()) == 0);
        assert(s.last() == s[0]);
        assert(digit_val(s[0]) >= 1);
        assert(digits_val(s) == digit_val(s[0]));
    } else {
        let init = s.drop_last();
        assert(all_digits(init)) by {
            assert(forall|i: int| 0 <= i < s.len() - 1 ==> init[i] == s[i] && is_digit(s[i]));
        }
        assert(init[0] == s[0]);
        lemma_digits_val_lower(init);
        assert(is_digit(s.last()));
        assert(digit_val(s.last()) >= 0);
        assert(pow10((s.len() - 1) as nat) == 10 * pow10((s.len() - 2) as nat));
        assert(digits_val(s) == digits_val(init) * 10 + digit_val(s.last()));
        assert(digits_val(init) * 10 >= pow10((s.len() - 2) as nat) * 10);
    }
}

proof fn lemma_digits_drop_leading_zero(s: Seq<char>)
    requires
        s.len() > 0,
        s[0] == '0',
    ensures
        digits_val(s) == digits_val(s.skip(1)),
    decreases s.len(),
{
    if s.len() == 1 {
        assert(digits_val(s.drop_last()) == 0);
        assert(s.last() == s[0]);
        assert(digit_val(s[0]) == 0);
        assert(digits_val(s) == 0);
        assert(s.skip(1).len() == 0);
        assert(digits_val(s.skip(1)) == 0);
    } else {
        let init = s.drop_last();
        assert(init.len() > 0 && init[0] == '0');
        lemma_digits_drop_leading_zero(init);
        assert(s.skip(1).drop_last() =~= init.skip(1));
        assert(s.skip(1).last() == s.last());
        assert(digits_val(s.skip(1)) == digits_val(init.skip(1)) * 10 + digit_val(s.last()));
        assert(digits_val(s) == digits_val(init) * 10 + digit_val(s.last()));
    }
}

proof fn lemma_digits_skip_zeros(s: Seq<char>, k: int)
    requires
        0 <= k <= s.len(),
        forall|j: int| 0 <= j < k ==> s[j] == '0',
    ensures
        digits_val(s.skip(k)) == digits_val(s),
    decreases k,
{
    if k > 0 {
        lemma_digits_drop_leading_zero(s);
        assert(s.skip(1).skip(k - 1) =~= s.skip(k));
        assert(forall|j: int| 0 <= j < k - 1 ==> s.skip(1)[j] == s[j + 1]);
        lemma_digits_skip_zeros(s.skip(1), k - 1);
    } else {
        assert(s.skip(0) =~= s);
    }
}

/// The value of the digit run `s[from..to]`, when it fits in a `u64`.
#[verifier::loop_isolation(false)]
pub fn digits_to_u64(s: &str, from: usize, to: usize) -> (r: Option<u64>)
    requires
        from <= to <= s@.len(),
        all_digits(s@.subrange(from as int, to as int)),
    ensures
        match r {
            Some(m) => m as int == digits_val(s@.subrange(from as int, to as int)),
            None => digits_val(s@.subrange(from as int, to as int)) > u64::MAX,
        },
{
    let ghost sub = s@.subrange(from as int, to as int);
    let mut i = from;
    while i < to && s.get_char(i) == '0'
        invariant
            from <= i <= to,
            to <= s@.len(),
            forall|j: int| from <= j < i ==> s@[j] == '0',
        decreases to - i,
    {
        i = i + 1;
    }
    proof {
        lemma_digits_skip_zeros(sub, i - from);
        assert(sub.skip(i - from) =~= s@.subrange(i as int, to as int));
    }
    let ghost rest = s@.subrange(i as int, to as int);
    let count = to - i;
    if count > 20 {
        proof {
            assert(rest[0] != '0');
            assert(all_digits(rest));
            lemma_digits_val_lower(rest);
            assert(pow10(20) == 100000000000000000000int) by {
                reveal_with_fuel(pow10, 21);
            }
            assert(pow10((rest.len() - 1) as nat) >= pow10(20)) by {
                lemma_pow10_mono(20, (rest.len() - 1) as nat);
            }
        }
        return None;
    }
    let mut acc: u128 = 0;
    let mut j = i;
    proof {
        assert(pow10(20) == 100000000000000000000int) by {
                reveal_with_fuel(pow10, 21);
            }
    }
    while j < to
        invariant
            i <= j <= to,
            to <= s@.len(),
            to - i <= 20,
            rest == s@.subrange(i as int, to as int),
            all_digits(rest),
            acc as int == digits_val(s@.subrange(i as int, j as int)),
            (acc as int) < pow10((j - i) as nat),
            pow10(20) == 100000000000000000000int,
        decreases to - j,
    {
        let c = s.get_char(j);
        proof {
            assert(rest[j - i] == s@[j as int]);
            assert(is_digit(s@[j as int]));
            lemma_pow10_mono((j - i + 1) as nat, 20);
        }
        let d: u128 = (c as u32 - 48) as u128;
        acc = acc * 10 + d;
        proof {
            assert(s@.subrange(i as int, j + 1).drop_last() =~= s@.subrange(i as int, j as int));
            assert(s@.subrange(i as int, j + 1).last() == s@[j as int]);
        }
        j = j + 1;
    }
    proof {
        assert(s@.subrange(i as int, to as int) =~= rest);
    }
    if acc > u64::MAX as u128 {
        None
    } else {
        Some(acc as u64)
    }
}

proof fn lemma_pow10_pos(n: nat)
    ensures
        pow10(n) >= 1,
    decreases n,
{
    if n > 0 {
        lemma_pow10_pos((n - 1) as nat);
    }
}

proof fn lemma_pow10_mono(a: nat, b: nat)
    requires
        a <= b,
    ensures
        1 <= pow10(a) <= pow10(b),
    decreases b,
{
    lemma_pow10_pos(a);
    if a < b {
        lemma_pow10_mono(a, (b - 1) as nat);
        lemma_pow10_pos((b - 1) as nat);
        assert(pow10(b) == 10 * pow10((b - 1) as nat));
    }
}

/// The integer denoted by `s` under the strict grammar: an optional sign,
/// then one or more digits. `None` when `s` does not fit the grammar.
pub open spec fn parse_int_spec(s: Seq<char>) -> Option<int> {
    let neg = s.len() > 0 && s[0] == '-';
    let signed = s.len() > 0 && (s[0] == '-' || s[0] == '+');
    let rest = if signed {
        s.skip(1)
    } else {
        s
    };
    if rest.len() > 0 && all_digits(rest) {
        if neg {
            Some(-digits_val(rest))
        } else {
            Some(digits_val(rest))
        }
    } else {
        None
    }
}

/// Parses a signed decimal integer under the strict grammar; `None` when the
/// text does not fit the grammar or the value does not fit in an `i64`.
#[verifier::loop_isolation(false)]
pub fn parse_i64(s: &str) -> (r: Option<i64>)
    ensures
        match parse_int_spec(s@) {
            Some(v) => if i64::MIN <= v <= i64::MAX {
                r matches Some(x) && x as int == v
            } else {
                r is None
            },
            None => r is None,
        },
{
    let n = s.unicode_len();
    if n == 0 {
        return None;
    }
    let c0 = s.get_char(0);
    let signed = c0 == '-' || c0 == '+';
    let neg = c0 == '-';
    let start: usize = if signed {
        1
    } else {
        0
    };
    if start >= n {
        return None;
    }
    let ghost rest = if signed {
        s@.skip(1)
    } else {
        s@
    };
    proof {
        assert(rest =~= s@.subrange(start as int, n as int));
    }
    let mut k = start;
    while k < n
        invariant
            start <= k <= n,
            n == s@.len(),
            forall|j: int| start <= j < k ==> is_digit(s@[j]),
        decreases n - k,
    {
        let c = s.get_char(k);
        let cu = c as u32;
        if cu < 48 || cu > 57 {
            proof {
                assert(rest[k - start] == s@[k as int]);
                assert(!is_digit(s@[k as int]));
            }
            return None;
        }
        k = k + 1;
    }
    proof {
        assert(all_digits(rest)) by {
            assert(forall|j: int| 0 <= j < rest.len() ==> rest[j] == s@[j + start] && is_digit(
                s@[j + start],
            ));
        }
    }
    match digits_to_u64(s, start, n) {
        None => {
            proof {
                assert(digits_val(rest) > u64::MAX);
            }
            None
        },
        Some(m) => {
            if neg {
                if m <= 9223372036854775808u64 {
                    Some((-(m as i128)) as i64)
                } else {
                    None
                }
            } else {
                if m <= 9223372036854775807u64 {
                    Some(m as i64)
                } else {
                    None
                }
            }
        },
    }
}

/// Whether `c` equals `l` up to ASCII case, where `l` is the lowercase form.
pub open spec fn lower_eq(c: char, l: char) -> bool {
    c == l || (97 <= l as int <= 122 && c as int == l as int - 32)
}

/// Whether `s` equals the lowercase ASCII word `w` up to ASCII case.
pub open spec fn lower_is(s: Seq<char>, w: Seq<char>) -> bool {
    s.len() == w.len() && forall|i: int| 0 <= i < s.len() ==> lower_eq(s[i], w[i])
}

/// Compares `s` to the lowercase ASCII word `w`, ignoring ASCII case in `s`.
#[verifier::loop_isolation(false)]
pub fn matches_word(s: &str, w: &str) -> (r: bool)
    ensures
        r == lower_is(s@, w@),
{
    let n = s.unicode_len();
    if n != w.unicode_len() {
        return false;
    }
    let mut i: usize = 0;
    while i < n
        invariant
            0 <= i <= n,
            n == s@.len(),
            n == w@.len(),
            forall|j: int| 0 <= j < i ==> lower_eq(s@[j], w@[j]),
        decreases n - i,
    {
        let c = s.get_char(i);
        let l = w.get_char(i);
        let cu = c as u32;
        let lu = l as u32;
        let ok = c == l || (97 <= lu && lu <= 122 && cu + 32 == lu);
        if !ok {
            proof {
                assert(!lower_eq(s@[i as int], w@[i as int]));
            }
            return false;
        }
        i = i + 1;
    }
    true
}

/// The boolean denoted by a word, ignoring ASCII case: `0`, `off`, `f`,
/// `false`, `n` and `no` are false; `1`, `on`, `t`, `true`, `y` and `yes`
/// are true; anything else is not a boolean word.
pub open spec fn bool_word_spec(s: Seq<char>) -> Option<bool> {
    if lower_is(s, "0"@) || lower_is(s, "off"@) || lower_is(s, "f"@) || lower_is(s, "false"@)
        || lower_is(s, "n"@) || lower_is(s, "no"@) {
        Some(false)
    } else if lower_is(s, "1"@) || lower_is(s, "on"@) || lower_is(s, "t"@) || lower_is(s, "true"@)
        || lower_is(s, "y"@) || lower_is(s, "yes"@) {
        Some(true)
    } else {
        None
    }
}

/// Parses a boolean word, ignoring ASCII case.
pub fn parse_bool_word(s: &str) -> (r: Option<bool>)
    ensures
        r == bool_word_spec(s@),
{
    if matches_word(s, "0") || matches_word(s, "off") || matches_word(s, "f") || matches_word(
        s,
        "false",
    ) || matches_word(s, "n") || matches_word(s, "no") {
        Some(false)
    } else if matches_word(s, "1") || matches_word(s, "on") || matches_word(s, "t")
        || matches_word(s, "true") || matches_word(s, "y") || matches_word(s, "yes") {
        Some(true)
    } else {
        None
    }
}

/// Text of more than 50 characters truncates to exactly its first 25 and
/// last 24 characters around an ellipsis; text of at most 50 characters is
/// kept whole. In particular the truncated form never exceeds 52 characters.
pub proof fn lemma_truncation(s: Seq<char>)
    ensures
        s.len() > 50 ==> truncated_text(s) == s.subrange(0, 25) + "..."@ + s.subrange(
            s.len() - 24,
            s.len() as int,
        ),
        s.len() > 50 ==> truncated_text(s).len() == 52,
        s.len() <= 50 ==> truncated_text(s) == s,
{
    reveal_strlit("...");
}


/// The index of the first occurrence of `c` in `s`, or `s.len()`.
pub open spec fn char_pos(s: Seq<char>, c: char) -> int
    decreases s.len(),
{
    if s.len() == 0 {
        0
    } else if s[0] == c {
        0
    } else {
        1 + char_pos(s.subrange(1, s.len() as int), c)
    }
}

pub proof fn lemma_char_pos(s: Seq<char>, c: char, k: int)
    requires
        0 <= k <= s.len(),
        forall|j: int| 0 <= j < k ==> s[j] != c,
        k < s.len() ==> s[k] == c,
    ensures
        char_pos(s, c) == k,
    decreases k,
{
    if k == 0 {
        if s.len() > 0 && s[0] != c {
            assert(k < s.len());
        }
    } else {
        let rest = s.subrange(1, s.len() as int);
        assert(forall|j: int| 0 <= j < k - 1 ==> rest[j] == s[j + 1] && s[j + 1] != c);
        assert(k - 1 < rest.len() ==> rest[k - 1] == s[k as int]);
        lemma_char_pos(rest, c, k - 1);
    }
}

/// Compares two strings for exact equality of their characters.
#[verifier::loop_isolation(false)]
pub fn str_eq(a: &str, b: &str) -> (r: bool)
    ensures
        r == (a@ == b@),
{
    let n = a.unicode_len();
    if n != b.unicode_len() {
        return false;
    }
    let mut i: usize = 0;
    while i < n
        invariant
            0 <= i <= n,
            n == a@.len() == b@.len(),
            forall|j: int| 0 <= j < i ==> a@[j] == b@[j],
        decreases n - i,
    {
        if a.get_char(i) != b.get_char(i) {
            return false;
        }
        i = i + 1;
    }
    proof {
        assert(a@ =~= b@);
    }
    true
}

/// The text of `parts[i..]` joined by `sep`.
pub open spec fn join_from(parts: Seq<Seq<char>>, i: int, sep: Seq<char>) -> Seq<char>
    decreases parts.len() - i,
{
    if i < 0 || i >= parts.len() {
        Seq::<char>::empty()
    } else if i == parts.len() - 1 {
        parts[i]
    } else {
        parts[i] + sep + join_from(parts, i + 1, sep)
    }
}

/// The text of `parts` joined by `sep`.
pub open spec fn join_text(parts: Seq<Seq<char>>, sep: Seq<char>) -> Seq<char> {
    join_from(parts, 0, sep)
}

/// The contents of a string vector.
pub open spec fn strings_view(s: Seq<String>) -> Seq<Seq<char>> {
    Seq::new(s.len(), |i: int| s[i]@)
}

/// Joins strings with a separator.
#[verifier::loop_isolation(false)]
pub fn join_strings(parts: &Vec<String>, sep: &str) -> (r: String)
    ensures
        r@ == join_text(strings_view(parts@), sep@),
{
    let ghost ps = strings_view(parts@);
    let mut out = String::new();
    let mut i: usize = 0;
    while i < parts.len()
        invariant
            0 <= i <= parts@.len(),
            i == 0 ==> out@ == Seq::<char>::empty(),
            0 < i < parts@.len() ==> join_text(ps, sep@) == out@ + sep@ + join_from(
                ps,
                i as int,
                sep@,
            ),
            i > 0 && i == parts@.len() ==> join_text(ps, sep@) == out@,
        decreases parts@.len() - i,
    {
        let ghost pre = out@;
        if i > 0 {
            out.append(sep);
        }
        out.append(parts[i].as_str());
        proof {
            assert(ps[i as int] == parts@[i as int]@);
            if i == 0 {
                assert(out@ =~= ps[0]);
                if i + 1 < parts@.len() {
                    assert(join_text(ps, sep@) =~= out@ + sep@ + join_from(ps, 1, sep@));
                }
            } else {
                assert(out@ =~= pre + sep@ + ps[i as int]);
                if i + 1 < parts@.len() {
                    assert(join_text(ps, sep@) =~= out@ + sep@ + join_from(ps, i + 1, sep@)) by {
                        assert(join_from(ps, i as int, sep@) == ps[i as int] + sep@ + join_from(
                            ps,
                            i + 1,
                            sep@,
                        ));
                        assert(pre + sep@ + (ps[i as int] + sep@ + join_from(ps, i + 1, sep@))
                            =~= out@ + sep@ + join_from(ps, i + 1, sep@));
                    }
                } else {
                    assert(join_from(ps, i as int, sep@) == ps[i as int]);
                    assert(join_text(ps, sep@) =~= out@);
                }
            }
        }
        i = i + 1;
    }
    proof {
        if parts@.len() == 0 {
            assert(join_text(ps, sep@) == Seq::<char>::empty());
        }
    }
    out
}


/// The value bound to `name` in a context, scanning from `i`.
pub open spec fn ctx_lookup_from(
    ctx: Seq<(Seq<char>, Seq<char>)>,
    i: int,
    name: Seq<char>,
) -> Option<Seq<char>>
    decreases ctx.len() - i,
{
    if i < 0 || i >= ctx.len() {
        None
    } else if ctx[i].0 == name {
        Some(ctx[i].1)
    } else {
        ctx_lookup_from(ctx, i + 1, name)
    }
}

/// The value bound to `name` in a context: the first entry with that name.
pub open spec fn ctx_lookup(ctx: Seq<(Seq<char>, Seq<char>)>, name: Seq<char>) -> Option<
    Seq<char>,
> {
    ctx_lookup_from(ctx, 0, name)
}

/// The template `t` with each `{name}` group replaced by the context value
/// bound to `name`; a group whose name is unbound, or a brace that opens no
/// group, is kept as it stands. Substituted text is taken verbatim.
pub open spec fn subst(t: Seq<char>, ctx: Seq<(Seq<char>, Seq<char>)>) -> Seq<char>
    decreases t.len(),
{
    if t.len() == 0 {
        Seq::<char>::empty()
    } else if t[0] == '{' && 1 <= char_pos(t, '}') && char_pos(t, '}') < t.len() {
        let j = char_pos(t, '}');
        let rest = subst(t.subrange(j + 1, t.len() as int), ctx);
        match ctx_lookup(ctx, t.subrange(1, j)) {
            Some(v) => v + rest,
            None => t.subrange(0, j + 1) + rest,
        }
    } else {
        seq![t[0]] + subst(t.subrange(1, t.len() as int), ctx)
    }
}

} // verus!
