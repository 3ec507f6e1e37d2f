//! Recognizers of the literals that a field value may have to be: a decimal
//! integer of 32 bits, a decimal floating-point number, a boolean.

use vstd::prelude::*;

verus! {

/// An ASCII decimal digit.
pub open spec fn is_digit(c: char) -> bool {
    '0' <= c && c <= '9'
}

/// A plus or minus sign.
pub open spec fn is_sign(c: char) -> bool {
    c == '+' || c == '-'
}

/// Every character of `s` is an ASCII decimal digit.
pub open spec fn all_digits(s: Seq<char>) -> bool {
    forall|i: int| 0 <= i < s.len() ==> is_digit(#[trigger] s[i])
}

/// The number that a run of decimal digits writes.
pub open spec fn digits_value(s: Seq<char>) -> int
    decreases s.len(),
{
    if s.len() == 0 {
        0
    } else {
        digits_value(s.drop_last()) * 10 + (s.last() as int - '0' as int)
    }
}

/// `s` without its leading sign, if it has one.
pub open spec fn unsigned_part(s: Seq<char>) -> Seq<char> {
    if s.len() > 0 && is_sign(s[0]) {
        s.subrange(1, s.len() as int)
    } else {
        s
    }
}

/// `s` writes an integer of 32 bits in decimal: an optional sign, then one or
/// more digits, the number written lying between -2147483648 and 2147483647.
pub open spec fn is_integer_literal(s: Seq<char>) -> bool {
    let digits = unsigned_part(s);
    &&& digits.len() > 0
    &&& all_digits(digits)
    &&& if s[0] == '-' {
        digits_value(digits) <= 2147483648
    } else {
        digits_value(digits) <= 2147483647
    }
}

/// The first offset at or after `from` at which `s` holds no digit.
pub open spec fn digit_run_end(s: Seq<char>, from: int) -> int
    decreases s.len() - from,
{
    if 0 <= from < s.len() && is_digit(s[from]) {
        digit_run_end(s, from + 1)
    } else {
        from
    }
}

/// `e` is an exponent: the letter `e` in either case, an optional sign, one
/// or more digits.
pub open spec fn is_exponent(e: Seq<char>) -> bool {
    &&& e.len() >= 2
    &&& (e[0] == 'e' || e[0] == 'E')
    &&& unsigned_part(e.subrange(1, e.len() as int)).len() > 0
    &&& all_digits(unsigned_part(e.subrange(1, e.len() as int)))
}

/// `t` is an unsigned decimal number: digits, optionally a point and more
/// digits, at least one digit before or behind the point, optionally an
/// exponent.
pub open spec fn is_decimal_number(t: Seq<char>) -> bool {
    let point = digit_run_end(t, 0);
    let has_point = point < t.len() && t[point] == '.';
    let end = if has_point {
        digit_run_end(t, point + 1)
    } else {
        point
    };
    let digits = if has_point {
        end - 1
    } else {
        end
    };
    &&& digits >= 1
    &&& (end == t.len() || is_exponent(t.subrange(end, t.len() as int)))
}

/// An ASCII capital letter turned into its small letter; any other character
/// as it is.
pub open spec fn ascii_lower(c: char) -> char {
    if 'A' <= c && c <= 'Z' {
        ((c as u8) + 32) as char
    } else {
        c
    }
}

/// `t` spells `word` if the case of its ASCII letters is ignored.
pub open spec fn spells(t: Seq<char>, word: Seq<char>) -> bool {
    t.map_values(|c: char| ascii_lower(c)) == word
}

/// `t` names one of the numbers that are no numerals: `inf`, `infinity`,
/// `nan`, in any case.
pub open spec fn is_special_number(t: Seq<char>) -> bool {
    ||| spells(t, seq!['i', 'n', 'f'])
    ||| spells(t, seq!['n', 'a', 'n'])
    ||| spells(t, seq!['i', 'n', 'f', 'i', 'n', 'i', 't', 'y'])
}

/// `s` writes a floating-point number in decimal: an optional sign, then a
/// decimal number or one of the special names.
pub open spec fn is_float_literal(s: Seq<char>) -> bool {
    is_decimal_number(unsigned_part(s)) || is_special_number(unsigned_part(s))
}

/// `s` is `true` or `false`.
pub open spec fn is_bool_literal(s: Seq<char>) -> bool {
    s == seq!['t', 'r', 'u', 'e'] || s == seq!['f', 'a', 'l', 's', 'e']
}

/// The number written by a prefix of a run of digits is at most the number
/// written by the whole run.
pub proof fn lemma_digits_value_grows(s: Seq<char>, k: int)
    requires
        all_digits(s),
        0 <= k <= s.len(),
    ensures
        0 <= digits_value(s.take(k)) <= digits_value(s),
    decreases s.len(),
{
    if k == s.len() {
        assert(s.take(k) =~= s);
        if s.len() > 0 {
            lemma_digits_value_grows(s.drop_last(), k - 1);
        }
    } else {
        lemma_digits_value_grows(s.drop_last(), k);
        assert(s.drop_last().take(k) =~= s.take(k));
    }
}

/// Whether `c` is an ASCII decimal digit.
fn digit(c: char) -> (r: bool)
    ensures
        r == is_digit(c),
{
    '0' <= c && c <= '9'
}

/// Whether `c` is a plus or minus sign.
fn sign(c: char) -> (r: bool)
    ensures
        r == is_sign(c),
{
    c == '+' || c == '-'
}

/// The offset behind the run of digits that starts at `from`.
fn skip_digits(text: &Vec<char>, from: usize) -> (end: usize)
    requires
        from <= text.len(),
    ensures
        end == digit_run_end(text@, from as int),
        from <= end <= text.len(),
        end < text.len() ==> !is_digit(text@[end as int]),
        all_digits(text@.subrange(from as int, end as int)),
{
    let mut end: usize = from;
    while end < text.len() && digit(text[end])
        invariant
            from <= end <= text.len(),
            digit_run_end(text@, from as int) == digit_run_end(text@, end as int),
            all_digits(text@.subrange(from as int, end as int)),
        decreases text.len() - end,
    {
        assert forall|i: int| 0 <= i < end + 1 - from implies is_digit(
            #[trigger] text@.subrange(from as int, end + 1)[i],
        ) by {
            if i < end - from {
                assert(text@.subrange(from as int, end as int)[i] == text@[from + i]);
            }
        }
        end += 1;
    }
    end
}

/// Whether `text[from..]` is not empty and holds digits only.
fn digits_only(text: &Vec<char>, from: usize) -> (r: bool)
    requires
        from <= text.len(),
    ensures
        r == (from < text.len() && all_digits(text@.subrange(from as int, text.len() as int))),
{
    let end = skip_digits(text, from);
    proof {
        if end < text.len() {
            assert(text@.subrange(from as int, text.len() as int)[end - from] == text@.index(
                end as int,
            ));
        }
    }
    from < text.len() && end == text.len()
}

/// Whether `text` writes an integer of 32 bits in decimal.
pub fn parses_as_integer(text: &Vec<char>) -> (r: bool)
    ensures
        r == is_integer_literal(text@),
{
    if text.len() == 0 {
        return false;
    }
    let negative = text[0] == '-';
    let start: usize = if sign(text[0]) {
        1
    } else {
        0
    };
    let ghost digits = unsigned_part(text@);
    if !digits_only(text, start) {
        return false;
    }
    let limit: u64 = if negative {
        2147483648
    } else {
        2147483647
    };
    let mut value: u64 = 0;
    let mut i: usize = start;
    while i < text.len()
        invariant
            start <= i <= text.len(),
            digits == text@.subrange(start as int, text.len() as int),
            digits == unsigned_part(text@),
            all_digits(digits),
            value == digits_value(digits.take(i - start)),
            value <= limit,
            limit == if text@[0] == '-' {
                2147483648u64
            } else {
                2147483647u64
            },
        decreases text.len() - i,
    {
        let c = text[i];
        assert(is_digit(digits[i - start]));
        assert(digits.take(i + 1 - start).drop_last() =~= digits.take(i - start));
        let d: u64 = (c as u32 - '0' as u32) as u64;
        value = value * 10 + d;
        if value > limit {
            proof {
                lemma_digits_value_grows(digits, i + 1 - start);
            }
            return false;
        }
        i += 1;
    }
    assert(digits.take(i - start) =~= digits);
    true
}

/// Whether `text[from..]` is an exponent.
fn exponent_at(text: &Vec<char>, from: usize) -> (r: bool)
    requires
        from <= text.len(),
    ensures
        r == is_exponent(text@.subrange(from as int, text.len() as int)),
{
    let ghost e = text@.subrange(from as int, text.len() as int);
    if text.len() - from < 2 {
        return false;
    }
    if text[from] != 'e' && text[from] != 'E' {
        return false;
    }
    let start: usize = if sign(text[from + 1]) {
        from + 2
    } else {
        from + 1
    };
    assert(unsigned_part(e.subrange(1, e.len() as int)) =~= text@.subrange(
        start as int,
        text.len() as int,
    ));
    digits_only(text, start)
}

/// Whether `text[from..]` is an unsigned decimal number.
fn decimal_number_at(text: &Vec<char>, from: usize) -> (r: bool)
    requires
        from <= text.len(),
    ensures
        r == is_decimal_number(text@.subrange(from as int, text.len() as int)),
{
    let ghost t = text@.subrange(from as int, text.len() as int);
    let point = skip_digits(text, from);
    proof {
        lemma_run_in_suffix(text@, from as int, from as int);
    }
    let has_point = point < text.len() && text[point] == '.';
    let end = if has_point {
        skip_digits(text, point + 1)
    } else {
        point
    };
    proof {
        if has_point {
            lemma_run_in_suffix(text@, from as int, point + 1);
        }
        assert(t.subrange(end - from, t.len() as int) =~= text@.subrange(
            end as int,
            text.len() as int,
        ));
    }
    let digits = if has_point {
        end - from - 1
    } else {
        end - from
    };
    if digits < 1 {
        return false;
    }
    end == text.len() || exponent_at(text, end)
}

/// A run of digits ends at the same place in a text and in its suffix.
pub proof fn lemma_run_in_suffix(s: Seq<char>, cut: int, from: int)
    requires
        0 <= cut <= from <= s.len(),
    ensures
        digit_run_end(s.subrange(cut, s.len() as int), from - cut) == digit_run_end(s, from) - cut,
    decreases s.len() - from,
{
    if from < s.len() {
        if is_digit(s[from]) {
            lemma_run_in_suffix(s, cut, from + 1);
        }
    }
}

/// The small letter of an ASCII capital; any other character as it is.
fn lower(c: char) -> (r: char)
    ensures
        r == ascii_lower(c),
{
    if 'A' <= c && c <= 'Z' {
        ((c as u8) + 32) as char
    } else {
        c
    }
}

/// Whether `text[from..]` spells `word`, the case of ASCII letters ignored.
fn spells_at(text: &Vec<char>, from: usize, word: &Vec<char>) -> (r: bool)
    requires
        from <= text.len(),
    ensures
        r == spells(text@.subrange(from as int, text.len() as int), word@),
{
    let ghost t = text@.subrange(from as int, text.len() as int);
    let ghost lowered = t.map_values(|c: char| ascii_lower(c));
    if text.len() - from != word.len() {
        return false;
    }
    let mut k: usize = 0;
    while k < word.len()
        invariant
            from <= text.len(),
            text.len() - from == word.len(),
            k <= word.len(),
            t == text@.subrange(from as int, text.len() as int),
            lowered == t.map_values(|c: char| ascii_lower(c)),
            forall|j: int| 0 <= j < k ==> lowered[j] == word@[j],
        decreases word.len() - k,
    {
        if lower(text[from + k]) != word[k] {
            return false;
        }
        k += 1;
    }
    assert(lowered =~= word@);
    true
}

/// Whether `text` writes a floating-point number in decimal.
pub fn parses_as_float(text: &Vec<char>) -> (r: bool)
    ensures
        r == is_float_literal(text@),
{
    let start: usize = if text.len() > 0 && sign(text[0]) {
        1
    } else {
        0
    };
    assert(unsigned_part(text@) == text@.subrange(start as int, text.len() as int)) by {
        if start == 0 {
            assert(text@.subrange(0, text.len() as int) =~= text@);
        }
    }
    if decimal_number_at(text, start) {
        return true;
    }
    let inf = vec!['i', 'n', 'f'];
    let nan = vec!['n', 'a', 'n'];
    let infinity = vec!['i', 'n', 'f', 'i', 'n', 'i', 't', 'y'];
    spells_at(text, start, &inf) || spells_at(text, start, &nan) || spells_at(
        text,
        start,
        &infinity,
    )
}

/// Whether `text` is `true` or `false`.
pub fn parses_as_bool(text: &Vec<char>) -> (r: bool)
    ensures
        r == is_bool_literal(text@),
{
    let yes = vec!['t', 'r', 'u', 'e'];
    let no = vec!['f', 'a', 'l', 's', 'e'];
    let is_yes = same_chars(text, &yes);
    let is_no = same_chars(text, &no);
    is_yes || is_no
}

/// Whether two character vectors hold the same characters.
fn same_chars(a: &Vec<char>, b: &Vec<char>) -> (same: bool)
    ensures
        same == (a@ == b@),
{
    if a.len() != b.len() {
        return false;
    }
    let mut k: usize = 0;
    while k < a.len()
        invariant
            a.len() == b.len(),
            k <= a.len(),
            forall|j: int| 0 <= j < k ==> a@[j] == b@[j],
        decreases a.len() - k,
    {
        if a[k] != b[k] {
            return false;
        }
        k += 1;
    }
    assert(a@ =~= b@);
    true
}

} // verus!
