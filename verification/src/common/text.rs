//! Small text operations: trimming, case folding, decimal numbers, cleaning.

use vstd::prelude::*;
use vstd::string::*;

verus! {

/// `String::push` appends one character.
pub assume_specification[ String::push ](s: &mut String, c: char)
    ensures
        final(s)@ == old(s)@.push(c),
;

/// `String::pop` removes the last character and returns it; an empty string
/// stays as it is and gives nothing.
pub assume_specification[ String::pop ](s: &mut String) -> (r: Option<char>)
    ensures
        match r {
            Some(c) => old(s)@.len() > 0 && c == old(s)@.last() && final(s)@
                == old(s)@.drop_last(),
            None => old(s)@.len() == 0 && final(s)@ == old(s)@,
        },
;

/// The characters of a string, in order.
pub fn chars_of(s: &str) -> (r: Vec<char>)
    ensures
        r@ == s@,
{
    let mut out: Vec<char> = Vec::new();
    for c in it: s.chars()
        invariant
            it.seq() == s@,
            out@ == s@.take(it.index() as int),
    {
        out.push(c);
        assert(out@ =~= s@.take(it.index() + 1));
    }
    assert(s@.take(s@.len() as int) =~= s@);
    out
}

/// The string made of `chars[from..to]`.
pub fn string_of(chars: &Vec<char>, from: usize, to: usize) -> (r: String)
    requires
        from <= to <= chars@.len(),
    ensures
        r@ == chars@.subrange(from as int, to as int),
{
    let mut out = String::new();
    let mut i: usize = from;
    while i < to
        invariant
            from <= i <= to <= chars@.len(),
            out@ == chars@.subrange(from as int, i as int),
        decreases to - i,
    {
        out.push(chars[i]);
        i = i + 1;
        assert(out@ =~= chars@.subrange(from as int, i as int));
    }
    out
}

/// Whether two texts are the same.
pub fn same_text(a: &str, b: &str) -> (r: bool)
    ensures
        r == (a@ == b@),
{
    a.to_owned() == b.to_owned()
}

/// White space: the characters with Unicode's `White_Space` property.
pub open spec fn spec_is_space(c: char) -> bool {
    ||| '\u{9}' <= c <= '\u{d}'
    ||| c == ' '
    ||| c == '\u{85}'
    ||| c == '\u{a0}'
    ||| c == '\u{1680}'
    ||| '\u{2000}' <= c <= '\u{200a}'
    ||| c == '\u{2028}'
    ||| c == '\u{2029}'
    ||| c == '\u{202f}'
    ||| c == '\u{205f}'
    ||| c == '\u{3000}'
}

pub fn is_space(c: char) -> (r: bool)
    ensures
        r == spec_is_space(c),
{
    ('\u{9}' <= c && c <= '\u{d}') || c == ' ' || c == '\u{85}' || c == '\u{a0}' || c == '\u{1680}'
        || ('\u{2000}' <= c && c <= '\u{200a}') || c == '\u{2028}' || c == '\u{2029}' || c
        == '\u{202f}' || c == '\u{205f}' || c == '\u{3000}'
}

/// Control characters: Unicode's general category Cc.
pub open spec fn spec_is_control(c: char) -> bool {
    c <= '\u{1f}' || '\u{7f}' <= c <= '\u{9f}'
}

pub fn is_control(c: char) -> (r: bool)
    ensures
        r == spec_is_control(c),
{
    c <= '\u{1f}' || ('\u{7f}' <= c && c <= '\u{9f}')
}

/// A text without its leading white space.
pub open spec fn trim_start(s: Seq<char>) -> Seq<char>
    decreases s.len(),
{
    if s.len() > 0 && spec_is_space(s[0]) {
        trim_start(s.skip(1))
    } else {
        s
    }
}

/// A text without its trailing white space.
pub open spec fn trim_end(s: Seq<char>) -> Seq<char>
    decreases s.len(),
{
    if s.len() > 0 && spec_is_space(s.last()) {
        trim_end(s.drop_last())
    } else {
        s
    }
}

/// A text without the white space around it.
pub open spec fn trimmed(s: Seq<char>) -> Seq<char> {
    trim_end(trim_start(s))
}

pub fn trim(s: &str) -> (r: String)
    ensures
        r@ == trimmed(s@),
{
    let chars = chars_of(s);
    let mut from: usize = 0;
    let mut to: usize = chars.len();
    assert(s@.subrange(0, to as int) =~= s@);
    while from < to && is_space(chars[from])
        invariant
            chars@ == s@,
            from <= to == s@.len(),
            trim_start(s@) == trim_start(s@.subrange(from as int, to as int)),
        decreases to - from,
    {
        assert(s@.subrange(from as int, to as int).skip(1) =~= s@.subrange(
            from + 1,
            to as int,
        ));
        from = from + 1;
    }
    let ghost head = s@.subrange(from as int, to as int);
    assert(trim_start(s@) == head);
    while from < to && is_space(chars[to - 1])
        invariant
            chars@ == s@,
            from <= to <= s@.len(),
            trim_end(head) == trim_end(s@.subrange(from as int, to as int)),
        decreases to - from,
    {
        assert(s@.subrange(from as int, to as int).drop_last() =~= s@.subrange(
            from as int,
            to - 1,
        ));
        to = to - 1;
    }
    string_of(&chars, from, to)
}

/// The lower-case form of an ASCII letter; any other character is itself.
pub open spec fn ascii_lower(c: char) -> char {
    if 'A' <= c <= 'Z' {
        (c as u32 + 32) as char
    } else {
        c
    }
}

/// Two texts are the same but for the case of their ASCII letters.
pub open spec fn same_name(a: Seq<char>, b: Seq<char>) -> bool {
    &&& a.len() == b.len()
    &&& forall|i: int| 0 <= i < a.len() ==> ascii_lower(#[trigger] a[i]) == ascii_lower(b[i])
}

fn lower_code(c: char) -> (r: u32)
    ensures
        r == ascii_lower(c) as u32,
{
    if 'A' <= c && c <= 'Z' {
        c as u32 + 32
    } else {
        c as u32
    }
}

pub fn eq_ignore_ascii_case(a: &str, b: &str) -> (r: bool)
    ensures
        r == same_name(a@, b@),
{
    let left = chars_of(a);
    let right = chars_of(b);
    if left.len() != right.len() {
        return false;
    }
    let mut i: usize = 0;
    while i < left.len()
        invariant
            left@ == a@,
            right@ == b@,
            left@.len() == right@.len(),
            i <= left@.len(),
            forall|j: int| 0 <= j < i ==> ascii_lower(#[trigger] a@[j]) == ascii_lower(b@[j]),
        decreases left@.len() - i,
    {
        if lower_code(left[i]) != lower_code(right[i]) {
            assert(ascii_lower(a@[i as int]) != ascii_lower(b@[i as int]));
            return false;
        }
        i = i + 1;
    }
    true
}

pub open spec fn digit_char(d: nat) -> char {
    (48 + d) as char
}

pub open spec fn is_digit(c: char) -> bool {
    '0' <= c <= '9'
}

/// The decimal digits of `n`, without leading zeros.
pub open spec fn decimal(n: nat) -> Seq<char>
    decreases n,
{
    if n < 10 {
        seq![digit_char(n)]
    } else {
        decimal(n / 10).push(digit_char(n % 10))
    }
}

/// The number that a run of digits denotes.
pub open spec fn decimal_value(s: Seq<char>) -> nat
    decreases s.len(),
{
    if s.len() == 0 {
        0
    } else {
        10 * decimal_value(s.drop_last()) + (s.last() as u32 - 48) as nat
    }
}

pub open spec fn all_digits(s: Seq<char>) -> bool {
    forall|i: int| 0 <= i < s.len() ==> is_digit(#[trigger] s[i])
}

/// The number that a text denotes: digits, at least one, after an optional
/// plus sign; nothing if it does not fit 64 bits.
pub open spec fn number_in(s: Seq<char>) -> Option<u64> {
    let digits = if s.len() > 0 && s[0] == '+' {
        s.skip(1)
    } else {
        s
    };
    if digits.len() > 0 && all_digits(digits) && decimal_value(digits) <= u64::MAX {
        Some(decimal_value(digits) as u64)
    } else {
        None
    }
}

fn digit(d: u64) -> (r: char)
    requires
        d < 10,
    ensures
        r == digit_char(d as nat),
{
    match d {
        0 => '0',
        1 => '1',
        2 => '2',
        3 => '3',
        4 => '4',
        5 => '5',
        6 => '6',
        7 => '7',
        8 => '8',
        _ => '9',
    }
}

/// A number in decimal.
pub fn decimal_text(n: u64) -> (r: String)
    ensures
        r@ == decimal(n as nat),
    decreases n,
{
    if n < 10 {
        let mut s = String::new();
        s.push(digit(n));
        assert(s@ =~= decimal(n as nat));
        s
    } else {
        let mut s = decimal_text(n / 10);
        s.push(digit(n % 10));
        s
    }
}

proof fn lemma_value_grows(s: Seq<char>, i: int)
    requires
        0 <= i <= s.len(),
    ensures
        decimal_value(s.take(i)) <= decimal_value(s),
    decreases s.len(),
{
    if i == s.len() {
        assert(s.take(i) =~= s);
    } else {
        lemma_value_grows(s.drop_last(), i);
        assert(s.drop_last().take(i) =~= s.take(i));
    }
}

/// Reads a client number the way `u64`'s `FromStr` does.
pub fn parse_number(s: &str) -> (r: Option<u64>)
    ensures
        r == number_in(s@),
{
    let chars = chars_of(s);
    let start: usize = if chars.len() > 0 && chars[0] == '+' {
        1
    } else {
        0
    };
    let ghost digits = if s@.len() > 0 && s@[0] == '+' {
        s@.skip(1)
    } else {
        s@
    };
    if start == chars.len() {
        return None;
    }
    let mut value: u64 = 0;
    let mut i: usize = start;
    while i < chars.len()
        invariant
            chars@ == s@,
            start <= i <= s@.len(),
            digits == s@.skip(start as int),
            digits == (if s@.len() > 0 && s@[0] == '+' {
                s@.skip(1)
            } else {
                s@
            }),
            all_digits(digits.take(i - start)),
            value == decimal_value(digits.take(i - start)),
        decreases s@.len() - i,
    {
        let c = chars[i];
        let ghost k = i - start;
        assert(digits[k] == c);
        if !('0' <= c && c <= '9') {
            assert(!is_digit(digits[k]));
            return None;
        }
        let d: u64 = c as u64 - 48;
        proof {
            assert(digits.take(k + 1).drop_last() =~= digits.take(k));
            lemma_value_grows(digits, k + 1);
        }
        if value > (u64::MAX - d) / 10 {
            assert(10 * value + d > u64::MAX);
            return None;
        }
        value = value * 10 + d;
        i = i + 1;
        assert(forall|j: int|
            0 <= j < k + 1 ==> is_digit(#[trigger] digits.take(k + 1)[j])) by {
            assert forall|j: int| 0 <= j < k + 1 implies is_digit(
                #[trigger] digits.take(k + 1)[j],
            ) by {
                if j < k {
                    assert(digits.take(k)[j] == digits.take(k + 1)[j]);
                }
            }
        }
    }
    assert(digits.take(digits.len() as int) =~= digits);
    Some(value)
}

proof fn lemma_decimal_value(n: nat)
    ensures
        decimal(n).len() > 0,
        all_digits(decimal(n)),
        decimal_value(decimal(n)) == n,
    decreases n,
{
    reveal_with_fuel(decimal_value, 2);
    if n >= 10 {
        lemma_decimal_value(n / 10);
        assert(decimal(n).drop_last() =~= decimal(n / 10));
    } else {
        assert(decimal(n).drop_last() =~= Seq::<char>::empty());
    }
}

/// A number written in decimal is read back as it was.
pub proof fn lemma_number_round_trip(n: u64)
    ensures
        number_in(decimal(n as nat)) == Some(n),
{
    lemma_decimal_value(n as nat);
    assert(is_digit(decimal(n as nat)[0]));
}

/// The first `max_len` characters of a text that are no control characters.
pub open spec fn cleaned(s: Seq<char>, max_len: nat) -> Seq<char> {
    let kept = s.filter(|c: char| !spec_is_control(c));
    if kept.len() <= max_len {
        kept
    } else {
        kept.take(max_len as int)
    }
}

/// A cleaned text holds no control character and is within its limit; a text
/// that is already clean and short enough stays as it is.
pub proof fn lemma_cleaned(s: Seq<char>, max_len: nat)
    ensures
        cleaned(s, max_len).len() <= max_len,
        forall|i: int|
            0 <= i < cleaned(s, max_len).len() ==> !spec_is_control(#[trigger] cleaned(s, max_len)[i]),
        (forall|i: int| 0 <= i < s.len() ==> !spec_is_control(#[trigger] s[i])) && s.len()
            <= max_len ==> cleaned(s, max_len) == s,
{
    let keep = |c: char| !spec_is_control(c);
    s.filter_lemma(keep);
    assert forall|i: int| 0 <= i < cleaned(s, max_len).len() implies !spec_is_control(
        #[trigger] cleaned(s, max_len)[i],
    ) by {
        assert(keep(s.filter(keep)[i]));
    }
    if forall|i: int| 0 <= i < s.len() ==> !spec_is_control(#[trigger] s[i]) {
        lemma_filter_all(s, keep);
    }
}

proof fn lemma_filter_all(s: Seq<char>, keep: spec_fn(char) -> bool)
    requires
        forall|i: int| 0 <= i < s.len() ==> keep(#[trigger] s[i]),
    ensures
        s.filter(keep) == s,
    decreases s.len(),
{
    reveal(Seq::filter);
    if s.len() > 0 {
        assert forall|i: int| 0 <= i < s.drop_last().len() implies keep(
            #[trigger] s.drop_last()[i],
        ) by {
            assert(s.drop_last()[i] == s[i]);
        }
        lemma_filter_all(s.drop_last(), keep);
        assert(s.drop_last().push(s.last()) =~= s);
    }
}

// ---------------------------------------------------------------------------
// Laws, said of the calls
// ---------------------------------------------------------------------------

/// White space is what Unicode lists as such.
pub proof fn lemma_white_space(c: char, r: bool)
    requires
        call_ensures(is_space, (c,), r),
    ensures
        r == spec_is_space(c),
        r <==> {
            let n = c as u32;
            ||| 9 <= n <= 13
            ||| n == 0x20
            ||| n == 0x85
            ||| n == 0xa0
            ||| n == 0x1680
            ||| 0x2000 <= n <= 0x200a
            ||| n == 0x2028
            ||| n == 0x2029
            ||| n == 0x202f
            ||| n == 0x205f
            ||| n == 0x3000
        },
{
}

proof fn lemma_trim_start_drops_front(s: Seq<char>)
    ensures
        exists|a: int|
            0 <= a <= s.len() && trim_start(s) == #[trigger] s.skip(a) && (forall|i: int|
                0 <= i < a ==> spec_is_space(#[trigger] s[i])),
        trim_start(s).len() > 0 ==> !spec_is_space(trim_start(s)[0]),
    decreases s.len(),
{
    if s.len() > 0 && spec_is_space(s[0]) {
        let rest = s.skip(1);
        lemma_trim_start_drops_front(rest);
        let a = choose|a: int|
            0 <= a <= rest.len() && trim_start(rest) == #[trigger] rest.skip(a) && (forall|i: int|
                0 <= i < a ==> spec_is_space(#[trigger] rest[i]));
        assert(rest.skip(a) =~= s.skip(a + 1));
        assert forall|i: int| 0 <= i < a + 1 implies spec_is_space(#[trigger] s[i]) by {
            if i > 0 {
                assert(rest[i - 1] == s[i]);
            }
        }
    } else {
        assert(s.skip(0) =~= s);
    }
}

proof fn lemma_trim_end_drops_back(s: Seq<char>)
    ensures
        exists|b: int|
            0 <= b <= s.len() && trim_end(s) == #[trigger] s.take(b) && (forall|i: int|
                b <= i < s.len() ==> spec_is_space(#[trigger] s[i])),
        trim_end(s).len() > 0 ==> !spec_is_space(trim_end(s).last()),
    decreases s.len(),
{
    if s.len() > 0 && spec_is_space(s.last()) {
        let front = s.drop_last();
        lemma_trim_end_drops_back(front);
        let b = choose|b: int|
            0 <= b <= front.len() && trim_end(front) == #[trigger] front.take(b) && (forall|i: int|
                b <= i < front.len() ==> spec_is_space(#[trigger] front[i]));
        assert(front.take(b) =~= s.take(b));
        assert forall|i: int| b <= i < s.len() implies spec_is_space(#[trigger] s[i]) by {
            if i < front.len() {
                assert(front[i] == s[i]);
            }
        }
    } else {
        assert(s.take(s.len() as int) =~= s);
    }
}

/// Trimming cuts white space off both ends, all of it, and nothing else.
pub proof fn lemma_trim_cuts_white_space(s: &str, r: String)
    requires
        call_ensures(trim, (s,), r),
    ensures
        exists|a: int, b: int|
            0 <= a <= b <= s@.len() && r@ == #[trigger] s@.subrange(a, b) && (forall|i: int|
                0 <= i < a || b <= i < s@.len() ==> spec_is_space(#[trigger] s@[i])),
        r@.len() > 0 ==> !spec_is_space(r@[0]) && !spec_is_space(r@.last()),
{
    lemma_trimmed(s@);
}

/// What [`trimmed`] leaves is the text between the white space around it.
pub proof fn lemma_trimmed(s: Seq<char>)
    ensures
        exists|a: int, b: int|
            0 <= a <= b <= s.len() && trimmed(s) == #[trigger] s.subrange(a, b) && (forall|i: int|
                0 <= i < a || b <= i < s.len() ==> spec_is_space(#[trigger] s[i])),
        trimmed(s).len() > 0 ==> !spec_is_space(trimmed(s)[0]) && !spec_is_space(trimmed(s).last()),
{
    lemma_trim_start_drops_front(s);
    let a = choose|a: int|
        0 <= a <= s.len() && trim_start(s) == #[trigger] s.skip(a) && (forall|i: int|
            0 <= i < a ==> spec_is_space(#[trigger] s[i]));
    let mid = s.skip(a);
    lemma_trim_end_drops_back(mid);
    let n = choose|n: int|
        0 <= n <= mid.len() && trim_end(mid) == #[trigger] mid.take(n) && (forall|i: int|
            n <= i < mid.len() ==> spec_is_space(#[trigger] mid[i]));
    assert(mid.take(n) =~= s.subrange(a, a + n));
    assert forall|i: int| 0 <= i < a || a + n <= i < s.len() implies spec_is_space(
        #[trigger] s[i],
    ) by {
        if i >= a + n {
            assert(mid[i - a] == s[i]);
        }
    }
}

/// White space around a text does not change what trimming leaves of it: any
/// middle that starts and ends with something else is what is left.
pub proof fn lemma_trimmed_is(s: Seq<char>, a: int, b: int)
    requires
        0 <= a < b <= s.len(),
        forall|i: int| 0 <= i < a || b <= i < s.len() ==> spec_is_space(#[trigger] s[i]),
        !spec_is_space(s[a]),
        !spec_is_space(s[b - 1]),
    ensures
        trimmed(s) == s.subrange(a, b),
{
    lemma_trimmed(s);
    let (x, y) = choose|x: int, y: int|
        0 <= x <= y <= s.len() && trimmed(s) == #[trigger] s.subrange(x, y) && (forall|i: int|
            0 <= i < x || y <= i < s.len() ==> spec_is_space(#[trigger] s[i]));
    assert(x <= a && b <= y);
    if x < a {
        assert(s.subrange(x, y)[0] == s[x]);
        assert(spec_is_space(s[x]));
    }
    if b < y {
        assert(s.subrange(x, y).last() == s[y - 1]);
        assert(spec_is_space(s[y - 1]));
    }
}

/// A text of white space alone is trimmed away.
pub proof fn lemma_trimmed_blank(s: Seq<char>)
    requires
        forall|i: int| 0 <= i < s.len() ==> spec_is_space(#[trigger] s[i]),
    ensures
        trimmed(s).len() == 0,
{
    lemma_trimmed(s);
    let (x, y) = choose|x: int, y: int|
        0 <= x <= y <= s.len() && trimmed(s) == #[trigger] s.subrange(x, y) && (forall|i: int|
            0 <= i < x || y <= i < s.len() ==> spec_is_space(#[trigger] s[i]));
    if x < y {
        assert(s.subrange(x, y)[0] == s[x]);
        assert(spec_is_space(s[x]));
    }
}

/// One character is another, or the same ASCII letter in the other case.
pub open spec fn same_but_for_case(a: char, b: char) -> bool {
    ||| a == b
    ||| 'A' <= a <= 'Z' && b as u32 == a as u32 + 32
    ||| 'A' <= b <= 'Z' && a as u32 == b as u32 + 32
}

/// Names are compared whole, character by character, and only the case of ASCII
/// letters is passed over.
pub proof fn lemma_names_are_compared_whole(a: &str, b: &str, r: bool)
    requires
        call_ensures(eq_ignore_ascii_case, (a, b), r),
    ensures
        r <==> a@.len() == b@.len() && forall|i: int|
            0 <= i < a@.len() ==> same_but_for_case(#[trigger] a@[i], b@[i]),
{
    lemma_same_name_is_whole(a@, b@);
}

/// What [`same_name`] says, of the characters themselves.
pub proof fn lemma_same_name_is_whole(a: Seq<char>, b: Seq<char>)
    ensures
        same_name(a, b) <==> a.len() == b.len() && forall|i: int|
            0 <= i < a.len() ==> same_but_for_case(#[trigger] a[i], b[i]),
{
    if same_name(a, b) {
        assert forall|i: int| 0 <= i < a.len() implies same_but_for_case(#[trigger] a[i], b[i]) by {
            assert(ascii_lower(a[i]) == ascii_lower(b[i]));
        }
    }
    if a.len() == b.len() && forall|i: int|
        0 <= i < a.len() ==> same_but_for_case(#[trigger] a[i], b[i]) {
        assert forall|i: int| 0 <= i < a.len() implies ascii_lower(#[trigger] a[i]) == ascii_lower(
            b[i],
        ) by {
            assert(same_but_for_case(a[i], b[i]));
        }
    }
}

/// A number in decimal is made of digits, has no zero in front unless it is
/// zero, and reads back as the number.
pub proof fn lemma_decimal_text_is_the_number(n: u64, r: String, s: &str, read: Option<u64>)
    requires
        call_ensures(decimal_text, (n,), r),
        call_ensures(parse_number, (s,), read),
        s@ == r@,
    ensures
        read == Some(n),
        r@.len() > 0,
        forall|i: int| 0 <= i < r@.len() ==> '0' <= #[trigger] r@[i] <= '9',
        r@.len() > 1 ==> r@[0] != '0',
{
    lemma_number_round_trip(n);
    lemma_decimal_value(n as nat);
    lemma_no_leading_zero(n as nat);
    assert forall|i: int| 0 <= i < r@.len() implies '0' <= #[trigger] r@[i] <= '9' by {
        assert(is_digit(decimal(n as nat)[i]));
    }
}

proof fn lemma_no_leading_zero(n: nat)
    ensures
        n > 0 ==> decimal(n)[0] != '0',
        decimal(n).len() > 1 ==> n > 0,
    decreases n,
{
    if n >= 10 {
        lemma_decimal_value(n / 10);
        lemma_no_leading_zero(n / 10);
        assert(decimal(n)[0] == decimal(n / 10)[0]);
    }
}

/// Numbers are read digit by digit: a digit alone is its value, one more digit is
/// ten times the number before plus its value as long as that fits, a plus sign in
/// front changes nothing, and anything that is no digit makes it no number.
pub proof fn lemma_numbers_are_read_digit_by_digit(
    s: &str,
    longer: &str,
    signed: &str,
    read: Option<u64>,
    more: Option<u64>,
    same: Option<u64>,
    c: char,
)
    requires
        call_ensures(parse_number, (s,), read),
        call_ensures(parse_number, (longer,), more),
        call_ensures(parse_number, (signed,), same),
        longer@ == s@.push(c),
        signed@ == seq!['+'] + s@,
        s@.len() == 0 || s@[0] != '+',
    ensures
        s@.len() == 0 ==> read is None,
        same == read,
        !('0' <= c <= '9') && !(s@.len() == 0 && c == '+') ==> more is None,
        '0' <= c <= '9' && s@.len() == 0 ==> more == Some((c as u32 - 48) as u64),
        '0' <= c <= '9' && read is Some ==> more == (if read->Some_0 * 10 + (c as u32 - 48)
            <= u64::MAX {
            Some((read->Some_0 * 10 + (c as u32 - 48)) as u64)
        } else {
            None
        }),
        s@.len() > 0 && read is None ==> more is None,
{
    let t = longer@;
    assert(signed@.skip(1) =~= s@);
    assert(t.drop_last() =~= s@);
    assert(t.last() == c);
    reveal_with_fuel(decimal_value, 2);
    if '0' <= c <= '9' {
        assert(t[0] != '+');
        if all_digits(s@) {
            assert forall|i: int| 0 <= i < t.len() implies is_digit(#[trigger] t[i]) by {
                if i < s@.len() {
                    assert(is_digit(s@[i]));
                }
            }
        }
        if all_digits(t) {
            assert forall|i: int| 0 <= i < s@.len() implies is_digit(#[trigger] s@[i]) by {
                assert(is_digit(t[i]));
            }
        }
    } else {
        let d = if t.len() > 0 && t[0] == '+' {
            t.skip(1)
        } else {
            t
        };
        if d.len() > 0 {
            assert(d[d.len() - 1] == c);
            assert(!is_digit(d[d.len() - 1]));
        }
    }
}

/// The control characters are the first 32, and the 33 from DEL on.
pub proof fn lemma_control_characters(c: char, r: bool)
    requires
        call_ensures(is_control, (c,), r),
    ensures
        r == spec_is_control(c),
        r <==> {
            let n = c as u32;
            ||| n < 0x20
            ||| 0x7f <= n < 0xa0
        },
{
}

} // verus!
