use vstd::prelude::*;
use vstd::string::StringExecFns;

verus! {

/// The character that stands for a digit below ten.
pub open spec fn digit_char(d: nat) -> char
    recommends
        d < 10,
{
    if d == 0 {
        '0'
    } else if d == 1 {
        '1'
    } else if d == 2 {
        '2'
    } else if d == 3 {
        '3'
    } else if d == 4 {
        '4'
    } else if d == 5 {
        '5'
    } else if d == 6 {
        '6'
    } else if d == 7 {
        '7'
    } else if d == 8 {
        '8'
    } else {
        '9'
    }
}

/// The decimal numeral of a natural number, without leading zeros.
pub open spec fn decimal(n: nat) -> Seq<char>
    decreases n,
{
    if n < 10 {
        seq![digit_char(n)]
    } else {
        decimal(n / 10).push(digit_char(n % 10))
    }
}

/// The decimal numeral of an integer: a minus sign before the numeral of a
/// negative number's magnitude.
pub open spec fn signed_decimal(n: int) -> Seq<char> {
    if n < 0 {
        seq!['-'] + decimal((-n) as nat)
    } else {
        decimal(n as nat)
    }
}

fn digit_text(d: u64) -> (text: &'static str)
    requires
        d < 10,
    ensures
        text@ == seq![digit_char(d as nat)],
{
    proof {
        reveal_strlit("0");
        reveal_strlit("1");
        reveal_strlit("2");
        reveal_strlit("3");
        reveal_strlit("4");
        reveal_strlit("5");
        reveal_strlit("6");
        reveal_strlit("7");
        reveal_strlit("8");
        reveal_strlit("9");
    }
    let text = if d == 0 {
        "0"
    } else if d == 1 {
        "1"
    } else if d == 2 {
        "2"
    } else if d == 3 {
        "3"
    } else if d == 4 {
        "4"
    } else if d == 5 {
        "5"
    } else if d == 6 {
        "6"
    } else if d == 7 {
        "7"
    } else if d == 8 {
        "8"
    } else {
        "9"
    };
    assert(text@ =~= seq![digit_char(d as nat)]);
    text
}

/// Writes a number as its decimal numeral.
pub fn render_u64(n: u64) -> (text: String)
    ensures
        text@ == decimal(n as nat),
    decreases n,
{
    if n < 10 {
        String::from_str(digit_text(n))
    } else {
        let mut text = render_u64(n / 10);
        text.append(digit_text(n % 10));
        assert(text@ =~= decimal(n as nat));
        text
    }
}

/// Writes a signed number as its decimal numeral.
pub fn render_i64(n: i64) -> (text: String)
    ensures
        text@ == signed_decimal(n as int),
{
    if n < 0 {
        let magnitude: u64 = if n == i64::MIN {
            9223372036854775808u64
        } else {
            (-n) as u64
        };
        let mut text = String::from_str("-");
        proof {
            reveal_strlit("-");
        }
        let digits = render_u64(magnitude);
        text.append(digits.as_str());
        assert(text@ =~= signed_decimal(n as int));
        text
    } else {
        render_u64(n as u64)
    }
}

/// Joins two pieces of text.
pub fn join2(a: &str, b: &str) -> (text: String)
    ensures
        text@ == a@ + b@,
{
    let mut text = String::from_str(a);
    text.append(b);
    text
}

/// Whether a character is one of the ten decimal digits.
pub open spec fn is_digit(c: char) -> bool {
    '0' <= c <= '9'
}

/// The number that a run of decimal digits stands for.
pub open spec fn digits_value(s: Seq<char>) -> nat
    decreases s.len(),
{
    if s.len() == 0 {
        0
    } else {
        digits_value(s.drop_last()) * 10 + ((s.last() as u32 - '0' as u32) as nat)
    }
}

/// Whether every character of a text is a decimal digit.
pub open spec fn all_digits(s: Seq<char>) -> bool {
    forall|i: int| 0 <= i < s.len() ==> is_digit(#[trigger] s[i])
}

/// Whether a text starts with `+` or `-`.
pub open spec fn has_sign(s: Seq<char>) -> bool {
    s.len() > 0 && (s[0] == '+' || s[0] == '-')
}

/// A text without its sign.
pub open spec fn unsigned_part(s: Seq<char>) -> Seq<char> {
    if has_sign(s) {
        s.subrange(1, s.len() as int)
    } else {
        s
    }
}

/// The integer that a text stands for: an optional `+` or `-`, then one or
/// more decimal digits and nothing else, within the range of `i64`.
pub open spec fn parse_int(s: Seq<char>) -> Option<i64> {
    let digits = unsigned_part(s);
    let value = if has_sign(s) && s[0] == '-' {
        -(digits_value(digits) as int)
    } else {
        digits_value(digits) as int
    };
    if digits.len() > 0 && all_digits(digits) && i64::MIN <= value <= i64::MAX {
        Some(value as i64)
    } else {
        None
    }
}

proof fn lemma_digits_value_grows(s: Seq<char>, k: int)
    requires
        0 <= k <= s.len(),
    ensures
        digits_value(s.subrange(0, k)) <= digits_value(s),
    decreases s.len() - k,
{
    if k == s.len() {
        assert(s.subrange(0, k) =~= s);
    } else {
        lemma_digits_value_grows(s, k + 1);
        assert(s.subrange(0, k + 1).drop_last() =~= s.subrange(0, k));
    }
}

proof fn lemma_parse_int_rejects(s: Seq<char>, k: int)
    requires
        0 <= k < s.len(),
        !is_digit(s[k]),
        k > 0 || (s[0] != '+' && s[0] != '-'),
    ensures
        parse_int(s) is None,
{
    let digits = unsigned_part(s);
    if has_sign(s) {
        assert(digits[k - 1] == s[k]);
        assert(!is_digit(digits[k - 1]));
    } else {
        assert(!is_digit(digits[k]));
    }
}

/// Reads a decimal integer.
pub fn parse_i64(s: &str) -> (n: Option<i64>)
    ensures
        n == parse_int(s@),
{
    let len = s.unicode_len();
    if len == 0 {
        return None;
    }
    if !s.is_ascii() {
        proof {
            let k = choose|k: int| 0 <= k < s@.len() && !('\0' <= #[trigger] s@[k] <= '\u{7f}');
            lemma_parse_int_rejects(s@, k);
        }
        return None;
    }
    let first = s.get_ascii(0);
    let signed = first == 43u8 || first == 45u8;
    let negative = first == 45u8;
    let start: usize = if signed { 1 } else { 0 };
    assert('\0' <= s@[0] <= '\u{7f}');
    assert(signed == (s@[0] == '+' || s@[0] == '-'));
    assert(negative == (s@[0] == '-'));
    let ghost digits = s@.subrange(start as int, len as int);
    assert(has_sign(s@) == signed);
    assert(digits =~= unsigned_part(s@));
    if start == len {
        return None;
    }
    let mut acc: u64 = 0;
    let mut i: usize = start;
    let limit: u64 = 9223372036854775808u64;
    while i < len
        invariant
            start <= i <= len,
            start == 0 || start == 1,
            start == 1 <==> (s@[0] == '+' || s@[0] == '-'),
            len == s@.len(),
            s.is_ascii(),
            digits == s@.subrange(start as int, len as int),
            digits == unsigned_part(s@),
            acc == digits_value(digits.subrange(0, i - start)),
            acc <= limit,
            limit == 9223372036854775808u64,
            forall|j: int| 0 <= j < i - start ==> is_digit(#[trigger] digits[j]),
        ensures
            i == len,
        decreases len - i,
    {
        let b = s.get_ascii(i);
        assert(digits[i - start] == s@[i as int]);
        assert('\0' <= s@[i as int] <= '\u{7f}');
        if b < 48u8 || b > 57u8 {
            proof {
                lemma_parse_int_rejects(s@, i as int);
            }
            return None;
        }
        let d: u64 = (b - 48u8) as u64;
        assert(is_digit(digits[i - start]));
        proof {
            assert(digits.subrange(0, i + 1 - start).drop_last() =~= digits.subrange(0, i - start));
            assert(digits.subrange(0, i + 1 - start).last() == digits[i - start]);
            assert(digits_value(digits.subrange(0, i + 1 - start)) == acc * 10 + d);
        }
        if acc > 922337203685477580u64 || acc * 10 + d > limit {
            proof {
                lemma_digits_value_grows(digits, i + 1 - start);
            }
            return None;
        }
        acc = acc * 10 + d;
        i += 1;
    }
    assert(digits.subrange(0, len - start) =~= digits);
    assert(all_digits(digits));
    if negative {
        if acc == limit {
            Some(i64::MIN)
        } else {
            Some(-(acc as i64))
        }
    } else {
        if acc == limit {
            None
        } else {
            Some(acc as i64)
        }
    }
}

/// A text with its line endings normalized: every carriage return that a
/// line feed follows is gone, and so is the line ending at the very end of
/// the text.
pub open spec fn normalized(s: Seq<char>) -> Seq<char>
    decreases s.len(),
{
    if s.len() == 0 {
        s
    } else if s.len() == 1 && s[0] == '\n' {
        Seq::empty()
    } else if s.len() == 2 && s[0] == '\r' && s[1] == '\n' {
        Seq::empty()
    } else if s.len() >= 2 && s[0] == '\r' && s[1] == '\n' {
        seq!['\n'] + normalized(s.subrange(2, s.len() as int))
    } else {
        seq![s[0]] + normalized(s.subrange(1, s.len() as int))
    }
}

/// `String::push`: the character is added at the end of the text.
#[verifier::external_body]
fn push_char(text: &mut String, c: char)
    ensures
        final(text)@ == old(text)@.push(c),
{
    text.push(c)
}

/// The text made of the characters of a vector, in order.
pub fn text_of_chars(chars: &Vec<char>) -> (text: String)
    ensures
        text@ == chars@,
{
    let mut text = String::new();
    let mut i: usize = 0;
    while i < chars.len()
        invariant
            i <= chars.len(),
            text@ == chars@.subrange(0, i as int),
        decreases chars.len() - i,
    {
        push_char(&mut text, chars[i]);
        i += 1;
        assert(text@ =~= chars@.subrange(0, i as int));
    }
    assert(chars@.subrange(0, i as int) =~= chars@);
    text
}

/// The characters of a text.
pub fn chars_of(s: &str) -> (chars: Vec<char>)
    ensures
        chars@ == s@,
{
    let mut chars: Vec<char> = Vec::new();
    let n = s.unicode_len();
    let mut i: usize = 0;
    while i < n
        invariant
            i <= n,
            n == s@.len(),
            chars@ == s@.subrange(0, i as int),
        decreases n - i,
    {
        chars.push(s.get_char(i));
        i += 1;
        assert(chars@ =~= s@.subrange(0, i as int));
    }
    assert(s@.subrange(0, n as int) =~= s@);
    chars
}

/// Normalizes the line endings of a text: lines that end in a carriage
/// return and a line feed end in a line feed, and the line ending at the
/// end of the text is dropped.
pub fn normalize_string(s: String) -> (text: String)
    ensures
        text@ == normalized(s@),
{
    let chars = chars_of(s.as_str());
    let n = chars.len();
    let mut out: Vec<char> = Vec::new();
    let mut i: usize = 0;
    proof {
        assert(chars@.subrange(0, n as int) =~= chars@);
        assert(out@ + normalized(chars@.subrange(0, n as int)) =~= normalized(chars@));
    }
    while i < n
        invariant
            i <= n,
            n == chars@.len(),
            out@ + normalized(chars@.subrange(i as int, n as int)) == normalized(chars@),
        decreases n - i,
    {
        let ghost rest = chars@.subrange(i as int, n as int);
        assert(rest[0] == chars@[i as int]);
        if chars[i] == '\n' && i + 1 == n {
            assert(rest.len() == 1);
            i += 1;
            proof {
                assert(chars@.subrange(i as int, n as int) =~= Seq::<char>::empty());
                assert(out@ + Seq::<char>::empty() =~= out@);
            }
        } else if chars[i] == '\r' && i + 1 < n && chars[i + 1] == '\n' {
            assert(rest[1] == chars@[i + 1]);
            if i + 2 == n {
                assert(rest.len() == 2);
                i += 2;
                proof {
                    assert(chars@.subrange(i as int, n as int) =~= Seq::<char>::empty());
                    assert(out@ + Seq::<char>::empty() =~= out@);
                }
            } else {
                proof {
                    assert(rest.subrange(2, rest.len() as int) =~= chars@.subrange(i + 2, n as int));
                    assert(out@.push('\n') + normalized(chars@.subrange(i + 2, n as int)) =~= out@
                        + normalized(rest));
                }
                out.push('\n');
                i += 2;
            }
        } else {
            proof {
                assert(rest.subrange(1, rest.len() as int) =~= chars@.subrange(i + 1, n as int));
                if rest.len() >= 2 && rest[0] == '\r' {
                    assert(rest[1] == chars@[i + 1]);
                }
                assert(out@.push(chars@[i as int]) + normalized(chars@.subrange(i + 1, n as int))
                    =~= out@ + normalized(rest));
            }
            out.push(chars[i]);
            i += 1;
        }
    }
    proof {
        assert(chars@.subrange(n as int, n as int) =~= Seq::<char>::empty());
        assert(out@ + Seq::<char>::empty() =~= out@);
    }
    text_of_chars(&out)
}

} // verus!
