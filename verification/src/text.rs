//! Characters, decimal numbers and whitespace-separated words.

use vstd::prelude::*;

verus! {

/// `String::push` appends one character to the end of the string.
pub assume_specification[ String::push ](s: &mut String, c: char)
    ensures
        final(s)@ == old(s)@.push(c),
;

/// The characters that count as whitespace: the Unicode `White_Space` set.
pub open spec fn is_space(c: char) -> bool {
    let n = c as int;
    ||| 0x09 <= n <= 0x0D
    ||| n == 0x20
    ||| n == 0x85
    ||| n == 0xA0
    ||| n == 0x1680
    ||| 0x2000 <= n <= 0x200A
    ||| n == 0x2028
    ||| n == 0x2029
    ||| n == 0x202F
    ||| n == 0x205F
    ||| n == 0x3000
}

/// Tells whether `c` is whitespace.
pub fn is_whitespace(c: char) -> (r: bool)
    ensures
        r == is_space(c),
{
    (c >= '\u{9}' && c <= '\u{d}') || c == ' ' || c == '\u{85}' || c == '\u{a0}' || c == '\u{1680}'
        || (c >= '\u{2000}' && c <= '\u{200a}') || c == '\u{2028}' || c == '\u{2029}' || c
        == '\u{202f}' || c == '\u{205f}' || c == '\u{3000}'
}

/// Whether `c` is one of the ten decimal digits.
pub open spec fn is_digit(c: char) -> bool {
    48 <= c as int <= 57
}

/// The value of a decimal digit.
pub open spec fn digit_value(c: char) -> int {
    c as int - 48
}

/// The digit that stands for `d`, for `0 <= d <= 9`.
pub open spec fn digit_char(d: int) -> char {
    (d + 48) as char
}

/// Whether every character of `s` is a decimal digit.
pub open spec fn all_digits(s: Seq<char>) -> bool {
    forall|i: int| 0 <= i < s.len() ==> is_digit(#[trigger] s[i])
}

/// The number that a run of decimal digits denotes.
pub open spec fn decimal_value(s: Seq<char>) -> int
    decreases s.len(),
{
    if s.len() == 0 {
        0
    } else {
        10 * decimal_value(s.drop_last()) + digit_value(s.last())
    }
}

/// Whether `s` starts with a sign.
pub open spec fn has_sign(s: Seq<char>) -> bool {
    s.len() > 0 && (s[0] == '-' || s[0] == '+')
}

/// The part of `s` after its sign, if it has one.
pub open spec fn unsigned_part(s: Seq<char>) -> Seq<char> {
    if has_sign(s) {
        s.subrange(1, s.len() as int)
    } else {
        s
    }
}

/// The mathematical value of a signed decimal numeral.
pub open spec fn signed_value(s: Seq<char>) -> int {
    if s.len() > 0 && s[0] == '-' {
        -decimal_value(unsigned_part(s))
    } else {
        decimal_value(unsigned_part(s))
    }
}

/// The integer that `s` denotes: an optional `+` or `-`, then one or more
/// decimal digits, whose value fits in 32 bits. Anything else denotes nothing.
pub open spec fn parse_int_spec(s: Seq<char>) -> Option<i32> {
    let digits = unsigned_part(s);
    let v = signed_value(s);
    if digits.len() > 0 && all_digits(digits) && i32::MIN <= v <= i32::MAX {
        Some(v as i32)
    } else {
        None
    }
}

/// The decimal digits of a natural number, most significant first.
pub open spec fn nat_text(n: nat) -> Seq<char>
    decreases n,
{
    if n < 10 {
        seq![digit_char(n as int)]
    } else {
        nat_text(n / 10).push(digit_char((n % 10) as int))
    }
}

/// The decimal text of an integer, with a leading `-` when it is negative.
pub open spec fn int_text(n: int) -> Seq<char> {
    if n < 0 {
        seq!['-'] + nat_text((-n) as nat)
    } else {
        nat_text(n as nat)
    }
}

/// The words of `s` that are complete, and the word still being read, after
/// all of `s` has been scanned.
pub open spec fn split_state(s: Seq<char>) -> (Seq<Seq<char>>, Seq<char>)
    decreases s.len(),
{
    if s.len() == 0 {
        (Seq::empty(), Seq::empty())
    } else {
        let (done, cur) = split_state(s.drop_last());
        let c = s.last();
        if is_space(c) {
            if cur.len() > 0 {
                (done.push(cur), Seq::empty())
            } else {
                (done, cur)
            }
        } else {
            (done, cur.push(c))
        }
    }
}

/// The maximal runs of non-whitespace characters of `s`, in order.
pub open spec fn split_words(s: Seq<char>) -> Seq<Seq<char>> {
    let (done, cur) = split_state(s);
    if cur.len() > 0 {
        done.push(cur)
    } else {
        done
    }
}

/// Whether every word in `words` denotes an integer.
pub open spec fn all_numbers(words: Seq<Seq<char>>) -> bool {
    forall|i: int| 0 <= i < words.len() ==> parse_int_spec(#[trigger] words[i]) is Some
}

/// The integers that the words of `s` denote, if all of them denote one.
pub open spec fn number_list_spec(s: Seq<char>) -> Option<Seq<i32>> {
    let words = split_words(s);
    if all_numbers(words) {
        Some(Seq::new(words.len(), |i: int| parse_int_spec(words[i]).unwrap()))
    } else {
        None
    }
}

fn digit_of(c: char) -> (r: Option<u8>)
    ensures
        r is Some <==> is_digit(c),
        r matches Some(d) ==> d == digit_value(c),
{
    match c {
        '0' => Some(0),
        '1' => Some(1),
        '2' => Some(2),
        '3' => Some(3),
        '4' => Some(4),
        '5' => Some(5),
        '6' => Some(6),
        '7' => Some(7),
        '8' => Some(8),
        '9' => Some(9),
        _ => None,
    }
}

fn char_of_digit(d: u32) -> (c: char)
    requires
        d < 10,
    ensures
        c == digit_char(d as int),
{
    match d {
        0 => '0',
        1 => '1',
        2 => '2',
        3 => '3',
        4 => '4',
        5 => '5',
        6 => '6',
        7 => '7',
        8 => '8',
        _ => '9',
    }
}

proof fn lemma_decimal_push(s: Seq<char>, c: char)
    ensures
        decimal_value(s.push(c)) == 10 * decimal_value(s) + digit_value(c),
{
    assert(s.push(c).drop_last() =~= s);
}

proof fn lemma_decimal_nonnegative(s: Seq<char>)
    requires
        all_digits(s),
    ensures
        decimal_value(s) >= 0,
    decreases s.len(),
{
    if s.len() > 0 {
        lemma_decimal_nonnegative(s.drop_last());
    }
}

/// The decimal digits of a natural number are digits, at least one, and
/// denote the number.
pub proof fn lemma_nat_text_value(n: nat)
    ensures
        nat_text(n).len() > 0,
        all_digits(nat_text(n)),
        decimal_value(nat_text(n)) == n,
    decreases n,
{
    if n < 10 {
        assert(nat_text(n) =~= Seq::<char>::empty().push(digit_char(n as int)));
        lemma_decimal_push(Seq::<char>::empty(), digit_char(n as int));
    } else {
        lemma_nat_text_value(n / 10);
        lemma_decimal_push(nat_text(n / 10), digit_char((n % 10) as int));
    }
}

/// A number that is written out reads back as itself.
pub proof fn lemma_int_text_parses(n: i32)
    ensures
        parse_int_spec(int_text(n as int)) == Some(n),
{
    let s = int_text(n as int);
    if n < 0 {
        let m = (-n) as nat;
        lemma_nat_text_value(m);
        assert(s[0] == '-');
        assert(unsigned_part(s) =~= nat_text(m));
    } else {
        lemma_nat_text_value(n as nat);
        assert(is_digit(s[0]));
        assert(unsigned_part(s) == s);
    }
}

/// Reads a signed decimal integer.
pub fn parse_int(s: &str) -> (r: Option<i32>)
    ensures
        r == parse_int_spec(s@),
{
    let mut acc: i64 = 0;
    let mut first = true;
    let mut signed = false;
    let mut negative = false;
    let mut any = false;
    let mut big = false;
    for c in it: s.chars()
        invariant
            it.seq() == s@,
            first == (it.index() == 0),
            signed == has_sign(s@.take(it.index() as int)),
            negative == (it.index() > 0 && s@[0] == '-'),
            any == (unsigned_part(s@.take(it.index() as int)).len() > 0),
            all_digits(unsigned_part(s@.take(it.index() as int))),
            !big ==> acc == decimal_value(unsigned_part(s@.take(it.index() as int))),
            0 <= acc <= 0x8000_0000,
            big ==> decimal_value(unsigned_part(s@.take(it.index() as int))) > 0x8000_0000,
    {
        let ghost k = it.index() as int;
        let ghost before = s@.take(k);
        let ghost after = s@.take(k + 1);
        assert(after =~= before.push(c));
        if first && (c == '-' || c == '+') {
            signed = true;
            negative = c == '-';
            assert(unsigned_part(after) =~= Seq::<char>::empty());
        } else {
            assert(has_sign(after) == has_sign(before));
            assert(unsigned_part(after) =~= unsigned_part(before).push(c));
            proof {
                lemma_decimal_push(unsigned_part(before), c);
                lemma_decimal_nonnegative(unsigned_part(before));
            }
            match digit_of(c) {
                Some(d) => {
                    any = true;
                    if !big {
                        acc = acc * 10 + d as i64;
                        if acc > 0x8000_0000 {
                            big = true;
                            acc = 0;
                        }
                    }
                },
                None => {
                    proof {
                        let digits = unsigned_part(s@);
                        let j = unsigned_part(after).len() - 1;
                        assert(unsigned_part(after)[j] == c);
                        assert(digits[j] == c);
                    }
                    return None;
                },
            }
        }
        first = false;
    }
    assert(s@.take(s@.len() as int) =~= s@);
    if !any || big {
        return None;
    }
    let v: i64 = if negative { -acc } else { acc };
    if v > 0x7fff_ffff {
        None
    } else {
        Some(v as i32)
    }
}

fn push_nat(s: &mut String, n: u32)
    ensures
        final(s)@ == old(s)@ + nat_text(n as nat),
    decreases n,
{
    if n >= 10 {
        push_nat(s, n / 10);
    }
    s.push(char_of_digit(n % 10));
    assert(final(s)@ =~= old(s)@ + nat_text(n as nat));
}

/// Appends the decimal text of `n` to `s`.
pub fn push_int(s: &mut String, n: i32)
    ensures
        final(s)@ == old(s)@ + int_text(n as int),
{
    if n < 0 {
        s.push('-');
        let m: u32 = (-(n as i64)) as u32;
        push_nat(s, m);
        assert(final(s)@ =~= old(s)@ + int_text(n as int));
    } else {
        push_nat(s, n as u32);
    }
}

/// The decimal text of `n`.
pub fn int_to_string(n: i32) -> (s: String)
    ensures
        s@ == int_text(n as int),
{
    let mut s = String::new();
    push_int(&mut s, n);
    assert(s@ =~= int_text(n as int));
    s
}

/// Appends the characters of `tail` to `s`.
pub fn push_text(s: &mut String, tail: &str)
    ensures
        final(s)@ == old(s)@ + tail@,
{
    s.append(tail);
}

/// Whether `a` and `b` hold the same characters.
pub fn same_text(a: &String, b: &str) -> (r: bool)
    ensures
        r == (a@ == b@),
{
    *a == String::from_str(b)
}

/// Reads a list of integers separated by whitespace. Returns `None` when a
/// word of `s` is not an integer.
pub fn parse_number_list(s: &str) -> (r: Option<Vec<i32>>)
    ensures
        match r {
            Some(v) => number_list_spec(s@) == Some(v@),
            None => number_list_spec(s@) is None,
        },
{
    let mut values: Vec<i32> = Vec::new();
    let mut word = String::new();
    let mut failed = false;
    for c in it: s.chars()
        invariant
            it.seq() == s@,
            word@ == split_state(s@.take(it.index() as int)).1,
            failed == !all_numbers(split_state(s@.take(it.index() as int)).0),
            !failed ==> values@.len() == split_state(s@.take(it.index() as int)).0.len(),
            !failed ==> forall|i: int|
                0 <= i < values@.len() ==> Some(#[trigger] values@[i]) == parse_int_spec(
                    split_state(s@.take(it.index() as int)).0[i],
                ),
    {
        let ghost k = it.index() as int;
        let ghost done = split_state(s@.take(k)).0;
        assert(s@.take(k + 1).drop_last() =~= s@.take(k));
        if is_whitespace(c) {
            if !word.as_str().is_empty() {
                proof {
                    if !all_numbers(done) {
                        let i = choose|i: int| 0 <= i < done.len() && !(parse_int_spec(#[trigger] done[i]) is Some);
                        assert(done.push(word@)[i] == done[i]);
                    }
                }
                match parse_int(word.as_str()) {
                    Some(v) => {
                        if !failed {
                            values.push(v);
                        }
                    },
                    None => {
                        failed = true;
                        assert(done.push(word@)[done.len() as int] == word@);
                    },
                }
                word = String::new();
            }
        } else {
            word.push(c);
        }
    }
    assert(s@.take(s@.len() as int) =~= s@);
    let ghost done = split_state(s@).0;
    if !word.as_str().is_empty() {
        proof {
            if !all_numbers(done) {
                let i = choose|i: int| 0 <= i < done.len() && !(parse_int_spec(#[trigger] done[i]) is Some);
                assert(done.push(word@)[i] == done[i]);
            }
        }
        match parse_int(word.as_str()) {
            Some(v) => {
                if !failed {
                    values.push(v);
                }
            },
            None => {
                failed = true;
                assert(done.push(word@)[done.len() as int] == word@);
            },
        }
    }
    if failed {
        None
    } else {
        assert(values@ =~= number_list_spec(s@).unwrap());
        Some(values)
    }
}

} // verus!
