//! Building the text the panels show.

use vstd::arithmetic::power2::{lemma2_to64, lemma_pow2_unfold, pow2};
use vstd::prelude::*;

verus! {

/// The character of one decimal digit.
pub open spec fn digit(d: int) -> char {
    if d == 0 {
        '0'
    } else if d == 1 {
        '1'
    } else if d == 2 {
        '2'
    } else if d == 3 {
        '3'
    } else if d == 4 {
        '4'
    } else if d == 5 {
        '5'
    } else if d == 6 {
        '6'
    } else if d == 7 {
        '7'
    } else if d == 8 {
        '8'
    } else {
        '9'
    }
}

/// A number in decimal, with no leading zeros.
pub open spec fn decimal(n: nat) -> Seq<char>
    decreases n,
{
    if n < 10 {
        seq![digit(n as int)]
    } else {
        decimal(n / 10).push(digit((n % 10) as int))
    }
}

/// Two numbers written the same are the same number.
pub proof fn lemma_decimal_is_injective(a: nat, b: nat)
    requires
        decimal(a) == decimal(b),
    ensures
        a == b,
    decreases a,
{
    lemma_decimal_is_not_empty(a);
    lemma_decimal_is_not_empty(b);
    let (s, t) = (decimal(a), decimal(b));
    assert(s.last() == t.last());
    if a >= 10 && b >= 10 {
        assert(s.drop_last() =~= decimal(a / 10));
        assert(t.drop_last() =~= decimal(b / 10));
        lemma_decimal_is_injective(a / 10, b / 10);
    } else if a >= 10 {
        lemma_decimal_is_not_empty(a / 10);
    } else if b >= 10 {
        lemma_decimal_is_not_empty(b / 10);
    }
}

/// A number takes at least one digit, and its last one is its remainder by ten.
pub proof fn lemma_decimal_is_not_empty(n: nat)
    ensures
        decimal(n).len() > 0,
        decimal(n).last() == digit((n % 10) as int),
    decreases n,
{
    if n >= 10 {
        lemma_decimal_is_not_empty(n / 10);
    }
}

/// One digit as text.
fn digit_text(d: u8) -> (text: &'static str)
    requires
        d < 10,
    ensures
        text@ == seq![digit(d as int)],
{
    proof {
        reveal_strlit("0");
        reveal_strlit("1");
        reveal_strlit("2");
        reveal_strlit("3");
        reveal_strlit("4");
        reveal_strlit("5");
        reveal_strlit("6");
        reveal_strlit("7");
        reveal_strlit("8");
        reveal_strlit("9");
    }
    let text = match d {
        0 => "0",
        1 => "1",
        2 => "2",
        3 => "3",
        4 => "4",
        5 => "5",
        6 => "6",
        7 => "7",
        8 => "8",
        _ => "9",
    };
    assert(text@ =~= seq![digit(d as int)]);
    text
}

/// A number as decimal text.
pub fn decimal_text(n: u64) -> (text: String)
    ensures
        text@ == decimal(n as nat),
    decreases n,
{
    if n < 10 {
        digit_text(n as u8).to_owned()
    } else {
        let mut text = decimal_text(n / 10);
        text.append(digit_text((n % 10) as u8));
        assert(text@ =~= decimal(n as nat));
        text
    }
}

/// A number in decimal, with a zero in front where one digit would do.
pub open spec fn padded(n: nat) -> Seq<char> {
    if n < 10 {
        seq!['0', digit(n as int)]
    } else {
        decimal(n)
    }
}

/// A number as decimal text of at least two digits.
pub fn padded_text(n: u64) -> (text: String)
    ensures
        text@ == padded(n as nat),
{
    if n < 10 {
        let mut text = digit_text(0).to_owned();
        text.append(digit_text(n as u8));
        assert(text@ =~= padded(n as nat));
        text
    } else {
        decimal_text(n)
    }
}

/// The number that a list of digits writes, least significant first.
pub open spec fn value_of(digits: Seq<u8>) -> nat
    decreases digits.len(),
{
    if digits.len() == 0 {
        0
    } else {
        digits[0] as nat + 10 * value_of(digits.drop_first())
    }
}

/// Whether every entry is a digit and the most significant one is not zero.
pub open spec fn is_numeral(digits: Seq<u8>) -> bool {
    &&& forall|i: int| 0 <= i < digits.len() ==> #[trigger] digits[i] < 10
    &&& digits.len() > 0 ==> digits.last() > 0
}

/// Twice the number that `digits` writes.
fn doubled(digits: &Vec<u8>) -> (twice: Vec<u8>)
    requires
        is_numeral(digits@),
    ensures
        is_numeral(twice@),
        value_of(twice@) == 2 * value_of(digits@),
{
    let mut twice: Vec<u8> = Vec::new();
    let mut carry: u8 = 0;
    let mut i: usize = 0;
    proof {
        assert(digits@.subrange(0, 0) =~= Seq::empty());
    }
    while i < digits.len()
        invariant
            i <= digits.len(),
            carry <= 1,
            is_numeral(digits@),
            twice.len() == i,
            forall|k: int| 0 <= k < twice.len() ==> #[trigger] twice@[k] < 10,
            value_of(twice@) + carry * scale(i as nat) == 2 * value_of(digits@.subrange(0, i as int)),
            i > 0 ==> twice@[i - 1] == (2 * digits@[i - 1]) % 10 || twice@[i - 1] == (2 * digits@[i - 1]) % 10 + 1,
            i > 0 ==> (carry == 1) == (digits@[i - 1] >= 5),
        decreases digits.len() - i,
    {
        let sum: u8 = 2 * digits[i] + carry;
        let ghost before = twice@;
        proof {
            let shorter = digits@.subrange(0, i as int);
            assert(digits@.subrange(0, i + 1) =~= shorter.push(digits@[i as int]));
            lemma_value_of_push(shorter, digits@[i as int]);
            lemma_value_of_push(before, (sum % 10) as u8);
            let place = scale(i as nat);
            let d = digits@[i as int] as int;
            let (low, high) = ((sum % 10) as int, (sum / 10) as int);
            assert(low + 10 * high == 2 * d + carry);
            assert(low * place + high * (10 * place) == 2 * (d * place) + carry * place) by (nonlinear_arith)
                requires
                    low + 10 * high == 2 * d + carry,
            ;
        }
        twice.push(sum % 10);
        carry = sum / 10;
        i = i + 1;
    }
    proof {
        assert(digits@.subrange(0, i as int) =~= digits@);
    }
    if carry > 0 {
        proof {
            lemma_value_of_push(twice@, carry);
        }
        twice.push(carry);
    }
    twice
}

/// What a digit at this place counts for.
pub open spec fn scale(place: nat) -> nat
    decreases place,
{
    if place == 0 {
        1
    } else {
        10 * scale((place - 1) as nat)
    }
}

/// One more digit on top of a list.
proof fn lemma_value_of_push(digits: Seq<u8>, d: u8)
    ensures
        value_of(digits.push(d)) == value_of(digits) + d * scale(digits.len()),
    decreases digits.len(),
{
    let more = digits.push(d);
    if digits.len() == 0 {
        assert(more.drop_first() =~= Seq::empty());
        assert(value_of(more.drop_first()) == 0);
        assert(value_of(digits) == 0);
        assert(scale(0) == 1);
    } else {
        assert(more.drop_first() =~= digits.drop_first().push(d));
        lemma_value_of_push(digits.drop_first(), d);
        let s = scale((digits.len() - 1) as nat);
        assert(digits.drop_first().len() == digits.len() - 1);
        assert(scale(digits.len()) == 10 * s);
        assert(10 * (d * s) == d * (10 * s)) by (nonlinear_arith);
        assert(more[0] == digits[0]);
        assert(value_of(more) == more[0] + 10 * value_of(more.drop_first()));
        assert(value_of(digits) == digits[0] + 10 * value_of(digits.drop_first()));
    }
}

/// A list of digits, most significant first, as characters.
pub open spec fn numeral_chars(digits: Seq<u8>) -> Seq<char>
    decreases digits.len(),
{
    if digits.len() == 0 {
        Seq::empty()
    } else {
        numeral_chars(digits.drop_first()).push(digit(digits[0] as int))
    }
}

/// A list of digits without a leading zero is the decimal of its number.
proof fn lemma_numeral_is_decimal(digits: Seq<u8>)
    requires
        is_numeral(digits),
        digits.len() > 0,
    ensures
        numeral_chars(digits) == decimal(value_of(digits)),
        value_of(digits) > 0,
    decreases digits.len(),
{
    let rest = digits.drop_first();
    let n = value_of(digits);
    assert forall|i: int| 0 <= i < rest.len() implies #[trigger] rest[i] < 10 by {
        assert(rest[i] == digits[i + 1]);
    }
    if digits.len() == 1 {
        assert(rest =~= Seq::empty());
        assert(value_of(rest) == 0 && numeral_chars(rest) =~= Seq::empty());
        assert(numeral_chars(digits) =~= decimal(n));
    } else {
        assert(rest.last() == digits.last());
        lemma_numeral_is_decimal(rest);
        assert(n / 10 == value_of(rest));
        assert(n % 10 == digits[0] as nat);
    }
}

/// Two to the power `exponent`, in decimal.
pub fn power_of_two_text(exponent: u32) -> (text: String)
    ensures
        text@ == decimal(pow2(exponent as nat)),
{
    proof {
        lemma2_to64();
    }
    let mut digits: Vec<u8> = vec![1u8];
    let mut k: u32 = 0;
    proof {
        assert(digits@.drop_first() =~= Seq::empty());
        assert(value_of(digits@) == 1) by {
            reveal_with_fuel(value_of, 3);
        }
    }
    while k < exponent
        invariant
            k <= exponent,
            is_numeral(digits@),
            value_of(digits@) == pow2(k as nat),
            value_of(digits@) > 0,
        decreases exponent - k,
    {
        digits = doubled(&digits);
        k = k + 1;
        proof {
            lemma_pow2_unfold(k as nat);
        }
    }
    let mut text = String::new();
    let mut i: usize = digits.len();
    proof {
        assert(digits@.subrange(i as int, digits.len() as int) =~= Seq::empty());
    }
    while i > 0
        invariant
            i <= digits.len(),
            is_numeral(digits@),
            text@ == numeral_chars(digits@.subrange(i as int, digits.len() as int)),
        decreases i,
    {
        i = i - 1;
        text.append(digit_text(digits[i]));
        proof {
            let tail = digits@.subrange(i as int, digits.len() as int);
            assert(tail.drop_first() =~= digits@.subrange(i + 1, digits.len() as int));
            assert(text@ =~= numeral_chars(tail));
        }
    }
    proof {
        assert(digits@.subrange(0, digits.len() as int) =~= digits@);
        lemma_numeral_is_decimal(digits@);
    }
    text
}

/// Whether a character is white space.
pub open spec fn is_space(c: char) -> bool {
    let n = c as u32;
    ||| 0x09 <= n <= 0x0d
    ||| n == 0x20
    ||| n == 0x85
    ||| n == 0xa0
    ||| n == 0x1680
    ||| 0x2000 <= n <= 0x200a
    ||| n == 0x2028
    ||| n == 0x2029
    ||| n == 0x202f
    ||| n == 0x205f
    ||| n == 0x3000
}

fn space(c: char) -> (space: bool)
    ensures
        space == is_space(c),
{
    let n: u32 = c as u32;
    (0x09 <= n && n <= 0x0d) || n == 0x20 || n == 0x85 || n == 0xa0 || n == 0x1680 || (0x2000 <= n
        && n <= 0x200a) || n == 0x2028 || n == 0x2029 || n == 0x202f || n == 0x205f || n == 0x3000
}

/// A text without the white space at its ends.
pub open spec fn trimmed(text: Seq<char>) -> Seq<char>
    decreases text.len(),
{
    if text.len() == 0 {
        text
    } else if is_space(text.first()) {
        trimmed(text.drop_first())
    } else if is_space(text.last()) {
        trimmed(text.drop_last())
    } else {
        text
    }
}

/// A text without the white space at its ends.
pub fn trim(text: &String) -> (trimmed: String)
    ensures
        trimmed@ == self::trimmed(text@),
{
    let whole: &str = text.as_str();
    let mut start: usize = 0;
    let mut end: usize = whole.unicode_len();
    proof {
        assert(text@.subrange(0, text@.len() as int) =~= text@);
    }
    while start < end && space(whole.get_char(start))
        invariant
            start <= end == text@.len(),
            whole@ == text@,
            self::trimmed(text@) == self::trimmed(text@.subrange(start as int, end as int)),
        decreases end - start,
    {
        proof {
            let rest = text@.subrange(start as int, end as int);
            assert(rest.drop_first() =~= text@.subrange(start + 1, end as int));
        }
        start = start + 1;
    }
    while start < end && space(whole.get_char(end - 1))
        invariant
            start <= end <= text@.len(),
            whole@ == text@,
            start < end ==> !is_space(text@[start as int]),
            self::trimmed(text@) == self::trimmed(text@.subrange(start as int, end as int)),
        decreases end - start,
    {
        proof {
            let rest = text@.subrange(start as int, end as int);
            assert(rest.drop_last() =~= text@.subrange(start as int, end - 1));
        }
        end = end - 1;
    }
    whole.substring_char(start, end).to_owned()
}

/// The first `n` texts with a separator between them.
pub open spec fn joined(texts: Seq<Seq<char>>, separator: Seq<char>, n: nat) -> Seq<char>
    decreases n,
{
    if n == 0 {
        Seq::empty()
    } else if n == 1 {
        texts[0]
    } else {
        joined(texts, separator, (n - 1) as nat) + separator + texts[n - 1]
    }
}

/// Texts as lists of characters.
pub open spec fn texts_of(texts: Seq<String>) -> Seq<Seq<char>> {
    texts.map_values(|text: String| text@)
}

/// Texts with a separator between them.
pub fn join(texts: &Vec<String>, separator: &str) -> (whole: String)
    ensures
        whole@ == joined(texts_of(texts@), separator@, texts@.len()),
{
    let mut whole = String::new();
    let mut i: usize = 0;
    while i < texts.len()
        invariant
            i <= texts.len(),
            whole@ == joined(texts_of(texts@), separator@, i as nat),
        decreases texts.len() - i,
    {
        if i > 0 {
            whole.append(separator);
        }
        whole.append(texts[i].as_str());
        proof {
            assert(texts_of(texts@)[i as int] == texts@[i as int]@);
            if i == 0 {
                assert(whole@ =~= texts@[0]@);
            }
        }
        i = i + 1;
    }
    whole
}

/// The number a text of digits reads as.
pub open spec fn read_as(text: Seq<char>) -> int
    decreases text.len(),
{
    if text.len() == 0 {
        0
    } else {
        10 * read_as(text.drop_last()) + (text.last() as u32 - 0x30)
    }
}

/// A number that is written out reads as itself, in digits alone and without a zero in
/// front; padding it gives it two digits at least and changes nothing else.
pub proof fn a_number_written_out_reads_as_itself(n: nat)
    ensures
        read_as(decimal(n)) == n,
        read_as(padded(n)) == n,
        forall|i: int| 0 <= i < decimal(n).len() ==> 0x30 <= #[trigger] decimal(n)[i] as u32 <= 0x39,
        decimal(n).len() > 1 ==> decimal(n)[0] != '0',
        decimal(n).len() > 0,
        padded(n).len() >= 2,
        n >= 10 ==> padded(n) == decimal(n) && n > 0 && decimal(n)[0] != '0',
    decreases n,
{
    reveal_with_fuel(read_as, 3);
    let text = decimal(n);
    if n < 10 {
        assert(text.drop_last() =~= Seq::empty());
        assert(padded(n).drop_last() =~= seq!['0']);
        assert(seq!['0'].drop_last() =~= Seq::empty());
    } else {
        a_number_written_out_reads_as_itself(n / 10);
        assert(text.drop_last() =~= decimal(n / 10));
        assert(text[0] == decimal(n / 10)[0]);
        assert forall|i: int| 0 <= i < text.len() implies 0x30 <= #[trigger] text[i] as u32
            <= 0x39 by {
            if i < text.len() - 1 {
                assert(text[i] == decimal(n / 10)[i]);
            }
        }
        if n / 10 < 10 {
            assert(decimal(n / 10)[0] == digit((n / 10) as int));
        }
    }
}

/// What is trimmed off is the space at either end and nothing else.
pub proof fn only_the_space_at_the_ends_is_trimmed(text: Seq<char>) -> (ends: (int, int))
    ensures
        0 <= ends.0 <= ends.1 <= text.len(),
        trimmed(text) == text.subrange(ends.0, ends.1),
        forall|i: int| 0 <= i < ends.0 || ends.1 <= i < text.len() ==> is_space(#[trigger] text[i]),
        trimmed(text).len() > 0 ==> !is_space(trimmed(text).first()) && !is_space(
            trimmed(text).last(),
        ),
    decreases text.len(),
{
    if text.len() == 0 {
        assert(text =~= text.subrange(0, 0));
        (0, 0)
    } else if is_space(text.first()) {
        let rest = text.drop_first();
        let ends = only_the_space_at_the_ends_is_trimmed(rest);
        assert(rest.subrange(ends.0, ends.1) =~= text.subrange(ends.0 + 1, ends.1 + 1));
        assert forall|i: int|
            0 <= i < ends.0 + 1 || ends.1 + 1 <= i < text.len() implies is_space(
            #[trigger] text[i],
        ) by {
            if i > 0 {
                assert(rest[i - 1] == text[i]);
            }
        }
        (ends.0 + 1, ends.1 + 1)
    } else if is_space(text.last()) {
        let rest = text.drop_last();
        let ends = only_the_space_at_the_ends_is_trimmed(rest);
        assert(rest.subrange(ends.0, ends.1) =~= text.subrange(ends.0, ends.1));
        assert forall|i: int|
            0 <= i < ends.0 || ends.1 <= i < text.len() implies is_space(#[trigger] text[i]) by {
            if i < rest.len() {
                assert(rest[i] == text[i]);
            }
        }
        ends
    } else {
        assert(text =~= text.subrange(0, text.len() as int));
        (0, text.len() as int)
    }
}

/// What separates words anywhere is space: the tab, the ends of lines and pages, the
/// plain space, and the spaces of print.
pub proof fn what_separates_words_is_space(c: char)
    ensures
        is_space(c) <==> seq![
            0x09u32, 0x0a, 0x0b, 0x0c, 0x0d, 0x20, 0x85, 0xa0, 0x1680, 0x2000, 0x2001, 0x2002,
            0x2003, 0x2004, 0x2005, 0x2006, 0x2007, 0x2008, 0x2009, 0x200a, 0x2028, 0x2029, 0x202f,
            0x205f, 0x3000,
        ].contains(c as u32),
{
    let spaces = seq![
        0x09u32, 0x0a, 0x0b, 0x0c, 0x0d, 0x20, 0x85, 0xa0, 0x1680, 0x2000, 0x2001, 0x2002, 0x2003,
        0x2004, 0x2005, 0x2006, 0x2007, 0x2008, 0x2009, 0x200a, 0x2028, 0x2029, 0x202f, 0x205f,
        0x3000,
    ];
    let n = c as u32;
    if is_space(c) {
        let at: int = if n <= 0x0d {
            n - 0x09
        } else if 0x2000 <= n <= 0x200a {
            n - 0x2000 + 9
        } else if n == 0x20 {
            5
        } else if n == 0x85 {
            6
        } else if n == 0xa0 {
            7
        } else if n == 0x1680 {
            8
        } else if n == 0x2028 {
            20
        } else if n == 0x2029 {
            21
        } else if n == 0x202f {
            22
        } else if n == 0x205f {
            23
        } else {
            24
        };
        assert(spaces[at] == n);
    }
}

/// Joining puts the first text before the rest joined, with the separator between.
pub proof fn a_separator_stands_between_every_two(
    texts: Seq<Seq<char>>,
    separator: Seq<char>,
    n: nat,
)
    requires
        n <= texts.len(),
    ensures
        n == 0 ==> joined(texts, separator, n) == Seq::<char>::empty(),
        n == 1 ==> joined(texts, separator, n) == texts[0],
        n >= 2 ==> joined(texts, separator, n) == texts[0] + separator + joined(
            texts.drop_first(),
            separator,
            (n - 1) as nat,
        ),
    decreases n,
{
    if n == 2 {
        assert(joined(texts, separator, 1) == texts[0]);
        assert(joined(texts.drop_first(), separator, 1) == texts[1]);
    } else if n > 2 {
        a_separator_stands_between_every_two(texts, separator, (n - 1) as nat);
        let rest = texts.drop_first();
        assert(joined(rest, separator, (n - 1) as nat) == joined(rest, separator, (n - 2) as nat)
            + separator + rest[n - 2]);
        assert(joined(texts, separator, n) =~= texts[0] + separator + joined(
            rest,
            separator,
            (n - 1) as nat,
        ));
    }
}

} // verus!
