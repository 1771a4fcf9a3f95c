//! Text as sequences of characters: the order in which two texts stand, the
//! lower-case form of a text, and numbers written in decimal.

use std::cmp::Ordering;
use vstd::prelude::*;

verus! {

/// The number that stands for a character in the code charts.
pub open spec fn code_point(c: char) -> int {
    c as int
}

/// Whether `a` stands strictly before `b` in the lexicographic order of code
/// points: at the first place where the two differ `a` holds the lower code
/// point, or `a` ends there and `b` goes on.
pub open spec fn text_before(a: Seq<char>, b: Seq<char>) -> bool
    decreases a.len(),
{
    if b.len() == 0 {
        false
    } else if a.len() == 0 {
        true
    } else if a[0] == b[0] {
        text_before(a.drop_first(), b.drop_first())
    } else {
        code_point(a[0]) < code_point(b[0])
    }
}

/// Whether `r` is the answer of a three-way comparison in which `lt` says that
/// the left side comes first and `gt` that the right side does.
pub open spec fn ordering_is(r: Ordering, lt: bool, gt: bool) -> bool {
    match r {
        Ordering::Less => lt,
        Ordering::Equal => !lt && !gt,
        Ordering::Greater => gt && !lt,
    }
}

/// No text stands before itself.
pub proof fn lemma_text_before_irreflexive(a: Seq<char>)
    ensures
        !text_before(a, a),
    decreases a.len(),
{
    if a.len() > 0 {
        lemma_text_before_irreflexive(a.drop_first());
    }
}

/// Of two texts at most one stands before the other.
pub proof fn lemma_text_before_asymmetric(a: Seq<char>, b: Seq<char>)
    ensures
        !(text_before(a, b) && text_before(b, a)),
    decreases a.len(),
{
    if a.len() > 0 && b.len() > 0 && a[0] == b[0] {
        lemma_text_before_asymmetric(a.drop_first(), b.drop_first());
    }
}

/// Of two different texts one stands before the other.
pub proof fn lemma_text_before_total(a: Seq<char>, b: Seq<char>)
    ensures
        a != b ==> text_before(a, b) || text_before(b, a),
    decreases a.len(),
{
    if a.len() > 0 && b.len() > 0 && a[0] == b[0] {
        lemma_text_before_total(a.drop_first(), b.drop_first());
        if a.drop_first() == b.drop_first() {
            assert(a =~= seq![a[0]] + a.drop_first());
            assert(b =~= seq![b[0]] + b.drop_first());
        }
    } else if a.len() == 0 && b.len() == 0 {
        assert(a =~= b);
    }
}

/// The order of texts is transitive.
pub proof fn lemma_text_before_transitive(a: Seq<char>, b: Seq<char>, c: Seq<char>)
    requires
        text_before(a, b),
        text_before(b, c),
    ensures
        text_before(a, c),
    decreases a.len(),
{
    if a.len() > 0 && b.len() > 0 && c.len() > 0 {
        if a[0] == b[0] && b[0] == c[0] {
            lemma_text_before_transitive(a.drop_first(), b.drop_first(), c.drop_first());
        }
    }
}

/// The plain values of a sequence of strings, in the same order.
pub open spec fn texts_view(texts: Seq<String>) -> Seq<Seq<char>> {
    texts.map_values(|text: String| text@)
}

/// The lower-case form of a text, as `str::to_lowercase` gives it.
pub uninterp spec fn lowercase_of(text: Seq<char>) -> Seq<char>;

/// Calls `str::to_lowercase`. The result is the lower-case form of the
/// argument, which depends on the characters of the argument alone.
#[verifier::external_body]
pub(crate) fn to_lowercase(text: &str) -> (lower: String)
    ensures
        lower@ == lowercase_of(text@),
{
    text.to_lowercase()
}

/// Calls `Ord::cmp` of `str`, which orders two strings lexicographically by
/// their bytes, and with that by the code points of their characters.
#[verifier::external_body]
pub(crate) fn compare_text(a: &str, b: &str) -> (r: Ordering)
    ensures
        ordering_is(r, text_before(a@, b@), text_before(b@, a@)),
{
    a.cmp(b)
}

/// Whether two strings hold the same text.
pub fn same_text(a: &str, b: &str) -> (same: bool)
    ensures
        same == (a@ == b@),
{
    proof {
        lemma_text_before_irreflexive(a@);
        lemma_text_before_total(a@, b@);
    }
    match compare_text(a, b) {
        Ordering::Equal => true,
        _ => false,
    }
}

/// The characters that stand for the numbers from zero to nine.
pub open spec fn digits() -> Seq<char> {
    seq!['0', '1', '2', '3', '4', '5', '6', '7', '8', '9']
}

/// The way a number is written in decimal: without a sign, and without a zero
/// in front of another digit.
pub open spec fn decimal(n: nat) -> Seq<char>
    decreases n,
{
    if n < 10 {
        seq![digits()[n as int]]
    } else {
        decimal(n / 10).push(digits()[(n % 10) as int])
    }
}

/// The character that stands for a number below ten, as a string.
fn digit_text(d: usize) -> (text: &'static str)
    requires
        d < 10,
    ensures
        text@ == seq![digits()[d as int]],
{
    proof {
        reveal_strlit("0");
        reveal_strlit("1");
        reveal_strlit("2");
        reveal_strlit("3");
        reveal_strlit("4");
        reveal_strlit("5");
        reveal_strlit("6");
        reveal_strlit("7");
        reveal_strlit("8");
        reveal_strlit("9");
    }
    let text = if d == 0 {
        "0"
    } else if d == 1 {
        "1"
    } else if d == 2 {
        "2"
    } else if d == 3 {
        "3"
    } else if d == 4 {
        "4"
    } else if d == 5 {
        "5"
    } else if d == 6 {
        "6"
    } else if d == 7 {
        "7"
    } else if d == 8 {
        "8"
    } else {
        "9"
    };
    assert(text@ =~= seq![digits()[d as int]]);
    text
}

/// Writes a number in decimal.
pub fn decimal_of(n: usize) -> (text: String)
    ensures
        text@ == decimal(n as nat),
    decreases n,
{
    if n < 10 {
        String::from_str(digit_text(n))
    } else {
        let mut text = decimal_of(n / 10);
        text.append(digit_text(n % 10));
        text
    }
}

/// The number that a digit stands for; ten for any other character.
pub open spec fn digit_value(c: char) -> nat {
    if c == '0' {
        0
    } else if c == '1' {
        1
    } else if c == '2' {
        2
    } else if c == '3' {
        3
    } else if c == '4' {
        4
    } else if c == '5' {
        5
    } else if c == '6' {
        6
    } else if c == '7' {
        7
    } else if c == '8' {
        8
    } else if c == '9' {
        9
    } else {
        10
    }
}

/// Whether a text is written as a number is in decimal: it has a digit,
/// nothing but digits, and no zero in front of another digit.
pub open spec fn is_decimal(text: Seq<char>) -> bool {
    &&& text.len() >= 1
    &&& forall|i: int| 0 <= i < text.len() ==> digit_value(#[trigger] text[i]) < 10
    &&& text.len() > 1 ==> text[0] != '0'
}

/// The number that a text of digits stands for.
pub open spec fn decimal_value(text: Seq<char>) -> nat
    decreases text.len(),
{
    if text.len() == 0 {
        0
    } else {
        decimal_value(text.drop_last()) * 10 + digit_value(text.last())
    }
}

/// A number written in decimal has the shape of a decimal and stands for the
/// number; below ten it is one digit, and from ten on it begins with a digit
/// other than zero.
pub proof fn lemma_decimal(n: nat)
    ensures
        is_decimal(decimal(n)),
        decimal_value(decimal(n)) == n,
        n > 0 ==> decimal(n)[0] != '0',
    decreases n,
{
    if n < 10 {
        assert(decimal(n).drop_last() =~= Seq::<char>::empty());
        assert(decimal_value(decimal(n).drop_last()) == 0);
        assert(decimal(n).last() == digits()[n as int]);
        assert(digit_value(digits()[n as int]) == n);
    } else {
        lemma_decimal(n / 10);
        assert(decimal(n).drop_last() =~= decimal(n / 10));
        assert(decimal(n).last() == digits()[(n % 10) as int]);
        assert(digit_value(digits()[(n % 10) as int]) == n % 10);
        assert(decimal(n)[0] == decimal(n / 10)[0]);
    }
}

/// The numbers that two equal texts stand for in decimal are equal.
pub proof fn lemma_decimal_injective(a: nat, b: nat)
    requires
        decimal(a) == decimal(b),
    ensures
        a == b,
{
    lemma_decimal(a);
    lemma_decimal(b);
}

/// A text in the shape of a decimal is the way its number is written.
pub proof fn lemma_decimal_of_value(text: Seq<char>)
    requires
        is_decimal(text),
    ensures
        decimal(decimal_value(text)) == text,
    decreases text.len(),
{
    let front = text.drop_last();
    if text.len() == 1 {
        assert(front =~= Seq::<char>::empty());
        assert(decimal_value(text) == digit_value(text[0]));
        assert(decimal(decimal_value(text)) =~= text);
    } else {
        assert(is_decimal(front)) by {
            assert forall|i: int| 0 <= i < front.len() implies digit_value(#[trigger] front[i])
                < 10 by {
                assert(front[i] == text[i]);
            }
            assert(front[0] == text[0]);
        }
        lemma_decimal_of_value(front);
        lemma_leading_digit(front);
        let value = decimal_value(text);
        assert(value / 10 == decimal_value(front) && value % 10 == digit_value(text.last()));
        assert(value >= 10);
        assert(decimal(value) =~= text);
    }
}

/// A decimal that does not begin with zero stands for a number above zero.
pub proof fn lemma_leading_digit(text: Seq<char>)
    requires
        is_decimal(text),
        text[0] != '0',
    ensures
        decimal_value(text) >= 1,
    decreases text.len(),
{
    let front = text.drop_last();
    if text.len() == 1 {
        assert(front =~= Seq::<char>::empty());
    } else {
        assert(is_decimal(front)) by {
            assert forall|i: int| 0 <= i < front.len() implies digit_value(#[trigger] front[i])
                < 10 by {
                assert(front[i] == text[i]);
            }
            assert(front[0] == text[0]);
        }
        lemma_leading_digit(front);
    }
}

/// The number that a text of digits stands for is no smaller than the number
/// that any beginning of the text stands for.
pub proof fn lemma_decimal_value_grows(text: Seq<char>, k: int)
    requires
        0 <= k <= text.len(),
    ensures
        decimal_value(text.take(k)) <= decimal_value(text),
    decreases text.len(),
{
    if k == text.len() {
        assert(text.take(k) =~= text);
    } else {
        assert(text.drop_last().take(k) =~= text.take(k));
        lemma_decimal_value_grows(text.drop_last(), k);
    }
}

/// The number that a character stands for, if it is a digit.
fn digit_of(c: char) -> (digit: Option<usize>)
    ensures
        digit matches Some(d) ==> d == digit_value(c) && d < 10,
        digit is None ==> digit_value(c) == 10,
{
    match c {
        '0' => Some(0),
        '1' => Some(1),
        '2' => Some(2),
        '3' => Some(3),
        '4' => Some(4),
        '5' => Some(5),
        '6' => Some(6),
        '7' => Some(7),
        '8' => Some(8),
        '9' => Some(9),
        _ => None,
    }
}

/// The characters of a string, one by one.
pub fn chars_of(text: &str) -> (chars: Vec<char>)
    ensures
        chars@ == text@,
{
    let mut chars: Vec<char> = Vec::new();
    for c in all: text.chars()
        invariant
            all.seq() == text@,
            chars@ == text@.take(all.index() as int),
    {
        chars.push(c);
        assert(chars@ =~= text@.take(all.index() + 1));
    }
    assert(chars@ =~= text@);
    chars
}

/// Reads the number that `text` holds in decimal. There is such a number
/// exactly where `text` is the way a number that fits the machine's word is
/// written.
pub fn parse_decimal(text: &str) -> (number: Option<usize>)
    ensures
        number matches Some(n) ==> decimal(n as nat) == text@,
        number is None ==> forall|n: nat| n <= usize::MAX ==> decimal(n) != text@,
{
    let chars = chars_of(text);
    assert(chars@.skip(0) =~= text@);
    decimal_from(&chars, 0)
}

/// Reads the number that `chars` holds in decimal from the place `from` to
/// the end. There is such a number exactly where what stands there is the way
/// a number that fits the machine's word is written.
pub(crate) fn decimal_from(chars: &Vec<char>, from: usize) -> (number: Option<usize>)
    requires
        from <= chars.len(),
    ensures
        number matches Some(n) ==> decimal(n as nat) == chars@.skip(from as int),
        number is None ==> forall|n: nat|
            n <= usize::MAX ==> decimal(n) != chars@.skip(from as int),
{
    let ghost text = chars@.skip(from as int);
    if from == chars.len() {
        proof {
            assert forall|n: nat| n <= usize::MAX implies decimal(n) != text by {
                lemma_decimal(n);
            }
        }
        return None;
    }
    let mut value: usize = 0;
    let mut i: usize = from;
    assert(text.take(0) =~= Seq::<char>::empty());
    while i < chars.len()
        invariant
            from <= i <= chars.len(),
            from < chars.len(),
            text == chars@.skip(from as int),
            value == decimal_value(text.take(i - from)),
            forall|k: int| 0 <= k < i - from ==> digit_value(#[trigger] text[k]) < 10,
            i - from > 1 ==> text[0] != '0',
        decreases chars.len() - i,
    {
        let ghost read = text.take(i - from);
        let ghost grown = text.take(i - from + 1);
        assert(grown.drop_last() =~= read);
        assert(grown.last() == chars@[i as int]);
        let next = match digit_of(chars[i]) {
            Some(d) => {
                if i == from + 1 && value == 0 {
                    None
                } else {
                    match value.checked_mul(10) {
                        Some(tenfold) => tenfold.checked_add(d),
                        None => None,
                    }
                }
            },
            None => None,
        };
        match next {
            Some(v) => {
                proof {
                    if i == from + 1 {
                        assert(read.drop_last() =~= Seq::<char>::empty());
                        assert(decimal_value(read.drop_last()) == 0);
                        assert(read.last() == text[0]);
                        assert(decimal_value(read) == digit_value(text[0]));
                    }
                }
                value = v;
            },
            None => {
                proof {
                    assert forall|n: nat| n <= usize::MAX implies decimal(n) != text by {
                        lemma_decimal(n);
                        if decimal(n) == text {
                            if digit_value(chars@[i as int]) == 10 {
                                assert(text[i - from] == chars@[i as int]);
                            } else if i == from + 1 && value == 0 {
                                assert(read.drop_last() =~= Seq::<char>::empty());
                                assert(decimal_value(read.drop_last()) == 0);
                                assert(read.last() == text[0]);
                                assert(decimal_value(read) == digit_value(text[0]));
                            } else {
                                lemma_decimal_value_grows(text, i - from + 1);
                            }
                        }
                    }
                }
                return None;
            },
        }
        i = i + 1;
    }
    proof {
        assert(text.take(i - from) =~= text);
        lemma_decimal_of_value(text);
    }
    Some(value)
}

} // verus!
