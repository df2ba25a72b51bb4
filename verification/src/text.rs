//! Searching and reading short ASCII texts, such as header values.

use vstd::prelude::*;

use crate::ascii::{DIGIT_0, DIGIT_9, LOWER_A, PLUS, UPPER_A, UPPER_Z};

verus! {

/// Whether `needle` occurs in `haystack` at position `i`.
pub open spec fn occurs_at(needle: Seq<u8>, haystack: Seq<u8>, i: int) -> bool {
    0 <= i <= haystack.len() - needle.len() && haystack.subrange(i, i + needle.len()) == needle
}

/// Whether `needle` occurs somewhere in `haystack`.
pub open spec fn occurs(needle: Seq<u8>, haystack: Seq<u8>) -> bool {
    exists|i: int| occurs_at(needle, haystack, i)
}

/// An ASCII letter in lower case; any other byte as it is.
pub open spec fn lower_byte(b: u8) -> u8 {
    if UPPER_A <= b <= UPPER_Z {
        (b - UPPER_A + LOWER_A) as u8
    } else {
        b
    }
}

/// A text with its ASCII letters in lower case.
pub open spec fn lowercase(s: Seq<u8>) -> Seq<u8> {
    s.map_values(|b: u8| lower_byte(b))
}

/// Whether all bytes are decimal digits.
pub open spec fn is_decimal(digits: Seq<u8>) -> bool {
    forall|i: int| 0 <= i < digits.len() ==> DIGIT_0 <= #[trigger] digits[i] <= DIGIT_9
}

/// The number that decimal digits denote, most significant first.
pub open spec fn decimal_number(digits: Seq<u8>) -> nat
    decreases digits.len(),
{
    if digits.len() == 0 {
        0
    } else {
        (decimal_number(digits.drop_last()) * 10 + (digits.last() - DIGIT_0)) as nat
    }
}

/// The 64-bit number that a text denotes: one or more digits, after a `+` or
/// not, and nothing else.
pub open spec fn parsed_u64(s: Seq<u8>) -> Option<u64> {
    let digits = if s.len() > 0 && s[0] == PLUS {
        s.skip(1)
    } else {
        s
    };
    if digits.len() > 0 && is_decimal(digits) && decimal_number(digits) <= u64::MAX {
        Some(decimal_number(digits) as u64)
    } else {
        None
    }
}

/// Whether two texts are the same.
pub fn same(a: &[u8], b: &[u8]) -> (r: bool)
    ensures
        r == (a@ == b@),
{
    if a.len() != b.len() {
        return false;
    }
    for i in 0..a.len()
        invariant
            a.len() == b.len(),
            forall|j: int| 0 <= j < i ==> a@[j] == b@[j],
    {
        if a[i] != b[i] {
            return false;
        }
    }
    assert(a@ =~= b@);
    true
}

/// Whether `needle` occurs in `haystack`.
pub fn contains(haystack: &[u8], needle: &[u8]) -> (r: bool)
    ensures
        r == occurs(needle@, haystack@),
{
    if needle.len() > haystack.len() {
        return false;
    }
    let last: usize = haystack.len() - needle.len();
    let mut i: usize = 0;
    loop
        invariant
            last == haystack.len() - needle.len(),
            i <= last,
            forall|j: int| 0 <= j < i ==> !occurs_at(needle@, haystack@, j),
        decreases last - i,
    {
        if same(&haystack[i..i + needle.len()], needle) {
            assert(occurs_at(needle@, haystack@, i as int));
            return true;
        }
        if i == last {
            return false;
        }
        i += 1;
    }
}

/// The text with its ASCII letters in lower case.
pub fn to_lowercase(s: &[u8]) -> (r: Vec<u8>)
    ensures
        r@ == lowercase(s@),
{
    let mut out: Vec<u8> = Vec::new();
    for i in 0..s.len()
        invariant
            out@ == lowercase(s@.take(i as int)),
    {
        let b: u8 = s[i];
        if UPPER_A <= b && b <= UPPER_Z {
            out.push(b - UPPER_A + LOWER_A);
        } else {
            out.push(b);
        }
        assert(out@ =~= lowercase(s@.take(i + 1)));
    }
    assert(s@.take(s@.len() as int) =~= s@);
    out
}

/// A number is not smaller than the number of its leading digits.
proof fn lemma_decimal_prefix(digits: Seq<u8>, n: int)
    requires
        is_decimal(digits),
        0 <= n <= digits.len(),
    ensures
        decimal_number(digits.take(n)) <= decimal_number(digits),
    decreases digits.len(),
{
    if n < digits.len() {
        let front = digits.drop_last();
        assert forall|i: int| 0 <= i < front.len() implies DIGIT_0 <= #[trigger] front[i]
            <= DIGIT_9 by {
            assert(front[i] == digits[i]);
        }
        lemma_decimal_prefix(front, n);
        assert(front.take(n) =~= digits.take(n));
        assert(digits.last() == digits[digits.len() - 1]);
    } else {
        assert(digits.take(n) =~= digits);
    }
}

/// Reads a number in decimal.
pub fn parse_u64(s: &[u8]) -> (r: Option<u64>)
    ensures
        r == parsed_u64(s@),
{
    let start: usize = if s.len() > 0 && s[0] == PLUS {
        1
    } else {
        0
    };
    let ghost digits = s@.skip(start as int);
    assert(s@.skip(0) =~= s@);
    if start == s.len() {
        return None;
    }
    let mut value: u64 = 0;
    let mut i: usize = start;
    while i < s.len()
        invariant
            start <= i <= s.len(),
            start < s.len(),
            digits == s@.skip(start as int),
            start == 0 ==> digits == s@,
            start == (if s@.len() > 0 && s@[0] == PLUS { 1int } else { 0 }),
            value == decimal_number(digits.take(i - start)),
            forall|j: int| 0 <= j < i - start ==> DIGIT_0 <= #[trigger] digits[j] <= DIGIT_9,
        decreases s.len() - i,
    {
        let b: u8 = s[i];
        let ghost k = i - start;
        assert(digits[k] == b);
        assert(digits.take(k + 1).drop_last() =~= digits.take(k));
        if b < DIGIT_0 || b > DIGIT_9 {
            return None;
        }
        let next: Option<u64> = match value.checked_mul(10) {
            Some(tens) => tens.checked_add((b - DIGIT_0) as u64),
            None => None,
        };
        match next {
            Some(v) => {
                value = v;
            },
            None => {
                assert(decimal_number(digits.take(k + 1)) > u64::MAX);
                proof {
                    if is_decimal(digits) {
                        lemma_decimal_prefix(digits, k + 1);
                    }
                }
                return None;
            },
        }
        i += 1;
    }
    assert(digits.take(i - start) =~= digits);
    Some(value)
}

/// Letters from `A` to `Z` become the letters from `a` to `z`, and all other bytes
/// stay what they are.
pub proof fn law_lowercase(s: Seq<u8>)
    ensures
        lowercase(s).len() == s.len(),
        forall|i: int|
            0 <= i < s.len() ==> #[trigger] lowercase(s)[i] == if 0x41 <= s[i] <= 0x5a {
                s[i] + 0x20
            } else {
                s[i] as int
            },
{
}

/// Whether the bytes of `word` stand in `text` one behind the other, from `i` on.
pub open spec fn stands_at(word: Seq<u8>, text: Seq<u8>, i: int) -> bool {
    0 <= i && i + word.len() <= text.len() && forall|k: int|
        0 <= k < word.len() ==> text[i + k] == #[trigger] word[k]
}

/// A word occurs in a text if its bytes stand there, one behind the other.
pub proof fn law_occurs(word: Seq<u8>, text: Seq<u8>)
    ensures
        occurs(word, text) <==> exists|i: int| stands_at(word, text, i),
{
    if occurs(word, text) {
        let i = choose|i: int| occurs_at(word, text, i);
        let part = text.subrange(i, i + word.len());
        assert forall|k: int| 0 <= k < word.len() implies text[i + k] == #[trigger] word[k] by {
            assert(part[k] == text[i + k]);
        }
        assert(stands_at(word, text, i));
    }
    if exists|i: int| stands_at(word, text, i) {
        let i = choose|i: int| stands_at(word, text, i);
        assert(text.subrange(i, i + word.len()) =~= word);
        assert(occurs_at(word, text, i));
    }
}

/// A number as it is usually written, without leading zeros.
pub open spec fn decimal_text(n: nat) -> Seq<u8>
    decreases n,
{
    if n < 10 {
        seq![(0x30 + n) as u8]
    } else {
        decimal_text(n / 10).push((0x30 + n % 10) as u8)
    }
}

/// Whether a text is a way to write a number: as usual, behind any number of
/// zeros, behind a `+` or not.
pub open spec fn denotes(text: Seq<u8>, n: nat) -> bool {
    exists|sign: Seq<u8>, zeros: nat|
        (sign == Seq::<u8>::empty() || sign == seq![0x2bu8]) && text == #[trigger] written(
            sign,
            zeros,
            n,
        )
}

/// So many zeros.
pub open spec fn zero_digits(zeros: nat) -> Seq<u8> {
    Seq::new(zeros, |i: int| 0x30u8)
}

/// A sign, so many zeros and a number.
pub open spec fn written(sign: Seq<u8>, zeros: nat, n: nat) -> Seq<u8> {
    sign + zero_digits(zeros) + decimal_text(n)
}

/// Reading a number undoes writing it, and nothing but written numbers is read:
/// a text is read as `n` exactly if it is a way to write `n`.
pub proof fn law_parse_undoes_write(text: Seq<u8>, n: u64)
    ensures
        parsed_u64(text) == Some(n) <==> denotes(text, n as nat),
{
    if parsed_u64(text) == Some(n) {
        let plus = text.len() > 0 && text[0] == PLUS;
        let digits = if plus {
            text.skip(1)
        } else {
            text
        };
        let sign = if plus {
            seq![0x2bu8]
        } else {
            Seq::empty()
        };
        let zeros = lemma_digits_are_written(digits);
        assert(decimal_number(digits) == n as nat);
        assert(text =~= sign + digits);
        assert(text =~= written(sign, zeros, n as nat));
    }
    if denotes(text, n as nat) {
        let (sign, zeros) = choose|sign: Seq<u8>, zeros: nat|
            (sign == Seq::<u8>::empty() || sign == seq![0x2bu8]) && text == #[trigger] written(
                sign,
                zeros,
                n as nat,
            );
        let digits = zero_digits(zeros) + decimal_text(n as nat);
        lemma_written_is_digits(zeros, n as nat);
        assert(digits[0] == digits[0] && 0x30 <= digits[0] <= 0x39);
        if sign.len() == 0 {
            assert(text =~= digits);
        } else {
            assert(text =~= sign + digits);
            assert(text.skip(1) =~= digits);
        }
    }
}

/// Decimal digits are zeros and a number in the usual form.
proof fn lemma_digits_are_written(digits: Seq<u8>) -> (zeros: nat)
    requires
        digits.len() > 0,
        is_decimal(digits),
    ensures
        digits == zero_digits(zeros) + decimal_text(decimal_number(digits)),
    decreases digits.len(),
{
    let front = digits.drop_last();
    let d = digits.last();
    let n = decimal_number(digits);
    assert(d == digits[digits.len() - 1]);
    if front.len() == 0 {
        assert(decimal_number(front) == 0);
        assert(decimal_text(n) == seq![d]);
        assert(digits =~= zero_digits(0) + decimal_text(n));
        0
    } else {
        assert forall|i: int| 0 <= i < front.len() implies DIGIT_0 <= #[trigger] front[i]
            <= DIGIT_9 by {
            assert(front[i] == digits[i]);
        }
        let m = decimal_number(front);
        let zeros = lemma_digits_are_written(front);
        assert(digits =~= front.push(d));
        if m == 0 {
            assert(decimal_text(n) == seq![d]);
            assert(digits =~= zero_digits(zeros + 1) + decimal_text(n));
            zeros + 1
        } else {
            assert(n / 10 == m && n % 10 == d - 0x30);
            assert(digits =~= zero_digits(zeros) + decimal_text(n));
            zeros
        }
    }
}

/// A number behind zeros is digits, and denotes the number.
proof fn lemma_written_is_digits(zeros: nat, n: nat)
    ensures
        ({
            let digits = zero_digits(zeros) + decimal_text(n);
            &&& digits.len() > 0
            &&& is_decimal(digits)
            &&& decimal_number(digits) == n
        }),
    decreases n,
{
    let pad = zero_digits(zeros);
    let digits = pad + decimal_text(n);
    if n < 10 {
        lemma_zeros(zeros);
        assert(digits =~= pad.push((0x30 + n) as u8));
    } else {
        lemma_written_is_digits(zeros, n / 10);
        assert(digits =~= (pad + decimal_text(n / 10)).push((0x30 + n % 10) as u8));
    }
    let front = digits.drop_last();
    assert(front =~= if n < 10 {
        pad
    } else {
        pad + decimal_text(n / 10)
    });
    assert(digits.last() == 0x30 + n % 10);
    assert(is_decimal(front));
    assert forall|i: int| 0 <= i < digits.len() implies DIGIT_0 <= #[trigger] digits[i]
        <= DIGIT_9 by {
        if i < front.len() {
            assert(front[i] == digits[i]);
        }
    }
}

/// Zeros denote zero.
proof fn lemma_zeros(zeros: nat)
    ensures
        is_decimal(zero_digits(zeros)),
        decimal_number(zero_digits(zeros)) == 0,
    decreases zeros,
{
    if zeros > 0 {
        lemma_zeros((zeros - 1) as nat);
        assert(zero_digits(zeros).drop_last() =~= zero_digits(
            (zeros - 1) as nat,
        ));
    }
}

} // verus!
