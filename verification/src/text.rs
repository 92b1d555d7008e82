//! Text: numbers written out and read back, and comparison of strings.

use vstd::prelude::*;
use vstd::string::*;
use vstd::utf8::*;

verus! {

broadcast use vstd::string::group_string_axioms;

/// `String::push` appends the given character to the end of the string.
pub assume_specification[ String::push ](s: &mut String, c: char)
    ensures
        final(s)@ == old(s)@.push(c),
;

/// The error of `String::from_utf8`, into which nothing looks.
#[verifier::external_type_specification]
#[verifier::external_body]
pub struct ExFromUtf8Error(std::string::FromUtf8Error);

/// `String::from_utf8` gives the string that the bytes encode, and an error, of which nothing is
/// said, where they are not UTF-8.
pub assume_specification[ String::from_utf8 ](vec: Vec<u8>) -> (res: Result<
    String,
    std::string::FromUtf8Error,
>)
    ensures
        res is Ok <==> valid_utf8(vec@),
        res is Ok ==> res->Ok_0@ == decode_utf8(vec@),
;

/// The texts of a list of strings.
pub open spec fn texts(strings: Seq<String>) -> Seq<Seq<char>> {
    strings.map_values(|s: String| s@)
}

/// The characters of a string, one by one.
pub fn chars_of(s: &str) -> (res: Vec<char>)
    ensures
        res@ == s@,
{
    let mut res: Vec<char> = Vec::new();
    for c in it: s.chars()
        invariant
            res@ == it.seq().take(it.index()),
            it.seq() == s@,
    {
        res.push(c);
    }
    res
}

/// The string made of the given characters.
pub fn string_of(chars: &Vec<char>) -> (res: String)
    ensures
        res@ == chars@,
{
    let mut res = String::new();
    for i in 0..chars.len()
        invariant
            res@ == chars@.take(i as int),
    {
        res.push(chars[i]);
        assert(chars@.take(i + 1) == chars@.take(i as int).push(chars@[i as int]));
    }
    assert(chars@.take(chars@.len() as int) == chars@);
    res
}

/// Whether two strings hold the same characters.
pub fn same_text(a: &str, b: &str) -> (res: bool)
    ensures
        res == (a@ == b@),
{
    let x = a.as_bytes();
    let y = b.as_bytes();
    proof {
        encode_utf8_decode_utf8(a@);
        encode_utf8_decode_utf8(b@);
    }
    if x.len() != y.len() {
        return false;
    }
    for i in 0..x.len()
        invariant
            x@ == encode_utf8(a@),
            y@ == encode_utf8(b@),
            x@.len() == y@.len(),
            forall|j: int| 0 <= j < i ==> x@[j] == y@[j],
    {
        if x[i] != y[i] {
            return false;
        }
    }
    assert(x@ =~= y@);
    true
}

/// Whether bytes come before others in lexicographic order.
pub open spec fn bytes_before(a: Seq<u8>, b: Seq<u8>) -> bool
    decreases a.len(),
{
    if b.len() == 0 {
        false
    } else if a.len() == 0 {
        true
    } else if a[0] != b[0] {
        a[0] < b[0]
    } else {
        bytes_before(a.skip(1), b.skip(1))
    }
}

/// Whether a text comes before another in the order of strings, which is that of their bytes.
pub open spec fn text_before(a: Seq<char>, b: Seq<char>) -> bool {
    bytes_before(encode_utf8(a), encode_utf8(b))
}

/// Whether a string comes before another.
pub fn is_before(a: &str, b: &str) -> (res: bool)
    ensures
        res == text_before(a@, b@),
{
    let x = a.as_bytes();
    let y = b.as_bytes();
    let mut i: usize = 0;
    assert(x@.skip(0) == x@ && y@.skip(0) == y@);
    while i < x.len() && i < y.len()
        invariant
            x@ == encode_utf8(a@),
            y@ == encode_utf8(b@),
            i <= x.len(),
            i <= y.len(),
            bytes_before(x@, y@) == bytes_before(x@.skip(i as int), y@.skip(i as int)),
        decreases x.len() - i,
    {
        assert(x@.skip(i as int).skip(1) == x@.skip(i + 1));
        assert(y@.skip(i as int).skip(1) == y@.skip(i + 1));
        if x[i] != y[i] {
            return x[i] < y[i];
        }
        i = i + 1;
    }
    i < y.len()
}

proof fn lemma_bytes_before_is_total(a: Seq<u8>, b: Seq<u8>)
    ensures
        bytes_before(a, b) || bytes_before(b, a) || a == b,
        !bytes_before(a, a),
    decreases a.len(),
{
    if a.len() > 0 {
        lemma_bytes_before_is_total(a.skip(1), a.skip(1));
    }
    if a.len() > 0 && b.len() > 0 && a[0] == b[0] {
        lemma_bytes_before_is_total(a.skip(1), b.skip(1));
        if a.skip(1) == b.skip(1) {
            assert(a =~= seq![a[0]] + a.skip(1));
            assert(b =~= seq![b[0]] + b.skip(1));
        }
    } else if a.len() == 0 && b.len() == 0 {
        assert(a =~= b);
    }
}

proof fn lemma_bytes_before_is_transitive(a: Seq<u8>, b: Seq<u8>, c: Seq<u8>)
    requires
        bytes_before(a, b),
        bytes_before(b, c),
    ensures
        bytes_before(a, c),
    decreases a.len(),
{
    if a.len() > 0 && a[0] == b[0] && b[0] == c[0] {
        lemma_bytes_before_is_transitive(a.skip(1), b.skip(1), c.skip(1));
    }
}

/// Of two different texts one comes before the other, and none before itself.
pub proof fn lemma_text_before_is_total(a: Seq<char>, b: Seq<char>)
    ensures
        text_before(a, b) || text_before(b, a) || a == b,
        !text_before(a, a),
{
    lemma_bytes_before_is_total(encode_utf8(a), encode_utf8(b));
    encode_utf8_decode_utf8(a);
    encode_utf8_decode_utf8(b);
}

/// What comes before a text comes before what comes after it.
pub proof fn lemma_text_before_is_transitive(a: Seq<char>, b: Seq<char>, c: Seq<char>)
    requires
        text_before(a, b),
        text_before(b, c),
    ensures
        text_before(a, c),
{
    lemma_bytes_before_is_transitive(encode_utf8(a), encode_utf8(b), encode_utf8(c));
}

/// The text in lower case, as `str::to_lowercase` makes it after the Unicode tables.
pub uninterp spec fn lowercase(s: Seq<char>) -> Seq<char>;

/// Whether all characters of a text are ASCII characters.
pub open spec fn all_ascii(s: Seq<char>) -> bool {
    forall|i: int| 0 <= i < s.len() ==> #[trigger] s[i] <= '\x7f'
}

/// A text with every capital of the letters A to Z made small.
pub open spec fn ascii_lowercase(s: Seq<char>) -> Seq<char> {
    s.map_values(
        |c: char|
            if 'A' <= c <= 'Z' {
                (c as u32 + 32) as char
            } else {
                c
            },
    )
}

/// The lower-case form of a text. To it, the case of the letters A to Z makes no difference.
pub open spec fn lowered(s: Seq<char>) -> Seq<char> {
    lowercase(ascii_lowercase(s))
}

/// What is known of a lower-case form: in a text of ASCII characters the letters A to Z become a to
/// z and nothing else changes, and a text that is not empty has a form that is not.
pub open spec fn lowers(s: Seq<char>) -> bool {
    &&& all_ascii(s) ==> lowered(s) == ascii_lowercase(s)
    &&& s.len() > 0 ==> lowered(s).len() > 0
}

/// `str::to_lowercase`: the lower-case equivalent of a text. It is the same if the letters A to Z in
/// the text are made small first; in a text of ASCII characters nothing else changes; and it is not
/// empty unless the text is.
pub assume_specification[ str::to_lowercase ](s: &str) -> (res: String)
    ensures
        res@ == lowercase(s@),
        res@ == lowercase(ascii_lowercase(s@)),
        all_ascii(s@) ==> res@ == ascii_lowercase(s@),
        s@.len() > 0 ==> res@.len() > 0,
;

/// A text without the zero characters at its end.
pub open spec fn without_trailing_zeros(s: Seq<char>) -> Seq<char>
    decreases s.len(),
{
    if s.len() > 0 && s.last() == '\0' {
        without_trailing_zeros(s.drop_last())
    } else {
        s
    }
}

/// Removes the zero characters at the end of a text.
pub fn trim_zeros(chars: &mut Vec<char>)
    ensures
        final(chars)@ == without_trailing_zeros(old(chars)@),
{
    while chars.len() > 0 && chars[chars.len() - 1] == '\0'
        invariant
            without_trailing_zeros(chars@) == without_trailing_zeros(old(chars)@),
        decreases chars.len(),
    {
        let ghost before = chars@;
        chars.pop();
        assert(chars@ == before.drop_last());
    }
}

/// The character of a decimal or hexadecimal digit (`0` to `9`, then `A` to `F`).
pub open spec fn digit(d: int) -> char {
    if d < 10 {
        (48 + d) as char
    } else {
        (55 + d) as char
    }
}

/// `n` written in base `base`, most significant digit first, without leading zeros.
pub open spec fn numeral(n: nat, base: nat) -> Seq<char>
    decreases n,
{
    if n < base || base < 2 {
        seq![digit(n as int)]
    } else {
        proof {
            assert(n / base < n) by (nonlinear_arith)
                requires
                    2 <= base <= n,
            ;
        }
        numeral(n / base, base).push(digit((n % base) as int))
    }
}

/// `n` written in base ten.
pub open spec fn decimal(n: nat) -> Seq<char> {
    numeral(n, 10)
}

/// `n` written in base sixteen, in capitals.
pub open spec fn hexadecimal(n: nat) -> Seq<char> {
    numeral(n, 16)
}

fn digit_char(d: u8) -> (res: char)
    requires
        d < 16,
    ensures
        res == digit(d as int),
{
    if d < 10 {
        (48 + d) as char
    } else {
        (55 + d) as char
    }
}

/// Appends `n` in the given base to `out`.
fn push_numeral(out: &mut String, n: u64, base: u64)
    requires
        2 <= base <= 16,
    ensures
        final(out)@ == old(out)@ + numeral(n as nat, base as nat),
    decreases n,
{
    if n < base {
        out.push(digit_char(n as u8));
    } else {
        assert(0 < n / base < n) by (nonlinear_arith)
            requires
                2 <= base <= n,
        ;
        push_numeral(out, n / base, base);
        out.push(digit_char((n % base) as u8));
    }
    assert(out@ =~= old(out)@ + numeral(n as nat, base as nat));
}

/// `n` as a decimal string.
pub fn decimal_string(n: u64) -> (res: String)
    ensures
        res@ == decimal(n as nat),
{
    let mut res = String::new();
    push_numeral(&mut res, n, 10);
    res
}

/// `n` as a hexadecimal string in capitals.
pub fn hexadecimal_string(n: u32) -> (res: String)
    ensures
        res@ == hexadecimal(n as nat),
{
    let mut res = String::new();
    push_numeral(&mut res, n as u64, 16);
    res
}

/// A count of hundredths written with two decimals.
pub open spec fn two_decimals(hundredths: nat) -> Seq<char> {
    decimal(hundredths / 100) + seq![
        '.',
        digit((hundredths / 10 % 10) as int),
        digit((hundredths % 10) as int),
    ]
}

/// A count of hundredths as a string with two decimals.
pub fn two_decimals_string(hundredths: u64) -> (res: String)
    ensures
        res@ == two_decimals(hundredths as nat),
{
    let mut res = decimal_string(hundredths / 100);
    res.push('.');
    res.push(digit_char((hundredths / 10 % 10) as u8));
    res.push(digit_char((hundredths % 10) as u8));
    assert(res@ =~= two_decimals(hundredths as nat));
    res
}

/// Texts put together with a separator between them.
pub open spec fn joined(parts: Seq<Seq<char>>, separator: char) -> Seq<char>
    decreases parts.len(),
{
    if parts.len() == 0 {
        Seq::empty()
    } else if parts.len() == 1 {
        parts[0]
    } else {
        joined(parts.drop_last(), separator).push(separator) + parts.last()
    }
}

/// Numbers in base ten with a semicolon between them.
pub open spec fn numbers_text(numbers: Seq<u32>) -> Seq<char> {
    joined(numbers.map_values(|n: u32| decimal(n as nat)), ';')
}

/// Writes numbers in base ten with a semicolon between them.
pub fn numbers_string(numbers: &Vec<u32>) -> (res: String)
    ensures
        res@ == numbers_text(numbers@),
{
    let mut res = String::new();
    let ghost parts = numbers@.map_values(|n: u32| decimal(n as nat));
    for i in 0..numbers.len()
        invariant
            parts == numbers@.map_values(|n: u32| decimal(n as nat)),
            res@ == joined(parts.take(i as int), ';'),
    {
        if i > 0 {
            res.push(';');
        }
        push_numeral(&mut res, numbers[i] as u64, 10);
        assert(parts.take(i + 1).drop_last() == parts.take(i as int));
        assert(res@ =~= joined(parts.take(i + 1), ';'));
    }
    assert(parts.take(parts.len() as int) == parts);
    res
}

pub open spec fn is_decimal_digit(c: char) -> bool {
    '0' <= c <= '9'
}

pub open spec fn all_decimal_digits(s: Seq<char>) -> bool {
    forall|i: int| 0 <= i < s.len() ==> is_decimal_digit(#[trigger] s[i])
}

/// The number that a sequence of decimal digits stands for.
pub open spec fn decimal_value(s: Seq<char>) -> nat
    decreases s.len(),
{
    if s.len() == 0 {
        0
    } else {
        decimal_value(s.drop_last()) * 10 + (s.last() as nat - 48) as nat
    }
}

/// The digits of a number: what follows one optional plus sign.
pub open spec fn after_plus(s: Seq<char>) -> Seq<char> {
    if s.len() > 0 && s[0] == '+' {
        s.skip(1)
    } else {
        s
    }
}

/// What a text reads as: an optional plus sign and then one or more decimal digits, with a value
/// that 64 bits hold; nothing else is a number.
pub open spec fn read_u64(s: Seq<char>) -> Option<u64> {
    let digits = after_plus(s);
    if digits.len() > 0 && all_decimal_digits(digits) && decimal_value(digits) <= u64::MAX {
        Some(decimal_value(digits) as u64)
    } else {
        None
    }
}

proof fn lemma_value_grows(s: Seq<char>, k: int)
    requires
        0 <= k <= s.len(),
    ensures
        decimal_value(s.take(k)) <= decimal_value(s),
    decreases s.len() - k,
{
    if k < s.len() {
        lemma_value_grows(s, k + 1);
        assert(s.take(k + 1).drop_last() == s.take(k));
    } else {
        assert(s.take(k) == s);
    }
}

/// Reads a number.
pub fn parse_u64(s: &str) -> (res: Option<u64>)
    ensures
        res == read_u64(s@),
{
    let chars = chars_of(s);
    let start: usize = if chars.len() > 0 && chars[0] == '+' {
        1
    } else {
        0
    };
    let ghost digits = after_plus(s@);
    assert(digits == chars@.skip(start as int));
    if start == chars.len() {
        return None;
    }
    let mut value: u64 = 0;
    for i in start..chars.len()
        invariant
            chars@ == s@,
            start <= 1,
            start < chars.len(),
            digits == after_plus(s@),
            digits == chars@.skip(start as int),
            forall|j: int| 0 <= j < i - start ==> is_decimal_digit(#[trigger] digits[j]),
            value == decimal_value(digits.take(i - start)),
    {
        let c = chars[i];
        assert(digits[i - start] == c);
        if !(c >= '0' && c <= '9') {
            return None;
        }
        let ghost prefix = digits.take(i - start + 1);
        proof {
            assert(prefix.drop_last() == digits.take(i - start));
            lemma_value_grows(digits, i - start + 1);
        }
        let d: u64 = c as u64 - 48;
        match value.checked_mul(10) {
            None => {
                return None;
            },
            Some(tens) => match tens.checked_add(d) {
                None => {
                    return None;
                },
                Some(sum) => {
                    value = sum;
                },
            },
        }
    }
    assert(digits.take(digits.len() as int) == digits);
    Some(value)
}

proof fn lemma_decimal_reads_back(n: nat)
    ensures
        decimal(n).len() > 0,
        all_decimal_digits(decimal(n)),
        decimal_value(decimal(n)) == n,
    decreases n,
{
    reveal_with_fuel(decimal_value, 2);
    if n >= 10 {
        lemma_decimal_reads_back(n / 10);
        assert(decimal(n).drop_last() == decimal(n / 10));
    } else {
        assert(decimal(n).drop_last() == Seq::<char>::empty());
    }
}

/// A number that is written out and read again is unchanged.
pub proof fn law_number_round_trip(n: u64)
    ensures
        read_u64(decimal(n as nat)) == Some(n),
{
    lemma_decimal_reads_back(n as nat);
    assert(is_decimal_digit(decimal(n as nat)[0]));
}

/// Different numbers are written differently.
pub proof fn law_decimal_is_injective(a: nat, b: nat)
    requires
        decimal(a) == decimal(b),
    ensures
        a == b,
{
    lemma_decimal_reads_back(a);
    lemma_decimal_reads_back(b);
}

/// What digits stand for in a base: one after the other, each is worth as much as the ones before it
/// times the base. The letters from A on follow the digits.
pub open spec fn worth(digits: Seq<char>, base: int) -> int {
    digits.fold_left(
        0int,
        |value: int, c: char|
            base * value + (if c <= '9' {
                c as int - 48
            } else {
                c as int - 55
            }),
    )
}

proof fn lemma_numeral_worth(n: nat, base: nat)
    requires
        base == 10 || base == 16,
    ensures
        worth(numeral(n, base), base as int) == n,
        numeral(n, base).len() > 0,
        n > 0 ==> numeral(n, base)[0] != '0',
        n == 0 ==> numeral(n, base).len() == 1,
        forall|i: int|
            0 <= i < numeral(n, base).len() ==> ('0' <= #[trigger] numeral(n, base)[i] <= '9' || (
            base == 16 && 'A' <= numeral(n, base)[i] <= 'F')),
    decreases n,
{
    reveal_with_fuel(Seq::fold_left, 2);
    let s = numeral(n, base);
    if n >= base {
        let rest = n / base;
        assert(rest < n && rest > 0 && n == base * rest + n % base) by (nonlinear_arith)
            requires
                2 <= base <= n,
                rest == n / base,
        ;
        lemma_numeral_worth(rest, base);
        assert(s.drop_last() =~= numeral(rest, base));
        assert(s[0] == numeral(rest, base)[0]);
        assert forall|i: int| 0 <= i < s.len() implies ('0' <= #[trigger] s[i] <= '9' || (base == 16
            && 'A' <= s[i] <= 'F')) by {
            if i < s.len() - 1 {
                assert(s[i] == numeral(rest, base)[i]);
            }
        }
    } else {
        assert(s.drop_last() =~= Seq::<char>::empty());
    }
}

/// A number in base ten is made of decimal digits, of which the first is not zero unless it is the
/// only one, and these are worth the number.
pub proof fn law_decimal_digits(n: nat, i: int)
    ensures
        worth(decimal(n), 10) == n,
        decimal(n).len() > 0,
        n > 0 ==> decimal(n)[0] != '0',
        n == 0 ==> decimal(n).len() == 1,
        0 <= i < decimal(n).len() ==> '0' <= decimal(n)[i] <= '9',
{
    lemma_numeral_worth(n, 10);
}

/// A number in base sixteen is made of decimal digits and the capitals A to F, of which the first is
/// not zero unless it is the only one, and these are worth the number.
pub proof fn law_hexadecimal_digits(n: nat, i: int)
    ensures
        worth(hexadecimal(n), 16) == n,
        hexadecimal(n).len() > 0,
        n > 0 ==> hexadecimal(n)[0] != '0',
        n == 0 ==> hexadecimal(n).len() == 1,
        0 <= i < hexadecimal(n).len() ==> '0' <= hexadecimal(n)[i] <= '9' || 'A' <= hexadecimal(
            n,
        )[i] <= 'F',
{
    lemma_numeral_worth(n, 16);
}

/// Hundredths are written as the whole number, a point and two digits, which together are worth all
/// the hundredths.
pub proof fn law_two_decimals(hundredths: nat)
    ensures
        ({
            let s = two_decimals(hundredths);
            let n = s.len() - 3;
            let tenth = s[n + 1] as int - 48;
            let hundredth = s[n + 2] as int - 48;
            &&& n > 0
            &&& s[n] == '.'
            &&& 0 <= tenth <= 9 && 0 <= hundredth <= 9
            &&& s.take(n) == decimal(hundredths / 100)
            &&& 100 * worth(s.take(n), 10) + 10 * tenth + hundredth == hundredths
        }),
{
    let s = two_decimals(hundredths);
    law_decimal_digits(hundredths / 100, 0);
    assert(s.take(s.len() - 3) =~= decimal(hundredths / 100));
}

/// Numbers stand in a list one after the other, with a semicolon before each but the first.
pub proof fn law_numbers_are_listed(numbers: Seq<u32>, n: u32)
    ensures
        numbers_text(Seq::empty()) == Seq::<char>::empty(),
        numbers_text(seq![n]) == decimal(n as nat),
        numbers.len() > 0 ==> numbers_text(numbers.push(n)) == numbers_text(numbers) + seq![';']
            + decimal(n as nat),
{
    let parts = numbers.map_values(|n: u32| decimal(n as nat));
    let more = numbers.push(n).map_values(|n: u32| decimal(n as nat));
    assert(more.drop_last() =~= parts);
    if numbers.len() > 0 {
        assert(more.last() == decimal(n as nat));
        assert(joined(parts, ';').push(';') + more.last() =~= joined(parts, ';') + seq![';']
            + decimal(n as nat));
    }
}

proof fn lemma_value_is_worth(digits: Seq<char>)
    requires
        all_decimal_digits(digits),
    ensures
        decimal_value(digits) == worth(digits, 10),
    decreases digits.len(),
{
    if digits.len() > 0 {
        let rest = digits.drop_last();
        assert forall|i: int| 0 <= i < rest.len() implies is_decimal_digit(#[trigger] rest[i]) by {
            assert(rest[i] == digits[i]);
        }
        lemma_value_is_worth(rest);
        assert(is_decimal_digit(digits[digits.len() - 1]));
    }
}

/// A text is a number exactly if it is made of decimal digits, of which there is at least one, and a
/// plus sign may stand before them, and if these are worth no more than 64 bits hold. The number is
/// what they are worth.
pub proof fn law_numbers_are_read(digits: Seq<char>, s: Seq<char>)
    requires
        s == digits && (s.len() > 0 ==> s[0] != '+') || s == seq!['+'] + digits,
    ensures
        read_u64(s) is Some <==> digits.len() > 0 && (forall|i: int|
            0 <= i < digits.len() ==> '0' <= #[trigger] digits[i] <= '9') && worth(digits, 10)
            <= 0xFFFF_FFFF_FFFF_FFFF,
        read_u64(s) is Some ==> read_u64(s)->0 == worth(digits, 10),
{
    assert(after_plus(s) =~= digits);
    if all_decimal_digits(digits) {
        lemma_value_is_worth(digits);
    }
    if forall|i: int| 0 <= i < digits.len() ==> '0' <= #[trigger] digits[i] <= '9' {
        assert forall|i: int| 0 <= i < digits.len() implies is_decimal_digit(
            #[trigger] digits[i],
        ) by {
            assert('0' <= digits[i] <= '9');
        }
    } else if all_decimal_digits(digits) {
        assert forall|i: int| 0 <= i < digits.len() implies '0' <= #[trigger] digits[i] <= '9' by {
            assert(is_decimal_digit(digits[i]));
        }
    }
}

proof fn lemma_order_at(a: Seq<u8>, b: Seq<u8>, i: int)
    requires
        0 <= i <= a.len(),
        i <= b.len(),
        forall|j: int| 0 <= j < i ==> a[j] == b[j],
    ensures
        bytes_before(a, b) == bytes_before(a.skip(i), b.skip(i)),
    decreases i,
{
    if i == 0 {
        assert(a.skip(0) =~= a && b.skip(0) =~= b);
    } else {
        let x = a.skip(1);
        let y = b.skip(1);
        assert(a[0] == b[0]);
        assert forall|j: int| 0 <= j < i - 1 implies x[j] == y[j] by {
            assert(a[j + 1] == b[j + 1]);
        }
        lemma_order_at(x, y, i - 1);
        assert(x.skip(i - 1) =~= a.skip(i));
        assert(y.skip(i - 1) =~= b.skip(i));
    }
}

/// The first byte in which two texts differ decides which comes first; a text comes before those
/// that it begins.
pub proof fn law_order_of_texts(a: Seq<char>, b: Seq<char>, i: int)
    requires
        0 <= i <= encode_utf8(a).len(),
        i <= encode_utf8(b).len(),
        forall|j: int| 0 <= j < i ==> encode_utf8(a)[j] == encode_utf8(b)[j],
    ensures
        i < encode_utf8(a).len() && i < encode_utf8(b).len() && encode_utf8(a)[i] != encode_utf8(
            b,
        )[i] ==> text_before(a, b) == (encode_utf8(a)[i] < encode_utf8(b)[i]),
        i == encode_utf8(a).len() ==> text_before(a, b) == (i < encode_utf8(b).len()),
        i == encode_utf8(b).len() ==> !text_before(a, b),
{
    lemma_order_at(encode_utf8(a), encode_utf8(b), i);
}

/// Lower case makes the letters A to Z small and leaves every other ASCII character.
pub proof fn law_ascii_lowercase(s: Seq<char>, i: int)
    requires
        0 <= i < s.len(),
    ensures
        ascii_lowercase(s).len() == s.len(),
        'A' <= s[i] <= 'Z' ==> ascii_lowercase(s)[i] as int == s[i] as int + 32,
        !('A' <= s[i] <= 'Z') ==> ascii_lowercase(s)[i] == s[i],
        all_ascii(s) <==> forall|j: int| 0 <= j < s.len() ==> (#[trigger] s[j]) as int <= 127,
        lowered(s) == lowercase(ascii_lowercase(s)),
{
    if forall|j: int| 0 <= j < s.len() ==> (#[trigger] s[j]) as int <= 127 {
        assert forall|j: int| 0 <= j < s.len() implies #[trigger] s[j] <= '\x7f' by {
            assert(s[j] as int <= 127);
        }
    } else if all_ascii(s) {
        assert forall|j: int| 0 <= j < s.len() implies (#[trigger] s[j]) as int <= 127 by {
            assert(s[j] <= '\x7f');
        }
    }
}

/// Of a text without its trailing zeros, nothing but zeros at the end is missing, and none is left
/// there.
pub proof fn law_trailing_zeros(s: Seq<char>)
    ensures
        ({
            let left = without_trailing_zeros(s);
            &&& left.len() <= s.len()
            &&& left == s.take(left.len() as int)
            &&& left.len() > 0 ==> left.last() != '\0'
            &&& forall|i: int| left.len() <= i < s.len() ==> #[trigger] s[i] == '\0'
        }),
    decreases s.len(),
{
    let left = without_trailing_zeros(s);
    if s.len() > 0 && s.last() == '\0' {
        let rest = s.drop_last();
        law_trailing_zeros(rest);
        assert(left =~= s.take(left.len() as int));
        assert forall|i: int| left.len() <= i < s.len() implies #[trigger] s[i] == '\0' by {
            if i < rest.len() {
                assert(rest[i] == '\0');
            }
        }
    } else {
        assert(left =~= s.take(left.len() as int));
    }
}

/// The texts of strings are theirs, one by one.
pub proof fn law_texts(strings: Seq<String>, i: int)
    requires
        0 <= i < strings.len(),
    ensures
        texts(strings).len() == strings.len(),
        texts(strings)[i] == strings[i]@,
{
}

} // verus!
