//! Text as the console shows and reads it: decimal numbers, words and values.

use vstd::arithmetic::div_mod::lemma_div_denominator;
use vstd::arithmetic::power::{lemma_pow0, lemma_pow1, lemma_pow_positive, pow};
use vstd::prelude::*;
use vstd::utf8::{decode_utf8, decode_utf8_encode_utf8, encode_utf8, valid_utf8};

verus! {

broadcast use vstd::string::group_string_axioms;

/// The number of bytes that `s` takes in UTF-8.
pub open spec fn byte_len(s: Seq<char>) -> nat {
    encode_utf8(s).len()
}

/// The length of a string in bytes.
pub fn str_bytes(s: &str) -> (n: usize)
    ensures
        n == byte_len(s@),
{
    s.as_bytes().len()
}

/// The characters of a string.
pub fn chars_of(s: &str) -> (chars: Vec<char>)
    ensures
        chars@ == s@,
{
    let mut chars: Vec<char> = Vec::new();
    for c in it: s.chars()
        invariant
            it.seq() == s@,
            chars@ == s@.take(it.index() as int),
    {
        chars.push(c);
        assert(s@.take(it.index() + 1) =~= s@.take(it.index() as int).push(c));
    }
    assert(s@.take(s@.len() as int) =~= s@);
    chars
}

/// Whether two strings hold the same characters.
pub fn same_text(a: &str, b: &str) -> (same: bool)
    ensures
        same == (a@ == b@),
{
    let x: Vec<char> = chars_of(a);
    let y: Vec<char> = chars_of(b);
    if x.len() != y.len() {
        return false;
    }
    let mut i: usize = 0;
    while i < x.len()
        invariant
            i <= x@.len(),
            x@.len() == y@.len(),
            x@ == a@,
            y@ == b@,
            forall|j: int| 0 <= j < i ==> x@[j] == y@[j],
        decreases x@.len() - i,
    {
        if x[i] != y[i] {
            assert(a@[i as int] != b@[i as int]);
            return false;
        }
        i = i + 1;
    }
    assert(a@ =~= b@);
    true
}

// ---------------------------------------------------------------------------------------------
// Decimal numbers
// ---------------------------------------------------------------------------------------------

/// The character of a decimal digit.
pub open spec fn digit(d: nat) -> char {
    if d == 0 {
        '0'
    } else if d == 1 {
        '1'
    } else if d == 2 {
        '2'
    } else if d == 3 {
        '3'
    } else if d == 4 {
        '4'
    } else if d == 5 {
        '5'
    } else if d == 6 {
        '6'
    } else if d == 7 {
        '7'
    } else if d == 8 {
        '8'
    } else {
        '9'
    }
}

/// `n` in decimal, without leading zeros.
pub open spec fn decimal(n: nat) -> Seq<char>
    decreases n,
{
    if n < 10 {
        seq![digit(n)]
    } else {
        decimal(n / 10) + seq![digit(n % 10)]
    }
}

/// `n` in decimal, with a minus sign before a negative number.
pub open spec fn signed_decimal(n: int) -> Seq<char> {
    if n < 0 {
        seq!['-'] + decimal((-n) as nat)
    } else {
        decimal(n as nat)
    }
}

fn digit_text(d: u128) -> (s: &'static str)
    requires
        d < 10,
    ensures
        s@ == seq![digit(d as nat)],
{
    proof {
        reveal_strlit("0");
        reveal_strlit("1");
        reveal_strlit("2");
        reveal_strlit("3");
        reveal_strlit("4");
        reveal_strlit("5");
        reveal_strlit("6");
        reveal_strlit("7");
        reveal_strlit("8");
        reveal_strlit("9");
    }
    let s: &'static str = if d == 0 {
        "0"
    } else if d == 1 {
        "1"
    } else if d == 2 {
        "2"
    } else if d == 3 {
        "3"
    } else if d == 4 {
        "4"
    } else if d == 5 {
        "5"
    } else if d == 6 {
        "6"
    } else if d == 7 {
        "7"
    } else if d == 8 {
        "8"
    } else {
        "9"
    };
    assert(s@ =~= seq![digit(d as nat)]);
    s
}

/// Appends `n` in decimal.
pub fn push_decimal(out: &mut String, n: u128)
    ensures
        final(out)@ == old(out)@ + decimal(n as nat),
    decreases n,
{
    let ghost before = out@;
    if n < 10 {
        out.append(digit_text(n));
    } else {
        push_decimal(out, n / 10);
        out.append(digit_text(n % 10));
        assert(out@ =~= before + decimal(n as nat));
    }
}

/// `n` in decimal.
pub fn decimal_text(n: u128) -> (s: String)
    ensures
        s@ == decimal(n as nat),
{
    let mut s: String = String::new();
    push_decimal(&mut s, n);
    assert(s@ =~= decimal(n as nat));
    s
}

/// Appends `n` in decimal, with its sign where it is negative.
pub fn push_signed(out: &mut String, n: i128)
    requires
        n > i128::MIN,
    ensures
        final(out)@ == old(out)@ + signed_decimal(n as int),
{
    let ghost before = out@;
    if n < 0 {
        proof {
            reveal_strlit("-");
        }
        out.append("-");
        push_decimal(out, (-n) as u128);
        assert(out@ =~= before + signed_decimal(n as int));
    } else {
        push_decimal(out, n as u128);
    }
}

/// Whether `c` is one of the ten decimal digits.
pub open spec fn is_digit(c: char) -> bool {
    '0' <= c <= '9'
}

/// The number that a run of decimal digits spells.
pub open spec fn number(s: Seq<char>) -> nat
    decreases s.len(),
{
    if s.len() == 0 {
        0
    } else {
        number(s.drop_last()) * 10 + (s.last() as nat - '0' as nat) as nat
    }
}

/// What is left of a number's text once a leading plus sign is dropped. A lone plus sign stays.
pub open spec fn unsigned_part(s: Seq<char>) -> Seq<char> {
    if s.len() > 1 && s[0] == '+' {
        s.drop_first()
    } else {
        s
    }
}

/// A 128-bit number in decimal: an optional plus sign, then at least one digit and nothing else,
/// with a value that fits.
pub open spec fn parsed_u128(s: Seq<char>) -> Option<u128> {
    let digits = unsigned_part(s);
    if digits.len() > 0 && (forall|i: int| 0 <= i < digits.len() ==> is_digit(#[trigger] digits[i]))
        && number(digits) <= u128::MAX {
        Some(number(digits) as u128)
    } else {
        None
    }
}

proof fn lemma_number_grows(s: Seq<char>, n: int)
    requires
        0 <= n <= s.len(),
        forall|i: int| 0 <= i < s.len() ==> is_digit(#[trigger] s[i]),
    ensures
        number(s.take(n)) <= number(s),
    decreases s.len(),
{
    if n < s.len() {
        let front = s.drop_last();
        assert(front.take(n) =~= s.take(n));
        lemma_number_grows(front, n);
    } else {
        assert(s.take(n) =~= s);
    }
}

/// Reads a 128-bit number in decimal.
pub fn parse_u128(s: &str) -> (parsed: Option<u128>)
    ensures
        parsed == parsed_u128(s@),
{
    let chars: Vec<char> = chars_of(s);
    let start: usize = if chars.len() > 1 && chars[0] == '+' {
        1
    } else {
        0
    };
    let ghost digits = unsigned_part(s@);
    assert(digits =~= chars@.skip(start as int));
    if chars.len() == 0 {
        return None;
    }
    let mut n: u128 = 0;
    let mut i: usize = start;
    assert(digits.take(0) =~= Seq::<char>::empty());
    while i < chars.len()
        invariant
            start <= i <= chars@.len(),
            chars@ == s@,
            digits == unsigned_part(s@),
            digits == chars@.skip(start as int),
            forall|j: int| 0 <= j < i - start ==> is_digit(#[trigger] digits[j]),
            n == number(digits.take(i - start)),
        decreases chars@.len() - i,
    {
        let c: char = chars[i];
        let ghost at = i - start;
        assert(digits[at] == c);
        if !('0' <= c && c <= '9') {
            assert(!is_digit(digits[at]));
            return None;
        }
        let d: u128 = (c as u32 - '0' as u32) as u128;
        assert(digits.take(at + 1).drop_last() =~= digits.take(at));
        if n > (u128::MAX - d) / 10 {
            proof {
                if parsed_u128(s@) is Some {
                    lemma_number_grows(digits, at + 1);
                }
            }
            return None;
        }
        n = n * 10 + d;
        i = i + 1;
    }
    assert(digits.take(digits.len() as int) =~= digits);
    Some(n)
}

proof fn lemma_decimal_reads_back(n: nat)
    ensures
        decimal(n).len() > 0,
        forall|i: int| 0 <= i < decimal(n).len() ==> is_digit(#[trigger] decimal(n)[i]),
        number(decimal(n)) == n,
    decreases n,
{
    reveal_with_fuel(number, 2);
    if n < 10 {
        assert(decimal(n).drop_last() =~= Seq::<char>::empty());
    } else {
        lemma_decimal_reads_back(n / 10);
        assert(decimal(n).drop_last() =~= decimal(n / 10));
    }
}

/// A number written in decimal is read back as the same number.
pub proof fn decimal_read_back(n: u128)
    ensures
        parsed_u128(decimal(n as nat)) == Some(n),
{
    lemma_decimal_reads_back(n as nat);
    assert(decimal(n as nat)[0] != '+') by {
        assert(is_digit(decimal(n as nat)[0]));
    }
}

// ---------------------------------------------------------------------------------------------
// Words
// ---------------------------------------------------------------------------------------------

/// Whether `c` has the Unicode property White_Space.
pub open spec fn is_white(c: char) -> bool {
    let v = c as u32;
    ||| 0x9 <= v <= 0xd
    ||| v == 0x20
    ||| v == 0x85
    ||| v == 0xa0
    ||| v == 0x1680
    ||| 0x2000 <= v <= 0x200a
    ||| v == 0x2028
    ||| v == 0x2029
    ||| v == 0x202f
    ||| v == 0x205f
    ||| v == 0x3000
}

fn white(c: char) -> (w: bool)
    ensures
        w == is_white(c),
{
    let v: u32 = c as u32;
    (0x9 <= v && v <= 0xd) || v == 0x20 || v == 0x85 || v == 0xa0 || v == 0x1680 || (0x2000 <= v
        && v <= 0x200a) || v == 0x2028 || v == 0x2029 || v == 0x202f || v == 0x205f || v == 0x3000
}

/// The length of the word that `s` begins with.
pub open spec fn word_len(s: Seq<char>) -> nat
    decreases s.len(),
{
    if s.len() == 0 || is_white(s[0]) {
        0
    } else {
        1 + word_len(s.drop_first())
    }
}

/// A word is no longer than what it begins.
pub proof fn word_len_bound(s: Seq<char>)
    ensures
        word_len(s) <= s.len(),
    decreases s.len(),
{
    if s.len() > 0 && !is_white(s[0]) {
        word_len_bound(s.drop_first());
    }
}

/// The maximal runs of characters without white space, in order.
pub open spec fn words(s: Seq<char>) -> Seq<Seq<char>>
    decreases s.len(),
{
    if s.len() == 0 {
        Seq::empty()
    } else if is_white(s[0]) {
        words(s.drop_first())
    } else {
        proof {
            word_len_bound(s);
        }
        seq![s.take(word_len(s) as int)] + words(s.skip(word_len(s) as int))
    }
}

/// The views of a list of strings.
pub open spec fn views(list: Seq<String>) -> Seq<Seq<char>> {
    list.map_values(|s: String| s@)
}

pub proof fn views_push(list: Seq<String>, s: String)
    ensures
        views(list.push(s)) == views(list).push(s@),
{
    assert(views(list.push(s)) =~= views(list).push(s@));
}

fn word_end(chars: &Vec<char>, start: usize) -> (end: usize)
    requires
        start <= chars@.len(),
    ensures
        end == start + word_len(chars@.skip(start as int)),
        end <= chars@.len(),
{
    let mut i: usize = start;
    let ghost whole = word_len(chars@.skip(start as int));
    while i < chars.len() && !white(chars[i])
        invariant
            start <= i <= chars@.len(),
            whole == (i - start) + word_len(chars@.skip(i as int)),
        decreases chars@.len() - i,
    {
        assert(chars@.skip(i as int).drop_first() =~= chars@.skip(i + 1));
        i = i + 1;
    }
    i
}

/// Splits a string at white space.
pub fn split_words(s: &str) -> (list: Vec<String>)
    ensures
        views(list@) == words(s@),
{
    let chars: Vec<char> = chars_of(s);
    let mut list: Vec<String> = Vec::new();
    let mut i: usize = 0;
    assert(chars@.skip(0) =~= chars@);
    assert(views(list@) + words(chars@) =~= words(s@));
    while i < chars.len()
        invariant
            i <= chars@.len(),
            chars@ == s@,
            views(list@) + words(chars@.skip(i as int)) == words(s@),
        decreases chars@.len() - i,
    {
        let ghost rest = chars@.skip(i as int);
        if white(chars[i]) {
            assert(rest.drop_first() =~= chars@.skip(i + 1));
            i = i + 1;
        } else {
            let end: usize = word_end(&chars, i);
            let word: String = s.substring_char(i, end).to_owned();
            let ghost before = list@;
            list.push(word);
            proof {
                views_push(before, word);
                let n = word_len(rest) as int;
                assert(n > 0);
                assert(word@ =~= rest.take(n));
                assert(rest.skip(n) =~= chars@.skip(end as int));
                assert(views(list@) + words(chars@.skip(end as int)) =~= views(before) + words(
                    rest,
                ));
            }
            i = end;
        }
    }
    assert(views(list@) =~= words(s@));
    list
}

// ---------------------------------------------------------------------------------------------
// Bytes as text, and lists
// ---------------------------------------------------------------------------------------------

/// Calls `std::str::from_utf8` and copies the string out. Trusted: it succeeds exactly on valid
/// UTF-8, and the string is what the bytes encode.
#[verifier::external_body]
pub(crate) fn utf8_text(bytes: &[u8]) -> (s: Option<String>)
    ensures
        match s {
            Some(s) => valid_utf8(bytes@) && s@ == decode_utf8(bytes@),
            None => !valid_utf8(bytes@),
        },
{
    std::str::from_utf8(bytes).ok().map(|s| s.to_owned())
}

/// A string in lower case, as Unicode maps it.
pub uninterp spec fn lowercase(s: Seq<char>) -> Seq<char>;

/// Calls `str::to_lowercase`. Trusted: the result is a function of the string alone.
#[verifier::external_body]
pub(crate) fn lowercase_text(s: &str) -> (lower: String)
    ensures
        lower@ == lowercase(s@),
{
    s.to_lowercase()
}

/// The items of a list, in order, with `sep` between them.
pub open spec fn joined(list: Seq<Seq<char>>, sep: Seq<char>) -> Seq<char>
    decreases list.len(),
{
    if list.len() == 0 {
        Seq::empty()
    } else if list.len() == 1 {
        list[0]
    } else {
        joined(list.drop_last(), sep) + sep + list.last()
    }
}

/// Joins strings with a separator.
pub fn join_texts(list: &Vec<String>, sep: &str) -> (s: String)
    ensures
        s@ == joined(views(list@), sep@),
{
    let mut s: String = String::new();
    let ghost all = views(list@);
    let mut i: usize = 0;
    assert(s@ =~= joined(all.take(0), sep@));
    while i < list.len()
        invariant
            i <= list@.len(),
            all == views(list@),
            s@ == joined(all.take(i as int), sep@),
        decreases list@.len() - i,
    {
        let ghost before = s@;
        if i > 0 {
            s.append(sep);
        }
        s.append(list[i].as_str());
        proof {
            let longer = all.take(i + 1);
            assert(longer.drop_last() =~= all.take(i as int));
            assert(longer.last() == list@[i as int]@);
            if i == 0 {
                assert(before =~= Seq::<char>::empty());
                assert(s@ =~= longer[0]);
            }
            assert(s@ =~= joined(longer, sep@));
        }
        i = i + 1;
    }
    assert(all.take(list@.len() as int) =~= all);
    s
}

/// Each byte of a byte string in decimal.
pub open spec fn byte_texts(bytes: Seq<u8>) -> Seq<Seq<char>> {
    bytes.map_values(|b: u8| decimal(b as nat))
}

/// A byte string as a list of numbers in square brackets.
pub open spec fn byte_list(bytes: Seq<u8>) -> Seq<char> {
    "["@ + joined(byte_texts(bytes), ", "@) + "]"@
}

/// A byte string as a list of numbers in square brackets.
pub fn byte_list_text(bytes: &[u8]) -> (s: String)
    ensures
        s@ == byte_list(bytes@),
{
    let mut list: Vec<String> = Vec::new();
    let mut i: usize = 0;
    while i < bytes.len()
        invariant
            i <= bytes@.len(),
            views(list@) == byte_texts(bytes@.take(i as int)),
        decreases bytes@.len() - i,
    {
        let ghost before = list@;
        let item: String = decimal_text(bytes[i] as u128);
        list.push(item);
        proof {
            views_push(before, item);
            assert(views(list@) =~= byte_texts(bytes@.take(i + 1)));
        }
        i = i + 1;
    }
    assert(bytes@.take(bytes@.len() as int) =~= bytes@);
    let mut s: String = "[".to_owned();
    s.append(join_texts(&list, ", ").as_str());
    s.append("]");
    s
}

/// A value as it is shown: as text where it is valid UTF-8, else as a list of its bytes.
pub open spec fn shown_value(value: Seq<u8>) -> Seq<char> {
    if valid_utf8(value) {
        decode_utf8(value)
    } else {
        byte_list(value)
    }
}

/// A stored value with its key.
pub open spec fn entry_line(key: u128, value: Seq<u8>) -> Seq<char> {
    decimal(key as nat) + ": "@ + shown_value(value)
}

/// A stored value with its key.
pub fn entry_text(key: u128, value: &[u8]) -> (s: String)
    ensures
        s@ == entry_line(key, value@),
{
    let mut s: String = decimal_text(key);
    s.append(": ");
    match utf8_text(value) {
        Some(shown) => {
            s.append(shown.as_str());
        },
        None => {
            s.append(byte_list_text(value).as_str());
        },
    }
    s
}

/// The number of bytes of a value that a log line shows.
pub const HEAD_BYTES: usize = 40;

/// The beginning of a value, for a log line: the first bytes as text, with dots behind them
/// where there are as many as a log line shows, or a remark where they are not valid UTF-8.
pub open spec fn head(value: Seq<u8>) -> Seq<char> {
    let n = if value.len() < HEAD_BYTES {
        value.len() as int
    } else {
        HEAD_BYTES as int
    };
    if !valid_utf8(value.take(n)) {
        "[unprintable]"@
    } else if n == HEAD_BYTES {
        decode_utf8(value.take(n)) + "..."@
    } else {
        decode_utf8(value.take(n))
    }
}

/// The beginning of a value, for a log line.
pub fn head_text(value: &[u8]) -> (s: String)
    ensures
        s@ == head(value@),
{
    let n: usize = if value.len() < HEAD_BYTES {
        value.len()
    } else {
        HEAD_BYTES
    };
    let first: &[u8] = vstd::slice::slice_subrange(value, 0, n);
    assert(first@ =~= value@.take(n as int));
    match utf8_text(first) {
        Some(mut shown) => {
            if n == HEAD_BYTES {
                shown.append("...");
            }
            shown
        },
        None => "[unprintable]".to_owned(),
    }
}

// ---------------------------------------------------------------------------------------------
// What texts mean
// ---------------------------------------------------------------------------------------------

/// A number is written with its decimal digits, the lowest last: the digit at place `i` from the
/// end is the number divided by ten as often as `i` says, and of that what is left over by ten.
/// There are as many digits as it takes, and one for zero.
pub proof fn decimals_are_digits(n: nat, i: int)
    requires
        0 <= i < decimal(n).len(),
    ensures
        decimal(n)[decimal(n).len() - 1 - i] as u32 == '0' as u32 + (n as int / pow(10, i as nat))
            % 10,
        n < pow(10, decimal(n).len()),
        n == 0 && decimal(n).len() == 1 || n >= pow(10, (decimal(n).len() - 1) as nat),
    decreases n,
{
    lemma_pow0(10);
    lemma_pow1(10);
    if n < 10 {
        assert(n as int / 1 == n);
    } else {
        let front = decimal(n / 10);
        let len = decimal(n).len();
        assert(front.len() >= 1) by {
            lemma_decimal_is_not_empty(n / 10);
        }
        decimals_are_digits(n / 10, if i > 0 { i - 1 } else { 0 });
        reveal(pow);
        assert(pow(10, len) == 10 * pow(10, (len - 1) as nat));
        assert(pow(10, (len - 1) as nat) == 10 * pow(10, (len - 2) as nat));
        lemma_pow_positive(10, (len - 2) as nat);
        if i == 0 {
            assert(n as int / 1 == n);
        } else {
            lemma_pow_positive(10, (i - 1) as nat);
            lemma_div_denominator(n as int, 10, pow(10, (i - 1) as nat));
            assert(decimal(n)[len - 1 - i] == front[front.len() - 1 - (i - 1)]);
        }
    }
}

proof fn lemma_decimal_is_not_empty(n: nat)
    ensures
        decimal(n).len() >= 1,
    decreases n,
{
    if n >= 10 {
        lemma_decimal_is_not_empty(n / 10);
    }
}

/// A negative number is written as its opposite behind a minus sign, another as it is.
pub proof fn a_negative_number_has_a_sign(n: nat)
    ensures
        signed_decimal(n as int) == decimal(n),
        n > 0 ==> signed_decimal(-(n as int)) == seq!['-'] + decimal(n),
{
}

/// What spells a number, and what does not. Only digits do, and at least one; each further digit
/// makes ten times as much of what stands before it; a plus sign may stand in front; and a number
/// that does not fit in 128 bits is none.
pub proof fn digits_spell_a_number(s: Seq<char>, c: char)
    ensures
        number(Seq::<char>::empty()) == 0,
        '0' <= c <= '9' ==> number(s.push(c)) == 10 * number(s) + (c as u32 - '0' as u32),
        parsed_u128(Seq::<char>::empty()) is None,
        s.len() > 0 && (forall|i: int| 0 <= i < s.len() ==> '0' <= #[trigger] s[i] <= '9')
            && number(s) <= u128::MAX ==> parsed_u128(s) == Some(number(s) as u128),
        (forall|i: int| 0 <= i < s.len() ==> '0' <= #[trigger] s[i] <= '9') && number(s) > u128::MAX
            ==> parsed_u128(s) is None,
        (exists|i: int| 0 < i < s.len() && !('0' <= #[trigger] s[i] <= '9')) ==> parsed_u128(s)
            is None,
        s.len() > 0 && s[0] != '+' && !('0' <= s[0] <= '9') ==> parsed_u128(s) is None,
        s.len() > 0 && s[0] != '+' ==> parsed_u128(seq!['+'] + s) == parsed_u128(s),
        parsed_u128(seq!['+']) is None,
{
    assert(s.push(c).drop_last() =~= s);
    let plus = seq!['+'] + s;
    assert(plus.drop_first() =~= s);
    if exists|i: int| 0 < i < s.len() && !('0' <= #[trigger] s[i] <= '9') {
        let i = choose|i: int| 0 < i < s.len() && !('0' <= #[trigger] s[i] <= '9');
        let digits = unsigned_part(s);
        let j = if s.len() > 1 && s[0] == '+' { i - 1 } else { i };
        assert(digits[j] == s[i]);
        assert(!is_digit(digits[j]));
    }
    if s.len() > 0 && (forall|i: int| 0 <= i < s.len() ==> '0' <= #[trigger] s[i] <= '9') {
        assert('0' <= s[0] <= '9');
        assert forall|i: int| 0 <= i < s.len() implies is_digit(#[trigger] s[i]) by {
            assert('0' <= s[i] <= '9');
        }
    }
    if s.len() > 0 && s[0] != '+' && !('0' <= s[0] <= '9') {
        assert(!is_digit(unsigned_part(s)[0]));
    }
    assert(!is_digit(unsigned_part(seq!['+'])[0]));
}

/// White space is what Unicode calls so.
pub proof fn white_space_is_known(c: char)
    ensures
        is_white(c) <==> {
            let v = c as u32;
            ||| v == 9 || v == 10 || v == 11 || v == 12 || v == 13
            ||| v == 0x20 || v == 0x85 || v == 0xa0 || v == 0x1680
            ||| v >= 0x2000 && v <= 0x200a
            ||| v == 0x2028 || v == 0x2029 || v == 0x202f || v == 0x205f || v == 0x3000
        },
{
}

proof fn lemma_word_len_before_white(a: Seq<char>, t: Seq<char>)
    requires
        t.len() > 0,
        is_white(t[0]),
    ensures
        word_len(a + t) == word_len(a),
    decreases a.len(),
{
    if a.len() == 0 {
        assert(a + t =~= t);
    } else {
        lemma_word_len_before_white(a.drop_first(), t);
        assert((a + t).drop_first() =~= a.drop_first() + t);
    }
}

/// White space divides: the words of a text with white space in it are those before it and those
/// behind it, in this order.
pub proof fn white_space_divides_words(a: Seq<char>, white: char, b: Seq<char>)
    requires
        is_white(white),
    ensures
        words(a + seq![white] + b) == words(a) + words(b),
    decreases a.len(),
{
    let t = seq![white] + b;
    let whole = a + seq![white] + b;
    assert(whole =~= a + t);
    if a.len() == 0 {
        assert(whole =~= t);
        assert(t.drop_first() =~= b);
        assert(words(a) + words(b) =~= words(b));
    } else if is_white(a[0]) {
        white_space_divides_words(a.drop_first(), white, b);
        assert(whole.drop_first() =~= a.drop_first() + seq![white] + b);
    } else {
        let n = word_len(a) as int;
        word_len_bound(a);
        lemma_word_len_before_white(a, t);
        assert(whole.take(n) =~= a.take(n));
        assert(whole.skip(n) =~= a.skip(n) + seq![white] + b);
        white_space_divides_words(a.skip(n), white, b);
        assert(words(whole) =~= words(a) + words(b));
    }
}

/// A text without white space is one word, and the empty text has none.
pub proof fn a_text_without_white_space_is_a_word(s: Seq<char>)
    requires
        forall|i: int| 0 <= i < s.len() ==> !is_white(#[trigger] s[i]),
    ensures
        s.len() == 0 ==> words(s) == Seq::<Seq<char>>::empty(),
        s.len() > 0 ==> words(s) == seq![s],
{
    if s.len() > 0 {
        lemma_whole_word(s);
        assert(s.take(s.len() as int) =~= s);
        assert(s.skip(s.len() as int) =~= Seq::<char>::empty());
        assert(words(s.skip(s.len() as int)) =~= Seq::<Seq<char>>::empty());
        assert(words(s) =~= seq![s]);
    }
}

proof fn lemma_whole_word(s: Seq<char>)
    requires
        forall|i: int| 0 <= i < s.len() ==> !is_white(#[trigger] s[i]),
    ensures
        word_len(s) == s.len(),
    decreases s.len(),
{
    if s.len() > 0 {
        let rest = s.drop_first();
        assert forall|i: int| 0 <= i < rest.len() implies !is_white(#[trigger] rest[i]) by {
            assert(rest[i] == s[i + 1]);
        }
        lemma_whole_word(rest);
    }
}

/// Joining puts the separator before each item but the first.
pub proof fn a_separator_stands_between_items(list: Seq<Seq<char>>, item: Seq<char>, sep: Seq<char>)
    ensures
        joined(Seq::<Seq<char>>::empty(), sep) == Seq::<char>::empty(),
        joined(seq![item], sep) == item,
        list.len() > 0 ==> joined(list.push(item), sep) == joined(list, sep) + sep + item,
{
    assert(list.push(item).drop_last() =~= list);
}

/// A value is shown behind its key. Where its bytes are a text, it is shown as that text and can be
/// read back from it; else each byte is shown as a number.
pub proof fn a_value_is_shown_behind_its_key(key: u128, value: Seq<u8>)
    ensures
        entry_line(key, value) == decimal(key as nat) + ": "@ + shown_value(value),
        valid_utf8(value) ==> encode_utf8(shown_value(value)) == value,
        !valid_utf8(value) ==> shown_value(value) == "["@ + joined(
            Seq::new(value.len(), |i: int| decimal(value[i] as nat)),
            ", "@,
        ) + "]"@,
{
    if valid_utf8(value) {
        decode_utf8_encode_utf8(value);
    }
    assert(byte_texts(value) =~= Seq::new(value.len(), |i: int| decimal(value[i] as nat)));
}

/// A log line shows the first 40 bytes of a value and no more: as the text that they are, with dots
/// behind it where there are 40, or a remark where they are none.
pub proof fn the_head_of_a_value_is_its_first_bytes(value: Seq<u8>)
    ensures
        value.len() < 40 && valid_utf8(value) ==> encode_utf8(head(value)) == value,
        value.len() < 40 && !valid_utf8(value) ==> head(value) == "[unprintable]"@,
        value.len() >= 40 && valid_utf8(value.take(40)) ==> head(value) == decode_utf8(
            value.take(40),
        ) + "..."@,
        value.len() >= 40 && !valid_utf8(value.take(40)) ==> head(value) == "[unprintable]"@,
{
    if value.len() < 40 {
        assert(value.take(value.len() as int) =~= value);
        if valid_utf8(value) {
            decode_utf8_encode_utf8(value);
        }
    }
}

/// The views of a list of strings are the strings, in their order.
pub proof fn views_are_the_strings(list: Seq<String>)
    ensures
        views(list).len() == list.len(),
        forall|i: int| 0 <= i < list.len() ==> #[trigger] views(list)[i] == list[i]@,
{
}

/// The length of a text is counted in bytes of UTF-8, which are one for each character of ASCII.
pub proof fn lengths_are_counted_in_bytes(s: Seq<char>)
    ensures
        byte_len(s) == encode_utf8(s).len(),
        vstd::utf8::is_ascii_chars(s) ==> byte_len(s) == s.len(),
{
    if vstd::utf8::is_ascii_chars(s) {
        vstd::utf8::is_ascii_chars_encode_utf8(s);
    }
}

} // verus!
