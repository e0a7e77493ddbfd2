//! Text primitives: character sequences, trimming, decimal numbers and splitting.
//!
//! Every function works on the characters of a string. The contracts speak of `Seq<char>`,
//! which is the view of `str` and `String`.
use vstd::prelude::*;

verus! {

/// `String::push` appends one character.
pub assume_specification[ String::push ](s: &mut String, c: char)
    ensures
        final(s)@ == old(s)@.push(c),
;

/// The characters of `s`, in order.
pub fn chars_of(s: &str) -> (r: Vec<char>)
    ensures
        r@ == s@,
{
    let mut r: Vec<char> = Vec::new();
    for c in it: s.chars()
        invariant
            r@ == it.seq().take(it.index() as int),
            it.seq() == s@,
    {
        r.push(c);
    }
    assert(s@.take(s@.len() as int) == s@);
    r
}

/// The Unicode scalar value of `c`.
pub fn code_of(c: char) -> (r: u32)
    ensures
        r == c as int,
        r <= 0x10ffff,
{
    c as u32
}

/// The string made of `chars[from..to]`.
pub fn string_from(chars: &Vec<char>, from: usize, to: usize) -> (r: String)
    requires
        from <= to <= chars@.len(),
    ensures
        r@ == chars@.subrange(from as int, to as int),
{
    let mut r = String::new();
    let mut i: usize = from;
    while i < to
        invariant
            from <= i <= to <= chars@.len(),
            r@ == chars@.subrange(from as int, i as int),
        decreases to - i,
    {
        r.push(chars[i]);
        i = i + 1;
        assert(chars@.subrange(from as int, i as int) == chars@.subrange(
            from as int,
            i - 1,
        ).push(chars@[i - 1]));
    }
    r
}

/// The string made of all of `chars`.
pub fn string_of(chars: &Vec<char>) -> (r: String)
    ensures
        r@ == chars@,
{
    let n: usize = chars.len();
    let r = string_from(chars, 0, n);
    assert(chars@.subrange(0, n as int) == chars@);
    r
}

/// Whether two strings hold the same characters.
pub fn same_text(a: &str, b: &str) -> (r: bool)
    ensures
        r == (a@ == b@),
{
    let x = chars_of(a);
    let y = chars_of(b);
    if x.len() != y.len() {
        return false;
    }
    let mut i: usize = 0;
    while i < x.len()
        invariant
            x@ == a@,
            y@ == b@,
            x@.len() == y@.len(),
            i <= x@.len(),
            forall|k: int| 0 <= k < i ==> x@[k] == y@[k],
        decreases x@.len() - i,
    {
        if x[i] != y[i] {
            return false;
        }
        i = i + 1;
    }
    assert(a@ == b@);
    true
}

/// The Unicode property White_Space.
pub open spec fn white_space(c: char) -> bool {
    let n = c as u32;
    ||| 0x9 <= n <= 0xd
    ||| n == 0x20
    ||| n == 0x85
    ||| n == 0xa0
    ||| n == 0x1680
    ||| 0x2000 <= n <= 0x200a
    ||| n == 0x2028
    ||| n == 0x2029
    ||| n == 0x202f
    ||| n == 0x205f
    ||| n == 0x3000
}

/// Whether `c` has the Unicode property White_Space.
pub fn is_white_space(c: char) -> (r: bool)
    ensures
        r == white_space(c),
{
    let n: u32 = c as u32;
    (0x9 <= n && n <= 0xd) || n == 0x20 || n == 0x85 || n == 0xa0 || n == 0x1680 || (0x2000 <= n
        && n <= 0x200a) || n == 0x2028 || n == 0x2029 || n == 0x202f || n == 0x205f || n == 0x3000
}

/// `s` without its leading white space.
pub open spec fn trim_start(s: Seq<char>) -> Seq<char>
    decreases s.len(),
{
    if s.len() > 0 && white_space(s[0]) {
        trim_start(s.subrange(1, s.len() as int))
    } else {
        s
    }
}

/// `s` without its trailing white space.
pub open spec fn trim_end(s: Seq<char>) -> Seq<char>
    decreases s.len(),
{
    if s.len() > 0 && white_space(s.last()) {
        trim_end(s.drop_last())
    } else {
        s
    }
}

/// `s` without white space at either end.
pub open spec fn trimmed(s: Seq<char>) -> Seq<char> {
    trim_end(trim_start(s))
}

/// A text without leading white space begins with another character.
proof fn lemma_trim_start(s: Seq<char>)
    ensures
        trim_start(s).len() > 0 ==> !white_space(trim_start(s)[0]),
    decreases s.len(),
{
    if s.len() > 0 && white_space(s[0]) {
        lemma_trim_start(s.subrange(1, s.len() as int));
    }
}

/// A text without trailing white space ends with another character; its beginning is that of the
/// text.
proof fn lemma_trim_end(s: Seq<char>)
    ensures
        trim_end(s).len() > 0 ==> !white_space(trim_end(s).last()),
        trim_end(s).is_prefix_of(s),
    decreases s.len(),
{
    if s.len() > 0 && white_space(s.last()) {
        lemma_trim_end(s.drop_last());
        assert(trim_end(s) =~= s.subrange(0, trim_end(s).len() as int));
    }
}

/// A trimmed text neither begins nor ends with white space.
pub proof fn lemma_trimmed_ends(s: Seq<char>)
    ensures
        trimmed(s).len() > 0 ==> !white_space(trimmed(s)[0]) && !white_space(trimmed(s).last()),
{
    lemma_trim_start(s);
    lemma_trim_end(trim_start(s));
}

/// A text that neither begins nor ends with white space is trimmed.
pub proof fn lemma_bare_text_stays(s: Seq<char>)
    requires
        s.len() > 0 ==> !white_space(s[0]) && !white_space(s.last()),
    ensures
        trimmed(s) == s,
{
}

/// Trimming takes away white space that was put in front.
proof fn lemma_trim_start_of_padded(before: Seq<char>, s: Seq<char>)
    requires
        forall|i: int| 0 <= i < before.len() ==> white_space(#[trigger] before[i]),
    ensures
        trim_start(before + s) == trim_start(s),
    decreases before.len(),
{
    if before.len() == 0 {
        assert(before + s =~= s);
    } else {
        let rest = before.subrange(1, before.len() as int);
        assert((before + s).subrange(1, (before + s).len() as int) =~= rest + s);
        assert((before + s)[0] == before[0]);
        lemma_trim_start_of_padded(rest, s);
    }
}

/// Trimming takes away white space that was put behind.
proof fn lemma_trim_end_of_padded(s: Seq<char>, after: Seq<char>)
    requires
        forall|i: int| 0 <= i < after.len() ==> white_space(#[trigger] after[i]),
    ensures
        trim_end(s + after) == trim_end(s),
    decreases after.len(),
{
    if after.len() == 0 {
        assert(s + after =~= s);
    } else {
        assert((s + after).drop_last() =~= s + after.drop_last());
        assert((s + after).last() == after.last());
        lemma_trim_end_of_padded(s, after.drop_last());
    }
}

/// Leading white space of a text with more white space behind it: the same is left.
proof fn lemma_trim_start_keeps_tail(s: Seq<char>, after: Seq<char>)
    requires
        forall|i: int| 0 <= i < after.len() ==> white_space(#[trigger] after[i]),
    ensures
        trim_end(trim_start(s + after)) == trim_end(trim_start(s)),
    decreases s.len(),
{
    if s.len() == 0 {
        assert(s + after =~= after);
        assert(after + Seq::<char>::empty() =~= after);
        lemma_trim_start_of_padded(after, Seq::empty());
    } else if white_space(s[0]) {
        let rest = s.subrange(1, s.len() as int);
        assert((s + after).subrange(1, (s + after).len() as int) =~= rest + after);
        assert((s + after)[0] == s[0]);
        lemma_trim_start_keeps_tail(rest, after);
    } else {
        assert((s + after)[0] == s[0]);
        lemma_trim_end_of_padded(s, after);
    }
}

/// White space around a text is what trimming takes away.
pub proof fn lemma_trim_of_padded(before: Seq<char>, s: Seq<char>, after: Seq<char>)
    requires
        forall|i: int| 0 <= i < before.len() ==> white_space(#[trigger] before[i]),
        forall|i: int| 0 <= i < after.len() ==> white_space(#[trigger] after[i]),
    ensures
        trimmed(before + s + after) == trimmed(s),
{
    assert(before + s + after =~= before + (s + after));
    lemma_trim_start_of_padded(before, s + after);
    lemma_trim_start_keeps_tail(s, after);
}

/// `s` without white space at either end.
pub fn trim(s: &str) -> (r: String)
    ensures
        r@ == trimmed(s@),
{
    let c = chars_of(s);
    let n: usize = c.len();
    let mut i: usize = 0;
    assert(c@.subrange(0, n as int) == c@);
    while i < n && is_white_space(c[i])
        invariant
            c@ == s@,
            n == c@.len(),
            i <= n,
            trim_start(c@.subrange(i as int, n as int)) == trim_start(c@),
        decreases n - i,
    {
        assert(c@.subrange(i as int, n as int).subrange(1, n - i) == c@.subrange(i + 1, n as int));
        i = i + 1;
    }
    let ghost rest = c@.subrange(i as int, n as int);
    assert(trim_start(c@) == rest);
    let mut j: usize = n;
    while j > i && is_white_space(c[j - 1])
        invariant
            n == c@.len(),
            i <= j <= n,
            rest == c@.subrange(i as int, n as int),
            trim_end(c@.subrange(i as int, j as int)) == trim_end(rest),
        decreases j,
    {
        assert(c@.subrange(i as int, j as int).drop_last() == c@.subrange(i as int, j - 1));
        j = j - 1;
    }
    string_from(&c, i, j)
}

/// Whether `s` holds nothing but white space.
pub fn is_blank(s: &str) -> (r: bool)
    ensures
        r == (trimmed(s@).len() == 0),
{
    trim(s).as_str().is_empty()
}

/// The decimal digit `d` as a character.
pub open spec fn digit_char(d: int) -> char {
    (48 + d) as char
}

/// The number `n` in decimal, without leading zeros.
pub open spec fn decimal(n: nat) -> Seq<char>
    decreases n,
{
    if n < 10 {
        seq![digit_char(n as int)]
    } else {
        decimal(n / 10).push(digit_char((n % 10) as int))
    }
}

/// The number `n` in decimal, with a leading minus sign when it is negative.
pub open spec fn signed_decimal(n: int) -> Seq<char> {
    if n < 0 {
        seq!['-'] + decimal((-n) as nat)
    } else {
        decimal(n as nat)
    }
}

/// `s` with zeros in front until it has `width` characters.
pub open spec fn zero_padded(s: Seq<char>, width: nat) -> Seq<char> {
    if s.len() >= width {
        s
    } else {
        Seq::new((width - s.len()) as nat, |i: int| '0') + s
    }
}

/// The number `n` in decimal.
pub fn decimal_text(n: u64) -> (r: String)
    ensures
        r@ == decimal(n as nat),
    decreases n,
{
    let d: u8 = (n % 10) as u8;
    let c: char = (48u8 + d) as char;
    if n < 10 {
        let mut r = String::new();
        r.push(c);
        assert(r@ == seq![c]);
        r
    } else {
        let mut r = decimal_text(n / 10);
        r.push(c);
        r
    }
}

/// The number `n` in decimal, with its sign when it is negative.
pub fn signed_text(n: i64) -> (r: String)
    ensures
        r@ == signed_decimal(n as int),
{
    if n < 0 {
        let m: u64 = (-(n as i128)) as u64;
        let mut r = String::new();
        r.push('-');
        r.append(decimal_text(m).as_str());
        assert(r@ == seq!['-'] + decimal((-n) as nat));
        r
    } else {
        decimal_text(n as u64)
    }
}

/// The number `n` in decimal, with zeros in front until it has `width` digits.
pub fn padded_text(n: u64, width: usize) -> (r: String)
    ensures
        r@ == zero_padded(decimal(n as nat), width as nat),
{
    let digits = decimal_text(n);
    let len: usize = digits.as_str().unicode_len();
    let mut r = String::new();
    let mut i: usize = len;
    while i < width
        invariant
            len == digits@.len(),
            len <= i,
            i <= width || i == len,
            r@ == Seq::new((i - len) as nat, |k: int| '0'),
        decreases width - i,
    {
        r.push('0');
        i = i + 1;
        assert(r@ == Seq::new((i - len) as nat, |k: int| '0'));
    }
    r.append(digits.as_str());
    if len >= width {
        assert(r@ == digits@);
    }
    r
}

/// The value of `c` as a digit in a radix up to 16; 16 when it is no such digit.
pub open spec fn digit_value(c: char) -> int {
    let n = c as int;
    if 48 <= n <= 57 {
        n - 48
    } else if 97 <= n <= 102 {
        n - 87
    } else if 65 <= n <= 70 {
        n - 55
    } else {
        16
    }
}

/// The number that the digits `s` stand for in `radix`.
pub open spec fn digits_value(s: Seq<char>, radix: int) -> int
    decreases s.len(),
{
    if s.len() == 0 {
        0
    } else {
        digits_value(s.drop_last(), radix) * radix + digit_value(s.last())
    }
}

/// Whether `s` is one or more digits of `radix`.
pub open spec fn all_digits(s: Seq<char>, radix: int) -> bool {
    s.len() > 0 && forall|i: int| 0 <= i < s.len() ==> digit_value(#[trigger] s[i]) < radix
}

/// `s` without its first character when that is `c`.
pub open spec fn without_sign(s: Seq<char>, c: char) -> Seq<char> {
    if s.len() > 0 && s[0] == c {
        s.subrange(1, s.len() as int)
    } else {
        s
    }
}

/// The unsigned number that `s` stands for: an optional plus sign and digits, at most `max`.
pub open spec fn unsigned_number(s: Seq<char>, radix: int, max: int) -> Option<int> {
    let t = without_sign(s, '+');
    if all_digits(t, radix) && digits_value(t, radix) <= max {
        Some(digits_value(t, radix))
    } else {
        None
    }
}

/// The signed number that `s` stands for: an optional sign and digits, within `min..=max`.
pub open spec fn signed_number(s: Seq<char>, min: int, max: int) -> Option<int> {
    if s.len() > 0 && s[0] == '-' {
        let t = s.subrange(1, s.len() as int);
        if all_digits(t, 10) && -digits_value(t, 10) >= min {
            Some(-digits_value(t, 10))
        } else {
            None
        }
    } else {
        unsigned_number(s, 10, max)
    }
}

/// The value of `c` as a digit in a radix up to 16; 16 when it is no such digit.
pub fn digit_of(c: char) -> (r: u32)
    ensures
        r == digit_value(c),
        r <= 16,
{
    let n: u32 = c as u32;
    if 48 <= n && n <= 57 {
        n - 48
    } else if 97 <= n && n <= 102 {
        n - 87
    } else if 65 <= n && n <= 70 {
        n - 55
    } else {
        16
    }
}

/// Digits stand for a number that is not negative and grows with further digits.
pub proof fn lemma_digits_value_grows(s: Seq<char>, k: int, radix: int)
    requires
        0 <= k <= s.len(),
        2 <= radix,
        forall|i: int| 0 <= i < s.len() ==> 0 <= digit_value(#[trigger] s[i]),
    ensures
        0 <= digits_value(s.subrange(0, k), radix) <= digits_value(s, radix),
    decreases s.len(),
{
    if s.len() == 0 {
        assert(s.subrange(0, k) == s);
    } else if k == s.len() {
        assert(s.subrange(0, k) == s);
        lemma_digits_value_grows(s.drop_last(), 0, radix);
        assert(digits_value(s.drop_last(), radix) * radix >= 0) by (nonlinear_arith)
            requires
                digits_value(s.drop_last(), radix) >= 0,
                radix >= 2,
        ;
    } else {
        lemma_digits_value_grows(s.drop_last(), k, radix);
        assert(s.drop_last().subrange(0, k) == s.subrange(0, k));
        let v = digits_value(s.drop_last(), radix);
        assert(v * radix >= v) by (nonlinear_arith)
            requires
                v >= 0,
                radix >= 2,
        ;
    }
}

/// Reads the digits `c[from..]` in `radix`, at most `max`.
fn read_digits(c: &Vec<char>, from: usize, radix: u32, max: u64) -> (r: Option<u64>)
    requires
        from <= c@.len(),
        2 <= radix <= 16,
    ensures
        ({
            let t = c@.subrange(from as int, c@.len() as int);
            match r {
                Some(v) => all_digits(t, radix as int) && v == digits_value(t, radix as int) && v
                    <= max,
                None => !(all_digits(t, radix as int) && digits_value(t, radix as int) <= max),
            }
        }),
{
    let n: usize = c.len();
    let ghost t = c@.subrange(from as int, n as int);
    if from == n {
        return None;
    }
    let mut acc: u64 = 0;
    let mut i: usize = from;
    assert(t.subrange(0, 0) == Seq::<char>::empty());
    while i < n
        invariant
            n == c@.len(),
            from <= i <= n,
            2 <= radix <= 16,
            t == c@.subrange(from as int, n as int),
            acc <= max,
            acc == digits_value(t.subrange(0, i - from), radix as int),
            forall|k: int| 0 <= k < i - from ==> digit_value(#[trigger] t[k]) < radix,
        decreases n - i,
    {
        let d: u32 = digit_of(c[i]);
        assert(t[i - from] == c@[i as int]);
        if d >= radix {
            return None;
        }
        assert(0 <= acc * radix <= 0xffff_ffff_ffff_ffff * 16) by (nonlinear_arith)
            requires
                0 <= acc <= 0xffff_ffff_ffff_ffff,
                0 <= radix <= 16,
        ;
        let next: u128 = acc as u128 * radix as u128 + d as u128;
        assert(t.subrange(0, i + 1 - from).drop_last() == t.subrange(0, i - from));
        assert(t.subrange(0, i + 1 - from).last() == t[i - from]);
        assert(digits_value(t.subrange(0, i + 1 - from), radix as int) == next);
        if next > max as u128 {
            proof {
                if all_digits(t, radix as int) {
                    lemma_digits_value_grows(t, i + 1 - from, radix as int);
                }
            }
            return None;
        }
        acc = next as u64;
        i = i + 1;
    }
    assert(t.subrange(0, n - from) == t);
    Some(acc)
}

/// Reads an unsigned number: an optional plus sign and digits of `radix`, at most `max`.
pub fn parse_unsigned(s: &str, radix: u32, max: u64) -> (r: Option<u64>)
    requires
        2 <= radix <= 16,
    ensures
        match r {
            Some(v) => unsigned_number(s@, radix as int, max as int) == Some(v as int),
            None => unsigned_number(s@, radix as int, max as int) is None,
        },
{
    let c = chars_of(s);
    if c.len() > 0 && c[0] == '+' {
        read_digits(&c, 1, radix, max)
    } else {
        assert(c@.subrange(0, c@.len() as int) == c@);
        read_digits(&c, 0, radix, max)
    }
}

/// Why a text is not a number.
#[derive(Clone, Copy, Debug, PartialEq, Eq, Structural)]
pub enum NumberError {
    Empty,
    InvalidDigit,
    TooLarge,
}

/// What users read for such an error.
pub open spec fn number_error_text(e: NumberError) -> Seq<char> {
    match e {
        NumberError::Empty => "cannot parse integer from empty string"@,
        NumberError::InvalidDigit => "invalid digit found in string"@,
        NumberError::TooLarge => "number too large to fit in target type"@,
    }
}

impl NumberError {
    /// What users read for this error.
    pub fn message(self) -> (r: &'static str)
        ensures
            r@ == number_error_text(self),
    {
        match self {
            NumberError::Empty => "cannot parse integer from empty string",
            NumberError::InvalidDigit => "invalid digit found in string",
            NumberError::TooLarge => "number too large to fit in target type",
        }
    }
}

/// The first thing that is wrong with the decimal digits of a number that is at most `max`, read
/// from the left.
pub open spec fn digits_error(s: Seq<char>, max: int) -> Option<NumberError>
    decreases s.len(),
{
    if s.len() == 0 {
        None
    } else {
        match digits_error(s.drop_last(), max) {
            Some(e) => Some(e),
            None => if digit_value(s.last()) >= 10 {
                Some(NumberError::InvalidDigit)
            } else if digits_value(s, 10) > max {
                Some(NumberError::TooLarge)
            } else {
                None
            },
        }
    }
}

/// Why a text is not an unsigned decimal number up to `max`: it is empty, has nothing behind its
/// plus sign, or something is wrong with its digits.
pub open spec fn unsigned_error(s: Seq<char>, max: int) -> Option<NumberError> {
    let digits = without_sign(s, '+');
    if s.len() == 0 {
        Some(NumberError::Empty)
    } else if digits.len() == 0 {
        Some(NumberError::InvalidDigit)
    } else {
        digits_error(digits, max)
    }
}

/// Digits without an error are all digits, and their number is within the limit.
proof fn lemma_digits_error(s: Seq<char>, max: int)
    requires
        0 <= max,
    ensures
        digits_error(s, max) is None <==> (forall|i: int|
            0 <= i < s.len() ==> digit_value(#[trigger] s[i]) < 10) && digits_value(s, 10) <= max,
    decreases s.len(),
{
    if s.len() > 0 {
        let shorter = s.drop_last();
        lemma_digits_error(shorter, max);
        assert(forall|i: int| 0 <= i < shorter.len() ==> #[trigger] shorter[i] == s[i]);
        if forall|i: int| 0 <= i < s.len() ==> digit_value(#[trigger] s[i]) < 10 {
            lemma_digits_value_grows(s, s.len() - 1, 10);
            assert(s.subrange(0, s.len() - 1) =~= shorter);
            assert forall|i: int| 0 <= i < shorter.len() implies digit_value(
                #[trigger] shorter[i],
            ) < 10 by {
                assert(digit_value(s[i]) < 10);
            }
        }
        if digits_error(s, max) is None {
            assert forall|i: int| 0 <= i < s.len() implies digit_value(#[trigger] s[i]) < 10 by {
                if i < s.len() - 1 {
                    assert(digit_value(shorter[i]) < 10);
                }
            }
        }
    }
}

/// What is wrong with the first part of some digits is wrong with all.
proof fn lemma_error_stays(s: Seq<char>, k: int, max: int)
    requires
        0 <= k <= s.len(),
        digits_error(s.take(k), max) is Some,
    ensures
        digits_error(s, max) == digits_error(s.take(k), max),
    decreases s.len(),
{
    if k < s.len() {
        assert(s.drop_last().take(k) =~= s.take(k));
        lemma_error_stays(s.drop_last(), k, max);
    } else {
        assert(s.take(k) =~= s);
    }
}

/// Reads an unsigned decimal number of the type `u32`.
pub fn parse_u32(s: &str) -> (r: Result<u32, NumberError>)
    ensures
        match r {
            Ok(n) => unsigned_number(s@, 10, u32::MAX as int) == Some(n as int) && unsigned_error(
                s@,
                u32::MAX as int,
            ) is None,
            Err(e) => unsigned_number(s@, 10, u32::MAX as int) is None && unsigned_error(
                s@,
                u32::MAX as int,
            ) == Some(e),
        },
{
    let c = chars_of(s);
    if c.len() == 0 {
        return Err(NumberError::Empty);
    }
    let from: usize = if c[0] == '+' {
        1
    } else {
        0
    };
    if from == c.len() {
        return Err(NumberError::InvalidDigit);
    }
    let ghost digits = without_sign(s@, '+');
    proof {
        assert(digits =~= c@.subrange(from as int, c@.len() as int));
        lemma_digits_error(digits, u32::MAX as int);
        assert(digits.take(0) =~= Seq::<char>::empty());
    }
    let mut value: u64 = 0;
    let mut i: usize = from;
    while i < c.len()
        invariant
            digits == c@.subrange(from as int, c@.len() as int),
            digits == without_sign(s@, '+'),
            s@.len() > 0,
            digits.len() > 0,
            from <= i <= c@.len(),
            digits_error(digits, u32::MAX as int) is None <==> (forall|k: int|
                0 <= k < digits.len() ==> digit_value(#[trigger] digits[k]) < 10) && digits_value(
                digits,
                10,
            ) <= u32::MAX,
            digits_error(digits.take(i - from), u32::MAX as int) is None,
            value == digits_value(digits.take(i - from), 10),
            value <= u32::MAX,
        decreases c@.len() - i,
    {
        let code: u32 = code_of(c[i]);
        proof {
            let next = digits.take(i - from + 1);
            assert(next.drop_last() =~= digits.take(i - from));
            assert(next.last() == c@[i as int]);
        }
        if code < 48 || code > 57 {
            proof {
                lemma_error_stays(digits, i - from + 1, u32::MAX as int);
            }
            return Err(NumberError::InvalidDigit);
        }
        value = value * 10 + (code - 48) as u64;
        if value > 0xffff_ffff {
            proof {
                lemma_error_stays(digits, i - from + 1, u32::MAX as int);
            }
            return Err(NumberError::TooLarge);
        }
        i = i + 1;
    }
    assert(digits.take(digits.len() as int) =~= digits);
    Ok(value as u32)
}

/// Reads a signed number of the type `i64`.
pub fn parse_i64(s: &str) -> (r: Option<i64>)
    ensures
        match r {
            Some(v) => signed_number(s@, i64::MIN as int, i64::MAX as int) == Some(v as int),
            None => signed_number(s@, i64::MIN as int, i64::MAX as int) is None,
        },
{
    let c = chars_of(s);
    if c.len() > 0 && c[0] == '-' {
        match read_digits(&c, 1, 10, 0x8000_0000_0000_0000u64) {
            Some(v) => Some((-(v as i128)) as i64),
            None => None,
        }
    } else {
        match parse_unsigned(s, 10, 0x7fff_ffff_ffff_ffffu64) {
            Some(v) => Some(v as i64),
            None => None,
        }
    }
}

/// Reads a signed number of the type `i32`.
pub fn parse_i32(s: &str) -> (r: Option<i32>)
    ensures
        match r {
            Some(v) => signed_number(s@, i32::MIN as int, i32::MAX as int) == Some(v as int),
            None => signed_number(s@, i32::MIN as int, i32::MAX as int) is None,
        },
{
    proof {
        let t = s@.subrange(1, s@.len() as int);
        if s@.len() > 0 && all_digits(t, 10) {
            lemma_digits_value_grows(t, 0, 10);
        }
        let u = without_sign(s@, '+');
        if all_digits(u, 10) {
            lemma_digits_value_grows(u, 0, 10);
        }
    }
    match parse_i64(s) {
        Some(v) => if v < -0x8000_0000i64 || v > 0x7fff_ffffi64 {
            None
        } else {
            Some(v as i32)
        },
        None => None,
    }
}

/// The position of the first `c` in `s`; its length when there is none.
pub open spec fn find(s: Seq<char>, c: char) -> int
    decreases s.len(),
{
    if s.len() == 0 || s[0] == c {
        0
    } else {
        1 + find(s.subrange(1, s.len() as int), c)
    }
}

/// `find` is the one position before which `c` does not occur and at which it does, if at all.
pub proof fn lemma_find(s: Seq<char>, c: char)
    ensures
        0 <= find(s, c) <= s.len(),
        forall|k: int| 0 <= k < find(s, c) ==> #[trigger] s[k] != c,
        find(s, c) < s.len() ==> s[find(s, c)] == c,
    decreases s.len(),
{
    if s.len() == 0 || s[0] == c {
    } else {
        let t = s.subrange(1, s.len() as int);
        lemma_find(t, c);
        assert forall|k: int| 0 <= k < find(s, c) implies #[trigger] s[k] != c by {
            if k > 0 {
                assert(s[k] == t[k - 1]);
            }
        }
        if find(s, c) < s.len() {
            assert(s[find(s, c)] == t[find(t, c)]);
        }
    }
}

/// A position with the two properties of `find` is the one that `find` gives.
pub proof fn lemma_find_is(s: Seq<char>, c: char, i: int)
    requires
        0 <= i <= s.len(),
        forall|k: int| 0 <= k < i ==> #[trigger] s[k] != c,
        i < s.len() ==> s[i] == c,
    ensures
        find(s, c) == i,
{
    lemma_find(s, c);
    let j = find(s, c);
    if j < i {
        assert(s[j] != c);
    } else if i < j {
        assert(s[i] != c);
    }
}

/// The parts of `s` before and after its first `c`.
pub open spec fn split_first(s: Seq<char>, c: char) -> Option<(Seq<char>, Seq<char>)> {
    let i = find(s, c);
    if i < s.len() {
        Some((s.subrange(0, i), s.subrange(i + 1, s.len() as int)))
    } else {
        None
    }
}

/// The parts of `s` before and after its first `c`.
pub fn split_once(s: &str, c: char) -> (r: Option<(String, String)>)
    ensures
        match r {
            Some((a, b)) => split_first(s@, c) == Some((a@, b@)),
            None => split_first(s@, c) is None,
        },
{
    let v = chars_of(s);
    let n: usize = v.len();
    let mut i: usize = 0;
    while i < n && v[i] != c
        invariant
            v@ == s@,
            n == v@.len(),
            i <= n,
            forall|k: int| 0 <= k < i ==> #[trigger] v@[k] != c,
        decreases n - i,
    {
        i = i + 1;
    }
    proof {
        lemma_find_is(v@, c, i as int);
    }
    if i < n {
        Some((string_from(&v, 0, i), string_from(&v, i + 1, n)))
    } else {
        None
    }
}

/// Whether `s` begins with `p`.
pub fn starts_with(s: &str, p: &str) -> (r: bool)
    ensures
        r == p@.is_prefix_of(s@),
{
    let a = chars_of(s);
    let b = chars_of(p);
    if b.len() > a.len() {
        return false;
    }
    let mut i: usize = 0;
    while i < b.len()
        invariant
            a@ == s@,
            b@ == p@,
            b@.len() <= a@.len(),
            i <= b@.len(),
            forall|k: int| 0 <= k < i ==> a@[k] == b@[k],
        decreases b@.len() - i,
    {
        if a[i] != b[i] {
            assert(s@.subrange(0, p@.len() as int)[i as int] != p@[i as int]);
            return false;
        }
        i = i + 1;
    }
    assert(s@.subrange(0, p@.len() as int) == p@);
    true
}

/// What follows `p` at the beginning of `s`.
pub open spec fn after_prefix(s: Seq<char>, p: Seq<char>) -> Option<Seq<char>> {
    if p.is_prefix_of(s) {
        Some(s.subrange(p.len() as int, s.len() as int))
    } else {
        None
    }
}

/// What follows `p` at the beginning of `s`.
pub fn strip_prefix(s: &str, p: &str) -> (r: Option<String>)
    ensures
        match r {
            Some(t) => after_prefix(s@, p@) == Some(t@),
            None => after_prefix(s@, p@) is None,
        },
{
    if starts_with(s, p) {
        let a = chars_of(s);
        let k: usize = p.unicode_len();
        Some(string_from(&a, k, a.len()))
    } else {
        None
    }
}

/// Whether `a` comes before `b` when texts are ordered character by character.
pub open spec fn text_lt(a: Seq<char>, b: Seq<char>) -> bool
    decreases a.len(),
{
    if b.len() == 0 {
        false
    } else if a.len() == 0 {
        true
    } else if a[0] != b[0] {
        (a[0] as int) < (b[0] as int)
    } else {
        text_lt(a.subrange(1, a.len() as int), b.subrange(1, b.len() as int))
    }
}

/// Texts compare as their first characters that differ.
pub proof fn lemma_first_difference(a: Seq<char>, b: Seq<char>, k: int)
    requires
        0 <= k < a.len(),
        k < b.len(),
        forall|i: int| 0 <= i < k ==> #[trigger] a[i] == b[i],
        (a[k] as int) < (b[k] as int),
    ensures
        text_lt(a, b),
    decreases k,
{
    if k > 0 {
        let (c, d) = (a.subrange(1, a.len() as int), b.subrange(1, b.len() as int));
        assert(a[0] == b[0]);
        assert forall|i: int| 0 <= i < k - 1 implies #[trigger] c[i] == d[i] by {
            assert(a[i + 1] == b[i + 1]);
        }
        lemma_first_difference(c, d, k - 1);
    }
}

/// Whether `a` comes before `b` when texts are ordered character by character.
pub fn text_before(a: &str, b: &str) -> (r: bool)
    ensures
        r == text_lt(a@, b@),
{
    let x = chars_of(a);
    let y = chars_of(b);
    let mut i: usize = 0;
    assert(x@.subrange(0, x@.len() as int) == x@);
    assert(y@.subrange(0, y@.len() as int) == y@);
    while i < x.len() && i < y.len() && x[i] == y[i]
        invariant
            x@ == a@,
            y@ == b@,
            i <= x@.len(),
            i <= y@.len(),
            text_lt(a@, b@) == text_lt(
                x@.subrange(i as int, x@.len() as int),
                y@.subrange(i as int, y@.len() as int),
            ),
        decreases x@.len() - i,
    {
        assert(x@.subrange(i as int, x@.len() as int).subrange(1, x@.len() - i) == x@.subrange(
            i + 1,
            x@.len() as int,
        ));
        assert(y@.subrange(i as int, y@.len() as int).subrange(1, y@.len() - i) == y@.subrange(
            i + 1,
            y@.len() as int,
        ));
        i = i + 1;
    }
    if i >= y.len() {
        false
    } else if i >= x.len() {
        true
    } else {
        code_of(x[i]) < code_of(y[i])
    }
}

/// The order of texts is strict and total.
pub proof fn lemma_text_lt_total(a: Seq<char>, b: Seq<char>)
    ensures
        !text_lt(a, a),
        text_lt(a, b) ==> !text_lt(b, a),
        a != b ==> text_lt(a, b) || text_lt(b, a),
    decreases a.len(),
{
    if a.len() > 0 {
        let ta = a.subrange(1, a.len() as int);
        lemma_text_lt_total(ta, ta);
        if b.len() > 0 {
            let tb = b.subrange(1, b.len() as int);
            lemma_text_lt_total(ta, tb);
            if a[0] == b[0] && ta == tb {
                assert(a == seq![a[0]] + ta);
                assert(b == seq![b[0]] + tb);
            }
        }
    } else if b.len() == 0 {
        assert(a == b);
    }
}

/// The order of texts is transitive.
pub proof fn lemma_text_lt_transitive(a: Seq<char>, b: Seq<char>, c: Seq<char>)
    requires
        !text_lt(b, a),
        !text_lt(c, b),
    ensures
        !text_lt(c, a),
    decreases a.len(),
{
    if a.len() > 0 && b.len() > 0 && c.len() > 0 && a[0] == b[0] && b[0] == c[0] {
        lemma_text_lt_transitive(
            a.subrange(1, a.len() as int),
            b.subrange(1, b.len() as int),
            c.subrange(1, c.len() as int),
        );
    }
}

/// Whether `p` occurs in `s`.
pub open spec fn has_part(s: Seq<char>, p: Seq<char>) -> bool {
    exists|i: int| 0 <= i && i + p.len() <= s.len() && #[trigger] s.subrange(i, i + p.len()) == p
}

/// Whether `p` occurs in `s`.
pub fn contains_part(s: &str, p: &str) -> (r: bool)
    ensures
        r == has_part(s@, p@),
{
    let a = chars_of(s);
    let b = chars_of(p);
    let n: usize = a.len();
    let m: usize = b.len();
    if m > n {
        return false;
    }
    let mut i: usize = 0;
    while i <= n - m
        invariant
            a@ == s@,
            b@ == p@,
            n == a@.len(),
            m == b@.len(),
            m <= n,
            i <= n - m + 1,
            forall|k: int| 0 <= k < i ==> #[trigger] a@.subrange(k, k + m) != b@,
        decreases n - m + 1 - i,
    {
        let mut j: usize = 0;
        while j < m && a[i + j] == b[j]
            invariant
                n == a@.len(),
                m == b@.len(),
                i + m <= n,
                j <= m,
                forall|k: int| 0 <= k < j ==> a@[i + k] == b@[k],
            decreases m - j,
        {
            j = j + 1;
        }
        if j == m {
            assert(s@.subrange(i as int, i + p@.len()) == p@);
            return true;
        }
        assert(a@.subrange(i as int, i + m)[j as int] != b@[j as int]);
        if i == n - m {
            assert forall|k: int| 0 <= k && k + p@.len() <= s@.len() implies #[trigger] s@.subrange(
                k,
                k + p@.len(),
            ) != p@ by {
                assert(a@.subrange(k, k + m) != b@);
            }
            return false;
        }
        i = i + 1;
    }
    false
}

/// `c` in lower case when it is an ASCII letter.
pub open spec fn ascii_lower(c: char) -> char {
    if 65 <= c as u32 && c as u32 <= 90 {
        ((c as u32) + 32) as char
    } else {
        c
    }
}

/// `s` with its ASCII letters in lower case.
pub open spec fn ascii_lowered(s: Seq<char>) -> Seq<char> {
    Seq::new(s.len(), |i: int| ascii_lower(s[i]))
}

/// `s` with its ASCII letters in lower case.
pub fn to_ascii_lower(s: &str) -> (r: String)
    ensures
        r@ == ascii_lowered(s@),
{
    let mut r = String::new();
    for c in it: s.chars()
        invariant
            it.seq() == s@,
            r@ == ascii_lowered(s@.take(it.index() as int)),
    {
        let n: u32 = c as u32;
        let d: char = if 65 <= n && n <= 90 {
            ((n + 32) as u8) as char
        } else {
            c
        };
        r.push(d);
        assert(ascii_lowered(s@.take(it.index() + 1)) == ascii_lowered(
            s@.take(it.index() as int),
        ).push(d));
    }
    assert(s@.take(s@.len() as int) == s@);
    r
}

/// Whether two texts are equal when ASCII letters are compared without case.
pub fn same_ignoring_ascii_case(a: &str, b: &str) -> (r: bool)
    ensures
        r == (ascii_lowered(a@) == ascii_lowered(b@)),
{
    same_text(to_ascii_lower(a).as_str(), to_ascii_lower(b).as_str())
}

/// The views of a list of strings.
pub open spec fn views(parts: Seq<String>) -> Seq<Seq<char>> {
    Seq::new(parts.len(), |i: int| parts[i]@)
}

/// `parts` one after the other, with `sep` between neighbours.
pub open spec fn joined(parts: Seq<Seq<char>>, sep: Seq<char>) -> Seq<char>
    decreases parts.len(),
{
    if parts.len() == 0 {
        Seq::empty()
    } else if parts.len() == 1 {
        parts[0]
    } else {
        joined(parts.drop_last(), sep) + sep + parts.last()
    }
}

/// `parts` one after the other, with `sep` between neighbours.
pub fn join(parts: &Vec<String>, sep: &str) -> (r: String)
    ensures
        r@ == joined(views(parts@), sep@),
{
    let mut r = String::new();
    let mut i: usize = 0;
    assert(views(parts@).take(0) == Seq::<Seq<char>>::empty());
    while i < parts.len()
        invariant
            i <= parts@.len(),
            r@ == joined(views(parts@).take(i as int), sep@),
        decreases parts@.len() - i,
    {
        if i > 0 {
            r.append(sep);
        }
        r.append(parts[i].as_str());
        assert(views(parts@).take(i + 1).drop_last() == views(parts@).take(i as int));
        assert(views(parts@).take(i + 1).last() == parts@[i as int]@);
        i = i + 1;
    }
    assert(views(parts@).take(parts@.len() as int) == views(parts@));
    r
}

/// The UTF-16 units of a character: one, or a pair of surrogates.
pub open spec fn utf16_units(c: char) -> Seq<u16> {
    let n = c as u32;
    if n < 0x1_0000 {
        seq![n as u16]
    } else {
        seq![
            (0xD800 + (n - 0x1_0000) / 0x400) as u16,
            (0xDC00 + (n - 0x1_0000) % 0x400) as u16,
        ]
    }
}

/// The UTF-16 units of a text.
pub open spec fn utf16(s: Seq<char>) -> Seq<u16>
    decreases s.len(),
{
    if s.len() == 0 {
        Seq::empty()
    } else {
        utf16(s.drop_last()) + utf16_units(s.last())
    }
}

/// A text in UTF-16, ended by a zero.
pub fn wide(value: &str) -> (r: Vec<u16>)
    ensures
        r@ == utf16(value@).push(0),
{
    let chars = chars_of(value);
    let mut r: Vec<u16> = Vec::new();
    let mut i: usize = 0;
    assert(value@.take(0) =~= Seq::<char>::empty());
    while i < chars.len()
        invariant
            i <= chars@.len(),
            chars@ == value@,
            r@ == utf16(value@.take(i as int)),
        decreases chars@.len() - i,
    {
        let n: u32 = chars[i] as u32;
        let ghost next = value@.take(i + 1);
        assert(next.drop_last() =~= value@.take(i as int));
        assert(next.last() == value@[i as int]);
        if n < 0x1_0000 {
            r.push(n as u16);
        } else {
            let rest: u32 = n - 0x1_0000;
            r.push((0xD800 + rest / 0x400) as u16);
            r.push((0xDC00 + rest % 0x400) as u16);
        }
        i = i + 1;
        assert(r@ =~= utf16(next));
    }
    assert(value@.take(value@.len() as int) =~= value@);
    r.push(0);
    r
}

/// How many units stand before the first zero.
pub fn wide_length(units: &Vec<u16>) -> (r: usize)
    ensures
        r <= units@.len(),
        forall|i: int| 0 <= i < r ==> #[trigger] units@[i] != 0,
        r < units@.len() ==> units@[r as int] == 0,
{
    let mut i: usize = 0;
    while i < units.len() && units[i] != 0
        invariant
            i <= units@.len(),
            forall|k: int| 0 <= k < i ==> #[trigger] units@[k] != 0,
        decreases units@.len() - i,
    {
        i = i + 1;
    }
    i
}

/// A number in decimal is made of digits that stand for it.
pub proof fn lemma_decimal(n: nat)
    ensures
        all_digits(decimal(n), 10),
        digits_value(decimal(n), 10) == n,
    decreases n,
{
    let s = decimal(n);
    if n < 10 {
        assert(s.drop_last() =~= Seq::<char>::empty());
        assert(digits_value(s.drop_last(), 10) == 0);
    } else {
        lemma_decimal(n / 10);
        assert(s.drop_last() =~= decimal(n / 10));
        assert forall|i: int| 0 <= i < s.len() implies digit_value(#[trigger] s[i]) < 10 by {
            if i < s.len() - 1 {
                assert(s[i] == decimal(n / 10)[i]);
            }
        }
    }
}

/// A number that was written in decimal reads back.
pub proof fn a_written_number_reads_back(n: int, min: int, max: int)
    requires
        min <= n <= max,
    ensures
        signed_number(signed_decimal(n), min, max) == Some(n),
{
    let s = signed_decimal(n);
    if n < 0 {
        lemma_decimal((-n) as nat);
        assert(s.subrange(1, s.len() as int) =~= decimal((-n) as nat));
    } else {
        lemma_decimal(n as nat);
        assert(digit_value(s[0]) < 10);
    }
}

/// A text is refused as a number exactly when it is none up to the limit: as empty when it is, and
/// as too large only when it is made of digits up to there.
pub proof fn a_text_is_refused_exactly_when_it_is_no_number(s: Seq<char>, max: int)
    requires
        0 <= max,
    ensures
        unsigned_error(s, max) is None <==> unsigned_number(s, 10, max) is Some,
        unsigned_error(s, max) == Some(NumberError::Empty) <==> s.len() == 0,
        all_digits(without_sign(s, '+'), 10) && unsigned_number(s, 10, max) is None
            ==> unsigned_error(s, max) == Some(NumberError::TooLarge),
{
    let digits = without_sign(s, '+');
    lemma_digits_error(digits, max);
    lemma_error_kinds(digits, max);
}

/// Digits are refused only for their size, and no digits are refused as empty.
proof fn lemma_error_kinds(s: Seq<char>, max: int)
    ensures
        digits_error(s, max) != Some(NumberError::Empty),
        (forall|i: int| 0 <= i < s.len() ==> digit_value(#[trigger] s[i]) < 10) ==> digits_error(
            s,
            max,
        ) != Some(NumberError::InvalidDigit),
    decreases s.len(),
{
    if s.len() > 0 {
        let shorter = s.drop_last();
        lemma_error_kinds(shorter, max);
        if forall|i: int| 0 <= i < s.len() ==> digit_value(#[trigger] s[i]) < 10 {
            assert(s.last() == s[s.len() - 1]);
            assert forall|i: int| 0 <= i < shorter.len() implies digit_value(
                #[trigger] shorter[i],
            ) < 10 by {
                assert(shorter[i] == s[i]);
            }
        }
    }
}

/// A text is split at the first place where the character stands: that character does not occur in
/// the first part, and the two parts with it between them make up the text.
pub proof fn a_text_is_split_at_its_first_mark(head: Seq<char>, c: char, rest: Seq<char>)
    requires
        forall|i: int| 0 <= i < head.len() ==> #[trigger] head[i] != c,
    ensures
        split_first(head + seq![c] + rest, c) == Some((head, rest)),
        split_first(head, c) is None,
{
    let s = head + seq![c] + rest;
    let n = head.len() as int;
    assert(s[n] == c);
    assert forall|k: int| 0 <= k < n implies #[trigger] s[k] != c by {
        assert(s[k] == head[k]);
    }
    lemma_find_is(s, c, n);
    lemma_find_is(head, c, n);
    assert(s.subrange(0, n) =~= head);
    assert(s.subrange(n + 1, s.len() as int) =~= rest);
}

/// Joined parts begin with the first, and each further part follows with the separator before it.
pub proof fn joined_parts_follow_each_other(parts: Seq<Seq<char>>, sep: Seq<char>, next: Seq<char>)
    ensures
        parts.len() > 0 ==> joined(parts.push(next), sep) == joined(parts, sep) + sep + next,
        joined(seq![next], sep) == next,
        joined(Seq::<Seq<char>>::empty(), sep).len() == 0,
{
    assert(parts.push(next).drop_last() =~= parts);
}

/// Only the letters `A` to `Z` change in lower case, to the letters 32 places on, and doing it again
/// changes nothing.
pub proof fn lower_case_changes_capitals_only(s: Seq<char>, i: int)
    requires
        0 <= i < s.len(),
    ensures
        ascii_lowered(s).len() == s.len(),
        65 <= s[i] as u32 <= 90 ==> ascii_lowered(s)[i] as int == s[i] as u32 + 32,
        !(65 <= s[i] as u32 <= 90) ==> ascii_lowered(s)[i] == s[i],
        ascii_lowered(ascii_lowered(s)) == ascii_lowered(s),
{
    assert(ascii_lowered(s)[i] == ascii_lower(s[i]));
    assert(ascii_lowered(ascii_lowered(s)) =~= ascii_lowered(s));
}

/// A character of the basic plane is its own unit. Any other one is a pair, of a leading and a
/// trailing surrogate, from which it is computed back.
pub proof fn a_character_is_found_in_its_units(c: char)
    ensures
        (c as u32) < 0x1_0000 ==> utf16_units(c).len() == 1 && utf16_units(c)[0] == c as u32,
        (c as u32) >= 0x1_0000 ==> {
            let units = utf16_units(c);
            &&& units.len() == 2
            &&& 0xD800 <= units[0] <= 0xDBFF
            &&& 0xDC00 <= units[1] <= 0xDFFF
            &&& (units[0] - 0xD800) * 0x400 + (units[1] - 0xDC00) + 0x1_0000 == c as u32
        },
{
}

/// The units of two texts, one after the other, are those of the text that they make up.
pub proof fn units_follow_the_characters(a: Seq<char>, b: Seq<char>)
    ensures
        utf16(a + b) == utf16(a) + utf16(b),
        utf16(Seq::<char>::empty()).len() == 0,
    decreases b.len(),
{
    if b.len() == 0 {
        assert(a + b =~= a);
        assert(utf16(a) + utf16(b) =~= utf16(a));
    } else {
        units_follow_the_characters(a, b.drop_last());
        assert((a + b).drop_last() =~= a + b.drop_last());
        assert(utf16(a + b) =~= utf16(a) + utf16(b));
    }
}

/// Zeros before digits do not change the number that they write.
pub proof fn leading_zeros_do_not_count(s: Seq<char>, width: nat)
    ensures
        digits_value(zero_padded(s, width), 10) == digits_value(s, 10),
    decreases width,
{
    if s.len() < width {
        lemma_leading_zeros((width - s.len()) as nat, s);
    }
}

/// Zeros before digits do not change the number that they write.
proof fn lemma_leading_zeros(count: nat, s: Seq<char>)
    ensures
        digits_value(Seq::new(count, |i: int| '0') + s, 10) == digits_value(s, 10),
    decreases count + s.len(),
{
    let zeros = Seq::new(count, |i: int| '0');
    let all = zeros + s;
    if s.len() > 0 {
        lemma_leading_zeros(count, s.drop_last());
        assert(all.drop_last() =~= zeros + s.drop_last());
        assert(all.last() == s.last());
    } else if count > 0 {
        let fewer = Seq::new((count - 1) as nat, |i: int| '0');
        lemma_leading_zeros((count - 1) as nat, s);
        assert(all.drop_last() =~= fewer + s);
        assert(all.last() == '0');
    }
}

} // verus!
