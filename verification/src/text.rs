//! Text as sequences of characters: decimal numbers, trimming, splitting.
use vstd::prelude::*;

verus! {

/// `String::push`: the character goes to the end of the text.
pub assume_specification[ String::push ](s: &mut String, c: char)
    ensures
        final(s)@ == old(s)@.push(c),
;

/// The texts that a sequence of strings holds.
pub open spec fn texts(strings: Seq<String>) -> Seq<Seq<char>> {
    Seq::new(strings.len(), |i: int| strings[i]@)
}

/// The characters of `s`, one by one.
pub fn chars_of(s: &str) -> (chars: Vec<char>)
    ensures
        chars@ == s@,
{
    let mut chars: Vec<char> = Vec::new();
    for c in it: s.chars()
        invariant
            it.seq() == s@,
            chars@ == s@.take(it.index()),
    {
        chars.push(c);
        assert(s@.take(it.index() + 1) == s@.take(it.index()).push(c));
    }
    assert(s@.take(s@.len() as int) == s@);
    chars
}

/// The characters of `chars` from `from` up to `to`, as one text.
pub fn text_of(chars: &Vec<char>, from: usize, to: usize) -> (s: String)
    requires
        from <= to <= chars@.len(),
    ensures
        s@ == chars@.subrange(from as int, to as int),
{
    let mut s: String = String::new();
    let mut i: usize = from;
    while i < to
        invariant
            from <= i <= to <= chars@.len(),
            s@ == chars@.subrange(from as int, i as int),
        decreases to - i,
    {
        s.push(chars[i]);
        i = i + 1;
        assert(chars@.subrange(from as int, i as int) == chars@.subrange(
            from as int,
            i - 1,
        ).push(chars@[i - 1]));
    }
    s
}

/// Is `a` the same text as `b`?
pub fn same_text(a: &String, b: &str) -> (r: bool)
    ensures
        r == (a@ == b@),
{
    *a == String::from_str(b)
}

// ---- decimal numbers ----

/// The character for one decimal digit.
pub open spec fn digit_char(d: nat) -> char {
    (48 + d) as char
}

/// Is `c` one of `0` to `9`?
pub open spec fn is_digit(c: char) -> bool {
    '0' <= c && c <= '9'
}

/// What the digit `c` stands for.
pub open spec fn digit_value(c: char) -> nat {
    (c as nat - 48) as nat
}

/// `n` in decimal, without leading zeros.
pub open spec fn decimal(n: nat) -> Seq<char>
    decreases n,
{
    if n < 10 {
        seq![digit_char(n)]
    } else {
        decimal(n / 10).push(digit_char(n % 10))
    }
}

/// `n` in decimal, with a sign if it is negative.
pub open spec fn signed_decimal(n: int) -> Seq<char> {
    if n < 0 {
        seq!['-'] + decimal((-n) as nat)
    } else {
        decimal(n as nat)
    }
}

/// Are all characters of `s` digits?
pub open spec fn all_digits(s: Seq<char>) -> bool {
    forall|i: int| 0 <= i < s.len() ==> is_digit(#[trigger] s[i])
}

/// The number that a row of digits stands for.
pub open spec fn digits_value(s: Seq<char>) -> nat
    decreases s.len(),
{
    if s.len() == 0 {
        0
    } else {
        digits_value(s.drop_last()) * 10 + digit_value(s.last())
    }
}

/// What is wrong with a text that should be a number.
#[derive(Debug, Clone, Copy, PartialEq, Eq, Structural)]
pub enum NumberFault {
    /// There is no text.
    Empty,
    /// There is no digit where one should be.
    InvalidDigit,
    /// The number is too large.
    TooLarge,
    /// The number is too small.
    TooSmall,
}

impl NumberFault {
    /// What the reader is told.
    pub open spec fn text(self) -> Seq<char> {
        match self {
            NumberFault::Empty => "cannot parse integer from empty string"@,
            NumberFault::InvalidDigit => "invalid digit found in string"@,
            NumberFault::TooLarge => "number too large to fit in target type"@,
            NumberFault::TooSmall => "number too small to fit in target type"@,
        }
    }

    /// What the reader is told.
    pub fn message(&self) -> (s: String)
        ensures
            s@ == self.text(),
    {
        String::from_str(
            match *self {
                NumberFault::Empty => "cannot parse integer from empty string",
                NumberFault::InvalidDigit => "invalid digit found in string",
                NumberFault::TooLarge => "number too large to fit in target type",
                NumberFault::TooSmall => "number too small to fit in target type",
            },
        )
    }
}

/// What is wrong with a row of digits first, from the left: a character that is no digit, or a
/// digit with which the number is beyond `max`, which is the fault `beyond`.
pub open spec fn first_fault(s: Seq<char>, max: nat, beyond: NumberFault) -> Option<NumberFault>
    decreases s.len(),
{
    if s.len() == 0 {
        None
    } else {
        match first_fault(s.drop_last(), max, beyond) {
            Some(fault) => Some(fault),
            None => if !is_digit(s.last()) {
                Some(NumberFault::InvalidDigit)
            } else if digits_value(s) > max {
                Some(beyond)
            } else {
                None
            },
        }
    }
}

/// The number up to `max` that `s` stands for: at least one digit and nothing else.
pub open spec fn parsed_digits(s: Seq<char>, max: nat, beyond: NumberFault) -> Result<
    nat,
    NumberFault,
> {
    if s.len() == 0 {
        Err(NumberFault::InvalidDigit)
    } else {
        match first_fault(s, max, beyond) {
            Some(fault) => Err(fault),
            None => Ok(digits_value(s)),
        }
    }
}

/// `s` without one leading `+`.
pub open spec fn without_plus(s: Seq<char>) -> Seq<char> {
    if s.len() > 0 && s[0] == '+' {
        s.drop_first()
    } else {
        s
    }
}

/// The unsigned number up to `max` that `s` stands for: digits, after a `+` or without one.
pub open spec fn parsed_unsigned(s: Seq<char>, max: nat) -> Result<nat, NumberFault> {
    if s.len() == 0 {
        Err(NumberFault::Empty)
    } else {
        parsed_digits(without_plus(s), max, NumberFault::TooLarge)
    }
}

/// The 32-bit signed number that `s` stands for: digits, after a sign or without one.
pub open spec fn parsed_i32(s: Seq<char>) -> Result<int, NumberFault> {
    if s.len() > 0 && s[0] == '-' {
        match parsed_digits(s.drop_first(), 0x8000_0000, NumberFault::TooSmall) {
            Ok(n) => Ok(-(n as int)),
            Err(fault) => Err(fault),
        }
    } else {
        match parsed_unsigned(s, 0x7fff_ffff) {
            Ok(n) => Ok(n as int),
            Err(fault) => Err(fault),
        }
    }
}

/// More digits never make a smaller number.
proof fn lemma_digits_value_grows(s: Seq<char>, i: int)
    requires
        0 <= i <= s.len(),
    ensures
        digits_value(s.take(i)) <= digits_value(s),
    decreases s.len() - i,
{
    if i == s.len() {
        assert(s.take(i) == s);
    } else {
        lemma_digits_value_grows(s, i + 1);
        assert(s.take(i + 1).drop_last() == s.take(i));
    }
}

/// `decimal` writes digits only, at least one of them.
pub proof fn lemma_decimal_digits(n: nat)
    ensures
        decimal(n).len() > 0,
        all_digits(decimal(n)),
    decreases n,
{
    if n >= 10 {
        lemma_decimal_digits(n / 10);
    }
}

/// A row of characters has no fault exactly if all are digits and the number is not beyond the
/// limit.
pub proof fn law_faultless_is_a_number(s: Seq<char>, max: nat, beyond: NumberFault)
    ensures
        first_fault(s, max, beyond) is None <==> all_digits(s) && digits_value(s) <= max,
    decreases s.len(),
{
    if s.len() > 0 {
        law_faultless_is_a_number(s.drop_last(), max, beyond);
        lemma_digits_value_grows(s, s.len() - 1);
        assert(s.take(s.len() - 1) == s.drop_last());
        if all_digits(s) {
            assert(is_digit(s.last()));
        }
        if all_digits(s.drop_last()) && is_digit(s.last()) {
            assert forall|i: int| 0 <= i < s.len() implies is_digit(#[trigger] s[i]) by {
                if i < s.len() - 1 {
                    assert(s.drop_last()[i] == s[i]);
                }
            }
        }
        if all_digits(s) {
            assert forall|i: int| 0 <= i < s.len() - 1 implies is_digit(
                #[trigger] s.drop_last()[i],
            ) by {
                assert(s[i] == s.drop_last()[i]);
            }
        }
    }
}

/// Reading a written number gives the number back.
pub proof fn law_decimal_reads_back(n: nat)
    ensures
        digits_value(decimal(n)) == n,
        forall|max: nat| n <= max ==> parsed_unsigned(decimal(n), max) == Ok::<_, NumberFault>(n),
    decreases n,
{
    lemma_decimal_digits(n);
    if n >= 10 {
        law_decimal_reads_back(n / 10);
        assert(decimal(n).drop_last() == decimal(n / 10));
    } else {
        assert(decimal(n).drop_last() == Seq::<char>::empty());
        assert(digits_value(Seq::<char>::empty()) == 0);
    }
    assert(digits_value(decimal(n)) == n);
    assert(is_digit(decimal(n)[0]));
    assert(without_plus(decimal(n)) == decimal(n));
    assert forall|max: nat| n <= max implies parsed_unsigned(decimal(n), max) == Ok::<
        _,
        NumberFault,
    >(n) by {
        law_faultless_is_a_number(decimal(n), max, NumberFault::TooLarge);
    }
}

/// Two numbers that are written alike are the same.
pub proof fn law_decimal_is_unambiguous(a: int, b: int)
    ensures
        a >= 0 && b >= 0 && decimal(a as nat) == decimal(b as nat) ==> a == b,
        signed_decimal(a) == signed_decimal(b) ==> a == b,
{
    let x = if a < 0 {
        (-a) as nat
    } else {
        a as nat
    };
    let y = if b < 0 {
        (-b) as nat
    } else {
        b as nat
    };
    law_decimal_reads_back(x);
    law_decimal_reads_back(y);
    lemma_decimal_digits(x);
    lemma_decimal_digits(y);
    assert(is_digit(decimal(x)[0]));
    assert(is_digit(decimal(y)[0]));
    if a < 0 {
        assert(signed_decimal(a)[0] == '-');
        assert(signed_decimal(a).drop_first() == decimal(x));
    }
    if b < 0 {
        assert(signed_decimal(b)[0] == '-');
        assert(signed_decimal(b).drop_first() == decimal(y));
    }
}

/// `n` in decimal.
pub fn decimal_text(n: u64) -> (s: String)
    ensures
        s@ == decimal(n as nat),
    decreases n,
{
    let mut s: String = if n < 10 {
        String::new()
    } else {
        decimal_text(n / 10)
    };
    let d: u8 = (n % 10) as u8;
    s.push((48u8 + d) as char);
    assert(n < 10 ==> s@ == seq![digit_char(n as nat)]);
    s
}

/// `n` in decimal, with a sign if it is negative.
pub fn signed_text(n: i64) -> (s: String)
    ensures
        s@ == signed_decimal(n as int),
{
    if n < 0 {
        let mut s: String = String::new();
        s.push('-');
        let size: u64 = if n == i64::MIN {
            0x8000_0000_0000_0000u64
        } else {
            (-n) as u64
        };
        let digits: String = decimal_text(size);
        s.append(digits.as_str());
        assert(Seq::<char>::empty().push('-') == seq!['-']);
        s
    } else {
        decimal_text(n as u64)
    }
}

/// A fault anywhere is the fault of the whole.
proof fn lemma_fault_stays(s: Seq<char>, max: nat, beyond: NumberFault, i: int)
    requires
        0 <= i <= s.len(),
        first_fault(s.take(i), max, beyond) is Some,
    ensures
        first_fault(s, max, beyond) == first_fault(s.take(i), max, beyond),
    decreases s.len() - i,
{
    if i == s.len() {
        assert(s.take(i) == s);
    } else {
        assert(s.take(i + 1).drop_last() == s.take(i));
        lemma_fault_stays(s, max, beyond, i + 1);
    }
}

/// Reads digits, at least one of them, from `from` to the end.
fn parse_digits(chars: &Vec<char>, from: usize, max: u64, beyond: NumberFault) -> (r: Result<
    u64,
    NumberFault,
>)
    requires
        from <= chars@.len(),
        max <= 0xffff_ffff,
    ensures
        r == match parsed_digits(chars@.skip(from as int), max as nat, beyond) {
            Ok(n) => Ok(n as u64),
            Err(fault) => Err(fault),
        },
        r matches Ok(n) ==> n <= max,
{
    let ghost s = chars@.skip(from as int);
    if from == chars.len() {
        return Err(NumberFault::InvalidDigit);
    }
    let mut n: u64 = 0;
    let mut i: usize = from;
    while i < chars.len()
        invariant
            from <= i <= chars@.len(),
            from < chars@.len(),
            s == chars@.skip(from as int),
            max <= 0xffff_ffff,
            n <= max,
            n == digits_value(s.take(i - from)),
            first_fault(s.take(i - from), max as nat, beyond) is None,
        decreases chars@.len() - i,
    {
        let c: char = chars[i];
        assert(c == s[i - from]);
        proof {
            assert(s.take(i - from + 1).drop_last() == s.take(i - from));
            assert(s.take(i - from + 1).last() == c);
        }
        if !('0' <= c && c <= '9') {
            proof {
                lemma_fault_stays(s, max as nat, beyond, i - from + 1);
            }
            return Err(NumberFault::InvalidDigit);
        }
        let d: u64 = (c as u64) - 48;
        n = n * 10 + d;
        i = i + 1;
        if n > max {
            proof {
                lemma_fault_stays(s, max as nat, beyond, i - from);
            }
            return Err(beyond);
        }
    }
    assert(s.take(s.len() as int) == s);
    Ok(n)
}

/// Reads an unsigned number up to `max`.
pub fn parse_unsigned(text: &str, max: u32) -> (r: Result<u32, NumberFault>)
    ensures
        r == match parsed_unsigned(text@, max as nat) {
            Ok(n) => Ok(n as u32),
            Err(fault) => Err(fault),
        },
        r matches Ok(n) ==> n <= max,
{
    let chars: Vec<char> = chars_of(text);
    if chars.len() == 0 {
        return Err(NumberFault::Empty);
    }
    let from: usize = if chars[0] == '+' {
        1
    } else {
        0
    };
    assert(chars@.skip(0) == chars@);
    assert(chars@.skip(1) == chars@.drop_first());
    match parse_digits(&chars, from, max as u64, NumberFault::TooLarge) {
        Ok(n) => Ok(n as u32),
        Err(fault) => Err(fault),
    }
}

/// Reads a `u32`.
pub fn parse_u32(text: &str) -> (r: Result<u32, NumberFault>)
    ensures
        r == match parsed_unsigned(text@, u32::MAX as nat) {
            Ok(n) => Ok(n as u32),
            Err(fault) => Err(fault),
        },
{
    parse_unsigned(text, u32::MAX)
}

/// Reads a `u16`.
pub fn parse_u16(text: &str) -> (r: Result<u16, NumberFault>)
    ensures
        r == match parsed_unsigned(text@, u16::MAX as nat) {
            Ok(n) => Ok(n as u16),
            Err(fault) => Err(fault),
        },
{
    match parse_unsigned(text, u16::MAX as u32) {
        Ok(n) => Ok(n as u16),
        Err(fault) => Err(fault),
    }
}

/// Reads an `i32`.
pub fn parse_i32(text: &str) -> (r: Result<i32, NumberFault>)
    ensures
        r == match parsed_i32(text@) {
            Ok(n) => Ok(n as i32),
            Err(fault) => Err(fault),
        },
{
    let chars: Vec<char> = chars_of(text);
    if chars.len() > 0 && chars[0] == '-' {
        assert(chars@.skip(1) == chars@.drop_first());
        match parse_digits(&chars, 1, 0x8000_0000, NumberFault::TooSmall) {
            Ok(n) => Ok((-(n as i64)) as i32),
            Err(fault) => Err(fault),
        }
    } else {
        match parse_unsigned(text, 0x7fff_ffff) {
            Ok(n) => Ok(n as i32),
            Err(fault) => Err(fault),
        }
    }
}

// ---- white space, trimming, splitting ----

/// Does `c` have the Unicode property `White_Space`?
pub open spec fn is_white_space(c: char) -> bool {
    ||| '\u{9}' <= c && c <= '\u{d}'
    ||| c == ' '
    ||| c == '\u{85}'
    ||| c == '\u{a0}'
    ||| c == '\u{1680}'
    ||| '\u{2000}' <= c && c <= '\u{200a}'
    ||| c == '\u{2028}'
    ||| c == '\u{2029}'
    ||| c == '\u{202f}'
    ||| c == '\u{205f}'
    ||| c == '\u{3000}'
}

/// `s` without the white space that it starts with.
pub open spec fn trimmed_start(s: Seq<char>) -> Seq<char>
    decreases s.len(),
{
    if s.len() > 0 && is_white_space(s[0]) {
        trimmed_start(s.drop_first())
    } else {
        s
    }
}

/// `s` without the white space that it ends with.
pub open spec fn trimmed_end(s: Seq<char>) -> Seq<char>
    decreases s.len(),
{
    if s.len() > 0 && is_white_space(s.last()) {
        trimmed_end(s.drop_last())
    } else {
        s
    }
}

/// `s` without the white space at either end.
pub open spec fn trimmed(s: Seq<char>) -> Seq<char> {
    trimmed_end(trimmed_start(s))
}

/// The pieces of `s` between the separators: one piece more than there are separators.
pub open spec fn pieces(s: Seq<char>, separator: char) -> Seq<Seq<char>>
    decreases s.len(),
{
    if s.len() == 0 {
        seq![Seq::<char>::empty()]
    } else {
        let before = pieces(s.drop_last(), separator);
        if s.last() == separator {
            before.push(Seq::<char>::empty())
        } else {
            before.drop_last().push(before.last().push(s.last()))
        }
    }
}

/// The pieces in order, each trimmed, without those that are then empty.
pub open spec fn filled(parts: Seq<Seq<char>>) -> Seq<Seq<char>>
    decreases parts.len(),
{
    if parts.len() == 0 {
        Seq::empty()
    } else if trimmed(parts.last()).len() == 0 {
        filled(parts.drop_last())
    } else {
        filled(parts.drop_last()).push(trimmed(parts.last()))
    }
}

/// The items of a separated list: the pieces, trimmed, without the empty ones.
pub open spec fn list_items(s: Seq<char>, separator: char) -> Seq<Seq<char>> {
    filled(pieces(s, separator))
}

/// Trimming leaves no white space at either end.
pub proof fn law_trimmed_has_no_white_ends(s: Seq<char>)
    ensures
        trimmed(s).len() > 0 ==> !is_white_space(trimmed(s)[0]) && !is_white_space(
            trimmed(s).last(),
        ),
{
    lemma_trimmed_start(s);
    lemma_trimmed_end(trimmed_start(s));
}

proof fn lemma_trimmed_start(s: Seq<char>)
    ensures
        trimmed_start(s).len() > 0 ==> !is_white_space(trimmed_start(s)[0]),
    decreases s.len(),
{
    if s.len() > 0 && is_white_space(s[0]) {
        lemma_trimmed_start(s.drop_first());
    }
}

proof fn lemma_trimmed_end(s: Seq<char>)
    ensures
        trimmed_end(s).len() > 0 ==> !is_white_space(trimmed_end(s).last()) && trimmed_end(s)[0]
            == s[0],
    decreases s.len(),
{
    if s.len() > 0 && is_white_space(s.last()) {
        lemma_trimmed_end(s.drop_last());
    }
}

/// Is `c` white space?
pub fn is_space(c: char) -> (r: bool)
    ensures
        r == is_white_space(c),
{
    ('\u{9}' <= c && c <= '\u{d}') || c == ' ' || c == '\u{85}' || c == '\u{a0}' || c
        == '\u{1680}' || ('\u{2000}' <= c && c <= '\u{200a}') || c == '\u{2028}' || c
        == '\u{2029}' || c == '\u{202f}' || c == '\u{205f}' || c == '\u{3000}'
}

/// The text of `chars` from `from` up to `to`, trimmed.
fn trim_between(chars: &Vec<char>, from: usize, to: usize) -> (s: String)
    requires
        from <= to <= chars@.len(),
    ensures
        s@ == trimmed(chars@.subrange(from as int, to as int)),
{
    let ghost whole = chars@.subrange(from as int, to as int);
    let mut start: usize = from;
    while start < to && is_space(chars[start])
        invariant
            from <= start <= to <= chars@.len(),
            trimmed_start(whole) == trimmed_start(chars@.subrange(start as int, to as int)),
        ensures
            trimmed_start(whole) == chars@.subrange(start as int, to as int),
            from <= start <= to <= chars@.len(),
        decreases to - start,
    {
        assert(chars@.subrange(start as int, to as int).drop_first() == chars@.subrange(
            start + 1,
            to as int,
        ));
        start = start + 1;
    }
    let mut end: usize = to;
    while start < end && is_space(chars[end - 1])
        invariant
            from <= start <= end <= to <= chars@.len(),
            trimmed(whole) == trimmed_end(chars@.subrange(start as int, end as int)),
        ensures
            trimmed(whole) == chars@.subrange(start as int, end as int),
            start <= end <= chars@.len(),
        decreases end,
    {
        assert(chars@.subrange(start as int, end as int).drop_last() == chars@.subrange(
            start as int,
            end - 1,
        ));
        end = end - 1;
    }
    text_of(chars, start, end)
}

/// `s` without the white space at either end.
pub fn trim(s: &str) -> (r: String)
    ensures
        r@ == trimmed(s@),
{
    let chars: Vec<char> = chars_of(s);
    assert(chars@.subrange(0, chars@.len() as int) == s@);
    trim_between(&chars, 0, chars.len())
}

/// There is always a piece, and the last one is what follows the last separator.
proof fn lemma_last_piece(s: Seq<char>, separator: char, start: int)
    requires
        0 <= start <= s.len(),
        start > 0 ==> s[start - 1] == separator,
        forall|i: int| start <= i < s.len() ==> s[i] != separator,
    ensures
        pieces(s, separator).len() > 0,
        pieces(s, separator).last() == s.skip(start),
        start > 0 ==> pieces(s, separator).drop_last() == pieces(s.take(start - 1), separator),
        start == 0 ==> pieces(s, separator).len() == 1,
    decreases s.len(),
{
    if s.len() == 0 {
    } else if start == s.len() {
        assert(s.drop_last() == s.take(start - 1));
        assert(s.skip(start) == Seq::<char>::empty());
        assert(pieces(s, separator).drop_last() == pieces(s.take(start - 1), separator));
    } else {
        lemma_last_piece(s.drop_last(), separator, start);
        let before = pieces(s.drop_last(), separator);
        assert(s.skip(start) == s.drop_last().skip(start).push(s.last()));
        assert(pieces(s, separator).drop_last() == before.drop_last());
        if start > 0 {
            assert(s.drop_last().take(start - 1) == s.take(start - 1));
        }
    }
}

/// The items of a separated list, each trimmed, without the empty ones.
pub fn split_list(s: &str, separator: char) -> (items: Vec<String>)
    ensures
        texts(items@) == list_items(s@, separator),
{
    let chars: Vec<char> = chars_of(s);
    let mut items: Vec<String> = Vec::new();
    let mut start: usize = 0;
    let mut i: usize = 0;
    assert(texts(items@) == filled(Seq::empty()));
    while i < chars.len()
        invariant
            chars@ == s@,
            start <= i <= chars@.len(),
            start > 0 ==> s@[start - 1] == separator,
            forall|k: int| start <= k < i ==> s@[k] != separator,
            texts(items@) == if start > 0 {
                filled(pieces(s@.take(start - 1), separator))
            } else {
                Seq::empty()
            },
        decreases chars@.len() - i,
    {
        if chars[i] == separator {
            proof {
                lemma_list_step(s@, separator, start as int, i as int);
            }
            push_filled(&mut items, &chars, start, i);
            start = i + 1;
        }
        i = i + 1;
    }
    proof {
        lemma_list_step(s@, separator, start as int, i as int);
        assert(s@.take(i as int) == s@);
    }
    push_filled(&mut items, &chars, start, i);
    items
}

/// How the items up to `end` come from the items before `start`.
proof fn lemma_list_step(s: Seq<char>, separator: char, start: int, end: int)
    requires
        0 <= start <= end <= s.len(),
        start > 0 ==> s[start - 1] == separator,
        forall|k: int| start <= k < end ==> s[k] != separator,
    ensures
        ({
            let before = if start > 0 {
                filled(pieces(s.take(start - 1), separator))
            } else {
                Seq::<Seq<char>>::empty()
            };
            let piece = trimmed(s.subrange(start, end));
            filled(pieces(s.take(end), separator)) == if piece.len() == 0 {
                before
            } else {
                before.push(piece)
            }
        }),
{
    let t = s.take(end);
    lemma_last_piece(t, separator, start);
    assert(t.skip(start) == s.subrange(start, end));
    let all = pieces(t, separator);
    if start > 0 {
        assert(t.take(start - 1) == s.take(start - 1));
    } else {
        assert(all.drop_last() == Seq::<Seq<char>>::empty());
        assert(filled(all.drop_last()) == Seq::<Seq<char>>::empty());
    }
}

/// Adds the trimmed text between `from` and `to`, unless it is empty.
fn push_filled(items: &mut Vec<String>, chars: &Vec<char>, from: usize, to: usize)
    requires
        from <= to <= chars@.len(),
    ensures
        ({
            let piece = trimmed(chars@.subrange(from as int, to as int));
            texts(final(items)@) == if piece.len() == 0 {
                texts(old(items)@)
            } else {
                texts(old(items)@).push(piece)
            }
        }),
{
    let item: String = trim_between(chars, from, to);
    if !item.as_str().is_empty() {
        items.push(item);
        assert(texts(items@) == texts(old(items)@).push(item@));
    }
}

// ---- ASCII case ----

/// `c` in lower case, if it is one of `A` to `Z`.
pub open spec fn lower_char(c: char) -> char {
    if 'A' <= c && c <= 'Z' {
        (c as nat + 32) as char
    } else {
        c
    }
}

/// `s` with `A` to `Z` in lower case.
pub open spec fn lower(s: Seq<char>) -> Seq<char> {
    Seq::new(s.len(), |i: int| lower_char(s[i]))
}

/// `s` with `A` to `Z` in lower case.
pub fn to_lower(s: &str) -> (r: String)
    ensures
        r@ == lower(s@),
{
    let mut r: String = String::new();
    for c in it: s.chars()
        invariant
            it.seq() == s@,
            r@ == lower(s@).take(it.index()),
    {
        let d: char = if 'A' <= c && c <= 'Z' {
            ((c as u8) + 32u8) as char
        } else {
            c
        };
        r.push(d);
        assert(lower(s@).take(it.index() + 1) == lower(s@).take(it.index()).push(d));
    }
    assert(lower(s@).take(s@.len() as int) == lower(s@));
    r
}

// ---- laws ----

/// Does `part` stand somewhere in `whole`?
pub open spec fn holds(whole: Seq<char>, part: Seq<char>) -> bool {
    exists|i: int|
        0 <= i <= whole.len() - part.len() && #[trigger] whole.subrange(i, i + part.len()) == part
}

/// What stands in a text stands in it with more behind it.
pub proof fn lemma_holds_more(whole: Seq<char>, part: Seq<char>, more: Seq<char>)
    requires
        holds(whole, part),
    ensures
        holds(whole + more, part),
{
    let i = choose|i: int|
        0 <= i <= whole.len() - part.len() && #[trigger] whole.subrange(i, i + part.len()) == part;
    assert((whole + more).subrange(i, i + part.len()) =~= part);
}

/// A text holds what it ends with, be it in one piece or in two.
pub proof fn lemma_holds_end(before: Seq<char>, part: Seq<char>, more: Seq<char>)
    ensures
        holds(before + part, part),
        holds(before + part + more, part + more),
{
    let at = before.len() as int;
    assert((before + part).subrange(at, at + part.len()) =~= part);
    let both = part + more;
    assert((before + part + more).subrange(at, at + both.len()) =~= both);
}

/// Each of the ten digits stands for the number that it shows, and a digit behind a number makes
/// it ten times as large and adds what the digit stands for.
pub proof fn law_digits_are_positional(s: Seq<char>, d: int)
    requires
        0 <= d <= 9,
    ensures
        digits_value(Seq::<char>::empty()) == 0,
        digits_value(s.push(('0' as int + d) as char)) == 10 * digits_value(s) + d,
{
    assert(s.push(('0' as int + d) as char).drop_last() == s);
}

/// A written number has digits only, the first of which is no zero unless the number is zero, and
/// it has no sign unless it is negative.
pub proof fn law_decimal_has_no_leading_zero(n: nat)
    ensures
        decimal(n).len() > 0,
        forall|i: int| 0 <= i < decimal(n).len() ==> '0' <= #[trigger] decimal(n)[i] <= '9',
        decimal(n)[0] == '0' ==> n == 0 && decimal(n).len() == 1,
        signed_decimal(n as int) == decimal(n),
        n > 0 ==> signed_decimal(-n) == seq!['-'] + decimal(n),
    decreases n,
{
    if n >= 10 {
        law_decimal_has_no_leading_zero(n / 10);
    }
}

/// A text is read as an unsigned number exactly if it is a row of digits, after one `+` or without
/// one, whose value is within the limit, and it is read as that value.
pub proof fn law_unsigned_is_read_exactly(s: Seq<char>, max: nat, n: nat)
    ensures
        parsed_unsigned(s, max) == Ok::<_, NumberFault>(n) <==> exists|digits: Seq<char>|
            {
                &&& s == digits || s == seq!['+'] + digits
                &&& digits.len() > 0
                &&& forall|i: int| 0 <= i < digits.len() ==> '0' <= #[trigger] digits[i] <= '9'
                &&& #[trigger] digits_value(digits) == n
                &&& n <= max
            },
{
    let bare = without_plus(s);
    law_faultless_is_a_number(bare, max, NumberFault::TooLarge);
    if parsed_unsigned(s, max) == Ok::<_, NumberFault>(n) {
        if s[0] == '+' {
            assert(s =~= seq!['+'] + bare);
        }
        assert(digits_value(bare) == n);
        assert forall|i: int| 0 <= i < bare.len() implies '0' <= #[trigger] bare[i] <= '9' by {
            assert(is_digit(bare[i]));
        }
    }
    if exists|digits: Seq<char>|
        {
            &&& s == digits || s == seq!['+'] + digits
            &&& digits.len() > 0
            &&& forall|i: int| 0 <= i < digits.len() ==> '0' <= #[trigger] digits[i] <= '9'
            &&& #[trigger] digits_value(digits) == n
            &&& n <= max
        } {
        let digits = choose|digits: Seq<char>|
            {
                &&& s == digits || s == seq!['+'] + digits
                &&& digits.len() > 0
                &&& forall|i: int| 0 <= i < digits.len() ==> '0' <= #[trigger] digits[i] <= '9'
                &&& #[trigger] digits_value(digits) == n
                &&& n <= max
            };
        assert('0' <= digits[0] <= '9');
        if s == seq!['+'] + digits {
            assert(s[0] == '+');
            assert(s.drop_first() =~= digits);
        }
        assert(bare == digits);
        assert(all_digits(bare));
    }
}

/// Is it at `i` that a row of digits goes wrong, with this fault? Up to there all are digits and
/// the number is within the limit, and there stands no digit, or one with which the number is
/// beyond the limit.
pub open spec fn goes_wrong_at(
    s: Seq<char>,
    i: int,
    max: nat,
    beyond: NumberFault,
    fault: NumberFault,
) -> bool {
    &&& 0 <= i < s.len()
    &&& all_digits(s.take(i)) && digits_value(s.take(i)) <= max
    &&& if '0' <= s[i] <= '9' {
        fault == beyond && digits_value(s.take(i + 1)) > max
    } else {
        fault == NumberFault::InvalidDigit
    }
}

/// What is wrong with a row of digits is the first thing that is wrong, from the left.
pub proof fn law_first_fault_comes_first(s: Seq<char>, max: nat, beyond: NumberFault)
    ensures
        first_fault(s, max, beyond) matches Some(fault) ==> exists|i: int| #[trigger]
            goes_wrong_at(s, i, max, beyond, fault),
    decreases s.len(),
{
    if s.len() > 0 && first_fault(s, max, beyond) is Some {
        let fault = first_fault(s, max, beyond)->0;
        let t = s.drop_last();
        let last = s.len() - 1;
        if first_fault(t, max, beyond) is Some {
            law_first_fault_comes_first(t, max, beyond);
            let i = choose|i: int| #[trigger] goes_wrong_at(t, i, max, beyond, fault);
            assert(t[i] == s[i]);
            assert(t.take(i) =~= s.take(i));
            assert(t.take(i + 1) =~= s.take(i + 1));
            assert(goes_wrong_at(s, i, max, beyond, fault));
        } else {
            law_faultless_is_a_number(t, max, beyond);
            assert(s.take(last) =~= t);
            assert(s.take(last + 1) =~= s);
            assert(goes_wrong_at(s, last, max, beyond, fault));
        }
    }
}

/// Nothing is no number, a sign alone is no number, and a `+` before a number makes no difference.
/// What is wrong with a number is what goes wrong first.
pub proof fn law_plus_makes_no_difference(s: Seq<char>, max: nat)
    ensures
        parsed_unsigned(Seq::empty(), max) == Err::<nat, _>(NumberFault::Empty),
        parsed_unsigned(seq!['+'], max) == Err::<nat, _>(NumberFault::InvalidDigit),
        s.len() > 0 && s[0] != '+' ==> parsed_unsigned(seq!['+'] + s, max) == parsed_unsigned(
            s,
            max,
        ),
        s.len() > 0 && s[0] != '+' ==> (parsed_unsigned(s, max) matches Err(fault)
            ==> exists|i: int| #[trigger]
            goes_wrong_at(s, i, max, NumberFault::TooLarge, fault)),
{
    law_first_fault_comes_first(s, max, NumberFault::TooLarge);
    assert(seq!['+'].drop_first() =~= Seq::<char>::empty());
    assert((seq!['+'] + s).drop_first() =~= s);
}

/// A signed number is read as its value, whatever its sign, and what lies beyond 32 bits is too
/// large or too small.
pub proof fn law_signed_is_read_back(n: int)
    ensures
        i32::MIN <= n <= i32::MAX ==> parsed_i32(signed_decimal(n)) == Ok::<_, NumberFault>(n),
        n > i32::MAX ==> parsed_i32(signed_decimal(n)) == Err::<int, _>(NumberFault::TooLarge),
        n < i32::MIN ==> parsed_i32(signed_decimal(n)) == Err::<int, _>(NumberFault::TooSmall),
{
    let size = if n < 0 {
        (-n) as nat
    } else {
        n as nat
    };
    law_decimal_reads_back(size);
    lemma_decimal_digits(size);
    let digits = decimal(size);
    assert(is_digit(digits[0]));
    law_faultless_is_a_number(digits, 0x8000_0000, NumberFault::TooSmall);
    law_faultless_is_a_number(digits, 0x7fff_ffff, NumberFault::TooLarge);
    lemma_only_beyond(digits, 0x8000_0000, NumberFault::TooSmall);
    lemma_only_beyond(digits, 0x7fff_ffff, NumberFault::TooLarge);
    assert(without_plus(digits) == digits);
    if n < 0 {
        assert(signed_decimal(n).drop_first() =~= digits);
    }
}

/// Digits can only be beyond the limit.
proof fn lemma_only_beyond(s: Seq<char>, max: nat, beyond: NumberFault)
    requires
        all_digits(s),
    ensures
        first_fault(s, max, beyond) is Some ==> first_fault(s, max, beyond) == Some(beyond),
    decreases s.len(),
{
    if s.len() > 0 {
        assert(is_digit(s.last()));
        assert forall|i: int| 0 <= i < s.len() - 1 implies is_digit(
            #[trigger] s.drop_last()[i],
        ) by {
            assert(s[i] == s.drop_last()[i]);
        }
        lemma_only_beyond(s.drop_last(), max, beyond);
    }
}

/// Trimming takes white space away at both ends, all of it and nothing else.
pub proof fn law_trimming_takes_white_space_only(s: Seq<char>)
    ensures
        exists|i: int, j: int|
            {
                &&& 0 <= i <= j <= s.len()
                &&& trimmed(s) == #[trigger] s.subrange(i, j)
                &&& forall|k: int| 0 <= k < i ==> is_white_space(#[trigger] s[k])
                &&& forall|k: int| j <= k < s.len() ==> is_white_space(#[trigger] s[k])
            },
        trimmed(s).len() > 0 ==> !is_white_space(trimmed(s)[0]) && !is_white_space(
            trimmed(s).last(),
        ),
        (forall|k: int| 0 <= k < s.len() ==> is_white_space(#[trigger] s[k])) <==> trimmed(
            s,
        ).len() == 0,
{
    law_trimmed_has_no_white_ends(s);
    let i = lemma_start_cut(s);
    let t = trimmed_start(s);
    let n = lemma_end_cut(t);
    let j = i + n;
    assert(t == s.skip(i));
    assert(trimmed(s) == t.take(n));
    assert(s.subrange(i, j) =~= trimmed(s));
    assert forall|k: int| j <= k < s.len() implies is_white_space(#[trigger] s[k]) by {
        assert(t[k - i] == s[k]);
    }
    if trimmed(s).len() == 0 {
        assert forall|k: int| 0 <= k < s.len() implies is_white_space(#[trigger] s[k]) by {
            if k >= j {
                assert(t[k - i] == s[k]);
            }
        }
    } else {
        assert(trimmed(s)[0] == s[i]);
    }
}

proof fn lemma_start_cut(s: Seq<char>) -> (i: int)
    ensures
        0 <= i <= s.len(),
        trimmed_start(s) == s.skip(i),
        forall|k: int| 0 <= k < i ==> is_white_space(#[trigger] s[k]),
    decreases s.len(),
{
    if s.len() > 0 && is_white_space(s[0]) {
        let i = lemma_start_cut(s.drop_first());
        assert(s.drop_first().skip(i) =~= s.skip(i + 1));
        assert forall|k: int| 0 <= k < i + 1 implies is_white_space(#[trigger] s[k]) by {
            if k > 0 {
                assert(s.drop_first()[k - 1] == s[k]);
            }
        }
        i + 1
    } else {
        assert(s.skip(0) =~= s);
        0
    }
}

proof fn lemma_end_cut(s: Seq<char>) -> (n: int)
    ensures
        0 <= n <= s.len(),
        trimmed_end(s) == s.take(n),
        forall|k: int| n <= k < s.len() ==> is_white_space(#[trigger] s[k]),
    decreases s.len(),
{
    if s.len() > 0 && is_white_space(s.last()) {
        let n = lemma_end_cut(s.drop_last());
        assert(s.drop_last().take(n) =~= s.take(n));
        assert forall|k: int| n <= k < s.len() implies is_white_space(#[trigger] s[k]) by {
            if k < s.len() - 1 {
                assert(s.drop_last()[k] == s[k]);
            }
        }
        n
    } else {
        assert(s.take(s.len() as int) =~= s);
        s.len() as int
    }
}

/// A text without white ends is its own trimming, and white space around it makes no difference.
pub proof fn law_padding_is_taken_off(left: Seq<char>, core: Seq<char>, right: Seq<char>)
    requires
        core.len() > 0,
        !is_white_space(core[0]),
        !is_white_space(core.last()),
        forall|k: int| 0 <= k < left.len() ==> is_white_space(#[trigger] left[k]),
        forall|k: int| 0 <= k < right.len() ==> is_white_space(#[trigger] right[k]),
    ensures
        trimmed(left + core + right) == core,
{
    let s = left + core + right;
    law_trimming_takes_white_space_only(s);
    let (i, j) = choose|i: int, j: int|
        {
            &&& 0 <= i <= j <= s.len()
            &&& trimmed(s) == #[trigger] s.subrange(i, j)
            &&& forall|k: int| 0 <= k < i ==> is_white_space(#[trigger] s[k])
            &&& forall|k: int| j <= k < s.len() ==> is_white_space(#[trigger] s[k])
        };
    let a = left.len() as int;
    let b = a + core.len();
    assert(s[a] == core[0]);
    assert(s[b - 1] == core.last());
    assert(i <= a && b <= j);
    assert(trimmed(s).len() == j - i);
    if i < a {
        assert(s[i] == left[i]);
        assert(trimmed(s)[0] == s[i]);
    }
    if j > b {
        assert(s[j - 1] == right[j - 1 - b]);
        assert(trimmed(s).last() == s[j - 1]);
    }
    assert(trimmed(s) =~= core);
}

/// The texts in a row, with a separator between each and the next.
pub open spec fn joined(parts: Seq<Seq<char>>, separator: char) -> Seq<char>
    decreases parts.len(),
{
    if parts.len() == 0 {
        Seq::empty()
    } else if parts.len() == 1 {
        parts[0]
    } else {
        joined(parts.drop_last(), separator).push(separator) + parts.last()
    }
}

/// The pieces of a text hold no separator, and with a separator between each and the next they are
/// the text again.
pub proof fn law_pieces_join_back(s: Seq<char>, separator: char)
    ensures
        pieces(s, separator).len() > 0,
        joined(pieces(s, separator), separator) == s,
        forall|i: int|
            0 <= i < pieces(s, separator).len() ==> !(#[trigger] pieces(s, separator)[i]).contains(
                separator,
            ),
    decreases s.len(),
{
    let all = pieces(s, separator);
    if s.len() == 0 {
        assert(joined(all, separator) =~= s);
    } else {
        law_pieces_join_back(s.drop_last(), separator);
        let before = pieces(s.drop_last(), separator);
        assert(s =~= s.drop_last().push(s.last()));
        if s.last() == separator {
            assert(all.drop_last() =~= before);
            assert(joined(all, separator) =~= s);
        } else {
            assert(all.drop_last() =~= before.drop_last());
            assert(all.last() == before.last().push(s.last()));
            assert(joined(all, separator) =~= s);
            assert forall|i: int| 0 <= i < all.len() implies !(#[trigger] all[i]).contains(
                separator,
            ) by {
                if i < all.len() - 1 {
                    assert(all[i] == before[i]);
                } else {
                    assert(!before[i].contains(separator));
                    assert forall|k: int| 0 <= k < all[i].len() implies all[i][k] != separator by {
                        if k < all[i].len() - 1 {
                            assert(all[i][k] == before[i][k]);
                            assert(before[i].contains(before[i][k]));
                        }
                    }
                }
            }
        }
    }
}

/// Writing texts with a separator between each and the next and taking them apart again gives the
/// texts back, however many they are, if none holds the separator.
pub proof fn law_joined_comes_apart(parts: Seq<Seq<char>>, separator: char)
    requires
        parts.len() > 0,
        forall|i: int| 0 <= i < parts.len() ==> !(#[trigger] parts[i]).contains(separator),
    ensures
        pieces(joined(parts, separator), separator) == parts,
    decreases parts.len(),
{
    if parts.len() == 1 {
        lemma_one_piece(Seq::empty(), parts[0], separator);
        assert(Seq::<char>::empty() + parts[0] =~= parts[0]);
        assert(pieces(parts[0], separator) =~= parts);
    } else {
        let before = parts.drop_last();
        assert forall|i: int| 0 <= i < before.len() implies !(#[trigger] before[i]).contains(
            separator,
        ) by {
            assert(before[i] == parts[i]);
        }
        law_joined_comes_apart(before, separator);
        let start = joined(before, separator).push(separator);
        assert(start.drop_last() =~= joined(before, separator));
        assert(pieces(start, separator) == before.push(Seq::<char>::empty()));
        assert(!parts.last().contains(separator));
        lemma_one_piece(start, parts.last(), separator);
        assert(pieces(joined(parts, separator), separator) =~= parts);
    }
}

/// What follows the last separator goes to the last piece.
proof fn lemma_one_piece(start: Seq<char>, rest: Seq<char>, separator: char)
    requires
        !rest.contains(separator),
        start.len() == 0 || start.last() == separator,
    ensures
        pieces(start + rest, separator) == pieces(start, separator).drop_last().push(rest),
    decreases rest.len(),
{
    if rest.len() == 0 {
        assert(start + rest =~= start);
        assert(pieces(start, separator).last() =~= rest);
        assert(pieces(start, separator).drop_last().push(rest) =~= pieces(start, separator));
    } else {
        let less = rest.drop_last();
        assert(rest.contains(rest.last()));
        assert(!less.contains(separator)) by {
            if less.contains(separator) {
                let k = choose|k: int| 0 <= k < less.len() && less[k] == separator;
                assert(rest[k] == separator);
            }
        }
        lemma_one_piece(start, less, separator);
        assert((start + rest).drop_last() =~= start + less);
        assert(less.push(rest.last()) =~= rest);
        let before = pieces(start + less, separator);
        assert(before.drop_last() =~= pieces(start, separator).drop_last());
        assert(pieces(start + rest, separator) =~= pieces(start, separator).drop_last().push(
            rest,
        ));
    }
}

/// The items of a list are its pieces that are not blank, all of them and in order, each trimmed.
pub proof fn law_items_are_the_pieces_that_are_not_blank(s: Seq<char>, separator: char)
    ensures
        exists|spots: Seq<int>| #[trigger]
            are_spots(spots, list_items(s, separator), s, separator),
{
    let spots = lemma_spots(pieces(s, separator));
    assert(are_spots(spots, list_items(s, separator), s, separator));
}

/// Are these the places of the pieces that are not blank, all of them and in order, and are the
/// items what stands there, trimmed?
pub open spec fn are_spots(
    spots: Seq<int>,
    items: Seq<Seq<char>>,
    s: Seq<char>,
    separator: char,
) -> bool {
    let parts = pieces(s, separator);
    &&& spots.len() == items.len()
    &&& forall|i: int| 0 <= i < spots.len() ==> 0 <= #[trigger] spots[i] < parts.len()
    &&& forall|i: int, j: int| 0 <= i < j < spots.len() ==> spots[i] < spots[j]
    &&& forall|i: int|
        0 <= i < spots.len() ==> #[trigger] items[i] == trimmed(parts[spots[i]])
            && items[i].len() > 0
    &&& forall|p: int|
        0 <= p < parts.len() && trimmed(#[trigger] parts[p]).len() > 0 ==> spots.contains(p)
}

proof fn lemma_spots(parts: Seq<Seq<char>>) -> (spots: Seq<int>)
    ensures
        spots.len() == filled(parts).len(),
        forall|i: int| 0 <= i < spots.len() ==> 0 <= #[trigger] spots[i] < parts.len(),
        forall|i: int, j: int| 0 <= i < j < spots.len() ==> spots[i] < spots[j],
        forall|i: int|
            0 <= i < spots.len() ==> #[trigger] filled(parts)[i] == trimmed(parts[spots[i]])
                && filled(parts)[i].len() > 0,
        forall|p: int|
            0 <= p < parts.len() && trimmed(#[trigger] parts[p]).len() > 0 ==> spots.contains(p),
    decreases parts.len(),
{
    if parts.len() == 0 {
        Seq::empty()
    } else {
        let before = parts.drop_last();
        let old_spots = lemma_spots(before);
        let last = parts.len() - 1;
        let spots = if trimmed(parts.last()).len() == 0 {
            old_spots
        } else {
            old_spots.push(last)
        };
        assert forall|i: int| 0 <= i < spots.len() implies #[trigger] filled(parts)[i] == trimmed(
            parts[spots[i]],
        ) && filled(parts)[i].len() > 0 by {
            if i < old_spots.len() {
                assert(filled(before)[i] == trimmed(before[old_spots[i]]));
                assert(before[old_spots[i]] == parts[old_spots[i]]);
            }
        }
        assert forall|p: int|
            0 <= p < parts.len() && trimmed(#[trigger] parts[p]).len() > 0 implies spots.contains(
            p,
        ) by {
            if p < last {
                assert(before[p] == parts[p]);
                assert(old_spots.contains(p));
                let k = choose|k: int| 0 <= k < old_spots.len() && old_spots[k] == p;
                assert(spots[k] == p);
            } else {
                assert(spots[old_spots.len() as int] == p);
            }
        }
        spots
    }
}

/// Writing items with a separator between each and the next and reading the list gives the items
/// back, however many they are, if they are such as a list can hold.
pub proof fn law_list_reads_back(items: Seq<Seq<char>>, separator: char)
    requires
        items.len() > 0,
        forall|i: int|
            0 <= i < items.len() ==> (#[trigger] items[i]).len() > 0 && !items[i].contains(
                separator,
            ) && !is_white_space(items[i][0]) && !is_white_space(items[i].last()),
    ensures
        list_items(joined(items, separator), separator) == items,
{
    law_joined_comes_apart(items, separator);
    lemma_filled_is_all(items);
}

proof fn lemma_filled_is_all(items: Seq<Seq<char>>)
    requires
        forall|i: int|
            0 <= i < items.len() ==> (#[trigger] items[i]).len() > 0 && !is_white_space(
                items[i][0],
            ) && !is_white_space(items[i].last()),
    ensures
        filled(items) == items,
    decreases items.len(),
{
    if items.len() > 0 {
        let before = items.drop_last();
        assert forall|i: int| 0 <= i < before.len() implies (#[trigger] before[i]).len() > 0
            && !is_white_space(before[i][0]) && !is_white_space(before[i].last()) by {
            assert(before[i] == items[i]);
        }
        lemma_filled_is_all(before);
        let last = items[items.len() - 1];
        law_padding_is_taken_off(Seq::empty(), last, Seq::empty());
        assert(Seq::<char>::empty() + last + Seq::<char>::empty() =~= last);
        assert(filled(items) =~= items);
    } else {
        assert(filled(items) =~= items);
    }
}

/// Lower case changes the letters `A` to `Z` only, each to the letter in the same place of the
/// small alphabet.
pub proof fn law_lower_case(s: Seq<char>, i: int)
    requires
        0 <= i < s.len(),
    ensures
        lower(s).len() == s.len(),
        'A' <= s[i] <= 'Z' ==> 'a' <= lower(s)[i] <= 'z' && lower(s)[i] as int - 'a' as int
            == s[i] as int - 'A' as int,
        !('A' <= s[i] <= 'Z') ==> lower(s)[i] == s[i],
{
}

/// A number is read if its type can hold it, whatever the type, and is too large otherwise.
pub proof fn law_numbers_are_read_up_to_what_fits(
    n: nat,
    s: &str,
    as_u32: Result<u32, NumberFault>,
    as_u16: Result<u16, NumberFault>,
    as_i32: Result<i32, NumberFault>,
)
    requires
        s@ == decimal(n),
        call_ensures(parse_u32, (s,), as_u32),
        call_ensures(parse_u16, (s,), as_u16),
        call_ensures(parse_i32, (s,), as_i32),
    ensures
        match as_u32 {
            Ok(m) => m == n,
            Err(fault) => n > 4294967295 && fault == NumberFault::TooLarge,
        },
        match as_u16 {
            Ok(m) => m == n,
            Err(fault) => n > 65535 && fault == NumberFault::TooLarge,
        },
        match as_i32 {
            Ok(m) => m == n,
            Err(fault) => n > 2147483647 && fault == NumberFault::TooLarge,
        },
{
    law_decimal_reads_back(n);
    lemma_decimal_digits(n);
    law_signed_is_read_back(n as int);
    assert(is_digit(s@[0]));
    law_faultless_is_a_number(s@, 4294967295, NumberFault::TooLarge);
    lemma_only_beyond(s@, 4294967295, NumberFault::TooLarge);
    law_faultless_is_a_number(s@, 65535, NumberFault::TooLarge);
    lemma_only_beyond(s@, 65535, NumberFault::TooLarge);
}

/// What was written is read back: one number and no other is read from its digits.
pub proof fn law_written_number_is_read_back(
    n: u64,
    written: String,
    s: &str,
    r: Result<u32, NumberFault>,
    m: i64,
    signed: String,
    t: &str,
    q: Result<i32, NumberFault>,
)
    requires
        call_ensures(decimal_text, (n,), written),
        s@ == written@,
        call_ensures(parse_u32, (s,), r),
        call_ensures(signed_text, (m,), signed),
        t@ == signed@,
        call_ensures(parse_i32, (t,), q),
    ensures
        match r {
            Ok(k) => k == n,
            Err(fault) => n > 4294967295 && fault == NumberFault::TooLarge,
        },
        match q {
            Ok(k) => k == m,
            Err(fault) => {
                ||| m > 2147483647 && fault == NumberFault::TooLarge
                ||| m < -2147483648 && fault == NumberFault::TooSmall
            },
        },
{
    law_decimal_reads_back(n as nat);
    lemma_decimal_digits(n as nat);
    law_signed_is_read_back(m as int);
    assert(is_digit(s@[0]));
    law_faultless_is_a_number(s@, 4294967295, NumberFault::TooLarge);
    lemma_only_beyond(s@, 4294967295, NumberFault::TooLarge);
}

/// A signed number is read from a minus and digits, or from what an unsigned number is read from.
/// The minus turns the sign round, and what is too large without it is too small with it.
pub proof fn law_minus_turns_the_sign_round(
    digits: &str,
    negative: &str,
    plain: Result<i32, NumberFault>,
    turned: Result<i32, NumberFault>,
    unsigned: Result<u32, NumberFault>,
)
    requires
        negative@ == seq!['-'] + digits@,
        digits@.len() > 0,
        digits@[0] != '+',
        digits@[0] != '-',
        call_ensures(parse_i32, (digits,), plain),
        call_ensures(parse_i32, (negative,), turned),
        call_ensures(parse_u32, (digits,), unsigned),
    ensures
        plain matches Ok(n) ==> turned == Ok::<i32, NumberFault>((-n) as i32),
        turned matches Ok(n) ==> (n > -2147483648 ==> plain == Ok::<i32, NumberFault>((-n) as i32)),
        unsigned matches Ok(n) ==> match plain {
            Ok(k) => k == n,
            Err(fault) => n > 2147483647 && fault == NumberFault::TooLarge,
        },
        plain matches Ok(n) ==> n >= 0 && unsigned == Ok::<u32, NumberFault>(n as u32),
        unsigned matches Ok(n) ==> match turned {
            Ok(k) => k == -n,
            Err(fault) => n > 2147483648 && fault == NumberFault::TooSmall,
        },
{
    assert(negative@.drop_first() =~= digits@);
    assert(without_plus(digits@) == digits@);
    let s = digits@;
    law_faultless_is_a_number(s, 4294967295, NumberFault::TooLarge);
    law_faultless_is_a_number(s, 0x8000_0000, NumberFault::TooSmall);
    law_faultless_is_a_number(s, 0x7fff_ffff, NumberFault::TooLarge);
    if all_digits(s) {
        lemma_only_beyond(s, 0x8000_0000, NumberFault::TooSmall);
        lemma_only_beyond(s, 0x7fff_ffff, NumberFault::TooLarge);
    }
}

/// White space are the characters that Unicode counts as such, by their numbers.
pub proof fn law_white_space_by_number(c: char, r: bool)
    requires
        call_ensures(is_space, (c,), r),
    ensures
        r <==> {
            let code = c as int;
            ||| 9 <= code <= 13
            ||| code == 32
            ||| code == 133
            ||| code == 160
            ||| code == 5760
            ||| 8192 <= code <= 8202
            ||| code == 8232
            ||| code == 8233
            ||| code == 8239
            ||| code == 8287
            ||| code == 12288
        },
        r == is_white_space(c),
{
}

/// Trimming a text takes off the white space around it and nothing else.
pub proof fn law_trim_leaves_the_core(
    left: Seq<char>,
    core: Seq<char>,
    right: Seq<char>,
    s: &str,
    r: String,
)
    requires
        s@ == left + core + right,
        core.len() > 0 ==> !is_white_space(core[0]) && !is_white_space(core.last()),
        forall|k: int| 0 <= k < left.len() ==> is_white_space(#[trigger] left[k]),
        forall|k: int| 0 <= k < right.len() ==> is_white_space(#[trigger] right[k]),
        call_ensures(trim, (s,), r),
    ensures
        r@ == core,
{
    if core.len() > 0 {
        law_padding_is_taken_off(left, core, right);
    } else {
        law_trimming_takes_white_space_only(s@);
        assert forall|k: int| 0 <= k < s@.len() implies is_white_space(#[trigger] s@[k]) by {
            if k < left.len() {
                assert(s@[k] == left[k]);
            } else {
                assert(s@[k] == right[k - left.len()]);
            }
        }
        assert(r@ =~= core);
    }
}

/// A list that was written with separators is read back, whole and in order.
pub proof fn law_split_list_gives_the_items(
    items: Seq<Seq<char>>,
    separator: char,
    s: &str,
    r: Vec<String>,
)
    requires
        items.len() > 0,
        forall|i: int|
            0 <= i < items.len() ==> (#[trigger] items[i]).len() > 0 && !items[i].contains(
                separator,
            ) && !is_white_space(items[i][0]) && !is_white_space(items[i].last()),
        s@ == joined(items, separator),
        call_ensures(split_list, (s, separator), r),
    ensures
        r@.len() == items.len(),
        forall|i: int| 0 <= i < items.len() ==> (#[trigger] r@[i])@ == items[i],
{
    law_list_reads_back(items, separator);
    assert forall|i: int| 0 <= i < items.len() implies (#[trigger] r@[i])@ == items[i] by {
        assert(texts(r@)[i] == r@[i]@);
    }
}

/// Every item of a list is trimmed, holds no separator and is not blank.
pub proof fn law_split_list_gives_no_blank(s: &str, separator: char, r: Vec<String>, i: int)
    requires
        call_ensures(split_list, (s, separator), r),
        0 <= i < r@.len(),
    ensures
        r@[i]@.len() > 0,
        !r@[i]@.contains(separator),
        !is_white_space(r@[i]@[0]),
        !is_white_space(r@[i]@.last()),
{
    law_items_are_the_pieces_that_are_not_blank(s@, separator);
    law_pieces_join_back(s@, separator);
    let spots = choose|spots: Seq<int>| #[trigger]
        are_spots(spots, list_items(s@, separator), s@, separator);
    let item = texts(r@)[i];
    assert(item == r@[i]@);
    let piece = pieces(s@, separator)[spots[i]];
    assert(item == trimmed(piece));
    law_trimming_takes_white_space_only(piece);
    let (a, b) = choose|a: int, b: int|
        {
            &&& 0 <= a <= b <= piece.len()
            &&& trimmed(piece) == #[trigger] piece.subrange(a, b)
            &&& forall|k: int| 0 <= k < a ==> is_white_space(#[trigger] piece[k])
            &&& forall|k: int| b <= k < piece.len() ==> is_white_space(#[trigger] piece[k])
        };
    if item.contains(separator) {
        let k = choose|k: int| 0 <= k < item.len() && item[k] == separator;
        assert(piece[a + k] == separator);
        assert(piece.contains(separator));
    }
}

/// Lower case changes the letters from A to Z and nothing else, and none of them is left.
pub proof fn law_to_lower_changes_capitals_only(s: &str, r: String, i: int)
    requires
        call_ensures(to_lower, (s,), r),
        0 <= i < s@.len(),
    ensures
        r@.len() == s@.len(),
        !('A' <= r@[i] <= 'Z'),
        'A' <= s@[i] <= 'Z' ==> r@[i] as int == s@[i] as int + 32,
        !('A' <= s@[i] <= 'Z') ==> r@[i] == s@[i],
{
    law_lower_case(s@, i);
}

/// Each fault of a number is told in its own words.
pub proof fn law_number_faults_have_their_words(fault: &NumberFault, s: String)
    requires
        call_ensures(NumberFault::message, (fault,), s),
    ensures
        fault is Empty ==> s@ == "cannot parse integer from empty string"@,
        fault is InvalidDigit ==> s@ == "invalid digit found in string"@,
        fault is TooLarge ==> s@ == "number too large to fit in target type"@,
        fault is TooSmall ==> s@ == "number too small to fit in target type"@,
{
}

} // verus!
