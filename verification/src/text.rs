//! Characters and numbers in text.

use vstd::prelude::*;

verus! {

/// `String::push` appends the given character to the end of the string.
pub assume_specification[ String::push ](s: &mut String, c: char)
    ensures
        final(s)@ == old(s)@.push(c),
;

/// The characters of a string.
pub fn chars_of(s: &str) -> (chars: Vec<char>)
    ensures
        chars@ == s@,
{
    let mut chars: Vec<char> = Vec::new();
    for c in iter: s.chars()
        invariant
            chars@ == iter.seq().take(iter.index() as int),
            iter.seq() == s@,
    {
        chars.push(c);
        assert(chars@ =~= iter.seq().take(iter.index() as int + 1));
    }
    assert(s@.take(s@.len() as int) =~= s@);
    chars
}

// ---------------------------------------------------------------------------
// White space
// ---------------------------------------------------------------------------

/// Whether a character has Unicode's White_Space property.
pub open spec fn white_space(c: char) -> bool {
    let n = c as int;
    ||| 0x9 <= n <= 0xd
    ||| n == 0x20
    ||| n == 0x85
    ||| n == 0xa0
    ||| n == 0x1680
    ||| 0x2000 <= n <= 0x200a
    ||| n == 0x2028
    ||| n == 0x2029
    ||| n == 0x202f
    ||| n == 0x205f
    ||| n == 0x3000
}

/// Whether a character has Unicode's White_Space property.
pub fn is_white_space(c: char) -> (b: bool)
    ensures
        b == white_space(c),
{
    let n: u32 = c as u32;
    (0x9 <= n && n <= 0xd) || n == 0x20 || n == 0x85 || n == 0xa0 || n == 0x1680 || (0x2000 <= n
        && n <= 0x200a) || n == 0x2028 || n == 0x2029 || n == 0x202f || n == 0x205f || n == 0x3000
}

/// A text without the white space at its front.
pub open spec fn trimmed_front(s: Seq<char>) -> Seq<char>
    decreases s.len(),
{
    if s.len() > 0 && white_space(s[0]) {
        trimmed_front(s.skip(1))
    } else {
        s
    }
}

/// A text without the white space at its end.
pub open spec fn trimmed_end(s: Seq<char>) -> Seq<char>
    decreases s.len(),
{
    if s.len() > 0 && white_space(s.last()) {
        trimmed_end(s.drop_last())
    } else {
        s
    }
}

/// A text without the white space at its front and at its end.
pub open spec fn trimmed(s: Seq<char>) -> Seq<char> {
    trimmed_end(trimmed_front(s))
}

/// A text without white space.
pub open spec fn without_white_space(s: Seq<char>) -> Seq<char> {
    s.filter(|c: char| !white_space(c))
}

/// Removes the white space around a text.
pub fn trim_chars(chars: &[char]) -> (trimmed_chars: Vec<char>)
    ensures
        trimmed_chars@ == trimmed(chars@),
{
    let mut start: usize = 0;
    assert(chars@.skip(0) =~= chars@);
    while start < chars.len() && is_white_space(chars[start])
        invariant
            start <= chars.len(),
            trimmed_front(chars@.skip(start as int)) == trimmed_front(chars@),
        decreases chars.len() - start,
    {
        assert(chars@.skip(start as int).skip(1) =~= chars@.skip(start + 1));
        start += 1;
    }
    let ghost front = chars@.skip(start as int);
    assert(front == trimmed_front(chars@));
    let mut end: usize = chars.len();
    assert(chars@.subrange(start as int, end as int) =~= front);
    while start < end && is_white_space(chars[end - 1])
        invariant
            start <= end <= chars.len(),
            trimmed_end(chars@.subrange(start as int, end as int)) == trimmed_end(front),
        decreases end,
    {
        assert(chars@.subrange(start as int, end as int).drop_last() =~= chars@.subrange(
            start as int,
            end - 1,
        ));
        end -= 1;
    }
    let mut kept: Vec<char> = Vec::new();
    let mut i: usize = start;
    while i < end
        invariant
            start <= i <= end <= chars.len(),
            kept@ == chars@.subrange(start as int, i as int),
        decreases end - i,
    {
        kept.push(chars[i]);
        assert(kept@ =~= chars@.subrange(start as int, i + 1));
        i += 1;
    }
    kept
}

/// Removes every white space character from a text.
pub fn strip_white_space(s: &str) -> (stripped: String)
    ensures
        stripped@ == without_white_space(s@),
{
    let chars: Vec<char> = chars_of(s);
    let ghost kept = |c: char| !white_space(c);
    let mut stripped: String = String::new();
    let mut i: usize = 0;
    proof {
        reveal(Seq::filter);
        assert(chars@.take(0) =~= Seq::empty());
    }
    while i < chars.len()
        invariant
            i <= chars.len(),
            kept == (|c: char| !white_space(c)),
            stripped@ == chars@.take(i as int).filter(kept),
        decreases chars.len() - i,
    {
        proof {
            reveal(Seq::filter);
            assert(chars@.take(i + 1).drop_last() =~= chars@.take(i as int));
        }
        if !is_white_space(chars[i]) {
            stripped.push(chars[i]);
        }
        i += 1;
    }
    assert(chars@.take(i as int) =~= chars@);
    stripped
}

// ---------------------------------------------------------------------------
// Reading numbers
// ---------------------------------------------------------------------------

/// What a character counts for as a digit; letters are worth 10 and up, in either case.
pub open spec fn digit_value(c: char) -> Option<nat> {
    let n = c as int;
    if 0x30 <= n <= 0x39 {
        Some((n - 0x30) as nat)
    } else if 0x41 <= n <= 0x5a {
        Some((n - 0x41 + 10) as nat)
    } else if 0x61 <= n <= 0x7a {
        Some((n - 0x61 + 10) as nat)
    } else {
        None
    }
}

/// The number that a run of digits writes out, if they all are digits of that base.
pub open spec fn digits_value(s: Seq<char>, radix: nat) -> Option<nat>
    decreases s.len(),
{
    if s.len() == 0 {
        Some(0)
    } else {
        match (digits_value(s.drop_last(), radix), digit_value(s.last())) {
            (Some(v), Some(d)) if d < radix => Some(v * radix + d),
            _ => None,
        }
    }
}

/// An unsigned number in text: at least one digit and nothing else, no sign either. It has to
/// fit in 32 bits.
pub open spec fn plain_value(s: Seq<char>, radix: nat) -> Option<u32> {
    match digits_value(s, radix) {
        Some(v) if s.len() > 0 && v <= u32::MAX => Some(v as u32),
        _ => None,
    }
}

/// An unsigned number in text, with an optional `+` in front.
pub open spec fn unsigned_value(s: Seq<char>, radix: nat) -> Option<u32> {
    if s.len() > 0 && s[0] == '+' {
        plain_value(s.skip(1), radix)
    } else {
        plain_value(s, radix)
    }
}

/// A prefix that is no number, or too large, stays so whatever follows.
proof fn digits_value_of_prefix(s: Seq<char>, i: int, radix: nat)
    requires
        0 <= i <= s.len(),
        radix >= 1,
    ensures
        digits_value(s, radix) matches Some(v) ==> {
            &&& digits_value(s.take(i), radix) is Some
            &&& digits_value(s.take(i), radix)->0 <= v
        },
    decreases s.len(),
{
    if i == s.len() {
        assert(s.take(i) =~= s);
    } else {
        digits_value_of_prefix(s.drop_last(), i, radix);
        assert(s.drop_last().take(i) =~= s.take(i));
        if digits_value(s, radix) is Some {
            let front = digits_value(s.drop_last(), radix)->0;
            assert(front * radix >= front) by (nonlinear_arith)
                requires
                    radix >= 1,
                    front >= 0,
            ;
        }
    }
}

/// The digit that a character stands for.
fn char_digit(c: char) -> (d: Option<u32>)
    ensures
        match d {
            Some(v) => digit_value(c) == Some(v as nat) && v < 36,
            None => digit_value(c) is None,
        },
{
    let n: u32 = c as u32;
    if 0x30 <= n && n <= 0x39 {
        Some(n - 0x30)
    } else if 0x41 <= n && n <= 0x5a {
        Some(n - 0x41 + 10)
    } else if 0x61 <= n && n <= 0x7a {
        Some(n - 0x61 + 10)
    } else {
        None
    }
}

/// Reads the unsigned number that the characters from `start` on write out, without a sign.
pub fn parse_digits(chars: &[char], start: usize, radix: u32) -> (value: Option<u32>)
    requires
        start <= chars@.len(),
        2 <= radix <= 36,
    ensures
        value == plain_value(chars@.skip(start as int), radix as nat),
{
    let ghost digits = chars@.skip(start as int);
    if start == chars.len() {
        return None;
    }
    let mut value: u64 = 0;
    let mut i: usize = start;
    assert(digits.take(0) =~= Seq::empty());
    while i < chars.len()
        invariant
            start <= i <= chars.len(),
            digits == chars@.skip(start as int),
            value <= u32::MAX,
            2 <= radix <= 36,
            digits_value(digits.take(i - start), radix as nat) == Some(value as nat),
            digits.len() > 0,
        decreases chars.len() - i,
    {
        let ghost k = i - start;
        proof {
            assert(digits.take(k + 1).drop_last() =~= digits.take(k));
            assert(digits.take(k + 1).last() == chars@[i as int]);
            digits_value_of_prefix(digits, k + 1, radix as nat);
            assert(value * radix <= u32::MAX * 36) by (nonlinear_arith)
                requires
                    value <= u32::MAX,
                    radix <= 36,
            ;
        }
        match char_digit(chars[i]) {
            Some(d) => {
                if d >= radix {
                    return None;
                }
                value = value * radix as u64 + d as u64;
                if value > 0xffff_ffff {
                    return None;
                }
            },
            None => {
                return None;
            },
        }
        i += 1;
    }
    assert(digits.take(i - start) =~= digits);
    Some(value as u32)
}

/// Reads the unsigned number that characters write out, with an optional `+` in front.
pub fn parse_unsigned(chars: &[char], radix: u32) -> (value: Option<u32>)
    requires
        2 <= radix <= 36,
    ensures
        value == unsigned_value(chars@, radix as nat),
{
    if chars.len() > 0 && chars[0] == '+' {
        parse_digits(chars, 1, radix)
    } else {
        assert(chars@.skip(0) =~= chars@);
        parse_digits(chars, 0, radix)
    }
}

// ---------------------------------------------------------------------------
// Writing numbers
// ---------------------------------------------------------------------------

/// The character of a digit below 16, with capital letters from 10 on.
pub open spec fn hex_digit(d: int) -> char {
    if d < 10 {
        (0x30 + d) as char
    } else {
        (0x41 + d - 10) as char
    }
}

/// A number in hexadecimal, with zeros in front up to `width` digits.
pub open spec fn hex_text(n: nat, width: nat) -> Seq<char>
    decreases n + width,
{
    if n < 16 && width <= 1 {
        seq![hex_digit(n as int)]
    } else {
        hex_text(
            n / 16,
            if width > 0 {
                (width - 1) as nat
            } else {
                0
            },
        ).push(hex_digit((n % 16) as int))
    }
}

/// A number in decimal.
pub open spec fn decimal_text(n: nat) -> Seq<char>
    decreases n,
{
    if n < 10 {
        seq![hex_digit(n as int)]
    } else {
        decimal_text(n / 10).push(hex_digit((n % 10) as int))
    }
}

/// A signed number in decimal.
pub open spec fn signed_text(n: int) -> Seq<char> {
    if n < 0 {
        seq!['-'] + decimal_text((-n) as nat)
    } else {
        decimal_text(n as nat)
    }
}

fn digit_char(d: u8) -> (c: char)
    requires
        d < 16,
    ensures
        c == hex_digit(d as int),
{
    if d < 10 {
        (0x30 + d) as char
    } else {
        (0x41 + (d - 10)) as char
    }
}

/// Appends a number in hexadecimal.
pub fn push_hex(out: &mut String, n: u32, width: u32)
    ensures
        final(out)@ == old(out)@ + hex_text(n as nat, width as nat),
    decreases n + width,
{
    if n < 16 && width <= 1 {
        out.push(digit_char(n as u8));
        assert(out@ =~= old(out)@ + hex_text(n as nat, width as nat));
    } else {
        push_hex(out, n / 16, if width > 0 { width - 1 } else { 0 });
        out.push(digit_char((n % 16) as u8));
        assert(out@ =~= old(out)@ + hex_text(n as nat, width as nat));
    }
}

/// Appends a number in decimal.
pub fn push_decimal(out: &mut String, n: u64)
    ensures
        final(out)@ == old(out)@ + decimal_text(n as nat),
    decreases n,
{
    if n < 10 {
        out.push(digit_char(n as u8));
        assert(out@ =~= old(out)@ + decimal_text(n as nat));
    } else {
        push_decimal(out, n / 10);
        out.push(digit_char((n % 10) as u8));
        assert(out@ =~= old(out)@ + decimal_text(n as nat));
    }
}

/// Appends a signed number in decimal.
pub fn push_signed(out: &mut String, n: i32)
    ensures
        final(out)@ == old(out)@ + signed_text(n as int),
{
    if n < 0 {
        out.push('-');
        push_decimal(out, (-(n as i64)) as u64);
        assert(out@ =~= old(out)@ + signed_text(n as int));
    } else {
        push_decimal(out, n as u64);
    }
}

// ---------------------------------------------------------------------------
// What holds of texts
// ---------------------------------------------------------------------------

/// White space is the 25 characters to which Unicode gives that property: the space, tab, the
/// characters that end lines or pages, and the other spaces; and nothing else is.
pub proof fn white_space_is_listed(c: char)
    ensures
        white_space(c) <==> set![
            0x9int, 0xa, 0xb, 0xc, 0xd, 0x20, 0x85, 0xa0, 0x1680, 0x2000, 0x2001, 0x2002, 0x2003,
            0x2004, 0x2005, 0x2006, 0x2007, 0x2008, 0x2009, 0x200a, 0x2028, 0x2029, 0x202f, 0x205f,
            0x3000,
        ].contains(c as int),
{
}

/// Trimming cuts a text in three: white space in front, white space behind, and between them the
/// trimmed text, which is empty or begins and ends with something else.
pub proof fn trimming_cuts_white_space_off(s: Seq<char>) -> (cut: (Seq<char>, Seq<char>))
    ensures
        s == cut.0 + trimmed(s) + cut.1,
        forall|i: int| 0 <= i < cut.0.len() ==> white_space(#[trigger] cut.0[i]),
        forall|i: int| 0 <= i < cut.1.len() ==> white_space(#[trigger] cut.1[i]),
        trimmed(s).len() > 0 ==> !white_space(trimmed(s)[0]) && !white_space(trimmed(s).last()),
{
    let front = cut_front(s);
    let behind = cut_end(trimmed_front(s));
    assert(s =~= front + trimmed(s) + behind);
    if trimmed(s).len() > 0 {
        assert(trimmed(s)[0] == trimmed_front(s)[0]);
    }
    (front, behind)
}

proof fn cut_front(s: Seq<char>) -> (cut: Seq<char>)
    ensures
        s == cut + trimmed_front(s),
        forall|i: int| 0 <= i < cut.len() ==> white_space(#[trigger] cut[i]),
        trimmed_front(s).len() > 0 ==> !white_space(trimmed_front(s)[0]),
    decreases s.len(),
{
    if s.len() > 0 && white_space(s[0]) {
        let rest = cut_front(s.skip(1));
        let cut = seq![s[0]] + rest;
        assert(s =~= seq![s[0]] + s.skip(1));
        assert(s =~= cut + trimmed_front(s));
        cut
    } else {
        assert(s =~= Seq::<char>::empty() + s);
        Seq::empty()
    }
}

proof fn cut_end(s: Seq<char>) -> (cut: Seq<char>)
    ensures
        s == trimmed_end(s) + cut,
        forall|i: int| 0 <= i < cut.len() ==> white_space(#[trigger] cut[i]),
        trimmed_end(s).len() > 0 ==> !white_space(trimmed_end(s).last()),
    decreases s.len(),
{
    if s.len() > 0 && white_space(s.last()) {
        let rest = cut_end(s.drop_last());
        let cut = rest.push(s.last());
        assert(s =~= s.drop_last().push(s.last()));
        assert(s =~= trimmed_end(s) + cut);
        cut
    } else {
        assert(s =~= s + Seq::<char>::empty());
        Seq::empty()
    }
}

/// Removing white space drops each character that is some, keeps each other one, and keeps the
/// order.
pub proof fn white_space_is_dropped(a: Seq<char>, b: Seq<char>, c: char)
    ensures
        without_white_space(Seq::empty()).len() == 0,
        white_space(c) ==> without_white_space(seq![c]).len() == 0,
        !white_space(c) ==> without_white_space(seq![c]) == seq![c],
        without_white_space(a + b) == without_white_space(a) + without_white_space(b),
{
    reveal(Seq::filter);
    let none = seq![c].drop_last();
    assert(none =~= Seq::<char>::empty());
    assert(without_white_space(none) =~= Seq::<char>::empty());
    assert(seq![c].last() == c);
    if !white_space(c) {
        assert(without_white_space(seq![c]) =~= seq![c]);
    }
    Seq::filter_distributes_over_add(a, b, |d: char| !white_space(d));
}

/// The digits are 0 to 9, and the letters from A to Z and from a to z, which count on from 10.
pub proof fn digits_are_counted(c: char, d: nat)
    ensures
        digit_value(c) == Some(d) <==> d < 10 && c as int == '0' as int + d || 10 <= d < 36 && (
        c as int == 'A' as int + (d - 10) || c as int == 'a' as int + (d - 10)),
{
}

/// A run of digits is read from the left: each further digit counts for itself, and makes the ones
/// before it count for as many times more as the base says. With something else among them, or a
/// digit that the base does not have, it is no number.
pub proof fn digits_are_read_from_the_left(s: Seq<char>, c: char, radix: nat)
    ensures
        digits_value(Seq::empty(), radix) == Some(0nat),
        digits_value(s, radix) is None ==> digits_value(s.push(c), radix) is None,
        digit_value(c) is None ==> digits_value(s.push(c), radix) is None,
        digit_value(c) matches Some(d) ==> d >= radix ==> digits_value(s.push(c), radix) is None,
        digits_value(s, radix) matches Some(v) ==> (digit_value(c) matches Some(d) ==> d < radix
            ==> digits_value(s.push(c), radix) == Some(v * radix + d)),
{
    assert(s.push(c).drop_last() =~= s);
}

/// A number without a sign is read where there are digits, no others than those of the base, and
/// where 32 bits can hold it; what is read is its value.
pub proof fn plain_numbers_are_read(s: Seq<char>, radix: nat, v: u32)
    ensures
        plain_value(s, radix) == Some(v) <==> s.len() > 0 && digits_value(s, radix) == Some(
            v as nat,
        ),
        plain_value(s, radix) is None <==> s.len() == 0 || digits_value(s, radix) is None
            || digits_value(s, radix)->0 > 0xffff_ffff,
{
}

/// A plus sign in front of a number does not matter. It is no number itself, and only one is
/// allowed.
pub proof fn one_plus_sign_is_ignored(s: Seq<char>, radix: nat)
    ensures
        s.len() > 0 && s[0] != '+' ==> unsigned_value(seq!['+'] + s, radix) == unsigned_value(
            s,
            radix,
        ) && unsigned_value(s, radix) == plain_value(s, radix),
        s.len() == 0 ==> unsigned_value(seq!['+'] + s, radix) is None,
        unsigned_value(seq!['+', '+'] + s, radix) is None,
{
    let signed = seq!['+'] + s;
    assert(signed.skip(1) =~= s);
    let twice = seq!['+', '+'] + s;
    assert(twice.skip(1) =~= seq!['+'] + s);
    no_number_with_a_bad_digit(signed, 0, radix);
}

/// Anything that is no digit of the base, anywhere in a text, makes the text no number.
pub proof fn no_number_with_a_bad_digit(s: Seq<char>, i: int, radix: nat)
    requires
        0 <= i < s.len(),
        digit_value(s[i]) is None || digit_value(s[i])->0 >= radix,
    ensures
        digits_value(s, radix) is None,
    decreases s.len(),
{
    if i < s.len() - 1 {
        no_number_with_a_bad_digit(s.drop_last(), i, radix);
    }
}

/// The digits that numbers are written with are 0 to 9 and A to F.
pub proof fn written_digits(d: int)
    requires
        0 <= d < 16,
    ensures
        digit_value(hex_digit(d)) == Some(d as nat),
        '0' as int <= hex_digit(d) as int <= '9' as int || 'A' as int <= hex_digit(d) as int
            <= 'F' as int,
{
}

/// A number in hexadecimal reads back. It is written with 0 to 9 and A to F, takes up at least the
/// width asked for, and has no zero in front beyond that.
pub proof fn hexadecimal_reads_back(n: nat, width: nat)
    ensures
        digits_value(hex_text(n, width), 16) == Some(n),
        forall|i: int|
            0 <= i < hex_text(n, width).len() ==> '0' as int <= #[trigger] hex_text(
                n,
                width,
            )[i] as int <= '9' as int || 'A' as int <= hex_text(n, width)[i] as int <= 'F' as int,
        hex_text(n, width).len() >= width,
        hex_text(n, width).len() >= 1,
        hex_text(n, width)[0] == '0' ==> hex_text(n, width).len() == width || hex_text(
            n,
            width,
        ).len() == 1,
    decreases n + width,
{
    let s = hex_text(n, width);
    if n < 16 && width <= 1 {
        let none = s.drop_last();
        assert(none =~= Seq::<char>::empty());
        assert(digits_value(none, 16) == Some(0nat));
        written_digits(n as int);
    } else {
        let less = if width > 0 {
            (width - 1) as nat
        } else {
            0
        };
        let front = hex_text(n / 16, less);
        hexadecimal_reads_back(n / 16, less);
        written_digits((n % 16) as int);
        assert(s.drop_last() =~= front);
        assert((n / 16) * 16 + n % 16 == n);
        assert(s[0] == front[0]);
        assert forall|i: int| 0 <= i < s.len() implies '0' as int <= #[trigger] s[i] as int
            <= '9' as int || 'A' as int <= s[i] as int <= 'F' as int by {
            if i < front.len() {
                assert(s[i] == front[i]);
            }
        }
        if s[0] == '0' && front.len() == 1 && width != 2 {
            assert(digits_value(front, 16) == Some(n / 16));
            let none = front.drop_last();
            assert(none =~= Seq::<char>::empty());
            assert(digits_value(none, 16) == Some(0nat));
            assert(digit_value('0') == Some(0nat));
            assert(n / 16 == 0);
            assert(width > 2);
            assert(less >= 2);
            assert(false);
        }
    }
}

/// A number in decimal reads back. It is written with 0 to 9, and has no zero in front unless it is
/// zero.
pub proof fn decimal_reads_back(n: nat)
    ensures
        digits_value(decimal_text(n), 10) == Some(n),
        forall|i: int|
            0 <= i < decimal_text(n).len() ==> '0' as int <= #[trigger] decimal_text(n)[i] as int
                <= '9' as int,
        decimal_text(n).len() >= 1,
        decimal_text(n)[0] == '0' ==> n == 0 && decimal_text(n).len() == 1,
    decreases n,
{
    let s = decimal_text(n);
    if n < 10 {
        let none = s.drop_last();
        assert(none =~= Seq::<char>::empty());
        assert(digits_value(none, 10) == Some(0nat));
        written_digits(n as int);
    } else {
        let front = decimal_text(n / 10);
        decimal_reads_back(n / 10);
        written_digits((n % 10) as int);
        assert(s.drop_last() =~= front);
        assert((n / 10) * 10 + n % 10 == n);
        assert(s[0] == front[0]);
        assert forall|i: int| 0 <= i < s.len() implies '0' as int <= #[trigger] s[i] as int
            <= '9' as int by {
            if i < front.len() {
                assert(s[i] == front[i]);
            }
        }
    }
}

/// A signed number is written in decimal, behind a minus sign where it is negative.
pub proof fn signs_are_written(n: int)
    ensures
        n >= 0 ==> digits_value(signed_text(n), 10) == Some(n as nat) && signed_text(n)
            == decimal_text(n as nat),
        n < 0 ==> signed_text(n)[0] == '-' && signed_text(n).skip(1) == decimal_text((-n) as nat)
            && digits_value(signed_text(n).skip(1), 10) == Some((-n) as nat),
{
    if n < 0 {
        decimal_reads_back((-n) as nat);
        assert(signed_text(n).skip(1) =~= decimal_text((-n) as nat));
    } else {
        decimal_reads_back(n as nat);
    }
}

} // verus!
