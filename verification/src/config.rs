//! The font.json-style config: font metadata (`props`), the glyph list, and where each glyph's
//! SVG source file lives.

use vstd::prelude::*;

use crate::glyph_map::GlyphMap;
use crate::text::{
    chars_of, decimal_text, digit_value, digits_value, hex_digit, hex_text, hexadecimal_reads_back,
    no_number_with_a_bad_digit, parse_digits, parse_unsigned, plain_value, push_hex, trim_chars,
    trimmed, trimmed_end, trimmed_front, unsigned_value, white_space,
};

verus! {

/// A JSON object.
#[verifier::external_type_specification]
#[verifier::external_body]
#[verifier::reject_recursive_types(K)]
#[verifier::reject_recursive_types(V)]
pub struct ExJsonMap<K, V>(serde_json::Map<K, V>);

/// A JSON value.
#[verifier::external_type_specification]
#[verifier::external_body]
pub struct ExJsonValue(serde_json::Value);

/// The font.json-style config: font metadata (`props`), the glyph list, and where each glyph's
/// SVG source file lives.
#[derive(Debug)]
pub struct Config {
    pub props: serde_json::Map<String, serde_json::Value>,
    /// Folder that glyph "src" paths are relative to
    pub input: Option<String>,
    pub output: Vec<String>,
    pub glyphs: GlyphMap,
}

/// One glyph of the config.
#[derive(Debug)]
pub struct GlyphEntry {
    pub src: String,
    /// any other per-glyph attributes (width, emoji, altuni, ...) - kept but not interpreted yet
    pub extra: serde_json::Map<String, serde_json::Value>,
}

/// The entries of a JSON object whose values are texts.
pub uninterp spec fn string_entries(
    object: serde_json::Map<String, serde_json::Value>,
) -> Map<Seq<char>, Seq<char>>;

/// `serde_json::Map::get`, then `serde_json::Value::as_str`: the value of an entry, where there
/// is one and it is a text.
#[verifier::external_body]
fn get_str<'a>(object: &'a serde_json::Map<String, serde_json::Value>, key: &str) -> (value: Option<
    &'a str,
>)
    ensures
        (match value {
            Some(text) => string_entries(*object).contains_key(key@) && string_entries(
                *object,
            )[key@] == text@,
            None => !string_entries(*object).contains_key(key@),
        }),
{
    object.get(key).and_then(serde_json::Value::as_str)
}

impl Config {
    /// Whether the glyphs stand in the order of their keys, each key once.
    pub open spec fn well_formed(self) -> bool {
        self.glyphs.well_formed()
    }

    /// The font family that the config names.
    pub open spec fn family_text(self) -> Seq<char> {
        if string_entries(self.props).contains_key("family"@) {
            string_entries(self.props)["family"@]
        } else {
            "(no family set)"@
        }
    }

    /// The font family that the config names.
    pub fn family(&self) -> (family: &str)
        ensures
            family@ == self.family_text(),
    {
        match get_str(&self.props, "family") {
            Some(family) => family,
            None => "(no family set)",
        }
    }

    /// The folder that glyph sources are looked for in.
    pub open spec fn folder_text(self) -> Seq<char> {
        match self.input {
            Some(input) => input@,
            None => "."@,
        }
    }

    /// The folder that glyph sources are looked for in, relative to the config's own: the
    /// config's "input", or "." where there is none.
    pub fn input_folder(&self) -> (folder: &str)
        ensures
            folder@ == (match self.input {
                Some(input) => input@,
                None => "."@,
            }),
            folder@ == self.folder_text(),
    {
        match &self.input {
            Some(input) => input.as_str(),
            None => ".",
        }
    }
}

// ---------------------------------------------------------------------------
// Codepoints
// ---------------------------------------------------------------------------

/// Whether a text starts with two given characters.
pub open spec fn starts_with(s: Seq<char>, first: char, second: char) -> bool {
    s.len() >= 2 && s[0] == first && s[1] == second
}

/// The codepoint that a glyph's key names, without white space around it: hexadecimal digits
/// behind `U+`, `u+`, `0x` or `0X`, a decimal number otherwise.
pub open spec fn codepoint_of_trimmed(k: Seq<char>) -> Option<u32> {
    if starts_with(k, 'U', '+') || starts_with(k, 'u', '+') || starts_with(k, '0', 'x')
        || starts_with(k, '0', 'X') {
        plain_value(k.skip(2), 16)
    } else {
        unsigned_value(k, 10)
    }
}

/// The codepoint that a glyph's key names.
pub open spec fn codepoint_of(key: Seq<char>) -> Option<u32> {
    codepoint_of_trimmed(trimmed(key))
}

/// Mirrors Python's `int(k, 0)`: accepts "0xE000", "0XE000", "U+E000", or plain decimal.
pub fn parse_codepoint(key: &str) -> (codepoint: Option<u32>)
    ensures
        codepoint == codepoint_of(key@),
{
    let chars: Vec<char> = chars_of(key);
    let k: Vec<char> = trim_chars(chars.as_slice());
    if k.len() >= 2 {
        let first: char = k[0];
        let second: char = k[1];
        if (first == 'U' || first == 'u') && second == '+' {
            return parse_digits(k.as_slice(), 2, 16);
        }
        if first == '0' && (second == 'x' || second == 'X') {
            return parse_digits(k.as_slice(), 2, 16);
        }
    }
    parse_unsigned(k.as_slice(), 10)
}

/// How a codepoint is shown: `U+` and at least four hexadecimal digits.
pub open spec fn codepoint_text(codepoint: u32) -> Seq<char> {
    seq!['U', '+'] + hex_text(codepoint as nat, 4)
}

/// How a codepoint is shown: `U+` and at least four hexadecimal digits.
pub fn codepoint_hex(codepoint: u32) -> (shown: String)
    ensures
        shown@ == codepoint_text(codepoint),
{
    let mut shown: String = String::new();
    shown.push('U');
    shown.push('+');
    push_hex(&mut shown, codepoint, 4);
    assert(shown@ =~= codepoint_text(codepoint));
    shown
}

proof fn trim_keeps_tight_text(s: Seq<char>)
    requires
        s.len() > 0,
        !white_space(s[0]),
        !white_space(s.last()),
    ensures
        trimmed(s) == s,
{
}

proof fn trimmed_front_of_padded(pad: Seq<char>, s: Seq<char>)
    requires
        forall|i: int| 0 <= i < pad.len() ==> white_space(#[trigger] pad[i]),
    ensures
        trimmed_front(pad + s) == trimmed_front(s),
    decreases pad.len(),
{
    if pad.len() == 0 {
        assert(pad + s =~= s);
    } else {
        assert((pad + s).skip(1) =~= pad.skip(1) + s);
        trimmed_front_of_padded(pad.skip(1), s);
    }
}

proof fn trimmed_end_of_padded(s: Seq<char>, pad: Seq<char>)
    requires
        forall|i: int| 0 <= i < pad.len() ==> white_space(#[trigger] pad[i]),
    ensures
        trimmed_end(s + pad) == trimmed_end(s),
    decreases pad.len(),
{
    if pad.len() == 0 {
        assert(s + pad =~= s);
    } else {
        assert((s + pad).drop_last() =~= s + pad.drop_last());
        assert(white_space(pad[pad.len() - 1]));
        trimmed_end_of_padded(s, pad.drop_last());
    }
}

/// Trimming the front of a text with padding behind it leaves the padding, unless nothing else
/// is left.
proof fn trimmed_front_with_end(s: Seq<char>, pad: Seq<char>)
    requires
        forall|i: int| 0 <= i < pad.len() ==> white_space(#[trigger] pad[i]),
    ensures
        trimmed_end(trimmed_front(s + pad)) == trimmed_end(trimmed_front(s)),
    decreases s.len(),
{
    if s.len() == 0 {
        assert(s + pad =~= pad + s);
        trimmed_front_of_padded(pad, s);
    } else if white_space(s[0]) {
        assert((s + pad).skip(1) =~= s.skip(1) + pad);
        trimmed_front_with_end(s.skip(1), pad);
    } else {
        trimmed_end_of_padded(s, pad);
    }
}

/// White space around a key does not matter.
pub proof fn codepoint_ignores_padding(before: Seq<char>, key: Seq<char>, behind: Seq<char>)
    requires
        forall|i: int| 0 <= i < before.len() ==> white_space(#[trigger] before[i]),
        forall|i: int| 0 <= i < behind.len() ==> white_space(#[trigger] behind[i]),
    ensures
        codepoint_of(before + key + behind) == codepoint_of(key),
{
    assert(before + key + behind =~= before + (key + behind));
    trimmed_front_of_padded(before, key + behind);
    trimmed_front_with_end(key, behind);
}

/// The four prefixes of a hexadecimal key mean the same.
pub proof fn codepoint_prefixes_agree(hex: Seq<char>)
    ensures
        codepoint_of(seq!['u', '+'] + hex) == codepoint_of(seq!['U', '+'] + hex),
        codepoint_of(seq!['0', 'x'] + hex) == codepoint_of(seq!['U', '+'] + hex),
        codepoint_of(seq!['0', 'X'] + hex) == codepoint_of(seq!['U', '+'] + hex),
{
    prefixed_codepoint('U', '+', hex);
    prefixed_codepoint('u', '+', hex);
    prefixed_codepoint('0', 'x', hex);
    prefixed_codepoint('0', 'X', hex);
}

/// Behind a prefix only the end of the text is trimmed.
proof fn prefixed_codepoint(first: char, second: char, hex: Seq<char>)
    requires
        starts_with(seq![first, second], 'U', '+') || starts_with(seq![first, second], 'u', '+')
            || starts_with(seq![first, second], '0', 'x') || starts_with(
            seq![first, second],
            '0',
            'X',
        ),
    ensures
        codepoint_of(seq![first, second] + hex) == plain_value(trimmed_end(hex), 16),
{
    let s = seq![first, second] + hex;
    assert(seq![first, second][0] == first && seq![first, second][1] == second);
    assert(trimmed_front(s) == s);
    trimmed_end_behind(seq![first, second], hex);
    assert(trimmed(s).skip(2) =~= trimmed_end(hex));
}

proof fn trimmed_end_behind(front: Seq<char>, s: Seq<char>)
    requires
        front.len() > 0,
        !white_space(front.last()),
    ensures
        trimmed_end(front + s) == front + trimmed_end(s),
    decreases s.len(),
{
    if s.len() > 0 && white_space(s.last()) {
        assert((front + s).drop_last() =~= front + s.drop_last());
        trimmed_end_behind(front, s.drop_last());
    } else if s.len() == 0 {
        assert(front + s =~= front);
    } else {
        assert((front + s).last() == s.last());
    }
}

proof fn hex_text_reads_back(n: nat, width: nat)
    ensures
        hex_text(n, width).len() > 0,
        digits_value(hex_text(n, width), 16) == Some(n),
        forall|i: int|
            0 <= i < hex_text(n, width).len() ==> digit_value(#[trigger] hex_text(n, width)[i])
                is Some,
    decreases n + width,
{
    let s = hex_text(n, width);
    if n < 16 && width <= 1 {
        reveal_with_fuel(digits_value, 2);
        assert(s.drop_last() =~= Seq::empty());
        assert(digit_value(hex_digit(n as int)) == Some(n));
    } else {
        let less = if width > 0 {
            (width - 1) as nat
        } else {
            0
        };
        hex_text_reads_back(n / 16, less);
        assert(s.drop_last() =~= hex_text(n / 16, less));
        assert(s.last() == hex_digit((n % 16) as int));
        assert(digit_value(hex_digit((n % 16) as int)) == Some(n % 16));
        assert((n / 16) * 16 + n % 16 == n);
        assert forall|i: int| 0 <= i < s.len() implies digit_value(#[trigger] s[i]) is Some by {
            if i < s.len() - 1 {
                assert(s[i] == hex_text(n / 16, less)[i]);
            }
        }
    }
}

/// What is shown for a codepoint is a key that names it.
pub proof fn codepoint_text_reads_back(codepoint: u32)
    ensures
        codepoint_of(codepoint_text(codepoint)) == Some(codepoint),
{
    let s = codepoint_text(codepoint);
    let hex = hex_text(codepoint as nat, 4);
    hex_text_reads_back(codepoint as nat, 4);
    assert(digit_value(hex[0]) is Some);
    assert(digit_value(hex[hex.len() - 1]) is Some);
    assert(s.last() == hex.last());
    trim_keeps_tight_text(s);
    assert(s.skip(2) =~= hex);
}

/// A text without white space around it stays as it is when trimmed.
proof fn trimming_twice(s: Seq<char>)
    ensures
        trimmed(trimmed(s)) == trimmed(s),
{
    let front = trimmed_front(s);
    trimmed_front_is_tight(s);
    trimmed_end_is_tight(front);
    assert(trimmed_front(trimmed_end(front)) == trimmed_end(front));
}

proof fn trimmed_front_is_tight(s: Seq<char>)
    ensures
        trimmed_front(s).len() > 0 ==> !white_space(trimmed_front(s)[0]),
    decreases s.len(),
{
    if s.len() > 0 && white_space(s[0]) {
        trimmed_front_is_tight(s.skip(1));
    }
}

proof fn trimmed_end_is_tight(s: Seq<char>)
    ensures
        trimmed_end(s).len() > 0 ==> !white_space(trimmed_end(s).last()) && trimmed_end(s)[0]
            == s[0],
        trimmed_end(trimmed_end(s)) == trimmed_end(s),
    decreases s.len(),
{
    if s.len() > 0 && white_space(s.last()) {
        trimmed_end_is_tight(s.drop_last());
    }
}

/// A key names what it names when trimmed.
pub proof fn codepoint_of_trimmed_key(key: Seq<char>)
    ensures
        codepoint_of(trimmed(key)) == codepoint_of(key),
{
    trimming_twice(key);
}

/// A letter from A to Z as a small one; any other character as it is.
pub open spec fn small(c: char) -> char {
    if 0x41 <= c as int <= 0x5a {
        (c as int + 0x20) as char
    } else {
        c
    }
}

/// A text with its letters from A to Z as small ones.
pub open spec fn lower_case(s: Seq<char>) -> Seq<char> {
    s.map_values(|c: char| small(c))
}

proof fn small_char(c: char)
    ensures
        white_space(small(c)) == white_space(c),
        digit_value(small(c)) == digit_value(c),
        small(c) == '+' <==> c == '+',
        small(c) == '0' <==> c == '0',
        small(c) == 'u' <==> c == 'u' || c == 'U',
        small(c) == 'x' <==> c == 'x' || c == 'X',
        small(c) != 'U',
        small(c) != 'X',
{
    if 0x41 <= c as int <= 0x5a {
        assert(small(c) as int == c as int + 0x20);
    }
}

proof fn lower_case_front(s: Seq<char>)
    ensures
        trimmed_front(lower_case(s)) == lower_case(trimmed_front(s)),
    decreases s.len(),
{
    if s.len() > 0 {
        small_char(s[0]);
        if white_space(s[0]) {
            assert(lower_case(s).skip(1) =~= lower_case(s.skip(1)));
            lower_case_front(s.skip(1));
        }
    }
}

proof fn lower_case_end(s: Seq<char>)
    ensures
        trimmed_end(lower_case(s)) == lower_case(trimmed_end(s)),
    decreases s.len(),
{
    if s.len() > 0 {
        small_char(s.last());
        if white_space(s.last()) {
            assert(lower_case(s).drop_last() =~= lower_case(s.drop_last()));
            lower_case_end(s.drop_last());
        }
    }
}

proof fn lower_case_digits(s: Seq<char>, radix: nat)
    ensures
        digits_value(lower_case(s), radix) == digits_value(s, radix),
    decreases s.len(),
{
    if s.len() > 0 {
        small_char(s.last());
        assert(lower_case(s).drop_last() =~= lower_case(s.drop_last()));
        lower_case_digits(s.drop_last(), radix);
    }
}

/// Whether the letters of a key are capital ones or small ones does not matter.
pub proof fn codepoint_ignores_case(key: Seq<char>)
    ensures
        codepoint_of(lower_case(key)) == codepoint_of(key),
{
    lower_case_front(key);
    lower_case_end(trimmed_front(key));
    let k = trimmed(key);
    let low = lower_case(k);
    assert(trimmed(lower_case(key)) == low);
    lower_case_digits(k, 10);
    if k.len() > 0 {
        small_char(k[0]);
        lower_case_digits(k.skip(1), 10);
        assert(low.skip(1) =~= lower_case(k.skip(1)));
    }
    if k.len() >= 2 {
        small_char(k[1]);
        lower_case_digits(k.skip(2), 16);
        assert(low.skip(2) =~= lower_case(k.skip(2)));
    }
}

/// What is shown for a codepoint is a key that names it, in small letters too.
pub proof fn lower_case_text_reads_back(codepoint: u32)
    ensures
        codepoint_of(lower_case(codepoint_text(codepoint))) == Some(codepoint),
{
    codepoint_text_reads_back(codepoint);
    codepoint_ignores_case(codepoint_text(codepoint));
}

proof fn decimal_text_reads_back(n: nat)
    ensures
        decimal_text(n).len() > 0,
        digits_value(decimal_text(n), 10) == Some(n),
        forall|i: int|
            0 <= i < decimal_text(n).len() ==> 0x30 <= #[trigger] decimal_text(n)[i] as int <= 0x39,
    decreases n,
{
    let s = decimal_text(n);
    if n < 10 {
        reveal_with_fuel(digits_value, 2);
        assert(s.drop_last() =~= Seq::empty());
        assert(digit_value(hex_digit(n as int)) == Some(n));
    } else {
        decimal_text_reads_back(n / 10);
        assert(s.drop_last() =~= decimal_text(n / 10));
        assert(digit_value(hex_digit((n % 10) as int)) == Some(n % 10));
        assert((n / 10) * 10 + n % 10 == n);
        assert forall|i: int| 0 <= i < s.len() implies 0x30 <= #[trigger] s[i] as int <= 0x39 by {
            if i < s.len() - 1 {
                assert(s[i] == decimal_text(n / 10)[i]);
            }
        }
    }
}

/// A codepoint written out in decimal is a key that names it.
pub proof fn decimal_key_reads_back(codepoint: u32)
    ensures
        codepoint_of(decimal_text(codepoint as nat)) == Some(codepoint),
{
    let s = decimal_text(codepoint as nat);
    decimal_text_reads_back(codepoint as nat);
    assert(0x30 <= s[0] as int <= 0x39);
    assert(0x30 <= s[s.len() - 1] as int <= 0x39);
    if s.len() >= 2 {
        assert(0x30 <= s[1] as int <= 0x39);
    }
    trim_keeps_tight_text(s);
}

/// The value of a hexadecimal digit: 0 to 9, and A to F or a to f, which count on from 10.
pub open spec fn hex_digit_value(c: char) -> Option<int> {
    if '0' as int <= c as int <= '9' as int {
        Some(c as int - '0' as int)
    } else if 'A' as int <= c as int <= 'F' as int {
        Some(c as int - 'A' as int + 10)
    } else if 'a' as int <= c as int <= 'f' as int {
        Some(c as int - 'a' as int + 10)
    } else {
        None
    }
}

proof fn hex_digits_count(c: char)
    ensures
        hex_digit_value(c) matches Some(d) ==> digit_value(c) == Some(d as nat) && 0 <= d < 16,
        hex_digit_value(c) is None ==> digit_value(c) is None || digit_value(c)->0 >= 16,
        hex_digit_value(c) is Some ==> !white_space(c),
{
}

proof fn digits_stay_when_trimmed(s: Seq<char>, c: char)
    requires
        !white_space(c),
    ensures
        trimmed_end(s.push(c)) == s.push(c),
{
    assert(s.push(c).last() == c);
}

/// Hexadecimal keys are read digit by digit: a single digit names what it counts for, and a
/// further one makes the number 16 times as large and counts for itself. A key whose number 32
/// bits cannot hold names nothing.
pub proof fn hexadecimal_keys_grow_by_digits(hex: Seq<char>, c: char, d: int)
    requires
        hex_digit_value(c) == Some(d),
    ensures
        codepoint_of(seq!['U', '+', c]) == Some(d as u32),
        hex.len() > 0 && !white_space(hex.last()) ==> {
            let front = codepoint_of(seq!['U', '+'] + hex);
            let whole = codepoint_of(seq!['U', '+'] + hex.push(c));
            &&& front matches Some(v) ==> 16 * v + d <= 0xffff_ffff ==> whole == Some(
                (16 * v + d) as u32,
            )
            &&& front matches Some(v) ==> 16 * v + d > 0xffff_ffff ==> whole is None
            &&& front is None ==> whole is None
        },
{
    hex_digits_count(c);
    let one = seq![c];
    assert(seq!['U', '+', c] =~= seq!['U', '+'] + one);
    prefixed_codepoint('U', '+', one);
    let none = one.drop_last();
    assert(none =~= Seq::<char>::empty());
    assert(digits_value(none, 16) == Some(0nat));
    assert(one.last() == c);
    assert(digits_value(one, 16) == Some(d as nat));
    assert(trimmed_end(one) == one);
    if hex.len() > 0 && !white_space(hex.last()) {
        prefixed_codepoint('U', '+', hex);
        prefixed_codepoint('U', '+', hex.push(c));
        digits_stay_when_trimmed(hex, c);
        assert(trimmed_end(hex) == hex);
        assert(hex.push(c).drop_last() =~= hex);
        assert(hex.push(c).last() == c);
        if let Some(v) = digits_value(hex, 16) {
            assert(v * 16 + d == 16 * v + d);
        }
    }
}

/// A hexadecimal key with anything among its digits that is none names nothing, and neither does
/// the mere prefix.
pub proof fn hexadecimal_keys_hold_digits_only(a: Seq<char>, c: char, b: Seq<char>)
    requires
        hex_digit_value(c) is None,
        !white_space(c),
    ensures
        codepoint_of(seq!['U', '+'] + (a.push(c) + b)) is None,
        codepoint_of(seq!['U', '+']) is None,
{
    hex_digits_count(c);
    let hex = a.push(c) + b;
    prefixed_codepoint('U', '+', hex);
    trimmed_end_behind(a.push(c), b);
    let kept = trimmed_end(hex);
    assert(kept[a.len() as int] == c);
    no_number_with_a_bad_digit(kept, a.len() as int, 16);
    prefixed_codepoint('U', '+', Seq::empty());
    assert(seq!['U', '+'] + Seq::<char>::empty() =~= seq!['U', '+']);
}

/// Whether a text is made of the digits 0 to 9.
pub open spec fn decimal_digits(s: Seq<char>) -> bool {
    forall|i: int| 0 <= i < s.len() ==> '0' as int <= #[trigger] s[i] as int <= '9' as int
}

proof fn decimal_key(s: Seq<char>)
    requires
        s.len() > 0,
        decimal_digits(s),
    ensures
        codepoint_of(s) == plain_value(s, 10),
        codepoint_of(seq!['+'] + s) == plain_value(s, 10),
{
    assert('0' as int <= s[0] as int <= '9' as int);
    assert('0' as int <= s[s.len() - 1] as int <= '9' as int);
    if s.len() >= 2 {
        assert('0' as int <= s[1] as int <= '9' as int);
    }
    trim_keeps_tight_text(s);
    let signed = seq!['+'] + s;
    assert(signed.last() == s.last());
    trim_keeps_tight_text(signed);
    assert(signed.skip(1) =~= s);
}

/// Decimal keys are read digit by digit: a single digit names what it counts for, and a further
/// one makes the number 10 times as large and counts for itself. A key whose number 32 bits cannot
/// hold names nothing. A plus sign in front does not matter.
pub proof fn decimal_keys_grow_by_digits(s: Seq<char>, c: char, d: int)
    requires
        decimal_digits(s),
        c as int == '0' as int + d,
        0 <= d < 10,
    ensures
        codepoint_of(seq![c]) == Some(d as u32),
        s.len() > 0 ==> {
            let front = codepoint_of(s);
            let whole = codepoint_of(s.push(c));
            &&& front matches Some(v) ==> 10 * v + d <= 0xffff_ffff ==> whole == Some(
                (10 * v + d) as u32,
            )
            &&& front matches Some(v) ==> 10 * v + d > 0xffff_ffff ==> whole is None
            &&& front is None ==> whole is None
            &&& codepoint_of(seq!['+'] + s) == front
        },
{
    let one = seq![c];
    assert(digit_value(c) == Some(d as nat));
    assert(decimal_digits(one));
    decimal_key(one);
    let none = one.drop_last();
    assert(none =~= Seq::<char>::empty());
    assert(digits_value(none, 10) == Some(0nat));
    assert(one.last() == c);
    if s.len() > 0 {
        let more = s.push(c);
        assert forall|i: int| 0 <= i < more.len() implies '0' as int <= #[trigger] more[i] as int
            <= '9' as int by {
            if i < s.len() {
                assert(more[i] == s[i]);
            }
        }
        decimal_key(s);
        decimal_key(more);
        all_digits_make_a_number(s);
        assert(more.drop_last() =~= s);
        assert(more.last() == c);
        let v = digits_value(s, 10)->0;
        assert(v * 10 + d == 10 * v + d);
    }
}

proof fn all_digits_make_a_number(s: Seq<char>)
    requires
        decimal_digits(s),
    ensures
        digits_value(s, 10) is Some,
    decreases s.len(),
{
    if s.len() > 0 {
        assert('0' as int <= s[s.len() - 1] as int <= '9' as int);
        assert forall|i: int| 0 <= i < s.drop_last().len() implies '0' as int
            <= #[trigger] s.drop_last()[i] as int <= '9' as int by {
            assert(s.drop_last()[i] == s[i]);
        }
        all_digits_make_a_number(s.drop_last());
    }
}

/// A key without a prefix that holds anything but the digits 0 to 9 names nothing, unless it is
/// white space around them or a single plus sign in front; and neither does an empty key, or white
/// space alone.
pub proof fn other_keys_hold_decimal_digits_only(key: Seq<char>, i: int)
    requires
        0 <= i < key.len(),
        !white_space(key[0]),
        !white_space(key.last()),
        !('0' as int <= key[i] as int <= '9' as int),
        !(i == 0 && key[0] == '+'),
        key.len() >= 2 ==> !(key[0] == 'U' && key[1] == '+') && !(key[0] == 'u' && key[1] == '+')
            && !(key[0] == '0' && key[1] == 'x') && !(key[0] == '0' && key[1] == 'X'),
    ensures
        codepoint_of(key) is None,
        codepoint_of(Seq::empty()) is None,
        codepoint_of(seq!['+']) is None,
{
    trim_keeps_tight_text(key);
    let c = key[i];
    assert(digit_value(c) is None || digit_value(c)->0 >= 10);
    if key[0] == '+' {
        no_number_with_a_bad_digit(key.skip(1), i - 1, 10);
    } else {
        no_number_with_a_bad_digit(key, i, 10);
    }
    trim_keeps_tight_text(seq!['+']);
}

/// What is shown for a codepoint is `U+` and then at least four digits from 0 to 9 and A to F, with
/// no zero in front beyond the fourth.
pub proof fn codepoints_are_shown_in_four_digits_or_more(codepoint: u32)
    ensures
        ({
            let s = codepoint_text(codepoint);
            &&& s.len() >= 6
            &&& s[0] == 'U'
            &&& s[1] == '+'
            &&& forall|i: int|
                2 <= i < s.len() ==> '0' as int <= #[trigger] s[i] as int <= '9' as int
                    || 'A' as int <= s[i] as int <= 'F' as int
            &&& s.len() > 6 ==> s[2] != '0'
            &&& codepoint_of(s) == Some(codepoint)
        }),
{
    let s = codepoint_text(codepoint);
    let hex = hex_text(codepoint as nat, 4);
    hexadecimal_reads_back(codepoint as nat, 4);
    codepoint_text_reads_back(codepoint);
    assert(s[2] == hex[0]);
    assert forall|i: int| 2 <= i < s.len() implies '0' as int <= #[trigger] s[i] as int
        <= '9' as int || 'A' as int <= s[i] as int <= 'F' as int by {
        assert(s[i] == hex[i - 2]);
    }
}

/// The family is the text that the properties hold under "family"; where they hold none, it is said
/// that none is set.
pub proof fn family_stands_in_the_properties(config: Config)
    ensures
        string_entries(config.props).contains_key(seq!['f', 'a', 'm', 'i', 'l', 'y'])
            ==> config.family_text() == string_entries(
            config.props,
        )[seq!['f', 'a', 'm', 'i', 'l', 'y']],
        !string_entries(config.props).contains_key(seq!['f', 'a', 'm', 'i', 'l', 'y'])
            ==> config.family_text() == "(no family set)"@,
{
    reveal_strlit("family");
    assert("family"@ =~= seq!['f', 'a', 'm', 'i', 'l', 'y']);
}

/// Sources are looked for in the folder that the config names, and in the config's own where it
/// names none.
pub proof fn sources_are_in_the_input_folder(config: Config)
    ensures
        config.input matches Some(input) ==> config.folder_text() == input@,
        config.input is None ==> config.folder_text() == seq!['.'],
{
    reveal_strlit(".");
    assert("."@ =~= seq!['.']);
}

} // verus!
