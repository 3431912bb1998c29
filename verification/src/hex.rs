use vstd::prelude::*;
use vstd::string::StrSliceExecFns;
use vstd::utf8::encode_utf8;
use vstd::utf8::is_char_boundary;

verus! {

/// `String::push` of std: its documentation says that it appends the given
/// `char` to the end of the string. Nothing else is claimed of it.
pub assume_specification[ String::push ](string: &mut String, ch: char)
    ensures
        final(string)@ == old(string)@.push(ch),
;

/// The characters with the Unicode property `White_Space`, the ones that
/// `str::trim` removes.
pub open spec fn is_white_space(c: char) -> bool {
    let u = c as u32;
    ||| 0x09 <= u <= 0x0D
    ||| u == 0x20
    ||| u == 0x85
    ||| u == 0xA0
    ||| u == 0x1680
    ||| 0x2000 <= u <= 0x200A
    ||| u == 0x2028
    ||| u == 0x2029
    ||| u == 0x202F
    ||| u == 0x205F
    ||| u == 0x3000
}

/// The test for white space, as a value that the trimming functions take.
pub open spec fn white_space() -> spec_fn(char) -> bool {
    |c: char| is_white_space(c)
}

/// The test for the `#` that may stand before the digits of a colour.
pub open spec fn colour_mark() -> spec_fn(char) -> bool {
    |c: char| c == '#'
}

/// `s` without the characters at its start that satisfy `p`.
pub open spec fn skip_leading(s: Seq<char>, p: spec_fn(char) -> bool) -> Seq<char>
    decreases s.len(),
{
    if s.len() > 0 && p(s[0]) {
        skip_leading(s.drop_first(), p)
    } else {
        s
    }
}

/// `s` without the characters at its end that satisfy `p`.
pub open spec fn skip_trailing(s: Seq<char>, p: spec_fn(char) -> bool) -> Seq<char>
    decreases s.len(),
{
    if s.len() > 0 && p(s.last()) {
        skip_trailing(s.drop_last(), p)
    } else {
        s
    }
}

/// What is left of a colour entry once the white space around it and every
/// `#` at its start are taken away.
pub open spec fn colour_digits(input: Seq<char>) -> Seq<char> {
    skip_leading(
        skip_trailing(skip_leading(input, white_space()), white_space()),
        colour_mark(),
    )
}

/// An ASCII hexadecimal digit, in either case.
pub open spec fn is_hex_digit(b: u8) -> bool {
    ||| 0x30 <= b <= 0x39
    ||| 0x41 <= b <= 0x46
    ||| 0x61 <= b <= 0x66
}

/// The value of a hexadecimal digit.
pub open spec fn digit_value(b: u8) -> int {
    if b <= 0x39 {
        b - 0x30
    } else if b <= 0x46 {
        b - 0x41 + 10
    } else {
        b - 0x61 + 10
    }
}

/// The byte that two bytes of text stand for in base 16, where they do:
/// two digits, or a `+` sign and one digit.
pub open spec fn pair_value(hi: u8, lo: u8) -> Option<u8> {
    if hi == 0x2B {
        if is_hex_digit(lo) {
            Some(digit_value(lo) as u8)
        } else {
            None
        }
    } else if is_hex_digit(hi) && is_hex_digit(lo) {
        Some((16 * digit_value(hi) + digit_value(lo)) as u8)
    } else {
        None
    }
}

/// The colour that an entry such as `#1a2B3c` names: after the white space
/// around it and the leading `#`s, exactly six bytes, read two by two.
pub open spec fn parsed_colour(input: Seq<char>) -> Option<(u8, u8, u8)> {
    let b = encode_utf8(colour_digits(input));
    if b.len() != 6 {
        None
    } else {
        match (pair_value(b[0], b[1]), pair_value(b[2], b[3]), pair_value(b[4], b[5])) {
            (Some(r), Some(g), Some(bl)) => Some((r, g, bl)),
            _ => None,
        }
    }
}

/// The entries whose six bytes the colour reading cuts inside a character:
/// at byte 2, or at byte 4 once the first pair has been read.
pub open spec fn entry_splits_char(input: Seq<char>) -> bool {
    let b = encode_utf8(colour_digits(input));
    &&& b.len() == 6
    &&& !is_char_boundary(b, 2) || (pair_value(b[0], b[1]) is Some && !is_char_boundary(b, 4))
}

/// The digit that stands for `d` in upper-case hexadecimal.
pub open spec fn upper_hex_digit(d: int) -> char {
    if d < 10 {
        (48 + d) as char
    } else {
        (55 + d) as char
    }
}

/// `#RRGGBB`, each channel as two upper-case hexadecimal digits.
pub open spec fn colour_text(r: u8, g: u8, b: u8) -> Seq<char> {
    seq![
        '#',
        upper_hex_digit(r as int / 16),
        upper_hex_digit(r as int % 16),
        upper_hex_digit(g as int / 16),
        upper_hex_digit(g as int % 16),
        upper_hex_digit(b as int / 16),
        upper_hex_digit(b as int % 16),
    ]
}

proof fn lemma_skip_leading(s: Seq<char>, p: spec_fn(char) -> bool, i: int)
    requires
        0 <= i <= s.len(),
        forall|m: int| 0 <= m < i ==> #[trigger] p(s[m]),
        i == s.len() || !p(s[i]),
    ensures
        skip_leading(s, p) == s.subrange(i, s.len() as int),
    decreases i,
{
    if i == 0 {
        assert(s.subrange(0, s.len() as int) =~= s);
    } else {
        assert(p(s[0]));
        let t = s.drop_first();
        assert forall|m: int| 0 <= m < i - 1 implies #[trigger] p(t[m]) by {
            assert(t[m] == s[m + 1]);
        }
        lemma_skip_leading(t, p, i - 1);
        assert(t.subrange(i - 1, t.len() as int) =~= s.subrange(i, s.len() as int));
    }
}

proof fn lemma_skip_trailing(s: Seq<char>, p: spec_fn(char) -> bool, j: int)
    requires
        0 <= j <= s.len(),
        forall|m: int| j <= m < s.len() ==> #[trigger] p(s[m]),
        j == 0 || !p(s[j - 1]),
    ensures
        skip_trailing(s, p) == s.subrange(0, j),
    decreases s.len() - j,
{
    if j == s.len() {
        assert(s.subrange(0, s.len() as int) =~= s);
    } else {
        assert(p(s[s.len() - 1]));
        let t = s.drop_last();
        assert forall|m: int| j <= m < t.len() implies #[trigger] p(t[m]) by {
            assert(t[m] == s[m]);
        }
        lemma_skip_trailing(t, p, j);
        assert(t.subrange(0, j) =~= s.subrange(0, j));
    }
}

/// Whether `c` has the Unicode property `White_Space`.
pub fn is_white_space_char(c: char) -> (r: bool)
    ensures
        r == is_white_space(c),
{
    let u = c as u32;
    (0x09 <= u && u <= 0x0D) || u == 0x20 || u == 0x85 || u == 0xA0 || u == 0x1680 || (0x2000
        <= u && u <= 0x200A) || u == 0x2028 || u == 0x2029 || u == 0x202F || u == 0x205F || u
        == 0x3000
}

/// The part of `input` that holds the digits of a colour: without the white
/// space around it and without the `#`s at its start.
pub fn colour_digits_of(input: &str) -> (t: &str)
    ensures
        t@ == colour_digits(input@),
{
    let n = input.unicode_len();
    let ghost s = input@;
    let mut i: usize = 0;
    while i < n && is_white_space_char(input.get_char(i))
        invariant
            n == s.len(),
            s == input@,
            i <= n,
            forall|m: int| 0 <= m < i ==> is_white_space(#[trigger] s[m]),
        decreases n - i,
    {
        i = i + 1;
    }
    let mut j: usize = n;
    while j > i && is_white_space_char(input.get_char(j - 1))
        invariant
            n == s.len(),
            s == input@,
            i <= j <= n,
            forall|m: int| j <= m < n ==> is_white_space(#[trigger] s[m]),
        decreases j,
    {
        j = j - 1;
    }
    let mut k: usize = i;
    while k < j && input.get_char(k) == '#'
        invariant
            n == s.len(),
            s == input@,
            i <= k <= j <= n,
            forall|m: int| i <= m < k ==> #[trigger] s[m] == '#',
        decreases j - k,
    {
        k = k + 1;
    }
    proof {
        let a = s.subrange(i as int, n as int);
        assert forall|m: int| 0 <= m < i implies #[trigger] white_space()(s[m]) by {}
        lemma_skip_leading(s, white_space(), i as int);
        let b = s.subrange(i as int, j as int);
        assert forall|m: int| j - i <= m < a.len() implies #[trigger] white_space()(a[m]) by {
            assert(a[m] == s[m + i]);
        }
        if j > i {
            assert(a[j - i - 1] == s[j - 1]);
        }
        lemma_skip_trailing(a, white_space(), j - i);
        assert(a.subrange(0, j - i) =~= b);
        assert forall|m: int| 0 <= m < k - i implies #[trigger] colour_mark()(b[m]) by {
            assert(b[m] == s[m + i]);
        }
        if k < j {
            assert(b[k - i] == s[k as int]);
        }
        lemma_skip_leading(b, colour_mark(), k - i);
        assert(b.subrange(k - i, b.len() as int) =~= s.subrange(k as int, j as int));
    }
    input.substring_char(k, j)
}

/// The value of a hexadecimal digit, if `b` is one.
fn hex_digit(b: u8) -> (r: Option<u8>)
    ensures
        r is Some <==> is_hex_digit(b),
        r matches Some(v) ==> v == digit_value(b) && v < 16,
{
    if 0x30 <= b && b <= 0x39 {
        Some(b - 0x30)
    } else if 0x41 <= b && b <= 0x46 {
        Some(b - 0x41 + 10)
    } else if 0x61 <= b && b <= 0x66 {
        Some(b - 0x61 + 10)
    } else {
        None
    }
}

/// Reads two bytes of text as a number in base 16.
fn hex_pair(hi: u8, lo: u8) -> (r: Option<u8>)
    ensures
        r == pair_value(hi, lo),
{
    if hi == 0x2B {
        hex_digit(lo)
    } else {
        match (hex_digit(hi), hex_digit(lo)) {
            (Some(h), Some(l)) => Some(16 * h + l),
            _ => None,
        }
    }
}

/// Reads a colour typed as `#RRGGBB` (the `#` may be left out or repeated,
/// white space around it is ignored, digits are of either case).
pub fn parse_hex_color(input: &str) -> (r: Option<(u8, u8, u8)>)
    requires
        !entry_splits_char(input@),
    ensures
        r == parsed_colour(input@),
{
    let t = colour_digits_of(input);
    let b = t.as_bytes();
    if b.len() != 6 {
        return None;
    }
    let r = match hex_pair(b[0], b[1]) {
        Some(v) => v,
        None => return None,
    };
    let g = match hex_pair(b[2], b[3]) {
        Some(v) => v,
        None => return None,
    };
    let bl = match hex_pair(b[4], b[5]) {
        Some(v) => v,
        None => return None,
    };
    Some((r, g, bl))
}

/// Whether reading `input` as a colour would cut a character in two: the
/// entries that `parse_hex_color` does not take.
pub fn hex_entry_splits_char(input: &str) -> (r: bool)
    ensures
        r == entry_splits_char(input@),
{
    let t = colour_digits_of(input);
    let b = t.as_bytes();
    if b.len() != 6 {
        return false;
    }
    if !t.is_char_boundary(2) {
        return true;
    }
    hex_pair(b[0], b[1]).is_some() && !t.is_char_boundary(4)
}

/// The upper-case hexadecimal digit for `d`.
fn upper_hex_char(d: u8) -> (c: char)
    requires
        d < 16,
    ensures
        c == upper_hex_digit(d as int),
{
    if d < 10 {
        (d + 48) as char
    } else {
        (d + 55) as char
    }
}

/// Writes a colour as `#RRGGBB`, in upper-case hexadecimal.
pub fn format_hex_color(r: u8, g: u8, b: u8) -> (s: String)
    ensures
        s@ == colour_text(r, g, b),
{
    let mut s = String::new();
    s.push('#');
    s.push(upper_hex_char(r / 16));
    s.push(upper_hex_char(r % 16));
    s.push(upper_hex_char(g / 16));
    s.push(upper_hex_char(g % 16));
    s.push(upper_hex_char(b / 16));
    s.push(upper_hex_char(b % 16));
    assert(s@ =~= colour_text(r, g, b));
    s
}

proof fn lemma_upper_hex_digit(d: int)
    requires
        0 <= d < 16,
    ensures
        ('\0' <= upper_hex_digit(d) <= '\u{7f}'),
        is_hex_digit(upper_hex_digit(d) as u8),
        digit_value(upper_hex_digit(d) as u8) == d,
        upper_hex_digit(d) as u8 != 0x2B,
        !is_white_space(upper_hex_digit(d)),
        upper_hex_digit(d) != '#',
{
}

proof fn lemma_pair_of_byte(v: u8)
    ensures
        pair_value(upper_hex_digit(v as int / 16) as u8, upper_hex_digit(v as int % 16) as u8)
            == Some(v),
{
    lemma_upper_hex_digit(v as int / 16);
    lemma_upper_hex_digit(v as int % 16);
}

/// Reading back what `format_hex_color` writes gives the same colour, and
/// such a text never makes the reading cut a character.
pub proof fn lemma_colour_text_reads_back(r: u8, g: u8, b: u8)
    ensures
        parsed_colour(colour_text(r, g, b)) == Some((r, g, b)),
        !entry_splits_char(colour_text(r, g, b)),
{
    let t = colour_text(r, g, b);
    lemma_upper_hex_digit(r as int / 16);
    lemma_upper_hex_digit(r as int % 16);
    lemma_upper_hex_digit(g as int / 16);
    lemma_upper_hex_digit(g as int % 16);
    lemma_upper_hex_digit(b as int / 16);
    lemma_upper_hex_digit(b as int % 16);
    lemma_skip_leading(t, white_space(), 0);
    assert(t.subrange(0, 7) =~= t);
    lemma_skip_trailing(t, white_space(), 7);
    let d = t.subrange(1, 7);
    assert forall|m: int| 0 <= m < 1 implies #[trigger] colour_mark()(t[m]) by {}
    lemma_skip_leading(t, colour_mark(), 1);
    assert(colour_digits(t) == d);
    assert(vstd::utf8::is_ascii_chars(d));
    vstd::utf8::is_ascii_chars_encode_utf8(d);
    let bytes = encode_utf8(d);
    assert(bytes.len() == 6);
    assert(bytes[0] == d[0] as u8);
    assert(bytes[1] == d[1] as u8);
    assert(bytes[2] == d[2] as u8);
    assert(bytes[3] == d[3] as u8);
    assert(bytes[4] == d[4] as u8);
    assert(bytes[5] == d[5] as u8);
    lemma_pair_of_byte(r);
    lemma_pair_of_byte(g);
    lemma_pair_of_byte(b);
    vstd::utf8::encode_utf8_valid_utf8(d);
    vstd::utf8::is_char_boundary_iff_not_is_continuation_byte(bytes, 2);
    vstd::utf8::is_char_boundary_iff_not_is_continuation_byte(bytes, 4);
}

/// The hexadecimal digit for `d` (below 16), in lower case when `lower`
/// holds and in upper case otherwise: `0`-`9`, then `a`-`f` or `A`-`F`.
pub open spec fn digit_char(d: int, lower: bool) -> char {
    if d < 10 {
        ('0' as int + d) as char
    } else if lower {
        ('a' as int + d - 10) as char
    } else {
        ('A' as int + d - 10) as char
    }
}

/// The value of an upper-case hexadecimal digit `0`-`9` or `A`-`F`.
pub open spec fn upper_digit_value(c: char) -> int {
    if c <= '9' {
        c as int - '0' as int
    } else {
        c as int - 'A' as int + 10
    }
}

/// The digits of base 16 are exactly `0`-`9`, `a`-`f` and `A`-`F`, each
/// worth its place in that order, and a letter is worth the same in either
/// case.
pub proof fn lemma_hex_digits(d: int, lower: bool, b: u8)
    requires
        0 <= d < 16,
    ensures
        is_hex_digit(digit_char(d, lower) as u8),
        digit_value(digit_char(d, lower) as u8) == d,
        digit_value(digit_char(d, true) as u8) == digit_value(digit_char(d, false) as u8),
        is_hex_digit(b) ==> 0 <= digit_value(b) < 16 && b == digit_char(
            digit_value(b),
            b >= 'a' as u8,
        ) as u8,
{
}

proof fn lemma_digit_char_facts(d: int, lower: bool)
    requires
        0 <= d < 16,
    ensures
        ('\0' <= digit_char(d, lower) <= '\u{7f}'),
        digit_char(d, lower) as u8 != 0x2B,
        !is_white_space(digit_char(d, lower)),
        digit_char(d, lower) != '#',
        is_hex_digit(digit_char(d, lower) as u8),
        digit_value(digit_char(d, lower) as u8) == d,
{
}

proof fn lemma_pair_of_digits(v: u8, lower_hi: bool, lower_lo: bool)
    ensures
        pair_value(
            digit_char(v as int / 16, lower_hi) as u8,
            digit_char(v as int % 16, lower_lo) as u8,
        ) == Some(v),
{
    lemma_digit_char_facts(v as int / 16, lower_hi);
    lemma_digit_char_facts(v as int % 16, lower_lo);
}

/// A seven-character entry `#` and six ASCII characters that are neither
/// white space nor `#` is read pair by pair, and never splits a character.
proof fn lemma_read_seven(t: Seq<char>)
    requires
        t.len() == 7,
        t[0] == '#',
        forall|i: int|
            1 <= i < 7 ==> ('\0' <= #[trigger] t[i] <= '\u{7f}') && !is_white_space(t[i]) && t[i]
                != '#',
    ensures
        parsed_colour(t) == match (
            pair_value(t[1] as u8, t[2] as u8),
            pair_value(t[3] as u8, t[4] as u8),
            pair_value(t[5] as u8, t[6] as u8),
        ) {
            (Some(r), Some(g), Some(bl)) => Some((r, g, bl)),
            _ => None,
        },
        !entry_splits_char(t),
{
    lemma_skip_leading(t, white_space(), 0);
    assert(t.subrange(0, 7) =~= t);
    assert(!is_white_space(t[6]));
    lemma_skip_trailing(t, white_space(), 7);
    let d = t.subrange(1, 7);
    assert forall|m: int| 0 <= m < 1 implies #[trigger] colour_mark()(t[m]) by {}
    assert(t[1] != '#');
    lemma_skip_leading(t, colour_mark(), 1);
    assert(colour_digits(t) == d);
    assert forall|i: int| 0 <= i < d.len() implies '\0' <= #[trigger] d[i] <= '\u{7f}' by {
        assert(d[i] == t[i + 1]);
    }
    assert(vstd::utf8::is_ascii_chars(d));
    vstd::utf8::is_ascii_chars_encode_utf8(d);
    let bytes = encode_utf8(d);
    assert(bytes.len() == 6);
    assert(bytes[0] == d[0] as u8);
    assert(bytes[1] == d[1] as u8);
    assert(bytes[2] == d[2] as u8);
    assert(bytes[3] == d[3] as u8);
    assert(bytes[4] == d[4] as u8);
    assert(bytes[5] == d[5] as u8);
    vstd::utf8::encode_utf8_valid_utf8(d);
    vstd::utf8::is_char_boundary_iff_not_is_continuation_byte(bytes, 2);
    vstd::utf8::is_char_boundary_iff_not_is_continuation_byte(bytes, 4);
}

/// An entry `#` and six hexadecimal digits reads as the colour those digits
/// name, whatever the case of each digit.
pub proof fn lemma_entry_in_any_case(
    r: u8,
    g: u8,
    b: u8,
    l1: bool,
    l2: bool,
    l3: bool,
    l4: bool,
    l5: bool,
    l6: bool,
)
    ensures
        parsed_colour(
            seq![
                '#',
                digit_char(r as int / 16, l1),
                digit_char(r as int % 16, l2),
                digit_char(g as int / 16, l3),
                digit_char(g as int % 16, l4),
                digit_char(b as int / 16, l5),
                digit_char(b as int % 16, l6),
            ],
        ) == Some((r, g, b)),
{
    let t = seq![
        '#',
        digit_char(r as int / 16, l1),
        digit_char(r as int % 16, l2),
        digit_char(g as int / 16, l3),
        digit_char(g as int % 16, l4),
        digit_char(b as int / 16, l5),
        digit_char(b as int % 16, l6),
    ];
    lemma_digit_char_facts(r as int / 16, l1);
    lemma_digit_char_facts(r as int % 16, l2);
    lemma_digit_char_facts(g as int / 16, l3);
    lemma_digit_char_facts(g as int % 16, l4);
    lemma_digit_char_facts(b as int / 16, l5);
    lemma_digit_char_facts(b as int % 16, l6);
    lemma_pair_of_digits(r, l1, l2);
    lemma_pair_of_digits(g, l3, l4);
    lemma_pair_of_digits(b, l5, l6);
    lemma_read_seven(t);
}

/// What `format_hex_color` writes is `#` and then six upper-case digits
/// `0`-`9` or `A`-`F`: the high and the low half of red, green and blue.
pub proof fn lemma_colour_text_form(r: u8, g: u8, b: u8)
    ensures
        colour_text(r, g, b).len() == 7,
        colour_text(r, g, b)[0] == '#',
        forall|i: int|
            1 <= i < 7 ==> ('0' <= #[trigger] colour_text(r, g, b)[i] <= '9' || 'A'
                <= colour_text(r, g, b)[i] <= 'F'),
        upper_digit_value(colour_text(r, g, b)[1]) == r / 16,
        upper_digit_value(colour_text(r, g, b)[2]) == r % 16,
        upper_digit_value(colour_text(r, g, b)[3]) == g / 16,
        upper_digit_value(colour_text(r, g, b)[4]) == g % 16,
        upper_digit_value(colour_text(r, g, b)[5]) == b / 16,
        upper_digit_value(colour_text(r, g, b)[6]) == b % 16,
{
}

} // verus!
