//! Strings built from pieces, and numbers written out.

use vstd::prelude::*;

verus! {

/// `std`'s `String::push` puts the character at the end.
pub assume_specification[ String::push ](s: &mut String, c: char)
    ensures
        final(s)@ == old(s)@.push(c),
;

/// `std::str::from_utf8`, with the text copied into a `String`: it succeeds on
/// valid UTF-8 and on nothing else, and the text it gives has those very bytes.
#[verifier::external_body]
pub(crate) fn utf8_text(bytes: &[u8]) -> (r: Option<String>)
    ensures
        r is Some <==> vstd::utf8::valid_utf8(bytes@),
        r matches Some(s) ==> vstd::utf8::encode_utf8(s@) == bytes@,
{
    std::str::from_utf8(bytes).ok().map(|s| s.to_string())
}

/// A character is white space: it has Unicode's property of that name.
pub open spec fn white_space(c: char) -> bool {
    let n = c as int;
    ||| 0x9 <= n <= 0xD
    ||| n == 0x20
    ||| n == 0x85
    ||| n == 0xA0
    ||| n == 0x1680
    ||| 0x2000 <= n <= 0x200A
    ||| n == 0x2028
    ||| n == 0x2029
    ||| n == 0x202F
    ||| n == 0x205F
    ||| n == 0x3000
}

/// Whether a character is white space.
fn is_white_space(c: char) -> (yes: bool)
    ensures
        yes == white_space(c),
{
    let n: u32 = c as u32;
    (0x9 <= n && n <= 0xD) || n == 0x20 || n == 0x85 || n == 0xA0 || n == 0x1680 || (0x2000 <= n
        && n <= 0x200A) || n == 0x2028 || n == 0x2029 || n == 0x202F || n == 0x205F || n == 0x3000
}

/// A text in double quotes with its special characters escaped, as `std` shows
/// a string to a programmer.
pub uninterp spec fn quoted(s: Seq<char>) -> Seq<char>;

/// `std`'s `Debug` output of a string.
#[verifier::external_body]
fn quote(s: &str) -> (r: String)
    ensures
        r@ == quoted(s@),
{
    format!("{:?}", s)
}

/// Appends a text in double quotes, escaped.
pub fn push_quoted(out: &mut String, s: &str)
    ensures
        final(out)@ == old(out)@ + quoted(s@),
{
    let q = quote(s);
    out.append(q.as_str());
}

/// A text in lower case, as `str::to_lowercase` has it.
pub uninterp spec fn lowered(s: Seq<char>) -> Seq<char>;

/// There are only ASCII characters.
pub open spec fn ascii(s: Seq<char>) -> bool {
    forall|i: int| 0 <= i < s.len() ==> #[trigger] s[i] as int <= 0x7F
}

/// A text with its ASCII letters in lower case, and all else as it is.
pub open spec fn ascii_lowered(s: Seq<char>) -> Seq<char> {
    s.map_values(|c: char| ascii_lower(c))
}

/// `std`'s `str::to_lowercase`. Of a text that is all ASCII it puts the letters in
/// lower case and keeps the rest.
#[verifier::external_body]
fn to_lower(s: &str) -> (r: String)
    ensures
        r@ == lowered(s@),
        ascii(s@) ==> r@ == ascii_lowered(s@),
{
    s.to_lowercase()
}

/// A text in lower case.
pub open spec fn in_lower_case(s: Seq<char>) -> Seq<char> {
    if ascii(s) {
        ascii_lowered(s)
    } else {
        lowered(s)
    }
}

/// Puts a text in lower case.
pub fn lower_case(s: &str) -> (r: String)
    ensures
        r@ == in_lower_case(s@),
{
    to_lower(s)
}

/// The lower case of one character, taken for itself.
pub open spec fn letter_case(c: char) -> Seq<char> {
    if c as int <= 0x7F {
        seq![ascii_lower(c)]
    } else {
        lowered(seq![c])
    }
}

/// The lower case of one character, taken for itself.
pub fn lower_one(c: char) -> (r: String)
    ensures
        r@ == letter_case(c),
{
    let mut one = String::new();
    one.push(c);
    assert(one@ =~= seq![c]);
    if c as u32 <= 0x7F {
        assert(one@[0] == c);
        assert(ascii_lowered(one@) =~= seq![ascii_lower(c)]);
    }
    to_lower(one.as_str())
}

/// A text stands inside another, somewhere.
pub open spec fn inside(needle: Seq<char>, hay: Seq<char>) -> bool {
    exists|i: int|
        0 <= i <= hay.len() - needle.len() && #[trigger] hay.subrange(i, i + needle.len())
            == needle
}

/// Whether one text stands inside another.
pub fn is_inside(needle: &str, hay: &str) -> (yes: bool)
    ensures
        yes == inside(needle@, hay@),
{
    let n = chars_of(needle);
    let h = chars_of(hay);
    if n.len() > h.len() {
        return false;
    }
    let last: usize = h.len() - n.len();
    let mut i: usize = 0;
    while !matches_at(h.as_slice(), i, n.as_slice())
        invariant
            n@ == needle@,
            h@ == hay@,
            last == h@.len() - n@.len(),
            i <= last,
            forall|j: int| 0 <= j < i ==> #[trigger] h@.subrange(j, j + n@.len()) != n@,
        decreases last - i,
    {
        if i == last {
            return false;
        }
        i = i + 1;
    }
    true
}

/// Whether `n` stands in `h` from `at` on.
fn matches_at(h: &[char], at: usize, n: &[char]) -> (yes: bool)
    requires
        at + n@.len() <= h@.len(),
    ensures
        yes == (h@.subrange(at as int, at + n@.len()) == n@),
{
    assert(h@.len() == h.len() && n@.len() == n.len());
    let mut k: usize = 0;
    while k < n.len()
        invariant
            k <= n@.len(),
            at + n@.len() <= h@.len(),
            h@.len() == h.len(),
            n@.len() == n.len(),
            forall|j: int| 0 <= j < k ==> h@[at + j] == n@[j],
        decreases n@.len() - k,
    {
        if h[at + k] != n[k] {
            assert(h@.subrange(at as int, at + n@.len())[k as int] != n@[k as int]);
            return false;
        }
        k = k + 1;
    }
    assert(h@.subrange(at as int, at + n@.len()) =~= n@);
    true
}

/// A text with every `needle` in it, taken from the left, replaced.
pub open spec fn with_replaced(s: Seq<char>, needle: Seq<char>, with: Seq<char>) -> Seq<char>
    decreases s.len(),
{
    if needle.len() == 0 || s.len() < needle.len() {
        s
    } else if s.subrange(0, needle.len() as int) == needle {
        with + with_replaced(s.skip(needle.len() as int), needle, with)
    } else {
        seq![s[0]] + with_replaced(s.skip(1), needle, with)
    }
}

/// Replaces every `needle` in a text.
pub fn replace_all(s: &str, needle: &str, with: &str) -> (out: String)
    ensures
        out@ == with_replaced(s@, needle@, with@),
{
    let h = chars_of(s);
    let n = chars_of(needle);
    if n.len() == 0 {
        return s.to_owned();
    }
    let mut out = String::new();
    let mut i: usize = 0;
    assert(h@.skip(0) =~= h@);
    assert(out@ + with_replaced(h@, n@, with@) =~= with_replaced(h@, n@, with@));
    while h.len() - i >= n.len()
        invariant
            i <= h@.len(),
            h@.len() == h.len(),
            n@.len() > 0,
            h@ == s@,
            n@ == needle@,
            with_replaced(s@, n@, with@) == out@ + with_replaced(h@.skip(i as int), n@, with@),
        decreases h@.len() - i,
    {
        let ghost before = out@;
        let ghost rest = h@.skip(i as int);
        assert(rest.subrange(0, n@.len() as int) =~= h@.subrange(i as int, i + n@.len()));
        if matches_at(h.as_slice(), i, n.as_slice()) {
            out.append(with);
            assert(rest.skip(n@.len() as int) =~= h@.skip(i + n@.len()));
            assert(before + (with@ + with_replaced(rest.skip(n@.len() as int), n@, with@))
                =~= out@ + with_replaced(h@.skip(i + n@.len()), n@, with@));
            i = i + n.len();
        } else {
            out.push(h[i]);
            assert(rest.skip(1) =~= h@.skip(i + 1));
            assert(before + (seq![rest[0]] + with_replaced(rest.skip(1), n@, with@)) =~= out@
                + with_replaced(h@.skip(i + 1), n@, with@));
            i = i + 1;
        }
    }
    push_chars(&mut out, &h.as_slice()[i..h.len()]);
    assert(h@.subrange(i as int, h@.len() as int) =~= h@.skip(i as int));
    out
}

/// A text stands inside another if the case of letters is left aside.
pub open spec fn inside_any_case(needle: Seq<char>, hay: Seq<char>) -> bool {
    inside(in_lower_case(needle), in_lower_case(hay))
}

/// Whether one text stands inside another, whatever the case of letters.
pub fn is_inside_any_case(needle: &str, hay: &str) -> (yes: bool)
    ensures
        yes == inside_any_case(needle@, hay@),
{
    let n = lower_case(needle);
    let h = lower_case(hay);
    is_inside(n.as_str(), h.as_str())
}

/// A letter of the ASCII alphabet in lower case; any other character as it is.
pub open spec fn ascii_lower(c: char) -> char {
    if 'A' <= c && c <= 'Z' {
        ((c as int) + 32) as char
    } else {
        c
    }
}

/// Two texts are equal if the case of ASCII letters is left aside.
pub open spec fn same_ascii(a: Seq<char>, b: Seq<char>) -> bool {
    a.len() == b.len() && forall|i: int|
        0 <= i < a.len() ==> ascii_lower(#[trigger] a[i]) == ascii_lower(b[i])
}

fn lower_letter(c: char) -> (r: char)
    ensures
        r == ascii_lower(c),
{
    match c {
        'A' => 'a',
        'B' => 'b',
        'C' => 'c',
        'D' => 'd',
        'E' => 'e',
        'F' => 'f',
        'G' => 'g',
        'H' => 'h',
        'I' => 'i',
        'J' => 'j',
        'K' => 'k',
        'L' => 'l',
        'M' => 'm',
        'N' => 'n',
        'O' => 'o',
        'P' => 'p',
        'Q' => 'q',
        'R' => 'r',
        'S' => 's',
        'T' => 't',
        'U' => 'u',
        'V' => 'v',
        'W' => 'w',
        'X' => 'x',
        'Y' => 'y',
        'Z' => 'z',
        _ => c,
    }
}

/// Whether two texts are equal, the case of ASCII letters aside.
pub fn is_same_ascii(a: &str, b: &str) -> (yes: bool)
    ensures
        yes == same_ascii(a@, b@),
{
    let x = chars_of(a);
    let y = chars_of(b);
    if x.len() != y.len() {
        return false;
    }
    let mut i: usize = 0;
    while i < x.len()
        invariant
            i <= x@.len() == y@.len(),
            x@ == a@,
            y@ == b@,
            forall|j: int| 0 <= j < i ==> ascii_lower(#[trigger] x@[j]) == ascii_lower(y@[j]),
        decreases x@.len() - i,
    {
        if lower_letter(x[i]) != lower_letter(y[i]) {
            return false;
        }
        i = i + 1;
    }
    true
}

/// A text without the white space at its start.
pub open spec fn trimmed_start(s: Seq<char>) -> Seq<char>
    decreases s.len(),
{
    if s.len() > 0 && white_space(s[0]) {
        trimmed_start(s.skip(1))
    } else {
        s
    }
}

/// A text without the white space at its end.
pub open spec fn trimmed_end(s: Seq<char>) -> Seq<char>
    decreases s.len(),
{
    if s.len() > 0 && white_space(s.last()) {
        trimmed_end(s.drop_last())
    } else {
        s
    }
}

/// A text without the white space around it.
pub open spec fn trimmed(s: Seq<char>) -> Seq<char> {
    trimmed_end(trimmed_start(s))
}

/// The text of some characters without the white space around it.
pub fn trim(chars: &[char]) -> (out: String)
    ensures
        out@ == trimmed(chars@),
{
    let mut start: usize = 0;
    assert(chars@.skip(0) =~= chars@);
    while start < chars.len() && is_white_space(chars[start])
        invariant
            start <= chars@.len(),
            trimmed_start(chars@) == trimmed_start(chars@.skip(start as int)),
        decreases chars@.len() - start,
    {
        assert(chars@.skip(start as int).skip(1) =~= chars@.skip(start + 1));
        start = start + 1;
    }
    let ghost rest = chars@.skip(start as int);
    assert(trimmed_start(chars@) == rest);
    let mut end: usize = chars.len();
    assert(chars@.subrange(start as int, end as int) =~= rest);
    while end > start && is_white_space(chars[end - 1])
        invariant
            start <= end <= chars@.len(),
            trimmed_end(rest) == trimmed_end(chars@.subrange(start as int, end as int)),
        decreases end - start,
    {
        assert(chars@.subrange(start as int, end as int).drop_last() =~= chars@.subrange(
            start as int,
            end - 1,
        ));
        end = end - 1;
    }
    let mut out = String::new();
    push_chars(&mut out, &chars[start..end]);
    assert(out@ =~= chars@.subrange(start as int, end as int));
    out
}

/// There is nothing but white space.
pub open spec fn blank(s: Seq<char>) -> bool {
    forall|i: int| 0 <= i < s.len() ==> white_space(#[trigger] s[i])
}

/// Whether a text holds nothing but white space.
pub fn is_blank(s: &str) -> (yes: bool)
    ensures
        yes == blank(s@),
{
    let chars = chars_of(s);
    let mut i: usize = 0;
    while i < chars.len()
        invariant
            i <= chars@.len(),
            chars@ == s@,
            forall|j: int| 0 <= j < i ==> white_space(#[trigger] chars@[j]),
        decreases chars@.len() - i,
    {
        if !is_white_space(chars[i]) {
            return false;
        }
        i = i + 1;
    }
    true
}

/// The character for a digit below sixteen, in lower case.
pub open spec fn digit_char(d: nat) -> char {
    if d == 0 { '0' } else if d == 1 { '1' } else if d == 2 { '2' } else if d == 3 { '3' }
    else if d == 4 { '4' } else if d == 5 { '5' } else if d == 6 { '6' } else if d == 7 { '7' }
    else if d == 8 { '8' } else if d == 9 { '9' } else if d == 10 { 'a' } else if d == 11 { 'b' }
    else if d == 12 { 'c' } else if d == 13 { 'd' } else if d == 14 { 'e' } else { 'f' }
}

/// A number in decimal, without leading zeros.
pub open spec fn decimal(n: nat) -> Seq<char>
    decreases n,
{
    if n < 10 {
        seq![digit_char(n)]
    } else {
        decimal(n / 10).push(digit_char(n % 10))
    }
}

/// The lowest `width` hexadecimal digits of a number, leading zeros included.
pub open spec fn hex_digits(n: nat, width: nat) -> Seq<char>
    decreases width,
{
    if width == 0 {
        seq![]
    } else {
        hex_digits(n / 16, (width - 1) as nat).push(digit_char(n % 16))
    }
}

fn digit(d: u64) -> (c: char)
    requires
        d < 16,
    ensures
        c == digit_char(d as nat),
{
    match d {
        0 => '0',
        1 => '1',
        2 => '2',
        3 => '3',
        4 => '4',
        5 => '5',
        6 => '6',
        7 => '7',
        8 => '8',
        9 => '9',
        10 => 'a',
        11 => 'b',
        12 => 'c',
        13 => 'd',
        14 => 'e',
        _ => 'f',
    }
}

/// Appends a number in decimal.
pub fn push_decimal(out: &mut String, n: u64)
    ensures
        final(out)@ == old(out)@ + decimal(n as nat),
    decreases n,
{
    if n >= 10 {
        push_decimal(out, n / 10);
    }
    out.push(digit(n % 10));
    assert(out@ =~= old(out)@ + decimal(n as nat));
}

/// Appends the lowest `width` hexadecimal digits of a number.
pub fn push_hex(out: &mut String, n: u64, width: u8)
    ensures
        final(out)@ == old(out)@ + hex_digits(n as nat, width as nat),
    decreases width,
{
    if width > 0 {
        push_hex(out, n / 16, width - 1);
        out.push(digit(n % 16));
    }
    assert(out@ =~= old(out)@ + hex_digits(n as nat, width as nat));
}

/// The characters of a string.
pub fn chars_of(s: &str) -> (v: Vec<char>)
    ensures
        v@ == s@,
{
    let mut v: Vec<char> = Vec::new();
    for c in it: s.chars()
        invariant
            v@ == it.seq().take(it.index()),
            it.seq() == s@,
    {
        v.push(c);
    }
    v
}

/// Appends characters.
pub fn push_chars(out: &mut String, chars: &[char])
    ensures
        final(out)@ == old(out)@ + chars@,
{
    let ghost before = out@;
    let mut i: usize = 0;
    while i < chars.len()
        invariant
            i <= chars@.len(),
            out@ == before + chars@.take(i as int),
        decreases chars@.len() - i,
    {
        out.push(chars[i]);
        i = i + 1;
    }
}

/// What a run of decimal digits counts to.
pub open spec fn digits_value(s: Seq<char>) -> nat
    decreases s.len(),
{
    if s.len() == 0 {
        0
    } else {
        digits_value(s.drop_last()) * 10 + (s.last() as nat - '0' as nat) as nat
    }
}

/// One or more decimal digits, and nothing else.
pub open spec fn is_digits(s: Seq<char>) -> bool {
    s.len() > 0 && forall|i: int|
        0 <= i < s.len() ==> '0' as int <= #[trigger] s[i] as int <= '9' as int
}

/// What a text says as a number: decimal digits, behind a plus sign or not.
pub open spec fn number(s: Seq<char>) -> Option<nat> {
    let digits = if s.len() > 0 && s[0] == '+' {
        s.skip(1)
    } else {
        s
    };
    if is_digits(digits) {
        Some(digits_value(digits))
    } else {
        None
    }
}

/// The value of a decimal digit.
fn digit_value(c: char) -> (r: Option<u32>)
    ensures
        match r {
            Some(d) => '0' as int <= c as int <= '9' as int && d == c as int - '0' as int,
            None => !('0' as int <= c as int <= '9' as int),
        },
{
    match c {
        '0' => Some(0),
        '1' => Some(1),
        '2' => Some(2),
        '3' => Some(3),
        '4' => Some(4),
        '5' => Some(5),
        '6' => Some(6),
        '7' => Some(7),
        '8' => Some(8),
        '9' => Some(9),
        _ => None,
    }
}

/// A run of digits is worth no less than its beginning.
proof fn more_digits_count_no_less(s: Seq<char>, n: int)
    requires
        0 <= n <= s.len(),
    ensures
        digits_value(s.take(n)) <= digits_value(s),
    decreases s.len() - n,
{
    if n < s.len() {
        more_digits_count_no_less(s, n + 1);
        assert(s.take(n + 1).drop_last() =~= s.take(n));
    } else {
        assert(s.take(n) =~= s);
    }
}

/// Reads a number that fits in 32 bits.
pub fn parse_u32(s: &str) -> (r: Option<u32>)
    ensures
        match number(s@) {
            Some(n) => if n <= u32::MAX {
                r == Some(n as u32)
            } else {
                r is None
            },
            None => r is None,
        },
{
    let chars = chars_of(s);
    let start: usize = if chars.len() > 0 && chars[0] == '+' {
        1
    } else {
        0
    };
    let ghost digits = s@.skip(start as int);
    assert(s@.skip(0) =~= s@);
    if chars.len() == start {
        return None;
    }
    let mut n: u32 = 0;
    let mut i: usize = start;
    assert(digits.take(0) =~= Seq::<char>::empty());
    while i < chars.len()
        invariant
            start <= i <= chars@.len(),
            start <= 1,
            chars@ == s@,
            digits == s@.skip(start as int),
            number(s@) == (if is_digits(digits) {
                Some(digits_value(digits))
            } else {
                None
            }),
            forall|j: int|
                0 <= j < i - start ==> '0' as int <= #[trigger] digits[j] as int <= '9' as int,
            n == digits_value(digits.take(i - start)),
        decreases chars@.len() - i,
    {
        assert(digits[i - start] == chars@[i as int]);
        assert(digits.take(i - start + 1).drop_last() =~= digits.take(i - start));
        proof {
            more_digits_count_no_less(digits, i - start + 1);
        }
        match digit_value(chars[i]) {
            None => {
                return None;
            },
            Some(d) => match n.checked_mul(10) {
                None => {
                    return None;
                },
                Some(ten) => match ten.checked_add(d) {
                    None => {
                        return None;
                    },
                    Some(sum) => {
                        n = sum;
                    },
                },
            },
        }
        i = i + 1;
    }
    assert(digits.take(i - start) =~= digits);
    Some(n)
}

/// Several strings, by what they hold.
pub open spec fn texts(v: Seq<String>) -> Seq<Seq<char>> {
    v.map_values(|s: String| s@)
}

/// Copies several strings.
pub fn copy_texts(v: &Vec<String>) -> (copy: Vec<String>)
    ensures
        texts(copy@) == texts(v@),
{
    let mut copy: Vec<String> = Vec::new();
    let mut i: usize = 0;
    while i < v.len()
        invariant
            i <= v@.len(),
            texts(copy@) =~= texts(v@).take(i as int),
        decreases v@.len() - i,
    {
        let ghost before = copy@;
        let text = v[i].clone();
        copy.push(text);
        assert(texts(copy@) =~= texts(before).push(text@));
        assert(texts(v@)[i as int] == text@);
        i = i + 1;
    }
    copy
}

/// Appends a string to several.
pub fn push_text(list: &mut Vec<String>, text: String)
    ensures
        texts(final(list)@) == texts(old(list)@).push(text@),
{
    let ghost before = list@;
    list.push(text);
    assert(texts(list@) =~= texts(before).push(text@));
}

/// Several texts with the same text between each two.
pub open spec fn joined(parts: Seq<Seq<char>>, between: Seq<char>) -> Seq<char>
    decreases parts.len(),
{
    if parts.len() == 0 {
        seq![]
    } else if parts.len() == 1 {
        parts[0]
    } else {
        joined(parts.drop_last(), between) + between + parts.last()
    }
}

/// Appends several strings with the same text between each two.
pub fn push_joined(out: &mut String, parts: &[String], between: &str)
    ensures
        final(out)@ == old(out)@ + joined(texts(parts@), between@),
{
    let ghost all = texts(parts@);
    let mut i: usize = 0;
    assert(all.take(0) =~= Seq::<Seq<char>>::empty());
    assert(out@ =~= old(out)@ + joined(all.take(0), between@));
    while i < parts.len()
        invariant
            i <= parts@.len(),
            all == texts(parts@),
            out@ == old(out)@ + joined(all.take(i as int), between@),
        decreases parts@.len() - i,
    {
        let ghost next = all.take(i + 1);
        assert(next.drop_last() =~= all.take(i as int));
        assert(next.last() == parts@[i as int]@);
        if i > 0 {
            out.append(between);
        }
        out.append(parts[i].as_str());
        assert(out@ =~= old(out)@ + joined(next, between@));
        i = i + 1;
    }
    assert(all.take(i as int) =~= all);
}

/// Several strings hold what each of them does, in their order.
pub proof fn texts_are_what_the_strings_hold(v: Seq<String>)
    ensures
        texts(v).len() == v.len(),
        forall|i: int| 0 <= i < v.len() ==> #[trigger] texts(v)[i] == v[i]@,
{
}

/// A number is written in decimal digits that read back as it, without leading
/// zeros.
pub proof fn a_number_reads_back(n: nat)
    ensures
        is_digits(decimal(n)),
        digits_value(decimal(n)) == n,
        number(decimal(n)) == Some(n),
        decimal(n).len() == 1 || decimal(n)[0] != '0',
        decimal(n)[0] != '+',
    decreases n,
{
    each_digit_has_its_own_character(n % 10);
    if n < 10 {
        reveal_with_fuel(digits_value, 2);
        assert(decimal(n).drop_last() =~= Seq::<char>::empty());
    } else {
        a_number_reads_back(n / 10);
        let s = decimal(n);
        assert(s.drop_last() =~= decimal(n / 10));
        assert(s[0] == decimal(n / 10)[0]);
        assert forall|i: int| 0 <= i < s.len() implies '0' as int <= #[trigger] s[i] as int
            <= '9' as int by {
            if i < s.len() - 1 {
                assert(s[i] == decimal(n / 10)[i]);
            }
        }
        assert(decimal(n / 10).len() == 1 ==> decimal(n / 10)[0] != '0') by {
            if decimal(n / 10).len() == 1 {
                assert(n / 10 < 10) by {
                    if n / 10 >= 10 {
                        assert(decimal(n / 10).len() == decimal(n / 10 / 10).len() + 1);
                        a_number_reads_back(n / 10 / 10);
                    }
                }
                each_digit_has_its_own_character(n / 10);
                assert(decimal(n / 10)[0] == digit_char(n / 10));
            }
        }
    }
}

/// The digits up to nine are themselves, and from ten on the letters from `a`.
pub proof fn each_digit_has_its_own_character(d: nat)
    ensures
        d < 10 ==> digit_char(d) as int == '0' as int + d,
        10 <= d < 16 ==> digit_char(d) as int == 'a' as int + d - 10,
{
}

/// More digits before a run of digits are worth ten times as much for each digit in
/// it; so zeros before a number change nothing.
pub proof fn leading_zeros_count_for_nothing(s: Seq<char>)
    ensures
        digits_value(seq!['0'] + s) == digits_value(s),
        digits_value(s.push('0')) == 10 * digits_value(s),
    decreases s.len(),
{
    assert(s.push('0').drop_last() =~= s);
    if s.len() == 0 {
        reveal_with_fuel(digits_value, 2);
        assert((seq!['0'] + s).drop_last() =~= Seq::<char>::empty());
    } else {
        leading_zeros_count_for_nothing(s.drop_last());
        assert((seq!['0'] + s).drop_last() =~= seq!['0'] + s.drop_last());
        assert((seq!['0'] + s).last() == s.last());
    }
}

/// A text is a number where it is digits, behind a plus sign or not, and is one
/// nowhere else.
pub proof fn only_digits_are_a_number(s: Seq<char>)
    ensures
        is_digits(s) ==> number(s) == Some(digits_value(s)),
        is_digits(s) ==> number(seq!['+'] + s) == Some(digits_value(s)),
        number(s) is Some ==> is_digits(s) || s[0] == '+' && is_digits(s.skip(1)),
        is_digits(s) <==> s.len() > 0 && forall|i: int|
            0 <= i < s.len() ==> 0x30 <= #[trigger] s[i] as int <= 0x39,
{
    assert((seq!['+'] + s).skip(1) =~= s);
}

/// There are as many hexadecimal digits as were asked for, and each is the one for
/// its place: what is left of it counts sixteen times as much.
pub proof fn hexadecimal_digits_stand_in_their_places(n: nat, width: nat)
    ensures
        hex_digits(n, width).len() == width,
        width > 0 ==> hex_digits(n, width).last() == digit_char(n % 16),
        width > 0 ==> hex_digits(n, width).drop_last() == hex_digits(n / 16, (width - 1) as nat),
    decreases width,
{
    if width > 0 {
        hexadecimal_digits_stand_in_their_places(n / 16, (width - 1) as nat);
        assert(hex_digits(n, width).drop_last() =~= hex_digits(n / 16, (width - 1) as nat));
    }
}

/// Of ASCII the tab, the line breaks between 0x0A and 0x0D and the space are white,
/// and nothing else: no letter, digit or mark. Beyond ASCII only spaces of various
/// widths and breaks are.
pub proof fn only_spaces_and_breaks_are_white(c: char)
    ensures
        (c as int) < 0x80 ==> (white_space(c) <==> c == ' ' || 0x9 <= c as int <= 0xD),
        white_space(c) && c as int >= 0x80 ==> c as int == 0x85 || c as int == 0xA0 || c as int
            == 0x1680 || 0x2000 <= c as int <= 0x200A || 0x2028 <= c as int <= 0x2029 || c as int
            == 0x202F || c as int == 0x205F || c as int == 0x3000,
        c as int == 0x85 || c as int == 0xA0 || c as int == 0x1680 || 0x2000 <= c as int <= 0x200A
            || 0x2028 <= c as int <= 0x2029 || c as int == 0x202F || c as int == 0x205F || c as int
            == 0x3000 ==> white_space(c),
{
}

proof fn start_is_trimmed(s: Seq<char>) -> (a: int)
    ensures
        0 <= a <= s.len(),
        trimmed_start(s) == s.skip(a),
        blank(s.take(a)),
        a < s.len() ==> !white_space(s[a]),
    decreases s.len(),
{
    if s.len() > 0 && white_space(s[0]) {
        let b = start_is_trimmed(s.skip(1));
        assert(s.skip(1).skip(b) =~= s.skip(b + 1));
        assert forall|i: int| 0 <= i < b + 1 implies white_space(#[trigger] s.take(b + 1)[i]) by {
            if i > 0 {
                assert(s.skip(1).take(b)[i - 1] == s[i]);
            }
        }
        b + 1
    } else {
        assert(s.skip(0) =~= s);
        0
    }
}

proof fn end_is_trimmed(s: Seq<char>) -> (b: int)
    ensures
        0 <= b <= s.len(),
        trimmed_end(s) == s.take(b),
        blank(s.skip(b)),
        b > 0 ==> !white_space(s[b - 1]),
    decreases s.len(),
{
    if s.len() > 0 && white_space(s.last()) {
        let b = end_is_trimmed(s.drop_last());
        assert(s.drop_last().take(b) =~= s.take(b));
        assert forall|i: int| 0 <= i < s.len() - b implies white_space(
            #[trigger] s.skip(b)[i],
        ) by {
            if i < s.len() - b - 1 {
                assert(s.drop_last().skip(b)[i] == s[b + i]);
            }
        }
        b
    } else {
        assert(s.take(s.len() as int) =~= s);
        s.len() as int
    }
}

/// What is trimmed is white space at the ends, all of it and nothing else: a text is
/// white space, its trimmed self, which neither starts nor ends in any, and white
/// space again. So a text that neither starts nor ends in any is kept as it is.
pub proof fn only_white_space_is_trimmed(s: Seq<char>)
    ensures
        exists|a: int, b: int|
            {
                &&& 0 <= a <= b <= s.len()
                &&& trimmed(s) == #[trigger] s.subrange(a, b)
                &&& blank(s.take(a))
                &&& blank(s.skip(b))
            },
        trimmed(s).len() > 0 ==> !white_space(trimmed(s)[0]) && !white_space(trimmed(s).last()),
        trimmed(s).len() == 0 <==> blank(s),
        s.len() > 0 && !white_space(s[0]) && !white_space(s.last()) ==> trimmed(s) == s,
{
    let a = start_is_trimmed(s);
    let rest = s.skip(a);
    let n = end_is_trimmed(rest);
    let b = a + n;
    assert(rest.take(n) =~= s.subrange(a, b));
    assert(rest.skip(n) =~= s.skip(b));
    assert(trimmed(s) == s.subrange(a, b));
    if trimmed(s).len() > 0 {
        assert(trimmed(s)[0] == s[a]);
        assert(trimmed(s).last() == rest[n - 1]);
        assert(!blank(s)) by {
            assert(!white_space(s[a]));
        }
    } else {
        assert forall|i: int| 0 <= i < s.len() implies white_space(#[trigger] s[i]) by {
            if i < a {
                assert(s.take(a)[i] == s[i]);
            } else {
                assert(s.skip(b)[i - b] == s[i]);
            }
        }
    }
    if s.len() > 0 && !white_space(s[0]) && !white_space(s.last()) {
        assert(trimmed_start(s) == s && trimmed_end(s) == s);
    }
}

/// A text is blank where it is white space throughout, and the empty one is.
pub proof fn blank_is_white_throughout(s: Seq<char>)
    ensures
        s.len() == 0 ==> blank(s),
        blank(s) <==> forall|i: int| 0 <= i < s.len() ==> white_space(#[trigger] s[i]),
{
}

/// Capital letters of the ASCII alphabet have their small ones 32 further on, and
/// every other character stays as it is.
pub proof fn only_capital_letters_change(c: char)
    ensures
        0x41 <= c as int <= 0x5A ==> ascii_lower(c) as int == c as int + 32,
        !(0x41 <= c as int <= 0x5A) ==> ascii_lower(c) == c,
{
}

/// Texts are the same but for the case of ASCII letters where they are once all
/// letters are small, character by character.
pub proof fn the_same_but_for_case(a: Seq<char>, b: Seq<char>)
    ensures
        same_ascii(a, b) <==> ascii_lowered(a) == ascii_lowered(b),
        same_ascii(a, a),
        same_ascii(a, b) ==> a.len() == b.len(),
        ascii_lowered(a).len() == a.len(),
        forall|i: int| 0 <= i < a.len() ==> #[trigger] ascii_lowered(a)[i] == ascii_lower(a[i]),
{
    if ascii_lowered(a) == ascii_lowered(b) {
        assert(ascii_lowered(a).len() == a.len() && ascii_lowered(b).len() == b.len());
        assert forall|i: int| 0 <= i < a.len() implies ascii_lower(#[trigger] a[i]) == ascii_lower(
            b[i],
        ) by {
            assert(ascii_lowered(a)[i] == ascii_lowered(b)[i]);
        }
    }
    if same_ascii(a, b) {
        assert forall|i: int| 0 <= i < a.len() implies ascii_lowered(a)[i] == ascii_lowered(
            b,
        )[i] by {
            assert(ascii_lower(a[i]) == ascii_lower(b[i]));
        }
        assert(ascii_lowered(a) =~= ascii_lowered(b));
    }
}

/// A text that is all ASCII is in lower case once its capital letters are small, and
/// any other is as the standard library has it.
pub proof fn lower_case_is_that_of_the_library(s: Seq<char>)
    ensures
        (forall|i: int| 0 <= i < s.len() ==> (#[trigger] s[i] as int) < 0x80) ==> in_lower_case(s)
            == ascii_lowered(s),
        (exists|i: int| 0 <= i < s.len() && #[trigger] s[i] as int >= 0x80) ==> in_lower_case(s)
            == lowered(s),
{
}

/// A text stands inside another where the other is it with something before and
/// something after, and nowhere else.
pub proof fn what_stands_inside_has_a_place(needle: Seq<char>, hay: Seq<char>)
    ensures
        inside(needle, hay) <==> exists|before: Seq<char>, after: Seq<char>|
            hay == #[trigger] (before + needle + after),
{
    if inside(needle, hay) {
        let i = choose|i: int|
            0 <= i <= hay.len() - needle.len() && #[trigger] hay.subrange(i, i + needle.len())
                == needle;
        let before = hay.take(i);
        let after = hay.skip(i + needle.len());
        assert(hay =~= before + hay.subrange(i, i + needle.len()) + after);
        assert(hay == before + needle + after);
    }
    if exists|before: Seq<char>, after: Seq<char>| hay == #[trigger] (before + needle + after) {
        let (before, after) = choose|before: Seq<char>, after: Seq<char>|
            hay == #[trigger] (before + needle + after);
        let i = before.len() as int;
        assert(hay.subrange(i, i + needle.len()) =~= needle);
    }
}

/// Case makes no difference to what stands inside an ASCII text: it is there
/// wherever some part is the same but for case.
pub proof fn case_makes_no_difference_inside(needle: Seq<char>, hay: Seq<char>)
    requires
        ascii(needle),
        ascii(hay),
    ensures
        inside_any_case(needle, hay) <==> exists|i: int|
            0 <= i <= hay.len() - needle.len() && #[trigger] same_ascii(
                hay.subrange(i, i + needle.len()),
                needle,
            ),
{
    let n = ascii_lowered(needle);
    let h = ascii_lowered(hay);
    assert(n.len() == needle.len() && h.len() == hay.len());
    assert forall|i: int| 0 <= i <= hay.len() - needle.len() implies (#[trigger] h.subrange(
        i,
        i + n.len(),
    ) == n <==> same_ascii(hay.subrange(i, i + needle.len()), needle)) by {
        let part = hay.subrange(i, i + needle.len());
        assert(ascii_lowered(part) =~= h.subrange(i, i + n.len()));
        the_same_but_for_case(part, needle);
    }
    if inside(n, h) {
        let i = choose|i: int|
            0 <= i <= h.len() - n.len() && #[trigger] h.subrange(i, i + n.len()) == n;
        assert(same_ascii(hay.subrange(i, i + needle.len()), needle));
    }
    if exists|i: int|
        0 <= i <= hay.len() - needle.len() && #[trigger] same_ascii(
            hay.subrange(i, i + needle.len()),
            needle,
        ) {
        let i = choose|i: int|
            0 <= i <= hay.len() - needle.len() && #[trigger] same_ascii(
                hay.subrange(i, i + needle.len()),
                needle,
            );
        assert(h.subrange(i, i + n.len()) == n);
    }
}

/// Where a text is not inside another, replacing it changes nothing.
pub proof fn nothing_is_replaced_where_nothing_stands(
    s: Seq<char>,
    needle: Seq<char>,
    with: Seq<char>,
)
    ensures
        !inside(needle, s) || needle.len() == 0 ==> with_replaced(s, needle, with) == s,
    decreases s.len(),
{
    if needle.len() > 0 && s.len() >= needle.len() && !inside(needle, s) {
        let rest = s.skip(1);
        assert(!inside(needle, rest)) by {
            if inside(needle, rest) {
                let i = choose|i: int|
                    0 <= i <= rest.len() - needle.len() && #[trigger] rest.subrange(
                        i,
                        i + needle.len(),
                    ) == needle;
                assert(s.subrange(i + 1, i + 1 + needle.len()) =~= rest.subrange(
                    i,
                    i + needle.len(),
                ));
            }
        }
        assert(s.subrange(0int, 0int + needle.len()) != needle);
        nothing_is_replaced_where_nothing_stands(rest, needle, with);
        assert(seq![s[0]] + rest =~= s);
    }
}

/// Each place is replaced for itself, from the left: what comes before the first one
/// stays, the replacement stands for it, and the rest is dealt with in the same way.
pub proof fn each_place_is_replaced(
    before: Seq<char>,
    needle: Seq<char>,
    after: Seq<char>,
    with: Seq<char>,
)
    requires
        needle.len() > 0,
        forall|i: int|
            0 <= i < before.len() ==> #[trigger] (before + needle + after).subrange(
                i,
                i + needle.len(),
            ) != needle,
    ensures
        with_replaced(before + needle + after, needle, with) == before + with + with_replaced(
            after,
            needle,
            with,
        ),
    decreases before.len(),
{
    let s = before + needle + after;
    if before.len() == 0 {
        assert(s =~= needle + after);
        assert(s.subrange(0, needle.len() as int) =~= needle);
        assert(s.skip(needle.len() as int) =~= after);
        assert(before + with + with_replaced(after, needle, with) =~= with + with_replaced(
            after,
            needle,
            with,
        ));
    } else {
        let less = before.skip(1);
        let rest = less + needle + after;
        assert(s.skip(1) =~= rest);
        assert forall|i: int| 0 <= i < less.len() implies #[trigger] rest.subrange(
            i,
            i + needle.len(),
        ) != needle by {
            assert(rest.subrange(i, i + needle.len()) =~= s.subrange(i + 1, i + 1 + needle.len()));
        }
        each_place_is_replaced(less, needle, after, with);
        assert(s.subrange(0int, 0int + needle.len()) != needle);
        assert(seq![s[0]] + (less + with + with_replaced(after, needle, with)) =~= before + with
            + with_replaced(after, needle, with));
    }
}

/// Texts are joined in their order with the same text between each two: two runs of
/// them are joined by it as well.
pub proof fn joining_keeps_the_order(a: Seq<Seq<char>>, b: Seq<Seq<char>>, between: Seq<char>)
    ensures
        joined(seq![], between) == Seq::<char>::empty(),
        a.len() == 1 ==> joined(a, between) == a[0],
        a.len() > 0 && b.len() > 0 ==> joined(a + b, between) == joined(a, between) + between
            + joined(b, between),
    decreases b.len(),
{
    if a.len() > 0 && b.len() > 0 {
        let whole = a + b;
        assert(whole.drop_last() =~= a + b.drop_last());
        assert(whole.last() == b.last());
        if b.len() == 1 {
            assert(a + b.drop_last() =~= a);
            assert(joined(whole, between) =~= joined(a, between) + between + joined(b, between));
        } else {
            joining_keeps_the_order(a, b.drop_last(), between);
            assert(joined(whole, between) =~= joined(a, between) + between + joined(b, between));
        }
    }
}

/// The lower case of one character is that of the text it makes.
pub proof fn one_character_is_a_text(c: char)
    ensures
        letter_case(c) == in_lower_case(seq![c]),
        (c as int) < 0x80 ==> letter_case(c) == seq![ascii_lower(c)],
{
    let one = seq![c];
    if c as int <= 0x7F {
        assert(ascii(one));
        assert(ascii_lowered(one) =~= seq![ascii_lower(c)]);
    } else {
        assert(one[0] == c);
        assert(!ascii(one));
    }
}

} // verus!
