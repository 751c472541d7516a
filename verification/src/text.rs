use vstd::prelude::*;

verus! {

/// The ASCII character of a hexadecimal digit, upper or lower case.
pub open spec fn hex_char(d: u8, upper: bool) -> char {
    if d < 10 {
        (('0' as u8) + d) as char
    } else if upper {
        (('A' as u8) + d - 10) as char
    } else {
        (('a' as u8) + d - 10) as char
    }
}

/// A one-character string holding a hexadecimal digit.
pub fn hex_digit_str(d: u8, upper: bool) -> (s: &'static str)
    requires
        d < 16,
    ensures
        s@ == seq![hex_char(d, upper)],
{
    proof {
        reveal_strlit("0");
        reveal_strlit("1");
        reveal_strlit("2");
        reveal_strlit("3");
        reveal_strlit("4");
        reveal_strlit("5");
        reveal_strlit("6");
        reveal_strlit("7");
        reveal_strlit("8");
        reveal_strlit("9");
        reveal_strlit("A");
        reveal_strlit("B");
        reveal_strlit("C");
        reveal_strlit("D");
        reveal_strlit("E");
        reveal_strlit("F");
        reveal_strlit("a");
        reveal_strlit("b");
        reveal_strlit("c");
        reveal_strlit("d");
        reveal_strlit("e");
        reveal_strlit("f");
    }
    if d == 0 {
        "0"
    } else if d == 1 {
        "1"
    } else if d == 2 {
        "2"
    } else if d == 3 {
        "3"
    } else if d == 4 {
        "4"
    } else if d == 5 {
        "5"
    } else if d == 6 {
        "6"
    } else if d == 7 {
        "7"
    } else if d == 8 {
        "8"
    } else if d == 9 {
        "9"
    } else if upper {
        if d == 10 {
            "A"
        } else if d == 11 {
            "B"
        } else if d == 12 {
            "C"
        } else if d == 13 {
            "D"
        } else if d == 14 {
            "E"
        } else {
            "F"
        }
    } else {
        if d == 10 {
            "a"
        } else if d == 11 {
            "b"
        } else if d == 12 {
            "c"
        } else if d == 13 {
            "d"
        } else if d == 14 {
            "e"
        } else {
            "f"
        }
    }
}

/// The lowercase hexadecimal text of a byte sequence, two digits per byte.
pub open spec fn hex_lower(s: Seq<u8>) -> Seq<char>
    decreases s.len(),
{
    if s.len() == 0 {
        seq![]
    } else {
        hex_lower(s.drop_last()) + seq![hex_char(s.last() / 16, false), hex_char(s.last() % 16, false)]
    }
}

/// Hexadecimal text has two digits per byte.
pub proof fn lemma_hex_lower_len(s: Seq<u8>)
    ensures
        hex_lower(s).len() == 2 * s.len(),
    decreases s.len(),
{
    if s.len() > 0 {
        lemma_hex_lower_len(s.drop_last());
    }
}

pub fn to_hex_lower(bytes: &[u8]) -> (s: String)
    ensures
        s@ == hex_lower(bytes@),
{
    let mut s = String::new();
    let mut i: usize = 0;
    while i < bytes.len()
        invariant
            i <= bytes@.len(),
            s@ == hex_lower(bytes@.take(i as int)),
        decreases bytes@.len() - i,
    {
        let b = bytes[i];
        s.append(hex_digit_str(b / 16, false));
        s.append(hex_digit_str(b % 16, false));
        proof {
            assert(bytes@.take(i + 1).drop_last() =~= bytes@.take(i as int));
        }
        i = i + 1;
    }
    assert(bytes@.take(i as int) =~= bytes@);
    s
}

/// The decimal digits of a natural number, most significant first.
pub open spec fn decimal(n: nat) -> Seq<char>
    decreases n,
{
    if n < 10 {
        seq![hex_char(n as u8, false)]
    } else {
        decimal(n / 10) + seq![hex_char((n % 10) as u8, false)]
    }
}

pub fn u64_to_decimal(n: u64) -> (s: String)
    ensures
        s@ == decimal(n as nat),
    decreases n,
{
    if n < 10 {
        String::from_str(hex_digit_str(n as u8, false))
    } else {
        let mut s = u64_to_decimal(n / 10);
        s.append(hex_digit_str((n % 10) as u8, false));
        s
    }
}

} // verus!

verus! {

/// Calls `std::str::from_utf8` and copies the text into a `String`: `Some`
/// exactly when the bytes are valid UTF-8, holding the characters they encode.
#[verifier::external_body]
pub(crate) fn utf8_to_string(bytes: &[u8]) -> (r: Option<String>)
    ensures
        (r is Some) == vstd::utf8::valid_utf8(bytes@),
        r matches Some(s) ==> s@ == vstd::utf8::decode_utf8(bytes@),
{
    std::str::from_utf8(bytes).ok().map(|s| s.to_string())
}

} // verus!

verus! {

/// Unicode `White_Space`, the set that `char::is_whitespace` tests.
pub open spec fn is_white_space(c: char) -> bool {
    let v = c as u32;
    (0x09 <= v <= 0x0D) || v == 0x20 || v == 0x85 || v == 0xA0 || v == 0x1680 || (0x2000 <= v
        <= 0x200A) || v == 0x2028 || v == 0x2029 || v == 0x202F || v == 0x205F || v == 0x3000
}

/// Unicode general category `Cc`, the set that `char::is_control` tests.
pub open spec fn is_control(c: char) -> bool {
    let v = c as u32;
    v <= 0x1F || (0x7F <= v <= 0x9F)
}

pub fn char_is_white_space(c: char) -> (b: bool)
    ensures
        b == is_white_space(c),
{
    let v = c as u32;
    (0x09 <= v && v <= 0x0D) || v == 0x20 || v == 0x85 || v == 0xA0 || v == 0x1680 || (0x2000 <= v
        && v <= 0x200A) || v == 0x2028 || v == 0x2029 || v == 0x202F || v == 0x205F || v == 0x3000
}

pub fn char_is_control(c: char) -> (b: bool)
    ensures
        b == is_control(c),
{
    let v = c as u32;
    v <= 0x1F || (0x7F <= v && v <= 0x9F)
}

/// The characters of a string, in order.
pub fn chars_of(s: &str) -> (v: Vec<char>)
    ensures
        v@ == s@,
{
    let mut v: Vec<char> = Vec::new();
    for c in it: s.chars()
        invariant
            it.seq() == s@,
            v@ == s@.take(it.index() as int),
    {
        v.push(c);
        assert(v@ =~= s@.take(it.index() + 1));
    }
    assert(s@.take(s@.len() as int) =~= s@);
    v
}

/// A character with ASCII upper-case letters mapped to lower case.
pub open spec fn ascii_lower_char(c: char) -> char {
    if 'A' <= c <= 'Z' {
        ((c as u32) + 32) as char
    } else {
        c
    }
}

/// A text with ASCII upper-case letters mapped to lower case, as
/// `str::to_ascii_lowercase` maps it.
pub open spec fn ascii_lower(s: Seq<char>) -> Seq<char> {
    s.map_values(|c: char| ascii_lower_char(c))
}

/// Whether `s`, with ASCII letters folded to lower case, equals `name`.
pub fn eq_ascii_lower(s: &str, name: &str) -> (b: bool)
    ensures
        b == (ascii_lower(s@) == name@),
{
    let a = chars_of(s);
    let b = chars_of(name);
    if a.len() != b.len() {
        assert(ascii_lower(s@).len() == s@.len());
        return false;
    }
    let mut i: usize = 0;
    while i < a.len()
        invariant
            a@ == s@,
            b@ == name@,
            a@.len() == b@.len(),
            i <= a@.len(),
            forall|j: int| 0 <= j < i ==> ascii_lower_char(a@[j]) == b@[j],
        decreases a@.len() - i,
    {
        let c = a[i];
        let lower = if 'A' <= c && c <= 'Z' {
            let v = (c as u32) + 32;
            assert(0x61 <= v <= 0x7A);
            char_from_ascii(v)
        } else {
            c
        };
        if lower != b[i] {
            assert(ascii_lower(s@)[i as int] != name@[i as int]);
            return false;
        }
        i = i + 1;
    }
    assert(ascii_lower(s@) =~= name@);
    true
}

/// The character of an ASCII code.
fn char_from_ascii(v: u32) -> (c: char)
    requires
        v < 0x80,
    ensures
        c == v as char,
{
    proof {
        vstd::utf8::char_u32_cast(v as char, v);
    }
    let b = v as u8;
    b as char
}

/// The upper-case hexadecimal digits of a number, most significant first.
pub open spec fn hex_upper(n: nat) -> Seq<char>
    decreases n,
{
    if n < 16 {
        seq![hex_char(n as u8, true)]
    } else {
        hex_upper(n / 16) + seq![hex_char((n % 16) as u8, true)]
    }
}

pub fn u32_to_hex_upper(n: u32) -> (s: String)
    ensures
        s@ == hex_upper(n as nat),
    decreases n,
{
    if n < 16 {
        String::from_str(hex_digit_str(n as u8, true))
    } else {
        let mut s = u32_to_hex_upper(n / 16);
        s.append(hex_digit_str((n % 16) as u8, true));
        s
    }
}

/// The number of bytes a text takes in UTF-8.
pub open spec fn utf8_len(s: Seq<char>) -> nat {
    vstd::utf8::encode_utf8(s).len()
}

} // verus!

verus! {

/// The characters of ASCII bytes.
pub open spec fn ascii_chars(bytes: Seq<u8>) -> Seq<char> {
    bytes.map_values(|b: u8| b as char)
}

/// A `String` holding ASCII bytes as characters.
pub fn ascii_to_string(bytes: &[u8]) -> (s: String)
    requires
        forall|i: int| 0 <= i < bytes@.len() ==> #[trigger] bytes@[i] < 0x80,
    ensures
        s@ == ascii_chars(bytes@),
{
    let ghost chars = ascii_chars(bytes@);
    proof {
        assert(vstd::utf8::is_ascii_chars(chars));
        vstd::utf8::is_ascii_chars_encode_utf8(chars);
        assert forall|i: int| 0 <= i < bytes@.len() implies (chars[i] as u8) == bytes@[i] by {
            vstd::utf8::char_u32_cast(chars[i], bytes@[i] as u32);
        }
        assert(vstd::utf8::encode_utf8(chars) =~= bytes@);
        vstd::utf8::encode_utf8_valid_utf8(chars);
        vstd::utf8::encode_utf8_decode_utf8(chars);
    }
    match utf8_to_string(bytes) {
        Some(s) => s,
        None => String::new(),
    }
}

/// Whether every character is white space (a text that trims to nothing).
pub fn is_blank(s: &str) -> (r: bool)
    ensures
        r == (forall|i: int| 0 <= i < s@.len() ==> is_white_space(#[trigger] s@[i])),
{
    let c = chars_of(s);
    let mut i: usize = 0;
    while i < c.len()
        invariant
            c@ == s@,
            i <= c@.len(),
            forall|k: int| 0 <= k < i ==> is_white_space(#[trigger] s@[k]),
        decreases c@.len() - i,
    {
        if !char_is_white_space(c[i]) {
            return false;
        }
        i = i + 1;
    }
    true
}

/// Whether two texts are equal when ASCII letters are folded to lower case,
/// as `str::eq_ignore_ascii_case` compares them.
pub fn eq_ignore_ascii_case(a: &str, b: &str) -> (r: bool)
    ensures
        r == (ascii_lower(a@) == ascii_lower(b@)),
{
    let x = chars_of(a);
    let y = chars_of(b);
    if x.len() != y.len() {
        assert(ascii_lower(a@).len() == a@.len());
        assert(ascii_lower(b@).len() == b@.len());
        return false;
    }
    let mut i: usize = 0;
    while i < x.len()
        invariant
            x@ == a@,
            y@ == b@,
            x@.len() == y@.len(),
            i <= x@.len(),
            forall|j: int| 0 <= j < i ==> ascii_lower_char(a@[j]) == ascii_lower_char(b@[j]),
        decreases x@.len() - i,
    {
        if lower_char(x[i]) != lower_char(y[i]) {
            assert(ascii_lower(a@)[i as int] != ascii_lower(b@)[i as int]);
            return false;
        }
        i = i + 1;
    }
    assert(ascii_lower(a@) =~= ascii_lower(b@));
    true
}

pub fn lower_char(c: char) -> (l: char)
    ensures
        l == ascii_lower_char(c),
{
    if 'A' <= c && c <= 'Z' {
        let v = (c as u32) + 32;
        char_from_ascii(v)
    } else {
        c
    }
}

/// Items joined by ", ".
pub open spec fn comma_join(items: Seq<Seq<char>>) -> Seq<char>
    decreases items.len(),
{
    if items.len() == 0 {
        seq![]
    } else if items.len() == 1 {
        items[0]
    } else {
        comma_join(items.drop_last()) + ", "@ + items.last()
    }
}

pub open spec fn strings_view(v: Seq<String>) -> Seq<Seq<char>> {
    v.map_values(|s: String| s@)
}

pub fn join_comma(items: &[String]) -> (s: String)
    ensures
        s@ == comma_join(strings_view(items@)),
{
    let ghost all = strings_view(items@);
    let mut s = String::new();
    let mut i: usize = 0;
    while i < items.len()
        invariant
            all == strings_view(items@),
            i <= items@.len(),
            s@ == comma_join(all.take(i as int)),
        decreases items@.len() - i,
    {
        proof {
            assert(all.take(i + 1).drop_last() =~= all.take(i as int));
        }
        if i != 0 {
            s.append(", ");
        }
        s.append(items[i].as_str());
        proof {
            if i == 0 {
                assert(comma_join(all.take(1)) == all.take(1)[0]);
                assert(s@ =~= all.take(1)[0]);
            }
        }
        i = i + 1;
    }
    assert(all.take(i as int) =~= all);
    s
}

} // verus!
