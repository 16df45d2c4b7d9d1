use vstd::prelude::*;
use vstd::utf8::*;
use vstd::string::StringSliceAdditionalSpecFns;

verus! {

/// The bytes of a string, in UTF-8.
pub open spec fn bytes_of(s: &String) -> Seq<u8> {
    encode_utf8(s@)
}

pub open spec fn is_space(c: u8) -> bool {
    c == 0x20
}

/// `A` to `Z`.
pub open spec fn is_upper(c: u8) -> bool {
    0x41 <= c <= 0x5A
}

/// `0`-`9`, `a`-`f`, `A`-`F`.
pub open spec fn is_hex_digit(c: u8) -> bool {
    (0x30 <= c <= 0x39) || (0x41 <= c <= 0x46) || (0x61 <= c <= 0x66)
}

pub open spec fn hex_digit_value(c: u8) -> nat {
    if 0x30 <= c <= 0x39 {
        (c - 0x30) as nat
    } else if 0x41 <= c <= 0x46 {
        (c - 0x37) as nat
    } else {
        (c - 0x57) as nat
    }
}

/// One or more upper-case letters, nothing else.
pub open spec fn all_upper(s: Seq<u8>) -> bool {
    s.len() > 0 && forall|i: int| 0 <= i < s.len() ==> is_upper(#[trigger] s[i])
}

/// One or two hexadecimal digits.
pub open spec fn is_hex_literal(s: Seq<u8>) -> bool {
    1 <= s.len() <= 2 && forall|i: int| 0 <= i < s.len() ==> is_hex_digit(#[trigger] s[i])
}

pub open spec fn hex_literal_value(s: Seq<u8>) -> nat {
    if s.len() == 1 {
        hex_digit_value(s[0])
    } else {
        16 * hex_digit_value(s[0]) + hex_digit_value(s[1])
    }
}

/// The index of the first space at or after `i`, or the length when there is none.
pub open spec fn first_space(s: Seq<u8>, i: int) -> int
    decreases s.len() - i,
{
    if i >= s.len() || i < 0 {
        s.len() as int
    } else if is_space(s[i]) {
        i
    } else {
        first_space(s, i + 1)
    }
}

/// Two strings with the same bytes are the same string.
pub proof fn lemma_bytes_of_injective(a: &String, b: &String)
    ensures
        bytes_of(a) == bytes_of(b) <==> a@ == b@,
{
    encode_utf8_decode_utf8(a@);
    encode_utf8_decode_utf8(b@);
}

/// `first_space` finds the space at `j` when none stands between `i` and `j`.
pub proof fn lemma_first_space_at(s: Seq<u8>, i: int, j: int)
    requires
        0 <= i <= j <= s.len(),
        forall|k: int| i <= k < j ==> !is_space(#[trigger] s[k]),
        j == s.len() || is_space(s[j]),
    ensures
        first_space(s, i) == j,
    decreases j - i,
{
    if i < j {
        lemma_first_space_at(s, i + 1, j);
    }
}

/// A position at which a string may be cut without splitting a character:
/// before an ASCII byte, or at the end.
pub open spec fn ascii_cut(b: Seq<u8>, i: int) -> bool {
    0 <= i <= b.len() && (i == b.len() || b[i] < 0x80)
}

pub fn hex_digit(c: u8) -> (r: Option<u8>)
    ensures
        r == (if is_hex_digit(c) { Some(hex_digit_value(c) as u8) } else { None::<u8> }),
{
    if 0x30 <= c && c <= 0x39 {
        Some(c - 0x30)
    } else if 0x41 <= c && c <= 0x46 {
        Some(c - 0x37)
    } else if 0x61 <= c && c <= 0x66 {
        Some(c - 0x57)
    } else {
        None
    }
}

/// Reads a literal of one or two hexadecimal digits.
pub fn hex_literal(t: &[u8]) -> (r: Option<u8>)
    ensures
        r == (if is_hex_literal(t@) { Some(hex_literal_value(t@) as u8) } else { None::<u8> }),
{
    if t.len() == 1 {
        hex_digit(t[0])
    } else if t.len() == 2 {
        match (hex_digit(t[0]), hex_digit(t[1])) {
            (Some(h), Some(l)) => Some(h * 16 + l),
            _ => {
                assert(!is_hex_digit(t@[0]) || !is_hex_digit(t@[1]));
                None
            },
        }
    } else {
        None
    }
}

pub fn upper_word(t: &[u8]) -> (r: bool)
    ensures
        r == all_upper(t@),
{
    if t.len() == 0 {
        return false;
    }
    let mut i: usize = 0;
    while i < t.len()
        invariant
            0 <= i <= t@.len(),
            forall|j: int| 0 <= j < i ==> is_upper(#[trigger] t@[j]),
        decreases t@.len() - i,
    {
        if !(0x41 <= t[i] && t[i] <= 0x5A) {
            return false;
        }
        i = i + 1;
    }
    true
}

/// Finds the first space at or after `from`.
pub fn find_space(b: &[u8], from: usize) -> (r: usize)
    requires
        from <= b@.len(),
    ensures
        r as int == first_space(b@, from as int),
        from <= r <= b@.len(),
        r < b@.len() ==> is_space(b@[r as int]),
{
    let mut i = from;
    while i < b.len()
        invariant
            from <= i <= b@.len(),
            first_space(b@, from as int) == first_space(b@, i as int),
        decreases b@.len() - i,
    {
        if b[i] == 0x20 {
            return i;
        }
        i = i + 1;
    }
    i
}

/// The part of `s` between byte offsets `i` and `j`.
pub fn text_between(s: &str, i: usize, j: usize) -> (r: String)
    requires
        i <= j,
        ascii_cut(s.spec_bytes(), i as int),
        ascii_cut(s.spec_bytes(), j as int),
    ensures
        bytes_of(&r) == s.spec_bytes().subrange(i as int, j as int),
{
    proof {
        encode_utf8_valid_utf8(s@);
        is_char_boundary_start_end_of_seq(s.spec_bytes());
        if j < s.spec_bytes().len() {
            is_char_boundary_iff_is_leading_byte(s.spec_bytes(), j as int);
        }
    }
    let (a, _) = s.split_at(j);
    proof {
        encode_utf8_valid_utf8(a@);
        is_char_boundary_start_end_of_seq(a.spec_bytes());
        if i < j {
            assert(a.spec_bytes()[i as int] == s.spec_bytes()[i as int]);
            is_char_boundary_iff_is_leading_byte(a.spec_bytes(), i as int);
        }
    }
    let (_, c) = a.split_at(i);
    let r = c.to_owned();
    assert(c.spec_bytes() =~= s.spec_bytes().subrange(i as int, j as int));
    r
}

} // verus!
