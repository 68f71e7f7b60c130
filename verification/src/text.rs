//! Character folding and decimal formatting shared by the property table,
//! the special-property registry and value coercion.

use vstd::prelude::*;

verus! {

/// ASCII-lowercase a single character; all other characters are unchanged.
pub open spec fn fold_char(c: char) -> char {
    if c == 'A' {
        'a'
    } else if c == 'B' {
        'b'
    } else if c == 'C' {
        'c'
    } else if c == 'D' {
        'd'
    } else if c == 'E' {
        'e'
    } else if c == 'F' {
        'f'
    } else if c == 'G' {
        'g'
    } else if c == 'H' {
        'h'
    } else if c == 'I' {
        'i'
    } else if c == 'J' {
        'j'
    } else if c == 'K' {
        'k'
    } else if c == 'L' {
        'l'
    } else if c == 'M' {
        'm'
    } else if c == 'N' {
        'n'
    } else if c == 'O' {
        'o'
    } else if c == 'P' {
        'p'
    } else if c == 'Q' {
        'q'
    } else if c == 'R' {
        'r'
    } else if c == 'S' {
        's'
    } else if c == 'T' {
        't'
    } else if c == 'U' {
        'u'
    } else if c == 'V' {
        'v'
    } else if c == 'W' {
        'w'
    } else if c == 'X' {
        'x'
    } else if c == 'Y' {
        'y'
    } else if c == 'Z' {
        'z'
    } else {
        c
    }
}

/// ASCII-lowercase a whole sequence of characters.
pub open spec fn fold(s: Seq<char>) -> Seq<char> {
    s.map_values(|c: char| fold_char(c))
}

/// Two names match under the given case rule.
pub open spec fn name_matches(a: Seq<char>, b: Seq<char>, case_sensitive: bool) -> bool {
    if case_sensitive {
        a == b
    } else {
        fold(a) == fold(b)
    }
}

/// The case rule as a function on one character.
pub open spec fn apply_case(c: char, case_sensitive: bool) -> char {
    if case_sensitive {
        c
    } else {
        fold_char(c)
    }
}

/// Executable ASCII-lowercase of one character.
pub fn fold_char_exec(c: char) -> (r: char)
    ensures
        r == fold_char(c),
{
    match c {
        'A' => 'a',
        'B' => 'b',
        'C' => 'c',
        'D' => 'd',
        'E' => 'e',
        'F' => 'f',
        'G' => 'g',
        'H' => 'h',
        'I' => 'i',
        'J' => 'j',
        'K' => 'k',
        'L' => 'l',
        'M' => 'm',
        'N' => 'n',
        'O' => 'o',
        'P' => 'p',
        'Q' => 'q',
        'R' => 'r',
        'S' => 's',
        'T' => 't',
        'U' => 'u',
        'V' => 'v',
        'W' => 'w',
        'X' => 'x',
        'Y' => 'y',
        'Z' => 'z',
        _ => c,
    }
}

/// Compare two strings under the given case rule.
pub fn names_equal(a: &str, b: &str, case_sensitive: bool) -> (r: bool)
    ensures
        r == name_matches(a@, b@, case_sensitive),
{
    let a_len: usize = a.unicode_len();
    let b_len: usize = b.unicode_len();
    if a_len != b_len {
        assert(a@.len() != b@.len());
        assert(fold(a@).len() != fold(b@).len());
        return false;
    }
    let mut i: usize = 0;
    while i < a_len
        invariant
            a_len == a@.len(),
            b_len == b@.len(),
            a_len == b_len,
            i <= a_len,
            forall|j: int|
                0 <= j < i ==> #[trigger] apply_case(a@[j], case_sensitive) == apply_case(
                    b@[j],
                    case_sensitive,
                ),
        decreases a_len - i,
    {
        let ca = a.get_char(i);
        let cb = b.get_char(i);
        let fa = if case_sensitive {
            ca
        } else {
            fold_char_exec(ca)
        };
        let fb = if case_sensitive {
            cb
        } else {
            fold_char_exec(cb)
        };
        if fa != fb {
            assert(apply_case(a@[i as int], case_sensitive) != apply_case(
                b@[i as int],
                case_sensitive,
            ));
            assert(!name_matches(a@, b@, case_sensitive)) by {
                if case_sensitive {
                    assert(a@[i as int] != b@[i as int]);
                } else {
                    assert(fold(a@)[i as int] != fold(b@)[i as int]);
                }
            }
            return false;
        }
        i = i + 1;
    }
    proof {
        if case_sensitive {
            assert forall|j: int| 0 <= j < a@.len() implies a@[j] == b@[j] by {
                assert(apply_case(a@[j], true) == apply_case(b@[j], true));
            }
            assert(a@ =~= b@);
        } else {
            assert forall|j: int| 0 <= j < fold(a@).len() implies fold(a@)[j] == fold(b@)[j] by {
                assert(apply_case(a@[j], false) == apply_case(b@[j], false));
            }
            assert(fold(a@) =~= fold(b@));
        }
    }
    true
}

/// The decimal digits of a natural number, most significant first.
pub open spec fn dec_digits(n: nat) -> Seq<char>
    decreases n,
{
    if n < 10 {
        seq![digit_char(n)]
    } else {
        dec_digits(n / 10) + seq![digit_char(n % 10)]
    }
}

/// The character for one decimal digit.
pub open spec fn digit_char(d: nat) -> char {
    if d == 0 {
        '0'
    } else if d == 1 {
        '1'
    } else if d == 2 {
        '2'
    } else if d == 3 {
        '3'
    } else if d == 4 {
        '4'
    } else if d == 5 {
        '5'
    } else if d == 6 {
        '6'
    } else if d == 7 {
        '7'
    } else if d == 8 {
        '8'
    } else {
        '9'
    }
}

/// A one-character string for one decimal digit.
pub fn digit_str(d: u64) -> (r: &'static str)
    requires
        d < 10,
    ensures
        r@ == seq![digit_char(d as nat)],
{
    proof {
        reveal_strlit("0");
        reveal_strlit("1");
        reveal_strlit("2");
        reveal_strlit("3");
        reveal_strlit("4");
        reveal_strlit("5");
        reveal_strlit("6");
        reveal_strlit("7");
        reveal_strlit("8");
        reveal_strlit("9");
    }
    let r = if d == 0 {
        "0"
    } else if d == 1 {
        "1"
    } else if d == 2 {
        "2"
    } else if d == 3 {
        "3"
    } else if d == 4 {
        "4"
    } else if d == 5 {
        "5"
    } else if d == 6 {
        "6"
    } else if d == 7 {
        "7"
    } else if d == 8 {
        "8"
    } else {
        "9"
    };
    proof {
        assert(r@ =~= seq![digit_char(d as nat)]);
    }
    r
}

/// Render a natural number in decimal.
pub fn u64_to_string(n: u64) -> (s: String)
    ensures
        s@ == dec_digits(n as nat),
    decreases n,
{
    if n < 10 {
        let s = String::from_str(digit_str(n));
        s
    } else {
        let mut s = u64_to_string(n / 10);
        s.append(digit_str(n % 10));
        proof {
            assert(s@ =~= dec_digits(n as nat));
        }
        s
    }
}

/// The decimal rendering of a signed integer.
pub open spec fn dec_string(n: int) -> Seq<char> {
    if n < 0 {
        seq!['-'] + dec_digits((-n) as nat)
    } else {
        dec_digits(n as nat)
    }
}

/// Render a signed integer in decimal.
pub fn i64_to_string(n: i64) -> (s: String)
    ensures
        s@ == dec_string(n as int),
{
    proof {
        reveal_strlit("-");
    }
    if n < 0 {
        let mut s = String::from_str("-");
        let mag: u64 = if n == i64::MIN {
            9223372036854775808u64
        } else {
            (-n) as u64
        };
        assert(mag == -(n as int));
        let t = u64_to_string(mag);
        s.append(t.as_str());
        proof {
            assert(s@ =~= dec_string(n as int));
        }
        s
    } else {
        u64_to_string(n as u64)
    }
}

/// The numeric value of a digit character, if it is one.
pub open spec fn char_digit(c: char) -> Option<nat> {
    if c == '0' {
        Some(0 as nat)
    } else if c == '1' {
        Some(1 as nat)
    } else if c == '2' {
        Some(2 as nat)
    } else if c == '3' {
        Some(3 as nat)
    } else if c == '4' {
        Some(4 as nat)
    } else if c == '5' {
        Some(5 as nat)
    } else if c == '6' {
        Some(6 as nat)
    } else if c == '7' {
        Some(7 as nat)
    } else if c == '8' {
        Some(8 as nat)
    } else if c == '9' {
        Some(9 as nat)
    } else {
        None
    }
}

/// The value of a non-empty all-digit sequence, if it fits in u64.
pub open spec fn spec_parse_digits(s: Seq<char>) -> Option<u64>
    decreases s.len(),
{
    if s.len() == 0 {
        None
    } else if s.len() == 1 {
        match char_digit(s[0]) {
            Some(d) => Some(d as u64),
            None => None,
        }
    } else {
        match (spec_parse_digits(s.drop_last()), char_digit(s.last())) {
            (Some(hi), Some(d)) => if hi * 10 + d <= u64::MAX {
                Some((hi * 10 + d) as u64)
            } else {
                None
            },
            _ => None,
        }
    }
}

/// The signed value of an optional minus sign followed by digits, if it fits
/// in i64.
pub open spec fn spec_parse_i64(s: Seq<char>) -> Option<i64> {
    if s.len() > 0 && s[0] == '-' {
        match spec_parse_digits(s.skip(1)) {
            Some(m) => if m <= 0x8000000000000000u64 {
                Some((-(m as int)) as i64)
            } else {
                None
            },
            None => None,
        }
    } else {
        match spec_parse_digits(s) {
            Some(m) => if m <= i64::MAX as u64 {
                Some(m as i64)
            } else {
                None
            },
            None => None,
        }
    }
}

/// Parse the digits of a string from a start position to its end.
pub fn parse_digits(s: &str, start: usize) -> (r: Option<u64>)
    requires
        start <= s@.len(),
    ensures
        r == spec_parse_digits(s@.skip(start as int)),
{
    let len = s.unicode_len();
    if start >= len {
        proof {
            assert(s@.skip(start as int) =~= Seq::<char>::empty());
        }
        return None;
    }
    let mut value: u64 = 0;
    let mut k: usize = start;
    while k < len
        invariant
            len == s@.len(),
            start < len,
            start <= k <= len,
            k == start ==> value == 0,
            k > start ==> spec_parse_digits(s@.skip(start as int).take(k - start)) == Some(value),
        decreases len - k,
    {
        let c = s.get_char(k);
        let d = match char_digit_exec(c) {
            Some(d) => d,
            None => {
                proof {
                    lemma_parse_digits_bad(s@.skip(start as int), k - start);
                }
                return None;
            },
        };
        if value > (u64::MAX - d) / 10 {
            // The number does not fit; the text parses as no number.
            proof {
                lemma_parse_digits_overflow(s@.skip(start as int), k - start, value);
            }
            return None;
        }
        let ghost prefix_now = s@.skip(start as int).take(k - start);
        value = value * 10 + d;
        k = k + 1;
        proof {
            let prefix_next = s@.skip(start as int).take(k - start);
            assert(prefix_next.drop_last() =~= prefix_now);
            assert(prefix_next.last() == s@[k - 1]);
        }
    }
    proof {
        assert(s@.skip(start as int).take(len - start) =~= s@.skip(start as int));
    }
    Some(value)
}

/// Parse a whole string as a signed decimal integer.
pub fn parse_i64(s: &str) -> (r: Option<i64>)
    ensures
        r == spec_parse_i64(s@),
{
    proof {
        reveal_strlit("-");
    }
    let len = s.unicode_len();
    if len > 0 && s.get_char(0) == '-' {
        match parse_digits(s, 1) {
            Some(m) => if m <= 0x8000000000000000u64 {
                let r: i64 = if m == 0x8000000000000000u64 {
                    i64::MIN
                } else {
                    -(m as i64)
                };
                assert(r as int == -(m as int));
                Some(r)
            } else {
                None
            },
            None => None,
        }
    } else {
        proof {
            if len > 0 {
                assert(s@[0] != '-');
            }
        }
        match parse_digits(s, 0) {
            Some(m) => {
                proof {
                    assert(s@.skip(0) =~= s@);
                }
                if m <= 0x7fffffffffffffffu64 {
                    Some(m as i64)
                } else {
                    None
                }
            },
            None => {
                proof {
                    assert(s@.skip(0) =~= s@);
                }
                None
            },
        }
    }
}

/// If a digit sequence has a non-digit at some position, it has no value.
proof fn lemma_parse_digits_bad(s: Seq<char>, i: int)
    requires
        0 <= i < s.len(),
        char_digit(s[i]) is None,
    ensures
        spec_parse_digits(s.take(i + 1)) is None,
        forall|m: int| i < m <= s.len() ==> spec_parse_digits(#[trigger] s.take(m)) is None,
    decreases s.len() - i,
{
    assert(s.take(i + 1).last() == s[i]);
    assert forall|m: int| i < m <= s.len() implies spec_parse_digits(#[trigger] s.take(m)) is None by {
        lemma_parse_digits_none_extends(s, i + 1, m);
    }
}

/// A failed parse of a prefix fails for every longer prefix.
proof fn lemma_parse_digits_none_extends(s: Seq<char>, i: int, m: int)
    requires
        0 < i <= m <= s.len(),
        spec_parse_digits(s.take(i)) is None,
    ensures
        spec_parse_digits(s.take(m)) is None,
    decreases m - i,
{
    if m > i {
        lemma_parse_digits_none_extends(s, i, m - 1);
        assert(s.take(m).drop_last() =~= s.take(m - 1));
    }
}

/// A parse that has already overflowed the range fails for every longer
/// prefix too.
proof fn lemma_parse_digits_overflow(s: Seq<char>, i: int, value: u64)
    requires
        0 <= i < s.len(),
        i == 0 ==> value == 0,
        i > 0 ==> spec_parse_digits(s.take(i)) == Some(value),
        char_digit(s[i]) matches Some(d) && value * 10 + d > u64::MAX,
    ensures
        forall|m: int| i < m <= s.len() ==> spec_parse_digits(#[trigger] s.take(m)) is None,
{
    let d = char_digit(s[i]).unwrap();
    assert(s.take(i + 1).drop_last() =~= s.take(i));
    assert(s.take(i + 1).last() == s[i]);
    if i == 0 {
        assert(s.take(1).len() == 1);
        assert(char_digit(s.take(1)[0]) == Some(d as nat));
        assert(d <= 9);
        assert(value * 10 + d <= u64::MAX);
        assert(false);
    } else {
        assert(spec_parse_digits(s.take(i + 1)) is None);
        assert forall|m: int| i < m <= s.len() implies spec_parse_digits(
            #[trigger] s.take(m),
        ) is None by {
            lemma_parse_digits_none_extends(s, i + 1, m);
        }
    }
}

/// Executable counterpart of `char_digit`.
pub fn char_digit_exec(c: char) -> (r: Option<u64>)
    ensures
        match r {
            Some(d) => char_digit(c) == Some(d as nat) && d < 10,
            None => char_digit(c) is None,
        },
{
    match c {
        '0' => Some(0),
        '1' => Some(1),
        '2' => Some(2),
        '3' => Some(3),
        '4' => Some(4),
        '5' => Some(5),
        '6' => Some(6),
        '7' => Some(7),
        '8' => Some(8),
        '9' => Some(9),
        _ => None,
    }
}

} // verus!
