//! Decimal numbers and other small pieces of text.
use vstd::prelude::*;
use vstd::string::*;

verus! {

/// The character of a decimal digit.
pub open spec fn digit(d: nat) -> char {
    (48 + d) as char
}

/// A number in decimal, without leading zeros.
pub open spec fn decimal(n: nat) -> Seq<char>
    decreases n,
{
    if n < 10 {
        seq![digit(n)]
    } else {
        decimal(n / 10).push(digit(n % 10))
    }
}

fn digit_text(d: u64) -> (text: &'static str)
    requires
        d < 10,
    ensures
        text@ == seq![digit(d as nat)],
{
    proof {
        reveal_strlit("0");
        reveal_strlit("1");
        reveal_strlit("2");
        reveal_strlit("3");
        reveal_strlit("4");
        reveal_strlit("5");
        reveal_strlit("6");
        reveal_strlit("7");
        reveal_strlit("8");
        reveal_strlit("9");
    }
    let text: &'static str = if d == 0 {
        "0"
    } else if d == 1 {
        "1"
    } else if d == 2 {
        "2"
    } else if d == 3 {
        "3"
    } else if d == 4 {
        "4"
    } else if d == 5 {
        "5"
    } else if d == 6 {
        "6"
    } else if d == 7 {
        "7"
    } else if d == 8 {
        "8"
    } else {
        "9"
    };
    assert(text@ =~= seq![digit(d as nat)]);
    text
}

/// Writes a number in decimal.
pub fn decimal_text(n: u64) -> (text: String)
    ensures
        text@ == decimal(n as nat),
    decreases n,
{
    if n < 10 {
        digit_text(n).to_owned()
    } else {
        let mut text = decimal_text(n / 10);
        text.append(digit_text(n % 10));
        assert(text@ =~= decimal(n as nat));
        text
    }
}

/// Reads a string as the vector of its characters.
pub fn chars_of(text: &str) -> (chars: Vec<char>)
    ensures
        chars@ == text@,
{
    let len = text.unicode_len();
    let mut chars: Vec<char> = Vec::with_capacity(len);
    let mut i: usize = 0;
    while i < len
        invariant
            len == text@.len(),
            i <= len,
            chars@ == text@.take(i as int),
        decreases len - i,
    {
        chars.push(text.get_char(i));
        i += 1;
        assert(text@.take(i as int) =~= text@.take(i - 1).push(text@[i - 1]));
    }
    assert(text@.take(i as int) =~= text@);
    chars
}

/// Whether `text` begins with `prefix`.
pub fn starts_with(text: &str, prefix: &str) -> (yes: bool)
    ensures
        yes == prefix@.is_prefix_of(text@),
{
    let n = prefix.unicode_len();
    if text.unicode_len() < n {
        return false;
    }
    let mut i: usize = 0;
    while i < n
        invariant
            n == prefix@.len(),
            n <= text@.len(),
            i <= n,
            forall|j: int| 0 <= j < i ==> text@[j] == prefix@[j],
        decreases n - i,
    {
        if text.get_char(i) != prefix.get_char(i) {
            assert(text@.take(n as int)[i as int] != prefix@[i as int]);
            return false;
        }
        i += 1;
    }
    assert(text@.take(n as int) =~= prefix@);
    true
}

/// Whether `part` stands somewhere within `text`.
pub open spec fn contains_seq(text: Seq<char>, part: Seq<char>) -> bool {
    exists|at: int|
        0 <= at && at + part.len() <= text.len() && #[trigger] text.subrange(at, at + part.len())
            == part
}

/// Whether `part` stands somewhere within `text`.
pub fn contains_text(text: &str, part: &str) -> (yes: bool)
    ensures
        yes == contains_seq(text@, part@),
{
    let n = text.unicode_len();
    let m = part.unicode_len();
    if m > n {
        return false;
    }
    let mut at: usize = 0;
    while at <= n - m
        invariant
            n == text@.len(),
            m == part@.len(),
            m <= n,
            at <= n - m + 1,
            forall|k: int| 0 <= k < at ==> #[trigger] text@.subrange(k, k + part@.len()) != part@,
        decreases n - m + 1 - at,
    {
        let mut i: usize = 0;
        while i < m && text.get_char(at + i) == part.get_char(i)
            invariant
                n == text@.len(),
                m == part@.len(),
                m <= n,
                at <= n - m,
                i <= m,
                forall|j: int| 0 <= j < i ==> text@[at + j] == part@[j],
            decreases m - i,
        {
            i += 1;
        }
        if i == m {
            assert(text@.subrange(at as int, at + part@.len()) =~= part@);
            return true;
        }
        assert(text@.subrange(at as int, at + part@.len())[i as int] != part@[i as int]);
        if at == n - m {
            return false;
        }
        at += 1;
    }
    false
}

/// Whether two strings hold the same characters.
pub fn same_text(a: &str, b: &str) -> (same: bool)
    ensures
        same == (a@ == b@),
{
    let n = a.unicode_len();
    if b.unicode_len() != n {
        return false;
    }
    let mut i: usize = 0;
    while i < n
        invariant
            n == a@.len(),
            n == b@.len(),
            i <= n,
            forall|j: int| 0 <= j < i ==> a@[j] == b@[j],
        decreases n - i,
    {
        if a.get_char(i) != b.get_char(i) {
            return false;
        }
        i += 1;
    }
    assert(a@ =~= b@);
    true
}

/// The derivation path of an address below its account key: `m/<chain>/<index>`.
pub open spec fn hd_path(chain: nat, index: nat) -> Seq<char> {
    "m/"@ + decimal(chain) + "/"@ + decimal(index)
}

/// Writes the derivation path `m/<chain>/<index>`.
pub fn hd_path_text(chain: u32, index: u64) -> (path: String)
    ensures
        path@ == hd_path(chain as nat, index as nat),
{
    let mut path = "m/".to_owned();
    path.append(decimal_text(chain as u64).as_str());
    path.append("/");
    path.append(decimal_text(index).as_str());
    path
}

/// A number in decimal, with a minus sign where it is negative.
pub open spec fn signed_decimal(n: int) -> Seq<char> {
    if n < 0 {
        "-"@ + decimal((-n) as nat)
    } else {
        decimal(n as nat)
    }
}

/// Writes the derivation path `m/<chain>/<index>` of a descriptor, whose index may be negative.
pub fn origin_path_text(chain: u32, index: i32) -> (path: String)
    ensures
        path@ == "m/"@ + decimal(chain as nat) + "/"@ + signed_decimal(index as int),
{
    let mut path = "m/".to_owned();
    path.append(decimal_text(chain as u64).as_str());
    path.append("/");
    let ghost before = path@;
    if index < 0 {
        path.append("-");
        path.append(decimal_text((-(index as i64)) as u64).as_str());
        assert(path@ =~= before + signed_decimal(index as int));
    } else {
        path.append(decimal_text(index as u64).as_str());
    }
    path
}

/// The character of a hexadecimal digit.
pub open spec fn hex_digit(d: nat) -> char {
    if d < 10 {
        (48 + d) as char
    } else {
        (87 + d) as char
    }
}

/// Bytes in lower-case hexadecimal.
pub open spec fn hex(bytes: Seq<u8>) -> Seq<char> {
    Seq::new(
        2 * bytes.len(),
        |i: int|
            if i % 2 == 0 {
                hex_digit((bytes[i / 2] / 16) as nat)
            } else {
                hex_digit((bytes[i / 2] % 16) as nat)
            },
    )
}

fn hex_digit_text(d: u8) -> (text: &'static str)
    requires
        d < 16,
    ensures
        text@ == seq![hex_digit(d as nat)],
{
    proof {
        reveal_strlit("a");
        reveal_strlit("b");
        reveal_strlit("c");
        reveal_strlit("d");
        reveal_strlit("e");
        reveal_strlit("f");
    }
    let text: &'static str = if d < 10 {
        digit_text(d as u64)
    } else if d == 10 {
        "a"
    } else if d == 11 {
        "b"
    } else if d == 12 {
        "c"
    } else if d == 13 {
        "d"
    } else if d == 14 {
        "e"
    } else {
        "f"
    };
    assert(text@ =~= seq![hex_digit(d as nat)]);
    text
}

/// Writes bytes in lower-case hexadecimal.
pub fn hex_text(bytes: &Vec<u8>) -> (text: String)
    ensures
        text@ == hex(bytes@),
{
    let mut text = "".to_owned();
    proof {
        reveal_strlit("");
    }
    assert(text@ =~= hex(bytes@.take(0)));
    let mut i: usize = 0;
    while i < bytes.len()
        invariant
            i <= bytes.len(),
            text@ == hex(bytes@.take(i as int)),
        decreases bytes.len() - i,
    {
        let ghost before = text@;
        text.append(hex_digit_text(bytes[i] / 16));
        text.append(hex_digit_text(bytes[i] % 16));
        proof {
            let shorter = bytes@.take(i as int);
            let longer = bytes@.take(i + 1);
            assert(text@ =~= before.push(hex_digit((bytes@[i as int] / 16) as nat)).push(
                hex_digit((bytes@[i as int] % 16) as nat),
            ));
            assert forall|k: int| 0 <= k < 2 * longer.len() implies #[trigger] text@[k] == hex(
                longer,
            )[k] by {
                if k < 2 * i {
                    assert(text@[k] == hex(shorter)[k]);
                    assert(k / 2 < i);
                    assert(shorter[k / 2] == longer[k / 2]);
                }
            }
            assert(text@ =~= hex(longer));
        }
        i += 1;
    }
    assert(bytes@.take(i as int) =~= bytes@);
    text
}

/// The first position from `i` on that holds `c`, or the length where there is none.
pub open spec fn first_from(s: Seq<char>, c: char, i: int) -> int
    decreases s.len() - i,
{
    if i >= s.len() {
        s.len() as int
    } else if s[i] == c {
        i
    } else {
        first_from(s, c, i + 1)
    }
}

/// Finds the first position from `from` on that holds `c`.
pub fn find_char(s: &Vec<char>, c: char, from: usize) -> (at: usize)
    requires
        from <= s.len(),
    ensures
        at == first_from(s@, c, from as int),
        from <= at <= s.len(),
        at < s.len() ==> s@[at as int] == c,
        forall|j: int| from <= j < at ==> s@[j] != c,
{
    let mut i: usize = from;
    while i < s.len() && s[i] != c
        invariant
            from <= i <= s.len(),
            first_from(s@, c, from as int) == first_from(s@, c, i as int),
            forall|j: int| from <= j < i ==> s@[j] != c,
        decreases s.len() - i,
    {
        i += 1;
    }
    i
}

/// Copies a part of a text.
pub fn chars_between(s: &Vec<char>, from: usize, to: usize) -> (part: Vec<char>)
    requires
        from <= to <= s.len(),
    ensures
        part@ == s@.subrange(from as int, to as int),
{
    let mut part: Vec<char> = Vec::new();
    let mut i: usize = from;
    while i < to
        invariant
            from <= i <= to <= s.len(),
            part@ == s@.subrange(from as int, i as int),
        decreases to - i,
    {
        part.push(s[i]);
        i += 1;
        assert(s@.subrange(from as int, i as int) =~= s@.subrange(from as int, i - 1).push(
            s@[i - 1],
        ));
    }
    part
}

/// Whether a character is a decimal digit.
pub open spec fn is_digit(c: char) -> bool {
    '0' <= c && c <= '9'
}

/// The number that decimal digits stand for, if they all are digits.
pub open spec fn digits_value(s: Seq<char>) -> Option<nat>
    decreases s.len(),
{
    if s.len() == 0 {
        Some(0)
    } else {
        match digits_value(s.drop_last()) {
            Some(n) => if is_digit(s.last()) {
                Some((n * 10 + (s.last() as int - 48)) as nat)
            } else {
                None
            },
            None => None,
        }
    }
}

/// The number that a text of decimal digits stands for, if it is one.
pub open spec fn natural(s: Seq<char>) -> Option<nat> {
    if s.len() == 0 {
        None
    } else {
        digits_value(s)
    }
}

/// Reads decimal digits from position `from` on. A number beyond `limit` comes back as
/// `limit + 1`.
fn read_digits(s: &Vec<char>, from: usize, limit: u64) -> (value: Option<u64>)
    requires
        from <= s.len(),
        limit <= 0x1_0000_0000,
    ensures
        match value {
            Some(v) => match natural(s@.skip(from as int)) {
                Some(n) => if n <= limit {
                    v == n
                } else {
                    v == limit + 1
                },
                None => false,
            },
            None => natural(s@.skip(from as int)) is None,
        },
{
    let ghost tail = s@.skip(from as int);
    if from == s.len() {
        return None;
    }
    let mut value: u64 = 0;
    let mut i: usize = from;
    assert(tail.take(0) =~= Seq::<char>::empty());
    while i < s.len()
        invariant
            from <= i <= s.len(),
            limit <= 0x1_0000_0000,
            value <= limit + 1,
            tail == s@.skip(from as int),
            digits_value(tail.take(i - from)) matches Some(n) && (if n <= limit {
                value == n
            } else {
                value == limit + 1
            }),
        decreases s.len() - i,
    {
        let c = s[i];
        proof {
            assert(tail.take(i + 1 - from) =~= tail.take(i - from).push(c));
            assert(tail.take(i + 1 - from).drop_last() =~= tail.take(i - from));
        }
        if c < '0' || c > '9' {
            proof {
                lemma_digits_none(tail, i + 1 - from);
            }
            return None;
        }
        let next: u64 = value * 10 + (c as u64 - 48);
        value = if next > limit {
            limit + 1
        } else {
            next
        };
        i += 1;
    }
    assert(tail.take(i - from) =~= tail);
    Some(value)
}

proof fn lemma_digits_none(s: Seq<char>, n: int)
    requires
        0 <= n <= s.len(),
        digits_value(s.take(n)) is None,
    ensures
        digits_value(s) is None,
    decreases s.len() - n,
{
    if n < s.len() {
        assert(s.take(n + 1).drop_last() =~= s.take(n));
        lemma_digits_none(s, n + 1);
    } else {
        assert(s.take(n) =~= s);
    }
}

/// The number that a text stands for as a `u32`: decimal digits, after an optional plus sign, of
/// a number that fits.
pub open spec fn parsed_u32(s: Seq<char>) -> Option<u32> {
    let digits = if s.len() > 0 && s[0] == '+' {
        s.skip(1)
    } else {
        s
    };
    match natural(digits) {
        Some(n) => if n <= u32::MAX {
            Some(n as u32)
        } else {
            None
        },
        None => None,
    }
}

/// Reads a text as a `u32`.
pub fn parse_u32(s: &Vec<char>) -> (value: Option<u32>)
    ensures
        value == parsed_u32(s@),
{
    let from: usize = if s.len() > 0 && s[0] == '+' {
        1
    } else {
        0
    };
    assert(s@.skip(0) =~= s@);
    match read_digits(s, from, 0xffff_ffff) {
        Some(v) => if v <= 0xffff_ffff {
            Some(v as u32)
        } else {
            None
        },
        None => None,
    }
}

/// The number that a text stands for as an `i32`: decimal digits, after an optional sign, of a
/// number that fits.
pub open spec fn parsed_i32(s: Seq<char>) -> Option<i32> {
    let negative = s.len() > 0 && s[0] == '-';
    let digits = if s.len() > 0 && (s[0] == '+' || s[0] == '-') {
        s.skip(1)
    } else {
        s
    };
    match natural(digits) {
        Some(n) => if negative && n <= 0x8000_0000 {
            Some((-n) as i32)
        } else if !negative && n <= 0x7fff_ffff {
            Some(n as i32)
        } else {
            None
        },
        None => None,
    }
}

/// Reads a text as an `i32`.
pub fn parse_i32(s: &Vec<char>) -> (value: Option<i32>)
    ensures
        value == parsed_i32(s@),
{
    let negative = s.len() > 0 && s[0] == '-';
    let from: usize = if s.len() > 0 && (s[0] == '+' || s[0] == '-') {
        1
    } else {
        0
    };
    assert(s@.skip(0) =~= s@);
    match read_digits(s, from, 0x8000_0000) {
        Some(v) => if negative && v <= 0x8000_0000 {
            Some((-(v as i64)) as i32)
        } else if !negative && v <= 0x7fff_ffff {
            Some(v as i32)
        } else {
            None
        },
        None => None,
    }
}

/// Whether a character is white space by the Unicode rules.
pub open spec fn is_white_space(c: char) -> bool {
    let n = c as u32;
    ||| 0x9 <= n <= 0xd
    ||| n == 0x20
    ||| n == 0x85
    ||| n == 0xa0
    ||| n == 0x1680
    ||| 0x2000 <= n <= 0x200a
    ||| 0x2028 <= n <= 0x2029
    ||| n == 0x202f
    ||| n == 0x205f
    ||| n == 0x3000
}

fn white_space(c: char) -> (yes: bool)
    ensures
        yes == is_white_space(c),
{
    let n = c as u32;
    (0x9 <= n && n <= 0xd) || n == 0x20 || n == 0x85 || n == 0xa0 || n == 0x1680 || (0x2000 <= n && n
        <= 0x200a) || (0x2028 <= n && n <= 0x2029) || n == 0x202f || n == 0x205f || n == 0x3000
}

/// A text without the white space at its start.
pub open spec fn trimmed_start_of(text: Seq<char>) -> Seq<char>
    decreases text.len(),
{
    if text.len() > 0 && is_white_space(text.first()) {
        trimmed_start_of(text.drop_first())
    } else {
        text
    }
}

/// A text without the white space at its end.
pub open spec fn trimmed_end_of(text: Seq<char>) -> Seq<char>
    decreases text.len(),
{
    if text.len() > 0 && is_white_space(text.last()) {
        trimmed_end_of(text.drop_last())
    } else {
        text
    }
}

/// A text without the white space at its ends.
pub open spec fn trimmed_of(text: Seq<char>) -> Seq<char> {
    trimmed_end_of(trimmed_start_of(text))
}

fn trimmed_from(chars: &Vec<char>, from: usize) -> (text: String)
    requires
        from <= chars.len(),
    ensures
        text@ == trimmed_end_of(chars@.skip(from as int)),
{
    let mut end: usize = chars.len();
    assert(chars@.subrange(from as int, end as int) =~= chars@.skip(from as int));
    while end > from && white_space(chars[end - 1])
        invariant
            from <= end <= chars.len(),
            trimmed_end_of(chars@.subrange(from as int, end as int)) == trimmed_end_of(
                chars@.skip(from as int),
            ),
        decreases end,
    {
        proof {
            let part = chars@.subrange(from as int, end as int);
            assert(part.last() == chars@[end - 1]);
            assert(part.drop_last() =~= chars@.subrange(from as int, end - 1));
        }
        end -= 1;
    }
    proof {
        let part = chars@.subrange(from as int, end as int);
        if end > from {
            assert(part.last() == chars@[end - 1]);
        }
    }
    text_of(&chars_between(chars, from, end))
}

/// Takes the white space at the end of a text off.
pub fn trimmed_end(text: &str) -> (trimmed: String)
    ensures
        trimmed@ == trimmed_end_of(text@),
{
    let chars = chars_of(text);
    assert(chars@.skip(0) =~= chars@);
    trimmed_from(&chars, 0)
}

/// Takes the white space at both ends of a text off.
pub fn trimmed(text: &str) -> (trimmed: String)
    ensures
        trimmed@ == trimmed_of(text@),
{
    let chars = chars_of(text);
    let mut from: usize = 0;
    assert(chars@.skip(0) =~= chars@);
    while from < chars.len() && white_space(chars[from])
        invariant
            chars@ == text@,
            from <= chars.len(),
            trimmed_start_of(chars@.skip(from as int)) == trimmed_start_of(text@),
        decreases chars.len() - from,
    {
        proof {
            let part = chars@.skip(from as int);
            assert(part.first() == chars@[from as int]);
            assert(part.drop_first() =~= chars@.skip(from + 1));
        }
        from += 1;
    }
    proof {
        let part = chars@.skip(from as int);
        if from < chars.len() {
            assert(part.first() == chars@[from as int]);
        }
    }
    trimmed_from(&chars, from)
}

/// Calls `String::from_iter` over characters. Claimed: the string holds exactly these characters.
#[verifier::external_body]
pub(crate) fn text_of(chars: &Vec<char>) -> (text: String)
    ensures
        text@ == chars@,
{
    String::from_iter(chars.iter())
}

/// A digit behind a number in decimal makes ten times the number and the digit.
pub proof fn law_digits_stand_for_tens(n: nat, d: nat)
    requires
        d < 10,
    ensures
        decimal(d) == seq![(48 + d) as char],
        n > 0 ==> decimal(10 * n + d) == decimal(n).push((48 + d) as char),
        digits_value(decimal(n)) == Some(n),
        natural(decimal(n).push((48 + d) as char)) == Some(10 * n + d),
{
    lemma_decimal_reads(n);
    assert((10 * n + d) / 10 == n && (10 * n + d) % 10 == d);
    assert(decimal(n).push((48 + d) as char).drop_last() =~= decimal(n));
}

proof fn lemma_decimal_reads(n: nat)
    ensures
        digits_value(decimal(n)) == Some(n),
        decimal(n).len() > 0,
        forall|i: int| 0 <= i < decimal(n).len() ==> is_digit(#[trigger] decimal(n)[i]),
    decreases n,
{
    if n < 10 {
        assert(decimal(n).drop_last() =~= Seq::<char>::empty());
        assert(digits_value(Seq::<char>::empty()) == Some(0nat));
    } else {
        lemma_decimal_reads(n / 10);
        assert(decimal(n).drop_last() =~= decimal(n / 10));
    }
}

/// A number that is written is read as itself, where it fits, whatever sign stands before it.
pub proof fn law_written_numbers_are_read(n: int)
    ensures
        0 <= n <= 0xffff_ffff ==> parsed_u32(decimal(n as nat)) == Some(n as u32) && parsed_u32(
            seq!['+'] + decimal(n as nat),
        ) == Some(n as u32),
        n > 0xffff_ffff ==> parsed_u32(decimal(n as nat)) is None,
        -0x8000_0000 <= n <= 0x7fff_ffff ==> parsed_i32(signed_decimal(n)) == Some(n as i32),
        n < -0x8000_0000 || n > 0x7fff_ffff ==> parsed_i32(signed_decimal(n)) is None,
{
    reveal_strlit("-");
    let m = if n < 0 {
        (-n) as nat
    } else {
        n as nat
    };
    let text = decimal(m);
    lemma_decimal_reads(m);
    assert(is_digit(text[0]));
    assert((seq!['+'] + text).skip(1) =~= text);
    if n < 0 {
        let signed = signed_decimal(n);
        assert(signed[0] == '-');
        assert(signed.skip(1) =~= text);
    }
}

/// A text with a character that is neither a digit nor a leading sign stands for no number, and neither does
/// an empty one.
pub proof fn law_other_texts_are_no_numbers(s: Seq<char>, i: int)
    ensures
        parsed_u32(Seq::<char>::empty()) is None,
        parsed_i32(Seq::<char>::empty()) is None,
        0 <= i < s.len() && !('0' <= s[i] && s[i] <= '9') && s[i] != '+' && s[i] != '-'
            ==> parsed_u32(s) is None && parsed_i32(s) is None,
        0 < i < s.len() && !('0' <= s[i] && s[i] <= '9') ==> parsed_u32(s) is None && parsed_i32(s)
            is None,
        s.len() > 0 && s[0] == '-' ==> parsed_u32(s) is None,
{
    if 0 <= i < s.len() && !('0' <= s[i] && s[i] <= '9') {
        lemma_no_digit(s, i);
        if i > 0 {
            assert(s.skip(1)[i - 1] == s[i]);
            lemma_no_digit(s.skip(1), i - 1);
        }
    }
    if s.len() > 0 && s[0] == '-' {
        lemma_no_digit(s, 0);
    }
}

proof fn lemma_no_digit(s: Seq<char>, i: int)
    requires
        0 <= i < s.len(),
        !is_digit(s[i]),
    ensures
        digits_value(s) is None,
    decreases s.len(),
{
    if i < s.len() - 1 {
        assert(s.drop_last()[i] == s[i]);
        lemma_no_digit(s.drop_last(), i);
    }
}

/// The path of an address starts at its account key, and names the chain and the index in decimal.
pub proof fn law_path_names_chain_and_index(chain: nat, index: nat)
    ensures
        hd_path(chain, index) == seq!['m', '/'] + decimal(chain) + seq!['/'] + decimal(index),
{
    reveal_strlit("m/");
    reveal_strlit("/");
    assert("m/"@ =~= seq!['m', '/']);
    assert("/"@ =~= seq!['/']);
}

/// The value of a hexadecimal digit.
pub open spec fn hex_value(c: char) -> int {
    if '0' <= c && c <= '9' {
        c as int - '0' as int
    } else {
        c as int - 'a' as int + 10
    }
}

/// Bytes in hexadecimal have two digits each, the high one first, and digits are lower-case.
pub proof fn law_hex_gives_the_bytes(bytes: Seq<u8>, i: int)
    requires
        0 <= i < bytes.len(),
    ensures
        hex(bytes).len() == 2 * bytes.len(),
        bytes[i] == 16 * hex_value(hex(bytes)[2 * i]) + hex_value(hex(bytes)[2 * i + 1]),
        forall|j: int|
            0 <= j < 2 * bytes.len() ==> ('0' <= #[trigger] hex(bytes)[j] && hex(bytes)[j] <= '9')
                || ('a' <= hex(bytes)[j] && hex(bytes)[j] <= 'f'),
{
    assert((2 * i) / 2 == i && (2 * i) % 2 == 0 && (2 * i + 1) / 2 == i && (2 * i + 1) % 2 == 1);
    let b = bytes[i];
    assert(b == 16 * (b / 16) + b % 16 && b / 16 < 16 && b % 16 < 16);
    assert forall|j: int| 0 <= j < 2 * bytes.len() implies ('0' <= #[trigger] hex(bytes)[j] && hex(
        bytes,
    )[j] <= '9') || ('a' <= hex(bytes)[j] && hex(bytes)[j] <= 'f') by {
        let c = bytes[j / 2];
        assert(c / 16 < 16 && c % 16 < 16);
    }
}

/// The first place of a character is one where it stands, with none before it; where it stands nowhere, it is
/// the end of the text.
pub proof fn law_first_place_is_the_first(s: Seq<char>, c: char, from: int)
    requires
        0 <= from <= s.len(),
    ensures
        from <= first_from(s, c, from) <= s.len(),
        first_from(s, c, from) < s.len() ==> s[first_from(s, c, from)] == c,
        forall|j: int| from <= j < first_from(s, c, from) ==> #[trigger] s[j] != c,
    decreases s.len() - from,
{
    if from < s.len() && s[from] != c {
        law_first_place_is_the_first(s, c, from + 1);
    }
}

/// Trimming takes white space from the ends of a text and nothing else, and leaves none there.
pub proof fn law_trimming_takes_white_space(text: Seq<char>)
    ensures
        exists|a: int, b: int|
            0 <= a <= b <= text.len() && trimmed_of(text) == #[trigger] text.subrange(a, b) && (forall|
                j: int,
            |
                0 <= j < text.len() && (j < a || b <= j) ==> is_white_space(#[trigger] text[j])),
        trimmed_of(text).len() > 0 ==> !is_white_space(trimmed_of(text).first())
            && !is_white_space(trimmed_of(text).last()),
        is_white_space(' '),
        is_white_space('\n'),
        is_white_space('\t'),
        is_white_space('\r'),
        forall|c: char| '!' <= c && c <= '~' ==> !#[trigger] is_white_space(c),
{
    let a = lemma_trimmed_start(text);
    let rest = text.skip(a);
    let n = lemma_trimmed_end(rest);
    assert(rest.take(n) =~= text.subrange(a, a + n));
    assert forall|j: int| 0 <= j < text.len() && (j < a || a + n <= j) implies is_white_space(
        #[trigger] text[j],
    ) by {
        if j >= a {
            assert(rest[j - a] == text[j]);
        }
    }
    if n > 0 {
        assert(rest.take(n).first() == rest[0]);
        assert(rest[0] == rest.first());
    }
}

proof fn lemma_trimmed_start(text: Seq<char>) -> (a: int)
    ensures
        0 <= a <= text.len(),
        trimmed_start_of(text) == text.skip(a),
        forall|j: int| 0 <= j < a ==> is_white_space(#[trigger] text[j]),
        a < text.len() ==> !is_white_space(text[a]),
    decreases text.len(),
{
    if text.len() > 0 && is_white_space(text.first()) {
        let b = lemma_trimmed_start(text.drop_first());
        assert(text.drop_first().skip(b) =~= text.skip(b + 1));
        assert forall|j: int| 0 <= j < b + 1 implies is_white_space(#[trigger] text[j]) by {
            if j > 0 {
                assert(text.drop_first()[j - 1] == text[j]);
            }
        }
        if b + 1 < text.len() {
            assert(text.drop_first()[b] == text[b + 1]);
        }
        b + 1
    } else {
        assert(text.skip(0) =~= text);
        0
    }
}

proof fn lemma_trimmed_end(text: Seq<char>) -> (n: int)
    ensures
        0 <= n <= text.len(),
        trimmed_end_of(text) == text.take(n),
        forall|j: int| n <= j < text.len() ==> is_white_space(#[trigger] text[j]),
        n > 0 ==> !is_white_space(text[n - 1]),
    decreases text.len(),
{
    if text.len() > 0 && is_white_space(text.last()) {
        let m = lemma_trimmed_end(text.drop_last());
        assert(text.drop_last().take(m) =~= text.take(m));
        assert forall|j: int| m <= j < text.len() implies is_white_space(#[trigger] text[j]) by {
            if j < text.len() - 1 {
                assert(text.drop_last()[j] == text[j]);
            }
        }
        m
    } else {
        assert(text.take(text.len() as int) =~= text);
        text.len() as int
    }
}

/// A text contains what stands between any two parts of it, and what is longer than the text it does not.
pub proof fn law_text_contains_its_parts(before: Seq<char>, part: Seq<char>, after: Seq<char>)
    ensures
        contains_seq(before + part + after, part),
        contains_seq(part, part),
        part.len() > 0 ==> !contains_seq(Seq::empty(), part),
        part.len() > before.len() ==> !contains_seq(before, part),
        part.len() == before.len() && part != before ==> !contains_seq(before, part),
{
    let whole = before + part + after;
    let at = before.len() as int;
    assert(whole.subrange(at, at + part.len()) =~= part);
    assert(part.subrange(0, 0int + part.len()) =~= part);
    if part.len() == before.len() && contains_seq(before, part) {
        let at = choose|at: int|
            0 <= at && at + part.len() <= before.len() && #[trigger] before.subrange(
                at,
                at + part.len(),
            ) == part;
        assert(before.subrange(at, at + part.len()) =~= before);
    }
}

} // verus!
