//! Decimal numbers and message text.

use vstd::prelude::*;

verus! {

/// The character of a decimal digit.
pub open spec fn digit_char(d: nat) -> char {
    (48 + d) as char
}

/// The decimal notation of `n`, without leading zeros.
pub open spec fn decimal(n: nat) -> Seq<char>
    decreases n,
{
    if n < 10 {
        seq![digit_char(n)]
    } else {
        decimal(n / 10).push(digit_char(n % 10))
    }
}

/// Whether `c` is one of the ten decimal digits.
pub open spec fn is_digit(c: char) -> bool {
    '0' <= c && c <= '9'
}

/// The number that a string of decimal digits stands for.
pub open spec fn digits_value(s: Seq<char>) -> nat
    decreases s.len(),
{
    if s.len() == 0 {
        0
    } else {
        digits_value(s.drop_last()) * 10 + (s.last() as nat - 48) as nat
    }
}

/// What follows an optional leading plus sign.
pub open spec fn unsigned_part(s: Seq<char>) -> Seq<char> {
    if s.len() > 0 && s[0] == '+' {
        s.skip(1)
    } else {
        s
    }
}

/// Whether `s` holds decimal digits only, and at least one.
pub open spec fn all_digits(s: Seq<char>) -> bool {
    s.len() > 0 && forall|i: int| 0 <= i < s.len() ==> is_digit(#[trigger] s[i])
}

/// The number that `s` denotes: an optional plus sign, then digits only, with a value that fits.
pub open spec fn parsed_u64(s: Seq<char>) -> Option<u64> {
    let body = unsigned_part(s);
    if all_digits(body) && digits_value(body) <= u64::MAX {
        Some(digits_value(body) as u64)
    } else {
        None
    }
}

fn digit_str(d: u64) -> (s: &'static str)
    requires
        d < 10,
    ensures
        s@ == seq![digit_char(d as nat)],
{
    proof {
        reveal_strlit("0");
        reveal_strlit("1");
        reveal_strlit("2");
        reveal_strlit("3");
        reveal_strlit("4");
        reveal_strlit("5");
        reveal_strlit("6");
        reveal_strlit("7");
        reveal_strlit("8");
        reveal_strlit("9");
    }
    match d {
        0 => "0",
        1 => "1",
        2 => "2",
        3 => "3",
        4 => "4",
        5 => "5",
        6 => "6",
        7 => "7",
        8 => "8",
        _ => "9",
    }
}

/// Writes `n` in decimal notation.
pub fn decimal_string(n: u64) -> (s: String)
    ensures
        s@ == decimal(n as nat),
    decreases n,
{
    if n < 10 {
        digit_str(n).to_owned()
    } else {
        let mut s = decimal_string(n / 10);
        s.append(digit_str(n % 10));
        s
    }
}

/// Joins two pieces of text.
pub fn joined(first: &str, second: &str) -> (s: String)
    ensures
        s@ == first@ + second@,
{
    let mut s = first.to_owned();
    s.append(second);
    s
}

/// Reads an unsigned decimal number, with an optional leading plus sign.
pub fn parse_u64(s: &str) -> (n: Option<u64>)
    ensures
        n == parsed_u64(s@),
{
    let len: usize = s.unicode_len();
    let start: usize = if len > 0 && s.get_char(0) == '+' { 1 } else { 0 };
    let ghost body = unsigned_part(s@);
    assert(body =~= s@.skip(start as int));
    if start == len {
        return None;
    }
    let mut value: u64 = 0;
    let mut fits: bool = true;
    let mut i: usize = start;
    while i < len
        invariant
            start <= i <= len,
            len == s@.len(),
            body == s@.skip(start as int),
            body == unsigned_part(s@),
            forall|j: int| 0 <= j < i - start ==> is_digit(#[trigger] body[j]),
            fits ==> value == digits_value(body.take(i - start)),
            !fits ==> digits_value(body.take(i - start)) > u64::MAX,
        decreases len - i,
    {
        let c = s.get_char(i);
        assert(c == body[i - start]);
        if c < '0' || c > '9' {
            assert(!is_digit(body[i - start]));
            return None;
        }
        let digit: u64 = (c as u64) - 48;
        let ghost before = body.take(i - start);
        let ghost after = body.take(i + 1 - start);
        assert(after.drop_last() =~= before);
        assert(after.last() == c);
        if fits {
            if value > (u64::MAX - digit) / 10 {
                fits = false;
            } else {
                value = value * 10 + digit;
            }
        }
        i = i + 1;
    }
    assert(body.take(len - start) =~= body);
    if fits {
        Some(value)
    } else {
        None
    }
}

/// The decimal notation of a number holds digits only, whose value is the number.
pub proof fn lemma_decimal_digits(n: nat)
    ensures
        all_digits(decimal(n)),
        digits_value(decimal(n)) == n,
        decimal(n)[0] != '+',
    decreases n,
{
    if n < 10 {
        let s = decimal(n);
        assert(s.drop_last() =~= Seq::<char>::empty());
        assert(s.last() == digit_char(n));
        assert(digits_value(s.drop_last()) == 0);
    } else {
        lemma_decimal_digits(n / 10);
        let s = decimal(n);
        assert(s.drop_last() =~= decimal(n / 10));
        assert(s.last() == digit_char(n % 10));
        assert forall|i: int| 0 <= i < s.len() implies is_digit(#[trigger] s[i]) by {
            if i < s.len() - 1 {
                assert(s[i] == decimal(n / 10)[i]);
            }
        }
    }
}

/// Reading back the decimal notation of a number gives the number.
pub proof fn law_decimal_reads_back(n: u64)
    ensures
        parsed_u64(decimal(n as nat)) == Some(n),
{
    lemma_decimal_digits(n as nat);
}

/// The text of a list of pairs of string slices.
pub open spec fn slice_views(pairs: Seq<(&str, &str)>) -> Seq<(Seq<char>, Seq<char>)> {
    pairs.map_values(|pair: (&str, &str)| (pair.0@, pair.1@))
}

/// The number of characters before the first `c`, or of all characters where there is none.
pub open spec fn before_char(s: Seq<char>, c: char) -> nat
    decreases s.len(),
{
    if s.len() == 0 || s[0] == c {
        0
    } else {
        1 + before_char(s.skip(1), c)
    }
}

/// What `before_char` gives is the place of the first `c`, or the end.
pub proof fn lemma_before_char(s: Seq<char>, c: char, n: nat)
    requires
        n <= s.len(),
        forall|i: int| 0 <= i < n ==> s[i] != c,
        n == s.len() || s[n as int] == c,
    ensures
        before_char(s, c) == n,
    decreases n,
{
    if n > 0 {
        let rest = s.skip(1);
        assert forall|i: int| 0 <= i < n - 1 implies rest[i] != c by {
            assert(s[i + 1] != c);
        }
        lemma_before_char(rest, c, (n - 1) as nat);
    }
}

/// Counts the characters before the first `c`.
pub fn count_before(text: &str, c: char) -> (n: usize)
    ensures
        n == before_char(text@, c),
        n <= text@.len(),
        n < text@.len() <==> text@.contains(c),
{
    let mut n: usize = 0;
    let len: usize = text.unicode_len();
    for x in iter: text.chars()
        invariant
            n == iter.index(),
            iter.seq() == text@,
            len == text@.len(),
            forall|i: int| 0 <= i < n ==> text@[i] != c,
    {
        if x == c {
            proof {
                assert(text@[n as int] == c);
                lemma_before_char(text@, c, n as nat);
            }
            return n;
        }
        n = n + 1;
    }
    proof {
        lemma_before_char(text@, c, n as nat);
    }
    n
}

/// The decimal notation of a number below ten is its digit, and that of another number is the
/// notation of its tens followed by the digit of its ones.
pub proof fn law_decimal_notation(tens: nat, ones: nat)
    requires
        ones < 10,
    ensures
        tens == 0 ==> decimal(ones) == seq!["0123456789"@[ones as int]],
        tens > 0 ==> decimal(10 * tens + ones) == decimal(tens).push("0123456789"@[ones as int]),
{
    reveal_strlit("0123456789");
    let n = 10 * tens + ones;
    assert(n / 10 == tens && n % 10 == ones);
}

/// A digit behind a number multiplies it by ten and adds the digit; a number that does not fit is
/// none.
pub proof fn law_digits_are_read_one_by_one(s: Seq<char>, n: u64, d: nat)
    requires
        s.len() > 0,
        parsed_u64(s) == Some(n),
        d < 10,
    ensures
        parsed_u64(s.push("0123456789"@[d as int])) == if 10 * n + d <= u64::MAX {
            Some((10 * n + d) as u64)
        } else {
            None
        },
{
    reveal_strlit("0123456789");
    let c = "0123456789"@[d as int];
    let body = unsigned_part(s);
    let longer = s.push(c);
    assert(unsigned_part(longer) =~= body.push(c));
    assert(body.push(c).drop_last() =~= body);
    assert forall|i: int| 0 <= i < body.push(c).len() implies is_digit(
        #[trigger] body.push(c)[i],
    ) by {
        if i < body.len() {
            assert(body.push(c)[i] == body[i]);
        }
    }
}

/// A single digit is its number, with or without a plus sign before it.
pub proof fn law_single_digits_are_read(d: nat)
    requires
        d < 10,
    ensures
        parsed_u64(seq!["0123456789"@[d as int]]) == Some(d as u64),
        parsed_u64(seq!['+', "0123456789"@[d as int]]) == Some(d as u64),
{
    reveal_strlit("0123456789");
    let c = "0123456789"@[d as int];
    let s = seq![c];
    let signed = seq!['+', c];
    assert(signed.skip(1) =~= s);
    assert(s.drop_last() =~= Seq::<char>::empty());
    assert(digits_value(s.drop_last()) == 0);
    assert(digits_value(s) == d);
}

/// A text is read as a number only if it holds nothing but digits behind an optional plus sign, and
/// at least one of them.
pub proof fn law_only_digits_are_read(s: Seq<char>, i: int)
    requires
        parsed_u64(s) is Some,
        0 <= i < s.len(),
    ensures
        "0123456789"@.contains(s[i]) || i == 0 && s[0] == '+' && s.len() > 1,
{
    reveal_strlit("0123456789");
    let body = unsigned_part(s);
    if s[0] == '+' {
        if i > 0 {
            assert(body[i - 1] == s[i]);
        }
    } else {
        assert(body[i] == s[i]);
    }
    if is_digit(s[i]) {
        assert("0123456789"@[s[i] as int - 48] == s[i]);
    }
}

/// The empty text and a lone plus sign are no numbers.
pub proof fn law_no_digits_are_no_number()
    ensures
        parsed_u64(Seq::empty()) is None,
        parsed_u64(seq!['+']) is None,
{
    assert(seq!['+'].skip(1) =~= Seq::<char>::empty());
}

/// `before_char` counts the characters before the first `c`, all of them where there is none.
pub proof fn law_first_place_of_a_char(s: Seq<char>, c: char)
    ensures
        before_char(s, c) <= s.len(),
        forall|i: int| 0 <= i < before_char(s, c) ==> s[i] != c,
        before_char(s, c) < s.len() ==> s[before_char(s, c) as int] == c,
    decreases s.len(),
{
    if s.len() > 0 && s[0] != c {
        let rest = s.skip(1);
        law_first_place_of_a_char(rest, c);
        assert forall|i: int| 0 <= i < before_char(s, c) implies s[i] != c by {
            if i > 0 {
                assert(rest[i - 1] == s[i]);
            }
        }
    }
}

/// The text of a list of pairs holds the text of each pair in its place.
pub proof fn law_pairs_keep_their_places(pairs: Seq<(&str, &str)>, i: int)
    requires
        0 <= i < pairs.len(),
    ensures
        slice_views(pairs).len() == pairs.len(),
        slice_views(pairs)[i].0 == pairs[i].0@,
        slice_views(pairs)[i].1 == pairs[i].1@,
{
}

/// A text of digits, with or without a plus sign before them, that is too large a number stays one
/// with a digit more.
pub proof fn law_numbers_stay_too_large(s: Seq<char>, d: nat)
    requires
        s.len() > 1,
        '0' <= s[0] <= '9' || s[0] == '+',
        forall|i: int| 1 <= i < s.len() ==> '0' <= #[trigger] s[i] <= '9',
        parsed_u64(s) is None,
        d < 10,
    ensures
        parsed_u64(s.push("0123456789"@[d as int])) is None,
{
    reveal_strlit("0123456789");
    let c = "0123456789"@[d as int];
    let body = unsigned_part(s);
    assert(unsigned_part(s.push(c)) =~= body.push(c));
    assert(body.push(c).drop_last() =~= body);
    assert forall|i: int| 0 <= i < body.len() implies is_digit(#[trigger] body[i]) by {
        if s[0] == '+' {
            assert(body[i] == s[i + 1]);
        } else {
            assert(body[i] == s[i]);
        }
    }
    assert(digits_value(body.push(c)) >= digits_value(body));
}

/// A number that is written in decimal notation is read back, and numbers are written digit by
/// digit, the tens before the ones.
pub proof fn law_written_numbers_are_read_back(
    n: u64,
    written: String,
    text: &str,
    read: Option<u64>,
    tens: String,
)
    requires
        call_ensures(decimal_string, (n,), written),
        call_ensures(decimal_string, ((n / 10) as u64,), tens),
        call_ensures(parse_u64, (text,), read),
        text@ == written@,
    ensures
        read == Some(n),
        n < 10 ==> written@ == seq!["0123456789"@[n as int]],
        n >= 10 ==> written@ == tens@.push("0123456789"@[(n % 10) as int]),
{
    law_decimal_reads_back(n);
    law_decimal_notation((n / 10) as nat, (n % 10) as nat);
}

/// Joined text is the first piece and then the second.
pub proof fn law_joined_text_is_both_pieces(first: &str, second: &str, s: String)
    requires
        call_ensures(joined, (first, second), s),
    ensures
        s@.len() == first@.len() + second@.len(),
        s@.take(first@.len() as int) == first@,
        s@.skip(first@.len() as int) == second@,
{
    assert(s@.take(first@.len() as int) =~= first@);
    assert(s@.skip(first@.len() as int) =~= second@);
}

/// As many characters are counted as stand before the first `c`.
pub proof fn law_characters_before_the_first_are_counted(text: &str, c: char, n: usize)
    requires
        call_ensures(count_before, (text, c), n),
    ensures
        n <= text@.len(),
        forall|i: int| 0 <= i < n ==> text@[i] != c,
        n < text@.len() ==> text@[n as int] == c,
{
    law_first_place_of_a_char(text@, c);
}

} // verus!
