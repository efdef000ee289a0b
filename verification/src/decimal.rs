use vstd::prelude::*;
use crate::text::chars_of;

verus! {

/// Why a text is not a `u64` (as `core::num::IntErrorKind`).
pub enum ParseIntError {
    Empty,
    InvalidDigit,
    PosOverflow,
}

/// The message of a parse error, as `ParseIntError`'s `Display` writes it.
pub open spec fn int_error_text(e: ParseIntError) -> Seq<char> {
    match e {
        ParseIntError::Empty => "cannot parse integer from empty string"@,
        ParseIntError::InvalidDigit => "invalid digit found in string"@,
        ParseIntError::PosOverflow => "number too large to fit in target type"@,
    }
}

impl ParseIntError {
    /// The error's message, as `ParseIntError`'s `Display` writes it.
    pub fn message(&self) -> (r: String)
        ensures
            r@ == int_error_text(*self),
    {
        match self {
            ParseIntError::Empty => "cannot parse integer from empty string".to_string(),
            ParseIntError::InvalidDigit => "invalid digit found in string".to_string(),
            ParseIntError::PosOverflow => "number too large to fit in target type".to_string(),
        }
    }
}

pub open spec fn is_digit(c: char) -> bool {
    '0' <= c && c <= '9'
}

pub open spec fn digit_value(c: char) -> int {
    (c as int) - ('0' as int)
}

/// Reading decimal digits left to right onto `acc`, as `u64::from_str`
/// does: the first non-digit, or the first step past `u64::MAX`, stops it.
pub open spec fn scan_digits(d: Seq<char>, acc: int) -> Result<int, ParseIntError>
    decreases d.len(),
{
    if d.len() == 0 {
        Ok(acc)
    } else if !is_digit(d[0]) {
        Err(ParseIntError::InvalidDigit)
    } else if acc * 10 + digit_value(d[0]) > u64::MAX {
        Err(ParseIntError::PosOverflow)
    } else {
        scan_digits(d.drop_first(), acc * 10 + digit_value(d[0]))
    }
}

/// What `s.parse::<u64>()` gives: an optional `+`, then one or more digits.
pub open spec fn parse_u64_spec(s: Seq<char>) -> Result<int, ParseIntError> {
    if s.len() == 0 {
        Err(ParseIntError::Empty)
    } else if (s[0] == '+' || s[0] == '-') && s.len() == 1 {
        Err(ParseIntError::InvalidDigit)
    } else if s[0] == '+' {
        scan_digits(s.drop_first(), 0)
    } else {
        scan_digits(s, 0)
    }
}

pub open spec fn digit_char(d: int) -> char {
    ((48 + d) as u32) as char
}

/// The decimal digits of `n`, without sign or leading zeros (as
/// `n.to_string()`).
pub open spec fn decimal_text(n: nat) -> Seq<char>
    decreases n,
{
    if n < 10 {
        seq![digit_char(n as int)]
    } else {
        decimal_text(n / 10).push(digit_char((n % 10) as int))
    }
}

/// Reads a `u64` as `str::parse::<u64>` does.
pub fn parse_u64(s: &str) -> (r: Result<u64, ParseIntError>)
    ensures
        match r {
            Ok(n) => parse_u64_spec(s@) == Ok::<int, ParseIntError>(n as int),
            Err(e) => parse_u64_spec(s@) == Err::<int, ParseIntError>(e),
        },
{
    let v = chars_of(s);
    if v.len() == 0 {
        return Err(ParseIntError::Empty);
    }
    if (v[0] == '+' || v[0] == '-') && v.len() == 1 {
        return Err(ParseIntError::InvalidDigit);
    }
    let start: usize = if v[0] == '+' { 1 } else { 0 };
    let ghost digits = v@.skip(start as int);
    proof {
        if start == 1 {
            assert(digits =~= s@.drop_first());
        } else {
            assert(digits =~= s@);
        }
        assert(parse_u64_spec(s@) == scan_digits(digits, 0));
    }
    let mut acc: u64 = 0;
    let mut i: usize = start;
    while i < v.len()
        invariant
            start <= i <= v.len(),
            v@ == s@,
            start == 1 ==> v@.len() > 1 && v@[0] == '+',
            start == 0 ==> v@.len() > 0 && v@[0] != '+' && !((v@[0] == '+' || v@[0] == '-') && v@.len() == 1),
            digits == v@.skip(start as int),
            parse_u64_spec(s@) == scan_digits(digits, 0),
            scan_digits(digits, 0) == scan_digits(v@.skip(i as int), acc as int),
        decreases v.len() - i,
    {
        let c = v[i];
        proof {
            assert(v@.skip(i as int).drop_first() =~= v@.skip(i + 1));
        }
        assert(v@.skip(i as int)[0] == c);
        if !('0' <= c && c <= '9') {
            return Err(ParseIntError::InvalidDigit);
        }
        let d: u64 = ((c as u32) - ('0' as u32)) as u64;
        let next = match acc.checked_mul(10) {
            Some(m) => m.checked_add(d),
            None => None,
        };
        match next {
            Some(n) => {
                acc = n;
            },
            None => {
                return Err(ParseIntError::PosOverflow);
            },
        }
        i = i + 1;
    }
    proof {
        assert(v@.skip(i as int).len() == 0);
    }
    Ok(acc)
}

/// The decimal value of digits read left to right onto `acc`, without
/// any bound.
spec fn left_value(d: Seq<char>, acc: int) -> int
    decreases d.len(),
{
    if d.len() == 0 {
        acc
    } else {
        left_value(d.drop_first(), acc * 10 + digit_value(d[0]))
    }
}

proof fn lemma_left_value_push(s: Seq<char>, c: char, acc: int)
    ensures
        left_value(s.push(c), acc) == left_value(s, acc) * 10 + digit_value(c),
    decreases s.len(),
{
    if s.len() == 0 {
        let t = s.push(c);
        assert(t.drop_first() =~= Seq::<char>::empty());
        assert(t[0] == c);
        assert(left_value(t, acc) == left_value(t.drop_first(), acc * 10 + digit_value(c)));
    } else {
        let t = s.push(c);
        assert(t.drop_first() =~= s.drop_first().push(c));
        assert(t[0] == s[0]);
        lemma_left_value_push(s.drop_first(), c, acc * 10 + digit_value(s[0]));
        assert(left_value(t, acc) == left_value(t.drop_first(), acc * 10 + digit_value(s[0])));
    }
}

proof fn lemma_decimal_text(n: nat)
    ensures
        left_value(decimal_text(n), 0) == n,
        decimal_text(n).len() > 0,
        forall|i: int| 0 <= i < decimal_text(n).len() ==> is_digit(#[trigger] decimal_text(n)[i]),
    decreases n,
{
    let d = (n % 10) as int;
    assert(digit_value(digit_char(d)) == d);
    if n < 10 {
        let t = seq![digit_char(n as int)];
        assert(t.drop_first() =~= Seq::<char>::empty());
        assert(left_value(t.drop_first(), digit_value(t[0])) == digit_value(t[0]));
        assert(left_value(t, 0) == left_value(t.drop_first(), digit_value(t[0])));
    } else {
        lemma_decimal_text(n / 10);
        lemma_left_value_push(decimal_text(n / 10), digit_char((n % 10) as int), 0);
        assert((n / 10) * 10 + n % 10 == n);
    }
}

proof fn lemma_left_value_grows(d: Seq<char>, acc: int)
    requires
        acc >= 0,
        forall|i: int| 0 <= i < d.len() ==> is_digit(#[trigger] d[i]),
    ensures
        left_value(d, acc) >= acc,
    decreases d.len(),
{
    if d.len() > 0 {
        assert(is_digit(d[0]));
        assert forall|i: int| 0 <= i < d.drop_first().len() implies is_digit(#[trigger] d.drop_first()[i]) by {
            assert(d.drop_first()[i] == d[i + 1]);
        }
        lemma_left_value_grows(d.drop_first(), acc * 10 + digit_value(d[0]));
    }
}

proof fn lemma_scan_digits(d: Seq<char>, acc: int)
    requires
        acc >= 0,
        forall|i: int| 0 <= i < d.len() ==> is_digit(#[trigger] d[i]),
        left_value(d, acc) <= u64::MAX,
    ensures
        scan_digits(d, acc) == Ok::<int, ParseIntError>(left_value(d, acc)),
    decreases d.len(),
{
    if d.len() > 0 {
        assert(is_digit(d[0]));
        assert forall|i: int| 0 <= i < d.drop_first().len() implies is_digit(#[trigger] d.drop_first()[i]) by {
            assert(d.drop_first()[i] == d[i + 1]);
        }
        lemma_left_value_grows(d.drop_first(), acc * 10 + digit_value(d[0]));
        lemma_scan_digits(d.drop_first(), acc * 10 + digit_value(d[0]));
    }
}

/// Reading back the decimal text of a `u64` gives the number.
pub proof fn lemma_decimal_roundtrip(n: u64)
    ensures
        parse_u64_spec(decimal_text(n as nat)) == Ok::<int, ParseIntError>(n as int),
{
    lemma_decimal_text(n as nat);
    lemma_scan_digits(decimal_text(n as nat), 0);
    let t = decimal_text(n as nat);
    assert(is_digit(t[0]));
}

fn digit_text(d: u64) -> (r: &'static str)
    requires
        d < 10,
    ensures
        r@ == seq![digit_char(d as int)],
{
    proof {
        reveal_strlit("0");
        reveal_strlit("1");
        reveal_strlit("2");
        reveal_strlit("3");
        reveal_strlit("4");
        reveal_strlit("5");
        reveal_strlit("6");
        reveal_strlit("7");
        reveal_strlit("8");
        reveal_strlit("9");
    }
    if d == 0 {
        "0"
    } else if d == 1 {
        "1"
    } else if d == 2 {
        "2"
    } else if d == 3 {
        "3"
    } else if d == 4 {
        "4"
    } else if d == 5 {
        "5"
    } else if d == 6 {
        "6"
    } else if d == 7 {
        "7"
    } else if d == 8 {
        "8"
    } else {
        "9"
    }
}

/// The decimal text of `n` (as `n.to_string()`).
pub fn u64_to_text(n: u64) -> (r: String)
    ensures
        r@ == decimal_text(n as nat),
    decreases n,
{
    if n < 10 {
        digit_text(n).to_string()
    } else {
        let head = u64_to_text(n / 10);
        head.concat(digit_text(n % 10))
    }
}

} // verus!
