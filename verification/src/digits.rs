//! Decimal numerals.
use vstd::prelude::*;
use crate::text::char_vec;

verus! {

/// The character of a decimal digit.
pub open spec fn digit_char(d: nat) -> char {
    (48 + d) as char
}

/// The decimal numeral of `n`, without leading zeros.
pub open spec fn decimal(n: nat) -> Seq<char>
    decreases n,
{
    if n < 10 {
        seq![digit_char(n)]
    } else {
        decimal(n / 10).push(digit_char(n % 10))
    }
}

/// The decimal numeral of `n`, with a minus sign where it is negative.
pub open spec fn signed_decimal(n: int) -> Seq<char> {
    if n < 0 {
        "-"@ + decimal((-n) as nat)
    } else {
        decimal(n as nat)
    }
}

/// The value of a digit character.
pub open spec fn digit_value(c: char) -> Option<nat> {
    if 48 <= c as u32 <= 57 {
        Some((c as u32 - 48) as nat)
    } else {
        None
    }
}

/// The number that a string of digits denotes; the empty string denotes zero.
pub open spec fn digits_value(s: Seq<char>) -> Option<nat>
    decreases s.len(),
{
    if s.len() == 0 {
        Some(0)
    } else {
        match (digits_value(s.drop_last()), digit_value(s.last())) {
            (Some(high), Some(low)) => Some(high * 10 + low),
            _ => None,
        }
    }
}

/// `s` without one leading plus sign, if anything stands behind it.
pub open spec fn unsigned_digits(s: Seq<char>) -> Seq<char> {
    if s.len() > 1 && s[0] == '+' {
        s.drop_first()
    } else {
        s
    }
}

/// The unsigned number up to `max` that `s` spells: an optional plus sign and
/// at least one digit.
pub open spec fn unsigned_value(s: Seq<char>, max: nat) -> Option<nat> {
    if s.len() == 0 {
        None
    } else {
        match digits_value(unsigned_digits(s)) {
            Some(n) if n <= max => Some(n),
            _ => None,
        }
    }
}

/// A prefix of a numeral denotes no more than the whole.
proof fn lemma_prefix_value(s: Seq<char>, i: int)
    requires
        0 <= i <= s.len(),
    ensures
        digits_value(s) is Some ==> digits_value(s.take(i)) is Some && digits_value(s.take(i))->0
            <= digits_value(s)->0,
    decreases s.len() - i,
{
    if i == s.len() {
        assert(s.take(i) =~= s);
    } else {
        lemma_prefix_value(s, i + 1);
        assert(s.take(i + 1).drop_last() =~= s.take(i));
        if digits_value(s) is Some {
            assert(digits_value(s.take(i)) is Some);
        }
    }
}

/// Reading a decimal numeral gives back the number it was written from.
pub proof fn lemma_decimal_reads_back(n: nat)
    ensures
        decimal(n).len() >= 1,
        decimal(n)[0] != '+',
        digits_value(decimal(n)) == Some(n),
    decreases n,
{
    if n < 10 {
        let s = decimal(n);
        assert(s.drop_last() =~= Seq::<char>::empty());
        assert(digits_value(s.drop_last()) == Some(0nat));
        assert(digit_value(digit_char(n)) == Some(n));
    } else {
        lemma_decimal_reads_back(n / 10);
        let s = decimal(n);
        assert(s.drop_last() =~= decimal(n / 10));
        assert(digit_value(digit_char(n % 10)) == Some(n % 10));
        assert(digits_value(s) == Some((n / 10) * 10 + n % 10));
        assert(s[0] == decimal(n / 10)[0]);
    }
}

/// Parsing a number's own numeral gives the number, whenever it is in range.
pub proof fn law_numeral_parses(n: nat, max: nat)
    requires
        n <= max,
    ensures
        unsigned_value(decimal(n), max) == Some(n),
{
    lemma_decimal_reads_back(n);
}

/// The text of one digit.
fn digit_text(d: u64) -> (r: &'static str)
    requires
        d < 10,
    ensures
        r@ == seq![digit_char(d as nat)],
{
    proof {
        reveal_strlit("0");
        reveal_strlit("1");
        reveal_strlit("2");
        reveal_strlit("3");
        reveal_strlit("4");
        reveal_strlit("5");
        reveal_strlit("6");
        reveal_strlit("7");
        reveal_strlit("8");
        reveal_strlit("9");
    }
    let r = if d == 0 {
        "0"
    } else if d == 1 {
        "1"
    } else if d == 2 {
        "2"
    } else if d == 3 {
        "3"
    } else if d == 4 {
        "4"
    } else if d == 5 {
        "5"
    } else if d == 6 {
        "6"
    } else if d == 7 {
        "7"
    } else if d == 8 {
        "8"
    } else {
        "9"
    };
    assert(r@ =~= seq![digit_char(d as nat)]);
    r
}

/// The decimal numeral of `n`.
pub fn to_decimal(n: u64) -> (r: String)
    ensures
        r@ == decimal(n as nat),
    decreases n,
{
    if n < 10 {
        digit_text(n).to_owned()
    } else {
        let mut out = to_decimal(n / 10);
        let ghost high = out@;
        out.append(digit_text(n % 10));
        assert(out@ =~= high.push(digit_char((n % 10) as nat)));
        out
    }
}

/// The signed decimal numeral of `n`.
pub fn to_signed_decimal(n: i32) -> (r: String)
    ensures
        r@ == signed_decimal(n as int),
{
    if n < 0 {
        let mut out = "-".to_owned();
        out.append(to_decimal((-(n as i64)) as u64).as_str());
        out
    } else {
        to_decimal(n as u64)
    }
}

/// The unsigned number up to `max` that `s` spells.
pub fn parse_unsigned(s: &str, max: u64) -> (r: Option<u64>)
    ensures
        match r {
            Some(n) => unsigned_value(s@, max as nat) == Some(n as nat),
            None => unsigned_value(s@, max as nat) is None,
        },
{
    let x = char_vec(s);
    if x.len() == 0 {
        return None;
    }
    let start: usize = if x.len() > 1 && x[0] == '+' {
        1
    } else {
        0
    };
    let ghost d = unsigned_digits(s@);
    proof {
        assert(d =~= s@.skip(start as int));
        assert(d.take(0) =~= Seq::<char>::empty());
    }
    let mut value: u64 = 0;
    let mut i: usize = start;
    while i < x.len()
        invariant
            x@ == s@,
            x@.len() > 0,
            start <= i <= x@.len(),
            d == unsigned_digits(s@),
            d == s@.skip(start as int),
            value <= max,
            digits_value(d.take(i - start)) == Some(value as nat),
        decreases x@.len() - i,
    {
        let c: u32 = x[i] as u32;
        let ghost k = i - start;
        proof {
            assert(d.take(k + 1).drop_last() =~= d.take(k));
            assert(d.take(k + 1).last() == x@[i as int]);
            lemma_prefix_value(d, k + 1);
        }
        if c < 48 || c > 57 {
            return None;
        }
        let digit: u64 = (c - 48) as u64;
        proof {
            assert(digits_value(d.take(k + 1)) == Some((value * 10 + digit) as nat));
        }
        if value > (max - digit.min(max)) / 10 || digit > max {
            proof {
                assert(value * 10 + digit > max) by (nonlinear_arith)
                    requires
                        digit <= max ==> value > (max - digit) / 10,
                        value >= 0,
                        digit >= 0,
                        digit > max || value > (max - digit) / 10,
                {
                }
            }
            return None;
        }
        value = value * 10 + digit;
        i += 1;
    }
    proof {
        assert(d.take(d.len() as int) =~= d);
    }
    Some(value)
}

/// A numeral is written in the digits 0 to 9, the last one counting ones and each
/// other ten times the next; the sign of a negative number stands in front.
pub proof fn law_numerals_are_decimal(n: nat, d: nat)
    requires
        d < 10,
    ensures
        decimal(d) == seq![(0x30 + d) as char],
        n > 0 ==> decimal(10 * n + d) == decimal(n).push((0x30 + d) as char),
        signed_decimal(n as int) == decimal(n),
        n > 0 ==> signed_decimal(-(n as int)) == "-"@ + decimal(n),
{
    assert((10 * n + d) / 10 == n);
    assert((10 * n + d) % 10 == d);
}

/// A number is spelled by at least one digit behind an optional plus sign, and
/// only numbers up to the bound are read.
pub proof fn law_spelled_numbers(s: Seq<char>, max: nat)
    ensures
        unsigned_value(s, max) matches Some(n) ==> {
            &&& n <= max
            &&& forall|bound: nat| n <= bound ==> #[trigger] unsigned_value(s, bound) == Some(n)
            &&& forall|i: int|
                0 <= i < s.len() ==> 48 <= (#[trigger] s[i]) as u32 <= 57 || (i == 0 && s[i] == '+')
            &&& s.len() >= 1 && s.last() != '+'
        },
        unsigned_value(Seq::empty(), max) is None,
        s.len() >= 1 && s[0] != '+' ==> unsigned_value(seq!['+'] + s, max) == unsigned_value(s, max),
{
    if unsigned_value(s, max) is Some {
        let digits = unsigned_digits(s);
        assert forall|i: int| 0 <= i < s.len() implies 48 <= (#[trigger] s[i]) as u32 <= 57 || (i == 0
            && s[i] == '+') by {
            if digits == s {
                lemma_all_digits(s, i);
            } else if i > 0 {
                lemma_all_digits(digits, i - 1);
                assert(digits[i - 1] == s[i]);
            }
        }
        if digits == s {
            lemma_all_digits(s, s.len() - 1);
        } else {
            lemma_all_digits(digits, digits.len() - 1);
            assert(digits.last() == s.last());
        }
    }
    assert((seq!['+'] + s).drop_first() =~= s);
}

proof fn lemma_all_digits(s: Seq<char>, i: int)
    requires
        digits_value(s) is Some,
        0 <= i < s.len(),
    ensures
        48 <= s[i] as u32 <= 57,
    decreases s.len(),
{
    if i < s.len() - 1 {
        lemma_all_digits(s.drop_last(), i);
        assert(s.drop_last()[i] == s[i]);
    } else {
        assert(digit_value(s.last()) is Some);
    }
}

/// A further digit makes ten times the number, plus the digit.
pub proof fn law_digits_count_tenfold(s: Seq<char>, d: nat, max: nat)
    requires
        s.len() >= 1,
        s[0] != '+',
        d < 10,
    ensures
        match unsigned_value(s, max) {
            Some(n) => n * 10 + d <= max ==> unsigned_value(s.push((0x30 + d) as char), max) == Some(
                n * 10 + d,
            ),
            None => unsigned_value(s.push((0x30 + d) as char), max) is None,
        },
{
    let longer = s.push((0x30 + d) as char);
    assert(longer.drop_last() =~= s);
    assert(digit_value((0x30 + d) as char) == Some(d));
}

} // verus!
