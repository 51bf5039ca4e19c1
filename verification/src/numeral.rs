//! Decimal numerals and the right-aligned field that holds a line number.

use vstd::prelude::*;
use vstd::string::*;

verus! {

/// Width of the field in which a line number is right-aligned.
pub const FIELD_WIDTH: usize = 6;

/// The character that stands for the digit `d`, for `d < 10`.
pub open spec fn digit_char(d: nat) -> char {
    if d == 0 {
        '0'
    } else if d == 1 {
        '1'
    } else if d == 2 {
        '2'
    } else if d == 3 {
        '3'
    } else if d == 4 {
        '4'
    } else if d == 5 {
        '5'
    } else if d == 6 {
        '6'
    } else if d == 7 {
        '7'
    } else if d == 8 {
        '8'
    } else {
        '9'
    }
}

/// The digit that `c` stands for, or `None` if `c` is no decimal digit.
pub open spec fn digit_value(c: char) -> Option<nat> {
    if c == '0' {
        Some(0nat)
    } else if c == '1' {
        Some(1nat)
    } else if c == '2' {
        Some(2nat)
    } else if c == '3' {
        Some(3nat)
    } else if c == '4' {
        Some(4nat)
    } else if c == '5' {
        Some(5nat)
    } else if c == '6' {
        Some(6nat)
    } else if c == '7' {
        Some(7nat)
    } else if c == '8' {
        Some(8nat)
    } else if c == '9' {
        Some(9nat)
    } else {
        None
    }
}

/// The decimal numeral of `n`, most significant digit first, without leading zeros.
pub open spec fn decimal(n: nat) -> Seq<char>
    decreases n,
{
    if n < 10 {
        seq![digit_char(n)]
    } else {
        decimal(n / 10).push(digit_char(n % 10))
    }
}

/// The number that a sequence of decimal digits denotes; characters that are
/// no digits count as zero.
pub open spec fn numeral_value(s: Seq<char>) -> nat
    decreases s.len(),
{
    if s.len() == 0 {
        0
    } else {
        let last = match digit_value(s.last()) {
            Some(d) => d,
            None => 0nat,
        };
        numeral_value(s.drop_last()) * 10 + last
    }
}

/// `k` spaces.
pub open spec fn blanks(k: nat) -> Seq<char> {
    Seq::new(k, |i: int| ' ')
}

/// The numeral of `n`, padded with spaces on the left to `FIELD_WIDTH`
/// characters. A numeral that is longer than the field is not cut.
pub open spec fn number_field(n: nat) -> Seq<char> {
    let digits = decimal(n);
    if digits.len() >= FIELD_WIDTH as nat {
        digits
    } else {
        blanks((FIELD_WIDTH as nat - digits.len()) as nat) + digits
    }
}

/// A numeral has at least one character and every character of it is a digit.
pub proof fn lemma_decimal_digits(n: nat)
    ensures
        decimal(n).len() >= 1,
        forall|i: int| 0 <= i < decimal(n).len() ==> digit_value(#[trigger] decimal(n)[i]).is_some(),
    decreases n,
{
    if n >= 10 {
        lemma_decimal_digits(n / 10);
    }
}

/// Reading a numeral back gives the number it was written for.
pub proof fn lemma_decimal_round_trip(n: nat)
    ensures
        numeral_value(decimal(n)) == n,
    decreases n,
{
    if n < 10 {
        let s = decimal(n);
        assert(s.drop_last() =~= Seq::<char>::empty());
        assert(numeral_value(s.drop_last()) == 0);
    } else {
        lemma_decimal_round_trip(n / 10);
        let s = decimal(n);
        assert(s.drop_last() =~= decimal(n / 10));
        assert(s.last() == digit_char(n % 10));
    }
}

/// The field is never shorter than `FIELD_WIDTH` and ends with the numeral.
pub proof fn lemma_number_field_shape(n: nat)
    ensures
        number_field(n).len() >= FIELD_WIDTH,
        number_field(n).len() == if decimal(n).len() >= FIELD_WIDTH {
            decimal(n).len()
        } else {
            FIELD_WIDTH as nat
        },
        number_field(n).subrange(number_field(n).len() - decimal(n).len(), number_field(n).len() as int)
            == decimal(n),
        forall|i: int| 0 <= i < number_field(n).len() - decimal(n).len() ==> number_field(n)[i] == ' ',
{
    let f = number_field(n);
    let d = decimal(n);
    assert(f.subrange(f.len() - d.len(), f.len() as int) =~= d);
}

/// Spaces count for nothing when a numeral is read back.
pub proof fn lemma_blanks_value(k: nat)
    ensures
        numeral_value(blanks(k)) == 0,
    decreases k,
{
    if k > 0 {
        assert(blanks(k).drop_last() =~= blanks((k - 1) as nat));
        lemma_blanks_value((k - 1) as nat);
    }
}

/// A numeral that is read back behind `k` spaces gives the number it was
/// written for.
pub proof fn lemma_padded_round_trip(k: nat, n: nat)
    ensures
        numeral_value(blanks(k) + decimal(n)) == n,
    decreases n,
{
    let s = blanks(k) + decimal(n);
    if n < 10 {
        assert(s.drop_last() =~= blanks(k));
        lemma_blanks_value(k);
    } else {
        assert(s.drop_last() =~= blanks(k) + decimal(n / 10));
        assert(s.last() == digit_char(n % 10));
        lemma_padded_round_trip(k, n / 10);
    }
}

/// Reading a number field back gives the number it was written for.
pub proof fn lemma_number_field_round_trip(n: nat)
    ensures
        numeral_value(number_field(n)) == n,
{
    let digits = decimal(n);
    if digits.len() >= FIELD_WIDTH as nat {
        lemma_decimal_round_trip(n);
    } else {
        lemma_padded_round_trip((FIELD_WIDTH as nat - digits.len()) as nat, n);
    }
}

/// A number field holds spaces and digits only: no tab and no newline.
pub proof fn lemma_number_field_chars(n: nat)
    ensures
        forall|i: int|
            0 <= i < number_field(n).len() ==> {
                let c = #[trigger] number_field(n)[i];
                c == ' ' || digit_value(c).is_some()
            },
{
    lemma_decimal_digits(n);
    lemma_number_field_shape(n);
    let f = number_field(n);
    let d = decimal(n);
    assert forall|i: int| 0 <= i < f.len() implies {
        let c = #[trigger] f[i];
        c == ' ' || digit_value(c).is_some()
    } by {
        if i >= f.len() - d.len() {
            assert(f[i] == f.subrange(f.len() - d.len(), f.len() as int)[i - (f.len() - d.len())]);
            assert(f[i] == d[i - (f.len() - d.len())]);
        }
    }
}

/// The one-character text of the digit `d`.
fn digit_str(d: usize) -> (r: &'static str)
    requires
        d < 10,
    ensures
        r@ == seq![digit_char(d as nat)],
{
    proof {
        reveal_strlit("0");
        reveal_strlit("1");
        reveal_strlit("2");
        reveal_strlit("3");
        reveal_strlit("4");
        reveal_strlit("5");
        reveal_strlit("6");
        reveal_strlit("7");
        reveal_strlit("8");
        reveal_strlit("9");
    }
    let r = if d == 0 {
        "0"
    } else if d == 1 {
        "1"
    } else if d == 2 {
        "2"
    } else if d == 3 {
        "3"
    } else if d == 4 {
        "4"
    } else if d == 5 {
        "5"
    } else if d == 6 {
        "6"
    } else if d == 7 {
        "7"
    } else if d == 8 {
        "8"
    } else {
        "9"
    };
    assert(r@ =~= seq![digit_char(d as nat)]);
    r
}

/// Writes `n` as a decimal numeral.
pub fn decimal_string(n: usize) -> (r: String)
    ensures
        r@ == decimal(n as nat),
    decreases n,
{
    if n < 10 {
        String::from_str(digit_str(n))
    } else {
        let mut s = decimal_string(n / 10);
        s.append(digit_str(n % 10));
        assert(s@ =~= decimal(n as nat));
        s
    }
}

/// Writes `n` right-aligned in a field of `FIELD_WIDTH` characters.
pub fn number_field_string(n: usize) -> (r: String)
    ensures
        r@ == number_field(n as nat),
{
    let digits = decimal_string(n);
    let len = digits.as_str().unicode_len();
    let mut field = String::new();
    let mut written: usize = len;
    while written < FIELD_WIDTH
        invariant
            len <= written,
            len == digits@.len(),
            len < FIELD_WIDTH ==> written <= FIELD_WIDTH,
            len >= FIELD_WIDTH ==> written == len,
            field@ == blanks((written - len) as nat),
        decreases FIELD_WIDTH - written,
    {
        proof {
            reveal_strlit(" ");
        }
        field.append(" ");
        written = written + 1;
        assert(field@ =~= blanks((written - len) as nat));
    }
    let ghost padding = field@;
    field.append(digits.as_str());
    proof {
        assert(field@ == padding + decimal(n as nat));
        if len >= FIELD_WIDTH {
            assert(padding =~= Seq::<char>::empty());
            assert(field@ =~= decimal(n as nat));
        } else {
            assert(written == FIELD_WIDTH);
        }
    }
    field
}

} // verus!
