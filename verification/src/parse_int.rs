//! A verified base-10 signed 32-bit integer parser over character
//! sequences, with the same acceptance and error behaviour as std's
//! integer parsing: an optional leading `+` or `-`, then one or more
//! ASCII decimal digits, scanned left to right with overflow detected
//! as soon as the accumulated value leaves the `i32` range.

use vstd::prelude::*;

verus! {

/// Why a character sequence fails to parse as a signed 32-bit integer.
#[derive(Copy, Clone, Debug, PartialEq, Eq, Structural)]
pub enum IntParseError {
    /// The input was empty.
    Empty,
    /// A character was not an ASCII decimal digit, or no digits followed
    /// the sign.
    InvalidDigit,
    /// The value exceeds `i32::MAX`.
    PosOverflow,
    /// The value lies below `i32::MIN`.
    NegOverflow,
}

/// `c` is an ASCII decimal digit.
pub open spec fn is_digit(c: char) -> bool {
    '0' as u32 <= c as u32 <= '9' as u32
}

/// Numeric value of the digit `c`.
pub open spec fn digit_value(c: char) -> int {
    c as u32 - '0' as u32
}

/// Folds the digits of `s` into `acc` left to right, negating each digit's
/// contribution when `negative` holds, and stops at the first character
/// that is no digit or the first step that leaves the `i32` range.
pub open spec fn parse_digits(s: Seq<char>, acc: int, negative: bool) -> Result<i32, IntParseError>
    decreases s.len(),
{
    if s.len() == 0 {
        Ok(acc as i32)
    } else if !is_digit(s[0]) {
        Err(IntParseError::InvalidDigit)
    } else {
        let next = if negative {
            acc * 10 - digit_value(s[0])
        } else {
            acc * 10 + digit_value(s[0])
        };
        if next < i32::MIN as int || next > i32::MAX as int {
            Err(if negative {
                IntParseError::NegOverflow
            } else {
                IntParseError::PosOverflow
            })
        } else {
            parse_digits(s.drop_first(), next, negative)
        }
    }
}

/// The value of `s` read as a base-10 signed 32-bit integer, or the first
/// applicable error.
pub open spec fn spec_parse_i32(s: Seq<char>) -> Result<i32, IntParseError> {
    if s.len() == 0 {
        Err(IntParseError::Empty)
    } else {
        let negative = s[0] == '-';
        let digits = if s[0] == '-' || s[0] == '+' {
            s.drop_first()
        } else {
            s
        };
        if digits.len() == 0 {
            Err(IntParseError::InvalidDigit)
        } else {
            parse_digits(digits, 0, negative)
        }
    }
}

/// The digit character for the value `d`.
pub open spec fn digit_char(d: int) -> char {
    if d == 0 {
        '0'
    } else if d == 1 {
        '1'
    } else if d == 2 {
        '2'
    } else if d == 3 {
        '3'
    } else if d == 4 {
        '4'
    } else if d == 5 {
        '5'
    } else if d == 6 {
        '6'
    } else if d == 7 {
        '7'
    } else if d == 8 {
        '8'
    } else {
        '9'
    }
}

/// The decimal digits of `n`, most significant first, without sign or
/// leading zeros (a single `'0'` for zero).
pub open spec fn dec_digits(n: nat) -> Seq<char>
    decreases n,
{
    if n < 10 {
        seq![digit_char(n as int)]
    } else {
        dec_digits(n / 10) + seq![digit_char((n % 10) as int)]
    }
}

/// The canonical decimal rendering of `v`: a `-` sign for negative values,
/// then the digits.
pub open spec fn spec_render_i32(v: i32) -> Seq<char> {
    if v < 0 {
        seq!['-'] + dec_digits((-(v as int)) as nat)
    } else {
        dec_digits(v as nat)
    }
}

/// `digit_char` produces exactly the digit characters, each carrying its
/// value back through `digit_value`.
proof fn lemma_digit_char(d: int)
    requires
        0 <= d <= 9,
    ensures
        is_digit(digit_char(d)),
        digit_value(digit_char(d)) == d,
{
}

/// Every character of a decimal rendering is the sign or a digit, the
/// digits are never empty, and the first digit is no sign.
pub proof fn lemma_render_chars(v: i32)
    ensures
        spec_render_i32(v).len() >= 1,
        forall|i: int|
            0 <= i < spec_render_i32(v).len() ==> (spec_render_i32(v)[i] == '-' || is_digit(
                spec_render_i32(v)[i],
            )),
{
    if v < 0 {
        lemma_dec_digits_are_digits((-(v as int)) as nat);
    } else {
        lemma_dec_digits_are_digits(v as nat);
    }
}

/// The digits of `n` are at least one character, all of them digits.
proof fn lemma_dec_digits_are_digits(n: nat)
    ensures
        dec_digits(n).len() >= 1,
        forall|i: int| 0 <= i < dec_digits(n).len() ==> is_digit(#[trigger] dec_digits(n)[i]),
    decreases n,
{
    if n < 10 {
        lemma_digit_char(n as int);
    } else {
        lemma_dec_digits_are_digits(n / 10);
        lemma_digit_char((n % 10) as int);
        assert forall|i: int| 0 <= i < dec_digits(n).len() implies is_digit(
            #[trigger] dec_digits(n)[i],
        ) by {
            if i < dec_digits(n / 10).len() {
                assert(dec_digits(n)[i] == dec_digits(n / 10)[i]);
            }
        }
    }
}

/// Appending one more character to a digit string folds it into the value
/// the digits so far produced.
proof fn lemma_parse_digits_append(s: Seq<char>, c: char, acc: int, negative: bool)
    requires
        i32::MIN <= acc <= i32::MAX,
    ensures
        parse_digits(s + seq![c], acc, negative) == (match parse_digits(s, acc, negative) {
            Ok(v) => {
                let next = if negative {
                    (v as int) * 10 - digit_value(c)
                } else {
                    (v as int) * 10 + digit_value(c)
                };
                if !is_digit(c) {
                    Err::<i32, IntParseError>(IntParseError::InvalidDigit)
                } else if next < i32::MIN as int || next > i32::MAX as int {
                    Err::<i32, IntParseError>(
                        if negative {
                            IntParseError::NegOverflow
                        } else {
                            IntParseError::PosOverflow
                        },
                    )
                } else {
                    Ok::<i32, IntParseError>(next as i32)
                }
            },
            Err(e) => Err::<i32, IntParseError>(e),
        }),
    decreases s.len(),
{
    if s.len() == 0 {
        assert(s + seq![c] =~= seq![c]);
        assert((seq![c]).drop_first() =~= Seq::<char>::empty());
        assert(parse_digits(s, acc, negative) == Ok::<i32, IntParseError>(acc as i32));
        assert((acc as i32) as int == acc);
        if is_digit(c) {
            let next = if negative {
                acc * 10 - digit_value(c)
            } else {
                acc * 10 + digit_value(c)
            };
            assert((seq![c])[0] == c);
            if i32::MIN as int <= next <= i32::MAX as int {
                assert(parse_digits(seq![c], acc, negative) == parse_digits(
                    Seq::<char>::empty(),
                    next,
                    negative,
                ));
                assert(parse_digits(Seq::<char>::empty(), next, negative)
                    == Ok::<i32, IntParseError>(next as i32));
            }
        }
    } else {
        assert((s + seq![c])[0] == s[0]);
        if is_digit(s[0]) {
            let next = if negative {
                acc * 10 - digit_value(s[0])
            } else {
                acc * 10 + digit_value(s[0])
            };
            if i32::MIN as int <= next <= i32::MAX as int {
                assert((s + seq![c]).drop_first() =~= s.drop_first() + seq![c]);
                lemma_parse_digits_append(s.drop_first(), c, next, negative);
            }
        }
    }
}

/// Folding the rendered digits of `n` from zero yields `n` itself, with
/// the requested sign.
proof fn lemma_parse_dec_digits(n: nat, negative: bool)
    requires
        !negative ==> n <= i32::MAX as nat,
        negative ==> n <= 2147483648,
    ensures
        parse_digits(dec_digits(n), 0, negative) == Ok::<i32, IntParseError>(
            (if negative {
                -(n as int)
            } else {
                n as int
            }) as i32,
        ),
    decreases n,
{
    if n < 10 {
        lemma_digit_char(n as int);
        let s = seq![digit_char(n as int)];
        assert(s.drop_first() =~= Seq::<char>::empty());
        assert(s[0] == digit_char(n as int));
        let next = if negative {
            0 - n as int
        } else {
            n as int
        };
        assert(parse_digits(s, 0, negative) == parse_digits(Seq::<char>::empty(), next, negative));
    } else {
        vstd::arithmetic::div_mod::lemma_div_nonincreasing(n as int, 10);
        vstd::arithmetic::div_mod::lemma_div_pos_is_pos(n as int, 10);
        lemma_parse_dec_digits(n / 10, negative);
        lemma_digit_char((n % 10) as int);
        lemma_parse_digits_append(dec_digits(n / 10), digit_char((n % 10) as int), 0, negative);
        vstd::arithmetic::div_mod::lemma_fundamental_div_mod(n as int, 10);
        let v0: int = if negative {
            0 - (n / 10) as int
        } else {
            (n / 10) as int
        };
        assert(parse_digits(dec_digits(n / 10), 0, negative) == Ok::<i32, IntParseError>(
            v0 as i32,
        ));
        assert((v0 as i32) as int == v0);
        let next = if negative {
            v0 * 10 - (n % 10)
        } else {
            v0 * 10 + (n % 10)
        };
        assert(next == if negative {
            0 - n as int
        } else {
            n as int
        });
    }
}

/// Round trip: parsing the canonical decimal rendering of any `i32` gives
/// that value back.
pub proof fn lemma_parse_render_i32(v: i32)
    ensures
        spec_parse_i32(spec_render_i32(v)) == Ok::<i32, IntParseError>(v),
{
    if v < 0 {
        let n = (-(v as int)) as nat;
        let s = seq!['-'] + dec_digits(n);
        lemma_dec_digits_are_digits(n);
        assert(s[0] == '-');
        assert(s.drop_first() =~= dec_digits(n));
        lemma_parse_dec_digits(n, true);
    } else {
        let s = dec_digits(v as nat);
        lemma_dec_digits_are_digits(v as nat);
        assert(is_digit(s[0]));
        assert(s[0] != '-' && s[0] != '+');
        lemma_parse_dec_digits(v as nat, false);
    }
}

/// Parses the characters in `v` as a base-10 signed 32-bit integer.
pub fn parse_i32(v: &Vec<char>) -> (r: Result<i32, IntParseError>)
    ensures
        r == spec_parse_i32(v@),
{
    let n: usize = v.len();
    if n == 0 {
        return Err(IntParseError::Empty);
    }
    let c0 = v[0];
    let negative: bool = c0 == '-';
    let start: usize = if c0 == '-' || c0 == '+' {
        1
    } else {
        0
    };
    proof {
        if start == 1 {
            assert(v@.drop_first() =~= v@.subrange(1, n as int));
        } else {
            assert(v@ =~= v@.subrange(0, n as int));
        }
    }
    if start == n {
        return Err(IntParseError::InvalidDigit);
    }
    let mut acc: i64 = 0;
    let mut i: usize = start;
    while i < n
        invariant
            start <= i <= n,
            n == v@.len(),
            i32::MIN <= acc <= i32::MAX,
            spec_parse_i32(v@) == parse_digits(v@.subrange(i as int, n as int), acc as int, negative),
        decreases n - i,
    {
        let c = v[i];
        let cu: u32 = c as u32;
        if cu < '0' as u32 || cu > '9' as u32 {
            return Err(IntParseError::InvalidDigit);
        }
        let d: i64 = (cu - '0' as u32) as i64;
        let next: i64 = if negative {
            acc * 10 - d
        } else {
            acc * 10 + d
        };
        if next < i32::MIN as i64 || next > i32::MAX as i64 {
            return Err(if negative {
                IntParseError::NegOverflow
            } else {
                IntParseError::PosOverflow
            });
        }
        proof {
            assert(v@.subrange(i as int, n as int).drop_first() =~= v@.subrange(
                i + 1,
                n as int,
            ));
        }
        acc = next;
        i = i + 1;
    }
    Ok(acc as i32)
}

} // verus!
