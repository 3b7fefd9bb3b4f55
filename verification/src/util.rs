//! Cash-amount formatting and parsing, shared with register clients:
//! minor currency units to a dollar string and back.

use vstd::prelude::*;

verus! {

/// The character for one decimal digit.
pub open spec fn digit_char(d: int) -> char {
    if d == 0 {
        '0'
    } else if d == 1 {
        '1'
    } else if d == 2 {
        '2'
    } else if d == 3 {
        '3'
    } else if d == 4 {
        '4'
    } else if d == 5 {
        '5'
    } else if d == 6 {
        '6'
    } else if d == 7 {
        '7'
    } else if d == 8 {
        '8'
    } else {
        '9'
    }
}

/// The decimal digits of a number, most significant first.
pub open spec fn dec_digits(n: nat) -> Seq<char>
    decreases n,
{
    if n < 10 {
        seq![digit_char(n as int)]
    } else {
        dec_digits(n / 10).push(digit_char((n % 10) as int))
    }
}

/// An amount in minor units rendered as a dollar string: a dollar
/// sign, the whole dollars, a dot, and exactly two cent digits.
pub open spec fn amount_pretty_spec(amount: u32) -> Seq<char> {
    seq!['$'] + dec_digits((amount / 100) as nat) + seq!['.'] + seq![
        digit_char(((amount / 10) % 10) as int),
        digit_char((amount % 10) as int),
    ]
}

/// One decimal digit as a string slice.
fn digit_str(d: u32) -> (r: &'static str)
    requires
        d < 10,
    ensures
        r@ == seq![digit_char(d as int)],
{
    match d {
        0 => {
            proof {
                reveal_strlit("0");
            }
            "0"
        },
        1 => {
            proof {
                reveal_strlit("1");
            }
            "1"
        },
        2 => {
            proof {
                reveal_strlit("2");
            }
            "2"
        },
        3 => {
            proof {
                reveal_strlit("3");
            }
            "3"
        },
        4 => {
            proof {
                reveal_strlit("4");
            }
            "4"
        },
        5 => {
            proof {
                reveal_strlit("5");
            }
            "5"
        },
        6 => {
            proof {
                reveal_strlit("6");
            }
            "6"
        },
        7 => {
            proof {
                reveal_strlit("7");
            }
            "7"
        },
        8 => {
            proof {
                reveal_strlit("8");
            }
            "8"
        },
        _ => {
            proof {
                reveal_strlit("9");
            }
            "9"
        },
    }
}

/// Appends the decimal digits of `n` to a string.
fn push_decimal(s: &mut String, n: u32)
    ensures
        final(s)@ == old(s)@ + dec_digits(n as nat),
    decreases n,
{
    if n >= 10 {
        push_decimal(s, n / 10);
    }
    s.append(digit_str(n % 10));
    proof {
        assert(final(s)@ =~= old(s)@ + dec_digits(n as nat));
    }
}

/// Renders an amount of minor currency units as a dollar string, two
/// cent digits always shown.
pub fn amount_pretty(amount: u32) -> (r: String)
    ensures
        r@ == amount_pretty_spec(amount),
{
    let mut s = String::from_str("$");
    push_decimal(&mut s, amount / 100);
    s.append(".");
    s.append(digit_str((amount / 10) % 10));
    s.append(digit_str(amount % 10));
    proof {
        reveal_strlit("$");
        reveal_strlit(".");
        assert(s@ =~= amount_pretty_spec(amount));
    }
    s
}

/// Whether a character is a decimal digit.
pub open spec fn is_digit(c: char) -> bool {
    48 <= c as int <= 57
}

/// The value of a decimal digit character.
pub open spec fn digit_val(c: char) -> int {
    c as int - 48
}

/// Whether every character of a string is a decimal digit.
pub open spec fn all_digits(s: Seq<char>) -> bool {
    forall|i: int| 0 <= i < s.len() ==> is_digit(#[trigger] s[i])
}

/// The number a string of decimal digits denotes.
pub open spec fn digits_value(s: Seq<char>) -> int
    decreases s.len(),
{
    if s.len() == 0 {
        0
    } else {
        digits_value(s.drop_last()) * 10 + digit_val(s.last())
    }
}

/// The number an unsigned decimal string denotes, as the standard
/// unsigned parser reads it: an optional leading plus sign, then at
/// least one digit, and a value that fits.
pub open spec fn u32_string_value(s: Seq<char>) -> Option<u32> {
    let body = if s.len() > 0 && s[0] == '+' {
        s.drop_first()
    } else {
        s
    };
    if body.len() > 0 && all_digits(body) && digits_value(body) <= u32::MAX {
        Some(digits_value(body) as u32)
    } else {
        None
    }
}

/// An empty chunk reads as a single zero digit.
pub open spec fn padded(s: Seq<char>) -> Seq<char> {
    if s.len() == 0 {
        seq!['0']
    } else {
        s
    }
}

/// A cents chunk keeps at most its first two characters.
pub open spec fn truncated2(s: Seq<char>) -> Seq<char> {
    if s.len() <= 2 {
        s
    } else {
        s.take(2)
    }
}

/// How many dots a string holds.
pub open spec fn dot_count(s: Seq<char>) -> int
    decreases s.len(),
{
    if s.len() == 0 {
        0
    } else {
        dot_count(s.drop_last()) + if s.last() == '.' {
            1int
        } else {
            0int
        }
    }
}

/// The index of the first dot; the length when there is none.
pub open spec fn first_dot(s: Seq<char>) -> int
    decreases s.len(),
{
    if s.len() == 0 {
        0
    } else if s[0] == '.' {
        0
    } else {
        1 + first_dot(s.drop_first())
    }
}

/// The cash amount a dollars-and-cents input denotes, split at its
/// single dot; both chunks padded when empty and the cents chunk cut
/// to two characters.
pub open spec fn split_cash_value(s: Seq<char>, dot: int) -> Option<u32> {
    let dollars = u32_string_value(padded(s.take(dot)));
    let cents = u32_string_value(truncated2(padded(s.skip(dot + 1))));
    match (dollars, cents) {
        (Some(d), Some(c)) => if d * 100 + c <= u32::MAX {
            Some((d * 100 + c) as u32)
        } else {
            None
        },
        _ => None,
    }
}

/// The cash amount an input string denotes: with no dot, a plain
/// number of minor units; with one dot, dollars and cents; with more,
/// nothing.
pub open spec fn parse_cash_spec(s: Seq<char>) -> Option<u32> {
    if dot_count(s) == 0 {
        u32_string_value(padded(s))
    } else if dot_count(s) == 1 {
        split_cash_value(s, first_dot(s))
    } else {
        None
    }
}


/// A digit string denotes a number that is not negative.
pub proof fn lemma_digits_value_nonneg(s: Seq<char>)
    requires
        all_digits(s),
    ensures
        digits_value(s) >= 0,
    decreases s.len(),
{
    if s.len() > 0 {
        assert(all_digits(s.drop_last())) by {
            assert forall|i: int| 0 <= i < s.drop_last().len() implies is_digit(
                #[trigger] s.drop_last()[i]) by {
                assert(s.drop_last()[i] == s[i]);
            }
        }
        lemma_digits_value_nonneg(s.drop_last());
        assert(is_digit(s[s.len() - 1]));
    }
}

/// A digit string is worth at least any of its prefixes.
pub proof fn lemma_digits_value_take(s: Seq<char>, i: int)
    requires
        0 <= i <= s.len(),
        all_digits(s),
    ensures
        digits_value(s.take(i)) <= digits_value(s),
    decreases s.len() - i,
{
    if i == s.len() {
        assert(s.take(i) =~= s);
    } else {
        let next = s.take(i + 1);
        assert(next.drop_last() =~= s.take(i));
        assert(next.last() == s[i]);
        assert(all_digits(s.take(i))) by {
            assert forall|j: int| 0 <= j < s.take(i).len() implies is_digit(
                #[trigger] s.take(i)[j]) by {
                assert(s.take(i)[j] == s[j]);
            }
        }
        lemma_digits_value_nonneg(s.take(i));
        assert(is_digit(s[i]));
        lemma_digits_value_take(s, i + 1);
    }
}

/// The first dot of a string is where the scan finds it.
pub proof fn lemma_first_dot_at(s: Seq<char>, i: int)
    requires
        0 <= i < s.len(),
        s[i] == '.',
        forall|j: int| 0 <= j < i ==> s[j] != '.',
    ensures
        first_dot(s) == i,
    decreases i,
{
    if i > 0 {
        assert(s[0] != '.');
        assert(s.drop_first()[i - 1] == s[i]);
        assert forall|j: int| 0 <= j < i - 1 implies s.drop_first()[j] != '.' by {
            assert(s.drop_first()[j] == s[j + 1]);
        }
        lemma_first_dot_at(s.drop_first(), i - 1);
    }
}

/// A lone zero digit reads as zero.
proof fn lemma_zero_chunk()
    ensures
        u32_string_value(seq!['0']) == Some(0u32),
{
    let z = seq!['0'];
    assert(z.drop_last() =~= Seq::<char>::empty());
    assert(digits_value(Seq::<char>::empty()) == 0);
    assert(digit_val('0') == 0);
    assert(digits_value(z) == 0);
    assert(is_digit(z[0]));
}

/// Reads the characters `from..to` of a string as an unsigned number,
/// as the standard parser would: an optional plus sign, then digits.
fn parse_u32_range(st: &str, from: usize, to: usize) -> (r: Option<u32>)
    requires
        from <= to <= st@.len(),
    ensures
        r == u32_string_value(st@.subrange(from as int, to as int)),
{
    let ghost body_full = st@.subrange(from as int, to as int);
    if from == to {
        return None;
    }
    let first = st.get_char(from);
    let start = if first == '+' {
        from + 1
    } else {
        from
    };
    let ghost body = if first == '+' {
        body_full.drop_first()
    } else {
        body_full
    };
    proof {
        assert(body_full[0] == st@[from as int]);
        assert(body_full[0] == first);
        assert(body =~= st@.subrange(start as int, to as int));
    }
    if start == to {
        return None;
    }
    let mut acc: u64 = 0;
    let mut k = start;
    while k < to
        invariant
            from <= start <= k <= to <= st@.len(),
            body_full == st@.subrange(from as int, to as int),
            body == (if body_full.len() > 0 && body_full[0] == '+' {
                body_full.drop_first()
            } else {
                body_full
            }),
            body == st@.subrange(start as int, to as int),
            body.len() > 0,
            acc <= u32::MAX,
            all_digits(body.take(k as int - start as int)),
            acc == digits_value(body.take(k as int - start as int)),
        decreases to - k,
    {
        let c = st.get_char(k);
        let u = c as u32;
        let ghost prefix = body.take(k as int - start as int);
        let ghost next = body.take(k as int - start as int + 1);
        proof {
            assert(next.drop_last() =~= prefix);
            assert(next.last() == st@[k as int]);
        }
        if u < 48 || u > 57 {
            proof {
                assert(body[k as int - start as int] == st@[k as int]);
                assert(!is_digit(body[k as int - start as int]));
                assert(!all_digits(body));
            }
            return None;
        }
        acc = acc * 10 + ((u - 48) as u64);
        k = k + 1;
        if acc > 0xffff_ffff {
            proof {
                if all_digits(body) {
                    lemma_digits_value_take(body, k as int - start as int);
                    assert(digits_value(body) > u32::MAX);
                }
            }
            return None;
        }
    }
    proof {
        assert(body.take(to as int - start as int) =~= body);
    }
    Some(acc as u32)
}

/// Reads a cash amount from operator input. A plain number is taken
/// as minor units; a number with one dot as dollars and cents, the
/// cents read from at most the first two characters after the dot;
/// anything else, or an amount too large to fit, is refused.
pub fn parse_cash_value(input_amount: String) -> (r: Result<u32, ()>)
    ensures
        r == match parse_cash_spec(input_amount@) {
            Some(v) => Ok::<u32, ()>(v),
            None => Err::<u32, ()>(()),
        },
{
    let st = input_amount.as_str();
    let len = st.unicode_len();
    let ghost s = input_amount@;
    let mut dots: usize = 0;
    let mut first_dot_idx: usize = 0;
    let mut i: usize = 0;
    proof {
        assert(s.take(0) =~= Seq::<char>::empty());
    }
    while i < len
        invariant
            i <= len,
            len == s.len(),
            st@ == s,
            dots as int == dot_count(s.take(i as int)),
            dots <= i,
            if dots == 0 {
                forall|j: int| 0 <= j < i ==> s[j] != '.'
            } else {
                &&& first_dot_idx < i
                &&& s[first_dot_idx as int] == '.'
                &&& forall|j: int| 0 <= j < first_dot_idx ==> s[j] != '.'
            },
        decreases len - i,
    {
        let c = st.get_char(i);
        let ghost next = s.take(i as int + 1);
        proof {
            assert(next.drop_last() =~= s.take(i as int));
            assert(next.last() == s[i as int]);
        }
        if c == '.' {
            if dots == 0 {
                first_dot_idx = i;
            }
            dots = dots + 1;
        }
        i = i + 1;
    }
    proof {
        assert(s.take(len as int) =~= s);
    }
    if dots == 0 {
        if len == 0 {
            proof {
                lemma_zero_chunk();
            }
            return Ok(0);
        }
        proof {
            assert(st@.subrange(0, len as int) =~= s);
        }
        match parse_u32_range(st, 0, len) {
            Some(v) => Ok(v),
            None => Err(()),
        }
    } else if dots == 1 {
        proof {
            lemma_first_dot_at(s, first_dot_idx as int);
        }
        let d = first_dot_idx;
        let dollars_opt = if d == 0 {
            proof {
                assert(s.take(0) =~= Seq::<char>::empty());
                lemma_zero_chunk();
            }
            Some(0u32)
        } else {
            proof {
                assert(st@.subrange(0, d as int) =~= s.take(d as int));
            }
            parse_u32_range(st, 0, d)
        };
        let cents_opt = if d + 1 == len {
            proof {
                assert(s.skip(d as int + 1) =~= Seq::<char>::empty());
                lemma_zero_chunk();
            }
            Some(0u32)
        } else {
            let hi = if len - (d + 1) <= 2 {
                len
            } else {
                d + 3
            };
            proof {
                let chunk = s.skip(d as int + 1);
                assert(chunk.len() > 0);
                if chunk.len() <= 2 {
                    assert(st@.subrange(d as int + 1, hi as int) =~= chunk);
                } else {
                    assert(st@.subrange(d as int + 1, hi as int) =~= chunk.take(2));
                }
            }
            parse_u32_range(st, d + 1, hi)
        };
        match (dollars_opt, cents_opt) {
            (Some(dv), Some(cv)) => match dv.checked_mul(100) {
                Some(m) => match m.checked_add(cv) {
                    Some(total) => Ok(total),
                    None => Err(()),
                },
                None => Err(()),
            },
            _ => Err(()),
        }
    } else {
        Err(())
    }
}

} // verus!
