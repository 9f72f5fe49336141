use vstd::prelude::*;
use vstd::string::StringExecFns;

verus! {

/// The character of one decimal digit.
pub open spec fn digit_char(d: int) -> char {
    if d == 0 {
        '0'
    } else if d == 1 {
        '1'
    } else if d == 2 {
        '2'
    } else if d == 3 {
        '3'
    } else if d == 4 {
        '4'
    } else if d == 5 {
        '5'
    } else if d == 6 {
        '6'
    } else if d == 7 {
        '7'
    } else if d == 8 {
        '8'
    } else {
        '9'
    }
}

/// The decimal digits of a non-negative number, most significant first.
pub open spec fn dec_digits(n: nat) -> Seq<char>
    decreases n,
{
    if n < 10 {
        seq![digit_char(n as int)]
    } else {
        dec_digits(n / 10) + seq![digit_char((n % 10) as int)]
    }
}

/// The decimal text of a signed number: the digits, after a minus sign when
/// it is negative.
pub open spec fn int_text(n: int) -> Seq<char> {
    if n < 0 {
        seq!['-'] + dec_digits((-n) as nat)
    } else {
        dec_digits(n as nat)
    }
}

/// The score line shown during play: the points scored, and the win score
/// after a separator when one is configured.
pub open spec fn points_text(point_counter: i32, point_target: Option<i32>) -> Seq<char> {
    match point_target {
        Some(t) => int_text(point_counter as int) + " / "@ + int_text(t as int),
        None => int_text(point_counter as int),
    }
}

/// Appends the character of one decimal digit.
fn push_digit(s: &mut String, d: u32)
    requires
        d < 10,
    ensures
        final(s)@ == old(s)@ + seq![digit_char(d as int)],
{
    if d == 0 {
        s.append("0");
        proof {
            reveal_strlit("0");
            assert(s@ =~= old(s)@ + seq![digit_char(d as int)]);
        }
    } else if d == 1 {
        s.append("1");
        proof {
            reveal_strlit("1");
            assert(s@ =~= old(s)@ + seq![digit_char(d as int)]);
        }
    } else if d == 2 {
        s.append("2");
        proof {
            reveal_strlit("2");
            assert(s@ =~= old(s)@ + seq![digit_char(d as int)]);
        }
    } else if d == 3 {
        s.append("3");
        proof {
            reveal_strlit("3");
            assert(s@ =~= old(s)@ + seq![digit_char(d as int)]);
        }
    } else if d == 4 {
        s.append("4");
        proof {
            reveal_strlit("4");
            assert(s@ =~= old(s)@ + seq![digit_char(d as int)]);
        }
    } else if d == 5 {
        s.append("5");
        proof {
            reveal_strlit("5");
            assert(s@ =~= old(s)@ + seq![digit_char(d as int)]);
        }
    } else if d == 6 {
        s.append("6");
        proof {
            reveal_strlit("6");
            assert(s@ =~= old(s)@ + seq![digit_char(d as int)]);
        }
    } else if d == 7 {
        s.append("7");
        proof {
            reveal_strlit("7");
            assert(s@ =~= old(s)@ + seq![digit_char(d as int)]);
        }
    } else if d == 8 {
        s.append("8");
        proof {
            reveal_strlit("8");
            assert(s@ =~= old(s)@ + seq![digit_char(d as int)]);
        }
    } else {
        s.append("9");
        proof {
            reveal_strlit("9");
            assert(s@ =~= old(s)@ + seq![digit_char(d as int)]);
        }
    }
}

/// Appends the decimal digits of a non-negative number.
fn push_dec_digits(s: &mut String, n: u32)
    ensures
        final(s)@ == old(s)@ + dec_digits(n as nat),
    decreases n,
{
    if n >= 10 {
        push_dec_digits(s, n / 10);
    }
    push_digit(s, n % 10);
    proof {
        if n < 10 {
            assert(n % 10 == n);
            assert(s@ =~= old(s)@ + dec_digits(n as nat));
        } else {
            assert(s@ =~= old(s)@ + dec_digits(n as nat));
        }
    }
}

/// Appends the decimal text of a signed number.
fn push_int(s: &mut String, n: i32)
    ensures
        final(s)@ == old(s)@ + int_text(n as int),
{
    if n < 0 {
        s.append("-");
        let m = (-(n as i64)) as u32;
        push_dec_digits(s, m);
        proof {
            reveal_strlit("-");
            assert("-"@ =~= seq!['-']);
            assert(s@ =~= old(s)@ + int_text(n as int));
        }
    } else {
        push_dec_digits(s, n as u32);
    }
}

/// Formats the score line shown during play: the points scored, and
/// `points / target` when a win score is configured.
pub fn format_points(point_counter: i32, point_target: Option<i32>) -> (r: String)
    ensures
        r@ == points_text(point_counter, point_target),
{
    let mut s = String::new();
    push_int(&mut s, point_counter);
    if let Some(t) = point_target {
        s.append(" / ");
        push_int(&mut s, t);
        proof {
            assert(s@ =~= points_text(point_counter, point_target));
        }
    }
    s
}

} // verus!
