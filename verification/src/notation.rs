//! Writing moves in coordinate notation, such as "e2e4".
use vstd::prelude::*;

verus! {

/// `String::push`: appends one character.
#[verifier::external_body]
pub(crate) fn push_char(s: &mut String, c: char)
    ensures
        final(s)@ == old(s)@.push(c),
{
    s.push(c);
}

pub open spec fn digit_char(d: nat) -> char {
    (48 + d) as char
}

/// The decimal digits of `n`, most significant first.
pub open spec fn decimal(n: nat) -> Seq<char>
    decreases n,
{
    if n < 10 { seq![digit_char(n)] } else { decimal(n / 10).push(digit_char(n % 10)) }
}

/// The letter of a file: `a` for 0 and on up the byte values.
pub open spec fn file_char(c: usize) -> char {
    (97 + (c as u8)) as char
}

fn push_decimal(s: &mut String, n: usize)
    ensures
        final(s)@ == old(s)@ + decimal(n as nat),
    decreases n,
{
    if n >= 10 {
        push_decimal(s, n / 10);
    }
    let d = (n % 10) as u8;
    let c = (48u8 + d) as char;
    let ghost before = s@;
    push_char(s, c);
    proof {
        if n >= 10 {
            assert(s@ =~= old(s)@ + decimal(n as nat));
        } else {
            assert(s@ =~= old(s)@ + decimal(n as nat));
        }
    }
}

/// The move in coordinate notation: file letter and rank number of `from`,
/// then of `to`.
pub fn as_square_str(from: (usize, usize), to: (usize, usize)) -> (s: String)
    requires
        (from.1 as u8) <= 158,
        (to.1 as u8) <= 158,
        from.0 < usize::MAX,
        to.0 < usize::MAX,
    ensures
        s@ == seq![file_char(from.1)] + decimal((from.0 + 1) as nat) + seq![file_char(to.1)] + decimal((to.0 + 1) as nat),
{
    let from_col = (97u8 + from.1 as u8) as char;
    let to_col = (97u8 + to.1 as u8) as char;
    let mut s = String::new();
    push_char(&mut s, from_col);
    push_decimal(&mut s, from.0 + 1);
    push_char(&mut s, to_col);
    push_decimal(&mut s, to.0 + 1);
    proof {
        assert(s@ =~= seq![file_char(from.1)] + decimal((from.0 + 1) as nat) + seq![file_char(to.1)] + decimal((to.0 + 1) as nat));
    }
    s
}

} // verus!
