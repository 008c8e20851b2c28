//! Integer helpers shared by the grid code: wrap-around remainders and the
//! coordinate pair used to name cells.

use vstd::prelude::*;
use vstd::arithmetic::div_mod::lemma_fundamental_div_mod;
use vstd::arithmetic::div_mod::lemma_fundamental_div_mod_converse;

verus! {

/// The remainder that `modulo` computes, over the mathematical integers.
///
/// For a positive modulus it is the least non-negative residue of `a`.
/// For a negative modulus it is the residue of `a` that lies in `(b, 0]`.
pub open spec fn modulo_spec(a: int, b: int) -> int {
    if b > 0 {
        a % b
    } else {
        -((-a) % (-b))
    }
}

/// The machine remainder of `a` by `b`: it carries the sign of `a` and its
/// magnitude is the remainder of the magnitudes.
pub open spec fn truncated_rem(a: int, b: int) -> int {
    let m = if b > 0 { b } else { -b };
    if a >= 0 {
        a % m
    } else {
        -((-a) % m)
    }
}

/// A remainder does not depend on the sign of the modulus.
pub proof fn lemma_rem_ignores_sign_of_modulus(x: int, m: int)
    requires
        m > 0,
    ensures
        x % (-m) == x % m,
{
    let q: int = x / (-m);
    let r: int = x % (-m);
    assert(x == (-m) * q + r && 0 <= r < m) by (nonlinear_arith)
        requires
            m > 0,
            q == x / (-m),
            r == x % (-m),
    ;
    assert(x == (-q) * m + r) by (nonlinear_arith)
        requires
            x == (-m) * q + r,
    ;
    lemma_fundamental_div_mod_converse(x, m, -q, r);
}

/// Adding a positive modulus to the machine remainder and reducing again
/// gives the least non-negative residue.
pub proof fn lemma_shifted_rem_is_residue(a: int, m: int)
    requires
        m > 0,
    ensures
        (truncated_rem(a, m) + m) % m == a % m,
        0 < truncated_rem(a, m) + m < 2 * m,
{
    let t = truncated_rem(a, m);
    if a >= 0 {
        lemma_fundamental_div_mod(a, m);
        lemma_fundamental_div_mod_converse(t + m, m, 1, t);
    } else {
        let r = (-a) % m;
        let q = (-a) / m;
        lemma_fundamental_div_mod(-a, m);
        assert(-a == m * q + r);
        if r == 0 {
            lemma_fundamental_div_mod_converse(t + m, m, 1, 0);
            assert(a == (-q) * m + 0) by (nonlinear_arith)
                requires
                    -a == m * q + r,
                    r == 0,
            ;
            lemma_fundamental_div_mod_converse(a, m, -q, 0);
        } else {
            lemma_fundamental_div_mod_converse(t + m, m, 0, t + m);
            assert(a == (-q - 1) * m + (m - r)) by (nonlinear_arith)
                requires
                    -a == m * q + r,
            ;
            lemma_fundamental_div_mod_converse(a, m, -q - 1, m - r);
        }
    }
}

/// `modulo` is the textbook wrap-around formula: take the machine remainder,
/// add the modulus, take the machine remainder again.
pub proof fn lemma_modulo_is_double_rem(a: int, b: int)
    requires
        b != 0,
    ensures
        modulo_spec(a, b) == truncated_rem(truncated_rem(a, b) + b, b),
{
    if b > 0 {
        lemma_shifted_rem_is_residue(a, b);
    } else {
        let m = -b;
        lemma_shifted_rem_is_residue(-a, m);
        if a == 0 {
            lemma_fundamental_div_mod_converse(0, m, 0, 0);
        }
        assert(truncated_rem(-a, m) == -truncated_rem(a, b));
    }
}

/// A grid coordinate.
#[derive(Clone, Copy, Debug, PartialEq, Eq, Structural, Hash)]
pub struct Point {
    pub x: i32,
    pub y: i32,
}

/// The character of a decimal digit.
pub open spec fn digit_char(d: int) -> char {
    if d == 0 {
        '0'
    } else if d == 1 {
        '1'
    } else if d == 2 {
        '2'
    } else if d == 3 {
        '3'
    } else if d == 4 {
        '4'
    } else if d == 5 {
        '5'
    } else if d == 6 {
        '6'
    } else if d == 7 {
        '7'
    } else if d == 8 {
        '8'
    } else {
        '9'
    }
}

/// The decimal digits of `n`, most significant first, without leading zeros.
pub open spec fn decimal_digits(n: nat) -> Seq<char>
    decreases n,
{
    if n < 10 {
        seq![digit_char(n as int)]
    } else {
        decimal_digits(n / 10).push(digit_char((n % 10) as int))
    }
}

/// `v` in decimal, with a minus sign if it is negative.
pub open spec fn decimal(v: int) -> Seq<char> {
    if v < 0 {
        seq!['-'] + decimal_digits((-v) as nat)
    } else {
        decimal_digits(v as nat)
    }
}

/// How a point is written out: `Point(x, y)`.
pub open spec fn label_spec(p: Point) -> Seq<char> {
    seq!['P', 'o', 'i', 'n', 't', '('] + decimal(p.x as int) + seq![',', ' '] + decimal(p.y as int)
        + seq![')']
}

/// The character of the decimal digit `d`.
fn digit(d: u32) -> (c: char)
    requires
        d < 10,
    ensures
        c == digit_char(d as int),
{
    if d == 0 {
        '0'
    } else if d == 1 {
        '1'
    } else if d == 2 {
        '2'
    } else if d == 3 {
        '3'
    } else if d == 4 {
        '4'
    } else if d == 5 {
        '5'
    } else if d == 6 {
        '6'
    } else if d == 7 {
        '7'
    } else if d == 8 {
        '8'
    } else {
        '9'
    }
}

/// Append the decimal digits of `n` to `out`.
fn push_digits(out: &mut Vec<char>, n: u32)
    ensures
        final(out)@ == old(out)@ + decimal_digits(n as nat),
    decreases n,
{
    if n >= 10 {
        push_digits(out, n / 10);
    }
    out.push(digit(n % 10));
}

/// Append `v` in decimal to `out`.
fn push_decimal(out: &mut Vec<char>, v: i32)
    ensures
        final(out)@ == old(out)@ + decimal(v as int),
{
    if v < 0 {
        out.push('-');
        push_digits(out, (-(v as i64)) as u32);
    } else {
        push_digits(out, v as u32);
    }
}

impl Point {
    /// The point written out as `Point(x, y)`.
    pub fn label(&self) -> (text: Vec<char>)
        ensures
            text@ == label_spec(*self),
    {
        let mut text: Vec<char> = Vec::new();
        text.push('P');
        text.push('o');
        text.push('i');
        text.push('n');
        text.push('t');
        text.push('(');
        push_decimal(&mut text, self.x);
        text.push(',');
        text.push(' ');
        push_decimal(&mut text, self.y);
        text.push(')');
        text
    }
}

/// Wrap `a` into the range of residues of `b`.
pub fn modulo(a: i32, b: i32) -> (r: i32)
    requires
        b != 0,
    ensures
        r == modulo_spec(a as int, b as int),
{
    let wide_a: i64 = a as i64;
    let wide_b: i64 = b as i64;
    let first: i64 = wide_a % wide_b;
    proof {
        if b > 0 {
            lemma_shifted_rem_is_residue(a as int, b as int);
        } else {
            lemma_rem_ignores_sign_of_modulus(a as int, -(b as int));
            lemma_rem_ignores_sign_of_modulus(-(a as int), -(b as int));
            lemma_shifted_rem_is_residue(-(a as int), -(b as int));
            lemma_rem_ignores_sign_of_modulus(-(first + b), -(b as int));
        }
        assert(first == truncated_rem(a as int, b as int));
        lemma_modulo_is_double_rem(a as int, b as int);
    }
    let second: i64 = (first + wide_b) % wide_b;
    assert(second == truncated_rem(first + b, b as int));
    second as i32
}

/// Wrap a wide coordinate into `[0, n)`.
pub fn wrap(a: i64, n: i32) -> (r: i32)
    requires
        n > 0,
    ensures
        r == modulo_spec(a as int, n as int),
        0 <= r < n,
{
    let wide_n: i64 = n as i64;
    let first: i64 = a % wide_n;
    proof {
        lemma_shifted_rem_is_residue(a as int, n as int);
    }
    let second: i64 = (first + wide_n) % wide_n;
    second as i32
}

} // verus!
