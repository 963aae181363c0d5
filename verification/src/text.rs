//! Small text utilities the rest of the library builds on: comparing string
//! slices, reading a string's characters, and writing decimal and hex
//! numbers the way Rust's formatter does.

use vstd::prelude::*;

verus! {

/// Appends one character to a `String`.
///
/// Trusted: calls `String::push`, whose documentation says it appends the
/// given `char` to the end of the string; the contract states exactly that.
#[verifier::external_body]
pub fn push_char(s: &mut String, c: char)
    ensures
        final(s)@ == old(s)@.push(c),
{
    s.push(c);
}

/// Whether two string slices hold the same characters.
pub fn str_eq(a: &str, b: &str) -> (r: bool)
    ensures
        r == (a@ == b@),
{
    let x = a.to_owned();
    let y = b.to_owned();
    x == y
}

/// The characters of a string slice, in order.
pub fn chars_of(s: &str) -> (v: Vec<char>)
    ensures
        v@ == s@,
{
    let mut v: Vec<char> = Vec::new();
    for c in it: s.chars()
        invariant
            it.seq() == s@,
            v@ == it.seq().take(it.index()),
        ensures
            v@ == s@,
    {
        proof {
            assert(it.seq().take(it.index() + 1) =~= it.seq().take(it.index()).push(c));
        }
        v.push(c);
    }
    v
}


/// Appends a string slice to a `String`.
pub fn push_str(s: &mut String, t: &str)
    ensures
        final(s)@ == old(s)@ + t@,
{
    s.append(t);
}

/// Appends characters to a `String`.
pub fn push_chars(s: &mut String, v: &[char])
    ensures
        final(s)@ == old(s)@ + v@,
{
    let ghost start = s@;
    let mut i: usize = 0;
    while i < v.len()
        invariant
            i <= v.len(),
            s@ == start + v@.take(i as int),
        decreases v.len() - i,
    {
        push_char(s, v[i]);
        proof {
            assert(v@.take(i + 1) =~= v@.take(i as int).push(v@[i as int]));
            assert(start + v@.take(i + 1) =~= (start + v@.take(i as int)).push(v@[i as int]));
        }
        i += 1;
    }
    proof {
        assert(v@.take(i as int) =~= v@);
    }
}

/// The character of a digit in bases up to sixteen, upper case.
pub open spec fn digit_char(d: nat) -> char {
    seq!['0', '1', '2', '3', '4', '5', '6', '7', '8', '9', 'A', 'B', 'C', 'D', 'E', 'F'][d as int]
}

/// The digits of `n` in `base`, most significant first, with no leading
/// zeros (zero itself is one digit).
pub open spec fn digits(n: nat, base: nat) -> Seq<char>
    recommends
        2 <= base <= 16,
    decreases n,
{
    if base < 2 || n < base {
        seq![digit_char(n % 16)]
    } else {
        proof {
            assert(n / base < n) by (nonlinear_arith)
                requires
                    base >= 2,
                    n >= base,
            ;
        }
        digits(n / base, base).push(digit_char(n % base))
    }
}

/// `n` in decimal, as `{}` formats it.
pub open spec fn decimal(n: nat) -> Seq<char> {
    digits(n, 10)
}

/// `n` in upper-case hexadecimal, as `{:X}` formats it.
pub open spec fn hex_upper(n: nat) -> Seq<char> {
    digits(n, 16)
}

/// `c` repeated `k` times.
pub open spec fn repeat(c: char, k: nat) -> Seq<char> {
    Seq::new(k, |i: int| c)
}

/// `s` right-aligned in a field of `width`, filled on the left with `fill`.
pub open spec fn pad_left(s: Seq<char>, width: nat, fill: char) -> Seq<char> {
    if s.len() >= width {
        s
    } else {
        repeat(fill, (width - s.len()) as nat) + s
    }
}

/// `s` left-aligned in a field of `width`, filled on the right with spaces.
pub open spec fn pad_right(s: Seq<char>, width: nat) -> Seq<char> {
    if s.len() >= width {
        s
    } else {
        s + repeat(' ', (width - s.len()) as nat)
    }
}

fn digit_of(d: u64) -> (c: char)
    requires
        d < 16,
    ensures
        c == digit_char(d as nat),
{
    let table = ['0', '1', '2', '3', '4', '5', '6', '7', '8', '9', 'A', 'B', 'C', 'D', 'E', 'F'];
    assert(table@ =~= seq!['0', '1', '2', '3', '4', '5', '6', '7', '8', '9', 'A', 'B', 'C', 'D', 'E', 'F']);
    table[d as usize]
}

fn push_digits(v: &mut Vec<char>, n: u64, base: u64)
    requires
        2 <= base <= 16,
    ensures
        final(v)@ == old(v)@ + digits(n as nat, base as nat),
    decreases n,
{
    if n < base {
        v.push(digit_of(n));
        proof {
            assert(n % 16 == n);
        }
    } else {
        assert(n / base < n) by (nonlinear_arith)
            requires
                base >= 2,
                n >= base,
        ;
        push_digits(v, n / base, base);
        v.push(digit_of(n % base));
    }
}

/// The decimal digits of `n`.
pub fn decimal_chars(n: u64) -> (v: Vec<char>)
    ensures
        v@ == decimal(n as nat),
{
    let mut v = Vec::new();
    push_digits(&mut v, n, 10);
    assert(v@ =~= decimal(n as nat));
    v
}

/// The upper-case hexadecimal digits of `n`.
pub fn hex_chars(n: u64) -> (v: Vec<char>)
    ensures
        v@ == hex_upper(n as nat),
{
    let mut v = Vec::new();
    push_digits(&mut v, n, 16);
    assert(v@ =~= hex_upper(n as nat));
    v
}

fn push_repeat(s: &mut String, c: char, k: usize)
    ensures
        final(s)@ == old(s)@ + repeat(c, k as nat),
{
    let ghost start = s@;
    let mut i: usize = 0;
    while i < k
        invariant
            i <= k,
            s@ == start + repeat(c, i as nat),
        decreases k - i,
    {
        push_char(s, c);
        proof {
            assert(start + repeat(c, (i + 1) as nat) =~= (start + repeat(c, i as nat)).push(c));
        }
        i += 1;
    }
}

/// Appends `v` right-aligned in a field of `width` filled with `fill`.
pub fn push_pad_left(s: &mut String, v: &[char], width: usize, fill: char)
    ensures
        final(s)@ == old(s)@ + pad_left(v@, width as nat, fill),
{
    let ghost start = s@;
    if v.len() < width {
        push_repeat(s, fill, width - v.len());
    }
    push_chars(s, v);
    proof {
        if v.len() < width {
            assert(start + repeat(fill, (width - v.len()) as nat) + v@ =~= start + pad_left(v@, width as nat, fill));
        }
    }
}

/// Appends `v` left-aligned in a field of `width` filled with spaces.
pub fn push_pad_right(s: &mut String, v: &[char], width: usize)
    ensures
        final(s)@ == old(s)@ + pad_right(v@, width as nat),
{
    let ghost start = s@;
    push_chars(s, v);
    if v.len() < width {
        push_repeat(s, ' ', width - v.len());
    }
    proof {
        if v.len() < width {
            assert(start + v@ + repeat(' ', (width - v.len()) as nat) =~= start + pad_right(v@, width as nat));
        }
    }
}

} // verus!
