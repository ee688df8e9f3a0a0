//! Characters, decimal rendering, and the ordinal-prefix scheme that names
//! every card instance and face.

use vstd::prelude::*;
use vstd::string::StrSliceExecFns;
use vstd::string::StringExecFns;

verus! {

/// Unicode white space: the separator of the decklist grammar, and the set
/// that name trimming goes by.
pub open spec fn is_space(c: char) -> bool {
    ||| c == ' '
    ||| c == '\t'
    ||| c == '\n'
    ||| c == '\u{b}'
    ||| c == '\u{c}'
    ||| c == '\r'
    ||| c == '\u{85}'
    ||| c == '\u{a0}'
    ||| c == '\u{1680}'
    ||| ('\u{2000}' as u32 <= c as u32 && c as u32 <= '\u{200a}' as u32)
    ||| c == '\u{2028}'
    ||| c == '\u{2029}'
    ||| c == '\u{202f}'
    ||| c == '\u{205f}'
    ||| c == '\u{3000}'
}

pub fn space_char(c: char) -> (r: bool)
    ensures
        r == is_space(c),
{
    c == ' ' || c == '\t' || c == '\n' || c == '\u{b}' || c == '\u{c}' || c == '\r'
        || c == '\u{85}' || c == '\u{a0}' || c == '\u{1680}'
        || ('\u{2000}' as u32 <= c as u32 && c as u32 <= '\u{200a}' as u32) || c == '\u{2028}'
        || c == '\u{2029}' || c == '\u{202f}' || c == '\u{205f}' || c == '\u{3000}'
}

pub open spec fn is_digit(c: char) -> bool {
    '0' as u32 <= c as u32 && c as u32 <= '9' as u32
}

pub fn digit_char(c: char) -> (r: bool)
    ensures
        r == is_digit(c),
{
    '0' as u32 <= c as u32 && c as u32 <= '9' as u32
}

/// The numeric value of one decimal digit character.
pub open spec fn digit_val(c: char) -> nat
    recommends
        is_digit(c),
{
    (c as u32 - '0' as u32) as nat
}

/// The numeric value of a run of decimal digit characters, most significant
/// first.
pub open spec fn dec_val(s: Seq<char>) -> nat
    decreases s.len(),
{
    if s.len() == 0 {
        0
    } else {
        dec_val(s.drop_last()) * 10 + digit_val(s.last())
    }
}

/// The decimal digit character for a value below ten.
pub open spec fn digit_of(d: nat) -> char {
    if d == 0 {
        '0'
    } else if d == 1 {
        '1'
    } else if d == 2 {
        '2'
    } else if d == 3 {
        '3'
    } else if d == 4 {
        '4'
    } else if d == 5 {
        '5'
    } else if d == 6 {
        '6'
    } else if d == 7 {
        '7'
    } else if d == 8 {
        '8'
    } else {
        '9'
    }
}

/// The decimal rendering of a number, without padding; most significant
/// digit first, no leading zeroes but for the number zero itself.
pub open spec fn dec(n: nat) -> Seq<char>
    decreases n,
{
    if n < 10 {
        seq![digit_of(n)]
    } else {
        dec(n / 10).push(digit_of(n % 10))
    }
}

/// Zero-padding on the left up to width `w`; a longer rendering stands as
/// it is.
pub open spec fn pad(s: Seq<char>, w: nat) -> Seq<char> {
    if s.len() >= w {
        s
    } else {
        Seq::new((w - s.len()) as nat, |i: int| '0') + s
    }
}

/// The three-digit ordinal prefix of a card instance.
pub open spec fn ordinal_prefix(n: nat) -> Seq<char> {
    pad(dec(n), 3)
}

/// The prefix of one face of a multi-faced card: the instance's ordinal
/// prefix, an underscore, and the two-digit face index.
pub open spec fn face_prefix(p: Seq<char>, i: nat) -> Seq<char> {
    p + seq!['_'] + pad(dec(i), 2)
}

/// Relies on `String::push`: appends the given character to the end of the
/// string.
#[verifier::external_body]
pub(crate) fn push_char(s: &mut String, c: char)
    ensures
        final(s)@ == old(s)@.push(c),
{
    s.push(c);
}

/// Builds a `String` out of a character vector.
pub fn chars_string(v: &Vec<char>) -> (r: String)
    ensures
        r@ == v@,
{
    let mut r = String::new();
    let mut i: usize = 0;
    while i < v.len()
        invariant
            i <= v@.len(),
            r@ == v@.take(i as int),
        decreases v@.len() - i,
    {
        push_char(&mut r, v[i]);
        proof {
            assert(v@.take(i as int).push(v@[i as int]) =~= v@.take(i + 1));
        }
        i = i + 1;
    }
    proof {
        assert(v@.take(v@.len() as int) =~= v@);
    }
    r
}

/// Collects the characters of a string slice into a vector.
pub fn str_chars(s: &str) -> (v: Vec<char>)
    ensures
        v@ == s@,
{
    let n = s.unicode_len();
    let mut v: Vec<char> = Vec::new();
    let mut i: usize = 0;
    while i < n
        invariant
            n == s@.len(),
            i <= n,
            v@ == s@.take(i as int),
        decreases n - i,
    {
        v.push(s.get_char(i));
        proof {
            assert(s@.take(i as int).push(s@[i as int]) =~= s@.take(i + 1));
        }
        i = i + 1;
    }
    proof {
        assert(s@.take(n as int) =~= s@);
    }
    v
}

fn digit(d: usize) -> (c: char)
    requires
        d < 10,
    ensures
        c == digit_of(d as nat),
{
    if d == 0 {
        '0'
    } else if d == 1 {
        '1'
    } else if d == 2 {
        '2'
    } else if d == 3 {
        '3'
    } else if d == 4 {
        '4'
    } else if d == 5 {
        '5'
    } else if d == 6 {
        '6'
    } else if d == 7 {
        '7'
    } else if d == 8 {
        '8'
    } else {
        '9'
    }
}

/// Appends the decimal rendering of `n` to `out`.
fn push_decimal(n: usize, out: &mut Vec<char>)
    ensures
        final(out)@ == old(out)@ + dec(n as nat),
    decreases n,
{
    if n < 10 {
        out.push(digit(n));
        proof {
            assert(old(out)@.push(digit_of(n as nat)) =~= old(out)@ + dec(n as nat));
        }
    } else {
        assert(n / 10 < n) by (nonlinear_arith)
            requires
                10 <= n,
        ;
        push_decimal(n / 10, out);
        out.push(digit(n % 10));
        proof {
            assert((old(out)@ + dec(n as nat / 10)).push(digit_of(n as nat % 10)) =~= old(out)@
                + dec(n as nat));
        }
    }
}

/// Renders `n` in decimal, zero-padded on the left to at least `w`
/// characters.
pub fn format_padded(n: usize, w: usize) -> (r: String)
    ensures
        r@ == pad(dec(n as nat), w as nat),
{
    let mut digits: Vec<char> = Vec::new();
    push_decimal(n, &mut digits);
    proof {
        assert(digits@ =~= dec(n as nat));
    }
    let len = digits.len();
    let mut out: Vec<char> = Vec::new();
    let mut k: usize = len;
    while k < w
        invariant
            len <= k,
            k <= len || k <= w,
            out@ =~= Seq::new((k - len) as nat, |i: int| '0'),
        decreases w - k,
    {
        out.push('0');
        proof {
            assert(out@ =~= Seq::new((k + 1 - len) as nat, |i: int| '0'));
        }
        k = k + 1;
    }
    let mut i: usize = 0;
    let ghost zeroes = out@;
    while i < digits.len()
        invariant
            i <= digits@.len(),
            out@ == zeroes + digits@.take(i as int),
        decreases digits@.len() - i,
    {
        out.push(digits[i]);
        proof {
            assert(zeroes + digits@.take(i as int).push(digits@[i as int]) =~= zeroes
                + digits@.take(i + 1));
        }
        i = i + 1;
    }
    proof {
        assert(digits@.take(digits@.len() as int) =~= digits@);
        if len >= w {
            assert(zeroes =~= Seq::<char>::empty());
            assert(out@ =~= pad(dec(n as nat), w as nat));
        } else {
            assert(out@ =~= pad(dec(n as nat), w as nat));
        }
    }
    chars_string(&out)
}

/// The three-digit ordinal prefix, as a string.
pub fn format_ordinal(n: usize) -> (r: String)
    ensures
        r@ == ordinal_prefix(n as nat),
{
    format_padded(n, 3)
}

/// The per-face file prefix of a multi-faced card.
pub fn format_face_prefix(prefix: &str, index: usize) -> (r: String)
    ensures
        r@ == face_prefix(prefix@, index as nat),
{
    let mut r = prefix.to_owned();
    r.append("_");
    let suffix = format_padded(index, 2);
    r.append(suffix.as_str());
    proof {
        reveal_strlit("_");
        assert("_"@ =~= seq!['_']);
        assert((prefix@ + "_"@) + suffix@ =~= face_prefix(prefix@, index as nat));
    }
    r
}

} // verus!
