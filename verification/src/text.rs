//! Text building: decimal and hexadecimal numerals and their exact spelling.

use vstd::prelude::*;
use vstd::string::StringExecFns;

verus! {

/// `String::push`, of the standard library: appends one character.
pub assume_specification[ String::push ](s: &mut String, c: char)
    ensures
        final(s)@ == old(s)@.push(c),
;

/// The character for digit `d` in a base of at most sixteen.
pub open spec fn digit(d: int) -> char {
    if d < 10 {
        (d + 0x30) as char
    } else {
        (d + 0x57) as char
    }
}

/// The numeral of `n` in `base`, with at least `width` digits (zero-padded on the left).
pub open spec fn numeral(n: nat, base: nat, width: nat) -> Seq<char>
    decreases n, width,
{
    if base < 2 {
        Seq::empty()
    } else if n < base && width <= 1 {
        seq![digit(n as int)]
    } else {
        proof {
            assert(n >= base ==> n / base < n) by (nonlinear_arith)
                requires
                    base >= 2,
            ;
            assert(n < base ==> n / base == 0) by (nonlinear_arith)
                requires
                    base >= 2,
            ;
        }
        numeral(
            n / base,
            base,
            if width == 0 {
                0
            } else {
                (width - 1) as nat
            },
        ).push(digit((n % base) as int))
    }
}

/// `n` in decimal.
pub open spec fn dec(n: nat) -> Seq<char> {
    numeral(n, 10, 1)
}

/// `n` in decimal with a leading minus sign when negative.
pub open spec fn int_text(n: int) -> Seq<char> {
    if n < 0 {
        seq!['-'] + dec((-n) as nat)
    } else {
        dec(n as nat)
    }
}

/// `n` in lower-case hexadecimal without prefix or padding.
pub open spec fn hex(n: nat) -> Seq<char> {
    numeral(n, 16, 1)
}

/// `n` in lower-case hexadecimal, zero-padded to `width` digits.
pub open spec fn hex_pad(n: nat, width: nat) -> Seq<char> {
    numeral(n, 16, width)
}

/// `n` as `0x` and eight hexadecimal digits.
pub open spec fn hex8(n: nat) -> Seq<char> {
    seq!['0', 'x'] + hex_pad(n, 8)
}

/// What a digit stands for: 0 to 9, then a to f.
pub open spec fn digit_value(c: char) -> int {
    if '0' <= c <= '9' {
        c as int - 48
    } else {
        c as int - 97 + 10
    }
}

/// What a numeral stands for.
pub open spec fn numeral_value(s: Seq<char>, base: int) -> int
    decreases s.len(),
{
    if s.len() == 0 {
        0
    } else {
        base * numeral_value(s.drop_last(), base) + digit_value(s.last())
    }
}

/// A numeral stands for its number: read in its base it gives the number back, all its digits are
/// below the base, it has at least the digits asked for, and where it has more it does not start with
/// a zero.
pub proof fn numerals_read_back(n: nat, base: nat, width: nat)
    requires
        2 <= base <= 16,
    ensures
        ({
            let s = numeral(n, base, width);
            &&& numeral_value(s, base as int) == n
            &&& s.len() >= 1
            &&& s.len() >= width
            &&& s.len() > width && s.len() > 1 ==> s[0] != '0'
            &&& forall|i: int|
                0 <= i < s.len() ==> ('0' <= #[trigger] s[i] <= '9' || 'a' <= s[i] <= 'f')
                    && digit_value(s[i]) < base
        }),
    decreases n, width,
{
    let s = numeral(n, base, width);
    if n < base && width <= 1 {
        assert(s.drop_last() =~= Seq::<char>::empty());
        assert(numeral_value(s.drop_last(), base as int) == 0);
        assert(base * numeral_value(s.drop_last(), base as int) == 0) by (nonlinear_arith)
            requires
                numeral_value(s.drop_last(), base as int) == 0,
        ;
    } else {
        let w: nat = if width == 0 {
            0
        } else {
            (width - 1) as nat
        };
        assert(n >= base ==> n / base < n) by (nonlinear_arith)
            requires
                base >= 2,
        ;
        assert(n < base ==> n / base == 0) by (nonlinear_arith)
            requires
                base >= 2,
        ;
        assert(n >= base ==> n / base >= 1) by (nonlinear_arith)
            requires
                base >= 2,
        ;
        numerals_read_back(n / base, base, w);
        let t = numeral(n / base, base, w);
        let d = (n % base) as int;
        vstd::arithmetic::div_mod::lemma_fundamental_div_mod(n as int, base as int);
        assert(0 <= d < base);
        assert(s == t.push(digit(d)));
        assert(s.drop_last() =~= t);
        if s.len() > width && s.len() > 1 {
            assert(t.len() > w);
            if t.len() == 1 {
                // A single digit in front of another is not zero.
                if n < base {
                    assert(w >= 1);
                } else {
                    single_digit(n / base, base, w);
                }
            }
        }
        assert forall|i: int| 0 <= i < s.len() implies ('0' <= #[trigger] s[i] <= '9' || 'a' <= s[i]
            <= 'f') && digit_value(s[i]) < base by {
            if i < t.len() {
                assert(s[i] == t[i]);
            }
        }
    }
}

proof fn single_digit(n: nat, base: nat, width: nat)
    requires
        2 <= base <= 16,
        n >= 1,
        numeral(n, base, width).len() == 1,
    ensures
        numeral(n, base, width)[0] != '0',
{
    if !(n < base && width <= 1) {
        let w: nat = if width == 0 {
            0
        } else {
            (width - 1) as nat
        };
        assert(n >= base ==> n / base < n) by (nonlinear_arith)
            requires
                base >= 2,
        ;
        numerals_have_digits(n / base, base, w);
    }
}

proof fn numerals_have_digits(n: nat, base: nat, width: nat)
    requires
        2 <= base,
    ensures
        numeral(n, base, width).len() >= 1,
{
}

/// A negative number is a minus sign and the numeral of its absolute value; the numeral with a prefix
/// is `0x` and at least eight hexadecimal digits.
pub proof fn signs_and_prefixes(n: int)
    ensures
        n >= 0 ==> int_text(n) == numeral(n as nat, 10, 1),
        n < 0 ==> int_text(n) == seq!['-'] + numeral((-n) as nat, 10, 1),
        n >= 0 ==> hex8(n as nat) == seq!['0', 'x'] + numeral(n as nat, 16, 8),
        n >= 0 ==> dec(n as nat) == numeral(n as nat, 10, 1) && hex(n as nat) == numeral(
            n as nat,
            16,
            1,
        ),
        forall|w: nat| n >= 0 ==> #[trigger] hex_pad(n as nat, w) == numeral(n as nat, 16, w),
{
}

/// Whether `part` stands somewhere in `whole`.
pub open spec fn within(part: Seq<char>, whole: Seq<char>) -> bool {
    exists|a: Seq<char>, b: Seq<char>| whole == #[trigger] (a + part + b)
}

/// A text stands in itself, and what stands in a text stands in whatever holds that text.
pub proof fn within_longer(part: Seq<char>, whole: Seq<char>, before: Seq<char>, behind: Seq<char>)
    requires
        part == whole || within(part, whole),
    ensures
        within(part, before + whole + behind),
        within(part, before + whole),
        within(part, whole + behind),
        within(part, whole),
{
    let e = Seq::<char>::empty();
    let (a, b) = if part == whole {
        (e, e)
    } else {
        choose|a: Seq<char>, b: Seq<char>| whole == #[trigger] (a + part + b)
    };
    assert(whole =~= a + part + b);
    assert(before + whole + behind =~= (before + a) + part + (b + behind));
    assert(before + whole =~= (before + a) + part + b);
    assert(whole + behind =~= a + part + (b + behind));
}

/// What stands in a text that stands in another stands in that other.
pub proof fn within_transitive(part: Seq<char>, middle: Seq<char>, whole: Seq<char>)
    requires
        within(part, middle),
        within(middle, whole),
    ensures
        within(part, whole),
{
    let (a, b) = choose|a: Seq<char>, b: Seq<char>| whole == #[trigger] (a + middle + b);
    within_longer(part, middle, a, b);
}

/// The character for digit `d`.
fn digit_char(d: u64) -> (c: char)
    requires
        d < 16,
    ensures
        c == digit(d as int),
{
    if d < 10 {
        (d as u8 + 0x30) as char
    } else {
        (d as u8 + 0x57) as char
    }
}

/// Appends the numeral of `n` in `base`, zero-padded to `width` digits.
pub fn push_numeral(out: &mut String, n: u64, base: u64, width: u64)
    requires
        2 <= base <= 16,
    ensures
        final(out)@ == old(out)@ + numeral(n as nat, base as nat, width as nat),
    decreases n, width,
{
    if n < base && width <= 1 {
        out.push(digit_char(n));
        assert(out@ =~= old(out)@ + numeral(n as nat, base as nat, width as nat));
    } else {
        let w: u64 = if width == 0 {
            0
        } else {
            width - 1
        };
        assert(n >= base ==> n / base < n) by (nonlinear_arith)
            requires
                base >= 2,
                n >= 0,
        ;
        assert(n < base ==> n / base == 0) by (nonlinear_arith)
            requires
                base >= 2,
                n >= 0,
        ;
        push_numeral(out, n / base, base, w);
        out.push(digit_char(n % base));
        assert(out@ =~= old(out)@ + numeral(n as nat, base as nat, width as nat));
    }
}

/// Appends `n` in decimal.
pub fn push_dec(out: &mut String, n: u64)
    ensures
        final(out)@ == old(out)@ + dec(n as nat),
{
    push_numeral(out, n, 10, 1);
}

/// Appends `n` in decimal, with its sign when negative.
pub fn push_int(out: &mut String, n: i32)
    ensures
        final(out)@ == old(out)@ + int_text(n as int),
{
    if n < 0 {
        out.push('-');
        let m: i64 = -(n as i64);
        push_numeral(out, m as u64, 10, 1);
        assert(out@ =~= old(out)@ + int_text(n as int));
    } else {
        push_numeral(out, n as u64, 10, 1);
    }
}

/// Appends `n` in hexadecimal without padding.
pub fn push_hex(out: &mut String, n: u32)
    ensures
        final(out)@ == old(out)@ + hex(n as nat),
{
    push_numeral(out, n as u64, 16, 1);
}

/// Appends `n` as `0x` and eight hexadecimal digits.
pub fn push_hex8(out: &mut String, n: u32)
    ensures
        final(out)@ == old(out)@ + hex8(n as nat),
{
    out.push('0');
    out.push('x');
    push_numeral(out, n as u64, 16, 8);
    assert(out@ =~= old(out)@ + hex8(n as nat));
}

/// Appends a string.
pub fn push_text(out: &mut String, s: &str)
    ensures
        final(out)@ == old(out)@ + s@,
{
    out.append(s);
}

/// `core::str::from_utf8`, of the standard library: the bytes as text, if and only if they
/// are valid UTF-8.
#[verifier::external_body]
pub(crate) fn utf8_text(bytes: &[u8]) -> (s: Option<&str>)
    ensures
        s is Some <==> vstd::utf8::valid_utf8(bytes@),
        s is Some ==> s->0@ == vstd::utf8::decode_utf8(bytes@),
{
    core::str::from_utf8(bytes).ok()
}

} // verus!
