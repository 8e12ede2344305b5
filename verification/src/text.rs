use vstd::prelude::*;

verus! {

/// std's `String::push`: appends `c` to `s`.
#[verifier::external_body]
pub(crate) fn push_char(s: &mut String, c: char)
    ensures
        final(s)@ == old(s)@.push(c),
{
    s.push(c);
}

/// What unicode-width's `UnicodeWidthStr::width` gives for a string: its
/// width in columns on a terminal.
pub uninterp spec fn display_width(s: Seq<char>) -> usize;

/// unicode-width's `UnicodeWidthStr::width`: the displayed width of `s`,
/// which is a function of the text alone; nothing more is claimed of it.
#[verifier::external_body]
pub(crate) fn str_display_width(s: &str) -> (r: usize)
    ensures
        r == display_width(s@),
{
    unicode_width::UnicodeWidthStr::width(s)
}

/// The decimal digits of `n`, most significant first, with no leading zero.
pub open spec fn decimal_digits(n: nat) -> Seq<char>
    decreases n,
{
    if n < 10 {
        seq![(48 + n) as char]
    } else {
        decimal_digits(n / 10).push((48 + n % 10) as char)
    }
}

/// How std writes the number `n`: its decimal digits.
pub open spec fn decimal(n: usize) -> Seq<char> {
    decimal_digits(n as nat)
}

/// Appends the decimal digits of `n` to `s`.
fn push_decimal(s: &mut String, n: usize)
    ensures
        final(s)@ == old(s)@ + decimal_digits(n as nat),
    decreases n,
{
    if n >= 10 {
        push_decimal(s, n / 10);
    }
    let digit: u8 = (n % 10) as u8;
    push_char(s, (48u8 + digit) as char);
    assert(s@ =~= old(s)@ + decimal_digits(n as nat));
}

/// The decimal digits of `n`, as std writes a number.
pub(crate) fn decimal_string(n: usize) -> (r: String)
    ensures
        r@ == decimal(n),
{
    let mut s = String::new();
    push_decimal(&mut s, n);
    assert(s@ =~= decimal(n));
    s
}

/// `n` spaces.
pub open spec fn spaces(n: int) -> Seq<char> {
    Seq::new(n as nat, |i: int| ' ')
}

/// Appends `n` copies of `c` to `s`.
pub(crate) fn push_repeated(s: &mut String, c: char, n: usize)
    ensures
        final(s)@ == old(s)@ + Seq::new(n as nat, |i: int| c),
{
    let mut k: usize = 0;
    while k < n
        invariant
            k <= n,
            s@ == old(s)@ + Seq::new(k as nat, |i: int| c),
        decreases n - k,
    {
        push_char(s, c);
        assert(s@ =~= old(s)@ + Seq::new((k + 1) as nat, |i: int| c));
        k = k + 1;
    }
}

} // verus!
