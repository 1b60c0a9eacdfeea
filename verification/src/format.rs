//! The text the converter writes for colors: decimal numbers, `rgb(r,g,b)`, references to the
//! primary lightness variables, and the Sass color map.
use vstd::prelude::*;
use crate::text::{chars_of, extend, string_of};

verus! {

pub open spec fn digit(d: nat) -> char {
    ((48 + d) as u8) as char
}

/// The decimal numeral of `n`, without leading zeros.
pub open spec fn decimal(n: nat) -> Seq<char>
    decreases n,
{
    if n < 10 {
        seq![digit(n)]
    } else {
        decimal(n / 10).push(digit(n % 10))
    }
}

/// The number a numeral denotes.
pub open spec fn numeral_value(s: Seq<char>) -> int
    decreases s.len(),
{
    if s.len() == 0 {
        0
    } else {
        numeral_value(s.drop_last()) * 10 + ((s.last() as u32) - 48)
    }
}

/// `rgb(r,g,b)`.
pub open spec fn rgb_text(r: u8, g: u8, b: u8) -> Seq<char> {
    "rgb("@ + decimal(r as nat) + ","@ + decimal(g as nat) + ","@ + decimal(b as nat) + ")"@
}

/// `var(--primary-l-i)`.
pub open spec fn primary_variable_text(index: u8) -> Seq<char> {
    "var(--primary-l-"@ + decimal(index as nat) + ")"@
}

/// One line of the color map: `\t--primary-l-i: rgb(r,g,b)\n`.
pub open spec fn color_map_line(index: nat, c: (u8, u8, u8)) -> Seq<char> {
    "\t--primary-l-"@ + decimal(index) + ": "@ + rgb_text(c.0, c.1, c.2) + "\n"@
}

pub open spec fn color_map_lines(shades: Seq<(u8, u8, u8)>) -> Seq<char>
    decreases shades.len(),
{
    if shades.len() == 0 {
        Seq::empty()
    } else {
        color_map_lines(shades.drop_last()) + color_map_line(
            (shades.len() - 1) as nat,
            shades.last(),
        )
    }
}

/// The Sass color map: `html`, then one line per shade, numbered from 0.
pub open spec fn color_map_text(shades: Seq<(u8, u8, u8)>) -> Seq<char> {
    "html\n"@ + color_map_lines(shades)
}

/// A numeral reads back as the number it was written for, and starts with `0` only when it is
/// `0` itself.
pub proof fn law_decimal_reads_back(n: nat)
    ensures
        numeral_value(decimal(n)) == n,
        decimal(n).len() >= 1,
        decimal(n)[0] == '0' ==> n == 0,
        forall|i: int| 0 <= i < decimal(n).len() ==> '0' <= #[trigger] decimal(n)[i] <= '9',
    decreases n,
{
    lemma_digit_value((n % 10) as nat);
    if n < 10 {
        lemma_digit_value(n);
        assert(decimal(n).drop_last() =~= Seq::<char>::empty());
        assert(numeral_value(decimal(n)) == numeral_value(Seq::<char>::empty()) * 10 + ((digit(n) as u32) - 48));
    }
    if n >= 10 {
        law_decimal_reads_back(n / 10);
        let d = decimal(n / 10);
        assert(decimal(n).drop_last() =~= d);
        assert(decimal(n).last() == digit((n % 10) as nat));
        assert(numeral_value(decimal(n)) == (n / 10) * 10 + (n % 10));
        assert(decimal(n)[0] == d[0]);
        assert forall|i: int| 0 <= i < decimal(n).len() implies '0' <= #[trigger] decimal(n)[i] <= '9' by {
            if i < d.len() {
                assert(decimal(n)[i] == d[i]);
            }
        }
    }
}

proof fn lemma_digit_value(d: nat)
    requires
        d < 10,
    ensures
        (digit(d) as u32) == 48 + d,
        '0' <= digit(d) <= '9',
{
    assert(((48 + d) as u8) as char as u32 == 48 + d);
}

fn digit_char(d: u8) -> (c: char)
    requires
        d < 10,
    ensures
        c == digit(d as nat),
{
    (48u8 + d) as char
}

/// The decimal digits of `n`.
pub fn decimal_chars(n: u64) -> (r: Vec<char>)
    ensures
        r@ == decimal(n as nat),
    decreases n,
{
    if n < 10 {
        let mut r: Vec<char> = Vec::new();
        r.push(digit_char(n as u8));
        assert(r@ =~= decimal(n as nat));
        r
    } else {
        let mut r = decimal_chars(n / 10);
        r.push(digit_char((n % 10) as u8));
        r
    }
}

fn push_rgb(out: &mut Vec<char>, r: u8, g: u8, b: u8)
    ensures
        final(out)@ == old(out)@ + rgb_text(r, g, b),
{
    let ghost o0 = out@;
    extend(out, &chars_of("rgb("));
    extend(out, &decimal_chars(r as u64));
    extend(out, &chars_of(","));
    extend(out, &decimal_chars(g as u64));
    extend(out, &chars_of(","));
    extend(out, &decimal_chars(b as u64));
    extend(out, &chars_of(")"));
    assert(out@ =~= o0 + rgb_text(r, g, b));
}

/// `rgb(r,g,b)` with decimal channels.
pub fn format_rgb(r: u8, g: u8, b: u8) -> (s: String)
    ensures
        s@ == rgb_text(r, g, b),
{
    let mut out: Vec<char> = Vec::new();
    push_rgb(&mut out, r, g, b);
    assert(out@ =~= rgb_text(r, g, b));
    string_of(&out)
}

/// The CSS-variable paint for a normalized lightness index: `var(--primary-l-index)`.
pub fn primary_variable(index: u8) -> (s: String)
    ensures
        s@ == primary_variable_text(index),
{
    let mut out = chars_of("var(--primary-l-");
    extend(&mut out, &decimal_chars(index as u64));
    extend(&mut out, &chars_of(")"));
    assert(out@ =~= primary_variable_text(index));
    string_of(&out)
}

/// The Sass color map for the given shades of the primary color, shade `i` defining
/// `--primary-l-i` (see `color_map_text`).
pub fn color_map_document(shades: &Vec<(u8, u8, u8)>) -> (s: String)
    ensures
        s@ == color_map_text(shades@),
{
    let mut out = chars_of("html\n");
    let mut i: usize = 0;
    while i < shades.len()
        invariant
            i <= shades.len(),
            out@ == "html\n"@ + color_map_lines(shades@.take(i as int)),
        decreases shades.len() - i,
    {
        let ghost o0 = out@;
        let (r, g, b): (u8, u8, u8) = shades[i];
        extend(&mut out, &chars_of("\t--primary-l-"));
        extend(&mut out, &decimal_chars(i as u64));
        extend(&mut out, &chars_of(": "));
        push_rgb(&mut out, r, g, b);
        extend(&mut out, &chars_of("\n"));
        assert(shades@.take(i + 1).drop_last() =~= shades@.take(i as int));
        assert(out@ =~= o0 + color_map_line(i as nat, shades@[i as int]));
        i = i + 1;
    }
    assert(shades@.take(shades.len() as int) =~= shades@);
    string_of(&out)
}

} // verus!
