//! Building text one character at a time: numerals in base ten and sixteen,
//! padding, and lines joined by newlines.

use vstd::prelude::*;

verus! {

/// Assumed of the standard library, not proved here: `String::push` leaves
/// the string as it was, with `ch` added at its end.
pub assume_specification[ String::push ](s: &mut String, ch: char)
    ensures
        final(s)@ == old(s)@.push(ch),
;

/// The digits of `n` in `base`, most significant first. Zero has the single
/// digit 0.
pub open spec fn digits(n: nat, base: nat) -> Seq<nat>
    recommends
        base >= 2,
    decreases n,
{
    if base < 2 || n < base {
        seq![n]
    } else {
        proof {
            lemma_quotient_smaller(n, base);
        }
        digits(n / base, base).push(n % base)
    }
}

/// Dividing by two or more makes a number that is at least the divisor
/// smaller, and the remainder is below the divisor.
pub proof fn lemma_quotient_smaller(n: nat, base: nat)
    requires
        2 <= base <= n,
    ensures
        0 < n / base < n,
        n % base < base,
        n == base * (n / base) + n % base,
{
    assert(0 < n / base < n && n % base < base && n == base * (n / base) + n % base)
        by (nonlinear_arith)
        requires
            2 <= base <= n,
    ;
}

/// The character of one digit: `0`-`9`, then `a`-`f` or `A`-`F`.
pub open spec fn digit_char(d: nat, upper: bool) -> char
    recommends
        d < 16,
{
    if d < 10 {
        ('0' as int + d) as char
    } else if upper {
        ('A' as int + d - 10) as char
    } else {
        ('a' as int + d - 10) as char
    }
}

/// `n` written in `base`, without sign, prefix or padding.
pub open spec fn numeral(n: nat, base: nat, upper: bool) -> Seq<char> {
    let ds = digits(n, base);
    Seq::new(ds.len(), |i: int| digit_char(ds[i], upper))
}

/// `n` in base ten.
pub open spec fn decimal(n: nat) -> Seq<char> {
    numeral(n, 10, false)
}

/// `n` in base sixteen with the digits `a`-`f`.
pub open spec fn lower_hex(n: nat) -> Seq<char> {
    numeral(n, 16, false)
}

/// `n` in base sixteen with the digits `A`-`F`.
pub open spec fn upper_hex(n: nat) -> Seq<char> {
    numeral(n, 16, true)
}

/// `count` copies of `c`; nothing where `count` is not positive.
pub open spec fn repeated(c: char, count: int) -> Seq<char> {
    Seq::new(
        if count > 0 {
            count as nat
        } else {
            0
        },
        |i: int| c,
    )
}

/// `t` with zeros in front until it is `width` long; `t` itself where it is
/// that long already.
pub open spec fn zero_padded(t: Seq<char>, width: nat) -> Seq<char> {
    repeated('0', width - t.len()) + t
}

/// `t` with spaces behind until it is `width` long; `t` itself where it is
/// that long already.
pub open spec fn space_padded(t: Seq<char>, width: nat) -> Seq<char> {
    t + repeated(' ', width - t.len())
}

/// The lines with one newline between each two neighbours, none at the end.
pub open spec fn join_lines(lines: Seq<Seq<char>>) -> Seq<char>
    decreases lines.len(),
{
    if lines.len() == 0 {
        Seq::empty()
    } else if lines.len() == 1 {
        lines[0]
    } else {
        join_lines(lines.drop_last()) + seq!['\n'] + lines.last()
    }
}

/// Every digit of a numeral is below the base.
pub proof fn lemma_digits_below_base(n: nat, base: nat)
    requires
        base >= 2,
    ensures
        digits(n, base).len() >= 1,
        forall|i: int| 0 <= i < digits(n, base).len() ==> #[trigger] digits(n, base)[i] < base,
    decreases n,
{
    if n >= base {
        lemma_quotient_smaller(n, base);
        lemma_digits_below_base(n / base, base);
    }
}

/// The code of the character `0`.
const CODE_OF_ZERO: u8 = 48;

/// The code of the character `A`.
const CODE_OF_UPPER_A: u8 = 65;

/// The code of the character `a`.
const CODE_OF_LOWER_A: u8 = 97;

fn digit_char_of(d: u8, upper: bool) -> (c: char)
    requires
        d < 16,
    ensures
        c == digit_char(d as nat, upper),
{
    if d < 10 {
        (CODE_OF_ZERO + d) as char
    } else if upper {
        (CODE_OF_UPPER_A + (d - 10)) as char
    } else {
        (CODE_OF_LOWER_A + (d - 10)) as char
    }
}

/// The digits of a positive number; no digit for zero.
spec fn leading_digits(n: nat, base: nat) -> Seq<nat> {
    if n == 0 {
        Seq::empty()
    } else {
        digits(n, base)
    }
}

/// The last digit is the remainder, and the digits before it are those of the
/// quotient.
proof fn lemma_digits_split(n: nat, base: nat)
    requires
        base >= 2,
    ensures
        digits(n, base) =~= leading_digits(n / base, base).push(n % base),
{
    if n < base {
        assert(n / base == 0 && n % base == n) by (nonlinear_arith)
            requires
                n < base,
        ;
    } else {
        lemma_quotient_smaller(n, base);
    }
}

/// A sequence of digit values read from its end to its start.
spec fn back_to_front(rev: Seq<u8>) -> Seq<nat> {
    Seq::new(rev.len(), |i: int| rev[rev.len() - 1 - i] as nat)
}

/// The digits of `n` in `base`, least significant first.
fn reversed_digits(n: usize, base: usize) -> (rev: Vec<u8>)
    requires
        2 <= base <= 16,
    ensures
        back_to_front(rev@) == digits(n as nat, base as nat),
        forall|i: int| 0 <= i < rev@.len() ==> #[trigger] rev@[i] < base,
{
    let mut rev: Vec<u8> = Vec::new();
    let mut rest: usize = n / base;
    proof {
        lemma_digits_split(n as nat, base as nat);
    }
    rev.push((n % base) as u8);
    assert(digits(n as nat, base as nat) =~= leading_digits(rest as nat, base as nat)
        + back_to_front(rev@));
    while rest > 0
        invariant
            2 <= base <= 16,
            digits(n as nat, base as nat) == leading_digits(rest as nat, base as nat)
                + back_to_front(rev@),
            forall|i: int| 0 <= i < rev@.len() ==> #[trigger] rev@[i] < base,
        decreases rest,
    {
        let ghost before = rev@;
        proof {
            lemma_digits_split(rest as nat, base as nat);
            if rest >= base {
                lemma_quotient_smaller(rest as nat, base as nat);
            }
        }
        rev.push((rest % base) as u8);
        assert(back_to_front(rev@) =~= seq![(rest % base) as nat] + back_to_front(before));
        rest = rest / base;
        assert(digits(n as nat, base as nat) =~= leading_digits(rest as nat, base as nat)
            + back_to_front(rev@));
    }
    assert(digits(n as nat, base as nat) =~= back_to_front(rev@));
    rev
}

/// Appends `n` written in `base`, with zeros in front up to `width`
/// characters.
pub fn push_numeral(out: &mut String, n: usize, base: usize, upper: bool, width: usize)
    requires
        2 <= base <= 16,
    ensures
        final(out)@ == old(out)@ + zero_padded(
            numeral(n as nat, base as nat, upper),
            width as nat,
        ),
{
    let ghost start = out@;
    let ghost text = numeral(n as nat, base as nat, upper);
    let rev = reversed_digits(n, base);
    let mut filled: usize = rev.len();
    while filled < width
        invariant
            rev@.len() <= filled,
            filled > rev@.len() ==> filled <= width,
            out@ == start + repeated('0', filled - rev@.len()),
        decreases width - filled,
    {
        out.push('0');
        filled = filled + 1;
        assert(out@ =~= start + repeated('0', filled - rev@.len()));
    }
    assert(out@ =~= start + repeated('0', width - text.len()));
    let ghost padded = out@;
    let mut k: usize = rev.len();
    while k > 0
        invariant
            k <= rev@.len(),
            rev@.len() == text.len(),
            text == numeral(n as nat, base as nat, upper),
            back_to_front(rev@) == digits(n as nat, base as nat),
            forall|i: int| 0 <= i < rev@.len() ==> #[trigger] rev@[i] < base,
            base <= 16,
            out@ == padded + text.take(rev@.len() - k),
        decreases k,
    {
        k = k - 1;
        assert(back_to_front(rev@)[rev@.len() - 1 - k] == rev@[k as int] as nat);
        let c = digit_char_of(rev[k], upper);
        out.push(c);
        assert(out@ =~= padded + text.take(rev@.len() - k));
    }
    assert(out@ =~= start + zero_padded(text, width as nat));
}

/// Appends `n` in base ten.
pub fn push_decimal(out: &mut String, n: usize)
    ensures
        final(out)@ == old(out)@ + decimal(n as nat),
{
    let ghost start = out@;
    push_numeral(out, n, 10, false, 0);
    assert(out@ =~= start + decimal(n as nat));
}

/// The text holds no newline.
pub open spec fn single_line(text: Seq<char>) -> bool {
    forall|k: int| 0 <= k < text.len() ==> #[trigger] text[k] != '\n'
}

/// The number of newlines in the text.
pub open spec fn newline_count(text: Seq<char>) -> nat
    decreases text.len(),
{
    if text.len() == 0 {
        0
    } else {
        newline_count(text.drop_last()) + if text.last() == '\n' {
            1nat
        } else {
            0nat
        }
    }
}

/// The newlines of two texts set one behind the other are those of both.
pub proof fn lemma_newline_count_concat(front: Seq<char>, back: Seq<char>)
    ensures
        newline_count(front + back) == newline_count(front) + newline_count(back),
    decreases back.len(),
{
    if back.len() == 0 {
        assert(front + back =~= front);
    } else {
        assert((front + back).drop_last() =~= front + back.drop_last());
        lemma_newline_count_concat(front, back.drop_last());
    }
}

/// A text without a newline counts none.
pub proof fn lemma_single_line_count(text: Seq<char>)
    requires
        single_line(text),
    ensures
        newline_count(text) == 0,
    decreases text.len(),
{
    if text.len() > 0 {
        assert(text.last() == text[text.len() - 1]);
        lemma_single_line_count(text.drop_last());
    }
}

/// Lines that hold no newline themselves are joined by one newline fewer
/// than there are lines.
pub proof fn lemma_join_lines_count(lines: Seq<Seq<char>>)
    requires
        forall|i: int| 0 <= i < lines.len() ==> single_line(#[trigger] lines[i]),
    ensures
        lines.len() == 0 ==> join_lines(lines) == Seq::<char>::empty(),
        lines.len() > 0 ==> newline_count(join_lines(lines)) == lines.len() - 1,
    decreases lines.len(),
{
    if lines.len() == 1 {
        lemma_single_line_count(lines[0]);
    } else if lines.len() > 1 {
        let init = lines.drop_last();
        assert(forall|i: int| 0 <= i < init.len() ==> init[i] == lines[i]);
        lemma_join_lines_count(init);
        lemma_single_line_count(lines.last());
        lemma_newline_count_concat(join_lines(init), seq!['\n']);
        lemma_newline_count_concat(join_lines(init) + seq!['\n'], lines.last());
        assert(seq!['\n'].drop_last() =~= Seq::<char>::empty());
        assert(newline_count(Seq::<char>::empty()) == 0);
        assert(newline_count(seq!['\n']) == 1);
    }
}

/// A numeral, padded or not, holds no newline.
pub proof fn lemma_numeral_single_line(n: nat, base: nat, upper: bool, width: nat)
    requires
        2 <= base <= 16,
    ensures
        single_line(zero_padded(numeral(n, base, upper), width)),
{
    lemma_digits_below_base(n, base);
    let text = numeral(n, base, upper);
    assert forall|k: int| 0 <= k < text.len() implies #[trigger] text[k] != '\n' by {
        assert(digits(n, base)[k] < 16);
    }
}

} // verus!
