//! Decimal text of integers.

use vstd::prelude::*;

verus! {

pub open spec fn dec_digit(d: int) -> char {
    (48 + d) as char
}

/// The decimal digits of `v`, without leading zeros (`"0"` for zero).
pub open spec fn dec_of(v: nat) -> Seq<char>
    decreases v,
{
    if v < 10 {
        seq![dec_digit(v as int)]
    } else {
        dec_of(v / 10) + seq![dec_digit((v % 10) as int)]
    }
}

/// The decimal digits of `v`, zero-padded on the left to `width` characters.
pub open spec fn dec_padded(v: nat, width: nat) -> Seq<char> {
    let d = dec_of(v);
    if d.len() < width {
        Seq::new((width - d.len()) as nat, |i: int| '0') + d
    } else {
        d
    }
}

pub proof fn lemma_dec_of_len(v: nat)
    ensures
        dec_of(v).len() >= 1,
        v < 10 <==> dec_of(v).len() == 1,
    decreases v,
{
    if v >= 10 {
        lemma_dec_of_len(v / 10);
    }
}

/// Appends the decimal digits of `v` to `out`.
pub fn push_dec(out: &mut Vec<char>, v: u64)
    ensures
        final(out)@ == old(out)@ + dec_of(v as nat),
{
    let ghost start = out@;
    let mut digits: Vec<char> = Vec::new();
    let mut x = v;
    loop
        invariant_except_break
            dec_of(v as nat) == dec_of(x as nat) + digits@.reverse(),
        ensures
            dec_of(v as nat) == digits@.reverse(),
        decreases x,
    {
        let ghost before = digits@;
        digits.push((48u8 + (x % 10) as u8) as char);
        assert(digits@.reverse() =~= seq![dec_digit((x % 10) as int)] + before.reverse());
        if x < 10 {
            break;
        }
        x = x / 10;
    }
    let mut i = digits.len();
    while i > 0
        invariant
            i <= digits@.len(),
            out@ == start + digits@.reverse().take(digits@.len() - i),
        decreases i,
    {
        i -= 1;
        out.push(digits[i]);
        assert(out@ =~= start + digits@.reverse().take(digits@.len() - i));
    }
    assert(digits@.reverse().take(digits@.len() as int) =~= digits@.reverse());
}

/// Appends the decimal digits of `v`, zero-padded to `width`, to `out`.
pub fn push_dec_padded(out: &mut Vec<char>, v: u64, width: usize)
    ensures
        final(out)@ == old(out)@ + dec_padded(v as nat, width as nat),
{
    let ghost start = out@;
    let mut digits: Vec<char> = Vec::new();
    push_dec(&mut digits, v);
    assert(digits@ =~= dec_of(v as nat));
    let mut k = digits.len();
    while k < width
        invariant
            digits@.len() <= k <= width || (k == digits@.len() && k >= width),
            out@ == start + Seq::new((k - digits@.len()) as nat, |i: int| '0'),
        decreases width - k,
    {
        out.push('0');
        k += 1;
        assert(out@ =~= start + Seq::new((k - digits@.len()) as nat, |i: int| '0'));
    }
    let ghost mid = out@;
    let mut i: usize = 0;
    while i < digits.len()
        invariant
            i <= digits@.len(),
            out@ == mid + digits@.take(i as int),
        decreases digits@.len() - i,
    {
        out.push(digits[i]);
        i += 1;
        assert(out@ =~= mid + digits@.take(i as int));
    }
    assert(digits@.take(digits@.len() as int) =~= digits@);
    assert(out@ =~= start + dec_padded(v as nat, width as nat));
}

} // verus!
