//! Byte-level text building used by the renderers.
use vstd::prelude::*;
use crate::token::TextRange;
use vstd::utf8::{decode_utf8, valid_utf8};

verus! {

/// Decimal digits of `n`, most significant first.
pub open spec fn decimal_text(n: nat) -> Seq<u8>
    decreases n,
{
    if n < 10 {
        seq![(48 + n) as u8]
    } else {
        decimal_text(n / 10).push((48 + n % 10) as u8)
    }
}

/// The bytes of `code` in range `r`; nothing when `r` is not a range of `code`.
pub open spec fn slice_text(code: Seq<u8>, r: TextRange) -> Seq<u8> {
    if r.start <= r.end && r.end <= code.len() {
        code.subrange(r.start as int, r.end as int)
    } else {
        seq![]
    }
}

/// `start..end`, as Rust prints a range.
pub open spec fn range_text(r: TextRange) -> Seq<u8> {
    decimal_text(r.start as nat) + seq![46u8, 46u8] + decimal_text(r.end as nat)
}

pub fn push_decimal(out: &mut Vec<u8>, n: usize)
    ensures
        final(out)@ == old(out)@ + decimal_text(n as nat),
    decreases n,
{
    if n >= 10 {
        push_decimal(out, n / 10);
    }
    out.push((48 + n % 10) as u8);
    assert(out@ =~= old(out)@ + decimal_text(n as nat));
}

pub fn push_range(out: &mut Vec<u8>, r: TextRange)
    ensures
        final(out)@ == old(out)@ + range_text(r),
{
    push_decimal(out, r.start);
    out.push(46u8);
    out.push(46u8);
    push_decimal(out, r.end);
    assert(out@ =~= old(out)@ + range_text(r));
}

pub fn push_slice(out: &mut Vec<u8>, code: &[u8], r: TextRange)
    ensures
        final(out)@ == old(out)@ + slice_text(code@, r),
{
    if r.start <= r.end && r.end <= code.len() {
        let mut i: usize = r.start;
        while i < r.end
            invariant
                r.start <= i <= r.end,
                r.end <= code@.len(),
                out@ == old(out)@ + code@.subrange(r.start as int, i as int),
            decreases r.end - i,
        {
            out.push(code[i]);
            assert(code@.subrange(r.start as int, i + 1) =~= code@.subrange(r.start as int, i as int).push(code@[i as int]));
            i = i + 1;
        }
    } else {
        assert(out@ =~= old(out)@ + slice_text(code@, r));
    }
}

pub fn push_all(out: &mut Vec<u8>, v: Vec<u8>)
    ensures
        final(out)@ == old(out)@ + v@,
{
    let mut v = v;
    out.append(&mut v);
}

/// Appends `n` spaces.
pub fn push_indent(out: &mut Vec<u8>, n: usize)
    ensures
        final(out)@ == old(out)@ + Seq::new(n as nat, |i: int| 32u8),
{
    let mut i: usize = 0;
    while i < n
        invariant
            i <= n,
            out@ == old(out)@ + Seq::new(i as nat, |j: int| 32u8),
        decreases n - i,
    {
        out.push(32u8);
        i = i + 1;
        assert(out@ =~= old(out)@ + Seq::new(i as nat, |j: int| 32u8));
    }
}

/// Relies on `String::from_utf8_lossy`: valid UTF-8 comes through unchanged.
#[verifier::external_body]
pub(crate) fn utf8_to_string(b: &Vec<u8>) -> (r: String)
    ensures
        valid_utf8(b@) ==> r@ == decode_utf8(b@),
{
    String::from_utf8_lossy(b).into_owned()
}

} // verus!
