//! Generated display names for devices observed only indirectly: a device
//! synthesized to fill an index gap is named `GPU <index>`.

use vstd::prelude::*;

verus! {

/// The ASCII digit for one decimal place.
pub open spec fn dec_digit(d: int) -> u8 {
    (48 + d) as u8
}

/// The ASCII decimal notation of `n`, most significant digit first.
pub open spec fn dec_bytes(n: int) -> Seq<u8>
    decreases n,
{
    if n < 10 {
        seq![dec_digit(n)]
    } else {
        dec_bytes(n / 10).push(dec_digit(n % 10))
    }
}

/// The placeholder display name of device `i`: the bytes of `GPU <i>`.
pub open spec fn placeholder_name(i: int) -> Seq<u8> {
    seq![71u8, 80u8, 85u8, 32u8] + dec_bytes(i)
}

/// Writes `n` in ASCII decimal.
pub fn dec_format(n: usize) -> (r: Vec<u8>)
    ensures
        r@ == dec_bytes(n as int),
    decreases n,
{
    if n < 10 {
        let mut r: Vec<u8> = Vec::new();
        r.push(48 + n as u8);
        assert(r@ =~= dec_bytes(n as int));
        r
    } else {
        let mut r = dec_format(n / 10);
        r.push(48 + (n % 10) as u8);
        assert(r@ =~= dec_bytes(n as int));
        r
    }
}

/// Builds the placeholder display name `GPU <i>` as probe-name bytes.
pub fn placeholder(i: usize) -> (r: Vec<u8>)
    ensures
        r@ == placeholder_name(i as int),
{
    let mut r: Vec<u8> = Vec::new();
    r.push(71);
    r.push(80);
    r.push(85);
    r.push(32);
    let mut digits = dec_format(i);
    r.append(&mut digits);
    assert(r@ =~= placeholder_name(i as int));
    r
}

} // verus!
