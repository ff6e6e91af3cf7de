//! Hexadecimal rendering of genomes for the periodic report and the
//! replicator artifact: two lower-case digits per byte, high digit first,
//! returned as ASCII bytes; display code turns them into text.
use vstd::prelude::*;

verus! {

/// The ASCII code of the lower-case hex digit for `v`.
pub open spec fn hex_digit(v: u8) -> u8
    recommends
        v < 16,
{
    if v < 10 {
        (48 + v) as u8
    } else {
        (87 + v) as u8
    }
}

/// The hexadecimal rendering of a byte sequence as ASCII bytes: two digits
/// per byte, high digit first.
pub open spec fn hex_of(s: Seq<u8>) -> Seq<u8> {
    Seq::new(
        2 * s.len(),
        |i: int|
            if i % 2 == 0 {
                hex_digit(s[i / 2] / 16)
            } else {
                hex_digit(s[i / 2] % 16)
            },
    )
}

/// Renders the first `n` bytes of a genome (all of it if `n` exceeds its
/// length) in hexadecimal, as ASCII bytes.
pub fn hex_prefix(org: &Vec<u8>, n: usize) -> (r: Vec<u8>)
    ensures
        r@ == hex_of(
            org@.take(
                if n <= org@.len() {
                    n as int
                } else {
                    org@.len() as int
                },
            ),
        ),
{
    let upto = if n < org.len() {
        n
    } else {
        org.len()
    };
    let ghost target = hex_of(org@.take(upto as int));
    let mut r: Vec<u8> = Vec::new();
    let mut i: usize = 0;
    while i < upto
        invariant
            i <= upto,
            upto <= org@.len(),
            target == hex_of(org@.take(upto as int)),
            r@.len() == 2 * i,
            forall|k: int| 0 <= k < 2 * i ==> r@[k] == target[k],
        decreases upto - i,
    {
        let b = org[i];
        let hi = b / 16;
        let lo = b % 16;
        let hb: u8 = if hi < 10 {
            48 + hi
        } else {
            87 + hi
        };
        let lb: u8 = if lo < 10 {
            48 + lo
        } else {
            87 + lo
        };
        r.push(hb);
        r.push(lb);
        proof {
            assert(org@.take(upto as int)[i as int] == org@[i as int]);
            assert((2 * i) % 2 == 0 && (2 * i) / 2 == i);
            assert((2 * i + 1) % 2 == 1 && (2 * i + 1) / 2 == i);
        }
        i = i + 1;
    }
    proof {
        assert(r@ =~= target);
    }
    r
}

/// Renders a whole genome in hexadecimal, as ASCII bytes.
pub fn hex_full(org: &Vec<u8>) -> (r: Vec<u8>)
    ensures
        r@ == hex_of(org@),
{
    let r = hex_prefix(org, org.len());
    proof {
        assert(org@.take(org@.len() as int) =~= org@);
    }
    r
}

} // verus!
