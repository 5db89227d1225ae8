//! Size of a block-compressed texture with its full mip chain.
use vstd::prelude::*;

verus! {

/// `x`, or 1 when it is 0.
pub open spec fn at_least_one(x: int) -> int {
    if x < 1 {
        1
    } else {
        x
    }
}

/// Bytes of one mip level of `w` by `h` pixels (each at least 1) in block
/// format `fmt`: DXT1 stores half a byte per pixel and at least one 8-byte
/// block, DXT5 one byte per pixel and at least one 16-byte block; any other
/// format counts nothing.
pub open spec fn mip_level_size(w: int, h: int, fmt: Seq<char>) -> int {
    let mw = at_least_one(w);
    let mh = at_least_one(h);
    if fmt == "DXT1"@ {
        if mw * mh / 2 < 8 {
            8
        } else {
            mw * mh / 2
        }
    } else if fmt == "DXT5"@ {
        if mw * mh < 16 {
            16
        } else {
            mw * mh
        }
    } else {
        0
    }
}

/// Total bytes of the mip chain that starts at `w` by `h` and halves both
/// sides until they reach 1 by 1 (or both reach 0).
pub open spec fn mip_chain_size(w: nat, h: nat, fmt: Seq<char>) -> int
    decreases w + h,
{
    if w == 0 && h == 0 {
        0
    } else if w == 1 && h == 1 {
        mip_level_size(1, 1, fmt)
    } else {
        mip_level_size(w as int, h as int, fmt) + mip_chain_size(w / 2, h / 2, fmt)
    }
}

/// Whether `fmt` is one of the two block formats that are counted.
pub open spec fn is_block_format(fmt: Seq<char>) -> bool {
    fmt == "DXT1"@ || fmt == "DXT5"@
}

proof fn lemma_level_nonneg(w: int, h: int, fmt: Seq<char>)
    ensures
        mip_level_size(w, h, fmt) >= 0,
{
    let mw = at_least_one(w);
    let mh = at_least_one(h);
    assert(mw * mh >= 1) by (nonlinear_arith)
        requires
            mw >= 1,
            mh >= 1,
    ;
}

proof fn lemma_chain_nonneg(w: nat, h: nat, fmt: Seq<char>)
    ensures
        mip_chain_size(w, h, fmt) >= 0,
    decreases w + h,
{
    lemma_level_nonneg(w as int, h as int, fmt);
    lemma_level_nonneg(1, 1, fmt);
    if w == 0 && h == 0 {
    } else if w == 1 && h == 1 {
    } else {
        lemma_chain_nonneg(w / 2, h / 2, fmt);
    }
}

proof fn lemma_halving_shrinks_product(w: nat, h: nat)
    ensures
        at_least_one((w / 2) as int) * at_least_one((h / 2) as int) <= at_least_one(w as int)
            * at_least_one(h as int),
{
    let a = at_least_one((w / 2) as int);
    let b = at_least_one((h / 2) as int);
    let c = at_least_one(w as int);
    let d = at_least_one(h as int);
    assert(1 <= a <= c && 1 <= b <= d);
    assert(a * b <= c * d) by (nonlinear_arith)
        requires
            1 <= a <= c,
            1 <= b <= d,
    ;
}

/// Compares two string slices by their characters.
fn str_eq(a: &str, b: &str) -> (r: bool)
    ensures
        r == (a@ == b@),
{
    String::from_str(a) == String::from_str(b)
}

/// Bytes of a `w` by `h` texture in `format` ("DXT1" or "DXT5") with all
/// its mip levels; 0 for any other format.
pub fn calc_total_size(w: usize, h: usize, format: &str) -> (r: usize)
    requires
        is_block_format(format@) ==> at_least_one(w as int) * at_least_one(h as int)
            <= usize::MAX,
        mip_chain_size(w as nat, h as nat, format@) <= usize::MAX,
    ensures
        r == mip_chain_size(w as nat, h as nat, format@),
{
    let mut w = w;
    let mut h = h;
    let is_dxt1 = str_eq(format, "DXT1");
    let is_dxt5 = str_eq(format, "DXT5");
    proof {
        reveal_strlit("DXT1");
        reveal_strlit("DXT5");
    }
    let ghost total_size = mip_chain_size(w as nat, h as nat, format@);
    let mut total: usize = 0;
    while w >= 1 || h >= 1
        invariant_except_break
            total + mip_chain_size(w as nat, h as nat, format@) == total_size,
        invariant
            is_dxt1 == (format@ == "DXT1"@),
            is_dxt5 == (format@ == "DXT5"@),
            is_block_format(format@) ==> at_least_one(w as int) * at_least_one(h as int)
                <= usize::MAX,
            total_size <= usize::MAX,
        ensures
            total == total_size,
        decreases w + h,
    {
        proof {
            lemma_chain_nonneg((w / 2) as nat, (h / 2) as nat, format@);
            lemma_level_nonneg(w as int, h as int, format@);
            lemma_halving_shrinks_product(w as nat, h as nat);
        }
        let mip_w = if w < 1 {
            1
        } else {
            w
        };
        let mip_h = if h < 1 {
            1
        } else {
            h
        };
        if is_dxt1 {
            let half = mip_w * mip_h / 2;
            total += if half < 8 {
                8
            } else {
                half
            };
        } else if is_dxt5 {
            let full = mip_w * mip_h;
            total += if full < 16 {
                16
            } else {
                full
            };
        }
        if w == 1 && h == 1 {
            break ;
        }
        w /= 2;
        h /= 2;
    }
    total
}

} // verus!
