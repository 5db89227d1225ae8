//! The LZ decompressor of HOD pool streams.
//!
//! A stream is a sequence of 32-bit little-endian indicator words, each
//! followed by the items it describes. One indicator bit describes one item:
//! 0 is a literal byte, 1 is a back-reference ("match") of 1 to 4 header
//! bytes. The engine reads indicator bits from the least significant end;
//! reading them from the most significant end is the alternative this module
//! also decodes, so that the two can be compared on real data.
use crate::bytes::{read_u32_le, u32_at_le};
use vstd::prelude::*;

verus! {

/// Number of header bytes of the match whose first header byte is `b`.
pub open spec fn match_size(b: u8) -> int {
    let b = b as int;
    if b % 4 == 0 {
        1
    } else if b % 4 == 2 {
        2
    } else if b % 4 == 1 {
        2
    } else if b % 8 == 7 {
        4
    } else {
        3
    }
}

/// Whether the header of the match at `idx` lies inside a stream of `len` bytes.
/// A one-byte header is the byte itself; longer ones read the bytes after it.
pub open spec fn match_header_fits(b: u8, len: int, idx: int) -> bool {
    b % 4 == 0 || idx + match_size(b) <= len
}

/// Number of bytes the match with first header byte `b` at `idx` of `s` copies.
pub open spec fn match_length(b: u8, s: Seq<u8>, idx: int) -> int {
    let b = b as int;
    if b % 4 == 0 {
        3
    } else if b % 4 == 2 {
        (b / 4) % 16 + 3
    } else if b % 4 == 1 {
        3
    } else if b % 8 == 7 {
        (s[idx + 1] as int % 8) * 32 + b / 8 + 3
    } else {
        b / 8 + 3
    }
}

/// How far back the match with first header byte `b` at `idx` of `s` copies from.
pub open spec fn match_offset(b: u8, s: Seq<u8>, idx: int) -> int {
    let b = b as int;
    if b % 4 == 0 {
        b / 4
    } else if b % 4 == 2 {
        s[idx + 1] as int * 4 + b / 64
    } else if b % 4 == 1 {
        s[idx + 1] as int * 64 + b / 4
    } else if b % 8 == 7 {
        s[idx + 3] as int * 8192 + s[idx + 2] as int * 32 + s[idx + 1] as int / 8
    } else {
        s[idx + 2] as int * 256 + s[idx + 1] as int
    }
}

/// Copies `n` bytes from `off` bytes back, stopping at `size`; gives the
/// output and the new write position.
pub open spec fn copy_run(out: Seq<u8>, oi: int, n: int, off: int, size: int) -> (Seq<u8>, int)
    decreases n,
{
    if n <= 0 || oi >= size {
        (out, oi)
    } else {
        let out2 = if oi >= off {
            out.update(oi, out[oi - off])
        } else {
            out
        };
        copy_run(out2, oi + 1, n - 1, off, size)
    }
}

/// Whether decoding the item that indicator bit `bit` describes at `ii`
/// stays inside the stream.
pub open spec fn bit_step_ok(bit: u32, input: Seq<u8>, ii: int) -> bool {
    bit == 0 || ii + 1 >= input.len() || match_header_fits(input[ii], input.len() as int, ii)
}

/// Decodes the item that indicator bit `bit` describes at `ii`, writing at
/// `oi`: gives the output, the write position and the read position.
pub open spec fn bit_step(bit: u32, input: Seq<u8>, size: int, out: Seq<u8>, oi: int, ii: int) -> (
    Seq<u8>,
    int,
    int,
) {
    if bit == 0 {
        if ii >= input.len() || oi >= size {
            (out, oi, ii)
        } else {
            (out.update(oi, input[ii]), oi + 1, ii + 1)
        }
    } else {
        if ii + 1 >= input.len() {
            (out, oi, ii)
        } else {
            let (o2, oi2) = copy_run(
                out,
                oi,
                match_length(input[ii], input, ii),
                match_offset(input[ii], input, ii),
                size,
            );
            (o2, oi2, ii + match_size(input[ii]))
        }
    }
}

/// The indicator position that follows `bit`, for either reading order:
/// `None` when a new indicator word is due but fewer than four bytes are
/// left; otherwise the indicator word, the read position and the bit.
pub open spec fn next_indicator(msb: bool, input: Seq<u8>, ii: int, ind: u32, bit: int) -> Option<
    (u32, int, int),
> {
    if msb {
        if bit == 0 {
            if ii + 4 > input.len() {
                None
            } else {
                Some((u32_at_le(input, ii), ii + 4, 31))
            }
        } else {
            Some((ind, ii, bit - 1))
        }
    } else {
        if bit + 1 == 32 {
            if ii + 4 > input.len() {
                None
            } else {
                Some((u32_at_le(input, ii), ii + 4, 0))
            }
        } else {
            Some((ind, ii, bit + 1))
        }
    }
}

/// Runs the decoder from a state to its end: the output and the write
/// position, or `None` when a match header would run past the stream.
pub open spec fn decode_run(
    msb: bool,
    input: Seq<u8>,
    size: int,
    out: Seq<u8>,
    oi: int,
    ii: int,
    ind: u32,
    bit: int,
) -> Option<(Seq<u8>, int)>
    decreases (input.len() - ii) * 33 + (if msb {
        bit
    } else {
        31 - bit
    }),
    when 0 <= ii <= input.len() && (if msb {
        0 <= bit <= 31
    } else {
        0 <= bit <= 31
    })
{
    if !(oi < size && ii < input.len()) {
        Some((out, oi))
    } else {
        match next_indicator(msb, input, ii, ind, bit) {
            None => Some((out, oi)),
            Some((ind2, ii2, bit2)) => {
                let b = (ind2 >> (bit2 as u32)) & 1;
                if !bit_step_ok(b, input, ii2) {
                    None
                } else {
                    let (o3, oi3, ii3) = bit_step(b, input, size, out, oi, ii2);
                    proof {
                        lemma_bit_step_advances(b, input, size, out, oi, ii2);
                    }
                    decode_run(msb, input, size, o3, oi3, ii3, ind2, bit2)
                }
            },
        }
    }
}

/// The bytes that decoding `input` into at most `size` bytes gives, or
/// `None` where a match header would run past the stream.
pub open spec fn decompressed(msb: bool, input: Seq<u8>, size: int) -> Option<Seq<u8>> {
    match decode_run(
        msb,
        input,
        size,
        Seq::new(size as nat, |i: int| 0u8),
        0,
        0,
        0,
        if msb {
            0
        } else {
            31
        },
    ) {
        Some((out, oi)) => Some(out.take(oi)),
        None => None,
    }
}

/// Decoding an item never moves the read position backwards nor past the end.
pub proof fn lemma_bit_step_advances(
    bit: u32,
    input: Seq<u8>,
    size: int,
    out: Seq<u8>,
    oi: int,
    ii: int,
)
    requires
        0 <= ii,
        bit_step_ok(bit, input, ii),
    ensures
        ii <= bit_step(bit, input, size, out, oi, ii).2,
        ii <= input.len() ==> bit_step(bit, input, size, out, oi, ii).2 <= input.len(),
{
}

/// Whether `a` holds zeros from `k` up to `hi`.
pub open spec fn zero_from(a: Seq<u8>, k: int, hi: int) -> bool {
    forall|i: int| k <= i < hi ==> a[i] == 0
}

/// A copy keeps the output's length, never writes at or past `size`, and
/// leaves untouched what lies past its new write position.
pub proof fn lemma_copy_run_bounds(out: Seq<u8>, oi: int, n: int, off: int, size: int)
    requires
        0 <= oi,
        size <= out.len(),
    ensures
        copy_run(out, oi, n, off, size).0.len() == out.len(),
        oi <= copy_run(out, oi, n, off, size).1,
        oi <= size ==> copy_run(out, oi, n, off, size).1 <= size,
        zero_from(out, oi, size) ==> zero_from(
            copy_run(out, oi, n, off, size).0,
            copy_run(out, oi, n, off, size).1,
            size,
        ),
    decreases n,
{
    if n <= 0 || oi >= size {
    } else {
        let out2 = if oi >= off {
            out.update(oi, out[oi - off])
        } else {
            out
        };
        lemma_copy_run_bounds(out2, oi + 1, n - 1, off, size);
    }
}

/// Decoding an item keeps the output's length and never writes past `size`.
pub proof fn lemma_bit_step_bounds(
    bit: u32,
    input: Seq<u8>,
    size: int,
    out: Seq<u8>,
    oi: int,
    ii: int,
)
    requires
        0 <= oi <= size,
        size <= out.len(),
    ensures
        bit_step(bit, input, size, out, oi, ii).0.len() == out.len(),
        oi <= bit_step(bit, input, size, out, oi, ii).1 <= size,
        zero_from(out, oi, size) ==> zero_from(
            bit_step(bit, input, size, out, oi, ii).0,
            bit_step(bit, input, size, out, oi, ii).1,
            size,
        ),
{
    if bit != 0 && ii + 1 < input.len() {
        lemma_copy_run_bounds(
            out,
            oi,
            match_length(input[ii], input, ii),
            match_offset(input[ii], input, ii),
            size,
        );
    }
}

/// A run never writes past `size` nor changes the output's length.
proof fn lemma_decode_run_bounds(
    msb: bool,
    input: Seq<u8>,
    size: int,
    out: Seq<u8>,
    oi: int,
    ii: int,
    ind: u32,
    bit: int,
)
    requires
        0 <= ii <= input.len(),
        0 <= bit <= 31,
        0 <= oi <= size,
        size <= out.len(),
    ensures
        decode_run(msb, input, size, out, oi, ii, ind, bit) matches Some((o, k)) ==> o.len()
            == out.len() && oi <= k <= size,
    decreases (input.len() - ii) * 33 + (if msb {
        bit
    } else {
        31 - bit
    }),
{
    if !(oi < size && ii < input.len()) {
    } else {
        match next_indicator(msb, input, ii, ind, bit) {
            None => {},
            Some((ind2, ii2, bit2)) => {
                let b = (ind2 >> (bit2 as u32)) & 1;
                if bit_step_ok(b, input, ii2) {
                    lemma_bit_step_advances(b, input, size, out, oi, ii2);
                    lemma_bit_step_bounds(b, input, size, out, oi, ii2);
                    let (o3, oi3, ii3) = bit_step(b, input, size, out, oi, ii2);
                    lemma_decode_run_bounds(msb, input, size, o3, oi3, ii3, ind2, bit2);
                }
            },
        }
    }
}

/// A one-byte match header holds the offset (below 64) in its upper six
/// bits over `00`, and copies three bytes.
pub proof fn lemma_short_header(s: Seq<u8>, idx: int, off: int)
    requires
        0 <= idx < s.len(),
        0 <= off < 64,
        s[idx] as int == off * 4,
    ensures
        match_size(s[idx]) == 1,
        match_length(s[idx], s, idx) == 3,
        match_offset(s[idx], s, idx) == off,
{
}

/// A two-byte header whose first byte ends in `10` holds a length of 3 to
/// 18 (four bits above the tag, plus 3) and an offset below 1024 (its low
/// two bits in the top of the first byte, the rest in the second byte).
pub proof fn lemma_medium_header(s: Seq<u8>, idx: int, len: int, off: int)
    requires
        0 <= idx,
        idx + 2 <= s.len(),
        3 <= len <= 18,
        0 <= off < 1024,
        s[idx] as int == (off % 4) * 64 + (len - 3) * 4 + 2,
        s[idx + 1] as int == off / 4,
    ensures
        match_size(s[idx]) == 2,
        match_length(s[idx], s, idx) == len,
        match_offset(s[idx], s, idx) == off,
{
}

/// A two-byte header whose first byte ends in `01` copies three bytes from
/// an offset below 16384: its low six bits above the tag, the rest in the
/// second byte.
pub proof fn lemma_far_header(s: Seq<u8>, idx: int, off: int)
    requires
        0 <= idx,
        idx + 2 <= s.len(),
        0 <= off < 16384,
        s[idx] as int == (off % 64) * 4 + 1,
        s[idx + 1] as int == off / 64,
    ensures
        match_size(s[idx]) == 2,
        match_length(s[idx], s, idx) == 3,
        match_offset(s[idx], s, idx) == off,
{
}

/// A four-byte header whose first byte ends in `111` holds a length of 3 to
/// 258 (five bits of the first byte and three of the second, plus 3) and an
/// offset below 2^21 (the top five bits of the second byte, then the third
/// and fourth bytes).
pub proof fn lemma_long_header(s: Seq<u8>, idx: int, len: int, off: int)
    requires
        0 <= idx,
        idx + 4 <= s.len(),
        3 <= len <= 258,
        0 <= off < 0x20_0000,
        s[idx] as int == ((len - 3) % 32) * 8 + 7,
        s[idx + 1] as int == (off % 32) * 8 + (len - 3) / 32,
        s[idx + 2] as int == (off / 32) % 256,
        s[idx + 3] as int == off / 8192,
    ensures
        match_size(s[idx]) == 4,
        match_length(s[idx], s, idx) == len,
        match_offset(s[idx], s, idx) == off,
{
}

/// A three-byte header whose first byte ends in `011` holds a length of 3 to
/// 34 (five bits above the tag, plus 3) and a 16-bit offset, low byte first.
pub proof fn lemma_mid_long_header(s: Seq<u8>, idx: int, len: int, off: int)
    requires
        0 <= idx,
        idx + 3 <= s.len(),
        3 <= len <= 34,
        0 <= off < 65536,
        s[idx] as int == (len - 3) * 8 + 3,
        s[idx + 1] as int == off % 256,
        s[idx + 2] as int == off / 256,
    ensures
        match_size(s[idx]) == 3,
        match_length(s[idx], s, idx) == len,
        match_offset(s[idx], s, idx) == off,
{
}

/// Decompression never gives more than the requested number of bytes.
pub proof fn lemma_decompressed_len(msb: bool, input: Seq<u8>, size: nat)
    ensures
        decompressed(msb, input, size as int) matches Some(v) ==> v.len() <= size,
{
    lemma_decode_run_bounds(
        msb,
        input,
        size as int,
        Seq::new(size, |i: int| 0u8),
        0,
        0,
        0,
        if msb {
            0
        } else {
            31
        },
    );
}

/// Whether `a` and `b` hold the same bytes below `k`.
pub open spec fn agree_below(a: Seq<u8>, b: Seq<u8>, k: int) -> bool {
    k <= a.len() && k <= b.len() && forall|i: int| 0 <= i < k ==> a[i] == b[i]
}

proof fn lemma_agree_trans(a: Seq<u8>, b: Seq<u8>, c: Seq<u8>, k: int)
    requires
        agree_below(a, b, k),
        agree_below(b, c, k),
    ensures
        agree_below(a, c, k),
{
    assert forall|i: int| 0 <= i < k implies a[i] == c[i] by {
        assert(a[i] == b[i]);
        assert(b[i] == c[i]);
    }
}

proof fn lemma_agree_shrink(a: Seq<u8>, b: Seq<u8>, k: int, j: int)
    requires
        agree_below(a, b, k),
        0 <= j <= k,
    ensures
        agree_below(a, b, j),
{
}

/// A copy into outputs that agree below `oi`, one limited to `n` bytes and
/// one to `m >= n`: both move the same way until the first stops at `n`,
/// and they agree below where the first stops.
proof fn lemma_copy_run_sizes(
    out_n: Seq<u8>,
    out_m: Seq<u8>,
    oi: int,
    len: int,
    off: int,
    n: int,
    m: int,
)
    requires
        0 <= oi <= n <= m,
        0 <= off,
        n <= out_n.len(),
        m <= out_m.len(),
        agree_below(out_n, out_m, oi),
        zero_from(out_n, oi, n),
        zero_from(out_m, oi, m),
    ensures
        ({
            let (on, kn) = copy_run(out_n, oi, len, off, n);
            let (om, km) = copy_run(out_m, oi, len, off, m);
            &&& oi <= kn <= km
            &&& (kn == km || kn == n)
            &&& kn <= n
            &&& agree_below(on, om, kn)
        }),
    decreases len,
{
    lemma_copy_run_bounds(out_n, oi, len, off, n);
    lemma_copy_run_bounds(out_m, oi, len, off, m);
    lemma_copy_run_keeps_prefix(out_m, oi, len, off, m);
    if len <= 0 || oi >= n {
        lemma_agree_trans(out_n, out_m, copy_run(out_m, oi, len, off, m).0, oi);
    } else {
        let on2 = if oi >= off {
            out_n.update(oi, out_n[oi - off])
        } else {
            out_n
        };
        let om2 = if oi >= off {
            out_m.update(oi, out_m[oi - off])
        } else {
            out_m
        };
        assert(on2[oi] == om2[oi]);
        assert(agree_below(on2, om2, oi + 1));
        lemma_copy_run_sizes(on2, om2, oi + 1, len - 1, off, n, m);
    }
}

/// Decoding one item into outputs limited to `n` and to `m >= n` bytes.
proof fn lemma_bit_step_sizes(
    bit: u32,
    input: Seq<u8>,
    out_n: Seq<u8>,
    out_m: Seq<u8>,
    oi: int,
    ii: int,
    n: int,
    m: int,
)
    requires
        0 <= oi < n <= m,
        n <= out_n.len(),
        m <= out_m.len(),
        agree_below(out_n, out_m, oi),
        zero_from(out_n, oi, n),
        zero_from(out_m, oi, m),
    ensures
        ({
            let (on, kn, jn) = bit_step(bit, input, n, out_n, oi, ii);
            let (om, km, jm) = bit_step(bit, input, m, out_m, oi, ii);
            &&& jn == jm
            &&& oi <= kn <= km
            &&& (kn == km || kn == n)
            &&& kn <= n
            &&& agree_below(on, om, kn)
        }),
{
    if bit == 0 {
        if ii >= input.len() {
        } else {
            assert(agree_below(out_n.update(oi, input[ii]), out_m.update(oi, input[ii]), oi + 1));
        }
    } else if ii + 1 >= input.len() {
    } else {
        lemma_copy_run_sizes(
            out_n,
            out_m,
            oi,
            match_length(input[ii], input, ii),
            match_offset(input[ii], input, ii),
            n,
            m,
        );
    }
}

/// A run only writes at or after its write position.
proof fn lemma_copy_run_keeps_prefix(out: Seq<u8>, oi: int, len: int, off: int, size: int)
    requires
        0 <= oi <= size,
        0 <= off,
        size <= out.len(),
    ensures
        agree_below(out, copy_run(out, oi, len, off, size).0, oi),
    decreases len,
{
    lemma_copy_run_bounds(out, oi, len, off, size);
    if len <= 0 || oi >= size {
    } else {
        let out2 = if oi >= off {
            out.update(oi, out[oi - off])
        } else {
            out
        };
        assert(copy_run(out, oi, len, off, size) == copy_run(out2, oi + 1, len - 1, off, size));
        lemma_copy_run_bounds(out2, oi + 1, len - 1, off, size);
        lemma_copy_run_keeps_prefix(out2, oi + 1, len - 1, off, size);
        let r = copy_run(out2, oi + 1, len - 1, off, size).0;
        assert(agree_below(out, out2, oi));
        lemma_agree_shrink(out2, r, oi + 1, oi);
        lemma_agree_trans(out, out2, r, oi);
    }
}

proof fn lemma_decode_run_keeps_prefix(
    msb: bool,
    input: Seq<u8>,
    size: int,
    out: Seq<u8>,
    oi: int,
    ii: int,
    ind: u32,
    bit: int,
)
    requires
        0 <= ii <= input.len(),
        0 <= bit <= 31,
        0 <= oi <= size,
        size <= out.len(),
    ensures
        decode_run(msb, input, size, out, oi, ii, ind, bit) matches Some((o, k)) ==> agree_below(
            out,
            o,
            oi,
        ),
    decreases (input.len() - ii) * 33 + (if msb {
        bit
    } else {
        31 - bit
    }),
{
    if !(oi < size && ii < input.len()) {
    } else {
        match next_indicator(msb, input, ii, ind, bit) {
            None => {},
            Some((ind2, ii2, bit2)) => {
                let b = (ind2 >> (bit2 as u32)) & 1;
                if bit_step_ok(b, input, ii2) {
                    lemma_bit_step_advances(b, input, size, out, oi, ii2);
                    lemma_bit_step_bounds(b, input, size, out, oi, ii2);
                    let (o3, oi3, ii3) = bit_step(b, input, size, out, oi, ii2);
                    if b != 0 && ii2 + 1 < input.len() {
                        lemma_copy_run_keeps_prefix(
                            out,
                            oi,
                            match_length(input[ii2], input, ii2),
                            match_offset(input[ii2], input, ii2),
                            size,
                        );
                    }
                    lemma_decode_run_keeps_prefix(msb, input, size, o3, oi3, ii3, ind2, bit2);
                    lemma_decode_run_bounds(msb, input, size, o3, oi3, ii3, ind2, bit2);
                }
            },
        }
    }
}

proof fn lemma_decode_run_sizes(
    msb: bool,
    input: Seq<u8>,
    out_n: Seq<u8>,
    out_m: Seq<u8>,
    oi: int,
    ii: int,
    ind: u32,
    bit: int,
    n: int,
    m: int,
)
    requires
        0 <= ii <= input.len(),
        0 <= bit <= 31,
        0 <= oi <= n <= m,
        n <= out_n.len(),
        m <= out_m.len(),
        agree_below(out_n, out_m, oi),
        zero_from(out_n, oi, n),
        zero_from(out_m, oi, m),
        decode_run(msb, input, m, out_m, oi, ii, ind, bit) is Some,
    ensures
        ({
            let (on, kn) = decode_run(msb, input, n, out_n, oi, ii, ind, bit).unwrap();
            let (om, km) = decode_run(msb, input, m, out_m, oi, ii, ind, bit).unwrap();
            &&& decode_run(msb, input, n, out_n, oi, ii, ind, bit) is Some
            &&& kn == if km < n {
                km
            } else {
                n
            }
            &&& agree_below(on, om, kn)
        }),
    decreases (input.len() - ii) * 33 + (if msb {
        bit
    } else {
        31 - bit
    }),
{
    lemma_decode_run_bounds(msb, input, m, out_m, oi, ii, ind, bit);
    lemma_decode_run_keeps_prefix(msb, input, m, out_m, oi, ii, ind, bit);
    let (om, km) = decode_run(msb, input, m, out_m, oi, ii, ind, bit).unwrap();
    if !(oi < n && ii < input.len()) {
        lemma_agree_trans(out_n, out_m, om, oi);
    } else {
        match next_indicator(msb, input, ii, ind, bit) {
            None => {},
            Some((ind2, ii2, bit2)) => {
                let b = (ind2 >> (bit2 as u32)) & 1;
                assert(bit_step_ok(b, input, ii2));
                lemma_bit_step_advances(b, input, n, out_n, oi, ii2);
                lemma_bit_step_advances(b, input, m, out_m, oi, ii2);
                lemma_bit_step_bounds(b, input, n, out_n, oi, ii2);
                lemma_bit_step_bounds(b, input, m, out_m, oi, ii2);
                lemma_bit_step_sizes(b, input, out_n, out_m, oi, ii2, n, m);
                let (o3n, oi3n, ii3) = bit_step(b, input, n, out_n, oi, ii2);
                let (o3m, oi3m, ii3m) = bit_step(b, input, m, out_m, oi, ii2);
                assert(decode_run(msb, input, m, out_m, oi, ii, ind, bit) == decode_run(
                    msb,
                    input,
                    m,
                    o3m,
                    oi3m,
                    ii3m,
                    ind2,
                    bit2,
                ));
                assert(decode_run(msb, input, n, out_n, oi, ii, ind, bit) == decode_run(
                    msb,
                    input,
                    n,
                    o3n,
                    oi3n,
                    ii3,
                    ind2,
                    bit2,
                ));
                if oi3n == oi3m {
                    lemma_decode_run_sizes(msb, input, o3n, o3m, oi3n, ii3, ind2, bit2, n, m);
                } else {
                    assert(oi3n == n);
                    assert(decode_run(msb, input, n, o3n, oi3n, ii3, ind2, bit2) == Some(
                        (o3n, n),
                    ));
                    lemma_decode_run_bounds(msb, input, m, o3m, oi3m, ii3m, ind2, bit2);
                    lemma_decode_run_keeps_prefix(msb, input, m, o3m, oi3m, ii3m, ind2, bit2);
                    lemma_agree_shrink(o3m, om, oi3m, n);
                    lemma_agree_trans(o3n, o3m, om, n);
                }
            },
        }
    }
}

/// Asking for fewer bytes gives a prefix of what asking for more gives:
/// decompressing into at most `n` bytes yields the first `n` bytes (or all,
/// when there are fewer) of decompressing the same stream into at most `m`.
pub proof fn lemma_decompressed_prefix(msb: bool, input: Seq<u8>, n: nat, m: nat)
    requires
        n <= m,
        decompressed(msb, input, m as int) is Some,
    ensures
        ({
            let vm = decompressed(msb, input, m as int).unwrap();
            decompressed(msb, input, n as int) == Some(
                vm.take(
                    if vm.len() < n {
                        vm.len() as int
                    } else {
                        n as int
                    },
                ),
            )
        }),
{
    let bit0: int = if msb {
        0
    } else {
        31
    };
    let zn = Seq::new(n, |i: int| 0u8);
    let zm = Seq::new(m, |i: int| 0u8);
    lemma_decode_run_sizes(msb, input, zn, zm, 0, 0, 0, bit0, n as int, m as int);
    lemma_decode_run_bounds(msb, input, m as int, zm, 0, 0, 0, bit0);
    lemma_decode_run_bounds(msb, input, n as int, zn, 0, 0, 0, bit0);
    let (on, kn) = decode_run(msb, input, n as int, zn, 0, 0, 0, bit0).unwrap();
    let (om, km) = decode_run(msb, input, m as int, zm, 0, 0, 0, bit0).unwrap();
    assert(on.take(kn) =~= om.take(km).take(kn));
}

/// Decodes the match header at `idx`: the number of bytes to copy, how far
/// back to copy from, and the number of header bytes.
pub fn decode_match(byte1: u8, input: &[u8], idx: usize) -> (r: Result<(usize, usize, usize), String>)
    requires
        match_header_fits(byte1, input@.len() as int, idx as int),
    ensures
        r matches Ok((length, offset, consumed)) && length == match_length(byte1, input@, idx as int)
            && offset == match_offset(byte1, input@, idx as int) && consumed == match_size(byte1),
{
    let input_len = input.len();
    assert(input_len == input@.len());
    assert((byte1 & 3u8) == byte1 % 4 && (byte1 & 7u8) == byte1 % 8) by (bit_vector);
    if (byte1 & 0b11) == 0 {
        assert((byte1 >> 2u8) == byte1 / 4) by (bit_vector);
        Ok((3, (byte1 >> 2u8) as usize, 1))
    } else if (byte1 & 0b11) == 0b10 {
        assert(match_size(byte1) == 2);
        let byte2 = input[idx + 1] as usize;
        assert(((byte1 >> 2u8) & 15u8) == (byte1 / 4) % 16 && (byte1 >> 6u8) == byte1 / 64)
            by (bit_vector);
        let length = (((byte1 >> 2u8) & 0b1111) + 3) as usize;
        let hi = byte1 >> 6u8;
        assert(hi < 4) by (bit_vector)
            requires
                hi == byte1 >> 6u8,
        ;
        assert((byte2 << 2usize) | (hi as usize) == byte2 * 4 + hi) by (bit_vector)
            requires
                byte2 < 256,
                hi < 4,
        ;
        let offset = (byte2 << 2usize) | (hi as usize);
        Ok((length, offset, 2))
    } else if (byte1 & 0b11) == 0b01 {
        assert(match_size(byte1) == 2);
        let byte2 = input[idx + 1] as usize;
        let lo = byte1 >> 2u8;
        assert(lo == byte1 / 4) by (bit_vector)
            requires
                lo == byte1 >> 2u8,
        ;
        assert((byte2 << 6usize) | (lo as usize) == byte2 * 64 + lo) by (bit_vector)
            requires
                byte2 < 256,
                lo < 64,
        ;
        let offset = (byte2 << 6usize) | (lo as usize);
        Ok((3, offset, 2))
    } else if (byte1 & 0b111) == 0b111 {
        let byte2 = input[idx + 1] as usize;
        let byte3 = input[idx + 2] as usize;
        let byte4 = input[idx + 3] as usize;
        let top = byte1 >> 3u8;
        assert(top == byte1 / 8) by (bit_vector)
            requires
                top == byte1 >> 3u8,
        ;
        assert(((byte2 & 7usize) << 5usize) | (top as usize) == (byte2 % 8) * 32 + top)
            by (bit_vector)
            requires
                byte2 < 256,
                top < 32,
        ;
        let length = (((byte2 & 0b111) << 5usize) | (top as usize)) + 3;
        assert((byte4 << 13usize) | (byte3 << 5usize) | (byte2 >> 3usize) == byte4 * 8192 + byte3
            * 32 + byte2 / 8) by (bit_vector)
            requires
                byte2 < 256,
                byte3 < 256,
                byte4 < 256,
        ;
        let offset = (byte4 << 13usize) | (byte3 << 5usize) | (byte2 >> 3usize);
        Ok((length, offset, 4))
    } else if (byte1 & 0b11) == 0b11 {
        let byte2 = input[idx + 1] as usize;
        let byte3 = input[idx + 2] as usize;
        assert((byte1 >> 3u8) == byte1 / 8) by (bit_vector);
        let length = ((byte1 >> 3u8) + 3) as usize;
        assert((byte3 << 8usize) | byte2 == byte3 * 256 + byte2) by (bit_vector)
            requires
                byte2 < 256,
                byte3 < 256,
        ;
        let offset = (byte3 << 8usize) | byte2;
        Ok((length, offset, 3))
    } else {
        assert(false) by (bit_vector)
            requires
                (byte1 & 3u8) != 0,
                (byte1 & 3u8) != 2,
                (byte1 & 3u8) != 1,
                (byte1 & 3u8) != 3,
        ;
        Err(String::from_str("Invalid match header"))
    }
}


/// Whether decoding the item that indicator bit `bit` describes at `ii`
/// stays inside the stream; decides `bit_step_ok`.
pub fn bit_step_fits(bit: u32, input: &[u8], ii: usize) -> (r: bool)
    requires
        ii <= input@.len(),
    ensures
        r == bit_step_ok(bit, input@, ii as int),
{
    let len = input.len();
    if bit == 0 || len - ii <= 1 {
        true
    } else {
        let byte1 = input[ii];
        assert((byte1 & 3u8) == byte1 % 4 && (byte1 & 7u8) == byte1 % 8) by (bit_vector);
        let size: usize = if (byte1 & 0b11) == 0 {
            1
        } else if (byte1 & 0b11) == 0b10 || (byte1 & 0b11) == 0b01 {
            2
        } else if (byte1 & 0b111) == 0b111 {
            4
        } else {
            3
        };
        (byte1 & 0b11) == 0 || size <= len - ii
    }
}

/// Decodes the item that indicator bit `bit` describes: a literal byte when
/// `bit` is 0, else a match copied from earlier output, stopping at
/// `output_size` bytes of output.
pub fn process_bit(
    bit: u32,
    output: &mut Vec<u8>,
    output_idx: &mut usize,
    input_idx: &mut usize,
    input: &[u8],
    output_size: usize,
) -> (r: Result<(), String>)
    requires
        output_size <= old(output)@.len(),
        bit_step_ok(bit, input@, *old(input_idx) as int),
    ensures
        r is Ok,
        (final(output)@, *final(output_idx) as int, *final(input_idx) as int) == bit_step(
            bit,
            input@,
            output_size as int,
            old(output)@,
            *old(output_idx) as int,
            *old(input_idx) as int,
        ),
{
    if bit == 0 {
        if *input_idx >= input.len() || *output_idx >= output_size {
            return Ok(());
        }
        output.set(*output_idx, input[*input_idx]);
        *input_idx += 1;
        *output_idx += 1;
    } else {
        if input.len() <= *input_idx || input.len() - *input_idx <= 1 {
            return Ok(());
        }
        let byte1 = input[*input_idx];
        let (length, offset, consumed) = match decode_match(byte1, input, *input_idx) {
            Ok(t) => t,
            Err(e) => return Err(e),
        };
        *input_idx += consumed;
        let ghost out0 = output@;
        let ghost oi0 = *output_idx as int;
        let mut k: usize = 0;
        while k < length
            invariant
                output@.len() == old(output)@.len(),
                output_size <= output@.len(),
                0 <= k <= length,
                copy_run(out0, oi0, length as int, offset as int, output_size as int) == copy_run(
                    output@,
                    *output_idx as int,
                    length - k,
                    offset as int,
                    output_size as int,
                ),
            ensures
                copy_run(out0, oi0, length as int, offset as int, output_size as int) == (
                    output@,
                    *output_idx as int,
                ),
            decreases length - k,
        {
            if *output_idx >= output_size {
                break;
            }
            let src = output_idx.checked_sub(offset);
            if let Some(s) = src {
                let byte = output[s];
                output.set(*output_idx, byte);
            }
            *output_idx += 1;
            k += 1;
        }
    }
    Ok(())
}

/// Runs the decoder over `input` with either indicator reading order; `None`
/// exactly where a match header would run past the stream.
pub fn decode_stream(input: &[u8], output_size: usize, msb: bool) -> (r: Option<Vec<u8>>)
    ensures
        r matches Some(v) ==> decompressed(msb, input@, output_size as int) == Some(v@),
        r is None ==> decompressed(msb, input@, output_size as int) is None,
{
    let mut output: Vec<u8> = vec![0u8; output_size];
    assert(output@ =~= Seq::new(output_size as nat, |i: int| 0u8));
    let mut output_idx: usize = 0;
    let mut input_idx: usize = 0;
    let mut indicator: u32 = 0;
    let mut indicator_bit: u32 = if msb {
        0
    } else {
        31
    };
    let len = input.len();
    let ghost start = decode_run(
        msb,
        input@,
        output_size as int,
        output@,
        0,
        0,
        0,
        indicator_bit as int,
    );
    assert(start == decode_run(
        msb,
        input@,
        output_size as int,
        Seq::new(output_size as nat, |i: int| 0u8),
        0,
        0,
        0,
        if msb {
            0
        } else {
            31
        },
    ));
    assert(start is None ==> decompressed(msb, input@, output_size as int) is None);
    loop
        invariant
            len == input@.len(),
            output@.len() == output_size,
            output_idx <= output_size,
            input_idx <= len,
            indicator_bit <= 31,
            start is None ==> decompressed(msb, input@, output_size as int) is None,
            start == decode_run(
                msb,
                input@,
                output_size as int,
                output@,
                output_idx as int,
                input_idx as int,
                indicator,
                indicator_bit as int,
            ),
        ensures
            output_idx <= output_size,
            output@.len() == output_size,
            start == Some((output@, output_idx as int)),
        decreases (len - input_idx) * 33 + (if msb {
            indicator_bit as int
        } else {
            31 - indicator_bit
        }),
    {
        if !(output_idx < output_size && input_idx < len) {
            break ;
        }
        let ghost ii0 = input_idx as int;
        let ghost ind0 = indicator;
        let ghost bit0 = indicator_bit as int;
        if msb {
            if indicator_bit == 0 {
                if len - input_idx < 4 {
                    break ;
                }
                indicator = read_u32_le(input, input_idx);
                input_idx += 4;
                indicator_bit = 31;
            } else {
                indicator_bit -= 1;
            }
        } else {
            if indicator_bit + 1 == 32 {
                if len - input_idx < 4 {
                    break ;
                }
                indicator = read_u32_le(input, input_idx);
                input_idx += 4;
                indicator_bit = 0;
            } else {
                indicator_bit += 1;
            }
        }
        let bit = (indicator >> indicator_bit) & 1;
        if !bit_step_fits(bit, input, input_idx) {
            assert(next_indicator(msb, input@, ii0, ind0, bit0) == Some(
                (indicator, input_idx as int, indicator_bit as int),
            ));
            assert(decode_run(
                msb,
                input@,
                output_size as int,
                output@,
                output_idx as int,
                ii0,
                ind0,
                bit0,
            ) is None);
            return None;
        }
        proof {
            lemma_bit_step_advances(
                bit,
                input@,
                output_size as int,
                output@,
                output_idx as int,
                input_idx as int,
            );
            lemma_bit_step_bounds(
                bit,
                input@,
                output_size as int,
                output@,
                output_idx as int,
                input_idx as int,
            );
        }
        let _ = process_bit(bit, &mut output, &mut output_idx, &mut input_idx, input, output_size);
    }
    output.truncate(output_idx);
    Some(output)
}

/// Decompresses `input` into at most `output_size` bytes, reading indicator
/// bits least significant first, as the engine does.
pub fn decompress_lsb(input: &[u8], output_size: usize) -> (r: Result<Vec<u8>, String>)
    requires
        decompressed(false, input@, output_size as int) is Some,
    ensures
        r matches Ok(v) && decompressed(false, input@, output_size as int) == Some(v@),
{
    match decode_stream(input, output_size, false) {
        Some(v) => Ok(v),
        None => Err(String::from_str("match header past the end of the stream")),
    }
}

/// Decompresses `input` into at most `output_size` bytes, reading indicator
/// bits most significant first.
pub fn decompress_msb(input: &[u8], output_size: usize) -> (r: Result<Vec<u8>, String>)
    requires
        decompressed(true, input@, output_size as int) is Some,
    ensures
        r matches Ok(v) && decompressed(true, input@, output_size as int) == Some(v@),
{
    match decode_stream(input, output_size, true) {
        Some(v) => Ok(v),
        None => Err(String::from_str("match header past the end of the stream")),
    }
}

} // verus!
