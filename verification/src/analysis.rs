//! Locating the indicator bit and item that produce a given position of a
//! compressed stream's decoded output, for comparing two encoders' output.
use crate::bytes::{read_u32_le, u32_at_le};
use crate::xpress::{match_header_fits, match_length, match_offset, match_size};
use vstd::prelude::*;

verus! {

/// Where a decoded byte comes from: the indicator bit that describes its
/// item, that bit's value, the kind of item, and for a match its offset and
/// length.
pub struct MatchContext {
    pub bit_in_word: usize,
    pub bit_value: u32,
    pub match_type: String,
    pub match_offset: usize,
    pub match_length: usize,
}

impl View for MatchContext {
    type V = (usize, u32, Seq<char>, usize, usize);

    open spec fn view(&self) -> Self::V {
        (self.bit_in_word, self.bit_value, self.match_type@, self.match_offset, self.match_length)
    }
}

/// The description of the match kind whose first header byte is `b`.
pub open spec fn match_kind_name(b: u8) -> Seq<char> {
    if b % 4 == 0 {
        "Type 0 (1-byte, offset<64, len=3)"@
    } else if b % 4 == 2 {
        "Type 1 (2-byte, offset<1024, len 3-18)"@
    } else if b % 4 == 1 {
        "Type 2 (2-byte, offset<16384, len=3)"@
    } else if b % 8 == 7 {
        "Type 3 (4-byte, offset up to 2MB)"@
    } else {
        "Type 4 (3-byte, offset up to 65535)"@
    }
}

/// The context reported when the position is not reached.
pub open spec fn unknown_context() -> (usize, u32, Seq<char>, usize, usize) {
    (0, 0, "unknown"@, 0, 0)
}

/// Scans a stream for the item that produces output position `target`:
/// the context and the position of the indicator word that covers it (`wp`
/// is where the current word was read), or `None` where a match header runs
/// past the stream or a position would overflow.
pub open spec fn context_run(
    data: Seq<u8>,
    target: int,
    sp: int,
    di: int,
    ind: u32,
    bi: int,
    wp: int,
) -> Option<((usize, u32, Seq<char>, usize, usize), int)>
    decreases (data.len() + 1 - di) * 34 + (32 - bi),
    when 4 <= di <= data.len() + 1 && 0 <= bi <= 32 && 0 <= sp
{
    if !(di < data.len()) {
        Some((unknown_context(), 0))
    } else if target + 10 > usize::MAX {
        None
    } else if !(sp < target + 10) {
        Some((unknown_context(), 0))
    } else if bi >= 32 && di + 4 > data.len() {
        Some((unknown_context(), 0))
    } else {
        let ind2 = if bi >= 32 {
            u32_at_le(data, di)
        } else {
            ind
        };
        let di2 = if bi >= 32 {
            di + 4
        } else {
            di
        };
        let bi2 = if bi >= 32 {
            0
        } else {
            bi
        };
        let ipos = if bi >= 32 {
            di
        } else {
            wp
        };
        let bit = (ind2 >> (bi2 as u32)) & 1;
        if bit == 0 {
            if sp == target {
                Some(((bi2 as usize, 0u32, "literal"@, 0usize, 0usize), ipos))
            } else if di2 + 1 > usize::MAX {
                None
            } else {
                context_run(data, target, sp + 1, di2 + 1, ind2, bi2 + 1, ipos)
            }
        } else if di2 >= data.len() {
            Some((unknown_context(), 0))
        } else {
            let b1 = data[di2];
            let length = match_length(b1, data, di2);
            if !match_header_fits(b1, data.len() as int, di2) {
                None
            } else if sp + length > usize::MAX {
                None
            } else if sp <= target && sp + length > target {
                Some(
                    (
                        (
                            bi2 as usize,
                            1u32,
                            match_kind_name(b1),
                            match_offset(b1, data, di2) as usize,
                            length as usize,
                        ),
                        ipos,
                    ),
                )
            } else {
                context_run(data, target, sp + length, di2 + match_size(b1), ind2, bi2 + 1, ipos)
            }
        }
    }
}

/// The context of output position `target` of the stream `data`, and the
/// position of the indicator word that covers it (whose bit describes it).
pub open spec fn indicator_context(data: Seq<u8>, target: int) -> Option<
    ((usize, u32, Seq<char>, usize, usize), int),
> {
    if data.len() < 4 {
        Some((unknown_context(), 0))
    } else {
        context_run(data, target, 0, 4, u32_at_le(data, 0), 0, 0)
    }
}

/// Names the kind of match whose first header byte is `byte1`.
pub fn classify_match(byte1: u8) -> (r: &'static str)
    ensures
        r@ == match_kind_name(byte1),
{
    assert((byte1 & 3u8) == byte1 % 4 && (byte1 & 7u8) == byte1 % 8) by (bit_vector);
    if (byte1 & 0b11) == 0 {
        "Type 0 (1-byte, offset<64, len=3)"
    } else if (byte1 & 0b11) == 0b10 {
        "Type 1 (2-byte, offset<1024, len 3-18)"
    } else if (byte1 & 0b11) == 0b01 {
        "Type 2 (2-byte, offset<16384, len=3)"
    } else if (byte1 & 0b111) == 0b111 {
        "Type 3 (4-byte, offset up to 2MB)"
    } else if (byte1 & 0b11) == 0b11 {
        "Type 4 (3-byte, offset up to 65535)"
    } else {
        assert(false) by (bit_vector)
            requires
                (byte1 & 3u8) != 0,
                (byte1 & 3u8) != 2,
                (byte1 & 3u8) != 1,
                (byte1 & 3u8) != 3,
        ;
        "UNKNOWN"
    }
}

/// Decodes the match header at `idx`: the number of bytes to copy, how far
/// back to copy from, and the number of header bytes.
pub fn decode_match(byte1: u8, input: &[u8], idx: usize) -> (r: (usize, usize, usize))
    requires
        match_header_fits(byte1, input@.len() as int, idx as int),
    ensures
        r.0 == match_length(byte1, input@, idx as int),
        r.1 == match_offset(byte1, input@, idx as int),
        r.2 == match_size(byte1),
{
    match crate::xpress::decode_match(byte1, input, idx) {
        Ok(t) => t,
        Err(_) => (0, 0, 0),
    }
}

fn context(bit_in_word: usize, bit_value: u32, match_type: &str, match_offset: usize, match_length: usize) -> (r: MatchContext)
    ensures
        r@ == (bit_in_word, bit_value, match_type@, match_offset, match_length),
{
    MatchContext {
        bit_in_word,
        bit_value,
        match_type: String::from_str(match_type),
        match_offset,
        match_length,
    }
}

/// Finds the item that produces output position `target_offset` of the
/// stream `data`; `None` exactly where a match header runs past the stream
/// or a position would overflow.
pub fn try_find_indicator_context(data: &[u8], target_offset: usize) -> (r: Option<(MatchContext, usize)>)
    ensures
        r matches Some((c, p)) ==> indicator_context(data@, target_offset as int) == Some((c@, p as int)),
        r is None ==> indicator_context(data@, target_offset as int) is None,
{
    let len = data.len();
    let mut stream_pos: usize = 0;
    let mut data_idx: usize = 0;
    if len < 4 {
        return Some((context(0, 0, "unknown", 0, 0), 0));
    }
    let mut indicator = read_u32_le(data, data_idx);
    data_idx += 4;
    let mut bit_idx: usize = 0;
    let mut word_pos: usize = 0;
    let ghost start = indicator_context(data@, target_offset as int);
    loop
        invariant
            len == data@.len(),
            4 <= data_idx <= len + 1,
            bit_idx <= 32,
            start == indicator_context(data@, target_offset as int),
            start == context_run(
                data@,
                target_offset as int,
                stream_pos as int,
                data_idx as int,
                indicator,
                bit_idx as int,
                word_pos as int,
            ),
            word_pos < data_idx,
        decreases (len + 1 - data_idx) * 34 + (32 - bit_idx),
    {
        if !(data_idx < len) {
            return Some((context(0, 0, "unknown", 0, 0), 0));
        }
        if target_offset > usize::MAX - 10 {
            return None;
        }
        if !(stream_pos < target_offset + 10) {
            return Some((context(0, 0, "unknown", 0, 0), 0));
        }
        if bit_idx >= 32 {
            if len - data_idx < 4 {
                return Some((context(0, 0, "unknown", 0, 0), 0));
            }
            indicator = read_u32_le(data, data_idx);
            word_pos = data_idx;
            data_idx += 4;
            bit_idx = 0;
        }
        let bit = (indicator >> bit_idx) & 1;
        let indicator_pos = word_pos;
        if bit == 0 {
            if stream_pos == target_offset {
                return Some((context(bit_idx, 0, "literal", 0, 0), indicator_pos));
            }
            if data_idx == usize::MAX {
                return None;
            }
            data_idx += 1;
            stream_pos += 1;
        } else {
            if data_idx >= len {
                return Some((context(0, 0, "unknown", 0, 0), 0));
            }
            let byte1 = data[data_idx];
            if !header_fits(byte1, data, data_idx) {
                return None;
            }
            let (length, offset, consumed) = decode_match(byte1, data, data_idx);
            if stream_pos > usize::MAX - length {
                return None;
            }
            if stream_pos <= target_offset && stream_pos + length > target_offset {
                let match_type = classify_match(byte1);
                return Some((context(bit_idx, 1, match_type, offset, length), indicator_pos));
            }
            data_idx += consumed;
            stream_pos += length;
        }
        bit_idx += 1;
    }
}

/// Whether the match header at `idx` lies inside the stream.
pub fn header_fits(byte1: u8, data: &[u8], idx: usize) -> (r: bool)
    requires
        idx <= data@.len(),
    ensures
        r == match_header_fits(byte1, data@.len() as int, idx as int),
{
    assert((byte1 & 3u8) == byte1 % 4 && (byte1 & 7u8) == byte1 % 8) by (bit_vector);
    let size: usize = if (byte1 & 0b11) == 0 {
        1
    } else if (byte1 & 0b11) == 0b10 || (byte1 & 0b11) == 0b01 {
        2
    } else if (byte1 & 0b111) == 0b111 {
        4
    } else {
        3
    };
    (byte1 & 0b11) == 0 || size <= data.len() - idx
}

/// Finds the item that produces output position `target_offset` of the
/// stream `data`: its context and the position of its indicator word, or
/// the "unknown" context at 0 when the scan ends first.
pub fn find_indicator_context(data: &[u8], target_offset: usize) -> (r: (MatchContext, usize))
    requires
        indicator_context(data@, target_offset as int) is Some,
    ensures
        indicator_context(data@, target_offset as int) == Some((r.0@, r.1 as int)),
{
    match try_find_indicator_context(data, target_offset) {
        Some(r) => r,
        None => (context(0, 0, "unknown", 0, 0), 0),
    }
}

} // verus!
