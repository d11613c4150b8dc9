//! Byte-level codec for the tagged-value binary encoding used on the wire.
//!
//! An item starts with a head byte whose upper three bits give the major
//! type and whose lower five bits (the additional information) either hold
//! a small value directly or say how many following bytes carry the value
//! big-endian (24: one byte, 25: two, 26: four, 27: eight).  Additional
//! information 31 opens an indefinite-length container that runs until a
//! break byte.  The encoder always emits the shortest (canonical) head;
//! the reader accepts any well-formed head.

use vstd::prelude::*;

verus! {

/// Major type of an unsigned integer item.
pub const MAJOR_UINT: u8 = 0;
/// Major type of a byte string item.
pub const MAJOR_BYTES: u8 = 2;
/// Major type of a text string item.
pub const MAJOR_TEXT: u8 = 3;
/// Major type of an array item.
pub const MAJOR_ARRAY: u8 = 4;
/// Major type of a map item.
pub const MAJOR_MAP: u8 = 5;
/// The byte that ends an indefinite-length container.
pub const BREAK_BYTE: u8 = 0xFF;
/// The simple value `null`.
pub const NULL_BYTE: u8 = 0xF6;

/// The canonical (shortest) head encoding a major type and a value.
pub open spec fn head(major: u8, v: u64) -> Seq<u8> {
    if v < 24 {
        seq![(major * 32 + v) as u8]
    } else if v <= 0xFF {
        seq![(major * 32 + 24) as u8, v as u8]
    } else if v <= 0xFFFF {
        seq![(major * 32 + 25) as u8, (v / 0x100) as u8, (v % 0x100) as u8]
    } else if v <= 0xFFFF_FFFF {
        seq![
            (major * 32 + 26) as u8,
            (v / 0x100_0000 % 0x100) as u8,
            (v / 0x1_0000 % 0x100) as u8,
            (v / 0x100 % 0x100) as u8,
            (v % 0x100) as u8,
        ]
    } else {
        seq![
            (major * 32 + 27) as u8,
            (v / 0x100_0000_0000_0000 % 0x100) as u8,
            (v / 0x1_0000_0000_0000 % 0x100) as u8,
            (v / 0x100_0000_0000 % 0x100) as u8,
            (v / 0x1_0000_0000 % 0x100) as u8,
            (v / 0x100_0000 % 0x100) as u8,
            (v / 0x1_0000 % 0x100) as u8,
            (v / 0x100 % 0x100) as u8,
            (v % 0x100) as u8,
        ]
    }
}

/// The additional-information class of the canonical head for `v`:
/// the largest class a reader must accept to read `v` back.
pub open spec fn head_ai(v: u64) -> u8 {
    if v < 24 {
        v as u8
    } else if v <= 0xFF {
        24
    } else if v <= 0xFFFF {
        25
    } else if v <= 0xFFFF_FFFF {
        26
    } else {
        27
    }
}

/// Parse one head at `pos`: major type, value, and the position after the
/// head.  Fails on truncated input, on the reserved classes 28 to 30, and
/// on 31 (the start of an indefinite-length container, handled separately).
pub open spec fn parse_head(s: Seq<u8>, pos: int) -> Option<(u8, nat, int)> {
    if pos < 0 || pos >= s.len() {
        None
    } else {
        let major = s[pos] / 32;
        let ai = s[pos] % 32;
        if ai < 24 {
            Some((major, ai as nat, pos + 1))
        } else if ai == 24 {
            if pos + 2 <= s.len() {
                Some((major, s[pos + 1] as nat, pos + 2))
            } else {
                None
            }
        } else if ai == 25 {
            if pos + 3 <= s.len() {
                Some((major, (s[pos + 1] * 0x100 + s[pos + 2]) as nat, pos + 3))
            } else {
                None
            }
        } else if ai == 26 {
            if pos + 5 <= s.len() {
                Some((
                    major,
                    (s[pos + 1] * 0x100_0000 + s[pos + 2] * 0x1_0000 + s[pos + 3] * 0x100 + s[pos
                        + 4]) as nat,
                    pos + 5,
                ))
            } else {
                None
            }
        } else if ai == 27 {
            if pos + 9 <= s.len() {
                Some((
                    major,
                    (s[pos + 1] * 0x100_0000_0000_0000 + s[pos + 2] * 0x1_0000_0000_0000 + s[pos + 3]
                        * 0x100_0000_0000 + s[pos + 4] * 0x1_0000_0000 + s[pos + 5] * 0x100_0000 + s[pos
                        + 6] * 0x1_0000 + s[pos + 7] * 0x100 + s[pos + 8]) as nat,
                    pos + 9,
                ))
            } else {
                None
            }
        } else {
            None
        }
    }
}

/// Parse an unsigned integer whose head class is at most `max_ai`
/// (24 reads up to one value byte, 25 two, 26 four, 27 eight).
pub open spec fn parse_uint(s: Seq<u8>, pos: int, max_ai: u8) -> Option<(nat, int)> {
    match parse_head(s, pos) {
        Some((major, v, next)) => if major == MAJOR_UINT && s[pos] % 32 <= max_ai {
            Some((v, next))
        } else {
            None
        },
        None => None,
    }
}

/// Parse a definite-length byte string: its contents and the position after.
pub open spec fn parse_bytes(s: Seq<u8>, pos: int) -> Option<(Seq<u8>, int)> {
    match parse_head(s, pos) {
        Some((major, len, next)) => if major == MAJOR_BYTES && next + len <= s.len() {
            Some((s.subrange(next, next + len), next + len))
        } else {
            None
        },
        None => None,
    }
}

/// Parse an array or map head of major type `major`: `None` for the start
/// of an indefinite-length container, `Some(n)` for a definite length.
pub open spec fn parse_container(s: Seq<u8>, pos: int, major: u8) -> Option<(Option<nat>, int)> {
    if 0 <= pos < s.len() && s[pos] == major * 32 + 31 {
        Some((None, pos + 1))
    } else {
        match parse_head(s, pos) {
            Some((m, n, next)) => if m == major {
                Some((Some(n), next))
            } else {
                None
            },
            None => None,
        }
    }
}

/// A break byte stands at `pos`.
pub open spec fn is_break(s: Seq<u8>, pos: int) -> bool {
    0 <= pos < s.len() && s[pos] == BREAK_BYTE
}

/// A head byte recombines into its major type and additional information.
proof fn lemma_head_byte(major: u8, ai: u8)
    requires
        major < 8,
        ai < 32,
    ensures
        major * 32 + ai < 256,
        (major * 32 + ai) as u8 / 32 == major,
        (major * 32 + ai) as u8 % 32 == ai,
{
    assert(major * 32 + ai < 256 && (major * 32 + ai) / 32 == major && (major * 32 + ai) % 32
        == ai) by (bit_vector)
        requires
            major < 8,
            ai < 32,
    ;
}

/// The two big-endian bytes of a 16-bit value recombine into the value.
proof fn lemma_recompose2(v: u64)
    requires
        v <= 0xFFFF,
    ensures
        v / 0x100 < 0x100,
        (v / 0x100) * 0x100 + v % 0x100 == v,
{
    assert(v / 0x100 < 0x100 && (v / 0x100) * 0x100 + v % 0x100 == v) by (bit_vector)
        requires
            v <= 0xFFFF,
    ;
}

/// The four big-endian bytes of a 32-bit value recombine into the value.
proof fn lemma_recompose4(v: u64)
    requires
        v <= 0xFFFF_FFFF,
    ensures
        (v / 0x100_0000 % 0x100) * 0x100_0000 + (v / 0x1_0000 % 0x100) * 0x1_0000 + (v / 0x100
            % 0x100) * 0x100 + v % 0x100 == v,
{
    assert((v / 0x100_0000 % 0x100) * 0x100_0000 + (v / 0x1_0000 % 0x100) * 0x1_0000 + (v / 0x100
        % 0x100) * 0x100 + v % 0x100 == v) by (bit_vector)
        requires
            v <= 0xFFFF_FFFF,
    ;
}

/// The eight big-endian bytes of a 64-bit value recombine into the value.
proof fn lemma_recompose8(v: u64)
    ensures
        (v / 0x100_0000_0000_0000 % 0x100) * 0x100_0000_0000_0000 + (v / 0x1_0000_0000_0000 % 0x100)
            * 0x1_0000_0000_0000 + (v / 0x100_0000_0000 % 0x100) * 0x100_0000_0000 + (v
            / 0x1_0000_0000 % 0x100) * 0x1_0000_0000 + (v / 0x100_0000 % 0x100) * 0x100_0000 + (v
            / 0x1_0000 % 0x100) * 0x1_0000 + (v / 0x100 % 0x100) * 0x100 + v % 0x100 == v,
{
    assert((v / 0x100_0000_0000_0000 % 0x100) * 0x100_0000_0000_0000 + (v / 0x1_0000_0000_0000
        % 0x100) * 0x1_0000_0000_0000 + (v / 0x100_0000_0000 % 0x100) * 0x100_0000_0000 + (v
        / 0x1_0000_0000 % 0x100) * 0x1_0000_0000 + (v / 0x100_0000 % 0x100) * 0x100_0000 + (v
        / 0x1_0000 % 0x100) * 0x1_0000 + (v / 0x100 % 0x100) * 0x100 + v % 0x100 == v) by (bit_vector);
}

/// Parsing a head at the place where a canonical head was written yields
/// exactly the encoded major type and value.
pub proof fn lemma_parse_head_of_encoded(s: Seq<u8>, pos: int, major: u8, v: u64)
    requires
        major < 8,
        0 <= pos,
        pos + head(major, v).len() <= s.len(),
        s.subrange(pos, pos + head(major, v).len() as int) == head(major, v),
    ensures
        parse_head(s, pos) == Some((major, v as nat, pos + head(major, v).len())),
        s[pos] % 32 == head_ai(v),
{
    let h = head(major, v);
    assert forall|i: int| 0 <= i < h.len() implies s[pos + i] == h[i] by {
        assert(s.subrange(pos, pos + h.len() as int)[i] == s[pos + i]);
    }
    if v < 24 {
        let ai = v as u8;
        lemma_head_byte(major, ai);
        assert(s[pos] == h[0] && h[0] == (major * 32 + ai) as u8);
        assert(s[pos] / 32 == major && s[pos] % 32 == ai);
    } else if v <= 0xFF {
        lemma_head_byte(major, 24);
        assert(s[pos] == h[0] && h[0] == (major * 32 + 24) as u8);
        assert(s[pos] / 32 == major && s[pos] % 32 == 24);
        assert(s[pos + 1] == h[1] && h[1] == v as u8);
    } else if v <= 0xFFFF {
        lemma_head_byte(major, 25);
        lemma_recompose2(v);
        assert(s[pos] == h[0] && h[0] == (major * 32 + 25) as u8);
        assert(s[pos] / 32 == major && s[pos] % 32 == 25);
        assert(s[pos + 1] == h[1] && s[pos + 2] == h[2]);
        assert(s[pos + 1] == (v / 0x100) as u8 && s[pos + 2] == (v % 0x100) as u8);
        assert(s[pos + 1] * 0x100 + s[pos + 2] == v);
    } else if v <= 0xFFFF_FFFF {
        lemma_head_byte(major, 26);
        lemma_recompose4(v);
        assert(s[pos] == h[0] && h[0] == (major * 32 + 26) as u8);
        assert(s[pos] / 32 == major && s[pos] % 32 == 26);
        assert(s[pos + 1] == h[1] && s[pos + 2] == h[2] && s[pos + 3] == h[3] && s[pos + 4] == h[4]);
        assert(s[pos + 1] * 0x100_0000 + s[pos + 2] * 0x1_0000 + s[pos + 3] * 0x100 + s[pos + 4]
            == v);
    } else {
        lemma_head_byte(major, 27);
        lemma_recompose8(v);
        assert(s[pos] == h[0] && h[0] == (major * 32 + 27) as u8);
        assert(s[pos] / 32 == major && s[pos] % 32 == 27);
        assert(s[pos + 1] == h[1] && s[pos + 2] == h[2] && s[pos + 3] == h[3] && s[pos + 4] == h[4]
            && s[pos + 5] == h[5] && s[pos + 6] == h[6] && s[pos + 7] == h[7] && s[pos + 8] == h[8]);
        assert(s[pos + 1] * 0x100_0000_0000_0000 + s[pos + 2] * 0x1_0000_0000_0000 + s[pos + 3]
            * 0x100_0000_0000 + s[pos + 4] * 0x1_0000_0000 + s[pos + 5] * 0x100_0000 + s[pos + 6]
            * 0x1_0000 + s[pos + 7] * 0x100 + s[pos + 8] == v);
    }
}

/// Parsing an unsigned integer at the place where a canonical integer was
/// written yields the encoded value, for any accepted class wide enough.
pub proof fn lemma_parse_uint_of_encoded(s: Seq<u8>, pos: int, v: u64, max_ai: u8)
    requires
        0 <= pos,
        pos + head(MAJOR_UINT, v).len() <= s.len(),
        s.subrange(pos, pos + head(MAJOR_UINT, v).len() as int) == head(MAJOR_UINT, v),
        head_ai(v) <= max_ai,
    ensures
        parse_uint(s, pos, max_ai) == Some((v as nat, pos + head(MAJOR_UINT, v).len())),
{
    lemma_parse_head_of_encoded(s, pos, MAJOR_UINT, v);
}

/// Parsing a byte string at the place where a canonical byte string
/// (head plus contents) was written yields the encoded contents.
pub proof fn lemma_parse_bytes_of_encoded(s: Seq<u8>, pos: int, data: Seq<u8>)
    requires
        0 <= pos,
        data.len() <= u64::MAX,
        pos + head(MAJOR_BYTES, data.len() as u64).len() + data.len() <= s.len(),
        s.subrange(pos, pos + head(MAJOR_BYTES, data.len() as u64).len() + data.len()) == head(
            MAJOR_BYTES,
            data.len() as u64,
        ) + data,
    ensures
        parse_bytes(s, pos) == Some(
            (data, pos + head(MAJOR_BYTES, data.len() as u64).len() + data.len()),
        ),
{
    let hlen = head(MAJOR_BYTES, data.len() as u64).len() as int;
    let whole = head(MAJOR_BYTES, data.len() as u64) + data;
    assert forall|i: int| 0 <= i < whole.len() implies s[pos + i] == whole[i] by {
        assert(s.subrange(pos, pos + whole.len() as int)[i] == s[pos + i]);
    }
    assert(s.subrange(pos, pos + hlen) =~= head(MAJOR_BYTES, data.len() as u64));
    lemma_parse_head_of_encoded(s, pos, MAJOR_BYTES, data.len() as u64);
    assert forall|j: int|
        0 <= j < data.len() implies s.subrange(pos + hlen, pos + hlen + data.len() as int)[j]
        == data[j] by {
        let i = hlen + j;
        assert(s[pos + i] == whole[i]);
        assert(whole[i] == data[j]);
        assert(s.subrange(pos + hlen, pos + hlen + data.len() as int)[j] == s[pos + hlen + j]);
        assert(pos + hlen + j == pos + i);
    }
    assert(s.subrange(pos + hlen, pos + hlen + data.len() as int) =~= data);
}

/// Parsing a container head at the place where a canonical definite-length
/// container head was written yields the encoded count.
pub proof fn lemma_parse_container_of_encoded(s: Seq<u8>, pos: int, major: u8, n: u64)
    requires
        major < 8,
        0 <= pos,
        pos + head(major, n).len() <= s.len(),
        s.subrange(pos, pos + head(major, n).len() as int) == head(major, n),
    ensures
        parse_container(s, pos, major) == Some((Some(n as nat), pos + head(major, n).len())),
{
    lemma_parse_head_of_encoded(s, pos, major, n);
    assert(s[pos] % 32 == head_ai(n));
    assert(head_ai(n) < 28);
    if s[pos] == major * 32 + 31 {
        lemma_head_byte(major, 31);
        assert(s[pos] % 32 == 31);
    }
}

/// Append the canonical head for `(major, v)` to `buf`.
pub fn enc_head(buf: &mut Vec<u8>, major: u8, v: u64)
    requires
        major < 8,
        old(buf)@.len() + 9 <= usize::MAX,
    ensures
        final(buf)@ == old(buf)@ + head(major, v),
{
    if v < 24 {
        buf.push(major * 32 + v as u8);
        assert(buf@ =~= old(buf)@ + head(major, v));
    } else if v <= 0xFF {
        buf.push(major * 32 + 24);
        buf.push(v as u8);
        assert(buf@ =~= old(buf)@ + head(major, v));
    } else if v <= 0xFFFF {
        buf.push(major * 32 + 25);
        buf.push((v / 0x100) as u8);
        buf.push((v % 0x100) as u8);
        assert(buf@ =~= old(buf)@ + head(major, v));
    } else if v <= 0xFFFF_FFFF {
        buf.push(major * 32 + 26);
        buf.push((v / 0x100_0000 % 0x100) as u8);
        buf.push((v / 0x1_0000 % 0x100) as u8);
        buf.push((v / 0x100 % 0x100) as u8);
        buf.push((v % 0x100) as u8);
        assert(buf@ =~= old(buf)@ + head(major, v));
    } else {
        buf.push(major * 32 + 27);
        buf.push((v / 0x100_0000_0000_0000 % 0x100) as u8);
        buf.push((v / 0x1_0000_0000_0000 % 0x100) as u8);
        buf.push((v / 0x100_0000_0000 % 0x100) as u8);
        buf.push((v / 0x1_0000_0000 % 0x100) as u8);
        buf.push((v / 0x100_0000 % 0x100) as u8);
        buf.push((v / 0x1_0000 % 0x100) as u8);
        buf.push((v / 0x100 % 0x100) as u8);
        buf.push((v % 0x100) as u8);
        assert(buf@ =~= old(buf)@ + head(major, v));
    }
}

/// Append a canonical byte string (head plus contents) to `buf`.
pub fn enc_bytes(buf: &mut Vec<u8>, data: &[u8])
    requires
        old(buf)@.len() + 9 + data@.len() <= usize::MAX,
    ensures
        final(buf)@ == old(buf)@ + head(MAJOR_BYTES, data@.len() as u64) + data@,
{
    enc_head(buf, MAJOR_BYTES, data.len() as u64);
    buf.extend_from_slice(data);
    assert(buf@ =~= old(buf)@ + head(MAJOR_BYTES, data@.len() as u64) + data@);
}

/// Read one head at `pos`, as `parse_head` describes.
pub fn read_head(s: &[u8], pos: usize) -> (r: Option<(u8, u64, usize)>)
    ensures
        match r {
            Some((major, v, next)) => parse_head(s@, pos as int) == Some(
                (major, v as nat, next as int),
            ) && pos < next <= s@.len(),
            None => parse_head(s@, pos as int) is None,
        },
{
    if pos >= s.len() {
        return None;
    }
    let b: u8 = s[pos];
    let major: u8 = b / 32;
    let ai: u8 = b % 32;
    if ai < 24 {
        Some((major, ai as u64, pos + 1))
    } else if ai == 24 {
        if s.len() - pos >= 2 {
            Some((major, s[pos + 1] as u64, pos + 2))
        } else {
            None
        }
    } else if ai == 25 {
        if s.len() - pos >= 3 {
            Some((major, (s[pos + 1] as u64) * 0x100 + (s[pos + 2] as u64), pos + 3))
        } else {
            None
        }
    } else if ai == 26 {
        if s.len() - pos >= 5 {
            Some(
                (
                    major,
                    (s[pos + 1] as u64) * 0x100_0000 + (s[pos + 2] as u64) * 0x1_0000 + (s[pos
                        + 3] as u64) * 0x100 + (s[pos + 4] as u64),
                    pos + 5,
                ),
            )
        } else {
            None
        }
    } else if ai == 27 {
        if s.len() - pos >= 9 {
            Some(
                (
                    major,
                    (s[pos + 1] as u64) * 0x100_0000_0000_0000 + (s[pos + 2] as u64)
                        * 0x1_0000_0000_0000 + (s[pos + 3] as u64) * 0x100_0000_0000 + (s[pos
                        + 4] as u64) * 0x1_0000_0000 + (s[pos + 5] as u64) * 0x100_0000 + (s[pos
                        + 6] as u64) * 0x1_0000 + (s[pos + 7] as u64) * 0x100 + (s[pos + 8] as u64),
                    pos + 9,
                ),
            )
        } else {
            None
        }
    } else {
        None
    }
}

/// Read an unsigned integer whose head class is at most `max_ai`,
/// as `parse_uint` describes.
pub fn read_uint(s: &[u8], pos: usize, max_ai: u8) -> (r: Option<(u64, usize)>)
    ensures
        match r {
            Some((v, next)) => parse_uint(s@, pos as int, max_ai) == Some((v as nat, next as int))
                && pos < next <= s@.len(),
            None => parse_uint(s@, pos as int, max_ai) is None,
        },
{
    match read_head(s, pos) {
        Some((major, v, next)) => {
            if major == MAJOR_UINT && s[pos] % 32 <= max_ai {
                Some((v, next))
            } else {
                None
            }
        },
        None => None,
    }
}

/// Read a definite-length byte string; the contents are
/// `s[start .. start + len]`, as `parse_bytes` describes.
pub fn read_bytes(s: &[u8], pos: usize) -> (r: Option<(usize, usize, usize)>)
    ensures
        match r {
            Some((start, len, next)) => {
                &&& parse_bytes(s@, pos as int) is Some
                &&& parse_bytes(s@, pos as int) == Some(
                    (s@.subrange(start as int, start as int + len as int), next as int),
                )
                &&& start + len == next
                &&& pos < start <= next <= s@.len()
            },
            None => parse_bytes(s@, pos as int) is None,
        },
{
    match read_head(s, pos) {
        Some((major, len, next)) => {
            if major == MAJOR_BYTES && len <= (s.len() - next) as u64 {
                let len_us: usize = len as usize;
                Some((next, len_us, next + len_us))
            } else {
                None
            }
        },
        None => None,
    }
}

/// Read an array or map head of major type `major`, as `parse_container`
/// describes: `None` in the first slot means indefinite length.
pub fn read_container(s: &[u8], pos: usize, major: u8) -> (r: Option<(Option<u64>, usize)>)
    requires
        major < 8,
    ensures
        match r {
            Some((count, next)) => {
                &&& parse_container(s@, pos as int, major) == Some(
                    (
                        match count {
                            Some(n) => Some(n as nat),
                            None => None,
                        },
                        next as int,
                    ),
                )
                &&& pos < next <= s@.len()
            },
            None => parse_container(s@, pos as int, major) is None,
        },
{
    if pos < s.len() && s[pos] == major * 32 + 31 {
        Some((None, pos + 1))
    } else {
        match read_head(s, pos) {
            Some((m, n, next)) => {
                if m == major {
                    Some((Some(n), next))
                } else {
                    None
                }
            },
            None => None,
        }
    }
}

/// A break byte stands at `pos`.
pub fn at_break(s: &[u8], pos: usize) -> (r: bool)
    ensures
        r == is_break(s@, pos as int),
{
    pos < s.len() && s[pos] == BREAK_BYTE
}

} // verus!
