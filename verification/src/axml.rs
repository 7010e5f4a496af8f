//! The binary XML form of `AndroidManifest.xml` (AXML): a header, then chunks; the string
//! pool chunk gives the strings that start-element chunks refer to by index.
use vstd::prelude::*;
use crate::error::BackendError;
use crate::manifest::{
    apply_tag, apply_tag_spec, attrs_view, empty_manifest, new_manifest, Attrs, AttrsView,
    ManifestInfo, ManifestView,
};
use crate::text::{chars_of, decimal_i64, extend_chars, int_decimal, hex_fixed, push_hex_fixed};
use crate::unicode::{utf16_lossy, utf16_lossy_spec, utf8_lossy, utf8_lossy_spec};

verus! {

pub const RES_XML_TYPE: u16 = 0x0003;

pub const RES_STRING_POOL_TYPE: u16 = 0x0001;

pub const RES_XML_START_ELEMENT_TYPE: u16 = 0x0102;

pub const TYPE_REFERENCE: u8 = 0x01;

pub const TYPE_STRING: u8 = 0x03;

pub const TYPE_INT_DEC: u8 = 0x10;

pub const TYPE_INT_HEX: u8 = 0x11;

pub const TYPE_INT_BOOLEAN: u8 = 0x12;

pub const NO_INDEX: u32 = 0xffff_ffff;

// ---------------------------------------------------------------------------
// Little-endian integers
// ---------------------------------------------------------------------------
/// The little-endian 16-bit integer at `off`.
pub open spec fn le16(b: Seq<u8>, off: int) -> int {
    b[off] as int + b[off + 1] as int * 256
}

/// The little-endian 32-bit integer at `off`.
pub open spec fn le32(b: Seq<u8>, off: int) -> int {
    le16(b, off) + le16(b, off + 2) * 65536
}

/// The 16-bit little-endian integer at `offset`, or an error past the end.
pub fn le_u16(bytes: &[u8], offset: usize) -> (r: Result<u16, BackendError>)
    ensures
        offset + 2 <= bytes@.len() ==> r == Ok::<u16, BackendError>(le16(bytes@, offset as int) as u16),
        offset + 2 > bytes@.len() ==> r == Err::<u16, BackendError>(BackendError::ManifestParseFailed),
{
    if offset > bytes.len() || bytes.len() - offset < 2 {
        return Err(BackendError::ManifestParseFailed);
    }
    Ok((bytes[offset] as u16) + (bytes[offset + 1] as u16) * 256)
}

/// The 32-bit little-endian integer at `offset`, or an error past the end.
pub fn le_u32(bytes: &[u8], offset: usize) -> (r: Result<u32, BackendError>)
    ensures
        offset + 4 <= bytes@.len() ==> r == Ok::<u32, BackendError>(le32(bytes@, offset as int) as u32),
        offset + 4 > bytes@.len() ==> r == Err::<u32, BackendError>(BackendError::ManifestParseFailed),
{
    if offset > bytes.len() || bytes.len() - offset < 4 {
        return Err(BackendError::ManifestParseFailed);
    }
    Ok((bytes[offset] as u32) + (bytes[offset + 1] as u32) * 256 + (bytes[offset + 2] as u32)
        * 65536 + (bytes[offset + 3] as u32) * 16777216)
}

// ---------------------------------------------------------------------------
// String pool
// ---------------------------------------------------------------------------
/// A length prefix of one or two bytes (high bit of the first byte set means two):
/// the length and the position after the prefix.
pub open spec fn length8_spec(c: Seq<u8>, start: int) -> Option<(int, int)> {
    if start >= c.len() {
        None
    } else if c[start] < 128 {
        Some((c[start] as int, start + 1))
    } else if start + 1 >= c.len() {
        None
    } else {
        Some(((c[start] - 128) * 256 + c[start + 1], start + 2))
    }
}

/// A length prefix of one or two 16-bit units (high bit of the first unit set means two).
pub open spec fn length16_spec(c: Seq<u8>, start: int) -> Option<(int, int)> {
    if start + 2 > c.len() {
        None
    } else if le16(c, start) < 0x8000 {
        Some((le16(c, start), start + 2))
    } else if start + 4 > c.len() {
        None
    } else {
        Some(((le16(c, start) - 0x8000) * 65536 + le16(c, start + 2), start + 4))
    }
}

/// A UTF-8 pool string at `start`: a character count, a byte count, then the bytes.
pub open spec fn utf8_entry_spec(c: Seq<u8>, start: int) -> Option<Seq<char>> {
    match length8_spec(c, start) {
        None => None,
        Some((_, off1)) => match length8_spec(c, off1) {
            None => None,
            Some((n, off2)) => if off2 + n > c.len() {
                None
            } else {
                Some(utf8_lossy_spec(c.subrange(off2, off2 + n)))
            },
        },
    }
}

/// The `n` little-endian 16-bit units from `off`.
pub open spec fn units_spec(c: Seq<u8>, off: int, n: int) -> Seq<u16> {
    Seq::new(n as nat, |k: int| le16(c, off + 2 * k) as u16)
}

/// A UTF-16 pool string at `start`: a unit count, then the units.
pub open spec fn utf16_entry_spec(c: Seq<u8>, start: int) -> Option<Seq<char>> {
    match length16_spec(c, start) {
        None => None,
        Some((n, off)) => if off + 2 * n > c.len() {
            None
        } else {
            Some(utf16_lossy_spec(units_spec(c, off, n)))
        },
    }
}

/// Whether the pool's strings are UTF-8 (flag bit 8), else UTF-16.
pub open spec fn pool_is_utf8(c: Seq<u8>) -> bool {
    (le32(c, 16) as u32) & 0x100u32 != 0
}

/// String `i` of a pool chunk.
pub open spec fn pool_entry_spec(c: Seq<u8>, i: int) -> Option<Seq<char>> {
    let start = le32(c, 20) + le32(c, 28 + 4 * i);
    if start >= c.len() {
        None
    } else if pool_is_utf8(c) {
        utf8_entry_spec(c, start)
    } else {
        utf16_entry_spec(c, start)
    }
}

/// The strings of a string pool chunk, or `None` when the chunk is malformed.
pub open spec fn string_pool_spec(c: Seq<u8>) -> Option<Seq<Seq<char>>> {
    if c.len() < 28 {
        None
    } else if 28 + 4 * le32(c, 8) > c.len() {
        None
    } else if forall|i: int| 0 <= i < le32(c, 8) ==> (#[trigger] pool_entry_spec(c, i)) is Some {
        Some(Seq::new(le32(c, 8) as nat, |i: int| pool_entry_spec(c, i).unwrap()))
    } else {
        None
    }
}

/// Reads a one- or two-byte length prefix.
pub fn decode_length8(chunk: &[u8], start: usize) -> (r: Result<(usize, usize), BackendError>)
    ensures
        match length8_spec(chunk@, start as int) {
            Some((n, next)) => r matches Ok((a, b)) && a == n && b == next,
            None => r == Err::<(usize, usize), BackendError>(BackendError::ManifestParseFailed),
        },
{
    if start >= chunk.len() {
        return Err(BackendError::ManifestParseFailed);
    }
    let first = chunk[start];
    if first < 128 {
        Ok((first as usize, start + 1))
    } else {
        if start + 1 >= chunk.len() {
            return Err(BackendError::ManifestParseFailed);
        }
        let second = chunk[start + 1];
        Ok((((first - 128) as usize) * 256 + second as usize, start + 2))
    }
}

/// Reads a one- or two-unit length prefix.
pub fn decode_length16(chunk: &[u8], start: usize) -> (r: Result<(usize, usize), BackendError>)
    ensures
        match length16_spec(chunk@, start as int) {
            Some((n, next)) => r matches Ok((a, b)) && a == n && b == next,
            None => r == Err::<(usize, usize), BackendError>(BackendError::ManifestParseFailed),
        },
{
    if start > chunk.len() || chunk.len() - start < 2 {
        return Err(BackendError::ManifestParseFailed);
    }
    let first = match le_u16(chunk, start) {
        Ok(v) => v,
        Err(e) => return Err(e),
    };
    if first < 0x8000 {
        Ok((first as usize, start + 2))
    } else {
        if chunk.len() - start < 4 {
            return Err(BackendError::ManifestParseFailed);
        }
        let second = match le_u16(chunk, start + 2) {
            Ok(v) => v,
            Err(e) => return Err(e),
        };
        Ok((((first - 0x8000) as usize) * 65536 + second as usize, start + 4))
    }
}

/// Decodes a UTF-8 pool string.
pub fn decode_utf8_pool_string(chunk: &[u8], start: usize) -> (r: Result<String, BackendError>)
    ensures
        match utf8_entry_spec(chunk@, start as int) {
            Some(s) => r matches Ok(x) && x@ == s,
            None => r == Err::<String, BackendError>(BackendError::ManifestParseFailed),
        },
{
    let (_, off1) = match decode_length8(chunk, start) {
        Ok(v) => v,
        Err(e) => return Err(e),
    };
    let (byte_len, off2) = match decode_length8(chunk, off1) {
        Ok(v) => v,
        Err(e) => return Err(e),
    };
    if byte_len > chunk.len() - off2 {
        return Err(BackendError::ManifestParseFailed);
    }
    let end = off2 + byte_len;
    Ok(utf8_lossy(&chunk[off2..end]))
}

/// Decodes a UTF-16 pool string.
pub fn decode_utf16_pool_string(chunk: &[u8], start: usize) -> (r: Result<String, BackendError>)
    ensures
        match utf16_entry_spec(chunk@, start as int) {
            Some(s) => r matches Ok(x) && x@ == s,
            None => r == Err::<String, BackendError>(BackendError::ManifestParseFailed),
        },
{
    let (char_len, off) = match decode_length16(chunk, start) {
        Ok(v) => v,
        Err(e) => return Err(e),
    };
    if char_len > (chunk.len() - off) / 2 {
        return Err(BackendError::ManifestParseFailed);
    }
    assert(off + 2 * char_len <= chunk@.len());
    let mut vals: Vec<u16> = Vec::new();
    let mut k: usize = 0;
    let mut p: usize = off;
    while k < char_len
        invariant
            k <= char_len,
            off + 2 * char_len <= chunk@.len(),
            p == off + 2 * k,
            vals@ == units_spec(chunk@, off as int, k as int),
        decreases char_len - k,
    {
        let v = (chunk[p] as u16) + (chunk[p + 1] as u16) * 256;
        vals.push(v);
        k += 1;
        p += 2;
        assert(vals@ =~= units_spec(chunk@, off as int, k as int));
    }
    Ok(utf16_lossy(&vals))
}

/// String `i` of a pool chunk whose index table is in bounds.
fn pool_entry(chunk: &[u8], i: usize, strings_start: u32, utf8: bool) -> (r: Result<String, BackendError>)
    requires
        chunk@.len() >= 28,
        28 + 4 * i + 4 <= chunk@.len(),
        strings_start == le32(chunk@, 20),
        utf8 == pool_is_utf8(chunk@),
    ensures
        match pool_entry_spec(chunk@, i as int) {
            Some(s) => r matches Ok(x) && x@ == s,
            None => r == Err::<String, BackendError>(BackendError::ManifestParseFailed),
        },
{
    assert(chunk@.len() == chunk.len());
    let off = match le_u32(chunk, 28 + i * 4) {
        Ok(v) => v,
        Err(e) => return Err(e),
    };
    let start64 = (strings_start as u64) + (off as u64);
    if start64 >= chunk.len() as u64 {
        return Err(BackendError::ManifestParseFailed);
    }
    let start = start64 as usize;
    if utf8 {
        decode_utf8_pool_string(chunk, start)
    } else {
        decode_utf16_pool_string(chunk, start)
    }
}

/// Parses a string pool chunk into its strings.
pub fn parse_string_pool(chunk: &[u8]) -> (r: Result<Vec<String>, BackendError>)
    ensures
        match string_pool_spec(chunk@) {
            Some(ss) => r matches Ok(v) && v@.map_values(|s: String| s@) == ss,
            None => r == Err::<Vec<String>, BackendError>(BackendError::ManifestParseFailed),
        },
{
    if chunk.len() < 28 {
        return Err(BackendError::ManifestParseFailed);
    }
    let string_count = match le_u32(chunk, 8) {
        Ok(v) => v,
        Err(e) => return Err(e),
    };
    let flags = match le_u32(chunk, 16) {
        Ok(v) => v,
        Err(e) => return Err(e),
    };
    let strings_start = match le_u32(chunk, 20) {
        Ok(v) => v,
        Err(e) => return Err(e),
    };
    let utf8 = (flags & 0x0000_0100) != 0;
    if (string_count as u64) > ((chunk.len() - 28) as u64) / 4 {
        return Err(BackendError::ManifestParseFailed);
    }
    let count = string_count as usize;
    let ghost c = chunk@;
    let mut out: Vec<String> = Vec::new();
    let mut i: usize = 0;
    while i < count
        invariant
            i <= count,
            c == chunk@,
            c.len() >= 28,
            count == le32(c, 8),
            28 + 4 * count <= c.len(),
            strings_start == le32(c, 20),
            utf8 == pool_is_utf8(c),
            out@.len() == i,
            forall|j: int| 0 <= j < i ==> pool_entry_spec(c, j) == Some(#[trigger] out@[j]@),
        decreases count - i,
    {
        match pool_entry(chunk, i, strings_start, utf8) {
            Ok(s) => {
                out.push(s);
                i += 1;
            },
            Err(e) => {
                assert(pool_entry_spec(c, i as int) is None);
                return Err(e);
            },
        }
    }
    assert forall|j: int| 0 <= j < le32(c, 8) implies (#[trigger] pool_entry_spec(c, j)) is Some by {
        assert(pool_entry_spec(c, j) == Some(out@[j]@));
    }
    assert(out@.map_values(|s: String| s@) =~= Seq::new(
        le32(c, 8) as nat,
        |i: int| pool_entry_spec(c, i).unwrap(),
    ));
    Ok(out)
}

// ---------------------------------------------------------------------------
// Start elements
// ---------------------------------------------------------------------------
/// Pool string `idx`, or the empty string when there is none.
pub open spec fn get_string_spec(strings: Seq<Seq<char>>, idx: int) -> Seq<char> {
    if 0 <= idx < strings.len() {
        strings[idx]
    } else {
        Seq::empty()
    }
}

/// The reference number written as `0x` and eight lowercase hexadecimal digits.
pub open spec fn hex8_spec(prefix: Seq<char>, data: u32) -> Seq<char> {
    prefix + hex_fixed(data as nat, 8)
}

/// The text of a typed attribute value.
pub open spec fn typed_value_spec(strings: Seq<Seq<char>>, data_type: u8, data: u32) -> Seq<char> {
    if data_type == TYPE_STRING {
        get_string_spec(strings, data as int)
    } else if data_type == TYPE_INT_DEC {
        int_decimal(if data >= 0x8000_0000 {
            data - 0x1_0000_0000
        } else {
            data as int
        })
    } else if data_type == TYPE_INT_HEX {
        hex8_spec("0x"@, data)
    } else if data_type == TYPE_INT_BOOLEAN {
        if data == 0 {
            "false"@
        } else {
            "true"@
        }
    } else if data_type == TYPE_REFERENCE {
        hex8_spec("@0x"@, data)
    } else {
        hex8_spec("0x"@, data)
    }
}

/// The position of attribute record `i` of a start-element chunk.
pub open spec fn attr_base(c: Seq<u8>, i: int) -> int {
    le16(c, 2) + le16(c, le16(c, 2) + 8) + i * le16(c, le16(c, 2) + 10)
}

/// Attribute `i` of a start-element chunk: its name and its value text.
pub open spec fn attr_spec(c: Seq<u8>, strings: Seq<Seq<char>>, i: int) -> (Seq<char>, Seq<char>) {
    let base = attr_base(c, i);
    let raw = le32(c, base + 8);
    (
        get_string_spec(strings, le32(c, base + 4)),
        if raw != NO_INDEX {
            get_string_spec(strings, raw)
        } else {
            typed_value_spec(strings, c[base + 15], le32(c, base + 16) as u32)
        },
    )
}

/// A start-element chunk: the element name and its attributes, or `None` when malformed.
pub open spec fn start_element_spec(c: Seq<u8>, strings: Seq<Seq<char>>) -> Option<
    (Seq<char>, AttrsView),
> {
    let hs = le16(c, 2);
    if c.len() < 36 {
        None
    } else if hs < 16 || c.len() < hs + 20 {
        None
    } else if le16(c, hs + 10) < 20 {
        None
    } else if exists|i: int| 0 <= i < le16(c, hs + 12) && #[trigger] attr_base(c, i) + 20 > c.len() {
        None
    } else {
        Some(
            (
                get_string_spec(strings, le32(c, hs + 4)),
                Seq::new(le16(c, hs + 12) as nat, |i: int| attr_spec(c, strings, i)),
            ),
        )
    }
}

/// Pool string `idx`, or the empty string.
pub fn get_string(strings: &Vec<String>, idx: u32) -> (r: Vec<char>)
    ensures
        r@ == get_string_spec(strings@.map_values(|s: String| s@), idx as int),
{
    if (idx as usize) < strings.len() {
        chars_of(strings[idx as usize].as_str())
    } else {
        Vec::new()
    }
}

/// The text of a typed attribute value.
pub fn typed_value_to_string(strings: &Vec<String>, data_type: u8, data: u32) -> (r: Vec<char>)
    ensures
        r@ == typed_value_spec(strings@.map_values(|s: String| s@), data_type, data),
{
    if data_type == TYPE_STRING {
        get_string(strings, data)
    } else if data_type == TYPE_INT_DEC {
        let v: i64 = if data >= 0x8000_0000 {
            (data as i64) - 0x1_0000_0000
        } else {
            data as i64
        };
        decimal_i64(v)
    } else if data_type == TYPE_INT_BOOLEAN {
        if data == 0 {
            chars_of("false")
        } else {
            chars_of("true")
        }
    } else {
        let mut out = if data_type == TYPE_REFERENCE {
            chars_of("@0x")
        } else {
            chars_of("0x")
        };
        push_hex_fixed(&mut out, data as u64, 8);
        out
    }
}

/// Parses a start-element chunk and fills the manifest in from it.
pub fn parse_binary_start_element(chunk: &[u8], strings: &Vec<String>, info: &mut ManifestInfo) -> (r:
    Result<(), BackendError>)
    ensures
        match start_element_spec(chunk@, strings@.map_values(|s: String| s@)) {
            Some((name, attrs)) => r is Ok && final(info)@ == apply_tag_spec(name, attrs, old(info)@),
            None => r == Err::<(), BackendError>(BackendError::ManifestParseFailed) && final(info)@
                == old(info)@,
        },
{
    let ghost c = chunk@;
    let ghost ss = strings@.map_values(|s: String| s@);
    if chunk.len() < 36 {
        return Err(BackendError::ManifestParseFailed);
    }
    let header_size = match le_u16(chunk, 2) {
        Ok(v) => v as usize,
        Err(e) => return Err(e),
    };
    if header_size < 16 || chunk.len() < header_size + 20 {
        return Err(BackendError::ManifestParseFailed);
    }
    let ext = header_size;
    let name_idx = match le_u32(chunk, ext + 4) {
        Ok(v) => v,
        Err(e) => return Err(e),
    };
    let attribute_start = match le_u16(chunk, ext + 8) {
        Ok(v) => v as usize,
        Err(e) => return Err(e),
    };
    let attribute_size = match le_u16(chunk, ext + 10) {
        Ok(v) => v as usize,
        Err(e) => return Err(e),
    };
    let attribute_count = match le_u16(chunk, ext + 12) {
        Ok(v) => v as usize,
        Err(e) => return Err(e),
    };
    if attribute_size < 20 {
        return Err(BackendError::ManifestParseFailed);
    }
    let element_name = get_string(strings, name_idx);
    let attrs_start = ext + attribute_start;
    let mut attrs: Attrs = Vec::new();
    let mut i: usize = 0;
    let mut base: u64 = attrs_start as u64;
    while i < attribute_count
        invariant
            c == chunk@,
            ss == strings@.map_values(|s: String| s@),
            i <= attribute_count,
            attribute_count == le16(c, le16(c, 2) + 12),
            attribute_size == le16(c, le16(c, 2) + 10),
            attribute_size >= 20,
            attrs_start == le16(c, 2) + le16(c, le16(c, 2) + 8),
            attrs_start <= 0x2_0000,
            base == attr_base(c, i as int),
            base <= 0x2_0000 + i * 0x1_0000,
            attribute_count <= 0xffff,
            attrs@.len() == i,
            forall|j: int| 0 <= j < i ==> attr_base(c, j) + 20 <= c.len(),
            forall|j: int|
                0 <= j < i ==> (#[trigger] attrs_view(attrs@)[j]) == attr_spec(c, ss, j),
        decreases attribute_count - i,
    {
        if base + 20 > chunk.len() as u64 {
            assert(attr_base(c, i as int) + 20 > c.len());
            return Err(BackendError::ManifestParseFailed);
        }
        let b = base as usize;
        let attr_name_idx = match le_u32(chunk, b + 4) {
            Ok(v) => v,
            Err(e) => return Err(e),
        };
        let raw_value_idx = match le_u32(chunk, b + 8) {
            Ok(v) => v,
            Err(e) => return Err(e),
        };
        let data_type = chunk[b + 15];
        let data = match le_u32(chunk, b + 16) {
            Ok(v) => v,
            Err(e) => return Err(e),
        };
        let name = get_string(strings, attr_name_idx);
        let value = if raw_value_idx != NO_INDEX {
            get_string(strings, raw_value_idx)
        } else {
            typed_value_to_string(strings, data_type, data)
        };
        let ghost before = attrs_view(attrs@);
        attrs.push((name, value));
        assert(attrs_view(attrs@) =~= before.push((name@, value@)));
        assert forall|j: int| 0 <= j < i + 1 implies (#[trigger] attrs_view(attrs@)[j]) == attr_spec(
            c,
            ss,
            j,
        ) by {
            if j < i {
                assert(attrs_view(attrs@)[j] == before[j]);
            }
        }
        proof {
            assert(attr_base(c, i + 1) == attr_base(c, i as int) + attribute_size) by (nonlinear_arith)
                requires
                    attr_base(c, i as int) == le16(c, 2) + le16(c, le16(c, 2) + 8) + i * le16(
                        c,
                        le16(c, 2) + 10,
                    ),
                    attr_base(c, i + 1) == le16(c, 2) + le16(c, le16(c, 2) + 8) + (i + 1) * le16(
                        c,
                        le16(c, 2) + 10,
                    ),
                    attribute_size == le16(c, le16(c, 2) + 10),
            ;
        }
        base = base + (attribute_size as u64);
        i += 1;
    }
    assert(attrs_view(attrs@) =~= Seq::new(
        attribute_count as nat,
        |j: int| attr_spec(c, ss, j),
    ));
    apply_tag(&element_name, &attrs, info);
    Ok(())
}

// ---------------------------------------------------------------------------
// The whole document
// ---------------------------------------------------------------------------
/// The manifest after the chunks from `off` up to `total`, or `None` when one is malformed.
pub open spec fn walk_chunks(
    b: Seq<u8>,
    total: int,
    off: int,
    strings: Seq<Seq<char>>,
    m: ManifestView,
) -> Option<ManifestView>
    decreases total - off,
{
    if off + 8 > total {
        Some(m)
    } else {
        let chunk_type = le16(b, off);
        let header_size = le16(b, off + 2);
        let chunk_size = le32(b, off + 4);
        if chunk_size == 0 || off + chunk_size > total || header_size > chunk_size {
            None
        } else {
            let chunk = b.subrange(off, off + chunk_size);
            if chunk_type == RES_STRING_POOL_TYPE {
                match string_pool_spec(chunk) {
                    None => None,
                    Some(ss) => walk_chunks(b, total, off + chunk_size, ss, m),
                }
            } else if chunk_type == RES_XML_START_ELEMENT_TYPE {
                match start_element_spec(chunk, strings) {
                    None => None,
                    Some((name, attrs)) => walk_chunks(
                        b,
                        total,
                        off + chunk_size,
                        strings,
                        apply_tag_spec(name, attrs, m),
                    ),
                }
            } else {
                walk_chunks(b, total, off + chunk_size, strings, m)
            }
        }
    }
}

/// What a binary manifest declares, or `None` when it is malformed.
pub open spec fn binary_manifest_spec(b: Seq<u8>) -> Option<ManifestView> {
    if b.len() < 8 {
        None
    } else if le16(b, 0) != RES_XML_TYPE {
        None
    } else if le32(b, 4) > b.len() {
        None
    } else {
        walk_chunks(b, le32(b, 4), 8, Seq::empty(), empty_manifest())
    }
}

/// Whether a manifest lacks the package name or either SDK level.
pub open spec fn is_partial(m: ManifestView) -> bool {
    m.package_name is None || m.min_sdk_version is None || m.target_sdk_version is None
}

/// Parses a binary manifest (without the warning it may lead to).
pub fn parse_binary_chunks(bytes: &[u8]) -> (r: Result<ManifestInfo, BackendError>)
    ensures
        match binary_manifest_spec(bytes@) {
            Some(m) => r matches Ok(info) && info@ == m,
            None => r == Err::<ManifestInfo, BackendError>(BackendError::ManifestParseFailed),
        },
{
    let ghost b = bytes@;
    if bytes.len() < 8 {
        return Err(BackendError::ManifestParseFailed);
    }
    let xml_type = match le_u16(bytes, 0) {
        Ok(v) => v,
        Err(e) => return Err(e),
    };
    if xml_type != RES_XML_TYPE {
        return Err(BackendError::ManifestParseFailed);
    }
    let total_size = match le_u32(bytes, 4) {
        Ok(v) => v as usize,
        Err(e) => return Err(e),
    };
    if total_size > bytes.len() {
        return Err(BackendError::ManifestParseFailed);
    }
    let mut strings: Vec<String> = Vec::new();
    let mut info = new_manifest();
    let mut offset: usize = 8;
    assert(strings@.map_values(|s: String| s@) =~= Seq::<Seq<char>>::empty());
    while offset <= total_size && total_size - offset >= 8
        invariant
            b == bytes@,
            total_size == le32(b, 4),
            total_size <= b.len(),
            8 <= offset,
            offset <= total_size + 8,
            offset > total_size ==> offset == 8,
            walk_chunks(b, total_size as int, 8, Seq::empty(), empty_manifest()) == walk_chunks(
                b,
                total_size as int,
                offset as int,
                strings@.map_values(|s: String| s@),
                info@,
            ),
        decreases total_size + 8 - offset,
    {
        let chunk_type = match le_u16(bytes, offset) {
            Ok(v) => v,
            Err(e) => return Err(e),
        };
        let header_size = match le_u16(bytes, offset + 2) {
            Ok(v) => v as usize,
            Err(e) => return Err(e),
        };
        let chunk_size = match le_u32(bytes, offset + 4) {
            Ok(v) => v as usize,
            Err(e) => return Err(e),
        };
        if chunk_size == 0 || chunk_size > total_size - offset || header_size > chunk_size {
            return Err(BackendError::ManifestParseFailed);
        }
        let chunk = &bytes[offset..offset + chunk_size];
        assert(chunk@ == b.subrange(offset as int, offset + chunk_size));
        if chunk_type == RES_STRING_POOL_TYPE {
            match parse_string_pool(chunk) {
                Ok(s) => {
                    strings = s;
                },
                Err(e) => return Err(e),
            }
        } else if chunk_type == RES_XML_START_ELEMENT_TYPE {
            match parse_binary_start_element(chunk, &strings, &mut info) {
                Ok(()) => {},
                Err(e) => return Err(e),
            }
        }
        offset = offset + chunk_size;
    }
    proof {
        if offset > total_size {
            assert(offset == 8);
        }
    }
    Ok(info)
}

} // verus!
