//! Parser for the self-describing binary model container.
//!
//! Layout, all integers little-endian: a fixed magic and version, a count
//! of metadata entries and of tensor records, the ordered typed key/value
//! metadata, the tensor directory (name, quantization kind, shape, absolute
//! byte offset, byte length), then raw tensor bytes at the declared
//! offsets. Any malformation is a format error and never partial success;
//! declared offsets are honored exactly and validated in bounds and
//! non-overlapping.

use vstd::prelude::*;
use crate::errors::BrainError;

verus! {

/// The container's magic signature.
pub const MAGIC: u32 = 0x4c43_4942;

/// The one supported container version.
pub const VERSION: u32 = 1;

/// Value of the four bytes at p read as a little-endian u32.
pub open spec fn spec_le32(b: Seq<u8>, p: int) -> int {
    b[p] + 0x100 * b[p + 1] + 0x1_0000 * b[p + 2] + 0x100_0000 * b[p + 3]
}

/// Value of the eight bytes at p read as a little-endian u64.
pub open spec fn spec_le64(b: Seq<u8>, p: int) -> int {
    spec_le32(b, p) + 0x1_0000_0000 * spec_le32(b, p + 4)
}

/// Read a little-endian u32, if in bounds.
pub fn read_u32(b: &Vec<u8>, p: usize) -> (r: Option<u32>)
    ensures
        p + 4 <= b@.len() ==> (r matches Some(v) && v as int == spec_le32(b@, p as int)),
        p + 4 > b@.len() ==> r is None,
{
    if p < b.len() && b.len() - p >= 4 {
        let v: u32 = b[p] as u32 + 0x100u32 * (b[p + 1] as u32) + 0x1_0000u32 * (b[p + 2] as u32)
            + 0x100_0000u32 * (b[p + 3] as u32);
        Some(v)
    } else {
        None
    }
}

/// Read a little-endian u64, if in bounds.
pub fn read_u64(b: &Vec<u8>, p: usize) -> (r: Option<u64>)
    ensures
        p + 8 <= b@.len() ==> (r matches Some(v) && v as int == spec_le64(b@, p as int)),
        p + 8 > b@.len() ==> r is None,
{
    if p < b.len() && b.len() - p >= 8 {
        let lo = match read_u32(b, p) {
            Some(v) => v,
            None => {
                return None;
            },
        };
        let hi = match read_u32(b, p + 4) {
            Some(v) => v,
            None => {
                return None;
            },
        };
        Some(lo as u64 + 0x1_0000_0000u64 * (hi as u64))
    } else {
        None
    }
}

/// How one tensor's bytes encode its elements.
#[derive(Clone, Copy, Debug, PartialEq, Eq, Structural)]
pub enum QuantKind {
    /// Full-precision fixed-point: eight bytes per element.
    Fx64,
    /// Block-quantized: blocks of 32 signed one-byte values sharing one
    /// four-byte fixed-point scale.
    Q8,
}

/// One entry of the tensor directory.
pub struct TensorDescriptor {
    /// Tensor name bytes.
    pub name: Vec<u8>,
    /// Element encoding of the data bytes.
    pub kind: QuantKind,
    /// Ordered dimensions.
    pub shape: Vec<u32>,
    /// Absolute byte offset of the data in the file.
    pub offset: u64,
    /// Byte length of the data.
    pub length: u64,
}

/// Number of elements a shape declares.
pub open spec fn spec_shape_product(shape: Seq<u32>) -> int
    decreases shape.len(),
{
    if shape.len() == 0 {
        1
    } else {
        spec_shape_product(shape.drop_last()) * shape.last()
    }
}

/// Bytes required by a quantization kind for a given element count.
pub open spec fn spec_byte_len(kind: QuantKind, elems: int) -> int {
    match kind {
        QuantKind::Fx64 => elems * 8,
        QuantKind::Q8 => (elems / 32) * 36,
    }
}

/// A descriptor is consistent with a file of the given size: data in
/// bounds, and the declared length exactly what the shape and kind demand.
pub open spec fn spec_desc_ok(d: TensorDescriptor, file_len: int) -> bool {
    &&& d.offset + d.length <= file_len
    &&& (d.kind is Q8 ==> spec_shape_product(d.shape@) % 32 == 0)
    &&& d.length == spec_byte_len(d.kind, spec_shape_product(d.shape@))
}

/// Two descriptors do not overlap in the file.
pub open spec fn spec_disjoint(a: TensorDescriptor, b: TensorDescriptor) -> bool {
    a.offset + a.length <= b.offset || b.offset + b.length <= a.offset
}

/// A typed metadata value.
pub enum MetaValue {
    /// 32-bit unsigned integer.
    U32(u32),
    /// 64-bit unsigned integer.
    U64(u64),
    /// 64-bit signed integer.
    I64(i64),
    /// Boolean.
    Bool(bool),
    /// Raw bits of a 32-bit float, kept uninterpreted.
    F32Bits(u32),
    /// Byte string.
    Str(Vec<u8>),
    /// Array of 32-bit unsigned integers.
    U32Arr(Vec<u32>),
    /// Array of byte strings.
    StrArr(Vec<Vec<u8>>),
}

/// One metadata entry: a string key and a typed value.
pub struct MetaEntry {
    /// Key bytes.
    pub key: Vec<u8>,
    /// Typed value.
    pub value: MetaValue,
}

/// The parsed container: metadata and tensor directory over the raw bytes.
pub struct ModelFile {
    /// Ordered metadata entries.
    pub metadata: Vec<MetaEntry>,
    /// Tensor directory.
    pub tensors: Vec<TensorDescriptor>,
    /// Total file size in bytes.
    pub file_len: u64,
}

impl ModelFile {
    /// Every descriptor is in bounds and consistent, and no two overlap.
    pub open spec fn wf(self) -> bool {
        &&& forall|i: int| 0 <= i < self.tensors@.len()
            ==> spec_desc_ok(#[trigger] self.tensors@[i], self.file_len as int)
        &&& forall|i: int, j: int| 0 <= i < j < self.tensors@.len()
            ==> spec_disjoint(#[trigger] self.tensors@[i], #[trigger] self.tensors@[j])
    }
}

/// The header is intact: long enough, with the exact magic signature and a
/// supported version.
pub open spec fn spec_header_ok(b: Seq<u8>) -> bool {
    &&& b.len() >= 16
    &&& spec_le32(b, 0) == MAGIC
    &&& spec_le32(b, 4) == VERSION
}

/// Most metadata entries, tensors, dimensions, and name or string bytes a
/// file may declare.
pub const MAX_COUNT: usize = 4096;

/// Largest element count one tensor may declare.
pub const MAX_ELEMS: u64 = 1099511627776;

/// Largest file size the parser accepts, so every position fits a usize
/// with room for header arithmetic.
pub const MAX_FILE: usize = 1073741824;

/// Copy a byte range out of the file, if in bounds.
pub fn read_bytes(b: &Vec<u8>, p: usize, len: usize) -> (r: Option<Vec<u8>>)
    ensures
        p + len <= b@.len() ==> (r matches Some(v) && v@ == b@.subrange(p as int, p as int + len)),
        p + len > b@.len() ==> r is None,
{
    if p <= b.len() && b.len() - p >= len {
        let n = b.len();
        let mut out: Vec<u8> = Vec::new();
        let mut i: usize = 0;
        while i < len
            invariant
                i <= len,
                n == b@.len(),
                p + len <= n,
                out@ == b@.subrange(p as int, p as int + i),
            decreases len - i,
        {
            proof {
                assert(b@.subrange(p as int, p as int + i).push(b@[p as int + i])
                    =~= b@.subrange(p as int, p as int + i + 1));
            }
            out.push(b[p + i]);
            i += 1;
        }
        Some(out)
    } else {
        None
    }
}

/// Parse one typed metadata value at p; returns the value and the position
/// after it.
fn parse_value(b: &Vec<u8>, p: usize, tag: u8) -> (r: Result<(MetaValue, usize), BrainError>)
    requires
        p <= b@.len(),
        b@.len() <= MAX_FILE,
    ensures
        r matches Ok((v, q)) ==> (p < q <= b@.len()),
        r is Err ==> r === Err::<(MetaValue, usize), BrainError>(BrainError::Format),
{
    match tag {
        0u8 => match read_u32(b, p) {
            Some(v) => Ok((MetaValue::U32(v), p + 4)),
            None => Err(BrainError::Format),
        },
        1u8 => match read_u64(b, p) {
            Some(v) => Ok((MetaValue::U64(v), p + 8)),
            None => Err(BrainError::Format),
        },
        2u8 => match read_u64(b, p) {
            Some(v) => {
                let sv: i64 = if v >= 0x8000_0000_0000_0000u64 {
                    -((0xffff_ffff_ffff_ffffu64 - v) as i64) - 1
                } else {
                    v as i64
                };
                Ok((MetaValue::I64(sv), p + 8))
            },
            None => Err(BrainError::Format),
        },
        3u8 => {
            if p < b.len() {
                let byte = b[p];
                if byte == 0 || byte == 1 {
                    Ok((MetaValue::Bool(byte == 1), p + 1))
                } else {
                    Err(BrainError::Format)
                }
            } else {
                Err(BrainError::Format)
            }
        },
        4u8 => match read_u32(b, p) {
            Some(v) => Ok((MetaValue::F32Bits(v), p + 4)),
            None => Err(BrainError::Format),
        },
        5u8 => match read_u32(b, p) {
            Some(len32) => {
                let len = len32 as usize;
                if len > MAX_COUNT {
                    return Err(BrainError::Format);
                }
                match read_bytes(b, p + 4, len) {
                    Some(s) => Ok((MetaValue::Str(s), p + 4 + len)),
                    None => Err(BrainError::Format),
                }
            },
            None => Err(BrainError::Format),
        },
        6u8 => match read_u32(b, p) {
            Some(cnt32) => {
                let cnt = cnt32 as usize;
                if cnt > MAX_COUNT {
                    return Err(BrainError::Format);
                }
                let mut items: Vec<u32> = Vec::new();
                let mut i: usize = 0;
                let mut q: usize = p + 4;
                while i < cnt
                    invariant
                        i <= cnt,
                        cnt <= MAX_COUNT,
                        p < q,
                        q <= b@.len(),
                        b@.len() <= MAX_FILE,
                        q == p + 4 + 4 * i,
                    decreases cnt - i,
                {
                    match read_u32(b, q) {
                        Some(v) => {
                            items.push(v);
                        },
                        None => {
                            return Err(BrainError::Format);
                        },
                    }
                    q += 4;
                    i += 1;
                }
                Ok((MetaValue::U32Arr(items), q))
            },
            None => Err(BrainError::Format),
        },
        7u8 => match read_u32(b, p) {
            Some(cnt32) => {
                let cnt = cnt32 as usize;
                if cnt > MAX_COUNT {
                    return Err(BrainError::Format);
                }
                let mut items: Vec<Vec<u8>> = Vec::new();
                let mut i: usize = 0;
                let mut q: usize = p + 4;
                while i < cnt
                    invariant
                        i <= cnt,
                        cnt <= MAX_COUNT,
                        p < q,
                        q <= b@.len(),
                        b@.len() <= MAX_FILE,
                    decreases cnt - i,
                {
                    let slen32 = match read_u32(b, q) {
                        Some(v) => v,
                        None => {
                            return Err(BrainError::Format);
                        },
                    };
                    let slen = slen32 as usize;
                    if slen > MAX_COUNT {
                        return Err(BrainError::Format);
                    }
                    match read_bytes(b, q + 4, slen) {
                        Some(s) => {
                            items.push(s);
                        },
                        None => {
                            return Err(BrainError::Format);
                        },
                    }
                    q = q + 4 + slen;
                    i += 1;
                }
                Ok((MetaValue::StrArr(items), q))
            },
            None => Err(BrainError::Format),
        },
        _ => Err(BrainError::Format),
    }
}

/// Parse one tensor-directory record at p: name, quantization kind, shape,
/// offset and length, all validated against the file size.
fn parse_tensor(b: &Vec<u8>, p: usize) -> (r: Result<(TensorDescriptor, usize), BrainError>)
    requires
        p <= b@.len(),
        b@.len() <= MAX_FILE,
    ensures
        r matches Ok((d, q)) ==> (p < q <= b@.len() && spec_desc_ok(d, b@.len() as int)),
        r is Err ==> r === Err::<(TensorDescriptor, usize), BrainError>(BrainError::Format),
{
    let name_len32 = match read_u32(b, p) {
        Some(v) => v,
        None => {
            return Err(BrainError::Format);
        },
    };
    let name_len = name_len32 as usize;
    if name_len > MAX_COUNT {
        return Err(BrainError::Format);
    }
    let name = match read_bytes(b, p + 4, name_len) {
        Some(v) => v,
        None => {
            return Err(BrainError::Format);
        },
    };
    let mut q: usize = p + 4 + name_len;
    if q >= b.len() {
        return Err(BrainError::Format);
    }
    let kind = match b[q] {
        0u8 => QuantKind::Fx64,
        1u8 => QuantKind::Q8,
        _ => {
            return Err(BrainError::Format);
        },
    };
    q += 1;
    let n_dims32 = match read_u32(b, q) {
        Some(v) => v,
        None => {
            return Err(BrainError::Format);
        },
    };
    q += 4;
    let n_dims = n_dims32 as usize;
    if n_dims > 8 {
        return Err(BrainError::Format);
    }
    let mut shape: Vec<u32> = Vec::new();
    let mut prod: u64 = 1;
    let mut i: usize = 0;
    while i < n_dims
        invariant
            i <= n_dims,
            n_dims <= 8,
            name_len <= MAX_COUNT,
            q == p + 9 + name_len + 4 * i,
            q <= b@.len() + 4,
            b@.len() <= MAX_FILE,
            p < q,
            shape@.len() == i,
            prod as int == spec_shape_product(shape@),
            1 <= prod <= MAX_ELEMS,
        decreases n_dims - i,
    {
        let d32 = match read_u32(b, q) {
            Some(v) => v,
            None => {
                return Err(BrainError::Format);
            },
        };
        let np = match prod.checked_mul(d32 as u64) {
            Some(v) => v,
            None => {
                return Err(BrainError::Format);
            },
        };
        if np == 0 || np > MAX_ELEMS {
            return Err(BrainError::Format);
        }
        proof {
            assert(shape@.push(d32).drop_last() =~= shape@);
        }
        shape.push(d32);
        prod = np;
        q += 4;
        i += 1;
    }
    let offset = match read_u64(b, q) {
        Some(v) => v,
        None => {
            return Err(BrainError::Format);
        },
    };
    q += 8;
    let length = match read_u64(b, q) {
        Some(v) => v,
        None => {
            return Err(BrainError::Format);
        },
    };
    q += 8;
    // The declared length must be exactly what the kind and shape demand.
    let expected: u64 = match kind {
        QuantKind::Fx64 => prod * 8,
        QuantKind::Q8 => {
            if prod % 32 != 0 {
                return Err(BrainError::Format);
            }
            (prod / 32) * 36
        },
    };
    if length != expected {
        return Err(BrainError::Format);
    }
    // Data bytes must lie inside the file.
    let end = match offset.checked_add(length) {
        Some(v) => v,
        None => {
            return Err(BrainError::Format);
        },
    };
    if end > b.len() as u64 {
        return Err(BrainError::Format);
    }
    if q > b.len() {
        return Err(BrainError::Format);
    }
    Ok((TensorDescriptor { name, kind, shape, offset, length }, q))
}

/// Parse and validate the whole container. Succeeds only on an intact
/// header; a corrupted magic signature or unsupported version is a format
/// error, never partial success. On success every descriptor is in bounds,
/// consistent with its shape and kind, and non-overlapping with the rest.
pub fn parse_model_file(b: &Vec<u8>) -> (r: Result<ModelFile, BrainError>)
    ensures
        r matches Ok(m) ==> (spec_header_ok(b@) && m.wf() && m.file_len == b@.len()
            && b@.len() <= MAX_FILE
            && m.metadata@.len() == spec_le32(b@, 8)
            && m.tensors@.len() == spec_le32(b@, 12)),
        !spec_header_ok(b@) ==> r === Err::<ModelFile, BrainError>(BrainError::Format),
        r is Err ==> r === Err::<ModelFile, BrainError>(BrainError::Format),
{
    if b.len() < 16 {
        return Err(BrainError::Format);
    }
    if b.len() > MAX_FILE {
        return Err(BrainError::Format);
    }
    let magic = match read_u32(b, 0) {
        Some(v) => v,
        None => {
            return Err(BrainError::Format);
        },
    };
    let version = match read_u32(b, 4) {
        Some(v) => v,
        None => {
            return Err(BrainError::Format);
        },
    };
    if magic != MAGIC || version != VERSION {
        return Err(BrainError::Format);
    }
    let n_meta32 = match read_u32(b, 8) {
        Some(v) => v,
        None => {
            return Err(BrainError::Format);
        },
    };
    let n_tensors32 = match read_u32(b, 12) {
        Some(v) => v,
        None => {
            return Err(BrainError::Format);
        },
    };
    let n_meta = n_meta32 as usize;
    let n_tensors = n_tensors32 as usize;
    if n_meta > MAX_COUNT || n_tensors > MAX_COUNT {
        return Err(BrainError::Format);
    }

    let mut metadata: Vec<MetaEntry> = Vec::new();
    let mut pos: usize = 16;
    let mut i: usize = 0;
    while i < n_meta
        invariant
            i <= n_meta,
            n_meta <= MAX_COUNT,
            pos <= b@.len(),
            b@.len() <= MAX_FILE,
            spec_header_ok(b@),
            metadata@.len() == i,
        decreases n_meta - i,
    {
        let key_len32 = match read_u32(b, pos) {
            Some(v) => v,
            None => {
                return Err(BrainError::Format);
            },
        };
        let key_len = key_len32 as usize;
        if key_len > MAX_COUNT {
            return Err(BrainError::Format);
        }
        let key = match read_bytes(b, pos + 4, key_len) {
            Some(v) => v,
            None => {
                return Err(BrainError::Format);
            },
        };
        let tag_pos = pos + 4 + key_len;
        if tag_pos >= b.len() {
            return Err(BrainError::Format);
        }
        let tag = b[tag_pos];
        let (value, next) = match parse_value(b, tag_pos + 1, tag) {
            Ok(v) => v,
            Err(e) => {
                return Err(e);
            },
        };
        metadata.push(MetaEntry { key, value });
        pos = next;
        i += 1;
    }

    let mut tensors: Vec<TensorDescriptor> = Vec::new();
    let mut j: usize = 0;
    while j < n_tensors
        invariant
            j <= n_tensors,
            n_tensors <= MAX_COUNT,
            pos <= b@.len(),
            b@.len() <= MAX_FILE,
            spec_header_ok(b@),
            tensors@.len() == j,
            forall|t: int| 0 <= t < j ==> spec_desc_ok(#[trigger] tensors@[t], b@.len() as int),
        decreases n_tensors - j,
    {
        let (d, next) = match parse_tensor(b, pos) {
            Ok(v) => v,
            Err(e) => {
                return Err(e);
            },
        };
        tensors.push(d);
        pos = next;
        j += 1;
    }

    // Declared tensor ranges must not overlap.
    let mut a: usize = 0;
    while a < tensors.len()
        invariant
            a <= tensors@.len(),
            b@.len() <= MAX_FILE,
            spec_header_ok(b@),
            forall|t: int| 0 <= t < tensors@.len()
                ==> spec_desc_ok(#[trigger] tensors@[t], b@.len() as int),
            forall|x: int, y: int| 0 <= x < y < tensors@.len() && x < a
                ==> spec_disjoint(#[trigger] tensors@[x], #[trigger] tensors@[y]),
        decreases tensors@.len() - a,
    {
        let mut c: usize = a + 1;
        while c < tensors.len()
            invariant
                a < c <= tensors@.len() || c == a + 1,
                a < tensors@.len(),
                b@.len() <= MAX_FILE,
                forall|t: int| 0 <= t < tensors@.len()
                    ==> spec_desc_ok(#[trigger] tensors@[t], b@.len() as int),
                forall|y: int| a < y < c
                    ==> spec_disjoint(tensors@[a as int], #[trigger] tensors@[y]),
            decreases tensors@.len() - c,
        {
            proof {
                assert(spec_desc_ok(tensors@[a as int], b@.len() as int));
                assert(spec_desc_ok(tensors@[c as int], b@.len() as int));
            }
            let ea = tensors[a].offset + tensors[a].length;
            let ec = tensors[c].offset + tensors[c].length;
            if !(ea <= tensors[c].offset || ec <= tensors[a].offset) {
                return Err(BrainError::Format);
            }
            c += 1;
        }
        a += 1;
    }

    Ok(ModelFile { metadata, tensors, file_len: b.len() as u64 })
}

} // verus!
