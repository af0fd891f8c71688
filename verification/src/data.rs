//! The IDX file format of the MNIST data set: a big-endian header followed by
//! the raw bytes of the labels or of the images.
use vstd::prelude::*;
use vstd::slice::{slice_subrange, slice_to_vec};

verus! {

/// Magic number at the start of an IDX label file.
pub const LABELS_MAGIC: u32 = 2049;

/// Magic number at the start of an IDX image file.
pub const IMAGES_MAGIC: u32 = 2051;

/// Why a buffer is not a valid IDX file.
#[derive(Debug, PartialEq, Eq, Structural)]
pub enum IdxError {
    /// The buffer ends before the header or the data it announces.
    Truncated,
    /// The first four bytes hold this number instead of the expected magic.
    BadMagic(u32),
}

/// The big-endian unsigned integer held by the four bytes of `b` at `pos`.
pub open spec fn be_u32_at(b: Seq<u8>, pos: int) -> int {
    b[pos] * 16777216 + b[pos + 1] * 65536 + b[pos + 2] * 256 + b[pos + 3]
}

/// Reads the big-endian `u32` stored at `buf[pos..pos + 4]`.
pub fn read_be_u32(buf: &[u8], pos: usize) -> (r: u32)
    requires
        pos + 4 <= buf@.len(),
    ensures
        r == be_u32_at(buf@, pos as int),
{
    let b0 = buf[pos] as u32;
    let b1 = buf[pos + 1] as u32;
    let b2 = buf[pos + 2] as u32;
    let b3 = buf[pos + 3] as u32;
    b0 * 16777216 + b1 * 65536 + b2 * 256 + b3
}

/// The error reported for a buffer that is not a well-formed IDX file whose
/// magic number should be `magic`: a bad magic number where the first four
/// bytes are there and differ from it, and otherwise a truncated buffer.
pub open spec fn header_error(b: Seq<u8>, magic: u32) -> IdxError {
    if b.len() >= 4 && be_u32_at(b, 0) != magic {
        IdxError::BadMagic(be_u32_at(b, 0) as u32)
    } else {
        IdxError::Truncated
    }
}

/// A label file is well formed when its header is complete, carries the label
/// magic number, and the announced number of labels follows it.
pub open spec fn labels_well_formed(b: Seq<u8>) -> bool {
    &&& b.len() >= 8
    &&& be_u32_at(b, 0) == LABELS_MAGIC
    &&& 8 + be_u32_at(b, 4) <= b.len()
}

/// The labels that a well-formed label file holds: one per byte after the header.
pub open spec fn labels_of(b: Seq<u8>) -> Seq<usize> {
    Seq::new(be_u32_at(b, 4) as nat, |i: int| b[8 + i] as usize)
}

/// The big-endian count held by header bytes 4..8, written out byte by byte.
pub open spec fn header_count(b: Seq<u8>) -> int {
    b[4] * 16777216 + b[5] * 65536 + b[6] * 256 + b[7]
}

/// A label file is accepted exactly when it starts with the bytes `00 00 08 01`
/// and the big-endian count in bytes 4..8 fits after the 8-byte header; its
/// labels are then that many, one per byte after the header.
pub proof fn lemma_label_file_layout(b: Seq<u8>)
    ensures
        labels_well_formed(b) <==> (b.len() >= 8 && b[0] == 0 && b[1] == 0 && b[2] == 8 && b[3]
            == 1 && 8 + header_count(b) <= b.len()),
        labels_well_formed(b) ==> labels_of(b).len() == header_count(b),
        labels_well_formed(b) ==> forall|i: int|
            0 <= i < header_count(b) ==> #[trigger] labels_of(b)[i] == b[8 + i],
{
    if b.len() >= 8 {
        lemma_magic_bytes(b);
        assert(be_u32_at(b, 4) == header_count(b));
    }
}

/// The first four bytes hold the label or image magic number exactly when
/// they are `00 00 08 01` or `00 00 08 03`.
proof fn lemma_magic_bytes(b: Seq<u8>)
    requires
        b.len() >= 4,
    ensures
        be_u32_at(b, 0) == 2049 <==> (b[0] == 0 && b[1] == 0 && b[2] == 8 && b[3] == 1),
        be_u32_at(b, 0) == 2051 <==> (b[0] == 0 && b[1] == 0 && b[2] == 8 && b[3] == 3),
{
}

/// Decodes an IDX label file (magic 2049, a count, then one byte per label).
pub fn parse_labels(buf: &[u8]) -> (res: Result<Vec<usize>, IdxError>)
    ensures
        res is Ok <==> labels_well_formed(buf@),
        res matches Ok(v) ==> v@ == labels_of(buf@),
        res is Ok <==> (buf@.len() >= 8 && buf@[0] == 0 && buf@[1] == 0 && buf@[2] == 8
            && buf@[3] == 1 && 8 + header_count(buf@) <= buf@.len()),
        res matches Ok(v) ==> v@.len() == header_count(buf@) && forall|i: int|
            0 <= i < v@.len() ==> #[trigger] v@[i] == buf@[8 + i],
        res matches Err(e) ==> e == header_error(buf@, LABELS_MAGIC),
{
    if buf.len() < 4 {
        return Err(IdxError::Truncated);
    }
    let magic = read_be_u32(buf, 0);
    if magic != LABELS_MAGIC {
        return Err(IdxError::BadMagic(magic));
    }
    if buf.len() < 8 {
        return Err(IdxError::Truncated);
    }
    let count = read_be_u32(buf, 4) as usize;
    if buf.len() - 8 < count {
        return Err(IdxError::Truncated);
    }
    let mut labels: Vec<usize> = Vec::with_capacity(count);
    for i in 0..count
        invariant
            count == be_u32_at(buf@, 4),
            8 + count <= buf.len(),
            labels@.len() == i,
            forall|j: int| 0 <= j < i ==> labels@[j] == buf@[8 + j] as usize,
    {
        labels.push(buf[8 + i] as usize);
    }
    assert(labels@ =~= labels_of(buf@));
    proof {
        lemma_label_file_layout(buf@);
    }
    Ok(labels)
}

/// The images of an IDX image file, each as its row-major pixel bytes.
pub struct IdxImages {
    pub rows: usize,
    pub cols: usize,
    pub images: Vec<Vec<u8>>,
}

/// An image file is well formed when its header is complete, carries the
/// image magic number, and the announced images follow it.
pub open spec fn images_well_formed(b: Seq<u8>) -> bool {
    &&& b.len() >= 16
    &&& be_u32_at(b, 0) == IMAGES_MAGIC
    &&& 16 + be_u32_at(b, 4) * be_u32_at(b, 8) * be_u32_at(b, 12) <= b.len()
}

/// The pixel bytes of image `i` of a well-formed image file.
pub open spec fn image_bytes(b: Seq<u8>, i: int) -> Seq<u8> {
    let size = be_u32_at(b, 8) * be_u32_at(b, 12);
    b.subrange(16 + i * size, 16 + (i + 1) * size)
}

/// The big-endian word held by header bytes `pos..pos + 4`, byte by byte.
pub open spec fn header_word(b: Seq<u8>, pos: int) -> int {
    ((b[pos] * 256 + b[pos + 1]) * 256 + b[pos + 2]) * 256 + b[pos + 3]
}

/// An image file is accepted exactly when it starts with `00 00 08 03` and
/// the images announced by its big-endian count, rows and columns (bytes 4..8,
/// 8..12, 12..16) fit after the 16-byte header; image `i` is then the
/// `rows * cols` bytes starting at `16 + i * rows * cols`.
pub proof fn lemma_image_file_layout(b: Seq<u8>, i: int)
    ensures
        images_well_formed(b) <==> (b.len() >= 16 && b[0] == 0 && b[1] == 0 && b[2] == 8 && b[3]
            == 3 && 16 + header_word(b, 4) * header_word(b, 8) * header_word(b, 12) <= b.len()),
        b.len() >= 16 ==> image_bytes(b, i) == b.subrange(
            16 + i * (header_word(b, 8) * header_word(b, 12)),
            16 + (i + 1) * (header_word(b, 8) * header_word(b, 12)),
        ),
{
    if b.len() >= 16 {
        lemma_magic_bytes(b);
        assert(be_u32_at(b, 4) == header_word(b, 4));
        assert(be_u32_at(b, 8) == header_word(b, 8));
        assert(be_u32_at(b, 12) == header_word(b, 12));
    }
}

/// Decodes an IDX image file (magic 2051, count, rows, columns, then the
/// pixels of each image, row by row).
pub fn parse_images(buf: &[u8]) -> (res: Result<IdxImages, IdxError>)
    ensures
        res is Ok <==> images_well_formed(buf@),
        res matches Ok(imgs) ==> {
            &&& imgs.rows == be_u32_at(buf@, 8)
            &&& imgs.cols == be_u32_at(buf@, 12)
            &&& imgs.images@.len() == be_u32_at(buf@, 4)
            &&& forall|i: int|
                0 <= i < imgs.images@.len() ==> #[trigger] imgs.images@[i]@ == image_bytes(buf@, i)
        },
        res is Ok <==> (buf@.len() >= 16 && buf@[0] == 0 && buf@[1] == 0 && buf@[2] == 8
            && buf@[3] == 3 && 16 + header_word(buf@, 4) * header_word(buf@, 8) * header_word(
            buf@,
            12,
        ) <= buf@.len()),
        res matches Ok(imgs) ==> {
            &&& imgs.images@.len() == header_word(buf@, 4)
            &&& imgs.rows == header_word(buf@, 8)
            &&& imgs.cols == header_word(buf@, 12)
            &&& forall|i: int|
                0 <= i < imgs.images@.len() ==> #[trigger] imgs.images@[i]@ == buf@.subrange(
                    16 + i * (imgs.rows * imgs.cols),
                    16 + (i + 1) * (imgs.rows * imgs.cols),
                )
        },
        res matches Err(e) ==> e == header_error(buf@, IMAGES_MAGIC),
{
    if buf.len() < 4 {
        return Err(IdxError::Truncated);
    }
    let magic = read_be_u32(buf, 0);
    if magic != IMAGES_MAGIC {
        return Err(IdxError::BadMagic(magic));
    }
    if buf.len() < 16 {
        return Err(IdxError::Truncated);
    }
    let n32 = read_be_u32(buf, 4);
    let r32 = read_be_u32(buf, 8);
    let c32 = read_be_u32(buf, 12);
    let n = n32 as u128;
    let r = r32 as u128;
    let c = c32 as u128;
    assert(n * r <= 0xffff_ffff_ffff_ffff_u128) by (nonlinear_arith)
        requires n <= 0xffff_ffff_u128, r <= 0xffff_ffff_u128;
    let nr = n * r;
    assert(nr * c <= 0xffff_ffff_ffff_ffff_ffff_ffff_u128) by (nonlinear_arith)
        requires nr <= 0xffff_ffff_ffff_ffff_u128, c <= 0xffff_ffff_u128;
    let need = nr * c + 16;
    if (buf.len() as u128) < need {
        return Err(IdxError::Truncated);
    }
    let ghost size: int = r * c;
    let count = n32 as usize;
    let rows = r32 as usize;
    let cols = c32 as usize;
    let mut images: Vec<Vec<u8>> = Vec::with_capacity(count);
    if count == 0 {
        assert(images@.len() == 0);
        return Ok(IdxImages { rows, cols, images });
    }
    assert(size <= n * size) by (nonlinear_arith)
        requires n >= 1, size >= 0;
    assert(n * r * c == n * size) by (nonlinear_arith)
        requires size == r * c;
    let img_size = rows * cols;
    let mut start: usize = 16;
    let mut i: usize = 0;
    while i < count
        invariant
            count == n,
            img_size == size,
            size == be_u32_at(buf@, 8) * be_u32_at(buf@, 12),
            16 + n * size <= buf.len(),
            i <= count,
            start == 16 + i * size,
            images@.len() == i,
            forall|j: int| 0 <= j < i ==> #[trigger] images@[j]@ == image_bytes(buf@, j),
        decreases count - i,
    {
        assert(start + img_size == 16 + (i + 1) * size && (i + 1) * size <= n * size)
            by (nonlinear_arith)
            requires start == 16 + i * size, img_size == size, i + 1 <= n, size >= 0;
        let image = slice_to_vec(slice_subrange(buf, start, start + img_size));
        images.push(image);
        start = start + img_size;
        i = i + 1;
    }
    Ok(IdxImages { rows, cols, images })
}

} // verus!
