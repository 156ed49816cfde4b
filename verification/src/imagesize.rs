//! Detecting the pixel dimensions of raster images from their leading bytes.
//! Supported containers: PNG, JPEG (SOF0/SOF2), WebP (VP8/VP8L/VP8X), BMP,
//! TIFF (both byte orders), and GIF (87a/89a).

use vstd::prelude::*;

verus! {

/// Big-endian 16-bit value of two bytes.
pub open spec fn spec_be16(a: u8, b: u8) -> u16 {
    (a * 0x100 + b) as u16
}

/// Little-endian 16-bit value of two bytes.
pub open spec fn spec_le16(a: u8, b: u8) -> u16 {
    (b * 0x100 + a) as u16
}

/// Big-endian 32-bit value of four bytes.
pub open spec fn spec_be32(a: u8, b: u8, c: u8, d: u8) -> u32 {
    (a * 0x1000000 + b * 0x10000 + c * 0x100 + d) as u32
}

/// Little-endian 32-bit value of four bytes.
pub open spec fn spec_le32(a: u8, b: u8, c: u8, d: u8) -> u32 {
    (d * 0x1000000 + c * 0x10000 + b * 0x100 + a) as u32
}

/// Little-endian 24-bit value of three bytes.
pub open spec fn spec_le24(a: u8, b: u8, c: u8) -> u32 {
    (c * 0x10000 + b * 0x100 + a) as u32
}

/// PNG: an 8-byte signature, then the IHDR chunk with big-endian width at
/// offset 16 and height at offset 20.
pub open spec fn spec_png_dimensions(d: Seq<u8>) -> Option<(u32, u32)> {
    if d.len() >= 24 && d[0] == 0x89 && d[1] == 0x50 && d[2] == 0x4e && d[3] == 0x47 && d[4]
        == 0x0d && d[5] == 0x0a && d[6] == 0x1a && d[7] == 0x0a {
        Some(
            (
                spec_be32(d[16], d[17], d[18], d[19]),
                spec_be32(d[20], d[21], d[22], d[23]),
            ),
        )
    } else {
        None
    }
}

/// JPEG: scan the marker chain from position `i` for a SOF0 or SOF2 frame
/// header, which carries big-endian height then width.
pub open spec fn spec_jpeg_scan(d: Seq<u8>, i: int) -> Option<(u16, u16)>
    decreases d.len() - i,
{
    if i < 0 || i + 9 >= d.len() {
        None
    } else if d[i] != 0xff {
        spec_jpeg_scan(d, i + 1)
    } else if d[i + 1] == 0xc0 || d[i + 1] == 0xc2 {
        Some((spec_be16(d[i + 7], d[i + 8]), spec_be16(d[i + 5], d[i + 6])))
    } else if i + 2 + spec_be16(d[i + 2], d[i + 3]) + 9 >= d.len() {
        None
    } else {
        spec_jpeg_scan(d, i + 2 + spec_be16(d[i + 2], d[i + 3]))
    }
}

/// WebP: a RIFF container whose payload is a VP8X, lossy VP8, or lossless
/// VP8L bitstream, each encoding the dimensions its own way.
pub open spec fn spec_webp_dimensions(d: Seq<u8>) -> Option<(u32, u32)> {
    if !(d.len() >= 30 && d[0] == 0x52 && d[1] == 0x49 && d[2] == 0x46 && d[3] == 0x46 && d[8]
        == 0x57 && d[9] == 0x45 && d[10] == 0x42 && d[11] == 0x50) {
        None
    } else if d[12] == 0x56 && d[13] == 0x50 && d[14] == 0x38 && d[15] == 0x58 {
        Some(
            (
                (1 + spec_le24(d[24], d[25], d[26])) as u32,
                (1 + spec_le24(d[27], d[28], d[29])) as u32,
            ),
        )
    } else if d[12] == 0x56 && d[13] == 0x50 && d[14] == 0x38 && d[15] == 0x20 {
        Some((spec_le16(d[26], d[27]) as u32, spec_le16(d[28], d[29]) as u32))
    } else if d[12] == 0x56 && d[13] == 0x50 && d[14] == 0x38 && d[15] == 0x4c {
        Some(
            (
                (1 + (d[22] % 64) * 0x100 + d[21]) as u32,
                (1 + (d[24] % 16) * 0x400 + d[23] * 4 + d[22] / 64) as u32,
            ),
        )
    } else {
        None
    }
}

/// BMP: the "BM" header, then little-endian width at offset 18 and height
/// at offset 22 of the DIB header.
pub open spec fn spec_bmp_dimensions(d: Seq<u8>) -> Option<(u32, u32)> {
    if d.len() >= 26 && d[0] == 0x42 && d[1] == 0x4d {
        Some(
            (
                spec_le32(d[18], d[19], d[20], d[21]),
                spec_le32(d[22], d[23], d[24], d[25]),
            ),
        )
    } else {
        None
    }
}

/// A 16-bit TIFF field in the file's byte order.
pub open spec fn spec_tiff_u16(d: Seq<u8>, le: bool, p: int) -> u16 {
    if le {
        spec_le16(d[p], d[p + 1])
    } else {
        spec_be16(d[p], d[p + 1])
    }
}

/// A 32-bit TIFF field in the file's byte order.
pub open spec fn spec_tiff_u32(d: Seq<u8>, le: bool, p: int) -> u32 {
    if le {
        spec_le32(d[p], d[p + 1], d[p + 2], d[p + 3])
    } else {
        spec_be32(d[p], d[p + 1], d[p + 2], d[p + 3])
    }
}

pub open spec fn spec_tiff_pair(w: Option<u32>, h: Option<u32>) -> Option<(u32, u32)> {
    match (w, h) {
        (Some(a), Some(b)) => Some((a, b)),
        _ => None,
    }
}

/// TIFF: walk the first image file directory, collecting the ImageWidth
/// (tag 256) and ImageLength (tag 257) entries of SHORT or LONG type.
pub open spec fn spec_tiff_scan(
    d: Seq<u8>,
    le: bool,
    ifd: int,
    i: int,
    n: int,
    w: Option<u32>,
    h: Option<u32>,
) -> Option<(u32, u32)>
    decreases n - i,
{
    if i < 0 || i >= n || d.len() < ifd + 2 + i * 12 + 12 {
        spec_tiff_pair(w, h)
    } else {
        let e = ifd + 2 + i * 12;
        let tag = spec_tiff_u16(d, le, e);
        let ft = spec_tiff_u16(d, le, e + 2);
        let w2 = if tag == 256 && ft == 3 {
            Some(spec_tiff_u16(d, le, e + 8) as u32)
        } else if tag == 256 && ft == 4 {
            Some(spec_tiff_u32(d, le, e + 8))
        } else {
            w
        };
        let h2 = if tag == 257 && ft == 3 {
            Some(spec_tiff_u16(d, le, e + 8) as u32)
        } else if tag == 257 && ft == 4 {
            Some(spec_tiff_u32(d, le, e + 8))
        } else {
            h
        };
        if w2 is Some && h2 is Some {
            spec_tiff_pair(w2, h2)
        } else {
            spec_tiff_scan(d, le, ifd, i + 1, n, w2, h2)
        }
    }
}

pub open spec fn spec_tiff_dimensions(d: Seq<u8>) -> Option<(u32, u32)> {
    if d.len() < 8 {
        None
    } else {
        let le = d[0] == 0x49 && d[1] == 0x49;
        let be = d[0] == 0x4d && d[1] == 0x4d;
        if !le && !be {
            None
        } else if spec_tiff_u16(d, le, 2) != 42 {
            None
        } else {
            let ifd = spec_tiff_u32(d, le, 4) as int;
            if d.len() < ifd + 2 {
                None
            } else {
                spec_tiff_scan(d, le, ifd, 0, spec_tiff_u16(d, le, ifd) as int, None, None)
            }
        }
    }
}

/// GIF: the GIF87a/GIF89a signature, then the little-endian logical screen
/// width and height.
pub open spec fn spec_gif_dimensions(d: Seq<u8>) -> Option<(u32, u32)> {
    if d.len() >= 10 && d[0] == 0x47 && d[1] == 0x49 && d[2] == 0x46 && d[3] == 0x38 && (d[4]
        == 0x37 || d[4] == 0x39) && d[5] == 0x61 {
        Some((spec_le16(d[6], d[7]) as u32, spec_le16(d[8], d[9]) as u32))
    } else {
        None
    }
}

/// The dimensions of an image in any supported container, trying the
/// formats in a fixed order.
pub open spec fn spec_image_dimensions(d: Seq<u8>) -> Option<(u32, u32)> {
    if spec_png_dimensions(d) is Some {
        spec_png_dimensions(d)
    } else if spec_jpeg_scan(d, 2) is Some {
        match spec_jpeg_scan(d, 2) {
            Some((w, h)) => Some((w as u32, h as u32)),
            None => None,
        }
    } else if spec_webp_dimensions(d) is Some {
        spec_webp_dimensions(d)
    } else if spec_bmp_dimensions(d) is Some {
        spec_bmp_dimensions(d)
    } else if spec_tiff_dimensions(d) is Some {
        spec_tiff_dimensions(d)
    } else {
        spec_gif_dimensions(d)
    }
}

/// Width and height of a PNG image.
pub fn get_png_dimensions(data: &[u8]) -> (r: Option<(u32, u32)>)
    ensures
        r == spec_png_dimensions(data@),
{
    if data.len() < 24 || data[0] != 0x89 || data[1] != 0x50 || data[2] != 0x4e || data[3]
        != 0x47 || data[4] != 0x0d || data[5] != 0x0a || data[6] != 0x1a || data[7] != 0x0a {
        return None;
    }
    let width = (data[16] as u32) * 0x1000000 + (data[17] as u32) * 0x10000 + (data[18] as u32)
        * 0x100 + (data[19] as u32);
    let height = (data[20] as u32) * 0x1000000 + (data[21] as u32) * 0x10000 + (data[22] as u32)
        * 0x100 + (data[23] as u32);
    Some((width, height))
}

fn read_be16(a: u8, b: u8) -> (r: u16)
    ensures
        r == spec_be16(a, b),
{
    (a as u16) * 0x100 + (b as u16)
}

/// Width and height of a JPEG image, from its SOF0 or SOF2 frame header.
pub fn get_jpeg_dimensions(data: &[u8]) -> (r: Option<(u16, u16)>)
    ensures
        r == spec_jpeg_scan(data@, 2),
{
    let dl = data.len();
    let mut i: usize = 2;
    while dl > 9 && i < dl - 9
        invariant
            dl == data@.len(),
            2 <= i,
            spec_jpeg_scan(data@, 2) == spec_jpeg_scan(data@, i as int),
        decreases dl - i,
    {
        if data[i] != 0xff {
            i = i + 1;
        } else {
            let marker = data[i + 1];
            if marker == 0xc0 || marker == 0xc2 {
                let height = read_be16(data[i + 5], data[i + 6]);
                let width = read_be16(data[i + 7], data[i + 8]);
                return Some((width, height));
            }
            let l = read_be16(data[i + 2], data[i + 3]);
            if (l as u64) + 11 >= ((dl - i) as u64) {
                proof {
                    assert(i + 2 + spec_be16(data@[i as int + 2], data@[i as int + 3]) + 9
                        >= dl);
                    assert(spec_jpeg_scan(data@, i as int) is None);
                }
                return None;
            }
            i = i + 2 + (l as usize);
        }
    }
    proof {
        assert(spec_jpeg_scan(data@, i as int) is None);
    }
    None
}

/// Width and height of a WebP image (VP8X, lossy VP8, or lossless VP8L).
pub fn get_webp_dimensions(data: &[u8]) -> (r: Option<(u32, u32)>)
    ensures
        r == spec_webp_dimensions(data@),
{
    if data.len() < 30 || data[0] != 0x52 || data[1] != 0x49 || data[2] != 0x46 || data[3]
        != 0x46 || data[8] != 0x57 || data[9] != 0x45 || data[10] != 0x42 || data[11] != 0x50 {
        return None;
    }
    if data[12] == 0x56 && data[13] == 0x50 && data[14] == 0x38 && data[15] == 0x58 {
        let w = 1 + ((data[26] as u32) * 0x10000 + (data[25] as u32) * 0x100 + (data[24] as u32));
        let h = 1 + ((data[29] as u32) * 0x10000 + (data[28] as u32) * 0x100 + (data[27] as u32));
        return Some((w, h));
    }
    if data[12] == 0x56 && data[13] == 0x50 && data[14] == 0x38 && data[15] == 0x20 {
        let w = (data[27] as u32) * 0x100 + (data[26] as u32);
        let h = (data[29] as u32) * 0x100 + (data[28] as u32);
        return Some((w, h));
    }
    if data[12] == 0x56 && data[13] == 0x50 && data[14] == 0x38 && data[15] == 0x4c {
        let b0 = data[21];
        let b1 = data[22];
        let b2 = data[23];
        let b3 = data[24];
        let w = 1 + ((b1 % 64) as u32) * 0x100 + (b0 as u32);
        let h = 1 + ((b3 % 16) as u32) * 0x400 + (b2 as u32) * 4 + ((b1 / 64) as u32);
        return Some((w, h));
    }
    None
}

/// Width and height of a BMP image.
pub fn get_bmp_dimensions(data: &[u8]) -> (r: Option<(u32, u32)>)
    ensures
        r == spec_bmp_dimensions(data@),
{
    if data.len() < 26 || data[0] != 0x42 || data[1] != 0x4d {
        return None;
    }
    let w = (data[21] as u32) * 0x1000000 + (data[20] as u32) * 0x10000 + (data[19] as u32)
        * 0x100 + (data[18] as u32);
    let h = (data[25] as u32) * 0x1000000 + (data[24] as u32) * 0x10000 + (data[23] as u32)
        * 0x100 + (data[22] as u32);
    Some((w, h))
}

fn read_tiff_u16(data: &[u8], le: bool, p: usize) -> (r: u16)
    requires
        p + 2 <= data@.len(),
    ensures
        r == spec_tiff_u16(data@, le, p as int),
{
    let dl = data.len();
    proof {
        assert(p + 2 <= dl);
    }
    if le {
        (data[p + 1] as u16) * 0x100 + (data[p] as u16)
    } else {
        (data[p] as u16) * 0x100 + (data[p + 1] as u16)
    }
}

fn read_tiff_u32(data: &[u8], le: bool, p: usize) -> (r: u32)
    requires
        p + 4 <= data@.len(),
    ensures
        r == spec_tiff_u32(data@, le, p as int),
{
    let dl = data.len();
    proof {
        assert(p + 4 <= dl);
    }
    if le {
        (data[p + 3] as u32) * 0x1000000 + (data[p + 2] as u32) * 0x10000 + (data[p + 1] as u32)
            * 0x100 + (data[p] as u32)
    } else {
        (data[p] as u32) * 0x1000000 + (data[p + 1] as u32) * 0x10000 + (data[p + 2] as u32)
            * 0x100 + (data[p + 3] as u32)
    }
}

/// Width and height of a TIFF image, read from its first directory.
pub fn get_tiff_dimensions(data: &[u8]) -> (r: Option<(u32, u32)>)
    ensures
        r == spec_tiff_dimensions(data@),
{
    let dl = data.len();
    if dl < 8 {
        return None;
    }
    let le = data[0] == 0x49 && data[1] == 0x49;
    let be = data[0] == 0x4d && data[1] == 0x4d;
    if !le && !be {
        return None;
    }
    if read_tiff_u16(data, le, 2) != 42 {
        return None;
    }
    let ifd32 = read_tiff_u32(data, le, 4);
    if (dl as u64) < (ifd32 as u64) + 2 {
        return None;
    }
    let ifd = ifd32 as usize;
    let n = read_tiff_u16(data, le, ifd) as usize;
    let mut w: Option<u32> = None;
    let mut h: Option<u32> = None;
    let mut i: usize = 0;
    proof {
        assert(spec_tiff_dimensions(data@) == spec_tiff_scan(
            data@,
            le,
            ifd as int,
            0,
            n as int,
            None,
            None,
        ));
    }
    while i < n
        invariant
            dl == data@.len(),
            ifd + 2 <= dl,
            ifd <= 0xffff_ffff,
            n <= 0xffff,
            0 <= i <= n,
            !(w is Some && h is Some),
            spec_tiff_dimensions(data@) == spec_tiff_scan(
                data@,
                le,
                ifd as int,
                i as int,
                n as int,
                w,
                h,
            ),
        decreases n - i,
    {
        let entry64: u64 = (ifd as u64) + 2 + (i as u64) * 12;
        if (dl as u64) < entry64 + 12 {
            proof {
                assert(data@.len() < ifd as int + 2 + (i as int) * 12 + 12);
            }
            return spec_pair_exec(w, h);
        }
        let e = ifd + 2 + i * 12;
        let tag = read_tiff_u16(data, le, e);
        let ft = read_tiff_u16(data, le, e + 2);
        if tag == 256 && ft == 3 {
            w = Some(read_tiff_u16(data, le, e + 8) as u32);
        } else if tag == 256 && ft == 4 {
            w = Some(read_tiff_u32(data, le, e + 8));
        } else if tag == 257 && ft == 3 {
            h = Some(read_tiff_u16(data, le, e + 8) as u32);
        } else if tag == 257 && ft == 4 {
            h = Some(read_tiff_u32(data, le, e + 8));
        }
        if w.is_some() && h.is_some() {
            return spec_pair_exec(w, h);
        }
        i = i + 1;
    }
    spec_pair_exec(w, h)
}

fn spec_pair_exec(w: Option<u32>, h: Option<u32>) -> (r: Option<(u32, u32)>)
    ensures
        r == spec_tiff_pair(w, h),
{
    match (w, h) {
        (Some(a), Some(b)) => Some((a, b)),
        _ => None,
    }
}

/// Width and height of a GIF image.
pub fn get_gif_dimensions(data: &[u8]) -> (r: Option<(u32, u32)>)
    ensures
        r == spec_gif_dimensions(data@),
{
    if data.len() < 10 || data[0] != 0x47 || data[1] != 0x49 || data[2] != 0x46 || data[3] != 0x38
        || (data[4] != 0x37 && data[4] != 0x39) || data[5] != 0x61 {
        return None;
    }
    let w = (data[7] as u32) * 0x100 + (data[6] as u32);
    let h = (data[9] as u32) * 0x100 + (data[8] as u32);
    Some((w, h))
}

/// Detects the pixel dimensions `(width, height)` of an image from its raw
/// bytes, trying PNG, JPEG, WebP, BMP, TIFF and GIF in that order. Returns
/// `None` when no supported container matches.
pub fn get_image_dimensions(data: &[u8]) -> (r: Option<(u32, u32)>)
    ensures
        r == spec_image_dimensions(data@),
{
    if let Some((w, h)) = get_png_dimensions(data) {
        Some((w, h))
    } else if let Some((w, h)) = get_jpeg_dimensions(data) {
        Some((w as u32, h as u32))
    } else if let Some((w, h)) = get_webp_dimensions(data) {
        Some((w, h))
    } else if let Some((w, h)) = get_bmp_dimensions(data) {
        Some((w, h))
    } else if let Some((w, h)) = get_tiff_dimensions(data) {
        Some((w, h))
    } else if let Some((w, h)) = get_gif_dimensions(data) {
        Some((w, h))
    } else {
        None
    }
}

} // verus!
