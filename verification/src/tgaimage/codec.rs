//! The TGA file format: the header, run-length encoded pixel data, and
//! whole images as bytes.

use super::color::{TGAHeader, TGAImageFormat, TGAImageType};
use super::image::{ImageView, TGAImage};
use vstd::prelude::*;

verus! {

/// Why bytes could not be read as a TGA image, or an image not be written
/// as one.
#[derive(Copy, Clone, Debug, PartialEq, Eq, Structural)]
pub enum TGAError {
    /// The bytes end before the image is complete.
    UnexpectedEof,
    /// The header gives the image no width, no height, or a pixel size
    /// that no format has.
    InvalidHeader,
    /// The header's data type code is not one of true color or black and
    /// white, plain or run-length encoded. It holds the code.
    UnknownFormat(u8),
    /// A packet of run-length encoded data holds more pixels than the image
    /// has left.
    PacketOverrun,
    /// The image is larger than the header can say or the machine can
    /// hold.
    TooLarge,
}

/// Number of bytes in a TGA header.
pub const HEADER_SIZE: usize = 18;

/// The low byte of a 16-bit number.
pub open spec fn low_byte(value: u16) -> u8 {
    (value % 256) as u8
}

/// The high byte of a 16-bit number.
pub open spec fn high_byte(value: u16) -> u8 {
    (value / 256) as u8
}

/// The 16-bit number that two bytes stand for, the low one first.
pub open spec fn from_low_high(low: u8, high: u8) -> u16 {
    (low + 256 * high) as u16
}

impl TGAHeader {
    /// The header as it stands in a file: its fields in their order, the
    /// 16-bit ones with the low byte first.
    pub open spec fn spec_to_bytes(self) -> Seq<u8> {
        seq![
            self.idlength,
            self.colormaptype,
            self.datatypecode,
            low_byte(self.colormaporigin),
            high_byte(self.colormaporigin),
            low_byte(self.colormaplength),
            high_byte(self.colormaplength),
            self.colormapdepth,
            low_byte(self.x_origin),
            high_byte(self.x_origin),
            low_byte(self.y_origin),
            high_byte(self.y_origin),
            low_byte(self.width),
            high_byte(self.width),
            low_byte(self.height),
            high_byte(self.height),
            self.bitsperpixel,
            self.imagedescriptor,
        ]
    }

    /// The header that the first 18 of `bytes` stand for.
    pub open spec fn spec_from_bytes(bytes: Seq<u8>) -> TGAHeader {
        TGAHeader {
            idlength: bytes[0],
            colormaptype: bytes[1],
            datatypecode: bytes[2],
            colormaporigin: from_low_high(bytes[3], bytes[4]),
            colormaplength: from_low_high(bytes[5], bytes[6]),
            colormapdepth: bytes[7],
            x_origin: from_low_high(bytes[8], bytes[9]),
            y_origin: from_low_high(bytes[10], bytes[11]),
            width: from_low_high(bytes[12], bytes[13]),
            height: from_low_high(bytes[14], bytes[15]),
            bitsperpixel: bytes[16],
            imagedescriptor: bytes[17],
        }
    }

    /// Reading a written header gives the header back.
    pub proof fn lemma_bytes_round_trip(self)
        ensures
            self.spec_to_bytes().len() == HEADER_SIZE,
            Self::spec_from_bytes(self.spec_to_bytes()) == self,
    {
    }

    /// Writes the header as the 18 bytes that stand for it in a file.
    pub fn to_bytes(&self) -> (bytes: [u8; 18])
        ensures
            bytes@ == self.spec_to_bytes(),
    {
        let bytes = [
            self.idlength,
            self.colormaptype,
            self.datatypecode,
            (self.colormaporigin % 256) as u8,
            (self.colormaporigin / 256) as u8,
            (self.colormaplength % 256) as u8,
            (self.colormaplength / 256) as u8,
            self.colormapdepth,
            (self.x_origin % 256) as u8,
            (self.x_origin / 256) as u8,
            (self.y_origin % 256) as u8,
            (self.y_origin / 256) as u8,
            (self.width % 256) as u8,
            (self.width / 256) as u8,
            (self.height % 256) as u8,
            (self.height / 256) as u8,
            self.bitsperpixel,
            self.imagedescriptor,
        ];
        assert(bytes@ =~= self.spec_to_bytes());
        bytes
    }

    /// Reads a header from the first 18 of `bytes`, or `None` where there
    /// are fewer.
    pub fn from_bytes(bytes: &[u8]) -> (header: Option<TGAHeader>)
        ensures
            header is Some <==> bytes@.len() >= HEADER_SIZE,
            header matches Some(h) ==> h == Self::spec_from_bytes(bytes@),
    {
        if bytes.len() < HEADER_SIZE {
            return None;
        }
        Some(
            TGAHeader {
                idlength: bytes[0],
                colormaptype: bytes[1],
                datatypecode: bytes[2],
                colormaporigin: bytes[3] as u16 + 256 * bytes[4] as u16,
                colormaplength: bytes[5] as u16 + 256 * bytes[6] as u16,
                colormapdepth: bytes[7],
                x_origin: bytes[8] as u16 + 256 * bytes[9] as u16,
                y_origin: bytes[10] as u16 + 256 * bytes[11] as u16,
                width: bytes[12] as u16 + 256 * bytes[13] as u16,
                height: bytes[14] as u16 + 256 * bytes[15] as u16,
                bitsperpixel: bytes[16],
                imagedescriptor: bytes[17],
            },
        )
    }
}

/// Number of pixels that a packet with the header byte `header` holds: one
/// more than its low seven bits say.
pub open spec fn packet_pixels(header: u8) -> nat {
    (header % 128 + 1) as nat
}

/// Whether a packet with the header byte `header` holds one pixel to be
/// repeated, and not each of its pixels.
pub open spec fn packet_is_run(header: u8) -> bool {
    header >= 128
}

/// `count` copies of `pixel`, one after the other.
pub open spec fn repeated(pixel: Seq<u8>, count: nat) -> Seq<u8>
    decreases count,
{
    if count == 0 {
        Seq::empty()
    } else {
        repeated(pixel, (count - 1) as nat) + pixel
    }
}

/// The bytes of `pixels` pixels of `bpp` bytes that the packets at the
/// start of `input` stand for, or why the packets do not give that many.
///
/// A packet is a header byte and then, in a plain packet, each of its
/// pixels, and in a run packet, the one pixel that it repeats. What follows
/// the last packet is not looked at.
pub open spec fn rle_decoded(input: Seq<u8>, bpp: nat, pixels: nat) -> Result<Seq<u8>, TGAError>
    decreases pixels,
{
    if pixels == 0 {
        Ok(Seq::empty())
    } else if input.len() == 0 {
        Err(TGAError::UnexpectedEof)
    } else if packet_pixels(input[0]) > pixels {
        Err(TGAError::PacketOverrun)
    } else {
        let count = packet_pixels(input[0]);
        let stored = if packet_is_run(input[0]) {
            bpp
        } else {
            count * bpp
        };
        if input.len() < 1 + stored {
            Err(TGAError::UnexpectedEof)
        } else {
            let body = input.subrange(1, 1 + stored as int);
            let unpacked = if packet_is_run(input[0]) {
                repeated(body, count)
            } else {
                body
            };
            match rle_decoded(input.skip(1 + stored as int), bpp, (pixels - count) as nat) {
                Ok(rest) => Ok(unpacked + rest),
                Err(error) => Err(error),
            }
        }
    }
}

/// The length of repeated pixels.
pub proof fn lemma_repeated_len(pixel: Seq<u8>, count: nat)
    ensures
        repeated(pixel, count).len() == count * pixel.len(),
    decreases count,
{
    if count > 0 {
        lemma_repeated_len(pixel, (count - 1) as nat);
        assert(count * pixel.len() == (count - 1) * pixel.len() + pixel.len())
            by (nonlinear_arith);
    } else {
        assert(0 * pixel.len() == 0) by (nonlinear_arith);
    }
}

/// A decoding result with `prefix` put before the data.
pub open spec fn with_prefix(prefix: Seq<u8>, rest: Result<Seq<u8>, TGAError>) -> Result<
    Seq<u8>,
    TGAError,
> {
    match rest {
        Ok(data) => Ok(prefix + data),
        Err(error) => Err(error),
    }
}

/// Byte `i` of repeated pixels is a byte of the pixel.
pub proof fn lemma_repeated_index(pixel: Seq<u8>, count: nat, i: int)
    requires
        0 <= i < count * pixel.len(),
    ensures
        pixel.len() > 0,
        repeated(pixel, count).len() == count * pixel.len(),
        repeated(pixel, count)[i] == pixel[i % pixel.len() as int],
    decreases count,
{
    let n = pixel.len() as int;
    assert(n > 0 && count > 0) by (nonlinear_arith)
        requires
            0 <= i < count * n,
            n >= 0,
    ;
    lemma_repeated_len(pixel, count);
    lemma_repeated_len(pixel, (count - 1) as nat);
    assert(count * n == (count - 1) * n + n) by (nonlinear_arith);
    if i < (count - 1) * n {
        lemma_repeated_index(pixel, (count - 1) as nat, i);
    } else {
        let k = i - (count - 1) * n;
        vstd::arithmetic::div_mod::lemma_fundamental_div_mod_converse(i, n, count - 1, k);
    }
}

/// Unpacks run-length encoded pixel data from the start of `input` into
/// `data`, which has room for the `height * width` pixels of `bytespp`
/// bytes that `image_param` names, in that order.
///
/// Where the packets do not give the pixels, the error says why, and
/// `data` holds what was unpacked before.
pub fn load_rle_data(input: &[u8], data: &mut Vec<u8>, image_param: &(u16, u16, u8)) -> (result:
    Result<(), TGAError>)
    requires
        old(data)@.len() == image_param.0 * image_param.1 * image_param.2,
    ensures
        final(data)@.len() == old(data)@.len(),
        result is Ok ==> rle_decoded(
            input@,
            image_param.2 as nat,
            (image_param.0 * image_param.1) as nat,
        ) == Ok::<Seq<u8>, TGAError>(final(data)@),
        result matches Err(error) ==> rle_decoded(
            input@,
            image_param.2 as nat,
            (image_param.0 * image_param.1) as nat,
        ) == Err::<Seq<u8>, TGAError>(error),
{
    let height = image_param.0;
    let width = image_param.1;
    let bytespp = image_param.2 as usize;
    assert(0 <= height * width <= 0xffff * 0xffff) by (nonlinear_arith)
        requires
            0 <= height <= 0xffff,
            0 <= width <= 0xffff,
    ;
    let pixel_count: usize = height as usize * width as usize;
    let ghost bpp = bytespp as nat;
    let ghost total = pixel_count as nat;
    let input_len = input.len();
    let capacity = data.len();
    let mut position: usize = 0;
    let mut current_pixel: usize = 0;
    let mut current_offset: usize = 0;
    proof {
        assert(0 * bpp == 0) by (nonlinear_arith);
        assert(data@.subrange(0, 0) =~= Seq::<u8>::empty());
        assert(input@.skip(0) =~= input@);
        assert(total * bpp == height * width * bytespp);
        match rle_decoded(input@, bpp, total) {
            Ok(all) => {
                assert(Seq::<u8>::empty() + all =~= all);
            },
            Err(_) => {},
        }
    }
    while current_pixel < pixel_count
        invariant
            bpp == bytespp,
            bpp == image_param.2,
            total == pixel_count,
            total == image_param.0 * image_param.1,
            data@.len() == total * bpp,
            data@.len() == old(data)@.len(),
            data@.len() == capacity,
            input@.len() == input_len,
            position <= input@.len(),
            current_pixel <= pixel_count,
            current_offset == current_pixel * bpp,
            current_offset <= data@.len(),
            rle_decoded(input@, bpp, total) == with_prefix(
                data@.subrange(0, current_offset as int),
                rle_decoded(input@.skip(position as int), bpp, (total - current_pixel) as nat),
            ),
        decreases pixel_count - current_pixel,
    {
        let ghost rest = input@.skip(position as int);
        let ghost left = (total - current_pixel) as nat;
        let ghost done = data@.subrange(0, current_offset as int);
        if position >= input_len {
            assert(rest.len() == 0);
            assert(rle_decoded(rest, bpp, left) == Err::<Seq<u8>, TGAError>(
                TGAError::UnexpectedEof,
            ));
            return Err(TGAError::UnexpectedEof);
        }
        let header = input[position];
        let is_run = header >= 128;
        let packet_size: usize = (header % 128) as usize + 1;
        assert(rest[0] == header);
        assert(packet_size == packet_pixels(rest[0]));
        if packet_size > pixel_count - current_pixel {
            assert(rle_decoded(rest, bpp, left) == Err::<Seq<u8>, TGAError>(
                TGAError::PacketOverrun,
            ));
            return Err(TGAError::PacketOverrun);
        }
        proof {
            assert(current_pixel * bpp + packet_size * bpp == (current_pixel + packet_size) * bpp
                && (current_pixel + packet_size) * bpp <= total * bpp && packet_size * bpp >= 0
                && bpp <= packet_size * bpp) by (nonlinear_arith)
                requires
                    1 <= packet_size,
                    current_pixel + packet_size <= total,
                    0 <= current_pixel,
            ;
        }
        let stored: usize = if is_run {
            bytespp
        } else {
            packet_size * bytespp
        };
        if input_len - position - 1 < stored {
            assert(rest.len() < 1 + stored);
            assert(rle_decoded(rest, bpp, left) == Err::<Seq<u8>, TGAError>(
                TGAError::UnexpectedEof,
            ));
            return Err(TGAError::UnexpectedEof);
        }
        let ghost body = rest.subrange(1, 1 + stored as int);
        let ghost unpacked = if is_run {
            repeated(body, packet_size as nat)
        } else {
            body
        };
        proof {
            lemma_repeated_len(body, packet_size as nat);
            assert(unpacked.len() == packet_size * bpp);
        }
        let ghost before = data@;
        let size: usize = packet_size * bytespp;
        let mut k: usize = 0;
        while k < size
            invariant
                k <= size,
                size == packet_size * bpp,
                size == unpacked.len(),
                bpp == bytespp,
                is_run ==> stored == bytespp,
                !is_run ==> stored == size,
                position + 1 + stored <= input@.len(),
                input@.len() == input_len,
                current_offset + size <= data@.len(),
                data@.len() == before.len(),
                data@.len() == capacity,
                rest == input@.skip(position as int),
                body == rest.subrange(1, 1 + stored as int),
                unpacked == if is_run {
                    repeated(body, packet_size as nat)
                } else {
                    body
                },
                forall|i: int| 0 <= i < current_offset ==> data@[i] == before[i],
                forall|i: int| 0 <= i < k ==> data@[current_offset + i] == unpacked[i],
            decreases size - k,
        {
            proof {
                if is_run {
                    lemma_repeated_index(body, packet_size as nat, k as int);
                }
            }
            let from: usize = if is_run {
                k % bytespp
            } else {
                k
            };
            data[current_offset + k] = input[position + 1 + from];
            k += 1;
        }
        proof {
            let next = rest.skip(1 + stored as int);
            assert(next =~= input@.skip(position + 1 + stored));
            assert(data@.subrange(0, current_offset + size) =~= done + unpacked);
            assert(rle_decoded(rest, bpp, left) == with_prefix(
                unpacked,
                rle_decoded(next, bpp, (left - packet_size) as nat),
            ));
            match rle_decoded(next, bpp, (left - packet_size) as nat) {
                Ok(tail) => {
                    assert(done + (unpacked + tail) =~= (done + unpacked) + tail);
                },
                Err(_) => {},
            }
        }
        position = position + 1 + stored;
        current_pixel += packet_size;
        current_offset += size;
    }
    proof {
        assert(data@.subrange(0, current_offset as int) =~= data@);
        assert(data@ + Seq::<u8>::empty() =~= data@);
    }
    Ok(())
}

/// The bytes of pixel `i` of `data`, whose pixels take `bpp` bytes each.
pub open spec fn pixel_at(data: Seq<u8>, bpp: nat, i: int) -> Seq<u8> {
    data.subrange(i * bpp, (i + 1) * bpp)
}

/// The kind and the length of the packet that starts at pixel `from`, seen
/// from a packet that has grown to `len` pixels and is so far `raw` or not.
///
/// A packet grows while it has fewer than 128 pixels and the data has more.
/// Two equal pixels at its start make it a run, which ends before the first
/// pixel that differs. Otherwise it is plain, and ends before the first
/// pixel that is equal to the one after it.
pub open spec fn packet_from(
    data: Seq<u8>,
    bpp: nat,
    pixels: nat,
    from: nat,
    len: nat,
    raw: bool,
) -> (bool, nat)
    decreases 128 - len,
{
    if from + len < pixels && len < 128 {
        let equal = pixel_at(data, bpp, from + len - 1) == pixel_at(data, bpp, (from + len) as int);
        let raw = if len == 1 {
            !equal
        } else {
            raw
        };
        if raw && equal {
            (raw, (len - 1) as nat)
        } else if !raw && !equal {
            (raw, len)
        } else {
            packet_from(data, bpp, pixels, from, len + 1, raw)
        }
    } else {
        (raw, len)
    }
}

/// The kind and the length of the packet that starts at pixel `from`:
/// whether it is plain, and how many pixels it holds.
pub open spec fn packet_at(data: Seq<u8>, bpp: nat, pixels: nat, from: nat) -> (bool, nat) {
    packet_from(data, bpp, pixels, from, 1, true)
}

/// The pixels of `data` from pixel `from` on, as packets.
pub open spec fn rle_encoded(data: Seq<u8>, bpp: nat, pixels: nat, from: nat) -> Seq<u8>
    decreases pixels - from,
    via rle_encoded_ends
{
    let packet = packet_at(data, bpp, pixels, from);
    if from >= pixels {
        Seq::empty()
    } else if packet.0 {
        seq![(packet.1 - 1) as u8] + data.subrange(
            (from * bpp) as int,
            ((from + packet.1) * bpp) as int,
        ) + rle_encoded(data, bpp, pixels, from + packet.1)
    } else {
        seq![(packet.1 + 127) as u8] + pixel_at(data, bpp, from as int) + rle_encoded(
            data,
            bpp,
            pixels,
            from + packet.1,
        )
    }
}

/// Every packet holds a pixel, so that the packets come to an end.
#[via_fn]
proof fn rle_encoded_ends(data: Seq<u8>, bpp: nat, pixels: nat, from: nat) {
    if from < pixels {
        lemma_packet_from(data, bpp, pixels, from, 1, true);
    }
}

/// A packet holds between 1 and 128 pixels of the data, and the pixels of a
/// run are all equal to its first.
pub proof fn lemma_packet_from(
    data: Seq<u8>,
    bpp: nat,
    pixels: nat,
    from: nat,
    len: nat,
    raw: bool,
)
    requires
        1 <= len <= 128,
        from + len <= pixels,
        len >= 2 ==> (raw <==> pixel_at(data, bpp, from as int) != pixel_at(
            data,
            bpp,
            (from + 1) as int,
        )),
        len >= 2 && !raw ==> forall|j: int|
            from <= j < from + len ==> pixel_at(data, bpp, j) == pixel_at(data, bpp, from as int),
    ensures
        1 <= packet_from(data, bpp, pixels, from, len, raw).1 <= 128,
        from + packet_from(data, bpp, pixels, from, len, raw).1 <= pixels,
        !packet_from(data, bpp, pixels, from, len, raw).0 ==> forall|j: int|
            from <= j < from + packet_from(data, bpp, pixels, from, len, raw).1 ==> pixel_at(
                data,
                bpp,
                j,
            ) == pixel_at(data, bpp, from as int),
    decreases 128 - len,
{
    if from + len < pixels && len < 128 {
        let equal = pixel_at(data, bpp, from + len - 1) == pixel_at(data, bpp, (from + len) as int);
        let raw2 = if len == 1 {
            !equal
        } else {
            raw
        };
        if raw2 && equal {
        } else if !raw2 && !equal {
        } else {
            lemma_packet_from(data, bpp, pixels, from, len + 1, raw2);
        }
    }
}

/// Whether two pixels of `data` hold the same bytes.
fn pixels_equal(data: &Vec<u8>, first: usize, second: usize, bytespp: usize) -> (equal: bool)
    requires
        first + bytespp <= data@.len(),
        second + bytespp <= data@.len(),
    ensures
        equal == (data@.subrange(first as int, first + bytespp) == data@.subrange(
            second as int,
            second + bytespp,
        )),
{
    let size = data.len();
    let mut succ_eq = true;
    let mut i: usize = 0;
    while i < bytespp && succ_eq
        invariant
            i <= bytespp,
            size == data@.len(),
            first + bytespp <= data@.len(),
            second + bytespp <= data@.len(),
            succ_eq ==> forall|k: int|
                0 <= k < i ==> #[trigger] data@.subrange(first as int, first + bytespp)[k]
                    == data@.subrange(second as int, second + bytespp)[k],
            !succ_eq ==> data@.subrange(first as int, first + bytespp) != data@.subrange(
                second as int,
                second + bytespp,
            ),
        decreases bytespp - i + if succ_eq {
            1int
        } else {
            0int
        },
    {
        succ_eq = data[first + i] == data[second + i];
        if !succ_eq {
            assert(data@.subrange(first as int, first + bytespp)[i as int] == data@[first + i]);
            assert(data@.subrange(second as int, second + bytespp)[i as int] == data@[second + i]);
        } else {
            i += 1;
        }
    }
    if succ_eq {
        assert(data@.subrange(first as int, first + bytespp) =~= data@.subrange(
            second as int,
            second + bytespp,
        ));
    }
    succ_eq
}

/// Finds the packet that starts at pixel `curpix`: whether it is plain, and
/// how many pixels it holds.
fn next_packet(data: &Vec<u8>, bytespp: usize, npixels: u64, curpix: u64) -> (packet: (bool, u8))
    requires
        data@.len() == npixels * bytespp,
        curpix < npixels,
    ensures
        (packet.0, packet.1 as nat) == packet_at(
            data@,
            bytespp as nat,
            npixels as nat,
            curpix as nat,
        ),
        1 <= packet.1 <= 128,
        curpix + packet.1 <= npixels,
{
    let max_chunk_length: u8 = 128;
    let ghost bpp = bytespp as nat;
    let ghost pixels = npixels as nat;
    let size = data.len();
    proof {
        lemma_pixel_range(data@, bpp, pixels, curpix as int);
    }
    let mut curbyte: usize = (curpix * bytespp as u64) as usize;
    let mut run_length: u8 = 1;
    let mut raw = true;
    let mut growing = true;
    while growing && curpix + (run_length as u64) < npixels && run_length < max_chunk_length
        invariant
            data@.len() == pixels * bpp,
            data@.len() == size,
            bpp == bytespp,
            pixels == npixels,
            max_chunk_length == 128,
            curpix < npixels,
            1 <= run_length <= 128,
            curpix + run_length <= npixels,
            growing ==> curbyte == (curpix + run_length - 1) * bpp,
            growing && run_length >= 2 ==> (raw <==> pixel_at(data@, bpp, curpix as int)
                != pixel_at(data@, bpp, curpix + 1)),
            growing && run_length >= 2 && !raw ==> forall|j: int|
                curpix <= j < curpix + run_length ==> pixel_at(data@, bpp, j) == pixel_at(
                    data@,
                    bpp,
                    curpix as int,
                ),
            growing ==> packet_at(data@, bpp, pixels, curpix as nat) == packet_from(
                data@,
                bpp,
                pixels,
                curpix as nat,
                run_length as nat,
                raw,
            ),
            !growing ==> packet_at(data@, bpp, pixels, curpix as nat) == (raw, run_length as nat),
        decreases
                if growing {
                    129 - run_length
                } else {
                    0int
                },
    {
        proof {
            lemma_pixel_range(data@, bpp, pixels, curpix + run_length - 1);
            lemma_pixel_range(data@, bpp, pixels, curpix + run_length);
            assert((curpix + run_length - 1 + 1) * bpp == curbyte + bpp) by (nonlinear_arith)
                requires
                    curbyte == (curpix + run_length - 1) * bpp,
            ;
        }
        let succ_eq = pixels_equal(data, curbyte, curbyte + bytespp, bytespp);
        curbyte += bytespp;
        if run_length == 1 {
            raw = !succ_eq;
        }
        if raw && succ_eq {
            run_length -= 1;
            growing = false;
        } else if !raw && !succ_eq {
            growing = false;
        } else {
            run_length += 1;
        }
    }
    (raw, run_length)
}

/// Appends one packet to `out`: its header byte, and the pixels that it
/// stores, which start at byte `chunkstart` of `data`.
fn write_packet(
    out: &mut Vec<u8>,
    data: &Vec<u8>,
    chunkstart: usize,
    raw: bool,
    run_length: u8,
    bytespp: usize,
)
    requires
        1 <= run_length <= 128,
        chunkstart + run_length * bytespp <= data@.len(),
    ensures
        final(out)@ == old(out)@ + seq![
            if raw {
                (run_length - 1) as u8
            } else {
                (run_length + 127) as u8
            },
        ] + data@.subrange(
            chunkstart as int,
            chunkstart + if raw {
                run_length * bytespp
            } else {
                bytespp as int
            },
        ),
{
    let size = data.len();
    assert(0 <= bytespp <= run_length * bytespp) by (nonlinear_arith)
        requires
            run_length >= 1,
            bytespp >= 0,
    ;
    let header: u8 = if raw {
        run_length - 1
    } else {
        run_length + 127
    };
    out.push(header);
    let to_write: usize = if raw {
        run_length as usize * bytespp
    } else {
        bytespp
    };
    proof {
        assert(out@ =~= old(out)@ + seq![header] + data@.subrange(
            chunkstart as int,
            chunkstart as int,
        ));
    }
    let mut k: usize = 0;
    while k < to_write
        invariant
            k <= to_write,
            chunkstart + to_write <= data@.len(),
            data@.len() == size,
            out@ == old(out)@ + seq![header] + data@.subrange(chunkstart as int, chunkstart + k),
        decreases to_write - k,
    {
        let ghost before = out@;
        out.push(data[chunkstart + k]);
        proof {
            assert(out@ =~= old(out)@ + seq![header] + data@.subrange(
                chunkstart as int,
                chunkstart + k + 1,
            ));
        }
        k += 1;
    }
}

impl TGAImage {
    /// Appends the pixel data to `out` as run-length encoded packets.
    pub fn unload_rle_data(&self, out: &mut Vec<u8>)
        requires
            self@.wf(),
        ensures
            final(out)@ == old(out)@ + rle_encoded(
                self@.data,
                self@.bpp(),
                self@.width * self@.height,
                0,
            ),
    {
        let data = self.raw_data();
        let bytespp = self.get_bytespp().bytes() as usize;
        let ghost bpp = self@.bpp();
        let ghost pixels = self@.width * self@.height;
        let width = self.get_width();
        let height = self.get_height();
        assert(0 <= width * height <= 0xffff_ffff * 0xffff_ffff) by (nonlinear_arith)
            requires
                0 <= width <= 0xffff_ffff,
                0 <= height <= 0xffff_ffff,
        ;
        let npixels: u64 = width as u64 * height as u64;
        let size = data.len();
        let mut curpix: u64 = 0;
        proof {
            assert(out@ + Seq::<u8>::empty() =~= out@);
        }
        while curpix < npixels
            invariant
                data@ == self@.data,
                bpp == self@.bpp(),
                bpp == bytespp,
                pixels == self@.width * self@.height,
                pixels == npixels,
                data@.len() == pixels * bpp,
                data@.len() == size,
                curpix <= npixels,
                old(out)@ + rle_encoded(data@, bpp, pixels, 0) == out@ + rle_encoded(
                    data@,
                    bpp,
                    pixels,
                    curpix as nat,
                ),
            decreases npixels - curpix,
        {
            let (raw, run_length) = next_packet(data, bytespp, npixels, curpix);
            proof {
                lemma_pixel_range(data@, bpp, pixels, curpix as int);
                lemma_pixel_range(data@, bpp, pixels, curpix + run_length - 1);
                assert((curpix + run_length) * bpp == curpix * bpp + run_length * bpp)
                    by (nonlinear_arith);
            }
            let chunkstart: usize = (curpix * bytespp as u64) as usize;
            let ghost written = out@;
            write_packet(out, data, chunkstart, raw, run_length, bytespp);
            proof {
                let header = if raw {
                    (run_length - 1) as u8
                } else {
                    (run_length + 127) as u8
                };
                let body = data@.subrange(
                    chunkstart as int,
                    chunkstart + if raw {
                        run_length * bytespp
                    } else {
                        bytespp as int
                    },
                );
                let rest = rle_encoded(data@, bpp, pixels, (curpix + run_length) as nat);
                assert(rle_encoded(data@, bpp, pixels, curpix as nat) == seq![header] + body + rest);
                assert(written + (seq![header] + body + rest) =~= (written + seq![header] + body)
                    + rest);
            }
            curpix += run_length as u64;
        }
        proof {
            assert(out@ + Seq::<u8>::empty() =~= out@);
        }
    }
}

/// A run of equal pixels is its first pixel repeated.
pub proof fn lemma_run_is_repeated(data: Seq<u8>, bpp: nat, pixels: nat, from: nat, len: nat)
    requires
        data.len() == pixels * bpp,
        from + len <= pixels,
        forall|j: int|
            from <= j < from + len ==> pixel_at(data, bpp, j) == pixel_at(data, bpp, from as int),
    ensures
        repeated(pixel_at(data, bpp, from as int), len) == data.subrange(
            (from * bpp) as int,
            ((from + len) * bpp) as int,
        ),
    decreases len,
{
    let pixel = pixel_at(data, bpp, from as int);
    assert(0 <= from * bpp <= (from + len) * bpp <= pixels * bpp) by (nonlinear_arith)
        requires
            0 <= from,
            0 <= len,
            from + len <= pixels,
            bpp >= 0,
    ;
    if len == 0 {
        assert(data.subrange((from * bpp) as int, ((from + len) * bpp) as int) =~= Seq::<
            u8,
        >::empty());
    } else {
        lemma_run_is_repeated(data, bpp, pixels, from, (len - 1) as nat);
        lemma_pixel_range(data, bpp, pixels, from + len - 1);
        assert(0 <= from * bpp <= (from + len - 1) * bpp) by (nonlinear_arith)
            requires
                len >= 1,
                from >= 0,
                bpp >= 0,
        ;
        assert(pixel_at(data, bpp, from + len - 1) == pixel);
        assert(data.subrange((from * bpp) as int, ((from + len - 1) * bpp) as int) + pixel_at(
            data,
            bpp,
            from + len - 1,
        ) =~= data.subrange((from * bpp) as int, ((from + len) * bpp) as int));
    }
}

/// Round trip: packets that were written from pixel data are read back as
/// that data, whatever follows them.
pub proof fn lemma_rle_round_trip(
    data: Seq<u8>,
    bpp: nat,
    pixels: nat,
    from: nat,
    extra: Seq<u8>,
)
    requires
        data.len() == pixels * bpp,
        from <= pixels,
    ensures
        rle_decoded(rle_encoded(data, bpp, pixels, from) + extra, bpp, (pixels - from) as nat)
            == Ok::<Seq<u8>, TGAError>(
            data.subrange((from * bpp) as int, (pixels * bpp) as int),
        ),
    decreases pixels - from,
{
    let input = rle_encoded(data, bpp, pixels, from) + extra;
    if from == pixels {
        assert(data.subrange((from * bpp) as int, (pixels * bpp) as int) =~= Seq::<u8>::empty());
    } else {
        let packet = packet_at(data, bpp, pixels, from);
        let raw = packet.0;
        let len = packet.1;
        lemma_packet_from(data, bpp, pixels, from, 1, true);
        lemma_pixel_range(data, bpp, pixels, from as int);
        lemma_pixel_range(data, bpp, pixels, from + len - 1);
        assert((from + len) * bpp == from * bpp + len * bpp && 0 <= len * bpp) by (nonlinear_arith)
            requires
                len >= 1,
                bpp >= 0,
                from >= 0,
        ;
        let header = if raw {
            (len - 1) as u8
        } else {
            (len + 127) as u8
        };
        let stored = if raw {
            len * bpp
        } else {
            bpp
        };
        let body = data.subrange((from * bpp) as int, (from * bpp + stored) as int);
        let rest = rle_encoded(data, bpp, pixels, from + len);
        assert(rle_encoded(data, bpp, pixels, from) == seq![header] + body + rest);
        assert(input[0] == header);
        assert(packet_pixels(header) == len);
        assert(packet_is_run(header) == !raw);
        assert(input.subrange(1, 1 + stored as int) =~= body);
        assert(input.skip(1 + stored as int) =~= rest + extra);
        lemma_rle_round_trip(data, bpp, pixels, from + len, extra);
        if !raw {
            lemma_run_is_repeated(data, bpp, pixels, from, len);
        }
        let whole = data.subrange((from * bpp) as int, ((from + len) * bpp) as int);
        assert(whole + data.subrange(((from + len) * bpp) as int, (pixels * bpp) as int)
            =~= data.subrange((from * bpp) as int, (pixels * bpp) as int));
    }
}

/// The bytes of a pixel of the data lie in the data.
pub proof fn lemma_pixel_range(data: Seq<u8>, bpp: nat, pixels: nat, i: int)
    requires
        data.len() == pixels * bpp,
        0 <= i < pixels,
    ensures
        0 <= i * bpp,
        (i + 1) * bpp == i * bpp + bpp,
        (i + 1) * bpp <= data.len(),
{
    assert(0 <= i * bpp && (i + 1) * bpp == i * bpp + bpp && (i + 1) * bpp <= pixels * bpp)
        by (nonlinear_arith)
        requires
            0 <= i < pixels,
            bpp >= 0,
    ;
}

/// What stands at the end of a TGA file: no developer area, no extension
/// area, and the signature of the format.
pub open spec fn spec_footer() -> Seq<u8> {
    seq![
        0u8, 0u8, 0u8, 0u8, 0u8, 0u8, 0u8, 0u8, 84u8, 82u8, 85u8, 69u8, 86u8, 73u8, 83u8, 73u8,
        79u8, 78u8, 45u8, 88u8, 70u8, 73u8, 76u8, 69u8, 46u8, 0u8,
    ]
}

/// The format whose pixels take `bytespp` bytes, for 1, 3 and 4.
pub open spec fn format_of(bytespp: u8) -> TGAImageFormat {
    if bytespp == 1 {
        TGAImageFormat::Grayscale
    } else if bytespp == 3 {
        TGAImageFormat::RGB
    } else {
        TGAImageFormat::RGBA
    }
}

/// The data type code of an image: black and white for a grayscale image
/// and true color for any other, either one plain or run-length encoded.
pub open spec fn spec_data_type_code(format: TGAImageFormat, rle: bool) -> u8 {
    if format == TGAImageFormat::Grayscale {
        if rle {
            TGAImageType::RLEBW.spec_code()
        } else {
            TGAImageType::UncompressedBW.spec_code()
        }
    } else {
        if rle {
            TGAImageType::RLETrueColor.spec_code()
        } else {
            TGAImageType::UncompressedTrueColor.spec_code()
        }
    }
}

/// The header that an image is written with.
pub open spec fn spec_header(image: ImageView, vflip: bool, rle: bool) -> TGAHeader {
    TGAHeader {
        idlength: 0,
        colormaptype: 0,
        datatypecode: spec_data_type_code(image.format, rle),
        colormaporigin: 0,
        colormaplength: 0,
        colormapdepth: 0,
        x_origin: 0,
        y_origin: 0,
        width: image.width as u16,
        height: image.height as u16,
        bitsperpixel: image.format.spec_bytes() << 3,
        imagedescriptor: if vflip {
            0x0u8
        } else {
            0x20u8
        },
    }
}

/// An image as the bytes of a TGA file: the header, the pixel data, plain
/// or as packets, and the footer. The file says that its rows run from
/// the top unless `vflip` is set.
pub open spec fn tga_encoded(image: ImageView, vflip: bool, rle: bool) -> Seq<u8> {
    spec_header(image, vflip, rle).spec_to_bytes() + if rle {
        rle_encoded(image.data, image.bpp(), image.width * image.height, 0)
    } else {
        image.data
    } + spec_footer()
}

/// The pixel data that follows the header `header` in `body`, or why there
/// is none.
pub open spec fn tga_data(header: TGAHeader, body: Seq<u8>) -> Result<Seq<u8>, TGAError> {
    let bytespp = header.bitsperpixel >> 3;
    let size = header.height * header.width * bytespp;
    match TGAImageType::spec_from_u8(header.datatypecode) {
        Some(TGAImageType::UncompressedTrueColor) | Some(TGAImageType::UncompressedBW) => {
            if body.len() < size {
                Err(TGAError::UnexpectedEof)
            } else {
                Ok(body.subrange(0, size))
            }
        },
        Some(TGAImageType::RLETrueColor) | Some(TGAImageType::RLEBW) => rle_decoded(
            body,
            bytespp as nat,
            (header.height * header.width) as nat,
        ),
        _ => Err(TGAError::UnknownFormat(header.datatypecode)),
    }
}

/// The image that the bytes of a TGA file stand for, or why they stand for
/// none.
///
/// The header must give the image a width, a height and pixels of 1, 3 or
/// 4 bytes. The pixel data follows the header at once. The image is
/// mirrored top to bottom where the header says that the rows run from the
/// top, and left to right where it says that the columns run from the
/// right.
pub open spec fn tga_decoded(bytes: Seq<u8>) -> Result<ImageView, TGAError> {
    let header = TGAHeader::spec_from_bytes(bytes);
    let bytespp = header.bitsperpixel >> 3;
    if bytes.len() < HEADER_SIZE {
        Err(TGAError::UnexpectedEof)
    } else if header.height == 0 || header.width == 0 || !(bytespp == 1 || bytespp == 3 || bytespp
        == 4) {
        Err(TGAError::InvalidHeader)
    } else if header.height * header.width * bytespp > usize::MAX {
        Err(TGAError::TooLarge)
    } else {
        match tga_data(header, bytes.skip(HEADER_SIZE as int)) {
            Err(error) => Err(error),
            Ok(data) => {
                let stored = ImageView {
                    width: header.width as nat,
                    height: header.height as nat,
                    format: format_of(bytespp),
                    data,
                };
                let upright = if header.imagedescriptor & 0x20 != 0 {
                    stored.flipped_vertically()
                } else {
                    stored
                };
                Ok(
                    if header.imagedescriptor & 0x10 != 0 {
                        upright.flipped_horizontally()
                    } else {
                        upright
                    },
                )
            },
        }
    }
}

/// Round trip: an image that is written as a TGA file is read back from
/// it, upright if it was written so and else mirrored top to bottom, as the
/// file then says that its rows run from the top.
pub proof fn lemma_tga_round_trip(image: ImageView, vflip: bool, rle: bool)
    requires
        image.wf(),
        1 <= image.width <= 0xffff,
        1 <= image.height <= 0xffff,
        image.format != TGAImageFormat::Unknown,
        image.data.len() <= usize::MAX,
    ensures
        tga_decoded(tga_encoded(image, vflip, rle)) == Ok::<ImageView, TGAError>(
            if vflip {
                image
            } else {
                image.flipped_vertically()
            },
        ),
{
    let header = spec_header(image, vflip, rle);
    let head = header.spec_to_bytes();
    let pixels = image.width * image.height;
    let payload = if rle {
        rle_encoded(image.data, image.bpp(), pixels, 0)
    } else {
        image.data
    };
    let bytes = tga_encoded(image, vflip, rle);
    let bpp = image.format.spec_bytes();
    header.lemma_bytes_round_trip();
    assert(bytes =~= head + (payload + spec_footer()));
    assert(TGAHeader::spec_from_bytes(bytes) == header) by {
        assert forall|i: int| 0 <= i < 18 implies bytes[i] == head[i] by {}
    }
    assert((1u8 << 3) >> 3 == 1u8) by (bit_vector);
    assert((3u8 << 3) >> 3 == 3u8) by (bit_vector);
    assert((4u8 << 3) >> 3 == 4u8) by (bit_vector);
    assert(0x0u8 & 0x20 == 0) by (bit_vector);
    assert(0x0u8 & 0x10 == 0) by (bit_vector);
    assert(0x20u8 & 0x20 != 0) by (bit_vector);
    assert(0x20u8 & 0x10 == 0) by (bit_vector);
    assert(header.bitsperpixel >> 3 == bpp);
    assert(header.height * header.width == pixels && header.height * header.width * bpp
        == image.data.len()) by (nonlinear_arith)
        requires
            header.height == image.height,
            header.width == image.width,
            pixels == image.width * image.height,
            image.data.len() == image.width * image.height * bpp,
    ;
    assert(bytes.skip(HEADER_SIZE as int) =~= payload + spec_footer());
    if rle {
        lemma_rle_round_trip(image.data, image.bpp(), pixels, 0, spec_footer());
        assert(0 * image.bpp() == 0) by (nonlinear_arith);
        assert(image.data.subrange(0, (pixels * image.bpp()) as int) =~= image.data);
    } else {
        assert((payload + spec_footer()).subrange(0, image.data.len() as int) =~= image.data);
    }
    assert(tga_data(header, payload + spec_footer()) == Ok::<Seq<u8>, TGAError>(image.data));
    let stored = ImageView {
        width: header.width as nat,
        height: header.height as nat,
        format: format_of(bpp),
        data: image.data,
    };
    assert(stored == image);
}

/// The data type code of an image in the given format.
fn get_data_type_code(image_fmt: TGAImageFormat, rle: bool) -> (code: u8)
    ensures
        code == spec_data_type_code(image_fmt, rle),
{
    let rle_val: u8 = if rle {
        11
    } else {
        3
    };
    if image_fmt == TGAImageFormat::Grayscale {
        rle_val
    } else {
        rle_val - 1
    }
}

/// Appends the bytes of `bytes` to `out`.
fn append(out: &mut Vec<u8>, bytes: &[u8])
    ensures
        final(out)@ == old(out)@ + bytes@,
{
    let size = bytes.len();
    let mut i: usize = 0;
    proof {
        assert(out@ =~= old(out)@ + bytes@.subrange(0, 0));
    }
    while i < size
        invariant
            i <= size,
            size == bytes@.len(),
            out@ == old(out)@ + bytes@.subrange(0, i as int),
        decreases size - i,
    {
        out.push(bytes[i]);
        proof {
            assert(out@ =~= old(out)@ + bytes@.subrange(0, i + 1));
        }
        i += 1;
    }
    proof {
        assert(bytes@.subrange(0, size as int) =~= bytes@);
    }
}

impl TGAImage {
    /// Writes the image as the bytes of a TGA file, with its pixel data
    /// plain or, where `rle` is set, run-length encoded.
    ///
    /// An image of more than 65535 pixels a side has no TGA file.
    pub fn to_tga_bytes(&self, vflip: bool, rle: bool) -> (result: Result<Vec<u8>, TGAError>)
        requires
            self@.wf(),
        ensures
            result is Ok <==> self@.width <= 0xffff && self@.height <= 0xffff,
            result matches Ok(bytes) ==> bytes@ == tga_encoded(self@, vflip, rle),
            result matches Err(error) ==> error == TGAError::TooLarge,
    {
        let developer_area_ref: [u8; 4] = [0u8;4];
        let extension_area_ref: [u8; 4] = [0u8;4];
        let footer: [u8; 18] = [
            84,
            82,
            85,
            69,
            86,
            73,
            83,
            73,
            79,
            78,
            45,
            88,
            70,
            73,
            76,
            69,
            46,
            0,
        ];
        if self.get_width() > 0xffff || self.get_height() > 0xffff {
            return Err(TGAError::TooLarge);
        }
        let mut header = TGAHeader::default();
        header.bitsperpixel = self.get_bytespp().bytes() << 3;
        header.width = self.get_width() as u16;
        header.height = self.get_height() as u16;
        header.datatypecode = get_data_type_code(self.get_bytespp(), rle);
        header.imagedescriptor = if vflip {
            0x0u8
        } else {
            0x20u8
        };
        assert(header == spec_header(self@, vflip, rle));
        let mut file: Vec<u8> = Vec::new();
        let header_bytes = header.to_bytes();
        append(&mut file, header_bytes.as_slice());
        if !rle {
            append(&mut file, self.raw_data().as_slice());
        } else {
            self.unload_rle_data(&mut file);
        }
        let ghost body = file@;
        append(&mut file, developer_area_ref.as_slice());
        append(&mut file, extension_area_ref.as_slice());
        append(&mut file, footer.as_slice());
        proof {
            assert(developer_area_ref@ + extension_area_ref@ + footer@ =~= spec_footer());
            assert(file@ =~= body + (developer_area_ref@ + extension_area_ref@ + footer@));
            assert(file@ =~= tga_encoded(self@, vflip, rle));
        }
        Ok(file)
    }

    /// Reads an image from the bytes of a TGA file.
    pub fn from_tga_bytes(bytes: &[u8]) -> (result: Result<TGAImage, TGAError>)
        ensures
            result matches Ok(image) ==> tga_decoded(bytes@) == Ok::<ImageView, TGAError>(image@)
                && image@.wf(),
            result matches Err(error) ==> tga_decoded(bytes@) == Err::<ImageView, TGAError>(error),
    {
        let header = match TGAHeader::from_bytes(bytes) {
            Some(header) => header,
            None => {
                return Err(TGAError::UnexpectedEof);
            },
        };
        let height = header.height;
        let width = header.width;
        let bitsperpixel = header.bitsperpixel >> 3;
        let is_valid_bpp = match TGAImageFormat::try_from(bitsperpixel) {
            Ok(TGAImageFormat::Grayscale) | Ok(TGAImageFormat::RGB) | Ok(TGAImageFormat::RGBA) => {
                true
            },
            _ => false,
        };
        if height == 0 || width == 0 || !is_valid_bpp {
            return Err(TGAError::InvalidHeader);
        }
        assert(0 <= height * width <= 0xffff * 0xffff && 0 <= height * width * bitsperpixel
            <= 0xffff * 0xffff * 4) by (nonlinear_arith)
            requires
                0 <= height <= 0xffff,
                0 <= width <= 0xffff,
                0 <= bitsperpixel <= 4,
        ;
        let size: u64 = height as u64 * width as u64 * bitsperpixel as u64;
        if size > usize::MAX as u64 {
            return Err(TGAError::TooLarge);
        }
        let size = size as usize;
        let mut data = vec![0u8; size];
        let datatype = header.datatypecode;
        let body = vstd::slice::slice_subrange(bytes, HEADER_SIZE, bytes.len());
        proof {
            assert(body@ =~= bytes@.skip(HEADER_SIZE as int));
        }
        match TGAImageType::from_u8(datatype) {
            Some(TGAImageType::UncompressedTrueColor) | Some(TGAImageType::UncompressedBW) => {
                if body.len() < size {
                    return Err(TGAError::UnexpectedEof);
                }
                let mut i: usize = 0;
                while i < size
                    invariant
                        i <= size,
                        size <= body@.len(),
                        data@.len() == size,
                        forall|k: int| 0 <= k < i ==> data@[k] == body@[k],
                    decreases size - i,
                {
                    data[i] = body[i];
                    i += 1;
                }
                proof {
                    assert(data@ =~= body@.subrange(0, size as int));
                }
            },
            Some(TGAImageType::RLETrueColor) | Some(TGAImageType::RLEBW) => {
                match load_rle_data(body, &mut data, &(height, width, bitsperpixel)) {
                    Ok(()) => {},
                    Err(error) => {
                        return Err(error);
                    },
                }
            },
            _ => {
                return Err(TGAError::UnknownFormat(datatype));
            },
        };
        let format = match TGAImageFormat::try_from(bitsperpixel) {
            Ok(format) => format,
            Err(_) => TGAImageFormat::Unknown,
        };
        assert(format == format_of(bitsperpixel));
        let mut image = TGAImage::from_parts(data, width as u32, height as u32, format);
        let image_descriptor = header.imagedescriptor;
        assert(width * height * bitsperpixel == height * width * bitsperpixel)
            by (nonlinear_arith);
        assert(image@.wf());
        if image_descriptor & 0b10_0000 != 0 {
            image.flip_vertically();
        }
        if image_descriptor & 0b1_0000 != 0 {
            image.flip_horizontally();
        }
        Ok(image)
    }
}

} // verus!
