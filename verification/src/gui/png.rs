//! A PNG encoder that writes stored deflate blocks: the uncompressed form the
//! zlib format allows.

use vstd::prelude::*;

use crate::bytes;

verus! {

/// One step of the checksum's shift register.
pub open spec fn crc_bit(crc: u32) -> u32 {
    if crc & 1 != 0 {
        (crc >> 1) ^ 0xEDB8_8320
    } else {
        crc >> 1
    }
}

/// Several steps of the shift register.
pub open spec fn crc_bits(crc: u32, n: nat) -> u32
    decreases n,
{
    if n == 0 {
        crc
    } else {
        crc_bit(crc_bits(crc, (n - 1) as nat))
    }
}

/// The register after some bytes, least significant bit first, from all ones.
pub open spec fn crc_register(s: Seq<u8>) -> u32
    decreases s.len(),
{
    if s.len() == 0 {
        0xFFFF_FFFF
    } else {
        crc_bits(crc_register(s.drop_last()) ^ (s.last() as u32), 8)
    }
}

/// The cyclic redundancy checksum that PNG uses.
pub open spec fn crc(s: Seq<u8>) -> u32 {
    !crc_register(s)
}

pub fn crc32(data: &[u8]) -> (r: u32)
    ensures
        r == crc(data@),
{
    let mut register: u32 = 0xFFFF_FFFF;
    let mut i: usize = 0;
    assert(data@.take(0) =~= Seq::<u8>::empty());
    while i < data.len()
        invariant
            i <= data@.len(),
            register == crc_register(data@.take(i as int)),
        decreases data@.len() - i,
    {
        assert(data@.take(i + 1).drop_last() =~= data@.take(i as int));
        let ghost start = register ^ (data@[i as int] as u32);
        register = register ^ (data[i] as u32);
        let mut bit: u8 = 0;
        while bit < 8
            invariant
                bit <= 8,
                register == crc_bits(start, bit as nat),
            decreases 8 - bit,
        {
            register = if register & 1 != 0 {
                (register >> 1) ^ 0xEDB8_8320
            } else {
                register >> 1
            };
            bit = bit + 1;
        }
        i = i + 1;
    }
    assert(data@.take(i as int) =~= data@);
    !register
}

/// One and the sum of the bytes.
pub open spec fn byte_sum(s: Seq<u8>) -> nat
    decreases s.len(),
{
    if s.len() == 0 {
        1
    } else {
        byte_sum(s.drop_last()) + s.last() as nat
    }
}

/// The sum of the sums after each byte.
pub open spec fn running_sum(s: Seq<u8>) -> nat
    decreases s.len(),
{
    if s.len() == 0 {
        0
    } else {
        running_sum(s.drop_last()) + byte_sum(s)
    }
}

/// The checksum that zlib uses: both sums, modulo the largest prime below 2^16.
pub open spec fn adler(s: Seq<u8>) -> nat {
    (running_sum(s) % 65521) * 0x1_0000 + byte_sum(s) % 65521
}

pub fn adler32(data: &[u8]) -> (r: u32)
    ensures
        r == adler(data@),
{
    let mut a: u32 = 1;
    let mut b: u32 = 0;
    let mut i: usize = 0;
    assert(data@.take(0) =~= Seq::<u8>::empty());
    while i < data.len()
        invariant
            i <= data@.len(),
            a == byte_sum(data@.take(i as int)) % 65521,
            b == running_sum(data@.take(i as int)) % 65521,
        decreases data@.len() - i,
    {
        assert(data@.take(i + 1).drop_last() =~= data@.take(i as int));
        a = (a + data[i] as u32) % 65521;
        b = (b + a) % 65521;
        i = i + 1;
    }
    assert(data@.take(i as int) =~= data@);
    b * 0x1_0000 + a
}

/// The most that one stored block holds.
pub const MAX_BLOCK: usize = 0xFFFF;

/// The two bytes of a number below 2^16, least significant first.
pub open spec fn le16(n: nat) -> Seq<u8> {
    seq![(n % 256) as u8, (n / 256) as u8]
}

/// A stored block: whether it is the last, its length, the length's complement,
/// and the bytes.
pub open spec fn block(last: bool, data: Seq<u8>) -> Seq<u8> {
    seq![
        if last {
            1u8
        } else {
            0u8
        },
    ] + le16(data.len()) + le16((0xFFFF - data.len()) as nat) + data
}

/// The blocks of some data: full ones, and one for the rest.
pub open spec fn blocks(data: Seq<u8>) -> Seq<u8>
    decreases data.len(),
{
    if data.len() <= MAX_BLOCK {
        block(true, data)
    } else {
        block(false, data.take(MAX_BLOCK as int)) + blocks(data.skip(MAX_BLOCK as int))
    }
}

/// A zlib stream of stored blocks.
pub open spec fn zlib(data: Seq<u8>) -> Seq<u8> {
    seq![0x78u8, 0x01u8] + blocks(data) + bytes::be_bytes(adler(data), 4)
}

fn push_block(out: &mut Vec<u8>, last: bool, data: &[u8])
    requires
        data@.len() <= MAX_BLOCK,
    ensures
        final(out)@ == old(out)@ + block(last, data@),
{
    let len: usize = data.len();
    out.push(
        if last {
            1
        } else {
            0
        },
    );
    out.push((len % 256) as u8);
    out.push((len / 256) as u8);
    let complement: usize = 0xFFFF - len;
    out.push((complement % 256) as u8);
    out.push((complement / 256) as u8);
    out.extend_from_slice(data);
    assert(out@ =~= old(out)@ + block(last, data@));
}

/// A zlib stream of stored (uncompressed) deflate blocks.
pub fn zlib_stored(data: &[u8]) -> (out: Vec<u8>)
    ensures
        out@ == zlib(data@),
{
    let mut out: Vec<u8> = Vec::new();
    out.push(0x78);
    out.push(0x01);
    let mut at: usize = 0;
    let ghost head = out@;
    assert(data@.skip(0) =~= data@);
    assert(data@.len() == data.len());
    while data.len() - at > MAX_BLOCK
        invariant
            at <= data@.len(),
            data@.len() == data.len(),
            head + blocks(data@) =~= out@ + blocks(data@.skip(at as int)),
        decreases data@.len() - at,
    {
        let ghost rest = data@.skip(at as int);
        push_block(&mut out, false, &data[at..at + MAX_BLOCK]);
        assert(data@.subrange(at as int, at + MAX_BLOCK) =~= rest.take(MAX_BLOCK as int));
        assert(rest.skip(MAX_BLOCK as int) =~= data@.skip(at + MAX_BLOCK));
        at = at + MAX_BLOCK;
    }
    push_block(&mut out, true, &data[at..data.len()]);
    assert(data@.subrange(at as int, data@.len() as int) =~= data@.skip(at as int));
    bytes::put_u32(&mut out, adler32(data));
    assert(out@ =~= zlib(data@));
    out
}

/// A PNG chunk: the length, the tag, the data, and the checksum of both.
pub open spec fn chunk_bytes(tag: Seq<u8>, data: Seq<u8>) -> Seq<u8> {
    bytes::be_bytes(data.len(), 4) + tag + data + bytes::be_bytes(crc(tag + data) as nat, 4)
}

/// Appends a PNG chunk.
pub fn chunk(out: &mut Vec<u8>, tag: &[u8; 4], data: &[u8])
    requires
        data@.len() <= u32::MAX,
    ensures
        final(out)@ == old(out)@ + chunk_bytes(tag@, data@),
{
    bytes::put_u32(out, data.len() as u32);
    let mut body: Vec<u8> = Vec::new();
    body.extend_from_slice(tag.as_slice());
    body.extend_from_slice(data);
    assert(body@ =~= tag@ + data@);
    let sum: u32 = crc32(body.as_slice());
    out.extend_from_slice(body.as_slice());
    bytes::put_u32(out, sum);
    assert(out@ =~= old(out)@ + chunk_bytes(tag@, data@));
}

/// Rows of pixels, each after the mark for "no filter".
pub open spec fn scanlines(pixels: Seq<u8>, row: nat, rows: nat) -> Seq<u8>
    decreases rows,
{
    if rows == 0 {
        seq![]
    } else {
        scanlines(pixels, row, (rows - 1) as nat) + seq![0u8] + pixels.subrange(
            (rows - 1) * row,
            (rows * row) as int,
        )
    }
}

/// An image file: 8-bit pixels of red, green, blue and opacity.
pub open spec fn file(width: u32, height: u32, pixels: Seq<u8>) -> Seq<u8> {
    seq![0x89u8, 0x50u8, 0x4Eu8, 0x47u8, 0x0Du8, 0x0Au8, 0x1Au8, 0x0Au8] + chunk_bytes(
        seq![0x49u8, 0x48u8, 0x44u8, 0x52u8],
        bytes::be_bytes(width as nat, 4) + bytes::be_bytes(height as nat, 4) + seq![
            8u8,
            6u8,
            0u8,
            0u8,
            0u8,
        ],
    ) + chunk_bytes(
        seq![0x49u8, 0x44u8, 0x41u8, 0x54u8],
        zlib(scanlines(pixels, width as nat * 4, height as nat)),
    ) + chunk_bytes(seq![0x49u8, 0x45u8, 0x4Eu8, 0x44u8], seq![])
}

/// The bytes of an image file, from pixels row by row, four bytes each.
pub fn save(width: u32, height: u32, pixels: &[u8]) -> (out: Vec<u8>)
    requires
        pixels@.len() == height * (width * 4),
        zlib(scanlines(pixels@, width as nat * 4, height as nat)).len() <= u32::MAX,
    ensures
        out@ == file(width, height, pixels@),
{
    let mut raw: Vec<u8> = Vec::new();
    let ghost row = width as nat * 4;
    let mut y: u32 = 0;
    let mut at: usize = 0;
    assert(pixels@.len() == pixels.len());
    while y < height
        invariant
            y <= height,
            row == width * 4,
            at == y * row,
            pixels@.len() == height * row,
            pixels@.len() == pixels.len(),
            raw@ == scanlines(pixels@, row, y as nat),
        decreases height - y,
    {
        proof {
            assert((y + 1) * row == y * row + row && (y + 1) * row <= height * row)
                by (nonlinear_arith)
                requires
                    y < height,
            ;
        }
        raw.push(0);
        let end: usize = at + width as usize * 4;
        raw.extend_from_slice(&pixels[at..end]);
        assert(raw@ =~= scanlines(pixels@, row, (y + 1) as nat));
        at = end;
        y = y + 1;
    }
    let mut out: Vec<u8> = Vec::new();
    let signature: [u8; 8] = [0x89, 0x50, 0x4E, 0x47, 0x0D, 0x0A, 0x1A, 0x0A];
    out.extend_from_slice(signature.as_slice());
    let mut header: Vec<u8> = Vec::new();
    bytes::put_u32(&mut header, width);
    bytes::put_u32(&mut header, height);
    let kind: [u8; 5] = [8, 6, 0, 0, 0];
    header.extend_from_slice(kind.as_slice());
    proof {
        bytes::be_bytes_len(width as nat, 4);
        bytes::be_bytes_len(height as nat, 4);
        assert(header@ =~= bytes::be_bytes(width as nat, 4) + bytes::be_bytes(height as nat, 4)
            + seq![8u8, 6u8, 0u8, 0u8, 0u8]);
    }
    let ihdr: [u8; 4] = [0x49, 0x48, 0x44, 0x52];
    let idat: [u8; 4] = [0x49, 0x44, 0x41, 0x54];
    let iend: [u8; 4] = [0x49, 0x45, 0x4E, 0x44];
    assert(ihdr@ =~= seq![0x49u8, 0x48u8, 0x44u8, 0x52u8]);
    assert(idat@ =~= seq![0x49u8, 0x44u8, 0x41u8, 0x54u8]);
    assert(iend@ =~= seq![0x49u8, 0x45u8, 0x4Eu8, 0x44u8]);
    chunk(&mut out, &ihdr, header.as_slice());
    let packed = zlib_stored(raw.as_slice());
    chunk(&mut out, &idat, packed.as_slice());
    let nothing: Vec<u8> = Vec::new();
    chunk(&mut out, &iend, nothing.as_slice());
    assert(nothing@ =~= seq![]);
    assert(out@ =~= file(width, height, pixels@));
    out
}

/// How a reader unpacks stored blocks: the data, and what comes after the last
/// block; `None` where they are damaged.
pub open spec fn unpacked(s: Seq<u8>) -> Option<(Seq<u8>, Seq<u8>)>
    decreases s.len(),
{
    if s.len() < 5 {
        None
    } else {
        let len = s[1] + 256 * s[2];
        let complement = s[3] + 256 * s[4];
        if s[0] > 1 || len + complement != 0xFFFF || s.len() < 5 + len {
            None
        } else {
            let data = s.subrange(5, 5 + len);
            let rest = s.skip(5 + len);
            if s[0] == 1 {
                Some((data, rest))
            } else {
                match unpacked(rest) {
                    Some((more, end)) => Some((data + more, end)),
                    None => None,
                }
            }
        }
    }
}

/// A block is read from the front of any bytes.
proof fn a_block_comes_first(last: bool, data: Seq<u8>, after: Seq<u8>)
    requires
        data.len() <= MAX_BLOCK,
    ensures
        ({
            let s = block(last, data) + after;
            &&& s.len() == 5 + data.len() + after.len()
            &&& s[0] == if last {
                1u8
            } else {
                0u8
            }
            &&& s[1] + 256 * s[2] == data.len()
            &&& s[3] + 256 * s[4] == 0xFFFF - data.len()
            &&& s.subrange(5, 5 + data.len() as int) == data
            &&& s.skip(5 + data.len() as int) == after
        }),
{
    let s = block(last, data) + after;
    let len = data.len();
    let complement = (0xFFFF - len) as nat;
    assert(s[1] == (len % 256) as u8 && s[2] == (len / 256) as u8);
    assert(s[3] == (complement % 256) as u8 && s[4] == (complement / 256) as u8);
    assert(s.subrange(5, 5 + len as int) =~= data);
    assert(s.skip(5 + len as int) =~= after);
}

/// A reader gets back exactly the data that was stored, whatever its length.
pub proof fn stored_data_unpacks(data: Seq<u8>, after: Seq<u8>)
    ensures
        unpacked(blocks(data) + after) == Some((data, after)),
    decreases data.len(),
{
    let whole = blocks(data) + after;
    if data.len() <= MAX_BLOCK {
        a_block_comes_first(true, data, after);
    } else {
        let first = data.take(MAX_BLOCK as int);
        let others = data.skip(MAX_BLOCK as int);
        let rest = blocks(others) + after;
        stored_data_unpacks(others, after);
        a_block_comes_first(false, first, rest);
        assert(whole =~= block(false, first) + rest);
        assert(first + others =~= data);
    }
}

/// Each full block costs five bytes, and so does the last.
pub proof fn stored_length(data: Seq<u8>)
    ensures
        blocks(data).len() == data.len() + 5 * (if data.len() == 0 {
            1
        } else {
            (data.len() + MAX_BLOCK - 1) / MAX_BLOCK as int
        }),
    decreases data.len(),
{
    if data.len() > MAX_BLOCK {
        stored_length(data.skip(MAX_BLOCK as int));
    }
}

/// The register never loses anything: two that differ still do a step later.
proof fn a_step_keeps_registers_apart(x: u32, y: u32, n: nat)
    requires
        x != y,
    ensures
        crc_bits(x, n) != crc_bits(y, n),
    decreases n,
{
    if n > 0 {
        a_step_keeps_registers_apart(x, y, (n - 1) as nat);
        let a = crc_bits(x, (n - 1) as nat);
        let b = crc_bits(y, (n - 1) as nat);
        assert(a != b ==> (if a & 1 != 0 {
            (a >> 1) ^ 0xEDB8_8320
        } else {
            a >> 1
        }) != (if b & 1 != 0 {
            (b >> 1) ^ 0xEDB8_8320
        } else {
            b >> 1
        })) by (bit_vector);
    }
}

proof fn what_follows_keeps_registers_apart(a: Seq<u8>, b: Seq<u8>, after: Seq<u8>)
    requires
        crc_register(a) != crc_register(b),
    ensures
        crc_register(a + after) != crc_register(b + after),
    decreases after.len(),
{
    if after.len() == 0 {
        assert(a + after =~= a && b + after =~= b);
    } else {
        let rest = after.drop_last();
        what_follows_keeps_registers_apart(a, b, rest);
        assert((a + after).drop_last() =~= a + rest);
        assert((b + after).drop_last() =~= b + rest);
        let x = crc_register(a + rest);
        let y = crc_register(b + rest);
        let c = after.last() as u32;
        assert(x != y ==> x ^ c != y ^ c) by (bit_vector);
        a_step_keeps_registers_apart(x ^ c, y ^ c, 8);
    }
}

/// A changed byte changes the checksum, wherever it stands: damage to any one byte
/// of a chunk is noticed.
pub proof fn a_changed_byte_changes_the_checksum(
    before: Seq<u8>,
    x: u8,
    y: u8,
    after: Seq<u8>,
)
    requires
        x != y,
    ensures
        crc(before + seq![x] + after) != crc(before + seq![y] + after),
{
    let a = before + seq![x];
    let b = before + seq![y];
    assert(a.drop_last() =~= before && b.drop_last() =~= before);
    let r = crc_register(before);
    assert(x != y ==> r ^ (x as u32) != r ^ (y as u32)) by (bit_vector);
    a_step_keeps_registers_apart(r ^ (x as u32), r ^ (y as u32), 8);
    what_follows_keeps_registers_apart(a, b, after);
    let p = crc_register(a + after);
    let q = crc_register(b + after);
    assert(p != q ==> !p != !q) by (bit_vector);
}

/// The bytes that two runs sum to are those of both: the one that the sum starts
/// with is counted once, and each byte counts in full.
pub proof fn the_sums_of_two_runs_add_up(a: Seq<u8>, b: Seq<u8>)
    ensures
        byte_sum(seq![]) == 1,
        running_sum(seq![]) == 0,
        b.len() == 1 ==> byte_sum(b) == 1 + b[0],
        byte_sum(a + b) == byte_sum(a) + byte_sum(b) - 1,
        running_sum(a + b) == running_sum(a) + running_sum(b) + b.len() * (byte_sum(a) - 1),
    decreases b.len(),
{
    if b.len() == 1 {
        assert(b.drop_last() =~= Seq::<u8>::empty());
    }
    if b.len() == 0 {
        assert(a + b =~= a);
        assert(0 * (byte_sum(a) - 1) == 0);
    } else {
        let rest = b.drop_last();
        the_sums_of_two_runs_add_up(a, rest);
        assert((a + b).drop_last() =~= a + rest);
        assert((rest.len() + 1) * (byte_sum(a) - 1) == rest.len() * (byte_sum(a) - 1) + (byte_sum(a)
            - 1)) by (nonlinear_arith);
    }
}

/// The zlib checksum is both sums, each modulo the largest prime below 2^16, the
/// running one in the upper half.
pub proof fn the_checksum_holds_both_sums(s: Seq<u8>)
    ensures
        adler(s) % 0x1_0000 == byte_sum(s) % 65521,
        adler(s) / 0x1_0000 == running_sum(s) % 65521,
{
}

/// A zlib stream starts with its two bytes, holds the data in stored blocks, and ends
/// in the checksum of the data.
pub proof fn a_stream_holds_its_data_and_its_checksum(data: Seq<u8>)
    ensures
        zlib(data)[0] == 0x78 && zlib(data)[1] == 0x01,
        unpacked(zlib(data).skip(2)) matches Some((held, end)) && held == data && end.len() == 4
            && bytes::be_value(end) == adler(data),
{
    let sum = bytes::be_bytes(adler(data), 4);
    stored_data_unpacks(data, sum);
    assert(zlib(data).skip(2) =~= blocks(data) + sum);
    bytes::be_bytes_len(adler(data), 4);
    bytes::span_values();
    bytes::be_round_trip(adler(data), 4);
}

/// A chunk is the length of its data, its tag, its data, and the checksum of tag and
/// data.
pub proof fn a_chunk_holds_its_data_and_its_checksum(tag: Seq<u8>, data: Seq<u8>)
    requires
        tag.len() == 4,
        data.len() <= u32::MAX,
    ensures
        ({
            let s = chunk_bytes(tag, data);
            &&& s.len() == data.len() + 12
            &&& bytes::be_value(s.take(4)) == data.len()
            &&& s.subrange(4, 8) == tag
            &&& s.subrange(8, 8 + data.len() as int) == data
            &&& bytes::be_value(s.skip(8 + data.len() as int)) == crc(
                s.subrange(4, 8 + data.len() as int),
            )
        }),
{
    let s = chunk_bytes(tag, data);
    let n = data.len() as int;
    bytes::span_values();
    bytes::be_bytes_len(data.len(), 4);
    bytes::be_round_trip(data.len(), 4);
    bytes::be_bytes_len(crc(tag + data) as nat, 4);
    bytes::be_round_trip(crc(tag + data) as nat, 4);
    assert(s.take(4) =~= bytes::be_bytes(data.len(), 4));
    assert(s.subrange(4, 8) =~= tag);
    assert(s.subrange(8, 8 + n) =~= data);
    assert(s.subrange(4, 8 + n) =~= tag + data);
    assert(s.skip(8 + n) =~= bytes::be_bytes(crc(tag + data) as nat, 4));
}

/// Every pixel stands in its row, and each row behind the mark for "no filter".
pub proof fn every_pixel_stands_in_its_row(
    pixels: Seq<u8>,
    row: nat,
    rows: nat,
    y: nat,
    x: nat,
)
    requires
        pixels.len() == rows * row,
        y < rows,
        x < row,
    ensures
        scanlines(pixels, row, rows).len() == rows * (row + 1),
        scanlines(pixels, row, rows)[(y * (row + 1)) as int] == 0,
        scanlines(pixels, row, rows)[(y * (row + 1) + 1 + x) as int] == pixels[(y * row
            + x) as int],
{
    rows_so_far(pixels, row, rows, rows, y, x);
}

proof fn rows_so_far(pixels: Seq<u8>, row: nat, rows: nat, so_far: nat, y: nat, x: nat)
    requires
        pixels.len() == rows * row,
        so_far <= rows,
        x < row,
    ensures
        scanlines(pixels, row, so_far).len() == so_far * (row + 1),
        y < so_far ==> 0 <= y * (row + 1) && y * (row + 1) + 1 + x < so_far * (row + 1),
        y < so_far ==> scanlines(pixels, row, so_far)[(y * (row + 1)) as int] == 0,
        y < so_far ==> scanlines(pixels, row, so_far)[(y * (row + 1) + 1 + x) as int] == pixels[(y
            * row + x) as int],
    decreases so_far,
{
    if so_far > 0 {
        let before = (so_far - 1) as nat;
        rows_so_far(pixels, row, rows, before, y, x);
        assert(before * row + row == so_far * row && so_far * row <= rows * row && so_far * (row
            + 1) == before * (row + 1) + row + 1 && 0 <= before * row) by (nonlinear_arith)
            requires
                so_far == before + 1,
                so_far <= rows,
        ;
        assert(y < before ==> y * (row + 1) + 1 + x < before * (row + 1) && 0 <= y * (row + 1))
            by (nonlinear_arith)
            requires
                x < row,
        ;
        let s = scanlines(pixels, row, so_far);
        let line = pixels.subrange((before * row) as int, (so_far * row) as int);
        assert(s == scanlines(pixels, row, before) + seq![0u8] + line);
        if y == before {
            assert(s[(y * (row + 1) + 1 + x) as int] == line[x as int]);
        }
    } else {
        assert(0 * (row + 1) == 0);
    }
}

/// What a header says of an image.
pub open spec fn size_bytes(width: u32, height: u32) -> Seq<u8> {
    bytes::be_bytes(width as nat, 4) + bytes::be_bytes(height as nat, 4) + seq![
        8u8,
        6u8,
        0u8,
        0u8,
        0u8,
    ]
}

/// The size is read back from a header.
proof fn a_header_holds_the_size(width: u32, height: u32)
    ensures
        size_bytes(width, height).len() == 13,
        bytes::be_value(size_bytes(width, height).subrange(0, 4)) == width,
        bytes::be_value(size_bytes(width, height).subrange(4, 8)) == height,
        size_bytes(width, height).subrange(8, 13) == seq![8u8, 6u8, 0u8, 0u8, 0u8],
{
    let size = size_bytes(width, height);
    bytes::span_values();
    bytes::be_bytes_len(width as nat, 4);
    bytes::be_bytes_len(height as nat, 4);
    bytes::be_round_trip(width as nat, 4);
    bytes::be_round_trip(height as nat, 4);
    assert(size.subrange(0, 4) =~= bytes::be_bytes(width as nat, 4));
    assert(size.subrange(4, 8) =~= bytes::be_bytes(height as nat, 4));
    assert(size.subrange(8, 13) =~= seq![8u8, 6u8, 0u8, 0u8, 0u8]);
}

/// An image file is its signature, its size, its packed rows and its end, each but
/// the signature in a chunk of its own, and nothing else. The size is read back from
/// it, with eight bits to each of red, green, blue and opacity.
pub proof fn an_image_holds_its_size_and_its_pixels(
    width: u32,
    height: u32,
    pixels: Seq<u8>,
    header: Seq<u8>,
    rows: Seq<u8>,
    end: Seq<u8>,
)
    requires
        header == chunk_bytes(seq![0x49u8, 0x48u8, 0x44u8, 0x52u8], size_bytes(width, height)),
        rows == chunk_bytes(
            seq![0x49u8, 0x44u8, 0x41u8, 0x54u8],
            zlib(scanlines(pixels, width as nat * 4, height as nat)),
        ),
        end == chunk_bytes(seq![0x49u8, 0x45u8, 0x4Eu8, 0x44u8], seq![]),
    ensures
        file(width, height, pixels) == seq![
            0x89u8,
            0x50u8,
            0x4Eu8,
            0x47u8,
            0x0Du8,
            0x0Au8,
            0x1Au8,
            0x0Au8,
        ] + header + rows + end,
        size_bytes(width, height).len() == 13,
        bytes::be_value(size_bytes(width, height).subrange(0, 4)) == width,
        bytes::be_value(size_bytes(width, height).subrange(4, 8)) == height,
        size_bytes(width, height).subrange(8, 13) == seq![8u8, 6u8, 0u8, 0u8, 0u8],
{
    a_header_holds_the_size(width, height);
}

proof fn steps_are_linear(x: u32, y: u32, n: nat)
    ensures
        crc_bits(x ^ y, n) == crc_bits(x, n) ^ crc_bits(y, n),
    decreases n,
{
    if n > 0 {
        steps_are_linear(x, y, (n - 1) as nat);
        let a = crc_bits(x, (n - 1) as nat);
        let b = crc_bits(y, (n - 1) as nat);
        assert((if (a ^ b) & 1 != 0 {
            ((a ^ b) >> 1) ^ 0xEDB8_8320
        } else {
            (a ^ b) >> 1
        }) == (if a & 1 != 0 {
            (a >> 1) ^ 0xEDB8_8320
        } else {
            a >> 1
        }) ^ (if b & 1 != 0 {
            (b >> 1) ^ 0xEDB8_8320
        } else {
            b >> 1
        })) by (bit_vector);
    }
}

proof fn eight_steps_without_the_low_byte_shift(x: u32)
    requires
        x & 0xFF == 0,
    ensures
        crc_bits(x, 8) == x >> 8,
{
    reveal_with_fuel(crc_bits, 9);
    assert(x & 0xFF == 0 ==> x & 1 == 0 && (x >> 1) & 1 == 0 && (x >> 2) & 1 == 0 && (x >> 3) & 1
        == 0 && (x >> 4) & 1 == 0 && (x >> 5) & 1 == 0 && (x >> 6) & 1 == 0 && (x >> 7) & 1 == 0)
        by (bit_vector);
    assert((x >> 1) >> 1 == x >> 2 && (x >> 2) >> 1 == x >> 3 && (x >> 3) >> 1 == x >> 4 && (x
        >> 4) >> 1 == x >> 5 && (x >> 5) >> 1 == x >> 6 && (x >> 6) >> 1 == x >> 7 && (x >> 7)
        >> 1 == x >> 8) by (bit_vector);
}

/// The checksum can be had byte by byte from a table: the register moves down by a
/// byte, and what fell out, with the byte that came, tells what is added. It starts
/// from all ones and ends inverted.
pub proof fn the_checksum_can_be_had_from_a_table(s: Seq<u8>, byte: u8)
    ensures
        crc(seq![]) == 0,
        ({
            let register = !crc(s);
            let entry = (register ^ (byte as u32)) & 0xFF;
            !crc(s.push(byte)) == (register >> 8) ^ crc_bits(entry, 8)
        }),
{
    assert(!0xFFFF_FFFFu32 == 0) by (bit_vector);
    let r = crc_register(s);
    let t = crc_register(s.push(byte));
    assert(!(!r) == r && !(!t) == t) by (bit_vector);
    assert(s.push(byte).drop_last() =~= s);
    let c = byte as u32;
    let z = r ^ c;
    let low = z & 0xFF;
    let high = z & 0xFFFF_FF00;
    assert(z == high ^ low && high & 0xFF == 0) by (bit_vector)
        requires
            low == z & 0xFF,
            high == z & 0xFFFF_FF00,
    ;
    assert(high >> 8 == r >> 8) by (bit_vector)
        requires
            c <= 0xFF,
            z == r ^ c,
            high == z & 0xFFFF_FF00,
    ;
    steps_are_linear(high, low, 8);
    eight_steps_without_the_low_byte_shift(high);
}

/// A step halves the register, and adds the polynomial where one was left over.
pub proof fn a_step_divides_by_the_polynomial(register: u32)
    ensures
        register % 2 == 0 ==> crc_bit(register) == register / 2,
        register % 2 == 1 ==> crc_bit(register) == (register / 2) ^ 0xEDB8_8320,
        crc_bits(register, 1) == crc_bit(register),
        crc_bits(register, 8) == crc_bits(crc_bits(register, 4), 4),
{
    assert(register >> 1 == register / 2) by (bit_vector);
    assert(register & 1 == register % 2) by (bit_vector);
    reveal_with_fuel(crc_bits, 9);
}

} // verus!
