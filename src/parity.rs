//! Parity embedding: each visited pixel carries one payload bit as the parity
//! of all set bits across its channels.
//!
//! The rule: where a pixel's parity already equals the payload bit, the pixel
//! stays as it is; otherwise the least-significant bit of its first channel
//! flips, which flips the parity. Extraction reads each visited pixel's parity.
use vstd::prelude::*;
use crate::bits::{
    extracted_len, lemma_packed_payload, lemma_payload_bit_is_bit, packed, payload_bit,
    PayloadCursor,
};
use crate::engine::{lemma_visited_disjoint, lemma_visited_in_rows, visited_start};
use crate::geometry::{
    lemma_fitting_sizes, make_pixel_map_geometry, pixel_map_geometry, pixel_map_geometry_ok,
    Geometry, StegoError,
};
use crate::pixel::{splice, Pixel};
use crate::traversal::{
    coordinate_at, coordinate_count, coordinate_count_spec, min, TraversalStrategy,
};

verus! {

/// Number of set bits among the low `n` bits of `x`.
pub open spec fn ones_in(x: u8, n: nat) -> nat
    decreases n,
{
    if n == 0 {
        0
    } else {
        ones_in(x, (n - 1) as nat) + ((x >> ((n - 1) as u8)) & 1) as nat
    }
}

/// Number of set bits across all the channels `chs`.
pub open spec fn pixel_ones(chs: Seq<u8>) -> nat
    decreases chs.len(),
{
    if chs.len() == 0 {
        0
    } else {
        ones_in(chs[0], 8) + pixel_ones(chs.subrange(1, chs.len() as int))
    }
}

/// The parity (0 or 1) of the set bits across the channels `chs`.
pub open spec fn parity(chs: Seq<u8>) -> u8 {
    (pixel_ones(chs) % 2) as u8
}

/// The channels `chs` after they were made to carry bit `b` as their parity.
pub open spec fn parity_fill(chs: Seq<u8>, b: u8) -> Seq<u8> {
    if parity(chs) == b {
        chs
    } else {
        chs.update(0, chs[0] ^ 1)
    }
}

/// The channel bytes of the `p`-th pixel that `s` visits.
pub open spec fn visited_channels(buf: Seq<u8>, s: TraversalStrategy, g: Geometry, p: int) -> Seq<u8> {
    buf.subrange(visited_start(s, g, p), visited_start(s, g, p) + g.channels)
}

/// The buffer after the first `p` visited pixels received payload bits
/// `0 .. p`.
pub open spec fn parity_pixels(
    buf: Seq<u8>,
    data: Seq<u8>,
    s: TraversalStrategy,
    g: Geometry,
    p: nat,
) -> Seq<u8>
    decreases p,
{
    if p == 0 {
        buf
    } else {
        let prev = parity_pixels(buf, data, s, g, (p - 1) as nat);
        splice(
            prev,
            visited_start(s, g, p - 1),
            parity_fill(visited_channels(prev, s, g, p - 1), payload_bit(data, p - 1)),
        )
    }
}

/// The buffer after the whole payload was embedded by parity.
pub open spec fn parity_embedded(buf: Seq<u8>, data: Seq<u8>, s: TraversalStrategy, g: Geometry) -> Seq<u8> {
    parity_pixels(buf, data, s, g, 8 * data.len())
}

/// The parities of the first `n` visited pixels.
pub open spec fn parity_bits(buf: Seq<u8>, s: TraversalStrategy, g: Geometry, n: nat) -> Seq<u8> {
    Seq::new(n, |k: int| parity(visited_channels(buf, s, g, k)))
}

/// What parity extraction of `n` bits returns: the parities of the first `n`
/// visited pixels (as many as there are), packed little-endian into
/// `extracted_len(n)` bytes.
pub open spec fn parity_extracted(buf: Seq<u8>, s: TraversalStrategy, g: Geometry, n: nat) -> Seq<u8> {
    let m = min(n as int, coordinate_count_spec(s, g.height as int, g.width as int)) as nat;
    packed(parity_bits(buf, s, g, m), m, extracted_len(n))
}

/// What embedding `data` by parity into `buf` yields: the new buffer, or why
/// it is refused.
pub open spec fn parity_embed_outcome(
    buf: Seq<u8>,
    data: Seq<u8>,
    s: TraversalStrategy,
    g: Geometry,
) -> Result<Seq<u8>, StegoError> {
    if !g.fits(buf.len() as int) {
        Err(StegoError::InvalidGeometry)
    } else if 8 * data.len() > coordinate_count_spec(s, g.height as int, g.width as int) {
        Err(StegoError::CapacityExceeded)
    } else {
        Ok(parity_embedded(buf, data, s, g))
    }
}

/// What extracting `n` bits by parity from `buf` yields.
pub open spec fn parity_extract_outcome(buf: Seq<u8>, s: TraversalStrategy, g: Geometry, n: nat) -> Result<
    Seq<u8>,
    StegoError,
> {
    if !g.fits(buf.len() as int) {
        Err(StegoError::InvalidGeometry)
    } else {
        Ok(parity_extracted(buf, s, g, n))
    }
}

proof fn lemma_ones_flip(x: u8, n: nat)
    requires
        1 <= n <= 8,
    ensures
        ones_in(x ^ 1, n) + (x & 1) == ones_in(x, n) + ((x ^ 1) & 1),
    decreases n,
{
    if n == 1 {
        assert(ones_in(x ^ 1, 0) == 0);
        assert(ones_in(x, 0) == 0);
        assert((x ^ 1) >> 0u8 == x ^ 1) by (bit_vector);
        assert(x >> 0u8 == x) by (bit_vector);
    } else {
        lemma_ones_flip(x, (n - 1) as nat);
        let b = (n - 1) as u8;
        assert(((x ^ 1) >> b) & 1 == (x >> b) & 1) by (bit_vector)
            requires
                1 <= b < 8,
        ;
    }
}

proof fn lemma_ones_bound(x: u8, n: nat)
    ensures
        ones_in(x, n) <= n,
    decreases n,
{
    if n > 0 {
        lemma_ones_bound(x, (n - 1) as nat);
        let b = (n - 1) as u8;
        assert((x >> b) & 1 <= 1) by (bit_vector);
    }
}

/// Flipping the least-significant bit of the first channel flips the parity.
pub proof fn lemma_parity_flip(chs: Seq<u8>)
    requires
        chs.len() > 0,
    ensures
        parity(chs.update(0, chs[0] ^ 1)) != parity(chs),
        parity(chs) < 2,
{
    let x = chs[0];
    lemma_ones_flip(x, 8);
    assert(x & 1 < 2 && (x ^ 1) & 1 < 2 && (x & 1 == 0 <==> (x ^ 1) & 1 == 1)) by (bit_vector);
    let up = chs.update(0, x ^ 1);
    assert(up.subrange(1, up.len() as int) =~= chs.subrange(1, chs.len() as int));
}

/// A pixel made to carry `b` has parity `b`.
pub proof fn lemma_parity_fill(chs: Seq<u8>, b: u8)
    requires
        chs.len() > 0,
        b < 2,
    ensures
        parity(parity_fill(chs, b)) == b,
        parity_fill(chs, b).len() == chs.len(),
{
    lemma_parity_flip(chs);
}

/// After `p` pixels, visited pixel `q < p` has parity `payload_bit(q)`, and no
/// byte outside those pixels changed.
proof fn lemma_parity_pixels(buf: Seq<u8>, data: Seq<u8>, s: TraversalStrategy, g: Geometry, p: nat)
    requires
        g.wf(),
        g.fits(buf.len() as int),
        p <= coordinate_count_spec(s, g.height as int, g.width as int),
        p <= 8 * data.len(),
    ensures
        parity_pixels(buf, data, s, g, p).len() == buf.len(),
        forall|q: int|
            0 <= q < p ==> #[trigger] parity(visited_channels(parity_pixels(buf, data, s, g, p), s, g, q))
                == payload_bit(data, q),
        forall|i: int|
            0 <= i < buf.len() && (forall|q: int|
                0 <= q < p ==> !(#[trigger] visited_start(s, g, q) <= i < visited_start(s, g, q)
                    + g.channels)) ==> #[trigger] parity_pixels(buf, data, s, g, p)[i] == buf[i],
    decreases p,
{
    if p > 0 {
        let p1 = (p - 1) as nat;
        lemma_parity_pixels(buf, data, s, g, p1);
        let prev = parity_pixels(buf, data, s, g, p1);
        let at = visited_start(s, g, p1 as int);
        let ch = g.channels as int;
        lemma_visited_in_rows(s, g, p1 as int);
        lemma_payload_bit_is_bit(data, p1 as int);
        let fill = parity_fill(visited_channels(prev, s, g, p1 as int), payload_bit(data, p1 as int));
        lemma_parity_fill(visited_channels(prev, s, g, p1 as int), payload_bit(data, p1 as int));
        let cur = parity_pixels(buf, data, s, g, p);
        assert(cur == splice(prev, at, fill));
        assert forall|q: int| 0 <= q < p implies #[trigger] parity(visited_channels(cur, s, g, q))
            == payload_bit(data, q) by {
            if q < p1 {
                lemma_visited_disjoint(s, g, q, p1 as int);
                lemma_visited_in_rows(s, g, q);
                assert(visited_channels(cur, s, g, q) =~= visited_channels(prev, s, g, q));
            } else {
                assert(visited_channels(cur, s, g, q) =~= fill);
            }
        }
        assert forall|i: int|
            0 <= i < buf.len() && (forall|q: int|
                0 <= q < p ==> !(#[trigger] visited_start(s, g, q) <= i < visited_start(s, g, q)
                    + g.channels)) implies #[trigger] cur[i] == buf[i] by {
            assert(!(visited_start(s, g, p1 as int) <= i < visited_start(s, g, p1 as int)
                + g.channels));
            assert(cur[i] == prev[i]);
        }
    }
}

/// Round trip by parity: extracting `8 * len(P)` bits after embedding `P`
/// returns `P` and the one spare zero byte.
pub proof fn lemma_parity_round_trip(buf: Seq<u8>, data: Seq<u8>, s: TraversalStrategy, g: Geometry)
    requires
        g.wf(),
        g.fits(buf.len() as int),
        8 * data.len() <= coordinate_count_spec(s, g.height as int, g.width as int),
    ensures
        parity_extracted(parity_embedded(buf, data, s, g), s, g, 8 * data.len()) == data.push(0),
{
    let nb = (8 * data.len()) as nat;
    let e = parity_embedded(buf, data, s, g);
    lemma_parity_pixels(buf, data, s, g, nb);
    let bits = parity_bits(e, s, g, nb);
    assert forall|k: int| 0 <= k < nb implies bits[k] == payload_bit(data, k) by {
        assert(parity(visited_channels(e, s, g, k)) == payload_bit(data, k));
    }
    assert(extracted_len(nb) == data.len() + 1);
    lemma_packed_payload(data, bits, data.len() + 1);
    assert(data + Seq::new(1, |_i: int| 0u8) =~= data.push(0));
}

/// Header preservation by parity: no byte before the pixel data changes.
pub proof fn lemma_parity_header_preserved(
    buf: Seq<u8>,
    data: Seq<u8>,
    s: TraversalStrategy,
    g: Geometry,
)
    requires
        g.wf(),
        g.fits(buf.len() as int),
        8 * data.len() <= coordinate_count_spec(s, g.height as int, g.width as int),
    ensures
        forall|i: int|
            0 <= i < g.pixel_data_offset ==> #[trigger] parity_embedded(buf, data, s, g)[i]
                == buf[i],
{
    let nb = (8 * data.len()) as nat;
    lemma_parity_pixels(buf, data, s, g, nb);
    assert forall|i: int| 0 <= i < g.pixel_data_offset implies #[trigger] parity_embedded(
        buf,
        data,
        s,
        g,
    )[i] == buf[i] by {
        assert forall|q: int| 0 <= q < nb implies !(#[trigger] visited_start(s, g, q) <= i
            < visited_start(s, g, q) + g.channels) by {
            lemma_visited_in_rows(s, g, q);
        }
    }
}

/// Number of set bits of `x`.
fn count_ones(x: u8) -> (n: u32)
    ensures
        n == ones_in(x, 8),
        n <= 8,
{
    let mut n: u32 = 0;
    let mut i: u8 = 0;
    while i < 8
        invariant
            i <= 8,
            n == ones_in(x, i as nat),
            n <= i,
        decreases 8 - i,
    {
        proof {
            lemma_ones_bound(x, (i + 1) as nat);
        }
        n = n + ((x >> i) & 1) as u32;
        i = i + 1;
    }
    n
}

proof fn lemma_pixel_ones_unfold(chs: Seq<u8>)
    requires
        chs.len() == 3 || chs.len() == 4,
    ensures
        pixel_ones(chs) == ones_in(chs[0], 8) + ones_in(chs[1], 8) + ones_in(chs[2], 8) + if chs.len()
            == 4 {
            ones_in(chs[3], 8)
        } else {
            0
        },
{
    let n = chs.len() as int;
    let t1 = chs.subrange(1, n);
    let t2 = chs.subrange(2, n);
    let t3 = chs.subrange(3, n);
    assert(t1.subrange(1, t1.len() as int) =~= t2);
    assert(t2.subrange(1, t2.len() as int) =~= t3);
    if n == 4 {
        let t4 = chs.subrange(4, n);
        assert(t3.subrange(1, t3.len() as int) =~= t4);
        assert(pixel_ones(t4) == 0);
        assert(pixel_ones(t3) == ones_in(chs[3], 8) + pixel_ones(t4));
    } else {
        assert(pixel_ones(t3) == 0);
    }
    assert(pixel_ones(t2) == ones_in(chs[2], 8) + pixel_ones(t3));
    assert(pixel_ones(t1) == ones_in(chs[1], 8) + pixel_ones(t2));
}

/// Number of set bits across the pixel's channels.
fn count_pixel_ones<P: Pixel>(pixel: &P) -> (n: u32)
    ensures
        n == pixel_ones(pixel.channels()),
{
    proof {
        pixel.lemma_layout();
        lemma_pixel_ones_unfold(pixel.channels());
    }
    let mut n = count_ones(pixel.first()) + count_ones(pixel.second()) + count_ones(pixel.third());
    if pixel.pixel_size() == 4 {
        n = n + count_ones(pixel.fourth());
    }
    n
}

/// Makes the pixel's parity carry the payload bit under the cursor: the
/// least-significant bit of the first channel flips where the parity differs.
pub fn embed_pixel_color<P: Pixel>(
    pixel: &mut P,
    cursor: &mut PayloadCursor,
    data: &[u8],
    bits_to_embed: &mut usize,
)
    requires
        old(cursor).wf(),
        old(cursor).position() + *old(bits_to_embed) == 8 * data@.len(),
        *old(bits_to_embed) > 0,
        8 * data@.len() <= usize::MAX,
    ensures
        final(pixel).channels() == parity_fill(
            old(pixel).channels(),
            payload_bit(data@, old(cursor).position()),
        ),
        final(cursor).wf(),
        final(cursor).position() == old(cursor).position() + 1,
        *final(bits_to_embed) == *old(bits_to_embed) - 1,
{
    proof {
        pixel.lemma_layout();
        lemma_parity_flip(pixel.channels());
    }
    let bit = cursor.current_bit(data);
    let ones = count_pixel_ones(pixel);
    if (ones % 2) as u8 != bit {
        let v = pixel.first();
        pixel.set_first(v ^ 1);
    }
    cursor.advance();
    *bits_to_embed -= 1;
}

/// Writes the pixel's parity into the output at the cursor and moves the
/// cursor on.
fn extract_pixel_color<P: Pixel>(
    pixel: &P,
    cursor: &mut PayloadCursor,
    extracted_data: &mut Vec<u8>,
    Ghost(bits): Ghost<Seq<u8>>,
)
    requires
        old(cursor).wf(),
        old(cursor).position() < bits.len(),
        old(cursor).position() < 8 * old(extracted_data)@.len(),
        old(extracted_data)@ == packed(bits, old(cursor).position() as nat, old(extracted_data)@.len()),
        bits[old(cursor).position()] == parity(pixel.channels()),
    ensures
        final(cursor).wf(),
        final(cursor).position() == old(cursor).position() + 1,
        final(extracted_data)@ == packed(bits, final(cursor).position() as nat, old(extracted_data)@.len()),
        final(extracted_data)@.len() == old(extracted_data)@.len(),
{
    let ones = count_pixel_ones(pixel);
    let b = (ones % 2) as u8;
    let i = cursor.byte_index;
    // the byte under the cursor lies in the output, whose length is a usize
    let _len = extracted_data.len();
    let v = extracted_data[i] | (b << (cursor.bit_index as u8));
    extracted_data.set(i, v);
    cursor.advance();
}

/// Embeds `data` by parity, one bit per pixel that `s` visits, in pixels of
/// layout `P`.
///
/// Fails with `InvalidGeometry` where the buffer is shorter than the geometry
/// requires or `P` has another channel count, and with `CapacityExceeded`
/// where the payload has more bits than the strategy visits pixels; the
/// buffer is then unchanged.
pub fn embed_parity<P: Pixel>(
    data: &[u8],
    buffer: &mut [u8],
    geometry: &Geometry,
    strategy: &TraversalStrategy,
) -> (r: Result<(), StegoError>)
    requires
        geometry.wf(),
    ensures
        final(buffer)@.len() == old(buffer)@.len(),
        !geometry.fits(old(buffer)@.len() as int) || P::layout_size() != geometry.channels ==> r
            == Err::<(), StegoError>(StegoError::InvalidGeometry),
        geometry.fits(old(buffer)@.len() as int) && P::layout_size() == geometry.channels && 8
            * data@.len() > coordinate_count_spec(
            *strategy,
            geometry.height as int,
            geometry.width as int,
        ) ==> r == Err::<(), StegoError>(StegoError::CapacityExceeded),
        r is Err ==> final(buffer)@ == old(buffer)@,
        r is Ok ==> final(buffer)@ == parity_embedded(old(buffer)@, data@, *strategy, *geometry),
        r is Ok <==> geometry.fits(old(buffer)@.len() as int) && P::layout_size()
            == geometry.channels && 8 * data@.len() <= coordinate_count_spec(
            *strategy,
            geometry.height as int,
            geometry.width as int,
        ),
        P::layout_size() == geometry.channels ==> match parity_embed_outcome(
            old(buffer)@,
            data@,
            *strategy,
            *geometry,
        ) {
            Ok(bytes) => r is Ok && final(buffer)@ == bytes,
            Err(e) => r == Err::<(), StegoError>(e) && final(buffer)@ == old(buffer)@,
        },
{
    let g = *geometry;
    let buffer_len = buffer.len();
    let required = g.required_length();
    match required {
        None => {
            return Err(StegoError::InvalidGeometry);
        },
        Some(n) => {
            if n > buffer_len {
                return Err(StegoError::InvalidGeometry);
            }
        },
    }
    if P::layout_channels() != g.channels {
        return Err(StegoError::InvalidGeometry);
    }
    proof {
        lemma_fitting_sizes(g, *strategy, buffer@.len() as int);
    }
    let count = coordinate_count(strategy, g.height, g.width);
    if data.len() > count / 8 {
        return Err(StegoError::CapacityExceeded);
    }
    let nbits = data.len() * 8;
    let ghost old_buf = buffer@;
    let mut cursor = PayloadCursor::start();
    let mut bits_to_embed = nbits;
    let mut p: usize = 0;
    while bits_to_embed > 0
        invariant
            g == *geometry,
            g.wf(),
            g.fits(old_buf.len() as int),
            g.required_len() <= usize::MAX,
            P::layout_size() == g.channels,
            count == coordinate_count_spec(*strategy, g.height as int, g.width as int),
            g.height * g.width <= usize::MAX,
            nbits == 8 * data@.len(),
            nbits <= count,
            cursor.wf(),
            cursor.position() == p,
            p + bits_to_embed == nbits,
            buffer@.len() == old_buf.len(),
            buffer@ == parity_pixels(old_buf, data@, *strategy, g, p as nat),
        decreases bits_to_embed,
    {
        let (r, c) = coordinate_at(strategy, g.height, g.width, p);
        let at = g.pixel_offset(r, c);
        let mut pixel = P::read_at(buffer, at);
        embed_pixel_color(&mut pixel, &mut cursor, data, &mut bits_to_embed);
        pixel.write_at(buffer, at);
        p = p + 1;
    }
    Ok(())
}

/// Extracts `bit_count` bits by parity, one per pixel that `s` visits, packed
/// little-endian into `extracted_len(bit_count)` bytes. Where the strategy
/// visits fewer pixels, the bits past them read as zero.
///
/// Fails with `InvalidGeometry` where the buffer is shorter than the geometry
/// requires or `P` has another channel count.
pub fn extract_parity<P: Pixel>(
    buffer: &[u8],
    geometry: &Geometry,
    strategy: &TraversalStrategy,
    bit_count: usize,
) -> (r: Result<Vec<u8>, StegoError>)
    requires
        geometry.wf(),
    ensures
        r is Err <==> !geometry.fits(buffer@.len() as int) || P::layout_size()
            != geometry.channels,
        r matches Err(e) ==> e == StegoError::InvalidGeometry,
        r matches Ok(out) ==> out@ == parity_extracted(
            buffer@,
            *strategy,
            *geometry,
            bit_count as nat,
        ),
        P::layout_size() == geometry.channels ==> match parity_extract_outcome(
            buffer@,
            *strategy,
            *geometry,
            bit_count as nat,
        ) {
            Ok(bytes) => r matches Ok(out) && out@ == bytes,
            Err(e) => r == Err::<Vec<u8>, StegoError>(e),
        },
{
    let g = *geometry;
    let buffer_len = buffer.len();
    let required = g.required_length();
    match required {
        None => {
            return Err(StegoError::InvalidGeometry);
        },
        Some(n) => {
            if n > buffer_len {
                return Err(StegoError::InvalidGeometry);
            }
        },
    }
    if P::layout_channels() != g.channels {
        return Err(StegoError::InvalidGeometry);
    }
    proof {
        lemma_fitting_sizes(g, *strategy, buffer@.len() as int);
    }
    let count = coordinate_count(strategy, g.height, g.width);
    let n = if bit_count <= count {
        bit_count
    } else {
        count
    };
    let len = if bit_count % 8 == 0 {
        bit_count / 8 + 1
    } else {
        bit_count / 8 + 2
    };
    let mut out: Vec<u8> = Vec::new();
    let mut i: usize = 0;
    while i < len
        invariant
            out@ == Seq::new(i as nat, |_j: int| 0u8),
            i <= len,
        decreases len - i,
    {
        out.push(0);
        i = i + 1;
        assert(out@ =~= Seq::new(i as nat, |_j: int| 0u8));
    }
    let ghost bits = parity_bits(buffer@, *strategy, g, n as nat);
    let mut cursor = PayloadCursor::start();
    let mut p: usize = 0;
    while p < n
        invariant
            g == *geometry,
            g.wf(),
            g.fits(buffer@.len() as int),
            g.required_len() <= usize::MAX,
            P::layout_size() == g.channels,
            count == coordinate_count_spec(*strategy, g.height as int, g.width as int),
            g.height * g.width <= usize::MAX,
            n <= count,
            n <= 8 * len,
            len == extracted_len(bit_count as nat),
            n == min(bit_count as int, count as int),
            bits == parity_bits(buffer@, *strategy, g, n as nat),
            cursor.wf(),
            cursor.position() == p,
            p <= n,
            out@.len() == len,
            out@ == packed(bits, p as nat, len as nat),
        decreases n - p,
    {
        let (r, c) = coordinate_at(strategy, g.height, g.width, p);
        let at = g.pixel_offset(r, c);
        let pixel = P::read_at(buffer, at);
        proof {
            assert(pixel.channels() == visited_channels(buffer@, *strategy, g, p as int));
        }
        extract_pixel_color(&pixel, &mut cursor, &mut out, Ghost(bits));
        p = p + 1;
    }
    Ok(out)
}

/// Embeds `data` by parity into a bare pixel map row by row, each row left to right; the
/// numbers give its geometry (see `pixel_map_geometry`).
pub fn embed_color_data_left_right<P: Pixel>(
    data: &[u8],
    pixel_map: &mut [u8],
    width: u64,
    length: u64,
    padding: u64,
    pixel_size_bytes: u64,
) -> (r: Result<(), StegoError>)
    ensures
        !pixel_map_geometry_ok(width, length, padding, pixel_size_bytes) || P::layout_size()
            != pixel_size_bytes ==> r == Err::<(), StegoError>(StegoError::InvalidGeometry)
            && final(pixel_map)@ == old(pixel_map)@,
        pixel_map_geometry_ok(width, length, padding, pixel_size_bytes) && P::layout_size()
            == pixel_size_bytes ==> match parity_embed_outcome(
            old(pixel_map)@,
            data@,
            TraversalStrategy::LeftToRight,
            pixel_map_geometry(width, length, padding, pixel_size_bytes),
        ) {
            Ok(bytes) => r is Ok && final(pixel_map)@ == bytes,
            Err(e) => r == Err::<(), StegoError>(e) && final(pixel_map)@ == old(pixel_map)@,
        },
{
    match make_pixel_map_geometry(width, length, padding, pixel_size_bytes) {
        None => Err(StegoError::InvalidGeometry),
        Some(g) => {
            if P::layout_channels() as u64 != pixel_size_bytes {
                return Err(StegoError::InvalidGeometry);
            }
            embed_parity::<P>(data, pixel_map, &g, &TraversalStrategy::LeftToRight)
        },
    }
}

/// Extracts `embedded_bits` bits by parity from a bare pixel map row by row, each row left to right.
pub fn extract_color_data_left_right<P: Pixel>(
    pixel_map: &[u8],
    width: u64,
    length: u64,
    padding: u64,
    pixel_size_bytes: u64,
    embedded_bits: u64,
) -> (r: Result<Vec<u8>, StegoError>)
    ensures
        !pixel_map_geometry_ok(width, length, padding, pixel_size_bytes) || P::layout_size()
            != pixel_size_bytes || embedded_bits > usize::MAX ==> r == Err::<Vec<u8>, StegoError>(
            StegoError::InvalidGeometry,
        ),
        pixel_map_geometry_ok(width, length, padding, pixel_size_bytes) && P::layout_size()
            == pixel_size_bytes && embedded_bits <= usize::MAX ==> match parity_extract_outcome(
            pixel_map@,
            TraversalStrategy::LeftToRight,
            pixel_map_geometry(width, length, padding, pixel_size_bytes),
            embedded_bits as nat,
        ) {
            Ok(bytes) => r matches Ok(out) && out@ == bytes,
            Err(e) => r == Err::<Vec<u8>, StegoError>(e),
        },
{
    match make_pixel_map_geometry(width, length, padding, pixel_size_bytes) {
        None => Err(StegoError::InvalidGeometry),
        Some(g) => {
            if P::layout_channels() as u64 != pixel_size_bytes || embedded_bits > usize::MAX as u64 {
                return Err(StegoError::InvalidGeometry);
            }
            extract_parity::<P>(pixel_map, &g, &TraversalStrategy::LeftToRight, embedded_bits as usize)
        },
    }
}

/// Embeds `data` by parity into a bare pixel map from the last row to the first, each row right to left; the
/// numbers give its geometry (see `pixel_map_geometry`).
pub fn embed_color_data_right_left<P: Pixel>(
    data: &[u8],
    pixel_map: &mut [u8],
    width: u64,
    length: u64,
    padding: u64,
    pixel_size_bytes: u64,
) -> (r: Result<(), StegoError>)
    ensures
        !pixel_map_geometry_ok(width, length, padding, pixel_size_bytes) || P::layout_size()
            != pixel_size_bytes ==> r == Err::<(), StegoError>(StegoError::InvalidGeometry)
            && final(pixel_map)@ == old(pixel_map)@,
        pixel_map_geometry_ok(width, length, padding, pixel_size_bytes) && P::layout_size()
            == pixel_size_bytes ==> match parity_embed_outcome(
            old(pixel_map)@,
            data@,
            TraversalStrategy::RightToLeft,
            pixel_map_geometry(width, length, padding, pixel_size_bytes),
        ) {
            Ok(bytes) => r is Ok && final(pixel_map)@ == bytes,
            Err(e) => r == Err::<(), StegoError>(e) && final(pixel_map)@ == old(pixel_map)@,
        },
{
    match make_pixel_map_geometry(width, length, padding, pixel_size_bytes) {
        None => Err(StegoError::InvalidGeometry),
        Some(g) => {
            if P::layout_channels() as u64 != pixel_size_bytes {
                return Err(StegoError::InvalidGeometry);
            }
            embed_parity::<P>(data, pixel_map, &g, &TraversalStrategy::RightToLeft)
        },
    }
}

/// Extracts `embedded_bits` bits by parity from a bare pixel map from the last row to the first, each row right to left.
pub fn extract_color_data_right_left<P: Pixel>(
    pixel_map: &[u8],
    width: u64,
    length: u64,
    padding: u64,
    pixel_size_bytes: u64,
    embedded_bits: u64,
) -> (r: Result<Vec<u8>, StegoError>)
    ensures
        !pixel_map_geometry_ok(width, length, padding, pixel_size_bytes) || P::layout_size()
            != pixel_size_bytes || embedded_bits > usize::MAX ==> r == Err::<Vec<u8>, StegoError>(
            StegoError::InvalidGeometry,
        ),
        pixel_map_geometry_ok(width, length, padding, pixel_size_bytes) && P::layout_size()
            == pixel_size_bytes && embedded_bits <= usize::MAX ==> match parity_extract_outcome(
            pixel_map@,
            TraversalStrategy::RightToLeft,
            pixel_map_geometry(width, length, padding, pixel_size_bytes),
            embedded_bits as nat,
        ) {
            Ok(bytes) => r matches Ok(out) && out@ == bytes,
            Err(e) => r == Err::<Vec<u8>, StegoError>(e),
        },
{
    match make_pixel_map_geometry(width, length, padding, pixel_size_bytes) {
        None => Err(StegoError::InvalidGeometry),
        Some(g) => {
            if P::layout_channels() as u64 != pixel_size_bytes || embedded_bits > usize::MAX as u64 {
                return Err(StegoError::InvalidGeometry);
            }
            extract_parity::<P>(pixel_map, &g, &TraversalStrategy::RightToLeft, embedded_bits as usize)
        },
    }
}

} // verus!
