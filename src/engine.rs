//! Bit-embedding engine: writes a payload into the least-significant bits of
//! the channels that a traversal visits, and reads it back.
use vstd::prelude::*;
use crate::bits::{
    extracted_len, lemma_packed_payload, lemma_payload_bit_is_bit, lemma_with_lsb, lsb,
    packed, payload_bit, with_lsb, PayloadCursor,
};
use crate::geometry::{
    lemma_fitting_sizes, lemma_pixel_in_rows, lemma_pixels_disjoint, make_pixel_map_geometry,
    pixel_map_geometry, pixel_map_geometry_ok, Geometry, StegoError,
};
use crate::pixel::{splice, Pixel};
use crate::traversal::{
    coordinate_at, coordinate_count, coordinate_count_spec, coordinate_spec,
    lemma_coordinate_in_bounds, lemma_coordinates_distinct, min, TraversalStrategy, WaveFunction,
};

verus! {

/// First byte of the `p`-th pixel that `s` visits.
pub open spec fn visited_start(s: TraversalStrategy, g: Geometry, p: int) -> int {
    let rc = coordinate_spec(s, g.height as int, g.width as int, p);
    g.pixel_start(rc.0, rc.1)
}

/// Byte of channel `j` of the `p`-th pixel that `s` visits.
pub open spec fn visited_byte(s: TraversalStrategy, g: Geometry, p: int, j: int) -> int {
    visited_start(s, g, p) + j
}

/// The byte that receives payload bit `k`: channels are visited first to last
/// within each pixel, pixels in the strategy's order.
pub open spec fn channel_slot(s: TraversalStrategy, g: Geometry, k: int) -> int {
    visited_byte(s, g, k / g.channels as int, k % g.channels as int)
}

/// Number of pixels that hold `n` bits at `ch` bits per pixel.
pub open spec fn pixels_needed(n: int, ch: int) -> int {
    (n + ch - 1) / ch
}

/// The channels `chs` of a pixel after payload bits `k0 ..` went into their
/// least-significant bits, as far as the payload reaches.
pub open spec fn lsb_fill(chs: Seq<u8>, data: Seq<u8>, k0: int) -> Seq<u8> {
    Seq::new(
        chs.len(),
        |j: int|
            if k0 + j < 8 * data.len() {
                with_lsb(chs[j], payload_bit(data, k0 + j))
            } else {
                chs[j]
            },
    )
}

/// The buffer after the first `p` visited pixels received their share of the
/// payload.
pub open spec fn embed_pixels(
    buf: Seq<u8>,
    data: Seq<u8>,
    s: TraversalStrategy,
    g: Geometry,
    p: nat,
) -> Seq<u8>
    decreases p,
{
    if p == 0 {
        buf
    } else {
        let prev = embed_pixels(buf, data, s, g, (p - 1) as nat);
        let at = visited_start(s, g, p - 1);
        splice(
            prev,
            at,
            lsb_fill(prev.subrange(at, at + g.channels), data, (p - 1) * g.channels),
        )
    }
}

/// The buffer after the whole payload was embedded.
pub open spec fn embedded(buf: Seq<u8>, data: Seq<u8>, s: TraversalStrategy, g: Geometry) -> Seq<
    u8,
> {
    embed_pixels(buf, data, s, g, pixels_needed(8 * data.len() as int, g.channels as int) as nat)
}

/// The least-significant bits of the first `n` channels that `s` visits.
pub open spec fn read_bits(buf: Seq<u8>, s: TraversalStrategy, g: Geometry, n: nat) -> Seq<u8> {
    Seq::new(n, |k: int| lsb(buf[channel_slot(s, g, k)]))
}

/// What extraction of `n` bits returns: the bits of the first `n` visited
/// channels (as many as there are), packed little-endian into
/// `extracted_len(n)` bytes.
pub open spec fn extracted(buf: Seq<u8>, s: TraversalStrategy, g: Geometry, n: nat) -> Seq<u8> {
    let m = min(n as int, g.capacity(s)) as nat;
    packed(read_bits(buf, s, g, m), m, extracted_len(n))
}

/// What embedding `data` into `buf` yields: the new buffer, or why it is
/// refused.
pub open spec fn embed_outcome(buf: Seq<u8>, data: Seq<u8>, s: TraversalStrategy, g: Geometry) -> Result<
    Seq<u8>,
    StegoError,
> {
    if !g.fits(buf.len() as int) {
        Err(StegoError::InvalidGeometry)
    } else if 8 * data.len() > g.capacity(s) {
        Err(StegoError::CapacityExceeded)
    } else {
        Ok(embedded(buf, data, s, g))
    }
}

/// What extracting `n` bits from `buf` yields.
pub open spec fn extract_outcome(buf: Seq<u8>, s: TraversalStrategy, g: Geometry, n: nat) -> Result<
    Seq<u8>,
    StegoError,
> {
    if !g.fits(buf.len() as int) {
        Err(StegoError::InvalidGeometry)
    } else {
        Ok(extracted(buf, s, g, n))
    }
}

proof fn lemma_channel_div(k: int, ch: int)
    requires
        ch == 3 || ch == 4,
        0 <= k,
    ensures
        k == (k / ch) * ch + k % ch,
        0 <= k % ch < ch,
        0 <= k / ch,
{
}

proof fn lemma_channel_join(q: int, ch: int, j: int)
    requires
        ch == 3 || ch == 4,
        0 <= q,
        0 <= j < ch,
    ensures
        (q * ch + j) / ch == q,
        (q * ch + j) % ch == j,
{
}

proof fn lemma_pixels_needed(n: int, ch: int, count: int)
    requires
        ch == 3 || ch == 4,
        0 <= n <= count * ch,
    ensures
        0 <= pixels_needed(n, ch) <= count,
        forall|k: int| 0 <= k < n ==> #[trigger] (k / ch) < pixels_needed(n, ch),
        pixels_needed(n, ch) * ch >= n,
        pixels_needed(n, ch) * ch < n + ch,
{
}

/// Stepping from pixel `p` to `p + 1` while `n` bits are placed `ch` per pixel.
proof fn lemma_next_pixel(n: int, ch: int, p: int)
    requires
        ch == 3 || ch == 4,
        0 <= p,
        p * ch < n,
    ensures
        (p + 1) * ch < n ==> p + 1 < pixels_needed(n, ch),
        (p + 1) * ch >= n ==> p + 1 == pixels_needed(n, ch),
{
    if ch == 3 {
        assert(p * ch == p * 3);
    } else {
        assert(p * ch == p * 4);
    }
}

/// Distinct visited pixels occupy disjoint bytes inside the pixel rows.
pub(crate) proof fn lemma_visited_disjoint(s: TraversalStrategy, g: Geometry, p: int, q: int)
    requires
        g.wf(),
        0 <= p < coordinate_count_spec(s, g.height as int, g.width as int),
        0 <= q < coordinate_count_spec(s, g.height as int, g.width as int),
        p != q,
    ensures
        visited_start(s, g, p) + g.channels <= visited_start(s, g, q) || visited_start(s, g, q)
            + g.channels <= visited_start(s, g, p),
{
    let h = g.height as int;
    let w = g.width as int;
    lemma_coordinate_in_bounds(s, h, w, p);
    lemma_coordinate_in_bounds(s, h, w, q);
    lemma_coordinates_distinct(s, h, w, p, q);
    let a = coordinate_spec(s, h, w, p);
    let b = coordinate_spec(s, h, w, q);
    lemma_pixels_disjoint(g, a.0, a.1, b.0, b.1);
}

pub(crate) proof fn lemma_visited_in_rows(s: TraversalStrategy, g: Geometry, p: int)
    requires
        g.wf(),
        0 <= p < coordinate_count_spec(s, g.height as int, g.width as int),
    ensures
        g.pixel_data_offset <= visited_start(s, g, p),
        visited_start(s, g, p) + g.channels <= g.required_len(),
{
    let h = g.height as int;
    let w = g.width as int;
    lemma_coordinate_in_bounds(s, h, w, p);
    let a = coordinate_spec(s, h, w, p);
    lemma_pixel_in_rows(g, a.0, a.1);
}

/// After `p` pixels: each channel of a visited pixel holds its payload bit where
/// the payload reaches it and is unchanged otherwise, and no byte outside the
/// visited pixels changed.
proof fn lemma_embed_pixels(buf: Seq<u8>, data: Seq<u8>, s: TraversalStrategy, g: Geometry, p: nat)
    requires
        g.wf(),
        g.fits(buf.len() as int),
        p <= coordinate_count_spec(s, g.height as int, g.width as int),
    ensures
        embed_pixels(buf, data, s, g, p).len() == buf.len(),
        forall|q: int, j: int|
            0 <= q < p && 0 <= j < g.channels ==> #[trigger] embed_pixels(buf, data, s, g, p)[
            visited_byte(s, g, q, j)] == if q * g.channels + j < 8 * data.len() {
                with_lsb(buf[visited_byte(s, g, q, j)], payload_bit(data, q * g.channels + j))
            } else {
                buf[visited_byte(s, g, q, j)]
            },
        forall|i: int|
            0 <= i < buf.len() && (forall|q: int|
                0 <= q < p ==> !(#[trigger] visited_start(s, g, q) <= i < visited_start(s, g, q)
                    + g.channels)) ==> #[trigger] embed_pixels(buf, data, s, g, p)[i] == buf[i],
    decreases p,
{
    if p > 0 {
        let p1 = (p - 1) as nat;
        lemma_embed_pixels(buf, data, s, g, p1);
        let prev = embed_pixels(buf, data, s, g, p1);
        let at = visited_start(s, g, p1 as int);
        let ch = g.channels as int;
        lemma_visited_in_rows(s, g, p1 as int);
        let fill = lsb_fill(prev.subrange(at, at + ch), data, p1 * ch);
        let cur = embed_pixels(buf, data, s, g, p);
        assert(cur == splice(prev, at, fill));
        assert forall|q: int, j: int| 0 <= q < p && 0 <= j < g.channels implies #[trigger] cur[
            visited_byte(s, g, q, j)] == if q * g.channels + j < 8 * data.len() {
            with_lsb(buf[visited_byte(s, g, q, j)], payload_bit(data, q * g.channels + j))
        } else {
            buf[visited_byte(s, g, q, j)]
        } by {
            lemma_visited_in_rows(s, g, q);
            if q < p1 {
                lemma_visited_disjoint(s, g, q, p1 as int);
                assert(cur[visited_byte(s, g, q, j)] == prev[visited_byte(s, g, q, j)]);
            } else {
                let i = visited_byte(s, g, q, j);
                assert forall|q2: int| 0 <= q2 < p1 implies !(#[trigger] visited_start(s, g, q2) <= i
                    < visited_start(s, g, q2) + g.channels) by {
                    lemma_visited_disjoint(s, g, q2, p1 as int);
                }
                assert(prev[i] == buf[i]);
                assert(cur[i] == fill[j]);
            }
        }
        assert forall|i: int|
            0 <= i < buf.len() && (forall|q: int|
                0 <= q < p ==> !(#[trigger] visited_start(s, g, q) <= i < visited_start(s, g, q)
                    + g.channels)) implies #[trigger] cur[i] == buf[i] by {
            assert(!(visited_start(s, g, p1 as int) <= i < visited_start(s, g, p1 as int)
                + g.channels));
            assert(cur[i] == prev[i]);
        }
    }
}

/// Distinct payload bits go to distinct bytes.
pub proof fn lemma_slots_distinct(s: TraversalStrategy, g: Geometry, k1: int, k2: int)
    requires
        g.wf(),
        0 <= k1 < g.capacity(s),
        0 <= k2 < g.capacity(s),
        k1 != k2,
    ensures
        channel_slot(s, g, k1) != channel_slot(s, g, k2),
{
    let ch = g.channels as int;
    let n = coordinate_count_spec(s, g.height as int, g.width as int);
    lemma_channel_div(k1, ch);
    lemma_channel_div(k2, ch);
    lemma_pixels_needed(k1 + 1, ch, n);
    lemma_pixels_needed(k2 + 1, ch, n);
    if k1 / ch != k2 / ch {
        lemma_visited_disjoint(s, g, k1 / ch, k2 / ch);
    }
}

/// Bit-level account of an embedding: payload bit `k` sits in the
/// least-significant bit of `channel_slot(k)`; the other bits of those bytes and
/// every byte that received no payload bit are unchanged.
pub proof fn lemma_embedded_bits(buf: Seq<u8>, data: Seq<u8>, s: TraversalStrategy, g: Geometry)
    requires
        g.wf(),
        g.fits(buf.len() as int),
        8 * data.len() <= g.capacity(s),
    ensures
        embedded(buf, data, s, g).len() == buf.len(),
        forall|k: int|
            0 <= k < 8 * data.len() ==> 0 <= #[trigger] channel_slot(s, g, k) < buf.len() && embedded(
                buf,
                data,
                s,
                g,
            )[channel_slot(s, g, k)] == with_lsb(buf[channel_slot(s, g, k)], payload_bit(data, k)),
        forall|i: int|
            0 <= i < buf.len() && (forall|k: int|
                0 <= k < 8 * data.len() ==> #[trigger] channel_slot(s, g, k) != i) ==> #[trigger] embedded(
                buf,
                data,
                s,
                g,
            )[i] == buf[i],
{
    let ch = g.channels as int;
    let n = coordinate_count_spec(s, g.height as int, g.width as int);
    let nb: int = 8 * data.len() as int;
    let need = pixels_needed(nb, ch);
    lemma_pixels_needed(nb, ch, n);
    lemma_embed_pixels(buf, data, s, g, need as nat);
    let e = embedded(buf, data, s, g);
    assert forall|k: int| 0 <= k < 8 * data.len() implies 0 <= #[trigger] channel_slot(s, g, k)
        < buf.len() && embedded(buf, data, s, g)[channel_slot(s, g, k)] == with_lsb(
        buf[channel_slot(s, g, k)],
        payload_bit(data, k),
    ) by {
        lemma_channel_div(k, ch);
        let q = k / ch;
        let j = k % ch;
        assert(q < need);
        lemma_visited_in_rows(s, g, q);
        assert(channel_slot(s, g, k) == visited_byte(s, g, q, j));
        assert(q * ch + j == k);
        assert(e[visited_byte(s, g, q, j)] == with_lsb(
            buf[visited_byte(s, g, q, j)],
            payload_bit(data, q * ch + j),
        ));
    }
    assert forall|i: int|
        0 <= i < buf.len() && (forall|k: int| 0 <= k < nb ==> #[trigger] channel_slot(s, g, k) != i) implies #[trigger] e[i]
        == buf[i] by {
        if exists|q: int| 0 <= q < need && #[trigger] visited_start(s, g, q) <= i < visited_start(s, g, q) + ch {
            let q = choose|q: int|
                0 <= q < need && #[trigger] visited_start(s, g, q) <= i < visited_start(s, g, q) + ch;
            let j = i - visited_start(s, g, q);
            lemma_channel_join(q, ch, j);
            assert(channel_slot(s, g, q * ch + j) == i);
            assert(e[visited_byte(s, g, q, j)] == buf[visited_byte(s, g, q, j)]);
        }
    }
}

/// Round trip: extracting `8 * len(P)` bits after embedding a payload `P`
/// returns `P` and the one spare zero byte.
pub proof fn lemma_round_trip(buf: Seq<u8>, data: Seq<u8>, s: TraversalStrategy, g: Geometry)
    requires
        g.wf(),
        g.fits(buf.len() as int),
        8 * data.len() <= g.capacity(s),
    ensures
        extracted(embedded(buf, data, s, g), s, g, 8 * data.len()) == data.push(0),
{
    let nb = (8 * data.len()) as nat;
    let e = embedded(buf, data, s, g);
    lemma_embedded_bits(buf, data, s, g);
    let bits = read_bits(e, s, g, nb);
    assert forall|k: int| 0 <= k < nb implies bits[k] == payload_bit(data, k) by {
        lemma_payload_bit_is_bit(data, k);
        lemma_with_lsb(buf[channel_slot(s, g, k)], payload_bit(data, k));
    }
    assert(extracted_len(nb) == data.len() + 1);
    lemma_packed_payload(data, bits, data.len() + 1);
    assert(data + Seq::new(1, |_i: int| 0u8) =~= data.push(0));
}

/// Header preservation: embedding never changes a byte before the pixel data.
pub proof fn lemma_header_preserved(buf: Seq<u8>, data: Seq<u8>, s: TraversalStrategy, g: Geometry)
    requires
        g.wf(),
        g.fits(buf.len() as int),
        8 * data.len() <= g.capacity(s),
    ensures
        forall|i: int|
            0 <= i < g.pixel_data_offset ==> #[trigger] embedded(buf, data, s, g)[i] == buf[i],
{
    lemma_embedded_bits(buf, data, s, g);
    let ch = g.channels as int;
    assert forall|i: int| 0 <= i < g.pixel_data_offset implies #[trigger] embedded(
        buf,
        data,
        s,
        g,
    )[i] == buf[i] by {
        assert forall|k: int| 0 <= k < 8 * data.len() implies channel_slot(s, g, k) != i by {
            let n = coordinate_count_spec(s, g.height as int, g.width as int);
            lemma_channel_div(k, ch);
            lemma_pixels_needed(k + 1, ch, n);
            lemma_visited_in_rows(s, g, k / ch);
        }
    }
}

/// Channel isolation: embedding changes only least-significant bits, and only
/// in the channels that received a payload bit; every channel the strategy
/// visits after the payload ends (a pixel's unused fourth channel, say) keeps
/// its byte.
pub proof fn lemma_channel_isolation(buf: Seq<u8>, data: Seq<u8>, s: TraversalStrategy, g: Geometry)
    requires
        g.wf(),
        g.fits(buf.len() as int),
        8 * data.len() <= g.capacity(s),
    ensures
        forall|i: int|
            0 <= i < buf.len() ==> #[trigger] embedded(buf, data, s, g)[i] & 0xfe == buf[i] & 0xfe,
        forall|k: int|
            8 * data.len() <= k < g.capacity(s) ==> #[trigger] embedded(buf, data, s, g)[channel_slot(
                s,
                g,
                k,
            )] == buf[channel_slot(s, g, k)],
        forall|k: int|
            0 <= k < g.capacity(s) ==> visited_start(s, g, k / g.channels as int) <= #[trigger] channel_slot(
                s,
                g,
                k,
            ) < visited_start(s, g, k / g.channels as int) + g.channels,
{
    lemma_embedded_bits(buf, data, s, g);
    let e = embedded(buf, data, s, g);
    let ch = g.channels as int;
    let n = coordinate_count_spec(s, g.height as int, g.width as int);
    assert forall|i: int| 0 <= i < buf.len() implies #[trigger] e[i] & 0xfe == buf[i] & 0xfe by {
        if exists|k: int| 0 <= k < 8 * data.len() && #[trigger] channel_slot(s, g, k) == i {
            let k = choose|k: int| 0 <= k < 8 * data.len() && #[trigger] channel_slot(s, g, k) == i;
            lemma_payload_bit_is_bit(data, k);
            lemma_with_lsb(buf[i], payload_bit(data, k));
        }
    }
    assert forall|k: int| 8 * data.len() <= k < g.capacity(s) implies #[trigger] e[channel_slot(
        s,
        g,
        k,
    )] == buf[channel_slot(s, g, k)] by {
        lemma_channel_div(k, ch);
        lemma_pixels_needed(k + 1, ch, n);
        lemma_visited_in_rows(s, g, k / ch);
        assert forall|k2: int| 0 <= k2 < 8 * data.len() implies channel_slot(s, g, k2)
            != channel_slot(s, g, k) by {
            lemma_slots_distinct(s, g, k2, k);
        }
    }
    assert forall|k: int| 0 <= k < g.capacity(s) implies visited_start(s, g, k / g.channels as int)
        <= #[trigger] channel_slot(s, g, k) < visited_start(s, g, k / g.channels as int)
        + g.channels by {
        lemma_channel_div(k, ch);
    }
}

fn put_lsb(x: u8, b: u8) -> (y: u8)
    requires
        b < 2,
    ensures
        y == with_lsb(x, b),
{
    (x & 0xfe) | b
}

/// Writes the next payload bits into the least-significant bits of the pixel's
/// channels, first to last, and stops the moment the payload is used up.
pub fn embed_pixel_lsb<P: Pixel>(
    pixel: &mut P,
    cursor: &mut PayloadCursor,
    data: &[u8],
    bits_to_embed: &mut usize,
)
    requires
        old(cursor).wf(),
        old(cursor).position() + *old(bits_to_embed) == 8 * data@.len(),
        *old(bits_to_embed) > 0,
        8 * data@.len() <= usize::MAX,
    ensures
        final(pixel).channels() == lsb_fill(old(pixel).channels(), data@, old(cursor).position()),
        final(cursor).wf(),
        final(cursor).position() == old(cursor).position() + min(
            *old(bits_to_embed) as int,
            old(pixel).channels().len() as int,
        ),
        *final(bits_to_embed) == *old(bits_to_embed) - min(
            *old(bits_to_embed) as int,
            old(pixel).channels().len() as int,
        ),
{
    proof {
        pixel.lemma_layout();
    }
    let ghost k0 = cursor.position();
    let ghost chs = pixel.channels();
    let ghost d = data@;
    let b = cursor.current_bit(data);
    let v = pixel.first();
    pixel.set_first(put_lsb(v, b));
    cursor.advance();
    *bits_to_embed -= 1;
    if *bits_to_embed == 0 {
        assert(pixel.channels() =~= lsb_fill(chs, d, k0));
        return ;
    }
    let b = cursor.current_bit(data);
    let v = pixel.second();
    pixel.set_second(put_lsb(v, b));
    cursor.advance();
    *bits_to_embed -= 1;
    if *bits_to_embed == 0 {
        assert(pixel.channels() =~= lsb_fill(chs, d, k0));
        return ;
    }
    let b = cursor.current_bit(data);
    let v = pixel.third();
    pixel.set_third(put_lsb(v, b));
    cursor.advance();
    *bits_to_embed -= 1;
    if *bits_to_embed == 0 || pixel.pixel_size() != 4 {
        assert(pixel.channels() =~= lsb_fill(chs, d, k0));
        return ;
    }
    let b = cursor.current_bit(data);
    let v = pixel.fourth();
    pixel.set_fourth(put_lsb(v, b));
    cursor.advance();
    *bits_to_embed -= 1;
    assert(pixel.channels() =~= lsb_fill(chs, d, k0));
}

/// ORs bit `b` into the output at the cursor and moves the cursor on.
fn deposit_bit(out: &mut Vec<u8>, cursor: &mut PayloadCursor, b: u8)
    requires
        old(cursor).wf(),
        old(cursor).position() < 8 * old(out)@.len(),
    ensures
        final(out)@ == old(out)@.update(
            old(cursor).position() / 8,
            old(out)@[old(cursor).position() / 8] | (b << ((old(cursor).position() % 8) as u8)),
        ),
        final(out)@.len() == old(out)@.len(),
        final(cursor).wf(),
        final(cursor).position() == old(cursor).position() + 1,
{
    let i = cursor.byte_index;
    // the byte under the cursor lies in the output, whose length is a usize
    let _len = out.len();
    let v = out[i] | (b << (cursor.bit_index as u8));
    out.set(i, v);
    cursor.advance();
}

/// Reads the least-significant bits of the pixel's channels, first to last,
/// into the output at the cursor, and stops once `embedded_bits` bits are read.
fn extract_pixel_lsb<P: Pixel>(
    pixel: &P,
    cursor: &mut PayloadCursor,
    extracted_data: &mut Vec<u8>,
    embedded_bits: usize,
    Ghost(bits): Ghost<Seq<u8>>,
)
    requires
        old(cursor).wf(),
        old(cursor).position() < embedded_bits,
        embedded_bits <= bits.len(),
        embedded_bits <= 8 * old(extracted_data)@.len(),
        old(extracted_data)@ == packed(bits, old(cursor).position() as nat, old(extracted_data)@.len()),
        forall|j: int|
            0 <= j < pixel.channels().len() && old(cursor).position() + j < embedded_bits
                ==> bits[old(cursor).position() + j] == lsb(#[trigger] pixel.channels()[j]),
    ensures
        final(cursor).wf(),
        final(cursor).position() == old(cursor).position() + min(
            embedded_bits - old(cursor).position(),
            pixel.channels().len() as int,
        ),
        final(extracted_data)@ == packed(bits, final(cursor).position() as nat, old(extracted_data)@.len()),
        final(extracted_data)@.len() == old(extracted_data)@.len(),
{
    proof {
        pixel.lemma_layout();
    }
    let ghost len = extracted_data@.len();
    let ghost k0 = cursor.position();
    let b = pixel.first() & 1;
    assert(bits[k0] == b);
    deposit_bit(extracted_data, cursor, b);
    assert(extracted_data@ == packed(bits, (k0 + 1) as nat, len));
    if cursor.byte_index * 8 + cursor.bit_index == embedded_bits {
        return ;
    }
    let b = pixel.second() & 1;
    assert(bits[k0 + 1] == b);
    deposit_bit(extracted_data, cursor, b);
    assert(extracted_data@ == packed(bits, (k0 + 2) as nat, len));
    if cursor.byte_index * 8 + cursor.bit_index == embedded_bits {
        return ;
    }
    let b = pixel.third() & 1;
    assert(bits[k0 + 2] == b);
    deposit_bit(extracted_data, cursor, b);
    assert(extracted_data@ == packed(bits, (k0 + 3) as nat, len));
    if cursor.byte_index * 8 + cursor.bit_index == embedded_bits || pixel.pixel_size() != 4 {
        return ;
    }
    let b = pixel.fourth() & 1;
    assert(bits[k0 + 3] == b);
    deposit_bit(extracted_data, cursor, b);
    assert(extracted_data@ == packed(bits, (k0 + 4) as nat, len));
}

/// Embeds `data` into the least-significant bits of the channels that `s`
/// visits, in pixels of layout `P`.
///
/// Fails with `InvalidGeometry` where the buffer is shorter than the geometry
/// requires or `P` has another channel count, and with `CapacityExceeded`
/// where the payload has more bits than the strategy's capacity; the buffer is
/// then unchanged.
pub fn embed_lsb<P: Pixel>(
    data: &[u8],
    buffer: &mut [u8],
    geometry: &Geometry,
    strategy: &TraversalStrategy,
) -> (r: Result<(), StegoError>)
    requires
        geometry.wf(),
    ensures
        !geometry.fits(old(buffer)@.len() as int) || P::layout_size() != geometry.channels ==> r
            == Err::<(), StegoError>(StegoError::InvalidGeometry),
        geometry.fits(old(buffer)@.len() as int) && P::layout_size() == geometry.channels && 8
            * data@.len() > geometry.capacity(*strategy) ==> r == Err::<(), StegoError>(
            StegoError::CapacityExceeded,
        ),
        final(buffer)@.len() == old(buffer)@.len(),
        r is Err ==> final(buffer)@ == old(buffer)@,
        r is Ok ==> final(buffer)@ == embedded(old(buffer)@, data@, *strategy, *geometry),
        r is Ok <==> geometry.fits(old(buffer)@.len() as int) && P::layout_size()
            == geometry.channels && 8 * data@.len() <= geometry.capacity(*strategy),
        P::layout_size() == geometry.channels ==> match embed_outcome(
            old(buffer)@,
            data@,
            *strategy,
            *geometry,
        ) {
            Ok(bytes) => r is Ok && final(buffer)@ == bytes,
            Err(e) => r == Err::<(), StegoError>(e) && final(buffer)@ == old(buffer)@,
        },
{
    let g = *geometry;
    let buffer_len = buffer.len();
    let required = g.required_length();
    match required {
        None => {
            return Err(StegoError::InvalidGeometry);
        },
        Some(n) => {
            if n > buffer_len {
                return Err(StegoError::InvalidGeometry);
            }
        },
    }
    if P::layout_channels() != g.channels {
        return Err(StegoError::InvalidGeometry);
    }
    proof {
        lemma_fitting_sizes(g, *strategy, buffer@.len() as int);
    }
    let count = coordinate_count(strategy, g.height, g.width);
    let capacity = count * g.channels;
    if data.len() > capacity / 8 {
        return Err(StegoError::CapacityExceeded);
    }
    let nbits = data.len() * 8;
    let ghost ch = g.channels as int;
    let ghost old_buf = buffer@;
    proof {
        lemma_pixels_needed(nbits as int, ch, count as int);
    }
    let mut cursor = PayloadCursor::start();
    let mut bits_to_embed = nbits;
    let mut p: usize = 0;
    while bits_to_embed > 0
        invariant
            g == *geometry,
            g.wf(),
            g.fits(old_buf.len() as int),
            g.required_len() <= usize::MAX,
            P::layout_size() == ch,
            ch == g.channels,
            count == coordinate_count_spec(*strategy, g.height as int, g.width as int),
            g.height * g.width <= usize::MAX,
            nbits == 8 * data@.len(),
            nbits <= count * ch,
            cursor.wf(),
            cursor.position() + bits_to_embed == nbits,
            bits_to_embed > 0 ==> cursor.position() == p * ch,
            bits_to_embed == 0 ==> p == pixels_needed(nbits as int, ch),
            bits_to_embed > 0 ==> p < pixels_needed(nbits as int, ch),
            pixels_needed(nbits as int, ch) <= count,
            buffer@.len() == old_buf.len(),
            buffer@ == embed_pixels(old_buf, data@, *strategy, g, p as nat),
        decreases bits_to_embed,
    {
        proof {
            lemma_pixels_needed(nbits as int, ch, count as int);
        }
        let (r, c) = coordinate_at(strategy, g.height, g.width, p);
        let at = g.pixel_offset(r, c);
        let ghost prev = buffer@;
        let mut pixel = P::read_at(buffer, at);
        embed_pixel_lsb(&mut pixel, &mut cursor, data, &mut bits_to_embed);
        pixel.write_at(buffer, at);
        proof {
            pixel.lemma_layout();
            assert(buffer@ == embed_pixels(old_buf, data@, *strategy, g, (p + 1) as nat));
            assert((p + 1) * ch == p * ch + ch) by (nonlinear_arith);
            lemma_next_pixel(nbits as int, ch, p as int);
        }
        p = p + 1;
    }
    Ok(())
}

/// Extracts `bit_count` bits from the least-significant bits of the channels
/// that `s` visits, in pixels of layout `P`, packed little-endian into
/// `extracted_len(bit_count)` bytes (one spare byte at the end). Where the
/// strategy has fewer channels, the bits past them read as zero.
///
/// Fails with `InvalidGeometry` where the buffer is shorter than the geometry
/// requires or `P` has another channel count.
pub fn extract_lsb<P: Pixel>(
    buffer: &[u8],
    geometry: &Geometry,
    strategy: &TraversalStrategy,
    bit_count: usize,
) -> (r: Result<Vec<u8>, StegoError>)
    requires
        geometry.wf(),
    ensures
        r is Err <==> !geometry.fits(buffer@.len() as int) || P::layout_size()
            != geometry.channels,
        r matches Err(e) ==> e == StegoError::InvalidGeometry,
        r matches Ok(out) ==> out@ == extracted(buffer@, *strategy, *geometry, bit_count as nat),
        P::layout_size() == geometry.channels ==> match extract_outcome(
            buffer@,
            *strategy,
            *geometry,
            bit_count as nat,
        ) {
            Ok(bytes) => r matches Ok(out) && out@ == bytes,
            Err(e) => r == Err::<Vec<u8>, StegoError>(e),
        },
{
    let g = *geometry;
    let buffer_len = buffer.len();
    let required = g.required_length();
    match required {
        None => {
            return Err(StegoError::InvalidGeometry);
        },
        Some(n) => {
            if n > buffer_len {
                return Err(StegoError::InvalidGeometry);
            }
        },
    }
    if P::layout_channels() != g.channels {
        return Err(StegoError::InvalidGeometry);
    }
    proof {
        lemma_fitting_sizes(g, *strategy, buffer@.len() as int);
    }
    let count = coordinate_count(strategy, g.height, g.width);
    let capacity = count * g.channels;
    let n = if bit_count <= capacity {
        bit_count
    } else {
        capacity
    };
    let len = if bit_count % 8 == 0 {
        bit_count / 8 + 1
    } else {
        bit_count / 8 + 2
    };
    let mut out: Vec<u8> = Vec::new();
    let mut i: usize = 0;
    while i < len
        invariant
            out@ == Seq::new(i as nat, |_j: int| 0u8),
            i <= len,
        decreases len - i,
    {
        out.push(0);
        i = i + 1;
        assert(out@ =~= Seq::new(i as nat, |_j: int| 0u8));
    }
    let ghost ch = g.channels as int;
    let ghost bits = read_bits(buffer@, *strategy, g, n as nat);
    proof {
        lemma_pixels_needed(n as int, ch, count as int);
        assert(out@ == packed(bits, 0, len as nat));
    }
    let mut cursor = PayloadCursor::start();
    let mut p: usize = 0;
    while cursor.byte_index * 8 + cursor.bit_index < n
        invariant
            g == *geometry,
            g.wf(),
            g.fits(buffer@.len() as int),
            g.required_len() <= usize::MAX,
            P::layout_size() == ch,
            ch == g.channels,
            count == coordinate_count_spec(*strategy, g.height as int, g.width as int),
            g.height * g.width <= usize::MAX,
            n <= count * ch,
            n <= 8 * len,
            len == extracted_len(bit_count as nat),
            n == min(bit_count as int, g.capacity(*strategy)),
            bits == read_bits(buffer@, *strategy, g, n as nat),
            cursor.wf(),
            cursor.position() <= n,
            cursor.position() < n ==> cursor.position() == p * ch,
            p * ch <= n + ch,
            cursor.position() < n ==> p < pixels_needed(n as int, ch),
            pixels_needed(n as int, ch) <= count,
            out@.len() == len,
            out@ == packed(bits, cursor.position() as nat, len as nat),
        decreases n - cursor.position(),
    {
        proof {
            lemma_pixels_needed(n as int, ch, count as int);
        }
        let (r, c) = coordinate_at(strategy, g.height, g.width, p);
        let at = g.pixel_offset(r, c);
        let pixel = P::read_at(buffer, at);
        proof {
            pixel.lemma_layout();
            assert forall|j: int|
                0 <= j < pixel.channels().len() && cursor.position() + j < n implies bits[cursor.position()
                + j] == lsb(#[trigger] pixel.channels()[j]) by {
                lemma_channel_join(p as int, ch, j);
                assert(channel_slot(*strategy, g, p * ch + j) == at + j);
            }
        }
        extract_pixel_lsb(&pixel, &mut cursor, &mut out, n, Ghost(bits));
        proof {
            assert((p + 1) * ch == p * ch + ch) by (nonlinear_arith);
        }
        p = p + 1;
    }
    Ok(out)
}

/// Embeds `data` into a bare pixel map along `strategy`; the numbers give its
/// geometry (see `pixel_map_geometry`). Fails with `InvalidGeometry` where they
/// describe no pixel map of layout `P`; otherwise the outcome is
/// `embed_outcome`.
pub fn embed_lsb_data<P: Pixel>(
    data: &[u8],
    pixel_map: &mut [u8],
    width: u64,
    length: u64,
    padding: u64,
    pixel_size_bytes: u64,
    strategy: &TraversalStrategy,
) -> (r: Result<(), StegoError>)
    ensures
        !pixel_map_geometry_ok(width, length, padding, pixel_size_bytes) || P::layout_size()
            != pixel_size_bytes ==> r == Err::<(), StegoError>(StegoError::InvalidGeometry)
            && final(pixel_map)@ == old(pixel_map)@,
        pixel_map_geometry_ok(width, length, padding, pixel_size_bytes) && P::layout_size()
            == pixel_size_bytes ==> match embed_outcome(
            old(pixel_map)@,
            data@,
            *strategy,
            pixel_map_geometry(width, length, padding, pixel_size_bytes),
        ) {
            Ok(bytes) => r is Ok && final(pixel_map)@ == bytes,
            Err(e) => r == Err::<(), StegoError>(e) && final(pixel_map)@ == old(pixel_map)@,
        },
{
    match make_pixel_map_geometry(width, length, padding, pixel_size_bytes) {
        None => Err(StegoError::InvalidGeometry),
        Some(g) => {
            if P::layout_channels() as u64 != pixel_size_bytes {
                return Err(StegoError::InvalidGeometry);
            }
            embed_lsb::<P>(data, pixel_map, &g, strategy)
        },
    }
}

/// Extracts `embedded_bits` bits from a bare pixel map along `strategy`; the
/// numbers give its geometry (see `pixel_map_geometry`). Fails with
/// `InvalidGeometry` where they describe no pixel map of layout `P`;
/// otherwise the outcome is `extract_outcome`.
pub fn extract_lsb_data<P: Pixel>(
    pixel_map: &[u8],
    width: u64,
    length: u64,
    padding: u64,
    pixel_size_bytes: u64,
    embedded_bits: u64,
    strategy: &TraversalStrategy,
) -> (r: Result<Vec<u8>, StegoError>)
    ensures
        !pixel_map_geometry_ok(width, length, padding, pixel_size_bytes) || P::layout_size()
            != pixel_size_bytes || embedded_bits > usize::MAX ==> r == Err::<Vec<u8>, StegoError>(
            StegoError::InvalidGeometry,
        ),
        pixel_map_geometry_ok(width, length, padding, pixel_size_bytes) && P::layout_size()
            == pixel_size_bytes && embedded_bits <= usize::MAX ==> match extract_outcome(
            pixel_map@,
            *strategy,
            pixel_map_geometry(width, length, padding, pixel_size_bytes),
            embedded_bits as nat,
        ) {
            Ok(bytes) => r matches Ok(out) && out@ == bytes,
            Err(e) => r == Err::<Vec<u8>, StegoError>(e),
        },
{
    match make_pixel_map_geometry(width, length, padding, pixel_size_bytes) {
        None => Err(StegoError::InvalidGeometry),
        Some(g) => {
            if P::layout_channels() as u64 != pixel_size_bytes || embedded_bits > usize::MAX as u64 {
                return Err(StegoError::InvalidGeometry);
            }
            extract_lsb::<P>(pixel_map, &g, strategy, embedded_bits as usize)
        },
    }
}

/// Embeds `data` into a bare pixel map row by row, each row left to right.
pub fn embed_lsb_data_left_right<P: Pixel>(
    data: &[u8],
    pixel_map: &mut [u8],
    width: u64,
    length: u64,
    padding: u64,
    pixel_size_bytes: u64,
) -> (r: Result<(), StegoError>)
    ensures
        !pixel_map_geometry_ok(width, length, padding, pixel_size_bytes) || P::layout_size()
            != pixel_size_bytes ==> r == Err::<(), StegoError>(StegoError::InvalidGeometry)
            && final(pixel_map)@ == old(pixel_map)@,
        pixel_map_geometry_ok(width, length, padding, pixel_size_bytes) && P::layout_size()
            == pixel_size_bytes ==> match embed_outcome(
            old(pixel_map)@,
            data@,
            TraversalStrategy::LeftToRight,
            pixel_map_geometry(width, length, padding, pixel_size_bytes),
        ) {
            Ok(bytes) => r is Ok && final(pixel_map)@ == bytes,
            Err(e) => r == Err::<(), StegoError>(e) && final(pixel_map)@ == old(pixel_map)@,
        },
{
    embed_lsb_data::<P>(
        data,
        pixel_map,
        width,
        length,
        padding,
        pixel_size_bytes,
        &TraversalStrategy::LeftToRight,
    )
}

/// Extracts `embedded_bits` bits from a bare pixel map row by row, each row
/// left to right.
pub fn extract_lsb_data_left_right<P: Pixel>(
    pixel_map: &[u8],
    width: u64,
    length: u64,
    padding: u64,
    pixel_size_bytes: u64,
    embedded_bits: u64,
) -> (r: Result<Vec<u8>, StegoError>)
    ensures
        !pixel_map_geometry_ok(width, length, padding, pixel_size_bytes) || P::layout_size()
            != pixel_size_bytes || embedded_bits > usize::MAX ==> r == Err::<Vec<u8>, StegoError>(
            StegoError::InvalidGeometry,
        ),
        pixel_map_geometry_ok(width, length, padding, pixel_size_bytes) && P::layout_size()
            == pixel_size_bytes && embedded_bits <= usize::MAX ==> match extract_outcome(
            pixel_map@,
            TraversalStrategy::LeftToRight,
            pixel_map_geometry(width, length, padding, pixel_size_bytes),
            embedded_bits as nat,
        ) {
            Ok(bytes) => r matches Ok(out) && out@ == bytes,
            Err(e) => r == Err::<Vec<u8>, StegoError>(e),
        },
{
    extract_lsb_data::<P>(
        pixel_map,
        width,
        length,
        padding,
        pixel_size_bytes,
        embedded_bits,
        &TraversalStrategy::LeftToRight,
    )
}

/// Embeds `data` into a bare pixel map from the last row to the first, each
/// row right to left.
pub fn embed_lsb_data_right_left<P: Pixel>(
    data: &[u8],
    pixel_map: &mut [u8],
    width: u64,
    length: u64,
    padding: u64,
    pixel_size_bytes: u64,
) -> (r: Result<(), StegoError>)
    ensures
        !pixel_map_geometry_ok(width, length, padding, pixel_size_bytes) || P::layout_size()
            != pixel_size_bytes ==> r == Err::<(), StegoError>(StegoError::InvalidGeometry)
            && final(pixel_map)@ == old(pixel_map)@,
        pixel_map_geometry_ok(width, length, padding, pixel_size_bytes) && P::layout_size()
            == pixel_size_bytes ==> match embed_outcome(
            old(pixel_map)@,
            data@,
            TraversalStrategy::RightToLeft,
            pixel_map_geometry(width, length, padding, pixel_size_bytes),
        ) {
            Ok(bytes) => r is Ok && final(pixel_map)@ == bytes,
            Err(e) => r == Err::<(), StegoError>(e) && final(pixel_map)@ == old(pixel_map)@,
        },
{
    embed_lsb_data::<P>(
        data,
        pixel_map,
        width,
        length,
        padding,
        pixel_size_bytes,
        &TraversalStrategy::RightToLeft,
    )
}

/// Extracts `embedded_bits` bits from a bare pixel map from the last row to
/// the first, each row right to left.
pub fn extract_lsb_data_right_left<P: Pixel>(
    pixel_map: &[u8],
    width: u64,
    length: u64,
    padding: u64,
    pixel_size_bytes: u64,
    embedded_bits: u64,
) -> (r: Result<Vec<u8>, StegoError>)
    ensures
        !pixel_map_geometry_ok(width, length, padding, pixel_size_bytes) || P::layout_size()
            != pixel_size_bytes || embedded_bits > usize::MAX ==> r == Err::<Vec<u8>, StegoError>(
            StegoError::InvalidGeometry,
        ),
        pixel_map_geometry_ok(width, length, padding, pixel_size_bytes) && P::layout_size()
            == pixel_size_bytes && embedded_bits <= usize::MAX ==> match extract_outcome(
            pixel_map@,
            TraversalStrategy::RightToLeft,
            pixel_map_geometry(width, length, padding, pixel_size_bytes),
            embedded_bits as nat,
        ) {
            Ok(bytes) => r matches Ok(out) && out@ == bytes,
            Err(e) => r == Err::<Vec<u8>, StegoError>(e),
        },
{
    extract_lsb_data::<P>(
        pixel_map,
        width,
        length,
        padding,
        pixel_size_bytes,
        embedded_bits,
        &TraversalStrategy::RightToLeft,
    )
}

/// Embeds `data` into a bare pixel map along the coordinates of
/// `wave_function`; `sine_columns` samples the sinusoid's column per row (see
/// `WaveFunction::strategy`). The outcome is that of `embed_lsb_data` along the
/// strategy the wave stands for.
pub fn embed_lsb_wave_function_left_right<P: Pixel>(
    data: &[u8],
    pixel_map: &mut [u8],
    width: u64,
    length: u64,
    padding: u64,
    pixel_size_bytes: u64,
    wave_function: WaveFunction,
    sine_columns: Vec<usize>,
) -> (r: Result<(), StegoError>)
    ensures
        !pixel_map_geometry_ok(width, length, padding, pixel_size_bytes) || P::layout_size()
            != pixel_size_bytes ==> r == Err::<(), StegoError>(StegoError::InvalidGeometry)
            && final(pixel_map)@ == old(pixel_map)@,
        pixel_map_geometry_ok(width, length, padding, pixel_size_bytes) && P::layout_size()
            == pixel_size_bytes ==> exists|s: TraversalStrategy|
            #[trigger] wave_function.stands_for(s, sine_columns@) && match embed_outcome(
                old(pixel_map)@,
                data@,
                s,
                pixel_map_geometry(width, length, padding, pixel_size_bytes),
            ) {
                Ok(bytes) => r is Ok && final(pixel_map)@ == bytes,
                Err(e) => r == Err::<(), StegoError>(e) && final(pixel_map)@ == old(pixel_map)@,
            },
{
    let strategy = wave_function.strategy(sine_columns);
    embed_lsb_data::<P>(data, pixel_map, width, length, padding, pixel_size_bytes, &strategy)
}

/// Capacity boundary: a payload of at most `capacity` bits is embedded, one of
/// more bits is refused with `CapacityExceeded`.
pub proof fn lemma_capacity_boundary(buf: Seq<u8>, data: Seq<u8>, s: TraversalStrategy, g: Geometry)
    requires
        g.wf(),
        g.fits(buf.len() as int),
    ensures
        8 * data.len() <= g.capacity(s) ==> embed_outcome(buf, data, s, g) == Ok::<
            Seq<u8>,
            StegoError,
        >(embedded(buf, data, s, g)),
        8 * data.len() > g.capacity(s) ==> embed_outcome(buf, data, s, g) == Err::<
            Seq<u8>,
            StegoError,
        >(StegoError::CapacityExceeded),
{
}

} // verus!
