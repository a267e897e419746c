//! Unpacking of 1, 2 and 4 bit samples into one byte each.

use vstd::prelude::*;
use vstd::arithmetic::div_mod::{lemma_fundamental_div_mod, lemma_fundamental_div_mod_converse};

verus! {

/// The sample widths that can be unpacked.
pub open spec fn valid_bit_depth(bit_depth: u8) -> bool {
    bit_depth == 1 || bit_depth == 2 || bit_depth == 4
}

/// The largest sample value of the given width.
pub open spec fn sample_mask(bit_depth: u8) -> u8 {
    if bit_depth == 1 {
        1
    } else if bit_depth == 2 {
        3
    } else {
        15
    }
}

/// The factor that maps the largest sample value to 255.
pub open spec fn scale_factor(bit_depth: u8) -> u8 {
    (255int / sample_mask(bit_depth) as int) as u8
}

/// Number of samples held by one byte.
pub open spec fn samples_per_byte(bit_depth: u8) -> int {
    8int / bit_depth as int
}

/// Sample `n` of a packed buffer; within a byte the most significant sample
/// comes first.
pub open spec fn packed_sample(buf: Seq<u8>, bit_depth: u8, n: int) -> u8 {
    let bit = n * bit_depth;
    (buf[bit / 8] >> ((8 - bit_depth - bit % 8) as u8)) & sample_mask(bit_depth)
}

/// Number of padding samples that round a row of `row_size` samples up to a
/// byte boundary.
pub open spec fn padding_samples(bit_depth: u8, row_size: u32) -> int {
    let bits = row_size * bit_depth;
    if bits % 8 == 0 {
        0
    } else {
        (8 - bits % 8) / bit_depth as int
    }
}

/// Number of packed samples per row, padding included.
pub open spec fn row_stride(bit_depth: u8, row_size: u32) -> int {
    row_size + padding_samples(bit_depth, row_size)
}

/// The scaled samples among the first `n` packed samples that are not padding.
pub open spec fn expanded_prefix(buf: Seq<u8>, bit_depth: u8, row_size: u32, n: int) -> Seq<u8>
    decreases n,
{
    if n <= 0 {
        seq![]
    } else {
        let before = expanded_prefix(buf, bit_depth, row_size, n - 1);
        if (n - 1) % row_stride(bit_depth, row_size) < row_size {
            before.push(
                (packed_sample(buf, bit_depth, n - 1) * scale_factor(bit_depth)) as u8,
            )
        } else {
            before
        }
    }
}

/// All samples of `buf` that are not row padding, each scaled to `[0, 255]`.
pub open spec fn expanded(buf: Seq<u8>, bit_depth: u8, row_size: u32) -> Seq<u8> {
    if row_size == 0 {
        seq![]
    } else {
        expanded_prefix(buf, bit_depth, row_size, buf.len() * samples_per_byte(bit_depth))
    }
}

/// Relies on num_iter::range_step_inclusive with a negative step: it yields
/// `start`, `start + step`, ... down to the last value not below `stop`. The
/// bound on `stop + step` keeps its checked addition from overflowing.
#[verifier::external_body]
fn descending_range(start: i8, stop: i8, step: i8) -> (r: Vec<i8>)
    requires
        step < 0,
        stop <= start,
        stop + step >= i8::MIN,
    ensures
        r@.len() == (start - stop) / (-step as int) + 1,
        forall|k: int| 0 <= k < r@.len() ==> r@[k] == start + k * step,
{
    num_iter::range_step_inclusive(start, stop, step).collect()
}

/// The shift of each sample in a byte, most significant sample first.
fn msb_first_shifts(bit_depth: u8) -> (r: Vec<i8>)
    requires
        valid_bit_depth(bit_depth),
    ensures
        r@.len() == samples_per_byte(bit_depth),
        forall|k: int| 0 <= k < r@.len() ==> r@[k] == 8 - bit_depth * (k + 1),
{
    let depth = bit_depth as i8;
    let start: i8 = 8 - depth;
    let step: i8 = -depth;
    let r = descending_range(start, 0, step);
    let ghost len = r@.len() as int;
    assert(len == (start - 0) / (-step as int) + 1);
    if bit_depth == 1 {
        assert(len == 8) by (nonlinear_arith)
            requires
                len == (start - 0) / (-step as int) + 1,
                start == 7,
                step == -1,
        ;
        assert(samples_per_byte(bit_depth) == 8) by (nonlinear_arith)
            requires
                bit_depth == 1,
        ;
    } else if bit_depth == 2 {
        assert(len == 4) by (nonlinear_arith)
            requires
                len == (start - 0) / (-step as int) + 1,
                start == 6,
                step == -2,
        ;
        assert(samples_per_byte(bit_depth) == 4) by (nonlinear_arith)
            requires
                bit_depth == 2,
        ;
    } else {
        assert(len == 2) by (nonlinear_arith)
            requires
                len == (start - 0) / (-step as int) + 1,
                start == 4,
                step == -4,
        ;
        assert(samples_per_byte(bit_depth) == 2) by (nonlinear_arith)
            requires
                bit_depth == 4,
        ;
    }
    assert forall|k: int| 0 <= k < r@.len() implies r@[k] == 8 - bit_depth * (k + 1) by {
        assert((8 - depth) + k * (-depth) == 8 - depth * (k + 1)) by (nonlinear_arith);
    }
    r
}

/// Sample `q * samples_per_byte + r` sits in byte `q` at bit offset `r * bit_depth`.
proof fn lemma_sample_position(bit_depth: u8, q: int, r: int)
    requires
        valid_bit_depth(bit_depth),
        0 <= q,
        0 <= r < samples_per_byte(bit_depth),
    ensures
        (q * samples_per_byte(bit_depth) + r) * bit_depth / 8 == q,
        (q * samples_per_byte(bit_depth) + r) * bit_depth % 8 == r * bit_depth,
{
    let per = samples_per_byte(bit_depth);
    let b = bit_depth as int;
    assert(per * b == 8);
    assert((q * per + r) * b == q * 8 + r * b) by (nonlinear_arith)
        requires
            per * b == 8,
    ;
    assert(r * b < 8) by (nonlinear_arith)
        requires
            per * b == 8,
            0 <= r < per,
            b > 0,
    ;
    assert(r * b >= 0) by (nonlinear_arith)
        requires
            0 <= r,
            b > 0,
    ;
    lemma_fundamental_div_mod_converse((q * per + r) * b, 8, q, r * b);
}

/// Stepping a counter kept modulo `m`.
proof fn lemma_mod_step(n: int, m: int, col: int)
    requires
        n >= 0,
        m > 0,
        col == n % m,
    ensures
        (n + 1) % m == (if col + 1 == m { 0 } else { col + 1 }),
{
    let q = n / m;
    lemma_fundamental_div_mod(n, m);
    if col + 1 == m {
        assert(n + 1 == (q + 1) * m + 0) by (nonlinear_arith)
            requires
                n == q * m + col,
                col + 1 == m,
        ;
        lemma_fundamental_div_mod_converse(n + 1, m, q + 1, 0);
    } else {
        lemma_fundamental_div_mod_converse(n + 1, m, q, col + 1);
    }
}

/// The largest sample value of the given width.
fn mask_of(bit_depth: u8) -> (r: u8)
    requires
        valid_bit_depth(bit_depth),
    ensures
        r == sample_mask(bit_depth),
{
    if bit_depth == 1 {
        1
    } else if bit_depth == 2 {
        3
    } else {
        15
    }
}

/// Expands a buffer of packed 1, 2 or 4 bit samples into one byte per sample,
/// scaled so that the largest sample value becomes 255. Every row of
/// `row_size` samples is padded up to the next byte boundary; the padding
/// samples are skipped.
pub fn expand_bits(bit_depth: u8, row_size: u32, buf: &[u8]) -> (r: Vec<u8>)
    requires
        valid_bit_depth(bit_depth),
    ensures
        r@ == expanded(buf@, bit_depth, row_size),
{
    let mask = mask_of(bit_depth);
    let scaling_factor: u8 = 255 / mask;
    assert(row_size as u64 * bit_depth as u64 <= 4 * 0xffff_ffffu64) by (nonlinear_arith)
        requires
            bit_depth <= 4,
    ;
    let bit_width: u64 = row_size as u64 * bit_depth as u64;
    let skip: u64 = if bit_width % 8 == 0 {
        0
    } else {
        (8 - bit_width % 8) / bit_depth as u64
    };
    let row_len: u64 = row_size as u64 + skip;
    let mut p: Vec<u8> = Vec::new();
    if row_size == 0 {
        return p;
    }
    let shifts = msb_first_shifts(bit_depth);
    let ghost per = samples_per_byte(bit_depth);
    assert(row_len as int == row_stride(bit_depth, row_size));
    let mut col: u64 = 0;
    let mut b: usize = 0;
    assert(0 * per == 0);
    assert(0int % (row_len as int) == 0) by (nonlinear_arith)
        requires
            row_len > 0,
    ;
    while b < buf.len()
        invariant
            valid_bit_depth(bit_depth),
            mask == sample_mask(bit_depth),
            scaling_factor == scale_factor(bit_depth),
            row_size > 0,
            row_len as int == row_stride(bit_depth, row_size),
            shifts@.len() == per,
            per == samples_per_byte(bit_depth),
            forall|k: int| 0 <= k < shifts@.len() ==> shifts@[k] == 8 - bit_depth * (k + 1),
            b <= buf@.len(),
            col as int == (b * per) % (row_len as int),
            p@ == expanded_prefix(buf@, bit_depth, row_size, b * per),
        decreases buf@.len() - b,
    {
        let v = buf[b];
        let mut k: usize = 0;
        while k < shifts.len()
            invariant
                valid_bit_depth(bit_depth),
                mask == sample_mask(bit_depth),
                scaling_factor == scale_factor(bit_depth),
                row_size > 0,
                row_len as int == row_stride(bit_depth, row_size),
                shifts@.len() == per,
                per == samples_per_byte(bit_depth),
                forall|k: int| 0 <= k < shifts@.len() ==> shifts@[k] == 8 - bit_depth * (k + 1),
                b < buf@.len(),
                v == buf@[b as int],
                k <= per,
                col as int == (b * per + k) % (row_len as int),
                p@ == expanded_prefix(buf@, bit_depth, row_size, b * per + k),
            decreases per - k,
        {
            let ghost n = b * per + k;
            let shift = shifts[k] as u8;
            proof {
                lemma_sample_position(bit_depth, b as int, k as int);
            }
            if col < row_size as u64 {
                let pixel = (v >> shift) & mask;
                assert(pixel == packed_sample(buf@, bit_depth, n));
                assert(((v >> shift) & mask) <= mask) by (bit_vector);
                assert(mask * scaling_factor <= 255);
                assert(pixel * scaling_factor <= 255) by (nonlinear_arith)
                    requires
                        pixel <= mask,
                        mask * scaling_factor <= 255,
                ;
                p.push(pixel * scaling_factor);
            }
            proof {
                lemma_mod_step(n, row_len as int, col as int);
            }
            col = if col + 1 == row_len {
                0
            } else {
                col + 1
            };
            k = k + 1;
        }
        b = b + 1;
        assert(b * per == (b - 1) * per + per) by (nonlinear_arith);
    }
    p
}

/// Number of whole pixels of `channels` bytes that a buffer of `len` bytes holds.
pub open spec fn pixel_count(len: int, channels: usize) -> int {
    len / channels as int
}

/// Expands packed samples in place. The first bytes of `buf` hold one packed
/// sample per pixel, most significant first; every pixel owns `channels`
/// consecutive bytes of `buf`, and byte `c` of pixel `i` becomes
/// `func(sample_i, c)`. Pixels are written from the last one down, so that no
/// packed byte is overwritten before it has been read. Bytes past the last
/// whole pixel are left as they were.
pub fn expand_packed<F: Fn(u8, usize) -> u8>(
    buf: &mut Vec<u8>,
    channels: usize,
    bit_depth: u8,
    func: F,
)
    requires
        channels > 0,
        valid_bit_depth(bit_depth),
        forall|s: u8, c: usize| s <= sample_mask(bit_depth) && c < channels ==> call_requires(func, (s, c)),
    ensures
        final(buf)@.len() == old(buf)@.len(),
        forall|i: int, c: int|
            0 <= i < pixel_count(old(buf)@.len() as int, channels) && 0 <= c < channels ==> call_ensures(
                func,
                (packed_sample(old(buf)@, bit_depth, i), c as usize),
                #[trigger] final(buf)@[i * channels + c],
            ),
        forall|j: int|
            pixel_count(old(buf)@.len() as int, channels) * channels <= j < old(buf)@.len() ==> final(buf)@[j]
                == old(buf)@[j],
{
    let ghost orig = buf@;
    let len = buf.len();
    let mask = mask_of(bit_depth);
    let per: usize = (8 / bit_depth) as usize;
    let pixels: usize = len / channels;
    let ghost used = pixels * channels;
    assert(used <= orig.len()) by (nonlinear_arith)
        requires
            used == pixels * channels,
            pixels == orig.len() as int / channels as int,
            channels > 0,
    ;
    let mut i: usize = pixels;
    while i > 0
        invariant
            channels > 0,
            valid_bit_depth(bit_depth),
            mask == sample_mask(bit_depth),
            per == samples_per_byte(bit_depth),
            forall|s: u8, c: usize| s <= sample_mask(bit_depth) && c < channels ==> call_requires(func, (s, c)),
            pixels == pixel_count(orig.len() as int, channels),
            used == pixels * channels,
            used <= orig.len(),
            len == orig.len(),
            i <= pixels,
            buf@.len() == orig.len(),
            forall|j: int| 0 <= j < i * channels ==> buf@[j] == orig[j],
            forall|j: int| used <= j < orig.len() ==> buf@[j] == orig[j],
            forall|j: int|
                i * channels <= j < used ==> call_ensures(
                    func,
                    (packed_sample(orig, bit_depth, j / channels as int), (j % channels as int) as usize),
                    #[trigger] buf@[j],
                ),
        decreases i,
    {
        i = i - 1;
        let byte = i / per;
        let offset = i % per;
        proof {
            lemma_fundamental_div_mod(i as int, per as int);
            lemma_sample_position(bit_depth, byte as int, offset as int);
            assert(byte as int * per + offset == i) by (nonlinear_arith)
                requires
                    i == per * byte + offset,
            ;
            assert(byte <= i) by (nonlinear_arith)
                requires
                    byte as int * per + offset == i,
                    per >= 1,
                    offset >= 0,
            ;
            assert(i <= i * channels) by (nonlinear_arith)
                requires
                    channels >= 1,
                    i >= 0,
            ;
            assert(i * channels + channels == (i + 1) * channels) by (nonlinear_arith);
            assert((i + 1) * channels <= used) by (nonlinear_arith)
                requires
                    i + 1 <= pixels,
                    used == pixels * channels,
                    channels >= 1,
            ;
        }
        let shift: u8 = 8 - bit_depth * (offset as u8 + 1);
        let packed = buf[byte];
        let sample = (packed >> shift) & mask;
        assert(sample == packed_sample(orig, bit_depth, i as int));
        assert(((packed >> shift) & mask) <= mask) by (bit_vector);
        let base: usize = i * channels;
        let mut c: usize = 0;
        while c < channels
            invariant
                channels > 0,
                forall|s: u8, c: usize| s <= sample_mask(bit_depth) && c < channels ==> call_requires(func, (s, c)),
                sample <= sample_mask(bit_depth),
                base + channels <= used,
                used <= orig.len(),
                len == orig.len(),
                buf@.len() == orig.len(),
                c <= channels,
                forall|j: int| 0 <= j < base ==> buf@[j] == orig[j],
                forall|j: int| used <= j < orig.len() ==> buf@[j] == orig[j],
                forall|j: int|
                    base <= j < base + c ==> call_ensures(func, (sample, (j - base) as usize), #[trigger] buf@[j]),
                forall|j: int|
                    base + channels <= j < used ==> call_ensures(
                        func,
                        (packed_sample(orig, bit_depth, j / channels as int), (j % channels as int) as usize),
                        #[trigger] buf@[j],
                    ),
            decreases channels - c,
        {
            let out = func(sample, c);
            buf.set(base + c, out);
            c = c + 1;
        }
        assert forall|j: int| base <= j < base + channels implies call_ensures(
            func,
            (packed_sample(orig, bit_depth, j / channels as int), (j % channels as int) as usize),
            #[trigger] buf@[j],
        ) by {
            lemma_fundamental_div_mod_converse(j, channels as int, i as int, j - base);
        }
    }
    assert forall|i: int, c: int| 0 <= i < pixels && 0 <= c < channels implies call_ensures(
        func,
        (packed_sample(orig, bit_depth, i), c as usize),
        #[trigger] buf@[i * channels + c],
    ) by {
        lemma_fundamental_div_mod_converse(i * channels + c, channels as int, i, c);
        assert(i * channels + c < used) by (nonlinear_arith)
            requires
                i + 1 <= pixels,
                used == pixels * channels,
                c < channels,
        ;
    }
}

/// Bytes per packed row: the row's bits rounded up to whole bytes.
pub open spec fn row_bytes(bit_depth: u8, row_size: u32) -> int {
    (row_size * bit_depth + 7) / 8
}

/// Number of output bytes among the first `n` packed samples.
proof fn lemma_expanded_prefix_len(buf: Seq<u8>, bit_depth: u8, row_size: u32, n: int)
    requires
        valid_bit_depth(bit_depth),
        row_size > 0,
        n >= 0,
    ensures
        expanded_prefix(buf, bit_depth, row_size, n).len() == (n / row_stride(bit_depth, row_size))
            * row_size + if n % row_stride(bit_depth, row_size) < row_size {
            n % row_stride(bit_depth, row_size)
        } else {
            row_size as int
        },
    decreases n,
{
    let m = row_stride(bit_depth, row_size);
    let rs = row_size as int;
    assert(m >= rs) by {
        assert(padding_samples(bit_depth, row_size) >= 0);
    }
    if n == 0 {
        assert(0int / m == 0 && 0int % m == 0) by (nonlinear_arith)
            requires
                m > 0,
        ;
    } else {
        let k = n - 1;
        lemma_expanded_prefix_len(buf, bit_depth, row_size, k);
        lemma_fundamental_div_mod(k, m);
        let q = k / m;
        let col = k % m;
        let before = expanded_prefix(buf, bit_depth, row_size, k);
        let after = expanded_prefix(buf, bit_depth, row_size, n);
        assert(before.len() == q * rs + if col < rs { col } else { rs });
        assert(after.len() == before.len() + if col < rs { 1int } else { 0int });
        lemma_mod_step(k, m, col);
        if col + 1 == m {
            assert(n == (q + 1) * m + 0) by (nonlinear_arith)
                requires
                    k == m * q + col,
                    col + 1 == m,
                    n == k + 1,
            ;
            lemma_fundamental_div_mod_converse(n, m, q + 1, 0);
            assert((q + 1) * rs == q * rs + rs) by (nonlinear_arith);
            assert(after.len() == (q + 1) * rs);
        } else {
            lemma_fundamental_div_mod_converse(n, m, q, col + 1);
            assert(after.len() == q * rs + if col + 1 < rs { col + 1 } else { rs });
        }
    }
}

/// A packed row of `row_size` samples spans `row_stride` sample slots, which
/// fill its bytes exactly.
proof fn lemma_stride_fills_row(bit_depth: u8, row_size: u32)
    requires
        valid_bit_depth(bit_depth),
    ensures
        row_stride(bit_depth, row_size) == row_bytes(bit_depth, row_size) * samples_per_byte(bit_depth),
{
    let w = row_size * bit_depth;
    let b = bit_depth as int;
    let per = samples_per_byte(bit_depth);
    lemma_fundamental_div_mod(w, 8);
    let a = w / 8;
    let r = w % 8;
    assert(r == (row_size - per * a) * b) by (nonlinear_arith)
        requires
            w == row_size * b,
            w == 8 * a + r,
            per * b == 8,
    ;
    lemma_fundamental_div_mod_converse(r, b, row_size - per * a, 0);
    if r == 0 {
        lemma_fundamental_div_mod_converse(w + 7, 8, a, 7);
        assert(row_size * b == a * per * b) by (nonlinear_arith)
            requires
                w == row_size * b,
                w == 8 * a,
                per * b == 8,
        ;
        assert(row_size == a * per) by (nonlinear_arith)
            requires
                row_size * b == a * per * b,
                b > 0,
        ;
    } else {
        lemma_fundamental_div_mod_converse(w + 7, 8, a + 1, r - 1);
        assert(row_size * b + (8 - r) == (a + 1) * per * b) by (nonlinear_arith)
            requires
                w == row_size * b,
                w == 8 * a + r,
                per * b == 8,
        ;
        let pad = (8 - r) / b;
        assert(pad * b == 8 - r);
        assert((row_size + pad) * b == (a + 1) * per * b) by (nonlinear_arith)
            requires
                row_size * b + (8 - r) == (a + 1) * per * b,
                pad * b == 8 - r,
        ;
        assert(row_size + pad == (a + 1) * per) by (nonlinear_arith)
            requires
                (row_size + pad) * b == (a + 1) * per * b,
                b > 0,
        ;
    }
}

/// A buffer of whole packed rows expands to exactly `row_size` bytes per
/// row: every padding sample is dropped and every other sample kept.
pub proof fn lemma_expanded_len(buf: Seq<u8>, bit_depth: u8, row_size: u32, rows: nat)
    requires
        valid_bit_depth(bit_depth),
        buf.len() == rows * row_bytes(bit_depth, row_size),
    ensures
        expanded(buf, bit_depth, row_size).len() == rows * row_size,
{
    if row_size > 0 {
        let m = row_stride(bit_depth, row_size);
        let n = buf.len() * samples_per_byte(bit_depth);
        lemma_stride_fills_row(bit_depth, row_size);
        assert(n == rows * m) by (nonlinear_arith)
            requires
                n == buf.len() * samples_per_byte(bit_depth),
                buf.len() == rows * row_bytes(bit_depth, row_size),
                m == row_bytes(bit_depth, row_size) * samples_per_byte(bit_depth),
        ;
        assert(m > 0);
        lemma_fundamental_div_mod_converse(n, m, rows as int, 0);
        lemma_expanded_prefix_len(buf, bit_depth, row_size, n);
    }
}

} // verus!
