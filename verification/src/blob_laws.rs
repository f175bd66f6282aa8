//! Laws of the quantized-weight container: reading gives back what was written.

use crate::blob::{
    container, decoded, fan_in, next_row, next_rows, next_weight, quantized, u32_at, Channel,
    Container, Cursor, Quantized, Weight, MAGIC, N_CHANNELS, N_IN, RAW_K, all_finite,
    all_scales_finite,
};
use crate::rice::{bits_from, law_rice_round_trip, law_zigzag_bijection, rice_encoding, zigzag_code};
use vstd::prelude::*;

verus! {

/// Byte `j` of a number, least significant first.
pub open spec fn byte_of(v: nat, j: int) -> u8 {
    if j == 0 {
        (v % 0x100) as u8
    } else if j == 1 {
        (v / 0x100 % 0x100) as u8
    } else if j == 2 {
        (v / 0x1_0000 % 0x100) as u8
    } else {
        (v / 0x100_0000 % 0x100) as u8
    }
}

/// Four bytes, least significant first.
pub open spec fn u32_bytes(v: nat) -> Seq<u8> {
    Seq::new(4, |j: int| byte_of(v, j))
}

/// The section of channels.
pub open spec fn channel_bytes(channels: Seq<Channel>) -> Seq<u8> {
    Seq::new(
        3 * channels.len(),
        |i: int|
            if i % 3 == 2 {
                channels[i / 3].k
            } else {
                byte_of(channels[i / 3].scale as nat, i % 3)
            },
    )
}

/// The section of halves.
pub open spec fn half_bytes(halves: Seq<u16>) -> Seq<u8> {
    Seq::new(2 * halves.len(), |i: int| byte_of(halves[i / 2] as nat, i % 2))
}

/// The section of binary32 bit patterns.
pub open spec fn float_bytes(floats: Seq<u32>) -> Seq<u8> {
    Seq::new(4 * floats.len(), |i: int| byte_of(floats[i / 4] as nat, i % 4))
}

/// The bytes of a container.
pub open spec fn container_bytes(c: Container) -> Seq<u8> {
    u32_bytes(MAGIC as nat) + u32_bytes(c.channels.len()) + channel_bytes(c.channels) + u32_bytes(c.halves.len())
        + half_bytes(c.halves) + u32_bytes(c.floats.len()) + float_bytes(c.floats) + c.payload
}

/// A 32-bit number in the middle of a byte sequence.
proof fn lemma_u32_at(d: Seq<u8>, o: int, v: nat)
    requires
        v <= u32::MAX,
        0 <= o,
        o + 4 <= d.len(),
        forall|j: int| 0 <= j < 4 ==> d[o + j] == #[trigger] byte_of(v, j),
    ensures
        u32_at(d, o) == v,
{
    assert(d[o + 0] == byte_of(v, 0));
    assert(d[o + 1] == byte_of(v, 1));
    assert(d[o + 2] == byte_of(v, 2));
    assert(d[o + 3] == byte_of(v, 3));
}

/// Reading a container gives back the sections that were written to it.
pub proof fn law_container_round_trip(c: Container)
    requires
        c.channels.len() <= u32::MAX,
        c.halves.len() <= u32::MAX,
        c.floats.len() <= u32::MAX,
    ensures
        container(container_bytes(c)) == Some(c),
{
    let d = container_bytes(c);
    let n_ch = c.channels.len();
    let n_f16 = c.halves.len();
    let n_f32 = c.floats.len();
    let o16 = 8 + 3 * n_ch;
    let o32 = o16 + 4 + 2 * n_f16;
    let off = o32 + 4 + 4 * n_f32;
    assert forall|j: int| 0 <= j < 4 implies d[0 + j] == #[trigger] byte_of(MAGIC as nat, j) by {}
    lemma_u32_at(d, 0, MAGIC as nat);
    assert forall|j: int| 0 <= j < 4 implies d[4 + j] == #[trigger] byte_of(n_ch, j) by {}
    lemma_u32_at(d, 4, n_ch);
    assert forall|j: int| 0 <= j < 4 implies d[o16 + j] == #[trigger] byte_of(n_f16, j) by {}
    lemma_u32_at(d, o16 as int, n_f16);
    assert forall|j: int| 0 <= j < 4 implies d[o32 + j] == #[trigger] byte_of(n_f32, j) by {}
    lemma_u32_at(d, o32 as int, n_f32);
    let r = container(d).unwrap();
    assert(r.channels =~= c.channels) by {
        assert forall|i: int| 0 <= i < n_ch implies r.channels[i] == c.channels[i] by {
            let sec = channel_bytes(c.channels);
            let o = 8 + 3 * i;
            assert(d[o] == sec[3 * i]);
            assert(d[o + 1] == sec[3 * i + 1]);
            assert(d[o + 2] == sec[3 * i + 2]);
        }
    }
    assert(r.halves =~= c.halves) by {
        assert forall|i: int| 0 <= i < n_f16 implies r.halves[i] == c.halves[i] by {
            let sec = half_bytes(c.halves);
            let o = o16 + 4 + 2 * i;
            assert(d[o] == sec[2 * i]);
            assert(d[o + 1] == sec[2 * i + 1]);
        }
    }
    assert(r.floats =~= c.floats) by {
        assert forall|i: int| 0 <= i < n_f32 implies r.floats[i] == c.floats[i] by {
            let sec = float_bytes(c.floats);
            let o = o32 + 4 + 4 * i;
            assert forall|j: int| 0 <= j < 4 implies d[o + j] == #[trigger] byte_of(c.floats[i] as nat, j) by {
                assert(d[o + j] == sec[4 * i + j]);
            }
            lemma_u32_at(d, o, c.floats[i] as nat);
        }
    }
    assert(r.payload =~= c.payload);
}

// ----------------------------------------------------------------------------
// Weights
// ----------------------------------------------------------------------------

/// A weight that a channel can hold.
pub open spec fn fits(ch: Channel, w: Weight) -> bool {
    match w {
        Weight::Raw(_) => ch.k == RAW_K,
        Weight::Steps(_, scale) => ch.k != RAW_K && scale == ch.scale,
    }
}

/// The bits that a weight takes in the payload.
pub open spec fn weight_bits(ch: Channel, w: Weight) -> Seq<bool> {
    match w {
        Weight::Raw(_) => Seq::empty(),
        Weight::Steps(q, _) => rice_encoding(zigzag_code(q as int) as nat, ch.k as nat),
    }
}

/// The halves that a weight takes.
pub open spec fn weight_halves(w: Weight) -> Seq<u16> {
    match w {
        Weight::Raw(h) => seq![h],
        Weight::Steps(_, _) => Seq::empty(),
    }
}

/// The bits that a row of weights takes.
pub open spec fn row_bits(ch: Channel, row: Seq<Weight>) -> Seq<bool>
    decreases row.len(),
{
    if row.len() == 0 {
        Seq::empty()
    } else {
        row_bits(ch, row.drop_last()) + weight_bits(ch, row.last())
    }
}

/// The halves that a row of weights takes.
pub open spec fn row_halves(row: Seq<Weight>) -> Seq<u16>
    decreases row.len(),
{
    if row.len() == 0 {
        Seq::empty()
    } else {
        row_halves(row.drop_last()) + weight_halves(row.last())
    }
}

/// The bits that the rows of all channels take.
pub open spec fn rows_bits(channels: Seq<Channel>, rows: Seq<Seq<Weight>>) -> Seq<bool>
    decreases rows.len(),
{
    if rows.len() == 0 {
        Seq::empty()
    } else {
        rows_bits(channels, rows.drop_last()) + row_bits(channels[rows.len() - 1], rows.last())
    }
}

/// The halves that the rows of all channels take.
pub open spec fn rows_halves(rows: Seq<Seq<Weight>>) -> Seq<u16>
    decreases rows.len(),
{
    if rows.len() == 0 {
        Seq::empty()
    } else {
        rows_halves(rows.drop_last()) + row_halves(rows.last())
    }
}

/// Every row has the length of its channel's fan-in and holds weights that fit the channel.
pub open spec fn rows_fit(channels: Seq<Channel>, rows: Seq<Seq<Weight>>) -> bool {
    &&& rows.len() <= channels.len()
    &&& forall|c: int| 0 <= c < rows.len() ==> (#[trigger] rows[c]).len() == fan_in(c)
    &&& forall|c: int, i: int|
        0 <= c < rows.len() && 0 <= i < rows[c].len() ==> fits(channels[c], #[trigger] rows[c][i])
}

proof fn lemma_weight_round_trip(ch: Channel, w: Weight, bits: Seq<bool>, halves: Seq<u16>)
    requires
        fits(ch, w),
    ensures
        next_weight(ch, Cursor { bits: weight_bits(ch, w) + bits, halves: weight_halves(w) + halves }) == Some(
            (w, Cursor { bits, halves }),
        ),
{
    match w {
        Weight::Raw(h) => {
            assert((weight_halves(w) + halves).drop_first() =~= halves);
            assert(weight_bits(ch, w) + bits =~= bits);
        },
        Weight::Steps(q, scale) => {
            law_zigzag_bijection(q, 0);
            let z = zigzag_code(q as int) as u32;
            law_rice_round_trip(z, ch.k as nat, bits);
            assert((weight_bits(ch, w) + bits).skip(weight_bits(ch, w).len() as int) =~= bits);
            assert(weight_halves(w) + halves =~= halves);
        },
    }
}

proof fn lemma_row_round_trip(ch: Channel, row: Seq<Weight>, bits: Seq<bool>, halves: Seq<u16>)
    requires
        forall|i: int| 0 <= i < row.len() ==> fits(ch, #[trigger] row[i]),
    ensures
        next_row(ch, row.len(), Cursor { bits: row_bits(ch, row) + bits, halves: row_halves(row) + halves })
            == Some((row, Cursor { bits, halves })),
    decreases row.len(),
{
    if row.len() == 0 {
        assert(row_bits(ch, row) + bits =~= bits);
        assert(row_halves(row) + halves =~= halves);
        assert(row =~= Seq::empty());
    } else {
        let init = row.drop_last();
        let w = row.last();
        let b = weight_bits(ch, w) + bits;
        let h = weight_halves(w) + halves;
        lemma_row_round_trip(ch, init, b, h);
        lemma_weight_round_trip(ch, w, bits, halves);
        assert(row_bits(ch, row) + bits =~= row_bits(ch, init) + b);
        assert(row_halves(row) + halves =~= row_halves(init) + h);
        assert(init.push(w) =~= row);
    }
}

/// Reading the rows of a sequence of channels gives back the weights that were written, and leaves
/// what follows them.
pub proof fn law_rows_round_trip(
    channels: Seq<Channel>,
    rows: Seq<Seq<Weight>>,
    bits: Seq<bool>,
    halves: Seq<u16>,
)
    requires
        rows_fit(channels, rows),
    ensures
        next_rows(
            channels,
            rows.len(),
            Cursor { bits: rows_bits(channels, rows) + bits, halves: rows_halves(rows) + halves },
        ) == Some((rows, Cursor { bits, halves })),
    decreases rows.len(),
{
    if rows.len() == 0 {
        assert(rows_bits(channels, rows) + bits =~= bits);
        assert(rows_halves(rows) + halves =~= halves);
        assert(rows =~= Seq::empty());
    } else {
        let init = rows.drop_last();
        let row = rows.last();
        let c = rows.len() - 1;
        let ch = channels[c];
        let b = row_bits(ch, row) + bits;
        let h = row_halves(row) + halves;
        assert(row == rows[c]);
        assert forall|i: int| 0 <= i < row.len() implies fits(ch, #[trigger] row[i]) by {
            assert(rows[c][i] == row[i]);
        }
        lemma_rows_fit_init(channels, rows);
        law_rows_round_trip(channels, init, b, h);
        lemma_row_round_trip(ch, row, bits, halves);
        assert(rows_bits(channels, rows) + bits =~= rows_bits(channels, init) + b);
        assert(rows_halves(rows) + halves =~= rows_halves(init) + h);
        assert(init.push(row) =~= rows);
    }
}

/// A row takes at most one half per weight.
proof fn lemma_row_halves_len(row: Seq<Weight>)
    ensures
        row_halves(row).len() <= row.len(),
    decreases row.len(),
{
    if row.len() > 0 {
        lemma_row_halves_len(row.drop_last());
    }
}

/// The rows take at most one half per weight, and no fan-in is above 80.
proof fn lemma_rows_halves_len(channels: Seq<Channel>, rows: Seq<Seq<Weight>>)
    requires
        rows_fit(channels, rows),
    ensures
        rows_halves(rows).len() <= 80 * rows.len(),
    decreases rows.len(),
{
    if rows.len() > 0 {
        let init = rows.drop_last();
        lemma_rows_fit_init(channels, rows);
        lemma_rows_halves_len(channels, init);
        lemma_row_halves_len(rows.last());
        assert(rows[rows.len() - 1].len() == fan_in(rows.len() - 1));
    }
}

/// All rows but the last one fit too.
proof fn lemma_rows_fit_init(channels: Seq<Channel>, rows: Seq<Seq<Weight>>)
    requires
        rows_fit(channels, rows),
        rows.len() > 0,
    ensures
        rows_fit(channels, rows.drop_last()),
{
    let init = rows.drop_last();
    assert forall|k: int| 0 <= k < init.len() implies (#[trigger] init[k]).len() == fan_in(k) by {
        assert(init[k] == rows[k]);
    }
    assert forall|k: int, i: int| 0 <= k < init.len() && 0 <= i < init[k].len() implies fits(
        channels[k],
        #[trigger] init[k][i],
    ) by {
        assert(init[k][i] == rows[k][i]);
    }
}

/// Loading gives back the network that was written: weights, biases and input statistics. The payload
/// holds the codes of the weights, and anything may follow them in it.
pub proof fn law_network_round_trip(channels: Seq<Channel>, q: Quantized, payload: Seq<u8>)
    requires
        channels.len() == N_CHANNELS,
        all_scales_finite(channels),
        q.rows.len() == N_CHANNELS,
        rows_fit(channels, q.rows),
        q.biases.len() == N_CHANNELS,
        all_finite(q.biases + rows_halves(q.rows)),
        2 * N_IN <= q.floats.len() <= u32::MAX,
        rows_bits(channels, q.rows).is_prefix_of(bits_from(payload, 0)),
    ensures
        ({
            let halves = q.biases + rows_halves(q.rows);
            decoded(container_bytes(Container { channels, halves, floats: q.floats, payload })) == Some(q)
        }),
{
    let halves = q.biases + rows_halves(q.rows);
    let c = Container { channels, halves, floats: q.floats, payload };
    lemma_rows_halves_len(channels, q.rows);
    law_container_round_trip(c);
    let codes = rows_bits(channels, q.rows);
    let bits = bits_from(payload, 0);
    let tail = bits.skip(codes.len() as int);
    law_rows_round_trip(channels, q.rows, tail, Seq::empty());
    assert(codes + tail =~= bits);
    assert(halves.skip(N_CHANNELS as int) =~= rows_halves(q.rows) + Seq::<u16>::empty());
    assert(halves.take(N_CHANNELS as int) =~= q.biases);
    assert(quantized(c) == Some(q));
}

} // verus!
