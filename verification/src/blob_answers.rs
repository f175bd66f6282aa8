//! What reading a container answers: which bytes are taken for what.
//!
//! The laws take what the functions returned and say, byte for byte, where in the container it stood.

use crate::blob::{
    all_finite, all_scales_finite, container, dim, fan_in, first_channel, lemma_layers, next_row,
    next_rows, next_weight, parse, quantized, u16_at, u32_at, BlobError, Channel, Container, Cursor,
    QuantizedNet, Weight, MAGIC,
};
use crate::coding_answers::{is_code, is_long_code, is_short_code, law_code_answer, law_half_numbers};
use crate::ieee::f16_finite;
use crate::rice::{bits_from, bits_value, lemma_bits_value_bound, lemma_shifted_sum, rice_code};
use vstd::arithmetic::power2::{lemma2_to64, pow2};
use vstd::prelude::*;

verus! {

/// The number of two bytes, the low one first.
pub open spec fn two_bytes(d: Seq<u8>, o: int) -> int {
    d[o] + 256 * d[o + 1]
}

/// The number of four bytes, the lowest first.
pub open spec fn four_bytes(d: Seq<u8>, o: int) -> int {
    d[o] + 256 * d[o + 1] + 65536 * d[o + 2] + 16777216 * d[o + 3]
}

/// The number of weights of a channel: the width of the layer before its own.
pub open spec fn weights_of(c: int) -> nat {
    if c < 32 {
        6
    } else if c < 144 {
        32
    } else if c < 208 {
        48
    } else if c < 288 {
        64
    } else {
        80
    }
}

/// The bytes start with the magic number.
pub open spec fn has_magic(d: Seq<u8>) -> bool {
    d.len() >= 4 && d[0] == 0x32 && d[1] == 0x4E && d[2] == 0x4E && d[3] == 0x51
}

/// Where the bytes behind the halves start.
pub open spec fn behind_halves(d: Seq<u8>) -> int {
    924 + 2 * four_bytes(d, 920)
}

/// Where the codes of the weights start.
pub open spec fn codes_start(d: Seq<u8>) -> int {
    behind_halves(d) + 4 + 4 * four_bytes(d, behind_halves(d))
}

/// A container of 304 channels, long enough for the counts in it, with 304 halves or more and 12 floats or more,
/// all halves of it finite.
pub open spec fn has_sections(d: Seq<u8>) -> bool {
    &&& has_magic(d)
    &&& d.len() >= 924
    &&& four_bytes(d, 4) == 304
    &&& four_bytes(d, 920) >= 304
    &&& d.len() >= behind_halves(d) + 4
    &&& four_bytes(d, behind_halves(d)) >= 12
    &&& d.len() >= codes_start(d)
    &&& forall|c: int| 0 <= c < 304 ==> #[trigger] two_bytes(d, 8 + 3 * c) % 0x8000 < 0x7C00
    &&& forall|i: int| 0 <= i < four_bytes(d, 920) ==> #[trigger] two_bytes(d, 924 + 2 * i) % 0x8000 < 0x7C00
}

/// The weight `w` of channel `c` is the next half, or is coded by the next bits. Before it, `from.0` bits and
/// `from.1` halves were taken, and behind it `to.0` and `to.1`.
pub open spec fn is_weight(d: Seq<u8>, c: int, w: Weight, from: (int, int), to: (int, int)) -> bool {
    let k = d[10 + 3 * c];
    match w {
        Weight::Raw(h) => {
            &&& k == 255
            &&& from.1 < four_bytes(d, 920)
            &&& h == two_bytes(d, 924 + 2 * from.1)
            &&& to == (from.0, from.1 + 1)
        },
        Weight::Steps(n, step) => {
            &&& k != 255
            &&& step == two_bytes(d, 8 + 3 * c)
            &&& to.1 == from.1
            &&& from.0 <= to.0
            &&& exists|v: nat|
                {
                    &&& #[trigger] is_code(
                        bits_from(d.skip(codes_start(d)), from.0),
                        k as nat,
                        v,
                        (to.0 - from.0) as nat,
                    )
                    &&& v % 2 == 0 ==> 2 * n == v
                    &&& v % 2 == 1 ==> -2 * n - 1 == v
                }
        },
    }
}

/// The weights of all channels follow each other, those of channel `c` as many as it has. The first takes the
/// first bit, or the first half behind the 304 biases, and the last one the last half.
pub open spec fn are_weights(d: Seq<u8>, rows: Seq<Seq<Weight>>, at: spec_fn(int, int) -> (int, int)) -> bool {
    &&& rows.len() == 304
    &&& at(0, 0) == (0int, 304int)
    &&& forall|c: int| 0 <= c < 304 ==> (#[trigger] rows[c]).len() == weights_of(c)
    &&& forall|c: int, j: int|
        0 <= c < 304 && 0 <= j < weights_of(c) ==> is_weight(d, c, #[trigger] rows[c][j], at(c, j), at(c, j + 1))
    &&& forall|c: int| 0 <= c < 304 ==> #[trigger] at(c + 1, 0) == at(c, weights_of(c) as int)
    &&& at(304, 0).1 == four_bytes(d, 920)
}

/// A coded value has 32 bits.
proof fn lemma_code_value(s: Seq<bool>, k: nat, v: nat, len: nat)
    requires
        is_code(s, k, v, len),
    ensures
        v <= u32::MAX,
        len <= s.len(),
{
    lemma2_to64();
    if is_long_code(s, v, len) {
        lemma_bits_value_bound(s.subrange(24, 56));
    } else {
        let q = choose|q: int| #[trigger] is_short_code(s, k, q, v, len);
        let low = bits_value(s.subrange(q + 1, q + 1 + k));
        lemma_bits_value_bound(s.subrange(q + 1, q + 1 + k));
        assert(low < pow2(k));
        assert(pow2(k) <= 0x8000_0000) by {
            if k < 31 {
                vstd::arithmetic::power2::lemma_pow2_strictly_increases(k, 31);
            }
        }
        let r = (q as u32) << (k as u32) | (low as u32);
        lemma_shifted_sum(q as u32, k as u32, low as u32, r);
    }
}

/// What is left of `all` is what is left of `cur`.
spec fn is_left(cur: Cursor, all: Cursor) -> bool {
    &&& cur.bits.len() <= all.bits.len()
    &&& cur.bits =~= all.bits.skip(all.bits.len() - cur.bits.len())
    &&& cur.halves.len() <= all.halves.len()
    &&& cur.halves =~= all.halves.skip(all.halves.len() - cur.halves.len())
}

/// A weight takes from the front.
proof fn lemma_weight_left(ch: Channel, cur: Cursor, all: Cursor)
    requires
        is_left(cur, all),
        next_weight(ch, cur) is Some,
    ensures
        is_left(next_weight(ch, cur).unwrap().1, all),
{
    if ch.k != 0xFF {
        let c = rice_code(cur.bits, ch.k as nat).unwrap();
        law_code_answer(cur.bits, ch.k as nat, c.0, c.1);
        lemma_code_value(cur.bits, ch.k as nat, c.0, c.1);
    }
}

/// The weights of a channel take from the front.
proof fn lemma_row_left(ch: Channel, n: nat, cur: Cursor, all: Cursor)
    requires
        is_left(cur, all),
        next_row(ch, n, cur) is Some,
    ensures
        is_left(next_row(ch, n, cur).unwrap().1, all),
        next_row(ch, n, cur).unwrap().0.len() == n,
    decreases n,
{
    if n > 0 {
        let m = (n - 1) as nat;
        lemma_row_left(ch, m, cur, all);
        lemma_weight_left(ch, next_row(ch, m, cur).unwrap().1, all);
    }
}

/// One weight of a channel.
proof fn lemma_row_step(ch: Channel, n: nat, j: nat, cur: Cursor, all: Cursor)
    requires
        is_left(cur, all),
        j < n,
        next_row(ch, n, cur) is Some,
    ensures
        next_row(ch, j, cur) is Some,
        is_left(next_row(ch, j, cur).unwrap().1, all),
        next_weight(ch, next_row(ch, j, cur).unwrap().1) == Some(
            (next_row(ch, n, cur).unwrap().0[j as int], next_row(ch, j + 1, cur).unwrap().1),
        ),
    decreases n,
{
    let m = (n - 1) as nat;
    lemma_row_left(ch, m, cur, all);
    if j < m {
        lemma_row_step(ch, m, j, cur, all);
    }
}

/// The weights of the channels take from the front.
proof fn lemma_rows_left(channels: Seq<Channel>, n: nat, all: Cursor)
    requires
        next_rows(channels, n, all) is Some,
    ensures
        is_left(next_rows(channels, n, all).unwrap().1, all),
        next_rows(channels, n, all).unwrap().0.len() == n,
    decreases n,
{
    if n > 0 {
        let m = (n - 1) as nat;
        lemma_rows_left(channels, m, all);
        lemma_row_left(channels[m as int], fan_in(m as int), next_rows(channels, m, all).unwrap().1, all);
    }
}

/// One channel.
proof fn lemma_rows_step(channels: Seq<Channel>, n: nat, c: nat, all: Cursor)
    requires
        c < n,
        next_rows(channels, n, all) is Some,
    ensures
        next_rows(channels, c, all) is Some,
        is_left(next_rows(channels, c, all).unwrap().1, all),
        next_row(channels[c as int], fan_in(c as int), next_rows(channels, c, all).unwrap().1) == Some(
            (next_rows(channels, n, all).unwrap().0[c as int], next_rows(channels, c + 1, all).unwrap().1),
        ),
    decreases n,
{
    let m = (n - 1) as nat;
    lemma_rows_left(channels, m, all);
    if c < m {
        lemma_rows_step(channels, m, c, all);
    }
}

/// The sections of a container.
pub open spec fn are_sections(d: Seq<u8>, c: Container) -> bool {
    &&& c.channels.len() == 304
    &&& forall|i: int| 0 <= i < 304 ==> (#[trigger] c.channels[i]).scale == two_bytes(d, 8 + 3 * i)
    &&& forall|i: int| 0 <= i < 304 ==> (#[trigger] c.channels[i]).k == d[10 + 3 * i]
    &&& c.halves.len() == four_bytes(d, 920)
    &&& forall|i: int| 0 <= i < four_bytes(d, 920) ==> #[trigger] c.halves[i] == two_bytes(d, 924 + 2 * i)
    &&& c.floats.len() == four_bytes(d, behind_halves(d))
    &&& forall|i: int|
        0 <= i < four_bytes(d, behind_halves(d)) ==> #[trigger] c.floats[i] == four_bytes(
            d,
            behind_halves(d) + 4 + 4 * i,
        )
    &&& c.payload == d.skip(codes_start(d))
}

/// Two bytes are a number of 16 bits, and four bytes one of 32.
proof fn lemma_bytes(d: Seq<u8>, o: int)
    ensures
        u16_at(d, o) == two_bytes(d, o),
        u32_at(d, o) == four_bytes(d, o),
{
    assert(0 <= two_bytes(d, o) <= 0xFFFF);
    assert(0 <= four_bytes(d, o) <= 0xFFFF_FFFF);
}

/// The magic number, byte for byte.
proof fn lemma_magic(d: Seq<u8>)
    ensures
        d.len() >= 4 && u32_at(d, 0) == MAGIC <==> has_magic(d),
{
    lemma_bytes(d, 0);
}

/// The sections of a container that holds a network, and that a container with such sections has them.
proof fn lemma_sections(d: Seq<u8>)
    ensures
        (container(d) matches Some(c) ==> four_bytes(d, 4) == 304 ==> are_sections(d, c)),
        has_magic(d) && d.len() >= 924 && four_bytes(d, 4) == 304 && d.len() >= behind_halves(d) + 4 && d.len()
            >= codes_start(d) ==> container(d) is Some,
        container(d) is Some && four_bytes(d, 4) == 304 ==> has_magic(d) && d.len() >= 924 && d.len() >= behind_halves(
            d,
        ) + 4 && d.len() >= codes_start(d),
        (container(d) matches Some(c) ==> c.channels.len() == four_bytes(d, 4)),
{
    lemma_magic(d);
    lemma_bytes(d, 4);
    if four_bytes(d, 4) == 304 {
        lemma_bytes(d, 920);
        lemma_bytes(d, behind_halves(d));
        if let Some(c) = container(d) {
            assert forall|i: int| 0 <= i < 304 implies (#[trigger] c.channels[i]).scale == two_bytes(d, 8 + 3 * i)
                && c.channels[i].k == d[10 + 3 * i] by {
                lemma_bytes(d, 8 + 3 * i);
            }
            assert forall|i: int| 0 <= i < four_bytes(d, 920) implies #[trigger] c.halves[i] == two_bytes(
                d,
                924 + 2 * i,
            ) by {
                lemma_bytes(d, 924 + 2 * i);
            }
            assert forall|i: int| 0 <= i < four_bytes(d, behind_halves(d)) implies #[trigger] c.floats[i]
                == four_bytes(d, behind_halves(d) + 4 + 4 * i) by {
                lemma_bytes(d, behind_halves(d) + 4 + 4 * i);
            }
        }
    }
}

/// The sections that a network can be read from.
proof fn lemma_has_sections(d: Seq<u8>)
    ensures
        has_sections(d) <==> (container(d) matches Some(c) && c.channels.len() == 304 && all_scales_finite(c.channels)
            && c.halves.len() >= 304 && all_finite(c.halves) && c.floats.len() >= 12),
{
    lemma_sections(d);
    if let Some(c) = container(d) {
        if four_bytes(d, 4) == 304 {
            assert forall|h: u16| #[trigger] f16_finite(h) == (h % 0x8000 < 0x7C00) by {
                law_half_numbers(h);
            }
            if has_sections(d) {
                assert forall|i: int| 0 <= i < c.channels.len() implies f16_finite(
                    (#[trigger] c.channels[i]).scale,
                ) by {
                    assert(two_bytes(d, 8 + 3 * i) % 0x8000 < 0x7C00);
                }
                assert forall|i: int| 0 <= i < c.halves.len() implies #[trigger] f16_finite(c.halves[i]) by {
                    assert(two_bytes(d, 924 + 2 * i) % 0x8000 < 0x7C00);
                }
            }
            if c.channels.len() == 304 && all_scales_finite(c.channels) && c.halves.len() >= 304 && all_finite(
                c.halves,
            ) && c.floats.len() >= 12 {
                assert forall|i: int| 0 <= i < 304 implies #[trigger] two_bytes(d, 8 + 3 * i) % 0x8000 < 0x7C00 by {
                    assert(f16_finite(c.channels[i].scale));
                }
                assert forall|i: int| 0 <= i < four_bytes(d, 920) implies #[trigger] two_bytes(d, 924 + 2 * i) % 0x8000
                    < 0x7C00 by {
                    assert(f16_finite(c.halves[i]));
                }
            }
        }
    }
}

/// All that the weights are read from.
spec fn sources(c: Container) -> Cursor {
    Cursor { bits: bits_from(c.payload, 0), halves: c.halves.skip(304) }
}

/// How many bits and halves were taken where `cur` is left.
spec fn taken(c: Container, cur: Cursor) -> (int, int) {
    (sources(c).bits.len() - cur.bits.len(), c.halves.len() - cur.halves.len())
}

/// What is left where `at.0` bits and `at.1` halves were taken.
spec fn left_at(c: Container, at: (int, int)) -> Cursor {
    Cursor { bits: bits_from(c.payload, at.0), halves: c.halves.skip(at.1) }
}

/// One weight that was read.
proof fn lemma_is_weight(d: Seq<u8>, c: Container, i: int, cur: Cursor)
    requires
        are_sections(d, c),
        c.halves.len() >= 304,
        0 <= i < 304,
        is_left(cur, sources(c)),
        next_weight(c.channels[i], cur) is Some,
    ensures
        ({
            let (w, end) = next_weight(c.channels[i], cur).unwrap();
            is_weight(d, i, w, taken(c, cur), taken(c, end))
        }),
{
    let ch = c.channels[i];
    let from = taken(c, cur);
    if ch.k == 0xFF {
        assert(cur.halves[0] == c.halves[from.1]);
    } else {
        let code = rice_code(cur.bits, ch.k as nat).unwrap();
        let (w, end) = next_weight(ch, cur).unwrap();
        let to = taken(c, end);
        law_code_answer(cur.bits, ch.k as nat, code.0, code.1);
        lemma_code_value(cur.bits, ch.k as nat, code.0, code.1);
        assert(bits_from(c.payload, from.0) =~= cur.bits);
        assert(to.0 - from.0 == code.1);
        assert(is_code(bits_from(d.skip(codes_start(d)), from.0), d[10 + 3 * i] as nat, code.0, code.1));
    }
}

/// The place before weight `j` of channel `i`.
spec fn place(c: Container, i: int, j: int) -> (int, int) {
    let start = next_rows(c.channels, i as nat, sources(c)).unwrap().1;
    taken(
        c,
        if j == 0 {
            start
        } else {
            next_row(c.channels[i], j as nat, start).unwrap().1
        },
    )
}

/// A weight of a channel that was read.
proof fn lemma_channel_weight(d: Seq<u8>, c: Container, i: int, j: int)
    requires
        are_sections(d, c),
        c.halves.len() >= 304,
        0 <= i < 304,
        0 <= j < weights_of(i),
        next_rows(c.channels, 304, sources(c)) is Some,
    ensures
        is_weight(
            d,
            i,
            next_rows(c.channels, 304, sources(c)).unwrap().0[i][j],
            place(c, i, j),
            place(c, i, j + 1),
        ),
{
    let all = sources(c);
    let ch = c.channels[i];
    let n = weights_of(i);
    let k = i as nat;
    let row = next_rows(c.channels, 304, all).unwrap().0[i];
    lemma_channel(c, i);
    let start = next_rows(c.channels, k, all).unwrap().1;
    let m = j as nat;
    lemma_row_step(ch, n, m, start, all);
    assert(next_row(ch, 0, start) == Some((Seq::<Weight>::empty(), start)));
    let cur = next_row(ch, m, start).unwrap().1;
    let end = next_row(ch, m + 1, start).unwrap().1;
    assert(next_row(ch, m, start) is Some && is_left(cur, all));
    assert(next_weight(ch, cur) == Some((row[j], end)));
    lemma_is_weight(d, c, i, cur);
    assert(place(c, i, j) == taken(c, cur));
    assert(place(c, i, j + 1) == taken(c, end));
}

/// The row of a channel that was read.
proof fn lemma_channel(c: Container, i: int)
    requires
        0 <= i < 304,
        next_rows(c.channels, 304, sources(c)) is Some,
    ensures
        ({
            let all = sources(c);
            let start = next_rows(c.channels, i as nat, all).unwrap().1;
            let row = next_rows(c.channels, 304, all).unwrap().0[i];
            &&& is_left(start, all)
            &&& next_row(c.channels[i], weights_of(i), start) == Some(
                (row, next_rows(c.channels, (i + 1) as nat, all).unwrap().1),
            )
            &&& row.len() == weights_of(i)
        }),
        place(c, i + 1, 0) == place(c, i, weights_of(i) as int),
{
    let all = sources(c);
    let k = i as nat;
    lemma_rows_step(c.channels, 304, k, all);
    assert(fan_in(i) == weights_of(i));
    let start = next_rows(c.channels, k, all).unwrap().1;
    lemma_row_left(c.channels[i], weights_of(i), start, all);
}

/// The weights that were read.
proof fn lemma_are_weights(d: Seq<u8>, c: Container)
    requires
        are_sections(d, c),
        c.halves.len() >= 304,
        next_rows(c.channels, 304, sources(c)) is Some,
        next_rows(c.channels, 304, sources(c)).unwrap().1.halves.len() == 0,
    ensures
        are_weights(
            d,
            next_rows(c.channels, 304, sources(c)).unwrap().0,
            |i: int, j: int| place(c, i, j),
        ),
{
    let all = sources(c);
    let rows = next_rows(c.channels, 304, all).unwrap().0;
    let at = |i: int, j: int| place(c, i, j);
    assert(next_rows(c.channels, 0, all) == Some((Seq::<Seq<Weight>>::empty(), all)));
    assert(at(0, 0) == (0int, 304int));
    assert(rows.len() == 304) by {
        lemma_rows_left(c.channels, 304, all);
    }
    assert forall|i: int| 0 <= i < 304 implies (#[trigger] rows[i]).len() == weights_of(i) by {
        lemma_channel(c, i);
    }
    assert forall|i: int, j: int| 0 <= i < 304 && 0 <= j < weights_of(i) implies is_weight(
        d,
        i,
        #[trigger] rows[i][j],
        at(i, j),
        at(i, j + 1),
    ) by {
        lemma_channel_weight(d, c, i, j);
    }
    assert forall|i: int| 0 <= i < 304 implies #[trigger] at(i + 1, 0) == at(i, weights_of(i) as int) by {
        lemma_channel(c, i);
    }
    assert(at(304, 0).1 == four_bytes(d, 920));
}

/// One weight to be read.
proof fn lemma_reads_weight(d: Seq<u8>, c: Container, i: int, w: Weight, from: (int, int), to: (int, int))
    requires
        are_sections(d, c),
        0 <= i < 304,
        0 <= from.0 <= 8 * c.payload.len(),
        0 <= from.1 <= c.halves.len(),
        is_weight(d, i, w, from, to),
    ensures
        next_weight(c.channels[i], left_at(c, from)) == Some((w, left_at(c, to))),
        0 <= to.0 <= 8 * c.payload.len(),
        0 <= to.1 <= c.halves.len(),
{
    let ch = c.channels[i];
    let cur = left_at(c, from);
    match w {
        Weight::Raw(h) => {
            assert(cur.halves[0] == c.halves[from.1]);
            assert(cur.halves.drop_first() =~= c.halves.skip(to.1));
        },
        Weight::Steps(n, step) => {
            let len = (to.0 - from.0) as nat;
            let v = choose|v: nat|
                {
                    &&& #[trigger] is_code(bits_from(d.skip(codes_start(d)), from.0), ch.k as nat, v, len)
                    &&& v % 2 == 0 ==> 2 * n == v
                    &&& v % 2 == 1 ==> -2 * n - 1 == v
                };
            law_code_answer(cur.bits, ch.k as nat, v, len);
            lemma_code_value(cur.bits, ch.k as nat, v, len);
            assert(cur.bits.skip(len as int) =~= bits_from(c.payload, to.0));
        },
    }
}

/// The first `n` weights of a channel to be read.
proof fn lemma_reads_row(
    d: Seq<u8>,
    c: Container,
    rows: Seq<Seq<Weight>>,
    at: spec_fn(int, int) -> (int, int),
    i: int,
    n: nat,
)
    requires
        are_sections(d, c),
        are_weights(d, rows, at),
        0 <= i < 304,
        n <= weights_of(i),
        0 <= at(i, 0).0 <= 8 * c.payload.len(),
        0 <= at(i, 0).1 <= c.halves.len(),
    ensures
        next_row(c.channels[i], n, left_at(c, at(i, 0))) == Some((rows[i].take(n as int), left_at(c, at(i, n as int)))),
        0 <= at(i, n as int).0 <= 8 * c.payload.len(),
        0 <= at(i, n as int).1 <= c.halves.len(),
    decreases n,
{
    if n == 0 {
        assert(rows[i].take(0) =~= Seq::<Weight>::empty());
    } else {
        let m = n - 1;
        lemma_reads_row(d, c, rows, at, i, m as nat);
        assert(is_weight(d, i, rows[i][m], at(i, m), at(i, m + 1)));
        lemma_reads_weight(d, c, i, rows[i][m], at(i, m), at(i, m + 1));
        assert(rows[i].len() == weights_of(i));
        assert(rows[i].take(m).push(rows[i][m]) =~= rows[i].take(n as int));
    }
}

/// The weights of the first `n` channels to be read.
proof fn lemma_reads_rows(d: Seq<u8>, c: Container, rows: Seq<Seq<Weight>>, at: spec_fn(int, int) -> (int, int), n: nat)
    requires
        are_sections(d, c),
        are_weights(d, rows, at),
        c.halves.len() >= 304,
        n <= 304,
    ensures
        next_rows(c.channels, n, sources(c)) == Some((rows.take(n as int), left_at(c, at(n as int, 0)))),
        0 <= at(n as int, 0).0 <= 8 * c.payload.len(),
        0 <= at(n as int, 0).1 <= c.halves.len(),
    decreases n,
{
    if n == 0 {
        assert(rows.take(0) =~= Seq::<Seq<Weight>>::empty());
    } else {
        let m = n - 1;
        lemma_reads_rows(d, c, rows, at, m as nat);
        let k = weights_of(m);
        lemma_reads_row(d, c, rows, at, m, k);
        assert(fan_in(m) == k);
        assert(rows[m].len() == k);
        assert(rows[m].take(k as int) =~= rows[m]);
        assert(at(m + 1, 0) == at(m, k as int));
        assert(rows.take(m).push(rows[m]) =~= rows.take(n as int));
    }
}

/// What [`parse`] returns of bytes: without the magic number, that it is missing; of sections whose codes and
/// halves are exactly those of all weights, these weights, the first 304 halves as biases and the floats; and of
/// everything else, that it is malformed.
pub proof fn law_parse_answer(blob: &[u8], r: Result<QuantizedNet, BlobError>)
    requires
        8 * blob@.len() <= usize::MAX,
        call_ensures(parse, (blob,), r),
    ensures
        r == Err::<QuantizedNet, BlobError>(BlobError::BadMagic) <==> !has_magic(blob@),
        r is Ok <==> has_sections(blob@) && exists|rows: Seq<Seq<Weight>>, at: spec_fn(int, int) -> (int, int)|
            #[trigger] are_weights(blob@, rows, at),
        r matches Ok(net) ==> {
            let d = blob@;
            &&& exists|at: spec_fn(int, int) -> (int, int)| #[trigger] are_weights(d, net@.rows, at)
            &&& net.rows@.len() == 304
            &&& forall|c: int| 0 <= c < 304 ==> #[trigger] net.rows@[c]@ == net@.rows[c]
            &&& net.biases@.len() == 304
            &&& forall|c: int| 0 <= c < 304 ==> #[trigger] net.biases@[c] == two_bytes(d, 924 + 2 * c)
            &&& net.floats@.len() == four_bytes(d, behind_halves(d))
            &&& forall|i: int|
                0 <= i < net.floats@.len() ==> #[trigger] net.floats@[i] == four_bytes(
                    d,
                    behind_halves(d) + 4 + 4 * i,
                )
        },
{
    let d = blob@;
    lemma_magic(d);
    lemma_sections(d);
    lemma_has_sections(d);
    if let Some(c) = container(d) {
        if has_sections(d) {
            if exists|rows: Seq<Seq<Weight>>, at: spec_fn(int, int) -> (int, int)| #[trigger] are_weights(d, rows, at) {
                let (rows, at) = choose|rows: Seq<Seq<Weight>>, at: spec_fn(int, int) -> (int, int)| #[trigger]
                    are_weights(d, rows, at);
                lemma_reads_rows(d, c, rows, at, 304);
                assert(quantized(c) is Some);
            }
            if quantized(c) is Some {
                lemma_are_weights(d, c);
            }
        }
    }
    if let Ok(net) = r {
        let c = container(d).unwrap();
        assert(net@ == quantized(c).unwrap());
        assert(net@.rows.len() == 304);
        assert forall|i: int| 0 <= i < 304 implies #[trigger] net.rows@[i]@ == net@.rows[i] by {}
        assert forall|i: int| 0 <= i < 304 implies #[trigger] net.biases@[i] == two_bytes(d, 924 + 2 * i) by {
            assert(net@.biases[i] == c.halves[i]);
        }
    }
}

/// [`dim`] returns the widths of the layers, and [`first_channel`] how many channels come before a layer.
pub proof fn law_widths_answer(l: usize, width: usize, first: usize)
    requires
        l <= 7,
        call_ensures(dim, (l,), width),
        call_ensures(first_channel, (l,), first),
    ensures
        l == 0 ==> width == 6 && first == 0,
        l == 1 ==> width == 32 && first == 32,
        l == 2 ==> width == 32 && first == 64,
        l == 3 ==> width == 32 && first == 96,
        l == 4 ==> width == 48 && first == 144,
        l == 5 ==> width == 64 && first == 208,
        l == 6 ==> width == 80 && first == 288,
        l == 7 ==> width == 16 && first == 304,
{
    lemma_layers();
}

} // verus!
