//! The quantized-weight container.
//!
//! `magic u32 | n_ch u32 | [scale f16, k u8] x n_ch | n_f16 u32 | f16 x n_f16 | n_f32 u32 |
//! f32 x n_f32 | Rice payload`, all little-endian.
//!
//! A channel is an output neuron, and its weights are its fan-in, which follows from the layer
//! widths and is not stored. Channels are in layer order. The weights of a channel are Rice codes in
//! the payload, or, where its `k` is [`RAW_K`], halves. The `f16` section holds the biases in layer
//! order and then the weights of those channels. The `f32` section holds the mean and the standard
//! deviation of the input features.

use crate::ieee::f16_finite;
use crate::rice::{bits_from, rice_code, rice_decode, unzigzag, zigzag_value, BitReader};
use vstd::prelude::*;

verus! {

/// First four bytes of a container.
pub const MAGIC: u32 = 0x514E_4E32;

/// The `k` of a channel whose weights are halves rather than Rice codes.
pub const RAW_K: u8 = 0xFF;

/// Number of layers.
pub const N_LAYERS: usize = 7;

/// Number of channels, which is also the number of biases.
pub const N_CHANNELS: usize = 304;

/// Number of input features.
pub const N_IN: usize = 6;

/// Widths of the input, of the six hidden layers and of the output.
pub open spec fn dims() -> Seq<nat> {
    seq![6nat, 32, 32, 32, 48, 64, 80, 16]
}

/// Width number `i`.
pub fn dim(i: usize) -> (r: usize)
    requires
        i <= N_LAYERS,
    ensures
        r == dims()[i as int],
{
    let widths: [usize; 8] = [6, 32, 32, 32, 48, 64, 80, 16];
    widths[i]
}

/// The first channel of layer `l`.
pub open spec fn layer_start(l: int) -> int
    decreases l,
{
    if l <= 0 {
        0
    } else {
        layer_start(l - 1) + dims()[l]
    }
}

/// The layer of a channel.
pub open spec fn layer_of(ch: int) -> int {
    if ch < 32 {
        0
    } else if ch < 64 {
        1
    } else if ch < 96 {
        2
    } else if ch < 144 {
        3
    } else if ch < 208 {
        4
    } else if ch < 288 {
        5
    } else {
        6
    }
}

/// Number of weights of a channel.
pub open spec fn fan_in(ch: int) -> nat {
    dims()[layer_of(ch)]
}

/// Where the layers start, and that a channel belongs to the layer in whose range it lies.
pub proof fn lemma_layers()
    ensures
        layer_start(0) == 0,
        layer_start(1) == 32,
        layer_start(2) == 64,
        layer_start(3) == 96,
        layer_start(4) == 144,
        layer_start(5) == 208,
        layer_start(6) == 288,
        layer_start(7) == N_CHANNELS,
        forall|l: int, c: int|
            0 <= l < N_LAYERS && 0 <= c < dims()[l + 1] ==> layer_of(#[trigger] (layer_start(l) + c)) == l,
{
    reveal_with_fuel(layer_start, 8);
    assert forall|l: int, c: int| 0 <= l < N_LAYERS && 0 <= c < dims()[l + 1] implies layer_of(
        #[trigger] (layer_start(l) + c),
    ) == l by {
        assert(l == 0 || l == 1 || l == 2 || l == 3 || l == 4 || l == 5 || l == 6);
    }
}

/// The first channel of layer `l`.
pub fn first_channel(l: usize) -> (r: usize)
    requires
        l <= N_LAYERS,
    ensures
        r == layer_start(l as int),
{
    proof {
        lemma_layers();
    }
    let starts: [usize; 8] = [0, 32, 64, 96, 144, 208, 288, 304];
    starts[l]
}

// ----------------------------------------------------------------------------
// Sections
// ----------------------------------------------------------------------------

/// Little-endian 16-bit number at an offset.
pub open spec fn u16_at(d: Seq<u8>, o: int) -> u16 {
    (d[o] + 0x100 * d[o + 1]) as u16
}

/// Little-endian 32-bit number at an offset.
pub open spec fn u32_at(d: Seq<u8>, o: int) -> u32 {
    (d[o] + 0x100 * d[o + 1] + 0x1_0000 * d[o + 2] + 0x100_0000 * d[o + 3]) as u32
}

/// Quantization of one channel.
#[derive(Clone, Copy, Debug, PartialEq, Eq, Structural)]
pub struct Channel {
    /// The quantization step, a half.
    pub scale: u16,
    /// The Rice parameter, or [`RAW_K`].
    pub k: u8,
}

/// The sections of a container.
pub struct Container {
    pub channels: Seq<Channel>,
    pub halves: Seq<u16>,
    pub floats: Seq<u32>,
    pub payload: Seq<u8>,
}

/// The sections that a byte sequence is divided into, where it starts with the magic number and is
/// long enough for the counts in it.
pub open spec fn container(d: Seq<u8>) -> Option<Container> {
    let n_ch = u32_at(d, 4);
    let o16 = 8 + 3 * n_ch;
    let n_f16 = u32_at(d, o16);
    let o32 = o16 + 4 + 2 * n_f16;
    let n_f32 = u32_at(d, o32);
    let off = o32 + 4 + 4 * n_f32;
    if d.len() >= 8 && u32_at(d, 0) == MAGIC && d.len() >= o16 + 4 && d.len() >= o32 + 4 && d.len() >= off {
        Some(
            Container {
                channels: Seq::new(
                    n_ch as nat,
                    |i: int| Channel { scale: u16_at(d, 8 + 3 * i), k: d[8 + 3 * i + 2] },
                ),
                halves: Seq::new(n_f16 as nat, |i: int| u16_at(d, o16 + 4 + 2 * i)),
                floats: Seq::new(n_f32 as nat, |i: int| u32_at(d, o32 + 4 + 4 * i)),
                payload: d.skip(off),
            },
        )
    } else {
        None
    }
}

/// Read a little-endian 16-bit number.
fn read_u16(d: &[u8], o: usize) -> (r: u16)
    requires
        o + 2 <= d@.len(),
    ensures
        r == u16_at(d@, o as int),
{
    d[o] as u16 + 0x100 * (d[o + 1] as u16)
}

/// Read a little-endian 32-bit number.
fn read_u32(d: &[u8], o: usize) -> (r: u32)
    requires
        o + 4 <= d@.len(),
    ensures
        r == u32_at(d@, o as int),
{
    d[o] as u32 + 0x100 * (d[o + 1] as u32) + 0x1_0000 * (d[o + 2] as u32) + 0x100_0000 * (d[o + 3] as u32)
}

/// Sections read from a container, with the offset of the payload.
struct Sections {
    channels: Vec<Channel>,
    halves: Vec<u16>,
    floats: Vec<u32>,
    off: usize,
}

/// Read the sections of a container.
fn read_sections(d: &[u8]) -> (r: Option<Sections>)
    ensures
        r is Some == container(d@) is Some,
        r matches Some(s) ==> {
            let c = container(d@).unwrap();
            &&& s.channels@ == c.channels
            &&& s.halves@ == c.halves
            &&& s.floats@ == c.floats
            &&& s.off <= d@.len()
            &&& d@.skip(s.off as int) == c.payload
        },
{
    let n: usize = d.len();
    if n < 8 || read_u32(d, 0) != MAGIC {
        return None;
    }
    let n_ch: usize = read_u32(d, 4) as usize;
    if (n - 8) / 3 < n_ch || n - 8 - 3 * n_ch < 4 {
        return None;
    }
    let o16: usize = 8 + 3 * n_ch;
    let n_f16: usize = read_u32(d, o16) as usize;
    if (n - o16 - 4) / 2 < n_f16 || n - o16 - 4 - 2 * n_f16 < 4 {
        return None;
    }
    let o32: usize = o16 + 4 + 2 * n_f16;
    let n_f32: usize = read_u32(d, o32) as usize;
    if (n - o32 - 4) / 4 < n_f32 {
        return None;
    }
    let off: usize = o32 + 4 + 4 * n_f32;
    let ghost c = container(d@).unwrap();

    let mut channels: Vec<Channel> = Vec::new();
    for i in 0..n_ch
        invariant
            n == d@.len(),
            8 + 3 * n_ch <= n,
            c.channels.len() == n_ch,
            forall|j: int|
                0 <= j < n_ch ==> #[trigger] c.channels[j] == (Channel {
                    scale: u16_at(d@, 8 + 3 * j),
                    k: d@[8 + 3 * j + 2],
                }),
            channels@ == c.channels.take(i as int),
    {
        let o: usize = 8 + 3 * i;
        channels.push(Channel { scale: read_u16(d, o), k: d[o + 2] });
        assert(c.channels.take(i + 1) =~= c.channels.take(i as int).push(c.channels[i as int]));
    }
    let mut halves: Vec<u16> = Vec::new();
    for i in 0..n_f16
        invariant
            n == d@.len(),
            o16 + 4 + 2 * n_f16 <= n,
            c.halves.len() == n_f16,
            forall|j: int| 0 <= j < n_f16 ==> #[trigger] c.halves[j] == u16_at(d@, o16 + 4 + 2 * j),
            halves@ == c.halves.take(i as int),
    {
        halves.push(read_u16(d, o16 + 4 + 2 * i));
        assert(c.halves.take(i + 1) =~= c.halves.take(i as int).push(c.halves[i as int]));
    }
    let mut floats: Vec<u32> = Vec::new();
    for i in 0..n_f32
        invariant
            n == d@.len(),
            o32 + 4 + 4 * n_f32 <= n,
            c.floats.len() == n_f32,
            forall|j: int| 0 <= j < n_f32 ==> #[trigger] c.floats[j] == u32_at(d@, o32 + 4 + 4 * j),
            floats@ == c.floats.take(i as int),
    {
        floats.push(read_u32(d, o32 + 4 + 4 * i));
        assert(c.floats.take(i + 1) =~= c.floats.take(i as int).push(c.floats[i as int]));
    }
    assert(c.channels.take(n_ch as int) =~= c.channels);
    assert(c.halves.take(n_f16 as int) =~= c.halves);
    assert(c.floats.take(n_f32 as int) =~= c.floats);
    Some(Sections { channels, halves, floats, off })
}

// ----------------------------------------------------------------------------
// Weights
// ----------------------------------------------------------------------------

/// One weight as it is stored.
#[derive(Clone, Copy, Debug, PartialEq, Eq, Structural)]
pub enum Weight {
    /// A half.
    Raw(u16),
    /// A number of quantization steps, and the step, a half.
    Steps(i32, u16),
}

/// What is left to be read: the bits of the payload, and the halves behind the biases.
pub struct Cursor {
    pub bits: Seq<bool>,
    pub halves: Seq<u16>,
}

/// The next weight of a channel, and what is left behind it.
pub open spec fn next_weight(ch: Channel, cur: Cursor) -> Option<(Weight, Cursor)> {
    if ch.k == RAW_K {
        if cur.halves.len() == 0 {
            None
        } else {
            Some((Weight::Raw(cur.halves[0]), Cursor { bits: cur.bits, halves: cur.halves.drop_first() }))
        }
    } else {
        match rice_code(cur.bits, ch.k as nat) {
            None => None,
            Some((z, len)) => Some(
                (
                    Weight::Steps(zigzag_value(z as int) as i32, ch.scale),
                    Cursor { bits: cur.bits.skip(len as int), halves: cur.halves },
                ),
            ),
        }
    }
}

/// The next `n` weights of a channel, and what is left behind them.
pub open spec fn next_row(ch: Channel, n: nat, cur: Cursor) -> Option<(Seq<Weight>, Cursor)>
    decreases n,
{
    if n == 0 {
        Some((Seq::empty(), cur))
    } else {
        match next_row(ch, (n - 1) as nat, cur) {
            None => None,
            Some((row, mid)) => match next_weight(ch, mid) {
                None => None,
                Some((w, end)) => Some((row.push(w), end)),
            },
        }
    }
}

/// The weights of the first `n` channels, one row per channel, and what is left behind them.
pub open spec fn next_rows(channels: Seq<Channel>, n: nat, cur: Cursor) -> Option<(Seq<Seq<Weight>>, Cursor)>
    decreases n,
{
    if n == 0 {
        Some((Seq::empty(), cur))
    } else {
        match next_rows(channels, (n - 1) as nat, cur) {
            None => None,
            Some((rows, mid)) => match next_row(channels[n - 1], fan_in(n - 1), mid) {
                None => None,
                Some((row, end)) => Some((rows.push(row), end)),
            },
        }
    }
}

/// What a container says of a network: one row of weights and one bias per channel, and the section
/// of binary32 bit patterns.
pub struct Quantized {
    pub rows: Seq<Seq<Weight>>,
    pub biases: Seq<u16>,
    pub floats: Seq<u32>,
}

/// All halves are finite numbers.
pub open spec fn all_finite(halves: Seq<u16>) -> bool {
    forall|i: int| 0 <= i < halves.len() ==> #[trigger] f16_finite(halves[i])
}

/// The scales of all channels are finite numbers.
pub open spec fn all_scales_finite(channels: Seq<Channel>) -> bool {
    forall|i: int| 0 <= i < channels.len() ==> f16_finite((#[trigger] channels[i]).scale)
}

/// The network of the sections of a container. There is one where the channels are those of the
/// layers, all halves are finite, the input statistics are there, and the payload and the halves
/// give every weight, with no half left over.
pub open spec fn quantized(c: Container) -> Option<Quantized> {
    let cur = Cursor { bits: bits_from(c.payload, 0), halves: c.halves.skip(N_CHANNELS as int) };
    if c.channels.len() == N_CHANNELS && all_scales_finite(c.channels) && c.halves.len() >= N_CHANNELS
        && all_finite(c.halves) && c.floats.len() >= 2 * N_IN {
        match next_rows(c.channels, N_CHANNELS as nat, cur) {
            None => None,
            Some((rows, end)) => if end.halves.len() == 0 {
                Some(Quantized { rows, biases: c.halves.take(N_CHANNELS as int), floats: c.floats })
            } else {
                None
            },
        }
    } else {
        None
    }
}

/// The network that a byte sequence holds.
pub open spec fn decoded(d: Seq<u8>) -> Option<Quantized> {
    match container(d) {
        None => None,
        Some(c) => quantized(c),
    }
}

/// A network read from a container.
#[derive(Clone, Debug)]
pub struct QuantizedNet {
    pub rows: Vec<Vec<Weight>>,
    pub biases: Vec<u16>,
    pub floats: Vec<u32>,
}

/// Rows as sequences.
pub open spec fn row_views(rows: Seq<Vec<Weight>>) -> Seq<Seq<Weight>> {
    Seq::new(rows.len(), |i: int| rows[i]@)
}

impl View for QuantizedNet {
    type V = Quantized;

    open spec fn view(&self) -> Quantized {
        Quantized { rows: row_views(self.rows@), biases: self.biases@, floats: self.floats@ }
    }
}

/// Why a byte sequence holds no network.
#[derive(Clone, Copy, Debug, PartialEq, Eq, Structural)]
pub enum BlobError {
    /// It does not start with the magic number.
    BadMagic,
    /// It starts with the magic number, and what follows is cut short or contradicts itself.
    Malformed,
}

/// Whether a half is a finite number.
fn is_finite(h: u16) -> (r: bool)
    ensures
        r == f16_finite(h),
{
    (h / 1024) % 32 != 31
}

/// Reads weights from the payload and from the raw halves.
struct WeightReader<'a> {
    bits: BitReader<'a>,
    halves: &'a Vec<u16>,
    pos: usize,
}

impl<'a> WeightReader<'a> {
    spec fn wf(&self) -> bool {
        self.pos <= self.halves@.len()
    }

    spec fn cursor(&self) -> Cursor {
        Cursor { bits: self.bits.rest(), halves: self.halves@.skip(self.pos as int) }
    }

    /// Read the next weight of a channel.
    fn next_weight(&mut self, ch: Channel) -> (r: Option<Weight>)
        requires
            old(self).wf(),
        ensures
            final(self).wf(),
            final(self).halves == old(self).halves,
            match next_weight(ch, old(self).cursor()) {
                None => r is None,
                Some((w, end)) => r == Some(w) && final(self).cursor() == end,
            },
    {
        let ghost cur = self.cursor();
        if ch.k == RAW_K {
            if self.pos == self.halves.len() {
                return None;
            }
            let h: u16 = self.halves[self.pos];
            self.pos = self.pos + 1;
            assert(self.cursor().halves =~= cur.halves.drop_first());
            Some(Weight::Raw(h))
        } else {
            let k: u32 = ch.k as u32;
            if !self.bits.has_code(k) {
                return None;
            }
            let z: u32 = rice_decode(&mut self.bits, k);
            Some(Weight::Steps(unzigzag(z), ch.scale))
        }
    }

    /// Read the next `n` weights of a channel.
    fn next_row(&mut self, ch: Channel, n: usize) -> (r: Option<Vec<Weight>>)
        requires
            old(self).wf(),
        ensures
            final(self).wf(),
            final(self).halves == old(self).halves,
            match next_row(ch, n as nat, old(self).cursor()) {
                None => r is None,
                Some((row, end)) => r matches Some(v) && v@ == row && final(self).cursor() == end,
            },
    {
        let ghost cur = self.cursor();
        let mut row: Vec<Weight> = Vec::new();
        let mut i: usize = 0;
        while i < n
            invariant
                i <= n,
                self.wf(),
                self.halves == old(self).halves,
                cur == old(self).cursor(),
                next_row(ch, i as nat, cur) == Some((row@, self.cursor())),
            decreases n - i,
        {
            match self.next_weight(ch) {
                None => {
                    proof {
                        lemma_row_stuck(ch, (i + 1) as nat, n as nat, cur);
                    }
                    return None;
                },
                Some(w) => {
                    row.push(w);
                },
            }
            i = i + 1;
        }
        Some(row)
    }
}

/// Where `m` weights cannot be read, neither can more.
proof fn lemma_row_stuck(ch: Channel, m: nat, n: nat, cur: Cursor)
    requires
        m <= n,
        next_row(ch, m, cur) is None,
    ensures
        next_row(ch, n, cur) is None,
    decreases n,
{
    if m < n {
        lemma_row_stuck(ch, m, (n - 1) as nat, cur);
    }
}

/// Where the rows of `m` channels cannot be read, neither can those of more.
proof fn lemma_rows_stuck(channels: Seq<Channel>, m: nat, n: nat, cur: Cursor)
    requires
        m <= n,
        next_rows(channels, m, cur) is None,
    ensures
        next_rows(channels, n, cur) is None,
    decreases n,
{
    if m < n {
        lemma_rows_stuck(channels, m, (n - 1) as nat, cur);
    }
}

/// Number of weights of a channel.
fn channel_fan_in(ch: usize) -> (r: usize)
    ensures
        r == fan_in(ch as int),
{
    if ch < 32 {
        6
    } else if ch < 144 {
        32
    } else if ch < 208 {
        48
    } else if ch < 288 {
        64
    } else {
        80
    }
}

/// Read a network from a container.
pub fn parse(blob: &[u8]) -> (r: Result<QuantizedNet, BlobError>)
    requires
        8 * blob@.len() <= usize::MAX,
    ensures
        match r {
            Ok(net) => decoded(blob@) == Some(net@),
            Err(BlobError::BadMagic) => blob@.len() < 4 || u32_at(blob@, 0) != MAGIC,
            Err(BlobError::Malformed) => blob@.len() >= 4 && u32_at(blob@, 0) == MAGIC && decoded(blob@) is None,
        },
{
    if blob.len() < 4 || read_u32(blob, 0) != MAGIC {
        return Err(BlobError::BadMagic);
    }
    let sections = match read_sections(blob) {
        None => {
            return Err(BlobError::Malformed);
        },
        Some(s) => s,
    };
    let ghost c = container(blob@).unwrap();
    if sections.channels.len() != N_CHANNELS || sections.halves.len() < N_CHANNELS || sections.floats.len()
        < 2 * N_IN {
        return Err(BlobError::Malformed);
    }
    for i in 0..N_CHANNELS
        invariant
            sections.channels@ == c.channels,
            c.channels.len() == N_CHANNELS,
            decoded(blob@) == quantized(c),
            blob@.len() >= 4,
            u32_at(blob@, 0) == MAGIC,
            forall|j: int| 0 <= j < i ==> f16_finite((#[trigger] c.channels[j]).scale),
    {
        if !is_finite(sections.channels[i].scale) {
            return Err(BlobError::Malformed);
        }
    }
    let n_f16: usize = sections.halves.len();
    for i in 0..n_f16
        invariant
            sections.halves@ == c.halves,
            c.halves.len() == n_f16,
            decoded(blob@) == quantized(c),
            blob@.len() >= 4,
            u32_at(blob@, 0) == MAGIC,
            forall|j: int| 0 <= j < i ==> #[trigger] f16_finite(c.halves[j]),
    {
        if !is_finite(sections.halves[i]) {
            return Err(BlobError::Malformed);
        }
    }
    let payload: &[u8] = vstd::slice::slice_subrange(blob, sections.off, blob.len());
    assert(payload@ =~= c.payload);
    let mut reader = WeightReader { bits: BitReader::new(payload), halves: &sections.halves, pos: N_CHANNELS };
    let ghost start = reader.cursor();
    let mut rows: Vec<Vec<Weight>> = Vec::new();
    let mut ch: usize = 0;
    assert(row_views(rows@) =~= Seq::empty());
    while ch < N_CHANNELS
        invariant
            ch <= N_CHANNELS,
            sections.channels@ == c.channels,
            c.channels.len() == N_CHANNELS,
            decoded(blob@) == quantized(c),
            blob@.len() >= 4,
            u32_at(blob@, 0) == MAGIC,
            start == (Cursor { bits: bits_from(c.payload, 0), halves: c.halves.skip(N_CHANNELS as int) }),
            reader.wf(),
            reader.halves@ == c.halves,
            next_rows(c.channels, ch as nat, start) == Some((row_views(rows@), reader.cursor())),
        decreases N_CHANNELS - ch,
    {
        let n: usize = channel_fan_in(ch);
        match reader.next_row(sections.channels[ch], n) {
            None => {
                proof {
                    lemma_rows_stuck(c.channels, (ch + 1) as nat, N_CHANNELS as nat, start);
                }
                return Err(BlobError::Malformed);
            },
            Some(row) => {
                let ghost before = row_views(rows@);
                rows.push(row);
                assert(row_views(rows@) =~= before.push(row@));
            },
        }
        ch = ch + 1;
    }
    if reader.pos != n_f16 {
        return Err(BlobError::Malformed);
    }
    let mut biases: Vec<u16> = Vec::new();
    for i in 0..N_CHANNELS
        invariant
            sections.halves@ == c.halves,
            c.halves.len() >= N_CHANNELS,
            biases@ == c.halves.take(i as int),
    {
        biases.push(sections.halves[i]);
        assert(c.halves.take(i + 1) =~= c.halves.take(i as int).push(c.halves[i as int]));
    }
    let net = QuantizedNet { rows, biases, floats: sections.floats };
    assert(net@.biases =~= c.halves.take(N_CHANNELS as int));
    Ok(net)
}

// ----------------------------------------------------------------------------
// What holds of every network that was read
// ----------------------------------------------------------------------------

/// The half of a weight is a finite number.
pub open spec fn weight_finite(w: Weight) -> bool {
    match w {
        Weight::Raw(h) => f16_finite(h),
        Weight::Steps(_, scale) => f16_finite(scale),
    }
}

/// A row per channel with the length of its fan-in, a bias per channel, the input statistics, and
/// finite halves throughout.
pub open spec fn well_formed(q: Quantized) -> bool {
    &&& q.rows.len() == N_CHANNELS
    &&& forall|c: int| 0 <= c < N_CHANNELS ==> (#[trigger] q.rows[c]).len() == fan_in(c)
    &&& forall|c: int, i: int|
        0 <= c < N_CHANNELS && 0 <= i < q.rows[c].len() ==> weight_finite(#[trigger] q.rows[c][i])
    &&& q.biases.len() == N_CHANNELS
    &&& all_finite(q.biases)
    &&& q.floats.len() >= 2 * N_IN
}

proof fn lemma_next_row(ch: Channel, n: nat, cur: Cursor)
    requires
        f16_finite(ch.scale),
        all_finite(cur.halves),
    ensures
        next_row(ch, n, cur) matches Some((row, end)) ==> {
            &&& row.len() == n
            &&& forall|i: int| 0 <= i < n ==> weight_finite(#[trigger] row[i])
            &&& all_finite(end.halves)
        },
    decreases n,
{
    if n > 0 {
        lemma_next_row(ch, (n - 1) as nat, cur);
        if let Some((row, mid)) = next_row(ch, (n - 1) as nat, cur) {
            if let Some((w, end)) = next_weight(ch, mid) {
                if ch.k == RAW_K {
                    assert(weight_finite(w)) by {
                        assert(f16_finite(mid.halves[0]));
                    }
                    assert forall|i: int| 0 <= i < end.halves.len() implies #[trigger] f16_finite(
                        end.halves[i],
                    ) by {
                        assert(f16_finite(mid.halves[i + 1]));
                    }
                }
            }
        }
    }
}

proof fn lemma_next_rows(channels: Seq<Channel>, n: nat, cur: Cursor)
    requires
        n <= channels.len(),
        all_scales_finite(channels),
        all_finite(cur.halves),
    ensures
        next_rows(channels, n, cur) matches Some((rows, end)) ==> {
            &&& rows.len() == n
            &&& forall|c: int| 0 <= c < n ==> (#[trigger] rows[c]).len() == fan_in(c)
            &&& forall|c: int, i: int|
                0 <= c < n && 0 <= i < rows[c].len() ==> weight_finite(#[trigger] rows[c][i])
            &&& all_finite(end.halves)
        },
    decreases n,
{
    if n > 0 {
        lemma_next_rows(channels, (n - 1) as nat, cur);
        if let Some((rows, mid)) = next_rows(channels, (n - 1) as nat, cur) {
            lemma_next_row(channels[n - 1], fan_in(n - 1), mid);
        }
    }
}

/// Whatever is read from a container is well-formed.
pub proof fn law_decoded_well_formed(d: Seq<u8>)
    ensures
        decoded(d) matches Some(q) ==> well_formed(q),
{
    if let Some(c) = container(d) {
        if let Some(q) = quantized(c) {
            let cur = Cursor { bits: bits_from(c.payload, 0), halves: c.halves.skip(N_CHANNELS as int) };
            assert forall|i: int| 0 <= i < cur.halves.len() implies #[trigger] f16_finite(cur.halves[i]) by {
                assert(f16_finite(c.halves[i + N_CHANNELS]));
            }
            assert forall|i: int| 0 <= i < q.biases.len() implies #[trigger] f16_finite(q.biases[i]) by {
                assert(f16_finite(c.halves[i]));
            }
            lemma_next_rows(c.channels, N_CHANNELS as nat, cur);
        }
    }
}

} // verus!
