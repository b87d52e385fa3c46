//! Expansion-chip aware channel layout.
//!
//! The `EXPANSION` header is a bitfield: 1=VRC6, 2=VRC7, 4=FDS, 8=MMC5,
//! 16=N163, 32=S5B. FamiTracker always lays channels out in that same order
//! after the five 2A03 channels, so the full channel map can be reconstructed
//! from the header alone.
use vstd::prelude::*;

use crate::text::{decimal, digit_char, push_char, push_decimal};

verus! {

/// Logical type of a single exported channel.
#[derive(Debug, Clone, Copy, PartialEq, Eq, Structural)]
pub enum ChannelKind {
    Square1,
    Square2,
    Triangle,
    Noise,
    Dpcm,
    Vrc6Square1,
    Vrc6Square2,
    Vrc6Saw,
    Vrc7Fm(u8),
    Fds,
    Mmc5Square1,
    Mmc5Square2,
    Mmc5Dpcm,
    N163(u8),
    S5bSquare1,
    S5bSquare2,
    S5bSquare3,
}

/// The label of a channel, as written into the MIDI track name.
pub open spec fn channel_label(k: ChannelKind) -> Seq<char> {
    match k {
        ChannelKind::Square1 => "Square 1"@,
        ChannelKind::Square2 => "Square 2"@,
        ChannelKind::Triangle => "Triangle"@,
        ChannelKind::Noise => "Noise"@,
        ChannelKind::Dpcm => "DPCM"@,
        ChannelKind::Vrc6Square1 => "VRC6 Square 1"@,
        ChannelKind::Vrc6Square2 => "VRC6 Square 2"@,
        ChannelKind::Vrc6Saw => "VRC6 Sawtooth"@,
        ChannelKind::Vrc7Fm(n) => "VRC7 FM "@ + decimal((n + 1) as nat),
        ChannelKind::Fds => "FDS"@,
        ChannelKind::Mmc5Square1 => "MMC5 Square 1"@,
        ChannelKind::Mmc5Square2 => "MMC5 Square 2"@,
        ChannelKind::Mmc5Dpcm => "MMC5 PCM"@,
        ChannelKind::N163(n) => "N163 Wave "@ + decimal((n + 1) as nat),
        ChannelKind::S5bSquare1 => "5B Square 1"@,
        ChannelKind::S5bSquare2 => "5B Square 2"@,
        ChannelKind::S5bSquare3 => "5B Square 3"@,
    }
}

/// Channels routed to the GM percussion channel.
pub open spec fn channel_is_percussion(k: ChannelKind) -> bool {
    k is Noise || k is Dpcm || k is Mmc5Dpcm
}

/// The General MIDI program of a melodic channel.
pub open spec fn channel_program(k: ChannelKind) -> Option<u8> {
    match k {
        ChannelKind::Square1 => Some(80u8),
        ChannelKind::Square2 => Some(81u8),
        ChannelKind::Triangle => Some(73u8),
        ChannelKind::Vrc6Square1 => Some(80u8),
        ChannelKind::Vrc6Square2 => Some(81u8),
        ChannelKind::Vrc6Saw => Some(81u8),
        ChannelKind::Vrc7Fm(_) => Some(81u8),
        ChannelKind::Fds => Some(81u8),
        ChannelKind::Mmc5Square1 => Some(80u8),
        ChannelKind::Mmc5Square2 => Some(81u8),
        ChannelKind::N163(_) => Some(80u8),
        ChannelKind::S5bSquare1 => Some(80u8),
        ChannelKind::S5bSquare2 => Some(81u8),
        ChannelKind::S5bSquare3 => Some(80u8),
        _ => None,
    }
}

impl ChannelKind {
    /// Whether the label can be formed: the channel number shown is the
    /// index plus one, which must stay within a byte.
    pub open spec fn label_defined(self) -> bool {
        match self {
            ChannelKind::Vrc7Fm(n) => n < 255,
            ChannelKind::N163(n) => n < 255,
            _ => true,
        }
    }

    /// Human readable channel label, used for MIDI track names.
    pub fn label(&self) -> (s: String)
        requires
            self.label_defined(),
        ensures
            s@ == channel_label(*self),
    {
        match self {
            ChannelKind::Square1 => String::from_str("Square 1"),
            ChannelKind::Square2 => String::from_str("Square 2"),
            ChannelKind::Triangle => String::from_str("Triangle"),
            ChannelKind::Noise => String::from_str("Noise"),
            ChannelKind::Dpcm => String::from_str("DPCM"),
            ChannelKind::Vrc6Square1 => String::from_str("VRC6 Square 1"),
            ChannelKind::Vrc6Square2 => String::from_str("VRC6 Square 2"),
            ChannelKind::Vrc6Saw => String::from_str("VRC6 Sawtooth"),
            ChannelKind::Vrc7Fm(n) => {
                let mut s = String::from_str("VRC7 FM ");
                push_decimal(&mut s, (*n + 1) as u64);
                s
            },
            ChannelKind::Fds => String::from_str("FDS"),
            ChannelKind::Mmc5Square1 => String::from_str("MMC5 Square 1"),
            ChannelKind::Mmc5Square2 => String::from_str("MMC5 Square 2"),
            ChannelKind::Mmc5Dpcm => String::from_str("MMC5 PCM"),
            ChannelKind::N163(n) => {
                let mut s = String::from_str("N163 Wave ");
                push_decimal(&mut s, (*n + 1) as u64);
                s
            },
            ChannelKind::S5bSquare1 => String::from_str("5B Square 1"),
            ChannelKind::S5bSquare2 => String::from_str("5B Square 2"),
            ChannelKind::S5bSquare3 => String::from_str("5B Square 3"),
        }
    }

    /// Channels routed to the GM percussion channel (MIDI channel 10).
    pub fn is_percussion(&self) -> (b: bool)
        ensures
            b == channel_is_percussion(*self),
    {
        match self {
            ChannelKind::Noise | ChannelKind::Dpcm | ChannelKind::Mmc5Dpcm => true,
            _ => false,
        }
    }

    /// General MIDI program for melodic channels; `None` for percussion.
    pub fn program(&self) -> (p: Option<u8>)
        ensures
            p == channel_program(*self),
    {
        let program = match self {
            ChannelKind::Square1 => 80,
            ChannelKind::Square2 => 81,
            ChannelKind::Triangle => 73,
            ChannelKind::Vrc6Square1 => 80,
            ChannelKind::Vrc6Square2 => 81,
            ChannelKind::Vrc6Saw => 81,
            ChannelKind::Vrc7Fm(_) => 81,
            ChannelKind::Fds => 81,
            ChannelKind::Mmc5Square1 => 80,
            ChannelKind::Mmc5Square2 => 81,
            ChannelKind::N163(_) => 80,
            ChannelKind::S5bSquare1 => 80,
            ChannelKind::S5bSquare2 => 81,
            ChannelKind::S5bSquare3 => 80,
            ChannelKind::Noise | ChannelKind::Dpcm | ChannelKind::Mmc5Dpcm => return None,
        };
        Some(program)
    }
}

/// A channel is routed to percussion exactly when it has no melodic program.
pub proof fn lemma_percussion_iff_no_program(k: ChannelKind)
    ensures
        channel_is_percussion(k) <==> channel_program(k) is None,
{
}

/// Whether bit `b` of the expansion bitfield is set.
pub open spec fn has_chip(expansion: u8, b: nat) -> bool {
    (expansion as nat / vstd::arithmetic::power2::pow2(b)) % 2 == 1
}

/// Number of N163 channels: 0 means "not specified" and stands for 8; more
/// than 8 is capped at 8.
pub open spec fn n163_count(n163_channels: u8) -> nat {
    if n163_channels == 0 {
        8
    } else if n163_channels < 8 {
        n163_channels as nat
    } else {
        8
    }
}

/// The five 2A03 channels.
pub open spec fn base_channels() -> Seq<ChannelKind> {
    seq![
        ChannelKind::Square1,
        ChannelKind::Square2,
        ChannelKind::Triangle,
        ChannelKind::Noise,
        ChannelKind::Dpcm,
    ]
}

/// The channels that chip `b` of the bitfield adds.
pub open spec fn chip_channels(b: nat, n163_channels: u8) -> Seq<ChannelKind> {
    if b == 0 {
        seq![ChannelKind::Vrc6Square1, ChannelKind::Vrc6Square2, ChannelKind::Vrc6Saw]
    } else if b == 1 {
        Seq::new(6, |i: int| ChannelKind::Vrc7Fm(i as u8))
    } else if b == 2 {
        seq![ChannelKind::Fds]
    } else if b == 3 {
        seq![ChannelKind::Mmc5Square1, ChannelKind::Mmc5Square2, ChannelKind::Mmc5Dpcm]
    } else if b == 4 {
        Seq::new(n163_count(n163_channels), |i: int| ChannelKind::N163(i as u8))
    } else {
        seq![ChannelKind::S5bSquare1, ChannelKind::S5bSquare2, ChannelKind::S5bSquare3]
    }
}

/// The channels of chip `b` when the bitfield enables it, else none.
pub open spec fn chip_part(expansion: u8, b: nat, n163_channels: u8) -> Seq<ChannelKind> {
    if has_chip(expansion, b) {
        chip_channels(b, n163_channels)
    } else {
        seq![]
    }
}

/// The channel layout: the 2A03 channels, then VRC6, VRC7, FDS, MMC5, N163
/// and 5B channels, each where its bit is set.
pub open spec fn layout(expansion: u8, n163_channels: u8) -> Seq<ChannelKind> {
    base_channels() + chip_part(expansion, 0, n163_channels) + chip_part(expansion, 1, n163_channels)
        + chip_part(expansion, 2, n163_channels) + chip_part(expansion, 3, n163_channels) + chip_part(
        expansion,
        4,
        n163_channels,
    ) + chip_part(expansion, 5, n163_channels)
}

proof fn lemma_bits(e: u8)
    ensures
        ((e & 0x01u8) != 0) == has_chip(e, 0),
        ((e & 0x02u8) != 0) == has_chip(e, 1),
        ((e & 0x04u8) != 0) == has_chip(e, 2),
        ((e & 0x08u8) != 0) == has_chip(e, 3),
        ((e & 0x10u8) != 0) == has_chip(e, 4),
        ((e & 0x20u8) != 0) == has_chip(e, 5),
{
    vstd::arithmetic::power2::lemma2_to64();
    assert(((e & 0x01u8) != 0) == (e % 2 == 1)) by (bit_vector);
    assert(((e & 0x02u8) != 0) == ((e / 2) % 2 == 1)) by (bit_vector);
    assert(((e & 0x04u8) != 0) == ((e / 4) % 2 == 1)) by (bit_vector);
    assert(((e & 0x08u8) != 0) == ((e / 8) % 2 == 1)) by (bit_vector);
    assert(((e & 0x10u8) != 0) == ((e / 16) % 2 == 1)) by (bit_vector);
    assert(((e & 0x20u8) != 0) == ((e / 32) % 2 == 1)) by (bit_vector);
}

/// Appends the channels of chip `b`.
fn push_chip(v: &mut Vec<ChannelKind>, b: u8, n163_channels: u8)
    requires
        b < 6,
    ensures
        final(v)@ == old(v)@ + chip_channels(b as nat, n163_channels),
{
    let ghost before = v@;
    if b == 0 {
        v.push(ChannelKind::Vrc6Square1);
        v.push(ChannelKind::Vrc6Square2);
        v.push(ChannelKind::Vrc6Saw);
    } else if b == 1 {
        for i in 0..6u8
            invariant
                v@ == before + Seq::new(i as nat, |j: int| ChannelKind::Vrc7Fm(j as u8)),
        {
            v.push(ChannelKind::Vrc7Fm(i));
            assert(v@ =~= before + Seq::new((i + 1) as nat, |j: int| ChannelKind::Vrc7Fm(j as u8)));
        }
    } else if b == 2 {
        v.push(ChannelKind::Fds);
    } else if b == 3 {
        v.push(ChannelKind::Mmc5Square1);
        v.push(ChannelKind::Mmc5Square2);
        v.push(ChannelKind::Mmc5Dpcm);
    } else if b == 4 {
        let count = if n163_channels == 0 {
            8
        } else if n163_channels < 8 {
            n163_channels
        } else {
            8
        };
        for i in 0..count
            invariant
                count as nat == n163_count(n163_channels),
                v@ == before + Seq::new(i as nat, |j: int| ChannelKind::N163(j as u8)),
        {
            v.push(ChannelKind::N163(i));
            assert(v@ =~= before + Seq::new((i + 1) as nat, |j: int| ChannelKind::N163(j as u8)));
        }
    } else {
        v.push(ChannelKind::S5bSquare1);
        v.push(ChannelKind::S5bSquare2);
        v.push(ChannelKind::S5bSquare3);
    }
    assert(v@ =~= before + chip_channels(b as nat, n163_channels));
}

/// Appends the channels of chip `b` when its bit is set.
fn push_chip_if(v: &mut Vec<ChannelKind>, set: bool, b: u8, expansion: u8, n163_channels: u8)
    requires
        b < 6,
        set == has_chip(expansion, b as nat),
    ensures
        final(v)@ == old(v)@ + chip_part(expansion, b as nat, n163_channels),
{
    if set {
        push_chip(v, b, n163_channels);
    } else {
        assert(v@ =~= old(v)@ + chip_part(expansion, b as nat, n163_channels));
    }
}

/// Build the channel layout for an expansion bitfield + N163 channel count.
pub fn channel_layout(expansion: u8, n163_channels: u8) -> (v: Vec<ChannelKind>)
    ensures
        v@ == layout(expansion, n163_channels),
{
    proof {
        lemma_bits(expansion);
    }
    let mut layout_v = vec![
        ChannelKind::Square1,
        ChannelKind::Square2,
        ChannelKind::Triangle,
        ChannelKind::Noise,
        ChannelKind::Dpcm,
    ];
    assert(layout_v@ =~= base_channels());
    push_chip_if(&mut layout_v, expansion & 0x01 != 0, 0, expansion, n163_channels);
    push_chip_if(&mut layout_v, expansion & 0x02 != 0, 1, expansion, n163_channels);
    push_chip_if(&mut layout_v, expansion & 0x04 != 0, 2, expansion, n163_channels);
    push_chip_if(&mut layout_v, expansion & 0x08 != 0, 3, expansion, n163_channels);
    push_chip_if(&mut layout_v, expansion & 0x10 != 0, 4, expansion, n163_channels);
    push_chip_if(&mut layout_v, expansion & 0x20 != 0, 5, expansion, n163_channels);
    layout_v
}

/// The names of the chips that the bitfield enables, in bit order.
pub open spec fn chip_names(expansion: u8) -> Seq<Seq<char>> {
    (if has_chip(expansion, 0) { seq!["VRC6"@] } else { seq![] }) + (if has_chip(expansion, 1) {
        seq!["VRC7"@]
    } else {
        seq![]
    }) + (if has_chip(expansion, 2) { seq!["FDS"@] } else { seq![] }) + (if has_chip(expansion, 3) {
        seq!["MMC5"@]
    } else {
        seq![]
    }) + (if has_chip(expansion, 4) { seq!["N163"@] } else { seq![] }) + (if has_chip(expansion, 5) {
        seq!["5B"@]
    } else {
        seq![]
    })
}

/// The items of `list` joined with `','` between them.
pub open spec fn join_commas(list: Seq<Seq<char>>) -> Seq<char>
    decreases list.len(),
{
    if list.len() == 0 {
        seq![]
    } else if list.len() == 1 {
        list[0]
    } else {
        join_commas(list.drop_last()) + seq![','] + list.last()
    }
}

/// `"none"` when no chip is enabled, else the chip names joined with `','`.
pub open spec fn expansion_label(expansion: u8) -> Seq<char> {
    if chip_names(expansion).len() == 0 {
        "none"@
    } else {
        join_commas(chip_names(expansion))
    }
}

fn push_name(s: &mut String, names: Ghost<Seq<Seq<char>>>, first: bool, name: &str) -> (r: Ghost<
    Seq<Seq<char>>,
>)
    requires
        old(s)@ == join_commas(names@),
        first == (names@.len() == 0),
    ensures
        r@ == names@.push(name@),
        final(s)@ == join_commas(r@),
{
    let ghost next = names@.push(name@);
    assert(next.drop_last() =~= names@);
    if !first {
        push_char(s, ',');
        s.append(name);
        assert(s@ =~= join_commas(next));
    } else {
        s.append(name);
        assert(s@ =~= join_commas(next));
    }
    Ghost(next)
}

/// Comma-separated list of the chips enabled by an expansion bitfield.
pub fn expansion_names(expansion: u8) -> (s: String)
    ensures
        s@ == expansion_label(expansion),
{
    proof {
        lemma_bits(expansion);
    }
    let mut names = String::new();
    let mut count: usize = 0;
    let mut listed: Ghost<Seq<Seq<char>>> = Ghost(Seq::empty());
    assert(names@ =~= join_commas(listed@));
    if expansion & 0x01 != 0 {
        assert(listed@.len() == 0);
        listed = push_name(&mut names, listed, count == 0, "VRC6");
        count = count + 1;
    }
    if expansion & 0x02 != 0 {
        listed = push_name(&mut names, listed, count == 0, "VRC7");
        count = count + 1;
    }
    if expansion & 0x04 != 0 {
        listed = push_name(&mut names, listed, count == 0, "FDS");
        count = count + 1;
    }
    if expansion & 0x08 != 0 {
        listed = push_name(&mut names, listed, count == 0, "MMC5");
        count = count + 1;
    }
    if expansion & 0x10 != 0 {
        listed = push_name(&mut names, listed, count == 0, "N163");
        count = count + 1;
    }
    if expansion & 0x20 != 0 {
        listed = push_name(&mut names, listed, count == 0, "5B");
        count = count + 1;
    }
    assert(listed@ =~= chip_names(expansion));
    if count == 0 {
        String::from_str("none")
    } else {
        names
    }
}

proof fn lemma_decimal_len(n: nat)
    ensures
        n < 1000 ==> decimal(n).len() <= 3,
{
    if n < 1000 && n >= 10 {
        if n / 10 >= 10 {
            assert(n / 10 / 10 < 10);
            assert(decimal(n / 10 / 10).len() == 1);
            assert(decimal(n / 10).len() == 2);
        } else {
            assert(decimal(n / 10).len() == 1);
        }
    }
}

/// Every label that can be formed is at most 16 characters long.
pub proof fn lemma_label_len(k: ChannelKind)
    requires
        k.label_defined(),
    ensures
        channel_label(k).len() <= 16,
{
    reveal_strlit("Square 1");
    reveal_strlit("Square 2");
    reveal_strlit("Triangle");
    reveal_strlit("Noise");
    reveal_strlit("DPCM");
    reveal_strlit("VRC6 Square 1");
    reveal_strlit("VRC6 Square 2");
    reveal_strlit("VRC6 Sawtooth");
    reveal_strlit("VRC7 FM ");
    reveal_strlit("FDS");
    reveal_strlit("MMC5 Square 1");
    reveal_strlit("MMC5 Square 2");
    reveal_strlit("MMC5 PCM");
    reveal_strlit("N163 Wave ");
    reveal_strlit("5B Square 1");
    reveal_strlit("5B Square 2");
    reveal_strlit("5B Square 3");
    match k {
        ChannelKind::Vrc7Fm(n) => lemma_decimal_len((n + 1) as nat),
        ChannelKind::N163(n) => lemma_decimal_len((n + 1) as nat),
        _ => {},
    }
}

/// Every channel of a layout has a label.
pub proof fn lemma_layout_labels(expansion: u8, n163_channels: u8, i: int)
    requires
        0 <= i < layout(expansion, n163_channels).len(),
    ensures
        layout(expansion, n163_channels)[i].label_defined(),
{
    let l = layout(expansion, n163_channels);
    assert forall|j: int| 0 <= j < l.len() implies #[trigger] l[j].label_defined() by {
        let a = base_channels();
        let b1 = chip_part(expansion, 0, n163_channels);
        let b2 = chip_part(expansion, 1, n163_channels);
        let b3 = chip_part(expansion, 2, n163_channels);
        let b4 = chip_part(expansion, 3, n163_channels);
        let b5 = chip_part(expansion, 4, n163_channels);
        let b6 = chip_part(expansion, 5, n163_channels);
        assert(forall|x: int| 0 <= x < b2.len() ==> #[trigger] b2[x].label_defined());
        assert(forall|x: int| 0 <= x < b5.len() ==> #[trigger] b5[x].label_defined());
    }
}

/// The number of channels a chip adds when its bit is set.
pub open spec fn chip_width(b: nat, n163_channels: u8) -> nat {
    if b == 0 {
        3
    } else if b == 1 {
        6
    } else if b == 2 {
        1
    } else if b == 3 {
        3
    } else if b == 4 {
        n163_count(n163_channels)
    } else {
        3
    }
}

/// The number of channels a chip contributes to a layout.
pub open spec fn part_width(expansion: u8, b: nat, n163_channels: u8) -> nat {
    if has_chip(expansion, b) {
        chip_width(b, n163_channels)
    } else {
        0
    }
}

/// The layout always starts with the five 2A03 channels, then adds each
/// enabled chip's channels: 3 for VRC6, 6 for VRC7, 1 for FDS, 3 for MMC5,
/// 1 to 8 for N163 (8 when unspecified) and 3 for 5B.
pub proof fn lemma_layout_shape(expansion: u8, n163_channels: u8)
    ensures
        layout(expansion, n163_channels).take(5) == base_channels(),
        layout(expansion, n163_channels).len() == 5 + part_width(expansion, 0, n163_channels)
            + part_width(expansion, 1, n163_channels) + part_width(expansion, 2, n163_channels)
            + part_width(expansion, 3, n163_channels) + part_width(expansion, 4, n163_channels)
            + part_width(expansion, 5, n163_channels),
        1 <= n163_count(n163_channels) <= 8,
        n163_channels == 0 ==> n163_count(n163_channels) == 8,
{
    let l = layout(expansion, n163_channels);
    assert forall|b: nat| b < 6 implies #[trigger] chip_part(expansion, b, n163_channels).len()
        == part_width(expansion, b, n163_channels) by {}
    assert(l.take(5) =~= base_channels());
}

/// The place of a channel in the order that layouts follow: the 2A03
/// channels, then VRC6, VRC7, FDS, MMC5, N163 and 5B.
pub open spec fn layout_rank(k: ChannelKind) -> nat {
    match k {
        ChannelKind::Square1 => 0,
        ChannelKind::Square2 => 1,
        ChannelKind::Triangle => 2,
        ChannelKind::Noise => 3,
        ChannelKind::Dpcm => 4,
        ChannelKind::Vrc6Square1 => 5,
        ChannelKind::Vrc6Square2 => 6,
        ChannelKind::Vrc6Saw => 7,
        ChannelKind::Vrc7Fm(n) => (8 + n) as nat,
        ChannelKind::Fds => 14,
        ChannelKind::Mmc5Square1 => 15,
        ChannelKind::Mmc5Square2 => 16,
        ChannelKind::Mmc5Dpcm => 17,
        ChannelKind::N163(n) => (18 + n) as nat,
        ChannelKind::S5bSquare1 => 26,
        ChannelKind::S5bSquare2 => 27,
        ChannelKind::S5bSquare3 => 28,
    }
}

/// Whether the channel number in a label is a single digit.
pub open spec fn single_digit_index(k: ChannelKind) -> bool {
    match k {
        ChannelKind::Vrc7Fm(n) => n < 6,
        ChannelKind::N163(n) => n < 8,
        _ => true,
    }
}

/// Whether `s` lists channels in strictly increasing layout order, each of
/// rank in `lo..hi` and with a single-digit channel number.
pub open spec fn ranked_within(s: Seq<ChannelKind>, lo: nat, hi: nat) -> bool {
    &&& forall|i: int, j: int| 0 <= i < j < s.len() ==> layout_rank(#[trigger] s[i]) < layout_rank(#[trigger] s[j])
    &&& forall|i: int| 0 <= i < s.len() ==> lo <= layout_rank(#[trigger] s[i]) < hi && single_digit_index(s[i])
}

proof fn lemma_ranked_concat(a: Seq<ChannelKind>, b: Seq<ChannelKind>, lo: nat, mid: nat, hi: nat)
    requires
        lo <= mid <= hi,
        ranked_within(a, lo, mid),
        ranked_within(b, mid, hi),
    ensures
        ranked_within(a + b, lo, hi),
{
    let c = a + b;
    assert forall|i: int, j: int| 0 <= i < j < c.len() implies layout_rank(#[trigger] c[i]) < layout_rank(#[trigger] c[j]) by {
        if j < a.len() {
            assert(c[i] == a[i] && c[j] == a[j]);
        } else if i < a.len() {
            assert(c[i] == a[i] && c[j] == b[j - a.len()]);
        } else {
            assert(c[i] == b[i - a.len()] && c[j] == b[j - a.len()]);
        }
    }
    assert forall|i: int| 0 <= i < c.len() implies lo <= layout_rank(#[trigger] c[i]) < hi && single_digit_index(c[i]) by {
        if i < a.len() {
            assert(c[i] == a[i]);
        } else {
            assert(c[i] == b[i - a.len()]);
        }
    }
}

/// The ranks that the channels of chip `b` take.
pub open spec fn chip_rank_start(b: nat) -> nat {
    if b == 0 {
        5
    } else if b == 1 {
        8
    } else if b == 2 {
        14
    } else if b == 3 {
        15
    } else if b == 4 {
        18
    } else if b == 5 {
        26
    } else {
        29
    }
}

proof fn lemma_chip_part_ranked(expansion: u8, b: nat, n163_channels: u8)
    requires
        b < 6,
    ensures
        ranked_within(chip_part(expansion, b, n163_channels), chip_rank_start(b), chip_rank_start(b + 1)),
{
    let p = chip_part(expansion, b, n163_channels);
    if has_chip(expansion, b) {
        if b == 1 {
            assert forall|i: int| 0 <= i < p.len() implies #[trigger] p[i] == ChannelKind::Vrc7Fm(i as u8) by {}
        } else if b == 4 {
            assert(n163_count(n163_channels) <= 8);
            assert forall|i: int| 0 <= i < p.len() implies #[trigger] p[i] == ChannelKind::N163(i as u8) by {}
        }
    }
}

proof fn lemma_layout_ranked(expansion: u8, n163_channels: u8)
    ensures
        ranked_within(layout(expansion, n163_channels), 0, 29),
{
    let base = base_channels();
    assert(ranked_within(base, 0, 5));
    lemma_chip_part_ranked(expansion, 0, n163_channels);
    lemma_chip_part_ranked(expansion, 1, n163_channels);
    lemma_chip_part_ranked(expansion, 2, n163_channels);
    lemma_chip_part_ranked(expansion, 3, n163_channels);
    lemma_chip_part_ranked(expansion, 4, n163_channels);
    lemma_chip_part_ranked(expansion, 5, n163_channels);
    let s1 = base + chip_part(expansion, 0, n163_channels);
    lemma_ranked_concat(base, chip_part(expansion, 0, n163_channels), 0, 5, 8);
    let s2 = s1 + chip_part(expansion, 1, n163_channels);
    lemma_ranked_concat(s1, chip_part(expansion, 1, n163_channels), 0, 8, 14);
    let s3 = s2 + chip_part(expansion, 2, n163_channels);
    lemma_ranked_concat(s2, chip_part(expansion, 2, n163_channels), 0, 14, 15);
    let s4 = s3 + chip_part(expansion, 3, n163_channels);
    lemma_ranked_concat(s3, chip_part(expansion, 3, n163_channels), 0, 15, 18);
    let s5 = s4 + chip_part(expansion, 4, n163_channels);
    lemma_ranked_concat(s4, chip_part(expansion, 4, n163_channels), 0, 18, 26);
    lemma_ranked_concat(s5, chip_part(expansion, 5, n163_channels), 0, 26, 29);
}

/// Three characters that tell labels apart: the first, the fourth (a space
/// for shorter labels) and the last.
pub open spec fn label_marks(s: Seq<char>) -> (char, char, char) {
    (s[0], if s.len() > 3 { s[3] } else { ' ' }, s.last())
}

/// The marks of each channel's label.
pub open spec fn kind_marks(k: ChannelKind) -> (char, char, char) {
    match k {
        ChannelKind::Square1 => ('S', 'a', '1'),
        ChannelKind::Square2 => ('S', 'a', '2'),
        ChannelKind::Triangle => ('T', 'a', 'e'),
        ChannelKind::Noise => ('N', 's', 'e'),
        ChannelKind::Dpcm => ('D', 'M', 'M'),
        ChannelKind::Vrc6Square1 => ('V', '6', '1'),
        ChannelKind::Vrc6Square2 => ('V', '6', '2'),
        ChannelKind::Vrc6Saw => ('V', '6', 'h'),
        ChannelKind::Vrc7Fm(n) => ('V', '7', digit_char((n + 1) as nat)),
        ChannelKind::Fds => ('F', ' ', 'S'),
        ChannelKind::Mmc5Square1 => ('M', '5', '1'),
        ChannelKind::Mmc5Square2 => ('M', '5', '2'),
        ChannelKind::Mmc5Dpcm => ('M', '5', 'M'),
        ChannelKind::N163(n) => ('N', '3', digit_char((n + 1) as nat)),
        ChannelKind::S5bSquare1 => ('5', 'S', '1'),
        ChannelKind::S5bSquare2 => ('5', 'S', '2'),
        ChannelKind::S5bSquare3 => ('5', 'S', '3'),
    }
}

proof fn lemma_label_marks(k: ChannelKind)
    requires
        single_digit_index(k),
    ensures
        label_marks(channel_label(k)) == kind_marks(k),
{
    reveal_strlit("Square 1");
    reveal_strlit("Square 2");
    reveal_strlit("Triangle");
    reveal_strlit("Noise");
    reveal_strlit("DPCM");
    reveal_strlit("VRC6 Square 1");
    reveal_strlit("VRC6 Square 2");
    reveal_strlit("VRC6 Sawtooth");
    reveal_strlit("VRC7 FM ");
    reveal_strlit("FDS");
    reveal_strlit("MMC5 Square 1");
    reveal_strlit("MMC5 Square 2");
    reveal_strlit("MMC5 PCM");
    reveal_strlit("N163 Wave ");
    reveal_strlit("5B Square 1");
    reveal_strlit("5B Square 2");
    reveal_strlit("5B Square 3");
    match k {
        ChannelKind::Vrc7Fm(n) => {
            let s = channel_label(k);
            assert(decimal((n + 1) as nat) == seq![digit_char((n + 1) as nat)]);
            assert(s[0] == 'V' && s[3] == '7');
            assert(s.last() == digit_char((n + 1) as nat));
        },
        ChannelKind::N163(n) => {
            let s = channel_label(k);
            assert(decimal((n + 1) as nat) == seq![digit_char((n + 1) as nat)]);
            assert(s[0] == 'N' && s[3] == '3');
            assert(s.last() == digit_char((n + 1) as nat));
        },
        _ => {},
    }
}

/// Within one layout the labels, which become the MIDI track names, are
/// pairwise distinct.
pub proof fn lemma_layout_labels_distinct(expansion: u8, n163_channels: u8, i: int, j: int)
    requires
        0 <= i < j < layout(expansion, n163_channels).len(),
    ensures
        channel_label(layout(expansion, n163_channels)[i]) != channel_label(layout(expansion, n163_channels)[j]),
{
    let l = layout(expansion, n163_channels);
    lemma_layout_ranked(expansion, n163_channels);
    let a = l[i];
    let b = l[j];
    assert(layout_rank(a) < layout_rank(b));
    lemma_label_marks(a);
    lemma_label_marks(b);
    if channel_label(a) == channel_label(b) {
        assert(kind_marks(a) == kind_marks(b));
        match a {
            ChannelKind::Vrc7Fm(x) => {
                if let ChannelKind::Vrc7Fm(y) = b {
                    assert((digit_char((x + 1) as nat) as u32) == x + 49);
                    assert((digit_char((y + 1) as nat) as u32) == y + 49);
                }
            },
            ChannelKind::N163(x) => {
                if let ChannelKind::N163(y) = b {
                    assert((digit_char((x + 1) as nat) as u32) == x + 49);
                    assert((digit_char((y + 1) as nat) as u32) == y + 49);
                }
            },
            _ => {},
        }
    }
}

/// `N163CHANNELS n` with `1 <= n <= 8` gives the N163 block exactly `n`
/// channels, N163 wave 1 to `n` after the five 2A03 channels; 0 (not
/// specified) and counts above 8 give 8.
pub proof fn lemma_n163_block(n163_channels: u8)
    ensures
        1 <= n163_channels <= 8 ==> layout(16, n163_channels).len() == 5 + n163_channels,
        (n163_channels == 0 || n163_channels > 8) ==> layout(16, n163_channels).len() == 13,
        forall|i: int|
            0 <= i < (if 1 <= n163_channels <= 8 { n163_channels as int } else { 8 }) ==> #[trigger] layout(
                16,
                n163_channels,
            )[5 + i] == ChannelKind::N163(i as u8),
{
    vstd::arithmetic::power2::lemma2_to64();
    assert(has_chip(16, 4));
    assert(!has_chip(16, 0) && !has_chip(16, 1) && !has_chip(16, 2) && !has_chip(16, 3) && !has_chip(16, 5));
    let l = layout(16, n163_channels);
    assert(l =~= base_channels() + chip_channels(4, n163_channels));
}

} // verus!
