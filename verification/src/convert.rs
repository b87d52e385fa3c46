//! Turn a parsed song into a MIDI file.
use vstd::prelude::*;

use crate::chips::{
    channel_is_percussion, channel_label, channel_layout, channel_program, layout, lemma_label_len,
    lemma_layout_labels,
    ChannelKind,
};
use crate::midi::{
    end_bytes, lemma_utf8_len, note_off_bytes, note_on_bytes, program_change_bytes, tempo_bytes,
    time_signature_bytes, track_chunk, track_fits, track_name_bytes, tracks_view, EventModel,
    MidiFile, TrackBuilder, TICKS_PER_BEAT, TICKS_PER_ROW,
};
use crate::parser::{note_token, parse_note_token, velocity, volume_to_velocity, Module, ModuleModel, NoteToken, Song, SongModel};

verus! {

broadcast use vstd::std_specs::hash::group_hash_axioms;

/// The pattern that order row `o` assigns to `channel`, when there is one.
pub open spec fn order_pattern(song: SongModel, o: int, channel: int) -> Option<
    Seq<Seq<Seq<Seq<char>>>>,
> {
    let order = song.orders[o];
    if 0 <= channel < order.len() && song.patterns.contains_key(order[channel]) {
        Some(song.patterns[order[channel]])
    } else {
        None
    }
}

/// The tokens of `channel` in row `r` of order row `o`; none where the
/// pattern, the row or the channel group is missing.
pub open spec fn cell(song: SongModel, o: int, r: int, channel: int) -> Seq<Seq<char>> {
    match order_pattern(song, o, channel) {
        Some(pat) => if 0 <= r < pat.len() && channel < pat[r].len() {
            pat[r][channel]
        } else {
            seq![]
        },
        None => seq![],
    }
}

/// The note token of a cell: its first token, or `"..."`.
pub open spec fn cell_token(fields: Seq<Seq<char>>) -> Seq<char> {
    if fields.len() > 0 {
        fields[0]
    } else {
        seq!['.', '.', '.']
    }
}

/// The velocity of a cell: its third token read as a volume, or 100.
pub open spec fn cell_velocity(fields: Seq<Seq<char>>) -> u8 {
    if fields.len() > 2 {
        velocity(fields[2])
    } else {
        100
    }
}

/// Whether row `r` of order row `o` plays a note on `channel`: the row lies
/// within the song's pattern length and its note token is a note or a noise
/// pitch.
pub open spec fn note_at(song: SongModel, o: int, r: int, channel: int) -> bool {
    &&& 0 <= r < rows_per_pattern(song)
    &&& (note_token(cell_token(cell(song, o, r, channel))) is Note || note_token(
        cell_token(cell(song, o, r, channel)),
    ) is Noise)
}

/// Whether `channel` plays a note in some row of some order row.
pub open spec fn holds_note(song: SongModel, channel: int) -> bool {
    exists|o: int, r: int| 0 <= o < song.orders.len() && #[trigger] note_at(song, o, r, channel)
}

/// The channels below `n` that play a note, in increasing order.
pub open spec fn used_channels_below(song: SongModel, n: nat) -> Seq<usize>
    decreases n,
{
    if n == 0 {
        seq![]
    } else {
        used_channels_below(song, (n - 1) as nat) + (if holds_note(song, n - 1) {
            seq![(n - 1) as usize]
        } else {
            seq![]
        })
    }
}

/// The number of source channels that can be converted: those that both
/// `COLUMNS` and the chip layout know.
pub open spec fn known_channels(song: SongModel, chips: Seq<ChannelKind>) -> nat {
    if song.columns.len() < chips.len() {
        song.columns.len()
    } else {
        chips.len()
    }
}

/// The source channels that produce at least one note: those known to both
/// `COLUMNS` and the chip layout that play a note, in increasing order.
pub open spec fn used_channels(song: SongModel, chips: Seq<ChannelKind>) -> Seq<usize> {
    used_channels_below(song, known_channels(song, chips))
}

/// The MIDI channel given to the next melodic track, and the counter after
/// it: channels are handed out round-robin over 0..16, skipping 9, the
/// percussion channel.
pub open spec fn melodic_channel(next: u8) -> (u8, u8) {
    if next % 16 == 9 {
        ((((next as nat + 1) % 256) % 16) as u8, ((next as nat + 2) % 256) as u8)
    } else {
        (next % 16, ((next as nat + 1) % 256) as u8)
    }
}

/// The note that percussion plays for a pitched note.
pub open spec fn percussion_note(note: u8) -> u8 {
    if note < 35 {
        35
    } else if note > 81 {
        81
    } else {
        note
    }
}

/// The note that a noise pitch plays.
pub open spec fn noise_note(value: u8) -> u8 {
    if 36 + value > 81 {
        81
    } else {
        (36 + value) as u8
    }
}

/// The sounding note of a channel and the events written so far.
pub struct Voice {
    pub note: Option<u8>,
    pub events: Seq<EventModel>,
}

/// The voice with its sounding note, if any, released at `tick`.
pub open spec fn release(v: Voice, midi_channel: u8, tick: u64) -> Voice {
    match v.note {
        Some(n) => Voice { note: None, events: v.events.push((tick, 0, note_off_bytes(midi_channel, n))) },
        None => v,
    }
}

/// The voice after `note` starts at `tick`, the sounding note released first.
pub open spec fn strike(v: Voice, midi_channel: u8, tick: u64, note: u8, vel: u8) -> Voice {
    let r = release(v, midi_channel, tick);
    Voice { note: Some(note), events: r.events.push((tick, 1, note_on_bytes(midi_channel, note, vel))) }
}

/// The voice after one row with the tokens `fields` at `tick`.
pub open spec fn voice_row(v: Voice, fields: Seq<Seq<char>>, midi_channel: u8, percussion: bool, tick: u64) -> Voice {
    let vel = cell_velocity(fields);
    match note_token(cell_token(fields)) {
        NoteToken::Cut => release(v, midi_channel, tick),
        NoteToken::Note(n) => strike(v, midi_channel, tick, if percussion { percussion_note(n) } else { n }, vel),
        NoteToken::Noise(x) => strike(v, midi_channel, tick, noise_note(x), vel),
        NoteToken::Blank => v,
    }
}

/// Rows per pattern: the song's length, at least 1.
pub open spec fn rows_per_pattern(song: SongModel) -> nat {
    if song.length == 0 {
        1
    } else {
        song.length as nat
    }
}

/// The voice of `channel` after the first `n` rows of the song, counted
/// across order rows; row `k` is at tick `k * TICKS_PER_ROW`.
pub open spec fn voice_after(song: SongModel, channel: int, midi_channel: u8, percussion: bool, start: Voice, n: nat) -> Voice
    decreases n,
{
    if n == 0 {
        start
    } else {
        let k = n - 1;
        let rows = rows_per_pattern(song);
        voice_row(
            voice_after(song, channel, midi_channel, percussion, start, (n - 1) as nat),
            cell(song, k / rows as int, k % rows as int, channel),
            midi_channel,
            percussion,
            (k * TICKS_PER_ROW) as u64,
        )
    }
}

/// The rows of the whole song.
pub open spec fn total_rows(song: SongModel) -> nat {
    song.orders.len() * rows_per_pattern(song)
}

/// The events that open a track: its name, the tempo and time signature on
/// the first track, and the program of a melodic channel.
pub open spec fn track_header(kind: ChannelKind, midi_channel: u8, with_tempo: bool, microseconds_per_beat: u64) -> Seq<EventModel> {
    seq![(0u64, 0u8, track_name_bytes(channel_label(kind)))] + (if with_tempo {
        seq![(0u64, 0u8, tempo_bytes(microseconds_per_beat)), (0u64, 0u8, time_signature_bytes())]
    } else {
        seq![]
    }) + (match channel_program(kind) {
        Some(p) => seq![(0u64, 0u8, program_change_bytes(midi_channel, p))],
        None => seq![],
    })
}

/// All events of the track of `channel`: the header, the notes of every row,
/// the last note released and the end of the track at the song's end.
pub open spec fn channel_events(song: SongModel, channel: int, kind: ChannelKind, midi_channel: u8, with_tempo: bool, microseconds_per_beat: u64) -> Seq<EventModel> {
    let start = Voice { note: None, events: track_header(kind, midi_channel, with_tempo, microseconds_per_beat) };
    let end_tick = (total_rows(song) * TICKS_PER_ROW) as u64;
    let v = release(
        voice_after(song, channel, midi_channel, channel_is_percussion(kind), start, total_rows(song)),
        midi_channel,
        end_tick,
    );
    v.events.push((end_tick, 0, end_bytes()))
}

/// The state of a conversion between channels.
pub struct ConversionModel {
    pub tracks: Seq<Seq<u8>>,
    pub tempo_written: bool,
    pub next_melodic: u8,
    pub fits: bool,
}

/// The conversion after `channel`: it gets a track on MIDI channel 9
/// (percussion) or on the next melodic channel.
pub open spec fn convert_channel(st: ConversionModel, song: SongModel, chips: Seq<ChannelKind>, microseconds_per_beat: u64, channel: int) -> ConversionModel {
    let kind = chips[channel];
    let percussion = channel_is_percussion(kind);
    let (midi_channel, next) = if percussion {
        (9u8, st.next_melodic)
    } else {
        melodic_channel(st.next_melodic)
    };
    let events = channel_events(song, channel, kind, midi_channel, !st.tempo_written, microseconds_per_beat);
    ConversionModel {
        tracks: st.tracks.push(track_chunk(events)),
        tempo_written: true,
        next_melodic: next,
        fits: st.fits && track_fits(events),
    }
}

/// The conversion after the first `n` used channels.
pub open spec fn convert_channels(song: SongModel, chips: Seq<ChannelKind>, microseconds_per_beat: u64, n: nat) -> ConversionModel
    decreases n,
{
    if n == 0 {
        ConversionModel { tracks: seq![], tempo_written: false, next_melodic: 0, fits: true }
    } else {
        convert_channel(
            convert_channels(song, chips, microseconds_per_beat, (n - 1) as nat),
            song,
            chips,
            microseconds_per_beat,
            used_channels(song, chips)[n - 1] as int,
        )
    }
}

/// The conversion after all used channels.
pub open spec fn converted(module: ModuleModel, song: SongModel, microseconds_per_beat: u64) -> ConversionModel {
    let chips = layout(module.expansion, module.n163_channels);
    convert_channels(song, chips, microseconds_per_beat, used_channels(song, chips).len())
}

/// The events of the track written when no channel is converted.
pub open spec fn tempo_only_events(microseconds_per_beat: u64) -> Seq<EventModel> {
    seq![(0u64, 0u8, tempo_bytes(microseconds_per_beat)), (0u64, 0u8, time_signature_bytes()), (0u64, 0u8, end_bytes())]
}

/// The track chunks of the converted song: one per used channel, or a single
/// tempo track when there is none.
pub open spec fn conversion_tracks(module: ModuleModel, song: SongModel, microseconds_per_beat: u64) -> Seq<Seq<u8>> {
    let c = converted(module, song, microseconds_per_beat);
    if c.tracks.len() == 0 {
        seq![track_chunk(tempo_only_events(microseconds_per_beat))]
    } else {
        c.tracks
    }
}

/// Whether the song can be converted: when a track is written, every tick of
/// the song fits 64 bits and every delta time of every track can be written.
pub open spec fn conversion_fits(module: ModuleModel, song: SongModel, microseconds_per_beat: u64) -> bool {
    let c = converted(module, song, microseconds_per_beat);
    c.tracks.len() > 0 ==> (total_rows(song) * TICKS_PER_ROW <= u64::MAX && c.fits)
}

/// The MIDI channel for the next melodic track; skips the percussion channel.
pub fn allocate_melodic_channel(next: &mut u8) -> (c: u8)
    ensures
        (c, *final(next)) == melodic_channel(*old(next)),
        c < 16,
        c != 9,
{
    loop
        invariant
            *next == *old(next) || (*old(next) % 16 == 9 && *next as nat == (*old(next) as nat + 1) % 256),
        decreases (if *next % 16 == 9 { 1int } else { 0int }),
    {
        let candidate = *next % 16;
        *next = next.wrapping_add(1);
        if candidate != 9 {
            return candidate;
        }
    }
}

/// DPCM/sample channels are mapped onto GM percussion notes.
pub fn to_percussion(note: u8) -> (r: u8)
    ensures
        r == percussion_note(note),
        35 <= r <= 81,
{
    if note < 35 {
        35
    } else if note > 81 {
        81
    } else {
        note
    }
}

/// The pattern that order row `o` assigns to `channel`.
fn order_pattern_of<'a>(song: &'a Song, o: usize, channel: usize) -> (r: Option<&'a crate::parser::Pattern>)
    requires
        o < song.orders@.len(),
    ensures
        match r {
            Some(p) => order_pattern(song@, o as int, channel as int) == Some(p.deep_view()),
            None => order_pattern(song@, o as int, channel as int) is None,
        },
{
    let order = &song.orders[o];
    assert(song@.orders[o as int] == order@);
    if channel < order.len() {
        let id = order[channel];
        match song.patterns.get(&id) {
            Some(p) => {
                assert(song.patterns@.contains_key(id));
                Some(p)
            },
            None => None,
        }
    } else {
        None
    }
}

/// The note token and velocity of a cell.
fn read_cell(fields: Option<&Vec<String>>) -> (r: (NoteToken, u8))
    ensures
        ({
            let fv = match fields {
                Some(f) => f.deep_view(),
                None => Seq::<Seq<char>>::empty(),
            };
            r == (note_token(cell_token(fv)), cell_velocity(fv))
        }),
{
    match fields {
        Some(f) => {
            let token = if f.len() > 0 {
                assert(f.deep_view()[0] == f@[0]@);
                parse_note_token(f[0].as_str())
            } else {
                assert(note_token(seq!['.', '.', '.']) == NoteToken::Blank);
                NoteToken::Blank
            };
            let vel = if f.len() > 2 {
                assert(f.deep_view()[2] == f@[2]@);
                volume_to_velocity(f[2].as_str())
            } else {
                100
            };
            (token, vel)
        },
        None => {
            assert(note_token(seq!['.', '.', '.']) == NoteToken::Blank);
            (NoteToken::Blank, 100)
        },
    }
}

/// The tokens of `channel` in row `r` of the pattern, if present.
fn cell_of<'a>(pat: Option<&'a crate::parser::Pattern>, r: usize, channel: usize) -> (f: Option<&'a Vec<String>>)
    ensures
        ({
            let fv = match f {
                Some(f) => f.deep_view(),
                None => Seq::<Seq<char>>::empty(),
            };
            fv == match pat {
                Some(p) => if r < p.deep_view().len() && channel < p.deep_view()[r as int].len() {
                    p.deep_view()[r as int][channel as int]
                } else {
                    seq![]
                },
                None => seq![],
            }
        }),
{
    match pat {
        Some(p) => {
            if r < p.len() {
                let row = &p[r];
                assert(p.deep_view()[r as int] == row.deep_view());
                if channel < row.len() {
                    assert(row.deep_view()[channel as int] == row[channel as int].deep_view());
                    Some(&row[channel])
                } else {
                    None
                }
            } else {
                None
            }
        },
        None => None,
    }
}

/// Whether the source channel plays any note or noise pitch.
fn channel_has_note(song: &Song, channel: usize) -> (b: bool)
    ensures
        b == holds_note(song@, channel as int),
{
    let rows: usize = if song.length == 0 {
        1
    } else {
        song.length
    };
    for o in 0..song.orders.len()
        invariant
            rows as nat == rows_per_pattern(song@),
            forall|o2: int, r: int| 0 <= o2 < o ==> !#[trigger] note_at(song@, o2, r, channel as int),
    {
        let pat = order_pattern_of(song, o, channel);
        for r in 0..rows
            invariant
                o < song.orders@.len(),
                rows as nat == rows_per_pattern(song@),
                match pat {
                    Some(p) => order_pattern(song@, o as int, channel as int) == Some(p.deep_view()),
                    None => order_pattern(song@, o as int, channel as int) is None,
                },
                forall|o2: int, r2: int| 0 <= o2 < o ==> !#[trigger] note_at(song@, o2, r2, channel as int),
                forall|r2: int| r2 < r ==> !#[trigger] note_at(song@, o as int, r2, channel as int),
        {
            let fields = cell_of(pat, r, channel);
            let ghost fv = match fields {
                Some(f) => f.deep_view(),
                None => Seq::<Seq<char>>::empty(),
            };
            assert(fv == cell(song@, o as int, r as int, channel as int));
            let (token, _velocity) = read_cell(fields);
            match token {
                NoteToken::Note(_) | NoteToken::Noise(_) => {
                    assert(note_at(song@, o as int, r as int, channel as int));
                    return true;
                },
                _ => {},
            }
        }
        assert forall|r2: int| #![trigger note_at(song@, o as int, r2, channel as int)] true implies !note_at(song@, o as int, r2, channel as int) by {}
    }
    false
}

/// The voice after one row.
fn play_row(track: &mut TrackBuilder, current: &mut Option<u8>, token: NoteToken, vel: u8, midi_channel: u8, percussion: bool, tick: u64, fields: Ghost<Seq<Seq<char>>>)
    requires
        token == note_token(cell_token(fields@)),
        vel == cell_velocity(fields@),
    ensures
        (Voice { note: *final(current), events: final(track)@ }) == voice_row(
            Voice { note: *old(current), events: old(track)@ },
            fields@,
            midi_channel,
            percussion,
            tick,
        ),
{
    match token {
        NoteToken::Cut => {
            if let Some(n) = current.take() {
                track.note_off(tick, midi_channel, n);
            }
        },
        NoteToken::Note(n) => {
            if let Some(prev) = current.take() {
                track.note_off(tick, midi_channel, prev);
            }
            let note = if percussion {
                to_percussion(n)
            } else {
                n
            };
            track.note_on(tick, midi_channel, note, vel);
            *current = Some(note);
        },
        NoteToken::Noise(value) => {
            if let Some(prev) = current.take() {
                track.note_off(tick, midi_channel, prev);
            }
            let note = if value > 45 {
                81
            } else {
                36 + value
            };
            track.note_on(tick, midi_channel, note, vel);
            *current = Some(note);
        },
        NoteToken::Blank => {},
    }
}

proof fn lemma_row_position(n: nat, o: nat, r: nat, rows: nat, orders: nat)
    requires
        rows > 0,
        n == o * rows + r,
        r < rows,
        o < orders,
    ensures
        n / rows == o,
        n % rows == r,
        n + 1 <= orders * rows,
{
    vstd::arithmetic::div_mod::lemma_fundamental_div_mod_converse(n as int, rows as int, o as int, r as int);
    vstd::arithmetic::mul::lemma_mul_inequality((o + 1) as int, orders as int, rows as int);
    vstd::arithmetic::mul::lemma_mul_is_distributive_add_other_way(rows as int, o as int, 1);
}

proof fn lemma_next_order(o: nat, rows: nat)
    ensures
        o * rows + rows == (o + 1) * rows,
{
    vstd::arithmetic::mul::lemma_mul_is_distributive_add_other_way(rows as int, o as int, 1);
}

/// The track of one source channel.
fn channel_track(song: &Song, channel: usize, kind: ChannelKind, midi_channel: u8, with_tempo: bool, microseconds_per_beat: u64) -> (t: TrackBuilder)
    requires
        total_rows(song@) * TICKS_PER_ROW <= u64::MAX,
        kind.label_defined(),
    ensures
        t@ == channel_events(song@, channel as int, kind, midi_channel, with_tempo, microseconds_per_beat),
{
    let mut track = TrackBuilder::new();
    let label = kind.label();
    proof {
        lemma_label_len(kind);
        lemma_utf8_len(label@);
    }
    track.track_name(0, label.as_str());
    if with_tempo {
        track.tempo(0, microseconds_per_beat);
        track.time_signature(0);
    }
    match kind.program() {
        Some(p) => {
            track.program_change(0, midi_channel, p);
        },
        None => {},
    }
    assert(track@ =~= track_header(kind, midi_channel, with_tempo, microseconds_per_beat));
    let percussion = kind.is_percussion();
    let rows: usize = if song.length == 0 {
        1
    } else {
        song.length
    };
    let ghost start = Voice { note: None, events: track@ };
    let mut current: Option<u8> = None;
    let mut tick: u64 = 0;
    let ghost mut n: nat = 0;
    let orders = song.orders.len();
    assert(song@.orders.len() == orders);
    assert(0 * rows == 0) by (nonlinear_arith);
    for o in 0..orders
        invariant
            orders == song@.orders.len(),
            rows as nat == rows_per_pattern(song@),
            total_rows(song@) * TICKS_PER_ROW <= u64::MAX,
            total_rows(song@) == orders * rows,
            percussion == channel_is_percussion(kind),
            n == o * rows,
            tick as nat == n * TICKS_PER_ROW,
            (Voice { note: current, events: track@ }) == voice_after(song@, channel as int, midi_channel, percussion, start, n),
    {
        let pat = order_pattern_of(song, o, channel);
        for r in 0..rows
            invariant
                o < orders,
                orders == song@.orders.len(),
                rows as nat == rows_per_pattern(song@),
                total_rows(song@) * TICKS_PER_ROW <= u64::MAX,
                total_rows(song@) == orders * rows,
                percussion == channel_is_percussion(kind),
                match pat {
                    Some(p) => order_pattern(song@, o as int, channel as int) == Some(p.deep_view()),
                    None => order_pattern(song@, o as int, channel as int) is None,
                },
                n == o * rows + r,
                tick as nat == n * TICKS_PER_ROW,
                (Voice { note: current, events: track@ }) == voice_after(song@, channel as int, midi_channel, percussion, start, n),
        {
            proof {
                lemma_row_position(n, o as nat, r as nat, rows as nat, orders as nat);
            }
            let fields = cell_of(pat, r, channel);
            let ghost fv = match fields {
                Some(f) => f.deep_view(),
                None => Seq::<Seq<char>>::empty(),
            };
            assert(fv == cell(song@, (n / rows as nat) as int, (n % rows as nat) as int, channel as int));
            let (token, vel) = read_cell(fields);
            play_row(&mut track, &mut current, token, vel, midi_channel, percussion, tick, Ghost(fv));
            tick = tick + TICKS_PER_ROW;
            proof {
                n = n + 1;
            }
        }
        proof {
            lemma_next_order(o as nat, rows as nat);
        }
    }
    assert(n == total_rows(song@));
    if let Some(note) = current.take() {
        track.note_off(tick, midi_channel, note);
    }
    track.end(tick);
    track
}

proof fn lemma_convert_monotone(song: SongModel, chips: Seq<ChannelKind>, mpb: u64, m: nat, n: nat)
    requires
        m <= n,
    ensures
        convert_channels(song, chips, mpb, n).fits ==> convert_channels(song, chips, mpb, m).fits,
        convert_channels(song, chips, mpb, m).tracks.len() <= convert_channels(song, chips, mpb, n).tracks.len(),
    decreases n - m,
{
    if m < n {
        lemma_convert_monotone(song, chips, mpb, m, (n - 1) as nat);
    }
}

proof fn lemma_tempo_only_fits(mpb: u64)
    ensures
        track_fits(tempo_only_events(mpb)),
        crate::midi::sorted_events(tempo_only_events(mpb)) == tempo_only_events(mpb),
{
    let s = tempo_only_events(mpb);
    let s1 = s.take(1);
    let s2 = s.take(2);
    assert(s.drop_last() =~= s2);
    assert(s2.drop_last() =~= s1);
    assert(s1.drop_last() =~= Seq::<EventModel>::empty());
    let e0 = crate::midi::sorted_events(Seq::<EventModel>::empty());
    assert(e0 == Seq::<EventModel>::empty());
    assert(crate::midi::sorted_events(s1) =~= s1);
    assert(crate::midi::sorted_events(s2) =~= s2);
    assert(crate::midi::sorted_events(s) =~= s);
    let t1 = s.drop_first();
    let t2 = t1.drop_first();
    let t3 = t2.drop_first();
    assert(t3 =~= Seq::<EventModel>::empty());
    assert(t2.len() == 1 && t2[0].0 == 0);
    assert(t1.len() == 2 && t1[0].0 == 0);
    assert(s[0].0 == 0);
    assert(((0 - 0) as u32) == 0u32);
    assert(crate::midi::deltas_fit(t3, 0));
    assert(crate::midi::deltas_fit(t2, 0));
    assert(crate::midi::deltas_fit(t1, 0));
    assert(crate::midi::deltas_fit(s, 0));
}

/// Everything reported about one converted song.
#[derive(Debug, Clone)]
pub struct Conversion {
    pub midi: MidiFile,
    /// Zero-based source channel indices that produced at least one note.
    pub channels_used: Vec<usize>,
    /// Chip layout derived from the `EXPANSION` header.
    pub layout: Vec<ChannelKind>,
    pub patterns: usize,
    pub orders: usize,
    pub rows_per_pattern: usize,
}

/// The source channels that produce at least one note.
fn channels_with_notes(song: &Song, chips: &Vec<ChannelKind>) -> (r: Vec<usize>)
    ensures
        r@ == used_channels(song@, chips@),
{
    let known = if song.columns.len() < chips.len() {
        song.columns.len()
    } else {
        chips.len()
    };
    let mut r: Vec<usize> = Vec::new();
    for channel in 0..known
        invariant
            r@ == used_channels_below(song@, channel as nat),
    {
        if channel_has_note(song, channel) {
            r.push(channel);
        }
        assert(r@ =~= used_channels_below(song@, (channel + 1) as nat));
    }
    r
}

proof fn lemma_used_below(song: SongModel, n: nat)
    requires
        n <= usize::MAX,
    ensures
        forall|i: int| 0 <= i < used_channels_below(song, n).len() ==> #[trigger] used_channels_below(song, n)[i] < n,
        forall|i: int, j: int|
            0 <= i < j < used_channels_below(song, n).len() ==> used_channels_below(song, n)[i] < used_channels_below(song, n)[j],
        forall|ch: usize| #[trigger] used_channels_below(song, n).contains(ch) <==> (ch < n && holds_note(song, ch as int)),
    decreases n,
{
    if n > 0 {
        lemma_used_below(song, (n - 1) as nat);
        let prev = used_channels_below(song, (n - 1) as nat);
        let cur = used_channels_below(song, n);
        let m = (n - 1) as nat;
        assert(forall|i: int| 0 <= i < prev.len() ==> cur[i] == #[trigger] prev[i]);
        assert(holds_note(song, m as int) ==> cur.len() == prev.len() + 1 && cur[prev.len() as int] == m as usize);
        assert(!holds_note(song, m as int) ==> cur == prev);
        assert forall|i: int, j: int| 0 <= i < j < cur.len() implies cur[i] < cur[j] by {
            if j < prev.len() {
                assert(prev[i] < prev[j]);
            } else {
                assert(prev[i] < m);
            }
        }
        assert forall|ch: usize| #[trigger] cur.contains(ch) implies (ch < n && holds_note(song, ch as int)) by {
            let i = choose|i: int| 0 <= i < cur.len() && cur[i] == ch;
            if i < prev.len() {
                assert(prev[i] == ch);
                assert(prev.contains(ch));
            }
        }
        assert forall|ch: usize| ch < n && holds_note(song, ch as int) implies #[trigger] cur.contains(ch) by {
            if ch < m {
                assert(prev.contains(ch));
                let i = choose|i: int| 0 <= i < prev.len() && prev[i] == ch;
                assert(cur[i] == ch);
            } else {
                assert(cur[prev.len() as int] == ch);
            }
        }
    }
}

/// The used channels are listed in increasing order, and a channel is listed
/// exactly when both `COLUMNS` and the chip layout know it and it plays a
/// note or noise pitch in some row of some order row.
pub proof fn lemma_used_channels(song: SongModel, chips: Seq<ChannelKind>)
    requires
        song.columns.len() <= usize::MAX,
    ensures
        forall|i: int, j: int|
            0 <= i < j < used_channels(song, chips).len() ==> used_channels(song, chips)[i] < used_channels(song, chips)[j],
        forall|ch: usize| #[trigger] used_channels(song, chips).contains(ch) <==> (ch < song.columns.len() && ch < chips.len()
            && holds_note(song, ch as int)),
        forall|i: int| 0 <= i < used_channels(song, chips).len() ==> #[trigger] used_channels(song, chips)[i] < chips.len(),
{
    lemma_used_below(song, known_channels(song, chips));
}

/// The track of a used channel, its MIDI channel and the next melodic counter.
fn convert_one(song: &Song, chips: &Vec<ChannelKind>, channel: usize, with_tempo: bool, next_melodic: &mut u8, microseconds_per_beat: u64) -> (t: TrackBuilder)
    requires
        channel < chips@.len(),
        chips@[channel as int].label_defined(),
        total_rows(song@) * TICKS_PER_ROW <= u64::MAX,
    ensures
        ({
            let kind = chips@[channel as int];
            let percussion = channel_is_percussion(kind);
            let (mc, next) = if percussion {
                (9u8, *old(next_melodic))
            } else {
                melodic_channel(*old(next_melodic))
            };
            &&& t@ == channel_events(song@, channel as int, kind, mc, with_tempo, microseconds_per_beat)
            &&& *final(next_melodic) == next
        }),
{
    let kind = chips[channel];
    let midi_channel = if kind.is_percussion() {
        9
    } else {
        allocate_melodic_channel(next_melodic)
    };
    channel_track(song, channel, kind, midi_channel, with_tempo, microseconds_per_beat)
}

/// Convert one song using the module's global expansion configuration; the
/// tempo is given in microseconds per beat.
pub fn convert_song(module: &Module, song: &Song, microseconds_per_beat: u64) -> (c: Conversion)
    requires
        conversion_fits(module@, song@, microseconds_per_beat),
    ensures
        c.midi.format == 1,
        c.midi.division == TICKS_PER_BEAT,
        tracks_view(c.midi.tracks@) == conversion_tracks(module@, song@, microseconds_per_beat),
        c.channels_used@ == used_channels(song@, c.layout@),
        forall|i: int, j: int| 0 <= i < j < c.channels_used@.len() ==> c.channels_used@[i] < c.channels_used@[j],
        forall|ch: usize| #[trigger] c.channels_used@.contains(ch) <==> (ch < song@.columns.len() && ch < c.layout@.len()
            && holds_note(song@, ch as int)),
        c.layout@ == layout(module.expansion, module.n163_channels),
        c.patterns == song.patterns@.len(),
        c.orders == song@.orders.len(),
        c.rows_per_pattern == song.length,
{
    let chips = channel_layout(module.expansion, module.n163_channels);
    let used = channels_with_notes(song, &chips);
    assert(song@.columns.len() == song.columns.len());
    proof {
        lemma_used_channels(song@, chips@);
    }
    let mut midi = MidiFile::new(1, TICKS_PER_BEAT);
    let mut tempo_written = false;
    let mut next_melodic: u8 = 0;
    let ghost chips_s = layout(module.expansion, module.n163_channels);
    assert(module@.expansion == module.expansion && module@.n163_channels == module.n163_channels);
    for k in 0..used.len()
        invariant
            used@ == used_channels(song@, chips_s),
            forall|i: int| 0 <= i < used@.len() ==> #[trigger] used@[i] < chips_s.len(),
            chips@ == chips_s,
            chips_s == layout(module.expansion, module.n163_channels),
            conversion_fits(module@, song@, microseconds_per_beat),
            midi.format == 1,
            midi.division == TICKS_PER_BEAT,
            ({
                let st = convert_channels(song@, chips_s, microseconds_per_beat, k as nat);
                &&& st.tracks == tracks_view(midi.tracks@)
                &&& st.tempo_written == tempo_written
                &&& st.next_melodic == next_melodic
                &&& st.fits
            }),
    {
        let channel = used[k];
        proof {
            lemma_convert_monotone(song@, chips_s, microseconds_per_beat, (k + 1) as nat, used@.len());
        }
        proof {
            lemma_layout_labels(module.expansion, module.n163_channels, channel as int);
        }
        let track = convert_one(song, &chips, channel, !tempo_written, &mut next_melodic, microseconds_per_beat);
        let bytes = track.build();
        let ghost t0 = midi.tracks@;
        midi.tracks.push(bytes);
        assert(tracks_view(midi.tracks@) =~= tracks_view(t0).push(bytes@));
        tempo_written = true;
    }
    if midi.tracks.len() == 0 {
        let mut track = TrackBuilder::new();
        track.tempo(0, microseconds_per_beat);
        track.time_signature(0);
        track.end(0);
        assert(track@ =~= tempo_only_events(microseconds_per_beat));
        proof {
            lemma_tempo_only_fits(microseconds_per_beat);
        }
        let bytes = track.build();
        let ghost t0 = midi.tracks@;
        midi.tracks.push(bytes);
        assert(tracks_view(midi.tracks@) =~= seq![bytes@]);
    }
    Conversion {
        midi,
        channels_used: used,
        layout: chips,
        patterns: song.patterns.len(),
        orders: song.orders.len(),
        rows_per_pattern: song.length,
    }
}

/// Whether `convert_song` can convert the song: when a track is written,
/// every tick of the song fits 64 bits and every delta time can be written.
pub fn can_convert(module: &Module, song: &Song, microseconds_per_beat: u64) -> (b: bool)
    ensures
        b == conversion_fits(module@, song@, microseconds_per_beat),
{
    let chips = channel_layout(module.expansion, module.n163_channels);
    let used = channels_with_notes(song, &chips);
    let ghost chips_s = layout(module.expansion, module.n163_channels);
    let rows: usize = if song.length == 0 {
        1
    } else {
        song.length
    };
    let a = song.orders.len() as u128;
    let b = rows as u128;
    assert(a * b <= 0xffff_ffff_ffff_ffffu128 * 0xffff_ffff_ffff_ffffu128) by (nonlinear_arith)
        requires
            a <= 0xffff_ffff_ffff_ffffu128,
            b <= 0xffff_ffff_ffff_ffffu128,
    ;
    let product: u128 = a * b;
    assert(product == total_rows(song@)) by (nonlinear_arith)
        requires
            product == a * b,
            a == song@.orders.len(),
            b == rows_per_pattern(song@),
            total_rows(song@) == song@.orders.len() * rows_per_pattern(song@),
    ;
    let bound_ok = product <= 0xffff_ffff_ffff_ffffu128 / (TICKS_PER_ROW as u128);
    assert(song@.columns.len() == song.columns.len());
    proof {
        lemma_used_channels(song@, chips_s);
        lemma_convert_channels_len(song@, chips_s, microseconds_per_beat, used@.len());
    }
    if used.len() == 0 {
        return true;
    }
    if !bound_ok {
        return false;
    }
    let mut tempo_written = false;
    let mut next_melodic: u8 = 0;
    let mut fits = true;
    for k in 0..used.len()
        invariant
            used@ == used_channels(song@, chips_s),
            forall|i: int| 0 <= i < used@.len() ==> #[trigger] used@[i] < chips_s.len(),
            chips@ == chips_s,
            chips_s == layout(module.expansion, module.n163_channels),
            bound_ok,
            bound_ok == (total_rows(song@) * TICKS_PER_ROW <= u64::MAX),
            ({
                let st = convert_channels(song@, chips_s, microseconds_per_beat, k as nat);
                &&& st.tempo_written == tempo_written
                &&& st.next_melodic == next_melodic
                &&& st.fits == fits
            }),
    {
        let channel = used[k];
        proof {
            lemma_layout_labels(module.expansion, module.n163_channels, channel as int);
        }
        let track = convert_one(song, &chips, channel, !tempo_written, &mut next_melodic, microseconds_per_beat);
        fits = fits && track.fits();
        tempo_written = true;
    }
    fits
}

proof fn lemma_convert_channels_len(song: SongModel, chips: Seq<ChannelKind>, mpb: u64, n: nat)
    ensures
        convert_channels(song, chips, mpb, n).tracks.len() == n,
    decreases n,
{
    if n > 0 {
        lemma_convert_channels_len(song, chips, mpb, (n - 1) as nat);
    }
}

/// Whether an event is a note-on message.
pub open spec fn is_note_on(e: EventModel) -> bool {
    e.2.len() > 0 && 0x90 <= e.2[0] < 0xA0
}

/// Whether an event is a note-off message.
pub open spec fn is_note_off(e: EventModel) -> bool {
    e.2.len() > 0 && 0x80 <= e.2[0] < 0x90
}

/// The number of note-on messages among `es`.
pub open spec fn count_note_on(es: Seq<EventModel>) -> nat
    decreases es.len(),
{
    if es.len() == 0 {
        0
    } else {
        count_note_on(es.drop_last()) + (if is_note_on(es.last()) {
            1nat
        } else {
            0nat
        })
    }
}

/// The number of note-off messages among `es`.
pub open spec fn count_note_off(es: Seq<EventModel>) -> nat
    decreases es.len(),
{
    if es.len() == 0 {
        0
    } else {
        count_note_off(es.drop_last()) + (if is_note_off(es.last()) {
            1nat
        } else {
            0nat
        })
    }
}

/// A voice has started one note more than it stopped while a note sounds,
/// and as many as it stopped otherwise.
pub open spec fn balanced(v: Voice) -> bool {
    count_note_on(v.events) == count_note_off(v.events) + (if v.note is Some {
        1nat
    } else {
        0nat
    })
}

proof fn lemma_voice_balanced(song: SongModel, channel: int, midi_channel: u8, percussion: bool, start: Voice, n: nat)
    requires
        balanced(start),
    ensures
        balanced(voice_after(song, channel, midi_channel, percussion, start, n)),
    decreases n,
{
    if n > 0 {
        lemma_voice_balanced(song, channel, midi_channel, percussion, start, (n - 1) as nat);
        let v = voice_after(song, channel, midi_channel, percussion, start, (n - 1) as nat);
        let k = n - 1;
        let rows = rows_per_pattern(song);
        let tick = (k * TICKS_PER_ROW) as u64;
        let fields = cell(song, k / rows as int, k % rows as int, channel);
        let r = release(v, midi_channel, tick);
        assert(balanced(r)) by {
            if v.note is Some {
                assert(r.events.drop_last() == v.events);
            }
        }
        match note_token(cell_token(fields)) {
            NoteToken::Note(x) => {
                let w = strike(v, midi_channel, tick, if percussion { percussion_note(x) } else { x }, cell_velocity(fields));
                assert(w.events.drop_last() == r.events);
            },
            NoteToken::Noise(x) => {
                let w = strike(v, midi_channel, tick, noise_note(x), cell_velocity(fields));
                assert(w.events.drop_last() == r.events);
            },
            _ => {},
        }
    }
}

proof fn lemma_header_quiet(kind: ChannelKind, midi_channel: u8, with_tempo: bool, mpb: u64)
    ensures
        count_note_on(track_header(kind, midi_channel, with_tempo, mpb)) == 0,
        count_note_off(track_header(kind, midi_channel, with_tempo, mpb)) == 0,
{
    let h = track_header(kind, midi_channel, with_tempo, mpb);
    assert forall|i: int| 0 <= i < h.len() implies !is_note_on(#[trigger] h[i]) && !is_note_off(h[i]) by {
        if i == 0 {
            assert(h[0].2[0] == 0xFFu8);
        }
    }
    lemma_counts_zero(h);
}

proof fn lemma_counts_zero(es: Seq<EventModel>)
    requires
        forall|i: int| 0 <= i < es.len() ==> !is_note_on(#[trigger] es[i]) && !is_note_off(es[i]),
    ensures
        count_note_on(es) == 0,
        count_note_off(es) == 0,
    decreases es.len(),
{
    if es.len() > 0 {
        assert forall|i: int| 0 <= i < es.drop_last().len() implies !is_note_on(#[trigger] es.drop_last()[i])
            && !is_note_off(es.drop_last()[i]) by {
            assert(es.drop_last()[i] == es[i]);
        }
        lemma_counts_zero(es.drop_last());
    }
}

/// Every note that a track starts it also stops: a track has as many
/// note-off messages as note-on messages.
pub proof fn lemma_notes_released(song: SongModel, channel: int, kind: ChannelKind, midi_channel: u8, with_tempo: bool, mpb: u64)
    ensures
        count_note_on(channel_events(song, channel, kind, midi_channel, with_tempo, mpb)) == count_note_off(
            channel_events(song, channel, kind, midi_channel, with_tempo, mpb),
        ),
{
    let start = Voice { note: None, events: track_header(kind, midi_channel, with_tempo, mpb) };
    lemma_header_quiet(kind, midi_channel, with_tempo, mpb);
    lemma_voice_balanced(song, channel, midi_channel, channel_is_percussion(kind), start, total_rows(song));
    let end_tick = (total_rows(song) * TICKS_PER_ROW) as u64;
    let v = voice_after(song, channel, midi_channel, channel_is_percussion(kind), start, total_rows(song));
    let r = release(v, midi_channel, end_tick);
    if v.note is Some {
        assert(r.events.drop_last() == v.events);
    }
    let es = r.events.push((end_tick, 0u8, end_bytes()));
    assert(es.drop_last() == r.events);
    assert(end_bytes()[0] == 0xFFu8);
    assert(!is_note_on(es.last()) && !is_note_off(es.last()));
    assert(balanced(r));
    assert(es == channel_events(song, channel, kind, midi_channel, with_tempo, mpb));
}

/// The tempo and time signature go into the first track written and into no
/// other: after any number of channels, they have been written exactly when a
/// track has.
pub proof fn lemma_tempo_in_first_track(song: SongModel, chips: Seq<ChannelKind>, mpb: u64, n: nat)
    ensures
        convert_channels(song, chips, mpb, n).tempo_written <==> convert_channels(song, chips, mpb, n).tracks.len() > 0,
    decreases n,
{
    if n > 0 {
        lemma_tempo_in_first_track(song, chips, mpb, (n - 1) as nat);
    }
}

/// A note row on a melodic channel sounds exactly the note of its token, on
/// the track's channel and with the row's velocity; only a percussion channel
/// moves the note into the General MIDI percussion range 35..=81, leaving
/// notes already in that range as they are.
pub proof fn lemma_note_row(v: Voice, fields: Seq<Seq<char>>, midi_channel: u8, percussion: bool, tick: u64, n: u8)
    requires
        note_token(cell_token(fields)) == NoteToken::Note(n),
    ensures
        !percussion ==> voice_row(v, fields, midi_channel, percussion, tick).note == Some(n),
        !percussion ==> voice_row(v, fields, midi_channel, percussion, tick).events.last() == (
            tick,
            1u8,
            seq![(0x90 + midi_channel % 16) as u8, n, cell_velocity(fields)],
        ),
        percussion ==> (voice_row(v, fields, midi_channel, percussion, tick).note matches Some(p) && 35 <= p <= 81
            && (35 <= n <= 81 ==> p == n) && (n < 35 ==> p == 35) && (n > 81 ==> p == 81)),
{
}

/// Every event that a row adds is a note message on the track's MIDI channel,
/// and a row that cuts or starts a note first releases the sounding note with
/// a note-off for that note on that same channel.
pub proof fn lemma_row_channel(v: Voice, fields: Seq<Seq<char>>, midi_channel: u8, percussion: bool, tick: u64)
    ensures
        ({
            let w = voice_row(v, fields, midi_channel, percussion, tick);
            &&& v.events.len() <= w.events.len()
            &&& w.events.take(v.events.len() as int) == v.events
            &&& forall|i: int|
                v.events.len() <= i < w.events.len() ==> (#[trigger] w.events[i]).2.len() == 3 && (w.events[i].2[0]
                    == (0x80 + midi_channel % 16) as u8 || w.events[i].2[0] == (0x90 + midi_channel % 16) as u8)
            &&& (v.note is Some && note_token(cell_token(fields)) != NoteToken::Blank) ==> w.events[v.events.len() as int]
                == (tick, 0u8, seq![(0x80 + midi_channel % 16) as u8, v.note.unwrap(), 0u8])
        }),
{
    let w = voice_row(v, fields, midi_channel, percussion, tick);
    let r = release(v, midi_channel, tick);
    assert(r.events.take(v.events.len() as int) =~= v.events);
    assert(w.events.take(v.events.len() as int) =~= v.events);
}

} // verus!
