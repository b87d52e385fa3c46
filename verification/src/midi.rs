//! Minimal Standard MIDI File (format 1) writer.
use vstd::prelude::*;

verus! {

/// Ticks per quarter note used for all generated files.
pub const TICKS_PER_BEAT: u16 = 480;

/// Internal resolution: one FamiTracker row = 120 ticks (1/4 beat).
pub const TICKS_PER_ROW: u64 = 120;

/// The largest value that a variable-length quantity here may carry, plus one.
pub const VLQ_LIMIT: u32 = 0x1000_0000;

/// A track event: its tick, its priority among events at the same tick
/// (lower first), and its raw bytes.
pub type EventModel = (u64, u8, Seq<u8>);

/// The bytes of a 16-bit value, most significant first.
pub open spec fn be16(x: u16) -> Seq<u8> {
    seq![(x / 256) as u8, (x % 256) as u8]
}

/// The bytes of a 32-bit value, most significant first.
pub open spec fn be32(x: u32) -> Seq<u8> {
    seq![(x / 0x100_0000) as u8, ((x / 0x1_0000) % 256) as u8, ((x / 256) % 256) as u8, (x % 256) as u8]
}

/// The leading groups of a variable-length quantity: seven bits each, most
/// significant first, each with its top bit set.
pub open spec fn vlq_high(v: nat) -> Seq<u8>
    decreases v,
{
    if v == 0 {
        seq![]
    } else {
        vlq_high(v / 128).push(((v % 128) + 128) as u8)
    }
}

/// The MIDI variable-length quantity for `v`: seven bits per byte, most
/// significant group first, the top bit set on every byte but the last.
pub open spec fn vlq(v: u32) -> Seq<u8> {
    vlq_high(v as nat / 128).push((v % 128) as u8)
}

/// The number that a variable-length quantity denotes: the low seven bits of
/// each byte, most significant first.
pub open spec fn vlq_value(bytes: Seq<u8>) -> nat
    decreases bytes.len(),
{
    if bytes.len() == 0 {
        0
    } else {
        vlq_value(bytes.drop_last()) * 128 + (bytes.last() % 128) as nat
    }
}

fn push_vlq_high(out: &mut Vec<u8>, v: u32)
    ensures
        final(out)@ == old(out)@ + vlq_high(v as nat),
    decreases v,
{
    if v == 0 {
        assert(old(out)@ + vlq_high(0) =~= old(out)@);
        return ;
    }
    push_vlq_high(out, v / 128);
    out.push((v % 128 + 128) as u8);
    assert(out@ =~= old(out)@ + vlq_high(v as nat));
}

/// Variable-length quantity encoding used for delta times and lengths.
pub fn write_vlq(out: &mut Vec<u8>, value: u32)
    requires
        value < VLQ_LIMIT,
    ensures
        final(out)@ == old(out)@ + vlq(value),
{
    push_vlq_high(out, value / 128);
    out.push((value % 128) as u8);
    assert(out@ =~= old(out)@ + vlq(value));
}

proof fn lemma_vlq_high(v: nat)
    ensures
        vlq_value(vlq_high(v)) == v,
        forall|i: int| 0 <= i < vlq_high(v).len() ==> #[trigger] vlq_high(v)[i] >= 128,
        v < 0x20_0000 ==> vlq_high(v).len() <= 3,
        v == 0 <==> vlq_high(v).len() == 0,
        v > 0 ==> vlq_high(v)[0] != 0x80,
    decreases v,
{
    if v > 0 {
        lemma_vlq_high(v / 128);
        let h = vlq_high(v);
        assert(h.drop_last() =~= vlq_high(v / 128));
        if v / 128 > 0 {
            assert(h[0] == vlq_high(v / 128)[0]);
        }
        assert((((v % 128) + 128) as u8) % 128 == v % 128);
        assert(v == (v / 128) * 128 + v % 128);
    }
    lemma_vlq_high_len(v);
}

proof fn lemma_vlq_high_len(v: nat)
    ensures
        v < 128 ==> vlq_high(v).len() <= 1,
        v < 0x4000 ==> vlq_high(v).len() <= 2,
        v < 0x20_0000 ==> vlq_high(v).len() <= 3,
{
    let a = v / 128;
    let b = a / 128;
    let c = b / 128;
    assert(vlq_high(0).len() == 0);
    if v < 0x20_0000 {
        assert(c == 0);
        assert(vlq_high(b).len() <= 1);
        assert(vlq_high(a).len() <= 2);
    }
    if v < 0x4000 {
        assert(b == 0);
        assert(vlq_high(a).len() <= 1);
    }
}

/// A variable-length quantity reads back as the value written: its last byte
/// has the top bit clear and every other byte has it set; it takes one to four
/// bytes, and it is in shortest form: a longer one never starts with `0x80`.
pub proof fn lemma_vlq_roundtrip(v: u32)
    requires
        v < VLQ_LIMIT,
    ensures
        vlq_value(vlq(v)) == v,
        1 <= vlq(v).len() <= 4,
        vlq(v).last() < 128,
        forall|i: int| 0 <= i < vlq(v).len() - 1 ==> #[trigger] vlq(v)[i] >= 128,
        vlq(v).len() > 1 ==> vlq(v)[0] != 0x80,
{
    lemma_vlq_high(v as nat / 128);
    let b = vlq(v);
    assert(b.drop_last() =~= vlq_high(v as nat / 128));
    if b.len() > 1 {
        assert(b[0] == vlq_high(v as nat / 128)[0]);
    }
    assert(v == (v as nat / 128) * 128 + v % 128);
    assert forall|i: int| 0 <= i < b.len() - 1 implies #[trigger] b[i] >= 128 by {
        assert(b[i] == vlq_high(v as nat / 128)[i]);
    }
}

/// The bytes of all `parts`, one after another.
pub open spec fn concat(parts: Seq<Seq<u8>>) -> Seq<u8>
    decreases parts.len(),
{
    if parts.len() == 0 {
        seq![]
    } else {
        concat(parts.drop_last()) + parts.last()
    }
}

/// The four bytes `"MThd"`.
pub open spec fn header_magic() -> Seq<u8> {
    seq![0x4du8, 0x54u8, 0x68u8, 0x64u8]
}

/// The four bytes `"MTrk"`.
pub open spec fn track_magic() -> Seq<u8> {
    seq![0x4du8, 0x54u8, 0x72u8, 0x6bu8]
}

/// A complete file: the `MThd` chunk (length 6, format, number of tracks,
/// division), then the track chunks as they are.
pub open spec fn file_bytes(format: u16, division: u16, tracks: Seq<Seq<u8>>) -> Seq<u8> {
    header_magic() + be32(6) + be16(format) + be16(tracks.len() as u16) + be16(division) + concat(
        tracks,
    )
}

/// A complete MIDI file before serialisation.
#[derive(Debug, Clone)]
pub struct MidiFile {
    pub format: u16,
    pub division: u16,
    /// Raw `MTrk` chunk bytes (including the `MTrk` magic and length).
    pub tracks: Vec<Vec<u8>>,
}

/// The views of the track chunks.
pub open spec fn tracks_view(tracks: Seq<Vec<u8>>) -> Seq<Seq<u8>> {
    tracks.map_values(|t: Vec<u8>| t@)
}

fn push_be16(out: &mut Vec<u8>, x: u16)
    ensures
        final(out)@ == old(out)@ + be16(x),
{
    out.push((x / 256) as u8);
    out.push((x % 256) as u8);
    assert(out@ =~= old(out)@ + be16(x));
}

fn push_be32(out: &mut Vec<u8>, x: u32)
    ensures
        final(out)@ == old(out)@ + be32(x),
{
    out.push((x / 0x100_0000) as u8);
    out.push(((x / 0x1_0000) % 256) as u8);
    out.push(((x / 256) % 256) as u8);
    out.push((x % 256) as u8);
    assert(out@ =~= old(out)@ + be32(x));
}

fn push_all(out: &mut Vec<u8>, bytes: &Vec<u8>)
    ensures
        final(out)@ == old(out)@ + bytes@,
{
    for k in 0..bytes.len()
        invariant
            out@ == old(out)@ + bytes@.take(k as int),
    {
        out.push(bytes[k]);
        assert(out@ =~= old(out)@ + bytes@.take(k + 1));
    }
    assert(bytes@.take(bytes.len() as int) =~= bytes@);
}

impl MidiFile {
    pub fn new(format: u16, division: u16) -> (m: Self)
        ensures
            m.format == format,
            m.division == division,
            m.tracks@.len() == 0,
    {
        MidiFile { format, division, tracks: Vec::new() }
    }

    /// Serialise the whole file to bytes.
    pub fn to_bytes(&self) -> (out: Vec<u8>)
        ensures
            out@ == file_bytes(self.format, self.division, tracks_view(self.tracks@)),
    {
        let mut out: Vec<u8> = Vec::new();
        out.push(0x4d);
        out.push(0x54);
        out.push(0x68);
        out.push(0x64);
        push_be32(&mut out, 6);
        push_be16(&mut out, self.format);
        push_be16(&mut out, self.tracks.len() as u16);
        push_be16(&mut out, self.division);
        let ghost head = out@;
        assert(head =~= header_magic() + be32(6) + be16(self.format) + be16(
            tracks_view(self.tracks@).len() as u16,
        ) + be16(self.division));
        for k in 0..self.tracks.len()
            invariant
                out@ == head + concat(tracks_view(self.tracks@).take(k as int)),
        {
            let ghost before = out@;
            push_all(&mut out, &self.tracks[k]);
            assert(tracks_view(self.tracks@).take(k + 1).drop_last() =~= tracks_view(
                self.tracks@,
            ).take(k as int));
            assert(out@ =~= head + concat(tracks_view(self.tracks@).take(k + 1)));
        }
        assert(tracks_view(self.tracks@).take(self.tracks.len() as int) =~= tracks_view(
            self.tracks@,
        ));
        out
    }
}

impl Default for MidiFile {
    fn default() -> (m: Self)
        ensures
            m.format == 1,
            m.division == TICKS_PER_BEAT,
            m.tracks@.len() == 0,
    {
        MidiFile::new(1, TICKS_PER_BEAT)
    }
}

/// Whether `a` sorts no later than `b`: by tick, then by priority.
pub open spec fn key_le(a: EventModel, b: EventModel) -> bool {
    a.0 < b.0 || (a.0 == b.0 && a.1 <= b.1)
}

/// Where `e` goes into `r`: after the last event that does not sort after it.
pub open spec fn insert_pos(r: Seq<EventModel>, e: EventModel) -> int
    decreases r.len(),
{
    if r.len() == 0 {
        0
    } else if key_le(r.last(), e) {
        r.len() as int
    } else {
        insert_pos(r.drop_last(), e)
    }
}

/// The events in the order they are written: sorted by tick, then by
/// priority, events with equal tick and priority in the order they were
/// added (each event inserted after those that do not sort after it).
pub open spec fn sorted_events(s: Seq<EventModel>) -> Seq<EventModel>
    decreases s.len(),
{
    if s.len() == 0 {
        seq![]
    } else {
        let r = sorted_events(s.drop_last());
        r.insert(insert_pos(r, s.last()), s.last())
    }
}

/// The events with tick `t` and priority `p`, in order.
pub open spec fn with_key(s: Seq<EventModel>, t: u64, p: u8) -> Seq<EventModel>
    decreases s.len(),
{
    if s.len() == 0 {
        seq![]
    } else if s.last().0 == t && s.last().1 == p {
        with_key(s.drop_last(), t, p).push(s.last())
    } else {
        with_key(s.drop_last(), t, p)
    }
}

/// The delta-time encoded events, the first delta counted from tick `last`.
pub open spec fn event_stream(es: Seq<EventModel>, last: u64) -> Seq<u8>
    decreases es.len(),
{
    if es.len() == 0 {
        seq![]
    } else {
        vlq((es[0].0 - last) as u32) + es[0].2 + event_stream(es.drop_first(), es[0].0)
    }
}

/// Whether every delta time of `es`, counted from `last`, can be written.
pub open spec fn deltas_fit(es: Seq<EventModel>, last: u64) -> bool
    decreases es.len(),
{
    es.len() == 0 || (((es[0].0 - last) as u32) < VLQ_LIMIT && deltas_fit(es.drop_first(), es[0].0))
}

/// The `MTrk` chunk of a track with events `events`.
pub open spec fn track_chunk(events: Seq<EventModel>) -> Seq<u8> {
    let data = event_stream(sorted_events(events), 0);
    track_magic() + be32(data.len() as u32) + data
}

/// Whether a track with events `events` can be written.
pub open spec fn track_fits(events: Seq<EventModel>) -> bool {
    deltas_fit(sorted_events(events), 0)
}

/// An event as it is stored.
pub type Event = (u64, u8, Vec<u8>);

/// The views of stored events.
pub open spec fn events_view(v: Seq<Event>) -> Seq<EventModel> {
    v.map_values(|e: Event| (e.0, e.1, e.2@))
}

proof fn lemma_insert_pos(r: Seq<EventModel>, e: EventModel)
    ensures
        0 <= insert_pos(r, e) <= r.len(),
        insert_pos(r, e) > 0 ==> key_le(r[insert_pos(r, e) - 1], e),
        forall|j: int| insert_pos(r, e) <= j < r.len() ==> !key_le(#[trigger] r[j], e),
    decreases r.len(),
{
    if r.len() > 0 && !key_le(r.last(), e) {
        lemma_insert_pos(r.drop_last(), e);
        assert forall|j: int| insert_pos(r, e) <= j < r.len() implies !key_le(#[trigger] r[j], e) by {
            if j < r.len() - 1 {
                assert(r[j] == r.drop_last()[j]);
            }
        }
    }
}

/// The events are written in order of tick, then priority.
pub proof fn lemma_sorted_events_ordered(s: Seq<EventModel>)
    ensures
        sorted_events(s).len() == s.len(),
        forall|i: int, j: int|
            0 <= i < j < sorted_events(s).len() ==> key_le(
                #[trigger] sorted_events(s)[i],
                #[trigger] sorted_events(s)[j],
            ),
    decreases s.len(),
{
    if s.len() > 0 {
        let r = sorted_events(s.drop_last());
        let e = s.last();
        lemma_sorted_events_ordered(s.drop_last());
        lemma_insert_pos(r, e);
        let p = insert_pos(r, e);
        let q = r.insert(p, e);
        assert forall|i: int, j: int| 0 <= i < j < q.len() implies key_le(
            #[trigger] q[i],
            #[trigger] q[j],
        ) by {
            if j < p {
            } else if j == p {
                if i < p - 1 {
                    assert(key_le(r[i], r[p - 1]));
                }
            } else if i < p {
                assert(!key_le(r[j - 1], e));
            } else if i == p {
                assert(!key_le(r[j - 1], e));
            } else {
                assert(key_le(r[i - 1], r[j - 1]));
            }
        }
    }
}

proof fn lemma_with_key_add(a: Seq<EventModel>, b: Seq<EventModel>, t: u64, p: u8)
    ensures
        with_key(a + b, t, p) == with_key(a, t, p) + with_key(b, t, p),
    decreases b.len(),
{
    if b.len() == 0 {
        assert(a + b =~= a);
        assert(with_key(a, t, p) + with_key(b, t, p) =~= with_key(a, t, p));
    } else {
        lemma_with_key_add(a, b.drop_last(), t, p);
        assert((a + b).drop_last() =~= a + b.drop_last());
        assert((a + b).last() == b.last());
        if b.last().0 == t && b.last().1 == p {
            assert(with_key(a, t, p) + with_key(b, t, p) =~= (with_key(a, t, p) + with_key(
                b.drop_last(),
                t,
                p,
            )).push(b.last()));
        }
    }
}

proof fn lemma_with_key_none(b: Seq<EventModel>, t: u64, p: u8)
    requires
        forall|j: int| 0 <= j < b.len() ==> !(#[trigger] b[j].0 == t && b[j].1 == p),
    ensures
        with_key(b, t, p) == Seq::<EventModel>::empty(),
    decreases b.len(),
{
    if b.len() > 0 {
        assert forall|j: int| 0 <= j < b.drop_last().len() implies !(
        #[trigger] b.drop_last()[j].0 == t && b.drop_last()[j].1 == p) by {
            assert(b.drop_last()[j] == b[j]);
        }
        lemma_with_key_none(b.drop_last(), t, p);
    }
}

/// Sorting keeps, for each tick and priority, the events with that tick and
/// priority in the order they were added, and adds or drops none.
pub proof fn lemma_sorted_events_stable(s: Seq<EventModel>, t: u64, p: u8)
    ensures
        with_key(sorted_events(s), t, p) == with_key(s, t, p),
    decreases s.len(),
{
    if s.len() > 0 {
        let r = sorted_events(s.drop_last());
        let e = s.last();
        lemma_sorted_events_stable(s.drop_last(), t, p);
        lemma_insert_pos(r, e);
        let k = insert_pos(r, e);
        let q = r.insert(k, e);
        assert(q =~= r.take(k) + seq![e] + r.skip(k));
        assert(r =~= r.take(k) + r.skip(k));
        lemma_with_key_add(r.take(k) + seq![e], r.skip(k), t, p);
        lemma_with_key_add(r.take(k), seq![e], t, p);
        lemma_with_key_add(r.take(k), r.skip(k), t, p);
        assert(seq![e].drop_last() =~= Seq::<EventModel>::empty());
        assert(seq![e].last() == e);
        assert(with_key(Seq::<EventModel>::empty(), t, p) == Seq::<EventModel>::empty());
        if e.0 == t && e.1 == p {
            assert(with_key(seq![e], t, p) =~= seq![e]);
            assert forall|j: int| 0 <= j < r.skip(k).len() implies !(#[trigger] r.skip(k)[j].0 == t
                && r.skip(k)[j].1 == p) by {
                assert(r.skip(k)[j] == r[k + j]);
                assert(!key_le(r[k + j], e));
            }
            lemma_with_key_none(r.skip(k), t, p);
            assert(with_key(r.take(k), t, p) + with_key(r.skip(k), t, p) =~= with_key(
                r.take(k),
                t,
                p,
            ));
            assert(with_key(r.take(k) + seq![e], t, p) + with_key(r.skip(k), t, p) =~= with_key(
                r.take(k),
                t,
                p,
            ).push(e));
        } else {
            assert(with_key(seq![e], t, p) =~= Seq::<EventModel>::empty());
            assert(with_key(r.take(k), t, p) + with_key(seq![e], t, p) =~= with_key(
                r.take(k),
                t,
                p,
            ));
        }
    }
}

/// Accumulates events for one track and serialises them with delta times.
#[derive(Debug, Clone)]
pub struct TrackBuilder {
    /// (tick, priority, raw event bytes). Lower priority sorts first at equal ticks.
    events: Vec<Event>,
}

impl View for TrackBuilder {
    type V = Seq<EventModel>;

    closed spec fn view(&self) -> Seq<EventModel> {
        events_view(self.events@)
    }
}

impl Default for TrackBuilder {
    fn default() -> (t: Self)
        ensures
            t@ == Seq::<EventModel>::empty(),
    {
        TrackBuilder::new()
    }
}

/// The note-on message on `channel`.
pub open spec fn note_on_bytes(channel: u8, note: u8, velocity: u8) -> Seq<u8> {
    seq![(0x90 + channel % 16) as u8, note, velocity]
}

/// The note-off message on `channel`.
pub open spec fn note_off_bytes(channel: u8, note: u8) -> Seq<u8> {
    seq![(0x80 + channel % 16) as u8, note, 0]
}

/// The program-change message on `channel`.
pub open spec fn program_change_bytes(channel: u8, program: u8) -> Seq<u8> {
    seq![(0xC0 + channel % 16) as u8, program % 128]
}

/// The track-name meta event.
pub open spec fn track_name_bytes(name: Seq<char>) -> Seq<u8> {
    let bytes = vstd::utf8::encode_utf8(name);
    seq![0xFFu8, 0x03u8] + vlq(bytes.len() as u32) + bytes
}

/// The tempo a tempo event carries: the microseconds per beat, at most
/// `0xFF_FFFF`.
pub open spec fn tempo_value(microseconds_per_beat: u64) -> u32 {
    if microseconds_per_beat < 0xFF_FFFF {
        microseconds_per_beat as u32
    } else {
        0xFF_FFFFu32
    }
}

/// The set-tempo meta event.
pub open spec fn tempo_bytes(microseconds_per_beat: u64) -> Seq<u8> {
    let v = tempo_value(microseconds_per_beat);
    seq![0xFFu8, 0x51u8, 0x03u8, (v / 0x1_0000) as u8, ((v / 256) % 256) as u8, (v % 256) as u8]
}

/// The 4/4 time-signature meta event.
pub open spec fn time_signature_bytes() -> Seq<u8> {
    seq![0xFFu8, 0x58u8, 0x04u8, 4u8, 2u8, 24u8, 8u8]
}

/// The end-of-track meta event.
pub open spec fn end_bytes() -> Seq<u8> {
    seq![0xFFu8, 0x2Fu8, 0x00u8]
}

/// Whether a track name can be written: its UTF-8 length, as the 32-bit
/// length field holds it, must fit a variable-length quantity.
pub open spec fn name_fits(name: Seq<char>) -> bool {
    (vstd::utf8::encode_utf8(name).len() as u32) < VLQ_LIMIT
}

impl TrackBuilder {
    pub fn new() -> (t: Self)
        ensures
            t@ == Seq::<EventModel>::empty(),
    {
        let t = TrackBuilder { events: Vec::new() };
        assert(t@ =~= Seq::<EventModel>::empty());
        t
    }

    fn push_event(&mut self, tick: u64, priority: u8, bytes: Vec<u8>)
        ensures
            final(self)@ == old(self)@.push((tick, priority, bytes@)),
    {
        self.events.push((tick, priority, bytes));
        assert(events_view(self.events@) =~= events_view(old(self).events@).push(
            (tick, priority, bytes@),
        ));
    }

    pub fn note_on(&mut self, tick: u64, channel: u8, note: u8, velocity: u8)
        ensures
            final(self)@ == old(self)@.push((tick, 1, note_on_bytes(channel, note, velocity))),
    {
        let bytes = vec![0x90 + channel % 16, note, velocity];
        assert(bytes@ =~= note_on_bytes(channel, note, velocity));
        self.push_event(tick, 1, bytes);
    }

    pub fn note_off(&mut self, tick: u64, channel: u8, note: u8)
        ensures
            final(self)@ == old(self)@.push((tick, 0, note_off_bytes(channel, note))),
    {
        let bytes = vec![0x80 + channel % 16, note, 0];
        assert(bytes@ =~= note_off_bytes(channel, note));
        self.push_event(tick, 0, bytes);
    }

    pub fn program_change(&mut self, tick: u64, channel: u8, program: u8)
        ensures
            final(self)@ == old(self)@.push((tick, 0, program_change_bytes(channel, program))),
    {
        let bytes = vec![0xC0 + channel % 16, program % 128];
        assert(bytes@ =~= program_change_bytes(channel, program));
        self.push_event(tick, 0, bytes);
    }

    pub fn track_name(&mut self, tick: u64, name: &str)
        requires
            name_fits(name@),
        ensures
            final(self)@ == old(self)@.push((tick, 0, track_name_bytes(name@))),
    {
        let bytes = name.as_bytes();
        let mut data: Vec<u8> = vec![0xFF, 0x03];
        write_vlq(&mut data, bytes.len() as u32);
        for k in 0..bytes.len()
            invariant
                bytes@ == vstd::utf8::encode_utf8(name@),
                data@ == seq![0xFFu8, 0x03u8] + vlq(bytes@.len() as u32) + bytes@.take(k as int),
        {
            data.push(bytes[k]);
            assert(data@ =~= seq![0xFFu8, 0x03u8] + vlq(bytes@.len() as u32) + bytes@.take(k + 1));
        }
        assert(bytes@.take(bytes@.len() as int) =~= bytes@);
        self.push_event(tick, 0, data);
    }

    pub fn tempo(&mut self, tick: u64, microseconds_per_beat: u64)
        ensures
            final(self)@ == old(self)@.push((tick, 0, tempo_bytes(microseconds_per_beat))),
    {
        let value: u32 = if microseconds_per_beat < 0xFF_FFFF {
            microseconds_per_beat as u32
        } else {
            0xFF_FFFF
        };
        let bytes = vec![0xFF, 0x51, 0x03, (value / 0x1_0000) as u8, ((value / 256) % 256) as u8, (value % 256) as u8];
        assert(bytes@ =~= tempo_bytes(microseconds_per_beat));
        self.push_event(tick, 0, bytes);
    }

    pub fn time_signature(&mut self, tick: u64)
        ensures
            final(self)@ == old(self)@.push((tick, 0, time_signature_bytes())),
    {
        // 4/4 with 24 clocks per quarter and 8 thirty-seconds per quarter.
        let bytes = vec![0xFF, 0x58, 0x04, 4, 2, 24, 8];
        assert(bytes@ =~= time_signature_bytes());
        self.push_event(tick, 0, bytes);
    }

    pub fn end(&mut self, tick: u64)
        ensures
            final(self)@ == old(self)@.push((tick, 0, end_bytes())),
    {
        let bytes = vec![0xFF, 0x2F, 0x00];
        assert(bytes@ =~= end_bytes());
        self.push_event(tick, 0, bytes);
    }
}

fn key_le_exec(a: &Event, b: &Event) -> (r: bool)
    ensures
        r == key_le((a.0, a.1, a.2@), (b.0, b.1, b.2@)),
{
    a.0 < b.0 || (a.0 == b.0 && a.1 <= b.1)
}

fn copy_bytes(v: &Vec<u8>) -> (r: Vec<u8>)
    ensures
        r@ == v@,
{
    let mut r: Vec<u8> = Vec::new();
    push_all(&mut r, v);
    assert(r@ =~= v@);
    r
}

/// The events in the order `sorted_events` gives.
fn sort_events(events: &Vec<Event>) -> (r: Vec<Event>)
    ensures
        events_view(r@) == sorted_events(events_view(events@)),
{
    let ghost all = events_view(events@);
    let mut r: Vec<Event> = Vec::new();
    assert(all.take(0) =~= Seq::<EventModel>::empty());
    assert(events_view(r@) =~= Seq::<EventModel>::empty());
    for k in 0..events.len()
        invariant
            all == events_view(events@),
            events_view(r@) == sorted_events(all.take(k as int)),
    {
        let e: Event = (events[k].0, events[k].1, copy_bytes(&events[k].2));
        let ghost ev = (e.0, e.1, e.2@);
        assert(all[k as int] == ev);
        assert(all.take(k + 1).drop_last() =~= all.take(k as int));
        let ghost rv = events_view(r@);
        let mut j = r.len();
        assert(rv.take(r.len() as int) =~= rv);
        while j > 0
            invariant
                0 <= j <= r.len(),
                rv == events_view(r@),
                ev == (e.0, e.1, e.2@),
                insert_pos(rv, ev) == insert_pos(rv.take(j as int), ev),
            ensures
                0 <= j <= r.len(),
                insert_pos(rv, ev) == j as int,
            decreases j,
        {
            assert(rv.take(j as int).drop_last() =~= rv.take(j - 1));
            assert(rv.take(j as int).last() == rv[j - 1]);
            assert(rv[j - 1] == (r@[j - 1].0, r@[j - 1].1, r@[j - 1].2@));
            if key_le_exec(&r[j - 1], &e) {
                assert(rv.take(j as int).len() == j);
                break;
            }
            j = j - 1;
        }
        assert(rv.take(r.len() as int) =~= rv);
        assert(insert_pos(rv, ev) == j as int);
        r.insert(j, e);
        assert(events_view(r@) =~= rv.insert(j as int, ev));
    }
    assert(all.take(all.len() as int) =~= all);
    r
}

impl TrackBuilder {
    /// Whether every delta time of the track can be written.
    pub fn fits(&self) -> (b: bool)
        ensures
            b == track_fits(self@),
    {
        let sorted = sort_events(&self.events);
        proof {
            lemma_sorted_events_ordered(self@);
        }
        deltas_fit_exec(&sorted)
    }

    /// Serialise into a complete `MTrk` chunk.
    pub fn build(self) -> (out: Vec<u8>)
        requires
            track_fits(self@),
        ensures
            out@ == track_chunk(self@),
    {
        let sorted = sort_events(&self.events);
        let ghost sv = events_view(sorted@);
        proof {
            lemma_sorted_events_ordered(self@);
        }
        let mut data: Vec<u8> = Vec::new();
        let mut last: u64 = 0;
        assert(sv.skip(0) =~= sv);
        for k in 0..sorted.len()
            invariant
                sv == events_view(sorted@),
                sv == sorted_events(self@),
                forall|i: int, j: int| 0 <= i < j < sv.len() ==> key_le(#[trigger] sv[i], #[trigger] sv[j]),
                k > 0 ==> last == sv[k - 1].0,
                k == 0 ==> last == 0,
                deltas_fit(sv.skip(k as int), last),
                data@ + event_stream(sv.skip(k as int), last) == event_stream(sv, 0),
        {
            let ghost rest = sv.skip(k as int);
            assert(rest.drop_first() =~= sv.skip(k + 1));
            assert(rest[0] == sv[k as int]);
            let tick = sorted[k].0;
            if k > 0 {
                assert(key_le(sv[k - 1], sv[k as int]));
            }
            let ghost d0 = data@;
            write_vlq(&mut data, (tick - last) as u32);
            push_all(&mut data, &sorted[k].2);
            assert(data@ + event_stream(sv.skip(k + 1), tick) =~= d0 + event_stream(rest, last));
            last = tick;
        }
        assert(sv.skip(sorted.len() as int) =~= Seq::<EventModel>::empty());
        assert(data@ =~= event_stream(sv, 0));
        let mut chunk: Vec<u8> = Vec::new();
        chunk.push(0x4d);
        chunk.push(0x54);
        chunk.push(0x72);
        chunk.push(0x6b);
        push_be32(&mut chunk, data.len() as u32);
        push_all(&mut chunk, &data);
        assert(chunk@ =~= track_chunk(self@));
        chunk
    }
}

fn deltas_fit_exec(sorted: &Vec<Event>) -> (b: bool)
    requires
        forall|i: int, j: int|
            0 <= i < j < events_view(sorted@).len() ==> key_le(
                #[trigger] events_view(sorted@)[i],
                #[trigger] events_view(sorted@)[j],
            ),
    ensures
        b == deltas_fit(events_view(sorted@), 0),
{
    let ghost sv = events_view(sorted@);
    let mut last: u64 = 0;
    assert(sv.skip(0) =~= sv);
    for k in 0..sorted.len()
        invariant
            sv == events_view(sorted@),
            k > 0 ==> last == sv[k - 1].0,
            k == 0 ==> last == 0,
            deltas_fit(sv, 0) == deltas_fit(sv.skip(k as int), last),
            forall|i: int, j: int| 0 <= i < j < sv.len() ==> key_le(#[trigger] sv[i], #[trigger] sv[j]),
    {
        let ghost rest = sv.skip(k as int);
        assert(rest.drop_first() =~= sv.skip(k + 1));
        assert(rest[0] == sv[k as int]);
        let tick = sorted[k].0;
        if k > 0 {
            assert(key_le(sv[k - 1], sv[k as int]));
        }
        let delta = (tick - last) as u32;
        if delta >= VLQ_LIMIT {
            return false;
        }
        last = tick;
    }
    assert(sv.skip(sorted.len() as int) =~= Seq::<EventModel>::empty());
    true
}

/// UTF-8 takes at most four bytes per character.
pub proof fn lemma_utf8_len(s: Seq<char>)
    ensures
        vstd::utf8::encode_utf8(s).len() <= 4 * s.len(),
    decreases s.len(),
{
    if s.len() > 0 {
        lemma_utf8_len(s.drop_first());
    }
}

/// A note message is on the channel it is given: its status byte is
/// `0x9n` for a note-on and `0x8n` for a note-off, where `n` is the channel
/// modulo 16, so a note-off meets the note-on of the same note and channel;
/// the note follows the status byte.
pub proof fn lemma_note_messages(channel: u8, note: u8, velocity: u8)
    ensures
        note_on_bytes(channel, note, velocity).len() == 3,
        note_off_bytes(channel, note).len() == 3,
        note_on_bytes(channel, note, velocity)[0] / 16 == 9,
        note_off_bytes(channel, note)[0] / 16 == 8,
        note_on_bytes(channel, note, velocity)[0] % 16 == channel % 16,
        note_off_bytes(channel, note)[0] % 16 == channel % 16,
        note_on_bytes(channel, note, velocity)[1] == note,
        note_off_bytes(channel, note)[1] == note,
        note_on_bytes(channel, note, velocity)[2] == velocity,
{
}

} // verus!
