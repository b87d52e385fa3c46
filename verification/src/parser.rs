//! Parser for FamiTracker / Dn-FamiTracker text exports.
use std::collections::HashMap;

use vstd::prelude::*;

use crate::text::{
    char_seqs, command_head, command_rest, digit_value, index_of, is_digit, lemma_index_of_bounds,
    lines_from, parse_unsigned, parse_unsigned_range, quoted, quoted_range, range_equals,
    split_command, split_groups, split_on_groups, split_whitespace, split_ws, str_chars,
    string_from_range, strip_cr, text_lines, trim, trim_range, find_char, flush, is_ws, trim_end, trim_start, unsigned_body, digits_value, all_digits,
};

verus! {

broadcast use vstd::std_specs::hash::group_hash_axioms;

/// A single pattern: rows -> channels -> tokens.
pub type Pattern = Vec<Vec<Vec<String>>>;

/// One song/track inside an exported module.
#[derive(Debug, Clone)]
pub struct Song {
    pub name: String,
    /// Rows per pattern (the `<length>` field of `TRACK`).
    pub length: usize,
    pub speed: u32,
    pub tempo: u32,
    /// Effect-column count per channel (from `COLUMNS`).
    pub columns: Vec<usize>,
    /// `orders[order_position][channel]` = pattern id.
    pub orders: Vec<Vec<usize>>,
    /// pattern id -> rows.
    pub patterns: HashMap<usize, Pattern>,
}

/// What a [`Song`] holds, as mathematical values.
pub struct SongModel {
    pub name: Seq<char>,
    pub length: usize,
    pub speed: u32,
    pub tempo: u32,
    pub columns: Seq<usize>,
    pub orders: Seq<Seq<usize>>,
    pub patterns: Map<usize, Seq<Seq<Seq<Seq<char>>>>>,
}

/// The views of the order rows.
pub open spec fn orders_view(orders: Seq<Vec<usize>>) -> Seq<Seq<usize>> {
    orders.map_values(|o: Vec<usize>| o@)
}

/// The views of the patterns.
pub open spec fn patterns_view(m: Map<usize, Pattern>) -> Map<usize, Seq<Seq<Seq<Seq<char>>>>> {
    m.map_values(|p: Pattern| p.deep_view())
}

impl View for Song {
    type V = SongModel;

    open spec fn view(&self) -> SongModel {
        SongModel {
            name: self.name@,
            length: self.length,
            speed: self.speed,
            tempo: self.tempo,
            columns: self.columns@,
            orders: orders_view(self.orders@),
            patterns: patterns_view(self.patterns@),
        }
    }
}

/// The empty song.
pub open spec fn empty_song() -> SongModel {
    SongModel {
        name: seq![],
        length: 0,
        speed: 0,
        tempo: 0,
        columns: seq![],
        orders: seq![],
        patterns: Map::empty(),
    }
}

impl Default for Song {
    fn default() -> (s: Song)
        ensures
            s@ == empty_song(),
    {
        let s = Song {
            name: String::new(),
            length: 0,
            speed: 0,
            tempo: 0,
            columns: Vec::new(),
            orders: Vec::new(),
            patterns: HashMap::new(),
        };
        assert(s@.orders =~= empty_song().orders);
        assert(s@.patterns =~= empty_song().patterns);
        s
    }
}

/// A parsed text export, including global header fields.
#[derive(Debug, Clone)]
pub struct Module {
    /// 0 = NTSC, 1 = PAL.
    pub machine: u8,
    /// Bitfield: 1=VRC6, 2=VRC7, 4=FDS, 8=MMC5, 16=N163, 32=S5B.
    pub expansion: u8,
    /// Channels used by N163 (1..=8). 0 means "not specified" -> default 8.
    pub n163_channels: u8,
    pub songs: Vec<Song>,
}

/// What a [`Module`] holds, as mathematical values.
pub struct ModuleModel {
    pub machine: u8,
    pub expansion: u8,
    pub n163_channels: u8,
    pub songs: Seq<SongModel>,
}

/// The views of a list of songs.
pub open spec fn songs_view(songs: Seq<Song>) -> Seq<SongModel> {
    songs.map_values(|s: Song| s@)
}

impl View for Module {
    type V = ModuleModel;

    open spec fn view(&self) -> ModuleModel {
        ModuleModel {
            machine: self.machine,
            expansion: self.expansion,
            n163_channels: self.n163_channels,
            songs: songs_view(self.songs@),
        }
    }
}

impl Default for Module {
    fn default() -> (m: Module)
        ensures
            m@ == (ModuleModel { machine: 0, expansion: 0, n163_channels: 0, songs: seq![] }),
    {
        let m = Module { machine: 0, expansion: 0, n163_channels: 0, songs: Vec::new() };
        assert(m@.songs =~= Seq::<SongModel>::empty());
        m
    }
}

/// Result of decoding a note column token.
#[derive(Debug, Clone, Copy, PartialEq, Eq, Structural)]
pub enum NoteToken {
    /// Standard pitched note, already converted to a MIDI note number.
    Note(u8),
    /// 2A03 noise pitch (`0-#` .. `F-#`), raw 0..15 value.
    Noise(u8),
    /// `---` or `===`.
    Cut,
    /// `...` / empty / unrecognised.
    Blank,
}

/// Semitone of a note letter within its octave.
pub open spec fn note_base(c: char) -> Option<int> {
    if c == 'C' {
        Some(0)
    } else if c == 'D' {
        Some(2)
    } else if c == 'E' {
        Some(4)
    } else if c == 'F' {
        Some(5)
    } else if c == 'G' {
        Some(7)
    } else if c == 'A' {
        Some(9)
    } else if c == 'B' {
        Some(11)
    } else {
        None
    }
}

/// The meaning of a note-column token. Only its first three characters
/// matter once it is not one of the fixed forms; reading characters agrees
/// with reading the UTF-8 bytes, since no byte of a non-ASCII character
/// equals any of the ASCII characters tested.
pub open spec fn note_token(t: Seq<char>) -> NoteToken {
    if t == seq!['-', '-', '-'] || t == seq!['=', '=', '='] {
        NoteToken::Cut
    } else if t.len() < 3 || t == seq!['.', '.', '.'] {
        NoteToken::Blank
    } else if t[1] == '-' && t[2] == '#' && is_digit(t[0], true) {
        NoteToken::Noise(digit_value(t[0]) as u8)
    } else {
        match note_base(t[0]) {
            None => NoteToken::Blank,
            Some(base) => {
                if (t[1] != '-' && t[1] != '#') || !is_digit(t[2], false) {
                    NoteToken::Blank
                } else {
                    let midi = 12 + 12 * digit_value(t[2]) + base + (if t[1] == '#' {
                        1int
                    } else {
                        0
                    });
                    if midi <= 127 {
                        NoteToken::Note(midi as u8)
                    } else {
                        NoteToken::Blank
                    }
                }
            },
        }
    }
}

fn note_base_of(c: char) -> (r: Option<u8>)
    ensures
        match r {
            Some(b) => note_base(c) == Some(b as int),
            None => note_base(c) is None,
        },
{
    if c == 'C' {
        Some(0)
    } else if c == 'D' {
        Some(2)
    } else if c == 'E' {
        Some(4)
    } else if c == 'F' {
        Some(5)
    } else if c == 'G' {
        Some(7)
    } else if c == 'A' {
        Some(9)
    } else if c == 'B' {
        Some(11)
    } else {
        None
    }
}

fn hex_digit(c: char) -> (r: Option<u8>)
    ensures
        match r {
            Some(d) => is_digit(c, true) && d as nat == digit_value(c) && d < 16,
            None => !is_digit(c, true),
        },
{
    let u = c as u32;
    if 48 <= u && u <= 57 {
        Some((u - 48) as u8)
    } else if 97 <= u && u <= 102 {
        Some((u - 87) as u8)
    } else if 65 <= u && u <= 70 {
        Some((u - 55) as u8)
    } else {
        None
    }
}

/// Decode a note-column token.
///
/// Recognised shapes: `C-4`, `D#3`, `A-0` .. `B-9` and the noise forms
/// `0-#` .. `F-#`. `---` / `===` mean note cut.
pub fn parse_note_token(token: &str) -> (r: NoteToken)
    ensures
        r == note_token(token@),
{
    let t = str_chars(token);
    let n = t.len();
    if n == 3 && ((t[0] == '-' && t[1] == '-' && t[2] == '-') || (t[0] == '=' && t[1] == '='
        && t[2] == '=')) {
        assert(t@ =~= seq!['-', '-', '-'] || t@ =~= seq!['=', '=', '=']);
        return NoteToken::Cut;
    }
    assert(t@ != seq!['-', '-', '-'] && t@ != seq!['=', '=', '=']) by {
        if t@ == seq!['-', '-', '-'] || t@ == seq!['=', '=', '='] {
            assert(t@.len() == 3);
        }
    }
    if n < 3 || (n == 3 && t[0] == '.' && t[1] == '.' && t[2] == '.') {
        assert(t@.len() < 3 || t@ =~= seq!['.', '.', '.']);
        return NoteToken::Blank;
    }
    assert(t@ != seq!['.', '.', '.']) by {
        if t@ == seq!['.', '.', '.'] {
            assert(t@[0] == '.' && t@[1] == '.' && t@[2] == '.');
        }
    }
    if t[1] == '-' && t[2] == '#' {
        if let Some(value) = hex_digit(t[0]) {
            return NoteToken::Noise(value);
        }
    }
    let base = match note_base_of(t[0]) {
        Some(b) => b,
        None => return NoteToken::Blank,
    };
    if t[1] != '-' && t[1] != '#' {
        return NoteToken::Blank;
    }
    let u = t[2] as u32;
    if !(48 <= u && u <= 57) {
        return NoteToken::Blank;
    }
    let octave = (u - 48) as u8;
    let semitone = base + if t[1] == '#' {
        1
    } else {
        0
    };
    let midi = 12 + 12 * octave + semitone;
    if midi <= 127 {
        NoteToken::Note(midi)
    } else {
        NoteToken::Blank
    }
}

/// MIDI velocity for a volume digit: the digit's range 0..15 scaled onto
/// 0..126 and rounded to nearest, at least 1.
pub open spec fn velocity_of_digit(d: nat) -> u8 {
    let scaled = (d * 252 + 15) / 30;
    if scaled == 0 {
        1
    } else {
        scaled as u8
    }
}

/// The velocity for a volume-column token: a single hex digit is scaled,
/// anything else gives 100.
pub open spec fn velocity(t: Seq<char>) -> u8 {
    if t.len() == 1 && is_digit(t[0], true) {
        velocity_of_digit(digit_value(t[0]))
    } else {
        100
    }
}

/// FamiTracker volume column (one hex digit) to MIDI velocity.
pub fn volume_to_velocity(token: &str) -> (v: u8)
    ensures
        v == velocity(token@),
        1 <= v <= 126,
{
    let t = str_chars(token);
    if t.len() == 1 {
        if let Some(digit) = hex_digit(t[0]) {
            let scaled = (digit as u32 * 252 + 15) / 30;
            if scaled == 0 {
                return 1;
            }
            return scaled as u8;
        }
    }
    100
}

/// The parser's state between lines: the header fields read so far, the
/// songs already closed, the song being read and the pattern that `ROW`
/// lines fill.
pub struct ParserModel {
    pub machine: u8,
    pub expansion: u8,
    pub n163_channels: u8,
    pub songs: Seq<SongModel>,
    pub current: Option<SongModel>,
    pub pattern: Option<usize>,
}

/// The state before the first line.
pub open spec fn initial_state() -> ParserModel {
    ParserModel {
        machine: 0,
        expansion: 0,
        n163_channels: 0,
        songs: seq![],
        current: None,
        pattern: None,
    }
}

/// The songs read, the one still open included.
pub open spec fn all_songs(st: ParserModel) -> Seq<SongModel> {
    match st.current {
        Some(s) => st.songs.push(s),
        None => st.songs,
    }
}

/// The module that the state describes once the text ends.
pub open spec fn finish(st: ParserModel) -> ModuleModel {
    ModuleModel {
        machine: st.machine,
        expansion: st.expansion,
        n163_channels: st.n163_channels,
        songs: all_songs(st),
    }
}

/// The numbers among the tokens `ts`, read in base 10 (16 when `hex`) up to
/// `max`; tokens that are not such a number are skipped.
pub open spec fn token_numbers(ts: Seq<Seq<char>>, hex: bool, max: nat) -> Seq<usize>
    decreases ts.len(),
{
    if ts.len() == 0 {
        seq![]
    } else {
        (match parse_unsigned(ts[0], hex, max) {
            Some(v) => seq![v as usize],
            None => seq![],
        }) + token_numbers(ts.drop_first(), hex, max)
    }
}

/// The first token that reads as a `u32` once `':'` is trimmed from its ends.
pub open spec fn first_u32(ts: Seq<Seq<char>>) -> Option<u32>
    decreases ts.len(),
{
    if ts.len() == 0 {
        None
    } else {
        match parse_unsigned(trim(ts[0], true), false, u32::MAX as nat) {
            Some(v) => Some(v as u32),
            None => first_u32(ts.drop_first()),
        }
    }
}

/// The first integer argument of a header line, or `default`.
pub open spec fn int_arg(rest: Seq<char>, default: u32) -> u32 {
    match first_u32(split_ws(rest)) {
        Some(v) => v,
        None => default,
    }
}

/// What follows the first `':'`, or all of `s` when it has none.
pub open spec fn after_colon(s: Seq<char>) -> Seq<char> {
    let i = index_of(s, ':');
    if i < s.len() {
        s.skip(i + 1)
    } else {
        s
    }
}

/// Token `i` of `ts` read as a number up to `max`, or `default`.
pub open spec fn nth_number(ts: Seq<Seq<char>>, i: int, max: nat, default: nat) -> nat {
    if i < ts.len() {
        match parse_unsigned(ts[i], false, max) {
            Some(v) => v,
            None => default,
        }
    } else {
        default
    }
}

/// The song that a `TRACK` line opens: `TRACK <length> <speed> <tempo> "<name>"`,
/// with 64, 6 and 150 for numbers that are missing or unreadable.
pub open spec fn song_header(rest: Seq<char>) -> SongModel {
    let parts = split_ws(rest);
    SongModel {
        name: quoted(rest),
        length: nth_number(parts, 0, usize::MAX as nat, 64) as usize,
        speed: nth_number(parts, 1, u32::MAX as nat, 6) as u32,
        tempo: nth_number(parts, 2, u32::MAX as nat, 150) as u32,
        columns: seq![],
        orders: seq![],
        patterns: Map::empty(),
    }
}

/// The patterns with an empty pattern `id` added when it is missing.
pub open spec fn with_pattern(
    m: Map<usize, Seq<Seq<Seq<Seq<char>>>>>,
    id: usize,
) -> Map<usize, Seq<Seq<Seq<Seq<char>>>>> {
    if m.contains_key(id) {
        m
    } else {
        m.insert(id, seq![])
    }
}

/// The rows with row `idx` set to `g`, the rows before it padded with empty
/// rows where they are missing.
pub open spec fn set_row(
    rows: Seq<Seq<Seq<Seq<char>>>>,
    idx: nat,
    g: Seq<Seq<Seq<char>>>,
) -> Seq<Seq<Seq<Seq<char>>>> {
    if idx < rows.len() {
        rows.update(idx as int, g)
    } else {
        Seq::new(
            idx + 1,
            |i: int|
                if i < rows.len() {
                    rows[i]
                } else if i == idx {
                    g
                } else {
                    seq![]
                },
        )
    }
}

/// The channel groups of a `ROW` line: pieces between `" : "`, each split
/// into its whitespace-separated tokens.
pub open spec fn row_groups(s: Seq<char>) -> Seq<Seq<Seq<char>>> {
    split_groups(s).map_values(|g: Seq<char>| split_ws(g))
}

/// A `ROW <hex index> : <group> : <group> ...` line applied to a song whose
/// current pattern is `pid`; a row index that does not read counts as 0.
pub open spec fn apply_row(s: SongModel, pid: usize, rest: Seq<char>) -> SongModel {
    let i = index_of(rest, ':');
    if i < rest.len() {
        let row_index = match parse_unsigned(trim(rest.take(i), false), true, u32::MAX as nat) {
            Some(v) => v,
            None => 0,
        };
        let rows = if s.patterns.contains_key(pid) {
            s.patterns[pid]
        } else {
            seq![]
        };
        SongModel {
            patterns: s.patterns.insert(
                pid,
                set_row(rows, row_index, row_groups(rest.skip(i + 1))),
            ),
            ..s
        }
    } else {
        s
    }
}

pub open spec fn word_track() -> Seq<char> {
    "TRACK"@
}

pub open spec fn word_machine() -> Seq<char> {
    "MACHINE"@
}

pub open spec fn word_expansion() -> Seq<char> {
    "EXPANSION"@
}

pub open spec fn word_n163() -> Seq<char> {
    "N163CHANNELS"@
}

pub open spec fn word_columns() -> Seq<char> {
    "COLUMNS"@
}

pub open spec fn word_order() -> Seq<char> {
    "ORDER"@
}

pub open spec fn word_pattern() -> Seq<char> {
    "PATTERN"@
}

pub open spec fn word_row() -> Seq<char> {
    "ROW"@
}

/// A `TRACK` line: the song being read is closed and a new one opened.
pub open spec fn track_command(st: ParserModel, rest: Seq<char>) -> ParserModel {
    ParserModel { songs: all_songs(st), current: Some(song_header(rest)), pattern: None, ..st }
}

/// A `COLUMNS` line: the effect-column counts of the song being read.
pub open spec fn columns_command(st: ParserModel, rest: Seq<char>) -> ParserModel {
    match st.current {
        Some(s) => ParserModel {
            current: Some(
                SongModel {
                    columns: token_numbers(split_ws(after_colon(rest)), false, usize::MAX as nat),
                    ..s
                },
            ),
            ..st
        },
        None => st,
    }
}

/// An `ORDER` line: one more row of pattern ids, when it has any.
pub open spec fn order_command(st: ParserModel, rest: Seq<char>) -> ParserModel {
    match st.current {
        Some(s) => {
            let ids = token_numbers(split_ws(after_colon(rest)), true, u32::MAX as nat);
            if ids.len() > 0 {
                ParserModel { current: Some(SongModel { orders: s.orders.push(ids), ..s }), ..st }
            } else {
                st
            }
        },
        None => st,
    }
}

/// A `PATTERN` line: the pattern that the following rows fill.
pub open spec fn pattern_command(st: ParserModel, rest: Seq<char>) -> ParserModel {
    match st.current {
        Some(s) => {
            let ts = split_ws(rest);
            if ts.len() > 0 {
                match parse_unsigned(trim(ts[0], false), true, u32::MAX as nat) {
                    Some(id) => ParserModel {
                        current: Some(
                            SongModel { patterns: with_pattern(s.patterns, id as usize), ..s },
                        ),
                        pattern: Some(id as usize),
                        ..st
                    },
                    None => st,
                }
            } else {
                st
            }
        },
        None => st,
    }
}

/// A `ROW` line: one row of the current pattern.
pub open spec fn row_command(st: ParserModel, rest: Seq<char>) -> ParserModel {
    match (st.current, st.pattern) {
        (Some(s), Some(pid)) => ParserModel { current: Some(apply_row(s, pid, rest)), ..st },
        _ => st,
    }
}

/// The effect of one command line with command word `head`; unknown
/// commands change nothing.
pub open spec fn apply_command(st: ParserModel, head: Seq<char>, rest: Seq<char>) -> ParserModel {
    if head == word_track() {
        track_command(st, rest)
    } else if head == word_machine() {
        ParserModel { machine: int_arg(rest, 0) as u8, ..st }
    } else if head == word_expansion() {
        ParserModel { expansion: int_arg(rest, 0) as u8, ..st }
    } else if head == word_n163() {
        ParserModel { n163_channels: int_arg(rest, 8) as u8, ..st }
    } else if head == word_columns() {
        columns_command(st, rest)
    } else if head == word_order() {
        order_command(st, rest)
    } else if head == word_pattern() {
        pattern_command(st, rest)
    } else if head == word_row() {
        row_command(st, rest)
    } else {
        st
    }
}

/// The effect of one line: blank lines and `#` comments change nothing;
/// other lines are trimmed and split into a command word and the rest.
pub open spec fn step(st: ParserModel, line: Seq<char>) -> ParserModel {
    let t = trim(line, false);
    if t.len() == 0 || t[0] == '#' {
        st
    } else {
        apply_command(st, command_head(t), command_rest(t))
    }
}

/// The state after the lines `ls`.
pub open spec fn run(st: ParserModel, ls: Seq<Seq<char>>) -> ParserModel
    decreases ls.len(),
{
    if ls.len() == 0 {
        st
    } else {
        run(step(st, ls[0]), ls.drop_first())
    }
}

/// The module that a text export describes.
pub open spec fn parse_export(text: Seq<char>) -> ModuleModel {
    finish(run(initial_state(), text_lines(text)))
}

/// The parser's working state.
struct ParserState {
    machine: u8,
    expansion: u8,
    n163_channels: u8,
    songs: Vec<Song>,
    current: Option<Song>,
    pattern: Option<usize>,
}

/// The view of an optional song.
pub open spec fn opt_song_view(s: Option<Song>) -> Option<SongModel> {
    match s {
        Some(s) => Some(s@),
        None => None,
    }
}

impl View for ParserState {
    type V = ParserModel;

    closed spec fn view(&self) -> ParserModel {
        ParserModel {
            machine: self.machine,
            expansion: self.expansion,
            n163_channels: self.n163_channels,
            songs: songs_view(self.songs@),
            current: opt_song_view(self.current),
            pattern: self.pattern,
        }
    }
}

/// Reads a whole token as an unsigned number up to `max`.
fn parse_token(t: &Vec<char>, hex: bool, max: u64) -> (r: Option<u64>)
    ensures
        match r {
            Some(v) => parse_unsigned(t@, hex, max as nat) == Some(v as nat),
            None => parse_unsigned(t@, hex, max as nat) is None,
        },
{
    assert(t@.subrange(0, t@.len() as int) =~= t@);
    parse_unsigned_range(t, 0, t.len(), hex, max)
}

/// The numbers among the whitespace-separated tokens of `s[lo..hi]`.
fn numbers_in(s: &Vec<char>, lo: usize, hi: usize, hex: bool, max: u64) -> (r: Vec<usize>)
    requires
        lo <= hi <= s.len(),
        max <= usize::MAX,
    ensures
        r@ == token_numbers(split_ws(s@.subrange(lo as int, hi as int)), hex, max as nat),
{
    let ts = split_whitespace(s, lo, hi);
    let ghost all = char_seqs(ts@);
    let mut r: Vec<usize> = Vec::new();
    let mut k: usize = 0;
    assert(all.skip(0) =~= all);
    while k < ts.len()
        invariant
            0 <= k <= ts.len(),
            max <= usize::MAX,
            all == char_seqs(ts@),
            token_numbers(all, hex, max as nat) == r@ + token_numbers(all.skip(k as int), hex, max as nat),
        decreases ts.len() - k,
    {
        let ghost rest = all.skip(k as int);
        assert(rest[0] == ts@[k as int]@);
        assert(rest.drop_first() =~= all.skip(k + 1));
        let ghost r0 = r@;
        match parse_token(&ts[k], hex, max) {
            Some(v) => {
                r.push(v as usize);
                assert(r0 + (seq![v as usize] + token_numbers(all.skip(k + 1), hex, max as nat))
                    =~= r@ + token_numbers(all.skip(k + 1), hex, max as nat));
            },
            None => {
                assert(r0 + (Seq::<usize>::empty() + token_numbers(all.skip(k + 1), hex, max as nat))
                    =~= r@ + token_numbers(all.skip(k + 1), hex, max as nat));
            },
        }
        k = k + 1;
    }
    assert(all.skip(ts.len() as int) =~= Seq::<Seq<char>>::empty());
    assert(r@ =~= r@ + token_numbers(all.skip(ts.len() as int), hex, max as nat));
    r
}

/// The first integer argument of `s[lo..hi]`, or `default`.
fn int_arg_in(s: &Vec<char>, lo: usize, hi: usize, default: u32) -> (r: u32)
    requires
        lo <= hi <= s.len(),
    ensures
        r == int_arg(s@.subrange(lo as int, hi as int), default),
{
    let ts = split_whitespace(s, lo, hi);
    let ghost all = char_seqs(ts@);
    let mut k: usize = 0;
    assert(all.skip(0) =~= all);
    while k < ts.len()
        invariant
            0 <= k <= ts.len(),
            all == char_seqs(ts@),
            all == split_ws(s@.subrange(lo as int, hi as int)),
            first_u32(all) == first_u32(all.skip(k as int)),
        decreases ts.len() - k,
    {
        let ghost rest = all.skip(k as int);
        assert(rest[0] == ts@[k as int]@);
        assert(rest.drop_first() =~= all.skip(k + 1));
        let t = &ts[k];
        assert(t@.subrange(0, t@.len() as int) =~= t@);
        let (a, b) = trim_range(t, 0, t.len(), true);
        match parse_unsigned_range(t, a, b, false, 0xffff_ffffu64) {
            Some(v) => {
                return v as u32;
            },
            None => {},
        }
        k = k + 1;
    }
    assert(all.skip(ts.len() as int) =~= Seq::<Seq<char>>::empty());
    default
}

/// Token `i` read as a number up to `max`, or `default`.
fn nth_number_in(ts: &Vec<Vec<char>>, i: usize, max: u64, default: u64) -> (r: u64)
    ensures
        r as nat == nth_number(char_seqs(ts@), i as int, max as nat, default as nat),
{
    if i < ts.len() {
        match parse_token(&ts[i], false, max) {
            Some(v) => v,
            None => default,
        }
    } else {
        default
    }
}

/// The song that the `TRACK` line with arguments `s[lo..hi]` opens.
fn new_song(s: &Vec<char>, lo: usize, hi: usize) -> (r: Song)
    requires
        lo <= hi <= s.len(),
    ensures
        r@ == song_header(s@.subrange(lo as int, hi as int)),
{
    let parts = split_whitespace(s, lo, hi);
    let length = nth_number_in(&parts, 0, usize::MAX as u64, 64);
    let speed = nth_number_in(&parts, 1, 0xffff_ffffu64, 6);
    let tempo = nth_number_in(&parts, 2, 0xffff_ffffu64, 150);
    let (a, b) = quoted_range(s, lo, hi);
    let song = Song {
        name: string_from_range(s, a, b),
        length: length as usize,
        speed: speed as u32,
        tempo: tempo as u32,
        columns: Vec::new(),
        orders: Vec::new(),
        patterns: HashMap::new(),
    };
    assert(song@.orders =~= Seq::<Seq<usize>>::empty());
    assert(song@.patterns =~= Map::<usize, Seq<Seq<Seq<Seq<char>>>>>::empty());
    song
}

proof fn lemma_deep_view_push<T: DeepView>(v: Vec<T>, w: Vec<T>, x: T)
    requires
        w@ == v@.push(x),
    ensures
        w.deep_view() == v.deep_view().push(x.deep_view()),
{
    assert(w.deep_view() =~= v.deep_view().push(x.deep_view()));
}

proof fn lemma_deep_view_update<T: DeepView>(v: Vec<T>, w: Vec<T>, i: int, x: T)
    requires
        0 <= i < v@.len(),
        w@ == v@.update(i, x),
    ensures
        w.deep_view() == v.deep_view().update(i, x.deep_view()),
{
    assert(w.deep_view() =~= v.deep_view().update(i, x.deep_view()));
}

/// Strings holding the given character sequences.
fn strings_of(words: &Vec<Vec<char>>) -> (r: Vec<String>)
    ensures
        r.deep_view() == char_seqs(words@),
{
    let mut r: Vec<String> = Vec::new();
    for k in 0..words.len()
        invariant
            r.deep_view() == char_seqs(words@).take(k as int),
    {
        let w = &words[k];
        let st = string_from_range(w, 0, w.len());
        assert(w@.subrange(0, w@.len() as int) =~= w@);
        let ghost r0 = r;
        r.push(st);
        proof {
            lemma_deep_view_push(r0, r, st);
        }
        assert(r.deep_view() =~= char_seqs(words@).take(k + 1));
    }
    assert(char_seqs(words@).take(words.len() as int) =~= char_seqs(words@));
    r
}

/// The channel groups of the row text `s[lo..hi]`.
fn row_groups_in(s: &Vec<char>, lo: usize, hi: usize) -> (r: Vec<Vec<String>>)
    requires
        lo <= hi <= s.len(),
    ensures
        r.deep_view() == row_groups(s@.subrange(lo as int, hi as int)),
{
    let pieces = split_on_groups(s, lo, hi);
    let ghost want = row_groups(s@.subrange(lo as int, hi as int));
    let mut r: Vec<Vec<String>> = Vec::new();
    for k in 0..pieces.len()
        invariant
            want == row_groups(s@.subrange(lo as int, hi as int)),
            char_seqs(pieces@) == split_groups(s@.subrange(lo as int, hi as int)),
            r.deep_view() == want.take(k as int),
    {
        let p = &pieces[k];
        let words = split_whitespace(p, 0, p.len());
        assert(p@.subrange(0, p@.len() as int) =~= p@);
        let strs = strings_of(&words);
        let ghost r0 = r;
        r.push(strs);
        proof {
            lemma_deep_view_push(r0, r, strs);
        }
        assert(r.deep_view() =~= want.take(k + 1));
    }
    assert(want.take(pieces.len() as int) =~= want);
    r
}

/// Applies the `ROW` line with arguments `s[lo..hi]` to the song's pattern `pid`.
fn apply_row_in(song: &mut Song, pid: usize, s: &Vec<char>, lo: usize, hi: usize)
    requires
        lo <= hi <= s.len(),
    ensures
        final(song)@ == apply_row(old(song)@, pid, s@.subrange(lo as int, hi as int)),
{
    let ghost rest = s@.subrange(lo as int, hi as int);
    proof {
        lemma_index_of_bounds(rest, ':');
    }
    let k = find_char(s, lo, hi, ':');
    if k >= hi {
        return ;
    }
    assert(rest.take(k - lo) =~= s@.subrange(lo as int, k as int));
    assert(rest.skip(k - lo + 1) =~= s@.subrange(k + 1 as int, hi as int));
    let (a, b) = trim_range(s, lo, k, false);
    let row_index: usize = match parse_unsigned_range(s, a, b, true, 0xffff_ffffu64) {
        Some(v) => v as usize,
        None => 0,
    };
    let groups = row_groups_in(s, k + 1, hi);
    let ghost m0 = song.patterns@;
    let mut rows = match song.patterns.remove(&pid) {
        Some(r) => r,
        None => Vec::new(),
    };
    let ghost rows0 = rows.deep_view();
    let ghost len0 = rows@.len();
    assert(rows0 == (if patterns_view(m0).contains_key(pid) {
        patterns_view(m0)[pid]
    } else {
        Seq::<Seq<Seq<Seq<char>>>>::empty()
    }));
    while rows.len() <= row_index
        invariant
            len0 <= rows@.len(),
            len0 == rows0.len(),
            rows@.len() > len0 ==> rows@.len() <= row_index + 1,
            forall|i: int| 0 <= i < len0 ==> #[trigger] rows.deep_view()[i] == rows0[i],
            forall|i: int| len0 <= i < rows@.len() ==> #[trigger] rows.deep_view()[i] == Seq::<
                Seq<Seq<char>>,
            >::empty(),
        decreases row_index + 1 - rows@.len(),
    {
        let ghost before = rows.deep_view();
        let ghost pre = rows;
        let empty: Vec<Vec<String>> = Vec::new();
        rows.push(empty);
        proof {
            lemma_deep_view_push(pre, rows, empty);
        }
        assert(rows.deep_view()[rows@.len() - 1] =~= Seq::<Seq<Seq<char>>>::empty());
        assert forall|i: int| 0 <= i < rows@.len() - 1 implies #[trigger] rows.deep_view()[i]
            == before[i] by {}
    }
    let ghost rows_pre = rows;
    rows.set(row_index, groups);
    proof {
        lemma_deep_view_update(rows_pre, rows, row_index as int, groups);
    }
    let ghost rows1 = rows.deep_view();
    assert(rows1 =~= set_row(rows0, row_index as nat, groups.deep_view()));
    song.patterns.insert(pid, rows);
    assert(patterns_view(song.patterns@) =~= patterns_view(m0).insert(pid, rows1));
}

impl ParserState {
    fn new() -> (st: ParserState)
        ensures
            st@ == initial_state(),
    {
        let st = ParserState {
            machine: 0,
            expansion: 0,
            n163_channels: 0,
            songs: Vec::new(),
            current: None,
            pattern: None,
        };
        assert(st@.songs =~= Seq::<SongModel>::empty());
        st
    }

    /// Closes the song being read and opens the one a `TRACK` line starts.
    fn start_song(&mut self, s: &Vec<char>, lo: usize, hi: usize)
        requires
            lo <= hi <= s.len(),
        ensures
            final(self)@ == track_command(old(self)@, s@.subrange(lo as int, hi as int)),
    {
        let song = new_song(s, lo, hi);
        match self.current.take() {
            Some(prev) => {
                self.songs.push(prev);
                assert(songs_view(self.songs@) =~= songs_view(old(self).songs@).push(prev@));
            },
            None => {},
        }
        self.current = Some(song);
        self.pattern = None;
    }

    fn set_columns(&mut self, s: &Vec<char>, lo: usize, hi: usize)
        requires
            lo <= hi <= s.len(),
        ensures
            final(self)@ == columns_command(old(self)@, s@.subrange(lo as int, hi as int)),
    {
        let ghost rest = s@.subrange(lo as int, hi as int);
        let start = after_colon_start(s, lo, hi);
        match self.current.take() {
            Some(mut song) => {
                song.columns = numbers_in(s, start, hi, false, usize::MAX as u64);
                self.current = Some(song);
            },
            None => {},
        }
    }

    fn add_order(&mut self, s: &Vec<char>, lo: usize, hi: usize)
        requires
            lo <= hi <= s.len(),
        ensures
            final(self)@ == order_command(old(self)@, s@.subrange(lo as int, hi as int)),
    {
        let start = after_colon_start(s, lo, hi);
        match self.current.take() {
            Some(mut song) => {
                let ids = numbers_in(s, start, hi, true, 0xffff_ffffu64);
                if ids.len() > 0 {
                    let ghost o0 = song.orders@;
                    song.orders.push(ids);
                    assert(orders_view(song.orders@) =~= orders_view(o0).push(ids@));
                }
                self.current = Some(song);
            },
            None => {},
        }
    }

    fn select_pattern(&mut self, s: &Vec<char>, lo: usize, hi: usize)
        requires
            lo <= hi <= s.len(),
        ensures
            final(self)@ == pattern_command(old(self)@, s@.subrange(lo as int, hi as int)),
    {
        match self.current.take() {
            Some(mut song) => {
                let ts = split_whitespace(s, lo, hi);
                if ts.len() > 0 {
                    let t = &ts[0];
                    assert(t@.subrange(0, t@.len() as int) =~= t@);
                    let (a, b) = trim_range(t, 0, t.len(), false);
                    match parse_unsigned_range(t, a, b, true, 0xffff_ffffu64) {
                        Some(v) => {
                            let id = v as usize;
                            if !song.patterns.contains_key(&id) {
                                let ghost m0 = song.patterns@;
                                let empty: Pattern = Vec::new();
                                assert(empty.deep_view() =~= Seq::<Seq<Seq<Seq<char>>>>::empty());
                                song.patterns.insert(id, empty);
                                assert(patterns_view(song.patterns@) =~= patterns_view(m0).insert(
                                    id,
                                    seq![],
                                ));
                            }
                            self.pattern = Some(id);
                        },
                        None => {},
                    }
                }
                self.current = Some(song);
            },
            None => {},
        }
    }

    fn fill_row(&mut self, s: &Vec<char>, lo: usize, hi: usize)
        requires
            lo <= hi <= s.len(),
        ensures
            final(self)@ == row_command(old(self)@, s@.subrange(lo as int, hi as int)),
    {
        match self.pattern {
            Some(pid) => match self.current.take() {
                Some(mut song) => {
                    apply_row_in(&mut song, pid, s, lo, hi);
                    self.current = Some(song);
                },
                None => {},
            },
            None => {},
        }
    }

    fn finish(self) -> (m: Module)
        ensures
            m@ == finish(self@),
    {
        let mut songs = self.songs;
        match self.current {
            Some(song) => {
                let ghost s0 = songs@;
                songs.push(song);
                assert(songs_view(songs@) =~= songs_view(s0).push(song@));
            },
            None => {},
        }
        Module {
            machine: self.machine,
            expansion: self.expansion,
            n163_channels: self.n163_channels,
            songs,
        }
    }
}

/// Start of what follows the first `':'` in `s[lo..hi]`, or `lo`.
fn after_colon_start(s: &Vec<char>, lo: usize, hi: usize) -> (r: usize)
    requires
        lo <= hi <= s.len(),
    ensures
        lo <= r <= hi,
        s@.subrange(r as int, hi as int) == after_colon(s@.subrange(lo as int, hi as int)),
{
    let ghost rest = s@.subrange(lo as int, hi as int);
    proof {
        lemma_index_of_bounds(rest, ':');
    }
    let k = find_char(s, lo, hi, ':');
    if k < hi {
        assert(rest.skip(k - lo + 1) =~= s@.subrange(k + 1 as int, hi as int));
        k + 1
    } else {
        lo
    }
}

impl ParserState {
    /// Applies one line `s[lo..hi]`.
    fn apply_line(&mut self, s: &Vec<char>, lo: usize, hi: usize)
        requires
            lo <= hi <= s.len(),
        ensures
            final(self)@ == step(old(self)@, s@.subrange(lo as int, hi as int)),
    {
        let (a, b) = trim_range(s, lo, hi, false);
        if a == b || s[a] == '#' {
            return ;
        }
        let (k, r) = split_command(s, a, b);
        if range_equals(s, a, k, &str_chars("TRACK")) {
            self.start_song(s, r, b);
        } else if range_equals(s, a, k, &str_chars("MACHINE")) {
            self.machine = int_arg_in(s, r, b, 0) as u8;
        } else if range_equals(s, a, k, &str_chars("EXPANSION")) {
            self.expansion = int_arg_in(s, r, b, 0) as u8;
        } else if range_equals(s, a, k, &str_chars("N163CHANNELS")) {
            self.n163_channels = int_arg_in(s, r, b, 8) as u8;
        } else if range_equals(s, a, k, &str_chars("COLUMNS")) {
            self.set_columns(s, r, b);
        } else if range_equals(s, a, k, &str_chars("ORDER")) {
            self.add_order(s, r, b);
        } else if range_equals(s, a, k, &str_chars("PATTERN")) {
            self.select_pattern(s, r, b);
        } else if range_equals(s, a, k, &str_chars("ROW")) {
            self.fill_row(s, r, b);
        }
    }
}

/// Parse a full FamiTracker text export into a [`Module`].
pub fn parse_module(text: &str) -> (m: Module)
    ensures
        m@ == parse_export(text@),
{
    let chars = str_chars(text);
    let mut st = ParserState::new();
    let mut start: usize = 0;
    let mut i: usize = 0;
    assert(chars@.subrange(0, chars@.len() as int) =~= chars@);
    assert(chars@.subrange(0, 0) =~= Seq::<char>::empty());
    while i < chars.len()
        invariant
            start <= i <= chars.len(),
            chars@ == text@,
            run(initial_state(), text_lines(text@)) == run(
                st@,
                lines_from(
                    chars@.subrange(i as int, chars@.len() as int),
                    chars@.subrange(start as int, i as int),
                ),
            ),
        decreases chars.len() - i,
    {
        let ghost rest = chars@.subrange(i as int, chars@.len() as int);
        let ghost cur = chars@.subrange(start as int, i as int);
        assert(rest.drop_first() =~= chars@.subrange(i + 1 as int, chars@.len() as int));
        if chars[i] == '\n' {
            let mut end = i;
            if end > start && chars[end - 1] == '\r' {
                end = end - 1;
            }
            assert(chars@.subrange(start as int, end as int) =~= strip_cr(cur));
            let ghost ls = lines_from(rest, cur);
            assert(ls[0] == strip_cr(cur));
            assert(ls.drop_first() =~= lines_from(
                chars@.subrange(i + 1 as int, chars@.len() as int),
                Seq::<char>::empty(),
            ));
            st.apply_line(&chars, start, end);
            start = i + 1;
            assert(chars@.subrange(start as int, i + 1 as int) =~= Seq::<char>::empty());
        } else {
            assert(chars@.subrange(start as int, i + 1 as int) =~= cur.push(chars@[i as int]));
        }
        i = i + 1;
    }
    let ghost cur = chars@.subrange(start as int, i as int);
    assert(chars@.subrange(i as int, chars@.len() as int) =~= Seq::<char>::empty());
    if i > start {
        let ghost ls = lines_from(Seq::<char>::empty(), cur);
        assert(ls =~= seq![cur]);
        assert(ls.drop_first() =~= Seq::<Seq<char>>::empty());
        let ghost st0 = st@;
        st.apply_line(&chars, start, i);
        assert(run(st0, ls) == run(step(st0, cur), Seq::<Seq<char>>::empty()));
    } else {
        assert(cur =~= Seq::<char>::empty());
        assert(lines_from(Seq::<char>::empty(), cur) =~= Seq::<Seq<char>>::empty());
    }
    st.finish()
}

/// A note token is a MIDI note (0..=127) or a noise pitch (0..=15).
pub proof fn lemma_note_token_range(t: Seq<char>)
    ensures
        note_token(t) matches NoteToken::Note(n) ==> n <= 127,
        note_token(t) matches NoteToken::Noise(v) ==> v < 16,
{
}

/// Whether a line opens a song.
pub open spec fn is_track_line(line: Seq<char>) -> bool {
    let t = trim(line, false);
    t.len() > 0 && t[0] != '#' && command_head(t) == word_track()
}

/// The number of lines in `ls` that open a song.
pub open spec fn track_lines(ls: Seq<Seq<char>>) -> nat
    decreases ls.len(),
{
    if ls.len() == 0 {
        0
    } else {
        (if is_track_line(ls[0]) {
            1nat
        } else {
            0nat
        }) + track_lines(ls.drop_first())
    }
}

proof fn lemma_run_songs(st: ParserModel, ls: Seq<Seq<char>>)
    ensures
        all_songs(run(st, ls)).len() == all_songs(st).len() + track_lines(ls),
    decreases ls.len(),
{
    if ls.len() > 0 {
        let next = step(st, ls[0]);
        assert(all_songs(next).len() == all_songs(st).len() + (if is_track_line(ls[0]) {
            1nat
        } else {
            0nat
        }));
        lemma_run_songs(next, ls.drop_first());
    }
}

/// Every `TRACK` line opens one song, and nothing else does: a module has as
/// many songs as its text has `TRACK` lines.
pub proof fn lemma_one_song_per_track(text: Seq<char>)
    ensures
        parse_export(text).songs.len() == track_lines(text_lines(text)),
{
    lemma_run_songs(initial_state(), text_lines(text));
}

/// Blank lines and `#` comment lines leave the parser's state as it was.
pub proof fn lemma_comments_ignored(st: ParserModel, line: Seq<char>)
    requires
        trim(line, false).len() == 0 || trim(line, false)[0] == '#',
    ensures
        step(st, line) == st,
{
}

proof fn lemma_lines_split(a: Seq<char>, b: Seq<char>, cur: Seq<char>)
    requires
        a.len() > 0,
        a.last() == '\n',
    ensures
        lines_from(a + b, cur) == lines_from(a, cur) + lines_from(b, seq![]),
    decreases a.len(),
{
    assert((a + b).drop_first() =~= a.drop_first() + b);
    assert((a + b)[0] == a[0]);
    if a.len() == 1 {
        assert(a.drop_first() + b =~= b);
        assert(lines_from(a.drop_first(), seq![]) == flush(seq![]));
    } else if a[0] == '\n' {
        lemma_lines_split(a.drop_first(), b, seq![]);
    } else {
        lemma_lines_split(a.drop_first(), b, cur.push(a[0]));
    }
}

proof fn lemma_one_line(line: Seq<char>, b: Seq<char>, cur: Seq<char>)
    requires
        forall|i: int| 0 <= i < line.len() ==> line[i] != '\n',
    ensures
        lines_from(line.push('\n') + b, cur) == seq![strip_cr(cur + line)] + lines_from(b, seq![]),
    decreases line.len(),
{
    let s = line.push('\n') + b;
    if line.len() == 0 {
        assert(s[0] == '\n');
        assert(s.drop_first() =~= b);
        assert(cur + line =~= cur);
    } else {
        assert(s[0] == line[0]);
        assert(s.drop_first() =~= line.drop_first().push('\n') + b);
        lemma_one_line(line.drop_first(), b, cur.push(line[0]));
        assert(cur.push(line[0]) + line.drop_first() =~= cur + line);
    }
}

proof fn lemma_run_concat(st: ParserModel, a: Seq<Seq<char>>, b: Seq<Seq<char>>)
    ensures
        run(st, a + b) == run(run(st, a), b),
    decreases a.len(),
{
    if a.len() > 0 {
        assert((a + b)[0] == a[0]);
        assert((a + b).drop_first() =~= a.drop_first() + b);
        lemma_run_concat(step(st, a[0]), a.drop_first(), b);
    } else {
        assert(a + b =~= b);
    }
}

/// Inserting a blank line or a `#` comment line into an export leaves the
/// parsed module unchanged: `before` is empty or ends a line, and the
/// inserted `line` holds no line break and trims to nothing or to text that
/// starts with `#`.
pub proof fn lemma_comment_lines_ignored(before: Seq<char>, line: Seq<char>, after: Seq<char>)
    requires
        before.len() == 0 || before.last() == '\n',
        forall|i: int| 0 <= i < line.len() ==> line[i] != '\n',
        trim(line, false).len() == 0 || trim(line, false)[0] == '#',
    ensures
        parse_export(before + line.push('\n') + after) == parse_export(before + after),
{
    let l = strip_cr(line);
    if line.len() > 0 && line.last() == '\r' {
        assert(is_ws('\r'));
        assert(trim_end(line, false) == trim_end(line.drop_last(), false));
    }
    assert(trim(l, false) == trim(line, false));
    lemma_one_line(line, after, seq![]);
    assert(seq![] + line =~= line);
    let tail = line.push('\n') + after;
    assert(text_lines(tail) == seq![l] + text_lines(after));
    let pre = if before.len() == 0 {
        Seq::<Seq<char>>::empty()
    } else {
        text_lines(before)
    };
    if before.len() == 0 {
        assert(before + line.push('\n') + after =~= tail);
        assert(before + after =~= after);
    } else {
        assert(before + line.push('\n') + after =~= before + tail);
        lemma_lines_split(before, tail, seq![]);
        lemma_lines_split(before, after, seq![]);
    }
    assert(text_lines(before + line.push('\n') + after) =~= pre + (seq![l] + text_lines(after)));
    assert(text_lines(before + after) =~= pre + text_lines(after));
    let st0 = initial_state();
    lemma_run_concat(st0, pre, seq![l] + text_lines(after));
    lemma_run_concat(st0, pre, text_lines(after));
    let mid = run(st0, pre);
    assert((seq![l] + text_lines(after))[0] == l);
    assert((seq![l] + text_lines(after)).drop_first() =~= text_lines(after));
    assert(step(mid, l) == mid);
}

/// The note that a pitch `n` names, or nothing above MIDI note 127.
pub open spec fn note_or_blank(n: int) -> NoteToken {
    if n <= 127 {
        NoteToken::Note(n as u8)
    } else {
        NoteToken::Blank
    }
}

proof fn lemma_token_chars(l: char, m: char, octave: char, tail: Seq<char>)
    requires
        l != '-' && l != '=' && l != '.',
    ensures
        ({
            let t = seq![l, m, octave] + tail;
            &&& t.len() >= 3 && t[0] == l && t[1] == m && t[2] == octave
            &&& t != seq!['-', '-', '-'] && t != seq!['=', '=', '='] && t != seq!['.', '.', '.']
        }),
{
    let t = seq![l, m, octave] + tail;
    assert(t[0] == l);
    assert(seq!['-', '-', '-'][0] == '-');
    assert(seq!['=', '=', '='][0] == '=');
    assert(seq!['.', '.', '.'][0] == '.');
}

/// A note token `<letter><'-' or '#'><octave digit>` names MIDI note
/// `12 + 12 * octave + semitone`, with the semitones C 0, D 2, E 4, F 5, G 7,
/// A 9 and B 11, one more for `'#'`; whatever follows the first three
/// characters does not matter, and notes above 127 are dropped.
pub proof fn lemma_note_names(octave: char, tail: Seq<char>)
    requires
        '0' <= octave <= '9',
    ensures
        ({
            let o = 12 + 12 * (octave as int - 48);
            &&& note_token(seq!['C', '-', octave] + tail) == note_or_blank(o)
            &&& note_token(seq!['C', '#', octave] + tail) == note_or_blank(o + 1)
            &&& note_token(seq!['D', '-', octave] + tail) == note_or_blank(o + 2)
            &&& note_token(seq!['D', '#', octave] + tail) == note_or_blank(o + 3)
            &&& note_token(seq!['E', '-', octave] + tail) == note_or_blank(o + 4)
            &&& note_token(seq!['F', '-', octave] + tail) == note_or_blank(o + 5)
            &&& note_token(seq!['F', '#', octave] + tail) == note_or_blank(o + 6)
            &&& note_token(seq!['G', '-', octave] + tail) == note_or_blank(o + 7)
            &&& note_token(seq!['G', '#', octave] + tail) == note_or_blank(o + 8)
            &&& note_token(seq!['A', '-', octave] + tail) == note_or_blank(o + 9)
            &&& note_token(seq!['A', '#', octave] + tail) == note_or_blank(o + 10)
            &&& note_token(seq!['B', '-', octave] + tail) == note_or_blank(o + 11)
        }),
{
    lemma_token_chars('C', '-', octave, tail);
    lemma_token_chars('C', '#', octave, tail);
    lemma_token_chars('D', '-', octave, tail);
    lemma_token_chars('D', '#', octave, tail);
    lemma_token_chars('E', '-', octave, tail);
    lemma_token_chars('F', '-', octave, tail);
    lemma_token_chars('F', '#', octave, tail);
    lemma_token_chars('G', '-', octave, tail);
    lemma_token_chars('G', '#', octave, tail);
    lemma_token_chars('A', '-', octave, tail);
    lemma_token_chars('A', '#', octave, tail);
    lemma_token_chars('B', '-', octave, tail);
}

/// A `ROW` line reads its row index in base 16: `ROW <h1><h2> : <cells>`
/// fills row `16 * h1 + h2` of the current pattern with the cells.
pub proof fn lemma_row_index_is_hex(s: SongModel, pid: usize, h1: char, h2: char, cells: Seq<char>)
    requires
        is_digit(h1, true),
        is_digit(h2, true),
    ensures
        ({
            let rows = apply_row(s, pid, seq![h1, h2, ' ', ':'] + cells).patterns[pid];
            let idx = 16 * digit_value(h1) + digit_value(h2);
            &&& idx < rows.len()
            &&& rows[idx as int] == row_groups(cells)
        }),
{
    let rest = seq![h1, h2, ' ', ':'] + cells;
    assert(rest[0] == h1 && rest[1] == h2 && rest[2] == ' ' && rest[3] == ':');
    assert(rest.drop_first().drop_first().drop_first().drop_first() =~= cells);
    assert(h1 != ':' && h2 != ':') by {
        assert((':' as u32) == 58);
    }
    let r1 = rest.drop_first();
    let r2 = r1.drop_first();
    let r3 = r2.drop_first();
    assert(r1[0] == h2 && r2[0] == ' ' && r3[0] == ':');
    assert(index_of(r3, ':') == 0);
    assert(index_of(r2, ':') == 1);
    assert(index_of(r1, ':') == 2);
    assert(index_of(rest, ':') == 3);
    let head = rest.take(3);
    assert(head =~= seq![h1, h2, ' ']);
    assert(is_ws(' '));
    assert(head.drop_last() =~= seq![h1, h2]);
    assert(trim_end(seq![h1, h2], false) == seq![h1, h2]);
    assert(trim_end(head, false) == seq![h1, h2]);
    assert(trim_start(seq![h1, h2], false) == seq![h1, h2]);
    let b = seq![h1, h2];
    assert(unsigned_body(b) == b);
    assert(b.drop_last() =~= seq![h1]);
    assert(seq![h1].drop_last() =~= Seq::<char>::empty());
    assert(digits_value(Seq::<char>::empty(), true) == 0);
    assert(seq![h1].last() == h1);
    assert(digits_value(seq![h1], true) == digit_value(h1));
    assert(digits_value(b, true) == 16 * digit_value(h1) + digit_value(h2));
    assert(all_digits(b, true));
    assert(rest.skip(4) =~= cells);
}

} // verus!
