//! Character-level text handling used by the export parser.
//!
//! The parser reads a text export as a sequence of `char`s. The spec
//! functions here say what the usual string operations (trimming,
//! splitting on whitespace or on a separator, finding a character,
//! reading an unsigned number) mean on such a sequence; the executable
//! functions compute them on a `Vec<char>` between two bounds.
use vstd::prelude::*;

verus! {

/// The Unicode `White_Space` property, the set that `char::is_whitespace`
/// tests for.
pub open spec fn is_ws(c: char) -> bool {
    let u = c as u32;
    ||| 0x09 <= u <= 0x0d
    ||| u == 0x20
    ||| u == 0x85
    ||| u == 0xa0
    ||| u == 0x1680
    ||| 0x2000 <= u <= 0x200a
    ||| u == 0x2028
    ||| u == 0x2029
    ||| u == 0x202f
    ||| u == 0x205f
    ||| u == 0x3000
}

pub fn is_whitespace(c: char) -> (b: bool)
    ensures
        b == is_ws(c),
{
    let u = c as u32;
    (0x09 <= u && u <= 0x0d) || u == 0x20 || u == 0x85 || u == 0xa0 || u == 0x1680 || (0x2000 <= u
        && u <= 0x200a) || u == 0x2028 || u == 0x2029 || u == 0x202f || u == 0x205f || u == 0x3000
}

/// The characters that a trim removes: whitespace, or `':'` when `colon`.
pub open spec fn is_strip(c: char, colon: bool) -> bool {
    if colon {
        c == ':'
    } else {
        is_ws(c)
    }
}

/// `s` without its leading strip characters.
pub open spec fn trim_start(s: Seq<char>, colon: bool) -> Seq<char>
    decreases s.len(),
{
    if s.len() > 0 && is_strip(s[0], colon) {
        trim_start(s.drop_first(), colon)
    } else {
        s
    }
}

/// `s` without its trailing strip characters.
pub open spec fn trim_end(s: Seq<char>, colon: bool) -> Seq<char>
    decreases s.len(),
{
    if s.len() > 0 && is_strip(s.last(), colon) {
        trim_end(s.drop_last(), colon)
    } else {
        s
    }
}

/// `s` without leading and trailing strip characters (`str::trim`, or
/// `str::trim_matches(':')` when `colon`).
pub open spec fn trim(s: Seq<char>, colon: bool) -> Seq<char> {
    trim_start(trim_end(s, colon), colon)
}

fn strip_char(c: char, colon: bool) -> (b: bool)
    ensures
        b == is_strip(c, colon),
{
    if colon {
        c == ':'
    } else {
        is_whitespace(c)
    }
}

/// Bounds of the trimmed part of `s[lo..hi]`.
pub fn trim_range(s: &Vec<char>, lo: usize, hi: usize, colon: bool) -> (r: (usize, usize))
    requires
        lo <= hi <= s.len(),
    ensures
        lo <= r.0 <= r.1 <= hi,
        s@.subrange(r.0 as int, r.1 as int) == trim(s@.subrange(lo as int, hi as int), colon),
{
    let mut j = hi;
    while j > lo && strip_char(s[j - 1], colon)
        invariant
            lo <= j <= hi <= s.len(),
            trim_end(s@.subrange(lo as int, hi as int), colon) == trim_end(
                s@.subrange(lo as int, j as int),
                colon,
            ),
        decreases j,
    {
        assert(s@.subrange(lo as int, j as int).drop_last() =~= s@.subrange(
            lo as int,
            j - 1 as int,
        ));
        j = j - 1;
    }
    let mut i = lo;
    while i < j && strip_char(s[i], colon)
        invariant
            lo <= i <= j <= hi <= s.len(),
            trim(s@.subrange(lo as int, hi as int), colon) == trim_start(
                s@.subrange(i as int, j as int),
                colon,
            ),
        decreases j - i,
    {
        assert(s@.subrange(i as int, j as int).drop_first() =~= s@.subrange(
            i + 1 as int,
            j as int,
        ));
        i = i + 1;
    }
    (i, j)
}

/// Index of the first `c` in `s`, or `s.len()` when there is none.
pub open spec fn index_of(s: Seq<char>, c: char) -> int
    decreases s.len(),
{
    if s.len() == 0 {
        0
    } else if s[0] == c {
        0
    } else {
        1 + index_of(s.drop_first(), c)
    }
}

/// Index of the last `c` in `s`, or `-1` when there is none.
pub open spec fn last_index_of(s: Seq<char>, c: char) -> int
    decreases s.len(),
{
    if s.len() == 0 {
        -1
    } else if s.last() == c {
        s.len() - 1
    } else {
        last_index_of(s.drop_last(), c)
    }
}

/// Index of the first whitespace character in `s`, or `s.len()`.
pub open spec fn index_of_ws(s: Seq<char>) -> int
    decreases s.len(),
{
    if s.len() == 0 {
        0
    } else if is_ws(s[0]) {
        0
    } else {
        1 + index_of_ws(s.drop_first())
    }
}

pub proof fn lemma_index_of_bounds(s: Seq<char>, c: char)
    ensures
        0 <= index_of(s, c) <= s.len(),
        index_of(s, c) < s.len() ==> s[index_of(s, c)] == c,
        forall|k: int| 0 <= k < index_of(s, c) ==> s[k] != c,
    decreases s.len(),
{
    if s.len() > 0 && s[0] != c {
        lemma_index_of_bounds(s.drop_first(), c);
        assert forall|k: int| 0 <= k < index_of(s, c) implies s[k] != c by {
            if k > 0 {
                assert(s[k] == s.drop_first()[k - 1]);
            }
        }
    }
}

pub proof fn lemma_last_index_of_bounds(s: Seq<char>, c: char)
    ensures
        -1 <= last_index_of(s, c) < s.len(),
        last_index_of(s, c) >= 0 ==> s[last_index_of(s, c)] == c,
        forall|k: int| last_index_of(s, c) < k < s.len() ==> s[k] != c,
    decreases s.len(),
{
    if s.len() > 0 && s.last() != c {
        lemma_last_index_of_bounds(s.drop_last(), c);
        assert forall|k: int| last_index_of(s, c) < k < s.len() implies s[k] != c by {
            if k < s.len() - 1 {
                assert(s[k] == s.drop_last()[k]);
            }
        }
    }
}

pub proof fn lemma_index_of_ws_bounds(s: Seq<char>)
    ensures
        0 <= index_of_ws(s) <= s.len(),
        index_of_ws(s) < s.len() ==> is_ws(s[index_of_ws(s)]),
    decreases s.len(),
{
    if s.len() > 0 && !is_ws(s[0]) {
        lemma_index_of_ws_bounds(s.drop_first());
    }
}

/// Position of the first `c` in `s[lo..hi]`, counted from `lo`; `hi` when
/// there is none.
pub fn find_char(s: &Vec<char>, lo: usize, hi: usize, c: char) -> (r: usize)
    requires
        lo <= hi <= s.len(),
    ensures
        lo <= r <= hi,
        r - lo == index_of(s@.subrange(lo as int, hi as int), c),
{
    let mut i = lo;
    while i < hi
        invariant
            lo <= i <= hi <= s.len(),
            index_of(s@.subrange(lo as int, hi as int), c) == (i - lo) + index_of(
                s@.subrange(i as int, hi as int),
                c,
            ),
        decreases hi - i,
    {
        if s[i] == c {
            return i;
        }
        assert(s@.subrange(i as int, hi as int).drop_first() =~= s@.subrange(
            i + 1 as int,
            hi as int,
        ));
        i = i + 1;
    }
    i
}

/// Position of the first whitespace character in `s[lo..hi]`; `hi` when
/// there is none.
pub fn find_ws(s: &Vec<char>, lo: usize, hi: usize) -> (r: usize)
    requires
        lo <= hi <= s.len(),
    ensures
        lo <= r <= hi,
        r - lo == index_of_ws(s@.subrange(lo as int, hi as int)),
{
    let mut i = lo;
    while i < hi
        invariant
            lo <= i <= hi <= s.len(),
            index_of_ws(s@.subrange(lo as int, hi as int)) == (i - lo) + index_of_ws(
                s@.subrange(i as int, hi as int),
            ),
        decreases hi - i,
    {
        if is_whitespace(s[i]) {
            return i;
        }
        assert(s@.subrange(i as int, hi as int).drop_first() =~= s@.subrange(
            i + 1 as int,
            hi as int,
        ));
        i = i + 1;
    }
    i
}

/// Position of the last `c` in `s[lo..hi]`, counted from `lo`.
pub fn rfind_char(s: &Vec<char>, lo: usize, hi: usize, c: char) -> (r: Option<usize>)
    requires
        lo <= hi <= s.len(),
    ensures
        match r {
            Some(k) => lo <= k < hi && k - lo == last_index_of(
                s@.subrange(lo as int, hi as int),
                c,
            ),
            None => last_index_of(s@.subrange(lo as int, hi as int), c) == -1,
        },
{
    let mut j = hi;
    while j > lo
        invariant
            lo <= j <= hi <= s.len(),
            last_index_of(s@.subrange(lo as int, hi as int), c) == last_index_of(
                s@.subrange(lo as int, j as int),
                c,
            ),
        decreases j,
    {
        if s[j - 1] == c {
            return Some(j - 1);
        }
        assert(s@.subrange(lo as int, j as int).drop_last() =~= s@.subrange(
            lo as int,
            j - 1 as int,
        ));
        j = j - 1;
    }
    None
}

/// The pending word `cur` as a list of at most one word.
pub open spec fn flush(cur: Seq<char>) -> Seq<Seq<char>> {
    if cur.len() > 0 {
        seq![cur]
    } else {
        seq![]
    }
}

/// The whitespace-separated words of `s`, after a word `cur` already begun.
pub open spec fn words_from(s: Seq<char>, cur: Seq<char>) -> Seq<Seq<char>>
    decreases s.len(),
{
    if s.len() == 0 {
        flush(cur)
    } else if is_ws(s[0]) {
        flush(cur) + words_from(s.drop_first(), seq![])
    } else {
        words_from(s.drop_first(), cur.push(s[0]))
    }
}

/// `str::split_whitespace`: the maximal runs of non-whitespace characters.
pub open spec fn split_ws(s: Seq<char>) -> Seq<Seq<char>> {
    words_from(s, seq![])
}

/// The views of a list of character vectors.
pub open spec fn char_seqs(v: Seq<Vec<char>>) -> Seq<Seq<char>> {
    v.map_values(|w: Vec<char>| w@)
}

pub proof fn lemma_char_seqs_push(v: Seq<Vec<char>>, w: Vec<char>)
    ensures
        char_seqs(v.push(w)) == char_seqs(v).push(w@),
{
    assert(char_seqs(v.push(w)) =~= char_seqs(v).push(w@));
}

/// The whitespace-separated words of `s[lo..hi]`.
pub fn split_whitespace(s: &Vec<char>, lo: usize, hi: usize) -> (r: Vec<Vec<char>>)
    requires
        lo <= hi <= s.len(),
    ensures
        char_seqs(r@) == split_ws(s@.subrange(lo as int, hi as int)),
{
    let mut r: Vec<Vec<char>> = Vec::new();
    let mut cur: Vec<char> = Vec::new();
    let mut i = lo;
    while i < hi
        invariant
            lo <= i <= hi <= s.len(),
            split_ws(s@.subrange(lo as int, hi as int)) == char_seqs(r@) + words_from(
                s@.subrange(i as int, hi as int),
                cur@,
            ),
        decreases hi - i,
    {
        let c = s[i];
        let ghost rest = s@.subrange(i as int, hi as int);
        assert(rest.drop_first() =~= s@.subrange(i + 1 as int, hi as int));
        if is_whitespace(c) {
            let ghost r0 = r@;
            let ghost c0 = cur@;
            if cur.len() > 0 {
                proof {
                    lemma_char_seqs_push(r@, cur);
                }
                r.push(cur);
            }
            assert(char_seqs(r@) =~= char_seqs(r0) + flush(c0));
            assert(char_seqs(r@) + words_from(s@.subrange(i + 1 as int, hi as int), seq![])
                =~= char_seqs(r0) + (flush(c0) + words_from(
                s@.subrange(i + 1 as int, hi as int),
                seq![],
            )));
            cur = Vec::new();
            assert(cur@ =~= Seq::<char>::empty());
        } else {
            cur.push(c);
        }
        i = i + 1;
    }
    if cur.len() > 0 {
        proof {
            lemma_char_seqs_push(r@, cur);
        }
        r.push(cur);
    }
    assert(split_ws(s@.subrange(lo as int, hi as int)) =~= char_seqs(r@));
    r
}

/// The pieces of `s` between occurrences of the separator `" : "`, after a
/// piece `cur` already begun (`str::split(" : ")`, leftmost matches first).
pub open spec fn groups_from(s: Seq<char>, cur: Seq<char>) -> Seq<Seq<char>>
    decreases s.len(),
{
    if s.len() == 0 {
        seq![cur]
    } else if s.len() >= 3 && s[0] == ' ' && s[1] == ':' && s[2] == ' ' {
        seq![cur] + groups_from(s.skip(3), seq![])
    } else {
        groups_from(s.drop_first(), cur.push(s[0]))
    }
}

/// `str::split(" : ")`.
pub open spec fn split_groups(s: Seq<char>) -> Seq<Seq<char>> {
    groups_from(s, seq![])
}

/// The pieces of `s[lo..hi]` between occurrences of `" : "`.
pub fn split_on_groups(s: &Vec<char>, lo: usize, hi: usize) -> (r: Vec<Vec<char>>)
    requires
        lo <= hi <= s.len(),
    ensures
        char_seqs(r@) == split_groups(s@.subrange(lo as int, hi as int)),
{
    let mut r: Vec<Vec<char>> = Vec::new();
    let mut cur: Vec<char> = Vec::new();
    let mut i = lo;
    while i < hi
        invariant
            lo <= i <= hi <= s.len(),
            split_groups(s@.subrange(lo as int, hi as int)) == char_seqs(r@) + groups_from(
                s@.subrange(i as int, hi as int),
                cur@,
            ),
        decreases hi - i,
    {
        let ghost rest = s@.subrange(i as int, hi as int);
        if hi - i >= 3 && s[i] == ' ' && s[i + 1] == ':' && s[i + 2] == ' ' {
            let ghost r0 = r@;
            let ghost c0 = cur@;
            proof {
                lemma_char_seqs_push(r@, cur);
            }
            r.push(cur);
            assert(rest.skip(3) =~= s@.subrange(i + 3 as int, hi as int));
            assert(char_seqs(r@) + groups_from(s@.subrange(i + 3 as int, hi as int), seq![])
                =~= char_seqs(r0) + (seq![c0] + groups_from(
                s@.subrange(i + 3 as int, hi as int),
                seq![],
            )));
            cur = Vec::new();
            assert(cur@ =~= Seq::<char>::empty());
            i = i + 3;
        } else {
            assert(rest.drop_first() =~= s@.subrange(i + 1 as int, hi as int));
            cur.push(s[i]);
            i = i + 1;
        }
    }
    proof {
        lemma_char_seqs_push(r@, cur);
    }
    r.push(cur);
    assert(split_groups(s@.subrange(lo as int, hi as int)) =~= char_seqs(r@));
    r
}

/// Whether `c` is a digit: decimal, or hexadecimal (either case) when `hex`.
pub open spec fn is_digit(c: char, hex: bool) -> bool {
    let u = c as u32;
    ||| 48 <= u <= 57
    ||| hex && 97 <= u <= 102
    ||| hex && 65 <= u <= 70
}

/// The value of a digit character.
pub open spec fn digit_value(c: char) -> nat {
    let u = c as u32;
    if 48 <= u <= 57 {
        (u - 48) as nat
    } else if 97 <= u <= 102 {
        (u - 87) as nat
    } else {
        (u - 55) as nat
    }
}

/// The number that the digit string `s` denotes in base 10, or 16 when `hex`.
pub open spec fn digits_value(s: Seq<char>, hex: bool) -> nat
    decreases s.len(),
{
    if s.len() == 0 {
        0
    } else if hex {
        digits_value(s.drop_last(), hex) * 16 + digit_value(s.last())
    } else {
        digits_value(s.drop_last(), hex) * 10 + digit_value(s.last())
    }
}

pub open spec fn all_digits(s: Seq<char>, hex: bool) -> bool {
    forall|i: int| 0 <= i < s.len() ==> #[trigger] is_digit(s[i], hex)
}

/// `s` without one leading `'+'`.
pub open spec fn unsigned_body(s: Seq<char>) -> Seq<char> {
    if s.len() > 0 && s[0] == '+' {
        s.drop_first()
    } else {
        s
    }
}

/// Reading an unsigned integer no greater than `max` as `str::parse` and
/// `from_str_radix` do: an optional `'+'`, then one or more digits; `None`
/// for anything else and for a value above `max`.
pub open spec fn parse_unsigned(s: Seq<char>, hex: bool, max: nat) -> Option<nat> {
    let b = unsigned_body(s);
    if b.len() > 0 && all_digits(b, hex) && digits_value(b, hex) <= max {
        Some(digits_value(b, hex))
    } else {
        None
    }
}

pub proof fn lemma_digits_value_prefix(s: Seq<char>, hex: bool, k: int)
    requires
        0 <= k <= s.len(),
    ensures
        digits_value(s.take(k), hex) <= digits_value(s, hex),
    decreases s.len(),
{
    if k < s.len() {
        lemma_digits_value_prefix(s.drop_last(), hex, k);
        assert(s.drop_last().take(k) =~= s.take(k));
    } else {
        assert(s.take(k) =~= s);
    }
}

fn digit_of(c: char, hex: bool) -> (r: Option<u64>)
    ensures
        match r {
            Some(d) => is_digit(c, hex) && d == digit_value(c) && d < 16,
            None => !is_digit(c, hex),
        },
{
    let u = c as u32;
    if 48 <= u && u <= 57 {
        Some((u - 48) as u64)
    } else if hex && 97 <= u && u <= 102 {
        Some((u - 87) as u64)
    } else if hex && 65 <= u && u <= 70 {
        Some((u - 55) as u64)
    } else {
        None
    }
}

/// Reads `s[lo..hi]` as an unsigned integer no greater than `max`.
pub fn parse_unsigned_range(s: &Vec<char>, lo: usize, hi: usize, hex: bool, max: u64) -> (r:
    Option<u64>)
    requires
        lo <= hi <= s.len(),
    ensures
        match r {
            Some(v) => parse_unsigned(s@.subrange(lo as int, hi as int), hex, max as nat) == Some(
                v as nat,
            ),
            None => parse_unsigned(s@.subrange(lo as int, hi as int), hex, max as nat) is None,
        },
{
    let ghost whole = s@.subrange(lo as int, hi as int);
    let mut start = lo;
    if lo < hi && s[lo] == '+' {
        start = lo + 1;
    }
    let ghost body = unsigned_body(whole);
    assert(body =~= s@.subrange(start as int, hi as int));
    if start == hi {
        return None;
    }
    let mut acc: u64 = 0;
    let mut i = start;
    while i < hi
        invariant
            lo <= start <= i <= hi <= s.len(),
            body == s@.subrange(start as int, hi as int),
            whole == s@.subrange(lo as int, hi as int),
            body == unsigned_body(whole),
            all_digits(s@.subrange(start as int, i as int), hex),
            acc as nat == digits_value(s@.subrange(start as int, i as int), hex),
            acc <= max,
        decreases hi - i,
    {
        let d = match digit_of(s[i], hex) {
            Some(d) => d,
            None => {
                assert(!is_digit(body[i - start], hex));
                return None;
            },
        };
        let ghost pre = s@.subrange(start as int, i + 1 as int);
        assert(pre.drop_last() =~= s@.subrange(start as int, i as int));
        let next: u128 = if hex {
            (acc as u128) * 16 + d as u128
        } else {
            (acc as u128) * 10 + d as u128
        };
        assert(next == digits_value(pre, hex));
        if next > max as u128 {
            proof {
                if all_digits(body, hex) {
                    assert(body.take(i + 1 - start) =~= pre);
                    lemma_digits_value_prefix(body, hex, i + 1 - start);
                }
            }
            return None;
        }
        acc = next as u64;
        i = i + 1;
        assert forall|k: int| 0 <= k < s@.subrange(start as int, i as int).len() implies is_digit(
            #[trigger] s@.subrange(start as int, i as int)[k],
            hex,
        ) by {
            if k < i - 1 - start {
                assert(s@.subrange(start as int, i as int)[k] == s@.subrange(
                    start as int,
                    i - 1 as int,
                )[k]);
            }
        }
    }
    Some(acc)
}

/// The text between the first and the last `'"'` of `s`; empty when there are
/// not two of them.
pub open spec fn quoted(s: Seq<char>) -> Seq<char> {
    let a = index_of(s, '"');
    let b = last_index_of(s, '"');
    if a < s.len() && b > a {
        s.subrange(a + 1, b)
    } else {
        seq![]
    }
}

/// Bounds of the quoted text in `s[lo..hi]`.
pub fn quoted_range(s: &Vec<char>, lo: usize, hi: usize) -> (r: (usize, usize))
    requires
        lo <= hi <= s.len(),
    ensures
        lo <= r.0 <= r.1 <= hi,
        s@.subrange(r.0 as int, r.1 as int) == quoted(s@.subrange(lo as int, hi as int)),
{
    let ghost t = s@.subrange(lo as int, hi as int);
    proof {
        lemma_index_of_bounds(t, '"');
        lemma_last_index_of_bounds(t, '"');
    }
    let a = find_char(s, lo, hi, '"');
    match rfind_char(s, lo, hi, '"') {
        Some(b) => {
            if a < hi && b > a {
                assert(s@.subrange(a + 1 as int, b as int) =~= t.subrange(
                    a - lo + 1 as int,
                    b - lo as int,
                ));
                (a + 1, b)
            } else {
                (lo, lo)
            }
        },
        None => (lo, lo),
    }
}

/// Start of `s[lo..hi]` once leading whitespace is removed.
pub fn trim_start_range(s: &Vec<char>, lo: usize, hi: usize) -> (r: usize)
    requires
        lo <= hi <= s.len(),
    ensures
        lo <= r <= hi,
        s@.subrange(r as int, hi as int) == trim_start(s@.subrange(lo as int, hi as int), false),
{
    let mut i = lo;
    while i < hi && is_whitespace(s[i])
        invariant
            lo <= i <= hi <= s.len(),
            trim_start(s@.subrange(lo as int, hi as int), false) == trim_start(
                s@.subrange(i as int, hi as int),
                false,
            ),
        decreases hi - i,
    {
        assert(s@.subrange(i as int, hi as int).drop_first() =~= s@.subrange(
            i + 1 as int,
            hi as int,
        ));
        i = i + 1;
    }
    i
}

/// The command word of a line: the text before its first whitespace.
pub open spec fn command_head(s: Seq<char>) -> Seq<char> {
    s.take(index_of_ws(s))
}

/// What follows the command word, with leading whitespace removed.
pub open spec fn command_rest(s: Seq<char>) -> Seq<char> {
    trim_start(s.skip(index_of_ws(s)), false)
}

/// Bounds of the command word and of the rest of the line `s[lo..hi]`.
pub fn split_command(s: &Vec<char>, lo: usize, hi: usize) -> (r: (usize, usize))
    requires
        lo <= hi <= s.len(),
    ensures
        lo <= r.0 <= r.1 <= hi,
        s@.subrange(lo as int, r.0 as int) == command_head(s@.subrange(lo as int, hi as int)),
        s@.subrange(r.1 as int, hi as int) == command_rest(s@.subrange(lo as int, hi as int)),
{
    let ghost t = s@.subrange(lo as int, hi as int);
    proof {
        lemma_index_of_ws_bounds(t);
    }
    let k = find_ws(s, lo, hi);
    assert(s@.subrange(lo as int, k as int) =~= t.take(k - lo));
    assert(s@.subrange(k as int, hi as int) =~= t.skip(k - lo));
    let a = trim_start_range(s, k, hi);
    (k, a)
}

/// Appends one character to a `String` (`String::push`).
#[verifier::external_body]
pub(crate) fn push_char(s: &mut String, c: char)
    ensures
        final(s)@ == old(s)@.push(c),
{
    s.push(c);
}

/// A `String` holding the characters `s[lo..hi]`.
pub fn string_from_range(s: &Vec<char>, lo: usize, hi: usize) -> (r: String)
    requires
        lo <= hi <= s.len(),
    ensures
        r@ == s@.subrange(lo as int, hi as int),
{
    let mut r = String::new();
    let mut i = lo;
    while i < hi
        invariant
            lo <= i <= hi <= s.len(),
            r@ == s@.subrange(lo as int, i as int),
        decreases hi - i,
    {
        push_char(&mut r, s[i]);
        assert(s@.subrange(lo as int, i + 1 as int) =~= s@.subrange(lo as int, i as int).push(
            s@[i as int],
        ));
        i = i + 1;
    }
    r
}

/// The character of a decimal digit.
pub open spec fn digit_char(d: nat) -> char {
    ((d + 48) as u8) as char
}

/// The decimal notation of `n`, without leading zeros.
pub open spec fn decimal(n: nat) -> Seq<char>
    decreases n,
{
    if n < 10 {
        seq![digit_char(n)]
    } else {
        decimal(n / 10).push(digit_char(n % 10))
    }
}

/// Appends the decimal notation of `n`.
pub fn push_decimal(s: &mut String, n: u64)
    ensures
        final(s)@ == old(s)@ + decimal(n as nat),
    decreases n,
{
    if n >= 10 {
        push_decimal(s, n / 10);
    }
    let d = (n % 10) as u8;
    push_char(s, (d + 48) as char);
    assert(s@ =~= old(s)@ + decimal(n as nat));
}

/// The characters of a string slice, in order.
pub fn str_chars(s: &str) -> (v: Vec<char>)
    ensures
        v@ == s@,
{
    let mut v: Vec<char> = Vec::new();
    for c in it: s.chars()
        invariant
            v@ == it.seq().take(it.index() as int),
    {
        v.push(c);
    }
    v
}

/// Whether `s[lo..hi]` is exactly the word `w`.
pub fn range_equals(s: &Vec<char>, lo: usize, hi: usize, w: &Vec<char>) -> (b: bool)
    requires
        lo <= hi <= s.len(),
    ensures
        b == (s@.subrange(lo as int, hi as int) == w@),
{
    if hi - lo != w.len() {
        assert(s@.subrange(lo as int, hi as int).len() != w@.len());
        return false;
    }
    let mut k: usize = 0;
    while k < w.len()
        invariant
            hi - lo == w.len(),
            lo <= hi <= s.len(),
            0 <= k <= w.len(),
            forall|j: int| 0 <= j < k ==> s@[lo + j] == w@[j],
        decreases w.len() - k,
    {
        if s[lo + k] != w[k] {
            assert(s@.subrange(lo as int, hi as int)[k as int] != w@[k as int]);
            return false;
        }
        k = k + 1;
    }
    assert(s@.subrange(lo as int, hi as int) =~= w@);
    true
}

/// The lines of `s` after a line `cur` already begun, as `str::lines` gives
/// them: split after each `'\n'`, a `"\r\n"` ending removed, and no empty
/// line after a final `'\n'`.
pub open spec fn lines_from(s: Seq<char>, cur: Seq<char>) -> Seq<Seq<char>>
    decreases s.len(),
{
    if s.len() == 0 {
        flush(cur)
    } else if s[0] == '\n' {
        seq![strip_cr(cur)] + lines_from(s.drop_first(), seq![])
    } else {
        lines_from(s.drop_first(), cur.push(s[0]))
    }
}

/// A line without one trailing `'\r'`.
pub open spec fn strip_cr(l: Seq<char>) -> Seq<char> {
    if l.len() > 0 && l.last() == '\r' {
        l.drop_last()
    } else {
        l
    }
}

/// `str::lines`.
pub open spec fn text_lines(s: Seq<char>) -> Seq<Seq<char>> {
    lines_from(s, seq![])
}

} // verus!
