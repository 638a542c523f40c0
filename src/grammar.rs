//! The line grammar.
//!
//! Each of the eight patterns is a name ending in `>>` followed by its
//! fields. A pattern is searched for anywhere in the line, and a line is an
//! event only when exactly one pattern occurs in it. The patterns, in order:
//!
//! | index | pattern                       | event                  |
//! |-------|-------------------------------|------------------------|
//! | 0     | `workspace>>` `N?`            | WorkspaceChanged       |
//! | 1     | `destroyworkspace>>` `N`      | WorkspaceDeleted       |
//! | 2     | `createworkspace>>` `N`       | WorkspaceAdded         |
//! | 3     | `activemon>>` `name,N`        | ActiveMonitorChanged   |
//! | 4     | `activewindow>>` `class,title`| ActiveWindowChanged    |
//! | 5     | `fullscreen>>` `0` or `1`     | FullscreenStateChanged |
//! | 6     | `monitorremoved>>` `name`     | MonitorRemoved         |
//! | 7     | `monitoradded>>` `name`       | MonitorAdded           |
//!
//! `N` is one or two decimal digits; the longest run is taken. Text fields
//! run to the end of the line; a comma that separates two fields is the last
//! one that can be. `workspace>>` counts only where it does not continue a
//! word (so not inside `destroyworkspace>>`); word characters are those of
//! Unicode, which among ASCII are the letters, digits and `_`.
use crate::event::{DecodeError, Event, EventModel, MonitorEventData, WindowEventData};
use vstd::prelude::*;
use vstd::string::{StrSliceExecFns, StringExecFns};

verus! {

/// The number of patterns in the grammar.
pub const PATTERN_COUNT: usize = 8;

pub open spec fn is_digit(c: char) -> bool {
    '0' <= c && c <= '9'
}

/// Whether `c` is a word character of Unicode (UTS #18, Annex C).
pub uninterp spec fn unicode_word(c: char) -> bool;

/// Characters that continue a word, as far as the boundary before
/// `workspace>>` is concerned: among ASCII the letters, digits and `_`, and
/// beyond it the word characters of Unicode.
pub open spec fn is_word_char(c: char) -> bool {
    if (c as u32) < 128 {
        ('a' <= c && c <= 'z') || ('A' <= c && c <= 'Z') || is_digit(c) || c == '_'
    } else {
        unicode_word(c)
    }
}

pub open spec fn digit_value(c: char) -> int {
    (c as u32) as int - ('0' as u32) as int
}

/// The name that starts pattern `k`, with its `>>`.
pub open spec fn pattern_name(k: int) -> Seq<char> {
    if k == 0 {
        "workspace>>"@
    } else if k == 1 {
        "destroyworkspace>>"@
    } else if k == 2 {
        "createworkspace>>"@
    } else if k == 3 {
        "activemon>>"@
    } else if k == 4 {
        "activewindow>>"@
    } else if k == 5 {
        "fullscreen>>"@
    } else if k == 6 {
        "monitorremoved>>"@
    } else {
        "monitoradded>>"@
    }
}

/// The name of pattern `k` stands in `s` at `p`.
pub open spec fn name_at(s: Seq<char>, k: int, p: int) -> bool {
    &&& 0 <= p
    &&& p + pattern_name(k).len() <= s.len()
    &&& s.subrange(p, p + pattern_name(k).len()) == pattern_name(k)
    &&& (k == 0 ==> (p == 0 || !is_word_char(s[p - 1])))
}

/// The last comma of `s` at or after `q` and before `i`, followed by a digit
/// where `digit_after` asks for it; -1 when there is none.
pub open spec fn last_comma(s: Seq<char>, q: int, i: int, digit_after: bool) -> int
    decreases i - q,
{
    if i <= q {
        -1
    } else if s[i - 1] == ',' && (!digit_after || (i < s.len() && is_digit(s[i]))) {
        i - 1
    } else {
        last_comma(s, q, i - 1, digit_after)
    }
}

/// The fields of pattern `k` can start at `q`.
pub open spec fn fields_at(s: Seq<char>, k: int, q: int) -> bool {
    if k == 1 || k == 2 {
        q < s.len() && is_digit(s[q])
    } else if k == 3 {
        last_comma(s, q, s.len() as int, true) >= q
    } else if k == 4 {
        last_comma(s, q, s.len() as int, false) >= q
    } else if k == 5 {
        q < s.len() && (s[q] == '0' || s[q] == '1')
    } else {
        true
    }
}

pub open spec fn matches_at(s: Seq<char>, k: int, p: int) -> bool {
    name_at(s, k, p) && fields_at(s, k, p + pattern_name(k).len())
}

/// The leftmost position at or after `p` where pattern `k` matches; -1 when
/// there is none.
pub open spec fn first_match(s: Seq<char>, k: int, p: int) -> int
    decreases s.len() - p,
{
    if p < 0 || p >= s.len() {
        -1
    } else if matches_at(s, k, p) {
        p
    } else {
        first_match(s, k, p + 1)
    }
}

pub open spec fn matches(s: Seq<char>, k: int) -> bool {
    first_match(s, k, 0) >= 0
}

/// How many of the first `n` patterns match `s`.
pub open spec fn match_count(s: Seq<char>, n: int) -> int
    decreases n,
{
    if n <= 0 {
        0
    } else {
        match_count(s, n - 1) + if matches(s, n - 1) {
            1int
        } else {
            0int
        }
    }
}

/// The first of the first `n` patterns that matches `s`; -1 when none does.
pub open spec fn first_kind(s: Seq<char>, n: int) -> int
    decreases n,
{
    if n <= 0 {
        -1
    } else if first_kind(s, n - 1) >= 0 {
        first_kind(s, n - 1)
    } else if matches(s, n - 1) {
        n - 1
    } else {
        -1
    }
}

/// The length of the run of digits at `q`, at most two.
pub open spec fn digits_len(s: Seq<char>, q: int) -> int {
    if 0 <= q < s.len() && is_digit(s[q]) {
        if q + 1 < s.len() && is_digit(s[q + 1]) {
            2
        } else {
            1
        }
    } else {
        0
    }
}

/// The value of the run of digits at `q`.
pub open spec fn number_at(s: Seq<char>, q: int) -> int {
    if digits_len(s, q) == 2 {
        10 * digit_value(s[q]) + digit_value(s[q + 1])
    } else if digits_len(s, q) == 1 {
        digit_value(s[q])
    } else {
        0
    }
}

/// The event that pattern `k` reads from `s`, where it matches.
pub open spec fn event_of(s: Seq<char>, k: int) -> EventModel {
    let q = first_match(s, k, 0) + pattern_name(k).len();
    if k == 0 {
        EventModel::WorkspaceChanged(
            if digits_len(s, q) == 0 {
                1
            } else {
                number_at(s, q) as u8
            },
        )
    } else if k == 1 {
        EventModel::WorkspaceDeleted(number_at(s, q) as u8)
    } else if k == 2 {
        EventModel::WorkspaceAdded(number_at(s, q) as u8)
    } else if k == 3 {
        let c = last_comma(s, q, s.len() as int, true);
        EventModel::ActiveMonitorChanged(s.subrange(q, c), number_at(s, c + 1) as u8)
    } else if k == 4 {
        let c = last_comma(s, q, s.len() as int, false);
        let class = s.subrange(q, c);
        let title = s.subrange(c + 1, s.len() as int);
        EventModel::ActiveWindowChanged(
            if class.len() > 0 && title.len() > 0 {
                Some((class, title))
            } else {
                None
            },
        )
    } else if k == 5 {
        EventModel::FullscreenStateChanged(s[q] == '0')
    } else if k == 6 {
        EventModel::MonitorRemoved(s.subrange(q, s.len() as int))
    } else {
        EventModel::MonitorAdded(s.subrange(q, s.len() as int))
    }
}

/// What a line decodes to.
pub open spec fn decode_spec(s: Seq<char>) -> Result<EventModel, DecodeError> {
    if match_count(s, PATTERN_COUNT as int) != 1 {
        Err(DecodeError::Ambiguous)
    } else {
        Ok(event_of(s, first_kind(s, PATTERN_COUNT as int)))
    }
}

fn pattern_text(k: usize) -> (r: &'static str)
    requires
        k < PATTERN_COUNT,
    ensures
        r@ == pattern_name(k as int),
{
    if k == 0 {
        "workspace>>"
    } else if k == 1 {
        "destroyworkspace>>"
    } else if k == 2 {
        "createworkspace>>"
    } else if k == 3 {
        "activemon>>"
    } else if k == 4 {
        "activewindow>>"
    } else if k == 5 {
        "fullscreen>>"
    } else if k == 6 {
        "monitorremoved>>"
    } else {
        "monitoradded>>"
    }
}

fn char_is_digit(c: char) -> (r: bool)
    ensures
        r == is_digit(c),
{
    '0' <= c && c <= '9'
}

/// Relies on `regex_syntax::is_word_character`: whether `c` is a Unicode
/// word character, the class that the regex crate's `\b` is drawn on. It
/// panics only without the `unicode-perl` feature, which is switched on.
#[verifier::external_body]
fn unicode_word_char(c: char) -> (r: bool)
    ensures
        r == unicode_word(c),
{
    regex_syntax::is_word_character(c)
}

fn char_is_word(c: char) -> (r: bool)
    ensures
        r == is_word_char(c),
{
    if (c as u32) < 128 {
        ('a' <= c && c <= 'z') || ('A' <= c && c <= 'Z') || char_is_digit(c) || c == '_'
    } else {
        unicode_word_char(c)
    }
}

/// The characters of `s`, one per element.
pub(crate) fn chars_of(s: &str) -> (r: Vec<char>)
    ensures
        r@ == s@,
{
    let n = s.unicode_len();
    let mut r: Vec<char> = Vec::new();
    let mut i: usize = 0;
    while i < n
        invariant
            n == s@.len(),
            i <= n,
            r@ == s@.subrange(0, i as int),
        decreases n - i,
    {
        r.push(s.get_char(i));
        i = i + 1;
    }
    r
}

fn name_at_exec(s: &Vec<char>, k: usize, p: usize) -> (r: bool)
    requires
        k < PATTERN_COUNT,
        p <= s@.len(),
    ensures
        r == name_at(s@, k as int, p as int),
{
    let lit = pattern_text(k);
    let n = lit.unicode_len();
    if n > s.len() - p {
        return false;
    }
    let mut i: usize = 0;
    while i < n
        invariant
            n == lit@.len(),
            lit@ == pattern_name(k as int),
            p + n <= s@.len(),
            s@.len() == s.len(),
            i <= n,
            forall|j: int| 0 <= j < i ==> s@[p + j] == lit@[j],
        decreases n - i,
    {
        if s[p + i] != lit.get_char(i) {
            assert(s@.subrange(p as int, p + n)[i as int] != lit@[i as int]);
            return false;
        }
        i = i + 1;
    }
    assert(s@.subrange(p as int, p + n) =~= lit@);
    if k == 0 && p > 0 && char_is_word(s[p - 1]) {
        return false;
    }
    true
}

/// The last comma at or after `q`, as [`last_comma`] over the whole line.
fn last_comma_exec(s: &Vec<char>, q: usize, digit_after: bool) -> (r: Option<usize>)
    requires
        q <= s@.len(),
    ensures
        match r {
            Some(c) => q <= c && c as int == last_comma(s@, q as int, s@.len() as int, digit_after),
            None => last_comma(s@, q as int, s@.len() as int, digit_after) == -1,
        },
{
    let mut i: usize = s.len();
    while i > q
        invariant
            q <= i <= s@.len(),
            last_comma(s@, q as int, s@.len() as int, digit_after) == last_comma(
                s@,
                q as int,
                i as int,
                digit_after,
            ),
        decreases i,
    {
        if s[i - 1] == ',' && (!digit_after || (i < s.len() && char_is_digit(s[i]))) {
            return Some(i - 1);
        }
        i = i - 1;
    }
    None
}

fn fields_at_exec(s: &Vec<char>, k: usize, q: usize) -> (r: bool)
    requires
        k < PATTERN_COUNT,
        q <= s@.len(),
    ensures
        r == fields_at(s@, k as int, q as int),
{
    if k == 1 || k == 2 {
        q < s.len() && char_is_digit(s[q])
    } else if k == 3 {
        last_comma_exec(s, q, true).is_some()
    } else if k == 4 {
        last_comma_exec(s, q, false).is_some()
    } else if k == 5 {
        q < s.len() && (s[q] == '0' || s[q] == '1')
    } else {
        true
    }
}

/// The leftmost position where pattern `k` matches `s`.
fn find_pattern(s: &Vec<char>, k: usize) -> (r: Option<usize>)
    requires
        k < PATTERN_COUNT,
    ensures
        match r {
            Some(p) => p as int == first_match(s@, k as int, 0),
            None => first_match(s@, k as int, 0) == -1,
        },
{
    let n = pattern_text(k).unicode_len();
    let mut p: usize = 0;
    while p < s.len()
        invariant
            k < PATTERN_COUNT,
            p <= s@.len(),
            n == pattern_name(k as int).len(),
            first_match(s@, k as int, 0) == first_match(s@, k as int, p as int),
        decreases s@.len() - p,
    {
        if name_at_exec(s, k, p) && fields_at_exec(s, k, p + n) {
            return Some(p);
        }
        p = p + 1;
    }
    None
}

proof fn lemma_last_comma_range(s: Seq<char>, q: int, i: int, digit_after: bool)
    ensures
        last_comma(s, q, i, digit_after) == -1 || (q <= last_comma(s, q, i, digit_after) < i),
    decreases i - q,
{
    if i > q {
        lemma_last_comma_range(s, q, i - 1, digit_after);
    }
}

proof fn lemma_first_match_found(s: Seq<char>, k: int, p: int)
    ensures
        first_match(s, k, p) == -1 || (p <= first_match(s, k, p) && matches_at(
            s,
            k,
            first_match(s, k, p),
        )),
    decreases s.len() - p,
{
    if 0 <= p < s.len() && !matches_at(s, k, p) {
        lemma_first_match_found(s, k, p + 1);
    }
}

fn digits_len_exec(s: &Vec<char>, q: usize) -> (r: usize)
    ensures
        r as int == digits_len(s@, q as int),
        r <= 2,
{
    if q < s.len() && char_is_digit(s[q]) {
        if q + 1 < s.len() && char_is_digit(s[q + 1]) {
            2
        } else {
            1
        }
    } else {
        0
    }
}

fn digit_exec(c: char) -> (r: u8)
    requires
        is_digit(c),
    ensures
        r as int == digit_value(c),
        r <= 9,
{
    ((c as u32) - ('0' as u32)) as u8
}

fn number_exec(s: &Vec<char>, q: usize) -> (r: u8)
    ensures
        r as int == number_at(s@, q as int),
        r <= 99,
{
    let n = digits_len_exec(s, q);
    let len = s.len();
    if n == 2 {
        assert(q + 1 < len);
        10 * digit_exec(s[q]) + digit_exec(s[q + 1])
    } else if n == 1 {
        digit_exec(s[q])
    } else {
        0
    }
}

fn substring(line: &str, from: usize, to: usize) -> (r: String)
    requires
        from <= to <= line@.len(),
    ensures
        r@ == line@.subrange(from as int, to as int),
{
    String::from_str(line.substring_char(from, to))
}

/// Decodes one line of the stream.
///
/// The line is an event when exactly one pattern of the grammar occurs in
/// it; otherwise it is `Ambiguous`. The event's fields are those that the
/// pattern's leftmost occurrence captures.
pub fn decode(line: &str) -> (r: Result<Event, DecodeError>)
    ensures
        match r {
            Ok(e) => decode_spec(line@) == Ok::<EventModel, DecodeError>(e@),
            Err(d) => decode_spec(line@) == Err::<EventModel, DecodeError>(d),
        },
{
    let s = chars_of(line);
    let mut count: usize = 0;
    let mut first: Option<(usize, usize)> = None;
    let mut k: usize = 0;
    while k < PATTERN_COUNT
        invariant
            k <= PATTERN_COUNT,
            s@ == line@,
            count as int == match_count(s@, k as int),
            count <= k,
            (count == 0) == (first is None),
            match first {
                Some((j, p)) => j < k && j as int == first_kind(s@, k as int) && p as int
                    == first_match(s@, j as int, 0),
                None => first_kind(s@, k as int) == -1,
            },
        decreases PATTERN_COUNT - k,
    {
        match find_pattern(&s, k) {
            Some(p) => {
                if first.is_none() {
                    first = Some((k, p));
                }
                count = count + 1;
            },
            None => {},
        }
        k = k + 1;
    }
    if count != 1 {
        return Err(DecodeError::Ambiguous);
    }
    let (k, p) = first.unwrap();
    proof {
        lemma_first_match_found(s@, k as int, 0);
    }
    let name_len = pattern_text(k).unicode_len();
    let len = s.len();
    assert(matches_at(s@, k as int, p as int));
    assert(p + name_len <= len);
    let q = p + name_len;
    if k == 0 {
        let id = if digits_len_exec(&s, q) == 0 {
            1u8
        } else {
            number_exec(&s, q)
        };
        Ok(Event::WorkspaceChanged(id))
    } else if k == 1 {
        Ok(Event::WorkspaceDeleted(number_exec(&s, q)))
    } else if k == 2 {
        Ok(Event::WorkspaceAdded(number_exec(&s, q)))
    } else if k == 3 {
        let c = last_comma_exec(&s, q, true).unwrap();
        proof {
            lemma_last_comma_range(s@, q as int, len as int, true);
        }
        let monitor = substring(line, q, c);
        Ok(Event::ActiveMonitorChanged(MonitorEventData(monitor, number_exec(&s, c + 1))))
    } else if k == 4 {
        let c = last_comma_exec(&s, q, false).unwrap();
        proof {
            lemma_last_comma_range(s@, q as int, len as int, false);
        }
        let class = substring(line, q, c);
        let title = substring(line, c + 1, len);
        if c > q && c + 1 < len {
            Ok(Event::ActiveWindowChanged(Some(WindowEventData(class, title))))
        } else {
            Ok(Event::ActiveWindowChanged(None))
        }
    } else if k == 5 {
        Ok(Event::FullscreenStateChanged(s[q] == '0'))
    } else if k == 6 {
        Ok(Event::MonitorRemoved(substring(line, q, len)))
    } else {
        Ok(Event::MonitorAdded(substring(line, q, len)))
    }
}

/// A line decodes to an event exactly when one pattern matches it; a line
/// that matches none, or several, is `Ambiguous`, whatever it holds.
pub proof fn lemma_ambiguous_unless_one_match(s: Seq<char>)
    ensures
        decode_spec(s) == Err::<EventModel, DecodeError>(DecodeError::Ambiguous) <==> match_count(
            s,
            PATTERN_COUNT as int,
        ) != 1,
        decode_spec(s) != Err::<EventModel, DecodeError>(DecodeError::FieldConversion),
{
}

/// The digit that stands for `d`, for `d` from 0 to 9.
pub open spec fn digit_char(d: int) -> char {
    if d == 0 {
        '0'
    } else if d == 1 {
        '1'
    } else if d == 2 {
        '2'
    } else if d == 3 {
        '3'
    } else if d == 4 {
        '4'
    } else if d == 5 {
        '5'
    } else if d == 6 {
        '6'
    } else if d == 7 {
        '7'
    } else if d == 8 {
        '8'
    } else {
        '9'
    }
}

/// A workspace number in decimal, without leading zeros.
pub open spec fn id_text(id: u8) -> Seq<char> {
    if id < 10 {
        seq![digit_char(id as int)]
    } else if id < 100 {
        seq![digit_char(id as int / 10), digit_char(id as int % 10)]
    } else {
        seq![digit_char(id as int / 100), digit_char(id as int / 10 % 10), digit_char(id as int % 10)]
    }
}

/// The line that the host sends for an event.
pub open spec fn encode(e: EventModel) -> Seq<char> {
    match e {
        EventModel::WorkspaceChanged(id) => pattern_name(0) + id_text(id),
        EventModel::WorkspaceDeleted(id) => pattern_name(1) + id_text(id),
        EventModel::WorkspaceAdded(id) => pattern_name(2) + id_text(id),
        EventModel::ActiveMonitorChanged(m, id) => pattern_name(3) + m + seq![','] + id_text(id),
        EventModel::ActiveWindowChanged(Some((c, t))) => pattern_name(4) + c + seq![','] + t,
        EventModel::ActiveWindowChanged(None) => pattern_name(4) + seq![','],
        EventModel::FullscreenStateChanged(b) => pattern_name(5) + seq![
            if b {
                '0'
            } else {
                '1'
            },
        ],
        EventModel::MonitorRemoved(m) => pattern_name(6) + m,
        EventModel::MonitorAdded(m) => pattern_name(7) + m,
    }
}

pub open spec fn lacks(s: Seq<char>, c: char) -> bool {
    forall|i: int| 0 <= i < s.len() ==> s[i] != c
}

/// `s` holds no `>>`.
pub open spec fn lacks_arrow(s: Seq<char>) -> bool {
    forall|i: int| 0 <= i < s.len() - 1 ==> !(#[trigger] s[i] == '>' && s[i + 1] == '>')
}

/// The events that the grammar can carry: workspace numbers of at most two
/// digits, text without `>>`, a window title without a comma, and a window
/// class and title that are both present.
pub open spec fn encodable(e: EventModel) -> bool {
    match e {
        EventModel::WorkspaceChanged(id) => id <= 99,
        EventModel::WorkspaceDeleted(id) => id <= 99,
        EventModel::WorkspaceAdded(id) => id <= 99,
        EventModel::ActiveMonitorChanged(m, id) => id <= 99 && lacks_arrow(m),
        EventModel::ActiveWindowChanged(Some((c, t))) => c.len() > 0 && t.len() > 0
            && lacks_arrow(c) && lacks_arrow(t) && lacks(t, ','),
        EventModel::ActiveWindowChanged(None) => true,
        EventModel::FullscreenStateChanged(_) => true,
        EventModel::MonitorRemoved(m) => lacks_arrow(m),
        EventModel::MonitorAdded(m) => lacks_arrow(m),
    }
}

/// Each name is a lowercase word of at least nine letters, then `>>`.
proof fn lemma_name_shape(k: int)
    requires
        0 <= k < PATTERN_COUNT,
    ensures
        pattern_name(k).len() >= 11,
        pattern_name(k)[pattern_name(k).len() - 1] == '>',
        pattern_name(k)[pattern_name(k).len() - 2] == '>',
        forall|i: int|
            0 <= i < pattern_name(k).len() - 2 ==> 'a' <= #[trigger] pattern_name(k)[i] <= 'z',
{
    reveal_strlit("workspace>>");
    reveal_strlit("destroyworkspace>>");
    reveal_strlit("createworkspace>>");
    reveal_strlit("activemon>>");
    reveal_strlit("activewindow>>");
    reveal_strlit("fullscreen>>");
    reveal_strlit("monitorremoved>>");
    reveal_strlit("monitoradded>>");
    if k == 0 {
        assert(pattern_name(k) == "workspace>>"@);
        assert("workspace>>"@.len() == 11);
    } else if k == 1 {
        assert(pattern_name(k) == "destroyworkspace>>"@);
        assert("destroyworkspace>>"@.len() == 18);
    } else if k == 2 {
        assert(pattern_name(k) == "createworkspace>>"@);
        assert("createworkspace>>"@.len() == 17);
    } else if k == 3 {
        assert(pattern_name(k) == "activemon>>"@);
        assert("activemon>>"@.len() == 11);
    } else if k == 4 {
        assert(pattern_name(k) == "activewindow>>"@);
        assert("activewindow>>"@.len() == 14);
    } else if k == 5 {
        assert(pattern_name(k) == "fullscreen>>"@);
        assert("fullscreen>>"@.len() == 12);
    } else if k == 6 {
        assert(pattern_name(k) == "monitorremoved>>"@);
        assert("monitorremoved>>"@.len() == 16);
    } else {
        assert(pattern_name(k) == "monitoradded>>"@);
        assert("monitoradded>>"@.len() == 14);
    }
}

/// After the name of pattern `k`, text without `>>` lets no other name, nor
/// the same one again, stand in the line.
proof fn lemma_only_own_name(k: int, f: Seq<char>, j: int, p: int)
    requires
        0 <= k < PATTERN_COUNT,
        0 <= j < PATTERN_COUNT,
        lacks_arrow(f),
        name_at(pattern_name(k) + f, j, p),
    ensures
        j == k && p == 0,
{
    lemma_name_shape(k);
    lemma_name_shape(j);
    let n = pattern_name(k);
    let line = n + f;
    let nk = n.len() as int;
    let nj = pattern_name(j).len() as int;
    assert(line.subrange(p, p + nj)[nj - 1] == '>');
    assert(line.subrange(p, p + nj)[nj - 2] == '>');
    assert(line[p + nj - 1] == '>');
    assert(line[p + nj - 2] == '>');
    if p + nj - 2 >= nk {
        assert(f[p + nj - 2 - nk] == '>');
        assert(f[p + nj - 1 - nk] == '>');
    }
    if p + nj - 2 == nk - 1 {
        assert(line.subrange(p, p + nj)[nj - 3] == pattern_name(j)[nj - 3]);
        assert(line[nk - 2] == '>');
    }
    assert(n[p + nj - 1] == '>');
    assert(n[p + nj - 2] == '>');
    assert(p + nj == nk);
    assert(line.subrange(p, p + nj)[0] == pattern_name(j)[0]);
    assert(line.subrange(p, p + nj)[1] == pattern_name(j)[1]);
    assert(n[p] == pattern_name(j)[0]);
    assert(n[p + 1] == pattern_name(j)[1]);
    if j == 0 && p > 0 {
        assert(line[p - 1] == n[p - 1]);
        assert(is_word_char(n[p - 1]));
    }
    if j != k {
        if k == 0 && j == 1 {
            assert(n == "workspace>>"@);
            assert(pattern_name(j) == "destroyworkspace>>"@);
        } else if k == 0 && j == 2 {
            assert(n == "workspace>>"@);
            assert(pattern_name(j) == "createworkspace>>"@);
        } else if k == 0 && j == 3 {
            assert(n == "workspace>>"@);
            assert(pattern_name(j) == "activemon>>"@);
        } else if k == 0 && j == 4 {
            assert(n == "workspace>>"@);
            assert(pattern_name(j) == "activewindow>>"@);
        } else if k == 0 && j == 5 {
            assert(n == "workspace>>"@);
            assert(pattern_name(j) == "fullscreen>>"@);
        } else if k == 0 && j == 6 {
            assert(n == "workspace>>"@);
            assert(pattern_name(j) == "monitorremoved>>"@);
        } else if k == 0 && j == 7 {
            assert(n == "workspace>>"@);
            assert(pattern_name(j) == "monitoradded>>"@);
        } else if k == 1 && j == 0 {
            assert(n == "destroyworkspace>>"@);
            assert(pattern_name(j) == "workspace>>"@);
        } else if k == 1 && j == 2 {
            assert(n == "destroyworkspace>>"@);
            assert(pattern_name(j) == "createworkspace>>"@);
        } else if k == 1 && j == 3 {
            assert(n == "destroyworkspace>>"@);
            assert(pattern_name(j) == "activemon>>"@);
        } else if k == 1 && j == 4 {
            assert(n == "destroyworkspace>>"@);
            assert(pattern_name(j) == "activewindow>>"@);
        } else if k == 1 && j == 5 {
            assert(n == "destroyworkspace>>"@);
            assert(pattern_name(j) == "fullscreen>>"@);
        } else if k == 1 && j == 6 {
            assert(n == "destroyworkspace>>"@);
            assert(pattern_name(j) == "monitorremoved>>"@);
        } else if k == 1 && j == 7 {
            assert(n == "destroyworkspace>>"@);
            assert(pattern_name(j) == "monitoradded>>"@);
        } else if k == 2 && j == 0 {
            assert(n == "createworkspace>>"@);
            assert(pattern_name(j) == "workspace>>"@);
        } else if k == 2 && j == 1 {
            assert(n == "createworkspace>>"@);
            assert(pattern_name(j) == "destroyworkspace>>"@);
        } else if k == 2 && j == 3 {
            assert(n == "createworkspace>>"@);
            assert(pattern_name(j) == "activemon>>"@);
        } else if k == 2 && j == 4 {
            assert(n == "createworkspace>>"@);
            assert(pattern_name(j) == "activewindow>>"@);
        } else if k == 2 && j == 5 {
            assert(n == "createworkspace>>"@);
            assert(pattern_name(j) == "fullscreen>>"@);
        } else if k == 2 && j == 6 {
            assert(n == "createworkspace>>"@);
            assert(pattern_name(j) == "monitorremoved>>"@);
        } else if k == 2 && j == 7 {
            assert(n == "createworkspace>>"@);
            assert(pattern_name(j) == "monitoradded>>"@);
        } else if k == 3 && j == 0 {
            assert(n == "activemon>>"@);
            assert(pattern_name(j) == "workspace>>"@);
        } else if k == 3 && j == 1 {
            assert(n == "activemon>>"@);
            assert(pattern_name(j) == "destroyworkspace>>"@);
        } else if k == 3 && j == 2 {
            assert(n == "activemon>>"@);
            assert(pattern_name(j) == "createworkspace>>"@);
        } else if k == 3 && j == 4 {
            assert(n == "activemon>>"@);
            assert(pattern_name(j) == "activewindow>>"@);
        } else if k == 3 && j == 5 {
            assert(n == "activemon>>"@);
            assert(pattern_name(j) == "fullscreen>>"@);
        } else if k == 3 && j == 6 {
            assert(n == "activemon>>"@);
            assert(pattern_name(j) == "monitorremoved>>"@);
        } else if k == 3 && j == 7 {
            assert(n == "activemon>>"@);
            assert(pattern_name(j) == "monitoradded>>"@);
        } else if k == 4 && j == 0 {
            assert(n == "activewindow>>"@);
            assert(pattern_name(j) == "workspace>>"@);
        } else if k == 4 && j == 1 {
            assert(n == "activewindow>>"@);
            assert(pattern_name(j) == "destroyworkspace>>"@);
        } else if k == 4 && j == 2 {
            assert(n == "activewindow>>"@);
            assert(pattern_name(j) == "createworkspace>>"@);
        } else if k == 4 && j == 3 {
            assert(n == "activewindow>>"@);
            assert(pattern_name(j) == "activemon>>"@);
        } else if k == 4 && j == 5 {
            assert(n == "activewindow>>"@);
            assert(pattern_name(j) == "fullscreen>>"@);
        } else if k == 4 && j == 6 {
            assert(n == "activewindow>>"@);
            assert(pattern_name(j) == "monitorremoved>>"@);
        } else if k == 4 && j == 7 {
            assert(n == "activewindow>>"@);
            assert(pattern_name(j) == "monitoradded>>"@);
        } else if k == 5 && j == 0 {
            assert(n == "fullscreen>>"@);
            assert(pattern_name(j) == "workspace>>"@);
        } else if k == 5 && j == 1 {
            assert(n == "fullscreen>>"@);
            assert(pattern_name(j) == "destroyworkspace>>"@);
        } else if k == 5 && j == 2 {
            assert(n == "fullscreen>>"@);
            assert(pattern_name(j) == "createworkspace>>"@);
        } else if k == 5 && j == 3 {
            assert(n == "fullscreen>>"@);
            assert(pattern_name(j) == "activemon>>"@);
        } else if k == 5 && j == 4 {
            assert(n == "fullscreen>>"@);
            assert(pattern_name(j) == "activewindow>>"@);
        } else if k == 5 && j == 6 {
            assert(n == "fullscreen>>"@);
            assert(pattern_name(j) == "monitorremoved>>"@);
        } else if k == 5 && j == 7 {
            assert(n == "fullscreen>>"@);
            assert(pattern_name(j) == "monitoradded>>"@);
        } else if k == 6 && j == 0 {
            assert(n == "monitorremoved>>"@);
            assert(pattern_name(j) == "workspace>>"@);
        } else if k == 6 && j == 1 {
            assert(n == "monitorremoved>>"@);
            assert(pattern_name(j) == "destroyworkspace>>"@);
        } else if k == 6 && j == 2 {
            assert(n == "monitorremoved>>"@);
            assert(pattern_name(j) == "createworkspace>>"@);
        } else if k == 6 && j == 3 {
            assert(n == "monitorremoved>>"@);
            assert(pattern_name(j) == "activemon>>"@);
        } else if k == 6 && j == 4 {
            assert(n == "monitorremoved>>"@);
            assert(pattern_name(j) == "activewindow>>"@);
        } else if k == 6 && j == 5 {
            assert(n == "monitorremoved>>"@);
            assert(pattern_name(j) == "fullscreen>>"@);
        } else if k == 6 && j == 7 {
            assert(n == "monitorremoved>>"@);
            assert(pattern_name(j) == "monitoradded>>"@);
        } else if k == 7 && j == 0 {
            assert(n == "monitoradded>>"@);
            assert(pattern_name(j) == "workspace>>"@);
        } else if k == 7 && j == 1 {
            assert(n == "monitoradded>>"@);
            assert(pattern_name(j) == "destroyworkspace>>"@);
        } else if k == 7 && j == 2 {
            assert(n == "monitoradded>>"@);
            assert(pattern_name(j) == "createworkspace>>"@);
        } else if k == 7 && j == 3 {
            assert(n == "monitoradded>>"@);
            assert(pattern_name(j) == "activemon>>"@);
        } else if k == 7 && j == 4 {
            assert(n == "monitoradded>>"@);
            assert(pattern_name(j) == "activewindow>>"@);
        } else if k == 7 && j == 5 {
            assert(n == "monitoradded>>"@);
            assert(pattern_name(j) == "fullscreen>>"@);
        } else if k == 7 && j == 6 {
            assert(n == "monitoradded>>"@);
            assert(pattern_name(j) == "monitorremoved>>"@);
        }
    }
    reveal_strlit("workspace>>");
    reveal_strlit("destroyworkspace>>");
    reveal_strlit("createworkspace>>");
    reveal_strlit("activemon>>");
    reveal_strlit("activewindow>>");
    reveal_strlit("fullscreen>>");
    reveal_strlit("monitorremoved>>");
    reveal_strlit("monitoradded>>");
}

proof fn lemma_no_match_from(s: Seq<char>, j: int, p: int)
    requires
        forall|x: int| x >= p ==> !matches_at(s, j, x),
    ensures
        first_match(s, j, p) == -1,
    decreases s.len() - p,
{
    if 0 <= p < s.len() {
        lemma_no_match_from(s, j, p + 1);
    }
}

proof fn lemma_count_one(s: Seq<char>, k: int, n: int)
    requires
        0 <= k < PATTERN_COUNT,
        0 <= n <= PATTERN_COUNT,
        forall|j: int| 0 <= j < PATTERN_COUNT ==> (matches(s, j) <==> j == k),
    ensures
        match_count(s, n) == (if k < n {
            1int
        } else {
            0int
        }),
        first_kind(s, n) == (if k < n {
            k
        } else {
            -1
        }),
    decreases n,
{
    if n > 0 {
        lemma_count_one(s, k, n - 1);
    }
}

/// A line made of the name of pattern `k` and fields of its shape without
/// `>>` decodes by pattern `k`, read from just after the name.
proof fn lemma_decodes_by_own_pattern(k: int, f: Seq<char>)
    requires
        0 <= k < PATTERN_COUNT,
        lacks_arrow(f),
        fields_at(pattern_name(k) + f, k, pattern_name(k).len() as int),
    ensures
        decode_spec(pattern_name(k) + f) == Ok::<EventModel, DecodeError>(
            event_of(pattern_name(k) + f, k),
        ),
        first_match(pattern_name(k) + f, k, 0) == 0,
{
    let line = pattern_name(k) + f;
    lemma_name_shape(k);
    assert(line.subrange(0, pattern_name(k).len() as int) =~= pattern_name(k));
    assert(matches_at(line, k, 0));
    assert forall|j: int| 0 <= j < PATTERN_COUNT && j != k implies !matches(line, j) by {
        assert forall|x: int| x >= 0 implies !matches_at(line, j, x) by {
            if name_at(line, j, x) {
                lemma_only_own_name(k, f, j, x);
            }
        }
        lemma_no_match_from(line, j, 0);
    }
    assert(first_match(line, k, 0) == 0);
    lemma_count_one(line, k, PATTERN_COUNT as int);
}

proof fn lemma_digit_char(d: int)
    requires
        0 <= d <= 9,
    ensures
        is_digit(digit_char(d)),
        digit_value(digit_char(d)) == d,
        digit_char(d) != '>',
        digit_char(d) != ',',
{
}

/// The digits of `id`, ending the line at `q`, read back as `id`.
proof fn lemma_number_at_end(s: Seq<char>, q: int, id: u8)
    requires
        id <= 99,
        0 <= q <= s.len(),
        s.subrange(q, s.len() as int) == id_text(id),
    ensures
        digits_len(s, q) >= 1,
        number_at(s, q) == id,
{
    let t = id_text(id);
    assert(s.subrange(q, s.len() as int).len() == s.len() - q);
    assert(t.len() >= 1);
    assert(s[q] == s.subrange(q, s.len() as int)[0]);
    if id < 10 {
        lemma_digit_char(id as int);
        assert(s.len() == q + 1);
    } else {
        lemma_digit_char(id as int / 10);
        lemma_digit_char(id as int % 10);
        assert(s[q + 1] == s.subrange(q, s.len() as int)[1]);
        assert(s.len() == q + 2);
    }
}

proof fn lemma_id_text_plain(id: u8)
    requires
        id <= 99,
    ensures
        lacks(id_text(id), '>'),
        lacks(id_text(id), ','),
        is_digit(id_text(id)[0]),
{
    if id < 10 {
        lemma_digit_char(id as int);
    } else {
        lemma_digit_char(id as int / 10);
        lemma_digit_char(id as int % 10);
    }
}

proof fn lemma_last_comma_skip(s: Seq<char>, q: int, j: int, i: int, digit_after: bool)
    requires
        q <= j <= i <= s.len(),
        forall|x: int| j <= x < i ==> s[x] != ',',
    ensures
        last_comma(s, q, i, digit_after) == last_comma(s, q, j, digit_after),
    decreases i - j,
{
    if i > j {
        lemma_last_comma_skip(s, q, j, i - 1, digit_after);
    }
}

/// A workspace line with one or two digits decodes to their decimal value,
/// a leading zero included (`workspace>>07` is workspace 7).
pub proof fn lemma_workspace_digits(k: int, d: Seq<char>)
    requires
        0 <= k <= 2,
        1 <= d.len() <= 2,
        forall|i: int| 0 <= i < d.len() ==> is_digit(#[trigger] d[i]),
    ensures
        decode_spec(pattern_name(k) + d) == Ok::<EventModel, DecodeError>(
            if k == 0 {
                EventModel::WorkspaceChanged(number_at(d, 0) as u8)
            } else if k == 1 {
                EventModel::WorkspaceDeleted(number_at(d, 0) as u8)
            } else {
                EventModel::WorkspaceAdded(number_at(d, 0) as u8)
            },
        ),
        number_at(d, 0) == if d.len() == 1 {
            digit_value(d[0])
        } else {
            10 * digit_value(d[0]) + digit_value(d[1])
        },
{
    let line = pattern_name(k) + d;
    lemma_name_shape(k);
    let q = pattern_name(k).len() as int;
    assert(line[q] == d[0]);
    if d.len() == 2 {
        assert(line[q + 1] == d[1]);
    }
    assert(line.len() == q + d.len());
    assert(lacks_arrow(d));
    lemma_decodes_by_own_pattern(k, d);
}

/// Decoding the line of an event gives the event back, for every event that
/// the grammar can carry.
pub proof fn lemma_decode_encode(e: EventModel)
    requires
        encodable(e),
    ensures
        decode_spec(encode(e)) == Ok::<EventModel, DecodeError>(e),
{
    match e {
        EventModel::WorkspaceChanged(id) => {
            lemma_id_text_plain(id);
            let line = pattern_name(0) + id_text(id);
            lemma_name_shape(0);
            let q = pattern_name(0).len() as int;
            assert(line.subrange(q, line.len() as int) =~= id_text(id));
            lemma_decodes_by_own_pattern(0, id_text(id));
            lemma_number_at_end(line, q, id);
        },
        EventModel::WorkspaceDeleted(id) => {
            lemma_id_text_plain(id);
            let line = pattern_name(1) + id_text(id);
            lemma_name_shape(1);
            let q = pattern_name(1).len() as int;
            assert(line.subrange(q, line.len() as int) =~= id_text(id));
            assert(line[q] == id_text(id)[0]);
            lemma_decodes_by_own_pattern(1, id_text(id));
            lemma_number_at_end(line, q, id);
        },
        EventModel::WorkspaceAdded(id) => {
            lemma_id_text_plain(id);
            let line = pattern_name(2) + id_text(id);
            lemma_name_shape(2);
            let q = pattern_name(2).len() as int;
            assert(line.subrange(q, line.len() as int) =~= id_text(id));
            assert(line[q] == id_text(id)[0]);
            lemma_decodes_by_own_pattern(2, id_text(id));
            lemma_number_at_end(line, q, id);
        },
        EventModel::ActiveMonitorChanged(m, id) => {
            lemma_id_text_plain(id);
            let f = m + seq![','] + id_text(id);
            let line = pattern_name(3) + f;
            assert(encode(e) =~= line);
            lemma_name_shape(3);
            let q = pattern_name(3).len() as int;
            let c = q + m.len();
            assert(lacks_arrow(f)) by {
                assert forall|i: int| 0 <= i < f.len() - 1 implies !(#[trigger] f[i] == '>' && f[i + 1]
                    == '>') by {
                    if i + 1 < m.len() {
                        assert(f[i] == m[i] && f[i + 1] == m[i + 1]);
                    } else if i + 1 == m.len() {
                        assert(f[i + 1] == ',');
                    } else if i == m.len() {
                        assert(f[i] == ',');
                    } else {
                        assert(f[i] == id_text(id)[i - m.len() - 1]);
                    }
                }
            }
            assert forall|x: int| c + 1 <= x < line.len() implies line[x] != ',' by {
                assert(line[x] == id_text(id)[x - c - 1]);
            }
            lemma_last_comma_skip(line, q, c + 1, line.len() as int, true);
            assert(line[c] == ',');
            assert(line[c + 1] == id_text(id)[0]);
            assert(last_comma(line, q, line.len() as int, true) == c);
            lemma_decodes_by_own_pattern(3, f);
            assert(line.subrange(q, c) =~= m);
            assert(line.subrange(c + 1, line.len() as int) =~= id_text(id));
            lemma_number_at_end(line, c + 1, id);
        },
        EventModel::ActiveWindowChanged(Some((cl, t))) => {
            let f = cl + seq![','] + t;
            let line = pattern_name(4) + f;
            assert(encode(e) =~= line);
            lemma_name_shape(4);
            let q = pattern_name(4).len() as int;
            let c = q + cl.len();
            assert(lacks_arrow(f)) by {
                assert forall|i: int| 0 <= i < f.len() - 1 implies !(#[trigger] f[i] == '>' && f[i + 1]
                    == '>') by {
                    if i + 1 < cl.len() {
                        assert(f[i] == cl[i] && f[i + 1] == cl[i + 1]);
                    } else if i + 1 == cl.len() {
                        assert(f[i + 1] == ',');
                    } else if i == cl.len() {
                        assert(f[i] == ',');
                    } else {
                        assert(f[i] == t[i - cl.len() - 1] && f[i + 1] == t[i - cl.len()]);
                    }
                }
            }
            assert forall|x: int| c + 1 <= x < line.len() implies line[x] != ',' by {
                assert(line[x] == t[x - c - 1]);
            }
            lemma_last_comma_skip(line, q, c + 1, line.len() as int, false);
            assert(line[c] == ',');
            assert(last_comma(line, q, line.len() as int, false) == c);
            lemma_decodes_by_own_pattern(4, f);
            assert(line.subrange(q, c) =~= cl);
            assert(line.subrange(c + 1, line.len() as int) =~= t);
        },
        EventModel::ActiveWindowChanged(None) => {
            let f = seq![','];
            let line = pattern_name(4) + f;
            lemma_name_shape(4);
            let q = pattern_name(4).len() as int;
            assert(line[q] == ',');
            assert(last_comma(line, q, line.len() as int, false) == q);
            lemma_decodes_by_own_pattern(4, f);
            assert(line.subrange(q, q).len() == 0);
        },
        EventModel::FullscreenStateChanged(b) => {
            let f = seq![
                if b {
                    '0'
                } else {
                    '1'
                },
            ];
            let line = pattern_name(5) + f;
            lemma_name_shape(5);
            let q = pattern_name(5).len() as int;
            assert(line[q] == f[0]);
            lemma_decodes_by_own_pattern(5, f);
        },
        EventModel::MonitorRemoved(m) => {
            let line = pattern_name(6) + m;
            lemma_name_shape(6);
            lemma_decodes_by_own_pattern(6, m);
            assert(line.subrange(pattern_name(6).len() as int, line.len() as int) =~= m);
        },
        EventModel::MonitorAdded(m) => {
            let line = pattern_name(7) + m;
            lemma_name_shape(7);
            lemma_decodes_by_own_pattern(7, m);
            assert(line.subrange(pattern_name(7).len() as int, line.len() as int) =~= m);
        },
    }
}

fn digit_str(d: u8) -> (r: &'static str)
    requires
        d <= 9,
    ensures
        r@ == seq![digit_char(d as int)],
{
    if d == 0 {
        proof {
            reveal_strlit("0");
        }
        "0"
    } else if d == 1 {
        proof {
            reveal_strlit("1");
        }
        "1"
    } else if d == 2 {
        proof {
            reveal_strlit("2");
        }
        "2"
    } else if d == 3 {
        proof {
            reveal_strlit("3");
        }
        "3"
    } else if d == 4 {
        proof {
            reveal_strlit("4");
        }
        "4"
    } else if d == 5 {
        proof {
            reveal_strlit("5");
        }
        "5"
    } else if d == 6 {
        proof {
            reveal_strlit("6");
        }
        "6"
    } else if d == 7 {
        proof {
            reveal_strlit("7");
        }
        "7"
    } else if d == 8 {
        proof {
            reveal_strlit("8");
        }
        "8"
    } else {
        proof {
            reveal_strlit("9");
        }
        "9"
    }
}

fn push_id(out: &mut String, id: u8)
    ensures
        final(out)@ == old(out)@ + id_text(id),
{
    if id < 10 {
        out.append(digit_str(id));
    } else if id >= 100 {
        out.append(digit_str(id / 100));
        out.append(digit_str(id / 10 % 10));
        out.append(digit_str(id % 10));
    } else {
        out.append(digit_str(id / 10));
        out.append(digit_str(id % 10));
    }
}

/// The line that the host sends for `e`.
pub fn encode_line(e: &Event) -> (r: String)
    ensures
        r@ == encode(e@),
{
    let mut out = String::new();
    match e {
        Event::WorkspaceChanged(id) => {
            out.append(pattern_text(0));
            push_id(&mut out, *id);
        },
        Event::WorkspaceDeleted(id) => {
            out.append(pattern_text(1));
            push_id(&mut out, *id);
        },
        Event::WorkspaceAdded(id) => {
            out.append(pattern_text(2));
            push_id(&mut out, *id);
        },
        Event::ActiveMonitorChanged(m) => {
            out.append(pattern_text(3));
            out.append(m.0.as_str());
            out.append(",");
            proof {
                reveal_strlit(",");
            }
            push_id(&mut out, m.1);
        },
        Event::ActiveWindowChanged(Some(w)) => {
            out.append(pattern_text(4));
            out.append(w.0.as_str());
            out.append(",");
            proof {
                reveal_strlit(",");
            }
            out.append(w.1.as_str());
        },
        Event::ActiveWindowChanged(None) => {
            out.append(pattern_text(4));
            out.append(",");
            proof {
                reveal_strlit(",");
            }
        },
        Event::FullscreenStateChanged(b) => {
            out.append(pattern_text(5));
            if *b {
                out.append("0");
                proof {
                    reveal_strlit("0");
                }
            } else {
                out.append("1");
                proof {
                    reveal_strlit("1");
                }
            }
        },
        Event::MonitorRemoved(m) => {
            out.append(pattern_text(6));
            out.append(m.as_str());
        },
        Event::MonitorAdded(m) => {
            out.append(pattern_text(7));
            out.append(m.as_str());
        },
    }
    out
}

} // verus!
