//! Line wrapping by display width.
//!
//! A text is cut into physical lines at Unicode line-break opportunities
//! (UAX #14, as `unicode-linebreak` finds them), accumulating the column width
//! of each character (as `unicode-width` gives it, control characters counting
//! as one column).  Positions are character indices; the break opportunities,
//! which the outside crate reports as byte offsets, are mapped onto characters
//! through their UTF-8 offsets.
use vstd::prelude::*;

use crate::text::{chars_of, string_from_chars};

verus! {

// ---------------------------------------------------------------------------
// Outside calls
// ---------------------------------------------------------------------------

/// The result of `unicode_width::UnicodeWidthChar::width` on `c`.
pub uninterp spec fn unicode_char_width(c: char) -> Option<usize>;

/// Calls `unicode_width::UnicodeWidthChar::width` (unicode-width 0.2).
/// The crate's source gives `Some(1)` for U+0020 to U+007E, `None` (a control
/// character) for U+0000 to U+001F and U+007F to U+009F, and otherwise the
/// width from its tables, which is at most 3 columns.  Which width each
/// character has in the tables is not stated here: it is the named result.
#[verifier::external_body]
fn char_width(c: char) -> (w: Option<usize>)
    ensures
        w == unicode_char_width(c),
        (' ' <= c && c <= '~') ==> w == Some(1usize),
        (c < ' ' || ('\u{7f}' <= c && c < '\u{a0}')) ==> w.is_none(),
        w matches Some(x) ==> x <= 3,
{
    unicode_width::UnicodeWidthChar::width(c)
}

/// The byte offsets that `unicode_linebreak::linebreaks` reports for `text`.
pub uninterp spec fn unicode_line_breaks(text: Seq<char>) -> Seq<usize>;

/// Calls `unicode_linebreak::linebreaks` (unicode-linebreak 0.1) and keeps the
/// byte offset of every opportunity it yields.  The crate yields only the two
/// kinds `Mandatory` and `Allowed`, both of which wrapping uses, so no
/// opportunity is dropped.  Which offsets are opportunities (UAX #14) is not
/// stated here: it is the named result.
#[verifier::external_body]
fn line_break_offsets(text: &str) -> (offsets: Vec<usize>)
    ensures
        offsets@ == unicode_line_breaks(text@),
{
    unicode_linebreak::linebreaks(text).map(|(i, _)| i).collect()
}

// ---------------------------------------------------------------------------
// Model
// ---------------------------------------------------------------------------

/// Columns taken by one character: its Unicode width, or 1 where it has none.
pub open spec fn col_width(c: char) -> int {
    match unicode_char_width(c) {
        Some(w) => w as int,
        None => 1,
    }
}

/// The column width of each character of `s`.
pub open spec fn char_widths(s: Seq<char>) -> Seq<int> {
    Seq::new(s.len(), |k: int| col_width(s[k]))
}

/// Columns taken by the characters `a..b`, given the width `ws[k]` of each character.
pub open spec fn range_width(ws: Seq<int>, a: int, b: int) -> int
    decreases b - a,
{
    if b <= a {
        0
    } else {
        range_width(ws, a, b - 1) + ws[b - 1]
    }
}

/// Columns taken by the text `s`.
pub open spec fn text_width(s: Seq<char>) -> int {
    range_width(char_widths(s), 0, s.len() as int)
}

/// Number of bytes of the UTF-8 encoding of `c`.
pub open spec fn utf8_len(c: char) -> int {
    if (c as u32) < 0x80 {
        1
    } else if (c as u32) < 0x800 {
        2
    } else if (c as u32) < 0x10000 {
        3
    } else {
        4
    }
}

/// Byte offset of the character with index `i` in the UTF-8 encoding of `s`.
pub open spec fn utf8_offset(s: Seq<char>, i: int) -> int
    decreases i,
{
    if i <= 0 {
        0
    } else {
        utf8_offset(s, i - 1) + utf8_len(s[i - 1])
    }
}

/// Whether a line may start at character `j` of `s`, given the byte offsets of
/// the break opportunities.
pub open spec fn break_before(s: Seq<char>, offsets: Seq<usize>, j: int) -> bool {
    exists|k: int| 0 <= k < offsets.len() && offsets[k] as int == utf8_offset(s, j)
}

/// For each character of `s`, whether a line may start there.
pub open spec fn break_flags(s: Seq<char>) -> Seq<bool> {
    Seq::new(s.len(), |j: int| break_before(s, unicode_line_breaks(s), j))
}

/// The last position `b` with `start < b <= j` at which a line may start, or
/// `fallback` if there is none.
pub open spec fn last_break(flags: Seq<bool>, start: int, j: int, fallback: int) -> int
    decreases j - start,
{
    if j <= start {
        fallback
    } else if flags[j] {
        j
    } else {
        last_break(flags, start, j - 1, fallback)
    }
}

/// State of the wrapping after some characters: where the current line
/// starts, how wide it is so far, and the end positions of the lines already
/// emitted.
pub type WrapState = (int, int, Seq<int>);

/// One step of the wrapping: character `i` (of width `ws[i]`) is added to
/// the current line; if the line would then be wider than `limit`, the line
/// is first cut at the last opportunity after its start (or just before
/// `i`), or, when `i` starts the line, `i` makes a line of its own.
pub open spec fn wrap_step(ws: Seq<int>, flags: Seq<bool>, limit: int, st: WrapState, i: int) -> WrapState {
    let (start, width, ends) = st;
    let w = ws[i];
    if width + w > limit {
        if i > start {
            let cut = last_break(flags, start, i, i);
            (cut, range_width(ws, cut, i) + w, ends.push(cut))
        } else {
            (i + 1, 0, ends.push(i + 1))
        }
    } else {
        (start, width + w, ends)
    }
}

/// The state after the first `i` characters.
pub open spec fn wrap_run(ws: Seq<int>, flags: Seq<bool>, limit: int, i: int) -> WrapState
    decreases i,
{
    if i <= 0 {
        (0, 0, Seq::empty())
    } else {
        wrap_step(ws, flags, limit, wrap_run(ws, flags, limit, i - 1), i - 1)
    }
}

/// The pieces of `s` between consecutive end positions (the first starting at 0).
pub open spec fn pieces(s: Seq<char>, ends: Seq<int>) -> Seq<Seq<char>> {
    Seq::new(ends.len(), |k: int| s.subrange(if k == 0 { 0 } else { ends[k - 1] }, ends[k]))
}

/// The effective limit: never less than 4 columns.
pub open spec fn effective_limit(limit: int) -> int {
    if limit < 4 { 4 } else { limit }
}

/// End positions of all lines of a text of `ws.len()` characters: those the
/// wrapping emitted, and the end of the text if characters are left after
/// the last of them.
pub open spec fn wrap_ends(ws: Seq<int>, flags: Seq<bool>, limit: int) -> Seq<int> {
    let (start, _, ends) = wrap_run(ws, flags, effective_limit(limit), ws.len() as int);
    if start < ws.len() { ends.push(ws.len() as int) } else { ends }
}

/// The lines that wrapping `s` at `limit` columns gives, with the break
/// opportunities `flags` and the character widths `ws`: one empty line for
/// an empty text, else the pieces between the line ends.
pub open spec fn wrap_lines(s: Seq<char>, flags: Seq<bool>, ws: Seq<int>, limit: int) -> Seq<Seq<char>> {
    if s.len() == 0 {
        seq![Seq::empty()]
    } else {
        pieces(s, wrap_ends(ws, flags, limit))
    }
}

/// `wrap_lines` with the break opportunities and widths that Unicode gives `s`.
pub open spec fn wrapped(s: Seq<char>, limit: int) -> Seq<Seq<char>> {
    wrap_lines(s, break_flags(s), char_widths(s), limit)
}

/// For each character of `s`, whether one of `offsets` is its byte offset.
pub open spec fn flags_from(s: Seq<char>, offsets: Seq<usize>) -> Seq<bool> {
    Seq::new(s.len(), |j: int| break_before(s, offsets, j))
}

/// Whether a sequence of positions rises strictly from above 0 and stays within `n`.
pub open spec fn rising_ends(ends: Seq<int>, n: int) -> bool {
    &&& forall|k: int| 0 <= k < ends.len() ==> 0 < #[trigger] ends[k] <= n
    &&& forall|a: int, b: int| 0 <= a < b < ends.len() ==> ends[a] < ends[b]
}

// ---------------------------------------------------------------------------
// Lemmas
// ---------------------------------------------------------------------------

proof fn lemma_encode_utf8_push(a: Seq<char>, c: char)
    ensures
        vstd::utf8::encode_utf8(a.push(c)) == vstd::utf8::encode_utf8(a) + vstd::utf8::encode_scalar(c as u32),
    decreases a.len(),
{
    if a.len() == 0 {
        assert(a.push(c).drop_first() =~= Seq::<char>::empty());
        assert(vstd::utf8::encode_utf8(Seq::<char>::empty()) =~= Seq::<u8>::empty());
        assert(vstd::utf8::encode_utf8(a) =~= Seq::<u8>::empty());
        assert(vstd::utf8::encode_scalar(c as u32) + Seq::<u8>::empty() =~= vstd::utf8::encode_scalar(c as u32));
        assert(Seq::<u8>::empty() + vstd::utf8::encode_scalar(c as u32) =~= vstd::utf8::encode_scalar(c as u32));
    } else {
        lemma_encode_utf8_push(a.drop_first(), c);
        assert(a.push(c).drop_first() =~= a.drop_first().push(c));
        assert(a.push(c)[0] == a[0]);
        let h = vstd::utf8::encode_scalar(a[0] as u32);
        let t = vstd::utf8::encode_utf8(a.drop_first());
        let e = vstd::utf8::encode_scalar(c as u32);
        assert(h + (t + e) =~= (h + t) + e);
    }
}

proof fn lemma_utf8_len_is_encoded_length(c: char)
    ensures
        utf8_len(c) == vstd::utf8::encode_scalar(c as u32).len(),
{
    vstd::utf8::char_is_scalar(c);
}

/// The byte offset that wrapping gives the character with index `j` of `s`
/// is the length of the UTF-8 encoding of the characters before it (so a
/// character above U+FFFF takes four bytes), which is where
/// `unicode-linebreak` places its break opportunities.
pub proof fn law_utf8_offset_is_encoded_length(s: Seq<char>, j: int)
    requires
        0 <= j <= s.len(),
    ensures
        utf8_offset(s, j) == vstd::utf8::encode_utf8(s.take(j)).len(),
    decreases j,
{
    if j == 0 {
        assert(s.take(0) =~= Seq::<char>::empty());
        assert(vstd::utf8::encode_utf8(Seq::<char>::empty()) =~= Seq::<u8>::empty());
    } else {
        law_utf8_offset_is_encoded_length(s, j - 1);
        assert(s.take(j) =~= s.take(j - 1).push(s[j - 1]));
        lemma_encode_utf8_push(s.take(j - 1), s[j - 1]);
        lemma_utf8_len_is_encoded_length(s[j - 1]);
    }
}


proof fn lemma_last_break(flags: Seq<bool>, start: int, j: int, fallback: int)
    requires
        start < j < flags.len(),
        j <= fallback,
    ensures
        ({
            let r = last_break(flags, start, j, fallback);
            &&& start < r <= fallback
            &&& r < fallback ==> r <= j && flags[r]
            &&& forall|m: int| start < m <= j && r < m ==> !#[trigger] flags[m]
        }),
    decreases j - start,
{
    if flags[j] {
    } else if j - 1 <= start {
        assert(last_break(flags, start, j - 1, fallback) == fallback);
    } else {
        lemma_last_break(flags, start, j - 1, fallback);
    }
}

proof fn lemma_range_width_split(ws: Seq<int>, a: int, m: int, b: int)
    requires
        a <= m <= b,
    ensures
        range_width(ws, a, b) == range_width(ws, a, m) + range_width(ws, m, b),
    decreases b - m,
{
    if m < b {
        lemma_range_width_split(ws, a, m, b - 1);
    }
}

proof fn lemma_range_width_nonneg(ws: Seq<int>, a: int, b: int)
    requires
        forall|k: int| a <= k < b ==> #[trigger] ws[k] >= 0,
    ensures
        range_width(ws, a, b) >= 0,
    decreases b - a,
{
    if a < b {
        lemma_range_width_nonneg(ws, a, b - 1);
    }
}

/// The pieces between rising ends, put back together, give the text up to the last end.
proof fn lemma_pieces_flatten(s: Seq<char>, ends: Seq<int>)
    requires
        rising_ends(ends, s.len() as int),
    ensures
        pieces(s, ends).flatten() == s.subrange(0, if ends.len() == 0 { 0 } else { ends.last() }),
        forall|k: int| 0 <= k < ends.len() ==> #[trigger] pieces(s, ends)[k].len() > 0,
    decreases ends.len(),
{
    if ends.len() == 0 {
        assert(pieces(s, ends) =~= Seq::<Seq<char>>::empty());
    } else {
        let init = ends.drop_last();
        assert(rising_ends(init, s.len() as int));
        lemma_pieces_flatten(s, init);
        assert(pieces(s, ends) =~= pieces(s, init).push(pieces(s, ends).last()));
        pieces(s, init).lemma_flatten_push(pieces(s, ends).last());
        let lo = if init.len() == 0 { 0 } else { init.last() };
        assert(pieces(s, ends).last() == s.subrange(lo, ends.last()));
        if init.len() > 0 {
            assert(ends[ends.len() - 2] < ends[ends.len() - 1]);
        }
        assert(s.subrange(0, lo) + s.subrange(lo, ends.last()) =~= s.subrange(0, ends.last()));
    }
}

/// Invariants of the wrapping: the emitted ends rise, the current line starts
/// at the last of them, and its width is that of its characters.
proof fn lemma_wrap_run_shape(ws: Seq<int>, flags: Seq<bool>, limit: int, i: int)
    requires
        0 <= i <= ws.len(),
        flags.len() == ws.len(),
    ensures
        ({
            let (start, width, ends) = wrap_run(ws, flags, limit, i);
            &&& 0 <= start <= i
            &&& rising_ends(ends, i)
            &&& start == (if ends.len() == 0 { 0 } else { ends.last() })
            &&& width == range_width(ws, start, i)
        }),
    decreases i,
{
    if i > 0 {
        lemma_wrap_run_shape(ws, flags, limit, i - 1);
        let (start, width, ends) = wrap_run(ws, flags, limit, i - 1);
        let w = ws[i - 1];
        if width + w > limit {
            if i - 1 > start {
                lemma_last_break(flags, start, i - 1, i - 1);
                let cut = last_break(flags, start, i - 1, i - 1);
                assert(rising_ends(ends.push(cut), i)) by {
                    assert forall|a: int, b: int| 0 <= a < b < ends.push(cut).len() implies ends.push(cut)[a]
                        < ends.push(cut)[b] by {
                        if b == ends.len() && ends.len() > 0 {
                            assert(ends[a] <= ends.last());
                        }
                    }
                }
            } else {
                assert(rising_ends(ends.push(i), i)) by {
                    assert forall|a: int, b: int| 0 <= a < b < ends.push(i).len() implies ends.push(i)[a]
                        < ends.push(i)[b] by {
                        if b == ends.len() && ends.len() > 0 {
                            assert(ends[a] <= ends.last());
                        }
                    }
                }
            }
        }
    }
}

/// Start of the piece that ends at `ends[k]`.
pub open spec fn piece_start(ends: Seq<int>, k: int) -> int {
    if k == 0 { 0 } else { ends[k - 1] }
}

proof fn lemma_char_widths_subrange(s: Seq<char>, a: int, b: int)
    requires
        0 <= a <= b <= s.len(),
    ensures
        range_width(char_widths(s.subrange(a, b)), 0, b - a) == range_width(char_widths(s), a, b),
    decreases b - a,
{
    if a < b {
        lemma_char_widths_subrange(s, a, b - 1);
        let t = char_widths(s.subrange(a, b));
        let u = char_widths(s.subrange(a, b - 1));
        assert forall|k: int| 0 <= k < b - 1 - a implies t[k] == u[k] by {}
        lemma_range_width_prefix_eq(t, u, b - 1 - a);
    }
}

proof fn lemma_range_width_prefix_eq(t: Seq<int>, u: Seq<int>, m: int)
    requires
        0 <= m,
        m <= t.len(),
        m <= u.len(),
        forall|k: int| 0 <= k < m ==> t[k] == u[k],
    ensures
        range_width(t, 0, m) == range_width(u, 0, m),
    decreases m,
{
    if m > 0 {
        lemma_range_width_prefix_eq(t, u, m - 1);
    }
}

/// While wrapping at a limit of at least 4 columns, with characters at most 3
/// columns wide, no line grows more than 3 columns past the limit, and a line
/// already past the limit holds no break opportunity after its start.
proof fn lemma_wrap_run_width(ws: Seq<int>, flags: Seq<bool>, limit: int, i: int)
    requires
        0 <= i <= ws.len(),
        flags.len() == ws.len(),
        limit >= 4,
        forall|k: int| 0 <= k < i ==> 0 <= #[trigger] ws[k] <= 3,
    ensures
        ({
            let (start, width, ends) = wrap_run(ws, flags, limit, i);
            &&& width <= limit + 3
            &&& width > limit ==> forall|m: int| start < m < i ==> !#[trigger] flags[m]
            &&& forall|k: int| 0 <= k < ends.len() ==> range_width(ws, piece_start(ends, k), #[trigger] ends[k])
                <= limit + 3
        }),
    decreases i,
{
    if i > 0 {
        lemma_wrap_run_width(ws, flags, limit, i - 1);
        lemma_wrap_run_shape(ws, flags, limit, i - 1);
        let (start, width, ends) = wrap_run(ws, flags, limit, i - 1);
        let j = i - 1;
        let w = ws[j];
        if width + w > limit {
            if j > start {
                lemma_last_break(flags, start, j, j);
                let cut = last_break(flags, start, j, j);
                lemma_range_width_split(ws, start, cut, j);
                lemma_range_width_nonneg(ws, start, cut);
                lemma_range_width_nonneg(ws, cut, j);
                if width > limit {
                    if cut < j {
                        assert(flags[cut]);
                    }
                    assert(cut == j);
                }
                let ne = ends.push(cut);
                assert forall|k: int| 0 <= k < ne.len() implies range_width(ws, piece_start(ne, k), #[trigger] ne[k])
                    <= limit + 3 by {
                    if k < ends.len() {
                        assert(ne[k] == ends[k]);
                        assert(piece_start(ne, k) == piece_start(ends, k));
                    }
                }
            } else {
                let ne = ends.push(j + 1);
                assert forall|k: int| 0 <= k < ne.len() implies range_width(ws, piece_start(ne, k), #[trigger] ne[k])
                    <= limit + 3 by {
                    if k < ends.len() {
                        assert(ne[k] == ends[k]);
                        assert(piece_start(ne, k) == piece_start(ends, k));
                    } else {
                        assert(piece_start(ne, k) == start);
                        assert(range_width(ws, j, j + 1) == w);
                    }
                }
            }
        }
    }
}

/// The ends of all lines rise from above 0 to the end of a non-empty text.
proof fn lemma_wrap_ends_shape(ws: Seq<int>, flags: Seq<bool>, limit: int)
    requires
        ws.len() > 0,
        flags.len() == ws.len(),
    ensures
        rising_ends(wrap_ends(ws, flags, limit), ws.len() as int),
        wrap_ends(ws, flags, limit).len() > 0,
        wrap_ends(ws, flags, limit).last() == ws.len(),
{
    let n = ws.len() as int;
    lemma_wrap_run_shape(ws, flags, effective_limit(limit), n);
    let (start, width, ends) = wrap_run(ws, flags, effective_limit(limit), n);
    if start < n {
        assert(rising_ends(ends.push(n), n)) by {
            assert forall|a: int, b: int| 0 <= a < b < ends.push(n).len() implies ends.push(n)[a]
                < ends.push(n)[b] by {
                if b == ends.len() && ends.len() > 0 {
                    assert(ends[a] <= ends.last());
                }
            }
        }
    }
}

/// Whether `unicode-linebreak` reports a break opportunity at the byte
/// offset of character `q` of `s` (the length of the UTF-8 encoding of the
/// characters before it).
pub open spec fn opportunity_at(s: Seq<char>, q: int) -> bool {
    exists|m: int|
        0 <= m < unicode_line_breaks(s).len() && unicode_line_breaks(s)[m] as int == vstd::utf8::encode_utf8(
            s.take(q),
        ).len()
}

proof fn lemma_last_break_cases(flags: Seq<bool>, start: int, j: int, fallback: int)
    requires
        start < j < flags.len(),
        j <= fallback,
    ensures
        ({
            let r = last_break(flags, start, j, fallback);
            (start < r <= j && flags[r]) || (r == fallback && forall|m: int| start < m <= j ==> !#[trigger] flags[m])
        }),
    decreases j - start,
{
    if flags[j] {
    } else if j - 1 <= start {
        assert(last_break(flags, start, j - 1, fallback) == fallback);
    } else {
        lemma_last_break_cases(flags, start, j - 1, fallback);
    }
}

/// Each line that wrapping emits starts at a break opportunity, unless no
/// opportunity lies strictly inside the line before it (a forced cut).
proof fn lemma_wrap_run_starts(ws: Seq<int>, flags: Seq<bool>, limit: int, i: int)
    requires
        0 <= i <= ws.len(),
        flags.len() == ws.len(),
    ensures
        ({
            let ends = wrap_run(ws, flags, limit, i).2;
            forall|k: int|
                0 <= k < ends.len() ==> (ends[k] < flags.len() && flags[#[trigger] ends[k]]) || forall|m: int|
                    piece_start(ends, k) < m < ends[k] ==> !#[trigger] flags[m]
        }),
    decreases i,
{
    if i > 0 {
        lemma_wrap_run_starts(ws, flags, limit, i - 1);
        lemma_wrap_run_shape(ws, flags, limit, i - 1);
        let (start, width, ends) = wrap_run(ws, flags, limit, i - 1);
        let j = i - 1;
        if width + ws[j] > limit {
            if j > start {
                lemma_last_break_cases(flags, start, j, j);
                let cut = last_break(flags, start, j, j);
                let ne = ends.push(cut);
                assert forall|k: int| 0 <= k < ne.len() implies (ne[k] < flags.len() && flags[#[trigger] ne[k]]) || forall|m: int|
                    piece_start(ne, k) < m < ne[k] ==> !#[trigger] flags[m] by {
                    if k < ends.len() {
                        assert(ne[k] == ends[k]);
                        assert(piece_start(ne, k) == piece_start(ends, k));
                    } else {
                        assert(piece_start(ne, k) == start);
                    }
                }
            } else {
                let ne = ends.push(i);
                assert forall|k: int| 0 <= k < ne.len() implies (ne[k] < flags.len() && flags[#[trigger] ne[k]]) || forall|m: int|
                    piece_start(ne, k) < m < ne[k] ==> !#[trigger] flags[m] by {
                    if k < ends.len() {
                        assert(ne[k] == ends[k]);
                        assert(piece_start(ne, k) == piece_start(ends, k));
                    } else {
                        assert(piece_start(ne, k) == start);
                    }
                }
            }
        }
    }
}

proof fn lemma_pieces_prefix_length(s: Seq<char>, ends: Seq<int>, k: int)
    requires
        rising_ends(ends, s.len() as int),
        0 <= k <= ends.len(),
    ensures
        pieces(s, ends).take(k).flatten().len() == (if k == 0 { 0 } else { ends[k - 1] }),
{
    let e = ends.take(k);
    assert(rising_ends(e, s.len() as int));
    assert(pieces(s, ends).take(k) =~= pieces(s, e));
    lemma_pieces_flatten(s, e);
}

/// Wrapping cuts at Unicode break opportunities: every line after the first
/// starts at a character whose UTF-8 byte offset `unicode-linebreak`
/// reports, unless no such opportunity lies strictly inside the line before
/// it, where the line had to be cut mid-word.
pub proof fn law_wrapped_lines_start_at_break_opportunities(s: Seq<char>, limit: int)
    ensures
        forall|k: int|
            1 <= k < wrapped(s, limit).len() ==> {
                let p = #[trigger] wrapped(s, limit).take(k).flatten().len();
                let prev = wrapped(s, limit).take(k - 1).flatten().len();
                opportunity_at(s, p as int) || forall|q: int| prev < q < p ==> !opportunity_at(s, q)
            },
{
    if s.len() > 0 {
        let ws = char_widths(s);
        let flags = break_flags(s);
        let lim = effective_limit(limit);
        let n = s.len() as int;
        lemma_wrap_ends_shape(ws, flags, limit);
        lemma_wrap_run_shape(ws, flags, lim, n);
        lemma_wrap_run_starts(ws, flags, lim, n);
        let run = wrap_run(ws, flags, lim, n).2;
        let ends = wrap_ends(ws, flags, limit);
        let lines = wrapped(s, limit);
        assert(lines == pieces(s, ends));
        assert forall|q: int| 0 <= q < n implies #[trigger] flags[q] == opportunity_at(s, q) by {
            law_utf8_offset_is_encoded_length(s, q);
        }
        assert forall|k: int| 1 <= k < lines.len() implies {
            let p = #[trigger] lines.take(k).flatten().len();
            let prev = lines.take(k - 1).flatten().len();
            opportunity_at(s, p as int) || forall|q: int| prev < q < p ==> !opportunity_at(s, q)
        } by {
            lemma_pieces_prefix_length(s, ends, k);
            lemma_pieces_prefix_length(s, ends, k - 1);
            assert(k - 1 < run.len());
            assert(ends[k - 1] == run[k - 1]);
            assert(piece_start(ends, k - 1) == piece_start(run, k - 1));
            assert(ends[k - 1] < ends[k]);
            let p = ends[k - 1];
            if !flags[p] {
                assert forall|q: int| piece_start(run, k - 1) < q < p implies !opportunity_at(s, q) by {
                    assert(!flags[q]);
                }
            }
        }
    }
}

/// With characters at most 3 columns wide, no line of the wrapped text is
/// wider than the effective limit plus 3 columns.
proof fn lemma_wrapped_width(s: Seq<char>, limit: int)
    requires
        s.len() > 0,
        forall|k: int| 0 <= k < s.len() ==> 0 <= col_width(#[trigger] s[k]) <= 3,
    ensures
        forall|k: int|
            0 <= k < wrapped(s, limit).len() ==> text_width(#[trigger] wrapped(s, limit)[k]) <= effective_limit(
                limit,
            ) + 3,
{
    let n = s.len() as int;
    let lim = effective_limit(limit);
    let ws = char_widths(s);
    let flags = break_flags(s);
    assert forall|k: int| 0 <= k < n implies 0 <= #[trigger] ws[k] <= 3 by {
        assert(ws[k] == col_width(s[k]));
    }
    lemma_wrap_run_width(ws, flags, lim, n);
    lemma_wrap_run_shape(ws, flags, lim, n);
    lemma_wrap_ends_shape(ws, flags, limit);
    let (start, width, ends) = wrap_run(ws, flags, lim, n);
    let all = wrap_ends(ws, flags, limit);
    assert forall|k: int| 0 <= k < all.len() implies range_width(ws, piece_start(all, k), #[trigger] all[k])
        <= lim + 3 by {
        if k < ends.len() {
            assert(all[k] == ends[k]);
            assert(piece_start(all, k) == piece_start(ends, k));
        } else {
            assert(piece_start(all, k) == start);
        }
    }
    assert forall|k: int| 0 <= k < wrapped(s, limit).len() implies text_width(#[trigger] wrapped(s, limit)[k])
        <= lim + 3 by {
        let a = piece_start(all, k);
        let b = all[k];
        if k > 0 {
            assert(all[k - 1] < all[k]);
        }
        assert(wrapped(s, limit)[k] == s.subrange(a, b));
        lemma_char_widths_subrange(s, a, b);
    }
}

/// Wrapping loses nothing and adds nothing: the lines, put back together,
/// give the text again, and none of them is empty (an empty text gives one
/// empty line).
pub proof fn law_wrap_lines_rejoin(s: Seq<char>, flags: Seq<bool>, ws: Seq<int>, limit: int)
    requires
        flags.len() == s.len(),
        ws.len() == s.len(),
    ensures
        wrap_lines(s, flags, ws, limit).flatten() == s,
        wrap_lines(s, flags, ws, limit).len() >= 1,
        s.len() > 0 ==> forall|k: int|
            0 <= k < wrap_lines(s, flags, ws, limit).len() ==> #[trigger] wrap_lines(s, flags, ws, limit)[k].len()
                > 0,
{
    if s.len() == 0 {
        let e: Seq<char> = Seq::empty();
        assert(seq![e].flatten() =~= e) by {
            seq![e].lemma_flatten_one_element();
        }
        assert(s =~= e);
    } else {
        lemma_wrap_ends_shape(ws, flags, limit);
        let ends = wrap_ends(ws, flags, limit);
        lemma_pieces_flatten(s, ends);
        assert(s.subrange(0, s.len() as int) =~= s);
    }
}

/// Wrapping a text with its Unicode break opportunities loses nothing: the
/// wrapped lines, joined again, are the text, and none of them is empty.
pub proof fn law_wrapped_lines_rejoin(s: Seq<char>, limit: int)
    ensures
        wrapped(s, limit).flatten() == s,
        s.len() > 0 ==> forall|k: int|
            0 <= k < wrapped(s, limit).len() ==> #[trigger] wrapped(s, limit)[k].len() > 0,
{
    law_wrap_lines_rejoin(s, break_flags(s), char_widths(s), limit);
}

// ---------------------------------------------------------------------------
// Executable code
// ---------------------------------------------------------------------------

/// Column width of one character, counting a character without a Unicode
/// width (a control character) as one column.
fn column_width(c: char) -> (w: usize)
    ensures
        w == col_width(c),
        w <= 3,
{
    match char_width(c) {
        Some(w) => w,
        None => 1,
    }
}

/// Byte length of the UTF-8 encoding of `c`.
fn char_utf8_len(c: char) -> (n: u64)
    ensures
        n == utf8_len(c),
{
    let v = c as u32;
    if v < 0x80 {
        1
    } else if v < 0x800 {
        2
    } else if v < 0x10000 {
        3
    } else {
        4
    }
}

/// For each character of `chars`, whether one of `offsets` is its byte offset.
fn flags_from_offsets(chars: &Vec<char>, offsets: &Vec<usize>) -> (flags: Vec<bool>)
    ensures
        flags@ == flags_from(chars@, offsets@),
{
    let n = chars.len();
    let mut flags: Vec<bool> = Vec::new();
    let mut off: u128 = 0;
    let mut j: usize = 0;
    while j < n
        invariant
            n == chars@.len(),
            j <= n,
            flags@.len() == j,
            off == utf8_offset(chars@, j as int),
            off <= 4 * j,
            forall|m: int| 0 <= m < j ==> flags@[m] == break_before(chars@, offsets@, m),
        decreases n - j,
    {
        let mut found = false;
        let mut k: usize = 0;
        while k < offsets.len()
            invariant
                k <= offsets@.len(),
                found <==> exists|q: int| 0 <= q < k && offsets@[q] as int == off,
            decreases offsets@.len() - k,
        {
            if offsets[k] as u128 == off {
                found = true;
            }
            k = k + 1;
        }
        flags.push(found);
        let len = char_utf8_len(chars[j]);
        off = off + len as u128;
        j = j + 1;
    }
    assert(flags@ =~= flags_from(chars@, offsets@));
    flags
}

/// Columns taken by characters `start..end`, given the width of each character.
fn display_width_range(widths: &Vec<usize>, start: usize, end: usize) -> (w: u128)
    requires
        start <= end <= widths@.len(),
        forall|k: int| 0 <= k < widths@.len() ==> #[trigger] widths@[k] <= 3,
    ensures
        w == range_width(widths@.map_values(|x: usize| x as int), start as int, end as int),
        w <= 3 * (end - start),
{
    let ghost ws = widths@.map_values(|x: usize| x as int);
    let mut w: u128 = 0;
    let mut k = start;
    while k < end
        invariant
            start <= k <= end,
            end <= widths@.len(),
            ws == widths@.map_values(|x: usize| x as int),
            forall|q: int| 0 <= q < widths@.len() ==> #[trigger] widths@[q] <= 3,
            w == range_width(ws, start as int, k as int),
            w <= 3 * (k - start),
        decreases end - k,
    {
        w = w + widths[k] as u128;
        k = k + 1;
    }
    w
}

/// The last position `b` with `start < b <= j` at which `flags` allows a line
/// to start, or `j` if there is none.
fn find_last_break(flags: &Vec<bool>, start: usize, j: usize) -> (b: usize)
    requires
        start < j < flags@.len(),
    ensures
        b == last_break(flags@, start as int, j as int, j as int),
        start < b <= j,
{
    proof {
        lemma_last_break(flags@, start as int, j as int, j as int);
    }
    let mut m = j;
    while m > start
        invariant
            start <= m <= j,
            j < flags@.len(),
            last_break(flags@, start as int, j as int, j as int) == last_break(
                flags@,
                start as int,
                m as int,
                j as int,
            ),
        decreases m,
    {
        if flags[m] {
            return m;
        }
        m = m - 1;
    }
    j
}

/// Splits `s` into physical lines, given the byte offsets `break_offsets` at
/// which a line may start and the column width of each character (at most
/// 3): each character adds its width to the current line, and when the line
/// would grow wider than `limit` (never less than 4) it is cut at the last
/// opportunity after its start, or just before the character if there is
/// none.  An empty text gives one empty line.
pub fn wrap_with_breaks(s: &str, break_offsets: &Vec<usize>, widths: &Vec<usize>, limit: usize) -> (lines: Vec<
    String,
>)
    requires
        widths@.len() == s@.len(),
        forall|k: int| 0 <= k < widths@.len() ==> #[trigger] widths@[k] <= 3,
    ensures
        lines@.map_values(|l: String| l@) == wrap_lines(
            s@,
            flags_from(s@, break_offsets@),
            widths@.map_values(|x: usize| x as int),
            limit as int,
        ),
{
    let lim: usize = if limit < 4 { 4 } else { limit };
    let chars = chars_of(s);
    let n = chars.len();
    let ghost sv = s@;
    let ghost ws = widths@.map_values(|x: usize| x as int);
    if n == 0 {
        let mut out: Vec<String> = Vec::new();
        out.push(String::new());
        proof {
            assert(out@.map_values(|l: String| l@) =~= wrap_lines(sv, flags_from(sv, break_offsets@), ws, limit as int));
        }
        return out;
    }
    let flags = flags_from_offsets(&chars, break_offsets);
    let ghost fl = flags@;

    let mut out: Vec<String> = Vec::new();
    let mut line_start: usize = 0;
    let mut line_width: u128 = 0;
    let mut i: usize = 0;
    while i < n
        invariant
            n == chars@.len(),
            chars@ == sv,
            sv.len() > 0,
            flags@ == fl,
            fl.len() == sv.len(),
            ws == widths@.map_values(|x: usize| x as int),
            ws.len() == sv.len(),
            forall|k: int| 0 <= k < widths@.len() ==> #[trigger] widths@[k] <= 3,
            lim == effective_limit(limit as int),
            i <= n,
            ({
                let (st, wd, ends) = wrap_run(ws, fl, lim as int, i as int);
                &&& st == line_start
                &&& wd == line_width
                &&& out@.map_values(|l: String| l@) == pieces(sv, ends)
            }),
            line_start <= i,
            line_width <= 3 * i,
        decreases n - i,
    {
        proof {
            lemma_wrap_run_shape(ws, fl, lim as int, i as int);
        }
        let ghost prev = wrap_run(ws, fl, lim as int, i as int);
        let w = widths[i];
        if line_width + w as u128 > lim as u128 {
            if i > line_start {
                let cut = find_last_break(&flags, line_start, i);
                let line = string_from_chars(&chars, line_start, cut);
                let ghost old_out = out@;
                out.push(line);
                line_start = cut;
                let rw = display_width_range(widths, cut, i);
                line_width = rw + w as u128;
                proof {
                    assert(out@.map_values(|l: String| l@) =~= old_out.map_values(|l: String| l@).push(
                        sv.subrange(prev.0, cut as int),
                    ));
                    let ends = prev.2;
                    assert(pieces(sv, ends.push(cut as int)) =~= pieces(sv, ends).push(
                        sv.subrange(prev.0, cut as int),
                    ));
                }
            } else {
                let line = string_from_chars(&chars, i, i + 1);
                let ghost old_out = out@;
                out.push(line);
                line_start = i + 1;
                line_width = 0;
                proof {
                    assert(out@.map_values(|l: String| l@) =~= old_out.map_values(|l: String| l@).push(
                        sv.subrange(i as int, i + 1),
                    ));
                    let ends = prev.2;
                    assert(pieces(sv, ends.push(i + 1)) =~= pieces(sv, ends).push(
                        sv.subrange(i as int, i + 1),
                    ));
                }
            }
        } else {
            line_width = line_width + w as u128;
        }
        i = i + 1;
    }
    proof {
        lemma_wrap_run_shape(ws, fl, lim as int, n as int);
    }
    if line_start < n {
        let line = string_from_chars(&chars, line_start, n);
        let ghost old_out = out@;
        out.push(line);
        proof {
            let (st, wd, ends) = wrap_run(ws, fl, lim as int, n as int);
            assert(out@.map_values(|l: String| l@) =~= old_out.map_values(|l: String| l@).push(
                sv.subrange(st, n as int),
            ));
            assert(pieces(sv, ends.push(n as int)) =~= pieces(sv, ends).push(sv.subrange(st, n as int)));
        }
    }
    out
}

/// Splits `s` into physical lines at Unicode line-break opportunities, by the
/// column width of its characters: when a line would grow wider than `limit`
/// (never less than 4) it is cut at the last opportunity after its start, or
/// just before the character if there is none.  An empty text gives one
/// empty line.  No line is more than 3 columns (one character) wider than
/// the limit.
pub fn wrap_by_display_width(s: &str, limit: usize) -> (lines: Vec<String>)
    ensures
        lines@.map_values(|l: String| l@) == wrapped(s@, limit as int),
        forall|k: int|
            0 <= k < lines@.len() ==> text_width(#[trigger] lines@[k]@) <= effective_limit(limit as int) + 3,
{
    let chars = chars_of(s);
    let offsets = line_break_offsets(s);
    let mut widths: Vec<usize> = Vec::new();
    let mut k: usize = 0;
    while k < chars.len()
        invariant
            k <= chars@.len(),
            widths@.len() == k,
            forall|q: int| 0 <= q < k ==> #[trigger] widths@[q] == col_width(chars@[q]) && widths@[q] <= 3,
        decreases chars@.len() - k,
    {
        let w = column_width(chars[k]);
        widths.push(w);
        k = k + 1;
    }
    let lines = wrap_with_breaks(s, &offsets, &widths, limit);
    proof {
        assert(widths@.map_values(|x: usize| x as int) =~= char_widths(s@));
        assert(flags_from(s@, offsets@) =~= break_flags(s@));
        let m = lines@.map_values(|l: String| l@);
        assert(m == wrapped(s@, limit as int));
        if s@.len() > 0 {
            assert forall|q: int| 0 <= q < s@.len() implies 0 <= col_width(#[trigger] s@[q]) <= 3 by {
                assert(widths@[q] == col_width(chars@[q]));
            }
            lemma_wrapped_width(s@, limit as int);
        }
        assert forall|q: int| 0 <= q < lines@.len() implies text_width(#[trigger] lines@[q]@) <= effective_limit(
            limit as int,
        ) + 3 by {
            assert(m[q] == lines@[q]@);
            if s@.len() == 0 {
                assert(m[q] =~= Seq::<char>::empty());
            }
        }
    }
    lines
}

/// Column budget per line: with a full-width character taken as two columns
/// and one em of `font_px` pixels, a line of `px` pixels holds `2 * px / font_px`
/// columns; this is raised by the fill ratio (percent) and rounded up.
pub const COLS_FILL_RATIO_PERCENT: u64 = 130;

/// The column budget for a text area of `text_width_px` pixels (at least 24)
/// and a font of `font_px` pixels (at least 6): `ceil(2 * px * 130 / (100 * fp))`,
/// kept between 8 and 320.
pub open spec fn cols_budget_spec(text_width_px: int, font_px: int) -> int {
    let px = if text_width_px < 24 { 24 } else { text_width_px };
    let fp = if font_px < 6 { 6 } else { font_px };
    let num = 2 * px * COLS_FILL_RATIO_PERCENT;
    let den = 100 * fp;
    let cols = (num + den - 1) / den;
    if cols < 8 {
        8
    } else if cols > 320 {
        320
    } else {
        cols
    }
}

/// Maximum number of columns for one line of text of `text_width_px` pixels in
/// a font of `font_px` pixels.
pub fn cols_budget(text_width_px: u32, font_px: i32) -> (cols: usize)
    ensures
        cols == cols_budget_spec(text_width_px as int, font_px as int),
        8 <= cols <= 320,
{
    let px: u64 = if text_width_px < 24 { 24 } else { text_width_px as u64 };
    let fp: u64 = if font_px < 6 { 6 } else { font_px as u64 };
    let num: u64 = 2 * px * COLS_FILL_RATIO_PERCENT;
    let den: u64 = 100 * fp;
    let cols: u64 = (num + den - 1) / den;
    if cols < 8 {
        8
    } else if cols > 320 {
        320
    } else {
        cols as usize
    }
}

} // verus!
