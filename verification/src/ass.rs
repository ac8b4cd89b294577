//! ASS subtitle script for the left comment panel.
//!
//! Display names are green and bodies white, each wrapped beforehand with
//! `\N`; automatic wrapping is switched off (`WrapStyle: 2` and `\q2`) so that
//! only these forced breaks apply.  The newest comment sits at the top of the
//! panel and older ones follow below it.
use vstd::prelude::*;

use crate::comments::CommentEntry;
use crate::text::{chars_of, decimal, join, join_strings, push_decimal, push_signed, push_str, push_two_digits, signed_decimal, two_digits};
use crate::wrap::{cols_budget, cols_budget_spec, wrap_by_display_width, wrapped};

verus! {

// ---------------------------------------------------------------------------
// Escaping
// ---------------------------------------------------------------------------

/// ASS text for one character: `\`, `{` and `}` get a backslash, line feeds
/// and carriage returns become `\N`.
pub open spec fn escape_char(c: char) -> Seq<char> {
    if c == '\\' {
        seq!['\\', '\\']
    } else if c == '{' {
        seq!['\\', '{']
    } else if c == '}' {
        seq!['\\', '}']
    } else if c == '\n' || c == '\r' {
        seq!['\\', 'N']
    } else {
        seq![c]
    }
}

/// ASS text for `s`, character by character.
pub open spec fn escape_spec(s: Seq<char>) -> Seq<char>
    decreases s.len(),
{
    if s.len() == 0 {
        Seq::empty()
    } else {
        escape_spec(s.drop_last()) + escape_char(s.last())
    }
}

/// Escapes `{`, `}` and `\` for ASS and turns line breaks into `\N`.
pub fn escape_ass_text(s: &str) -> (out: String)
    ensures
        out@ == escape_spec(s@),
{
    let chars = chars_of(s);
    let mut out = String::new();
    let mut k: usize = 0;
    while k < chars.len()
        invariant
            k <= chars@.len(),
            chars@ == s@,
            out@ == escape_spec(s@.take(k as int)),
        decreases chars@.len() - k,
    {
        let ch = chars[k];
        let ghost before = out@;
        if ch == '\\' {
            push_str(&mut out, "\\\\");
        } else if ch == '{' {
            push_str(&mut out, "\\{");
        } else if ch == '}' {
            push_str(&mut out, "\\}");
        } else if ch == '\n' || ch == '\r' {
            push_str(&mut out, "\\N");
        } else {
            out.push(ch);
        }
        proof {
            reveal_strlit("\\\\");
            reveal_strlit("\\{");
            reveal_strlit("\\}");
            reveal_strlit("\\N");
            assert(s@.take(k + 1).drop_last() =~= s@.take(k as int));
            assert(out@ =~= before + escape_char(ch));
        }
        k = k + 1;
    }
    assert(s@.take(chars@.len() as int) =~= s@);
    out
}

// ---------------------------------------------------------------------------
// Times
// ---------------------------------------------------------------------------

/// ASS time `H:MM:SS.cc` for `ms` milliseconds, rounded to the nearest
/// centisecond (halves up); a time before 0 shows as 0.
pub open spec fn ass_time(ms: int) -> Seq<char> {
    let cs_total: nat = if ms < 0 {
        0
    } else {
        ((ms + 5) / 10) as nat
    };
    let cs = cs_total % 100;
    let s_total = cs_total / 100;
    let s = s_total % 60;
    let m_total = s_total / 60;
    let m = m_total % 60;
    let h = m_total / 60;
    decimal(h) + seq![':'] + two_digits(m) + seq![':'] + two_digits(s) + seq!['.'] + two_digits(cs)
}

/// Appends the ASS time of `ms` milliseconds to `out`.
fn push_ass_time(out: &mut String, ms: i64)
    ensures
        final(out)@ == old(out)@ + ass_time(ms as int),
{
    let ghost o = out@;
    let v: u64 = if ms < 0 { 0 } else { ms as u64 };
    let cs_total: u64 = v / 10 + if v % 10 >= 5 { 1 } else { 0 };
    assert(cs_total == (if ms < 0 { 0 } else { (ms + 5) / 10 }));
    let cs = cs_total % 100;
    let s_total = cs_total / 100;
    let s = s_total % 60;
    let m_total = s_total / 60;
    let m = m_total % 60;
    let h = m_total / 60;
    push_decimal(out, h);
    out.push(':');
    push_two_digits(out, m);
    out.push(':');
    push_two_digits(out, s);
    out.push('.');
    push_two_digits(out, cs);
    assert(out@ =~= o + ass_time(ms as int));
}

/// The ASS time `H:MM:SS.cc` of `ms` milliseconds (rounded to centiseconds).
pub fn format_ass_time(ms: i64) -> (s: String)
    ensures
        s@ == ass_time(ms as int),
{
    let mut s = String::new();
    push_ass_time(&mut s, ms);
    assert(s@ =~= ass_time(ms as int));
    s
}

// ---------------------------------------------------------------------------
// Comment blocks and the stack
// ---------------------------------------------------------------------------

/// Lines joined with the ASS forced break `\N`.
pub open spec fn join_breaks(lines: Seq<Seq<char>>) -> Seq<char> {
    join(lines, seq!['\\', 'N'])
}

/// Wrapped and escaped text, lines joined with `\N`.
pub open spec fn wrapped_escaped(s: Seq<char>, cols: int) -> Seq<char> {
    join_breaks(wrapped(s, cols).map_values(|l: Seq<char>| escape_spec(l)))
}

/// ASS text of one comment: the display name in green at `name_fs`, a
/// forced break, then the body in white at `body_fs`, each wrapped to its
/// column budget.
pub open spec fn comment_block(
    name: Seq<char>,
    message: Seq<char>,
    name_fs: int,
    body_fs: int,
    name_cols: int,
    body_cols: int,
) -> Seq<char> {
    seq!['{', '\\', 'f', 's'] + signed_decimal(name_fs) + "\\c&H00B4FF7F&}"@ + wrapped_escaped(name, name_cols)
        + seq!['\\', 'N', '{', '\\', 'f', 's'] + signed_decimal(body_fs) + "\\c&H00FFFFFF&}"@
        + wrapped_escaped(message, body_cols)
}

/// Wraps `s` at `cols` columns, escapes each line and joins them with `\N`.
fn wrap_escape_join(s: &str, cols: usize) -> (out: String)
    ensures
        out@ == wrapped_escaped(s@, cols as int),
{
    let lines = wrap_by_display_width(s, cols);
    let mut escaped: Vec<String> = Vec::new();
    let mut k: usize = 0;
    while k < lines.len()
        invariant
            k <= lines@.len(),
            lines@.map_values(|l: String| l@) == wrapped(s@, cols as int),
            escaped@.len() == k,
            forall|m: int| 0 <= m < k ==> #[trigger] escaped@[m]@ == escape_spec(lines@[m]@),
        decreases lines@.len() - k,
    {
        let e = escape_ass_text(lines[k].as_str());
        escaped.push(e);
        k = k + 1;
    }
    let out = join_strings(&escaped, "\\N");
    proof {
        reveal_strlit("\\N");
        let w = wrapped(s@, cols as int);
        assert forall|m: int| 0 <= m < w.len() implies #[trigger] w[m] == lines@[m]@ by {
            assert(lines@.map_values(|l: String| l@)[m] == lines@[m]@);
        }
        assert(escaped@.map_values(|p: String| p@) =~= w.map_values(|l: Seq<char>| escape_spec(l)));
        assert("\\N"@ =~= seq!['\\', 'N']);
    }
    out
}

/// ASS text of one comment block: name (green) and body (white), each
/// wrapped to its column budget, separated by `\N`.
pub fn format_comment_block(
    e: &CommentEntry,
    name_fs: i32,
    body_fs: i32,
    name_cols: usize,
    body_cols: usize,
) -> (out: String)
    ensures
        out@ == comment_block(
            e.display_name@,
            e.message@,
            name_fs as int,
            body_fs as int,
            name_cols as int,
            body_cols as int,
        ),
{
    let name_joined = wrap_escape_join(e.display_name.as_str(), name_cols);
    let body_joined = wrap_escape_join(e.message.as_str(), body_cols);
    let mut out = String::new();
    push_str(&mut out, "{\\fs");
    push_signed(&mut out, name_fs as i64);
    push_str(&mut out, "\\c&H00B4FF7F&}");
    push_str(&mut out, name_joined.as_str());
    push_str(&mut out, "\\N{\\fs");
    push_signed(&mut out, body_fs as i64);
    push_str(&mut out, "\\c&H00FFFFFF&}");
    push_str(&mut out, body_joined.as_str());
    proof {
        reveal_strlit("{\\fs");
        reveal_strlit("\\N{\\fs");
        assert(out@ =~= comment_block(
            e.display_name@,
            e.message@,
            name_fs as int,
            body_fs as int,
            name_cols as int,
            body_cols as int,
        ));
    }
    out
}

/// Indices `j < upto` whose comment started at most `retention_ms` before `t`.
pub open spec fn recent_upto(entries: Seq<CommentEntry>, t: int, retention_ms: int, upto: int) -> Seq<int>
    decreases upto,
{
    if upto <= 0 {
        Seq::empty()
    } else {
        let r = recent_upto(entries, t, retention_ms, upto - 1);
        if t - entries[upto - 1].start_ms <= retention_ms {
            r.push(upto - 1)
        } else {
            r
        }
    }
}

/// The comments shown together with comment `rep`: those up to `rep` that
/// started at most `retention_ms` before it, of which the last `max_lines`
/// (at least one) are kept, oldest first.
pub open spec fn stack_members(entries: Seq<CommentEntry>, rep: int, max_lines: int, retention_ms: int) -> Seq<int> {
    let js = recent_upto(entries, entries[rep].start_ms as int, retention_ms, rep + 1);
    let max = if max_lines < 1 { 1 } else { max_lines };
    if js.len() > max {
        js.subrange(js.len() - max, js.len() as int)
    } else {
        js
    }
}

/// The panel text while comment `rep` is the newest: the blocks of the stack
/// members, newest first, joined with `\N`.
pub open spec fn stacked_body_text(
    entries: Seq<CommentEntry>,
    rep: int,
    max_lines: int,
    retention_ms: int,
    name_fs: int,
    body_fs: int,
    text_width_px: int,
) -> Seq<char> {
    let members = stack_members(entries, rep, max_lines, retention_ms);
    let name_cols = cols_budget_spec(text_width_px, name_fs);
    let body_cols = cols_budget_spec(text_width_px, body_fs);
    join_breaks(
        Seq::new(
            members.len(),
            |k: int|
                {
                    let e = entries[members[members.len() - 1 - k]];
                    comment_block(e.display_name@, e.message@, name_fs, body_fs, name_cols, body_cols)
                },
        ),
    )
}

proof fn lemma_recent_upto_shape(entries: Seq<CommentEntry>, t: int, retention_ms: int, upto: int)
    requires
        0 <= upto,
    ensures
        forall|k: int|
            0 <= k < recent_upto(entries, t, retention_ms, upto).len() ==> 0 <= #[trigger] recent_upto(
                entries,
                t,
                retention_ms,
                upto,
            )[k] < upto,
        forall|a: int, b: int|
            0 <= a < b < recent_upto(entries, t, retention_ms, upto).len() ==> recent_upto(
                entries,
                t,
                retention_ms,
                upto,
            )[a] < recent_upto(entries, t, retention_ms, upto)[b],
    decreases upto,
{
    if upto > 0 {
        lemma_recent_upto_shape(entries, t, retention_ms, upto - 1);
        let r = recent_upto(entries, t, retention_ms, upto - 1);
        let full = recent_upto(entries, t, retention_ms, upto);
        if t - entries[upto - 1].start_ms <= retention_ms {
            assert(full == r.push(upto - 1));
            assert forall|a: int, b: int| 0 <= a < b < full.len() implies full[a] < full[b] by {
                if b == r.len() {
                    assert(r[a] < upto - 1);
                }
            }
        } else {
            assert(full == r);
        }
    }
}

/// What the panel shows at the time of a comment: that comment itself as
/// the newest (the last member, whose block comes first, on top), then older
/// comments in order, none posted after it, none older than the retention,
/// and never more than `max_lines` (at least one) of them.
pub proof fn law_stack_newest_on_top(entries: Seq<CommentEntry>, rep: int, max_lines: int, retention_ms: int)
    requires
        0 <= rep < entries.len(),
        retention_ms >= 0,
    ensures
        ({
            let members = stack_members(entries, rep, max_lines, retention_ms);
            &&& members.len() >= 1
            &&& members.last() == rep
            &&& members.len() <= (if max_lines < 1 { 1 } else { max_lines })
            &&& forall|a: int, b: int| 0 <= a < b < members.len() ==> members[a] < members[b]
            &&& forall|k: int|
                0 <= k < members.len() ==> 0 <= #[trigger] members[k] <= rep && entries[rep].start_ms
                    - entries[members[k]].start_ms <= retention_ms
        }),
{
    let t = entries[rep].start_ms as int;
    lemma_recent_upto_shape(entries, t, retention_ms, rep + 1);
    lemma_recent_upto_members(entries, t, retention_ms, rep + 1);
    let js = recent_upto(entries, t, retention_ms, rep + 1);
    assert(js == recent_upto(entries, t, retention_ms, rep).push(rep));
    let members = stack_members(entries, rep, max_lines, retention_ms);
    let max = if max_lines < 1 { 1 } else { max_lines };
    if js.len() > max {
        assert forall|k: int| 0 <= k < members.len() implies members[k] == js[js.len() - max + k] by {}
    }
}

proof fn lemma_recent_upto_members(entries: Seq<CommentEntry>, t: int, retention_ms: int, upto: int)
    requires
        0 <= upto,
    ensures
        forall|k: int|
            0 <= k < recent_upto(entries, t, retention_ms, upto).len() ==> t - entries[#[trigger] recent_upto(
                entries,
                t,
                retention_ms,
                upto,
            )[k]].start_ms <= retention_ms,
    decreases upto,
{
    if upto > 0 {
        lemma_recent_upto_members(entries, t, retention_ms, upto - 1);
    }
}

/// Every comment in the stack is the name in green at `name_fs`, wrapped at
/// the column budget of the name font, then a forced break and the message
/// in white at `body_fs`, wrapped at the column budget of the body font;
/// each wrapped line is escaped and the lines are joined with `\N`.
pub proof fn law_stack_wraps_each_part_at_its_font_budget(
    entries: Seq<CommentEntry>,
    rep: int,
    max_lines: int,
    retention_ms: int,
    name_fs: int,
    body_fs: int,
    text_width_px: int,
)
    requires
        0 <= rep < entries.len(),
    ensures
        ({
            let members = stack_members(entries, rep, max_lines, retention_ms);
            stacked_body_text(entries, rep, max_lines, retention_ms, name_fs, body_fs, text_width_px) == join(
                Seq::new(
                    members.len(),
                    |k: int|
                        {
                            let e = entries[members[members.len() - 1 - k]];
                            "{\\fs"@ + signed_decimal(name_fs) + "\\c&H00B4FF7F&}"@ + join(
                                wrapped(e.display_name@, cols_budget_spec(text_width_px, name_fs)).map_values(
                                    |l: Seq<char>| escape_spec(l),
                                ),
                                "\\N"@,
                            ) + "\\N{\\fs"@ + signed_decimal(body_fs) + "\\c&H00FFFFFF&}"@ + join(
                                wrapped(e.message@, cols_budget_spec(text_width_px, body_fs)).map_values(
                                    |l: Seq<char>| escape_spec(l),
                                ),
                                "\\N"@,
                            )
                        },
                ),
                "\\N"@,
            )
        }),
{
    reveal_strlit("{\\fs");
    reveal_strlit("\\N");
    reveal_strlit("\\N{\\fs");
    let members = stack_members(entries, rep, max_lines, retention_ms);
    let name_cols = cols_budget_spec(text_width_px, name_fs);
    let body_cols = cols_budget_spec(text_width_px, body_fs);
    let a = Seq::new(
        members.len(),
        |k: int|
            {
                let e = entries[members[members.len() - 1 - k]];
                comment_block(e.display_name@, e.message@, name_fs, body_fs, name_cols, body_cols)
            },
    );
    let b = Seq::new(
        members.len(),
        |k: int|
            {
                let e = entries[members[members.len() - 1 - k]];
                "{\\fs"@ + signed_decimal(name_fs) + "\\c&H00B4FF7F&}"@ + join(
                    wrapped(e.display_name@, name_cols).map_values(|l: Seq<char>| escape_spec(l)),
                    "\\N"@,
                ) + "\\N{\\fs"@ + signed_decimal(body_fs) + "\\c&H00FFFFFF&}"@ + join(
                    wrapped(e.message@, body_cols).map_values(|l: Seq<char>| escape_spec(l)),
                    "\\N"@,
                )
            },
    );
    assert("\\N"@ =~= seq!['\\', 'N']);
    assert("{\\fs"@ =~= seq!['{', '\\', 'f', 's']);
    assert("\\N{\\fs"@ =~= seq!['\\', 'N', '{', '\\', 'f', 's']);
    assert(a =~= b);
}

/// Escaped text never holds a raw line break: line feeds and carriage
/// returns all became `\N`.
pub proof fn law_escape_removes_line_breaks(s: Seq<char>)
    ensures
        forall|k: int| 0 <= k < escape_spec(s).len() ==> #[trigger] escape_spec(s)[k] != '\n' && escape_spec(s)[k] != '\r',
    decreases s.len(),
{
    if s.len() > 0 {
        law_escape_removes_line_breaks(s.drop_last());
        let a = escape_spec(s.drop_last());
        let b = escape_char(s.last());
        assert forall|k: int| 0 <= k < (a + b).len() implies (a + b)[k] != '\n' && (a + b)[k] != '\r' by {
            if k >= a.len() {
                assert((a + b)[k] == b[k - a.len()]);
            }
        }
    }
}

/// Text without `\`, `{`, `}` and line breaks is its own escape.
pub proof fn law_escape_keeps_plain_text(s: Seq<char>)
    requires
        forall|k: int|
            0 <= k < s.len() ==> #[trigger] s[k] != '\\' && s[k] != '{' && s[k] != '}' && s[k] != '\n' && s[k]
                != '\r',
    ensures
        escape_spec(s) == s,
    decreases s.len(),
{
    if s.len() > 0 {
        law_escape_keeps_plain_text(s.drop_last());
        assert(s.drop_last().push(s.last()) =~= s);
    }
}

/// The panel text at the time of comment `rep_idx`: the newest comment first
/// (on top), older ones below, joined with `\N`.
pub fn stacked_body(
    entries: &Vec<CommentEntry>,
    rep_idx: usize,
    max_lines: u32,
    stack_retention_ms: i64,
    name_fs: i32,
    body_fs: i32,
    text_width_px: u32,
) -> (out: String)
    requires
        rep_idx < entries@.len(),
    ensures
        out@ == stacked_body_text(
            entries@,
            rep_idx as int,
            max_lines as int,
            stack_retention_ms as int,
            name_fs as int,
            body_fs as int,
            text_width_px as int,
        ),
{
    let name_cols = cols_budget(text_width_px, name_fs);
    let body_cols = cols_budget(text_width_px, body_fs);
    let max: usize = if max_lines < 1 { 1 } else { max_lines as usize };
    let t = entries[rep_idx].start_ms;
    let ghost ev = entries@;
    let mut js: Vec<usize> = Vec::new();
    let mut j: usize = 0;
    let n = entries.len();
    while j <= rep_idx
        invariant
            n == entries@.len(),
            j <= rep_idx + 1,
            rep_idx < entries@.len(),
            ev == entries@,
            t == ev[rep_idx as int].start_ms,
            js@.len() == recent_upto(ev, t as int, stack_retention_ms as int, j as int).len(),
            forall|k: int|
                0 <= k < js@.len() ==> #[trigger] js@[k] as int == recent_upto(
                    ev,
                    t as int,
                    stack_retention_ms as int,
                    j as int,
                )[k],
        decreases rep_idx + 1 - j,
    {
        let sj = entries[j].start_ms;
        if (t as i128) <= sj as i128 + stack_retention_ms as i128 {
            js.push(j);
        }
        j = j + 1;
    }
    let ghost all = recent_upto(ev, t as int, stack_retention_ms as int, rep_idx + 1);
    proof {
        lemma_recent_upto_shape(ev, t as int, stack_retention_ms as int, rep_idx + 1);
    }
    let first: usize = if js.len() > max { js.len() - max } else { 0 };
    let ghost members = stack_members(ev, rep_idx as int, max_lines as int, stack_retention_ms as int);
    assert(members =~= all.subrange(first as int, all.len() as int));
    let mut blocks: Vec<String> = Vec::new();
    let mut k: usize = js.len();
    while k > first
        invariant
            first <= k <= js@.len(),
            js@.len() == all.len(),
            forall|q: int| 0 <= q < js@.len() ==> #[trigger] js@[q] as int == all[q],
            forall|q: int| 0 <= q < all.len() ==> 0 <= #[trigger] all[q] <= rep_idx,
            rep_idx < entries@.len(),
            ev == entries@,
            members == all.subrange(first as int, all.len() as int),
            blocks@.len() == js@.len() - k,
            forall|q: int|
                0 <= q < blocks@.len() ==> #[trigger] blocks@[q]@ == ({
                    let e = ev[members[members.len() - 1 - q]];
                    comment_block(
                        e.display_name@,
                        e.message@,
                        name_fs as int,
                        body_fs as int,
                        name_cols as int,
                        body_cols as int,
                    )
                }),
        decreases k,
    {
        k = k - 1;
        let idx = js[k];
        let b = format_comment_block(&entries[idx], name_fs, body_fs, name_cols, body_cols);
        blocks.push(b);
    }
    let out = join_strings(&blocks, "\\N");
    proof {
        reveal_strlit("\\N");
        assert("\\N"@ =~= seq!['\\', 'N']);
        let spec_blocks = Seq::new(
            members.len(),
            |q: int|
                {
                    let e = ev[members[members.len() - 1 - q]];
                    comment_block(
                        e.display_name@,
                        e.message@,
                        name_fs as int,
                        body_fs as int,
                        name_cols as int,
                        body_cols as int,
                    )
                },
        );
        assert(blocks@.map_values(|p: String| p@) =~= spec_blocks);
    }
    out
}

// ---------------------------------------------------------------------------
// The whole script
// ---------------------------------------------------------------------------

/// Layout of the ASS script.
pub struct AssLayout {
    pub play_res_x: u32,
    pub play_res_y: u32,
    pub panel_width: u32,
    pub font_name: String,
    /// Font size of comment bodies.
    pub font_size: i32,
    /// Font size of display names (smaller than the bodies).
    pub name_font_size: i32,
    pub max_lines: u32,
    /// How long (milliseconds) a past comment stays in the stack.
    pub stack_retention_ms: i64,
    /// Duration (milliseconds) of the drop animation when a new comment arrives.
    pub scroll_ms: i64,
}

/// Gap (pixels) between the panel's left edge and the text (`MarginL`, x of `\pos`).
pub const PANEL_PAD_LEFT_PX: i32 = 10;

/// Gap (pixels) kept before the video (smaller than the left one, so lines are longer).
pub const PANEL_PAD_RIGHT_PX: i32 = 1;

/// Top of the panel text (`\pos` y).
pub const PANEL_TOP_PX: i32 = 20;

/// `u as i32` for a `u32` value: values above `i32::MAX` wrap to negatives.
pub open spec fn wrap_i32(u: int) -> int {
    if u <= 0x7fff_ffff {
        u
    } else {
        u - 0x1_0000_0000
    }
}

/// `v` clamped to the `i32` range (saturating arithmetic).
pub open spec fn sat_i32(v: int) -> int {
    if v < -0x8000_0000 {
        -0x8000_0000
    } else if v > 0x7fff_ffff {
        0x7fff_ffff
    } else {
        v
    }
}

/// `i32::try_from(u).unwrap_or(i32::MAX)`.
pub open spec fn i32_or_max(u: int) -> int {
    if u <= 0x7fff_ffff {
        u
    } else {
        0x7fff_ffff
    }
}

/// `MarginR`: the width of the video part plus the right gap, so that the
/// usable width is the panel minus both gaps.
pub open spec fn margin_right(layout: AssLayout) -> int {
    sat_i32(sat_i32(i32_or_max(layout.play_res_x as int) - wrap_i32(layout.panel_width as int)) + PANEL_PAD_RIGHT_PX)
}

/// Usable text width (pixels, at least 24).
pub open spec fn text_width(layout: AssLayout) -> int {
    let w = sat_i32(sat_i32(i32_or_max(layout.play_res_x as int) - PANEL_PAD_LEFT_PX) - margin_right(layout));
    if w < 24 {
        24
    } else {
        w
    }
}

/// Height of one comment (name, body and spacing).
pub open spec fn line_height(layout: AssLayout) -> int {
    layout.name_font_size + layout.font_size + 14
}

/// Whether the layout's sizes fit the arithmetic on them.
pub open spec fn layout_fits(layout: AssLayout) -> bool {
    &&& -0x8000_0000 <= layout.name_font_size + layout.font_size <= 0x7fff_ffff
    &&& -0x8000_0000 <= line_height(layout) <= 0x7fff_ffff
}

/// With the panel inside the play area, the width the comments are wrapped
/// to is the panel's inner width: the panel minus the left and right gaps
/// (at least 24 pixels).
pub proof fn law_text_width_is_panel_inner_width(layout: AssLayout)
    requires
        layout.panel_width <= layout.play_res_x <= 0x7fff_ffff,
    ensures
        text_width(layout) == (if layout.panel_width - PANEL_PAD_LEFT_PX - PANEL_PAD_RIGHT_PX < 24 {
            24
        } else {
            layout.panel_width - PANEL_PAD_LEFT_PX - PANEL_PAD_RIGHT_PX
        }),
{
}

/// Each `Dialogue` line of the script shows the stack of its segment's
/// comment wrapped to the panel's inner width.
pub proof fn law_dialogue_wraps_to_panel_width(
    entries: Seq<CommentEntry>,
    seg: (usize, i64, i64),
    layout: AssLayout,
)
    requires
        layout.panel_width <= layout.play_res_x <= 0x7fff_ffff,
        layout.panel_width >= 35,
    ensures
        dialogue_line(entries, seg, layout) == dialogue_head(seg.1, seg.2, layout) + segment_overrides(
            layout,
            seg.1 as int,
            seg.2 as int,
        ) + stacked_body_text(
            entries,
            seg.0 as int,
            layout.max_lines as int,
            layout.stack_retention_ms as int,
            layout.name_font_size as int,
            layout.font_size as int,
            layout.panel_width - PANEL_PAD_LEFT_PX - PANEL_PAD_RIGHT_PX,
        ) + seq!['\n'],
{
    law_text_width_is_panel_inner_width(layout);
}

/// Header of the script: script info, the panel style and the events format.
pub open spec fn ass_header(layout: AssLayout) -> Seq<char> {
    "[Script Info]\nTitle: make-comment-movie\nScriptType: v4.00+\nWrapStyle: 2\nPlayResX: "@
        + decimal(layout.play_res_x as nat) + "\nPlayResY: "@ + decimal(layout.play_res_y as nat)
        + "\n\n[V4+ Styles]\nFormat: Name, Fontname, Fontsize, PrimaryColour, SecondaryColour, OutlineColour, BackColour, Bold, Italic, Underline, StrikeOut, ScaleX, ScaleY, Spacing, Angle, BorderStyle, Outline, Shadow, Alignment, MarginL, MarginR, MarginV, Encoding\nStyle: LeftPanel,"@
        + layout.font_name@ + seq![','] + signed_decimal(layout.font_size as int)
        + ",&H00FFFFFF,&H000000FF,&H00000000,&H80000000,0,0,0,0,100,100,0,0,1,1,0,7,"@
        + signed_decimal(PANEL_PAD_LEFT_PX as int) + seq![','] + signed_decimal(margin_right(layout))
        + ",24,1\n\n[Events]\nFormat: Layer, Start, End, Style, Name, MarginL, MarginR, MarginV, Effect, Text\n"@
}

/// Display time (milliseconds, at least 50) of a segment.
pub open spec fn segment_duration(start_ms: int, end_ms: int) -> int {
    if end_ms - start_ms < 50 {
        50
    } else {
        end_ms - start_ms
    }
}

/// Drop animation time: the layout's, but at most 85% of the display time
/// (truncated, and at most `i64::MAX`) and at least 80 ms.
pub open spec fn scroll_duration(layout: AssLayout, dur: int) -> int {
    let share = if dur * 85 / 100 > 0x7fff_ffff_ffff_ffff { 0x7fff_ffff_ffff_ffff } else { dur * 85 / 100 };
    let m = if layout.scroll_ms < share { layout.scroll_ms as int } else { share };
    if m < 80 {
        80
    } else {
        m
    }
}

/// Tail of the override tags for an animated segment: drop from `y_from` to
/// the top within `scroll` milliseconds.
pub open spec fn move_tail(y_from: int, scroll: int) -> Seq<char> {
    ")\\an7\\q2\\move("@ + signed_decimal(PANEL_PAD_LEFT_PX as int) + seq![','] + signed_decimal(y_from) + seq![',']
        + signed_decimal(PANEL_PAD_LEFT_PX as int) + seq![','] + signed_decimal(PANEL_TOP_PX as int) + ",0,"@
        + signed_decimal(scroll) + ")}"@
}

/// Tail of the override tags for a fixed segment.
pub open spec fn pos_tail() -> Seq<char> {
    ")\\an7\\q2\\pos("@ + signed_decimal(PANEL_PAD_LEFT_PX as int) + seq![','] + signed_decimal(PANEL_TOP_PX as int)
        + ")}"@
}

/// Where an animated comment starts: half a comment height (at least 10
/// pixels) above the top.
pub open spec fn drop_start(layout: AssLayout) -> int {
    let half = if line_height(layout) >= 20 { line_height(layout) / 2 } else { 10 };
    PANEL_TOP_PX - half
}

/// Override tags of a segment: clip to the panel, top-left alignment, no
/// automatic wrapping (`\q2`), and either a drop from above (`\move`) when
/// the segment is long enough to animate, or a fixed position (`\pos`).
pub open spec fn segment_overrides(layout: AssLayout, start_ms: int, end_ms: int) -> Seq<char> {
    let dur = segment_duration(start_ms, end_ms);
    let scroll = scroll_duration(layout, dur);
    "{\\clip(0,0,"@ + signed_decimal(wrap_i32(layout.panel_width as int)) + seq![','] + decimal(
        layout.play_res_y as nat,
    ) + if scroll >= 90 && dur >= 120 {
        move_tail(drop_start(layout), scroll)
    } else {
        pos_tail()
    }
}

/// Start of the `Dialogue` line of a segment: layer, times, style and margins.
pub open spec fn dialogue_head(start_ms: i64, end_ms: i64, layout: AssLayout) -> Seq<char> {
    "Dialogue: 0,"@ + ass_time(start_ms as int) + seq![','] + ass_time(end_ms as int) + ",LeftPanel,,"@
        + signed_decimal(PANEL_PAD_LEFT_PX as int) + seq![','] + signed_decimal(margin_right(layout)) + ",24,,"@
}

/// The `Dialogue` line of one segment `(rep_idx, start_ms, end_ms)`.
pub open spec fn dialogue_line(entries: Seq<CommentEntry>, seg: (usize, i64, i64), layout: AssLayout) -> Seq<char> {
    let (rep, start, end) = seg;
    dialogue_head(start, end, layout) + segment_overrides(layout, start as int, end as int) + stacked_body_text(
        entries,
        rep as int,
        layout.max_lines as int,
        layout.stack_retention_ms as int,
        layout.name_font_size as int,
        layout.font_size as int,
        text_width(layout),
    ) + seq!['\n']
}

/// The dialogue lines of the first `k` segments.
pub open spec fn dialogue_lines(
    entries: Seq<CommentEntry>,
    segments: Seq<(usize, i64, i64)>,
    layout: AssLayout,
    k: int,
) -> Seq<char>
    decreases k,
{
    if k <= 0 {
        Seq::empty()
    } else {
        dialogue_lines(entries, segments, layout, k - 1) + dialogue_line(entries, segments[k - 1], layout)
    }
}

/// The whole ASS script: header, then one `Dialogue` line per segment.
pub open spec fn ass_script(entries: Seq<CommentEntry>, segments: Seq<(usize, i64, i64)>, layout: AssLayout) -> Seq<
    char,
> {
    ass_header(layout) + dialogue_lines(entries, segments, layout, segments.len() as int)
}

/// `MarginR` of the layout.
fn compute_margin_right(layout: &AssLayout) -> (m: i32)
    ensures
        m == margin_right(*layout),
{
    let prx: i32 = if layout.play_res_x <= 0x7fff_ffff { layout.play_res_x as i32 } else { i32::MAX };
    let pw: i32 = wrap_u32_to_i32(layout.panel_width);
    saturate_i32(saturate_i32(prx as i64 - pw as i64) as i64 + PANEL_PAD_RIGHT_PX as i64)
}

/// `v` clamped to the `i32` range.
fn saturate_i32(v: i64) -> (r: i32)
    ensures
        r == sat_i32(v as int),
{
    if v < i32::MIN as i64 {
        i32::MIN
    } else if v > i32::MAX as i64 {
        i32::MAX
    } else {
        v as i32
    }
}

/// `u as i32`.
fn wrap_u32_to_i32(u: u32) -> (v: i32)
    ensures
        v == wrap_i32(u as int),
{
    if u <= 0x7fff_ffff {
        u as i32
    } else {
        (u as i64 - 0x1_0000_0000) as i32
    }
}

/// Appends the header of the script to `out`.
fn push_header(out: &mut String, layout: &AssLayout, margin_r: i32)
    requires
        margin_r == margin_right(*layout),
    ensures
        final(out)@ == old(out)@ + ass_header(*layout),
{
    let ghost o = out@;
    push_str(out, "[Script Info]\nTitle: make-comment-movie\nScriptType: v4.00+\nWrapStyle: 2\nPlayResX: ");
    push_decimal(out, layout.play_res_x as u64);
    push_str(out, "\nPlayResY: ");
    push_decimal(out, layout.play_res_y as u64);
    push_str(
        out,
        "\n\n[V4+ Styles]\nFormat: Name, Fontname, Fontsize, PrimaryColour, SecondaryColour, OutlineColour, BackColour, Bold, Italic, Underline, StrikeOut, ScaleX, ScaleY, Spacing, Angle, BorderStyle, Outline, Shadow, Alignment, MarginL, MarginR, MarginV, Encoding\nStyle: LeftPanel,",
    );
    push_str(out, layout.font_name.as_str());
    out.push(',');
    push_signed(out, layout.font_size as i64);
    push_str(out, ",&H00FFFFFF,&H000000FF,&H00000000,&H80000000,0,0,0,0,100,100,0,0,1,1,0,7,");
    push_signed(out, PANEL_PAD_LEFT_PX as i64);
    out.push(',');
    push_signed(out, margin_r as i64);
    push_str(
        out,
        ",24,1\n\n[Events]\nFormat: Layer, Start, End, Style, Name, MarginL, MarginR, MarginV, Effect, Text\n",
    );
    assert(out@ =~= o + ass_header(*layout));
}

fn push_move_tail(out: &mut String, y_from: i32, scroll: i64)
    ensures
        final(out)@ == old(out)@ + move_tail(y_from as int, scroll as int),
{
    let ghost o = out@;
    push_str(out, ")\\an7\\q2\\move(");
    push_signed(out, PANEL_PAD_LEFT_PX as i64);
    out.push(',');
    push_signed(out, y_from as i64);
    out.push(',');
    push_signed(out, PANEL_PAD_LEFT_PX as i64);
    out.push(',');
    push_signed(out, PANEL_TOP_PX as i64);
    push_str(out, ",0,");
    push_signed(out, scroll);
    push_str(out, ")}");
    assert(out@ =~= o + move_tail(y_from as int, scroll as int));
}

fn push_pos_tail(out: &mut String)
    ensures
        final(out)@ == old(out)@ + pos_tail(),
{
    let ghost o = out@;
    push_str(out, ")\\an7\\q2\\pos(");
    push_signed(out, PANEL_PAD_LEFT_PX as i64);
    out.push(',');
    push_signed(out, PANEL_TOP_PX as i64);
    push_str(out, ")}");
    assert(out@ =~= o + pos_tail());
}

/// Appends the override tags of a segment to `out`.
fn push_overrides(out: &mut String, layout: &AssLayout, start_ms: i64, end_ms: i64)
    requires
        layout_fits(*layout),
    ensures
        final(out)@ == old(out)@ + segment_overrides(*layout, start_ms as int, end_ms as int),
{
    let ghost o = out@;
    let diff: i128 = end_ms as i128 - start_ms as i128;
    let dur: i128 = if diff < 50 { 50 } else { diff };
    assert(dur == segment_duration(start_ms as int, end_ms as int));
    let share128: i128 = dur * 85 / 100;
    let share: i64 = if share128 > 0x7fff_ffff_ffff_ffff { i64::MAX } else { share128 as i64 };
    let m: i64 = if layout.scroll_ms < share { layout.scroll_ms } else { share };
    let scroll: i64 = if m < 80 { 80 } else { m };
    assert(scroll == scroll_duration(*layout, dur as int));
    let line_h: i32 = layout.name_font_size + layout.font_size + 14;
    let half: i32 = if line_h >= 20 { line_h / 2 } else { 10 };
    let y_from: i32 = PANEL_TOP_PX - half;
    assert(y_from == drop_start(*layout));
    push_str(out, "{\\clip(0,0,");
    push_signed(out, wrap_u32_to_i32(layout.panel_width) as i64);
    out.push(',');
    push_decimal(out, layout.play_res_y as u64);
    let ghost mid = out@;
    if scroll >= 90 && dur >= 120 {
        push_move_tail(out, y_from, scroll);
    } else {
        push_pos_tail(out);
    }
    assert(out@ =~= o + segment_overrides(*layout, start_ms as int, end_ms as int));
}

/// Appends the start of a `Dialogue` line to `out`.
fn push_dialogue_head(out: &mut String, start_ms: i64, end_ms: i64, layout: &AssLayout, margin_r: i32)
    requires
        margin_r == margin_right(*layout),
    ensures
        final(out)@ == old(out)@ + dialogue_head(start_ms, end_ms, *layout),
{
    let ghost o = out@;
    push_str(out, "Dialogue: 0,");
    push_ass_time(out, start_ms);
    out.push(',');
    push_ass_time(out, end_ms);
    push_str(out, ",LeftPanel,,");
    push_signed(out, PANEL_PAD_LEFT_PX as i64);
    out.push(',');
    push_signed(out, margin_r as i64);
    push_str(out, ",24,,");
    assert(out@ =~= o + dialogue_head(start_ms, end_ms, *layout));
}

/// Appends the `Dialogue` line of one segment to `out`.
fn push_dialogue(
    out: &mut String,
    entries: &Vec<CommentEntry>,
    seg: (usize, i64, i64),
    layout: &AssLayout,
    margin_r: i32,
    text_width_px: u32,
)
    requires
        seg.0 < entries@.len(),
        layout_fits(*layout),
        margin_r == margin_right(*layout),
        text_width_px == text_width(*layout),
    ensures
        final(out)@ == old(out)@ + dialogue_line(entries@, seg, *layout),
{
    let ghost o = out@;
    let (rep_idx, seg_start, seg_end) = seg;
    push_dialogue_head(out, seg_start, seg_end, layout, margin_r);
    let ghost a = out@;
    push_overrides(out, layout, seg_start, seg_end);
    let ghost b = out@;
    let body = stacked_body(
        entries,
        rep_idx,
        layout.max_lines,
        layout.stack_retention_ms,
        layout.name_font_size,
        layout.font_size,
        text_width_px,
    );
    push_str(out, body.as_str());
    out.push('\n');
    assert(out@ =~= o + dialogue_line(entries@, seg, *layout));
}

/// The ASS script for the comment timeline: the header, then for each
/// display segment `(rep_idx, start_ms, end_ms)` (as `build_display_segments`
/// gives them) a `Dialogue` line showing the stack of comment `rep_idx`.
pub fn render_ass_script(entries: &Vec<CommentEntry>, segments: &Vec<(usize, i64, i64)>, layout: &AssLayout) -> (out:
    String)
    requires
        forall|k: int| 0 <= k < segments@.len() ==> (#[trigger] segments@[k]).0 < entries@.len(),
        layout_fits(*layout),
    ensures
        out@ == ass_script(entries@, segments@, *layout),
{
    let margin_r = compute_margin_right(layout);
    let prx: i32 = if layout.play_res_x <= 0x7fff_ffff { layout.play_res_x as i32 } else { i32::MAX };
    let tw: i32 = saturate_i32(saturate_i32(prx as i64 - PANEL_PAD_LEFT_PX as i64) as i64 - margin_r as i64);
    let text_width_px: u32 = if tw < 24 { 24 } else { tw as u32 };
    let mut out = String::new();
    push_header(&mut out, layout, margin_r);
    let mut k: usize = 0;
    while k < segments.len()
        invariant
            k <= segments@.len(),
            forall|q: int| 0 <= q < segments@.len() ==> (#[trigger] segments@[q]).0 < entries@.len(),
            layout_fits(*layout),
            margin_r == margin_right(*layout),
            text_width_px == text_width(*layout),
            out@ == ass_header(*layout) + dialogue_lines(entries@, segments@, *layout, k as int),
        decreases segments@.len() - k,
    {
        let ghost before = out@;
        push_dialogue(&mut out, entries, segments[k], layout, margin_r, text_width_px);
        assert(out@ =~= ass_header(*layout) + dialogue_lines(entries@, segments@, *layout, k + 1));
        k = k + 1;
    }
    out
}

} // verus!
