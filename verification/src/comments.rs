//! Comment log entries (WhoWatch TSV) and their timeline in the video.
use vstd::prelude::*;

use crate::datetime::{chrono_parse, parse_with_format, LocalDateTime};
use crate::text::{
    chars_of, same_text, split_on, split_spec, starts_with, starts_with_spec, trim, trim_end, trim_end_spec,
    trim_spec,
};

verus! {

/// One comment of the log, with its place on the video's timeline.
#[derive(Debug)]
pub struct CommentEntry {
    /// When the comment was posted (local time of the log).
    pub posted_at: LocalDateTime,
    /// Milliseconds from the start of the video at which the comment appears.
    pub start_ms: i64,
    /// Start of the next comment, or `None` for the last one.
    pub end_ms: Option<i64>,
    pub display_name: String,
    pub message: String,
    pub comment_type: String,
}

/// A parsed line of the log: posting time, display name, comment type, message.
pub type CommentRecord = (LocalDateTime, Seq<char>, Seq<char>, Seq<char>);

/// The record that an entry holds.
pub open spec fn entry_record(e: CommentEntry) -> CommentRecord {
    (e.posted_at, e.display_name@, e.comment_type@, e.message@)
}

/// The posting time of a log line: chrono's parse of the trimmed text with
/// `%Y-%m-%d %H:%M:%S%.f`, else with `%Y-%m-%d %H:%M:%S`.
pub open spec fn posted_at_spec(s: Seq<char>) -> Option<LocalDateTime> {
    let t = trim_spec(s);
    match chrono_parse(t, "%Y-%m-%d %H:%M:%S%.f"@) {
        Some((secs, nanos)) => Some(LocalDateTime { secs, nanos }),
        None => match chrono_parse(t, "%Y-%m-%d %H:%M:%S"@) {
            Some((secs, nanos)) => Some(LocalDateTime { secs, nanos }),
            None => None,
        },
    }
}

/// Parses a posting time (`YYYY-MM-DD HH:MM:SS`, with optional fractional seconds).
pub fn parse_posted_at(s: &str) -> (r: Option<LocalDateTime>)
    ensures
        r == posted_at_spec(s@),
        r matches Some(dt) ==> dt.wf(),
{
    let t = trim(s);
    match parse_with_format(t.as_str(), "%Y-%m-%d %H:%M:%S%.f") {
        Some(dt) => Some(dt),
        None => parse_with_format(t.as_str(), "%Y-%m-%d %H:%M:%S"),
    }
}

/// The record of one line of the log, if it is one: the line, without
/// trailing white space, must not be empty, a `#` comment or the header
/// (`posted_at_local` and a tab); split at tabs it must have at least six
/// columns (posted_at_local, user_id, display_name, account_name,
/// comment_type, message); with `skip_playitem` a `BY_PLAYITEM` comment is
/// left out; and its posting time must parse.
pub open spec fn parse_line(piece: Seq<char>, skip_playitem: bool) -> Option<CommentRecord> {
    let line = trim_end_spec(piece);
    if line.len() == 0 || line[0] == '#' || starts_with_spec(line, "posted_at_local\t"@) {
        None
    } else {
        let cols = split_spec(line, '\t');
        if cols.len() < 6 {
            None
        } else if skip_playitem && cols[4] == "BY_PLAYITEM"@ {
            None
        } else {
            match posted_at_spec(cols[0]) {
                Some(dt) => Some((dt, cols[2], cols[4], cols[5])),
                None => None,
            }
        }
    }
}

/// A line of the log is kept exactly when, without its trailing white
/// space, it is not empty, does not start with `#`, is not the header, has
/// at least six tab-separated columns, is not a `BY_PLAYITEM` comment left
/// out on request, and its posting time parses; it then gives the posting
/// time, the display name, the comment type and the message, whatever
/// characters the message holds.
pub proof fn law_log_line_kept_unless_skipped(piece: Seq<char>, skip_playitem: bool)
    ensures
        ({
            let line = trim_end_spec(piece);
            let cols = split_spec(line, '\t');
            let kept = {
                &&& line.len() > 0
                &&& line[0] != '#'
                &&& !starts_with_spec(line, "posted_at_local\t"@)
                &&& cols.len() >= 6
                &&& !(skip_playitem && cols[4] == "BY_PLAYITEM"@)
                &&& posted_at_spec(cols[0]) is Some
            };
            &&& (parse_line(piece, skip_playitem) is Some) <==> kept
            &&& kept ==> parse_line(piece, skip_playitem) == Some(
                (posted_at_spec(cols[0]).unwrap(), cols[2], cols[4], cols[5]),
            )
        }),
{
}

/// The records of the lines `pieces`, in order.
pub open spec fn parse_lines(pieces: Seq<Seq<char>>, skip_playitem: bool) -> Seq<CommentRecord>
    decreases pieces.len(),
{
    if pieces.len() == 0 {
        Seq::empty()
    } else {
        let r = parse_lines(pieces.drop_last(), skip_playitem);
        match parse_line(pieces.last(), skip_playitem) {
            Some(rec) => r.push(rec),
            None => r,
        }
    }
}

/// Sort key of a record: its posting time, in chrono's order.
pub open spec fn record_key(r: CommentRecord) -> int {
    r.0.order_key()
}

/// `sorted` with `r` inserted after every record whose key is not larger.
pub open spec fn insert_sorted(sorted: Seq<CommentRecord>, r: CommentRecord) -> Seq<CommentRecord>
    decreases sorted.len(),
{
    if sorted.len() == 0 {
        seq![r]
    } else if record_key(sorted.last()) <= record_key(r) {
        sorted.push(r)
    } else {
        insert_sorted(sorted.drop_last(), r).push(sorted.last())
    }
}

/// The records ordered by posting time; records posted at the same instant
/// keep their order (a stable sort).
pub open spec fn sort_records(rs: Seq<CommentRecord>) -> Seq<CommentRecord>
    decreases rs.len(),
{
    if rs.len() == 0 {
        Seq::empty()
    } else {
        insert_sorted(sort_records(rs.drop_last()), rs.last())
    }
}

/// The comments of a log text, ordered by posting time.
pub open spec fn comments_of(raw: Seq<char>, skip_playitem: bool) -> Seq<CommentRecord> {
    sort_records(parse_lines(split_spec(raw, '\n'), skip_playitem))
}

/// Where `insert_sorted` puts `r`: after the last record whose key is not larger.
pub open spec fn insert_position(sorted: Seq<CommentRecord>, r: CommentRecord) -> int
    decreases sorted.len(),
{
    if sorted.len() == 0 {
        0
    } else if record_key(sorted.last()) <= record_key(r) {
        sorted.len() as int
    } else {
        insert_position(sorted.drop_last(), r)
    }
}

proof fn lemma_insert_sorted_is_insert(sorted: Seq<CommentRecord>, r: CommentRecord)
    ensures
        0 <= insert_position(sorted, r) <= sorted.len(),
        insert_sorted(sorted, r) == sorted.insert(insert_position(sorted, r), r),
    decreases sorted.len(),
{
    if sorted.len() == 0 {
        assert(seq![r] =~= sorted.insert(0, r));
    } else if record_key(sorted.last()) <= record_key(r) {
        assert(sorted.push(r) =~= sorted.insert(sorted.len() as int, r));
    } else {
        lemma_insert_sorted_is_insert(sorted.drop_last(), r);
        let p = insert_position(sorted.drop_last(), r);
        assert(sorted.drop_last().insert(p, r).push(sorted.last()) =~= sorted.insert(p, r));
    }
}

/// Whether the records are in order of posting time.
pub open spec fn records_sorted(rs: Seq<CommentRecord>) -> bool {
    forall|a: int, b: int| 0 <= a < b < rs.len() ==> record_key(rs[a]) <= record_key(rs[b])
}

proof fn lemma_insert_sorted_sorted(sorted: Seq<CommentRecord>, r: CommentRecord)
    requires
        records_sorted(sorted),
    ensures
        records_sorted(insert_sorted(sorted, r)),
        insert_sorted(sorted, r).to_multiset() == sorted.to_multiset().insert(r),
    decreases sorted.len(),
{
    broadcast use vstd::seq_lib::group_to_multiset_ensures;

    if sorted.len() == 0 {
        assert(seq![r] =~= Seq::<CommentRecord>::empty().push(r));
    } else if record_key(sorted.last()) <= record_key(r) {
    } else {
        let init = sorted.drop_last();
        assert(records_sorted(init));
        lemma_insert_sorted_sorted(init, r);
        lemma_insert_sorted_is_insert(init, r);
        let ins = insert_sorted(init, r);
        assert forall|a: int, b: int| 0 <= a < b < ins.push(sorted.last()).len() implies record_key(
            ins.push(sorted.last())[a],
        ) <= record_key(ins.push(sorted.last())[b]) by {
            if b == ins.len() {
                let p = insert_position(init, r);
                if a == p {
                } else if a < p {
                    assert(ins[a] == init[a]);
                    assert(record_key(sorted[a]) <= record_key(sorted.last()));
                } else {
                    assert(ins[a] == init[a - 1]);
                    assert(record_key(sorted[a - 1]) <= record_key(sorted.last()));
                }
            }
        }
        assert(sorted =~= init.push(sorted.last()));
    }
}

/// The log's comments come out in order of posting time, and they are
/// exactly the records of the log's lines, none lost or added.
pub proof fn law_comments_sorted_by_time(raw: Seq<char>, skip_playitem: bool)
    ensures
        records_sorted(comments_of(raw, skip_playitem)),
        comments_of(raw, skip_playitem).to_multiset() == parse_lines(split_spec(raw, '\n'), skip_playitem).to_multiset(),
{
    lemma_sort_records(parse_lines(split_spec(raw, '\n'), skip_playitem));
}

proof fn lemma_sort_records(rs: Seq<CommentRecord>)
    ensures
        records_sorted(sort_records(rs)),
        sort_records(rs).to_multiset() == rs.to_multiset(),
    decreases rs.len(),
{
    broadcast use vstd::seq_lib::group_to_multiset_ensures;

    if rs.len() == 0 {
    } else {
        lemma_sort_records(rs.drop_last());
        lemma_insert_sorted_sorted(sort_records(rs.drop_last()), rs.last());
        assert(rs =~= rs.drop_last().push(rs.last()));
    }
}

/// A new entry for `rec`, not yet on the timeline.
fn new_entry(posted_at: LocalDateTime, display_name: &String, comment_type: &String, message: &String) -> (e:
    CommentEntry)
    ensures
        entry_record(e) == (posted_at, display_name@, comment_type@, message@),
        e.start_ms == 0,
        e.end_ms == Some(0i64),
{
    CommentEntry {
        posted_at,
        start_ms: 0,
        end_ms: Some(0),
        display_name: display_name.clone(),
        message: message.clone(),
        comment_type: comment_type.clone(),
    }
}

/// Parses one line of the log.
fn parse_comment_line(piece: &str, skip_playitem: bool) -> (r: Option<CommentEntry>)
    ensures
        r matches Some(e) ==> parse_line(piece@, skip_playitem) == Some(entry_record(e)) && e.start_ms == 0
            && e.end_ms == Some(0i64) && e.posted_at.wf(),
        r is None ==> parse_line(piece@, skip_playitem) is None,
{
    let line = trim_end(piece);
    let chars = chars_of(line.as_str());
    if chars.len() == 0 || chars[0] == '#' || starts_with(&chars, "posted_at_local\t") {
        return None;
    }
    let cols = split_on(line.as_str(), '\t');
    proof {
        assert(cols@.map_values(|p: String| p@).len() == cols@.len());
    }
    if cols.len() < 6 {
        return None;
    }
    let ghost cv = cols@.map_values(|p: String| p@);
    assert(cv[4] == cols@[4]@);
    assert(cv[0] == cols@[0]@);
    assert(cv[2] == cols@[2]@);
    assert(cv[5] == cols@[5]@);
    if skip_playitem && same_text(cols[4].as_str(), "BY_PLAYITEM") {
        return None;
    }
    match parse_posted_at(cols[0].as_str()) {
        Some(dt) => Some(new_entry(dt, &cols[2], &cols[4], &cols[5])),
        None => None,
    }
}

/// The comments of a WhoWatch log text, ordered by posting time (entries
/// posted at the same instant keep the order of the log); their timeline
/// is not set yet (start 0).
pub fn parse_comments_text(raw: &str, skip_playitem: bool) -> (entries: Vec<CommentEntry>)
    ensures
        entries@.map_values(|e: CommentEntry| entry_record(e)) == comments_of(raw@, skip_playitem),
        forall|k: int|
            0 <= k < entries@.len() ==> (#[trigger] entries@[k]).start_ms == 0 && entries@[k].end_ms == Some(0i64)
                && entries@[k].posted_at.wf(),
{
    let lines = split_on(raw, '\n');
    let ghost pieces = split_spec(raw@, '\n');
    let mut sorted: Vec<CommentEntry> = Vec::new();
    let mut k: usize = 0;
    while k < lines.len()
        invariant
            k <= lines@.len(),
            lines@.map_values(|p: String| p@) == pieces,
            sorted@.map_values(|e: CommentEntry| entry_record(e)) == sort_records(
                parse_lines(pieces.take(k as int), skip_playitem),
            ),
            forall|q: int|
                0 <= q < sorted@.len() ==> (#[trigger] sorted@[q]).start_ms == 0 && sorted@[q].end_ms == Some(
                    0i64,
                ) && sorted@[q].posted_at.wf(),
        decreases lines@.len() - k,
    {
        let ghost before = sorted@;
        proof {
            assert(pieces.take(k + 1).drop_last() =~= pieces.take(k as int));
            assert(pieces.take(k + 1).last() == lines@[k as int]@);
        }
        match parse_comment_line(lines[k].as_str(), skip_playitem) {
            Some(e) => {
                let key = e.posted_at.ordering_key();
                let mut p = sorted.len();
                proof {
                    let m = before.map_values(|x: CommentEntry| entry_record(x));
                    assert(m.take(p as int) =~= m);
                }
                while p > 0 && sorted[p - 1].posted_at.ordering_key() > key
                    invariant
                        p <= sorted@.len(),
                        sorted@ == before,
                        e.posted_at.wf(),
                        key == e.posted_at.order_key(),
                        forall|q: int| 0 <= q < sorted@.len() ==> (#[trigger] sorted@[q]).posted_at.wf(),
                        insert_position(
                            before.map_values(|x: CommentEntry| entry_record(x)).take(p as int),
                            entry_record(e),
                        ) == insert_position(before.map_values(|x: CommentEntry| entry_record(x)), entry_record(e)),
                    decreases p,
                {
                    proof {
                        let m = before.map_values(|x: CommentEntry| entry_record(x));
                        assert(m.take(p as int).drop_last() =~= m.take(p - 1));
                        assert(m.take(p as int).last() == entry_record(before[p - 1]));
                    }
                    p = p - 1;
                }
                proof {
                    let m = before.map_values(|x: CommentEntry| entry_record(x));
                    if p > 0 {
                        assert(m.take(p as int).last() == entry_record(before[p - 1]));
                        assert(m.take(p as int).len() == p);
                    } else {
                        assert(m.take(0) =~= Seq::<CommentRecord>::empty());
                    }
                    assert(insert_position(m, entry_record(e)) == p);
                    lemma_insert_sorted_is_insert(m, entry_record(e));
                }
                let ghost rec = entry_record(e);
                sorted.insert(p, e);
                proof {
                    let m = before.map_values(|x: CommentEntry| entry_record(x));
                    assert(sorted@.map_values(|x: CommentEntry| entry_record(x)) =~= m.insert(p as int, rec));
                    let t = pieces.take(k + 1);
                    assert(parse_lines(t, skip_playitem) == parse_lines(pieces.take(k as int), skip_playitem).push(
                        rec,
                    ));
                    let pl = parse_lines(t, skip_playitem);
                    assert(pl.drop_last() =~= parse_lines(pieces.take(k as int), skip_playitem));
                }
            },
            None => {
                proof {
                    let t = pieces.take(k + 1);
                    assert(parse_lines(t, skip_playitem) == parse_lines(pieces.take(k as int), skip_playitem));
                }
            },
        }
        k = k + 1;
    }
    proof {
        assert(pieces.take(lines@.len() as int) =~= pieces);
    }
    sorted
}

/// The entries posted at or after `video_start` (in chrono's order of date
/// and times), in their order.
pub open spec fn kept_from(entries: Seq<CommentEntry>, video_start: LocalDateTime) -> Seq<CommentEntry>
    decreases entries.len(),
{
    if entries.len() == 0 {
        Seq::empty()
    } else {
        let r = kept_from(entries.drop_last(), video_start);
        if entries.last().posted_at.order_key() >= video_start.order_key() {
            r.push(entries.last())
        } else {
            r
        }
    }
}

/// Whole milliseconds from `video_start` to the posting of `e`, as chrono counts them.
pub open spec fn offset_ms(e: CommentEntry, video_start: LocalDateTime) -> int {
    e.posted_at.millis_since_spec(video_start)
}

/// Start (milliseconds) of the `i`-th kept entry on the timeline: its offset,
/// pushed to one millisecond after the previous start when it would not be
/// later than that.
pub open spec fn timeline_start(kept: Seq<CommentEntry>, video_start: LocalDateTime, i: int) -> int
    decreases i,
{
    if i <= 0 {
        offset_ms(kept[0], video_start)
    } else {
        let prev = timeline_start(kept, video_start, i - 1);
        if offset_ms(kept[i], video_start) <= prev {
            prev + 1
        } else {
            offset_ms(kept[i], video_start)
        }
    }
}

/// Largest distance (milliseconds) from the video's start that the timeline holds.
pub const MAX_TIMELINE_MS: i64 = 0x3fff_ffff_ffff_ffff;

/// Largest number of comments that the timeline takes (far beyond what memory holds).
pub const MAX_COMMENTS: u64 = 0x1000_0000_0000_0000;

/// Placing comments on the timeline keeps only comments of the log posted
/// at or after the video's start, and never more than there were.
pub proof fn law_timeline_keeps_later_comments(entries: Seq<CommentEntry>, video_start: LocalDateTime)
    ensures
        kept_from(entries, video_start).len() <= entries.len(),
        forall|k: int|
            0 <= k < kept_from(entries, video_start).len() ==> #[trigger] kept_from(entries, video_start)[k].posted_at.order_key()
                >= video_start.order_key(),
        forall|k: int|
            0 <= k < kept_from(entries, video_start).len() ==> entries.contains(
                #[trigger] kept_from(entries, video_start)[k],
            ),
    decreases entries.len(),
{
    if entries.len() > 0 {
        law_timeline_keeps_later_comments(entries.drop_last(), video_start);
        let r = kept_from(entries.drop_last(), video_start);
        assert forall|k: int| 0 <= k < r.len() implies entries.contains(#[trigger] r[k]) by {
            let j = choose|j: int| 0 <= j < entries.drop_last().len() && entries.drop_last()[j] == r[k];
            assert(entries[j] == r[k]);
        }
        assert(entries[entries.len() - 1] == entries.last());
    }
}

/// Places the entries on the video's timeline: entries posted before
/// `video_start` are dropped; each other entry starts at the whole
/// milliseconds from `video_start` to its posting, but at least one
/// millisecond after the entry before it, so that no two start together;
/// each entry ends where the next one starts (the last one never ends).
pub fn annotate_timeline(entries: &mut Vec<CommentEntry>, video_start: LocalDateTime)
    requires
        video_start.wf(),
        forall|k: int| 0 <= k < old(entries)@.len() ==> (#[trigger] old(entries)@[k]).posted_at.wf(),
        old(entries)@.len() <= MAX_COMMENTS,
    ensures
        final(entries)@.len() == kept_from(old(entries)@, video_start).len(),
        forall|k: int|
            0 <= k < final(entries)@.len() ==> {
                let e = #[trigger] final(entries)@[k];
                let o = kept_from(old(entries)@, video_start)[k];
                &&& entry_record(e) == entry_record(o)
                &&& e.start_ms == timeline_start(kept_from(old(entries)@, video_start), video_start, k)
                &&& -MAX_TIMELINE_MS <= e.start_ms <= MAX_TIMELINE_MS
                &&& e.end_ms == if k + 1 < final(entries)@.len() {
                    Some(final(entries)@[k + 1].start_ms)
                } else {
                    None
                }
            },
        forall|a: int, b: int|
            0 <= a < b < final(entries)@.len() ==> final(entries)@[a].start_ms < final(entries)@[b].start_ms,
{
    let ghost olds = entries@;
    let ghost kept = kept_from(olds, video_start);
    proof {
        law_timeline_keeps_later_comments(olds, video_start);
    }
    let v0 = video_start.ordering_key();
    let n = entries.len();
    let mut idx: Vec<usize> = Vec::new();
    let mut starts: Vec<i64> = Vec::new();
    let mut k: usize = 0;
    while k < n
        invariant
            n == olds.len(),
            olds == entries@,
            k <= n,
            v0 == video_start.order_key(),
            video_start.wf(),
            n <= MAX_COMMENTS,
            forall|q: int| 0 <= q < olds.len() ==> (#[trigger] olds[q]).posted_at.wf(),
            idx@.len() == starts@.len(),
            idx@.len() == kept_from(olds.take(k as int), video_start).len(),
            idx@.len() <= k,
            forall|q: int| 0 <= q < idx@.len() ==> (#[trigger] idx@[q]) < k,
            forall|q: int|
                0 <= q < idx@.len() ==> kept_from(olds.take(k as int), video_start)[q] == olds[#[trigger] idx@[q] as int],
            forall|q: int|
                0 <= q < starts@.len() ==> #[trigger] starts@[q] == timeline_start(
                    kept_from(olds.take(k as int), video_start),
                    video_start,
                    q,
                ),
            forall|q: int|
                0 <= q < starts@.len() ==> -30_000_000_000_000_000 <= #[trigger] starts@[q] <= 30_000_000_000_000_000
                    + q,
        decreases n - k,
    {
        let ghost kt = kept_from(olds.take(k as int), video_start);
        let ghost kt1 = kept_from(olds.take(k + 1), video_start);
        proof {
            assert(olds.take(k + 1).drop_last() =~= olds.take(k as int));
            assert(olds.take(k + 1).last() == olds[k as int]);
        }
        let p = entries[k].posted_at.ordering_key();
        if p >= v0 {
            let off: i64 = entries[k].posted_at.millis_since(&video_start);
            assert(off == offset_ms(olds[k as int], video_start));
            let start: i64 = if starts.len() > 0 && off <= starts[starts.len() - 1] {
                starts[starts.len() - 1] + 1
            } else {
                off
            };
            proof {
                assert(kt1 == kt.push(olds[k as int]));
                assert forall|q: int| 0 <= q < kt.len() implies kt1[q] == kt[q] by {}
                lemma_timeline_prefix(kt, kt1, video_start, kt.len() as int);
            }
            idx.push(k);
            starts.push(start);
            proof {
                assert forall|q: int| 0 <= q < starts@.len() implies #[trigger] starts@[q] == timeline_start(
                    kt1,
                    video_start,
                    q,
                ) by {
                    if q < kt.len() {
                        lemma_timeline_prefix(kt, kt1, video_start, q);
                    }
                }
            }
        } else {
            proof {
                assert(kt1 == kt);
            }
        }
        k = k + 1;
    }
    proof {
        assert(olds.take(n as int) =~= olds);
    }
    let m = idx.len();
    let mut out: Vec<CommentEntry> = Vec::new();
    let mut j: usize = 0;
    while j < m
        invariant
            j <= m,
            m == idx@.len(),
            m == starts@.len(),
            m == kept.len(),
            kept == kept_from(olds, video_start),
            n == olds.len(),
            olds == entries@,
            forall|q: int| 0 <= q < m ==> (#[trigger] idx@[q]) < n,
            forall|q: int| 0 <= q < m ==> kept[q] == olds[#[trigger] idx@[q] as int],
            forall|q: int| 0 <= q < m ==> #[trigger] starts@[q] == timeline_start(kept, video_start, q),
            forall|q: int| 0 <= q < m ==> -30_000_000_000_000_000 <= #[trigger] starts@[q] <= 30_000_000_000_000_000 + q,
            out@.len() == j,
            forall|q: int|
                0 <= q < j ==> {
                    let e = #[trigger] out@[q];
                    &&& entry_record(e) == entry_record(kept[q])
                    &&& e.start_ms == starts@[q]
                    &&& e.end_ms == if q + 1 < m {
                        Some(starts@[q + 1])
                    } else {
                        None
                    }
                },
        decreases m - j,
    {
        let src = &entries[idx[j]];
        let end = if j + 1 < m {
            Some(starts[j + 1])
        } else {
            None
        };
        let e = CommentEntry {
            posted_at: LocalDateTime { secs: src.posted_at.secs, nanos: src.posted_at.nanos },
            start_ms: starts[j],
            end_ms: end,
            display_name: src.display_name.clone(),
            message: src.message.clone(),
            comment_type: src.comment_type.clone(),
        };
        out.push(e);
        j = j + 1;
    }
    proof {
        assert forall|a: int, b: int| 0 <= a < b < m implies starts@[a] < starts@[b] by {
            lemma_timeline_increasing(kept, video_start, a, b);
        }
    }
    *entries = out;
}

proof fn lemma_timeline_prefix(kt: Seq<CommentEntry>, kt1: Seq<CommentEntry>, video_start: LocalDateTime, i: int)
    requires
        0 <= i < kt1.len(),
        i <= kt.len(),
        forall|q: int| 0 <= q < kt.len() ==> kt1[q] == kt[q],
        i < kt.len() || i == kt.len(),
    ensures
        i < kt.len() ==> timeline_start(kt1, video_start, i) == timeline_start(kt, video_start, i),
        i == kt.len() && i > 0 ==> timeline_start(kt1, video_start, i) == (if offset_ms(kt1[i], video_start)
            <= timeline_start(kt, video_start, i - 1) {
            timeline_start(kt, video_start, i - 1) + 1
        } else {
            offset_ms(kt1[i], video_start)
        }),
    decreases i,
{
    if i > 0 {
        lemma_timeline_prefix(kt, kt1, video_start, i - 1);
    }
}

proof fn lemma_timeline_increasing(kept: Seq<CommentEntry>, video_start: LocalDateTime, a: int, b: int)
    requires
        0 <= a < b < kept.len(),
    ensures
        timeline_start(kept, video_start, a) < timeline_start(kept, video_start, b),
    decreases b - a,
{
    if b - 1 > a {
        lemma_timeline_increasing(kept, video_start, a, b - 1);
    }
}

/// Shortest time (milliseconds) a display segment lasts.
pub const MIN_SEGMENT_MS: i64 = 20;

/// Index of the last entry from `k` on that starts when entry `k` starts.
pub open spec fn group_last(entries: Seq<CommentEntry>, k: int) -> int
    decreases entries.len() - k,
{
    if k + 1 < entries.len() && entries[k + 1].start_ms == entries[k].start_ms {
        group_last(entries, k + 1)
    } else {
        k
    }
}

/// End of the segment that starts at `t0` and would last until `t1`: at
/// least 20 ms after `t0`, and not past the video's end (unless that is
/// earlier than 20 ms after `t0`).
pub open spec fn segment_end(t0: int, t1: int, duration_ms: int) -> int {
    let lo = t0 + MIN_SEGMENT_MS;
    let a = if t1 > lo { t1 } else { lo };
    let b = if duration_ms > lo { duration_ms } else { lo };
    if a < b {
        a
    } else {
        b
    }
}

/// The display segments from entry `k` on: entries starting at the same
/// time form one segment, represented by the last of them; it lasts until
/// the next entry starts, or until the end of the video for the last one.
pub open spec fn segments_from(entries: Seq<CommentEntry>, duration_ms: int, k: int) -> Seq<(usize, i64, i64)>
    decreases entries.len() - k,
{
    if k < 0 || k >= entries.len() {
        Seq::empty()
    } else {
        let last = group_last(entries, k);
        proof {
            lemma_group_last(entries, k);
        }
        let t0 = entries[k].start_ms as int;
        let t1 = if last + 1 < entries.len() { entries[last + 1].start_ms as int } else { duration_ms };
        let seg = (last as usize, t0 as i64, segment_end(t0, t1, duration_ms) as i64);
        seq![seg] + segments_from(entries, duration_ms, last + 1)
    }
}

pub proof fn lemma_group_last(entries: Seq<CommentEntry>, k: int)
    requires
        0 <= k < entries.len(),
    ensures
        k <= group_last(entries, k) < entries.len(),
        forall|q: int| k <= q <= group_last(entries, k) ==> (#[trigger] entries[q]).start_ms == entries[k].start_ms,
        group_last(entries, k) + 1 < entries.len() ==> entries[group_last(entries, k) + 1].start_ms
            != entries[k].start_ms,
    decreases entries.len() - k,
{
    if k + 1 < entries.len() && entries[k + 1].start_ms == entries[k].start_ms {
        lemma_group_last(entries, k + 1);
    }
}

/// The video's duration, or 0 for a negative one.
pub open spec fn clamped_duration(duration_ms: int) -> int {
    if duration_ms < 0 {
        0
    } else {
        duration_ms
    }
}

/// Groups the entries that start at the same time into display segments
/// `(representative index, start_ms, end_ms)`: the representative is the
/// last entry of the group, and the segment lasts until the next group
/// starts (or the video ends), at least 20 ms, and not past the video's end
/// unless that is sooner than 20 ms after the start.
pub fn build_display_segments(entries: &Vec<CommentEntry>, video_duration_ms: i64) -> (segs: Vec<(usize, i64, i64)>)
    requires
        forall|k: int|
            0 <= k < entries@.len() ==> -MAX_TIMELINE_MS <= (#[trigger] entries@[k]).start_ms <= MAX_TIMELINE_MS,
        video_duration_ms <= MAX_TIMELINE_MS,
    ensures
        segs@ == segments_from(entries@, clamped_duration(video_duration_ms as int), 0),
{
    let n = entries.len();
    let mut out: Vec<(usize, i64, i64)> = Vec::new();
    let dur: i64 = if video_duration_ms < 0 { 0 } else { video_duration_ms };
    if n == 0 {
        assert(out@ =~= segments_from(entries@, dur as int, 0));
        return out;
    }
    let mut k: usize = 0;
    while k < n
        invariant
            n == entries@.len(),
            k <= n,
            dur == clamped_duration(video_duration_ms as int),
            0 <= dur <= MAX_TIMELINE_MS,
            forall|q: int|
                0 <= q < entries@.len() ==> -MAX_TIMELINE_MS <= (#[trigger] entries@[q]).start_ms <= MAX_TIMELINE_MS,
            out@ + segments_from(entries@, dur as int, k as int) == segments_from(entries@, dur as int, 0),
        decreases n - k,
    {
        let t0 = entries[k].start_ms;
        let mut last = k;
        while last + 1 < n && entries[last + 1].start_ms == t0
            invariant
                n == entries@.len(),
                k <= last < n,
                t0 == entries@[k as int].start_ms,
                t0 == entries@[last as int].start_ms,
                group_last(entries@, last as int) == group_last(entries@, k as int),
            decreases n - last,
        {
            last = last + 1;
        }
        proof {
            lemma_group_last(entries@, k as int);
        }
        let t1 = if last + 1 < n { entries[last + 1].start_ms } else { dur };
        let lo = t0 + MIN_SEGMENT_MS;
        let a = if t1 > lo { t1 } else { lo };
        let b = if dur > lo { dur } else { lo };
        let end = if a < b { a } else { b };
        let ghost before = out@;
        out.push((last, t0, end));
        proof {
            let rest = segments_from(entries@, dur as int, k as int);
            assert(rest == seq![(last, t0, end)] + segments_from(entries@, dur as int, last + 1));
            assert(out@ + segments_from(entries@, dur as int, last + 1) =~= before + rest);
        }
        k = last + 1;
    }
    proof {
        assert(segments_from(entries@, dur as int, n as int) =~= Seq::<(usize, i64, i64)>::empty());
        assert(out@ =~= out@ + segments_from(entries@, dur as int, n as int));
    }
    out
}

proof fn lemma_segments_from(entries: Seq<CommentEntry>, duration_ms: int, k: int)
    requires
        0 <= k,
        entries.len() <= usize::MAX,
        0 <= duration_ms <= MAX_TIMELINE_MS,
        forall|q: int| 0 <= q < entries.len() ==> -MAX_TIMELINE_MS <= (#[trigger] entries[q]).start_ms <= MAX_TIMELINE_MS,
    ensures
        ({
            let segs = segments_from(entries, duration_ms, k);
            &&& k < entries.len() ==> segs.len() > 0 && segs[0].1 == entries[k].start_ms
            &&& forall|q: int|
                0 <= q < segs.len() ==> {
                    let s = #[trigger] segs[q];
                    &&& k <= s.0 < entries.len()
                    &&& entries[s.0 as int].start_ms == s.1
                    &&& s.1 + MIN_SEGMENT_MS <= s.2
                }
            &&& forall|a: int, b: int| 0 <= a < b < segs.len() ==> segs[a].0 < segs[b].0
            &&& forall|q: int|
                0 <= q < segs.len() - 1 ==> {
                    let s = #[trigger] segs[q];
                    let t = segs[q + 1];
                    (s.1 + MIN_SEGMENT_MS <= t.1 && t.1 <= duration_ms) ==> s.2 == t.1
                }
        }),
    decreases entries.len() - k,
{
    if k < entries.len() {
        lemma_group_last(entries, k);
        let last = group_last(entries, k);
        lemma_segments_from(entries, duration_ms, last + 1);
        let rest = segments_from(entries, duration_ms, last + 1);
        let segs = segments_from(entries, duration_ms, k);
        assert(segs == seq![segs[0]] + rest);
        assert forall|q: int| 0 < q < segs.len() implies segs[q] == rest[q - 1] by {}
        assert forall|a: int, b: int| 0 <= a < b < segs.len() implies segs[a].0 < segs[b].0 by {
            if a > 0 {
                assert(rest[a - 1].0 < rest[b - 1].0);
            }
        }
        if rest.len() > 0 {
            assert(rest[0].1 == entries[last + 1].start_ms);
        }
    }
}

/// Display segments never overlap their comments wrongly: each shows the
/// last of the comments starting at its time, lasts at least 20 ms, the
/// representatives come in order, and a segment lasts exactly until the next
/// one starts whenever that start is at least 20 ms later and within the video.
pub proof fn law_segments_cover_until_next(entries: Seq<CommentEntry>, duration_ms: int)
    requires
        entries.len() <= usize::MAX,
        0 <= duration_ms <= MAX_TIMELINE_MS,
        forall|q: int| 0 <= q < entries.len() ==> -MAX_TIMELINE_MS <= (#[trigger] entries[q]).start_ms <= MAX_TIMELINE_MS,
    ensures
        ({
            let segs = segments_from(entries, duration_ms, 0);
            &&& entries.len() > 0 ==> segs.len() > 0
            &&& forall|q: int|
                0 <= q < segs.len() ==> {
                    let s = #[trigger] segs[q];
                    &&& s.0 < entries.len()
                    &&& entries[s.0 as int].start_ms == s.1
                    &&& s.1 + MIN_SEGMENT_MS <= s.2
                }
            &&& forall|a: int, b: int| 0 <= a < b < segs.len() ==> segs[a].0 < segs[b].0
            &&& forall|q: int|
                0 <= q < segs.len() - 1 ==> {
                    let s = #[trigger] segs[q];
                    let t = segs[q + 1];
                    (s.1 + MIN_SEGMENT_MS <= t.1 && t.1 <= duration_ms) ==> s.2 == t.1
                }
        }),
{
    lemma_segments_from(entries, duration_ms, 0);
}

proof fn lemma_segments_one_per_entry(entries: Seq<CommentEntry>, duration_ms: int, k: int)
    requires
        0 <= k <= entries.len(),
        entries.len() <= usize::MAX,
        forall|a: int, b: int| 0 <= a < b < entries.len() ==> entries[a].start_ms < entries[b].start_ms,
    ensures
        segments_from(entries, duration_ms, k).len() == entries.len() - k,
        forall|q: int|
            0 <= q < entries.len() - k ==> #[trigger] segments_from(entries, duration_ms, k)[q].0 == k + q,
    decreases entries.len() - k,
{
    if k < entries.len() {
        assert(group_last(entries, k) == k) by {
            if k + 1 < entries.len() {
                assert(entries[k].start_ms < entries[k + 1].start_ms);
            }
        }
        lemma_segments_one_per_entry(entries, duration_ms, k + 1);
        let segs = segments_from(entries, duration_ms, k);
        assert forall|q: int| 0 < q < segs.len() implies segs[q] == segments_from(entries, duration_ms, k + 1)[q
            - 1] by {}
    }
}

/// On a timeline where every comment starts later than the one before (as
/// `annotate_timeline` makes it), each comment gets a segment of its own.
pub proof fn law_one_segment_per_comment(entries: Seq<CommentEntry>, duration_ms: int)
    requires
        entries.len() <= usize::MAX,
        forall|a: int, b: int| 0 <= a < b < entries.len() ==> entries[a].start_ms < entries[b].start_ms,
    ensures
        segments_from(entries, duration_ms, 0).len() == entries.len(),
        forall|q: int| 0 <= q < entries.len() ==> #[trigger] segments_from(entries, duration_ms, 0)[q].0 == q,
{
    lemma_segments_one_per_entry(entries, duration_ms, 0);
}

} // verus!
