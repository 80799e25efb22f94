//! Agent action ledger — the "receipts" half of containment + receipts.
//!
//! Every action the agent takes through the desktop shell is one JSONL row: what,
//! when, where, outcome. This module decides what a row holds, how the file is kept
//! bounded, and what the tail shows; reading and writing the file is the caller's.
use vstd::prelude::*;
use crate::json::{members_view, push_member, seq_view, Json, JsonView};
use crate::text::{chars_of, join_path, join_spec, push_char, push_str, string_of_range, string_views};

verus! {

broadcast use vstd::string::group_string_axioms;

/// Keep the ledger bounded: a long-lived install must not grow without limit.
pub const LEDGER_KEEP: usize = 2000;

/// How many rows the tail shows when the caller does not say.
pub const DEFAULT_TAIL: usize = 120;

/// `s` when it has at most `max` characters; else its first `max - 1` characters
/// (none when `max` is 0) and `…`.
pub open spec fn clamp_spec(s: Seq<char>, max: nat) -> Seq<char> {
    if s.len() <= max {
        s
    } else {
        s.take(
            if max >= 1 {
                max - 1
            } else {
                0
            },
        ).push('…')
    }
}

/// Cut `s` to `max` characters (not bytes), marking the cut with `…`.
pub fn clamp(s: &str, max: usize) -> (r: String)
    ensures
        r@ == clamp_spec(s@, max as nat),
{
    let v = chars_of(s);
    if v.len() <= max {
        return string_of_range(&v, 0, v.len());
    }
    let keep = if max >= 1 {
        max - 1
    } else {
        0
    };
    let mut out = string_of_range(&v, 0, keep);
    push_char(&mut out, '…');
    assert(v@.subrange(0, keep as int) =~= v@.take(keep as int));
    out
}

/// One ledger row (keys in the order the file holds them).
pub open spec fn ledger_row_spec(
    at: Seq<char>,
    kind: Seq<char>,
    cwd: Seq<char>,
    summary: Seq<char>,
    outcome: Seq<char>,
) -> JsonView {
    JsonView::Object(
        seq![
            ("at"@, JsonView::Str(at)),
            ("cwd"@, JsonView::Str(clamp_spec(cwd, 160))),
            ("kind"@, JsonView::Str(clamp_spec(kind, 24))),
            ("outcome"@, JsonView::Str(clamp_spec(outcome, 80))),
            ("summary"@, JsonView::Str(clamp_spec(summary, 240))),
        ],
    )
}

/// One recorded action: `kind` is the coarse class (prompt | tool | permission | file |
/// shell | cancel | error), `summary` the human line, `outcome` free text; each is cut
/// to its column's width.
pub fn ledger_row(at: &str, kind: &str, cwd: &str, summary: &str, outcome: &str) -> (r: Json)
    ensures
        r@ == ledger_row_spec(at@, kind@, cwd@, summary@, outcome@),
{
    let mut m = Vec::new();
    push_member(&mut m, "at", Json::from_str(at));
    push_member(&mut m, "cwd", Json::Str(clamp(cwd, 160)));
    push_member(&mut m, "kind", Json::Str(clamp(kind, 24)));
    push_member(&mut m, "outcome", Json::Str(clamp(outcome, 80)));
    push_member(&mut m, "summary", Json::Str(clamp(summary, 240)));
    let r = Json::object(m);
    assert(members_view(m@) =~= ledger_row_spec(at@, kind@, cwd@, summary@, outcome@)->Object_0);
    r
}

/// The last `limit` items of `s` (all of them when there are fewer).
pub open spec fn last_n<T>(s: Seq<T>, limit: nat) -> Seq<T> {
    if s.len() > limit {
        s.skip(s.len() - limit)
    } else {
        s
    }
}

/// The last `limit` rows, in their order.
pub fn keep_last<T>(rows: Vec<T>, limit: usize) -> (r: Vec<T>)
    ensures
        r@ == last_n(rows@, limit as nat),
{
    let mut rows = rows;
    if rows.len() > limit {
        let at = rows.len() - limit;
        let ghost before = rows@;
        let tail = rows.split_off(at);
        assert(tail@ =~= before.skip(at as int));
        tail
    } else {
        rows
    }
}

/// The ledger after one more row: the new row last, at most `LEDGER_KEEP` rows.
pub open spec fn appended_spec(rows: Seq<JsonView>, row: JsonView) -> Seq<JsonView> {
    last_n(rows.push(row), LEDGER_KEEP as nat)
}

/// Append one row, dropping the oldest beyond the cap.
pub fn append_row(rows: Vec<Json>, row: Json) -> (r: Vec<Json>)
    ensures
        seq_view(r@) == appended_spec(seq_view(rows@), row@),
{
    let ghost before = seq_view(rows@);
    let ghost rv = row@;
    let mut rows = rows;
    rows.push(row);
    assert(seq_view(rows@) =~= before.push(rv));
    let ghost all = rows@;
    let r = keep_last(rows, LEDGER_KEEP);
    assert(seq_view(r@) =~= last_n(seq_view(all), LEDGER_KEEP as nat));
    r
}

/// How many rows the tail shows: the asked number (120 when none) but never more than
/// the ledger keeps.
pub fn tail_limit(limit: Option<usize>) -> (r: usize)
    ensures
        r == (match limit {
            Some(l) => if l < LEDGER_KEEP {
                l
            } else {
                LEDGER_KEEP
            },
            None => DEFAULT_TAIL,
        }),
{
    let l = match limit {
        Some(l) => l,
        None => DEFAULT_TAIL,
    };
    if l < LEDGER_KEEP {
        l
    } else {
        LEDGER_KEEP
    }
}

/// Each row's text followed by a newline.
pub open spec fn rows_text(lines: Seq<Seq<char>>) -> Seq<char>
    decreases lines.len(),
{
    if lines.len() == 0 {
        Seq::empty()
    } else {
        rows_text(lines.drop_last()) + lines.last() + seq!['\n']
    }
}

/// The ledger file's text from the rows' JSON texts: one row per line,
/// newline-terminated (a lone newline when there are no rows).
pub open spec fn ledger_text_spec(lines: Seq<Seq<char>>) -> Seq<char> {
    if lines.len() == 0 {
        seq!['\n']
    } else {
        rows_text(lines)
    }
}

/// The ledger file's text, from the JSON text of each row in order.
pub fn ledger_text(lines: &Vec<String>) -> (r: String)
    ensures
        r@ == ledger_text_spec(string_views(lines@)),
{
    let ghost all = string_views(lines@);
    let mut out = String::new();
    let mut i: usize = 0;
    while i < lines.len()
        invariant
            i <= lines@.len(),
            all == string_views(lines@),
            out@ == rows_text(all.take(i as int)),
        decreases lines.len() - i,
    {
        push_str(&mut out, lines[i].as_str());
        push_char(&mut out, '\n');
        proof {
            let t = all.take(i + 1);
            assert(t.drop_last() =~= all.take(i as int));
            assert(t.last() == lines@[i as int]@);
        }
        i += 1;
    }
    assert(all.take(i as int) =~= all);
    if lines.len() == 0 {
        push_char(&mut out, '\n');
        assert(Seq::<char>::empty().push('\n') =~= seq!['\n']);
    }
    out
}

/// The tail the inspector shows, with where the ledger lives.
pub fn tail_payload(entries: Vec<Json>, path: &str) -> (r: Json)
    ensures
        r@ == JsonView::Object(
            seq![("entries"@, JsonView::Array(seq_view(entries@))), ("path"@, JsonView::Str(path@))],
        ),
{
    let ghost ev = seq_view(entries@);
    let mut m = Vec::new();
    push_member(&mut m, "entries", Json::array(entries));
    push_member(&mut m, "path", Json::from_str(path));
    let r = Json::object(m);
    assert(members_view(m@) =~= seq![("entries"@, JsonView::Array(ev)), ("path"@, JsonView::Str(path@))]);
    r
}

/// The ledger file inside the data directory.
pub fn ledger_path(data_dir: &str) -> (r: String)
    ensures
        r@ == join_spec(data_dir@, "action-ledger.jsonl"@),
{
    join_path(data_dir, "action-ledger.jsonl")
}

/// A clamped text never exceeds its width (for a width of at least one), leaves a
/// text that fits untouched, and otherwise keeps a prefix of the text.
pub proof fn law_clamp_fits(s: Seq<char>, max: nat)
    ensures
        max >= 1 ==> clamp_spec(s, max).len() <= max,
        s.len() <= max ==> clamp_spec(s, max) == s,
        s.len() > max ==> clamp_spec(s, max).drop_last() == s.take(clamp_spec(s, max).len() - 1),
{
    if s.len() > max {
        let c = clamp_spec(s, max);
        assert(c.drop_last() =~= s.take(c.len() - 1));
    }
}

/// After an append the ledger holds at most `LEDGER_KEEP` rows, ends with the new row,
/// and keeps the rows before it in order (the newest of them).
pub proof fn law_append_is_bounded(rows: Seq<JsonView>, row: JsonView)
    ensures
        appended_spec(rows, row).len() <= LEDGER_KEEP,
        appended_spec(rows, row).last() == row,
        appended_spec(rows, row).drop_last() == last_n(
            rows,
            (appended_spec(rows, row).len() - 1) as nat,
        ),
{
    let all = rows.push(row);
    let a = appended_spec(rows, row);
    assert(a.last() == all.last());
    assert(a.drop_last() =~= last_n(rows, (a.len() - 1) as nat));
}

} // verus!
