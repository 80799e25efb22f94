//! Inspector parsers: repository and GitHub state for the working directory.
//!
//! The git and `gh` processes (with their timeouts) are the caller's; the text
//! they print is read here.
use vstd::prelude::*;
use crate::json::{
    as_array_spec, as_i64_spec, as_str_spec, member_lookup, members_view, obj_get, push_member,
    seq_view, Json, JsonView, Member, NumberView,
};
use crate::text::{
    chars_for_bytes, chars_in_bytes, chars_of, find_char, has_prefix, has_prefix_at, has_suffix,
    index_of, is_blank, is_blank_str, join_path, join_spec, line_at, occurs_in, str_contains,
    str_starts_with, lines_spec, push_range, push_str, split_spec, string_of_range,
    trail_count, trim_bounds, trim_spec,
};

verus! {

broadcast use vstd::string::group_string_axioms;

/// `str::trim_end_matches('/')`.
pub open spec fn trim_end_slashes(s: Seq<char>) -> Seq<char> {
    s.take(s.len() - trail_count(s, '/'))
}

/// Drops one `.git` suffix, if there is one.
pub open spec fn strip_git(t: Seq<char>) -> Seq<char> {
    if has_suffix(t, ".git"@) {
        t.take(t.len() - ".git"@.len())
    } else {
        t
    }
}

/// The URL trimmed, without trailing slashes and one `.git` suffix.
pub open spec fn remote_core(url: Seq<char>) -> Seq<char> {
    strip_git(trim_end_slashes(trim_spec(url)))
}

/// What follows a GitHub prefix: `https://github.com/`, `ssh://git@github.com/`,
/// or `git@github.com:`, tried in that order.
pub open spec fn github_rest(u: Seq<char>) -> Option<Seq<char>> {
    if has_prefix(u, "https://github.com/"@) {
        Some(u.skip("https://github.com/"@.len() as int))
    } else if has_prefix(u, "ssh://git@github.com/"@) {
        Some(u.skip("ssh://git@github.com/"@.len() as int))
    } else if has_prefix(u, "git@github.com:"@) {
        Some(u.skip("git@github.com:"@.len() as int))
    } else {
        None
    }
}

/// `owner/repo` from the first two `/`-separated segments; both must be non-empty.
pub open spec fn owner_repo(rest: Seq<char>) -> Option<Seq<char>> {
    match index_of(rest, '/') {
        None => None,
        Some(i) => {
            let owner = rest.take(i as int);
            let rem = rest.skip(i + 1 as int);
            let repo = match index_of(rem, '/') {
                Some(j) => rem.take(j as int),
                None => rem,
            };
            if owner.len() == 0 || repo.len() == 0 {
                None
            } else {
                Some(owner + "/"@ + repo)
            }
        },
    }
}

/// "owner/repo" of a GitHub origin remote URL, for the three shapes GitHub serves.
pub open spec fn parse_remote_repo_spec(url: Seq<char>) -> Option<Seq<char>> {
    match github_rest(remote_core(url)) {
        Some(rest) => owner_repo(rest),
        None => None,
    }
}

/// Does `v[a..e]` start with `p`?
fn starts_with_in(v: &[char], a: usize, e: usize, p: &[char]) -> (r: bool)
    requires
        a <= e <= v@.len(),
    ensures
        r == has_prefix(v@.subrange(a as int, e as int), p@),
{
    if e - a < p.len() {
        return false;
    }
    let r = has_prefix_at(v, a, p);
    assert(v@.skip(a as int).take(p@.len() as int) =~= v@.subrange(a as int, e as int).take(
        p@.len() as int,
    ));
    r
}

/// Does `v[a..b]` end with `p`?
fn ends_with_in(v: &[char], a: usize, b: usize, p: &[char]) -> (r: bool)
    requires
        a <= b <= v@.len(),
    ensures
        r == has_suffix(v@.subrange(a as int, b as int), p@),
{
    if b - a < p.len() {
        return false;
    }
    let r = has_prefix_at(v, b - p.len(), p);
    assert(v@.skip(b - p.len()).take(p@.len() as int) =~= v@.subrange(a as int, b as int).skip(
        b - a - p.len(),
    ));
    r
}

/// End of `v[a..b]` once its trailing slashes are dropped.
fn trim_slashes_end(v: &[char], a: usize, b: usize) -> (r: usize)
    requires
        a <= b <= v@.len(),
    ensures
        a <= r <= b,
        v@.subrange(a as int, r as int) == trim_end_slashes(v@.subrange(a as int, b as int)),
{
    let ghost t0 = v@.subrange(a as int, b as int);
    let mut e = b;
    while e > a && v[e - 1] == '/'
        invariant
            a <= e <= b <= v@.len(),
            t0 == v@.subrange(a as int, b as int),
            trail_count(t0, '/') == (b - e) + trail_count(v@.subrange(a as int, e as int), '/'),
        decreases e,
    {
        assert(v@.subrange(a as int, e as int).drop_last() =~= v@.subrange(a as int, e - 1));
        e -= 1;
    }
    assert(trim_end_slashes(t0) =~= v@.subrange(a as int, e as int));
    e
}

/// End of `v[a..b]` once one `.git` suffix is dropped.
fn strip_git_end(v: &[char], a: usize, b: usize) -> (r: usize)
    requires
        a <= b <= v@.len(),
    ensures
        a <= r <= b,
        v@.subrange(a as int, r as int) == strip_git(v@.subrange(a as int, b as int)),
{
    let git = chars_of(".git");
    if ends_with_in(v, a, b, &git) {
        let e = b - git.len();
        assert(v@.subrange(a as int, e as int) =~= v@.subrange(a as int, b as int).take(
            b - a - git@.len(),
        ));
        e
    } else {
        b
    }
}

/// Where what follows a GitHub prefix of `v[a..e]` starts.
fn github_rest_start(v: &[char], a: usize, e: usize) -> (r: Option<usize>)
    requires
        a <= e <= v@.len(),
    ensures
        match github_rest(v@.subrange(a as int, e as int)) {
            Some(rest) => r matches Some(s) && a <= s <= e && v@.subrange(s as int, e as int)
                == rest,
            None => r is None,
        },
{
    let ghost u = v@.subrange(a as int, e as int);
    let https = chars_of("https://github.com/");
    let ssh = chars_of("ssh://git@github.com/");
    let scp = chars_of("git@github.com:");
    let n: usize;
    if starts_with_in(v, a, e, &https) {
        n = https.len();
    } else if starts_with_in(v, a, e, &ssh) {
        n = ssh.len();
    } else if starts_with_in(v, a, e, &scp) {
        n = scp.len();
    } else {
        return None;
    }
    assert(u.skip(n as int) =~= v@.subrange(a + n, e as int));
    Some(a + n)
}

/// `owner/repo` from `v[s..e]`.
fn owner_repo_in(v: &[char], s: usize, e: usize) -> (r: Option<String>)
    requires
        s <= e <= v@.len(),
    ensures
        match owner_repo(v@.subrange(s as int, e as int)) {
            Some(x) => r matches Some(o) && o@ == x,
            None => r is None,
        },
{
    let ghost rest = v@.subrange(s as int, e as int);
    let slash = find_char(v, s, e, '/');
    if slash == e {
        return None;
    }
    assert(rest.take(slash - s) =~= v@.subrange(s as int, slash as int));
    assert(rest.skip(slash - s + 1) =~= v@.subrange(slash + 1, e as int));
    let slash2 = find_char(v, slash + 1, e, '/');
    assert(v@.subrange(slash + 1, e as int).take(slash2 - slash - 1) =~= v@.subrange(
        slash + 1,
        slash2 as int,
    ));
    if slash == s || slash2 == slash + 1 {
        return None;
    }
    let mut out = string_of_range(v, s, slash);
    push_str(&mut out, "/");
    push_range(&mut out, v, slash + 1, slash2);
    Some(out)
}

/// Parse an origin remote URL into "owner/repo". Handles the three shapes
/// GitHub actually serves: https, scp-like ssh, and ssh:// scheme.
pub fn parse_remote_repo(url: &str) -> (r: Option<String>)
    ensures
        match parse_remote_repo_spec(url@) {
            Some(s) => r matches Some(x) && x@ == s,
            None => r is None,
        },
{
    let v = chars_of(url);
    let (a, b0) = trim_bounds(&v, 0, v.len());
    assert(v@.subrange(0, v@.len() as int) =~= v@);
    let b = trim_slashes_end(&v, a, b0);
    let e = strip_git_end(&v, a, b);
    match github_rest_start(&v, a, e) {
        Some(start) => owner_repo_in(&v, start, e),
        None => None,
    }
}

/// One commit row of the log.
pub struct CommitRow {
    pub hash: String,
    pub subject: String,
    pub when: String,
}

pub struct CommitView {
    pub hash: Seq<char>,
    pub subject: Seq<char>,
    pub when: Seq<char>,
}

impl View for CommitRow {
    type V = CommitView;

    open spec fn view(&self) -> CommitView {
        CommitView { hash: self.hash@, subject: self.subject@, when: self.when@ }
    }
}

/// The row one `\x1e`-separated entry gives, if any: its `\x1f`-separated fields,
/// trimmed; a hash and a subject are required, the relative date may be missing.
pub open spec fn commit_of(entry: Seq<char>) -> Option<CommitView> {
    let t = trim_spec(entry);
    let parts = split_spec(t, '\u{1f}');
    if t.len() == 0 || parts.len() < 2 {
        None
    } else {
        let hash = trim_spec(parts[0]);
        let subject = trim_spec(parts[1]);
        let when = if parts.len() >= 3 {
            trim_spec(parts[2])
        } else {
            Seq::empty()
        };
        if hash.len() == 0 || subject.len() == 0 {
            None
        } else {
            Some(CommitView { hash, subject, when })
        }
    }
}

/// The rows of all entries, in order.
pub open spec fn commits_of(entries: Seq<Seq<char>>) -> Seq<CommitView>
    decreases entries.len(),
{
    if entries.len() == 0 {
        Seq::empty()
    } else {
        let r = commits_of(entries.drop_last());
        match commit_of(entries.last()) {
            Some(c) => r.push(c),
            None => r,
        }
    }
}

/// `git log --pretty=%h%x1f%s%x1f%cr%x1e` read as rows.
pub open spec fn parse_git_log_spec(raw: Seq<char>) -> Seq<CommitView> {
    commits_of(split_spec(raw, '\u{1e}'))
}

pub open spec fn commits_view(s: Seq<CommitRow>) -> Seq<CommitView> {
    s.map_values(|c: CommitRow| c@)
}

/// `split_spec` at a separator found at `i`.
proof fn lemma_split_at(s: Seq<char>, c: char, i: int)
    requires
        0 <= i < s.len(),
        s[i] == c,
        forall|j: int| 0 <= j < i ==> s[j] != c,
    ensures
        split_spec(s, c) == seq![s.take(i)] + split_spec(s.skip(i + 1), c),
{
    crate::text::lemma_index_of_is(s, c, i);
}

proof fn lemma_split_none(s: Seq<char>, c: char)
    requires
        forall|j: int| 0 <= j < s.len() ==> s[j] != c,
    ensures
        split_spec(s, c) == seq![s],
{
    crate::text::lemma_index_of_is(s, c, s.len() as int);
}

/// Bounds of the `k`-th `c`-separated field of `v[from..to]`, for `k` < 3.
fn commit_of_range(v: &[char], from: usize, to: usize) -> (r: Option<CommitRow>)
    requires
        from <= to <= v@.len(),
    ensures
        match commit_of(v@.subrange(from as int, to as int)) {
            Some(c) => r matches Some(x) && x@ == c,
            None => r is None,
        },
{
    let ghost entry = v@.subrange(from as int, to as int);
    let (a, b) = trim_bounds(v, from, to);
    let ghost t = v@.subrange(a as int, b as int);
    if a == b {
        return None;
    }
    let us = '\u{1f}';
    let p1 = find_char(v, a, b, us);
    if p1 == b {
        proof {
            crate::text::lemma_index_of(t, us);
            lemma_split_none(t, us);
        }
        return None;
    }
    proof {
        crate::text::lemma_index_of(t, us);
        lemma_split_at(t, us, p1 - a);
        assert(t.take(p1 - a) =~= v@.subrange(a as int, p1 as int));
        assert(t.skip(p1 - a + 1) =~= v@.subrange(p1 + 1, b as int));
    }
    let p2 = find_char(v, p1 + 1, b, us);
    let ghost t2 = v@.subrange(p1 + 1, b as int);
    proof {
        crate::text::lemma_index_of(t2, us);
        if p2 < b {
            lemma_split_at(t2, us, p2 - p1 - 1);
            assert(t2.take(p2 - p1 - 1) =~= v@.subrange(p1 + 1, p2 as int));
            assert(t2.skip(p2 - p1 - 1 + 1) =~= v@.subrange(p2 + 1, b as int));
        } else {
            lemma_split_none(t2, us);
        }
    }
    let (h0, h1) = trim_bounds(v, a, p1);
    let (s0, s1) = trim_bounds(v, p1 + 1, p2);
    if h0 == h1 || s0 == s1 {
        return None;
    }
    let when = if p2 < b {
        let p3 = find_char(v, p2 + 1, b, us);
        let ghost t3 = v@.subrange(p2 + 1, b as int);
        proof {
            crate::text::lemma_index_of(t3, us);
            if p3 < b {
                lemma_split_at(t3, us, p3 - p2 - 1);
                assert(t3.take(p3 - p2 - 1) =~= v@.subrange(p2 + 1, p3 as int));
            } else {
                lemma_split_none(t3, us);
            }
        }
        let (w0, w1) = trim_bounds(v, p2 + 1, p3);
        string_of_range(v, w0, w1)
    } else {
        String::new()
    };
    Some(
        CommitRow {
            hash: string_of_range(v, h0, h1),
            subject: string_of_range(v, s0, s1),
            when: when,
        },
    )
}

/// Parse `git log --pretty=%h%x1f%s%x1f%cr%x1e` into rows.
pub fn parse_git_log(raw: &str) -> (r: Vec<CommitRow>)
    ensures
        commits_view(r@) == parse_git_log_spec(raw@),
{
    let v = chars_of(raw);
    let n = v.len();
    let rs = '\u{1e}';
    let mut out: Vec<CommitRow> = Vec::new();
    let mut pos: usize = 0;
    let ghost mut done: Seq<Seq<char>> = Seq::empty();
    assert(v@.skip(0) =~= v@);
    loop
        invariant_except_break
            pos <= n == v@.len(),
            v@ == raw@,
            rs == '\u{1e}',
            split_spec(v@, rs) == done + split_spec(v@.skip(pos as int), rs),
            commits_view(out@) == commits_of(done),
        ensures
            commits_view(out@) == parse_git_log_spec(raw@),
        decreases n - pos,
    {
        let e = find_char(&v, pos, n, rs);
        let ghost rest = v@.skip(pos as int);
        assert(v@.subrange(pos as int, n as int) =~= rest);
        let row = commit_of_range(&v, pos, e);
        assert(v@.subrange(pos as int, e as int) =~= rest.take(e - pos));
        let ghost prev = out@;
        match row {
            Some(c) => {
                out.push(c);
            },
            None => {},
        }
        if e == n {
            proof {
                crate::text::lemma_index_of(rest, rs);
                lemma_split_none(rest, rs);
                assert(rest.take(e - pos) =~= rest);
                let d2 = done.push(rest);
                assert(d2.drop_last() =~= done);
                assert(split_spec(v@, rs) =~= d2);
                assert(commits_view(out@) =~= commits_of(d2));
            }
            break;
        }
        proof {
            crate::text::lemma_index_of(rest, rs);
            lemma_split_at(rest, rs, e - pos);
            assert(rest.skip(e - pos + 1) =~= v@.skip(e + 1));
            let d2 = done.push(rest.take(e - pos));
            assert(d2.drop_last() =~= done);
            assert(commits_view(out@) =~= commits_of(d2));
            assert(done + split_spec(rest, rs) =~= d2 + split_spec(v@.skip(e + 1), rs));
            done = d2;
        }
        pos = e + 1;
    }
    out
}

/// One row of `git status --porcelain`.
pub struct StatusRow {
    pub status: String,
    pub path: String,
}

pub struct StatusView {
    pub status: Seq<char>,
    pub path: Seq<char>,
}

impl View for StatusRow {
    type V = StatusView;

    open spec fn view(&self) -> StatusView {
        StatusView { status: self.status@, path: self.path@ }
    }
}

/// The lines that are not blank, in order.
pub open spec fn nonblank_lines(ls: Seq<Seq<char>>) -> Seq<Seq<char>>
    decreases ls.len(),
{
    if ls.len() == 0 {
        Seq::empty()
    } else if is_blank(ls[0]) {
        nonblank_lines(ls.drop_first())
    } else {
        seq![ls[0]] + nonblank_lines(ls.drop_first())
    }
}

/// A porcelain line read as a row: its first two bytes (or `??`) and what follows its
/// third byte (or nothing), both trimmed.
pub open spec fn status_of(line: Seq<char>) -> StatusView {
    StatusView {
        status: match chars_in_bytes(line, 2) {
            Some(k) => trim_spec(line.take(k as int)),
            None => "??"@,
        },
        path: match chars_in_bytes(line, 3) {
            Some(k) => trim_spec(line.skip(k as int)),
            None => Seq::empty(),
        },
    }
}

pub open spec fn status_views(rows: Seq<StatusRow>) -> Seq<StatusView> {
    rows.map_values(|r: StatusRow| r@)
}

pub open spec fn statuses_of(ls: Seq<Seq<char>>) -> Seq<StatusView> {
    ls.map_values(|l: Seq<char>| status_of(l))
}

/// The rows of the first `max` non-blank lines.
pub open spec fn status_rows_spec(raw: Seq<char>, max: nat) -> Seq<StatusView> {
    let ls = nonblank_lines(lines_spec(raw));
    statuses_of(
        ls.take(
            if max < ls.len() {
                max as int
            } else {
                ls.len() as int
            },
        ),
    )
}

/// The row of `v[from..to]`.
fn status_row_of(v: &[char], from: usize, to: usize) -> (r: StatusRow)
    requires
        from <= to <= v@.len(),
    ensures
        r@ == status_of(v@.subrange(from as int, to as int)),
{
    let ghost line = v@.subrange(from as int, to as int);
    let status = match chars_for_bytes(v, from, to, 2) {
        Some(k) => {
            let (a, b) = trim_bounds(v, from, from + k);
            assert(line.take(k as int) =~= v@.subrange(from as int, from + k));
            string_of_range(v, a, b)
        },
        None => {
            let mut q = String::new();
            push_str(&mut q, "??");
            q
        },
    };
    let path = match chars_for_bytes(v, from, to, 3) {
        Some(k) => {
            let (a, b) = trim_bounds(v, from + k, to);
            assert(line.skip(k as int) =~= v@.subrange(from + k, to as int));
            string_of_range(v, a, b)
        },
        None => String::new(),
    };
    StatusRow { status, path }
}

/// Parse `git status --porcelain` into (first entries, total count).
pub fn parse_status_lines(raw: &str, max: usize) -> (r: (Vec<StatusRow>, usize))
    ensures
        r.1 == nonblank_lines(lines_spec(raw@)).len(),
        status_views(r.0@) == status_rows_spec(raw@, max as nat),
{
    let v = chars_of(raw);
    let n = v.len();
    let mut rows: Vec<StatusRow> = Vec::new();
    let mut total: usize = 0;
    let mut pos: usize = 0;
    let ghost mut kept: Seq<Seq<char>> = Seq::empty();
    assert(v@.skip(0) =~= v@);
    while pos < n
        invariant
            pos <= n == v@.len(),
            v@ == raw@,
            total <= pos,
            total == kept.len(),
            nonblank_lines(lines_spec(v@)) == kept + nonblank_lines(lines_spec(v@.skip(pos as int))),
            status_views(rows@) == statuses_of(
                kept.take(
                    if max < kept.len() {
                        max as int
                    } else {
                        kept.len() as int
                    },
                ),
            ),
        decreases n - pos,
    {
        let (end, next) = line_at(&v, pos);
        let ghost line = v@.subrange(pos as int, end as int);
        let ghost after = lines_spec(v@.skip(next as int));
        proof {
            let ls = seq![line] + after;
            assert(ls[0] == line);
            assert(ls.drop_first() =~= after);
        }
        let (a, b) = trim_bounds(&v, pos, end);
        if a < b {
            if total < max {
                let row = status_row_of(&v, pos, end);
                rows.push(row);
            }
            proof {
                let k2 = kept.push(line);
                assert(kept + (seq![line] + nonblank_lines(after)) =~= k2 + nonblank_lines(after));
                if kept.len() < max {
                    assert(k2.take(k2.len() as int) =~= kept.take(kept.len() as int).push(line));
                    assert(statuses_of(kept.take(kept.len() as int).push(line)) =~= statuses_of(
                        kept.take(kept.len() as int),
                    ).push(status_of(line)));
                    assert(status_views(rows@) =~= statuses_of(kept.take(kept.len() as int)).push(
                        status_of(line),
                    ));
                } else {
                    assert(k2.take(max as int) =~= kept.take(max as int));
                }
                kept = k2;
            }
            total += 1;
        }
        pos = next;
    }
    proof {
        assert(v@.skip(n as int) =~= Seq::<char>::empty());
        assert(lines_spec(Seq::<char>::empty()) == Seq::<Seq<char>>::empty());
        assert(kept + Seq::<Seq<char>>::empty() =~= kept);
    }
    (rows, total)
}

// ------------------------------------------------------------ settings

/// The settings a fresh install starts from.
pub open spec fn default_settings_spec() -> JsonView {
    JsonView::Object(
        seq![
            ("active_persona"@, JsonView::Null),
            ("default_cwd"@, JsonView::Str(""@)),
            ("error_report_level"@, JsonView::Str("errors"@)),
            ("inspector_auto_open"@, JsonView::Bool(false)),
            ("personas"@, JsonView::Array(Seq::empty())),
            ("version"@, JsonView::Number(NumberView::PosInt(1))),
            (
                "watched_repos"@,
                JsonView::Array(
                    seq![
                        JsonView::Str("t-granlund/spruce-grove-os"@),
                        JsonView::Str("t-granlund/spruce-grove-desktop"@),
                    ],
                ),
            ),
        ],
    )
}

pub fn default_settings() -> (r: Json)
    ensures
        r@ == default_settings_spec(),
{
    let mut repos: Vec<Json> = Vec::new();
    repos.push(Json::from_str("t-granlund/spruce-grove-os"));
    repos.push(Json::from_str("t-granlund/spruce-grove-desktop"));
    let ghost rv = seq_view(repos@);
    let mut m: Vec<Member> = Vec::new();
    push_member(&mut m, "active_persona", Json::Null);
    push_member(&mut m, "default_cwd", Json::from_str(""));
    push_member(&mut m, "error_report_level", Json::from_str("errors"));
    push_member(&mut m, "inspector_auto_open", Json::Bool(false));
    push_member(&mut m, "personas", Json::array(Vec::new()));
    push_member(&mut m, "version", Json::uint(1));
    push_member(&mut m, "watched_repos", Json::array(repos));
    let r = Json::object(m);
    proof {
        assert(seq_view(Seq::<Json>::empty()) =~= Seq::<JsonView>::empty());
        assert(rv =~= seq![
            JsonView::Str("t-granlund/spruce-grove-os"@),
            JsonView::Str("t-granlund/spruce-grove-desktop"@),
        ]);
        assert(members_view(m@) =~= default_settings_spec()->Object_0);
    }
    r
}

/// Why settings were refused.
#[derive(Debug, PartialEq, Eq, Structural)]
pub enum SettingsError {
    NotObject,
    BadVersion,
    PersonasNotArray,
    PersonaNameMissing,
    PersonaNameEmpty,
}

impl SettingsError {
    /// The message the settings editor shows.
    pub fn message(&self) -> (r: &'static str)
        ensures
            r@ == match self {
                SettingsError::NotObject => "settings must be an object"@,
                SettingsError::BadVersion => "settings.version must be 1"@,
                SettingsError::PersonasNotArray => "personas must be an array"@,
                SettingsError::PersonaNameMissing => "each persona needs a string name"@,
                SettingsError::PersonaNameEmpty => "persona name cannot be empty"@,
            },
    {
        match self {
            SettingsError::NotObject => "settings must be an object",
            SettingsError::BadVersion => "settings.version must be 1",
            SettingsError::PersonasNotArray => "personas must be an array",
            SettingsError::PersonaNameMissing => "each persona needs a string name",
            SettingsError::PersonaNameEmpty => "persona name cannot be empty",
        }
    }
}

/// A persona's `name`, when it is a string.
pub open spec fn persona_name(p: JsonView) -> Option<Seq<char>> {
    match obj_get(p, "name"@) {
        Some(n) => as_str_spec(n),
        None => None,
    }
}

/// The first fault among the personas, in order.
pub open spec fn personas_fault(ps: Seq<JsonView>) -> Option<SettingsError>
    decreases ps.len(),
{
    if ps.len() == 0 {
        None
    } else {
        match persona_name(ps[0]) {
            None => Some(SettingsError::PersonaNameMissing),
            Some(n) => if is_blank(n) {
                Some(SettingsError::PersonaNameEmpty)
            } else {
                personas_fault(ps.drop_first())
            },
        }
    }
}

/// An object whose `version` is the integer 1, and whose `personas`, when present,
/// is an array of objects with a non-blank string `name`.
pub open spec fn settings_verdict(v: JsonView) -> Result<(), SettingsError> {
    match v {
        JsonView::Object(m) => {
            let version = match member_lookup(m, "version"@) {
                Some(x) => as_i64_spec(x),
                None => None,
            };
            if version != Some(1i64) {
                Err(SettingsError::BadVersion)
            } else {
                match member_lookup(m, "personas"@) {
                    None => Ok(()),
                    Some(p) => match as_array_spec(p) {
                        None => Err(SettingsError::PersonasNotArray),
                        Some(arr) => match personas_fault(arr) {
                            Some(e) => Err(e),
                            None => Ok(()),
                        },
                    },
                }
            }
        },
        _ => Err(SettingsError::NotObject),
    }
}

/// Light, honest validation: object, version 1, personas well-formed.
/// The point is catching a hand-edited file early, not a schema engine.
pub fn validate_settings(v: &Json) -> (r: Result<(), SettingsError>)
    ensures
        r == settings_verdict(v@),
{
    match v {
        Json::Object(_) => {},
        _ => {
            return Err(SettingsError::NotObject);
        },
    }
    proof {
        match v {
            Json::Object(m) => {
                crate::json::lemma_view_object(*m);
            },
            _ => {},
        }
    }
    let version = match v.get("version") {
        Some(x) => x.as_i64(),
        None => None,
    };
    if version != Some(1i64) {
        return Err(SettingsError::BadVersion);
    }
    match v.get("personas") {
        None => Ok(()),
        Some(p) => match p.as_array() {
            None => Err(SettingsError::PersonasNotArray),
            Some(arr) => {
                let ghost av = seq_view(arr@);
                let mut i: usize = 0;
                assert(av.skip(0) =~= av);
                assert(settings_verdict(v@) == match personas_fault(av) {
                    Some(e) => Err(e),
                    None => Ok(()),
                });
                while i < arr.len()
                    invariant
                        i <= arr@.len(),
                        av == seq_view(arr@),
                        settings_verdict(v@) == match personas_fault(av) {
                            Some(e) => Err(e),
                            None => Ok::<(), SettingsError>(()),
                        },
                        personas_fault(av) == personas_fault(av.skip(i as int)),
                    decreases arr.len() - i,
                {
                    let ghost rest = av.skip(i as int);
                    assert(rest[0] == arr@[i as int]@);
                    assert(rest.drop_first() =~= av.skip(i + 1));
                    let name = match arr[i].get("name") {
                        Some(n) => n.as_str(),
                        None => None,
                    };
                    match name {
                        None => {
                            return Err(SettingsError::PersonaNameMissing);
                        },
                        Some(s) => {
                            if is_blank_str(s) {
                                return Err(SettingsError::PersonaNameEmpty);
                            }
                        },
                    }
                    i += 1;
                }
                assert(av.skip(i as int) =~= Seq::<JsonView>::empty());
                Ok(())
            },
        },
    }
}

/// A persona passes when its `name` is a string that is not blank.
pub open spec fn persona_ok(p: JsonView) -> bool {
    persona_name(p) matches Some(n) && !is_blank(n)
}

/// The personas have no fault exactly when every one of them passes.
proof fn lemma_personas_fault(ps: Seq<JsonView>)
    ensures
        personas_fault(ps) is None <==> forall|i: int| 0 <= i < ps.len() ==> #[trigger] persona_ok(ps[i]),
    decreases ps.len(),
{
    if ps.len() > 0 {
        lemma_personas_fault(ps.drop_first());
        if personas_fault(ps) is None {
            assert forall|i: int| 0 <= i < ps.len() implies #[trigger] persona_ok(ps[i]) by {
                if i > 0 {
                    assert(ps[i] == ps.drop_first()[i - 1]);
                }
            }
        } else if persona_ok(ps[0]) {
            let j = choose|j: int| 0 <= j < ps.drop_first().len() && !#[trigger] persona_ok(ps.drop_first()[j]);
            assert(!persona_ok(ps[j + 1]));
        }
    }
}

/// Settings pass validation exactly when they are an object, their `version` is the
/// integer 1, and `personas` is absent or an array each of whose entries has a
/// string `name` that is not blank.
pub proof fn law_settings_pass_exactly_when_well_formed(v: JsonView)
    ensures
        settings_verdict(v) is Ok <==> ({
            &&& v is Object
            &&& (match obj_get(v, "version"@) {
                Some(x) => as_i64_spec(x),
                None => None,
            }) == Some(1i64)
            &&& match obj_get(v, "personas"@) {
                None => true,
                Some(p) => as_array_spec(p) matches Some(arr) && forall|i: int|
                    0 <= i < arr.len() ==> #[trigger] persona_ok(arr[i]),
            }
        }),
{
    if let Some(p) = obj_get(v, "personas"@) {
        if let Some(arr) = as_array_spec(p) {
            lemma_personas_fault(arr);
        }
    }
}

/// The settings a fresh install starts from pass validation.
pub proof fn law_default_settings_are_valid()
    ensures
        settings_verdict(default_settings_spec()) == Ok::<(), SettingsError>(()),
{
    reveal_strlit("active_persona");
    reveal_strlit("default_cwd");
    reveal_strlit("error_report_level");
    reveal_strlit("inspector_auto_open");
    reveal_strlit("personas");
    reveal_strlit("version");
    reveal_strlit("watched_repos");
    let m = default_settings_spec()->Object_0;
    reveal_with_fuel(member_lookup, 8);
    assert(m[0].0[0] != "version"@[0]);
    assert(m[1].0[0] != "version"@[0]);
    assert(m[2].0[0] != "version"@[0]);
    assert(m[3].0[0] != "version"@[0]);
    assert(m[4].0[0] != "version"@[0]);
    assert(m[0].0[0] != "personas"@[0]);
    assert(m[1].0[0] != "personas"@[0]);
    assert(m[2].0[0] != "personas"@[0]);
    assert(m[3].0[0] != "personas"@[0]);
    assert(member_lookup(m, "version"@) == Some(JsonView::Number(NumberView::PosInt(1))));
    assert(member_lookup(m, "personas"@) == Some(JsonView::Array(Seq::<JsonView>::empty())));
}

// ------------------------------------------------------------ payloads

pub open spec fn jstr(s: Seq<char>) -> JsonView {
    JsonView::Str(s)
}

pub open spec fn commit_json(c: CommitView) -> JsonView {
    JsonView::Object(seq![("hash"@, jstr(c.hash)), ("subject"@, jstr(c.subject)), ("when"@, jstr(c.when))])
}

pub open spec fn status_json(s: StatusView) -> JsonView {
    JsonView::Object(seq![("path"@, jstr(s.path)), ("status"@, jstr(s.status))])
}

/// The GitHub pages of `owner/repo`.
pub open spec fn github_urls_spec(repo: Seq<char>) -> JsonView {
    let base = "https://github.com/"@ + repo;
    JsonView::Object(
        seq![
            ("actions"@, jstr(base + "/actions"@)),
            ("commits"@, jstr(base + "/commits"@)),
            ("issues"@, jstr(base + "/issues"@)),
            ("pulls"@, jstr(base + "/pulls"@)),
            ("repo"@, jstr(base)),
        ],
    )
}

/// What the GitHub section says when the origin remote is not on GitHub.
pub open spec fn no_github_remote_spec() -> JsonView {
    JsonView::Object(seq![("gh_ok"@, JsonView::Bool(false)), ("note"@, jstr("no github origin remote"@))])
}

/// Everything the inspector's repo/github sections render: the branch, the first
/// eight dirty paths and their count, the commits, the GitHub repository of the
/// origin remote with its pages, and the GitHub section (`github` when the remote is
/// on GitHub).
pub open spec fn repo_payload_spec(
    branch: Seq<char>,
    status_raw: Seq<char>,
    log_raw: Seq<char>,
    remote: Seq<char>,
    github: JsonView,
) -> JsonView {
    let parsed = parse_remote_repo_spec(remote);
    JsonView::Object(
        seq![
            ("branch"@, jstr(branch)),
            ("commits"@, JsonView::Array(parse_git_log_spec(log_raw).map_values(|c: CommitView| commit_json(c)))),
            ("dirty"@, JsonView::Array(status_rows_spec(status_raw, 8).map_values(|s: StatusView| status_json(s)))),
            (
                "dirty_total"@,
                JsonView::Number(NumberView::PosInt(nonblank_lines(lines_spec(status_raw)).len() as u64)),
            ),
            ("github"@, if parsed is Some { github } else { no_github_remote_spec() }),
            ("repo"@, match parsed {
                Some(r) => jstr(r),
                None => JsonView::Null,
            }),
            ("urls"@, match parsed {
                Some(r) => github_urls_spec(r),
                None => JsonView::Null,
            }),
        ],
    )
}

/// `text` followed by `tail`.
fn concat(text: &str, tail: &str) -> (r: String)
    ensures
        r@ == text@ + tail@,
{
    let mut out = String::new();
    push_str(&mut out, text);
    push_str(&mut out, tail);
    assert(Seq::<char>::empty() + text@ + tail@ =~= text@ + tail@);
    out
}

/// The GitHub pages of `owner/repo`.
pub fn github_urls(repo: &str) -> (r: Json)
    ensures
        r@ == github_urls_spec(repo@),
{
    let base = concat("https://github.com/", repo);
    let mut m: Vec<Member> = Vec::new();
    push_member(&mut m, "actions", Json::Str(concat(base.as_str(), "/actions")));
    push_member(&mut m, "commits", Json::Str(concat(base.as_str(), "/commits")));
    push_member(&mut m, "issues", Json::Str(concat(base.as_str(), "/issues")));
    push_member(&mut m, "pulls", Json::Str(concat(base.as_str(), "/pulls")));
    push_member(&mut m, "repo", Json::Str(base));
    let r = Json::object(m);
    assert(members_view(m@) =~= github_urls_spec(repo@)->Object_0);
    r
}

/// What the GitHub section says when the origin remote is not on GitHub.
pub fn no_github_remote() -> (r: Json)
    ensures
        r@ == no_github_remote_spec(),
{
    let mut m: Vec<Member> = Vec::new();
    push_member(&mut m, "gh_ok", Json::Bool(false));
    push_member(&mut m, "note", Json::from_str("no github origin remote"));
    let r = Json::object(m);
    assert(members_view(m@) =~= no_github_remote_spec()->Object_0);
    r
}

fn commits_json(rows: &Vec<CommitRow>) -> (r: Json)
    ensures
        r@ == JsonView::Array(commits_view(rows@).map_values(|c: CommitView| commit_json(c))),
{
    let mut out: Vec<Json> = Vec::new();
    let mut i: usize = 0;
    while i < rows.len()
        invariant
            i <= rows@.len(),
            seq_view(out@) == commits_view(rows@).take(i as int).map_values(
                |c: CommitView| commit_json(c),
            ),
        decreases rows.len() - i,
    {
        let row = &rows[i];
        let mut m: Vec<Member> = Vec::new();
        push_member(&mut m, "hash", Json::Str(row.hash.clone()));
        push_member(&mut m, "subject", Json::Str(row.subject.clone()));
        push_member(&mut m, "when", Json::Str(row.when.clone()));
        let j = Json::object(m);
        assert(members_view(m@) =~= commit_json(row@)->Object_0);
        let ghost before = seq_view(out@);
        out.push(j);
        assert(seq_view(out@) =~= before.push(commit_json(row@)));
        assert(commits_view(rows@).take(i + 1) =~= commits_view(rows@).take(i as int).push(row@));
        i += 1;
    }
    assert(commits_view(rows@).take(i as int) =~= commits_view(rows@));
    Json::array(out)
}

fn statuses_json(rows: &Vec<StatusRow>) -> (r: Json)
    ensures
        r@ == JsonView::Array(status_views(rows@).map_values(|s: StatusView| status_json(s))),
{
    let mut out: Vec<Json> = Vec::new();
    let mut i: usize = 0;
    while i < rows.len()
        invariant
            i <= rows@.len(),
            seq_view(out@) == status_views(rows@).take(i as int).map_values(
                |s: StatusView| status_json(s),
            ),
        decreases rows.len() - i,
    {
        let row = &rows[i];
        let mut m: Vec<Member> = Vec::new();
        push_member(&mut m, "path", Json::Str(row.path.clone()));
        push_member(&mut m, "status", Json::Str(row.status.clone()));
        let j = Json::object(m);
        assert(members_view(m@) =~= status_json(row@)->Object_0);
        let ghost before = seq_view(out@);
        out.push(j);
        assert(seq_view(out@) =~= before.push(status_json(row@)));
        assert(status_views(rows@).take(i + 1) =~= status_views(rows@).take(i as int).push(row@));
        i += 1;
    }
    assert(status_views(rows@).take(i as int) =~= status_views(rows@));
    Json::array(out)
}

/// Everything the inspector's repo/github sections render, in one value, from what
/// git printed: the branch (`None` when git could not name one), `status
/// --porcelain`, the log, and the origin remote's URL. `github` is the GitHub
/// section for the remote's repository; it is used only when the remote is on GitHub.
pub fn repo_state(branch: Option<&str>, status_raw: &str, log_raw: &str, remote: &str, github: Json) -> (r:
    Result<Json, String>)
    ensures
        match branch {
            None => r matches Err(e) && e@ == "not a git repository (or git unavailable)"@,
            Some(b) => r matches Ok(v) && v@ == repo_payload_spec(
                b@,
                status_raw@,
                log_raw@,
                remote@,
                github@,
            ),
        },
{
    let b = match branch {
        Some(b) => b,
        None => {
            let mut e = String::new();
            push_str(&mut e, "not a git repository (or git unavailable)");
            return Err(e);
        },
    };
    let ghost gv = github@;
    let (dirty, dirty_total) = parse_status_lines(status_raw, 8);
    let commits = parse_git_log(log_raw);
    let parsed = parse_remote_repo(remote);
    let (gh, repo, urls) = match parsed {
        Some(rp) => {
            let u = github_urls(rp.as_str());
            (github, Json::Str(rp), u)
        },
        None => (no_github_remote(), Json::Null, Json::Null),
    };
    let mut m: Vec<Member> = Vec::new();
    push_member(&mut m, "branch", Json::from_str(b));
    push_member(&mut m, "commits", commits_json(&commits));
    push_member(&mut m, "dirty", statuses_json(&dirty));
    push_member(&mut m, "dirty_total", Json::uint(dirty_total as u64));
    push_member(&mut m, "github", gh);
    push_member(&mut m, "repo", repo);
    push_member(&mut m, "urls", urls);
    let r = Json::object(m);
    assert(members_view(m@) =~= repo_payload_spec(b@, status_raw@, log_raw@, remote@, gv)->Object_0);
    Ok(r)
}

// ------------------------------------------------------------ github

/// The GitHub section when no `gh` binary was found.
pub open spec fn gh_missing_spec() -> JsonView {
    JsonView::Object(seq![("gh_ok"@, JsonView::Bool(false)), ("note"@, jstr("gh not installed"@))])
}

pub open spec fn or_empty_array(v: Option<JsonView>) -> JsonView {
    match v {
        Some(x) => x,
        None => JsonView::Array(Seq::empty()),
    }
}

/// The GitHub section from what `gh pr list` and `gh run list` returned (`None` for a
/// call that failed or printed no JSON): both lists when either came back, else a note.
pub open spec fn gh_payload_spec(repo: Seq<char>, prs: Option<JsonView>, runs: Option<JsonView>) -> JsonView {
    if prs is Some || runs is Some {
        JsonView::Object(
            seq![
                ("gh_ok"@, JsonView::Bool(true)),
                ("prs"@, or_empty_array(prs)),
                ("repo"@, jstr(repo)),
                ("runs"@, or_empty_array(runs)),
            ],
        )
    } else {
        JsonView::Object(
            seq![("gh_ok"@, JsonView::Bool(false)), ("note"@, jstr("gh unavailable or not authed"@))],
        )
    }
}

pub open spec fn opt_json_view(v: Option<Json>) -> Option<JsonView> {
    match v {
        Some(x) => Some(x@),
        None => None,
    }
}

/// The GitHub section when no `gh` binary was found.
pub fn gh_missing() -> (r: Json)
    ensures
        r@ == gh_missing_spec(),
{
    let mut m: Vec<Member> = Vec::new();
    push_member(&mut m, "gh_ok", Json::Bool(false));
    push_member(&mut m, "note", Json::from_str("gh not installed"));
    let r = Json::object(m);
    assert(members_view(m@) =~= gh_missing_spec()->Object_0);
    r
}

fn or_empty(v: Option<Json>) -> (r: Json)
    ensures
        r@ == or_empty_array(opt_json_view(v)),
{
    match v {
        Some(x) => x,
        None => {
            let r = Json::array(Vec::new());
            assert(seq_view(Seq::<Json>::empty()) =~= Seq::<JsonView>::empty());
            r
        },
    }
}

/// Pull requests + workflow runs, or an honest note when `gh` answered neither.
pub fn gh_payload(repo: &str, prs: Option<Json>, runs: Option<Json>) -> (r: Json)
    ensures
        r@ == gh_payload_spec(repo@, opt_json_view(prs), opt_json_view(runs)),
{
    let ghost (pv, rv) = (opt_json_view(prs), opt_json_view(runs));
    let mut m: Vec<Member> = Vec::new();
    if prs.is_some() || runs.is_some() {
        push_member(&mut m, "gh_ok", Json::Bool(true));
        push_member(&mut m, "prs", or_empty(prs));
        push_member(&mut m, "repo", Json::from_str(repo));
        push_member(&mut m, "runs", or_empty(runs));
    } else {
        push_member(&mut m, "gh_ok", Json::Bool(false));
        push_member(&mut m, "note", Json::from_str("gh unavailable or not authed"));
    }
    let r = Json::object(m);
    assert(members_view(m@) =~= gh_payload_spec(repo@, pv, rv)->Object_0);
    r
}

/// The repositories watched when the caller names none: those of the default settings.
pub fn default_watched_repos() -> (r: Vec<String>)
    ensures
        r@.len() == 2,
        r@[0]@ == "t-granlund/spruce-grove-os"@,
        r@[1]@ == "t-granlund/spruce-grove-desktop"@,
{
    let mut v: Vec<String> = Vec::new();
    let mut a = String::new();
    push_str(&mut a, "t-granlund/spruce-grove-os");
    v.push(a);
    let mut b = String::new();
    push_str(&mut b, "t-granlund/spruce-grove-desktop");
    v.push(b);
    v
}

/// One row of the access table: `gh repo view`'s `viewerPermission` when the call
/// answered (`null` when the answer lacks it), else a failed row.
pub open spec fn access_row_spec(repo: Seq<char>, reply: Option<JsonView>) -> JsonView {
    match reply {
        Some(v) => JsonView::Object(
            seq![
                ("ok"@, JsonView::Bool(true)),
                ("permission"@, match obj_get(v, "viewerPermission"@) {
                    Some(p) => p,
                    None => JsonView::Null,
                }),
                ("repo"@, jstr(repo)),
            ],
        ),
        None => JsonView::Object(
            seq![("ok"@, JsonView::Bool(false)), ("permission"@, JsonView::Null), ("repo"@, jstr(repo))],
        ),
    }
}

/// One row of the access table.
pub fn access_row(repo: &str, reply: Option<&Json>) -> (r: Json)
    ensures
        r@ == access_row_spec(
            repo@,
            match reply {
                Some(v) => Some(v@),
                None => None,
            },
        ),
{
    let mut m: Vec<Member> = Vec::new();
    match reply {
        Some(v) => {
            push_member(&mut m, "ok", Json::Bool(true));
            let p = match v.get("viewerPermission") {
                Some(p) => p.copy(),
                None => Json::Null,
            };
            push_member(&mut m, "permission", p);
            push_member(&mut m, "repo", Json::from_str(repo));
            let r = Json::object(m);
            assert(members_view(m@) =~= access_row_spec(repo@, Some(v@))->Object_0);
            r
        },
        None => {
            push_member(&mut m, "ok", Json::Bool(false));
            push_member(&mut m, "permission", Json::Null);
            push_member(&mut m, "repo", Json::from_str(repo));
            let r = Json::object(m);
            assert(members_view(m@) =~= access_row_spec(repo@, None)->Object_0);
            r
        },
    }
}

/// The access answer: `gh` counts as working when it named a login.
pub fn access_payload(login: &str, rows: Vec<Json>) -> (r: Json)
    ensures
        r@ == JsonView::Object(
            seq![
                ("gh_ok"@, JsonView::Bool(login@.len() > 0)),
                ("login"@, jstr(login@)),
                ("repos"@, JsonView::Array(seq_view(rows@))),
            ],
        ),
{
    let ghost rv = seq_view(rows@);
    let l = chars_of(login);
    let mut m: Vec<Member> = Vec::new();
    push_member(&mut m, "gh_ok", Json::Bool(l.len() > 0));
    push_member(&mut m, "login", Json::from_str(login));
    push_member(&mut m, "repos", Json::array(rows));
    let r = Json::object(m);
    assert(members_view(m@) =~= seq![
        ("gh_ok"@, JsonView::Bool(login@.len() > 0)),
        ("login"@, jstr(login@)),
        ("repos"@, JsonView::Array(rv)),
    ]);
    r
}

/// The access answer when no `gh` binary was found.
pub fn no_gh_access() -> (r: Json)
    ensures
        r@ == JsonView::Object(
            seq![
                ("gh_ok"@, JsonView::Bool(false)),
                ("note"@, jstr("gh not installed"@)),
                ("repos"@, JsonView::Array(Seq::empty())),
            ],
        ),
{
    let mut m: Vec<Member> = Vec::new();
    push_member(&mut m, "gh_ok", Json::Bool(false));
    push_member(&mut m, "note", Json::from_str("gh not installed"));
    push_member(&mut m, "repos", Json::array(Vec::new()));
    let r = Json::object(m);
    assert(seq_view(Seq::<Json>::empty()) =~= Seq::<JsonView>::empty());
    assert(members_view(m@) =~= seq![
        ("gh_ok"@, JsonView::Bool(false)),
        ("note"@, jstr("gh not installed"@)),
        ("repos"@, JsonView::Array(Seq::<JsonView>::empty())),
    ]);
    r
}

// ------------------------------------------------------------ opening links

/// A path may be opened unless it holds `..`.
pub fn check_open_path(path: &str) -> (r: Result<(), &'static str>)
    ensures
        occurs_in(path@, ".."@) ==> r == Err::<(), &str>("path traversal is not a link"),
        !occurs_in(path@, ".."@) ==> r is Ok,
{
    if str_contains(path, "..") {
        Err("path traversal is not a link")
    } else {
        Ok(())
    }
}

/// Only `https://` links open.
pub fn check_open_url(url: &str) -> (r: Result<(), &'static str>)
    ensures
        !has_prefix(url@, "https://"@) ==> r == Err::<(), &str>(
            "only https links open from the inspector",
        ),
        has_prefix(url@, "https://"@) ==> r is Ok,
{
    if !str_starts_with(url, "https://") {
        Err("only https links open from the inspector")
    } else {
        Ok(())
    }
}

// ------------------------------------------------------------ platform

/// The desktop platforms the shell runs on.
#[derive(Clone, Copy, Debug, PartialEq, Eq, Structural)]
pub enum Platform {
    MacOs,
    Windows,
    Linux,
}

/// Where `gh` is looked for, in order.
pub open spec fn gh_candidates_spec(platform: Platform) -> Seq<Seq<char>> {
    match platform {
        Platform::MacOs => seq!["/opt/homebrew/bin/gh"@, "/usr/local/bin/gh"@, "gh"@],
        Platform::Windows => seq!["gh"@, "C:\\Program Files\\GitHub CLI\\gh.exe"@],
        Platform::Linux => seq!["/usr/bin/gh"@, "/usr/local/bin/gh"@, "gh"@],
    }
}

/// Where `gh` is looked for, in order.
pub fn gh_candidates(platform: Platform) -> (r: Vec<&'static str>)
    ensures
        r@.map_values(|s: &str| s@) == gh_candidates_spec(platform),
{
    let mut v: Vec<&'static str> = Vec::new();
    match platform {
        Platform::MacOs => {
            v.push("/opt/homebrew/bin/gh");
            v.push("/usr/local/bin/gh");
            v.push("gh");
        },
        Platform::Windows => {
            v.push("gh");
            v.push("C:\\Program Files\\GitHub CLI\\gh.exe");
        },
        Platform::Linux => {
            v.push("/usr/bin/gh");
            v.push("/usr/local/bin/gh");
            v.push("gh");
        },
    }
    assert(v@.map_values(|s: &str| s@) =~= gh_candidates_spec(platform));
    v
}

/// The settings file inside the data directory.
pub fn settings_path(data_dir: &str) -> (r: String)
    ensures
        r@ == join_spec(data_dir@, "settings.json"@),
{
    join_path(data_dir, "settings.json")
}

// ------------------------------------------------------------ diagnostics

/// `str::trim_start_matches(p)`: every leading copy of a non-empty `p` removed.
pub open spec fn strip_prefixes(s: Seq<char>, p: Seq<char>) -> Seq<char>
    decreases s.len(),
{
    if p.len() > 0 && has_prefix(s, p) {
        strip_prefixes(s.skip(p.len() as int), p)
    } else {
        s
    }
}

/// Walking `lines` in order, the value of the last line that starts with `key`
/// (what follows the key, trimmed), starting from `cur`.
pub open spec fn latest_value(lines: Seq<Seq<char>>, key: Seq<char>, cur: Option<Seq<char>>) -> Option<
    Seq<char>,
>
    decreases lines.len(),
{
    if lines.len() == 0 {
        cur
    } else {
        let next = if has_prefix(lines[0], key) {
            Some(trim_spec(strip_prefixes(lines[0], key)))
        } else {
            cur
        };
        latest_value(lines.drop_first(), key, next)
    }
}

/// The macOS line from what `sw_vers` printed: `macOS <ProductVersion> (<BuildVersion>)`,
/// each part left out when `sw_vers` did not give it.
pub open spec fn macos_os_line_spec(sw: Seq<char>) -> Seq<char> {
    let lines = lines_spec(sw);
    let version = match latest_value(lines, "ProductVersion:"@, None) {
        Some(v) => "macOS "@ + v,
        None => "macOS"@,
    };
    let build = match latest_value(lines, "BuildVersion:"@, None) {
        Some(b) => b,
        None => Seq::empty(),
    };
    if build.len() == 0 {
        version
    } else {
        version + " ("@ + build + ")"@
    }
}

/// Start of `strip_prefixes(v[a..e], p)`.
fn strip_prefixes_in(v: &[char], a: usize, e: usize, p: &[char]) -> (r: usize)
    requires
        a <= e <= v@.len(),
    ensures
        a <= r <= e,
        v@.subrange(r as int, e as int) == strip_prefixes(v@.subrange(a as int, e as int), p@),
{
    if p.len() == 0 {
        return a;
    }
    let mut i = a;
    while starts_with_in(v, i, e, p)
        invariant
            a <= i <= e <= v@.len(),
            p@.len() > 0,
            strip_prefixes(v@.subrange(a as int, e as int), p@) == strip_prefixes(
                v@.subrange(i as int, e as int),
                p@,
            ),
        decreases e - i,
    {
        assert(v@.subrange(i as int, e as int).skip(p@.len() as int) =~= v@.subrange(
            i + p@.len(),
            e as int,
        ));
        i = i + p.len();
    }
    i
}

/// `latest_value(lines_spec(v), key, None)`.
fn latest_value_of(v: &[char], key: &str) -> (r: Option<String>)
    ensures
        match latest_value(lines_spec(v@), key@, None) {
            Some(x) => r matches Some(s) && s@ == x,
            None => r is None,
        },
{
    let k = chars_of(key);
    let n = v.len();
    let mut cur: Option<String> = None;
    let mut pos: usize = 0;
    assert(v@.skip(0) =~= v@);
    while pos < n
        invariant
            pos <= n == v@.len(),
            k@ == key@,
            latest_value(lines_spec(v@), key@, None) == latest_value(
                lines_spec(v@.skip(pos as int)),
                key@,
                match cur {
                    Some(s) => Some(s@),
                    None => None,
                },
            ),
        decreases n - pos,
    {
        let (end, next) = line_at(v, pos);
        let ghost line = v@.subrange(pos as int, end as int);
        proof {
            let ls = seq![line] + lines_spec(v@.skip(next as int));
            assert(ls[0] == line);
            assert(ls.drop_first() =~= lines_spec(v@.skip(next as int)));
        }
        if starts_with_in(v, pos, end, &k) {
            let s = strip_prefixes_in(v, pos, end, &k);
            let (a, b) = trim_bounds(v, s, end);
            cur = Some(string_of_range(v, a, b));
        }
        pos = next;
    }
    assert(v@.skip(n as int) =~= Seq::<char>::empty());
    assert(lines_spec(Seq::<char>::empty()) == Seq::<Seq<char>>::empty());
    cur
}

/// The diagnostics OS line on macOS, from what `sw_vers` printed.
pub fn macos_os_line(sw: &str) -> (r: String)
    ensures
        r@ == macos_os_line_spec(sw@),
{
    let v = chars_of(sw);
    let version = match latest_value_of(&v, "ProductVersion:") {
        Some(x) => concat("macOS ", x.as_str()),
        None => {
            let mut m = String::new();
            push_str(&mut m, "macOS");
            assert(Seq::<char>::empty() + "macOS"@ =~= "macOS"@);
            m
        },
    };
    let build = match latest_value_of(&v, "BuildVersion:") {
        Some(b) => b,
        None => String::new(),
    };
    let bv = chars_of(build.as_str());
    if bv.len() == 0 {
        version
    } else {
        let mut out = version;
        push_str(&mut out, " (");
        push_str(&mut out, build.as_str());
        push_str(&mut out, ")");
        out
    }
}

/// The diagnostics OS line on Linux: the kernel release from `uname -r`, when there is one.
pub fn linux_os_line(release: &str, arch: &str) -> (r: String)
    ensures
        r@ == if release@.len() == 0 {
            "Linux ("@ + arch@ + ")"@
        } else {
            "Linux "@ + release@ + " ("@ + arch@ + ")"@
        },
{
    let rv = chars_of(release);
    let mut out = String::new();
    if rv.len() == 0 {
        push_str(&mut out, "Linux (");
    } else {
        push_str(&mut out, "Linux ");
        push_str(&mut out, release);
        push_str(&mut out, " (");
    }
    push_str(&mut out, arch);
    push_str(&mut out, ")");
    assert(Seq::<char>::empty() + "Linux ("@ =~= "Linux ("@);
    assert(Seq::<char>::empty() + "Linux "@ =~= "Linux "@);
    out
}

/// The diagnostics OS line on Windows.
pub fn windows_os_line(arch: &str) -> (r: String)
    ensures
        r@ == "Windows ("@ + arch@ + ")"@,
{
    let mut out = String::new();
    push_str(&mut out, "Windows (");
    push_str(&mut out, arch);
    push_str(&mut out, ")");
    assert(Seq::<char>::empty() + "Windows ("@ =~= "Windows ("@);
    out
}

// ------------------------------------------------------------ laws

/// `r` is `owner/repo`: one `/`, with something on each side.
pub open spec fn is_owner_slash_repo(r: Seq<char>) -> bool {
    exists|i: int|
        0 < i < r.len() - 1 && #[trigger] r[i] == '/' && forall|j: int|
            0 <= j < r.len() && j != i ==> r[j] != '/'
}

proof fn lemma_owner_repo_shape(rest: Seq<char>)
    ensures
        owner_repo(rest) matches Some(r) ==> is_owner_slash_repo(r),
{
    if let Some(i) = index_of(rest, '/') {
        crate::text::lemma_index_of(rest, '/');
        let owner = rest.take(i as int);
        let rem = rest.skip(i + 1 as int);
        crate::text::lemma_index_of(rem, '/');
        let repo = match index_of(rem, '/') {
            Some(j) => rem.take(j as int),
            None => rem,
        };
        if owner.len() > 0 && repo.len() > 0 {
            reveal_strlit("/");
            let r = owner + "/"@ + repo;
            let w = owner.len() as int;
            assert(r[w] == '/');
            assert forall|j: int| 0 <= j < r.len() && j != w implies r[j] != '/' by {
                if j < w {
                    assert(r[j] == rest[j]);
                } else {
                    assert(r[j] == repo[j - w - 1]);
                    assert(repo[j - w - 1] == rem[j - w - 1]);
                }
            }
            assert(owner_repo(rest) == Some(r));
        }
    }
}

/// A parsed remote is always `owner/repo`: one `/`, with something on each side.
pub proof fn law_remote_repo_is_owner_slash_repo(url: Seq<char>)
    ensures
        parse_remote_repo_spec(url) matches Some(r) ==> is_owner_slash_repo(r),
{
    if let Some(rest) = github_rest(remote_core(url)) {
        lemma_owner_repo_shape(rest);
    }
}

/// No `/` in `s`.
pub open spec fn no_slash(s: Seq<char>) -> bool {
    forall|j: int| 0 <= j < s.len() ==> s[j] != '/'
}

/// What follows a GitHub prefix names owner `o` and repo `r`: it is `o/r`, or `o/r/`
/// and anything after.
pub open spec fn names_repo(rest: Seq<char>, o: Seq<char>, r: Seq<char>) -> bool {
    rest == o + "/"@ + r || exists|tail: Seq<char>| rest == o + "/"@ + r + "/"@ + tail
}

/// The three URL prefixes GitHub serves a repository under.
pub open spec fn github_prefixes() -> Seq<Seq<char>> {
    seq!["https://github.com/"@, "ssh://git@github.com/"@, "git@github.com:"@]
}

proof fn lemma_owner_repo_reads(rest: Seq<char>, o: Seq<char>, r: Seq<char>)
    requires
        o.len() > 0,
        r.len() > 0,
        no_slash(o),
        no_slash(r),
    ensures
        owner_repo(rest) == Some(o + "/"@ + r) <==> names_repo(rest, o, r),
{
    reveal_strlit("/");
    let w = o.len() as int;
    if names_repo(rest, o, r) {
        assert(rest[w] == '/');
        assert forall|j: int| 0 <= j < w implies rest[j] != '/' by {
            assert(rest[j] == o[j]);
        }
        crate::text::lemma_index_of_is(rest, '/', w);
        assert(rest.take(w) =~= o);
        let rem = rest.skip(w + 1);
        if rest == o + "/"@ + r {
            assert(rem =~= r);
            crate::text::lemma_index_of_is(rem, '/', r.len() as int);
        } else {
            let tail = choose|tail: Seq<char>| rest == o + "/"@ + r + "/"@ + tail;
            assert(rem =~= r + "/"@ + tail);
            assert(rem[r.len() as int] == '/');
            assert forall|j: int| 0 <= j < r.len() implies rem[j] != '/' by {
                assert(rem[j] == r[j]);
            }
            crate::text::lemma_index_of_is(rem, '/', r.len() as int);
            assert(rem.take(r.len() as int) =~= r);
        }
    }
    if owner_repo(rest) == Some(o + "/"@ + r) {
        crate::text::lemma_index_of(rest, '/');
        let i = index_of(rest, '/')->Some_0 as int;
        let owner = rest.take(i);
        let rem = rest.skip(i + 1);
        crate::text::lemma_index_of(rem, '/');
        let repo = match index_of(rem, '/') {
            Some(j) => rem.take(j as int),
            None => rem,
        };
        let x = owner + "/"@ + repo;
        let y = o + "/"@ + r;
        assert(x == y);
        // the first `/` of both sides splits them alike
        if owner.len() < w {
            assert(x[owner.len() as int] == '/');
            assert(y[owner.len() as int] == o[owner.len() as int]);
        } else if owner.len() > w {
            assert(y[w] == '/');
            assert(x[w] == owner[w]);
            assert(owner[w] == rest[w]);
        }
        assert(owner =~= x.take(w));
        assert(o =~= y.take(w));
        assert(repo =~= x.skip(w + 1));
        assert(r =~= y.skip(w + 1));
        match index_of(rem, '/') {
            Some(j) => {
                let tail = rem.skip(j + 1 as int);
                assert(rest =~= o + "/"@ + r + "/"@ + tail);
            },
            None => {
                assert(rest =~= o + "/"@ + r);
            },
        }
    }
}

/// The remote URL parser, exactly: after trimming white space, then trailing `/`s,
/// then one `.git`, a URL gives `o/r` (an owner and a repo, neither empty nor holding
/// a `/`) if and only if it is one of GitHub's three prefixes followed by `o/r`, or
/// by `o/r/` and anything after.
pub proof fn law_remote_repo_characterised(url: Seq<char>, o: Seq<char>, r: Seq<char>)
    requires
        o.len() > 0,
        r.len() > 0,
        no_slash(o),
        no_slash(r),
    ensures
        parse_remote_repo_spec(url) == Some(o + "/"@ + r) <==> exists|p: Seq<char>|
            #[trigger] github_prefixes().contains(p) && has_prefix(remote_core(url), p) && names_repo(
                remote_core(url).skip(p.len() as int),
                o,
                r,
            ),
{
    reveal_strlit("https://github.com/");
    reveal_strlit("ssh://git@github.com/");
    reveal_strlit("git@github.com:");
    let u = remote_core(url);
    let ps = github_prefixes();
    let p0 = "https://github.com/"@;
    let p1 = "ssh://git@github.com/"@;
    let p2 = "git@github.com:"@;
    assert(ps[0] == p0 && ps[1] == p1 && ps[2] == p2);
    match github_rest(u) {
        Some(rest) => {
            lemma_owner_repo_reads(rest, o, r);
            // the prefix `github_rest` took is the only one `u` has
            let p = if has_prefix(u, p0) {
                p0
            } else if has_prefix(u, p1) {
                p1
            } else {
                p2
            };
            assert(rest == u.skip(p.len() as int));
            assert(ps.contains(p)) by {
                if p == p0 {
                    assert(ps[0] == p);
                } else if p == p1 {
                    assert(ps[1] == p);
                } else {
                    assert(ps[2] == p);
                }
            }
            assert forall|q: Seq<char>| ps.contains(q) && has_prefix(u, q) implies q == p by {
                let k = choose|k: int| 0 <= k < ps.len() && ps[k] == q;
                assert(u[0] == q[0]);
                assert(u[0] == p[0]);
            }
        },
        None => {
            assert forall|q: Seq<char>| ps.contains(q) implies !has_prefix(u, q) by {
                let k = choose|k: int| 0 <= k < ps.len() && ps[k] == q;
            }
        },
    }
}

/// The URL, once trimmed of white space, trailing `/`s and one `.git`, is one of
/// GitHub's three prefixes followed by `o/r` (or `o/r/` and anything after), with `o`
/// and `r` non-empty and free of `/`.
pub open spec fn github_repo_url(url: Seq<char>, o: Seq<char>, r: Seq<char>) -> bool {
    &&& o.len() > 0
    &&& r.len() > 0
    &&& no_slash(o)
    &&& no_slash(r)
    &&& exists|p: Seq<char>|
        #[trigger] github_prefixes().contains(p) && has_prefix(remote_core(url), p) && names_repo(
            remote_core(url).skip(p.len() as int),
            o,
            r,
        )
}

/// The remote URL parser, whole: it gives `o/r` exactly when the URL is a GitHub
/// repository URL naming owner `o` and repo `r`, and nothing when it names none.
pub proof fn law_remote_repo_exactly(url: Seq<char>)
    ensures
        forall|o: Seq<char>, r: Seq<char>|
            #![trigger github_repo_url(url, o, r)]
            o.len() > 0 && r.len() > 0 && no_slash(o) && no_slash(r) ==> (parse_remote_repo_spec(url)
                == Some(o + "/"@ + r) <==> github_repo_url(url, o, r)),
        parse_remote_repo_spec(url) is None <==> !(exists|o: Seq<char>, r: Seq<char>|
            #[trigger] github_repo_url(url, o, r)),
        parse_remote_repo_spec(url) matches Some(x) ==> exists|o: Seq<char>, r: Seq<char>|
            x == o + "/"@ + r && #[trigger] github_repo_url(url, o, r),
{
    assert forall|o: Seq<char>, r: Seq<char>|
        o.len() > 0 && r.len() > 0 && no_slash(o) && no_slash(r) implies (parse_remote_repo_spec(url)
            == Some(o + "/"@ + r) <==> #[trigger] github_repo_url(url, o, r)) by {
        law_remote_repo_characterised(url, o, r);
    }
    if exists|o: Seq<char>, r: Seq<char>| #[trigger] github_repo_url(url, o, r) {
        let (o, r) = choose|o: Seq<char>, r: Seq<char>| #[trigger] github_repo_url(url, o, r);
        law_remote_repo_characterised(url, o, r);
    }
    if let Some(x) = parse_remote_repo_spec(url) {
        law_remote_repo_is_owner_slash_repo(url);
        reveal_strlit("/");
        let i = choose|i: int|
            0 < i < x.len() - 1 && #[trigger] x[i] == '/' && forall|j: int|
                0 <= j < x.len() && j != i ==> x[j] != '/';
        let o = x.take(i);
        let r = x.skip(i + 1);
        assert(x =~= o + "/"@ + r);
        assert forall|j: int| 0 <= j < o.len() implies o[j] != '/' by {
            assert(o[j] == x[j]);
        }
        assert forall|j: int| 0 <= j < r.len() implies r[j] != '/' by {
            assert(r[j] == x[i + 1 + j]);
        }
        law_remote_repo_characterised(url, o, r);
        assert(github_repo_url(url, o, r));
    }
}

/// Every commit row has a hash and a subject.
pub proof fn law_commit_rows_are_complete(raw: Seq<char>)
    ensures
        forall|i: int| 0 <= i < parse_git_log_spec(raw).len() ==> #[trigger] parse_git_log_spec(raw)[i].hash.len() > 0
            && parse_git_log_spec(raw)[i].subject.len() > 0,
{
    lemma_commits_complete(split_spec(raw, '\u{1e}'));
}

proof fn lemma_commits_complete(entries: Seq<Seq<char>>)
    ensures
        forall|i: int| 0 <= i < commits_of(entries).len() ==> #[trigger] commits_of(entries)[i].hash.len() > 0
            && commits_of(entries)[i].subject.len() > 0,
    decreases entries.len(),
{
    if entries.len() > 0 {
        let d = entries.drop_last();
        lemma_commits_complete(d);
        let r = commits_of(d);
        match commit_of(entries.last()) {
            Some(c) => {
                assert forall|i: int| 0 <= i < r.push(c).len() implies #[trigger] r.push(c)[i].hash.len()
                    > 0 && r.push(c)[i].subject.len() > 0 by {
                    if i < r.len() {
                        assert(r.push(c)[i] == r[i]);
                    }
                }
            },
            None => {},
        }
    }
}

/// The status rows are the first `max` non-blank lines: as many as there are, up to `max`.
pub proof fn law_status_rows_are_capped(raw: Seq<char>, max: nat)
    ensures
        status_rows_spec(raw, max).len() == if max < nonblank_lines(lines_spec(raw)).len() {
            max
        } else {
            nonblank_lines(lines_spec(raw)).len()
        },
{
}

} // verus!
