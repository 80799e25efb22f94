//! Core Project View — the directory's own truth, read straight from the backend,
//! never duplicated.
//!
//! This module is a *reader*: what `bd` (the Dolt-backed tracker CLI) lists and which
//! governance documents the directory holds become one payload. It stores nothing
//! of its own. Running `bd` and listing directories is the caller's; what their
//! answers mean is decided here.
use vstd::prelude::*;
use crate::disk::dir_exists;
use crate::json::{
    as_i64_spec, as_str_spec, members_view, obj_get, push_member, seq_view, Json, JsonView,
    Member, NumberView,
};
use crate::text::{chars_of, has_prefix, has_prefix_at, has_suffix, join_path, join_spec, last_index_of, occurs_in, push_char, push_str, rfind_char, sorted_unique, str_contains, str_eq, string_views, strictly_sorted, strip_suffixes, strip_suffixes_in, to_lowercase, to_uppercase, trim, trim_spec, unicode_lower, unicode_upper};

verus! {

broadcast use vstd::string::group_string_axioms;

// ------------------------------------------------------------ documents

/// A governance / process document the project view surfaces, with the label it is
/// shown under and the family that groups it.
pub struct DocCandidate {
    pub path: &'static str,
    pub label: &'static str,
    pub family: &'static str,
}

pub open spec fn candidate_view(c: DocCandidate) -> (Seq<char>, Seq<char>, Seq<char>) {
    (c.path@, c.label@, c.family@)
}

/// The documents the view always lists, present or not, in order.
pub open spec fn doc_candidates_spec() -> Seq<(Seq<char>, Seq<char>, Seq<char>)> {
    seq![
        ("GOVERNANCE.md"@, "governance"@, "governance"@),
        ("SOVEREIGNTY.md"@, "sovereignty"@, "governance"@),
        ("docs/SOVEREIGNTY-EXECUTION.md"@, "sovereignty: execution board"@, "governance"@),
        ("docs/SOVEREIGNTY-INFRASTRUCTURE.md"@, "sovereignty: infrastructure"@, "governance"@),
        ("PLAN.md"@, "plan"@, "plan"@),
        ("ETHOS.md"@, "ethos"@, "ethos"@),
        ("BRAND.md"@, "brand"@, "brand"@),
        ("AGENTS.md"@, "agents / ways of working"@, "ways of working"@),
        ("CHANGELOG.md"@, "changelog"@, "history"@),
        ("BUILD-LOG.md"@, "build log"@, "history"@),
        ("PROVENANCE.md"@, "provenance"@, "history"@),
        ("MASTER-CLASS.md"@, "master class"@, "ways of working"@),
        ("docs/DOMAIN-LAUNCH.md"@, "domain launch"@, "operations"@),
        ("docs/DEPENDENCY-EXIT.md"@, "dependency exit"@, "operations"@),
        ("docs/COMPAT-EXIT.md"@, "compatibility exit"@, "operations"@),
    ]
}

fn candidate(path: &'static str, label: &'static str, family: &'static str) -> (r: DocCandidate)
    ensures
        candidate_view(r) == (path@, label@, family@),
{
    DocCandidate { path, label, family }
}

/// The documents the view always lists, present or not, in order.
pub fn doc_candidates() -> (r: Vec<DocCandidate>)
    ensures
        r@.map_values(|c: DocCandidate| candidate_view(c)) == doc_candidates_spec(),
{
    let mut v: Vec<DocCandidate> = Vec::new();
    v.push(candidate("GOVERNANCE.md", "governance", "governance"));
    v.push(candidate("SOVEREIGNTY.md", "sovereignty", "governance"));
    v.push(candidate("docs/SOVEREIGNTY-EXECUTION.md", "sovereignty: execution board", "governance"));
    v.push(candidate("docs/SOVEREIGNTY-INFRASTRUCTURE.md", "sovereignty: infrastructure", "governance"));
    v.push(candidate("PLAN.md", "plan", "plan"));
    v.push(candidate("ETHOS.md", "ethos", "ethos"));
    v.push(candidate("BRAND.md", "brand", "brand"));
    v.push(candidate("AGENTS.md", "agents / ways of working", "ways of working"));
    v.push(candidate("CHANGELOG.md", "changelog", "history"));
    v.push(candidate("BUILD-LOG.md", "build log", "history"));
    v.push(candidate("PROVENANCE.md", "provenance", "history"));
    v.push(candidate("MASTER-CLASS.md", "master class", "ways of working"));
    v.push(candidate("docs/DOMAIN-LAUNCH.md", "domain launch", "operations"));
    v.push(candidate("docs/DEPENDENCY-EXIT.md", "dependency exit", "operations"));
    v.push(candidate("docs/COMPAT-EXIT.md", "compatibility exit", "operations"));
    assert(v@.map_values(|c: DocCandidate| candidate_view(c)) =~= doc_candidates_spec());
    v
}

/// The stems of the suffixes that mark a document as governance wherever it lives
/// (`ADR.md`, `BRD.md`, `GOVERNANCE.md`, `PIPELINE.md`, `PLAN.md`, `PROVENANCE.md`,
/// `RFC.md`, `SOVEREIGNTY.md`), upper-cased.
pub open spec fn doc_stems_spec() -> Seq<Seq<char>> {
    seq![
        "ADR"@,
        "BRD"@,
        "GOVERNANCE"@,
        "PIPELINE"@,
        "PLAN"@,
        "PROVENANCE"@,
        "RFC"@,
        "SOVEREIGNTY"@,
    ]
}

fn doc_stems() -> (r: Vec<&'static str>)
    ensures
        r@.map_values(|s: &str| s@) == doc_stems_spec(),
{
    let mut v: Vec<&'static str> = Vec::new();
    v.push("ADR");
    v.push("BRD");
    v.push("GOVERNANCE");
    v.push("PIPELINE");
    v.push("PLAN");
    v.push("PROVENANCE");
    v.push("RFC");
    v.push("SOVEREIGNTY");
    assert(v@.map_values(|s: &str| s@) =~= doc_stems_spec());
    v
}

/// Where convention-discovered documents are looked for, relative to the project:
/// shallow and explicit, so vendored trees and fixtures never pass for governance.
pub open spec fn doc_search_dirs_spec() -> Seq<Seq<char>> {
    seq![""@, "docs"@, "docs/adr"@, "docs/rfc"@]
}

pub fn doc_search_dirs() -> (r: Vec<&'static str>)
    ensures
        r@.map_values(|s: &str| s@) == doc_search_dirs_spec(),
{
    let mut v: Vec<&'static str> = Vec::new();
    v.push("");
    v.push("docs");
    v.push("docs/adr");
    v.push("docs/rfc");
    assert(v@.map_values(|s: &str| s@) =~= doc_search_dirs_spec());
    v
}

/// An upper-cased file stem names a governance document: it is one of the stems, or
/// one of them followed by `-` (the numbered form, `ADR-007-listen-ports`).
pub open spec fn stem_matches(file_stem: Seq<char>) -> bool {
    exists|i: int|
        0 <= i < doc_stems_spec().len() && (file_stem == #[trigger] doc_stems_spec()[i]
            || has_prefix(file_stem, doc_stems_spec()[i] + seq!['-']))
}

/// A file name the naming convention marks as governance: a `.md` file whose
/// upper-cased stem (every trailing `.MD` removed) matches a stem.
pub open spec fn is_governance_name_spec(name: Seq<char>) -> bool {
    has_suffix(name, ".md"@) && stem_matches(strip_suffixes(unicode_upper(name), ".MD"@))
}

/// Whether the upper-cased file stem `v[0..e]` matches a stem.
fn stem_matches_in(v: &[char], e: usize) -> (r: bool)
    requires
        e <= v@.len(),
    ensures
        r == stem_matches(v@.subrange(0, e as int)),
{
    let ghost fs = v@.subrange(0, e as int);
    let stems = doc_stems();
    let mut i: usize = 0;
    while i < stems.len()
        invariant
            i <= stems@.len(),
            stems@.map_values(|s: &str| s@) == doc_stems_spec(),
            fs == v@.subrange(0, e as int),
            e <= v@.len(),
            forall|k: int|
                0 <= k < i ==> !(fs == #[trigger] doc_stems_spec()[k] || has_prefix(
                    fs,
                    doc_stems_spec()[k] + seq!['-'],
                )),
        decreases stems.len() - i,
    {
        let stem = chars_of(stems[i]);
        assert(stem@ == doc_stems_spec()[i as int]);
        let mut with_dash = stem.clone();
        with_dash.push('-');
        assert(with_dash@ =~= doc_stems_spec()[i as int] + seq!['-']);
        let same = e == stem.len() && has_prefix_at(v, 0, &stem);
        let pre = e >= with_dash.len() && has_prefix_at(v, 0, &with_dash);
        proof {
            assert(v@.skip(0) =~= v@);
            if e >= stem@.len() {
                assert(v@.take(stem@.len() as int) =~= fs.take(stem@.len() as int));
            }
            if e == stem@.len() {
                assert(fs =~= v@.take(stem@.len() as int));
            }
            if e >= with_dash@.len() {
                assert(v@.take(with_dash@.len() as int) =~= fs.take(with_dash@.len() as int));
            }
        }
        if same {
            return true;
        }
        if pre {
            return true;
        }
        i += 1;
    }
    false
}

/// Does the naming convention mark the file `name` as governance?
pub fn is_governance_name(name: &str) -> (r: bool)
    ensures
        r == is_governance_name_spec(name@),
{
    let n = chars_of(name);
    let md = chars_of(".md");
    if n.len() < md.len() || !has_prefix_at(&n, n.len() - md.len(), &md) {
        proof {
            if n@.len() >= md@.len() {
                assert(n@.skip(n@.len() - md@.len()).take(md@.len() as int) =~= n@.skip(
                    n@.len() - md@.len(),
                ));
            }
        }
        return false;
    }
    assert(n@.skip(n@.len() - md@.len()).take(md@.len() as int) =~= n@.skip(
        n@.len() - md@.len(),
    ));
    let upper = to_uppercase(name);
    let u = chars_of(upper.as_str());
    let big_md = chars_of(".MD");
    let e = strip_suffixes_in(&u, 0, u.len(), &big_md);
    assert(u@.subrange(0, u@.len() as int) =~= u@);
    stem_matches_in(&u, e)
}

/// One directory entry as the caller listed it: its name, and whether it is a file.
pub struct DirEntry {
    pub name: String,
    pub is_file: bool,
}

/// One searched directory (relative to the project) and what it holds; a directory
/// that does not exist holds nothing.
pub struct DirListing {
    pub dir: String,
    pub entries: Vec<DirEntry>,
}

/// The project-relative path of `name` in `dir`.
pub open spec fn rel_path(dir: Seq<char>, name: Seq<char>) -> Seq<char> {
    if dir.len() == 0 {
        name
    } else {
        dir + seq!['/'] + name
    }
}

/// The governance documents among `entries` of `dir`, in listing order.
pub open spec fn found_in_dir(dir: Seq<char>, entries: Seq<DirEntry>) -> Seq<Seq<char>>
    decreases entries.len(),
{
    if entries.len() == 0 {
        Seq::empty()
    } else {
        let e = entries.last();
        let before = found_in_dir(dir, entries.drop_last());
        if e.is_file && is_governance_name_spec(e.name@) {
            before.push(rel_path(dir, e.name@))
        } else {
            before
        }
    }
}

/// The governance documents of all listings, in listing order.
pub open spec fn found_in(listings: Seq<DirListing>) -> Seq<Seq<char>>
    decreases listings.len(),
{
    if listings.len() == 0 {
        Seq::empty()
    } else {
        found_in(listings.drop_last()) + found_in_dir(
            listings.last().dir@,
            listings.last().entries@,
        )
    }
}

/// Documents the repo's own naming convention marks as governance, sorted, each once.
pub fn discover_governance_docs(listings: &Vec<DirListing>) -> (r: Vec<String>)
    ensures
        strictly_sorted(string_views(r@)),
        string_views(r@).to_set() == found_in(listings@).to_set(),
{
    let mut found: Vec<String> = Vec::new();
    let mut i: usize = 0;
    while i < listings.len()
        invariant
            i <= listings@.len(),
            string_views(found@) == found_in(listings@.take(i as int)),
        decreases listings.len() - i,
    {
        let listing = &listings[i];
        let ghost base = string_views(found@);
        let mut j: usize = 0;
        while j < listing.entries.len()
            invariant
                j <= listing.entries@.len(),
                string_views(found@) == base + found_in_dir(
                    listing.dir@,
                    listing.entries@.take(j as int),
                ),
            decreases listing.entries.len() - j,
        {
            let entry = &listing.entries[j];
            proof {
                let t = listing.entries@.take(j + 1);
                assert(t.drop_last() =~= listing.entries@.take(j as int));
                assert(t.last() == listing.entries@[j as int]);
            }
            if entry.is_file && is_governance_name(entry.name.as_str()) {
                let d = chars_of(listing.dir.as_str());
                let rel = if d.len() == 0 {
                    let mut s = String::new();
                    push_str(&mut s, entry.name.as_str());
                    assert(Seq::<char>::empty() + entry.name@ =~= entry.name@);
                    assert(s@ =~= rel_path(listing.dir@, entry.name@));
                    s
                } else {
                    let mut s = String::new();
                    push_str(&mut s, listing.dir.as_str());
                    push_char(&mut s, '/');
                    push_str(&mut s, entry.name.as_str());
                    assert(Seq::<char>::empty() + listing.dir@ =~= listing.dir@);
                    assert(s@ =~= rel_path(listing.dir@, entry.name@));
                    s
                };
                let ghost before = string_views(found@);
                found.push(rel);
                assert(string_views(found@) =~= before.push(rel_path(listing.dir@, entry.name@)));
            }
            j += 1;
        }
        proof {
            assert(listing.entries@.take(j as int) =~= listing.entries@);
            let t = listings@.take(i + 1);
            assert(t.drop_last() =~= listings@.take(i as int));
            assert(t.last() == listings@[i as int]);
        }
        i += 1;
    }
    assert(listings@.take(i as int) =~= listings@);
    sorted_unique(found)
}

// ------------------------------------------------------------ document rows

/// The file name of a project-relative path: what follows its last `/`.
pub open spec fn doc_file_name(rel: Seq<char>) -> Seq<char> {
    match last_index_of(rel, '/') {
        Some(i) => rel.skip(i + 1 as int),
        None => rel,
    }
}

/// `-` and `_` read as spaces.
pub open spec fn despaced(s: Seq<char>) -> Seq<char> {
    s.map_values(
        |c: char|
            if c == '-' || c == '_' {
                ' '
            } else {
                c
            },
    )
}

/// The label of a discovered document: its file name without `.md`, dashes and
/// underscores read as spaces, lower-cased.
pub open spec fn doc_label_spec(rel: Seq<char>) -> Seq<char> {
    unicode_lower(despaced(strip_suffixes(doc_file_name(rel), ".md"@)))
}

/// The family of a discovered document, from what its lower-cased path mentions.
pub open spec fn doc_family_spec(rel: Seq<char>) -> Seq<char> {
    let low = unicode_lower(rel);
    if occurs_in(low, "adr"@) {
        "decisions"@
    } else if occurs_in(low, "brd"@) {
        "requirements"@
    } else if occurs_in(low, "pipeline"@) {
        "pipeline"@
    } else {
        "governance"@
    }
}

/// The label of a discovered document.
pub fn doc_label(rel: &str) -> (r: String)
    ensures
        r@ == doc_label_spec(rel@),
{
    let v = chars_of(rel);
    let n = v.len();
    let start = match rfind_char(&v, '/') {
        Some(i) => {
            assert(i < n);
            i + 1
        },
        None => 0,
    };
    let ghost name = doc_file_name(rel@);
    assert(v@.subrange(start as int, v@.len() as int) =~= name);
    let md = chars_of(".md");
    let e = strip_suffixes_in(&v, start, v.len(), &md);
    let ghost stem = v@.subrange(start as int, e as int);
    let mut out = String::new();
    let mut i = start;
    while i < e
        invariant
            start <= i <= e <= v@.len(),
            stem == v@.subrange(start as int, e as int),
            out@ == despaced(v@.subrange(start as int, i as int)),
        decreases e - i,
    {
        let c = v[i];
        let d = if c == '-' || c == '_' {
            ' '
        } else {
            c
        };
        push_char(&mut out, d);
        assert(despaced(v@.subrange(start as int, i + 1)) =~= despaced(
            v@.subrange(start as int, i as int),
        ).push(d));
        i += 1;
    }
    to_lowercase(out.as_str())
}

/// The family of a discovered document.
pub fn doc_family(rel: &str) -> (r: &'static str)
    ensures
        r@ == doc_family_spec(rel@),
{
    let low = to_lowercase(rel);
    if str_contains(low.as_str(), "adr") {
        "decisions"
    } else if str_contains(low.as_str(), "brd") {
        "requirements"
    } else if str_contains(low.as_str(), "pipeline") {
        "pipeline"
    } else {
        "governance"
    }
}

pub open spec fn doc_json(path: Seq<char>, label: Seq<char>, family: Seq<char>, present: bool, discovered: bool) -> JsonView {
    JsonView::Object(
        seq![
            ("discovered"@, JsonView::Bool(discovered)),
            ("family"@, JsonView::Str(family)),
            ("label"@, JsonView::Str(label)),
            ("path"@, JsonView::Str(path)),
            ("present"@, JsonView::Bool(present)),
        ],
    )
}

fn doc_row(path: &str, label: &str, family: &str, present: bool, discovered: bool) -> (r: Json)
    ensures
        r@ == doc_json(path@, label@, family@, present, discovered),
{
    let mut m: Vec<Member> = Vec::new();
    push_member(&mut m, "discovered", Json::Bool(discovered));
    push_member(&mut m, "family", Json::from_str(family));
    push_member(&mut m, "label", Json::from_str(label));
    push_member(&mut m, "path", Json::from_str(path));
    push_member(&mut m, "present", Json::Bool(present));
    let r = Json::object(m);
    assert(members_view(m@) =~= doc_json(path@, label@, family@, present, discovered)->Object_0);
    r
}

/// Whether the caller found candidate `i` on disk (a missing answer counts as absent).
pub open spec fn present_at(present: Seq<bool>, i: int) -> bool {
    i < present.len() && present[i]
}

/// Is `rel` one of the candidates?
pub open spec fn is_candidate_path(rel: Seq<char>) -> bool {
    exists|i: int| 0 <= i < doc_candidates_spec().len() && #[trigger] doc_candidates_spec()[i].0 == rel
}

/// The rows of the candidates, in order.
pub open spec fn candidate_rows(present: Seq<bool>) -> Seq<JsonView> {
    Seq::new(
        doc_candidates_spec().len(),
        |i: int|
            doc_json(
                doc_candidates_spec()[i].0,
                doc_candidates_spec()[i].1,
                doc_candidates_spec()[i].2,
                present_at(present, i),
                false,
            ),
    )
}

/// The rows of the discovered documents that are not candidates, in order.
pub open spec fn discovered_rows(discovered: Seq<Seq<char>>) -> Seq<JsonView>
    decreases discovered.len(),
{
    if discovered.len() == 0 {
        Seq::empty()
    } else {
        let before = discovered_rows(discovered.drop_last());
        let rel = discovered.last();
        if is_candidate_path(rel) {
            before
        } else {
            before.push(doc_json(rel, doc_label_spec(rel), doc_family_spec(rel), true, true))
        }
    }
}

/// The document rows: the candidates first, then what the convention discovered.
pub open spec fn docs_spec(present: Seq<bool>, discovered: Seq<Seq<char>>) -> Seq<JsonView> {
    candidate_rows(present) + discovered_rows(discovered)
}

/// The document rows: every candidate with whether it is present, then each
/// discovered document that is not a candidate.
pub fn doc_rows(present: &Vec<bool>, discovered: &Vec<String>) -> (r: Vec<Json>)
    ensures
        seq_view(r@) == docs_spec(present@, string_views(discovered@)),
{
    let cands = doc_candidates();
    let ghost cv = cands@.map_values(|c: DocCandidate| candidate_view(c));
    let mut out: Vec<Json> = Vec::new();
    let mut i: usize = 0;
    while i < cands.len()
        invariant
            i <= cands@.len(),
            cv == cands@.map_values(|c: DocCandidate| candidate_view(c)),
            cv == doc_candidates_spec(),
            seq_view(out@) == candidate_rows(present@).take(i as int),
        decreases cands.len() - i,
    {
        let c = &cands[i];
        assert(cv[i as int] == candidate_view(*c));
        let here = i < present.len() && present[i];
        let ghost before = seq_view(out@);
        let row = doc_row(c.path, c.label, c.family, here, false);
        assert(row@ == candidate_rows(present@)[i as int]);
        out.push(row);
        assert(seq_view(out@) =~= before.push(row@));
        assert(seq_view(out@) =~= candidate_rows(present@).take(i + 1));
        i += 1;
    }
    assert(candidate_rows(present@).take(i as int) =~= candidate_rows(present@));
    let ghost dv = string_views(discovered@);
    let ghost base = seq_view(out@);
    let mut j: usize = 0;
    while j < discovered.len()
        invariant
            j <= discovered@.len(),
            cv == cands@.map_values(|c: DocCandidate| candidate_view(c)),
            cv == doc_candidates_spec(),
            dv == string_views(discovered@),
            base == candidate_rows(present@),
            seq_view(out@) == base + discovered_rows(dv.take(j as int)),
        decreases discovered.len() - j,
    {
        let rel = discovered[j].as_str();
        proof {
            let t = dv.take(j + 1);
            assert(t.drop_last() =~= dv.take(j as int));
            assert(t.last() == rel@);
        }
        let mut known = false;
        let mut k: usize = 0;
        while k < cands.len()
            invariant
                k <= cands@.len(),
                cv == cands@.map_values(|c: DocCandidate| candidate_view(c)),
                cv == doc_candidates_spec(),
                known == (exists|q: int| 0 <= q < k && #[trigger] doc_candidates_spec()[q].0 == rel@),
            decreases cands.len() - k,
        {
            assert(cv[k as int] == candidate_view(cands@[k as int]));
            assert(doc_candidates_spec()[k as int].0 == cands@[k as int].path@);
            if str_eq(cands[k].path, rel) {
                known = true;
            }
            k += 1;
        }
        if !known {
            let label = doc_label(rel);
            let family = doc_family(rel);
            let ghost before = seq_view(out@);
            out.push(doc_row(rel, label.as_str(), family, true, true));
            assert(seq_view(out@) =~= before.push(
                doc_json(rel@, doc_label_spec(rel@), doc_family_spec(rel@), true, true),
            ));
        }
        j += 1;
    }
    assert(dv.take(j as int) =~= dv);
    out
}

// ------------------------------------------------------------ issues

/// An issue's `status`, or nothing when it has no string status.
pub open spec fn issue_status_spec(issue: JsonView) -> Seq<char> {
    match obj_get(issue, "status"@) {
        Some(v) => match as_str_spec(v) {
            Some(s) => s,
            None => Seq::empty(),
        },
        None => Seq::empty(),
    }
}

/// An issue's field, or `null`.
pub open spec fn field_or_null(issue: JsonView, key: Seq<char>) -> JsonView {
    match obj_get(issue, key) {
        Some(v) => v,
        None => JsonView::Null,
    }
}

/// The row the view shows for one issue.
pub open spec fn issue_row_spec(issue: JsonView) -> JsonView {
    JsonView::Object(
        seq![
            ("id"@, field_or_null(issue, "id"@)),
            ("issue_type"@, field_or_null(issue, "issue_type"@)),
            ("priority"@, field_or_null(issue, "priority"@)),
            ("status"@, JsonView::Str(issue_status_spec(issue))),
            ("title"@, field_or_null(issue, "title"@)),
            ("updated_at"@, field_or_null(issue, "updated_at"@)),
        ],
    )
}

/// Where a status sorts: in progress, blocked, open, deferred, closed, then the rest.
pub open spec fn status_rank(s: Seq<char>) -> int {
    if s == "in_progress"@ {
        0
    } else if s == "blocked"@ {
        1
    } else if s == "open"@ {
        2
    } else if s == "deferred"@ {
        3
    } else if s == "closed"@ {
        4
    } else {
        5
    }
}

/// A row's sort key: its status's rank, then its priority (9 when it has no integer
/// priority).
pub open spec fn row_key(row: JsonView) -> (int, int) {
    (
        status_rank(issue_status_spec(row)),
        match obj_get(row, "priority"@) {
            Some(v) => match as_i64_spec(v) {
                Some(p) => p as int,
                None => 9,
            },
            None => 9,
        },
    )
}

pub open spec fn key_lt(a: (int, int), b: (int, int)) -> bool {
    a.0 < b.0 || (a.0 == b.0 && a.1 < b.1)
}

/// Where a row with key `k` goes in sorted rows: before the first row whose key is
/// greater, after every row whose key is not.
pub open spec fn insert_pos(sorted: Seq<JsonView>, k: (int, int)) -> nat
    decreases sorted.len(),
{
    if sorted.len() == 0 {
        0
    } else if key_lt(k, row_key(sorted[0])) {
        0
    } else {
        1 + insert_pos(sorted.drop_first(), k)
    }
}

/// The rows sorted by key, rows with equal keys in their first order (a stable sort).
pub open spec fn stable_sorted(s: Seq<JsonView>) -> Seq<JsonView>
    decreases s.len(),
{
    if s.len() == 0 {
        Seq::empty()
    } else {
        let t = stable_sorted(s.drop_last());
        t.insert(insert_pos(t, row_key(s.last())) as int, s.last())
    }
}

/// How many issues have status `st`.
pub open spec fn count_status(issues: Seq<JsonView>, st: Seq<char>) -> nat
    decreases issues.len(),
{
    if issues.len() == 0 {
        0
    } else {
        count_status(issues.drop_last(), st) + if issue_status_spec(issues.last()) == st {
            1nat
        } else {
            0nat
        }
    }
}

pub open spec fn count_json(n: nat) -> JsonView {
    JsonView::Number(NumberView::PosInt(n as u64))
}

/// Counts by status, and the total.
pub open spec fn counts_spec(issues: Seq<JsonView>) -> JsonView {
    JsonView::Object(
        seq![
            ("blocked"@, count_json(count_status(issues, "blocked"@))),
            ("closed"@, count_json(count_status(issues, "closed"@))),
            ("deferred"@, count_json(count_status(issues, "deferred"@))),
            ("in_progress"@, count_json(count_status(issues, "in_progress"@))),
            ("open"@, count_json(count_status(issues, "open"@))),
            ("total"@, count_json(issues.len())),
        ],
    )
}

fn string_field<'a>(j: &'a Json, key: &str) -> (r: &'a str)
    ensures
        r@ == match obj_get(j@, key@) {
            Some(v) => match as_str_spec(v) {
                Some(s) => s,
                None => Seq::empty(),
            },
            None => Seq::empty(),
        },
{
    proof {
        reveal_strlit("");
    }
    match j.get(key) {
        Some(v) => match v.as_str() {
            Some(s) => s,
            None => "",
        },
        None => "",
    }
}

fn field_or_null_of(j: &Json, key: &str) -> (r: Json)
    ensures
        r@ == field_or_null(j@, key@),
{
    match j.get(key) {
        Some(v) => v.copy(),
        None => Json::Null,
    }
}

/// The row the view shows for one issue.
pub fn issue_row(issue: &Json) -> (r: Json)
    ensures
        r@ == issue_row_spec(issue@),
{
    let mut m: Vec<Member> = Vec::new();
    push_member(&mut m, "id", field_or_null_of(issue, "id"));
    push_member(&mut m, "issue_type", field_or_null_of(issue, "issue_type"));
    push_member(&mut m, "priority", field_or_null_of(issue, "priority"));
    push_member(&mut m, "status", Json::from_str(string_field(issue, "status")));
    push_member(&mut m, "title", field_or_null_of(issue, "title"));
    push_member(&mut m, "updated_at", field_or_null_of(issue, "updated_at"));
    let r = Json::object(m);
    assert(members_view(m@) =~= issue_row_spec(issue@)->Object_0);
    r
}

fn rank_of(s: &str) -> (r: u8)
    ensures
        r as int == status_rank(s@),
{
    if str_eq(s, "in_progress") {
        0
    } else if str_eq(s, "blocked") {
        1
    } else if str_eq(s, "open") {
        2
    } else if str_eq(s, "deferred") {
        3
    } else if str_eq(s, "closed") {
        4
    } else {
        5
    }
}

fn key_of(row: &Json) -> (r: (u8, i64))
    ensures
        (r.0 as int, r.1 as int) == row_key(row@),
{
    let rank = rank_of(string_field(row, "status"));
    let pri = match row.get("priority") {
        Some(v) => match v.as_i64() {
            Some(p) => p,
            None => 9,
        },
        None => 9,
    };
    (rank, pri)
}

/// `insert_pos` over the rows after the first `p`, when none of those `p` sorts after `k`.
proof fn lemma_insert_pos_skip(s: Seq<JsonView>, k: (int, int), p: int)
    requires
        0 <= p <= s.len(),
        forall|j: int| 0 <= j < p ==> !key_lt(k, #[trigger] row_key(s[j])),
    ensures
        insert_pos(s, k) == p + insert_pos(s.skip(p), k),
    decreases p,
{
    if p > 0 {
        lemma_insert_pos_skip(s.drop_first(), k, p - 1);
        assert(s.drop_first().skip(p - 1) =~= s.skip(p));
    } else {
        assert(s.skip(0) =~= s);
    }
}

/// The rows sorted stably by (status rank, priority).
pub fn sort_issue_rows(rows: &Vec<Json>) -> (r: Vec<Json>)
    ensures
        seq_view(r@) == stable_sorted(seq_view(rows@)),
{
    let ghost all = seq_view(rows@);
    let mut out: Vec<Json> = Vec::new();
    let mut i: usize = 0;
    while i < rows.len()
        invariant
            i <= rows@.len(),
            all == seq_view(rows@),
            seq_view(out@) == stable_sorted(all.take(i as int)),
        decreases rows.len() - i,
    {
        let (r0, p0) = key_of(&rows[i]);
        let ghost k = (r0 as int, p0 as int);
        let ghost sorted = seq_view(out@);
        let mut p: usize = 0;
        loop
            invariant
                p <= out@.len(),
                sorted == seq_view(out@),
                k == (r0 as int, p0 as int),
                forall|j: int| 0 <= j < p ==> !key_lt(k, #[trigger] row_key(sorted[j])),
            ensures
                p <= out@.len(),
                sorted == seq_view(out@),
                forall|j: int| 0 <= j < p ==> !key_lt(k, #[trigger] row_key(sorted[j])),
                p == out@.len() || key_lt(k, row_key(sorted[p as int])),
            decreases out.len() - p,
        {
            if p == out.len() {
                break;
            }
            let (r1, p1) = key_of(&out[p]);
            if r0 < r1 || (r0 == r1 && p0 < p1) {
                break;
            }
            p += 1;
        }
        proof {
            lemma_insert_pos_skip(sorted, k, p as int);
            if p < sorted.len() {
                assert(sorted.skip(p as int)[0] == sorted[p as int]);
            }
            let t = all.take(i + 1);
            assert(t.drop_last() =~= all.take(i as int));
            assert(t.last() == all[i as int]);
        }
        let row = rows[i].copy();
        out.insert(p, row);
        assert(seq_view(out@) =~= sorted.insert(p as int, all[i as int]));
        i += 1;
    }
    assert(all.take(i as int) =~= all);
    out
}

/// Rows in key order: no row has a smaller key than one before it.
pub open spec fn rows_in_key_order(s: Seq<JsonView>) -> bool {
    forall|i: int, j: int| 0 <= i < j < s.len() ==> !key_lt(#[trigger] row_key(s[j]), #[trigger] row_key(s[i]))
}

proof fn lemma_insert_pos(t: Seq<JsonView>, k: (int, int))
    requires
        rows_in_key_order(t),
    ensures
        insert_pos(t, k) <= t.len(),
        forall|j: int| 0 <= j < insert_pos(t, k) ==> !key_lt(k, #[trigger] row_key(t[j])),
        forall|j: int| insert_pos(t, k) <= j < t.len() ==> key_lt(k, #[trigger] row_key(t[j])),
    decreases t.len(),
{
    if t.len() > 0 {
        let d = t.drop_first();
        assert forall|i: int, j: int| 0 <= i < j < d.len() implies !key_lt(
            #[trigger] row_key(d[j]),
            #[trigger] row_key(d[i]),
        ) by {
            assert(d[i] == t[i + 1]);
            assert(d[j] == t[j + 1]);
        }
        lemma_insert_pos(d, k);
        if key_lt(k, row_key(t[0])) {
            assert forall|j: int| 0 <= j < t.len() implies key_lt(k, #[trigger] row_key(t[j])) by {
                if j > 0 {
                    assert(!key_lt(row_key(t[j]), row_key(t[0])));
                }
            }
        } else {
            assert forall|j: int| 0 <= j < insert_pos(t, k) implies !key_lt(
                k,
                #[trigger] row_key(t[j]),
            ) by {
                if j > 0 {
                    assert(t[j] == d[j - 1]);
                }
            }
            assert forall|j: int| insert_pos(t, k) <= j < t.len() implies key_lt(
                k,
                #[trigger] row_key(t[j]),
            ) by {
                assert(t[j] == d[j - 1]);
            }
        }
    }
}

/// The issue rows come out in key order, and are the same rows, each as often.
pub proof fn law_issue_rows_sorted(s: Seq<JsonView>)
    ensures
        rows_in_key_order(stable_sorted(s)),
        stable_sorted(s).to_multiset() == s.to_multiset(),
    decreases s.len(),
{
    broadcast use vstd::seq_lib::to_multiset_insert, vstd::seq_lib::to_multiset_build;

    if s.len() > 0 {
        law_issue_rows_sorted(s.drop_last());
        let t = stable_sorted(s.drop_last());
        let x = s.last();
        let k = row_key(x);
        let p = insert_pos(t, k);
        lemma_insert_pos(t, k);
        let r = t.insert(p as int, x);
        assert(r == stable_sorted(s));
        assert forall|i: int, j: int| 0 <= i < j < r.len() implies !key_lt(
            #[trigger] row_key(r[j]),
            #[trigger] row_key(r[i]),
        ) by {
            if j < p {
                assert(r[i] == t[i] && r[j] == t[j]);
            } else if j == p {
                assert(r[i] == t[i]);
            } else if i < p {
                assert(r[i] == t[i] && r[j] == t[j - 1]);
            } else if i == p {
                assert(r[j] == t[j - 1]);
            } else {
                assert(r[i] == t[i - 1] && r[j] == t[j - 1]);
            }
        }
        assert(s =~= s.drop_last().push(x));
        assert(r.to_multiset() == t.to_multiset().insert(x));
        assert(s.drop_last().push(x).to_multiset() == s.drop_last().to_multiset().insert(x));
    } else {
        assert(s =~= Seq::<JsonView>::empty());
    }
}


/// Counts by status, and the total.
pub fn status_counts(issues: &Vec<Json>) -> (r: Json)
    ensures
        r@ == counts_spec(seq_view(issues@)),
{
    let ghost all = seq_view(issues@);
    let mut open: usize = 0;
    let mut in_progress: usize = 0;
    let mut blocked: usize = 0;
    let mut closed: usize = 0;
    let mut deferred: usize = 0;
    let mut i: usize = 0;
    while i < issues.len()
        invariant
            i <= issues@.len(),
            all == seq_view(issues@),
            open == count_status(all.take(i as int), "open"@),
            in_progress == count_status(all.take(i as int), "in_progress"@),
            blocked == count_status(all.take(i as int), "blocked"@),
            closed == count_status(all.take(i as int), "closed"@),
            deferred == count_status(all.take(i as int), "deferred"@),
            open + in_progress + blocked + closed + deferred <= i,
        decreases issues.len() - i,
    {
        let st = string_field(&issues[i], "status");
        proof {
            let t = all.take(i + 1);
            assert(t.drop_last() =~= all.take(i as int));
            assert(t.last() == issues@[i as int]@);
            reveal_strlit("open");
            reveal_strlit("in_progress");
            reveal_strlit("blocked");
            reveal_strlit("closed");
            reveal_strlit("deferred");
            assert("open"@[0] != "in_progress"@[0] && "open"@[0] != "blocked"@[0]);
            assert("open"@[0] != "closed"@[0] && "open"@[0] != "deferred"@[0]);
            assert("in_progress"@[0] != "blocked"@[0] && "in_progress"@[0] != "closed"@[0]);
            assert("in_progress"@[0] != "deferred"@[0] && "blocked"@[0] != "closed"@[0]);
            assert("blocked"@[0] != "deferred"@[0] && "closed"@[0] != "deferred"@[0]);
        }
        if str_eq(st, "open") {
            open += 1;
        } else if str_eq(st, "in_progress") {
            in_progress += 1;
        } else if str_eq(st, "blocked") {
            blocked += 1;
        } else if str_eq(st, "closed") {
            closed += 1;
        } else if str_eq(st, "deferred") {
            deferred += 1;
        }
        i += 1;
    }
    assert(all.take(i as int) =~= all);
    let mut m: Vec<Member> = Vec::new();
    push_member(&mut m, "blocked", Json::uint(blocked as u64));
    push_member(&mut m, "closed", Json::uint(closed as u64));
    push_member(&mut m, "deferred", Json::uint(deferred as u64));
    push_member(&mut m, "in_progress", Json::uint(in_progress as u64));
    push_member(&mut m, "open", Json::uint(open as u64));
    push_member(&mut m, "total", Json::uint(issues.len() as u64));
    let r = Json::object(m);
    assert(members_view(m@) =~= counts_spec(all)->Object_0);
    r
}

// ------------------------------------------------------------ payloads

/// What `bd list --all --format json` came to: no `bd` found, a failing run (with
/// what it printed on stderr), or the program that answered and the issues it listed.
pub enum BdReply {
    Missing,
    Failed(String),
    Listed(String, Vec<Json>),
}

/// The answer for a directory that is not a bead store.
pub open spec fn not_beads_spec() -> JsonView {
    JsonView::Object(
        seq![
            ("is_beads"@, JsonView::Bool(false)),
            ("note"@, JsonView::Str("no .beads/ in this directory — not a bead store"@)),
        ],
    )
}

/// The answer when no `bd` could be run.
pub open spec fn bd_missing_spec() -> JsonView {
    JsonView::Object(
        seq![
            ("bd_found"@, JsonView::Bool(false)),
            ("is_beads"@, JsonView::Bool(true)),
            ("note"@, JsonView::Str("bd CLI not found (looked in ~/.local/bin and PATH)"@)),
        ],
    )
}

/// The answer when `bd` failed: what it said on stderr, or a plain note when it said
/// nothing.
pub open spec fn bd_failed_spec(stderr: Seq<char>) -> JsonView {
    JsonView::Object(
        seq![
            ("bd_found"@, JsonView::Bool(true)),
            ("is_beads"@, JsonView::Bool(true)),
            (
                "note"@,
                JsonView::Str(
                    if trim_spec(stderr).len() == 0 {
                        "bd list failed"@
                    } else {
                        trim_spec(stderr)
                    },
                ),
            ),
            ("ok"@, JsonView::Bool(false)),
        ],
    )
}

/// The Core Project View: the tracker's issues (counted by status, sorted by status
/// then priority) and the governance documents.
pub open spec fn project_payload_spec(
    cwd: Seq<char>,
    program: Seq<char>,
    issues: Seq<JsonView>,
    present: Seq<bool>,
    discovered: Seq<Seq<char>>,
) -> JsonView {
    JsonView::Object(
        seq![
            ("bd_found"@, JsonView::Bool(true)),
            ("bd_program"@, JsonView::Str(program)),
            ("counts"@, counts_spec(issues)),
            ("cwd"@, JsonView::Str(cwd)),
            ("docs"@, JsonView::Array(docs_spec(present, discovered))),
            ("is_beads"@, JsonView::Bool(true)),
            ("issues"@, JsonView::Array(stable_sorted(issues.map_values(|i: JsonView| issue_row_spec(i))))),
            ("ok"@, JsonView::Bool(true)),
        ],
    )
}

/// The whole answer, from whether the directory holds `.beads/`, what `bd` did, which
/// candidate documents exist (in candidate order), and what the convention discovered.
pub open spec fn project_state_spec(
    cwd: Seq<char>,
    is_beads: bool,
    bd: BdReply,
    present: Seq<bool>,
    discovered: Seq<Seq<char>>,
) -> JsonView {
    if !is_beads {
        not_beads_spec()
    } else {
        match bd {
            BdReply::Missing => bd_missing_spec(),
            BdReply::Failed(e) => bd_failed_spec(e@),
            BdReply::Listed(program, issues) => project_payload_spec(
                cwd,
                program@,
                seq_view(issues@),
                present,
                discovered,
            ),
        }
    }
}

/// The answer for a directory that is not a bead store.
pub fn not_beads() -> (r: Json)
    ensures
        r@ == not_beads_spec(),
{
    let mut m: Vec<Member> = Vec::new();
    push_member(&mut m, "is_beads", Json::Bool(false));
    push_member(&mut m, "note", Json::from_str("no .beads/ in this directory — not a bead store"));
    let r = Json::object(m);
    assert(members_view(m@) =~= not_beads_spec()->Object_0);
    r
}

fn bd_missing() -> (r: Json)
    ensures
        r@ == bd_missing_spec(),
{
    let mut m: Vec<Member> = Vec::new();
    push_member(&mut m, "bd_found", Json::Bool(false));
    push_member(&mut m, "is_beads", Json::Bool(true));
    push_member(&mut m, "note", Json::from_str("bd CLI not found (looked in ~/.local/bin and PATH)"));
    let r = Json::object(m);
    assert(members_view(m@) =~= bd_missing_spec()->Object_0);
    r
}

fn bd_failed(stderr: &str) -> (r: Json)
    ensures
        r@ == bd_failed_spec(stderr@),
{
    let err = trim(stderr);
    let e = chars_of(err.as_str());
    let note = if e.len() == 0 {
        let mut n = String::new();
        push_str(&mut n, "bd list failed");
        assert(Seq::<char>::empty() + "bd list failed"@ =~= "bd list failed"@);
        n
    } else {
        err
    };
    let mut m: Vec<Member> = Vec::new();
    push_member(&mut m, "bd_found", Json::Bool(true));
    push_member(&mut m, "is_beads", Json::Bool(true));
    push_member(&mut m, "note", Json::Str(note));
    push_member(&mut m, "ok", Json::Bool(false));
    let r = Json::object(m);
    assert(members_view(m@) =~= bd_failed_spec(stderr@)->Object_0);
    r
}

fn project_payload(
    cwd: &str,
    program: &str,
    issues: &Vec<Json>,
    present: &Vec<bool>,
    discovered: &Vec<String>,
) -> (r: Json)
    ensures
        r@ == project_payload_spec(
            cwd@,
            program@,
            seq_view(issues@),
            present@,
            string_views(discovered@),
        ),
{
    let ghost all = seq_view(issues@);
    let mut rows: Vec<Json> = Vec::new();
    let mut i: usize = 0;
    while i < issues.len()
        invariant
            i <= issues@.len(),
            all == seq_view(issues@),
            seq_view(rows@) == all.take(i as int).map_values(|x: JsonView| issue_row_spec(x)),
        decreases issues.len() - i,
    {
        let ghost before = seq_view(rows@);
        rows.push(issue_row(&issues[i]));
        assert(seq_view(rows@) =~= before.push(issue_row_spec(all[i as int])));
        assert(all.take(i + 1).map_values(|x: JsonView| issue_row_spec(x)) =~= all.take(
            i as int,
        ).map_values(|x: JsonView| issue_row_spec(x)).push(issue_row_spec(all[i as int])));
        i += 1;
    }
    assert(all.take(i as int) =~= all);
    let sorted = sort_issue_rows(&rows);
    let docs = doc_rows(present, discovered);
    let mut m: Vec<Member> = Vec::new();
    push_member(&mut m, "bd_found", Json::Bool(true));
    push_member(&mut m, "bd_program", Json::from_str(program));
    push_member(&mut m, "counts", status_counts(issues));
    push_member(&mut m, "cwd", Json::from_str(cwd));
    push_member(&mut m, "docs", Json::array(docs));
    push_member(&mut m, "is_beads", Json::Bool(true));
    push_member(&mut m, "issues", Json::array(sorted));
    push_member(&mut m, "ok", Json::Bool(true));
    let r = Json::object(m);
    assert(members_view(m@) =~= project_payload_spec(
        cwd@,
        program@,
        all,
        present@,
        string_views(discovered@),
    )->Object_0);
    r
}

/// Read the directory's beads issue tracker: the answer for the directory from
/// whether it holds `.beads/`, what `bd list` did, which candidate documents exist
/// (in candidate order), and the documents the convention discovered.
pub fn project_state(
    cwd: &str,
    is_beads: bool,
    bd: BdReply,
    present: &Vec<bool>,
    discovered: &Vec<String>,
) -> (r: Json)
    ensures
        r@ == project_state_spec(cwd@, is_beads, bd, present@, string_views(discovered@)),
{
    if !is_beads {
        return not_beads();
    }
    match bd {
        BdReply::Missing => bd_missing(),
        BdReply::Failed(e) => bd_failed(e.as_str()),
        BdReply::Listed(program, issues) => project_payload(
            cwd,
            program.as_str(),
            &issues,
            present,
            discovered,
        ),
    }
}

/// Where `bd` is looked for: the uv-installed wrapper under `$HOME` first, then `bd`
/// on the `PATH`.
pub fn bd_candidates(home: Option<&str>) -> (r: Vec<String>)
    ensures
        string_views(r@) == match home {
            Some(h) => seq![h@ + "/.local/bin/bd"@, "bd"@],
            None => seq!["bd"@],
        },
{
    let mut v: Vec<String> = Vec::new();
    match home {
        Some(h) => {
            let mut p = String::new();
            push_str(&mut p, h);
            push_str(&mut p, "/.local/bin/bd");
            assert(Seq::<char>::empty() + h@ =~= h@);
            v.push(p);
        },
        None => {},
    }
    let mut b = String::new();
    push_str(&mut b, "bd");
    assert(Seq::<char>::empty() + "bd"@ =~= "bd"@);
    v.push(b);
    proof {
        match home {
            Some(h) => {
                assert(string_views(v@) =~= seq![h@ + "/.local/bin/bd"@, "bd"@]);
            },
            None => {
                assert(string_views(v@) =~= seq!["bd"@]);
            },
        }
    }
    v
}

/// The `.beads/` directory of a project.
pub fn beads_path(cwd: &str) -> (r: String)
    ensures
        r@ == join_spec(cwd@, ".beads"@),
{
    join_path(cwd, ".beads")
}

/// Does this directory hold a beads store (`.beads/` present)? The answer is the
/// disk's; what is fixed is the directory asked about, `beads_path(cwd)`.
pub fn is_beads_dir(cwd: &str) -> bool {
    let p = beads_path(cwd);
    dir_exists(p.as_str())
}

/// Whether an issue's `status` is the string `st`.
pub open spec fn has_status(st: Seq<char>) -> spec_fn(JsonView) -> bool {
    |issue: JsonView| obj_get(issue, "status"@) == Some(JsonView::Str(st))
}

proof fn lemma_count_is_filter(issues: Seq<JsonView>, st: Seq<char>)
    requires
        st.len() > 0,
    ensures
        count_status(issues, st) == issues.filter(has_status(st)).len(),
    decreases issues.len(),
{
    reveal(Seq::filter);
    if issues.len() > 0 {
        lemma_count_is_filter(issues.drop_last(), st);
        let f = has_status(st);
        let sub = issues.drop_last().filter(f);
        assert(issues.filter(f) == (if f(issues.last()) {
            sub.push(issues.last())
        } else {
            sub
        }));
        assert((issue_status_spec(issues.last()) == st) == f(issues.last()));
    }
}

/// The Core Project View counts every issue once: under each of the five statuses it
/// reports how many issues have exactly that status, and under `total` how many
/// issues there are.
pub proof fn law_status_counts_count_each_status(issues: Seq<JsonView>)
    ensures
        forall|st: Seq<char>|
            #![trigger issues.filter(has_status(st))]
            st == "open"@ || st == "in_progress"@ || st == "blocked"@ || st == "closed"@ || st
                == "deferred"@ ==> obj_get(counts_spec(issues), st) == Some(
                JsonView::Number(NumberView::PosInt(issues.filter(has_status(st)).len() as u64)),
            ),
        obj_get(counts_spec(issues), "total"@) == Some(
            JsonView::Number(NumberView::PosInt(issues.len() as u64)),
        ),
{
    reveal_strlit("open");
    reveal_strlit("in_progress");
    reveal_strlit("blocked");
    reveal_strlit("closed");
    reveal_strlit("deferred");
    reveal_strlit("total");
    let c = counts_spec(issues);
    let m = c->Object_0;
    reveal_with_fuel(crate::json::member_lookup, 7);
    assert forall|st: Seq<char>|
        st == "open"@ || st == "in_progress"@ || st == "blocked"@ || st == "closed"@ || st
            == "deferred"@ implies obj_get(c, st) == Some(
        JsonView::Number(NumberView::PosInt(#[trigger] issues.filter(has_status(st)).len() as u64)),
    ) by {
        lemma_count_is_filter(issues, st);
        assert(m[0].0[0] == 'b' && m[1].0[0] == 'c' && m[2].0[0] == 'd' && m[3].0[0] == 'i' && m[4].0[0]
            == 'o' && m[5].0[0] == 't');
    }
    assert(m[0].0[0] != 't' && m[1].0[0] != 't' && m[2].0[0] != 't' && m[3].0[0] != 't' && m[4].0[0]
        != 't');
}

} // verus!
