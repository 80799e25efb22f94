//! The desktop shell's own decisions around the `spruce-grove` CLI: where the CLI and
//! the grove checkout are looked for, what a run is launched with, how the CLI's
//! printed answers are read, and the small payloads the webview is handed.
//!
//! Spawning processes, reading the environment and touching the disk stay with the
//! caller; every answer they produce is decided here.
use vstd::prelude::*;
use crate::ansi::{strip_ansi, strip_ansi_spec};
use crate::crypto::{b64_encode, base64_encode};
use crate::disk::{dir_exists, path_exists};
use crate::json::{members_view, push_member, seq_view, Json, JsonView, NumberView};
use crate::text::{ascii_lower_seq, ascii_lowercase, chars_of, contains_seq, dec_spec, find_char, is_blank, is_whitespace, is_ws, lead_ws, occurs_in, push_char, push_decimal, push_str, sort_strings, sorted_strings, str_eq, string_of_range, string_views, trim, trim_spec, trim_start_spec};

verus! {

broadcast use vstd::string::group_string_axioms;

// ------------------------------------------------------------ words

/// Index of the first white-space character of `s` (its length when there is none).
pub open spec fn ws_index(s: Seq<char>) -> nat
    decreases s.len(),
{
    if s.len() == 0 {
        0
    } else if is_ws(s[0]) {
        0
    } else {
        1 + ws_index(s.drop_first())
    }
}

pub proof fn lemma_ws_index(s: Seq<char>)
    ensures
        ws_index(s) <= s.len(),
        s.len() > 0 && !is_ws(s[0]) ==> ws_index(s) >= 1,
        forall|j: int| 0 <= j < ws_index(s) ==> !is_ws(#[trigger] s[j]),
        ws_index(s) < s.len() ==> is_ws(s[ws_index(s) as int]),
    decreases s.len(),
{
    if s.len() > 0 && !is_ws(s[0]) {
        lemma_ws_index(s.drop_first());
        assert forall|j: int| 0 <= j < ws_index(s) implies !is_ws(#[trigger] s[j]) by {
            if j > 0 {
                assert(s[j] == s.drop_first()[j - 1]);
            }
        }
    }
}

pub proof fn lemma_lead_ws(s: Seq<char>)
    ensures
        lead_ws(s) <= s.len(),
        forall|j: int| 0 <= j < lead_ws(s) ==> is_ws(#[trigger] s[j]),
        lead_ws(s) < s.len() ==> !is_ws(s[lead_ws(s) as int]),
    decreases s.len(),
{
    if s.len() > 0 && is_ws(s[0]) {
        lemma_lead_ws(s.drop_first());
        assert forall|j: int| 0 <= j < lead_ws(s) implies is_ws(#[trigger] s[j]) by {
            if j > 0 {
                assert(s[j] == s.drop_first()[j - 1]);
            }
        }
    }
}

/// `str::split_whitespace`: the maximal runs of non-white-space characters, in order.
pub open spec fn words(s: Seq<char>) -> Seq<Seq<char>>
    decreases s.len(),
{
    let t = trim_start_spec(s);
    if t.len() == 0 {
        Seq::empty()
    } else {
        proof {
            lemma_lead_ws(s);
            lemma_ws_index(t);
        }
        let k = ws_index(t);
        seq![t.take(k as int)] + words(t.skip(k as int))
    }
}

/// The words of `s`.
pub fn split_words(s: &str) -> (r: Vec<String>)
    ensures
        string_views(r@) == words(s@),
{
    let v = chars_of(s);
    let n = v.len();
    let mut out: Vec<String> = Vec::new();
    let mut pos: usize = 0;
    assert(v@.skip(0) =~= v@);
    loop
        invariant
            pos <= n == v@.len(),
            v@ == s@,
            words(v@) == string_views(out@) + words(v@.skip(pos as int)),
        decreases n - pos,
    {
        let ghost rest = v@.skip(pos as int);
        let mut a = pos;
        while a < n && is_whitespace(v[a])
            invariant
                pos <= a <= n == v@.len(),
                rest == v@.skip(pos as int),
                lead_ws(rest) == (a - pos) + lead_ws(v@.skip(a as int)),
            decreases n - a,
        {
            assert(v@.skip(a as int).drop_first() =~= v@.skip(a + 1));
            a += 1;
        }
        assert(trim_start_spec(rest) =~= v@.skip(a as int));
        if a == n {
            assert(v@.skip(n as int) =~= Seq::<char>::empty());
            assert(string_views(out@) + Seq::<Seq<char>>::empty() =~= string_views(out@));
            return out;
        }
        let mut b = a;
        while b < n && !is_whitespace(v[b])
            invariant
                a <= b <= n == v@.len(),
                ws_index(v@.skip(a as int)) == (b - a) + ws_index(v@.skip(b as int)),
            decreases n - b,
        {
            assert(v@.skip(b as int).drop_first() =~= v@.skip(b + 1));
            b += 1;
        }
        proof {
            let t = v@.skip(a as int);
            assert(t.take(b - a) =~= v@.subrange(a as int, b as int));
            assert(t.skip(b - a) =~= v@.skip(b as int));
            if b < n {
                assert(v@.skip(b as int)[0] == v@[b as int]);
            }
        }
        let w = string_of_range(&v, a, b);
        let ghost before = string_views(out@);
        out.push(w);
        assert(string_views(out@) =~= before.push(v@.subrange(a as int, b as int)));
        assert(before + (seq![v@.subrange(a as int, b as int)] + words(v@.skip(b as int))) =~= before.push(
            v@.subrange(a as int, b as int),
        ) + words(v@.skip(b as int)));
        pos = b;
    }
}

// ------------------------------------------------------------ locating the CLI

/// Where the grove's source checkout is looked for, most canonical first: an explicit
/// `GROVE_REPO` that is not blank, then the checkouts under `$HOME`.
pub open spec fn grove_repo_dirs_spec(explicit: Option<Seq<char>>, home: Option<Seq<char>>) -> Seq<Seq<char>> {
    let first: Seq<Seq<char>> = match explicit {
        Some(e) => if is_blank(e) {
            Seq::empty()
        } else {
            seq![e]
        },
        None => Seq::empty(),
    };
    let rest: Seq<Seq<char>> = match home {
        Some(h) => seq![h + "/dev/SPRUCE-GROVE-OS"@, h + "/SPRUCE-GROVE-OS"@],
        None => Seq::empty(),
    };
    first + rest
}

pub open spec fn opt_str(o: Option<&str>) -> Option<Seq<char>> {
    match o {
        Some(s) => Some(s@),
        None => None,
    }
}

fn joined(a: &str, b: &str) -> (r: String)
    ensures
        r@ == a@ + b@,
{
    let mut out = String::new();
    push_str(&mut out, a);
    push_str(&mut out, b);
    assert(Seq::<char>::empty() + a@ =~= a@);
    out
}

/// Where the grove's source checkout is looked for, most canonical first.
pub fn grove_repo_dirs(explicit: Option<&str>, home: Option<&str>) -> (r: Vec<String>)
    ensures
        string_views(r@) == grove_repo_dirs_spec(opt_str(explicit), opt_str(home)),
{
    let mut dirs: Vec<String> = Vec::new();
    match explicit {
        Some(e) => {
            if !crate::text::is_blank_str(e) {
                dirs.push(joined(e, ""));
                proof {
                    reveal_strlit("");
                    assert(e@ + ""@ =~= e@);
                }
            }
        },
        None => {},
    }
    let ghost first = string_views(dirs@);
    match home {
        Some(h) => {
            dirs.push(joined(h, "/dev/SPRUCE-GROVE-OS"));
            dirs.push(joined(h, "/SPRUCE-GROVE-OS"));
        },
        None => {},
    }
    assert(string_views(dirs@) =~= grove_repo_dirs_spec(opt_str(explicit), opt_str(home)));
    dirs
}

/// How to launch the CLI: a program and the arguments that lead every call.
pub struct CliCommand {
    pub program: String,
    pub prefix: Vec<String>,
}

/// `GROVE_CLI` read as a command: its first word launches, the rest lead every call;
/// `None` when it holds no word.
pub fn split_cli_prefix(grove_cli: &str) -> (r: Option<CliCommand>)
    ensures
        words(grove_cli@).len() == 0 ==> r is None,
        words(grove_cli@).len() > 0 ==> (r matches Some(c) && c.program@ == words(grove_cli@)[0]
            && string_views(c.prefix@) == words(grove_cli@).drop_first()),
{
    let mut parts = split_words(grove_cli);
    if parts.len() == 0 {
        return None;
    }
    let ghost all = string_views(parts@);
    let program = parts.remove(0);
    assert(string_views(parts@) =~= all.drop_first());
    Some(CliCommand { program, prefix: parts })
}

/// The places a CLI binary is looked for once `GROVE_CLI` gave none: the uv tool
/// install under `$HOME`, then each checkout's virtualenv.
pub open spec fn cli_paths_spec(home: Seq<char>, repo_dirs: Seq<Seq<char>>) -> Seq<Seq<char>> {
    seq![home + "/.local/bin/spruce-grove"@] + repo_dirs.map_values(
        |d: Seq<char>| d + "/.venv/bin/spruce-grove"@,
    )
}

/// The places a CLI binary is looked for once `GROVE_CLI` gave none, in order.
pub fn cli_paths(home: &str, repo_dirs: &Vec<String>) -> (r: Vec<String>)
    ensures
        string_views(r@) == cli_paths_spec(home@, string_views(repo_dirs@)),
{
    let mut out: Vec<String> = Vec::new();
    out.push(joined(home, "/.local/bin/spruce-grove"));
    let mut i: usize = 0;
    while i < repo_dirs.len()
        invariant
            i <= repo_dirs@.len(),
            string_views(out@) == seq![home@ + "/.local/bin/spruce-grove"@] + string_views(
                repo_dirs@,
            ).take(i as int).map_values(|d: Seq<char>| d + "/.venv/bin/spruce-grove"@),
        decreases repo_dirs.len() - i,
    {
        let ghost before = string_views(out@);
        out.push(joined(repo_dirs[i].as_str(), "/.venv/bin/spruce-grove"));
        assert(string_views(out@) =~= before.push(repo_dirs@[i as int]@ + "/.venv/bin/spruce-grove"@));
        assert(string_views(repo_dirs@).take(i + 1).map_values(
            |d: Seq<char>| d + "/.venv/bin/spruce-grove"@,
        ) =~= string_views(repo_dirs@).take(i as int).map_values(
            |d: Seq<char>| d + "/.venv/bin/spruce-grove"@,
        ).push(repo_dirs@[i as int]@ + "/.venv/bin/spruce-grove"@));
        i += 1;
    }
    assert(string_views(repo_dirs@).take(i as int) =~= string_views(repo_dirs@));
    out
}

/// The arguments of a prompt run: the launch prefix, `--quick-resume <cwd>` when
/// resuming, then the prompt with ask-user questions switched off.
pub open spec fn send_args_spec(prefix: Seq<Seq<char>>, resume: bool, cwd: Seq<char>, prompt: Seq<char>) -> Seq<
    Seq<char>,
> {
    prefix + (if resume {
        seq!["--quick-resume"@, cwd]
    } else {
        Seq::empty()
    }) + seq!["--prompt"@, prompt, "--disable-ask-user-question"@]
}

fn owned(s: &str) -> (r: String)
    ensures
        r@ == s@,
{
    let mut out = String::new();
    push_str(&mut out, s);
    assert(Seq::<char>::empty() + s@ =~= s@);
    out
}

/// The arguments of a prompt run.
pub fn send_args(prefix: &Vec<String>, resume: bool, cwd: &str, prompt: &str) -> (r: Vec<String>)
    ensures
        string_views(r@) == send_args_spec(string_views(prefix@), resume, cwd@, prompt@),
{
    let mut out: Vec<String> = Vec::new();
    let mut i: usize = 0;
    while i < prefix.len()
        invariant
            i <= prefix@.len(),
            string_views(out@) == string_views(prefix@).take(i as int),
        decreases prefix.len() - i,
    {
        let ghost before = string_views(out@);
        out.push(owned(prefix[i].as_str()));
        assert(string_views(out@) =~= before.push(prefix@[i as int]@));
        assert(string_views(prefix@).take(i + 1) =~= string_views(prefix@).take(i as int).push(
            prefix@[i as int]@,
        ));
        i += 1;
    }
    assert(string_views(prefix@).take(i as int) =~= string_views(prefix@));
    let ghost base = string_views(out@);
    if resume {
        out.push(owned("--quick-resume"));
        out.push(owned(cwd));
    }
    out.push(owned("--prompt"));
    out.push(owned(prompt));
    out.push(owned("--disable-ask-user-question"));
    assert(string_views(out@) =~= send_args_spec(string_views(prefix@), resume, cwd@, prompt@));
    out
}

/// `GROVE_CLI`'s words, when it is set.
pub open spec fn cli_words(grove_cli: Option<Seq<char>>) -> Seq<Seq<char>> {
    match grove_cli {
        Some(c) => words(c),
        None => Seq::empty(),
    }
}

/// The CLI binaries looked for on disk, in order: none without a home directory.
pub open spec fn cli_candidates_spec(home: Option<Seq<char>>, grove_repo: Option<Seq<char>>) -> Seq<Seq<char>> {
    match home {
        Some(h) => cli_paths_spec(h, grove_repo_dirs_spec(grove_repo, Some(h))),
        None => Seq::empty(),
    }
}

/// How to launch the CLI, given `GROVE_CLI`'s words, the candidate binaries and which
/// of them exist (one answer per candidate, in order): `GROVE_CLI` wins when it holds
/// a word (its first word launches, the rest lead every call); then the first
/// candidate that exists; else a bare `spruce-grove` on the `PATH`.
pub open spec fn cli_choice_spec(words: Seq<Seq<char>>, paths: Seq<Seq<char>>, found: Seq<bool>) -> (
    Seq<char>,
    Seq<Seq<char>>,
) {
    if words.len() > 0 {
        (words[0], words.drop_first())
    } else {
        match crate::disk::first_true(found) {
            Some(i) => (paths[i as int], Seq::empty()),
            None => ("spruce-grove"@, Seq::empty()),
        }
    }
}

pub open spec fn cli_view(c: CliCommand) -> (Seq<char>, Seq<Seq<char>>) {
    (c.program@, string_views(c.prefix@))
}

/// How to launch the CLI, from `GROVE_CLI`, the candidate binaries and the answers
/// of their existence probes.
pub fn cli_choice(grove_cli: Option<&str>, paths: &Vec<String>, found: &[bool]) -> (r: CliCommand)
    requires
        found@.len() == paths@.len(),
    ensures
        cli_view(r) == cli_choice_spec(cli_words(opt_str(grove_cli)), string_views(paths@), found@),
{
    match grove_cli {
        Some(c) => match split_cli_prefix(c) {
            Some(cmd) => {
                return cmd;
            },
            None => {},
        },
        None => {},
    }
    assert(cli_words(opt_str(grove_cli)).len() == 0);
    let r = match crate::disk::first_existing(found) {
        Some(i) => {
            proof {
                crate::disk::lemma_first_true(found@);
            }
            CliCommand { program: owned(paths[i].as_str()), prefix: Vec::new() }
        },
        None => CliCommand { program: owned("spruce-grove"), prefix: Vec::new() },
    };
    assert(string_views(r.prefix@) =~= Seq::<Seq<char>>::empty());
    r
}

/// Resolve how to launch the CLI (`GROVE_CLI`, then the candidate binaries, then
/// `spruce-grove` on the `PATH`): the candidates are probed on disk, in order, until
/// one exists, and the answer is what `cli_choice` makes of those probes.
pub fn cli_command(grove_cli: Option<&str>, home: Option<&str>, grove_repo: Option<&str>) -> (r:
    CliCommand)
    ensures
        exists|found: Seq<bool>|
            found.len() == cli_candidates_spec(opt_str(home), opt_str(grove_repo)).len() && cli_view(r)
                == #[trigger] cli_choice_spec(
                cli_words(opt_str(grove_cli)),
                cli_candidates_spec(opt_str(home), opt_str(grove_repo)),
                found,
            ),
{
    let paths = match home {
        Some(h) => {
            let dirs = grove_repo_dirs(grove_repo, home);
            cli_paths(h, &dirs)
        },
        None => Vec::new(),
    };
    assert(string_views(paths@) =~= cli_candidates_spec(opt_str(home), opt_str(grove_repo)));
    let skip_probes = match grove_cli {
        Some(c) => split_cli_prefix(c).is_some(),
        None => false,
    };
    let mut found: Vec<bool> = Vec::new();
    let mut seen = skip_probes;
    let mut i: usize = 0;
    while i < paths.len()
        invariant
            i <= paths@.len(),
            found@.len() == i,
        decreases paths.len() - i,
    {
        let hit = if seen {
            false
        } else {
            path_exists(paths[i].as_str())
        };
        seen = seen || hit;
        found.push(hit);
        i += 1;
    }
    let r = cli_choice(grove_cli, &paths, found.as_slice());
    assert(cli_view(r) == cli_choice_spec(
        cli_words(opt_str(grove_cli)),
        cli_candidates_spec(opt_str(home), opt_str(grove_repo)),
        found@,
    ));
    r
}

/// The working directory offered at start, given the grove checkouts and which of
/// them are directories on disk (one answer per checkout, in order): the first that
/// is, else `$HOME`, else `.`.
pub open spec fn default_cwd_choice_spec(dirs: Seq<Seq<char>>, found: Seq<bool>, home: Option<Seq<char>>) -> Seq<
    char,
> {
    match crate::disk::first_true(found) {
        Some(i) => dirs[i as int],
        None => match home {
            Some(h) => h,
            None => "."@,
        },
    }
}

/// The working directory offered at start, from the checkouts and the answers of
/// their directory probes.
pub fn default_cwd_choice(dirs: &Vec<String>, found: &[bool], home: Option<&str>) -> (r: String)
    requires
        found@.len() == dirs@.len(),
    ensures
        r@ == default_cwd_choice_spec(string_views(dirs@), found@, opt_str(home)),
{
    match crate::disk::first_existing(found) {
        Some(i) => {
            proof {
                crate::disk::lemma_first_true(found@);
            }
            owned(dirs[i].as_str())
        },
        None => match home {
            Some(h) => owned(h),
            None => owned("."),
        },
    }
}

/// The working directory offered at start: the grove checkouts are probed on disk,
/// in order, until one is a directory, and the answer is what `default_cwd_choice`
/// makes of those probes.
pub fn default_cwd(grove_repo: Option<&str>, home: Option<&str>) -> (r: String)
    ensures
        exists|found: Seq<bool>|
            found.len() == grove_repo_dirs_spec(opt_str(grove_repo), opt_str(home)).len() && r@
                == #[trigger] default_cwd_choice_spec(
                grove_repo_dirs_spec(opt_str(grove_repo), opt_str(home)),
                found,
                opt_str(home),
            ),
{
    let dirs = grove_repo_dirs(grove_repo, home);
    let mut found: Vec<bool> = Vec::new();
    let mut seen = false;
    let mut i: usize = 0;
    while i < dirs.len()
        invariant
            i <= dirs@.len(),
            found@.len() == i,
        decreases dirs.len() - i,
    {
        let hit = if seen {
            false
        } else {
            dir_exists(dirs[i].as_str())
        };
        seen = seen || hit;
        found.push(hit);
        i += 1;
    }
    let r = default_cwd_choice(&dirs, found.as_slice(), home);
    assert(r@ == default_cwd_choice_spec(string_views(dirs@), found@, opt_str(home)));
    r
}

// ------------------------------------------------------------ reading the CLI's answers

/// What `--version` printed, escapes removed and trimmed; when that is empty, an error
/// that quotes stderr the same way.
pub open spec fn version_text_spec(stdout: Seq<char>, stderr: Seq<char>) -> Result<Seq<char>, Seq<char>> {
    let text = trim_spec(strip_ansi_spec(stdout));
    if text.len() == 0 {
        Err("no version output (stderr: "@ + trim_spec(strip_ansi_spec(stderr)) + ")"@)
    } else {
        Ok(text)
    }
}

pub open spec fn result_view(r: Result<String, String>) -> Result<Seq<char>, Seq<char>> {
    match r {
        Ok(s) => Ok(s@),
        Err(e) => Err(e@),
    }
}

fn clean(s: &str) -> (r: String)
    ensures
        r@ == trim_spec(strip_ansi_spec(s@)),
{
    let stripped = strip_ansi(s);
    trim(stripped.as_str())
}

/// The version line the sidebar shows.
pub fn version_text(stdout: &str, stderr: &str) -> (r: Result<String, String>)
    ensures
        result_view(r) == version_text_spec(stdout@, stderr@),
{
    let text = clean(stdout);
    if chars_of(text.as_str()).len() == 0 {
        let mut e = owned("no version output (stderr: ");
        push_str(&mut e, clean(stderr).as_str());
        push_str(&mut e, ")");
        Err(e)
    } else {
        Ok(text)
    }
}

/// What `--transcribe` came to: on failure what it said on stderr, trimmed (or the exit
/// status when it said nothing); on success the transcript, escapes removed and
/// trimmed, which must not be empty.
pub open spec fn transcript_spec(success: bool, status: Seq<char>, stderr: Seq<char>, stdout: Seq<char>) -> Result<
    Seq<char>,
    Seq<char>,
> {
    if !success {
        if trim_spec(stderr).len() == 0 {
            Err("transcribe failed ("@ + status + ")"@)
        } else {
            Err(trim_spec(stderr))
        }
    } else {
        let text = trim_spec(strip_ansi_spec(stdout));
        if text.len() == 0 {
            Err("transcript came back empty"@)
        } else {
            Ok(text)
        }
    }
}

/// The transcript, or why there is none. `status` is how the exit status reads.
pub fn transcript_text(success: bool, status: &str, stderr: &str, stdout: &str) -> (r: Result<
    String,
    String,
>)
    ensures
        result_view(r) == transcript_spec(success, status@, stderr@, stdout@),
{
    if !success {
        let err = trim(stderr);
        if chars_of(err.as_str()).len() == 0 {
            let mut e = owned("transcribe failed (");
            push_str(&mut e, status);
            push_str(&mut e, ")");
            return Err(e);
        }
        return Err(err);
    }
    let text = clean(stdout);
    if chars_of(text.as_str()).len() == 0 {
        Err(owned("transcript came back empty"))
    } else {
        Ok(text)
    }
}

/// Where the JSON array of `--console --json` starts: escapes are removed first (a CSI
/// sequence holds a `[`), then the text from the first `[` on. A failed run answers
/// with its stderr, trimmed.
pub open spec fn console_json_spec(success: bool, stdout: Seq<char>, stderr: Seq<char>) -> Result<
    Seq<char>,
    Seq<char>,
> {
    if !success {
        Err("console query failed (stderr: "@ + trim_spec(stderr) + ")"@)
    } else {
        let text = strip_ansi_spec(stdout);
        match crate::text::index_of(text, '[') {
            Some(i) => Ok(text.skip(i as int)),
            None => Err("console output had no JSON array"@),
        }
    }
}

/// The JSON text of the open sessions, or why there is none.
pub fn console_json_text(success: bool, stdout: &str, stderr: &str) -> (r: Result<String, String>)
    ensures
        result_view(r) == console_json_spec(success, stdout@, stderr@),
{
    if !success {
        let mut e = owned("console query failed (stderr: ");
        push_str(&mut e, trim(stderr).as_str());
        push_str(&mut e, ")");
        return Err(e);
    }
    let text = strip_ansi(stdout);
    let v = chars_of(text.as_str());
    let n = v.len();
    let start = find_char(&v, 0, n, '[');
    assert(v@.subrange(0, n as int) =~= v@);
    if start == n {
        return Err(owned("console output had no JSON array"));
    }
    assert(v@.subrange(start as int, n as int) =~= v@.skip(start as int));
    Ok(string_of_range(&v, start, n))
}

// ------------------------------------------------------------ dictation and media

/// The container a dictation's MIME type names: `mp4`, `ogg`, else `webm`.
pub open spec fn dictation_ext_spec(mime: Option<Seq<char>>) -> Seq<char> {
    match mime {
        Some(m) => if occurs_in(ascii_lower_seq(m), "mp4"@) {
            "mp4"@
        } else if occurs_in(ascii_lower_seq(m), "ogg"@) {
            "ogg"@
        } else {
            "webm"@
        },
        None => "webm"@,
    }
}

/// The extension a dictation is saved under.
pub fn dictation_extension(mime: Option<&str>) -> (r: &'static str)
    ensures
        r@ == dictation_ext_spec(opt_str(mime)),
{
    match mime {
        Some(m) => {
            let low = ascii_lowercase(m);
            let mp4 = chars_of("mp4");
            let ogg = chars_of("ogg");
            if contains_seq(&low, &mp4) {
                "mp4"
            } else if contains_seq(&low, &ogg) {
                "ogg"
            } else {
                "webm"
            }
        },
        None => "webm",
    }
}

/// The file a dictation is saved as: `dictation-<millis>.<ext>`.
pub fn dictation_file_name(stamp: u64, mime: Option<&str>) -> (r: String)
    ensures
        r@ == "dictation-"@ + dec_spec(stamp as nat) + "."@ + dictation_ext_spec(opt_str(mime)),
{
    let mut out = owned("dictation-");
    push_decimal(&mut out, stamp);
    push_str(&mut out, ".");
    push_str(&mut out, dictation_extension(mime));
    out
}

/// The MIME type of an image by its extension (any case); other types are refused.
pub open spec fn image_mime_spec(ext: Seq<char>) -> Result<Seq<char>, Seq<char>> {
    let e = ascii_lower_seq(ext);
    if e == "png"@ {
        Ok("image/png"@)
    } else if e == "jpg"@ || e == "jpeg"@ {
        Ok("image/jpeg"@)
    } else if e == "gif"@ {
        Ok("image/gif"@)
    } else if e == "webp"@ {
        Ok("image/webp"@)
    } else {
        Err("unsupported image type: "@ + e)
    }
}

/// The MIME type of an image by its extension.
pub fn image_mime(ext: &str) -> (r: Result<&'static str, String>)
    ensures
        match image_mime_spec(ext@) {
            Ok(m) => r matches Ok(x) && x@ == m,
            Err(e) => r matches Err(x) && x@ == e,
        },
{
    let low = ascii_lowercase(ext);
    let e = string_of_range(&low, 0, low.len());
    assert(low@.subrange(0, low@.len() as int) =~= low@);
    if str_eq(e.as_str(), "png") {
        Ok("image/png")
    } else if str_eq(e.as_str(), "jpg") || str_eq(e.as_str(), "jpeg") {
        Ok("image/jpeg")
    } else if str_eq(e.as_str(), "gif") {
        Ok("image/gif")
    } else if str_eq(e.as_str(), "webp") {
        Ok("image/webp")
    } else {
        let mut msg = owned("unsupported image type: ");
        push_str(&mut msg, e.as_str());
        Err(msg)
    }
}

/// The largest image the look-in panel takes, in bytes.
pub const IMAGE_MAX_BYTES: usize = 20971520;

/// An image as a data URL, unless it is over the size cap.
pub fn image_data_url(mime: &str, bytes: &[u8]) -> (r: Result<String, String>)
    ensures
        bytes@.len() > IMAGE_MAX_BYTES ==> result_view(r) == Err::<Seq<char>, Seq<char>>(
            "image too large"@,
        ),
        bytes@.len() <= IMAGE_MAX_BYTES ==> result_view(r) == Ok::<Seq<char>, Seq<char>>(
            "data:"@ + mime@ + ";base64,"@ + base64_encode(bytes@),
        ),
{
    if bytes.len() > IMAGE_MAX_BYTES {
        return Err(owned("image too large"));
    }
    let mut out = owned("data:");
    push_str(&mut out, mime);
    push_str(&mut out, ";base64,");
    push_str(&mut out, b64_encode(bytes).as_str());
    Ok(out)
}

// ------------------------------------------------------------ boot markers

/// A marker name made safe for a file name: ASCII letters, digits, `-` and `_` kept,
/// anything else read as `_`.
pub open spec fn safe_name_spec(name: Seq<char>) -> Seq<char> {
    name.map_values(
        |c: char|
            if ('a' <= c && c <= 'z') || ('A' <= c && c <= 'Z') || ('0' <= c && c <= '9') || c
                == '-' || c == '_' {
                c
            } else {
                '_'
            },
    )
}

/// The marker file for a boot step: `sg-boot-<safe name>.txt`.
pub fn boot_marker_file(name: &str) -> (r: String)
    ensures
        r@ == "sg-boot-"@ + safe_name_spec(name@) + ".txt"@,
{
    let v = chars_of(name);
    let mut out = owned("sg-boot-");
    let ghost base = out@;
    let mut i: usize = 0;
    while i < v.len()
        invariant
            i <= v@.len(),
            v@ == name@,
            base == "sg-boot-"@,
            out@ == base + safe_name_spec(v@.take(i as int)),
        decreases v.len() - i,
    {
        let c = v[i];
        let keep = ('a' <= c && c <= 'z') || ('A' <= c && c <= 'Z') || ('0' <= c && c <= '9') || c
            == '-' || c == '_';
        let d = if keep {
            c
        } else {
            '_'
        };
        push_char(&mut out, d);
        assert(safe_name_spec(v@.take(i + 1)) =~= safe_name_spec(v@.take(i as int)).push(d));
        i += 1;
    }
    assert(v@.take(i as int) =~= v@);
    push_str(&mut out, ".txt");
    out
}

/// What a boot marker holds: when it was written, then the note.
pub fn boot_marker_text(stamp: u64, note: Option<&str>) -> (r: String)
    ensures
        r@ == dec_spec(stamp as nat) + " "@ + match note {
            Some(n) => n@,
            None => Seq::<char>::empty(),
        },
{
    let mut out = String::new();
    push_decimal(&mut out, stamp);
    push_str(&mut out, " ");
    match note {
        Some(n) => push_str(&mut out, n),
        None => {},
    }
    assert(Seq::<char>::empty() + dec_spec(stamp as nat) =~= dec_spec(stamp as nat));
    out
}

/// The bridge-probe marker of one process: per process, so an earlier instance's
/// answer can never stand for a later probe.
pub fn bridge_probe_marker_name(pid: u32) -> (r: String)
    ensures
        r@ == "spruce-grove-bridge-probe-"@ + dec_spec(pid as nat),
{
    let mut out = owned("spruce-grove-bridge-probe-");
    push_decimal(&mut out, pid as u64);
    out
}

/// What the bridge-probe marker holds.
pub fn bridge_probe_text(stamp: u64) -> (r: String)
    ensures
        r@ == "ok "@ + dec_spec(stamp as nat),
{
    let mut out = owned("ok ");
    push_decimal(&mut out, stamp);
    out
}

// ------------------------------------------------------------ directory picker

/// A listing never shows more than this many directories.
pub const MAX_DIR_ENTRIES: usize = 500;

/// Is the name hidden (a dotfile)?
pub open spec fn is_hidden(name: Seq<char>) -> bool {
    name.len() > 0 && name[0] == '.'
}

/// The names that are not hidden, in listing order.
pub open spec fn visible_names(names: Seq<Seq<char>>) -> Seq<Seq<char>>
    decreases names.len(),
{
    if names.len() == 0 {
        Seq::empty()
    } else if is_hidden(names.last()) {
        visible_names(names.drop_last())
    } else {
        visible_names(names.drop_last()).push(names.last())
    }
}

/// The picker's listing of `path`, from the names of its subdirectories in listing
/// order: the first `MAX_DIR_ENTRIES` visible ones, sorted, how many were visible,
/// and the parent to climb to.
pub open spec fn list_dirs_spec(path: Seq<char>, parent: Option<Seq<char>>, names: Seq<Seq<char>>) -> JsonView {
    let vis = visible_names(names);
    let kept = vis.take(
        if vis.len() < MAX_DIR_ENTRIES {
            vis.len() as int
        } else {
            MAX_DIR_ENTRIES as int
        },
    );
    JsonView::Object(
        seq![
            ("dirs"@, JsonView::Array(sorted_strings(kept).map_values(|d: Seq<char>| JsonView::Str(d)))),
            ("parent"@, match parent {
                Some(p) => JsonView::Str(p),
                None => JsonView::Null,
            }),
            ("path"@, JsonView::Str(path)),
            ("total"@, JsonView::Number(NumberView::PosInt(vis.len() as u64))),
        ],
    )
}

/// The picker's listing of `path`.
pub fn list_dirs_payload(path: &str, parent: Option<&str>, names: &Vec<String>) -> (r: Json)
    ensures
        r@ == list_dirs_spec(path@, opt_str(parent), string_views(names@)),
{
    let ghost all = string_views(names@);
    let mut kept: Vec<String> = Vec::new();
    let mut total: usize = 0;
    let mut i: usize = 0;
    while i < names.len()
        invariant
            i <= names@.len(),
            all == string_views(names@),
            total == visible_names(all.take(i as int)).len(),
            total <= i,
            string_views(kept@) == visible_names(all.take(i as int)).take(
                if total < MAX_DIR_ENTRIES {
                    total as int
                } else {
                    MAX_DIR_ENTRIES as int
                },
            ),
        decreases names.len() - i,
    {
        let name = names[i].as_str();
        let v = chars_of(name);
        proof {
            let t = all.take(i + 1);
            assert(t.drop_last() =~= all.take(i as int));
            assert(t.last() == name@);
        }
        if !(v.len() > 0 && v[0] == '.') {
            let ghost vis = visible_names(all.take(i as int));
            if kept.len() < MAX_DIR_ENTRIES {
                let ghost before = string_views(kept@);
                kept.push(owned(name));
                assert(string_views(kept@) =~= before.push(name@));
                assert(vis.push(name@).take(total + 1) =~= vis.take(total as int).push(name@));
                assert(vis.take(total as int) =~= vis);
            } else {
                assert(string_views(kept@).len() == kept@.len());
                assert(total >= MAX_DIR_ENTRIES);
                assert(vis.len() >= MAX_DIR_ENTRIES);
                assert(vis.push(name@).take(MAX_DIR_ENTRIES as int) =~= vis.take(
                    MAX_DIR_ENTRIES as int,
                ));
            }
            total += 1;
        }
        i += 1;
    }
    assert(all.take(i as int) =~= all);
    let dirs = sort_strings(&kept);
    let ghost dv = string_views(dirs@);
    let mut arr: Vec<Json> = Vec::new();
    let mut j: usize = 0;
    while j < dirs.len()
        invariant
            j <= dirs@.len(),
            dv == string_views(dirs@),
            seq_view(arr@) == dv.take(j as int).map_values(|d: Seq<char>| JsonView::Str(d)),
        decreases dirs.len() - j,
    {
        let ghost before = seq_view(arr@);
        arr.push(Json::from_str(dirs[j].as_str()));
        assert(seq_view(arr@) =~= before.push(JsonView::Str(dv[j as int])));
        assert(dv.take(j + 1).map_values(|d: Seq<char>| JsonView::Str(d)) =~= dv.take(
            j as int,
        ).map_values(|d: Seq<char>| JsonView::Str(d)).push(JsonView::Str(dv[j as int])));
        j += 1;
    }
    assert(dv.take(j as int) =~= dv);
    let ghost av = seq_view(arr@);
    let mut m = Vec::new();
    push_member(&mut m, "dirs", Json::array(arr));
    push_member(
        &mut m,
        "parent",
        match parent {
            Some(p) => Json::from_str(p),
            None => Json::Null,
        },
    );
    push_member(&mut m, "path", Json::from_str(path));
    push_member(&mut m, "total", Json::uint(total as u64));
    let r = Json::object(m);
    assert(members_view(m@) =~= list_dirs_spec(path@, opt_str(parent), all)->Object_0);
    r
}

// ------------------------------------------------------------ laws

/// A boot marker's name is a safe file name: ASCII letters, digits, `-` and `_` only.
pub proof fn law_marker_names_are_safe(name: Seq<char>)
    ensures
        forall|i: int|
            0 <= i < safe_name_spec(name).len() ==> {
                let c = #[trigger] safe_name_spec(name)[i];
                ('a' <= c && c <= 'z') || ('A' <= c && c <= 'Z') || ('0' <= c && c <= '9') || c
                    == '-' || c == '_'
            },
{
}

/// Every word is non-empty and holds no white space.
pub proof fn law_words_are_words(s: Seq<char>)
    ensures
        forall|i: int|
            0 <= i < words(s).len() ==> #[trigger] words(s)[i].len() > 0 && forall|j: int|
                0 <= j < words(s)[i].len() ==> !is_ws(words(s)[i][j]),
    decreases s.len(),
{
    let t = trim_start_spec(s);
    if t.len() > 0 {
        lemma_lead_ws(s);
        lemma_ws_index(t);
        let k = ws_index(t);
        law_words_are_words(t.skip(k as int));
        let w = t.take(k as int);
        let rest = words(t.skip(k as int));
        assert(words(s) == seq![w] + rest);
        assert forall|i: int| 0 <= i < words(s).len() implies #[trigger] words(s)[i].len() > 0
            && forall|j: int| 0 <= j < words(s)[i].len() ==> !is_ws(words(s)[i][j]) by {
            if i == 0 {
                assert(words(s)[0] == w);
                assert forall|j: int| 0 <= j < w.len() implies !is_ws(w[j]) by {
                    assert(w[j] == t[j]);
                }
            } else {
                assert(words(s)[i] == rest[i - 1]);
            }
        }
    }
}

/// The picker lists directories in order, never a hidden one, and at most
/// `MAX_DIR_ENTRIES` of them.
pub proof fn law_listing_is_sorted_visible_and_capped(names: Seq<Seq<char>>)
    ensures
        ({
            let vis = visible_names(names);
            let kept = vis.take(
                if vis.len() < MAX_DIR_ENTRIES {
                    vis.len() as int
                } else {
                    MAX_DIR_ENTRIES as int
                },
            );
            let dirs = sorted_strings(kept);
            &&& crate::text::in_order(dirs)
            &&& dirs.len() <= MAX_DIR_ENTRIES
            &&& forall|i: int| 0 <= i < dirs.len() ==> !is_hidden(#[trigger] dirs[i])
        }),
{
    let vis = visible_names(names);
    let kept = vis.take(
        if vis.len() < MAX_DIR_ENTRIES {
            vis.len() as int
        } else {
            MAX_DIR_ENTRIES as int
        },
    );
    let dirs = sorted_strings(kept);
    crate::text::law_sorted_strings(kept);
    lemma_visible_names(names);
    vstd::seq_lib::to_multiset_len(dirs);
    vstd::seq_lib::to_multiset_len(kept);
    assert forall|i: int| 0 <= i < dirs.len() implies !is_hidden(#[trigger] dirs[i]) by {
        vstd::seq_lib::to_multiset_contains(dirs, dirs[i]);
        vstd::seq_lib::to_multiset_contains(kept, dirs[i]);
        assert(dirs.contains(dirs[i]));
        let j = choose|j: int| 0 <= j < kept.len() && kept[j] == dirs[i];
        assert(kept[j] == vis[j]);
    }
}

proof fn lemma_visible_names(names: Seq<Seq<char>>)
    ensures
        forall|i: int| 0 <= i < visible_names(names).len() ==> !is_hidden(#[trigger] visible_names(names)[i]),
    decreases names.len(),
{
    if names.len() > 0 {
        let d = names.drop_last();
        lemma_visible_names(d);
        let v = visible_names(d);
        if !is_hidden(names.last()) {
            assert forall|i: int| 0 <= i < v.push(names.last()).len() implies !is_hidden(
                #[trigger] v.push(names.last())[i],
            ) by {
                if i < v.len() {
                    assert(v.push(names.last())[i] == v[i]);
                }
            }
        }
    }
}

} // verus!
