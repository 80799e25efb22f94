//! The recording library: sessions of takes, and every rule that edits them.
//!
//! The index lives on disk as JSON; reading and writing it, and the audio blobs,
//! is the caller's part. Everything here works on the loaded index and says
//! exactly what each command makes of it.
use vstd::prelude::*;
use crate::clock::now_ms;
use crate::text::{
    ascii_lower_seq, ascii_lowercase, chars_of, contains_seq, dec_spec, digit_char, find_char, hex_spec,
    index_of, is_blank, join_path, join_spec, last_index_of, lines_spec, occurs_in, rfind_char, push_char, push_decimal_pad3, push_hex, push_str,
    seq_equal, str_eq, string_of_range, strip_cr, trim, trim_bounds, trim_spec, zero_pad,
    is_blank_str, push_range, push_decimal, has_prefix, has_prefix_at,
};

verus! {

broadcast use vstd::string::group_string_axioms;

/// One captured take: audio + what we made of it.
pub struct Take {
    /// File name inside the recording's directory (never a path).
    pub file: String,
    /// Container hint from the recorder, for honest extension naming.
    pub mime: String,
    pub created_ms: u64,
    /// The recorder's duration in seconds, as the bits of an `f64`.
    pub duration_bits: u64,
    /// The transcript, editable in place.
    pub transcript: String,
}

pub struct TakeView {
    pub file: Seq<char>,
    pub mime: Seq<char>,
    pub created_ms: u64,
    pub duration_bits: u64,
    pub transcript: Seq<char>,
}

impl View for Take {
    type V = TakeView;

    open spec fn view(&self) -> TakeView {
        TakeView {
            file: self.file@,
            mime: self.mime@,
            created_ms: self.created_ms,
            duration_bits: self.duration_bits,
            transcript: self.transcript@,
        }
    }
}

/// A named editing session — an ordered list of takes plus its summary.
pub struct Recording {
    pub id: String,
    pub name: String,
    pub created_ms: u64,
    pub updated_ms: u64,
    /// The operator's overall summary of the session.
    pub summary: String,
    /// Locked means "this is what was committed" — the UI goes read-only.
    pub locked: bool,
    pub takes: Vec<Take>,
}

pub struct RecordingView {
    pub id: Seq<char>,
    pub name: Seq<char>,
    pub created_ms: u64,
    pub updated_ms: u64,
    pub summary: Seq<char>,
    pub locked: bool,
    pub takes: Seq<TakeView>,
}

pub open spec fn takes_view(s: Seq<Take>) -> Seq<TakeView> {
    s.map_values(|t: Take| t@)
}

impl View for Recording {
    type V = RecordingView;

    open spec fn view(&self) -> RecordingView {
        RecordingView {
            id: self.id@,
            name: self.name@,
            created_ms: self.created_ms,
            updated_ms: self.updated_ms,
            summary: self.summary@,
            locked: self.locked,
            takes: takes_view(self.takes@),
        }
    }
}

/// The index as values.
pub open spec fn recs_view(s: Seq<Recording>) -> Seq<RecordingView> {
    s.map_values(|r: Recording| r@)
}

/// A partial update; every field is optional so one command covers the lot.
#[derive(Default)]
pub struct Patch {
    pub name: Option<String>,
    pub summary: Option<String>,
    pub locked: Option<bool>,
    /// Replace one take's transcript.
    pub take_index: Option<usize>,
    pub transcript: Option<String>,
}

/// Why a library command was refused.
pub enum RecError {
    /// The recorder handed over no audio.
    Empty,
    BadId(String),
    NotFound(String),
    Locked,
    NoTake(usize, String),
    BadTakeFile(String),
    /// The splice order's length differs from the number of takes.
    SpliceLength(usize, usize),
    SpliceRange(usize),
    SpliceRepeat,
}

pub enum RecErrorView {
    Empty,
    BadId(Seq<char>),
    NotFound(Seq<char>),
    Locked,
    NoTake(usize, Seq<char>),
    BadTakeFile(Seq<char>),
    SpliceLength(usize, usize),
    SpliceRange(usize),
    SpliceRepeat,
}

impl View for RecError {
    type V = RecErrorView;

    open spec fn view(&self) -> RecErrorView {
        match self {
            RecError::Empty => RecErrorView::Empty,
            RecError::BadId(s) => RecErrorView::BadId(s@),
            RecError::NotFound(s) => RecErrorView::NotFound(s@),
            RecError::Locked => RecErrorView::Locked,
            RecError::NoTake(i, s) => RecErrorView::NoTake(*i, s@),
            RecError::BadTakeFile(s) => RecErrorView::BadTakeFile(s@),
            RecError::SpliceLength(a, b) => RecErrorView::SpliceLength(*a, *b),
            RecError::SpliceRange(i) => RecErrorView::SpliceRange(*i),
            RecError::SpliceRepeat => RecErrorView::SpliceRepeat,
        }
    }
}

impl Take {
    pub fn copy(&self) -> (r: Take)
        ensures
            r@ == self@,
    {
        Take {
            file: self.file.clone(),
            mime: self.mime.clone(),
            created_ms: self.created_ms,
            duration_bits: self.duration_bits,
            transcript: self.transcript.clone(),
        }
    }
}

pub fn copy_takes(v: &Vec<Take>) -> (r: Vec<Take>)
    ensures
        takes_view(r@) == takes_view(v@),
{
    let mut out: Vec<Take> = Vec::new();
    let mut i: usize = 0;
    while i < v.len()
        invariant
            i <= v@.len(),
            out@.len() == i,
            takes_view(out@) == takes_view(v@.take(i as int)),
        decreases v.len() - i,
    {
        let ghost prev = out@;
        out.push(v[i].copy());
        proof {
            assert forall|j: int| 0 <= j < i + 1 implies #[trigger] out@[j]@ == v@[j]@ by {
                if j < i {
                    assert(takes_view(prev)[j] == takes_view(v@.take(i as int))[j]);
                }
            }
        }
        i += 1;
        assert(takes_view(out@) =~= takes_view(v@.take(i as int)));
    }
    assert(v@.take(v@.len() as int) =~= v@);
    out
}

impl Recording {
    pub fn copy(&self) -> (r: Recording)
        ensures
            r@ == self@,
    {
        Recording {
            id: self.id.clone(),
            name: self.name.clone(),
            created_ms: self.created_ms,
            updated_ms: self.updated_ms,
            summary: self.summary.clone(),
            locked: self.locked,
            takes: copy_takes(&self.takes),
        }
    }
}

// ------------------------------------------------------------- id rules

pub open spec fn id_char(c: char) -> bool {
    ('a' <= c && c <= 'z') || ('A' <= c && c <= 'Z') || ('0' <= c && c <= '9') || c == '-'
        || c == '_'
}

/// A plain token: 1..=64 ASCII letters, digits, `-` or `_` (so bytes and characters
/// coincide), which can never name a path outside the library root.
pub open spec fn valid_id_spec(id: Seq<char>) -> bool {
    0 < id.len() <= 64 && forall|i: int| 0 <= i < id.len() ==> #[trigger] id_char(id[i])
}

/// A recording id must be a plain token: it becomes a directory name, and a
/// crafted id must never be able to step outside the library root.
pub fn valid_id(id: &str) -> (r: bool)
    ensures
        r == valid_id_spec(id@),
{
    let v = chars_of(id);
    if v.len() == 0 || v.len() > 64 {
        return false;
    }
    let mut i: usize = 0;
    while i < v.len()
        invariant
            v@ == id@,
            i <= v@.len(),
            forall|j: int| 0 <= j < i ==> #[trigger] id_char(v@[j]),
        decreases v.len() - i,
    {
        let c = v[i];
        if !(('a' <= c && c <= 'z') || ('A' <= c && c <= 'Z') || ('0' <= c && c <= '9') || c
            == '-' || c == '_') {
            assert(!id_char(id@[i as int]));
            return false;
        }
        i += 1;
    }
    true
}

/// A bare file name: non-empty, at most 128 UTF-8 bytes, no `/` or `\`, not `.` or `..`.
pub open spec fn valid_take_file_spec(file: Seq<char>) -> bool {
    &&& file.len() > 0
    &&& vstd::utf8::encode_utf8(file).len() <= 128
    &&& index_of(file, '/') is None
    &&& index_of(file, '\\') is None
    &&& file != "."@
    &&& file != ".."@
}

/// A take file must be a bare file name — no separators, no traversal.
pub fn valid_take_file(file: &str) -> (r: bool)
    ensures
        r == valid_take_file_spec(file@),
{
    let v = chars_of(file);
    assert(v@.subrange(0, v@.len() as int) =~= v@);
    if v.len() == 0 {
        return false;
    }
    if file.as_bytes().len() > 128 {
        return false;
    }
    if find_char(&v, 0, v.len(), '/') < v.len() {
        return false;
    }
    if find_char(&v, 0, v.len(), '\\') < v.len() {
        return false;
    }
    let dot = chars_of(".");
    let dotdot = chars_of("..");
    !seq_equal(&v, &dot) && !seq_equal(&v, &dotdot)
}

/// Extension for a recorder's container hint (ASCII case ignored).
pub open spec fn extension_spec(mime: Seq<char>) -> Seq<char> {
    let m = ascii_lower_seq(mime);
    if occurs_in(m, "mp4"@) || occurs_in(m, "aac"@) {
        "m4a"@
    } else if occurs_in(m, "ogg"@) {
        "ogg"@
    } else if occurs_in(m, "wav"@) {
        "wav"@
    } else {
        "webm"@
    }
}

pub fn extension_for(mime: &str) -> (r: &'static str)
    ensures
        r@ == extension_spec(mime@),
{
    let m = ascii_lowercase(mime);
    if contains_seq(&m, &chars_of("mp4")) || contains_seq(&m, &chars_of("aac")) {
        "m4a"
    } else if contains_seq(&m, &chars_of("ogg")) {
        "ogg"
    } else if contains_seq(&m, &chars_of("wav")) {
        "wav"
    } else {
        "webm"
    }
}

/// `rec-` and the time in lowercase hex.
pub open spec fn mint_id_spec(now: u64) -> Seq<char> {
    "rec-"@ + hex_spec(now as nat)
}

/// The id minted for a new recording at `now` (milliseconds since the epoch).
pub fn mint_id_at(now: u64) -> (r: String)
    ensures
        r@ == mint_id_spec(now),
{
    let mut out = String::new();
    push_str(&mut out, "rec-");
    push_hex(&mut out, now);
    out
}

/// The file name of the take numbered `index`: `take-NNN.<ext>`.
pub open spec fn take_file_name(index: nat, mime: Seq<char>) -> Seq<char> {
    "take-"@ + zero_pad(dec_spec(index), 3) + "."@ + extension_spec(mime)
}

pub fn take_file_name_for(index: usize, mime: &str) -> (r: String)
    ensures
        r@ == take_file_name(index as nat, mime@),
{
    let mut out = String::new();
    push_str(&mut out, "take-");
    push_decimal_pad3(&mut out, index as u64);
    push_str(&mut out, ".");
    push_str(&mut out, extension_for(mime));
    out
}


/// The file names of some takes, in order.
pub open spec fn take_files(takes: Seq<TakeView>) -> Seq<Seq<char>> {
    takes.map_values(|t: TakeView| t.file)
}

/// The number a new take gets among takes with file names `files`: the first number,
/// from `from` on, whose file name is not among them (looking at most `fuel` numbers
/// past `from`).
pub open spec fn free_take_number(files: Seq<Seq<char>>, mime: Seq<char>, from: nat, fuel: nat) -> nat
    decreases fuel,
{
    if fuel == 0 || !files.contains(take_file_name(from, mime)) {
        from
    } else {
        free_take_number(files, mime, from + 1, (fuel - 1) as nat)
    }
}

/// The number of the next take of a recording with these takes: the lowest number
/// whose file name no surviving take uses (the number of takes, when none was deleted).
pub open spec fn next_take_number(takes: Seq<TakeView>, mime: Seq<char>) -> nat {
    free_take_number(take_files(takes), mime, 0, takes.len())
}

/// The number `digits_value` reads from `"0"`s in front of `d` is the one `d` writes.
proof fn lemma_leading_zeros(k: nat, d: Seq<char>)
    ensures
        crate::studio_auth::digits_value(Seq::new(k, |i: int| '0') + d) == crate::studio_auth::digits_value(d),
    decreases d.len(), k,
{
    let z = Seq::new(k, |i: int| '0');
    if d.len() == 0 {
        assert(z + d =~= z);
        if k > 0 {
            let z1 = Seq::new((k - 1) as nat, |i: int| '0');
            assert(z.drop_last() =~= z1 + Seq::<char>::empty());
            lemma_leading_zeros((k - 1) as nat, Seq::<char>::empty());
            assert(z1 + Seq::<char>::empty() =~= z1);
        }
    } else {
        assert((z + d).drop_last() =~= z + d.drop_last());
        lemma_leading_zeros(k, d.drop_last());
    }
}

/// `dec_spec` writes the number it is given.
proof fn lemma_dec_value(n: nat)
    ensures
        crate::studio_auth::digits_value(dec_spec(n)) == n,
    decreases n,
{
    if n < 10 {
        assert(dec_spec(n).drop_last() =~= Seq::<char>::empty());
        assert(dec_spec(n).last() == digit_char(n));
        assert(digit_char(n) as u32 == 48 + n);
        assert(crate::studio_auth::digits_value(Seq::<char>::empty()) == 0);
        assert(('0' as u32) == 48);
    } else {
        lemma_dec_value(n / 10);
        assert(dec_spec(n).drop_last() =~= dec_spec(n / 10));
        assert(dec_spec(n).last() == digit_char(n % 10));
        assert(digit_char(n % 10) as u32 == 48 + n % 10);
        assert(('0' as u32) == 48);
        assert(n == (n / 10) * 10 + n % 10) by (nonlinear_arith);
    }
}

/// Distinct numbers name distinct take files.
pub proof fn lemma_take_file_names_differ(a: nat, b: nat, mime: Seq<char>)
    requires
        a != b,
    ensures
        take_file_name(a, mime) != take_file_name(b, mime),
{
    let pa = zero_pad(dec_spec(a), 3);
    let pb = zero_pad(dec_spec(b), 3);
    lemma_dec_value(a);
    lemma_dec_value(b);
    if dec_spec(a).len() < 3 {
        lemma_leading_zeros((3 - dec_spec(a).len()) as nat, dec_spec(a));
    }
    if dec_spec(b).len() < 3 {
        lemma_leading_zeros((3 - dec_spec(b).len()) as nat, dec_spec(b));
    }
    assert(crate::studio_auth::digits_value(pa) == a);
    assert(crate::studio_auth::digits_value(pb) == b);
    if take_file_name(a, mime) == take_file_name(b, mime) {
        reveal_strlit("take-");
        reveal_strlit(".");
        let fa = take_file_name(a, mime);
        let fb = take_file_name(b, mime);
        let e = extension_spec(mime);
        assert(fa.len() == 5 + pa.len() + 1 + e.len());
        assert(fb.len() == 5 + pb.len() + 1 + e.len());
        assert(fa.subrange(5, fa.len() - 1 - e.len()) =~= pa);
        assert(fb.subrange(5, fb.len() - 1 - e.len()) =~= pb);
        assert(pa == pb);
    }
}

/// Where the search for a free number ends: within `fuel` numbers of `from`, and on a
/// number whose name is taken only when every number it looked at was taken.
proof fn lemma_free_take_number(files: Seq<Seq<char>>, mime: Seq<char>, from: nat, fuel: nat)
    ensures
        from <= free_take_number(files, mime, from, fuel) <= from + fuel,
        files.contains(take_file_name(free_take_number(files, mime, from, fuel), mime)) ==> (
        free_take_number(files, mime, from, fuel) == from + fuel && forall|m: nat|
            from <= m <= from + fuel ==> files.contains(#[trigger] take_file_name(m, mime))),
    decreases fuel,
{
    if fuel > 0 && files.contains(take_file_name(from, mime)) {
        lemma_free_take_number(files, mime, from + 1, (fuel - 1) as nat);
        if files.contains(take_file_name(free_take_number(files, mime, from, fuel), mime)) {
            assert forall|m: nat| from <= m <= from + fuel implies files.contains(
                #[trigger] take_file_name(m, mime),
            ) by {
                if m > from {
                    assert(from + 1 <= m <= from + 1 + (fuel - 1) as nat);
                }
            }
        }
    }
}

/// A new take's file never collides with a surviving take's: the number it gets names
/// a file that none of the recording's takes uses.
pub proof fn law_new_take_file_is_fresh(takes: Seq<TakeView>, mime: Seq<char>)
    ensures
        !take_files(takes).contains(take_file_name(next_take_number(takes, mime), mime)),
{
    let files = take_files(takes);
    let len = takes.len();
    lemma_free_take_number(files, mime, 0, len);
    if files.contains(take_file_name(next_take_number(takes, mime), mime)) {
        // every name of 0..=len is among `len` files: too many distinct names
        let x = vstd::set_lib::set_int_range(0, len + 1 as int);
        let f = |m: int| take_file_name(m as nat, mime);
        vstd::set_lib::lemma_int_range(0, len + 1 as int);
        assert(vstd::relations::injective_on(f, x)) by {
            assert forall|a: int, b: int| x.contains(a) && x.contains(b) && #[trigger] f(a) == #[trigger] f(
                b,
            ) implies a == b by {
                if a != b {
                    lemma_take_file_names_differ(a as nat, b as nat, mime);
                }
            }
        }
        let y = x.map(f);
        vstd::set_lib::lemma_map_size(x, y, f);
        assert(y.subset_of(files.to_set())) by {
            assert forall|n: Seq<char>| y.contains(n) implies files.to_set().contains(n) by {
                let m = choose|m: int| x.contains(m) && f(m) == n;
                assert(0 <= m <= len);
                assert(files.contains(take_file_name(m as nat, mime)));
            }
        }
        files.lemma_cardinality_of_set();
        vstd::set_lib::lemma_len_subset(y, files.to_set());
        assert(false);
    }
}

/// Whether one of these takes already uses the file name `name`.
fn take_file_used(takes: &Vec<Take>, name: &str) -> (r: bool)
    ensures
        r == take_files(takes_view(takes@)).contains(name@),
{
    let ghost files = take_files(takes_view(takes@));
    let mut i: usize = 0;
    while i < takes.len()
        invariant
            i <= takes@.len(),
            files == take_files(takes_view(takes@)),
            forall|j: int| 0 <= j < i ==> files[j] != name@,
        decreases takes.len() - i,
    {
        if str_eq(takes[i].file.as_str(), name) {
            assert(files[i as int] == name@);
            return true;
        }
        i += 1;
    }
    assert forall|j: int| 0 <= j < files.len() implies files[j] != name@ by {}
    false
}

/// The file name of the next take of a recording with these takes.
fn next_take_file(takes: &Vec<Take>, mime: &str) -> (r: String)
    ensures
        r@ == take_file_name(next_take_number(takes_view(takes@), mime@), mime@),
{
    let ghost files = take_files(takes_view(takes@));
    let ghost len = takes@.len();
    let mut n: usize = 0;
    let mut name = take_file_name_for(0, mime);
    while n < takes.len() && take_file_used(takes, name.as_str())
        invariant
            n <= takes@.len(),
            len == takes@.len(),
            files == take_files(takes_view(takes@)),
            name@ == take_file_name(n as nat, mime@),
            free_take_number(files, mime@, 0, len) == free_take_number(files, mime@, n as nat, (len - n) as nat),
        decreases takes.len() - n,
    {
        n += 1;
        name = take_file_name_for(n, mime);
    }
    name
}

// ------------------------------------------------------------- lookups

/// Index of the first recording with this id.
pub open spec fn find_spec(all: Seq<RecordingView>, id: Seq<char>) -> Option<nat>
    decreases all.len(),
{
    if all.len() == 0 {
        None
    } else if all[0].id == id {
        Some(0)
    } else {
        match find_spec(all.drop_first(), id) {
            Some(k) => Some(k + 1),
            None => None,
        }
    }
}

pub proof fn lemma_find_spec(all: Seq<RecordingView>, id: Seq<char>)
    ensures
        match find_spec(all, id) {
            Some(k) => k < all.len() && all[k as int].id == id && forall|j: int|
                0 <= j < k ==> all[j].id != id,
            None => forall|j: int| 0 <= j < all.len() ==> all[j].id != id,
        },
    decreases all.len(),
{
    if all.len() > 0 {
        lemma_find_spec(all.drop_first(), id);
        if all[0].id != id {
            match find_spec(all.drop_first(), id) {
                Some(k) => {
                    assert forall|j: int| 0 <= j < k + 1 implies all[j].id != id by {
                        if j > 0 {
                            assert(all[j] == all.drop_first()[j - 1]);
                        }
                    }
                },
                None => {
                    assert forall|j: int| 0 <= j < all.len() implies all[j].id != id by {
                        if j > 0 {
                            assert(all[j] == all.drop_first()[j - 1]);
                        }
                    }
                },
            }
        }
    }
}

proof fn lemma_find_spec_is(all: Seq<RecordingView>, id: Seq<char>, i: int)
    requires
        0 <= i <= all.len(),
        forall|j: int| 0 <= j < i ==> all[j].id != id,
        i == all.len() || all[i].id == id,
    ensures
        find_spec(all, id) == (if i == all.len() {
            None::<nat>
        } else {
            Some(i as nat)
        }),
{
    lemma_find_spec(all, id);
    match find_spec(all, id) {
        Some(k) => {
            if k < i {
            } else if k > i {
                assert(all[i].id != id);
            }
        },
        None => {
            if i < all.len() {
                assert(all[i].id != id);
            }
        },
    }
}

/// Index of the first recording with id `id` (no id check).
fn position_of(all: &Vec<Recording>, id: &str) -> (r: Option<usize>)
    ensures
        r == (match find_spec(recs_view(all@), id@) {
            Some(k) => Some(k as usize),
            None => None::<usize>,
        }),
        r matches Some(k) ==> k < all@.len() && find_spec(recs_view(all@), id@) == Some(k as nat),
        r is None ==> find_spec(recs_view(all@), id@) is None,
{
    let ghost vs = recs_view(all@);
    let mut i: usize = 0;
    while i < all.len()
        invariant
            i <= all@.len(),
            vs == recs_view(all@),
            forall|j: int| 0 <= j < i ==> vs[j].id != id@,
        decreases all.len() - i,
    {
        if str_eq(all[i].id.as_str(), id) {
            proof {
                lemma_find_spec_is(vs, id@, i as int);
            }
            return Some(i);
        }
        i += 1;
    }
    proof {
        lemma_find_spec_is(vs, id@, i as int);
    }
    None
}

/// `find`: the id is checked first, then looked up.
pub open spec fn locate_spec(all: Seq<RecordingView>, id: Seq<char>) -> Result<nat, RecErrorView> {
    if !valid_id_spec(id) {
        Err(RecErrorView::BadId(id))
    } else {
        match find_spec(all, id) {
            Some(k) => Ok(k),
            None => Err(RecErrorView::NotFound(id)),
        }
    }
}

/// Where the recording `id` sits in the index.
pub fn locate(all: &Vec<Recording>, id: &str) -> (r: Result<usize, RecError>)
    ensures
        match r {
            Ok(k) => locate_spec(recs_view(all@), id@) == Ok::<nat, RecErrorView>(k as nat)
                && k < all@.len(),
            Err(e) => locate_spec(recs_view(all@), id@) == Err::<nat, RecErrorView>(e@),
        },
{
    if !valid_id(id) {
        return Err(RecError::BadId(id.to_owned()));
    }
    match position_of(all, id) {
        Some(k) => Ok(k),
        None => Err(RecError::NotFound(id.to_owned())),
    }
}

// ------------------------------------------------------------ naming

/// The first line that is not blank, trimmed.
pub open spec fn first_nonblank_trimmed(lines: Seq<Seq<char>>) -> Option<Seq<char>>
    decreases lines.len(),
{
    if lines.len() == 0 {
        None
    } else if !is_blank(lines[0]) {
        Some(trim_spec(lines[0]))
    } else {
        first_nonblank_trimmed(lines.drop_first())
    }
}

/// First line of the transcript, trimmed, cut to 48 characters (then `…`);
/// `untitled recording` when the transcript is blank.
pub open spec fn default_name_spec(transcript: Seq<char>) -> Seq<char> {
    match first_nonblank_trimmed(lines_spec(transcript)) {
        None => "untitled recording"@,
        Some(l) => if l.len() > 48 {
            l.take(48).push('…')
        } else {
            l
        },
    }
}

/// First line of the transcript, trimmed — a name the operator would recognise.
pub fn default_name(take: &Take) -> (r: String)
    ensures
        r@ == default_name_spec(take.transcript@),
{
    let v = chars_of(take.transcript.as_str());
    let n = v.len();
    let mut pos: usize = 0;
    assert(v@.skip(0) =~= v@);
    while pos < n
        invariant
            n == v@.len(),
            v@ == take.transcript@,
            pos <= n,
            first_nonblank_trimmed(lines_spec(v@)) == first_nonblank_trimmed(
                lines_spec(v@.skip(pos as int)),
            ),
        decreases n - pos,
    {
        let ghost rest = v@.skip(pos as int);
        let e = find_char(&v, pos, n, '\n');
        assert(v@.subrange(pos as int, n as int) =~= rest);
        let mut line_end = e;
        if e < n && e > pos && v[e - 1] == '\r' {
            line_end = e - 1;
        }
        let ghost line = if e < n {
            strip_cr(rest.take(e - pos))
        } else {
            rest
        };
        assert(v@.subrange(pos as int, line_end as int) =~= line);
        let (a, b) = trim_bounds(&v, pos, line_end);
        if a < b {
            let first = string_of_range(&v, a, b);
            let fv = chars_of(first.as_str());
            if fv.len() > 48 {
                let mut out = string_of_range(&fv, 0, 48);
                push_char(&mut out, '…');
                assert(fv@.subrange(0, 48) =~= fv@.take(48));
                return out;
            }
            return first;
        }
        if e == n {
            assert(lines_spec(rest) == seq![rest]);
            assert(lines_spec(rest).drop_first() =~= Seq::<Seq<char>>::empty());
            pos = n;
            assert(v@.skip(n as int) =~= Seq::<char>::empty());
        } else {
            assert(rest.skip(e - pos + 1) =~= v@.skip(e + 1));
            assert(lines_spec(rest).drop_first() =~= lines_spec(v@.skip(e + 1)));
            pos = e + 1;
        }
    }
    assert(v@.skip(n as int) =~= Seq::<char>::empty());
    let mut out = String::new();
    push_str(&mut out, "untitled recording");
    out
}

// ------------------------------------------------------------- ordering

/// Position before the first recording updated no later than `k`.
pub open spec fn first_not_newer(s: Seq<RecordingView>, k: u64) -> nat
    decreases s.len(),
{
    if s.len() == 0 {
        0
    } else if s[0].updated_ms <= k {
        0
    } else {
        1 + first_not_newer(s.drop_first(), k)
    }
}

/// The index ordered newest first (`sort_by_key(Reverse(updated_ms))`): a stable
/// sort, so recordings updated at the same moment keep their relative order.
pub open spec fn newest_first(s: Seq<RecordingView>) -> Seq<RecordingView>
    decreases s.len(),
{
    if s.len() == 0 {
        Seq::empty()
    } else {
        let t = newest_first(s.drop_first());
        t.insert(first_not_newer(t, s[0].updated_ms) as int, s[0])
    }
}

pub proof fn lemma_first_not_newer(s: Seq<RecordingView>, k: u64, p: int)
    requires
        0 <= p <= s.len(),
        forall|j: int| 0 <= j < p ==> s[j].updated_ms > k,
        p == s.len() || s[p].updated_ms <= k,
    ensures
        first_not_newer(s, k) == p,
    decreases s.len(),
{
    if s.len() > 0 && p > 0 {
        assert forall|j: int| 0 <= j < p - 1 implies s.drop_first()[j].updated_ms > k by {
            assert(s.drop_first()[j] == s[j + 1]);
        }
        lemma_first_not_newer(s.drop_first(), k, p - 1);
    }
}

pub proof fn lemma_newest_first_len(s: Seq<RecordingView>)
    ensures
        newest_first(s).len() == s.len(),
    decreases s.len(),
{
    if s.len() > 0 {
        lemma_newest_first_len(s.drop_first());
        lemma_first_not_newer_bound(newest_first(s.drop_first()), s[0].updated_ms);
    }
}

pub proof fn lemma_first_not_newer_bound(s: Seq<RecordingView>, k: u64)
    ensures
        first_not_newer(s, k) <= s.len(),
    decreases s.len(),
{
    if s.len() > 0 {
        lemma_first_not_newer_bound(s.drop_first(), k);
    }
}

/// The index ordered newest first, stably.
pub fn sort_newest_first(all: Vec<Recording>) -> (r: Vec<Recording>)
    ensures
        recs_view(r@) == newest_first(recs_view(all@)),
{
    let ghost orig = recs_view(all@);
    let mut input = all;
    let mut out: Vec<Recording> = Vec::new();
    assert(orig.skip(orig.len() as int) =~= Seq::<RecordingView>::empty());
    while input.len() > 0
        invariant
            input@.len() <= orig.len(),
            recs_view(input@) == orig.take(input@.len() as int),
            recs_view(out@) == newest_first(orig.skip(input@.len() as int)),
        decreases input.len(),
    {
        let ghost len = input@.len();
        let ghost before = input@;
        let x = input.pop().unwrap();
        assert(recs_view(input@) =~= orig.take(input@.len() as int)) by {
            assert(input@ =~= before.drop_last());
            assert forall|j: int| 0 <= j < input@.len() implies recs_view(input@)[j]
                == orig.take(input@.len() as int)[j] by {
                assert(recs_view(before)[j] == orig.take(len as int)[j]);
            }
        }
        assert(x@ == orig[len - 1]) by {
            assert(recs_view(before)[len - 1] == orig.take(len as int)[len - 1]);
        }
        let ghost t = recs_view(out@);
        assert(orig.skip(len - 1).drop_first() =~= orig.skip(len as int));
        assert(orig.skip(len - 1)[0] == x@);
        let mut p: usize = 0;
        while p < out.len() && out[p].updated_ms > x.updated_ms
            invariant
                p <= out@.len(),
                t == recs_view(out@),
                forall|j: int| 0 <= j < p ==> t[j].updated_ms > x.updated_ms,
            decreases out.len() - p,
        {
            p += 1;
        }
        proof {
            lemma_first_not_newer(t, x.updated_ms, p as int);
        }
        out.insert(p, x);
        assert(recs_view(out@) =~= t.insert(p as int, x@));
    }
    assert(orig.skip(0) =~= orig);
    out
}

// ------------------------------------------------------------- commands

/// The id a new take goes to: the one asked for, or a freshly minted one.
pub open spec fn target_id(recording_id: Option<Seq<char>>, now: u64) -> Seq<char> {
    match recording_id {
        Some(id) => id,
        None => mint_id_spec(now),
    }
}

/// The name a new recording gets: the given one unless it is blank, else the default.
pub open spec fn chosen_name(name: Option<Seq<char>>, transcript: Seq<char>) -> Seq<char> {
    match name {
        Some(n) => if !is_blank(n) {
            n
        } else {
            default_name_spec(transcript)
        },
        None => default_name_spec(transcript),
    }
}

pub open spec fn opt_view(o: Option<&str>) -> Option<Seq<char>> {
    match o {
        Some(s) => Some(s@),
        None => None,
    }
}

/// What `save_take` makes of the index: the new index, the recording and the take.
pub open spec fn save_take_spec(
    all: Seq<RecordingView>,
    bytes_len: nat,
    mime: Seq<char>,
    duration_bits: u64,
    transcript: Seq<char>,
    recording_id: Option<Seq<char>>,
    name: Option<Seq<char>>,
    now: u64,
) -> Result<(Seq<RecordingView>, RecordingView, TakeView), RecErrorView> {
    if bytes_len == 0 {
        Err(RecErrorView::Empty)
    } else if recording_id is Some && locate_spec(all, recording_id->0) is Err {
        Err(locate_spec(all, recording_id->0)->Err_0)
    } else {
        let id = target_id(recording_id, now);
        let found = find_spec(all, id);
        let index = match found {
            Some(k) => next_take_number(all[k as int].takes, mime),
            None => 0,
        };
        let t = TakeView {
            file: take_file_name(index, mime),
            mime: mime,
            created_ms: now,
            duration_bits: duration_bits,
            transcript: trim_spec(transcript),
        };
        match found {
            Some(k) => {
                let old = all[k as int];
                let rec = RecordingView {
                    id: old.id,
                    name: old.name,
                    created_ms: old.created_ms,
                    updated_ms: now,
                    summary: old.summary,
                    locked: old.locked,
                    takes: old.takes.push(t),
                };
                Ok((newest_first(all.update(k as int, rec)), rec, t))
            },
            None => {
                let rec = RecordingView {
                    id: id,
                    name: chosen_name(name, t.transcript),
                    created_ms: now,
                    updated_ms: now,
                    summary: Seq::empty(),
                    locked: false,
                    takes: seq![t],
                };
                Ok((newest_first(all.push(rec)), rec, t))
            },
        }
    }
}

/// Replaces the index with itself ordered newest first.
fn resort(all: &mut Vec<Recording>)
    ensures
        recs_view(final(all)@) == newest_first(recs_view(old(all)@)),
{
    let mut tmp: Vec<Recording> = Vec::new();
    std::mem::swap(all, &mut tmp);
    *all = sort_newest_first(tmp);
}

/// Append a freshly recorded take at time `now`, creating the recording on first use.
///
/// Returns the recording and the take so the caller can render them; the caller
/// writes the audio to the take's file and saves the index. On an error the
/// index is left as it was.
pub fn save_take_at(
    all: &mut Vec<Recording>,
    bytes: &[u8],
    mime: &str,
    duration_bits: u64,
    transcript: &str,
    recording_id: Option<&str>,
    name: Option<&str>,
    now: u64,
) -> (r: Result<(Recording, Take), RecError>)
    ensures
        match save_take_spec(
            recs_view(old(all)@),
            bytes@.len(),
            mime@,
            duration_bits,
            transcript@,
            opt_view(recording_id),
            opt_view(name),
            now,
        ) {
            Ok((idx, rec, take)) => r matches Ok((rr, tt)) && rr@ == rec && tt@ == take
                && recs_view(final(all)@) == idx,
            Err(e) => r matches Err(ee) && ee@ == e && recs_view(final(all)@) == recs_view(
                old(all)@,
            ),
        },
{
    if bytes.len() == 0 {
        return Err(RecError::Empty);
    }
    let id: String = match recording_id {
        Some(id) => {
            match locate(all, id) {
                Err(e) => {
                    return Err(e);
                },
                Ok(_) => {},
            }
            id.to_owned()
        },
        None => mint_id_at(now),
    };
    let found = position_of(all, id.as_str());
    let file = match found {
        Some(k) => next_take_file(&all[k].takes, mime),
        None => take_file_name_for(0, mime),
    };
    let take = Take {
        file: file,
        mime: mime.to_owned(),
        created_ms: now,
        duration_bits: duration_bits,
        transcript: trim(transcript),
    };
    let ghost t = take@;
    let ghost old_all = recs_view(all@);
    match found {
        Some(k) => {
            let mut rec = all.remove(k);
            let ghost old_rec = rec@;
            assert(old_rec == old_all[k as int]);
            rec.takes.push(take.copy());
            rec.updated_ms = now;
            assert(takes_view(rec.takes@) =~= old_rec.takes.push(t));
            let out = rec.copy();
            all.insert(k, rec);
            assert(recs_view(all@) =~= old_all.update(k as int, out@));
            resort(all);
            Ok((out, take))
        },
        None => {
            let name_text: String = match name {
                Some(n) => {
                    if !is_blank_str(n) {
                        n.to_owned()
                    } else {
                        default_name(&take)
                    }
                },
                None => default_name(&take),
            };
            let mut takes: Vec<Take> = Vec::new();
            takes.push(take.copy());
            let rec = Recording {
                id: id,
                name: name_text,
                created_ms: now,
                updated_ms: now,
                summary: String::new(),
                locked: false,
                takes: takes,
            };
            assert(takes_view(rec.takes@) =~= seq![t]);
            let out = rec.copy();
            all.push(rec);
            assert(recs_view(all@) =~= old_all.push(out@));
            resort(all);
            Ok((out, take))
        },
    }
}

pub struct PatchView {
    pub name: Option<Seq<char>>,
    pub summary: Option<Seq<char>>,
    pub locked: Option<bool>,
    pub take_index: Option<usize>,
    pub transcript: Option<Seq<char>>,
}

pub open spec fn opt_string_view(o: Option<String>) -> Option<Seq<char>> {
    match o {
        Some(s) => Some(s@),
        None => None,
    }
}

impl View for Patch {
    type V = PatchView;

    open spec fn view(&self) -> PatchView {
        PatchView {
            name: opt_string_view(self.name),
            summary: opt_string_view(self.summary),
            locked: self.locked,
            take_index: self.take_index,
            transcript: opt_string_view(self.transcript),
        }
    }
}

/// The sorted index, as `list` returns it.
pub fn list(all: Vec<Recording>) -> (r: Vec<Recording>)
    ensures
        recs_view(r@) == newest_first(recs_view(all@)),
{
    sort_newest_first(all)
}

/// One recording, by id.
pub fn get(all: &Vec<Recording>, id: &str) -> (r: Result<Recording, RecError>)
    ensures
        match locate_spec(recs_view(all@), id@) {
            Ok(k) => r matches Ok(rec) && rec@ == recs_view(all@)[k as int],
            Err(e) => r matches Err(ee) && ee@ == e,
        },
{
    let k = locate(all, id)?;
    Ok(all[k].copy())
}

/// The recording once a patch is applied: a non-blank name (trimmed), the summary,
/// the lock flag, and one take's transcript (trimmed), each only when given.
pub open spec fn patched(rec: RecordingView, patch: PatchView, now: u64) -> RecordingView {
    RecordingView {
        id: rec.id,
        name: match patch.name {
            Some(n) => if !is_blank(n) {
                trim_spec(n)
            } else {
                rec.name
            },
            None => rec.name,
        },
        created_ms: rec.created_ms,
        updated_ms: now,
        summary: match patch.summary {
            Some(s) => s,
            None => rec.summary,
        },
        locked: match patch.locked {
            Some(l) => l,
            None => rec.locked,
        },
        takes: if patch.take_index is Some && patch.transcript is Some {
            let i = patch.take_index->0 as int;
            let t = rec.takes[i];
            rec.takes.update(
                i,
                TakeView {
                    file: t.file,
                    mime: t.mime,
                    created_ms: t.created_ms,
                    duration_bits: t.duration_bits,
                    transcript: trim_spec(patch.transcript->0),
                },
            )
        } else {
            rec.takes
        },
    }
}

/// `update`: a locked recording only accepts a patch that unlocks it; a transcript
/// edit must name an existing take.
pub open spec fn update_spec(all: Seq<RecordingView>, id: Seq<char>, patch: PatchView, now: u64) -> Result<
    (Seq<RecordingView>, RecordingView),
    RecErrorView,
> {
    match locate_spec(all, id) {
        Err(e) => Err(e),
        Ok(k) => {
            let rec = all[k as int];
            if rec.locked && patch.locked != Some(false) {
                Err(RecErrorView::Locked)
            } else if patch.take_index is Some && patch.transcript is Some
                && patch.take_index->0 >= rec.takes.len() {
                Err(RecErrorView::NoTake(patch.take_index->0, id))
            } else {
                let r = patched(rec, patch, now);
                Ok((all.update(k as int, r), r))
            }
        },
    }
}

/// Apply a partial update (rename, summary, lock, or a transcript edit) at `now`.
/// On an error the index is left as it was.
pub fn update_at(all: &mut Vec<Recording>, id: &str, patch: Patch, now: u64) -> (r: Result<
    Recording,
    RecError,
>)
    ensures
        match update_spec(recs_view(old(all)@), id@, patch@, now) {
            Ok((idx, rec)) => r matches Ok(rr) && rr@ == rec && recs_view(final(all)@) == idx,
            Err(e) => r matches Err(ee) && ee@ == e && recs_view(final(all)@) == recs_view(
                old(all)@,
            ),
        },
{
    let ghost pv = patch@;
    let k = locate(all, id)?;
    if all[k].locked && !matches!(patch.locked, Some(false)) {
        return Err(RecError::Locked);
    }
    match (&patch.take_index, &patch.transcript) {
        (Some(i), Some(_)) => {
            if *i >= all[k].takes.len() {
                return Err(RecError::NoTake(*i, id.to_owned()));
            }
        },
        _ => {},
    }
    let ghost old_all = recs_view(all@);
    let mut rec = all.remove(k);
    let ghost old_rec = rec@;
    assert(old_rec == old_all[k as int]);
    let Patch { name, summary, locked, take_index, transcript } = patch;
    match name {
        Some(n) => {
            if !is_blank_str(n.as_str()) {
                rec.name = trim(n.as_str());
            }
        },
        None => {},
    }
    match summary {
        Some(s) => {
            rec.summary = s;
        },
        None => {},
    }
    match locked {
        Some(l) => {
            rec.locked = l;
        },
        None => {},
    }
    match (take_index, transcript) {
        (Some(i), Some(text)) => {
            let old_take = rec.takes.remove(i);
            let t = Take {
                file: old_take.file,
                mime: old_take.mime,
                created_ms: old_take.created_ms,
                duration_bits: old_take.duration_bits,
                transcript: trim(text.as_str()),
            };
            rec.takes.insert(i, t);
            assert(takes_view(rec.takes@) =~= patched(old_rec, pv, now).takes);
        },
        _ => {
            assert(takes_view(rec.takes@) =~= patched(old_rec, pv, now).takes);
        },
    }
    rec.updated_ms = now;
    let out = rec.copy();
    all.insert(k, rec);
    assert(recs_view(all@) =~= old_all.update(k as int, out@));
    Ok(out)
}

/// The index without any recording whose id is `id`.
pub open spec fn without_id(s: Seq<RecordingView>, id: Seq<char>) -> Seq<RecordingView>
    decreases s.len(),
{
    if s.len() == 0 {
        Seq::empty()
    } else {
        let r = without_id(s.drop_last(), id);
        if s.last().id == id {
            r
        } else {
            r.push(s.last())
        }
    }
}

/// `delete`: the id is checked, then every recording with it is dropped; dropping
/// nothing is an error.
pub open spec fn delete_spec(all: Seq<RecordingView>, id: Seq<char>) -> Result<
    Seq<RecordingView>,
    RecErrorView,
> {
    if !valid_id_spec(id) {
        Err(RecErrorView::BadId(id))
    } else if without_id(all, id).len() == all.len() {
        Err(RecErrorView::NotFound(id))
    } else {
        Ok(without_id(all, id))
    }
}

/// Delete a whole recording from the index; the caller then removes its directory.
pub fn delete(all: &mut Vec<Recording>, id: &str) -> (r: Result<(), RecError>)
    ensures
        match delete_spec(recs_view(old(all)@), id@) {
            Ok(idx) => r is Ok && recs_view(final(all)@) == idx,
            Err(e) => r matches Err(ee) && ee@ == e && recs_view(final(all)@) == recs_view(
                old(all)@,
            ),
        },
{
    if !valid_id(id) {
        return Err(RecError::BadId(id.to_owned()));
    }
    let ghost vs = recs_view(all@);
    let mut kept: Vec<Recording> = Vec::new();
    let mut i: usize = 0;
    while i < all.len()
        invariant
            i <= all@.len(),
            vs == recs_view(all@),
            recs_view(kept@) == without_id(vs.take(i as int), id@),
        decreases all.len() - i,
    {
        assert(vs.take(i + 1).drop_last() =~= vs.take(i as int));
        if !str_eq(all[i].id.as_str(), id) {
            kept.push(all[i].copy());
        }
        i += 1;
        assert(recs_view(kept@) =~= without_id(vs.take(i as int), id@));
    }
    assert(vs.take(vs.len() as int) =~= vs);
    if kept.len() == all.len() {
        return Err(RecError::NotFound(id.to_owned()));
    }
    *all = kept;
    Ok(())
}

/// Checks a request to read one take's audio back out.
pub open spec fn audio_request_spec(id: Seq<char>, file: Seq<char>) -> Result<(), RecErrorView> {
    if !valid_id_spec(id) {
        Err(RecErrorView::BadId(id))
    } else if !valid_take_file_spec(file) {
        Err(RecErrorView::BadTakeFile(file))
    } else {
        Ok(())
    }
}

/// The checks `read_audio` makes before it reads `<root>/<id>/<file>`.
pub fn check_audio_request(id: &str, file: &str) -> (r: Result<(), RecError>)
    ensures
        match audio_request_spec(id@, file@) {
            Ok(()) => r is Ok,
            Err(e) => r matches Err(ee) && ee@ == e,
        },
{
    if !valid_id(id) {
        return Err(RecError::BadId(id.to_owned()));
    }
    if !valid_take_file(file) {
        return Err(RecError::BadTakeFile(file.to_owned()));
    }
    Ok(())
}

/// `delete_take`: refused on a locked recording or a missing take.
pub open spec fn delete_take_spec(all: Seq<RecordingView>, id: Seq<char>, index: usize, now: u64) -> Result<
    (Seq<RecordingView>, RecordingView, TakeView),
    RecErrorView,
> {
    match locate_spec(all, id) {
        Err(e) => Err(e),
        Ok(k) => {
            let rec = all[k as int];
            if rec.locked {
                Err(RecErrorView::Locked)
            } else if index >= rec.takes.len() {
                Err(RecErrorView::NoTake(index, id))
            } else {
                let r = RecordingView {
                    id: rec.id,
                    name: rec.name,
                    created_ms: rec.created_ms,
                    updated_ms: now,
                    summary: rec.summary,
                    locked: rec.locked,
                    takes: rec.takes.remove(index as int),
                };
                Ok((all.update(k as int, r), r, rec.takes[index as int]))
            }
        },
    }
}

/// Delete one take at `now`, keeping the rest of the session intact. Returns the
/// recording and the removed take, whose blob the caller then removes.
pub fn delete_take_at(all: &mut Vec<Recording>, id: &str, take_index: usize, now: u64) -> (r:
    Result<(Recording, Take), RecError>)
    ensures
        match delete_take_spec(recs_view(old(all)@), id@, take_index, now) {
            Ok((idx, rec, t)) => r matches Ok((rr, tt)) && rr@ == rec && tt@ == t && recs_view(
                final(all)@,
            ) == idx,
            Err(e) => r matches Err(ee) && ee@ == e && recs_view(final(all)@) == recs_view(
                old(all)@,
            ),
        },
{
    let k = locate(all, id)?;
    if all[k].locked {
        return Err(RecError::Locked);
    }
    if take_index >= all[k].takes.len() {
        return Err(RecError::NoTake(take_index, id.to_owned()));
    }
    let ghost old_all = recs_view(all@);
    let mut rec = all.remove(k);
    let ghost old_rec = rec@;
    assert(old_rec == old_all[k as int]);
    let removed = rec.takes.remove(take_index);
    assert(takes_view(rec.takes@) =~= old_rec.takes.remove(take_index as int));
    rec.updated_ms = now;
    let out = rec.copy();
    all.insert(k, rec);
    assert(recs_view(all@) =~= old_all.update(k as int, out@));
    Ok((out, removed))
}

// --------------------------------------------------------------- splice

/// The first fault in a splice order, scanning from position `p`: a take number out
/// of range, or one already used earlier in the order.
pub open spec fn order_fault(order: Seq<usize>, n: nat, p: nat) -> Option<RecErrorView>
    decreases order.len() - p,
{
    if p >= order.len() {
        None
    } else if order[p as int] >= n {
        Some(RecErrorView::SpliceRange(order[p as int]))
    } else if exists|q: int| 0 <= q < p && order[q] == order[p as int] {
        Some(RecErrorView::SpliceRepeat)
    } else {
        order_fault(order, n, p + 1)
    }
}

/// A take file's extension: what follows its last `.`, else `webm`.
pub open spec fn ext_of(file: Seq<char>) -> Seq<char> {
    match last_index_of(file, '.') {
        Some(i) => file.skip(i + 1 as int),
        None => "webm"@,
    }
}

/// A take moved to slot `slot`: renamed `take-NNN.<its extension>`.
pub open spec fn renumbered(t: TakeView, slot: nat) -> TakeView {
    TakeView {
        file: "take-"@ + zero_pad(dec_spec(slot), 3) + "."@ + ext_of(t.file),
        mime: t.mime,
        created_ms: t.created_ms,
        duration_bits: t.duration_bits,
        transcript: t.transcript,
    }
}

/// The takes in splice order, renumbered by their new slot.
pub open spec fn spliced_takes(takes: Seq<TakeView>, order: Seq<usize>) -> Seq<TakeView> {
    Seq::new(order.len(), |s: int| renumbered(takes[order[s] as int], s as nat))
}

/// The concat-demuxer list: one `file 'splice/<name>'` line per take.
pub open spec fn concat_list(takes: Seq<TakeView>) -> Seq<char>
    decreases takes.len(),
{
    if takes.len() == 0 {
        Seq::empty()
    } else {
        concat_list(takes.drop_last()) + "file 'splice/"@ + takes.last().file + "'\n"@
    }
}

/// What a splice will do: stage `sources[i]` under `takes[i].file`, list them for ffmpeg.
pub struct SplicePlan {
    /// The current file of each take, in the new order.
    pub sources: Vec<String>,
    /// The takes in the new order, renumbered.
    pub takes: Vec<Take>,
    /// The concat list (`splice.txt`).
    pub list_text: String,
}

/// `splice`'s checks, then the plan: refused on a locked recording, an order whose
/// length differs from the number of takes, or an order with a fault.
pub open spec fn splice_plan_spec(all: Seq<RecordingView>, id: Seq<char>, order: Seq<usize>) -> Result<
    (Seq<Seq<char>>, Seq<TakeView>, Seq<char>),
    RecErrorView,
> {
    match locate_spec(all, id) {
        Err(e) => Err(e),
        Ok(k) => {
            let rec = all[k as int];
            if rec.locked {
                Err(RecErrorView::Locked)
            } else if order.len() != rec.takes.len() {
                Err(RecErrorView::SpliceLength(order.len() as usize, rec.takes.len() as usize))
            } else if order_fault(order, rec.takes.len(), 0) is Some {
                Err(order_fault(order, rec.takes.len(), 0)->0)
            } else {
                let nt = spliced_takes(rec.takes, order);
                Ok(
                    (
                        Seq::new(order.len(), |s: int| rec.takes[order[s] as int].file),
                        nt,
                        concat_list(nt),
                    ),
                )
            }
        },
    }
}

proof fn lemma_order_fault_none(order: Seq<usize>, n: nat, p: nat)
    requires
        p <= order.len(),
        forall|j: int| p <= j < order.len() ==> (order[j] as nat) < n,
        forall|j: int, q: int| 0 <= q < j < order.len() && p <= j ==> order[q] != order[j],
    ensures
        order_fault(order, n, p) is None,
    decreases order.len() - p,
{
    if p < order.len() {
        assert(!(exists|q: int| 0 <= q < p && order[q] == order[p as int]));
        lemma_order_fault_none(order, n, p + 1);
    }
}

proof fn lemma_order_fault_step(order: Seq<usize>, n: nat, p: nat)
    requires
        p < order.len(),
        (order[p as int] as nat) < n,
        forall|q: int| 0 <= q < p ==> order[q] != order[p as int],
    ensures
        order_fault(order, n, p) == order_fault(order, n, p + 1),
{
}

/// The first fault of `order` over `n` takes, if any.
fn check_order(order: &[usize], n: usize) -> (r: Option<RecError>)
    ensures
        match order_fault(order@, n as nat, 0) {
            Some(e) => r matches Some(ee) && ee@ == e,
            None => r is None,
        },
        r is None ==> forall|j: int| 0 <= j < order@.len() ==> (order@[j] as nat) < n,
{
    let mut seen: Vec<bool> = vec![false; n];
    let mut p: usize = 0;
    while p < order.len()
        invariant
            p <= order@.len(),
            seen@.len() == n,
            forall|v: int| 0 <= v < n ==> (#[trigger] seen@[v] <==> exists|q: int|
                0 <= q < p && order@[q] == v),
            forall|j: int| 0 <= j < p ==> (order@[j] as nat) < n,
            forall|j: int, q: int| 0 <= q < j < p ==> order@[q] != order@[j],
            order_fault(order@, n as nat, 0) == order_fault(order@, n as nat, p as nat),
        decreases order.len() - p,
    {
        let i = order[p];
        if i >= n {
            return Some(RecError::SpliceRange(i));
        }
        if seen[i] {
            assert(exists|q: int| 0 <= q < p && order@[q] == order@[p as int]);
            return Some(RecError::SpliceRepeat);
        }
        proof {
            assert(forall|q: int| 0 <= q < p ==> order@[q] != order@[p as int]);
            lemma_order_fault_step(order@, n as nat, p as nat);
        }
        seen.set(i, true);
        p += 1;
    }
    proof {
        lemma_order_fault_none(order@, n as nat, 0);
    }
    None
}

/// The take renamed for slot `slot`.
fn renumber(t: &Take, slot: usize) -> (r: Take)
    ensures
        r@ == renumbered(t@, slot as nat),
{
    let mut file = String::new();
    push_str(&mut file, "take-");
    push_decimal_pad3(&mut file, slot as u64);
    push_str(&mut file, ".");
    let fv = chars_of(t.file.as_str());
    let flen = fv.len();
    let ghost prefix = file@;
    assert(prefix =~= "take-"@ + zero_pad(dec_spec(slot as nat), 3) + "."@);
    assert(fv@ == t.file@);
    let ld = rfind_char(fv.as_slice(), '.');
    match ld {
        Some(d) => {
            assert(d < flen);
            push_range(&mut file, &fv, d + 1, flen);
            assert(fv@.subrange(d + 1, fv@.len() as int) =~= fv@.skip(d + 1));
            assert(last_index_of(fv@, '.') == Some(d as nat));
            assert(ext_of(t.file@) == fv@.skip(d + 1));
            assert(file@ == prefix + ext_of(t.file@));
        },
        None => {
            push_str(&mut file, "webm");
            assert(file@ == prefix + ext_of(t.file@));
        },
    }
    assert(file@ =~= "take-"@ + zero_pad(dec_spec(slot as nat), 3) + "."@ + ext_of(t.file@));
    Take {
        file: file,
        mime: t.mime.clone(),
        created_ms: t.created_ms,
        duration_bits: t.duration_bits,
        transcript: t.transcript.clone(),
    }
}

/// Check a splice order and plan it: the caller stages the copies, runs ffmpeg on
/// the list, and then commits the renumbered takes.
pub fn plan_splice(all: &Vec<Recording>, id: &str, order: &[usize]) -> (r: Result<
    SplicePlan,
    RecError,
>)
    ensures
        match splice_plan_spec(recs_view(all@), id@, order@) {
            Ok((srcs, takes, list)) => r matches Ok(plan) && plan.sources@.map_values(
                |s: String| s@,
            ) == srcs && takes_view(plan.takes@) == takes && plan.list_text@ == list,
            Err(e) => r matches Err(ee) && ee@ == e,
        },
{
    let k = locate(all, id)?;
    let rec = &all[k];
    if rec.locked {
        return Err(RecError::Locked);
    }
    let n = rec.takes.len();
    if order.len() != n {
        return Err(RecError::SpliceLength(order.len(), n));
    }
    match check_order(order, n) {
        Some(e) => {
            return Err(e);
        },
        None => {},
    }
    let ghost tv = takes_view(rec.takes@);
    let ghost nt = spliced_takes(tv, order@);
    let mut sources: Vec<String> = Vec::new();
    let mut takes: Vec<Take> = Vec::new();
    let mut list_text = String::new();
    let mut slot: usize = 0;
    while slot < order.len()
        invariant
            n == rec.takes@.len(),
            order@.len() == n,
            tv == takes_view(rec.takes@),
            nt == spliced_takes(tv, order@),
            forall|j: int| 0 <= j < n ==> (order@[j] as nat) < n,
            slot <= n,
            sources@.len() == slot,
            forall|j: int| 0 <= j < slot ==> #[trigger] sources@[j]@ == tv[order@[j] as int].file,
            takes_view(takes@) == nt.take(slot as int),
            list_text@ == concat_list(nt.take(slot as int)),
        decreases n - slot,
    {
        let i = order[slot];
        let t = renumber(&rec.takes[i], slot);
        sources.push(rec.takes[i].file.clone());
        push_str(&mut list_text, "file 'splice/");
        push_str(&mut list_text, t.file.as_str());
        push_str(&mut list_text, "'\n");
        takes.push(t);
        slot += 1;
        assert(takes_view(takes@) =~= nt.take(slot as int));
        assert(nt.take(slot as int).drop_last() =~= nt.take(slot - 1));
    }
    assert(nt.take(n as int) =~= nt);
    assert(sources@.map_values(|s: String| s@) =~= Seq::new(
        order@.len(),
        |s: int| tv[order@[s] as int].file,
    ));
    Ok(SplicePlan { sources, takes, list_text })
}

/// `splice`'s last step, once ffmpeg has stitched the master: the recording takes
/// the renumbered takes.
pub open spec fn commit_splice_spec(
    all: Seq<RecordingView>,
    id: Seq<char>,
    takes: Seq<TakeView>,
    now: u64,
) -> Result<(Seq<RecordingView>, RecordingView), RecErrorView> {
    match locate_spec(all, id) {
        Err(e) => Err(e),
        Ok(k) => {
            let rec = all[k as int];
            let r = RecordingView {
                id: rec.id,
                name: rec.name,
                created_ms: rec.created_ms,
                updated_ms: now,
                summary: rec.summary,
                locked: rec.locked,
                takes: takes,
            };
            Ok((all.update(k as int, r), r))
        },
    }
}

pub fn commit_splice_at(all: &mut Vec<Recording>, id: &str, takes: Vec<Take>, now: u64) -> (r:
    Result<Recording, RecError>)
    ensures
        match commit_splice_spec(recs_view(old(all)@), id@, takes_view(takes@), now) {
            Ok((idx, rec)) => r matches Ok(rr) && rr@ == rec && recs_view(final(all)@) == idx,
            Err(e) => r matches Err(ee) && ee@ == e && recs_view(final(all)@) == recs_view(
                old(all)@,
            ),
        },
{
    let k = locate(all, id)?;
    let ghost old_all = recs_view(all@);
    let mut rec = all.remove(k);
    assert(rec@ == old_all[k as int]);
    rec.takes = takes;
    rec.updated_ms = now;
    let out = rec.copy();
    all.insert(k, rec);
    assert(recs_view(all@) =~= old_all.update(k as int, out@));
    Ok(out)
}

/// A `take-*` file no take of the recording names any more.
pub open spec fn is_orphan_spec(name: Seq<char>, keep: Seq<TakeView>) -> bool {
    has_prefix(name, "take-"@) && forall|i: int| 0 <= i < keep.len() ==> keep[i].file != name
}

/// Whether a directory entry is an orphaned take blob, removed after a splice.
pub fn is_orphan_take(name: &str, keep: &Vec<Take>) -> (r: bool)
    ensures
        r == is_orphan_spec(name@, takes_view(keep@)),
{
    let v = chars_of(name);
    let p = chars_of("take-");
    if !has_prefix_at(&v, 0, &p) {
        assert(v@.skip(0) =~= v@);
        return false;
    }
    assert(v@.skip(0) =~= v@);
    let mut i: usize = 0;
    while i < keep.len()
        invariant
            i <= keep@.len(),
            forall|j: int| 0 <= j < i ==> keep@[j].file@ != name@,
        decreases keep.len() - i,
    {
        if str_eq(keep[i].file.as_str(), name) {
            assert(takes_view(keep@)[i as int].file == name@);
            return false;
        }
        i += 1;
    }
    true
}

// --------------------------------------------------------------- export

/// The label of take `i` (its duration text), or nothing when none is given.
pub open spec fn label_at(labels: Seq<Seq<char>>, i: int) -> Seq<char> {
    if 0 <= i < labels.len() {
        labels[i]
    } else {
        Seq::empty()
    }
}

/// One take's block: `**take N — <label>s**`, a blank line, the trimmed transcript.
pub open spec fn export_take_block(number: nat, label: Seq<char>, transcript: Seq<char>) -> Seq<char> {
    "**take "@ + dec_spec(number) + " — "@ + label + "s**\n\n"@ + trim_spec(transcript) + "\n\n"@
}

pub open spec fn export_blocks(takes: Seq<TakeView>, labels: Seq<Seq<char>>) -> Seq<char>
    decreases takes.len(),
{
    if takes.len() == 0 {
        Seq::empty()
    } else {
        let i = takes.len() - 1;
        export_blocks(takes.drop_last(), labels) + export_take_block(
            (i + 1) as nat,
            label_at(labels, i),
            takes.last().transcript,
        )
    }
}

/// The markdown export: title, lock note, summary (when not blank), then each take.
pub open spec fn export_spec(rec: RecordingView, labels: Seq<Seq<char>>) -> Seq<char> {
    "# "@ + rec.name + "\n\n"@ + (if rec.locked {
        "_locked — this is the committed record_\n\n"@
    } else {
        Seq::empty()
    }) + (if !is_blank(rec.summary) {
        "## Summary\n\n"@ + trim_spec(rec.summary) + "\n\n"@
    } else {
        Seq::empty()
    }) + "## Transcript\n\n"@ + export_blocks(rec.takes, labels)
}

/// Appends the export block of one take.
fn push_take_block(body: &mut String, number: u64, label: &str, transcript: &str)
    ensures
        final(body)@ == old(body)@ + export_take_block(number as nat, label@, transcript@),
{
    push_str(body, "**take ");
    push_decimal(body, number);
    push_str(body, " — ");
    push_str(body, label);
    push_str(body, "s**\n\n");
    let t = trim(transcript);
    push_str(body, t.as_str());
    push_str(body, "\n\n");
    assert(body@ =~= old(body)@ + export_take_block(number as nat, label@, transcript@));
}

/// The session's transcript + summary as markdown. `durations[i]` is take `i`'s
/// duration already rendered (one decimal); the caller writes the text to
/// `<id>/export.md`.
pub fn export_markdown(rec: &Recording, durations: &Vec<String>) -> (r: String)
    ensures
        r@ == export_spec(rec@, durations@.map_values(|d: String| d@)),
{
    let ghost labels = durations@.map_values(|d: String| d@);
    let mut body = String::new();
    push_str(&mut body, "# ");
    push_str(&mut body, rec.name.as_str());
    push_str(&mut body, "\n\n");
    if rec.locked {
        push_str(&mut body, "_locked — this is the committed record_\n\n");
    }
    if !is_blank_str(rec.summary.as_str()) {
        push_str(&mut body, "## Summary\n\n");
        let t = trim(rec.summary.as_str());
        push_str(&mut body, t.as_str());
        push_str(&mut body, "\n\n");
    }
    push_str(&mut body, "## Transcript\n\n");
    let ghost head = body@;
    let ghost tv = takes_view(rec.takes@);
    let mut i: usize = 0;
    while i < rec.takes.len()
        invariant
            i <= rec.takes@.len(),
            tv == takes_view(rec.takes@),
            labels == durations@.map_values(|d: String| d@),
            body@ == head + export_blocks(tv.take(i as int), labels),
        decreases rec.takes.len() - i,
    {
        let label = if i < durations.len() {
            durations[i].as_str()
        } else {
            ""
        };
        proof {
            reveal_strlit("");
        }
        push_take_block(&mut body, (i as u64) + 1, label, rec.takes[i].transcript.as_str());
        proof {
            assert(tv.take(i + 1).drop_last() =~= tv.take(i as int));
            assert(label_at(labels, i as int) == (if i < durations@.len() {
                durations@[i as int]@
            } else {
                Seq::<char>::empty()
            }));
        }
        i += 1;
        assert(body@ =~= head + export_blocks(tv.take(i as int), labels));
    }
    assert(tv.take(tv.len() as int) =~= tv);
    assert(body@ =~= export_spec(rec@, labels));
    body
}

// ------------------------------------------------------------- messages

impl RecError {
    /// The message the command reports.
    pub open spec fn message_spec(e: RecErrorView) -> Seq<char> {
        match e {
            RecErrorView::Empty => "recording came back empty — nothing to save"@,
            RecErrorView::BadId(id) => "bad recording id: "@ + id,
            RecErrorView::NotFound(id) => "no recording "@ + id,
            RecErrorView::Locked => "this recording is locked — unlock it to edit"@,
            RecErrorView::NoTake(i, id) => "no take "@ + dec_spec(i as nat) + " in "@ + id,
            RecErrorView::BadTakeFile(f) => "bad take file: "@ + f,
            RecErrorView::SpliceLength(a, b) => "splice order has "@ + dec_spec(a as nat)
                + " entries but there are "@ + dec_spec(b as nat) + " takes"@,
            RecErrorView::SpliceRange(i) => "splice order references take "@ + dec_spec(
                i as nat,
            ),
            RecErrorView::SpliceRepeat => "splice order repeats a take"@,
        }
    }

    pub fn message(&self) -> (r: String)
        ensures
            r@ == Self::message_spec(self@),
    {
        let mut out = String::new();
        match self {
            RecError::Empty => push_str(&mut out, "recording came back empty — nothing to save"),
            RecError::BadId(id) => {
                push_str(&mut out, "bad recording id: ");
                push_str(&mut out, id.as_str());
            },
            RecError::NotFound(id) => {
                push_str(&mut out, "no recording ");
                push_str(&mut out, id.as_str());
            },
            RecError::Locked => push_str(&mut out, "this recording is locked — unlock it to edit"),
            RecError::NoTake(i, id) => {
                push_str(&mut out, "no take ");
                push_decimal(&mut out, *i as u64);
                push_str(&mut out, " in ");
                push_str(&mut out, id.as_str());
            },
            RecError::BadTakeFile(f) => {
                push_str(&mut out, "bad take file: ");
                push_str(&mut out, f.as_str());
            },
            RecError::SpliceLength(a, b) => {
                push_str(&mut out, "splice order has ");
                push_decimal(&mut out, *a as u64);
                push_str(&mut out, " entries but there are ");
                push_decimal(&mut out, *b as u64);
                push_str(&mut out, " takes");
            },
            RecError::SpliceRange(i) => {
                push_str(&mut out, "splice order references take ");
                push_decimal(&mut out, *i as u64);
            },
            RecError::SpliceRepeat => push_str(&mut out, "splice order repeats a take"),
        }
        assert(out@ =~= Self::message_spec(self@));
        out
    }
}

// ------------------------------------------------------- clock-driven forms

/// A fresh recording id, from the clock.
pub fn mint_id() -> (r: String)
    ensures
        exists|now: u64| r@ == mint_id_spec(now),
{
    mint_id_at(now_ms())
}

/// `save_take_at` with the time read from the clock.
pub fn save_take(
    all: &mut Vec<Recording>,
    bytes: &[u8],
    mime: &str,
    duration_bits: u64,
    transcript: &str,
    recording_id: Option<&str>,
    name: Option<&str>,
) -> (r: Result<(Recording, Take), RecError>)
    ensures
        exists|now: u64|
            match #[trigger] save_take_spec(
                recs_view(old(all)@),
                bytes@.len(),
                mime@,
                duration_bits,
                transcript@,
                opt_view(recording_id),
                opt_view(name),
                now,
            ) {
                Ok((idx, rec, take)) => r matches Ok((rr, tt)) && rr@ == rec && tt@ == take
                    && recs_view(final(all)@) == idx,
                Err(e) => r matches Err(ee) && ee@ == e && recs_view(final(all)@) == recs_view(
                    old(all)@,
                ),
            },
{
    let now = now_ms();
    save_take_at(all, bytes, mime, duration_bits, transcript, recording_id, name, now)
}

/// `update_at` with the time read from the clock.
pub fn update(all: &mut Vec<Recording>, id: &str, patch: Patch) -> (r: Result<Recording, RecError>)
    ensures
        exists|now: u64|
            match #[trigger] update_spec(recs_view(old(all)@), id@, patch@, now) {
                Ok((idx, rec)) => r matches Ok(rr) && rr@ == rec && recs_view(final(all)@) == idx,
                Err(e) => r matches Err(ee) && ee@ == e && recs_view(final(all)@) == recs_view(
                    old(all)@,
                ),
            },
{
    let now = now_ms();
    update_at(all, id, patch, now)
}

/// `delete_take_at` with the time read from the clock.
pub fn delete_take(all: &mut Vec<Recording>, id: &str, take_index: usize) -> (r: Result<
    (Recording, Take),
    RecError,
>)
    ensures
        exists|now: u64|
            match #[trigger] delete_take_spec(recs_view(old(all)@), id@, take_index, now) {
                Ok((idx, rec, t)) => r matches Ok((rr, tt)) && rr@ == rec && tt@ == t
                    && recs_view(final(all)@) == idx,
                Err(e) => r matches Err(ee) && ee@ == e && recs_view(final(all)@) == recs_view(
                    old(all)@,
                ),
            },
{
    let now = now_ms();
    delete_take_at(all, id, take_index, now)
}

/// `commit_splice_at` with the time read from the clock.
pub fn commit_splice(all: &mut Vec<Recording>, id: &str, takes: Vec<Take>) -> (r: Result<
    Recording,
    RecError,
>)
    ensures
        exists|now: u64|
            match #[trigger] commit_splice_spec(recs_view(old(all)@), id@, takes_view(takes@), now) {
                Ok((idx, rec)) => r matches Ok(rr) && rr@ == rec && recs_view(final(all)@) == idx,
                Err(e) => r matches Err(ee) && ee@ == e && recs_view(final(all)@) == recs_view(
                    old(all)@,
                ),
            },
{
    let now = now_ms();
    commit_splice_at(all, id, takes, now)
}

/// Where `splice` looks for ffmpeg, in order.
pub fn ffmpeg_candidates() -> (r: Vec<&'static str>)
    ensures
        r@.len() == 3,
        r@[0]@ == "/opt/homebrew/bin/ffmpeg"@,
        r@[1]@ == "/usr/local/bin/ffmpeg"@,
        r@[2]@ == "/usr/bin/ffmpeg"@,
{
    let mut v: Vec<&'static str> = Vec::new();
    v.push("/opt/homebrew/bin/ffmpeg");
    v.push("/usr/local/bin/ffmpeg");
    v.push("/usr/bin/ffmpeg");
    v
}

/// The patch that unlocks a recording and changes nothing else.
pub open spec fn unlock_patch() -> PatchView {
    PatchView { name: None, summary: None, locked: Some(false), take_index: None, transcript: None }
}

/// Unlock a recording with the owner PIN, the check done here rather than in the
/// webview. `None` when the PIN does not verify (nothing changes); else what the
/// unlocking patch gives.
pub fn unlock(all: &mut Vec<Recording>, id: &str, stored: &Option<crate::studio_auth::OwnerBlob>, pin: &str) -> (r:
    Option<Result<Recording, RecError>>)
    ensures
        !crate::studio_auth::verify_spec(*stored, pin@) ==> r is None && final(all)@ == old(all)@,
        crate::studio_auth::verify_spec(*stored, pin@) ==> exists|now: u64|
            match #[trigger] update_spec(recs_view(old(all)@), id@, unlock_patch(), now) {
                Ok((idx, rec)) => r matches Some(Ok(rr)) && rr@ == rec && recs_view(final(all)@) == idx,
                Err(e) => r matches Some(Err(ee)) && ee@ == e && recs_view(final(all)@) == recs_view(
                    old(all)@,
                ),
            },
{
    if !crate::studio_auth::verify_pin(stored, pin) {
        return None;
    }
    let patch = Patch { name: None, summary: None, locked: Some(false), take_index: None, transcript: None };
    assert(patch@ == unlock_patch());
    Some(update(all, id, patch))
}

/// The ffmpeg binaries looked for, in order.
pub open spec fn ffmpeg_candidates_spec() -> Seq<Seq<char>> {
    seq!["/opt/homebrew/bin/ffmpeg"@, "/usr/local/bin/ffmpeg"@, "/usr/bin/ffmpeg"@]
}

/// The error when no ffmpeg binary is found.
pub open spec fn ffmpeg_missing_spec() -> Seq<char> {
    "ffmpeg not found — splice needs it (brew install ffmpeg)"@
}

/// The ffmpeg to run, given which candidates exist (one answer per candidate, in
/// order): the first that exists, else the not-found error.
pub open spec fn ffmpeg_choice_spec(found: Seq<bool>) -> Result<Seq<char>, Seq<char>> {
    match crate::disk::first_true(found) {
        Some(i) => Ok(ffmpeg_candidates_spec()[i as int]),
        None => Err(ffmpeg_missing_spec()),
    }
}

pub open spec fn text_result_view(r: Result<String, String>) -> Result<Seq<char>, Seq<char>> {
    match r {
        Ok(t) => Ok(t@),
        Err(e) => Err(e@),
    }
}

/// The ffmpeg to run, from the answers of the existence probes of its candidates.
pub fn ffmpeg_choice(found: &[bool]) -> (r: Result<String, String>)
    requires
        found@.len() == 3,
    ensures
        text_result_view(r) == ffmpeg_choice_spec(found@),
{
    let c = ffmpeg_candidates();
    match crate::disk::first_existing(found) {
        Some(i) => {
            proof {
                crate::disk::lemma_first_true(found@);
            }
            let mut p = String::new();
            push_str(&mut p, c[i]);
            assert(Seq::<char>::empty() + c@[i as int]@ =~= c@[i as int]@);
            Ok(p)
        },
        None => {
            let mut e = String::new();
            push_str(&mut e, "ffmpeg not found — splice needs it (brew install ffmpeg)");
            assert(Seq::<char>::empty() + ffmpeg_missing_spec() =~= ffmpeg_missing_spec());
            Err(e)
        },
    }
}

/// Find ffmpeg: each candidate is probed on disk, in order, until one exists; the
/// answer is what `ffmpeg_choice` makes of those probes.
pub fn ffmpeg_binary() -> (r: Result<String, String>)
    ensures
        exists|found: Seq<bool>| found.len() == 3 && text_result_view(r) == #[trigger] ffmpeg_choice_spec(found),
{
    let c = ffmpeg_candidates();
    let mut found: Vec<bool> = Vec::new();
    let mut seen = false;
    let mut i: usize = 0;
    while i < c.len()
        invariant
            i <= c@.len(),
            c@.len() == 3,
            found@.len() == i,
        decreases c.len() - i,
    {
        let hit = if seen {
            false
        } else {
            crate::disk::path_exists(c[i])
        };
        seen = seen || hit;
        found.push(hit);
        i += 1;
    }
    let r = ffmpeg_choice(found.as_slice());
    assert(found@.len() == 3 && text_result_view(r) == ffmpeg_choice_spec(found@));
    r
}

/// Where the library lives: `GROVE_RECORDINGS_DIR` when it is set and not blank, else
/// `.spruce_grove/desktop/recordings` under `$HOME` (or under `.` without one).
pub open spec fn library_root_spec(recordings_dir: Option<Seq<char>>, home: Option<Seq<char>>) -> Seq<char> {
    match recordings_dir {
        Some(d) if !is_blank(d) => d,
        _ => {
            let h = match home {
                Some(h) => h,
                None => "."@,
            };
            join_spec(join_spec(join_spec(h, ".spruce_grove"@), "desktop"@), "recordings"@)
        },
    }
}

/// Where the library lives.
pub fn library_root(recordings_dir: Option<&str>, home: Option<&str>) -> (r: String)
    ensures
        r@ == library_root_spec(
            match recordings_dir {
                Some(d) => Some(d@),
                None => None,
            },
            match home {
                Some(h) => Some(h@),
                None => None,
            },
        ),
{
    match recordings_dir {
        Some(d) => {
            if !crate::text::is_blank_str(d) {
                let mut out = String::new();
                push_str(&mut out, d);
                assert(Seq::<char>::empty() + d@ =~= d@);
                return out;
            }
        },
        None => {},
    }
    let h = match home {
        Some(h) => h,
        None => ".",
    };
    let a = join_path(h, ".spruce_grove");
    let b = join_path(a.as_str(), "desktop");
    join_path(b.as_str(), "recordings")
}

/// The index of every recording's metadata, inside the library root.
pub fn index_path(root: &str) -> (r: String)
    ensures
        r@ == join_spec(root@, "index.json"@),
{
    join_path(root, "index.json")
}


// ------------------------------------------------------------ laws

proof fn lemma_hex_chars(n: nat)
    ensures
        forall|i: int| 0 <= i < hex_spec(n).len() ==> #[trigger] id_char(hex_spec(n)[i]),
        hex_spec(n).len() >= 1,
    decreases n,
{
    if n < 16 {
        assert(id_char(digit_char(n)));
    } else {
        lemma_hex_chars(n / 16);
        assert(id_char(digit_char(n % 16)));
    }
}


pub open spec fn pow16(k: nat) -> nat
    decreases k,
{
    if k == 0 {
        1
    } else {
        16 * pow16((k - 1) as nat)
    }
}

proof fn lemma_hex_len(n: nat, k: nat)
    requires
        k >= 1,
        n < pow16(k),
    ensures
        hex_spec(n).len() <= k,
    decreases k,
{
    if n >= 16 {
        assert(k >= 2) by {
            if k == 1 {
                assert(pow16(1) == 16) by {
                    reveal_with_fuel(pow16, 2);
                }
            }
        }
        assert(n / 16 < pow16((k - 1) as nat));
        lemma_hex_len(n / 16, (k - 1) as nat);
    }
}

/// Every minted id is a valid id.
pub proof fn law_minted_ids_are_valid(now: u64)
    ensures
        valid_id_spec(mint_id_spec(now)),
{
    reveal_strlit("rec-");
    lemma_hex_chars(now as nat);
    assert(pow16(16) == 0x1_0000_0000_0000_0000) by {
        reveal_with_fuel(pow16, 17);
    }
    lemma_hex_len(now as nat, 16);
    let m = mint_id_spec(now);
    assert forall|i: int| 0 <= i < m.len() implies #[trigger] id_char(m[i]) by {
        if i >= 4 {
            assert(m[i] == hex_spec(now as nat)[i - 4]);
        }
    }
}

/// A locked recording refuses every edit but the patch that unlocks it: patches,
/// dropping a take and splicing all answer `Locked`.
pub proof fn law_locked_is_read_only(
    all: Seq<RecordingView>,
    id: Seq<char>,
    patch: PatchView,
    index: usize,
    order: Seq<usize>,
    now: u64,
)
    requires
        locate_spec(all, id) is Ok,
        all[locate_spec(all, id)->Ok_0 as int].locked,
    ensures
        patch.locked != Some(false) ==> update_spec(all, id, patch, now) == Err::<
            (Seq<RecordingView>, RecordingView),
            RecErrorView,
        >(RecErrorView::Locked),
        delete_take_spec(all, id, index, now) == Err::<
            (Seq<RecordingView>, RecordingView, TakeView),
            RecErrorView,
        >(RecErrorView::Locked),
        splice_plan_spec(all, id, order) == Err::<
            (Seq<Seq<char>>, Seq<TakeView>, Seq<char>),
            RecErrorView,
        >(RecErrorView::Locked),
{
}

/// No two recordings share an id.
pub open spec fn ids_unique(all: Seq<RecordingView>) -> bool {
    forall|i: int, j: int| 0 <= i < j < all.len() ==> #[trigger] all[i].id != #[trigger] all[j].id
}

/// Where newest-first order puts a recording: before the first one that is no newer.
proof fn lemma_first_not_newer_props(t: Seq<RecordingView>, k: u64)
    requires
        forall|i: int, j: int| 0 <= i < j < t.len() ==> #[trigger] t[i].updated_ms >= #[trigger] t[j].updated_ms,
    ensures
        first_not_newer(t, k) <= t.len(),
        forall|j: int| 0 <= j < first_not_newer(t, k) ==> #[trigger] t[j].updated_ms > k,
        forall|j: int| first_not_newer(t, k) <= j < t.len() ==> #[trigger] t[j].updated_ms <= k,
    decreases t.len(),
{
    if t.len() > 0 {
        let d = t.drop_first();
        assert forall|i: int, j: int| 0 <= i < j < d.len() implies #[trigger] d[i].updated_ms
            >= #[trigger] d[j].updated_ms by {
            assert(d[i] == t[i + 1]);
            assert(d[j] == t[j + 1]);
        }
        lemma_first_not_newer_props(d, k);
        if t[0].updated_ms <= k {
            assert forall|j: int| 0 <= j < t.len() implies #[trigger] t[j].updated_ms <= k by {
                if j > 0 {
                    assert(t[0].updated_ms >= t[j].updated_ms);
                }
            }
        } else {
            assert forall|j: int| 0 <= j < first_not_newer(t, k) implies #[trigger] t[j].updated_ms
                > k by {
                if j > 0 {
                    assert(t[j] == d[j - 1]);
                }
            }
            assert forall|j: int| first_not_newer(t, k) <= j < t.len() implies #[trigger] t[j].updated_ms
                <= k by {
                assert(t[j] == d[j - 1]);
            }
        }
    }
}

/// The list comes newest first, and holds the same recordings, each as often.
pub proof fn law_list_is_newest_first(s: Seq<RecordingView>)
    ensures
        forall|i: int, j: int|
            0 <= i < j < newest_first(s).len() ==> #[trigger] newest_first(s)[i].updated_ms
                >= #[trigger] newest_first(s)[j].updated_ms,
        newest_first(s).to_multiset() == s.to_multiset(),
    decreases s.len(),
{
    broadcast use vstd::seq_lib::to_multiset_insert;
    broadcast use vstd::multiset::group_multiset_axioms;

    if s.len() > 0 {
        law_list_is_newest_first(s.drop_first());
        let t = newest_first(s.drop_first());
        let x = s[0];
        let p = first_not_newer(t, x.updated_ms);
        lemma_first_not_newer_props(t, x.updated_ms);
        let r = t.insert(p as int, x);
        assert(r == newest_first(s));
        assert forall|i: int, j: int| 0 <= i < j < r.len() implies #[trigger] r[i].updated_ms
            >= #[trigger] r[j].updated_ms by {
            if j < p {
                assert(r[i] == t[i] && r[j] == t[j]);
            } else if j == p {
                assert(r[i] == t[i]);
            } else if i < p {
                assert(r[i] == t[i] && r[j] == t[j - 1]);
            } else if i == p {
                assert(r[j] == t[j - 1]);
            } else {
                assert(r[i] == t[i - 1] && r[j] == t[j - 1]);
            }
        }
        assert(r.to_multiset() == t.to_multiset().insert(x));
        let d = s.drop_first();
        assert(s =~= seq![x] + d);
        vstd::seq_lib::lemma_seq_union_to_multiset_commutative(seq![x], d);
        assert(d + seq![x] =~= d.push(x));
        vstd::seq_lib::to_multiset_build(d, x);
        assert(s.to_multiset() == d.to_multiset().insert(x));
    } else {
        assert(s =~= Seq::<RecordingView>::empty());
    }
}

/// In a list without repeated ids, the recording found under `id` is the only one
/// that carries it.
proof fn lemma_found_is_only(all: Seq<RecordingView>, x: RecordingView)
    requires
        ids_unique(all),
        all.contains(x),
    ensures
        find_spec(all, x.id) matches Some(k) && all[k as int] == x,
{
    lemma_find_spec(all, x.id);
    let i = choose|i: int| 0 <= i < all.len() && all[i] == x;
    match find_spec(all, x.id) {
        Some(k) => {
            if (k as int) < i {
                assert(all[k as int].id != all[i].id);
            } else if (k as int) > i {
            }
        },
        None => {
            assert(all[i].id == x.id);
        },
    }
}

/// A recording that ids-unique lists hold the same recordings of, each as often, keep
/// their ids unique.
proof fn lemma_unique_after_permutation(a: Seq<RecordingView>, b: Seq<RecordingView>)
    requires
        ids_unique(a),
        a.to_multiset() == b.to_multiset(),
    ensures
        ids_unique(b),
        forall|x: RecordingView| b.contains(x) <==> a.contains(x),
{
    broadcast use vstd::multiset::group_multiset_axioms;

    assert forall|x: RecordingView| b.contains(x) <==> a.contains(x) by {
        vstd::seq_lib::to_multiset_contains(a, x);
        vstd::seq_lib::to_multiset_contains(b, x);
    }
    assert forall|i: int, j: int| 0 <= i < j < b.len() implies #[trigger] b[i].id != #[trigger] b[j].id by {
        if b[i].id == b[j].id {
            let v = b[i];
            vstd::seq_lib::to_multiset_contains(a, b[i]);
            vstd::seq_lib::to_multiset_contains(b, b[i]);
            vstd::seq_lib::to_multiset_contains(a, b[j]);
            vstd::seq_lib::to_multiset_contains(b, b[j]);
            assert(b.contains(b[i]) && b.contains(b[j]));
            let ia = choose|ia: int| 0 <= ia < a.len() && a[ia] == b[i];
            let ja = choose|ja: int| 0 <= ja < a.len() && a[ja] == b[j];
            if ia == ja {
                // the same recording twice in b: so twice in a
                vstd::seq_lib::to_multiset_remove(b, j);
                assert(b.remove(j)[i] == v);
                vstd::seq_lib::to_multiset_contains(b.remove(j), v);
                assert(b.to_multiset().count(v) >= 2);
                vstd::seq_lib::to_multiset_remove(a, ia);
                vstd::seq_lib::to_multiset_contains(a.remove(ia), v);
                assert(a.remove(ia).contains(v));
                let ka = choose|ka: int| 0 <= ka < a.remove(ia).len() && a.remove(ia)[ka] == v;
                if ka < ia {
                    assert(a[ka] == v);
                } else {
                    assert(a[ka + 1] == v);
                }
            } else {
                if ia < ja {
                    assert(a[ia].id != a[ja].id);
                } else {
                    assert(a[ja].id != a[ia].id);
                }
            }
        }
    }
}

/// What a save wrote, a read gives back: after a take is saved into a library without
/// repeated ids, looking up the recording it went to gives exactly that recording,
/// its last take is the new take, whose file no earlier take of it uses, and ids
/// stay unique.
pub proof fn law_save_then_get(
    all: Seq<RecordingView>,
    bytes_len: nat,
    mime: Seq<char>,
    duration_bits: u64,
    transcript: Seq<char>,
    recording_id: Option<Seq<char>>,
    name: Option<Seq<char>>,
    now: u64,
)
    requires
        ids_unique(all),
        save_take_spec(all, bytes_len, mime, duration_bits, transcript, recording_id, name, now) is Ok,
    ensures
        ({
            let (idx, rec, t) = save_take_spec(
                all,
                bytes_len,
                mime,
                duration_bits,
                transcript,
                recording_id,
                name,
                now,
            )->Ok_0;
            &&& ids_unique(idx)
            &&& locate_spec(idx, rec.id) matches Ok(k) && idx[k as int] == rec
            &&& rec.takes.last() == t
            &&& !take_files(rec.takes.drop_last()).contains(t.file)
        }),
{
    let (idx, rec, t) = save_take_spec(
        all,
        bytes_len,
        mime,
        duration_bits,
        transcript,
        recording_id,
        name,
        now,
    )->Ok_0;
    let id = target_id(recording_id, now);
    lemma_find_spec(all, id);
    match find_spec(all, id) {
        Some(k) => {
            law_new_take_file_is_fresh(all[k as int].takes, mime);
            assert(rec.takes.drop_last() =~= all[k as int].takes);
        },
        None => {
            assert(take_files(rec.takes.drop_last()) =~= Seq::<Seq<char>>::empty());
        },
    }
    match recording_id {
        Some(r) => {
            assert(valid_id_spec(r));
        },
        None => {
            law_minted_ids_are_valid(now);
        },
    }
    let u = match find_spec(all, id) {
        Some(k) => all.update(k as int, rec),
        None => all.push(rec),
    };
    assert(idx == newest_first(u));
    assert(ids_unique(u)) by {
        match find_spec(all, id) {
            Some(k) => {
                assert forall|i: int, j: int| 0 <= i < j < u.len() implies #[trigger] u[i].id
                    != #[trigger] u[j].id by {
                    if i == k {
                        assert(u[j] == all[j]);
                        assert(all[k as int].id != all[j].id);
                    } else if j == k {
                        assert(u[i] == all[i]);
                        assert(all[i].id != all[k as int].id);
                    } else {
                        assert(u[i] == all[i] && u[j] == all[j]);
                    }
                }
            },
            None => {
                assert forall|i: int, j: int| 0 <= i < j < u.len() implies #[trigger] u[i].id
                    != #[trigger] u[j].id by {
                    if j == all.len() {
                        assert(u[i] == all[i]);
                    } else {
                        assert(u[i] == all[i] && u[j] == all[j]);
                    }
                }
            },
        }
    }
    law_list_is_newest_first(u);
    lemma_unique_after_permutation(u, idx);
    assert(u.contains(rec)) by {
        match find_spec(all, id) {
            Some(k) => {
                assert(u[k as int] == rec);
            },
            None => {
                assert(u[all.len() as int] == rec);
            },
        }
    }
    lemma_found_is_only(idx, rec);
}

/// What an update wrote, a read gives back: the recording found under the id is the
/// patched one.
pub proof fn law_update_then_get(all: Seq<RecordingView>, id: Seq<char>, patch: PatchView, now: u64)
    requires
        update_spec(all, id, patch, now) is Ok,
    ensures
        ({
            let (idx, rec) = update_spec(all, id, patch, now)->Ok_0;
            locate_spec(idx, id) matches Ok(k) && idx[k as int] == rec
        }),
{
    let (idx, rec) = update_spec(all, id, patch, now)->Ok_0;
    let k = locate_spec(all, id)->Ok_0;
    lemma_find_spec(all, id);
    assert forall|j: int| 0 <= j < k implies idx[j].id != id by {
        assert(idx[j] == all[j]);
    }
    lemma_find_spec_is(idx, id, k as int);
}

/// An update applies its patch to the recording with that id and to nothing else:
/// the index keeps its order and every other recording, and the recording it returns
/// is the one now in the index. A given summary replaces the summary, a given lock
/// flag the flag, a non-blank name the name (trimmed), and a transcript edit the
/// transcript (trimmed) of that one take, keeping its file and everything else; what
/// the patch does not give is kept, and the update time becomes `now`.
pub proof fn law_update_applies_the_patch(all: Seq<RecordingView>, id: Seq<char>, patch: PatchView, now: u64)
    requires
        update_spec(all, id, patch, now) is Ok,
    ensures
        ({
            let (idx, rec) = update_spec(all, id, patch, now)->Ok_0;
            exists|k: int|
                #![trigger all[k]]
                {
                    let before = all[k];
                    &&& 0 <= k < all.len()
                    &&& before.id == id
                    &&& idx == all.update(k, rec)
                    &&& rec.id == id
                    &&& rec.created_ms == before.created_ms
                    &&& rec.updated_ms == now
                    &&& (patch.summary matches Some(s) ==> rec.summary == s)
                    &&& (patch.summary is None ==> rec.summary == before.summary)
                    &&& (patch.locked matches Some(l) ==> rec.locked == l)
                    &&& (patch.locked is None ==> rec.locked == before.locked)
                    &&& (patch.name matches Some(n) ==> rec.name == if is_blank(n) {
                        before.name
                    } else {
                        trim_spec(n)
                    })
                    &&& (patch.name is None ==> rec.name == before.name)
                    &&& (patch.take_index matches Some(i) ==> patch.transcript matches Some(t) ==> {
                        &&& rec.takes.len() == before.takes.len()
                        &&& rec.takes[i as int].transcript == trim_spec(t)
                        &&& rec.takes[i as int].file == before.takes[i as int].file
                        &&& rec.takes[i as int].mime == before.takes[i as int].mime
                        &&& rec.takes[i as int].created_ms == before.takes[i as int].created_ms
                        &&& rec.takes[i as int].duration_bits == before.takes[i as int].duration_bits
                        &&& forall|j: int| 0 <= j < rec.takes.len() && j != i ==> rec.takes[j] == before.takes[j]
                    })
                    &&& (patch.take_index is None || patch.transcript is None ==> rec.takes == before.takes)
                }
        }),
{
    let k = locate_spec(all, id)->Ok_0 as int;
    lemma_find_spec(all, id);
    let before = all[k];
    assert(before.id == id);
}

/// The markdown block of take `i` (numbered from 1), as the export shows it.
pub open spec fn take_block_lines(takes: Seq<TakeView>, labels: Seq<Seq<char>>) -> Seq<Seq<char>> {
    Seq::new(
        takes.len(),
        |i: int|
            "**take "@ + dec_spec((i + 1) as nat) + " — "@ + (if i < labels.len() {
                labels[i]
            } else {
                Seq::empty()
            }) + "s**\n\n"@ + trim_spec(takes[i].transcript) + "\n\n"@,
    )
}

proof fn lemma_export_blocks_flatten(takes: Seq<TakeView>, labels: Seq<Seq<char>>)
    ensures
        export_blocks(takes, labels) == take_block_lines(takes, labels).flatten(),
    decreases takes.len(),
{
    let b = take_block_lines(takes, labels);
    b.lemma_flatten_and_flatten_alt_are_equivalent();
    if takes.len() > 0 {
        lemma_export_blocks_flatten(takes.drop_last(), labels);
        let d = take_block_lines(takes.drop_last(), labels);
        assert(b.drop_last() =~= d);
        d.lemma_flatten_and_flatten_alt_are_equivalent();
    }
}

/// The export reads, in order: the title `# <name>`, the lock note when the
/// recording is locked, the summary section (`## Summary` and the trimmed summary)
/// when the summary is not blank and nothing of it otherwise, then `## Transcript`
/// and one block per take, in take order, each numbered from 1 and carrying its
/// duration label and its trimmed transcript.
pub proof fn law_export_reads_in_order(rec: RecordingView, labels: Seq<Seq<char>>)
    ensures
        ({
            let e = export_spec(rec, labels);
            let title = "# "@ + rec.name + "\n\n"@;
            let lock = if rec.locked {
                "_locked — this is the committed record_\n\n"@
            } else {
                Seq::<char>::empty()
            };
            let body = "## Transcript\n\n"@ + take_block_lines(rec.takes, labels).flatten();
            &&& !is_blank(rec.summary) ==> e == title + lock + "## Summary\n\n"@ + trim_spec(rec.summary)
                + "\n\n"@ + body
            &&& is_blank(rec.summary) ==> e == title + lock + body
        }),
{
    lemma_export_blocks_flatten(rec.takes, labels);
    let lock = if rec.locked {
        "_locked — this is the committed record_\n\n"@
    } else {
        Seq::<char>::empty()
    };
    let title = "# "@ + rec.name + "\n\n"@;
    let body = "## Transcript\n\n"@ + take_block_lines(rec.takes, labels).flatten();
    if is_blank(rec.summary) {
        assert(export_spec(rec, labels) =~= title + lock + body);
    } else {
        assert(export_spec(rec, labels) =~= title + lock + "## Summary\n\n"@ + trim_spec(rec.summary)
            + "\n\n"@ + body);
    }
}

/// The lines of the splice list, one per renamed take.
spec fn splice_lines(nt: Seq<TakeView>) -> Seq<Seq<char>> {
    Seq::new(nt.len(), |s: int| "file 'splice/"@ + nt[s].file + "'\n"@)
}

proof fn lemma_concat_list_flatten(nt: Seq<TakeView>)
    ensures
        concat_list(nt) == splice_lines(nt).flatten(),
    decreases nt.len(),
{
    let l = splice_lines(nt);
    l.lemma_flatten_and_flatten_alt_are_equivalent();
    if nt.len() > 0 {
        lemma_concat_list_flatten(nt.drop_last());
        let d = splice_lines(nt.drop_last());
        assert(l.drop_last() =~= d);
        d.lemma_flatten_and_flatten_alt_are_equivalent();
    }
}

/// A splice plays the takes in the order asked for: slot `s` of the plan holds take
/// `order[s]` (its transcript, mime, time and duration) under the new name
/// `take-<s, three digits>.<its extension>`, its staged copy comes from that take's
/// current file, and line `s` of the ffmpeg list names the staged copy
/// `splice/<new name of slot s>` — so reading the list in order plays the takes in
/// splice order.
pub proof fn law_splice_plays_in_the_order_asked(all: Seq<RecordingView>, id: Seq<char>, order: Seq<usize>)
    requires
        splice_plan_spec(all, id, order) is Ok,
    ensures
        ({
            let (sources, nt, list) = splice_plan_spec(all, id, order)->Ok_0;
            exists|k: int|
                #![trigger all[k]]
                {
                    let takes = all[k].takes;
                    &&& 0 <= k < all.len()
                    &&& all[k].id == id
                    &&& !all[k].locked
                    &&& order.len() == takes.len()
                    &&& sources.len() == order.len()
                    &&& nt.len() == order.len()
                    &&& forall|s: int, t: int|
                        0 <= s < t < order.len() ==> #[trigger] order[s] != #[trigger] order[t]
                    &&& forall|s: int|
                        #![trigger nt[s]]
                        0 <= s < order.len() ==> {
                            &&& order[s] < takes.len()
                            &&& sources[s] == takes[order[s] as int].file
                            &&& nt[s].transcript == takes[order[s] as int].transcript
                            &&& nt[s].mime == takes[order[s] as int].mime
                            &&& nt[s].created_ms == takes[order[s] as int].created_ms
                            &&& nt[s].duration_bits == takes[order[s] as int].duration_bits
                            &&& nt[s].file == "take-"@ + zero_pad(dec_spec(s as nat), 3) + "."@ + ext_of(
                                takes[order[s] as int].file,
                            )
                        }
                    &&& list == Seq::new(order.len(), |s: int| "file 'splice/"@ + nt[s].file + "'\n"@).flatten()
                }
        }),
{
    let k = locate_spec(all, id)->Ok_0 as int;
    lemma_find_spec(all, id);
    let rec = all[k];
    let nt = spliced_takes(rec.takes, order);
    lemma_no_order_fault(order, rec.takes.len(), 0);
    lemma_concat_list_flatten(nt);
    assert(splice_lines(nt) =~= Seq::new(order.len(), |s: int| "file 'splice/"@ + nt[s].file + "'\n"@));
}

/// When an update is refused, and only then: for a recording with that id (the first
/// one), a locked recording refuses every patch that does not unlock it, and a
/// transcript edit of a take it does not have is refused; otherwise the update goes
/// through.
pub proof fn law_update_refuses_exactly(all: Seq<RecordingView>, id: Seq<char>, patch: PatchView, now: u64, k: int)
    requires
        valid_id_spec(id),
        0 <= k < all.len(),
        all[k].id == id,
        forall|j: int| 0 <= j < k ==> all[j].id != id,
    ensures
        all[k].locked && patch.locked != Some(false) ==> update_spec(all, id, patch, now) == Err::<
            (Seq<RecordingView>, RecordingView),
            RecErrorView,
        >(RecErrorView::Locked),
        !(all[k].locked && patch.locked != Some(false)) && patch.take_index is Some && patch.transcript is Some
            && patch.take_index->0 >= all[k].takes.len() ==> update_spec(all, id, patch, now) == Err::<
            (Seq<RecordingView>, RecordingView),
            RecErrorView,
        >(RecErrorView::NoTake(patch.take_index->0, id)),
        !(all[k].locked && patch.locked != Some(false)) && !(patch.take_index is Some && patch.transcript is Some
            && patch.take_index->0 >= all[k].takes.len()) ==> update_spec(all, id, patch, now) is Ok,
{
    lemma_find_spec(all, id);
    if find_spec(all, id) != Some(k as nat) {
        let f = find_spec(all, id)->Some_0 as int;
        assert(f < k ==> all[f].id != id);
    }
}

/// A delete fails exactly when the id is malformed (`BadId`) or no recording carries it
/// (`NotFound`); on either error the index is left as it was (see `delete`).
pub proof fn law_delete_fails_exactly_on_bad_or_absent_id(all: Seq<RecordingView>, id: Seq<char>)
    ensures
        !valid_id_spec(id) ==> delete_spec(all, id) == Err::<Seq<RecordingView>, RecErrorView>(
            RecErrorView::BadId(id),
        ),
        valid_id_spec(id) && !(exists|i: int| 0 <= i < all.len() && #[trigger] all[i].id == id)
            ==> delete_spec(all, id) == Err::<Seq<RecordingView>, RecErrorView>(RecErrorView::NotFound(id)),
        valid_id_spec(id) && (exists|i: int| 0 <= i < all.len() && #[trigger] all[i].id == id)
            ==> delete_spec(all, id) is Ok,
{
    lemma_without_id_len(all, id);
}

proof fn lemma_without_id_len(s: Seq<RecordingView>, id: Seq<char>)
    ensures
        without_id(s, id).len() <= s.len(),
        without_id(s, id).len() == s.len() <==> !(exists|i: int| 0 <= i < s.len() && #[trigger] s[i].id == id),
    decreases s.len(),
{
    if s.len() > 0 {
        let d = s.drop_last();
        lemma_without_id_len(d, id);
        if exists|i: int| 0 <= i < d.len() && #[trigger] d[i].id == id {
            let i = choose|i: int| 0 <= i < d.len() && #[trigger] d[i].id == id;
            assert(s[i].id == id);
        }
        if exists|i: int| 0 <= i < s.len() && #[trigger] s[i].id == id {
            let i = choose|i: int| 0 <= i < s.len() && #[trigger] s[i].id == id;
            if i < s.len() - 1 {
                assert(d[i].id == id);
            }
        }
    }
}

/// After a delete, no recording carries the id, and every other recording is kept.
pub proof fn law_delete_forgets(all: Seq<RecordingView>, id: Seq<char>)
    requires
        delete_spec(all, id) is Ok,
    ensures
        forall|i: int| 0 <= i < delete_spec(all, id)->Ok_0.len() ==> #[trigger] delete_spec(all, id)->Ok_0[i].id != id,
        forall|x: RecordingView| all.contains(x) && x.id != id ==> delete_spec(all, id)->Ok_0.contains(x),
{
    lemma_without_id(all, id);
}

/// Whether a recording does not carry `id`.
pub open spec fn other_than(id: Seq<char>) -> spec_fn(RecordingView) -> bool {
    |r: RecordingView| r.id != id
}

/// A delete keeps the other recordings in their order: the index after it is the index
/// before it, filtered down to the recordings whose id is not the deleted one.
pub proof fn law_delete_keeps_the_rest_in_order(all: Seq<RecordingView>, id: Seq<char>)
    requires
        delete_spec(all, id) is Ok,
    ensures
        delete_spec(all, id)->Ok_0 == all.filter(other_than(id)),
{
    lemma_without_id_is_filter(all, id);
}

proof fn lemma_without_id_is_filter(s: Seq<RecordingView>, id: Seq<char>)
    ensures
        without_id(s, id) == s.filter(other_than(id)),
    decreases s.len(),
{
    let f = other_than(id);
    reveal(Seq::filter);
    if s.len() == 0 {
        assert(s =~= Seq::<RecordingView>::empty());
    } else {
        lemma_without_id_is_filter(s.drop_last(), id);
        let sub = s.drop_last().filter(f);
        assert(s.filter(f) == (if f(s.last()) {
            sub.push(s.last())
        } else {
            sub
        }));
    }
}

proof fn lemma_without_id(s: Seq<RecordingView>, id: Seq<char>)
    ensures
        forall|i: int| 0 <= i < without_id(s, id).len() ==> #[trigger] without_id(s, id)[i].id != id,
        forall|x: RecordingView| s.contains(x) && x.id != id ==> without_id(s, id).contains(x),
    decreases s.len(),
{
    if s.len() > 0 {
        let d = s.drop_last();
        lemma_without_id(d, id);
        let w = without_id(d, id);
        assert forall|x: RecordingView| s.contains(x) && x.id != id implies without_id(s, id).contains(x) by {
            let i = choose|i: int| 0 <= i < s.len() && s[i] == x;
            if i < s.len() - 1 {
                assert(d[i] == x);
                assert(d.contains(x));
                let j = choose|j: int| 0 <= j < w.len() && w[j] == x;
                if s.last().id != id {
                    assert(w.push(s.last())[j] == x);
                }
            } else {
                assert(w.push(s.last())[w.len() as int] == x);
            }
        }
    }
}


proof fn lemma_no_order_fault(order: Seq<usize>, n: nat, p: nat)
    requires
        order_fault(order, n, p) is None,
    ensures
        forall|q: int| p <= q < order.len() ==> #[trigger] order[q] < n,
        forall|q: int, r: int| 0 <= r < q && p <= q < order.len() ==> #[trigger] order[r] != #[trigger] order[q],
    decreases order.len() - p,
{
    if p < order.len() {
        lemma_no_order_fault(order, n, p + 1);
        assert forall|q: int, r: int| 0 <= r < q && p <= q < order.len() implies #[trigger] order[r]
            != #[trigger] order[q] by {
            if q == p {
                if order[r] == order[q] {
                    assert(exists|qq: int| 0 <= qq < p && order[qq] == order[p as int]);
                }
            }
        }
    }
}

/// The order names take `t` somewhere.
pub open spec fn order_names(order: Seq<usize>, t: int) -> bool {
    exists|s: int| 0 <= s < order.len() && #[trigger] order[s] == t
}

/// A splice that goes through is a reordering: the order names every take exactly
/// once, and the new takes are the old ones in that order, renumbered from zero.
pub proof fn law_splice_is_a_permutation(all: Seq<RecordingView>, id: Seq<char>, order: Seq<usize>)
    requires
        splice_plan_spec(all, id, order) is Ok,
    ensures
        ({
            let takes = all[locate_spec(all, id)->Ok_0 as int].takes;
            let nt = splice_plan_spec(all, id, order)->Ok_0.1;
            &&& nt.len() == takes.len()
            &&& forall|i: int, j: int| 0 <= i < j < order.len() ==> #[trigger] order[i] != #[trigger] order[j]
            &&& forall|t: int| 0 <= t < takes.len() ==> #[trigger] order_names(order, t)
            &&& forall|s: int| 0 <= s < nt.len() ==> #[trigger] nt[s] == renumbered(takes[order[s] as int], s as nat)
        }),
{
    let k = locate_spec(all, id)->Ok_0;
    let takes = all[k as int].takes;
    let n = takes.len();
    lemma_no_order_fault(order, n, 0);
    let ints = order.map_values(|x: usize| x as int);
    assert(ints.no_duplicates()) by {
        assert forall|i: int, j: int| 0 <= i < ints.len() && 0 <= j < ints.len() && i != j implies ints[i]
            != ints[j] by {
            if i < j {
                assert(order[i] != order[j]);
            } else {
                assert(order[j] != order[i]);
            }
        }
    }
    ints.unique_seq_to_set();
    vstd::set_lib::lemma_int_range(0, n as int);
    let range = vstd::set_lib::set_int_range(0, n as int);
    assert(ints.to_set().subset_of(range)) by {
        assert forall|x: int| ints.to_set().contains(x) implies range.contains(x) by {
            let i = choose|i: int| 0 <= i < ints.len() && ints[i] == x;
            assert(order[i] < n);
        }
    }
    vstd::seq_lib::seq_to_set_is_finite(ints);
    vstd::set_lib::lemma_subset_equality(ints.to_set(), range);
    assert forall|t: int| 0 <= t < n implies #[trigger] order_names(order, t) by {
        assert(range.contains(t));
        assert(ints.to_set().contains(t));
        let s = choose|s: int| 0 <= s < ints.len() && ints[s] == t;
        assert(order[s] == t);
    }
}

} // verus!
