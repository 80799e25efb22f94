//! Character-level text utilities shared by the parsers.
use vstd::prelude::*;

verus! {

broadcast use vstd::string::group_string_axioms;

/// Unicode `White_Space`, the property `char::is_whitespace` and `str::trim` go by.
pub open spec fn is_ws(c: char) -> bool {
    let u = c as u32;
    (0x9 <= u && u <= 0xd) || u == 0x20 || u == 0x85 || u == 0xa0 || u == 0x1680 || (0x2000
        <= u && u <= 0x200a) || u == 0x2028 || u == 0x2029 || u == 0x202f || u == 0x205f || u
        == 0x3000
}

/// Number of leading white-space characters.
pub open spec fn lead_ws(s: Seq<char>) -> nat
    decreases s.len(),
{
    if s.len() > 0 && is_ws(s[0]) {
        1 + lead_ws(s.drop_first())
    } else {
        0
    }
}

/// Number of trailing white-space characters.
pub open spec fn trail_ws(s: Seq<char>) -> nat
    decreases s.len(),
{
    if s.len() > 0 && is_ws(s.last()) {
        1 + trail_ws(s.drop_last())
    } else {
        0
    }
}

/// `str::trim_start`.
pub open spec fn trim_start_spec(s: Seq<char>) -> Seq<char> {
    s.skip(lead_ws(s) as int)
}

/// `str::trim_end`.
pub open spec fn trim_end_spec(s: Seq<char>) -> Seq<char> {
    s.take(s.len() - trail_ws(s))
}

/// `str::trim`.
pub open spec fn trim_spec(s: Seq<char>) -> Seq<char> {
    trim_end_spec(trim_start_spec(s))
}

/// Is the text blank (empty once trimmed)?
pub open spec fn is_blank(s: Seq<char>) -> bool {
    trim_spec(s).len() == 0
}

pub open spec fn has_prefix(s: Seq<char>, p: Seq<char>) -> bool {
    p.len() <= s.len() && s.take(p.len() as int) == p
}

pub open spec fn has_suffix(s: Seq<char>, p: Seq<char>) -> bool {
    p.len() <= s.len() && s.skip(s.len() - p.len()) == p
}

/// First index of `c` in `s`.
pub open spec fn index_of(s: Seq<char>, c: char) -> Option<nat>
    decreases s.len(),
{
    if s.len() == 0 {
        None
    } else if s[0] == c {
        Some(0)
    } else {
        match index_of(s.drop_first(), c) {
            Some(i) => Some(i + 1),
            None => None,
        }
    }
}

/// `p` occurs somewhere in `s` (`str::contains` with a string pattern).
pub open spec fn occurs_in(s: Seq<char>, p: Seq<char>) -> bool {
    exists|i: int| 0 <= i && i + p.len() <= s.len() && #[trigger] s.subrange(i, i + p.len()) == p
}

/// Drops one trailing `'\r'`, if there is one.
pub open spec fn strip_cr(s: Seq<char>) -> Seq<char> {
    if s.len() > 0 && s.last() == '\r' {
        s.drop_last()
    } else {
        s
    }
}

/// `str::lines`: split at `'\n'`, each line loses one `'\r'` before its `'\n'`; a final
/// line without a newline is kept as it stands, and no empty line follows a final newline.
pub open spec fn lines_spec(s: Seq<char>) -> Seq<Seq<char>>
    decreases s.len(),
{
    if s.len() == 0 {
        Seq::empty()
    } else {
        match index_of(s, '\n') {
            None => seq![s],
            Some(i) => {
                proof {
                    lemma_index_of(s, '\n');
                }
                seq![strip_cr(s.take(i as int))] + lines_spec(s.skip(i + 1 as int))
            },
        }
    }
}

/// `str::split` at one character: always one more piece than separators.
pub open spec fn split_spec(s: Seq<char>, c: char) -> Seq<Seq<char>>
    decreases s.len(),
{
    match index_of(s, c) {
        None => seq![s],
        Some(i) => {
            proof {
                lemma_index_of(s, c);
            }
            seq![s.take(i as int)] + split_spec(s.skip(i + 1 as int), c)
        },
    }
}

pub proof fn lemma_index_of(s: Seq<char>, c: char)
    ensures
        match index_of(s, c) {
            Some(i) => i < s.len() && s[i as int] == c && forall|j: int|
                0 <= j < i ==> s[j] != c,
            None => forall|j: int| 0 <= j < s.len() ==> s[j] != c,
        },
    decreases s.len(),
{
    if s.len() > 0 {
        lemma_index_of(s.drop_first(), c);
        if s[0] != c {
            match index_of(s.drop_first(), c) {
                Some(i) => {
                    assert forall|j: int| 0 <= j < i + 1 implies s[j] != c by {
                        if j > 0 {
                            assert(s[j] == s.drop_first()[j - 1]);
                        }
                    }
                },
                None => {
                    assert forall|j: int| 0 <= j < s.len() implies s[j] != c by {
                        if j > 0 {
                            assert(s[j] == s.drop_first()[j - 1]);
                        }
                    }
                },
            }
        }
    }
}

/// Any index that is `c` and has no earlier `c` is what `index_of` finds.
pub proof fn lemma_index_of_is(s: Seq<char>, c: char, i: int)
    requires
        0 <= i <= s.len(),
        forall|j: int| 0 <= j < i ==> s[j] != c,
        i == s.len() || s[i] == c,
    ensures
        index_of(s, c) == (if i == s.len() {
            None::<nat>
        } else {
            Some(i as nat)
        }),
{
    lemma_index_of(s, c);
    match index_of(s, c) {
        Some(k) => {
            if k < i {
            } else if k > i {
                assert(s[i] != c);
            }
        },
        None => {
            if i < s.len() {
                assert(s[i] != c);
            }
        },
    }
}

/// Exec form of `is_ws`.
pub fn is_whitespace(c: char) -> (r: bool)
    ensures
        r == is_ws(c),
{
    let u = c as u32;
    (0x9 <= u && u <= 0xd) || u == 0x20 || u == 0x85 || u == 0xa0 || u == 0x1680 || (0x2000
        <= u && u <= 0x200a) || u == 0x2028 || u == 0x2029 || u == 0x202f || u == 0x205f || u
        == 0x3000
}

/// Appends one character to a `String` (`String::push`).
#[verifier::external_body]
pub fn push_char(s: &mut String, c: char)
    ensures
        final(s)@ == old(s)@.push(c),
{
    s.push(c);
}

/// The characters of `s`, in order.
pub fn chars_of(s: &str) -> (r: Vec<char>)
    ensures
        r@ == s@,
{
    let mut out: Vec<char> = Vec::new();
    for c in it: s.chars()
        invariant
            out@ == it.seq().take(it.index() as int),
    {
        out.push(c);
    }
    out
}

/// The text made of `v[from..to]`.
pub fn string_of_range(v: &[char], from: usize, to: usize) -> (r: String)
    requires
        from <= to <= v@.len(),
    ensures
        r@ == v@.subrange(from as int, to as int),
{
    let mut out = String::new();
    let mut i = from;
    while i < to
        invariant
            from <= i <= to <= v@.len(),
            out@ == v@.subrange(from as int, i as int),
        decreases to - i,
    {
        push_char(&mut out, v[i]);
        i += 1;
        assert(out@ =~= v@.subrange(from as int, i as int));
    }
    out
}


/// Appends `v[from..to]` to `out`.
pub fn push_range(out: &mut String, v: &[char], from: usize, to: usize)
    requires
        from <= to <= v@.len(),
    ensures
        final(out)@ == old(out)@ + v@.subrange(from as int, to as int),
{
    let mut i = from;
    while i < to
        invariant
            from <= i <= to <= v@.len(),
            out@ == old(out)@ + v@.subrange(from as int, i as int),
        decreases to - i,
    {
        push_char(out, v[i]);
        i += 1;
        assert(out@ =~= old(out)@ + v@.subrange(from as int, i as int));
    }
}

/// Appends all of `s` to `out`.
pub fn push_str(out: &mut String, s: &str)
    ensures
        final(out)@ == old(out)@ + s@,
{
    let v = chars_of(s);
    push_range(out, &v, 0, v.len());
    assert(v@.subrange(0, v@.len() as int) =~= v@);
}

/// Index of the first non-white-space character at or after `from` (or `to`).
fn skip_ws_forward(v: &[char], from: usize, to: usize) -> (r: usize)
    requires
        from <= to <= v@.len(),
    ensures
        from <= r <= to,
        r == from + lead_ws(v@.subrange(from as int, to as int)),
{
    let mut i = from;
    while i < to && is_whitespace(v[i])
        invariant
            from <= i <= to <= v@.len(),
            lead_ws(v@.subrange(from as int, to as int)) == (i - from) + lead_ws(
                v@.subrange(i as int, to as int),
            ),
        decreases to - i,
    {
        assert(v@.subrange(i as int, to as int).drop_first() =~= v@.subrange(
            i + 1,
            to as int,
        ));
        i += 1;
    }
    i
}

/// The bounds `(start, end)` of `trim(v[from..to])` within `v`.
pub fn trim_bounds(v: &[char], from: usize, to: usize) -> (r: (usize, usize))
    requires
        from <= to <= v@.len(),
    ensures
        from <= r.0 <= r.1 <= to,
        v@.subrange(r.0 as int, r.1 as int) == trim_spec(v@.subrange(from as int, to as int)),
{
    let start = skip_ws_forward(v, from, to);
    let ghost s = v@.subrange(from as int, to as int);
    assert(trim_start_spec(s) =~= v@.subrange(start as int, to as int));
    let mut end = to;
    while end > start && is_whitespace(v[end - 1])
        invariant
            from <= start <= end <= to <= v@.len(),
            trail_ws(v@.subrange(start as int, to as int)) == (to - end) + trail_ws(
                v@.subrange(start as int, end as int),
            ),
        decreases end,
    {
        assert(v@.subrange(start as int, end as int).drop_last() =~= v@.subrange(
            start as int,
            end - 1,
        ));
        end -= 1;
    }
    assert(trim_end_spec(v@.subrange(start as int, to as int)) =~= v@.subrange(
        start as int,
        end as int,
    ));
    (start, end)
}

/// `str::trim`, as an owned `String`.
pub fn trim(s: &str) -> (r: String)
    ensures
        r@ == trim_spec(s@),
{
    let v = chars_of(s);
    let (a, b) = trim_bounds(&v, 0, v.len());
    assert(v@.subrange(0, v@.len() as int) =~= v@);
    string_of_range(&v, a, b)
}

/// Whether `trim(s)` is empty.
pub fn is_blank_str(s: &str) -> (r: bool)
    ensures
        r == is_blank(s@),
{
    let v = chars_of(s);
    let (a, b) = trim_bounds(&v, 0, v.len());
    assert(v@.subrange(0, v@.len() as int) =~= v@);
    a == b
}

/// Does `v[from..]` start with `p`?
pub fn has_prefix_at(v: &[char], from: usize, p: &[char]) -> (r: bool)
    requires
        from <= v@.len(),
    ensures
        r == has_prefix(v@.skip(from as int), p@),
{
    if p.len() > v.len() - from {
        return false;
    }
    let mut i: usize = 0;
    while i < p.len()
        invariant
            from + p.len() <= v.len(),
            0 <= i <= p.len(),
            forall|j: int| 0 <= j < i ==> v@[from + j] == p@[j],
        decreases p.len() - i,
    {
        if v[from + i] != p[i] {
            assert(v@.skip(from as int).take(p@.len() as int)[i as int] != p@[i as int]);
            return false;
        }
        i += 1;
    }
    assert(v@.skip(from as int).take(p@.len() as int) =~= p@);
    true
}

/// Index of the first `c` in `v[from..to]`, or `to`.
pub fn find_char(v: &[char], from: usize, to: usize, c: char) -> (r: usize)
    requires
        from <= to <= v@.len(),
    ensures
        from <= r <= to,
        index_of(v@.subrange(from as int, to as int), c) == (if r == to {
            None::<nat>
        } else {
            Some((r - from) as nat)
        }),
{
    let mut i = from;
    while i < to && v[i] != c
        invariant
            from <= i <= to <= v@.len(),
            forall|j: int| from <= j < i ==> v@[j] != c,
        decreases to - i,
    {
        i += 1;
    }
    proof {
        let s = v@.subrange(from as int, to as int);
        lemma_index_of_is(s, c, i - from);
    }
    i
}


/// The line that starts at `pos`: where it ends (before its `\n`, and before a
/// `\r` just ahead of that) and where the next line starts.
pub fn line_at(v: &[char], pos: usize) -> (r: (usize, usize))
    requires
        pos < v@.len(),
    ensures
        pos <= r.0 <= r.1 <= v@.len(),
        pos < r.1,
        lines_spec(v@.skip(pos as int)) == seq![v@.subrange(pos as int, r.0 as int)] + lines_spec(
            v@.skip(r.1 as int),
        ),
{
    let n = v.len();
    let ghost rest = v@.skip(pos as int);
    let e = find_char(v, pos, n, '\n');
    assert(v@.subrange(pos as int, n as int) =~= rest);
    if e == n {
        assert(lines_spec(v@.skip(n as int)) == Seq::<Seq<char>>::empty()) by {
            assert(v@.skip(n as int) =~= Seq::<char>::empty());
        }
        assert(lines_spec(rest) == seq![rest]);
        assert(v@.subrange(pos as int, n as int) =~= rest);
        assert(seq![rest] + Seq::<Seq<char>>::empty() =~= seq![rest]);
        (n, n)
    } else {
        let mut line_end = e;
        if e > pos && v[e - 1] == '\r' {
            line_end = e - 1;
        }
        assert(v@.subrange(pos as int, line_end as int) =~= strip_cr(rest.take(e - pos)));
        assert(rest.skip(e - pos + 1) =~= v@.skip(e + 1));
        (line_end, e + 1)
    }
}

/// Bytes `c` takes in UTF-8.
pub open spec fn utf8_width(c: char) -> nat {
    let u = c as u32;
    if u < 0x80 {
        1
    } else if u < 0x800 {
        2
    } else if u < 0x10000 {
        3
    } else {
        4
    }
}

/// How many leading characters of `s` make up exactly its first `n` bytes; `None`
/// when byte `n` falls inside a character or past the end (what `str::get` checks).
pub open spec fn chars_in_bytes(s: Seq<char>, n: nat) -> Option<nat>
    decreases s.len(),
{
    if n == 0 {
        Some(0)
    } else if s.len() == 0 {
        None
    } else if utf8_width(s[0]) <= n {
        match chars_in_bytes(s.drop_first(), (n - utf8_width(s[0])) as nat) {
            Some(k) => Some(k + 1),
            None => None,
        }
    } else {
        None
    }
}

pub open spec fn shift_count(o: Option<nat>, d: nat) -> Option<nat> {
    match o {
        Some(k) => Some(k + d),
        None => None,
    }
}

/// Exec form of `utf8_width` (`char::len_utf8`).
pub fn utf8_width_of(c: char) -> (r: usize)
    ensures
        r == utf8_width(c),
{
    let u = c as u32;
    if u < 0x80 {
        1
    } else if u < 0x800 {
        2
    } else if u < 0x10000 {
        3
    } else {
        4
    }
}

/// `chars_in_bytes(v[from..to], n)`.
pub fn chars_for_bytes(v: &[char], from: usize, to: usize, n: usize) -> (r: Option<usize>)
    requires
        from <= to <= v@.len(),
    ensures
        match chars_in_bytes(v@.subrange(from as int, to as int), n as nat) {
            Some(k) => r == Some(k as usize) && from + k <= to,
            None => r is None,
        },
{
    let ghost full = v@.subrange(from as int, to as int);
    let mut i = from;
    let mut left = n;
    while left > 0
        invariant
            from <= i <= to <= v@.len(),
            full == v@.subrange(from as int, to as int),
            chars_in_bytes(full, n as nat) == shift_count(
                chars_in_bytes(v@.subrange(i as int, to as int), left as nat),
                (i - from) as nat,
            ),
        decreases left,
    {
        if i == to {
            return None;
        }
        let w = utf8_width_of(v[i]);
        if w > left {
            return None;
        }
        assert(v@.subrange(i as int, to as int).drop_first() =~= v@.subrange(i + 1, to as int));
        left = left - w;
        i = i + 1;
    }
    Some(i - from)
}

/// Does `s` start with `p`? (`str::starts_with`)
pub fn str_starts_with(s: &str, p: &str) -> (r: bool)
    ensures
        r == has_prefix(s@, p@),
{
    let v = chars_of(s);
    let w = chars_of(p);
    assert(v@.skip(0) =~= v@);
    has_prefix_at(&v, 0, &w)
}

/// `base` and `name` joined by one `/` (`Path::join` with a relative name on Unix);
/// an empty base gives the name alone.
pub open spec fn join_spec(base: Seq<char>, name: Seq<char>) -> Seq<char> {
    if base.len() == 0 {
        name
    } else if base.last() == '/' {
        base + name
    } else {
        base + seq!['/'] + name
    }
}

/// Exec form of `join_spec`.
pub fn join_path(base: &str, name: &str) -> (r: String)
    ensures
        r@ == join_spec(base@, name@),
{
    let b = chars_of(base);
    let mut out = String::new();
    push_str(&mut out, base);
    if b.len() > 0 && b[b.len() - 1] != '/' {
        push_char(&mut out, '/');
    }
    push_str(&mut out, name);
    assert(Seq::<char>::empty() + base@ =~= base@);
    out
}

/// Last index of `c` in `s`.
pub open spec fn last_index_of(s: Seq<char>, c: char) -> Option<nat>
    decreases s.len(),
{
    if s.len() == 0 {
        None
    } else if s.last() == c {
        Some((s.len() - 1) as nat)
    } else {
        last_index_of(s.drop_last(), c)
    }
}

/// Index of the last `c` in `v`.
pub fn rfind_char(v: &[char], c: char) -> (r: Option<usize>)
    ensures
        r == (match last_index_of(v@, c) {
            Some(i) => Some(i as usize),
            None => None::<usize>,
        }),
        r matches Some(i) ==> i < v@.len() && last_index_of(v@, c) == Some(i as nat),
{
    let mut i = v.len();
    assert(v@.take(v@.len() as int) =~= v@);
    while i > 0
        invariant
            i <= v@.len(),
            last_index_of(v@, c) == last_index_of(v@.take(i as int), c),
        decreases i,
    {
        assert(v@.take(i as int).drop_last() =~= v@.take(i - 1));
        if v[i - 1] == c {
            return Some(i - 1);
        }
        i -= 1;
    }
    None
}

/// `str::trim_end_matches(p)`: every trailing copy of a non-empty `p` removed.
pub open spec fn strip_suffixes(s: Seq<char>, p: Seq<char>) -> Seq<char>
    decreases s.len(),
{
    if p.len() > 0 && has_suffix(s, p) {
        strip_suffixes(s.take(s.len() - p.len()), p)
    } else {
        s
    }
}

/// End of `strip_suffixes(v[a..e], p)`.
pub fn strip_suffixes_in(v: &[char], a: usize, e: usize, p: &[char]) -> (r: usize)
    requires
        a <= e <= v@.len(),
    ensures
        a <= r <= e,
        v@.subrange(a as int, r as int) == strip_suffixes(v@.subrange(a as int, e as int), p@),
{
    if p.len() == 0 {
        return e;
    }
    let mut j = e;
    loop
        invariant
            a <= j <= e <= v@.len(),
            p@.len() > 0,
            strip_suffixes(v@.subrange(a as int, e as int), p@) == strip_suffixes(
                v@.subrange(a as int, j as int),
                p@,
            ),
        decreases j,
    {
        if j - a < p.len() {
            return j;
        }
        let at = j - p.len();
        if !has_prefix_at(v, at, p) {
            assert(v@.skip(at as int).take(p@.len() as int) =~= v@.subrange(a as int, j as int).skip(
                at - a,
            ));
            return j;
        }
        assert(v@.skip(at as int).take(p@.len() as int) =~= v@.subrange(a as int, j as int).skip(
            at - a,
        ));
        assert(v@.subrange(a as int, j as int).take(at - a) =~= v@.subrange(a as int, at as int));
        j = at;
    }
}

/// What `str::to_uppercase` returns for a text (Unicode case mapping).
pub uninterp spec fn unicode_upper(s: Seq<char>) -> Seq<char>;

/// What `str::to_lowercase` returns for a text (Unicode case mapping).
pub uninterp spec fn unicode_lower(s: Seq<char>) -> Seq<char>;

/// `str::to_uppercase`. Claimed: the result is `unicode_upper` of the text, which
/// names std's Unicode mapping without stating it.
#[verifier::external_body]
pub fn to_uppercase(s: &str) -> (r: String)
    ensures
        r@ == unicode_upper(s@),
{
    s.to_uppercase()
}

/// `str::to_lowercase`. Claimed: the result is `unicode_lower` of the text, which
/// names std's Unicode mapping without stating it.
#[verifier::external_body]
pub fn to_lowercase(s: &str) -> (r: String)
    ensures
        r@ == unicode_lower(s@),
{
    s.to_lowercase()
}

// ------------------------------------------------------------ ordering

/// `a` sorts before `b`: character by character (`char` order is code point order),
/// a proper prefix first. This is the order of `String`, whose bytes (UTF-8) sort as
/// the code points do.
pub open spec fn seq_lt(a: Seq<char>, b: Seq<char>) -> bool
    decreases a.len(),
{
    if a.len() == 0 {
        b.len() > 0
    } else if b.len() == 0 {
        false
    } else if a[0] == b[0] {
        seq_lt(a.drop_first(), b.drop_first())
    } else {
        a[0] < b[0]
    }
}

pub proof fn lemma_seq_lt_irreflexive(a: Seq<char>)
    ensures
        !seq_lt(a, a),
    decreases a.len(),
{
    if a.len() > 0 {
        lemma_seq_lt_irreflexive(a.drop_first());
    }
}

pub proof fn lemma_seq_lt_total(a: Seq<char>, b: Seq<char>)
    ensures
        a == b || seq_lt(a, b) || seq_lt(b, a),
        !(seq_lt(a, b) && seq_lt(b, a)),
    decreases a.len(),
{
    if a.len() > 0 && b.len() > 0 {
        lemma_seq_lt_total(a.drop_first(), b.drop_first());
        if a[0] == b[0] && a.drop_first() == b.drop_first() {
            assert(a =~= seq![a[0]] + a.drop_first());
            assert(b =~= seq![b[0]] + b.drop_first());
        }
    } else if a.len() == 0 && b.len() == 0 {
        assert(a =~= b);
    }
}

pub proof fn lemma_seq_lt_transitive(a: Seq<char>, b: Seq<char>, c: Seq<char>)
    requires
        seq_lt(a, b),
        seq_lt(b, c),
    ensures
        seq_lt(a, c),
    decreases a.len(),
{
    if a.len() > 0 && b.len() > 0 && c.len() > 0 {
        if a[0] == b[0] && b[0] == c[0] {
            lemma_seq_lt_transitive(a.drop_first(), b.drop_first(), c.drop_first());
        }
    }
}

/// Every item sorts strictly before the next: sorted, no item twice.
pub open spec fn strictly_sorted(s: Seq<Seq<char>>) -> bool {
    forall|i: int, j: int| 0 <= i < j < s.len() ==> seq_lt(#[trigger] s[i], #[trigger] s[j])
}

pub open spec fn string_views(v: Seq<String>) -> Seq<Seq<char>> {
    v.map_values(|s: String| s@)
}

/// Exec form of `seq_lt`.
pub fn str_lt(a: &str, b: &str) -> (r: bool)
    ensures
        r == seq_lt(a@, b@),
{
    let x = chars_of(a);
    let y = chars_of(b);
    let mut i: usize = 0;
    assert(x@.skip(0) =~= x@);
    assert(y@.skip(0) =~= y@);
    loop
        invariant
            i <= x@.len(),
            i <= y@.len(),
            x@ == a@,
            y@ == b@,
            seq_lt(a@, b@) == seq_lt(x@.skip(i as int), y@.skip(i as int)),
        decreases x@.len() - i,
    {
        if i == x.len() {
            return i < y.len();
        }
        if i == y.len() {
            return false;
        }
        assert(x@.skip(i as int).drop_first() =~= x@.skip(i + 1));
        assert(y@.skip(i as int).drop_first() =~= y@.skip(i + 1));
        if x[i] != y[i] {
            return x[i] < y[i];
        }
        i += 1;
    }
}

/// `s` placed into a strictly sorted list, unless the list holds it already.
pub fn insert_sorted(v: &mut Vec<String>, s: String)
    requires
        strictly_sorted(string_views(old(v)@)),
    ensures
        strictly_sorted(string_views(final(v)@)),
        string_views(final(v)@).to_set() == string_views(old(v)@).to_set().insert(s@),
{
    let ghost old_views = string_views(v@);
    let mut p: usize = 0;
    while p < v.len() && str_lt(v[p].as_str(), s.as_str())
        invariant
            p <= v@.len(),
            string_views(v@) == old_views,
            forall|k: int| 0 <= k < p ==> seq_lt(#[trigger] old_views[k], s@),
        decreases v.len() - p,
    {
        p += 1;
    }
    if p < v.len() && crate::text::str_eq(v[p].as_str(), s.as_str()) {
        assert(old_views.to_set().insert(s@) =~= old_views.to_set()) by {
            assert(old_views[p as int] == s@);
        }
        return;
    }
    let ghost sv = s@;
    proof {
        if p < v@.len() {
            lemma_seq_lt_total(old_views[p as int], sv);
        }
    }
    v.insert(p, s);
    let ghost nv = string_views(v@);
    assert(nv =~= old_views.insert(p as int, sv));
    assert forall|i: int, j: int| 0 <= i < j < nv.len() implies seq_lt(
        #[trigger] nv[i],
        #[trigger] nv[j],
    ) by {
        if j < p {
        } else if j == p {
            assert(nv[i] == old_views[i]);
        } else if i < p {
            assert(nv[j] == old_views[j - 1]);
            assert(seq_lt(old_views[i], sv));
            assert(seq_lt(sv, old_views[p as int]));
            if j - 1 > p {
                assert(seq_lt(old_views[p as int], old_views[j - 1]));
                lemma_seq_lt_transitive(sv, old_views[p as int], old_views[j - 1]);
            }
            lemma_seq_lt_transitive(old_views[i], sv, old_views[j - 1]);
        } else if i == p {
            assert(nv[j] == old_views[j - 1]);
            if j - 1 > p {
                lemma_seq_lt_transitive(sv, old_views[p as int], old_views[j - 1]);
            }
        } else {
            assert(nv[i] == old_views[i - 1]);
            assert(nv[j] == old_views[j - 1]);
        }
    }
    assert(nv.to_set() =~= old_views.to_set().insert(sv)) by {
        assert forall|x: Seq<char>| nv.to_set().contains(x) implies old_views.to_set().insert(
            sv,
        ).contains(x) by {
            let i = choose|i: int| 0 <= i < nv.len() && nv[i] == x;
            if i < p {
                assert(old_views[i] == x);
            } else if i > p {
                assert(old_views[i - 1] == x);
            }
        }
        assert forall|x: Seq<char>| old_views.to_set().insert(sv).contains(x) implies nv.to_set().contains(
            x,
        ) by {
            if x == sv {
                assert(nv[p as int] == sv);
            } else {
                let i = choose|i: int| 0 <= i < old_views.len() && old_views[i] == x;
                if i < p {
                    assert(nv[i] == x);
                } else {
                    assert(nv[i + 1] == x);
                }
            }
        }
    }
}

/// The texts sorted, each once (`sort` then `dedup`).
pub fn sorted_unique(items: Vec<String>) -> (r: Vec<String>)
    ensures
        strictly_sorted(string_views(r@)),
        string_views(r@).to_set() == string_views(items@).to_set(),
{
    let ghost iv = string_views(items@);
    let mut out: Vec<String> = Vec::new();
    let mut i: usize = 0;
    let n = items.len();
    assert(string_views(out@).to_set() =~= iv.take(0).to_set());
    while i < n
        invariant
            i <= n == iv.len(),
            items@.len() == n,
            string_views(items@) == iv,
            strictly_sorted(string_views(out@)),
            string_views(out@).to_set() == iv.take(i as int).to_set(),
        decreases n - i,
    {
        let s = items[i].clone();
        assert(s@ == iv[i as int]);
        insert_sorted(&mut out, s);
        assert(iv.take(i + 1) =~= iv.take(i as int).push(iv[i as int]));
        proof {
            iv.take(i as int).lemma_push_to_set_commute(iv[i as int]);
        }
        i += 1;
    }
    assert(iv.take(n as int) =~= iv);
    out
}

/// Where `x` goes in sorted texts: after every text that does not sort after it.
pub open spec fn str_insert_pos(sorted: Seq<Seq<char>>, x: Seq<char>) -> nat
    decreases sorted.len(),
{
    if sorted.len() == 0 {
        0
    } else if seq_lt(x, sorted[0]) {
        0
    } else {
        1 + str_insert_pos(sorted.drop_first(), x)
    }
}

/// The texts in `String` order (`sort`), equal texts kept.
pub open spec fn sorted_strings(s: Seq<Seq<char>>) -> Seq<Seq<char>>
    decreases s.len(),
{
    if s.len() == 0 {
        Seq::empty()
    } else {
        let t = sorted_strings(s.drop_last());
        t.insert(str_insert_pos(t, s.last()) as int, s.last())
    }
}

/// No text sorts before one ahead of it.
pub open spec fn in_order(s: Seq<Seq<char>>) -> bool {
    forall|i: int, j: int| 0 <= i < j < s.len() ==> !seq_lt(#[trigger] s[j], #[trigger] s[i])
}

proof fn lemma_str_insert_pos(t: Seq<Seq<char>>, x: Seq<char>)
    requires
        in_order(t),
    ensures
        str_insert_pos(t, x) <= t.len(),
        forall|j: int| 0 <= j < str_insert_pos(t, x) ==> !seq_lt(x, #[trigger] t[j]),
        forall|j: int| str_insert_pos(t, x) <= j < t.len() ==> seq_lt(x, #[trigger] t[j]),
    decreases t.len(),
{
    if t.len() > 0 {
        let d = t.drop_first();
        assert forall|i: int, j: int| 0 <= i < j < d.len() implies !seq_lt(
            #[trigger] d[j],
            #[trigger] d[i],
        ) by {
            assert(d[i] == t[i + 1]);
            assert(d[j] == t[j + 1]);
        }
        lemma_str_insert_pos(d, x);
        if seq_lt(x, t[0]) {
            assert forall|j: int| 0 <= j < t.len() implies seq_lt(x, #[trigger] t[j]) by {
                if j > 0 {
                    lemma_seq_lt_total(t[0], t[j]);
                    if seq_lt(t[0], t[j]) {
                        lemma_seq_lt_transitive(x, t[0], t[j]);
                    }
                }
            }
        } else {
            assert forall|j: int| 0 <= j < str_insert_pos(t, x) implies !seq_lt(x, #[trigger] t[j]) by {
                if j > 0 {
                    assert(t[j] == d[j - 1]);
                }
            }
            assert forall|j: int| str_insert_pos(t, x) <= j < t.len() implies seq_lt(
                x,
                #[trigger] t[j],
            ) by {
                assert(t[j] == d[j - 1]);
            }
        }
    }
}

/// Sorted texts are in order, and are the same texts, each as often.
pub proof fn law_sorted_strings(s: Seq<Seq<char>>)
    ensures
        in_order(sorted_strings(s)),
        sorted_strings(s).to_multiset() == s.to_multiset(),
    decreases s.len(),
{
    broadcast use vstd::seq_lib::to_multiset_insert, vstd::seq_lib::to_multiset_build;

    if s.len() > 0 {
        law_sorted_strings(s.drop_last());
        let t = sorted_strings(s.drop_last());
        let x = s.last();
        let p = str_insert_pos(t, x);
        lemma_str_insert_pos(t, x);
        let r = t.insert(p as int, x);
        assert(r == sorted_strings(s));
        assert forall|i: int, j: int| 0 <= i < j < r.len() implies !seq_lt(
            #[trigger] r[j],
            #[trigger] r[i],
        ) by {
            if j < p {
                assert(r[i] == t[i] && r[j] == t[j]);
            } else if j == p {
                assert(r[i] == t[i]);
                assert(!seq_lt(x, t[i]));
            } else if i < p {
                assert(r[i] == t[i] && r[j] == t[j - 1]);
                assert(!seq_lt(x, t[i]));
                assert(seq_lt(x, t[j - 1]));
                lemma_seq_lt_total(x, t[i]);
                if seq_lt(t[j - 1], t[i]) {
                    if t[i] == x {
                        lemma_seq_lt_total(x, t[j - 1]);
                    } else {
                        lemma_seq_lt_transitive(t[i], x, t[j - 1]);
                        lemma_seq_lt_total(t[i], t[j - 1]);
                    }
                }
            } else if i == p {
                assert(r[j] == t[j - 1]);
                assert(seq_lt(x, t[j - 1]));
                lemma_seq_lt_total(x, t[j - 1]);
            } else {
                assert(r[i] == t[i - 1] && r[j] == t[j - 1]);
            }
        }
        assert(s =~= s.drop_last().push(x));
        assert(r.to_multiset() == t.to_multiset().insert(x));
        assert(s.drop_last().push(x).to_multiset() == s.drop_last().to_multiset().insert(x));
    } else {
        assert(s =~= Seq::<Seq<char>>::empty());
    }
}

/// `insert_pos` over the texts after the first `p`, when none of those `p` sorts after `x`.
proof fn lemma_str_insert_pos_skip(s: Seq<Seq<char>>, x: Seq<char>, p: int)
    requires
        0 <= p <= s.len(),
        forall|j: int| 0 <= j < p ==> !seq_lt(x, #[trigger] s[j]),
    ensures
        str_insert_pos(s, x) == p + str_insert_pos(s.skip(p), x),
    decreases p,
{
    if p > 0 {
        lemma_str_insert_pos_skip(s.drop_first(), x, p - 1);
        assert(s.drop_first().skip(p - 1) =~= s.skip(p));
    } else {
        assert(s.skip(0) =~= s);
    }
}

/// The texts in `String` order (`sort`).
pub fn sort_strings(v: &Vec<String>) -> (r: Vec<String>)
    ensures
        string_views(r@) == sorted_strings(string_views(v@)),
{
    let ghost all = string_views(v@);
    let mut out: Vec<String> = Vec::new();
    let mut i: usize = 0;
    while i < v.len()
        invariant
            i <= v@.len(),
            all == string_views(v@),
            string_views(out@) == sorted_strings(all.take(i as int)),
        decreases v.len() - i,
    {
        let x = v[i].as_str();
        let ghost sorted = string_views(out@);
        let mut p: usize = 0;
        loop
            invariant
                p <= out@.len(),
                sorted == string_views(out@),
                forall|j: int| 0 <= j < p ==> !seq_lt(x@, #[trigger] sorted[j]),
            ensures
                p <= out@.len(),
                sorted == string_views(out@),
                forall|j: int| 0 <= j < p ==> !seq_lt(x@, #[trigger] sorted[j]),
                p == out@.len() || seq_lt(x@, sorted[p as int]),
            decreases out.len() - p,
        {
            if p == out.len() {
                break;
            }
            assert(sorted[p as int] == out@[p as int]@);
            if str_lt(x, out[p].as_str()) {
                break;
            }
            p += 1;
        }
        proof {
            lemma_str_insert_pos_skip(sorted, x@, p as int);
            if p < sorted.len() {
                assert(sorted.skip(p as int)[0] == sorted[p as int]);
            }
            let t = all.take(i + 1);
            assert(t.drop_last() =~= all.take(i as int));
            assert(t.last() == all[i as int]);
        }
        let ghost xv = x@;
        out.insert(p, copy_string(&v[i]));
        assert(string_views(out@) =~= sorted.insert(p as int, xv));
        i += 1;
    }
    assert(all.take(i as int) =~= all);
    out
}

/// The digit for `d` (`0-9`, then lowercase `a-f`).
pub open spec fn digit_char(d: nat) -> char {
    if d < 10 {
        (('0' as u32) + d) as char
    } else {
        (('a' as u32) + (d - 10)) as char
    }
}

/// Decimal rendering of `n`, without leading zeros.
pub open spec fn dec_spec(n: nat) -> Seq<char>
    decreases n,
{
    if n < 10 {
        seq![digit_char(n)]
    } else {
        dec_spec(n / 10).push(digit_char(n % 10))
    }
}

/// Lowercase hexadecimal rendering of `n`, without leading zeros (`{:x}`).
pub open spec fn hex_spec(n: nat) -> Seq<char>
    decreases n,
{
    if n < 16 {
        seq![digit_char(n)]
    } else {
        hex_spec(n / 16).push(digit_char(n % 16))
    }
}

/// `s` left-padded with `'0'` to at least `width` characters (`{:0width$}`).
pub open spec fn zero_pad(s: Seq<char>, width: nat) -> Seq<char> {
    if s.len() >= width {
        s
    } else {
        Seq::new((width - s.len()) as nat, |i: int| '0') + s
    }
}

pub fn hex_digit(d: u64) -> (c: char)
    requires
        d < 16,
    ensures
        c == digit_char(d as nat),
{
    if d < 10 {
        let u: u8 = 0x30u8 + (d as u8);
        (u as char)
    } else {
        let u: u8 = 0x61u8 + (d as u8 - 10);
        (u as char)
    }
}

/// Appends the decimal rendering of `n`.
pub fn push_decimal(out: &mut String, n: u64)
    ensures
        final(out)@ == old(out)@ + dec_spec(n as nat),
    decreases n,
{
    if n < 10 {
        push_char(out, hex_digit(n));
    } else {
        push_decimal(out, n / 10);
        push_char(out, hex_digit(n % 10));
    }
}

/// Appends the lowercase hexadecimal rendering of `n`.
pub fn push_hex(out: &mut String, n: u64)
    ensures
        final(out)@ == old(out)@ + hex_spec(n as nat),
    decreases n,
{
    if n < 16 {
        push_char(out, hex_digit(n));
    } else {
        push_hex(out, n / 16);
        push_char(out, hex_digit(n % 16));
    }
}

pub proof fn lemma_dec_len(n: nat)
    ensures
        dec_spec(n).len() >= 1,
        n < 10 ==> dec_spec(n).len() == 1,
        10 <= n < 100 ==> dec_spec(n).len() == 2,
        100 <= n ==> dec_spec(n).len() >= 3,
    decreases n,
{
    if n >= 10 {
        lemma_dec_len(n / 10);
    }
}

/// Appends `n` in decimal, zero-padded to at least three digits (`{:03}`).
pub fn push_decimal_pad3(out: &mut String, n: u64)
    ensures
        final(out)@ == old(out)@ + zero_pad(dec_spec(n as nat), 3),
{
    proof {
        lemma_dec_len(n as nat);
    }
    let ghost before = out@;
    if n < 10 {
        push_char(out, '0');
        push_char(out, '0');
    } else if n < 100 {
        push_char(out, '0');
    }
    push_decimal(out, n);
    assert(out@ =~= before + zero_pad(dec_spec(n as nat), 3));
}

/// `c` lowered if it is an ASCII capital.
pub open spec fn ascii_lower(c: char) -> char {
    if 'A' <= c && c <= 'Z' {
        ((c as u32) + 32) as char
    } else {
        c
    }
}

/// `str::to_ascii_lowercase`.
pub open spec fn ascii_lower_seq(s: Seq<char>) -> Seq<char> {
    s.map_values(|c: char| ascii_lower(c))
}

pub fn to_ascii_lower_char(c: char) -> (r: char)
    ensures
        r == ascii_lower(c),
{
    if 'A' <= c && c <= 'Z' {
        let u: u8 = (c as u8) + 32;
        (u as char)
    } else {
        c
    }
}

/// `str::to_ascii_lowercase`, as characters.
pub fn ascii_lowercase(s: &str) -> (r: Vec<char>)
    ensures
        r@ == ascii_lower_seq(s@),
{
    let v = chars_of(s);
    let mut out: Vec<char> = Vec::new();
    let mut i: usize = 0;
    while i < v.len()
        invariant
            i <= v@.len(),
            v@ == s@,
            out@ == ascii_lower_seq(v@.take(i as int)),
        decreases v.len() - i,
    {
        out.push(to_ascii_lower_char(v[i]));
        i += 1;
        assert(out@ =~= ascii_lower_seq(v@.take(i as int)));
    }
    assert(v@.take(v@.len() as int) =~= v@);
    out
}

pub proof fn lemma_occurs_at(s: Seq<char>, p: Seq<char>, i: int)
    requires
        0 <= i <= s.len(),
    ensures
        has_prefix(s.skip(i), p) <==> (i + p.len() <= s.len() && s.subrange(i, i + p.len())
            == p),
{
    if i + p.len() <= s.len() {
        assert(s.skip(i).take(p.len() as int) =~= s.subrange(i, i + p.len()));
    }
}

/// Does `p` occur anywhere in `v`?
pub fn contains_seq(v: &[char], p: &[char]) -> (r: bool)
    ensures
        r == occurs_in(v@, p@),
{
    if p.len() > v.len() {
        assert(!occurs_in(v@, p@));
        return false;
    }
    if p.len() == 0 {
        assert(v@.subrange(0int, 0int + p@.len()) =~= p@);
        return true;
    }
    let mut i: usize = 0;
    let last = v.len() - p.len();
    while i <= last
        invariant
            1 <= p@.len() <= v@.len(),
            last == v@.len() - p@.len(),
            last < usize::MAX,
            i <= last + 1,
            forall|j: int| 0 <= j < i ==> #[trigger] v@.subrange(j, j + p@.len()) != p@,
        decreases last + 1 - i,
    {
        if has_prefix_at(v, i, p) {
            proof {
                lemma_occurs_at(v@, p@, i as int);
            }
            return true;
        }
        proof {
            lemma_occurs_at(v@, p@, i as int);
        }
        i += 1;
    }
    assert(!occurs_in(v@, p@)) by {
        if occurs_in(v@, p@) {
            let j = choose|j: int|
                0 <= j && j + p@.len() <= v@.len() && #[trigger] v@.subrange(j, j + p@.len())
                    == p@;
            assert(j < i);
        }
    }
    false
}

/// Does `p` occur in `s`? (`str::contains`)
pub fn str_contains(s: &str, p: &str) -> (r: bool)
    ensures
        r == occurs_in(s@, p@),
{
    let v = chars_of(s);
    let w = chars_of(p);
    contains_seq(&v, &w)
}

/// Are the two texts equal?
pub fn seq_equal(a: &[char], b: &[char]) -> (r: bool)
    ensures
        r == (a@ == b@),
{
    if a.len() != b.len() {
        return false;
    }
    let mut i: usize = 0;
    while i < a.len()
        invariant
            a@.len() == b@.len(),
            i <= a@.len(),
            forall|j: int| 0 <= j < i ==> a@[j] == b@[j],
        decreases a.len() - i,
    {
        if a[i] != b[i] {
            return false;
        }
        i += 1;
    }
    assert(a@ =~= b@);
    true
}

/// Are the two strings equal?
pub fn str_eq(a: &str, b: &str) -> (r: bool)
    ensures
        r == (a@ == b@),
{
    let x = chars_of(a);
    let y = chars_of(b);
    seq_equal(&x, &y)
}

/// A copy of `s`.
pub fn copy_string(s: &String) -> (r: String)
    ensures
        r@ == s@,
{
    s.clone()
}
/// Number of leading `c`.
pub open spec fn lead_count(s: Seq<char>, c: char) -> nat
    decreases s.len(),
{
    if s.len() > 0 && s[0] == c {
        1 + lead_count(s.drop_first(), c)
    } else {
        0
    }
}

/// Number of trailing `c`.
pub open spec fn trail_count(s: Seq<char>, c: char) -> nat
    decreases s.len(),
{
    if s.len() > 0 && s.last() == c {
        1 + trail_count(s.drop_last(), c)
    } else {
        0
    }
}

pub proof fn lemma_lead_count_bound(s: Seq<char>, c: char)
    ensures
        lead_count(s, c) <= s.len(),
    decreases s.len(),
{
    if s.len() > 0 && s[0] == c {
        lemma_lead_count_bound(s.drop_first(), c);
    }
}

pub proof fn lemma_trail_count_bound(s: Seq<char>, c: char)
    ensures
        trail_count(s, c) <= s.len(),
    decreases s.len(),
{
    if s.len() > 0 && s.last() == c {
        lemma_trail_count_bound(s.drop_last(), c);
    }
}

} // verus!
