//! ANSI escape stripping for text the CLI writes to a terminal.
use vstd::prelude::*;
use crate::text::{chars_of, push_char};

verus! {

pub open spec fn esc() -> char {
    '\u{1b}'
}

/// A CSI sequence ends at its first byte in `@..~`.
pub open spec fn is_csi_final(c: char) -> bool {
    0x40 <= (c as u32) && (c as u32) <= 0x7e
}

/// Offset of the byte that ends a CSI body.
pub open spec fn csi_end(s: Seq<char>) -> Option<nat>
    decreases s.len(),
{
    if s.len() == 0 {
        None
    } else if is_csi_final(s[0]) {
        Some(0)
    } else {
        match csi_end(s.drop_first()) {
            Some(k) => Some(k + 1),
            None => None,
        }
    }
}

/// Offset of the byte that ends an OSC body: a BEL, or the `\` of an `ESC \` inside it.
pub open spec fn osc_end(s: Seq<char>, prev_esc: bool) -> Option<nat>
    decreases s.len(),
{
    if s.len() == 0 {
        None
    } else if s[0] == '\u{7}' || (prev_esc && s[0] == '\\') {
        Some(0)
    } else {
        match osc_end(s.drop_first(), s[0] == esc()) {
            Some(k) => Some(k + 1),
            None => None,
        }
    }
}

/// The text with every escape sequence removed: CSI (`ESC [` .. final byte), OSC
/// (`ESC ]` .. BEL or `ESC \`), and two-character escapes. An unterminated sequence
/// swallows the rest of the text.
pub open spec fn strip_ansi_spec(s: Seq<char>) -> Seq<char>
    decreases s.len(),
{
    if s.len() == 0 {
        Seq::empty()
    } else if s[0] != esc() {
        seq![s[0]] + strip_ansi_spec(s.drop_first())
    } else if s.len() == 1 {
        Seq::empty()
    } else if s[1] == '[' {
        match csi_end(s.skip(2)) {
            Some(k) => {
                proof {
                    lemma_csi_end_bound(s.skip(2));
                }
                strip_ansi_spec(s.skip(2).skip(k + 1 as int))
            },
            None => Seq::empty(),
        }
    } else if s[1] == ']' {
        match osc_end(s.skip(2), false) {
            Some(k) => {
                proof {
                    lemma_osc_end_bound(s.skip(2), false);
                }
                strip_ansi_spec(s.skip(2).skip(k + 1 as int))
            },
            None => Seq::empty(),
        }
    } else {
        strip_ansi_spec(s.skip(2))
    }
}

pub proof fn lemma_csi_end_bound(s: Seq<char>)
    ensures
        csi_end(s) matches Some(k) ==> k < s.len(),
    decreases s.len(),
{
    if s.len() > 0 {
        lemma_csi_end_bound(s.drop_first());
    }
}

pub proof fn lemma_osc_end_bound(s: Seq<char>, prev_esc: bool)
    ensures
        osc_end(s, prev_esc) matches Some(k) ==> k < s.len(),
    decreases s.len(),
{
    if s.len() > 0 {
        lemma_osc_end_bound(s.drop_first(), s[0] == esc());
    }
}

/// Scanning from `i` with nothing final seen so far gives `csi_end` relative to `from`.
proof fn lemma_csi_step(v: Seq<char>, from: int, i: int)
    requires
        0 <= from <= i < v.len(),
        !is_csi_final(v[i]),
    ensures
        csi_end(v.skip(i)) == (match csi_end(v.skip(i + 1)) {
            Some(k) => Some(k + 1),
            None => None::<nat>,
        }),
{
    assert(v.skip(i).drop_first() =~= v.skip(i + 1));
}

proof fn lemma_osc_step(v: Seq<char>, i: int, prev: bool)
    requires
        0 <= i < v.len(),
        !(v[i] == '\u{7}' || (prev && v[i] == '\\')),
    ensures
        osc_end(v.skip(i), prev) == (match osc_end(v.skip(i + 1), v[i] == esc()) {
            Some(k) => Some(k + 1),
            None => None::<nat>,
        }),
{
    assert(v.skip(i).drop_first() =~= v.skip(i + 1));
}

/// Strip ANSI escape sequences so the webview renders plain text.
/// Handles CSI (`ESC [ ... final-byte`) and OSC (`ESC ] ... BEL | ESC \`).
pub fn strip_ansi(input: &str) -> (r: String)
    ensures
        r@ == strip_ansi_spec(input@),
{
    let v = chars_of(input);
    let n = v.len();
    let mut out = String::new();
    let mut i: usize = 0;
    assert(v@.skip(0) =~= v@);
    while i < n
        invariant
            n == v@.len(),
            i <= n,
            out@ + strip_ansi_spec(v@.skip(i as int)) == strip_ansi_spec(input@),
            v@ == input@,
        decreases n - i,
    {
        let ghost rest = v@.skip(i as int);
        let c = v[i];
        if c != '\u{1b}' {
            push_char(&mut out, c);
            assert(rest.drop_first() =~= v@.skip(i + 1));
            assert(out@ + strip_ansi_spec(v@.skip(i + 1)) =~= strip_ansi_spec(input@));
            i += 1;
        } else if i + 1 == n {
            i = n;
            assert(v@.skip(n as int).len() == 0);
        } else if v[i + 1] == '[' {
            let mut j = i + 2;
            assert(rest.skip(2) =~= v@.skip(j as int));
            while j < n && !(0x40 <= (v[j] as u32) && (v[j] as u32) <= 0x7e)
                invariant
                    i + 2 <= j <= n,
                    n == v@.len(),
                    rest == v@.skip(i as int),
                    csi_end(rest.skip(2)) == (match csi_end(v@.skip(j as int)) {
                        Some(k) => Some((k + (j - i - 2)) as nat),
                        None => None::<nat>,
                    }),
                decreases n - j,
            {
                proof {
                    lemma_csi_step(v@, i as int, j as int);
                }
                j += 1;
            }
            if j == n {
                assert(v@.skip(j as int).len() == 0);
                i = n;
                assert(v@.skip(n as int).len() == 0);
            } else {
                assert(csi_end(v@.skip(j as int)) == Some(0nat));
                assert(rest.skip(2).skip((j - i - 2) + 1) =~= v@.skip(j + 1));
                i = j + 1;
            }
        } else if v[i + 1] == ']' {
            let mut j = i + 2;
            let mut prev = false;
            assert(rest.skip(2) =~= v@.skip(j as int));
            while j < n && !(v[j] == '\u{7}' || (prev && v[j] == '\\'))
                invariant
                    i + 2 <= j <= n,
                    n == v@.len(),
                    rest == v@.skip(i as int),
                    osc_end(rest.skip(2), false) == (match osc_end(v@.skip(j as int), prev) {
                        Some(k) => Some((k + (j - i - 2)) as nat),
                        None => None::<nat>,
                    }),
                decreases n - j,
            {
                proof {
                    lemma_osc_step(v@, j as int, prev);
                }
                prev = v[j] == '\u{1b}';
                j += 1;
            }
            if j == n {
                assert(v@.skip(j as int).len() == 0);
                i = n;
                assert(v@.skip(n as int).len() == 0);
            } else {
                assert(osc_end(v@.skip(j as int), prev) == Some(0nat));
                assert(rest.skip(2).skip((j - i - 2) + 1) =~= v@.skip(j + 1));
                i = j + 1;
            }
        } else {
            assert(rest.skip(2) =~= v@.skip(i + 2));
            i = i + 2;
        }
    }
    assert(strip_ansi_spec(v@.skip(n as int)) =~= Seq::<char>::empty());
    assert(out@ =~= out@ + Seq::<char>::empty());
    out
}


/// No escape character survives stripping.
pub proof fn law_stripped_text_has_no_escape(s: Seq<char>)
    ensures
        forall|i: int| 0 <= i < strip_ansi_spec(s).len() ==> #[trigger] strip_ansi_spec(s)[i] != esc(),
    decreases s.len(),
{
    if s.len() > 0 {
        if s[0] != esc() {
            law_stripped_text_has_no_escape(s.drop_first());
            let r = strip_ansi_spec(s);
            assert forall|i: int| 0 <= i < r.len() implies #[trigger] r[i] != esc() by {
                if i > 0 {
                    assert(r[i] == strip_ansi_spec(s.drop_first())[i - 1]);
                }
            }
        } else if s.len() > 1 {
            if s[1] == '[' {
                lemma_csi_end_bound(s.skip(2));
                if let Some(k) = csi_end(s.skip(2)) {
                    law_stripped_text_has_no_escape(s.skip(2).skip(k + 1 as int));
                    assert(strip_ansi_spec(s) == strip_ansi_spec(s.skip(2).skip(k + 1 as int)));
                } else {
                    assert(strip_ansi_spec(s).len() == 0);
                }
            } else if s[1] == ']' {
                lemma_osc_end_bound(s.skip(2), false);
                if let Some(k) = osc_end(s.skip(2), false) {
                    law_stripped_text_has_no_escape(s.skip(2).skip(k + 1 as int));
                    assert(strip_ansi_spec(s) == strip_ansi_spec(s.skip(2).skip(k + 1 as int)));
                } else {
                    assert(strip_ansi_spec(s).len() == 0);
                }
            } else {
                law_stripped_text_has_no_escape(s.skip(2));
                assert(strip_ansi_spec(s) == strip_ansi_spec(s.skip(2)));
            }
        }
    }
}

/// Text without escape characters comes through untouched.
pub proof fn law_plain_text_is_untouched(s: Seq<char>)
    requires
        forall|i: int| 0 <= i < s.len() ==> #[trigger] s[i] != esc(),
    ensures
        strip_ansi_spec(s) == s,
    decreases s.len(),
{
    if s.len() > 0 {
        assert forall|i: int| 0 <= i < s.drop_first().len() implies #[trigger] s.drop_first()[i] != esc() by {
            assert(s.drop_first()[i] == s[i + 1]);
        }
        law_plain_text_is_untouched(s.drop_first());
        assert(s =~= seq![s[0]] + s.drop_first());
    }
}

/// Stripping twice is stripping once.
pub proof fn law_strip_is_idempotent(s: Seq<char>)
    ensures
        strip_ansi_spec(strip_ansi_spec(s)) == strip_ansi_spec(s),
{
    law_stripped_text_has_no_escape(s);
    law_plain_text_is_untouched(strip_ansi_spec(s));
}

/// `idx` places each character of `a` at a position of `b` holding the same
/// character, the positions strictly increasing.
pub open spec fn embeds(a: Seq<char>, b: Seq<char>, idx: Seq<int>) -> bool {
    &&& idx.len() == a.len()
    &&& forall|i: int| 0 <= i < a.len() ==> 0 <= #[trigger] idx[i] < b.len() && b[idx[i]] == a[i]
    &&& forall|i: int, j: int| 0 <= i < j < a.len() ==> #[trigger] idx[i] < #[trigger] idx[j]
}

/// `a` is `b` with some characters left out, the rest kept in their order.
pub open spec fn is_subsequence(a: Seq<char>, b: Seq<char>) -> bool {
    exists|idx: Seq<int>| embeds(a, b, idx)
}

/// An embedding into the text after its first `m` characters is one into the text.
proof fn lemma_embed_shift(a: Seq<char>, b: Seq<char>, m: int, idx: Seq<int>) -> (out: Seq<int>)
    requires
        0 <= m <= b.len(),
        embeds(a, b.skip(m), idx),
    ensures
        embeds(a, b, out),
        forall|i: int| 0 <= i < a.len() ==> #[trigger] out[i] >= m,
{
    let out = idx.map_values(|k: int| k + m);
    assert forall|i: int| 0 <= i < a.len() implies 0 <= #[trigger] out[i] < b.len() && b[out[i]] == a[i] by {
        assert(b.skip(m)[idx[i]] == b[idx[i] + m]);
    }
    assert forall|i: int, j: int| 0 <= i < j < a.len() implies #[trigger] out[i] < #[trigger] out[j] by {
        assert(idx[i] < idx[j]);
    }
    out
}

/// The positions in `s` of the characters that stripping keeps.
proof fn strip_embedding(s: Seq<char>) -> (idx: Seq<int>)
    ensures
        embeds(strip_ansi_spec(s), s, idx),
    decreases s.len(),
{
    let r = strip_ansi_spec(s);
    if s.len() == 0 {
        Seq::empty()
    } else if s[0] != esc() {
        let rest = strip_embedding(s.drop_first());
        assert(s.drop_first() =~= s.skip(1));
        let shifted = lemma_embed_shift(strip_ansi_spec(s.drop_first()), s, 1, rest);
        let idx = seq![0int] + shifted;
        let t = strip_ansi_spec(s.drop_first());
        assert(r == seq![s[0]] + t);
        assert forall|i: int| 0 <= i < r.len() implies 0 <= #[trigger] idx[i] < s.len() && s[idx[i]] == r[i] by {
            if i > 0 {
                assert(idx[i] == shifted[i - 1]);
                assert(r[i] == t[i - 1]);
            }
        }
        assert forall|i: int, j: int| 0 <= i < j < r.len() implies #[trigger] idx[i] < #[trigger] idx[j] by {
            assert(idx[j] == shifted[j - 1]);
            if i > 0 {
                assert(idx[i] == shifted[i - 1]);
            } else {
                assert(shifted[j - 1] >= 1);
            }
        }
        idx
    } else if s.len() == 1 {
        Seq::empty()
    } else if s[1] == '[' {
        lemma_csi_end_bound(s.skip(2));
        match csi_end(s.skip(2)) {
            Some(k) => {
                let m: int = k as int + 3;
                assert(s.skip(2).skip(k + 1 as int) =~= s.skip(m));
                let rest = strip_embedding(s.skip(m));
                lemma_embed_shift(r, s, m, rest)
            },
            None => Seq::empty(),
        }
    } else if s[1] == ']' {
        lemma_osc_end_bound(s.skip(2), false);
        match osc_end(s.skip(2), false) {
            Some(k) => {
                let m: int = k as int + 3;
                assert(s.skip(2).skip(k + 1 as int) =~= s.skip(m));
                let rest = strip_embedding(s.skip(m));
                lemma_embed_shift(r, s, m, rest)
            },
            None => Seq::empty(),
        }
    } else {
        let rest = strip_embedding(s.skip(2));
        lemma_embed_shift(r, s, 2, rest)
    }
}

/// Stripping only removes characters: what is left is the text with some characters
/// left out, none added and none reordered.
pub proof fn law_strip_only_removes(s: Seq<char>)
    ensures
        is_subsequence(strip_ansi_spec(s), s),
{
    let idx = strip_embedding(s);
    assert(embeds(strip_ansi_spec(s), s, idx));
}

} // verus!
