//! Self-audit surface — the "floor" half of containment + receipts.
//!
//! The packaged CSP and capability allowlist, read as a runtime receipt: what the
//! app is actually constrained by, and whether that floor is intact. The caller
//! hands over the two shipped config files as parsed JSON.
use vstd::prelude::*;
use crate::json::{
    as_array_spec, as_str_spec, members_view, obj_get, push_member, seq_view, Json, JsonView,
};
use crate::text::{chars_of, find_char, occurs_in, push_str, split_spec, str_contains, str_eq, string_of_range, string_views, trim_bounds, trim_spec};

verus! {

broadcast use vstd::string::group_string_axioms;

/// Directives whose absence means the floor has been lowered.
pub open spec fn required_hardening_spec() -> Seq<Seq<char>> {
    seq!["object-src 'none'"@, "base-uri 'none'"@, "form-action 'none'"@, "frame-ancestors 'none'"@]
}

pub fn required_hardening() -> (r: Vec<&'static str>)
    ensures
        r@.map_values(|s: &str| s@) == required_hardening_spec(),
{
    let mut v: Vec<&'static str> = Vec::new();
    v.push("object-src 'none'");
    v.push("base-uri 'none'");
    v.push("form-action 'none'");
    v.push("frame-ancestors 'none'");
    assert(v@.map_values(|s: &str| s@) =~= required_hardening_spec());
    v
}

/// `app.security.csp` of the packaged config, when it is a string.
pub open spec fn csp_of_spec(conf: JsonView) -> Seq<char> {
    let security = match obj_get(conf, "app"@) {
        Some(a) => obj_get(a, "security"@),
        None => None,
    };
    let csp = match security {
        Some(s) => obj_get(s, "csp"@),
        None => None,
    };
    match csp {
        Some(c) => match as_str_spec(c) {
            Some(t) => t,
            None => Seq::empty(),
        },
        None => Seq::empty(),
    }
}

/// The packaged CSP string (empty when the config does not hold one).
pub fn csp_of(conf: &Json) -> (r: String)
    ensures
        r@ == csp_of_spec(conf@),
{
    let security = match conf.get("app") {
        Some(a) => a.get("security"),
        None => None,
    };
    let csp = match security {
        Some(s) => s.get("csp"),
        None => None,
    };
    let mut out = String::new();
    match csp {
        Some(c) => match c.as_str() {
            Some(t) => {
                push_str(&mut out, t);
                assert(Seq::<char>::empty() + t@ =~= t@);
            },
            None => {},
        },
        None => {},
    }
    out
}

/// The trimmed, non-empty pieces of `pieces`, in order.
pub open spec fn nonempty_trimmed(pieces: Seq<Seq<char>>) -> Seq<Seq<char>>
    decreases pieces.len(),
{
    if pieces.len() == 0 {
        Seq::empty()
    } else if trim_spec(pieces[0]).len() == 0 {
        nonempty_trimmed(pieces.drop_first())
    } else {
        seq![trim_spec(pieces[0])] + nonempty_trimmed(pieces.drop_first())
    }
}

/// The CSP's directives: its `;`-separated parts, trimmed, empty ones dropped.
pub open spec fn csp_directives_spec(csp: Seq<char>) -> Seq<Seq<char>> {
    nonempty_trimmed(split_spec(csp, ';'))
}

/// The CSP's directives.
pub fn csp_directives(csp: &str) -> (r: Vec<String>)
    ensures
        string_views(r@) == csp_directives_spec(csp@),
{
    let v = chars_of(csp);
    let n = v.len();
    let mut out: Vec<String> = Vec::new();
    let mut pos: usize = 0;
    assert(v@.skip(0) =~= v@);
    loop
        invariant
            pos <= n == v@.len(),
            v@ == csp@,
            csp_directives_spec(v@) == string_views(out@) + nonempty_trimmed(
                split_spec(v@.skip(pos as int), ';'),
            ),
        decreases n - pos,
    {
        let ghost rest = v@.skip(pos as int);
        let e = find_char(&v, pos, n, ';');
        assert(v@.subrange(pos as int, n as int) =~= rest);
        proof {
            crate::text::lemma_index_of(rest, ';');
            if e < n {
                crate::text::lemma_index_of_is(rest, ';', e - pos);
                assert(rest.take(e - pos) =~= v@.subrange(pos as int, e as int));
                assert(rest.skip(e - pos + 1) =~= v@.skip(e + 1));
            } else {
                crate::text::lemma_index_of_is(rest, ';', rest.len() as int);
            }
        }
        let ghost piece = v@.subrange(pos as int, e as int);
        let ghost pieces = split_spec(rest, ';');
        proof {
            if e < n {
                assert(pieces == seq![piece] + split_spec(v@.skip(e + 1), ';'));
            } else {
                assert(pieces == seq![rest]);
                assert(piece =~= rest);
            }
            assert(pieces[0] == piece);
        }
        let (a, b) = trim_bounds(&v, pos, e);
        let ghost before = string_views(out@);
        if a < b {
            out.push(string_of_range(&v, a, b));
            assert(string_views(out@) =~= before.push(trim_spec(piece)));
        }
        if e == n {
            proof {
                assert(pieces.drop_first() =~= Seq::<Seq<char>>::empty());
                assert(nonempty_trimmed(pieces.drop_first()) == Seq::<Seq<char>>::empty());
                if a < b {
                    assert(before + nonempty_trimmed(pieces) =~= string_views(out@) + Seq::<
                        Seq<char>,
                    >::empty());
                } else {
                    assert(before + nonempty_trimmed(pieces) =~= string_views(out@));
                }
            }
            return out;
        }
        proof {
            assert(pieces.drop_first() =~= split_spec(v@.skip(e + 1), ';'));
            if a < b {
                assert(before + nonempty_trimmed(pieces) =~= string_views(out@) + nonempty_trimmed(
                    split_spec(v@.skip(e + 1), ';'),
                ));
            }
        }
        pos = e + 1;
    }
}

/// The strings of an array field, others skipped (`filter_map(as_str)`); nothing when
/// the field is not an array.
pub open spec fn strings_of(items: Seq<JsonView>) -> Seq<Seq<char>>
    decreases items.len(),
{
    if items.len() == 0 {
        Seq::empty()
    } else {
        let before = strings_of(items.drop_last());
        match as_str_spec(items.last()) {
            Some(s) => before.push(s),
            None => before,
        }
    }
}

pub open spec fn string_list_spec(cap: JsonView, key: Seq<char>) -> Seq<Seq<char>> {
    match obj_get(cap, key) {
        Some(v) => match as_array_spec(v) {
            Some(a) => strings_of(a),
            None => Seq::empty(),
        },
        None => Seq::empty(),
    }
}

/// The strings of the array `key` of the capability file.
pub fn string_list(cap: &Json, key: &str) -> (r: Vec<String>)
    ensures
        string_views(r@) == string_list_spec(cap@, key@),
{
    let mut out: Vec<String> = Vec::new();
    match cap.get(key) {
        Some(v) => match v.as_array() {
            Some(a) => {
                let ghost av = seq_view(a@);
                let mut i: usize = 0;
                while i < a.len()
                    invariant
                        i <= a@.len(),
                        av == seq_view(a@),
                        string_views(out@) == strings_of(av.take(i as int)),
                    decreases a.len() - i,
                {
                    proof {
                        let t = av.take(i + 1);
                        assert(t.drop_last() =~= av.take(i as int));
                        assert(t.last() == a@[i as int]@);
                    }
                    match a[i].as_str() {
                        Some(s) => {
                            let ghost before = string_views(out@);
                            let mut o = String::new();
                            push_str(&mut o, s);
                            assert(Seq::<char>::empty() + s@ =~= s@);
                            out.push(o);
                            assert(string_views(out@) =~= before.push(s@));
                        },
                        None => {},
                    }
                    i += 1;
                }
                assert(av.take(i as int) =~= av);
            },
            None => {},
        },
        None => {},
    }
    out
}

/// The required directives the CSP does not hold, in order.
pub open spec fn missing_spec(csp: Seq<char>, req: Seq<Seq<char>>) -> Seq<Seq<char>>
    decreases req.len(),
{
    if req.len() == 0 {
        Seq::empty()
    } else if occurs_in(csp, req.last()) {
        missing_spec(csp, req.drop_last())
    } else {
        missing_spec(csp, req.drop_last()).push(req.last())
    }
}

/// The permissions that hold a `*`, in order.
pub open spec fn wildcards_spec(perms: Seq<Seq<char>>) -> Seq<Seq<char>>
    decreases perms.len(),
{
    if perms.len() == 0 {
        Seq::empty()
    } else if occurs_in(perms.last(), "*"@) {
        wildcards_spec(perms.drop_last()).push(perms.last())
    } else {
        wildcards_spec(perms.drop_last())
    }
}

/// The floor is intact: every hardening directive present, no wildcard permission,
/// and the capability covers exactly the one window `main`.
pub open spec fn floor_intact_spec(csp: Seq<char>, windows: Seq<Seq<char>>, perms: Seq<Seq<char>>) -> bool {
    missing_spec(csp, required_hardening_spec()).len() == 0 && wildcards_spec(perms).len() == 0
        && windows == seq!["main"@]
}

pub open spec fn verdict_spec(csp: Seq<char>, windows: Seq<Seq<char>>, perms: Seq<Seq<char>>) -> Seq<char> {
    if floor_intact_spec(csp, windows, perms) {
        "floor intact — CSP hardening present, capability surface least-privilege (one window, no wildcards)"@
    } else if missing_spec(csp, required_hardening_spec()).len() > 0 {
        "FLOOR LOWERED — CSP hardening directives missing"@
    } else if wildcards_spec(perms).len() > 0 {
        "FLOOR LOWERED — capability permission uses a wildcard"@
    } else {
        "FLOOR LOWERED — capability windows widened beyond 'main'"@
    }
}

pub open spec fn strs_json(s: Seq<Seq<char>>) -> JsonView {
    JsonView::Array(s.map_values(|x: Seq<char>| JsonView::Str(x)))
}

/// The self-audit payload: the security floor, and a verdict on whether it is intact
/// with what is missing called out.
pub open spec fn self_audit_spec(csp: Seq<char>, windows: Seq<Seq<char>>, perms: Seq<Seq<char>>) -> JsonView {
    JsonView::Object(
        seq![
            (
                "capability"@,
                JsonView::Object(
                    seq![
                        ("permissions"@, strs_json(perms)),
                        ("wildcards"@, strs_json(wildcards_spec(perms))),
                        ("windows"@, strs_json(windows)),
                    ],
                ),
            ),
            ("csp"@, JsonView::Str(csp)),
            ("csp_directives"@, strs_json(csp_directives_spec(csp))),
            ("floor_intact"@, JsonView::Bool(floor_intact_spec(csp, windows, perms))),
            ("missing_hardening"@, strs_json(missing_spec(csp, required_hardening_spec()))),
            ("required_hardening"@, strs_json(required_hardening_spec())),
            ("verdict"@, JsonView::Str(verdict_spec(csp, windows, perms))),
        ],
    )
}

fn strings_json(v: &Vec<String>) -> (r: Json)
    ensures
        r@ == strs_json(string_views(v@)),
{
    let ghost sv = string_views(v@);
    let mut arr: Vec<Json> = Vec::new();
    let mut j: usize = 0;
    while j < v.len()
        invariant
            j <= v@.len(),
            sv == string_views(v@),
            seq_view(arr@) == sv.take(j as int).map_values(|d: Seq<char>| JsonView::Str(d)),
        decreases v.len() - j,
    {
        let ghost before = seq_view(arr@);
        arr.push(Json::from_str(v[j].as_str()));
        assert(seq_view(arr@) =~= before.push(JsonView::Str(sv[j as int])));
        assert(sv.take(j + 1).map_values(|d: Seq<char>| JsonView::Str(d)) =~= sv.take(
            j as int,
        ).map_values(|d: Seq<char>| JsonView::Str(d)).push(JsonView::Str(sv[j as int])));
        j += 1;
    }
    assert(sv.take(j as int) =~= sv);
    Json::array(arr)
}

fn owned(s: &str) -> (r: String)
    ensures
        r@ == s@,
{
    let mut out = String::new();
    push_str(&mut out, s);
    assert(Seq::<char>::empty() + s@ =~= s@);
    out
}

/// The self-audit payload from the packaged CSP and the capability file's window list
/// and permission allowlist.
pub fn self_audit(csp: &str, windows: &Vec<String>, permissions: &Vec<String>) -> (r: Json)
    ensures
        r@ == self_audit_spec(csp@, string_views(windows@), string_views(permissions@)),
{
    let req = required_hardening();
    let ghost rv = req@.map_values(|s: &str| s@);
    let mut missing: Vec<String> = Vec::new();
    let mut i: usize = 0;
    while i < req.len()
        invariant
            i <= req@.len(),
            rv == req@.map_values(|s: &str| s@),
            rv == required_hardening_spec(),
            string_views(missing@) == missing_spec(csp@, rv.take(i as int)),
        decreases req.len() - i,
    {
        proof {
            let t = rv.take(i + 1);
            assert(t.drop_last() =~= rv.take(i as int));
            assert(t.last() == req@[i as int]@);
        }
        if !str_contains(csp, req[i]) {
            let ghost before = string_views(missing@);
            missing.push(owned(req[i]));
            assert(string_views(missing@) =~= before.push(req@[i as int]@));
        }
        i += 1;
    }
    assert(rv.take(i as int) =~= rv);
    let ghost pv = string_views(permissions@);
    let mut wild: Vec<String> = Vec::new();
    let mut k: usize = 0;
    while k < permissions.len()
        invariant
            k <= permissions@.len(),
            pv == string_views(permissions@),
            string_views(wild@) == wildcards_spec(pv.take(k as int)),
        decreases permissions.len() - k,
    {
        proof {
            let t = pv.take(k + 1);
            assert(t.drop_last() =~= pv.take(k as int));
            assert(t.last() == permissions@[k as int]@);
        }
        if str_contains(permissions[k].as_str(), "*") {
            let ghost before = string_views(wild@);
            wild.push(owned(permissions[k].as_str()));
            assert(string_views(wild@) =~= before.push(permissions@[k as int]@));
        }
        k += 1;
    }
    assert(pv.take(k as int) =~= pv);
    let one_main = windows.len() == 1 && str_eq(windows[0].as_str(), "main");
    proof {
        if windows@.len() == 1 {
            if string_views(windows@) == seq!["main"@] {
                assert(string_views(windows@)[0] == windows@[0]@);
            }
            if windows@[0]@ == "main"@ {
                assert(string_views(windows@) =~= seq!["main"@]);
            }
        }
    }
    let intact = missing.len() == 0 && wild.len() == 0 && one_main;
    let verdict = if intact {
        "floor intact — CSP hardening present, capability surface least-privilege (one window, no wildcards)"
    } else if missing.len() > 0 {
        "FLOOR LOWERED — CSP hardening directives missing"
    } else if wild.len() > 0 {
        "FLOOR LOWERED — capability permission uses a wildcard"
    } else {
        "FLOOR LOWERED — capability windows widened beyond 'main'"
    };
    let mut cap: Vec<crate::json::Member> = Vec::new();
    push_member(&mut cap, "permissions", strings_json(permissions));
    push_member(&mut cap, "wildcards", strings_json(&wild));
    push_member(&mut cap, "windows", strings_json(windows));
    let ghost capv = members_view(cap@);
    let mut req_strings: Vec<String> = Vec::new();
    let mut q: usize = 0;
    while q < req.len()
        invariant
            q <= req@.len(),
            rv == req@.map_values(|s: &str| s@),
            string_views(req_strings@) == rv.take(q as int),
        decreases req.len() - q,
    {
        let ghost before = string_views(req_strings@);
        req_strings.push(owned(req[q]));
        assert(string_views(req_strings@) =~= before.push(req@[q as int]@));
        assert(rv.take(q + 1) =~= rv.take(q as int).push(req@[q as int]@));
        q += 1;
    }
    assert(rv.take(q as int) =~= rv);
    let mut m: Vec<crate::json::Member> = Vec::new();
    push_member(&mut m, "capability", Json::object(cap));
    push_member(&mut m, "csp", Json::from_str(csp));
    push_member(&mut m, "csp_directives", strings_json(&csp_directives(csp)));
    push_member(&mut m, "floor_intact", Json::Bool(intact));
    push_member(&mut m, "missing_hardening", strings_json(&missing));
    push_member(&mut m, "required_hardening", strings_json(&req_strings));
    push_member(&mut m, "verdict", Json::from_str(verdict));
    let r = Json::object(m);
    assert(capv =~= self_audit_spec(
        csp@,
        string_views(windows@),
        string_views(permissions@),
    )->Object_0[0].1->Object_0);
    assert(members_view(m@) =~= self_audit_spec(
        csp@,
        string_views(windows@),
        string_views(permissions@),
    )->Object_0);
    r
}

} // verus!
