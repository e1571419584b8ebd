//! `${name}` templates: every `${` followed by letters, digits or `_` and a
//! closing `}` is replaced by the variable of that name, scanning left to
//! right without overlap. A template that names a missing variable is an
//! error.

use vstd::prelude::*;

use crate::text::{str_chars, string_from_chars};

verus! {

/// A lookup of text variables by name.
pub trait AnyMap {
    /// The value of a variable, if there is one.
    spec fn spec_get(&self, k: Seq<char>) -> Option<Seq<char>>;

    /// The value of variable `k`, if there is one.
    fn get_from_map(&self, k: &str) -> (r: Option<String>)
        ensures
            r matches Some(v) ==> self.spec_get(k@) == Some(v@),
            r is None ==> self.spec_get(k@) is None,
    ;
}

/// The value of the first pair named `k`.
pub open spec fn pairs_get(v: Seq<(String, String)>, k: Seq<char>) -> Option<Seq<char>>
    decreases v.len(),
{
    if v.len() == 0 {
        None
    } else if v[0].0@ == k {
        Some(v[0].1@)
    } else {
        pairs_get(v.skip(1), k)
    }
}

impl AnyMap for Vec<(String, String)> {
    open spec fn spec_get(&self, k: Seq<char>) -> Option<Seq<char>> {
        pairs_get(self@, k)
    }

    fn get_from_map(&self, k: &str) -> (r: Option<String>) {
        let mut i: usize = 0;
        assert(self@.skip(0) =~= self@);
        while i < self.len()
            invariant
                i <= self@.len(),
                pairs_get(self@, k@) == pairs_get(self@.skip(i as int), k@),
            decreases self@.len() - i,
        {
            assert(self@.skip(i as int)[0] == self@[i as int]);
            assert(self@.skip(i as int).skip(1) =~= self@.skip(i + 1));
            if crate::text::str_eq(self[i].0.as_str(), k) {
                return Some(self[i].1.clone());
            }
            i = i + 1;
        }
        None
    }
}

/// A character that may stand in a variable's name.
pub open spec fn is_var_char(c: char) -> bool {
    ('a' <= c && c <= 'z') || ('A' <= c && c <= 'Z') || ('0' <= c && c <= '9') || c == '_'
}

/// How many characters at the front of `s` may stand in a name.
pub open spec fn var_run(s: Seq<char>) -> nat
    decreases s.len(),
{
    if s.len() == 0 || !is_var_char(s[0]) {
        0
    } else {
        1 + var_run(s.skip(1))
    }
}

/// The name and length of the `${name}` at the front of `s`, if there is one.
pub open spec fn var_at(s: Seq<char>) -> Option<(Seq<char>, nat)> {
    if s.len() >= 2 && s[0] == '$' && s[1] == '{' {
        let w = var_run(s.skip(2));
        if 2 + w < s.len() && s[2 + w as int] == '}' {
            Some((s.subrange(2, 2 + w as int), 3 + w))
        } else {
            None
        }
    } else {
        None
    }
}

/// `s` with its placeholders replaced; `None` if one names a missing variable.
pub open spec fn patch(s: Seq<char>, get: spec_fn(Seq<char>) -> Option<Seq<char>>) -> Option<Seq<char>>
    decreases s.len(),
{
    if s.len() == 0 {
        Some(Seq::empty())
    } else {
        match var_at(s) {
            Some((name, n)) => if n <= s.len() {
                match (get(name), patch(s.skip(n as int), get)) {
                    (Some(v), Some(t)) => Some(v + t),
                    _ => None,
                }
            } else {
                None
            },
            None => match patch(s.skip(1), get) {
                Some(t) => Some(seq![s[0]] + t),
                None => None,
            },
        }
    }
}

/// The name of the first placeholder of `s` whose variable is missing, if
/// any.
pub open spec fn missing_var(s: Seq<char>, get: spec_fn(Seq<char>) -> Option<Seq<char>>) -> Option<Seq<char>>
    decreases s.len(),
{
    if s.len() == 0 {
        None
    } else {
        match var_at(s) {
            Some((name, n)) => if n <= s.len() {
                if get(name) is None {
                    Some(name)
                } else {
                    missing_var(s.skip(n as int), get)
                }
            } else {
                None
            },
            None => missing_var(s.skip(1), get),
        }
    }
}

/// The run of name characters never reaches past the text.
pub proof fn lemma_var_run(s: Seq<char>)
    ensures
        var_run(s) <= s.len(),
        forall|i: int| 0 <= i < var_run(s) ==> #[trigger] is_var_char(s[i]),
        var_run(s) < s.len() ==> !is_var_char(s[var_run(s) as int]),
    decreases s.len(),
{
    if s.len() > 0 && is_var_char(s[0]) {
        lemma_var_run(s.skip(1));
        assert forall|i: int| 0 <= i < var_run(s) implies #[trigger] is_var_char(s[i]) by {
            if i > 0 {
                assert(s[i] == s.skip(1)[i - 1]);
            }
        }
    }
}

/// A character that may stand in a variable's name.
fn var_char(c: char) -> (r: bool)
    ensures
        r == is_var_char(c),
{
    ('a' <= c && c <= 'z') || ('A' <= c && c <= 'Z') || ('0' <= c && c <= '9') || c == '_'
}

/// The placeholder at position `i` of `s`: its name's end, if one is there.
fn var_end_at(s: &[char], i: usize) -> (r: Option<usize>)
    requires
        i <= s@.len(),
    ensures
        r matches Some(e) ==> var_at(s@.skip(i as int)) == Some(
            (s@.subrange(i + 2, e as int), (e + 1 - i) as nat),
        ) && i + 2 <= e < s@.len(),
        r is None ==> var_at(s@.skip(i as int)) is None,
{
    let ghost t = s@.skip(i as int);
    let n = s.len();
    if !(i < n && i + 1 < n && s[i] == '$' && s[i + 1] == '{') {
        proof {
            if t.len() >= 2 {
                assert(t[0] == s@[i as int] && t[1] == s@[i + 1]);
            }
        }
        return None;
    }
    assert(t[0] == '$' && t[1] == '{');
    let mut j = i + 2;
    proof {
        lemma_var_run(t.skip(2));
    }
    while j < n && var_char(s[j])
        invariant
            i + 2 <= j <= n,
            n == s@.len(),
            t == s@.skip(i as int),
            var_run(t.skip(2)) <= t.len() - 2,
            forall|q: int| 0 <= q < var_run(t.skip(2)) ==> #[trigger] is_var_char(t.skip(2)[q]),
            var_run(t.skip(2)) < t.len() - 2 ==> !is_var_char(t.skip(2)[var_run(t.skip(2)) as int]),
            j - (i + 2) <= var_run(t.skip(2)),
        decreases n - j,
    {
        assert(t.skip(2)[j - (i + 2)] == s@[j as int]);
        j = j + 1;
    }
    proof {
        if j < n {
            assert(t.skip(2)[j - (i + 2)] == s@[j as int]);
        }
        assert(j - (i + 2) == var_run(t.skip(2)));
    }
    if j < n && s[j] == '}' {
        assert(t[2 + var_run(t.skip(2)) as int] == s@[j as int]);
        assert(t.subrange(2, 2 + var_run(t.skip(2)) as int) =~= s@.subrange(i + 2, j as int));
        Some(j)
    } else {
        proof {
            if j < n {
                assert(t[2 + var_run(t.skip(2)) as int] == s@[j as int]);
            }
        }
        None
    }
}

/// Replaces each `${name}` placeholder of `s` by the variable `name`; an
/// error names the first placeholder whose variable is missing.
pub fn patch_str<M: AnyMap>(vars: &M, s: &str) -> (r: Result<String, String>)
    ensures
        r matches Ok(t) ==> patch(s@, |k: Seq<char>| vars.spec_get(k)) == Some(t@),
        r is Err ==> patch(s@, |k: Seq<char>| vars.spec_get(k)) is None,
        r matches Err(name) ==> missing_var(s@, |k: Seq<char>| vars.spec_get(k)) == Some(name@),
{
    let cs = str_chars(s);
    let ghost get = |k: Seq<char>| vars.spec_get(k);
    let n = cs.len();
    let mut out: Vec<char> = Vec::new();
    let mut i: usize = 0;
    assert(cs@.skip(0) =~= cs@);
    while i < n
        invariant
            i <= n,
            n == cs@.len(),
            cs@ == s@,
            get == (|k: Seq<char>| vars.spec_get(k)),
            patch(s@, get) == match patch(cs@.skip(i as int), get) {
                Some(t) => Some(out@ + t),
                None => None,
            },
            missing_var(s@, get) == missing_var(cs@.skip(i as int), get),
        decreases n - i,
    {
        let ghost rest = cs@.skip(i as int);
        match var_end_at(cs.as_slice(), i) {
            Some(e) => {
                let name = string_from_chars(&cs.as_slice()[i + 2..e]);
                match vars.get_from_map(name.as_str()) {
                    Some(v) => {
                        let vs = str_chars(v.as_str());
                        let mut q: usize = 0;
                        let ghost out0 = out@;
                        while q < vs.len()
                            invariant
                                q <= vs@.len(),
                                out@ == out0 + vs@.take(q as int),
                            decreases vs@.len() - q,
                        {
                            out.push(vs[q]);
                            assert(vs@.take(q + 1) =~= vs@.take(q as int).push(vs@[q as int]));
                            q = q + 1;
                        }
                        assert(vs@.take(vs@.len() as int) =~= vs@);
                        proof {
                            assert(cs@.skip(i as int).skip((e + 1 - i) as int) =~= cs@.skip(e + 1));
                            match patch(cs@.skip(e + 1), get) {
                                Some(t) => {
                                    assert(out0 + (v@ + t) =~= out@ + t);
                                },
                                None => {},
                            }
                        }
                        i = e + 1;
                    },
                    None => {
                        return Err(name);
                    },
                }
            },
            None => {
                let c = cs[i];
                proof {
                    assert(rest[0] == c);
                    assert(rest.skip(1) =~= cs@.skip(i + 1));
                    match patch(cs@.skip(i + 1), get) {
                        Some(t) => {
                            assert(out@ + (seq![c] + t) =~= out@.push(c) + t);
                        },
                        None => {},
                    }
                }
                out.push(c);
                i = i + 1;
            },
        }
    }
    proof {
        assert(out@ + Seq::<char>::empty() =~= out@);
    }
    Ok(string_from_chars(out.as_slice()))
}


/// A JSON document: numbers keep their text, objects their members in
/// order.
#[derive(Debug)]
pub enum JsonValue {
    Null,
    Bool(bool),
    Number(String),
    Str(String),
    Array(Vec<JsonValue>),
    Object(Vec<(String, JsonValue)>),
}

/// Whether every string of `a` (member names aside) can be patched.
pub open spec fn patchable(a: JsonValue, get: spec_fn(Seq<char>) -> Option<Seq<char>>) -> bool
    decreases a,
{
    match a {
        JsonValue::Str(s) => patch(s@, get) is Some,
        JsonValue::Array(v) => patchable_seq(v@, get),
        JsonValue::Object(o) => patchable_members(o@, get),
        _ => true,
    }
}

/// Whether every item of `v` can be patched.
pub open spec fn patchable_seq(v: Seq<JsonValue>, get: spec_fn(Seq<char>) -> Option<Seq<char>>) -> bool
    decreases v,
{
    v.len() > 0 ==> patchable(v[0], get) && patchable_seq(v.skip(1), get)
}

/// Whether every member value of `o` can be patched.
pub open spec fn patchable_members(o: Seq<(String, JsonValue)>, get: spec_fn(Seq<char>) -> Option<Seq<char>>) -> bool
    decreases o,
{
    o.len() > 0 ==> patchable(o[0].1, get) && patchable_members(o.skip(1), get)
}

/// Whether `b` is `a` with each of its strings patched: same shape, same
/// member names, same numbers and literals.
pub open spec fn patches_to(a: JsonValue, b: JsonValue, get: spec_fn(Seq<char>) -> Option<Seq<char>>) -> bool
    decreases a,
{
    match a {
        JsonValue::Null => b is Null,
        JsonValue::Bool(x) => b == JsonValue::Bool(x),
        JsonValue::Number(n) => b matches JsonValue::Number(m) && m@ == n@,
        JsonValue::Str(s) => b matches JsonValue::Str(t) && patch(s@, get) == Some(t@),
        JsonValue::Array(v) => b matches JsonValue::Array(w) && patches_seq(v@, w@, get),
        JsonValue::Object(o) => b matches JsonValue::Object(p) && patches_members(o@, p@, get),
    }
}

/// Whether `w` is `v` item by item patched.
pub open spec fn patches_seq(v: Seq<JsonValue>, w: Seq<JsonValue>, get: spec_fn(Seq<char>) -> Option<Seq<char>>) -> bool
    decreases v,
{
    v.len() == w.len() && (v.len() > 0 ==> patches_to(v[0], w[0], get) && patches_seq(v.skip(1), w.skip(1), get))
}

/// Whether `p` is `o` with the same names and each value patched.
pub open spec fn patches_members(
    o: Seq<(String, JsonValue)>,
    p: Seq<(String, JsonValue)>,
    get: spec_fn(Seq<char>) -> Option<Seq<char>>,
) -> bool
    decreases o,
{
    o.len() == p.len() && (o.len() > 0 ==> p[0].0@ == o[0].0@ && patches_to(o[0].1, p[0].1, get)
        && patches_members(o.skip(1), p.skip(1), get))
}

proof fn lemma_patches_seq_push(
    v: Seq<JsonValue>,
    w: Seq<JsonValue>,
    x: JsonValue,
    y: JsonValue,
    get: spec_fn(Seq<char>) -> Option<Seq<char>>,
)
    requires
        v.len() == w.len(),
    ensures
        patches_seq(v.push(x), w.push(y), get) == (patches_seq(v, w, get) && patches_to(x, y, get)),
        patchable_seq(v.push(x), get) == (patchable_seq(v, get) && patchable(x, get)),
    decreases v.len(),
{
    assert(v.push(x)[0] == if v.len() > 0 { v[0] } else { x });
    assert(w.push(y)[0] == if w.len() > 0 { w[0] } else { y });
    if v.len() > 0 {
        assert(v.push(x).skip(1) =~= v.skip(1).push(x));
        assert(w.push(y).skip(1) =~= w.skip(1).push(y));
        lemma_patches_seq_push(v.skip(1), w.skip(1), x, y, get);
        assert(patches_seq(v.push(x), w.push(y), get) == (patches_to(v[0], w[0], get) && patches_seq(
            v.skip(1).push(x),
            w.skip(1).push(y),
            get,
        )));
        assert(patchable_seq(v.push(x), get) == (patchable(v[0], get) && patchable_seq(v.skip(1).push(x), get)));
    } else {
        assert(v.push(x).skip(1) =~= Seq::<JsonValue>::empty());
        assert(w.push(y).skip(1) =~= Seq::<JsonValue>::empty());
        assert(patches_seq(Seq::<JsonValue>::empty(), Seq::<JsonValue>::empty(), get));
        assert(patchable_seq(Seq::<JsonValue>::empty(), get));
        assert(patches_seq(v, w, get));
        assert(patchable_seq(v, get));
    }
}

proof fn lemma_patches_members_push(
    o: Seq<(String, JsonValue)>,
    p: Seq<(String, JsonValue)>,
    x: (String, JsonValue),
    y: (String, JsonValue),
    get: spec_fn(Seq<char>) -> Option<Seq<char>>,
)
    requires
        o.len() == p.len(),
    ensures
        patches_members(o.push(x), p.push(y), get) == (patches_members(o, p, get) && y.0@ == x.0@
            && patches_to(x.1, y.1, get)),
        patchable_members(o.push(x), get) == (patchable_members(o, get) && patchable(x.1, get)),
    decreases o.len(),
{
    assert(o.push(x)[0] == if o.len() > 0 { o[0] } else { x });
    assert(p.push(y)[0] == if p.len() > 0 { p[0] } else { y });
    if o.len() > 0 {
        assert(o.push(x).skip(1) =~= o.skip(1).push(x));
        assert(p.push(y).skip(1) =~= p.skip(1).push(y));
        lemma_patches_members_push(o.skip(1), p.skip(1), x, y, get);
        assert(patches_members(o.push(x), p.push(y), get) == (p[0].0@ == o[0].0@ && patches_to(o[0].1, p[0].1, get)
            && patches_members(o.skip(1).push(x), p.skip(1).push(y), get)));
        assert(patchable_members(o.push(x), get) == (patchable(o[0].1, get) && patchable_members(
            o.skip(1).push(x),
            get,
        )));
    } else {
        assert(o.push(x).skip(1) =~= Seq::<(String, JsonValue)>::empty());
        assert(p.push(y).skip(1) =~= Seq::<(String, JsonValue)>::empty());
        assert(patches_members(Seq::<(String, JsonValue)>::empty(), Seq::<(String, JsonValue)>::empty(), get));
        assert(patchable_members(Seq::<(String, JsonValue)>::empty(), get));
        assert(patches_members(o, p, get));
        assert(patchable_members(o, get));
    }
}

proof fn lemma_patchable_seq_item(v: Seq<JsonValue>, i: int, get: spec_fn(Seq<char>) -> Option<Seq<char>>)
    requires
        patchable_seq(v, get),
        0 <= i < v.len(),
    ensures
        patchable(v[i], get),
    decreases v.len(),
{
    if i > 0 {
        assert(v.skip(1)[i - 1] == v[i]);
        lemma_patchable_seq_item(v.skip(1), i - 1, get);
    }
}

proof fn lemma_patchable_members_item(o: Seq<(String, JsonValue)>, i: int, get: spec_fn(Seq<char>) -> Option<Seq<char>>)
    requires
        patchable_members(o, get),
        0 <= i < o.len(),
    ensures
        patchable(o[i].1, get),
    decreases o.len(),
{
    if i > 0 {
        assert(o.skip(1)[i - 1] == o[i]);
        lemma_patchable_members_item(o.skip(1), i - 1, get);
    }
}

/// Patches every string of a JSON document, member names aside; an error
/// names a placeholder whose variable is missing.
pub fn patch_value<M: AnyMap>(vars: &M, v: &JsonValue) -> (r: Result<JsonValue, String>)
    ensures
        r is Ok <==> patchable(*v, |k: Seq<char>| vars.spec_get(k)),
        r matches Ok(b) ==> patches_to(*v, b, |k: Seq<char>| vars.spec_get(k)),
    decreases v,
{
    let ghost get = |k: Seq<char>| vars.spec_get(k);
    match v {
        JsonValue::Null => Ok(JsonValue::Null),
        JsonValue::Bool(b) => Ok(JsonValue::Bool(*b)),
        JsonValue::Number(n) => Ok(JsonValue::Number(n.clone())),
        JsonValue::Str(s) => match patch_str(vars, s.as_str()) {
            Ok(t) => Ok(JsonValue::Str(t)),
            Err(e) => Err(e),
        },
        JsonValue::Array(items) => {
            let mut out: Vec<JsonValue> = Vec::new();
            let mut i: usize = 0;
            assert(items@.take(0) =~= Seq::<JsonValue>::empty());
            while i < items.len()
                invariant
                    i <= items@.len(),
                    *v == JsonValue::Array(*items),
                    get == (|k: Seq<char>| vars.spec_get(k)),
                    out@.len() == i,
                    patches_seq(items@.take(i as int), out@, get),
                    patchable_seq(items@.take(i as int), get),
                decreases items@.len() - i,
            {
                assert(decreases_to!(*v => (*v)->Array_0));
                assert(decreases_to!(*items => items@));
                assert(decreases_to!(items@ => items@[i as int]));
                assert(decreases_to!(*v => items@[i as int]));
                match patch_value(vars, &items[i]) {
                    Ok(x) => {
                        proof {
                            assert(items@.take(i + 1) =~= items@.take(i as int).push(items@[i as int]));
                            lemma_patches_seq_push(items@.take(i as int), out@, items@[i as int], x, get);
                        }
                        out.push(x);
                        i = i + 1;
                    },
                    Err(e) => {
                        proof {
                            if patchable_seq(items@, get) {
                                lemma_patchable_seq_item(items@, i as int, get);
                            }
                        }
                        return Err(e);
                    },
                }
            }
            assert(items@.take(i as int) =~= items@);
            Ok(JsonValue::Array(out))
        },
        JsonValue::Object(members) => {
            let mut out: Vec<(String, JsonValue)> = Vec::new();
            let mut i: usize = 0;
            assert(members@.take(0) =~= Seq::<(String, JsonValue)>::empty());
            while i < members.len()
                invariant
                    i <= members@.len(),
                    *v == JsonValue::Object(*members),
                    get == (|k: Seq<char>| vars.spec_get(k)),
                    out@.len() == i,
                    patches_members(members@.take(i as int), out@, get),
                    patchable_members(members@.take(i as int), get),
                decreases members@.len() - i,
            {
                assert(decreases_to!(*v => (*v)->Object_0));
                assert(decreases_to!(*members => members@));
                assert(decreases_to!(members@ => members@[i as int]));
                assert(decreases_to!(members@[i as int] => members@[i as int].1));
                assert(decreases_to!(*v => members@[i as int].1));
                match patch_value(vars, &members[i].1) {
                    Ok(x) => {
                        let name = members[i].0.clone();
                        proof {
                            assert(members@.take(i + 1) =~= members@.take(i as int).push(members@[i as int]));
                            lemma_patches_members_push(members@.take(i as int), out@, members@[i as int], (name, x), get);
                        }
                        out.push((name, x));
                        i = i + 1;
                    },
                    Err(e) => {
                        proof {
                            if patchable_members(members@, get) {
                                lemma_patchable_members_item(members@, i as int, get);
                            }
                        }
                        return Err(e);
                    },
                }
            }
            assert(members@.take(i as int) =~= members@);
            Ok(JsonValue::Object(out))
        },
    }
}


proof fn lemma_pairs_get_update(v: Seq<(String, String)>, i: int, p: (String, String), k: Seq<char>)
    requires
        0 <= i < v.len(),
        v[i].0@ != k,
        p.0@ != k,
    ensures
        pairs_get(v.update(i, p), k) == pairs_get(v, k),
    decreases v.len(),
{
    if i > 0 {
        assert(v.update(i, p).skip(1) =~= v.skip(1).update(i - 1, p));
        lemma_pairs_get_update(v.skip(1), i - 1, p, k);
    } else {
        assert(v.update(i, p).skip(1) =~= v.skip(1));
    }
}

proof fn lemma_pairs_get_first(v: Seq<(String, String)>, i: int, p: (String, String))
    requires
        0 <= i < v.len(),
        v[i].0@ == p.0@,
        forall|j: int| 0 <= j < i ==> #[trigger] v[j].0@ != p.0@,
    ensures
        pairs_get(v.update(i, p), p.0@) == Some(p.1@),
    decreases v.len(),
{
    if i > 0 {
        assert(v.update(i, p).skip(1) =~= v.skip(1).update(i - 1, p));
        assert forall|j: int| 0 <= j < i - 1 implies #[trigger] v.skip(1)[j].0@ != p.0@ by {
            assert(v.skip(1)[j] == v[j + 1]);
        }
        assert(v[0].0@ != p.0@);
        lemma_pairs_get_first(v.skip(1), i - 1, p);
    }
}

proof fn lemma_pairs_get_push(v: Seq<(String, String)>, p: (String, String), k: Seq<char>)
    ensures
        pairs_get(v, k) is Some ==> pairs_get(v.push(p), k) == pairs_get(v, k),
        pairs_get(v, k) is None ==> pairs_get(v.push(p), k) == (if p.0@ == k {
            Some(p.1@)
        } else {
            None
        }),
    decreases v.len(),
{
    if v.len() > 0 {
        assert(v.push(p).skip(1) =~= v.skip(1).push(p));
        assert(v.push(p)[0] == v[0]);
        lemma_pairs_get_push(v.skip(1), p, k);
        if v[0].0@ != k {
            assert(pairs_get(v, k) == pairs_get(v.skip(1), k));
            assert(pairs_get(v.push(p), k) == pairs_get(v.skip(1).push(p), k));
        }
    } else {
        assert(v.push(p)[0] == p);
        assert(v.push(p).skip(1) =~= Seq::<(String, String)>::empty());
        assert(pairs_get(Seq::<(String, String)>::empty(), k) is None);
        if p.0@ != k {
            assert(pairs_get(v.push(p), k) == pairs_get(v.push(p).skip(1), k));
        }
    }
}

/// Sets variable `name` to `val` with its `${..}` placeholders replaced by
/// the variables already set; a variable of the same name is replaced.
/// Nothing changes when a placeholder names a missing variable.
pub fn add_env(env: &mut Vec<(String, String)>, name: &str, val: &str) -> (r: Result<(), String>)
    ensures
        r is Ok <==> patch(val@, |k: Seq<char>| pairs_get(old(env)@, k)) is Some,
        r is Ok ==> pairs_get(final(env)@, name@) == patch(val@, |k: Seq<char>| pairs_get(old(env)@, k)),
        r is Ok ==> forall|k: Seq<char>| k != name@ ==> #[trigger] pairs_get(final(env)@, k) == pairs_get(old(env)@, k),
        r is Err ==> final(env)@ == old(env)@,
        r matches Err(missing) ==> missing_var(val@, |k: Seq<char>| pairs_get(old(env)@, k)) == Some(missing@),
{
    let ghost get = |k: Seq<char>| pairs_get(old(env)@, k);
    let res = patch_str(&*env, val);
    assert((|k: Seq<char>| env.spec_get(k)) =~= get);
    let patched = match res {
        Ok(t) => t,
        Err(e) => return Err(e),
    };
    let entry = (String::from_str(name), patched);
    let mut i: usize = 0;
    while i < env.len()
        invariant
            i <= env@.len(),
            env@ == old(env)@,
            entry.0@ == name@,
            patch(val@, get) == Some(entry.1@),
            get == (|k: Seq<char>| pairs_get(old(env)@, k)),
            forall|j: int| 0 <= j < i ==> #[trigger] env@[j].0@ != name@,
        decreases env@.len() - i,
    {
        if crate::text::str_eq(env[i].0.as_str(), name) {
            let ghost before = env@;
            proof {
                lemma_pairs_get_first(before, i as int, entry);
                assert forall|k: Seq<char>| k != name@ implies #[trigger] pairs_get(before.update(i as int, entry), k)
                    == pairs_get(before, k) by {
                    lemma_pairs_get_update(before, i as int, entry, k);
                }
            }
            env.set(i, entry);
            return Ok(());
        }
        i = i + 1;
    }
    let ghost before = env@;
    proof {
        assert forall|k: Seq<char>| k != name@ implies #[trigger] pairs_get(before.push(entry), k) == pairs_get(before, k) by {
            lemma_pairs_get_push(before, entry, k);
        }
        lemma_pairs_get_push(before, entry, name@);
        lemma_pairs_get_absent(before, name@);
    }
    env.push(entry);
    Ok(())
}

proof fn lemma_pairs_get_absent(v: Seq<(String, String)>, k: Seq<char>)
    requires
        forall|j: int| 0 <= j < v.len() ==> #[trigger] v[j].0@ != k,
    ensures
        pairs_get(v, k) is None,
    decreases v.len(),
{
    if v.len() > 0 {
        assert forall|j: int| 0 <= j < v.len() - 1 implies #[trigger] v.skip(1)[j].0@ != k by {
            assert(v.skip(1)[j] == v[j + 1]);
        }
        lemma_pairs_get_absent(v.skip(1), k);
    }
}


/// A text in which no `$` is followed by `{` is left as it is, whatever the
/// variables.
pub proof fn patch_keeps_plain_text(s: Seq<char>, get: spec_fn(Seq<char>) -> Option<Seq<char>>)
    requires
        forall|i: int| 0 <= i < s.len() - 1 ==> #[trigger] s[i] != '$' || s[i + 1] != '{',
    ensures
        patch(s, get) == Some(s),
    decreases s.len(),
{
    if s.len() > 0 {
        if s.len() >= 2 {
            assert(s[0] != '$' || s[1] != '{');
        }
        assert(var_at(s) is None);
        assert forall|i: int| 0 <= i < s.skip(1).len() - 1 implies #[trigger] s.skip(1)[i] != '$' || s.skip(1)[i + 1]
            != '{' by {
            assert(s.skip(1)[i] == s[i + 1] && s.skip(1)[i + 1] == s[i + 2]);
        }
        patch_keeps_plain_text(s.skip(1), get);
        assert(seq![s[0]] + s.skip(1) =~= s);
    }
}

} // verus!
