//! Variable expansion over a mapping: `${NAME:-WORD}`, `${NAME:+WORD}`
//! and `${NAME}` in one pass, then `$NAME` in a second pass over the
//! intermediate result. Unrecognized `${...}` content is left as it
//! stands; an unknown name expands to the empty string.
use vstd::prelude::*;
use vstd::string::*;

use crate::envmap::spec_assoc;
use crate::envmap::EnvMap;
use crate::errors::DotenvxError;
use crate::strutil::chars_of;
use crate::strutil::find_char_from;
use crate::strutil::push_all;
use crate::strutil::spec_index_of;
use crate::strutil::string_of;
use crate::strutil::sub_chars;

verus! {

/// A character that may begin a variable name.
pub open spec fn spec_is_name_start(c: char) -> bool {
    ('A' as u32 <= c as u32 <= 'Z' as u32) || ('a' as u32 <= c as u32 <= 'z' as u32) || c == '_'
}

/// A character that may continue a variable name.
pub open spec fn spec_is_name_char(c: char) -> bool {
    spec_is_name_start(c) || ('0' as u32 <= c as u32 <= '9' as u32)
}

/// The count of leading name-continuation characters.
pub open spec fn spec_name_ext_len(s: Seq<char>) -> nat
    decreases s.len(),
{
    if s.len() > 0 && spec_is_name_char(s[0]) {
        (1 + spec_name_ext_len(s.skip(1))) as nat
    } else {
        0
    }
}

/// The length of the name at the start of `s`, 0 when none begins there.
pub open spec fn spec_name_len(s: Seq<char>) -> nat {
    if s.len() > 0 && spec_is_name_start(s[0]) {
        (1 + spec_name_ext_len(s.skip(1))) as nat
    } else {
        0
    }
}

/// What `spec_name_ext_len` counts: the longest all-name-character prefix.
pub proof fn lemma_name_ext_len_props(s: Seq<char>)
    ensures
        spec_name_ext_len(s) <= s.len(),
        forall|j: int| 0 <= j < spec_name_ext_len(s) ==> spec_is_name_char(s[j]),
        spec_name_ext_len(s) == s.len() || !spec_is_name_char(s[spec_name_ext_len(s) as int]),
    decreases s.len(),
{
    if s.len() > 0 && spec_is_name_char(s[0]) {
        let t = s.skip(1);
        lemma_name_ext_len_props(t);
        assert(forall|j: int| 1 <= j < s.len() ==> s[j] == t[j - 1]);
        let e = spec_name_ext_len(s) as int;
        assert(e == 1 + spec_name_ext_len(t));
        assert forall|j: int| 0 <= j < e implies spec_is_name_char(s[j]) by {
            if j >= 1 {
                assert(s[j] == t[j - 1] && spec_is_name_char(t[j - 1]));
            }
        }
        if e < s.len() {
            assert(s[e] == t[e - 1]);
        }
    }
}

/// The value bound to `name`, or the empty string.
pub open spec fn spec_plain_value(
    keys: Seq<Seq<char>>,
    vals: Seq<Seq<char>>,
    name: Seq<char>,
) -> Seq<char> {
    match spec_assoc(keys, vals, name) {
        Some(v) => v,
        None => seq![],
    }
}

/// Whether `name` is bound to a non-empty value.
pub open spec fn spec_set_nonempty(
    keys: Seq<Seq<char>>,
    vals: Seq<Seq<char>>,
    name: Seq<char>,
) -> bool {
    match spec_assoc(keys, vals, name) {
        Some(v) => v.len() > 0,
        None => false,
    }
}

/// The replacement a brace body denotes, `None` for unrecognized content.
pub open spec fn spec_brace_body_repl(
    body: Seq<char>,
    keys: Seq<Seq<char>>,
    vals: Seq<Seq<char>>,
) -> Option<Seq<char>> {
    let nl = spec_name_len(body) as int;
    if nl == 0 {
        None
    } else {
        let name = body.take(nl);
        if nl == body.len() {
            Some(spec_plain_value(keys, vals, name))
        } else {
            let rest = body.skip(nl);
            if rest.len() >= 2 && rest[0] == ':' && rest[1] == '-' {
                Some(
                    if spec_set_nonempty(keys, vals, name) {
                        spec_plain_value(keys, vals, name)
                    } else {
                        rest.skip(2)
                    },
                )
            } else if rest.len() >= 2 && rest[0] == ':' && rest[1] == '+' {
                Some(
                    if spec_set_nonempty(keys, vals, name) {
                        rest.skip(2)
                    } else {
                        seq![]
                    },
                )
            } else {
                None
            }
        }
    }
}

/// A `${...}` form at position `i`: its replacement and the position
/// after the closing brace.
pub open spec fn spec_brace_at(
    s: Seq<char>,
    keys: Seq<Seq<char>>,
    vals: Seq<Seq<char>>,
    i: int,
) -> Option<(Seq<char>, int)> {
    if 0 <= i && i + 1 < s.len() && s[i] == '$' && s[i + 1] == '{' {
        match spec_index_of(s.skip(i + 2), '}') {
            None => None,
            Some(j) => {
                let body = s.skip(i + 2).take(j as int);
                match spec_brace_body_repl(body, keys, vals) {
                    Some(repl) => Some((repl, i + 3 + j)),
                    None => None,
                }
            },
        }
    } else {
        None
    }
}

/// The first pass: every recognized `${...}` form replaced, scanning
/// left to right from position `i`.
pub open spec fn spec_expand_braces_from(
    s: Seq<char>,
    keys: Seq<Seq<char>>,
    vals: Seq<Seq<char>>,
    i: int,
) -> Seq<char>
    decreases s.len() - i,
{
    if i < 0 || i >= s.len() {
        seq![]
    } else {
        match spec_brace_at(s, keys, vals, i) {
            Some((repl, next)) => {
                if i < next <= s.len() {
                    repl + spec_expand_braces_from(s, keys, vals, next)
                } else {
                    seq![s[i]] + spec_expand_braces_from(s, keys, vals, i + 1)
                }
            },
            None => seq![s[i]] + spec_expand_braces_from(s, keys, vals, i + 1),
        }
    }
}

/// A `$NAME` form at position `i`: its replacement and the position
/// after the name.
pub open spec fn spec_simple_at(
    s: Seq<char>,
    keys: Seq<Seq<char>>,
    vals: Seq<Seq<char>>,
    i: int,
) -> Option<(Seq<char>, int)> {
    if 0 <= i && i + 1 < s.len() && s[i] == '$' && spec_is_name_start(s[i + 1]) {
        let nl = 1 + spec_name_ext_len(s.skip(i + 2));
        let name = s.subrange(i + 1, i + 1 + nl);
        Some((spec_plain_value(keys, vals, name), i + 1 + nl))
    } else {
        None
    }
}

/// The second pass: every `$NAME` form replaced, scanning left to
/// right from position `i`.
pub open spec fn spec_expand_simple_from(
    s: Seq<char>,
    keys: Seq<Seq<char>>,
    vals: Seq<Seq<char>>,
    i: int,
) -> Seq<char>
    decreases s.len() - i,
{
    if i < 0 || i >= s.len() {
        seq![]
    } else {
        match spec_simple_at(s, keys, vals, i) {
            Some((repl, next)) => {
                if i < next <= s.len() {
                    repl + spec_expand_simple_from(s, keys, vals, next)
                } else {
                    seq![s[i]] + spec_expand_simple_from(s, keys, vals, i + 1)
                }
            },
            None => seq![s[i]] + spec_expand_simple_from(s, keys, vals, i + 1),
        }
    }
}

/// Full expansion: the brace pass, then the `$NAME` pass over its result.
pub open spec fn spec_expand(s: Seq<char>, keys: Seq<Seq<char>>, vals: Seq<Seq<char>>) -> Seq<
    char,
> {
    spec_expand_simple_from(spec_expand_braces_from(s, keys, vals, 0), keys, vals, 0)
}

/// Whether `c` may begin a variable name.
fn is_name_start(c: char) -> (r: bool)
    ensures
        r == spec_is_name_start(c),
{
    let n = c as u32;
    ('A' as u32 <= n && n <= 'Z' as u32) || ('a' as u32 <= n && n <= 'z' as u32) || c == '_'
}

/// Whether `c` may continue a variable name.
fn is_name_char(c: char) -> (r: bool)
    ensures
        r == spec_is_name_char(c),
{
    let n = c as u32;
    is_name_start(c) || ('0' as u32 <= n && n <= '9' as u32)
}

/// The end of the name-continuation run beginning at `from`.
fn name_ext_scan(v: &Vec<char>, from: usize) -> (k: usize)
    requires
        from <= v@.len(),
    ensures
        from <= k <= v@.len(),
        k - from == spec_name_ext_len(v@.skip(from as int)),
{
    let n = v.len();
    let mut i: usize = from;
    while i < n
        invariant
            n == v@.len(),
            from <= i <= n,
            forall|j: int| from <= j < i ==> spec_is_name_char(v@[j]),
        decreases n - i,
    {
        if !is_name_char(v[i]) {
            proof {
                lemma_ext_scan_end(v@, from as int, i as int);
            }
            return i;
        }
        i = i + 1;
    }
    proof {
        lemma_ext_scan_end(v@, from as int, i as int);
    }
    i
}

/// A run of name characters from `from` to `k`, ended at `k`, is what
/// `spec_name_ext_len` counts.
pub proof fn lemma_ext_scan_end(s: Seq<char>, from: int, k: int)
    requires
        0 <= from <= k <= s.len(),
        forall|j: int| from <= j < k ==> spec_is_name_char(s[j]),
        k == s.len() || !spec_is_name_char(s[k]),
    ensures
        k - from == spec_name_ext_len(s.skip(from)),
{
    let t = s.skip(from);
    lemma_name_ext_len_props(t);
    assert(forall|j: int| 0 <= j < t.len() ==> t[j] == s[from + j]);
    let e = spec_name_ext_len(t) as int;
    if e < k - from {
        assert(spec_is_name_char(s[from + e]));
        assert(t[e] == s[from + e]);
        assert(false);
    }
    if e > k - from {
        assert(spec_is_name_char(t[k - from]));
        assert(t[k - from] == s[k]);
        assert(false);
    }
}

/// The value bound to `name` in `env`, or the empty string.
fn plain_value(env: &EnvMap, name: &Vec<char>) -> (r: Vec<char>)
    requires
        env.wf(),
    ensures
        r@ == spec_plain_value(env.spec_keys(), env.spec_vals(), name@),
{
    let n = string_of(name);
    match env.get(n.as_str()) {
        Some(v) => chars_of(v.as_str()),
        None => Vec::new(),
    }
}

/// Whether `name` is bound to a non-empty value in `env`.
fn set_nonempty(env: &EnvMap, name: &Vec<char>) -> (r: bool)
    requires
        env.wf(),
    ensures
        r == spec_set_nonempty(env.spec_keys(), env.spec_vals(), name@),
{
    let n = string_of(name);
    match env.get(n.as_str()) {
        Some(v) => v.unicode_len() > 0,
        None => false,
    }
}

/// The first pass over `v`: recognized `${...}` forms replaced.
fn expand_braces(v: &Vec<char>, env: &EnvMap) -> (r: Vec<char>)
    requires
        env.wf(),
    ensures
        r@ == spec_expand_braces_from(v@, env.spec_keys(), env.spec_vals(), 0),
{
    let ghost keys = env.spec_keys();
    let ghost vals = env.spec_vals();
    let n = v.len();
    let mut out: Vec<char> = Vec::new();
    let mut i: usize = 0;
    while i < n
        invariant
            env.wf(),
            keys == env.spec_keys(),
            vals == env.spec_vals(),
            n == v@.len(),
            i <= n,
            spec_expand_braces_from(v@, keys, vals, 0) =~= out@ + spec_expand_braces_from(
                v@,
                keys,
                vals,
                i as int,
            ),
        decreases n - i,
    {
        let c = v[i];
        let mut done = false;
        if c == '$' && i + 1 < n {
            if v[i + 1] == '{' {
                match find_char_from(v, i + 2, '}') {
                    Some(cl) => {
                        let ghost j = cl - (i + 2);
                        let body = sub_chars(v, i + 2, cl);
                        assert(body@ =~= v@.skip(i as int + 2).take(j as int));
                        match brace_body_repl(&body, env) {
                            Some(repl) => {
                                assert(spec_brace_at(v@, keys, vals, i as int) == Some(
                                    (repl@, cl as int + 1),
                                ));
                                let ghost o0 = out@;
                                push_all(&mut out, &repl);
                                proof {
                                    assert(out@ + spec_expand_braces_from(
                                        v@,
                                        keys,
                                        vals,
                                        cl as int + 1,
                                    ) =~= o0 + (repl@ + spec_expand_braces_from(
                                        v@,
                                        keys,
                                        vals,
                                        cl as int + 1,
                                    )));
                                }
                                i = cl + 1;
                                done = true;
                            },
                            None => {
                                assert(spec_brace_at(v@, keys, vals, i as int) is None);
                            },
                        }
                    },
                    None => {
                        assert(spec_brace_at(v@, keys, vals, i as int) is None);
                    },
                }
            } else {
                assert(spec_brace_at(v@, keys, vals, i as int) is None);
            }
        } else {
            assert(spec_brace_at(v@, keys, vals, i as int) is None);
        }
        if !done {
            let ghost o0 = out@;
            out.push(c);
            proof {
                assert(out@ + spec_expand_braces_from(v@, keys, vals, i as int + 1) =~= o0 + (seq![
                    v@[i as int],
                ] + spec_expand_braces_from(v@, keys, vals, i as int + 1)));
            }
            i = i + 1;
        }
    }
    out
}

/// The replacement a brace body denotes, `None` for unrecognized content.
fn brace_body_repl(body: &Vec<char>, env: &EnvMap) -> (r: Option<Vec<char>>)
    requires
        env.wf(),
    ensures
        match r {
            Some(repl) => spec_brace_body_repl(body@, env.spec_keys(), env.spec_vals()) == Some(
                repl@,
            ),
            None => spec_brace_body_repl(body@, env.spec_keys(), env.spec_vals()) is None,
        },
{
    let n = body.len();
    if n == 0 || !is_name_start(body[0]) {
        assert(spec_name_len(body@) == 0);
        return None;
    }
    let end = name_ext_scan(body, 1);
    let nl = end;
    assert(nl == spec_name_len(body@));
    let name = sub_chars(body, 0, nl);
    assert(name@ =~= body@.take(nl as int));
    if nl == n {
        return Some(plain_value(env, &name));
    }
    let ghost rest = body@.skip(nl as int);
    assert(rest[0] == body@[nl as int]);
    if nl + 1 < n {
        assert(rest[1] == body@[nl as int + 1]);
    }
    if body[nl] == ':' && nl + 1 < n && body[nl + 1] == '-' {
        if set_nonempty(env, &name) {
            return Some(plain_value(env, &name));
        }
        let w = sub_chars(body, nl + 2, n);
        assert(w@ =~= rest.skip(2));
        return Some(w);
    }
    if body[nl] == ':' && nl + 1 < n && body[nl + 1] == '+' {
        if set_nonempty(env, &name) {
            let w = sub_chars(body, nl + 2, n);
            assert(w@ =~= rest.skip(2));
            return Some(w);
        }
        let w: Vec<char> = Vec::new();
        return Some(w);
    }
    assert(!(rest.len() >= 2 && rest[0] == ':' && rest[1] == '-'));
    assert(!(rest.len() >= 2 && rest[0] == ':' && rest[1] == '+'));
    None
}

/// The second pass over `v`: `$NAME` forms replaced.
fn expand_simple(v: &Vec<char>, env: &EnvMap) -> (r: Vec<char>)
    requires
        env.wf(),
    ensures
        r@ == spec_expand_simple_from(v@, env.spec_keys(), env.spec_vals(), 0),
{
    let ghost keys = env.spec_keys();
    let ghost vals = env.spec_vals();
    let n = v.len();
    let mut out: Vec<char> = Vec::new();
    let mut i: usize = 0;
    while i < n
        invariant
            env.wf(),
            keys == env.spec_keys(),
            vals == env.spec_vals(),
            n == v@.len(),
            i <= n,
            spec_expand_simple_from(v@, keys, vals, 0) =~= out@ + spec_expand_simple_from(
                v@,
                keys,
                vals,
                i as int,
            ),
        decreases n - i,
    {
        let c = v[i];
        let mut done = false;
        if c == '$' && i + 1 < n {
            if is_name_start(v[i + 1]) {
                let end = name_ext_scan(v, i + 2);
                let ghost nl = 1 + spec_name_ext_len(v@.skip(i as int + 2));
                assert(end == i + 1 + nl);
                let name = sub_chars(v, i + 1, end);
                assert(name@ =~= v@.subrange(i as int + 1, i as int + 1 + nl));
                let repl = plain_value(env, &name);
                assert(spec_simple_at(v@, keys, vals, i as int) == Some((repl@, i as int + 1 + nl)));
                let ghost o0 = out@;
                push_all(&mut out, &repl);
                proof {
                    assert(out@ + spec_expand_simple_from(v@, keys, vals, end as int) =~= o0 + (
                    repl@ + spec_expand_simple_from(v@, keys, vals, end as int)));
                }
                i = end;
                done = true;
            } else {
                assert(spec_simple_at(v@, keys, vals, i as int) is None);
            }
        } else {
            assert(spec_simple_at(v@, keys, vals, i as int) is None);
        }
        if !done {
            let ghost o0 = out@;
            out.push(c);
            proof {
                assert(out@ + spec_expand_simple_from(v@, keys, vals, i as int + 1) =~= o0 + (seq![
                    v@[i as int],
                ] + spec_expand_simple_from(v@, keys, vals, i as int + 1)));
            }
            i = i + 1;
        }
    }
    out
}

/// Expand the `${...}` and `$NAME` forms of `value` against `env`.
pub fn expand_variables(value: &str, env: &EnvMap) -> (r: Result<String, DotenvxError>)
    requires
        env.wf(),
    ensures
        r is Ok,
        r->Ok_0@ == spec_expand(value@, env.spec_keys(), env.spec_vals()),
{
    let cs = chars_of(value);
    let pass1 = expand_braces(&cs, env);
    let pass2 = expand_simple(&pass1, env);
    Ok(string_of(&pass2))
}

} // verus!
