//! Rendering a mapping for shell evaluation: `bash` (the default),
//! `fish`, `powershell`, and lexicographically sorted `json`.
use vstd::prelude::*;
use vstd::string::*;

use crate::envmap::EnvMap;
use crate::primitives::json_string;
use crate::primitives::spec_json_of;
use crate::strutil::chars_eq;
use crate::strutil::chars_of;
use crate::strutil::lemma_concat_push;
use crate::strutil::push_all;
use crate::strutil::push_str_chars;
use crate::strutil::spec_concat_pieces;
use crate::strutil::string_of;

verus! {

/// `s` with every occurrence of `c` replaced by `rep`.
pub open spec fn spec_replace_char(s: Seq<char>, c: char, rep: Seq<char>) -> Seq<char>
    decreases s.len(),
{
    if s.len() == 0 {
        seq![]
    } else if s[0] == c {
        rep + spec_replace_char(s.drop_first(), c, rep)
    } else {
        seq![s[0]] + spec_replace_char(s.drop_first(), c, rep)
    }
}

/// `v` with every occurrence of `c` replaced by `rep`.
fn replace_char(v: &Vec<char>, c: char, rep: &Vec<char>) -> (r: Vec<char>)
    ensures
        r@ == spec_replace_char(v@, c, rep@),
{
    let n = v.len();
    let mut out: Vec<char> = Vec::new();
    assert(v@.skip(0) == v@);
    let mut i: usize = 0;
    while i < n
        invariant
            n == v@.len(),
            i <= n,
            spec_replace_char(v@, c, rep@) =~= out@ + spec_replace_char(
                v@.skip(i as int),
                c,
                rep@,
            ),
        decreases n - i,
    {
        let ghost rest = v@.skip(i as int);
        assert(rest[0] == v@[i as int]);
        assert(rest.drop_first() =~= v@.skip(i as int + 1));
        if v[i] == c {
            push_all(&mut out, rep);
        } else {
            out.push(v[i]);
        }
        i = i + 1;
    }
    assert(v@.skip(n as int) =~= Seq::<char>::empty());
    assert(out@ + Seq::<char>::empty() =~= out@);
    out
}

/// One `bash` line: `export KEY='value'` with inner quotes escaped.
pub open spec fn spec_bash_piece(k: Seq<char>, v: Seq<char>) -> Seq<char> {
    "export "@ + k + "='"@ + spec_replace_char(v, '\'', "'\\''"@) + "'\n"@
}

/// One `fish` line: `set -gx KEY 'value'` with inner quotes escaped.
pub open spec fn spec_fish_piece(k: Seq<char>, v: Seq<char>) -> Seq<char> {
    "set -gx "@ + k + " '"@ + spec_replace_char(v, '\'', "\\'"@) + "'\n"@
}

/// One `powershell` line: `$env:KEY="value"` with inner quotes escaped.
pub open spec fn spec_powershell_piece(k: Seq<char>, v: Seq<char>) -> Seq<char> {
    "$env:"@ + k + "=\""@ + spec_replace_char(v, '"', "\"`\""@) + "\"\n"@
}

/// The lines of a per-entry format over all entries, in order.
pub open spec fn spec_lines_text(
    keys: Seq<Seq<char>>,
    vals: Seq<Seq<char>>,
    which: int,
) -> Seq<char> {
    spec_concat_pieces(
        Seq::new(
            keys.len(),
            |i: int|
                if which == 0 {
                    spec_bash_piece(keys[i], vals[i])
                } else if which == 1 {
                    spec_fish_piece(keys[i], vals[i])
                } else {
                    spec_powershell_piece(keys[i], vals[i])
                },
        ),
    )
}

/// Strict lexicographic order on character codes.
pub open spec fn spec_lex_lt(a: Seq<char>, b: Seq<char>) -> bool
    decreases a.len(),
{
    if b.len() == 0 {
        false
    } else if a.len() == 0 {
        true
    } else if (a[0] as u32) < (b[0] as u32) {
        true
    } else if (a[0] as u32) > (b[0] as u32) {
        false
    } else {
        spec_lex_lt(a.drop_first(), b.drop_first())
    }
}

/// Whether `a` sorts strictly before `b`.
fn lex_lt(a: &Vec<char>, b: &Vec<char>) -> (r: bool)
    ensures
        r == spec_lex_lt(a@, b@),
{
    let na = a.len();
    let nb = b.len();
    assert(a@.skip(0) == a@);
    assert(b@.skip(0) == b@);
    let mut i: usize = 0;
    loop
        invariant
            na == a@.len(),
            nb == b@.len(),
            i <= na,
            i <= nb,
            spec_lex_lt(a@, b@) == spec_lex_lt(a@.skip(i as int), b@.skip(i as int)),
        ensures
            spec_lex_lt(a@, b@) == (if i >= nb {
                false
            } else if i >= na {
                true
            } else {
                (a@[i as int] as u32) < (b@[i as int] as u32)
            }),
        decreases na - i,
    {
        proof {
            assert(a@.skip(i as int).len() == na - i);
            assert(b@.skip(i as int).len() == nb - i);
        }
        if i >= nb {
            break ;
        }
        if i >= na {
            break ;
        }
        let ghost ra = a@.skip(i as int);
        let ghost rb = b@.skip(i as int);
        assert(ra[0] == a@[i as int]);
        assert(rb[0] == b@[i as int]);
        let ca = a[i] as u32;
        let cb = b[i] as u32;
        if ca != cb {
            break ;
        }
        assert(ra.drop_first() =~= a@.skip(i as int + 1));
        assert(rb.drop_first() =~= b@.skip(i as int + 1));
        i = i + 1;
    }
    if i >= nb {
        false
    } else if i >= na {
        true
    } else {
        (a[i] as u32) < (b[i] as u32)
    }
}

/// The entry inserted before the first key it sorts before.
pub open spec fn spec_sorted_insert(
    k: Seq<char>,
    v: Seq<char>,
    ks: Seq<Seq<char>>,
    vs: Seq<Seq<char>>,
) -> (Seq<Seq<char>>, Seq<Seq<char>>)
    decreases ks.len(),
{
    if ks.len() == 0 {
        (seq![k], seq![v])
    } else if spec_lex_lt(k, ks[0]) {
        (seq![k] + ks, seq![v] + vs)
    } else {
        let rest = spec_sorted_insert(k, v, ks.drop_first(), vs.drop_first());
        (seq![ks[0]] + rest.0, seq![vs[0]] + rest.1)
    }
}

/// Where the scan stops is where the sorted insertion puts the entry.
proof fn lemma_sorted_insert_at(
    k: Seq<char>,
    v: Seq<char>,
    ks: Seq<Seq<char>>,
    vs: Seq<Seq<char>>,
    pos: int,
)
    requires
        ks.len() == vs.len(),
        0 <= pos <= ks.len(),
        forall|m: int| 0 <= m < pos ==> !spec_lex_lt(k, ks[m]),
        pos == ks.len() || spec_lex_lt(k, ks[pos]),
    ensures
        spec_sorted_insert(k, v, ks, vs).0 == ks.insert(pos, k),
        spec_sorted_insert(k, v, ks, vs).1 == vs.insert(pos, v),
    decreases ks.len(),
{
    if ks.len() == 0 {
        assert(spec_sorted_insert(k, v, ks, vs).0 =~= ks.insert(0, k));
        assert(spec_sorted_insert(k, v, ks, vs).1 =~= vs.insert(0, v));
    } else if spec_lex_lt(k, ks[0]) {
        assert(pos == 0);
        assert(seq![k] + ks =~= ks.insert(0, k));
        assert(seq![v] + vs =~= vs.insert(0, v));
    } else {
        assert(pos >= 1);
        assert(forall|m: int| 0 <= m < pos - 1 ==> ks.drop_first()[m] == ks[m + 1]);
        if pos < ks.len() {
            assert(ks.drop_first()[pos - 1] == ks[pos]);
        }
        lemma_sorted_insert_at(k, v, ks.drop_first(), vs.drop_first(), pos - 1);
        assert(seq![ks[0]] + ks.drop_first().insert(pos - 1, k) =~= ks.insert(pos, k));
        assert(seq![vs[0]] + vs.drop_first().insert(pos - 1, v) =~= vs.insert(pos, v));
    }
}

/// The entries sorted by key: each inserted in turn at its place.
pub open spec fn spec_sort_entries(keys: Seq<Seq<char>>, vals: Seq<Seq<char>>, i: int) -> (
    Seq<Seq<char>>,
    Seq<Seq<char>>,
)
    decreases i,
{
    if i <= 0 {
        (seq![], seq![])
    } else {
        let prev = spec_sort_entries(keys, vals, i - 1);
        spec_sorted_insert(keys[i - 1], vals[i - 1], prev.0, prev.1)
    }
}

/// One sorted `json` member line, with a comma on all but the last.
pub open spec fn spec_json_piece(k: Seq<char>, v: Seq<char>, last: bool) -> Seq<char> {
    "  \""@ + k + "\": "@ + spec_json_of(v) + (if last {
        Seq::<char>::empty()
    } else {
        ","@
    }) + "\n"@
}

/// The sorted `json` object text.
pub open spec fn spec_json_text(ks: Seq<Seq<char>>, vs: Seq<Seq<char>>) -> Seq<char> {
    "{\n"@ + spec_concat_pieces(
        Seq::new(ks.len(), |i: int| spec_json_piece(ks[i], vs[i], i == ks.len() - 1)),
    ) + "}\n"@
}

/// The text a mapping renders to for shell evaluation: `json` gives
/// the sorted object, `fish` and `powershell`/`ps1` their line forms,
/// and anything else (including `bash` and `sh`) the `bash` lines.
pub open spec fn spec_printenv(keys: Seq<Seq<char>>, vals: Seq<Seq<char>>, format: Seq<char>) -> Seq<
    char,
> {
    if format == "json"@ {
        let sorted = spec_sort_entries(keys, vals, keys.len() as int);
        spec_json_text(sorted.0, sorted.1)
    } else if format == "fish"@ {
        spec_lines_text(keys, vals, 1)
    } else if format == "powershell"@ || format == "ps1"@ {
        spec_lines_text(keys, vals, 2)
    } else {
        spec_lines_text(keys, vals, 0)
    }
}

/// Render the per-line formats.
fn print_lines(vars: &EnvMap, which: u8) -> (r: String)
    requires
        vars.wf(),
        which < 3,
    ensures
        r@ == spec_lines_text(vars.spec_keys(), vars.spec_vals(), which as int),
{
    let n = vars.len();
    let mut out: Vec<char> = Vec::new();
    let ghost mut pieces: Seq<Seq<char>> = Seq::empty();
    assert(spec_concat_pieces(pieces) =~= Seq::<char>::empty());
    assert(out@ =~= spec_concat_pieces(pieces));
    let mut i: usize = 0;
    while i < n
        invariant
            vars.wf(),
            which < 3,
            n == vars.spec_len(),
            i <= n,
            pieces.len() == i,
            forall|j: int|
                0 <= j < i ==> pieces[j] == (if which == 0 {
                    spec_bash_piece(vars.spec_keys()[j], vars.spec_vals()[j])
                } else if which == 1 {
                    spec_fish_piece(vars.spec_keys()[j], vars.spec_vals()[j])
                } else {
                    spec_powershell_piece(vars.spec_keys()[j], vars.spec_vals()[j])
                }),
            out@ == spec_concat_pieces(pieces),
        decreases n - i,
    {
        let key = vars.key_at(i);
        let value = vars.value_at(i);
        let vc = chars_of(value.as_str());
        let ghost out0 = out@;
        let ghost piece: Seq<char>;
        if which == 0 {
            push_str_chars(&mut out, "export ");
            push_str_chars(&mut out, key.as_str());
            push_str_chars(&mut out, "='");
            let rep = chars_of("'\\''");
            let escaped = replace_char(&vc, '\'', &rep);
            push_all(&mut out, &escaped);
            push_str_chars(&mut out, "'\n");
            proof {
                piece = spec_bash_piece(key@, value@);
                assert(out@ =~= out0 + piece);
            }
        } else if which == 1 {
            push_str_chars(&mut out, "set -gx ");
            push_str_chars(&mut out, key.as_str());
            push_str_chars(&mut out, " '");
            let rep = chars_of("\\'");
            let escaped = replace_char(&vc, '\'', &rep);
            push_all(&mut out, &escaped);
            push_str_chars(&mut out, "'\n");
            proof {
                piece = spec_fish_piece(key@, value@);
                assert(out@ =~= out0 + piece);
            }
        } else {
            push_str_chars(&mut out, "$env:");
            push_str_chars(&mut out, key.as_str());
            push_str_chars(&mut out, "=\"");
            let rep = chars_of("\"`\"");
            let escaped = replace_char(&vc, '"', &rep);
            push_all(&mut out, &escaped);
            push_str_chars(&mut out, "\"\n");
            proof {
                piece = spec_powershell_piece(key@, value@);
                assert(out@ =~= out0 + piece);
            }
        }
        proof {
            lemma_concat_push(pieces, piece);
            pieces = pieces.push(piece);
        }
        i = i + 1;
    }
    proof {
        assert(pieces =~= Seq::new(
            n as nat,
            |j: int|
                if which == 0 {
                    spec_bash_piece(vars.spec_keys()[j], vars.spec_vals()[j])
                } else if which == 1 {
                    spec_fish_piece(vars.spec_keys()[j], vars.spec_vals()[j])
                } else {
                    spec_powershell_piece(vars.spec_keys()[j], vars.spec_vals()[j])
                },
        ));
    }
    string_of(&out)
}

/// Render the sorted `json` object.
fn print_json(vars: &EnvMap) -> (r: String)
    requires
        vars.wf(),
    ensures
        r@ == ({
            let sorted = spec_sort_entries(
                vars.spec_keys(),
                vars.spec_vals(),
                vars.spec_len() as int,
            );
            spec_json_text(sorted.0, sorted.1)
        }),
{
    let n = vars.len();
    let mut sk: Vec<String> = Vec::new();
    let mut sv: Vec<String> = Vec::new();
    let mut i: usize = 0;
    while i < n
        invariant
            vars.wf(),
            n == vars.spec_len(),
            i <= n,
            sk.deep_view() == spec_sort_entries(
                vars.spec_keys(),
                vars.spec_vals(),
                i as int,
            ).0,
            sv.deep_view() == spec_sort_entries(
                vars.spec_keys(),
                vars.spec_vals(),
                i as int,
            ).1,
            sk@.len() == sv@.len(),
            forall|j: int| 0 <= j < sk@.len() ==> sk.deep_view()[j] == sk@[j]@,
            forall|j: int| 0 <= j < sv@.len() ==> sv.deep_view()[j] == sv@[j]@,
        decreases n - i,
    {
        let key = vars.key_at(i);
        let value = vars.value_at(i);
        let kc = chars_of(key.as_str());
        let m = sk.len();
        let mut pos: usize = 0;
        loop
            invariant
                m == sk@.len(),
                pos <= m,
                forall|j: int| 0 <= j < sk@.len() ==> sk.deep_view()[j] == sk@[j]@,
                kc@ == key@,
                forall|j: int| 0 <= j < pos ==> !spec_lex_lt(key@, sk.deep_view()[j]),
            ensures
                pos <= m,
                forall|j: int| 0 <= j < pos ==> !spec_lex_lt(key@, sk.deep_view()[j]),
                pos == m || spec_lex_lt(key@, sk.deep_view()[pos as int]),
            decreases m - pos,
        {
            if pos >= m {
                break ;
            }
            let entry = chars_of(sk[pos].as_str());
            if lex_lt(&kc, &entry) {
                break ;
            }
            pos = pos + 1;
        }
        let ghost ks0 = sk.deep_view();
        let ghost vs0 = sv.deep_view();
        sk.insert(pos, key);
        sv.insert(pos, value);
        proof {
            lemma_sorted_insert_at(key@, value@, ks0, vs0, pos as int);
            assert(sk.deep_view() =~~= ks0.insert(pos as int, key@));
            assert(sv.deep_view() =~~= vs0.insert(pos as int, value@));
        }
        i = i + 1;
    }
    let ghost sorted = spec_sort_entries(vars.spec_keys(), vars.spec_vals(), n as int);
    let count = sk.len();
    let mut out: Vec<char> = Vec::new();
    push_str_chars(&mut out, "{\n");
    let ghost mut pieces: Seq<Seq<char>> = Seq::empty();
    let ghost out_start = out@;
    assert(spec_concat_pieces(pieces) =~= Seq::<char>::empty());
    assert(out@ =~= out_start + spec_concat_pieces(pieces));
    let mut j: usize = 0;
    while j < count
        invariant
            count == sk@.len(),
            count == sv@.len(),
            sk.deep_view() == sorted.0,
            sv.deep_view() == sorted.1,
            forall|m: int| 0 <= m < sk@.len() ==> sk.deep_view()[m] == sk@[m]@,
            forall|m: int| 0 <= m < sv@.len() ==> sv.deep_view()[m] == sv@[m]@,
            j <= count,
            pieces.len() == j,
            forall|m: int|
                0 <= m < j ==> pieces[m] == spec_json_piece(
                    sorted.0[m],
                    sorted.1[m],
                    m == count - 1,
                ),
            out@ == out_start + spec_concat_pieces(pieces),
        decreases count - j,
    {
        let ghost out0 = out@;
        push_str_chars(&mut out, "  \"");
        push_str_chars(&mut out, sk[j].as_str());
        push_str_chars(&mut out, "\": ");
        let jv = json_string(sv[j].as_str());
        push_str_chars(&mut out, jv.as_str());
        if j + 1 < count {
            push_str_chars(&mut out, ",");
        }
        push_str_chars(&mut out, "\n");
        proof {
            let piece = spec_json_piece(sorted.0[j as int], sorted.1[j as int], j == count - 1);
            assert(out@ =~= out0 + piece);
            lemma_concat_push(pieces, piece);
            pieces = pieces.push(piece);
        }
        j = j + 1;
    }
    push_str_chars(&mut out, "}\n");
    proof {
        assert(pieces =~= Seq::new(
            sorted.0.len(),
            |m: int| spec_json_piece(sorted.0[m], sorted.1[m], m == sorted.0.len() - 1),
        ));
    }
    assert(out@ =~= spec_json_text(sorted.0, sorted.1));
    string_of(&out)
}

/// Render the mapping in the named output format.
pub fn printenv_command(vars: &EnvMap, format: &str) -> (r: String)
    requires
        vars.wf(),
    ensures
        r@ == spec_printenv(vars.spec_keys(), vars.spec_vals(), format@),
{
    let fc = chars_of(format);
    let json_name = chars_of("json");
    let fish_name = chars_of("fish");
    let ps_name = chars_of("powershell");
    let ps1_name = chars_of("ps1");
    if chars_eq(&fc, &json_name) {
        print_json(vars)
    } else if chars_eq(&fc, &fish_name) {
        print_lines(vars, 1)
    } else if chars_eq(&fc, &ps_name) || chars_eq(&fc, &ps1_name) {
        print_lines(vars, 2)
    } else {
        print_lines(vars, 0)
    }
}

} // verus!
