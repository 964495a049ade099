//! Private-key discovery: extraction of a `NAME=value` line from key
//! file text, and the precedence across the sources an operator may
//! supply (explicit keys file, sibling keys file, process environment).
use vstd::prelude::*;
use vstd::string::*;

use crate::errors::DotenvxError;
use crate::strutil::begins_with;
use crate::strutil::chars_of;
use crate::strutil::spec_lines;
use crate::strutil::spec_starts_with;
use crate::strutil::spec_trim;
use crate::strutil::split_lines;
use crate::strutil::string_of;
use crate::strutil::sub_chars;
use crate::strutil::trim_chars;

verus! {

/// A value with one matching pair of outer quotes removed.
pub open spec fn spec_simple_unquote(v: Seq<char>) -> Seq<char> {
    let t = spec_trim(v);
    if t.len() >= 2 && ((t[0] == '"' && t.last() == '"') || (t[0] == '\'' && t.last() == '\'')) {
        t.subrange(1, t.len() - 1)
    } else {
        t
    }
}

/// A value with one matching pair of outer quotes removed.
pub fn simple_unquote(v: &Vec<char>) -> (r: Vec<char>)
    ensures
        r@ == spec_simple_unquote(v@),
{
    let t = trim_chars(v);
    let n = t.len();
    if n >= 2 && ((t[0] == '"' && t[n - 1] == '"') || (t[0] == '\'' && t[n - 1] == '\'')) {
        sub_chars(&t, 1, n - 1)
    } else {
        t
    }
}

/// Whether a trimmed line assigns `key_name`.
pub open spec fn spec_key_line(line: Seq<char>, key_name: Seq<char>) -> bool {
    spec_starts_with(spec_trim(line), key_name + "="@)
}

/// The value of the first line assigning `key_name`, unquoted.
pub open spec fn spec_extract_key(lines: Seq<Seq<char>>, key_name: Seq<char>) -> Option<Seq<char>>
    decreases lines.len(),
{
    if lines.len() == 0 {
        None
    } else if spec_key_line(lines[0], key_name) {
        Some(spec_simple_unquote(spec_trim(lines[0]).skip(key_name.len() as int + 1)))
    } else {
        spec_extract_key(lines.drop_first(), key_name)
    }
}

/// Extraction looks only at the first matching line.
proof fn lemma_extract_skip(lines: Seq<Seq<char>>, key_name: Seq<char>, i: int)
    requires
        0 <= i <= lines.len(),
        forall|j: int| 0 <= j < i ==> !spec_key_line(lines[j], key_name),
    ensures
        spec_extract_key(lines, key_name) == spec_extract_key(lines.skip(i), key_name),
    decreases i,
{
    if i > 0 {
        assert(lines.drop_first() =~= lines.skip(1));
        lemma_extract_skip(lines.skip(1), key_name, i - 1);
        assert(lines.skip(1).skip(i - 1) =~= lines.skip(i));
    } else {
        assert(lines.skip(0) =~= lines);
    }
}

/// The value of the first line of `content` assigning `key_name`, with
/// outer quotes stripped; `None` when no line assigns it.
pub fn extract_key_from_content(content: &str, key_name: &str) -> (r: Option<String>)
    ensures
        match r {
            Some(v) => spec_extract_key(spec_lines(content@), key_name@) == Some(v@),
            None => spec_extract_key(spec_lines(content@), key_name@) is None,
        },
{
    let cs = chars_of(content);
    let lines = split_lines(&cs);
    let ghost ls = spec_lines(content@);
    assert forall|j: int| 0 <= j < lines@.len() implies lines@[j]@ == ls[j] by {
        assert(lines@[j].deep_view() =~= lines@[j]@);
        assert(lines.deep_view()[j] == lines@[j].deep_view());
    }
    let n = lines.len();
    assert(n == ls.len()) by {
        assert(lines.deep_view().len() == lines@.len());
    }
    let mut needle = chars_of(key_name);
    needle.push('=');
    assert(needle@ =~= key_name@ + "="@) by {
        reveal_strlit("=");
    }
    let mut i: usize = 0;
    while i < n
        invariant
            n == ls.len(),
            n == lines@.len(),
            ls == spec_lines(content@),
            needle@ == key_name@ + "="@,
            forall|j: int| 0 <= j < lines@.len() ==> lines@[j]@ == ls[j],
            i <= n,
            forall|j: int| 0 <= j < i ==> !spec_key_line(ls[j], key_name@),
        decreases n - i,
    {
        let trimmed = trim_chars(&lines[i]);
        if begins_with(&trimmed, &needle) {
            proof {
                lemma_extract_skip(ls, key_name@, i as int);
                assert(ls.skip(i as int)[0] == ls[i as int]);
                reveal_strlit("=");
            }
            let rest = sub_chars(&trimmed, needle.len(), trimmed.len());
            assert(rest@ =~= spec_trim(ls[i as int]).skip(key_name@.len() as int + 1));
            let value = simple_unquote(&rest);
            return Some(string_of(&value));
        }
        i = i + 1;
    }
    proof {
        lemma_extract_skip(ls, key_name@, n as int);
        assert(ls.skip(n as int) =~= Seq::<Seq<char>>::empty());
    }
    None
}

/// The resolved key across the sources, in precedence order: the
/// explicit keys file text, the sibling keys file text, then the
/// process environment value.
pub open spec fn spec_resolve(
    keys_content: Option<Seq<char>>,
    sibling_content: Option<Seq<char>>,
    env_value: Option<Seq<char>>,
    key_name: Seq<char>,
) -> Option<Seq<char>> {
    let from_keys = match keys_content {
        Some(c) => spec_extract_key(spec_lines(c), key_name),
        None => None,
    };
    if from_keys is Some {
        from_keys
    } else {
        let from_sibling = match sibling_content {
            Some(c) => spec_extract_key(spec_lines(c), key_name),
            None => None,
        };
        if from_sibling is Some {
            from_sibling
        } else {
            env_value
        }
    }
}

/// Resolve a private key: the explicit keys file wins, then the
/// sibling keys file, then the process environment; a total miss is
/// the missing-key error naming `key_name`.
pub fn resolve_private_key(
    keys_content: Option<&String>,
    sibling_content: Option<&String>,
    env_value: Option<&String>,
    key_name: &str,
) -> (r: Result<String, DotenvxError>)
    ensures
        match spec_resolve(
            match keys_content {
                Some(c) => Some(c@),
                None => None,
            },
            match sibling_content {
                Some(c) => Some(c@),
                None => None,
            },
            match env_value {
                Some(v) => Some(v@),
                None => None,
            },
            key_name@,
        ) {
            Some(v) => r is Ok && r->Ok_0@ == v,
            None => r is Err && (r->Err_0 matches DotenvxError::MissingPrivateKey {
                key_name: n,
            } && n@ == key_name@),
        },
{
    if let Some(c) = keys_content {
        if let Some(k) = extract_key_from_content(c.as_str(), key_name) {
            return Ok(k);
        }
    }
    if let Some(c) = sibling_content {
        if let Some(k) = extract_key_from_content(c.as_str(), key_name) {
            return Ok(k);
        }
    }
    if let Some(v) = env_value {
        return Ok(v.clone());
    }
    Err(DotenvxError::MissingPrivateKey { key_name: String::from_str(key_name) })
}

/// The text with every leading and trailing `c` removed.
pub open spec fn spec_trim_matches(s: Seq<char>, c: char) -> Seq<char> {
    spec_trim_char_back(spec_trim_char_front(s, c), c)
}

/// The text without its leading run of `c`.
pub open spec fn spec_trim_char_front(s: Seq<char>, c: char) -> Seq<char>
    decreases s.len(),
{
    if s.len() > 0 && s[0] == c {
        spec_trim_char_front(s.drop_first(), c)
    } else {
        s
    }
}

/// The text without its trailing run of `c`.
pub open spec fn spec_trim_char_back(s: Seq<char>, c: char) -> Seq<char>
    decreases s.len(),
{
    if s.len() > 0 && s.last() == c {
        spec_trim_char_back(s.drop_last(), c)
    } else {
        s
    }
}

/// The value of the first line assigning `DOTENV_PRIVATE_KEY`, with
/// any run of outer double quotes removed.
pub open spec fn spec_extract_private(lines: Seq<Seq<char>>) -> Option<Seq<char>>
    decreases lines.len(),
{
    if lines.len() == 0 {
        None
    } else if spec_starts_with(spec_trim(lines[0]), "DOTENV_PRIVATE_KEY="@) {
        Some(spec_trim_matches(spec_trim(lines[0]).skip("DOTENV_PRIVATE_KEY="@.len() as int), '"'))
    } else {
        spec_extract_private(lines.drop_first())
    }
}

/// Extraction looks only at the first matching line.
proof fn lemma_extract_private_skip(lines: Seq<Seq<char>>, i: int)
    requires
        0 <= i <= lines.len(),
        forall|j: int|
            0 <= j < i ==> !spec_starts_with(spec_trim(lines[j]), "DOTENV_PRIVATE_KEY="@),
    ensures
        spec_extract_private(lines) == spec_extract_private(lines.skip(i)),
    decreases i,
{
    if i > 0 {
        assert(lines.drop_first() =~= lines.skip(1));
        lemma_extract_private_skip(lines.skip(1), i - 1);
        assert(lines.skip(1).skip(i - 1) =~= lines.skip(i));
    } else {
        assert(lines.skip(0) =~= lines);
    }
}

/// The run of `c` at the start of `v`.
fn char_run_front(v: &Vec<char>, c: char) -> (a: usize)
    ensures
        a <= v@.len(),
        forall|j: int| 0 <= j < a ==> v@[j] == c,
        a == v@.len() || v@[a as int] != c,
{
    let n = v.len();
    let mut i: usize = 0;
    while i < n
        invariant
            n == v@.len(),
            i <= n,
            forall|j: int| 0 <= j < i ==> v@[j] == c,
        decreases n - i,
    {
        if v[i] != c {
            return i;
        }
        i = i + 1;
    }
    i
}

/// The start of the run of `c` at the end of `v`, at or after `a`.
fn char_run_back(v: &Vec<char>, a: usize, c: char) -> (b: usize)
    requires
        a <= v@.len(),
    ensures
        a <= b <= v@.len(),
        forall|j: int| b <= j < v@.len() ==> v@[j] == c,
        b == a || v@[b - 1] != c,
{
    let n = v.len();
    let mut i: usize = n;
    while i > a
        invariant
            n == v@.len(),
            a <= i <= n,
            forall|j: int| i <= j < n ==> v@[j] == c,
        decreases i,
    {
        if v[i - 1] != c {
            return i;
        }
        i = i - 1;
    }
    i
}

/// Dropping a leading run of `c` does not change the front trim.
proof fn lemma_trim_char_front_skip(s: Seq<char>, c: char, k: int)
    requires
        0 <= k <= s.len(),
        forall|j: int| 0 <= j < k ==> s[j] == c,
    ensures
        spec_trim_char_front(s, c) == spec_trim_char_front(s.skip(k), c),
    decreases k,
{
    if k > 0 {
        assert(s.drop_first() =~= s.skip(1));
        lemma_trim_char_front_skip(s.skip(1), c, k - 1);
        assert(s.skip(1).skip(k - 1) =~= s.skip(k));
    } else {
        assert(s.skip(0) =~= s);
    }
}

/// Dropping a trailing run of `c` does not change the back trim.
proof fn lemma_trim_char_back_take(s: Seq<char>, c: char, k: int)
    requires
        0 <= k <= s.len(),
        forall|j: int| k <= j < s.len() ==> s[j] == c,
    ensures
        spec_trim_char_back(s, c) == spec_trim_char_back(s.take(k), c),
    decreases s.len(),
{
    if s.len() > k {
        assert(s.drop_last() =~= s.take(s.len() - 1));
        lemma_trim_char_back_take(s.take(s.len() - 1), c, k);
        assert(s.take(s.len() - 1).take(k) =~= s.take(k));
    } else {
        assert(s.take(k) =~= s);
    }
}

/// `v` with every leading and trailing `c` removed.
pub fn trim_matches_char(v: &Vec<char>, c: char) -> (r: Vec<char>)
    ensures
        r@ == spec_trim_matches(v@, c),
{
    let a = char_run_front(v, c);
    proof {
        lemma_trim_char_front_skip(v@, c, a as int);
        if a < v.len() {
            assert(v@.skip(a as int)[0] == v@[a as int]);
        }
        assert(spec_trim_char_front(v@.skip(a as int), c) == v@.skip(a as int));
    }
    let b = char_run_back(v, a, c);
    let ghost t = v@.skip(a as int);
    proof {
        assert(forall|j: int| b - a <= j < t.len() ==> t[j] == c);
        lemma_trim_char_back_take(t, c, b - a);
        if b > a {
            assert(t.take(b - a).last() == v@[b - 1]);
        }
        assert(spec_trim_char_back(t.take(b - a), c) == t.take(b - a));
    }
    let r = sub_chars(v, a, b);
    assert(r@ =~= t.take(b - a));
    r
}

/// The value of the first line of `content` assigning
/// `DOTENV_PRIVATE_KEY`, with outer double quotes removed.
pub fn extract_key(content: &str) -> (r: Option<String>)
    ensures
        match r {
            Some(v) => spec_extract_private(spec_lines(content@)) == Some(v@),
            None => spec_extract_private(spec_lines(content@)) is None,
        },
{
    let cs = chars_of(content);
    let lines = split_lines(&cs);
    let ghost ls = spec_lines(content@);
    assert forall|j: int| 0 <= j < lines@.len() implies lines@[j]@ == ls[j] by {
        assert(lines@[j].deep_view() =~= lines@[j]@);
        assert(lines.deep_view()[j] == lines@[j].deep_view());
    }
    let n = lines.len();
    assert(n == ls.len()) by {
        assert(lines.deep_view().len() == lines@.len());
    }
    let needle = chars_of("DOTENV_PRIVATE_KEY=");
    let mut i: usize = 0;
    while i < n
        invariant
            n == ls.len(),
            n == lines@.len(),
            ls == spec_lines(content@),
            needle@ == "DOTENV_PRIVATE_KEY="@,
            forall|j: int| 0 <= j < lines@.len() ==> lines@[j]@ == ls[j],
            i <= n,
            forall|j: int|
                0 <= j < i ==> !spec_starts_with(spec_trim(ls[j]), "DOTENV_PRIVATE_KEY="@),
        decreases n - i,
    {
        let trimmed = trim_chars(&lines[i]);
        if begins_with(&trimmed, &needle) {
            proof {
                lemma_extract_private_skip(ls, i as int);
                assert(ls.skip(i as int)[0] == ls[i as int]);
                reveal_strlit("DOTENV_PRIVATE_KEY=");
            }
            let rest = sub_chars(&trimmed, needle.len(), trimmed.len());
            assert(rest@ =~= spec_trim(ls[i as int]).skip("DOTENV_PRIVATE_KEY="@.len() as int));
            let value = trim_matches_char(&rest, '"');
            return Some(string_of(&value));
        }
        i = i + 1;
    }
    proof {
        lemma_extract_private_skip(ls, n as int);
        assert(ls.skip(n as int) =~= Seq::<Seq<char>>::empty());
    }
    None
}

} // verus!
