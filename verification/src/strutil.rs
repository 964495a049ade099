//! Character-level text helpers: conversions between `String` and
//! `Vec<char>`, trimming, searching, and the line model shared by the
//! parser and the file rewriters.
use vstd::prelude::*;

verus! {

/// ASCII whitespace, the set trimmed at value and line edges.
pub open spec fn spec_is_space(c: char) -> bool {
    c == ' ' || c == '\t' || c == '\r' || c == '\n' || c == '\u{b}' || c == '\u{c}'
}

/// `s` without leading whitespace.
pub open spec fn spec_trim_front(s: Seq<char>) -> Seq<char>
    decreases s.len(),
{
    if s.len() > 0 && spec_is_space(s[0]) {
        spec_trim_front(s.drop_first())
    } else {
        s
    }
}

/// `s` without trailing whitespace.
pub open spec fn spec_trim_back(s: Seq<char>) -> Seq<char>
    decreases s.len(),
{
    if s.len() > 0 && spec_is_space(s.last()) {
        spec_trim_back(s.drop_last())
    } else {
        s
    }
}

/// `s` without leading or trailing whitespace.
pub open spec fn spec_trim(s: Seq<char>) -> Seq<char> {
    spec_trim_back(spec_trim_front(s))
}

/// Trimming the front never lengthens the text.
pub proof fn lemma_trim_front_len(s: Seq<char>)
    ensures
        spec_trim_front(s).len() <= s.len(),
    decreases s.len(),
{
    if s.len() > 0 && spec_is_space(s[0]) {
        lemma_trim_front_len(s.drop_first());
    }
}

/// Trimming the back never lengthens the text.
pub proof fn lemma_trim_back_len(s: Seq<char>)
    ensures
        spec_trim_back(s).len() <= s.len(),
    decreases s.len(),
{
    if s.len() > 0 && spec_is_space(s.last()) {
        lemma_trim_back_len(s.drop_last());
    }
}

/// Text with non-space ends trims to itself.
pub proof fn lemma_trim_id(s: Seq<char>)
    requires
        s.len() > 0,
        !spec_is_space(s[0]),
        !spec_is_space(s.last()),
    ensures
        spec_trim(s) == s,
{
}

/// Text that trims to itself has non-space ends.
pub proof fn lemma_trim_fixed_ends(s: Seq<char>)
    requires
        s.len() > 0,
        spec_trim(s) == s,
    ensures
        !spec_is_space(s[0]),
        !spec_is_space(s.last()),
{
    if spec_is_space(s[0]) {
        lemma_trim_front_len(s.drop_first());
        lemma_trim_back_len(spec_trim_front(s));
        assert(spec_trim(s).len() < s.len());
    }
    if spec_is_space(s.last()) {
        assert(spec_trim_front(s) == s);
        lemma_trim_back_len(s.drop_last());
        assert(spec_trim(s).len() < s.len());
    }
}

/// The front trim drops some prefix.
pub proof fn lemma_trim_front_is_skip(s: Seq<char>)
    ensures
        exists|a: int|
            0 <= a <= s.len() && #[trigger] s.skip(a) == spec_trim_front(s),
    decreases s.len(),
{
    if s.len() > 0 && spec_is_space(s[0]) {
        lemma_trim_front_is_skip(s.drop_first());
        let a0 = choose|a: int|
            0 <= a <= s.drop_first().len() && #[trigger] s.drop_first().skip(a) == spec_trim_front(
                s.drop_first(),
            );
        assert(s.skip(a0 + 1) =~= s.drop_first().skip(a0));
    } else {
        assert(s.skip(0) =~= s);
    }
}

/// The back trim keeps some prefix.
pub proof fn lemma_trim_back_is_take(s: Seq<char>)
    ensures
        exists|m: int|
            0 <= m <= s.len() && #[trigger] s.take(m) == spec_trim_back(s),
    decreases s.len(),
{
    if s.len() > 0 && spec_is_space(s.last()) {
        lemma_trim_back_is_take(s.drop_last());
        let m0 = choose|m: int|
            0 <= m <= s.drop_last().len() && #[trigger] s.drop_last().take(m) == spec_trim_back(
                s.drop_last(),
            );
        assert(s.take(m0) =~= s.drop_last().take(m0));
    } else {
        assert(s.take(s.len() as int) =~= s);
    }
}

/// A non-empty front trim begins with a non-space character.
pub proof fn lemma_trim_front_first(s: Seq<char>)
    ensures
        spec_trim_front(s).len() > 0 ==> !spec_is_space(spec_trim_front(s)[0]),
    decreases s.len(),
{
    if s.len() > 0 && spec_is_space(s[0]) {
        lemma_trim_front_first(s.drop_first());
    }
}

/// A non-empty back trim ends with a non-space character.
pub proof fn lemma_trim_back_last(s: Seq<char>)
    ensures
        spec_trim_back(s).len() > 0 ==> !spec_is_space(spec_trim_back(s).last()),
    decreases s.len(),
{
    if s.len() > 0 && spec_is_space(s.last()) {
        lemma_trim_back_last(s.drop_last());
    }
}

/// A non-empty trim has non-space ends, so trimming is idempotent, and
/// the trim is a contiguous part of the text.
pub proof fn lemma_trim_parts(s: Seq<char>)
    ensures
        spec_trim(spec_trim(s)) == spec_trim(s),
        spec_trim(s).len() > 0 ==> !spec_is_space(spec_trim(s)[0]) && !spec_is_space(
            spec_trim(s).last(),
        ),
        exists|a: int, b: int|
            0 <= a <= b <= s.len() && #[trigger] s.subrange(a, b) == spec_trim(s),
{
    let f = spec_trim_front(s);
    let t = spec_trim(s);
    lemma_trim_front_is_skip(s);
    lemma_trim_back_is_take(f);
    lemma_trim_front_first(s);
    lemma_trim_back_last(f);
    let a = choose|a: int| 0 <= a <= s.len() && #[trigger] s.skip(a) == f;
    let m = choose|m: int| 0 <= m <= f.len() && #[trigger] f.take(m) == t;
    assert(s.subrange(a, a + m) =~= f.take(m));
    if t.len() > 0 {
        assert(t[0] == f[0]);
        lemma_trim_id(t);
    } else {
        assert(spec_trim(Seq::<char>::empty()) =~= Seq::<char>::empty());
    }
}

/// The position of the first occurrence of `c` in `s`, if any.
pub open spec fn spec_index_of(s: Seq<char>, c: char) -> Option<nat>
    decreases s.len(),
{
    if s.len() == 0 {
        None
    } else if s[0] == c {
        Some(0nat)
    } else {
        match spec_index_of(s.drop_first(), c) {
            Some(i) => Some((i + 1) as nat),
            None => None,
        }
    }
}

/// What `spec_index_of` returns: the least position holding `c`.
pub proof fn lemma_index_of_props(s: Seq<char>, c: char)
    ensures
        match spec_index_of(s, c) {
            Some(i) => i < s.len() && s[i as int] == c && forall|j: int| 0 <= j < i ==> s[j] != c,
            None => forall|j: int| 0 <= j < s.len() ==> s[j] != c,
        },
    decreases s.len(),
{
    if s.len() > 0 && s[0] != c {
        let t = s.drop_first();
        lemma_index_of_props(t, c);
        assert(forall|j: int| 1 <= j < s.len() ==> s[j] == t[j - 1]);
        match spec_index_of(t, c) {
            Some(i) => {
                assert(spec_index_of(s, c) == Some((i + 1) as nat));
                assert(s[i as int + 1] == t[i as int]);
                assert(forall|j: int| 0 <= j < i + 1 ==> s[j] != c) by {
                    assert(forall|j: int| 1 <= j < i + 1 ==> s[j] == t[j - 1] && t[j - 1] != c);
                }
            },
            None => {
                assert(forall|j: int| 1 <= j < s.len() ==> s[j] == t[j - 1] && t[j - 1] != c);
            },
        }
    }
}

/// `p` occurs in `s` at position `i`.
pub open spec fn spec_match_at(s: Seq<char>, i: int, p: Seq<char>) -> bool {
    0 <= i && i + p.len() <= s.len() && s.subrange(i, i + p.len()) == p
}

/// `s` begins with `p`.
pub open spec fn spec_starts_with(s: Seq<char>, p: Seq<char>) -> bool {
    spec_match_at(s, 0, p)
}

/// A line with one trailing carriage return removed.
pub open spec fn spec_strip_cr(l: Seq<char>) -> Seq<char> {
    if l.len() > 0 && l.last() == '\r' {
        l.drop_last()
    } else {
        l
    }
}

/// The line model: text split at `'\n'`, each line stripped of one
/// trailing `'\r'`, and nothing emitted after a final newline.
/// `cur` is the part of the current line already seen.
pub open spec fn spec_lines_acc(cur: Seq<char>, rest: Seq<char>) -> Seq<Seq<char>>
    decreases rest.len(),
{
    if rest.len() == 0 {
        if cur.len() == 0 {
            seq![]
        } else {
            seq![spec_strip_cr(cur)]
        }
    } else if rest[0] == '\n' {
        seq![spec_strip_cr(cur)] + spec_lines_acc(seq![], rest.drop_first())
    } else {
        spec_lines_acc(cur.push(rest[0]), rest.drop_first())
    }
}

/// The lines of `s`.
pub open spec fn spec_lines(s: Seq<char>) -> Seq<Seq<char>> {
    spec_lines_acc(seq![], s)
}

/// Relies on `String::push`: appends one character.
#[verifier::external_body]
pub(crate) fn push_char(s: &mut String, c: char)
    ensures
        final(s)@ == old(s)@.push(c),
{
    s.push(c);
}

/// The characters of a string slice, in order.
pub fn chars_of(s: &str) -> (r: Vec<char>)
    ensures
        r@ == s@,
{
    let n = s.unicode_len();
    let mut r: Vec<char> = Vec::new();
    let mut i: usize = 0;
    while i < n
        invariant
            n == s@.len(),
            i <= n,
            r@ =~= s@.take(i as int),
        decreases n - i,
    {
        r.push(s.get_char(i));
        i = i + 1;
    }
    assert(s@.take(n as int) =~= s@);
    r
}

/// The string holding exactly the characters of `v`.
pub fn string_of(v: &Vec<char>) -> (r: String)
    ensures
        r@ == v@,
{
    let mut r = String::new();
    let n = v.len();
    let mut i: usize = 0;
    while i < n
        invariant
            n == v@.len(),
            i <= n,
            r@ =~= v@.take(i as int),
        decreases n - i,
    {
        push_char(&mut r, v[i]);
        i = i + 1;
    }
    assert(v@.take(n as int) =~= v@);
    r
}

/// Whether `c` is trimmed whitespace.
pub fn is_space(c: char) -> (r: bool)
    ensures
        r == spec_is_space(c),
{
    c == ' ' || c == '\t' || c == '\r' || c == '\n' || c == '\u{b}' || c == '\u{c}'
}

/// Dropping an all-space prefix does not change the trimmed front.
proof fn lemma_trim_front_skip(s: Seq<char>, k: int)
    requires
        0 <= k <= s.len(),
        forall|j: int| 0 <= j < k ==> spec_is_space(s[j]),
    ensures
        spec_trim_front(s) == spec_trim_front(s.skip(k)),
    decreases k,
{
    if k > 0 {
        assert(s.drop_first() =~= s.skip(1));
        lemma_trim_front_skip(s.skip(1), k - 1);
        assert(s.skip(1).skip(k - 1) =~= s.skip(k));
    } else {
        assert(s.skip(0) =~= s);
    }
}

/// Dropping an all-space suffix does not change the trimmed back.
proof fn lemma_trim_back_take(s: Seq<char>, k: int)
    requires
        0 <= k <= s.len(),
        forall|j: int| k <= j < s.len() ==> spec_is_space(s[j]),
    ensures
        spec_trim_back(s) == spec_trim_back(s.take(k)),
    decreases s.len(),
{
    if s.len() > k {
        assert(spec_is_space(s.last()));
        assert(s.drop_last() =~= s.take(s.len() - 1));
        lemma_trim_back_take(s.take(s.len() - 1), k);
        assert(s.take(s.len() - 1).take(k) =~= s.take(k));
    } else {
        assert(s.take(k) =~= s);
    }
}

/// The count of leading whitespace characters of `v`.
fn space_prefix_len(v: &Vec<char>) -> (a: usize)
    ensures
        a <= v@.len(),
        forall|j: int| 0 <= j < a ==> spec_is_space(v@[j]),
        a == v@.len() || !spec_is_space(v@[a as int]),
{
    let n = v.len();
    let mut i: usize = 0;
    while i < n
        invariant
            n == v@.len(),
            i <= n,
            forall|j: int| 0 <= j < i ==> spec_is_space(v@[j]),
        decreases n - i,
    {
        if !is_space(v[i]) {
            return i;
        }
        i = i + 1;
    }
    i
}

/// The end of `v` once trailing whitespace at or after `a` is dropped.
fn space_suffix_start(v: &Vec<char>, a: usize) -> (b: usize)
    requires
        a <= v@.len(),
    ensures
        a <= b <= v@.len(),
        forall|j: int| b <= j < v@.len() ==> spec_is_space(v@[j]),
        b == a || !spec_is_space(v@[b - 1]),
{
    let n = v.len();
    let mut i: usize = n;
    while i > a
        invariant
            n == v@.len(),
            a <= i <= n,
            forall|j: int| i <= j < n ==> spec_is_space(v@[j]),
        decreases i,
    {
        if !is_space(v[i - 1]) {
            return i;
        }
        i = i - 1;
    }
    i
}

/// `v` without leading or trailing whitespace.
pub fn trim_chars(v: &Vec<char>) -> (r: Vec<char>)
    ensures
        r@ == spec_trim(v@),
{
    let n = v.len();
    let a = space_prefix_len(v);
    proof {
        lemma_trim_front_skip(v@, a as int);
        if a < n {
            assert(v@.skip(a as int)[0] == v@[a as int]);
        }
        assert(spec_trim_front(v@.skip(a as int)) == v@.skip(a as int));
    }
    let b = space_suffix_start(v, a);
    let ghost t = v@.skip(a as int);
    proof {
        assert(forall|j: int| b - a <= j < t.len() ==> spec_is_space(t[j]));
        lemma_trim_back_take(t, b - a);
        if b > a {
            assert(t.take(b - a).last() == v@[b - 1]);
        }
        assert(spec_trim_back(t.take(b - a)) == t.take(b - a));
    }
    let mut r: Vec<char> = Vec::new();
    let mut i: usize = a;
    while i < b
        invariant
            a <= i <= b <= n,
            n == v@.len(),
            r@ =~= v@.subrange(a as int, i as int),
        decreases b - i,
    {
        r.push(v[i]);
        i = i + 1;
    }
    assert(r@ =~= t.take(b - a));
    r
}

/// First occurrence of `c` in `v` at or after nothing (from the start).
pub fn find_char(v: &Vec<char>, c: char) -> (r: Option<usize>)
    ensures
        match r {
            Some(i) => spec_index_of(v@, c) == Some(i as nat),
            None => spec_index_of(v@, c) is None,
        },
{
    let n = v.len();
    let mut i: usize = 0;
    while i < n
        invariant
            n == v@.len(),
            i <= n,
            forall|j: int| 0 <= j < i ==> v@[j] != c,
        decreases n - i,
    {
        if v[i] == c {
            proof {
                lemma_index_of_props(v@, c);
            }
            return Some(i);
        }
        i = i + 1;
    }
    proof {
        lemma_index_of_props(v@, c);
    }
    None
}

/// First occurrence of `c` in `v` at or after `from`.
pub fn find_char_from(v: &Vec<char>, from: usize, c: char) -> (r: Option<usize>)
    requires
        from <= v@.len(),
    ensures
        match r {
            Some(i) => from <= i < v@.len() && spec_index_of(v@.skip(from as int), c) == Some(
                (i - from) as nat,
            ),
            None => spec_index_of(v@.skip(from as int), c) is None,
        },
{
    let n = v.len();
    let ghost t = v@.skip(from as int);
    assert(forall|j: int| 0 <= j < t.len() ==> t[j] == v@[from + j]);
    let mut i: usize = from;
    while i < n
        invariant
            n == v@.len(),
            from <= i <= n,
            t == v@.skip(from as int),
            forall|j: int| 0 <= j < t.len() ==> t[j] == v@[from + j],
            forall|j: int| from <= j < i ==> v@[j] != c,
        decreases n - i,
    {
        if v[i] == c {
            proof {
                lemma_index_of_props(t, c);
                assert(t[i - from] == c);
                assert(forall|j: int| 0 <= j < i - from ==> t[j] != c);
            }
            return Some(i);
        }
        i = i + 1;
    }
    proof {
        lemma_index_of_props(t, c);
    }
    None
}

/// Appends all of `add` to `out`.
pub fn push_all(out: &mut Vec<char>, add: &Vec<char>)
    ensures
        final(out)@ == old(out)@ + add@,
{
    let n = add.len();
    let mut i: usize = 0;
    while i < n
        invariant
            n == add@.len(),
            i <= n,
            out@ =~= old(out)@ + add@.take(i as int),
        decreases n - i,
    {
        out.push(add[i]);
        i = i + 1;
    }
    assert(out@ =~= old(out)@ + add@);
}

/// Whether `p` occurs in `v` at position `i`.
pub fn match_at(v: &Vec<char>, i: usize, p: &Vec<char>) -> (r: bool)
    ensures
        r == spec_match_at(v@, i as int, p@),
{
    let m = p.len();
    let n = v.len();
    if i > n || m > n - i {
        return false;
    }
    let mut k: usize = 0;
    while k < m
        invariant
            m == p@.len(),
            n == v@.len(),
            i + m <= n,
            k <= m,
            forall|j: int| 0 <= j < k ==> v@[i + j] == p@[j],
        decreases m - k,
    {
        if v[i + k] != p[k] {
            assert(v@.subrange(i as int, i + m) != p@) by {
                assert(v@.subrange(i as int, i + m)[k as int] != p@[k as int]);
            }
            return false;
        }
        k = k + 1;
    }
    assert(v@.subrange(i as int, i + m) =~= p@);
    true
}

/// `p` occurs somewhere in `s`.
pub open spec fn spec_has_sub(s: Seq<char>, p: Seq<char>) -> bool {
    exists|i: int| spec_match_at(s, i, p)
}

/// Whether `p` occurs somewhere in `v`.
pub fn contains_sub(v: &Vec<char>, p: &Vec<char>) -> (r: bool)
    ensures
        r == spec_has_sub(v@, p@),
{
    let n = v.len();
    let mut i: usize = 0;
    loop
        invariant
            n == v@.len(),
            i <= n,
            forall|j: int| 0 <= j < i ==> !spec_match_at(v@, j, p@),
        ensures
            forall|j: int| 0 <= j <= n ==> !spec_match_at(v@, j, p@),
        decreases n - i,
    {
        if match_at(v, i, p) {
            return true;
        }
        if i == n {
            break;
        }
        i = i + 1;
    }
    false
}

/// The pieces joined in order.
pub open spec fn spec_concat_pieces(pieces: Seq<Seq<char>>) -> Seq<char>
    decreases pieces.len(),
{
    if pieces.len() == 0 {
        seq![]
    } else {
        pieces[0] + spec_concat_pieces(pieces.drop_first())
    }
}

/// Joining one more piece appends it.
pub proof fn lemma_concat_push(pieces: Seq<Seq<char>>, p: Seq<char>)
    ensures
        spec_concat_pieces(pieces.push(p)) == spec_concat_pieces(pieces) + p,
    decreases pieces.len(),
{
    if pieces.len() == 0 {
        assert(pieces.push(p)[0] == p);
        assert(pieces.push(p).drop_first() =~= Seq::<Seq<char>>::empty());
        assert(spec_concat_pieces(Seq::<Seq<char>>::empty()) == Seq::<char>::empty());
        assert(spec_concat_pieces(pieces.push(p)) == p + Seq::<char>::empty());
        assert(p + Seq::<char>::empty() =~= p);
        assert(spec_concat_pieces(pieces) + p =~= p);
    } else {
        assert(pieces.push(p).drop_first() =~= pieces.drop_first().push(p));
        lemma_concat_push(pieces.drop_first(), p);
        assert(pieces.push(p)[0] == pieces[0]);
        assert(pieces[0] + (spec_concat_pieces(pieces.drop_first()) + p) =~= (pieces[0]
            + spec_concat_pieces(pieces.drop_first())) + p);
    }
}

/// Each piece stands whole inside the joined text.
pub proof fn lemma_concat_contains(pieces: Seq<Seq<char>>, j: int)
    requires
        0 <= j < pieces.len(),
    ensures
        exists|a: int, b: int|
            0 <= a <= b <= spec_concat_pieces(pieces).len() && b - a == pieces[j].len()
                && #[trigger] spec_concat_pieces(pieces).subrange(a, b) == pieces[j],
    decreases j,
{
    let whole = spec_concat_pieces(pieces);
    if j == 0 {
        assert(whole == pieces[0] + spec_concat_pieces(pieces.drop_first()));
        assert(whole.subrange(0, pieces[0].len() as int) =~= pieces[0]);
    } else {
        let t = pieces.drop_first();
        lemma_concat_contains(t, j - 1);
        let (a0, b0): (int, int) = choose|a: int, b: int|
            0 <= a <= b <= spec_concat_pieces(t).len() && b - a == t[j - 1].len()
                && #[trigger] spec_concat_pieces(t).subrange(a, b) == t[j - 1];
        let a = a0 + pieces[0].len();
        let b = b0 + pieces[0].len();
        assert(t[j - 1] == pieces[j]);
        assert(whole == pieces[0] + spec_concat_pieces(t));
        assert(whole.subrange(a, b) =~= spec_concat_pieces(t).subrange(a0, b0));
    }
}

/// Appends the characters of `s` to `out`.
pub fn push_str_chars(out: &mut Vec<char>, s: &str)
    ensures
        final(out)@ == old(out)@ + s@,
{
    let cs = chars_of(s);
    push_all(out, &cs);
}

/// Whether `v` begins with `p`.
pub fn begins_with(v: &Vec<char>, p: &Vec<char>) -> (r: bool)
    ensures
        r == spec_starts_with(v@, p@),
{
    match_at(v, 0, p)
}

/// The bytes of `v` from `a` (inclusive) to `b` (exclusive).
pub fn sub_bytes(v: &Vec<u8>, a: usize, b: usize) -> (r: Vec<u8>)
    requires
        a <= b <= v@.len(),
    ensures
        r@ == v@.subrange(a as int, b as int),
{
    let mut r: Vec<u8> = Vec::new();
    let mut i: usize = a;
    while i < b
        invariant
            a <= i <= b <= v@.len(),
            r@ =~= v@.subrange(a as int, i as int),
        decreases b - i,
    {
        r.push(v[i]);
        i = i + 1;
    }
    r
}

/// The characters of `v` from `a` (inclusive) to `b` (exclusive).
pub fn sub_chars(v: &Vec<char>, a: usize, b: usize) -> (r: Vec<char>)
    requires
        a <= b <= v@.len(),
    ensures
        r@ == v@.subrange(a as int, b as int),
{
    let mut r: Vec<char> = Vec::new();
    let mut i: usize = a;
    while i < b
        invariant
            a <= i <= b <= v@.len(),
            r@ =~= v@.subrange(a as int, i as int),
        decreases b - i,
    {
        r.push(v[i]);
        i = i + 1;
    }
    r
}

/// Whether `a` and `b` hold the same characters.
pub fn chars_eq(a: &Vec<char>, b: &Vec<char>) -> (r: bool)
    ensures
        r == (a@ == b@),
{
    if a.len() != b.len() {
        return false;
    }
    let n = a.len();
    let mut i: usize = 0;
    while i < n
        invariant
            n == a@.len() == b@.len(),
            i <= n,
            forall|j: int| 0 <= j < i ==> a@[j] == b@[j],
        decreases n - i,
    {
        if a[i] != b[i] {
            return false;
        }
        i = i + 1;
    }
    assert(a@ =~= b@);
    true
}

/// A line with one trailing carriage return removed.
fn strip_cr(l: Vec<char>) -> (r: Vec<char>)
    ensures
        r@ == spec_strip_cr(l@),
{
    let ghost l0 = l@;
    let mut l = l;
    if l.len() > 0 && l[l.len() - 1] == '\r' {
        l.pop();
        assert(l@ =~= l0.drop_last());
    }
    l
}

/// The lines of `v`, per the line model.
pub fn split_lines(v: &Vec<char>) -> (r: Vec<Vec<char>>)
    ensures
        r.deep_view() == spec_lines(v@),
{
    let n = v.len();
    let mut out: Vec<Vec<char>> = Vec::new();
    let mut cur: Vec<char> = Vec::new();
    assert(v@.skip(0) =~= v@);
    let mut i: usize = 0;
    while i < n
        invariant
            n == v@.len(),
            i <= n,
            spec_lines(v@) =~~= out.deep_view() + spec_lines_acc(cur@, v@.skip(i as int)),
        decreases n - i,
    {
        let c = v[i];
        assert(v@.skip(i as int)[0] == c);
        assert(v@.skip(i as int).drop_first() =~= v@.skip(i + 1));
        if c == '\n' {
            let ghost d0 = out.deep_view();
            let ghost cur0 = cur@;
            let done = strip_cr(cur);
            out.push(done);
            cur = Vec::new();
            assert(out.deep_view() =~~= d0.push(spec_strip_cr(cur0)));
            assert(out.deep_view() + spec_lines_acc(cur@, v@.skip(i + 1)) =~~= d0 + (seq![
                spec_strip_cr(cur0),
            ] + spec_lines_acc(cur@, v@.skip(i + 1))));
        } else {
            cur.push(c);
        }
        i = i + 1;
    }
    assert(v@.skip(n as int) =~= Seq::<char>::empty());
    if cur.len() > 0 {
        let ghost d0 = out.deep_view();
        let ghost cur0 = cur@;
        let done = strip_cr(cur);
        out.push(done);
        assert(out.deep_view() =~~= d0.push(spec_strip_cr(cur0)));
    }
    out
}

} // verus!
