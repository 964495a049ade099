//! The line-oriented parser of `.env` text: comments and blank lines
//! are skipped, `export` prefixes recognized, the first `=` splits key
//! from value, and quoted values are decoded.
use vstd::prelude::*;
use vstd::string::*;

use crate::envmap::EnvMap;
use crate::errors::DotenvxError;
use crate::expansion::expand_variables;
use crate::expansion::spec_expand;
use crate::substitution::find_commands;
use crate::substitution::spec_commands_from;
use crate::substitution::spec_splice;
use crate::substitution::substitute_commands;
use crate::strutil::chars_of;
use crate::strutil::find_char;
use crate::strutil::lemma_index_of_props;
use crate::strutil::spec_index_of;
use crate::strutil::spec_lines;
use crate::strutil::spec_starts_with;
use crate::strutil::spec_trim;
use crate::strutil::split_lines;
use crate::strutil::string_of;
use crate::strutil::sub_chars;
use crate::strutil::trim_chars;

verus! {

/// What a line means to the parser.
pub enum SpecLine {
    /// Blank or comment: no effect.
    Skip,
    /// An assignment of a decoded value to a key.
    Pair(Seq<char>, Seq<char>),
    /// No `=` outside a comment.
    MissingEq,
    /// Nothing but whitespace left of the `=`.
    EmptyKey,
}

/// The decoding of escape sequences inside a double-quoted value:
/// `\n \r \t \\ \" \'` map to their characters, any other escaped
/// character stays with its backslash, and a trailing backslash stays.
pub open spec fn spec_unescape(s: Seq<char>) -> Seq<char>
    decreases s.len(),
{
    if s.len() == 0 {
        seq![]
    } else if s[0] == '\\' {
        if s.len() == 1 {
            seq!['\\']
        } else {
            let c = s[1];
            let m: Seq<char> = if c == 'n' {
                seq!['\n']
            } else if c == 'r' {
                seq!['\r']
            } else if c == 't' {
                seq!['\t']
            } else if c == '\\' {
                seq!['\\']
            } else if c == '"' {
                seq!['"']
            } else if c == '\'' {
                seq!['\'']
            } else {
                seq!['\\', c]
            };
            m + spec_unescape(s.skip(2))
        }
    } else {
        seq![s[0]] + spec_unescape(s.skip(1))
    }
}

/// The decoded form of a (trimmed) raw value: single quotes keep the
/// inner text, double quotes unescape it, backticks defer to command
/// substitution in the `$(...)` form, anything else stays as is.
pub open spec fn spec_parse_value(v: Seq<char>) -> Seq<char> {
    if v.len() == 0 {
        v
    } else if v.len() >= 2 && v[0] == '\'' && v.last() == '\'' {
        v.subrange(1, v.len() - 1)
    } else if v.len() >= 2 && v[0] == '"' && v.last() == '"' {
        spec_unescape(v.subrange(1, v.len() - 1))
    } else if v.len() >= 2 && v[0] == '`' && v.last() == '`' {
        seq!['$', '('] + v.subrange(1, v.len() - 1) + seq![')']
    } else {
        v
    }
}

/// The classification of one line.
pub open spec fn spec_classify(line: Seq<char>) -> SpecLine {
    let t = spec_trim(line);
    if t.len() == 0 || t[0] == '#' {
        SpecLine::Skip
    } else {
        let lc = if spec_starts_with(t, "export "@) {
            t.skip(7)
        } else {
            t
        };
        match spec_index_of(lc, '=') {
            None => SpecLine::MissingEq,
            Some(e) => {
                let key = spec_trim(lc.take(e as int));
                let raw = spec_trim(lc.skip(e as int + 1));
                if key.len() == 0 {
                    SpecLine::EmptyKey
                } else {
                    SpecLine::Pair(key, spec_parse_value(raw))
                }
            },
        }
    }
}

/// Whether a line is rejected by the parser.
pub open spec fn spec_line_bad(line: Seq<char>) -> bool {
    spec_classify(line) is MissingEq || spec_classify(line) is EmptyKey
}

/// The position of the first rejected line, if any.
pub open spec fn spec_error_at(lines: Seq<Seq<char>>) -> Option<nat>
    decreases lines.len(),
{
    if lines.len() == 0 {
        None
    } else if spec_line_bad(lines[0]) {
        Some(0nat)
    } else {
        match spec_error_at(lines.drop_first()) {
            Some(i) => Some((i + 1) as nat),
            None => None,
        }
    }
}

/// What `spec_error_at` returns: the least rejected position.
pub proof fn lemma_error_at_props(lines: Seq<Seq<char>>)
    ensures
        match spec_error_at(lines) {
            Some(i) => i < lines.len() && spec_line_bad(lines[i as int]) && forall|j: int|
                0 <= j < i ==> !spec_line_bad(lines[j]),
            None => forall|j: int| 0 <= j < lines.len() ==> !spec_line_bad(lines[j]),
        },
    decreases lines.len(),
{
    if lines.len() > 0 && !spec_line_bad(lines[0]) {
        let t = lines.drop_first();
        lemma_error_at_props(t);
        assert(forall|j: int| 1 <= j < lines.len() ==> lines[j] == t[j - 1]);
        match spec_error_at(t) {
            Some(i) => {
                assert(lines[i as int + 1] == t[i as int]);
                assert(forall|j: int|
                    1 <= j < i + 1 ==> lines[j] == t[j - 1] && !spec_line_bad(t[j - 1]));
            },
            None => {
                assert(forall|j: int|
                    1 <= j < lines.len() ==> lines[j] == t[j - 1] && !spec_line_bad(t[j - 1]));
            },
        }
    }
}

/// The value the lines give to `k`: the last assignment wins.
pub open spec fn spec_value_in(lines: Seq<Seq<char>>, k: Seq<char>) -> Option<Seq<char>>
    decreases lines.len(),
{
    if lines.len() == 0 {
        None
    } else {
        match spec_classify(lines.last()) {
            SpecLine::Pair(k2, v) => if k2 == k {
                Some(v)
            } else {
                spec_value_in(lines.drop_last(), k)
            },
            _ => spec_value_in(lines.drop_last(), k),
        }
    }
}

/// The keys after parsing the lines on top of `keys0`: a new key is
/// appended at its first assignment; later assignments keep its place.
pub open spec fn spec_keys_after(keys0: Seq<Seq<char>>, lines: Seq<Seq<char>>) -> Seq<Seq<char>>
    decreases lines.len(),
{
    if lines.len() == 0 {
        keys0
    } else {
        let prev = spec_keys_after(keys0, lines.drop_last());
        match spec_classify(lines.last()) {
            SpecLine::Pair(k, v) => if prev.contains(k) {
                prev
            } else {
                prev.push(k)
            },
            _ => prev,
        }
    }
}

/// Every key the lines add is assigned a value by them.
pub proof fn lemma_keys_after_in_lines(keys0: Seq<Seq<char>>, lines: Seq<Seq<char>>)
    ensures
        forall|x: Seq<char>|
            #[trigger] spec_keys_after(keys0, lines).contains(x) ==> keys0.contains(x)
                || spec_value_in(lines, x) is Some,
    decreases lines.len(),
{
    if lines.len() > 0 {
        let prev = spec_keys_after(keys0, lines.drop_last());
        lemma_keys_after_in_lines(keys0, lines.drop_last());
        assert forall|x: Seq<char>|
            #[trigger] spec_keys_after(keys0, lines).contains(x) implies keys0.contains(x)
            || spec_value_in(lines, x) is Some by {
            match spec_classify(lines.last()) {
                SpecLine::Pair(k, v) => {
                    if x == k {
                        assert(spec_value_in(lines, x) == Some(v));
                    } else {
                        assert(prev.contains(x)) by {
                            if !prev.contains(x) {
                                assert(spec_keys_after(keys0, lines) == prev.push(k));
                                let w = choose|w: int|
                                    0 <= w < prev.push(k).len() && prev.push(k)[w] == x;
                                assert(prev.push(k)[w] == x);
                                if w < prev.len() {
                                    assert(prev[w] == x);
                                }
                            }
                        }
                    }
                },
                _ => {
                    assert(prev.contains(x));
                },
            }
        }
    }
}

/// The message of each parse error.
pub open spec fn spec_parse_err_msg(c: SpecLine) -> Seq<char> {
    if c is MissingEq {
        "Missing '=' in variable assignment"@
    } else {
        "Empty variable name"@
    }
}

/// The decoding of escape sequences inside a double-quoted value.
fn unescape(s: &Vec<char>) -> (r: Vec<char>)
    ensures
        r@ == spec_unescape(s@),
{
    let n = s.len();
    let mut out: Vec<char> = Vec::new();
    assert(s@.skip(0) == s@);
    let mut i: usize = 0;
    while i < n
        invariant
            n == s@.len(),
            i <= n,
            spec_unescape(s@) =~= out@ + spec_unescape(s@.skip(i as int)),
        decreases n - i,
    {
        let ghost rest = s@.skip(i as int);
        assert(rest[0] == s@[i as int]);
        let c = s[i];
        if c == '\\' {
            if i + 1 == n {
                out.push('\\');
                assert(s@.skip(i as int + 1) =~= Seq::<char>::empty());
                i = i + 1;
            } else {
                assert(rest[1] == s@[i as int + 1]);
                let c2 = s[i + 1];
                if c2 == 'n' {
                    out.push('\n');
                } else if c2 == 'r' {
                    out.push('\r');
                } else if c2 == 't' {
                    out.push('\t');
                } else if c2 == '\\' {
                    out.push('\\');
                } else if c2 == '"' {
                    out.push('"');
                } else if c2 == '\'' {
                    out.push('\'');
                } else {
                    out.push('\\');
                    out.push(c2);
                }
                assert(rest.skip(2) =~= s@.skip(i as int + 2));
                i = i + 2;
            }
        } else {
            out.push(c);
            assert(rest.skip(1) =~= s@.skip(i as int + 1));
            i = i + 1;
        }
    }
    assert(s@.skip(n as int) =~= Seq::<char>::empty());
    assert(out@ + Seq::<char>::empty() =~= out@);
    out
}

/// The decoded form of a raw value.
fn parse_value_chars(v: &Vec<char>) -> (r: Vec<char>)
    ensures
        r@ == spec_parse_value(v@),
{
    let n = v.len();
    if n == 0 {
        let r: Vec<char> = Vec::new();
        assert(r@ =~= v@);
        return r;
    }
    let first = v[0];
    let last = v[n - 1];
    if n >= 2 && first == '\'' && last == '\'' {
        return sub_chars(v, 1, n - 1);
    }
    if n >= 2 && first == '"' && last == '"' {
        let inner = sub_chars(v, 1, n - 1);
        return unescape(&inner);
    }
    if n >= 2 && first == '`' && last == '`' {
        let mut r: Vec<char> = Vec::new();
        r.push('$');
        r.push('(');
        let mut i: usize = 1;
        while i < n - 1
            invariant
                n == v@.len(),
                n >= 2,
                1 <= i <= n - 1,
                r@ =~= seq!['$', '('] + v@.subrange(1, i as int),
            decreases n - i,
        {
            r.push(v[i]);
            i = i + 1;
        }
        r.push(')');
        assert(r@ =~= seq!['$', '('] + v@.subrange(1, n - 1) + seq![')']);
        return r;
    }
    let mut r: Vec<char> = Vec::new();
    let mut i: usize = 0;
    while i < n
        invariant
            n == v@.len(),
            i <= n,
            r@ =~= v@.take(i as int),
        decreases n - i,
    {
        r.push(v[i]);
        i = i + 1;
    }
    assert(r@ =~= v@);
    r
}

/// Parser for `.env` text, collecting the variables it assigns.
pub struct DotenvParser {
    variables: EnvMap,
}

impl DotenvParser {
    /// The collected variables.
    pub closed spec fn spec_variables(&self) -> EnvMap {
        self.variables
    }

    /// The collected mapping is well formed.
    pub open spec fn wf(&self) -> bool {
        self.spec_variables().wf()
    }

    /// A parser with no variables yet.
    pub fn new() -> (r: DotenvParser)
        ensures
            r.wf(),
            r.spec_variables().spec_len() == 0,
            forall|k: Seq<char>| r.spec_variables().spec_get(k) is None,
    {
        DotenvParser { variables: EnvMap::new() }
    }

    /// The collected variables.
    pub fn variables(&self) -> (r: &EnvMap)
        ensures
            *r == self.spec_variables(),
    {
        &self.variables
    }

    /// The collected variables, moved out of the parser.
    pub fn take_variables(self) -> (r: EnvMap)
        ensures
            r == self.spec_variables(),
    {
        self.variables
    }

    /// Classify one line and, for an assignment, bind its key.
    fn parse_line(&mut self, line: &Vec<char>, line_num: usize) -> (r: Result<(), DotenvxError>)
        requires
            old(self).wf(),
        ensures
            final(self).wf(),
            !spec_line_bad(line@) ==> r is Ok,
            spec_line_bad(line@) ==> r is Err && (r->Err_0 matches DotenvxError::ParseError {
                line: l,
                message,
            } && l == line_num && message@ == spec_parse_err_msg(spec_classify(line@))),
            forall|k: Seq<char>|
                final(self).spec_variables().spec_get(k) == (match spec_classify(line@) {
                    SpecLine::Pair(k2, v) => if k2 == k {
                        Some(v)
                    } else {
                        old(self).spec_variables().spec_get(k)
                    },
                    _ => old(self).spec_variables().spec_get(k),
                }),
            final(self).spec_variables().spec_keys() == (match spec_classify(line@) {
                SpecLine::Pair(k2, v) => if old(self).spec_variables().spec_keys().contains(k2) {
                    old(self).spec_variables().spec_keys()
                } else {
                    old(self).spec_variables().spec_keys().push(k2)
                },
                _ => old(self).spec_variables().spec_keys(),
            }),
    {
        let trimmed = trim_chars(line);
        if trimmed.len() == 0 || trimmed[0] == '#' {
            return Ok(());
        }
        let export_prefix = chars_of("export ");
        let is_export = crate::strutil::begins_with(&trimmed, &export_prefix);
        proof {
            reveal_strlit("export ");
        }
        let line_content = if is_export {
            sub_chars(&trimmed, 7, trimmed.len())
        } else {
            sub_chars(&trimmed, 0, trimmed.len())
        };
        assert(line_content@ == (if spec_starts_with(spec_trim(line@), "export "@) {
            spec_trim(line@).skip(7)
        } else {
            spec_trim(line@)
        })) by {
            assert(trimmed@.subrange(0, trimmed@.len() as int) =~= trimmed@);
        }
        let eq_pos = match find_char(&line_content, '=') {
            Some(p) => p,
            None => {
                return Err(
                    DotenvxError::ParseError {
                        line: line_num,
                        message: String::from_str("Missing '=' in variable assignment"),
                    },
                );
            },
        };
        proof {
            lemma_index_of_props(line_content@, '=');
        }
        let key_part = sub_chars(&line_content, 0, eq_pos);
        let key = trim_chars(&key_part);
        let value_raw = sub_chars(&line_content, eq_pos + 1, line_content.len());
        let value_part = trim_chars(&value_raw);
        assert(key_part@ =~= line_content@.take(eq_pos as int));
        assert(value_raw@ =~= line_content@.skip(eq_pos as int + 1));
        if key.len() == 0 {
            return Err(
                DotenvxError::ParseError {
                    line: line_num,
                    message: String::from_str("Empty variable name"),
                },
            );
        }
        let value = parse_value_chars(&value_part);
        let ghost kb = self.spec_variables().spec_keys();
        let ghost vb = self.spec_variables().spec_vals();
        proof {
            assert(crate::envmap::spec_assoc(kb, vb, key@) is Some <==> kb.contains(key@)) by {
                crate::envmap::lemma_assoc_none(kb, vb, key@);
            }
        }
        self.variables.insert(string_of(&key), string_of(&value));
        Ok(())
    }

    /// Parse `.env` text: each assignment line binds its key, the last
    /// assignment of a key wins, and the first rejected line stops the
    /// parse with its 1-indexed position.
    pub fn parse(&mut self, content: &str) -> (r: Result<(), DotenvxError>)
        requires
            old(self).wf(),
        ensures
            final(self).wf(),
            match spec_error_at(spec_lines(content@)) {
                None => r is Ok && final(self).spec_variables().spec_keys() == spec_keys_after(
                    old(self).spec_variables().spec_keys(),
                    spec_lines(content@),
                ) && forall|k: Seq<char>|
                    final(self).spec_variables().spec_get(k) == (match spec_value_in(
                        spec_lines(content@),
                        k,
                    ) {
                        Some(v) => Some(v),
                        None => old(self).spec_variables().spec_get(k),
                    }),
                Some(i) => r is Err && (r->Err_0 matches DotenvxError::ParseError {
                    line: l,
                    message,
                } && l == i + 1 && message@ == spec_parse_err_msg(
                    spec_classify(spec_lines(content@)[i as int]),
                )) && final(self).spec_variables().spec_keys() == spec_keys_after(
                    old(self).spec_variables().spec_keys(),
                    spec_lines(content@).take(i as int),
                ) && forall|k: Seq<char>|
                    final(self).spec_variables().spec_get(k) == (match spec_value_in(
                        spec_lines(content@).take(i as int),
                        k,
                    ) {
                        Some(v) => Some(v),
                        None => old(self).spec_variables().spec_get(k),
                    }),
            },
    {
        let cs = chars_of(content);
        let lines = split_lines(&cs);
        assert(spec_lines(content@).take(0) =~= Seq::<Seq<char>>::empty());
        let ghost ls = spec_lines(content@);
        assert(lines.deep_view() == ls);
        let n = lines.len();
        assert(n == ls.len()) by {
            assert(lines.deep_view().len() == lines@.len());
        }
        assert forall|j: int| 0 <= j < lines@.len() implies lines@[j]@ == ls[j] by {
            assert(lines@[j].deep_view() =~= lines@[j]@);
            assert(lines.deep_view()[j] == lines@[j].deep_view());
        }
        let ghost m0 = self.spec_variables();
        let mut i: usize = 0;
        while i < n
            invariant
                self.wf(),
                ls == spec_lines(content@),
                m0 == old(self).spec_variables(),
                i <= n,
                n == ls.len(),
                n == lines@.len(),
                lines.deep_view() == ls,
                forall|j: int| 0 <= j < lines@.len() ==> lines@[j]@ == ls[j],
                forall|j: int| 0 <= j < i ==> !spec_line_bad(ls[j]),
                self.spec_variables().spec_keys() == spec_keys_after(
                    m0.spec_keys(),
                    ls.take(i as int),
                ),
                forall|k: Seq<char>|
                    self.spec_variables().spec_get(k) == (match spec_value_in(
                        ls.take(i as int),
                        k,
                    ) {
                        Some(v) => Some(v),
                        None => m0.spec_get(k),
                    }),
            decreases n - i,
        {
            assert(lines@[i as int]@ == ls[i as int]);
            let line_num = i + 1;
            let ghost before = self.spec_variables();
            let r = self.parse_line(&lines[i], line_num);
            match r {
                Ok(_) => {
                    proof {
                        assert(ls.take(i as int + 1).last() == ls[i as int]);
                        assert(ls.take(i as int + 1).drop_last() =~= ls.take(i as int));
                    }
                    i = i + 1;
                },
                Err(e) => {
                    proof {
                        lemma_error_at_props(ls);
                        assert(spec_line_bad(ls[i as int]));
                        assert(spec_error_at(ls) == Some(i as nat));
                    }
                    return Err(e);
                },
            }
        }
        proof {
            lemma_error_at_props(ls);
            assert(ls.take(n as int) =~= ls);
        }
        Ok(())
    }

    /// The commands of the `$(...)` spans of each value, in entry order.
    pub fn pending_commands(&self) -> (r: Vec<Vec<String>>)
        requires
            self.wf(),
        ensures
            r.deep_view() == Seq::new(
                self.spec_variables().spec_len(),
                |i: int| spec_commands_from(self.spec_variables().spec_vals()[i], 0),
            ),
    {
        let n = self.variables.len();
        let mut out: Vec<Vec<String>> = Vec::new();
        let mut i: usize = 0;
        while i < n
            invariant
                self.wf(),
                n == self.spec_variables().spec_len(),
                i <= n,
                out.deep_view() =~~= Seq::new(
                    i as nat,
                    |j: int| spec_commands_from(self.spec_variables().spec_vals()[j], 0),
                ),
            decreases n - i,
        {
            let value = self.variables.value_at(i);
            let cmds = find_commands(value.as_str());
            let ghost d0 = out.deep_view();
            out.push(cmds);
            proof {
                assert(out.deep_view() =~~= d0.push(spec_commands_from(
                    self.spec_variables().spec_vals()[i as int],
                    0,
                )));
            }
            i = i + 1;
        }
        proof {
            assert(out.deep_view() =~~= Seq::new(
                n as nat,
                |j: int| spec_commands_from(self.spec_variables().spec_vals()[j], 0),
            ));
        }
        out
    }

    /// Splice the given command outputs into each value, in entry
    /// order: the outputs of the spans of value `i` stand in
    /// `outputs[i]`. Values beyond the outputs stay unchanged.
    pub fn substitute(&mut self, outputs: &Vec<Vec<String>>) -> (r: Result<(), DotenvxError>)
        requires
            old(self).wf(),
        ensures
            r is Ok,
            final(self).wf(),
            final(self).spec_variables().spec_keys() == old(self).spec_variables().spec_keys(),
            final(self).spec_variables().spec_vals() == spec_splice_vals(
                old(self).spec_variables().spec_vals(),
                outputs.deep_view(),
            ),
    {
        let ghost keys0 = self.spec_variables().spec_keys();
        let ghost vals0 = self.spec_variables().spec_vals();
        let ghost outs = outputs.deep_view();
        assert(forall|j: int| 0 <= j < outputs@.len() ==> outs[j] == outputs@[j].deep_view());
        let n = self.variables.len();
        let m = outputs.len();
        let mut i: usize = 0;
        while i < n
            invariant
                self.wf(),
                n == self.spec_variables().spec_len(),
                n == vals0.len(),
                m == outs.len(),
                m == outputs@.len(),
                outs == outputs.deep_view(),
                forall|j: int| 0 <= j < outputs@.len() ==> outs[j] == outputs@[j].deep_view(),
                i <= n,
                self.spec_variables().spec_keys() == keys0,
                forall|j: int|
                    0 <= j < n ==> self.spec_variables().spec_vals()[j] == (if j < i {
                        spec_splice_vals(vals0, outs)[j]
                    } else {
                        vals0[j]
                    }),
            decreases n - i,
        {
            if i < m {
                let value = self.variables.value_at(i);
                let spliced = substitute_commands(value.as_str(), &outputs[i]);
                self.variables.set_value_at(i, spliced);
            }
            i = i + 1;
        }
        proof {
            assert(self.spec_variables().spec_vals() =~= spec_splice_vals(vals0, outs));
        }
        Ok(())
    }

    /// Expand the variables of every value, in entry order, each
    /// against the mapping as updated by the expansions before it.
    pub fn expand(&mut self) -> (r: Result<(), DotenvxError>)
        requires
            old(self).wf(),
        ensures
            r is Ok,
            final(self).wf(),
            final(self).spec_variables().spec_keys() == old(self).spec_variables().spec_keys(),
            final(self).spec_variables().spec_vals() == spec_expand_fold(
                old(self).spec_variables().spec_keys(),
                old(self).spec_variables().spec_vals(),
                old(self).spec_variables().spec_len() as int,
            ),
    {
        let ghost keys0 = self.spec_variables().spec_keys();
        let ghost vals0 = self.spec_variables().spec_vals();
        let n = self.variables.len();
        let mut i: usize = 0;
        while i < n
            invariant
                self.wf(),
                n == vals0.len(),
                n == self.spec_variables().spec_len(),
                i <= n,
                self.spec_variables().spec_keys() == keys0,
                self.spec_variables().spec_vals() == spec_expand_fold(keys0, vals0, i as int),
            decreases n - i,
        {
            proof {
                lemma_expand_fold_props(keys0, vals0, i as int);
            }
            let value = self.variables.value_at(i);
            let expanded = match expand_variables(value.as_str(), &self.variables) {
                Ok(e) => e,
                Err(e) => {
                    proof {
                        assert(false);
                    }
                    return Err(e);
                },
            };
            self.variables.set_value_at(i, expanded);
            i = i + 1;
        }
        proof {
            lemma_expand_fold_props(keys0, vals0, n as int);
        }
        Ok(())
    }

    /// Parse, then splice the given command outputs, then expand: the
    /// full processing of `.env` text.
    pub fn parse_with_processing(&mut self, content: &str, outputs: &Vec<Vec<String>>) -> (r:
        Result<(), DotenvxError>)
        requires
            old(self).wf(),
        ensures
            final(self).wf(),
            match spec_error_at(spec_lines(content@)) {
                None => {
                    let keys1 = spec_keys_after(
                        old(self).spec_variables().spec_keys(),
                        spec_lines(content@),
                    );
                    let vals1 = Seq::new(
                        keys1.len(),
                        |j: int|
                            match spec_value_in(spec_lines(content@), keys1[j]) {
                                Some(v) => v,
                                None => old(self).spec_variables().spec_get(keys1[j]).unwrap(),
                            },
                    );
                    r is Ok && final(self).spec_variables().spec_keys() == keys1
                        && final(self).spec_variables().spec_vals() == spec_expand_fold(
                        keys1,
                        spec_splice_vals(vals1, outputs.deep_view()),
                        keys1.len() as int,
                    ) && (old(self).spec_variables().spec_len() == 0
                        ==> final(self).spec_variables().spec_vals() == spec_expand_fold(
                        keys1,
                        spec_splice_vals(
                            Seq::new(
                                keys1.len(),
                                |j: int| spec_value_in(spec_lines(content@), keys1[j]).unwrap(),
                            ),
                            outputs.deep_view(),
                        ),
                        keys1.len() as int,
                    ))
                },
                Some(i) => r is Err && (r->Err_0 matches DotenvxError::ParseError {
                    line: l,
                    message,
                } && l == i + 1 && message@ == spec_parse_err_msg(
                    spec_classify(spec_lines(content@)[i as int]),
                )),
            },
    {
        match self.parse(content) {
            Ok(_) => {},
            Err(e) => {
                return Err(e);
            },
        }
        let ghost keys1 = self.spec_variables().spec_keys();
        let ghost vals1 = Seq::new(
            keys1.len(),
            |j: int|
                match spec_value_in(spec_lines(content@), keys1[j]) {
                    Some(v) => v,
                    None => old(self).spec_variables().spec_get(keys1[j]).unwrap(),
                },
        );
        proof {
            assert forall|j: int| 0 <= j < keys1.len() implies self.spec_variables().spec_vals()[j]
                == vals1[j] by {
                crate::envmap::lemma_assoc_at(
                    self.spec_variables().spec_keys(),
                    self.spec_variables().spec_vals(),
                    j,
                );
                assert(self.spec_variables().spec_get(keys1[j]) == Some(
                    self.spec_variables().spec_vals()[j],
                ));
                assert(self.spec_variables().spec_get(keys1[j]) == (match spec_value_in(
                    spec_lines(content@),
                    keys1[j],
                ) {
                    Some(v) => Some(v),
                    None => old(self).spec_variables().spec_get(keys1[j]),
                }));
            }
            assert(self.spec_variables().spec_vals() =~= vals1);
            if old(self).spec_variables().spec_len() == 0 {
                lemma_keys_after_in_lines(old(self).spec_variables().spec_keys(), spec_lines(content@));
                assert forall|j: int| 0 <= j < keys1.len() implies spec_value_in(
                    spec_lines(content@),
                    keys1[j],
                ) is Some by {
                    assert(keys1.contains(keys1[j]));
                    assert(!old(self).spec_variables().spec_keys().contains(keys1[j]));
                }
                assert(vals1 =~= Seq::new(
                    keys1.len(),
                    |j: int| spec_value_in(spec_lines(content@), keys1[j]).unwrap(),
                ));
            }
        }
        match self.substitute(outputs) {
            Ok(_) => {},
            Err(e) => {
                proof {
                    assert(false);
                }
                return Err(e);
            },
        }
        match self.expand() {
            Ok(_) => {},
            Err(e) => {
                proof {
                    assert(false);
                }
                return Err(e);
            },
        }
        Ok(())
    }
}

/// Each value spliced with its outputs; values beyond the outputs
/// unchanged.
pub open spec fn spec_splice_vals(vals: Seq<Seq<char>>, outs: Seq<Seq<Seq<char>>>) -> Seq<
    Seq<char>,
> {
    Seq::new(
        vals.len(),
        |i: int|
            if 0 <= i < outs.len() {
                spec_splice(vals[i], outs[i])
            } else {
                vals[i]
            },
    )
}

/// The values after expanding the first `j` entries in order, each
/// against the mapping as updated by the expansions before it.
pub open spec fn spec_expand_fold(keys: Seq<Seq<char>>, vals: Seq<Seq<char>>, j: int) -> Seq<
    Seq<char>,
>
    decreases j,
{
    if j <= 0 {
        vals
    } else {
        let prev = spec_expand_fold(keys, vals, j - 1);
        prev.update(j - 1, spec_expand(prev[j - 1], keys, prev))
    }
}

/// Folding keeps the length and leaves the entries at or after `j`.
pub proof fn lemma_expand_fold_props(keys: Seq<Seq<char>>, vals: Seq<Seq<char>>, j: int)
    requires
        j <= vals.len(),
    ensures
        spec_expand_fold(keys, vals, j).len() == vals.len(),
        forall|m: int| j <= m < vals.len() ==> spec_expand_fold(keys, vals, j)[m] == vals[m],
    decreases j,
{
    if j > 0 {
        lemma_expand_fold_props(keys, vals, j - 1);
    }
}

} // verus!
