//! Command substitution: `$(command)` spans are located (no nesting,
//! the command may not contain `)` and is non-empty), and the captured
//! outputs are spliced back in place of the spans. Running the
//! commands is the caller's part; this module only finds and splices.
use vstd::prelude::*;
use vstd::string::*;

use crate::strutil::chars_of;
use crate::strutil::find_char_from;
use crate::strutil::push_all;
use crate::strutil::spec_index_of;
use crate::strutil::string_of;
use crate::strutil::sub_chars;

verus! {

/// A `$(command)` span at position `i`: the command and the position
/// after the closing parenthesis. The command has at least one
/// character and no `)`.
pub open spec fn spec_cmd_at(s: Seq<char>, i: int) -> Option<(Seq<char>, int)> {
    if 0 <= i && i + 1 < s.len() && s[i] == '$' && s[i + 1] == '(' {
        match spec_index_of(s.skip(i + 2), ')') {
            None => None,
            Some(j) => {
                if j >= 1 {
                    Some((s.skip(i + 2).take(j as int), i + 3 + j))
                } else {
                    None
                }
            },
        }
    } else {
        None
    }
}

/// The commands of all `$(...)` spans, left to right from `i`.
pub open spec fn spec_commands_from(s: Seq<char>, i: int) -> Seq<Seq<char>>
    decreases s.len() - i,
{
    if i < 0 || i >= s.len() {
        seq![]
    } else {
        match spec_cmd_at(s, i) {
            Some((cmd, next)) => {
                if i < next <= s.len() {
                    seq![cmd] + spec_commands_from(s, next)
                } else {
                    spec_commands_from(s, i + 1)
                }
            },
            None => spec_commands_from(s, i + 1),
        }
    }
}

/// The text with the `k`-th and later spans replaced by the matching
/// outputs, scanning from `i`.
pub open spec fn spec_splice_from(s: Seq<char>, outs: Seq<Seq<char>>, i: int, k: int) -> Seq<char>
    decreases s.len() - i,
{
    if i < 0 || i >= s.len() {
        seq![]
    } else {
        match spec_cmd_at(s, i) {
            Some((cmd, next)) => {
                if i < next <= s.len() {
                    (if 0 <= k < outs.len() {
                        outs[k]
                    } else {
                        seq![]
                    }) + spec_splice_from(s, outs, next, k + 1)
                } else {
                    seq![s[i]] + spec_splice_from(s, outs, i + 1, k)
                }
            },
            None => seq![s[i]] + spec_splice_from(s, outs, i + 1, k),
        }
    }
}

/// The spliced text of `value` under `outs`.
pub open spec fn spec_splice(s: Seq<char>, outs: Seq<Seq<char>>) -> Seq<char> {
    spec_splice_from(s, outs, 0, 0)
}

/// The commands of the `$(...)` spans of `value`, left to right.
pub fn find_commands(value: &str) -> (r: Vec<String>)
    ensures
        r.deep_view() == spec_commands_from(value@, 0),
{
    let v = chars_of(value);
    let n = v.len();
    let mut out: Vec<String> = Vec::new();
    let mut i: usize = 0;
    while i < n
        invariant
            n == v@.len(),
            v@ == value@,
            i <= n,
            spec_commands_from(value@, 0) =~~= out.deep_view() + spec_commands_from(
                value@,
                i as int,
            ),
        decreases n - i,
    {
        let mut done = false;
        if v[i] == '$' && i + 1 < n {
            if v[i + 1] == '(' {
                match find_char_from(&v, i + 2, ')') {
                    Some(cl) => {
                        if cl > i + 2 {
                            let cmd = sub_chars(&v, i + 2, cl);
                            assert(cmd@ =~= v@.skip(i as int + 2).take(cl - (i + 2)));
                            assert(spec_cmd_at(value@, i as int) == Some((cmd@, cl as int + 1)));
                            let ghost d0 = out.deep_view();
                            out.push(string_of(&cmd));
                            proof {
                                assert(out.deep_view() =~~= d0.push(cmd@));
                                assert(out.deep_view() + spec_commands_from(value@, cl as int + 1)
                                    =~~= d0 + (seq![cmd@] + spec_commands_from(
                                    value@,
                                    cl as int + 1,
                                )));
                            }
                            i = cl + 1;
                            done = true;
                        } else {
                            assert(spec_cmd_at(value@, i as int) is None);
                        }
                    },
                    None => {
                        assert(spec_cmd_at(value@, i as int) is None);
                    },
                }
            } else {
                assert(spec_cmd_at(value@, i as int) is None);
            }
        } else {
            assert(spec_cmd_at(value@, i as int) is None);
        }
        if !done {
            i = i + 1;
        }
    }
    out
}

/// `value` with its `$(...)` spans replaced, in order, by the given
/// outputs: the splice of the outputs into the text.
pub fn substitute_commands(value: &str, outputs: &Vec<String>) -> (r: String)
    ensures
        r@ == spec_splice(value@, outputs.deep_view()),
{
    let v = chars_of(value);
    let ghost outs = outputs.deep_view();
    assert(outputs.deep_view().len() == outputs@.len());
    assert(forall|j: int| 0 <= j < outputs@.len() ==> outputs.deep_view()[j] == outputs@[j]@);
    let n = v.len();
    let m = outputs.len();
    let mut out: Vec<char> = Vec::new();
    let mut i: usize = 0;
    let mut k: usize = 0;
    while i < n
        invariant
            n == v@.len(),
            v@ == value@,
            m == outs.len(),
            m == outputs@.len(),
            outs == outputs.deep_view(),
            forall|j: int| 0 <= j < outputs@.len() ==> outputs.deep_view()[j] == outputs@[j]@,
            i <= n,
            k <= i,
            spec_splice(value@, outs) =~= out@ + spec_splice_from(value@, outs, i as int, k as int),
        decreases n - i,
    {
        let mut done = false;
        if v[i] == '$' && i + 1 < n {
            if v[i + 1] == '(' {
                match find_char_from(&v, i + 2, ')') {
                    Some(cl) => {
                        if cl > i + 2 {
                            let ghost cmd = v@.skip(i as int + 2).take((cl - (i + 2)) as int);
                            assert(spec_cmd_at(value@, i as int) == Some((cmd, cl as int + 1)));
                            let ghost o0 = out@;
                            let ghost piece: Seq<char> = if 0 <= k < outs.len() {
                                outs[k as int]
                            } else {
                                seq![]
                            };
                            if k < m {
                                let piece_chars = chars_of(outputs[k].as_str());
                                push_all(&mut out, &piece_chars);
                            }
                            proof {
                                assert(out@ =~= o0 + piece);
                                assert(out@ + spec_splice_from(value@, outs, cl as int + 1, k + 1)
                                    =~= o0 + (piece + spec_splice_from(
                                    value@,
                                    outs,
                                    cl as int + 1,
                                    k + 1,
                                )));
                            }
                            i = cl + 1;
                            k = k + 1;
                            done = true;
                        } else {
                            assert(spec_cmd_at(value@, i as int) is None);
                        }
                    },
                    None => {
                        assert(spec_cmd_at(value@, i as int) is None);
                    },
                }
            } else {
                assert(spec_cmd_at(value@, i as int) is None);
            }
        } else {
            assert(spec_cmd_at(value@, i as int) is None);
        }
        if !done {
            let ghost o0 = out@;
            out.push(v[i]);
            proof {
                assert(out@ + spec_splice_from(value@, outs, i as int + 1, k as int) =~= o0 + (seq![
                    value@[i as int],
                ] + spec_splice_from(value@, outs, i as int + 1, k as int)));
            }
            i = i + 1;
        }
    }
    string_of(&out)
}

} // verus!
