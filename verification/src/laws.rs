//! Laws of the library that relate several functions, stated over the
//! same models their contracts use and proved here once and for all.
use vstd::prelude::*;

use crate::envmap::spec_assoc;
use crate::expansion::lemma_ext_scan_end;
use crate::expansion::spec_expand;
use crate::expansion::spec_expand_braces_from;
use crate::expansion::spec_expand_simple_from;
use crate::expansion::spec_is_name_char;
use crate::expansion::spec_is_name_start;
use crate::expansion::spec_name_len;
use crate::expansion::spec_plain_value;
use crate::expansion::spec_set_nonempty;
use crate::expansion::spec_simple_at;
use crate::rewrite::spec_enc_piece_ok;
use crate::strutil::lemma_concat_contains;
use crate::strutil::lemma_index_of_props;
use crate::strutil::spec_concat_pieces;
use crate::strutil::spec_index_of;
use crate::strutil::spec_trim;
use crate::strutil::spec_trim_back;

verus! {

/// Rewriter idempotence on comments and blanks: a line the rewriter
/// classifies as blank or comment contributes itself (and its newline)
/// to the encrypted output, byte-identical, and that piece stands
/// whole inside the output text.
pub proof fn lemma_rewrite_preserves_comments(
    lines: Seq<Seq<char>>,
    pieces: Seq<Seq<char>>,
    pkb: Seq<u8>,
    specific: Option<Seq<Seq<char>>>,
    exclude: Option<Seq<Seq<char>>>,
    j: int,
)
    requires
        pieces.len() == lines.len(),
        forall|m: int|
            0 <= m < lines.len() ==> spec_enc_piece_ok(lines[m], pieces[m], pkb, specific, exclude),
        0 <= j < lines.len(),
        spec_trim(lines[j]).len() == 0 || spec_trim(lines[j])[0] == '#',
    ensures
        pieces[j] == lines[j] + "\n"@,
        exists|a: int, b: int|
            0 <= a <= b <= spec_concat_pieces(pieces).len() && b - a == pieces[j].len()
                && #[trigger] spec_concat_pieces(pieces).subrange(a, b) == pieces[j],
{
    assert(spec_enc_piece_ok(lines[j], pieces[j], pkb, specific, exclude));
    lemma_concat_contains(pieces, j);
}

/// A string without backslashes is its own unescaping.
proof fn lemma_unescape_plain(s: Seq<char>)
    requires
        forall|m: int| 0 <= m < s.len() ==> s[m] != '\\',
    ensures
        crate::parser::spec_unescape(s) == s,
    decreases s.len(),
{
    if s.len() > 0 {
        let t = s.skip(1);
        assert(forall|m: int| 0 <= m < t.len() ==> t[m] == s[m + 1]);
        lemma_unescape_plain(t);
        assert(seq![s[0]] + t =~= s);
    }
}

/// Parser preservation, one line: an assignment line the rewriter
/// emits with an envelope token re-parses as an assignment of the same
/// key, whose value still bears the `encrypted:` prefix.
pub proof fn lemma_token_line_reparses(
    piece: Seq<char>,
    ex: bool,
    key: Seq<char>,
    value: Seq<char>,
    pkb: Seq<u8>,
)
    requires
        crate::rewrite::spec_token_piece(piece, ex, key, value, pkb),
        key.len() > 0,
        key == spec_trim(key),
        ex || key[0] != '#',
        ex || !crate::strutil::spec_starts_with(key, "export "@),
        forall|m: int| 0 <= m < key.len() ==> key[m] != '=',
    ensures
        ({
            let line = piece.drop_last();
            &&& crate::parser::spec_classify(line) is Pair
            &&& crate::parser::spec_classify(line)->Pair_0 == key
            &&& crate::strutil::spec_starts_with(
                crate::parser::spec_classify(line)->Pair_1,
                "encrypted:"@,
            )
        }),
{
    let token = choose|token: Seq<char>|
        #![trigger crate::ecies::spec_is_envelope_for(token, value, pkb)]
        piece == (if ex {
            "export "@
        } else {
            Seq::<char>::empty()
        }) + key + "=\""@ + token + "\"\n"@ && crate::ecies::spec_is_envelope_for(
            token,
            value,
            pkb,
        ) && crate::ecies::spec_decrypts_to(token, value, pkb) && crate::ecies::spec_token_wf(
            token,
        );
    reveal_strlit("export ");
    reveal_strlit("=\"");
    reveal_strlit("\"\n");
    reveal_strlit("encrypted:");
    let exs: Seq<char> = if ex {
        "export "@
    } else {
        Seq::<char>::empty()
    };
    let line = piece.drop_last();
    assert(line =~= exs + key + "=\""@ + token + seq!['"']);
    assert(crate::strutil::spec_starts_with(token, crate::ecies::spec_prefix()));
    reveal_strlit("encrypted:");
    assert(crate::ecies::spec_prefix().len() == 10);
    assert forall|i: int| 0 <= i < token.len() implies token[i] != '\\' by {
        if i < 10 {
            assert(token.subrange(0, 10) == "encrypted:"@);
            assert(token[i] == "encrypted:"@[i]);
        } else {
            assert(crate::primitives::spec_is_b64_char(token[i]));
            assert('\\' as u32 == 92);
        }
    }
    crate::strutil::lemma_trim_fixed_ends(key);
    assert(line.len() > 0);
    assert(!crate::strutil::spec_is_space(line[0]));
    assert(line.last() == '"');
    crate::strutil::lemma_trim_id(line);
    let t = line;
    assert(spec_trim(line) == t);
    assert(t[0] != '#') by {
        if ex {
            assert(t[0] == 'e');
        }
    }
    assert(crate::strutil::spec_starts_with(t, "export "@) == ex) by {
        if ex {
            assert(t.subrange(0, 7) =~= "export "@);
        } else {
            if crate::strutil::spec_starts_with(t, "export "@) {
                assert(forall|m: int| 0 <= m < 7 ==> t[m] == t.subrange(0, 7)[m]);
                if key.len() >= 7 {
                    assert(key.subrange(0, 7) =~= "export "@) by {
                        assert(forall|m: int| 0 <= m < 7 ==> key[m] == t[m]);
                    }
                } else {
                    let m = key.len() as int;
                    assert(t[m] == '=');
                    assert(t[m] == "export "@[m]);
                    assert(forall|j: int| 0 <= j < 7 ==> "export "@[j] != '=');
                }
            }
        }
    }
    let lc: Seq<char> = if ex {
        t.skip(7)
    } else {
        t
    };
    assert(lc =~= key + "=\""@ + token + seq!['"']);
    assert(lc[key.len() as int] == '=');
    crate::strutil::lemma_index_of_props(lc, '=');
    assert(spec_index_of(lc, '=') == Some(key.len())) by {
        match spec_index_of(lc, '=') {
            Some(k) => {
                if k < key.len() {
                    assert(lc[k as int] == key[k as int]);
                }
                if k > key.len() {
                    assert(lc[key.len() as int] == '=');
                }
            },
            None => {
                assert(lc[key.len() as int] == '=');
            },
        }
    }
    assert(lc.take(key.len() as int) =~= key);
    let raw = lc.skip(key.len() as int + 1);
    assert(raw =~= seq!['"'] + token + seq!['"']);
    assert(raw[0] == '"');
    assert(raw.last() == '"');
    crate::strutil::lemma_trim_id(raw);
    assert(raw.subrange(1, raw.len() - 1) =~= token);
    lemma_unescape_plain(token);
    assert(crate::parser::spec_parse_value(raw) == token);
    assert(crate::parser::spec_classify(line) == crate::parser::SpecLine::Pair(key, token));
    assert(token.subrange(0, 10) == "encrypted:"@);
}

/// Parser preservation: a line the parser accepts contributes, to the
/// encrypted output, either itself (so it re-parses the same), nothing
/// (only for `DOTENV_PUBLIC_KEY` lines, which the emitted header
/// replaces), or an assignment line that re-parses with the same key.
#[verifier::rlimit(100)]
pub proof fn lemma_rewrite_preserves_keys(
    line: Seq<char>,
    piece: Seq<char>,
    pkb: Seq<u8>,
    specific: Option<Seq<Seq<char>>>,
    exclude: Option<Seq<Seq<char>>>,
)
    requires
        spec_enc_piece_ok(line, piece, pkb, specific, exclude),
        !crate::parser::spec_line_bad(line),
    ensures
        match crate::parser::spec_classify(line) {
            crate::parser::SpecLine::Skip => piece == line + "\n"@,
            crate::parser::SpecLine::Pair(key, v) => {
                if crate::strutil::spec_starts_with(spec_trim(line), "DOTENV_PUBLIC_KEY="@)
                    || crate::strutil::spec_starts_with(
                    spec_trim(line),
                    "DOTENV_PUBLIC_KEY \""@,
                ) {
                    piece == Seq::<char>::empty()
                } else {
                    crate::parser::spec_classify(piece.drop_last()) is Pair
                        && crate::parser::spec_classify(piece.drop_last())->Pair_0 == key
                }
            },
            _ => false,
        },
{
    reveal_strlit("export ");
    let t = spec_trim(line);
    match crate::parser::spec_classify(line) {
        crate::parser::SpecLine::Skip => {
        },
        crate::parser::SpecLine::Pair(key, v) => {
            if crate::strutil::spec_starts_with(t, "DOTENV_PUBLIC_KEY="@)
                || crate::strutil::spec_starts_with(t, "DOTENV_PUBLIC_KEY \""@) {
            } else {
                let ex = crate::strutil::spec_starts_with(t, "export "@);
                let lc: Seq<char> = if ex {
                    t.skip(7)
                } else {
                    t
                };
                let e = spec_index_of(lc, '=').unwrap() as int;
                lemma_index_of_props(lc, '=');
                let z = lc.take(e);
                assert(key == spec_trim(z));
                assert(key.len() > 0);
                crate::strutil::lemma_trim_parts(z);
                assert(key == spec_trim(key));
                let vp = spec_trim(lc.skip(e + 1));
                if crate::rewrite::spec_should_encrypt(key, specific, exclude)
                    && !crate::strutil::spec_starts_with(vp, "encrypted:"@) {
                    let (za, zb): (int, int) = choose|a: int, b: int|
                        0 <= a <= b <= z.len() && #[trigger] z.subrange(a, b) == spec_trim(z);
                    assert(forall|m: int| 0 <= m < key.len() ==> key[m] == z[za + m]);
                    assert(forall|m: int| 0 <= m < z.len() ==> z[m] == lc[m]);
                    assert(forall|m: int| 0 <= m < key.len() ==> key[m] != '=');
                    if !ex {
                        crate::strutil::lemma_trim_parts(line);
                        assert(!crate::strutil::spec_is_space(t[0]));
                        assert(z[0] == t[0]);
                        assert(crate::strutil::spec_trim_front(z) == z);
                        crate::strutil::lemma_trim_back_is_take(z);
                        let m0 = choose|m: int|
                            0 <= m <= z.len() && #[trigger] z.take(m) == spec_trim_back(z);
                        assert(key == z.take(m0));
                        assert(m0 == key.len());
                        assert(forall|m: int| 0 <= m < key.len() ==> key[m] == z[m]);
                        assert(forall|m: int| 0 <= m < key.len() ==> key[m] == t[m]);
                        assert(key[0] != '#');
                        if crate::strutil::spec_starts_with(key, "export "@) {
                            assert(key.len() >= 7);
                            assert(t.subrange(0, 7) =~= "export "@) by {
                                assert(forall|m: int|
                                    0 <= m < 7 ==> key.subrange(0, 7)[m] == key[m]);
                                assert(forall|m: int| 0 <= m < 7 ==> t[m] == key[m]);
                            }
                            assert(crate::strutil::spec_starts_with(t, "export "@));
                            assert(false);
                        }
                    }
                    lemma_token_line_reparses(
                        piece,
                        ex,
                        key,
                        crate::resolve::spec_simple_unquote(vp),
                        pkb,
                    );
                } else {
                    reveal_strlit("\n");
                    assert(piece.drop_last() =~= line);
                }
            }
        },
        _ => {
        },
    }
}

/// Whether a line is an assignment of `k`.
pub open spec fn spec_assigns(line: Seq<char>, k: Seq<char>) -> bool {
    match crate::parser::spec_classify(line) {
        crate::parser::SpecLine::Pair(k2, v) => k2 == k,
        _ => false,
    }
}

/// A key has a value exactly when some line assigns it.
proof fn lemma_value_in_some_iff(lines: Seq<Seq<char>>, k: Seq<char>)
    ensures
        crate::parser::spec_value_in(lines, k) is Some <==> exists|j: int|
            0 <= j < lines.len() && spec_assigns(#[trigger] lines[j], k),
    decreases lines.len(),
{
    if lines.len() > 0 {
        lemma_value_in_some_iff(lines.drop_last(), k);
        assert(forall|j: int| 0 <= j < lines.len() - 1 ==> lines.drop_last()[j] == lines[j]);
        if spec_assigns(lines.last(), k) {
            assert(crate::parser::spec_value_in(lines, k) is Some);
        } else {
            if exists|j: int| 0 <= j < lines.len() && spec_assigns(#[trigger] lines[j], k) {
                let j = choose|j: int| 0 <= j < lines.len() && spec_assigns(#[trigger] lines[j], k);
                assert(j < lines.len() - 1);
                assert(spec_assigns(lines.drop_last()[j], k));
            }
        }
    }
}

/// The line a piece contributes: none for an empty piece, its text
/// without the trailing newline otherwise.
pub open spec fn spec_piece_lines(piece: Seq<char>) -> Seq<Seq<char>> {
    if piece.len() == 0 {
        seq![]
    } else {
        seq![piece.drop_last()]
    }
}

/// The lines all pieces contribute, in order.
pub open spec fn spec_pieces_lines(pieces: Seq<Seq<char>>) -> Seq<Seq<char>>
    decreases pieces.len(),
{
    if pieces.len() == 0 {
        seq![]
    } else {
        spec_piece_lines(pieces[0]) + spec_pieces_lines(pieces.drop_first())
    }
}

/// A piece is empty or one newline-terminated line free of inner
/// newlines and carriage returns.
pub open spec fn spec_piece_shape(piece: Seq<char>) -> bool {
    piece.len() == 0 || (piece.last() == '\n' && forall|m: int|
        0 <= m < piece.len() - 1 ==> piece[m] != '\n' && piece[m] != '\r')
}

/// Splitting after one newline-free chunk yields that chunk as a line.
proof fn lemma_lines_acc_chunk(cur: Seq<char>, x: Seq<char>, rest: Seq<char>)
    requires
        forall|m: int| 0 <= m < x.len() ==> x[m] != '\n',
    ensures
        crate::strutil::spec_lines_acc(cur, x + seq!['\n'] + rest) == seq![
            crate::strutil::spec_strip_cr(cur + x),
        ] + crate::strutil::spec_lines_acc(Seq::empty(), rest),
    decreases x.len(),
{
    let whole = x + seq!['\n'] + rest;
    if x.len() == 0 {
        assert(whole[0] == '\n');
        assert(whole.drop_first() =~= rest);
        assert(cur + x =~= cur);
    } else {
        assert(whole[0] == x[0]);
        assert(x[0] != '\n');
        let x2 = x.drop_first();
        assert(forall|m: int| 0 <= m < x2.len() ==> x2[m] == x[m + 1]);
        lemma_lines_acc_chunk(cur.push(x[0]), x2, rest);
        assert(whole.drop_first() =~= x2 + seq!['\n'] + rest);
        assert(cur.push(x[0]) + x2 =~= cur + x);
    }
}

/// The lines of joined well-shaped pieces are the pieces' lines.
proof fn lemma_lines_of_pieces(pieces: Seq<Seq<char>>)
    requires
        forall|j: int| 0 <= j < pieces.len() ==> spec_piece_shape(#[trigger] pieces[j]),
    ensures
        crate::strutil::spec_lines(spec_concat_pieces(pieces)) == spec_pieces_lines(pieces),
    decreases pieces.len(),
{
    if pieces.len() == 0 {
        assert(crate::strutil::spec_lines_acc(Seq::empty(), Seq::<char>::empty()) =~= Seq::<
            Seq<char>,
        >::empty());
        assert(spec_pieces_lines(pieces) =~= Seq::<Seq<char>>::empty());
    } else {
        let p0 = pieces[0];
        let rest = pieces.drop_first();
        assert(forall|j: int| 0 <= j < rest.len() ==> rest[j] == pieces[j + 1]);
        lemma_lines_of_pieces(rest);
        let restc = spec_concat_pieces(rest);
        if p0.len() == 0 {
            assert(spec_concat_pieces(pieces) == p0 + restc);
            assert(p0 + restc =~= restc);
            assert(spec_piece_lines(p0) + spec_pieces_lines(rest) =~= spec_pieces_lines(rest));
        } else {
            let y = p0.drop_last();
            assert(p0 =~= y + seq!['\n']);
            assert(spec_concat_pieces(pieces) =~= y + seq!['\n'] + restc);
            lemma_lines_acc_chunk(Seq::empty(), y, restc);
            assert(Seq::<char>::empty() + y =~= y);
            assert(crate::strutil::spec_strip_cr(y) == y);
            assert(seq![y] + spec_pieces_lines(rest) =~= spec_pieces_lines(pieces));
        }
    }
}

/// Some contributed line assigns `k` exactly when some piece's line does.
proof fn lemma_pieces_assign_iff(pieces: Seq<Seq<char>>, k: Seq<char>)
    ensures
        (exists|m: int|
            0 <= m < spec_pieces_lines(pieces).len() && spec_assigns(
                #[trigger] spec_pieces_lines(pieces)[m],
                k,
            )) <==> (exists|j: int|
            0 <= j < pieces.len() && (#[trigger] pieces[j]).len() > 0 && spec_assigns(
                pieces[j].drop_last(),
                k,
            )),
    decreases pieces.len(),
{
    if pieces.len() > 0 {
        let rest = pieces.drop_first();
        assert(forall|j: int| 0 <= j < rest.len() ==> rest[j] == pieces[j + 1]);
        lemma_pieces_assign_iff(rest, k);
        let all = spec_pieces_lines(pieces);
        let h = spec_piece_lines(pieces[0]);
        assert(all == h + spec_pieces_lines(rest));
        assert(forall|m: int| 0 <= m < h.len() ==> all[m] == h[m]);
        assert(forall|m: int|
            0 <= m < spec_pieces_lines(rest).len() ==> all[h.len() + m] == spec_pieces_lines(
                rest,
            )[m]);
        if exists|m: int| 0 <= m < all.len() && spec_assigns(#[trigger] all[m], k) {
            let m = choose|m: int| 0 <= m < all.len() && spec_assigns(#[trigger] all[m], k);
            if m < h.len() {
                assert(pieces[0].len() > 0 && spec_assigns(pieces[0].drop_last(), k));
            } else {
                assert(spec_assigns(spec_pieces_lines(rest)[m - h.len()], k));
            }
        }
        if exists|j: int|
            0 <= j < pieces.len() && (#[trigger] pieces[j]).len() > 0 && spec_assigns(
                pieces[j].drop_last(),
                k,
            ) {
            let j = choose|j: int|
                0 <= j < pieces.len() && (#[trigger] pieces[j]).len() > 0 && spec_assigns(
                    pieces[j].drop_last(),
                    k,
                );
            if j == 0 {
                assert(spec_assigns(all[0], k));
            } else {
                assert(rest[j - 1].len() > 0 && spec_assigns(rest[j - 1].drop_last(), k));
                let m = choose|m: int|
                    0 <= m < spec_pieces_lines(rest).len() && spec_assigns(
                        #[trigger] spec_pieces_lines(rest)[m],
                        k,
                    );
                assert(spec_assigns(all[h.len() + m], k));
            }
        }
    }
}

/// A later assignment wins: the value in joined line sequences.
proof fn lemma_value_in_concat(a: Seq<Seq<char>>, b: Seq<Seq<char>>, k: Seq<char>)
    ensures
        crate::parser::spec_value_in(a + b, k) == (if crate::parser::spec_value_in(b, k)
            is Some {
            crate::parser::spec_value_in(b, k)
        } else {
            crate::parser::spec_value_in(a, k)
        }),
    decreases b.len(),
{
    if b.len() == 0 {
        assert(a + b =~= a);
    } else {
        assert((a + b).last() == b.last());
        assert((a + b).drop_last() =~= a + b.drop_last());
        lemma_value_in_concat(a, b.drop_last(), k);
    }
}

/// The lines of the emitted header: the four banner comments, the
/// public-key assignment, and a blank line.
pub open spec fn spec_header_lines(pk: Seq<char>) -> Seq<Seq<char>> {
    seq![
        "#/-------------------[DOTENV_PUBLIC_KEY]--------------------/"@,
        "#/            public-key encryption for .env files          /"@,
        "#/       [how it works](https://dotenvx.com/encryption)     /"@,
        "#/----------------------------------------------------------/"@,
        "DOTENV_PUBLIC_KEY=\""@ + pk + "\""@,
        Seq::<char>::empty(),
    ]
}

/// The emitted header contributes exactly its six lines.
#[verifier::rlimit(100)]
proof fn lemma_header_lines_split(pk: Seq<char>, rest: Seq<char>)
    requires
        forall|m: int| 0 <= m < pk.len() ==> pk[m] != '\n' && pk[m] != '\r',
    ensures
        crate::strutil::spec_lines(crate::rewrite::spec_enc_header(pk) + rest)
            == spec_header_lines(pk) + crate::strutil::spec_lines(rest),
{
    reveal_strlit("#/-------------------[DOTENV_PUBLIC_KEY]--------------------/");
    reveal_strlit("#/            public-key encryption for .env files          /");
    reveal_strlit("#/       [how it works](https://dotenvx.com/encryption)     /");
    reveal_strlit("#/----------------------------------------------------------/");
    reveal_strlit("DOTENV_PUBLIC_KEY=\"");
    reveal_strlit("\"");
    reveal_strlit("\n");
    reveal_strlit("\"\n\n");
    let l1 = "#/-------------------[DOTENV_PUBLIC_KEY]--------------------/"@;
    let l2 = "#/            public-key encryption for .env files          /"@;
    let l3 = "#/       [how it works](https://dotenvx.com/encryption)     /"@;
    let l4 = "#/----------------------------------------------------------/"@;
    let d = "DOTENV_PUBLIC_KEY=\""@ + pk + "\""@;
    let nl = seq!['\n'];
    let e = Seq::<char>::empty();
    let whole = crate::rewrite::spec_enc_header(pk) + rest;
    let r5 = e + nl + rest;
    let r4 = d + nl + r5;
    let r3 = l4 + nl + r4;
    let r2 = l3 + nl + r3;
    let r1 = l2 + nl + r2;
    assert("\"\n\n"@ =~= seq!['"', '\n', '\n']);
    assert(whole =~= l1 + nl + r1);
    assert(forall|m: int| 0 <= m < d.len() ==> d[m] != '\n' && d[m] != '\r') by {
        assert(forall|m: int|
            0 <= m < 19 ==> d[m] == "DOTENV_PUBLIC_KEY=\""@[m]);
        assert(forall|m: int| 19 <= m < 19 + pk.len() ==> d[m] == pk[m - 19]);
        assert(d[d.len() - 1] == '"');
    }
    lemma_lines_acc_chunk(Seq::empty(), l1, r1);
    assert(Seq::<char>::empty() + l1 =~= l1);
    assert(crate::strutil::spec_strip_cr(l1) == l1);
    lemma_lines_acc_chunk(Seq::empty(), l2, r2);
    assert(Seq::<char>::empty() + l2 =~= l2);
    assert(crate::strutil::spec_strip_cr(l2) == l2);
    lemma_lines_acc_chunk(Seq::empty(), l3, r3);
    assert(Seq::<char>::empty() + l3 =~= l3);
    assert(crate::strutil::spec_strip_cr(l3) == l3);
    lemma_lines_acc_chunk(Seq::empty(), l4, r4);
    assert(Seq::<char>::empty() + l4 =~= l4);
    assert(crate::strutil::spec_strip_cr(l4) == l4);
    lemma_lines_acc_chunk(Seq::empty(), d, r5);
    assert(Seq::<char>::empty() + d =~= d);
    assert(crate::strutil::spec_strip_cr(d) == d);
    lemma_lines_acc_chunk(Seq::empty(), e, rest);
    assert(Seq::<char>::empty() + e =~= e);
    assert(crate::strutil::spec_strip_cr(e) == e);
    assert(crate::strutil::spec_lines(whole) =~= spec_header_lines(pk)
        + crate::strutil::spec_lines(rest));
}

/// None of the header's lines assigns a key other than the public-key
/// marker, which its assignment line does assign.
#[verifier::rlimit(100)]
proof fn lemma_header_assigns(pk: Seq<char>, k: Seq<char>)
    requires
        crate::hex::spec_is_lower_hex(pk),
    ensures
        crate::parser::spec_value_in(spec_header_lines(pk), "DOTENV_PUBLIC_KEY"@) is Some,
        k != "DOTENV_PUBLIC_KEY"@ ==> crate::parser::spec_value_in(spec_header_lines(pk), k)
            is None,
{
    reveal_strlit("#/-------------------[DOTENV_PUBLIC_KEY]--------------------/");
    reveal_strlit("#/            public-key encryption for .env files          /");
    reveal_strlit("#/       [how it works](https://dotenvx.com/encryption)     /");
    reveal_strlit("#/----------------------------------------------------------/");
    reveal_strlit("DOTENV_PUBLIC_KEY=\"");
    reveal_strlit("DOTENV_PUBLIC_KEY");
    reveal_strlit("export ");
    reveal_strlit("\"");
    let hl = spec_header_lines(pk);
    let l1 = "#/-------------------[DOTENV_PUBLIC_KEY]--------------------/"@;
    let l2 = "#/            public-key encryption for .env files          /"@;
    let l3 = "#/       [how it works](https://dotenvx.com/encryption)     /"@;
    let l4 = "#/----------------------------------------------------------/"@;
    let d = "DOTENV_PUBLIC_KEY=\""@ + pk + "\""@;
    crate::strutil::lemma_trim_id(l1);
    crate::strutil::lemma_trim_id(l2);
    crate::strutil::lemma_trim_id(l3);
    crate::strutil::lemma_trim_id(l4);
    assert(crate::parser::spec_classify(l1) is Skip);
    assert(crate::parser::spec_classify(l2) is Skip);
    assert(crate::parser::spec_classify(l3) is Skip);
    assert(crate::parser::spec_classify(l4) is Skip);
    assert(crate::parser::spec_classify(Seq::<char>::empty()) is Skip) by {
        assert(spec_trim(Seq::<char>::empty()).len() == 0);
    }
    assert(forall|m: int| 0 <= m < 19 ==> d[m] == "DOTENV_PUBLIC_KEY=\""@[m]);
    assert(forall|m: int| 19 <= m < 19 + pk.len() ==> d[m] == pk[m - 19]);
    assert(d[d.len() - 1] == '"');
    assert(forall|m: int|
        0 <= m < pk.len() ==> crate::hex::spec_is_lower_hex_char(#[trigger] pk[m]));
    assert(forall|m: int| 19 <= m < 19 + pk.len() ==> d[m] != '=') by {
        assert('=' as u32 == 61);
    }
    crate::strutil::lemma_trim_id(d);
    let t = d;
    assert(spec_trim(d) == t);
    assert(t[0] == 'D');
    assert(!crate::strutil::spec_starts_with(t, "export "@)) by {
        if crate::strutil::spec_starts_with(t, "export "@) {
            assert(t.subrange(0, 7)[0] == t[0]);
            assert(t[0] == 'e');
        }
    }
    lemma_index_of_props(t, '=');
    assert(spec_index_of(t, '=') == Some(17nat)) by {
        assert(t[17] == '=');
        assert(forall|m: int| 0 <= m < 17 ==> t[m] != '=');
        match spec_index_of(t, '=') {
            Some(p) => {
                if p < 17 {
                    assert(t[p as int] != '=');
                }
                if p > 17 {
                    assert(t[17] == '=');
                }
            },
            None => {
                assert(t[17] == '=');
            },
        }
    }
    assert(t.take(17) =~= "DOTENV_PUBLIC_KEY"@) by {
        assert(forall|m: int| 0 <= m < 17 ==> t[m] == "DOTENV_PUBLIC_KEY"@[m]);
    }
    crate::strutil::lemma_trim_id("DOTENV_PUBLIC_KEY"@);
    assert(crate::parser::spec_classify(d) is Pair);
    assert(crate::parser::spec_classify(d)->Pair_0 == "DOTENV_PUBLIC_KEY"@);
    let h5 = seq![l1, l2, l3, l4, d];
    let h4 = seq![l1, l2, l3, l4];
    let h3 = seq![l1, l2, l3];
    let h2 = seq![l1, l2];
    let h1 = seq![l1];
    assert(hl.last() =~= Seq::<char>::empty());
    assert(hl.drop_last() =~= h5);
    assert(h5.last() == d);
    assert(h5.drop_last() =~= h4);
    assert(h4.last() == l4);
    assert(h4.drop_last() =~= h3);
    assert(h3.last() == l3);
    assert(h3.drop_last() =~= h2);
    assert(h2.last() == l2);
    assert(h2.drop_last() =~= h1);
    assert(h1.last() == l1);
    assert(h1.drop_last() =~= Seq::<Seq<char>>::empty());
    assert(crate::parser::spec_value_in(hl, "DOTENV_PUBLIC_KEY"@) == crate::parser::spec_value_in(
        h5,
        "DOTENV_PUBLIC_KEY"@,
    ));
    assert(crate::parser::spec_value_in(h5, "DOTENV_PUBLIC_KEY"@) is Some);
    if k != "DOTENV_PUBLIC_KEY"@ {
        assert(crate::parser::spec_value_in(hl, k) == crate::parser::spec_value_in(h5, k));
        assert(crate::parser::spec_value_in(h5, k) == crate::parser::spec_value_in(h4, k));
        assert(crate::parser::spec_value_in(h4, k) == crate::parser::spec_value_in(h3, k));
        assert(crate::parser::spec_value_in(h3, k) == crate::parser::spec_value_in(h2, k));
        assert(crate::parser::spec_value_in(h2, k) == crate::parser::spec_value_in(h1, k));
        assert(crate::parser::spec_value_in(h1, k) == crate::parser::spec_value_in(
            Seq::<Seq<char>>::empty(),
            k,
        ));
    }
}

/// Parser preservation over the whole emitted file: the rewritten text
/// (header and body) assigns exactly the input's keys together with
/// `DOTENV_PUBLIC_KEY`, which the header assigns. Holds for inputs the
/// parser accepts whose lines are free of carriage returns and of the
/// loose `DOTENV_PUBLIC_KEY "` form.
pub proof fn lemma_encrypted_output_keys(
    lines: Seq<Seq<char>>,
    pieces: Seq<Seq<char>>,
    pkb: Seq<u8>,
    specific: Option<Seq<Seq<char>>>,
    exclude: Option<Seq<Seq<char>>>,
    pk_hex: Seq<char>,
    k: Seq<char>,
)
    requires
        pieces.len() == lines.len(),
        forall|j: int|
            0 <= j < lines.len() ==> spec_enc_piece_ok(lines[j], pieces[j], pkb, specific, exclude),
        forall|j: int| 0 <= j < lines.len() ==> !crate::parser::spec_line_bad(lines[j]),
        forall|j: int| 0 <= j < lines.len() ==> spec_line_plain(#[trigger] lines[j]),
        forall|j: int|
            0 <= j < lines.len() ==> !crate::strutil::spec_starts_with(
                spec_trim(#[trigger] lines[j]),
                "DOTENV_PUBLIC_KEY \""@,
            ),
        crate::hex::spec_is_lower_hex(pk_hex),
    ensures
        crate::parser::spec_value_in(
            crate::strutil::spec_lines(
                crate::rewrite::spec_enc_header(pk_hex) + spec_concat_pieces(pieces),
            ),
            k,
        ) is Some <==> (k == "DOTENV_PUBLIC_KEY"@ || crate::parser::spec_value_in(lines, k)
            is Some),
{
    let body = spec_concat_pieces(pieces);
    assert(forall|m: int|
        0 <= m < pk_hex.len() ==> crate::hex::spec_is_lower_hex_char(#[trigger] pk_hex[m]));
    assert(forall|m: int| 0 <= m < pk_hex.len() ==> pk_hex[m] != '\n' && pk_hex[m] != '\r') by {
        assert('\n' as u32 == 10);
        assert('\r' as u32 == 13);
    }
    lemma_header_lines_split(pk_hex, body);
    lemma_value_in_concat(spec_header_lines(pk_hex), crate::strutil::spec_lines(body), k);
    lemma_header_assigns(pk_hex, k);
    if k == "DOTENV_PUBLIC_KEY"@ {
        lemma_value_in_concat(
            spec_header_lines(pk_hex),
            crate::strutil::spec_lines(body),
            "DOTENV_PUBLIC_KEY"@,
        );
    } else {
        lemma_rewrite_file_preserves_keys(lines, pieces, pkb, specific, exclude, k);
    }
}

/// A line free of newlines and carriage returns.
pub open spec fn spec_line_plain(line: Seq<char>) -> bool {
    forall|m: int| 0 <= m < line.len() ==> line[m] != '\n' && line[m] != '\r'
}

/// Every piece of the encrypted output of a plain line is empty or one
/// newline-terminated line.
#[verifier::rlimit(100)]
proof fn lemma_piece_shape(
    line: Seq<char>,
    piece: Seq<char>,
    pkb: Seq<u8>,
    specific: Option<Seq<Seq<char>>>,
    exclude: Option<Seq<Seq<char>>>,
)
    requires
        spec_enc_piece_ok(line, piece, pkb, specific, exclude),
        spec_line_plain(line),
    ensures
        spec_piece_shape(piece),
{
    reveal_strlit("\n");
    reveal_strlit("export ");
    reveal_strlit("=\"");
    reveal_strlit("\"\n");
    reveal_strlit("encrypted:");
    let t = spec_trim(line);
    if t.len() == 0 || t[0] == '#' {
        assert((line + "\n"@).last() == '\n');
    } else if crate::strutil::spec_starts_with(t, "DOTENV_PUBLIC_KEY="@)
        || crate::strutil::spec_starts_with(t, "DOTENV_PUBLIC_KEY \""@) {
    } else {
        let ex = crate::strutil::spec_starts_with(t, "export "@);
        let lc: Seq<char> = if ex {
            t.skip(7)
        } else {
            t
        };
        match spec_index_of(lc, '=') {
            None => {
                assert((line + "\n"@).last() == '\n');
            },
            Some(e) => {
                lemma_index_of_props(lc, '=');
                let z = lc.take(e as int);
                let key = spec_trim(z);
                let vp = spec_trim(lc.skip(e as int + 1));
                if crate::rewrite::spec_should_encrypt(key, specific, exclude)
                    && !crate::strutil::spec_starts_with(vp, "encrypted:"@) {
                    let value = crate::resolve::spec_simple_unquote(vp);
                    let token = choose|token: Seq<char>|
                        #![trigger crate::ecies::spec_is_envelope_for(token, value, pkb)]
                        piece == (if ex {
                            "export "@
                        } else {
                            Seq::<char>::empty()
                        }) + key + "=\""@ + token + "\"\n"@
                            && crate::ecies::spec_is_envelope_for(token, value, pkb)
                            && crate::ecies::spec_decrypts_to(token, value, pkb)
                            && crate::ecies::spec_token_wf(token);
                    crate::strutil::lemma_trim_parts(line);
                    let (la, lb): (int, int) = choose|a: int, b: int|
                        0 <= a <= b <= line.len() && #[trigger] line.subrange(a, b) == spec_trim(
                            line,
                        );
                    assert(forall|m: int| 0 <= m < t.len() ==> t[m] == line[la + m]);
                    assert(forall|m: int| 0 <= m < t.len() ==> t[m] != '\n' && t[m] != '\r');
                    assert(forall|m: int| 0 <= m < lc.len() ==> lc[m] != '\n' && lc[m] != '\r');
                    assert(forall|m: int| 0 <= m < z.len() ==> z[m] != '\n' && z[m] != '\r');
                    crate::strutil::lemma_trim_parts(z);
                    let (za, zb): (int, int) = choose|a: int, b: int|
                        0 <= a <= b <= z.len() && #[trigger] z.subrange(a, b) == spec_trim(z);
                    assert(forall|m: int| 0 <= m < key.len() ==> key[m] == z[za + m]);
                    assert(forall|m: int| 0 <= m < key.len() ==> key[m] != '\n' && key[m] != '\r');
                    assert(forall|i: int|
                        0 <= i < token.len() ==> token[i] != '\n' && token[i] != '\r') by {
                        assert forall|i: int|
                            0 <= i < token.len() implies token[i] != '\n' && token[i] != '\r' by {
                            if i < 10 {
                                assert(token.subrange(0, 10) == "encrypted:"@);
                                assert(token[i] == "encrypted:"@[i]);
                            } else {
                                assert(crate::primitives::spec_is_b64_char(token[i]));
                                assert('\n' as u32 == 10);
                                assert('\r' as u32 == 13);
                            }
                        }
                    }
                    assert(piece.last() == '\n');
                    assert(forall|m: int|
                        0 <= m < piece.len() - 1 ==> piece[m] != '\n' && piece[m] != '\r');
                } else {
                    assert((line + "\n"@).last() == '\n');
                }
            },
        }
    }
}

/// Parser preservation over a whole rewrite: the body the rewriter
/// emits (the joined pieces, standing after the emitted header)
/// assigns exactly the keys the input assigns, apart from
/// `DOTENV_PUBLIC_KEY`, whose lines are dropped and replaced by the
/// header's own. Holds for inputs the parser accepts whose lines are
/// free of carriage returns and of the loose `DOTENV_PUBLIC_KEY "`
/// form.
#[verifier::rlimit(100)]
pub proof fn lemma_rewrite_file_preserves_keys(
    lines: Seq<Seq<char>>,
    pieces: Seq<Seq<char>>,
    pkb: Seq<u8>,
    specific: Option<Seq<Seq<char>>>,
    exclude: Option<Seq<Seq<char>>>,
    k: Seq<char>,
)
    requires
        pieces.len() == lines.len(),
        forall|j: int|
            0 <= j < lines.len() ==> spec_enc_piece_ok(lines[j], pieces[j], pkb, specific, exclude),
        forall|j: int| 0 <= j < lines.len() ==> !crate::parser::spec_line_bad(lines[j]),
        forall|j: int| 0 <= j < lines.len() ==> spec_line_plain(#[trigger] lines[j]),
        forall|j: int|
            0 <= j < lines.len() ==> !crate::strutil::spec_starts_with(
                spec_trim(#[trigger] lines[j]),
                "DOTENV_PUBLIC_KEY \""@,
            ),
        k != "DOTENV_PUBLIC_KEY"@,
    ensures
        crate::parser::spec_value_in(
            crate::strutil::spec_lines(spec_concat_pieces(pieces)),
            k,
        ) is Some <==> crate::parser::spec_value_in(lines, k) is Some,
{
    assert forall|j: int| 0 <= j < pieces.len() implies spec_piece_shape(#[trigger] pieces[j]) by {
        lemma_piece_shape(lines[j], pieces[j], pkb, specific, exclude);
    }
    lemma_lines_of_pieces(pieces);
    lemma_value_in_some_iff(spec_pieces_lines(pieces), k);
    lemma_pieces_assign_iff(pieces, k);
    lemma_value_in_some_iff(lines, k);
    assert forall|j: int| 0 <= j < lines.len() implies ((pieces[j].len() > 0 && spec_assigns(
        pieces[j].drop_last(),
        k,
    )) <==> spec_assigns(#[trigger] lines[j], k)) by {
        lemma_rewrite_preserves_keys(lines[j], pieces[j], pkb, specific, exclude);
        reveal_strlit("\n");
        let t = spec_trim(lines[j]);
        match crate::parser::spec_classify(lines[j]) {
            crate::parser::SpecLine::Skip => {
                assert(pieces[j].drop_last() =~= lines[j]);
            },
            crate::parser::SpecLine::Pair(key, v) => {
                if crate::strutil::spec_starts_with(t, "DOTENV_PUBLIC_KEY="@) {
                    reveal_strlit("DOTENV_PUBLIC_KEY=");
                    reveal_strlit("DOTENV_PUBLIC_KEY");
                    reveal_strlit("export ");
                    assert(t.subrange(0, 18) == "DOTENV_PUBLIC_KEY="@);
                    assert(forall|m: int|
                        0 <= m < 18 ==> t[m] == t.subrange(0, 18)[m]);
                    assert(forall|m: int| 0 <= m < 18 ==> t[m] == "DOTENV_PUBLIC_KEY="@[m]);
                    assert(!crate::strutil::spec_starts_with(t, "export "@)) by {
                        assert(t[0] == 'D');
                    }
                    assert(spec_index_of(t, '=') == Some(17nat)) by {
                        lemma_index_of_props(t, '=');
                        assert(t[17] == '=');
                        assert(forall|m: int| 0 <= m < 17 ==> t[m] != '=');
                        match spec_index_of(t, '=') {
                            Some(p) => {
                                if p < 17 {
                                    assert(t[p as int] != '=');
                                }
                            },
                            None => {
                                assert(t[17] == '=');
                            },
                        }
                    }
                    assert(t.take(17) =~= "DOTENV_PUBLIC_KEY"@) by {
                        assert(forall|m: int| 0 <= m < 17 ==> t[m] == "DOTENV_PUBLIC_KEY="@[m]);
                    }
                    assert(spec_trim("DOTENV_PUBLIC_KEY"@) == "DOTENV_PUBLIC_KEY"@) by {
                        crate::strutil::lemma_trim_id("DOTENV_PUBLIC_KEY"@);
                    }
                    assert(key == "DOTENV_PUBLIC_KEY"@);
                } else {
                    assert(crate::parser::spec_classify(pieces[j].drop_last()) is Pair);
                    assert(pieces[j].len() > 0) by {
                        if pieces[j].len() == 0 {
                            assert(pieces[j].drop_last() =~= Seq::<char>::empty());
                            assert(spec_trim(Seq::<char>::empty()).len() == 0);
                            assert(crate::parser::spec_classify(Seq::<char>::empty())
                                is Skip);
                        }
                    }
                }
            },
            _ => {
            },
        }
    }
    if exists|j: int| 0 <= j < lines.len() && spec_assigns(#[trigger] lines[j], k) {
        let j = choose|j: int| 0 <= j < lines.len() && spec_assigns(#[trigger] lines[j], k);
        assert(pieces[j].len() > 0 && spec_assigns(pieces[j].drop_last(), k));
    }
    if exists|j: int|
        0 <= j < pieces.len() && (#[trigger] pieces[j]).len() > 0 && spec_assigns(
            pieces[j].drop_last(),
            k,
        ) {
        let j = choose|j: int|
            0 <= j < pieces.len() && (#[trigger] pieces[j]).len() > 0 && spec_assigns(
                pieces[j].drop_last(),
                k,
            );
        assert(spec_assigns(lines[j], k));
    }
}

/// A string without `$` passes through the `$NAME` pass unchanged.
proof fn lemma_simple_pass_inert(s: Seq<char>, keys: Seq<Seq<char>>, vals: Seq<Seq<char>>, i: int)
    requires
        0 <= i <= s.len(),
        forall|m: int| 0 <= m < s.len() ==> s[m] != '$',
    ensures
        spec_expand_simple_from(s, keys, vals, i) == s.skip(i),
    decreases s.len() - i,
{
    if i == s.len() {
        assert(s.skip(i) =~= Seq::<char>::empty());
    } else {
        assert(spec_simple_at(s, keys, vals, i) is None);
        lemma_simple_pass_inert(s, keys, vals, i + 1);
        assert(seq![s[i]] + s.skip(i + 1) =~= s.skip(i));
    }
}

/// A name character is none of the delimiter characters.
proof fn lemma_name_char_plain(c: char)
    requires
        spec_is_name_char(c),
    ensures
        c != '}' && c != '$' && c != ':',
{
    assert('}' as u32 == 125);
    assert('$' as u32 == 36);
    assert(':' as u32 == 58);
}

/// The brace pass on exactly `${X op W}` for a name `X`, an operator
/// `op` (`:-` or `:+`), and a brace-free word `W`.
proof fn lemma_brace_form(
    x: Seq<char>,
    w: Seq<char>,
    keys: Seq<Seq<char>>,
    vals: Seq<Seq<char>>,
    minus: bool,
)
    requires
        x.len() > 0,
        spec_is_name_start(x[0]),
        forall|m: int| 0 <= m < x.len() ==> spec_is_name_char(x[m]),
        forall|m: int| 0 <= m < w.len() ==> w[m] != '}',
    ensures
        spec_expand_braces_from(
            "${"@ + x + (if minus {
                ":-"@
            } else {
                ":+"@
            }) + w + "}"@,
            keys,
            vals,
            0,
        ) == (if minus {
            if spec_set_nonempty(keys, vals, x) {
                spec_plain_value(keys, vals, x)
            } else {
                w
            }
        } else {
            if spec_set_nonempty(keys, vals, x) {
                w
            } else {
                Seq::<char>::empty()
            }
        }),
{
    reveal_strlit("${");
    reveal_strlit(":-");
    reveal_strlit(":+");
    reveal_strlit("}");
    let op: Seq<char> = if minus {
        ":-"@
    } else {
        ":+"@
    };
    let s = "${"@ + x + op + w + "}"@;
    assert(s.len() == x.len() + w.len() + 5);
    assert(s[0] == '$');
    assert(s[1] == '{');
    let inner = s.skip(2);
    assert(inner =~= x + op + w + "}"@);
    let j0 = x.len() + 2 + w.len() as int;
    assert(inner[j0] == '}');
    assert forall|m: int| 0 <= m < j0 implies inner[m] != '}' by {
        if m < x.len() {
            assert(inner[m] == x[m]);
            lemma_name_char_plain(x[m]);
        } else if m < x.len() + 2 {
            assert(inner[m] == op[m - x.len()]);
        } else {
            assert(inner[m] == w[m - x.len() - 2]);
        }
    }
    lemma_index_of_props(inner, '}');
    assert(spec_index_of(inner, '}') == Some(j0 as nat)) by {
        match spec_index_of(inner, '}') {
            Some(k) => {
                if k < j0 {
                    assert(inner[k as int] != '}');
                }
                if k > j0 {
                    assert(inner[j0] == '}');
                }
            },
            None => {
                assert(inner[j0] == '}');
            },
        }
    }
    let body = inner.take(j0);
    assert(body =~= x + op + w);
    assert forall|m: int| 1 <= m < x.len() implies spec_is_name_char(body[m]) by {
        assert(body[m] == x[m]);
    }
    assert(body[x.len() as int] == ':');
    assert(!spec_is_name_char(':'));
    lemma_ext_scan_end(body, 1, x.len() as int);
    assert(spec_name_len(body) == x.len());
    assert(body.take(x.len() as int) =~= x);
    let rest = body.skip(x.len() as int);
    assert(rest =~= op + w);
    assert(rest[0] == ':');
    assert(rest[1] == op[1]);
    assert(rest.skip(2) =~= w);
    let repl: Seq<char> = if minus {
        if spec_set_nonempty(keys, vals, x) {
            spec_plain_value(keys, vals, x)
        } else {
            w
        }
    } else {
        if spec_set_nonempty(keys, vals, x) {
            w
        } else {
            Seq::<char>::empty()
        }
    };
    assert(crate::expansion::spec_brace_at(s, keys, vals, 0) == Some((repl, s.len() as int)));
    assert(spec_expand_braces_from(s, keys, vals, s.len() as int) =~= Seq::<char>::empty());
    assert(repl + Seq::<char>::empty() =~= repl);
}

/// Expansion defaults: `${X:-W}` expands to the value of `X` when `X`
/// is bound and non-empty, and to `W` otherwise — for a plain word `W`
/// and a plain bound value (neither holding `$`, `W` holding no `}`).
pub proof fn lemma_expand_default(
    x: Seq<char>,
    w: Seq<char>,
    keys: Seq<Seq<char>>,
    vals: Seq<Seq<char>>,
)
    requires
        x.len() > 0,
        spec_is_name_start(x[0]),
        forall|m: int| 0 <= m < x.len() ==> spec_is_name_char(x[m]),
        forall|m: int| 0 <= m < w.len() ==> w[m] != '}' && w[m] != '$',
        match spec_assoc(keys, vals, x) {
            Some(v) => forall|m: int| 0 <= m < v.len() ==> v[m] != '$',
            None => true,
        },
    ensures
        spec_expand("${"@ + x + ":-"@ + w + "}"@, keys, vals) == (if spec_set_nonempty(
            keys,
            vals,
            x,
        ) {
            spec_plain_value(keys, vals, x)
        } else {
            w
        }),
{
    lemma_brace_form(x, w, keys, vals, true);
    let repl: Seq<char> = if spec_set_nonempty(keys, vals, x) {
        spec_plain_value(keys, vals, x)
    } else {
        w
    };
    lemma_simple_pass_inert(repl, keys, vals, 0);
    assert(repl.skip(0) =~= repl);
}

/// Expansion alternates: `${X:+W}` expands to `W` exactly when `X` is
/// bound and non-empty, and to the empty string otherwise — for a
/// plain word `W` (holding no `}` or `$`).
pub proof fn lemma_expand_alternate(
    x: Seq<char>,
    w: Seq<char>,
    keys: Seq<Seq<char>>,
    vals: Seq<Seq<char>>,
)
    requires
        x.len() > 0,
        spec_is_name_start(x[0]),
        forall|m: int| 0 <= m < x.len() ==> spec_is_name_char(x[m]),
        forall|m: int| 0 <= m < w.len() ==> w[m] != '}' && w[m] != '$',
    ensures
        spec_expand("${"@ + x + ":+"@ + w + "}"@, keys, vals) == (if spec_set_nonempty(
            keys,
            vals,
            x,
        ) {
            w
        } else {
            Seq::<char>::empty()
        }),
{
    lemma_brace_form(x, w, keys, vals, false);
    let repl: Seq<char> = if spec_set_nonempty(keys, vals, x) {
        w
    } else {
        Seq::<char>::empty()
    };
    lemma_simple_pass_inert(repl, keys, vals, 0);
    assert(repl.skip(0) =~= repl);
}

} // verus!
