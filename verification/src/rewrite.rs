//! Format-preserving file rewriting: encrypting and decrypting the
//! values of `.env` text, setting a single key, and maintaining the
//! sibling keys file. Lines not targeted by an operation pass through
//! unchanged.
use vstd::prelude::*;
use vstd::string::*;

use crate::ecies::spec_decrypt;
use crate::ecies::spec_decrypts_to;
use crate::ecies::spec_is_envelope_for;
use crate::ecies::SpecDecrypt;
use crate::strutil::contains_sub;
use crate::strutil::spec_has_sub;
use crate::errors::DotenvxError;
use crate::hex::spec_hex_decode;
use crate::hex::spec_hex_of;
use crate::keypair::spec_priv_hex_wf;
use crate::keypair::spec_pub_hex_wf;
use crate::keypair::Keypair;
use crate::parser::spec_error_at;
use crate::parser::spec_parse_err_msg;
use crate::parser::spec_classify;
use crate::parser::spec_value_in;
use crate::parser::DotenvParser;
use crate::primitives::spec_public_of;
use crate::resolve::simple_unquote;
use crate::resolve::spec_simple_unquote;
use crate::strutil::begins_with;
use crate::strutil::chars_of;
use crate::strutil::find_char;
use crate::strutil::lemma_concat_push;
use crate::strutil::lemma_index_of_props;
use crate::strutil::push_all;
use crate::strutil::push_str_chars;
use crate::strutil::spec_concat_pieces;
use crate::strutil::spec_index_of;
use crate::strutil::spec_lines;
use crate::strutil::spec_starts_with;
use crate::strutil::spec_trim;
use crate::strutil::split_lines;
use crate::strutil::string_of;
use crate::strutil::sub_chars;
use crate::strutil::trim_chars;

verus! {

/// Whether values of `key` are to be encrypted: never the public-key
/// marker itself; otherwise only the named keys when a list is given,
/// all but the excluded keys when an exclusion list is given, and
/// everything else.
pub open spec fn spec_should_encrypt(
    k: Seq<char>,
    specific: Option<Seq<Seq<char>>>,
    exclude: Option<Seq<Seq<char>>>,
) -> bool {
    if k == "DOTENV_PUBLIC_KEY"@ {
        false
    } else {
        match specific {
            Some(list) => list.contains(k),
            None => match exclude {
                Some(list) => !list.contains(k),
                None => true,
            },
        }
    }
}

/// Whether `list` holds `key`.
fn list_contains(list: &Vec<String>, key: &str) -> (r: bool)
    ensures
        r == list.deep_view().contains(key@),
{
    let k = String::from_str(key);
    let n = list.len();
    assert(forall|j: int| 0 <= j < list@.len() ==> list.deep_view()[j] == list@[j]@);
    let mut i: usize = 0;
    while i < n
        invariant
            n == list@.len(),
            n == list.deep_view().len(),
            k@ == key@,
            forall|j: int| 0 <= j < list@.len() ==> list.deep_view()[j] == list@[j]@,
            i <= n,
            forall|j: int| 0 <= j < i ==> list.deep_view()[j] != key@,
        decreases n - i,
    {
        if list[i].eq(&k) {
            assert(list.deep_view().contains(key@)) by {
                assert(list.deep_view()[i as int] == key@);
            }
            return true;
        }
        i = i + 1;
    }
    false
}

/// Whether values of `key` are to be encrypted.
pub fn should_encrypt_key(
    key: &str,
    specific_keys: Option<&Vec<String>>,
    exclude_keys: Option<&Vec<String>>,
) -> (r: bool)
    ensures
        r == spec_should_encrypt(
            key@,
            match specific_keys {
                Some(v) => Some(v.deep_view()),
                None => None,
            },
            match exclude_keys {
                Some(v) => Some(v.deep_view()),
                None => None,
            },
        ),
{
    let marker = String::from_str("DOTENV_PUBLIC_KEY");
    let k = String::from_str(key);
    if k.eq(&marker) {
        return false;
    }
    if let Some(list) = specific_keys {
        return list_contains(list, key);
    }
    if let Some(list) = exclude_keys {
        return !list_contains(list, key);
    }
    true
}

/// The banner above the public key of an encrypted `.env` file, line
/// by line.
pub open spec fn spec_env_banner() -> Seq<char> {
    "#/-------------------[DOTENV_PUBLIC_KEY]--------------------/"@ + "\n"@
        + "#/            public-key encryption for .env files          /"@ + "\n"@
        + "#/       [how it works](https://dotenvx.com/encryption)     /"@ + "\n"@
        + "#/----------------------------------------------------------/"@ + "\n"@
}

/// The header of an encrypted `.env` file: the banner, the public-key
/// line, and a blank line.
pub open spec fn spec_enc_header(pk: Seq<char>) -> Seq<char> {
    spec_env_banner() + "DOTENV_PUBLIC_KEY=\""@ + pk + "\"\n\n"@
}

/// The piece re-emitting an assignment with its value as an envelope
/// token: `[export ]KEY="<token>"` and a newline, for a token that is
/// an envelope of the value under the recipient point and decrypts
/// back to it.
pub open spec fn spec_token_piece(
    piece: Seq<char>,
    ex: bool,
    key: Seq<char>,
    value: Seq<char>,
    pkb: Seq<u8>,
) -> bool {
    exists|token: Seq<char>|
        #![trigger spec_is_envelope_for(token, value, pkb)]
        piece == (if ex {
            "export "@
        } else {
            Seq::<char>::empty()
        }) + key + "=\""@ + token + "\"\n"@ && spec_is_envelope_for(token, value, pkb)
            && spec_decrypts_to(token, value, pkb) && crate::ecies::spec_token_wf(token)
}

/// What one input line contributes to the encrypted output: blank and
/// comment lines pass through, public-key lines are dropped (the
/// header already holds one), a targeted assignment is re-emitted with
/// its value as a fresh envelope token, everything else passes through.
pub open spec fn spec_enc_piece_ok(
    line: Seq<char>,
    piece: Seq<char>,
    pkb: Seq<u8>,
    specific: Option<Seq<Seq<char>>>,
    exclude: Option<Seq<Seq<char>>>,
) -> bool {
    let t = spec_trim(line);
    if t.len() == 0 || t[0] == '#' {
        piece == line + "\n"@
    } else if spec_starts_with(t, "DOTENV_PUBLIC_KEY="@) || spec_starts_with(
        t,
        "DOTENV_PUBLIC_KEY \""@,
    ) {
        piece == Seq::<char>::empty()
    } else {
        let ex = spec_starts_with(t, "export "@);
        let lc = if ex {
            t.skip(7)
        } else {
            t
        };
        match spec_index_of(lc, '=') {
            None => piece == line + "\n"@,
            Some(e) => {
                let key = spec_trim(lc.take(e as int));
                let vp = spec_trim(lc.skip(e as int + 1));
                if spec_should_encrypt(key, specific, exclude) && !spec_starts_with(
                    vp,
                    "encrypted:"@,
                ) {
                    spec_token_piece(piece, ex, key, spec_simple_unquote(vp), pkb)
                } else {
                    piece == line + "\n"@
                }
            },
        }
    }
}

/// Whether a line's value, were it to be encrypted, is within the
/// cipher's bound of 2^36 bytes; lines the rewriter does not encrypt
/// fit trivially.
pub open spec fn spec_enc_line_fits(
    line: Seq<char>,
    specific: Option<Seq<Seq<char>>>,
    exclude: Option<Seq<Seq<char>>>,
) -> bool {
    let t = spec_trim(line);
    if t.len() == 0 || t[0] == '#' {
        true
    } else if spec_starts_with(t, "DOTENV_PUBLIC_KEY="@) || spec_starts_with(
        t,
        "DOTENV_PUBLIC_KEY \""@,
    ) {
        true
    } else {
        let ex = spec_starts_with(t, "export "@);
        let lc = if ex {
            t.skip(7)
        } else {
            t
        };
        match spec_index_of(lc, '=') {
            None => true,
            Some(e) => {
                let key = spec_trim(lc.take(e as int));
                let vp = spec_trim(lc.skip(e as int + 1));
                if spec_should_encrypt(key, specific, exclude) && !spec_starts_with(
                    vp,
                    "encrypted:"@,
                ) {
                    vstd::utf8::encode_utf8(spec_simple_unquote(vp)).len() <= 0x10_0000_0000
                } else {
                    true
                }
            },
        }
    }
}

/// The outcome of encrypting a file's text: the rewritten text and the
/// keypair in force (fresh, or recovered from the resolved private key).
pub struct EncryptedFile {
    /// The rewritten text.
    pub content: String,
    /// The hex public key the values are encrypted to.
    pub public_key: String,
    /// The hex private key that decrypts them.
    pub private_key: String,
}

/// Encrypt the targeted values of `.env` text. When the text already
/// names a `DOTENV_PUBLIC_KEY`, the resolved private key must be given
/// and its keypair is adopted; otherwise a fresh keypair is generated,
/// whose private half the caller must persist. The output starts with
/// the banner and public-key header; every line not targeted passes
/// through unchanged.
pub fn encrypt_file(
    content: &str,
    private_key: Option<&String>,
    specific_keys: Option<&Vec<String>>,
    exclude_keys: Option<&Vec<String>>,
) -> (r: Result<EncryptedFile, DotenvxError>)
    ensures
        r is Ok ==> ({
            let ef = r->Ok_0;
            let ls = spec_lines(content@);
            let pkb = spec_hex_decode(ef.public_key@).unwrap();
            &&& spec_error_at(ls) is None
            &&& spec_pub_hex_wf(ef.public_key@)
            &&& spec_priv_hex_wf(ef.private_key@)
            &&& pkb == spec_public_of(spec_hex_decode(ef.private_key@).unwrap())
            &&& (spec_value_in(ls, "DOTENV_PUBLIC_KEY"@) is Some ==> match private_key {
                Some(p) => ef.private_key@ == spec_hex_of(spec_hex_decode(p@).unwrap()),
                None => false,
            })
            &&& exists|pieces: Seq<Seq<char>>|
                #![trigger spec_concat_pieces(pieces)]
                pieces.len() == ls.len() && (forall|j: int|
                    0 <= j < ls.len() ==> spec_enc_piece_ok(
                        ls[j],
                        pieces[j],
                        pkb,
                        match specific_keys {
                            Some(v) => Some(v.deep_view()),
                            None => None,
                        },
                        match exclude_keys {
                            Some(v) => Some(v.deep_view()),
                            None => None,
                        },
                    )) && ef.content@ == spec_enc_header(ef.public_key@) + spec_concat_pieces(
                    pieces,
                )
        }),
        (spec_error_at(spec_lines(content@)) is None && (match spec_value_in(
            spec_lines(content@),
            "DOTENV_PUBLIC_KEY"@,
        ) {
            Some(_) => match private_key {
                Some(p) => spec_hex_decode(p@) is Some && crate::primitives::spec_sk_ok(
                    spec_hex_decode(p@).unwrap(),
                ),
                None => false,
            },
            None => true,
        }) && (forall|j: int|
            0 <= j < spec_lines(content@).len() ==> spec_enc_line_fits(
                #[trigger] spec_lines(content@)[j],
                match specific_keys {
                    Some(v) => Some(v.deep_view()),
                    None => None,
                },
                match exclude_keys {
                    Some(v) => Some(v.deep_view()),
                    None => None,
                },
            ))) ==> r is Ok,
        r is Err ==> (match spec_error_at(spec_lines(content@)) {
            Some(i) => r->Err_0 matches DotenvxError::ParseError { line: l, message } && l == i + 1
                && message@ == spec_parse_err_msg(spec_classify(spec_lines(content@)[i as int])),
            None => {
                if spec_value_in(spec_lines(content@), "DOTENV_PUBLIC_KEY"@) is Some {
                    match private_key {
                        None => r->Err_0 matches DotenvxError::MissingPrivateKey { .. },
                        Some(p) => {
                            if spec_hex_decode(p@) is None {
                                r->Err_0 matches DotenvxError::HexDecode(_)
                            } else if !crate::primitives::spec_sk_ok(spec_hex_decode(p@).unwrap()) {
                                r->Err_0 matches DotenvxError::InvalidPrivateKey(_)
                            } else {
                                r->Err_0 matches DotenvxError::EncryptionFailed(_)
                            }
                        },
                    }
                } else {
                    r->Err_0 matches DotenvxError::EncryptionFailed(_)
                }
            },
        }),
{
    let ghost sd: Option<Seq<Seq<char>>> = match specific_keys {
        Some(v) => Some(v.deep_view()),
        None => None,
    };
    let ghost ed: Option<Seq<Seq<char>>> = match exclude_keys {
        Some(v) => Some(v.deep_view()),
        None => None,
    };
    let mut parser = DotenvParser::new();
    match parser.parse(content) {
        Ok(_) => {},
        Err(e) => {
            return Err(e);
        },
    }
    let has_pk = parser.variables().contains_key("DOTENV_PUBLIC_KEY");
    assert(has_pk == (spec_value_in(spec_lines(content@), "DOTENV_PUBLIC_KEY"@) is Some));
    let keypair = if has_pk {
        match private_key {
            Some(p) => {
                match Keypair::from_private_key(p.as_str()) {
                    Ok(k) => k,
                    Err(e) => {
                        return Err(e);
                    },
                }
            },
            None => {
                return Err(
                    DotenvxError::MissingPrivateKey {
                        key_name: String::from_str("DOTENV_PRIVATE_KEY"),
                    },
                );
            },
        }
    } else {
        Keypair::generate()
    };
    let public_key = keypair.public_key();
    let private_out = keypair.private_key();
    let ghost pkb = spec_hex_decode(public_key@).unwrap();

    let mut out: Vec<char> = Vec::new();
    push_str_chars(&mut out, "#/-------------------[DOTENV_PUBLIC_KEY]--------------------/");
    push_str_chars(&mut out, "\n");
    push_str_chars(&mut out, "#/            public-key encryption for .env files          /");
    push_str_chars(&mut out, "\n");
    push_str_chars(&mut out, "#/       [how it works](https://dotenvx.com/encryption)     /");
    push_str_chars(&mut out, "\n");
    push_str_chars(&mut out, "#/----------------------------------------------------------/");
    push_str_chars(&mut out, "\n");
    push_str_chars(&mut out, "DOTENV_PUBLIC_KEY=\"");
    push_str_chars(&mut out, public_key.as_str());
    push_str_chars(&mut out, "\"\n\n");
    assert(out@ =~= spec_enc_header(public_key@));

    let cs = chars_of(content);
    let lines = split_lines(&cs);
    let ghost ls = spec_lines(content@);
    assert forall|j: int| 0 <= j < lines@.len() implies lines@[j]@ == ls[j] by {
        assert(lines@[j].deep_view() =~= lines@[j]@);
        assert(lines.deep_view()[j] == lines@[j].deep_view());
    }
    let n = lines.len();
    assert(n == ls.len()) by {
        assert(lines.deep_view().len() == lines@.len());
    }
    let export_prefix = chars_of("export ");
    let dpk_eq = chars_of("DOTENV_PUBLIC_KEY=");
    let dpk_quote = chars_of("DOTENV_PUBLIC_KEY \"");
    let enc_prefix = chars_of("encrypted:");
    let ghost mut pieces: Seq<Seq<char>> = Seq::empty();
    assert(spec_concat_pieces(pieces) =~= Seq::<char>::empty());
    assert(out@ =~= spec_enc_header(public_key@) + spec_concat_pieces(pieces));
    let mut i: usize = 0;
    while i < n
        invariant
            n == ls.len(),
            n == lines@.len(),
            ls == spec_lines(content@),
            forall|j: int| 0 <= j < lines@.len() ==> lines@[j]@ == ls[j],
            export_prefix@ == "export "@,
            dpk_eq@ == "DOTENV_PUBLIC_KEY="@,
            dpk_quote@ == "DOTENV_PUBLIC_KEY \""@,
            enc_prefix@ == "encrypted:"@,
            sd == (match specific_keys {
                Some(v) => Some(v.deep_view()),
                None => None::<Seq<Seq<char>>>,
            }),
            ed == (match exclude_keys {
                Some(v) => Some(v.deep_view()),
                None => None::<Seq<Seq<char>>>,
            }),
            spec_pub_hex_wf(public_key@),
            pkb == spec_hex_decode(public_key@).unwrap(),
            spec_error_at(ls) is None,
            spec_value_in(ls, "DOTENV_PUBLIC_KEY"@) is Some ==> (match private_key {
                Some(p) => spec_hex_decode(p@) is Some && crate::primitives::spec_sk_ok(
                    spec_hex_decode(p@).unwrap(),
                ),
                None => false,
            }),
            i <= n,
            pieces.len() == i,
            forall|j: int| 0 <= j < i ==> spec_enc_piece_ok(ls[j], pieces[j], pkb, sd, ed),
            out@ == spec_enc_header(public_key@) + spec_concat_pieces(pieces),
        decreases n - i,
    {
        let ghost lv = ls[i as int];
        let ghost out0 = out@;
        let trimmed = trim_chars(&lines[i]);
        let mut handled = false;
        let ghost mut piece: Seq<char> = lv + "\n"@;
        if trimmed.len() == 0 || trimmed[0] == '#' {
            push_all(&mut out, &lines[i]);
            out.push('\n');
            handled = true;
            proof {
                assert(out@ =~= out0 + (lv + "\n"@)) by {
                    reveal_strlit("\n");
                }
            }
        } else if begins_with(&trimmed, &dpk_eq) || begins_with(&trimmed, &dpk_quote) {
            proof {
                piece = Seq::<char>::empty();
            }
            handled = true;
            assert(out@ =~= out0 + Seq::<char>::empty());
        } else {
            let is_export = begins_with(&trimmed, &export_prefix);
            proof {
                reveal_strlit("export ");
            }
            let line_content = if is_export {
                sub_chars(&trimmed, 7, trimmed.len())
            } else {
                sub_chars(&trimmed, 0, trimmed.len())
            };
            assert(line_content@ == (if spec_starts_with(spec_trim(lv), "export "@) {
                spec_trim(lv).skip(7)
            } else {
                spec_trim(lv)
            })) by {
                assert(trimmed@.subrange(0, trimmed@.len() as int) =~= trimmed@);
            }
            match find_char(&line_content, '=') {
                None => {},
                Some(eq_pos) => {
                    proof {
                        lemma_index_of_props(line_content@, '=');
                    }
                    let key_part = sub_chars(&line_content, 0, eq_pos);
                    let key = trim_chars(&key_part);
                    let value_raw = sub_chars(&line_content, eq_pos + 1, line_content.len());
                    let value_part = trim_chars(&value_raw);
                    assert(key_part@ =~= line_content@.take(eq_pos as int));
                    assert(value_raw@ =~= line_content@.skip(eq_pos as int + 1));
                    let key_str = string_of(&key);
                    if should_encrypt_key(key_str.as_str(), specific_keys, exclude_keys)
                        && !begins_with(&value_part, &enc_prefix) {
                        let value = simple_unquote(&value_part);
                        let value_str = string_of(&value);
                        let token = match crate::ecies::encrypt(
                            value_str.as_str(),
                            public_key.as_str(),
                        ) {
                            Ok(t) => t,
                            Err(e) => {
                                proof {
                                    assert(crate::ecies::spec_recipient_ok(public_key@));
                                    assert(!spec_enc_line_fits(lv, sd, ed));
                                }
                                return Err(e);
                            },
                        };
                        if is_export {
                            push_str_chars(&mut out, "export ");
                        }
                        push_all(&mut out, &key);
                        push_str_chars(&mut out, "=\"");
                        push_str_chars(&mut out, token.as_str());
                        push_str_chars(&mut out, "\"\n");
                        handled = true;
                        proof {
                            piece = (if spec_starts_with(spec_trim(lv), "export "@) {
                                "export "@
                            } else {
                                Seq::<char>::empty()
                            }) + key@ + "=\""@ + token@ + "\"\n"@;
                            assert(out@ =~= out0 + piece);
                            assert(spec_is_envelope_for(token@, spec_simple_unquote(value_part@), pkb));
                            assert(spec_decrypts_to(token@, spec_simple_unquote(value_part@), pkb));
                            assert(crate::ecies::spec_token_wf(token@));
                            assert(spec_token_piece(
                                piece,
                                spec_starts_with(spec_trim(lv), "export "@),
                                key@,
                                spec_simple_unquote(value_part@),
                                pkb,
                            ));
                            assert(spec_enc_piece_ok(lv, piece, pkb, sd, ed));
                        }
                    }
                },
            }
        }
        if !handled {
            push_all(&mut out, &lines[i]);
            out.push('\n');
            proof {
                assert(out@ =~= out0 + (lv + "\n"@)) by {
                    reveal_strlit("\n");
                }
            }
        }
        proof {
            assert(spec_enc_piece_ok(lv, piece, pkb, sd, ed));
            lemma_concat_push(pieces, piece);
            pieces = pieces.push(piece);
        }
        i = i + 1;
    }
    let result = EncryptedFile {
        content: string_of(&out),
        public_key: public_key,
        private_key: private_out,
    };
    Ok(result)
}

/// What one input line contributes to the decrypted output, or `None`
/// when its encrypted value does not decrypt: blank and comment lines
/// pass through, public-key lines are dropped, an assignment whose
/// unquoted value bears the `encrypted:` prefix is re-emitted with the
/// decrypted text, everything else passes through.
pub open spec fn spec_dec_piece(line: Seq<char>, priv_hex: Seq<char>) -> Option<Seq<char>> {
    let t = spec_trim(line);
    if t.len() == 0 || t[0] == '#' {
        Some(line + "\n"@)
    } else if spec_starts_with(t, "DOTENV_PUBLIC_KEY"@) {
        Some(Seq::<char>::empty())
    } else {
        let ex = spec_starts_with(t, "export "@);
        let lc = if ex {
            t.skip(7)
        } else {
            t
        };
        match spec_index_of(lc, '=') {
            None => Some(line + "\n"@),
            Some(e) => {
                let key = spec_trim(lc.take(e as int));
                let vp = spec_trim(lc.skip(e as int + 1));
                let value = spec_simple_unquote(vp);
                if spec_starts_with(value, "encrypted:"@) {
                    match spec_decrypt(value, priv_hex) {
                        SpecDecrypt::Good(p) => Some(
                            (if ex {
                                "export "@
                            } else {
                                Seq::<char>::empty()
                            }) + key + "=\""@ + p + "\"\n"@,
                        ),
                        _ => None,
                    }
                } else {
                    Some(line + "\n"@)
                }
            },
        }
    }
}

/// The key of an assignment line, for error reporting.
pub open spec fn spec_dec_key(line: Seq<char>) -> Seq<char> {
    let t = spec_trim(line);
    let lc = if spec_starts_with(t, "export "@) {
        t.skip(7)
    } else {
        t
    };
    match spec_index_of(lc, '=') {
        None => Seq::<char>::empty(),
        Some(e) => spec_trim(lc.take(e as int)),
    }
}

/// The position of the first line whose value does not decrypt, if any.
pub open spec fn spec_dec_fail_at(lines: Seq<Seq<char>>, priv_hex: Seq<char>) -> Option<nat>
    decreases lines.len(),
{
    if lines.len() == 0 {
        None
    } else if spec_dec_piece(lines[0], priv_hex) is None {
        Some(0nat)
    } else {
        match spec_dec_fail_at(lines.drop_first(), priv_hex) {
            Some(i) => Some((i + 1) as nat),
            None => None,
        }
    }
}

/// What `spec_dec_fail_at` returns: the least failing position.
proof fn lemma_dec_fail_props(lines: Seq<Seq<char>>, priv_hex: Seq<char>)
    ensures
        match spec_dec_fail_at(lines, priv_hex) {
            Some(i) => i < lines.len() && spec_dec_piece(lines[i as int], priv_hex) is None
                && forall|j: int| 0 <= j < i ==> spec_dec_piece(lines[j], priv_hex) is Some,
            None => forall|j: int| 0 <= j < lines.len() ==> spec_dec_piece(lines[j], priv_hex) is Some,
        },
    decreases lines.len(),
{
    if lines.len() > 0 && spec_dec_piece(lines[0], priv_hex) is Some {
        let t = lines.drop_first();
        lemma_dec_fail_props(t, priv_hex);
        assert(forall|j: int| 1 <= j < lines.len() ==> lines[j] == t[j - 1]);
        match spec_dec_fail_at(t, priv_hex) {
            Some(i) => {
                assert(lines[i as int + 1] == t[i as int]);
                assert(forall|j: int|
                    1 <= j < i + 1 ==> lines[j] == t[j - 1] && spec_dec_piece(t[j - 1], priv_hex)
                        is Some);
            },
            None => {
                assert(forall|j: int|
                    1 <= j < lines.len() ==> lines[j] == t[j - 1] && spec_dec_piece(
                        t[j - 1],
                        priv_hex,
                    ) is Some);
            },
        }
    }
}

/// The decrypted pieces of all lines.
pub open spec fn spec_dec_pieces(lines: Seq<Seq<char>>, priv_hex: Seq<char>) -> Seq<Seq<char>> {
    Seq::new(lines.len(), |j: int| spec_dec_piece(lines[j], priv_hex).unwrap())
}

/// Decrypt the encrypted values of `.env` text with the resolved
/// private key: public-key lines are dropped, every other untargeted
/// line passes through, and the first value that fails to decrypt
/// aborts the rewrite naming its key.
pub fn decrypt_file(content: &str, private_key_hex: &str) -> (r: Result<String, DotenvxError>)
    ensures
        match spec_error_at(spec_lines(content@)) {
            Some(i) => r is Err && (r->Err_0 matches DotenvxError::ParseError {
                line: l,
                message,
            } && l == i + 1 && message@ == spec_parse_err_msg(
                spec_classify(spec_lines(content@)[i as int]),
            )),
            None => match spec_dec_fail_at(spec_lines(content@), private_key_hex@) {
                Some(i) => r is Err && (r->Err_0 matches DotenvxError::DecryptionFailed {
                    key,
                    private_key_name,
                } && key@ == spec_dec_key(spec_lines(content@)[i as int]) && private_key_name@
                    == "DOTENV_PRIVATE_KEY"@),
                None => r is Ok && r->Ok_0@ == spec_concat_pieces(
                    spec_dec_pieces(spec_lines(content@), private_key_hex@),
                ),
            },
        },
{
    let mut parser = DotenvParser::new();
    match parser.parse(content) {
        Ok(_) => {},
        Err(e) => {
            return Err(e);
        },
    }
    let cs = chars_of(content);
    let lines = split_lines(&cs);
    let ghost ls = spec_lines(content@);
    assert forall|j: int| 0 <= j < lines@.len() implies lines@[j]@ == ls[j] by {
        assert(lines@[j].deep_view() =~= lines@[j]@);
        assert(lines.deep_view()[j] == lines@[j].deep_view());
    }
    let n = lines.len();
    assert(n == ls.len()) by {
        assert(lines.deep_view().len() == lines@.len());
    }
    let export_prefix = chars_of("export ");
    let dpk_prefix = chars_of("DOTENV_PUBLIC_KEY");
    let enc_prefix = chars_of("encrypted:");
    let mut out: Vec<char> = Vec::new();
    let ghost mut pieces: Seq<Seq<char>> = Seq::empty();
    assert(spec_concat_pieces(pieces) =~= Seq::<char>::empty());
    assert(out@ =~= spec_concat_pieces(pieces));
    let mut i: usize = 0;
    while i < n
        invariant
            n == ls.len(),
            n == lines@.len(),
            ls == spec_lines(content@),
            spec_error_at(ls) is None,
            forall|j: int| 0 <= j < lines@.len() ==> lines@[j]@ == ls[j],
            export_prefix@ == "export "@,
            dpk_prefix@ == "DOTENV_PUBLIC_KEY"@,
            enc_prefix@ == "encrypted:"@,
            i <= n,
            pieces.len() == i,
            forall|j: int|
                0 <= j < i ==> spec_dec_piece(ls[j], private_key_hex@) == Some(pieces[j]),
            out@ == spec_concat_pieces(pieces),
        decreases n - i,
    {
        let ghost lv = ls[i as int];
        let ghost out0 = out@;
        let trimmed = trim_chars(&lines[i]);
        let mut handled = false;
        let ghost mut piece: Seq<char> = lv + "\n"@;
        if trimmed.len() == 0 || trimmed[0] == '#' {
            push_all(&mut out, &lines[i]);
            out.push('\n');
            handled = true;
            proof {
                assert(out@ =~= out0 + (lv + "\n"@)) by {
                    reveal_strlit("\n");
                }
            }
        } else if begins_with(&trimmed, &dpk_prefix) {
            proof {
                piece = Seq::<char>::empty();
            }
            handled = true;
            assert(out@ =~= out0 + Seq::<char>::empty());
        } else {
            let is_export = begins_with(&trimmed, &export_prefix);
            proof {
                reveal_strlit("export ");
            }
            let line_content = if is_export {
                sub_chars(&trimmed, 7, trimmed.len())
            } else {
                sub_chars(&trimmed, 0, trimmed.len())
            };
            assert(line_content@ == (if spec_starts_with(spec_trim(lv), "export "@) {
                spec_trim(lv).skip(7)
            } else {
                spec_trim(lv)
            })) by {
                assert(trimmed@.subrange(0, trimmed@.len() as int) =~= trimmed@);
            }
            match find_char(&line_content, '=') {
                None => {},
                Some(eq_pos) => {
                    proof {
                        lemma_index_of_props(line_content@, '=');
                    }
                    let key_part = sub_chars(&line_content, 0, eq_pos);
                    let key = trim_chars(&key_part);
                    let value_raw = sub_chars(&line_content, eq_pos + 1, line_content.len());
                    let value_part = trim_chars(&value_raw);
                    assert(key_part@ =~= line_content@.take(eq_pos as int));
                    assert(value_raw@ =~= line_content@.skip(eq_pos as int + 1));
                    let value = simple_unquote(&value_part);
                    if begins_with(&value, &enc_prefix) {
                        let value_str = string_of(&value);
                        let plain = match crate::ecies::decrypt(
                            value_str.as_str(),
                            private_key_hex,
                        ) {
                            Ok(p) => p,
                            Err(_) => {
                                proof {
                                    lemma_dec_fail_props(ls, private_key_hex@);
                                    assert(spec_dec_piece(lv, private_key_hex@) is None);
                                    assert(spec_dec_fail_at(ls, private_key_hex@) == Some(
                                        i as nat,
                                    ));
                                }
                                return Err(
                                    DotenvxError::DecryptionFailed {
                                        key: string_of(&key),
                                        private_key_name: String::from_str("DOTENV_PRIVATE_KEY"),
                                    },
                                );
                            },
                        };
                        proof {
                            assert(spec_decrypt(value@, private_key_hex@) == SpecDecrypt::Good(
                                plain@,
                            ));
                        }
                        if is_export {
                            push_str_chars(&mut out, "export ");
                        }
                        push_all(&mut out, &key);
                        push_str_chars(&mut out, "=\"");
                        push_str_chars(&mut out, plain.as_str());
                        push_str_chars(&mut out, "\"\n");
                        handled = true;
                        proof {
                            piece = (if spec_starts_with(spec_trim(lv), "export "@) {
                                "export "@
                            } else {
                                Seq::<char>::empty()
                            }) + key@ + "=\""@ + plain@ + "\"\n"@;
                            assert(out@ =~= out0 + piece);
                        }
                    }
                },
            }
        }
        if !handled {
            push_all(&mut out, &lines[i]);
            out.push('\n');
            proof {
                assert(out@ =~= out0 + (lv + "\n"@)) by {
                    reveal_strlit("\n");
                }
            }
        }
        proof {
            assert(spec_dec_piece(lv, private_key_hex@) == Some(piece));
            lemma_concat_push(pieces, piece);
            pieces = pieces.push(piece);
        }
        i = i + 1;
    }
    proof {
        lemma_dec_fail_props(ls, private_key_hex@);
        assert(spec_dec_fail_at(ls, private_key_hex@) is None);
        assert(pieces =~= spec_dec_pieces(ls, private_key_hex@));
    }
    Ok(string_of(&out))
}

/// Whether a line assigns `key` (with or without `export`).
pub open spec fn spec_set_match(line: Seq<char>, key: Seq<char>) -> bool {
    spec_starts_with(spec_trim(line), key + "="@) || spec_starts_with(
        spec_trim(line),
        "export "@ + key + "="@,
    )
}

/// What one input line contributes when `key` is set: a line assigning
/// `key` is replaced by the new assignment (keeping its `export `
/// prefix when it had one), everything else passes through.
pub open spec fn spec_set_piece(line: Seq<char>, key: Seq<char>, fv: Seq<char>) -> Seq<char> {
    if spec_starts_with(spec_trim(line), "export "@ + key + "="@) {
        "export "@ + key + "=\""@ + fv + "\"\n"@
    } else if spec_starts_with(spec_trim(line), key + "="@) {
        key + "=\""@ + fv + "\"\n"@
    } else {
        line + "\n"@
    }
}

/// Whether any line assigns `key`.
pub open spec fn spec_set_found(lines: Seq<Seq<char>>, key: Seq<char>) -> bool {
    exists|j: int| 0 <= j < lines.len() && spec_set_match(#[trigger] lines[j], key)
}

/// The rewritten lines when `key` is set to the encoded value `fv`:
/// every assignment of `key` replaced, and the new assignment appended
/// when no line assigned it.
pub open spec fn spec_set_body(lines: Seq<Seq<char>>, key: Seq<char>, fv: Seq<char>) -> Seq<
    char,
> {
    spec_concat_pieces(Seq::new(lines.len(), |j: int| spec_set_piece(lines[j], key, fv))) + (
    if spec_set_found(lines, key) {
        Seq::<char>::empty()
    } else {
        key + "=\""@ + fv + "\"\n"@
    })
}

/// The outcome of setting a key: the rewritten text and, when a fresh
/// keypair had to be generated, its halves (the private one for the
/// caller to persist).
pub struct SetKeyOutcome {
    /// The rewritten text.
    pub content: String,
    /// The public key used to encrypt, when encrypting.
    pub public_key: Option<String>,
    /// The freshly generated private key, when one was generated.
    pub private_key: Option<String>,
}

/// Set `key` to `value` in `.env` text. Unless `plain` is set, the
/// value is stored as an envelope token under the file's public key —
/// reused from a `DOTENV_PUBLIC_KEY` assignment when present, freshly
/// generated (and prepended with the banner header) otherwise.
pub fn set_key(content: &str, key: &str, value: &str, plain: bool) -> (r: Result<
    SetKeyOutcome,
    DotenvxError,
>)
    ensures
        r is Ok ==> ({
            let o = r->Ok_0;
            let ls = spec_lines(content@);
            &&& spec_error_at(ls) is None
            &&& (plain ==> o.content@ == spec_set_body(ls, key@, value@) && o.public_key is None
                && o.private_key is None)
            &&& (!plain ==> ({
                let pub_hex = o.public_key.unwrap()@;
                let pkb = spec_hex_decode(pub_hex).unwrap();
                let header = if spec_has_sub(content@, "DOTENV_PUBLIC_KEY"@) {
                    Seq::<char>::empty()
                } else {
                    spec_enc_header(pub_hex)
                };
                &&& o.public_key is Some
                &&& (match spec_value_in(ls, "DOTENV_PUBLIC_KEY"@) {
                    Some(pk) => pub_hex == pk && o.private_key is None,
                    None => o.private_key is Some && spec_priv_hex_wf(o.private_key.unwrap()@)
                        && spec_pub_hex_wf(pub_hex) && spec_hex_decode(pub_hex).unwrap()
                        == spec_public_of(spec_hex_decode(o.private_key.unwrap()@).unwrap()),
                })
                &&& exists|token: Seq<char>|
                    #![trigger spec_is_envelope_for(token, value@, pkb)]
                    o.content@ == header + spec_set_body(ls, key@, token) && spec_is_envelope_for(
                        token,
                        value@,
                        pkb,
                    ) && spec_decrypts_to(token, value@, pkb)
            }))
        }),
        spec_error_at(spec_lines(content@)) is None && plain ==> r is Ok,
        spec_error_at(spec_lines(content@)) is None && !plain && vstd::utf8::encode_utf8(
            value@,
        ).len() <= 0x10_0000_0000 && (match spec_value_in(
            spec_lines(content@),
            "DOTENV_PUBLIC_KEY"@,
        ) {
            Some(pk) => crate::ecies::spec_recipient_ok(pk),
            None => true,
        }) ==> r is Ok,
        r is Err ==> (match spec_error_at(spec_lines(content@)) {
            Some(i) => r->Err_0 matches DotenvxError::ParseError { line: l, message } && l == i + 1
                && message@ == spec_parse_err_msg(spec_classify(spec_lines(content@)[i as int])),
            None => {
                match spec_value_in(spec_lines(content@), "DOTENV_PUBLIC_KEY"@) {
                    Some(pk) => {
                        if spec_hex_decode(pk) is None {
                            r->Err_0 matches DotenvxError::HexDecode(_)
                        } else if spec_hex_decode(pk).unwrap().len() != 33
                            || !crate::primitives::spec_point_ok(spec_hex_decode(pk).unwrap()) {
                            r->Err_0 matches DotenvxError::InvalidPublicKey(_)
                        } else {
                            r->Err_0 matches DotenvxError::EncryptionFailed(_)
                        }
                    },
                    None => r->Err_0 matches DotenvxError::EncryptionFailed(_),
                }
            },
        }),
{
    let mut parser = DotenvParser::new();
    match parser.parse(content) {
        Ok(_) => {},
        Err(e) => {
            return Err(e);
        },
    }
    let existing = parser.variables().get("DOTENV_PUBLIC_KEY");
    let ghost ls = spec_lines(content@);
    assert(match existing {
        Some(pk) => spec_value_in(ls, "DOTENV_PUBLIC_KEY"@) == Some(pk@),
        None => spec_value_in(ls, "DOTENV_PUBLIC_KEY"@) is None,
    });

    let mut final_value: String = String::from_str(value);
    let mut public_key: Option<String> = None;
    let mut private_key: Option<String> = None;
    let ghost mut pkb: Seq<u8> = Seq::empty();
    if !plain {
        let pub_hex: String = match existing {
            Some(pk) => pk,
            None => {
                let keypair = Keypair::generate();
                private_key = Some(keypair.private_key());
                keypair.public_key()
            },
        };
        let token = match crate::ecies::encrypt(value, pub_hex.as_str()) {
            Ok(t) => t,
            Err(e) => {
                return Err(e);
            },
        };
        proof {
            pkb = spec_hex_decode(pub_hex@).unwrap();
        }
        final_value = token;
        public_key = Some(pub_hex);
    }

    let cs = chars_of(content);
    let mut out: Vec<char> = Vec::new();
    let ghost mut header: Seq<char> = Seq::<char>::empty();
    if !plain {
        let dpk = chars_of("DOTENV_PUBLIC_KEY");
        if !contains_sub(&cs, &dpk) {
            let pub_ref = match &public_key {
                Some(p) => p,
                None => {
                    proof {
                        assert(false);
                    }
                    return Err(DotenvxError::Other(String::from_str("unreachable")));
                },
            };
            push_str_chars(&mut out, "#/-------------------[DOTENV_PUBLIC_KEY]--------------------/");
            push_str_chars(&mut out, "\n");
            push_str_chars(&mut out, "#/            public-key encryption for .env files          /");
            push_str_chars(&mut out, "\n");
            push_str_chars(&mut out, "#/       [how it works](https://dotenvx.com/encryption)     /");
            push_str_chars(&mut out, "\n");
            push_str_chars(&mut out, "#/----------------------------------------------------------/");
            push_str_chars(&mut out, "\n");
            push_str_chars(&mut out, "DOTENV_PUBLIC_KEY=\"");
            push_str_chars(&mut out, pub_ref.as_str());
            push_str_chars(&mut out, "\"\n\n");
            proof {
                header = spec_enc_header(pub_ref@);
            }
            assert(out@ =~= header);
        }
    }

    let lines = split_lines(&cs);
    assert forall|j: int| 0 <= j < lines@.len() implies lines@[j]@ == ls[j] by {
        assert(lines@[j].deep_view() =~= lines@[j]@);
        assert(lines.deep_view()[j] == lines@[j].deep_view());
    }
    let n = lines.len();
    assert(n == ls.len()) by {
        assert(lines.deep_view().len() == lines@.len());
    }
    let mut needle_plain = chars_of(key);
    needle_plain.push('=');
    let mut needle_export = chars_of("export ");
    let key_chars = chars_of(key);
    push_all(&mut needle_export, &key_chars);
    needle_export.push('=');
    proof {
        reveal_strlit("=");
        assert(needle_plain@ =~= key@ + "="@);
        assert(needle_export@ =~= "export "@ + key@ + "="@);
    }

    let ghost fv = final_value@;
    let ghost mut pieces: Seq<Seq<char>> = Seq::empty();
    let ghost out_start = out@;
    assert(spec_concat_pieces(pieces) =~= Seq::<char>::empty());
    assert(out@ =~= out_start + spec_concat_pieces(pieces));
    let mut key_found = false;
    let mut i: usize = 0;
    while i < n
        invariant
            n == ls.len(),
            n == lines@.len(),
            ls == spec_lines(content@),
            forall|j: int| 0 <= j < lines@.len() ==> lines@[j]@ == ls[j],
            needle_plain@ == key@ + "="@,
            needle_export@ == "export "@ + key@ + "="@,
            key_chars@ == key@,
            fv == final_value@,
            i <= n,
            pieces.len() == i,
            forall|j: int| 0 <= j < i ==> pieces[j] == spec_set_piece(ls[j], key@, fv),
            key_found == exists|j: int| 0 <= j < i && spec_set_match(#[trigger] ls[j], key@),
            out@ == out_start + spec_concat_pieces(pieces),
        decreases n - i,
    {
        let ghost lv = ls[i as int];
        let ghost out0 = out@;
        let trimmed = trim_chars(&lines[i]);
        let ghost piece: Seq<char>;
        if begins_with(&trimmed, &needle_export) {
            push_str_chars(&mut out, "export ");
            push_all(&mut out, &key_chars);
            push_str_chars(&mut out, "=\"");
            push_str_chars(&mut out, final_value.as_str());
            push_str_chars(&mut out, "\"\n");
            key_found = true;
            proof {
                piece = "export "@ + key@ + "=\""@ + fv + "\"\n"@;
                assert(out@ =~= out0 + piece);
                assert(spec_set_match(lv, key@));
            }
        } else if begins_with(&trimmed, &needle_plain) {
            push_all(&mut out, &key_chars);
            push_str_chars(&mut out, "=\"");
            push_str_chars(&mut out, final_value.as_str());
            push_str_chars(&mut out, "\"\n");
            key_found = true;
            proof {
                piece = key@ + "=\""@ + fv + "\"\n"@;
                assert(out@ =~= out0 + piece);
                assert(spec_set_match(lv, key@));
            }
        } else {
            push_all(&mut out, &lines[i]);
            out.push('\n');
            proof {
                piece = lv + "\n"@;
                assert(out@ =~= out0 + piece) by {
                    reveal_strlit("\n");
                }
                assert(!spec_set_match(lv, key@));
            }
        }
        proof {
            assert(piece == spec_set_piece(lv, key@, fv));
            lemma_concat_push(pieces, piece);
            pieces = pieces.push(piece);
        }
        i = i + 1;
    }
    proof {
        assert(pieces =~= Seq::new(ls.len(), |j: int| spec_set_piece(ls[j], key@, fv)));
    }
    if !key_found {
        let ghost out0 = out@;
        push_all(&mut out, &key_chars);
        push_str_chars(&mut out, "=\"");
        push_str_chars(&mut out, final_value.as_str());
        push_str_chars(&mut out, "\"\n");
        assert(out@ =~= out0 + (key@ + "=\""@ + fv + "\"\n"@));
    }
    assert(out@ =~= out_start + spec_set_body(ls, key@, fv));
    Ok(SetKeyOutcome { content: string_of(&out), public_key, private_key })
}

/// The banner of a fresh keys file, ending with a blank line.
pub open spec fn spec_keys_banner() -> Seq<char> {
    "#/------------------!DOTENV_PRIVATE_KEYS!-------------------/\n#/ private decryption keys. DO NOT commit to source control /\n#/     [how it works](https://dotenvx.com/encryption)       /\n#/----------------------------------------------------------/\n\n"@
}

/// The keys-file text after `set` persists a fresh private key: the
/// existing text (or the banner when there is none) with the key line
/// appended — unless a `DOTENV_PRIVATE_KEY=` line is already there, in
/// which case nothing is written (first write wins).
pub fn save_private_key(keys_content: Option<&String>, private_key: &str) -> (r: Option<String>)
    ensures
        ({
            let base = match keys_content {
                Some(c) => c@,
                None => spec_keys_banner(),
            };
            match r {
                Some(out) => !spec_has_sub(base, "DOTENV_PRIVATE_KEY="@) && out@ == base
                    + "DOTENV_PRIVATE_KEY="@ + private_key@ + "\n"@,
                None => spec_has_sub(base, "DOTENV_PRIVATE_KEY="@),
            }
        }),
{
    let mut base: Vec<char> = Vec::new();
    match keys_content {
        Some(c) => {
            push_str_chars(&mut base, c.as_str());
        },
        None => {
            push_str_chars(
                &mut base,
                "#/------------------!DOTENV_PRIVATE_KEYS!-------------------/\n#/ private decryption keys. DO NOT commit to source control /\n#/     [how it works](https://dotenvx.com/encryption)       /\n#/----------------------------------------------------------/\n\n",
            );
        },
    }
    let needle = chars_of("DOTENV_PRIVATE_KEY=");
    if contains_sub(&base, &needle) {
        return None;
    }
    push_str_chars(&mut base, "DOTENV_PRIVATE_KEY=");
    push_str_chars(&mut base, private_key);
    push_str_chars(&mut base, "\n");
    Some(string_of(&base))
}

/// The keys-file text after encrypting persists the private key: the
/// existing text — or, when empty, the banner and a comment naming the
/// env file — with the `key_name` line appended; nothing is written
/// when a `key_name=` line is already there (first write wins).
pub fn write_keys_file(
    keys_content: Option<&String>,
    env_file_name: &str,
    key_name: &str,
    private_key: &str,
) -> (r: Option<String>)
    ensures
        ({
            let base = match keys_content {
                Some(c) => c@,
                None => Seq::<char>::empty(),
            };
            match r {
                Some(out) => !spec_has_sub(base, key_name@ + "="@) && out@ == (if base.len() == 0 {
                    spec_keys_banner() + "# "@ + env_file_name@ + "\n"@
                } else {
                    base
                }) + key_name@ + "="@ + private_key@ + "\n"@,
                None => spec_has_sub(base, key_name@ + "="@),
            }
        }),
{
    let mut base: Vec<char> = Vec::new();
    if let Some(c) = keys_content {
        push_str_chars(&mut base, c.as_str());
    }
    let mut needle = chars_of(key_name);
    needle.push('=');
    assert(needle@ =~= key_name@ + "="@) by {
        reveal_strlit("=");
    }
    if contains_sub(&base, &needle) {
        return None;
    }
    if base.len() == 0 {
        push_str_chars(
            &mut base,
            "#/------------------!DOTENV_PRIVATE_KEYS!-------------------/\n#/ private decryption keys. DO NOT commit to source control /\n#/     [how it works](https://dotenvx.com/encryption)       /\n#/----------------------------------------------------------/\n\n",
        );
        push_str_chars(&mut base, "# ");
        push_str_chars(&mut base, env_file_name);
        push_str_chars(&mut base, "\n");
    }
    push_str_chars(&mut base, key_name);
    push_str_chars(&mut base, "=");
    push_str_chars(&mut base, private_key);
    push_str_chars(&mut base, "\n");
    Some(string_of(&base))
}

} // verus!
