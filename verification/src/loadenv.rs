//! Loading `.env` text into a mapping for consumers: full processing,
//! a tolerant decryption pass over encrypted values, and removal of
//! the public-key marker.
use vstd::prelude::*;
use vstd::string::*;

use crate::ecies::spec_decrypt;
use crate::ecies::SpecDecrypt;
use crate::envmap::spec_assoc;
use crate::envmap::EnvMap;
use crate::errors::DotenvxError;
use crate::parser::spec_classify;
use crate::parser::spec_error_at;
use crate::parser::spec_expand_fold;
use crate::parser::spec_keys_after;
use crate::parser::spec_parse_err_msg;
use crate::parser::spec_splice_vals;
use crate::parser::spec_value_in;
use crate::parser::DotenvParser;
use crate::strutil::begins_with;
use crate::strutil::chars_of;
use crate::strutil::spec_lines;
use crate::strutil::spec_starts_with;

verus! {

/// The values after the tolerant decryption pass: with a private key
/// at hand, every value bearing the `encrypted:` prefix is replaced by
/// its decrypted text when decryption succeeds, and kept as it stands
/// when it fails; without a key, nothing changes.
pub open spec fn spec_load_dec_vals(vals: Seq<Seq<char>>, priv_hex: Option<Seq<char>>) -> Seq<
    Seq<char>,
> {
    Seq::new(
        vals.len(),
        |i: int|
            match priv_hex {
                Some(p) => {
                    if spec_starts_with(vals[i], "encrypted:"@) {
                        match spec_decrypt(vals[i], p) {
                            SpecDecrypt::Good(x) => x,
                            _ => vals[i],
                        }
                    } else {
                        vals[i]
                    }
                },
                None => vals[i],
            },
    )
}

/// Load `.env` text: parse with full processing (the given command
/// outputs spliced in), decrypt encrypted values tolerantly with the
/// resolved private key when one is given, and drop the public-key
/// marker from the mapping.
pub fn load_env_file(
    content: &str,
    outputs: &Vec<Vec<String>>,
    private_key: Option<&String>,
) -> (r: Result<EnvMap, DotenvxError>)
    ensures
        match spec_error_at(spec_lines(content@)) {
            None => {
                let keys1 = spec_keys_after(Seq::empty(), spec_lines(content@));
                let vals1 = Seq::new(
                    keys1.len(),
                    |j: int| spec_value_in(spec_lines(content@), keys1[j]).unwrap(),
                );
                let vals2 = spec_expand_fold(
                    keys1,
                    spec_splice_vals(vals1, outputs.deep_view()),
                    keys1.len() as int,
                );
                let vals3 = spec_load_dec_vals(
                    vals2,
                    match private_key {
                        Some(p) => Some(p@),
                        None => None,
                    },
                );
                r is Ok && ({
                    let m = r->Ok_0;
                    &&& m.wf()
                    &&& m.spec_get("DOTENV_PUBLIC_KEY"@) is None
                    &&& forall|k: Seq<char>|
                        k != "DOTENV_PUBLIC_KEY"@ ==> m.spec_get(k) == spec_assoc(keys1, vals3, k)
                })
            },
            Some(i) => r is Err && (r->Err_0 matches DotenvxError::ParseError {
                line: l,
                message,
            } && l == i + 1 && message@ == spec_parse_err_msg(
                spec_classify(spec_lines(content@)[i as int]),
            )),
        },
{
    let mut parser = DotenvParser::new();
    assert(parser.spec_variables().spec_keys() =~= Seq::<Seq<char>>::empty());
    match parser.parse_with_processing(content, outputs) {
        Ok(_) => {},
        Err(e) => {
            return Err(e);
        },
    }
    let ghost ls = spec_lines(content@);
    let ghost keys1 = spec_keys_after(Seq::empty(), ls);
    let ghost vals1 = Seq::new(keys1.len(), |j: int| spec_value_in(ls, keys1[j]).unwrap());
    proof {
        assert(parser.spec_variables().spec_keys() == keys1);
        assert(parser.spec_variables().spec_vals() == spec_expand_fold(
            keys1,
            spec_splice_vals(vals1, outputs.deep_view()),
            keys1.len() as int,
        ));
        assert(vals1 =~= Seq::new(keys1.len(), |j: int| spec_value_in(ls, keys1[j]).unwrap()));
    }
    let mut vars = parser.take_variables();
    let ghost vals2 = vars.spec_vals();
    let ghost pv: Option<Seq<char>> = match private_key {
        Some(p) => Some(p@),
        None => None,
    };
    if let Some(pkey) = private_key {
        let enc_prefix = chars_of("encrypted:");
        let n = vars.len();
        let mut i: usize = 0;
        while i < n
            invariant
                vars.wf(),
                n == vars.spec_len(),
                n == vals2.len(),
                pv == Some(pkey@),
                enc_prefix@ == "encrypted:"@,
                i <= n,
                vars.spec_keys() == keys1,
                forall|j: int|
                    0 <= j < n ==> vars.spec_vals()[j] == (if j < i {
                        spec_load_dec_vals(vals2, pv)[j]
                    } else {
                        vals2[j]
                    }),
            decreases n - i,
        {
            let value = vars.value_at(i);
            let vc = chars_of(value.as_str());
            if begins_with(&vc, &enc_prefix) {
                match crate::ecies::decrypt(value.as_str(), pkey.as_str()) {
                    Ok(plain) => {
                        proof {
                            assert(spec_decrypt(vals2[i as int], pkey@) == SpecDecrypt::Good(
                                plain@,
                            ));
                        }
                        vars.set_value_at(i, plain);
                    },
                    Err(_) => {
                        assert(spec_load_dec_vals(vals2, pv)[i as int] == vals2[i as int]);
                    },
                }
            } else {
                assert(spec_load_dec_vals(vals2, pv)[i as int] == vals2[i as int]);
            }
            i = i + 1;
        }
        proof {
            assert(vars.spec_vals() =~= spec_load_dec_vals(vals2, pv));
        }
    } else {
        proof {
            assert(vars.spec_vals() =~= spec_load_dec_vals(vals2, pv));
        }
    }
    vars.remove("DOTENV_PUBLIC_KEY");
    Ok(vars)
}

} // verus!
