use dotenvx::decrypt;
use dotenvx::decrypt_file;
use dotenvx::encrypt_file;
use dotenvx::load_env_file;
use dotenvx::printenv_command;
use dotenvx::resolve_private_key;
use dotenvx::save_private_key;
use dotenvx::set_key;
use dotenvx::write_keys_file;
use dotenvx::DotenvParser;
use dotenvx::DotenvxError;
use dotenvx::EnvMap;

#[test]
fn test_encrypt_file() {
    let content = "SECRET=my_secret_value";
    let out = encrypt_file(content, None, None, None).unwrap();
    assert_eq!(out.public_key.len(), 66);
    assert!(out.content.contains("DOTENV_PUBLIC_KEY"));
    assert!(out.content.contains("encrypted:"));
    assert!(!out.content.contains("my_secret_value"));
}

#[test]
fn test_encrypt_specific_keys() {
    let content = "KEY1=value1\nKEY2=value2";
    let keys = vec!["KEY1".to_string()];
    let out = encrypt_file(content, None, Some(&keys), None).unwrap();
    assert!(out.content.contains("KEY1=\"encrypted:"));
    assert!(out.content.contains("KEY2=value2"));
}

#[test]
fn test_encrypt_then_decrypt_file_restores_value() {
    let out = encrypt_file("SECRET=my_secret_value\n", None, None, None).unwrap();
    let restored = decrypt_file(&out.content, &out.private_key).unwrap();
    assert!(restored.contains("my_secret_value"));
    assert!(!restored.contains("encrypted:"));
}

#[test]
fn test_encrypt_file_preserves_comments_and_blanks() {
    let content = "# heading\n\nSECRET=value\n# trailer";
    let out = encrypt_file(content, None, None, None).unwrap();
    assert!(out.content.contains("# heading\n"));
    assert!(out.content.contains("\n\n"));
    assert!(out.content.contains("# trailer\n"));
}

#[test]
fn test_encrypt_file_output_reparses_with_same_keys() {
    let content = "# note\nA=1\nexport B=\"two\"\nC='three'\n";
    let out = encrypt_file(content, None, None, None).unwrap();
    let mut reparsed = DotenvParser::new();
    reparsed.parse(&out.content).unwrap();
    let vars = reparsed.variables();
    assert!(vars.get("DOTENV_PUBLIC_KEY").is_some());
    for key in ["A", "B", "C"] {
        let value = vars.get(key).unwrap();
        assert!(value.starts_with("encrypted:"));
        assert_eq!(decrypt(&value, &out.private_key).unwrap().len() > 0, true);
    }
    assert_eq!(vars.len(), 4);
}

#[test]
fn test_encrypt_file_needs_private_key_when_marked() {
    let marked = "DOTENV_PUBLIC_KEY=\"02aa\"\nX=1\n";
    match encrypt_file(marked, None, None, None) {
        Err(DotenvxError::MissingPrivateKey { key_name }) => {
            assert_eq!(key_name, "DOTENV_PRIVATE_KEY");
        }
        other => panic!("unexpected outcome: {:?}", other.map(|o| o.public_key)),
    }
}

#[test]
fn test_encrypt_file_reuses_marked_keypair() {
    let first = encrypt_file("SECRET=one\n", None, None, None).unwrap();
    let marked = format!("DOTENV_PUBLIC_KEY=\"{}\"\nEXTRA=two\n", first.public_key);
    let private = first.private_key.clone();
    let second = encrypt_file(&marked, Some(&private), None, None).unwrap();
    assert_eq!(second.public_key, first.public_key);
    let restored = decrypt_file(&second.content, &second.private_key).unwrap();
    assert!(restored.contains("EXTRA=\"two\""));
}

#[test]
fn test_decrypt_file_identity_on_plain_values() {
    let keypair = dotenvx::Keypair::generate();
    let content = "# comment\nPLAIN=value\n";
    let restored = decrypt_file(content, &keypair.private_key()).unwrap();
    assert_eq!(restored, content);
}

#[test]
fn test_decrypt_file_reports_failing_key() {
    let out = encrypt_file("SECRET=topsecret\n", None, None, None).unwrap();
    let other = dotenvx::Keypair::generate();
    match decrypt_file(&out.content, &other.private_key()) {
        Err(DotenvxError::DecryptionFailed { key, private_key_name }) => {
            assert_eq!(key, "SECRET");
            assert_eq!(private_key_name, "DOTENV_PRIVATE_KEY");
        }
        other => panic!("unexpected outcome: {:?}", other.map(|_| ())),
    }
}

#[test]
fn test_set_command() {
    let out = set_key("", "API_KEY", "secret123", false).unwrap();
    assert!(out.content.contains("DOTENV_PUBLIC_KEY="));
    assert!(out.content.contains("API_KEY=\"encrypted:"));
    let private = out.private_key.expect("a fresh private key");
    let keys_file = save_private_key(None, &private).expect("a keys file to write");
    assert!(keys_file.contains(&format!("DOTENV_PRIVATE_KEY={}", private)));
    assert_eq!(private.len(), 64);
}

#[test]
fn test_set_key_plain_replaces_in_place() {
    let out = set_key("A=1\nTARGET=old\nB=2\n", "TARGET", "new", true).unwrap();
    assert_eq!(out.content, "A=1\nTARGET=\"new\"\nB=2\n");
    assert!(out.public_key.is_none());
    assert!(out.private_key.is_none());
}

#[test]
fn test_set_key_keeps_export_prefix() {
    let out = set_key("export TARGET=old\nOTHER=1\n", "TARGET", "new", true).unwrap();
    assert_eq!(out.content, "export TARGET=\"new\"\nOTHER=1\n");
}

#[test]
fn test_set_key_appends_when_missing() {
    let out = set_key("A=1\n", "NEW", "v", true).unwrap();
    assert_eq!(out.content, "A=1\nNEW=\"v\"\n");
}

#[test]
fn test_set_key_reuses_existing_public_key() {
    let first = encrypt_file("SECRET=one\n", None, None, None).unwrap();
    let out = set_key(&first.content, "SECOND", "two", false).unwrap();
    assert_eq!(out.public_key.unwrap(), first.public_key);
    assert!(out.private_key.is_none());
    let restored = decrypt_file(&out.content, &first.private_key).unwrap();
    assert!(restored.contains("SECOND=\"two\""));
}

#[test]
fn test_save_private_key_first_write_wins() {
    let existing = "DOTENV_PRIVATE_KEY=aa\n".to_string();
    assert!(save_private_key(Some(&existing), "bb").is_none());
    let fresh = save_private_key(None, "bb").unwrap();
    assert!(fresh.contains("DOTENV_PRIVATE_KEYS"));
    assert!(fresh.ends_with("DOTENV_PRIVATE_KEY=bb\n"));
}

#[test]
fn test_write_keys_file_appends_or_creates() {
    let created = write_keys_file(None, ".env", "DOTENV_PRIVATE_KEY", "cc").unwrap();
    assert!(created.contains("# .env\n"));
    assert!(created.ends_with("DOTENV_PRIVATE_KEY=cc\n"));
    let grown = write_keys_file(Some(&"OTHER=1\n".to_string()), ".env", "DOTENV_PRIVATE_KEY", "cc")
        .unwrap();
    assert_eq!(grown, "OTHER=1\nDOTENV_PRIVATE_KEY=cc\n");
    assert!(write_keys_file(Some(&created), ".env", "DOTENV_PRIVATE_KEY", "dd").is_none());
}

#[test]
fn test_resolve_private_key_precedence() {
    let keys = "DOTENV_PRIVATE_KEY=\"from_keys\"\n".to_string();
    let sibling = "DOTENV_PRIVATE_KEY=from_sibling\n".to_string();
    let env_val = "from_env".to_string();
    let got = resolve_private_key(Some(&keys), Some(&sibling), Some(&env_val), "DOTENV_PRIVATE_KEY")
        .unwrap();
    assert_eq!(got, "from_keys");
    let got = resolve_private_key(None, Some(&sibling), Some(&env_val), "DOTENV_PRIVATE_KEY")
        .unwrap();
    assert_eq!(got, "from_sibling");
    let got = resolve_private_key(None, None, Some(&env_val), "DOTENV_PRIVATE_KEY").unwrap();
    assert_eq!(got, "from_env");
    match resolve_private_key(None, None, None, "DOTENV_PRIVATE_KEY") {
        Err(DotenvxError::MissingPrivateKey { key_name }) => {
            assert_eq!(key_name, "DOTENV_PRIVATE_KEY");
        }
        other => panic!("unexpected outcome: {:?}", other),
    }
}

#[test]
fn test_extract_key_tolerates_quotes() {
    let content = "# banner\nDOTENV_PRIVATE_KEY=\"abcd\"\n";
    assert_eq!(dotenvx::extract_key_from_content(content, "DOTENV_PRIVATE_KEY").unwrap(), "abcd");
    assert_eq!(dotenvx::extract_key(content).unwrap(), "abcd");
    assert!(dotenvx::extract_key_from_content("OTHER=1\n", "DOTENV_PRIVATE_KEY").is_none());
}

#[test]
fn test_load_env_file_decrypts_and_hides_marker() {
    let out = encrypt_file("SECRET=plain_text\nOPEN=sesame\n", None, None, None).unwrap();
    let no_outputs: Vec<Vec<String>> = Vec::new();
    let private = out.private_key.clone();
    let vars = load_env_file(&out.content, &no_outputs, Some(&private)).unwrap();
    assert_eq!(vars.get("SECRET").unwrap(), "plain_text");
    assert_eq!(vars.get("OPEN").unwrap(), "sesame");
    assert!(vars.get("DOTENV_PUBLIC_KEY").is_none());

    let tolerant = load_env_file(&out.content, &no_outputs, None).unwrap();
    assert!(tolerant.get("SECRET").unwrap().starts_with("encrypted:"));
}

#[test]
fn test_load_env_file_splices_and_expands() {
    let content = "BASE=$(echo /srv)\nDIR=$BASE/logs\n";
    let outputs = vec![vec!["/srv".to_string()], vec![]];
    let vars = load_env_file(content, &outputs, None).unwrap();
    assert_eq!(vars.get("BASE").unwrap(), "/srv");
    assert_eq!(vars.get("DIR").unwrap(), "/srv/logs");
}

#[test]
fn test_printenv_formats() {
    let mut vars = EnvMap::new();
    vars.insert("B".to_string(), "it's".to_string());
    vars.insert("A".to_string(), "one".to_string());
    assert_eq!(printenv_command(&vars, "bash"), "export B='it'\\''s'\nexport A='one'\n");
    assert_eq!(printenv_command(&vars, "fish"), "set -gx B 'it\\'s'\nset -gx A 'one'\n");
    assert_eq!(printenv_command(&vars, "powershell"), "$env:B=\"it's\"\n$env:A=\"one\"\n");
    assert_eq!(printenv_command(&vars, "json"), "{\n  \"A\": \"one\",\n  \"B\": \"it's\"\n}\n");
}

#[test]
fn test_printenv_json_escapes_values() {
    let mut vars = EnvMap::new();
    vars.insert("Q".to_string(), "say \"hi\"\n".to_string());
    assert_eq!(printenv_command(&vars, "json"), "{\n  \"Q\": \"say \\\"hi\\\"\\n\"\n}\n");
}
