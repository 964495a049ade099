use dotenvx::DotenvParser;

fn run_shell(command: &str) -> Result<String, String> {
    let rt = tokio::runtime::Builder::new_current_thread().enable_all().build().unwrap();
    rt.block_on(async {
        let output = tokio::process::Command::new("sh")
            .arg("-c")
            .arg(command)
            .output()
            .await
            .map_err(|e| e.to_string())?;
        if !output.status.success() {
            return Err(String::from_utf8_lossy(&output.stderr).to_string());
        }
        let stdout = String::from_utf8(output.stdout).map_err(|e| e.to_string())?;
        let trimmed = stdout.strip_suffix('\n').unwrap_or(&stdout);
        Ok(trimmed.to_string())
    })
}

fn run_pending(parser: &DotenvParser) -> Vec<Vec<String>> {
    let mut outputs = Vec::new();
    for cmds in parser.pending_commands() {
        let mut outs = Vec::new();
        for cmd in &cmds {
            outs.push(run_shell(cmd.as_str()).unwrap());
        }
        outputs.push(outs);
    }
    outputs
}

#[test]
fn test_parse_simple() {
    let mut parser = DotenvParser::new();
    let content = "KEY=value";
    parser.parse(content).unwrap();
    assert_eq!(parser.variables().get("KEY").unwrap(), "value");
}

#[test]
fn test_parse_with_spaces() {
    let mut parser = DotenvParser::new();
    let content = "  KEY  =  value  ";
    parser.parse(content).unwrap();
    assert_eq!(parser.variables().get("KEY").unwrap(), "value");
}

#[test]
fn test_parse_double_quotes() {
    let mut parser = DotenvParser::new();
    let content = r#"KEY="value with spaces""#;
    parser.parse(content).unwrap();
    assert_eq!(parser.variables().get("KEY").unwrap(), "value with spaces");
}

#[test]
fn test_parse_single_quotes() {
    let mut parser = DotenvParser::new();
    let content = "KEY='value with spaces'";
    parser.parse(content).unwrap();
    assert_eq!(parser.variables().get("KEY").unwrap(), "value with spaces");
}

#[test]
fn test_parse_comment() {
    let mut parser = DotenvParser::new();
    let content = "# This is a comment\nKEY=value";
    parser.parse(content).unwrap();
    assert_eq!(parser.variables().len(), 1);
    assert_eq!(parser.variables().get("KEY").unwrap(), "value");
}

#[test]
fn test_parse_export() {
    let mut parser = DotenvParser::new();
    let content = "export KEY=value";
    parser.parse(content).unwrap();
    assert_eq!(parser.variables().get("KEY").unwrap(), "value");
}

#[test]
fn test_parse_empty_value() {
    let mut parser = DotenvParser::new();
    let content = "KEY=";
    parser.parse(content).unwrap();
    assert_eq!(parser.variables().get("KEY").unwrap(), "");
}

#[test]
fn test_parse_escape_sequences() {
    let mut parser = DotenvParser::new();
    let content = r#"KEY="line1\nline2\ttab""#;
    parser.parse(content).unwrap();
    assert_eq!(parser.variables().get("KEY").unwrap(), "line1\nline2\ttab");
}

#[test]
fn test_parse_multiline() {
    let mut parser = DotenvParser::new();
    let content = "KEY1=value1\nKEY2=value2\n\nKEY3=value3";
    parser.parse(content).unwrap();
    assert_eq!(parser.variables().len(), 3);
    assert_eq!(parser.variables().get("KEY1").unwrap(), "value1");
    assert_eq!(parser.variables().get("KEY2").unwrap(), "value2");
    assert_eq!(parser.variables().get("KEY3").unwrap(), "value3");
}

#[test]
fn test_parse_invalid_no_equals() {
    let mut parser = DotenvParser::new();
    let content = "INVALID";
    let result = parser.parse(content);
    assert!(result.is_err());
}

#[test]
fn test_expand_variables() {
    let mut parser = DotenvParser::new();
    let content = "HOST=localhost\nURL=http://$HOST:3000";
    parser.parse(content).unwrap();
    parser.expand().unwrap();
    assert_eq!(parser.variables().get("URL").unwrap(), "http://localhost:3000");
}

#[test]
fn test_expand_with_default() {
    let mut parser = DotenvParser::new();
    let content = "URL=${HOST:-localhost}:3000";
    parser.parse(content).unwrap();
    parser.expand().unwrap();
    assert_eq!(parser.variables().get("URL").unwrap(), "localhost:3000");
}

#[test]
fn test_command_substitution() {
    let mut parser = DotenvParser::new();
    let content = "RESULT=$(echo test)";
    parser.parse(content).unwrap();
    let outputs = run_pending(&parser);
    parser.substitute(&outputs).unwrap();
    assert_eq!(parser.variables().get("RESULT").unwrap(), "test");
}

#[test]
fn test_parse_with_processing() {
    let mut probe = DotenvParser::new();
    let content = "BASE=$(echo /tmp)\nPATH=$BASE/subdir";
    probe.parse(content).unwrap();
    let outputs = run_pending(&probe);
    let mut parser = DotenvParser::new();
    parser.parse_with_processing(content, &outputs).unwrap();
    assert_eq!(parser.variables().get("PATH").unwrap(), "/tmp/subdir");
}

#[test]
fn test_parse_empty_key_rejected() {
    let mut parser = DotenvParser::new();
    let result = parser.parse(" = value");
    assert!(result.is_err());
    match result.unwrap_err() {
        dotenvx::DotenvxError::ParseError { line, message } => {
            assert_eq!(line, 1);
            assert_eq!(message, "Empty variable name");
        }
        other => panic!("unexpected error: {:?}", other),
    }
}

#[test]
fn test_parse_error_line_number() {
    let mut parser = DotenvParser::new();
    let result = parser.parse("GOOD=1\n# fine\nBROKEN LINE\nLATER=2");
    match result.unwrap_err() {
        dotenvx::DotenvxError::ParseError { line, message } => {
            assert_eq!(line, 3);
            assert_eq!(message, "Missing '=' in variable assignment");
        }
        other => panic!("unexpected error: {:?}", other),
    }
}

#[test]
fn test_parse_backtick_defers_to_substitution() {
    let mut parser = DotenvParser::new();
    parser.parse("WHO=`echo world`").unwrap();
    assert_eq!(parser.variables().get("WHO").unwrap(), "$(echo world)");
    let outputs = run_pending(&parser);
    parser.substitute(&outputs).unwrap();
    assert_eq!(parser.variables().get("WHO").unwrap(), "world");
}

#[test]
fn test_parse_last_write_wins() {
    let mut parser = DotenvParser::new();
    parser.parse("A=1\nA=2").unwrap();
    assert_eq!(parser.variables().len(), 1);
    assert_eq!(parser.variables().get("A").unwrap(), "2");
}
