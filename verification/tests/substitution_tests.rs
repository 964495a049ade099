use dotenvx::find_commands;
use dotenvx::substitute_commands;

fn sh(command: &str) -> Result<String, String> {
    let rt = tokio::runtime::Builder::new_current_thread().enable_all().build().unwrap();
    rt.block_on(async {
        let output = tokio::process::Command::new("sh")
            .arg("-c")
            .arg(command)
            .output()
            .await
            .map_err(|e| e.to_string())?;
        if !output.status.success() {
            return Err(String::from_utf8_lossy(&output.stderr).to_string());
        }
        let stdout = String::from_utf8(output.stdout).map_err(|e| e.to_string())?;
        let trimmed = stdout.strip_suffix('\n').unwrap_or(&stdout);
        Ok(trimmed.to_string())
    })
}

fn substitute(value: &str) -> Result<String, String> {
    let mut outputs = Vec::new();
    for cmd in find_commands(value) {
        outputs.push(sh(&cmd)?);
    }
    Ok(substitute_commands(value, &outputs))
}

#[test]
fn test_echo_substitution() {
    let result = substitute("Hello $(echo world)").unwrap();
    assert_eq!(result, "Hello world");
}

#[test]
fn test_multiple_substitutions() {
    let result = substitute("$(echo hello) $(echo world)").unwrap();
    assert_eq!(result, "hello world");
}

#[test]
fn test_no_substitution() {
    let result = substitute("plain text").unwrap();
    assert_eq!(result, "plain text");
}

#[test]
fn test_expr_substitution() {
    let result = substitute("Result: $(expr 2 + 2)").unwrap();
    assert_eq!(result, "Result: 4");
}

#[test]
fn test_pwd_substitution() {
    let result = substitute("Dir: $(pwd)").unwrap();
    assert!(result.starts_with("Dir: /"));
}

#[test]
fn test_invalid_command() {
    let result = substitute("$(nonexistent_command_xyz)");
    assert!(result.is_err());
}

#[test]
fn test_find_commands_spans() {
    assert_eq!(find_commands("a $(one) b $(two) c"), vec!["one".to_string(), "two".to_string()]);
    assert_eq!(find_commands("no spans $() here").len(), 0);
    assert_eq!(find_commands("open $(never closed").len(), 0);
}
