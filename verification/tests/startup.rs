use dwm_status::startup::{
    candidate_config_paths_from, missing_config_error, parse_cli_args, paths_equal,
    push_unique_path, resolve_config_path,
};

fn args(v: &[&str]) -> Vec<String> {
    v.iter().map(|s| s.to_string()).collect()
}

#[test]
fn parse_config_arg() {
    let cli_args = args(&["--config", "/tmp/dwm_status.toml"]);
    let index = parse_cli_args(&cli_args).unwrap();

    assert_eq!(index.map(|i| cli_args[i].as_str()), Some("/tmp/dwm_status.toml"));
}

#[test]
fn parse_cli_args_edge_cases() {
    assert_eq!(parse_cli_args(&args(&[])), Ok(None));
    assert_eq!(parse_cli_args(&args(&["-c", "a", "--config", "b"])), Ok(Some(3)));
    assert_eq!(
        parse_cli_args(&args(&["--config"])),
        Err("Missing path after --config".to_string())
    );
    assert_eq!(
        parse_cli_args(&args(&["--verbose"])),
        Err("Unsupported argument: --verbose".to_string())
    );
}

fn bytes(s: &str) -> Vec<u8> {
    s.as_bytes().to_vec()
}

#[test]
fn build_config_candidates() {
    let config_paths = candidate_config_paths_from(
        Some(&bytes("/home/test/.config")),
        Some(&bytes("/home/test")),
        &bytes("/work/tree"),
    );

    assert_eq!(
        config_paths,
        vec![bytes("/home/test/.config/dwm_status/config.toml"), bytes("/work/tree/config.toml")]
    );
}

#[test]
fn build_config_candidates_without_environment() {
    assert_eq!(candidate_config_paths_from(None, None, &bytes("/")), vec![bytes("/config.toml")]);
    assert_eq!(
        candidate_config_paths_from(None, Some(&bytes("/home/u/")), &bytes("/srv")),
        vec![bytes("/home/u/.config/dwm_status/config.toml"), bytes("/srv/config.toml")]
    );
}

#[test]
fn keep_bytes_of_non_utf8_paths() {
    let home = vec![b'/', b'h', 0xff, b'/'];
    let mut expected = home.clone();
    expected.extend_from_slice(b".config/dwm_status/config.toml");

    assert_eq!(candidate_config_paths_from(None, Some(&home), &bytes("/")), vec![expected, bytes("/config.toml")]);
}

#[test]
fn compare_paths_by_components() {
    assert!(paths_equal(&bytes("/a//b/"), &bytes("/a/b")));
    assert!(paths_equal(&bytes("/a/./b"), &bytes("/a/b")));
    assert!(!paths_equal(&bytes("./a"), &bytes("a")));
    assert!(!paths_equal(&bytes("/a"), &bytes("a")));
    assert!(!paths_equal(&bytes("/a/b"), &bytes("/a/c")));

    let mut list = vec![bytes("/x/y")];
    push_unique_path(&mut list, bytes("/x//y/"));
    push_unique_path(&mut list, bytes("/x/z"));
    assert_eq!(list, vec![bytes("/x/y"), bytes("/x/z")]);
}

#[test]
fn resolve_first_existing_config() {
    let paths = args(&["/a/config.toml", "/b/config.toml"]);
    assert_eq!(resolve_config_path(&paths, &vec![false, true]), Ok(1));
    assert_eq!(resolve_config_path(&paths, &vec![true, true]), Ok(0));
    assert_eq!(
        resolve_config_path(&paths, &vec![false, false]),
        Err(missing_config_error(&paths))
    );
    assert_eq!(
        missing_config_error(&paths),
        "Failed to find config.toml. Searched:\n- /a/config.toml\n- /b/config.toml\nUse --config /path/to/config.toml to select a file explicitly."
    );
}
