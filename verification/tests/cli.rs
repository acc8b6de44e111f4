use tracelens::config::{default_api_listen, CliOptions};
use tracelens::runtime::loader::{LoaderCommand, LoaderOptions};

fn args(values: &[&str]) -> Vec<String> {
    values.iter().map(|v| (*v).to_owned()).collect()
}

#[test]
fn core_command_line_sets_options_and_warns_about_the_rest() {
    let options = CliOptions::from_args(args(&[
        "--config",
        "tracelens.toml",
        "--observe",
        "--api-listen",
        "127.0.0.1:9000",
        "--bpf-object-dir",
        "/opt/bpf",
        "--bogus",
        "--print-example-event",
        "-h",
    ]));
    assert!(options.observe);
    assert!(options.print_example_event);
    assert!(options.help);
    assert_eq!(options.api_listen, vec!["127.0.0.1:9000".to_owned()]);
    assert_eq!(options.config.bpf_object_dir, "/opt/bpf");
    assert_eq!(options.warnings, vec!["ignoring unknown option: --bogus".to_owned()]);

    let missing = CliOptions::from_args(args(&["--api-listen"]));
    assert!(missing.api_listen.is_empty());
    assert_eq!(missing.warnings, vec!["--api-listen requires an address".to_owned()]);
    assert_eq!(missing.config.bpf_object_dir, "build/bpf/objects");
    assert_eq!(default_api_listen(), "127.0.0.1:8080");
}

#[test]
fn loader_command_line_requires_every_target_option() {
    let command = LoaderCommand::from_args(args(&[
        "--pid",
        "42",
        "--object",
        "openssl.o",
        "--library",
        "/lib/libssl.so",
        "--function",
        "SSL_read",
        "--program",
        "tracelens_plaintext_read_enter",
        "--companion-program",
        "tracelens_plaintext_read_exit",
        "--companion-retprobe",
    ]));
    assert_eq!(
        command,
        Ok(LoaderCommand::Attach(LoaderOptions {
            pid: 42,
            object: "openssl.o".to_owned(),
            library: "/lib/libssl.so".to_owned(),
            function: "SSL_read".to_owned(),
            program: "tracelens_plaintext_read_enter".to_owned(),
            retprobe: false,
            companion_program: Some("tracelens_plaintext_read_exit".to_owned()),
            companion_retprobe: true,
        }))
    );
    assert_eq!(LoaderCommand::from_args(args(&["--pid"])), Err("--pid requires a value".to_owned()));
    assert_eq!(
        LoaderCommand::from_args(args(&["--pid", "-1"])),
        Err("--pid must be a positive integer".to_owned())
    );
    assert_eq!(
        LoaderCommand::from_args(args(&["--pid", "7", "--object", "a.o"])),
        Err("--library is required".to_owned())
    );
    assert_eq!(LoaderCommand::from_args(args(&[])), Err("--pid is required".to_owned()));
    assert_eq!(LoaderCommand::from_args(args(&["--pid", "7", "--help"])), Ok(LoaderCommand::Help));
    assert_eq!(LoaderCommand::from_args(args(&["--x"])), Err("unknown argument `--x`".to_owned()));
}
