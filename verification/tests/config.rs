use stillrun::config::{get_config, join_words, platform_defaults, choose_encoding, resolve_encoding, HostKind, RunConfigArgs};
use stillrun::encoding::TextEncoding;

fn words(list: &[&str]) -> Vec<String> {
    list.iter().map(|w| String::from(*w)).collect()
}

fn bare(command: &[&str]) -> RunConfigArgs {
    RunConfigArgs {
        command: words(command),
        shell: None,
        path: None,
        log_file_name: None,
        encoding: None,
    }
}

#[test]
fn windows_is_told_by_its_os_name() {
    assert_eq!(HostKind::from_os_name("windows"), HostKind::Windows);
    assert_eq!(HostKind::from_os_name("linux"), HostKind::Other);
    assert_eq!(HostKind::from_os_name("macos"), HostKind::Other);
    assert_eq!(HostKind::from_os_name("Windows"), HostKind::Other);
    assert_eq!(HostKind::from_os_name(""), HostKind::Other);
}

#[test]
fn defaults_of_a_windows_host() {
    let defaults = platform_defaults(HostKind::Windows);
    assert_eq!(defaults.shell, "cmd");
    assert_eq!(defaults.shell_flag, "/C");
    assert_eq!(defaults.encoding.name(), "GBK");
}

#[test]
fn defaults_of_another_host() {
    let defaults = platform_defaults(HostKind::Other);
    assert_eq!(defaults.shell, "sh");
    assert_eq!(defaults.shell_flag, "-c");
    assert_eq!(defaults.encoding.name(), "UTF-8");
}

#[test]
fn words_are_joined_by_single_spaces() {
    assert_eq!(join_words(&words(&[])), "");
    assert_eq!(join_words(&words(&["ls"])), "ls");
    assert_eq!(join_words(&words(&["echo", "hello", "world"])), "echo hello world");
    assert_eq!(join_words(&words(&["a", "", "b"])), "a  b");
    assert_eq!(join_words(&words(&["", ""])), " ");
}

#[test]
fn bare_command_takes_every_default() {
    let config = get_config(&bare(&["exit", "1"]), HostKind::Other, "/srv/work");
    assert_eq!(config.command, "exit 1");
    assert_eq!(config.shell, "sh");
    assert_eq!(config.path, "/srv/work");
    assert_eq!(config.log_file_name, "stillrun.log");
    assert_eq!(config.encoding.name(), "UTF-8");
}

#[test]
fn bare_command_on_windows_takes_windows_defaults() {
    let config = get_config(&bare(&["dir"]), HostKind::Windows, "C:\\work");
    assert_eq!(config.command, "dir");
    assert_eq!(config.shell, "cmd");
    assert_eq!(config.path, "C:\\work");
    assert_eq!(config.log_file_name, "stillrun.log");
    assert_eq!(config.encoding.name(), "GBK");
}

#[test]
fn every_setting_can_be_overridden() {
    let args = RunConfigArgs {
        command: words(&["make", "-j4"]),
        shell: Some(String::from("bash")),
        path: Some(String::from("/tmp/build")),
        log_file_name: Some(String::from("build.log")),
        encoding: Some(String::from("latin2")),
    };
    let config = get_config(&args, HostKind::Windows, "/ignored");
    assert_eq!(config.command, "make -j4");
    assert_eq!(config.shell, "bash");
    assert_eq!(config.path, "/tmp/build");
    assert_eq!(config.log_file_name, "build.log");
    assert_eq!(config.encoding.name(), "ISO-8859-2");
}

#[test]
fn unknown_encoding_label_falls_back_to_the_host_default() {
    let mut args = bare(&["true"]);
    args.encoding = Some(String::from("no-such-encoding"));
    assert_eq!(get_config(&args, HostKind::Other, ".").encoding.name(), "UTF-8");
    assert_eq!(get_config(&args, HostKind::Windows, ".").encoding.name(), "GBK");
}

#[test]
fn known_encoding_label_wins_over_the_host_default() {
    assert_eq!(resolve_encoding(&Some(String::from("utf-8")), HostKind::Windows).name(), "UTF-8");
    assert_eq!(resolve_encoding(&Some(String::from("gbk")), HostKind::Other).name(), "GBK");
    assert_eq!(resolve_encoding(&None, HostKind::Other).name(), "UTF-8");
    assert_eq!(resolve_encoding(&None, HostKind::Windows).name(), "GBK");
}

#[test]
fn found_encoding_is_chosen_over_the_fallback() {
    let big5 = TextEncoding::for_label("big5");
    assert_eq!(choose_encoding(big5, HostKind::Windows).name(), "Big5");
    assert_eq!(choose_encoding(None, HostKind::Windows).name(), "GBK");
    assert_eq!(choose_encoding(None, HostKind::Other).name(), "UTF-8");
}

#[test]
fn empty_command_gives_empty_command_line() {
    let config = get_config(&bare(&[]), HostKind::Other, "/");
    assert_eq!(config.command, "");
}

#[test]
fn invocation_hands_the_command_to_the_shell() {
    let config = get_config(&bare(&["echo", "hello"]), HostKind::Other, "/home/me");
    let invocation = config.invocation(HostKind::Other);
    assert_eq!(invocation.program, "sh");
    assert_eq!(invocation.arguments, vec![String::from("-c"), String::from("echo hello")]);
    assert_eq!(invocation.working_directory, "/home/me");
}

#[test]
fn invocation_on_windows_uses_the_windows_flag() {
    let config = get_config(&bare(&["echo", "hello"]), HostKind::Windows, "C:\\");
    let invocation = config.invocation(HostKind::Windows);
    assert_eq!(invocation.program, "cmd");
    assert_eq!(invocation.arguments, vec![String::from("/C"), String::from("echo hello")]);
    assert_eq!(invocation.working_directory, "C:\\");
}
