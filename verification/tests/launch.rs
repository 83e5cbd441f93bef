use hawk::launch::{
    bash_rcfile, build_shell_command, config_path, shell_command, shell_kind, shell_name,
    zsh_zdotdir, ShellKind, BASH_RC, ZSH_RC,
};

fn some(text: &str) -> Option<String> {
    Some(text.to_string())
}

#[test]
fn kinds_of_shells_are_told_by_name() {
    assert_eq!(shell_kind("bash"), ShellKind::Bash);
    assert_eq!(shell_kind("rbash"), ShellKind::Bash);
    assert_eq!(shell_kind("zsh"), ShellKind::Zsh);
    assert_eq!(shell_kind("zsh-5.9"), ShellKind::Zsh);
    assert_eq!(shell_kind("bash-zsh"), ShellKind::Bash);
    assert_eq!(shell_kind("fish"), ShellKind::Other);
    assert_eq!(shell_kind("BASH"), ShellKind::Other);
    assert_eq!(shell_kind(""), ShellKind::Other);
}

#[test]
fn program_names_are_in_lower_case() {
    assert_eq!(shell_name("/bin/Bash"), "bash");
    assert_eq!(shell_name("/usr/local/bin/ZSH"), "zsh");
    assert_eq!(shell_name("Fish"), "fish");
    assert_eq!(shell_name("/opt/ÉSH/"), "ésh");
    assert_eq!(shell_name(""), "bash");
    assert_eq!(shell_name("/bin/.."), "bash");
    assert_eq!(shell_name("/"), "bash");
}

#[test]
fn configuration_lies_where_it_is_set_to() {
    assert_eq!(config_path(some("/cfg"), some("/home/me")), "/cfg");
    assert_eq!(config_path(some(" /odd "), None), " /odd ");
    assert_eq!(config_path(some(""), some("/home/me")), "/home/me/.config");
    assert_eq!(config_path(some(" \t"), some("/home/me/")), "/home/me/.config");
    assert_eq!(config_path(None, some("/home/me")), "/home/me/.config");
    assert_eq!(config_path(None, some("")), ".config");
    assert_eq!(config_path(None, None), ".");
    assert_eq!(config_path(some("\u{3000}"), None), ".");
}

#[test]
fn bash_reads_a_file_that_it_is_told_of() {
    let file = bash_rcfile("/cfg");
    assert_eq!(file.dir, "/cfg/hawk");
    assert_eq!(file.path, "/cfg/hawk/hawk.bashrc");
    assert_eq!(file.content, BASH_RC);
    let command = build_shell_command("/bin/bash", "bash", "/cfg");
    assert_eq!(command.program, "/bin/bash");
    assert_eq!(command.args, ["--rcfile", "/cfg/hawk/hawk.bashrc", "-i"]);
    assert!(command.env.is_empty());
    assert_eq!(command.startup.unwrap().path, "/cfg/hawk/hawk.bashrc");
}

#[test]
fn zsh_reads_a_directory_that_it_is_told_of() {
    let file = zsh_zdotdir("/cfg");
    assert_eq!(file.dir, "/cfg/hawk/zdotdir");
    assert_eq!(file.path, "/cfg/hawk/zdotdir/.zshrc");
    assert_eq!(file.content, ZSH_RC);
    let command = build_shell_command("/bin/zsh", "zsh", "/cfg");
    assert_eq!(command.args, ["-i"]);
    assert_eq!(command.env, vec![("ZDOTDIR".to_string(), "/cfg/hawk/zdotdir".to_string())]);
    assert_eq!(command.startup.unwrap().content, ZSH_RC);
}

#[test]
fn other_shells_are_started_plainly() {
    let command = build_shell_command("/usr/bin/fish", "fish", "/cfg");
    assert_eq!(command.program, "/usr/bin/fish");
    assert_eq!(command.args, ["-i"]);
    assert!(command.env.is_empty());
    assert!(command.startup.is_none());
}

#[test]
fn every_shell_is_interactive() {
    for name in ["bash", "zsh", "sh", "fish", "nu"] {
        let command = build_shell_command("/bin/x", name, "/cfg");
        assert_eq!(command.args.last().unwrap(), "-i");
    }
}

#[test]
fn the_environment_decides_the_shell() {
    let command = shell_command(some("/bin/ZSH"), some("screen"), None, some("/home/me"));
    assert_eq!(command.program, "/bin/ZSH");
    assert_eq!(
        command.env,
        vec![
            ("TERM".to_string(), "screen".to_string()),
            ("ZDOTDIR".to_string(), "/home/me/.config/hawk/zdotdir".to_string()),
        ]
    );
    assert_eq!(command.startup.unwrap().path, "/home/me/.config/hawk/zdotdir/.zshrc");
}

#[test]
fn without_an_environment_it_is_bash() {
    let command = shell_command(None, None, None, None);
    assert_eq!(command.program, "/bin/bash");
    assert_eq!(command.args, ["--rcfile", "./hawk/hawk.bashrc", "-i"]);
    assert_eq!(command.env, vec![("TERM".to_string(), "xterm-256color".to_string())]);
    assert_eq!(command.startup.unwrap().dir, "./hawk");
}

#[test]
fn startup_files_hook_the_prompt() {
    assert!(BASH_RC.contains("PROMPT_COMMAND=\"__hawk_osc7\"\n"));
    assert!(BASH_RC.contains("printf '\\e]7;file://%s%s\\a' \"${HOSTNAME:-localhost}\" \"$PWD\""));
    assert!(BASH_RC.starts_with("\n# --- generated by hawk ---\nif [ -f \"$HOME/.bashrc\" ]"));
    assert!(ZSH_RC.contains("printf '\\e]7;file://%s%s\\a' \"${HOST:-localhost}\" \"$PWD\""));
    assert!(ZSH_RC.ends_with("autoload -Uz add-zsh-hook\nadd-zsh-hook precmd __hawk_osc7\n"));
}
