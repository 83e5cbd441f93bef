//! Starting the shell: which program, with which arguments and environment, and the startup files
//! that make it report its working directory.

use vstd::prelude::*;
use vstd::utf8::encode_utf8;

use crate::bytes::{contains_seq, holds, law_occurring_is_being_held, occurs};
use crate::paths::{file_name, final_name, is_name, join, joined, law_join_adds_the_name, names};
use crate::text::{blank, is_blank, is_white_space, lowercase, to_lowercase};

verus! {

/// The startup file for bash. It reads the user's own one and then has every prompt report the
/// working directory.
pub const BASH_RC: &'static str = r#"
# --- generated by hawk ---
if [ -f "$HOME/.bashrc" ]; then
  source "$HOME/.bashrc"
fi

__hawk_osc7() {
  printf '\e]7;file://%s%s\a' "${HOSTNAME:-localhost}" "$PWD"
}

if [ -n "$PROMPT_COMMAND" ]; then
  PROMPT_COMMAND="$PROMPT_COMMAND; __hawk_osc7"
else
  PROMPT_COMMAND="__hawk_osc7"
fi
"#;

/// The startup file for zsh, to the same end.
pub const ZSH_RC: &'static str = r#"
# --- generated by hawk ---
if [ -f "$HOME/.zshrc" ]; then
  source "$HOME/.zshrc"
fi

__hawk_osc7() {
  printf '\e]7;file://%s%s\a' "${HOST:-localhost}" "$PWD"
}

autoload -Uz add-zsh-hook
add-zsh-hook precmd __hawk_osc7
"#;

/// A shell, as far as starting it differs.
#[derive(Clone, Copy, Debug, PartialEq, Eq, Structural)]
pub enum ShellKind {
    Bash,
    Zsh,
    Other,
}

/// The bytes of `bash`.
pub const BASH: [u8; 4] = [0x62, 0x61, 0x73, 0x68];

/// The bytes of `zsh`.
pub const ZSH: [u8; 3] = [0x7a, 0x73, 0x68];

/// The kind of shell that a program name tells: by `bash` in it, else by `zsh` in it.
pub open spec fn kind_of(shell_name: Seq<char>) -> ShellKind {
    if occurs(encode_utf8(shell_name), BASH@) {
        ShellKind::Bash
    } else if occurs(encode_utf8(shell_name), ZSH@) {
        ShellKind::Zsh
    } else {
        ShellKind::Other
    }
}

/// Tells the kind of a shell by its program name.
pub fn shell_kind(shell_name: &str) -> (kind: ShellKind)
    ensures
        kind == kind_of(shell_name@),
{
    let bash: [u8; 4] = BASH;
    let zsh: [u8; 3] = ZSH;
    let name = shell_name.as_bytes();
    if contains_seq(name, bash.as_slice()) {
        ShellKind::Bash
    } else if contains_seq(name, zsh.as_slice()) {
        ShellKind::Zsh
    } else {
        ShellKind::Other
    }
}

/// A startup file to be written before the shell starts, and the directory that must hold it.
#[derive(Debug)]
pub struct StartupFile {
    pub dir: String,
    pub path: String,
    pub content: String,
}

/// The texts of a startup file.
#[verifier::ext_equal]
pub struct StartupView {
    pub dir: Seq<char>,
    pub path: Seq<char>,
    pub content: Seq<char>,
}

impl View for StartupFile {
    type V = StartupView;

    open spec fn view(&self) -> StartupView {
        StartupView { dir: self.dir@, path: self.path@, content: self.content@ }
    }
}

/// How to start a shell: the program, its arguments, the environment variables to set for it in
/// this order, and the startup file that it reads.
#[derive(Debug)]
pub struct ShellCommand {
    pub program: String,
    pub args: Vec<String>,
    pub env: Vec<(String, String)>,
    pub startup: Option<StartupFile>,
}

/// The texts of a command.
#[verifier::ext_equal]
pub struct CommandView {
    pub program: Seq<char>,
    pub args: Seq<Seq<char>>,
    pub env: Seq<(Seq<char>, Seq<char>)>,
    pub startup: Option<StartupView>,
}

impl View for ShellCommand {
    type V = CommandView;

    open spec fn view(&self) -> CommandView {
        CommandView {
            program: self.program@,
            args: self.args@.map_values(|arg: String| arg@),
            env: self.env@.map_values(|var: (String, String)| (var.0@, var.1@)),
            startup: match self.startup {
                Some(file) => Some(file@),
                None => None,
            },
        }
    }
}

/// The text of an environment variable, where it is set.
pub open spec fn var_view(var: Option<String>) -> Option<Seq<char>> {
    match var {
        Some(text) => Some(text@),
        None => None,
    }
}

/// The directory for configuration: the one that is set for it unless that is blank, else
/// `.config` in the home directory, else the working directory.
pub open spec fn config_dir(xdg: Option<Seq<char>>, home: Option<Seq<char>>) -> Seq<char> {
    if xdg is Some && !is_blank(xdg->0) {
        xdg->0
    } else if home is Some {
        joined(home->0, ".config"@)
    } else {
        "."@
    }
}

/// Gives the directory for configuration out of `XDG_CONFIG_HOME` and `HOME`.
pub fn config_path(xdg: Option<String>, home: Option<String>) -> (path: String)
    ensures
        path@ == config_dir(var_view(xdg), var_view(home)),
{
    if let Some(dir) = xdg {
        if !blank(dir.as_str()) {
            return dir;
        }
    }
    match home {
        Some(dir) => join(dir.as_str(), ".config"),
        None => ".".to_owned(),
    }
}

/// The startup file of a kind of shell, under the directory for configuration.
pub open spec fn startup_of(kind: ShellKind, config: Seq<char>) -> Option<StartupView> {
    let hawk = joined(config, "hawk"@);
    let zdotdir = joined(hawk, "zdotdir"@);
    match kind {
        ShellKind::Bash => Some(
            StartupView { dir: hawk, path: joined(hawk, "hawk.bashrc"@), content: BASH_RC@ },
        ),
        ShellKind::Zsh => Some(
            StartupView { dir: zdotdir, path: joined(zdotdir, ".zshrc"@), content: ZSH_RC@ },
        ),
        ShellKind::Other => None,
    }
}

/// Gives the startup file for bash.
pub fn bash_rcfile(config: &str) -> (file: StartupFile)
    ensures
        Some(file@) == startup_of(ShellKind::Bash, config@),
{
    let dir = join(config, "hawk");
    let path = join(dir.as_str(), "hawk.bashrc");
    StartupFile { dir, path, content: BASH_RC.to_owned() }
}

/// Gives the startup file for zsh, which lies in a directory of its own.
pub fn zsh_zdotdir(config: &str) -> (file: StartupFile)
    ensures
        Some(file@) == startup_of(ShellKind::Zsh, config@),
{
    let hawk = join(config, "hawk");
    let dir = join(hawk.as_str(), "zdotdir");
    let path = join(dir.as_str(), ".zshrc");
    StartupFile { dir, path, content: ZSH_RC.to_owned() }
}

/// The command for a shell: an interactive one that reads its startup file, which bash is told of
/// by an argument and zsh by a variable.
pub open spec fn command_for(
    shell_path: Seq<char>,
    kind: ShellKind,
    config: Seq<char>,
) -> CommandView {
    let startup = startup_of(kind, config);
    CommandView {
        program: shell_path,
        args: match kind {
            ShellKind::Bash => seq!["--rcfile"@, startup->0.path, "-i"@],
            _ => seq!["-i"@],
        },
        env: match kind {
            ShellKind::Zsh => seq![("ZDOTDIR"@, startup->0.dir)],
            _ => seq![],
        },
        startup,
    }
}

/// Every shell is an interactive one, and what it reads at its start lies where it is told.
pub proof fn law_shells_are_interactive(shell_path: Seq<char>, kind: ShellKind, config: Seq<char>)
    ensures
        ({
            let command = command_for(shell_path, kind, config);
            &&& command.args.len() > 0 && command.args.last() == "-i"@
            &&& kind is Bash ==> command.args.contains(command.startup->0.path)
            &&& kind is Zsh ==> command.env.contains(("ZDOTDIR"@, command.startup->0.dir))
        }),
{
    let command = command_for(shell_path, kind, config);
    if kind is Bash {
        assert(command.args[1] == command.startup->0.path);
    }
    if kind is Zsh {
        assert(command.env[0] == ("ZDOTDIR"@, command.startup->0.dir));
    }
}

/// Builds the command for a shell.
pub fn build_shell_command(shell_path: &str, shell_name: &str, config: &str) -> (command:
    ShellCommand)
    ensures
        command@ == command_for(shell_path@, kind_of(shell_name@), config@),
{
    let program = shell_path.to_owned();
    let mut args: Vec<String> = Vec::new();
    let mut env: Vec<(String, String)> = Vec::new();
    let ghost want = command_for(shell_path@, kind_of(shell_name@), config@);
    match shell_kind(shell_name) {
        ShellKind::Bash => {
            let file = bash_rcfile(config);
            args.push("--rcfile".to_owned());
            args.push(file.path.clone());
            args.push("-i".to_owned());
            let command = ShellCommand { program, args, env, startup: Some(file) };
            assert(command@ =~= want);
            command
        },
        ShellKind::Zsh => {
            let file = zsh_zdotdir(config);
            args.push("-i".to_owned());
            env.push(("ZDOTDIR".to_owned(), file.dir.clone()));
            let command = ShellCommand { program, args, env, startup: Some(file) };
            assert(command@ =~= want);
            command
        },
        ShellKind::Other => {
            args.push("-i".to_owned());
            let command = ShellCommand { program, args, env, startup: None };
            assert(command@ =~= want);
            command
        },
    }
}

/// The program name of a shell, in lower case; `bash` where the path ends in none.
pub open spec fn program_name(shell_path: Seq<char>) -> Seq<char> {
    match final_name(shell_path) {
        Some(name) => lowercase(name),
        None => lowercase("bash"@),
    }
}

/// Gives the program name of a shell.
pub fn shell_name(shell_path: &str) -> (name: String)
    ensures
        name@ == program_name(shell_path@),
{
    match file_name(shell_path) {
        Some(name) => to_lowercase(name.as_str()),
        None => to_lowercase("bash"),
    }
}

/// The command with which the shell is started, out of the variables `SHELL`, `TERM`,
/// `XDG_CONFIG_HOME` and `HOME`.
pub open spec fn spawn_command(
    shell: Option<Seq<char>>,
    term: Option<Seq<char>>,
    xdg: Option<Seq<char>>,
    home: Option<Seq<char>>,
) -> CommandView {
    let path = match shell {
        Some(path) => path,
        None => "/bin/bash"@,
    };
    let term = match term {
        Some(term) => term,
        None => "xterm-256color"@,
    };
    let command = command_for(path, kind_of(program_name(path)), config_dir(xdg, home));
    CommandView { env: seq![("TERM"@, term)] + command.env, ..command }
}

/// Gives the command with which the shell is started.
pub fn shell_command(
    shell: Option<String>,
    term: Option<String>,
    xdg: Option<String>,
    home: Option<String>,
) -> (command: ShellCommand)
    ensures
        command@ == spawn_command(var_view(shell), var_view(term), var_view(xdg), var_view(home)),
{
    let path = match shell {
        Some(path) => path,
        None => "/bin/bash".to_owned(),
    };
    let term_name = match term {
        Some(name) => name,
        None => "xterm-256color".to_owned(),
    };
    let name = shell_name(path.as_str());
    let config = config_path(xdg, home);
    let built = build_shell_command(path.as_str(), name.as_str(), config.as_str());
    let ghost before = built@;
    let ShellCommand { program, args, env: extra, startup } = built;
    let ghost extra_vars = extra@;
    let mut extra = extra;
    let mut env: Vec<(String, String)> = Vec::new();
    env.push(("TERM".to_owned(), term_name));
    let ghost head = env@;
    env.append(&mut extra);
    assert(env@ == head + extra_vars);
    let command = ShellCommand { program, args, env, startup };
    assert(command@.env =~= seq![("TERM"@, term_name@)] + before.env);
    assert(command@ =~= spawn_command(
        var_view(shell),
        var_view(term),
        var_view(xdg),
        var_view(home),
    ));
    command
}

/// A shell is a bash where `bash` is a part of its name, else a zsh where `zsh` is, and else
/// neither.
pub proof fn law_kind_is_told_by_the_name(shell_name: Seq<char>)
    ensures
        ({
            let name = encode_utf8(shell_name);
            let bash = holds(name, seq![0x62u8, 0x61u8, 0x73u8, 0x68u8]);
            let zsh = holds(name, seq![0x7au8, 0x73u8, 0x68u8]);
            &&& kind_of(shell_name) is Bash <==> bash
            &&& kind_of(shell_name) is Zsh <==> zsh && !bash
            &&& kind_of(shell_name) is Other <==> !zsh && !bash
        }),
{
    assert(BASH@ =~= seq![0x62u8, 0x61u8, 0x73u8, 0x68u8]);
    assert(ZSH@ =~= seq![0x7au8, 0x73u8, 0x68u8]);
    law_occurring_is_being_held(encode_utf8(shell_name), BASH@);
    law_occurring_is_being_held(encode_utf8(shell_name), ZSH@);
}

/// The directory for configuration is the one that is set, where it holds anything but white space;
/// else it lies in the home directory; else it is the working directory.
pub proof fn law_where_configuration_lies(
    xdg: Seq<char>,
    home: Seq<char>,
    has_home: Option<Seq<char>>,
    i: int,
)
    ensures
        0 <= i < xdg.len() && !is_white_space(xdg[i]) ==> config_dir(Some(xdg), has_home) == xdg,
        (forall|k: int| 0 <= k < xdg.len() ==> is_white_space(#[trigger] xdg[k])) ==> config_dir(
            Some(xdg),
            has_home,
        ) == config_dir(None, has_home),
        config_dir(None, Some(home)) == joined(home, ".config"@),
        config_dir(None, None) == "."@,
{
}

/// The startup files lie in `hawk` below the directory for configuration.
pub proof fn law_where_startup_files_lie(config: Seq<char>)
    ensures
        ({
            let bash = startup_of(ShellKind::Bash, config)->0;
            let zsh = startup_of(ShellKind::Zsh, config)->0;
            let below = names(config).push("hawk"@);
            &&& config.is_prefix_of(bash.dir) && config.is_prefix_of(zsh.dir)
            &&& bash.dir.is_prefix_of(bash.path) && zsh.dir.is_prefix_of(zsh.path)
            &&& names(bash.dir) == below
            &&& names(bash.path) == below.push("hawk.bashrc"@)
            &&& names(zsh.dir) == below.push("zdotdir"@)
            &&& names(zsh.path) == below.push("zdotdir"@).push(".zshrc"@)
        }),
        startup_of(ShellKind::Bash, config) is Some,
        startup_of(ShellKind::Zsh, config) is Some,
        startup_of(ShellKind::Other, config) is None,
{
    reveal_strlit("hawk");
    reveal_strlit("hawk.bashrc");
    reveal_strlit("zdotdir");
    reveal_strlit(".zshrc");
    let hawk = joined(config, "hawk"@);
    let zdotdir = joined(hawk, "zdotdir"@);
    assert(is_name("hawk"@) && is_name("hawk.bashrc"@) && is_name("zdotdir"@) && is_name(".zshrc"@));
    law_join_adds_the_name(config, "hawk"@);
    law_join_adds_the_name(hawk, "hawk.bashrc"@);
    law_join_adds_the_name(hawk, "zdotdir"@);
    law_join_adds_the_name(zdotdir, ".zshrc"@);
    lemma_joined_prefix(config, "hawk"@);
    lemma_joined_prefix(hawk, "hawk.bashrc"@);
    lemma_joined_prefix(hawk, "zdotdir"@);
    lemma_joined_prefix(zdotdir, ".zshrc"@);
    assert(config.is_prefix_of(zdotdir)) by {
        assert(zdotdir.subrange(0, config.len() as int) =~= hawk.subrange(0, config.len() as int));
    }
}

proof fn lemma_joined_prefix(base: Seq<char>, name: Seq<char>)
    ensures
        base.is_prefix_of(joined(base, name)),
{
    assert(joined(base, name).subrange(0, base.len() as int) =~= base);
}

/// A shell is started by its path, interactively. A bash is told its startup file by an argument, a
/// zsh the directory of its own by a variable, and another shell nothing.
pub proof fn law_how_shells_are_started(shell_path: Seq<char>, config: Seq<char>)
    ensures
        ({
            let bash = command_for(shell_path, ShellKind::Bash, config);
            let zsh = command_for(shell_path, ShellKind::Zsh, config);
            let other = command_for(shell_path, ShellKind::Other, config);
            &&& bash.program == shell_path
            &&& zsh.program == shell_path
            &&& other.program == shell_path
            &&& bash.startup == startup_of(ShellKind::Bash, config)
            &&& zsh.startup == startup_of(ShellKind::Zsh, config)
            &&& other.startup is None
            &&& bash.args == seq!["--rcfile"@, bash.startup->0.path, "-i"@]
            &&& zsh.args == seq!["-i"@]
            &&& other.args == seq!["-i"@]
            &&& bash.env.len() == 0
            &&& zsh.env == seq![("ZDOTDIR"@, zsh.startup->0.dir)]
            &&& other.env.len() == 0
        }),
{
}

/// The environment names the shell and the terminal, and `/bin/bash` and `xterm-256color` stand in
/// for them. The kind of the shell is told by the last name along its path, in lower case.
pub proof fn law_environment_decides_the_shell(
    shell: Seq<char>,
    term: Seq<char>,
    any_shell: Option<Seq<char>>,
    any_term: Option<Seq<char>>,
    xdg: Option<Seq<char>>,
    home: Option<Seq<char>>,
)
    ensures
        spawn_command(None, any_term, xdg, home) == spawn_command(
            Some("/bin/bash"@),
            any_term,
            xdg,
            home,
        ),
        spawn_command(any_shell, None, xdg, home) == spawn_command(
            any_shell,
            Some("xterm-256color"@),
            xdg,
            home,
        ),
        ({
            let name = if names(shell).len() > 0 && names(shell).last() != seq!['.', '.'] {
                names(shell).last()
            } else {
                "bash"@
            };
            let built = command_for(shell, kind_of(lowercase(name)), config_dir(xdg, home));
            let command = spawn_command(Some(shell), Some(term), xdg, home);
            &&& command.program == built.program
            &&& command.args == built.args
            &&& command.startup == built.startup
            &&& command.env == seq![("TERM"@, term)] + built.env
        }),
{
}

/// The startup file for bash reads the user's own one, defines a function that prints a report of
/// the working directory, and adds that function to what every prompt runs.
pub proof fn law_what_bash_reads(config: Seq<char>)
    ensures
        startup_of(ShellKind::Bash, config)->0.content == "\n# --- generated by hawk ---\n"@
            + "if [ -f \"$HOME/.bashrc\" ]; then\n  source \"$HOME/.bashrc\"\nfi\n"@ + "\n"@
            + "__hawk_osc7() {\n  printf '\\e]7;file://%s%s\\a' \"${HOSTNAME:-localhost}\" \"$PWD\"\n}\n"@
            + "\n"@
            + "if [ -n \"$PROMPT_COMMAND\" ]; then\n  PROMPT_COMMAND=\"$PROMPT_COMMAND; __hawk_osc7\"\n"@
            + "else\n  PROMPT_COMMAND=\"__hawk_osc7\"\nfi\n"@,
{
    reveal_strlit("\n# --- generated by hawk ---\n");
    reveal_strlit("if [ -f \"$HOME/.bashrc\" ]; then\n  source \"$HOME/.bashrc\"\nfi\n");
    reveal_strlit("\n");
    reveal_strlit(
        "__hawk_osc7() {\n  printf '\\e]7;file://%s%s\\a' \"${HOSTNAME:-localhost}\" \"$PWD\"\n}\n",
    );
    reveal_strlit(
        "if [ -n \"$PROMPT_COMMAND\" ]; then\n  PROMPT_COMMAND=\"$PROMPT_COMMAND; __hawk_osc7\"\n",
    );
    reveal_strlit("else\n  PROMPT_COMMAND=\"__hawk_osc7\"\nfi\n");
    reveal_strlit(
        r#"
# --- generated by hawk ---
if [ -f "$HOME/.bashrc" ]; then
  source "$HOME/.bashrc"
fi

__hawk_osc7() {
  printf '\e]7;file://%s%s\a' "${HOSTNAME:-localhost}" "$PWD"
}

if [ -n "$PROMPT_COMMAND" ]; then
  PROMPT_COMMAND="$PROMPT_COMMAND; __hawk_osc7"
else
  PROMPT_COMMAND="__hawk_osc7"
fi
"#,
    );
}

/// The startup file for zsh reads the user's own one, defines a function that prints a report of
/// the working directory, and hooks that function to every prompt.
pub proof fn law_what_zsh_reads(config: Seq<char>)
    ensures
        startup_of(ShellKind::Zsh, config)->0.content == "\n# --- generated by hawk ---\n"@
            + "if [ -f \"$HOME/.zshrc\" ]; then\n  source \"$HOME/.zshrc\"\nfi\n"@ + "\n"@
            + "__hawk_osc7() {\n  printf '\\e]7;file://%s%s\\a' \"${HOST:-localhost}\" \"$PWD\"\n}\n"@
            + "\n"@ + "autoload -Uz add-zsh-hook\nadd-zsh-hook precmd __hawk_osc7\n"@,
{
    reveal_strlit("\n# --- generated by hawk ---\n");
    reveal_strlit("if [ -f \"$HOME/.zshrc\" ]; then\n  source \"$HOME/.zshrc\"\nfi\n");
    reveal_strlit("\n");
    reveal_strlit(
        "__hawk_osc7() {\n  printf '\\e]7;file://%s%s\\a' \"${HOST:-localhost}\" \"$PWD\"\n}\n",
    );
    reveal_strlit("autoload -Uz add-zsh-hook\nadd-zsh-hook precmd __hawk_osc7\n");
    reveal_strlit(
        r#"
# --- generated by hawk ---
if [ -f "$HOME/.zshrc" ]; then
  source "$HOME/.zshrc"
fi

__hawk_osc7() {
  printf '\e]7;file://%s%s\a' "${HOST:-localhost}" "$PWD"
}

autoload -Uz add-zsh-hook
add-zsh-hook precmd __hawk_osc7
"#,
    );
}

/// A variable that is set is its text, also where that is empty.
pub proof fn law_variables_are_their_texts(text: String)
    ensures
        var_view(Some(text)) == Some(text@),
        var_view(None) is None,
{
}

/// A command is seen with all its texts, one for one.
pub proof fn law_commands_are_their_texts(command: ShellCommand, i: int)
    ensures
        command@.program == command.program@,
        command@.args.len() == command.args@.len(),
        0 <= i < command.args@.len() ==> command@.args[i] == command.args@[i]@,
        command@.env.len() == command.env@.len(),
        0 <= i < command.env@.len() ==> command@.env[i] == (command.env@[i].0@, command.env@[i].1@),
        command.startup is None ==> command@.startup is None,
        command.startup matches Some(file) ==> {
            &&& command@.startup matches Some(seen)
            &&& seen.dir == file.dir@ && seen.path == file.path@ && seen.content == file.content@
        },
{
}

/// The program name of a shell is the last name along its path, in lower case. A path that has none,
/// or ends in `..`, is taken for a bash.
pub proof fn law_program_name_is_the_last_name(path: Seq<char>)
    ensures
        names(path).len() > 0 && names(path).last() != seq!['.', '.'] ==> program_name(path)
            == lowercase(names(path).last()),
        names(path).len() == 0 || names(path).last() == seq!['.', '.'] ==> program_name(path)
            == lowercase("bash"@),
{
}

} // verus!
