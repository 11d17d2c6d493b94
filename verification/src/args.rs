//! The command line's content: global verbosity, the subcommand and its
//! arguments, and the log filter the verbosity selects. Parsing argv into
//! these values is the binary's.

use vstd::prelude::*;

use crate::scheme::DefaultScheme;

verus! {

/// Log verbosity from the global `-q` / `-v` counts (before any `RUST_LOG`).
#[derive(Debug, Clone, Copy, PartialEq, Eq, Structural)]
pub enum LogLevel {
    Error,
    Warn,
    Info,
    Debug,
    Trace,
}

/// The tracing filter of each level.
pub open spec fn filter_spec(l: LogLevel) -> Seq<char> {
    match l {
        LogLevel::Error => "ruso=error,reqwest=error"@,
        LogLevel::Warn => "ruso=warn,reqwest=warn"@,
        LogLevel::Info => "ruso=off,reqwest=off"@,
        LogLevel::Debug => "ruso_runtime::runtime::http=debug,ruso=warn,reqwest=warn"@,
        LogLevel::Trace => "ruso=trace,reqwest=debug"@,
    }
}

impl LogLevel {
    /// The tracing filter used unless `RUST_LOG` overrides it.
    pub fn default_filter(self) -> (r: &'static str)
        ensures
            r@ == filter_spec(self),
    {
        match self {
            LogLevel::Error => "ruso=error,reqwest=error",
            LogLevel::Warn => "ruso=warn,reqwest=warn",
            LogLevel::Info => "ruso=off,reqwest=off",
            LogLevel::Debug => "ruso_runtime::runtime::http=debug,ruso=warn,reqwest=warn",
            LogLevel::Trace => "ruso=trace,reqwest=debug",
        }
    }
}

/// The level for `verbose` `-v` and `quiet` `-q` flags: their difference,
/// clamped to error (-2 or less) and trace (2 or more).
pub open spec fn level_spec(verbose: int, quiet: int) -> LogLevel {
    let d = verbose - quiet;
    if d <= -2 {
        LogLevel::Error
    } else if d == -1 {
        LogLevel::Warn
    } else if d == 0 {
        LogLevel::Info
    } else if d == 1 {
        LogLevel::Debug
    } else {
        LogLevel::Trace
    }
}

/// The whole command line.
#[derive(Debug)]
pub struct Cli {
    /// Number of `-q` flags.
    pub quiet: u8,
    /// Number of `-v` flags.
    pub verbose: u8,
    pub command: Command,
}

impl Cli {
    /// The log level the `-q` / `-v` flags select.
    pub fn log_level(&self) -> (r: LogLevel)
        ensures
            r == level_spec(self.verbose as int, self.quiet as int),
    {
        let level: i32 = self.verbose as i32 - self.quiet as i32;
        if level <= -2 {
            LogLevel::Error
        } else if level == -1 {
            LogLevel::Warn
        } else if level == 0 {
            LogLevel::Info
        } else if level == 1 {
            LogLevel::Debug
        } else {
            LogLevel::Trace
        }
    }

    /// Whether at least one `-v` was given (live per-run output).
    pub fn is_verbose(&self) -> (r: bool)
        ensures
            r == (self.verbose > 0),
    {
        self.verbose > 0
    }

    /// The tracing filter for the selected level.
    pub fn log_filter(&self) -> (r: &'static str)
        ensures
            r@ == filter_spec(level_spec(self.verbose as int, self.quiet as int)),
    {
        self.log_level().default_filter()
    }
}

/// A subcommand with its arguments.
#[derive(Debug)]
pub enum Command {
    Scan(ScanArgs),
    Validate(ValidateArgs),
    Compile(CompileArgs),
    Exec(ExecArgs),
    Login(LoginArgs),
    Logout(RegistryOnlyArgs),
    Whoami(RegistryOnlyArgs),
    Publish(PublishArgs),
    Install(InstallArgs),
    Search(SearchArgs),
    Info(InfoArgs),
    Yank(YankArgs),
    Unyank(UnyankArgs),
    Edit(EditArgs),
    Pat(PatCommand),
    Admin(AdminCommand),
}

/// `--script <PATH|REF>`.
#[derive(Debug)]
pub struct ScriptArgs {
    pub script: String,
}

/// `--registry <URL>`.
#[derive(Debug)]
pub struct RegistryArgs {
    pub registry: Option<String>,
}

/// Commands that take only `--registry`.
#[derive(Debug)]
pub struct RegistryOnlyArgs {
    pub registry: RegistryArgs,
}

/// `login [--token <TOKEN>]`.
#[derive(Debug)]
pub struct LoginArgs {
    pub registry: RegistryArgs,
    pub token: Option<String>,
}

/// Visibility of a published script.
#[derive(Debug, Clone, Copy, PartialEq, Eq, Structural)]
pub enum Visibility {
    Public,
    Private,
}

/// `publish <PATH>`.
#[derive(Debug)]
pub struct PublishArgs {
    pub registry: RegistryArgs,
    pub path: String,
    pub visibility: Option<Visibility>,
    pub namespace: Option<String>,
}

/// `install <REF>...`.
#[derive(Debug)]
pub struct InstallArgs {
    pub registry: RegistryArgs,
    pub refs: Vec<String>,
    pub force: bool,
    pub all_versions: bool,
}

/// `search [QUERY]`.
#[derive(Debug)]
pub struct SearchArgs {
    pub registry: RegistryArgs,
    pub query: Option<String>,
    pub tag: Vec<String>,
    pub severity: Option<String>,
    pub cve: Option<String>,
    pub namespace: Option<String>,
    pub family: Option<String>,
    pub page: u32,
    pub per_page: u32,
    pub json: bool,
}

/// `info <REF>`.
#[derive(Debug)]
pub struct InfoArgs {
    pub registry: RegistryArgs,
    pub reference: String,
    pub json: bool,
}

/// `yank <REF@VERSION>`.
#[derive(Debug)]
pub struct YankArgs {
    pub registry: RegistryArgs,
    pub reference: String,
    pub reason: Option<String>,
}

/// `unyank <REF@VERSION>`.
#[derive(Debug)]
pub struct UnyankArgs {
    pub registry: RegistryArgs,
    pub reference: String,
}

/// `edit <REF>`.
#[derive(Debug)]
pub struct EditArgs {
    pub registry: RegistryArgs,
    pub reference: String,
    pub description: Option<String>,
    pub visibility: Option<Visibility>,
}

/// `pat list|create|revoke`.
#[derive(Debug)]
pub enum PatCommand {
    List(PatListArgs),
    Create(PatCreateArgs),
    Revoke(PatRevokeArgs),
}

/// `pat list`.
#[derive(Debug)]
pub struct PatListArgs {
    pub registry: RegistryArgs,
    pub active_only: bool,
    pub json: bool,
}

/// `pat create`.
#[derive(Debug)]
pub struct PatCreateArgs {
    pub registry: RegistryArgs,
    pub name: String,
    pub scope: Vec<String>,
    pub expires_at: Option<String>,
}

/// `pat revoke <ID>`.
#[derive(Debug)]
pub struct PatRevokeArgs {
    pub registry: RegistryArgs,
    pub id: String,
}

/// `admin delete`.
#[derive(Debug)]
pub enum AdminCommand {
    Delete(AdminDeleteArgs),
}

/// `admin delete <REF>[@VERSION] --yes`.
#[derive(Debug)]
pub struct AdminDeleteArgs {
    pub registry: RegistryArgs,
    pub reference: String,
    pub yes: bool,
}

/// Report format of `scan` / `exec`.
#[derive(Debug, Clone, Copy, PartialEq, Eq, Structural)]
pub enum OutputFormat {
    Human,
    Json,
    Csv,
}

/// `scan`.
#[derive(Debug)]
pub struct ScanArgs {
    pub script: Option<String>,
    pub family: Option<String>,
    pub target: String,
    pub timeout: String,
    pub read_timeout: String,
    pub max_response_bytes: usize,
    pub no_follow_redirects: bool,
    pub insecure: bool,
    pub proxy: Option<String>,
    pub concurrency: usize,
    pub max_per_host: usize,
    pub rps: u32,
    pub script_timeout: String,
    pub output: OutputFormat,
    pub report: Option<String>,
    pub default_scheme: DefaultScheme,
    pub no_scheme_probe: bool,
    pub registry: RegistryArgs,
}

/// `validate`.
#[derive(Debug)]
pub struct ValidateArgs {
    pub script: ScriptArgs,
}

/// `compile`.
#[derive(Debug)]
pub struct CompileArgs {
    pub script: ScriptArgs,
}

/// `exec`.
#[derive(Debug)]
pub struct ExecArgs {
    pub bytecode: String,
    pub target: String,
    pub timeout: String,
    pub read_timeout: String,
    pub max_response_bytes: usize,
    pub no_follow_redirects: bool,
    pub insecure: bool,
    pub proxy: Option<String>,
    pub concurrency: usize,
    pub max_per_host: usize,
    pub rps: u32,
    pub script_timeout: String,
    pub output: OutputFormat,
    pub report: Option<String>,
    pub registry: RegistryArgs,
}

} // verus!
