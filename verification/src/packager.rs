//! Packager organ: which package manager serves the host, the command
//! each operation runs there, what its outcome is reported as, and how an
//! organ's declared system dependencies are resolved.

use vstd::prelude::*;
use serde_json::Value;
use crate::sdk::{ArgsView, OrganArgs, OrganCompatibility, arg_value, compat_verdict, extract_arg, opt_view};
use crate::text::{chars_of, contains_sub, contains_text, lowercase, push_text, to_lower, trim, trim_chars, string_from_chars};

verus! {

/// A package manager.
#[derive(Clone, Copy, Debug, PartialEq, Eq, Structural)]
pub enum Backend {
    Sfsu,
    Scoop,
    Nix,
    Guix,
    Unknown,
}

/// The backend's name.
pub open spec fn backend_name(b: Backend) -> Seq<char> {
    match b {
        Backend::Sfsu => "sfsu"@,
        Backend::Scoop => "scoop"@,
        Backend::Nix => "nix"@,
        Backend::Guix => "guix"@,
        Backend::Unknown => "unknown"@,
    }
}

impl Backend {
    /// The backend's name.
    pub fn as_str(&self) -> (r: &'static str)
        ensures
            r@ == backend_name(*self),
    {
        match self {
            Backend::Sfsu => "sfsu",
            Backend::Scoop => "scoop",
            Backend::Nix => "nix",
            Backend::Guix => "guix",
            Backend::Unknown => "unknown",
        }
    }
}

/// The backend chosen from what the host offers: on Windows SFSU, then
/// Scoop; elsewhere Guix (its environment or command), then Nix.
pub open spec fn chosen_backend(windows: bool, sfsu: bool, scoop: bool, guix: bool, nix: bool) -> Backend {
    if windows {
        if sfsu {
            Backend::Sfsu
        } else if scoop {
            Backend::Scoop
        } else {
            Backend::Unknown
        }
    } else if guix {
        Backend::Guix
    } else if nix {
        Backend::Nix
    } else {
        Backend::Unknown
    }
}

/// Choose the backend from the probes of the host.
pub fn choose_backend(windows: bool, sfsu: bool, scoop: bool, guix: bool, nix: bool) -> (r: Backend)
    ensures
        r == chosen_backend(windows, sfsu, scoop, guix, nix),
{
    if windows {
        if sfsu {
            Backend::Sfsu
        } else if scoop {
            Backend::Scoop
        } else {
            Backend::Unknown
        }
    } else if guix {
        Backend::Guix
    } else if nix {
        Backend::Nix
    } else {
        Backend::Unknown
    }
}

/// The version a manifest gets when it names none.
pub fn default_version() -> (r: String)
    ensures
        r@ == "0.1.0"@,
{
    String::from_str("0.1.0")
}

/// The organ type a manifest gets when it names none.
pub fn default_type() -> (r: String)
    ensures
        r@ == "cli"@,
{
    String::from_str("cli")
}

/// A command to run: the program and its arguments.
#[derive(Debug)]
pub struct CommandSpec {
    pub program: String,
    pub args: Vec<String>,
}

pub open spec fn command_view(c: CommandSpec) -> (Seq<char>, Seq<Seq<char>>) {
    (c.program@, c.args@.map_values(|s: String| s@))
}

/// The package operations.
#[derive(Clone, Copy, Debug, PartialEq, Eq, Structural)]
pub enum PkgVerb {
    Search,
    List,
    Install,
    Uninstall,
    Info,
    Update,
}

pub open spec fn ps(script: Seq<char>) -> (Seq<char>, Seq<Seq<char>>) {
    ("powershell"@, seq!["-NoProfile"@, "-Command"@, script])
}

/// The command an operation runs on a backend, for the package or query
/// `arg` (absent only for an update of everything); none where the
/// backend cannot run it.
pub open spec fn verb_command(b: Backend, v: PkgVerb, arg: Option<Seq<char>>) -> Option<(Seq<char>, Seq<Seq<char>>)> {
    let a = match arg {
        Some(x) => x,
        None => Seq::empty(),
    };
    match v {
        PkgVerb::Search => match b {
            Backend::Sfsu => Some(("sfsu"@, seq!["search"@, a, "--json"@])),
            Backend::Scoop => Some(ps("scoop search "@ + a)),
            Backend::Nix => Some(("nix"@, seq!["search"@, "nixpkgs"@, a, "--json"@])),
            Backend::Guix => Some(("guix"@, seq!["search"@, a])),
            Backend::Unknown => None,
        },
        PkgVerb::List => match b {
            Backend::Sfsu => Some(("sfsu"@, seq!["list"@, "--json"@])),
            Backend::Scoop => Some(ps("scoop list"@)),
            Backend::Nix => Some(("nix-env"@, seq!["-q"@])),
            Backend::Guix => Some(("guix"@, seq!["package"@, "-I"@])),
            Backend::Unknown => None,
        },
        PkgVerb::Install => match b {
            Backend::Sfsu | Backend::Scoop => Some(ps("scoop install "@ + a)),
            Backend::Nix => Some(("nix-env"@, seq!["-iA"@, "nixpkgs."@ + a])),
            Backend::Guix => Some(("guix"@, seq!["install"@, a])),
            Backend::Unknown => None,
        },
        PkgVerb::Uninstall => match b {
            Backend::Sfsu | Backend::Scoop => Some(ps("scoop uninstall "@ + a)),
            Backend::Nix => Some(("nix-env"@, seq!["-e"@, a])),
            Backend::Guix => Some(("guix"@, seq!["remove"@, a])),
            Backend::Unknown => None,
        },
        PkgVerb::Info => match b {
            Backend::Sfsu => Some(("sfsu"@, seq!["info"@, a, "--json"@])),
            Backend::Scoop => Some(ps("scoop info "@ + a)),
            Backend::Nix => Some(("nix-env"@, seq!["-qa"@, "--description"@, a])),
            Backend::Guix => Some(("guix"@, seq!["show"@, a])),
            Backend::Unknown => None,
        },
        PkgVerb::Update => match b {
            Backend::Sfsu | Backend::Scoop => Some(
                ps(
                    match arg {
                        Some(p) => "scoop update "@ + p,
                        None => "sfsu update"@,
                    },
                ),
            ),
            Backend::Nix => Some(("nix-channel"@, seq!["--update"@])),
            Backend::Guix => Some(("guix"@, seq!["pull"@])),
            Backend::Unknown => None,
        },
    }
}

fn text_vec2(a: &str, b: &str) -> (r: Vec<String>)
    ensures
        r@.map_values(|s: String| s@) == seq![a@, b@],
{
    let mut v: Vec<String> = Vec::new();
    v.push(String::from_str(a));
    v.push(String::from_str(b));
    assert(v@.map_values(|s: String| s@) =~= seq![a@, b@]);
    v
}

fn text_vec1(a: &str) -> (r: Vec<String>)
    ensures
        r@.map_values(|s: String| s@) == seq![a@],
{
    let mut v: Vec<String> = Vec::new();
    v.push(String::from_str(a));
    assert(v@.map_values(|s: String| s@) =~= seq![a@]);
    v
}

fn text_vec3(a: &str, b: &str, c: &str) -> (r: Vec<String>)
    ensures
        r@.map_values(|s: String| s@) == seq![a@, b@, c@],
{
    let mut v: Vec<String> = Vec::new();
    v.push(String::from_str(a));
    v.push(String::from_str(b));
    v.push(String::from_str(c));
    assert(v@.map_values(|s: String| s@) =~= seq![a@, b@, c@]);
    v
}

fn text_vec4(a: &str, b: &str, c: &str, d: &str) -> (r: Vec<String>)
    ensures
        r@.map_values(|s: String| s@) == seq![a@, b@, c@, d@],
{
    let mut v: Vec<String> = Vec::new();
    v.push(String::from_str(a));
    v.push(String::from_str(b));
    v.push(String::from_str(c));
    v.push(String::from_str(d));
    assert(v@.map_values(|s: String| s@) =~= seq![a@, b@, c@, d@]);
    v
}

fn concat(a: &str, b: &str) -> (r: String)
    ensures
        r@ == a@ + b@,
{
    let mut s = String::new();
    push_text(&mut s, a);
    push_text(&mut s, b);
    s
}

fn cmd(program: &str, args: Vec<String>) -> (r: CommandSpec)
    ensures
        r.program@ == program@,
        r.args == args,
{
    CommandSpec { program: String::from_str(program), args }
}

fn powershell(script: &str) -> (r: CommandSpec)
    ensures
        command_view(r) == ps(script@),
{
    cmd("powershell", text_vec3("-NoProfile", "-Command", script))
}

/// The command that an operation runs on a backend.
pub fn backend_command(b: Backend, v: PkgVerb, arg: Option<&str>) -> (r: Option<CommandSpec>)
    ensures
        match r {
            Some(c) => verb_command(b, v, match arg {
                Some(x) => Some(x@),
                None => None,
            }) == Some(command_view(c)),
            None => verb_command(b, v, match arg {
                Some(x) => Some(x@),
                None => None,
            }) is None,
        },
{
    proof {
        reveal_strlit("");
        assert(""@ =~= Seq::<char>::empty());
    }
    let a: &str = match arg {
        Some(x) => x,
        None => "",
    };
    match v {
        PkgVerb::Search => match b {
            Backend::Sfsu => Some(cmd("sfsu", text_vec3("search", a, "--json"))),
            Backend::Scoop => Some(powershell(concat("scoop search ", a).as_str())),
            Backend::Nix => Some(cmd("nix", text_vec4("search", "nixpkgs", a, "--json"))),
            Backend::Guix => Some(cmd("guix", text_vec2("search", a))),
            Backend::Unknown => None,
        },
        PkgVerb::List => match b {
            Backend::Sfsu => Some(cmd("sfsu", text_vec2("list", "--json"))),
            Backend::Scoop => Some(powershell("scoop list")),
            Backend::Nix => Some(cmd("nix-env", text_vec1("-q"))),
            Backend::Guix => Some(cmd("guix", text_vec2("package", "-I"))),
            Backend::Unknown => None,
        },
        PkgVerb::Install => match b {
            Backend::Sfsu | Backend::Scoop => Some(powershell(concat("scoop install ", a).as_str())),
            Backend::Nix => Some(cmd("nix-env", text_vec2("-iA", concat("nixpkgs.", a).as_str()))),
            Backend::Guix => Some(cmd("guix", text_vec2("install", a))),
            Backend::Unknown => None,
        },
        PkgVerb::Uninstall => match b {
            Backend::Sfsu | Backend::Scoop => Some(powershell(concat("scoop uninstall ", a).as_str())),
            Backend::Nix => Some(cmd("nix-env", text_vec2("-e", a))),
            Backend::Guix => Some(cmd("guix", text_vec2("remove", a))),
            Backend::Unknown => None,
        },
        PkgVerb::Info => match b {
            Backend::Sfsu => Some(cmd("sfsu", text_vec3("info", a, "--json"))),
            Backend::Scoop => Some(powershell(concat("scoop info ", a).as_str())),
            Backend::Nix => Some(cmd("nix-env", text_vec3("-qa", "--description", a))),
            Backend::Guix => Some(cmd("guix", text_vec2("show", a))),
            Backend::Unknown => None,
        },
        PkgVerb::Update => match b {
            Backend::Sfsu | Backend::Scoop => match arg {
                Some(p) => Some(powershell(concat("scoop update ", p).as_str())),
                None => Some(powershell("sfsu update")),
            },
            Backend::Nix => Some(cmd("nix-channel", text_vec1("--update"))),
            Backend::Guix => Some(cmd("guix", text_vec1("pull"))),
            Backend::Unknown => None,
        },
    }
}

/// The error for an operation that no backend on the host can run.
pub open spec fn no_backend_text(v: PkgVerb) -> Seq<char> {
    match v {
        PkgVerb::List => "No supported package backend detected (sfsu, scoop, nix, or guix)"@,
        PkgVerb::Install => "No supported package backend found to perform install"@,
        PkgVerb::Uninstall => "No supported package backend found to perform uninstall"@,
        _ => "No supported package backend found"@,
    }
}

/// The error for an operation that no backend on the host can run.
pub fn no_backend_message(v: PkgVerb) -> (r: String)
    ensures
        r@ == no_backend_text(v),
{
    match v {
        PkgVerb::List => String::from_str("No supported package backend detected (sfsu, scoop, nix, or guix)"),
        PkgVerb::Install => String::from_str("No supported package backend found to perform install"),
        PkgVerb::Uninstall => String::from_str("No supported package backend found to perform uninstall"),
        _ => String::from_str("No supported package backend found"),
    }
}

/// The backend named in reports of installs and removals: Scoop stands for
/// SFSU too.
pub open spec fn report_backend(b: Backend) -> Seq<char> {
    match b {
        Backend::Sfsu | Backend::Scoop => "scoop"@,
        _ => backend_name(b),
    }
}

/// What a finished install or removal is reported as.
#[derive(Debug)]
pub struct ChangeReport {
    pub status: String,
    pub package: String,
    pub backend: String,
    pub output: String,
}

/// The error text when an install or removal command fails.
pub open spec fn change_failure_text(b: Backend, install: bool, stdout: Seq<char>, stderr: Seq<char>) -> Seq<char> {
    if install {
        match b {
            Backend::Nix => "nix-env failed: "@ + stderr + " "@ + stdout,
            Backend::Guix => "guix install failed: "@ + stderr + " "@ + stdout,
            _ => "scoop install failed: "@ + stderr + " "@ + stdout,
        }
    } else {
        match b {
            Backend::Nix => "nix-env remove failed: "@ + stdout,
            Backend::Guix => "guix remove failed: "@ + stdout,
            _ => "scoop uninstall failed: "@ + stdout,
        }
    }
}

/// The outcome of an install (`install`) or removal command on a known
/// backend: on success the status, package, backend and trimmed output;
/// otherwise the failure text.
pub fn change_outcome(b: Backend, install: bool, pkg: &str, success: bool, stdout: &str, stderr: &str) -> (r: Result<ChangeReport, String>)
    requires
        b != Backend::Unknown,
    ensures
        success ==> (r matches Ok(rep) && rep.status@ == (if install {
            "success"@
        } else {
            "uninstalled"@
        }) && rep.package@ == pkg@ && rep.backend@ == report_backend(b) && rep.output@ == trim(stdout@)),
        !success ==> (r matches Err(e) && e@ == change_failure_text(b, install, stdout@, stderr@)),
{
    if success {
        let label = match b {
            Backend::Sfsu | Backend::Scoop => "scoop",
            Backend::Nix => "nix",
            _ => "guix",
        };
        let out = trim_chars(chars_of(stdout).as_slice());
        Ok(ChangeReport {
            status: String::from_str(if install { "success" } else { "uninstalled" }),
            package: String::from_str(pkg),
            backend: String::from_str(label),
            output: string_from_chars(out.as_slice()),
        })
    } else {
        let mut e = String::new();
        if install {
            match b {
                Backend::Nix => push_text(&mut e, "nix-env failed: "),
                Backend::Guix => push_text(&mut e, "guix install failed: "),
                _ => push_text(&mut e, "scoop install failed: "),
            }
            push_text(&mut e, stderr);
            push_text(&mut e, " ");
            push_text(&mut e, stdout);
        } else {
            match b {
                Backend::Nix => push_text(&mut e, "nix-env remove failed: "),
                Backend::Guix => push_text(&mut e, "guix remove failed: "),
                _ => push_text(&mut e, "scoop uninstall failed: "),
            }
            push_text(&mut e, stdout);
        }
        Err(e)
    }
}

/// The error text when an install or removal command cannot be started.
pub open spec fn spawn_failure_text(b: Backend, install: bool, err: Seq<char>) -> Seq<char> {
    match b {
        Backend::Nix => "Failed to execute nix-env: "@ + err,
        Backend::Guix => (if install {
            "Failed to execute guix install: "@
        } else {
            "Failed to execute guix remove: "@
        }) + err,
        _ => (if install {
            "Failed to execute scoop install: "@
        } else {
            "Failed to execute scoop uninstall: "@
        }) + err,
    }
}

/// Describe an install or removal command that could not be started.
pub fn spawn_failure(b: Backend, install: bool, err: &str) -> (r: String)
    ensures
        r@ == spawn_failure_text(b, install, err@),
{
    let mut e = String::new();
    match b {
        Backend::Nix => push_text(&mut e, "Failed to execute nix-env: "),
        Backend::Guix => push_text(
            &mut e,
            if install {
                "Failed to execute guix install: "
            } else {
                "Failed to execute guix remove: "
            },
        ),
        _ => push_text(
            &mut e,
            if install {
                "Failed to execute scoop install: "
            } else {
                "Failed to execute scoop uninstall: "
            },
        ),
    }
    push_text(&mut e, err);
    e
}

/// The first of the named arguments that is given.
pub open spec fn first_arg(a: ArgsView, keys: Seq<Seq<char>>) -> Option<Seq<char>>
    decreases keys.len(),
{
    if keys.len() == 0 {
        None
    } else {
        match arg_value(a, keys[0]) {
            Some(v) => Some(v),
            None => first_arg(a, keys.drop_first()),
        }
    }
}

/// The argument of an operation, from the first of its keys that is
/// given; refused as `Argument '<name>' cannot be empty` when it is
/// missing or blank.
pub open spec fn required_arg(a: ArgsView, keys: Seq<Seq<char>>, name: Seq<char>) -> Result<Seq<char>, Seq<char>> {
    let v = match first_arg(a, keys) {
        Some(x) => x,
        None => Seq::empty(),
    };
    if trim(v).len() == 0 {
        Err("Argument '"@ + name + "' cannot be empty"@)
    } else {
        Ok(v)
    }
}

pub open spec fn result_view(r: Result<String, String>) -> Result<Seq<char>, Seq<char>> {
    match r {
        Ok(s) => Ok(s@),
        Err(e) => Err(e@),
    }
}

fn first_of(args: &OrganArgs, a: &str, b: &str) -> (r: Option<String>)
    ensures
        opt_view(r) == first_arg(args@, seq![a@, b@]),
{
    let x = extract_arg(args, a);
    proof {
        reveal_with_fuel(first_arg, 3);
        assert(seq![a@, b@].drop_first() =~= seq![b@]);
        assert(seq![b@].drop_first() =~= Seq::<Seq<char>>::empty());
    }
    if x.is_some() {
        x
    } else {
        extract_arg(args, b)
    }
}

fn nonblank_or_error(v: Option<String>, name: &str) -> (r: Result<String, String>)
    ensures
        result_view(r) == ({
            let s = match opt_view(v) {
                Some(x) => x,
                None => Seq::empty(),
            };
            if trim(s).len() == 0 {
                Err("Argument '"@ + name@ + "' cannot be empty"@)
            } else {
                Ok(s)
            }
        }),
{
    proof {
        reveal_strlit("");
    }
    let s = match v {
        Some(x) => x,
        None => String::new(),
    };
    let t = trim_chars(chars_of(s.as_str()).as_slice());
    if t.len() == 0 {
        let mut e = String::new();
        push_text(&mut e, "Argument '");
        push_text(&mut e, name);
        push_text(&mut e, "' cannot be empty");
        Err(e)
    } else {
        Ok(s)
    }
}

/// The search query: `query`, else `input`; refused when blank.
pub fn search_query(args: &OrganArgs) -> (r: Result<String, String>)
    ensures
        result_view(r) == required_arg(args@, seq!["query"@, "input"@], "query"@),
{
    nonblank_or_error(first_of(args, "query", "input"), "query")
}

/// The package an install, removal or info request names: `package`, else
/// `input`; refused when blank.
pub fn package_arg(args: &OrganArgs) -> (r: Result<String, String>)
    ensures
        result_view(r) == required_arg(args@, seq!["package"@, "input"@], "package"@),
{
    nonblank_or_error(first_of(args, "package", "input"), "package")
}

/// The organ a resolve request names: `organ`, else `package`, else
/// `input`; refused when blank.
pub fn organ_arg(args: &OrganArgs) -> (r: Result<String, String>)
    ensures
        result_view(r) == required_arg(args@, seq!["organ"@, "package"@, "input"@], "organ"@),
{
    let x = extract_arg(args, "organ");
    proof {
        let ks = seq!["organ"@, "package"@, "input"@];
        assert(ks.drop_first() =~= seq!["package"@, "input"@]);
    }
    let v = if x.is_some() {
        x
    } else {
        first_of(args, "package", "input")
    };
    nonblank_or_error(v, "organ")
}

/// Whether an organ manifest matches a search: its name or description
/// contains the query, compared in lowercase.
pub open spec fn organ_matches(name: Seq<char>, description: Seq<char>, query: Seq<char>) -> bool {
    contains_sub(lowercase(name), lowercase(query)) || contains_sub(lowercase(description), lowercase(query))
}

/// Whether an organ manifest matches a search query.
pub fn organ_matches_query(name: &str, description: &str, query: &str) -> (r: bool)
    ensures
        r == organ_matches(name@, description@, query@),
{
    let q = to_lower(query);
    let n = to_lower(name);
    if contains_text(n.as_str(), q.as_str()) {
        return true;
    }
    let d = to_lower(description);
    contains_text(d.as_str(), q.as_str())
}

/// An organ's manifest as the packager reads it: name, version (`0.1.0`
/// by default), description, type (`cli` by default), compatibility block,
/// and how many tools and senses it declares.
#[derive(Debug)]
pub struct LocalOrganManifest {
    pub name: String,
    pub version: String,
    pub description: String,
    pub organ_type: String,
    pub compatibility: Option<OrganCompatibility>,
    pub tools: usize,
    pub senses: usize,
}

/// An organ that a search found, and where its manifest lies.
#[derive(Debug)]
pub struct OrganHit {
    pub organ: String,
    pub version: String,
    pub organ_type: String,
    pub description: String,
    pub path: String,
}

/// The search hit for a manifest at `path`: one exactly when its name or
/// description contains the query (compared in lowercase).
pub fn search_hit(m: &LocalOrganManifest, query: &str, path: &str) -> (r: Option<OrganHit>)
    ensures
        r is Some <==> organ_matches(m.name@, m.description@, query@),
        r matches Some(h) ==> h.organ@ == m.name@ && h.version@ == m.version@ && h.organ_type@ == m.organ_type@
            && h.description@ == m.description@ && h.path@ == path@,
{
    if organ_matches_query(m.name.as_str(), m.description.as_str(), query) {
        Some(OrganHit {
            organ: String::from_str(m.name.as_str()),
            version: String::from_str(m.version.as_str()),
            organ_type: String::from_str(m.organ_type.as_str()),
            description: String::from_str(m.description.as_str()),
            path: String::from_str(path),
        })
    } else {
        None
    }
}

/// What installing a local organ reports: its name and version and how
/// many tools and senses it brings.
#[derive(Debug)]
pub struct LocalInstall {
    pub organ: String,
    pub version: String,
    pub tools_discovered: usize,
    pub senses_discovered: usize,
}

/// The Presence version that organs are installed into.
pub open spec fn triad_version() -> Seq<char> {
    "0.3.0"@
}

/// Check a local organ's manifest before it is installed on `os`: its
/// compatibility block, where it has one, must admit Presence 0.3.0 and the
/// system, and its error is the answer otherwise; else the report of the
/// organ.
pub fn local_install(m: &LocalOrganManifest, os: &str) -> (r: Result<LocalInstall, String>)
    ensures
        match m.compatibility {
            Some(c) => match compat_verdict(c, triad_version(), os@) {
                Err(e) => r matches Err(x) && x@ == e,
                Ok(()) => r is Ok,
            },
            None => r is Ok,
        },
        r matches Ok(i) ==> i.organ@ == m.name@ && i.version@ == m.version@ && i.tools_discovered == m.tools
            && i.senses_discovered == m.senses,
{
    if let Some(c) = &m.compatibility {
        match c.validate("0.3.0", os) {
            Err(e) => {
                return Err(e);
            },
            Ok(()) => {},
        }
    }
    Ok(LocalInstall {
        organ: String::from_str(m.name.as_str()),
        version: String::from_str(m.version.as_str()),
        tools_discovered: m.tools,
        senses_discovered: m.senses,
    })
}

/// Whether a listed package is kept by a list filter: it has a name that
/// contains the filter, compared in lowercase.
pub fn package_kept(name: Option<&str>, filter: &str) -> (r: bool)
    ensures
        r == (match name {
            Some(n) => contains_sub(lowercase(n@), lowercase(filter@)),
            None => false,
        }),
{
    match name {
        Some(n) => {
            let l = to_lower(n);
            let f = to_lower(filter);
            contains_text(l.as_str(), f.as_str())
        },
        None => false,
    }
}

/// A system dependency that an organ declares: the binary it needs, the
/// package that provides it for each backend, and the tools and features
/// it unlocks.
#[derive(Debug)]
pub struct SystemDep {
    pub binary: Option<String>,
    pub scoop: Option<String>,
    pub nix: Option<String>,
    pub guix: Option<String>,
    pub disables_tools: Vec<String>,
    pub disables_features: Vec<String>,
}

/// One entry of a manifest's `dependencies.system` list as the YAML
/// parser gives it: the string members `binary`, `scoop`, `nix` and
/// `guix`, and the lists `disables_tools` and `disables_features`, each item
/// kept where it is a string.
#[derive(Debug)]
pub struct RawDep {
    pub binary: Option<String>,
    pub scoop: Option<String>,
    pub nix: Option<String>,
    pub guix: Option<String>,
    pub disables_tools: Option<Vec<Option<String>>>,
    pub disables_features: Option<Vec<Option<String>>>,
}

pub open spec fn opt_texts(l: Option<Vec<Option<String>>>) -> Option<Seq<Option<Seq<char>>>> {
    match l {
        Some(v) => Some(v@.map_values(|x: Option<String>| opt_view(x))),
        None => None,
    }
}

pub open spec fn raw_dep_view(d: RawDep) -> (
    Option<Seq<char>>,
    Option<Seq<char>>,
    Option<Seq<char>>,
    Option<Seq<char>>,
    Option<Seq<Option<Seq<char>>>>,
    Option<Seq<Option<Seq<char>>>>,
) {
    (
        opt_view(d.binary),
        opt_view(d.scoop),
        opt_view(d.nix),
        opt_view(d.guix),
        opt_texts(d.disables_tools),
        opt_texts(d.disables_features),
    )
}

/// What `serde_yaml::from_str` makes of a manifest's text: the entries of
/// its `dependencies.system` list as `RawDep` gives them, none where that
/// list is missing or no list, or the parser's message.
pub uninterp spec fn yaml_system_deps(text: Seq<char>) -> Result<
    Option<
        Seq<
            (
                Option<Seq<char>>,
                Option<Seq<char>>,
                Option<Seq<char>>,
                Option<Seq<char>>,
                Option<Seq<Option<Seq<char>>>>,
                Option<Seq<Option<Seq<char>>>>,
            ),
        >,
    >,
    Seq<char>,
>;

pub open spec fn raw_deps_view(r: Result<Option<Vec<RawDep>>, String>) -> Result<
    Option<
        Seq<
            (
                Option<Seq<char>>,
                Option<Seq<char>>,
                Option<Seq<char>>,
                Option<Seq<char>>,
                Option<Seq<Option<Seq<char>>>>,
                Option<Seq<Option<Seq<char>>>>,
            ),
        >,
    >,
    Seq<char>,
> {
    match r {
        Ok(Some(v)) => Ok(Some(v@.map_values(|d: RawDep| raw_dep_view(d)))),
        Ok(None) => Ok(None),
        Err(e) => Err(e@),
    }
}

/// Parse a manifest with `serde_yaml::from_str` into a JSON value and pick
/// the members of its `dependencies.system` entries; its result is named
/// `yaml_system_deps`.
#[verifier::external_body]
fn read_system_deps(text: &str) -> (r: Result<Option<Vec<RawDep>>, String>)
    ensures
        raw_deps_view(r) == yaml_system_deps(text@),
{
    let v: Value = serde_yaml::from_str(text).map_err(|e| e.to_string())?;
    let s = |x: &Value| x.as_str().map(String::from);
    let l = |x: &Value| x.as_array().map(|a| a.iter().map(s).collect());
    Ok(v["dependencies"]["system"].as_array().map(|a| a.iter().map(|d| RawDep {
        binary: s(&d["binary"]), scoop: s(&d["scoop"]), nix: s(&d["nix"]), guix: s(&d["guix"]),
        disables_tools: l(&d["disables_tools"]), disables_features: l(&d["disables_features"]),
    }).collect()))
}

/// The strings of a list that may be missing, in order.
pub open spec fn kept_strings(l: Option<Seq<Option<Seq<char>>>>) -> Seq<Seq<char>> {
    match l {
        Some(xs) => somes(xs),
        None => Seq::empty(),
    }
}

pub open spec fn somes(xs: Seq<Option<Seq<char>>>) -> Seq<Seq<char>>
    decreases xs.len(),
{
    if xs.len() == 0 {
        Seq::empty()
    } else {
        somes(xs.drop_last()) + match xs.last() {
            Some(x) => seq![x],
            None => Seq::empty(),
        }
    }
}

/// A system dependency as values.
pub open spec fn dep_view(d: SystemDep) -> (
    Option<Seq<char>>,
    Option<Seq<char>>,
    Option<Seq<char>>,
    Option<Seq<char>>,
    Seq<Seq<char>>,
    Seq<Seq<char>>,
) {
    (opt_view(d.binary), opt_view(d.scoop), opt_view(d.nix), opt_view(d.guix), texts(d.disables_tools@), texts(
        d.disables_features@,
    ))
}

/// The dependency a parsed entry declares: its strings, and the string
/// items of its lists.
pub open spec fn dep_of(
    r: (
        Option<Seq<char>>,
        Option<Seq<char>>,
        Option<Seq<char>>,
        Option<Seq<char>>,
        Option<Seq<Option<Seq<char>>>>,
        Option<Seq<Option<Seq<char>>>>,
    ),
) -> (Option<Seq<char>>, Option<Seq<char>>, Option<Seq<char>>, Option<Seq<char>>, Seq<Seq<char>>, Seq<Seq<char>>) {
    (r.0, r.1, r.2, r.3, kept_strings(r.4), kept_strings(r.5))
}

fn copy_opt(o: &Option<String>) -> (r: Option<String>)
    ensures
        opt_view(r) == opt_view(*o),
{
    match o {
        Some(x) => Some(String::from_str(x.as_str())),
        None => None,
    }
}

fn strings_of(l: &Option<Vec<Option<String>>>) -> (r: Vec<String>)
    ensures
        texts(r@) == kept_strings(opt_texts(*l)),
{
    let mut out: Vec<String> = Vec::new();
    match l {
        None => {},
        Some(v) => {
            let ghost xs = v@.map_values(|x: Option<String>| opt_view(x));
            let mut i: usize = 0;
            while i < v.len()
                invariant
                    i <= v@.len(),
                    xs == v@.map_values(|x: Option<String>| opt_view(x)),
                    texts(out@) == somes(xs.take(i as int)),
                decreases v@.len() - i,
            {
                assert(xs.take(i + 1).drop_last() =~= xs.take(i as int));
                let ghost before = texts(out@);
                match &v[i] {
                    Some(x) => {
                        out.push(String::from_str(x.as_str()));
                        assert(texts(out@) =~= before + seq![x@]);
                    },
                    None => {
                        assert(texts(out@) =~= before + Seq::<Seq<char>>::empty());
                    },
                }
                i = i + 1;
            }
            assert(xs.take(v@.len() as int) =~= xs);
        },
    }
    out
}

/// The system dependencies a manifest declares: each entry of its
/// `dependencies.system` list (none where the list is missing); a text that
/// is no YAML is refused as `Failed to parse <path>: <message>`.
pub fn manifest_deps(path: &str, text: &str) -> (r: Result<Vec<SystemDep>, String>)
    ensures
        match yaml_system_deps(text@) {
            Err(m) => r matches Err(e) && e@ == "Failed to parse "@ + path@ + ": "@ + m,
            Ok(None) => r matches Ok(v) && v@.len() == 0,
            Ok(Some(raws)) => r matches Ok(v) && v@.len() == raws.len() && forall|i: int|
                0 <= i < raws.len() ==> dep_view(#[trigger] v@[i]) == dep_of(raws[i]),
        },
{
    match read_system_deps(text) {
        Err(m) => {
            let mut e = String::new();
            push_text(&mut e, "Failed to parse ");
            push_text(&mut e, path);
            push_text(&mut e, ": ");
            push_text(&mut e, m.as_str());
            Err(e)
        },
        Ok(None) => Ok(Vec::new()),
        Ok(Some(raws)) => {
            let ghost rv = raws@.map_values(|d: RawDep| raw_dep_view(d));
            let mut out: Vec<SystemDep> = Vec::new();
            let mut i: usize = 0;
            while i < raws.len()
                invariant
                    i <= raws@.len(),
                    out@.len() == i,
                    rv == raws@.map_values(|d: RawDep| raw_dep_view(d)),
                    forall|k: int| 0 <= k < i ==> dep_view(#[trigger] out@[k]) == dep_of(rv[k]),
                decreases raws@.len() - i,
            {
                let d = &raws[i];
                let dep = SystemDep {
                    binary: copy_opt(&d.binary),
                    scoop: copy_opt(&d.scoop),
                    nix: copy_opt(&d.nix),
                    guix: copy_opt(&d.guix),
                    disables_tools: strings_of(&d.disables_tools),
                    disables_features: strings_of(&d.disables_features),
                };
                assert(dep_view(dep) == dep_of(rv[i as int]));
                out.push(dep);
                i = i + 1;
            }
            Ok(out)
        },
    }
}

/// What to do about one dependency.
#[derive(Debug)]
pub enum DepStep {
    /// It names no binary.
    Ignore,
    /// Its binary is already there.
    Skip { binary: String },
    /// Install `package` to provide `binary`.
    Install { binary: String, package: String },
}

/// The package that provides a dependency on a backend: the backend's own
/// entry, else the binary's name.
pub open spec fn dep_package(d: SystemDep, b: Backend) -> Seq<char> {
    let own = match b {
        Backend::Sfsu | Backend::Scoop => d.scoop,
        Backend::Nix => d.nix,
        Backend::Guix => d.guix,
        Backend::Unknown => None,
    };
    match own {
        Some(p) => p@,
        None => match d.binary {
            Some(x) => x@,
            None => Seq::empty(),
        },
    }
}

pub open spec fn dep_binary(d: SystemDep) -> Seq<char> {
    match d.binary {
        Some(x) => x@,
        None => Seq::empty(),
    }
}

/// The package installed for a missing binary is the one the dependency
/// declares for the backend's family (`scoop` for Sfsu and Scoop, `nix` for
/// Nix, `guix` for Guix); the binary's own name is used only where the
/// family has no entry, and always on an unknown backend.
pub proof fn lemma_declared_package_used(d: SystemDep, b: Backend)
    ensures
        (b is Sfsu || b is Scoop) && d.scoop is Some ==> dep_package(d, b) == (d.scoop->0)@,
        b is Nix && d.nix is Some ==> dep_package(d, b) == (d.nix->0)@,
        b is Guix && d.guix is Some ==> dep_package(d, b) == (d.guix->0)@,
        (b is Sfsu || b is Scoop) && d.scoop is None ==> dep_package(d, b) == dep_binary(d),
        b is Nix && d.nix is None ==> dep_package(d, b) == dep_binary(d),
        b is Guix && d.guix is None ==> dep_package(d, b) == dep_binary(d),
        b is Unknown ==> dep_package(d, b) == dep_binary(d),
{
}

/// Decide what to do about a dependency, given whether its binary is
/// available.
pub fn resolve_step(d: &SystemDep, b: Backend, available: bool) -> (r: DepStep)
    ensures
        dep_binary(*d).len() == 0 ==> r matches DepStep::Ignore,
        dep_binary(*d).len() > 0 && available ==> (r matches DepStep::Skip { binary } && binary@ == dep_binary(*d)),
        dep_binary(*d).len() > 0 && !available ==> (r matches DepStep::Install { binary, package } && binary@
            == dep_binary(*d) && package@ == dep_package(*d, b)),
        r matches DepStep::Install { binary: _, package } ==> ((b is Sfsu || b is Scoop) && d.scoop is Some ==> package@
            == (d.scoop->0)@) && (b is Nix && d.nix is Some ==> package@ == (d.nix->0)@) && (b is Guix && d.guix is Some
            ==> package@ == (d.guix->0)@),
{
    proof {
        lemma_declared_package_used(*d, b);
    }
    let binary = match &d.binary {
        Some(x) => String::from_str(x.as_str()),
        None => String::new(),
    };
    if chars_of(binary.as_str()).len() == 0 {
        return DepStep::Ignore;
    }
    if available {
        return DepStep::Skip { binary };
    }
    let own = match b {
        Backend::Sfsu | Backend::Scoop => &d.scoop,
        Backend::Nix => &d.nix,
        Backend::Guix => &d.guix,
        Backend::Unknown => &None,
    };
    let package = match own {
        Some(p) => String::from_str(p.as_str()),
        None => String::from_str(binary.as_str()),
    };
    DepStep::Install { binary, package }
}

/// The progress of a resolve: the installed binaries and their packages,
/// the binaries found already there, and the tools and features unlocked.
#[derive(Debug)]
pub struct ResolveReport {
    pub installed: Vec<(String, String)>,
    pub skipped: Vec<String>,
    pub unlocked_tools: Vec<String>,
    pub unlocked_features: Vec<String>,
}

pub open spec fn texts(v: Seq<String>) -> Seq<Seq<char>> {
    v.map_values(|s: String| s@)
}

pub open spec fn pairs(v: Seq<(String, String)>) -> Seq<(Seq<char>, Seq<char>)> {
    v.map_values(|p: (String, String)| (p.0@, p.1@))
}

fn append_texts(out: &mut Vec<String>, more: &Vec<String>)
    ensures
        texts(final(out)@) == texts(old(out)@) + texts(more@),
{
    let mut i: usize = 0;
    let ghost base = texts(out@);
    while i < more.len()
        invariant
            i <= more@.len(),
            texts(out@) == base + texts(more@).take(i as int),
        decreases more@.len() - i,
    {
        let ghost before = texts(out@);
        out.push(String::from_str(more[i].as_str()));
        assert(texts(out@) =~= before.push(more@[i as int]@));
        assert(base + texts(more@).take(i as int).push(more@[i as int]@) =~= base + texts(more@).take(i + 1));
        i = i + 1;
    }
    assert(texts(more@).take(more@.len() as int) =~= texts(more@));
}

impl ResolveReport {
    /// A resolve with nothing done yet.
    pub fn new() -> (r: Self)
        ensures
            r.installed@.len() == 0,
            r.skipped@.len() == 0,
            r.unlocked_tools@.len() == 0,
            r.unlocked_features@.len() == 0,
    {
        ResolveReport {
            installed: Vec::new(),
            skipped: Vec::new(),
            unlocked_tools: Vec::new(),
            unlocked_features: Vec::new(),
        }
    }

    /// Note a binary that was already there.
    pub fn record_skip(&mut self, binary: String)
        ensures
            texts(final(self).skipped@) == texts(old(self).skipped@).push(binary@),
            final(self).installed == old(self).installed,
            final(self).unlocked_tools == old(self).unlocked_tools,
            final(self).unlocked_features == old(self).unlocked_features,
    {
        let ghost b = binary@;
        self.skipped.push(binary);
        assert(texts(self.skipped@) =~= texts(old(self).skipped@).push(b));
    }

    /// Note an installed dependency and what it unlocks.
    pub fn record_install(&mut self, binary: String, package: String, dep: &SystemDep)
        ensures
            pairs(final(self).installed@) == pairs(old(self).installed@).push((binary@, package@)),
            texts(final(self).unlocked_tools@) == texts(old(self).unlocked_tools@) + texts(dep.disables_tools@),
            texts(final(self).unlocked_features@) == texts(old(self).unlocked_features@) + texts(
                dep.disables_features@,
            ),
            final(self).skipped == old(self).skipped,
    {
        let ghost pv = (binary@, package@);
        self.installed.push((binary, package));
        assert(pairs(self.installed@) =~= pairs(old(self).installed@).push(pv));
        append_texts(&mut self.unlocked_tools, &dep.disables_tools);
        append_texts(&mut self.unlocked_features, &dep.disables_features);
    }

    /// The status of the resolve: nothing installed means already
    /// satisfied.
    pub fn status(&self) -> (r: &'static str)
        ensures
            r@ == (if self.installed@.len() == 0 {
                "already_satisfied"@
            } else {
                "resolved"@
            }),
    {
        if self.installed.len() == 0 {
            "already_satisfied"
        } else {
            "resolved"
        }
    }
}

/// The error when a dependency cannot be installed.
pub fn dependency_failure(pkg: &str, organ: &str, err: &str) -> (r: String)
    ensures
        r@ == "Failed to install dependency '"@ + pkg@ + "' for organ '"@ + organ@ + "': "@ + err@,
{
    let mut e = String::new();
    push_text(&mut e, "Failed to install dependency '");
    push_text(&mut e, pkg);
    push_text(&mut e, "' for organ '");
    push_text(&mut e, organ);
    push_text(&mut e, "': ");
    push_text(&mut e, err);
    e
}

/// The error when no manifest is found for an organ.
pub fn manifest_missing(organ: &str) -> (r: String)
    ensures
        r@ == "Could not locate organ.yaml for organ '"@ + organ@ + "'"@,
{
    let mut e = String::new();
    push_text(&mut e, "Could not locate organ.yaml for organ '");
    push_text(&mut e, organ);
    push_text(&mut e, "'");
    e
}

/// The exit code as `{:?}` prints an `Option<i32>`.
pub open spec fn code_text(code: Option<i32>) -> Seq<char> {
    match code {
        None => "None"@,
        Some(c) => "Some("@ + (if c < 0 {
            "-"@ + crate::text::dec((-c) as nat)
        } else {
            crate::text::dec(c as nat)
        }) + ")"@,
    }
}

/// The error when the SFSU listing fails.
pub fn list_failure(code: Option<i32>) -> (r: String)
    ensures
        r@ == "sfsu list failed with code "@ + code_text(code),
{
    let mut e = String::new();
    push_text(&mut e, "sfsu list failed with code ");
    match code {
        None => push_text(&mut e, "None"),
        Some(c) => {
            push_text(&mut e, "Some(");
            if c < 0 {
                push_text(&mut e, "-");
                let m: u64 = (-(c as i64)) as u64;
                crate::text::push_dec(&mut e, m);
            } else {
                crate::text::push_dec(&mut e, c as u64);
            }
            push_text(&mut e, ")");
        },
    }
    e
}

} // verus!
