//! Running pigeons as a system service: where its binary may live, which service
//! manager is in charge, where its endpoint ID and its logs are.
use vstd::prelude::*;

use crate::identity;
use crate::identity::EndpointId;
use crate::text;
use crate::text_laws;

pub mod firewall;
pub mod linux;

use crate::service::linux::LinuxService;

verus! {

// ---------------------------------------------------------------------------
// Errors
// ---------------------------------------------------------------------------

/// Why something about the service failed.
#[derive(Debug)]
pub enum ServiceError {
    /// The path of the running binary is not UTF-8; how it is shown.
    PathNotUtf8(String),
    /// The running binary is not in a place for permanent programs.
    NotPermanent(String),
    /// The path to install from is not UTF-8.
    InstallPathNotUtf8,
    /// The system has no supported service manager.
    Unsupported,
    /// The install script failed, with this exit status.
    Install(String),
    /// The uninstall script failed, with this exit status.
    Uninstall(String),
    /// The restart failed, with this exit status.
    Restart(String),
    /// There is no log file.
    NoLogFile,
    /// The log file could not be read.
    LogFile,
    /// The journal could not be read.
    Journal,
    /// This system has no service log.
    LogUnsupported(String),
}

impl ServiceError {
    /// The error in words.
    pub open spec fn words(self) -> Seq<char> {
        match self {
            ServiceError::PathNotUtf8(shown) => "binary path is not valid UTF-8: "@ + shown@,
            ServiceError::NotPermanent(path) => "pigeons binary is at "@ + path@
                + ", which doesn't look like a permanent install location.\nInstall pigeons to one of the standard paths (/usr/local/bin, /usr/bin, /opt/homebrew/bin, /opt/, /usr/local/sbin, /usr/sbin, /var/usrlocal/bin/) before running service install."@,
            ServiceError::InstallPathNotUtf8 => "binary path is not valid UTF-8"@,
            ServiceError::Unsupported => "service mode is only supported on linux, macos, and windows"@,
            ServiceError::Install(status) => "install script failed with exit code: "@ + status@,
            ServiceError::Uninstall(status) => "uninstall script failed with exit code: "@
                + status@,
            ServiceError::Restart(status) => "systemctl restart failed with exit code: "@ + status@,
            ServiceError::NoLogFile => "no log file found at /var/log/pigeons.log — is the service installed?"@,
            ServiceError::LogFile => "failed to read log file (try running with sudo)"@,
            ServiceError::Journal => "failed to read service journal"@,
            ServiceError::LogUnsupported(os) => "service log is not supported on "@ + os@,
        }
    }

    /// The error in words.
    pub fn message(&self) -> (r: String)
        ensures
            r@ == self.words(),
    {
        match self {
            ServiceError::PathNotUtf8(shown) => "binary path is not valid UTF-8: ".to_owned().concat(
                shown.as_str(),
            ),
            ServiceError::NotPermanent(path) => "pigeons binary is at ".to_owned().concat(
                path.as_str(),
            ).concat(
                ", which doesn't look like a permanent install location.\nInstall pigeons to one of the standard paths (/usr/local/bin, /usr/bin, /opt/homebrew/bin, /opt/, /usr/local/sbin, /usr/sbin, /var/usrlocal/bin/) before running service install.",
            ),
            ServiceError::InstallPathNotUtf8 => "binary path is not valid UTF-8".to_owned(),
            ServiceError::Unsupported => "service mode is only supported on linux, macos, and windows".to_owned(),
            ServiceError::Install(status) => "install script failed with exit code: ".to_owned().concat(
            status.as_str()),
            ServiceError::Uninstall(status) => "uninstall script failed with exit code: ".to_owned().concat(
            status.as_str()),
            ServiceError::Restart(status) => "systemctl restart failed with exit code: ".to_owned().concat(
            status.as_str()),
            ServiceError::NoLogFile => "no log file found at /var/log/pigeons.log — is the service installed?".to_owned(),
            ServiceError::LogFile => "failed to read log file (try running with sudo)".to_owned(),
            ServiceError::Journal => "failed to read service journal".to_owned(),
            ServiceError::LogUnsupported(os) => "service log is not supported on ".to_owned().concat(
                os.as_str(),
            ),
        }
    }
}

// ---------------------------------------------------------------------------
// The binary
// ---------------------------------------------------------------------------

/// Whether a path is in one of the directories of permanently installed programs.
///
/// `/var/usrlocal/bin` is where `/usr/local/bin` leads to in immutable Fedora
/// distributions.
pub open spec fn is_sensible(path: Seq<char>) -> bool {
    ||| text::starts_with(path, "/usr/local/bin/"@)
    ||| text::starts_with(path, "/usr/bin/"@)
    ||| text::starts_with(path, "/opt/"@)
    ||| text::starts_with(path, "/usr/local/sbin/"@)
    ||| text::starts_with(path, "/usr/sbin/"@)
    ||| text::starts_with(path, "/var/usrlocal/bin/"@)
}

fn begins(path: &Vec<char>, prefix: &str) -> (r: bool)
    ensures
        r == text::starts_with(path@, prefix@),
{
    text::has_prefix(path, &text::chars_of(prefix))
}

/// What is made of the path of the running binary.
pub enum PathVerdict {
    /// A service may run it from there.
    Accepted,
    /// It is not UTF-8.
    NotUtf8,
    /// It is in no place for permanent programs.
    NotPermanent,
}

/// What is made of the path of the running binary.
pub open spec fn path_verdict(unix: bool, path: Option<Seq<char>>) -> PathVerdict {
    match (unix, path) {
        (true, None) => PathVerdict::NotUtf8,
        (true, Some(p)) => if is_sensible(p) {
            PathVerdict::Accepted
        } else {
            PathVerdict::NotPermanent
        },
        (false, _) => PathVerdict::Accepted,
    }
}

/// Makes sure that the running binary lives in a place that suits a system
/// daemon.
///
/// `path` is its absolute path, or nothing where that is not UTF-8, and `shown`
/// is how the path is shown. On Unix the binary has to be in a standard system
/// path. Elsewhere any path is accepted, since the installer copies
/// the binary.
pub fn resolve_binary_path(unix: bool, path: Option<String>, shown: &str) -> (r: Result<
    Option<String>,
    ServiceError,
>)
    ensures
        if !unix {
            r == Ok::<Option<String>, ServiceError>(path)
        } else {
            match path {
                None => r matches Err(ServiceError::PathNotUtf8(s)) && s@ == shown@,
                Some(p) => if is_sensible(p@) {
                    r == Ok::<Option<String>, ServiceError>(path)
                } else {
                    r matches Err(ServiceError::NotPermanent(s)) && s@ == p@
                },
            }
        },
        match path_verdict(unix, text::opt_text(path)) {
            PathVerdict::Accepted => r == Ok::<Option<String>, ServiceError>(path),
            PathVerdict::NotUtf8 => r matches Err(ServiceError::PathNotUtf8(s)) && s@ == shown@,
            PathVerdict::NotPermanent => r matches Err(ServiceError::NotPermanent(s)) && Some(s@)
                == text::opt_text(path),
        },
{
    if !unix {
        return Ok(path);
    }
    match path {
        None => Err(ServiceError::PathNotUtf8(shown.to_owned())),
        Some(p) => {
            let chars = text::chars_of(p.as_str());
            let sensible = begins(&chars, "/usr/local/bin/") || begins(&chars, "/usr/bin/")
                || begins(&chars, "/opt/") || begins(&chars, "/usr/local/sbin/") || begins(
                &chars,
                "/usr/sbin/",
            ) || begins(&chars, "/var/usrlocal/bin/");
            if sensible {
                Ok(Some(p))
            } else {
                Err(ServiceError::NotPermanent(p))
            }
        },
    }
}

// ---------------------------------------------------------------------------
// The service managers
// ---------------------------------------------------------------------------

/// How the service is to run.
#[derive(Debug)]
pub struct ServiceParams {
    /// The port of the local ssh server.
    pub ssh_port: u16,
    /// The relay servers to use, by their URLs.
    pub relay_url: Vec<String>,
    /// The path of the binary, or nothing where it is not UTF-8.
    pub binary_path: Option<String>,
}

/// A program to run, and its arguments.
#[derive(Debug)]
pub struct Program {
    pub name: String,
    pub args: Vec<String>,
}

impl View for Program {
    type V = (Seq<char>, Seq<Seq<char>>);

    open spec fn view(&self) -> (Seq<char>, Seq<Seq<char>>) {
        (self.name@, text::texts(self.args@))
    }
}

/// A script to write to a new file and to run: what the name of the file begins
/// with, and what it holds.
#[derive(Debug)]
pub struct Script {
    pub prefix: String,
    pub content: String,
}

impl View for Script {
    type V = (Seq<char>, Seq<char>);

    open spec fn view(&self) -> (Seq<char>, Seq<char>) {
        (self.prefix@, self.content@)
    }
}

/// What is done to a service on a system.
#[derive(Debug)]
pub enum ServiceAction {
    /// Write a script to a file and run it.
    Script(Script),
    /// Run a program.
    Run(Program),
    /// Leave it to what manages services on macOS.
    Macos,
    /// Leave it to what manages services on Windows.
    Windows,
}

/// What a service manager does. The scripts that it works with are given to it.
pub trait Service {
    /// Installs the service, by a script with places to fill in.
    fn install(service_params: &ServiceParams, template: &str) -> Result<
        ServiceAction,
        ServiceError,
    >;

    /// Uninstalls the service, by a script.
    fn uninstall(script: &str) -> ServiceAction;

    /// Restarts the service.
    fn restart() -> ServiceAction;
}

/// Installs the service with the service manager of a system.
pub fn install(os: &str, service_params: &ServiceParams, template: &str) -> (r: Result<
    ServiceAction,
    ServiceError,
>)
    ensures
        if os@ == "linux"@ {
            match service_params.binary_path {
                Some(path) => r matches Ok(ServiceAction::Script(s)) && s@ == (
                    "pigeons_install-"@,
                    linux::install_script(
                        template@,
                        service_params.ssh_port,
                        text::texts(service_params.relay_url@),
                        path@,
                    ),
                ),
                None => r matches Err(ServiceError::InstallPathNotUtf8),
            }
        } else if os@ == "macos"@ {
            r matches Ok(ServiceAction::Macos)
        } else if os@ == "windows"@ {
            r matches Ok(ServiceAction::Windows)
        } else {
            r matches Err(ServiceError::Unsupported)
        },
        os@ == "linux"@ ==> match linux::installation(*service_params, template@) {
            Some(content) => r matches Ok(ServiceAction::Script(s)) && s@.1 == content,
            None => r is Err,
        },
{
    if text::str_eq(os, "linux") {
        LinuxService::install(service_params, template)
    } else if text::str_eq(os, "macos") {
        Ok(ServiceAction::Macos)
    } else if text::str_eq(os, "windows") {
        Ok(ServiceAction::Windows)
    } else {
        Err(ServiceError::Unsupported)
    }
}

/// Uninstalls the service with the service manager of a system.
pub fn uninstall(os: &str, script: &str) -> (r: Result<ServiceAction, ServiceError>)
    ensures
        if os@ == "linux"@ {
            r matches Ok(ServiceAction::Script(s)) && s@ == ("pigeons_uninstall-"@, script@)
        } else if os@ == "macos"@ {
            r matches Ok(ServiceAction::Macos)
        } else if os@ == "windows"@ {
            r matches Ok(ServiceAction::Windows)
        } else {
            r matches Err(ServiceError::Unsupported)
        },
{
    if text::str_eq(os, "linux") {
        Ok(LinuxService::uninstall(script))
    } else if text::str_eq(os, "macos") {
        Ok(ServiceAction::Macos)
    } else if text::str_eq(os, "windows") {
        Ok(ServiceAction::Windows)
    } else {
        Err(ServiceError::Unsupported)
    }
}

/// Restarts the service with the service manager of a system.
pub fn restart(os: &str) -> (r: Result<ServiceAction, ServiceError>)
    ensures
        if os@ == "linux"@ {
            r matches Ok(ServiceAction::Run(p)) && p@ == (
                "systemctl"@,
                seq!["restart"@, "pigeons.service"@],
            )
        } else if os@ == "macos"@ {
            r matches Ok(ServiceAction::Macos)
        } else if os@ == "windows"@ {
            r matches Ok(ServiceAction::Windows)
        } else {
            r matches Err(ServiceError::Unsupported)
        },
{
    if text::str_eq(os, "linux") {
        Ok(LinuxService::restart())
    } else if text::str_eq(os, "macos") {
        Ok(ServiceAction::Macos)
    } else if text::str_eq(os, "windows") {
        Ok(ServiceAction::Windows)
    } else {
        Err(ServiceError::Unsupported)
    }
}

// ---------------------------------------------------------------------------
// The endpoint ID of the service
// ---------------------------------------------------------------------------

/// The directory in which a roost that runs as the service publishes its endpoint
/// ID.
pub const ENDPOINT_ID_DIR: &'static str = "/etc/pigeons";

/// The name of the file in which it does so.
pub const ENDPOINT_ID_FILE: &'static str = "endpoint_id";

/// The permission bits of that file: everybody may read it.
pub const ENDPOINT_ID_MODE: u32 = 0o644;

/// What a roost publishes as its endpoint ID, so that unprivileged users can read
/// it: only one that runs with elevated rights does.
pub fn published_endpoint_id(is_elevated: bool, id: &EndpointId) -> (r: Option<String>)
    ensures
        if is_elevated {
            r matches Some(content) && content@ == identity::hex(id@) && read_endpoint_id(
                Some(content@),
            ) == Some(id@)
        } else {
            r is None
        },
{
    if is_elevated {
        let content = id.to_hex();
        proof {
            published_endpoint_id_is_read_back(id@);
        }
        Some(content)
    } else {
        None
    }
}

/// The file that holds the endpoint ID of the service on a system, if it has one.
pub open spec fn endpoint_id_place(os: Seq<char>) -> Option<Seq<char>> {
    if os == "linux"@ || os == "macos"@ {
        Some("/etc/pigeons/endpoint_id"@)
    } else if os == "windows"@ {
        Some("C:\\ProgramData\\pigeons\\endpoint_id"@)
    } else {
        None
    }
}

/// The file that holds the endpoint ID of the service on a system, if it has one.
pub fn endpoint_id_path(os: &str) -> (r: Option<String>)
    ensures
        text::opt_text(r) == endpoint_id_place(os@),
{
    if text::str_eq(os, "linux") || text::str_eq(os, "macos") {
        Some("/etc/pigeons/endpoint_id".to_owned())
    } else if text::str_eq(os, "windows") {
        Some("C:\\ProgramData\\pigeons\\endpoint_id".to_owned())
    } else {
        None
    }
}

/// The endpoint ID that the content of that file gives, if it could be read.
pub open spec fn read_endpoint_id(content: Option<Seq<char>>) -> Option<Seq<u8>> {
    match content {
        Some(text) => match identity::parsed_key(text::trim(text)) {
            Ok(key) => Some(key),
            Err(_) => None,
        },
        None => None,
    }
}

/// The view of an optional endpoint ID.
pub open spec fn opt_id(id: Option<EndpointId>) -> Option<Seq<u8>> {
    match id {
        Some(i) => Some(i@),
        None => None,
    }
}

/// The endpoint ID of the installed service, from the content of the file that
/// holds it. Whitespace around it does not matter.
pub fn service_endpoint_id(content: Option<&str>) -> (r: Option<EndpointId>)
    ensures
        opt_id(r) == read_endpoint_id(
            match content {
                Some(text) => Some(text@),
                None => None,
            },
        ),
        r matches Some(id) ==> identity::is_key(id@),
{
    match content {
        Some(text) => {
            let trimmed = text::string_of(&text::trimmed(&text::chars_of(text)));
            match EndpointId::parse(trimmed.as_str()) {
                Ok(id) => Some(id),
                Err(_) => None,
            }
        },
        None => None,
    }
}

/// On Linux and macOS a roost publishes its endpoint ID where it is read from.
pub proof fn endpoint_id_is_published_where_it_is_read(os: Seq<char>)
    requires
        os == "linux"@ || os == "macos"@,
    ensures
        endpoint_id_place(os) == Some(ENDPOINT_ID_DIR@ + "/"@ + ENDPOINT_ID_FILE@),
{
    reveal_strlit("/etc/pigeons");
    reveal_strlit("/");
    reveal_strlit("endpoint_id");
    reveal_strlit("/etc/pigeons/endpoint_id");
    assert("/etc/pigeons/endpoint_id"@ =~= ENDPOINT_ID_DIR@ + "/"@ + ENDPOINT_ID_FILE@);
}

/// What a roost publishes as its endpoint ID is what is read back as the endpoint
/// ID of the service.
pub proof fn published_endpoint_id_is_read_back(key: Seq<u8>)
    requires
        identity::is_key(key),
    ensures
        read_endpoint_id(Some(identity::hex(key))) == Some(key),
{
    let shown = identity::hex(key);
    identity::hex_digits_only(key);
    if shown.len() > 0 {
        assert(!text::is_white(shown[0]));
        assert(!text::is_white(shown[shown.len() - 1]));
    }
    text::lemma_trim_id(shown);
}

// ---------------------------------------------------------------------------
// Logs
// ---------------------------------------------------------------------------

/// The log file of the service on macOS.
pub const LOG_FILE: &'static str = "/var/log/pigeons.log";

/// The program that prints the logs of the service on a system. `log_exists` says
/// whether there is a log file.
pub fn service_log(os: &str, log_exists: bool) -> (r: Result<Program, ServiceError>)
    ensures
        if os@ == "macos"@ {
            if log_exists {
                r matches Ok(p) && p@ == ("cat"@, seq!["/var/log/pigeons.log"@])
            } else {
                r matches Err(ServiceError::NoLogFile)
            }
        } else if os@ == "linux"@ {
            r matches Ok(p) && p@ == ("journalctl"@, seq!["-u"@, "pigeons.service"@, "--no-pager"@])
        } else {
            r matches Err(ServiceError::LogUnsupported(name)) && name@ == os@
        },
{
    if text::str_eq(os, "macos") {
        if !log_exists {
            return Err(ServiceError::NoLogFile);
        }
        let p = Program { name: "cat".to_owned(), args: vec!["/var/log/pigeons.log".to_owned()] };
        assert(p@.1 =~= seq!["/var/log/pigeons.log"@]);
        Ok(p)
    } else if text::str_eq(os, "linux") {
        let p = Program {
            name: "journalctl".to_owned(),
            args: vec!["-u".to_owned(), "pigeons.service".to_owned(), "--no-pager".to_owned()],
        };
        assert(p@.1 =~= seq!["-u"@, "pigeons.service"@, "--no-pager"@]);
        Ok(p)
    } else {
        Err(ServiceError::LogUnsupported(os.to_owned()))
    }
}

/// What comes of the program that printed the logs on a system.
pub fn service_log_printed(os: &str, success: bool) -> (r: Result<(), ServiceError>)
    ensures
        if os@ == "macos"@ {
            if success {
                r is Ok
            } else {
                r matches Err(ServiceError::LogFile)
            }
        } else if os@ == "linux"@ {
            if success {
                r is Ok
            } else {
                r matches Err(ServiceError::Journal)
            }
        } else {
            r matches Err(ServiceError::LogUnsupported(name)) && name@ == os@
        },
{
    if text::str_eq(os, "macos") {
        if success {
            Ok(())
        } else {
            Err(ServiceError::LogFile)
        }
    } else if text::str_eq(os, "linux") {
        if success {
            Ok(())
        } else {
            Err(ServiceError::Journal)
        }
    } else {
        Err(ServiceError::LogUnsupported(os.to_owned()))
    }
}

/// Whether a path is in a directory, or in one below it.
pub open spec fn is_in(path: Seq<char>, dir: Seq<char>) -> bool {
    exists|rest: Seq<char>| path == #[trigger] (dir + "/"@ + rest)
}

/// Permanently installed programs are in one of these directories, or in one below.
pub proof fn programs_live_in_standard_directories(path: Seq<char>)
    ensures
        is_sensible(path) <==> is_in(path, "/usr/local/bin"@) || is_in(path, "/usr/bin"@) || is_in(
            path,
            "/opt"@,
        ) || is_in(path, "/usr/local/sbin"@) || is_in(path, "/usr/sbin"@) || is_in(
            path,
            "/var/usrlocal/bin"@,
        ),
{
    assert("/usr/local/bin/"@ == "/usr/local/bin"@ + "/"@) by {
        reveal_strlit("/usr/local/bin/");
        reveal_strlit("/usr/local/bin");
        reveal_strlit("/");
        assert("/usr/local/bin/"@ =~= "/usr/local/bin"@ + "/"@);
    }
    assert("/usr/bin/"@ == "/usr/bin"@ + "/"@) by {
        reveal_strlit("/usr/bin/");
        reveal_strlit("/usr/bin");
        reveal_strlit("/");
        assert("/usr/bin/"@ =~= "/usr/bin"@ + "/"@);
    }
    assert("/opt/"@ == "/opt"@ + "/"@) by {
        reveal_strlit("/opt/");
        reveal_strlit("/opt");
        reveal_strlit("/");
        assert("/opt/"@ =~= "/opt"@ + "/"@);
    }
    assert("/usr/local/sbin/"@ == "/usr/local/sbin"@ + "/"@) by {
        reveal_strlit("/usr/local/sbin/");
        reveal_strlit("/usr/local/sbin");
        reveal_strlit("/");
        assert("/usr/local/sbin/"@ =~= "/usr/local/sbin"@ + "/"@);
    }
    assert("/usr/sbin/"@ == "/usr/sbin"@ + "/"@) by {
        reveal_strlit("/usr/sbin/");
        reveal_strlit("/usr/sbin");
        reveal_strlit("/");
        assert("/usr/sbin/"@ =~= "/usr/sbin"@ + "/"@);
    }
    assert("/var/usrlocal/bin/"@ == "/var/usrlocal/bin"@ + "/"@) by {
        reveal_strlit("/var/usrlocal/bin/");
        reveal_strlit("/var/usrlocal/bin");
        reveal_strlit("/");
        assert("/var/usrlocal/bin/"@ =~= "/var/usrlocal/bin"@ + "/"@);
    }
    lemma_is_in(path, "/usr/local/bin"@);
    lemma_is_in(path, "/usr/bin"@);
    lemma_is_in(path, "/opt"@);
    lemma_is_in(path, "/usr/local/sbin"@);
    lemma_is_in(path, "/usr/sbin"@);
    lemma_is_in(path, "/var/usrlocal/bin"@);
}

proof fn lemma_is_in(path: Seq<char>, dir: Seq<char>)
    ensures
        is_in(path, dir) <==> text::starts_with(path, dir + "/"@),
{
    let p = dir + "/"@;
    if text::starts_with(path, p) {
        text_laws::prefixes_come_first(path, p, seq![]);
        assert(path == dir + "/"@ + path.skip(p.len() as int));
    }
    if is_in(path, dir) {
        let rest = choose|rest: Seq<char>| path == #[trigger] (dir + "/"@ + rest);
        text_laws::prefixes_come_first(path, p, rest);
    }
}

/// Whether a binary may run as a service depends on its directory alone, not on its
/// name.
pub proof fn the_directory_decides(dir: Seq<char>, file: Seq<char>, other: Seq<char>)
    requires
        !text::has_char(file, '/'),
        !text::has_char(other, '/'),
    ensures
        is_sensible(dir + "/"@ + file) == is_sensible(dir + "/"@ + other),
{
    lemma_same_directory(dir, file, other, "/usr/local/bin"@);
    lemma_same_directory(dir, file, other, "/usr/bin"@);
    lemma_same_directory(dir, file, other, "/opt"@);
    lemma_same_directory(dir, file, other, "/usr/local/sbin"@);
    lemma_same_directory(dir, file, other, "/usr/sbin"@);
    lemma_same_directory(dir, file, other, "/var/usrlocal/bin"@);
    programs_live_in_standard_directories(dir + "/"@ + file);
    programs_live_in_standard_directories(dir + "/"@ + other);
}

proof fn lemma_same_directory(dir: Seq<char>, file: Seq<char>, other: Seq<char>, place: Seq<char>)
    requires
        !text::has_char(file, '/'),
        !text::has_char(other, '/'),
    ensures
        is_in(dir + "/"@ + file, place) == is_in(dir + "/"@ + other, place),
{
    lemma_is_in(dir + "/"@ + file, place);
    lemma_is_in(dir + "/"@ + other, place);
    lemma_directory(dir, file, place);
    lemma_directory(dir, other, place);
}

proof fn lemma_directory(dir: Seq<char>, file: Seq<char>, place: Seq<char>)
    requires
        !text::has_char(file, '/'),
    ensures
        text::starts_with(dir + "/"@ + file, place + "/"@) == text::starts_with(
            dir + "/"@,
            place + "/"@,
        ),
{
    reveal_strlit("/");
    let s = dir + "/"@ + file;
    let d = dir + "/"@;
    let p = place + "/"@;
    let n = p.len() as int;
    assert(p[n - 1] == '/');
    if n <= d.len() {
        assert(s.take(n) =~= d.take(n));
    } else if text::starts_with(s, p) {
        assert(s.take(n)[n - 1] == s[n - 1]);
        assert(file[n - 1 - d.len()] == '/');
    }
}

/// Whitespace around the content of the endpoint ID file does not matter.
pub proof fn whitespace_around_an_endpoint_id_does_not_matter(
    a: Seq<char>,
    content: Seq<char>,
    b: Seq<char>,
)
    requires
        text_laws::all_white(a),
        text_laws::all_white(b),
    ensures
        read_endpoint_id(Some(a + content + b)) == read_endpoint_id(Some(content)),
        read_endpoint_id(None) is None,
{
    let (x, y) = text_laws::every_text_can_be_trimmed(content);
    let m = text::trim(content);
    assert(text_laws::all_white(a + x)) by {
        assert forall|i: int| 0 <= i < (a + x).len() implies text::is_white(
            #[trigger] (a + x)[i],
        ) by {
            if i < a.len() {
                assert(text::is_white(a[i]));
            } else {
                assert(text::is_white(x[i - a.len()]));
            }
        }
    }
    assert(text_laws::all_white(y + b)) by {
        assert forall|i: int| 0 <= i < (y + b).len() implies text::is_white(
            #[trigger] (y + b)[i],
        ) by {
            if i < y.len() {
                assert(text::is_white(y[i]));
            } else {
                assert(text::is_white(b[i - y.len()]));
            }
        }
    }
    text_laws::trimming_takes_away_outer_whitespace(a + x, m, y + b);
    assert(a + content + b =~= (a + x) + m + (y + b));
}

/// An error shows what it is about: the path, the exit status or the system.
pub proof fn errors_show_what_they_are_about(s: String)
    ensures
        text::ends_with(ServiceError::PathNotUtf8(s).words(), s@),
        text::contains(ServiceError::NotPermanent(s).words(), s@),
        text::ends_with(ServiceError::Install(s).words(), s@),
        text::ends_with(ServiceError::Uninstall(s).words(), s@),
        text::ends_with(ServiceError::Restart(s).words(), s@),
        text::ends_with(ServiceError::LogUnsupported(s).words(), s@),
{
    let none = Seq::<char>::empty();
    text_laws::suffixes_come_last(none, s@, "binary path is not valid UTF-8: "@);
    text_laws::suffixes_come_last(none, s@, "install script failed with exit code: "@);
    text_laws::suffixes_come_last(none, s@, "uninstall script failed with exit code: "@);
    text_laws::suffixes_come_last(none, s@, "systemctl restart failed with exit code: "@);
    text_laws::suffixes_come_last(none, s@, "service log is not supported on "@);
    text_laws::parts_stand_inside(
        "pigeons binary is at "@,
        s@,
        ", which doesn't look like a permanent install location.\nInstall pigeons to one of the standard paths (/usr/local/bin, /usr/bin, /opt/homebrew/bin, /opt/, /usr/local/sbin, /usr/sbin, /var/usrlocal/bin/) before running service install."@,
    );
}

/// On Unix a binary is accepted exactly where it is in one of the standard
/// directories. Elsewhere every path is accepted.
pub proof fn binaries_are_accepted_from_standard_directories(path: Seq<char>, any: Option<Seq<char>>)
    ensures
        path_verdict(true, Some(path)) is Accepted <==> is_in(path, "/usr/local/bin"@) || is_in(
            path,
            "/usr/bin"@,
        ) || is_in(path, "/opt"@) || is_in(path, "/usr/local/sbin"@) || is_in(path, "/usr/sbin"@)
            || is_in(path, "/var/usrlocal/bin"@),
        !(path_verdict(true, Some(path)) is NotUtf8),
        path_verdict(true, None) is NotUtf8,
        path_verdict(false, any) is Accepted,
{
    programs_live_in_standard_directories(path);
}

} // verus!
