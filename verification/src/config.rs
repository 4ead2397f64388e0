//! The pigeons configuration: what it says, where it is kept, and which of two
//! layers wins.
use vstd::prelude::*;

use crate::text;
use crate::text_laws;

verus! {

/// The settings of a configuration file.
#[derive(Debug, Clone, Copy, PartialEq, Eq, Structural)]
pub struct Config {
    /// Whether to send metrics. `None` means that nobody has been asked.
    pub telemetry_enabled: Option<bool>,
}

impl Default for Config {
    fn default() -> (r: Config)
        ensures
            r == defaults(),
    {
        Config { telemetry_enabled: None }
    }
}

/// The settings where nothing is configured.
pub open spec fn defaults() -> Config {
    Config { telemetry_enabled: None }
}

/// Why a configuration is not to be had.
#[derive(Debug, Clone)]
pub enum ConfigError {
    /// The file at `path` could not be read.
    Read { path: String, cause: String },
    /// The file at `path` is not a configuration.
    Parse { path: String, cause: String },
    /// The system names no directory for configurations.
    NoConfigDir,
    /// There is no place for a machine-wide configuration on this system.
    NoSystemConfig(String),
}

impl ConfigError {
    /// The error in words.
    pub open spec fn words(self) -> Seq<char> {
        match self {
            ConfigError::Read { path, cause } => "failed reading config at "@ + path@ + ": "@
                + cause@,
            ConfigError::Parse { path, cause } => "failed parsing config at "@ + path@ + ": "@
                + cause@,
            ConfigError::NoConfigDir => "can't figure out config dir on this system"@,
            ConfigError::NoSystemConfig(os) => "no machine-wide config location on "@ + os@,
        }
    }

    /// The error in words.
    pub fn message(&self) -> (r: String)
        ensures
            r@ == self.words(),
    {
        match self {
            ConfigError::Read { path, cause } => "failed reading config at ".to_owned().concat(
                path.as_str(),
            ).concat(": ").concat(cause.as_str()),
            ConfigError::Parse { path, cause } => "failed parsing config at ".to_owned().concat(
                path.as_str(),
            ).concat(": ").concat(cause.as_str()),
            ConfigError::NoConfigDir => "can't figure out config dir on this system".to_owned(),
            ConfigError::NoSystemConfig(os) => "no machine-wide config location on ".to_owned().concat(
                os.as_str(),
            ),
        }
    }
}

/// What was found at the place of a configuration file.
#[derive(Debug, Clone)]
pub enum ConfigFile {
    /// There is no file.
    Missing,
    /// There is a file that could not be read; why.
    Unreadable(String),
    /// There is a file that is not a configuration; why.
    Malformed(String),
    /// There is a file with these settings.
    Parsed(Config),
}

/// The settings, or else the defaults.
pub open spec fn or_defaults(loaded: Result<Config, ConfigError>) -> Config {
    match loaded {
        Ok(config) => config,
        Err(_) => defaults(),
    }
}

/// What is loaded of a configuration in two layers. There may be no place for the
/// machine-wide one.
pub open spec fn layered(
    user: Result<Config, ConfigError>,
    system: Option<Result<Config, ConfigError>>,
) -> Result<Config, ConfigError> {
    match (user, system) {
        (Err(e), _) => Err(e),
        (Ok(u), None) => Ok(u),
        (Ok(_), Some(Err(e))) => Err(e),
        (Ok(u), Some(Ok(s))) => Ok(u.over(s)),
    }
}

/// The settings of what was found at the place of a file, if there are any.
pub open spec fn found_settings(file: ConfigFile) -> Option<Config> {
    match file {
        ConfigFile::Missing => Some(defaults()),
        ConfigFile::Parsed(config) => Some(config),
        ConfigFile::Unreadable(_) => None,
        ConfigFile::Malformed(_) => None,
    }
}

/// The permission bits of the directory of the machine-wide configuration.
pub const SYSTEM_CONFIG_DIR_MODE: u32 = 0o755;

/// The permission bits of the machine-wide configuration: everyone may read it.
pub const SYSTEM_CONFIG_MODE: u32 = 0o644;

impl Config {
    /// Whether metrics may be sent: only where the setting is `true`.
    pub fn telemetry_enabled(&self) -> (r: bool)
        ensures
            r == (self.telemetry_enabled == Some(true)),
    {
        match self.telemetry_enabled {
            Some(enabled) => enabled,
            None => false,
        }
    }

    /// These settings, with each key that they leave unset taken from `system`.
    pub open spec fn over(self, system: Config) -> Config {
        Config {
            telemetry_enabled: if self.telemetry_enabled is Some {
                self.telemetry_enabled
            } else {
                system.telemetry_enabled
            },
        }
    }

    /// The settings of a file. A file that has not been written yet has the
    /// defaults.
    pub fn load_from(path: &str, file: ConfigFile) -> (r: Result<Config, ConfigError>)
        ensures
            match file {
                ConfigFile::Missing => r == Ok::<Config, ConfigError>(defaults()),
                ConfigFile::Parsed(config) => r == Ok::<Config, ConfigError>(config),
                ConfigFile::Unreadable(why) => r matches Err(ConfigError::Read { path: p, cause })
                    && p@ == path@ && cause@ == why@,
                ConfigFile::Malformed(why) => r matches Err(ConfigError::Parse { path: p, cause })
                    && p@ == path@ && cause@ == why@,
            },
            match found_settings(file) {
                Some(config) => r == Ok::<Config, ConfigError>(config),
                None => r is Err,
            },
    {
        match file {
            ConfigFile::Missing => Ok(Config::default()),
            ConfigFile::Parsed(config) => Ok(config),
            ConfigFile::Unreadable(cause) => Err(
                ConfigError::Read { path: path.to_owned(), cause },
            ),
            ConfigFile::Malformed(cause) => Err(
                ConfigError::Parse { path: path.to_owned(), cause },
            ),
        }
    }

    /// The effective settings: those of the user, with any key that they leave
    /// unset taken from the machine-wide ones. `system` is `None` where the system
    /// has no place for machine-wide settings.
    pub fn load(
        user: Result<Config, ConfigError>,
        system: Option<Result<Config, ConfigError>>,
    ) -> (r: Result<Config, ConfigError>)
        ensures
            match (user, system) {
                (Err(e), _) => r == Err::<Config, ConfigError>(e),
                (Ok(u), None) => r == Ok::<Config, ConfigError>(u),
                (Ok(_), Some(Err(e))) => r == Err::<Config, ConfigError>(e),
                (Ok(u), Some(Ok(s))) => r == Ok::<Config, ConfigError>(u.over(s)),
            },
            r == layered(user, system),
    {
        let user = match user {
            Ok(user) => user,
            Err(e) => {
                return Err(e);
            },
        };
        match system {
            None => Ok(user),
            Some(Err(e)) => Err(e),
            Some(Ok(system)) => Ok(
                Config {
                    telemetry_enabled: if user.telemetry_enabled.is_some() {
                        user.telemetry_enabled
                    } else {
                        system.telemetry_enabled
                    },
                },
            ),
        }
    }

    /// The settings of the user alone. The first-run question is about them, so a
    /// machine-wide answer does not stand in for them. `file` is `None` where the
    /// system names no directory for configurations.
    pub fn load_user(path: &str, file: Option<ConfigFile>) -> (r: Result<Config, ConfigError>)
        ensures
            match file {
                None => r matches Err(ConfigError::NoConfigDir),
                Some(ConfigFile::Missing) => r == Ok::<Config, ConfigError>(defaults()),
                Some(ConfigFile::Parsed(config)) => r == Ok::<Config, ConfigError>(config),
                Some(ConfigFile::Unreadable(why)) => r matches Err(
                    ConfigError::Read { path: p, cause },
                ) && p@ == path@ && cause@ == why@,
                Some(ConfigFile::Malformed(why)) => r matches Err(
                    ConfigError::Parse { path: p, cause },
                ) && p@ == path@ && cause@ == why@,
            },
    {
        match file {
            Some(file) => Config::load_from(path, file),
            None => Err(ConfigError::NoConfigDir),
        }
    }

    /// The settings, or the defaults where they could not be loaded.
    pub fn load_or_default(loaded: Result<Config, ConfigError>) -> (r: Config)
        ensures
            r == or_defaults(loaded),
    {
        match loaded {
            Ok(config) => config,
            Err(_) => Config::default(),
        }
    }

    /// The place of the per-user configuration, relative to the user's
    /// configuration directory. Without such a directory there is none.
    pub fn config_path(has_config_dir: bool) -> (r: Result<String, ConfigError>)
        ensures
            if has_config_dir {
                r matches Ok(path) && path@ == "pigeons/config.toml"@
            } else {
                r matches Err(ConfigError::NoConfigDir)
            },
    {
        if has_config_dir {
            Ok("pigeons/config.toml".to_owned())
        } else {
            Err(ConfigError::NoConfigDir)
        }
    }

    /// The place of the machine-wide configuration on a system.
    pub fn system_config_path(os: &str) -> (r: Result<String, ConfigError>)
        ensures
            if os@ == "linux"@ || os@ == "macos"@ {
                r matches Ok(path) && path@ == "/etc/pigeons/config.toml"@
            } else if os@ == "windows"@ {
                r matches Ok(path) && path@ == "C:\\ProgramData\\pigeons\\config.toml"@
            } else {
                r matches Err(ConfigError::NoSystemConfig(name)) && name@ == os@
            },
    {
        if text::str_eq(os, "linux") || text::str_eq(os, "macos") {
            Ok("/etc/pigeons/config.toml".to_owned())
        } else if text::str_eq(os, "windows") {
            Ok("C:\\ProgramData\\pigeons\\config.toml".to_owned())
        } else {
            Err(ConfigError::NoSystemConfig(os.to_owned()))
        }
    }

    /// The place of the per-user configuration of an account, relative to its home
    /// directory, in the default layout of a system.
    pub fn config_path_in(os: &str) -> (r: String)
        ensures
            r@ == if os@ == "macos"@ {
                "Library/Application Support/pigeons/config.toml"@
            } else if os@ == "windows"@ {
                "AppData/Roaming/pigeons/config.toml"@
            } else {
                ".config/pigeons/config.toml"@
            },
    {
        if text::str_eq(os, "macos") {
            "Library/Application Support/pigeons/config.toml".to_owned()
        } else if text::str_eq(os, "windows") {
            "AppData/Roaming/pigeons/config.toml".to_owned()
        } else {
            ".config/pigeons/config.toml".to_owned()
        }
    }
}

// ---------------------------------------------------------------------------
// The service's setting
// ---------------------------------------------------------------------------

/// Whose configuration holds the telemetry choice of the person who started an
/// elevated command.
#[derive(Debug, Clone)]
pub enum InstallingUser {
    /// That of another account.
    Account(String),
    /// That of the running account.
    Current,
    /// Nobody knows.
    Unknown,
}

/// Whose telemetry choice an elevated command carries over.
///
/// `SUDO_USER` is the only pointer that an elevated unix process has back to the
/// person who started it: without it there is nothing to trace an answer back to.
/// Elsewhere elevation keeps the account, so its own configuration is the right
/// one.
pub fn installing_user(unix: bool, sudo_user: Option<String>) -> (r: InstallingUser)
    ensures
        match sudo_user {
            Some(user) => r matches InstallingUser::Account(name) && name@ == user@,
            None => if unix {
                r is Unknown
            } else {
                r is Current
            },
        },
        r@ == traced(unix, text::opt_text(sudo_user)),
{
    match sudo_user {
        Some(user) => InstallingUser::Account(user),
        None => {
            if unix {
                InstallingUser::Unknown
            } else {
                InstallingUser::Current
            }
        },
    }
}

/// The telemetry choice that is carried over from the installing user, whose
/// configuration was loaded if there is a path to it. Nothing is carried over from
/// nobody, nor from a configuration that could not be loaded.
pub open spec fn carried_over(
    user: InstallingUser,
    loaded: Option<Result<Config, ConfigError>>,
) -> Option<bool> {
    match (user, loaded) {
        (InstallingUser::Unknown, _) => None,
        (_, Some(Ok(config))) => config.telemetry_enabled,
        _ => None,
    }
}

/// The telemetry choice of the installing user. `loaded` is `None` where the
/// account has no configuration path; a configuration that could not be loaded
/// holds no choice.
pub fn installing_user_telemetry_choice(
    user: &InstallingUser,
    loaded: Option<Result<Config, ConfigError>>,
) -> (r: Option<bool>)
    ensures
        r == carried_over(*user, loaded),
{
    match (user, loaded) {
        (InstallingUser::Unknown, _) => None,
        (_, Some(Ok(config))) => config.telemetry_enabled,
        _ => None,
    }
}

/// What to write into the machine-wide configuration to carry over a telemetry
/// choice, given what is there: nothing where no choice was made.
pub open spec fn published(
    choice: Option<bool>,
    system: Result<Config, ConfigError>,
) -> Option<Config> {
    match choice {
        Some(enabled) => Some(Config { telemetry_enabled: Some(enabled), ..or_defaults(system) }),
        None => None,
    }
}

/// What to write into the machine-wide configuration to carry over a telemetry
/// choice, given what is there. With nothing to carry over, nothing is written.
pub fn publish_telemetry_choice_to(
    choice: Option<bool>,
    system: Result<Config, ConfigError>,
) -> (r: Option<Config>)
    ensures
        r == published(choice, system),
{
    match choice {
        Some(enabled) => {
            let mut config = Config::load_or_default(system);
            config.telemetry_enabled = Some(enabled);
            Some(config)
        },
        None => None,
    }
}

/// What the service does with the machine-wide configuration: it sends metrics
/// only where that says so.
pub open spec fn service_sends(system: Result<Config, ConfigError>) -> bool {
    or_defaults(system).telemetry_enabled == Some(true)
}

/// What the service does with the machine-wide configuration as it is now.
pub fn service_telemetry(system: Result<Config, ConfigError>) -> (r: bool)
    ensures
        r == service_sends(system),
{
    Config::load_or_default(system).telemetry_enabled()
}

/// The lines that tell what the service does with its telemetry setting, given
/// the setting or why it could not be recorded, and where the setting is kept.
pub open spec fn telemetry_report(
    published: Result<bool, Seq<char>>,
    path: Option<Seq<char>>,
) -> Seq<Seq<char>> {
    let place = match path {
        Some(p) => p,
        None => "the machine-wide config"@,
    };
    let (note, enabled) = match published {
        Ok(enabled) => (seq![], enabled),
        Err(why) => (
            seq!["Could not record a telemetry setting for the service: "@ + why],
            false,
        ),
    };
    note.push(
        if enabled {
            "Anonymous metrics: on for the service. Set telemetry_enabled = false in "@ + place
                + " to turn them off."@
        } else {
            "Anonymous metrics: off for the service. Set telemetry_enabled = true in "@ + place
                + " to opt in."@
        },
    )
}

/// The lines that tell what the service does with its telemetry setting. A
/// setting that could not be recorded leaves the service opted out.
pub fn report_service_telemetry(published: Result<bool, String>, path: Option<String>) -> (r: Vec<
    String,
>)
    ensures
        r@.map_values(|l: String| l@) == telemetry_report(
            match published {
                Ok(enabled) => Ok(enabled),
                Err(why) => Err(why@),
            },
            match path {
                Some(p) => Some(p@),
                None => None,
            },
        ),
{
    let mut lines: Vec<String> = Vec::new();
    let enabled = match published {
        Ok(enabled) => enabled,
        Err(why) => {
            lines.push(
                "Could not record a telemetry setting for the service: ".to_owned().concat(
                    why.as_str(),
                ),
            );
            false
        },
    };
    let place: String = match path {
        Some(path) => path,
        None => "the machine-wide config".to_owned(),
    };
    if enabled {
        lines.push(
            "Anonymous metrics: on for the service. Set telemetry_enabled = false in ".to_owned().concat(
                place.as_str(),
            ).concat(" to turn them off."),
        );
    } else {
        lines.push(
            "Anonymous metrics: off for the service. Set telemetry_enabled = true in ".to_owned().concat(
                place.as_str(),
            ).concat(" to opt in."),
        );
    }
    assert(lines@.map_values(|l: String| l@) =~= telemetry_report(
        match published {
            Ok(enabled) => Ok(enabled),
            Err(why) => Err(why@),
        },
        match path {
            Some(p) => Some(p@),
            None => None,
        },
    ));
    lines
}

/// The machine-wide configuration after a telemetry choice was carried over.
pub open spec fn after_publishing(
    choice: Option<bool>,
    system: Result<Config, ConfigError>,
) -> Result<Config, ConfigError> {
    match published(choice, system) {
        Some(written) => Ok(written),
        None => system,
    }
}

/// A choice that was carried over is what the service then does. With no choice
/// to carry over, the answer that is already on the machine still stands, and
/// without one the service sends nothing.
pub proof fn published_choice_takes_effect(
    choice: Option<bool>,
    system: Result<Config, ConfigError>,
)
    ensures
        service_sends(after_publishing(choice, system)) == (match choice {
            Some(enabled) => enabled,
            None => service_sends(system),
        }),
{
}

/// From a root shell nothing is carried over to the service, whatever root's own
/// configuration says: nothing is written, and the answer that is already on the
/// machine still stands.
pub proof fn a_root_shell_carries_nothing_over(
    user: InstallingUser,
    loaded: Option<Result<Config, ConfigError>>,
    system: Result<Config, ConfigError>,
)
    requires
        user is Unknown,
    ensures
        published(carried_over(user, loaded), system) is None,
        service_sends(after_publishing(carried_over(user, loaded), system)) == service_sends(
            system,
        ),
{
}

/// The user's own setting wins over the machine-wide one, whatever that is.
pub proof fn user_setting_wins(user: Config, system: Config, other: Config)
    requires
        user.telemetry_enabled is Some,
    ensures
        user.over(system) == user.over(other),
        user.over(system).telemetry_enabled == user.telemetry_enabled,
{
}

/// The setting that counts is the user's own where they have one, else that of the
/// machine.
pub proof fn the_machine_fills_in_what_the_user_leaves_open(user: Config, system: Config)
    ensures
        user.telemetry_enabled is Some ==> user.over(system).telemetry_enabled
            == user.telemetry_enabled,
        user.telemetry_enabled is None ==> user.over(system).telemetry_enabled
            == system.telemetry_enabled,
        defaults().over(system) == system,
        user.over(defaults()) == user,
        defaults().telemetry_enabled is None,
{
}

/// A choice is carried over as it was made, from whoever can be traced, and written
/// whatever is in the machine-wide configuration. Without a choice nothing is
/// written.
pub proof fn a_choice_is_carried_over_as_it_was_made(
    user: InstallingUser,
    config: Config,
    error: ConfigError,
    system: Result<Config, ConfigError>,
    enabled: bool,
)
    ensures
        !(user is Unknown) ==> carried_over(user, Some(Ok(config))) == config.telemetry_enabled,
        carried_over(user, Some(Err(error))) is None,
        carried_over(user, None) is None,
        published(Some(enabled), system) matches Some(written) && written.telemetry_enabled == Some(
            enabled,
        ),
        published(None, system) is None,
        service_sends(Ok(config)) <==> config.telemetry_enabled == Some(true),
        !service_sends(Err(error)),
{
}

/// The report ends by telling whether the service sends metrics, and names the place
/// of the setting. A failure to record the setting is told first, and means that
/// nothing is sent.
pub proof fn the_report_tells_what_the_service_does(
    published: Result<bool, Seq<char>>,
    path: Option<Seq<char>>,
)
    ensures
        ({
            let report = telemetry_report(published, path);
            let on = "Anonymous metrics: on for the service."@;
            let off = "Anonymous metrics: off for the service."@;
            &&& published == Ok::<bool, Seq<char>>(true) ==> text::starts_with(report.last(), on)
            &&& published != Ok::<bool, Seq<char>>(true) ==> text::starts_with(report.last(), off)
            &&& path matches Some(p) ==> text::contains(report.last(), p)
            &&& published is Ok ==> report.len() == 1
            &&& published matches Err(why) ==> report.len() == 2 && text::ends_with(report[0], why)
        }),
{
    let place = match path {
        Some(p) => p,
        None => "the machine-wide config"@,
    };
    let on = "Anonymous metrics: on for the service. Set telemetry_enabled = false in "@;
    let off = "Anonymous metrics: off for the service. Set telemetry_enabled = true in "@;
    reveal_strlit("Anonymous metrics: on for the service. Set telemetry_enabled = false in ");
    reveal_strlit("Anonymous metrics: off for the service. Set telemetry_enabled = true in ");
    reveal_strlit("Anonymous metrics: on for the service.");
    reveal_strlit("Anonymous metrics: off for the service.");
    let report = telemetry_report(published, path);
    let last = report.last();
    text_laws::parts_stand_inside(on, place, " to turn them off."@);
    text_laws::parts_stand_inside(off, place, " to opt in."@);
    assert((on + place + " to turn them off."@).take(38)
        =~= "Anonymous metrics: on for the service."@);
    assert((off + place + " to opt in."@).take(39) =~= "Anonymous metrics: off for the service."@);
    match published {
        Ok(enabled) => {
            assert(report.len() == 1);
        },
        Err(why) => {
            let head = "Could not record a telemetry setting for the service: "@;
            text_laws::suffixes_come_last(report[0], why, head);
            assert(report[0] == head + why);
        },
    }
}

/// The settings that count, layer by layer: the user's own where they have one, else
/// the machine's, else none. Either layer may fail to load, the user's first; a
/// failure of the machine's counts only where there is a place for it.
pub proof fn the_layers_of_a_configuration(
    user: Config,
    system: Config,
    error: ConfigError,
    other: Option<Result<Config, ConfigError>>,
)
    ensures
        layered(Ok(user), None) == Ok::<Config, ConfigError>(user),
        layered(Ok(user), Some(Err(error))) == Err::<Config, ConfigError>(error),
        layered(Err(error), other) == Err::<Config, ConfigError>(error),
        layered(Ok(user), Some(Ok(system))) is Ok,
        user.telemetry_enabled is Some ==> layered(
            Ok(user),
            Some(Ok(system)),
        )->Ok_0.telemetry_enabled == user.telemetry_enabled,
        user.telemetry_enabled is None ==> layered(
            Ok(user),
            Some(Ok(system)),
        )->Ok_0.telemetry_enabled == system.telemetry_enabled,
        or_defaults(Ok(user)) == user,
        or_defaults(Err(error)).telemetry_enabled is None,
        found_settings(ConfigFile::Parsed(user)) == Some(user),
        found_settings(ConfigFile::Missing) matches Some(none) && none.telemetry_enabled is None,
{
}

/// A file that is there but cannot be read or understood has no settings.
pub proof fn broken_files_have_no_settings(why: String)
    ensures
        found_settings(ConfigFile::Unreadable(why)) is None,
        found_settings(ConfigFile::Malformed(why)) is None,
{
}

/// The errors show the file and the cause.
pub proof fn errors_show_the_file(path: String, cause: String)
    ensures
        text::contains(ConfigError::Read { path, cause }.words(), path@),
        text::ends_with(ConfigError::Read { path, cause }.words(), cause@),
        text::contains(ConfigError::Parse { path, cause }.words(), path@),
        text::ends_with(ConfigError::Parse { path, cause }.words(), cause@),
        text::ends_with(ConfigError::NoSystemConfig(cause).words(), cause@),
{
    let none = Seq::<char>::empty();
    let read = "failed reading config at "@;
    let parse = "failed parsing config at "@;
    let sep = ": "@;
    text_laws::parts_stand_inside(read, path@, sep + cause@);
    text_laws::parts_stand_inside(parse, path@, sep + cause@);
    assert(read + path@ + sep + cause@ =~= read + path@ + (sep + cause@));
    assert(parse + path@ + sep + cause@ =~= parse + path@ + (sep + cause@));
    text_laws::suffixes_come_last(none, cause@, read + path@ + sep);
    text_laws::suffixes_come_last(none, cause@, parse + path@ + sep);
    text_laws::suffixes_come_last(none, cause@, "no machine-wide config location on "@);
}

/// Who an elevated command is traced back to.
pub enum Trace {
    Account(Seq<char>),
    Current,
    Unknown,
}

impl View for InstallingUser {
    type V = Trace;

    open spec fn view(&self) -> Trace {
        match self {
            InstallingUser::Account(name) => Trace::Account(name@),
            InstallingUser::Current => Trace::Current,
            InstallingUser::Unknown => Trace::Unknown,
        }
    }
}

/// Who an elevated command is traced back to, given the account behind `sudo`.
pub open spec fn traced(unix: bool, sudo_user: Option<Seq<char>>) -> Trace {
    match sudo_user {
        Some(user) => Trace::Account(user),
        None => if unix {
            Trace::Unknown
        } else {
            Trace::Current
        },
    }
}

/// The account behind `sudo` is the one that counts, on every system. Without it,
/// nobody can be traced on unix, and the running account counts elsewhere.
pub proof fn the_account_behind_sudo_counts(unix: bool, user: Seq<char>)
    ensures
        traced(unix, Some(user)) == Trace::Account(user),
        traced(true, None) is Unknown,
        traced(false, None) is Current,
{
}

} // verus!
