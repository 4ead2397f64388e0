//! The commands of the `pigeons` program: what they are told, the names that they
//! give to routes, and what they print.
use vstd::prelude::*;

use crate::identity;
use crate::identity::{EndpointId, KeyParseError};
use crate::ssh::SshConfigPigeonEntry;
use crate::text;
use crate::text_laws;

verus! {

// ---------------------------------------------------------------------------
// Commands
// ---------------------------------------------------------------------------

/// A command line.
#[derive(Debug, Clone)]
pub struct Cli {
    pub cmd: Cmd,
}

/// A command.
#[derive(Debug, Clone)]
pub enum Cmd {
    /// Set up a roost.
    Roost(RoostArgs),
    /// Send a pigeon to a remote roost.
    Fly(FlyArgs),
    /// Train a pigeon route.
    Add(AddArgs),
    /// See what pigeon routes are configured.
    List,
    /// Forget a pigeon route.
    Remove(RemoveArgs),
    /// Manage the system service.
    Service { op: ServiceCmd },
    /// Print the version number.
    Version,
    /// Print the paths used for config and other files.
    Paths,
    /// Print the endpoint ID for a persistent identity.
    EndpointId(EndpointIdArgs),
}

/// An operation on the system service.
#[derive(Debug, Clone)]
pub enum ServiceCmd {
    /// Install the service.
    Install { ssh_port: u16, relay_url: Vec<String> },
    /// Uninstall the service.
    Uninstall,
    /// Restart the running service.
    Restart,
    /// Show the status of the service.
    Status,
    /// Show the logs of the service.
    Log,
}

/// What `roost` is told.
#[derive(Debug, Clone)]
pub struct RoostArgs {
    /// The port of the local sshd.
    pub ssh_port: u16,
    /// Whether to use a throwaway identity.
    pub ephemeral: bool,
    /// The relay servers that replace the default ones.
    pub relay_url: Vec<String>,
}

/// What `fly` is told.
#[derive(Debug, Clone)]
pub struct FlyArgs {
    /// The public key of the remote roost.
    pub public_key: String,
    /// Whether to bridge stdin and stdout instead of binding a local port.
    pub stdio: bool,
    /// The directory of the identity to use.
    pub key_dir: Option<String>,
    /// Direct socket addresses of the remote endpoint.
    pub direct_address: Vec<String>,
    /// The relay servers that replace the default ones.
    pub relay_url: Vec<String>,
}

/// What `endpoint-id` is told.
#[derive(Debug, Clone)]
pub struct EndpointIdArgs {
    /// The directory of the identity.
    pub key_dir: Option<String>,
}

/// What `add` is told.
#[derive(Debug, Clone)]
pub struct AddArgs {
    /// The endpoint ID of the remote roost.
    pub id: String,
    /// The name of the route.
    pub name: Option<String>,
}

/// What `remove` is told.
#[derive(Debug, Clone)]
pub struct RemoveArgs {
    /// The name of the route.
    pub name: String,
}

impl ServiceCmd {
    /// Whether the operation changes the system, so that it has to run elevated.
    pub open spec fn changes_system(self) -> bool {
        self is Install || self is Uninstall || self is Restart
    }

    /// Whether to start over as an administrator before the operation.
    pub fn must_elevate(&self, is_elevated: bool) -> (r: bool)
        ensures
            r == (self.changes_system() && !is_elevated),
    {
        match self {
            ServiceCmd::Install { .. } | ServiceCmd::Uninstall | ServiceCmd::Restart => !is_elevated,
            ServiceCmd::Status | ServiceCmd::Log => false,
        }
    }
}

// ---------------------------------------------------------------------------
// Route names
// ---------------------------------------------------------------------------

/// The first characters of a text, eight at most.
pub open spec fn id_prefix(id: Seq<char>) -> Seq<char> {
    if id.len() <= 8 {
        id
    } else {
        id.take(8)
    }
}

/// Derives a route name from an endpoint ID, for when none is given.
pub fn default_route_name(id: &str) -> (r: String)
    ensures
        r@ == "pigeon-"@ + id_prefix(id@),
{
    let chars = text::chars_of(id);
    let n: usize = if chars.len() <= 8 {
        chars.len()
    } else {
        8
    };
    let prefix = text::piece(&chars, 0, n);
    assert(prefix@ =~= id_prefix(id@));
    "pigeon-".to_owned().concat(text::string_of(&prefix).as_str())
}

/// Why a route cannot be added.
#[derive(Debug, Clone)]
pub enum AddError {
    /// The name is empty.
    EmptyName,
    /// The name has whitespace in it.
    Whitespace(String),
    /// The name has a character that a host name cannot have.
    InvalidCharacters(String),
    /// The endpoint ID is not one.
    EndpointId(KeyParseError),
}

impl AddError {
    /// The error in words.
    pub open spec fn words(self) -> Seq<char> {
        match self {
            AddError::EmptyName => "host name cannot be empty"@,
            AddError::Whitespace(name) => "host name '"@ + name@ + "' cannot contain whitespace"@,
            AddError::InvalidCharacters(name) => "host name '"@ + name@
                + "' contains invalid characters (use letters, digits, hyphens, dots, or underscores)"@,
            AddError::EndpointId(e) => e.words(),
        }
    }

    /// The error in words.
    pub fn message(&self) -> (r: String)
        ensures
            r@ == self.words(),
    {
        match self {
            AddError::EmptyName => "host name cannot be empty".to_owned(),
            AddError::Whitespace(name) => "host name '".to_owned().concat(name.as_str()).concat(
                "' cannot contain whitespace",
            ),
            AddError::InvalidCharacters(name) => "host name '".to_owned().concat(
                name.as_str(),
            ).concat(
                "' contains invalid characters (use letters, digits, hyphens, dots, or underscores)",
            ),
            AddError::EndpointId(e) => e.message(),
        }
    }
}

/// Whether a character may stand in a route name: an ASCII letter or digit, a
/// hyphen, a dot or an underscore.
pub open spec fn is_name_char(c: char) -> bool {
    ||| 'a' <= c <= 'z'
    ||| 'A' <= c <= 'Z'
    ||| '0' <= c <= '9'
    ||| c == '-'
    ||| c == '.'
    ||| c == '_'
}

/// Whether every character of a text may stand in a route name.
pub open spec fn all_name_chars(s: Seq<char>) -> bool {
    forall|i: int| 0 <= i < s.len() ==> is_name_char(#[trigger] s[i])
}

/// The name that is asked for: the given one or the default, without whitespace
/// at its ends.
pub open spec fn wanted_name(name: Option<Seq<char>>, id: Seq<char>) -> Seq<char> {
    text::trim(
        match name {
            Some(n) => n,
            None => "pigeon-"@ + id_prefix(id),
        },
    )
}

/// What is made of a name for a route.
pub enum NameVerdict {
    Accepted(Seq<char>),
    Empty,
    Whitespace,
    InvalidCharacters,
}

/// What is made of the name that is asked for.
pub open spec fn name_verdict(name: Option<Seq<char>>, id: Seq<char>) -> NameVerdict {
    let wanted = wanted_name(name, id);
    if wanted.len() == 0 {
        NameVerdict::Empty
    } else if !text::no_white(wanted) {
        NameVerdict::Whitespace
    } else if !all_name_chars(wanted) {
        NameVerdict::InvalidCharacters
    } else {
        NameVerdict::Accepted(wanted)
    }
}

/// The name of the route that `add` makes, if it can be the name of a host.
pub fn route_name(args: &AddArgs) -> (r: Result<String, AddError>)
    ensures
        ({
            let name = wanted_name(text::opt_text(args.name), args.id@);
            if name.len() == 0 {
                r matches Err(AddError::EmptyName)
            } else if !text::no_white(name) {
                r matches Err(AddError::Whitespace(n)) && n@ == name
            } else if !all_name_chars(name) {
                r matches Err(AddError::InvalidCharacters(n)) && n@ == name
            } else {
                r matches Ok(n) && n@ == name
            }
        }),
        match name_verdict(text::opt_text(args.name), args.id@) {
            NameVerdict::Accepted(name) => r matches Ok(n) && n@ == name,
            NameVerdict::Empty => r matches Err(AddError::EmptyName),
            NameVerdict::Whitespace => r matches Err(AddError::Whitespace(_)),
            NameVerdict::InvalidCharacters => r matches Err(AddError::InvalidCharacters(_)),
        },
{
    let full: String = match &args.name {
        Some(name) => name.clone(),
        None => default_route_name(args.id.as_str()),
    };
    let name = text::trimmed(&text::chars_of(full.as_str()));
    let ghost wanted = wanted_name(text::opt_text(args.name), args.id@);
    assert(name@ == wanted);
    if name.len() == 0 {
        return Err(AddError::EmptyName);
    }
    for i in 0..name.len()
        invariant
            name@ == wanted,
            wanted == wanted_name(text::opt_text(args.name), args.id@),
            wanted.len() > 0,
            forall|k: int| 0 <= k < i ==> !text::is_white(#[trigger] wanted[k]),
    {
        if name[i].is_whitespace() {
            assert(text::is_white(wanted[i as int]));
            return Err(AddError::Whitespace(text::string_of(&name)));
        }
    }
    for i in 0..name.len()
        invariant
            name@ == wanted,
            wanted == wanted_name(text::opt_text(args.name), args.id@),
            wanted.len() > 0,
            text::no_white(wanted),
            forall|k: int| 0 <= k < i ==> is_name_char(#[trigger] wanted[k]),
    {
        let c = name[i];
        let letter = ('a' <= c && c <= 'z') || ('A' <= c && c <= 'Z');
        let digit = '0' <= c && c <= '9';
        if !(letter || digit || c == '-' || c == '.' || c == '_') {
            assert(!is_name_char(wanted[i as int]));
            return Err(AddError::InvalidCharacters(text::string_of(&name)));
        }
    }
    Ok(text::string_of(&name))
}

/// A route that `add` makes.
#[derive(Debug, Clone)]
pub struct NewRoute {
    pub name: String,
    pub endpoint_id: EndpointId,
}

/// The route that `add` makes: its name is checked first, then the endpoint ID.
pub fn new_route(args: &AddArgs) -> (r: Result<NewRoute, AddError>)
    ensures
        ({
            let name = wanted_name(text::opt_text(args.name), args.id@);
            if name.len() == 0 {
                r matches Err(AddError::EmptyName)
            } else if !text::no_white(name) {
                r matches Err(AddError::Whitespace(n)) && n@ == name
            } else if !all_name_chars(name) {
                r matches Err(AddError::InvalidCharacters(n)) && n@ == name
            } else {
                match identity::parsed_key(args.id@) {
                    Ok(key) => r matches Ok(route) && route.name@ == name && route.endpoint_id@
                        == key && identity::is_key(key),
                    Err(e) => r matches Err(AddError::EndpointId(error)) && error == e,
                }
            }
        }),
{
    route_to(args, EndpointId::parse(args.id.as_str()))
}

/// The route that `add` makes to what its endpoint ID was read as. The name is
/// checked before it matters whether the endpoint ID was read.
pub fn route_to(args: &AddArgs, parsed: Result<EndpointId, KeyParseError>) -> (r: Result<
    NewRoute,
    AddError,
>)
    ensures
        ({
            let name = wanted_name(text::opt_text(args.name), args.id@);
            if name.len() == 0 {
                r matches Err(AddError::EmptyName)
            } else if !text::no_white(name) {
                r matches Err(AddError::Whitespace(n)) && n@ == name
            } else if !all_name_chars(name) {
                r matches Err(AddError::InvalidCharacters(n)) && n@ == name
            } else {
                match parsed {
                    Ok(id) => r matches Ok(route) && route.name@ == name && route.endpoint_id
                        == id,
                    Err(e) => r matches Err(AddError::EndpointId(error)) && error == e,
                }
            }
        }),
{
    let name = match route_name(args) {
        Ok(name) => name,
        Err(e) => {
            return Err(e);
        },
    };
    match parsed {
        Ok(endpoint_id) => Ok(NewRoute { name, endpoint_id }),
        Err(e) => Err(AddError::EndpointId(e)),
    }
}

/// A name that `add` accepts can stand on a `Host` line of the SSH configuration.
pub proof fn accepted_names_are_host_names(name: Seq<char>)
    requires
        name.len() > 0,
        text::no_white(name),
        all_name_chars(name),
    ensures
        crate::ssh_laws::is_host_name(name),
{
    assert(!text::is_white(name[0]));
    assert(!text::is_white(name[name.len() - 1]));
    text::lemma_trim_id(name);
    if text::has_char(name, '\n') {
        let i = choose|i: int| 0 <= i < name.len() && #[trigger] name[i] == '\n';
        assert(is_name_char(name[i]));
    }
}

// ---------------------------------------------------------------------------
// Output
// ---------------------------------------------------------------------------

/// A text with blanks after it, up to a width.
pub open spec fn padded(s: Seq<char>, width: nat) -> Seq<char>
    decreases width - s.len(),
{
    if s.len() >= width {
        s
    } else {
        padded(s.push(' '), width)
    }
}

/// The line of a route in the list.
pub open spec fn route_line(route: (Seq<char>, Seq<char>)) -> Seq<char> {
    "  "@ + padded(route.0, 20) + " "@ + route.1
}

/// What `list` prints, line by line.
pub open spec fn route_list(routes: Seq<(Seq<char>, Seq<char>)>) -> Seq<Seq<char>> {
    if routes.len() == 0 {
        seq!["No pigeon routes configured."@]
    } else {
        seq!["Pigeon routes:"@, seq![]] + routes.map_values(
            |r: (Seq<char>, Seq<char>)| route_line(r),
        )
    }
}

/// The line of a route in the list.
fn entry_line(entry: &SshConfigPigeonEntry) -> (r: String)
    ensures
        r@ == route_line(entry@),
{
    let mut name = text::chars_of(entry.name.as_str());
    while name.len() < 20
        invariant
            padded(name@, 20) == padded(entry.name@, 20),
        decreases 20 - name@.len(),
    {
        name.push(' ');
    }
    "  ".to_owned().concat(text::string_of(&name).as_str()).concat(" ").concat(
        entry.endpoint_id.as_str(),
    )
}

/// What `list` prints, line by line.
pub fn list_lines(entries: &Vec<SshConfigPigeonEntry>) -> (r: Vec<String>)
    ensures
        r@.map_values(|l: String| l@) == route_list(
            entries@.map_values(|e: SshConfigPigeonEntry| e@),
        ),
{
    let mut lines: Vec<String> = Vec::new();
    let ghost routes = entries@.map_values(|e: SshConfigPigeonEntry| e@);
    let ghost view = |l: String| l@;
    let ghost line = |r: (Seq<char>, Seq<char>)| route_line(r);
    if entries.len() == 0 {
        lines.push("No pigeon routes configured.".to_owned());
        assert(lines@.map_values(view) =~= route_list(routes));
        return lines;
    }
    lines.push("Pigeon routes:".to_owned());
    lines.push(String::new());
    let ghost head = seq!["Pigeon routes:"@, seq![]];
    assert(lines@.map_values(view) =~= head + routes.take(0).map_values(line));
    for i in 0..entries.len()
        invariant
            view == (|l: String| l@),
            line == (|r: (Seq<char>, Seq<char>)| route_line(r)),
            routes == entries@.map_values(|e: SshConfigPigeonEntry| e@),
            lines@.map_values(view) == head + routes.take(i as int).map_values(line),
    {
        let ghost before = lines@.map_values(view);
        lines.push(entry_line(&entries[i]));
        assert(routes[i as int] == entries@[i as int]@);
        assert(lines@.map_values(view) =~= before.push(route_line(routes[i as int])));
        assert(routes.take(i + 1).map_values(line) =~= routes.take(i as int).map_values(line).push(
            route_line(routes[i as int]),
        ));
        assert(head + routes.take(i as int).map_values(line).push(route_line(routes[i as int]))
            =~= before.push(route_line(routes[i as int])));
    }
    assert(routes.take(routes.len() as int) =~= routes);
    lines
}

/// What `service status` prints, line by line, given the endpoint of the service
/// if it runs.
pub open spec fn status_list(id: Option<Seq<u8>>) -> Seq<Seq<char>> {
    match id {
        Some(key) => seq![
            "Service:       running"@,
            seq![],
            "  Roost ID: "@ + identity::hex(key),
            seq![],
            "  Connect with:"@,
            "    pigeons add --id "@ + identity::hex(key) + " --name my-roost"@,
        ],
        None => seq!["Service:       not installed"@],
    }
}

/// What `service status` prints, line by line.
pub fn status_lines(id: Option<EndpointId>) -> (r: Vec<String>)
    ensures
        r@.map_values(|l: String| l@) == status_list(
            match id {
                Some(key) => Some(key@),
                None => None,
            },
        ),
{
    let mut lines: Vec<String> = Vec::new();
    match id {
        Some(id) => {
            let hex = id.to_hex();
            lines.push("Service:       running".to_owned());
            lines.push(String::new());
            lines.push("  Roost ID: ".to_owned().concat(hex.as_str()));
            lines.push(String::new());
            lines.push("  Connect with:".to_owned());
            lines.push(
                "    pigeons add --id ".to_owned().concat(hex.as_str()).concat(" --name my-roost"),
            );
        },
        None => {
            lines.push("Service:       not installed".to_owned());
        },
    }
    assert(lines@.map_values(|l: String| l@) =~= status_list(
        match id {
            Some(key) => Some(key@),
            None => None,
        },
    ));
    lines
}

/// What `add` prints for a route.
pub open spec fn added_list(name: Seq<char>) -> Seq<Seq<char>> {
    seq![
        "Pigeon route '"@ + name + "' added to ~/.ssh/config"@,
        seq![],
        "  Fly with: ssh <user>@"@ + name,
    ]
}

/// What `add` prints, line by line.
pub fn added_lines(name: &str) -> (r: Vec<String>)
    ensures
        r@.map_values(|l: String| l@) == seq![
            "Pigeon route '"@ + name@ + "' added to ~/.ssh/config"@,
            seq![],
            "  Fly with: ssh <user>@"@ + name@,
        ],
        r@.map_values(|l: String| l@) == added_list(name@),
{
    let mut lines: Vec<String> = Vec::new();
    lines.push("Pigeon route '".to_owned().concat(name).concat("' added to ~/.ssh/config"));
    lines.push(String::new());
    lines.push("  Fly with: ssh <user>@".to_owned().concat(name));
    assert(lines@.map_values(|l: String| l@) =~= seq![
        "Pigeon route '"@ + name@ + "' added to ~/.ssh/config"@,
        seq![],
        "  Fly with: ssh <user>@"@ + name@,
    ]);
    lines
}

/// A default name is taken from the beginning of the endpoint ID, eight characters of
/// it or all where there are fewer.
pub proof fn default_names_begin_like_their_id(id: Seq<char>)
    ensures
        text::starts_with(id, id_prefix(id)),
        id.len() >= 8 ==> id_prefix(id).len() == 8,
        id.len() < 8 ==> id_prefix(id) == id,
{
    assert(id.take(id.len() as int) =~= id);
}

/// The name of a route is the given one, without the whitespace around it; the
/// endpoint ID does not matter then. Without a given name it is made from the
/// endpoint ID.
pub proof fn a_given_name_is_used(
    a: Seq<char>,
    name: Seq<char>,
    b: Seq<char>,
    id: Seq<char>,
)
    requires
        text_laws::all_white(a),
        text_laws::is_trimmed(name),
        text_laws::all_white(b),
    ensures
        wanted_name(Some(a + name + b), id) == name,
        text::no_white(id) ==> wanted_name(None, id) == "pigeon-"@ + id_prefix(id),
{
    text_laws::trimming_takes_away_outer_whitespace(a, name, b);
    if text::no_white(id) {
        reveal_strlit("pigeon-");
        let full = "pigeon-"@ + id_prefix(id);
        let none = Seq::<char>::empty();
        assert(!text::is_white(full[full.len() - 1])) by {
            if id_prefix(id).len() > 0 {
                assert(full[full.len() - 1] == id[id_prefix(id).len() - 1]);
            }
        }
        assert(full[0] == 'p');
        text_laws::trimming_takes_away_outer_whitespace(none, full, none);
        assert(none + full + none =~= full);
    }
}

/// The default name of any endpoint is accepted.
pub proof fn default_names_of_endpoints_are_accepted(key: Seq<u8>)
    requires
        key.len() == 32,
    ensures
        ({
            let name = wanted_name(None, identity::hex(key));
            &&& name.len() == 15
            &&& text::no_white(name)
            &&& all_name_chars(name)
        }),
{
    let id = identity::hex(key);
    identity::hex_digits_only(key);
    a_given_name_is_used(seq![], seq![], seq![], id);
    reveal_strlit("pigeon-");
    let name = wanted_name(None, id);
    assert forall|i: int| 0 <= i < name.len() implies !text::is_white(#[trigger] name[i])
        && is_name_char(name[i]) by {
        if i >= 7 {
            assert(name[i] == id[i - 7]);
        } else {
            assert(name[i] == "pigeon-"@[i]);
            assert(i == 0 || i == 1 || i == 2 || i == 3 || i == 4 || i == 5 || i == 6);
        }
    }
}

/// What may stand in a name, by its code: letters and digits of ASCII, the hyphen,
/// the dot and the underscore. So nothing that is whitespace or that ssh takes as a
/// pattern may.
pub proof fn characters_of_names(c: char)
    ensures
        is_name_char(c) <==> {
            let u = c as u32;
            0x30 <= u <= 0x39 || 0x41 <= u <= 0x5a || 0x61 <= u <= 0x7a || u == 0x2d || u == 0x2e
                || u == 0x5f
        },
        is_name_char(c) ==> !text::is_white(c) && c != '*' && c != '?' && c != '!' && c != '/',
        forall|s: Seq<char>| #[trigger] all_name_chars(s) && s.contains(c) ==> is_name_char(c),
{
}

/// A text is padded with blanks at its end, up to the width and no further.
pub proof fn padding_is_blanks(s: Seq<char>, width: nat)
    ensures
        text::starts_with(padded(s, width), s),
        padded(s, width).len() == if s.len() < width {
            width
        } else {
            s.len()
        },
        forall|i: int| s.len() <= i < padded(s, width).len() ==> #[trigger] padded(s, width)[i]
            == ' ',
    decreases width - s.len(),
{
    if s.len() < width {
        let t = s.push(' ');
        padding_is_blanks(t, width);
        let p = padded(s, width);
        assert(p == padded(t, width));
        assert(p.take(t.len() as int) == t);
        assert(p.take(s.len() as int) =~= p.take(t.len() as int).take(s.len() as int));
        assert(t.take(s.len() as int) =~= s);
        assert(p[s.len() as int] == p.take(t.len() as int)[s.len() as int]);
    } else {
        assert(s.take(s.len() as int) =~= s);
    }
}

/// Every route has a line of its own in the list, in order, which begins with its
/// name and ends with its endpoint. Without routes there is one line, that says so.
pub proof fn every_route_is_in_the_list(routes: Seq<(Seq<char>, Seq<char>)>, i: int)
    requires
        0 <= i < routes.len(),
    ensures
        route_list(routes).len() == routes.len() + 2,
        text::starts_with(route_list(routes)[i + 2], "  "@ + routes[i].0),
        text::ends_with(route_list(routes)[i + 2], " "@ + routes[i].1),
        route_list(seq![]).len() == 1,
{
    let (name, endpoint) = routes[i];
    let line = route_list(routes)[i + 2];
    assert(line == route_line(routes[i]));
    padding_is_blanks(name, 20);
    let p = padded(name, 20);
    text_laws::prefixes_come_first(p, name, p.skip(name.len() as int));
    assert(line =~= ("  "@ + name) + (p.skip(name.len() as int) + " "@ + endpoint));
    text_laws::prefixes_come_first(
        line,
        "  "@ + name,
        p.skip(name.len() as int) + " "@ + endpoint,
    );
    assert(line =~= ("  "@ + p) + (" "@ + endpoint));
    text_laws::suffixes_come_last(line, " "@ + endpoint, "  "@ + p);
}

/// The status of a running service tells its endpoint ID and the command that adds a
/// route to it; the status of a missing one tells neither.
pub proof fn the_status_tells_how_to_connect(key: Seq<u8>)
    ensures
        status_list(None).len() == 1,
        status_list(Some(key)).len() == 6,
        text::ends_with(status_list(Some(key))[2], identity::hex(key)),
        text::contains(
            status_list(Some(key))[5],
            "pigeons add --id "@ + identity::hex(key) + " --name my-roost"@,
        ),
{
    let h = identity::hex(key);
    text_laws::suffixes_come_last(seq![], h, "  Roost ID: "@);
    assert(status_list(Some(key))[2] == "  Roost ID: "@ + h);
    lemma_add_command();
    lemma_indented("    pigeons add --id "@, "    "@, "pigeons add --id "@, h, " --name my-roost"@);
    assert(status_list(Some(key))[5] == "    pigeons add --id "@ + h + " --name my-roost"@);
}

proof fn lemma_add_command()
    ensures
        "    pigeons add --id "@ == "    "@ + "pigeons add --id "@,
{
    reveal_strlit("    pigeons add --id ");
    reveal_strlit("pigeons add --id ");
    reveal_strlit("    ");
    assert("    pigeons add --id "@ =~= "    "@ + "pigeons add --id "@);
}

proof fn lemma_indented(
    whole: Seq<char>,
    indent: Seq<char>,
    head: Seq<char>,
    middle: Seq<char>,
    tail: Seq<char>,
)
    requires
        whole == indent + head,
    ensures
        text::contains(whole + middle + tail, head + middle + tail),
{
    let part = head + middle + tail;
    let line = whole + middle + tail;
    let k = indent.len() as int;
    assert(line =~= indent + part);
    assert(line.subrange(k, k + part.len()) =~= part);
    assert(text::occurs_at(line, part, k));
}

/// The operations that change the system are the installation, the removal and the
/// restart, whatever they are told.
pub proof fn changes_need_elevation(op: ServiceCmd)
    ensures
        op is Install || op is Uninstall || op is Restart ==> op.changes_system(),
        op is Status || op is Log ==> !op.changes_system(),
{
}

/// An error about a name shows the name.
pub proof fn errors_show_the_name(name: String)
    ensures
        text::contains(AddError::Whitespace(name).words(), name@),
        text::contains(AddError::InvalidCharacters(name).words(), name@),
{
    text_laws::parts_stand_inside("host name '"@, name@, "' cannot contain whitespace"@);
    text_laws::parts_stand_inside(
        "host name '"@,
        name@,
        "' contains invalid characters (use letters, digits, hyphens, dots, or underscores)"@,
    );
}

/// A name is accepted exactly where it is not empty and consists of the characters
/// that a name may have, and then it is the name of the route, whatever the endpoint
/// ID is. Whitespace around it does not matter; whitespace in it does.
pub proof fn names_that_are_accepted(a: Seq<char>, name: Seq<char>, b: Seq<char>, id: Seq<char>)
    requires
        text_laws::all_white(a),
        text_laws::is_trimmed(name),
        text_laws::all_white(b),
    ensures
        ({
            let verdict = name_verdict(Some(a + name + b), id);
            &&& verdict matches NameVerdict::Accepted(n) ==> n == name
            &&& verdict is Accepted <==> name.len() > 0 && forall|i: int|
                0 <= i < name.len() ==> is_name_char(#[trigger] name[i])
            &&& verdict is Empty <==> name.len() == 0
            &&& verdict is Whitespace <==> exists|i: int|
                0 <= i < name.len() && text::is_white(#[trigger] name[i])
        }),
{
    a_given_name_is_used(a, name, b, id);
    if exists|i: int| 0 <= i < name.len() && text::is_white(#[trigger] name[i]) {
        let i = choose|i: int| 0 <= i < name.len() && text::is_white(#[trigger] name[i]);
        characters_of_names(name[i]);
        assert(!is_name_char(name[i]));
        assert(!text::no_white(name));
    }
}

/// What is printed for an added route names it twice: as what was added, and as what
/// to fly to.
pub proof fn an_added_route_is_named(name: Seq<char>)
    ensures
        added_list(name).len() == 3,
        text::contains(added_list(name)[0], name),
        text::ends_with(added_list(name)[2], name),
{
    text_laws::parts_stand_inside("Pigeon route '"@, name, "' added to ~/.ssh/config"@);
    text_laws::suffixes_come_last(seq![], name, "  Fly with: ssh <user>@"@);
}

} // verus!
