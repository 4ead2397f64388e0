//! The rules of the Windows firewall that let the service reach its relays and its
//! peers.
use vstd::prelude::*;

use crate::service::Program;
use crate::text;
use crate::text_laws;

verus! {

/// The script that adds the rules, up to the program of the outbound rule.
pub const ADD_OUTBOUND: &'static str = "
$ErrorActionPreference = 'Stop'

# Remove old rules if they exist (ignore errors)
Remove-NetFirewallRule -DisplayName 'pigeons Service Outbound' -ErrorAction SilentlyContinue
Remove-NetFirewallRule -DisplayName 'pigeons Service Inbound' -ErrorAction SilentlyContinue

# Add outbound UDP rule for relay connections and STUN
New-NetFirewallRule `
    -DisplayName 'pigeons Service Outbound' `
    -Description 'Allow outbound UDP for pigeons QUIC, relay, and holepunching' `
    -Direction Outbound `
    -Action Allow `
    -Protocol UDP `
    -Program '";

/// From there to the program of the inbound rule.
pub const ADD_INBOUND: &'static str = "' `
    -Profile Any `
    -Enabled True | Out-Null

Write-Host 'Added outbound rule'

# Add inbound UDP rule for accepting holepunched connections
New-NetFirewallRule `
    -DisplayName 'pigeons Service Inbound' `
    -Description 'Allow inbound UDP for pigeons holepunching and direct connections' `
    -Direction Inbound `
    -Action Allow `
    -Protocol UDP `
    -Program '";

/// From there to the program of the HTTPS rule.
pub const ADD_HTTPS: &'static str = "' `
    -Profile Any `
    -Enabled True | Out-Null

Write-Host 'Added inbound rule'

# Also add outbound TCP rule for HTTPS relay connections
New-NetFirewallRule `
    -DisplayName 'pigeons Service HTTPS' `
    -Description 'Allow outbound HTTPS for pigeons relay server connections' `
    -Direction Outbound `
    -Action Allow `
    -Protocol TCP `
    -Program '";

/// From there to the end.
pub const ADD_END: &'static str = "' `
    -RemotePort 443 `
    -Profile Any `
    -Enabled True | Out-Null

Write-Host 'Added HTTPS rule'
";

/// The script that removes the rules.
pub const REMOVE: &'static str = "
$ErrorActionPreference = 'Stop'

Remove-NetFirewallRule -DisplayName 'pigeons Service Outbound' -ErrorAction Stop
Write-Host 'Removed outbound rule'

Remove-NetFirewallRule -DisplayName 'pigeons Service Inbound' -ErrorAction Stop
Write-Host 'Removed inbound rule'

Remove-NetFirewallRule -DisplayName 'pigeons Service HTTPS' -ErrorAction Stop
Write-Host 'Removed HTTPS rule'
";

/// Why the rules could not be added.
#[derive(Debug)]
pub enum FirewallError {
    /// The path of the program is not UTF-8.
    PathNotUtf8,
    /// PowerShell failed; what it printed on its standard output and error.
    PowerShell(String, String),
}

impl FirewallError {
    /// The error in words.
    pub open spec fn words(self) -> Seq<char> {
        match self {
            FirewallError::PathNotUtf8 => "executable path contains invalid UTF-8"@,
            FirewallError::PowerShell(
                stdout,
                stderr,
            ) => "PowerShell failed to add firewall rules.\nStdout: "@ + stdout@ + "\nStderr: "@
                + stderr@,
        }
    }

    /// The error in words.
    pub fn message(&self) -> (r: String)
        ensures
            r@ == self.words(),
    {
        match self {
            FirewallError::PathNotUtf8 => "executable path contains invalid UTF-8".to_owned(),
            FirewallError::PowerShell(stdout, stderr) => {
                "PowerShell failed to add firewall rules.\nStdout: ".to_owned().concat(
                    stdout.as_str(),
                ).concat("\nStderr: ").concat(stderr.as_str())
            },
        }
    }
}

/// The script that adds the rules for a program: one for outbound UDP, one for
/// inbound UDP and one for outbound HTTPS. Each of them names the program.
pub open spec fn add_script(program: Seq<char>) -> Seq<char> {
    ADD_OUTBOUND@ + program + ADD_INBOUND@ + program + ADD_HTTPS@ + program + ADD_END@
}

/// The script that removes those rules.
pub open spec fn remove_script() -> Seq<char> {
    REMOVE@
}

/// The arguments that make PowerShell run a script.
pub open spec fn powershell_args(script: Seq<char>) -> Seq<Seq<char>> {
    seq!["-NoProfile"@, "-ExecutionPolicy"@, "Bypass"@, "-Command"@, script]
}

/// The program that runs a PowerShell script.
fn powershell(script: String) -> (r: Program)
    ensures
        r@ == ("powershell"@, powershell_args(script@)),
{
    let p = Program {
        name: "powershell".to_owned(),
        args: vec![
            "-NoProfile".to_owned(),
            "-ExecutionPolicy".to_owned(),
            "Bypass".to_owned(),
            "-Command".to_owned(),
            script,
        ],
    };
    assert(p@.1 =~= powershell_args(script@));
    p
}

/// The program that adds the rules for an executable, by the path of that, which
/// is nothing where it is not UTF-8.
pub fn add_firewall_rules(executable_path: Option<&str>) -> (r: Result<Program, FirewallError>)
    ensures
        match executable_path {
            Some(path) => r matches Ok(p) && p@ == ("powershell"@, powershell_args(
                add_script(path@),
            )),
            None => r matches Err(FirewallError::PathNotUtf8),
        },
{
    match executable_path {
        Some(path) => {
            let script = ADD_OUTBOUND.to_owned().concat(path).concat(ADD_INBOUND).concat(
                path,
            ).concat(ADD_HTTPS).concat(path).concat(ADD_END);
            Ok(powershell(script))
        },
        None => Err(FirewallError::PathNotUtf8),
    }
}

/// What comes of the program that adds the rules.
pub fn firewall_rules_added(success: bool, stdout: &str, stderr: &str) -> (r: Result<
    (),
    FirewallError,
>)
    ensures
        if success {
            r is Ok
        } else {
            r matches Err(FirewallError::PowerShell(o, e)) && o@ == stdout@ && e@ == stderr@
        },
{
    if success {
        Ok(())
    } else {
        Err(FirewallError::PowerShell(stdout.to_owned(), stderr.to_owned()))
    }
}

/// The program that removes the rules. That it fails is no error: the rules may
/// not be there.
pub fn remove_firewall_rules() -> (r: Program)
    ensures
        r@ == ("powershell"@, powershell_args(remove_script())),
{
    powershell(REMOVE.to_owned())
}

/// The script names the program three times, once for each rule, and is the same for
/// every program otherwise.
pub proof fn every_rule_names_the_program(program: Seq<char>, other: Seq<char>)
    ensures
        exists|a: Seq<char>, b: Seq<char>, c: Seq<char>, d: Seq<char>|
            {
                &&& add_script(program) == #[trigger] (a + program + b + program + c + program + d)
                &&& add_script(other) == a + other + b + other + c + other + d
            },
{
    assert(add_script(program) == ADD_OUTBOUND@ + program + ADD_INBOUND@ + program + ADD_HTTPS@
        + program + ADD_END@);
}

/// A failure shows what PowerShell printed.
pub proof fn a_failure_shows_what_was_printed(stdout: String, stderr: String)
    ensures
        text::contains(FirewallError::PowerShell(stdout, stderr).words(), stdout@),
        text::ends_with(FirewallError::PowerShell(stdout, stderr).words(), stderr@),
{
    let head = "PowerShell failed to add firewall rules.\nStdout: "@;
    let mid = "\nStderr: "@;
    let none = Seq::<char>::empty();
    text_laws::parts_stand_inside(head, stdout@, mid + stderr@);
    assert(head + stdout@ + mid + stderr@ =~= head + stdout@ + (mid + stderr@));
    text_laws::suffixes_come_last(none, stderr@, head + stdout@ + mid);
}

} // verus!
