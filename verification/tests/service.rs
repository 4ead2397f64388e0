use pigeons::identity::{persistent_endpoint_id, SecretKey};
use pigeons::service::firewall::{
    add_firewall_rules, firewall_rules_added, remove_firewall_rules, FirewallError,
};
use pigeons::service::linux::{LinuxService, Operation, SCRIPT_DIR, SCRIPT_SUFFIX};
use pigeons::service::{
    endpoint_id_path, install, published_endpoint_id, resolve_binary_path, restart,
    service_endpoint_id, service_log, service_log_printed, uninstall, ServiceAction, ServiceError,
    ServiceParams, ENDPOINT_ID_DIR, ENDPOINT_ID_FILE, ENDPOINT_ID_MODE, LOG_FILE,
};

fn resolve(path: &str) -> Result<Option<String>, ServiceError> {
    resolve_binary_path(true, Some(path.to_string()), path)
}

fn params(relay_url: Vec<&str>, binary_path: Option<&str>) -> ServiceParams {
    ServiceParams {
        ssh_port: 2222,
        relay_url: relay_url.into_iter().map(|u| u.to_string()).collect(),
        binary_path: binary_path.map(|p| p.to_string()),
    }
}

#[test]
fn permanent_install_locations_are_accepted() {
    for path in [
        "/usr/local/bin/pigeons",
        "/usr/bin/pigeons",
        "/opt/homebrew/bin/pigeons",
        "/opt/pigeons/bin/pigeons",
        "/usr/local/sbin/pigeons",
        "/usr/sbin/pigeons",
        "/var/usrlocal/bin/pigeons",
    ] {
        assert_eq!(resolve(path).unwrap().as_deref(), Some(path));
    }
}

#[test]
fn other_install_locations_are_refused() {
    let error = resolve("/home/me/target/debug/pigeons").unwrap_err();
    assert!(matches!(error, ServiceError::NotPermanent(_)));
    assert_eq!(
        error.message(),
        "pigeons binary is at /home/me/target/debug/pigeons, which doesn't look like a permanent install location.\n\
         Install pigeons to one of the standard paths (/usr/local/bin, /usr/bin, /opt/homebrew/bin, /opt/, /usr/local/sbin, /usr/sbin, /var/usrlocal/bin/) before running service install."
    );
    for path in [
        "/usr/bin-old/pigeons",
        "/usr/local/binaries/pigeons",
        "/usr/sbin2/pigeons",
        "/usr/local/sbin.bak/pigeons",
    ] {
        assert!(resolve(path).is_err(), "{path}");
    }
    assert!(resolve("/opt").is_err());
    assert!(resolve("/var/usrlocal/bin").is_err());
    assert!(resolve("").is_err());

    let error = resolve_binary_path(true, None, "\"/\\xFF\"").unwrap_err();
    assert_eq!(
        error.message(),
        "binary path is not valid UTF-8: \"/\\xFF\""
    );
}

#[test]
fn any_install_location_will_do_where_the_binary_is_copied() {
    assert_eq!(
        resolve_binary_path(false, Some("C:\\x".to_string()), "").unwrap(),
        Some("C:\\x".to_string())
    );
    assert_eq!(resolve_binary_path(false, None, "").unwrap(), None);
}

const TEMPLATE: &str = "exec [BINARYPATH] roost --ssh-port [SSHPORT][RELAYARGS]\n# [SSHPORT]\n";

#[test]
fn the_install_script_is_filled_in() {
    let action = install(
        "linux",
        &params(vec!["https://a/", "https://b/"], Some("/usr/bin/pigeons")),
        TEMPLATE,
    )
    .unwrap();
    match action {
        ServiceAction::Script(script) => {
            assert_eq!(script.prefix, "pigeons_install-");
            assert_eq!(
                script.content,
                "exec /usr/bin/pigeons roost --ssh-port 2222 --relay-url https://a/ --relay-url https://b/\n# 2222\n"
            );
        }
        other => panic!("{other:?}"),
    }
}

#[test]
fn places_are_filled_in_in_order() {
    let script = LinuxService::init_install_script(
        &params(vec![], Some("/p")),
        "a[SSHPORT]b[RELAYARGS]c[BINARYPATH]d",
    )
    .unwrap();
    assert_eq!(script.content, "a2222bc/pd");
    let script = LinuxService::init_install_script(
        &params(vec!["[BINARYPATH]"], Some("[SSHPORT]")),
        "[RELAYARGS]",
    )
    .unwrap();
    assert_eq!(script.content, " --relay-url [SSHPORT]");
}

#[test]
fn places_of_a_command_line_are_filled_in() {
    let script = LinuxService::init_install_script(
        &params(vec!["https://[::1]/"], Some("/opt/[x]/pigeons")),
        "ExecStart=[BINARYPATH] roost --ssh-port [SSHPORT][RELAYARGS]\n",
    )
    .unwrap();
    assert_eq!(
        script.content,
        "ExecStart=/opt/[x]/pigeons roost --ssh-port 2222 --relay-url https://[::1]/\n"
    );
}

#[test]
fn scripts_without_places_are_kept() {
    let script =
        LinuxService::init_install_script(&params(vec!["x"], Some("/p")), "#!/bin/sh\n[X]\n")
            .unwrap();
    assert_eq!(script.content, "#!/bin/sh\n[X]\n");
}

#[test]
fn a_path_that_is_not_utf8_cannot_be_filled_in() {
    let error = install("linux", &params(vec![], None), TEMPLATE).unwrap_err();
    assert!(matches!(error, ServiceError::InstallPathNotUtf8));
    assert_eq!(error.message(), "binary path is not valid UTF-8");
}

#[test]
fn the_service_manager_is_that_of_the_system() {
    let p = params(vec![], Some("/p"));
    assert!(matches!(
        install("macos", &p, TEMPLATE),
        Ok(ServiceAction::Macos)
    ));
    assert!(matches!(
        install("windows", &p, TEMPLATE),
        Ok(ServiceAction::Windows)
    ));
    let error = install("freebsd", &p, TEMPLATE).unwrap_err();
    assert_eq!(
        error.message(),
        "service mode is only supported on linux, macos, and windows"
    );
    assert!(matches!(
        uninstall("macos", ""),
        Ok(ServiceAction::Macos)
    ));
    assert!(matches!(
        uninstall("freebsd", ""),
        Err(ServiceError::Unsupported)
    ));
    assert!(matches!(restart("windows"), Ok(ServiceAction::Windows)));
    assert!(matches!(restart("freebsd"), Err(ServiceError::Unsupported)));
}

#[test]
fn systemd_does_the_rest() {
    match uninstall("linux", "bye\n").unwrap() {
        ServiceAction::Script(script) => {
            assert_eq!(script.prefix, "pigeons_uninstall-");
            assert_eq!(script.content, "bye\n");
        }
        other => panic!("{other:?}"),
    }
    match restart("linux").unwrap() {
        ServiceAction::Run(program) => {
            assert_eq!(program.name, "systemctl");
            assert_eq!(program.args, vec!["restart", "pigeons.service"]);
        }
        other => panic!("{other:?}"),
    }
    let sh = LinuxService::run_script("/tmp/x.sh");
    assert_eq!(sh.name, "sh");
    assert_eq!(sh.args, vec!["/tmp/x.sh"]);
    assert_eq!(SCRIPT_DIR, "/tmp");
    assert_eq!(SCRIPT_SUFFIX, ".sh");
}

#[test]
fn failures_of_the_service_manager_are_reported() {
    for (operation, message) in [
        (
            Operation::Install,
            "install script failed with exit code: exit status: 1",
        ),
        (
            Operation::Uninstall,
            "uninstall script failed with exit code: exit status: 1",
        ),
        (
            Operation::Restart,
            "systemctl restart failed with exit code: exit status: 1",
        ),
    ] {
        assert!(LinuxService::finished(operation, true, "exit status: 0").is_ok());
        let error = LinuxService::finished(operation, false, "exit status: 1").unwrap_err();
        assert_eq!(error.message(), message);
    }
}

#[test]
fn the_published_endpoint_id_is_read_back() {
    let id = persistent_endpoint_id(&SecretKey::from_bytes([3; 32]));
    assert_eq!(published_endpoint_id(false, &id), None);
    let content = published_endpoint_id(true, &id).unwrap();
    for text in [content.clone(), format!("  {content}\n")] {
        assert_eq!(
            service_endpoint_id(Some(&text)).unwrap().to_bytes(),
            id.to_bytes()
        );
    }
    assert!(service_endpoint_id(Some("nonsense")).is_none());
    assert!(service_endpoint_id(None).is_none());
    let path = format!("{ENDPOINT_ID_DIR}/{ENDPOINT_ID_FILE}");
    assert_eq!(endpoint_id_path("linux"), Some(path.clone()));
    assert_eq!(endpoint_id_path("macos"), Some(path));
    assert_eq!(
        endpoint_id_path("windows").as_deref(),
        Some("C:\\ProgramData\\pigeons\\endpoint_id")
    );
    assert_eq!(endpoint_id_path("freebsd"), None);
    assert_eq!(ENDPOINT_ID_MODE, 0o644);
}

#[test]
fn logs_are_printed_by_a_program() {
    let cat = service_log("macos", true).unwrap();
    assert_eq!((cat.name.as_str(), cat.args), ("cat", vec![LOG_FILE.to_string()]));
    assert_eq!(
        service_log("macos", false).unwrap_err().message(),
        "no log file found at /var/log/pigeons.log — is the service installed?"
    );
    let journal = service_log("linux", false).unwrap();
    assert_eq!(journal.name, "journalctl");
    assert_eq!(journal.args, vec!["-u", "pigeons.service", "--no-pager"]);
    assert_eq!(
        service_log("windows", true).unwrap_err().message(),
        "service log is not supported on windows"
    );
}

#[test]
fn failures_of_printing_logs_are_reported() {
    assert!(service_log_printed("macos", true).is_ok());
    assert!(service_log_printed("linux", true).is_ok());
    assert_eq!(
        service_log_printed("macos", false).unwrap_err().message(),
        "failed to read log file (try running with sudo)"
    );
    assert_eq!(
        service_log_printed("linux", false).unwrap_err().message(),
        "failed to read service journal"
    );
    assert!(matches!(
        service_log_printed("plan9", true),
        Err(ServiceError::LogUnsupported(os)) if os == "plan9"
    ));
}

#[test]
fn firewall_rules_name_the_program() {
    let program = add_firewall_rules(Some("C:\\p.exe")).unwrap();
    assert_eq!(program.name, "powershell");
    assert_eq!(
        program.args[..4],
        ["-NoProfile", "-ExecutionPolicy", "Bypass", "-Command"]
    );
    let script = &program.args[4];
    assert_eq!(script.matches("-Program 'C:\\p.exe' `\n").count(), 3);
    assert!(script.starts_with("\n$ErrorActionPreference = 'Stop'\n"));
    assert!(script.ends_with("Write-Host 'Added HTTPS rule'\n"));
    assert!(script.contains("    -RemotePort 443 `\n"));
    assert!(matches!(
        add_firewall_rules(None),
        Err(FirewallError::PathNotUtf8)
    ));
    assert_eq!(
        add_firewall_rules(None).unwrap_err().message(),
        "executable path contains invalid UTF-8"
    );
}

#[test]
fn the_rules_that_are_added_are_those_that_are_removed() {
    let added = add_firewall_rules(Some("p")).unwrap();
    let removed = remove_firewall_rules();
    assert_eq!(removed.name, "powershell");
    assert_eq!(removed.args.len(), 5);
    for rule in ["Outbound", "Inbound", "HTTPS"] {
        let name = format!("-DisplayName 'pigeons Service {rule}'");
        assert!(added.args[4].contains(&format!("New-NetFirewallRule `\n    {name}")));
        assert!(removed.args[4].contains(&format!(
            "Remove-NetFirewallRule {name} -ErrorAction Stop\n"
        )));
    }
}

#[test]
fn failures_of_the_firewall_are_reported() {
    assert!(firewall_rules_added(true, "", "").is_ok());
    assert_eq!(
        firewall_rules_added(false, "out", "err").unwrap_err().message(),
        "PowerShell failed to add firewall rules.\nStdout: out\nStderr: err"
    );
}
