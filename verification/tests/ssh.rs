use pigeons::identity::EndpointId;
use pigeons::ssh::{
    add_tunnel_host, list_tunnel_hosts, parse_pigeons_proxy_command, remove_host_block,
    remove_tunnel_host, SshConfigError, SshConfigPigeonEntry,
};

const PIGEON_BLOCK: &str = "Host my-server\n    ProxyCommand pigeons fly --stdio ABC\n";

const ID: &str = "ae58ff8833241ac82d6ff7611046ed67b5072d142c588d0063e942d9a75502b6";

fn routes(content: &str) -> Vec<(String, String)> {
    list_tunnel_hosts(Some(content))
        .into_iter()
        .map(|e| (e.name, e.endpoint_id))
        .collect()
}

fn pair(name: &str, endpoint: &str) -> (String, String) {
    (name.to_string(), endpoint.to_string())
}

#[test]
fn remove_host_block_leaves_content_alone_when_host_is_absent() {
    let content = "Host other\n    HostName example.com\n";

    assert_eq!(remove_host_block(content, "my-server").unwrap(), content);
}

#[test]
fn remove_host_block_removes_a_pigeon_entry() {
    assert_eq!(remove_host_block(PIGEON_BLOCK, "my-server").unwrap(), "");
}

/// Adding a route reuses this to replace an existing entry. A name already
/// taken by a host that isn't ours has to be rejected: appending regardless
/// would leave two `Host` blocks, and ssh honours the first, so the new
/// route would never take effect.
#[test]
fn remove_host_block_rejects_a_host_that_is_not_ours() {
    let content = "Host my-server\n    HostName example.com\n";

    let err = remove_host_block(content, "my-server")
        .unwrap_err()
        .message("~/.ssh/config");

    assert!(err.contains("not configured to use pigeons"), "got: {err}");
    assert_eq!(err, "host 'my-server' is not configured to use pigeons");
}

#[test]
fn remove_host_block_keeps_unrelated_hosts() {
    let keep = "Host keep-me\n    HostName example.com\n";

    assert_eq!(
        remove_host_block(&format!("{keep}{PIGEON_BLOCK}"), "my-server").unwrap(),
        keep
    );
    assert_eq!(
        remove_host_block(&format!("{PIGEON_BLOCK}{keep}"), "my-server").unwrap(),
        keep
    );
}

/// A foreign block is not removed along with ours, wherever it stands.
#[test]
fn remove_host_block_rejects_a_foreign_block_beside_ours() {
    let foreign = "Host my-server\n    HostName example.com\n";
    for content in [
        format!("{PIGEON_BLOCK}{foreign}"),
        format!("{foreign}{PIGEON_BLOCK}"),
    ] {
        assert!(matches!(
            remove_host_block(&content, "my-server"),
            Err(SshConfigError::NotPigeons(name)) if name == "my-server"
        ));
    }
}

#[test]
fn removal_is_by_the_whole_name() {
    let content = "Host my-server-2\n    ProxyCommand pigeons fly --stdio ABC\n";
    assert_eq!(remove_host_block(content, "my-server").unwrap(), content);
}

#[test]
fn removal_twice_is_removal_once() {
    let content = format!("# mine\n\n{PIGEON_BLOCK}\nHost keep\n    User me\n");
    let once = remove_host_block(&content, "my-server").unwrap();
    let twice = remove_host_block(&once, "my-server").unwrap();
    assert_eq!(once, "# mine\n\nHost keep\n    User me\n");
    assert_eq!(twice, once);
}

#[test]
fn proxy_commands_name_their_endpoint() {
    assert_eq!(
        parse_pigeons_proxy_command("pigeons fly --stdio ABC"),
        Some("ABC".to_string())
    );
    assert_eq!(parse_pigeons_proxy_command("ssh -W %h:%p jump"), None);
    assert_eq!(parse_pigeons_proxy_command(""), None);
}

#[test]
fn added_routes_are_listed() {
    let id = EndpointId::parse(ID).unwrap();
    let first = add_tunnel_host(None, "home", &id).unwrap();
    assert_eq!(
        first,
        format!(
            "Host home\n    ProxyCommand pigeons fly --stdio {ID}\n    UserKnownHostsFile /dev/null\n    StrictHostKeyChecking no\n"
        )
    );
    assert_eq!(routes(&first), vec![pair("home", ID)]);

    let second = add_tunnel_host(Some(PIGEON_BLOCK), "home", &id).unwrap();
    assert_eq!(second, format!("{PIGEON_BLOCK}\n{first}"));
    assert_eq!(routes(&second), vec![pair("my-server", "ABC"), pair("home", ID)]);

    // A text that does not end its last line is given a newline first.
    let third = add_tunnel_host(Some("Host x"), "home", &id).unwrap();
    assert_eq!(third, format!("Host x\n\n{first}"));
}

#[test]
fn adding_replaces_a_route_of_the_same_name() {
    let id = EndpointId::parse(ID).unwrap();
    let replaced = add_tunnel_host(Some(PIGEON_BLOCK), "my-server", &id).unwrap();
    assert_eq!(routes(&replaced), vec![pair("my-server", ID)]);
    let again = add_tunnel_host(Some(&replaced), "my-server", &id).unwrap();
    assert_eq!(again, replaced);
}

#[test]
fn adding_refuses_a_name_that_is_taken() {
    let id = EndpointId::parse(ID).unwrap();
    assert!(matches!(
        add_tunnel_host(Some("Host home\n    HostName example.com\n"), "home", &id),
        Err(SshConfigError::NotPigeons(name)) if name == "home"
    ));
}

#[test]
fn removing_undoes_adding() {
    let id = EndpointId::parse(ID).unwrap();
    let before = "Host keep-me\n    HostName example.com\n";
    let with = add_tunnel_host(Some(before), "home", &id).unwrap();
    assert_eq!(remove_tunnel_host(Some(&with), "home").unwrap(), before);
}

#[test]
fn removing_what_is_not_there_is_an_error() {
    let none = remove_tunnel_host(None, "home").unwrap_err();
    assert!(matches!(none, SshConfigError::NoConfig));
    assert_eq!(
        none.message("/home/pigeon/.ssh/config"),
        "no ssh config found at /home/pigeon/.ssh/config"
    );
    let absent = remove_tunnel_host(Some(PIGEON_BLOCK), "home").unwrap_err();
    assert!(matches!(absent, SshConfigError::NoHost(_)));
    assert_eq!(absent.message(""), "no host 'home' found in ssh config");
}

#[test]
fn added_endpoints_read_back() {
    let id = EndpointId::parse(ID).unwrap();
    let config = add_tunnel_host(Some(PIGEON_BLOCK), "home", &id).unwrap();
    let listed = list_tunnel_hosts(Some(&config));
    let last = listed.last().unwrap();
    assert_eq!(
        EndpointId::parse(&last.endpoint_id).unwrap().to_bytes(),
        id.to_bytes()
    );
}

#[test]
fn routes_are_those_of_pigeons_alone() {
    assert!(list_tunnel_hosts(None).is_empty());
    let content = "Host a\n    ProxyCommand ssh -W %h:%p jump\nHost b\n  ProxyCommand pigeons fly --stdio X\n\nHost c\n";
    assert_eq!(routes(content), vec![pair("b", "X")]);
}

/// A host is listed whatever options its pigeon flies with.
#[test]
fn routes_with_options_are_listed() {
    let content = "Host a\n    ProxyCommand pigeons fly --key-dir /k --stdio ABC\n";
    assert_eq!(routes(content), vec![pair("a", "ABC")]);
    for (command, endpoint) in [
        ("pigeons fly ABC --stdio", "ABC"),
        ("pigeons  fly --relay-url https://r/ --direct-address 1.2.3.4:5 ABC", "ABC"),
        ("pigeons fly --key-dir=/k --stdio ABC", "ABC"),
        ("pigeons fly --stdio ABC --key-dir /k", "ABC"),
        ("pigeons fly --key-dir", ""),
        ("pigeons fly --stdio", ""),
        ("pigeons fly", ""),
    ] {
        let content = format!("Host a\n    ProxyCommand {command}\n");
        assert_eq!(routes(&content), vec![pair("a", endpoint)], "{command}");
        // What is listed can be removed.
        assert_eq!(remove_host_block(&content, "a").unwrap(), "");
    }
    for command in ["pigeons roost", "pigeons flyaway ABC", "sudo pigeons fly --stdio ABC"] {
        let content = format!("Host a\n    ProxyCommand {command}\n");
        assert!(routes(&content).is_empty(), "{command}");
    }
}

/// A block flies to the endpoint of its last `pigeons fly --stdio`, and to that of
/// another flight only where there is none.
#[test]
fn the_last_stdio_flight_of_a_block_counts() {
    for (first, second, endpoint) in [
        ("pigeons fly --stdio X", "pigeons fly Y", "X"),
        ("pigeons fly --stdio X", "pigeons fly", "X"),
        ("pigeons fly Y", "pigeons fly --stdio X", "X"),
        ("pigeons fly --stdio X", "pigeons fly --stdio Z", "Z"),
        ("pigeons fly Y", "pigeons fly --key-dir /k Z", "Z"),
        ("pigeons fly --stdio X", "ssh -W %h:%p jump", "X"),
    ] {
        let content =
            format!("Host a\n    ProxyCommand {first}\n    ProxyCommand {second}\nHost b\n");
        assert_eq!(routes(&content), vec![pair("a", endpoint)], "{first}; {second}");
    }
}

#[test]
fn a_route_is_shown_with_an_arrow() {
    let entry = SshConfigPigeonEntry {
        name: "home".to_string(),
        endpoint_id: "ABC".to_string(),
    };
    assert_eq!(entry.display(), "home -> ABC");
}
