use pigeons::cli::{
    added_lines, default_route_name, list_lines, new_route, route_name, route_to, status_lines,
    AddArgs, AddError, ServiceCmd,
};
use pigeons::identity::{persistent_endpoint_id, EndpointId, KeyParseError, SecretKey};
use pigeons::ssh::SshConfigPigeonEntry;

const ID: &str = "ae58ff8833241ac82d6ff7611046ed67b5072d142c588d0063e942d9a75502b6";

fn add(id: &str, name: Option<&str>) -> AddArgs {
    AddArgs {
        id: id.to_string(),
        name: name.map(|n| n.to_string()),
    }
}

#[test]
fn default_route_name_uses_id_prefix() {
    assert_eq!(
        default_route_name("bb8e1a5661a6dfa9ae2dd978922f30f5"),
        "pigeon-bb8e1a56"
    );
}

#[test]
fn default_route_name_handles_short_ids() {
    assert_eq!(default_route_name("abc"), "pigeon-abc");
    assert_eq!(default_route_name(""), "pigeon-");
}

/// The ID is not validated until after the name is derived, so it is cut by
/// characters and never by bytes.
#[test]
fn default_route_name_does_not_split_multibyte_characters() {
    // 9 characters in, 8 characters out.
    assert_eq!(
        default_route_name("日本語テストデータ"),
        "pigeon-日本語テストデー"
    );
}

#[test]
fn route_names_are_trimmed() {
    assert_eq!(route_name(&add("x", Some("  home \n"))).unwrap(), "home");
    assert_eq!(route_name(&add("0123456789", None)).unwrap(), "pigeon-01234567");
}

#[test]
fn route_names_that_are_no_host_names_are_refused() {
    let empty = route_name(&add("x", Some(" \t "))).unwrap_err();
    assert!(matches!(empty, AddError::EmptyName));
    assert_eq!(empty.message(), "host name cannot be empty");

    let white = route_name(&add("x", Some("my server"))).unwrap_err();
    assert!(matches!(white, AddError::Whitespace(_)));
    assert_eq!(
        white.message(),
        "host name 'my server' cannot contain whitespace"
    );

    let odd = route_name(&add("x", Some("my*server"))).unwrap_err();
    assert!(matches!(odd, AddError::InvalidCharacters(_)));
    assert_eq!(
        odd.message(),
        "host name 'my*server' contains invalid characters (use letters, digits, hyphens, dots, or underscores)"
    );

    // Letters and digits are those of ASCII.
    assert!(matches!(
        route_name(&add("x", Some("ä"))),
        Err(AddError::InvalidCharacters(_))
    ));
    assert_eq!(route_name(&add("x", Some("a-B.9_"))).unwrap(), "a-B.9_");
}

#[test]
fn new_routes_have_a_name_and_an_endpoint() {
    let route = new_route(&add(ID, Some("home"))).unwrap();
    assert_eq!(route.name, "home");
    assert_eq!(route.endpoint_id.to_hex(), ID);

    // The name is checked before the endpoint ID.
    assert!(matches!(
        new_route(&add("abc", Some(""))),
        Err(AddError::EmptyName)
    ));
    assert!(matches!(
        new_route(&add("abc", Some("home"))),
        Err(AddError::EndpointId(KeyParseError::Length))
    ));
}

#[test]
fn routes_lead_to_what_was_read() {
    let id = EndpointId::parse(ID).unwrap();
    let route = route_to(&add("whatever", Some("home")), Ok(id)).unwrap();
    assert_eq!(route.endpoint_id.to_bytes(), id.to_bytes());
    assert!(matches!(
        route_to(&add("whatever", Some("home")), Err(KeyParseError::Hex)),
        Err(AddError::EndpointId(KeyParseError::Hex))
    ));
}

#[test]
fn routes_are_listed_in_columns() {
    assert_eq!(list_lines(&vec![]), vec!["No pigeon routes configured."]);
    let entries = vec![
        SshConfigPigeonEntry {
            name: "home".to_string(),
            endpoint_id: "ABC".to_string(),
        },
        SshConfigPigeonEntry {
            name: "a-name-of-more-than-twenty-characters".to_string(),
            endpoint_id: "DEF".to_string(),
        },
    ];
    assert_eq!(
        list_lines(&entries),
        vec![
            "Pigeon routes:".to_string(),
            String::new(),
            format!("  {:<20} {}", "home", "ABC"),
            "  a-name-of-more-than-twenty-characters DEF".to_string(),
        ]
    );
}

#[test]
fn status_tells_how_to_connect() {
    assert_eq!(status_lines(None), vec!["Service:       not installed"]);
    let id = persistent_endpoint_id(&SecretKey::from_bytes([7; 32]));
    let hex = id.to_hex();
    assert_eq!(
        status_lines(Some(id)),
        vec![
            "Service:       running".to_string(),
            String::new(),
            format!("  Roost ID: {hex}"),
            String::new(),
            "  Connect with:".to_string(),
            format!("    pigeons add --id {hex} --name my-roost"),
        ]
    );
}

#[test]
fn adding_tells_how_to_fly() {
    assert_eq!(
        added_lines("home"),
        vec![
            "Pigeon route 'home' added to ~/.ssh/config",
            "",
            "  Fly with: ssh <user>@home"
        ]
    );
}

#[test]
fn only_changes_to_the_service_need_elevation() {
    let install = ServiceCmd::Install {
        ssh_port: 22,
        relay_url: vec![],
    };
    assert!(install.must_elevate(false));
    assert!(!install.must_elevate(true));
    assert!(ServiceCmd::Uninstall.must_elevate(false));
    assert!(ServiceCmd::Restart.must_elevate(false));
    assert!(!ServiceCmd::Status.must_elevate(false));
    assert!(!ServiceCmd::Log.must_elevate(false));
}
