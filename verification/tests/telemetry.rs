use pigeons::cli::{AddArgs, Cmd, EndpointIdArgs, FlyArgs, RoostArgs, ServiceCmd};
use pigeons::config::{Config, ConfigError};
use pigeons::telemetry::{
    ask_about_telemetry_once, read_yes_no, should_ask_about_telemetry, thanks, AskAction, AskEvent,
    AskState, YesNo, TELEMETRY_PITCH,
};

/// Reads lines until one of them is an answer.
fn answer(input: &str, default: bool) -> Option<bool> {
    let mut lines = input.split_inclusive('\n');
    loop {
        match read_yes_no(lines.next(), default) {
            YesNo::Answer(answer) => return Some(answer),
            YesNo::NoAnswer => return None,
            YesNo::AskAgain => {}
        }
    }
}

#[test]
fn read_yes_no_accepts_both_spellings_in_any_case() {
    assert_eq!(answer("y\n", false), Some(true));
    assert_eq!(answer("YES\n", false), Some(true));
    assert_eq!(answer("  n  \n", true), Some(false));
    assert_eq!(answer("No\n", true), Some(false));
}

#[test]
fn read_yes_no_takes_the_default_on_a_bare_newline() {
    assert_eq!(answer("\n", true), Some(true));
    assert_eq!(answer("\n", false), Some(false));
}

#[test]
fn read_yes_no_reprompts_until_the_answer_parses() {
    assert_eq!(answer("maybe\nsure\nn\n", true), Some(false));
}

#[test]
fn read_yes_no_returns_none_at_end_of_input() {
    assert_eq!(answer("", true), None);
    assert_eq!(answer("maybe\n", true), None);
}

/// The command may be interrupted wherever the terminal allows it.
fn asks(cmd: &Cmd) -> bool {
    should_ask_about_telemetry(cmd, false, true, true)
}

fn fly(stdio: bool) -> Cmd {
    Cmd::Fly(FlyArgs {
        public_key: "abc".to_string(),
        stdio,
        key_dir: None,
        direct_address: vec![],
        relay_url: vec![],
    })
}

#[test]
fn telemetry_question_skips_ssh_proxy_command() {
    assert!(!asks(&fly(true)));
    assert!(asks(&fly(false)));
}

/// Reporting commands are not a setup step.
#[test]
fn telemetry_question_skips_read_only_commands() {
    assert!(!asks(&Cmd::List));
    assert!(!asks(&Cmd::Version));
    assert!(!asks(&Cmd::Paths));
    assert!(!asks(&Cmd::EndpointId(EndpointIdArgs { key_dir: None })));
    assert!(!asks(&Cmd::Service {
        op: ServiceCmd::Status
    }));
}

#[test]
fn telemetry_question_comes_with_setup_commands() {
    assert!(asks(&Cmd::Roost(RoostArgs {
        ssh_port: 22,
        ephemeral: false,
        relay_url: vec![],
    })));
    assert!(asks(&Cmd::Add(AddArgs {
        id: "abc".to_string(),
        name: None,
    })));
    assert!(asks(&Cmd::Service {
        op: ServiceCmd::Install {
            ssh_port: 22,
            relay_url: vec![],
        }
    }));
}

#[test]
fn telemetry_question_needs_a_person_at_a_terminal() {
    assert!(!should_ask_about_telemetry(&fly(false), true, true, true));
    assert!(!should_ask_about_telemetry(&fly(false), false, false, true));
    assert!(!should_ask_about_telemetry(&fly(false), false, true, false));
}

fn run(events: Vec<AskEvent>) -> (AskState, Option<AskAction>) {
    let mut state = AskState::Start;
    let mut action = None;
    for event in events {
        let (next, called_for) = ask_about_telemetry_once(state, event);
        state = next;
        action = Some(called_for);
    }
    (state, action)
}

fn unanswered() -> AskEvent {
    AskEvent::Loaded(Ok(Config {
        telemetry_enabled: None,
    }))
}

#[test]
fn the_answer_is_stored_and_acknowledged() {
    for enabled in [true, false] {
        let events = || {
            vec![
                AskEvent::MayAsk(true),
                AskEvent::ConfigPlace(true),
                unanswered(),
                AskEvent::Line(YesNo::AskAgain),
                AskEvent::Line(YesNo::Answer(enabled)),
            ]
        };
        let (_, action) = run(events());
        assert!(
            matches!(action, Some(AskAction::Store(config)) if config.telemetry_enabled == Some(enabled))
        );

        let mut stored = events();
        stored.push(AskEvent::Stored(true));
        let (state, action) = run(stored);
        assert!(matches!(state, AskState::Over));
        assert!(matches!(action, Some(AskAction::Thank(e)) if e == enabled));

        let mut failed = events();
        failed.push(AskEvent::Stored(false));
        assert!(matches!(run(failed).1, Some(AskAction::Apologize)));
    }
}

#[test]
fn a_stored_answer_is_not_asked_for_again() {
    for enabled in [true, false] {
        let (state, action) = run(vec![
            AskEvent::MayAsk(true),
            AskEvent::ConfigPlace(true),
            AskEvent::Loaded(Ok(Config {
                telemetry_enabled: Some(enabled),
            })),
        ]);
        assert!(matches!(state, AskState::Over));
        assert!(matches!(action, Some(AskAction::Proceed)));
    }
}

#[test]
fn nothing_is_asked_where_the_answer_could_not_go() {
    assert!(matches!(
        run(vec![AskEvent::MayAsk(false)]).1,
        Some(AskAction::Proceed)
    ));
    assert!(matches!(
        run(vec![AskEvent::MayAsk(true), AskEvent::ConfigPlace(false)]).1,
        Some(AskAction::Proceed)
    ));
    assert!(matches!(
        run(vec![
            AskEvent::MayAsk(true),
            AskEvent::ConfigPlace(true),
            AskEvent::Loaded(Err(ConfigError::NoConfigDir)),
        ])
        .1,
        Some(AskAction::Proceed)
    ));
}

#[test]
fn no_answer_leaves_the_config_alone() {
    let so_far = || {
        vec![
            AskEvent::MayAsk(true),
            AskEvent::ConfigPlace(true),
            unanswered(),
        ]
    };
    assert!(matches!(run(so_far()).1, Some(AskAction::Ask)));
    let mut ended = so_far();
    ended.push(AskEvent::Line(YesNo::NoAnswer));
    assert!(matches!(run(ended).1, Some(AskAction::EndLine)));
    let mut failed = so_far();
    failed.push(AskEvent::ReadFailed);
    assert!(matches!(run(failed).1, Some(AskAction::Proceed)));
}

#[test]
fn the_question_is_put_into_words() {
    assert!(TELEMETRY_PITCH.starts_with("pigeons can send anonymous metrics"));
    assert!(TELEMETRY_PITCH.ends_with("nothing about the machines you connect to."));
    assert_eq!(TELEMETRY_PITCH.lines().count(), 4);
    assert_eq!(
        thanks(true, "/x"),
        "Thanks! Set telemetry_enabled = false in /x to turn metrics off."
    );
    assert_eq!(
        thanks(false, "/x"),
        "No metrics will be sent. Set telemetry_enabled = true in /x to opt in."
    );
}
