//! The telemetry question: when it may be asked, what counts as an answer, and
//! what is done with one.
use vstd::prelude::*;

use crate::cli::{Cmd, ServiceCmd};
use crate::config::{Config, ConfigError};
use crate::text;
use crate::text_laws;

verus! {

/// What is said before the question is asked.
pub const TELEMETRY_PITCH: &'static str = "pigeons can send anonymous metrics to help us develop iroh, the peer-to-peer\nnetwork it flies over. They are counts of: relay usage,\nhole-punching success, bytes moved. No hostnames, no usernames, no SSH\ntraffic, and nothing about the machines you connect to.";

/// Whether a command sets pigeons up. `fly --stdio` does not: it is the
/// `ProxyCommand` of ssh, and a question would corrupt the tunnel.
pub open spec fn is_setup(cmd: Cmd) -> bool {
    match cmd {
        Cmd::Fly(args) => !args.stdio,
        Cmd::Roost(_) => true,
        Cmd::Add(_) => true,
        Cmd::Service { op } => op is Install,
        _ => false,
    }
}

/// Whether a command may be interrupted with the telemetry question.
pub open spec fn may_ask(
    cmd: Cmd,
    is_elevated: bool,
    stdin_is_terminal: bool,
    stderr_is_terminal: bool,
) -> bool {
    is_setup(cmd) && !is_elevated && stdin_is_terminal && stderr_is_terminal
}

/// Whether a command may be interrupted with the telemetry question: only a
/// person who sets pigeons up at a terminal, and not elevated, should ever see it.
pub fn should_ask_about_telemetry(
    cmd: &Cmd,
    is_elevated: bool,
    stdin_is_terminal: bool,
    stderr_is_terminal: bool,
) -> (r: bool)
    ensures
        r == (is_setup(*cmd) && !is_elevated && stdin_is_terminal && stderr_is_terminal),
        r == may_ask(*cmd, is_elevated, stdin_is_terminal, stderr_is_terminal),
{
    let setup_command = match cmd {
        Cmd::Fly(args) => !args.stdio,
        Cmd::Roost(_) | Cmd::Add(_) => true,
        Cmd::Service { op: ServiceCmd::Install { .. } } => true,
        _ => false,
    };
    setup_command && !is_elevated && stdin_is_terminal && stderr_is_terminal
}

// ---------------------------------------------------------------------------
// Yes or no
// ---------------------------------------------------------------------------

/// What to make of the next line of an answer.
#[derive(Debug, Clone, Copy, PartialEq, Eq, Structural)]
pub enum YesNo {
    /// It is a yes or a no.
    Answer(bool),
    /// The input has ended without an answer, which is not a no.
    NoAnswer,
    /// It is neither: ask again.
    AskAgain,
}

/// What to make of a line, where an empty one stands for `default`.
pub open spec fn yes_no(line: Seq<char>, default: bool) -> YesNo {
    let word = text::lower(text::trim(line));
    if word.len() == 0 {
        YesNo::Answer(default)
    } else if word == "y"@ || word == "yes"@ {
        YesNo::Answer(true)
    } else if word == "n"@ || word == "no"@ {
        YesNo::Answer(false)
    } else {
        YesNo::AskAgain
    }
}

/// What to make of the next line that was read, or of the end of the input. An
/// empty line takes `default`.
pub fn read_yes_no(line: Option<&str>, default: bool) -> (r: YesNo)
    ensures
        r == (match line {
            Some(l) => yes_no(l@, default),
            None => YesNo::NoAnswer,
        }),
{
    let line = match line {
        Some(line) => line,
        None => {
            return YesNo::NoAnswer;
        },
    };
    let word = text::lowered(&text::trimmed(&text::chars_of(line)));
    if word.len() == 0 {
        YesNo::Answer(default)
    } else if text::same(&word, &text::chars_of("y")) || text::same(&word, &text::chars_of("yes")) {
        YesNo::Answer(true)
    } else if text::same(&word, &text::chars_of("n")) || text::same(&word, &text::chars_of("no")) {
        YesNo::Answer(false)
    } else {
        YesNo::AskAgain
    }
}

// ---------------------------------------------------------------------------
// Asking once
// ---------------------------------------------------------------------------

/// Where the question has got to.
#[derive(Debug, Clone)]
pub enum AskState {
    /// It is not yet known whether the question may be asked.
    Start,
    /// The place of the user's configuration is being found.
    FindingConfig,
    /// The user's configuration is being loaded.
    Loading,
    /// The question is being asked; the configuration that the answer goes into.
    Asking(Config),
    /// The answer is being stored.
    Storing(Config),
    /// The question is over.
    Over,
}

/// What has happened.
#[derive(Debug)]
pub enum AskEvent {
    /// Whether the command may be interrupted.
    MayAsk(bool),
    /// Whether the user's configuration has a place.
    ConfigPlace(bool),
    /// The user's configuration was loaded.
    Loaded(Result<Config, ConfigError>),
    /// What to make of the next line of the answer.
    Line(YesNo),
    /// The answer could not be read.
    ReadFailed,
    /// Whether the answer was stored.
    Stored(bool),
}

/// What to do next.
#[derive(Debug, Clone)]
pub enum AskAction {
    /// Find the place of the user's configuration.
    FindConfig,
    /// Load the user's configuration.
    LoadUser,
    /// Say the pitch and ask the question.
    Ask,
    /// Ask again for a yes or a no.
    AskAgain,
    /// Store the configuration as the user's.
    Store(Config),
    /// Say that the answer is stored, and how to change it.
    Thank(bool),
    /// Say that the answer could not be stored.
    Apologize,
    /// End the line of the question, which got no answer.
    EndLine,
    /// Go on with the command without a word.
    Proceed,
}

/// What follows on an event.
pub open spec fn asked(state: AskState, event: AskEvent) -> (AskState, AskAction) {
    match (state, event) {
        (AskState::Start, AskEvent::MayAsk(true)) => (
            AskState::FindingConfig,
            AskAction::FindConfig,
        ),
        (AskState::FindingConfig, AskEvent::ConfigPlace(true)) => (
            AskState::Loading,
            AskAction::LoadUser,
        ),
        // A configuration that could not be loaded must not be overwritten, and
        // one with an answer in it needs no other.
        (AskState::Loading, AskEvent::Loaded(Ok(config))) => if config.telemetry_enabled is None {
            (AskState::Asking(config), AskAction::Ask)
        } else {
            (AskState::Over, AskAction::Proceed)
        },
        (AskState::Asking(config), AskEvent::Line(YesNo::AskAgain)) => (
            AskState::Asking(config),
            AskAction::AskAgain,
        ),
        (AskState::Asking(config), AskEvent::Line(YesNo::Answer(enabled))) => {
            let answered = Config { telemetry_enabled: Some(enabled), ..config };
            (AskState::Storing(answered), AskAction::Store(answered))
        },
        (AskState::Asking(_), AskEvent::Line(YesNo::NoAnswer)) => (
            AskState::Over,
            AskAction::EndLine,
        ),
        (AskState::Storing(answered), AskEvent::Stored(true)) => (
            AskState::Over,
            AskAction::Thank(answered.telemetry_enabled == Some(true)),
        ),
        (AskState::Storing(_), AskEvent::Stored(false)) => (AskState::Over, AskAction::Apologize),
        _ => (AskState::Over, AskAction::Proceed),
    }
}

/// One step of asking about telemetry the first time that someone sets pigeons
/// up. A failure on the way never stops the command itself.
pub fn ask_about_telemetry_once(state: AskState, event: AskEvent) -> (r: (AskState, AskAction))
    ensures
        r == asked(state, event),
{
    match (state, event) {
        (AskState::Start, AskEvent::MayAsk(true)) => (
            AskState::FindingConfig,
            AskAction::FindConfig,
        ),
        (AskState::FindingConfig, AskEvent::ConfigPlace(true)) => (
            AskState::Loading,
            AskAction::LoadUser,
        ),
        (AskState::Loading, AskEvent::Loaded(Ok(config))) => {
            if config.telemetry_enabled.is_none() {
                (AskState::Asking(config), AskAction::Ask)
            } else {
                (AskState::Over, AskAction::Proceed)
            }
        },
        (AskState::Asking(config), AskEvent::Line(line)) => match line {
            YesNo::AskAgain => (AskState::Asking(config), AskAction::AskAgain),
            YesNo::NoAnswer => (AskState::Over, AskAction::EndLine),
            YesNo::Answer(enabled) => {
                let mut answered = config;
                answered.telemetry_enabled = Some(enabled);
                (AskState::Storing(answered), AskAction::Store(answered))
            },
        },
        (AskState::Storing(answered), AskEvent::Stored(stored)) => {
            if stored {
                (AskState::Over, AskAction::Thank(answered.telemetry_enabled()))
            } else {
                (AskState::Over, AskAction::Apologize)
            }
        },
        _ => (AskState::Over, AskAction::Proceed),
    }
}

/// How an answer is acknowledged, given where it was stored.
pub open spec fn thanks_text(enabled: bool, path: Seq<char>) -> Seq<char> {
    if enabled {
        "Thanks! Set telemetry_enabled = false in "@ + path + " to turn metrics off."@
    } else {
        "No metrics will be sent. Set telemetry_enabled = true in "@ + path + " to opt in."@
    }
}

/// How the answer is acknowledged, given where it was stored.
pub fn thanks(enabled: bool, path: &str) -> (r: String)
    ensures
        r@ == if enabled {
            "Thanks! Set telemetry_enabled = false in "@ + path@ + " to turn metrics off."@
        } else {
            "No metrics will be sent. Set telemetry_enabled = true in "@ + path@ + " to opt in."@
        },
        r@ == thanks_text(enabled, path@),
{
    if enabled {
        "Thanks! Set telemetry_enabled = false in ".to_owned().concat(path).concat(
            " to turn metrics off.",
        )
    } else {
        "No metrics will be sent. Set telemetry_enabled = true in ".to_owned().concat(path).concat(
            " to opt in.",
        )
    }
}

// ---------------------------------------------------------------------------
// Laws
// ---------------------------------------------------------------------------

/// The state after some events.
pub open spec fn after(events: Seq<AskEvent>) -> AskState
    decreases events.len(),
{
    if events.len() == 0 {
        AskState::Start
    } else {
        asked(after(events.drop_last()), events.last()).0
    }
}

/// The action that the last of some events calls for.
pub open spec fn called_for(events: Seq<AskEvent>) -> AskAction {
    asked(after(events.drop_last()), events.last()).1
}

/// Whether a state can be reached: the configuration in it has no answer while
/// the question is asked, and has one when it is stored.
pub open spec fn consistent(state: AskState) -> bool {
    match state {
        AskState::Asking(config) => config.telemetry_enabled is None,
        AskState::Storing(config) => config.telemetry_enabled is Some,
        _ => true,
    }
}

/// Every state that is reached is consistent.
pub proof fn states_stay_consistent(events: Seq<AskEvent>)
    ensures
        consistent(after(events)),
    decreases events.len(),
{
    if events.len() > 0 {
        states_stay_consistent(events.drop_last());
    }
}

/// The question is asked, or an answer stored, only after the command was found to
/// be one that may be interrupted, the configuration was found and loaded, and it
/// had no answer in it. So a configuration that could not be loaded, or that has
/// an answer in it, is never overwritten.
pub proof fn asked_only_when_unanswered(events: Seq<AskEvent>)
    requires
        after(events) is Asking || after(events) is Storing,
    ensures
        events.len() >= 3,
        events[0] == AskEvent::MayAsk(true),
        events[1] == AskEvent::ConfigPlace(true),
        events[2] matches AskEvent::Loaded(Ok(config)) && config.telemetry_enabled is None,
    decreases events.len(),
{
    let init = events.drop_last();
    if after(init) is Asking || after(init) is Storing {
        asked_only_when_unanswered(init);
    } else {
        assert(after(init) is Loading);
        lemma_loading(init);
        assert(events[0] == init[0] && events[1] == init[1]);
        assert(events[2] == events.last());
    }
}

proof fn lemma_loading(events: Seq<AskEvent>)
    requires
        after(events) is Loading,
    ensures
        events.len() == 2,
        events[0] == AskEvent::MayAsk(true),
        events[1] == AskEvent::ConfigPlace(true),
{
    let init = events.drop_last();
    assert(after(init) is FindingConfig);
    let first = init.drop_last();
    assert(after(first) is Start);
    if first.len() > 0 {
        assert(after(first) == asked(after(first.drop_last()), first.last()).0);
    }
    assert(events[0] == init.last());
    assert(events[1] == events.last());
}

/// The question is asked once: where the configuration that is loaded is one that
/// an answer was stored in, the command proceeds without a question.
pub proof fn stored_answers_are_not_asked_for_again(
    earlier: Seq<AskEvent>,
    stored: Config,
    later: Seq<AskEvent>,
)
    requires
        earlier.len() > 0,
        called_for(earlier) == AskAction::Store(stored),
        later.len() >= 3,
        later[2] == AskEvent::Loaded(Ok(stored)),
    ensures
        !(after(later) is Asking || after(later) is Storing),
{
    states_stay_consistent(earlier.drop_last());
    if after(later) is Asking || after(later) is Storing {
        asked_only_when_unanswered(later);
    }
}

/// What is stored is the configuration that was loaded, with the answer in place
/// of the missing setting.
pub proof fn the_answer_is_what_is_stored(events: Seq<AskEvent>, stored: Config)
    requires
        events.len() > 0,
        called_for(events) == AskAction::Store(stored),
    ensures
        events.last() matches AskEvent::Line(YesNo::Answer(enabled)) && stored.telemetry_enabled
            == Some(enabled),
{
}

/// A blank line takes the default.
pub proof fn a_blank_line_takes_the_default(line: Seq<char>, default: bool)
    requires
        text_laws::all_white(line),
    ensures
        yes_no(line, default) == YesNo::Answer(default),
{
    text_laws::trimming_takes_away_outer_whitespace(line, seq![], seq![]);
    assert(line + Seq::<char>::empty() + Seq::<char>::empty() =~= line);
    assert(text::lower(Seq::<char>::empty()) =~= Seq::<char>::empty());
}

/// What is made of a line that is not blank depends neither on the default nor on
/// the whitespace around it.
pub proof fn an_answer_depends_on_its_word_alone(
    a: Seq<char>,
    word: Seq<char>,
    b: Seq<char>,
    default: bool,
    other: bool,
)
    requires
        text_laws::all_white(a),
        word.len() > 0,
        text_laws::is_trimmed(word),
        text_laws::all_white(b),
    ensures
        yes_no(a + word + b, default) == yes_no(word, other),
{
    let none = Seq::<char>::empty();
    text_laws::trimming_takes_away_outer_whitespace(a, word, b);
    text_laws::trimming_takes_away_outer_whitespace(none, word, none);
    assert(none + word + none =~= word);
    assert(text::lower(word).len() == word.len());
}

/// `y` and `yes` are a yes and `n` and `no` are a no, in capitals or not, whatever
/// the default.
pub proof fn yes_is_yes_and_no_is_no(word: Seq<char>, default: bool)
    ensures
        text::lower(word) == "y"@ || text::lower(word) == "yes"@ ==> yes_no(word, default)
            == YesNo::Answer(true),
        text::lower(word) == "n"@ || text::lower(word) == "no"@ ==> yes_no(word, default)
            == YesNo::Answer(false),
{
    reveal_strlit("y");
    reveal_strlit("yes");
    reveal_strlit("n");
    reveal_strlit("no");
    let low = text::lower(word);
    if low == "y"@ || low == "yes"@ || low == "n"@ || low == "no"@ {
        assert(low.len() == word.len());
        assert(low[0] == text::lower_char(word[0]));
        assert(low[low.len() - 1] == text::lower_char(word[word.len() - 1]));
        text::lemma_trim_id(word);
        assert("y"@[0] == 'y' && "yes"@[0] == 'y' && "n"@[0] == 'n' && "no"@[0] == 'n');
    }
}

/// Nothing but those words and a blank line is an answer. Anything else is asked
/// about again, and a line is never the end of the input.
pub proof fn nothing_else_is_an_answer(line: Seq<char>, default: bool)
    ensures
        ({
            let word = text::lower(text::trim(line));
            &&& word.len() > 0 && yes_no(line, default) == YesNo::Answer(true) ==> word == "y"@
                || word == "yes"@
            &&& word.len() > 0 && yes_no(line, default) == YesNo::Answer(false) ==> word == "n"@
                || word == "no"@
            &&& !(yes_no(line, default) is Answer) ==> yes_no(line, default) is AskAgain
        }),
{
}

/// Setup commands are those that set pigeons up: a roost, a route, a flight that is
/// not the `ProxyCommand` of ssh, and the installation of the service.
pub proof fn setup_commands(cmd: Cmd)
    ensures
        cmd is Roost ==> is_setup(cmd),
        cmd is Add ==> is_setup(cmd),
        cmd matches Cmd::Fly(args) ==> (is_setup(cmd) <==> !args.stdio),
        cmd matches Cmd::Service { op } ==> (is_setup(cmd) <==> op is Install),
        cmd is List || cmd is Remove || cmd is Version || cmd is Paths || cmd is EndpointId
            ==> !is_setup(cmd),
{
}

/// How often the question was asked again.
pub open spec fn asked_again(k: nat) -> Seq<AskEvent> {
    Seq::new(k, |i: int| AskEvent::Line(YesNo::AskAgain))
}

/// Someone who may be asked, and whose configuration holds no answer, is asked until
/// they answer. What they answer is stored as it was given, and acknowledged.
pub proof fn the_answer_that_was_given_is_recorded(config: Config, k: nat, enabled: bool, stored: bool)
    requires
        config.telemetry_enabled is None,
    ensures
        ({
            let asking = seq![
                AskEvent::MayAsk(true),
                AskEvent::ConfigPlace(true),
                AskEvent::Loaded(Ok(config)),
            ];
            let answered = (asking + asked_again(k)).push(AskEvent::Line(YesNo::Answer(enabled)));
            let done = answered.push(AskEvent::Stored(stored));
            &&& called_for(asking) is Ask
            &&& k > 0 ==> called_for(asking + asked_again(k)) is AskAgain
            &&& called_for(answered) matches AskAction::Store(c) && c.telemetry_enabled == Some(
                enabled,
            )
            &&& stored ==> called_for(done) == AskAction::Thank(enabled)
            &&& !stored ==> called_for(done) is Apologize
            &&& after(done) is Over
        }),
{
    let asking = seq![
        AskEvent::MayAsk(true),
        AskEvent::ConfigPlace(true),
        AskEvent::Loaded(Ok(config)),
    ];
    lemma_asking(config);
    lemma_asked_again(config, k);
    let before = asking + asked_again(k);
    let answered = before.push(AskEvent::Line(YesNo::Answer(enabled)));
    let done = answered.push(AskEvent::Stored(stored));
    assert(answered.drop_last() =~= before);
    assert(done.drop_last() =~= answered);
}

proof fn lemma_asking(config: Config)
    requires
        config.telemetry_enabled is None,
    ensures
        ({
            let asking = seq![
                AskEvent::MayAsk(true),
                AskEvent::ConfigPlace(true),
                AskEvent::Loaded(Ok(config)),
            ];
            after(asking) == AskState::Asking(config) && called_for(asking) is Ask
        }),
{
    let e0 = Seq::<AskEvent>::empty();
    let e1 = e0.push(AskEvent::MayAsk(true));
    let e2 = e1.push(AskEvent::ConfigPlace(true));
    let e3 = e2.push(AskEvent::Loaded(Ok(config)));
    assert(e1.drop_last() =~= e0 && e2.drop_last() =~= e1 && e3.drop_last() =~= e2);
    assert(after(e0) is Start);
    assert(after(e1) == asked(after(e0), AskEvent::MayAsk(true)).0);
    assert(after(e2) == asked(after(e1), AskEvent::ConfigPlace(true)).0);
    assert(after(e3) == asked(after(e2), AskEvent::Loaded(Ok(config))).0);
    assert(e3 =~= seq![
        AskEvent::MayAsk(true),
        AskEvent::ConfigPlace(true),
        AskEvent::Loaded(Ok(config)),
    ]);
}

proof fn lemma_asked_again(config: Config, k: nat)
    requires
        config.telemetry_enabled is None,
    ensures
        ({
            let asking = seq![
                AskEvent::MayAsk(true),
                AskEvent::ConfigPlace(true),
                AskEvent::Loaded(Ok(config)),
            ];
            &&& after(asking + asked_again(k)) == AskState::Asking(config)
            &&& k > 0 ==> called_for(asking + asked_again(k)) is AskAgain
        }),
    decreases k,
{
    let asking = seq![
        AskEvent::MayAsk(true),
        AskEvent::ConfigPlace(true),
        AskEvent::Loaded(Ok(config)),
    ];
    lemma_asking(config);
    if k == 0 {
        assert(asking + asked_again(k) =~= asking);
    } else {
        let fewer = (k - 1) as nat;
        lemma_asked_again(config, fewer);
        let all = asking + asked_again(k);
        assert(all.drop_last() =~= asking + asked_again(fewer));
        assert(all.last() == AskEvent::Line(YesNo::AskAgain));
    }
}

/// The command goes on, with no question and nothing stored, where it must not be
/// interrupted, where the configuration has no place or could not be loaded, where
/// it holds an answer, and where no answer came. Nothing follows after that.
pub proof fn the_command_goes_on_without_an_answer(config: Config, state: AskState, event: AskEvent)
    ensures
        asked(AskState::Start, AskEvent::MayAsk(false)) == (AskState::Over, AskAction::Proceed),
        asked(AskState::FindingConfig, AskEvent::ConfigPlace(false)) == (
            AskState::Over,
            AskAction::Proceed,
        ),
        event matches AskEvent::Loaded(Err(_)) ==> asked(AskState::Loading, event) == (
            AskState::Over,
            AskAction::Proceed,
        ),
        config.telemetry_enabled is Some ==> asked(
            AskState::Loading,
            AskEvent::Loaded(Ok(config)),
        ) == (AskState::Over, AskAction::Proceed),
        asked(AskState::Asking(config), AskEvent::Line(YesNo::NoAnswer)) == (
            AskState::Over,
            AskAction::EndLine,
        ),
        asked(AskState::Asking(config), AskEvent::ReadFailed) == (
            AskState::Over,
            AskAction::Proceed,
        ),
        asked(AskState::Over, event) == (AskState::Over, AskAction::Proceed),
        asked(state, event).1 is Store ==> event matches AskEvent::Line(YesNo::Answer(_)),
        asked(state, event).1 is Ask ==> (event matches AskEvent::Loaded(Ok(c))
            && c.telemetry_enabled is None),
{
}

/// The question comes at a terminal, to a command that sets pigeons up and that does
/// not run elevated, and nowhere else.
pub proof fn only_a_person_at_a_terminal_is_asked(
    cmd: Cmd,
    is_elevated: bool,
    stdin_is_terminal: bool,
    stderr_is_terminal: bool,
)
    ensures
        may_ask(cmd, is_elevated, stdin_is_terminal, stderr_is_terminal) ==> !is_elevated
            && stdin_is_terminal && stderr_is_terminal && (cmd is Roost || cmd is Add || cmd is Fly
            || cmd is Service),
        cmd matches Cmd::Fly(args) ==> args.stdio ==> !may_ask(
            cmd,
            is_elevated,
            stdin_is_terminal,
            stderr_is_terminal,
        ),
        cmd is Roost || cmd is Add ==> may_ask(cmd, false, true, true),
        cmd matches Cmd::Fly(args) ==> !args.stdio ==> may_ask(cmd, false, true, true),
        cmd matches Cmd::Service { op } ==> (may_ask(cmd, false, true, true) <==> op is Install),
{
}

/// The acknowledgement tells how to take the answer back, and where.
pub proof fn an_answer_can_be_taken_back(path: Seq<char>)
    ensures
        text::contains(thanks_text(true, path), "telemetry_enabled = false in "@ + path),
        text::contains(thanks_text(false, path), "telemetry_enabled = true in "@ + path),
{
    let on = "Thanks! Set "@;
    let set_off = "telemetry_enabled = false in "@;
    let off = "No metrics will be sent. Set "@;
    let set_on = "telemetry_enabled = true in "@;
    assert("Thanks! Set telemetry_enabled = false in "@ == on + set_off) by {
        reveal_strlit("Thanks! Set telemetry_enabled = false in ");
        reveal_strlit("Thanks! Set ");
        reveal_strlit("telemetry_enabled = false in ");
        assert("Thanks! Set telemetry_enabled = false in "@ =~= "Thanks! Set "@
            + "telemetry_enabled = false in "@);
    }
    assert("No metrics will be sent. Set telemetry_enabled = true in "@ == off + set_on) by {
        reveal_strlit("No metrics will be sent. Set telemetry_enabled = true in ");
        reveal_strlit("No metrics will be sent. Set ");
        reveal_strlit("telemetry_enabled = true in ");
        assert("No metrics will be sent. Set telemetry_enabled = true in "@
            =~= "No metrics will be sent. Set "@ + "telemetry_enabled = true in "@);
    }
    text_laws::parts_stand_inside(on, set_off + path, " to turn metrics off."@);
    text_laws::parts_stand_inside(off, set_on + path, " to opt in."@);
    assert(thanks_text(true, path) =~= on + (set_off + path) + " to turn metrics off."@);
    assert(thanks_text(false, path) =~= off + (set_on + path) + " to opt in."@);
}

} // verus!
