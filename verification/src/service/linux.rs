//! The service under systemd.
use vstd::prelude::*;

use crate::service::{Program, Script, Service, ServiceAction, ServiceError, ServiceParams};
use crate::text;
use crate::text_laws;

verus! {

/// The directory that scripts are written to.
pub const SCRIPT_DIR: &'static str = "/tmp";

/// What the name of a script ends with.
pub const SCRIPT_SUFFIX: &'static str = ".sh";

/// The arguments that make a roost use some relay servers.
pub open spec fn relay_args(urls: Seq<Seq<char>>) -> Seq<char>
    decreases urls.len(),
{
    if urls.len() == 0 {
        seq![]
    } else {
        relay_args(urls.drop_last()) + (" --relay-url "@ + urls.last())
    }
}

/// A script with its places filled in, one kind of them after the other.
pub open spec fn install_script(
    template: Seq<char>,
    ssh_port: u16,
    relay_urls: Seq<Seq<char>>,
    binary_path: Seq<char>,
) -> Seq<char> {
    let with_port = text::replace(template, "[SSHPORT]"@, text::decimal(ssh_port as nat));
    let with_relays = text::replace(with_port, "[RELAYARGS]"@, relay_args(relay_urls));
    text::replace(with_relays, "[BINARYPATH]"@, binary_path)
}

/// The script that installs the service with some parameters; nothing where the path
/// of the binary is not UTF-8.
pub open spec fn installation(params: ServiceParams, template: Seq<char>) -> Option<Seq<char>> {
    match params.binary_path {
        Some(path) => Some(
            install_script(template, params.ssh_port, text::texts(params.relay_url@), path@),
        ),
        None => None,
    }
}

/// The service under systemd.
#[derive(Debug, Clone)]
pub struct LinuxService;

/// What is done to the service.
#[derive(Debug, Clone, Copy, PartialEq, Eq, Structural)]
pub enum Operation {
    Install,
    Uninstall,
    Restart,
}

impl LinuxService {
    /// The script that installs the service.
    pub fn init_install_script(service_params: &ServiceParams, template: &str) -> (r: Result<
        Script,
        ServiceError,
    >)
        ensures
            match service_params.binary_path {
                Some(path) => r matches Ok(s) && s@ == (
                    "pigeons_install-"@,
                    install_script(
                        template@,
                        service_params.ssh_port,
                        text::texts(service_params.relay_url@),
                        path@,
                    ),
                ),
                None => r matches Err(ServiceError::InstallPathNotUtf8),
            },
            match installation(*service_params, template@) {
                Some(content) => r matches Ok(s) && s@.1 == content,
                None => r is Err,
            },
    {
        let ghost urls = text::texts(service_params.relay_url@);
        let mut args: String = String::new();
        for i in 0..service_params.relay_url.len()
            invariant
                urls == text::texts(service_params.relay_url@),
                args@ == relay_args(urls.take(i as int)),
        {
            let ghost before = args@;
            args.append(" --relay-url ");
            args.append(service_params.relay_url[i].as_str());
            assert(urls.take(i + 1).drop_last() =~= urls.take(i as int));
            assert(args@ =~= before + (" --relay-url "@ + urls[i as int]));
        }
        assert(urls.take(urls.len() as int) =~= urls);
        let path = match &service_params.binary_path {
            Some(path) => path,
            None => {
                return Err(ServiceError::InstallPathNotUtf8);
            },
        };
        proof {
            reveal_strlit("[SSHPORT]");
            reveal_strlit("[RELAYARGS]");
            reveal_strlit("[BINARYPATH]");
        }
        let port = text::decimal_of(service_params.ssh_port as u64);
        let with_port = text::replaced(
            &text::chars_of(template),
            &text::chars_of("[SSHPORT]"),
            &text::chars_of(port.as_str()),
        );
        let with_relays = text::replaced(
            &with_port,
            &text::chars_of("[RELAYARGS]"),
            &text::chars_of(args.as_str()),
        );
        let content = text::replaced(
            &with_relays,
            &text::chars_of("[BINARYPATH]"),
            &text::chars_of(path.as_str()),
        );
        Ok(Script { prefix: "pigeons_install-".to_owned(), content: text::string_of(&content) })
    }

    /// The script that uninstalls the service.
    pub fn init_uninstall_script(script: &str) -> (r: Script)
        ensures
            r@ == ("pigeons_uninstall-"@, script@),
    {
        Script { prefix: "pigeons_uninstall-".to_owned(), content: script.to_owned() }
    }

    /// The program that runs a script, by the path of the script.
    pub fn run_script(path: &str) -> (r: Program)
        ensures
            r@ == ("sh"@, seq![path@]),
    {
        let p = Program { name: "sh".to_owned(), args: vec![path.to_owned()] };
        assert(p@.1 =~= seq![path@]);
        p
    }

    /// What comes of an operation, from whether its program succeeded and the exit
    /// status of that program in words.
    pub fn finished(operation: Operation, success: bool, status: &str) -> (r: Result<
        (),
        ServiceError,
    >)
        ensures
            if success {
                r is Ok
            } else {
                match operation {
                    Operation::Install => r matches Err(ServiceError::Install(s)) && s@ == status@,
                    Operation::Uninstall => r matches Err(ServiceError::Uninstall(s)) && s@
                        == status@,
                    Operation::Restart => r matches Err(ServiceError::Restart(s)) && s@ == status@,
                }
            },
    {
        if success {
            return Ok(());
        }
        match operation {
            Operation::Install => Err(ServiceError::Install(status.to_owned())),
            Operation::Uninstall => Err(ServiceError::Uninstall(status.to_owned())),
            Operation::Restart => Err(ServiceError::Restart(status.to_owned())),
        }
    }
}

impl Service for LinuxService {
    fn install(service_params: &ServiceParams, template: &str) -> (r: Result<
        ServiceAction,
        ServiceError,
    >)
        ensures
            match service_params.binary_path {
                Some(path) => r matches Ok(ServiceAction::Script(s)) && s@ == (
                    "pigeons_install-"@,
                    install_script(
                        template@,
                        service_params.ssh_port,
                        text::texts(service_params.relay_url@),
                        path@,
                    ),
                ),
                None => r matches Err(ServiceError::InstallPathNotUtf8),
            },
            match installation(*service_params, template@) {
                Some(content) => r matches Ok(ServiceAction::Script(s)) && s@.1 == content,
                None => r is Err,
            },
    {
        match LinuxService::init_install_script(service_params, template) {
            Ok(script) => Ok(ServiceAction::Script(script)),
            Err(e) => Err(e),
        }
    }

    fn uninstall(script: &str) -> (r: ServiceAction)
        ensures
            r matches ServiceAction::Script(s) && s@ == ("pigeons_uninstall-"@, script@),
    {
        ServiceAction::Script(LinuxService::init_uninstall_script(script))
    }

    fn restart() -> (r: ServiceAction)
        ensures
            r matches ServiceAction::Run(p) && p@ == (
                "systemctl"@,
                seq!["restart"@, "pigeons.service"@],
            ),
    {
        let p = Program {
            name: "systemctl".to_owned(),
            args: vec!["restart".to_owned(), "pigeons.service".to_owned()],
        };
        assert(p@.1 =~= seq!["restart"@, "pigeons.service"@]);
        ServiceAction::Run(p)
    }
}

// ---------------------------------------------------------------------------
// What filling in does to a script
// ---------------------------------------------------------------------------

/// Whether a text holds no opening bracket.
pub open spec fn unbracketed(s: Seq<char>) -> bool {
    !text::has_char(s, '[')
}

/// A script without places to fill in stays as it is.
pub proof fn scripts_without_places_are_kept(
    template: Seq<char>,
    ssh_port: u16,
    relay_urls: Seq<Seq<char>>,
    binary_path: Seq<char>,
)
    requires
        !text::contains(template, "[SSHPORT]"@),
        !text::contains(template, "[RELAYARGS]"@),
        !text::contains(template, "[BINARYPATH]"@),
    ensures
        install_script(template, ssh_port, relay_urls, binary_path) == template,
{
    text::lemma_replace_nothing(template, "[SSHPORT]"@, text::decimal(ssh_port as nat));
    text::lemma_replace_nothing(template, "[RELAYARGS]"@, relay_args(relay_urls));
    text::lemma_replace_nothing(template, "[BINARYPATH]"@, binary_path);
}

/// Each place in a script is filled in with its value, and the text around the
/// places stays as it is.
///
/// The path is filled in last, so the relay arguments and the text behind them
/// must not make up a place for it.
pub proof fn places_are_filled_in(
    a: Seq<char>,
    b: Seq<char>,
    c: Seq<char>,
    d: Seq<char>,
    ssh_port: u16,
    relay_urls: Seq<Seq<char>>,
    binary_path: Seq<char>,
)
    requires
        unbracketed(a),
        unbracketed(b),
        unbracketed(c),
        unbracketed(d),
        !text::contains(relay_args(relay_urls) + c, "[BINARYPATH]"@),
    ensures
        install_script(
            a + "[SSHPORT]"@ + b + "[RELAYARGS]"@ + c + "[BINARYPATH]"@ + d,
            ssh_port,
            relay_urls,
            binary_path,
        ) == a + text::decimal(ssh_port as nat) + b + relay_args(relay_urls) + c + binary_path + d,
{
    reveal_strlit("[SSHPORT]");
    reveal_strlit("[RELAYARGS]");
    reveal_strlit("[BINARYPATH]");
    let p1 = "[SSHPORT]"@;
    let p2 = "[RELAYARGS]"@;
    let p3 = "[BINARYPATH]"@;
    let w1 = text::decimal(ssh_port as nat);
    let w2 = relay_args(relay_urls);
    text::lemma_decimal_digits(ssh_port as nat);
    assert(unbracketed(w1));

    let rest1 = b + p2 + c + p3 + d;
    assert(a + p1 + b + p2 + c + p3 + d =~= a + p1 + rest1);
    lemma_brackets(a, p1, rest1);
    text::lemma_replace_first(a, p1, rest1, w1);
    lemma_no_place(b, p2, c, p3, d, p1);
    text::lemma_replace_nothing(rest1, p1, w1);

    let x2 = a + w1 + b;
    let rest2 = c + p3 + d;
    assert(a + w1 + rest1 =~= x2 + p2 + rest2);
    assert(unbracketed(x2)) by {
        lemma_unbracketed_add(a, w1);
        lemma_unbracketed_add(a + w1, b);
    }
    lemma_brackets(x2, p2, rest2);
    text::lemma_replace_first(x2, p2, rest2, w2);
    lemma_no_other_place(c, p3, d, p2);
    text::lemma_replace_nothing(rest2, p2, w2);

    let x3 = x2 + w2 + c;
    assert(x2 + w2 + rest2 =~= x3 + p3 + d);
    assert forall|i: int| 0 <= i < x3.len() implies !#[trigger] text::occurs_at(
        x3 + p3 + d,
        p3,
        i,
    ) by {
        let s = x3 + p3 + d;
        if text::occurs_at(s, p3, i) {
            let hit = s.subrange(i, i + p3.len());
            assert(hit[0] == s[i]);
            if i < x2.len() {
                assert(x2[i] == '[');
            } else if i + p3.len() <= x3.len() {
                let j = i - x2.len();
                assert((w2 + c).subrange(j, j + p3.len()) =~= hit);
                assert(text::occurs_at(w2 + c, p3, j));
            } else {
                let k = x3.len() - i;
                assert(hit[k] == s[x3.len() as int]);
                assert(s[x3.len() as int] == p3[0]);
                assert(p3[k] == '[');
            }
        }
    }
    text::lemma_replace_first(x3, p3, d, binary_path);
    lemma_unbracketed_holds_no_place(d, p3);
    text::lemma_replace_nothing(d, p3, binary_path);
    assert(x3 + binary_path + d =~= a + w1 + b + w2 + c + binary_path + d);
}

/// The places are filled in just as well where the path comes first, then the port
/// and the relay arguments, as on a command line.
pub proof fn places_of_a_command_line_are_filled_in(
    a: Seq<char>,
    b: Seq<char>,
    c: Seq<char>,
    d: Seq<char>,
    ssh_port: u16,
    relay_urls: Seq<Seq<char>>,
    binary_path: Seq<char>,
)
    requires
        unbracketed(a),
        unbracketed(b),
        unbracketed(c),
        unbracketed(d),
        !text::contains(relay_args(relay_urls) + d, "[BINARYPATH]"@),
    ensures
        install_script(
            a + "[BINARYPATH]"@ + b + "[SSHPORT]"@ + c + "[RELAYARGS]"@ + d,
            ssh_port,
            relay_urls,
            binary_path,
        ) == a + binary_path + b + text::decimal(ssh_port as nat) + c + relay_args(relay_urls) + d,
{
    reveal_strlit("[SSHPORT]");
    reveal_strlit("[RELAYARGS]");
    reveal_strlit("[BINARYPATH]");
    let p1 = "[SSHPORT]"@;
    let p2 = "[RELAYARGS]"@;
    let p3 = "[BINARYPATH]"@;
    let w1 = text::decimal(ssh_port as nat);
    let w2 = relay_args(relay_urls);
    text::lemma_decimal_digits(ssh_port as nat);
    assert(unbracketed(w1));

    let x1 = a + p3 + b;
    let rest1 = c + p2 + d;
    assert(a + p3 + b + p1 + c + p2 + d =~= x1 + p1 + rest1);
    lemma_other_place(a, p3, b, p1, rest1);
    text::lemma_replace_first(x1, p1, rest1, w1);
    lemma_no_other_place(c, p2, d, p1);
    text::lemma_replace_nothing(rest1, p1, w1);

    let y = b + w1 + c;
    let x2 = a + p3 + y;
    assert(unbracketed(y)) by {
        lemma_unbracketed_add(b, w1);
        lemma_unbracketed_add(b + w1, c);
    }
    assert(x1 + w1 + rest1 =~= x2 + p2 + d);
    lemma_other_place(a, p3, y, p2, d);
    text::lemma_replace_first(x2, p2, d, w2);
    lemma_unbracketed_holds_no_place(d, p2);
    text::lemma_replace_nothing(d, p2, w2);

    let rest3 = y + w2 + d;
    assert(x2 + w2 + d =~= a + p3 + rest3);
    lemma_brackets(a, p3, rest3);
    text::lemma_replace_first(a, p3, rest3, binary_path);
    assert(!text::contains(rest3, p3)) by {
        if text::contains(rest3, p3) {
            let i = choose|i: int| text::occurs_at(rest3, p3, i);
            let hit = rest3.subrange(i, i + p3.len());
            assert(hit[0] == rest3[i]);
            if i < y.len() {
                assert(y[i] == '[');
            } else {
                let j = i - y.len();
                assert((w2 + d).subrange(j, j + p3.len()) =~= hit);
                assert(text::occurs_at(w2 + d, p3, j));
            }
        }
    }
    text::lemma_replace_nothing(rest3, p3, binary_path);
    assert(a + binary_path + rest3 =~= a + binary_path + b + w1 + c + w2 + d);
}

/// A place does not occur before itself where only another place does.
proof fn lemma_other_place(
    a: Seq<char>,
    q: Seq<char>,
    b: Seq<char>,
    p: Seq<char>,
    rest: Seq<char>,
)
    requires
        unbracketed(a),
        unbracketed(b),
        is_place(q),
        is_place(p),
        q[1] != p[1],
    ensures
        forall|i: int|
            0 <= i < (a + q + b).len() ==> !#[trigger] text::occurs_at(a + q + b + p + rest, p, i),
{
    let s = a + q + b + p + rest;
    assert forall|i: int| 0 <= i < (a + q + b).len() implies !#[trigger] text::occurs_at(
        s,
        p,
        i,
    ) by {
        if text::occurs_at(s, p, i) {
            let hit = s.subrange(i, i + p.len());
            assert(hit[0] == s[i] && hit[1] == s[i + 1]);
            let n = a.len() + q.len();
            if i < a.len() {
                assert(a[i] == '[');
            } else if i == a.len() {
                assert(s[i + 1] == q[1]);
            } else if i < n {
                assert(s[i] == q[i - a.len()]);
            } else {
                assert(b[i - n] == '[');
            }
        }
    }
}

/// A place does not occur where only another place does.
proof fn lemma_no_other_place(a: Seq<char>, q: Seq<char>, b: Seq<char>, p: Seq<char>)
    requires
        unbracketed(a),
        unbracketed(b),
        is_place(q),
        is_place(p),
        q[1] != p[1],
    ensures
        !text::contains(a + q + b, p),
{
    let s = a + q + b;
    if text::contains(s, p) {
        let i = choose|i: int| text::occurs_at(s, p, i);
        assert(s + p + Seq::<char>::empty() =~= s + p);
        lemma_other_place(a, q, b, p, seq![]);
        assert((s + p + Seq::<char>::empty()).subrange(i, i + p.len()) =~= s.subrange(
            i,
            i + p.len(),
        ));
        assert(text::occurs_at(s + p + Seq::<char>::empty(), p, i));
    }
}

proof fn lemma_unbracketed_holds_no_place(s: Seq<char>, p: Seq<char>)
    requires
        unbracketed(s),
        is_place(p),
    ensures
        !text::contains(s, p),
{
    if text::contains(s, p) {
        let i = choose|i: int| text::occurs_at(s, p, i);
        assert(s.subrange(i, i + p.len())[0] == s[i]);
        assert(s[i] == '[');
    }
}

/// Whether a text opens with a bracket and holds no other.
spec fn is_place(p: Seq<char>) -> bool {
    p.len() > 1 && p[0] == '[' && forall|i: int| 0 < i < p.len() ==> #[trigger] p[i] != '['
}

/// The service is installed with what it was told: its own port, in writing that reads
/// back as the port, its relays and its binary. A path that is not UTF-8 is refused.
pub proof fn the_service_runs_with_what_it_was_told(
    params: ServiceParams,
    a: Seq<char>,
    b: Seq<char>,
    c: Seq<char>,
    d: Seq<char>,
) -> (port: Seq<char>)
    requires
        unbracketed(a),
        unbracketed(b),
        unbracketed(c),
        unbracketed(d),
        !text::contains(relay_args(text::texts(params.relay_url@)) + d, "[BINARYPATH]"@),
    ensures
        text_laws::value(port) == params.ssh_port,
        forall|i: int| 0 <= i < port.len() ==> '0' <= #[trigger] port[i] <= '9',
        params.binary_path is None <==> installation(
            params,
            a + "[BINARYPATH]"@ + b + "[SSHPORT]"@ + c + "[RELAYARGS]"@ + d,
        ) is None,
        params.binary_path matches Some(path) ==> installation(
            params,
            a + "[BINARYPATH]"@ + b + "[SSHPORT]"@ + c + "[RELAYARGS]"@ + d,
        ) == Some(a + path@ + b + port + c + relay_args(text::texts(params.relay_url@)) + d),
{
    let port = text::decimal(params.ssh_port as nat);
    text_laws::decimal_notation_reads_back(params.ssh_port as nat);
    match params.binary_path {
        Some(path) => {
            places_of_a_command_line_are_filled_in(
                a,
                b,
                c,
                d,
                params.ssh_port,
                text::texts(params.relay_url@),
                path@,
            );
        },
        None => {},
    }
    port
}

/// Whether the option and the URL of relay server `i` stand at their place among the
/// words.
pub open spec fn has_relay_at(words: Seq<Seq<char>>, urls: Seq<Seq<char>>, i: int) -> bool {
    words[2 * i] == "--relay-url"@ && words[2 * i + 1] == urls[i]
}

/// The relay arguments are the option and a URL for each relay server, in order.
pub proof fn each_relay_has_its_option(urls: Seq<Seq<char>>)
    requires
        forall|i: int|
            0 <= i < urls.len() ==> (#[trigger] urls[i]).len() > 0 && text::no_white(urls[i]),
    ensures
        text::words(relay_args(urls)).len() == 2 * urls.len(),
        forall|i: int|
            0 <= i < urls.len() ==> #[trigger] has_relay_at(
                text::words(relay_args(urls)),
                urls,
                i,
            ),
    decreases urls.len(),
{
    let none = Seq::<char>::empty();
    if urls.len() == 0 {
        text_laws::words_are_separated_by_whitespace(seq!['x'], seq![' '], none);
        assert(relay_args(urls) == none);
        assert(text::words(none) =~= seq![]);
    } else {
        let init = urls.drop_last();
        let u = urls.last();
        assert(u == urls[urls.len() - 1]);
        assert forall|i: int| 0 <= i < init.len() implies (#[trigger] init[i]).len() > 0
            && text::no_white(init[i]) by {
            assert(init[i] == urls[i]);
        }
        each_relay_has_its_option(init);
        let a = relay_args(init);
        let opt = "--relay-url"@;
        let gap = seq![' '];
        assert(" --relay-url "@ == gap + opt + gap) by {
            reveal_strlit(" --relay-url ");
            reveal_strlit("--relay-url");
            assert(" --relay-url "@ =~= seq![' '] + "--relay-url"@ + seq![' ']);
        }
        assert(opt.len() > 0 && text::no_white(opt)) by {
            reveal_strlit("--relay-url");
        }
        assert(relay_args(urls) =~= a + gap + (opt + gap + u));
        text_laws::gaps_separate_words(a, gap, opt + gap + u);
        text_laws::words_are_separated_by_whitespace(opt, gap, u);
        text_laws::words_are_separated_by_whitespace(u, gap, none);
        let words = text::words(relay_args(urls));
        let before = text::words(a);
        assert(words =~= before + seq![opt, u]);
        assert forall|i: int| 0 <= i < urls.len() implies #[trigger] has_relay_at(
            words,
            urls,
            i,
        ) by {
            if i < init.len() {
                assert(has_relay_at(before, init, i));
                assert(init[i] == urls[i]);
            }
        }
    }
}

proof fn lemma_unbracketed_add(a: Seq<char>, b: Seq<char>)
    requires
        unbracketed(a),
        unbracketed(b),
    ensures
        unbracketed(a + b),
{
    if text::has_char(a + b, '[') {
        let i = choose|i: int| 0 <= i < (a + b).len() && #[trigger] (a + b)[i] == '[';
        if i < a.len() {
            assert(a[i] == '[');
        } else {
            assert(b[i - a.len()] == '[');
        }
    }
}

/// Nothing that begins with a bracket occurs where a text holds none.
proof fn lemma_brackets(a: Seq<char>, p: Seq<char>, rest: Seq<char>)
    requires
        unbracketed(a),
        p.len() > 0,
        p[0] == '[',
    ensures
        forall|i: int| 0 <= i < a.len() ==> !#[trigger] text::occurs_at(a + p + rest, p, i),
{
    let s = a + p + rest;
    assert forall|i: int| 0 <= i < a.len() implies !#[trigger] text::occurs_at(s, p, i) by {
        if text::occurs_at(s, p, i) {
            assert(s.subrange(i, i + p.len())[0] == s[i]);
            assert(a[i] == '[');
        }
    }
}

proof fn lemma_no_place(
    b: Seq<char>,
    p2: Seq<char>,
    c: Seq<char>,
    p3: Seq<char>,
    d: Seq<char>,
    p1: Seq<char>,
)
    requires
        unbracketed(b),
        unbracketed(c),
        unbracketed(d),
        p1 == "[SSHPORT]"@,
        p2 == "[RELAYARGS]"@,
        p3 == "[BINARYPATH]"@,
    ensures
        !text::contains(b + p2 + c + p3 + d, p1),
{
    reveal_strlit("[SSHPORT]");
    reveal_strlit("[RELAYARGS]");
    reveal_strlit("[BINARYPATH]");
    let s = b + p2 + c + p3 + d;
    if text::contains(s, p1) {
        let i = choose|i: int| text::occurs_at(s, p1, i);
        let hit = s.subrange(i, i + p1.len());
        assert(hit[0] == s[i] && hit[1] == s[i + 1]);
        let m = b.len() + p2.len();
        let n = m + c.len();
        if i < b.len() {
            assert(b[i] == '[');
        } else if i == b.len() {
            assert(s[i + 1] == p2[1]);
        } else if i < m {
            assert(s[i] == p2[i - b.len()]);
        } else if i < n {
            assert(c[i - m] == '[');
        } else if i == n {
            assert(s[i + 1] == p3[1]);
        } else if i < n + p3.len() {
            assert(s[i] == p3[i - n]);
        } else {
            assert(d[i - n - p3.len()] == '[');
        }
    }
}

} // verus!
