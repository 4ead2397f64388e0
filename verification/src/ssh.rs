//! Pigeon routes in an SSH client configuration: the `Host` blocks whose
//! `ProxyCommand` runs pigeons.
use vstd::prelude::*;

use crate::identity::EndpointId;
use crate::identity;
use crate::text;

verus! {

// ---------------------------------------------------------------------------
// What a configuration says
// ---------------------------------------------------------------------------

/// The host name that a line opens a block for, if it is a `Host` line.
pub open spec fn host_of(line: Seq<char>) -> Option<Seq<char>> {
    let t = text::trim(line);
    if text::starts_with(t, "Host "@) {
        Some(text::trim(t.skip("Host "@.len() as int)))
    } else {
        None
    }
}

/// Whether a line is a `ProxyCommand` that invokes pigeons.
pub open spec fn invokes_pigeons(line: Seq<char>) -> bool {
    text::starts_with(text::trim(line), "ProxyCommand"@) && text::contains(text::trim(line), "pigeons"@)
}

/// The endpoint that a proxy command flies to: the fourth word of a command
/// that begins with the words `pigeons fly --stdio`.
pub open spec fn command_endpoint(cmd: Seq<char>) -> Option<Seq<char>> {
    let parts = text::words(cmd);
    if parts.len() >= 4 && parts[0] == "pigeons"@ && parts[1] == "fly"@ && parts[2] == "--stdio"@ {
        Some(parts[3])
    } else {
        None
    }
}

/// Whether a word is an option of `pigeons fly` that takes the next word as its
/// value.
pub open spec fn takes_value(word: Seq<char>) -> bool {
    word == "--key-dir"@ || word == "--direct-address"@ || word == "--relay-url"@
}

/// The first of the words that is neither an option nor the value of one; nothing
/// where there is none.
pub open spec fn first_operand(words: Seq<Seq<char>>) -> Seq<char>
    decreases words.len(),
{
    if words.len() == 0 {
        seq![]
    } else if takes_value(words[0]) {
        if words.len() == 1 {
            seq![]
        } else {
            first_operand(words.skip(2))
        }
    } else if text::starts_with(words[0], "-"@) {
        first_operand(words.skip(1))
    } else {
        words[0]
    }
}

/// The endpoint that a proxy command flies to, if its first two words are `pigeons
/// fly`: the word after `--stdio` where that comes next, else the first word that
/// is no option and no value of one. A flight that names no endpoint has an empty
/// one.
pub open spec fn flight_endpoint(cmd: Seq<char>) -> Option<Seq<char>> {
    let parts = text::words(cmd);
    if parts.len() >= 2 && parts[0] == "pigeons"@ && parts[1] == "fly"@ {
        if command_endpoint(cmd) is Some {
            command_endpoint(cmd)
        } else {
            Some(first_operand(parts.skip(2)))
        }
    } else {
        None
    }
}

/// The command of a `ProxyCommand` line.
pub open spec fn proxy_command(line: Seq<char>) -> Option<Seq<char>> {
    let t = text::trim(line);
    if text::starts_with(t, "ProxyCommand "@) {
        Some(text::trim(t.skip("ProxyCommand "@.len() as int)))
    } else {
        None
    }
}

/// The endpoint of a `ProxyCommand` line that runs `pigeons fly --stdio`.
pub open spec fn line_id(line: Seq<char>) -> Option<Seq<char>> {
    match proxy_command(line) {
        Some(cmd) => command_endpoint(cmd),
        None => None,
    }
}

/// The endpoint of a `ProxyCommand` line that runs `pigeons fly` in any form.
pub open spec fn line_flight(line: Seq<char>) -> Option<Seq<char>> {
    match proxy_command(line) {
        Some(cmd) => flight_endpoint(cmd),
        None => None,
    }
}

/// A `Host` block: its `Host` line, the name on that line, and the lines up to
/// the next `Host` line or the end of the configuration.
pub struct HostBlock {
    pub header: Seq<char>,
    pub name: Seq<char>,
    pub body: Seq<Seq<char>>,
}

/// The position of the first `Host` line, or the number of lines where there is none.
pub open spec fn next_header(ls: Seq<Seq<char>>) -> int
    decreases ls.len(),
{
    if ls.len() == 0 || host_of(ls[0]) is Some {
        0
    } else {
        1 + next_header(ls.skip(1))
    }
}

/// The lines before the first `Host` line.
pub open spec fn preamble(ls: Seq<Seq<char>>) -> Seq<Seq<char>> {
    ls.take(next_header(ls))
}

/// The `Host` blocks of a configuration, in order.
pub open spec fn blocks(ls: Seq<Seq<char>>) -> Seq<HostBlock>
    decreases ls.len(),
    via blocks_shrink
{
    let n = next_header(ls);
    if n >= ls.len() {
        seq![]
    } else {
        let rest = ls.skip(n + 1);
        seq![
            HostBlock { header: ls[n], name: host_of(ls[n])->0, body: preamble(rest) },
        ] + blocks(rest)
    }
}

#[via_fn]
proof fn blocks_shrink(ls: Seq<Seq<char>>) {
    lemma_next_header(ls);
}

pub(crate) proof fn lemma_next_header(ls: Seq<Seq<char>>)
    ensures
        0 <= next_header(ls) <= ls.len(),
        next_header(ls) < ls.len() ==> host_of(ls[next_header(ls)]) is Some,
        forall|i: int| 0 <= i < next_header(ls) ==> host_of(#[trigger] ls[i]) is None,
    decreases ls.len(),
{
    if ls.len() > 0 && host_of(ls[0]) is None {
        lemma_next_header(ls.skip(1));
        assert forall|i: int| 0 <= i < next_header(ls) implies host_of(#[trigger] ls[i]) is None by {
            if i > 0 {
                assert(ls[i] == ls.skip(1)[i - 1]);
            }
        }
    }
}

/// Whether one of the lines is a `ProxyCommand` that invokes pigeons.
pub open spec fn runs_pigeons(body: Seq<Seq<char>>) -> bool {
    exists|i: int| 0 <= i < body.len() && invokes_pigeons(#[trigger] body[i])
}

/// Whether one of the blocks bears the name.
pub open spec fn has_block(bs: Seq<HostBlock>, name: Seq<char>) -> bool {
    exists|i: int| 0 <= i < bs.len() && (#[trigger] bs[i]).name == name
}

/// Whether one of the blocks bears the name but does not invoke pigeons.
pub open spec fn has_foreign_block(bs: Seq<HostBlock>, name: Seq<char>) -> bool {
    exists|i: int|
        0 <= i < bs.len() && (#[trigger] bs[i]).name == name && !runs_pigeons(bs[i].body)
}

/// The blocks that bear another name.
pub open spec fn without(bs: Seq<HostBlock>, name: Seq<char>) -> Seq<HostBlock>
    decreases bs.len(),
{
    if bs.len() == 0 {
        seq![]
    } else if bs[0].name == name {
        without(bs.skip(1), name)
    } else {
        seq![bs[0]] + without(bs.skip(1), name)
    }
}

/// The lines of the blocks, in order.
pub open spec fn block_lines(bs: Seq<HostBlock>) -> Seq<Seq<char>>
    decreases bs.len(),
{
    if bs.len() == 0 {
        seq![]
    } else {
        seq![bs[0].header] + bs[0].body + block_lines(bs.skip(1))
    }
}

/// The lines of a configuration that belong to no block of the name.
pub open spec fn kept_lines(ls: Seq<Seq<char>>, name: Seq<char>) -> Seq<Seq<char>> {
    preamble(ls) + block_lines(without(blocks(ls), name))
}

/// The text whose lines are `ls`, each ended by a newline.
pub open spec fn render(ls: Seq<Seq<char>>) -> Seq<char>
    decreases ls.len(),
{
    if ls.len() == 0 {
        seq![]
    } else {
        render(ls.drop_last()) + ls.last().push('\n')
    }
}

/// A text with the blank lines at its end cut off.
pub open spec fn strip_blank_tail(s: Seq<char>) -> Seq<char>
    decreases s.len(),
{
    if text::ends_with(s, seq!['\n', '\n']) {
        strip_blank_tail(s.drop_last())
    } else {
        s
    }
}

/// The configuration that is left of `content` when the blocks of `name` are
/// taken out; nothing where one of them does not invoke pigeons.
pub open spec fn without_host(content: Seq<char>, name: Seq<char>) -> Option<Seq<char>> {
    if has_foreign_block(blocks(text::lines(content)), name) {
        None
    } else {
        Some(strip_blank_tail(render(kept_lines(text::lines(content), name))))
    }
}

// ---------------------------------------------------------------------------
// One line at a time
// ---------------------------------------------------------------------------

/// How the blocks of a configuration follow from its first line and the rest.
pub(crate) proof fn lemma_first_line(ls: Seq<Seq<char>>)
    requires
        ls.len() > 0,
    ensures
        host_of(ls[0]) is None ==> preamble(ls) == seq![ls[0]] + preamble(ls.skip(1)) && blocks(ls)
            == blocks(ls.skip(1)),
        host_of(ls[0]) matches Some(name) ==> preamble(ls).len() == 0 && blocks(ls) == seq![
            HostBlock { header: ls[0], name, body: preamble(ls.skip(1)) },
        ] + blocks(ls.skip(1)),
{
    let tail = ls.skip(1);
    lemma_next_header(tail);
    if host_of(ls[0]) is None {
        let n = next_header(tail);
        assert(next_header(ls) == n + 1);
        assert(preamble(ls) =~= seq![ls[0]] + preamble(tail));
        if n < tail.len() {
            assert(ls[n + 1] == tail[n]);
            assert(ls.skip(n + 2) =~= tail.skip(n + 1));
        }
        assert(blocks(ls) =~= blocks(tail));
    } else {
        assert(next_header(ls) == 0);
    }
}

pub(crate) proof fn lemma_no_lines()
    ensures
        preamble(seq![]) == Seq::<Seq<char>>::empty(),
        blocks(seq![]) == Seq::<HostBlock>::empty(),
{
    assert(preamble(seq![]) =~= Seq::<Seq<char>>::empty());
}

pub(crate) proof fn lemma_render_push(ls: Seq<Seq<char>>, l: Seq<char>)
    ensures
        render(ls.push(l)) == render(ls) + l.push('\n'),
{
    assert(ls.push(l).drop_last() =~= ls);
}

pub(crate) proof fn lemma_render_add(a: Seq<Seq<char>>, b: Seq<Seq<char>>)
    ensures
        render(a + b) == render(a) + render(b),
    decreases b.len(),
{
    if b.len() == 0 {
        assert(a + b =~= a);
        assert(render(a) + render(b) =~= render(a));
    } else {
        lemma_render_add(a, b.drop_last());
        assert((a + b).drop_last() =~= a + b.drop_last());
        assert((a + b).last() == b.last());
        assert(render(a) + (render(b.drop_last()) + b.last().push('\n')) =~= render(a) + render(
            b.drop_last(),
        ) + b.last().push('\n'));
    }
}

/// The host name that a line opens a block for.
fn host_name(line: &Vec<char>) -> (r: Option<Vec<char>>)
    ensures
        r is Some == host_of(line@) is Some,
        r matches Some(n) ==> host_of(line@) == Some(n@),
{
    let t = text::trimmed(line);
    let head = text::chars_of("Host ");
    if text::has_prefix(&t, &head) {
        let rest = text::piece(&t, head.len(), t.len());
        assert(rest@ =~= t@.skip("Host "@.len() as int));
        Some(text::trimmed(&rest))
    } else {
        None
    }
}

/// Whether a line is a `ProxyCommand` that invokes pigeons.
fn is_pigeons_proxy(line: &Vec<char>) -> (r: bool)
    ensures
        r == invokes_pigeons(line@),
{
    let t = text::trimmed(line);
    text::has_prefix(&t, &text::chars_of("ProxyCommand")) && text::has_part(&t, &text::chars_of("pigeons"))
}

/// The lines that are kept of `rest`, where the lines before its first `Host`
/// line are dropped if `skipping`.
spec fn kept_from(skipping: bool, rest: Seq<Seq<char>>, name: Seq<char>) -> Seq<Seq<char>> {
    (if skipping {
        seq![]
    } else {
        preamble(rest)
    }) + block_lines(without(blocks(rest), name))
}

/// Whether a block of the name lacks a pigeons proxy, be it the block that is
/// open before `rest` or one that begins in it.
spec fn foreign_from(
    skipping: bool,
    proxy_seen: bool,
    rest: Seq<Seq<char>>,
    name: Seq<char>,
) -> bool {
    ||| skipping && !proxy_seen && !runs_pigeons(preamble(rest))
    ||| has_foreign_block(blocks(rest), name)
}

pub(crate) proof fn lemma_foreign_cons(b: HostBlock, bs: Seq<HostBlock>, name: Seq<char>)
    ensures
        has_foreign_block(seq![b] + bs, name) == ((b.name == name && !runs_pigeons(b.body))
            || has_foreign_block(bs, name)),
{
    let all = seq![b] + bs;
    assert(all[0] == b);
    if has_foreign_block(bs, name) {
        let i = choose|i: int|
            0 <= i < bs.len() && (#[trigger] bs[i]).name == name && !runs_pigeons(bs[i].body);
        assert(all[i + 1] == bs[i]);
    }
    if has_foreign_block(all, name) {
        let i = choose|i: int|
            0 <= i < all.len() && (#[trigger] all[i]).name == name && !runs_pigeons(all[i].body);
        if i > 0 {
            assert(all[i] == bs[i - 1]);
        }
    }
}

pub(crate) proof fn lemma_runs_cons(l: Seq<char>, body: Seq<Seq<char>>)
    ensures
        runs_pigeons(seq![l] + body) == (invokes_pigeons(l) || runs_pigeons(body)),
{
    let all = seq![l] + body;
    assert(all[0] == l);
    if runs_pigeons(body) {
        let i = choose|i: int| 0 <= i < body.len() && invokes_pigeons(#[trigger] body[i]);
        assert(all[i + 1] == body[i]);
    }
    if runs_pigeons(all) {
        let i = choose|i: int| 0 <= i < all.len() && invokes_pigeons(#[trigger] all[i]);
        if i > 0 {
            assert(all[i] == body[i - 1]);
        }
    }
}

pub(crate) proof fn lemma_without_cons(b: HostBlock, bs: Seq<HostBlock>, name: Seq<char>)
    ensures
        without(seq![b] + bs, name) == if b.name == name {
            without(bs, name)
        } else {
            seq![b] + without(bs, name)
        },
{
    assert((seq![b] + bs).skip(1) =~= bs);
}

pub(crate) proof fn lemma_block_lines_cons(b: HostBlock, bs: Seq<HostBlock>)
    ensures
        block_lines(seq![b] + bs) == seq![b.header] + b.body + block_lines(bs),
{
    assert((seq![b] + bs).skip(1) =~= bs);
}

/// What one line changes in [`kept_from`] and [`foreign_from`].
proof fn lemma_remove_step(
    skipping: bool,
    proxy_seen: bool,
    rest: Seq<Seq<char>>,
    name: Seq<char>,
)
    requires
        rest.len() > 0,
    ensures
        ({
            let l = rest[0];
            let tail = rest.skip(1);
            match host_of(l) {
                Some(n) => if n == name {
                    &&& kept_from(skipping, rest, name) == kept_from(true, tail, name)
                    &&& foreign_from(skipping, proxy_seen, rest, name) == ((skipping
                        && !proxy_seen) || foreign_from(true, false, tail, name))
                } else {
                    &&& kept_from(skipping, rest, name) == seq![l] + kept_from(false, tail, name)
                    &&& foreign_from(skipping, proxy_seen, rest, name) == ((skipping
                        && !proxy_seen) || foreign_from(false, false, tail, name))
                },
                None => {
                    &&& kept_from(skipping, rest, name) == if skipping {
                        kept_from(true, tail, name)
                    } else {
                        seq![l] + kept_from(false, tail, name)
                    }
                    &&& foreign_from(skipping, proxy_seen, rest, name) == foreign_from(
                        skipping,
                        proxy_seen || invokes_pigeons(l),
                        tail,
                        name,
                    )
                },
            }
        }),
{
    let l = rest[0];
    let tail = rest.skip(1);
    lemma_first_line(rest);
    match host_of(l) {
        Some(n) => {
            let b = HostBlock { header: l, name: n, body: preamble(tail) };
            lemma_without_cons(b, blocks(tail), name);
            lemma_foreign_cons(b, blocks(tail), name);
            assert(!runs_pigeons(preamble(rest)));
            if n == name {
                assert(kept_from(skipping, rest, name) =~= kept_from(true, tail, name));
            } else {
                lemma_block_lines_cons(b, without(blocks(tail), name));
                assert(kept_from(skipping, rest, name) =~= seq![l] + kept_from(
                    false,
                    tail,
                    name,
                ));
            }
        },
        None => {
            lemma_runs_cons(l, preamble(tail));
            if !skipping {
                assert(kept_from(false, rest, name) =~= seq![l] + kept_from(false, tail, name));
            }
        },
    }
}

/// Why a change to the SSH configuration was refused.
#[derive(Debug, Clone)]
pub enum SshConfigError {
    /// There is no configuration file to remove a host from.
    NoConfig,
    /// The configuration has nothing to remove for this host.
    NoHost(String),
    /// The host is there, but it does not fly with pigeons.
    NotPigeons(String),
}

/// Removes the `Host` blocks of a name from the text of an SSH configuration.
///
/// A `Host` block starts at a `Host <name>` line and ends at the next `Host` line
/// or at the end of the text. If a block of the name has no `ProxyCommand` that
/// invokes pigeons, nothing is removed and the host is reported as not ours.
pub fn remove_host_block(content: &str, name: &str) -> (r: Result<String, SshConfigError>)
    ensures
        match without_host(content@, name@) {
            Some(left) => r matches Ok(text) && text@ == left,
            None => r matches Err(SshConfigError::NotPigeons(host)) && host@ == name@,
        },
{
    let wanted = text::chars_of(name);
    let all = text::lines_of(&text::chars_of(content));
    let ghost ls = text::lines(content@);
    let mut result: Vec<char> = Vec::new();
    let mut skipping = false;
    let mut proxy_seen = false;
    assert(all@.len() == ls.len()) by {
        assert(all@.map_values(|l: Vec<char>| l@) == ls);
    }
    assert forall|k: int| 0 <= k < ls.len() implies ls[k] == (#[trigger] all@[k])@ by {
        assert(all@.map_values(|l: Vec<char>| l@)[k] == all@[k]@);
    }
    proof {
        assert(ls.skip(0) =~= ls);
        assert(kept_from(false, ls, name@) =~= kept_lines(ls, name@));
        assert(result@ + render(kept_lines(ls, name@)) =~= render(kept_lines(ls, name@)));
    }
    for i in 0..all.len()
        invariant
            wanted@ == name@,
            ls == text::lines(content@),
            all@.len() == ls.len(),
            forall|k: int| 0 <= k < ls.len() ==> ls[k] == (#[trigger] all@[k])@,
            result@ + render(kept_from(skipping, ls.skip(i as int), name@)) == render(
                kept_lines(ls, name@),
            ),
            has_foreign_block(blocks(ls), name@) == foreign_from(
                skipping,
                proxy_seen,
                ls.skip(i as int),
                name@,
            ),
    {
        let line = &all[i];
        let ghost rest = ls.skip(i as int);
        let ghost before = result@;
        proof {
            assert(rest[0] == line@);
            assert(rest.skip(1) =~= ls.skip(i + 1));
            lemma_remove_step(skipping, proxy_seen, rest, name@);
        }
        let mut keep = !skipping;
        match host_name(line) {
            Some(host) => {
                if skipping && !proxy_seen {
                    return Err(SshConfigError::NotPigeons(name.to_owned()));
                }
                skipping = text::same(&host, &wanted);
                proxy_seen = false;
                keep = !skipping;
            },
            None => {
                if skipping && is_pigeons_proxy(line) {
                    proxy_seen = true;
                }
            },
        }
        if keep {
            text::append(&mut result, line);
            result.push('\n');
            proof {
                let tail = kept_from(false, ls.skip(i + 1), name@);
                lemma_render_add(seq![line@], tail);
                lemma_render_push(seq![], line@);
                assert(seq![].push(line@) =~= seq![line@]);
                assert(render(seq![line@]) =~= line@.push('\n'));
                assert(result@ =~= before + line@.push('\n'));
                assert(before + (line@.push('\n') + render(tail)) =~= before + line@.push('\n')
                    + render(tail));
            }
        }
    }
    proof {
        assert(ls.skip(ls.len() as int) =~= seq![]);
        lemma_no_lines();
        assert(kept_from(skipping, seq![], name@) =~= seq![]);
        assert(result@ + render(seq![]) =~= result@);
        assert(!runs_pigeons(seq![]));
        assert(!has_foreign_block(seq![], name@));
    }
    if skipping && !proxy_seen {
        return Err(SshConfigError::NotPigeons(name.to_owned()));
    }
    let ghost full = result@;
    while result.len() >= 2 && result[result.len() - 1] == '\n' && result[result.len() - 2] == '\n'
        invariant
            strip_blank_tail(result@) == strip_blank_tail(full),
        decreases result@.len(),
    {
        proof {
            assert(result@.skip(result@.len() - 2) =~= seq!['\n', '\n']);
            assert(text::ends_with(result@, seq!['\n', '\n']));
        }
        let _ = result.pop();
    }
    proof {
        if text::ends_with(result@, seq!['\n', '\n']) {
            let end = result@.skip(result@.len() - 2);
            assert(end[0] == '\n' && end[1] == '\n');
        }
    }
    Ok(text::string_of(&result))
}

// ---------------------------------------------------------------------------
// Listing the routes
// ---------------------------------------------------------------------------

/// A pigeon route: the SSH host name and the endpoint that it flies to.
#[derive(Debug, Clone)]
pub struct SshConfigPigeonEntry {
    pub name: String,
    pub endpoint_id: String,
}

impl View for SshConfigPigeonEntry {
    type V = (Seq<char>, Seq<char>);

    open spec fn view(&self) -> (Seq<char>, Seq<char>) {
        (self.name@, self.endpoint_id@)
    }
}

impl SshConfigPigeonEntry {
    /// The route as a line for people: the name, an arrow, the endpoint.
    pub fn display(&self) -> (r: String)
        ensures
            r@ == self.name@ + " -> "@ + self.endpoint_id@,
    {
        self.name.clone().concat(" -> ").concat(self.endpoint_id.as_str())
    }
}

/// The endpoint of the last `pigeons fly --stdio` among the lines.
pub open spec fn last_id(body: Seq<Seq<char>>) -> Option<Seq<char>>
    decreases body.len(),
{
    if body.len() == 0 {
        None
    } else if line_id(body.last()) is Some {
        line_id(body.last())
    } else {
        last_id(body.drop_last())
    }
}

/// The endpoint of the last `pigeons fly` among the lines, in any form.
pub open spec fn last_flight(body: Seq<Seq<char>>) -> Option<Seq<char>>
    decreases body.len(),
{
    if body.len() == 0 {
        None
    } else if line_flight(body.last()) is Some {
        line_flight(body.last())
    } else {
        last_flight(body.drop_last())
    }
}

/// The endpoint that the lines of a block fly to: that of the last `pigeons fly
/// --stdio`, or of the last other flight where there is no such line.
pub open spec fn body_endpoint(body: Seq<Seq<char>>) -> Option<Seq<char>> {
    if last_id(body) is Some {
        last_id(body)
    } else {
        last_flight(body)
    }
}

/// The routes of the blocks: the name and the endpoint of each block that flies
/// to one, in order.
pub open spec fn block_routes(bs: Seq<HostBlock>) -> Seq<(Seq<char>, Seq<char>)>
    decreases bs.len(),
{
    if bs.len() == 0 {
        seq![]
    } else {
        match body_endpoint(bs[0].body) {
            Some(endpoint) => seq![(bs[0].name, endpoint)] + block_routes(bs.skip(1)),
            None => block_routes(bs.skip(1)),
        }
    }
}

/// The pigeon routes of a configuration.
pub open spec fn routes(content: Seq<char>) -> Seq<(Seq<char>, Seq<char>)> {
    block_routes(blocks(text::lines(content)))
}

/// The words of a command.
fn words_of(cmd: &str) -> (r: Vec<Vec<char>>)
    ensures
        r@.len() == text::words(cmd@).len(),
        forall|k: int| 0 <= k < r@.len() ==> text::words(cmd@)[k] == (#[trigger] r@[k])@,
{
    let parts = text::words_of(&text::chars_of(cmd));
    assert(parts@.len() == text::words(cmd@).len()) by {
        assert(parts@.map_values(|l: Vec<char>| l@) == text::words(cmd@));
    }
    assert forall|k: int| 0 <= k < parts@.len() implies text::words(cmd@)[k] == (
    #[trigger] parts@[k])@ by {
        assert(parts@.map_values(|l: Vec<char>| l@)[k] == parts@[k]@);
    }
    parts
}

/// The endpoint of a proxy command like `pigeons fly --stdio <endpoint_id>`.
pub fn parse_pigeons_proxy_command(cmd: &str) -> (r: Option<String>)
    ensures
        match command_endpoint(cmd@) {
            Some(endpoint) => r matches Some(text) && text@ == endpoint,
            None => r is None,
        },
{
    let parts = words_of(cmd);
    if parts.len() >= 4 && text::same(&parts[0], &text::chars_of("pigeons")) && text::same(
        &parts[1],
        &text::chars_of("fly"),
    ) && text::same(&parts[2], &text::chars_of("--stdio")) {
        Some(text::string_of(&parts[3]))
    } else {
        None
    }
}

/// The endpoint that a proxy command flies to, if it begins with `pigeons fly`.
fn flight_target(cmd: &str) -> (r: Option<String>)
    ensures
        match flight_endpoint(cmd@) {
            Some(endpoint) => r matches Some(text) && text@ == endpoint,
            None => r is None,
        },
{
    let parts = words_of(cmd);
    let ghost all = text::words(cmd@);
    if parts.len() < 2 || !text::same(&parts[0], &text::chars_of("pigeons")) || !text::same(
        &parts[1],
        &text::chars_of("fly"),
    ) {
        return None;
    }
    let direct = parse_pigeons_proxy_command(cmd);
    if direct.is_some() {
        return direct;
    }
    let key_dir = text::chars_of("--key-dir");
    let direct_address = text::chars_of("--direct-address");
    let relay_url = text::chars_of("--relay-url");
    let dash = text::chars_of("-");
    let mut i: usize = 2;
    while i < parts.len()
        invariant
            2 <= i <= parts@.len(),
            all == text::words(cmd@),
            parts@.len() == all.len(),
            forall|k: int| 0 <= k < parts@.len() ==> all[k] == (#[trigger] parts@[k])@,
            key_dir@ == "--key-dir"@,
            direct_address@ == "--direct-address"@,
            relay_url@ == "--relay-url"@,
            dash@ == "-"@,
            flight_endpoint(cmd@) == Some(first_operand(all.skip(2))),
            first_operand(all.skip(2)) == first_operand(all.skip(i as int)),
        decreases parts@.len() - i,
    {
        let ghost rest = all.skip(i as int);
        assert(rest[0] == parts@[i as int]@);
        let word = &parts[i];
        if text::same(word, &key_dir) || text::same(word, &direct_address) || text::same(
            word,
            &relay_url,
        ) {
            if parts.len() - i == 1 {
                return Some(String::new());
            }
            assert(rest.skip(2) =~= all.skip(i + 2));
            i += 2;
        } else if text::has_prefix(word, &dash) {
            assert(rest.skip(1) =~= all.skip(i + 1));
            i += 1;
        } else {
            return Some(text::string_of(word));
        }
    }
    Some(String::new())
}

/// The command of a `ProxyCommand` line.
fn command_of(line: &Vec<char>) -> (r: Option<String>)
    ensures
        text::opt_text(r) == proxy_command(line@),
{
    let t = text::trimmed(line);
    let head = text::chars_of("ProxyCommand ");
    if text::has_prefix(&t, &head) {
        let rest = text::piece(&t, head.len(), t.len());
        assert(rest@ =~= t@.skip("ProxyCommand "@.len() as int));
        Some(text::string_of(&text::trimmed(&rest)))
    } else {
        None
    }
}

/// `endpoint`, or else `other`.
spec fn or_else(endpoint: Option<Seq<char>>, other: Option<Seq<char>>) -> Option<Seq<char>> {
    if endpoint is Some {
        endpoint
    } else {
        other
    }
}

/// The route of a block, if it has a name and an endpoint.
spec fn open_route(
    host: Option<Seq<char>>,
    endpoint: Option<Seq<char>>,
) -> Seq<(Seq<char>, Seq<char>)> {
    match (host, endpoint) {
        (Some(h), Some(e)) => seq![(h, e)],
        _ => seq![],
    }
}

/// The routes that are still to come when `host` is the open block, `id` and
/// `flight` the endpoints of its `pigeons fly --stdio` and of its flights so far,
/// and `rest` the lines not yet read.
spec fn routes_from(
    host: Option<Seq<char>>,
    id: Option<Seq<char>>,
    flight: Option<Seq<char>>,
    rest: Seq<Seq<char>>,
) -> Seq<(Seq<char>, Seq<char>)> {
    let body = preamble(rest);
    open_route(
        host,
        or_else(or_else(last_id(body), id), or_else(last_flight(body), flight)),
    ) + block_routes(blocks(rest))
}

pub(crate) proof fn lemma_last_cons(l: Seq<char>, body: Seq<Seq<char>>)
    ensures
        last_id(seq![l] + body) == if last_id(body) is Some {
            last_id(body)
        } else {
            line_id(l)
        },
        last_flight(seq![l] + body) == if last_flight(body) is Some {
            last_flight(body)
        } else {
            line_flight(l)
        },
    decreases body.len(),
{
    let all = seq![l] + body;
    if body.len() == 0 {
        assert(all.last() == l);
        assert(all.drop_last() =~= seq![]);
        assert(last_id(all.drop_last()) is None && last_flight(all.drop_last()) is None);
        assert(last_id(body) is None && last_flight(body) is None);
    } else {
        let init = body.drop_last();
        assert(all.last() == body.last());
        assert(all.drop_last() =~= seq![l] + init);
        lemma_last_cons(l, init);
        assert(last_id(all) == if line_id(body.last()) is Some {
            line_id(body.last())
        } else {
            last_id(seq![l] + init)
        });
        assert(last_flight(all) == if line_flight(body.last()) is Some {
            line_flight(body.last())
        } else {
            last_flight(seq![l] + init)
        });
    }
}

pub(crate) proof fn lemma_routes_cons(b: HostBlock, bs: Seq<HostBlock>)
    ensures
        block_routes(seq![b] + bs) == (match body_endpoint(b.body) {
            Some(endpoint) => seq![(b.name, endpoint)] + block_routes(bs),
            None => block_routes(bs),
        }),
{
    assert((seq![b] + bs).skip(1) =~= bs);
}

/// What one line changes in [`routes_from`].
proof fn lemma_list_step(
    host: Option<Seq<char>>,
    id: Option<Seq<char>>,
    flight: Option<Seq<char>>,
    rest: Seq<Seq<char>>,
)
    requires
        rest.len() > 0,
    ensures
        ({
            let tail = rest.skip(1);
            match host_of(rest[0]) {
                Some(n) => routes_from(host, id, flight, rest) == open_route(
                    host,
                    or_else(id, flight),
                ) + routes_from(Some(n), None, None, tail),
                None => routes_from(host, id, flight, rest) == routes_from(
                    host,
                    or_else(line_id(rest[0]), id),
                    or_else(line_flight(rest[0]), flight),
                    tail,
                ),
            }
        }),
{
    let l = rest[0];
    let tail = rest.skip(1);
    lemma_first_line(rest);
    match host_of(l) {
        Some(n) => {
            let b = HostBlock { header: l, name: n, body: preamble(tail) };
            lemma_routes_cons(b, blocks(tail));
            assert(last_id(preamble(rest)) is None && last_flight(preamble(rest)) is None);
            assert(block_routes(blocks(rest)) =~= routes_from(Some(n), None, None, tail));
        },
        None => {
            lemma_last_cons(l, preamble(tail));
        },
    }
}

/// Lists the pigeon routes of an SSH configuration: the `Host` blocks whose
/// `ProxyCommand` starts with `pigeons fly`. A block with several of them flies to
/// the endpoint of the last `pigeons fly --stdio`. Without a configuration there is
/// no route.
pub fn list_tunnel_hosts(content: Option<&str>) -> (r: Vec<SshConfigPigeonEntry>)
    ensures
        r@.map_values(|e: SshConfigPigeonEntry| e@) == (match content {
            Some(text) => routes(text@),
            None => seq![],
        }),
{
    let mut entries: Vec<SshConfigPigeonEntry> = Vec::new();
    let ghost view = |e: SshConfigPigeonEntry| e@;
    let content = match content {
        Some(content) => content,
        None => {
            assert(entries@.map_values(view) =~= seq![]);
            return entries;
        },
    };
    let all = text::lines_of(&text::chars_of(content));
    let ghost ls = text::lines(content@);
    assert(all@.len() == ls.len()) by {
        assert(all@.map_values(|l: Vec<char>| l@) == ls);
    }
    assert forall|k: int| 0 <= k < ls.len() implies ls[k] == (#[trigger] all@[k])@ by {
        assert(all@.map_values(|l: Vec<char>| l@)[k] == all@[k]@);
    }
    let mut host: Option<String> = None;
    let mut id: Option<String> = None;
    let mut flight: Option<String> = None;
    proof {
        assert(ls.skip(0) =~= ls);
        assert(entries@.map_values(view) + routes_from(None, None, None, ls) =~= routes(content@));
    }
    for i in 0..all.len()
        invariant
            view == (|e: SshConfigPigeonEntry| e@),
            ls == text::lines(content@),
            all@.len() == ls.len(),
            forall|k: int| 0 <= k < ls.len() ==> ls[k] == (#[trigger] all@[k])@,
            entries@.map_values(view) + routes_from(
                text::opt_text(host),
                text::opt_text(id),
                text::opt_text(flight),
                ls.skip(i as int),
            ) == routes(content@),
    {
        let line = &all[i];
        let ghost rest = ls.skip(i as int);
        let ghost before = entries@.map_values(view);
        proof {
            assert(rest[0] == line@);
            assert(rest.skip(1) =~= ls.skip(i + 1));
            lemma_list_step(
                text::opt_text(host),
                text::opt_text(id),
                text::opt_text(flight),
                rest,
            );
        }
        match host_name(line) {
            Some(name) => {
                let ghost open = open_route(
                    text::opt_text(host),
                    or_else(text::opt_text(id), text::opt_text(flight)),
                );
                flush(&mut entries, host, id, flight);
                host = Some(text::string_of(&name));
                id = None;
                flight = None;
                proof {
                    let tail = routes_from(Some(name@), None, None, ls.skip(i + 1));
                    assert(before + (open + tail) =~= before + open + tail);
                }
            },
            None => {
                if let Some(cmd) = command_of(line) {
                    let found = parse_pigeons_proxy_command(cmd.as_str());
                    if found.is_some() {
                        id = found;
                    }
                    let flown = flight_target(cmd.as_str());
                    if flown.is_some() {
                        flight = flown;
                    }
                }
            },
        }
    }
    proof {
        assert(ls.skip(ls.len() as int) =~= seq![]);
        lemma_no_lines();
        let (h, i, f) = (text::opt_text(host), text::opt_text(id), text::opt_text(flight));
        assert(block_routes(seq![]) =~= seq![]);
        assert(routes_from(h, i, f, seq![]) =~= open_route(h, or_else(i, f)));
    }
    flush(&mut entries, host, id, flight);
    entries
}

/// Closes a block: appends its route if it has a host and an endpoint.
fn flush(
    entries: &mut Vec<SshConfigPigeonEntry>,
    host: Option<String>,
    id: Option<String>,
    flight: Option<String>,
)
    ensures
        final(entries)@.map_values(|e: SshConfigPigeonEntry| e@) == old(entries)@.map_values(
            |e: SshConfigPigeonEntry| e@,
        ) + open_route(
            text::opt_text(host),
            or_else(text::opt_text(id), text::opt_text(flight)),
        ),
{
    let endpoint = if id.is_some() {
        id
    } else {
        flight
    };
    if let (Some(name), Some(endpoint_id)) = (host, endpoint) {
        entries.push(SshConfigPigeonEntry { name, endpoint_id });
    }
    assert(entries@.map_values(|e: SshConfigPigeonEntry| e@) =~= old(entries)@.map_values(
        |e: SshConfigPigeonEntry| e@,
    ) + open_route(text::opt_text(host), or_else(text::opt_text(id), text::opt_text(flight))));
}

// ---------------------------------------------------------------------------
// Adding and removing a route
// ---------------------------------------------------------------------------

impl SshConfigError {
    /// The error in words; `config_path` is where the configuration is kept.
    pub open spec fn words(self, config_path: Seq<char>) -> Seq<char> {
        match self {
            SshConfigError::NoConfig => "no ssh config found at "@ + config_path,
            SshConfigError::NoHost(name) => "no host '"@ + name@ + "' found in ssh config"@,
            SshConfigError::NotPigeons(name) => "host '"@ + name@
                + "' is not configured to use pigeons"@,
        }
    }

    /// The error in words; `config_path` is where the configuration is kept.
    pub fn message(&self, config_path: &str) -> (r: String)
        ensures
            r@ == self.words(config_path@),
    {
        match self {
            SshConfigError::NoConfig => "no ssh config found at ".to_owned().concat(config_path),
            SshConfigError::NoHost(name) => "no host '".to_owned().concat(name.as_str()).concat(
                "' found in ssh config",
            ),
            SshConfigError::NotPigeons(name) => "host '".to_owned().concat(name.as_str()).concat(
                "' is not configured to use pigeons",
            ),
        }
    }
}

/// The `Host` block of a pigeon route.
pub open spec fn route_block(name: Seq<char>, endpoint: Seq<char>) -> Seq<char> {
    "Host "@ + name + "\n    ProxyCommand pigeons fly --stdio "@ + endpoint
        + "\n    UserKnownHostsFile /dev/null\n    StrictHostKeyChecking no\n"@
}

/// What stands before a block that is appended to `left`: `left` itself, ended by
/// a newline, and a blank line; nothing where `left` is empty.
pub open spec fn before_block(left: Seq<char>) -> Seq<char> {
    if left.len() == 0 {
        left
    } else if left.last() == '\n' {
        left.push('\n')
    } else {
        left.push('\n').push('\n')
    }
}

/// The configuration `content` with a route for `name` in place of the blocks of
/// that name; nothing where one of them does not invoke pigeons.
pub open spec fn with_route(
    content: Seq<char>,
    name: Seq<char>,
    endpoint: Seq<char>,
) -> Option<Seq<char>> {
    match without_host(content, name) {
        Some(left) => Some(before_block(left) + route_block(name, endpoint)),
        None => None,
    }
}

/// The text of a configuration file, empty where there is no file.
pub open spec fn text_or_empty(existing: Option<&str>) -> Seq<char> {
    match existing {
        Some(content) => content@,
        None => seq![],
    }
}

/// Adds a pigeon route to the text of an SSH configuration, or replaces the one
/// of the same name. A name that is already taken by a host that is not ours is
/// refused: ssh honours the first block of a name, so the new route would have
/// no effect.
pub fn add_tunnel_host(existing: Option<&str>, name: &str, endpoint_id: &EndpointId) -> (r: Result<
    String,
    SshConfigError,
>)
    ensures
        match with_route(text_or_empty(existing), name@, identity::hex(endpoint_id@)) {
            Some(config) => r matches Ok(text) && text@ == config && identity::is_key(endpoint_id@)
                && endpoint_id@.len() == 32,
            None => r matches Err(SshConfigError::NotPigeons(host)) && host@ == name@,
        },
{
    let cleaned = match existing {
        Some(content) => remove_host_block(content, name),
        None => {
            let none: String = String::new();
            remove_host_block(none.as_str(), name)
        },
    };
    let cleaned = match cleaned {
        Ok(cleaned) => text::chars_of(cleaned.as_str()),
        Err(e) => {
            return Err(e);
        },
    };
    let mut config: String = text::string_of(&cleaned);
    if cleaned.len() > 0 {
        if cleaned[cleaned.len() - 1] != '\n' {
            config.push('\n');
        }
        config.push('\n');
    }
    assert(config@ == before_block(cleaned@));
    config.append("Host ");
    config.append(name);
    config.append("\n    ProxyCommand pigeons fly --stdio ");
    config.append(endpoint_id.to_hex().as_str());
    config.append("\n    UserKnownHostsFile /dev/null\n    StrictHostKeyChecking no\n");
    assert(config@ =~= before_block(cleaned@) + route_block(name@, identity::hex(endpoint_id@)));
    Ok(config)
}

/// What comes of removing a route.
pub enum Removal {
    /// There is no configuration.
    NoConfig,
    /// The host is there, but it does not fly with pigeons.
    NotOurs,
    /// There is nothing to remove.
    NotThere,
    /// The configuration that is left.
    Left(Seq<char>),
}

/// What comes of removing a route from a configuration, if there is one.
pub open spec fn removal(existing: Option<Seq<char>>, name: Seq<char>) -> Removal {
    match existing {
        None => Removal::NoConfig,
        Some(content) => match without_host(content, name) {
            None => Removal::NotOurs,
            Some(left) => if left == content {
                Removal::NotThere
            } else {
                Removal::Left(left)
            },
        },
    }
}

/// The view of an optional text.
pub open spec fn opt_str(existing: Option<&str>) -> Option<Seq<char>> {
    match existing {
        Some(content) => Some(content@),
        None => None,
    }
}

/// Removes a pigeon route from the text of an SSH configuration.
pub fn remove_tunnel_host(existing: Option<&str>, name: &str) -> (r: Result<
    String,
    SshConfigError,
>)
    ensures
        match existing {
            None => r matches Err(SshConfigError::NoConfig),
            Some(content) => match without_host(content@, name@) {
                None => r matches Err(SshConfigError::NotPigeons(host)) && host@ == name@,
                Some(left) => if left == content@ {
                    r matches Err(SshConfigError::NoHost(host)) && host@ == name@
                } else {
                    r matches Ok(text) && text@ == left
                },
            },
        },
        match removal(opt_str(existing), name@) {
            Removal::NoConfig => r matches Err(SshConfigError::NoConfig),
            Removal::NotOurs => r matches Err(SshConfigError::NotPigeons(host)) && host@ == name@,
            Removal::NotThere => r matches Err(SshConfigError::NoHost(host)) && host@ == name@,
            Removal::Left(left) => r matches Ok(text) && text@ == left,
        },
{
    let content = match existing {
        Some(content) => content,
        None => {
            return Err(SshConfigError::NoConfig);
        },
    };
    let cleaned = match remove_host_block(content, name) {
        Ok(cleaned) => cleaned,
        Err(e) => {
            return Err(e);
        },
    };
    if text::str_eq(cleaned.as_str(), content) {
        return Err(SshConfigError::NoHost(name.to_owned()));
    }
    Ok(cleaned)
}

} // verus!
