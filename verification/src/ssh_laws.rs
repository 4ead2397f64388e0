//! What holds of adding, removing and listing pigeon routes together.
use vstd::prelude::*;

use crate::identity;
use crate::identity::KeyParseError;
use crate::ssh;
use crate::text;
use crate::text_laws;

verus! {

// ---------------------------------------------------------------------------
// Lines that open no block, and blocks put together again
// ---------------------------------------------------------------------------

/// Whether none of the lines is a `Host` line.
spec fn all_plain(ls: Seq<Seq<char>>) -> bool {
    forall|i: int| 0 <= i < ls.len() ==> ssh::host_of(#[trigger] ls[i]) is None
}

/// Whether each block has the name that its header gives it, and no header in its
/// body.
spec fn well_formed(bs: Seq<ssh::HostBlock>) -> bool {
    forall|i: int|
        0 <= i < bs.len() ==> ssh::host_of((#[trigger] bs[i]).header) == Some(bs[i].name)
            && all_plain(bs[i].body)
}

proof fn lemma_blocks_well_formed(ls: Seq<Seq<char>>)
    ensures
        well_formed(ssh::blocks(ls)),
        all_plain(ssh::preamble(ls)),
    decreases ls.len(),
{
    ssh::lemma_next_header(ls);
    if ls.len() > 0 {
        let tail = ls.skip(1);
        ssh::lemma_first_line(ls);
        lemma_blocks_well_formed(tail);
        if ssh::host_of(ls[0]) is Some {
            let bs = ssh::blocks(ls);
            assert forall|i: int| 0 <= i < bs.len() implies ssh::host_of((#[trigger] bs[i]).header)
                == Some(bs[i].name) && all_plain(bs[i].body) by {
                if i > 0 {
                    assert(bs[i] == ssh::blocks(tail)[i - 1]);
                }
            }
        }
    } else {
        assert(ls =~= seq![]);
        ssh::lemma_no_lines();
    }
}

proof fn lemma_plain_prefix(pre: Seq<Seq<char>>, rest: Seq<Seq<char>>)
    requires
        all_plain(pre),
        rest.len() == 0 || ssh::host_of(rest[0]) is Some,
    ensures
        ssh::preamble(pre + rest) == pre,
        ssh::blocks(pre + rest) == ssh::blocks(rest),
    decreases pre.len(),
{
    let all = pre + rest;
    if pre.len() == 0 {
        assert(all =~= rest);
        if rest.len() == 0 {
            assert(rest =~= seq![]);
            ssh::lemma_no_lines();
        } else {
            ssh::lemma_first_line(rest);
        }
        assert(ssh::preamble(rest) =~= pre);
    } else {
        let tail = pre.skip(1);
        assert forall|i: int| 0 <= i < tail.len() implies ssh::host_of(
            #[trigger] tail[i],
        ) is None by {
            assert(tail[i] == pre[i + 1]);
        }
        lemma_plain_prefix(tail, rest);
        assert(all[0] == pre[0]);
        assert(all.skip(1) =~= tail + rest);
        ssh::lemma_first_line(all);
        assert(seq![pre[0]] + tail =~= pre);
    }
}

proof fn lemma_block_lines_start(bs: Seq<ssh::HostBlock>)
    requires
        well_formed(bs),
    ensures
        ssh::block_lines(bs).len() == 0 || ssh::host_of(ssh::block_lines(bs)[0]) is Some,
{
    if bs.len() > 0 {
        assert(ssh::block_lines(bs)[0] == bs[0].header);
    }
}

/// The lines of well-formed blocks after lines that open none have just these
/// blocks.
proof fn lemma_rejoin(pre: Seq<Seq<char>>, bs: Seq<ssh::HostBlock>)
    requires
        all_plain(pre),
        well_formed(bs),
    ensures
        ssh::preamble(pre + ssh::block_lines(bs)) == pre,
        ssh::blocks(pre + ssh::block_lines(bs)) == bs,
    decreases bs.len(),
{
    lemma_block_lines_start(bs);
    lemma_plain_prefix(pre, ssh::block_lines(bs));
    if bs.len() == 0 {
        ssh::lemma_no_lines();
        assert(ssh::block_lines(bs) =~= seq![]);
        assert(bs =~= seq![]);
    } else {
        let rest = bs.skip(1);
        assert forall|i: int| 0 <= i < rest.len() implies ssh::host_of((#[trigger] rest[i]).header)
            == Some(rest[i].name) && all_plain(rest[i].body) by {
            assert(rest[i] == bs[i + 1]);
        }
        lemma_rejoin(bs[0].body, rest);
        let ls = ssh::block_lines(bs);
        assert(ls.skip(1) =~= bs[0].body + ssh::block_lines(rest));
        ssh::lemma_first_line(ls);
        assert(seq![bs[0]] + rest =~= bs);
        assert(ssh::HostBlock { header: bs[0].header, name: bs[0].name, body: bs[0].body }
            == bs[0]);
    }
}

proof fn lemma_without_well_formed(bs: Seq<ssh::HostBlock>, name: Seq<char>)
    requires
        well_formed(bs),
    ensures
        well_formed(ssh::without(bs, name)),
        !ssh::has_block(ssh::without(bs, name), name),
        !ssh::has_block(bs, name) ==> ssh::without(bs, name) == bs,
    decreases bs.len(),
{
    if bs.len() > 0 {
        let rest = bs.skip(1);
        assert forall|i: int| 0 <= i < rest.len() implies ssh::host_of((#[trigger] rest[i]).header)
            == Some(rest[i].name) && all_plain(rest[i].body) by {
            assert(rest[i] == bs[i + 1]);
        }
        lemma_without_well_formed(rest, name);
        let w = ssh::without(rest, name);
        if bs[0].name != name {
            let all = seq![bs[0]] + w;
            assert forall|i: int| 0 <= i < all.len() implies ssh::host_of(
                (#[trigger] all[i]).header,
            ) == Some(all[i].name) && all_plain(all[i].body) && all[i].name != name by {
                if i > 0 {
                    assert(all[i] == w[i - 1]);
                }
            }
            if !ssh::has_block(bs, name) {
                assert forall|i: int| 0 <= i < rest.len() implies (#[trigger] rest[i]).name
                    != name by {
                    assert(rest[i] == bs[i + 1]);
                }
                assert(seq![bs[0]] + rest =~= bs);
            }
        }
    }
}

/// The blocks of the lines that are kept are the blocks of other names.
proof fn lemma_kept_blocks(ls: Seq<Seq<char>>, name: Seq<char>)
    ensures
        ssh::blocks(ssh::kept_lines(ls, name)) == ssh::without(ssh::blocks(ls), name),
        ssh::preamble(ssh::kept_lines(ls, name)) == ssh::preamble(ls),
        !ssh::has_block(ssh::blocks(ssh::kept_lines(ls, name)), name),
{
    lemma_blocks_well_formed(ls);
    lemma_without_well_formed(ssh::blocks(ls), name);
    lemma_rejoin(ssh::preamble(ls), ssh::without(ssh::blocks(ls), name));
}

/// Nothing is lost where nothing is taken out.
proof fn lemma_kept_all(ls: Seq<Seq<char>>)
    ensures
        ssh::preamble(ls) + ssh::block_lines(ssh::blocks(ls)) == ls,
    decreases ls.len(),
{
    if ls.len() == 0 {
        assert(ls =~= seq![]);
        ssh::lemma_no_lines();
        assert(ssh::block_lines(seq![]) =~= seq![]);
    } else {
        let tail = ls.skip(1);
        lemma_kept_all(tail);
        ssh::lemma_first_line(ls);
        assert(seq![ls[0]] + tail =~= ls);
        match ssh::host_of(ls[0]) {
            Some(name) => {
                let b = ssh::HostBlock { header: ls[0], name, body: ssh::preamble(tail) };
                ssh::lemma_block_lines_cons(b, ssh::blocks(tail));
                assert(ssh::preamble(ls) + ssh::block_lines(ssh::blocks(ls)) =~= seq![ls[0]] + (
                ssh::preamble(tail) + ssh::block_lines(ssh::blocks(tail))));
            },
            None => {
                assert(ssh::preamble(ls) + ssh::block_lines(ssh::blocks(ls)) =~= seq![ls[0]] + (
                ssh::preamble(tail) + ssh::block_lines(ssh::blocks(tail))));
            },
        }
    }
}

// ---------------------------------------------------------------------------
// Lines that read alike
// ---------------------------------------------------------------------------

/// Whether the lines differ in nothing but whitespace at their ends.
spec fn alike(a: Seq<Seq<char>>, b: Seq<Seq<char>>) -> bool {
    a.len() == b.len() && forall|i: int|
        0 <= i < a.len() ==> text::trim(#[trigger] a[i]) == text::trim(b[i])
}

/// Whether the blocks have the same names and bodies that read alike.
spec fn same_blocks(a: Seq<ssh::HostBlock>, b: Seq<ssh::HostBlock>) -> bool {
    a.len() == b.len() && forall|i: int|
        0 <= i < a.len() ==> (#[trigger] a[i]).name == b[i].name && alike(a[i].body, b[i].body)
}

proof fn lemma_alike_tail(a: Seq<Seq<char>>, b: Seq<Seq<char>>)
    requires
        alike(a, b),
        a.len() > 0,
    ensures
        alike(a.skip(1), b.skip(1)),
        text::trim(a[0]) == text::trim(b[0]),
{
    assert forall|i: int| 0 <= i < a.skip(1).len() implies text::trim(#[trigger] a.skip(1)[i])
        == text::trim(b.skip(1)[i]) by {
        assert(a.skip(1)[i] == a[i + 1]);
        assert(b.skip(1)[i] == b[i + 1]);
    }
}

/// Lines that read alike have the same blocks.
proof fn lemma_alike(a: Seq<Seq<char>>, b: Seq<Seq<char>>)
    requires
        alike(a, b),
    ensures
        alike(ssh::preamble(a), ssh::preamble(b)),
        same_blocks(ssh::blocks(a), ssh::blocks(b)),
    decreases a.len(),
{
    if a.len() == 0 {
        assert(a =~= seq![]);
        assert(b =~= seq![]);
        ssh::lemma_no_lines();
    } else {
        let ta = a.skip(1);
        let tb = b.skip(1);
        lemma_alike_tail(a, b);
        lemma_alike(ta, tb);
        ssh::lemma_first_line(a);
        ssh::lemma_first_line(b);
        assert(ssh::host_of(a[0]) == ssh::host_of(b[0]));
        if ssh::host_of(a[0]) is None {
            let pa = ssh::preamble(a);
            let pb = ssh::preamble(b);
            assert forall|i: int| 0 <= i < pa.len() implies text::trim(#[trigger] pa[i])
                == text::trim(pb[i]) by {
                if i > 0 {
                    assert(pa[i] == ssh::preamble(ta)[i - 1]);
                    assert(pb[i] == ssh::preamble(tb)[i - 1]);
                }
            }
        } else {
            let ba = ssh::blocks(a);
            let bb = ssh::blocks(b);
            assert forall|i: int| 0 <= i < ba.len() implies (#[trigger] ba[i]).name == bb[i].name
                && alike(ba[i].body, bb[i].body) by {
                if i > 0 {
                    assert(ba[i] == ssh::blocks(ta)[i - 1]);
                    assert(bb[i] == ssh::blocks(tb)[i - 1]);
                }
            }
        }
    }
}

proof fn lemma_alike_endpoint(a: Seq<Seq<char>>, b: Seq<Seq<char>>)
    requires
        alike(a, b),
    ensures
        ssh::last_id(a) == ssh::last_id(b),
        ssh::last_flight(a) == ssh::last_flight(b),
    decreases a.len(),
{
    if a.len() > 0 {
        assert(text::trim(a[a.len() - 1]) == text::trim(b[b.len() - 1]));
        let da = a.drop_last();
        let db = b.drop_last();
        assert forall|i: int| 0 <= i < da.len() implies text::trim(#[trigger] da[i]) == text::trim(
            db[i],
        ) by {
            assert(da[i] == a[i]);
        }
        lemma_alike_endpoint(da, db);
    }
}

/// Blocks of the same names that read alike have the same routes and names.
proof fn lemma_same_blocks(a: Seq<ssh::HostBlock>, b: Seq<ssh::HostBlock>, name: Seq<char>)
    requires
        same_blocks(a, b),
    ensures
        ssh::block_routes(a) == ssh::block_routes(b),
        ssh::has_block(a, name) == ssh::has_block(b, name),
    decreases a.len(),
{
    if a.len() > 0 {
        let ta = a.skip(1);
        let tb = b.skip(1);
        assert(a[0].name == b[0].name);
        lemma_alike_endpoint(a[0].body, b[0].body);
        assert forall|i: int| 0 <= i < ta.len() implies (#[trigger] ta[i]).name == tb[i].name
            && alike(ta[i].body, tb[i].body) by {
            assert(ta[i] == a[i + 1]);
            assert(tb[i] == b[i + 1]);
        }
        lemma_same_blocks(ta, tb, name);
        if ssh::has_block(a, name) {
            let i = choose|i: int| 0 <= i < a.len() && (#[trigger] a[i]).name == name;
            assert(b[i].name == name);
        }
        if ssh::has_block(b, name) {
            let i = choose|i: int| 0 <= i < b.len() && (#[trigger] b[i]).name == name;
            assert(a[i].name == name);
        }
    }
}

// ---------------------------------------------------------------------------
// Blank lines at the end
// ---------------------------------------------------------------------------

proof fn lemma_has_cons(b: ssh::HostBlock, bs: Seq<ssh::HostBlock>, name: Seq<char>)
    ensures
        ssh::has_block(seq![b] + bs, name) == (b.name == name || ssh::has_block(bs, name)),
{
    let all = seq![b] + bs;
    assert(all[0] == b);
    if ssh::has_block(bs, name) {
        let i = choose|i: int| 0 <= i < bs.len() && (#[trigger] bs[i]).name == name;
        assert(all[i + 1] == bs[i]);
    }
    if ssh::has_block(all, name) {
        let i = choose|i: int| 0 <= i < all.len() && (#[trigger] all[i]).name == name;
        if i > 0 {
            assert(all[i] == bs[i - 1]);
        }
    }
}

/// A line at the end that opens no block and names no endpoint changes neither
/// the names nor the routes.
proof fn lemma_idle_line(ls: Seq<Seq<char>>, l: Seq<char>, name: Seq<char>)
    requires
        ssh::host_of(l) is None,
        ssh::line_flight(l) is None,
    ensures
        ssh::block_routes(ssh::blocks(ls.push(l))) == ssh::block_routes(ssh::blocks(ls)),
        ssh::has_block(ssh::blocks(ls.push(l)), name) == ssh::has_block(ssh::blocks(ls), name),
        ssh::last_id(ssh::preamble(ls.push(l))) == ssh::last_id(ssh::preamble(ls)),
        ssh::last_flight(ssh::preamble(ls.push(l))) == ssh::last_flight(ssh::preamble(ls)),
    decreases ls.len(),
{
    let all = ls.push(l);
    ssh::lemma_no_lines();
    if ls.len() == 0 {
        assert(ls =~= seq![]);
        assert(all.skip(1) =~= seq![]);
        ssh::lemma_first_line(all);
        let p = ssh::preamble(all);
        assert(p =~= seq![l]);
        assert(p.last() == l);
        assert(p.drop_last() =~= seq![]);
        assert(ssh::last_id(p.drop_last()) is None && ssh::last_flight(p.drop_last()) is None);
        assert(ssh::last_id(p) is None && ssh::last_flight(p) is None);
    } else {
        let tail = ls.skip(1);
        assert(all.skip(1) =~= tail.push(l));
        assert(all[0] == ls[0]);
        lemma_idle_line(tail, l, name);
        ssh::lemma_first_line(ls);
        ssh::lemma_first_line(all);
        match ssh::host_of(ls[0]) {
            Some(n) => {
                let b0 = ssh::HostBlock { header: ls[0], name: n, body: ssh::preamble(tail) };
                let b1 = ssh::HostBlock {
                    header: ls[0],
                    name: n,
                    body: ssh::preamble(tail.push(l)),
                };
                ssh::lemma_routes_cons(b0, ssh::blocks(tail));
                ssh::lemma_routes_cons(b1, ssh::blocks(tail.push(l)));
                lemma_has_cons(b0, ssh::blocks(tail), name);
                lemma_has_cons(b1, ssh::blocks(tail.push(l)), name);
                assert(ssh::preamble(all) =~= ssh::preamble(ls));
            },
            None => {
                ssh::lemma_last_cons(ls[0], ssh::preamble(tail));
                ssh::lemma_last_cons(ls[0], ssh::preamble(tail.push(l)));
            },
        }
    }
}

proof fn lemma_blank_is_idle()
    ensures
        ssh::host_of(seq![]) is None,
        ssh::line_flight(seq![]) is None,
{
    reveal_strlit("Host ");
    reveal_strlit("ProxyCommand ");
    text::lemma_trim_id(seq![]);
}

/// Blank lines at the end change neither the names nor the routes.
proof fn lemma_blank_tail(ls: Seq<Seq<char>>, m: int, name: Seq<char>)
    requires
        0 <= m <= ls.len(),
        forall|i: int| m <= i < ls.len() ==> (#[trigger] ls[i]).len() == 0,
    ensures
        ssh::block_routes(ssh::blocks(ls.take(m))) == ssh::block_routes(ssh::blocks(ls)),
        ssh::has_block(ssh::blocks(ls.take(m)), name) == ssh::has_block(ssh::blocks(ls), name),
    decreases ls.len() - m,
{
    if m == ls.len() {
        assert(ls.take(m) =~= ls);
    } else {
        lemma_blank_tail(ls, m + 1, name);
        assert(ls[m] =~= seq![]);
        assert(ls.take(m + 1) =~= ls.take(m).push(seq![]));
        lemma_blank_is_idle();
        lemma_idle_line(ls.take(m), seq![], name);
    }
}

// ---------------------------------------------------------------------------
// Rendered lines
// ---------------------------------------------------------------------------

/// Whether no line holds a newline.
spec fn unbroken(ls: Seq<Seq<char>>) -> bool {
    forall|i: int| 0 <= i < ls.len() ==> !text::has_char(#[trigger] ls[i], '\n')
}

proof fn lemma_render_end(ls: Seq<Seq<char>>)
    ensures
        ls.len() == 0 ==> ssh::render(ls).len() == 0,
        ls.len() > 0 ==> ssh::render(ls).len() > 0 && ssh::render(ls).last() == '\n',
{
}

/// The lines of a rendering are the lines that were rendered, less a carriage
/// return at the end of each.
proof fn lemma_lines_render(ls: Seq<Seq<char>>)
    requires
        unbroken(ls),
    ensures
        text::lines(ssh::render(ls)) == ls.map_values(|l: Seq<char>| text::strip_cr(l)),
    decreases ls.len(),
{
    let strip = |l: Seq<char>| text::strip_cr(l);
    if ls.len() == 0 {
        assert(ls.map_values(strip) =~= seq![]);
        assert(text::lines(ssh::render(ls)) =~= seq![]);
    } else {
        let init = ls.drop_last();
        assert forall|i: int| 0 <= i < init.len() implies !text::has_char(
            #[trigger] init[i],
            '\n',
        ) by {
            assert(init[i] == ls[i]);
        }
        lemma_lines_render(init);
        lemma_render_end(init);
        assert(!text::has_char(ls[ls.len() - 1], '\n'));
        text::lemma_lines_one(ls.last());
        text::lemma_lines_add(ssh::render(init), ls.last().push('\n'));
        assert(ls.map_values(strip) =~= init.map_values(strip) + seq![text::strip_cr(ls.last())]);
    }
}

/// A text that ends in a newline and has no carriage return before one is the
/// rendering of its lines.
proof fn lemma_render_lines(s: Seq<char>)
    requires
        s.len() == 0 || s.last() == '\n',
        !text::contains(s, seq!['\r', '\n']),
    ensures
        ssh::render(text::lines(s)) == s,
    decreases s.len(),
{
    if s.len() == 0 {
        assert(text::lines(s) =~= seq![]);
        assert(ssh::render(seq![]) =~= s);
    } else {
        text::lemma_find(s, '\n');
        let k = text::find(s, '\n');
        if k == s.len() {
            assert(s[s.len() - 1] != '\n');
        }
        let first = s.take(k);
        let rest = s.skip(k + 1);
        if first.len() > 0 && first.last() == '\r' {
            assert(s.subrange(k - 1, k + 1) =~= seq!['\r', '\n']);
            assert(text::occurs_at(s, seq!['\r', '\n'], k - 1));
        }
        assert(text::strip_cr(first) == first);
        if text::contains(rest, seq!['\r', '\n']) {
            let crlf = seq!['\r', '\n'];
            let i = choose|i: int| #[trigger] text::occurs_at(rest, crlf, i);
            assert(s.subrange(i + k + 1, i + k + 3) =~= rest.subrange(i, i + 2));
            assert(text::occurs_at(s, seq!['\r', '\n'], i + k + 1));
        }
        lemma_render_lines(rest);
        ssh::lemma_render_add(seq![first], text::lines(rest));
        ssh::lemma_render_push(seq![], first);
        assert(seq![].push(first) =~= seq![first]);
        assert(ssh::render(seq![first]) =~= first.push('\n'));
        assert(first.push('\n') + rest =~= s);
    }
}

/// Cutting off the blank lines at the end of a rendering leaves out the last
/// lines, all of them blank.
proof fn lemma_strip_render(ls: Seq<Seq<char>>) -> (m: int)
    requires
        unbroken(ls),
    ensures
        0 <= m <= ls.len(),
        ls.len() > 0 ==> m > 0,
        forall|i: int| m <= i < ls.len() ==> (#[trigger] ls[i]).len() == 0,
        ssh::strip_blank_tail(ssh::render(ls)) == ssh::render(ls.take(m)),
        !text::ends_with(ssh::render(ls.take(m)), seq!['\n', '\n']),
    decreases ls.len(),
{
    let s = ssh::render(ls);
    let nn = seq!['\n', '\n'];
    lemma_render_end(ls);
    if ls.len() > 0 {
        lemma_render_end(ls.drop_last());
        assert(!text::has_char(ls[ls.len() - 1], '\n'));
    }
    if text::ends_with(s, nn) {
        assert(s.skip(s.len() - 2)[0] == s[s.len() - 2]);
        assert(s[s.len() - 2] == '\n');
        let init = ls.drop_last();
        if ls.last().len() > 0 {
            assert(s[s.len() - 2] == ls.last().last());
            assert(text::has_char(ls.last(), '\n'));
        }
        assert(s.drop_last() =~= ssh::render(init));
        assert forall|i: int| 0 <= i < init.len() implies !text::has_char(
            #[trigger] init[i],
            '\n',
        ) by {
            assert(init[i] == ls[i]);
        }
        let m = lemma_strip_render(init);
        assert(init.take(m) =~= ls.take(m));
        assert(init.len() > 0);
        assert forall|i: int| m <= i < ls.len() implies (#[trigger] ls[i]).len() == 0 by {
            if i < init.len() {
                assert(init[i] == ls[i]);
            }
        }
        m
    } else {
        assert(ls.take(ls.len() as int) =~= ls);
        ls.len() as int
    }
}

proof fn lemma_unbroken_cons(l: Seq<char>, ls: Seq<Seq<char>>)
    requires
        !text::has_char(l, '\n'),
        unbroken(ls),
    ensures
        unbroken(seq![l] + ls),
{
    let all = seq![l] + ls;
    assert forall|i: int| 0 <= i < all.len() implies !text::has_char(#[trigger] all[i], '\n') by {
        if i > 0 {
            assert(all[i] == ls[i - 1]);
        }
    }
}

proof fn lemma_unbroken_add(a: Seq<Seq<char>>, b: Seq<Seq<char>>)
    requires
        unbroken(a),
        unbroken(b),
    ensures
        unbroken(a + b),
{
    let all = a + b;
    assert forall|i: int| 0 <= i < all.len() implies !text::has_char(#[trigger] all[i], '\n') by {
        if i < a.len() {
            assert(all[i] == a[i]);
        } else {
            assert(all[i] == b[i - a.len()]);
        }
    }
}

proof fn lemma_kept_unbroken(ls: Seq<Seq<char>>, name: Seq<char>)
    requires
        unbroken(ls),
    ensures
        unbroken(ssh::preamble(ls)),
        unbroken(ssh::block_lines(ssh::without(ssh::blocks(ls), name))),
        unbroken(ssh::kept_lines(ls, name)),
    decreases ls.len(),
{
    if ls.len() == 0 {
        assert(ls =~= seq![]);
        ssh::lemma_no_lines();
        assert(ssh::block_lines(ssh::without(seq![], name)) =~= seq![]);
    } else {
        let tail = ls.skip(1);
        assert forall|i: int| 0 <= i < tail.len() implies !text::has_char(
            #[trigger] tail[i],
            '\n',
        ) by {
            assert(tail[i] == ls[i + 1]);
        }
        lemma_kept_unbroken(tail, name);
        ssh::lemma_first_line(ls);
        assert(!text::has_char(ls[0], '\n'));
        lemma_unbroken_cons(ls[0], ssh::preamble(tail));
        match ssh::host_of(ls[0]) {
            Some(n) => {
                let b = ssh::HostBlock { header: ls[0], name: n, body: ssh::preamble(tail) };
                ssh::lemma_without_cons(b, ssh::blocks(tail), name);
                if n != name {
                    ssh::lemma_block_lines_cons(b, ssh::without(ssh::blocks(tail), name));
                    lemma_unbroken_add(
                        seq![ls[0]] + ssh::preamble(tail),
                        ssh::block_lines(ssh::without(ssh::blocks(tail), name)),
                    );
                }
            },
            None => {},
        }
    }
    lemma_unbroken_add(
        ssh::preamble(ls),
        ssh::block_lines(ssh::without(ssh::blocks(ls), name)),
    );
}

/// What is left of a configuration reads like the lines that are kept.
proof fn lemma_left(content: Seq<char>, name: Seq<char>)
    requires
        ssh::without_host(content, name) is Some,
    ensures
        ({
            let left = ssh::without_host(content, name)->0;
            let kept = ssh::kept_lines(text::lines(content), name);
            &&& left.len() == 0 || left.last() == '\n'
            &&& !text::ends_with(left, seq!['\n', '\n'])
            &&& ssh::block_routes(ssh::blocks(text::lines(left))) == ssh::block_routes(
                ssh::blocks(kept),
            )
            &&& !ssh::has_block(ssh::blocks(text::lines(left)), name)
        }),
{
    let left = ssh::without_host(content, name)->0;
    let ls = text::lines(content);
    let kept = ssh::kept_lines(ls, name);
    text::lemma_lines_hold_no_newline(content);
    lemma_kept_unbroken(ls, name);
    let m = lemma_strip_render(kept);
    let short = kept.take(m);
    assert forall|i: int| 0 <= i < short.len() implies !text::has_char(
        #[trigger] short[i],
        '\n',
    ) by {
        assert(short[i] == kept[i]);
    }
    lemma_render_end(short);
    lemma_lines_render(short);
    let got = text::lines(left);
    assert(alike(got, short)) by {
        assert forall|i: int| 0 <= i < got.len() implies text::trim(#[trigger] got[i])
            == text::trim(short[i]) by {
            assert(got[i] == text::strip_cr(short[i]));
            text::lemma_trim_strip_cr(short[i]);
        }
    }
    lemma_alike(got, short);
    lemma_same_blocks(ssh::blocks(got), ssh::blocks(short), name);
    lemma_blank_tail(kept, m, name);
    lemma_kept_blocks(ls, name);
}

proof fn lemma_routes_without(bs: Seq<ssh::HostBlock>, name: Seq<char>)
    ensures
        ssh::block_routes(ssh::without(bs, name)) == ssh::block_routes(bs).filter(
            |r: (Seq<char>, Seq<char>)| r.0 != name,
        ),
    decreases bs.len(),
{
    let other = |r: (Seq<char>, Seq<char>)| r.0 != name;
    if bs.len() == 0 {
        reveal(Seq::filter);
    } else {
        let b = bs[0];
        let rest = bs.skip(1);
        lemma_routes_without(rest, name);
        ssh::lemma_routes_cons(b, ssh::without(rest, name));
        let first = match ssh::body_endpoint(b.body) {
            Some(e) => seq![(b.name, e)],
            None => seq![],
        };
        assert(ssh::block_routes(bs) =~= first + ssh::block_routes(rest));
        Seq::filter_distributes_over_add(first, ssh::block_routes(rest), other);
        assert(first.filter(other) =~= if b.name == name {
            seq![]
        } else {
            first
        }) by {
            reveal_with_fuel(Seq::filter, 2);
            if first.len() > 0 {
                assert(first.drop_last() =~= seq![]);
            }
        }
        assert(seq![] + ssh::block_routes(rest).filter(other) =~= ssh::block_routes(rest).filter(
            other,
        ));
    }
}

// ---------------------------------------------------------------------------
// The block of a route
// ---------------------------------------------------------------------------

/// Whether a name can stand on a `Host` line: it is not empty, it stands on one
/// line, and there is no whitespace at its ends.
pub open spec fn is_host_name(name: Seq<char>) -> bool {
    &&& name.len() > 0
    &&& text::trim(name) == name
    &&& !text::has_char(name, '\n')
}

/// Whether a text is one word.
pub open spec fn is_word(s: Seq<char>) -> bool {
    s.len() > 0 && text::no_white(s)
}

spec fn proxy_line(endpoint: Seq<char>) -> Seq<char> {
    "    ProxyCommand pigeons fly --stdio "@ + endpoint
}

/// The lines of the block of a route.
spec fn route_lines(name: Seq<char>, endpoint: Seq<char>) -> Seq<Seq<char>> {
    seq![
        "Host "@ + name,
        proxy_line(endpoint),
        "    UserKnownHostsFile /dev/null"@,
        "    StrictHostKeyChecking no"@,
    ]
}

proof fn lemma_route_block_renders(name: Seq<char>, endpoint: Seq<char>)
    ensures
        ssh::route_block(name, endpoint) == ssh::render(route_lines(name, endpoint)),
{
    let ls = route_lines(name, endpoint);
    reveal_strlit("\n    ProxyCommand pigeons fly --stdio ");
    reveal_strlit("    ProxyCommand pigeons fly --stdio ");
    reveal_strlit("\n    UserKnownHostsFile /dev/null\n    StrictHostKeyChecking no\n");
    reveal_strlit("    UserKnownHostsFile /dev/null");
    reveal_strlit("    StrictHostKeyChecking no");
    assert("\n    ProxyCommand pigeons fly --stdio "@ =~= seq!['\n']
        + "    ProxyCommand pigeons fly --stdio "@);
    assert("\n    UserKnownHostsFile /dev/null\n    StrictHostKeyChecking no\n"@ =~= seq!['\n']
        + "    UserKnownHostsFile /dev/null"@ + seq!['\n'] + "    StrictHostKeyChecking no"@
        + seq!['\n']);
    let l1 = Seq::<Seq<char>>::empty().push(ls[0]);
    let l2 = l1.push(ls[1]);
    let l3 = l2.push(ls[2]);
    let l4 = l3.push(ls[3]);
    ssh::lemma_render_push(seq![], ls[0]);
    ssh::lemma_render_push(l1, ls[1]);
    ssh::lemma_render_push(l2, ls[2]);
    ssh::lemma_render_push(l3, ls[3]);
    assert(l4 =~= ls);
    assert(ssh::render(seq![]) =~= seq![]);
    assert(ssh::route_block(name, endpoint) =~= ssh::render(l4));
}

proof fn lemma_trim_indent(s: Seq<char>)
    requires
        s.len() > 0,
        !text::is_white(s[0]),
        !text::is_white(s.last()),
    ensures
        text::trim("    "@ + s) == s,
{
    reveal_strlit("    ");
    let blank = seq![' '];
    text::lemma_trim_leading(' ', s);
    text::lemma_trim_leading(' ', blank + s);
    text::lemma_trim_leading(' ', blank + (blank + s));
    text::lemma_trim_leading(' ', blank + (blank + (blank + s)));
    assert("    "@ + s =~= blank + (blank + (blank + (blank + s))));
    text::lemma_trim_id(s);
}

proof fn lemma_option_lines()
    ensures
        ssh::host_of("    UserKnownHostsFile /dev/null"@) is None,
        ssh::line_flight("    UserKnownHostsFile /dev/null"@) is None,
        ssh::host_of("    StrictHostKeyChecking no"@) is None,
        ssh::line_flight("    StrictHostKeyChecking no"@) is None,
{
    reveal_strlit("    ");
    reveal_strlit("Host ");
    reveal_strlit("ProxyCommand ");
    reveal_strlit("    UserKnownHostsFile /dev/null");
    reveal_strlit("UserKnownHostsFile /dev/null");
    reveal_strlit("    StrictHostKeyChecking no");
    reveal_strlit("StrictHostKeyChecking no");
    let u = "UserKnownHostsFile /dev/null"@;
    let k = "StrictHostKeyChecking no"@;
    assert("    UserKnownHostsFile /dev/null"@ =~= "    "@ + u);
    assert("    StrictHostKeyChecking no"@ =~= "    "@ + k);
    lemma_trim_indent(u);
    lemma_trim_indent(k);
    assert("Host "@[0] == 'H' && "ProxyCommand "@[0] == 'P' && u[0] == 'U' && k[0] == 'S');
    assert(u.take(5)[0] == 'U' && k.take(5)[0] == 'S');
    assert(u.take(13)[0] == 'U' && k.take(13)[0] == 'S');
}

proof fn lemma_proxy_line(endpoint: Seq<char>)
    requires
        is_word(endpoint),
    ensures
        ssh::host_of(proxy_line(endpoint)) is None,
        ssh::line_id(proxy_line(endpoint)) == Some(endpoint),
        ssh::invokes_pigeons(proxy_line(endpoint)),
{
    reveal_strlit("    ");
    reveal_strlit("Host ");
    reveal_strlit("ProxyCommand");
    reveal_strlit("ProxyCommand ");
    reveal_strlit("pigeons");
    reveal_strlit("fly");
    reveal_strlit("--stdio");
    reveal_strlit("    ProxyCommand pigeons fly --stdio ");
    let blank = seq![' '];
    let tail = "--stdio"@ + blank + endpoint;
    let cmd = "pigeons"@ + blank + ("fly"@ + blank + tail);
    let t = "ProxyCommand "@ + cmd;
    assert(proxy_line(endpoint) =~= "    "@ + t);
    assert(t[0] == 'P');
    assert(t.last() == endpoint[endpoint.len() - 1]);
    lemma_trim_indent(t);
    assert(t.take(5)[0] == 'P' && "Host "@[0] == 'H');
    assert(t.take(13) =~= "ProxyCommand "@);
    assert(t.skip(13) =~= cmd);
    assert(cmd[0] == 'p');
    assert(cmd.last() == endpoint[endpoint.len() - 1]);
    text::lemma_trim_id(cmd);
    text::lemma_words_one(endpoint);
    text::lemma_words_cons("--stdio"@, endpoint);
    text::lemma_words_cons("fly"@, tail);
    text::lemma_words_cons("pigeons"@, "fly"@ + blank + tail);
    assert(text::words(cmd) =~= seq!["pigeons"@, "fly"@, "--stdio"@, endpoint]);
    assert(t.take(12) =~= "ProxyCommand"@);
    assert(t.subrange(13, 20) =~= "pigeons"@);
    assert(text::occurs_at(t, "pigeons"@, 13));
}

proof fn lemma_host_line(name: Seq<char>)
    requires
        is_host_name(name),
    ensures
        ssh::host_of("Host "@ + name) == Some(name),
{
    reveal_strlit("Host ");
    let l = "Host "@ + name;
    text::lemma_trim_ends(name);
    assert(l[0] == 'H');
    assert(l.last() == name.last());
    text::lemma_trim_id(l);
    assert(l.take(5) =~= "Host "@);
    assert(l.skip(5) =~= name);
}

proof fn lemma_no_newline(s: Seq<char>, t: Seq<char>)
    requires
        !text::has_char(s, '\n'),
        !text::has_char(t, '\n'),
    ensures
        !text::has_char(s + t, '\n'),
{
    if text::has_char(s + t, '\n') {
        let i = choose|i: int| 0 <= i < (s + t).len() && #[trigger] (s + t)[i] == '\n';
        if i < s.len() {
            assert(s[i] == '\n');
        } else {
            assert(t[i - s.len()] == '\n');
        }
    }
}

/// The lines of the block of a route, read back.
proof fn lemma_route_block_lines(name: Seq<char>, endpoint: Seq<char>)
    requires
        is_host_name(name),
        is_word(endpoint),
    ensures
        text::lines(ssh::route_block(name, endpoint)) == route_lines(name, endpoint),
{
    let ls = route_lines(name, endpoint);
    lemma_route_block_renders(name, endpoint);
    reveal_strlit("Host ");
    reveal_strlit("    ProxyCommand pigeons fly --stdio ");
    reveal_strlit("    UserKnownHostsFile /dev/null");
    reveal_strlit("    StrictHostKeyChecking no");
    text::lemma_trim_ends(name);
    lemma_no_newline("Host "@, name);
    assert(!text::has_char(endpoint, '\n'));
    lemma_no_newline("    ProxyCommand pigeons fly --stdio "@, endpoint);
    assert(unbroken(ls));
    lemma_lines_render(ls);
    assert(ls[0].last() == name.last());
    assert(ls[1].last() == endpoint[endpoint.len() - 1]);
    assert(ls.map_values(|l: Seq<char>| text::strip_cr(l)) =~= ls);
}

/// The block of a route is one block, of its name, that flies to its endpoint.
proof fn lemma_route_blocks(name: Seq<char>, endpoint: Seq<char>)
    requires
        is_host_name(name),
        is_word(endpoint),
    ensures
        ({
            let ls = route_lines(name, endpoint);
            let bs = ssh::blocks(ls);
            &&& ssh::host_of(ls[0]) == Some(name)
            &&& bs.len() == 1
            &&& bs[0].name == name
            &&& ssh::runs_pigeons(bs[0].body)
            &&& ssh::block_routes(bs) == seq![(name, endpoint)]
        }),
{
    let ls = route_lines(name, endpoint);
    let body = ls.skip(1);
    lemma_host_line(name);
    lemma_proxy_line(endpoint);
    lemma_option_lines();
    assert(body =~= seq![ls[1], ls[2], ls[3]]);
    assert(all_plain(body));
    lemma_plain_prefix(body, seq![]);
    assert(body + Seq::<Seq<char>>::empty() =~= body);
    ssh::lemma_no_lines();
    ssh::lemma_first_line(ls);
    let b = ssh::HostBlock { header: ls[0], name, body };
    assert(ssh::blocks(ls) =~= seq![b]);
    assert(ssh::invokes_pigeons(body[0]));
    assert(ssh::body_endpoint(body) == Some(endpoint)) by {
        let b2 = body.drop_last();
        let b1 = b2.drop_last();
        assert(body.last() == ls[3] && b2.last() == ls[2] && b1.last() == ls[1]);
        assert(ssh::line_id(ls[2]) is None && ssh::line_id(ls[3]) is None);
        assert(ssh::last_id(b1) == Some(endpoint));
        assert(ssh::last_id(b2) == Some(endpoint));
    }
    ssh::lemma_routes_cons(b, seq![]);
    assert(seq![b] + Seq::<ssh::HostBlock>::empty() =~= seq![b]);
    assert(ssh::block_routes(seq![]) =~= seq![]);
    assert(ssh::block_routes(seq![b]) =~= seq![(name, endpoint)]);
}

/// Lines that begin with a `Host` line start their own blocks after any others.
proof fn lemma_blocks_add(a: Seq<Seq<char>>, b: Seq<Seq<char>>)
    requires
        b.len() > 0,
        ssh::host_of(b[0]) is Some,
    ensures
        ssh::preamble(a + b) == ssh::preamble(a),
        ssh::blocks(a + b) == ssh::blocks(a) + ssh::blocks(b),
    decreases a.len(),
{
    if a.len() == 0 {
        assert(a =~= seq![]);
        assert(a + b =~= b);
        ssh::lemma_no_lines();
        ssh::lemma_first_line(b);
        assert(ssh::preamble(b) =~= seq![]);
        assert(ssh::blocks(a) + ssh::blocks(b) =~= ssh::blocks(b));
    } else {
        let tail = a.skip(1);
        assert((a + b).skip(1) =~= tail + b);
        assert((a + b)[0] == a[0]);
        lemma_blocks_add(tail, b);
        ssh::lemma_first_line(a);
        ssh::lemma_first_line(a + b);
        assert(ssh::preamble(a + b) =~= ssh::preamble(a));
        assert(ssh::blocks(a + b) =~= ssh::blocks(a) + ssh::blocks(b));
    }
}

proof fn lemma_routes_add(a: Seq<ssh::HostBlock>, b: Seq<ssh::HostBlock>)
    ensures
        ssh::block_routes(a + b) == ssh::block_routes(a) + ssh::block_routes(b),
    decreases a.len(),
{
    if a.len() == 0 {
        assert(a + b =~= b);
        assert(ssh::block_routes(a) + ssh::block_routes(b) =~= ssh::block_routes(b));
    } else {
        let rest = a.skip(1);
        lemma_routes_add(rest, b);
        assert((a + b).skip(1) =~= rest + b);
        assert((a + b)[0] == a[0]);
        assert(ssh::block_routes(a + b) =~= ssh::block_routes(a) + ssh::block_routes(b));
    }
}

proof fn lemma_without_add(a: Seq<ssh::HostBlock>, b: Seq<ssh::HostBlock>, name: Seq<char>)
    ensures
        ssh::without(a + b, name) == ssh::without(a, name) + ssh::without(b, name),
    decreases a.len(),
{
    if a.len() == 0 {
        assert(a + b =~= b);
        assert(ssh::without(a, name) + ssh::without(b, name) =~= ssh::without(b, name));
    } else {
        let rest = a.skip(1);
        lemma_without_add(rest, b, name);
        assert((a + b).skip(1) =~= rest + b);
        assert((a + b)[0] == a[0]);
        assert(ssh::without(a + b, name) =~= ssh::without(a, name) + ssh::without(b, name));
    }
}

/// The lines that stand before the block of an added route.
spec fn lines_before(left: Seq<char>) -> Seq<Seq<char>> {
    if left.len() == 0 {
        seq![]
    } else {
        text::lines(left).push(seq![])
    }
}

/// The lines of a configuration with an added route.
proof fn lemma_with_route_lines(content: Seq<char>, name: Seq<char>, endpoint: Seq<char>)
    requires
        ssh::without_host(content, name) is Some,
        is_host_name(name),
        is_word(endpoint),
    ensures
        text::lines(ssh::with_route(content, name, endpoint)->0) == lines_before(
            ssh::without_host(content, name)->0,
        ) + route_lines(name, endpoint),
{
    let left = ssh::without_host(content, name)->0;
    lemma_left(content, name);
    lemma_route_block_lines(name, endpoint);
    let head = ssh::before_block(left);
    if left.len() > 0 {
        let blank = seq!['\n'];
        assert(head =~= left + blank);
        text::lemma_lines_add(left, blank);
        text::lemma_lines_one(seq![]);
        assert(Seq::<char>::empty().push('\n') =~= blank);
        assert(text::lines(head) =~= lines_before(left));
    } else {
        assert(text::lines(head) =~= seq![]);
    }
    text::lemma_lines_add(head, ssh::route_block(name, endpoint));
}

// ---------------------------------------------------------------------------
// The laws
// ---------------------------------------------------------------------------

/// A host that was removed is gone: no block of its name is left.
pub proof fn removed_host_is_gone(content: Seq<char>, name: Seq<char>)
    requires
        ssh::without_host(content, name) is Some,
    ensures
        !ssh::has_block(ssh::blocks(text::lines(ssh::without_host(content, name)->0)), name),
{
    lemma_left(content, name);
}

/// Removing a host keeps every route of another name, in order, and no route of
/// its own.
pub proof fn removal_keeps_other_routes(content: Seq<char>, name: Seq<char>)
    requires
        ssh::without_host(content, name) is Some,
    ensures
        ssh::routes(ssh::without_host(content, name)->0) == ssh::routes(content).filter(
            |r: (Seq<char>, Seq<char>)| r.0 != name,
        ),
{
    lemma_left(content, name);
    lemma_kept_blocks(text::lines(content), name);
    lemma_routes_without(ssh::blocks(text::lines(content)), name);
}

/// Removing a host that is not there leaves a tidy configuration as it is: one
/// that ends in a newline but in no blank line, without carriage returns at the
/// ends of its lines.
pub proof fn removal_of_an_absent_host_changes_nothing(content: Seq<char>, name: Seq<char>)
    requires
        !ssh::has_block(ssh::blocks(text::lines(content)), name),
        content.len() == 0 || content.last() == '\n',
        !text::contains(content, seq!['\r', '\n']),
        !text::ends_with(content, seq!['\n', '\n']),
    ensures
        ssh::without_host(content, name) == Some(content),
{
    let ls = text::lines(content);
    let bs = ssh::blocks(ls);
    if ssh::has_foreign_block(bs, name) {
        let i = choose|i: int|
            0 <= i < bs.len() && (#[trigger] bs[i]).name == name && !ssh::runs_pigeons(bs[i].body);
        assert(bs[i].name == name);
    }
    lemma_blocks_well_formed(ls);
    lemma_without_well_formed(bs, name);
    lemma_kept_all(ls);
    lemma_render_lines(content);
}

/// Removing a host twice is removing it once, unless a carriage return is left at
/// the end of a line.
pub proof fn removal_is_idempotent(content: Seq<char>, name: Seq<char>)
    requires
        ssh::without_host(content, name) matches Some(left) && !text::contains(
            left,
            seq!['\r', '\n'],
        ),
    ensures
        ssh::without_host(ssh::without_host(content, name)->0, name) == ssh::without_host(
            content,
            name,
        ),
{
    lemma_left(content, name);
    removal_of_an_absent_host_changes_nothing(ssh::without_host(content, name)->0, name);
}

/// Where a host is there and every block of its name flies with pigeons, its
/// removal succeeds: what is left differs from what was there.
pub proof fn removal_of_a_route_succeeds(content: Seq<char>, name: Seq<char>)
    requires
        ssh::has_block(ssh::blocks(text::lines(content)), name),
        !ssh::has_foreign_block(ssh::blocks(text::lines(content)), name),
    ensures
        ssh::without_host(content, name) is Some,
        ssh::without_host(content, name) != Some(content),
{
    lemma_left(content, name);
}

/// A block that is listed is one of ours: no listed route is refused as foreign.
pub proof fn listed_blocks_run_pigeons(body: Seq<Seq<char>>)
    requires
        ssh::body_endpoint(body) is Some,
    ensures
        ssh::runs_pigeons(body),
    decreases body.len(),
{
    let l = body.last();
    if ssh::line_flight(l) is Some {
        lemma_flights_invoke_pigeons(l);
        assert(ssh::invokes_pigeons(body[body.len() - 1]));
    } else {
        let init = body.drop_last();
        assert(ssh::line_id(l) is None);
        listed_blocks_run_pigeons(init);
        let i = choose|i: int| 0 <= i < init.len() && ssh::invokes_pigeons(#[trigger] init[i]);
        assert(ssh::invokes_pigeons(body[i]));
    }
}

/// A block with a `pigeons fly --stdio` is listed with the endpoint of the last one,
/// whatever other flights it has.
pub proof fn the_last_stdio_flight_counts(
    before: Seq<Seq<char>>,
    line: Seq<char>,
    after: Seq<Seq<char>>,
)
    requires
        ssh::line_id(line) is Some,
        forall|i: int| 0 <= i < after.len() ==> ssh::line_id(#[trigger] after[i]) is None,
    ensures
        ssh::body_endpoint(before.push(line) + after) == ssh::line_id(line),
{
    lemma_last_id(before, line, after);
}

proof fn lemma_last_id(before: Seq<Seq<char>>, line: Seq<char>, after: Seq<Seq<char>>)
    requires
        ssh::line_id(line) is Some,
        forall|i: int| 0 <= i < after.len() ==> ssh::line_id(#[trigger] after[i]) is None,
    ensures
        ssh::last_id(before.push(line) + after) == ssh::line_id(line),
    decreases after.len(),
{
    let body = before.push(line) + after;
    if after.len() == 0 {
        assert(body.last() == line);
    } else {
        let shorter = after.drop_last();
        assert(body.last() == after[after.len() - 1]);
        assert(body.drop_last() =~= before.push(line) + shorter);
        assert forall|i: int| 0 <= i < shorter.len() implies ssh::line_id(
            #[trigger] shorter[i],
        ) is None by {
            assert(shorter[i] == after[i]);
        }
        lemma_last_id(before, line, shorter);
    }
}

proof fn lemma_flights_invoke_pigeons(l: Seq<char>)
    requires
        ssh::line_flight(l) is Some,
    ensures
        ssh::invokes_pigeons(l),
{
    reveal_strlit("ProxyCommand");
    reveal_strlit("ProxyCommand ");
    let t = text::trim(l);
    let rest = t.skip(13);
    assert(t.take(12) =~= "ProxyCommand"@) by {
        assert(t.take(13).take(12) =~= t.take(12));
        assert("ProxyCommand "@.take(12) =~= "ProxyCommand"@);
    }
    let cmd = text::trim(rest);
    text::lemma_first_word(cmd);
    text::lemma_trim_part(rest);
    let i = choose|i: int| text::occurs_at(cmd, "pigeons"@, i);
    let j = choose|j: int| text::occurs_at(rest, cmd, j);
    let p = "pigeons"@;
    assert(t.subrange(13 + j + i, 13 + j + i + p.len()) =~= rest.subrange(j, j + cmd.len()).subrange(
        i,
        i + p.len(),
    ));
    assert(text::occurs_at(t, p, 13 + j + i));
}

/// After a route was added, the routes are those of other names that were there,
/// in order, and the new route.
pub proof fn added_route_is_listed(content: Seq<char>, name: Seq<char>, endpoint: Seq<char>)
    requires
        ssh::with_route(content, name, endpoint) is Some,
        is_host_name(name),
        is_word(endpoint),
    ensures
        ssh::routes(ssh::with_route(content, name, endpoint)->0) == ssh::routes(content).filter(
            |r: (Seq<char>, Seq<char>)| r.0 != name,
        ).push((name, endpoint)),
{
    let left = ssh::without_host(content, name)->0;
    let head = lines_before(left);
    let block = route_lines(name, endpoint);
    lemma_with_route_lines(content, name, endpoint);
    lemma_route_blocks(name, endpoint);
    lemma_blocks_add(head, block);
    lemma_routes_add(ssh::blocks(head), ssh::blocks(block));
    removal_keeps_other_routes(content, name);
    if left.len() > 0 {
        lemma_blank_is_idle();
        lemma_idle_line(text::lines(left), seq![], name);
    } else {
        assert(text::lines(left) =~= seq![]);
    }
    assert(ssh::block_routes(ssh::blocks(head)) == ssh::routes(left));
    assert(ssh::routes(left) + seq![(name, endpoint)] =~= ssh::routes(left).push(
        (name, endpoint),
    ));
}

/// The route to an endpoint that was added is listed last, and its endpoint ID is
/// read back as the same endpoint.
pub proof fn added_endpoint_reads_back(content: Seq<char>, name: Seq<char>, key: Seq<u8>)
    requires
        ssh::with_route(content, name, identity::hex(key)) is Some,
        is_host_name(name),
        identity::is_key(key),
        key.len() == 32,
    ensures
        ({
            let listed = ssh::routes(ssh::with_route(content, name, identity::hex(key))->0);
            &&& listed.len() > 0
            &&& listed.last().0 == name
            &&& identity::parsed_key(listed.last().1) == Ok::<Seq<u8>, KeyParseError>(key)
        }),
{
    identity::hex_digits_only(key);
    added_route_is_listed(content, name, identity::hex(key));
}

/// Removing a route undoes adding it: what is left is what a removal before would
/// have left, unless that has a carriage return at the end of a line.
pub proof fn removal_undoes_addition(content: Seq<char>, name: Seq<char>, endpoint: Seq<char>)
    requires
        ssh::without_host(content, name) matches Some(left) && !text::contains(
            left,
            seq!['\r', '\n'],
        ),
        is_host_name(name),
        is_word(endpoint),
    ensures
        ssh::with_route(content, name, endpoint) is Some,
        ssh::without_host(ssh::with_route(content, name, endpoint)->0, name) == ssh::without_host(
            content,
            name,
        ),
{
    let left = ssh::without_host(content, name)->0;
    let head = lines_before(left);
    let block = route_lines(name, endpoint);
    let all = head + block;
    lemma_left(content, name);
    lemma_with_route_lines(content, name, endpoint);
    lemma_route_blocks(name, endpoint);
    lemma_blocks_add(head, block);
    if left.len() > 0 {
        lemma_blank_is_idle();
        lemma_idle_line(text::lines(left), seq![], name);
    } else {
        ssh::lemma_no_lines();
    }
    let hb = ssh::blocks(head);
    let bb = ssh::blocks(block);
    assert(!ssh::has_block(hb, name));
    let bs = hb + bb;
    if ssh::has_foreign_block(bs, name) {
        let i = choose|i: int|
            0 <= i < bs.len() && (#[trigger] bs[i]).name == name && !ssh::runs_pigeons(bs[i].body);
        if i < hb.len() {
            assert(bs[i] == hb[i]);
        } else {
            assert(bs[i] == bb[0]);
        }
    }
    lemma_without_add(hb, bb, name);
    lemma_blocks_well_formed(head);
    lemma_without_well_formed(hb, name);
    assert(ssh::without(bb, name) =~= seq![]) by {
        assert(bb.skip(1) =~= seq![]);
        assert(ssh::without(bb.skip(1), name) =~= seq![]);
    }
    assert(hb + Seq::<ssh::HostBlock>::empty() =~= hb);
    lemma_kept_all(head);
    assert(ssh::kept_lines(all, name) == head);
    if left.len() > 0 {
        lemma_render_lines(left);
        ssh::lemma_render_push(text::lines(left), seq![]);
        let longer = left.push('\n');
        assert(ssh::render(head) =~= longer);
        assert(longer.skip(longer.len() - 2) =~= seq!['\n', '\n']);
        assert(text::ends_with(longer, seq!['\n', '\n']));
        assert(longer.drop_last() =~= left);
        assert(ssh::strip_blank_tail(left) == left);
        assert(ssh::strip_blank_tail(longer) == left);
    } else {
        assert(ssh::render(head) =~= left);
        assert(ssh::strip_blank_tail(left) == left);
    }
}

/// Adding a route replaces the one of the same name: adding two in turn gives the
/// same configuration as adding the second alone, unless what a removal would
/// leave has a carriage return at the end of a line.
pub proof fn addition_replaces(
    content: Seq<char>,
    name: Seq<char>,
    first: Seq<char>,
    second: Seq<char>,
)
    requires
        ssh::without_host(content, name) matches Some(left) && !text::contains(
            left,
            seq!['\r', '\n'],
        ),
        is_host_name(name),
        is_word(first),
    ensures
        ssh::with_route(content, name, first) is Some,
        ssh::with_route(ssh::with_route(content, name, first)->0, name, second) == ssh::with_route(
            content,
            name,
            second,
        ),
{
    removal_undoes_addition(content, name, first);
}

/// A name that is taken by a host that does not fly with pigeons is refused, for
/// adding and for removing, and no other name is.
pub proof fn foreign_hosts_are_refused(content: Seq<char>, name: Seq<char>, endpoint: Seq<char>)
    ensures
        ssh::without_host(content, name) is None <==> ssh::has_foreign_block(
            ssh::blocks(text::lines(content)),
            name,
        ),
        ssh::with_route(content, name, endpoint) is None <==> ssh::has_foreign_block(
            ssh::blocks(text::lines(content)),
            name,
        ),
{
}

// ---------------------------------------------------------------------------
// What the lines of a configuration say
// ---------------------------------------------------------------------------

proof fn lemma_keyword(
    word: Seq<char>,
    a: Seq<char>,
    gap: Seq<char>,
    n: Seq<char>,
    b: Seq<char>,
)
    requires
        word.len() > 0,
        !text::is_white(word[0]),
        text_laws::all_white(a),
        text_laws::all_white(gap),
        n.len() > 0,
        text_laws::is_trimmed(n),
        text_laws::all_white(b),
    ensures
        ({
            let t = text::trim(a + word + gap + n + b);
            &&& text::starts_with(t, word)
            &&& text::trim(t.skip(word.len() as int)) == n
        }),
{
    let t = word + gap + n;
    assert(t[t.len() - 1] == n[n.len() - 1]);
    text_laws::trimming_takes_away_outer_whitespace(a, t, b);
    assert(a + word + gap + n + b =~= a + t + b);
    assert(t =~= word + (gap + n));
    text_laws::prefixes_come_first(t, word, gap + n);
    let none = Seq::<char>::empty();
    assert(t.skip(word.len() as int) =~= gap + n + none);
    text_laws::trimming_takes_away_outer_whitespace(gap, n, none);
}

proof fn lemma_keyword_back(word: Seq<char>, line: Seq<char>) -> (r: (
    Seq<char>,
    Seq<char>,
    Seq<char>,
))
    requires
        word.len() > 0,
        text::is_white(word[word.len() - 1]),
        text::starts_with(text::trim(line), word),
    ensures
        ({
            let n = text::trim(text::trim(line).skip(word.len() as int));
            &&& line == r.0 + word + r.1 + n + r.2
            &&& text_laws::all_white(r.0)
            &&& text_laws::all_white(r.1)
            &&& text_laws::all_white(r.2)
            &&& n.len() > 0
            &&& text_laws::is_trimmed(n)
        }),
{
    let (a, b) = text_laws::every_text_can_be_trimmed(line);
    let t = text::trim(line);
    text_laws::prefixes_come_first(t, word, seq![]);
    let rest = t.skip(word.len() as int);
    let (gap, y) = text_laws::every_text_can_be_trimmed(rest);
    let n = text::trim(rest);
    assert(rest.len() > 0) by {
        if rest.len() == 0 {
            assert(t[t.len() - 1] == word[word.len() - 1]);
        }
    }
    assert(t[t.len() - 1] == rest[rest.len() - 1]);
    if y.len() > 0 {
        assert(rest[rest.len() - 1] == y[y.len() - 1]);
    }
    if n.len() == 0 {
        assert(rest[rest.len() - 1] == gap[gap.len() - 1]);
    }
    assert(line =~= a + word + gap + n + b);
    (a, gap, b)
}

/// A line opens a block for a host where it is `Host` and the name, with any
/// whitespace around and between them.
pub proof fn host_lines_name_their_host(a: Seq<char>, gap: Seq<char>, name: Seq<char>, b: Seq<char>)
    requires
        text_laws::all_white(a),
        text_laws::all_white(gap),
        name.len() > 0,
        text_laws::is_trimmed(name),
        text_laws::all_white(b),
    ensures
        ssh::host_of(a + "Host "@ + gap + name + b) == Some(name),
{
    assert("Host "@.len() > 0 && !text::is_white("Host "@[0])) by {
        reveal_strlit("Host ");
    }
    lemma_keyword("Host "@, a, gap, name, b);
}

/// No other line opens a block: one that does is `Host` and the name, with
/// whitespace around and between them.
pub proof fn only_host_lines_open_blocks(line: Seq<char>) -> (r: (Seq<char>, Seq<char>, Seq<char>))
    requires
        ssh::host_of(line) is Some,
    ensures
        line == r.0 + "Host "@ + r.1 + ssh::host_of(line)->0 + r.2,
        text_laws::all_white(r.0),
        text_laws::all_white(r.1),
        text_laws::all_white(r.2),
        ssh::host_of(line)->0.len() > 0,
        text_laws::is_trimmed(ssh::host_of(line)->0),
{
    assert("Host "@.len() > 0 && text::is_white("Host "@["Host "@.len() - 1])) by {
        reveal_strlit("Host ");
    }
    lemma_keyword_back("Host "@, line)
}

/// A line gives a proxy command where it is `ProxyCommand` and the command, with any
/// whitespace around and between them.
pub proof fn proxy_lines_give_their_command(
    a: Seq<char>,
    gap: Seq<char>,
    cmd: Seq<char>,
    b: Seq<char>,
)
    requires
        text_laws::all_white(a),
        text_laws::all_white(gap),
        cmd.len() > 0,
        text_laws::is_trimmed(cmd),
        text_laws::all_white(b),
    ensures
        ssh::proxy_command(a + "ProxyCommand "@ + gap + cmd + b) == Some(cmd),
{
    assert("ProxyCommand "@.len() > 0 && !text::is_white("ProxyCommand "@[0])) by {
        reveal_strlit("ProxyCommand ");
    }
    lemma_keyword("ProxyCommand "@, a, gap, cmd, b);
}

/// No other line gives a proxy command.
pub proof fn only_proxy_lines_give_commands(line: Seq<char>) -> (r: (
    Seq<char>,
    Seq<char>,
    Seq<char>,
))
    requires
        ssh::proxy_command(line) is Some,
    ensures
        line == r.0 + "ProxyCommand "@ + r.1 + ssh::proxy_command(line)->0 + r.2,
        text_laws::all_white(r.0),
        text_laws::all_white(r.1),
        text_laws::all_white(r.2),
        text_laws::is_trimmed(ssh::proxy_command(line)->0),
{
    assert("ProxyCommand "@.len() > 0 && text::is_white(
        "ProxyCommand "@["ProxyCommand "@.len() - 1],
    )) by {
        reveal_strlit("ProxyCommand ");
    }
    lemma_keyword_back("ProxyCommand "@, line)
}

/// A line whose first word begins with `ProxyCommand` and that speaks of `pigeons`
/// behind it invokes pigeons.
pub proof fn lines_that_invoke_pigeons(a: Seq<char>, x: Seq<char>, b: Seq<char>)
    requires
        text_laws::all_white(a),
    ensures
        ssh::invokes_pigeons(a + "ProxyCommand"@ + x + "pigeons"@ + b),
{
    let w = "ProxyCommand"@;
    let p = "pigeons"@;
    assert(w.len() > 0 && !text::is_white(w[0])) by {
        reveal_strlit("ProxyCommand");
    }
    assert(p.len() > 0 && !text::is_white(p[p.len() - 1])) by {
        reveal_strlit("pigeons");
    }
    lemma_trimmed_between(a, w, x, p, b);
}

/// Trimming a text that has a word first and another somewhere behind it, but for
/// whitespace before them, keeps both.
proof fn lemma_trimmed_between(
    a: Seq<char>,
    w: Seq<char>,
    x: Seq<char>,
    p: Seq<char>,
    b: Seq<char>,
)
    requires
        text_laws::all_white(a),
        w.len() > 0,
        !text::is_white(w[0]),
        p.len() > 0,
        !text::is_white(p[p.len() - 1]),
    ensures
        text::starts_with(text::trim(a + w + x + p + b), w),
        text::contains(text::trim(a + w + x + p + b), p),
{
    let line = a + w + x + p + b;
    let n = line.len() as int;
    let (l, r) = text_laws::every_text_can_be_trimmed(line);
    let t = text::trim(line);
    assert(line[a.len() as int] == w[0]);
    assert(line[n - b.len() - 1] == p[p.len() - 1]);
    lemma_ends_of_a_trimmed_text(line, l, t, r, a.len() as int, n - b.len() - 1);
    assert(l.len() == a.len()) by {
        if l.len() < a.len() {
            assert(t[0] == line[l.len() as int]);
            assert(line[l.len() as int] == a[l.len() as int]);
        }
    }
    assert forall|i: int| 0 <= i < t.len() implies #[trigger] t[i] == line[a.len() + i] by {}
    assert(t.take(w.len() as int) =~= w);
    let k = (w.len() + x.len()) as int;
    assert(t.subrange(k, k + p.len()) =~= p);
    assert(text::occurs_at(t, p, k));
}

/// Characters that are not whitespace are not trimmed away.
proof fn lemma_ends_of_a_trimmed_text(
    line: Seq<char>,
    l: Seq<char>,
    t: Seq<char>,
    r: Seq<char>,
    i: int,
    j: int,
)
    requires
        line == l + t + r,
        text_laws::all_white(l),
        text_laws::all_white(r),
        0 <= i <= j < line.len(),
        !text::is_white(line[i]),
        !text::is_white(line[j]),
    ensures
        l.len() <= i,
        j < line.len() - r.len(),
{
    if i < l.len() {
        assert(line[i] == l[i]);
    }
    if j >= line.len() - r.len() {
        assert(line[j] == r[j - (line.len() - r.len())]);
    }
}

/// Whether a line begins with a word, but for whitespace before it.
pub open spec fn begins_with_word(line: Seq<char>, word: Seq<char>) -> bool {
    exists|k: int|
        0 <= k <= line.len() && text_laws::all_white(#[trigger] line.take(k)) && text::starts_with(
            line.skip(k),
            word,
        )
}

/// A line that does not speak of `pigeons`, or that does not begin with
/// `ProxyCommand`, does not invoke pigeons.
pub proof fn no_other_line_invokes_pigeons(line: Seq<char>)
    requires
        ssh::invokes_pigeons(line),
    ensures
        text::contains(line, "pigeons"@),
        begins_with_word(line, "ProxyCommand"@),
{
    let (a, b) = text_laws::every_text_can_be_trimmed(line);
    let t = text::trim(line);
    lemma_part_of_part(a, t, b, "pigeons"@);
    let w = "ProxyCommand"@;
    let k = a.len() as int;
    assert(line.take(k) =~= a);
    assert(line.skip(k).take(w.len() as int) =~= t.take(w.len() as int));
}

proof fn lemma_part_of_part(a: Seq<char>, t: Seq<char>, b: Seq<char>, p: Seq<char>)
    requires
        text::contains(t, p),
    ensures
        text::contains(a + t + b, p),
{
    let i = choose|i: int| text::occurs_at(t, p, i);
    let s = a + t + b;
    let j = a.len() + i;
    assert(s.subrange(j, j + p.len()) =~= t.subrange(i, i + p.len()));
    assert(text::occurs_at(s, p, j));
}

/// A host is refused, for adding and for removing, where a block of its name speaks
/// of `pigeons` in no line: what is not ours is left alone.
pub proof fn hosts_without_pigeons_are_refused(
    content: Seq<char>,
    name: Seq<char>,
    endpoint: Seq<char>,
    i: int,
)
    requires
        0 <= i < ssh::blocks(text::lines(content)).len(),
        ssh::blocks(text::lines(content))[i].name == name,
        forall|j: int|
            0 <= j < ssh::blocks(text::lines(content))[i].body.len() ==> !text::contains(
                #[trigger] ssh::blocks(text::lines(content))[i].body[j],
                "pigeons"@,
            ),
    ensures
        ssh::without_host(content, name) is None,
        ssh::with_route(content, name, endpoint) is None,
{
    let bs = ssh::blocks(text::lines(content));
    let body = bs[i].body;
    if ssh::runs_pigeons(body) {
        let j = choose|j: int| 0 <= j < body.len() && ssh::invokes_pigeons(#[trigger] body[j]);
        no_other_line_invokes_pigeons(body[j]);
    }
    assert(bs[i].name == name && !ssh::runs_pigeons(bs[i].body));
}

/// A host is refused exactly where one of the blocks of its name has no line that
/// invokes pigeons.
pub proof fn refusals(content: Seq<char>, name: Seq<char>)
    ensures
        ssh::without_host(content, name) is None <==> exists|i: int|
            {
                &&& 0 <= i < ssh::blocks(text::lines(content)).len()
                &&& (#[trigger] ssh::blocks(text::lines(content))[i]).name == name
                &&& forall|j: int|
                    0 <= j < ssh::blocks(text::lines(content))[i].body.len()
                        ==> !ssh::invokes_pigeons(
                        #[trigger] ssh::blocks(text::lines(content))[i].body[j],
                    )
            },
{
    let bs = ssh::blocks(text::lines(content));
    assert forall|i: int| 0 <= i < bs.len() implies (!ssh::runs_pigeons((#[trigger] bs[i]).body)
        <==> forall|j: int|
        0 <= j < bs[i].body.len() ==> !ssh::invokes_pigeons(#[trigger] bs[i].body[j])) by {
    }
    if ssh::has_foreign_block(bs, name) {
        let i = choose|i: int|
            0 <= i < bs.len() && (#[trigger] bs[i]).name == name && !ssh::runs_pigeons(bs[i].body);
        assert(bs[i].name == name);
    }
}

/// The blocks of a configuration and the lines before them make up its lines. Each
/// block begins with the line that names it, and no other line in it, and none
/// before the first, is such a line.
pub proof fn the_blocks_make_up_the_lines(ls: Seq<Seq<char>>)
    ensures
        ssh::preamble(ls) + ssh::block_lines(ssh::blocks(ls)) == ls,
        forall|j: int|
            0 <= j < ssh::preamble(ls).len() ==> ssh::host_of(#[trigger] ssh::preamble(ls)[j]) is None,
        forall|i: int|
            0 <= i < ssh::blocks(ls).len() ==> ssh::host_of((#[trigger] ssh::blocks(ls)[i]).header)
                == Some(ssh::blocks(ls)[i].name),
        forall|i: int, j: int|
            0 <= i < ssh::blocks(ls).len() && 0 <= j < ssh::blocks(ls)[i].body.len()
                ==> ssh::host_of(#[trigger] ssh::blocks(ls)[i].body[j]) is None,
{
    lemma_blocks_well_formed(ls);
    lemma_kept_all(ls);
    let bs = ssh::blocks(ls);
    assert forall|i: int, j: int|
        0 <= i < bs.len() && 0 <= j < bs[i].body.len() implies ssh::host_of(
        #[trigger] bs[i].body[j],
    ) is None by {
        assert(all_plain(bs[i].body));
    }
}

/// The lines of some blocks are those of each of them, in order; the blocks of other
/// names are all the blocks but those of the name, in order.
pub proof fn blocks_are_taken_one_by_one(
    before: Seq<ssh::HostBlock>,
    block: ssh::HostBlock,
    after: Seq<ssh::HostBlock>,
    name: Seq<char>,
)
    ensures
        ssh::block_lines(before + seq![block] + after) == ssh::block_lines(before) + (seq![
            block.header,
        ] + block.body) + ssh::block_lines(after),
        block.name == name ==> ssh::without(before + seq![block] + after, name) == ssh::without(
            before,
            name,
        ) + ssh::without(after, name),
        block.name != name ==> ssh::without(before + seq![block] + after, name) == ssh::without(
            before,
            name,
        ) + seq![block] + ssh::without(after, name),
        ssh::block_lines(seq![]) == Seq::<Seq<char>>::empty(),
        ssh::without(seq![], name) == Seq::<ssh::HostBlock>::empty(),
    decreases before.len(),
{
    let all = before + seq![block] + after;
    if before.len() == 0 {
        assert(all.skip(1) =~= after);
        assert(all[0] == block);
        assert(ssh::block_lines(before) =~= seq![]);
        assert(ssh::without(before, name) =~= seq![]);
        assert(ssh::block_lines(all) =~= ssh::block_lines(before) + (seq![block.header]
            + block.body) + ssh::block_lines(after));
        assert(ssh::without(before, name) + ssh::without(after, name) =~= ssh::without(after, name));
        assert(ssh::without(before, name) + seq![block] + ssh::without(after, name) =~= seq![block]
            + ssh::without(after, name));
    } else {
        let tail = before.skip(1);
        blocks_are_taken_one_by_one(tail, block, after, name);
        assert(all.skip(1) =~= tail + seq![block] + after);
        assert(all[0] == before[0]);
        assert(ssh::block_lines(all) =~= ssh::block_lines(before) + (seq![block.header]
            + block.body) + ssh::block_lines(after));
        if block.name == name {
            assert(ssh::without(all, name) =~= ssh::without(before, name) + ssh::without(
                after,
                name,
            ));
        } else {
            assert(ssh::without(all, name) =~= ssh::without(before, name) + seq![block]
                + ssh::without(after, name));
        }
    }
}

/// Removing a host leaves every other line as it is and in its place, but for blank
/// lines at the very end: what is left are the lines before the first block and
/// those of the blocks of other names.
pub proof fn removal_keeps_every_other_line(content: Seq<char>, name: Seq<char>) -> (m: int)
    requires
        ssh::without_host(content, name) is Some,
    ensures
        ({
            let ls = text::lines(content);
            let left = ssh::without_host(content, name)->0;
            let others = ssh::preamble(ls) + ssh::block_lines(ssh::without(ssh::blocks(ls), name));
            &&& 0 <= m <= others.len()
            &&& others.len() > 0 ==> m > 0
            &&& forall|i: int| m <= i < others.len() ==> (#[trigger] others[i]).len() == 0
            &&& text::lines(left) == others.take(m).map_values(|l: Seq<char>| text::strip_cr(l))
            &&& left.len() == 0 || left[left.len() - 1] == '\n'
            &&& !text::ends_with(left, seq!['\n', '\n'])
        }),
{
    let ls = text::lines(content);
    let kept = ssh::kept_lines(ls, name);
    text::lemma_lines_hold_no_newline(content);
    lemma_kept_unbroken(ls, name);
    let m = lemma_strip_render(kept);
    let short = kept.take(m);
    assert forall|i: int| 0 <= i < short.len() implies !text::has_char(
        #[trigger] short[i],
        '\n',
    ) by {
        assert(short[i] == kept[i]);
    }
    lemma_lines_render(short);
    lemma_left(content, name);
    m
}

/// Adding a route leaves what is left of the configuration as it is and puts the
/// block of the route behind it, with a blank line between them: the host, the
/// flight to the endpoint, and the two options that take the host key on trust.
pub proof fn addition_appends_the_block_of_the_route(
    content: Seq<char>,
    name: Seq<char>,
    endpoint: Seq<char>,
)
    requires
        ssh::with_route(content, name, endpoint) is Some,
        is_host_name(name),
        is_word(endpoint),
    ensures
        ({
            let left = ssh::without_host(content, name)->0;
            let block = seq![
                "Host "@ + name,
                "    ProxyCommand pigeons fly --stdio "@ + endpoint,
                "    UserKnownHostsFile /dev/null"@,
                "    StrictHostKeyChecking no"@,
            ];
            let config = ssh::with_route(content, name, endpoint)->0;
            &&& ssh::without_host(content, name) is Some
            &&& text::starts_with(config, left)
            &&& left.len() == 0 ==> text::lines(config) == block
            &&& left.len() > 0 ==> text::lines(config) == text::lines(left).push(seq![]) + block
            &&& config[config.len() - 1] == '\n'
        }),
{
    let left = ssh::without_host(content, name)->0;
    let config = ssh::with_route(content, name, endpoint)->0;
    lemma_with_route_lines(content, name, endpoint);
    let block = ssh::route_block(name, endpoint);
    let rest = ssh::before_block(left).skip(left.len() as int) + block;
    assert(config =~= left + rest);
    text_laws::prefixes_come_first(config, left, rest);
    assert(route_lines(name, endpoint) =~= seq![
        "Host "@ + name,
        "    ProxyCommand pigeons fly --stdio "@ + endpoint,
        "    UserKnownHostsFile /dev/null"@,
        "    StrictHostKeyChecking no"@,
    ]);
    if left.len() == 0 {
        assert(Seq::<Seq<char>>::empty() + route_lines(name, endpoint) =~= route_lines(
            name,
            endpoint,
        ));
    }
    reveal_strlit("\n    UserKnownHostsFile /dev/null\n    StrictHostKeyChecking no\n");
    let end = "\n    UserKnownHostsFile /dev/null\n    StrictHostKeyChecking no\n"@;
    assert(config[config.len() - 1] == end[end.len() - 1]);
}

/// A block is listed under its name with the endpoint that it flies to, and not at
/// all where it flies nowhere; the blocks are listed one by one, in order.
pub proof fn blocks_are_listed_one_by_one(
    before: Seq<ssh::HostBlock>,
    block: ssh::HostBlock,
    after: Seq<ssh::HostBlock>,
)
    ensures
        ssh::body_endpoint(block.body) matches Some(endpoint) ==> ssh::block_routes(
            before + seq![block] + after,
        ) == ssh::block_routes(before) + seq![(block.name, endpoint)] + ssh::block_routes(after),
        ssh::body_endpoint(block.body) is None ==> ssh::block_routes(before + seq![block] + after)
            == ssh::block_routes(before) + ssh::block_routes(after),
        ssh::block_routes(seq![]) == Seq::<(Seq<char>, Seq<char>)>::empty(),
{
    ssh::lemma_routes_cons(block, after);
    lemma_routes_add(before, seq![block] + after);
    assert(before + seq![block] + after =~= before + (seq![block] + after));
    assert(ssh::block_routes(seq![]) =~= seq![]);
    match ssh::body_endpoint(block.body) {
        Some(endpoint) => {
            assert(ssh::block_routes(before) + (seq![(block.name, endpoint)] + ssh::block_routes(
                after,
            )) =~= ssh::block_routes(before) + seq![(block.name, endpoint)] + ssh::block_routes(
                after,
            ));
        },
        None => {},
    }
}

/// A block without a `pigeons fly --stdio` is listed with the endpoint of its last
/// flight, and one without a flight is not listed.
pub proof fn another_flight_counts_where_there_is_no_stdio_flight(
    before: Seq<Seq<char>>,
    line: Seq<char>,
    after: Seq<Seq<char>>,
)
    requires
        forall|i: int|
            0 <= i < (before.push(line) + after).len() ==> ssh::line_id(
                #[trigger] (before.push(line) + after)[i],
            ) is None,
        forall|i: int| 0 <= i < after.len() ==> ssh::line_flight(#[trigger] after[i]) is None,
    ensures
        ssh::line_flight(line) is Some ==> ssh::body_endpoint(before.push(line) + after)
            == ssh::line_flight(line),
        ssh::body_endpoint(after) is None,
    decreases after.len(),
{
    let body = before.push(line) + after;
    lemma_no_id(body);
    lemma_no_flight(after);
    assert forall|i: int| 0 <= i < after.len() implies ssh::line_id(#[trigger] after[i]) is None by {
        assert(body[before.len() + 1 + i] == after[i]);
    }
    lemma_no_id(after);
    if ssh::line_flight(line) is Some {
        lemma_last_flight(before, line, after);
    }
}

proof fn lemma_no_id(body: Seq<Seq<char>>)
    requires
        forall|i: int| 0 <= i < body.len() ==> ssh::line_id(#[trigger] body[i]) is None,
    ensures
        ssh::last_id(body) is None,
    decreases body.len(),
{
    if body.len() > 0 {
        let init = body.drop_last();
        assert(body.last() == body[body.len() - 1]);
        assert forall|i: int| 0 <= i < init.len() implies ssh::line_id(#[trigger] init[i]) is None by {
            assert(init[i] == body[i]);
        }
        lemma_no_id(init);
    }
}

proof fn lemma_no_flight(body: Seq<Seq<char>>)
    requires
        forall|i: int| 0 <= i < body.len() ==> ssh::line_flight(#[trigger] body[i]) is None,
    ensures
        ssh::last_flight(body) is None,
    decreases body.len(),
{
    if body.len() > 0 {
        let init = body.drop_last();
        assert(body.last() == body[body.len() - 1]);
        assert forall|i: int| 0 <= i < init.len() implies ssh::line_flight(
            #[trigger] init[i],
        ) is None by {
            assert(init[i] == body[i]);
        }
        lemma_no_flight(init);
    }
}

proof fn lemma_last_flight(before: Seq<Seq<char>>, line: Seq<char>, after: Seq<Seq<char>>)
    requires
        ssh::line_flight(line) is Some,
        forall|i: int| 0 <= i < after.len() ==> ssh::line_flight(#[trigger] after[i]) is None,
    ensures
        ssh::last_flight(before.push(line) + after) == ssh::line_flight(line),
    decreases after.len(),
{
    let body = before.push(line) + after;
    if after.len() == 0 {
        assert(body.last() == line);
    } else {
        let shorter = after.drop_last();
        assert(body.last() == after[after.len() - 1]);
        assert(body.drop_last() =~= before.push(line) + shorter);
        assert forall|i: int| 0 <= i < shorter.len() implies ssh::line_flight(
            #[trigger] shorter[i],
        ) is None by {
            assert(shorter[i] == after[i]);
        }
        lemma_last_flight(before, line, shorter);
    }
}

/// Whether some words begin with others.
pub open spec fn begin_with(words: Seq<Seq<char>>, head: Seq<Seq<char>>) -> bool {
    exists|rest: Seq<Seq<char>>| words == #[trigger] (head + rest)
}

/// What a command must be to fly to an endpoint: its words are `pigeons fly --stdio`,
/// the endpoint, and whatever comes behind.
pub proof fn stdio_flights_name_their_endpoint(cmd: Seq<char>, endpoint: Seq<char>)
    ensures
        ssh::command_endpoint(cmd) == Some(endpoint) <==> begin_with(
            text::words(cmd),
            seq!["pigeons"@, "fly"@, "--stdio"@, endpoint],
        ),
        ssh::flight_endpoint(cmd) is Some <==> begin_with(
            text::words(cmd),
            seq!["pigeons"@, "fly"@],
        ),
        ssh::command_endpoint(cmd) is Some ==> ssh::flight_endpoint(cmd) == ssh::command_endpoint(
            cmd,
        ),
{
    let parts = text::words(cmd);
    let four = seq!["pigeons"@, "fly"@, "--stdio"@, endpoint];
    let two = seq!["pigeons"@, "fly"@];
    if ssh::command_endpoint(cmd) == Some(endpoint) {
        assert(parts =~= four + parts.skip(4));
    }
    if begin_with(parts, four) {
        let rest = choose|rest: Seq<Seq<char>>| parts == #[trigger] (four + rest);
        assert(parts[0] == four[0] && parts[1] == four[1] && parts[2] == four[2] && parts[3]
            == four[3]);
    }
    if ssh::flight_endpoint(cmd) is Some {
        assert(parts =~= two + parts.skip(2));
    }
    if begin_with(parts, two) {
        let rest = choose|rest: Seq<Seq<char>>| parts == #[trigger] (two + rest);
        assert(parts[0] == two[0] && parts[1] == two[1]);
    }
}

/// The endpoint of a flight is found behind its options: one that takes a value is
/// passed over together with the value, any other by itself.
pub proof fn options_are_passed_over(word: Seq<char>, value: Seq<char>, rest: Seq<Seq<char>>)
    ensures
        word == "--key-dir"@ || word == "--direct-address"@ || word == "--relay-url"@
            ==> ssh::first_operand(seq![word, value] + rest) == ssh::first_operand(rest)
            && ssh::first_operand(seq![word]) == Seq::<char>::empty(),
        word.len() > 0 && word[0] == '-' && word != "--key-dir"@ && word != "--direct-address"@
            && word != "--relay-url"@ ==> ssh::first_operand(seq![word] + rest)
            == ssh::first_operand(rest),
        word.len() > 0 && word[0] != '-' ==> ssh::first_operand(seq![word] + rest) == word,
        ssh::first_operand(seq![]) == Seq::<char>::empty(),
{
    reveal_strlit("-");
    reveal_strlit("--key-dir");
    reveal_strlit("--direct-address");
    reveal_strlit("--relay-url");
    let one = seq![word] + rest;
    let two = seq![word, value] + rest;
    assert(one[0] == word && two[0] == word);
    assert(one.skip(1) =~= rest);
    assert(two.skip(2) =~= rest);
    assert(seq![word][0] == word);
    if word.len() > 0 {
        assert(word.take(1)[0] == word[0]);
        assert(word[0] == '-' ==> word.take(1) =~= "-"@);
        assert("--key-dir"@[0] == '-' && "--direct-address"@[0] == '-' && "--relay-url"@[0] == '-');
    }
}

/// The errors show the host that they are about, or the place of the configuration.
pub proof fn errors_show_the_host(name: String, path: Seq<char>)
    ensures
        text::contains(ssh::SshConfigError::NoHost(name).words(path), name@),
        text::contains(ssh::SshConfigError::NotPigeons(name).words(path), name@),
        text::ends_with(ssh::SshConfigError::NoConfig.words(path), path),
{
    let none = Seq::<char>::empty();
    text_laws::parts_stand_inside("no host '"@, name@, "' found in ssh config"@);
    text_laws::parts_stand_inside("host '"@, name@, "' is not configured to use pigeons"@);
    text_laws::suffixes_come_last(none, path, "no ssh config found at "@);
}

/// What comes of removing a route. Where there is no configuration, there is nothing
/// to remove it from. Where the host is there and every block of its name invokes
/// pigeons, a configuration without that host is left, with every other route in
/// order. Where one of them does not, the host is refused.
pub proof fn outcomes_of_a_removal(content: Seq<char>, name: Seq<char>)
    ensures
        ssh::removal(None, name) is NoConfig,
        ({
            let bs = ssh::blocks(text::lines(content));
            let there = exists|i: int| 0 <= i < bs.len() && (#[trigger] bs[i]).name == name;
            let foreign = exists|i: int|
                0 <= i < bs.len() && (#[trigger] bs[i]).name == name && forall|j: int|
                    0 <= j < bs[i].body.len() ==> !ssh::invokes_pigeons(#[trigger] bs[i].body[j]);
            &&& foreign <==> ssh::removal(Some(content), name) is NotOurs
            &&& there && !foreign ==> ssh::removal(Some(content), name) is Left
        }),
        ssh::removal(Some(content), name) matches ssh::Removal::Left(left) ==> {
            &&& left != content
            &&& ssh::routes(left) == ssh::routes(content).filter(
                |r: (Seq<char>, Seq<char>)| r.0 != name,
            )
            &&& !exists|i: int|
                0 <= i < ssh::blocks(text::lines(left)).len() && (#[trigger] ssh::blocks(
                    text::lines(left),
                )[i]).name == name
        },
        !(ssh::removal(Some(content), name) is NoConfig),
{
    refusals(content, name);
    let bs = ssh::blocks(text::lines(content));
    if ssh::has_block(bs, name) && !ssh::has_foreign_block(bs, name) {
        removal_of_a_route_succeeds(content, name);
    }
    if ssh::without_host(content, name) is Some {
        removal_keeps_other_routes(content, name);
        removed_host_is_gone(content, name);
    }
}

} // verus!
