//! Reading `netstat -ano` and `tasklist` output: the `ports` table and the processes on a port.
use vstd::prelude::*;
use crate::cmdline::views;
use crate::lines::{lines_of, parse_port, parse_u16_spec, text_lines, words, words_of};
use crate::text::{
    append_chars, chars_of, contains_chars, contains_text, decimal, find_text, first_occurrence,
    last_index, occurs_at, pad_right, push_decimal, push_padded, rfind_char, same_chars, slice_part,
    starts_with_chars, string_of, strip_char, stripped, trim, trimmed, uppercase, uppercase_chars,
};

verus! {

/// What `String::from_utf8_lossy` makes of some bytes (invalid sequences become U+FFFD).
pub uninterp spec fn lossy_utf8(bytes: Seq<u8>) -> Seq<char>;

/// Calls `String::from_utf8_lossy`.
/// Trusted: the text is the named decoding `lossy_utf8` of the bytes, and for valid UTF-8
/// it is the plain decoding.
#[verifier::external_body]
pub(crate) fn decode_lossy(bytes: &[u8]) -> (r: String)
    ensures
        r@ == lossy_utf8(bytes@),
        vstd::utf8::valid_utf8(bytes@) ==> r@ == vstd::utf8::decode_utf8(bytes@),
{
    String::from_utf8_lossy(bytes).to_string()
}

/// The part of an address after its last `:` (the whole address when there is none).
pub open spec fn after_last_colon(s: Seq<char>) -> Seq<char> {
    match last_index(s, ':') {
        Some(k) => s.skip(k + 1),
        None => s,
    }
}

/// The part of `v` after its last `:`.
fn port_part(v: &[char]) -> (r: Vec<char>)
    ensures
        r@ == after_last_colon(v@),
{
    match rfind_char(v, ':') {
        Some(k) => {
            assert(k < v.len());
            let r = slice_part(v, k + 1, v.len());
            assert(r@ =~= v@.skip(k + 1));
            r
        },
        None => slice_part(v, 0, v.len()),
    }
}

/// A TCP or UDP line of `netstat -ano`, trimmed, split into at least three words,
/// whose second word ends in a port number: (port, first word uppercased, last word).
/// TCP lines count only when they say `LISTENING` (when `listening_only`).
pub open spec fn socket_line(line: Seq<char>, listening_only: bool) -> Option<(u16, Seq<char>, Seq<char>)> {
    let t = trim(line);
    let tcp = occurs_at(t, "TCP"@, 0);
    let udp = occurs_at(t, "UDP"@, 0);
    let parts = words(t);
    if !tcp && !udp {
        None
    } else if listening_only && tcp && !contains_text(t, "LISTENING"@) {
        None
    } else if parts.len() < 3 {
        None
    } else {
        match parse_u16_spec(after_last_colon(parts[1])) {
            Some(p) => Some((p, uppercase(parts[0]), parts.last())),
            None => None,
        }
    }
}

/// A socket of the `ports` table, as read.
pub struct Socket {
    pub port: u16,
    pub proto: Vec<char>,
    pub pid: Vec<char>,
}

/// The (port, protocol, pid) triples of a list of sockets.
pub open spec fn socket_views(v: Seq<Socket>) -> Seq<(u16, Seq<char>, Seq<char>)> {
    v.map_values(|s: Socket| (s.port, s.proto@, s.pid@))
}

/// Reads one line (see `socket_line`).
fn read_socket_line(line: &[char], listening_only: bool) -> (r: Option<Socket>)
    ensures
        match r {
            Some(s) => socket_line(line@, listening_only) == Some((s.port, s.proto@, s.pid@)),
            None => socket_line(line@, listening_only) is None,
        },
{
    let t = trimmed(line);
    let tcp_word = chars_of("TCP");
    let udp_word = chars_of("UDP");
    let is_tcp = starts_with_chars(t.as_slice(), tcp_word.as_slice());
    let is_udp = starts_with_chars(t.as_slice(), udp_word.as_slice());
    if !is_tcp && !is_udp {
        return None;
    }
    let listening = chars_of("LISTENING");
    if listening_only && is_tcp && !contains_chars(t.as_slice(), listening.as_slice()) {
        return None;
    }
    let parts = words_of(t.as_slice());
    if parts.len() < 3 {
        return None;
    }
    let digits = port_part(parts[1].as_slice());
    match parse_port(digits.as_slice()) {
        None => None,
        Some(port) => {
            let proto = uppercase_chars(parts[0].as_slice());
            let pid = slice_part(parts[parts.len() - 1].as_slice(), 0, parts[parts.len() - 1].len());
            assert(pid@ =~= words(t@).last());
            Some(Socket { port, proto, pid })
        },
    }
}

/// The listening sockets of `netstat -ano` output lines, in order, each once.
pub open spec fn listening_sockets(lines: Seq<Seq<char>>) -> Seq<(u16, Seq<char>, Seq<char>)>
    decreases lines.len(),
{
    if lines.len() == 0 {
        seq![]
    } else {
        let prev = listening_sockets(lines.drop_last());
        match socket_line(lines.last(), true) {
            Some(e) => if prev.contains(e) { prev } else { prev.push(e) },
            None => prev,
        }
    }
}

/// Inserts `e` after every socket whose port is not greater than its own.
pub open spec fn insert_by_port(s: Seq<(u16, Seq<char>, Seq<char>)>, e: (u16, Seq<char>, Seq<char>)) -> Seq<(u16, Seq<char>, Seq<char>)>
    decreases s.len(),
{
    if s.len() == 0 {
        seq![e]
    } else if s.last().0 <= e.0 {
        s.push(e)
    } else {
        insert_by_port(s.drop_last(), e).push(s.last())
    }
}

/// The sockets ordered by port; sockets with the same port keep their order
/// (what a stable sort by port gives).
pub open spec fn by_port(s: Seq<(u16, Seq<char>, Seq<char>)>) -> Seq<(u16, Seq<char>, Seq<char>)>
    decreases s.len(),
{
    if s.len() == 0 {
        seq![]
    } else {
        insert_by_port(by_port(s.drop_last()), s.last())
    }
}

proof fn lemma_insert_by_port_at(s: Seq<(u16, Seq<char>, Seq<char>)>, e: (u16, Seq<char>, Seq<char>), p: int)
    requires
        0 <= p <= s.len(),
        p > 0 ==> s[p - 1].0 <= e.0,
        forall|k: int| p <= k < s.len() ==> s[k].0 > e.0,
    ensures
        insert_by_port(s, e) == s.insert(p, e),
    decreases s.len(),
{
    if s.len() == 0 {
        assert(s.insert(p, e) =~= seq![e]);
    } else if p == s.len() {
        assert(s.insert(p, e) =~= s.push(e));
    } else {
        assert(s.last().0 > e.0);
        lemma_insert_by_port_at(s.drop_last(), e, p);
        assert(s.insert(p, e) =~= s.drop_last().insert(p, e).push(s.last()));
    }
}

proof fn lemma_insert_by_port(s: Seq<(u16, Seq<char>, Seq<char>)>, e: (u16, Seq<char>, Seq<char>))
    requires
        forall|i: int, j: int| 0 <= i < j < s.len() ==> s[i].0 <= s[j].0,
    ensures
        insert_by_port(s, e).to_multiset() == s.to_multiset().insert(e),
        forall|i: int, j: int| 0 <= i < j < insert_by_port(s, e).len() ==> insert_by_port(s, e)[i].0 <= insert_by_port(s, e)[j].0,
        insert_by_port(s, e).len() == s.len() + 1,
    decreases s.len(),
{
    broadcast use vstd::seq_lib::group_to_multiset_ensures;

    if s.len() == 0 {
        assert(seq![e] =~= Seq::<(u16, Seq<char>, Seq<char>)>::empty().push(e));
    } else if s.last().0 <= e.0 {
    } else {
        let init = s.drop_last();
        lemma_insert_by_port(init, e);
        let t = insert_by_port(init, e);
        assert(s =~= init.push(s.last()));
        assert forall|k: int| 0 <= k < t.len() implies t[k].0 <= s.last().0 by {
            assert(t.contains(t[k]));
            assert(t.to_multiset().count(t[k]) > 0);
            if t[k] != e {
                assert(init.to_multiset().count(t[k]) > 0);
                assert(init.contains(t[k]));
                let m = choose|m: int| 0 <= m < init.len() && init[m] == t[k];
                assert(s[m].0 <= s[s.len() - 1].0);
            }
        }
    }
}

/// The sockets ordered by port are the same sockets, in ascending port order.
pub proof fn lemma_by_port_sorted(s: Seq<(u16, Seq<char>, Seq<char>)>)
    ensures
        by_port(s).to_multiset() == s.to_multiset(),
        by_port(s).len() == s.len(),
        forall|i: int, j: int| 0 <= i < j < by_port(s).len() ==> by_port(s)[i].0 <= by_port(s)[j].0,
    decreases s.len(),
{
    broadcast use vstd::seq_lib::group_to_multiset_ensures;

    if s.len() > 0 {
        lemma_by_port_sorted(s.drop_last());
        lemma_insert_by_port(by_port(s.drop_last()), s.last());
        assert(s =~= s.drop_last().push(s.last()));
    }
}

/// The sockets on port `p`.
pub open spec fn on_port(p: u16) -> spec_fn((u16, Seq<char>, Seq<char>)) -> bool {
    |e: (u16, Seq<char>, Seq<char>)| e.0 == p
}

proof fn lemma_insert_by_port_keeps_order(t: Seq<(u16, Seq<char>, Seq<char>)>, e: (u16, Seq<char>, Seq<char>), p: u16)
    ensures
        insert_by_port(t, e).filter(on_port(p)) == if e.0 == p { t.filter(on_port(p)).push(e) } else { t.filter(on_port(p)) },
    decreases t.len(),
{
    reveal_with_fuel(Seq::filter, 2);
    if t.len() == 0 {
        assert(seq![e].drop_last() =~= t);
    } else if t.last().0 <= e.0 {
        assert(t.push(e).drop_last() =~= t);
    } else {
        let init = t.drop_last();
        lemma_insert_by_port_keeps_order(init, e, p);
        let u = insert_by_port(init, e);
        assert(u.push(t.last()).drop_last() =~= u);
    }
}

/// Ordering by port is stable: the sockets on any one port keep the order they came in.
pub proof fn lemma_by_port_stable(s: Seq<(u16, Seq<char>, Seq<char>)>, p: u16)
    ensures
        by_port(s).filter(on_port(p)) == s.filter(on_port(p)),
    decreases s.len(),
{
    reveal_with_fuel(Seq::filter, 1);
    if s.len() > 0 {
        lemma_by_port_stable(s.drop_last(), p);
        lemma_insert_by_port_keeps_order(by_port(s.drop_last()), s.last(), p);
    }
}

/// No socket appears twice in the listening sockets.
pub proof fn lemma_listening_sockets_distinct(lines: Seq<Seq<char>>)
    ensures
        forall|i: int, j: int| 0 <= i < j < listening_sockets(lines).len() ==> listening_sockets(lines)[i] != listening_sockets(lines)[j],
    decreases lines.len(),
{
    if lines.len() > 0 {
        lemma_listening_sockets_distinct(lines.drop_last());
        let prev = listening_sockets(lines.drop_last());
        let r = listening_sockets(lines);
        assert forall|i: int, j: int| 0 <= i < j < r.len() implies r[i] != r[j] by {
            if j == prev.len() {
                assert(r[i] == prev[i]);
                assert(prev.contains(r[i]));
            }
        }
    }
}

/// Every listening line's (port, protocol, pid) is among the listening sockets, and every
/// listening socket comes from a listening line.
pub proof fn lemma_listening_sockets_complete(lines: Seq<Seq<char>>)
    ensures
        forall|i: int| 0 <= i < lines.len() && #[trigger] socket_line(lines[i], true) is Some
            ==> listening_sockets(lines).contains(socket_line(lines[i], true)->0),
        forall|k: int| 0 <= k < listening_sockets(lines).len() ==> exists|i: int| 0 <= i < lines.len()
            && socket_line(lines[i], true) == Some(#[trigger] listening_sockets(lines)[k]),
    decreases lines.len(),
{
    if lines.len() > 0 {
        let init = lines.drop_last();
        lemma_listening_sockets_complete(init);
        let prev = listening_sockets(init);
        let r = listening_sockets(lines);
        assert forall|k: int| 0 <= k < prev.len() implies r.contains(prev[k]) by {
            assert(r[k] == prev[k]);
        }
        assert forall|i: int| 0 <= i < lines.len() && #[trigger] socket_line(lines[i], true) is Some
            implies r.contains(socket_line(lines[i], true)->0) by {
            if i < init.len() {
                assert(lines[i] == init[i]);
                assert(socket_line(init[i], true) is Some);
                let e = socket_line(init[i], true)->0;
                let k = choose|k: int| 0 <= k < prev.len() && prev[k] == e;
                assert(r[k] == prev[k]);
            } else {
                assert(lines[i] == lines.last());
                let e = socket_line(lines[i], true)->0;
                if !prev.contains(e) {
                    assert(r[prev.len() as int] == e);
                }
            }
        }
        assert forall|k: int| 0 <= k < r.len() implies exists|i: int| 0 <= i < lines.len()
            && socket_line(lines[i], true) == Some(#[trigger] r[k]) by {
            if k < prev.len() {
                assert(r[k] == prev[k]);
                let i = choose|i: int| 0 <= i < init.len() && socket_line(init[i], true) == Some(prev[k]);
                assert(lines[i] == init[i]);
            } else {
                assert(socket_line(lines[lines.len() - 1], true) == Some(r[k]));
            }
        }
    }
}

/// The sockets of `v` ordered by port (see `by_port`).
fn sort_by_port(v: &Vec<Socket>) -> (r: Vec<Socket>)
    ensures
        socket_views(r@) == by_port(socket_views(v@)),
{
    let ghost sv = socket_views(v@);
    let mut res: Vec<Socket> = Vec::new();
    let n = v.len();
    let mut i: usize = 0;
    assert(sv.take(0) =~= seq![]);
    while i < n
        invariant
            sv == socket_views(v@),
            n == sv.len(),
            i <= n,
            socket_views(res@) == by_port(sv.take(i as int)),
        decreases n - i,
    {
        let src = &v[i];
        let s = Socket {
            port: src.port,
            proto: slice_part(src.proto.as_slice(), 0, src.proto.len()),
            pid: slice_part(src.pid.as_slice(), 0, src.pid.len()),
        };
        let ghost e = (s.port, s.proto@, s.pid@);
        assert(s.proto@ =~= src.proto@);
        assert(s.pid@ =~= src.pid@);
        assert(e == sv[i as int]);
        let m = res.len();
        let mut p: usize = m;
        while p > 0 && res[p - 1].port > s.port
            invariant
                m == res@.len(),
                p <= m,
                forall|k: int| p <= k < m ==> (#[trigger] res@[k]).port > s.port,
            decreases p,
        {
            p = p - 1;
        }
        let ghost old_views = socket_views(res@);
        proof {
            lemma_insert_by_port_at(old_views, e, p as int);
            assert(sv.take(i + 1).drop_last() =~= sv.take(i as int));
        }
        res.insert(p, s);
        assert(socket_views(res@) =~= old_views.insert(p as int, e));
        i = i + 1;
    }
    assert(sv.take(n as int) =~= sv);
    res
}


/// Whether socket `s` is among `found`.
fn socket_seen(found: &Vec<Socket>, s: &Socket) -> (r: bool)
    ensures
        r == socket_views(found@).contains((s.port, s.proto@, s.pid@)),
{
    let n = found.len();
    let mut i: usize = 0;
    while i < n
        invariant
            n == found@.len(),
            i <= n,
            forall|k: int| 0 <= k < i ==> socket_views(found@)[k] != (s.port, s.proto@, s.pid@),
        decreases n - i,
    {
        let f = &found[i];
        if f.port == s.port && same_chars(f.proto.as_slice(), s.proto.as_slice())
            && same_chars(f.pid.as_slice(), s.pid.as_slice()) {
            assert(socket_views(found@)[i as int] == (s.port, s.proto@, s.pid@));
            return true;
        }
        i = i + 1;
    }
    false
}

/// The listening sockets of the lines (see `listening_sockets`).
fn collect_listening(lines: &Vec<Vec<char>>) -> (r: Vec<Socket>)
    ensures
        socket_views(r@) == listening_sockets(lines@.map_values(|l: Vec<char>| l@)),
{
    let ghost lv = lines@.map_values(|l: Vec<char>| l@);
    let mut found: Vec<Socket> = Vec::new();
    let n = lines.len();
    let mut i: usize = 0;
    while i < n
        invariant
            n == lines@.len(),
            lv == lines@.map_values(|l: Vec<char>| l@),
            i <= n,
            socket_views(found@) == listening_sockets(lv.take(i as int)),
        decreases n - i,
    {
        proof {
            assert(lv.take(i + 1).drop_last() =~= lv.take(i as int));
            assert(lv.take(i + 1).last() == lines@[i as int]@);
        }
        match read_socket_line(lines[i].as_slice(), true) {
            None => {},
            Some(s) => {
                if !socket_seen(&found, &s) {
                    let ghost old_views = socket_views(found@);
                    let ghost e = (s.port, s.proto@, s.pid@);
                    found.push(s);
                    assert(socket_views(found@) =~= old_views.push(e));
                }
            },
        }
        i = i + 1;
    }
    assert(lv.take(n as int) =~= lv);
    found
}

/// A line of `tasklist /FO CSV /NH` output, as (pid, process name): the first two
/// `","`-separated fields of the trimmed line, with quotes stripped from their ends,
/// when both are non-empty.
pub open spec fn task_line(line: Seq<char>) -> Option<(Seq<char>, Seq<char>)> {
    let t = trim(line);
    let sep = seq!['"', ',', '"'];
    match first_occurrence(t, sep) {
        None => None,
        Some(i) => {
            let rest = t.skip(i + 3);
            let second = match first_occurrence(rest, sep) {
                Some(j) => rest.take(j),
                None => rest,
            };
            let name = strip_char(t.take(i), '"');
            let pid = strip_char(second, '"');
            if name.len() > 0 && pid.len() > 0 { Some((pid, name)) } else { None }
        },
    }
}

/// The (pid, name) pairs of the `tasklist` lines, in order.
pub open spec fn task_pairs(lines: Seq<Seq<char>>) -> Seq<(Seq<char>, Seq<char>)>
    decreases lines.len(),
{
    if lines.len() == 0 {
        seq![]
    } else {
        let prev = task_pairs(lines.drop_last());
        match task_line(lines.last()) {
            Some(p) => prev.push(p),
            None => prev,
        }
    }
}

/// The process name recorded last for `pid`.
pub open spec fn name_of_pid(pairs: Seq<(Seq<char>, Seq<char>)>, pid: Seq<char>) -> Option<Seq<char>>
    decreases pairs.len(),
{
    if pairs.len() == 0 {
        None
    } else if pairs.last().0 == pid {
        Some(pairs.last().1)
    } else {
        name_of_pid(pairs.drop_last(), pid)
    }
}

/// Reads one `tasklist` line (see `task_line`).
fn read_task_line(line: &[char]) -> (r: Option<(Vec<char>, Vec<char>)>)
    ensures
        match r {
            Some(p) => task_line(line@) == Some((p.0@, p.1@)),
            None => task_line(line@) is None,
        },
{
    let t = trimmed(line);
    let mut sep: Vec<char> = Vec::new();
    sep.push('"');
    sep.push(',');
    sep.push('"');
    assert(sep@ =~= seq!['"', ',', '"']);
    match find_text(t.as_slice(), sep.as_slice()) {
        None => None,
        Some(i) => {
            assert(sep@.len() == 3);
            assert(i + 3 <= t.len());
            let rest = slice_part(t.as_slice(), i + 3, t.len());
            assert(rest@ =~= t@.skip(i + 3));
            let second = match find_text(rest.as_slice(), sep.as_slice()) {
                Some(j) => slice_part(rest.as_slice(), 0, j),
                None => slice_part(rest.as_slice(), 0, rest.len()),
            };
            proof {
                match first_occurrence(rest@, sep@) {
                    Some(j) => assert(second@ =~= rest@.take(j)),
                    None => assert(second@ =~= rest@),
                }
            }
            let first = slice_part(t.as_slice(), 0, i);
            assert(first@ =~= t@.take(i as int));
            let name = stripped(first.as_slice(), '"');
            let pid = stripped(second.as_slice(), '"');
            if name.len() > 0 && pid.len() > 0 {
                Some((pid, name))
            } else {
                None
            }
        },
    }
}

/// The (pid, name) pairs of the lines (see `task_pairs`).
fn collect_tasks(lines: &Vec<Vec<char>>) -> (r: Vec<(Vec<char>, Vec<char>)>)
    ensures
        r@.map_values(|p: (Vec<char>, Vec<char>)| (p.0@, p.1@)) == task_pairs(lines@.map_values(|l: Vec<char>| l@)),
{
    let ghost lv = lines@.map_values(|l: Vec<char>| l@);
    let mut pairs: Vec<(Vec<char>, Vec<char>)> = Vec::new();
    let n = lines.len();
    let mut i: usize = 0;
    while i < n
        invariant
            n == lines@.len(),
            lv == lines@.map_values(|l: Vec<char>| l@),
            i <= n,
            pairs@.map_values(|p: (Vec<char>, Vec<char>)| (p.0@, p.1@)) == task_pairs(lv.take(i as int)),
        decreases n - i,
    {
        proof {
            assert(lv.take(i + 1).drop_last() =~= lv.take(i as int));
            assert(lv.take(i + 1).last() == lines@[i as int]@);
        }
        match read_task_line(lines[i].as_slice()) {
            None => {},
            Some(p) => {
                let ghost old_views = pairs@.map_values(|p: (Vec<char>, Vec<char>)| (p.0@, p.1@));
                let ghost pv = (p.0@, p.1@);
                pairs.push(p);
                assert(pairs@.map_values(|p: (Vec<char>, Vec<char>)| (p.0@, p.1@)) =~= old_views.push(pv));
            },
        }
        i = i + 1;
    }
    assert(lv.take(n as int) =~= lv);
    pairs
}

/// The name recorded last for `pid` among `pairs`.
fn lookup_name(pairs: &Vec<(Vec<char>, Vec<char>)>, pid: &[char]) -> (r: Option<Vec<char>>)
    ensures
        match r {
            Some(n) => name_of_pid(pairs@.map_values(|p: (Vec<char>, Vec<char>)| (p.0@, p.1@)), pid@) == Some(n@),
            None => name_of_pid(pairs@.map_values(|p: (Vec<char>, Vec<char>)| (p.0@, p.1@)), pid@) is None,
        },
{
    let ghost pv = pairs@.map_values(|p: (Vec<char>, Vec<char>)| (p.0@, p.1@));
    let mut i: usize = pairs.len();
    assert(pv.take(pv.len() as int) =~= pv);
    while i > 0
        invariant
            pv == pairs@.map_values(|p: (Vec<char>, Vec<char>)| (p.0@, p.1@)),
            i <= pv.len(),
            name_of_pid(pv, pid@) == name_of_pid(pv.take(i as int), pid@),
        decreases i,
    {
        assert(pv.take(i as int).last() == (pairs@[i - 1].0@, pairs@[i - 1].1@));
        assert(pv.take(i as int).drop_last() =~= pv.take(i - 1));
        if same_chars(pairs[i - 1].0.as_slice(), pid) {
            return Some(slice_part(pairs[i - 1].1.as_slice(), 0, pairs[i - 1].1.len()));
        }
        i = i - 1;
    }
    None
}

/// Width of the port column: the longest port numeral, and at least 5.
pub open spec fn port_column(s: Seq<(u16, Seq<char>, Seq<char>)>) -> nat
    decreases s.len(),
{
    if s.len() == 0 {
        5
    } else {
        let w = port_column(s.drop_last());
        let l = decimal(s.last().0 as nat).len();
        if l > w { l } else { w }
    }
}

/// The heading of the `ports` table.
pub open spec fn ports_header(width: nat) -> Seq<char> {
    pad_right("PORT"@, width) + "  PROTO  PID      PROCESS"@
}

/// The line of one socket: port, protocol, pid and the name of the process (`-` when unknown).
pub open spec fn ports_row(e: (u16, Seq<char>, Seq<char>), width: nat, pairs: Seq<(Seq<char>, Seq<char>)>) -> Seq<char> {
    pad_right(decimal(e.0 as nat), width) + "  "@ + pad_right(e.1, 6) + " "@ + pad_right(e.2, 8) + " "@
        + match name_of_pid(pairs, e.2) {
        Some(n) => n,
        None => "-"@,
    }
}

/// The message when nothing listens.
pub open spec fn nothing_listening_msg() -> Seq<char> {
    "ports: nothing listening"@
}

/// The listening sockets in the output of `netstat -ano`.
pub open spec fn netstat_sockets(netstat: Seq<u8>) -> Seq<(u16, Seq<char>, Seq<char>)> {
    listening_sockets(text_lines(lossy_utf8(netstat)))
}

/// The `ports` table of the listening sockets `socks`, given the text of
/// `tasklist /FO CSV /NH` (empty when it could not be run): the heading and a line per
/// socket, ordered by port.
pub open spec fn ports_table_text_spec(socks: Seq<(u16, Seq<char>, Seq<char>)>, tasklist: Seq<char>) -> Seq<Seq<char>> {
    let pairs = task_pairs(text_lines(tasklist));
    let sorted = by_port(socks);
    let w = port_column(sorted);
    seq![ports_header(w)] + Seq::new(sorted.len(), |i: int| ports_row(sorted[i], w, pairs))
}

/// The `ports` table, given the bytes that `tasklist /FO CSV /NH` printed.
pub open spec fn ports_table_spec(socks: Seq<(u16, Seq<char>, Seq<char>)>, tasklist: Seq<u8>) -> Seq<Seq<char>> {
    ports_table_text_spec(socks, lossy_utf8(tasklist))
}

/// Lines of `v` as character vectors.
fn text_lines_of(text: &str) -> (r: Vec<Vec<char>>)
    ensures
        r@.map_values(|l: Vec<char>| l@) == text_lines(text@),
{
    let v = chars_of(text);
    let r = lines_of(v.as_slice());
    assert(r@.map_values(|l: Vec<char>| l@) =~= text_lines(text@));
    r
}

/// The listening sockets in the text of `netstat -ano`, or the message when none listens.
pub fn listening_in_text(netstat: &str) -> (r: Result<Vec<Socket>, String>)
    ensures
        match r {
            Ok(socks) => socket_views(socks@) == listening_sockets(text_lines(netstat@)) && socks@.len() > 0,
            Err(msg) => listening_sockets(text_lines(netstat@)).len() == 0 && msg@ == nothing_listening_msg(),
        },
{
    let nlines = text_lines_of(netstat);
    let socks = collect_listening(&nlines);
    if socks.len() == 0 {
        return Err("ports: nothing listening".to_string());
    }
    Ok(socks)
}

/// The listening sockets in the output of `netstat -ano`, or the message when none listens.
pub fn listening_ports(netstat: &[u8]) -> (r: Result<Vec<Socket>, String>)
    ensures
        match r {
            Ok(socks) => socket_views(socks@) == netstat_sockets(netstat@) && socks@.len() > 0,
            Err(msg) => netstat_sockets(netstat@).len() == 0 && msg@ == nothing_listening_msg(),
        },
{
    let ntext = decode_lossy(netstat);
    listening_in_text(ntext.as_str())
}

/// The `ports` table, given the bytes that `tasklist /FO CSV /NH` printed (see
/// `ports_table_spec`).
pub fn ports_table(socks: &Vec<Socket>, tasklist: &[u8]) -> (r: Vec<String>)
    ensures
        views(r@) == ports_table_spec(socket_views(socks@), tasklist@),
{
    let ttext = decode_lossy(tasklist);
    ports_table_of_text(socks, ttext.as_str())
}

/// The `ports` table, given the text of `tasklist /FO CSV /NH` (see `ports_table_text_spec`).
pub fn ports_table_of_text(socks: &Vec<Socket>, tasklist: &str) -> (r: Vec<String>)
    ensures
        views(r@) == ports_table_text_spec(socket_views(socks@), tasklist@),
{
    let tlines = text_lines_of(tasklist);
    let pairs = collect_tasks(&tlines);
    let ghost pv = pairs@.map_values(|p: (Vec<char>, Vec<char>)| (p.0@, p.1@));
    let sorted = sort_by_port(socks);
    let ghost sv = socket_views(sorted@);
    let n = sorted.len();
    let mut width: usize = 5;
    let mut i: usize = 0;
    while i < n
        invariant
            n == sorted@.len(),
            sv == socket_views(sorted@),
            i <= n,
            width as nat == port_column(sv.take(i as int)),
            width <= 5,
        decreases n - i,
    {
        let mut numeral: Vec<char> = Vec::new();
        push_decimal(&mut numeral, sorted[i].port as u64);
        proof {
            assert(numeral@ =~= decimal(sorted@[i as int].port as nat));
            assert(sv.take(i + 1).drop_last() =~= sv.take(i as int));
            lemma_decimal_u16_len(sorted@[i as int].port);
        }
        if numeral.len() > width {
            width = numeral.len();
        }
        i = i + 1;
    }
    assert(sv.take(n as int) =~= sv);
    let mut out: Vec<String> = Vec::new();
    let mut head: Vec<char> = Vec::new();
    let port_title = chars_of("PORT");
    push_padded(&mut head, port_title.as_slice(), width);
    let rest_title = chars_of("  PROTO  PID      PROCESS");
    append_chars(&mut head, rest_title.as_slice());
    out.push(string_of(head.as_slice()));
    let mut j: usize = 0;
    while j < n
        invariant
            n == sorted@.len(),
            sv == socket_views(sorted@),
            pv == pairs@.map_values(|p: (Vec<char>, Vec<char>)| (p.0@, p.1@)),
            j <= n,
            views(out@) == seq![ports_header(width as nat)] + Seq::new(j as nat, |k: int| ports_row(sv[k], width as nat, pv)),
        decreases n - j,
    {
        let e = &sorted[j];
        let mut row: Vec<char> = Vec::new();
        let mut numeral: Vec<char> = Vec::new();
        push_decimal(&mut numeral, e.port as u64);
        let two = chars_of("  ");
        let one = chars_of(" ");
        push_padded(&mut row, numeral.as_slice(), width);
        append_chars(&mut row, two.as_slice());
        push_padded(&mut row, e.proto.as_slice(), 6);
        append_chars(&mut row, one.as_slice());
        push_padded(&mut row, e.pid.as_slice(), 8);
        append_chars(&mut row, one.as_slice());
        match lookup_name(&pairs, e.pid.as_slice()) {
            Some(name) => append_chars(&mut row, name.as_slice()),
            None => {
                let dash = chars_of("-");
                append_chars(&mut row, dash.as_slice());
            },
        }
        assert(sv[j as int] == (e.port, e.proto@, e.pid@));
        assert(row@ =~= ports_row(sv[j as int], width as nat, pv));
        let ghost old_out = views(out@);
        out.push(string_of(row.as_slice()));
        assert(views(out@) =~= old_out.push(row@));
        assert(seq![ports_header(width as nat)] + Seq::new((j + 1) as nat, |k: int| ports_row(sv[k], width as nat, pv))
            =~= (seq![ports_header(width as nat)] + Seq::new(j as nat, |k: int| ports_row(sv[k], width as nat, pv))).push(row@));
        j = j + 1;
    }
    out
}

/// A port number has at most five digits.
proof fn lemma_decimal_u16_len(p: u16)
    ensures
        decimal(p as nat).len() <= 5,
{
    let n0 = p as nat;
    let n1 = n0 / 10;
    let n2 = n1 / 10;
    let n3 = n2 / 10;
    let n4 = n3 / 10;
    assert(n4 < 10);
    assert(decimal(n4).len() == 1);
    assert(decimal(n3).len() <= 2);
    assert(decimal(n2).len() <= 3);
    assert(decimal(n1).len() <= 4);
    assert(decimal(n0).len() <= 5);
}

/// The pids of the TCP and UDP sockets on `port` in the lines, in order (repeats kept).
pub open spec fn pids_on_port(lines: Seq<Seq<char>>, port: u16) -> Seq<Seq<char>>
    decreases lines.len(),
{
    if lines.len() == 0 {
        seq![]
    } else {
        let prev = pids_on_port(lines.drop_last(), port);
        match socket_line(lines.last(), false) {
            Some(e) => if e.0 == port { prev.push(e.2) } else { prev },
            None => prev,
        }
    }
}

/// A socket line on `port` has its local address (second word) ending in `port`, and its
/// pid is the line's last word.
proof fn lemma_socket_line_local(line: Seq<char>, port: u16)
    ensures
        match socket_line(line, false) {
            Some(e) => e.0 == port ==> parse_u16_spec(after_last_colon(words(trim(line))[1])) == Some(port)
                && words(trim(line)).last() == e.2,
            None => true,
        },
{
}

/// `line` is a TCP or UDP line of `netstat -ano` whose local address (its second word)
/// ends in `port` and whose last word is `pid`.
pub open spec fn local_port_line(line: Seq<char>, port: u16, pid: Seq<char>) -> bool {
    &&& socket_line(line, false) is Some
    &&& parse_u16_spec(after_last_colon(words(trim(line))[1])) == Some(port)
    &&& words(trim(line)).last() == pid
}

/// Some line of `lines` is a TCP or UDP line whose local address ends in `port` and whose
/// last word is `pid`.
pub open spec fn pid_has_local_line(lines: Seq<Seq<char>>, port: u16, pid: Seq<char>) -> bool {
    exists|i: int| 0 <= i < lines.len() && #[trigger] local_port_line(lines[i], port, pid)
}

/// The pids to kill for a port are exactly those of TCP and UDP lines whose local address
/// (the second word) ends in that port: each pid found is the last word of such a line,
/// and every such line gives its pid.
pub proof fn lemma_pids_on_port_local(lines: Seq<Seq<char>>, port: u16)
    ensures
        forall|k: int| 0 <= k < pids_on_port(lines, port).len()
            ==> #[trigger] pid_has_local_line(lines, port, pids_on_port(lines, port)[k]),
        forall|i: int| #![trigger socket_line(lines[i], false)] 0 <= i < lines.len() ==> match socket_line(lines[i], false) {
            Some(e) => e.0 == port ==> pids_on_port(lines, port).contains(e.2),
            None => true,
        },
    decreases lines.len(),
{
    if lines.len() > 0 {
        let init = lines.drop_last();
        lemma_pids_on_port_local(init, port);
        let prev = pids_on_port(init, port);
        let r = pids_on_port(lines, port);
        let j = lines.len() - 1;
        assert(lines[j] == lines.last());
        match socket_line(lines.last(), false) {
            Some(e) => {
                if e.0 == port {
                    assert(r == prev.push(e.2));
                    lemma_socket_line_local(lines[j], port);
                    assert(local_port_line(lines[j], port, e.2));
                } else {
                    assert(r == prev);
                }
            },
            None => {
                assert(r == prev);
            },
        }
        assert forall|k: int| 0 <= k < pids_on_port(lines, port).len()
            implies #[trigger] pid_has_local_line(lines, port, pids_on_port(lines, port)[k]) by {
            if k < prev.len() {
                assert(r[k] == prev[k]);
                assert(pid_has_local_line(init, port, prev[k]));
                let i = choose|i: int| 0 <= i < init.len() && #[trigger] local_port_line(init[i], port, prev[k]);
                assert(lines[i] == init[i]);
                assert(local_port_line(lines[i], port, r[k]));
            } else {
                assert(local_port_line(lines[j], port, r[k]));
            }
        }
        assert forall|i: int| #![trigger socket_line(lines[i], false)] 0 <= i < lines.len() implies match socket_line(lines[i], false) {
            Some(e) => e.0 == port ==> r.contains(e.2),
            None => true,
        } by {
            if let Some(e) = socket_line(lines[i], false) {
                if e.0 == port {
                    if i < init.len() {
                        assert(lines[i] == init[i]);
                        assert(socket_line(init[i], false) == Some(e));
                        let k = choose|k: int| 0 <= k < prev.len() && prev[k] == e.2;
                        assert(r[k] == prev[k]);
                    } else {
                        assert(r[prev.len() as int] == e.2);
                    }
                }
            }
        }
    }
}

/// The message when nothing uses the port.
pub open spec fn nothing_on_port_msg(port: u16) -> Seq<char> {
    "kill: nothing on port "@ + decimal(port as nat)
}

/// The message when no process on the port could be killed.
pub open spec fn kill_failed_msg(port: u16) -> Seq<char> {
    "kill: couldn't kill process on port "@ + decimal(port as nat)
}

/// `prefix` followed by the numeral of `n`.
fn with_number(prefix: &str, n: u64) -> (r: String)
    ensures
        r@ == prefix@ + decimal(n as nat),
{
    let mut v = chars_of(prefix);
    push_decimal(&mut v, n);
    string_of(v.as_slice())
}

/// The pids to kill for `port`, read from the text of `netstat -ano`, or the message when
/// nothing uses the port.
pub fn kill_port_in_text(port: u16, netstat: &str) -> (r: Result<Vec<String>, String>)
    ensures
        match r {
            Ok(pids) => views(pids@) == pids_on_port(text_lines(netstat@), port) && pids@.len() > 0,
            Err(msg) => pids_on_port(text_lines(netstat@), port).len() == 0
                && msg@ == nothing_on_port_msg(port),
        },
{
    let lines = text_lines_of(netstat);
    let ghost lv = lines@.map_values(|l: Vec<char>| l@);
    let mut pids: Vec<String> = Vec::new();
    let n = lines.len();
    let mut i: usize = 0;
    while i < n
        invariant
            n == lines@.len(),
            lv == lines@.map_values(|l: Vec<char>| l@),
            i <= n,
            views(pids@) == pids_on_port(lv.take(i as int), port),
        decreases n - i,
    {
        proof {
            assert(lv.take(i + 1).drop_last() =~= lv.take(i as int));
            assert(lv.take(i + 1).last() == lines@[i as int]@);
        }
        match read_socket_line(lines[i].as_slice(), false) {
            None => {},
            Some(s) => {
                if s.port == port {
                    let ghost old_views = views(pids@);
                    pids.push(string_of(s.pid.as_slice()));
                    assert(views(pids@) =~= old_views.push(s.pid@));
                }
            },
        }
        i = i + 1;
    }
    assert(lv.take(n as int) =~= lv);
    if pids.len() == 0 {
        return Err(with_number("kill: nothing on port ", port as u64));
    }
    Ok(pids)
}

/// The pids to kill for `port`, read from `netstat -ano` output, or the message when
/// nothing uses the port.
pub fn kill_port(port: u16, netstat: &[u8]) -> (r: Result<Vec<String>, String>)
    ensures
        match r {
            Ok(pids) => views(pids@) == pids_on_port(text_lines(lossy_utf8(netstat@)), port) && pids@.len() > 0,
            Err(msg) => pids_on_port(text_lines(lossy_utf8(netstat@)), port).len() == 0
                && msg@ == nothing_on_port_msg(port),
        },
{
    let text = decode_lossy(netstat);
    kill_port_in_text(port, text.as_str())
}

/// The result of `kill` once `killed` of the processes on `port` were killed.
pub fn kill_outcome(port: u16, killed: usize) -> (r: Result<(), String>)
    ensures
        killed == 0 <==> r is Err,
        r matches Err(msg) ==> msg@ == kill_failed_msg(port),
{
    if killed == 0 {
        return Err(with_number("kill: couldn't kill process on port ", port as u64));
    }
    Ok(())
}

} // verus!
