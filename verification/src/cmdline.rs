//! Splitting an uninstall command line into a program and its arguments.
use vstd::prelude::*;
use crate::errors::{clean_io, clean_io_spec, IoErrorKind};
use crate::lines::{word_scan, words};
use crate::text::{lemma_first_index_at, lemma_first_index_is, lemma_last_index_at, lemma_last_index_is, lemma_trim_idempotent, lemma_trim_lacks};
use crate::text::{ends_with_chars, occurs_at, append_chars, contains_chars, contains_text, last_index, lowercase, lowercase_chars, rfind_char, chars_of, find_char, first_index, is_white_space, push_char, slice_part, string_of, trim, trim_end, trim_start, trimmed, white_space};

verus! {

/// The string views of a list of strings.
pub open spec fn views(v: Seq<String>) -> Seq<Seq<char>> {
    v.map_values(|a: String| a@)
}

/// State of the argument scanner after some prefix of the input.
pub struct ArgScan {
    /// Arguments completed so far.
    pub args: Seq<Seq<char>>,
    /// Characters of the argument being read.
    pub cur: Seq<char>,
    /// Inside a double-quoted stretch.
    pub in_quotes: bool,
    /// The argument being read has started (possibly empty, as in `""`).
    pub has: bool,
}

/// The scanner before any input.
pub open spec fn scan_start() -> ArgScan {
    ArgScan { args: seq![], cur: seq![], in_quotes: false, has: false }
}

/// One character of input: a quote toggles quoting, unquoted whitespace ends the
/// current argument, anything else is kept.
pub open spec fn scan_step(st: ArgScan, c: char) -> ArgScan {
    if c == '"' {
        ArgScan { in_quotes: !st.in_quotes, has: true, ..st }
    } else if white_space(c) && !st.in_quotes {
        if st.has {
            ArgScan { args: st.args.push(st.cur), cur: seq![], has: false, ..st }
        } else {
            st
        }
    } else {
        ArgScan { cur: st.cur.push(c), has: true, ..st }
    }
}

/// The scanner after reading `s`, starting from `st`.
pub open spec fn scan_from(st: ArgScan, s: Seq<char>) -> ArgScan
    decreases s.len(),
{
    if s.len() == 0 {
        st
    } else {
        scan_step(scan_from(st, s.drop_last()), s.last())
    }
}

/// The scanner after reading all of `s`.
pub open spec fn scan(s: Seq<char>) -> ArgScan {
    scan_from(scan_start(), s)
}

/// The arguments of `s`: whitespace-separated, double quotes group and are dropped.
pub open spec fn split_args_spec(s: Seq<char>) -> Seq<Seq<char>> {
    let st = scan(s);
    if st.has {
        st.args.push(st.cur)
    } else {
        st.args
    }
}

/// Reading `a + b` is reading `a`, then `b`.
pub proof fn lemma_scan_from_append(st: ArgScan, a: Seq<char>, b: Seq<char>)
    ensures
        scan_from(st, a + b) == scan_from(scan_from(st, a), b),
    decreases b.len(),
{
    if b.len() == 0 {
        assert(a + b =~= a);
    } else {
        assert((a + b).drop_last() =~= a + b.drop_last());
        assert((a + b).last() == b.last());
        lemma_scan_from_append(st, a, b.drop_last());
    }
}

/// `w` holds neither whitespace nor double quotes.
pub open spec fn plain_word(w: Seq<char>) -> bool {
    forall|k: int| 0 <= k < w.len() ==> !white_space(#[trigger] w[k]) && w[k] != '"'
}

/// Outside quotes, reading a plain word adds it to the current argument.
proof fn lemma_scan_plain_word(st: ArgScan, w: Seq<char>)
    requires
        !st.in_quotes,
        plain_word(w),
    ensures
        scan_from(st, w) == (ArgScan { cur: st.cur + w, has: st.has || w.len() > 0, ..st }),
    decreases w.len(),
{
    if w.len() == 0 {
        assert(st.cur + w =~= st.cur);
    } else {
        lemma_scan_plain_word(st, w.drop_last());
        assert((st.cur + w.drop_last()).push(w.last()) =~= st.cur + w);
        assert(!white_space(w[w.len() - 1]) && w[w.len() - 1] != '"');
    }
}

/// The words joined with the character `sep` between them.
pub open spec fn join_words(words: Seq<Seq<char>>, sep: char) -> Seq<char>
    decreases words.len(),
{
    if words.len() == 0 {
        seq![]
    } else if words.len() == 1 {
        words[0]
    } else {
        join_words(words.drop_last(), sep) + seq![sep] + words.last()
    }
}

proof fn lemma_scan_joined(words: Seq<Seq<char>>, sep: char)
    requires
        words.len() > 0,
        white_space(sep),
        sep != '"',
        forall|i: int| 0 <= i < words.len() ==> plain_word(#[trigger] words[i]) && words[i].len() > 0,
    ensures
        scan(join_words(words, sep)) == (ArgScan { args: words.drop_last(), cur: words.last(), in_quotes: false, has: true }),
    decreases words.len(),
{
    if words.len() == 1 {
        lemma_scan_plain_word(scan_start(), words[0]);
        assert(seq![] + words[0] =~= words[0]);
        assert(words.drop_last() =~= seq![]);
    } else {
        let init = words.drop_last();
        assert(init.len() > 0);
        assert forall|i: int| 0 <= i < init.len() implies plain_word(#[trigger] init[i]) && init[i].len() > 0 by {
            assert(init[i] == words[i]);
        }
        lemma_scan_joined(init, sep);
        let a = join_words(init, sep);
        lemma_scan_from_append(scan_start(), a + seq![sep], words.last());
        lemma_scan_from_append(scan_start(), a, seq![sep]);
        assert(seq![sep].drop_last() =~= seq![]);
        let after_sep = scan_from(scan_start(), a + seq![sep]);
        assert(after_sep == (ArgScan { args: init, cur: seq![], in_quotes: false, has: false })) by {
            let x = scan(a);
            assert(seq![sep].last() == sep);
            assert(scan_from(x, seq![sep].drop_last()) == x);
            assert(scan_from(x, seq![sep]) == scan_step(x, sep));
            assert(init.drop_last().push(init.last()) =~= init);
            assert(scan_step(x, sep).args =~= init);
            assert(scan_step(x, sep).cur =~= Seq::<char>::empty());
        }
        assert(plain_word(words[words.len() - 1]));
        lemma_scan_plain_word(after_sep, words.last());
        assert(seq![] + words.last() =~= words.last());
    }
}

/// Splitting words that hold neither whitespace nor quotes, joined by a whitespace
/// character (not a quote), gives the words back.
pub proof fn lemma_split_args_joined(words: Seq<Seq<char>>, sep: char)
    requires
        white_space(sep),
        sep != '"',
        forall|i: int| 0 <= i < words.len() ==> plain_word(#[trigger] words[i]) && words[i].len() > 0,
    ensures
        split_args_spec(join_words(words, sep)) == words,
{
    if words.len() == 0 {
        assert(split_args_spec(seq![]) == Seq::<Seq<char>>::empty());
    } else {
        lemma_scan_joined(words, sep);
        assert(words.drop_last().push(words.last()) =~= words);
    }
}

/// Without double quotes, the scanner tracks the words of the text read so far.
proof fn lemma_scan_unquoted(s: Seq<char>)
    requires
        !s.contains('"'),
    ensures
        !scan(s).in_quotes,
        scan(s).args == word_scan(s).0,
        scan(s).cur == word_scan(s).1,
        scan(s).has <==> word_scan(s).1.len() > 0,
    decreases s.len(),
{
    if s.len() > 0 {
        let init = s.drop_last();
        assert(!init.contains('"')) by {
            if init.contains('"') {
                let k = choose|k: int| 0 <= k < init.len() && init[k] == '"';
                assert(s[k] == '"');
            }
        }
        lemma_scan_unquoted(init);
        assert(s[s.len() - 1] != '"');
    }
}

/// Text without double quotes splits into its words, as `str::split_whitespace` gives them.
pub proof fn lemma_split_args_unquoted(s: Seq<char>)
    requires
        !s.contains('"'),
    ensures
        split_args_spec(s) == words(s),
{
    lemma_scan_unquoted(s);
}

/// Splits the characters `v` into arguments.
pub fn split_arg_chars(v: &[char]) -> (r: Vec<String>)
    ensures
        views(r@) == split_args_spec(v@),
{
    let mut args: Vec<String> = Vec::new();
    let mut cur = String::new();
    let mut in_quotes = false;
    let mut has = false;
    let n = v.len();
    let mut i: usize = 0;
    while i < n
        invariant
            n == v@.len(),
            i <= n,
            views(args@) == scan(v@.take(i as int)).args,
            cur@ == scan(v@.take(i as int)).cur,
            in_quotes == scan(v@.take(i as int)).in_quotes,
            has == scan(v@.take(i as int)).has,
        decreases n - i,
    {
        let c = v[i];
        proof {
            assert(v@.take(i + 1).drop_last() =~= v@.take(i as int));
            assert(v@.take(i + 1).last() == c);
        }
        if c == '"' {
            in_quotes = !in_quotes;
            has = true;
        } else if is_white_space(c) && !in_quotes {
            if has {
                let ghost old_args = args@;
                args.push(cur);
                cur = String::new();
                has = false;
                assert(views(args@) =~= views(old_args).push(views(args@).last()));
            }
        } else {
            push_char(&mut cur, c);
            has = true;
        }
        i = i + 1;
    }
    assert(v@.take(n as int) =~= v@);
    if has {
        let ghost old_args = args@;
        args.push(cur);
        assert(views(args@) =~= views(old_args).push(views(args@).last()));
    }
    args
}

/// Splits `s` into arguments: runs of non-whitespace characters, where double quotes
/// group text (whitespace included) and are themselves dropped; `""` gives an empty argument.
pub fn split_args(s: &str) -> (r: Vec<String>)
    ensures
        views(r@) == split_args_spec(s@),
{
    let v = chars_of(s);
    split_arg_chars(v.as_slice())
}

/// Program and arguments of a command line: after trimming, a leading double-quoted
/// program name (when its closing quote exists) is taken verbatim and the rest is split
/// into arguments; otherwise the first argument is the program.
#[verifier::opaque]
pub open spec fn split_cmd_spec(line: Seq<char>) -> (Seq<char>, Seq<Seq<char>>) {
    let t = trim(line);
    let rest = t.drop_first();
    if t.len() > 0 && t[0] == '"' && first_index(rest, '"') is Some {
        let e = first_index(rest, '"')->0;
        (rest.take(e), split_args_spec(rest.skip(e + 1)))
    } else {
        let parts = split_args_spec(t);
        if parts.len() == 0 {
            (seq![], seq![])
        } else {
            (parts[0], parts.drop_first())
        }
    }
}

/// Splits `"C:\a b\x.exe" /SILENT` into the program and its arguments.
pub fn split_cmd(line: &str) -> (r: (String, Vec<String>))
    ensures
        (r.0@, views(r.1@)) == split_cmd_spec(line@),
{
    reveal(split_cmd_spec);
    let all = chars_of(line);
    let t = trimmed(all.as_slice());
    if t.len() > 0 && t[0] == '"' {
        let rest = slice_part(t.as_slice(), 1, t.len());
        assert(rest@ =~= t@.drop_first());
        match find_char(rest.as_slice(), '"') {
            Some(end) => {
                let program = slice_part(rest.as_slice(), 0, end);
                let tail = slice_part(rest.as_slice(), end + 1, rest.len());
                assert(program@ =~= rest@.take(end as int));
                assert(tail@ =~= rest@.skip(end + 1));
                return (string_of(program.as_slice()), split_arg_chars(tail.as_slice()));
            },
            None => {},
        }
    }
    let mut parts = split_arg_chars(t.as_slice());
    if parts.len() == 0 {
        return (String::new(), Vec::new());
    }
    let ghost before = parts@;
    let program = parts.remove(0);
    assert(views(parts@) =~= views(before).drop_first());
    (program, parts)
}


/// The first double quote in `p` followed by a quote is right after `p`, when `p` holds none.
proof fn lemma_first_quote_after(p: Seq<char>, tail: Seq<char>)
    requires
        !p.contains('"'),
    ensures
        first_index(p + seq!['"'] + tail, '"') == Some(p.len() as int),
{
    let r = p + seq!['"'] + tail;
    let n = p.len() as int;
    assert(r[n] == '"');
    assert forall|j: int| 0 <= j < n implies r[j] != '"' by {
        assert(r[j] == p[j]);
    }
    lemma_first_index_at(r, '"', n);
}

/// Text that neither starts nor ends with whitespace is its own trim.
proof fn lemma_trim_unchanged(s: Seq<char>)
    requires
        s.len() > 0,
        !white_space(s[0]),
        !white_space(s.last()),
    ensures
        trim(s) == s,
{
    assert(trim_start(s) == s);
    assert(trim_end(s) == s);
}

/// Joined non-empty words end with the last character of the last word.
proof fn lemma_join_words_last(words: Seq<Seq<char>>, sep: char)
    requires
        words.len() > 0,
        words.last().len() > 0,
    ensures
        join_words(words, sep).len() > 0,
        join_words(words, sep).last() == words.last().last(),
{
    if words.len() > 1 {
        let a = join_words(words.drop_last(), sep) + seq![sep];
        assert(join_words(words, sep) == a + words.last());
        assert((a + words.last()).last() == words.last().last());
    }
}

/// A space in front of the arguments changes nothing.
proof fn lemma_split_args_leading_space(s: Seq<char>)
    ensures
        split_args_spec(seq![' '] + s) == split_args_spec(s),
{
    lemma_scan_from_append(scan_start(), seq![' '], s);
    assert(seq![' '].drop_last() =~= Seq::<char>::empty());
    assert(seq![' '].last() == ' ');
    assert(white_space(' '));
    assert(scan_from(scan_start(), seq![' '].drop_last()) == scan_start());
    assert(scan_step(scan_start(), ' ') == scan_start());
    assert(scan_from(scan_start(), seq![' ']) == scan_start());
}

/// The part of a quoted command line after the program's closing quote.
proof fn lemma_split_cmd_quoted(p: Seq<char>, tail: Seq<char>)
    requires
        !p.contains('"'),
        trim(seq!['"'] + p + seq!['"'] + tail) == seq!['"'] + p + seq!['"'] + tail,
    ensures
        split_cmd_spec(seq!['"'] + p + seq!['"'] + tail) == (p, split_args_spec(tail)),
{
    reveal(split_cmd_spec);
    let line = seq!['"'] + p + seq!['"'] + tail;
    let rest = line.drop_first();
    assert(rest =~= p + seq!['"'] + tail);
    lemma_first_quote_after(p, tail);
    assert(rest.take(p.len() as int) =~= p);
    assert(rest.skip(p.len() as int + 1) =~= tail);
}

/// A program name without double quotes, written between double quotes and followed by a
/// space and by arguments that are non-empty and hold neither whitespace nor double quotes,
/// joined by single spaces, splits back into that program and those arguments.
pub proof fn lemma_split_cmd_round_trip(p: Seq<char>, args: Seq<Seq<char>>)
    requires
        !p.contains('"'),
        forall|i: int| 0 <= i < args.len() ==> plain_word(#[trigger] args[i]) && args[i].len() > 0,
    ensures
        split_cmd_spec(seq!['"'] + p + seq!['"', ' '] + join_words(args, ' ')) == (p, args),
{
    let j = join_words(args, ' ');
    let line = seq!['"'] + p + seq!['"', ' '] + j;
    let body = seq!['"'] + p + seq!['"'];
    assert(!white_space('"'));
    if args.len() == 0 {
        assert(j =~= Seq::<char>::empty());
        assert(line =~= body + seq![' ']);
        assert(white_space(' '));
        assert(trim_end(line) == trim_end(body)) by {
            assert(line.drop_last() =~= body);
        }
        assert(body[0] == '"' && body.last() == '"');
        lemma_trim_unchanged(body);
        assert(trim_start(line) == line) by {
            assert(line[0] == '"');
        }
        assert(trim(line) == body);
        assert(body =~= body + Seq::<char>::empty());
        lemma_split_cmd_quoted(p, Seq::<char>::empty());
        assert(split_args_spec(Seq::<char>::empty()) =~= Seq::<Seq<char>>::empty());
        assert(split_cmd_spec(line) == split_cmd_spec(body)) by {
            reveal(split_cmd_spec);
        }
    } else {
        assert(plain_word(args[args.len() - 1]) && args[args.len() - 1].len() > 0);
        lemma_join_words_last(args, ' ');
        let w = args.last();
        assert(!white_space(w[w.len() - 1]));
        let tail = seq![' '] + j;
        assert(line =~= seq!['"'] + p + seq!['"'] + tail);
        assert(line[0] == '"' && line.last() == j.last());
        lemma_trim_unchanged(line);
        lemma_split_cmd_quoted(p, tail);
        lemma_split_args_leading_space(j);
        lemma_split_args_joined(args, ' ');
    }
}

/// The command line that really uninstalls: an `msiexec` line (in any letter case) holding
/// a `{...}` product code is rewritten to `MsiExec.exe /X{...}` followed by whatever came
/// after the code; every other line is kept as it is.
#[verifier::opaque]
pub open spec fn msi_to_uninstall_spec(cmd: Seq<char>) -> Seq<char> {
    if !contains_text(lowercase(cmd), "msiexec"@) {
        cmd
    } else if first_index(cmd, '{') is Some && last_index(cmd, '}') is Some
        && last_index(cmd, '}')->0 > first_index(cmd, '{')->0 {
        let s = first_index(cmd, '{')->0;
        let e = last_index(cmd, '}')->0;
        let guid = cmd.subrange(s, e + 1);
        let tail = trim(cmd.skip(e + 1));
        if tail.len() == 0 {
            "MsiExec.exe /X"@ + guid
        } else {
            "MsiExec.exe /X"@ + guid + seq![' '] + tail
        }
    } else {
        cmd
    }
}

/// A command line that does not mention `msiexec` (in any letter case) is run as it is,
/// and so is one without a `{...}` product code.
pub proof fn lemma_msi_keeps_other_lines(cmd: Seq<char>)
    ensures
        !contains_text(lowercase(cmd), "msiexec"@) ==> msi_to_uninstall_spec(cmd) == cmd,
        first_index(cmd, '{') is None ==> msi_to_uninstall_spec(cmd) == cmd,
        last_index(cmd, '}') is None ==> msi_to_uninstall_spec(cmd) == cmd,
{
    reveal(msi_to_uninstall_spec);
}

/// A rewritten line, `MsiExec.exe /X`, a `{...}` code and then nothing or a space and a
/// trimmed rest without `}`, is kept as it is by the rewrite.
proof fn lemma_msi_rewritten_stays(guid: Seq<char>, rest: Seq<char>)
    requires
        guid.len() >= 2,
        guid[0] == '{',
        guid.last() == '}',
        !rest.contains('}'),
        rest.len() == 0 || (rest[0] == ' ' && rest.drop_first().len() > 0
            && trim(rest.drop_first()) == rest.drop_first()),
    ensures
        msi_to_uninstall_spec("MsiExec.exe /X"@ + guid + rest) == "MsiExec.exe /X"@ + guid + rest,
{
    reveal(msi_to_uninstall_spec);
    reveal_strlit("MsiExec.exe /X");
    let pre = "MsiExec.exe /X"@;
    let r = pre + guid + rest;
    if contains_text(lowercase(r), "msiexec"@) {
        assert(pre.len() == 14);
        let m = 14 + guid.len() - 1;
        assert(r[14] == '{');
        assert forall|j: int| 0 <= j < 14 implies r[j] != '{' by {
            assert(r[j] == pre[j]);
        }
        lemma_first_index_at(r, '{', 14);
        assert(r[m] == '}');
        assert forall|j: int| m < j < r.len() implies r[j] != '}' by {
            assert(r[j] == rest[j - 14 - guid.len()]);
        }
        lemma_last_index_at(r, '}', m);
        assert(r.subrange(14, m + 1) =~= guid);
        assert(r.skip(m + 1) =~= rest);
        if rest.len() == 0 {
            assert(trim(rest) =~= rest);
            assert(pre + guid =~= r);
        } else {
            assert(white_space(' '));
            assert(trim_start(rest) == trim_start(rest.drop_first()));
            assert(trim(rest) == rest.drop_first());
            assert(pre + guid + seq![' '] + rest.drop_first() =~= r);
        }
    }
}

/// Rewriting a command line a second time changes nothing.
pub proof fn lemma_msi_rewrite_idempotent(cmd: Seq<char>)
    ensures
        msi_to_uninstall_spec(msi_to_uninstall_spec(cmd)) == msi_to_uninstall_spec(cmd),
{
    reveal(msi_to_uninstall_spec);
    if contains_text(lowercase(cmd), "msiexec"@) && first_index(cmd, '{') is Some && last_index(cmd, '}') is Some
        && last_index(cmd, '}')->0 > first_index(cmd, '{')->0 {
        lemma_first_index_is(cmd, '{');
        lemma_last_index_is(cmd, '}');
        let s = first_index(cmd, '{')->0;
        let e = last_index(cmd, '}')->0;
        let guid = cmd.subrange(s, e + 1);
        let after = cmd.skip(e + 1);
        let tail = trim(after);
        assert(guid[0] == cmd[s] && guid.last() == cmd[e]);
        assert forall|k: int| 0 <= k < after.len() implies after[k] != '}' by {
            assert(after[k] == cmd[e + 1 + k]);
        }
        lemma_trim_lacks(after, '}');
        lemma_trim_idempotent(after);
        let rest = if tail.len() == 0 { Seq::<char>::empty() } else { seq![' '] + tail };
        assert(rest.len() > 0 ==> rest.drop_first() =~= tail);
        assert forall|k: int| 0 <= k < rest.len() implies rest[k] != '}' by {
            if k > 0 {
                assert(rest[k] == tail[k - 1]);
            }
        }
        lemma_msi_rewritten_stays(guid, rest);
        if tail.len() == 0 {
            assert("MsiExec.exe /X"@ + guid + rest =~= "MsiExec.exe /X"@ + guid);
        } else {
            assert("MsiExec.exe /X"@ + guid + rest =~= "MsiExec.exe /X"@ + guid + seq![' '] + tail);
        }
    }
}

/// Rewrites a registry `MsiExec.exe /I{GUID}` (repair) command into `/X{GUID}` (uninstall).
pub fn msi_to_uninstall(cmd: &str) -> (r: String)
    ensures
        r@ == msi_to_uninstall_spec(cmd@),
{
    reveal(msi_to_uninstall_spec);
    let v = chars_of(cmd);
    let lower = lowercase_chars(v.as_slice());
    let key = chars_of("msiexec");
    if !contains_chars(lower.as_slice(), key.as_slice()) {
        return string_of(v.as_slice());
    }
    let start = match find_char(v.as_slice(), '{') {
        Some(s) => s,
        None => return string_of(v.as_slice()),
    };
    let end = match rfind_char(v.as_slice(), '}') {
        Some(e) => e,
        None => return string_of(v.as_slice()),
    };
    if end <= start {
        return string_of(v.as_slice());
    }
    assert(end < v.len());
    let guid = slice_part(v.as_slice(), start, end + 1);
    let after = slice_part(v.as_slice(), end + 1, v.len());
    assert(after@ =~= v@.skip(end + 1));
    let tail = trimmed(after.as_slice());
    let mut out = chars_of("MsiExec.exe /X");
    append_chars(&mut out, guid.as_slice());
    if tail.len() > 0 {
        out.push(' ');
        append_chars(&mut out, tail.as_slice());
    }
    string_of(out.as_slice())
}


/// A program to start and the arguments to give it.
#[derive(Debug)]
pub struct Invocation {
    pub program: String,
    pub args: Vec<String>,
}

/// `name` ends with `suffix`.
pub open spec fn has_suffix(name: Seq<char>, suffix: Seq<char>) -> bool {
    suffix.len() <= name.len() && occurs_at(name, suffix, name.len() - suffix.len())
}

/// The message of a failed uninstall command.
pub open spec fn uninstall_failed_msg() -> Seq<char> {
    "uninstall command failed"@
}

/// How an uninstall command line is started: the line is first rewritten by
/// `msi_to_uninstall_spec`; no program means failure; a `.bat` or `.cmd` program (any
/// letter case) runs through `cmd /S /C "<line>"`; any other program runs directly.
pub open spec fn run_plan_spec(line: Seq<char>) -> Option<(Seq<char>, Seq<Seq<char>>)> {
    let l = msi_to_uninstall_spec(line);
    let (program, args) = split_cmd_spec(l);
    let lower = lowercase(program);
    if program.len() == 0 {
        None
    } else if has_suffix(lower, ".bat"@) || has_suffix(lower, ".cmd"@) {
        Some(("cmd"@, seq!["/S"@, "/C"@, seq!['"'] + l + seq!['"']]))
    } else {
        Some((program, args))
    }
}

/// Decides how to start an uninstall command line, or the message when there is nothing to run.
pub fn run_plan(line: &str) -> (r: Result<Invocation, String>)
    ensures
        match r {
            Ok(inv) => run_plan_spec(line@) == Some((inv.program@, views(inv.args@))),
            Err(msg) => run_plan_spec(line@) is None && msg@ == uninstall_failed_msg(),
        },
{
    let l = msi_to_uninstall(line);
    let (program, args) = split_cmd(l.as_str());
    let pchars = chars_of(program.as_str());
    if pchars.len() == 0 {
        return Err("uninstall command failed".to_string());
    }
    let lower = lowercase_chars(pchars.as_slice());
    let bat = chars_of(".bat");
    let cmd = chars_of(".cmd");
    if ends_with_chars(lower.as_slice(), bat.as_slice()) || ends_with_chars(lower.as_slice(), cmd.as_slice()) {
        let mut quoted: Vec<char> = Vec::new();
        quoted.push('"');
        let lv = chars_of(l.as_str());
        append_chars(&mut quoted, lv.as_slice());
        quoted.push('"');
        let mut cargs: Vec<String> = Vec::new();
        cargs.push("/S".to_string());
        cargs.push("/C".to_string());
        cargs.push(string_of(quoted.as_slice()));
        assert(quoted@ =~= seq!['"'] + l@ + seq!['"']);
        assert(views(cargs@) =~= seq!["/S"@, "/C"@, seq!['"'] + l@ + seq!['"']]);
        Ok(Invocation { program: "cmd".to_string(), args: cargs })
    } else {
        Ok(Invocation { program, args })
    }
}

/// What a started uninstall command came to: the process could not be started (with the
/// kind of failure), or it ended with or without success.
pub open spec fn run_outcome_spec(status: Result<bool, IoErrorKind>) -> Result<(), Seq<char>> {
    match status {
        Err(kind) => Err(clean_io_spec(kind)),
        Ok(true) => Ok(()),
        Ok(false) => Err(uninstall_failed_msg()),
    }
}

/// The result of running an uninstall command, given how the process ended.
pub fn run_outcome(status: Result<bool, IoErrorKind>) -> (r: Result<(), String>)
    ensures
        match r {
            Ok(()) => run_outcome_spec(status) == Ok::<(), Seq<char>>(()),
            Err(msg) => run_outcome_spec(status) == Err::<(), Seq<char>>(msg@),
        },
{
    match status {
        Err(kind) => Err(clean_io(kind)),
        Ok(true) => Ok(()),
        Ok(false) => Err("uninstall command failed".to_string()),
    }
}

} // verus!
