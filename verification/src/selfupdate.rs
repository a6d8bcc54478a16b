//! Decisions and texts of `update` (replace the program by the latest release) and
//! `destroy` (remove the program and its PATH entry).
use vstd::prelude::*;
use crate::cmdline::{views, Invocation};
use crate::text::{
    append_chars, chars_of, first_index, lowercase, lowercase_chars, push_decimal, decimal, same_chars,
    slice_part, string_of, strip_char_end, strip_char_start,
};

verus! {

/// Appends the characters of `s` to `out`.
fn push_str(out: &mut Vec<char>, s: &str)
    ensures
        final(out)@ == old(out)@ + s@,
{
    let v = chars_of(s);
    append_chars(out, v.as_slice());
}

/// The GitHub API address of the latest release.
pub open spec fn latest_release_url_spec() -> Seq<char> {
    "https://api.github.com/repos/Muhammad-Owais-Warsi/px/releases/latest"@
}

/// The GitHub API address of the latest release.
pub fn latest_release_url() -> (r: String)
    ensures
        r@ == latest_release_url_spec(),
{
    "https://api.github.com/repos/Muhammad-Owais-Warsi/px/releases/latest".to_string()
}

#[verifier::external_type_specification]
#[verifier::external_body]
pub struct ExJsonError(serde_json::Error);

/// Whether `serde_json::from_str::<serde_json::Value>` accepts a text.
pub uninterp spec fn json_accepts(text: Seq<char>) -> bool;

/// What `value[key].as_str()` gives for the value that `serde_json::from_str` reads from a
/// text: the member's string when the text is an object whose member `key` is a string.
pub uninterp spec fn json_string_member(text: Seq<char>, key: Seq<char>) -> Option<Seq<char>>;

/// Calls `serde_json::from_str::<serde_json::Value>`, then `Value::index` with `key` and
/// `Value::as_str`.
/// Trusted: parsing succeeds exactly when the named predicate `json_accepts` holds of the
/// text, and the member's string is the named `json_string_member` of text and key.
#[verifier::external_body]
fn json_member_str(text: &str, key: &str) -> (r: Result<Option<String>, serde_json::Error>)
    ensures
        r is Ok <==> json_accepts(text@),
        r matches Ok(m) ==> match m {
            Some(s) => json_string_member(text@, key@) == Some(s@),
            None => json_string_member(text@, key@) is None,
        },
{
    let value: serde_json::Value = serde_json::from_str(text)?;
    match value[key].as_str() {
        Some(s) => Ok(Some(s.to_string())),
        None => Ok(None),
    }
}

/// The message for a reply that is not JSON.
pub open spec fn bad_response_msg() -> Seq<char> {
    "update: bad response"@
}

/// The message for a reply without a tag.
pub open spec fn no_tag_msg() -> Seq<char> {
    "update: no tag in response"@
}

/// The release tag in a GitHub "latest release" reply: its `tag_name` string member.
pub fn release_tag(body: &str) -> (r: Result<String, String>)
    ensures
        match r {
            Ok(t) => json_accepts(body@) && json_string_member(body@, "tag_name"@) == Some(t@),
            Err(m) => (!json_accepts(body@) && m@ == bad_response_msg())
                || (json_accepts(body@) && json_string_member(body@, "tag_name"@) is None && m@ == no_tag_msg()),
        },
{
    match json_member_str(body, "tag_name") {
        Err(_) => Err("update: bad response".to_string()),
        Ok(None) => Err("update: no tag in response".to_string()),
        Ok(Some(t)) => Ok(t),
    }
}

/// What to do about an update.
#[derive(Debug)]
pub enum UpdatePlan {
    /// The running version is the latest.
    UpToDate,
    /// Download and install `version` (release `tag`) from `url`.
    Install { version: String, tag: String, url: String },
}

/// The name of the release file.
pub open spec fn asset_name() -> Seq<char> {
    "px-windows-x86_64.zip"@
}

/// The download address of the release file of `tag`.
pub open spec fn download_url(tag: Seq<char>) -> Seq<char> {
    "https://github.com/Muhammad-Owais-Warsi/px/releases/download/"@ + tag + "/"@ + asset_name()
}

/// The version a tag names: the tag without its leading `v`s.
pub open spec fn tag_version(tag: Seq<char>) -> Seq<char> {
    strip_char_start(tag, 'v')
}

/// The tag without its leading `v`s.
fn version_of_tag(tag: &[char]) -> (r: Vec<char>)
    ensures
        r@ == tag_version(tag@),
{
    let n = tag.len();
    let mut a: usize = 0;
    assert(tag@.skip(0) =~= tag@);
    while a < n && tag[a] == 'v'
        invariant
            n == tag@.len(),
            a <= n,
            strip_char_start(tag@, 'v') == strip_char_start(tag@.skip(a as int), 'v'),
        decreases n - a,
    {
        assert(tag@.skip(a as int).drop_first() =~= tag@.skip(a + 1));
        a = a + 1;
    }
    let r = slice_part(tag, a, n);
    assert(r@ =~= tag@.skip(a as int));
    r
}

/// What to do about release `tag` while running version `current`: up to date when the
/// tag's version (the tag without leading `v`s) is the running one, else install that
/// version from the tag's download address.
pub fn plan_for_tag(current: &str, tag: &str) -> (r: UpdatePlan)
    ensures
        tag_version(tag@) == current@ ==> r is UpToDate,
        tag_version(tag@) != current@ ==> (r matches UpdatePlan::Install { version, tag: t, url }
            && version@ == tag_version(tag@) && t@ == tag@ && url@ == download_url(tag@)),
{
    let tv = chars_of(tag);
    let version = version_of_tag(tv.as_slice());
    let cv = chars_of(current);
    if same_chars(version.as_slice(), cv.as_slice()) {
        return UpdatePlan::UpToDate;
    }
    let mut url: Vec<char> = Vec::new();
    push_str(&mut url, "https://github.com/Muhammad-Owais-Warsi/px/releases/download/");
    append_chars(&mut url, tv.as_slice());
    push_str(&mut url, "/");
    push_str(&mut url, "px-windows-x86_64.zip");
    UpdatePlan::Install {
        version: string_of(version.as_slice()),
        tag: string_of(tv.as_slice()),
        url: string_of(url.as_slice()),
    }
}

/// What `update` does, given the running version and the "latest release" reply: the
/// plan for the reply's release tag (see `plan_for_tag`); the reply's errors as
/// `release_tag` says.
pub fn update_plan(current: &str, body: &str) -> (r: Result<UpdatePlan, String>)
    ensures
        match r {
            Ok(UpdatePlan::UpToDate) => json_string_member(body@, "tag_name"@) matches Some(t)
                && json_accepts(body@) && tag_version(t) == current@,
            Ok(UpdatePlan::Install { version, tag, url }) => json_accepts(body@)
                && json_string_member(body@, "tag_name"@) == Some(tag@)
                && tag_version(tag@) != current@ && version@ == tag_version(tag@)
                && url@ == download_url(tag@),
            Err(m) => (!json_accepts(body@) && m@ == bad_response_msg())
                || (json_accepts(body@) && json_string_member(body@, "tag_name"@) is None && m@ == no_tag_msg()),
        },
{
    let tag = release_tag(body)?;
    Ok(plan_for_tag(current, tag.as_str()))
}

/// The name of the temporary directory for `version`.
pub fn update_dir_name(version: &str) -> (r: String)
    ensures
        r@ == "px-update-"@ + version@,
{
    let mut v = chars_of("px-update-");
    push_str(&mut v, version);
    string_of(v.as_slice())
}

/// The name of a script file for process `pid`, as `<prefix><pid>.bat`.
pub fn script_name(prefix: &str, pid: u32) -> (r: String)
    ensures
        r@ == prefix@ + decimal(pid as nat) + ".bat"@,
{
    let mut v = chars_of(prefix);
    push_decimal(&mut v, pid as u64);
    push_str(&mut v, ".bat");
    string_of(v.as_slice())
}

/// The script that replaces `me` by `new_exe` once the running program has exited,
/// restarts it and cleans up `dir`.
pub open spec fn update_script_spec(new_exe: Seq<char>, me: Seq<char>, dir: Seq<char>) -> Seq<char> {
    "@echo off\r\nping -n 4 127.0.0.1 >nul\r\ncopy /Y \""@ + new_exe + "\" \""@ + me
        + "\" >nul 2>&1\r\nif errorlevel 1 (\r\nping -n 4 127.0.0.1 >nul\r\ncopy /Y \""@ + new_exe
        + "\" \""@ + me + "\" >nul 2>&1\r\n)\r\nstart \"\" \""@ + me + "\"\r\ndel /f /q \""@ + dir
        + "\\px.exe\" >nul 2>&1\r\ndel /f /q \"%~f0\" >nul 2>&1\r\n"@
}

/// The update script (see `update_script_spec`).
pub fn update_script(new_exe: &str, me: &str, dir: &str) -> (r: String)
    ensures
        r@ == update_script_spec(new_exe@, me@, dir@),
{
    let mut v = chars_of("@echo off\r\nping -n 4 127.0.0.1 >nul\r\ncopy /Y \"");
    push_str(&mut v, new_exe);
    push_str(&mut v, "\" \"");
    push_str(&mut v, me);
    push_str(&mut v, "\" >nul 2>&1\r\nif errorlevel 1 (\r\nping -n 4 127.0.0.1 >nul\r\ncopy /Y \"");
    push_str(&mut v, new_exe);
    push_str(&mut v, "\" \"");
    push_str(&mut v, me);
    push_str(&mut v, "\" >nul 2>&1\r\n)\r\nstart \"\" \"");
    push_str(&mut v, me);
    push_str(&mut v, "\"\r\ndel /f /q \"");
    push_str(&mut v, dir);
    push_str(&mut v, "\\px.exe\" >nul 2>&1\r\ndel /f /q \"%~f0\" >nul 2>&1\r\n");
    string_of(v.as_slice())
}

/// The script that deletes `exe` once the running program has exited.
pub open spec fn cleanup_script_spec(exe: Seq<char>) -> Seq<char> {
    "@echo off\r\nping -n 2 127.0.0.1 >nul\r\ndel /f /q \""@ + exe + "\"\r\n"@
}

/// The cleanup script (see `cleanup_script_spec`).
pub fn cleanup_script(exe: &str) -> (r: String)
    ensures
        r@ == cleanup_script_spec(exe@),
{
    let mut v = chars_of("@echo off\r\nping -n 2 127.0.0.1 >nul\r\ndel /f /q \"");
    push_str(&mut v, exe);
    push_str(&mut v, "\"\r\n");
    string_of(v.as_slice())
}

/// The command that runs a script in its own minimized window, without waiting.
pub fn detached_script(script: &str) -> (r: Invocation)
    ensures
        r.program@ == "cmd"@,
        views(r.args@) == seq!["/C"@, "start"@, ""@, "/min"@, "cmd"@, "/C"@, script@],
{
    let mut args: Vec<String> = Vec::new();
    args.push("/C".to_string());
    args.push("start".to_string());
    args.push("".to_string());
    args.push("/min".to_string());
    args.push("cmd".to_string());
    args.push("/C".to_string());
    args.push(script.to_string());
    assert(views(args@) =~= seq!["/C"@, "start"@, ""@, "/min"@, "cmd"@, "/C"@, script@]);
    Invocation { program: "cmd".to_string(), args }
}

/// The pieces of `s` between the `c`s (what `str::split(c)` yields).
#[verifier::opaque]
pub open spec fn split_on(s: Seq<char>, c: char) -> Seq<Seq<char>>
    decreases s.len(),
{
    match first_index(s, c) {
        Some(i) => if 0 <= i < s.len() { seq![s.take(i)] + split_on(s.skip(i + 1), c) } else { seq![] },
        None => seq![s],
    }
}

/// The pieces joined with `c` between them.
pub open spec fn join_with(parts: Seq<Seq<char>>, c: char) -> Seq<char>
    decreases parts.len(),
{
    if parts.len() == 0 {
        seq![]
    } else if parts.len() == 1 {
        parts[0]
    } else {
        join_with(parts.drop_last(), c) + seq![c] + parts.last()
    }
}

/// `entry` names the directory `dir`: equal ignoring case once trailing `\`s are dropped.
pub open spec fn names_dir(entry: Seq<char>, dir: Seq<char>) -> bool {
    lowercase(strip_char_end(entry, '\\')) == lowercase(dir)
}

/// The `;`-separated entries of `path` that do not name `dir`.
pub open spec fn kept_entries(parts: Seq<Seq<char>>, dir: Seq<char>) -> Seq<Seq<char>>
    decreases parts.len(),
{
    if parts.len() == 0 {
        seq![]
    } else {
        let prev = kept_entries(parts.drop_last(), dir);
        if names_dir(parts.last(), dir) { prev } else { prev.push(parts.last()) }
    }
}

/// The user's PATH without the entries that name `dir`.
pub open spec fn path_without_spec(path: Seq<char>, dir: Seq<char>) -> Seq<char> {
    join_with(kept_entries(split_on(path, ';'), dir), ';')
}

/// No entry that is kept names the removed directory, and every entry that does not name
/// it is kept, in order.
pub proof fn lemma_kept_entries(parts: Seq<Seq<char>>, dir: Seq<char>)
    ensures
        forall|i: int| 0 <= i < kept_entries(parts, dir).len() ==> !names_dir(#[trigger] kept_entries(parts, dir)[i], dir),
        kept_entries(parts, dir) == parts.filter(|e: Seq<char>| !names_dir(e, dir)),
    decreases parts.len(),
{
    reveal_with_fuel(Seq::filter, 1);
    if parts.len() > 0 {
        lemma_kept_entries(parts.drop_last(), dir);
    }
}

proof fn lemma_split_on_step(s: Seq<char>, c: char, j: int)
    requires
        0 <= j < s.len(),
        s[j] == c,
        forall|k: int| 0 <= k < j ==> s[k] != c,
    ensures
        split_on(s, c) == seq![s.take(j)] + split_on(s.skip(j + 1), c),
{
    reveal(split_on);
    let w = choose|k: int| 0 <= k < s.len() && s[k] == c && forall|m: int| 0 <= m < k ==> s[m] != c;
    assert(0 <= w < s.len() && s[w] == c && forall|m: int| 0 <= m < w ==> s[m] != c);
    if w < j {
    } else if w > j {
        assert(s[j] != c);
    }
    assert(first_index(s, c) == Some(j));
}

proof fn lemma_split_on_last(s: Seq<char>, c: char)
    requires
        forall|k: int| 0 <= k < s.len() ==> s[k] != c,
    ensures
        split_on(s, c) == seq![s],
{
    reveal(split_on);
    assert(first_index(s, c) is None);
}

/// Whether the entry names the directory whose lowercase name is `lower_dir`.
fn entry_names_dir(entry: &[char], lower_dir: &[char]) -> (r: bool)
    ensures
        r == (lowercase(strip_char_end(entry@, '\\')) == lower_dir@),
{
    let mut b: usize = entry.len();
    assert(entry@.take(b as int) =~= entry@);
    while b > 0 && entry[b - 1] == '\\'
        invariant
            b <= entry@.len(),
            strip_char_end(entry@, '\\') == strip_char_end(entry@.take(b as int), '\\'),
        decreases b,
    {
        assert(entry@.take(b as int).drop_last() =~= entry@.take(b - 1));
        b = b - 1;
    }
    assert(entry@.take(b as int) =~= entry@.subrange(0, b as int));
    let stem = slice_part(entry, 0, b);
    let lower = lowercase_chars(stem.as_slice());
    same_chars(lower.as_slice(), lower_dir)
}

/// The user's PATH without its entries that name `dir` (see `path_without_spec`).
pub fn path_without(path: &str, dir: &str) -> (r: String)
    ensures
        r@ == path_without_spec(path@, dir@),
{
    let p = chars_of(path);
    let dv = chars_of(dir);
    let lower_dir = lowercase_chars(dv.as_slice());
    let n = p.len();
    let mut kept: Vec<Vec<char>> = Vec::new();
    let ghost mut done: Seq<Seq<char>> = seq![];
    let mut start: usize = 0;
    let mut i: usize = 0;
    assert(p@.skip(0) =~= p@);
    while i < n
        invariant
            n == p@.len(),
            lower_dir@ == lowercase(dir@),
            start <= i <= n,
            forall|k: int| start <= k < i ==> p@[k] != ';',
            split_on(p@, ';') == done + split_on(p@.skip(start as int), ';'),
            kept@.len() == kept_entries(done, dir@).len(),
            forall|k: int| 0 <= k < kept@.len() ==> (#[trigger] kept@[k])@ == kept_entries(done, dir@)[k],
        decreases n - i,
    {
        if p[i] == ';' {
            let piece = slice_part(p.as_slice(), start, i);
            proof {
                let rest = p@.skip(start as int);
                lemma_split_on_step(rest, ';', i - start);
                assert(rest.take(i - start) =~= piece@);
                assert(rest.skip(i - start + 1) =~= p@.skip(i + 1));
                assert(seq![piece@] + split_on(p@.skip(i + 1), ';') == split_on(rest, ';'));
                assert(done.push(piece@) + split_on(p@.skip(i + 1), ';') =~= done + split_on(rest, ';'));
                assert(done.push(piece@).drop_last() =~= done);
            }
            let named = entry_names_dir(piece.as_slice(), lower_dir.as_slice());
            if !named {
                kept.push(piece);
            }
            proof {
                done = done.push(piece@);
                assert(names_dir(piece@, dir@) == named);
            }
            start = i + 1;
        }
        i = i + 1;
    }
    let last = slice_part(p.as_slice(), start, n);
    proof {
        let rest = p@.skip(start as int);
        assert(rest =~= last@);
        lemma_split_on_last(rest, ';');
        assert(split_on(p@, ';') =~= done.push(last@));
        assert(done.push(last@).drop_last() =~= done);
    }
    let named = entry_names_dir(last.as_slice(), lower_dir.as_slice());
    if !named {
        kept.push(last);
    }
    let ghost parts = split_on(p@, ';');
    let ghost ke = kept_entries(parts, dir@);
    assert(kept@.len() == ke.len());
    let mut out: Vec<char> = Vec::new();
    let m = kept.len();
    let mut j: usize = 0;
    while j < m
        invariant
            m == kept@.len(),
            m == ke.len(),
            forall|k: int| 0 <= k < m ==> (#[trigger] kept@[k])@ == ke[k],
            j <= m,
            out@ == join_with(ke.take(j as int), ';'),
        decreases m - j,
    {
        proof {
            assert(ke.take(j + 1).drop_last() =~= ke.take(j as int));
            assert(ke.take(j + 1).last() == kept@[j as int]@);
            if j == 0 {
                assert(ke.take(1)[0] == ke[0]);
            }
        }
        if j > 0 {
            out.push(';');
        }
        append_chars(&mut out, kept[j].as_slice());
        j = j + 1;
    }
    assert(ke.take(m as int) =~= ke);
    string_of(out.as_slice())
}

/// The `reg` command that stores `path` as the user's PATH.
pub fn path_update_command(path: &str) -> (r: Invocation)
    ensures
        r.program@ == "reg"@,
        views(r.args@) == seq!["add"@, "HKCU\\Environment"@, "/v"@, "Path"@, "/t"@, "REG_EXPAND_SZ"@, "/d"@, path@, "/f"@],
{
    let mut args: Vec<String> = Vec::new();
    args.push("add".to_string());
    args.push("HKCU\\Environment".to_string());
    args.push("/v".to_string());
    args.push("Path".to_string());
    args.push("/t".to_string());
    args.push("REG_EXPAND_SZ".to_string());
    args.push("/d".to_string());
    args.push(path.to_string());
    args.push("/f".to_string());
    assert(views(args@) =~= seq!["add"@, "HKCU\\Environment"@, "/v"@, "Path"@, "/t"@, "REG_EXPAND_SZ"@, "/d"@, path@, "/f"@]);
    Invocation { program: "reg".to_string(), args }
}

} // verus!
