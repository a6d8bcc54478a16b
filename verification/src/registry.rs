//! Choosing among the entries of the Windows "Uninstall" registry keys.
use vstd::prelude::*;
use crate::text::{contains_chars, contains_text, chars_of, lowercase, lowercase_chars, same_chars, trim, trimmed};

verus! {

/// What one subkey of an "Uninstall" registry key holds, as read (`None` where a value
/// could not be read as a string).
#[derive(Debug)]
pub struct UninstallEntry {
    pub display_name: Option<String>,
    pub quiet_uninstall_string: Option<String>,
    pub uninstall_string: Option<String>,
}

impl UninstallEntry {
    /// The command of the entry: the quiet uninstall string when it could be read,
    /// else the plain one; `None` when neither can be read or the chosen one is blank.
    pub open spec fn command(self) -> Option<Seq<char>> {
        let c = match self.quiet_uninstall_string {
            Some(q) => Some(q@),
            None => match self.uninstall_string {
                Some(u) => Some(u@),
                None => None,
            },
        };
        match c {
            Some(c) => if trim(c).len() > 0 { Some(c) } else { None },
            None => None,
        }
    }

    /// The entry has a display name and a usable command.
    pub open spec fn usable(self) -> bool {
        self.display_name is Some && self.command() is Some
    }

    /// The entry's display name, lowercased, is exactly `want`.
    pub open spec fn exact(self, want: Seq<char>) -> bool {
        self.usable() && lowercase(self.display_name->0@) == want
    }

    /// The entry's display name, lowercased, contains `want`.
    pub open spec fn partial(self, want: Seq<char>) -> bool {
        self.usable() && contains_text(lowercase(self.display_name->0@), want)
    }
}

/// The entries whose display name, lowercased, is exactly `want` (usable entries only).
pub open spec fn exact_for(want: Seq<char>) -> spec_fn(UninstallEntry) -> bool {
    |e: UninstallEntry| e.exact(want)
}

/// The entries whose display name, lowercased, contains `want` (usable entries only).
pub open spec fn partial_for(want: Seq<char>) -> spec_fn(UninstallEntry) -> bool {
    |e: UninstallEntry| e.partial(want)
}

/// Index of the first entry that `m` accepts, if any.
pub open spec fn first_match(es: Seq<UninstallEntry>, m: spec_fn(UninstallEntry) -> bool) -> Option<int> {
    if exists|i: int| 0 <= i < es.len() && m(es[i]) {
        Some(choose|i: int| 0 <= i < es.len() && m(es[i]) && forall|j: int| 0 <= j < i ==> !m(es[j]))
    } else {
        None
    }
}

/// Index of the first exact match for `want`, if any.
pub open spec fn first_exact(es: Seq<UninstallEntry>, want: Seq<char>) -> Option<int> {
    first_match(es, exact_for(want))
}

/// Index of the first partial match for `want`, if any.
pub open spec fn first_partial(es: Seq<UninstallEntry>, want: Seq<char>) -> Option<int> {
    first_match(es, partial_for(want))
}

/// The uninstall command found for `name`: that of the first entry whose display name
/// equals `name` ignoring case; failing that, unless only exact matches count, that of the
/// first entry whose display name contains `name` ignoring case.
pub open spec fn lookup_spec(es: Seq<UninstallEntry>, name: Seq<char>, exact_only: bool) -> Option<Seq<char>> {
    let want = lowercase(name);
    match first_exact(es, want) {
        Some(i) => es[i].command(),
        None => if exact_only {
            None
        } else {
            match first_partial(es, want) {
                Some(i) => es[i].command(),
                None => None,
            }
        },
    }
}

/// An exact match always wins: when some entry's name equals `name` ignoring case, both
/// lookups give the command of the first such entry; and whatever an exact-only lookup
/// finds, the full lookup finds too.
pub proof fn lemma_exact_match_wins(es: Seq<UninstallEntry>, name: Seq<char>)
    ensures
        first_exact(es, lowercase(name)) matches Some(i) ==> lookup_spec(es, name, false) == es[i].command()
            && lookup_spec(es, name, true) == es[i].command(),
        lookup_spec(es, name, true) is Some ==> lookup_spec(es, name, false) == lookup_spec(es, name, true),
        lookup_spec(es, name, true) matches Some(c) ==> exists|i: int| 0 <= i < es.len() && es[i].exact(lowercase(name)) && es[i].command() == Some(c),
{
    let want = lowercase(name);
    if exists|i: int| 0 <= i < es.len() && es[i].exact(want) {
        let k = choose|i: int| 0 <= i < es.len() && es[i].exact(want);
        lemma_first_match_found(es, exact_for(want), k);
    }
}

/// When no usable entry's display name equals `name` ignoring case, the full lookup gives
/// the command of the first usable entry whose lowercased display name holds the
/// lowercased `name` anywhere in it.
pub proof fn lemma_partial_match_anywhere(es: Seq<UninstallEntry>, name: Seq<char>, k: int)
    requires
        forall|i: int| 0 <= i < es.len() ==> !((#[trigger] es[i]).usable()
            && lowercase(es[i].display_name->0@) == lowercase(name)),
        0 <= k < es.len(),
        es[k].usable(),
        contains_text(lowercase(es[k].display_name->0@), lowercase(name)),
        forall|j: int| 0 <= j < k ==> !((#[trigger] es[j]).usable()
            && contains_text(lowercase(es[j].display_name->0@), lowercase(name))),
    ensures
        lookup_spec(es, name, false) == es[k].command(),
{
    let want = lowercase(name);
    assert(!exists|i: int| 0 <= i < es.len() && exact_for(want)(es[i]));
    lemma_first_match_at(es, partial_for(want), k);
}

/// A command that is found is never blank.
pub proof fn lemma_found_command_not_blank(es: Seq<UninstallEntry>, name: Seq<char>, exact_only: bool)
    ensures
        lookup_spec(es, name, exact_only) matches Some(c) ==> trim(c).len() > 0,
{
}

/// An entry that `m` accepts, with none accepted before it, is the first match.
pub proof fn lemma_first_match_at(es: Seq<UninstallEntry>, m: spec_fn(UninstallEntry) -> bool, k: int)
    requires
        0 <= k < es.len(),
        m(es[k]),
        forall|j: int| 0 <= j < k ==> !m(es[j]),
    ensures
        first_match(es, m) == Some(k),
{
    assert(0 <= k < es.len() && m(es[k]) && forall|j: int| 0 <= j < k ==> !m(es[j]));
    let w = first_match(es, m)->0;
    if w > k {
        assert(!m(es[k]));
    }
}

/// When some entry is accepted by `m`, the first match exists, lies at or before it, is
/// accepted, and no entry before it is.
pub proof fn lemma_first_match_found(es: Seq<UninstallEntry>, m: spec_fn(UninstallEntry) -> bool, k: int)
    requires
        0 <= k < es.len(),
        m(es[k]),
    ensures
        first_match(es, m) matches Some(i) && 0 <= i <= k && m(es[i])
            && forall|j: int| 0 <= j < i ==> !m(es[j]),
    decreases k,
{
    if exists|j: int| 0 <= j < k && m(es[j]) {
        let j = choose|j: int| 0 <= j < k && m(es[j]);
        lemma_first_match_found(es, m, j);
    } else {
        lemma_first_match_at(es, m, k);
    }
}

/// Where the first match moves when an entry that `m` does not accept is put in at `k`.
proof fn lemma_first_match_insert(es: Seq<UninstallEntry>, k: int, bad: UninstallEntry, m: spec_fn(UninstallEntry) -> bool)
    requires
        0 <= k <= es.len(),
        !m(bad),
    ensures
        match first_match(es, m) {
            Some(i) => first_match(es.insert(k, bad), m) == Some(if i < k { i } else { i + 1 })
                && es.insert(k, bad)[if i < k { i } else { i + 1 }] == es[i],
            None => first_match(es.insert(k, bad), m) is None,
        },
{
    let es2 = es.insert(k, bad);
    if exists|i: int| 0 <= i < es.len() && m(es[i]) {
        let w = choose|i: int| 0 <= i < es.len() && m(es[i]);
        lemma_first_match_found(es, m, w);
        let i = first_match(es, m)->0;
        let i2 = if i < k { i } else { i + 1 };
        assert(es2[i2] == es[i]);
        assert forall|j: int| 0 <= j < i2 implies !m(es2[j]) by {
            if j < k {
                assert(es2[j] == es[j]);
            } else if j > k {
                assert(es2[j] == es[j - 1]);
            }
        }
        lemma_first_match_at(es2, m, i2);
    } else {
        assert forall|j: int| 0 <= j < es2.len() implies !m(es2[j]) by {
            if j < k {
                assert(es2[j] == es[j]);
            } else if j > k {
                assert(es2[j] == es[j - 1]);
            }
        }
    }
}

/// An entry without a display name or a usable command never changes what a lookup finds,
/// wherever it stands among the entries.
pub proof fn lemma_unusable_entry_ignored(es: Seq<UninstallEntry>, k: int, bad: UninstallEntry, name: Seq<char>, exact_only: bool)
    requires
        0 <= k <= es.len(),
        !bad.usable(),
    ensures
        lookup_spec(es.insert(k, bad), name, exact_only) == lookup_spec(es, name, exact_only),
{
    let want = lowercase(name);
    lemma_first_match_insert(es, k, bad, exact_for(want));
    lemma_first_match_insert(es, k, bad, partial_for(want));
}

/// The entries that have a display name and a usable command.
pub open spec fn usable_entries(es: Seq<UninstallEntry>) -> Seq<UninstallEntry> {
    es.filter(|e: UninstallEntry| e.usable())
}

/// Leaving the unusable entries out of the first part of the entries changes no lookup.
proof fn lemma_unusable_prefix_ignored(a: Seq<UninstallEntry>, b: Seq<UninstallEntry>, name: Seq<char>, exact_only: bool)
    ensures
        lookup_spec(usable_entries(a) + b, name, exact_only) == lookup_spec(a + b, name, exact_only),
    decreases a.len(),
{
    reveal(Seq::filter);
    if a.len() == 0 {
        assert(usable_entries(a) =~= a);
    } else {
        let init = a.drop_last();
        let x = a.last();
        assert(a + b =~= init + (seq![x] + b));
        if x.usable() {
            lemma_unusable_prefix_ignored(init, seq![x] + b, name, exact_only);
            assert(usable_entries(a) == usable_entries(init).push(x));
            assert(usable_entries(a) + b =~= usable_entries(init) + (seq![x] + b));
        } else {
            lemma_unusable_prefix_ignored(init, b, name, exact_only);
            assert(usable_entries(a) == usable_entries(init));
            assert((init + b).insert(init.len() as int, x) =~= init + (seq![x] + b));
            lemma_unusable_entry_ignored(init + b, init.len() as int, x, name, exact_only);
        }
    }
}

/// Entries without a display name or a usable command (those whose values could not be
/// read) never change what a lookup finds: it finds what it would find were they absent,
/// so a usable match after them is still found.
pub proof fn lemma_unusable_entries_ignored(es: Seq<UninstallEntry>, name: Seq<char>, exact_only: bool)
    ensures
        lookup_spec(usable_entries(es), name, exact_only) == lookup_spec(es, name, exact_only),
{
    lemma_unusable_prefix_ignored(es, seq![], name, exact_only);
    assert(usable_entries(es) + seq![] =~= usable_entries(es));
    assert(es + seq![] =~= es);
}

/// The command of an entry that has one.
fn entry_command(e: &UninstallEntry) -> (r: Option<String>)
    ensures
        match r {
            Some(c) => e.command() == Some(c@),
            None => e.command() is None,
        },
{
    let c = match &e.quiet_uninstall_string {
        Some(q) => q,
        None => match &e.uninstall_string {
            Some(u) => u,
            None => return None,
        },
    };
    let v = chars_of(c.as_str());
    let t = trimmed(v.as_slice());
    if t.len() == 0 {
        None
    } else {
        Some(c.clone())
    }
}

/// Looks through the uninstall entries for `name` (see `lookup_spec`).
pub fn lookup_uninstall(entries: &Vec<UninstallEntry>, name: &str, exact_only: bool) -> (r: Option<String>)
    ensures
        match r {
            Some(c) => lookup_spec(entries@, name@, exact_only) == Some(c@),
            None => lookup_spec(entries@, name@, exact_only) is None,
        },
{
    let ghost es = entries@;
    let nv = chars_of(name);
    let want = lowercase_chars(nv.as_slice());
    let mut contains_match: Option<String> = None;
    let ghost mut contains_idx: Option<int> = None;
    let n = entries.len();
    let mut i: usize = 0;
    while i < n
        invariant
            n == es.len(),
            es == entries@,
            want@ == lowercase(name@),
            i <= n,
            forall|j: int| 0 <= j < i ==> !es[j].exact(want@),
            exact_only ==> contains_match is None,
            !exact_only ==> match contains_match {
                Some(c) => contains_idx is Some && 0 <= contains_idx->0 < i && es[contains_idx->0].partial(want@)
                    && (forall|j: int| 0 <= j < contains_idx->0 ==> !es[j].partial(want@))
                    && es[contains_idx->0].command() == Some(c@),
                None => forall|j: int| 0 <= j < i ==> !es[j].partial(want@),
            },
        decreases n - i,
    {
        let e = &entries[i];
        match &e.display_name {
            None => {},
            Some(display) => {
                match entry_command(e) {
                    None => {},
                    Some(cmd) => {
                        let dv = chars_of(display.as_str());
                        let lower = lowercase_chars(dv.as_slice());
                        if same_chars(lower.as_slice(), want.as_slice()) {
                            proof {
                                assert(es[i as int].exact(want@));
                                lemma_first_match_at(es, exact_for(want@), i as int);
                            }
                            return Some(cmd);
                        }
                        if !exact_only && contains_match.is_none()
                            && contains_chars(lower.as_slice(), want.as_slice()) {
                            contains_match = Some(cmd);
                            proof {
                                contains_idx = Some(i as int);
                            }
                        }
                    },
                }
            },
        }
        i = i + 1;
    }
    proof {
        assert(first_exact(es, want@) is None);
        if !exact_only {
            if contains_match is Some {
                {
                    lemma_first_match_at(es, partial_for(want@), contains_idx->0);
                }
            }
        }
    }
    contains_match
}

/// The uninstall command for the app called (or partly called) `name`.
pub fn find_uninstall_cmd(entries: &Vec<UninstallEntry>, name: &str) -> (r: Option<String>)
    ensures
        match r {
            Some(c) => lookup_spec(entries@, name@, false) == Some(c@),
            None => lookup_spec(entries@, name@, false) is None,
        },
{
    lookup_uninstall(entries, name, false)
}

/// The uninstall command for the app called exactly `name` (ignoring case).
pub fn find_exact_uninstall_cmd(entries: &Vec<UninstallEntry>, name: &str) -> (r: Option<String>)
    ensures
        match r {
            Some(c) => lookup_spec(entries@, name@, true) == Some(c@),
            None => lookup_spec(entries@, name@, true) is None,
        },
{
    lookup_uninstall(entries, name, true)
}


/// What one subkey of an "Uninstall" registry key tells about an installed app, as read
/// (`None` where a value could not be read).
#[derive(Debug)]
pub struct AppEntry {
    pub display_name: Option<String>,
    pub system_component: Option<u32>,
    pub estimated_size: Option<u32>,
}

/// An installed app and its estimated size in KB, when known.
#[derive(Debug)]
pub struct InstalledApp {
    pub name: String,
    pub size_kb: Option<u64>,
}

impl AppEntry {
    /// The entry names an app that is listed: it has a non-blank display name and is not
    /// marked as a system component (an unreadable mark counts as not set).
    pub open spec fn listed(self) -> bool {
        &&& self.display_name is Some
        &&& trim(self.display_name->0@).len() > 0
        &&& match self.system_component {
            Some(v) => v != 1,
            None => true,
        }
    }

    /// Name and size the entry contributes.
    pub open spec fn item(self) -> (Seq<char>, Option<u64>) {
        (self.display_name->0@, match self.estimated_size {
            Some(k) => Some(k as u64),
            None => None,
        })
    }
}

/// The names and sizes of a list of apps.
pub open spec fn app_views(v: Seq<InstalledApp>) -> Seq<(Seq<char>, Option<u64>)> {
    v.map_values(|a: InstalledApp| (a.name@, a.size_kb))
}

/// Some item of `items` has a name equal to `name` ignoring case.
pub open spec fn has_name_ignoring_case(items: Seq<(Seq<char>, Option<u64>)>, name: Seq<char>) -> bool {
    exists|k: int| 0 <= k < items.len() && lowercase(items[k].0) == lowercase(name)
}

/// The installed apps, in entry order: listed entries only, and of entries whose names are
/// equal ignoring case only the first.
pub open spec fn installed_apps_spec(es: Seq<AppEntry>) -> Seq<(Seq<char>, Option<u64>)>
    decreases es.len(),
{
    if es.len() == 0 {
        seq![]
    } else {
        let prev = installed_apps_spec(es.drop_last());
        let e = es.last();
        if e.listed() && !has_name_ignoring_case(prev, e.item().0) {
            prev.push(e.item())
        } else {
            prev
        }
    }
}

/// No two listed apps have names that are equal ignoring case, and every listed app comes
/// from an entry that is listed (non-blank name, not a system component).
pub proof fn lemma_installed_apps_distinct(es: Seq<AppEntry>)
    ensures
        forall|i: int, j: int| 0 <= i < j < installed_apps_spec(es).len()
            ==> lowercase(installed_apps_spec(es)[i].0) != lowercase(installed_apps_spec(es)[j].0),
        forall|i: int| 0 <= i < installed_apps_spec(es).len() ==> exists|k: int|
            0 <= k < es.len() && es[k].listed() && es[k].item() == #[trigger] installed_apps_spec(es)[i],
    decreases es.len(),
{
    if es.len() > 0 {
        let prev = installed_apps_spec(es.drop_last());
        lemma_installed_apps_distinct(es.drop_last());
        let r = installed_apps_spec(es);
        assert forall|i: int| 0 <= i < r.len() implies exists|k: int|
            0 <= k < es.len() && es[k].listed() && es[k].item() == #[trigger] r[i] by {
            if i < prev.len() {
                let k = choose|k: int| 0 <= k < es.drop_last().len() && es.drop_last()[k].listed() && es.drop_last()[k].item() == prev[i];
                assert(es[k] == es.drop_last()[k]);
            } else {
                assert(es[es.len() - 1].listed());
            }
        }
        assert forall|i: int, j: int| 0 <= i < j < r.len() implies lowercase(r[i].0) != lowercase(r[j].0) by {
            if j == prev.len() {
                assert(r[i] == prev[i]);
            }
        }
    }
}

/// Every listed entry is represented: some listed app has its name, ignoring case.
pub proof fn lemma_installed_apps_complete(es: Seq<AppEntry>)
    ensures
        forall|k: int| 0 <= k < es.len() && (#[trigger] es[k]).listed()
            ==> has_name_ignoring_case(installed_apps_spec(es), es[k].item().0),
    decreases es.len(),
{
    if es.len() > 0 {
        let init = es.drop_last();
        lemma_installed_apps_complete(init);
        let prev = installed_apps_spec(init);
        let r = installed_apps_spec(es);
        assert forall|k: int| 0 <= k < es.len() && (#[trigger] es[k]).listed()
            implies has_name_ignoring_case(r, es[k].item().0) by {
            let name = es[k].item().0;
            if k < es.len() - 1 {
                assert(es[k] == init[k]);
                assert(has_name_ignoring_case(prev, name));
                let m = choose|m: int| 0 <= m < prev.len() && lowercase(prev[m].0) == lowercase(name);
                assert(r[m] == prev[m]);
            } else if has_name_ignoring_case(prev, name) {
                let m = choose|m: int| 0 <= m < prev.len() && lowercase(prev[m].0) == lowercase(name);
                assert(r[m] == prev[m]);
            } else {
                assert(r[prev.len() as int] == es[k].item());
            }
        }
    }
}

/// Whether `lower` is among the character sequences `seen`.
fn seen_contains(seen: &Vec<Vec<char>>, lower: &Vec<char>) -> (r: bool)
    ensures
        r == exists|k: int| 0 <= k < seen@.len() && seen@[k]@ == lower@,
{
    let n = seen.len();
    let mut i: usize = 0;
    while i < n
        invariant
            n == seen@.len(),
            i <= n,
            forall|k: int| 0 <= k < i ==> seen@[k]@ != lower@,
        decreases n - i,
    {
        if same_chars(seen[i].as_slice(), lower.as_slice()) {
            return true;
        }
        i = i + 1;
    }
    false
}

/// The installed apps that the uninstall entries describe (see `installed_apps_spec`).
pub fn installed_apps(entries: &Vec<AppEntry>) -> (r: Vec<InstalledApp>)
    ensures
        app_views(r@) == installed_apps_spec(entries@),
        forall|k: int| 0 <= k < r@.len() ==> ((#[trigger] r@[k]).size_kb matches Some(s) ==> s <= 0xffff_ffff),
{
    let ghost es = entries@;
    let mut out: Vec<InstalledApp> = Vec::new();
    let mut seen: Vec<Vec<char>> = Vec::new();
    let n = entries.len();
    let mut i: usize = 0;
    while i < n
        invariant
            n == es.len(),
            es == entries@,
            i <= n,
            app_views(out@) == installed_apps_spec(es.take(i as int)),
            seen@.len() == out@.len(),
            forall|k: int| 0 <= k < out@.len() ==> ((#[trigger] out@[k]).size_kb matches Some(s) ==> s <= 0xffff_ffff),
            forall|k: int| 0 <= k < seen@.len() ==> seen@[k]@ == lowercase(#[trigger] out@[k].name@),
        decreases n - i,
    {
        let e = &entries[i];
        proof {
            assert(es.take(i + 1).drop_last() =~= es.take(i as int));
            assert(es.take(i + 1).last() == es[i as int]);
        }
        let ghost prev = app_views(out@);
        match &e.display_name {
            None => {},
            Some(name) => {
                let nv = chars_of(name.as_str());
                let t = trimmed(nv.as_slice());
                let sys: u32 = match e.system_component {
                    Some(v) => v,
                    None => 0,
                };
                if t.len() > 0 && sys != 1 {
                    let lower = lowercase_chars(nv.as_slice());
                    let dup = seen_contains(&seen, &lower);
                    proof {
                        if has_name_ignoring_case(prev, name@) {
                            let k = choose|k: int| 0 <= k < prev.len() && lowercase(prev[k].0) == lowercase(name@);
                            assert(seen@[k]@ == lowercase(out@[k].name@));
                        }
                        if dup {
                            let k = choose|k: int| 0 <= k < seen@.len() && seen@[k]@ == lower@;
                            assert(seen@[k]@ == lowercase(out@[k].name@));
                            assert(prev[k].0 == out@[k].name@);
                        }
                    }
                    if !dup {
                        let size: Option<u64> = match e.estimated_size {
                            Some(k) => Some(k as u64),
                            None => None,
                        };
                        let ghost old_out = out@;
                        out.push(InstalledApp { name: name.clone(), size_kb: size });
                        seen.push(lower);
                        assert(app_views(out@) =~= app_views(old_out).push(es[i as int].item()));
                    }
                }
            },
        }
        i = i + 1;
    }
    assert(es.take(n as int) =~= es);
    out
}

} // verus!
