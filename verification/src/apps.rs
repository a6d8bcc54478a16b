//! The `apps` listing: installed apps, biggest first, unknown sizes last.
use vstd::prelude::*;
use vstd::relations::{sorted_by, total_ordering};
use crate::order::{lemma_text_lt_asymmetric, lemma_text_lt_irreflexive, lemma_text_lt_total, lemma_text_lt_transitive, text_less, text_lt};
use crate::registry::{app_views, InstalledApp};
use crate::size::{human_size, human_size_spec};
use crate::text::{append_chars, chars_of, pad_right, push_padded, slice_part, string_of};
use crate::cmdline::views;

verus! {

/// `a` is listed strictly before `b`: known sizes before unknown ones, bigger sizes first,
/// and otherwise by name.
pub open spec fn app_before(a: (Seq<char>, Option<u64>), b: (Seq<char>, Option<u64>)) -> bool {
    match (a.1, b.1) {
        (Some(x), Some(y)) => x > y || (x == y && text_lt(a.0, b.0)),
        (Some(_), None) => true,
        (None, Some(_)) => false,
        (None, None) => text_lt(a.0, b.0),
    }
}

/// `a` may be listed before `b` (`b` is not strictly before `a`).
pub open spec fn app_leq(a: (Seq<char>, Option<u64>), b: (Seq<char>, Option<u64>)) -> bool {
    !app_before(b, a)
}

/// The listing order as a relation.
pub open spec fn listing_leq() -> spec_fn((Seq<char>, Option<u64>), (Seq<char>, Option<u64>)) -> bool {
    |a: (Seq<char>, Option<u64>), b: (Seq<char>, Option<u64>)| app_leq(a, b)
}

/// Nothing is listed before itself, and of two different items one is listed before the other.
pub proof fn lemma_app_before_strict_total(a: (Seq<char>, Option<u64>), b: (Seq<char>, Option<u64>))
    ensures
        !app_before(a, a),
        app_before(a, b) ==> !app_before(b, a),
        a != b ==> app_before(a, b) || app_before(b, a),
{
    lemma_text_lt_irreflexive(a.0);
    lemma_text_lt_asymmetric(a.0, b.0);
    lemma_text_lt_total(a.0, b.0);
}

/// Listing before is transitive.
pub proof fn lemma_app_before_transitive(
    a: (Seq<char>, Option<u64>),
    b: (Seq<char>, Option<u64>),
    c: (Seq<char>, Option<u64>),
)
    requires
        app_before(a, b),
        app_before(b, c),
    ensures
        app_before(a, c),
{
    if text_lt(a.0, b.0) && text_lt(b.0, c.0) {
        lemma_text_lt_transitive(a.0, b.0, c.0);
    }
}

/// The listing order is a total ordering.
pub proof fn lemma_app_leq_total_ordering()
    ensures
        total_ordering(listing_leq()),
{
    let leq = listing_leq();
    assert forall|x: (Seq<char>, Option<u64>)| #[trigger] leq(x, x) by {
        lemma_app_before_strict_total(x, x);
    }
    assert forall|x: (Seq<char>, Option<u64>), y: (Seq<char>, Option<u64>)|
        #[trigger] leq(x, y) && #[trigger] leq(y, x) implies x == y by {
        lemma_app_before_strict_total(x, y);
    }
    assert forall|x: (Seq<char>, Option<u64>), y: (Seq<char>, Option<u64>), z: (Seq<char>, Option<u64>)|
        #[trigger] leq(x, y) && #[trigger] leq(y, z) implies leq(x, z) by {
        lemma_app_before_strict_total(x, y);
        if app_before(z, x) {
            if x == y {
            } else {
                lemma_app_before_transitive(z, x, y);
            }
        }
    }
    assert forall|x: (Seq<char>, Option<u64>), y: (Seq<char>, Option<u64>)|
        #[trigger] leq(x, y) || #[trigger] leq(y, x) by {
        lemma_app_before_strict_total(x, y);
    }
}

/// Two sequences sorted by the same total ordering and holding the same items are equal.
pub proof fn lemma_sorted_unique<A>(a: Seq<A>, b: Seq<A>, leq: spec_fn(A, A) -> bool)
    requires
        total_ordering(leq),
        sorted_by(a, leq),
        sorted_by(b, leq),
        a.to_multiset() == b.to_multiset(),
    ensures
        a == b,
    decreases a.len(),
{
    broadcast use vstd::seq_lib::group_to_multiset_ensures;

    assert(a.to_multiset().len() == a.len());
    assert(b.to_multiset().len() == b.len());
    if a.len() == 0 {
        assert(b.to_multiset().len() == 0);
        assert(a =~= b);
    } else {
        assert(b.len() > 0);
        assert(a.to_multiset().count(a[0]) > 0);
        assert(b.contains(a[0]));
        let k = choose|k: int| 0 <= k < b.len() && b[k] == a[0];
        assert(b.to_multiset().count(b[0]) > 0);
        assert(a.contains(b[0]));
        let m = choose|m: int| 0 <= m < a.len() && a[m] == b[0];
        if k > 0 {
            assert(leq(b[0], b[k]));
        } else {
            assert(leq(b[0], a[0]));
        }
        if m > 0 {
            assert(leq(a[0], a[m]));
        } else {
            assert(leq(a[0], b[0]));
        }
        assert(a[0] == b[0]);
        assert(a.remove(0) =~= a.drop_first());
        assert(b.remove(0) =~= b.drop_first());
        assert(a.drop_first().to_multiset() == b.drop_first().to_multiset());
        lemma_sorted_unique(a.drop_first(), b.drop_first(), leq);
        assert(a =~= seq![a[0]] + a.drop_first());
        assert(b =~= seq![b[0]] + b.drop_first());
    }
}

/// The order in which the apps are listed.
pub open spec fn listing_order(items: Seq<(Seq<char>, Option<u64>)>) -> Seq<(Seq<char>, Option<u64>)> {
    items.sort_by(listing_leq())
}

/// The listing holds the same apps, biggest first: of two apps with known sizes the bigger
/// comes first, apps of unknown size come last, and equal sizes go by name.
pub proof fn lemma_listing_biggest_first(items: Seq<(Seq<char>, Option<u64>)>)
    ensures
        listing_order(items).to_multiset() == items.to_multiset(),
        forall|i: int, j: int| 0 <= i < j < listing_order(items).len() ==> match (#[trigger] listing_order(items)[i].1, #[trigger] listing_order(items)[j].1) {
            (Some(x), Some(y)) => x > y || (x == y && !text_lt(listing_order(items)[j].0, listing_order(items)[i].0)),
            (None, Some(_)) => false,
            (Some(_), None) => true,
            (None, None) => !text_lt(listing_order(items)[j].0, listing_order(items)[i].0),
        },
{
    lemma_app_leq_total_ordering();
    items.lemma_sort_by_ensures(listing_leq());
    let s = listing_order(items);
    assert forall|i: int, j: int| 0 <= i < j < s.len() implies match (#[trigger] s[i].1, #[trigger] s[j].1) {
        (Some(x), Some(y)) => x > y || (x == y && !text_lt(s[j].0, s[i].0)),
        (None, Some(_)) => false,
        (Some(_), None) => true,
        (None, None) => !text_lt(s[j].0, s[i].0),
    } by {
        assert(listing_leq()(s[i], s[j]));
    }
}

/// Whether app `a` is listed strictly before app `b`.
fn app_less(a: &InstalledApp, b: &InstalledApp) -> (r: bool)
    ensures
        r == app_before((a.name@, a.size_kb), (b.name@, b.size_kb)),
{
    match (a.size_kb, b.size_kb) {
        (Some(x), Some(y)) => {
            if x != y {
                x > y
            } else {
                let an = chars_of(a.name.as_str());
                let bn = chars_of(b.name.as_str());
                text_less(an.as_slice(), bn.as_slice())
            }
        },
        (Some(_), None) => true,
        (None, Some(_)) => false,
        (None, None) => {
            let an = chars_of(a.name.as_str());
            let bn = chars_of(b.name.as_str());
            text_less(an.as_slice(), bn.as_slice())
        },
    }
}

proof fn lemma_insert_to_multiset<A>(s: Seq<A>, p: int, x: A)
    requires
        0 <= p <= s.len(),
    ensures
        s.insert(p, x).to_multiset() =~= s.to_multiset().insert(x),
{
    broadcast use vstd::seq_lib::group_to_multiset_ensures;

    let t = s.insert(p, x);
    assert(t.remove(p) =~= s);
    assert(t[p] == x);
    assert(t.to_multiset().count(x) > 0) by {
        assert(t.contains(x));
    }
}

/// The apps in listing order (see `listing_order`).
pub fn sort_apps(list: &Vec<InstalledApp>) -> (r: Vec<InstalledApp>)
    ensures
        app_views(r@) == listing_order(app_views(list@)),
{
    let mut res: Vec<InstalledApp> = Vec::new();
    let n = list.len();
    let mut i: usize = 0;
    assert(app_views(res@) =~= app_views(list@).take(0));
    while i < n
        invariant
            n == list@.len(),
            i <= n,
            app_views(res@).to_multiset() == app_views(list@).take(i as int).to_multiset(),
            sorted_by(app_views(res@), listing_leq()),
        decreases n - i,
    {
        let x = &list[i];
        let m = res.len();
        let mut p: usize = 0;
        let mut found = false;
        while p < m
            invariant
                m == res@.len(),
                p <= m,
                !found,
                forall|k: int| 0 <= k < p ==> !app_before((x.name@, x.size_kb), #[trigger] app_views(res@)[k]),
            ensures
                p <= m,
                forall|k: int| 0 <= k < p ==> !app_before((x.name@, x.size_kb), #[trigger] app_views(res@)[k]),
                p < m ==> app_before((x.name@, x.size_kb), app_views(res@)[p as int]),
            decreases m - p,
        {
            if app_less(x, &res[p]) {
                break;
            }
            p = p + 1;
        }
        let ghost old_views = app_views(res@);
        let ghost xv = (x.name@, x.size_kb);
        assert(forall|k: int| 0 <= k < p ==> !app_before(xv, old_views[k]));
        assert(p < m ==> app_before(xv, old_views[p as int]));
        res.insert(p, InstalledApp { name: x.name.clone(), size_kb: x.size_kb });
        proof {
            let leq = listing_leq();
            broadcast use vstd::seq_lib::group_to_multiset_ensures;
            assert(app_views(res@) =~= old_views.insert(p as int, xv));
            old_views.insert_ensures(p as int, xv);
            lemma_insert_to_multiset(old_views, p as int, xv);
            assert(app_views(list@).take(i + 1) =~= app_views(list@).take(i as int).push(xv));
            let t = app_views(res@);
            assert(t == old_views.insert(p as int, xv));
            assert forall|a: int, b: int| 0 <= a < b < t.len() implies #[trigger] leq(t[a], t[b]) by {
                if b < p {
                    assert(leq(old_views[a], old_views[b]));
                    assert(leq(t[a], t[b]));
                } else if b == p {
                    assert(old_views.insert(p as int, xv)[a] == old_views[a]);
                    assert(old_views.insert(p as int, xv)[b] == xv);
                    assert(!app_before(xv, old_views[a]));
                    assert(leq(t[a], t[b]));
                } else if a > p {
                    assert(leq(old_views[a - 1], old_views[b - 1]));
                    assert(leq(t[a], t[b]));
                } else if a == p {
                    assert(old_views.insert(p as int, xv)[a] == xv);
                    assert(old_views.insert(p as int, xv)[(b - 1) + 1] == old_views[b - 1]);
                    if app_before(old_views[b - 1], xv) {
                        assert(app_before(xv, old_views[p as int]));
                        lemma_app_before_transitive(old_views[b - 1], xv, old_views[p as int]);
                        lemma_app_before_strict_total(old_views[b - 1], old_views[p as int]);
                        if b - 1 > p {
                            assert(leq(old_views[p as int], old_views[b - 1]));
                        }
                    }
                    assert(leq(t[a], t[b]));
                } else {
                    assert(leq(old_views[a], old_views[b - 1]));
                    assert(leq(t[a], t[b]));
                }
            }
        }
        i = i + 1;
    }
    proof {
        let leq = listing_leq();
        assert(app_views(list@).take(n as int) =~= app_views(list@));
        lemma_app_leq_total_ordering();
        app_views(list@).lemma_sort_by_ensures(leq);
        lemma_sorted_unique(app_views(res@), listing_order(app_views(list@)), leq);
    }
    res
}


/// The part of a name that is shown: its first 50 characters.
pub open spec fn shown_name(name: Seq<char>) -> Seq<char> {
    if name.len() <= 50 { name } else { name.take(50) }
}

/// Width of the name column: the longest shown name, and at least 4.
pub open spec fn name_column(items: Seq<(Seq<char>, Option<u64>)>) -> nat
    decreases items.len(),
{
    if items.len() == 0 {
        4
    } else {
        let w = name_column(items.drop_last());
        let l = shown_name(items.last().0).len();
        if l > w { l } else { w }
    }
}

/// The size column of an app: its size (given in KB) for people, or `-` when unknown.
pub open spec fn size_text(kb: Option<u64>) -> Seq<char> {
    match kb {
        Some(k) => human_size_spec((k * 1024) as nat),
        None => "-"@,
    }
}

/// The heading line of the listing.
pub open spec fn apps_header(width: nat) -> Seq<char> {
    pad_right("NAME"@, width) + "  SIZE"@
}

/// The line of one app.
pub open spec fn apps_row(item: (Seq<char>, Option<u64>), width: nat) -> Seq<char> {
    pad_right(shown_name(item.0), width) + "  "@ + size_text(item.1)
}

/// The lines printed for the apps, in the order given.
pub open spec fn apps_lines_spec(items: Seq<(Seq<char>, Option<u64>)>) -> Seq<Seq<char>> {
    let w = name_column(items);
    seq![apps_header(w)] + Seq::new(items.len(), |i: int| apps_row(items[i], w))
}

/// Every known size, in KB, can be turned into bytes without overflow.
pub open spec fn sizes_fit(items: Seq<(Seq<char>, Option<u64>)>) -> bool {
    forall|i: int| 0 <= i < items.len() ==> ((#[trigger] items[i]).1 matches Some(k) ==> k * 1024 <= u64::MAX)
}

/// The lines that list the apps in the order given (see `apps_lines_spec`).
pub fn apps_lines(items: &Vec<InstalledApp>) -> (r: Vec<String>)
    requires
        sizes_fit(app_views(items@)),
    ensures
        views(r@) == apps_lines_spec(app_views(items@)),
{
    let ghost iv = app_views(items@);
    let n = items.len();
    let mut names: Vec<Vec<char>> = Vec::new();
    let mut width: usize = 4;
    let mut i: usize = 0;
    while i < n
        invariant
            n == items@.len(),
            iv == app_views(items@),
            i <= n,
            names@.len() == i,
            forall|k: int| 0 <= k < i ==> (#[trigger] names@[k])@ == shown_name(iv[k].0),
            width as nat == name_column(iv.take(i as int)),
            width <= 50,
        decreases n - i,
    {
        let all = chars_of(items[i].name.as_str());
        let cut = if all.len() <= 50 { all.len() } else { 50 };
        let shown = slice_part(all.as_slice(), 0, cut);
        assert(shown@ =~= shown_name(iv[i as int].0));
        assert(iv.take(i + 1).drop_last() =~= iv.take(i as int));
        if shown.len() > width {
            width = shown.len();
        }
        names.push(shown);
        i = i + 1;
    }
    assert(iv.take(n as int) =~= iv);
    let mut lines: Vec<String> = Vec::new();
    let mut head: Vec<char> = Vec::new();
    let name_title = chars_of("NAME");
    push_padded(&mut head, name_title.as_slice(), width);
    let size_title = chars_of("  SIZE");
    append_chars(&mut head, size_title.as_slice());
    lines.push(string_of(head.as_slice()));
    let mut j: usize = 0;
    while j < n
        invariant
            n == items@.len(),
            iv == app_views(items@),
            sizes_fit(iv),
            names@.len() == n,
            forall|k: int| 0 <= k < n ==> (#[trigger] names@[k])@ == shown_name(iv[k].0),
            width as nat == name_column(iv),
            j <= n,
            views(lines@) == seq![apps_header(width as nat)] + Seq::new(j as nat, |k: int| apps_row(iv[k], width as nat)),
        decreases n - j,
    {
        let mut row: Vec<char> = Vec::new();
        push_padded(&mut row, names[j].as_slice(), width);
        let gap = chars_of("  ");
        append_chars(&mut row, gap.as_slice());
        assert(iv[j as int] == (items@[j as int].name@, items@[j as int].size_kb));
        let size = match items[j].size_kb {
            Some(kb) => {
                assert(iv[j as int].1 matches Some(k) ==> k * 1024 <= u64::MAX);
                human_size(kb * 1024)
            },
            None => "-".to_string(),
        };
        let sv = chars_of(size.as_str());
        append_chars(&mut row, sv.as_slice());
        assert(row@ =~= apps_row(iv[j as int], width as nat));
        let ghost old_lines = views(lines@);
        lines.push(string_of(row.as_slice()));
        assert(views(lines@) =~= old_lines.push(row@));
        assert(seq![apps_header(width as nat)] + Seq::new((j + 1) as nat, |k: int| apps_row(iv[k], width as nat))
            =~= (seq![apps_header(width as nat)] + Seq::new(j as nat, |k: int| apps_row(iv[k], width as nat))).push(row@));
        j = j + 1;
    }
    lines
}

/// The message when no app is found.
pub open spec fn no_apps_msg() -> Seq<char> {
    "apps: no apps found"@
}

/// The `apps` listing of the installed apps: an error when there are none, else the
/// heading and one line per app in listing order.
pub fn apps_listing(list: &Vec<InstalledApp>) -> (r: Result<Vec<String>, String>)
    requires
        sizes_fit(app_views(list@)),
    ensures
        match r {
            Ok(lines) => list@.len() > 0 && views(lines@) == apps_lines_spec(listing_order(app_views(list@))),
            Err(msg) => list@.len() == 0 && msg@ == no_apps_msg(),
        },
{
    if list.len() == 0 {
        return Err("apps: no apps found".to_string());
    }
    let sorted = sort_apps(list);
    proof {
        let lv = app_views(list@);
        let sv = app_views(sorted@);
        lemma_app_leq_total_ordering();
        lv.lemma_sort_by_ensures(listing_leq());
        assert forall|i: int| 0 <= i < sv.len() implies ((#[trigger] sv[i]).1 matches Some(k) ==> k * 1024 <= u64::MAX) by {
            broadcast use vstd::seq_lib::group_to_multiset_ensures;
            assert(sv.contains(sv[i]));
            assert(sv.to_multiset().count(sv[i]) > 0);
            assert(lv.contains(sv[i]));
        }
    }
    Ok(apps_lines(&sorted))
}

} // verus!
