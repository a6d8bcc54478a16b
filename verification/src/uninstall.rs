//! The `un` command as a state machine: it decides, the caller reads the registry and
//! starts processes.
use vstd::prelude::*;
use crate::cmdline::{run_outcome, run_outcome_spec, run_plan, run_plan_spec, views, Invocation};
use crate::errors::IoErrorKind;
use crate::registry::{find_exact_uninstall_cmd, find_uninstall_cmd, lookup_spec, UninstallEntry};
use crate::text::{append_chars, chars_of, lemma_trim_idempotent, string_of, trim, trimmed};

verus! {

/// The names given to `un`: each trimmed, blank ones left out.
pub open spec fn app_names(apps: Seq<Seq<char>>) -> Seq<Seq<char>>
    decreases apps.len(),
{
    if apps.len() == 0 {
        seq![]
    } else {
        let prev = app_names(apps.drop_last());
        let t = trim(apps.last());
        if t.len() > 0 { prev.push(t) } else { prev }
    }
}

/// The names joined with single spaces.
pub open spec fn joined_names(names: Seq<Seq<char>>) -> Seq<char>
    decreases names.len(),
{
    if names.len() == 0 {
        seq![]
    } else if names.len() == 1 {
        names[0]
    } else {
        joined_names(names.drop_last()) + seq![' '] + names.last()
    }
}

/// Where the uninstaller stands.
#[derive(Clone, Copy, Debug, PartialEq, Eq, Structural)]
pub enum UnPhase {
    /// Waiting for the registry, to look up all the names joined as one app name.
    JoinedLookup,
    /// Waiting for the uninstall command of the joined name to end.
    JoinedRun,
    /// Waiting for the registry, to look up the current name.
    NameLookup,
    /// Waiting for the uninstall command of the current name to end.
    NameRun,
    /// Waiting for `winget` to end for the current name.
    Winget,
    /// Nothing more to do.
    Finished,
}

/// What the caller does next.
#[derive(Debug)]
pub enum UnAction {
    /// Read the "Uninstall" registry entries and hand them back.
    ReadRegistry,
    /// Start this program and hand back how it ended.
    Start(Invocation),
    /// The command is over, with this result.
    Done(Result<(), String>),
}

/// What the caller hands back.
pub enum UnEvent {
    /// The "Uninstall" registry entries, freshly read.
    Registry(Vec<UninstallEntry>),
    /// How the started program ended: `Err` when it could not be started, else whether
    /// it succeeded.
    Exited(Result<bool, IoErrorKind>),
}

/// The uninstaller's state.
pub struct Uninstaller {
    names: Vec<String>,
    joined: String,
    current: usize,
    phase: UnPhase,
}

/// The abstract state: names, joined name, index of the current name, phase.
pub struct UnState {
    pub names: Seq<Seq<char>>,
    pub joined: Seq<char>,
    pub current: int,
    pub phase: UnPhase,
}

/// An action, abstractly.
pub enum UnStep {
    ReadRegistry,
    Start(Seq<char>, Seq<Seq<char>>),
    Done(Result<(), Seq<char>>),
}

/// An event, abstractly.
pub enum UnInput {
    Registry(Seq<UninstallEntry>),
    Exited(Result<bool, IoErrorKind>),
}

impl Uninstaller {
    /// The abstract state.
    pub closed spec fn state(&self) -> UnState {
        UnState { names: views(self.names@), joined: self.joined@, current: self.current as int, phase: self.phase }
    }

    /// The state is consistent: a current name exists while one is being handled.
    pub open spec fn valid(&self) -> bool {
        let s = self.state();
        &&& s.names.len() > 0 || s.phase == UnPhase::Finished
        &&& (s.phase == UnPhase::NameLookup || s.phase == UnPhase::NameRun || s.phase == UnPhase::Winget)
            ==> 0 <= s.current < s.names.len()
    }
}

/// The abstract action of an action.
pub open spec fn step_view(a: UnAction) -> UnStep {
    match a {
        UnAction::ReadRegistry => UnStep::ReadRegistry,
        UnAction::Start(inv) => UnStep::Start(inv.program@, views(inv.args@)),
        UnAction::Done(Ok(())) => UnStep::Done(Ok(())),
        UnAction::Done(Err(m)) => UnStep::Done(Err(m@)),
    }
}

/// The abstract event of an event.
pub open spec fn input_view(e: UnEvent) -> UnInput {
    match e {
        UnEvent::Registry(es) => UnInput::Registry(es@),
        UnEvent::Exited(st) => UnInput::Exited(st),
    }
}

/// `un: <subject>: <err>`.
pub open spec fn failure_msg(subject: Seq<char>, err: Seq<char>) -> Seq<char> {
    "un: "@ + subject + ": "@ + err
}

/// The message when no name is given.
pub open spec fn no_names_msg() -> Seq<char> {
    "un: give at least one app name"@
}

/// The message when neither the registry nor `winget` knows the app.
pub open spec fn winget_missing_msg(name: Seq<char>) -> Seq<char> {
    "un: '"@ + name + "': not found in registry, and winget is not available"@
}

/// The message when `winget` could not uninstall the app.
pub open spec fn winget_failed_msg(name: Seq<char>) -> Seq<char> {
    "un: '"@ + name + "': not found"@
}

/// The `winget` call that uninstalls `name`.
pub open spec fn winget_args(name: Seq<char>) -> Seq<Seq<char>> {
    seq![
        "uninstall"@,
        "--exact"@,
        "--silent"@,
        "--accept-source-agreements"@,
        "--accept-package-agreements"@,
        name,
    ]
}

/// How the uninstaller starts.
pub open spec fn un_start(apps: Seq<Seq<char>>) -> (UnState, UnStep) {
    let names = app_names(apps);
    let joined = joined_names(names);
    if names.len() == 0 {
        (UnState { names, joined, current: 0, phase: UnPhase::Finished }, UnStep::Done(Err(no_names_msg())))
    } else if names.len() > 1 {
        (UnState { names, joined, current: 0, phase: UnPhase::JoinedLookup }, UnStep::ReadRegistry)
    } else {
        (UnState { names, joined, current: 0, phase: UnPhase::NameLookup }, UnStep::ReadRegistry)
    }
}

/// Starts the command line `cmd` for `subject`, or fails with its message.
pub open spec fn start_command(s: UnState, cmd: Seq<char>, subject: Seq<char>, run_phase: UnPhase) -> (UnState, UnStep) {
    match run_plan_spec(cmd) {
        Some((p, a)) => (UnState { phase: run_phase, ..s }, UnStep::Start(p, a)),
        None => (UnState { phase: UnPhase::Finished, ..s }, UnStep::Done(Err(failure_msg(subject, "uninstall command failed"@)))),
    }
}

/// Moves on to the next name, or ends successfully after the last.
pub open spec fn advance(s: UnState) -> (UnState, UnStep) {
    if s.current + 1 < s.names.len() {
        (UnState { current: s.current + 1, phase: UnPhase::NameLookup, ..s }, UnStep::ReadRegistry)
    } else {
        (UnState { phase: UnPhase::Finished, ..s }, UnStep::Done(Ok(())))
    }
}

/// One decision of the uninstaller: from a state and what came back, the next state and
/// what to do. The joined name is tried first, exactly; when it is found only it is
/// uninstalled. Otherwise each name in turn is looked up (exact match first, else a
/// partial one) and its command run, or failing a registry entry `winget` is asked; the
/// first failure ends the command.
pub open spec fn un_next(s: UnState, ev: UnInput) -> (UnState, UnStep) {
    let name = s.names[s.current];
    match (s.phase, ev) {
        (UnPhase::JoinedLookup, UnInput::Registry(es)) => match lookup_spec(es, s.joined, true) {
            Some(cmd) => start_command(s, cmd, s.joined, UnPhase::JoinedRun),
            None => (UnState { current: 0, phase: UnPhase::NameLookup, ..s }, UnStep::ReadRegistry),
        },
        (UnPhase::JoinedRun, UnInput::Exited(st)) => match run_outcome_spec(st) {
            Ok(()) => (UnState { phase: UnPhase::Finished, ..s }, UnStep::Done(Ok(()))),
            Err(e) => (UnState { phase: UnPhase::Finished, ..s }, UnStep::Done(Err(failure_msg(s.joined, e)))),
        },
        (UnPhase::NameLookup, UnInput::Registry(es)) => match lookup_spec(es, name, false) {
            Some(cmd) => start_command(s, cmd, name, UnPhase::NameRun),
            None => (UnState { phase: UnPhase::Winget, ..s }, UnStep::Start("winget"@, winget_args(name))),
        },
        (UnPhase::NameRun, UnInput::Exited(st)) => match run_outcome_spec(st) {
            Ok(()) => advance(s),
            Err(e) => (UnState { phase: UnPhase::Finished, ..s }, UnStep::Done(Err(failure_msg(name, e)))),
        },
        (UnPhase::Winget, UnInput::Exited(st)) => match st {
            Err(_) => (UnState { phase: UnPhase::Finished, ..s }, UnStep::Done(Err(winget_missing_msg(name)))),
            Ok(true) => advance(s),
            Ok(false) => (UnState { phase: UnPhase::Finished, ..s }, UnStep::Done(Err(winget_failed_msg(name)))),
        },
        _ => (s, UnStep::Done(Err("un: unexpected event"@))),
    }
}

/// The event is the kind the phase waits for.
pub open spec fn expected(phase: UnPhase, ev: UnInput) -> bool {
    match ev {
        UnInput::Registry(_) => phase == UnPhase::JoinedLookup || phase == UnPhase::NameLookup,
        UnInput::Exited(_) => phase == UnPhase::JoinedRun || phase == UnPhase::NameRun || phase == UnPhase::Winget,
    }
}

/// Every name kept is trimmed and non-blank, and no more names are kept than given.
pub proof fn lemma_app_names_trimmed(apps: Seq<Seq<char>>)
    ensures
        forall|i: int| 0 <= i < app_names(apps).len() ==> (#[trigger] app_names(apps)[i]).len() > 0
            && exists|k: int| 0 <= k < apps.len() && trim(apps[k]) == app_names(apps)[i],
        app_names(apps).len() <= apps.len(),
    decreases apps.len(),
{
    if apps.len() > 0 {
        lemma_app_names_trimmed(apps.drop_last());
        let prev = app_names(apps.drop_last());
        let r = app_names(apps);
        assert forall|i: int| 0 <= i < r.len() implies (#[trigger] r[i]).len() > 0
            && exists|k: int| 0 <= k < apps.len() && trim(apps[k]) == r[i] by {
            if i < prev.len() {
                assert(r[i] == prev[i]);
                let k = choose|k: int| 0 <= k < apps.drop_last().len() && trim(apps.drop_last()[k]) == prev[i];
                assert(apps[k] == apps.drop_last()[k]);
            } else {
                assert(trim(apps[apps.len() - 1]) == r[i]);
            }
        }
    }
}

/// Names that are all trimmed and non-blank are kept as they are.
proof fn lemma_app_names_keeps_normal(ns: Seq<Seq<char>>)
    requires
        forall|i: int| 0 <= i < ns.len() ==> (#[trigger] ns[i]).len() > 0 && trim(ns[i]) == ns[i],
    ensures
        app_names(ns) == ns,
    decreases ns.len(),
{
    if ns.len() > 0 {
        let init = ns.drop_last();
        assert forall|i: int| 0 <= i < init.len() implies (#[trigger] init[i]).len() > 0 && trim(init[i]) == init[i] by {
            assert(init[i] == ns[i]);
        }
        lemma_app_names_keeps_normal(init);
        assert(trim(ns.last()) == ns[ns.len() - 1]);
        assert(init.push(ns.last()) =~= ns);
    }
}

/// Normalising the names given to `un` changes nothing: the names it keeps are kept as
/// they are when given again, and `un` starts on them exactly as on the names given.
pub proof fn lemma_un_names_normalised(apps: Seq<Seq<char>>)
    ensures
        app_names(app_names(apps)) == app_names(apps),
        un_start(app_names(apps)) == un_start(apps),
{
    let ns = app_names(apps);
    lemma_app_names_trimmed(apps);
    assert forall|i: int| 0 <= i < ns.len() implies (#[trigger] ns[i]).len() > 0 && trim(ns[i]) == ns[i] by {
        let k = choose|k: int| 0 <= k < apps.len() && trim(apps[k]) == ns[i];
        lemma_trim_idempotent(apps[k]);
    }
    lemma_app_names_keeps_normal(ns);
}

/// How far the uninstaller still is from the end (it never grows).
pub open spec fn remaining_work(s: UnState) -> int {
    let n = s.names.len() as int;
    match s.phase {
        UnPhase::JoinedLookup => n * 3 + 5,
        UnPhase::JoinedRun => n * 3 + 4,
        UnPhase::NameLookup => (n - s.current) * 3 + 2,
        UnPhase::NameRun => (n - s.current) * 3 + 1,
        UnPhase::Winget => (n - s.current) * 3 + 1,
        UnPhase::Finished => 0,
    }
}

/// Every step on an expected event either ends the command or leaves strictly less work,
/// so `un` always comes to an end.
pub proof fn lemma_un_progress(s: UnState, ev: UnInput)
    requires
        s.names.len() > 0,
        (s.phase == UnPhase::NameLookup || s.phase == UnPhase::NameRun || s.phase == UnPhase::Winget) ==> 0 <= s.current < s.names.len(),
        s.phase != UnPhase::Finished,
        expected(s.phase, ev),
    ensures
        un_next(s, ev).1 is Done <==> un_next(s, ev).0.phase == UnPhase::Finished,
        un_next(s, ev).0.phase != UnPhase::Finished ==> 0 <= remaining_work(un_next(s, ev).0) < remaining_work(s),
        (un_next(s, ev).0.phase == UnPhase::NameLookup || un_next(s, ev).0.phase == UnPhase::NameRun
            || un_next(s, ev).0.phase == UnPhase::Winget) ==> 0 <= un_next(s, ev).0.current < un_next(s, ev).0.names.len(),
        un_next(s, ev).0.names == s.names,
{
}

/// When all the names together are exactly the name of an installed app, that app alone is
/// uninstalled: its command is started, and once it ends the command is over.
pub proof fn lemma_joined_match_alone(s: UnState, es: Seq<UninstallEntry>, st: Result<bool, IoErrorKind>)
    requires
        s.phase == UnPhase::JoinedLookup,
        lookup_spec(es, s.joined, true) matches Some(cmd) && run_plan_spec(cmd) is Some,
    ensures
        un_next(s, UnInput::Registry(es)).0.phase == UnPhase::JoinedRun,
        un_next(s, UnInput::Registry(es)).1 matches UnStep::Start(p, a)
            && Some((p, a)) == run_plan_spec(lookup_spec(es, s.joined, true)->0),
        un_next(un_next(s, UnInput::Registry(es)).0, UnInput::Exited(st)).1 is Done,
{
}

/// After a name has been uninstalled successfully (its own uninstaller, or `winget`, ended
/// with success) and names remain, the registry is read again, for the next name.
pub proof fn lemma_un_goes_on_after_success(s: UnState)
    requires
        s.phase == UnPhase::NameRun || s.phase == UnPhase::Winget,
        0 <= s.current,
        s.current + 1 < s.names.len(),
    ensures
        un_next(s, UnInput::Exited(Ok(true))).1 == UnStep::ReadRegistry,
        un_next(s, UnInput::Exited(Ok(true))).0.phase == UnPhase::NameLookup,
        un_next(s, UnInput::Exited(Ok(true))).0.current == s.current + 1,
        un_next(s, UnInput::Exited(Ok(true))).0.names == s.names,
{
}

/// `un` ends successfully only once the joined name was uninstalled, or once the last name
/// has been handled: never while names remain.
pub proof fn lemma_un_succeeds_only_at_end(s: UnState, ev: UnInput)
    requires
        0 <= s.current < s.names.len(),
    ensures
        un_next(s, ev).1 == UnStep::Done(Ok(())) ==> s.phase == UnPhase::JoinedRun
            || s.current == s.names.len() - 1,
{
}

/// While looking up a name, the registry is searched for that name (the current one): the
/// uninstall command found for it is started, and when none is found `winget` is asked to
/// uninstall that same name.
pub proof fn lemma_un_looks_up_current_name(s: UnState, es: Seq<UninstallEntry>)
    requires
        s.phase == UnPhase::NameLookup,
        0 <= s.current < s.names.len(),
    ensures
        lookup_spec(es, s.names[s.current], false) is None ==> un_next(s, UnInput::Registry(es)).1
            == UnStep::Start("winget"@, winget_args(s.names[s.current])),
        lookup_spec(es, s.names[s.current], false) matches Some(cmd) ==> match run_plan_spec(cmd) {
            Some((p, a)) => un_next(s, UnInput::Registry(es)).1 == UnStep::Start(p, a),
            None => un_next(s, UnInput::Registry(es)).1
                == UnStep::Done(Err(failure_msg(s.names[s.current], "uninstall command failed"@))),
        },
        un_next(s, UnInput::Registry(es)).0.current == s.current,
{
}

/// The names of `apps`, trimmed, blank ones left out.
fn collect_names(apps: &Vec<String>) -> (r: Vec<String>)
    ensures
        views(r@) == app_names(views(apps@)),
{
    let ghost av = views(apps@);
    let mut out: Vec<String> = Vec::new();
    let n = apps.len();
    let mut i: usize = 0;
    while i < n
        invariant
            n == apps@.len(),
            av == views(apps@),
            i <= n,
            views(out@) == app_names(av.take(i as int)),
        decreases n - i,
    {
        proof {
            assert(av.take(i + 1).drop_last() =~= av.take(i as int));
            assert(av.take(i + 1).last() == apps@[i as int]@);
        }
        let v = chars_of(apps[i].as_str());
        let t = trimmed(v.as_slice());
        if t.len() > 0 {
            let ghost old_views = views(out@);
            out.push(string_of(t.as_slice()));
            assert(views(out@) =~= old_views.push(t@));
        }
        i = i + 1;
    }
    assert(av.take(n as int) =~= av);
    out
}

/// The names joined with single spaces.
fn join_names(names: &Vec<String>) -> (r: String)
    ensures
        r@ == joined_names(views(names@)),
{
    let ghost nv = views(names@);
    let mut out: Vec<char> = Vec::new();
    let n = names.len();
    let mut i: usize = 0;
    while i < n
        invariant
            n == names@.len(),
            nv == views(names@),
            i <= n,
            out@ == joined_names(nv.take(i as int)),
        decreases n - i,
    {
        proof {
            assert(nv.take(i + 1).drop_last() =~= nv.take(i as int));
            assert(nv.take(i + 1).last() == names@[i as int]@);
        }
        if i > 0 {
            out.push(' ');
        }
        let v = chars_of(names[i].as_str());
        append_chars(&mut out, v.as_slice());
        proof {
            if i == 0 {
                assert(nv.take(1)[0] == nv[0]);
            }
        }
        i = i + 1;
    }
    assert(nv.take(n as int) =~= nv);
    string_of(out.as_slice())
}

/// The text `a + b + c`.
fn concat3(a: &str, b: &str, c: &str) -> (r: String)
    ensures
        r@ == a@ + b@ + c@,
{
    let mut v = chars_of(a);
    let bv = chars_of(b);
    let cv = chars_of(c);
    append_chars(&mut v, bv.as_slice());
    append_chars(&mut v, cv.as_slice());
    string_of(v.as_slice())
}

/// `un: <subject>: <err>`.
fn failure(subject: &str, err: &str) -> (r: String)
    ensures
        r@ == failure_msg(subject@, err@),
{
    let mut v = chars_of("un: ");
    let sv = chars_of(subject);
    let sep = chars_of(": ");
    let ev = chars_of(err);
    append_chars(&mut v, sv.as_slice());
    append_chars(&mut v, sep.as_slice());
    append_chars(&mut v, ev.as_slice());
    string_of(v.as_slice())
}

/// Starts `un` for the given app names (see `un_start`).
pub fn un(apps: &Vec<String>) -> (r: (Uninstaller, UnAction))
    ensures
        r.0.valid(),
        (r.0.state(), step_view(r.1)) == un_start(views(apps@)),
{
    let names = collect_names(apps);
    let joined = join_names(&names);
    if names.len() == 0 {
        let u = Uninstaller { names, joined, current: 0, phase: UnPhase::Finished };
        return (u, UnAction::Done(Err("un: give at least one app name".to_string())));
    }
    if names.len() > 1 {
        let u = Uninstaller { names, joined, current: 0, phase: UnPhase::JoinedLookup };
        return (u, UnAction::ReadRegistry);
    }
    let u = Uninstaller { names, joined, current: 0, phase: UnPhase::NameLookup };
    (u, UnAction::ReadRegistry)
}

impl Uninstaller {
    /// The phase the uninstaller is in.
    pub fn phase(&self) -> (r: UnPhase)
        ensures
            r == self.state().phase,
    {
        self.phase
    }

    /// Starts `cmd` for `subject`, or ends with its message.
    fn start(&mut self, cmd: &str, subject: &str, run_phase: UnPhase) -> (r: UnAction)
        requires
            old(self).valid(),
            old(self).state().phase != UnPhase::Finished,
            run_phase == UnPhase::JoinedRun || run_phase == UnPhase::NameRun,
            run_phase == UnPhase::NameRun ==> 0 <= old(self).state().current < old(self).state().names.len(),
        ensures
            final(self).valid(),
            (final(self).state(), step_view(r)) == start_command(old(self).state(), cmd@, subject@, run_phase),
    {
        match run_plan(cmd) {
            Ok(inv) => {
                self.phase = run_phase;
                UnAction::Start(inv)
            },
            Err(e) => {
                self.phase = UnPhase::Finished;
                UnAction::Done(Err(failure(subject, e.as_str())))
            },
        }
    }

    /// Moves on to the next name, or ends.
    fn advance(&mut self) -> (r: UnAction)
        requires
            old(self).valid(),
            0 <= old(self).state().current < old(self).state().names.len(),
        ensures
            final(self).valid(),
            (final(self).state(), step_view(r)) == advance(old(self).state()),
    {
        assert(self.current < self.names.len());
        if self.current + 1 < self.names.len() {
            self.current = self.current + 1;
            self.phase = UnPhase::NameLookup;
            UnAction::ReadRegistry
        } else {
            self.phase = UnPhase::Finished;
            UnAction::Done(Ok(()))
        }
    }

    /// Takes in what came back and decides what to do next (see `un_next`).
    pub fn step(&mut self, ev: UnEvent) -> (r: UnAction)
        requires
            old(self).valid(),
            expected(old(self).state().phase, input_view(ev)),
        ensures
            final(self).valid(),
            (final(self).state(), step_view(r)) == un_next(old(self).state(), input_view(ev)),
    {
        match ev {
            UnEvent::Registry(es) => {
                if self.phase == UnPhase::JoinedLookup {
                    match find_exact_uninstall_cmd(&es, self.joined.as_str()) {
                        Some(cmd) => {
                            let subject = self.joined.clone();
                            self.start(cmd.as_str(), subject.as_str(), UnPhase::JoinedRun)
                        },
                        None => {
                            self.current = 0;
                            self.phase = UnPhase::NameLookup;
                            UnAction::ReadRegistry
                        },
                    }
                } else {
                    let name = self.names[self.current].clone();
                    match find_uninstall_cmd(&es, name.as_str()) {
                        Some(cmd) => self.start(cmd.as_str(), name.as_str(), UnPhase::NameRun),
                        None => {
                            self.phase = UnPhase::Winget;
                            let mut args: Vec<String> = Vec::new();
                            args.push("uninstall".to_string());
                            args.push("--exact".to_string());
                            args.push("--silent".to_string());
                            args.push("--accept-source-agreements".to_string());
                            args.push("--accept-package-agreements".to_string());
                            args.push(name);
                            assert(views(args@) =~= winget_args(self.names@[self.current as int]@));
                            UnAction::Start(Invocation { program: "winget".to_string(), args })
                        },
                    }
                }
            },
            UnEvent::Exited(st) => {
                if self.phase == UnPhase::JoinedRun {
                    match run_outcome(st) {
                        Ok(()) => {
                            self.phase = UnPhase::Finished;
                            UnAction::Done(Ok(()))
                        },
                        Err(e) => {
                            self.phase = UnPhase::Finished;
                            UnAction::Done(Err(failure(self.joined.as_str(), e.as_str())))
                        },
                    }
                } else if self.phase == UnPhase::NameRun {
                    match run_outcome(st) {
                        Ok(()) => self.advance(),
                        Err(e) => {
                            self.phase = UnPhase::Finished;
                            let name = self.names[self.current].clone();
                            UnAction::Done(Err(failure(name.as_str(), e.as_str())))
                        },
                    }
                } else {
                    let name = self.names[self.current].clone();
                    match st {
                        Err(_) => {
                            self.phase = UnPhase::Finished;
                            UnAction::Done(Err(concat3("un: '", name.as_str(), "': not found in registry, and winget is not available")))
                        },
                        Ok(true) => self.advance(),
                        Ok(false) => {
                            self.phase = UnPhase::Finished;
                            UnAction::Done(Err(concat3("un: '", name.as_str(), "': not found")))
                        },
                    }
                }
            },
        }
    }
}

} // verus!
