//! The script list: what is known of every script, and how running them changes it.

use crate::config::scripts::Mode;
use crate::config::values::ConfigValues;
use crate::ipc::{Event, ExitStatus, OutputLine, RunMode, ScriptInfo, ScriptState};
use crate::scripts::discover::{found_views, Discovered, DiscoveredModel};
use crate::scripts::output::{line_views, OutputBuffer, OutputModel};
use crate::session::input::{
    problem_views, script_problems, sorted_problems, usable_table, with_scripts, Bindings, KeyName,
    Problem, ScriptBinding,
};
use crate::text::{
    concat3, concat5, copied, copied_all, copied_opt, decimal, number_text, opt_view, same, views,
};
use vstd::prelude::*;

verus! {

/// How long a script gets to exit after it was asked to before it is killed, in milliseconds.
pub const STOP_GRACE: u64 = 3_000;

/// How long a rescan waits, so that a burst of changes costs one scan rather than a dozen, in
/// milliseconds.
pub const RESCAN_DELAY: u64 = 200;

/// A background script that is still running.
#[derive(Debug, Clone, Copy, PartialEq, Eq, Structural)]
pub struct Run {
    /// Distinguishes this run from earlier and later ones of the same script.
    pub id: u64,
    pub pid: u32,
    /// When it started, on a clock that never goes back, in milliseconds.
    pub started: u64,
    /// When it started, in milliseconds since the Unix epoch.
    pub started_at_ms: u64,
}

/// One script and everything that is known about it.
#[derive(Debug)]
pub struct Script {
    /// What the folder scan found: name, path, header.
    pub found: Discovered,
    /// The binding in effect, once clashes are resolved.
    pub bind: Option<String>,
    /// Header problems and binding clashes.
    pub problems: Vec<String>,
    /// Running, finished, or never run.
    pub state: ScriptState,
    /// Output of the most recent background run.
    pub output: OutputBuffer,
    /// Which run the output belongs to, so that a straggling pipe from an older run cannot
    /// write into a newer run's output.
    pub output_run: u64,
    /// The process, while it runs in the background.
    pub run: Option<Run>,
}

/// What is known about a script.
#[verifier::ext_equal]
pub struct ScriptModel {
    pub found: DiscoveredModel,
    pub bind: Option<Seq<char>>,
    pub problems: Seq<Seq<char>>,
    pub state: ScriptState,
    pub output: OutputModel,
    pub output_run: u64,
    pub run: Option<Run>,
}

impl View for Script {
    type V = ScriptModel;

    open spec fn view(&self) -> ScriptModel {
        ScriptModel {
            found: self.found@,
            bind: opt_view(self.bind),
            problems: views(self.problems@),
            state: self.state,
            output: self.output@,
            output_run: self.output_run,
            run: self.run,
        }
    }
}

/// A script of which nothing is known but what the folder shows.
pub open spec fn new_script(found: DiscoveredModel) -> ScriptModel {
    ScriptModel {
        found,
        bind: None,
        problems: Seq::empty(),
        state: ScriptState::NeverRun,
        output: OutputModel::blank(),
        output_run: 0,
        run: None,
    }
}

/// How a script runs when nobody says otherwise.
pub open spec fn run_mode(mode: Mode) -> RunMode {
    match mode {
        Mode::Background => RunMode::Background,
        Mode::Terminal => RunMode::Terminal,
    }
}

fn mode_of(mode: Mode) -> (r: RunMode)
    ensures
        r == run_mode(mode),
{
    match mode {
        Mode::Background => RunMode::Background,
        Mode::Terminal => RunMode::Terminal,
    }
}

/// True when a listing shows a script as it is.
pub open spec fn shows(info: ScriptInfo, script: ScriptModel) -> bool {
    &&& info.name@ == script.found.name
    &&& info.title@ == script.found.title()
    &&& opt_view(info.description) == script.found.header.description
    &&& info.path@ == script.found.path
    &&& info.mode == run_mode(script.found.header.mode)
    &&& opt_view(info.bind) == script.bind
    &&& info.autostart == script.found.header.autostart
    &&& views(info.problems@) == script.problems
    &&& info.state == script.state
}

impl Script {
    /// A script of which nothing is known but what the folder shows.
    pub fn new(found: Discovered) -> (r: Self)
        ensures
            r@ == new_script(found@),
            r@.output.wf(),
    {
        let r = Script {
            found,
            bind: None,
            problems: Vec::new(),
            state: ScriptState::NeverRun,
            output: OutputBuffer::default(),
            output_run: 0,
            run: None,
        };
        assert(r@ =~= new_script(found@));
        r
    }

    /// Everything that a listing shows.
    pub fn info(&self) -> (r: ScriptInfo)
        ensures
            shows(r, self@),
    {
        ScriptInfo {
            name: copied(self.found.name.as_str()),
            title: copied(self.found.title()),
            description: copied_opt(&self.found.header.description),
            path: copied(self.found.path.as_str()),
            mode: mode_of(self.found.header.mode),
            bind: copied_opt(&self.bind),
            autostart: self.found.header.autostart,
            problems: copied_all(&self.problems),
            state: self.state,
        }
    }
}

/// What scripts hold.
pub open spec fn script_views(list: Seq<Script>) -> Seq<ScriptModel> {
    Seq::new(list.len(), |i: int| list[i]@)
}

/// The place of the first of `list[from..]` with this file name.
pub open spec fn place_named(list: Seq<ScriptModel>, name: Seq<char>, from: int) -> Option<int>
    decreases list.len() - from,
{
    if from < 0 || from >= list.len() {
        None
    } else if list[from].found.name == name {
        Some(from)
    } else {
        place_named(list, name, from + 1)
    }
}

/// What is left of a list when one is taken out and the last takes its place.
pub open spec fn without_place(list: Seq<ScriptModel>, i: int) -> Seq<ScriptModel> {
    list.update(i, list.last()).drop_last()
}

/// The scripts that were found, `found[from..]`, with what is known of those in `known`; and
/// what is left of `known`.
pub open spec fn merged(
    known: Seq<ScriptModel>,
    found: Seq<DiscoveredModel>,
    from: int,
) -> (Seq<ScriptModel>, Seq<ScriptModel>)
    decreases found.len() - from,
{
    if from < 0 || from >= found.len() {
        (Seq::empty(), known)
    } else {
        match place_named(known, found[from].name, 0) {
            Some(i) => {
                let (list, left) = merged(without_place(known, i), found, from + 1);
                (seq![ScriptModel { found: found[from], ..known[i] }] + list, left)
            },
            None => {
                let (list, left) = merged(known, found, from + 1);
                (seq![new_script(found[from])] + list, left)
            },
        }
    }
}

/// Those of the first `n` scripts that are running.
pub open spec fn running(list: Seq<ScriptModel>, n: int) -> Seq<ScriptModel>
    decreases n,
{
    if n <= 0 {
        Seq::empty()
    } else {
        let before = running(list, n - 1);
        if list[n - 1].run is Some {
            before.push(list[n - 1])
        } else {
            before
        }
    }
}

/// The list after the folder was read again. A script that was deleted while it runs stays
/// listed until it exits, so that it can still be stopped.
pub open spec fn rescanned(known: Seq<ScriptModel>, found: Seq<DiscoveredModel>) -> Seq<
    ScriptModel,
> {
    let (list, left) = merged(known, found, 0);
    list + running(left, left.len() as int)
}

/// The bindings that the first `n` scripts ask for.
pub open spec fn wants(list: Seq<ScriptModel>, n: int) -> Seq<(int, Seq<char>, Seq<char>)>
    decreases n,
{
    if n <= 0 {
        Seq::empty()
    } else {
        let before = wants(list, n - 1);
        match list[n - 1].found.header.bind {
            Some(text) => before.push((n - 1, list[n - 1].found.name, text)),
            None => before,
        }
    }
}

/// What script bindings hold.
pub open spec fn want_views(scripts: Seq<ScriptBinding>) -> Seq<(int, Seq<char>, Seq<char>)> {
    Seq::new(
        scripts.len(),
        |i: int| (scripts[i].index as int, scripts[i].name@, scripts[i].text@),
    )
}

/// What the first `n` problems say of one script.
pub open spec fn problems_of(problems: Seq<Problem>, index: int, n: int) -> Seq<Seq<char>>
    decreases n,
{
    if n <= 0 {
        Seq::empty()
    } else {
        let before = problems_of(problems, index, n - 1);
        if problems[n - 1].0 == index {
            before.push(problems[n - 1].1)
        } else {
            before
        }
    }
}

/// A script once it is known what is wrong with its binding.
pub open spec fn with_problems(
    script: ScriptModel,
    problems: Seq<Problem>,
    index: int,
) -> ScriptModel {
    let refused = problems_of(problems, index, problems.len() as int);
    ScriptModel {
        bind: if refused.len() == 0 {
            script.found.header.bind
        } else {
            None
        },
        problems: script.found.header.problems + refused,
        ..script
    }
}

/// The scripts once it is known what is wrong with their bindings.
pub open spec fn all_with_problems(list: Seq<ScriptModel>, problems: Seq<Problem>) -> Seq<
    ScriptModel,
> {
    Seq::new(list.len(), |i: int| with_problems(list[i], problems, i))
}

/// How a process ended, from what the system reports: a code, or else a signal.
pub open spec fn exit_of(code: Option<i32>, signal: Option<i32>) -> ExitStatus {
    match (code, signal) {
        (Some(code), _) => ExitStatus::Code { code },
        (None, Some(signal)) => ExitStatus::Signal { signal },
        (None, None) => ExitStatus::Code { code: -1i32 },
    }
}

/// Milliseconds that have passed since `start`.
pub fn millis_since(start: u64, now: u64) -> (r: u64)
    ensures
        r == if now >= start {
            now - start
        } else {
            0
        },
{
    if now >= start {
        now - start
    } else {
        0
    }
}

/// A script that has just been started in the background.
pub open spec fn begun(script: ScriptModel, run: Run) -> ScriptModel {
    ScriptModel {
        output: OutputModel::blank(),
        output_run: run.id,
        state: ScriptState::Running { pid: run.pid, started_at_ms: run.started_at_ms },
        run: Some(run),
        ..script
    }
}

/// A script whose process has ended.
pub open spec fn ended(script: ScriptModel, exit: ExitStatus, now: u64) -> ScriptModel {
    let run = script.run->0;
    ScriptModel {
        output: script.output.flushed(false).flushed(true),
        state: ScriptState::Exited {
            exit,
            started_at_ms: run.started_at_ms,
            duration_ms: (if now >= run.started {
                now - run.started
            } else {
                0
            }) as u64,
        },
        run: None,
        ..script
    }
}

/// True when a run of this script is going on.
pub open spec fn runs(list: Seq<ScriptModel>, name: Seq<char>, run_id: u64) -> bool {
    match place_named(list, name, 0) {
        Some(i) => list[i].run matches Some(run) && run.id == run_id,
        None => false,
    }
}

/// The place of the first of `list[from..]` whose output belongs to a run.
pub open spec fn output_place(
    list: Seq<ScriptModel>,
    name: Seq<char>,
    run_id: u64,
    from: int,
) -> Option<int>
    decreases list.len() - from,
{
    if from < 0 || from >= list.len() {
        None
    } else if list[from].found.name == name && list[from].output_run == run_id {
        Some(from)
    } else {
        output_place(list, name, run_id, from + 1)
    }
}

/// Every output is within its limits, and no run has a number that is still to be handed out.
pub open spec fn sound_list(list: Seq<ScriptModel>, last_run: int) -> bool {
    forall|i: int|
        0 <= i < list.len() ==> {
            &&& (#[trigger] list[i]).output.wf()
            &&& list[i].output_run <= last_run
            &&& list[i].run matches Some(run) ==> 0 < run.id <= last_run
        }
}

/// The script list.
#[derive(Debug)]
pub struct Scripts {
    /// In the order in which they are shown.
    list: Vec<Script>,
    /// The last run number that was handed out.
    next_run_id: u64,
    /// A rescan is already waiting.
    rescan_pending: bool,
}

/// What the script list holds.
#[verifier::ext_equal]
pub struct ScriptsModel {
    pub list: Seq<ScriptModel>,
    pub last_run: int,
    pub rescan_pending: bool,
}

impl View for Scripts {
    type V = ScriptsModel;

    closed spec fn view(&self) -> ScriptsModel {
        ScriptsModel {
            list: script_views(self.list@),
            last_run: self.next_run_id as int,
            rescan_pending: self.rescan_pending,
        }
    }
}

impl ScriptsModel {
    /// Every output is within its limits, and no run has a number that is still to be handed
    /// out.
    pub open spec fn wf(self) -> bool {
        sound_list(self.list, self.last_run)
    }

    /// The list with one script replaced.
    pub open spec fn with_script(self, i: int, script: ScriptModel) -> ScriptsModel {
        ScriptsModel { list: self.list.update(i, script), ..self }
    }
}

impl Default for Scripts {
    fn default() -> (r: Self)
        ensures
            r@ == (ScriptsModel { list: Seq::empty(), last_run: 0, rescan_pending: false }),
            r@.wf(),
    {
        let r = Scripts { list: Vec::new(), next_run_id: 0, rescan_pending: false };
        assert(r@ =~= (ScriptsModel { list: Seq::empty(), last_run: 0, rescan_pending: false }));
        r
    }
}

fn find_named(list: &Vec<Script>, name: &str) -> (r: Option<usize>)
    ensures
        (match r {
            Some(i) => Some(i as int),
            None => None,
        }) == place_named(script_views(list@), name@, 0),
        r matches Some(i) ==> i < list@.len() && list@[i as int]@.found.name == name@,
{
    let ghost all = script_views(list@);
    let mut i: usize = 0;
    while i < list.len()
        invariant
            i <= list@.len(),
            all == script_views(list@),
            place_named(all, name@, 0) == place_named(all, name@, i as int),
        decreases list@.len() - i,
    {
        assert(all[i as int] == list@[i as int]@);
        if same(list[i].found.name.as_str(), name) {
            return Some(i);
        }
        i = i + 1;
    }
    None
}

impl Scripts {
    /// How many scripts there are.
    pub fn len(&self) -> (r: usize)
        ensures
            r == self@.list.len(),
    {
        self.list.len()
    }

    /// One of the scripts.
    pub fn script(&self, index: usize) -> (r: &Script)
        requires
            index < self@.list.len(),
        ensures
            r@ == self@.list[index as int],
    {
        &self.list[index]
    }

    /// Takes over what a scan of the folder found, keeping what is known about scripts that are
    /// still there.
    pub fn rescan_scripts(&mut self, found: Vec<Discovered>)
        requires
            old(self)@.wf(),
        ensures
            final(self)@ == (ScriptsModel {
                list: rescanned(old(self)@.list, found_views(found@)),
                ..old(self)@
            }),
            final(self)@.wf(),
    {
        let ghost before = self@;
        let ghost all = found_views(found@);
        let mut known: Vec<Script> = Vec::new();
        std::mem::swap(&mut known, &mut self.list);
        let mut rest = found;
        let mut list: Vec<Script> = Vec::new();
        let ghost mut done: int = 0;
        proof {
            assert(script_views(known@) =~= before.list);
            assert(all.skip(0) =~= all);
            assert(script_views(list@) =~= Seq::empty());
            let whole = merged(before.list, all, 0);
            assert(Seq::<ScriptModel>::empty() + whole.0 =~= whole.0);
        }
        while rest.len() > 0
            invariant
                0 <= done <= all.len(),
                found_views(rest@) == all.skip(done),
                sound_list(script_views(known@), before.last_run),
                sound_list(script_views(list@), before.last_run),
                before.last_run >= 0,
                merged(before.list, all, 0).0 == script_views(list@) + merged(
                    script_views(known@),
                    all,
                    done,
                ).0,
                merged(before.list, all, 0).1 == merged(script_views(known@), all, done).1,
            decreases rest@.len(),
        {
            let ghost listed = found_views(rest@);
            let ghost earlier = rest@;
            let one = rest.remove(0);
            proof {
                assert(listed.len() == all.len() - done);
                assert(listed[0] == all.skip(done)[0]);
                assert(one@ == all[done]);
                assert forall|k: int| 0 <= k < rest@.len() implies found_views(rest@)[k]
                    == all.skip(done + 1)[k] by {
                    assert(rest@[k] == earlier[k + 1]);
                    assert(listed[k + 1] == all.skip(done)[k + 1]);
                }
                assert(found_views(rest@) =~= all.skip(done + 1));
            }
            let ghost kept = script_views(known@);
            let ghost so_far = script_views(list@);
            let place = find_named(&known, one.name.as_str());
            let script = match place {
                Some(index) => {
                    let mut script = known.swap_remove(index);
                    proof {
                        assert(script@ == kept[index as int]);
                        assert(script_views(known@) =~= without_place(kept, index as int));
                        assert forall|k: int| 0 <= k < script_views(known@).len() implies (
                        #[trigger] script_views(known@)[k]).output.wf() && script_views(
                            known@,
                        )[k].output_run <= before.last_run && (script_views(
                            known@,
                        )[k].run matches Some(run) ==> 0 < run.id <= before.last_run) by {
                            assert(script_views(known@)[k] == kept[k] || script_views(known@)[k]
                                == kept[kept.len() - 1]);
                        }
                    }
                    script.found = one;
                    script
                },
                None => Script::new(one),
            };
            let ghost model = script@;
            list.push(script);
            proof {
                assert(script_views(list@) =~= so_far.push(model));
                let tail = merged(script_views(known@), all, done + 1).0;
                assert(merged(kept, all, done).0 == seq![model] + tail);
                assert(so_far + (seq![model] + tail) =~= script_views(list@) + tail);
                assert forall|k: int| 0 <= k < script_views(list@).len() implies (
                #[trigger] script_views(list@)[k]).output.wf() && script_views(list@)[k].output_run
                    <= before.last_run && (script_views(list@)[k].run matches Some(run) ==> 0
                    < run.id <= before.last_run) by {
                    if k < so_far.len() {
                        assert(script_views(list@)[k] == so_far[k]);
                    }
                }
                done = done + 1;
            }
        }
        let ghost found_list = script_views(list@);
        let ghost left = script_views(known@);
        proof {
            assert(found_list + Seq::<ScriptModel>::empty() =~= found_list);
            assert(left.skip(0) =~= left);
            assert(found_list + running(left, 0) =~= found_list);
        }
        let ghost mut seen: int = 0;
        while known.len() > 0
            invariant
                0 <= seen <= left.len(),
                script_views(known@) == left.skip(seen),
                sound_list(left, before.last_run),
                sound_list(script_views(list@), before.last_run),
                script_views(list@) == found_list + running(left, seen),
            decreases known@.len(),
        {
            let ghost listed = script_views(known@);
            let ghost earlier = known@;
            let script = known.remove(0);
            proof {
                assert(listed.len() == left.len() - seen);
                assert(listed[0] == left.skip(seen)[0]);
                assert(script@ == left[seen]);
                assert forall|k: int| 0 <= k < known@.len() implies script_views(known@)[k]
                    == left.skip(seen + 1)[k] by {
                    assert(known@[k] == earlier[k + 1]);
                    assert(listed[k + 1] == left.skip(seen)[k + 1]);
                }
                assert(script_views(known@) =~= left.skip(seen + 1));
                seen = seen + 1;
            }
            if script.run.is_some() {
                let ghost so_far = script_views(list@);
                let ghost model = script@;
                list.push(script);
                proof {
                    assert(script_views(list@) =~= so_far.push(model));
                    assert(found_list + running(left, seen - 1).push(model) =~= so_far.push(
                        model,
                    ));
                    assert forall|k: int| 0 <= k < script_views(list@).len() implies (
                    #[trigger] script_views(list@)[k]).output.wf() && script_views(
                        list@,
                    )[k].output_run <= before.last_run && (script_views(
                        list@,
                    )[k].run matches Some(run) ==> 0 < run.id <= before.last_run) by {
                        if k < so_far.len() {
                            assert(script_views(list@)[k] == so_far[k]);
                        }
                    }
                }
            }
        }
        self.list = list;
        assert(self@ =~= (ScriptsModel {
            list: rescanned(before.list, all),
            ..before
        }));
    }

    fn wanted(&self) -> (r: Vec<ScriptBinding>)
        ensures
            want_views(r@) == wants(self@.list, self@.list.len() as int),
    {
        let mut out: Vec<ScriptBinding> = Vec::new();
        let mut i: usize = 0;
        assert(want_views(out@) =~= Seq::empty());
        while i < self.list.len()
            invariant
                i <= self.list@.len(),
                want_views(out@) == wants(self@.list, i as int),
            decreases self.list@.len() - i,
        {
            let script = &self.list[i];
            assert(self@.list[i as int] == script@);
            if let Some(text) = &script.found.header.bind {
                let ghost before = out@;
                out.push(
                    ScriptBinding {
                        index: i,
                        name: copied(script.found.name.as_str()),
                        text: copied(text.as_str()),
                    },
                );
                assert(want_views(out@) =~= want_views(before).push(
                    (i as int, script.found.name@, text@),
                ));
            }
            i = i + 1;
        }
        out
    }

    /// Builds the binding table from the configuration plus the scripts' headers, and notes with
    /// each script what is wrong with its binding.
    pub fn rebuild_bindings(&mut self, values: &ConfigValues, names: &Vec<KeyName>) -> (r:
        Bindings)
        requires
            old(self)@.wf(),
        ensures
            final(self)@.wf(),
            exists|scripts: Seq<ScriptBinding>|
                #![trigger want_views(scripts)]
                {
                    let table = usable_table(values.rules(), values.values(), names@);
                    &&& want_views(scripts) == wants(
                        old(self)@.list,
                        old(self)@.list.len() as int,
                    )
                    &&& r@ == with_scripts(table, names@, scripts, scripts.len() as int)
                    &&& final(self)@ == (ScriptsModel {
                        list: all_with_problems(
                            old(self)@.list,
                            sorted_problems(
                                script_problems(
                                    table,
                                    names@,
                                    scripts,
                                    scripts.len() as int,
                                ),
                            ),
                        ),
                        ..old(self)@
                    })
                },
    {
        let ghost before = self@;
        let mut bindings = Bindings::usable(values, names);
        let ghost table = bindings@;
        let scripts = self.wanted();
        let found = bindings.add_scripts(&scripts, names);
        let ghost problems = problem_views(found@);
        let mut i: usize = 0;
        while i < self.list.len()
            invariant
                i <= self.list@.len(),
                problems == problem_views(found@),
                self.list@.len() == before.list.len(),
                self@ == (ScriptsModel { list: self@.list, ..before }),
                forall|j: int|
                    0 <= j < self.list@.len() ==> (#[trigger] self.list@[j])@ == if j < i {
                        with_problems(before.list[j], problems, j)
                    } else {
                        before.list[j]
                    },
            decreases self.list@.len() - i,
        {
            let refused = texts_of(&found, i);
            let none = refused.len() == 0;
            let mut problems_now = copied_all(&self.list[i].found.header.problems);
            let ghost own = views(problems_now@);
            let ghost extra = views(refused@);
            let mut more = refused;
            problems_now.append(&mut more);
            assert(views(problems_now@) =~= own + extra);
            let bind = if none {
                copied_opt(&self.list[i].found.header.bind)
            } else {
                None
            };
            let ghost start = self.list@[i as int]@;
            self.list[i].problems = problems_now;
            self.list[i].bind = bind;
            assert(self.list@[i as int]@ =~= with_problems(start, problems, i as int));
            i = i + 1;
        }
        proof {
            assert(self@.list =~= all_with_problems(before.list, problems));
            assert forall|k: int| 0 <= k < self@.list.len() implies (
            #[trigger] self@.list[k]).output.wf() && self@.list[k].output_run <= before.last_run
                && (self@.list[k].run matches Some(run) ==> 0 < run.id <= before.last_run) by {
                assert(before.list[k].output.wf());
            }
            assert(want_views(scripts@) == wants(before.list, before.list.len() as int));
        }
        bindings
    }

    /// The position of a script in the list, by file name.
    pub fn script_index(&self, name: &str) -> (r: Option<usize>)
        ensures
            (match r {
                Some(i) => Some(i as int),
                None => None,
            }) == place_named(self@.list, name@, 0),
            r matches Some(i) ==> i < self@.list.len() && self@.list[i as int].found.name
                == name@,
    {
        find_named(&self.list, name)
    }

    /// Everything that is shown about every script.
    pub fn script_infos(&self) -> (r: Vec<ScriptInfo>)
        ensures
            r@.len() == self@.list.len(),
            forall|i: int| 0 <= i < r@.len() ==> shows(#[trigger] r@[i], self@.list[i]),
    {
        let mut out: Vec<ScriptInfo> = Vec::new();
        let mut i: usize = 0;
        while i < self.list.len()
            invariant
                i <= self.list@.len(),
                out@.len() == i,
                forall|j: int| 0 <= j < i ==> shows(#[trigger] out@[j], self@.list[j]),
            decreases self.list@.len() - i,
        {
            out.push(self.list[i].info());
            i = i + 1;
        }
        out
    }

    /// A script's latest output, and whether more may follow.
    pub fn script_output(&self, index: usize, tail: usize) -> (r: (Vec<OutputLine>, bool))
        requires
            index < self@.list.len(),
        ensures
            line_views(r.0@) == (if self@.list[index as int].output.lines.len() > tail {
                self@.list[index as int].output.lines.skip(
                    self@.list[index as int].output.lines.len() - tail,
                )
            } else {
                self@.list[index as int].output.lines
            }),
            r.1 == (self@.list[index as int].run is Some),
    {
        let script = &self.list[index];
        (script.output.tail(tail), script.run.is_some())
    }

    /// The scripts to run when the session starts.
    pub fn autostart(&self) -> (r: Vec<usize>)
        ensures
            forall|i: int|
                0 <= i < self@.list.len() && self@.list[i].found.header.autostart ==> r@.contains(
                    i as usize,
                ),
            forall|k: int|
                0 <= k < r@.len() ==> (#[trigger] r@[k]) < self@.list.len()
                    && self@.list[r@[k] as int].found.header.autostart,
            forall|j: int, k: int| 0 <= j < k < r@.len() ==> #[trigger] r@[j] < #[trigger] r@[k],
    {
        let mut out: Vec<usize> = Vec::new();
        let mut i: usize = 0;
        while i < self.list.len()
            invariant
                i <= self.list@.len(),
                forall|j: int|
                    0 <= j < i && self@.list[j].found.header.autostart ==> out@.contains(
                        j as usize,
                    ),
                forall|k: int|
                    0 <= k < out@.len() ==> (#[trigger] out@[k]) < i
                        && self@.list[out@[k] as int].found.header.autostart,
                forall|j: int, k: int|
                    0 <= j < k < out@.len() ==> #[trigger] out@[j] < #[trigger] out@[k],
            decreases self.list@.len() - i,
        {
            assert(self@.list[i as int] == self.list@[i as int]@);
            if self.list[i].found.header.autostart {
                let ghost before = out@;
                out.push(i);
                proof {
                    assert forall|j: int|
                        0 <= j < i + 1 && self@.list[j].found.header.autostart implies out@.contains(
                        j as usize,
                    ) by {
                        if j == i {
                            assert(out@[out@.len() - 1] == i);
                        } else {
                            let k = choose|k: int|
                                0 <= k < before.len() && before[k] == j as usize;
                            assert(out@[k] == j as usize);
                        }
                    }
                }
            }
            i = i + 1;
        }
        out
    }

    /// Tells how a script is to run: as asked, or else as its header says.
    pub fn mode_for(&self, index: usize, mode: Option<RunMode>) -> (r: Result<RunMode, String>)
        ensures
            index < self@.list.len() ==> r == Ok::<RunMode, String>(
                match mode {
                    Some(mode) => mode,
                    None => run_mode(self@.list[index as int].found.header.mode),
                },
            ),
            index >= self@.list.len() ==> (r matches Err(why) && why@ == "no such script"@),
    {
        if index >= self.list.len() {
            return Err(copied("no such script"));
        }
        assert(self@.list[index as int] == self.list@[index as int]@);
        Ok(
            match mode {
                Some(mode) => mode,
                None => mode_of(self.list[index].found.header.mode),
            },
        )
    }

    /// Tells whether a script may be started in the background, or why not.
    pub fn may_start(&self, index: usize) -> (r: Result<(), String>)
        requires
            index < self@.list.len(),
        ensures
            match self@.list[index as int].run {
                None => r is Ok,
                Some(run) => r matches Err(why) && why@ == self@.list[index as int].found.title()
                    + " is already running (pid "@ + decimal(run.pid as nat) + ")"@ + ""@,
            },
    {
        let script = &self.list[index];
        assert(self@.list[index as int] == script@);
        match script.run {
            None => Ok(()),
            Some(run) => {
                let pid = number_text(run.pid as u64);
                Err(
                    concat5(
                        script.found.title(),
                        " is already running (pid ",
                        pid.as_str(),
                        ")",
                        "",
                    ),
                )
            },
        }
    }

    fn next_run_id(&mut self) -> (r: u64)
        requires
            old(self)@.last_run < u64::MAX,
        ensures
            r == old(self)@.last_run + 1,
            final(self)@ == (ScriptsModel { last_run: r as int, ..old(self)@ }),
    {
        self.next_run_id = self.next_run_id + 1;
        self.next_run_id
    }

    /// Notes that a script was started in the background. Returns the number of the run; never
    /// zero, so that zero can mean that there was none yet.
    pub fn start_background(
        &mut self,
        index: usize,
        pid: u32,
        now: u64,
        unix_ms: u64,
    ) -> (r: u64)
        requires
            old(self)@.wf(),
            index < old(self)@.list.len(),
            old(self)@.list[index as int].run is None,
            old(self)@.last_run < u64::MAX,
        ensures
            r == old(self)@.last_run + 1,
            r > 0,
            final(self)@ == (ScriptsModel { last_run: r as int, ..old(self)@ }).with_script(
                index as int,
                begun(
                    old(self)@.list[index as int],
                    (Run { id: r, pid, started: now, started_at_ms: unix_ms }),
                ),
            ),
            final(self)@.wf(),
    {
        let ghost before = self@;
        let id = self.next_run_id();
        let run = Run { id, pid, started: now, started_at_ms: unix_ms };
        self.list[index].output.clear();
        self.list[index].output_run = id;
        self.list[index].state = ScriptState::Running { pid, started_at_ms: unix_ms };
        self.list[index].run = Some(run);
        proof {
            let after = (ScriptsModel { last_run: id as int, ..before }).with_script(
                index as int,
                begun(before.list[index as int], run),
            );
            assert(self.list@[index as int]@ =~= after.list[index as int]);
            assert(self@.list =~= after.list);
            assert forall|k: int| 0 <= k < after.list.len() implies (
            #[trigger] after.list[k]).output.wf() && after.list[k].output_run <= after.last_run
                && (after.list[k].run matches Some(run) ==> 0 < run.id <= after.last_run) by {
                assert(before.list[k].output.wf());
            }
        }
        id
    }

    /// Notes that a script was opened in a terminal.
    pub fn start_in_terminal(&mut self, index: usize, unix_ms: u64)
        requires
            old(self)@.wf(),
            index < old(self)@.list.len(),
        ensures
            final(self)@ == old(self)@.with_script(
                index as int,
                (ScriptModel {
                    state: ScriptState::InTerminal { started_at_ms: unix_ms },
                    ..old(self)@.list[index as int]
                }),
            ),
            final(self)@.wf(),
    {
        let ghost before = self@;
        self.list[index].state = ScriptState::InTerminal { started_at_ms: unix_ms };
        proof {
            let script = ScriptModel {
                state: ScriptState::InTerminal { started_at_ms: unix_ms },
                ..before.list[index as int]
            };
            assert(self.list@[index as int]@ =~= script);
            assert(self@.list =~= before.list.update(index as int, script));
            replaced_is_sound(before, self@, index as int, script);
        }
    }

    fn current_output(&self, name: &str, run_id: u64) -> (r: Option<usize>)
        ensures
            (match r {
                Some(i) => Some(i as int),
                None => None,
            }) == output_place(self@.list, name@, run_id, 0),
            r matches Some(i) ==> i < self@.list.len(),
    {
        let mut i: usize = 0;
        while i < self.list.len()
            invariant
                i <= self.list@.len(),
                output_place(self@.list, name@, run_id, 0) == output_place(
                    self@.list,
                    name@,
                    run_id,
                    i as int,
                ),
            decreases self.list@.len() - i,
        {
            let script = &self.list[i];
            assert(self@.list[i as int] == script@);
            if script.output_run == run_id && same(script.found.name.as_str(), name) {
                return Some(i);
            }
            i = i + 1;
        }
        None
    }

    /// Adds what was read from a pipe to the output of the run that it belongs to. Tells whether
    /// the pipe is still worth reading: once a newer run has started it belongs to the past.
    pub fn pipe_read(&mut self, name: &str, run_id: u64, stderr: bool, bytes: &Vec<u8>) -> (r:
        bool)
        requires
            old(self)@.wf(),
        ensures
            final(self)@.wf(),
            match output_place(old(self)@.list, name@, run_id, 0) {
                Some(i) => r && final(self)@ == old(self)@.with_script(
                    i,
                    (ScriptModel {
                        output: old(self)@.list[i].output.pushed(stderr, bytes@),
                        ..old(self)@.list[i]
                    }),
                ),
                None => !r && final(self)@ == old(self)@,
            },
    {
        let ghost before = self@;
        match self.current_output(name, run_id) {
            None => false,
            Some(index) => {
                assert(before.list[index as int].output.wf());
                self.list[index].output.push(stderr, bytes);
                proof {
                    let script = ScriptModel {
                        output: before.list[index as int].output.pushed(stderr, bytes@),
                        ..before.list[index as int]
                    };
                    assert(self.list@[index as int]@ =~= script);
                    assert(self@.list =~= before.list.update(index as int, script));
                    replaced_is_sound(before, self@, index as int, script);
                }
                true
            },
        }
    }

    /// Keeps a last line without a newline when a pipe closes.
    pub fn pipe_closed(&mut self, name: &str, run_id: u64, stderr: bool)
        requires
            old(self)@.wf(),
        ensures
            final(self)@.wf(),
            final(self)@ == (match output_place(old(self)@.list, name@, run_id, 0) {
                Some(i) => old(self)@.with_script(
                    i,
                    (ScriptModel {
                        output: old(self)@.list[i].output.flushed(stderr),
                        ..old(self)@.list[i]
                    }),
                ),
                None => old(self)@,
            }),
    {
        let ghost before = self@;
        if let Some(index) = self.current_output(name, run_id) {
            assert(before.list[index as int].output.wf());
            self.list[index].output.flush(stderr);
            proof {
                let script = ScriptModel {
                    output: before.list[index as int].output.flushed(stderr),
                    ..before.list[index as int]
                };
                assert(self.list@[index as int]@ =~= script);
                assert(self@.list =~= before.list.update(index as int, script));
                replaced_is_sound(before, self@, index as int, script);
            }
        }
    }

    /// Tells whether a run is still going on, as before its exit is looked up, or when the time
    /// that it was given to stop is over.
    pub fn still_running(&self, name: &str, run_id: u64) -> (r: bool)
        ensures
            r == runs(self@.list, name@, run_id),
    {
        match self.script_index(name) {
            None => false,
            Some(index) => {
                assert(self@.list[index as int] == self.list@[index as int]@);
                match self.list[index].run {
                    Some(run) => run.id == run_id,
                    None => false,
                }
            },
        }
    }

    /// Records the exit of a run, after what was left in its pipes was read. Returns the event
    /// to send; a run that is no longer going on gives none.
    pub fn script_process_ended(
        &mut self,
        name: &str,
        run_id: u64,
        code: Option<i32>,
        signal: Option<i32>,
        now: u64,
    ) -> (r: Option<Event>)
        requires
            old(self)@.wf(),
        ensures
            final(self)@.wf(),
            !runs(old(self)@.list, name@, run_id) ==> r is None && final(self)@ == old(self)@,
            runs(old(self)@.list, name@, run_id) ==> {
                let i = place_named(old(self)@.list, name@, 0)->0;
                let script = ended(old(self)@.list[i], exit_of(code, signal), now);
                &&& final(self)@ == old(self)@.with_script(i, script)
                &&& r matches Some(Event::ScriptExited { name: at, exit, duration_ms }) && at@
                    == name@ && exit == exit_of(code, signal) && script.state
                    == (ScriptState::Exited {
                    exit,
                    started_at_ms: (old(self)@.list[i].run->0).started_at_ms,
                    duration_ms,
                })
            },
    {
        let ghost before = self@;
        let index = match self.script_index(name) {
            Some(index) => index,
            None => {
                return None;
            },
        };
        assert(before.list[index as int] == self.list@[index as int]@);
        let run = match self.list[index].run {
            Some(run) => run,
            None => {
                return None;
            },
        };
        if run.id != run_id {
            return None;
        }
        let exit = match (code, signal) {
            (Some(code), _) => ExitStatus::Code { code },
            (None, Some(signal)) => ExitStatus::Signal { signal },
            (None, None) => ExitStatus::Code { code: -1 },
        };
        let duration_ms: u64 = millis_since(run.started, now);
        assert(before.list[index as int].output.wf());
        self.list[index].run = None;
        self.list[index].output.flush(false);
        self.list[index].output.flush(true);
        self.list[index].state =
        ScriptState::Exited { exit, started_at_ms: run.started_at_ms, duration_ms };
        proof {
            let script = ended(before.list[index as int], exit, now);
            assert(self.list@[index as int]@ =~= script);
            assert(self@.list =~= before.list.update(index as int, script));
            replaced_is_sound(before, self@, index as int, script);
        }
        Some(Event::ScriptExited { name: copied(name), exit, duration_ms })
    }

    /// The run that a request to stop a script is about, or why there is none.
    pub fn stop_script(&self, index: usize) -> (r: Result<Run, String>)
        requires
            index < self@.list.len(),
        ensures
            match self@.list[index as int].run {
                Some(run) => r == Ok::<Run, String>(run),
                None => r matches Err(why) && why@ == self@.list[index as int].found.title()
                    + " is not running"@ + ""@,
            },
    {
        let script = &self.list[index];
        assert(self@.list[index as int] == script@);
        match script.run {
            Some(run) => Ok(run),
            None => Err(concat3(script.found.title(), " is not running", "")),
        }
    }

    /// The processes of all running scripts, to be stopped when the session ends.
    pub fn stop_all_scripts(&self) -> (r: Vec<u32>)
        ensures
            r@ == running(self@.list, self@.list.len() as int).map_values(
                |script: ScriptModel| (script.run->0).pid,
            ),
    {
        let ghost pid_of = |script: ScriptModel| (script.run->0).pid;
        let mut out: Vec<u32> = Vec::new();
        let mut i: usize = 0;
        assert(out@ =~= running(self@.list, 0).map_values(pid_of));
        while i < self.list.len()
            invariant
                i <= self.list@.len(),
                pid_of == (|script: ScriptModel| (script.run->0).pid),
                out@ == running(self@.list, i as int).map_values(pid_of),
            decreases self.list@.len() - i,
        {
            assert(self@.list[i as int] == self.list@[i as int]@);
            if let Some(run) = self.list[i].run {
                let ghost before = running(self@.list, i as int);
                out.push(run.pid);
                assert(out@ =~= before.push(self@.list[i as int]).map_values(pid_of));
            }
            i = i + 1;
        }
        out
    }

    /// Asks for a rescan shortly. Tells whether a timer has to be started; a second request
    /// before it fires needs none.
    pub fn schedule_rescan(&mut self) -> (r: bool)
        ensures
            r == !old(self)@.rescan_pending,
            final(self)@ == (ScriptsModel { rescan_pending: true, ..old(self)@ }),
            old(self)@.wf() ==> final(self)@.wf(),
    {
        if self.rescan_pending {
            return false;
        }
        self.rescan_pending = true;
        true
    }

    /// The timer of a rescan has fired, or could not be started.
    pub fn rescan_due(&mut self)
        ensures
            final(self)@ == (ScriptsModel { rescan_pending: false, ..old(self)@ }),
            old(self)@.wf() ==> final(self)@.wf(),
    {
        self.rescan_pending = false;
    }
}

fn texts_of(problems: &Vec<(usize, String)>, index: usize) -> (r: Vec<String>)
    ensures
        views(r@) == problems_of(
            problem_views(problems@),
            index as int,
            problems@.len() as int,
        ),
{
    let ghost all = problem_views(problems@);
    let mut out: Vec<String> = Vec::new();
    let mut i: usize = 0;
    assert(views(out@) =~= Seq::empty());
    while i < problems.len()
        invariant
            i <= problems@.len(),
            all == problem_views(problems@),
            views(out@) == problems_of(all, index as int, i as int),
        decreases problems@.len() - i,
    {
        assert(all[i as int] == (problems@[i as int].0, problems@[i as int].1@));
        if problems[i].0 == index {
            let ghost before = out@;
            out.push(copied(problems[i].1.as_str()));
            assert(views(out@) =~= views(before).push(problems@[i as int].1@));
        }
        i = i + 1;
    }
    out
}

proof fn replaced_is_sound(
    before: ScriptsModel,
    after: ScriptsModel,
    i: int,
    script: ScriptModel,
)
    requires
        before.wf(),
        0 <= i < before.list.len(),
        after == before.with_script(i, script),
        script.output.wf(),
        script.output_run <= before.last_run,
        script.run matches Some(run) ==> 0 < run.id <= before.last_run,
    ensures
        after.wf(),
{
    assert forall|k: int| 0 <= k < after.list.len() implies (
    #[trigger] after.list[k]).output.wf() && after.list[k].output_run <= after.last_run && (
    after.list[k].run matches Some(run) ==> 0 < run.id <= after.last_run) by {
        assert(before.list[k].output.wf());
    }
}

/// The same script, though its file may have changed.
pub open spec fn same_script(a: ScriptModel, b: ScriptModel) -> bool {
    &&& a.found.name == b.found.name
    &&& a == (ScriptModel { found: a.found, ..b })
}

proof fn nothing_is_lost(
    known: Seq<ScriptModel>,
    found: Seq<DiscoveredModel>,
    from: int,
    k: int,
)
    requires
        0 <= from <= found.len(),
        0 <= k < known.len(),
    ensures
        ({
            let (list, left) = merged(known, found, from);
            ||| exists|j: int| 0 <= j < list.len() && same_script(#[trigger] list[j], known[k])
            ||| exists|j: int| 0 <= j < left.len() && #[trigger] left[j] == known[k]
        }),
    decreases found.len() - from,
{
    let (list, left) = merged(known, found, from);
    if from < found.len() {
        match place_named(known, found[from].name, 0) {
            Some(i) => {
                place_is_named(known, found[from].name, 0);
                let rest = without_place(known, i);
                let (tail, _) = merged(rest, found, from + 1);
                if k == i {
                    assert(same_script(list[0], known[k]));
                } else {
                    let at = if k == known.len() - 1 {
                        i
                    } else {
                        k
                    };
                    assert(rest[at] == known[k]);
                    nothing_is_lost(rest, found, from + 1, at);
                    if exists|j: int|
                        0 <= j < tail.len() && same_script(#[trigger] tail[j], known[k]) {
                        let j = choose|j: int|
                            0 <= j < tail.len() && same_script(#[trigger] tail[j], known[k]);
                        assert(list[j + 1] == tail[j]);
                    }
                }
            },
            None => {
                let (tail, _) = merged(known, found, from + 1);
                nothing_is_lost(known, found, from + 1, k);
                if exists|j: int|
                    0 <= j < tail.len() && same_script(#[trigger] tail[j], known[k]) {
                    let j = choose|j: int|
                        0 <= j < tail.len() && same_script(#[trigger] tail[j], known[k]);
                    assert(list[j + 1] == tail[j]);
                }
            },
        }
    } else {
        assert(left[k] == known[k]);
    }
}

proof fn place_is_named(list: Seq<ScriptModel>, name: Seq<char>, from: int)
    requires
        0 <= from,
    ensures
        place_named(list, name, from) matches Some(i) ==> from <= i < list.len()
            && list[i].found.name == name,
    decreases list.len() - from,
{
    if from < list.len() && list[from].found.name != name {
        place_is_named(list, name, from + 1);
    }
}

proof fn running_are_kept(list: Seq<ScriptModel>, n: int, k: int)
    requires
        0 <= k < n <= list.len(),
        list[k].run is Some,
    ensures
        exists|j: int| 0 <= j < running(list, n).len() && #[trigger] running(list, n)[j] == list[k],
    decreases n,
{
    let after = running(list, n);
    if k == n - 1 {
        assert(after[after.len() - 1] == list[k]);
    } else {
        running_are_kept(list, n - 1, k);
        let before = running(list, n - 1);
        let j = choose|j: int| 0 <= j < before.len() && #[trigger] before[j] == list[k];
        assert(after[j] == before[j]);
    }
}

/// A running script stays listed whatever happens to its file, so that it can still be stopped.
pub proof fn running_scripts_stay_listed(
    known: Seq<ScriptModel>,
    found: Seq<DiscoveredModel>,
    k: int,
)
    requires
        0 <= k < known.len(),
        known[k].run is Some,
    ensures
        exists|j: int|
            0 <= j < rescanned(known, found).len() && same_script(
                #[trigger] rescanned(known, found)[j],
                known[k],
            ),
{
    let (list, left) = merged(known, found, 0);
    let all = rescanned(known, found);
    nothing_is_lost(known, found, 0, k);
    if exists|j: int| 0 <= j < list.len() && same_script(#[trigger] list[j], known[k]) {
        let j = choose|j: int| 0 <= j < list.len() && same_script(#[trigger] list[j], known[k]);
        assert(all[j] == list[j]);
    } else {
        let m = choose|m: int| 0 <= m < left.len() && #[trigger] left[m] == known[k];
        running_are_kept(left, left.len() as int, m);
        let going = running(left, left.len() as int);
        let j = choose|j: int| 0 <= j < going.len() && #[trigger] going[j] == left[m];
        assert(all[list.len() + j] == going[j]);
    }
}

proof fn merged_follows(known: Seq<ScriptModel>, found: Seq<DiscoveredModel>, from: int)
    requires
        0 <= from <= found.len(),
    ensures
        merged(known, found, from).0.len() == found.len() - from,
        forall|i: int|
            0 <= i < found.len() - from ==> (#[trigger] merged(known, found, from).0[i]).found
                == found[from + i],
    decreases found.len() - from,
{
    if from < found.len() {
        let list = merged(known, found, from).0;
        match place_named(known, found[from].name, 0) {
            Some(i) => {
                merged_follows(without_place(known, i), found, from + 1);
                let tail = merged(without_place(known, i), found, from + 1).0;
                assert forall|k: int| 0 <= k < found.len() - from implies (
                #[trigger] list[k]).found == found[from + k] by {
                    if k > 0 {
                        assert(list[k] == tail[k - 1]);
                    }
                }
            },
            None => {
                merged_follows(known, found, from + 1);
                let tail = merged(known, found, from + 1).0;
                assert forall|k: int| 0 <= k < found.len() - from implies (
                #[trigger] list[k]).found == found[from + k] by {
                    if k > 0 {
                        assert(list[k] == tail[k - 1]);
                    }
                }
            },
        }
    }
}

/// The list starts with the scripts that the folder holds, in the order in which they were
/// found.
pub proof fn the_list_follows_the_folder(known: Seq<ScriptModel>, found: Seq<DiscoveredModel>)
    ensures
        rescanned(known, found).len() >= found.len(),
        forall|i: int|
            0 <= i < found.len() ==> (#[trigger] rescanned(known, found)[i]).found == found[i],
{
    merged_follows(known, found, 0);
    let list = merged(known, found, 0).0;
    assert forall|i: int| 0 <= i < found.len() implies (
    #[trigger] rescanned(known, found)[i]).found == found[i] by {
        assert(rescanned(known, found)[i] == list[i]);
    }
}

/// Once a new run of a script has started, what is still read from the pipes of an older run
/// goes nowhere, where no two scripts share a name.
pub proof fn stale_pipes_write_nothing(list: Seq<ScriptModel>, i: int, run: Run, older: u64)
    requires
        0 <= i < list.len(),
        older < run.id,
        forall|j: int|
            0 <= j < list.len() && (#[trigger] list[j]).found.name == list[i].found.name ==> j
                == i,
    ensures
        output_place(
            list.update(i, begun(list[i], run)),
            list[i].found.name,
            older,
            0,
        ) is None,
{
    let after = list.update(i, begun(list[i], run));
    no_output_place(after, list[i].found.name, older, 0);
}

proof fn no_output_place(list: Seq<ScriptModel>, name: Seq<char>, run_id: u64, from: int)
    requires
        0 <= from,
        forall|j: int|
            0 <= j < list.len() ==> !((#[trigger] list[j]).found.name == name
                && list[j].output_run == run_id),
    ensures
        output_place(list, name, run_id, from) is None,
    decreases list.len() - from,
{
    if from < list.len() {
        no_output_place(list, name, run_id, from + 1);
    }
}

/// True when no two scripts of a list have the same name.
pub open spec fn names_differ(list: Seq<ScriptModel>) -> bool {
    forall|i: int, j: int|
        0 <= i < j < list.len() ==> (#[trigger] list[i]).found.name != (
        #[trigger] list[j]).found.name
}

/// A script is found by its file name: the first in the list that has it.
pub proof fn scripts_are_found_by_name(list: Seq<ScriptModel>, name: Seq<char>, from: int)
    requires
        0 <= from <= list.len(),
    ensures
        match place_named(list, name, from) {
            Some(i) => {
                &&& from <= i < list.len()
                &&& list[i].found.name == name
                &&& forall|j: int| from <= j < i ==> (#[trigger] list[j]).found.name != name
            },
            None => forall|j: int|
                from <= j < list.len() ==> (#[trigger] list[j]).found.name != name,
        },
    decreases list.len() - from,
{
    if from < list.len() {
        scripts_are_found_by_name(list, name, from + 1);
    }
}

proof fn merging_keeps(known: Seq<ScriptModel>, found: Seq<DiscoveredModel>, from: int, i: int)
    requires
        0 <= from <= i < found.len(),
        names_differ(known),
        forall|a: int, b: int|
            0 <= a < b < found.len() ==> (#[trigger] found[a]).name != (#[trigger] found[b]).name,
    ensures
        ({
            let at = merged(known, found, from).0[i - from];
            &&& merged(known, found, from).0.len() == found.len() - from
            &&& (forall|k: int|
                0 <= k < known.len() ==> (#[trigger] known[k]).found.name != found[i].name) ==> at
                == new_script(found[i])
            &&& forall|k: int|
                0 <= k < known.len() && (#[trigger] known[k]).found.name == found[i].name ==> at
                    == (ScriptModel { found: found[i], ..known[k] })
        }),
    decreases i - from,
{
    merged_follows(known, found, from);
    scripts_are_found_by_name(known, found[from].name, 0);
    match place_named(known, found[from].name, 0) {
        Some(p) => {
            let less = without_place(known, p);
            let rest = merged(less, found, from + 1).0;
            assert(merged(known, found, from).0[0] == (ScriptModel {
                found: found[from],
                ..known[p]
            }));
            if i == from {
                assert forall|k: int|
                    0 <= k < known.len() && (#[trigger] known[k]).found.name
                        == found[i].name implies k == p by {}
            } else {
                assert(names_differ(less)) by {
                    assert forall|a: int, b: int| 0 <= a < b < less.len() implies (
                    #[trigger] less[a]).found.name != (#[trigger] less[b]).found.name by {
                        let last = known.len() - 1;
                        assert(less[a] == known[if a == p { last } else { a }]);
                        assert(less[b] == known[if b == p { last } else { b }]);
                    }
                }
                merging_keeps(less, found, from + 1, i);
                assert(merged(known, found, from).0[i - from] == rest[i - from - 1]);
                let at = rest[i - (from + 1)];
                assert(found[from].name != found[i].name);
                assert forall|k: int|
                    0 <= k < known.len() && (#[trigger] known[k]).found.name
                        == found[i].name implies at == (ScriptModel {
                    found: found[i],
                    ..known[k]
                }) by {
                    assert(k != p);
                    let q = if k == known.len() - 1 { p } else { k };
                    assert(less[q] == known[k]);
                }
                if forall|k: int|
                    0 <= k < known.len() ==> (#[trigger] known[k]).found.name != found[i].name {
                    assert forall|k: int| 0 <= k < less.len() implies (
                    #[trigger] less[k]).found.name != found[i].name by {
                        assert(less[k] == known[if k == p { known.len() - 1 } else { k }]);
                    }
                }
            }
        },
        None => {
            let rest = merged(known, found, from + 1).0;
            assert(merged(known, found, from).0[0] == new_script(found[from]));
            if i > from {
                merging_keeps(known, found, from + 1, i);
                assert(merged(known, found, from).0[i - from] == rest[i - from - 1]);
            }
        },
    }
}

/// Reading the folder again keeps what is known of a script: one that was listed before, under
/// the same file name, keeps its state, its output and its run, and takes what its file says now;
/// one that was not has never run. Behind the scripts of the folder stand only scripts that are
/// still running.
pub proof fn scripts_keep_their_state(
    known: Seq<ScriptModel>,
    found: Seq<DiscoveredModel>,
    i: int,
    k: int,
)
    requires
        0 <= i < found.len(),
        names_differ(known),
        forall|a: int, b: int|
            0 <= a < b < found.len() ==> (#[trigger] found[a]).name != (#[trigger] found[b]).name,
    ensures
        ({
            let list = rescanned(known, found);
            &&& 0 <= k < known.len() && known[k].found.name == found[i].name ==> {
                &&& list[i].found == found[i]
                &&& list[i].state == known[k].state
                &&& list[i].output == known[k].output
                &&& list[i].output_run == known[k].output_run
                &&& list[i].run == known[k].run
            }
            &&& (forall|j: int|
                0 <= j < known.len() ==> (#[trigger] known[j]).found.name != found[i].name) ==> {
                &&& list[i].found == found[i]
                &&& list[i].state == ScriptState::NeverRun
                &&& list[i].run is None
                &&& list[i].output.lines.len() == 0
            }
            &&& forall|j: int| found.len() <= j < list.len() ==> (#[trigger] list[j]).run is Some
        }),
{
    broadcast use vstd::seq_lib::group_filter_ensures;

    merging_keeps(known, found, 0, i);
    merged_follows(known, found, 0);
    let (list, left) = merged(known, found, 0);
    let behind = running(left, left.len() as int);
    running_is_a_filter(left, left.len() as int);
    let all = rescanned(known, found);
    assert(all[i] == list[i]);
    assert forall|j: int| found.len() <= j < all.len() implies (#[trigger] all[j]).run is Some by {
        assert(all[j] == behind[j - list.len()]);
        assert(behind.contains(behind[j - list.len()]));
    }
}

/// The scripts that run are those with a run, in their order.
proof fn running_is_a_filter(list: Seq<ScriptModel>, n: int)
    requires
        0 <= n <= list.len(),
    ensures
        running(list, n) == list.take(n).filter(|script: ScriptModel| script.run is Some),
    decreases n,
{
    reveal(Seq::filter);
    if n > 0 {
        running_is_a_filter(list, n - 1);
        assert(list.take(n).drop_last() =~= list.take(n - 1));
        assert(list.take(n).last() == list[n - 1]);
    }
}

/// Stopping everything reaches every script that runs, and nothing else, in the order of the
/// list.
pub proof fn every_running_script_is_stopped(list: Seq<ScriptModel>)
    ensures
        running(list, list.len() as int) == list.filter(|script: ScriptModel| script.run is Some),
{
    running_is_a_filter(list, list.len() as int);
    assert(list.take(list.len() as int) =~= list);
}

/// A script's key is claimed in its own name and at its own place in the list.
pub proof fn scripts_claim_their_own_keys(list: Seq<ScriptModel>, n: int)
    requires
        0 <= n <= list.len(),
    ensures
        forall|i: int|
            0 <= i < n && (#[trigger] list[i]).found.header.bind is Some ==> wants(
                list,
                n,
            ).contains((i, list[i].found.name, list[i].found.header.bind->0)),
        forall|k: int|
            0 <= k < wants(list, n).len() ==> {
                let (i, name, text) = #[trigger] wants(list, n)[k];
                &&& 0 <= i < n
                &&& name == list[i].found.name
                &&& list[i].found.header.bind == Some(text)
            },
    decreases n,
{
    if n > 0 {
        scripts_claim_their_own_keys(list, n - 1);
        let before = wants(list, n - 1);
        let all = wants(list, n);
        assert forall|i: int|
            0 <= i < n && (#[trigger] list[i]).found.header.bind is Some implies all.contains(
            (i, list[i].found.name, list[i].found.header.bind->0),
        ) by {
            let entry = (i, list[i].found.name, list[i].found.header.bind->0);
            if i < n - 1 {
                let k = choose|k: int| 0 <= k < before.len() && before[k] == entry;
                assert(all[k] == entry);
            } else {
                assert(all.last() == entry);
            }
        }
        assert forall|k: int| 0 <= k < all.len() implies {
            let (i, name, text) = #[trigger] all[k];
            &&& 0 <= i < n
            &&& name == list[i].found.name
            &&& list[i].found.header.bind == Some(text)
        } by {
            if k < before.len() {
                assert(all[k] == before[k]);
            }
        }
    }
}

proof fn problems_are_found(problems: Seq<Problem>, index: int, n: int)
    requires
        0 <= n <= problems.len(),
    ensures
        problems_of(problems, index, n) == problems.take(n).filter(
            |problem: Problem| problem.0 == index,
        ).map_values(|problem: Problem| problem.1),
    decreases n,
{
    reveal(Seq::filter);
    let kept = |problem: Problem| problem.0 == index;
    let text = |problem: Problem| problem.1;
    if n > 0 {
        problems_are_found(problems, index, n - 1);
        assert(problems.take(n).drop_last() =~= problems.take(n - 1));
        assert(problems.take(n).last() == problems[n - 1]);
        let before = problems.take(n - 1).filter(kept);
        assert(before.push(problems[n - 1]).map_values(text) =~= before.map_values(text).push(
            problems[n - 1].1,
        ));
    } else {
        assert(problems.take(0).filter(kept).map_values(text) =~= Seq::empty());
    }
}

/// A script shows its own problems behind those of its header, in their order, and has its key
/// only where there is none with it; everything else about it stays.
pub proof fn problems_stand_with_their_script(
    script: ScriptModel,
    problems: Seq<Problem>,
    index: int,
)
    ensures
        ({
            let after = with_problems(script, problems, index);
            let own = problems.filter(|problem: Problem| problem.0 == index);
            &&& after.problems == script.found.header.problems + own.map_values(
                |problem: Problem| problem.1,
            )
            &&& own.len() == 0 ==> after.bind == script.found.header.bind
            &&& own.len() > 0 ==> after.bind is None
            &&& after.found == script.found && after.state == script.state && after.run
                == script.run && after.output == script.output
        }),
{
    problems_are_found(problems, index, problems.len() as int);
    assert(problems.take(problems.len() as int) =~= problems);
}

/// A run begins with an empty output and ends with all that was printed; the script tells of the
/// process while it runs, and afterwards how it ended and how long it took.
pub proof fn runs_begin_and_end(script: ScriptModel, run: Run, exit: ExitStatus, now: u64)
    requires
        now >= run.started,
    ensures
        ({
            let running = begun(script, run);
            let done = ended(running, exit, now);
            &&& running.run == Some(run)
            &&& running.state == (ScriptState::Running {
                pid: run.pid,
                started_at_ms: run.started_at_ms,
            })
            &&& running.output.lines.len() == 0 && running.output_run == run.id
            &&& running.found == script.found
            &&& done.run is None
            &&& done.state matches ScriptState::Exited { exit: how, started_at_ms, duration_ms }
                && how == exit && started_at_ms == run.started_at_ms && run.started + duration_ms
                == now
            &&& done.output_run == run.id
            &&& done.output.out.len() == 0 && done.output.err.len() == 0
            &&& done.found == script.found
        }),
{
}

/// A process that was killed is told by its signal, any other by its code.
pub proof fn exits_tell_code_or_signal(code: i32, signal: i32)
    ensures
        exit_of(Some(code), None) == (ExitStatus::Code { code }),
        exit_of(None, Some(signal)) == (ExitStatus::Signal { signal }),
{
}

/// A script runs under one number at a time: the end of a run that is over, or of another script,
/// is not taken for the end of this one.
pub proof fn runs_are_told_apart(list: Seq<ScriptModel>, name: Seq<char>, a: u64, b: u64)
    ensures
        runs(list, name, a) && runs(list, name, b) ==> a == b,
        runs(list, name, a) ==> exists|i: int|
            0 <= i < list.len() && (#[trigger] list[i]).found.name == name && (list[i].run matches
                Some(run) && run.id == a),
        forall|i: int|
            0 <= i < list.len() && (#[trigger] list[i]).found.name == name && (list[i].run matches
                Some(run) && run.id == a) && (forall|j: int|
                0 <= j < i ==> (#[trigger] list[j]).found.name != name) ==> runs(list, name, a),
{
    scripts_are_found_by_name(list, name, 0);
}

/// Output goes to the script of that name whose newest run it is from, and to no other.
pub proof fn output_goes_to_its_run(
    list: Seq<ScriptModel>,
    name: Seq<char>,
    run_id: u64,
    from: int,
)
    requires
        0 <= from <= list.len(),
    ensures
        match output_place(list, name, run_id, from) {
            Some(i) => {
                &&& from <= i < list.len()
                &&& list[i].found.name == name && list[i].output_run == run_id
                &&& forall|j: int|
                    from <= j < i ==> (#[trigger] list[j]).found.name != name || list[j].output_run
                        != run_id
            },
            None => forall|j: int|
                from <= j < list.len() ==> (#[trigger] list[j]).found.name != name
                    || list[j].output_run != run_id,
        },
    decreases list.len() - from,
{
    if from < list.len() {
        output_goes_to_its_run(list, name, run_id, from + 1);
    }
}

/// When a script ends, what it printed after its last line feeds is shown too: the rest of its
/// output first, then the rest of its errors.
pub proof fn the_last_words_are_shown(script: ScriptModel, exit: ExitStatus, now: u64)
    requires
        script.output.wf(),
        script.output.lines.len() + 2 <= 500,
    ensures
        ({
            let before = script.output;
            let after = ended(script, exit, now).output;
            let said = (if before.out.len() > 0 {
                1int
            } else {
                0
            });
            let complained = (if before.err.len() > 0 {
                1int
            } else {
                0
            });
            &&& after.out.len() == 0 && after.err.len() == 0
            &&& after.lines.len() == before.lines.len() + said + complained
            &&& forall|i: int|
                0 <= i < before.lines.len() ==> #[trigger] after.lines[i] == before.lines[i]
            &&& said == 1 ==> after.lines[before.lines.len() as int]
                == crate::scripts::output::shown_line(before.out, false)
            &&& complained == 1 ==> after.lines.last() == crate::scripts::output::shown_line(
                before.err,
                true,
            )
        }),
{
}

} // verus!
