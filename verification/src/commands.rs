//! What the command handlers decide: how `Function` actions, `Pattern` rules
//! and strengths, `PatternV2` timelines and `Preset` names are read, which
//! devices a request addresses, and under which id a task runs.
use vstd::prelude::*;
use vstd::string::StringExecFns;
use crate::external::{to_lowercase, unicode_lowercase};
use crate::json::{comma_join, lemma_comma_join_push};
use crate::lovense::{
    generate_toy_id, target_toys_spec, toy_id_of, DeviceInfo, LovenseCommandRequest, PatternAction,
};
use crate::store::{
    all_toys_task_id, copy_actions, keys_unique, put, value_of, Entries, StringKeyedMap,
};
use crate::server::{parse_pattern_rule_interval, rule_interval_spec};
use crate::text::{
    ascii_lowercase, is_ascii_chars, lemma_lowercases_to,
    chars_of, eq_ignore_ascii_case, eq_ignore_ascii_case_chars,
    eq_ignore_ascii_case_seq, find_char, first_pos, first_where, is_ascii_digit, lemma_first_where,
    slice_chars, split_chars, split_seq, str_equals, string_from_chars, trim_chars, trim_seq,
};

verus! {

// ---------------------------------------------------------------------------
// First position satisfying a test
// ---------------------------------------------------------------------------

pub open spec fn is_digit_char(c: char) -> bool {
    is_ascii_digit(c)
}

/// Where the digits of a `Vibrate10`-style action begin.
fn first_digit_index(v: &Vec<char>) -> (r: usize)
    ensures
        r == first_where(v@, |c: char| is_digit_char(c)),
        r <= v.len(),
{
    let mut i: usize = 0;
    while i < v.len() && !('0' <= v[i] && v[i] <= '9')
        invariant
            i <= v.len(),
            forall|k: int| 0 <= k < i ==> !is_digit_char(#[trigger] v@[k]),
        decreases v.len() - i,
    {
        i = i + 1;
    }
    proof {
        let f = |c: char| is_digit_char(c);
        assert forall|k: int| 0 <= k < i implies !f(#[trigger] v@[k]) by {
            assert(!is_digit_char(v@[k]));
        }
        lemma_first_where(v@, f, i as int);
    }
    i
}

// ---------------------------------------------------------------------------
// Function actions
// ---------------------------------------------------------------------------

/// One action of a `Function` command: drive `feature` at the level the text
/// `level` gives as a number (`fallback_level` when it is no number), divided
/// by `divisor`.
pub struct FunctionAction {
    pub feature: String,
    pub level: String,
    pub fallback_level: u32,
    pub divisor: u32,
}

pub ghost struct FunctionActionView {
    pub feature: Seq<char>,
    pub level: Seq<char>,
    pub fallback_level: nat,
    pub divisor: nat,
}

impl View for FunctionAction {
    type V = FunctionActionView;

    open spec fn view(&self) -> FunctionActionView {
        FunctionActionView {
            feature: self.feature@,
            level: self.level@,
            fallback_level: self.fallback_level as nat,
            divisor: self.divisor as nat,
        }
    }
}

/// The divisor that turns a level of `feature` into a strength ratio: pump and
/// depth go to 3, stroke to 100, everything else to 20 (names compared
/// case-insensitively).
pub open spec fn divisor_for(feature: Seq<char>) -> nat {
    divisor_for_lower(unicode_lowercase(feature))
}

pub open spec fn divisor_for_lower(l: Seq<char>) -> nat {
    if l == "pump"@ || l == "depth"@ {
        3
    } else if l == "stroke"@ {
        100
    } else {
        20
    }
}

/// The divisor for an already lower-cased feature name.
pub fn divisor_for_lowercase(lower: &str) -> (r: u32)
    ensures
        r == divisor_for_lower(lower@),
{
    let l = chars_of(lower);
    if str_equals(&l, "pump") || str_equals(&l, "depth") {
        3
    } else if str_equals(&l, "stroke") {
        100
    } else {
        20
    }
}

/// How one non-blank, trimmed part of an action string is read: `feature:level`
/// or `feature:min-max` (the maximum counts; a missing number is 0), or a
/// feature name directly followed by its level (a missing number is 20).
pub open spec fn part_action(p: Seq<char>) -> FunctionActionView {
    match first_pos(p, ':') {
        Some(i) => {
            let feat = trim_seq(p.take(i));
            let val = p.skip(i + 1);
            let lvl = match first_pos(val, '-') {
                Some(j) => trim_seq(val.skip(j + 1)),
                None => trim_seq(val),
            };
            FunctionActionView { feature: feat, level: lvl, fallback_level: 0, divisor: divisor_for(feat) }
        },
        None => {
            let n = first_where(p, |c: char| is_digit_char(c));
            FunctionActionView { feature: p.take(n), level: p.skip(n), fallback_level: 20, divisor: 20 }
        },
    }
}

/// The actions of the comma-separated parts, blank parts skipped.
pub open spec fn actions_of_parts(parts: Seq<Seq<char>>) -> Seq<FunctionActionView>
    decreases parts.len(),
{
    if parts.len() == 0 {
        Seq::<FunctionActionView>::empty()
    } else {
        let prev = actions_of_parts(parts.drop_last());
        let p = trim_seq(parts.last());
        if p.len() == 0 {
            prev
        } else {
            prev.push(part_action(p))
        }
    }
}

/// The actions of a `Function` action string; a non-empty string of blank
/// parts means full vibration.
pub open spec fn function_actions_spec(s: Seq<char>) -> Seq<FunctionActionView> {
    let r = actions_of_parts(split_seq(s, ','));
    if r.len() == 0 && s.len() > 0 {
        seq![FunctionActionView { feature: "Vibrate"@, level: "20"@, fallback_level: 20, divisor: 20 }]
    } else {
        r
    }
}

fn read_part(p: &Vec<char>) -> (r: FunctionAction)
    ensures
        r@ == part_action(p@),
{
    match find_char(p, ':') {
        Some(i) => {
            let feat = trim_chars(&slice_chars(p, 0, i));
            let val = slice_chars(p, i + 1, p.len());
            assert(p@.take(i as int) =~= p@.subrange(0, i as int));
            assert(val@ =~= p@.skip(i + 1));
            let lvl = match find_char(&val, '-') {
                Some(j) => {
                    let m = slice_chars(&val, j + 1, val.len());
                    assert(m@ =~= val@.skip(j + 1));
                    trim_chars(&m)
                },
                None => trim_chars(&val),
            };
            let feature = string_from_chars(&feat);
            let lower = to_lowercase(feature.as_str());
            let divisor = divisor_for_lowercase(lower.as_str());
            FunctionAction { feature, level: string_from_chars(&lvl), fallback_level: 0, divisor }
        },
        None => {
            let n = first_digit_index(p);
            let f = slice_chars(p, 0, n);
            let l = slice_chars(p, n, p.len());
            assert(f@ =~= p@.take(n as int));
            assert(l@ =~= p@.skip(n as int));
            FunctionAction {
                feature: string_from_chars(&f),
                level: string_from_chars(&l),
                fallback_level: 20,
                divisor: 20,
            }
        },
    }
}

/// Reads the action string of a `Function` command, e.g. `Vibrate:16,Rotate:5`.
pub fn parse_function_actions(action_str: &str) -> (r: Vec<FunctionAction>)
    ensures
        r@.map_values(|a: FunctionAction| a@) == function_actions_spec(action_str@),
{
    let s = chars_of(action_str);
    let parts = split_chars(&s, ',');
    let ghost pv = parts.deep_view();
    let mut r: Vec<FunctionAction> = Vec::new();
    let mut i: usize = 0;
    assert(pv.take(0) =~= Seq::<Seq<char>>::empty());
    assert(r@.map_values(|a: FunctionAction| a@) =~= Seq::<FunctionActionView>::empty());
    while i < parts.len()
        invariant
            i <= parts.len(),
            pv == parts.deep_view(),
            r@.map_values(|a: FunctionAction| a@) == actions_of_parts(pv.take(i as int)),
        decreases parts.len() - i,
    {
        proof {
            assert(pv.take(i + 1).drop_last() =~= pv.take(i as int));
            assert(pv.take(i + 1).last() == pv[i as int]);
            crate::text::lemma_chars_deep_view(parts@[i as int]);
        }
        let p = trim_chars(&parts[i]);
        if p.len() > 0 {
            let a = read_part(&p);
            let ghost before = r@;
            r.push(a);
            assert(r@.map_values(|a: FunctionAction| a@) =~= before.map_values(
                |a: FunctionAction| a@,
            ).push(part_action(p@)));
        }
        i = i + 1;
    }
    assert(pv.take(parts.len() as int) =~= pv);
    if r.len() == 0 && s.len() > 0 {
        r.push(
            FunctionAction {
                feature: String::from_str("Vibrate"),
                level: String::from_str("20"),
                fallback_level: 20,
                divisor: 20,
            },
        );
        assert(r@.map_values(|a: FunctionAction| a@) =~= function_actions_spec(action_str@));
    }
    r
}

// ---------------------------------------------------------------------------
// Task ids
// ---------------------------------------------------------------------------

/// The id a task runs under: the addressed toy ids joined by commas, or
/// `_global_` when the request addresses every toy.
pub open spec fn task_id_spec(targets: Seq<Seq<char>>) -> Seq<char> {
    if targets.len() == 0 {
        all_toys_task_id()
    } else {
        comma_join(targets)
    }
}

pub fn cancellation_task_id(targets: &Vec<String>) -> (r: String)
    ensures
        r@ == task_id_spec(targets.deep_view()),
{
    if targets.len() == 0 {
        return String::from_str("_global_");
    }
    let ghost tv = targets.deep_view();
    let mut r = String::new();
    let mut i: usize = 0;
    assert(tv.take(0) =~= Seq::<Seq<char>>::empty());
    while i < targets.len()
        invariant
            i <= targets.len(),
            tv == targets.deep_view(),
            r@ == comma_join(tv.take(i as int)),
        decreases targets.len() - i,
    {
        proof {
            lemma_comma_join_push(tv.take(i as int), tv[i as int]);
            assert(tv.take(i + 1) =~= tv.take(i as int).push(tv[i as int]));
        }
        if i > 0 {
            crate::text::push_char(&mut r, ',');
        }
        r.append(targets[i].as_str());
        proof {
            if i > 0 {
                assert(r@ =~= comma_join(tv.take(i as int)) + seq![','] + tv[i as int]);
            } else {
                assert(r@ =~= tv[i as int]);
            }
        }
        i = i + 1;
    }
    assert(tv.take(targets.len() as int) =~= tv);
    r
}

// ---------------------------------------------------------------------------
// Function commands
// ---------------------------------------------------------------------------

/// What a `Function` command does apart from timing: which toys it addresses,
/// whether it cancels what runs there first, whether it only stops the toys,
/// which actions it repeats, and the id of its task.
pub struct FunctionPlan {
    pub targets: Vec<String>,
    pub cancel_previous: bool,
    pub stop_only: bool,
    pub actions: Vec<FunctionAction>,
    pub task_id: String,
}

/// The action string of a request, empty when it has none.
pub open spec fn action_text(request: LovenseCommandRequest) -> Seq<char> {
    match request.action {
        Some(a) => a@,
        None => Seq::<char>::empty(),
    }
}

pub fn plan_function(request: &LovenseCommandRequest) -> (r: FunctionPlan)
    ensures
        r.targets.deep_view() == target_toys_spec(request.toy),
        r.cancel_previous == (match request.stop_previous {
            Some(v) => v != 0,
            None => true,
        }),
        r.stop_only == eq_ignore_ascii_case_seq(action_text(*request), "stop"@),
        r.actions@.map_values(|a: FunctionAction| a@) == function_actions_spec(action_text(*request)),
        r.task_id@ == task_id_spec(target_toys_spec(request.toy)),
{
    let targets = request.get_target_toys();
    let cancel_previous = match request.stop_previous {
        Some(v) => v != 0,
        None => true,
    };
    let action = match &request.action {
        Some(a) => String::from_str(a.as_str()),
        None => String::new(),
    };
    let stop_only = eq_ignore_ascii_case(action.as_str(), "stop");
    let actions = parse_function_actions(action.as_str());
    let task_id = cancellation_task_id(&targets);
    FunctionPlan { targets, cancel_previous, stop_only, actions, task_id }
}

/// Where a repeating `Function` run (one with both a running and a pausing
/// time) stands: before running its actions, or after running them and
/// waiting the running time.
#[derive(Debug, Clone, Copy, PartialEq, Eq, Structural)]
pub enum FunctionRunPhase {
    BeforeRun,
    AfterRun,
}

/// What a repeating `Function` run does next.
#[derive(Debug, Clone, Copy, PartialEq, Eq, Structural)]
pub enum FunctionRunCommand {
    /// Send the actions, then wait the running time.
    RunThenWait,
    /// Stop the toys, then wait the pausing time.
    StopThenPause,
    /// Stop the toys and end the run.
    StopAndEnd,
}

/// The next step of a repeating `Function` run, given whether it was
/// cancelled (also while waiting) and whether its total time is up: it ends,
/// with the toys stopped, as soon as either holds; otherwise it alternates
/// running and pausing.
pub fn function_run_step(phase: FunctionRunPhase, cancelled: bool, time_up: bool) -> (r: (
    FunctionRunCommand,
    FunctionRunPhase,
))
    ensures
        cancelled || time_up ==> r.0 == FunctionRunCommand::StopAndEnd,
        !(cancelled || time_up) && phase == FunctionRunPhase::BeforeRun ==> r == (
            FunctionRunCommand::RunThenWait,
            FunctionRunPhase::AfterRun,
        ),
        !(cancelled || time_up) && phase == FunctionRunPhase::AfterRun ==> r == (
            FunctionRunCommand::StopThenPause,
            FunctionRunPhase::BeforeRun,
        ),
{
    if cancelled || time_up {
        (FunctionRunCommand::StopAndEnd, phase)
    } else {
        match phase {
            FunctionRunPhase::BeforeRun => (FunctionRunCommand::RunThenWait, FunctionRunPhase::AfterRun),
            FunctionRunPhase::AfterRun => (FunctionRunCommand::StopThenPause, FunctionRunPhase::BeforeRun),
        }
    }
}

// ---------------------------------------------------------------------------
// Pattern commands
// ---------------------------------------------------------------------------

/// What a `Pattern` command does apart from timing: which toys it addresses,
/// the step interval (at least 100 ms), the strength level texts it cycles
/// through, and the id of its task.
pub struct PatternPlan {
    pub targets: Vec<String>,
    pub interval_ms: u64,
    pub levels: Vec<String>,
    pub task_id: String,
}

/// The next tick of a running `Pattern`, given whether it was cancelled and
/// whether its total time is up: it ends (`None`) as soon as either holds;
/// otherwise it plays level `idx % count` of the `count` levels and moves on to
/// the next one, wrapping around after the last.
pub fn pattern_tick(cancelled: bool, time_up: bool, idx: usize, count: usize) -> (r: Option<(usize, usize)>)
    requires
        count > 0,
    ensures
        (cancelled || time_up) <==> r is None,
        r matches Some((chosen, next)) ==> chosen == idx % count && next == (idx + 1) % (count as int),
{
    if cancelled || time_up {
        return None;
    }
    let chosen = idx % count;
    let next = if chosen + 1 == count { 0 } else { chosen + 1 };
    assert(next == (idx + 1) % (count as int)) by (nonlinear_arith)
        requires
            count > 0,
            chosen == idx % count,
            next == (if chosen + 1 == count { 0 } else { chosen + 1 }),
    ;
    Some((chosen, next))
}

/// The text of an optional string, or `default` when absent.
pub open spec fn text_or(o: Option<String>, default: Seq<char>) -> Seq<char> {
    match o {
        Some(s) => s@,
        None => default,
    }
}

/// The `;`-separated strength levels, trimmed.
pub open spec fn strength_levels_spec(strength: Seq<char>) -> Seq<Seq<char>> {
    split_seq(strength, ';').map_values(|p: Seq<char>| trim_seq(p))
}

pub fn split_strength_levels(strength: &str) -> (r: Vec<String>)
    ensures
        r.deep_view() == strength_levels_spec(strength@),
{
    let s = chars_of(strength);
    let parts = split_chars(&s, ';');
    let ghost pv = parts.deep_view();
    let mut r: Vec<String> = Vec::new();
    let mut i: usize = 0;
    assert(r.deep_view() =~= pv.take(0).map_values(|p: Seq<char>| trim_seq(p)));
    while i < parts.len()
        invariant
            i <= parts.len(),
            pv == parts.deep_view(),
            r.deep_view() == pv.take(i as int).map_values(|p: Seq<char>| trim_seq(p)),
        decreases parts.len() - i,
    {
        proof {
            crate::text::lemma_chars_deep_view(parts@[i as int]);
        }
        let t = string_from_chars(&trim_chars(&parts[i]));
        let ghost before = r.deep_view();
        let ghost raw = r@;
        let ghost tg = t;
        r.push(t);
        proof {
            assert(r@ == raw.push(tg));
            assert(r.deep_view() =~= before.push(tg@)) by {
                assert forall|k: int| 0 <= k < raw.len() implies #[trigger] r.deep_view()[k]
                    == before[k] by {
                    assert(r@[k] == raw[k]);
                }
            }
            assert(pv.take(i + 1).map_values(|p: Seq<char>| trim_seq(p)) =~= pv.take(
                i as int,
            ).map_values(|p: Seq<char>| trim_seq(p)).push(trim_seq(pv[i as int])));
        }
        i = i + 1;
    }
    assert(pv.take(parts.len() as int) =~= pv);
    r
}

pub fn plan_pattern(request: &LovenseCommandRequest) -> (r: PatternPlan)
    ensures
        r.targets.deep_view() == target_toys_spec(request.toy),
        r.interval_ms >= 100,
        r.interval_ms == (if rule_interval_spec(text_or(request.rule, Seq::<char>::empty()))
            < 100 {
            100
        } else {
            rule_interval_spec(text_or(request.rule, Seq::<char>::empty()))
        }),
        r.levels.deep_view() == strength_levels_spec(text_or(request.strength, "20"@)),
        r.task_id@ == task_id_spec(target_toys_spec(request.toy)),
{
    let targets = request.get_target_toys();
    let interval = match &request.rule {
        Some(rule) => parse_pattern_rule_interval(rule.as_str()),
        None => parse_pattern_rule_interval(""),
    };
    proof {
        assert(""@ =~= Seq::<char>::empty()) by {
            reveal_strlit("");
        }
    }
    let interval_ms = if interval < 100 {
        100
    } else {
        interval
    };
    let levels = match &request.strength {
        Some(s) => split_strength_levels(s.as_str()),
        None => split_strength_levels("20"),
    };
    let task_id = cancellation_task_id(&targets);
    PatternPlan { targets, interval_ms, levels, task_id }
}

// ---------------------------------------------------------------------------
// PatternV2 commands
// ---------------------------------------------------------------------------

/// The PatternV2 sub-commands.
#[derive(Debug, Clone, Copy, PartialEq, Eq, Structural)]
pub enum PatternV2Command {
    Setup,
    Play,
    InitPlay,
    Stop,
    SyncTime,
    Other,
}

pub open spec fn pattern_v2_of_lower(name: Seq<char>) -> PatternV2Command {
    if name == "setup"@ {
        PatternV2Command::Setup
    } else if name == "play"@ {
        PatternV2Command::Play
    } else if name == "initplay"@ {
        PatternV2Command::InitPlay
    } else if name == "stop"@ {
        PatternV2Command::Stop
    } else if name == "synctime"@ {
        PatternV2Command::SyncTime
    } else {
        PatternV2Command::Other
    }
}

/// The sub-command of a PatternV2 request: its type (default `Setup`)
/// compared without regard to case.
pub fn classify_pattern_v2(req_type: &Option<String>) -> (r: PatternV2Command)
    ensures
        r == pattern_v2_of_lower(unicode_lowercase(text_or(*req_type, "Setup"@))),
        is_ascii_chars(text_or(*req_type, "Setup"@)) ==> r == pattern_v2_of_lower(
            ascii_lowercase(text_or(*req_type, "Setup"@)),
        ),
{
    let lower = match req_type {
        Some(t) => to_lowercase(t.as_str()),
        None => to_lowercase("Setup"),
    };
    pattern_v2_of_lowercase(lower.as_str())
}

/// The PatternV2 sub-command an already lower-cased type names.
pub fn pattern_v2_of_lowercase(lower: &str) -> (r: PatternV2Command)
    ensures
        r == pattern_v2_of_lower(lower@),
{
    let v = chars_of(lower);
    if str_equals(&v, "setup") {
        PatternV2Command::Setup
    } else if str_equals(&v, "play") {
        PatternV2Command::Play
    } else if str_equals(&v, "initplay") {
        PatternV2Command::InitPlay
    } else if str_equals(&v, "stop") {
        PatternV2Command::Stop
    } else if str_equals(&v, "synctime") {
        PatternV2Command::SyncTime
    } else {
        PatternV2Command::Other
    }
}

/// The key under which the PatternV2 timeline is stored.
pub open spec fn default_pattern_key() -> Seq<char> {
    "_default_"@
}

/// What the server does for a PatternV2 request after the stored timeline is
/// updated.
pub enum PatternV2Plan {
    /// Nothing more.
    Done,
    /// Plays `actions`, after cancelling the tasks of the addressed toys when
    /// `cancel_first` holds.
    Play { cancel_first: bool, actions: Vec<PatternAction> },
    /// Cancels the tasks of the addressed toys and stops them.
    Stop,
}

/// The timeline a request carries, empty when it carries none.
pub open spec fn request_actions(request: LovenseCommandRequest) -> Seq<PatternAction> {
    match request.actions {
        Some(a) => a@,
        None => Seq::<PatternAction>::empty(),
    }
}

fn copy_request_actions(request: &LovenseCommandRequest) -> (r: Vec<PatternAction>)
    ensures
        r@ == request_actions(*request),
{
    match &request.actions {
        Some(a) => copy_actions(a),
        None => Vec::new(),
    }
}

/// The stored PatternV2 timeline, empty when none is stored.
pub open spec fn stored_timeline(s: Entries<Vec<PatternAction>>) -> Seq<PatternAction> {
    match value_of(s, default_pattern_key()) {
        Some(a) => a@,
        None => Seq::<PatternAction>::empty(),
    }
}

/// The kind of a PatternV2 request: its `type` (default `Setup`), compared
/// without regard to case (for an ASCII type, to ASCII case, as
/// [`plan_pattern_v2`] and [`classify_pattern_v2`] state).
pub open spec fn pattern_v2_kind(request: LovenseCommandRequest) -> PatternV2Command {
    pattern_v2_of_lower(unicode_lowercase(text_or(request.req_type, "Setup"@)))
}

/// The stored timeline after a request of `kind`: `Setup` and `InitPlay`
/// store the request's timeline, the others keep what was stored.
pub open spec fn timeline_after(
    kind: PatternV2Command,
    stored: Seq<PatternAction>,
    request: LovenseCommandRequest,
) -> Seq<PatternAction> {
    match kind {
        PatternV2Command::Setup => request_actions(request),
        PatternV2Command::InitPlay => request_actions(request),
        _ => stored,
    }
}

/// Whether `r` is what is left to do for a request of `kind`, with `stored`
/// the timeline stored before it: `Play` plays the stored timeline after
/// cancelling; `InitPlay` plays the request's, cancelling first only when
/// `stopPrevious` is 1; `Stop` stops; the others leave nothing to do.
pub open spec fn pattern_v2_plan_is(
    r: PatternV2Plan,
    kind: PatternV2Command,
    stored: Seq<PatternAction>,
    request: LovenseCommandRequest,
) -> bool {
    match kind {
        PatternV2Command::Play => r matches PatternV2Plan::Play { cancel_first, actions }
            && cancel_first && actions@ == stored,
        PatternV2Command::InitPlay => r matches PatternV2Plan::Play { cancel_first, actions }
            && cancel_first == (request.stop_previous == Some(1i32)) && actions@
            == request_actions(request),
        PatternV2Command::Stop => r is Stop,
        _ => r is Done,
    }
}

/// Applies a PatternV2 request to the stored timelines and says what is left
/// to do (see [`timeline_after`] and [`pattern_v2_plan_is`]). Only the
/// timeline under the PatternV2 key changes, and only for `Setup` and
/// `InitPlay`.
pub fn plan_pattern_v2(store: &mut StringKeyedMap<Vec<PatternAction>>, request: &LovenseCommandRequest) -> (r: PatternV2Plan)
    ensures
        stored_timeline(final(store)@) == timeline_after(
            pattern_v2_kind(*request),
            stored_timeline(old(store)@),
            *request,
        ),
        pattern_v2_plan_is(r, pattern_v2_kind(*request), stored_timeline(old(store)@), *request),
        forall|key: Seq<char>|
            key != default_pattern_key() ==> #[trigger] value_of(final(store)@, key) == value_of(
                old(store)@,
                key,
            ),
        !(pattern_v2_kind(*request) is Setup || pattern_v2_kind(*request) is InitPlay)
            ==> final(store)@ == old(store)@,
        is_ascii_chars(text_or(request.req_type, "Setup"@)) ==> pattern_v2_kind(*request)
            == pattern_v2_of_lower(ascii_lowercase(text_or(request.req_type, "Setup"@))),
{
    store.keys_are_unique();
    let kind = classify_pattern_v2(&request.req_type);
    match kind {
        PatternV2Command::Setup => {
            let actions = copy_request_actions(request);
            let ghost av = actions;
            let _ = store.insert(String::from_str("_default_"), actions);
            proof {
                lemma_stored_after_write(old(store)@, av);
            }
            PatternV2Plan::Done
        },
        PatternV2Command::Play => {
            let actions = match store.get_actions("_default_") {
                Some(a) => a,
                None => Vec::new(),
            };
            PatternV2Plan::Play { cancel_first: true, actions }
        },
        PatternV2Command::InitPlay => {
            let cancel_first = match request.stop_previous {
                Some(v) => v == 1,
                None => false,
            };
            let actions = copy_request_actions(request);
            let stored = copy_actions(&actions);
            let ghost sv = stored;
            let _ = store.insert(String::from_str("_default_"), stored);
            proof {
                lemma_stored_after_write(old(store)@, sv);
            }
            PatternV2Plan::Play { cancel_first, actions }
        },
        PatternV2Command::Stop => PatternV2Plan::Stop,
        _ => PatternV2Plan::Done,
    }
}

proof fn lemma_stored_after_write(s: Entries<Vec<PatternAction>>, v: Vec<PatternAction>)
    requires
        keys_unique(s),
    ensures
        stored_timeline(put(s, default_pattern_key(), v)) == v@,
        forall|key: Seq<char>|
            key != default_pattern_key() ==> #[trigger] value_of(put(s, default_pattern_key(), v), key)
                == value_of(s, key),
{
    crate::store::law_read_after_write(s, default_pattern_key(), v);
    assert forall|key: Seq<char>| key != default_pattern_key() implies #[trigger] value_of(
        put(s, default_pattern_key(), v),
        key,
    ) == value_of(s, key) by {
        crate::store::law_write_keeps_other_keys(s, default_pattern_key(), v, key);
    }
}

/// `Setup` followed by `Play`: the `Play` plays, after cancelling, exactly the
/// timeline that `Setup` stored, whatever was stored before and whatever the
/// `Play` request itself carries, and leaves the stored timeline as it was.
pub proof fn law_setup_then_play(
    before: Seq<PatternAction>,
    setup: LovenseCommandRequest,
    play: LovenseCommandRequest,
    r: PatternV2Plan,
)
    requires
        pattern_v2_kind(setup) is Setup,
        pattern_v2_kind(play) is Play,
        pattern_v2_plan_is(r, PatternV2Command::Play, timeline_after(PatternV2Command::Setup, before, setup), play),
    ensures
        r matches PatternV2Plan::Play { cancel_first, actions } && cancel_first && actions@
            == request_actions(setup),
        timeline_after(
            PatternV2Command::Play,
            timeline_after(PatternV2Command::Setup, before, setup),
            play,
        ) == request_actions(setup),
{
}

// ---------------------------------------------------------------------------
// Playing a PatternV2 timeline
// ---------------------------------------------------------------------------

/// When, counted from the start of playing, to move to which position.
#[derive(Debug, Clone, Copy, PartialEq, Eq, Structural)]
pub struct PositionStep {
    pub at_ms: u64,
    pub percent: u32,
}

/// `start + offset`, wrapping around past `u64::MAX` as the shipped (release)
/// build of the server computes it.
pub open spec fn effective_start(start: u64, offset: u64) -> u64 {
    if start + offset <= u64::MAX {
        (start + offset) as u64
    } else {
        (start + offset - 0x1_0000_0000_0000_0000) as u64
    }
}

/// The actions at or after `from`, in order.
pub open spec fn actions_from(actions: Seq<PatternAction>, from: u64) -> Seq<PatternAction>
    decreases actions.len(),
{
    if actions.len() == 0 {
        Seq::<PatternAction>::empty()
    } else {
        let p = actions_from(actions.drop_last(), from);
        if actions.last().ts >= from {
            p.push(actions.last())
        } else {
            p
        }
    }
}

/// The actions that are played: those at or after the effective start, or
/// all of them when none is.
pub open spec fn played_actions(actions: Seq<PatternAction>, start: u64, offset: u64) -> Seq<
    PatternAction,
> {
    let f = actions_from(actions, effective_start(start, offset));
    if f.len() == 0 {
        actions
    } else {
        f
    }
}

/// The step of an action, timed from the first played action; positions
/// above 100 count as 100.
pub open spec fn step_of(a: PatternAction, base: u64) -> PositionStep {
    PositionStep {
        at_ms: if a.ts >= base {
            (a.ts - base) as u64
        } else {
            0
        },
        percent: if a.pos <= 100 {
            a.pos
        } else {
            100
        },
    }
}

/// The steps of playing a timeline.
pub open spec fn schedule_spec(actions: Seq<PatternAction>, start: u64, offset: u64) -> Seq<
    PositionStep,
> {
    let p = played_actions(actions, start, offset);
    if p.len() == 0 {
        Seq::<PositionStep>::empty()
    } else {
        p.map_values(|a: PatternAction| step_of(a, p[0].ts))
    }
}

/// The steps of playing a PatternV2 timeline from `start_time + offset_time`.
pub fn pattern_v2_schedule(actions: &Vec<PatternAction>, start_time: u64, offset_time: u64) -> (r:
    Vec<PositionStep>)
    ensures
        r@ == schedule_spec(actions@, start_time, offset_time),
{
    let from: u64 = if start_time <= u64::MAX - offset_time {
        start_time + offset_time
    } else {
        start_time - (u64::MAX - offset_time) - 1
    };
    assert(from == effective_start(start_time, offset_time));
    let mut played: Vec<PatternAction> = Vec::new();
    let mut i: usize = 0;
    assert(actions@.take(0) =~= Seq::<PatternAction>::empty());
    while i < actions.len()
        invariant
            i <= actions.len(),
            played@ == actions_from(actions@.take(i as int), from),
        decreases actions.len() - i,
    {
        proof {
            assert(actions@.take(i + 1).drop_last() =~= actions@.take(i as int));
            assert(actions@.take(i + 1).last() == actions@[i as int]);
        }
        if actions[i].ts >= from {
            played.push(actions[i]);
        }
        i = i + 1;
    }
    assert(actions@.take(actions.len() as int) =~= actions@);
    if played.len() == 0 {
        played = copy_actions(actions);
    }
    let ghost p = played@;
    let mut r: Vec<PositionStep> = Vec::new();
    if played.len() == 0 {
        return r;
    }
    let base = played[0].ts;
    let mut k: usize = 0;
    while k < played.len()
        invariant
            k <= played.len(),
            p == played@,
            p.len() > 0,
            base == p[0].ts,
            r@ == p.take(k as int).map_values(|a: PatternAction| step_of(a, base)),
        decreases played.len() - k,
    {
        let a = played[k];
        let at_ms: u64 = if a.ts >= base {
            a.ts - base
        } else {
            0
        };
        let percent: u32 = if a.pos <= 100 {
            a.pos
        } else {
            100
        };
        r.push(PositionStep { at_ms, percent });
        assert(p.take(k + 1).map_values(|a: PatternAction| step_of(a, base)) =~= p.take(
            k as int,
        ).map_values(|a: PatternAction| step_of(a, base)).push(step_of(p[k as int], base)));
        k = k + 1;
    }
    assert(p.take(p.len() as int) =~= p);
    r
}

// ---------------------------------------------------------------------------
// Presets
// ---------------------------------------------------------------------------

/// The built-in waveforms of `Preset`; an unknown name gives steady full
/// strength.
#[derive(Debug, Clone, Copy, PartialEq, Eq, Structural)]
pub enum PresetKind {
    Pulse,
    Wave,
    Fireworks,
    Earthquake,
    Steady,
}

pub open spec fn preset_of_lower(name: Seq<char>) -> PresetKind {
    if name == "pulse"@ {
        PresetKind::Pulse
    } else if name == "wave"@ {
        PresetKind::Wave
    } else if name == "fireworks"@ {
        PresetKind::Fireworks
    } else if name == "earthquake"@ {
        PresetKind::Earthquake
    } else {
        PresetKind::Steady
    }
}

/// The waveform a `Preset` request names (default `pulse`), compared without
/// regard to case.
pub fn classify_preset(name: &Option<String>) -> (r: PresetKind)
    ensures
        r == preset_of_lower(unicode_lowercase(text_or(*name, "pulse"@))),
        is_ascii_chars(text_or(*name, "pulse"@)) ==> r == preset_of_lower(
            ascii_lowercase(text_or(*name, "pulse"@)),
        ),
{
    let lower = match name {
        Some(n) => to_lowercase(n.as_str()),
        None => to_lowercase("pulse"),
    };
    preset_of_lowercase(lower.as_str())
}

/// The waveform an already lower-cased preset name selects.
pub fn preset_of_lowercase(lower: &str) -> (r: PresetKind)
    ensures
        r == preset_of_lower(lower@),
{
    let v = chars_of(lower);
    if str_equals(&v, "pulse") {
        PresetKind::Pulse
    } else if str_equals(&v, "wave") {
        PresetKind::Wave
    } else if str_equals(&v, "fireworks") {
        PresetKind::Fireworks
    } else if str_equals(&v, "earthquake") {
        PresetKind::Earthquake
    } else {
        PresetKind::Steady
    }
}

// ---------------------------------------------------------------------------
// Addressed devices
// ---------------------------------------------------------------------------

/// A device is addressed by one of `targets` when that target equals its toy
/// id or its name, ignoring ASCII case.
pub open spec fn device_selected(d: DeviceInfo, targets: Seq<Seq<char>>) -> bool {
    exists|t: int|
        0 <= t < targets.len() && (eq_ignore_ascii_case_seq(
            #[trigger] targets[t],
            toy_id_of(d.name@, d.index),
        ) || eq_ignore_ascii_case_seq(targets[t], d.name@))
}

/// The positions, in order, of the devices a request addresses; every device
/// when it names no toy.
pub open spec fn selected_indices(devices: Seq<DeviceInfo>, targets: Seq<Seq<char>>) -> Seq<usize>
    decreases devices.len(),
{
    if devices.len() == 0 {
        Seq::<usize>::empty()
    } else {
        let p = selected_indices(devices.drop_last(), targets);
        if targets.len() == 0 || device_selected(devices.last(), targets) {
            p.push((devices.len() - 1) as usize)
        } else {
            p
        }
    }
}

fn matches_any(targets: &Vec<String>, id: &Vec<char>, name: &Vec<char>) -> (r: bool)
    ensures
        r == exists|t: int|
            0 <= t < targets.len() && (eq_ignore_ascii_case_seq(
                #[trigger] targets.deep_view()[t],
                id@,
            ) || eq_ignore_ascii_case_seq(targets.deep_view()[t], name@)),
{
    let mut i: usize = 0;
    while i < targets.len()
        invariant
            i <= targets.len(),
            forall|t: int|
                0 <= t < i ==> !(eq_ignore_ascii_case_seq(#[trigger] targets.deep_view()[t], id@)
                    || eq_ignore_ascii_case_seq(targets.deep_view()[t], name@)),
        decreases targets.len() - i,
    {
        let t = chars_of(targets[i].as_str());
        assert(targets.deep_view()[i as int] == targets@[i as int]@);
        if eq_ignore_ascii_case_chars(&t, id) || eq_ignore_ascii_case_chars(&t, name) {
            return true;
        }
        i = i + 1;
    }
    false
}

/// The positions of the devices a request for `target_ids` addresses.
pub fn resolve_target_devices(devices: &Vec<DeviceInfo>, target_ids: &Vec<String>) -> (r: Vec<
    usize,
>)
    ensures
        r@ == selected_indices(devices@, target_ids.deep_view()),
{
    let ghost tv = target_ids.deep_view();
    let mut r: Vec<usize> = Vec::new();
    let mut i: usize = 0;
    assert(devices@.take(0) =~= Seq::<DeviceInfo>::empty());
    while i < devices.len()
        invariant
            i <= devices.len(),
            tv == target_ids.deep_view(),
            r@ == selected_indices(devices@.take(i as int), tv),
        decreases devices.len() - i,
    {
        proof {
            assert(devices@.take(i + 1).drop_last() =~= devices@.take(i as int));
            assert(devices@.take(i + 1).last() == devices@[i as int]);
        }
        let selected = if target_ids.len() == 0 {
            true
        } else {
            let id = generate_toy_id(&devices[i]);
            let idc = chars_of(id.as_str());
            let namec = chars_of(devices[i].name.as_str());
            matches_any(target_ids, &idc, &namec)
        };
        if selected {
            r.push(i);
        }
        i = i + 1;
    }
    assert(devices@.take(devices.len() as int) =~= devices@);
    r
}

// ---------------------------------------------------------------------------
// Laws
// ---------------------------------------------------------------------------

/// Playing a timeline starts at once with its first played action, moves to
/// positions of at most 100 percent, and has one step per played action; an
/// empty timeline has no step.
pub proof fn law_schedule_shape(actions: Seq<PatternAction>, start: u64, offset: u64)
    ensures
        schedule_spec(actions, start, offset).len() == played_actions(actions, start, offset).len(),
        actions.len() == 0 ==> schedule_spec(actions, start, offset).len() == 0,
        actions.len() > 0 ==> schedule_spec(actions, start, offset).len() > 0 && schedule_spec(
            actions,
            start,
            offset,
        )[0].at_ms == 0,
        forall|i: int|
            0 <= i < schedule_spec(actions, start, offset).len() ==> #[trigger] schedule_spec(
                actions,
                start,
                offset,
            )[i].percent <= 100,
{
}

/// Every step plays an action of the timeline, in timeline order, and the
/// played actions are those at or after the effective start whenever there
/// are any.
pub proof fn law_played_actions_from_start(actions: Seq<PatternAction>, start: u64, offset: u64)
    ensures
        actions_from(actions, effective_start(start, offset)).len() > 0 ==> forall|i: int|
            0 <= i < played_actions(actions, start, offset).len() ==> #[trigger] played_actions(
                actions,
                start,
                offset,
            )[i].ts >= effective_start(start, offset),
{
    lemma_actions_from_bound(actions, effective_start(start, offset));
}

proof fn lemma_actions_from_bound(actions: Seq<PatternAction>, from: u64)
    ensures
        forall|i: int| 0 <= i < actions_from(actions, from).len() ==> #[trigger] actions_from(actions, from)[i].ts >= from,
    decreases actions.len(),
{
    if actions.len() > 0 {
        lemma_actions_from_bound(actions.drop_last(), from);
        let p = actions_from(actions.drop_last(), from);
        assert forall|i: int| 0 <= i < actions_from(actions, from).len() implies #[trigger] actions_from(actions, from)[i].ts >= from by {
            if i < p.len() {
                assert(actions_from(actions, from)[i] == p[i]);
            }
        }
    }
}

/// Every addressed device is one of the given devices, listed once, in order.
pub proof fn law_selected_indices_in_order(devices: Seq<DeviceInfo>, targets: Seq<Seq<char>>)
    requires
        devices.len() <= usize::MAX,
    ensures
        forall|i: int|
            0 <= i < selected_indices(devices, targets).len() ==> #[trigger] selected_indices(
                devices,
                targets,
            )[i] < devices.len(),
        forall|i: int, j: int|
            0 <= i < j < selected_indices(devices, targets).len() ==> #[trigger] selected_indices(
                devices,
                targets,
            )[i] < #[trigger] selected_indices(devices, targets)[j],
        targets.len() == 0 ==> selected_indices(devices, targets).len() == devices.len(),
    decreases devices.len(),
{
    if devices.len() > 0 {
        law_selected_indices_in_order(devices.drop_last(), targets);
        let p = selected_indices(devices.drop_last(), targets);
        let s = selected_indices(devices, targets);
        assert forall|i: int| 0 <= i < s.len() implies #[trigger] s[i] < devices.len() by {
            if i < p.len() {
                assert(s[i] == p[i]);
            }
        }
        assert forall|i: int, j: int| 0 <= i < j < s.len() implies #[trigger] s[i] < #[trigger] s[j] by {
            if j < p.len() {
                assert(s[i] == p[i] && s[j] == p[j]);
            } else {
                assert(s[i] == p[i]);
                assert(p[i] < devices.drop_last().len());
                assert(s[j] == (devices.len() - 1) as usize);
            }
        }
    }
}


/// The divisor of a feature's level, for every feature name: pump and depth
/// levels are divided by 3, stroke levels by 100, all others by 20, the name
/// compared without regard to ASCII case.
pub proof fn law_divisor_by_feature(f: Seq<char>)
    ensures
        divisor_for_lower(ascii_lowercase(f)) == (if eq_ignore_ascii_case_seq(f, "pump"@)
            || eq_ignore_ascii_case_seq(f, "depth"@) {
            3nat
        } else if eq_ignore_ascii_case_seq(f, "stroke"@) {
            100nat
        } else {
            20nat
        }),
{
    reveal_strlit("pump");
    assert(ascii_lowercase("pump"@) =~= "pump"@);
    lemma_lowercases_to(f, "pump"@);
    reveal_strlit("depth");
    assert(ascii_lowercase("depth"@) =~= "depth"@);
    lemma_lowercases_to(f, "depth"@);
    reveal_strlit("stroke");
    assert(ascii_lowercase("stroke"@) =~= "stroke"@);
    lemma_lowercases_to(f, "stroke"@);
}

/// The preset a name selects, for every name: each of `pulse`, `wave`,
/// `fireworks` and `earthquake` selects its own waveform and any other name
/// the steady one, names compared without regard to ASCII case.
pub proof fn law_preset_by_name(n: Seq<char>)
    ensures
        preset_of_lower(ascii_lowercase(n)) == (if eq_ignore_ascii_case_seq(n, "pulse"@) {
            PresetKind::Pulse
        } else if eq_ignore_ascii_case_seq(n, "wave"@) {
            PresetKind::Wave
        } else if eq_ignore_ascii_case_seq(n, "fireworks"@) {
            PresetKind::Fireworks
        } else if eq_ignore_ascii_case_seq(n, "earthquake"@) {
            PresetKind::Earthquake
        } else {
            PresetKind::Steady
        }),
{
    reveal_strlit("pulse");
    assert(ascii_lowercase("pulse"@) =~= "pulse"@);
    lemma_lowercases_to(n, "pulse"@);
    reveal_strlit("wave");
    assert(ascii_lowercase("wave"@) =~= "wave"@);
    lemma_lowercases_to(n, "wave"@);
    reveal_strlit("fireworks");
    assert(ascii_lowercase("fireworks"@) =~= "fireworks"@);
    lemma_lowercases_to(n, "fireworks"@);
    reveal_strlit("earthquake");
    assert(ascii_lowercase("earthquake"@) =~= "earthquake"@);
    lemma_lowercases_to(n, "earthquake"@);
}


proof fn lemma_actions_from_filters(actions: Seq<PatternAction>, from: int)
    requires
        0 <= from <= u64::MAX,
    ensures
        actions_from(actions, from as u64) == actions.filter(|a: PatternAction| a.ts >= from),
    decreases actions.len(),
{
    reveal(Seq::filter);
    if actions.len() > 0 {
        lemma_actions_from_filters(actions.drop_last(), from);
    }
}

/// Playing a PatternV2 timeline from `start + offset` (wrapping past
/// `u64::MAX`): the actions played are those whose timestamp is at or after
/// that moment, in timeline order, or the whole timeline when none is; there
/// is one step per played action, and step `i` moves, at the timestamp of
/// played action `i` less that of the first played action (0 when earlier),
/// to that action's position, at most 100.
pub proof fn law_schedule_timing(actions: Seq<PatternAction>, start: u64, offset: u64)
    ensures
        ({
            let from = (start + offset) % 0x1_0000_0000_0000_0000;
            let f = actions.filter(|a: PatternAction| a.ts >= from);
            let p = if f.len() > 0 {
                f
            } else {
                actions
            };
            let st = schedule_spec(actions, start, offset);
            &&& st.len() == p.len()
            &&& forall|i: int|
                0 <= i < st.len() ==> (#[trigger] st[i]).at_ms == (if p[i].ts >= p[0].ts {
                    p[i].ts - p[0].ts
                } else {
                    0
                }) && st[i].percent == (if p[i].pos <= 100 {
                    p[i].pos as int
                } else {
                    100
                })
        }),
{
    let from = (start + offset) % 0x1_0000_0000_0000_0000;
    assert(effective_start(start, offset) == from);
    lemma_actions_from_filters(actions, from);
}


/// The devices a request addresses: device `i` is among them exactly when
/// the request names no toy, or one of the toy ids it names equals the
/// device's toy id or its name up to ASCII case; together with
/// [`law_selected_indices_in_order`], every addressed device comes once, in
/// device order.
pub proof fn law_selection_membership(devices: Seq<DeviceInfo>, targets: Seq<Seq<char>>)
    requires
        devices.len() <= usize::MAX,
    ensures
        forall|i: int|
            #![trigger devices[i]]
            0 <= i < devices.len() ==> (selected_indices(devices, targets).contains(i as usize) <==> (
            targets.len() == 0 || exists|t: int|
                0 <= t < targets.len() && (eq_ignore_ascii_case_seq(
                    #[trigger] targets[t],
                    toy_id_of(devices[i].name@, devices[i].index),
                ) || eq_ignore_ascii_case_seq(targets[t], devices[i].name@)))),
    decreases devices.len(),
{
    if devices.len() > 0 {
        let q = devices.drop_last();
        law_selection_membership(q, targets);
        law_selected_indices_in_order(q, targets);
        let p = selected_indices(q, targets);
        let s = selected_indices(devices, targets);
        let n = devices.len() - 1;
        assert forall|i: int|
            #![trigger devices[i]]
            0 <= i < devices.len() implies (s.contains(i as usize) <==> (targets.len() == 0
                || device_selected(devices[i], targets))) by {
            if i < n {
                assert(devices[i] == q[i]);
                if s.contains(i as usize) {
                    let k = choose|k: int| 0 <= k < s.len() && s[k] == i as usize;
                    if k < p.len() {
                        assert(s[k] == p[k]);
                    }
                }
                if p.contains(i as usize) {
                    let k = choose|k: int| 0 <= k < p.len() && p[k] == i as usize;
                    assert(s[k] == p[k]);
                }
            } else {
                if s.contains(i as usize) {
                    let k = choose|k: int| 0 <= k < s.len() && s[k] == i as usize;
                    if k < p.len() {
                        assert(s[k] == p[k]);
                        assert(p[k] < q.len());
                    }
                }
                if targets.len() == 0 || device_selected(devices[i], targets) {
                    assert(s[s.len() - 1] == n as usize);
                }
            }
        }
    }
}


/// The PatternV2 sub-command a type names, for every type: `Setup`, `Play`,
/// `InitPlay`, `Stop` and `SyncTime` each select their own, any other type
/// none, compared without regard to ASCII case.
#[verifier::spinoff_prover]
pub proof fn law_pattern_v2_by_type(n: Seq<char>)
    ensures
        pattern_v2_of_lower(ascii_lowercase(n)) == (if eq_ignore_ascii_case_seq(n, "setup"@) {
            PatternV2Command::Setup
        } else if eq_ignore_ascii_case_seq(n, "play"@) {
            PatternV2Command::Play
        } else if eq_ignore_ascii_case_seq(n, "initplay"@) {
            PatternV2Command::InitPlay
        } else if eq_ignore_ascii_case_seq(n, "stop"@) {
            PatternV2Command::Stop
        } else if eq_ignore_ascii_case_seq(n, "synctime"@) {
            PatternV2Command::SyncTime
        } else {
            PatternV2Command::Other
        }),
{
    reveal_strlit("setup");
    assert(ascii_lowercase("setup"@) =~= "setup"@);
    lemma_lowercases_to(n, "setup"@);
    reveal_strlit("play");
    assert(ascii_lowercase("play"@) =~= "play"@);
    lemma_lowercases_to(n, "play"@);
    reveal_strlit("initplay");
    assert(ascii_lowercase("initplay"@) =~= "initplay"@);
    lemma_lowercases_to(n, "initplay"@);
    reveal_strlit("stop");
    assert(ascii_lowercase("stop"@) =~= "stop"@);
    lemma_lowercases_to(n, "stop"@);
    reveal_strlit("synctime");
    assert(ascii_lowercase("synctime"@) =~= "synctime"@);
    lemma_lowercases_to(n, "synctime"@);
    let l = ascii_lowercase(n);
    if l == "setup"@ {
        assert(l.len() == 5 && l[0] == 's' && l[l.len() - 1] == 'p');
    }
    if l == "play"@ {
        assert(l.len() == 4 && l[0] == 'p' && l[l.len() - 1] == 'y');
    }
    if l == "initplay"@ {
        assert(l.len() == 8 && l[0] == 'i' && l[l.len() - 1] == 'y');
    }
    if l == "stop"@ {
        assert(l.len() == 4 && l[0] == 's' && l[l.len() - 1] == 'p');
    }
    if l == "synctime"@ {
        assert(l.len() == 8 && l[0] == 's' && l[l.len() - 1] == 'e');
    }
}

} // verus!
