//! The decisions of the Lovense HTTP server: how query and form parameters
//! become a command request, which handler a command goes to, and what the
//! handlers answer.
use vstd::prelude::*;
use vstd::string::StringExecFns;
use crate::external::{decode_form, form_pairs_of, to_lowercase, unicode_lowercase};
use crate::lovense::{holds_text, LovenseCommandRequest, LovenseResponse, ToySelector};
use crate::text::{
    ascii_lowercase, is_ascii_chars, lemma_ascii_lowercase_ignores_case, lemma_lowercases_to,
    chars_of, eq_ignore_ascii_case, eq_ignore_ascii_case_seq, find_char, find_seq,
    first_occurrence, first_pos, first_where, lemma_first_where, parse_u64_chars, parse_u64_seq,
    slice_chars, split_chars, split_seq, str_equals, string_from_chars, trim_chars, trim_end_char,
    trim_end_char_seq, trim_seq,
};

verus! {

// ---------------------------------------------------------------------------
// Query and form parameters
// ---------------------------------------------------------------------------

/// The characters of an optional string.
pub open spec fn opt_text(o: Option<String>) -> Option<Seq<char>> {
    match o {
        Some(s) => Some(s@),
        None => None,
    }
}

/// `a`, or `b` when `a` is absent.
pub open spec fn or_else(a: Option<Seq<char>>, b: Option<Seq<char>>) -> Option<Seq<char>> {
    if a is Some {
        a
    } else {
        b
    }
}

/// The value of `key` among decoded `key=value` parameters; when a key occurs
/// more than once the last value counts, as when they are gathered into a map.
pub open spec fn param_value(params: Seq<(Seq<char>, Seq<char>)>, key: Seq<char>) -> Option<
    Seq<char>,
>
    decreases params.len(),
{
    if params.len() == 0 {
        None
    } else if params.last().0 == key {
        Some(params.last().1)
    } else {
        param_value(params.drop_last(), key)
    }
}

/// The value of `key` among the parameters (the last one when repeated).
pub fn param_lookup(params: &Vec<(String, String)>, key: &str) -> (r: Option<String>)
    ensures
        opt_text(r) == param_value(params.deep_view(), key@),
{
    let ghost pv = params.deep_view();
    let mut j: usize = params.len();
    assert(pv.take(pv.len() as int) =~= pv);
    while j > 0
        invariant
            j <= params.len(),
            pv == params.deep_view(),
            param_value(pv, key@) == param_value(pv.take(j as int), key@),
        decreases j,
    {
        let ghost t = pv.take(j as int);
        proof {
            assert(t.drop_last() =~= pv.take(j - 1));
            assert(t.last() == pv[j - 1]);
            assert(pv[j - 1].0 == params@[j - 1].0@);
            assert(pv[j - 1].1 == params@[j - 1].1@);
        }
        let k = chars_of(params[j - 1].0.as_str());
        if str_equals(&k, key) {
            return Some(params[j - 1].1.clone());
        }
        j = j - 1;
    }
    None
}

/// A request's `toy` field holds the text `v`, or is absent when `v` is.
pub open spec fn toy_text_is(toy: Option<ToySelector>, v: Option<Seq<char>>) -> bool {
    match v {
        None => toy is None,
        Some(t) => toy matches Some(ToySelector::Text(s)) && s@ == t,
    }
}

fn toy_from(v: Option<String>) -> (r: Option<ToySelector>)
    ensures
        toy_text_is(r, opt_text(v)),
{
    match v {
        Some(s) => Some(ToySelector::Text(s)),
        None => None,
    }
}

/// The command request of a `GET` with the given query parameters: the command
/// comes from `command`, `cmd` or `action` (in that order, default
/// `GetToys`), the toy from `toy` or `t`, and the other fields from `action`,
/// `name`, `rule`, `strength` and `type`.
pub fn request_from_query(params: &Vec<(String, String)>) -> (r: LovenseCommandRequest)
    ensures
        opt_text(r.command) == Some(
            or_else(
                or_else(
                    param_value(params.deep_view(), "command"@),
                    param_value(params.deep_view(), "cmd"@),
                ),
                param_value(params.deep_view(), "action"@),
            ).unwrap_or("GetToys"@),
        ),
        toy_text_is(
            r.toy,
            or_else(
                param_value(params.deep_view(), "toy"@),
                param_value(params.deep_view(), "t"@),
            ),
        ),
        opt_text(r.action) == param_value(params.deep_view(), "action"@),
        opt_text(r.name) == param_value(params.deep_view(), "name"@),
        opt_text(r.rule) == param_value(params.deep_view(), "rule"@),
        opt_text(r.strength) == param_value(params.deep_view(), "strength"@),
        opt_text(r.req_type) == param_value(params.deep_view(), "type"@),
        r.actions is None,
        r.start_time is None,
        r.offset_time is None,
        r.stop_previous is None,
{
    let command = match param_lookup(params, "command") {
        Some(c) => c,
        None => match param_lookup(params, "cmd") {
            Some(c) => c,
            None => match param_lookup(params, "action") {
                Some(c) => c,
                None => String::from_str("GetToys"),
            },
        },
    };
    let toy = match param_lookup(params, "toy") {
        Some(t) => Some(t),
        None => param_lookup(params, "t"),
    };
    let mut request = LovenseCommandRequest::default();
    request.command = Some(command);
    request.toy = toy_from(toy);
    request.action = param_lookup(params, "action");
    request.name = param_lookup(params, "name");
    request.rule = param_lookup(params, "rule");
    request.strength = param_lookup(params, "strength");
    request.req_type = param_lookup(params, "type");
    request
}

/// Whether `r` is the command request of a form-encoded `POST` body with the
/// decoded pairs `form`: the command comes from `command` or `cmd` (absent
/// when neither is given), the toy from `toy`, and the other fields from
/// `action`, `name`, `rule`, `strength` and `type`; the rest is absent.
pub open spec fn is_form_request(r: LovenseCommandRequest, form: Seq<(Seq<char>, Seq<char>)>) -> bool {
    &&& opt_text(r.command) == or_else(param_value(form, "command"@), param_value(form, "cmd"@))
    &&& toy_text_is(r.toy, param_value(form, "toy"@))
    &&& opt_text(r.action) == param_value(form, "action"@)
    &&& opt_text(r.name) == param_value(form, "name"@)
    &&& opt_text(r.rule) == param_value(form, "rule"@)
    &&& opt_text(r.strength) == param_value(form, "strength"@)
    &&& opt_text(r.req_type) == param_value(form, "type"@)
    &&& r.actions is None
    &&& r.start_time is None
    &&& r.offset_time is None
    &&& r.stop_previous is None
}

/// Whether `r` is the request of an empty body: every field absent.
pub open spec fn is_empty_request(r: LovenseCommandRequest) -> bool {
    &&& r.command is None
    &&& r.req_type is None
    &&& r.action is None
    &&& r.toy is None
    &&& r.name is None
    &&& r.rule is None
    &&& r.strength is None
    &&& r.actions is None
    &&& r.start_time is None
    &&& r.offset_time is None
    &&& r.stop_previous is None
}

/// The command request of a form-encoded `POST` body (see [`is_form_request`]).
pub fn request_from_form(form: &Vec<(String, String)>) -> (r: LovenseCommandRequest)
    ensures
        is_form_request(r, form.deep_view()),
{
    let mut request = LovenseCommandRequest::default();
    request.command = match param_lookup(form, "command") {
        Some(c) => Some(c),
        None => param_lookup(form, "cmd"),
    };
    request.toy = toy_from(param_lookup(form, "toy"));
    request.action = param_lookup(form, "action");
    request.name = param_lookup(form, "name");
    request.rule = param_lookup(form, "rule");
    request.strength = param_lookup(form, "strength");
    request.req_type = param_lookup(form, "type");
    request
}

/// Gives a request without a command the one of the query string (`command`
/// or `cmd`); nothing else changes.
pub fn fill_command_from_query(request: &mut LovenseCommandRequest, params: &Vec<(String, String)>)
    ensures
        old(request).command is Some ==> final(request).command == old(request).command,
        old(request).command is None ==> opt_text(final(request).command) == or_else(
            param_value(params.deep_view(), "command"@),
            param_value(params.deep_view(), "cmd"@),
        ),
        final(request).req_type == old(request).req_type,
        final(request).action == old(request).action,
        final(request).toy == old(request).toy,
        final(request).name == old(request).name,
        final(request).rule == old(request).rule,
        final(request).strength == old(request).strength,
        final(request).actions == old(request).actions,
        final(request).start_time == old(request).start_time,
        final(request).offset_time == old(request).offset_time,
        final(request).stop_previous == old(request).stop_previous,
{
    if request.command.is_none() {
        request.command = match param_lookup(params, "command") {
            Some(c) => Some(c),
            None => param_lookup(params, "cmd"),
        };
    }
}

/// Whether `r` is the answer to a body that is neither JSON nor form-encoded:
/// code 400 with the message `Invalid JSON or payload body`.
pub open spec fn is_invalid_body_answer(r: LovenseResponse<serde_json::Value>) -> bool {
    &&& r.code == 400
    &&& holds_text(r.message, "Invalid JSON or payload body"@)
    &&& r.response_type is None
    &&& r.data is None
}

/// The answer to a body that is neither JSON nor form-encoded.
pub fn invalid_body_response() -> (r: LovenseResponse<serde_json::Value>)
    ensures
        is_invalid_body_answer(r),
{
    LovenseResponse::<serde_json::Value>::error(400, "Invalid JSON or payload body")
}

/// The command request of a `POST` body, before the query string is
/// consulted: an empty body gives the empty request; otherwise `json`, the
/// body read as a JSON request (where it is one), is taken as it is; otherwise
/// a form-encoded body gives its form request; anything else is answered with
/// the invalid-body error.
pub fn request_from_body(body: &[u8], json: Option<LovenseCommandRequest>) -> (r: Result<
    LovenseCommandRequest,
    LovenseResponse<serde_json::Value>,
>)
    ensures
        body@.len() == 0 ==> (r matches Ok(q) && is_empty_request(q)),
        body@.len() > 0 && json is Some ==> r == Ok::<
            LovenseCommandRequest,
            LovenseResponse<serde_json::Value>,
        >(json.unwrap()),
        body@.len() > 0 && json is None ==> match form_pairs_of(body@) {
            Some(pairs) => (r matches Ok(q) && is_form_request(q, pairs)),
            None => (r matches Err(e) && is_invalid_body_answer(e)),
        },
{
    if body.len() == 0 {
        return Ok(LovenseCommandRequest::default());
    }
    match json {
        Some(q) => Ok(q),
        None => match decode_form(body) {
            Some(form) => Ok(request_from_form(&form)),
            None => Err(invalid_body_response()),
        },
    }
}

// ---------------------------------------------------------------------------
// Dispatch
// ---------------------------------------------------------------------------

/// The Lovense commands the bridge serves.
#[derive(Debug, Clone, Copy, PartialEq, Eq, Structural)]
pub enum LovenseCommand {
    GetToys,
    GetToyName,
    Function,
    Position,
    Pattern,
    PatternV2,
    Preset,
    Unrecognized,
}

/// The command name of a request; `GetToys` when it names none.
pub open spec fn command_name_of(command: Option<String>) -> Seq<char> {
    match command {
        Some(c) => c@,
        None => "GetToys"@,
    }
}

/// Which command a lower-cased command name selects.
pub open spec fn command_of_lower(name: Seq<char>) -> LovenseCommand {
    if name == "gettoys"@ {
        LovenseCommand::GetToys
    } else if name == "gettoyname"@ {
        LovenseCommand::GetToyName
    } else if name == "function"@ {
        LovenseCommand::Function
    } else if name == "position"@ {
        LovenseCommand::Position
    } else if name == "pattern"@ {
        LovenseCommand::Pattern
    } else if name == "patternv2"@ {
        LovenseCommand::PatternV2
    } else if name == "preset"@ {
        LovenseCommand::Preset
    } else {
        LovenseCommand::Unrecognized
    }
}

/// Which handler a request goes to: its command name (default `GetToys`)
/// compared without regard to case.
pub fn classify_command(command: &Option<String>) -> (r: LovenseCommand)
    ensures
        r == command_of_lower(unicode_lowercase(command_name_of(*command))),
        is_ascii_chars(command_name_of(*command)) ==> r == command_of_lower(
            ascii_lowercase(command_name_of(*command)),
        ),
{
    let lower = match command {
        Some(c) => to_lowercase(c.as_str()),
        None => to_lowercase("GetToys"),
    };
    command_of_lowercase(lower.as_str())
}

/// Command names are matched without regard to ASCII case: two ASCII names
/// that differ only in the case of their letters select the same handler.
pub proof fn law_commands_ignore_ascii_case(a: Seq<char>, b: Seq<char>)
    requires
        eq_ignore_ascii_case_seq(a, b),
    ensures
        command_of_lower(ascii_lowercase(a)) == command_of_lower(ascii_lowercase(b)),
{
    lemma_ascii_lowercase_ignores_case(a, b);
}

/// Which handler an already lower-cased command name selects.
pub fn command_of_lowercase(lower: &str) -> (r: LovenseCommand)
    ensures
        r == command_of_lower(lower@),
{
    let v = chars_of(lower);
    if str_equals(&v, "gettoys") {
        LovenseCommand::GetToys
    } else if str_equals(&v, "gettoyname") {
        LovenseCommand::GetToyName
    } else if str_equals(&v, "function") {
        LovenseCommand::Function
    } else if str_equals(&v, "position") {
        LovenseCommand::Position
    } else if str_equals(&v, "pattern") {
        LovenseCommand::Pattern
    } else if str_equals(&v, "patternv2") {
        LovenseCommand::PatternV2
    } else if str_equals(&v, "preset") {
        LovenseCommand::Preset
    } else {
        LovenseCommand::Unrecognized
    }
}

/// The answer to a command the bridge does not serve: code 400 and a message
/// naming the command as it was given.
pub fn unrecognized_command_response(command: &Option<String>) -> (r: LovenseResponse<
    serde_json::Value,
>)
    ensures
        r.code == 400,
        holds_text(
            r.message,
            "Command '"@ + command_name_of(*command) + "' is not recognized or not yet implemented"@,
        ),
        r.response_type is None,
        r.data is None,
{
    let mut message = String::from_str("Command '");
    match command {
        Some(c) => message.append(c.as_str()),
        None => message.append("GetToys"),
    }
    message.append("' is not recognized or not yet implemented");
    LovenseResponse::<serde_json::Value>::error(400, message.as_str())
}

// ---------------------------------------------------------------------------
// Settings and connection tracking
// ---------------------------------------------------------------------------

/// Whether the value of the debug-logging setting turns logging on: `1` or
/// `true` in any ASCII case.
pub fn debug_flag_enabled(value: &Option<String>) -> (r: bool)
    ensures
        r == (value matches Some(v) && (v@ == "1"@ || eq_ignore_ascii_case_seq(v@, "true"@))),
{
    match value {
        Some(v) => {
            let c = chars_of(v.as_str());
            str_equals(&c, "1") || eq_ignore_ascii_case(v.as_str(), "true")
        },
        None => false,
    }
}

/// Wraps the service maker of a server so that each accepted connection is
/// reported under `protocol`.
#[derive(Clone)]
pub struct ConnectionTrackerMakeService<M> {
    pub inner: M,
    pub protocol: &'static str,
}

impl<M> ConnectionTrackerMakeService<M> {
    pub fn new(inner: M, protocol: &'static str) -> (r: Self)
        ensures
            r.inner == inner,
            r.protocol == protocol,
    {
        ConnectionTrackerMakeService { inner, protocol }
    }
}

// ---------------------------------------------------------------------------
// Pattern rules
// ---------------------------------------------------------------------------

/// The interval one `;`-separated part of a pattern rule sets: `S:<ms>` with
/// `S` in either case, after trailing `#` and surrounding whitespace are
/// removed; the number must be a `u64`.
pub open spec fn rule_part_interval(part: Seq<char>) -> Option<u64> {
    let q = trim_seq(trim_end_char_seq(part, '#'));
    match first_pos(q, ':') {
        Some(i) => if eq_ignore_ascii_case_seq(q.take(i), "s"@) {
            parse_u64_seq(q.skip(i + 1))
        } else {
            None
        },
        None => None,
    }
}

/// The interval of the first part that sets one, or 1000.
pub open spec fn first_interval(parts: Seq<Seq<char>>) -> u64
    decreases parts.len(),
{
    if parts.len() == 0 {
        1000
    } else {
        match rule_part_interval(parts[0]) {
            Some(ms) => ms,
            None => first_interval(parts.drop_first()),
        }
    }
}

pub open spec fn rule_interval_spec(rule: Seq<char>) -> u64 {
    first_interval(split_seq(rule, ';'))
}

fn part_interval(part: &Vec<char>) -> (r: Option<u64>)
    ensures
        r == rule_part_interval(part@),
{
    let q = trim_chars(&trim_end_char(part, '#'));
    match find_char(&q, ':') {
        Some(i) => {
            let k = slice_chars(&q, 0, i);
            let v = slice_chars(&q, i + 1, q.len());
            assert(k@ =~= q@.take(i as int));
            assert(v@ =~= q@.skip(i + 1));
            if eq_ignore_ascii_case(string_from_chars(&k).as_str(), "s") {
                parse_u64_chars(&v)
            } else {
                None
            }
        },
        None => None,
    }
}

/// The step interval, in milliseconds, a pattern rule such as
/// `V:1;F:v,r,p;S:100#` sets; 1000 when it sets none.
pub fn parse_pattern_rule_interval(rule: &str) -> (r: u64)
    ensures
        r == rule_interval_spec(rule@),
{
    let s = chars_of(rule);
    let parts = split_chars(&s, ';');
    let ghost pv = parts.deep_view();
    let mut i: usize = 0;
    assert(pv.skip(0) =~= pv);
    while i < parts.len()
        invariant
            i <= parts.len(),
            pv == parts.deep_view(),
            pv == split_seq(rule@, ';'),
            first_interval(pv) == first_interval(pv.skip(i as int)),
        decreases parts.len() - i,
    {
        proof {
            assert(pv.skip(i as int).drop_first() =~= pv.skip(i + 1));
            assert(pv.skip(i as int)[0] == pv[i as int]);
            crate::text::lemma_chars_deep_view(parts@[i as int]);
        }
        match part_interval(&parts[i]) {
            Some(ms) => {
                proof {
                    let rest = pv.skip(i as int);
                    assert(rest.len() > 0);
                    assert(rule_part_interval(rest[0]) == Some(ms));
                    assert(first_interval(rest) == ms);
                }
                return ms;
            },
            None => {},
        }
        i = i + 1;
    }
    assert(pv.skip(parts.len() as int) =~= Seq::<Seq<char>>::empty());
    1000
}

// ---------------------------------------------------------------------------
// Connection addresses
// ---------------------------------------------------------------------------

pub open spec fn is_address_end(c: char) -> bool {
    c == ',' || c == '}' || c == ' ' || c == ')'
}

/// The address written after `marker` in a debug text: up to the next `,`,
/// `}`, space or `)`, trimmed; `None` when the marker is missing or the
/// address blank.
pub open spec fn address_after(s: Seq<char>, marker: Seq<char>) -> Option<Seq<char>> {
    match first_occurrence(s, marker) {
        Some(p) => {
            let rest = s.skip(p + marker.len());
            let a = trim_seq(rest.take(first_where(rest, |c: char| is_address_end(c))));
            if a.len() > 0 {
                Some(a)
            } else {
                None
            }
        },
        None => None,
    }
}

/// The peer address found in the debug text of a connection target, tried
/// after `remote_addr: `, then `peer: `, then `addr: `; the whole text when
/// none is found.
pub open spec fn target_address_spec(s: Seq<char>) -> Seq<char> {
    match address_after(s, "remote_addr: "@) {
        Some(a) => a,
        None => match address_after(s, "peer: "@) {
            Some(a) => a,
            None => match address_after(s, "addr: "@) {
                Some(a) => a,
                None => s,
            },
        },
    }
}

fn address_end_index(v: &Vec<char>) -> (r: usize)
    ensures
        r == first_where(v@, |c: char| is_address_end(c)),
        r <= v.len(),
{
    let mut i: usize = 0;
    while i < v.len() && !(v[i] == ',' || v[i] == '}' || v[i] == ' ' || v[i] == ')')
        invariant
            i <= v.len(),
            forall|k: int| 0 <= k < i ==> !is_address_end(#[trigger] v@[k]),
        decreases v.len() - i,
    {
        i = i + 1;
    }
    proof {
        let f = |c: char| is_address_end(c);
        assert forall|k: int| 0 <= k < i implies !f(#[trigger] v@[k]) by {
            assert(!is_address_end(v@[k]));
        }
        lemma_first_where(v@, f, i as int);
    }
    i
}

fn address_after_exec(s: &Vec<char>, marker: &str) -> (r: Option<String>)
    ensures
        match address_after(s@, marker@) {
            Some(a) => r matches Some(x) && x@ == a,
            None => r is None,
        },
{
    let m = chars_of(marker);
    match find_seq(s, &m) {
        Some(p) => {
            assert(first_occurrence(s@, marker@) == Some(p as int));
            assert(crate::text::occurs_at(s@, m@, p as int));
            assert(p + m@.len() <= s@.len());
            assert(p + m.len() <= s.len());
            let rest = slice_chars(s, p + m.len(), s.len());
            assert(rest@ =~= s@.skip(p + marker@.len()));
            let end = address_end_index(&rest);
            let head = slice_chars(&rest, 0, end);
            assert(head@ =~= rest@.take(end as int));
            let a = trim_chars(&head);
            proof {
                assert(address_after(s@, marker@) == (if a@.len() > 0 {
                    Some(a@)
                } else {
                    None
                }));
            }
            if a.len() > 0 {
                Some(string_from_chars(&a))
            } else {
                None
            }
        },
        None => {
            assert(first_occurrence(s@, marker@) is None);
            None
        },
    }
}

/// The peer address in the debug text of a connection target (see
/// [`target_address_spec`]).
pub fn format_target_address(debug_str: &str) -> (r: String)
    ensures
        r@ == target_address_spec(debug_str@),
{
    let s = chars_of(debug_str);
    match address_after_exec(&s, "remote_addr: ") {
        Some(a) => a,
        None => match address_after_exec(&s, "peer: ") {
            Some(a) => a,
            None => match address_after_exec(&s, "addr: ") {
                Some(a) => a,
                None => String::from_str(debug_str),
            },
        },
    }
}



/// The handler a command name selects, for every name: `GetToys`,
/// `GetToyName`, `Function`, `Position`, `Pattern`, `PatternV2` and `Preset`
/// each select their own, any other name the unrecognised-command answer,
/// compared without regard to ASCII case.
#[verifier::spinoff_prover]
pub proof fn law_command_by_name(n: Seq<char>)
    ensures
        command_of_lower(ascii_lowercase(n)) == (if eq_ignore_ascii_case_seq(n, "gettoys"@) {
            LovenseCommand::GetToys
        } else if eq_ignore_ascii_case_seq(n, "gettoyname"@) {
            LovenseCommand::GetToyName
        } else if eq_ignore_ascii_case_seq(n, "function"@) {
            LovenseCommand::Function
        } else if eq_ignore_ascii_case_seq(n, "position"@) {
            LovenseCommand::Position
        } else if eq_ignore_ascii_case_seq(n, "pattern"@) {
            LovenseCommand::Pattern
        } else if eq_ignore_ascii_case_seq(n, "patternv2"@) {
            LovenseCommand::PatternV2
        } else if eq_ignore_ascii_case_seq(n, "preset"@) {
            LovenseCommand::Preset
        } else {
            LovenseCommand::Unrecognized
        }),
{
    reveal_strlit("gettoys");
    assert(ascii_lowercase("gettoys"@) =~= "gettoys"@);
    lemma_lowercases_to(n, "gettoys"@);
    reveal_strlit("gettoyname");
    assert(ascii_lowercase("gettoyname"@) =~= "gettoyname"@);
    lemma_lowercases_to(n, "gettoyname"@);
    reveal_strlit("function");
    assert(ascii_lowercase("function"@) =~= "function"@);
    lemma_lowercases_to(n, "function"@);
    reveal_strlit("position");
    assert(ascii_lowercase("position"@) =~= "position"@);
    lemma_lowercases_to(n, "position"@);
    reveal_strlit("pattern");
    assert(ascii_lowercase("pattern"@) =~= "pattern"@);
    lemma_lowercases_to(n, "pattern"@);
    reveal_strlit("patternv2");
    assert(ascii_lowercase("patternv2"@) =~= "patternv2"@);
    lemma_lowercases_to(n, "patternv2"@);
    reveal_strlit("preset");
    assert(ascii_lowercase("preset"@) =~= "preset"@);
    lemma_lowercases_to(n, "preset"@);
    let l = ascii_lowercase(n);
    if l == "gettoys"@ {
        assert(l.len() == 7 && l[0] == 'g' && l[l.len() - 1] == 's');
    }
    if l == "gettoyname"@ {
        assert(l.len() == 10 && l[0] == 'g' && l[l.len() - 1] == 'e');
    }
    if l == "function"@ {
        assert(l.len() == 8 && l[0] == 'f' && l[l.len() - 1] == 'n');
    }
    if l == "position"@ {
        assert(l.len() == 8 && l[0] == 'p' && l[l.len() - 1] == 'n');
    }
    if l == "pattern"@ {
        assert(l.len() == 7 && l[0] == 'p' && l[l.len() - 1] == 'n');
    }
    if l == "patternv2"@ {
        assert(l.len() == 9 && l[0] == 'p' && l[l.len() - 1] == '2');
    }
    if l == "preset"@ {
        assert(l.len() == 6 && l[0] == 'p' && l[l.len() - 1] == 't');
    }
}

} // verus!
