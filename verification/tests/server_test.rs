use lovense_intiface_bridge::commands::{
    cancellation_task_id, classify_pattern_v2, classify_preset, divisor_for_lowercase,
    function_run_step, pattern_tick, FunctionRunCommand, FunctionRunPhase,
    pattern_v2_of_lowercase, preset_of_lowercase,
    parse_function_actions, pattern_v2_schedule, plan_function,
    plan_pattern, plan_pattern_v2, resolve_target_devices, split_strength_levels,
    PatternV2Command, PatternV2Plan, PositionStep, PresetKind,
};
use lovense_intiface_bridge::lovense::{
    build_get_toys_response, generate_toy_id, get_toy_names, DeviceInfo, LovenseCommandRequest,
    LovenseResponse, PatternAction, ToySelector,
};
use lovense_intiface_bridge::server::{
    classify_command, command_of_lowercase, debug_flag_enabled, fill_command_from_query, format_target_address,
    invalid_body_response, parse_pattern_rule_interval,
    param_lookup, request_from_body, request_from_form, request_from_query, unrecognized_command_response,
    ConnectionTrackerMakeService, LovenseCommand,
};
use lovense_intiface_bridge::store::{cancel_tasks, register_task, StringKeyedMap};
use lovense_intiface_bridge::text::{parse_u64_chars, trim_str};
use lovense_intiface_bridge::external::decode_form;
use serde_json::Value;

fn params(pairs: &[(&str, &str)]) -> Vec<(String, String)> {
    pairs.iter().map(|(k, v)| (k.to_string(), v.to_string())).collect()
}

fn json_request(command: &str) -> LovenseCommandRequest {
    let mut r = LovenseCommandRequest::default();
    r.command = Some(command.to_string());
    r
}

fn text_toy(s: &str) -> Option<ToySelector> {
    Some(ToySelector::Text(s.to_string()))
}

#[test]
fn test_get_toys_empty() {
    let request = json_request("GetToys");
    assert_eq!(classify_command(&request.command), LovenseCommand::GetToys);
    let response = LovenseResponse::ok(build_get_toys_response(&vec![]));
    assert_eq!(response.code, 200);
    assert_eq!(response.response_type.as_deref(), Some("OK"));
    let data = response.data.unwrap();
    assert_eq!(data.toys, "{}");
    assert_eq!(data.platform.as_deref(), Some("ios"));
    assert_eq!(data.app_type.as_deref(), Some("remote"));
}

#[test]
fn test_get_toys_get_method() {
    let request = request_from_query(&params(&[("command", "GetToys")]));
    assert_eq!(request.command.as_deref(), Some("GetToys"));
    assert_eq!(classify_command(&request.command), LovenseCommand::GetToys);
    let response = LovenseResponse::ok(build_get_toys_response(&vec![]));
    assert_eq!(response.code, 200);
    assert_eq!(response.response_type.as_deref(), Some("OK"));
    assert_eq!(response.data.unwrap().toys, "{}");
}

#[test]
fn test_get_toy_name() {
    let request = json_request("GetToyName");
    assert_eq!(classify_command(&request.command), LovenseCommand::GetToyName);
    let response = LovenseResponse::ok(get_toy_names(&vec![]));
    assert_eq!(response.code, 200);
    assert_eq!(response.response_type.as_deref(), Some("OK"));
    assert_eq!(response.data.unwrap(), Vec::<String>::new());
}

#[test]
fn test_function_command() {
    let mut request = json_request("Function");
    request.action = Some("Vibrate:16".to_string());
    request.toy = text_toy("ff922f7fd345");
    assert_eq!(classify_command(&request.command), LovenseCommand::Function);
    let plan = plan_function(&request);
    assert_eq!(plan.targets, vec!["ff922f7fd345".to_string()]);
    assert!(plan.cancel_previous);
    assert!(!plan.stop_only);
    assert_eq!(plan.task_id, "ff922f7fd345");
    assert_eq!(plan.actions.len(), 1);
    assert_eq!(plan.actions[0].feature, "Vibrate");
    assert_eq!(plan.actions[0].level, "16");
    assert_eq!(plan.actions[0].divisor, 20);
    let response = LovenseResponse::<Value>::ok_simple();
    assert_eq!(response.code, 200);
    assert_eq!(response.response_type.as_deref(), Some("ok"));
}

#[test]
fn test_position_command() {
    let mut request = json_request("Position");
    request.toy = text_toy("ff922f7fd345");
    assert_eq!(classify_command(&request.command), LovenseCommand::Position);
    assert_eq!(request.get_target_toys(), vec!["ff922f7fd345".to_string()]);
    let response = LovenseResponse::<Value>::ok_simple();
    assert_eq!(response.code, 200);
    assert_eq!(response.response_type.as_deref(), Some("ok"));
}

#[test]
fn test_pattern_command() {
    let mut request = json_request("Pattern");
    request.rule = Some("V:1;F:v,r,p;S:100#".to_string());
    request.strength = Some("20;20;5;20;10".to_string());
    assert_eq!(classify_command(&request.command), LovenseCommand::Pattern);
    let plan = plan_pattern(&request);
    assert_eq!(plan.interval_ms, 100);
    assert_eq!(plan.levels, vec!["20", "20", "5", "20", "10"]);
    assert!(plan.targets.is_empty());
    assert_eq!(plan.task_id, "_global_");
    let response = LovenseResponse::<Value>::ok_simple();
    assert_eq!(response.code, 200);
    assert_eq!(response.response_type.as_deref(), Some("ok"));
}

#[test]
fn test_pattern_v2_all_types() {
    let mut store: StringKeyedMap<Vec<PatternAction>> = StringKeyedMap::new();

    let mut setup = json_request("PatternV2");
    setup.req_type = Some("Setup".to_string());
    setup.actions = Some(vec![PatternAction { ts: 0, pos: 10 }, PatternAction { ts: 100, pos: 100 }]);
    assert!(matches!(plan_pattern_v2(&mut store, &setup), PatternV2Plan::Done));

    let mut play = json_request("PatternV2");
    play.req_type = Some("Play".to_string());
    play.start_time = Some(0);
    play.offset_time = Some(0);
    match plan_pattern_v2(&mut store, &play) {
        PatternV2Plan::Play { cancel_first, actions } => {
            assert!(cancel_first);
            assert_eq!(actions, vec![PatternAction { ts: 0, pos: 10 }, PatternAction { ts: 100, pos: 100 }]);
            assert_eq!(
                pattern_v2_schedule(&actions, 0, 0),
                vec![PositionStep { at_ms: 0, percent: 10 }, PositionStep { at_ms: 100, percent: 100 }]
            );
        }
        _ => panic!("Play should play"),
    }

    let mut initplay = json_request("PatternV2");
    initplay.req_type = Some("InitPlay".to_string());
    initplay.actions = Some(vec![PatternAction { ts: 0, pos: 10 }]);
    match plan_pattern_v2(&mut store, &initplay) {
        PatternV2Plan::Play { cancel_first, actions } => {
            assert!(!cancel_first);
            assert_eq!(actions, vec![PatternAction { ts: 0, pos: 10 }]);
        }
        _ => panic!("InitPlay should play"),
    }
    assert_eq!(store.get_actions("_default_"), Some(vec![PatternAction { ts: 0, pos: 10 }]));

    let mut stop = json_request("PatternV2");
    stop.req_type = Some("Stop".to_string());
    assert!(matches!(plan_pattern_v2(&mut store, &stop), PatternV2Plan::Stop));

    let mut sync = json_request("PatternV2");
    sync.req_type = Some("SyncTime".to_string());
    assert!(matches!(plan_pattern_v2(&mut store, &sync), PatternV2Plan::Done));
    assert_eq!(classify_pattern_v2(&None), PatternV2Command::Setup);
}

#[test]
fn test_preset_command() {
    let mut request = json_request("Preset");
    request.name = Some("pulse".to_string());
    request.toy = text_toy("ff922f7fd345");
    assert_eq!(classify_command(&request.command), LovenseCommand::Preset);
    assert_eq!(classify_preset(&request.name), PresetKind::Pulse);
    assert_eq!(request.get_target_toys(), vec!["ff922f7fd345".to_string()]);
    let response = LovenseResponse::<Value>::ok_simple();
    assert_eq!(response.code, 200);
    assert_eq!(response.response_type.as_deref(), Some("ok"));
}

#[test]
fn test_lan_v2_command_url() {
    let mut request = json_request("Function");
    request.action = Some("Vibrate:10".to_string());
    assert_eq!(classify_command(&request.command), LovenseCommand::Function);
    let plan = plan_function(&request);
    assert_eq!(plan.actions[0].level, "10");
    assert_eq!(plan.task_id, "_global_");
}

#[test]
fn test_unknown_command() {
    let request = json_request("NonExistentCommand");
    assert_eq!(classify_command(&request.command), LovenseCommand::Unrecognized);
    let response = unrecognized_command_response(&request.command);
    assert_eq!(response.code, 400);
    assert_eq!(
        response.message.as_deref(),
        Some("Command 'NonExistentCommand' is not recognized or not yet implemented")
    );
}

#[test]
fn commands_are_case_insensitive_and_default_to_get_toys() {
    assert_eq!(classify_command(&None), LovenseCommand::GetToys);
    assert_eq!(classify_command(&Some("PATTERNV2".to_string())), LovenseCommand::PatternV2);
    assert_eq!(classify_command(&Some("gettoyname".to_string())), LovenseCommand::GetToyName);
    assert_eq!(classify_preset(&None), PresetKind::Pulse);
    assert_eq!(classify_preset(&Some("EarthQuake".to_string())), PresetKind::Earthquake);
    assert_eq!(classify_preset(&Some("other".to_string())), PresetKind::Steady);
}

#[test]
fn query_parameters_fill_the_request() {
    let q = params(&[("cmd", "Preset"), ("t", "abc"), ("name", "wave"), ("type", "x"), ("name", "fireworks")]);
    let r = request_from_query(&q);
    assert_eq!(r.command.as_deref(), Some("Preset"));
    assert!(matches!(&r.toy, Some(ToySelector::Text(t)) if t == "abc"));
    assert_eq!(r.name.as_deref(), Some("fireworks"));
    assert_eq!(r.req_type.as_deref(), Some("x"));
    assert!(r.action.is_none());

    let r = request_from_query(&params(&[("action", "Vibrate:5")]));
    assert_eq!(r.command.as_deref(), Some("Vibrate:5"));
    assert_eq!(r.action.as_deref(), Some("Vibrate:5"));

    assert_eq!(request_from_query(&vec![]).command.as_deref(), Some("GetToys"));
    assert_eq!(param_lookup(&q, "missing"), None);
}

#[test]
fn form_parameters_and_query_command() {
    let mut r = request_from_form(&params(&[("t", "abc"), ("action", "stop")]));
    assert!(r.command.is_none());
    assert!(r.toy.is_none());
    assert_eq!(r.action.as_deref(), Some("stop"));
    fill_command_from_query(&mut r, &params(&[("cmd", "Function")]));
    assert_eq!(r.command.as_deref(), Some("Function"));
    fill_command_from_query(&mut r, &params(&[("command", "Pattern")]));
    assert_eq!(r.command.as_deref(), Some("Function"));

    let bad = invalid_body_response();
    assert_eq!(bad.code, 400);
    assert_eq!(bad.message.as_deref(), Some("Invalid JSON or payload body"));
}

#[test]
fn function_actions_are_read_like_lovense() {
    let a = parse_function_actions("Vibrate:16, Pump:2-3 ,Stroke:0-80,,Rotate7,Oscillate");
    let got: Vec<(String, String, u32, u32)> = a
        .iter()
        .map(|x| (x.feature.clone(), x.level.clone(), x.fallback_level, x.divisor))
        .collect();
    assert_eq!(
        got,
        vec![
            ("Vibrate".to_string(), "16".to_string(), 0, 20),
            ("Pump".to_string(), "3".to_string(), 0, 3),
            ("Stroke".to_string(), "80".to_string(), 0, 100),
            ("Rotate".to_string(), "7".to_string(), 20, 20),
            ("Oscillate".to_string(), "".to_string(), 20, 20),
        ]
    );
    let blank = parse_function_actions(" , ");
    assert_eq!(blank.len(), 1);
    assert_eq!(blank[0].feature, "Vibrate");
    assert_eq!(blank[0].level, "20");
    assert!(parse_function_actions("").is_empty());

    let mut stop = LovenseCommandRequest::default();
    stop.action = Some("STOP".to_string());
    stop.stop_previous = Some(0);
    let plan = plan_function(&stop);
    assert!(plan.stop_only);
    assert!(!plan.cancel_previous);
}

#[test]
fn pattern_rules_and_strengths() {
    assert_eq!(parse_pattern_rule_interval("V:1;F:v,r,p;S:100#"), 100);
    assert_eq!(parse_pattern_rule_interval("s:250"), 250);
    assert_eq!(parse_pattern_rule_interval("S: 100"), 1000);
    assert_eq!(parse_pattern_rule_interval("S:x;S:30"), 30);
    assert_eq!(parse_pattern_rule_interval(""), 1000);
    let mut r = LovenseCommandRequest::default();
    r.rule = Some("S:20".to_string());
    assert_eq!(plan_pattern(&r).interval_ms, 100);
    assert_eq!(plan_pattern(&r).levels, vec!["20"]);
    assert_eq!(split_strength_levels(" 1 ; ;x"), vec!["1", "", "x"]);
}

#[test]
fn task_ids_join_targets() {
    assert_eq!(cancellation_task_id(&vec![]), "_global_");
    assert_eq!(cancellation_task_id(&vec!["a".to_string(), "b".to_string()]), "a,b");
}

#[test]
fn schedules_start_at_the_effective_start() {
    let actions = vec![
        PatternAction { ts: 0, pos: 10 },
        PatternAction { ts: 100, pos: 200 },
        PatternAction { ts: 300, pos: 50 },
    ];
    assert_eq!(
        pattern_v2_schedule(&actions, 50, 50),
        vec![PositionStep { at_ms: 0, percent: 100 }, PositionStep { at_ms: 200, percent: 50 }]
    );
    assert_eq!(pattern_v2_schedule(&actions, 1000, 0).len(), 3);
    assert_eq!(pattern_v2_schedule(&actions, u64::MAX, 2).len(), 2);
    assert!(pattern_v2_schedule(&vec![], 0, 0).is_empty());
}

#[test]
fn cancellation_registry_signals_the_right_tasks() {
    let mut reg: StringKeyedMap<u32> = StringKeyedMap::new();
    assert_eq!(register_task(&mut reg, "a".to_string(), 1), None);
    assert_eq!(register_task(&mut reg, "b".to_string(), 2), None);
    assert_eq!(register_task(&mut reg, "a".to_string(), 3), Some(1));
    assert_eq!(reg.len(), 2);
    assert_eq!(cancel_tasks(&mut reg, &vec!["a".to_string(), "a".to_string(), "z".to_string()]), vec![3]);
    assert_eq!(reg.len(), 1);
    register_task(&mut reg, "c".to_string(), 4);
    assert_eq!(cancel_tasks(&mut reg, &vec![]), vec![2, 4]);
    assert_eq!(reg.len(), 0);
}

#[test]
fn targets_resolve_by_id_or_name() {
    let devices = vec![
        DeviceInfo { name: "Lush".to_string(), index: 0, can_vibrate: true, can_rotate: false, can_oscillate: false, can_position: false, battery: None },
        DeviceInfo { name: "Max".to_string(), index: 1, can_vibrate: true, can_rotate: false, can_oscillate: false, can_position: false, battery: None },
    ];
    assert_eq!(resolve_target_devices(&devices, &vec![]), vec![0, 1]);
    assert_eq!(resolve_target_devices(&devices, &vec!["mAX".to_string()]), vec![1]);
    let id = generate_toy_id(&devices[0]).to_uppercase();
    assert_eq!(resolve_target_devices(&devices, &vec!["nope".to_string(), id]), vec![0]);
    assert!(resolve_target_devices(&devices, &vec!["nope".to_string()]).is_empty());
}

#[test]
fn target_addresses_are_found_in_debug_text() {
    assert_eq!(format_target_address("IncomingStream { local_addr: 127.0.0.1:20010, remote_addr: 127.0.0.1:5555 }"), "127.0.0.1:5555");
    assert_eq!(format_target_address("Conn { peer: 10.0.0.2:1 }"), "10.0.0.2:1");
    assert_eq!(format_target_address("X(addr: 1.2.3.4:5)"), "1.2.3.4:5");
    assert_eq!(format_target_address("remote_addr: ,x addr: 9.9.9.9:9"), "remote_addr: ,x addr: 9.9.9.9:9");
    assert_eq!(format_target_address("remote_addr: )peer: 8.8.8.8:8)"), "8.8.8.8:8");
    assert_eq!(format_target_address("nothing here"), "nothing here");
}

#[test]
fn connection_tracker_keeps_what_it_wraps() {
    let t = ConnectionTrackerMakeService::new(7u8, "HTTP");
    assert_eq!(t.inner, 7);
    assert_eq!(t.protocol, "HTTP");
}

#[test]
fn debug_flag_values() {
    assert!(debug_flag_enabled(&Some("1".to_string())));
    assert!(debug_flag_enabled(&Some("TrUe".to_string())));
    assert!(!debug_flag_enabled(&Some("yes".to_string())));
    assert!(!debug_flag_enabled(&None));
}

#[test]
fn text_helpers() {
    assert_eq!(trim_str("\u{a0} a b \n"), "a b");
    assert_eq!(parse_u64_chars(&"+42".chars().collect()), Some(42));
    assert_eq!(parse_u64_chars(&"18446744073709551615".chars().collect()), Some(u64::MAX));
    assert_eq!(parse_u64_chars(&"18446744073709551616".chars().collect()), None);
    assert_eq!(parse_u64_chars(&"-1".chars().collect()), None);
    assert_eq!(parse_u64_chars(&"+".chars().collect()), None);
    assert_eq!(parse_u64_chars(&"1x".chars().collect()), None);
}

#[test]
fn lowercase_tables() {
    assert_eq!(command_of_lowercase("gettoys"), LovenseCommand::GetToys);
    assert_eq!(command_of_lowercase("patternv2"), LovenseCommand::PatternV2);
    assert_eq!(command_of_lowercase("GetToys"), LovenseCommand::Unrecognized);
    assert_eq!(pattern_v2_of_lowercase("initplay"), PatternV2Command::InitPlay);
    assert_eq!(pattern_v2_of_lowercase("Play"), PatternV2Command::Other);
    assert_eq!(preset_of_lowercase("wave"), PresetKind::Wave);
    assert_eq!(divisor_for_lowercase("pump"), 3);
    assert_eq!(divisor_for_lowercase("stroke"), 100);
    assert_eq!(divisor_for_lowercase("Stroke"), 20);
}

#[test]
fn trim_agrees_with_std_on_every_char_up_to_u3100() {
    for u in 0u32..=0x3100 {
        if let Some(c) = char::from_u32(u) {
            let s = format!("{c}{c}a{c}b{c}");
            assert_eq!(trim_str(&s), s.trim(), "char {:#x}", u);
        }
    }
}

#[test]
fn u64_parsing_agrees_with_std() {
    for s in ["0", "007", "+5", "++5", "-0", "", " 1", "1 ", "99999999999999999999", "18446744073709551615", "١٢"] {
        let chars: Vec<char> = s.chars().collect();
        assert_eq!(parse_u64_chars(&chars), s.parse::<u64>().ok(), "input {:?}", s);
    }
}

#[test]
fn repeating_function_runs_alternate_until_cancelled_or_done() {
    let (c, p) = function_run_step(FunctionRunPhase::BeforeRun, false, false);
    assert_eq!((c, p), (FunctionRunCommand::RunThenWait, FunctionRunPhase::AfterRun));
    let (c, p) = function_run_step(p, false, false);
    assert_eq!((c, p), (FunctionRunCommand::StopThenPause, FunctionRunPhase::BeforeRun));
    assert_eq!(function_run_step(FunctionRunPhase::AfterRun, true, false).0, FunctionRunCommand::StopAndEnd);
    assert_eq!(function_run_step(FunctionRunPhase::BeforeRun, false, true).0, FunctionRunCommand::StopAndEnd);
}

#[test]
fn cancelling_a_toy_stops_every_task_that_runs_on_it() {
    let mut reg: StringKeyedMap<u32> = StringKeyedMap::new();
    register_task(&mut reg, "_global_".to_string(), 1);
    register_task(&mut reg, "a,b".to_string(), 2);
    register_task(&mut reg, "c".to_string(), 3);
    register_task(&mut reg, "ab".to_string(), 4);
    assert_eq!(cancel_tasks(&mut reg, &vec!["a".to_string()]), vec![1, 2]);
    assert_eq!(reg.len(), 2);
    assert_eq!(cancel_tasks(&mut reg, &vec!["b".to_string()]), Vec::<u32>::new());
    assert_eq!(cancel_tasks(&mut reg, &vec!["ab".to_string(), "c".to_string()]), vec![3, 4]);
    assert_eq!(reg.len(), 0);
}

#[test]
fn a_toy_id_holding_a_comma_is_cancelled_by_its_own_id() {
    let mut reg: StringKeyedMap<u32> = StringKeyedMap::new();
    register_task(&mut reg, "a,b".to_string(), 1);
    register_task(&mut reg, "d".to_string(), 2);
    assert_eq!(cancel_tasks(&mut reg, &vec!["a,b".to_string(), "c".to_string()]), vec![1]);
    assert_eq!(reg.len(), 1);
    register_task(&mut reg, "a,b".to_string(), 3);
    assert_eq!(cancel_tasks(&mut reg, &vec!["a,b".to_string()]), vec![3]);
    assert_eq!(reg.len(), 1);
}

#[test]
fn post_bodies_become_requests() {
    let empty = request_from_body(b"", None).ok().unwrap();
    assert!(empty.command.is_none() && empty.toy.is_none() && empty.action.is_none());

    let json = json_request("Function");
    let taken = request_from_body(b"{\"command\":\"Function\"}", Some(json)).ok().unwrap();
    assert_eq!(taken.command.as_deref(), Some("Function"));

    let form = request_from_body(b"cmd=Pattern&toy=a%20b&rule=S%3A200", None).ok().unwrap();
    assert_eq!(form.command.as_deref(), Some("Pattern"));
    assert!(matches!(form.toy, Some(ToySelector::Text(ref t)) if t == "a b"));
    assert_eq!(form.rule.as_deref(), Some("S:200"));

    // Every byte string decodes as a form, so a body that is not JSON is read
    // as one, with no command when it names none.
    let loose = request_from_body(b"not json at all", None).ok().unwrap();
    assert!(loose.command.is_none() && loose.action.is_none());
}

#[test]
fn forms_decode_in_order() {
    assert_eq!(
        decode_form(b"a=1&b=x+y&a=2"),
        Some(vec![
            ("a".to_string(), "1".to_string()),
            ("b".to_string(), "x y".to_string()),
            ("a".to_string(), "2".to_string()),
        ])
    );
    assert_eq!(param_lookup(&decode_form(b"a=1&a=2").unwrap(), "a").as_deref(), Some("2"));
}

#[test]
fn pattern_ticks_cycle_through_levels() {
    let mut idx = 0usize;
    let mut chosen = vec![];
    for _ in 0..5 {
        let (c, next) = pattern_tick(false, false, idx, 3).unwrap();
        chosen.push(c);
        idx = next;
    }
    assert_eq!(chosen, vec![0, 1, 2, 0, 1]);
    assert_eq!(pattern_tick(false, false, 7, 3), Some((1, 2)));
    assert_eq!(pattern_tick(true, false, 0, 3), None);
    assert_eq!(pattern_tick(false, true, 0, 3), None);
}

#[test]
fn mixed_case_commands_are_recognised() {
    assert_eq!(classify_command(&Some("gEtToYs".to_string())), LovenseCommand::GetToys);
    assert_eq!(classify_command(&Some("PATTERNV2".to_string())), LovenseCommand::PatternV2);
    assert_eq!(classify_pattern_v2(&Some("INITPLAY".to_string())), PatternV2Command::InitPlay);
    assert_eq!(classify_preset(&Some("Wave".to_string())), PresetKind::Wave);
}
