use lovense_intiface_bridge::lovense::{
    build_get_toys_response, device_output_plan, device_to_toy_info, generate_toy_id,
    get_device_functions, get_toy_names, output_plan_for, toy_id_from_hash, toys_json_text, DeviceInfo, DeviceOutput, GetToysData,
    LovenseCommandRequest, LovenseResponse, PatternAction, ToyInfo, ToySelector,
};
use serde_json::Value;
use std::hash::{DefaultHasher, Hash, Hasher};

fn toy(id: &str, name: &str, battery: i32, version: &str) -> ToyInfo {
    ToyInfo {
        id: id.to_string(),
        name: name.to_string(),
        status: "1".to_string(),
        battery,
        nick_name: "".to_string(),
        version: version.to_string(),
        short_function_names: vec!["v".to_string()],
        full_function_names: vec!["Vibrate".to_string()],
    }
}

fn strings(items: &[&str]) -> Value {
    Value::Array(items.iter().map(|s| Value::String(s.to_string())).collect())
}

fn device(name: &str, index: u32, caps: [bool; 4], battery: Option<u32>) -> DeviceInfo {
    DeviceInfo {
        name: name.to_string(),
        index,
        can_vibrate: caps[0],
        can_rotate: caps[1],
        can_oscillate: caps[2],
        can_position: caps[3],
        battery,
    }
}

fn request_with_toy(toy: Option<ToySelector>) -> LovenseCommandRequest {
    let mut r = LovenseCommandRequest::default();
    r.toy = toy;
    r
}

#[test]
fn test_toy_info_serialization() {
    let toys = vec![toy("ca771e9552be", "ferri", 86, "")];
    let toys_json = toys_json_text(&toys);
    let response = LovenseResponse::ok(GetToysData {
        toys: toys_json,
        platform: Some("ios".to_string()),
        app_type: Some("remote".to_string()),
    });

    assert_eq!(response.code, 200);
    assert_eq!(response.response_type.as_deref(), Some("OK"));
    let data = response.data.unwrap();
    assert_eq!(data.platform.as_deref(), Some("ios"));
    assert_eq!(data.app_type.as_deref(), Some("remote"));

    let inner: Value = serde_json::from_str(&data.toys).unwrap();
    let toy = &inner["ca771e9552be"];
    assert_eq!(toy["id"], "ca771e9552be");
    assert_eq!(toy["name"], "ferri");
    assert_eq!(toy["status"], "1");
    assert_eq!(toy["battery"], 86);
    assert_eq!(toy["nickName"], "");
    assert_eq!(toy["version"], "");
    assert_eq!(toy["shortFunctionNames"], strings(&["v"]));
    assert_eq!(toy["fullFunctionNames"], strings(&["Vibrate"]));
}

#[test]
fn test_toy_info_exact_schema() {
    let toys = vec![
        toy("ca771e9552be", "ferri", 86, ""),
        toy("286847ae60ca", "lush", 100, "4"),
    ];
    let toys_json = toys_json_text(&toys);
    let response = LovenseResponse::ok(GetToysData {
        toys: toys_json,
        platform: Some("ios".to_string()),
        app_type: Some("remote".to_string()),
    });

    assert_eq!(response.code, 200);
    assert_eq!(response.response_type.as_deref(), Some("OK"));
    let data = response.data.unwrap();
    assert_eq!(data.platform.as_deref(), Some("ios"));
    assert_eq!(data.app_type.as_deref(), Some("remote"));

    let inner: Value = serde_json::from_str(&data.toys).unwrap();
    let ferri = &inner["ca771e9552be"];
    assert_eq!(ferri["id"], "ca771e9552be");
    assert_eq!(ferri["name"], "ferri");
    assert_eq!(ferri["status"], "1");
    assert_eq!(ferri["battery"], 86);
    assert_eq!(ferri["nickName"], "");
    assert_eq!(ferri["version"], "");
    assert_eq!(ferri["shortFunctionNames"], strings(&["v"]));
    assert_eq!(ferri["fullFunctionNames"], strings(&["Vibrate"]));

    let lush = &inner["286847ae60ca"];
    assert_eq!(lush["id"], "286847ae60ca");
    assert_eq!(lush["name"], "lush");
    assert_eq!(lush["status"], "1");
    assert_eq!(lush["battery"], 100);
    assert_eq!(lush["nickName"], "");
    assert_eq!(lush["version"], "4");
    assert_eq!(lush["shortFunctionNames"], strings(&["v"]));
    assert_eq!(lush["fullFunctionNames"], strings(&["Vibrate"]));
}

#[test]
fn toys_json_is_compact_and_ordered() {
    let toys = vec![toy("ca771e9552be", "ferri", 86, "")];
    assert_eq!(
        toys_json_text(&toys),
        "{\"ca771e9552be\":{\"id\":\"ca771e9552be\",\"name\":\"ferri\",\"status\":\"1\",\"battery\":86,\"nickName\":\"\",\"version\":\"\",\"shortFunctionNames\":[\"v\"],\"fullFunctionNames\":[\"Vibrate\"]}}"
    );
    assert_eq!(toys_json_text(&vec![]), "{}");
}

#[test]
fn toys_json_escapes_like_serde_json() {
    let mut t = toy("a\"b", "x\\y\n\t\u{1}é", -5, "");
    t.short_function_names = vec![];
    let text = toys_json_text(&vec![t]);
    assert!(text.contains("\"a\\\"b\""));
    assert!(text.contains("\"x\\\\y\\n\\t\\u0001é\""));
    assert!(text.contains("\"battery\":-5"));
    assert!(text.contains("\"shortFunctionNames\":[]"));
    let parsed: Value = serde_json::from_str(&text).unwrap();
    assert_eq!(parsed["a\"b"]["name"], "x\\y\n\t\u{1}é");
}

#[test]
fn ok_simple_and_error_envelopes() {
    let ok = LovenseResponse::<Value>::ok_simple();
    assert_eq!(ok.code, 200);
    assert_eq!(ok.response_type.as_deref(), Some("ok"));
    assert!(ok.message.is_none());
    assert!(ok.data.is_none());

    let err = LovenseResponse::<Value>::error(400, "bad");
    assert_eq!(err.code, 400);
    assert_eq!(err.message.as_deref(), Some("bad"));
    assert!(err.response_type.is_none());
    assert!(err.data.is_none());
}

#[test]
fn target_toys_are_trimmed_and_filtered() {
    let r = request_with_toy(Some(ToySelector::Text("  ff922f7fd345 ".to_string())));
    assert_eq!(r.get_target_toys(), vec!["ff922f7fd345".to_string()]);

    let r = request_with_toy(Some(ToySelector::Text(" \t ".to_string())));
    assert!(r.get_target_toys().is_empty());

    let r = request_with_toy(Some(ToySelector::List(vec![
        Some(" a ".to_string()),
        None,
        Some("".to_string()),
        Some("b\u{3000}".to_string()),
    ])));
    assert_eq!(r.get_target_toys(), vec!["a".to_string(), "b".to_string()]);

    assert!(request_with_toy(Some(ToySelector::Other)).get_target_toys().is_empty());
    assert!(request_with_toy(None).get_target_toys().is_empty());
}

#[test]
fn toy_id_is_twelve_lower_hex_digits() {
    let d = device("Lush", 3, [true, false, false, false], None);
    let id = generate_toy_id(&d);
    assert_eq!(id.len(), 12);
    assert!(id.chars().all(|c| c.is_ascii_digit() || ('a'..='f').contains(&c)));
    assert_eq!(id, generate_toy_id(&device("Lush", 3, [false, true, false, false], Some(5))));
    assert_ne!(id, generate_toy_id(&device("Lush", 4, [true, false, false, false], None)));
}

#[test]
fn toy_id_is_the_default_hash_of_name_and_index() {
    let mut hasher = DefaultHasher::new();
    "Lush".to_string().hash(&mut hasher);
    3u32.hash(&mut hasher);
    let expected = format!("{:012x}", hasher.finish() & 0xffffffffffff);
    assert_eq!(generate_toy_id(&device("Lush", 3, [true, false, false, false], None)), expected);
}

#[test]
fn device_functions_follow_capabilities() {
    let (s, f) = get_device_functions(&device("x", 0, [true, true, true, true], None));
    assert_eq!(s, vec!["v", "r", "o", "p"]);
    assert_eq!(f, vec!["Vibrate", "Rotate", "Oscillate", "Position"]);

    let (s, f) = get_device_functions(&device("x", 0, [false, true, false, true], None));
    assert_eq!(s, vec!["r", "p"]);
    assert_eq!(f, vec!["Rotate", "Position"]);

    let (s, f) = get_device_functions(&device("x", 0, [false, false, false, false], None));
    assert_eq!(s, vec!["v"]);
    assert_eq!(f, vec!["Vibrate"]);
}

#[test]
fn toy_info_of_device() {
    let d = device("Ferri", 1, [true, false, false, false], Some(86));
    let info = device_to_toy_info(&d);
    assert_eq!(info.id, generate_toy_id(&d));
    assert_eq!(info.name, "ferri");
    assert_eq!(info.status, "1");
    assert_eq!(info.battery, 86);
    assert_eq!(info.nick_name, "");
    assert_eq!(info.version, "");

    assert_eq!(device_to_toy_info(&device("a", 0, [true; 4], None)).battery, 100);
    assert_eq!(device_to_toy_info(&device("a", 0, [true; 4], Some(250))).battery, 100);
    assert_eq!(device_to_toy_info(&device("a", 0, [true; 4], Some(u32::MAX))).battery, 0);
    assert_eq!(device_to_toy_info(&device("a", 0, [true; 4], Some(0))).battery, 0);
}

#[test]
fn get_toys_keys_by_id_last_device_wins() {
    let a = device("Lush", 1, [true, false, false, false], Some(10));
    let b = device("Lush", 1, [true, false, false, false], Some(90));
    let c = device("Max", 2, [false, false, true, false], None);
    let data = build_get_toys_response(&vec![a, c, b]);
    assert_eq!(data.platform.as_deref(), Some("ios"));
    assert_eq!(data.app_type.as_deref(), Some("remote"));
    let parsed: Value = serde_json::from_str(&data.toys).unwrap();
    let obj = parsed.as_object().unwrap();
    assert_eq!(obj.len(), 2);
    let lush_id = generate_toy_id(&device("Lush", 1, [true; 4], None));
    assert_eq!(obj[&lush_id]["battery"], 90);
    assert_eq!(obj[&lush_id]["name"], "lush");
}

#[test]
fn toy_names_are_the_connected_devices() {
    assert_eq!(get_toy_names(&vec![]), Vec::<String>::new());
    let names = get_toy_names(&vec![
        device("Lush", 0, [true; 4], None),
        device("Max", 1, [true; 4], None),
    ]);
    assert_eq!(names, vec!["Lush".to_string(), "Max".to_string()]);
}

#[test]
fn output_plans_follow_features_and_fallbacks() {
    let all = device("a", 0, [true, true, true, true], None);
    let vib = device("b", 0, [true, false, false, false], None);
    let osc = device("c", 0, [false, false, true, false], None);
    let none = device("d", 0, [false, false, false, false], None);

    assert_eq!(device_output_plan(&all, "Vibrate"), vec![DeviceOutput::Vibrate]);
    assert_eq!(device_output_plan(&all, "r"), vec![DeviceOutput::Rotate]);
    assert_eq!(device_output_plan(&vib, "rotate"), vec![]);
    assert_eq!(device_output_plan(&vib, "Pump"), vec![DeviceOutput::Vibrate]);
    assert_eq!(device_output_plan(&osc, "thrusting"), vec![DeviceOutput::Oscillate]);
    assert_eq!(device_output_plan(&osc, "stroke"), vec![DeviceOutput::Oscillate]);
    assert_eq!(device_output_plan(&all, "DEPTH"), vec![DeviceOutput::Position]);
    assert_eq!(
        device_output_plan(&all, "all"),
        vec![DeviceOutput::Vibrate, DeviceOutput::Rotate, DeviceOutput::Oscillate, DeviceOutput::Position]
    );
    assert_eq!(device_output_plan(&none, "stop"), vec![DeviceOutput::Stop]);
    assert_eq!(device_output_plan(&vib, "whatever"), vec![DeviceOutput::Vibrate]);
    assert_eq!(device_output_plan(&none, "whatever"), vec![]);
}

#[test]
fn plans_and_ids_from_given_values() {
    let vib = device("b", 0, [true, false, false, false], None);
    assert_eq!(output_plan_for(&vib, "vibrate"), vec![DeviceOutput::Vibrate]);
    assert_eq!(output_plan_for(&vib, "Vibrate"), vec![DeviceOutput::Vibrate]);
    assert_eq!(output_plan_for(&vib, "stop"), vec![DeviceOutput::Stop]);
    assert_eq!(toy_id_from_hash(0x1234_5678_9abc_def0), "56789abcdef0");
    assert_eq!(toy_id_from_hash(0), "000000000000");
}

#[test]
fn pattern_action_default_is_zero() {
    let a = PatternAction::default();
    assert_eq!(a, PatternAction { ts: 0, pos: 0 });
}
