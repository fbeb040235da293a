//! The Lovense side of the bridge: response envelopes, toy descriptions,
//! command requests, and how Buttplug devices are presented as Lovense toys.
use vstd::prelude::*;
use vstd::string::StringExecFns;
use crate::external::{default_hash_of_name_and_index, hash_name_and_index, to_lowercase, unicode_lowercase};
use crate::json::{append_json_string, append_json_string_list, comma_join, json_string, json_string_list, lemma_comma_join_push};
use crate::text::{
    ascii_lowercase, is_ascii_chars, lemma_lowercases_to, eq_ignore_ascii_case_seq,
    is_white_space, trim_end_seq, trim_start_seq, hex_digit_char, append_i32, append_seq, chars_of, hex_fixed, hex_fixed_exec, int_decimal, push_char,
    str_equals, string_from_chars, trim_seq, trim_str,
};

verus! {

// ---------------------------------------------------------------------------
// Response envelope
// ---------------------------------------------------------------------------

/// The body of every Lovense API answer.
pub struct LovenseResponse<T> {
    pub code: i32,
    pub message: Option<String>,
    pub response_type: Option<String>,
    pub data: Option<T>,
}

/// `o` holds a string with the characters `s`.
pub open spec fn holds_text(o: Option<String>, s: Seq<char>) -> bool {
    o matches Some(t) && t@ == s
}

impl LovenseResponse<serde_json::Value> {
    /// The plain success answer: code 200, type `"ok"`, nothing else.
    pub fn ok_simple() -> (r: Self)
        ensures
            r.code == 200,
            r.message is None,
            holds_text(r.response_type, "ok"@),
            r.data is None,
    {
        LovenseResponse {
            code: 200,
            message: None,
            response_type: Some(String::from_str("ok")),
            data: None,
        }
    }

    /// An error answer with the given code and message.
    pub fn error(code: i32, message: &str) -> (r: Self)
        ensures
            r.code == code,
            holds_text(r.message, message@),
            r.response_type is None,
            r.data is None,
    {
        LovenseResponse {
            code,
            message: Some(String::from_str(message)),
            response_type: None,
            data: None,
        }
    }
}

impl<T> LovenseResponse<T> {
    /// A success answer carrying `data`: code 200, type `"OK"`.
    pub fn ok(data: T) -> (r: Self)
        ensures
            r.code == 200,
            r.message is None,
            holds_text(r.response_type, "OK"@),
            r.data == Some(data),
    {
        LovenseResponse {
            code: 200,
            message: None,
            response_type: Some(String::from_str("OK")),
            data: Some(data),
        }
    }
}

// ---------------------------------------------------------------------------
// Toys
// ---------------------------------------------------------------------------

/// The data of a `GetToys` answer; `toys` is a JSON object text mapping toy
/// ids to toy descriptions.
#[derive(Debug, Clone, PartialEq)]
pub struct GetToysData {
    pub toys: String,
    pub platform: Option<String>,
    pub app_type: Option<String>,
}

/// One toy as the Lovense API describes it.
#[derive(Debug, Clone, PartialEq)]
pub struct ToyInfo {
    pub id: String,
    pub name: String,
    pub status: String,
    pub battery: i32,
    pub nick_name: String,
    pub version: String,
    pub short_function_names: Vec<String>,
    pub full_function_names: Vec<String>,
}

/// The contents of a [`ToyInfo`].
pub ghost struct ToyInfoView {
    pub id: Seq<char>,
    pub name: Seq<char>,
    pub status: Seq<char>,
    pub battery: int,
    pub nick_name: Seq<char>,
    pub version: Seq<char>,
    pub short_function_names: Seq<Seq<char>>,
    pub full_function_names: Seq<Seq<char>>,
}

impl View for ToyInfo {
    type V = ToyInfoView;

    open spec fn view(&self) -> ToyInfoView {
        ToyInfoView {
            id: self.id@,
            name: self.name@,
            status: self.status@,
            battery: self.battery as int,
            nick_name: self.nick_name@,
            version: self.version@,
            short_function_names: self.short_function_names.deep_view(),
            full_function_names: self.full_function_names.deep_view(),
        }
    }
}

/// One step of a PatternV2 timeline: at `ts` milliseconds, go to position
/// `pos` percent.
#[derive(Debug, Clone, Copy, PartialEq, Eq, Structural)]
pub struct PatternAction {
    pub ts: u64,
    pub pos: u32,
}

impl Default for PatternAction {
    fn default() -> (r: Self)
        ensures
            r.ts == 0,
            r.pos == 0,
    {
        PatternAction { ts: 0, pos: 0 }
    }
}

// ---------------------------------------------------------------------------
// Command requests
// ---------------------------------------------------------------------------

/// The shapes of the `toy` field that the bridge tells apart: one string, a
/// list of values of which the strings count, or anything else.
pub enum ToySelector {
    Text(String),
    List(Vec<Option<String>>),
    Other,
}

/// A Lovense command request, as far as the command logic reads it. Timing
/// values (seconds and milliseconds as floating point numbers) and the
/// position value are carried next to it by the server.
pub struct LovenseCommandRequest {
    pub command: Option<String>,
    pub req_type: Option<String>,
    pub action: Option<String>,
    pub toy: Option<ToySelector>,
    pub name: Option<String>,
    pub rule: Option<String>,
    pub strength: Option<String>,
    pub actions: Option<Vec<PatternAction>>,
    pub start_time: Option<u64>,
    pub offset_time: Option<u64>,
    pub stop_previous: Option<i32>,
}

impl Default for LovenseCommandRequest {
    fn default() -> (r: Self)
        ensures
            r.command is None,
            r.req_type is None,
            r.action is None,
            r.toy is None,
            r.name is None,
            r.rule is None,
            r.strength is None,
            r.actions is None,
            r.start_time is None,
            r.offset_time is None,
            r.stop_previous is None,
    {
        LovenseCommandRequest {
            command: None,
            req_type: None,
            action: None,
            toy: None,
            name: None,
            rule: None,
            strength: None,
            actions: None,
            start_time: None,
            offset_time: None,
            stop_previous: None,
        }
    }
}

/// The trimmed, non-empty strings of a toy list, in order.
pub open spec fn list_targets(items: Seq<Option<Seq<char>>>) -> Seq<Seq<char>>
    decreases items.len(),
{
    if items.len() == 0 {
        Seq::<Seq<char>>::empty()
    } else {
        let p = list_targets(items.drop_last());
        match items.last() {
            Some(s) => if trim_seq(s).len() > 0 {
                p.push(trim_seq(s))
            } else {
                p
            },
            None => p,
        }
    }
}

/// The toy ids a request addresses; empty means every toy.
pub open spec fn target_toys_spec(toy: Option<ToySelector>) -> Seq<Seq<char>> {
    match toy {
        Some(ToySelector::Text(s)) => if trim_seq(s@).len() == 0 {
            Seq::<Seq<char>>::empty()
        } else {
            seq![trim_seq(s@)]
        },
        Some(ToySelector::List(items)) => list_targets(items.deep_view()),
        _ => Seq::<Seq<char>>::empty(),
    }
}

impl LovenseCommandRequest {
    /// The toy ids the request addresses, trimmed; blank ones are dropped.
    pub fn get_target_toys(&self) -> (r: Vec<String>)
        ensures
            r.deep_view() == target_toys_spec(self.toy),
    {
        let mut r: Vec<String> = Vec::new();
        match &self.toy {
            Some(ToySelector::Text(s)) => {
                let t = trim_str(s.as_str());
                if t.as_str().unicode_len() > 0 {
                    r.push(t);
                    assert(r.deep_view() =~= seq![trim_seq(s@)]);
                } else {
                    assert(r.deep_view() =~= Seq::<Seq<char>>::empty());
                }
            },
            Some(ToySelector::List(items)) => {
                let ghost dv = items.deep_view();
                let mut i: usize = 0;
                assert(dv.take(0) =~= Seq::<Option<Seq<char>>>::empty());
                assert(r.deep_view() =~= Seq::<Seq<char>>::empty());
                while i < items.len()
                    invariant
                        i <= items.len(),
                        dv == items.deep_view(),
                        r.deep_view() == list_targets(dv.take(i as int)),
                    decreases items.len() - i,
                {
                    proof {
                        assert(dv.take(i + 1).drop_last() =~= dv.take(i as int));
                        assert(dv.take(i + 1).last() == dv[i as int]);
                    }
                    match &items[i] {
                        Some(s) => {
                            let t = trim_str(s.as_str());
                            if t.as_str().unicode_len() > 0 {
                                let ghost before = r.deep_view();
                                let ghost raw = r@;
                                let ghost tg = t;
                                r.push(t);
                                proof {
                                    assert(r@ == raw.push(tg));
                                    assert(r.deep_view() =~= before.push(tg@)) by {
                                        assert forall|k: int| 0 <= k < raw.len() implies #[trigger] r.deep_view()[k] == before[k] by {
                                            assert(r@[k] == raw[k]);
                                        }
                                    }
                                }
                            }
                        },
                        None => {},
                    }
                    i = i + 1;
                }
                assert(dv.take(items.len() as int) =~= dv);
            },
            _ => {
                assert(r.deep_view() =~= Seq::<Seq<char>>::empty());
            },
        }
        r
    }
}

// ---------------------------------------------------------------------------
// Devices
// ---------------------------------------------------------------------------

/// What the bridge reads of a Buttplug device: its name and index, which of
/// the outputs it drives it has, and its battery reading (`None` when it has
/// no battery or the reading failed).
pub struct DeviceInfo {
    pub name: String,
    pub index: u32,
    pub can_vibrate: bool,
    pub can_rotate: bool,
    pub can_oscillate: bool,
    pub can_position: bool,
    pub battery: Option<u32>,
}

/// The Lovense toy id of a device: the low 48 bits of the hash of its name and
/// index, as 12 lower-case hexadecimal digits.
pub open spec fn toy_id_of(name: Seq<char>, index: u32) -> Seq<char> {
    hex_fixed((default_hash_of_name_and_index(name, index) % 0x1000000000000) as nat, 12)
}

/// Generates the deterministic 12-character hex toy id of a device.
pub fn generate_toy_id(device: &DeviceInfo) -> (r: String)
    ensures
        r@ == toy_id_of(device.name@, device.index),
        r@.len() == 12,
        forall|i: int| 0 <= i < 12 ==> is_lower_hex_digit(#[trigger] r@[i]),
{
    let h = hash_name_and_index(device.name.as_str(), device.index);
    toy_id_from_hash(h)
}

/// The toy id of a hash: its low 48 bits as 12 lower-case hexadecimal digits.
pub fn toy_id_from_hash(h: u64) -> (r: String)
    ensures
        r@ == hex_fixed((h % 0x1000000000000) as nat, 12),
        r@.len() == 12,
        forall|i: int| 0 <= i < 12 ==> is_lower_hex_digit(#[trigger] r@[i]),
{
    let masked = h & 0xffff_ffff_ffff;
    assert(masked == h % 0x1000000000000) by (bit_vector)
        requires
            masked == h & 0xffff_ffff_ffff,
    ;
    let v = hex_fixed_exec(masked, 12);
    proof {
        lemma_hex_fixed_len(masked as nat, 12);
    }
    string_from_chars(&v)
}

/// `c` is one of `0`-`9`, `a`-`f`.
pub open spec fn is_lower_hex_digit(c: char) -> bool {
    ('0' <= c && c <= '9') || ('a' <= c && c <= 'f')
}

/// Fixed-width hexadecimal text has the given width and only lower-case
/// hexadecimal digits.
pub proof fn lemma_hex_fixed_len(v: nat, n: nat)
    ensures
        hex_fixed(v, n).len() == n,
        forall|i: int| 0 <= i < n ==> is_lower_hex_digit(#[trigger] hex_fixed(v, n)[i]),
    decreases n,
{
    if n > 0 {
        lemma_hex_fixed_len(v / 16, (n - 1) as nat);
        let d = v % 16;
        assert(is_lower_hex_digit(hex_digit_char(d))) by {
            assert(d < 16);
            assert(seq!['0', '1', '2', '3', '4', '5', '6', '7', '8', '9', 'a', 'b', 'c', 'd', 'e', 'f'].len() == 16);
        }
        let h = hex_fixed(v, n);
        assert forall|i: int| 0 <= i < n implies is_lower_hex_digit(#[trigger] h[i]) by {
            if i < n - 1 {
                assert(h[i] == hex_fixed(v / 16, (n - 1) as nat)[i]);
            }
        }
    }
}

/// Two devices with the same name and index get the same toy id, and every
/// toy id is 12 lower-case hexadecimal digits.
pub proof fn law_toy_id_deterministic(a: DeviceInfo, b: DeviceInfo)
    requires
        a.name@ == b.name@,
        a.index == b.index,
    ensures
        toy_id_of(a.name@, a.index) == toy_id_of(b.name@, b.index),
        toy_id_of(a.name@, a.index).len() == 12,
        forall|i: int| 0 <= i < 12 ==> is_lower_hex_digit(#[trigger] toy_id_of(a.name@, a.index)[i]),
{
    lemma_hex_fixed_len((default_hash_of_name_and_index(a.name@, a.index) % 0x1000000000000) as nat, 12);
}

/// Every toy advertises at least one capability, with as many short letters
/// as full names.
pub proof fn law_toy_has_a_function(d: DeviceInfo)
    ensures
        short_function_names_of(d).len() >= 1,
        short_function_names_of(d).len() == full_function_names_of(d).len(),
{
}

/// The battery level a toy shows is always within 0..=100.
pub proof fn law_battery_in_range(reading: Option<u32>)
    ensures
        0 <= battery_level(reading) <= 100,
{
}

/// The `GetToys` object never names one toy id twice, and every device's toy
/// is in it.
pub proof fn law_get_toys_ids_unique(devices: Seq<DeviceInfo>)
    ensures
        ids_unique(collected_toys(devices)),
        forall|i: int| 0 <= i < devices.len() ==> exists|k: int|
            0 <= k < collected_toys(devices).len() && collected_toys(devices)[k].id == #[trigger] toy_info_of(devices[i]).id,
    decreases devices.len(),
{
    lemma_collected_unique(devices);
    if devices.len() > 0 {
        let p = devices.drop_last();
        law_get_toys_ids_unique(p);
        let c = collected_toys(p);
        let t = toy_info_of(devices.last());
        lemma_upsert_keeps_unique(c, t);
        let u = upsert_toy(c, t);
        assert forall|i: int| 0 <= i < devices.len() implies exists|k: int|
            0 <= k < u.len() && u[k].id == #[trigger] toy_info_of(devices[i]).id by {
            if i == devices.len() - 1 {
                let k = choose|k: int| 0 <= k < u.len() && u[k] == t;
                assert(u[k].id == t.id);
            } else {
                assert(devices[i] == p[i]);
                let k = choose|k: int| 0 <= k < c.len() && c[k].id == toy_info_of(p[i]).id;
                if exists|j: int| 0 <= j < c.len() && c[j].id == t.id {
                    let j = choose|j: int| 0 <= j < c.len() && c[j].id == t.id;
                    if k == j {
                        assert(u[k].id == t.id);
                    } else {
                        assert(u[k] == c[k]);
                    }
                } else {
                    assert(u[k] == c[k]);
                }
            }
        }
    }
}

/// Only outputs the device has are driven, except for an explicit stop, and
/// a stop drives nothing else.
pub proof fn law_plan_uses_available_outputs(d: DeviceInfo, feature: Seq<char>)
    ensures
        forall|i: int| 0 <= i < output_plan_spec(d, feature).len() ==> match #[trigger] output_plan_spec(d, feature)[i] {
            DeviceOutput::Vibrate => d.can_vibrate,
            DeviceOutput::Rotate => d.can_rotate,
            DeviceOutput::Oscillate => d.can_oscillate,
            DeviceOutput::Position => d.can_position,
            DeviceOutput::Stop => feature == "stop"@ && output_plan_spec(d, feature).len() == 1,
        },
{
}

/// The short Lovense capability letters of a device.
pub open spec fn short_function_names_of(d: DeviceInfo) -> Seq<Seq<char>> {
    let s = (if d.can_vibrate {
        seq!["v"@]
    } else {
        Seq::<Seq<char>>::empty()
    }) + (if d.can_rotate {
        seq!["r"@]
    } else {
        Seq::<Seq<char>>::empty()
    }) + (if d.can_oscillate {
        seq!["o"@]
    } else {
        Seq::<Seq<char>>::empty()
    }) + (if d.can_position {
        seq!["p"@]
    } else {
        Seq::<Seq<char>>::empty()
    });
    if s.len() == 0 {
        seq!["v"@]
    } else {
        s
    }
}

/// The full Lovense capability names of a device.
pub open spec fn full_function_names_of(d: DeviceInfo) -> Seq<Seq<char>> {
    let s = (if d.can_vibrate {
        seq!["Vibrate"@]
    } else {
        Seq::<Seq<char>>::empty()
    }) + (if d.can_rotate {
        seq!["Rotate"@]
    } else {
        Seq::<Seq<char>>::empty()
    }) + (if d.can_oscillate {
        seq!["Oscillate"@]
    } else {
        Seq::<Seq<char>>::empty()
    }) + (if d.can_position {
        seq!["Position"@]
    } else {
        Seq::<Seq<char>>::empty()
    });
    if s.len() == 0 {
        seq!["Vibrate"@]
    } else {
        s
    }
}

fn push_string(v: &mut Vec<String>, s: &str)
    ensures
        final(v).deep_view() == old(v).deep_view().push(s@),
{
    let ghost before = v.deep_view();
    let ghost raw = v@;
    let t = String::from_str(s);
    let ghost tg = t;
    v.push(t);
    proof {
        assert(v@ == raw.push(tg));
        assert(v.deep_view() =~= before.push(s@)) by {
            assert forall|k: int| 0 <= k < raw.len() implies #[trigger] v.deep_view()[k]
                == before[k] by {
                assert(v@[k] == raw[k]);
            }
        }
    }
}

/// The capability names of a device: short letters and full names, in the
/// order vibrate, rotate, oscillate, position; a device with none of these is
/// presented as a vibrator.
pub fn get_device_functions(device: &DeviceInfo) -> (r: (Vec<String>, Vec<String>))
    ensures
        r.0.deep_view() == short_function_names_of(*device),
        r.1.deep_view() == full_function_names_of(*device),
{
    let mut short_names: Vec<String> = Vec::new();
    let mut full_names: Vec<String> = Vec::new();
    let ghost e = Seq::<Seq<char>>::empty();
    assert(short_names.deep_view() =~= e);
    assert(full_names.deep_view() =~= e);
    if device.can_vibrate {
        push_string(&mut short_names, "v");
        push_string(&mut full_names, "Vibrate");
    }
    if device.can_rotate {
        push_string(&mut short_names, "r");
        push_string(&mut full_names, "Rotate");
    }
    if device.can_oscillate {
        push_string(&mut short_names, "o");
        push_string(&mut full_names, "Oscillate");
    }
    if device.can_position {
        push_string(&mut short_names, "p");
        push_string(&mut full_names, "Position");
    }
    let ghost d = *device;
    let ghost s1 = (if d.can_vibrate { seq!["v"@] } else { e }) + (if d.can_rotate {
        seq!["r"@]
    } else {
        e
    }) + (if d.can_oscillate { seq!["o"@] } else { e }) + (if d.can_position {
        seq!["p"@]
    } else {
        e
    });
    let ghost f1 = (if d.can_vibrate { seq!["Vibrate"@] } else { e }) + (if d.can_rotate {
        seq!["Rotate"@]
    } else {
        e
    }) + (if d.can_oscillate { seq!["Oscillate"@] } else { e }) + (if d.can_position {
        seq!["Position"@]
    } else {
        e
    });
    assert(short_names.deep_view() =~= s1);
    assert(full_names.deep_view() =~= f1);
    if short_names.len() == 0 {
        push_string(&mut short_names, "v");
        push_string(&mut full_names, "Vibrate");
        assert(short_names.deep_view() =~= seq!["v"@]);
        assert(full_names.deep_view() =~= seq!["Vibrate"@]);
    } else {
        assert(f1.len() == s1.len());
    }
    (short_names, full_names)
}

/// The battery level shown for a reading: a missing reading shows 100; a
/// reading is taken as an `i32` and kept within 0..=100.
pub open spec fn battery_level(reading: Option<u32>) -> int {
    match reading {
        None => 100,
        Some(b) => if b <= 100 {
            b as int
        } else if b <= i32::MAX {
            100
        } else {
            0
        },
    }
}

/// The Lovense description of a device.
pub open spec fn toy_info_of(d: DeviceInfo) -> ToyInfoView {
    ToyInfoView {
        id: toy_id_of(d.name@, d.index),
        name: unicode_lowercase(d.name@),
        status: "1"@,
        battery: battery_level(d.battery),
        nick_name: Seq::<char>::empty(),
        version: Seq::<char>::empty(),
        short_function_names: short_function_names_of(d),
        full_function_names: full_function_names_of(d),
    }
}

/// Describes a device as a Lovense toy.
pub fn device_to_toy_info(device: &DeviceInfo) -> (r: ToyInfo)
    ensures
        r@ == toy_info_of(*device),
        0 <= r.battery <= 100,
{
    let id = generate_toy_id(device);
    let name = to_lowercase(device.name.as_str());
    let status = String::from_str("1");
    let battery: i32 = match device.battery {
        None => 100,
        Some(b) => if b <= 100 {
            b as i32
        } else if b <= 0x7fff_ffff {
            100
        } else {
            0
        },
    };
    let (short_function_names, full_function_names) = get_device_functions(device);
    ToyInfo {
        id,
        name,
        status,
        battery,
        nick_name: String::new(),
        version: String::new(),
        short_function_names,
        full_function_names,
    }
}

// ---------------------------------------------------------------------------
// The GetToys answer
// ---------------------------------------------------------------------------

/// A toy description as a JSON object, with the fields in declaration order
/// and camel-case names.
pub open spec fn toy_info_json(t: ToyInfoView) -> Seq<char> {
    "{\"id\":"@ + json_string(t.id) + ",\"name\":"@ + json_string(t.name) + ",\"status\":"@
        + json_string(t.status) + ",\"battery\":"@ + int_decimal(t.battery)
        + ",\"nickName\":"@ + json_string(t.nick_name) + ",\"version\":"@ + json_string(
        t.version,
    ) + ",\"shortFunctionNames\":"@ + json_string_list(t.short_function_names)
        + ",\"fullFunctionNames\":"@ + json_string_list(t.full_function_names) + "}"@
}

/// One `"id":{...}` member of the toys object.
pub open spec fn toy_entry_json(t: ToyInfoView) -> Seq<char> {
    json_string(t.id) + seq![':'] + toy_info_json(t)
}

/// The toys as a JSON object keyed by toy id.
pub open spec fn toys_json(toys: Seq<ToyInfoView>) -> Seq<char> {
    seq!['{'] + comma_join(toys.map_values(|t: ToyInfoView| toy_entry_json(t))) + seq!['}']
}

/// No two toys have the same id.
pub open spec fn ids_unique(toys: Seq<ToyInfoView>) -> bool {
    forall|i: int, j: int|
        0 <= i < toys.len() && 0 <= j < toys.len() && i != j ==> #[trigger] toys[i].id
            != #[trigger] toys[j].id
}

/// `toys` with `t` in the place of the toy with the same id, or added at the
/// end when there is none (a map insertion keyed by id).
pub open spec fn upsert_toy(toys: Seq<ToyInfoView>, t: ToyInfoView) -> Seq<ToyInfoView> {
    if exists|k: int| 0 <= k < toys.len() && toys[k].id == t.id {
        toys.update(choose|k: int| 0 <= k < toys.len() && toys[k].id == t.id, t)
    } else {
        toys.push(t)
    }
}

/// The toys of the devices keyed by id; of devices sharing an id the last one
/// counts.
pub open spec fn collected_toys(devices: Seq<DeviceInfo>) -> Seq<ToyInfoView>
    decreases devices.len(),
{
    if devices.len() == 0 {
        Seq::<ToyInfoView>::empty()
    } else {
        upsert_toy(collected_toys(devices.drop_last()), toy_info_of(devices.last()))
    }
}

pub proof fn lemma_upsert_keeps_unique(toys: Seq<ToyInfoView>, t: ToyInfoView)
    requires
        ids_unique(toys),
    ensures
        ids_unique(upsert_toy(toys, t)),
        exists|k: int| 0 <= k < upsert_toy(toys, t).len() && upsert_toy(toys, t)[k] == t,
{
    if exists|k: int| 0 <= k < toys.len() && toys[k].id == t.id {
        let k = choose|k: int| 0 <= k < toys.len() && toys[k].id == t.id;
        let u = toys.update(k, t);
        assert(u[k] == t);
        assert forall|i: int, j: int|
            0 <= i < u.len() && 0 <= j < u.len() && i != j implies #[trigger] u[i].id
                != #[trigger] u[j].id by {
            if i != k && j != k {
                assert(u[i] == toys[i] && u[j] == toys[j]);
            } else if i == k {
                assert(u[j] == toys[j]);
                assert(toys[k].id != toys[j].id);
            } else {
                assert(u[i] == toys[i]);
                assert(toys[k].id != toys[i].id);
            }
        }
    } else {
        let u = toys.push(t);
        assert(u[toys.len() as int] == t);
        assert forall|i: int, j: int|
            0 <= i < u.len() && 0 <= j < u.len() && i != j implies #[trigger] u[i].id
                != #[trigger] u[j].id by {
            if i < toys.len() && j < toys.len() {
                assert(u[i] == toys[i] && u[j] == toys[j]);
            } else if i < toys.len() {
                assert(u[i] == toys[i]);
            } else {
                assert(u[j] == toys[j]);
            }
        }
    }
}

pub proof fn lemma_collected_unique(devices: Seq<DeviceInfo>)
    ensures
        ids_unique(collected_toys(devices)),
    decreases devices.len(),
{
    if devices.len() > 0 {
        lemma_collected_unique(devices.drop_last());
        lemma_upsert_keeps_unique(collected_toys(devices.drop_last()), toy_info_of(devices.last()));
    }
}

/// Inserts `info` into `toys` keyed by its id.
fn upsert_toy_exec(toys: &mut Vec<ToyInfo>, info: ToyInfo)
    requires
        ids_unique(old(toys)@.map_values(|t: ToyInfo| t@)),
    ensures
        final(toys)@.map_values(|t: ToyInfo| t@) == upsert_toy(
            old(toys)@.map_values(|t: ToyInfo| t@),
            info@,
        ),
{
    let ghost m = toys@.map_values(|t: ToyInfo| t@);
    let mut i: usize = 0;
    while i < toys.len()
        invariant
            i <= toys.len(),
            toys@ == old(toys)@,
            m == toys@.map_values(|t: ToyInfo| t@),
            ids_unique(m),
            forall|k: int| 0 <= k < i ==> #[trigger] m[k].id != info@.id,
        decreases toys.len() - i,
    {
        if toys[i].id == info.id {
            proof {
                assert(m[i as int].id == info@.id);
                assert(exists|k: int| 0 <= k < m.len() && m[k].id == info@.id);
                let c = choose|k: int| 0 <= k < m.len() && m[k].id == info@.id;
                assert(0 <= c < m.len() && m[c].id == info@.id);
                if c != i {
                    assert(m[c].id != m[i as int].id);
                }
                assert(c == i);
            }
            let ghost pre = toys@;
            toys.set(i, info);
            proof {
                assert(toys@ == pre.update(i as int, info));
                assert(toys@.map_values(|t: ToyInfo| t@) =~= m.update(i as int, info@));
            }
            return;
        }
        i = i + 1;
    }
    let ghost pre = toys@;
    let ghost iv = info@;
    toys.push(info);
    proof {
        assert(!exists|k: int| 0 <= k < m.len() && m[k].id == iv.id) by {
            assert forall|k: int| 0 <= k < m.len() implies m[k].id != iv.id by {
                assert(m[k].id != iv.id);
            }
        }
        assert(toys@.map_values(|t: ToyInfo| t@) =~= m.push(iv));
    }
}

/// Appends the toys as a JSON object keyed by toy id.
fn append_toys_json(out: &mut String, toys: &Vec<ToyInfo>)
    ensures
        final(out)@ == old(out)@ + toys_json(toys@.map_values(|t: ToyInfo| t@)),
{
    let ghost parts = toys@.map_values(|t: ToyInfo| t@).map_values(
        |t: ToyInfoView| toy_entry_json(t),
    );
    push_char(out, '{');
    let mut i: usize = 0;
    while i < toys.len()
        invariant
            i <= toys.len(),
            parts == toys@.map_values(|t: ToyInfo| t@).map_values(
                |t: ToyInfoView| toy_entry_json(t),
            ),
            out@ == old(out)@ + seq!['{'] + comma_join(parts.take(i as int)),
        decreases toys.len() - i,
    {
        proof {
            lemma_comma_join_push(parts.take(i as int), parts[i as int]);
            assert(parts.take(i + 1) =~= parts.take(i as int).push(parts[i as int]));
        }
        if i > 0 {
            push_char(out, ',');
        }
        append_toy_entry(out, &toys[i]);
        proof {
            assert(parts[i as int] == toy_entry_json(toys@[i as int]@));
            if i > 0 {
                assert(out@ =~= old(out)@ + seq!['{'] + (comma_join(parts.take(i as int)) + seq![
                    ',',
                ] + parts[i as int]));
            } else {
                assert(out@ =~= old(out)@ + seq!['{'] + parts[i as int]);
            }
        }
        i = i + 1;
    }
    push_char(out, '}');
    assert(parts.take(toys.len() as int) =~= parts);
    assert(out@ =~= old(out)@ + toys_json(toys@.map_values(|t: ToyInfo| t@)));
}

/// Appends one `"id":{...}` member.
fn append_toy_entry(out: &mut String, t: &ToyInfo)
    ensures
        final(out)@ == old(out)@ + toy_entry_json(t@),
{
    let mut s = String::new();
    append_json_string(&mut s, t.id.as_str());
    push_char(&mut s, ':');
    s.append("{\"id\":");
    append_json_string(&mut s, t.id.as_str());
    s.append(",\"name\":");
    append_json_string(&mut s, t.name.as_str());
    s.append(",\"status\":");
    append_json_string(&mut s, t.status.as_str());
    s.append(",\"battery\":");
    append_i32(&mut s, t.battery);
    s.append(",\"nickName\":");
    append_json_string(&mut s, t.nick_name.as_str());
    s.append(",\"version\":");
    append_json_string(&mut s, t.version.as_str());
    s.append(",\"shortFunctionNames\":");
    append_json_string_list(&mut s, &t.short_function_names);
    s.append(",\"fullFunctionNames\":");
    append_json_string_list(&mut s, &t.full_function_names);
    s.append("}");
    assert(s@ =~= toy_entry_json(t@));
    let v = chars_of(s.as_str());
    append_seq(out, &v);
}

/// The toys, keyed by id, as the JSON object text of a `GetToys` answer.
pub fn toys_json_text(toys: &Vec<ToyInfo>) -> (r: String)
    ensures
        r@ == toys_json(toys@.map_values(|t: ToyInfo| t@)),
{
    let mut r = String::new();
    append_toys_json(&mut r, toys);
    assert(r@ =~= toys_json(toys@.map_values(|t: ToyInfo| t@)));
    r
}

/// Builds the `GetToys` data for the devices: their toy descriptions as a
/// JSON object keyed by toy id (the last device of an id counts), platform
/// `"ios"`, app type `"remote"`.
pub fn build_get_toys_response(devices: &Vec<DeviceInfo>) -> (r: GetToysData)
    ensures
        r.toys@ == toys_json(collected_toys(devices@)),
        holds_text(r.platform, "ios"@),
        holds_text(r.app_type, "remote"@),
{
    let mut toys: Vec<ToyInfo> = Vec::new();
    let mut i: usize = 0;
    assert(toys@.map_values(|t: ToyInfo| t@) =~= Seq::<ToyInfoView>::empty());
    assert(devices@.take(0) =~= Seq::<DeviceInfo>::empty());
    while i < devices.len()
        invariant
            i <= devices.len(),
            toys@.map_values(|t: ToyInfo| t@) == collected_toys(devices@.take(i as int)),
        decreases devices.len() - i,
    {
        let info = device_to_toy_info(&devices[i]);
        proof {
            lemma_collected_unique(devices@.take(i as int));
            let s = devices@.take(i + 1);
            assert(s.drop_last() =~= devices@.take(i as int));
            assert(s.last() == devices@[i as int]);
        }
        upsert_toy_exec(&mut toys, info);
        i = i + 1;
    }
    assert(devices@.take(devices.len() as int) =~= devices@);
    let text = toys_json_text(&toys);
    GetToysData {
        toys: text,
        platform: Some(String::from_str("ios")),
        app_type: Some(String::from_str("remote")),
    }
}

/// The names of the connected devices, in order (the `GetToyName` answer);
/// empty when none is connected.
pub fn get_toy_names(devices: &Vec<DeviceInfo>) -> (r: Vec<String>)
    ensures
        r.deep_view() == devices@.map_values(|d: DeviceInfo| d.name@),
{
    let mut names: Vec<String> = Vec::new();
    let mut i: usize = 0;
    assert(names.deep_view() =~= Seq::<Seq<char>>::empty());
    while i < devices.len()
        invariant
            i <= devices.len(),
            names.deep_view() == devices@.take(i as int).map_values(|d: DeviceInfo| d.name@),
        decreases devices.len() - i,
    {
        push_string(&mut names, devices[i].name.as_str());
        assert(devices@.take(i + 1).map_values(|d: DeviceInfo| d.name@) =~= devices@.take(
            i as int,
        ).map_values(|d: DeviceInfo| d.name@).push(devices@[i as int].name@));
        i = i + 1;
    }
    assert(devices@.take(devices.len() as int) =~= devices@);
    names
}

// ---------------------------------------------------------------------------
// Driving device outputs
// ---------------------------------------------------------------------------

/// One command sent to a device when a strength is applied.
#[derive(Debug, Clone, Copy, PartialEq, Eq, Structural)]
pub enum DeviceOutput {
    Vibrate,
    Rotate,
    Oscillate,
    Position,
    Stop,
}

/// The outputs driven for a Lovense feature name (already lower-cased) on a
/// device, in the order they are sent.
pub open spec fn output_plan_spec(d: DeviceInfo, feature: Seq<char>) -> Seq<DeviceOutput> {
    let e = Seq::<DeviceOutput>::empty();
    if feature == "v"@ || feature == "vibrate"@ {
        if d.can_vibrate { seq![DeviceOutput::Vibrate] } else { e }
    } else if feature == "r"@ || feature == "rotate"@ {
        if d.can_rotate { seq![DeviceOutput::Rotate] } else { e }
    } else if feature == "o"@ || feature == "oscillate"@ || feature == "pump"@ || feature
        == "thrusting"@ || feature == "fingering"@ || feature == "suction"@ {
        if d.can_oscillate {
            seq![DeviceOutput::Oscillate]
        } else if d.can_vibrate {
            seq![DeviceOutput::Vibrate]
        } else {
            e
        }
    } else if feature == "p"@ || feature == "position"@ || feature == "depth"@ || feature
        == "stroke"@ {
        if d.can_position {
            seq![DeviceOutput::Position]
        } else if d.can_oscillate {
            seq![DeviceOutput::Oscillate]
        } else if d.can_vibrate {
            seq![DeviceOutput::Vibrate]
        } else {
            e
        }
    } else if feature == "all"@ {
        (if d.can_vibrate { seq![DeviceOutput::Vibrate] } else { e }) + (if d.can_rotate {
            seq![DeviceOutput::Rotate]
        } else {
            e
        }) + (if d.can_oscillate { seq![DeviceOutput::Oscillate] } else { e }) + (
        if d.can_position {
            seq![DeviceOutput::Position]
        } else {
            e
        })
    } else if feature == "stop"@ {
        seq![DeviceOutput::Stop]
    } else {
        if d.can_vibrate { seq![DeviceOutput::Vibrate] } else { e }
    }
}

fn is_one_of(v: &Vec<char>, a: &str, b: &str) -> (r: bool)
    ensures
        r == (v@ == a@ || v@ == b@),
{
    str_equals(v, a) || str_equals(v, b)
}

/// Which outputs of a device are driven, in order, when a strength is applied
/// for a Lovense feature name (compared case-insensitively).
pub fn device_output_plan(device: &DeviceInfo, feature: &str) -> (r: Vec<DeviceOutput>)
    ensures
        r@ == output_plan_spec(*device, unicode_lowercase(feature@)),
        is_ascii_chars(feature@) ==> r@ == output_plan_spec(*device, ascii_lowercase(feature@)),
{
    let lower = to_lowercase(feature);
    output_plan_for(device, lower.as_str())
}

/// Which outputs of a device are driven, in order, for an already lower-cased
/// Lovense feature name.
pub fn output_plan_for(device: &DeviceInfo, lower: &str) -> (r: Vec<DeviceOutput>)
    ensures
        r@ == output_plan_spec(*device, lower@),
{
    let f = chars_of(lower);
    let mut r: Vec<DeviceOutput> = Vec::new();
    if is_one_of(&f, "v", "vibrate") {
        if device.can_vibrate {
            r.push(DeviceOutput::Vibrate);
        }
    } else if is_one_of(&f, "r", "rotate") {
        if device.can_rotate {
            r.push(DeviceOutput::Rotate);
        }
    } else if is_one_of(&f, "o", "oscillate") || is_one_of(&f, "pump", "thrusting") || is_one_of(
        &f,
        "fingering",
        "suction",
    ) {
        if device.can_oscillate {
            r.push(DeviceOutput::Oscillate);
        } else if device.can_vibrate {
            r.push(DeviceOutput::Vibrate);
        }
    } else if is_one_of(&f, "p", "position") || is_one_of(&f, "depth", "stroke") {
        if device.can_position {
            r.push(DeviceOutput::Position);
        } else if device.can_oscillate {
            r.push(DeviceOutput::Oscillate);
        } else if device.can_vibrate {
            r.push(DeviceOutput::Vibrate);
        }
    } else if str_equals(&f, "all") {
        if device.can_vibrate {
            r.push(DeviceOutput::Vibrate);
        }
        if device.can_rotate {
            r.push(DeviceOutput::Rotate);
        }
        if device.can_oscillate {
            r.push(DeviceOutput::Oscillate);
        }
        if device.can_position {
            r.push(DeviceOutput::Position);
        }
    } else if str_equals(&f, "stop") {
        r.push(DeviceOutput::Stop);
    } else {
        if device.can_vibrate {
            r.push(DeviceOutput::Vibrate);
        }
    }
    assert(r@ =~= output_plan_spec(*device, lower@));
    r
}


/// A trimmed text that is not empty begins and ends with a character that is
/// not whitespace.
pub proof fn lemma_trimmed_ends(s: Seq<char>)
    ensures
        trim_seq(s).len() > 0 ==> !is_white_space(trim_seq(s)[0]) && !is_white_space(
            trim_seq(s).last(),
        ),
{
    lemma_trim_start_shape(s);
    lemma_trim_end_shape(trim_start_seq(s));
}

proof fn lemma_trim_start_shape(s: Seq<char>)
    ensures
        trim_start_seq(s).len() > 0 ==> !is_white_space(trim_start_seq(s)[0]),
    decreases s.len(),
{
    if s.len() > 0 && is_white_space(s[0]) {
        lemma_trim_start_shape(s.drop_first());
    }
}

proof fn lemma_trim_end_shape(s: Seq<char>)
    ensures
        trim_end_seq(s).len() > 0 ==> !is_white_space(trim_end_seq(s).last()) && trim_end_seq(
            s,
        )[0] == s[0],
    decreases s.len(),
{
    if s.len() > 0 && is_white_space(s.last()) {
        lemma_trim_end_shape(s.drop_last());
    }
}

/// Every toy id a request addresses is non-empty and carries no surrounding
/// whitespace.
pub proof fn law_targets_trimmed(toy: Option<ToySelector>)
    ensures
        forall|i: int|
            0 <= i < target_toys_spec(toy).len() ==> (#[trigger] target_toys_spec(toy)[i]).len()
                > 0 && !is_white_space(target_toys_spec(toy)[i][0]) && !is_white_space(
                target_toys_spec(toy)[i].last(),
            ),
{
    match toy {
        Some(ToySelector::Text(s)) => {
            lemma_trimmed_ends(s@);
        },
        Some(ToySelector::List(items)) => {
            lemma_list_targets_trimmed(items.deep_view());
        },
        _ => {},
    }
}

proof fn lemma_list_targets_trimmed(items: Seq<Option<Seq<char>>>)
    ensures
        forall|i: int|
            0 <= i < list_targets(items).len() ==> (#[trigger] list_targets(items)[i]).len() > 0
                && !is_white_space(list_targets(items)[i][0]) && !is_white_space(
                list_targets(items)[i].last(),
            ),
    decreases items.len(),
{
    if items.len() > 0 {
        lemma_list_targets_trimmed(items.drop_last());
        let p = list_targets(items.drop_last());
        match items.last() {
            Some(s) => {
                lemma_trimmed_ends(s);
            },
            None => {},
        }
        assert forall|i: int| 0 <= i < list_targets(items).len() implies (#[trigger] list_targets(
            items,
        )[i]).len() > 0 && !is_white_space(list_targets(items)[i][0]) && !is_white_space(
            list_targets(items)[i].last(),
        ) by {
            if i < p.len() {
                assert(list_targets(items)[i] == p[i]);
            }
        }
    }
}


proof fn lemma_feature_names(f: Seq<char>)
    ensures
        (ascii_lowercase(f) == "v"@) <==> eq_ignore_ascii_case_seq(f, "v"@),
        (ascii_lowercase(f) == "vibrate"@) <==> eq_ignore_ascii_case_seq(f, "vibrate"@),
        (ascii_lowercase(f) == "r"@) <==> eq_ignore_ascii_case_seq(f, "r"@),
        (ascii_lowercase(f) == "rotate"@) <==> eq_ignore_ascii_case_seq(f, "rotate"@),
        (ascii_lowercase(f) == "o"@) <==> eq_ignore_ascii_case_seq(f, "o"@),
        (ascii_lowercase(f) == "oscillate"@) <==> eq_ignore_ascii_case_seq(f, "oscillate"@),
        (ascii_lowercase(f) == "pump"@) <==> eq_ignore_ascii_case_seq(f, "pump"@),
        (ascii_lowercase(f) == "thrusting"@) <==> eq_ignore_ascii_case_seq(f, "thrusting"@),
        (ascii_lowercase(f) == "fingering"@) <==> eq_ignore_ascii_case_seq(f, "fingering"@),
        (ascii_lowercase(f) == "suction"@) <==> eq_ignore_ascii_case_seq(f, "suction"@),
        (ascii_lowercase(f) == "p"@) <==> eq_ignore_ascii_case_seq(f, "p"@),
        (ascii_lowercase(f) == "position"@) <==> eq_ignore_ascii_case_seq(f, "position"@),
        (ascii_lowercase(f) == "depth"@) <==> eq_ignore_ascii_case_seq(f, "depth"@),
        (ascii_lowercase(f) == "stroke"@) <==> eq_ignore_ascii_case_seq(f, "stroke"@),
        (ascii_lowercase(f) == "all"@) <==> eq_ignore_ascii_case_seq(f, "all"@),
        (ascii_lowercase(f) == "stop"@) <==> eq_ignore_ascii_case_seq(f, "stop"@),
{
    reveal_strlit("v");
    assert(ascii_lowercase("v"@) =~= "v"@);
    lemma_lowercases_to(f, "v"@);
    reveal_strlit("vibrate");
    assert(ascii_lowercase("vibrate"@) =~= "vibrate"@);
    lemma_lowercases_to(f, "vibrate"@);
    reveal_strlit("r");
    assert(ascii_lowercase("r"@) =~= "r"@);
    lemma_lowercases_to(f, "r"@);
    reveal_strlit("rotate");
    assert(ascii_lowercase("rotate"@) =~= "rotate"@);
    lemma_lowercases_to(f, "rotate"@);
    reveal_strlit("o");
    assert(ascii_lowercase("o"@) =~= "o"@);
    lemma_lowercases_to(f, "o"@);
    reveal_strlit("oscillate");
    assert(ascii_lowercase("oscillate"@) =~= "oscillate"@);
    lemma_lowercases_to(f, "oscillate"@);
    reveal_strlit("pump");
    assert(ascii_lowercase("pump"@) =~= "pump"@);
    lemma_lowercases_to(f, "pump"@);
    reveal_strlit("thrusting");
    assert(ascii_lowercase("thrusting"@) =~= "thrusting"@);
    lemma_lowercases_to(f, "thrusting"@);
    reveal_strlit("fingering");
    assert(ascii_lowercase("fingering"@) =~= "fingering"@);
    lemma_lowercases_to(f, "fingering"@);
    reveal_strlit("suction");
    assert(ascii_lowercase("suction"@) =~= "suction"@);
    lemma_lowercases_to(f, "suction"@);
    reveal_strlit("p");
    assert(ascii_lowercase("p"@) =~= "p"@);
    lemma_lowercases_to(f, "p"@);
    reveal_strlit("position");
    assert(ascii_lowercase("position"@) =~= "position"@);
    lemma_lowercases_to(f, "position"@);
    reveal_strlit("depth");
    assert(ascii_lowercase("depth"@) =~= "depth"@);
    lemma_lowercases_to(f, "depth"@);
    reveal_strlit("stroke");
    assert(ascii_lowercase("stroke"@) =~= "stroke"@);
    lemma_lowercases_to(f, "stroke"@);
    reveal_strlit("all");
    assert(ascii_lowercase("all"@) =~= "all"@);
    lemma_lowercases_to(f, "all"@);
    reveal_strlit("stop");
    assert(ascii_lowercase("stop"@) =~= "stop"@);
    lemma_lowercases_to(f, "stop"@);
}

/// `o` alone when `b` holds, nothing otherwise.
pub open spec fn only_if(b: bool, o: DeviceOutput) -> Seq<DeviceOutput> {
    if b {
        seq![o]
    } else {
        Seq::<DeviceOutput>::empty()
    }
}

/// Which outputs a feature name drives, for every device and every name (the
/// name compared without regard to ASCII case): a vibrate or rotate name
/// drives that output when the device has it; an oscillate-family name
/// (oscillate, pump, thrusting, fingering, suction) drives oscillation when
/// the device can oscillate and only otherwise falls back to vibration; a
/// position-family name (position, depth, stroke) prefers position, then
/// oscillation, then vibration; `all` drives every output the device has, in
/// the order vibrate, rotate, oscillate, position; `stop` stops; any other
/// name drives vibration when the device has it.
#[verifier::spinoff_prover]
pub proof fn law_outputs_by_feature(d: DeviceInfo, f: Seq<char>)
    ensures
        eq_ignore_ascii_case_seq(f, "v"@) || eq_ignore_ascii_case_seq(f, "vibrate"@) ==> output_plan_spec(d, ascii_lowercase(f)) == only_if(d.can_vibrate, DeviceOutput::Vibrate),
        eq_ignore_ascii_case_seq(f, "r"@) || eq_ignore_ascii_case_seq(f, "rotate"@) ==> output_plan_spec(d, ascii_lowercase(f)) == only_if(d.can_rotate, DeviceOutput::Rotate),
        (eq_ignore_ascii_case_seq(f, "o"@) || eq_ignore_ascii_case_seq(f, "oscillate"@) || eq_ignore_ascii_case_seq(f, "pump"@) || eq_ignore_ascii_case_seq(f, "thrusting"@) || eq_ignore_ascii_case_seq(f, "fingering"@) || eq_ignore_ascii_case_seq(f, "suction"@)) && d.can_oscillate
            ==> output_plan_spec(d, ascii_lowercase(f)) == seq![DeviceOutput::Oscillate],
        (eq_ignore_ascii_case_seq(f, "o"@) || eq_ignore_ascii_case_seq(f, "oscillate"@) || eq_ignore_ascii_case_seq(f, "pump"@) || eq_ignore_ascii_case_seq(f, "thrusting"@) || eq_ignore_ascii_case_seq(f, "fingering"@) || eq_ignore_ascii_case_seq(f, "suction"@)) && !d.can_oscillate
            ==> output_plan_spec(d, ascii_lowercase(f)) == only_if(d.can_vibrate, DeviceOutput::Vibrate),
        (eq_ignore_ascii_case_seq(f, "p"@) || eq_ignore_ascii_case_seq(f, "position"@) || eq_ignore_ascii_case_seq(f, "depth"@) || eq_ignore_ascii_case_seq(f, "stroke"@)) && d.can_position ==> output_plan_spec(d, ascii_lowercase(f))
            == seq![DeviceOutput::Position],
        (eq_ignore_ascii_case_seq(f, "p"@) || eq_ignore_ascii_case_seq(f, "position"@) || eq_ignore_ascii_case_seq(f, "depth"@) || eq_ignore_ascii_case_seq(f, "stroke"@)) && !d.can_position && d.can_oscillate ==> output_plan_spec(d, ascii_lowercase(f))
            == seq![DeviceOutput::Oscillate],
        (eq_ignore_ascii_case_seq(f, "p"@) || eq_ignore_ascii_case_seq(f, "position"@) || eq_ignore_ascii_case_seq(f, "depth"@) || eq_ignore_ascii_case_seq(f, "stroke"@)) && !d.can_position && !d.can_oscillate
            ==> output_plan_spec(d, ascii_lowercase(f)) == only_if(d.can_vibrate, DeviceOutput::Vibrate),
        eq_ignore_ascii_case_seq(f, "all"@) ==> output_plan_spec(d, ascii_lowercase(f)) == only_if(d.can_vibrate, DeviceOutput::Vibrate) + only_if(
            d.can_rotate,
            DeviceOutput::Rotate,
        ) + only_if(d.can_oscillate, DeviceOutput::Oscillate) + only_if(
            d.can_position,
            DeviceOutput::Position,
        ),
        eq_ignore_ascii_case_seq(f, "stop"@) ==> output_plan_spec(d, ascii_lowercase(f)) == seq![DeviceOutput::Stop],
        !(eq_ignore_ascii_case_seq(f, "v"@) || eq_ignore_ascii_case_seq(f, "vibrate"@) || eq_ignore_ascii_case_seq(f, "r"@) || eq_ignore_ascii_case_seq(f, "rotate"@) || eq_ignore_ascii_case_seq(f, "o"@) || eq_ignore_ascii_case_seq(f, "oscillate"@) || eq_ignore_ascii_case_seq(f, "pump"@) || eq_ignore_ascii_case_seq(f, "thrusting"@) || eq_ignore_ascii_case_seq(f, "fingering"@) || eq_ignore_ascii_case_seq(f, "suction"@) || eq_ignore_ascii_case_seq(f, "p"@) || eq_ignore_ascii_case_seq(f, "position"@) || eq_ignore_ascii_case_seq(f, "depth"@) || eq_ignore_ascii_case_seq(f, "stroke"@) || eq_ignore_ascii_case_seq(f, "all"@) || eq_ignore_ascii_case_seq(f, "stop"@)) ==> output_plan_spec(d, ascii_lowercase(f)) == only_if(d.can_vibrate, DeviceOutput::Vibrate),
{
    lemma_feature_names(f);
    reveal_strlit("v");
    reveal_strlit("vibrate");
    reveal_strlit("r");
    reveal_strlit("rotate");
    reveal_strlit("o");
    reveal_strlit("oscillate");
    reveal_strlit("pump");
    reveal_strlit("thrusting");
    reveal_strlit("fingering");
    reveal_strlit("suction");
    reveal_strlit("p");
    reveal_strlit("position");
    reveal_strlit("depth");
    reveal_strlit("stroke");
    reveal_strlit("all");
    reveal_strlit("stop");
    let l = ascii_lowercase(f);
    if l == "v"@ {
        assert(l.len() == 1 && l[0] == 'v');
    }
    if l == "vibrate"@ {
        assert(l.len() == 7 && l[0] == 'v');
    }
    if l == "r"@ {
        assert(l.len() == 1 && l[0] == 'r');
    }
    if l == "rotate"@ {
        assert(l.len() == 6 && l[0] == 'r');
    }
    if l == "o"@ {
        assert(l.len() == 1 && l[0] == 'o');
    }
    if l == "oscillate"@ {
        assert(l.len() == 9 && l[0] == 'o');
    }
    if l == "pump"@ {
        assert(l.len() == 4 && l[0] == 'p');
    }
    if l == "thrusting"@ {
        assert(l.len() == 9 && l[0] == 't');
    }
    if l == "fingering"@ {
        assert(l.len() == 9 && l[0] == 'f');
    }
    if l == "suction"@ {
        assert(l.len() == 7 && l[0] == 's');
    }
    if l == "p"@ {
        assert(l.len() == 1 && l[0] == 'p');
    }
    if l == "position"@ {
        assert(l.len() == 8 && l[0] == 'p');
    }
    if l == "depth"@ {
        assert(l.len() == 5 && l[0] == 'd');
    }
    if l == "stroke"@ {
        assert(l.len() == 6 && l[0] == 's');
    }
    if l == "all"@ {
        assert(l.len() == 3 && l[0] == 'a');
    }
    if l == "stop"@ {
        assert(l.len() == 4 && l[0] == 's');
    }
    assert(output_plan_spec(d, "all"@) =~= only_if(d.can_vibrate, DeviceOutput::Vibrate) + only_if(d.can_rotate, DeviceOutput::Rotate)
        + only_if(d.can_oscillate, DeviceOutput::Oscillate) + only_if(
        d.can_position,
        DeviceOutput::Position,
    ));
}

} // verus!
