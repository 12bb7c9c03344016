//! The audio-graph model: devices, their stereo ports, and the
//! decisions behind routing.
//!
//! The graph service announces global objects as property dictionaries.
//! This module classifies each announcement as an audio device or a
//! port, attaches ports to their devices by node id following the
//! port-name table, and plans the stereo link pair that splices the
//! selected capture device into the virtual microphone.  The event loop
//! that produces the announcements, and the objects that hold links
//! alive, live outside the library; everything here is a function on
//! plain values.

use vstd::prelude::*;
use crate::text;
use crate::wire;

verus! {

/// Message sent to a graph thread to end its loop.
pub struct Terminate {}

/// Node name under which the virtual microphone announces itself.
pub open spec fn virtual_mic_name() -> Seq<char> {
    "pwsp-virtual-mic"@
}

#[derive(Clone, Copy, Debug, PartialEq, Eq, Structural)]
pub enum DeviceType {
    Input,
    Output,
}

/// One endpoint in the audio graph.
pub struct Port {
    pub node_id: u32,
    pub port_id: u32,
    pub name: String,
}

/// The given port carries these identifying values.
pub open spec fn port_is(p: Port, node_id: u32, port_id: u32, name: Seq<char>) -> bool {
    p.node_id == node_id && p.port_id == port_id && p.name@ == name
}

impl Port {
    /// A fresh port value with the same contents.
    pub fn dup(&self) -> (r: Port)
        ensures
            port_is(r, self.node_id, self.port_id, self.name@),
            r@ == self@,
    {
        Port { node_id: self.node_id, port_id: self.port_id, name: self.name.clone() }
    }
}

/// Mathematical shape of a port.
pub ghost struct PortView {
    pub node_id: u32,
    pub port_id: u32,
    pub name: Seq<char>,
}

impl View for Port {
    type V = PortView;

    open spec fn view(&self) -> PortView {
        PortView { node_id: self.node_id, port_id: self.port_id, name: self.name@ }
    }
}

/// A node of the audio graph with its resolved stereo ports.
pub struct AudioDevice {
    pub id: u32,
    pub nick: String,
    pub name: String,
    pub device_type: DeviceType,
    pub input_fl: Option<Port>,
    pub input_fr: Option<Port>,
    pub output_fl: Option<Port>,
    pub output_fr: Option<Port>,
}

/// Mathematical shape of a device.
pub ghost struct DeviceView {
    pub id: u32,
    pub nick: Seq<char>,
    pub name: Seq<char>,
    pub device_type: DeviceType,
    pub input_fl: Option<PortView>,
    pub input_fr: Option<PortView>,
    pub output_fl: Option<PortView>,
    pub output_fr: Option<PortView>,
}

pub open spec fn opt_port_view(p: Option<Port>) -> Option<PortView> {
    match p {
        Option::Some(p) => Option::Some(p@),
        Option::None => Option::None,
    }
}

impl View for AudioDevice {
    type V = DeviceView;

    open spec fn view(&self) -> DeviceView {
        DeviceView {
            id: self.id,
            nick: self.nick@,
            name: self.name@,
            device_type: self.device_type,
            input_fl: opt_port_view(self.input_fl),
            input_fr: opt_port_view(self.input_fr),
            output_fl: opt_port_view(self.output_fl),
            output_fr: opt_port_view(self.output_fr),
        }
    }
}

/// The views of a device list.
pub open spec fn devs_view(dv: Seq<AudioDevice>) -> Seq<DeviceView> {
    dv.map_values(|d: AudioDevice| d@)
}

/// The views of a port list.
pub open spec fn ports_view(ps: Seq<Port>) -> Seq<PortView> {
    ps.map_values(|p: Port| p@)
}

/// Whether `s` begins with `prefix`.
pub open spec fn spec_starts_with(s: Seq<char>, prefix: Seq<char>) -> bool {
    s.len() >= prefix.len() && s.take(prefix.len() as int) == prefix
}

/// Character-wise prefix test.
pub fn str_starts_with(s: &str, prefix: &str) -> (r: bool)
    ensures
        r == spec_starts_with(s@, prefix@),
{
    let n = prefix.unicode_len();
    if s.unicode_len() < n {
        return false;
    }
    let mut i: usize = 0;
    while i < n
        invariant
            i <= n,
            n == prefix@.len(),
            n <= s@.len(),
            forall|k: int| 0 <= k < i ==> s@[k] == prefix@[k],
        decreases n - i,
    {
        if s.get_char(i) != prefix.get_char(i) {
            assert(s@.take(n as int)[i as int] != prefix@[i as int]);
            return false;
        }
        i += 1;
    }
    assert(s@.take(n as int) =~= prefix@);
    true
}

/// Media classes that make a node a capture source.
pub open spec fn is_input_class(c: Seq<char>) -> bool {
    spec_starts_with(c, "Audio/Source"@)
}

/// Media classes that make a node an application output stream.
pub open spec fn is_output_class(c: Seq<char>) -> bool {
    spec_starts_with(c, "Stream/Output/Audio"@)
}

/// A node's display name: its nick, else its description, else its name.
pub open spec fn spec_nick(pv: Seq<(Seq<char>, Seq<char>)>) -> Seq<char> {
    match wire::lookup_arg(pv, "node.nick"@) {
        Some(n) => n,
        None => match wire::lookup_arg(pv, "node.description"@) {
            Some(d) => d,
            None => match wire::lookup_arg(pv, "node.name"@) {
                Some(nm) => nm,
                None => Seq::empty(),
            },
        },
    }
}

pub open spec fn spec_node_name(pv: Seq<(Seq<char>, Seq<char>)>) -> Seq<char> {
    match wire::lookup_arg(pv, "node.name"@) {
        Some(nm) => nm,
        None => Seq::empty(),
    }
}

/// A freshly classified device: identity from the announcement, kind
/// from the media class, and no ports attached yet.
pub open spec fn device_from_props(
    d: AudioDevice,
    object_id: u32,
    pv: Seq<(Seq<char>, Seq<char>)>,
    ty: DeviceType,
) -> bool {
    &&& d.id == object_id
    &&& d.nick@ == spec_nick(pv)
    &&& d.name@ == spec_node_name(pv)
    &&& d.device_type == ty
    &&& d.input_fl is None
    &&& d.input_fr is None
    &&& d.output_fl is None
    &&& d.output_fr is None
}

/// What a port announcement must carry: its parent node id, its own id,
/// and its name, with both ids as decimal numbers.
pub open spec fn spec_port_of_props(pv: Seq<(Seq<char>, Seq<char>)>) -> Option<(u32, u32, Seq<char>)> {
    match (wire::lookup_arg(pv, "node.id"@), wire::lookup_arg(pv, "port.id"@), wire::lookup_arg(
        pv,
        "port.name"@,
    )) {
        (Some(ns), Some(ps), Some(nm)) => match (
            text::spec_parse_u32(ns),
            text::spec_parse_u32(ps),
        ) {
            (Some(n), Some(p)) => Some((n, p, nm)),
            _ => None,
        },
        _ => None,
    }
}

fn props_string(props: &Vec<(String, String)>, key: &str) -> (r: Option<String>)
    ensures
        match r {
            Some(s) => wire::lookup_arg(wire::kv_view(props@), key@) == Some(s@),
            None => wire::lookup_arg(wire::kv_view(props@), key@) is None,
        },
{
    wire::lookup_pair(props, key)
}

/// Classify one global-object announcement, given its object id and
/// its property dictionary.  A node with a media class becomes an
/// [`AudioDevice`] when the class marks a capture source or an
/// application stream; an object with a port direction becomes a
/// [`Port`] when its ids parse.  Anything else is neither.
pub fn parse_global_object(object_id: u32, props: &Vec<(String, String)>) -> (r: (
    Option<AudioDevice>,
    Option<Port>,
))
    ensures
        ({
            let pv = wire::kv_view(props@);
            match wire::lookup_arg(pv, "media.class"@) {
                Some(mc) => {
                    &&& r.1 is None
                    &&& (if is_input_class(mc) {
                        r.0 matches Some(d) && device_from_props(d, object_id, pv, DeviceType::Input)
                    } else if is_output_class(mc) {
                        r.0 matches Some(d) && device_from_props(
                            d,
                            object_id,
                            pv,
                            DeviceType::Output,
                        )
                    } else {
                        r.0 is None
                    })
                },
                None => {
                    &&& r.0 is None
                    &&& (match wire::lookup_arg(pv, "port.direction"@) {
                        Some(_) => match spec_port_of_props(pv) {
                            Some((n, p, nm)) => r.1 matches Some(port) && port_is(port, n, p, nm),
                            None => r.1 is None,
                        },
                        None => r.1 is None,
                    })
                },
            }
        }),
{
    let ghost pv = wire::kv_view(props@);
    if let Some(media_class) = props_string(props, "media.class") {
        let ty: DeviceType = if str_starts_with(media_class.as_str(), "Audio/Source") {
            DeviceType::Input
        } else if str_starts_with(media_class.as_str(), "Stream/Output/Audio") {
            DeviceType::Output
        } else {
            return (None, None);
        };
        let nick = match props_string(props, "node.nick") {
            Some(n) => n,
            None => match props_string(props, "node.description") {
                Some(d) => d,
                None => match props_string(props, "node.name") {
                    Some(nm) => nm,
                    None => String::new(),
                },
            },
        };
        let name = match props_string(props, "node.name") {
            Some(nm) => nm,
            None => String::new(),
        };
        let device = AudioDevice {
            id: object_id,
            nick,
            name,
            device_type: ty,
            input_fl: None,
            input_fr: None,
            output_fl: None,
            output_fr: None,
        };
        return (Some(device), None);
    }
    if props_string(props, "port.direction").is_none() {
        return (None, None);
    }
    let node_id_s = match props_string(props, "node.id") {
        Some(s) => s,
        None => {
            return (None, None);
        },
    };
    let port_id_s = match props_string(props, "port.id") {
        Some(s) => s,
        None => {
            return (None, None);
        },
    };
    let port_name = match props_string(props, "port.name") {
        Some(s) => s,
        None => {
            return (None, None);
        },
    };
    let node_id = match text::parse_u32(node_id_s.as_str()) {
        Some(n) => n,
        None => {
            return (None, None);
        },
    };
    let port_id = match text::parse_u32(port_id_s.as_str()) {
        Some(p) => p,
        None => {
            return (None, None);
        },
    };
    (None, Some(Port { node_id, port_id, name: port_name }))
}

/// Which device fields a port name fills:
/// `(input_fl, input_fr, output_fl, output_fr)`.
pub open spec fn port_slots(name: Seq<char>) -> (bool, bool, bool, bool) {
    if name == "input_FL"@ {
        (true, false, false, false)
    } else if name == "input_FR"@ {
        (false, true, false, false)
    } else if name == "output_FL"@ || name == "capture_FL"@ {
        (false, false, true, false)
    } else if name == "output_FR"@ || name == "capture_FR"@ {
        (false, false, false, true)
    } else if name == "input_MONO"@ {
        (true, true, false, false)
    } else if name == "output_MONO"@ || name == "capture_MONO"@ {
        (false, false, true, true)
    } else {
        (false, false, false, false)
    }
}

/// How one port lands on a device: exactly the fields the port-name
/// table selects take the port, every other field stays.
pub open spec fn spec_assign_port(d: DeviceView, p: PortView) -> DeviceView {
    let slots = port_slots(p.name);
    DeviceView {
        input_fl: if slots.0 {
            Option::Some(p)
        } else {
            d.input_fl
        },
        input_fr: if slots.1 {
            Option::Some(p)
        } else {
            d.input_fr
        },
        output_fl: if slots.2 {
            Option::Some(p)
        } else {
            d.output_fl
        },
        output_fr: if slots.3 {
            Option::Some(p)
        } else {
            d.output_fr
        },
        ..d
    }
}

/// Attach one port to a device following the port-name table.  A mono
/// port fills both sides of its stereo pair; an unknown name changes
/// nothing.
pub fn assign_port(dev: &mut AudioDevice, port: Port)
    ensures
        final(dev)@ == spec_assign_port(old(dev)@, port@),
{
    if text::str_eq(port.name.as_str(), "input_FL") {
        dev.input_fl = Some(port);
    } else if text::str_eq(port.name.as_str(), "input_FR") {
        dev.input_fr = Some(port);
    } else if text::str_eq(port.name.as_str(), "output_FL") || text::str_eq(
        port.name.as_str(),
        "capture_FL",
    ) {
        dev.output_fl = Some(port);
    } else if text::str_eq(port.name.as_str(), "output_FR") || text::str_eq(
        port.name.as_str(),
        "capture_FR",
    ) {
        dev.output_fr = Some(port);
    } else if text::str_eq(port.name.as_str(), "input_MONO") {
        dev.input_fl = Some(port.dup());
        dev.input_fr = Some(port);
    } else if text::str_eq(port.name.as_str(), "output_MONO") || text::str_eq(
        port.name.as_str(),
        "capture_MONO",
    ) {
        dev.output_fl = Some(port.dup());
        dev.output_fr = Some(port);
    }
}

/// Port-name table, stated whole: every name assigns exactly the
/// fields of the table, and mono names fill both sides of their pair.
pub proof fn lemma_port_name_table()
    ensures
        port_slots("input_FL"@) == (true, false, false, false),
        port_slots("input_FR"@) == (false, true, false, false),
        port_slots("output_FL"@) == (false, false, true, false),
        port_slots("capture_FL"@) == (false, false, true, false),
        port_slots("output_FR"@) == (false, false, false, true),
        port_slots("capture_FR"@) == (false, false, false, true),
        port_slots("input_MONO"@) == (true, true, false, false),
        port_slots("output_MONO"@) == (false, false, true, true),
        port_slots("capture_MONO"@) == (false, false, true, true),
{
    reveal_strlit("input_FL");
    reveal_strlit("input_FR");
    reveal_strlit("output_FL");
    reveal_strlit("capture_FL");
    reveal_strlit("output_FR");
    reveal_strlit("capture_FR");
    reveal_strlit("input_MONO");
    reveal_strlit("output_MONO");
    reveal_strlit("capture_MONO");
    assert("input_FR"@[7] == 'R' && "input_FL"@[7] == 'L');
    assert("input_FR"@ != "input_FL"@);
    assert("output_FR"@[8] == 'R' && "output_FL"@[8] == 'L');
    assert("output_FR"@ != "output_FL"@);
    assert("capture_FR"@[9] == 'R' && "capture_FL"@[9] == 'L');
    assert("capture_FR"@ != "capture_FL"@);
    assert("input_MONO"@[0] == 'i' && "capture_FL"@[0] == 'c' && "capture_FR"@[0] == 'c');
    assert("input_MONO"@ != "capture_FL"@);
    assert("input_MONO"@ != "capture_FR"@);
}

/// Index of the first device carrying `node_id`.
pub open spec fn spec_find_by_id(dv: Seq<DeviceView>, node_id: u32) -> Option<int>
    decreases dv.len(),
{
    if dv.len() == 0 {
        None
    } else if dv[0].id == node_id {
        Some(0)
    } else {
        match spec_find_by_id(dv.drop_first(), node_id) {
            Some(i) => Some(i + 1),
            None => None,
        }
    }
}

/// One port folded into a device list: it lands on the first device
/// carrying its node id, or nowhere.
pub open spec fn spec_apply_port(dv: Seq<DeviceView>, p: PortView) -> Seq<DeviceView> {
    match spec_find_by_id(dv, p.node_id) {
        Option::Some(i) => dv.update(i, spec_assign_port(dv[i], p)),
        Option::None => dv,
    }
}

/// Every port folded into a device list, in announcement order.
pub open spec fn spec_attach(dv: Seq<DeviceView>, ports: Seq<PortView>) -> Seq<DeviceView>
    decreases ports.len(),
{
    if ports.len() == 0 {
        dv
    } else {
        spec_apply_port(spec_attach(dv, ports.drop_last()), ports.last())
    }
}

/// A found index lies in range and names a matching device.
proof fn lemma_find_by_id_hit(dv: Seq<DeviceView>, node_id: u32)
    ensures
        spec_find_by_id(dv, node_id) matches Some(i) ==> 0 <= i < dv.len() && dv[i].id == node_id,
    decreases dv.len(),
{
    if dv.len() > 0 && dv[0].id != node_id {
        lemma_find_by_id_hit(dv.drop_first(), node_id);
    }
}

/// The first hit at `i` is the found index.
proof fn lemma_find_by_id_first(dv: Seq<DeviceView>, node_id: u32, i: int)
    requires
        0 <= i < dv.len(),
        dv[i].id == node_id,
        forall|k: int| 0 <= k < i ==> (#[trigger] dv[k]).id != node_id,
    ensures
        spec_find_by_id(dv, node_id) == Some(i),
    decreases dv.len(),
{
    if dv[0].id == node_id {
        assert(i == 0);
    } else {
        let d2 = dv.drop_first();
        assert(d2[i - 1] == dv[i]);
        assert(forall|k: int| 0 <= k < i - 1 ==> (#[trigger] d2[k]).id != node_id) by {
            assert(forall|k: int| 0 <= k < i - 1 ==> d2[k] == dv[k + 1]);
        }
        lemma_find_by_id_first(d2, node_id, i - 1);
    }
}

/// Without a matching device nothing is found.
proof fn lemma_find_by_id_none(dv: Seq<DeviceView>, node_id: u32)
    requires
        forall|k: int| 0 <= k < dv.len() ==> (#[trigger] dv[k]).id != node_id,
    ensures
        spec_find_by_id(dv, node_id) is None,
    decreases dv.len(),
{
    if dv.len() > 0 {
        let d2 = dv.drop_first();
        assert(forall|k: int| 0 <= k < d2.len() ==> (#[trigger] d2[k]).id != node_id) by {
            assert(forall|k: int| 0 <= k < d2.len() ==> d2[k] == dv[k + 1]);
        }
        lemma_find_by_id_none(d2, node_id);
    }
}

/// Index of the first device carrying `node_id`, over the values.
fn find_device_index(devices: &Vec<AudioDevice>, node_id: u32) -> (r: Option<usize>)
    ensures
        match r {
            Some(i) => i < devices@.len() && spec_find_by_id(devs_view(devices@), node_id)
                == Some(i as int),
            None => spec_find_by_id(devs_view(devices@), node_id) is None,
        },
{
    let ghost dv = devs_view(devices@);
    let mut i: usize = 0;
    while i < devices.len()
        invariant
            i <= devices@.len(),
            dv == devs_view(devices@),
            forall|k: int| 0 <= k < i ==> (#[trigger] devices@[k]).id != node_id,
        decreases devices@.len() - i,
    {
        if devices[i].id == node_id {
            proof {
                assert(forall|k: int| 0 <= k < i ==> (#[trigger] dv[k]).id != node_id) by {
                    assert(forall|k: int| 0 <= k < dv.len() ==> dv[k] == devices@[k]@);
                }
                assert(dv[i as int] == devices@[i as int]@);
                lemma_find_by_id_first(dv, node_id, i as int);
            }
            return Some(i);
        }
        i += 1;
    }
    proof {
        assert(forall|k: int| 0 <= k < dv.len() ==> (#[trigger] dv[k]).id != node_id) by {
            assert(forall|k: int| 0 <= k < dv.len() ==> dv[k] == devices@[k]@);
        }
        lemma_find_by_id_none(dv, node_id);
    }
    None
}

/// Attach each port to the first device whose id matches its node id,
/// following the port-name table: the result is exactly the fold of
/// [`spec_apply_port`] over the ports, in order.
pub fn attach_ports(devices: &mut Vec<AudioDevice>, ports: Vec<Port>)
    ensures
        devs_view(final(devices)@) == spec_attach(devs_view(old(devices)@), ports_view(ports@)),
{
    let ghost dv0 = devs_view(old(devices)@);
    let ghost pv = ports_view(ports@);
    let mut pi: usize = 0;
    proof {
        assert(pv.take(0) =~= Seq::<PortView>::empty());
    }
    while pi < ports.len()
        invariant
            pi <= ports@.len(),
            dv0 == devs_view(old(devices)@),
            pv == ports_view(ports@),
            devs_view(devices@) == spec_attach(dv0, pv.take(pi as int)),
        decreases ports@.len() - pi,
    {
        let ghost before = devs_view(devices@);
        let port = ports[pi].dup();
        let node_id = port.node_id;
        proof {
            assert(pv.take(pi + 1).drop_last() =~= pv.take(pi as int));
            assert(pv.take(pi + 1).last() == pv[pi as int]);
            assert(port@ == pv[pi as int]);
        }
        match find_device_index(devices, node_id) {
            Some(di) => {
                let mut dev = devices.remove(di);
                assign_port(&mut dev, port);
                devices.insert(di, dev);
                proof {
                    assert(devs_view(devices@) =~= before.update(
                        di as int,
                        spec_assign_port(before[di as int], pv[pi as int]),
                    )) by {
                        assert(forall|k: int|
                            0 <= k < devices@.len() && k != di ==> devs_view(devices@)[k]
                                == before[k]) by {
                            assert(forall|k: int|
                                0 <= k < devices@.len() && k != di ==> devices@[k]@ == before[k]);
                        }
                        assert(devs_view(devices@)[di as int] == spec_assign_port(
                            before[di as int],
                            pv[pi as int],
                        ));
                    }
                    assert(spec_apply_port(before, pv[pi as int]) == devs_view(devices@));
                    assert(devs_view(devices@) == spec_attach(dv0, pv.take(pi + 1)));
                }
            },
            None => {
                proof {
                    assert(spec_apply_port(before, pv[pi as int]) == before);
                    assert(devs_view(devices@) == spec_attach(dv0, pv.take(pi + 1)));
                }
            },
        }
        pi += 1;
    }
    assert(pv.take(ports@.len() as int) =~= pv);
}

/// Index of the first device carrying `name` as its node name.
pub open spec fn spec_find_by_name(devs: Seq<AudioDevice>, name: Seq<char>) -> Option<int>
    decreases devs.len(),
{
    if devs.len() == 0 {
        None
    } else if devs[0].name@ == name {
        Some(0)
    } else {
        match spec_find_by_name(devs.drop_first(), name) {
            Some(i) => Some(i + 1),
            None => None,
        }
    }
}

/// Find the first device announced under `name`.
pub fn find_device_by_name<'a>(devices: &'a Vec<AudioDevice>, name: &str) -> (r: Option<
    &'a AudioDevice,
>)
    ensures
        match r {
            Some(d) => spec_find_by_name(devices@, name@) matches Some(i) && devices@[i] == *d,
            None => spec_find_by_name(devices@, name@) is None,
        },
{
    let ghost dv = devices@;
    let mut i: usize = 0;
    proof {
        lemma_find_by_name_hit(dv, name@);
        lemma_find_by_name_skip(dv, name@, 0);
    }
    while i < devices.len()
        invariant
            i <= dv.len(),
            dv == devices@,
            spec_find_by_name(dv, name@) matches Some(k) ==> i <= k,
            (spec_find_by_name(dv, name@) is None) ==> forall|k: int|
                0 <= k < dv.len() ==> (#[trigger] dv[k]).name@ != name@,
            forall|k: int| 0 <= k < i ==> (#[trigger] dv[k]).name@ != name@,
        decreases dv.len() - i,
    {
        if crate::text::str_eq(devices[i].name.as_str(), name) {
            proof {
                lemma_find_by_name_first(dv, name@, i as int);
            }
            return Some(&devices[i]);
        }
        proof {
            lemma_find_by_name_skip(dv, name@, i + 1);
        }
        i += 1;
    }
    proof {
        lemma_find_by_name_hit(dv, name@);
    }
    None
}

/// A found index lies in range and names a matching device.
proof fn lemma_find_by_name_hit(devs: Seq<AudioDevice>, name: Seq<char>)
    ensures
        spec_find_by_name(devs, name) matches Some(i) ==> 0 <= i < devs.len() && devs[i].name@
            == name,
    decreases devs.len(),
{
    if devs.len() > 0 && devs[0].name@ != name {
        lemma_find_by_name_hit(devs.drop_first(), name);
    }
}

/// If everything before `i` misses, the first hit is at or past `i`.
proof fn lemma_find_by_name_skip(devs: Seq<AudioDevice>, name: Seq<char>, i: int)
    requires
        0 <= i <= devs.len(),
        forall|k: int| 0 <= k < i ==> (#[trigger] devs[k]).name@ != name,
    ensures
        spec_find_by_name(devs, name) matches Some(k) ==> k >= i,
        i < devs.len() && devs[i].name@ == name ==> spec_find_by_name(devs, name) is Some,
        (spec_find_by_name(devs, name) is None) ==> forall|k: int|
            0 <= k < devs.len() ==> (#[trigger] devs[k]).name@ != name,
    decreases devs.len(),
{
    if devs.len() > 0 {
        if devs[0].name@ == name {
        } else {
            let d2 = devs.drop_first();
            assert(forall|k: int|
                0 <= k < i - 1 ==> (#[trigger] d2[k]).name@ != name) by {
                assert(forall|k: int| 0 <= k < i - 1 ==> d2[k] == devs[k + 1]);
            }
            if i > 0 {
                lemma_find_by_name_skip(d2, name, i - 1);
            } else {
                lemma_find_by_name_skip(d2, name, 0);
            }
            assert(forall|k: int| 0 <= k < devs.len() ==> k > 0 ==> devs[k] == d2[k - 1]);
        }
    }
}

/// The first hit at `i` is the found index.
proof fn lemma_find_by_name_first(devs: Seq<AudioDevice>, name: Seq<char>, i: int)
    requires
        0 <= i < devs.len(),
        devs[i].name@ == name,
        forall|k: int| 0 <= k < i ==> (#[trigger] devs[k]).name@ != name,
    ensures
        spec_find_by_name(devs, name) == Some(i),
    decreases devs.len(),
{
    if devs[0].name@ == name {
        assert(i == 0);
    } else {
        let d2 = devs.drop_first();
        assert(d2[i - 1] == devs[i]);
        assert(forall|k: int| 0 <= k < i - 1 ==> (#[trigger] d2[k]).name@ != name) by {
            assert(forall|k: int| 0 <= k < i - 1 ==> d2[k] == devs[k + 1]);
        }
        lemma_find_by_name_first(d2, name, i - 1);
    }
}

/// The decision behind (re)linking: what stands in the way, or the four
/// ports of the stereo link pair to create, FL to FL and FR to FR.
pub enum LinkPlan {
    /// No capture device is selected; linking is a no-op.
    NoSelection,
    /// The selected device is not in the graph; keep waiting.
    DeviceGone,
    /// The virtual microphone has not been announced; play on unlinked.
    VirtualMicMissing,
    /// A needed stereo port has not been resolved yet.
    PortsMissing,
    /// Create these two links: `output_fl -> input_fl`, `output_fr -> input_fr`.
    Link { output_fl: Port, output_fr: Port, input_fl: Port, input_fr: Port },
}

/// The same port value, by contents.
pub open spec fn same_port(a: Port, b: Port) -> bool {
    port_is(a, b.node_id, b.port_id, b.name@)
}

/// Plan the link pair for the selected input, against the devices seen
/// in the most recent enumeration.
pub fn plan_link(devices: &Vec<AudioDevice>, selected: &Option<String>) -> (r: LinkPlan)
    ensures
        match *selected {
            Option::None => r is NoSelection,
            Option::Some(nm) => {
                match spec_find_by_name(devices@, nm@) {
                    None => r is DeviceGone,
                    Some(i) => {
                        let dev = devices@[i];
                        match spec_find_by_name(devices@, virtual_mic_name()) {
                            None => r is VirtualMicMissing,
                            Some(j) => {
                                let mic = devices@[j];
                                if dev.output_fl is Some && dev.output_fr is Some && mic.input_fl
                                    is Some && mic.input_fr is Some {
                                    r matches LinkPlan::Link { output_fl, output_fr, input_fl, input_fr }
                                        && same_port(output_fl, dev.output_fl->0) && same_port(
                                        output_fr,
                                        dev.output_fr->0,
                                    ) && same_port(input_fl, mic.input_fl->0) && same_port(
                                        input_fr,
                                        mic.input_fr->0,
                                    )
                                } else {
                                    r is PortsMissing
                                }
                            },
                        }
                    },
                }
            },
        },
{
    let name = match selected {
        Some(n) => n,
        None => {
            return LinkPlan::NoSelection;
        },
    };
    let dev = match find_device_by_name(devices, name.as_str()) {
        Some(d) => d,
        None => {
            return LinkPlan::DeviceGone;
        },
    };
    let mic = match find_device_by_name(devices, "pwsp-virtual-mic") {
        Some(d) => d,
        None => {
            return LinkPlan::VirtualMicMissing;
        },
    };
    let (output_fl, output_fr) = match (&dev.output_fl, &dev.output_fr) {
        (Some(pl), Some(pr)) => (pl.dup(), pr.dup()),
        _ => {
            return LinkPlan::PortsMissing;
        },
    };
    let (input_fl, input_fr) = match (&mic.input_fl, &mic.input_fr) {
        (Some(pl), Some(pr)) => (pl.dup(), pr.dup()),
        _ => {
            return LinkPlan::PortsMissing;
        },
    };
    LinkPlan::Link { output_fl, output_fr, input_fl, input_fr }
}


/// Device lists are kept in strictly increasing id order.
pub open spec fn devices_sorted(dv: Seq<AudioDevice>) -> bool {
    forall|i: int, j: int| 0 <= i < j < dv.len() ==> dv[i].id < dv[j].id
}

/// Where an announced device lands in an id-sorted list: before the
/// first greater id, replacing an equal id.
pub open spec fn spec_insert_device(dv: Seq<AudioDevice>, d: AudioDevice) -> Seq<AudioDevice>
    decreases dv.len(),
{
    if dv.len() == 0 {
        seq![d]
    } else if dv[0].id < d.id {
        seq![dv[0]] + spec_insert_device(dv.drop_first(), d)
    } else if dv[0].id == d.id {
        seq![d] + dv.drop_first()
    } else {
        seq![d] + dv
    }
}

/// At the first position whose id reaches `d.id`, inserting is a
/// splice: replacement on an equal id, plain insertion otherwise.
proof fn lemma_insert_device_at(dv: Seq<AudioDevice>, d: AudioDevice, p: int)
    requires
        0 <= p <= dv.len(),
        forall|k: int| 0 <= k < p ==> (#[trigger] dv[k]).id < d.id,
        p < dv.len() ==> dv[p].id >= d.id,
    ensures
        spec_insert_device(dv, d) == if p < dv.len() && dv[p].id == d.id {
            dv.take(p) + seq![d] + dv.skip(p + 1)
        } else {
            dv.take(p) + seq![d] + dv.skip(p)
        },
    decreases p,
{
    if p == 0 {
        if dv.len() == 0 {
            assert(spec_insert_device(dv, d) =~= dv.take(0) + seq![d] + dv.skip(0));
        } else if dv[0].id == d.id {
            assert(seq![d] + dv.drop_first() =~= dv.take(0) + seq![d] + dv.skip(1));
        } else {
            assert(seq![d] + dv =~= dv.take(0) + seq![d] + dv.skip(0));
        }
    } else {
        let d2 = dv.drop_first();
        assert(forall|k: int| 0 <= k < p - 1 ==> (#[trigger] d2[k]).id < d.id) by {
            assert(forall|k: int| 0 <= k < p - 1 ==> d2[k] == dv[k + 1]);
        }
        assert(p - 1 < d2.len() ==> d2[p - 1] == dv[p]);
        lemma_insert_device_at(d2, d, p - 1);
        if p < dv.len() && dv[p].id == d.id {
            assert(seq![dv[0]] + (d2.take(p - 1) + seq![d] + d2.skip(p)) =~= dv.take(p) + seq![d]
                + dv.skip(p + 1));
        } else {
            assert(seq![dv[0]] + (d2.take(p - 1) + seq![d] + d2.skip(p - 1)) =~= dv.take(p)
                + seq![d] + dv.skip(p));
        }
    }
}

/// Insert an announced device into an id-sorted list: a later
/// announcement under the same id replaces the earlier one, and the
/// result is exactly [`spec_insert_device`].
pub fn insert_device_sorted(devices: &mut Vec<AudioDevice>, d: AudioDevice)
    requires
        devices_sorted(old(devices)@),
    ensures
        final(devices)@ == spec_insert_device(old(devices)@, d),
        devices_sorted(final(devices)@),
{
    let ghost orig = devices@;
    let mut p: usize = 0;
    while p < devices.len() && devices[p].id < d.id
        invariant
            p <= devices@.len(),
            devices@ == orig,
            forall|k: int| 0 <= k < p ==> (#[trigger] orig[k]).id < d.id,
        decreases devices@.len() - p,
    {
        p += 1;
    }
    if p < devices.len() && devices[p].id == d.id {
        let _old = devices.remove(p);
        devices.insert(p, d);
        proof {
            assert(devices@.len() == orig.len());
            assert(forall|k: int| 0 <= k < orig.len() && k != p ==> devices@[k] == orig[k]) by {
                assert(forall|k: int| 0 <= k < p ==> devices@[k] == orig[k]);
                assert(forall|k: int| p < k < orig.len() ==> devices@[k] == orig[k]);
            }
            assert(devices@[p as int] == d);
            assert(devices_sorted(devices@)) by {
                assert(forall|i: int, j: int|
                    0 <= i < j < devices@.len() ==> devices@[i].id < devices@[j].id) by {
                    assert(forall|k: int|
                        0 <= k < devices@.len() ==> (#[trigger] devices@[k]).id == orig[k].id);
                }
            }
            lemma_insert_device_at(orig, d, p as int);
            assert(devices@ =~= orig.take(p as int) + seq![d] + orig.skip(p + 1));
        }
    } else {
        devices.insert(p, d);
        proof {
            assert(devices@.len() == orig.len() + 1);
            assert(forall|k: int| 0 <= k < p ==> devices@[k] == orig[k]);
            assert(forall|k: int| p < k < devices@.len() ==> devices@[k] == orig[k - 1]);
            assert(devices@[p as int] == d);
            if p < orig.len() {
                assert(orig[p as int].id >= d.id);
                assert(orig[p as int].id != d.id);
            }
            assert(devices_sorted(devices@)) by {
                assert(forall|k: int| p < k < devices@.len() ==> devices@[k].id > d.id) by {
                    assert(forall|k: int|
                        p <= k - 1 < orig.len() && p < k ==> (#[trigger] devices@[k]).id == orig[
                            k - 1
                        ].id);
                    assert(forall|m: int| p < m < orig.len() ==> orig[p as int].id < orig[m].id);
                }
            }
            lemma_insert_device_at(orig, d, p as int);
            assert(devices@ =~= orig.take(p as int) + seq![d] + orig.skip(p as int));
        }
    }
}

} // verus!
