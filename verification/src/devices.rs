//! Output-device enumeration: backend selection, sink-list assembly from
//! the audio servers' answers, the kernel sound subsystem's card listing,
//! and the stable USB-first ordering of the results.
//!
//! Enumeration is a pure function of what the backend reported, so repeated
//! calls over an unchanged device set list in the same order: entries whose
//! names mark them as USB devices come first, and the relative order within
//! the USB and non-USB groups is preserved.

use vstd::prelude::*;
use crate::strutil::{
    spec_trim,
    trim_range,
    spec_is_space,
    is_space,
    first_sat,
    lemma_first_sat_at,
    lower_seq,
    to_lower,
    upper_seq,
    to_upper,
    match_at,
    match_at_exec,
    first_sub,
    find_first_sub,
    rfind_sub,
    split_sub,
    split_on,
    subvec,
    chars_eq,
    str_chars,
};
use crate::numtext::{all_digits, all_digits_range};
use crate::tags::append_chars;
use crate::json::{json_escaped, json_escape};

verus! {

/// One enumerated output device: a display name, and a backend-specific
/// identifier whose absence means the system default.
pub struct Device {
    pub name: Vec<char>,
    pub device_id: Option<Vec<char>>,
}

/// The model of a device.
pub struct DeviceModel {
    pub name: Seq<char>,
    pub device_id: Option<Seq<char>>,
}

impl View for Device {
    type V = DeviceModel;

    open spec fn view(&self) -> DeviceModel {
        DeviceModel {
            name: self.name@,
            device_id: match self.device_id {
                Some(ref d) => Some(d@),
                None => None,
            },
        }
    }
}

/// The models of a device list.
pub open spec fn dev_models(s: Seq<Device>) -> Seq<DeviceModel> {
    s.map_values(|d: Device| d@)
}

/// A copy of a device.
pub fn copy_device(d: &Device) -> (r: Device)
    ensures
        r@ == d@,
{
    let name = subvec(&d.name, 0, d.name.len());
    proof {
        assert(name@ =~= d.name@);
    }
    let device_id = match &d.device_id {
        Some(id) => {
            let c = subvec(id, 0, id.len());
            proof {
                assert(c@ =~= id@);
            }
            Some(c)
        },
        None => None,
    };
    Device { name, device_id }
}

/// Whether a device counts as USB for ordering. The server-backed lists
/// look for `USB` case-insensitively in the name and identifier together;
/// the kernel-card list looks only at the name, case-sensitively.
pub open spec fn usb_key(d: DeviceModel, pw_mode: bool) -> bool {
    if pw_mode {
        let hay = upper_seq(d.name) + seq![' '] + upper_seq(
            match d.device_id {
                Some(id) => id,
                None => Seq::empty(),
            },
        );
        first_sub(hay, "USB"@) < hay.len()
    } else {
        first_sub(d.name, "USB"@) < d.name.len()
    }
}

/// Whether a device counts as USB for ordering.
pub fn usb_key_exec(d: &Device, pw_mode: bool) -> (r: bool)
    ensures
        r == usb_key(d@, pw_mode),
{
    let pat = str_chars("USB");
    proof {
        reveal_strlit("USB");
    }
    if pw_mode {
        let mut hay = to_upper(&d.name);
        hay.push(' ');
        match &d.device_id {
            Some(id) => {
                let u = to_upper(id);
                append_chars(&mut hay, &u);
            },
            None => {},
        }
        proof {
            assert(hay@ =~= upper_seq(d.name@) + seq![' '] + upper_seq(
                match d@.device_id {
                    Some(id) => id,
                    None => Seq::<char>::empty(),
                },
            ));
        }
        find_first_sub(&hay, &pat) < hay.len()
    } else {
        find_first_sub(&d.name, &pat) < d.name.len()
    }
}

/// The devices of `s` satisfying `f`, in order.
pub open spec fn filter_dev(s: Seq<DeviceModel>, f: spec_fn(DeviceModel) -> bool) -> Seq<
    DeviceModel,
>
    decreases s.len(),
{
    if s.len() == 0 {
        Seq::empty()
    } else {
        filter_dev(s.drop_last(), f) + (if f(s.last()) {
            seq![s.last()]
        } else {
            Seq::<DeviceModel>::empty()
        })
    }
}

/// The list with USB devices first: a stable partition — the relative order
/// inside the USB group and inside the rest is the input's.
pub open spec fn spec_usb_first(s: Seq<DeviceModel>, pw_mode: bool) -> Seq<DeviceModel> {
    filter_dev(s, |d: DeviceModel| usb_key(d, pw_mode)) + filter_dev(
        s,
        |d: DeviceModel| !usb_key(d, pw_mode),
    )
}

/// Order a device list USB-first, stably.
pub fn order_usb_first(v: &Vec<Device>, pw_mode: bool) -> (r: Vec<Device>)
    ensures
        dev_models(r@) == spec_usb_first(dev_models(v@), pw_mode),
{
    let ghost ms = dev_models(v@);
    let mut usb: Vec<Device> = Vec::new();
    let mut rest: Vec<Device> = Vec::new();
    let mut i: usize = 0;
    proof {
        assert(ms.take(0) =~= Seq::<DeviceModel>::empty());
        assert(dev_models(usb@) =~= filter_dev(ms.take(0), |d: DeviceModel| usb_key(d, pw_mode)));
        assert(dev_models(rest@) =~= filter_dev(ms.take(0), |d: DeviceModel| !usb_key(d, pw_mode)));
    }
    while i < v.len()
        invariant
            0 <= i <= v@.len(),
            ms == dev_models(v@),
            dev_models(usb@) == filter_dev(ms.take(i as int), |d: DeviceModel| usb_key(d, pw_mode)),
            dev_models(rest@) == filter_dev(
                ms.take(i as int),
                |d: DeviceModel| !usb_key(d, pw_mode),
            ),
        decreases v@.len() - i,
    {
        let d = copy_device(&v[i]);
        proof {
            assert(ms.take(i + 1).drop_last() =~= ms.take(i as int));
            assert(ms.take(i + 1).last() == ms[i as int]);
            assert(d@ == ms[i as int]);
        }
        if usb_key_exec(&d, pw_mode) {
            usb.push(d);
            proof {
                assert(dev_models(usb@) =~= filter_dev(
                    ms.take(i + 1),
                    |d: DeviceModel| usb_key(d, pw_mode),
                ));
                assert(dev_models(rest@) =~= filter_dev(
                    ms.take(i + 1),
                    |d: DeviceModel| !usb_key(d, pw_mode),
                ));
            }
        } else {
            rest.push(d);
            proof {
                assert(dev_models(usb@) =~= filter_dev(
                    ms.take(i + 1),
                    |d: DeviceModel| usb_key(d, pw_mode),
                ));
                assert(dev_models(rest@) =~= filter_dev(
                    ms.take(i + 1),
                    |d: DeviceModel| !usb_key(d, pw_mode),
                ));
            }
        }
        i = i + 1;
    }
    let mut out = usb;
    out.append(&mut rest);
    proof {
        assert(ms.take(v@.len() as int) =~= ms);
        assert(dev_models(out@) =~= spec_usb_first(ms, pw_mode));
    }
    out
}

/// Whether two devices are the same entry.
pub open spec fn same_device(a: DeviceModel, b: DeviceModel) -> bool {
    a.name == b.name && a.device_id == b.device_id
}

/// The list with runs of equal consecutive entries collapsed to their first
/// element.
pub open spec fn spec_dedup_adjacent(s: Seq<DeviceModel>) -> Seq<DeviceModel>
    decreases s.len(),
{
    if s.len() <= 1 {
        s
    } else if same_device(s.last(), s[s.len() - 2]) {
        spec_dedup_adjacent(s.drop_last())
    } else {
        spec_dedup_adjacent(s.drop_last()).push(s.last())
    }
}

/// Whether two devices are the same entry.
pub fn same_device_exec(a: &Device, b: &Device) -> (r: bool)
    ensures
        r == same_device(a@, b@),
{
    let names = chars_eq(&a.name, &b.name);
    let ids = match (&a.device_id, &b.device_id) {
        (Some(x), Some(y)) => chars_eq(x, y),
        (None, None) => true,
        _ => false,
    };
    names && ids
}

/// Collapse runs of equal consecutive devices to their first element.
pub fn dedup_adjacent(v: &Vec<Device>) -> (r: Vec<Device>)
    ensures
        dev_models(r@) == spec_dedup_adjacent(dev_models(v@)),
{
    let ghost ms = dev_models(v@);
    let mut out: Vec<Device> = Vec::new();
    let mut i: usize = 0;
    proof {
        assert(ms.take(0) =~= Seq::<DeviceModel>::empty());
        assert(dev_models(out@) =~= spec_dedup_adjacent(ms.take(0)));
    }
    while i < v.len()
        invariant
            0 <= i <= v@.len(),
            ms == dev_models(v@),
            dev_models(out@) == spec_dedup_adjacent(ms.take(i as int)),
        decreases v@.len() - i,
    {
        proof {
            assert(ms.take(i + 1).drop_last() =~= ms.take(i as int));
            assert(ms.take(i + 1).last() == ms[i as int]);
            if i > 0 {
                assert(ms.take(i + 1)[i - 1] == ms[i - 1]);
            }
        }
        if i > 0 && same_device_exec(&v[i], &v[i - 1]) {
            proof {
                assert(dev_models(out@) =~= spec_dedup_adjacent(ms.take(i + 1)));
            }
        } else {
            let d = copy_device(&v[i]);
            out.push(d);
            proof {
                assert(dev_models(out@) =~= spec_dedup_adjacent(ms.take(i + 1)));
            }
        }
        i = i + 1;
    }
    proof {
        assert(ms.take(v@.len() as int) =~= ms);
    }
    out
}

/// One node of the server registry, as enumeration saw it: the properties
/// the sink list reads, each absent when the node does not carry it.
pub struct PwSinkNode {
    pub media_class: Option<Vec<char>>,
    pub node_name: Option<Vec<char>>,
    pub node_description: Option<Vec<char>>,
    pub device_description: Option<Vec<char>>,
    pub node_nick: Option<Vec<char>>,
}

/// The model of a registry node.
pub struct PwSinkModel {
    pub media_class: Option<Seq<char>>,
    pub node_name: Option<Seq<char>>,
    pub node_description: Option<Seq<char>>,
    pub device_description: Option<Seq<char>>,
    pub node_nick: Option<Seq<char>>,
}

impl View for PwSinkNode {
    type V = PwSinkModel;

    open spec fn view(&self) -> PwSinkModel {
        PwSinkModel {
            media_class: match self.media_class {
                Some(ref t) => Some(t@),
                None => None,
            },
            node_name: match self.node_name {
                Some(ref t) => Some(t@),
                None => None,
            },
            node_description: match self.node_description {
                Some(ref t) => Some(t@),
                None => None,
            },
            device_description: match self.device_description {
                Some(ref t) => Some(t@),
                None => None,
            },
            node_nick: match self.node_nick {
                Some(ref t) => Some(t@),
                None => None,
            },
        }
    }
}

/// The models of a node list.
pub open spec fn sink_node_models(s: Seq<PwSinkNode>) -> Seq<PwSinkModel> {
    s.map_values(|n: PwSinkNode| n@)
}

/// The property value, or empty when absent.
pub open spec fn opt_or_empty(o: Option<Seq<char>>) -> Seq<char> {
    match o {
        Some(t) => t,
        None => Seq::empty(),
    }
}

/// The sink entry a registry node yields: only output sink nodes are valid
/// targets, monitor endpoints are skipped, and the display name falls back
/// through the description, device description, nick and node name.
pub open spec fn sink_of_node(n: PwSinkModel) -> Option<DeviceModel> {
    let mc = opt_or_empty(n.media_class);
    let nn = opt_or_empty(n.node_name);
    if !match_at(mc, "Audio/Sink"@, 0) {
        None
    } else if nn.len() == 0 || first_sub(nn, ".monitor"@) < nn.len() {
        None
    } else {
        let name = match n.node_description {
            Some(t) => t,
            None => match n.device_description {
                Some(t) => t,
                None => match n.node_nick {
                    Some(t) => t,
                    None => match n.node_name {
                        Some(t) => t,
                        None => "Audio Sink"@,
                    },
                },
            },
        };
        Some(DeviceModel { name, device_id: Some(nn) })
    }
}

/// The sink entries of a node list, in enumeration order.
pub open spec fn sinks_of(s: Seq<PwSinkModel>) -> Seq<DeviceModel>
    decreases s.len(),
{
    if s.len() == 0 {
        Seq::empty()
    } else {
        sinks_of(s.drop_last()) + (match sink_of_node(s.last()) {
            Some(d) => seq![d],
            None => Seq::<DeviceModel>::empty(),
        })
    }
}

/// The copy of an optional character vector.
fn copy_opt(o: &Option<Vec<char>>) -> (r: Option<Vec<char>>)
    ensures
        match (r, o) {
            (Some(a), Some(b)) => a@ == b@,
            (None, None) => true,
            _ => false,
        },
{
    match o {
        Some(t) => {
            let c = subvec(t, 0, t.len());
            proof {
                assert(c@ =~= t@);
            }
            Some(c)
        },
        None => None,
    }
}

/// The sink entry of one registry node.
fn sink_of_node_exec(n: &PwSinkNode) -> (r: Option<Device>)
    ensures
        match (r, sink_of_node(n@)) {
            (Some(a), Some(b)) => a@ == b,
            (None, None) => true,
            _ => false,
        },
{
    let empty: Vec<char> = Vec::new();
    let mc: &Vec<char> = match &n.media_class {
        Some(t) => t,
        None => &empty,
    };
    let nn: &Vec<char> = match &n.node_name {
        Some(t) => t,
        None => &empty,
    };
    let cls = str_chars("Audio/Sink");
    let mon = str_chars(".monitor");
    proof {
        reveal_strlit("Audio/Sink");
        reveal_strlit(".monitor");
    }
    if !match_at_exec(mc, &cls, 0) {
        return None;
    }
    if nn.len() == 0 || find_first_sub(nn, &mon) < nn.len() {
        return None;
    }
    let name: Vec<char> = match &n.node_description {
        Some(t) => subvec(t, 0, t.len()),
        None => match &n.device_description {
            Some(t) => subvec(t, 0, t.len()),
            None => match &n.node_nick {
                Some(t) => subvec(t, 0, t.len()),
                None => match &n.node_name {
                    Some(t) => subvec(t, 0, t.len()),
                    None => str_chars("Audio Sink"),
                },
            },
        },
    };
    let id = subvec(nn, 0, nn.len());
    proof {
        assert(id@ =~= nn@);
        match n@.node_description {
            Some(t) => {
                assert(name@ =~= t);
            },
            None => {
                match n@.device_description {
                    Some(t) => {
                        assert(name@ =~= t);
                    },
                    None => {
                        match n@.node_nick {
                            Some(t) => {
                                assert(name@ =~= t);
                            },
                            None => {
                                match n@.node_name {
                                    Some(t) => {
                                        assert(name@ =~= t);
                                    },
                                    None => {
                                        assert(name@ == "Audio Sink"@);
                                    },
                                }
                            },
                        }
                    },
                }
            },
        }
    }
    Some(Device { name, device_id: Some(id) })
}

/// Collect the sink entries of the enumerated registry nodes.
pub fn collect_pw_sinks(nodes: &Vec<PwSinkNode>) -> (r: Vec<Device>)
    ensures
        dev_models(r@) == sinks_of(sink_node_models(nodes@)),
{
    let ghost ms = sink_node_models(nodes@);
    let mut out: Vec<Device> = Vec::new();
    let mut i: usize = 0;
    proof {
        assert(ms.take(0) =~= Seq::<PwSinkModel>::empty());
        assert(dev_models(out@) =~= sinks_of(ms.take(0)));
    }
    while i < nodes.len()
        invariant
            0 <= i <= nodes@.len(),
            ms == sink_node_models(nodes@),
            dev_models(out@) == sinks_of(ms.take(i as int)),
        decreases nodes@.len() - i,
    {
        proof {
            assert(ms.take(i + 1).drop_last() =~= ms.take(i as int));
            assert(ms.take(i + 1).last() == ms[i as int]);
        }
        match sink_of_node_exec(&nodes[i]) {
            Some(d) => {
                out.push(d);
                proof {
                    assert(dev_models(out@) =~= sinks_of(ms.take(i + 1)));
                }
            },
            None => {
                proof {
                    assert(dev_models(out@) =~= sinks_of(ms.take(i + 1)));
                }
            },
        }
        i = i + 1;
    }
    proof {
        assert(ms.take(nodes@.len() as int) =~= ms);
    }
    out
}

/// The finished low-latency-server sink list: the nodes' sink entries,
/// USB-first, with equal consecutive entries collapsed.
pub open spec fn spec_pw_sink_list(nodes: Seq<PwSinkModel>) -> Seq<DeviceModel> {
    spec_dedup_adjacent(spec_usb_first(sinks_of(nodes), true))
}

/// Assemble the low-latency-server sink list out of the enumerated nodes.
pub fn pw_sink_list(nodes: &Vec<PwSinkNode>) -> (r: Vec<Device>)
    ensures
        dev_models(r@) == spec_pw_sink_list(sink_node_models(nodes@)),
{
    let collected = collect_pw_sinks(nodes);
    let ordered = order_usb_first(&collected, true);
    dedup_adjacent(&ordered)
}

/// The trimmed value after a prefix of a trimmed line, when the line starts
/// with the prefix.
pub open spec fn line_value(l: Seq<char>, prefix: Seq<char>) -> Option<Seq<char>> {
    let t = spec_trim(l);
    if match_at(t, prefix, 0) {
        Some(spec_trim(t.skip(prefix.len() as int)))
    } else {
        None
    }
}

/// Read the trimmed value after a prefix of a trimmed line.
pub fn line_value_exec(l: &Vec<char>, prefix: &Vec<char>) -> (r: Option<Vec<char>>)
    ensures
        match (r, line_value(l@, prefix@)) {
            (Some(a), Some(b)) => a@ == b,
            (None, None) => true,
            _ => false,
        },
{
    let t = trim_range(l, 0, l.len());
    proof {
        assert(l@.subrange(0, l@.len() as int) =~= l@);
    }
    if match_at_exec(&t, prefix, 0) {
        let v = trim_range(&t, prefix.len(), t.len());
        proof {
            assert(t@.subrange(prefix@.len() as int, t@.len() as int) =~= t@.skip(
                prefix@.len() as int,
            ));
        }
        Some(v)
    } else {
        None
    }
}

/// How one line of a sink block updates the (identifier, description) pair:
/// the last non-empty `Name:` and `Description:` values win.
pub open spec fn pa_line_step(
    st: (Option<Seq<char>>, Option<Seq<char>>),
    l: Seq<char>,
) -> (Option<Seq<char>>, Option<Seq<char>>) {
    match line_value(l, "Name:"@) {
        Some(v) => if v.len() > 0 {
            (Some(v), st.1)
        } else {
            st
        },
        None => match line_value(l, "Description:"@) {
            Some(v) => if v.len() > 0 {
                (st.0, Some(v))
            } else {
                st
            },
            None => st,
        },
    }
}

/// The (identifier, description) pair a block's lines leave.
pub open spec fn pa_lines_fold(lines: Seq<Seq<char>>) -> (Option<Seq<char>>, Option<Seq<char>>)
    decreases lines.len(),
{
    if lines.len() == 0 {
        (None, None)
    } else {
        pa_line_step(pa_lines_fold(lines.drop_last()), lines.last())
    }
}

/// The sink device one block of the sound server's sink listing names:
/// blocks without an identifier, and monitor endpoints, name none.
pub open spec fn pa_block_device(block: Seq<char>) -> Option<DeviceModel> {
    let st = pa_lines_fold(split_sub(block, seq!['\n']));
    match st.0 {
        Some(id) => if id.len() >= 8 && match_at(id, ".monitor"@, id.len() - 8) {
            None
        } else {
            Some(
                DeviceModel {
                    name: match st.1 {
                        Some(d) => d,
                        None => id,
                    },
                    device_id: Some(id),
                },
            )
        },
        None => None,
    }
}

/// The sink devices of the listing's blocks, in order.
pub open spec fn pa_devices(blocks: Seq<Seq<char>>) -> Seq<DeviceModel>
    decreases blocks.len(),
{
    if blocks.len() == 0 {
        Seq::empty()
    } else {
        pa_devices(blocks.drop_last()) + (match pa_block_device(blocks.last()) {
            Some(d) => seq![d],
            None => Seq::<DeviceModel>::empty(),
        })
    }
}

/// The sink devices the legacy sound server's textual sink listing names:
/// the text splits into blocks at `Sink #`, and each block contributes its
/// last non-empty name and description.
pub open spec fn spec_pactl_sinks(text: Seq<char>) -> Seq<DeviceModel> {
    pa_devices(split_sub(text, "Sink #"@))
}

/// The sink device of one block of the sink listing.
fn pa_block_device_exec(block: &Vec<char>) -> (r: Option<Device>)
    ensures
        match (r, pa_block_device(block@)) {
            (Some(a), Some(b)) => a@ == b,
            (None, None) => true,
            _ => false,
        },
{
    let mut nl: Vec<char> = Vec::new();
    nl.push('\n');
    proof {
        assert(nl@ =~= seq!['\n']);
    }
    let lines = split_on(block, &nl);
    let ghost lms = lines@.map_values(|p: Vec<char>| p@);
    let mut dev_id: Option<Vec<char>> = None;
    let mut desc: Option<Vec<char>> = None;
    let mut i: usize = 0;
    proof {
        assert(lms.take(0) =~= Seq::<Seq<char>>::empty());
    }
    while i < lines.len()
        invariant
            0 <= i <= lines@.len(),
            lms == lines@.map_values(|p: Vec<char>| p@),
            (match dev_id {
                Some(ref t) => Some(t@),
                None => None,
            }, match desc {
                Some(ref t) => Some(t@),
                None => None,
            }) == pa_lines_fold(lms.take(i as int)),
        decreases lines@.len() - i,
    {
        proof {
            assert(lms.take(i + 1).drop_last() =~= lms.take(i as int));
            assert(lms.take(i + 1).last() == lms[i as int]);
        }
        let name_pat = str_chars("Name:");
        let desc_pat = str_chars("Description:");
        match line_value_exec(&lines[i], &name_pat) {
            Some(v) => {
                if v.len() > 0 {
                    dev_id = Some(v);
                }
            },
            None => {
                match line_value_exec(&lines[i], &desc_pat) {
                    Some(v) => {
                        if v.len() > 0 {
                            desc = Some(v);
                        }
                    },
                    None => {},
                }
            },
        }
        i = i + 1;
    }
    proof {
        assert(lms.take(lines@.len() as int) =~= lms);
    }
    match dev_id {
        Some(id) => {
            let mon = str_chars(".monitor");
            proof {
                reveal_strlit(".monitor");
            }
            if id.len() >= 8 && match_at_exec(&id, &mon, id.len() - 8) {
                None
            } else {
                let name = match desc {
                    Some(d) => d,
                    None => {
                        let c = subvec(&id, 0, id.len());
                        proof {
                            assert(c@ =~= id@);
                        }
                        c
                    },
                };
                Some(Device { name, device_id: Some(id) })
            }
        },
        None => None,
    }
}

/// Parse the legacy sound server's textual sink listing.
pub fn parse_pactl_sinks(text: &Vec<char>) -> (r: Vec<Device>)
    ensures
        dev_models(r@) == spec_pactl_sinks(text@),
{
    let pat = str_chars("Sink #");
    proof {
        reveal_strlit("Sink #");
    }
    let blocks = split_on(text, &pat);
    let ghost bms = blocks@.map_values(|p: Vec<char>| p@);
    let mut out: Vec<Device> = Vec::new();
    let mut i: usize = 0;
    proof {
        assert(bms.take(0) =~= Seq::<Seq<char>>::empty());
        assert(dev_models(out@) =~= pa_devices(bms.take(0)));
    }
    while i < blocks.len()
        invariant
            0 <= i <= blocks@.len(),
            bms == blocks@.map_values(|p: Vec<char>| p@),
            dev_models(out@) == pa_devices(bms.take(i as int)),
        decreases blocks@.len() - i,
    {
        proof {
            assert(bms.take(i + 1).drop_last() =~= bms.take(i as int));
            assert(bms.take(i + 1).last() == bms[i as int]);
        }
        match pa_block_device_exec(&blocks[i]) {
            Some(d) => {
                out.push(d);
                proof {
                    assert(dev_models(out@) =~= pa_devices(bms.take(i + 1)));
                }
            },
            None => {
                proof {
                    assert(dev_models(out@) =~= pa_devices(bms.take(i + 1)));
                }
            },
        }
        i = i + 1;
    }
    proof {
        assert(bms.take(blocks@.len() as int) =~= bms);
    }
    out
}

/// The card device one line of the kernel sound subsystem's card listing
/// names: a leading numeric index, then ` - ` before the descriptive name;
/// the entry synthesizes a `hw:<index>,0` identifier.
pub open spec fn alsa_line_device(l: Seq<char>) -> Option<DeviceModel> {
    let lt = crate::strutil::spec_trim_start(l);
    if lt.len() == 0 {
        None
    } else {
        let tok = lt.take(first_sat(lt, |c: char| spec_is_space(c)));
        if tok.len() == 0 || !all_digits(tok) {
            None
        } else {
            let dash = crate::strutil::last_sub(lt, " - "@);
            if dash < 0 {
                None
            } else {
                let long_name = spec_trim(lt.skip(dash + 3));
                if long_name.len() == 0 {
                    None
                } else {
                    Some(
                        DeviceModel {
                            name: long_name + " (Card "@ + tok + ")"@,
                            device_id: Some(Seq::<char>::empty() + "hw:"@ + tok + ",0"@),
                        },
                    )
                }
            }
        }
    }
}

/// The card devices of the listing's lines, in order.
pub open spec fn alsa_lines_devices(lines: Seq<Seq<char>>) -> Seq<DeviceModel>
    decreases lines.len(),
{
    if lines.len() == 0 {
        Seq::empty()
    } else {
        alsa_lines_devices(lines.drop_last()) + (match alsa_line_device(lines.last()) {
            Some(d) => seq![d],
            None => Seq::<DeviceModel>::empty(),
        })
    }
}

/// The card list the kernel sound subsystem's listing names, USB-named
/// cards first.
pub open spec fn spec_alsa_cards(text: Seq<char>) -> Seq<DeviceModel> {
    spec_usb_first(alsa_lines_devices(split_sub(text, seq!['\n'])), false)
}

/// The card device of one listing line.
fn alsa_line_device_exec(l: &Vec<char>) -> (r: Option<Device>)
    ensures
        match (r, alsa_line_device(l@)) {
            (Some(a), Some(b)) => a@ == b,
            (None, None) => true,
            _ => false,
        },
{
    let lt = crate::strutil::trim_start_range(l, 0, l.len());
    proof {
        assert(l@.subrange(0, l@.len() as int) =~= l@);
    }
    if lt.len() == 0 {
        return None;
    }
    let mut e: usize = 0;
    while e < lt.len() && !is_space(lt[e])
        invariant
            0 <= e <= lt@.len(),
            forall|i: int| 0 <= i < e ==> !spec_is_space(#[trigger] lt@[i]),
        decreases lt@.len() - e,
    {
        e = e + 1;
    }
    proof {
        lemma_first_sat_at(lt@, |c: char| spec_is_space(c), e as int);
    }
    let ghost tok = lt@.take(e as int);
    if e == 0 {
        proof {
            assert(tok.len() == 0);
        }
        return None;
    }
    if !all_digits_range(&lt, 0, e) {
        proof {
            assert(lt@.subrange(0, e as int) =~= tok);
        }
        return None;
    }
    proof {
        assert(lt@.subrange(0, e as int) =~= tok);
    }
    let dash_pat = str_chars(" - ");
    proof {
        reveal_strlit(" - ");
    }
    let dash = match rfind_sub(&lt, &dash_pat, 0) {
        Some(i) => {
            proof {
                crate::strutil::lemma_last_sub_at(lt@, dash_pat@, i as int);
            }
            i
        },
        None => {
            proof {
                crate::strutil::lemma_last_sub_none(lt@, dash_pat@);
            }
            return None;
        },
    };
    let long_name = trim_range(&lt, dash + 3, lt.len());
    proof {
        assert(lt@.subrange(dash + 3, lt@.len() as int) =~= lt@.skip(dash + 3));
    }
    if long_name.len() == 0 {
        return None;
    }
    let tok_v = subvec(&lt, 0, e);
    proof {
        assert(tok_v@ =~= tok);
    }
    let mut name = long_name;
    let mid = str_chars(" (Card ");
    append_chars(&mut name, &mid);
    append_chars(&mut name, &tok_v);
    name.push(')');
    let mut id = str_chars("hw:");
    append_chars(&mut id, &tok_v);
    id.push(',');
    id.push('0');
    proof {
        reveal_strlit(")");
        reveal_strlit(",0");
        match alsa_line_device(l@) {
            Some(d) => {
                assert(name@ =~= d.name);
                assert(id@ =~= d.device_id->Some_0);
            },
            None => {},
        }
    }
    Some(Device { name, device_id: Some(id) })
}

/// Parse the kernel sound subsystem's card listing into a USB-first card
/// list.
pub fn parse_alsa_cards(text: &Vec<char>) -> (r: Vec<Device>)
    ensures
        dev_models(r@) == spec_alsa_cards(text@),
{
    let mut nl: Vec<char> = Vec::new();
    nl.push('\n');
    proof {
        assert(nl@ =~= seq!['\n']);
    }
    let lines = split_on(text, &nl);
    let ghost lms = lines@.map_values(|p: Vec<char>| p@);
    let mut out: Vec<Device> = Vec::new();
    let mut i: usize = 0;
    proof {
        assert(lms.take(0) =~= Seq::<Seq<char>>::empty());
        assert(dev_models(out@) =~= alsa_lines_devices(lms.take(0)));
    }
    while i < lines.len()
        invariant
            0 <= i <= lines@.len(),
            lms == lines@.map_values(|p: Vec<char>| p@),
            dev_models(out@) == alsa_lines_devices(lms.take(i as int)),
        decreases lines@.len() - i,
    {
        proof {
            assert(lms.take(i + 1).drop_last() =~= lms.take(i as int));
            assert(lms.take(i + 1).last() == lms[i as int]);
        }
        match alsa_line_device_exec(&lines[i]) {
            Some(d) => {
                out.push(d);
                proof {
                    assert(dev_models(out@) =~= alsa_lines_devices(lms.take(i + 1)));
                }
            },
            None => {
                proof {
                    assert(dev_models(out@) =~= alsa_lines_devices(lms.take(i + 1)));
                }
            },
        }
        i = i + 1;
    }
    proof {
        assert(lms.take(lines@.len() as int) =~= lms);
    }
    order_usb_first(&out, false)
}

/// The enumeration backends a driver request can name.
#[derive(Clone, Copy, Debug, PartialEq, Eq, Structural)]
pub enum DriverMode {
    AutoMode,
    PipewireMode,
    PulseMode,
    AlsaMode,
    UnknownMode,
}

/// Which backend a driver request names: `Auto (Default)` or any casing of
/// `auto`, and the three backend names, exactly.
pub open spec fn spec_driver_mode(d: Seq<char>) -> DriverMode {
    let t = spec_trim(d);
    if t == "Auto (Default)"@ || lower_seq(t) == "auto"@ {
        DriverMode::AutoMode
    } else if t == "PipeWire"@ {
        DriverMode::PipewireMode
    } else if t == "PulseAudio"@ {
        DriverMode::PulseMode
    } else if t == "ALSA"@ {
        DriverMode::AlsaMode
    } else {
        DriverMode::UnknownMode
    }
}

/// Which backend a driver request names.
pub fn driver_mode(d: &Vec<char>) -> (r: DriverMode)
    ensures
        r == spec_driver_mode(d@),
{
    let t = trim_range(d, 0, d.len());
    proof {
        assert(d@.subrange(0, d@.len() as int) =~= d@);
    }
    let auto_full = str_chars("Auto (Default)");
    let auto_low = str_chars("auto");
    let pw = str_chars("PipeWire");
    let pa = str_chars("PulseAudio");
    let alsa = str_chars("ALSA");
    let tl = to_lower(&t);
    if chars_eq(&t, &auto_full) || chars_eq(&tl, &auto_low) {
        DriverMode::AutoMode
    } else if chars_eq(&t, &pw) {
        DriverMode::PipewireMode
    } else if chars_eq(&t, &pa) {
        DriverMode::PulseMode
    } else if chars_eq(&t, &alsa) {
        DriverMode::AlsaMode
    } else {
        DriverMode::UnknownMode
    }
}

/// The synthetic entry for the automatic backend.
pub fn default_output_device() -> (r: Device)
    ensures
        r@.name == "Default Output"@,
        r@.device_id is None,
{
    Device { name: str_chars("Default Output"), device_id: None }
}

/// The synthetic default entry listed before a server's sinks.
pub fn default_system_device() -> (r: Device)
    ensures
        r@.name == "Default System Output"@,
        r@.device_id is None,
{
    Device { name: str_chars("Default System Output"), device_id: None }
}

/// One JSON object of the device list.
pub open spec fn dev_json(d: DeviceModel) -> Seq<char> {
    Seq::<char>::empty() + "{\"name\":\""@ + json_escaped(d.name) + "\",\"device_id\":"@ + (
    match d.device_id {
        Some(id) => seq!['"'] + json_escaped(id) + seq!['"'],
        None => "null"@,
    }) + seq!['}']
}

/// The comma-joined body of the device list's JSON array.
pub open spec fn devs_json_body(s: Seq<DeviceModel>) -> Seq<char>
    decreases s.len(),
{
    if s.len() == 0 {
        Seq::empty()
    } else if s.len() == 1 {
        dev_json(s[0])
    } else {
        devs_json_body(s.drop_last()) + seq![','] + dev_json(s.last())
    }
}

/// The device list as a JSON array of `{"name", "device_id"}` objects.
pub open spec fn spec_devices_json(s: Seq<DeviceModel>) -> Seq<char> {
    seq!['['] + devs_json_body(s) + seq![']']
}

/// Render the device list as JSON.
pub fn devices_json(v: &Vec<Device>) -> (r: Vec<char>)
    ensures
        r@ == spec_devices_json(dev_models(v@)),
{
    let ghost ms = dev_models(v@);
    let mut body: Vec<char> = Vec::new();
    let mut i: usize = 0;
    proof {
        assert(ms.take(0) =~= Seq::<DeviceModel>::empty());
    }
    while i < v.len()
        invariant
            0 <= i <= v@.len(),
            ms == dev_models(v@),
            body@ == devs_json_body(ms.take(i as int)),
        decreases v@.len() - i,
    {
        if i > 0 {
            body.push(',');
        }
        let open = str_chars("{\"name\":\"");
        append_chars(&mut body, &open);
        let en = json_escape(&v[i].name);
        append_chars(&mut body, &en);
        let mid = str_chars("\",\"device_id\":");
        append_chars(&mut body, &mid);
        match &v[i].device_id {
            Some(id) => {
                body.push('"');
                let ei = json_escape(id);
                append_chars(&mut body, &ei);
                body.push('"');
            },
            None => {
                let nl = str_chars("null");
                append_chars(&mut body, &nl);
            },
        }
        body.push('}');
        proof {
            assert(ms.take(i + 1).drop_last() =~= ms.take(i as int));
            assert(ms.take(i + 1).last() == ms[i as int]);
            assert(body@ =~= devs_json_body(ms.take(i + 1)));
        }
        i = i + 1;
    }
    proof {
        assert(ms.take(v@.len() as int) =~= ms);
    }
    let mut r: Vec<char> = Vec::new();
    r.push('[');
    append_chars(&mut r, &body);
    r.push(']');
    proof {
        assert(r@ =~= spec_devices_json(ms));
    }
    r
}

} // verus!
