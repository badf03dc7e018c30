//! Which objects a volume rule applies to, and the name a volume is saved under.
use vstd::prelude::*;
use crate::linker::props_view;
use crate::api_server::ApiError;
use crate::pwcli::{id_index, objects_view, str_eq, ObjectModel, PwObject};
use crate::text::{decimal, push_decimal, push_str_chars};
use crate::util::{regex_compiles, regex_finds, regex_match, regex_match_spec};

verus! {

/// A property pattern of a volume rule holds for a value: the value is
/// present and the pattern is a valid regex that matches it (a pattern that
/// is no valid regex matches nothing).
pub open spec fn pattern_holds(pattern: Seq<char>, value: Option<Seq<char>>) -> bool {
    match value {
        Some(v) => regex_match_spec(pattern, v),
        None => false,
    }
}

/// An object matches a volume rule's patterns (property key, regex) when
/// each of them holds for the object's property.
pub open spec fn matches_patterns(o: ObjectModel, patterns: Seq<(Seq<char>, Seq<char>)>) -> bool {
    forall|k: int| 0 <= k < patterns.len() ==> pattern_holds(#[trigger] patterns[k].1, o.prop(patterns[k].0))
}

/// Whether `object` matches the property patterns of a volume rule.
pub fn object_matches(object: &PwObject, patterns: &[(String, String)]) -> (r: bool)
    ensures
        r == matches_patterns(object@, props_view(patterns@)),
{
    let ghost pv = props_view(patterns@);
    let mut k: usize = 0;
    while k < patterns.len()
        invariant
            k <= patterns.len(),
            pv == props_view(patterns@),
            forall|j: int| 0 <= j < k ==> pattern_holds(#[trigger] pv[j].1, object@.prop(pv[j].0)),
        decreases patterns.len() - k,
    {
        assert(pv[k as int] == (patterns@[k as int].0@, patterns@[k as int].1@));
        let pattern = patterns[k].1.as_str();
        let holds = match object.get(patterns[k].0.as_str()) {
            Some(v) => regex_match(pattern, v),
            None => false,
        };
        if !holds {
            assert(!pattern_holds(pv[k as int].1, object@.prop(pv[k as int].0)));
            return false;
        }
        k = k + 1;
    }
    true
}

/// The name an object's volume is saved under: its node name, device name,
/// node description or device description, the first it has, else `unknown`.
pub open spec fn volume_name(o: ObjectModel) -> Seq<char> {
    match o.prop("node.name"@) {
        Some(v) => v,
        None => match o.prop("device.name"@) {
            Some(v) => v,
            None => match o.prop("node.description"@) {
                Some(v) => v,
                None => match o.prop("device.description"@) {
                    Some(v) => v,
                    None => "unknown"@,
                },
            },
        },
    }
}

/// The name an object's volume is saved under.
pub fn volume_object_name(object: &PwObject) -> (r: &str)
    ensures
        r@ == volume_name(object@),
{
    match object.get("node.name") {
        Some(v) => v,
        None => match object.get("device.name") {
            Some(v) => v,
            None => match object.get("node.description") {
                Some(v) => v,
                None => match object.get("device.description") {
                    Some(v) => v,
                    None => "unknown",
                },
            },
        },
    }
}


/// The kind of object a volume is read from and written to: a device (through
/// its route) or an audio sink node (through its properties).
#[derive(Debug, Clone, Copy, PartialEq, Eq, Structural)]
pub enum VolumeTarget {
    Device,
    Sink,
}

impl VolumeTarget {
    pub open spec fn kind_name(self) -> Seq<char> {
        match self {
            VolumeTarget::Device => "device"@,
            VolumeTarget::Sink => "sink"@,
        }
    }

    /// The object type that volume listings give: `device` or `sink`.
    pub fn as_str(&self) -> (r: &'static str)
        ensures
            r@ == self.kind_name(),
    {
        match self {
            VolumeTarget::Device => "device",
            VolumeTarget::Sink => "sink",
        }
    }
}

/// Which volume an object carries: every device has one, and of the nodes
/// the audio sinks; no other object has one.
pub open spec fn target_of(o: ObjectModel) -> Option<VolumeTarget> {
    if o.object_type == "Device"@ {
        Some(VolumeTarget::Device)
    } else if o.object_type == "Node"@ && o.prop("media.class"@) == Some("Audio/Sink"@) {
        Some(VolumeTarget::Sink)
    } else {
        None
    }
}

/// The volume `object` carries, if any.
pub fn volume_target(object: &PwObject) -> (r: Option<VolumeTarget>)
    ensures
        r == target_of(object@),
{
    if str_eq(object.object_type.as_str(), "Device") {
        Some(VolumeTarget::Device)
    } else if str_eq(object.object_type.as_str(), "Node") {
        match object.get("media.class") {
            Some(class) => if str_eq(class, "Audio/Sink") {
                Some(VolumeTarget::Sink)
            } else {
                None
            },
            None => None,
        }
    } else {
        None
    }
}

/// The name a volume is listed under: a device's name or description, a
/// sink's node name or description, the first it has, else `unknown`.
pub open spec fn target_name(o: ObjectModel, t: VolumeTarget) -> Seq<char> {
    let (name_key, description_key) = match t {
        VolumeTarget::Device => ("device.name"@, "device.description"@),
        VolumeTarget::Sink => ("node.name"@, "node.description"@),
    };
    match o.prop(name_key) {
        Some(v) => v,
        None => match o.prop(description_key) {
            Some(v) => v,
            None => "unknown"@,
        },
    }
}

/// The name the volume of `object`, of kind `target`, is listed under.
pub fn volume_target_name<'a>(object: &'a PwObject, target: VolumeTarget) -> (r: &'a str)
    ensures
        r@ == target_name(object@, target),
{
    let (name_key, description_key) = match target {
        VolumeTarget::Device => ("device.name", "device.description"),
        VolumeTarget::Sink => ("node.name", "node.description"),
    };
    match object.get(name_key) {
        Some(v) => v,
        None => match object.get(description_key) {
            Some(v) => v,
            None => "unknown",
        },
    }
}

/// An object that carries a volume: its id, kind and name.
#[derive(Debug)]
pub struct VolumeTargetInfo {
    pub id: u32,
    pub target: VolumeTarget,
    pub name: String,
}

pub open spec fn target_info_view(t: VolumeTargetInfo) -> (u32, VolumeTarget, Seq<char>) {
    (t.id, t.target, t.name@)
}

/// The objects of kind `t` among `objs`, in listing order.
pub open spec fn targets_of_kind(objs: Seq<ObjectModel>, t: VolumeTarget) -> Seq<(u32, VolumeTarget, Seq<char>)>
    decreases objs.len(),
{
    if objs.len() == 0 {
        Seq::empty()
    } else {
        let rest = targets_of_kind(objs.drop_last(), t);
        let o = objs.last();
        if target_of(o) == Some(t) {
            rest.push((o.id, t, target_name(o, t)))
        } else {
            rest
        }
    }
}

fn collect_targets(objects: &[PwObject], t: VolumeTarget, out: &mut Vec<VolumeTargetInfo>)
    ensures
        final(out)@.map_values(|v: VolumeTargetInfo| target_info_view(v)) == old(out)@.map_values(
            |v: VolumeTargetInfo| target_info_view(v),
        ) + targets_of_kind(objects_view(objects@), t),
{
    let ghost objs = objects_view(objects@);
    let ghost start = out@.map_values(|v: VolumeTargetInfo| target_info_view(v));
    let mut i: usize = 0;
    while i < objects.len()
        invariant
            i <= objects.len(),
            objs == objects_view(objects@),
            out@.map_values(|v: VolumeTargetInfo| target_info_view(v)) == start + targets_of_kind(
                objs.take(i as int),
                t,
            ),
        decreases objects.len() - i,
    {
        assert(objs.take(i + 1).drop_last() =~= objs.take(i as int));
        assert(objs.take(i + 1).last() == objects@[i as int]@);
        let o = &objects[i];
        let ghost before = out@;
        let same = match volume_target(o) {
            Some(k) => k == t,
            None => false,
        };
        if same {
            let name = volume_target_name(o, t).to_owned();
            out.push(VolumeTargetInfo { id: o.id, target: t, name });
            assert(out@.map_values(|v: VolumeTargetInfo| target_info_view(v)) =~= before.map_values(
                |v: VolumeTargetInfo| target_info_view(v),
            ).push((o@.id, t, target_name(o@, t))));
        }
        i = i + 1;
    }
    assert(objs.take(objects.len() as int) =~= objs);
}

/// The objects that carry a volume, as a volume listing gives them: the
/// devices first, then the audio sinks, each in listing order.
pub fn volume_targets(objects: &[PwObject]) -> (r: Vec<VolumeTargetInfo>)
    ensures
        r@.map_values(|v: VolumeTargetInfo| target_info_view(v)) == targets_of_kind(
            objects_view(objects@),
            VolumeTarget::Device,
        ) + targets_of_kind(objects_view(objects@), VolumeTarget::Sink),
{
    let mut out: Vec<VolumeTargetInfo> = Vec::new();
    assert(out@.map_values(|v: VolumeTargetInfo| target_info_view(v)) =~= Seq::empty());
    collect_targets(objects, VolumeTarget::Device, &mut out);
    collect_targets(objects, VolumeTarget::Sink, &mut out);
    assert(Seq::<(u32, VolumeTarget, Seq<char>)>::empty() + targets_of_kind(
        objects_view(objects@),
        VolumeTarget::Device,
    ) =~= targets_of_kind(objects_view(objects@), VolumeTarget::Device));
    out
}

/// The error for an id that names no object with a volume.
pub open spec fn no_volume_message(id: u32) -> Seq<char> {
    "Object "@ + decimal(id as nat) + " not found or not a volume-capable object"@
}

/// The kind and name of the volume of object `id`: that of the first object
/// listed with that id; not found where there is none or it carries no
/// volume.
pub fn find_volume_target(objects: &[PwObject], id: u32) -> (r: Result<(VolumeTarget, String), ApiError>)
    ensures
        ({
            let objs = objects_view(objects@);
            let k = id_index(objs, id);
            match r {
                Ok((t, name)) => k < objs.len() && target_of(objs[k]) == Some(t) && name@
                    == target_name(objs[k], t),
                Err(e) => (k == objs.len() || target_of(objs[k]) is None) && (e matches ApiError::NotFound(
                    m,
                ) && m@ == no_volume_message(id)),
            }
        }),
{
    match crate::pwcli::get_object(objects, id) {
        Some(o) => match volume_target(&o) {
            Some(t) => {
                let name = volume_target_name(&o, t).to_owned();
                return Ok((t, name));
            },
            None => {},
        },
        None => {},
    }
    let mut m = String::new();
    push_str_chars(&mut m, "Object ");
    push_decimal(&mut m, id as u64);
    push_str_chars(&mut m, " not found or not a volume-capable object");
    Err(ApiError::NotFound(m))
}


/// The name a volume is saved under follows the documented order of
/// properties: the node name where there is one; else the device name; else
/// the node description; else the device description; else `unknown`.
pub proof fn lemma_volume_name_order(o: ObjectModel)
    ensures
        o.prop("node.name"@) is Some ==> volume_name(o) == o.prop("node.name"@)->0,
        o.prop("node.name"@) is None && o.prop("device.name"@) is Some ==> volume_name(o) == o.prop("device.name"@)->0,
        o.prop("node.name"@) is None && o.prop("device.name"@) is None && o.prop("node.description"@) is Some
            ==> volume_name(o) == o.prop("node.description"@)->0,
        o.prop("node.name"@) is None && o.prop("device.name"@) is None && o.prop("node.description"@) is None
            && o.prop("device.description"@) is Some ==> volume_name(o) == o.prop("device.description"@)->0,
        o.prop("node.name"@) is None && o.prop("device.name"@) is None && o.prop("node.description"@) is None
            && o.prop("device.description"@) is None ==> volume_name(o) == "unknown"@,
{
}

/// Which objects carry a volume: every device, as a device; a node exactly
/// where its media class is `Audio/Sink`, as a sink; nothing else.
pub proof fn lemma_volume_targets_are_devices_and_sinks(o: ObjectModel)
    ensures
        o.object_type == "Device"@ ==> target_of(o) == Some(VolumeTarget::Device),
        o.object_type == "Node"@ ==> (target_of(o) == Some(VolumeTarget::Sink) <==> o.prop("media.class"@) == Some(
            "Audio/Sink"@,
        )),
        o.object_type != "Device"@ && o.object_type != "Node"@ ==> target_of(o) is None,
        target_of(o) != Some(VolumeTarget::Device) || o.object_type == "Device"@,
{
    reveal_strlit("Device");
    reveal_strlit("Node");
    assert("Device"@.len() == 6 && "Node"@.len() == 4);
}

/// The name a volume is listed under: a device's name, else its
/// description; a sink's node name, else its node description; else
/// `unknown`. A device is never listed under a node's properties, nor a sink
/// under a device's.
pub proof fn lemma_target_name_order(o: ObjectModel)
    ensures
        o.prop("device.name"@) is Some ==> target_name(o, VolumeTarget::Device) == o.prop("device.name"@)->0,
        o.prop("device.name"@) is None && o.prop("device.description"@) is Some ==> target_name(
            o,
            VolumeTarget::Device,
        ) == o.prop("device.description"@)->0,
        o.prop("device.name"@) is None && o.prop("device.description"@) is None ==> target_name(
            o,
            VolumeTarget::Device,
        ) == "unknown"@,
        o.prop("node.name"@) is Some ==> target_name(o, VolumeTarget::Sink) == o.prop("node.name"@)->0,
        o.prop("node.name"@) is None && o.prop("node.description"@) is Some ==> target_name(o, VolumeTarget::Sink)
            == o.prop("node.description"@)->0,
        o.prop("node.name"@) is None && o.prop("node.description"@) is None ==> target_name(o, VolumeTarget::Sink)
            == "unknown"@,
{
}


/// A volume rule applies to an object exactly where every property it lists
/// is present on the object and its pattern is a valid regex that finds a
/// match in the property's value: a missing property or an invalid pattern
/// keeps the rule off the object, and a rule that lists no property applies
/// to every object.
pub proof fn lemma_volume_rule_needs_every_property(o: ObjectModel, ps: Seq<(Seq<char>, Seq<char>)>)
    ensures
        matches_patterns(o, ps) <==> forall|k: int|
            0 <= k < ps.len() ==> o.prop(#[trigger] ps[k].0) is Some && regex_compiles(ps[k].1) && regex_finds(
                ps[k].1,
                o.prop(ps[k].0)->0,
            ),
        ps.len() == 0 ==> matches_patterns(o, ps),
{
    if matches_patterns(o, ps) {
        assert forall|k: int| 0 <= k < ps.len() implies o.prop(#[trigger] ps[k].0) is Some && regex_compiles(ps[k].1)
            && regex_finds(ps[k].1, o.prop(ps[k].0)->0) by {
            assert(pattern_holds(ps[k].1, o.prop(ps[k].0)));
        }
    }
}

} // verus!
