//! What the REST API answers: objects, ports and links, and how a link
//! request names its ports.
use vstd::prelude::*;
use crate::link_manager_cli::arrow;
use crate::pwcli::{ObjectModel, PwObject, objects_view, simplify_type, simplify_type_spec};
use crate::pwlink::{PortModel, PwLink, PwPort, ports_view};
use crate::text::{all_digits, chars_of, char_is_ascii_digit, decimal, parse_u32_spec, push_decimal, push_str_chars};
use crate::link_manager_cli::parse_u32_str;

verus! {

/// Basic PipeWire object info.
#[derive(Debug, Clone)]
pub struct PipeWireObject {
    pub id: u32,
    pub name: String,
    pub object_type: String,
}

/// Response for list endpoints.
#[derive(Debug)]
pub struct ListResponse {
    pub objects: Vec<PipeWireObject>,
}

pub open spec fn api_object_view(o: PipeWireObject) -> (u32, Seq<char>, Seq<char>) {
    (o.id, o.name@, o.object_type@)
}

/// What the API shows of a listed object: its id, display name and
/// simplified type.
pub open spec fn api_object_of(o: ObjectModel) -> (u32, Seq<char>, Seq<char>) {
    (o.id, o.display_name(), simplify_type_spec(o.object_type))
}

/// Convert a listed object to the API's object.
pub fn to_api_object(obj: &PwObject) -> (r: PipeWireObject)
    ensures
        api_object_view(r) == api_object_of(obj@),
{
    PipeWireObject { id: obj.id, name: obj.display_name(), object_type: simplify_type(obj.object_type.as_str()).to_owned() }
}

/// The list response for `objects`, in their order.
pub fn list_response(objects: &[PwObject]) -> (r: ListResponse)
    ensures
        r.objects@.map_values(|o: PipeWireObject| api_object_view(o)) == objects_view(objects@).map_values(
            |o: ObjectModel| api_object_of(o),
        ),
{
    let mut out: Vec<PipeWireObject> = Vec::new();
    let mut i: usize = 0;
    while i < objects.len()
        invariant
            i <= objects.len(),
            out@.len() == i,
            forall|j: int| 0 <= j < i ==> api_object_view(#[trigger] out@[j]) == api_object_of(objects@[j]@),
        decreases objects.len() - i,
    {
        out.push(to_api_object(&objects[i]));
        i = i + 1;
    }
    assert(out@.map_values(|o: PipeWireObject| api_object_view(o)) =~= objects_view(objects@).map_values(
        |o: ObjectModel| api_object_of(o),
    ));
    ListResponse { objects: out }
}

/// Request to create a link: port names (`node_name:port_name`) or port ids.
#[derive(Debug, Clone)]
pub struct CreateLinkRequest {
    pub output: String,
    pub input: String,
}

/// Request to remove the link between two ports, by name.
#[derive(Debug, Clone)]
pub struct RemoveLinkByNameRequest {
    pub output: String,
    pub input: String,
}

/// Query whether a link exists between two ports, by name.
#[derive(Debug, Clone)]
pub struct LinkExistsQuery {
    pub output: String,
    pub input: String,
}

/// Whether a link exists, and its id.
#[derive(Debug, Clone)]
pub struct LinkExistsResponse {
    pub exists: bool,
    pub link_id: Option<u32>,
}

/// Answer to a link operation.
#[derive(Debug, Clone)]
pub struct LinkResponse {
    pub status: String,
    pub message: String,
    pub link_id: Option<u32>,
}

/// A port in the list response.
#[derive(Debug, Clone)]
pub struct PortInfo {
    pub id: u32,
    pub name: String,
    pub node_name: String,
    pub port_name: String,
}

/// Response for list ports.
#[derive(Debug, Clone)]
pub struct ListPortsResponse {
    pub ports: Vec<PortInfo>,
}

pub open spec fn port_info_view(p: PortInfo) -> PortModel {
    PortModel { id: p.id, name: p.name@, node_name: p.node_name@, port_name: p.port_name@ }
}

/// The ports `pw-link` listed, as the API shows them.
pub fn list_ports_response(ports: &[PwPort]) -> (r: ListPortsResponse)
    ensures
        r.ports@.map_values(|p: PortInfo| port_info_view(p)) == ports_view(ports@),
{
    let mut out: Vec<PortInfo> = Vec::new();
    let mut i: usize = 0;
    while i < ports.len()
        invariant
            i <= ports.len(),
            out@.len() == i,
            forall|j: int| 0 <= j < i ==> port_info_view(#[trigger] out@[j]) == ports@[j]@,
        decreases ports.len() - i,
    {
        let p = &ports[i];
        out.push(
            PortInfo {
                id: p.id,
                name: p.name.clone(),
                node_name: p.node_name.clone(),
                port_name: p.port_name.clone(),
            },
        );
        i = i + 1;
    }
    assert(out@.map_values(|p: PortInfo| port_info_view(p)) =~= ports_view(ports@));
    ListPortsResponse { ports: out }
}

/// How a link request names its ports: by ids where both are all digits
/// (an error where such a one is no `u32`), else by names.
pub open spec fn endpoints_of(output: Seq<char>, input: Seq<char>) -> Result<Option<(u32, u32)>, Seq<char>> {
    if all_digits(output) && all_digits(input) {
        match parse_u32_spec(output) {
            None => Err("Invalid output port ID"@),
            Some(o) => match parse_u32_spec(input) {
                None => Err("Invalid input port ID"@),
                Some(i) => Ok(Some((o, i))),
            },
        }
    } else {
        Ok(None)
    }
}

fn is_all_digits(s: &str) -> (b: bool)
    ensures
        b == all_digits(s@),
{
    let v = chars_of(s);
    let mut i: usize = 0;
    while i < v.len()
        invariant
            i <= v.len(),
            v@ == s@,
            forall|k: int| 0 <= k < i ==> crate::text::is_ascii_digit(#[trigger] v@[k]),
        decreases v.len() - i,
    {
        if !char_is_ascii_digit(v[i]) {
            return false;
        }
        i = i + 1;
    }
    true
}

/// Decide how a link request names its ports: `Some((output_id, input_id))`
/// where both are all ASCII digits, `None` where they are names.
pub fn link_endpoints(output: &str, input: &str) -> (r: Result<Option<(u32, u32)>, String>)
    ensures
        match (r, endpoints_of(output@, input@)) {
            (Ok(a), Ok(b)) => a == b,
            (Err(e), Err(m)) => e@ == m,
            _ => false,
        },
{
    if is_all_digits(output) && is_all_digits(input) {
        let o = match parse_u32_str(output) {
            Some(o) => o,
            None => {
                return Err("Invalid output port ID".to_owned());
            },
        };
        match parse_u32_str(input) {
            Some(i) => Ok(Some((o, i))),
            None => Err("Invalid input port ID".to_owned()),
        }
    } else {
        Ok(None)
    }
}

/// The answer to a link check, given the link found, if any.
pub fn link_exists_response(link: Option<&PwLink>) -> (r: LinkExistsResponse)
    ensures
        r.exists == link.is_some(),
        r.link_id == match link {
            Some(l) => Some(l.id),
            None => None::<u32>,
        },
{
    match link {
        Some(l) => LinkExistsResponse { exists: true, link_id: Some(l.id) },
        None => LinkExistsResponse { exists: false, link_id: None },
    }
}

fn ok_status() -> (r: String)
    ensures
        r@ == "ok"@,
{
    "ok".to_owned()
}

/// The answer to a created link: `Link created: <output> -> <input>`, with
/// the new link's id where it was found.
pub fn link_created_response(output: &str, input: &str, link_id: Option<u32>) -> (r: LinkResponse)
    ensures
        r.status@ == "ok"@,
        r.message@ == "Link created: "@ + arrow(output@, input@),
        r.link_id == link_id,
{
    let mut m = String::new();
    push_str_chars(&mut m, "Link created: ");
    push_str_chars(&mut m, output);
    push_str_chars(&mut m, " -> ");
    push_str_chars(&mut m, input);
    LinkResponse { status: ok_status(), message: m, link_id }
}

/// The answer to a link removed by id: `Link <id> removed`.
pub fn link_removed_response(id: u32) -> (r: LinkResponse)
    ensures
        r.status@ == "ok"@,
        r.message@ == "Link "@ + decimal(id as nat) + " removed"@,
        r.link_id == Some(id),
{
    let mut m = String::new();
    push_str_chars(&mut m, "Link ");
    push_decimal(&mut m, id as u64);
    push_str_chars(&mut m, " removed");
    LinkResponse { status: ok_status(), message: m, link_id: Some(id) }
}

/// The answer to a link removed by port names: `Link removed: <output> -> <input>`.
pub fn link_removed_by_name_response(output: &str, input: &str) -> (r: LinkResponse)
    ensures
        r.status@ == "ok"@,
        r.message@ == "Link removed: "@ + arrow(output@, input@),
        r.link_id is None,
{
    let mut m = String::new();
    push_str_chars(&mut m, "Link removed: ");
    push_str_chars(&mut m, output);
    push_str_chars(&mut m, " -> ");
    push_str_chars(&mut m, input);
    LinkResponse { status: ok_status(), message: m, link_id: None }
}

/// The kind of an object the PipeWire registry announces.
#[derive(Debug, Clone, Copy, PartialEq, Eq, Structural)]
pub enum RegistryType {
    Node,
    Device,
    Port,
    Link,
    Client,
    Factory,
    Module,
    Other,
}

/// The API's name of a registry object's kind.
pub open spec fn registry_type_spec(t: RegistryType) -> Seq<char> {
    match t {
        RegistryType::Node => "node"@,
        RegistryType::Device => "device"@,
        RegistryType::Port => "port"@,
        RegistryType::Link => "link"@,
        RegistryType::Client => "client"@,
        RegistryType::Factory => "factory"@,
        RegistryType::Module => "module"@,
        RegistryType::Other => "other"@,
    }
}

/// The API's name of a registry object's kind.
pub fn registry_type_name(t: RegistryType) -> (r: &'static str)
    ensures
        r@ == registry_type_spec(t),
{
    match t {
        RegistryType::Node => "node",
        RegistryType::Device => "device",
        RegistryType::Port => "port",
        RegistryType::Link => "link",
        RegistryType::Client => "client",
        RegistryType::Factory => "factory",
        RegistryType::Module => "module",
        RegistryType::Other => "other",
    }
}

/// The name of a registry object: the first of its node, device, port,
/// client, factory and module names and its object path that it has, else
/// `unknown`.
pub open spec fn registry_name_spec(props: Seq<(Seq<char>, Seq<char>)>) -> Seq<char> {
    let keys = seq![
        "node.name"@,
        "device.name"@,
        "port.name"@,
        "client.name"@,
        "factory.name"@,
        "module.name"@,
        "object.path"@,
    ];
    first_present(props, keys)
}

/// The value of the first of `keys` that `props` holds, else `unknown`.
pub open spec fn first_present(props: Seq<(Seq<char>, Seq<char>)>, keys: Seq<Seq<char>>) -> Seq<char>
    decreases keys.len(),
{
    if keys.len() == 0 {
        "unknown"@
    } else {
        match crate::pwcli::lookup(props, keys[0]) {
            Some(v) => v,
            None => first_present(props, keys.drop_first()),
        }
    }
}

/// Name a registry object by its properties.
pub fn registry_object_name(props: &[(String, String)]) -> (r: String)
    ensures
        r@ == registry_name_spec(crate::linker::props_view(props@)),
{
    let keys = ["node.name", "device.name", "port.name", "client.name", "factory.name", "module.name", "object.path"];
    let ghost kv = keys@.map_values(|k: &str| k@);
    assert(kv =~= seq![
        "node.name"@,
        "device.name"@,
        "port.name"@,
        "client.name"@,
        "factory.name"@,
        "module.name"@,
        "object.path"@,
    ]);
    let ghost pv = crate::linker::props_view(props@);
    let mut i: usize = 0;
    assert(kv.skip(0) =~= kv);
    while i < keys.len()
        invariant
            i <= keys.len(),
            keys@.len() == 7,
            kv == keys@.map_values(|k: &str| k@),
            pv == crate::linker::props_view(props@),
            registry_name_spec(pv) == first_present(pv, kv),
            first_present(pv, kv) == first_present(pv, kv.skip(i as int)),
        decreases keys.len() - i,
    {
        assert(kv.skip(i as int)[0] == keys@[i as int]@);
        assert(kv.skip(i as int).drop_first() =~= kv.skip(i + 1));
        match crate::linker::prop_get(props, keys[i]) {
            Some(v) => {
                return v.to_owned();
            },
            None => {},
        }
        i = i + 1;
    }
    "unknown".to_owned()
}

/// The API's object for a registry object.
pub fn registry_object(id: u32, t: RegistryType, props: &[(String, String)]) -> (r: PipeWireObject)
    ensures
        api_object_view(r) == (id, registry_name_spec(crate::linker::props_view(props@)), registry_type_spec(t)),
{
    PipeWireObject { id, name: registry_object_name(props), object_type: registry_type_name(t).to_owned() }
}

fn clone_object(o: &PipeWireObject) -> (r: PipeWireObject)
    ensures
        api_object_view(r) == api_object_view(*o),
{
    PipeWireObject { id: o.id, name: o.name.clone(), object_type: o.object_type.clone() }
}

/// The objects of the API kind `object_type`, in order.
pub fn filter_by_type(objects: Vec<PipeWireObject>, object_type: &str) -> (r: Vec<PipeWireObject>)
    ensures
        r@.map_values(|o: PipeWireObject| api_object_view(o)) == objects@.map_values(
            |o: PipeWireObject| api_object_view(o),
        ).filter(|v: (u32, Seq<char>, Seq<char>)| v.2 == object_type@),
{
    let ghost ov = objects@.map_values(|o: PipeWireObject| api_object_view(o));
    let ghost p = |v: (u32, Seq<char>, Seq<char>)| v.2 == object_type@;
    let mut out: Vec<PipeWireObject> = Vec::new();
    let mut i: usize = 0;
    while i < objects.len()
        invariant
            i <= objects.len(),
            ov == objects@.map_values(|o: PipeWireObject| api_object_view(o)),
            p == (|v: (u32, Seq<char>, Seq<char>)| v.2 == object_type@),
            out@.map_values(|o: PipeWireObject| api_object_view(o)) == ov.take(i as int).filter(p),
        decreases objects.len() - i,
    {
        proof {
            crate::pwcli::lemma_filter_step(ov, i as int, p);
            assert(ov.take(i as int) =~= ov.subrange(0, i as int));
            assert(ov.take(i + 1) =~= ov.subrange(0, i + 1));
        }
        assert(ov[i as int] == api_object_view(objects@[i as int]));
        if crate::pwcli::str_eq(objects[i].object_type.as_str(), object_type) {
            let ghost before = out@.map_values(|o: PipeWireObject| api_object_view(o));
            out.push(clone_object(&objects[i]));
            assert(out@.map_values(|o: PipeWireObject| api_object_view(o)) =~= before.push(ov[i as int]));
        }
        i = i + 1;
    }
    assert(ov.take(ov.len() as int) =~= ov);
    out
}

} // verus!
