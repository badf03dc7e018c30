//! Link rule management over the objects, ports and links that `pw-cli` and
//! `pw-link` list.
//!
//! Applying a rule is split in two: [`plan_link_rule`] decides, from the
//! listed state, which links already exist and which have to be created or
//! removed; [`complete_step`] turns the outcome of each `pw-link` call into
//! the rule's result.
use vstd::prelude::*;
use crate::linker::{identifier_matches, match_field, opt_view, IdentifierModel, LinkRule, LinkType, NodeIdentifier, RuleModel};
use crate::pwcli::{ObjectModel, PwObject, lemma_filter_step, objects_view, opt_str_view, str_eq};
use crate::pwlink::{LinkModel, PwLink, lemma_link_index, link_index};
use crate::text::{decimal, parse_u32_spec, push_decimal, push_str_chars};

verus! {

/// Result of applying a link rule.
#[derive(Debug, Clone)]
pub struct LinkRuleResult {
    pub success: bool,
    pub message: String,
}

/// Model of a [`LinkRuleResult`].
pub struct ResultModel {
    pub success: bool,
    pub message: Seq<char>,
}

impl View for LinkRuleResult {
    type V = ResultModel;

    open spec fn view(&self) -> ResultModel {
        ResultModel { success: self.success, message: self.message@ }
    }
}

/// Information about a node.
#[derive(Debug, Clone)]
pub struct NodeInfo {
    pub id: u32,
    pub node_name: Option<String>,
    pub node_nick: Option<String>,
    pub object_path: Option<String>,
}

/// Model of a [`NodeInfo`].
pub struct NodeModel {
    pub id: u32,
    pub node_name: Option<Seq<char>>,
    pub node_nick: Option<Seq<char>>,
    pub object_path: Option<Seq<char>>,
}

impl View for NodeInfo {
    type V = NodeModel;

    open spec fn view(&self) -> NodeModel {
        NodeModel {
            id: self.id,
            node_name: opt_view(self.node_name),
            node_nick: opt_view(self.node_nick),
            object_path: opt_view(self.object_path),
        }
    }
}

/// The node that a listed object describes.
pub open spec fn node_of(o: ObjectModel) -> NodeModel {
    NodeModel {
        id: o.id,
        node_name: o.prop("node.name"@),
        node_nick: o.prop("node.nick"@),
        object_path: o.prop("object.path"@),
    }
}

/// `NodeInfo::display_name`.
pub open spec fn node_display_name(n: NodeModel) -> Seq<char> {
    match n.node_name {
        Some(v) => v,
        None => match n.node_nick {
            Some(v) => v,
            None => match n.object_path {
                Some(v) => v,
                None => "node-"@ + decimal(n.id as nat),
            },
        },
    }
}

fn opt_owned(o: Option<&str>) -> (r: Option<String>)
    ensures
        opt_view(r) == opt_str_view(o),
{
    match o {
        Some(s) => Some(s.to_owned()),
        None => None,
    }
}

impl NodeInfo {
    /// Create from a listed object.
    pub fn from_pw_object(obj: &PwObject) -> (r: NodeInfo)
        ensures
            r@ == node_of(obj@),
    {
        NodeInfo {
            id: obj.id,
            node_name: opt_owned(obj.get("node.name")),
            node_nick: opt_owned(obj.get("node.nick")),
            object_path: opt_owned(obj.get("object.path")),
        }
    }

    /// Get a display name for this node: its name, nick or path, else `node-<id>`.
    pub fn display_name(&self) -> (r: String)
        ensures
            r@ == node_display_name(self@),
    {
        match &self.node_name {
            Some(s) => s.clone(),
            None => match &self.node_nick {
                Some(s) => s.clone(),
                None => match &self.object_path {
                    Some(s) => s.clone(),
                    None => {
                        let mut s = String::new();
                        push_str_chars(&mut s, "node-");
                        push_decimal(&mut s, self.id as u64);
                        s
                    },
                },
            },
        }
    }

    /// A copy of this node.
    pub fn clone_node(&self) -> (r: NodeInfo)
        ensures
            r@ == self@,
    {
        NodeInfo {
            id: self.id,
            node_name: clone_opt_string(&self.node_name),
            node_nick: clone_opt_string(&self.node_nick),
            object_path: clone_opt_string(&self.object_path),
        }
    }
}

fn clone_opt_string(o: &Option<String>) -> (r: Option<String>)
    ensures
        opt_view(r) == opt_view(*o),
{
    match o {
        Some(s) => Some(s.clone()),
        None => None,
    }
}

/// Port direction.
#[derive(Debug, Clone, Copy, PartialEq, Eq, Structural)]
pub enum PortDirection {
    Input,
    Output,
}

/// Information about a port.
#[derive(Debug, Clone)]
pub struct PortInfo {
    pub id: u32,
    pub node_id: u32,
    pub name: String,
    /// "node_name:port_name", the form pw-link takes.
    pub full_name: String,
    pub direction: PortDirection,
    pub channel: Option<String>,
}

/// Model of a [`PortInfo`].
pub struct PortInfoModel {
    pub id: u32,
    pub node_id: u32,
    pub name: Seq<char>,
    pub full_name: Seq<char>,
    pub direction: PortDirection,
    pub channel: Option<Seq<char>>,
}

impl View for PortInfo {
    type V = PortInfoModel;

    open spec fn view(&self) -> PortInfoModel {
        PortInfoModel {
            id: self.id,
            node_id: self.node_id,
            name: self.name@,
            full_name: self.full_name@,
            direction: self.direction,
            channel: opt_view(self.channel),
        }
    }
}

/// Index of the first object with `id` among `objs`, or `objs.len()`.
pub open spec fn first_with_id(objs: Seq<ObjectModel>, id: u32) -> int {
    crate::pwcli::id_index(objs, id)
}

/// The port that a listed port object describes, given the listed nodes; `None`
/// when its node id, port name, node (or the node's name) or direction
/// (`in`/`out`) is missing.
pub open spec fn port_of(o: ObjectModel, nodes: Seq<ObjectModel>) -> Option<PortInfoModel> {
    match o.prop("node.id"@) {
        None => None,
        Some(nid) => match parse_u32_spec(nid) {
            None => None,
            Some(node_id) => match o.prop("port.name"@) {
                None => None,
                Some(pname) => {
                    let k = first_with_id(nodes, node_id);
                    if k >= nodes.len() {
                        None
                    } else {
                        match nodes[k].prop("node.name"@) {
                            None => None,
                            Some(nname) => match o.prop("port.direction"@) {
                                None => None,
                                Some(dir) => if dir == "in"@ || dir == "out"@ {
                                    Some(
                                        PortInfoModel {
                                            id: o.id,
                                            node_id,
                                            name: pname,
                                            full_name: nname + ":"@ + pname,
                                            direction: if dir == "in"@ {
                                                PortDirection::Input
                                            } else {
                                                PortDirection::Output
                                            },
                                            channel: o.prop("audio.channel"@),
                                        },
                                    )
                                } else {
                                    None
                                },
                            },
                        }
                    }
                },
            },
        },
    }
}

/// `str::parse::<u32>`.
pub fn parse_u32_str(s: &str) -> (r: Option<u32>)
    ensures
        r == parse_u32_spec(s@),
{
    let v = crate::text::chars_of(s);
    let r = crate::text::parse_u32_range(&v, 0, v.len());
    assert(v@.subrange(0, v@.len() as int) == v@);
    r
}

impl PortInfo {
    /// Create from a listed port object, looking up its node among `nodes`.
    pub fn from_pw_object(obj: &PwObject, nodes: &[PwObject]) -> (r: Option<PortInfo>)
        ensures
            match r {
                Some(p) => port_of(obj@, crate::pwcli::objects_view(nodes@)) == Some(p@),
                None => port_of(obj@, crate::pwcli::objects_view(nodes@)) is None,
            },
    {
        let nid = obj.get("node.id")?;
        let node_id = parse_u32_str(nid)?;
        let port_name = obj.get("port.name")?;
        let node = crate::pwcli::get_object(nodes, node_id)?;
        let node_name = node.get("node.name")?;
        let dir = obj.get("port.direction")?;
        let direction = if str_eq(dir, "in") {
            PortDirection::Input
        } else if str_eq(dir, "out") {
            PortDirection::Output
        } else {
            return None;
        };
        let mut full_name = String::new();
        push_str_chars(&mut full_name, node_name);
        push_str_chars(&mut full_name, ":");
        push_str_chars(&mut full_name, port_name);
        Some(
            PortInfo {
                id: obj.id,
                node_id,
                name: port_name.to_owned(),
                full_name,
                direction,
                channel: opt_owned(obj.get("audio.channel")),
            },
        )
    }

    /// A copy of this port.
    pub fn clone_port(&self) -> (r: PortInfo)
        ensures
            r@ == self@,
    {
        PortInfo {
            id: self.id,
            node_id: self.node_id,
            name: self.name.clone(),
            full_name: self.full_name.clone(),
            direction: self.direction,
            channel: clone_opt_string(&self.channel),
        }
    }
}

/// Information about an existing link.
#[derive(Debug, Clone)]
pub struct LinkInfo {
    pub id: u32,
    pub output_port_id: u32,
    pub input_port_id: u32,
    pub output_port_name: String,
    pub input_port_name: String,
}

impl View for LinkInfo {
    type V = LinkModel;

    open spec fn view(&self) -> LinkModel {
        LinkModel {
            id: self.id,
            output_port_id: self.output_port_id,
            output_port_name: self.output_port_name@,
            input_port_id: self.input_port_id,
            input_port_name: self.input_port_name@,
        }
    }
}

impl LinkInfo {
    /// Create from a link that `pw-link` listed.
    pub fn from_pw_link(link: &PwLink) -> (r: LinkInfo)
        ensures
            r@ == link@,
    {
        LinkInfo {
            id: link.id,
            output_port_id: link.output_port_id,
            input_port_id: link.input_port_id,
            output_port_name: link.output_port_name.clone(),
            input_port_name: link.input_port_name.clone(),
        }
    }
}

/// Check if a node matches an identifier: any present pattern of the
/// identifier matches the node's corresponding present value.
pub fn matches_identifier(node: &NodeInfo, identifier: &NodeIdentifier) -> (r: bool)
    ensures
        r == identifier_matches(identifier@, node@.node_name, node@.node_nick, node@.object_path),
{
    match_field(&identifier.node_name, opt_as_str(&node.node_name)) || match_field(
        &identifier.node_nick,
        opt_as_str(&node.node_nick),
    ) || match_field(&identifier.object_path, opt_as_str(&node.object_path))
}

fn opt_as_str(o: &Option<String>) -> (r: Option<&str>)
    ensures
        opt_str_view(r) == opt_view(*o),
{
    match o {
        Some(s) => Some(s.as_str()),
        None => None,
    }
}

/// Objects of type `Node`.
pub open spec fn is_node_object() -> spec_fn(ObjectModel) -> bool {
    |o: ObjectModel| o.object_type == "Node"@
}

/// The node objects of a listing, in listing order.
pub open spec fn node_objects(objs: Seq<ObjectModel>) -> Seq<ObjectModel> {
    objs.filter(is_node_object())
}

/// The nodes that listed node objects describe.
pub open spec fn nodes_of(objs: Seq<ObjectModel>) -> Seq<NodeModel> {
    objs.map_values(|o: ObjectModel| node_of(o))
}

/// A port object that only mirrors another port (`port.monitor` is `true`).
pub open spec fn is_monitor_port(o: ObjectModel) -> bool {
    o.prop("port.monitor"@) == Some("true"@)
}

/// The ports of a listing, given its node objects: what each port object that
/// is no monitor port describes, in listing order, where it describes a port.
pub open spec fn listed_ports(objs: Seq<ObjectModel>, nodes: Seq<ObjectModel>) -> Seq<PortInfoModel>
    decreases objs.len(),
{
    if objs.len() == 0 {
        seq![]
    } else {
        let rest = listed_ports(objs.drop_last(), nodes);
        let o = objs.last();
        if o.object_type == "Port"@ && !is_monitor_port(o) {
            match port_of(o, nodes) {
                Some(p) => rest.push(p),
                None => rest,
            }
        } else {
            rest
        }
    }
}

/// Model of a [`LinkData`].
pub struct DataModel {
    pub nodes: Seq<NodeModel>,
    pub ports: Seq<PortInfoModel>,
    pub links: Seq<LinkModel>,
}

/// What [`LinkData::load`] makes of a `pw-cli ls` listing and a `pw-link` link list.
pub open spec fn listing_data(objs: Seq<ObjectModel>, links: Seq<LinkModel>) -> DataModel {
    DataModel {
        nodes: nodes_of(node_objects(objs)),
        ports: listed_ports(objs, node_objects(objs)),
        links,
    }
}

pub open spec fn nodes_view(ns: Seq<NodeInfo>) -> Seq<NodeModel> {
    ns.map_values(|n: NodeInfo| n@)
}

pub open spec fn node_refs_view(ns: Seq<&NodeInfo>) -> Seq<NodeModel> {
    ns.map_values(|n: &NodeInfo| n@)
}

pub open spec fn ports_view(ps: Seq<PortInfo>) -> Seq<PortInfoModel> {
    ps.map_values(|p: PortInfo| p@)
}

pub open spec fn port_refs_view(ps: Seq<&PortInfo>) -> Seq<PortInfoModel> {
    ps.map_values(|p: &PortInfo| p@)
}

pub open spec fn link_infos_view(ls: Seq<LinkInfo>) -> Seq<LinkModel> {
    ls.map_values(|l: LinkInfo| l@)
}

/// Nodes that an identifier matches.
pub open spec fn matched_by(id: IdentifierModel) -> spec_fn(NodeModel) -> bool {
    |n: NodeModel| identifier_matches(id, n.node_name, n.node_nick, n.object_path)
}

/// Ports of node `node_id` in direction `dir`.
pub open spec fn port_of_node(node_id: u32, dir: PortDirection) -> spec_fn(PortInfoModel) -> bool {
    |p: PortInfoModel| p.node_id == node_id && p.direction == dir
}

/// Whether `links` holds a link from port `output` to port `input` (by name).
pub open spec fn has_link_named(links: Seq<LinkModel>, output: Seq<char>, input: Seq<char>) -> bool {
    exists|j: int|
        0 <= j < links.len() && (#[trigger] links[j]).output_port_name == output
            && links[j].input_port_name == input
}

/// Whether `links` holds a link from port `output_id` to port `input_id`.
pub open spec fn has_link_ids(links: Seq<LinkModel>, output_id: u32, input_id: u32) -> bool {
    exists|j: int|
        0 <= j < links.len() && (#[trigger] links[j]).output_port_id == output_id
            && links[j].input_port_id == input_id
}

/// All current links, as `pw-link` listed them.
pub fn list_links(pw_links: &[PwLink]) -> (r: Vec<LinkInfo>)
    ensures
        link_infos_view(r@) == crate::pwlink::links_view(pw_links@),
{
    let mut out: Vec<LinkInfo> = Vec::new();
    let mut i: usize = 0;
    while i < pw_links.len()
        invariant
            i <= pw_links.len(),
            out@.len() == i,
            forall|j: int| 0 <= j < i ==> (#[trigger] out@[j])@ == pw_links@[j]@,
        decreases pw_links.len() - i,
    {
        out.push(LinkInfo::from_pw_link(&pw_links[i]));
        i = i + 1;
    }
    assert(link_infos_view(out@) =~= crate::pwlink::links_view(pw_links@));
    out
}

/// Nodes, ports and links, as listed at one moment.
pub struct LinkData {
    pub nodes: Vec<NodeInfo>,
    pub ports: Vec<PortInfo>,
    pub links: Vec<LinkInfo>,
}

impl View for LinkData {
    type V = DataModel;

    open spec fn view(&self) -> DataModel {
        DataModel {
            nodes: nodes_view(self.nodes@),
            ports: ports_view(self.ports@),
            links: link_infos_view(self.links@),
        }
    }
}

fn is_monitor(o: &PwObject) -> (b: bool)
    ensures
        b == is_monitor_port(o@),
{
    match o.get("port.monitor") {
        Some(v) => str_eq(v, "true"),
        None => false,
    }
}

impl LinkData {
    /// The link data of a `pw-cli ls` listing and of the links `pw-link` listed:
    /// the listing's nodes, its ports other than monitor ports (each named after
    /// its node), and the links.
    pub fn load(all_objects: &[PwObject], pw_links: &[PwLink]) -> (r: LinkData)
        ensures
            r@ == listing_data(objects_view(all_objects@), crate::pwlink::links_view(pw_links@)),
    {
        let ghost objs = objects_view(all_objects@);
        let mut node_objs: Vec<PwObject> = Vec::new();
        let mut nodes: Vec<NodeInfo> = Vec::new();
        let mut i: usize = 0;
        while i < all_objects.len()
            invariant
                i <= all_objects.len(),
                objs == objects_view(all_objects@),
                objects_view(node_objs@) == node_objects(objs.subrange(0, i as int)),
                nodes_view(nodes@) == nodes_of(objects_view(node_objs@)),
            decreases all_objects.len() - i,
        {
            proof {
                lemma_filter_step(objs, i as int, is_node_object());
            }
            assert(objs[i as int] == all_objects@[i as int]@);
            if str_eq(all_objects[i].object_type.as_str(), "Node") {
                let ghost before = node_objs@;
                let ghost before_nodes = nodes@;
                node_objs.push(all_objects[i].clone_object());
                nodes.push(NodeInfo::from_pw_object(&all_objects[i]));
                assert(objects_view(node_objs@) =~= objects_view(before).push(objs[i as int]));
                assert(nodes_view(nodes@) =~= nodes_view(before_nodes).push(node_of(objs[i as int])));
                assert(nodes_of(objects_view(node_objs@)) =~= nodes_of(objects_view(before)).push(
                    node_of(objs[i as int]),
                ));
            }
            i = i + 1;
        }
        assert(objs.subrange(0, objs.len() as int) =~= objs);
        let ghost nobjs = objects_view(node_objs@);
        let mut ports: Vec<PortInfo> = Vec::new();
        let mut i: usize = 0;
        while i < all_objects.len()
            invariant
                i <= all_objects.len(),
                objs == objects_view(all_objects@),
                nobjs == objects_view(node_objs@),
                nobjs == node_objects(objs),
                ports_view(ports@) == listed_ports(objs.subrange(0, i as int), nobjs),
            decreases all_objects.len() - i,
        {
            assert(objs.subrange(0, i + 1).drop_last() =~= objs.subrange(0, i as int));
            assert(objs[i as int] == all_objects@[i as int]@);
            let o = &all_objects[i];
            if str_eq(o.object_type.as_str(), "Port") && !is_monitor(o) {
                match PortInfo::from_pw_object(o, node_objs.as_slice()) {
                    Some(p) => {
                        let ghost before = ports@;
                        ports.push(p);
                        assert(ports_view(ports@) =~= ports_view(before).push(p@));
                    },
                    None => {},
                }
            }
            i = i + 1;
        }
        assert(objs.subrange(0, objs.len() as int) =~= objs);
        let links = list_links(pw_links);
        LinkData { nodes, ports, links }
    }
}

impl LinkData {
    /// Find nodes matching an identifier, in listing order.
    pub fn find_matching_nodes(&self, identifier: &NodeIdentifier) -> (r: Vec<&NodeInfo>)
        ensures
            node_refs_view(r@) == self@.nodes.filter(matched_by(identifier@)),
    {
        let ghost ns = self@.nodes;
        let mut out: Vec<&NodeInfo> = Vec::new();
        let mut i: usize = 0;
        while i < self.nodes.len()
            invariant
                i <= self.nodes.len(),
                ns == self@.nodes,
                node_refs_view(out@) == ns.subrange(0, i as int).filter(matched_by(identifier@)),
            decreases self.nodes.len() - i,
        {
            proof {
                lemma_filter_step(ns, i as int, matched_by(identifier@));
            }
            assert(ns[i as int] == self.nodes@[i as int]@);
            if matches_identifier(&self.nodes[i], identifier) {
                let ghost before = out@;
                out.push(&self.nodes[i]);
                assert(node_refs_view(out@) =~= node_refs_view(before).push(ns[i as int]));
            }
            i = i + 1;
        }
        assert(ns.subrange(0, ns.len() as int) =~= ns);
        out
    }

    fn ports_of_node(&self, node_id: u32, dir: PortDirection) -> (r: Vec<&PortInfo>)
        ensures
            port_refs_view(r@) == self@.ports.filter(port_of_node(node_id, dir)),
    {
        let ghost ps = self@.ports;
        let mut out: Vec<&PortInfo> = Vec::new();
        let mut i: usize = 0;
        while i < self.ports.len()
            invariant
                i <= self.ports.len(),
                ps == self@.ports,
                port_refs_view(out@) == ps.subrange(0, i as int).filter(port_of_node(node_id, dir)),
            decreases self.ports.len() - i,
        {
            proof {
                lemma_filter_step(ps, i as int, port_of_node(node_id, dir));
            }
            assert(ps[i as int] == self.ports@[i as int]@);
            if self.ports[i].node_id == node_id && self.ports[i].direction == dir {
                let ghost before = out@;
                out.push(&self.ports[i]);
                assert(port_refs_view(out@) =~= port_refs_view(before).push(ps[i as int]));
            }
            i = i + 1;
        }
        assert(ps.subrange(0, ps.len() as int) =~= ps);
        out
    }

    /// Get the output ports of a node, in listing order.
    pub fn get_output_ports(&self, node_id: u32) -> (r: Vec<&PortInfo>)
        ensures
            port_refs_view(r@) == self@.ports.filter(port_of_node(node_id, PortDirection::Output)),
    {
        self.ports_of_node(node_id, PortDirection::Output)
    }

    /// Get the input ports of a node, in listing order.
    pub fn get_input_ports(&self, node_id: u32) -> (r: Vec<&PortInfo>)
        ensures
            port_refs_view(r@) == self@.ports.filter(port_of_node(node_id, PortDirection::Input)),
    {
        self.ports_of_node(node_id, PortDirection::Input)
    }

    /// Check if a link exists between two ports (by full name).
    pub fn link_exists(&self, output_name: &str, input_name: &str) -> (b: bool)
        ensures
            b == has_link_named(self@.links, output_name@, input_name@),
    {
        let ghost ls = self@.links;
        let mut i: usize = 0;
        while i < self.links.len()
            invariant
                i <= self.links.len(),
                ls == self@.links,
                forall|j: int|
                    0 <= j < i ==> !((#[trigger] ls[j]).output_port_name == output_name@
                        && ls[j].input_port_name == input_name@),
            decreases self.links.len() - i,
        {
            assert(ls[i as int] == self.links@[i as int]@);
            if str_eq(self.links[i].output_port_name.as_str(), output_name) && str_eq(
                self.links[i].input_port_name.as_str(),
                input_name,
            ) {
                return true;
            }
            i = i + 1;
        }
        false
    }

    /// Check if a link exists between two ports (by ID).
    pub fn link_exists_by_id(&self, output_id: u32, input_id: u32) -> (b: bool)
        ensures
            b == has_link_ids(self@.links, output_id, input_id),
    {
        let ghost ls = self@.links;
        let mut i: usize = 0;
        while i < self.links.len()
            invariant
                i <= self.links.len(),
                ls == self@.links,
                forall|j: int|
                    0 <= j < i ==> !((#[trigger] ls[j]).output_port_id == output_id
                        && ls[j].input_port_id == input_id),
            decreases self.links.len() - i,
        {
            assert(ls[i as int] == self.links@[i as int]@);
            if self.links[i].output_port_id == output_id && self.links[i].input_port_id == input_id {
                return true;
            }
            i = i + 1;
        }
        false
    }

    /// Find the id of the first link from `output_name` to `input_name`.
    pub fn find_link_id(&self, output_name: &str, input_name: &str) -> (r: Option<u32>)
        ensures
            ({
                let ls = self@.links;
                let k = link_index(ls, output_name@, input_name@);
                r == if k < ls.len() {
                    Some(ls[k].id)
                } else {
                    None::<u32>
                }
            }),
    {
        let ghost ls = self@.links;
        let mut i: usize = 0;
        while i < self.links.len()
            invariant
                i <= self.links.len(),
                ls == self@.links,
                forall|j: int|
                    0 <= j < i ==> !((#[trigger] ls[j]).output_port_name == output_name@
                        && ls[j].input_port_name == input_name@),
            decreases self.links.len() - i,
        {
            assert(ls[i as int] == self.links@[i as int]@);
            if str_eq(self.links[i].output_port_name.as_str(), output_name) && str_eq(
                self.links[i].input_port_name.as_str(),
                input_name,
            ) {
                proof {
                    lemma_link_index(ls, output_name@, input_name@, i as int);
                }
                return Some(self.links[i].id);
            }
            i = i + 1;
        }
        proof {
            lemma_link_index(ls, output_name@, input_name@, ls.len() as int);
        }
        None
    }
}

/// `sorted` with `p` put after its last element whose id is not above `p`'s,
/// that is, before the run of elements at its end whose ids are above.
pub open spec fn insert_by_id(sorted: Seq<PortInfoModel>, p: PortInfoModel) -> Seq<PortInfoModel>
    decreases sorted.len(),
{
    if sorted.len() == 0 || sorted.last().id <= p.id {
        sorted.push(p)
    } else {
        insert_by_id(sorted.drop_last(), p).push(sorted.last())
    }
}

/// Ports sorted by id; ports with equal ids keep their order (a stable sort).
pub open spec fn sort_by_id(ps: Seq<PortInfoModel>) -> Seq<PortInfoModel>
    decreases ps.len(),
{
    if ps.len() == 0 {
        ps
    } else {
        insert_by_id(sort_by_id(ps.drop_last()), ps.last())
    }
}

proof fn lemma_insert_by_id_at(s: Seq<PortInfoModel>, p: PortInfoModel, j: int)
    requires
        0 <= j <= s.len(),
        forall|k: int| j <= k < s.len() ==> (#[trigger] s[k]).id > p.id,
        j == 0 || s[j - 1].id <= p.id,
    ensures
        insert_by_id(s, p) == s.insert(j, p),
    decreases s.len(),
{
    if s.len() == 0 {
        assert(s.insert(j, p) =~= s.push(p));
    } else if j == s.len() {
        assert(s.insert(j, p) =~= s.push(p));
    } else {
        let t = s.drop_last();
        assert forall|k: int| j <= k < t.len() implies (#[trigger] t[k]).id > p.id by {
            assert(t[k] == s[k]);
        }
        lemma_insert_by_id_at(t, p, j);
        assert(s.insert(j, p) =~= t.insert(j, p).push(s.last()));
    }
}

/// Sort ports by id, keeping the order of ports with equal ids.
fn sort_ports_by_id<'a>(ps: Vec<&'a PortInfo>) -> (r: Vec<&'a PortInfo>)
    ensures
        port_refs_view(r@) == sort_by_id(port_refs_view(ps@)),
{
    let ghost pv = port_refs_view(ps@);
    let mut out: Vec<&PortInfo> = Vec::new();
    let mut i: usize = 0;
    while i < ps.len()
        invariant
            i <= ps.len(),
            pv == port_refs_view(ps@),
            port_refs_view(out@) == sort_by_id(pv.subrange(0, i as int)),
        decreases ps.len() - i,
    {
        let p = ps[i];
        let mut j: usize = out.len();
        while j > 0 && out[j - 1].id > p.id
            invariant
                j <= out.len(),
                forall|k: int| j <= k < out.len() ==> (#[trigger] out@[k]).id > p.id,
            decreases j,
        {
            j = j - 1;
        }
        let ghost before = port_refs_view(out@);
        proof {
            assert forall|k: int| j <= k < before.len() implies (#[trigger] before[k]).id > p@.id by {
                assert(before[k] == out@[k]@);
            }
            if j > 0 {
                assert(before[j - 1] == out@[j - 1]@);
            }
            lemma_insert_by_id_at(before, p@, j as int);
            assert(pv.subrange(0, i + 1).drop_last() =~= pv.subrange(0, i as int));
            assert(pv[i as int] == p@);
        }
        out.insert(j, p);
        assert(port_refs_view(out@) =~= before.insert(j as int, p@));
        i = i + 1;
    }
    assert(pv.subrange(0, pv.len() as int) =~= pv);
    out
}

/// One step of applying a link rule.
#[derive(Debug, Clone)]
pub enum LinkStep {
    /// A result known without calling `pw-link`.
    Done(LinkRuleResult),
    /// Create the link from port `output` to port `input` (full port names).
    Create { output: String, input: String },
    /// Remove link `link_id`, which goes from port `output` to port `input`.
    Remove { link_id: u32, output: String, input: String },
}

/// Model of a [`LinkStep`].
pub enum StepModel {
    Done(ResultModel),
    Create { output: Seq<char>, input: Seq<char> },
    Remove { link_id: u32, output: Seq<char>, input: Seq<char> },
}

impl View for LinkStep {
    type V = StepModel;

    open spec fn view(&self) -> StepModel {
        match self {
            LinkStep::Done(r) => StepModel::Done(r@),
            LinkStep::Create { output, input } => StepModel::Create {
                output: output@,
                input: input@,
            },
            LinkStep::Remove { link_id, output, input } => StepModel::Remove {
                link_id: *link_id,
                output: output@,
                input: input@,
            },
        }
    }
}

pub open spec fn steps_view(ss: Seq<LinkStep>) -> Seq<StepModel> {
    ss.map_values(|s: LinkStep| s@)
}

/// `a -> b`.
pub open spec fn arrow(a: Seq<char>, b: Seq<char>) -> Seq<char> {
    a + " -> "@ + b
}

pub open spec fn done(success: bool, message: Seq<char>) -> StepModel {
    StepModel::Done(ResultModel { success, message })
}

/// The report on a source and a destination node whose port counts differ.
pub open spec fn mismatch_message(s: NodeModel, d: NodeModel, outs: nat, ins: nat) -> Seq<char> {
    "Port count mismatch for "@ + arrow(node_display_name(s), node_display_name(d)) + ": "@
        + decimal(outs) + " output ports vs "@ + decimal(ins) + " input ports"@
}

/// The report on a source and a destination node with no ports to link.
pub open spec fn no_ports_message(s: NodeModel, d: NodeModel) -> Seq<char> {
    "No ports found to link "@ + arrow(node_display_name(s), node_display_name(d))
}

/// Linking port `o` to port `i`: nothing to do where the link exists.
pub open spec fn link_step(links: Seq<LinkModel>, o: Seq<char>, i: Seq<char>) -> StepModel {
    if has_link_named(links, o, i) {
        done(true, "Link already exists: "@ + arrow(o, i))
    } else {
        StepModel::Create { output: o, input: i }
    }
}

/// Unlinking port `o` from port `i`: remove the first such link, if any.
pub open spec fn unlink_step(links: Seq<LinkModel>, o: Seq<char>, i: Seq<char>) -> StepModel {
    let k = link_index(links, o, i);
    if k < links.len() {
        StepModel::Remove { link_id: links[k].id, output: o, input: i }
    } else {
        done(true, "Link does not exist: "@ + arrow(o, i))
    }
}

/// The steps on the first `n` pairs of `outs` and `ins`, paired by position.
pub open spec fn zip_steps(
    links: Seq<LinkModel>,
    lt: LinkType,
    outs: Seq<PortInfoModel>,
    ins: Seq<PortInfoModel>,
    n: nat,
) -> Seq<StepModel>
    decreases n,
{
    if n == 0 {
        seq![]
    } else {
        let k = n - 1;
        zip_steps(links, lt, outs, ins, k as nat).push(
            match lt {
                LinkType::Link => link_step(links, outs[k].full_name, ins[k].full_name),
                LinkType::Unlink => unlink_step(links, outs[k].full_name, ins[k].full_name),
            },
        )
    }
}

/// The ports of node `node_id` in direction `dir`, sorted by id.
pub open spec fn sorted_ports(ports: Seq<PortInfoModel>, node_id: u32, dir: PortDirection) -> Seq<PortInfoModel> {
    sort_by_id(ports.filter(port_of_node(node_id, dir)))
}

/// The steps of a rule of type `lt` on source node `s` and destination node
/// `d`: the output ports of `s` and the input ports of `d`, each sorted by id,
/// are paired by position. Linking asks for as many output as input ports,
/// and for at least one.
pub open spec fn pair_steps(data: DataModel, lt: LinkType, s: NodeModel, d: NodeModel) -> Seq<StepModel> {
    let outs = sorted_ports(data.ports, s.id, PortDirection::Output);
    let ins = sorted_ports(data.ports, d.id, PortDirection::Input);
    match lt {
        LinkType::Link => if outs.len() != ins.len() {
            seq![done(false, mismatch_message(s, d, outs.len(), ins.len()))]
        } else if outs.len() == 0 {
            seq![done(false, no_ports_message(s, d))]
        } else {
            zip_steps(data.links, lt, outs, ins, outs.len())
        },
        LinkType::Unlink => zip_steps(
            data.links,
            lt,
            outs,
            ins,
            if outs.len() <= ins.len() {
                outs.len()
            } else {
                ins.len()
            },
        ),
    }
}

/// The steps for source `s` and each of `dests` in turn.
pub open spec fn dest_steps(data: DataModel, lt: LinkType, s: NodeModel, dests: Seq<NodeModel>) -> Seq<StepModel>
    decreases dests.len(),
{
    if dests.len() == 0 {
        seq![]
    } else {
        dest_steps(data, lt, s, dests.drop_last()) + pair_steps(data, lt, s, dests.last())
    }
}

/// The steps for each of `srcs` in turn, each with every one of `dests`.
pub open spec fn source_steps(
    data: DataModel,
    lt: LinkType,
    srcs: Seq<NodeModel>,
    dests: Seq<NodeModel>,
) -> Seq<StepModel>
    decreases srcs.len(),
{
    if srcs.len() == 0 {
        seq![]
    } else {
        source_steps(data, lt, srcs.drop_last(), dests) + dest_steps(data, lt, srcs.last(), dests)
    }
}

/// What applying `rule` to `data` comes to: an error where no node matches
/// its source or no node matches its destination; else the steps for every
/// matching source with every matching destination, in listing order.
pub open spec fn rule_plan(data: DataModel, rule: RuleModel) -> Result<Seq<StepModel>, Seq<char>> {
    let sources = data.nodes.filter(matched_by(rule.source));
    let dests = data.nodes.filter(matched_by(rule.destination));
    if sources.len() == 0 {
        Err("No source nodes found matching criteria"@)
    } else if dests.len() == 0 {
        Err("No destination nodes found matching criteria"@)
    } else {
        Ok(source_steps(data, rule.link_type, sources, dests))
    }
}

/// The result of a step, given what `pw-link` answered (`Ok` for success, or
/// its error); a step that needed no call keeps its result.
pub open spec fn step_outcome(step: StepModel, outcome: Result<(), Seq<char>>) -> ResultModel {
    match step {
        StepModel::Done(r) => r,
        StepModel::Create { output, input } => match outcome {
            Ok(_) => ResultModel { success: true, message: "Created link: "@ + arrow(output, input) },
            Err(e) => ResultModel {
                success: false,
                message: "Failed to create link "@ + arrow(output, input) + ": "@ + e,
            },
        },
        StepModel::Remove { output, input, .. } => match outcome {
            Ok(_) => ResultModel { success: true, message: "Removed link: "@ + arrow(output, input) },
            Err(e) => ResultModel {
                success: false,
                message: "Failed to remove link "@ + arrow(output, input) + ": "@ + e,
            },
        },
    }
}

pub open spec fn outcome_view(o: Result<(), String>) -> Result<(), Seq<char>> {
    match o {
        Ok(_) => Ok(()),
        Err(e) => Err(e@),
    }
}

fn arrow_string(a: &str, b: &str) -> (r: String)
    ensures
        r@ == arrow(a@, b@),
{
    let mut r = String::new();
    push_str_chars(&mut r, a);
    push_str_chars(&mut r, " -> ");
    push_str_chars(&mut r, b);
    r
}

fn message(prefix: &str, body: &str) -> (r: String)
    ensures
        r@ == prefix@ + body@,
{
    let mut r = String::new();
    push_str_chars(&mut r, prefix);
    push_str_chars(&mut r, body);
    r
}

fn failure(prefix: &str, body: &str, e: &str) -> (r: String)
    ensures
        r@ == prefix@ + body@ + ": "@ + e@,
{
    let mut r = message(prefix, body);
    push_str_chars(&mut r, ": ");
    push_str_chars(&mut r, e);
    r
}

/// The result of a step, given the outcome of the `pw-link` call it asked
/// for; a `Done` step keeps its result whatever `outcome` is.
pub fn step_result(step: &LinkStep, outcome: Result<(), String>) -> (r: LinkRuleResult)
    ensures
        r@ == step_outcome(step@, outcome_view(outcome)),
{
    match step {
        LinkStep::Done(r) => LinkRuleResult { success: r.success, message: r.message.clone() },
        LinkStep::Create { output, input } => {
            let a = arrow_string(output.as_str(), input.as_str());
            match outcome {
                Ok(()) => LinkRuleResult {
                    success: true,
                    message: message("Created link: ", a.as_str()),
                },
                Err(e) => LinkRuleResult {
                    success: false,
                    message: failure("Failed to create link ", a.as_str(), e.as_str()),
                },
            }
        },
        LinkStep::Remove { output, input, .. } => {
            let a = arrow_string(output.as_str(), input.as_str());
            match outcome {
                Ok(()) => LinkRuleResult {
                    success: true,
                    message: message("Removed link: ", a.as_str()),
                },
                Err(e) => LinkRuleResult {
                    success: false,
                    message: failure("Failed to remove link ", a.as_str(), e.as_str()),
                },
            }
        },
    }
}

fn push_done(out: &mut Vec<LinkStep>, success: bool, message: String)
    ensures
        steps_view(final(out)@) == steps_view(old(out)@).push(done(success, message@)),
{
    let ghost before = steps_view(out@);
    out.push(LinkStep::Done(LinkRuleResult { success, message }));
    assert(steps_view(out@) =~= before.push(done(success, message@)));
}

fn push_pair_steps(data: &LinkData, lt: LinkType, s: &NodeInfo, d: &NodeInfo, out: &mut Vec<LinkStep>)
    ensures
        steps_view(final(out)@) == steps_view(old(out)@) + pair_steps(data@, lt, s@, d@),
{
    let outs = sort_ports_by_id(data.get_output_ports(s.id));
    let ins = sort_ports_by_id(data.get_input_ports(d.id));
    let ghost ov = port_refs_view(outs@);
    let ghost iv = port_refs_view(ins@);
    assert(ov == sorted_ports(data@.ports, s@.id, PortDirection::Output));
    assert(iv == sorted_ports(data@.ports, d@.id, PortDirection::Input));
    let ghost base = steps_view(out@);
    let n: usize = match lt {
        LinkType::Link => {
            if outs.len() != ins.len() {
                let names = arrow_string(s.display_name().as_str(), d.display_name().as_str());
                let mut m = message("Port count mismatch for ", names.as_str());
                push_str_chars(&mut m, ": ");
                push_decimal(&mut m, outs.len() as u64);
                push_str_chars(&mut m, " output ports vs ");
                push_decimal(&mut m, ins.len() as u64);
                push_str_chars(&mut m, " input ports");
                assert(m@ =~= mismatch_message(s@, d@, ov.len(), iv.len()));
                push_done(out, false, m);
                assert(steps_view(out@) =~= base + pair_steps(data@, lt, s@, d@));
                return ;
            }
            if outs.len() == 0 {
                let names = arrow_string(s.display_name().as_str(), d.display_name().as_str());
                let m = message("No ports found to link ", names.as_str());
                push_done(out, false, m);
                assert(steps_view(out@) =~= base + pair_steps(data@, lt, s@, d@));
                return ;
            }
            outs.len()
        },
        LinkType::Unlink => if outs.len() <= ins.len() {
            outs.len()
        } else {
            ins.len()
        },
    };
    assert(pair_steps(data@, lt, s@, d@) == zip_steps(data@.links, lt, ov, iv, n as nat));
    let mut k: usize = 0;
    while k < n
        invariant
            k <= n,
            n <= outs.len(),
            n <= ins.len(),
            ov == port_refs_view(outs@),
            iv == port_refs_view(ins@),
            steps_view(out@) == base + zip_steps(data@.links, lt, ov, iv, k as nat),
        decreases n - k,
    {
        let o = outs[k].full_name.as_str();
        let i = ins[k].full_name.as_str();
        assert(o@ == ov[k as int].full_name);
        assert(i@ == iv[k as int].full_name);
        let ghost prev = steps_view(out@);
        match lt {
            LinkType::Link => {
                if data.link_exists(o, i) {
                    let m = message("Link already exists: ", arrow_string(o, i).as_str());
                    push_done(out, true, m);
                } else {
                    out.push(LinkStep::Create { output: o.to_owned(), input: i.to_owned() });
                    assert(steps_view(out@) =~= prev.push(StepModel::Create { output: o@, input: i@ }));
                }
            },
            LinkType::Unlink => {
                match data.find_link_id(o, i) {
                    Some(id) => {
                        out.push(LinkStep::Remove { link_id: id, output: o.to_owned(), input: i.to_owned() });
                        assert(steps_view(out@) =~= prev.push(
                            StepModel::Remove { link_id: id, output: o@, input: i@ },
                        ));
                    },
                    None => {
                        let m = message("Link does not exist: ", arrow_string(o, i).as_str());
                        push_done(out, true, m);
                    },
                }
            },
        }
        assert(steps_view(out@) =~= base + zip_steps(data@.links, lt, ov, iv, (k + 1) as nat));
        k = k + 1;
    }
}

/// Apply a link rule to the listed state: an error where no node matches the
/// rule's source or none matches its destination; else the steps for every
/// matching source node with every matching destination node, in listing
/// order. A step is a result known already, or a `pw-link` call whose outcome
/// [`step_result`] turns into the result.
pub fn apply_link_rule(data: &LinkData, rule: &LinkRule) -> (r: Result<Vec<LinkStep>, String>)
    ensures
        match (r, rule_plan(data@, rule@)) {
            (Ok(steps), Ok(plan)) => steps_view(steps@) == plan,
            (Err(e), Err(m)) => e@ == m,
            _ => false,
        },
{
    let sources = data.find_matching_nodes(&rule.source);
    if sources.len() == 0 {
        return Err("No source nodes found matching criteria".to_owned());
    }
    let dests = data.find_matching_nodes(&rule.destination);
    if dests.len() == 0 {
        return Err("No destination nodes found matching criteria".to_owned());
    }
    let ghost sv = node_refs_view(sources@);
    let ghost dv = node_refs_view(dests@);
    let mut out: Vec<LinkStep> = Vec::new();
    let mut a: usize = 0;
    while a < sources.len()
        invariant
            a <= sources.len(),
            sv == node_refs_view(sources@),
            dv == node_refs_view(dests@),
            steps_view(out@) == source_steps(data@, rule@.link_type, sv.subrange(0, a as int), dv),
        decreases sources.len() - a,
    {
        let ghost base = steps_view(out@);
        let mut b: usize = 0;
        while b < dests.len()
            invariant
                a < sources.len(),
                b <= dests.len(),
                sv == node_refs_view(sources@),
                dv == node_refs_view(dests@),
                steps_view(out@) == base + dest_steps(data@, rule@.link_type, sv[a as int], dv.subrange(0, b as int)),
            decreases dests.len() - b,
        {
            let ghost prev = steps_view(out@);
            assert(sv[a as int] == sources@[a as int]@);
            assert(dv[b as int] == dests@[b as int]@);
            push_pair_steps(data, rule.link_type, sources[a], dests[b], &mut out);
            assert(dv.subrange(0, b + 1).drop_last() =~= dv.subrange(0, b as int));
            assert(steps_view(out@) =~= base + dest_steps(data@, rule@.link_type, sv[a as int], dv.subrange(0, b + 1)));
            b = b + 1;
        }
        assert(dv.subrange(0, dv.len() as int) =~= dv);
        assert(sv.subrange(0, a + 1).drop_last() =~= sv.subrange(0, a as int));
        assert(steps_view(out@) =~= source_steps(data@, rule@.link_type, sv.subrange(0, a + 1), dv));
        a = a + 1;
    }
    assert(sv.subrange(0, sv.len() as int) =~= sv);
    Ok(out)
}

/// Ports in nondecreasing order of id.
pub open spec fn sorted_by_id(ps: Seq<PortInfoModel>) -> bool {
    forall|i: int, j: int| 0 <= i <= j < ps.len() ==> (#[trigger] ps[i]).id <= (#[trigger] ps[j]).id
}

proof fn lemma_insert_by_id(s: Seq<PortInfoModel>, p: PortInfoModel)
    requires
        sorted_by_id(s),
    ensures
        sorted_by_id(insert_by_id(s, p)),
        insert_by_id(s, p).to_multiset() == s.to_multiset().insert(p),
        forall|i: int|
            0 <= i < insert_by_id(s, p).len() ==> (#[trigger] insert_by_id(s, p)[i]) == p
                || s.contains(insert_by_id(s, p)[i]),
    decreases s.len(),
{
    broadcast use vstd::seq_lib::group_to_multiset_ensures;

    let r = insert_by_id(s, p);
    if s.len() == 0 || s.last().id <= p.id {
        assert forall|i: int| 0 <= i < r.len() implies (#[trigger] r[i]) == p || s.contains(r[i]) by {
            if i < s.len() {
                assert(r[i] == s[i]);
            }
        }
    } else {
        let t = s.drop_last();
        let l = s.last();
        let u = insert_by_id(t, p);
        assert(s == t.push(l));
        assert(sorted_by_id(t));
        lemma_insert_by_id(t, p);
        assert(r == u.push(l));
        assert forall|i: int| 0 <= i < r.len() implies (#[trigger] r[i]) == p || s.contains(r[i]) by {
            if i < u.len() {
                assert(r[i] == u[i]);
                if u[i] != p {
                    let k = choose|k: int| 0 <= k < t.len() && t[k] == u[i];
                    assert(s[k] == u[i]);
                }
            } else {
                assert(s[s.len() - 1] == r[i]);
            }
        }
        assert forall|i: int, j: int| 0 <= i <= j < r.len() implies (#[trigger] r[i]).id <= (#[trigger] r[j]).id by {
            if j < u.len() {
                assert(r[i] == u[i] && r[j] == u[j]);
            } else if i < u.len() {
                assert(r[i] == u[i]);
                if u[i] != p {
                    let k = choose|k: int| 0 <= k < t.len() && t[k] == u[i];
                    assert(s[k] == u[i]);
                    assert(s[k].id <= s[s.len() - 1].id);
                }
            }
        }
        assert(r.to_multiset() =~= s.to_multiset().insert(p));
    }
}

/// Sorting ports by id gives the same ports, in nondecreasing order of id.
pub proof fn lemma_sort_by_id(ps: Seq<PortInfoModel>)
    ensures
        sorted_by_id(sort_by_id(ps)),
        sort_by_id(ps).to_multiset() == ps.to_multiset(),
    decreases ps.len(),
{
    broadcast use vstd::seq_lib::group_to_multiset_ensures;

    if ps.len() > 0 {
        lemma_sort_by_id(ps.drop_last());
        lemma_insert_by_id(sort_by_id(ps.drop_last()), ps.last());
        assert(ps == ps.drop_last().push(ps.last()));
    }
}

/// A step that fits the links listed: it creates only a link that is not
/// there, and removes only a link that is, by its id and its port names.
pub open spec fn step_fits(links: Seq<LinkModel>, st: StepModel) -> bool {
    match st {
        StepModel::Done(_) => true,
        StepModel::Create { output, input } => !has_link_named(links, output, input),
        StepModel::Remove { link_id, output, input } => exists|j: int|
            0 <= j < links.len() && (#[trigger] links[j]).id == link_id && links[j].output_port_name
                == output && links[j].input_port_name == input,
    }
}

pub open spec fn all_fit(links: Seq<LinkModel>, steps: Seq<StepModel>) -> bool {
    forall|k: int| 0 <= k < steps.len() ==> step_fits(links, #[trigger] steps[k])
}

proof fn lemma_all_fit_add(links: Seq<LinkModel>, a: Seq<StepModel>, b: Seq<StepModel>)
    requires
        all_fit(links, a),
        all_fit(links, b),
    ensures
        all_fit(links, a + b),
{
    assert forall|k: int| 0 <= k < (a + b).len() implies step_fits(links, #[trigger] (a + b)[k]) by {
        if k < a.len() {
            assert((a + b)[k] == a[k]);
        } else {
            assert((a + b)[k] == b[k - a.len()]);
        }
    }
}

proof fn lemma_zip_steps_fit(
    links: Seq<LinkModel>,
    lt: LinkType,
    outs: Seq<PortInfoModel>,
    ins: Seq<PortInfoModel>,
    n: nat,
)
    ensures
        all_fit(links, zip_steps(links, lt, outs, ins, n)),
    decreases n,
{
    if n > 0 {
        let k = n - 1;
        lemma_zip_steps_fit(links, lt, outs, ins, k as nat);
        let st = match lt {
            LinkType::Link => link_step(links, outs[k].full_name, ins[k].full_name),
            LinkType::Unlink => unlink_step(links, outs[k].full_name, ins[k].full_name),
        };
        if lt == LinkType::Unlink {
            let j = link_index(links, outs[k].full_name, ins[k].full_name);
            if j < links.len() {
                crate::pwlink::lemma_link_index_found(links, outs[k].full_name, ins[k].full_name);
                assert(links[j].id == links[j].id);
            }
        }
        assert(step_fits(links, st));
        lemma_all_fit_add(links, zip_steps(links, lt, outs, ins, k as nat), seq![st]);
        assert(zip_steps(links, lt, outs, ins, n) == zip_steps(links, lt, outs, ins, k as nat) + seq![st]);
    }
}

proof fn lemma_dest_steps_fit(data: DataModel, lt: LinkType, s: NodeModel, dests: Seq<NodeModel>)
    ensures
        all_fit(data.links, dest_steps(data, lt, s, dests)),
    decreases dests.len(),
{
    if dests.len() > 0 {
        lemma_dest_steps_fit(data, lt, s, dests.drop_last());
        let d = dests.last();
        let outs = sorted_ports(data.ports, s.id, PortDirection::Output);
        let ins = sorted_ports(data.ports, d.id, PortDirection::Input);
        lemma_zip_steps_fit(data.links, lt, outs, ins, outs.len());
        lemma_zip_steps_fit(data.links, lt, outs, ins, if outs.len() <= ins.len() { outs.len() } else { ins.len() });
        lemma_all_fit_add(data.links, dest_steps(data, lt, s, dests.drop_last()), pair_steps(data, lt, s, d));
    }
}

proof fn lemma_source_steps_fit(data: DataModel, lt: LinkType, srcs: Seq<NodeModel>, dests: Seq<NodeModel>)
    ensures
        all_fit(data.links, source_steps(data, lt, srcs, dests)),
    decreases srcs.len(),
{
    if srcs.len() > 0 {
        lemma_source_steps_fit(data, lt, srcs.drop_last(), dests);
        lemma_dest_steps_fit(data, lt, srcs.last(), dests);
        lemma_all_fit_add(data.links, source_steps(data, lt, srcs.drop_last(), dests), dest_steps(data, lt, srcs.last(), dests));
    }
}

/// Applying a rule never asks to create a link that is already there, and asks
/// to remove only links that are there: each `Remove` names, by id and by port
/// names, a link of the listing. So a rule applied again to the state it made
/// creates nothing anew.
pub proof fn lemma_rule_plan_fits_links(data: DataModel, rule: RuleModel)
    ensures
        rule_plan(data, rule) matches Ok(steps) ==> all_fit(data.links, steps),
{
    let sources = data.nodes.filter(matched_by(rule.source));
    let dests = data.nodes.filter(matched_by(rule.destination));
    lemma_source_steps_fit(data, rule.link_type, sources, dests);
}

} // verus!
