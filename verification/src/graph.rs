//! A DOT graph of the audio topology: audio nodes, filter chains combined
//! into one node each, the links between nodes and the clients behind them.
use vstd::prelude::*;
use crate::pwcli::{ObjectModel, PwObject, str_eq};
use crate::speakereq::{lower, lower_text};
use crate::text::{chars_of, contains_chars, contains_seq, decimal, parse_u32_spec, push_decimal, push_str_chars};

verus! {

/// How a node's media class classifies it.
#[derive(Debug, Clone, Copy, PartialEq, Eq, Structural)]
pub enum NodeTypeClassification {
    Audio,
    Midi,
    Video,
    Link,
    Port,
    Client,
    Driver,
    Other,
    Unknown,
}

/// A listed object, with the classification of its media class and whether
/// it is a client internal to PipeWire or WirePlumber.
#[derive(Debug, Clone)]
pub struct GraphObject {
    pub object: PwObject,
    pub class: NodeTypeClassification,
    pub internal_client: bool,
}

/// Model of a [`GraphObject`].
pub struct GraphModel {
    pub object: ObjectModel,
    pub class: NodeTypeClassification,
    pub internal_client: bool,
}

impl View for GraphObject {
    type V = GraphModel;

    open spec fn view(&self) -> GraphModel {
        GraphModel { object: self.object@, class: self.class, internal_client: self.internal_client }
    }
}

pub open spec fn items_view(items: Seq<GraphObject>) -> Seq<GraphModel> {
    items.map_values(|g: GraphObject| g@)
}

/// What a node's name (in lower case) tells of it: not audio for MIDI and
/// driver nodes, audio for the names of known audio nodes, nothing otherwise.
pub open spec fn audio_name_hint(l: Seq<char>) -> Option<bool> {
    if contains_seq(l, "midi"@) || contains_seq(l, "driver"@) {
        Some(false)
    } else if contains_seq(l, "alsa"@) || contains_seq(l, "speakereq"@) || contains_seq(l, "riaa"@)
        || contains_seq(l, "output"@) || contains_seq(l, "input"@) || contains_seq(l, "sink"@)
        || contains_seq(l, "source"@) {
        Some(true)
    } else {
        None
    }
}

/// Whether an object is an audio node: by its classification where that says
/// anything, else by its name, else where it is a node or a device.
pub open spec fn is_audio(o: ObjectModel, class: NodeTypeClassification) -> bool {
    match class {
        NodeTypeClassification::Audio => true,
        NodeTypeClassification::Unknown => {
            let fallback = o.object_type == "Node"@ || o.object_type == "Device"@;
            match o.prop("node.name"@) {
                Some(n) => match audio_name_hint(lower_text(n)) {
                    Some(b) => b,
                    None => fallback,
                },
                None => fallback,
            }
        },
        _ => false,
    }
}

fn contains_str(hay: &str, needle: &str) -> (b: bool)
    ensures
        b == contains_seq(hay@, needle@),
{
    let h = chars_of(hay);
    let n = chars_of(needle);
    contains_chars(&h, &n)
}

/// Check if a node is an audio node (not MIDI, video, or link): by the
/// classification of its media class, and for an unknown class by its name.
pub fn is_audio_node(obj: &PwObject, class: NodeTypeClassification) -> (r: bool)
    ensures
        r == is_audio(obj@, class),
{
    match class {
        NodeTypeClassification::Audio => true,
        NodeTypeClassification::Unknown => {
            if let Some(name) = obj.get("node.name") {
                let l = lower(name);
                let l = l.as_str();
                if contains_str(l, "midi") {
                    return false;
                }
                if contains_str(l, "driver") {
                    return false;
                }
                if contains_str(l, "alsa") || contains_str(l, "speakereq") || contains_str(l, "riaa")
                    || contains_str(l, "output") || contains_str(l, "input") || contains_str(l, "sink")
                    || contains_str(l, "source") {
                    return true;
                }
            }
            str_eq(obj.object_type.as_str(), "Node") || str_eq(obj.object_type.as_str(), "Device")
        },
        _ => false,
    }
}

/// How a media class classifies an object: MIDI, video or audio by the word
/// its lower case holds (in that order), other for any other class, unknown
/// where there is none.
pub open spec fn media_class_kind(media_class: Option<Seq<char>>) -> NodeTypeClassification {
    match media_class {
        None => NodeTypeClassification::Unknown,
        Some(c) => {
            let l = lower_text(c);
            if contains_seq(l, "midi"@) {
                NodeTypeClassification::Midi
            } else if contains_seq(l, "video"@) {
                NodeTypeClassification::Video
            } else if contains_seq(l, "audio"@) {
                NodeTypeClassification::Audio
            } else {
                NodeTypeClassification::Other
            }
        },
    }
}

/// Classify an object by its media class.
pub fn classify_media_class(media_class: Option<&str>) -> (r: NodeTypeClassification)
    ensures
        r == media_class_kind(crate::pwcli::opt_str_view(media_class)),
{
    match media_class {
        None => NodeTypeClassification::Unknown,
        Some(c) => {
            let l = lower(c);
            let l = l.as_str();
            if contains_str(l, "midi") {
                NodeTypeClassification::Midi
            } else if contains_str(l, "video") {
                NodeTypeClassification::Video
            } else if contains_str(l, "audio") {
                NodeTypeClassification::Audio
            } else {
                NodeTypeClassification::Other
            }
        },
    }
}

/// A client is PipeWire's or WirePlumber's own where its application name
/// (else its name, else the empty text), in lower case, is `pipewire` or
/// holds `wireplumber`.
pub open spec fn internal_client(o: ObjectModel) -> bool {
    let name = match o.prop("application.name"@) {
        Some(v) => v,
        None => match o.name() {
            Some(n) => n,
            None => seq![],
        },
    };
    let l = lower_text(name);
    l == "pipewire"@ || contains_seq(l, "wireplumber"@)
}

/// Whether a client is one of PipeWire's or WirePlumber's own.
pub fn is_internal_client(obj: &PwObject) -> (r: bool)
    ensures
        r == internal_client(obj@),
{
    let name = match obj.get("application.name") {
        Some(v) => v,
        None => match obj.name() {
            Some(n) => n,
            None => "",
        },
    };
    proof {
        reveal_strlit("");
        let nm = match obj@.prop("application.name"@) {
            Some(v) => v,
            None => match obj@.name() {
                Some(n) => n,
                None => seq![],
            },
        };
        assert(name@ =~= nm);
    }
    let l = lower(name);
    str_eq(l.as_str(), "pipewire") || contains_str(l.as_str(), "wireplumber")
}

/// The graph's view of a listed object: the classification of its media
/// class, and for a client whether it is an internal one.
pub open spec fn graph_model_of(o: ObjectModel) -> GraphModel {
    GraphModel {
        object: o,
        class: media_class_kind(o.prop("media.class"@)),
        internal_client: o.object_type == "Client"@ && internal_client(o),
    }
}

/// The listed objects as the graph takes them, in order.
pub fn graph_objects(objects: Vec<PwObject>) -> (r: Vec<GraphObject>)
    ensures
        items_view(r@) == crate::pwcli::objects_view(objects@).map_values(|o: ObjectModel| graph_model_of(o)),
{
    let ghost ov = crate::pwcli::objects_view(objects@);
    let mut out: Vec<GraphObject> = Vec::new();
    let mut i: usize = 0;
    while i < objects.len()
        invariant
            i <= objects.len(),
            ov == crate::pwcli::objects_view(objects@),
            items_view(out@) == ov.take(i as int).map_values(|o: ObjectModel| graph_model_of(o)),
        decreases objects.len() - i,
    {
        let object = objects[i].clone_object();
        let class = classify_media_class(object.media_class());
        let internal_client = str_eq(object.object_type.as_str(), "Client") && is_internal_client(&object);
        let ghost before = items_view(out@);
        assert(object@ == ov[i as int]);
        let g = GraphObject { object, class, internal_client };
        assert(g@ == graph_model_of(ov[i as int]));
        out.push(g);
        assert(items_view(out@) =~= before.push(graph_model_of(ov[i as int])));
        assert(ov.take(i + 1) =~= ov.take(i as int).push(ov[i as int]));
        assert(items_view(out@) =~= ov.take(i + 1).map_values(|o: ObjectModel| graph_model_of(o)));
        i = i + 1;
    }
    assert(ov.take(objects.len() as int) =~= ov);
    out
}

/// `s` with each `"` written as `\\"`.
pub open spec fn escape_quotes(s: Seq<char>) -> Seq<char>
    decreases s.len(),
{
    if s.len() == 0 {
        seq![]
    } else {
        escape_quotes(s.drop_last()) + if s.last() == '"' {
            seq!['\\', '"']
        } else {
            seq![s.last()]
        }
    }
}

/// Escape the double quotes of a label.
pub fn escape_label(s: &str) -> (r: String)
    ensures
        r@ == escape_quotes(s@),
{
    let v = chars_of(s);
    let mut r = String::new();
    let mut i: usize = 0;
    while i < v.len()
        invariant
            i <= v.len(),
            v@ == s@,
            r@ == escape_quotes(v@.take(i as int)),
        decreases v.len() - i,
    {
        assert(v@.take(i + 1).drop_last() == v@.take(i as int));
        if v[i] == '"' {
            r.push('\\');
            r.push('"');
        } else {
            r.push(v[i]);
        }
        i = i + 1;
    }
    assert(v@.take(v.len() as int) == v@);
    r
}

/// Where a node goes in the ranking.
#[derive(Debug, Clone, Copy, PartialEq, Eq, Structural)]
pub enum NodeCategory {
    Source,
    Sink,
    Filter,
}

/// A node's fill colour and category, by its media class (in lower case).
pub open spec fn node_style(media_class: Option<Seq<char>>) -> (Seq<char>, NodeCategory) {
    match media_class {
        None => ("white"@, NodeCategory::Filter),
        Some(c) => {
            let l = lower_text(c);
            if contains_seq(l, "sink"@) || contains_seq(l, "playback"@) {
                ("lightblue"@, NodeCategory::Sink)
            } else if contains_seq(l, "source"@) || contains_seq(l, "capture"@) {
                ("lightgreen"@, NodeCategory::Source)
            } else if contains_seq(l, "filter"@) {
                ("lightyellow"@, NodeCategory::Filter)
            } else if contains_seq(l, "stream/output"@) {
                ("paleturquoise"@, NodeCategory::Sink)
            } else if contains_seq(l, "stream/input"@) {
                ("palegreen"@, NodeCategory::Source)
            } else {
                ("white"@, NodeCategory::Filter)
            }
        },
    }
}

fn style_of(media_class: Option<&str>) -> (r: (&'static str, NodeCategory))
    ensures
        (r.0@, r.1) == node_style(crate::pwcli::opt_str_view(media_class)),
{
    match media_class {
        None => ("white", NodeCategory::Filter),
        Some(c) => {
            let l = lower(c);
            let l = l.as_str();
            if contains_str(l, "sink") || contains_str(l, "playback") {
                ("lightblue", NodeCategory::Sink)
            } else if contains_str(l, "source") || contains_str(l, "capture") {
                ("lightgreen", NodeCategory::Source)
            } else if contains_str(l, "filter") {
                ("lightyellow", NodeCategory::Filter)
            } else if contains_str(l, "stream/output") {
                ("paleturquoise", NodeCategory::Sink)
            } else if contains_str(l, "stream/input") {
                ("palegreen", NodeCategory::Source)
            } else {
                ("white", NodeCategory::Filter)
            }
        },
    }
}

/// A property read as a `u32`.
pub open spec fn prop_u32(o: ObjectModel, key: Seq<char>) -> Option<u32> {
    match o.prop(key) {
        Some(v) => parse_u32_spec(v),
        None => None,
    }
}

fn get_u32(o: &PwObject, key: &str) -> (r: Option<u32>)
    ensures
        r == prop_u32(o@, key@),
{
    match o.get(key) {
        Some(v) => crate::link_manager_cli::parse_u32_str(v),
        None => None,
    }
}

pub open spec fn refs_view(objs: Seq<&PwObject>) -> Seq<ObjectModel> {
    objs.map_values(|o: &PwObject| o@)
}

/// A filter chain: its input node and its output node, shown as one node.
#[derive(Debug, Clone)]
pub struct FilterChain {
    pub name: String,
    pub input_id: u32,
    pub output_id: u32,
}

/// Model of a [`FilterChain`].
pub struct ChainModel {
    pub name: Seq<char>,
    pub input_id: u32,
    pub output_id: u32,
}

impl View for FilterChain {
    type V = ChainModel;

    open spec fn view(&self) -> ChainModel {
        ChainModel { name: self.name@, input_id: self.input_id, output_id: self.output_id }
    }
}

pub open spec fn chains_view(cs: Seq<FilterChain>) -> Seq<ChainModel> {
    cs.map_values(|c: FilterChain| c@)
}

/// The last of `nodes` named `name`.
pub open spec fn last_named(nodes: Seq<ObjectModel>, name: Seq<char>) -> Option<ObjectModel>
    decreases nodes.len(),
{
    if nodes.len() == 0 {
        None
    } else if nodes.last().prop("node.name"@) == Some(name) {
        Some(nodes.last())
    } else {
        last_named(nodes.drop_last(), name)
    }
}

pub open spec fn or_empty(o: Option<Seq<char>>) -> Seq<char> {
    match o {
        Some(v) => v,
        None => seq![],
    }
}

/// `s` ends with `suffix`.
pub open spec fn ends_with(s: Seq<char>, suffix: Seq<char>) -> bool {
    suffix.len() <= s.len() && s.skip(s.len() - suffix.len()) == suffix
}

/// Chains found so far, and the node ids they use.
pub struct ChainState {
    pub chains: Seq<ChainModel>,
    pub used: Seq<u32>,
}

pub open spec fn with_chain(st: ChainState, name: Seq<char>, input_id: u32, output_id: u32) -> ChainState {
    ChainState {
        chains: st.chains.push(ChainModel { name, input_id, output_id }),
        used: st.used.push(input_id).push(output_id),
    }
}

/// First pattern, on node `n`: an `Audio/Sink` or `Audio/Source/Virtual`
/// node `name` whose output node `name.output` is a `Stream/Output/Audio`.
pub open spec fn sink_chain_step(nodes: Seq<ObjectModel>, st: ChainState, n: ObjectModel) -> ChainState {
    match (n.prop("media.class"@), n.prop("node.name"@)) {
        (Some(mc), Some(name)) => if mc == "Audio/Sink"@ || mc == "Audio/Source/Virtual"@ {
            match last_named(nodes, name + ".output"@) {
                Some(o) => if or_empty(o.prop("media.class"@)) == "Stream/Output/Audio"@ && !st.used.contains(n.id) {
                    with_chain(st, name, n.id, o.id)
                } else {
                    st
                },
                None => st,
            }
        } else {
            st
        },
        _ => st,
    }
}

/// Second pattern, on node `n`: a node `base_input.proc` with a node
/// `base_output.proc`, neither of them used yet.
pub open spec fn proc_chain_step(nodes: Seq<ObjectModel>, st: ChainState, n: ObjectModel) -> ChainState {
    match n.prop("node.name"@) {
        Some(name) => if ends_with(name, "_input.proc"@) && !st.used.contains(n.id) {
            let base = name.take(name.len() - "_input.proc"@.len());
            match last_named(nodes, base + "_output.proc"@) {
                Some(o) => if !st.used.contains(o.id) {
                    with_chain(st, base, n.id, o.id)
                } else {
                    st
                },
                None => st,
            }
        } else {
            st
        },
        None => st,
    }
}

/// The first pattern applied to the first `k` nodes in turn.
pub open spec fn sink_chains(nodes: Seq<ObjectModel>, k: nat) -> ChainState
    decreases k,
{
    if k == 0 {
        ChainState { chains: seq![], used: seq![] }
    } else {
        sink_chain_step(nodes, sink_chains(nodes, (k - 1) as nat), nodes[k - 1])
    }
}

/// The second pattern applied to the first `k` nodes in turn, after `st`.
pub open spec fn proc_chains(nodes: Seq<ObjectModel>, st: ChainState, k: nat) -> ChainState
    decreases k,
{
    if k == 0 {
        st
    } else {
        proc_chain_step(nodes, proc_chains(nodes, st, (k - 1) as nat), nodes[k - 1])
    }
}

/// The filter chains among `nodes`: the first pattern over all nodes, then
/// the second; a node belongs to one chain at most as an input.
pub open spec fn filter_chains(nodes: Seq<ObjectModel>) -> Seq<ChainModel> {
    proc_chains(nodes, sink_chains(nodes, nodes.len()), nodes.len()).chains
}

fn find_last_named<'a>(nodes: &[&'a PwObject], name: &str) -> (r: Option<&'a PwObject>)
    ensures
        match r {
            Some(o) => last_named(refs_view(nodes@), name@) == Some(o@),
            None => last_named(refs_view(nodes@), name@) is None,
        },
{
    let ghost nv = refs_view(nodes@);
    let mut j: usize = nodes.len();
    assert(nv.take(j as int) =~= nv);
    while j > 0
        invariant
            j <= nodes.len(),
            nv == refs_view(nodes@),
            last_named(nv, name@) == last_named(nv.take(j as int), name@),
        decreases j,
    {
        let ghost t = nv.take(j as int);
        assert(t.last() == nodes@[j - 1]@);
        assert(t.drop_last() =~= nv.take(j - 1));
        let hit = match nodes[j - 1].get("node.name") {
            Some(n) => str_eq(n, name),
            None => false,
        };
        if hit {
            return Some(nodes[j - 1]);
        }
        j = j - 1;
    }
    None
}

fn contains_id(v: &Vec<u32>, x: u32) -> (b: bool)
    ensures
        b == v@.contains(x),
{
    let mut i: usize = 0;
    while i < v.len()
        invariant
            i <= v.len(),
            forall|k: int| 0 <= k < i ==> v@[k] != x,
        decreases v.len() - i,
    {
        if v[i] == x {
            return true;
        }
        i = i + 1;
    }
    false
}

pub open spec fn state_of(chains: Seq<FilterChain>, used: Seq<u32>) -> ChainState {
    ChainState { chains: chains_view(chains), used }
}

fn push_chain(chains: &mut Vec<FilterChain>, used: &mut Vec<u32>, name: String, input_id: u32, output_id: u32)
    ensures
        state_of(final(chains)@, final(used)@) == with_chain(state_of(old(chains)@, old(used)@), name@, input_id, output_id),
{
    let ghost c0 = chains_view(chains@);
    chains.push(FilterChain { name, input_id, output_id });
    used.push(input_id);
    used.push(output_id);
    assert(chains_view(chains@) =~= c0.push(ChainModel { name: name@, input_id, output_id }));
}

/// Detect filter chains: an input node (`Audio/Sink` or `Audio/Source/Virtual`)
/// with an output node (`Stream/Output/Audio`) named after it plus `.output`;
/// then pairs `base_input.proc` and `base_output.proc`.
pub fn detect_filter_chains(nodes: &[&PwObject]) -> (r: Vec<FilterChain>)
    ensures
        chains_view(r@) == filter_chains(refs_view(nodes@)),
{
    let ghost nv = refs_view(nodes@);
    let mut chains: Vec<FilterChain> = Vec::new();
    let mut used: Vec<u32> = Vec::new();
    let mut i: usize = 0;
    assert(chains_view(chains@) =~= seq![]);
    while i < nodes.len()
        invariant
            i <= nodes.len(),
            nv == refs_view(nodes@),
            state_of(chains@, used@) == sink_chains(nv, i as nat),
        decreases nodes.len() - i,
    {
        let n = nodes[i];
        assert(nv[i as int] == n@);
        let ghost st0 = state_of(chains@, used@);
        let mc = n.get("media.class");
        let nm = n.get("node.name");
        match (mc, nm) {
            (Some(mc), Some(name)) => {
                if str_eq(mc, "Audio/Sink") || str_eq(mc, "Audio/Source/Virtual") {
                    let mut out_name = String::new();
                    push_str_chars(&mut out_name, name);
                    push_str_chars(&mut out_name, ".output");
                    assert(out_name@ =~= name@ + ".output"@);
                    match find_last_named(nodes, out_name.as_str()) {
                        Some(o) => {
                            let oc = match o.get("media.class") {
                                Some(c) => c,
                                None => "",
                            };
                            proof {
                                reveal_strlit("");
                            }
                            assert(oc@ == or_empty(o@.prop("media.class"@)));
                            assert(last_named(nv, name@ + ".output"@) == Some(o@));
                            if str_eq(oc, "Stream/Output/Audio") && !contains_id(&used, n.id) {
                                push_chain(&mut chains, &mut used, name.to_owned(), n.id, o.id);
                                assert(state_of(chains@, used@) == sink_chain_step(nv, st0, nv[i as int]));
                            } else {
                                assert(state_of(chains@, used@) == sink_chain_step(nv, st0, nv[i as int]));
                            }
                        },
                        None => {},
                    }
                }
            },
            _ => {},
        }
        assert(state_of(chains@, used@) == sink_chain_step(nv, st0, nv[i as int]));
        i = i + 1;
    }
    let ghost mid = sink_chains(nv, nv.len());
    let mut i: usize = 0;
    let suffix = chars_of("_input.proc");
    proof {
        reveal_strlit("_input.proc");
    }
    while i < nodes.len()
        invariant
            i <= nodes.len(),
            nv == refs_view(nodes@),
            suffix@ == "_input.proc"@,
            state_of(chains@, used@) == proc_chains(nv, mid, i as nat),
        decreases nodes.len() - i,
    {
        let n = nodes[i];
        assert(nv[i as int] == n@);
        match n.get("node.name") {
            Some(name) => {
                let v = chars_of(name);
                let k = suffix.len();
                let is_input = v.len() >= k && crate::text::starts_with_at(&v, v.len() - k, v.len(), &suffix);
                proof {
                    if v.len() >= k {
                        assert(v@.subrange(v.len() - k, v.len() - k + k) =~= v@.skip(v.len() - k));
                    }
                }
                if is_input && !contains_id(&used, n.id) {
                    let base = crate::text::string_from_range(&v, 0, v.len() - k);
                    assert(base@ =~= name@.take(name@.len() - "_input.proc"@.len()));
                    let mut out_name = String::new();
                    push_str_chars(&mut out_name, base.as_str());
                    push_str_chars(&mut out_name, "_output.proc");
                    match find_last_named(nodes, out_name.as_str()) {
                        Some(o) => {
                            if !contains_id(&used, o.id) {
                                push_chain(&mut chains, &mut used, base, n.id, o.id);
                            }
                        },
                        None => {},
                    }
                }
            },
            None => {},
        }
        i = i + 1;
    }
    chains
}

/// The audio nodes: the objects of type `Node` that are audio nodes, in order.
pub open spec fn audio_nodes(items: Seq<GraphModel>) -> Seq<ObjectModel>
    decreases items.len(),
{
    if items.len() == 0 {
        seq![]
    } else {
        let rest = audio_nodes(items.drop_last());
        let g = items.last();
        if g.object.object_type == "Node"@ && is_audio(g.object, g.class) {
            rest.push(g.object)
        } else {
            rest
        }
    }
}

/// Whether one of `nodes` has id `id`.
pub open spec fn has_id(nodes: Seq<ObjectModel>, id: u32) -> bool {
    exists|j: int| 0 <= j < nodes.len() && (#[trigger] nodes[j]).id == id
}

/// The client of node `id`: the `client.id` of the last of `nodes` with that
/// id and a client id.
pub open spec fn node_client(nodes: Seq<ObjectModel>, id: u32) -> Option<u32>
    decreases nodes.len(),
{
    if nodes.len() == 0 {
        None
    } else if nodes.last().id == id && prop_u32(nodes.last(), "client.id"@) is Some {
        prop_u32(nodes.last(), "client.id"@)
    } else {
        node_client(nodes.drop_last(), id)
    }
}

/// The clients of the first `k` nodes, each once, in the order of the nodes.
pub open spec fn client_ids(nodes: Seq<ObjectModel>, k: nat) -> Seq<u32>
    decreases k,
{
    if k == 0 {
        seq![]
    } else {
        let acc = client_ids(nodes, (k - 1) as nat);
        match node_client(nodes, nodes[k - 1].id) {
            Some(c) => if acc.contains(c) {
                acc
            } else {
                acc.push(c)
            },
            None => acc,
        }
    }
}

/// The last client object with id `id`.
pub open spec fn client_of(items: Seq<GraphModel>, id: u32) -> Option<GraphModel>
    decreases items.len(),
{
    if items.len() == 0 {
        None
    } else if items.last().object.object_type == "Client"@ && items.last().object.id == id {
        Some(items.last())
    } else {
        client_of(items.drop_last(), id)
    }
}

/// The clients behind audio nodes that are not internal, in the order of `ids`.
pub open spec fn shown_clients(items: Seq<GraphModel>, ids: Seq<u32>) -> Seq<GraphModel>
    decreases ids.len(),
{
    if ids.len() == 0 {
        seq![]
    } else {
        let rest = shown_clients(items, ids.drop_last());
        match client_of(items, ids.last()) {
            Some(c) => if !c.internal_client {
                rest.push(c)
            } else {
                rest
            },
            None => rest,
        }
    }
}

pub open spec fn graph_refs_view(gs: Seq<&GraphObject>) -> Seq<GraphModel> {
    gs.map_values(|g: &GraphObject| g@)
}

fn collect_audio_nodes(items: &[GraphObject]) -> (r: Vec<&PwObject>)
    ensures
        refs_view(r@) == audio_nodes(items_view(items@)),
{
    let ghost iv = items_view(items@);
    let mut out: Vec<&PwObject> = Vec::new();
    let mut i: usize = 0;
    while i < items.len()
        invariant
            i <= items.len(),
            iv == items_view(items@),
            refs_view(out@) == audio_nodes(iv.take(i as int)),
        decreases items.len() - i,
    {
        assert(iv.take(i + 1).drop_last() =~= iv.take(i as int));
        assert(iv.take(i + 1).last() == items@[i as int]@);
        let g = &items[i];
        if str_eq(g.object.object_type.as_str(), "Node") && is_audio_node(&g.object, g.class) {
            let ghost before = refs_view(out@);
            out.push(&g.object);
            assert(refs_view(out@) =~= before.push(g.object@));
        }
        i = i + 1;
    }
    assert(iv.take(iv.len() as int) =~= iv);
    out
}

fn node_client_of(nodes: &[&PwObject], id: u32) -> (r: Option<u32>)
    ensures
        r == node_client(refs_view(nodes@), id),
{
    let ghost nv = refs_view(nodes@);
    let mut j: usize = nodes.len();
    assert(nv.take(j as int) =~= nv);
    while j > 0
        invariant
            j <= nodes.len(),
            nv == refs_view(nodes@),
            node_client(nv, id) == node_client(nv.take(j as int), id),
        decreases j,
    {
        let ghost t = nv.take(j as int);
        assert(t.last() == nodes@[j - 1]@);
        assert(t.drop_last() =~= nv.take(j - 1));
        if nodes[j - 1].id == id {
            let c = get_u32(nodes[j - 1], "client.id");
            if c.is_some() {
                return c;
            }
        }
        j = j - 1;
    }
    None
}

fn collect_client_ids(nodes: &[&PwObject]) -> (r: Vec<u32>)
    ensures
        r@ == client_ids(refs_view(nodes@), nodes@.len() as nat),
{
    let ghost nv = refs_view(nodes@);
    let mut acc: Vec<u32> = Vec::new();
    let mut k: usize = 0;
    while k < nodes.len()
        invariant
            k <= nodes.len(),
            nv == refs_view(nodes@),
            acc@ == client_ids(nv, k as nat),
        decreases nodes.len() - k,
    {
        assert(nv[k as int] == nodes@[k as int]@);
        match node_client_of(nodes, nodes[k].id) {
            Some(c) => {
                if !contains_id(&acc, c) {
                    acc.push(c);
                }
            },
            None => {},
        }
        k = k + 1;
    }
    acc
}

fn client_object<'a>(items: &'a [GraphObject], id: u32) -> (r: Option<&'a GraphObject>)
    ensures
        match r {
            Some(g) => client_of(items_view(items@), id) == Some(g@),
            None => client_of(items_view(items@), id) is None,
        },
{
    let ghost iv = items_view(items@);
    let mut j: usize = items.len();
    assert(iv.take(j as int) =~= iv);
    while j > 0
        invariant
            j <= items.len(),
            iv == items_view(items@),
            client_of(iv, id) == client_of(iv.take(j as int), id),
        decreases j,
    {
        let ghost t = iv.take(j as int);
        assert(t.last() == items@[j - 1]@);
        assert(t.drop_last() =~= iv.take(j - 1));
        if str_eq(items[j - 1].object.object_type.as_str(), "Client") && items[j - 1].object.id == id {
            return Some(&items[j - 1]);
        }
        j = j - 1;
    }
    None
}

fn collect_shown_clients<'a>(items: &'a [GraphObject], ids: &Vec<u32>) -> (r: Vec<&'a GraphObject>)
    ensures
        graph_refs_view(r@) == shown_clients(items_view(items@), ids@),
{
    let mut out: Vec<&GraphObject> = Vec::new();
    let mut k: usize = 0;
    while k < ids.len()
        invariant
            k <= ids.len(),
            graph_refs_view(out@) == shown_clients(items_view(items@), ids@.take(k as int)),
        decreases ids.len() - k,
    {
        assert(ids@.take(k + 1).drop_last() =~= ids@.take(k as int));
        assert(ids@.take(k + 1).last() == ids@[k as int]);
        match client_object(items, ids[k]) {
            Some(c) => {
                if !c.internal_client {
                    let ghost before = graph_refs_view(out@);
                    out.push(c);
                    assert(graph_refs_view(out@) =~= before.push(c@));
                }
            },
            None => {},
        }
        k = k + 1;
    }
    assert(ids@.take(ids@.len() as int) =~= ids@);
    out
}

/// The line of a client: an ellipse labelled with its name and id.
pub open spec fn client_line(c: GraphModel) -> Seq<char> {
    "        client_"@ + decimal(c.object.id as nat) + " [label=\""@ + escape_quotes(c.object.display_name())
        + "\\nClient ID: "@ + decimal(c.object.id as nat) + "\", fillcolor=lavender, shape=ellipse];\n"@
}

pub open spec fn client_lines(cs: Seq<GraphModel>) -> Seq<char>
    decreases cs.len(),
{
    if cs.len() == 0 {
        seq![]
    } else {
        client_lines(cs.drop_last()) + client_line(cs.last())
    }
}

/// The clients, where there are any.
pub open spec fn clients_section(cs: Seq<GraphModel>) -> Seq<char> {
    if cs.len() == 0 {
        seq![]
    } else {
        "        // Clients\n"@ + client_lines(cs) + "\n"@
    }
}

fn push_client_line(out: &mut String, c: &GraphObject)
    ensures
        final(out)@ == old(out)@ + client_line(c@),
{
    let ghost o = out@;
    push_str_chars(out, "        client_");
    push_decimal(out, c.object.id as u64);
    push_str_chars(out, " [label=\"");
    let name = escape_label(c.object.display_name().as_str());
    push_str_chars(out, name.as_str());
    push_str_chars(out, "\\nClient ID: ");
    push_decimal(out, c.object.id as u64);
    push_str_chars(out, "\", fillcolor=lavender, shape=ellipse];\n");
    assert(out@ =~= o + client_line(c@));
}

fn push_clients(out: &mut String, cs: &Vec<&GraphObject>)
    ensures
        final(out)@ == old(out)@ + clients_section(graph_refs_view(cs@)),
{
    let ghost cv = graph_refs_view(cs@);
    if cs.len() == 0 {
        assert(old(out)@ + clients_section(cv) =~= old(out)@);
        return ;
    }
    let ghost o = out@;
    push_str_chars(out, "        // Clients\n");
    let ghost base = out@;
    let mut k: usize = 0;
    while k < cs.len()
        invariant
            k <= cs.len(),
            cv == graph_refs_view(cs@),
            out@ == base + client_lines(cv.take(k as int)),
        decreases cs.len() - k,
    {
        assert(cv.take(k + 1).drop_last() =~= cv.take(k as int));
        assert(cv.take(k + 1).last() == cs@[k as int]@);
        push_client_line(out, cs[k]);
        assert(out@ =~= base + client_lines(cv.take(k + 1)));
        k = k + 1;
    }
    assert(cv.take(cv.len() as int) =~= cv);
    push_str_chars(out, "\n");
    assert(out@ =~= o + clients_section(cv));
}

/// The line of a filter chain: one node, labelled with its name and both ids.
pub open spec fn chain_line(c: ChainModel) -> Seq<char> {
    "        chain_"@ + decimal(c.input_id as nat) + " [label=\""@ + escape_quotes(c.name) + "\\nID: "@
        + decimal(c.input_id as nat) + "/"@ + decimal(c.output_id as nat)
        + "\", fillcolor=lightyellow, style=\"filled,bold\"];\n"@
}

pub open spec fn chain_lines(cs: Seq<ChainModel>) -> Seq<char>
    decreases cs.len(),
{
    if cs.len() == 0 {
        seq![]
    } else {
        chain_lines(cs.drop_last()) + chain_line(cs.last())
    }
}

/// The filter chains, where there are any.
pub open spec fn chains_section(cs: Seq<ChainModel>) -> Seq<char> {
    if cs.len() == 0 {
        seq![]
    } else {
        "        // Filter Chains (combined input+output)\n"@ + chain_lines(cs) + "\n"@
    }
}

fn push_chains(out: &mut String, cs: &Vec<FilterChain>)
    ensures
        final(out)@ == old(out)@ + chains_section(chains_view(cs@)),
{
    let ghost cv = chains_view(cs@);
    if cs.len() == 0 {
        assert(old(out)@ + chains_section(cv) =~= old(out)@);
        return ;
    }
    let ghost o = out@;
    push_str_chars(out, "        // Filter Chains (combined input+output)\n");
    let ghost base = out@;
    let mut k: usize = 0;
    while k < cs.len()
        invariant
            k <= cs.len(),
            cv == chains_view(cs@),
            out@ == base + chain_lines(cv.take(k as int)),
        decreases cs.len() - k,
    {
        assert(cv.take(k + 1).drop_last() =~= cv.take(k as int));
        assert(cv.take(k + 1).last() == cs@[k as int]@);
        let ghost o2 = out@;
        let c = &cs[k];
        push_str_chars(out, "        chain_");
        push_decimal(out, c.input_id as u64);
        push_str_chars(out, " [label=\"");
        let name = escape_label(c.name.as_str());
        push_str_chars(out, name.as_str());
        push_str_chars(out, "\\nID: ");
        push_decimal(out, c.input_id as u64);
        push_str_chars(out, "/");
        push_decimal(out, c.output_id as u64);
        push_str_chars(out, "\", fillcolor=lightyellow, style=\"filled,bold\"];\n");
        assert(out@ =~= o2 + chain_line(c@));
        assert(out@ =~= base + chain_lines(cv.take(k + 1)));
        k = k + 1;
    }
    assert(cv.take(cv.len() as int) =~= cv);
    push_str_chars(out, "\n");
    assert(out@ =~= o + chains_section(cv));
}

/// Whether node `id` belongs to one of the chains, as its input or its output.
pub open spec fn in_chain(cs: Seq<ChainModel>, id: u32) -> bool {
    exists|k: int| 0 <= k < cs.len() && ((#[trigger] cs[k]).input_id == id || cs[k].output_id == id)
}

fn in_any_chain(cs: &Vec<FilterChain>, id: u32) -> (b: bool)
    ensures
        b == in_chain(chains_view(cs@), id),
{
    let ghost cv = chains_view(cs@);
    let mut k: usize = 0;
    while k < cs.len()
        invariant
            k <= cs.len(),
            cv == chains_view(cs@),
            forall|j: int| 0 <= j < k ==> !((#[trigger] cv[j]).input_id == id || cv[j].output_id == id),
        decreases cs.len() - k,
    {
        assert(cv[k as int] == cs@[k as int]@);
        if cs[k].input_id == id || cs[k].output_id == id {
            return true;
        }
        k = k + 1;
    }
    false
}

/// The line of an audio node: labelled with its name and id, coloured by its
/// media class.
pub open spec fn node_line(n: ObjectModel) -> Seq<char> {
    "        node_"@ + decimal(n.id as nat) + " [label=\""@ + escape_quotes(n.display_name()) + "\\nID: "@
        + decimal(n.id as nat) + "\", fillcolor="@ + node_style(n.prop("media.class"@)).0 + "];\n"@
}

/// The lines of the audio nodes outside the chains.
pub open spec fn node_lines(nodes: Seq<ObjectModel>, cs: Seq<ChainModel>) -> Seq<char>
    decreases nodes.len(),
{
    if nodes.len() == 0 {
        seq![]
    } else {
        node_lines(nodes.drop_last(), cs) + if in_chain(cs, nodes.last().id) {
            seq![]
        } else {
            node_line(nodes.last())
        }
    }
}

/// The names of the sink nodes outside the chains, in order.
pub open spec fn sink_names(nodes: Seq<ObjectModel>, cs: Seq<ChainModel>) -> Seq<Seq<char>>
    decreases nodes.len(),
{
    if nodes.len() == 0 {
        seq![]
    } else {
        let n = nodes.last();
        let rest = sink_names(nodes.drop_last(), cs);
        if !in_chain(cs, n.id) && node_style(n.prop("media.class"@)).1 == NodeCategory::Sink {
            rest.push("node_"@ + decimal(n.id as nat))
        } else {
            rest
        }
    }
}

pub open spec fn nodes_section(nodes: Seq<ObjectModel>, cs: Seq<ChainModel>) -> Seq<char> {
    "        // Audio Nodes\n"@ + node_lines(nodes, cs) + "\n"@
}

pub open spec fn strings_view(ss: Seq<String>) -> Seq<Seq<char>> {
    ss.map_values(|s: String| s@)
}

fn push_nodes(out: &mut String, nodes: &Vec<&PwObject>, cs: &Vec<FilterChain>) -> (sinks: Vec<String>)
    ensures
        final(out)@ == old(out)@ + nodes_section(refs_view(nodes@), chains_view(cs@)),
        strings_view(sinks@) == sink_names(refs_view(nodes@), chains_view(cs@)),
{
    let ghost nv = refs_view(nodes@);
    let ghost cv = chains_view(cs@);
    let ghost o = out@;
    push_str_chars(out, "        // Audio Nodes\n");
    let ghost base = out@;
    let mut sinks: Vec<String> = Vec::new();
    let mut k: usize = 0;
    while k < nodes.len()
        invariant
            k <= nodes.len(),
            nv == refs_view(nodes@),
            cv == chains_view(cs@),
            out@ == base + node_lines(nv.take(k as int), cv),
            strings_view(sinks@) == sink_names(nv.take(k as int), cv),
        decreases nodes.len() - k,
    {
        assert(nv.take(k + 1).drop_last() =~= nv.take(k as int));
        assert(nv.take(k + 1).last() == nodes@[k as int]@);
        let n = nodes[k];
        if !in_any_chain(cs, n.id) {
            let ghost o2 = out@;
            let (color, category) = style_of(n.get("media.class"));
            push_str_chars(out, "        node_");
            push_decimal(out, n.id as u64);
            push_str_chars(out, " [label=\"");
            let name = escape_label(n.display_name().as_str());
            push_str_chars(out, name.as_str());
            push_str_chars(out, "\\nID: ");
            push_decimal(out, n.id as u64);
            push_str_chars(out, "\", fillcolor=");
            push_str_chars(out, color);
            push_str_chars(out, "];\n");
            assert(out@ =~= o2 + node_line(n@));
            if category == NodeCategory::Sink {
                let mut sn = String::new();
                push_str_chars(&mut sn, "node_");
                push_decimal(&mut sn, n.id as u64);
                let ghost sb = strings_view(sinks@);
                sinks.push(sn);
                assert(strings_view(sinks@) =~= sb.push("node_"@ + decimal(n.id as nat)));
            }
        }
        assert(out@ =~= base + node_lines(nv.take(k + 1), cv));
        k = k + 1;
    }
    assert(nv.take(nv.len() as int) =~= nv);
    push_str_chars(out, "\n");
    assert(out@ =~= o + nodes_section(nv, cv));
    sinks
}

/// The graph node that stands for node `id`: the last chain it belongs to,
/// else the node itself.
pub open spec fn graph_name(cs: Seq<ChainModel>, id: u32) -> Seq<char>
    decreases cs.len(),
{
    if cs.len() == 0 {
        "node_"@ + decimal(id as nat)
    } else if cs.last().input_id == id || cs.last().output_id == id {
        "chain_"@ + decimal(cs.last().input_id as nat)
    } else {
        graph_name(cs.drop_last(), id)
    }
}

fn graph_name_of(cs: &Vec<FilterChain>, id: u32) -> (r: String)
    ensures
        r@ == graph_name(chains_view(cs@), id),
{
    let ghost cv = chains_view(cs@);
    let mut j: usize = cs.len();
    assert(cv.take(j as int) =~= cv);
    while j > 0
        invariant
            j <= cs.len(),
            cv == chains_view(cs@),
            graph_name(cv, id) == graph_name(cv.take(j as int), id),
        decreases j,
    {
        let ghost t = cv.take(j as int);
        assert(t.last() == cs@[j - 1]@);
        assert(t.drop_last() =~= cv.take(j - 1));
        if cs[j - 1].input_id == id || cs[j - 1].output_id == id {
            let mut r = String::new();
            push_str_chars(&mut r, "chain_");
            push_decimal(&mut r, cs[j - 1].input_id as u64);
            return r;
        }
        j = j - 1;
    }
    let mut r = String::new();
    push_str_chars(&mut r, "node_");
    push_decimal(&mut r, id as u64);
    r
}

/// The node of audio port `port_id`: the `node.id` of the last port object
/// with that id whose node is an audio node.
pub open spec fn port_node(items: Seq<GraphModel>, nodes: Seq<ObjectModel>, port_id: u32) -> Option<u32>
    decreases items.len(),
{
    if items.len() == 0 {
        None
    } else {
        let o = items.last().object;
        match prop_u32(o, "node.id"@) {
            Some(nid) => if o.object_type == "Port"@ && o.id == port_id && has_id(nodes, nid) {
                Some(nid)
            } else {
                port_node(items.drop_last(), nodes, port_id)
            },
            None => port_node(items.drop_last(), nodes, port_id),
        }
    }
}

fn has_node_id(nodes: &Vec<&PwObject>, id: u32) -> (b: bool)
    ensures
        b == has_id(refs_view(nodes@), id),
{
    let ghost nv = refs_view(nodes@);
    let mut k: usize = 0;
    while k < nodes.len()
        invariant
            k <= nodes.len(),
            nv == refs_view(nodes@),
            forall|j: int| 0 <= j < k ==> (#[trigger] nv[j]).id != id,
        decreases nodes.len() - k,
    {
        assert(nv[k as int] == nodes@[k as int]@);
        if nodes[k].id == id {
            return true;
        }
        k = k + 1;
    }
    false
}

fn port_node_of(items: &[GraphObject], nodes: &Vec<&PwObject>, port_id: u32) -> (r: Option<u32>)
    ensures
        r == port_node(items_view(items@), refs_view(nodes@), port_id),
{
    let ghost iv = items_view(items@);
    let mut j: usize = items.len();
    assert(iv.take(j as int) =~= iv);
    while j > 0
        invariant
            j <= items.len(),
            iv == items_view(items@),
            port_node(iv, refs_view(nodes@), port_id) == port_node(iv.take(j as int), refs_view(nodes@), port_id),
        decreases j,
    {
        let ghost t = iv.take(j as int);
        assert(t.last() == items@[j - 1]@);
        assert(t.drop_last() =~= iv.take(j - 1));
        let o = &items[j - 1].object;
        match get_u32(o, "node.id") {
            Some(nid) => {
                if str_eq(o.object_type.as_str(), "Port") && o.id == port_id && has_node_id(nodes, nid) {
                    return Some(nid);
                }
            },
            None => {},
        }
        j = j - 1;
    }
    None
}

/// The edge that link `l` draws: from the graph node of its output port's
/// node to that of its input port's node, where both ports are audio ports
/// and the two graph nodes differ.
pub open spec fn link_edge(items: Seq<GraphModel>, nodes: Seq<ObjectModel>, cs: Seq<ChainModel>, l: ObjectModel) -> Option<(Seq<char>, Seq<char>)> {
    match (prop_u32(l, "link.output.port"@), prop_u32(l, "link.input.port"@)) {
        (Some(o), Some(i)) => match (port_node(items, nodes, o), port_node(items, nodes, i)) {
            (Some(a), Some(b)) => {
                let from = graph_name(cs, a);
                let to = graph_name(cs, b);
                if from != to {
                    Some((from, to))
                } else {
                    None
                }
            },
            _ => None,
        },
        _ => None,
    }
}

/// The edges of the links among the first `k` objects, each once, in order.
pub open spec fn edges(items: Seq<GraphModel>, nodes: Seq<ObjectModel>, cs: Seq<ChainModel>, k: nat) -> Seq<(Seq<char>, Seq<char>)>
    decreases k,
{
    if k == 0 {
        seq![]
    } else {
        let acc = edges(items, nodes, cs, (k - 1) as nat);
        let o = items[k - 1].object;
        if o.object_type == "Link"@ {
            match link_edge(items, nodes, cs, o) {
                Some(e) => if acc.contains(e) {
                    acc
                } else {
                    acc.push(e)
                },
                None => acc,
            }
        } else {
            acc
        }
    }
}

/// The line of an edge: `A -> B;`, indented.
pub open spec fn edge_line(e: (Seq<char>, Seq<char>)) -> Seq<char> {
    "        "@ + e.0 + " -> "@ + e.1 + ";\n"@
}

/// The lines of the edges, in order.
pub open spec fn edge_lines(es: Seq<(Seq<char>, Seq<char>)>) -> Seq<char>
    decreases es.len(),
{
    if es.len() == 0 {
        seq![]
    } else {
        edge_lines(es.drop_last()) + edge_line(es.last())
    }
}

pub open spec fn pairs_view(ps: Seq<(String, String)>) -> Seq<(Seq<char>, Seq<char>)> {
    ps.map_values(|p: (String, String)| (p.0@, p.1@))
}

fn contains_pair(ps: &Vec<(String, String)>, a: &str, b: &str) -> (r: bool)
    ensures
        r == pairs_view(ps@).contains((a@, b@)),
{
    let ghost pv = pairs_view(ps@);
    let mut k: usize = 0;
    while k < ps.len()
        invariant
            k <= ps.len(),
            pv == pairs_view(ps@),
            forall|j: int| 0 <= j < k ==> #[trigger] pv[j] != (a@, b@),
        decreases ps.len() - k,
    {
        assert(pv[k as int] == (ps@[k as int].0@, ps@[k as int].1@));
        if str_eq(ps[k].0.as_str(), a) && str_eq(ps[k].1.as_str(), b) {
            assert(pv[k as int] == (a@, b@));
            return true;
        }
        k = k + 1;
    }
    false
}

fn collect_edges(items: &[GraphObject], nodes: &Vec<&PwObject>, cs: &Vec<FilterChain>) -> (r: Vec<(String, String)>)
    ensures
        pairs_view(r@) == edges(items_view(items@), refs_view(nodes@), chains_view(cs@), items@.len() as nat),
{
    let ghost iv = items_view(items@);
    let ghost nv = refs_view(nodes@);
    let ghost cv = chains_view(cs@);
    let mut acc: Vec<(String, String)> = Vec::new();
    let mut k: usize = 0;
    assert(pairs_view(acc@) =~= seq![]);
    while k < items.len()
        invariant
            k <= items.len(),
            iv == items_view(items@),
            nv == refs_view(nodes@),
            cv == chains_view(cs@),
            pairs_view(acc@) == edges(iv, nv, cv, k as nat),
        decreases items.len() - k,
    {
        let o = &items[k].object;
        assert(iv[k as int].object == o@);
        if str_eq(o.object_type.as_str(), "Link") {
            let out_port = get_u32(o, "link.output.port");
            let in_port = get_u32(o, "link.input.port");
            match (out_port, in_port) {
                (Some(op), Some(ip)) => {
                    match (port_node_of(items, nodes, op), port_node_of(items, nodes, ip)) {
                        (Some(a), Some(b)) => {
                            let from = graph_name_of(cs, a);
                            let to = graph_name_of(cs, b);
                            if !str_eq(from.as_str(), to.as_str()) && !contains_pair(&acc, from.as_str(), to.as_str()) {
                                let ghost before = pairs_view(acc@);
                                let ghost e = (from@, to@);
                                acc.push((from, to));
                                assert(pairs_view(acc@) =~= before.push(e));
                            }
                        },
                        _ => {},
                    }
                },
                _ => {},
            }
        }
        k = k + 1;
    }
    acc
}

fn push_edges(out: &mut String, es: &Vec<(String, String)>)
    ensures
        final(out)@ == old(out)@ + "        // Links\n"@ + edge_lines(pairs_view(es@)),
{
    let ghost ev = pairs_view(es@);
    let ghost o = out@;
    push_str_chars(out, "        // Links\n");
    let ghost base = out@;
    let mut k: usize = 0;
    while k < es.len()
        invariant
            k <= es.len(),
            ev == pairs_view(es@),
            out@ == base + edge_lines(ev.take(k as int)),
        decreases es.len() - k,
    {
        assert(ev.take(k + 1).drop_last() =~= ev.take(k as int));
        assert(ev.take(k + 1).last() == (es@[k as int].0@, es@[k as int].1@));
        push_str_chars(out, "        ");
        push_str_chars(out, es[k].0.as_str());
        push_str_chars(out, " -> ");
        push_str_chars(out, es[k].1.as_str());
        push_str_chars(out, ";\n");
        assert(out@ =~= base + edge_lines(ev.take(k + 1)));
        k = k + 1;
    }
    assert(ev.take(ev.len() as int) =~= ev);
}

/// The ids of the clients shown.
pub open spec fn shown_ids(cs: Seq<GraphModel>) -> Seq<u32> {
    cs.map_values(|c: GraphModel| c.object.id)
}

/// The dashed edge from a shown client to the graph node `target`.
pub open spec fn client_edge(client: u32, target: Seq<char>) -> Seq<char> {
    "        client_"@ + decimal(client as nat) + " -> "@ + target + " [style=dashed, color=gray];\n"@
}

/// The client edges of the first `k` audio nodes outside the chains.
pub open spec fn node_client_edges(nodes: Seq<ObjectModel>, cs: Seq<ChainModel>, shown: Seq<u32>, k: nat) -> Seq<char>
    decreases k,
{
    if k == 0 {
        seq![]
    } else {
        let n = nodes[k - 1];
        node_client_edges(nodes, cs, shown, (k - 1) as nat) + if in_chain(cs, n.id) {
            seq![]
        } else {
            match node_client(nodes, n.id) {
                Some(c) => if shown.contains(c) {
                    client_edge(c, "node_"@ + decimal(n.id as nat))
                } else {
                    seq![]
                },
                None => seq![],
            }
        }
    }
}

/// The client edges of the first `k` chains, by the client of each chain's input.
pub open spec fn chain_client_edges(nodes: Seq<ObjectModel>, cs: Seq<ChainModel>, shown: Seq<u32>, k: nat) -> Seq<char>
    decreases k,
{
    if k == 0 {
        seq![]
    } else {
        let c = cs[k - 1];
        chain_client_edges(nodes, cs, shown, (k - 1) as nat) + match node_client(nodes, c.input_id) {
            Some(cl) => if shown.contains(cl) {
                client_edge(cl, "chain_"@ + decimal(c.input_id as nat))
            } else {
                seq![]
            },
            None => seq![],
        }
    }
}

fn push_client_edge(out: &mut String, client: u32, prefix: &str, id: u32)
    ensures
        final(out)@ == old(out)@ + client_edge(client, prefix@ + decimal(id as nat)),
{
    let ghost o = out@;
    push_str_chars(out, "        client_");
    push_decimal(out, client as u64);
    push_str_chars(out, " -> ");
    push_str_chars(out, prefix);
    push_decimal(out, id as u64);
    push_str_chars(out, " [style=dashed, color=gray];\n");
    assert(out@ =~= o + client_edge(client, prefix@ + decimal(id as nat)));
}

fn push_connections(out: &mut String, nodes: &Vec<&PwObject>, cs: &Vec<FilterChain>, shown: &Vec<u32>)
    ensures
        final(out)@ == old(out)@ + "\n        // Client connections\n"@ + node_client_edges(
            refs_view(nodes@),
            chains_view(cs@),
            shown@,
            nodes@.len() as nat,
        ) + chain_client_edges(refs_view(nodes@), chains_view(cs@), shown@, cs@.len() as nat),
{
    let ghost nv = refs_view(nodes@);
    let ghost cv = chains_view(cs@);
    let ghost o = out@;
    push_str_chars(out, "\n        // Client connections\n");
    let ghost base = out@;
    let mut k: usize = 0;
    while k < nodes.len()
        invariant
            k <= nodes.len(),
            nv == refs_view(nodes@),
            cv == chains_view(cs@),
            out@ == base + node_client_edges(nv, cv, shown@, k as nat),
        decreases nodes.len() - k,
    {
        let n = nodes[k];
        assert(nv[k as int] == n@);
        if !in_any_chain(cs, n.id) {
            match node_client_of(nodes.as_slice(), n.id) {
                Some(c) => {
                    if contains_id(shown, c) {
                        push_client_edge(out, c, "node_", n.id);
                    }
                },
                None => {},
            }
        }
        assert(out@ =~= base + node_client_edges(nv, cv, shown@, (k + 1) as nat));
        k = k + 1;
    }
    let ghost mid = out@;
    let mut k: usize = 0;
    while k < cs.len()
        invariant
            k <= cs.len(),
            nv == refs_view(nodes@),
            cv == chains_view(cs@),
            out@ == mid + chain_client_edges(nv, cv, shown@, k as nat),
        decreases cs.len() - k,
    {
        assert(cv[k as int] == cs@[k as int]@);
        match node_client_of(nodes.as_slice(), cs[k].input_id) {
            Some(c) => {
                if contains_id(shown, c) {
                    push_client_edge(out, c, "chain_", cs[k].input_id);
                }
            },
            None => {},
        }
        assert(out@ =~= mid + chain_client_edges(nv, cv, shown@, (k + 1) as nat));
        k = k + 1;
    }
    assert(out@ =~= o + "\n        // Client connections\n"@ + node_client_edges(nv, cv, shown@, nodes@.len() as nat)
        + chain_client_edges(nv, cv, shown@, cs@.len() as nat));
}

/// `ss` joined with `sep` between each two.
pub open spec fn join(ss: Seq<Seq<char>>, sep: Seq<char>) -> Seq<char>
    decreases ss.len(),
{
    if ss.len() == 0 {
        seq![]
    } else if ss.len() == 1 {
        ss[0]
    } else {
        join(ss.drop_last(), sep) + sep + ss.last()
    }
}

/// The ranking that puts the sinks at the bottom, where there are any.
pub open spec fn rank_section(sinks: Seq<Seq<char>>) -> Seq<char> {
    if sinks.len() == 0 {
        seq![]
    } else {
        "    // Rank: sinks at bottom\n"@ + "    { rank=max; "@ + join(sinks, "; "@) + " }\n"@
    }
}

fn push_rank(out: &mut String, sinks: &Vec<String>)
    ensures
        final(out)@ == old(out)@ + rank_section(strings_view(sinks@)),
{
    let ghost sv = strings_view(sinks@);
    if sinks.len() == 0 {
        assert(old(out)@ + rank_section(sv) =~= old(out)@);
        return ;
    }
    let ghost o = out@;
    push_str_chars(out, "    // Rank: sinks at bottom\n");
    push_str_chars(out, "    { rank=max; ");
    let ghost base = out@;
    push_str_chars(out, sinks[0].as_str());
    assert(sv.take(1) =~= seq![sv[0]]);
    assert(out@ =~= base + join(sv.take(1), "; "@));
    let mut k: usize = 1;
    while k < sinks.len()
        invariant
            1 <= k <= sinks.len(),
            sv == strings_view(sinks@),
            out@ == base + join(sv.take(k as int), "; "@),
        decreases sinks.len() - k,
    {
        assert(sv.take(k + 1).drop_last() =~= sv.take(k as int));
        assert(sv.take(k + 1).last() == sinks@[k as int]@);
        push_str_chars(out, "; ");
        push_str_chars(out, sinks[k].as_str());
        assert(out@ =~= base + join(sv.take(k + 1), "; "@));
        k = k + 1;
    }
    assert(sv.take(sv.len() as int) =~= sv);
    push_str_chars(out, " }\n");
    assert(out@ =~= o + rank_section(sv));
}

/// The opening lines of the graph: a left-to-right layout of filled boxes.
pub open spec fn graph_header() -> Seq<char> {
    "digraph PipeWire {\n"@ + "    rankdir=LR;\n"@ + "    node [shape=box, style=filled];\n"@ + "    newrank=true;\n"@
        + "    compound=true;\n"@ + "    \n"@
}

/// The opening lines of the cluster that holds the audio graph.
pub open spec fn cluster_header() -> Seq<char> {
    "    // Audio Graph\n"@ + "    subgraph cluster_graph {\n"@ + "        label=\"\";\n"@ + "        style=invis;\n"@
        + "        \n"@
}

/// The audio devices: the objects of type `Device` that are audio objects,
/// in order.
pub open spec fn audio_devices(items: Seq<GraphModel>) -> Seq<ObjectModel>
    decreases items.len(),
{
    if items.len() == 0 {
        seq![]
    } else {
        let rest = audio_devices(items.drop_last());
        let g = items.last();
        if g.object.object_type == "Device"@ && is_audio(g.object, g.class) {
            rest.push(g.object)
        } else {
            rest
        }
    }
}

/// The line of a device: a light gray box labelled with its name.
pub open spec fn device_line(d: ObjectModel) -> Seq<char> {
    "        dev_"@ + decimal(d.id as nat) + " [label=\""@ + escape_quotes(d.display_name())
        + "\", fillcolor=lightgray];\n"@
}

pub open spec fn device_lines(ds: Seq<ObjectModel>) -> Seq<char>
    decreases ds.len(),
{
    if ds.len() == 0 {
        seq![]
    } else {
        device_lines(ds.drop_last()) + device_line(ds.last())
    }
}

/// The devices, in a dashed cluster of their own, where there are any.
pub open spec fn devices_section(ds: Seq<ObjectModel>) -> Seq<char> {
    if ds.len() == 0 {
        seq![]
    } else {
        "    subgraph cluster_devices {\n"@ + "        label=\"Devices\";\n"@ + "        style=dashed;\n"@
            + "        color=gray;\n"@ + device_lines(ds) + "    }\n\n"@
    }
}

fn collect_audio_devices(items: &[GraphObject]) -> (r: Vec<&PwObject>)
    ensures
        refs_view(r@) == audio_devices(items_view(items@)),
{
    let ghost iv = items_view(items@);
    let mut out: Vec<&PwObject> = Vec::new();
    let mut i: usize = 0;
    while i < items.len()
        invariant
            i <= items.len(),
            iv == items_view(items@),
            refs_view(out@) == audio_devices(iv.take(i as int)),
        decreases items.len() - i,
    {
        assert(iv.take(i + 1).drop_last() =~= iv.take(i as int));
        assert(iv.take(i + 1).last() == items@[i as int]@);
        let g = &items[i];
        if str_eq(g.object.object_type.as_str(), "Device") && is_audio_node(&g.object, g.class) {
            let ghost before = refs_view(out@);
            out.push(&g.object);
            assert(refs_view(out@) =~= before.push(g.object@));
        }
        i = i + 1;
    }
    assert(iv.take(iv.len() as int) =~= iv);
    out
}

fn push_device_line(out: &mut String, d: &PwObject)
    ensures
        final(out)@ == old(out)@ + device_line(d@),
{
    let ghost o = out@;
    push_str_chars(out, "        dev_");
    push_decimal(out, d.id as u64);
    push_str_chars(out, " [label=\"");
    let name = escape_label(d.display_name().as_str());
    push_str_chars(out, name.as_str());
    push_str_chars(out, "\", fillcolor=lightgray];\n");
    assert(out@ =~= o + device_line(d@));
}

fn push_devices(out: &mut String, ds: &Vec<&PwObject>)
    ensures
        final(out)@ == old(out)@ + devices_section(refs_view(ds@)),
{
    let ghost dv = refs_view(ds@);
    if ds.len() == 0 {
        assert(old(out)@ + devices_section(dv) =~= old(out)@);
        return ;
    }
    let ghost o = out@;
    push_str_chars(out, "    subgraph cluster_devices {\n");
    push_str_chars(out, "        label=\"Devices\";\n");
    push_str_chars(out, "        style=dashed;\n");
    push_str_chars(out, "        color=gray;\n");
    let ghost base = out@;
    let mut k: usize = 0;
    while k < ds.len()
        invariant
            k <= ds.len(),
            dv == refs_view(ds@),
            out@ == base + device_lines(dv.take(k as int)),
        decreases ds.len() - k,
    {
        assert(dv.take(k + 1).drop_last() =~= dv.take(k as int));
        assert(dv.take(k + 1).last() == ds@[k as int]@);
        push_device_line(out, ds[k]);
        assert(out@ =~= base + device_lines(dv.take(k + 1)));
        k = k + 1;
    }
    assert(dv.take(dv.len() as int) =~= dv);
    push_str_chars(out, "    }\n\n");
    assert(out@ =~= o + devices_section(dv));
}

/// The DOT graph of the listed objects, laid out left to right: the audio
/// devices in a cluster of their own, then the clients behind audio nodes that
/// are not internal, the filter chains as one node each, the other audio
/// nodes coloured by media class, an edge per pair of graph nodes that audio
/// links join, the clients' dashed edges, and the sinks ranked at the bottom.
pub open spec fn dot_graph(items: Seq<GraphModel>) -> Seq<char> {
    graph_header() + graph_body(items) + "}\n"@
}

/// What the graph holds between its header and its closing brace.
pub open spec fn graph_body(items: Seq<GraphModel>) -> Seq<char> {
    let nodes = audio_nodes(items);
    let cs = filter_chains(nodes);
    let clients = shown_clients(items, client_ids(nodes, nodes.len()));
    devices_section(audio_devices(items)) + cluster_header() + clients_section(clients) + chains_section(cs)
        + nodes_section(nodes, cs) + "        // Links\n"@ + edge_lines(edges(items, nodes, cs, items.len()))
        + "\n        // Client connections\n"@ + node_client_edges(nodes, cs, shown_ids(clients), nodes.len())
        + chain_client_edges(nodes, cs, shown_ids(clients), cs.len()) + "    }\n\n"@ + rank_section(
        sink_names(nodes, cs),
    )
}

fn client_id_list(cs: &Vec<&GraphObject>) -> (r: Vec<u32>)
    ensures
        r@ == shown_ids(graph_refs_view(cs@)),
{
    let mut r: Vec<u32> = Vec::new();
    let mut k: usize = 0;
    while k < cs.len()
        invariant
            k <= cs.len(),
            r@ == shown_ids(graph_refs_view(cs@)).take(k as int),
        decreases cs.len() - k,
    {
        r.push(cs[k].object.id);
        assert(r@ =~= shown_ids(graph_refs_view(cs@)).take(k + 1));
        k = k + 1;
    }
    assert(shown_ids(graph_refs_view(cs@)).take(cs.len() as int) =~= shown_ids(graph_refs_view(cs@)));
    r
}

#[verifier::spinoff_prover]
#[verifier::rlimit(40)]
fn push_graph_body(dot: &mut String, items: &[GraphObject])
    ensures
        final(dot)@ == old(dot)@ + graph_body(items_view(items@)),
{
    let ghost iv = items_view(items@);
    let ghost o = dot@;
    let devices = collect_audio_devices(items);
    push_devices(dot, &devices);
    let ghost h = dot@;
    push_str_chars(dot, "    // Audio Graph\n");
    push_str_chars(dot, "    subgraph cluster_graph {\n");
    push_str_chars(dot, "        label=\"\";\n");
    push_str_chars(dot, "        style=invis;\n");
    push_str_chars(dot, "        \n");
    assert(dot@ =~= h + cluster_header());
    let nodes = collect_audio_nodes(items);
    let chains = detect_filter_chains(nodes.as_slice());
    let ids = collect_client_ids(nodes.as_slice());
    let clients = collect_shown_clients(items, &ids);
    let shown = client_id_list(&clients);
    push_clients(dot, &clients);
    push_chains(dot, &chains);
    let sinks = push_nodes(dot, &nodes, &chains);
    let es = collect_edges(items, &nodes, &chains);
    push_edges(dot, &es);
    push_connections(dot, &nodes, &chains, &shown);
    push_str_chars(dot, "    }\n\n");
    push_rank(dot, &sinks);
    assert(dot@ =~= o + graph_body(iv));
}

/// Generate the DOT graph of the audio topology, given each listed object
/// with the classification of its media class and whether it is an internal
/// client. Where several clients or edges qualify they come in the order of
/// the listing, each once.
pub fn generate_dot_graph(items: &[GraphObject]) -> (r: String)
    ensures
        r@ == dot_graph(items_view(items@)),
{
    let mut dot = String::new();
    push_str_chars(&mut dot, "digraph PipeWire {\n");
    push_str_chars(&mut dot, "    rankdir=LR;\n");
    push_str_chars(&mut dot, "    node [shape=box, style=filled];\n");
    push_str_chars(&mut dot, "    newrank=true;\n");
    push_str_chars(&mut dot, "    compound=true;\n");
    push_str_chars(&mut dot, "    \n");
    assert(dot@ =~= graph_header());
    push_graph_body(&mut dot, items);
    push_str_chars(&mut dot, "}\n");
    dot
}

/// Links are aggregated to one edge per pair of graph nodes: no edge joins a
/// graph node to itself (so no link inside a filter chain shows), and no
/// edge is drawn twice.
pub proof fn lemma_edges_distinct(items: Seq<GraphModel>, nodes: Seq<ObjectModel>, cs: Seq<ChainModel>, k: nat)
    ensures
        forall|i: int| 0 <= i < edges(items, nodes, cs, k).len() ==> (#[trigger] edges(items, nodes, cs, k)[i]).0
            != edges(items, nodes, cs, k)[i].1,
        forall|i: int, j: int|
            0 <= i < j < edges(items, nodes, cs, k).len() ==> (#[trigger] edges(items, nodes, cs, k)[i])
                != (#[trigger] edges(items, nodes, cs, k)[j]),
    decreases k,
{
    if k > 0 {
        lemma_edges_distinct(items, nodes, cs, (k - 1) as nat);
        let acc = edges(items, nodes, cs, (k - 1) as nat);
        let r = edges(items, nodes, cs, k);
        if r != acc {
            let e = r.last();
            assert(r == acc.push(e));
            assert(!acc.contains(e));
            assert forall|i: int, j: int| 0 <= i < j < r.len() implies (#[trigger] r[i]) != (#[trigger] r[j]) by {
                if j == r.len() - 1 {
                    assert(r[i] == acc[i]);
                } else {
                    assert(r[i] == acc[i] && r[j] == acc[j]);
                }
            }
            assert forall|i: int| 0 <= i < r.len() implies (#[trigger] r[i]).0 != r[i].1 by {
                if i < acc.len() {
                    assert(r[i] == acc[i]);
                }
            }
        }
    }
}


proof fn lemma_port_node_is_audio(items: Seq<GraphModel>, nodes: Seq<ObjectModel>, port_id: u32)
    ensures
        port_node(items, nodes, port_id) matches Some(nid) ==> has_id(nodes, nid),
    decreases items.len(),
{
    if items.len() > 0 {
        lemma_port_node_is_audio(items.drop_last(), nodes, port_id);
    }
}

/// The graph node that stands for node `id` is its filter chain's node,
/// `chain_<input id>`, where it belongs to a chain, and `node_<id>` where it
/// belongs to none.
pub proof fn lemma_graph_name(cs: Seq<ChainModel>, id: u32)
    ensures
        !in_chain(cs, id) ==> graph_name(cs, id) == "node_"@ + decimal(id as nat),
        in_chain(cs, id) ==> exists|j: int|
            0 <= j < cs.len() && (cs[j].input_id == id || cs[j].output_id == id) && #[trigger] graph_name(cs, id)
                == "chain_"@ + decimal(cs[j].input_id as nat),
    decreases cs.len(),
{
    if cs.len() > 0 {
        let d = cs.drop_last();
        lemma_graph_name(d, id);
        let l = cs.len() - 1;
        if cs.last().input_id == id || cs.last().output_id == id {
            assert(in_chain(cs, id));
            assert(graph_name(cs, id) == "chain_"@ + decimal(cs[l].input_id as nat));
        } else {
            if in_chain(cs, id) {
                let k = choose|k: int| 0 <= k < cs.len() && ((#[trigger] cs[k]).input_id == id || cs[k].output_id == id);
                assert(k != l);
                assert(d[k] == cs[k]);
                assert(in_chain(d, id));
                let j = choose|j: int|
                    0 <= j < d.len() && (d[j].input_id == id || d[j].output_id == id) && #[trigger] graph_name(d, id)
                        == "chain_"@ + decimal(d[j].input_id as nat);
                assert(d[j] == cs[j]);
            } else {
                assert forall|k: int| 0 <= k < d.len() implies !((#[trigger] d[k]).input_id == id || d[k].output_id
                    == id) by {
                    assert(d[k] == cs[k]);
                }
            }
        }
    }
}

/// Every edge of the graph's Links section joins two audio nodes: it goes
/// from the graph node of one audio node to that of another (see
/// [`lemma_graph_name`] for what those graph nodes are called).
pub proof fn lemma_edge_ends_are_audio_nodes(items: Seq<GraphModel>, nodes: Seq<ObjectModel>, cs: Seq<ChainModel>, k: nat)
    ensures
        forall|i: int|
            0 <= i < edges(items, nodes, cs, k).len() ==> exists|a: u32, b: u32|
                has_id(nodes, a) && has_id(nodes, b) && #[trigger] edges(items, nodes, cs, k)[i] == (
                    graph_name(cs, a),
                    graph_name(cs, b),
                ),
    decreases k,
{
    if k > 0 {
        lemma_edge_ends_are_audio_nodes(items, nodes, cs, (k - 1) as nat);
        let acc = edges(items, nodes, cs, (k - 1) as nat);
        let r = edges(items, nodes, cs, k);
        assert forall|i: int| 0 <= i < r.len() implies exists|a: u32, b: u32|
            has_id(nodes, a) && has_id(nodes, b) && #[trigger] r[i] == (graph_name(cs, a), graph_name(cs, b)) by {
            if i < acc.len() && r[i] == acc[i] {
                let (a, b) = choose|a: u32, b: u32|
                    has_id(nodes, a) && has_id(nodes, b) && #[trigger] acc[i] == (graph_name(cs, a), graph_name(cs, b));
                assert(r[i] == (graph_name(cs, a), graph_name(cs, b)));
            } else {
                let l = items[k - 1].object;
                let o = prop_u32(l, "link.output.port"@)->0;
                let p = prop_u32(l, "link.input.port"@)->0;
                lemma_port_node_is_audio(items, nodes, o);
                lemma_port_node_is_audio(items, nodes, p);
                let a = port_node(items, nodes, o)->0;
                let b = port_node(items, nodes, p)->0;
                assert(r[i] == (graph_name(cs, a), graph_name(cs, b)));
            }
        }
    }
}

/// The graph is one DOT digraph: it opens with the header (`digraph
/// PipeWire {`, a left-to-right layout) and closes with its brace.
pub proof fn lemma_dot_graph_frame(items: Seq<GraphModel>)
    ensures
        exists|body: Seq<char>| #[trigger] dot_graph(items) == graph_header() + body + "}\n"@,
{
    assert(dot_graph(items) == graph_header() + graph_body(items) + "}\n"@);
}


/// The node ids a list of chains uses: each chain's input, then its output.
pub open spec fn chain_ids(cs: Seq<ChainModel>) -> Seq<u32>
    decreases cs.len(),
{
    if cs.len() == 0 {
        seq![]
    } else {
        chain_ids(cs.drop_last()).push(cs.last().input_id).push(cs.last().output_id)
    }
}

/// No two of `nodes` share an id.
pub open spec fn ids_distinct(nodes: Seq<ObjectModel>) -> bool {
    forall|i: int, j: int|
        0 <= i < nodes.len() && 0 <= j < nodes.len() && (#[trigger] nodes[i]).id == (#[trigger] nodes[j]).id ==> i == j
}

/// No two of `nodes` share a `node.name`.
pub open spec fn names_distinct(nodes: Seq<ObjectModel>) -> bool {
    forall|i: int, j: int|
        0 <= i < nodes.len() && 0 <= j < nodes.len() && (#[trigger] nodes[i]).prop("node.name"@) is Some
            && nodes[i].prop("node.name"@) == (#[trigger] nodes[j]).prop("node.name"@) ==> i == j
}

/// Chain `c` is a sink chain whose input is one of the first `k` nodes: an
/// `Audio/Sink` or `Audio/Source/Virtual` node named as the chain, with a
/// `Stream/Output/Audio` output node named as the chain plus `.output`.
pub open spec fn sink_shaped_within(nodes: Seq<ObjectModel>, c: ChainModel, k: int) -> bool {
    exists|p: int, q: int|
        0 <= p < k && 0 <= q < nodes.len() && (#[trigger] nodes[p]).id == c.input_id && (#[trigger] nodes[q]).id
            == c.output_id && nodes[p].prop("node.name"@) == Some(c.name) && (nodes[p].prop("media.class"@) == Some(
            "Audio/Sink"@,
        ) || nodes[p].prop("media.class"@) == Some("Audio/Source/Virtual"@)) && nodes[q].prop("node.name"@) == Some(
            c.name + ".output"@,
        ) && nodes[q].prop("media.class"@) == Some("Stream/Output/Audio"@)
}

/// Chain `c` is a sink chain among `nodes`.
pub open spec fn sink_shaped(nodes: Seq<ObjectModel>, c: ChainModel) -> bool {
    sink_shaped_within(nodes, c, nodes.len() as int)
}

/// Chain `c` is a processing chain among `nodes`: an input node named as the
/// chain plus `_input.proc`, and an output node named as the chain plus
/// `_output.proc`.
pub open spec fn proc_shaped(nodes: Seq<ObjectModel>, c: ChainModel) -> bool {
    exists|p: int, q: int|
        0 <= p < nodes.len() && 0 <= q < nodes.len() && (#[trigger] nodes[p]).id == c.input_id
            && (#[trigger] nodes[q]).id == c.output_id && nodes[p].prop("node.name"@) == Some(c.name + "_input.proc"@)
            && nodes[q].prop("node.name"@) == Some(c.name + "_output.proc"@)
}

proof fn lemma_last_named(nodes: Seq<ObjectModel>, name: Seq<char>)
    ensures
        last_named(nodes, name) matches Some(o) ==> exists|q: int|
            0 <= q < nodes.len() && #[trigger] nodes[q] == o && o.prop("node.name"@) == Some(name),
    decreases nodes.len(),
{
    if nodes.len() > 0 {
        lemma_last_named(nodes.drop_last(), name);
        if nodes.last().prop("node.name"@) == Some(name) {
            assert(nodes[nodes.len() - 1] == nodes.last());
        } else if let Some(o) = last_named(nodes, name) {
            let q = choose|q: int|
                0 <= q < nodes.drop_last().len() && #[trigger] nodes.drop_last()[q] == o && o.prop("node.name"@) == Some(
                    name,
                );
            assert(nodes[q] == nodes.drop_last()[q]);
        }
    }
}

proof fn lemma_chain_ids_member(cs: Seq<ChainModel>, x: u32)
    ensures
        chain_ids(cs).contains(x) ==> exists|t: int|
            0 <= t < cs.len() && ((#[trigger] cs[t]).input_id == x || cs[t].output_id == x),
    decreases cs.len(),
{
    if cs.len() > 0 {
        let d = cs.drop_last();
        lemma_chain_ids_member(d, x);
        let ids = chain_ids(cs);
        if ids.contains(x) {
            let i = choose|i: int| 0 <= i < ids.len() && ids[i] == x;
            if i >= chain_ids(d).len() {
                assert(cs[cs.len() - 1] == cs.last());
            } else {
                assert(chain_ids(d)[i] == x);
                assert(chain_ids(d).contains(x));
                let t = choose|t: int| 0 <= t < d.len() && ((#[trigger] d[t]).input_id == x || d[t].output_id == x);
                assert(cs[t] == d[t]);
            }
        }
    }
}

proof fn lemma_push_two_distinct(s: Seq<u32>, a: u32, b: u32)
    requires
        s.no_duplicates(),
        !s.contains(a),
        !s.contains(b),
        a != b,
    ensures
        s.push(a).push(b).no_duplicates(),
{
    let r = s.push(a).push(b);
    assert forall|i: int, j: int| 0 <= i < r.len() && 0 <= j < r.len() && i != j implies r[i] != r[j] by {
        if i < s.len() && j < s.len() {
            assert(r[i] == s[i] && r[j] == s[j]);
        } else if i < s.len() {
            assert(r[i] == s[i]);
            assert(s.contains(s[i]));
        } else if j < s.len() {
            assert(r[j] == s[j]);
            assert(s.contains(s[j]));
        }
    }
}

proof fn lemma_suffix_cancel(a: Seq<char>, b: Seq<char>, suffix: Seq<char>)
    requires
        a + suffix == b + suffix,
    ensures
        a == b,
{
    assert((a + suffix).len() == a.len() + suffix.len());
    assert((b + suffix).len() == b.len() + suffix.len());
    assert(a.len() == b.len());
    assert forall|i: int| 0 <= i < a.len() implies a[i] == b[i] by {
        assert((a + suffix)[i] == a[i]);
        assert((b + suffix)[i] == b[i]);
    }
    assert(a =~= b);
}

/// What the sink pattern has found after the first `k` nodes: each node id
/// at most once, every chain a sink chain whose input is among those nodes.
pub open spec fn sink_stage_ok(nodes: Seq<ObjectModel>, st: ChainState, k: int) -> bool {
    &&& st.used == chain_ids(st.chains)
    &&& st.used.no_duplicates()
    &&& forall|t: int| 0 <= t < st.chains.len() ==> sink_shaped_within(nodes, #[trigger] st.chains[t], k)
}

#[verifier::spinoff_prover]
proof fn lemma_sink_chains(nodes: Seq<ObjectModel>, k: nat)
    requires
        ids_distinct(nodes),
        names_distinct(nodes),
        k <= nodes.len(),
    ensures
        sink_stage_ok(nodes, sink_chains(nodes, k), k as int),
    decreases k,
{
    reveal_strlit("Audio/Sink");
    reveal_strlit("Audio/Source/Virtual");
    reveal_strlit("Stream/Output/Audio");
    if k > 0 {
        lemma_sink_chains(nodes, (k - 1) as nat);
        let st = sink_chains(nodes, (k - 1) as nat);
        let n = nodes[k - 1];
        let st2 = sink_chains(nodes, k);
        assert forall|t: int| 0 <= t < st.chains.len() implies sink_shaped_within(nodes, #[trigger] st.chains[t], k as int) by {
            let c = st.chains[t];
            assert(sink_shaped_within(nodes, c, k - 1));
            let (p, q) = choose|p: int, q: int|
                0 <= p < k - 1 && 0 <= q < nodes.len() && (#[trigger] nodes[p]).id == c.input_id && (
                #[trigger] nodes[q]).id == c.output_id && nodes[p].prop("node.name"@) == Some(c.name) && (
                nodes[p].prop("media.class"@) == Some("Audio/Sink"@) || nodes[p].prop("media.class"@) == Some(
                    "Audio/Source/Virtual"@,
                )) && nodes[q].prop("node.name"@) == Some(c.name + ".output"@) && nodes[q].prop("media.class"@)
                    == Some("Stream/Output/Audio"@);
        }
        if st2 != st {
            let mc = n.prop("media.class"@)->0;
            let name = n.prop("node.name"@)->0;
            let o = last_named(nodes, name + ".output"@)->0;
            assert(st2 == sink_chain_step(nodes, st, n));
            assert(st2 == with_chain(st, name, n.id, o.id));
            assert(or_empty(o.prop("media.class"@)) == "Stream/Output/Audio"@);
            assert(mc == "Audio/Sink"@ || mc == "Audio/Source/Virtual"@);
            assert(o.prop("media.class"@) is Some) by {
                if o.prop("media.class"@) is None {
                    assert(or_empty(o.prop("media.class"@)).len() == 0);
                }
            }
            lemma_last_named(nodes, name + ".output"@);
            let q0 = choose|q: int|
                0 <= q < nodes.len() && #[trigger] nodes[q] == o && o.prop("node.name"@) == Some(name + ".output"@);
            assert(o.prop("media.class"@) == Some("Stream/Output/Audio"@));
            assert("Audio/Sink"@.len() == 10 && "Audio/Source/Virtual"@.len() == 20 && "Stream/Output/Audio"@.len()
                == 19);
            assert(mc != "Stream/Output/Audio"@);
            assert(n.id != o.id) by {
                if n.id == o.id {
                    assert(nodes[k - 1].id == nodes[q0].id);
                    assert(k - 1 == q0);
                    assert(n == o);
                }
            }
            assert(!st.used.contains(o.id)) by {
                lemma_chain_ids_member(st.chains, o.id);
                if st.used.contains(o.id) {
                    let t = choose|t: int|
                        0 <= t < st.chains.len() && ((#[trigger] st.chains[t]).input_id == o.id
                            || st.chains[t].output_id == o.id);
                    let c = st.chains[t];
                    assert(sink_shaped_within(nodes, c, k - 1));
                    let (p, q) = choose|p: int, q: int|
                        0 <= p < k - 1 && 0 <= q < nodes.len() && (#[trigger] nodes[p]).id == c.input_id && (
                        #[trigger] nodes[q]).id == c.output_id && nodes[p].prop("node.name"@) == Some(c.name) && (
                        nodes[p].prop("media.class"@) == Some("Audio/Sink"@) || nodes[p].prop("media.class"@) == Some(
                            "Audio/Source/Virtual"@,
                        )) && nodes[q].prop("node.name"@) == Some(c.name + ".output"@) && nodes[q].prop(
                            "media.class"@,
                        ) == Some("Stream/Output/Audio"@);
                    if c.input_id == o.id {
                        assert(nodes[p].id == nodes[q0].id);
                        assert(p == q0);
                        assert(nodes[p].prop("media.class"@) != Some("Stream/Output/Audio"@));
                    } else {
                        assert(nodes[q].id == nodes[q0].id);
                        assert(q == q0);
                        lemma_suffix_cancel(c.name, name, ".output"@);
                        assert(nodes[p].prop("node.name"@) == nodes[k - 1].prop("node.name"@));
                    }
                }
            }
            lemma_push_two_distinct(st.used, n.id, o.id);
            assert(st2.chains.drop_last() =~= st.chains);
            assert forall|t: int| 0 <= t < st2.chains.len() implies sink_shaped_within(
                nodes,
                #[trigger] st2.chains[t],
                k as int,
            ) by {
                if t < st.chains.len() {
                    assert(st2.chains[t] == st.chains[t]);
                } else {
                    let c = st2.chains[t];
                    assert(nodes[(k - 1) as int].id == c.input_id && nodes[q0].id == c.output_id);
                }
            }
        }
    }
}

/// What both patterns have found after the first `k` nodes of the second:
/// each node id at most once, every chain a sink chain or a processing
/// chain.
pub open spec fn chain_stage_ok(nodes: Seq<ObjectModel>, st: ChainState) -> bool {
    &&& st.used == chain_ids(st.chains)
    &&& st.used.no_duplicates()
    &&& forall|t: int|
        0 <= t < st.chains.len() ==> sink_shaped(nodes, #[trigger] st.chains[t]) || proc_shaped(nodes, st.chains[t])
}

#[verifier::spinoff_prover]
proof fn lemma_proc_chains(nodes: Seq<ObjectModel>, st0: ChainState, k: nat)
    requires
        ids_distinct(nodes),
        chain_stage_ok(nodes, st0),
        k <= nodes.len(),
    ensures
        chain_stage_ok(nodes, proc_chains(nodes, st0, k)),
    decreases k,
{
    reveal_strlit("_input.proc");
    reveal_strlit("_output.proc");
    if k > 0 {
        lemma_proc_chains(nodes, st0, (k - 1) as nat);
        let st = proc_chains(nodes, st0, (k - 1) as nat);
        let st2 = proc_chains(nodes, st0, k);
        let n = nodes[k - 1];
        if st2 != st {
            let name = n.prop("node.name"@)->0;
            let base = name.take(name.len() - "_input.proc"@.len());
            let o = last_named(nodes, base + "_output.proc"@)->0;
            assert(st2 == with_chain(st, base, n.id, o.id));
            lemma_last_named(nodes, base + "_output.proc"@);
            let q0 = choose|q: int|
                0 <= q < nodes.len() && #[trigger] nodes[q] == o && o.prop("node.name"@) == Some(base + "_output.proc"@);
            assert(name =~= base + "_input.proc"@) by {
                assert(name.skip(name.len() - "_input.proc"@.len()) == "_input.proc"@);
            }
            assert(n.id != o.id) by {
                if n.id == o.id {
                    assert(nodes[k - 1].id == nodes[q0].id);
                    assert((base + "_input.proc"@)[base.len() as int + 1] == 'i');
                    assert((base + "_output.proc"@)[base.len() as int + 1] == 'o');
                }
            }
            lemma_push_two_distinct(st.used, n.id, o.id);
            assert(st2.chains.drop_last() =~= st.chains);
            assert forall|t: int| 0 <= t < st2.chains.len() implies sink_shaped(nodes, #[trigger] st2.chains[t])
                || proc_shaped(nodes, st2.chains[t]) by {
                if t < st.chains.len() {
                    assert(st2.chains[t] == st.chains[t]);
                } else {
                    let c = st2.chains[t];
                    assert(nodes[(k - 1) as int].id == c.input_id && nodes[q0].id == c.output_id);
                }
            }
        }
    }
}

/// Where the listed nodes have distinct ids and distinct names, filter-chain
/// detection uses no node twice (no id occurs twice among the inputs and
/// outputs of the chains), and each chain has one of the two shapes: an
/// `Audio/Sink` or `Audio/Source/Virtual` node `name` with its
/// `Stream/Output/Audio` node `name.output`, or the nodes `name_input.proc`
/// and `name_output.proc`.
#[verifier::spinoff_prover]
pub proof fn lemma_filter_chains_use_each_node_once(nodes: Seq<ObjectModel>)
    requires
        ids_distinct(nodes),
        names_distinct(nodes),
    ensures
        chain_ids(filter_chains(nodes)).no_duplicates(),
        forall|t: int|
            0 <= t < filter_chains(nodes).len() ==> sink_shaped(nodes, #[trigger] filter_chains(nodes)[t]) || proc_shaped(
                nodes,
                filter_chains(nodes)[t],
            ),
{
    let st0 = sink_chains(nodes, nodes.len());
    lemma_sink_chains(nodes, nodes.len());
    assert(chain_stage_ok(nodes, st0));
    lemma_proc_chains(nodes, st0, nodes.len());
}


/// Lines laid end to end, in order.
pub open spec fn join_lines(ls: Seq<Seq<char>>) -> Seq<char>
    decreases ls.len(),
{
    if ls.len() == 0 {
        seq![]
    } else {
        join_lines(ls.drop_last()) + ls.last()
    }
}

/// `s` holds no space.
pub open spec fn no_space(s: Seq<char>) -> bool {
    forall|i: int| 0 <= i < s.len() ==> s[i] != ' '
}

proof fn lemma_decimal_no_space(n: nat)
    ensures
        no_space(decimal(n)),
    decreases n,
{
    if n >= 10 {
        lemma_decimal_no_space(n / 10);
        let d = decimal(n / 10);
        assert forall|i: int| 0 <= i < decimal(n).len() implies decimal(n)[i] != ' ' by {
            if i < d.len() {
                assert(decimal(n)[i] == d[i]);
            } else {
                assert(decimal(n)[i] == crate::text::digit_char(n % 10));
            }
        }
    }
}

proof fn lemma_prefixed_no_space(p: Seq<char>, d: Seq<char>)
    requires
        no_space(p),
        no_space(d),
    ensures
        no_space(p + d),
{
    assert forall|i: int| 0 <= i < (p + d).len() implies (p + d)[i] != ' ' by {
        if i < p.len() {
            assert((p + d)[i] == p[i]);
        } else {
            assert((p + d)[i] == d[i - p.len()]);
        }
    }
}

/// A graph node's name holds no space.
proof fn lemma_graph_name_no_space(cs: Seq<ChainModel>, id: u32)
    ensures
        no_space(graph_name(cs, id)),
{
    reveal_strlit("node_");
    reveal_strlit("chain_");
    lemma_graph_name(cs, id);
    if in_chain(cs, id) {
        let j = choose|j: int|
            0 <= j < cs.len() && (cs[j].input_id == id || cs[j].output_id == id) && #[trigger] graph_name(cs, id)
                == "chain_"@ + decimal(cs[j].input_id as nat);
        lemma_decimal_no_space(cs[j].input_id as nat);
        lemma_prefixed_no_space("chain_"@, decimal(cs[j].input_id as nat));
    } else {
        lemma_decimal_no_space(id as nat);
        lemma_prefixed_no_space("node_"@, decimal(id as nat));
    }
}

/// Two edge lines whose first names hold no space are the same line only for
/// the same edge.
#[verifier::spinoff_prover]
proof fn lemma_edge_line_injective(e1: (Seq<char>, Seq<char>), e2: (Seq<char>, Seq<char>))
    requires
        no_space(e1.0),
        no_space(e2.0),
        edge_line(e1) == edge_line(e2),
    ensures
        e1 == e2,
{
    reveal_strlit("        ");
    reveal_strlit(" -> ");
    reveal_strlit(";\n");
    let l1 = edge_line(e1);
    let l2 = edge_line(e2);
    let (a1, b1) = e1;
    let (a2, b2) = e2;
    assert(l1 == "        "@ + a1 + " -> "@ + b1 + ";\n"@);
    assert(l2 == "        "@ + a2 + " -> "@ + b2 + ";\n"@);
    if a1.len() < a2.len() {
        let k: int = 8 + a1.len() as int;
        assert(l1[k] == ' ');
        assert(l2[k] == a2[a1.len() as int]);
    } else if a2.len() < a1.len() {
        let k: int = 8 + a2.len() as int;
        assert(l2[k] == ' ');
        assert(l1[k] == a1[a2.len() as int]);
    }
    assert(a1.len() == a2.len());
    assert forall|i: int| 0 <= i < a1.len() implies a1[i] == a2[i] by {
        assert(l1[8 + i] == a1[i]);
        assert(l2[8 + i] == a2[i]);
    }
    assert(a1 =~= a2);
    let m: int = 8 + a1.len() as int + 4;
    assert(l1.skip(m) =~= b1 + ";\n"@);
    assert(l2.skip(m) =~= b2 + ";\n"@);
    lemma_suffix_cancel(b1, b2, ";\n"@);
}

/// The Links section of the graph, line by line: it stands in the graph as
/// `// Links` followed by one line `A -> B;` per edge; no two of its lines
/// are the same; and each line joins the graph nodes of two audio nodes
/// (`node_<id>`, or `chain_<input id>` for a member of a filter chain, see
/// [`lemma_graph_name`]) that differ.
#[verifier::spinoff_prover]
#[verifier::rlimit(40)]
pub proof fn lemma_links_section(items: Seq<GraphModel>)
    ensures
        ({
            let nodes = audio_nodes(items);
            let cs = filter_chains(nodes);
            let es = edges(items, nodes, cs, items.len());
            let ls = es.map_values(|e: (Seq<char>, Seq<char>)| edge_line(e));
            &&& exists|pre: Seq<char>, post: Seq<char>|
                #[trigger] dot_graph(items) == pre + "        // Links\n"@ + join_lines(ls) + post
            &&& forall|i: int, j: int| 0 <= i < j < ls.len() ==> #[trigger] ls[i] != #[trigger] ls[j]
            &&& forall|i: int|
                0 <= i < ls.len() ==> exists|a: u32, b: u32|
                    has_id(nodes, a) && has_id(nodes, b) && graph_name(cs, a) != graph_name(cs, b)
                        && #[trigger] ls[i] == "        "@ + graph_name(cs, a) + " -> "@ + graph_name(cs, b)
                        + ";\n"@
        }),
{
    let nodes = audio_nodes(items);
    let cs = filter_chains(nodes);
    let es = edges(items, nodes, cs, items.len());
    let ls = es.map_values(|e: (Seq<char>, Seq<char>)| edge_line(e));
    lemma_edge_lines_join(es);
    lemma_edges_distinct(items, nodes, cs, items.len());
    lemma_edge_ends_are_audio_nodes(items, nodes, cs, items.len());
    let clients = shown_clients(items, client_ids(nodes, nodes.len()));
    let pre = graph_header() + devices_section(audio_devices(items)) + cluster_header() + clients_section(clients)
        + chains_section(cs) + nodes_section(nodes, cs);
    let post = "\n        // Client connections\n"@ + node_client_edges(nodes, cs, shown_ids(clients), nodes.len())
        + chain_client_edges(nodes, cs, shown_ids(clients), cs.len()) + "    }\n\n"@ + rank_section(
        sink_names(nodes, cs),
    ) + "}\n"@;
    assert(dot_graph(items) =~= pre + "        // Links\n"@ + join_lines(ls) + post);
    assert forall|i: int, j: int| 0 <= i < j < ls.len() implies #[trigger] ls[i] != #[trigger] ls[j] by {
        if ls[i] == ls[j] {
            let (a, b) = choose|a: u32, b: u32|
                has_id(nodes, a) && has_id(nodes, b) && #[trigger] es[i] == (graph_name(cs, a), graph_name(cs, b));
            let (c, d) = choose|a: u32, b: u32|
                has_id(nodes, a) && has_id(nodes, b) && #[trigger] es[j] == (graph_name(cs, a), graph_name(cs, b));
            lemma_graph_name_no_space(cs, a);
            lemma_graph_name_no_space(cs, c);
            lemma_edge_line_injective(es[i], es[j]);
        }
    }
    assert forall|i: int| 0 <= i < ls.len() implies exists|a: u32, b: u32|
        has_id(nodes, a) && has_id(nodes, b) && graph_name(cs, a) != graph_name(cs, b) && #[trigger] ls[i]
            == "        "@ + graph_name(cs, a) + " -> "@ + graph_name(cs, b) + ";\n"@ by {
        let (a, b) = choose|a: u32, b: u32|
            has_id(nodes, a) && has_id(nodes, b) && #[trigger] es[i] == (graph_name(cs, a), graph_name(cs, b));
        assert(es[i].0 != es[i].1);
        assert(ls[i] == edge_line(es[i]));
    }
}

proof fn lemma_edge_lines_join(es: Seq<(Seq<char>, Seq<char>)>)
    ensures
        edge_lines(es) == join_lines(es.map_values(|e: (Seq<char>, Seq<char>)| edge_line(e))),
    decreases es.len(),
{
    if es.len() > 0 {
        lemma_edge_lines_join(es.drop_last());
        assert(es.map_values(|e: (Seq<char>, Seq<char>)| edge_line(e)).drop_last() =~= es.drop_last().map_values(
            |e: (Seq<char>, Seq<char>)| edge_line(e),
        ));
    }
}

/// No member of a filter chain is drawn as a node of its own: the Audio
/// Nodes lines are those of the audio nodes outside every chain, in order.
pub proof fn lemma_node_lines_skip_chain_members(nodes: Seq<ObjectModel>, cs: Seq<ChainModel>)
    ensures
        node_lines(nodes, cs) == join_lines(
            nodes.filter(|n: ObjectModel| !in_chain(cs, n.id)).map_values(|n: ObjectModel| node_line(n)),
        ),
    decreases nodes.len(),
{
    reveal(Seq::filter);
    let p = |n: ObjectModel| !in_chain(cs, n.id);
    if nodes.len() > 0 {
        lemma_node_lines_skip_chain_members(nodes.drop_last(), cs);
        let f = nodes.drop_last().filter(p);
        if p(nodes.last()) {
            assert(nodes.filter(p) == f.push(nodes.last()));
            assert(f.push(nodes.last()).map_values(|n: ObjectModel| node_line(n)).drop_last() =~= f.map_values(
                |n: ObjectModel| node_line(n),
            ));
        } else {
            assert(nodes.filter(p) == f);
        }
    }
}


/// How media classes colour and rank nodes (read in lower case): a class
/// naming a sink or playback is a light blue sink; one naming a source or
/// capture but no sink or playback is a light green source; a node with no
/// media class is a white filter.
pub proof fn lemma_node_style_by_class(c: Seq<char>)
    ensures
        contains_seq(lower_text(c), "sink"@) || contains_seq(lower_text(c), "playback"@) ==> node_style(Some(c))
            == ("lightblue"@, NodeCategory::Sink),
        !contains_seq(lower_text(c), "sink"@) && !contains_seq(lower_text(c), "playback"@) && (contains_seq(
            lower_text(c),
            "source"@,
        ) || contains_seq(lower_text(c), "capture"@)) ==> node_style(Some(c)) == ("lightgreen"@, NodeCategory::Source),
        !contains_seq(lower_text(c), "sink"@) && !contains_seq(lower_text(c), "playback"@) && !contains_seq(
            lower_text(c),
            "source"@,
        ) && !contains_seq(lower_text(c), "capture"@) && contains_seq(lower_text(c), "filter"@) ==> node_style(
            Some(c),
        ) == ("lightyellow"@, NodeCategory::Filter),
        !contains_seq(lower_text(c), "sink"@) && !contains_seq(lower_text(c), "playback"@) && !contains_seq(
            lower_text(c),
            "source"@,
        ) && !contains_seq(lower_text(c), "capture"@) && !contains_seq(lower_text(c), "filter"@) && contains_seq(
            lower_text(c),
            "stream/output"@,
        ) ==> node_style(Some(c)) == ("paleturquoise"@, NodeCategory::Sink),
        !contains_seq(lower_text(c), "sink"@) && !contains_seq(lower_text(c), "playback"@) && !contains_seq(
            lower_text(c),
            "source"@,
        ) && !contains_seq(lower_text(c), "capture"@) && !contains_seq(lower_text(c), "filter"@) && !contains_seq(
            lower_text(c),
            "stream/output"@,
        ) && contains_seq(lower_text(c), "stream/input"@) ==> node_style(Some(c)) == ("palegreen"@, NodeCategory::Source),
        node_style(None) == ("white"@, NodeCategory::Filter),
{
}

proof fn lemma_digits_value_decimal(n: nat)
    ensures
        crate::text::digits_value(decimal(n)) == n,
    decreases n,
{
    let d = n % 10;
    let c = crate::text::digit_char(d);
    assert(c as u32 == d + 48);
    assert(crate::text::digit_value(c) == d);
    if n >= 10 {
        lemma_digits_value_decimal(n / 10);
        assert(decimal(n) == decimal(n / 10).push(c));
        assert(decimal(n).drop_last() =~= decimal(n / 10));
        assert(decimal(n).last() == c);
        assert(crate::text::digits_value(decimal(n)) == crate::text::digits_value(decimal(n / 10)) * 10
            + crate::text::digit_value(c));
        assert(n == (n / 10) * 10 + d);
    } else {
        assert(decimal(n) == seq![c]);
        assert(decimal(n).drop_last() =~= Seq::<char>::empty());
        assert(crate::text::digits_value(decimal(n)) == crate::text::digits_value(Seq::<char>::empty()) * 10
            + crate::text::digit_value(c));
    }
}

proof fn lemma_node_name_injective(a: u32, b: u32)
    requires
        "node_"@ + decimal(a as nat) == "node_"@ + decimal(b as nat),
    ensures
        a == b,
{
    let p = "node_"@;
    assert(("node_"@ + decimal(a as nat)).skip(p.len() as int) =~= decimal(a as nat));
    assert(("node_"@ + decimal(b as nat)).skip(p.len() as int) =~= decimal(b as nat));
    lemma_digits_value_decimal(a as nat);
    lemma_digits_value_decimal(b as nat);
}

/// Node `j` of `nodes` is outside the chains, ranked as a sink, and named
/// `name` in the graph.
pub open spec fn ranked_sink_of(nodes: Seq<ObjectModel>, cs: Seq<ChainModel>, name: Seq<char>, j: int) -> bool {
    0 <= j < nodes.len() && !in_chain(cs, nodes[j].id) && node_style(nodes[j].prop("media.class"@)).1
        == NodeCategory::Sink && name == "node_"@ + decimal(nodes[j].id as nat)
}

proof fn lemma_sink_name_at(nodes: Seq<ObjectModel>, cs: Seq<ChainModel>, i: int)
    requires
        0 <= i < sink_names(nodes, cs).len(),
    ensures
        exists|j: int| #[trigger] ranked_sink_of(nodes, cs, sink_names(nodes, cs)[i], j),
    decreases nodes.len(),
{
    let d = nodes.drop_last();
    let r = sink_names(nodes, cs);
    let rd = sink_names(d, cs);
    if i < rd.len() {
        lemma_sink_name_at(d, cs, i);
        assert(r[i] == rd[i]);
        let j = choose|j: int| #[trigger] ranked_sink_of(d, cs, rd[i], j);
        assert(nodes[j] == d[j]);
        assert(ranked_sink_of(nodes, cs, r[i], j));
    } else {
        let n = nodes.last();
        assert(r == rd.push("node_"@ + decimal(n.id as nat)));
        assert(nodes[nodes.len() - 1] == n);
        assert(ranked_sink_of(nodes, cs, r[i], nodes.len() - 1));
    }
}

/// `name` is the graph name of an audio node outside the chains whose media
/// class ranks it as a sink.
pub open spec fn names_ranked_sink(nodes: Seq<ObjectModel>, cs: Seq<ChainModel>, name: Seq<char>) -> bool {
    exists|j: int| #[trigger] ranked_sink_of(nodes, cs, name, j)
}

/// Every name in the sinks' rank line is that of an audio node outside the
/// chains whose media class ranks it as a sink.
pub proof fn lemma_sink_names_are_sinks(nodes: Seq<ObjectModel>, cs: Seq<ChainModel>)
    ensures
        forall|i: int|
            0 <= i < sink_names(nodes, cs).len() ==> names_ranked_sink(nodes, cs, #[trigger] sink_names(nodes, cs)[i]),
{
    assert forall|i: int| 0 <= i < sink_names(nodes, cs).len() implies names_ranked_sink(
        nodes,
        cs,
        #[trigger] sink_names(nodes, cs)[i],
    ) by {
        lemma_sink_name_at(nodes, cs, i);
    }
}

/// A source node is never ranked with the sinks: where node ids are
/// distinct, an audio node whose media class names a source or capture but
/// no sink or playback is not in the sinks' rank line.
pub proof fn lemma_sources_not_ranked_as_sinks(nodes: Seq<ObjectModel>, cs: Seq<ChainModel>, k: int)
    requires
        ids_distinct(nodes),
        0 <= k < nodes.len(),
        nodes[k].prop("media.class"@) is Some,
        ({
            let l = lower_text(nodes[k].prop("media.class"@)->0);
            !contains_seq(l, "sink"@) && !contains_seq(l, "playback"@) && (contains_seq(l, "source"@)
                || contains_seq(l, "capture"@))
        }),
    ensures
        !sink_names(nodes, cs).contains("node_"@ + decimal(nodes[k].id as nat)),
{
    lemma_sink_names_are_sinks(nodes, cs);
    lemma_node_style_by_class(nodes[k].prop("media.class"@)->0);
    let sn = sink_names(nodes, cs);
    if sn.contains("node_"@ + decimal(nodes[k].id as nat)) {
        let i = choose|i: int| 0 <= i < sn.len() && sn[i] == "node_"@ + decimal(nodes[k].id as nat);
        assert(names_ranked_sink(nodes, cs, sn[i]));
        let j = choose|j: int| #[trigger] ranked_sink_of(nodes, cs, sn[i], j);
        lemma_node_name_injective(nodes[j].id, nodes[k].id);
        assert(nodes[j].id == nodes[k].id);
        assert(j == k);
    }
}


/// Which objects the graph draws as audio: every object classified as
/// audio; no object classified as MIDI, video, link, port, client, driver or
/// other; of the unclassified, none whose node name (in lower case) names
/// MIDI or a driver, every one whose name names ALSA, SpeakerEQ, RIAA, an
/// output, input, sink or source, and otherwise the nodes and devices.
pub proof fn lemma_is_audio_by_class(o: ObjectModel, class: NodeTypeClassification)
    ensures
        class == NodeTypeClassification::Audio ==> is_audio(o, class),
        class != NodeTypeClassification::Audio && class != NodeTypeClassification::Unknown ==> !is_audio(o, class),
        class == NodeTypeClassification::Unknown && o.prop("node.name"@) is Some && (contains_seq(
            lower_text(o.prop("node.name"@)->0),
            "midi"@,
        ) || contains_seq(lower_text(o.prop("node.name"@)->0), "driver"@)) ==> !is_audio(o, class),
        class == NodeTypeClassification::Unknown && o.prop("node.name"@) is Some && ({
            let l = lower_text(o.prop("node.name"@)->0);
            &&& !contains_seq(l, "midi"@)
            &&& !contains_seq(l, "driver"@)
            &&& contains_seq(l, "alsa"@) || contains_seq(l, "speakereq"@) || contains_seq(l, "riaa"@) || contains_seq(
                l,
                "output"@,
            ) || contains_seq(l, "input"@) || contains_seq(l, "sink"@) || contains_seq(l, "source"@)
        }) ==> is_audio(o, class),
        class == NodeTypeClassification::Unknown && o.prop("node.name"@) is None ==> (is_audio(o, class) <==> (
        o.object_type == "Node"@ || o.object_type == "Device"@)),
{
}

} // verus!
