//! Link endpoints that apply rules through the PipeWire registry: the links
//! they list and what they answer for the rules they applied.
use vstd::prelude::*;
use crate::graph::join;
use crate::linker::{LinkRule, opt_view, props_view};
use crate::pwcli::lookup;
use crate::text::{decimal, push_decimal, push_str_chars};

verus! {

#[verifier::external_type_specification]
#[verifier::external_body]
pub struct ExJsonValue(serde_json::Value);

/// Answer for one link rule.
#[derive(Debug)]
pub struct LinkResponse {
    pub success: bool,
    pub message: String,
    pub details: Option<serde_json::Value>,
}

/// Request to apply several link rules in sequence.
#[derive(Debug)]
pub struct BatchLinkRequest {
    pub rules: Vec<LinkRule>,
}

/// Answer for a batch of link rules.
#[derive(Debug)]
pub struct BatchLinkResponse {
    pub total: usize,
    pub successful: usize,
    pub failed: usize,
    pub results: Vec<LinkResponse>,
}

/// An active link, with the names of the nodes it joins where known.
#[derive(Debug, Clone)]
pub struct LinkInfo {
    pub id: u32,
    pub output_node_id: u32,
    pub output_port_id: u32,
    pub input_node_id: u32,
    pub input_port_id: u32,
    pub output_node_name: Option<String>,
    pub input_node_name: Option<String>,
}

/// A property read as a `u32`, 0 where it is missing or no number.
pub open spec fn id_or_zero(props: Seq<(Seq<char>, Seq<char>)>, key: Seq<char>) -> u32 {
    match lookup(props, key) {
        Some(v) => match crate::text::parse_u32_spec(v) {
            Some(n) => n,
            None => 0,
        },
        None => 0,
    }
}

fn read_id(props: &[(String, String)], key: &str) -> (r: u32)
    ensures
        r == id_or_zero(props_view(props@), key@),
{
    match crate::linker::prop_get(props, key) {
        Some(v) => match crate::link_manager_cli::parse_u32_str(v) {
            Some(n) => n,
            None => 0,
        },
        None => 0,
    }
}

/// The link the registry announced with `id` and `props`: its nodes and
/// ports (0 where a property is missing), names not filled in yet.
pub fn registry_link(id: u32, props: &[(String, String)]) -> (r: LinkInfo)
    ensures
        r.id == id,
        r.output_node_id == id_or_zero(props_view(props@), "link.output.node"@),
        r.output_port_id == id_or_zero(props_view(props@), "link.output.port"@),
        r.input_node_id == id_or_zero(props_view(props@), "link.input.node"@),
        r.input_port_id == id_or_zero(props_view(props@), "link.input.port"@),
        r.output_node_name is None,
        r.input_node_name is None,
{
    LinkInfo {
        id,
        output_node_id: read_id(props, "link.output.node"),
        output_port_id: read_id(props, "link.output.port"),
        input_node_id: read_id(props, "link.input.node"),
        input_port_id: read_id(props, "link.input.port"),
        output_node_name: None,
        input_node_name: None,
    }
}

pub open spec fn names_view(ns: Seq<(u32, String)>) -> Seq<(u32, Seq<char>)> {
    ns.map_values(|n: (u32, String)| (n.0, n.1@))
}

/// The name of node `id`: the last name announced for it.
pub open spec fn node_name(names: Seq<(u32, Seq<char>)>, id: u32) -> Option<Seq<char>>
    decreases names.len(),
{
    if names.len() == 0 {
        None
    } else if names.last().0 == id {
        Some(names.last().1)
    } else {
        node_name(names.drop_last(), id)
    }
}

fn name_of(names: &[(u32, String)], id: u32) -> (r: Option<String>)
    ensures
        opt_view(r) == node_name(names_view(names@), id),
{
    let ghost nv = names_view(names@);
    let mut j: usize = names.len();
    assert(nv.take(j as int) =~= nv);
    while j > 0
        invariant
            j <= names.len(),
            nv == names_view(names@),
            node_name(nv, id) == node_name(nv.take(j as int), id),
        decreases j,
    {
        assert(nv.take(j as int).last() == (names@[j - 1].0, names@[j - 1].1@));
        assert(nv.take(j as int).drop_last() =~= nv.take(j - 1));
        if names[j - 1].0 == id {
            return Some(names[j - 1].1.clone());
        }
        j = j - 1;
    }
    None
}

/// Fill in the names of the nodes each link joins, from the node names the
/// registry announced (the last one announced for a node counts).
pub fn name_links(links: Vec<LinkInfo>, names: &[(u32, String)]) -> (r: Vec<LinkInfo>)
    ensures
        r@.len() == links@.len(),
        forall|k: int|
            0 <= k < r@.len() ==> {
                let l = #[trigger] r@[k];
                let o = links@[k];
                &&& l.id == o.id
                &&& l.output_node_id == o.output_node_id
                &&& l.output_port_id == o.output_port_id
                &&& l.input_node_id == o.input_node_id
                &&& l.input_port_id == o.input_port_id
                &&& opt_view(l.output_node_name) == node_name(names_view(names@), o.output_node_id)
                &&& opt_view(l.input_node_name) == node_name(names_view(names@), o.input_node_id)
            },
{
    let mut out: Vec<LinkInfo> = Vec::new();
    let mut k: usize = 0;
    while k < links.len()
        invariant
            k <= links.len(),
            out@.len() == k,
            forall|j: int|
                0 <= j < k ==> {
                    let l = #[trigger] out@[j];
                    let o = links@[j];
                    &&& l.id == o.id
                    &&& l.output_node_id == o.output_node_id
                    &&& l.output_port_id == o.output_port_id
                    &&& l.input_node_id == o.input_node_id
                    &&& l.input_port_id == o.input_port_id
                    &&& opt_view(l.output_node_name) == node_name(names_view(names@), o.output_node_id)
                    &&& opt_view(l.input_node_name) == node_name(names_view(names@), o.input_node_id)
                },
        decreases links.len() - k,
    {
        let l = &links[k];
        out.push(
            LinkInfo {
                id: l.id,
                output_node_id: l.output_node_id,
                output_port_id: l.output_port_id,
                input_node_id: l.input_node_id,
                input_port_id: l.input_port_id,
                output_node_name: name_of(names, l.output_node_id),
                input_node_name: name_of(names, l.input_node_id),
            },
        );
        k = k + 1;
    }
    out
}

pub open spec fn strings_view(ss: Seq<String>) -> Seq<Seq<char>> {
    ss.map_values(|s: String| s@)
}

fn join_strings(ss: &[String], sep: &str) -> (r: String)
    ensures
        r@ == join(strings_view(ss@), sep@),
{
    let ghost sv = strings_view(ss@);
    let mut r = String::new();
    let mut k: usize = 0;
    while k < ss.len()
        invariant
            k <= ss.len(),
            sv == strings_view(ss@),
            r@ == join(sv.take(k as int), sep@),
        decreases ss.len() - k,
    {
        assert(sv.take(k + 1).drop_last() =~= sv.take(k as int));
        assert(sv.take(k + 1).last() == ss@[k as int]@);
        if k > 0 {
            push_str_chars(&mut r, sep);
        }
        push_str_chars(&mut r, ss[k].as_str());
        assert(r@ =~= join(sv.take(k + 1), sep@));
        k = k + 1;
    }
    assert(sv.take(sv.len() as int) =~= sv);
    r
}

/// The message for rule number `number` (counted from 1), labelled `label`
/// (`Rule`, `Default rule`), that applied with `messages`.
pub open spec fn applied_message(label: Seq<char>, number: nat, messages: Seq<Seq<char>>) -> Seq<char> {
    if join(messages, "; "@).len() == 0 {
        label + " "@ + decimal(number) + " applied successfully"@
    } else {
        label + " "@ + decimal(number) + ": "@ + join(messages, "; "@)
    }
}

/// The message for rule number `number` that failed with `error`.
pub open spec fn failed_message(label: Seq<char>, number: nat, error: Seq<char>) -> Seq<char> {
    label + " "@ + decimal(number) + " failed: "@ + error
}

/// The answer for rule number `number` (counted from 1), given what applying
/// it came to: its messages, or its error.
pub fn rule_response(label: &str, number: usize, outcome: &Result<Vec<String>, String>) -> (r: LinkResponse)
    ensures
        r.details is None,
        match outcome {
            Ok(ms) => r.success && r.message@ == applied_message(label@, number as nat, strings_view(ms@)),
            Err(e) => !r.success && r.message@ == failed_message(label@, number as nat, e@),
        },
{
    let mut m = String::new();
    push_str_chars(&mut m, label);
    push_str_chars(&mut m, " ");
    push_decimal(&mut m, number as u64);
    match outcome {
        Ok(ms) => {
            let joined = join_strings(ms.as_slice(), "; ");
            if joined.as_str().unicode_len() == 0 {
                push_str_chars(&mut m, " applied successfully");
            } else {
                push_str_chars(&mut m, ": ");
                push_str_chars(&mut m, joined.as_str());
            }
            LinkResponse { success: true, message: m, details: None }
        },
        Err(e) => {
            push_str_chars(&mut m, " failed: ");
            push_str_chars(&mut m, e.as_str());
            LinkResponse { success: false, message: m, details: None }
        },
    }
}

pub open spec fn successes(outcomes: Seq<Result<Vec<String>, String>>) -> nat
    decreases outcomes.len(),
{
    if outcomes.len() == 0 {
        0
    } else {
        successes(outcomes.drop_last()) + if outcomes.last() is Ok {
            1nat
        } else {
            0nat
        }
    }
}

/// The answer for a batch of rules, given what applying each came to, in
/// order: one answer per rule, numbered from 1, and the counts.
pub fn batch_response(label: &str, outcomes: &[Result<Vec<String>, String>]) -> (r: BatchLinkResponse)
    ensures
        r.total == outcomes@.len(),
        r.successful == successes(outcomes@),
        r.successful + r.failed == r.total,
        r.results@.len() == outcomes@.len(),
        forall|k: int| 0 <= k < outcomes@.len() ==> (#[trigger] r.results@[k]).details is None,
        forall|k: int|
            0 <= k < outcomes@.len() ==> match #[trigger] outcomes@[k] {
                Ok(ms) => r.results@[k].success && r.results@[k].message@ == applied_message(
                    label@,
                    (k + 1) as nat,
                    strings_view(ms@),
                ),
                Err(e) => !r.results@[k].success && r.results@[k].message@ == failed_message(
                    label@,
                    (k + 1) as nat,
                    e@,
                ),
            },
{
    let mut results: Vec<LinkResponse> = Vec::new();
    let mut successful: usize = 0;
    let mut failed: usize = 0;
    let mut k: usize = 0;
    while k < outcomes.len()
        invariant
            k <= outcomes.len(),
            results@.len() == k,
            successful == successes(outcomes@.take(k as int)),
            successful + failed == k,
            forall|j: int| 0 <= j < k ==> (#[trigger] results@[j]).details is None,
            forall|j: int|
                0 <= j < k ==> match #[trigger] outcomes@[j] {
                    Ok(ms) => results@[j].success && results@[j].message@ == applied_message(
                        label@,
                        (j + 1) as nat,
                        strings_view(ms@),
                    ),
                    Err(e) => !results@[j].success && results@[j].message@ == failed_message(
                        label@,
                        (j + 1) as nat,
                        e@,
                    ),
                },
        decreases outcomes.len() - k,
    {
        assert(outcomes@.take(k + 1).drop_last() =~= outcomes@.take(k as int));
        assert(outcomes@.take(k + 1).last() == outcomes@[k as int]);
        let resp = rule_response(label, k + 1, &outcomes[k]);
        if outcomes[k].is_ok() {
            successful = successful + 1;
        } else {
            failed = failed + 1;
        }
        results.push(resp);
        k = k + 1;
    }
    assert(outcomes@.take(outcomes@.len() as int) =~= outcomes@);
    BatchLinkResponse { total: outcomes.len(), successful, failed, results }
}

/// The answer to applying one rule: its messages joined by `; `, or `Link
/// rule applied` where there are none.
pub fn apply_rule_response(messages: &[String]) -> (r: LinkResponse)
    ensures
        r.success,
        r.details is None,
        r.message@ == if join(strings_view(messages@), "; "@).len() == 0 {
            "Link rule applied"@
        } else {
            join(strings_view(messages@), "; "@)
        },
{
    let joined = join_strings(messages, "; ");
    if joined.as_str().unicode_len() == 0 {
        LinkResponse { success: true, message: "Link rule applied".to_owned(), details: None }
    } else {
        LinkResponse { success: true, message: joined, details: None }
    }
}

} // verus!
