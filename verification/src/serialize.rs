//! The serializer: the document AST re-emitted as canonical XML.
//!
//! Serialization has two verified stages with exact contracts: the AST is
//! first laid out as an element tree (`ser_...` spec functions and their
//! executable counterparts), and the element tree is then printed with
//! four-space indentation and self-closing empty tags. The element stage is
//! what the round-trip law speaks about: re-parsing the serialized element
//! tree of a fully serializable document gives the document back.

use vstd::prelude::*;
use crate::ast::Content;
use crate::ast::Data;
use crate::ast::Executable;
use crate::ast::Final;
use crate::ast::Finalize;
use crate::ast::History;
use crate::ast::Initial;
use crate::ast::Invoke;
use crate::ast::Parallel;
use crate::ast::Param;
use crate::ast::Scxml;
use crate::ast::State;
use crate::ast::StateLike;
use crate::ast::Transition;
use crate::ast::SpecContent;
use crate::ast::SpecData;
use crate::ast::SpecExecutable;
use crate::ast::SpecFinal;
use crate::ast::SpecFinalize;
use crate::ast::SpecHistory;
use crate::ast::SpecInitial;
use crate::ast::SpecInvoke;
use crate::ast::SpecParallel;
use crate::ast::SpecParam;
use crate::ast::SpecScxml;
use crate::ast::SpecState;
use crate::ast::SpecStateLike;
use crate::ast::SpecTransition;
use crate::ast::view_content;
use crate::ast::view_data;
use crate::ast::view_data_seq;
use crate::ast::view_exec;
use crate::ast::view_exec_seq;
use crate::ast::view_finalize;
use crate::ast::view_forest;
use crate::ast::view_invoke;
use crate::ast::view_invoke_seq;
use crate::ast::view_param;
use crate::ast::view_param_seq;
use crate::ast::view_parallel;
use crate::ast::view_state;
use crate::ast::view_state_like;
use crate::ast::view_transition;
use crate::ast::view_transition_seq;
use crate::ast::lemma_view_exec_seq;
use crate::ast::lemma_view_transition_seq;
use crate::ast::lemma_view_invoke_seq;
use crate::ast::lemma_view_forest;
use crate::parser::spec_scxml_ns;
use crate::parser::scxml_ns;
use crate::xml::Element;
use crate::xml::SpecElement;
use crate::xml::view_element;
use crate::xml::view_element_seq;
use crate::xml::lemma_view_element_seq;

verus! {

// ---------------------------------------------------------------------------
// Attribute lists
// ---------------------------------------------------------------------------

/// One optional attribute: present exactly when the value is.
pub open spec fn opt_attr(name: Seq<char>, v: Option<Seq<char>>) -> Seq<(Seq<char>, Seq<char>)> {
    match v {
        Some(x) => seq![(name, x)],
        None => Seq::empty(),
    }
}

// ---------------------------------------------------------------------------
// The element form of every AST node
// ---------------------------------------------------------------------------

/// The `<else/>` branch marker.
pub open spec fn else_marker() -> SpecElement {
    SpecElement {
        name: "else"@,
        namespace: Some(spec_scxml_ns()),
        attributes: Seq::empty(),
        children: Seq::empty(),
        text: None,
    }
}

/// The element form of one executable.
pub open spec fn ser_exec_el(x: SpecExecutable) -> SpecElement
    decreases x,
{
    match x {
        SpecExecutable::Raise { event } => SpecElement {
            name: "raise"@,
            namespace: Some(spec_scxml_ns()),
            attributes: seq![("event"@, event)],
            children: Seq::empty(),
            text: None,
        },
        SpecExecutable::If { cond, then, else_ } => SpecElement {
            name: "if"@,
            namespace: Some(spec_scxml_ns()),
            attributes: seq![("cond"@, cond)],
            children: ser_exec_seq(then) + (if else_.len() == 0 {
                Seq::empty()
            } else {
                seq![else_marker()] + ser_exec_seq(else_)
            }),
            text: None,
        },
        SpecExecutable::Foreach { array, item, index, body } => SpecElement {
            name: "foreach"@,
            namespace: Some(spec_scxml_ns()),
            attributes: seq![("array"@, array), ("item"@, item)] + opt_attr("index"@, index),
            children: ser_exec_seq(body),
            text: None,
        },
        SpecExecutable::Send { event, target } => SpecElement {
            name: "send"@,
            namespace: Some(spec_scxml_ns()),
            attributes: seq![("event"@, event)] + opt_attr("target"@, target),
            children: Seq::empty(),
            text: None,
        },
        SpecExecutable::Script { src, content } => SpecElement {
            name: "script"@,
            namespace: Some(spec_scxml_ns()),
            attributes: opt_attr("src"@, src),
            children: Seq::empty(),
            text: content,
        },
        SpecExecutable::Assign { location, expr } => SpecElement {
            name: "assign"@,
            namespace: Some(spec_scxml_ns()),
            attributes: seq![("location"@, location), ("expr"@, expr)],
            children: Seq::empty(),
            text: None,
        },
        SpecExecutable::Log { label, expr } => SpecElement {
            name: "log"@,
            namespace: Some(spec_scxml_ns()),
            attributes: opt_attr("label"@, label) + seq![("expr"@, expr)],
            children: Seq::empty(),
            text: None,
        },
        SpecExecutable::Cancel { sendid } => SpecElement {
            name: "cancel"@,
            namespace: Some(spec_scxml_ns()),
            attributes: seq![("sendid"@, sendid)],
            children: Seq::empty(),
            text: None,
        },
        SpecExecutable::Other(tag) => SpecElement {
            name: tag,
            namespace: Some(spec_scxml_ns()),
            attributes: Seq::empty(),
            children: Seq::empty(),
            text: None,
        },
    }
}

/// The element forms of a list of executables, in order.
pub open spec fn ser_exec_seq(xs: Seq<SpecExecutable>) -> Seq<SpecElement>
    decreases xs,
{
    if xs.len() == 0 {
        Seq::empty()
    } else {
        seq![ser_exec_el(xs[0])] + ser_exec_seq(xs.drop_first())
    }
}

/// The element form of a transition.
pub open spec fn ser_transition_el(t: SpecTransition) -> SpecElement
    decreases t,
{
    SpecElement {
        name: "transition"@,
        namespace: Some(spec_scxml_ns()),
        attributes: opt_attr("event"@, t.event) + opt_attr("cond"@, t.cond) + opt_attr(
            "target"@,
            t.target,
        ) + opt_attr("type"@, t.type_),
        children: ser_exec_seq(t.executables),
        text: None,
    }
}

/// The element forms of a list of transitions, in order.
pub open spec fn ser_transition_seq(ts: Seq<SpecTransition>) -> Seq<SpecElement>
    decreases ts,
{
    if ts.len() == 0 {
        Seq::empty()
    } else {
        seq![ser_transition_el(ts[0])] + ser_transition_seq(ts.drop_first())
    }
}

/// The element form of an `<initial>` pseudo-state.
pub open spec fn ser_initial_el(i: SpecInitial) -> SpecElement {
    SpecElement {
        name: "initial"@,
        namespace: Some(spec_scxml_ns()),
        attributes: opt_attr("id"@, i.id),
        children: seq![ser_transition_el(i.transition)],
        text: None,
    }
}

/// The element form of a history pseudo-state.
pub open spec fn ser_history_el(h: SpecHistory) -> SpecElement {
    SpecElement {
        name: "history"@,
        namespace: Some(spec_scxml_ns()),
        attributes: opt_attr("id"@, h.id) + seq![("type"@, h.type_)],
        children: match h.transition {
            Some(t) => seq![ser_transition_el(t)],
            None => Seq::empty(),
        },
        text: None,
    }
}

/// The element form of a `<param>`.
pub open spec fn ser_param_el(p: SpecParam) -> SpecElement {
    SpecElement {
        name: "param"@,
        namespace: Some(spec_scxml_ns()),
        attributes: seq![("name"@, p.name)] + opt_attr("expr"@, p.expr) + opt_attr(
            "location"@,
            p.location,
        ),
        children: Seq::empty(),
        text: None,
    }
}

/// The element forms of a list of params, in order.
pub open spec fn ser_param_seq(ps: Seq<SpecParam>) -> Seq<SpecElement>
    decreases ps,
{
    if ps.len() == 0 {
        Seq::empty()
    } else {
        seq![ser_param_el(ps[0])] + ser_param_seq(ps.drop_first())
    }
}

/// The element form of a `<content>`.
pub open spec fn ser_content_el(c: SpecContent) -> SpecElement {
    SpecElement {
        name: "content"@,
        namespace: Some(spec_scxml_ns()),
        attributes: opt_attr("expr"@, c.expr),
        children: Seq::empty(),
        text: c.content,
    }
}

/// The element form of a `<finalize>`.
pub open spec fn ser_finalize_el(f: SpecFinalize) -> SpecElement
    decreases f,
{
    SpecElement {
        name: "finalize"@,
        namespace: Some(spec_scxml_ns()),
        attributes: Seq::empty(),
        children: ser_exec_seq(f.executables),
        text: None,
    }
}

/// The element form of an `<invoke>`.
pub open spec fn ser_invoke_el(iv: SpecInvoke) -> SpecElement
    decreases iv,
{
    SpecElement {
        name: "invoke"@,
        namespace: Some(spec_scxml_ns()),
        attributes: seq![("type"@, iv.type_)] + opt_attr("src"@, iv.src) + opt_attr(
            "id"@,
            iv.id,
        ),
        children: ser_param_seq(iv.params) + (match iv.finalize {
            Some(f) => seq![ser_finalize_el(f)],
            None => Seq::empty(),
        }) + (match iv.content {
            Some(c) => seq![ser_content_el(c)],
            None => Seq::empty(),
        }),
        text: None,
    }
}

/// The element forms of a list of invokes, in order.
pub open spec fn ser_invoke_seq(ivs: Seq<SpecInvoke>) -> Seq<SpecElement>
    decreases ivs,
{
    if ivs.len() == 0 {
        Seq::empty()
    } else {
        seq![ser_invoke_el(ivs[0])] + ser_invoke_seq(ivs.drop_first())
    }
}

/// The element form of a `<data>` item.
pub open spec fn ser_data_el(d: SpecData) -> SpecElement {
    SpecElement {
        name: "data"@,
        namespace: Some(spec_scxml_ns()),
        attributes: seq![("id"@, d.id)] + opt_attr("expr"@, d.expr) + opt_attr("src"@, d.src),
        children: Seq::empty(),
        text: d.content,
    }
}

/// The element forms of the data items, in order.
pub open spec fn ser_data_seq(ds: Seq<SpecData>) -> Seq<SpecElement>
    decreases ds,
{
    if ds.len() == 0 {
        Seq::empty()
    } else {
        seq![ser_data_el(ds[0])] + ser_data_seq(ds.drop_first())
    }
}

/// An `<onentry>`/`<onexit>` wrapper, emitted only when there is content.
pub open spec fn wrap_seg(name: Seq<char>, xs: Seq<SpecExecutable>) -> Seq<SpecElement> {
    if xs.len() == 0 {
        Seq::empty()
    } else {
        seq![
            SpecElement {
                name,
                namespace: Some(spec_scxml_ns()),
                attributes: Seq::empty(),
                children: ser_exec_seq(xs),
                text: None,
            },
        ]
    }
}

/// The `<initial>` child, when the state has one.
pub open spec fn initial_seg(oi: Option<SpecInitial>) -> Seq<SpecElement> {
    match oi {
        Some(i) => seq![ser_initial_el(i)],
        None => Seq::empty(),
    }
}

/// The children of a serialized `<state>`: initial element, entry content,
/// substates, transitions, exit content, invokes — in that order.
pub open spec fn ser_state_children(s: SpecState) -> Seq<SpecElement>
    decreases s, 0int,
{
    initial_seg(s.initial_element) + wrap_seg("onentry"@, s.onentry) + ser_forest(s.children)
        + ser_transition_seq(s.transitions) + wrap_seg("onexit"@, s.onexit) + ser_invoke_seq(
        s.invokes,
    )
}

/// The element form of a `<state>`.
pub open spec fn ser_state_el(s: SpecState) -> SpecElement
    decreases s, 1int,
{
    SpecElement {
        name: "state"@,
        namespace: Some(spec_scxml_ns()),
        attributes: opt_attr("id"@, s.id) + opt_attr("initial"@, s.initial),
        children: ser_state_children(s),
        text: None,
    }
}

/// The children of a serialized `<parallel>`: entry content, regions,
/// transitions, exit content, invokes.
pub open spec fn ser_parallel_children(p: SpecParallel) -> Seq<SpecElement>
    decreases p, 0int,
{
    wrap_seg("onentry"@, p.onentry) + ser_forest(p.children) + ser_transition_seq(p.transitions)
        + wrap_seg("onexit"@, p.onexit) + ser_invoke_seq(p.invokes)
}

/// The element form of a `<parallel>`.
pub open spec fn ser_parallel_el(p: SpecParallel) -> SpecElement
    decreases p, 1int,
{
    SpecElement {
        name: "parallel"@,
        namespace: Some(spec_scxml_ns()),
        attributes: opt_attr("id"@, p.id),
        children: ser_parallel_children(p),
        text: None,
    }
}

/// The element form of a `<final>`.
pub open spec fn ser_final_el(f: SpecFinal) -> SpecElement
    decreases f,
{
    SpecElement {
        name: "final"@,
        namespace: Some(spec_scxml_ns()),
        attributes: opt_attr("id"@, f.id),
        children: wrap_seg("onentry"@, f.onentry) + wrap_seg("onexit"@, f.onexit),
        text: None,
    }
}

/// The element form of any state-like node.
pub open spec fn ser_state_like_el(sl: SpecStateLike) -> SpecElement
    decreases sl, 2int,
{
    match sl {
        SpecStateLike::State(s) => ser_state_el(s),
        SpecStateLike::Parallel(p) => ser_parallel_el(p),
        SpecStateLike::Final(f) => ser_final_el(f),
        SpecStateLike::History(h) => ser_history_el(h),
    }
}

/// The element forms of a list of state-like nodes, in order.
pub open spec fn ser_forest(ss: Seq<SpecStateLike>) -> Seq<SpecElement>
    decreases ss, 3int,
{
    if ss.len() == 0 {
        Seq::empty()
    } else {
        seq![ser_state_like_el(ss[0])] + ser_forest(ss.drop_first())
    }
}

/// The `<datamodel>` section, emitted only when there are data items.
pub open spec fn datamodel_seg(ds: Seq<SpecData>) -> Seq<SpecElement> {
    if ds.len() == 0 {
        Seq::empty()
    } else {
        seq![
            SpecElement {
                name: "datamodel"@,
                namespace: Some(spec_scxml_ns()),
                attributes: Seq::empty(),
                children: ser_data_seq(ds),
                text: None,
            },
        ]
    }
}

/// The element form of the whole document: the root `<scxml>` with its
/// version and optional attributes, the data section, then the top-level
/// state-like elements.
pub open spec fn ser_doc_el(d: SpecScxml) -> SpecElement {
    SpecElement {
        name: "scxml"@,
        namespace: Some(spec_scxml_ns()),
        attributes: seq![("version"@, d.version)] + opt_attr("initial"@, d.initial) + opt_attr(
            "datamodel"@,
            d.datamodel,
        ),
        children: datamodel_seg(d.datamodel_elements) + ser_forest(d.states),
        text: None,
    }
}

// Pointwise readings of the serialized sequences.

pub proof fn lemma_ser_exec_seq(xs: Seq<SpecExecutable>)
    ensures
        ser_exec_seq(xs).len() == xs.len(),
        forall|i: int| 0 <= i < xs.len() ==> ser_exec_seq(xs)[i] == ser_exec_el(xs[i]),
    decreases xs,
{
    if xs.len() > 0 {
        lemma_ser_exec_seq(xs.drop_first());
    }
}

pub proof fn lemma_ser_transition_seq(ts: Seq<SpecTransition>)
    ensures
        ser_transition_seq(ts).len() == ts.len(),
        forall|i: int| 0 <= i < ts.len() ==> ser_transition_seq(ts)[i] == ser_transition_el(ts[i]),
    decreases ts,
{
    if ts.len() > 0 {
        lemma_ser_transition_seq(ts.drop_first());
    }
}

pub proof fn lemma_ser_param_seq(ps: Seq<SpecParam>)
    ensures
        ser_param_seq(ps).len() == ps.len(),
        forall|i: int| 0 <= i < ps.len() ==> ser_param_seq(ps)[i] == ser_param_el(ps[i]),
    decreases ps,
{
    if ps.len() > 0 {
        lemma_ser_param_seq(ps.drop_first());
    }
}

pub proof fn lemma_ser_invoke_seq(ivs: Seq<SpecInvoke>)
    ensures
        ser_invoke_seq(ivs).len() == ivs.len(),
        forall|i: int| 0 <= i < ivs.len() ==> ser_invoke_seq(ivs)[i] == ser_invoke_el(ivs[i]),
    decreases ivs,
{
    if ivs.len() > 0 {
        lemma_ser_invoke_seq(ivs.drop_first());
    }
}

pub proof fn lemma_ser_data_seq(ds: Seq<SpecData>)
    ensures
        ser_data_seq(ds).len() == ds.len(),
        forall|i: int| 0 <= i < ds.len() ==> ser_data_seq(ds)[i] == ser_data_el(ds[i]),
    decreases ds,
{
    if ds.len() > 0 {
        lemma_ser_data_seq(ds.drop_first());
    }
}

pub proof fn lemma_ser_forest(ss: Seq<SpecStateLike>)
    ensures
        ser_forest(ss).len() == ss.len(),
        forall|i: int| 0 <= i < ss.len() ==> ser_forest(ss)[i] == ser_state_like_el(ss[i]),
    decreases ss,
{
    if ss.len() > 0 {
        lemma_ser_forest(ss.drop_first());
    }
}

// ---------------------------------------------------------------------------
// Building the element tree
// ---------------------------------------------------------------------------

fn make_element(name: &str, attributes: Vec<(String, String)>, children: Vec<Element>, text: Option<
    String,
>) -> (e: Element)
    ensures
        e@ == (SpecElement {
            name: name@,
            namespace: Some(spec_scxml_ns()),
            attributes: attributes.deep_view(),
            children: view_element_seq(children@),
            text: text.deep_view(),
        }),
{
    let e = Element {
        name: name.to_owned(),
        namespace: Some(scxml_ns().to_owned()),
        attributes,
        children,
        text,
    };
    proof {
        assert(e@ =~= SpecElement {
            name: name@,
            namespace: Some(spec_scxml_ns()),
            attributes: e.attributes.deep_view(),
            children: view_element_seq(e.children@),
            text: e.text.deep_view(),
        });
    }
    e
}

fn push_attr(attrs: &mut Vec<(String, String)>, name: &str, v: &String)
    ensures
        final(attrs).deep_view() == old(attrs).deep_view() + seq![(name@, v@)],
{
    let ghost prev = attrs.deep_view();
    attrs.push((name.to_owned(), v.clone()));
    proof {
        assert(attrs.deep_view() =~= prev + seq![(name@, v@)]);
    }
}

fn push_opt_attr(attrs: &mut Vec<(String, String)>, name: &str, v: &Option<String>)
    ensures
        final(attrs).deep_view() == old(attrs).deep_view() + opt_attr(name@, v.deep_view()),
{
    match v {
        Some(x) => {
            push_attr(attrs, name, x);
        },
        None => {
            proof {
                assert(attrs.deep_view() =~= attrs.deep_view() + opt_attr(
                    name@,
                    None::<Seq<char>>,
                ));
            }
        },
    }
}

/// The element form of one executable.
pub fn element_of_exec(x: &Executable) -> (e: Element)
    ensures
        e@ == ser_exec_el(x@),
    decreases x,
{
    match x {
        Executable::Raise { event } => {
            let mut attrs: Vec<(String, String)> = Vec::new();
            push_attr(&mut attrs, "event", event);
            let e = make_element("raise", attrs, Vec::new(), None);
            proof {
                assert(e@ =~= ser_exec_el(x@));
            }
            e
        },
        Executable::If { cond, then, else_ } => {
            let mut attrs: Vec<(String, String)> = Vec::new();
            push_attr(&mut attrs, "cond", cond);
            let mut ch = elements_of_execs(then);
            let ghost seg1 = view_element_seq(ch@);
            if else_.len() > 0 {
                let marker = make_element("else", Vec::new(), Vec::new(), None);
                proof {
                    assert(marker@ =~= else_marker());
                    crate::xml::lemma_view_element_seq_push(ch@, marker);
                }
                ch.push(marker);
                let mut ce = elements_of_execs(else_);
                proof {
                    crate::xml::lemma_view_element_seq_concat(ch@, ce@);
                }
                ch.append(&mut ce);
                proof {
                    crate::ast::lemma_view_exec_seq(else_@);
                    assert(view_element_seq(ch@) =~= seg1 + (seq![else_marker()] + ser_exec_seq(
                        view_exec_seq(else_@),
                    )));
                }
            } else {
                proof {
                    crate::ast::lemma_view_exec_seq(else_@);
                    assert(view_element_seq(ch@) =~= seg1 + Seq::<SpecElement>::empty());
                }
            }
            let e = make_element("if", attrs, ch, None);
            proof {
                assert(e@ =~= ser_exec_el(x@));
            }
            e
        },
        Executable::Foreach { array, item, index, body } => {
            let mut attrs: Vec<(String, String)> = Vec::new();
            push_attr(&mut attrs, "array", array);
            push_attr(&mut attrs, "item", item);
            proof {
                assert(attrs.deep_view() =~= seq![("array"@, array@), ("item"@, item@)]);
            }
            push_opt_attr(&mut attrs, "index", index);
            let ch = elements_of_execs(body);
            let e = make_element("foreach", attrs, ch, None);
            proof {
                assert(e@ =~= ser_exec_el(x@));
            }
            e
        },
        Executable::Send { event, target } => {
            let mut attrs: Vec<(String, String)> = Vec::new();
            push_attr(&mut attrs, "event", event);
            push_opt_attr(&mut attrs, "target", target);
            let e = make_element("send", attrs, Vec::new(), None);
            proof {
                assert(e@ =~= ser_exec_el(x@));
            }
            e
        },
        Executable::Script { src, content } => {
            let mut attrs: Vec<(String, String)> = Vec::new();
            push_opt_attr(&mut attrs, "src", src);
            let e = make_element("script", attrs, Vec::new(), crate::parser::clone_opt(content));
            proof {
                assert(e@ =~= ser_exec_el(x@));
            }
            e
        },
        Executable::Assign { location, expr } => {
            let mut attrs: Vec<(String, String)> = Vec::new();
            push_attr(&mut attrs, "location", location);
            push_attr(&mut attrs, "expr", expr);
            proof {
                assert(attrs.deep_view() =~= seq![("location"@, location@), ("expr"@, expr@)]);
            }
            let e = make_element("assign", attrs, Vec::new(), None);
            proof {
                assert(e@ =~= ser_exec_el(x@));
            }
            e
        },
        Executable::Log { label, expr } => {
            let mut attrs: Vec<(String, String)> = Vec::new();
            push_opt_attr(&mut attrs, "label", label);
            push_attr(&mut attrs, "expr", expr);
            let e = make_element("log", attrs, Vec::new(), None);
            proof {
                assert(e@ =~= ser_exec_el(x@));
            }
            e
        },
        Executable::Cancel { sendid } => {
            let mut attrs: Vec<(String, String)> = Vec::new();
            push_attr(&mut attrs, "sendid", sendid);
            let e = make_element("cancel", attrs, Vec::new(), None);
            proof {
                assert(e@ =~= ser_exec_el(x@));
            }
            e
        },
        Executable::Other(tag) => {
            let e = make_element(tag.as_str(), Vec::new(), Vec::new(), None);
            proof {
                assert(e@ =~= ser_exec_el(x@));
            }
            e
        },
    }
}

/// The element forms of a list of executables.
#[verifier::loop_isolation(false)]
pub fn elements_of_execs(xs: &Vec<Executable>) -> (r: Vec<Element>)
    ensures
        view_element_seq(r@) == ser_exec_seq(view_exec_seq(xs@)),
    decreases xs,
{
    let mut out: Vec<Element> = Vec::new();
    let mut i: usize = 0;
    while i < xs.len()
        invariant
            i <= xs.len(),
            out@.len() == i,
            forall|j: int| 0 <= j < i ==> view_element(out@[j]) == ser_exec_el(view_exec(xs@[j])),
        decreases xs.len() - i,
    {
        out.push(element_of_exec(&xs[i]));
        i = i + 1;
    }
    proof {
        lemma_view_element_seq(out@);
        lemma_view_exec_seq(xs@);
        lemma_ser_exec_seq(view_exec_seq(xs@));
        assert(view_element_seq(out@) =~= ser_exec_seq(view_exec_seq(xs@)));
    }
    out
}

/// The element form of a transition.
pub fn element_of_transition(t: &Transition) -> (e: Element)
    ensures
        e@ == ser_transition_el(t@),
{
    let mut attrs: Vec<(String, String)> = Vec::new();
    push_opt_attr(&mut attrs, "event", &t.event);
    push_opt_attr(&mut attrs, "cond", &t.cond);
    push_opt_attr(&mut attrs, "target", &t.target);
    push_opt_attr(&mut attrs, "type", &t.type_);
    let ch = elements_of_execs(&t.executables);
    let e = make_element("transition", attrs, ch, None);
    proof {
        assert(attrs.deep_view() =~= opt_attr("event"@, t.event.deep_view()) + opt_attr(
            "cond"@,
            t.cond.deep_view(),
        ) + opt_attr("target"@, t.target.deep_view()) + opt_attr("type"@, t.type_.deep_view()));
        assert(e@ =~= ser_transition_el(t@));
    }
    e
}

/// The element forms of a list of transitions.
#[verifier::loop_isolation(false)]
fn elements_of_transitions(ts: &Vec<Transition>) -> (r: Vec<Element>)
    ensures
        view_element_seq(r@) == ser_transition_seq(view_transition_seq(ts@)),
{
    let mut out: Vec<Element> = Vec::new();
    let mut i: usize = 0;
    while i < ts.len()
        invariant
            i <= ts.len(),
            out@.len() == i,
            forall|j: int|
                0 <= j < i ==> view_element(out@[j]) == ser_transition_el(view_transition(ts@[j])),
        decreases ts.len() - i,
    {
        out.push(element_of_transition(&ts[i]));
        i = i + 1;
    }
    proof {
        lemma_view_element_seq(out@);
        lemma_view_transition_seq(ts@);
        lemma_ser_transition_seq(view_transition_seq(ts@));
        assert(view_element_seq(out@) =~= ser_transition_seq(view_transition_seq(ts@)));
    }
    out
}

/// The element form of an `<initial>` pseudo-state.
pub fn element_of_initial(i: &Initial) -> (e: Element)
    ensures
        e@ == ser_initial_el(i@),
{
    let mut attrs: Vec<(String, String)> = Vec::new();
    push_opt_attr(&mut attrs, "id", &i.id);
    let mut ch: Vec<Element> = Vec::new();
    let te = element_of_transition(&i.transition);
    proof {
        crate::xml::lemma_view_element_seq_push(ch@, te);
    }
    ch.push(te);
    proof {
        lemma_view_element_seq(ch@);
        assert(view_element_seq(ch@) =~= seq![ser_transition_el(view_transition(i.transition))]);
    }
    let e = make_element("initial", attrs, ch, None);
    proof {
        assert(e@ =~= ser_initial_el(i@));
    }
    e
}

/// The element form of a history pseudo-state.
pub fn element_of_history(h: &History) -> (e: Element)
    ensures
        e@ == ser_history_el(h@),
{
    let mut attrs: Vec<(String, String)> = Vec::new();
    push_opt_attr(&mut attrs, "id", &h.id);
    push_attr(&mut attrs, "type", &h.type_);
    let mut ch: Vec<Element> = Vec::new();
    match &h.transition {
        Some(t) => {
            let te = element_of_transition(t);
            proof {
                crate::xml::lemma_view_element_seq_push(ch@, te);
            }
            ch.push(te);
            proof {
                lemma_view_element_seq(ch@);
                assert(view_element_seq(ch@) =~= seq![ser_transition_el(view_transition(*t))]);
            }
        },
        None => {
            proof {
                assert(view_element_seq(ch@) =~= Seq::<SpecElement>::empty());
            }
        },
    }
    let e = make_element("history", attrs, ch, None);
    proof {
        assert(e@ =~= ser_history_el(h@));
    }
    e
}

/// The element form of a `<param>`.
pub fn element_of_param(p: &Param) -> (e: Element)
    ensures
        e@ == ser_param_el(p@),
{
    let mut attrs: Vec<(String, String)> = Vec::new();
    push_attr(&mut attrs, "name", &p.name);
    push_opt_attr(&mut attrs, "expr", &p.expr);
    push_opt_attr(&mut attrs, "location", &p.location);
    let e = make_element("param", attrs, Vec::new(), None);
    proof {
        assert(e@ =~= ser_param_el(p@));
    }
    e
}

/// The element form of a `<content>`.
pub fn element_of_content(c: &Content) -> (e: Element)
    ensures
        e@ == ser_content_el(c@),
{
    let mut attrs: Vec<(String, String)> = Vec::new();
    push_opt_attr(&mut attrs, "expr", &c.expr);
    let e = make_element("content", attrs, Vec::new(), crate::parser::clone_opt(&c.content));
    proof {
        assert(e@ =~= ser_content_el(c@));
    }
    e
}

/// The element form of a `<finalize>`.
pub fn element_of_finalize(f: &Finalize) -> (e: Element)
    ensures
        e@ == ser_finalize_el(f@),
{
    let ch = elements_of_execs(&f.executables);
    let e = make_element("finalize", Vec::new(), ch, None);
    proof {
        assert(e@ =~= ser_finalize_el(f@));
    }
    e
}

/// The element form of an `<invoke>`.
pub fn element_of_invoke(iv: &Invoke) -> (e: Element)
    ensures
        e@ == ser_invoke_el(iv@),
{
    let mut attrs: Vec<(String, String)> = Vec::new();
    push_attr(&mut attrs, "type", &iv.type_);
    push_opt_attr(&mut attrs, "src", &iv.src);
    push_opt_attr(&mut attrs, "id", &iv.id);
    let mut ch: Vec<Element> = Vec::new();
    let mut i: usize = 0;
    while i < iv.params.len()
        invariant
            i <= iv.params.len(),
            ch@.len() == i,
            forall|j: int|
                0 <= j < i ==> view_element(ch@[j]) == ser_param_el(view_param(iv.params@[j])),
        decreases iv.params.len() - i,
    {
        ch.push(element_of_param(&iv.params[i]));
        i = i + 1;
    }
    let ghost seg1 = view_element_seq(ch@);
    proof {
        lemma_view_element_seq(ch@);
        lemma_ser_param_seq(view_param_seq(iv.params@));
        assert(seg1 =~= ser_param_seq(view_param_seq(iv.params@)));
    }
    match &iv.finalize {
        Some(f) => {
            let fe = element_of_finalize(f);
            proof {
                crate::xml::lemma_view_element_seq_push(ch@, fe);
            }
            ch.push(fe);
            proof {
                assert(view_element_seq(ch@) =~= seg1 + seq![ser_finalize_el(view_finalize(*f))]);
            }
        },
        None => {
            proof {
                assert(view_element_seq(ch@) =~= seg1 + Seq::<SpecElement>::empty());
            }
        },
    }
    let ghost seg2 = view_element_seq(ch@);
    match &iv.content {
        Some(c) => {
            let ce = element_of_content(c);
            proof {
                crate::xml::lemma_view_element_seq_push(ch@, ce);
            }
            ch.push(ce);
            proof {
                assert(view_element_seq(ch@) =~= seg2 + seq![ser_content_el(view_content(*c))]);
            }
        },
        None => {
            proof {
                assert(view_element_seq(ch@) =~= seg2 + Seq::<SpecElement>::empty());
            }
        },
    }
    let e = make_element("invoke", attrs, ch, None);
    proof {
        assert(e@ =~= ser_invoke_el(iv@));
    }
    e
}

/// The element form of a `<data>` item.
pub fn element_of_data(d: &Data) -> (e: Element)
    ensures
        e@ == ser_data_el(d@),
{
    let mut attrs: Vec<(String, String)> = Vec::new();
    push_attr(&mut attrs, "id", &d.id);
    push_opt_attr(&mut attrs, "expr", &d.expr);
    push_opt_attr(&mut attrs, "src", &d.src);
    let e = make_element("data", attrs, Vec::new(), crate::parser::clone_opt(&d.content));
    proof {
        assert(e@ =~= ser_data_el(d@));
    }
    e
}

/// The element form of a `<final>`.
pub fn element_of_final(f: &Final) -> (e: Element)
    ensures
        e@ == ser_final_el(f@),
{
    let mut attrs: Vec<(String, String)> = Vec::new();
    push_opt_attr(&mut attrs, "id", &f.id);
    let mut ch: Vec<Element> = Vec::new();
    proof {
        crate::ast::lemma_view_exec_seq(f.onentry@);
        crate::ast::lemma_view_exec_seq(f.onexit@);
    }
    if f.onentry.len() > 0 {
        let w = make_element("onentry", Vec::new(), elements_of_execs(&f.onentry), None);
        proof {
            crate::xml::lemma_view_element_seq_push(ch@, w);
        }
        ch.push(w);
    }
    proof {
        lemma_view_element_seq(ch@);
        assert(view_element_seq(ch@) =~~= wrap_seg("onentry"@, view_exec_seq(f.onentry@)));
    }
    let ghost seg1 = view_element_seq(ch@);
    if f.onexit.len() > 0 {
        let w = make_element("onexit", Vec::new(), elements_of_execs(&f.onexit), None);
        proof {
            crate::xml::lemma_view_element_seq_push(ch@, w);
        }
        ch.push(w);
        proof {
            lemma_view_element_seq(ch@);
            assert(view_element_seq(ch@) =~~= seg1 + wrap_seg("onexit"@, view_exec_seq(f.onexit@)));
        }
    } else {
        proof {
            lemma_view_element_seq(ch@);
            assert(view_element_seq(ch@) =~~= seg1 + wrap_seg("onexit"@, view_exec_seq(f.onexit@)));
        }
    }
    let e = make_element("final", attrs, ch, None);
    proof {
        assert(e@ =~= ser_final_el(f@));
    }
    e
}

/// The element form of a `<state>`.
pub fn element_of_state(s: &State) -> (e: Element)
    ensures
        e@ == ser_state_el(s@),
    decreases s,
{
    let mut attrs: Vec<(String, String)> = Vec::new();
    push_opt_attr(&mut attrs, "id", &s.id);
    push_opt_attr(&mut attrs, "initial", &s.initial);
    let mut ch: Vec<Element> = Vec::new();
    proof {
        crate::ast::lemma_view_exec_seq(s.onentry@);
        crate::ast::lemma_view_exec_seq(s.onexit@);
    }
    match &s.initial_element {
        Some(init) => {
            let ie = element_of_initial(init);
            proof {
                crate::xml::lemma_view_element_seq_push(ch@, ie);
            }
            ch.push(ie);
        },
        None => {},
    }
    proof {
        assert(view_element_seq(ch@) =~= initial_seg(
            view_state(*s).initial_element,
        ));
    }
    let ghost seg1 = view_element_seq(ch@);
    if s.onentry.len() > 0 {
        let w = make_element("onentry", Vec::new(), elements_of_execs(&s.onentry), None);
        proof {
            crate::xml::lemma_view_element_seq_push(ch@, w);
        }
        ch.push(w);
    }
    proof {
        lemma_view_element_seq(ch@);
        assert(view_element_seq(ch@) =~~= seg1 + wrap_seg("onentry"@, view_exec_seq(s.onentry@)));
    }
    let ghost seg2 = view_element_seq(ch@);
    let mut sub = elements_of_forest(&s.children);
    proof {
        crate::xml::lemma_view_element_seq_concat(ch@, sub@);
    }
    ch.append(&mut sub);
    proof {
        assert(view_element_seq(ch@) =~= seg2 + ser_forest(view_forest(s.children@)));
    }
    let ghost seg3 = view_element_seq(ch@);
    let mut trs = elements_of_transitions(&s.transitions);
    proof {
        crate::xml::lemma_view_element_seq_concat(ch@, trs@);
    }
    ch.append(&mut trs);
    proof {
        assert(view_element_seq(ch@) =~= seg3 + ser_transition_seq(
            view_transition_seq(s.transitions@),
        ));
    }
    let ghost seg4 = view_element_seq(ch@);
    if s.onexit.len() > 0 {
        let w = make_element("onexit", Vec::new(), elements_of_execs(&s.onexit), None);
        proof {
            crate::xml::lemma_view_element_seq_push(ch@, w);
        }
        ch.push(w);
    }
    proof {
        lemma_view_element_seq(ch@);
        assert(view_element_seq(ch@) =~~= seg4 + wrap_seg("onexit"@, view_exec_seq(s.onexit@)));
    }
    let ghost seg5 = view_element_seq(ch@);
    let mut ivs = elements_of_invokes(&s.invokes);
    proof {
        crate::xml::lemma_view_element_seq_concat(ch@, ivs@);
    }
    ch.append(&mut ivs);
    proof {
        assert(view_element_seq(ch@) =~= seg5 + ser_invoke_seq(view_invoke_seq(s.invokes@)));
        assert(view_element_seq(ch@) =~= ser_state_children(view_state(*s)));
    }
    let e = make_element("state", attrs, ch, None);
    proof {
        assert(e@ =~= ser_state_el(s@));
    }
    e
}

/// The element form of a `<parallel>`.
pub fn element_of_parallel(p: &Parallel) -> (e: Element)
    ensures
        e@ == ser_parallel_el(p@),
    decreases p,
{
    let mut attrs: Vec<(String, String)> = Vec::new();
    push_opt_attr(&mut attrs, "id", &p.id);
    let mut ch: Vec<Element> = Vec::new();
    proof {
        crate::ast::lemma_view_exec_seq(p.onentry@);
        crate::ast::lemma_view_exec_seq(p.onexit@);
    }
    if p.onentry.len() > 0 {
        let w = make_element("onentry", Vec::new(), elements_of_execs(&p.onentry), None);
        proof {
            crate::xml::lemma_view_element_seq_push(ch@, w);
        }
        ch.push(w);
    }
    proof {
        lemma_view_element_seq(ch@);
        assert(view_element_seq(ch@) =~~= wrap_seg("onentry"@, view_exec_seq(p.onentry@)));
    }
    let ghost seg1 = view_element_seq(ch@);
    let mut sub = elements_of_forest(&p.children);
    proof {
        crate::xml::lemma_view_element_seq_concat(ch@, sub@);
    }
    ch.append(&mut sub);
    proof {
        assert(view_element_seq(ch@) =~= seg1 + ser_forest(view_forest(p.children@)));
    }
    let ghost seg2 = view_element_seq(ch@);
    let mut trs = elements_of_transitions(&p.transitions);
    proof {
        crate::xml::lemma_view_element_seq_concat(ch@, trs@);
    }
    ch.append(&mut trs);
    proof {
        assert(view_element_seq(ch@) =~= seg2 + ser_transition_seq(
            view_transition_seq(p.transitions@),
        ));
    }
    let ghost seg3 = view_element_seq(ch@);
    if p.onexit.len() > 0 {
        let w = make_element("onexit", Vec::new(), elements_of_execs(&p.onexit), None);
        proof {
            crate::xml::lemma_view_element_seq_push(ch@, w);
        }
        ch.push(w);
    }
    proof {
        lemma_view_element_seq(ch@);
        assert(view_element_seq(ch@) =~~= seg3 + wrap_seg("onexit"@, view_exec_seq(p.onexit@)));
    }
    let ghost seg4 = view_element_seq(ch@);
    let mut ivs = elements_of_invokes(&p.invokes);
    proof {
        crate::xml::lemma_view_element_seq_concat(ch@, ivs@);
    }
    ch.append(&mut ivs);
    proof {
        assert(view_element_seq(ch@) =~= seg4 + ser_invoke_seq(view_invoke_seq(p.invokes@)));
        assert(view_element_seq(ch@) =~= ser_parallel_children(view_parallel(*p)));
    }
    let e = make_element("parallel", attrs, ch, None);
    proof {
        assert(e@ =~= ser_parallel_el(p@));
    }
    e
}

/// The element forms of a list of invokes.
#[verifier::loop_isolation(false)]
fn elements_of_invokes(ivs: &Vec<Invoke>) -> (r: Vec<Element>)
    ensures
        view_element_seq(r@) == ser_invoke_seq(view_invoke_seq(ivs@)),
{
    let mut out: Vec<Element> = Vec::new();
    let mut i: usize = 0;
    while i < ivs.len()
        invariant
            i <= ivs.len(),
            out@.len() == i,
            forall|j: int|
                0 <= j < i ==> view_element(out@[j]) == ser_invoke_el(view_invoke(ivs@[j])),
        decreases ivs.len() - i,
    {
        out.push(element_of_invoke(&ivs[i]));
        i = i + 1;
    }
    proof {
        lemma_view_element_seq(out@);
        lemma_view_invoke_seq(ivs@);
        lemma_ser_invoke_seq(view_invoke_seq(ivs@));
        assert(view_element_seq(out@) =~= ser_invoke_seq(view_invoke_seq(ivs@)));
    }
    out
}

/// The element form of any state-like node.
pub fn element_of_state_like(sl: &StateLike) -> (e: Element)
    ensures
        e@ == ser_state_like_el(sl@),
    decreases sl,
{
    match sl {
        StateLike::State(s) => element_of_state(s),
        StateLike::Parallel(p) => element_of_parallel(p),
        StateLike::Final(f) => element_of_final(f),
        StateLike::History(h) => element_of_history(h),
    }
}

/// The element forms of a list of state-like nodes.
#[verifier::loop_isolation(false)]
pub fn elements_of_forest(ss: &Vec<StateLike>) -> (r: Vec<Element>)
    ensures
        view_element_seq(r@) == ser_forest(view_forest(ss@)),
    decreases ss,
{
    let mut out: Vec<Element> = Vec::new();
    let mut i: usize = 0;
    while i < ss.len()
        invariant
            i <= ss.len(),
            out@.len() == i,
            forall|j: int|
                0 <= j < i ==> view_element(out@[j]) == ser_state_like_el(view_state_like(ss@[j])),
        decreases ss.len() - i,
    {
        out.push(element_of_state_like(&ss[i]));
        i = i + 1;
    }
    proof {
        lemma_view_element_seq(out@);
        lemma_view_forest(ss@);
        lemma_ser_forest(view_forest(ss@));
        assert(view_element_seq(out@) =~= ser_forest(view_forest(ss@)));
    }
    out
}

/// The element form of the whole document.
pub fn element_of_doc(d: &Scxml) -> (e: Element)
    ensures
        e@ == ser_doc_el(d@),
{
    let mut attrs: Vec<(String, String)> = Vec::new();
    push_attr(&mut attrs, "version", &d.version);
    push_opt_attr(&mut attrs, "initial", &d.initial);
    push_opt_attr(&mut attrs, "datamodel", &d.datamodel);
    let mut ch: Vec<Element> = Vec::new();
    if d.datamodel_elements.len() > 0 {
        let mut items: Vec<Element> = Vec::new();
        let mut i: usize = 0;
        while i < d.datamodel_elements.len()
            invariant
                i <= d.datamodel_elements.len(),
                items@.len() == i,
                forall|j: int|
                    0 <= j < i ==> view_element(items@[j]) == ser_data_el(
                        view_data(d.datamodel_elements@[j]),
                    ),
            decreases d.datamodel_elements.len() - i,
        {
            items.push(element_of_data(&d.datamodel_elements[i]));
            i = i + 1;
        }
        proof {
            lemma_view_element_seq(items@);
            lemma_ser_data_seq(view_data_seq(d.datamodel_elements@));
            assert(view_element_seq(items@) =~= ser_data_seq(view_data_seq(d.datamodel_elements@)));
        }
        let w = make_element("datamodel", Vec::new(), items, None);
        proof {
            crate::xml::lemma_view_element_seq_push(ch@, w);
        }
        ch.push(w);
    }
    proof {
        assert(view_element_seq(ch@) =~~= datamodel_seg(view_data_seq(d.datamodel_elements@)));
    }
    let ghost seg1 = view_element_seq(ch@);
    let mut sts = elements_of_forest(&d.states);
    proof {
        crate::xml::lemma_view_element_seq_concat(ch@, sts@);
    }
    ch.append(&mut sts);
    proof {
        assert(view_element_seq(ch@) =~= seg1 + ser_forest(view_forest(d.states@)));
    }
    let e = make_element("scxml", attrs, ch, None);
    proof {
        assert(e@ =~= ser_doc_el(d@));
    }
    e
}

// ---------------------------------------------------------------------------
// Printing the element tree
// ---------------------------------------------------------------------------

/// The attribute list as text: ` name="value"` for each attribute, in order.
pub open spec fn print_attrs(attrs: Seq<(Seq<char>, Seq<char>)>) -> Seq<char>
    decreases attrs,
{
    if attrs.len() == 0 {
        Seq::empty()
    } else {
        " "@ + attrs[0].0 + "=\""@ + attrs[0].1 + "\""@ + print_attrs(attrs.drop_first())
    }
}

/// One element as indented text: self-closing when empty, `>text</name>`
/// when it has only text, and an indented block otherwise.
pub open spec fn print_element(e: SpecElement, ind: Seq<char>) -> Seq<char>
    decreases e,
{
    let open_tag = ind + "<"@ + e.name + print_attrs(e.attributes);
    if e.children.len() == 0 {
        match e.text {
            None => open_tag + "/>\n"@,
            Some(t) => open_tag + ">"@ + t + "</"@ + e.name + ">\n"@,
        }
    } else {
        open_tag + ">\n"@ + print_children(e.children, ind + "    "@) + ind + "</"@ + e.name
            + ">\n"@
    }
}

/// A list of elements as text, each one level deeper.
pub open spec fn print_children(cs: Seq<SpecElement>, ind: Seq<char>) -> Seq<char>
    decreases cs,
{
    if cs.len() == 0 {
        Seq::empty()
    } else {
        print_element(cs[0], ind) + print_children(cs.drop_first(), ind)
    }
}

/// The whole document as text: the XML declaration, the root `<scxml>` tag
/// with its namespace and attributes, its children one level deep, and the
/// closing tag.
pub open spec fn spec_to_xml(d: SpecScxml) -> Seq<char> {
    let root = ser_doc_el(d);
    "<?xml version=\"1.0\" encoding=\"UTF-8\"?>\n"@ + "<scxml"@ + (match root.namespace {
        Some(ns) => " xmlns=\""@ + ns + "\""@,
        None => Seq::empty(),
    }) + print_attrs(root.attributes) + ">\n"@ + print_children(root.children, "    "@)
        + "</scxml>"@
}

/// Appends the attribute list to the output.
#[verifier::loop_isolation(false)]
fn append_attrs(out: &mut String, attrs: &Vec<(String, String)>)
    ensures
        final(out)@ == old(out)@ + print_attrs(attrs.deep_view()),
{
    let ghost dv = attrs.deep_view();
    proof {
        assert(dv.skip(0) =~= dv);
    }
    let mut i: usize = 0;
    while i < attrs.len()
        invariant
            i <= attrs.len(),
            dv.len() == attrs@.len(),
            out@ + print_attrs(dv.skip(i as int)) == old(out)@ + print_attrs(dv),
        decreases attrs.len() - i,
    {
        proof {
            assert(dv.skip(i as int)[0] == dv[i as int]);
            assert(dv.skip(i as int).drop_first() =~= dv.skip(i as int + 1));
        }
        let ghost o0 = out@;
        out.append(" ");
        out.append(attrs[i].0.as_str());
        out.append("=\"");
        out.append(attrs[i].1.as_str());
        out.append("\"");
        proof {
            assert(out@ + print_attrs(dv.skip(i as int + 1)) =~= o0 + print_attrs(
                dv.skip(i as int),
            ));
        }
        i = i + 1;
    }
    proof {
        assert(print_attrs(dv.skip(i as int)) =~= Seq::<char>::empty());
        assert(final(out)@ =~= old(out)@ + print_attrs(dv));
    }
}

/// Appends one element, indented by `ind`, to the output.
#[verifier::loop_isolation(false)]
fn print_element_into(e: &Element, ind: &str, out: &mut String)
    ensures
        final(out)@ == old(out)@ + print_element(e@, ind@),
    decreases e,
{
    let ghost o0 = out@;
    out.append(ind);
    out.append("<");
    out.append(e.name.as_str());
    append_attrs(out, &e.attributes);
    proof {
        assert(out@ =~= o0 + (ind@ + "<"@ + e.name@ + print_attrs(e@.attributes)));
    }
    let ghost open_tag = ind@ + "<"@ + e.name@ + print_attrs(e@.attributes);
    if e.children.len() == 0 {
        match &e.text {
            None => {
                out.append("/>\n");
                proof {
                    assert(final(out)@ =~= old(out)@ + print_element(e@, ind@));
                }
            },
            Some(t) => {
                out.append(">");
                out.append(t.as_str());
                out.append("</");
                out.append(e.name.as_str());
                out.append(">\n");
                proof {
                    assert(final(out)@ =~= old(out)@ + print_element(e@, ind@));
                }
            },
        }
    } else {
        out.append(">\n");
        let ghost o1 = out@;
        let deeper = ind.to_owned().concat("    ");
        let ghost cv = view_element_seq(e.children@);
        proof {
            lemma_view_element_seq(e.children@);
            assert(cv.skip(0) =~= cv);
            assert(o1 + print_children(cv.skip(0), deeper@) =~= o1 + print_children(cv, deeper@));
        }
        let mut i: usize = 0;
        while i < e.children.len()
            invariant
                i <= e.children.len(),
                out@ + print_children(cv.skip(i as int), deeper@) == o1 + print_children(
                    cv,
                    deeper@,
                ),
            decreases e.children.len() - i,
        {
            proof {
                assert(cv.skip(i as int)[0] == cv[i as int]);
                assert(cv.skip(i as int).drop_first() =~= cv.skip(i as int + 1));
            }
            let ghost o2 = out@;
            print_element_into(&e.children[i], deeper.as_str(), out);
            proof {
                assert(out@ + print_children(cv.skip(i as int + 1), deeper@) =~= o2
                    + print_children(cv.skip(i as int), deeper@));
            }
            i = i + 1;
        }
        proof {
            assert(print_children(cv.skip(i as int), deeper@) =~= Seq::<char>::empty());
            assert(out@ =~= o1 + print_children(cv, deeper@));
        }
        out.append(ind);
        out.append("</");
        out.append(e.name.as_str());
        out.append(">\n");
        proof {
            assert(final(out)@ =~= old(out)@ + print_element(e@, ind@));
        }
    }
}

/// Serializes the document back to XML text.
///
/// The output is pinned down exactly: it is [`spec_to_xml`] of the
/// document's view — the fixed declaration, the namespace-qualified root
/// with `version` and the optional `initial` and `datamodel` attributes in
/// that order, the data section if it is non-empty, then every state-like
/// child recursively, indented four spaces per level, with self-closing
/// tags for childless elements.
#[verifier::loop_isolation(false)]
pub fn to_xml(scxml: &Scxml) -> (r: String)
    ensures
        r@ == spec_to_xml(scxml@),
{
    let root = element_of_doc(scxml);
    let mut out = String::new();
    out.append("<?xml version=\"1.0\" encoding=\"UTF-8\"?>\n");
    out.append("<scxml");
    match &root.namespace {
        Some(ns) => {
            out.append(" xmlns=\"");
            out.append(ns.as_str());
            out.append("\"");
        },
        None => {},
    }
    let ghost o0 = out@;
    proof {
        assert(o0 =~= "<?xml version=\"1.0\" encoding=\"UTF-8\"?>\n"@ + "<scxml"@ + (
        match ser_doc_el(scxml@).namespace {
            Some(ns) => " xmlns=\""@ + ns + "\""@,
            None => Seq::<char>::empty(),
        }));
    }
    append_attrs(&mut out, &root.attributes);
    out.append(">\n");
    let ghost o1 = out@;
    let ghost cv = view_element_seq(root.children@);
    proof {
        lemma_view_element_seq(root.children@);
        assert(cv.skip(0) =~= cv);
    }
    let mut i: usize = 0;
    while i < root.children.len()
        invariant
            i <= root.children.len(),
            out@ + print_children(cv.skip(i as int), "    "@) == o1 + print_children(cv, "    "@),
        decreases root.children.len() - i,
    {
        proof {
            assert(cv.skip(i as int)[0] == cv[i as int]);
            assert(cv.skip(i as int).drop_first() =~= cv.skip(i as int + 1));
        }
        let ghost o2 = out@;
        print_element_into(&root.children[i], "    ", &mut out);
        proof {
            assert(out@ + print_children(cv.skip(i as int + 1), "    "@) =~= o2 + print_children(
                cv.skip(i as int),
                "    "@,
            ));
        }
        i = i + 1;
    }
    proof {
        assert(print_children(cv.skip(i as int), "    "@) =~= Seq::<char>::empty());
        assert(out@ =~= o1 + print_children(cv, "    "@));
    }
    out.append("</scxml>");
    proof {
        assert(out@ =~= spec_to_xml(scxml@));
    }
    out
}

// ---------------------------------------------------------------------------
// One-call serialization of individual nodes
// ---------------------------------------------------------------------------

/// Four spaces per indentation level.
pub open spec fn spec_indent(n: nat) -> Seq<char>
    decreases n,
{
    if n == 0 {
        Seq::empty()
    } else {
        spec_indent((n - 1) as nat) + "    "@
    }
}

/// Builds the indentation for `level`.
#[verifier::loop_isolation(false)]
fn make_indent(level: usize) -> (r: String)
    ensures
        r@ == spec_indent(level as nat),
{
    let mut out = String::new();
    let mut i: usize = 0;
    while i < level
        invariant
            i <= level,
            out@ == spec_indent(i as nat),
        decreases level - i,
    {
        out.append("    ");
        i = i + 1;
    }
    out
}

/// Appends one state-like element to `output` as XML, indented by
/// `indent_level`.
pub fn serialize_state_like(state: &StateLike, indent_level: usize, output: &mut String)
    ensures
        final(output)@ == old(output)@ + print_element(
            ser_state_like_el(state@),
            spec_indent(indent_level as nat),
        ),
{
    let el = element_of_state_like(state);
    let ind = make_indent(indent_level);
    print_element_into(&el, ind.as_str(), output);
}

/// Appends an `<initial>` element to `output` as XML.
pub fn serialize_initial(initial: &Initial, indent_level: usize, output: &mut String)
    ensures
        final(output)@ == old(output)@ + print_element(
            ser_initial_el(initial@),
            spec_indent(indent_level as nat),
        ),
{
    let el = element_of_initial(initial);
    let ind = make_indent(indent_level);
    print_element_into(&el, ind.as_str(), output);
}

/// Appends a `<transition>` element to `output` as XML.
pub fn serialize_transition(transition: &Transition, indent_level: usize, output: &mut String)
    ensures
        final(output)@ == old(output)@ + print_element(
            ser_transition_el(transition@),
            spec_indent(indent_level as nat),
        ),
{
    let el = element_of_transition(transition);
    let ind = make_indent(indent_level);
    print_element_into(&el, ind.as_str(), output);
}

/// Appends one executable element to `output` as XML.
pub fn serialize_executable(executable: &Executable, indent_level: usize, output: &mut String)
    ensures
        final(output)@ == old(output)@ + print_element(
            ser_exec_el(executable@),
            spec_indent(indent_level as nat),
        ),
{
    let el = element_of_exec(executable);
    let ind = make_indent(indent_level);
    print_element_into(&el, ind.as_str(), output);
}

/// Appends an `<invoke>` element to `output` as XML.
pub fn serialize_invoke(invoke: &Invoke, indent_level: usize, output: &mut String)
    ensures
        final(output)@ == old(output)@ + print_element(
            ser_invoke_el(invoke@),
            spec_indent(indent_level as nat),
        ),
{
    let el = element_of_invoke(invoke);
    let ind = make_indent(indent_level);
    print_element_into(&el, ind.as_str(), output);
}

} // verus!
