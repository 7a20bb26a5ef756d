//! The grammar parser: a verified walk of the [`Element`] tree under the
//! SCXML grammar, producing the document AST.
//!
//! Each executable parse function is proved equal to a spec-level mirror
//! (`spec_parse_...`) over the element tree's view, so the whole grammar is
//! pinned down mathematically, including the order of its checks and the
//! first error it reports.

use vstd::prelude::*;
use crate::ast::Content;
use crate::ast::Data;
use crate::ast::Executable;
use crate::ast::Final;
use crate::ast::Finalize;
use crate::ast::History;
use crate::ast::Initial;
use crate::ast::Invoke;
use crate::ast::Parallel;
use crate::ast::Param;
use crate::ast::ParseError;
use crate::ast::ParseOptions;
use crate::ast::Scxml;
use crate::ast::State;
use crate::ast::StateLike;
use crate::ast::Transition;
use crate::ast::SpecContent;
use crate::ast::SpecData;
use crate::ast::SpecExecutable;
use crate::ast::SpecFinal;
use crate::ast::SpecFinalize;
use crate::ast::SpecHistory;
use crate::ast::SpecInitial;
use crate::ast::SpecInvoke;
use crate::ast::SpecParallel;
use crate::ast::SpecParam;
use crate::ast::SpecParseError;
use crate::ast::SpecScxml;
use crate::ast::SpecState;
use crate::ast::SpecStateLike;
use crate::ast::SpecTransition;
use crate::ast::view_content;
use crate::ast::view_data;
use crate::ast::view_data_seq;
use crate::ast::view_doc;
use crate::ast::view_exec;
use crate::ast::view_exec_seq;
use crate::ast::view_final;
use crate::ast::view_finalize;
use crate::ast::view_forest;
use crate::ast::view_history;
use crate::ast::view_initial;
use crate::ast::view_invoke;
use crate::ast::view_invoke_seq;
use crate::ast::view_param;
use crate::ast::view_param_seq;
use crate::ast::view_parallel;
use crate::ast::view_state;
use crate::ast::view_transition;
use crate::ast::view_transition_seq;
use crate::ast::lemma_view_exec_seq_push;
use crate::ast::lemma_view_transition_seq_push;
use crate::ast::lemma_view_invoke_seq_push;
use crate::ast::lemma_view_forest_push;
use crate::xml::Element;
use crate::xml::SpecElement;
use crate::xml::spec_attr;
use crate::xml::str_eq;
use crate::xml::view_element_seq;
use crate::xml::lemma_view_element_seq;
use crate::xml::parse_xml;
use crate::xml::xml_tree_of;

verus! {

// ---------------------------------------------------------------------------
// The fixed SCXML namespace
// ---------------------------------------------------------------------------

/// The namespace URI of the SCXML vocabulary, as a sequence of characters.
pub open spec fn spec_scxml_ns() -> Seq<char> {
    "http://www.w3.org/2005/07/scxml"@
}

/// The namespace URI of the SCXML vocabulary.
pub fn scxml_ns() -> (r: &'static str)
    ensures
        r@ == spec_scxml_ns(),
{
    "http://www.w3.org/2005/07/scxml"
}

// ---------------------------------------------------------------------------
// Attribute helpers
// ---------------------------------------------------------------------------

/// The value of attribute `name`, or the empty string when it is absent.
pub open spec fn spec_attr_or_empty(e: SpecElement, name: Seq<char>) -> Seq<char> {
    match spec_attr(e.attributes, name) {
        Some(v) => v,
        None => Seq::empty(),
    }
}

fn attr_or_default(e: &Element, name: &str) -> (r: String)
    ensures
        r@ == spec_attr_or_empty(e@, name@),
{
    match e.attribute(name) {
        Some(v) => v,
        None => String::new(),
    }
}

pub(crate) fn clone_opt(o: &Option<String>) -> (r: Option<String>)
    ensures
        r.deep_view() == o.deep_view(),
{
    match o {
        Some(s) => Some(s.clone()),
        None => None,
    }
}

// ---------------------------------------------------------------------------
// Executable content
// ---------------------------------------------------------------------------

/// One executable element, by tag name; unrecognized tags become `Other`.
pub open spec fn spec_parse_single(e: SpecElement) -> Result<SpecExecutable, SpecParseError>
    decreases e,
{
    if e.name == "raise"@ {
        Ok(SpecExecutable::Raise { event: spec_attr_or_empty(e, "event"@) })
    } else if e.name == "if"@ {
        match spec_if_fold(e.children, Seq::empty(), Seq::empty(), false) {
            Ok((then_b, else_b)) => Ok(
                SpecExecutable::If {
                    cond: spec_attr_or_empty(e, "cond"@),
                    then: then_b,
                    else_: else_b,
                },
            ),
            Err(err) => Err(err),
        }
    } else if e.name == "foreach"@ {
        match spec_exec_fold(e.children, Seq::empty()) {
            Ok(body) => Ok(
                SpecExecutable::Foreach {
                    array: spec_attr_or_empty(e, "array"@),
                    item: spec_attr_or_empty(e, "item"@),
                    index: spec_attr(e.attributes, "index"@),
                    body,
                },
            ),
            Err(err) => Err(err),
        }
    } else if e.name == "send"@ {
        Ok(
            SpecExecutable::Send {
                event: spec_attr_or_empty(e, "event"@),
                target: spec_attr(e.attributes, "target"@),
            },
        )
    } else if e.name == "script"@ {
        Ok(SpecExecutable::Script { src: spec_attr(e.attributes, "src"@), content: e.text })
    } else if e.name == "assign"@ {
        Ok(
            SpecExecutable::Assign {
                location: spec_attr_or_empty(e, "location"@),
                expr: spec_attr_or_empty(e, "expr"@),
            },
        )
    } else if e.name == "log"@ {
        Ok(
            SpecExecutable::Log {
                label: spec_attr(e.attributes, "label"@),
                expr: spec_attr_or_empty(e, "expr"@),
            },
        )
    } else if e.name == "cancel"@ {
        Ok(SpecExecutable::Cancel { sendid: spec_attr_or_empty(e, "sendid"@) })
    } else {
        Ok(SpecExecutable::Other(e.name))
    }
}

/// The executable elements of `cs`, appended to `acc`, failing fast on the
/// first child that does not parse.
pub open spec fn spec_exec_fold(cs: Seq<SpecElement>, acc: Seq<SpecExecutable>) -> Result<
    Seq<SpecExecutable>,
    SpecParseError,
>
    decreases cs,
{
    if cs.len() == 0 {
        Ok(acc)
    } else {
        match spec_parse_single(cs[0]) {
            Ok(x) => spec_exec_fold(cs.drop_first(), acc.push(x)),
            Err(err) => Err(err),
        }
    }
}

/// The executable children of an `<if>`, partitioned into the branches by
/// the first `<else/>` marker, in document order.
pub open spec fn spec_if_fold(
    cs: Seq<SpecElement>,
    then_b: Seq<SpecExecutable>,
    else_b: Seq<SpecExecutable>,
    in_else: bool,
) -> Result<(Seq<SpecExecutable>, Seq<SpecExecutable>), SpecParseError>
    decreases cs,
{
    if cs.len() == 0 {
        Ok((then_b, else_b))
    } else if cs[0].name == "else"@ {
        spec_if_fold(cs.drop_first(), then_b, else_b, true)
    } else {
        match spec_parse_single(cs[0]) {
            Ok(x) => if in_else {
                spec_if_fold(cs.drop_first(), then_b, else_b.push(x), in_else)
            } else {
                spec_if_fold(cs.drop_first(), then_b.push(x), else_b, in_else)
            },
            Err(err) => Err(err),
        }
    }
}

/// Parses one executable element.
#[verifier::loop_isolation(false)]
pub fn parse_single_executable(e: &Element) -> (r: Result<Executable, ParseError>)
    ensures
        r matches Ok(x) ==> spec_parse_single(e@) == Ok::<SpecExecutable, SpecParseError>(
            view_exec(x),
        ),
        r matches Err(err) ==> spec_parse_single(e@) == Err::<SpecExecutable, SpecParseError>(
            err@,
        ),
    decreases e,
{
    if e.has_name("raise") {
        Ok(Executable::Raise { event: attr_or_default(e, "event") })
    } else if e.has_name("if") {
        let cond = attr_or_default(e, "cond");
        let mut then_execs: Vec<Executable> = Vec::new();
        let mut else_execs: Vec<Executable> = Vec::new();
        let mut in_else = false;
        let ghost cs = view_element_seq(e.children@);
        proof {
            lemma_view_element_seq(e.children@);
            assert(cs.skip(0) =~= cs);
        }
        let mut i: usize = 0;
        while i < e.children.len()
            invariant
                i <= e.children.len(),
                cs == view_element_seq(e.children@),
                cs.len() == e.children@.len(),
                spec_if_fold(
                    cs.skip(i as int),
                    view_exec_seq(then_execs@),
                    view_exec_seq(else_execs@),
                    in_else,
                ) == spec_if_fold(cs, Seq::empty(), Seq::empty(), false),
            decreases e.children.len() - i,
        {
            let c = &e.children[i];
            proof {
                lemma_view_element_seq(e.children@);
                assert(cs.skip(i as int)[0] == cs[i as int]);
                assert(cs.skip(i as int).drop_first() =~= cs.skip(i as int + 1));
            }
            if c.has_name("else") {
                in_else = true;
            } else {
                match parse_single_executable(c) {
                    Ok(x) => {
                        if in_else {
                            proof {
                                lemma_view_exec_seq_push(else_execs@, x);
                            }
                            else_execs.push(x);
                        } else {
                            proof {
                                lemma_view_exec_seq_push(then_execs@, x);
                            }
                            then_execs.push(x);
                        }
                    },
                    Err(err) => {
                        proof {
                            assert(spec_if_fold(
                                cs.skip(i as int),
                                view_exec_seq(then_execs@),
                                view_exec_seq(else_execs@),
                                in_else,
                            ) == Err::<(Seq<SpecExecutable>, Seq<SpecExecutable>), SpecParseError>(
                                err@,
                            ));
                        }
                        return Err(err);
                    },
                }
            }
            i = i + 1;
        }
        proof {
            assert(cs.skip(i as int).len() == 0);
        }
        Ok(Executable::If { cond, then: then_execs, else_: else_execs })
    } else if e.has_name("foreach") {
        let array = attr_or_default(e, "array");
        let item = attr_or_default(e, "item");
        let index = e.attribute("index");
        match parse_executables(&e.children) {
            Ok(body) => Ok(Executable::Foreach { array, item, index, body }),
            Err(err) => Err(err),
        }
    } else if e.has_name("send") {
        Ok(Executable::Send { event: attr_or_default(e, "event"), target: e.attribute("target") })
    } else if e.has_name("script") {
        Ok(Executable::Script { src: e.attribute("src"), content: clone_opt(&e.text) })
    } else if e.has_name("assign") {
        Ok(
            Executable::Assign {
                location: attr_or_default(e, "location"),
                expr: attr_or_default(e, "expr"),
            },
        )
    } else if e.has_name("log") {
        Ok(Executable::Log { label: e.attribute("label"), expr: attr_or_default(e, "expr") })
    } else if e.has_name("cancel") {
        Ok(Executable::Cancel { sendid: attr_or_default(e, "sendid") })
    } else {
        Ok(Executable::Other(e.name.clone()))
    }
}

/// Parses every element of `cs` as executable content, in document order.
#[verifier::loop_isolation(false)]
pub fn parse_executables(cs: &Vec<Element>) -> (r: Result<Vec<Executable>, ParseError>)
    ensures
        r matches Ok(v) ==> spec_exec_fold(view_element_seq(cs@), Seq::empty()) == Ok::<
            Seq<SpecExecutable>,
            SpecParseError,
        >(view_exec_seq(v@)),
        r matches Err(err) ==> spec_exec_fold(view_element_seq(cs@), Seq::empty()) == Err::<
            Seq<SpecExecutable>,
            SpecParseError,
        >(err@),
    decreases cs,
{
    let mut out: Vec<Executable> = Vec::new();
    let ghost vs = view_element_seq(cs@);
    proof {
        lemma_view_element_seq(cs@);
        assert(vs.skip(0) =~= vs);
    }
    let mut i: usize = 0;
    while i < cs.len()
        invariant
            i <= cs.len(),
            vs == view_element_seq(cs@),
            vs.len() == cs@.len(),
            spec_exec_fold(vs.skip(i as int), view_exec_seq(out@)) == spec_exec_fold(
                vs,
                Seq::empty(),
            ),
        decreases cs.len() - i,
    {
        let c = &cs[i];
        proof {
            lemma_view_element_seq(cs@);
            assert(vs.skip(i as int)[0] == vs[i as int]);
            assert(vs.skip(i as int).drop_first() =~= vs.skip(i as int + 1));
        }
        match parse_single_executable(c) {
            Ok(x) => {
                proof {
                    lemma_view_exec_seq_push(out@, x);
                }
                out.push(x);
            },
            Err(err) => {
                return Err(err);
            },
        }
        i = i + 1;
    }
    proof {
        assert(vs.skip(i as int).len() == 0);
    }
    Ok(out)
}

// ---------------------------------------------------------------------------
// Transitions, params, content, finalize
// ---------------------------------------------------------------------------

/// A `<transition>`: its four optional attributes and its executable content.
pub open spec fn spec_parse_transition(e: SpecElement) -> Result<SpecTransition, SpecParseError> {
    match spec_exec_fold(e.children, Seq::empty()) {
        Ok(execs) => Ok(
            SpecTransition {
                event: spec_attr(e.attributes, "event"@),
                cond: spec_attr(e.attributes, "cond"@),
                target: spec_attr(e.attributes, "target"@),
                type_: spec_attr(e.attributes, "type"@),
                executables: execs,
            },
        ),
        Err(err) => Err(err),
    }
}

/// Parses a `<transition>` element.
pub fn parse_transition(e: &Element) -> (r: Result<Transition, ParseError>)
    ensures
        r matches Ok(t) ==> spec_parse_transition(e@) == Ok::<SpecTransition, SpecParseError>(
            view_transition(t),
        ),
        r matches Err(err) ==> spec_parse_transition(e@) == Err::<SpecTransition, SpecParseError>(
            err@,
        ),
{
    match parse_executables(&e.children) {
        Ok(executables) => Ok(
            Transition {
                event: e.attribute("event"),
                cond: e.attribute("cond"),
                target: e.attribute("target"),
                type_: e.attribute("type"),
                executables,
            },
        ),
        Err(err) => Err(err),
    }
}

/// A `<param>`: the `name` attribute is required.
pub open spec fn spec_parse_param(e: SpecElement) -> Result<SpecParam, SpecParseError> {
    match spec_attr(e.attributes, "name"@) {
        None => Err(SpecParseError::MissingAttribute("param name"@)),
        Some(n) => Ok(
            SpecParam {
                name: n,
                expr: spec_attr(e.attributes, "expr"@),
                location: spec_attr(e.attributes, "location"@),
            },
        ),
    }
}

/// Parses a `<param>` element.
pub fn parse_param(e: &Element) -> (r: Result<Param, ParseError>)
    ensures
        r matches Ok(p) ==> spec_parse_param(e@) == Ok::<SpecParam, SpecParseError>(view_param(p)),
        r matches Err(err) ==> spec_parse_param(e@) == Err::<SpecParam, SpecParseError>(err@),
{
    match e.attribute("name") {
        None => Err(ParseError::MissingAttribute("param name".to_owned())),
        Some(name) => Ok(
            Param { name, expr: e.attribute("expr"), location: e.attribute("location") },
        ),
    }
}

/// A `<content>`: an optional expression and the element's own text.
pub open spec fn spec_parse_content(e: SpecElement) -> Result<SpecContent, SpecParseError> {
    Ok(SpecContent { expr: spec_attr(e.attributes, "expr"@), content: e.text })
}

/// Parses a `<content>` element.
pub fn parse_content(e: &Element) -> (r: Result<Content, ParseError>)
    ensures
        r matches Ok(c) ==> spec_parse_content(e@) == Ok::<SpecContent, SpecParseError>(
            view_content(c),
        ),
        r matches Err(err) ==> spec_parse_content(e@) == Err::<SpecContent, SpecParseError>(err@),
{
    Ok(Content { expr: e.attribute("expr"), content: clone_opt(&e.text) })
}

/// A `<finalize>`: its executable content.
pub open spec fn spec_parse_finalize(e: SpecElement) -> Result<SpecFinalize, SpecParseError> {
    match spec_exec_fold(e.children, Seq::empty()) {
        Ok(execs) => Ok(SpecFinalize { executables: execs }),
        Err(err) => Err(err),
    }
}

/// Parses a `<finalize>` element.
pub fn parse_finalize(e: &Element) -> (r: Result<Finalize, ParseError>)
    ensures
        r matches Ok(f) ==> spec_parse_finalize(e@) == Ok::<SpecFinalize, SpecParseError>(
            view_finalize(f),
        ),
        r matches Err(err) ==> spec_parse_finalize(e@) == Err::<SpecFinalize, SpecParseError>(
            err@,
        ),
{
    match parse_executables(&e.children) {
        Ok(executables) => Ok(Finalize { executables }),
        Err(err) => Err(err),
    }
}

// ---------------------------------------------------------------------------
// Initial, history, invoke, final, datamodel
// ---------------------------------------------------------------------------

/// The parse of the first `<transition>` child, or the structural error when
/// there is none: an `<initial>` must carry a transition.
pub open spec fn spec_initial_fold(cs: Seq<SpecElement>) -> Result<SpecTransition, SpecParseError>
    decreases cs,
{
    if cs.len() == 0 {
        Err(SpecParseError::InvalidStructure("Initial must have a transition"@))
    } else if cs[0].name == "transition"@ {
        spec_parse_transition(cs[0])
    } else {
        spec_initial_fold(cs.drop_first())
    }
}

/// An `<initial>`: its optional id and its first `<transition>` child.
pub open spec fn spec_parse_initial(e: SpecElement) -> Result<SpecInitial, SpecParseError> {
    match spec_initial_fold(e.children) {
        Ok(t) => Ok(SpecInitial { id: spec_attr(e.attributes, "id"@), transition: t }),
        Err(err) => Err(err),
    }
}

/// Parses an `<initial>` element.
#[verifier::loop_isolation(false)]
pub fn parse_initial(e: &Element) -> (r: Result<Initial, ParseError>)
    ensures
        r matches Ok(x) ==> spec_parse_initial(e@) == Ok::<SpecInitial, SpecParseError>(
            view_initial(x),
        ),
        r matches Err(err) ==> spec_parse_initial(e@) == Err::<SpecInitial, SpecParseError>(err@),
{
    let id = e.attribute("id");
    let ghost cs = view_element_seq(e.children@);
    proof {
        lemma_view_element_seq(e.children@);
        assert(cs.skip(0) =~= cs);
    }
    let mut i: usize = 0;
    while i < e.children.len()
        invariant
            i <= e.children.len(),
            spec_initial_fold(cs.skip(i as int)) == spec_initial_fold(cs),
        decreases e.children.len() - i,
    {
        let c = &e.children[i];
        proof {
            assert(cs.skip(i as int)[0] == cs[i as int]);
            assert(cs.skip(i as int).drop_first() =~= cs.skip(i as int + 1));
        }
        if c.has_name("transition") {
            match parse_transition(c) {
                Ok(t) => {
                    return Ok(Initial { id, transition: t });
                },
                Err(err) => {
                    return Err(err);
                },
            }
        }
        i = i + 1;
    }
    proof {
        assert(cs.skip(i as int).len() == 0);
    }
    Err(ParseError::InvalidStructure("Initial must have a transition".to_owned()))
}

/// The parse of the first `<transition>` child, if any.
pub open spec fn spec_history_fold(cs: Seq<SpecElement>) -> Result<
    Option<SpecTransition>,
    SpecParseError,
>
    decreases cs,
{
    if cs.len() == 0 {
        Ok(None)
    } else if cs[0].name == "transition"@ {
        match spec_parse_transition(cs[0]) {
            Ok(t) => Ok(Some(t)),
            Err(err) => Err(err),
        }
    } else {
        spec_history_fold(cs.drop_first())
    }
}

/// A `<history>`: id, type ("shallow" when absent) and its optional default
/// transition.
pub open spec fn spec_parse_history(e: SpecElement) -> Result<SpecHistory, SpecParseError> {
    match spec_history_fold(e.children) {
        Ok(t) => Ok(
            SpecHistory {
                id: spec_attr(e.attributes, "id"@),
                type_: match spec_attr(e.attributes, "type"@) {
                    Some(v) => v,
                    None => "shallow"@,
                },
                transition: t,
            },
        ),
        Err(err) => Err(err),
    }
}

/// Parses a `<history>` element.
#[verifier::loop_isolation(false)]
pub fn parse_history(e: &Element) -> (r: Result<History, ParseError>)
    ensures
        r matches Ok(x) ==> spec_parse_history(e@) == Ok::<SpecHistory, SpecParseError>(
            view_history(x),
        ),
        r matches Err(err) ==> spec_parse_history(e@) == Err::<SpecHistory, SpecParseError>(err@),
{
    let id = e.attribute("id");
    let type_ = match e.attribute("type") {
        Some(v) => v,
        None => "shallow".to_owned(),
    };
    let ghost cs = view_element_seq(e.children@);
    proof {
        lemma_view_element_seq(e.children@);
        assert(cs.skip(0) =~= cs);
    }
    let mut i: usize = 0;
    while i < e.children.len()
        invariant
            i <= e.children.len(),
            spec_history_fold(cs.skip(i as int)) == spec_history_fold(cs),
        decreases e.children.len() - i,
    {
        let c = &e.children[i];
        proof {
            assert(cs.skip(i as int)[0] == cs[i as int]);
            assert(cs.skip(i as int).drop_first() =~= cs.skip(i as int + 1));
        }
        if c.has_name("transition") {
            match parse_transition(c) {
                Ok(t) => {
                    return Ok(History { id, type_, transition: Some(t) });
                },
                Err(err) => {
                    return Err(err);
                },
            }
        }
        i = i + 1;
    }
    proof {
        assert(cs.skip(i as int).len() == 0);
    }
    Ok(History { id, type_, transition: None })
}

/// The children of an `<invoke>`, folded into the invocation being built:
/// params in document order, the last `<finalize>` and `<content>` kept.
pub open spec fn spec_invoke_fold(cs: Seq<SpecElement>, acc: SpecInvoke) -> Result<
    SpecInvoke,
    SpecParseError,
>
    decreases cs,
{
    if cs.len() == 0 {
        Ok(acc)
    } else if cs[0].name == "param"@ {
        match spec_parse_param(cs[0]) {
            Ok(p) => spec_invoke_fold(
                cs.drop_first(),
                SpecInvoke { params: acc.params.push(p), ..acc },
            ),
            Err(err) => Err(err),
        }
    } else if cs[0].name == "finalize"@ {
        match spec_parse_finalize(cs[0]) {
            Ok(f) => spec_invoke_fold(cs.drop_first(), SpecInvoke { finalize: Some(f), ..acc }),
            Err(err) => Err(err),
        }
    } else if cs[0].name == "content"@ {
        match spec_parse_content(cs[0]) {
            Ok(c) => spec_invoke_fold(cs.drop_first(), SpecInvoke { content: Some(c), ..acc }),
            Err(err) => Err(err),
        }
    } else {
        spec_invoke_fold(cs.drop_first(), acc)
    }
}

/// An `<invoke>`: its attributes (`type` defaults to the empty string) and
/// its `<param>`, `<finalize>` and `<content>` children.
pub open spec fn spec_parse_invoke(e: SpecElement) -> Result<SpecInvoke, SpecParseError> {
    spec_invoke_fold(
        e.children,
        SpecInvoke {
            type_: spec_attr_or_empty(e, "type"@),
            src: spec_attr(e.attributes, "src"@),
            id: spec_attr(e.attributes, "id"@),
            params: Seq::empty(),
            finalize: None,
            content: None,
        },
    )
}

/// Parses an `<invoke>` element.
#[verifier::loop_isolation(false)]
pub fn parse_invoke(e: &Element) -> (r: Result<Invoke, ParseError>)
    ensures
        r matches Ok(x) ==> spec_parse_invoke(e@) == Ok::<SpecInvoke, SpecParseError>(
            view_invoke(x),
        ),
        r matches Err(err) ==> spec_parse_invoke(e@) == Err::<SpecInvoke, SpecParseError>(err@),
{
    let mut iv = Invoke {
        type_: attr_or_default(e, "type"),
        src: e.attribute("src"),
        id: e.attribute("id"),
        params: Vec::new(),
        finalize: None,
        content: None,
    };
    let ghost cs = view_element_seq(e.children@);
    proof {
        lemma_view_element_seq(e.children@);
        assert(cs.skip(0) =~= cs);
        assert(view_param_seq(iv.params@) =~= Seq::<SpecParam>::empty());
    }
    let mut i: usize = 0;
    while i < e.children.len()
        invariant
            i <= e.children.len(),
            spec_invoke_fold(cs.skip(i as int), view_invoke(iv)) == spec_parse_invoke(e@),
        decreases e.children.len() - i,
    {
        let c = &e.children[i];
        proof {
            assert(cs.skip(i as int)[0] == cs[i as int]);
            assert(cs.skip(i as int).drop_first() =~= cs.skip(i as int + 1));
        }
        if c.has_name("param") {
            match parse_param(c) {
                Ok(p) => {
                    proof {
                        assert(view_param_seq(iv.params@.push(p)) =~= view_param_seq(
                            iv.params@,
                        ).push(view_param(p)));
                    }
                    iv.params.push(p);
                },
                Err(err) => {
                    return Err(err);
                },
            }
        } else if c.has_name("finalize") {
            match parse_finalize(c) {
                Ok(f) => {
                    iv.finalize = Some(f);
                },
                Err(err) => {
                    return Err(err);
                },
            }
        } else if c.has_name("content") {
            match parse_content(c) {
                Ok(ct) => {
                    iv.content = Some(ct);
                },
                Err(err) => {
                    return Err(err);
                },
            }
        }
        i = i + 1;
    }
    proof {
        assert(cs.skip(i as int).len() == 0);
    }
    Ok(iv)
}

/// The children of a `<final>`, folded into its entry and exit lists.
pub open spec fn spec_final_fold(cs: Seq<SpecElement>, acc: SpecFinal) -> Result<
    SpecFinal,
    SpecParseError,
>
    decreases cs,
{
    if cs.len() == 0 {
        Ok(acc)
    } else if cs[0].name == "onentry"@ {
        match spec_exec_fold(cs[0].children, Seq::empty()) {
            Ok(xs) => spec_final_fold(
                cs.drop_first(),
                SpecFinal { onentry: acc.onentry + xs, ..acc },
            ),
            Err(err) => Err(err),
        }
    } else if cs[0].name == "onexit"@ {
        match spec_exec_fold(cs[0].children, Seq::empty()) {
            Ok(xs) => spec_final_fold(cs.drop_first(), SpecFinal { onexit: acc.onexit + xs, ..acc }),
            Err(err) => Err(err),
        }
    } else {
        spec_final_fold(cs.drop_first(), acc)
    }
}

/// A `<final>`: its id and its `<onentry>`/`<onexit>` content.
pub open spec fn spec_parse_final(e: SpecElement) -> Result<SpecFinal, SpecParseError> {
    spec_final_fold(
        e.children,
        SpecFinal {
            id: spec_attr(e.attributes, "id"@),
            onentry: Seq::empty(),
            onexit: Seq::empty(),
        },
    )
}

/// Parses a `<final>` element.
#[verifier::loop_isolation(false)]
pub fn parse_final(e: &Element) -> (r: Result<Final, ParseError>)
    ensures
        r matches Ok(x) ==> spec_parse_final(e@) == Ok::<SpecFinal, SpecParseError>(view_final(x)),
        r matches Err(err) ==> spec_parse_final(e@) == Err::<SpecFinal, SpecParseError>(err@),
{
    let mut f = Final { id: e.attribute("id"), onentry: Vec::new(), onexit: Vec::new() };
    let ghost cs = view_element_seq(e.children@);
    proof {
        lemma_view_element_seq(e.children@);
        assert(cs.skip(0) =~= cs);
        assert(view_exec_seq(f.onentry@) =~= Seq::<SpecExecutable>::empty());
        assert(view_exec_seq(f.onexit@) =~= Seq::<SpecExecutable>::empty());
    }
    let mut i: usize = 0;
    while i < e.children.len()
        invariant
            i <= e.children.len(),
            spec_final_fold(cs.skip(i as int), view_final(f)) == spec_parse_final(e@),
        decreases e.children.len() - i,
    {
        let c = &e.children[i];
        proof {
            assert(cs.skip(i as int)[0] == cs[i as int]);
            assert(cs.skip(i as int).drop_first() =~= cs.skip(i as int + 1));
        }
        if c.has_name("onentry") {
            match parse_executables(&c.children) {
                Ok(mut xs) => {
                    proof {
                        crate::ast::lemma_view_exec_seq_concat(f.onentry@, xs@);
                    }
                    f.onentry.append(&mut xs);
                },
                Err(err) => {
                    return Err(err);
                },
            }
        } else if c.has_name("onexit") {
            match parse_executables(&c.children) {
                Ok(mut xs) => {
                    proof {
                        crate::ast::lemma_view_exec_seq_concat(f.onexit@, xs@);
                    }
                    f.onexit.append(&mut xs);
                },
                Err(err) => {
                    return Err(err);
                },
            }
        }
        i = i + 1;
    }
    proof {
        assert(cs.skip(i as int).len() == 0);
    }
    Ok(f)
}

/// The `<data>` children of a `<datamodel>`, in document order; each must
/// carry an `id`.
pub open spec fn spec_data_fold(cs: Seq<SpecElement>, acc: Seq<SpecData>) -> Result<
    Seq<SpecData>,
    SpecParseError,
>
    decreases cs,
{
    if cs.len() == 0 {
        Ok(acc)
    } else if cs[0].name == "data"@ {
        match spec_attr(cs[0].attributes, "id"@) {
            None => Err(SpecParseError::MissingAttribute("data id"@)),
            Some(id) => spec_data_fold(
                cs.drop_first(),
                acc.push(
                    SpecData {
                        id,
                        expr: spec_attr(cs[0].attributes, "expr"@),
                        src: spec_attr(cs[0].attributes, "src"@),
                        content: cs[0].text,
                    },
                ),
            ),
        }
    } else {
        spec_data_fold(cs.drop_first(), acc)
    }
}

/// Parses a `<datamodel>` element into its list of data items.
#[verifier::loop_isolation(false)]
pub fn parse_datamodel(e: &Element) -> (r: Result<Vec<Data>, ParseError>)
    ensures
        r matches Ok(v) ==> spec_data_fold(e@.children, Seq::empty()) == Ok::<
            Seq<SpecData>,
            SpecParseError,
        >(view_data_seq(v@)),
        r matches Err(err) ==> spec_data_fold(e@.children, Seq::empty()) == Err::<
            Seq<SpecData>,
            SpecParseError,
        >(err@),
{
    let mut out: Vec<Data> = Vec::new();
    let ghost cs = view_element_seq(e.children@);
    proof {
        lemma_view_element_seq(e.children@);
        assert(cs.skip(0) =~= cs);
        assert(view_data_seq(out@) =~= Seq::<SpecData>::empty());
    }
    let mut i: usize = 0;
    while i < e.children.len()
        invariant
            i <= e.children.len(),
            spec_data_fold(cs.skip(i as int), view_data_seq(out@)) == spec_data_fold(
                cs,
                Seq::empty(),
            ),
        decreases e.children.len() - i,
    {
        let c = &e.children[i];
        proof {
            assert(cs.skip(i as int)[0] == cs[i as int]);
            assert(cs.skip(i as int).drop_first() =~= cs.skip(i as int + 1));
        }
        if c.has_name("data") {
            match c.attribute("id") {
                None => {
                    return Err(ParseError::MissingAttribute("data id".to_owned()));
                },
                Some(id) => {
                    let d = Data {
                        id,
                        expr: c.attribute("expr"),
                        src: c.attribute("src"),
                        content: clone_opt(&c.text),
                    };
                    proof {
                        assert(view_data_seq(out@.push(d)) =~= view_data_seq(out@).push(
                            view_data(d),
                        ));
                    }
                    out.push(d);
                },
            }
        }
        i = i + 1;
    }
    proof {
        assert(cs.skip(i as int).len() == 0);
    }
    Ok(out)
}

// ---------------------------------------------------------------------------
// State-like elements
// ---------------------------------------------------------------------------

/// The children of a `<state>`, folded in document order into the state
/// being built.
pub open spec fn spec_state_fold(cs: Seq<SpecElement>, acc: SpecState) -> Result<
    SpecState,
    SpecParseError,
>
    decreases cs,
{
    if cs.len() == 0 {
        Ok(acc)
    } else if cs[0].name == "initial"@ {
        match spec_parse_initial(cs[0]) {
            Ok(x) => spec_state_fold(
                cs.drop_first(),
                SpecState { initial_element: Some(x), ..acc },
            ),
            Err(err) => Err(err),
        }
    } else if cs[0].name == "transition"@ {
        match spec_parse_transition(cs[0]) {
            Ok(t) => spec_state_fold(
                cs.drop_first(),
                SpecState { transitions: acc.transitions.push(t), ..acc },
            ),
            Err(err) => Err(err),
        }
    } else if cs[0].name == "onentry"@ {
        match spec_exec_fold(cs[0].children, Seq::empty()) {
            Ok(xs) => spec_state_fold(
                cs.drop_first(),
                SpecState { onentry: acc.onentry + xs, ..acc },
            ),
            Err(err) => Err(err),
        }
    } else if cs[0].name == "onexit"@ {
        match spec_exec_fold(cs[0].children, Seq::empty()) {
            Ok(xs) => spec_state_fold(cs.drop_first(), SpecState { onexit: acc.onexit + xs, ..acc }),
            Err(err) => Err(err),
        }
    } else if cs[0].name == "state"@ {
        match spec_parse_state(cs[0]) {
            Ok(s) => spec_state_fold(
                cs.drop_first(),
                SpecState { children: acc.children.push(SpecStateLike::State(s)), ..acc },
            ),
            Err(err) => Err(err),
        }
    } else if cs[0].name == "parallel"@ {
        match spec_parse_parallel(cs[0]) {
            Ok(p) => spec_state_fold(
                cs.drop_first(),
                SpecState { children: acc.children.push(SpecStateLike::Parallel(p)), ..acc },
            ),
            Err(err) => Err(err),
        }
    } else if cs[0].name == "final"@ {
        match spec_parse_final(cs[0]) {
            Ok(f) => spec_state_fold(
                cs.drop_first(),
                SpecState { children: acc.children.push(SpecStateLike::Final(f)), ..acc },
            ),
            Err(err) => Err(err),
        }
    } else if cs[0].name == "history"@ {
        match spec_parse_history(cs[0]) {
            Ok(h) => spec_state_fold(
                cs.drop_first(),
                SpecState { children: acc.children.push(SpecStateLike::History(h)), ..acc },
            ),
            Err(err) => Err(err),
        }
    } else if cs[0].name == "invoke"@ {
        match spec_parse_invoke(cs[0]) {
            Ok(iv) => spec_state_fold(
                cs.drop_first(),
                SpecState { invokes: acc.invokes.push(iv), ..acc },
            ),
            Err(err) => Err(err),
        }
    } else {
        spec_state_fold(cs.drop_first(), acc)
    }
}

/// A `<state>`: its attributes and its children, folded in document order.
pub open spec fn spec_parse_state(e: SpecElement) -> Result<SpecState, SpecParseError>
    decreases e,
{
    spec_state_fold(
        e.children,
        SpecState {
            id: spec_attr(e.attributes, "id"@),
            initial: spec_attr(e.attributes, "initial"@),
            initial_element: None,
            transitions: Seq::empty(),
            onentry: Seq::empty(),
            onexit: Seq::empty(),
            children: Seq::empty(),
            invokes: Seq::empty(),
        },
    )
}

/// The children of a `<parallel>`, folded in document order.
pub open spec fn spec_parallel_fold(cs: Seq<SpecElement>, acc: SpecParallel) -> Result<
    SpecParallel,
    SpecParseError,
>
    decreases cs,
{
    if cs.len() == 0 {
        Ok(acc)
    } else if cs[0].name == "transition"@ {
        match spec_parse_transition(cs[0]) {
            Ok(t) => spec_parallel_fold(
                cs.drop_first(),
                SpecParallel { transitions: acc.transitions.push(t), ..acc },
            ),
            Err(err) => Err(err),
        }
    } else if cs[0].name == "onentry"@ {
        match spec_exec_fold(cs[0].children, Seq::empty()) {
            Ok(xs) => spec_parallel_fold(
                cs.drop_first(),
                SpecParallel { onentry: acc.onentry + xs, ..acc },
            ),
            Err(err) => Err(err),
        }
    } else if cs[0].name == "onexit"@ {
        match spec_exec_fold(cs[0].children, Seq::empty()) {
            Ok(xs) => spec_parallel_fold(
                cs.drop_first(),
                SpecParallel { onexit: acc.onexit + xs, ..acc },
            ),
            Err(err) => Err(err),
        }
    } else if cs[0].name == "state"@ {
        match spec_parse_state(cs[0]) {
            Ok(s) => spec_parallel_fold(
                cs.drop_first(),
                SpecParallel { children: acc.children.push(SpecStateLike::State(s)), ..acc },
            ),
            Err(err) => Err(err),
        }
    } else if cs[0].name == "parallel"@ {
        match spec_parse_parallel(cs[0]) {
            Ok(p) => spec_parallel_fold(
                cs.drop_first(),
                SpecParallel { children: acc.children.push(SpecStateLike::Parallel(p)), ..acc },
            ),
            Err(err) => Err(err),
        }
    } else if cs[0].name == "final"@ {
        match spec_parse_final(cs[0]) {
            Ok(f) => spec_parallel_fold(
                cs.drop_first(),
                SpecParallel { children: acc.children.push(SpecStateLike::Final(f)), ..acc },
            ),
            Err(err) => Err(err),
        }
    } else if cs[0].name == "history"@ {
        match spec_parse_history(cs[0]) {
            Ok(h) => spec_parallel_fold(
                cs.drop_first(),
                SpecParallel { children: acc.children.push(SpecStateLike::History(h)), ..acc },
            ),
            Err(err) => Err(err),
        }
    } else if cs[0].name == "invoke"@ {
        match spec_parse_invoke(cs[0]) {
            Ok(iv) => spec_parallel_fold(
                cs.drop_first(),
                SpecParallel { invokes: acc.invokes.push(iv), ..acc },
            ),
            Err(err) => Err(err),
        }
    } else {
        spec_parallel_fold(cs.drop_first(), acc)
    }
}

/// A `<parallel>`: its id and its children, folded in document order.
pub open spec fn spec_parse_parallel(e: SpecElement) -> Result<SpecParallel, SpecParseError>
    decreases e,
{
    spec_parallel_fold(
        e.children,
        SpecParallel {
            id: spec_attr(e.attributes, "id"@),
            transitions: Seq::empty(),
            onentry: Seq::empty(),
            onexit: Seq::empty(),
            children: Seq::empty(),
            invokes: Seq::empty(),
        },
    )
}

/// Parses a `<state>` element.
#[verifier::loop_isolation(false)]
pub fn parse_state(e: &Element) -> (r: Result<State, ParseError>)
    ensures
        r matches Ok(s) ==> spec_parse_state(e@) == Ok::<SpecState, SpecParseError>(view_state(s)),
        r matches Err(err) ==> spec_parse_state(e@) == Err::<SpecState, SpecParseError>(err@),
    decreases e,
{
    let mut st = State {
        id: e.attribute("id"),
        initial: e.attribute("initial"),
        initial_element: None,
        transitions: Vec::new(),
        onentry: Vec::new(),
        onexit: Vec::new(),
        children: Vec::new(),
        invokes: Vec::new(),
    };
    let ghost cs = view_element_seq(e.children@);
    proof {
        lemma_view_element_seq(e.children@);
        assert(cs.skip(0) =~= cs);
        assert(view_transition_seq(st.transitions@) =~= Seq::<SpecTransition>::empty());
        assert(view_exec_seq(st.onentry@) =~= Seq::<SpecExecutable>::empty());
        assert(view_exec_seq(st.onexit@) =~= Seq::<SpecExecutable>::empty());
        assert(view_forest(st.children@) =~= Seq::<SpecStateLike>::empty());
        assert(view_invoke_seq(st.invokes@) =~= Seq::<SpecInvoke>::empty());
    }
    let mut i: usize = 0;
    while i < e.children.len()
        invariant
            i <= e.children.len(),
            spec_state_fold(cs.skip(i as int), view_state(st)) == spec_parse_state(e@),
        decreases e.children.len() - i,
    {
        let c = &e.children[i];
        proof {
            assert(cs.skip(i as int)[0] == cs[i as int]);
            assert(cs.skip(i as int).drop_first() =~= cs.skip(i as int + 1));
        }
        if c.has_name("initial") {
            match parse_initial(c) {
                Ok(x) => {
                    st.initial_element = Some(x);
                },
                Err(err) => {
                    return Err(err);
                },
            }
        } else if c.has_name("transition") {
            match parse_transition(c) {
                Ok(t) => {
                    proof {
                        lemma_view_transition_seq_push(st.transitions@, t);
                    }
                    st.transitions.push(t);
                },
                Err(err) => {
                    return Err(err);
                },
            }
        } else if c.has_name("onentry") {
            match parse_executables(&c.children) {
                Ok(mut xs) => {
                    proof {
                        crate::ast::lemma_view_exec_seq_concat(st.onentry@, xs@);
                    }
                    st.onentry.append(&mut xs);
                },
                Err(err) => {
                    return Err(err);
                },
            }
        } else if c.has_name("onexit") {
            match parse_executables(&c.children) {
                Ok(mut xs) => {
                    proof {
                        crate::ast::lemma_view_exec_seq_concat(st.onexit@, xs@);
                    }
                    st.onexit.append(&mut xs);
                },
                Err(err) => {
                    return Err(err);
                },
            }
        } else if c.has_name("state") {
            match parse_state(c) {
                Ok(s) => {
                    proof {
                        lemma_view_forest_push(st.children@, StateLike::State(s));
                    }
                    st.children.push(StateLike::State(s));
                },
                Err(err) => {
                    return Err(err);
                },
            }
        } else if c.has_name("parallel") {
            match parse_parallel(c) {
                Ok(p) => {
                    proof {
                        lemma_view_forest_push(st.children@, StateLike::Parallel(p));
                    }
                    st.children.push(StateLike::Parallel(p));
                },
                Err(err) => {
                    return Err(err);
                },
            }
        } else if c.has_name("final") {
            match parse_final(c) {
                Ok(f) => {
                    proof {
                        lemma_view_forest_push(st.children@, StateLike::Final(f));
                    }
                    st.children.push(StateLike::Final(f));
                },
                Err(err) => {
                    return Err(err);
                },
            }
        } else if c.has_name("history") {
            match parse_history(c) {
                Ok(h) => {
                    proof {
                        lemma_view_forest_push(st.children@, StateLike::History(h));
                    }
                    st.children.push(StateLike::History(h));
                },
                Err(err) => {
                    return Err(err);
                },
            }
        } else if c.has_name("invoke") {
            match parse_invoke(c) {
                Ok(iv) => {
                    proof {
                        lemma_view_invoke_seq_push(st.invokes@, iv);
                    }
                    st.invokes.push(iv);
                },
                Err(err) => {
                    return Err(err);
                },
            }
        }
        i = i + 1;
    }
    proof {
        assert(cs.skip(i as int).len() == 0);
    }
    Ok(st)
}

/// Parses a `<parallel>` element.
#[verifier::loop_isolation(false)]
pub fn parse_parallel(e: &Element) -> (r: Result<Parallel, ParseError>)
    ensures
        r matches Ok(p) ==> spec_parse_parallel(e@) == Ok::<SpecParallel, SpecParseError>(
            view_parallel(p),
        ),
        r matches Err(err) ==> spec_parse_parallel(e@) == Err::<SpecParallel, SpecParseError>(
            err@,
        ),
    decreases e,
{
    let mut pl = Parallel {
        id: e.attribute("id"),
        transitions: Vec::new(),
        onentry: Vec::new(),
        onexit: Vec::new(),
        children: Vec::new(),
        invokes: Vec::new(),
    };
    let ghost cs = view_element_seq(e.children@);
    proof {
        lemma_view_element_seq(e.children@);
        assert(cs.skip(0) =~= cs);
        assert(view_transition_seq(pl.transitions@) =~= Seq::<SpecTransition>::empty());
        assert(view_exec_seq(pl.onentry@) =~= Seq::<SpecExecutable>::empty());
        assert(view_exec_seq(pl.onexit@) =~= Seq::<SpecExecutable>::empty());
        assert(view_forest(pl.children@) =~= Seq::<SpecStateLike>::empty());
        assert(view_invoke_seq(pl.invokes@) =~= Seq::<SpecInvoke>::empty());
    }
    let mut i: usize = 0;
    while i < e.children.len()
        invariant
            i <= e.children.len(),
            spec_parallel_fold(cs.skip(i as int), view_parallel(pl)) == spec_parse_parallel(e@),
        decreases e.children.len() - i,
    {
        let c = &e.children[i];
        proof {
            assert(cs.skip(i as int)[0] == cs[i as int]);
            assert(cs.skip(i as int).drop_first() =~= cs.skip(i as int + 1));
        }
        if c.has_name("transition") {
            match parse_transition(c) {
                Ok(t) => {
                    proof {
                        lemma_view_transition_seq_push(pl.transitions@, t);
                    }
                    pl.transitions.push(t);
                },
                Err(err) => {
                    return Err(err);
                },
            }
        } else if c.has_name("onentry") {
            match parse_executables(&c.children) {
                Ok(mut xs) => {
                    proof {
                        crate::ast::lemma_view_exec_seq_concat(pl.onentry@, xs@);
                    }
                    pl.onentry.append(&mut xs);
                },
                Err(err) => {
                    return Err(err);
                },
            }
        } else if c.has_name("onexit") {
            match parse_executables(&c.children) {
                Ok(mut xs) => {
                    proof {
                        crate::ast::lemma_view_exec_seq_concat(pl.onexit@, xs@);
                    }
                    pl.onexit.append(&mut xs);
                },
                Err(err) => {
                    return Err(err);
                },
            }
        } else if c.has_name("state") {
            match parse_state(c) {
                Ok(s) => {
                    proof {
                        lemma_view_forest_push(pl.children@, StateLike::State(s));
                    }
                    pl.children.push(StateLike::State(s));
                },
                Err(err) => {
                    return Err(err);
                },
            }
        } else if c.has_name("parallel") {
            match parse_parallel(c) {
                Ok(p) => {
                    proof {
                        lemma_view_forest_push(pl.children@, StateLike::Parallel(p));
                    }
                    pl.children.push(StateLike::Parallel(p));
                },
                Err(err) => {
                    return Err(err);
                },
            }
        } else if c.has_name("final") {
            match parse_final(c) {
                Ok(f) => {
                    proof {
                        lemma_view_forest_push(pl.children@, StateLike::Final(f));
                    }
                    pl.children.push(StateLike::Final(f));
                },
                Err(err) => {
                    return Err(err);
                },
            }
        } else if c.has_name("history") {
            match parse_history(c) {
                Ok(h) => {
                    proof {
                        lemma_view_forest_push(pl.children@, StateLike::History(h));
                    }
                    pl.children.push(StateLike::History(h));
                },
                Err(err) => {
                    return Err(err);
                },
            }
        } else if c.has_name("invoke") {
            match parse_invoke(c) {
                Ok(iv) => {
                    proof {
                        lemma_view_invoke_seq_push(pl.invokes@, iv);
                    }
                    pl.invokes.push(iv);
                },
                Err(err) => {
                    return Err(err);
                },
            }
        }
        i = i + 1;
    }
    proof {
        assert(cs.skip(i as int).len() == 0);
    }
    Ok(pl)
}

// ---------------------------------------------------------------------------
// The document root
// ---------------------------------------------------------------------------

/// The children of `<scxml>`, folded in document order into the lists of
/// top-level state-like elements and data items; unrecognized tags are
/// skipped.
pub open spec fn spec_root_fold(
    cs: Seq<SpecElement>,
    states: Seq<SpecStateLike>,
    datas: Seq<SpecData>,
) -> Result<(Seq<SpecStateLike>, Seq<SpecData>), SpecParseError>
    decreases cs,
{
    if cs.len() == 0 {
        Ok((states, datas))
    } else if cs[0].name == "state"@ {
        match spec_parse_state(cs[0]) {
            Ok(s) => spec_root_fold(cs.drop_first(), states.push(SpecStateLike::State(s)), datas),
            Err(err) => Err(err),
        }
    } else if cs[0].name == "parallel"@ {
        match spec_parse_parallel(cs[0]) {
            Ok(p) => spec_root_fold(
                cs.drop_first(),
                states.push(SpecStateLike::Parallel(p)),
                datas,
            ),
            Err(err) => Err(err),
        }
    } else if cs[0].name == "final"@ {
        match spec_parse_final(cs[0]) {
            Ok(f) => spec_root_fold(cs.drop_first(), states.push(SpecStateLike::Final(f)), datas),
            Err(err) => Err(err),
        }
    } else if cs[0].name == "history"@ {
        match spec_parse_history(cs[0]) {
            Ok(h) => spec_root_fold(cs.drop_first(), states.push(SpecStateLike::History(h)), datas),
            Err(err) => Err(err),
        }
    } else if cs[0].name == "datamodel"@ {
        match spec_data_fold(cs[0].children, Seq::empty()) {
            Ok(ds) => spec_root_fold(cs.drop_first(), states, datas + ds),
            Err(err) => Err(err),
        }
    } else {
        spec_root_fold(cs.drop_first(), states, datas)
    }
}

/// The whole grammar: namespace gate, root tag, version gate, attributes,
/// then the children fold.
pub open spec fn spec_parse_doc(root: SpecElement, relaxed: bool) -> Result<
    SpecScxml,
    SpecParseError,
> {
    if !relaxed && root.namespace != Some(spec_scxml_ns()) {
        Err(SpecParseError::InvalidNamespace(spec_scxml_ns()))
    } else if root.name != "scxml"@ {
        Err(SpecParseError::InvalidStructure("Root must be <scxml>"@))
    } else {
        match spec_attr(root.attributes, "version"@) {
            None => Err(SpecParseError::MissingAttribute("version"@)),
            Some(version) => if version != "1.0"@ {
                Err(SpecParseError::InvalidStructure("SCXML version must be 1.0"@))
            } else {
                match spec_root_fold(root.children, Seq::empty(), Seq::empty()) {
                    Ok((states, datas)) => Ok(
                        SpecScxml {
                            version,
                            initial: spec_attr(root.attributes, "initial"@),
                            datamodel: spec_attr(root.attributes, "datamodel"@),
                            states,
                            datamodel_elements: datas,
                        },
                    ),
                    Err(err) => Err(err),
                }
            },
        }
    }
}

/// Parses an SCXML document from its root element.
///
/// This is the whole grammar on the element-tree view of the document: the
/// tag, namespace and version gates, then the recursive descent. It is
/// proved equal to [`spec_parse_doc`] on every input.
#[verifier::loop_isolation(false)]
pub fn parse_document(root: &Element, options: &ParseOptions) -> (r: Result<Scxml, ParseError>)
    ensures
        r matches Ok(d) ==> spec_parse_doc(root@, options.relaxed_namespace) == Ok::<
            SpecScxml,
            SpecParseError,
        >(view_doc(d)),
        r matches Err(err) ==> spec_parse_doc(root@, options.relaxed_namespace) == Err::<
            SpecScxml,
            SpecParseError,
        >(err@),
{
    if !options.relaxed_namespace {
        let ns_ok = match &root.namespace {
            Some(ns) => str_eq(ns.as_str(), scxml_ns()),
            None => false,
        };
        if !ns_ok {
            return Err(ParseError::InvalidNamespace(scxml_ns().to_owned()));
        }
    }
    if !root.has_name("scxml") {
        return Err(ParseError::InvalidStructure("Root must be <scxml>".to_owned()));
    }
    let version = match root.attribute("version") {
        None => {
            return Err(ParseError::MissingAttribute("version".to_owned()));
        },
        Some(v) => v,
    };
    if !str_eq(version.as_str(), "1.0") {
        return Err(ParseError::InvalidStructure("SCXML version must be 1.0".to_owned()));
    }
    let initial = root.attribute("initial");
    let datamodel = root.attribute("datamodel");
    let mut states: Vec<StateLike> = Vec::new();
    let mut datamodel_elements: Vec<Data> = Vec::new();
    let ghost cs = view_element_seq(root.children@);
    proof {
        lemma_view_element_seq(root.children@);
        assert(cs.skip(0) =~= cs);
        assert(view_forest(states@) =~= Seq::<SpecStateLike>::empty());
        assert(view_data_seq(datamodel_elements@) =~= Seq::<SpecData>::empty());
    }
    let mut i: usize = 0;
    while i < root.children.len()
        invariant
            i <= root.children.len(),
            spec_root_fold(cs.skip(i as int), view_forest(states@), view_data_seq(
                datamodel_elements@,
            )) == spec_root_fold(cs, Seq::empty(), Seq::empty()),
        decreases root.children.len() - i,
    {
        let c = &root.children[i];
        proof {
            assert(cs.skip(i as int)[0] == cs[i as int]);
            assert(cs.skip(i as int).drop_first() =~= cs.skip(i as int + 1));
        }
        if c.has_name("state") {
            match parse_state(c) {
                Ok(s) => {
                    proof {
                        lemma_view_forest_push(states@, StateLike::State(s));
                    }
                    states.push(StateLike::State(s));
                },
                Err(err) => {
                    return Err(err);
                },
            }
        } else if c.has_name("parallel") {
            match parse_parallel(c) {
                Ok(p) => {
                    proof {
                        lemma_view_forest_push(states@, StateLike::Parallel(p));
                    }
                    states.push(StateLike::Parallel(p));
                },
                Err(err) => {
                    return Err(err);
                },
            }
        } else if c.has_name("final") {
            match parse_final(c) {
                Ok(f) => {
                    proof {
                        lemma_view_forest_push(states@, StateLike::Final(f));
                    }
                    states.push(StateLike::Final(f));
                },
                Err(err) => {
                    return Err(err);
                },
            }
        } else if c.has_name("history") {
            match parse_history(c) {
                Ok(h) => {
                    proof {
                        lemma_view_forest_push(states@, StateLike::History(h));
                    }
                    states.push(StateLike::History(h));
                },
                Err(err) => {
                    return Err(err);
                },
            }
        } else if c.has_name("datamodel") {
            match parse_datamodel(c) {
                Ok(mut ds) => {
                    proof {
                        assert(view_data_seq(datamodel_elements@ + ds@) =~= view_data_seq(
                            datamodel_elements@,
                        ) + view_data_seq(ds@));
                    }
                    datamodel_elements.append(&mut ds);
                },
                Err(err) => {
                    return Err(err);
                },
            }
        }
        i = i + 1;
    }
    proof {
        assert(cs.skip(i as int).len() == 0);
    }
    Ok(Scxml { version, initial, datamodel, states, datamodel_elements })
}



/// The namespace gate. In strict mode a root whose namespace is not the
/// SCXML URI — mismatched or missing — fails with `InvalidNamespace`; in
/// relaxed mode the namespace is never read, so parsing behaves exactly as
/// strict parsing of the same root carrying the SCXML namespace.
pub proof fn lemma_namespace_modes(root: SpecElement)
    ensures
        root.namespace != Some(spec_scxml_ns()) ==> spec_parse_doc(root, false) == Err::<
            SpecScxml,
            SpecParseError,
        >(SpecParseError::InvalidNamespace(spec_scxml_ns())),
        spec_parse_doc(root, true) == spec_parse_doc(
            SpecElement { namespace: Some(spec_scxml_ns()), ..root },
            false,
        ),
{
}

/// The version gate: on an accepted root element, a `version` attribute
/// other than "1.0" fails with `InvalidStructure`, and a missing one with
/// `MissingAttribute`, regardless of the rest of the document.
pub proof fn lemma_version_gate(root: SpecElement, relaxed: bool)
    ensures
        (relaxed || root.namespace == Some(spec_scxml_ns())) && root.name == "scxml"@ ==> (
        match spec_attr(root.attributes, "version"@) {
            Some(v) => v != "1.0"@ ==> spec_parse_doc(root, relaxed) == Err::<
                SpecScxml,
                SpecParseError,
            >(SpecParseError::InvalidStructure("SCXML version must be 1.0"@)),
            None => spec_parse_doc(root, relaxed) == Err::<SpecScxml, SpecParseError>(
                SpecParseError::MissingAttribute("version"@),
            ),
        }),
{
}

/// Parses an SCXML document from a string with custom options.
///
/// The XML text is first tokenized by the external collaborator into an
/// element tree — `Err(InvalidXml)` reports its failure — and the tree is
/// then parsed under the grammar exactly as [`parse_document`] states.
pub fn parse_scxml_with_options(xml: &str, options: ParseOptions) -> (r: Result<Scxml, ParseError>)
    ensures
        xml_tree_of(xml@) is None ==> (match r {
            Err(err) => err@ matches SpecParseError::InvalidXml(_),
            Ok(_) => false,
        }),
        xml_tree_of(xml@) matches Some(t) ==> (match r {
            Ok(d) => spec_parse_doc(t, options.relaxed_namespace) == Ok::<
                SpecScxml,
                SpecParseError,
            >(view_doc(d)),
            Err(err) => spec_parse_doc(t, options.relaxed_namespace) == Err::<
                SpecScxml,
                SpecParseError,
            >(err@),
        }),
{
    match parse_xml(xml) {
        Err(msg) => Err(ParseError::InvalidXml(msg)),
        Ok(root) => parse_document(&root, &options),
    }
}

/// Parses an SCXML document from a string using the default options: strict
/// namespace checking.
pub fn parse_scxml(xml: &str) -> (r: Result<Scxml, ParseError>)
    ensures
        xml_tree_of(xml@) is None ==> (match r {
            Err(err) => err@ matches SpecParseError::InvalidXml(_),
            Ok(_) => false,
        }),
        xml_tree_of(xml@) matches Some(t) ==> (match r {
            Ok(d) => spec_parse_doc(t, false) == Ok::<SpecScxml, SpecParseError>(view_doc(d)),
            Err(err) => spec_parse_doc(t, false) == Err::<SpecScxml, SpecParseError>(err@),
        }),
{
    parse_scxml_with_options(xml, ParseOptions::default())
}

} // verus!
