//! The abstract syntax tree for SCXML documents, together with its
//! mathematical model: every executable type has a spec-level mirror
//! (`Spec...`) whose strings are `Seq<char>` and whose lists are `Seq`,
//! and a view that maps the executable value onto the mirror.

use vstd::prelude::*;

verus! {

// ---------------------------------------------------------------------------
// Error taxonomy
// ---------------------------------------------------------------------------

/// Errors that can occur during SCXML parsing.
#[derive(Debug, Clone)]
pub enum ParseError {
    /// The XML text itself could not be tokenized; carries the tokenizer's message.
    InvalidXml(String),
    /// A required attribute is absent; carries the attribute name.
    MissingAttribute(String),
    /// The document shape breaks the grammar; carries the reason.
    InvalidStructure(String),
    /// Strict mode and the root namespace is not the SCXML URI; carries the expected URI.
    InvalidNamespace(String),
}

/// Errors that can occur during SCXML validation.
#[derive(Debug, Clone)]
pub enum ValidationError {
    /// The same id is declared twice in the document.
    DuplicateId(String),
    /// A transition target or the root `initial` resolves to no declared id.
    InvalidTarget(String),
    /// Reserved for a cycle among initial-state references; never raised.
    CircularInitial,
    /// A datamodel constraint is broken.
    InvalidDatamodel(String),
    /// A required element is absent.
    MissingElement(String),
}

/// Spec mirror of [`ParseError`].
pub enum SpecParseError {
    InvalidXml(Seq<char>),
    MissingAttribute(Seq<char>),
    InvalidStructure(Seq<char>),
    InvalidNamespace(Seq<char>),
}

/// Spec mirror of [`ValidationError`].
pub enum SpecValidationError {
    DuplicateId(Seq<char>),
    InvalidTarget(Seq<char>),
    CircularInitial,
    InvalidDatamodel(Seq<char>),
    MissingElement(Seq<char>),
}

pub open spec fn view_perr(e: ParseError) -> SpecParseError {
    match e {
        ParseError::InvalidXml(m) => SpecParseError::InvalidXml(m@),
        ParseError::MissingAttribute(m) => SpecParseError::MissingAttribute(m@),
        ParseError::InvalidStructure(m) => SpecParseError::InvalidStructure(m@),
        ParseError::InvalidNamespace(m) => SpecParseError::InvalidNamespace(m@),
    }
}

pub open spec fn view_verr(e: ValidationError) -> SpecValidationError {
    match e {
        ValidationError::DuplicateId(m) => SpecValidationError::DuplicateId(m@),
        ValidationError::InvalidTarget(m) => SpecValidationError::InvalidTarget(m@),
        ValidationError::CircularInitial => SpecValidationError::CircularInitial,
        ValidationError::InvalidDatamodel(m) => SpecValidationError::InvalidDatamodel(m@),
        ValidationError::MissingElement(m) => SpecValidationError::MissingElement(m@),
    }
}

impl View for ParseError {
    type V = SpecParseError;

    open spec fn view(&self) -> SpecParseError {
        view_perr(*self)
    }
}

impl View for ValidationError {
    type V = SpecValidationError;

    open spec fn view(&self) -> SpecValidationError {
        view_verr(*self)
    }
}

// ---------------------------------------------------------------------------
// The document tree
// ---------------------------------------------------------------------------

/// The root `<scxml>` element, containing the overall state machine definition.
#[derive(Debug)]
pub struct Scxml {
    /// The SCXML version (must be "1.0").
    pub version: String,
    /// The id of the initial state.
    pub initial: Option<String>,
    /// The datamodel type (e.g. "ecmascript").
    pub datamodel: Option<String>,
    /// Child states, parallels, finals, or histories, in document order.
    pub states: Vec<StateLike>,
    /// Data items of the top-level `<datamodel>` section, in document order.
    pub datamodel_elements: Vec<Data>,
}

/// A state-like element: `<state>`, `<parallel>`, `<final>` or `<history>`.
#[derive(Debug)]
pub enum StateLike {
    State(State),
    Parallel(Parallel),
    Final(Final),
    History(History),
}

/// A `<state>` element, which can contain substates and transitions.
#[derive(Debug)]
pub struct State {
    /// Unique identifier for the state.
    pub id: Option<String>,
    /// Initial substate id (attribute form).
    pub initial: Option<String>,
    /// Explicit `<initial>` child element.
    pub initial_element: Option<Initial>,
    /// Transitions from this state, in document order.
    pub transitions: Vec<Transition>,
    /// Executable content on entry.
    pub onentry: Vec<Executable>,
    /// Executable content on exit.
    pub onexit: Vec<Executable>,
    /// Child state-like elements, in document order.
    pub children: Vec<StateLike>,
    /// Invocations of external processes.
    pub invokes: Vec<Invoke>,
}

/// A `<parallel>` element whose children are concurrent regions.
#[derive(Debug)]
pub struct Parallel {
    /// Unique identifier for the parallel region.
    pub id: Option<String>,
    /// Transitions from this parallel region, in document order.
    pub transitions: Vec<Transition>,
    /// Executable content on entry.
    pub onentry: Vec<Executable>,
    /// Executable content on exit.
    pub onexit: Vec<Executable>,
    /// Child state-like elements, in document order.
    pub children: Vec<StateLike>,
    /// Invocations of external processes.
    pub invokes: Vec<Invoke>,
}

/// A `<final>` element, indicating an end state.
#[derive(Debug)]
pub struct Final {
    /// Unique identifier for the final state.
    pub id: Option<String>,
    /// Executable content on entry.
    pub onentry: Vec<Executable>,
    /// Executable content on exit.
    pub onexit: Vec<Executable>,
}

/// A `<history>` pseudo-state.
#[derive(Debug)]
pub struct History {
    /// Unique identifier for the history state.
    pub id: Option<String>,
    /// History type: "shallow" or "deep" ("shallow" when the attribute is absent).
    pub type_: String,
    /// Default transition for the history state.
    pub transition: Option<Transition>,
}

/// An `<initial>` element within a compound state.
#[derive(Debug)]
pub struct Initial {
    /// Optional id for the initial pseudo-state.
    pub id: Option<String>,
    /// The transition to the initial substate.
    pub transition: Transition,
}

/// A `<transition>` element.
#[derive(Debug)]
pub struct Transition {
    /// Event descriptor that triggers the transition.
    pub event: Option<String>,
    /// Guard expression (opaque to this library).
    pub cond: Option<String>,
    /// Target state id(s), space-separated when there are several.
    pub target: Option<String>,
    /// Transition type: "internal" or "external".
    pub type_: Option<String>,
    /// Executable content run when the transition is taken.
    pub executables: Vec<Executable>,
}

/// A `<data>` item of the datamodel.
#[derive(Debug, Clone)]
pub struct Data {
    /// Identifier of the data item, unique within the datamodel section.
    pub id: String,
    /// Expression initializing the data.
    pub expr: Option<String>,
    /// External source of the data.
    pub src: Option<String>,
    /// Inline content of the data.
    pub content: Option<String>,
}

/// An `<invoke>` element declaring an external process.
#[derive(Debug)]
pub struct Invoke {
    /// Kind of the invoked process (e.g. "vxml3"); empty when the attribute is absent.
    pub type_: String,
    /// Source of the invoked document.
    pub src: Option<String>,
    /// Unique identifier for the invocation.
    pub id: Option<String>,
    /// Parameters handed to the invocation, in document order.
    pub params: Vec<Param>,
    /// Executable content run when the invocation completes.
    pub finalize: Option<Finalize>,
    /// Inline content of the invocation.
    pub content: Option<Content>,
}

/// A `<param>` element within `<invoke>`.
#[derive(Debug, Clone)]
pub struct Param {
    /// Parameter name.
    pub name: String,
    /// Expression value.
    pub expr: Option<String>,
    /// Location expression.
    pub location: Option<String>,
}

/// A `<finalize>` element within `<invoke>`.
#[derive(Debug)]
pub struct Finalize {
    /// Executable content finalizing the invocation.
    pub executables: Vec<Executable>,
}

/// A `<content>` element.
#[derive(Debug, Clone)]
pub struct Content {
    /// Expression for the content.
    pub expr: Option<String>,
    /// Inline text of the content.
    pub content: Option<String>,
}

/// Executable content: the closed set of action elements.
#[derive(Debug)]
pub enum Executable {
    /// `<raise>`: raise an event.
    Raise { event: String },
    /// `<if>`: conditional, with the branches partitioned by an `<else/>` marker.
    If { cond: String, then: Vec<Executable>, else_: Vec<Executable> },
    /// `<foreach>`: loop over an array.
    Foreach { array: String, item: String, index: Option<String>, body: Vec<Executable> },
    /// `<send>`: send an event.
    Send { event: String, target: Option<String> },
    /// `<script>`: embedded script.
    Script { src: Option<String>, content: Option<String> },
    /// `<assign>`: update a data location.
    Assign { location: String, expr: String },
    /// `<log>`: log an expression.
    Log { label: Option<String>, expr: String },
    /// `<cancel>`: cancel a pending send.
    Cancel { sendid: String },
    /// Any unrecognized executable element, kept by tag name.
    Other(String),
}

/// Options customizing SCXML parsing behaviour.
#[derive(Debug, Clone)]
pub struct ParseOptions {
    /// When true, the root element's namespace is not checked.
    pub relaxed_namespace: bool,
}

impl Default for ParseOptions {
    /// The default options use strict namespace checking.
    fn default() -> (r: Self)
        ensures
            !r.relaxed_namespace,
    {
        ParseOptions { relaxed_namespace: false }
    }
}

// ---------------------------------------------------------------------------
// Spec mirrors of the document tree
// ---------------------------------------------------------------------------

/// Spec mirror of [`Scxml`].
#[verifier::ext_equal]
pub struct SpecScxml {
    pub version: Seq<char>,
    pub initial: Option<Seq<char>>,
    pub datamodel: Option<Seq<char>>,
    pub states: Seq<SpecStateLike>,
    pub datamodel_elements: Seq<SpecData>,
}

/// Spec mirror of [`StateLike`].
#[verifier::ext_equal]
pub enum SpecStateLike {
    State(SpecState),
    Parallel(SpecParallel),
    Final(SpecFinal),
    History(SpecHistory),
}

/// Spec mirror of [`State`].
#[verifier::ext_equal]
pub struct SpecState {
    pub id: Option<Seq<char>>,
    pub initial: Option<Seq<char>>,
    pub initial_element: Option<SpecInitial>,
    pub transitions: Seq<SpecTransition>,
    pub onentry: Seq<SpecExecutable>,
    pub onexit: Seq<SpecExecutable>,
    pub children: Seq<SpecStateLike>,
    pub invokes: Seq<SpecInvoke>,
}

/// Spec mirror of [`Parallel`].
#[verifier::ext_equal]
pub struct SpecParallel {
    pub id: Option<Seq<char>>,
    pub transitions: Seq<SpecTransition>,
    pub onentry: Seq<SpecExecutable>,
    pub onexit: Seq<SpecExecutable>,
    pub children: Seq<SpecStateLike>,
    pub invokes: Seq<SpecInvoke>,
}

/// Spec mirror of [`Final`].
#[verifier::ext_equal]
pub struct SpecFinal {
    pub id: Option<Seq<char>>,
    pub onentry: Seq<SpecExecutable>,
    pub onexit: Seq<SpecExecutable>,
}

/// Spec mirror of [`History`].
#[verifier::ext_equal]
pub struct SpecHistory {
    pub id: Option<Seq<char>>,
    pub type_: Seq<char>,
    pub transition: Option<SpecTransition>,
}

/// Spec mirror of [`Initial`].
#[verifier::ext_equal]
pub struct SpecInitial {
    pub id: Option<Seq<char>>,
    pub transition: SpecTransition,
}

/// Spec mirror of [`Transition`].
#[verifier::ext_equal]
pub struct SpecTransition {
    pub event: Option<Seq<char>>,
    pub cond: Option<Seq<char>>,
    pub target: Option<Seq<char>>,
    pub type_: Option<Seq<char>>,
    pub executables: Seq<SpecExecutable>,
}

/// Spec mirror of [`Data`].
#[verifier::ext_equal]
pub struct SpecData {
    pub id: Seq<char>,
    pub expr: Option<Seq<char>>,
    pub src: Option<Seq<char>>,
    pub content: Option<Seq<char>>,
}

/// Spec mirror of [`Invoke`].
#[verifier::ext_equal]
pub struct SpecInvoke {
    pub type_: Seq<char>,
    pub src: Option<Seq<char>>,
    pub id: Option<Seq<char>>,
    pub params: Seq<SpecParam>,
    pub finalize: Option<SpecFinalize>,
    pub content: Option<SpecContent>,
}

/// Spec mirror of [`Param`].
#[verifier::ext_equal]
pub struct SpecParam {
    pub name: Seq<char>,
    pub expr: Option<Seq<char>>,
    pub location: Option<Seq<char>>,
}

/// Spec mirror of [`Finalize`].
#[verifier::ext_equal]
pub struct SpecFinalize {
    pub executables: Seq<SpecExecutable>,
}

/// Spec mirror of [`Content`].
#[verifier::ext_equal]
pub struct SpecContent {
    pub expr: Option<Seq<char>>,
    pub content: Option<Seq<char>>,
}

/// Spec mirror of [`Executable`].
#[verifier::ext_equal]
pub enum SpecExecutable {
    Raise { event: Seq<char> },
    If { cond: Seq<char>, then: Seq<SpecExecutable>, else_: Seq<SpecExecutable> },
    Foreach { array: Seq<char>, item: Seq<char>, index: Option<Seq<char>>, body: Seq<SpecExecutable> },
    Send { event: Seq<char>, target: Option<Seq<char>> },
    Script { src: Option<Seq<char>>, content: Option<Seq<char>> },
    Assign { location: Seq<char>, expr: Seq<char> },
    Log { label: Option<Seq<char>>, expr: Seq<char> },
    Cancel { sendid: Seq<char> },
    Other(Seq<char>),
}

// ---------------------------------------------------------------------------
// Views: the map from executable values onto the spec mirrors
// ---------------------------------------------------------------------------

pub open spec fn view_param(p: Param) -> SpecParam {
    SpecParam { name: p.name@, expr: p.expr.deep_view(), location: p.location.deep_view() }
}

pub open spec fn view_param_seq(ps: Seq<Param>) -> Seq<SpecParam> {
    ps.map(|i: int, p: Param| view_param(p))
}

pub open spec fn view_data(d: Data) -> SpecData {
    SpecData {
        id: d.id@,
        expr: d.expr.deep_view(),
        src: d.src.deep_view(),
        content: d.content.deep_view(),
    }
}

pub open spec fn view_data_seq(ds: Seq<Data>) -> Seq<SpecData> {
    ds.map(|i: int, d: Data| view_data(d))
}

pub open spec fn view_content(c: Content) -> SpecContent {
    SpecContent { expr: c.expr.deep_view(), content: c.content.deep_view() }
}

pub open spec fn view_exec(e: Executable) -> SpecExecutable
    decreases e,
{
    match e {
        Executable::Raise { event } => SpecExecutable::Raise { event: event@ },
        Executable::If { cond, then, else_ } => SpecExecutable::If {
            cond: cond@,
            then: view_exec_seq(then@),
            else_: view_exec_seq(else_@),
        },
        Executable::Foreach { array, item, index, body } => SpecExecutable::Foreach {
            array: array@,
            item: item@,
            index: index.deep_view(),
            body: view_exec_seq(body@),
        },
        Executable::Send { event, target } => SpecExecutable::Send {
            event: event@,
            target: target.deep_view(),
        },
        Executable::Script { src, content } => SpecExecutable::Script {
            src: src.deep_view(),
            content: content.deep_view(),
        },
        Executable::Assign { location, expr } => SpecExecutable::Assign {
            location: location@,
            expr: expr@,
        },
        Executable::Log { label, expr } => SpecExecutable::Log {
            label: label.deep_view(),
            expr: expr@,
        },
        Executable::Cancel { sendid } => SpecExecutable::Cancel { sendid: sendid@ },
        Executable::Other(tag) => SpecExecutable::Other(tag@),
    }
}

pub open spec fn view_exec_seq(es: Seq<Executable>) -> Seq<SpecExecutable>
    decreases es,
{
    if es.len() == 0 {
        Seq::empty()
    } else {
        seq![view_exec(es[0])] + view_exec_seq(es.drop_first())
    }
}

pub open spec fn view_transition(t: Transition) -> SpecTransition
    decreases t,
{
    SpecTransition {
        event: t.event.deep_view(),
        cond: t.cond.deep_view(),
        target: t.target.deep_view(),
        type_: t.type_.deep_view(),
        executables: view_exec_seq(t.executables@),
    }
}

pub open spec fn view_transition_seq(ts: Seq<Transition>) -> Seq<SpecTransition>
    decreases ts,
{
    if ts.len() == 0 {
        Seq::empty()
    } else {
        seq![view_transition(ts[0])] + view_transition_seq(ts.drop_first())
    }
}

pub open spec fn view_initial(i: Initial) -> SpecInitial
    decreases i,
{
    SpecInitial { id: i.id.deep_view(), transition: view_transition(i.transition) }
}

pub open spec fn view_finalize(f: Finalize) -> SpecFinalize
    decreases f,
{
    SpecFinalize { executables: view_exec_seq(f.executables@) }
}

pub open spec fn view_invoke(iv: Invoke) -> SpecInvoke
    decreases iv,
{
    SpecInvoke {
        type_: iv.type_@,
        src: iv.src.deep_view(),
        id: iv.id.deep_view(),
        params: view_param_seq(iv.params@),
        finalize: match iv.finalize {
            Some(f) => Some(view_finalize(f)),
            None => None,
        },
        content: match iv.content {
            Some(c) => Some(view_content(c)),
            None => None,
        },
    }
}

pub open spec fn view_invoke_seq(ivs: Seq<Invoke>) -> Seq<SpecInvoke>
    decreases ivs,
{
    if ivs.len() == 0 {
        Seq::empty()
    } else {
        seq![view_invoke(ivs[0])] + view_invoke_seq(ivs.drop_first())
    }
}

pub open spec fn view_history(h: History) -> SpecHistory
    decreases h,
{
    SpecHistory {
        id: h.id.deep_view(),
        type_: h.type_@,
        transition: match h.transition {
            Some(t) => Some(view_transition(t)),
            None => None,
        },
    }
}

pub open spec fn view_final(f: Final) -> SpecFinal
    decreases f,
{
    SpecFinal {
        id: f.id.deep_view(),
        onentry: view_exec_seq(f.onentry@),
        onexit: view_exec_seq(f.onexit@),
    }
}

pub open spec fn view_state(s: State) -> SpecState
    decreases s,
{
    SpecState {
        id: s.id.deep_view(),
        initial: s.initial.deep_view(),
        initial_element: match s.initial_element {
            Some(i) => Some(view_initial(i)),
            None => None,
        },
        transitions: view_transition_seq(s.transitions@),
        onentry: view_exec_seq(s.onentry@),
        onexit: view_exec_seq(s.onexit@),
        children: view_forest(s.children@),
        invokes: view_invoke_seq(s.invokes@),
    }
}

pub open spec fn view_parallel(p: Parallel) -> SpecParallel
    decreases p,
{
    SpecParallel {
        id: p.id.deep_view(),
        transitions: view_transition_seq(p.transitions@),
        onentry: view_exec_seq(p.onentry@),
        onexit: view_exec_seq(p.onexit@),
        children: view_forest(p.children@),
        invokes: view_invoke_seq(p.invokes@),
    }
}

pub open spec fn view_state_like(sl: StateLike) -> SpecStateLike
    decreases sl,
{
    match sl {
        StateLike::State(s) => SpecStateLike::State(view_state(s)),
        StateLike::Parallel(p) => SpecStateLike::Parallel(view_parallel(p)),
        StateLike::Final(f) => SpecStateLike::Final(view_final(f)),
        StateLike::History(h) => SpecStateLike::History(view_history(h)),
    }
}

pub open spec fn view_forest(ss: Seq<StateLike>) -> Seq<SpecStateLike>
    decreases ss,
{
    if ss.len() == 0 {
        Seq::empty()
    } else {
        seq![view_state_like(ss[0])] + view_forest(ss.drop_first())
    }
}

pub open spec fn view_doc(d: Scxml) -> SpecScxml
    decreases d,
{
    SpecScxml {
        version: d.version@,
        initial: d.initial.deep_view(),
        datamodel: d.datamodel.deep_view(),
        states: view_forest(d.states@),
        datamodel_elements: view_data_seq(d.datamodel_elements@),
    }
}

impl View for Scxml {
    type V = SpecScxml;

    open spec fn view(&self) -> SpecScxml {
        view_doc(*self)
    }
}

impl View for StateLike {
    type V = SpecStateLike;

    open spec fn view(&self) -> SpecStateLike {
        view_state_like(*self)
    }
}

impl View for Transition {
    type V = SpecTransition;

    open spec fn view(&self) -> SpecTransition {
        view_transition(*self)
    }
}

impl View for Executable {
    type V = SpecExecutable;

    open spec fn view(&self) -> SpecExecutable {
        view_exec(*self)
    }
}

impl View for Data {
    type V = SpecData;

    open spec fn view(&self) -> SpecData {
        view_data(*self)
    }
}


impl View for State {
    type V = SpecState;

    open spec fn view(&self) -> SpecState {
        view_state(*self)
    }
}

impl View for Parallel {
    type V = SpecParallel;

    open spec fn view(&self) -> SpecParallel {
        view_parallel(*self)
    }
}

impl View for Final {
    type V = SpecFinal;

    open spec fn view(&self) -> SpecFinal {
        view_final(*self)
    }
}

impl View for History {
    type V = SpecHistory;

    open spec fn view(&self) -> SpecHistory {
        view_history(*self)
    }
}

impl View for Initial {
    type V = SpecInitial;

    open spec fn view(&self) -> SpecInitial {
        view_initial(*self)
    }
}

impl View for Invoke {
    type V = SpecInvoke;

    open spec fn view(&self) -> SpecInvoke {
        view_invoke(*self)
    }
}

impl View for Param {
    type V = SpecParam;

    open spec fn view(&self) -> SpecParam {
        view_param(*self)
    }
}

impl View for Finalize {
    type V = SpecFinalize;

    open spec fn view(&self) -> SpecFinalize {
        view_finalize(*self)
    }
}

impl View for Content {
    type V = SpecContent;

    open spec fn view(&self) -> SpecContent {
        view_content(*self)
    }
}

// Lemmas giving the pointwise reading of the recursively defined sequence views.

pub proof fn lemma_view_exec_seq(es: Seq<Executable>)
    ensures
        view_exec_seq(es).len() == es.len(),
        forall|i: int| 0 <= i < es.len() ==> view_exec_seq(es)[i] == view_exec(es[i]),
    decreases es,
{
    if es.len() > 0 {
        lemma_view_exec_seq(es.drop_first());
    }
}

pub proof fn lemma_view_transition_seq(ts: Seq<Transition>)
    ensures
        view_transition_seq(ts).len() == ts.len(),
        forall|i: int| 0 <= i < ts.len() ==> view_transition_seq(ts)[i] == view_transition(ts[i]),
    decreases ts,
{
    if ts.len() > 0 {
        lemma_view_transition_seq(ts.drop_first());
    }
}

pub proof fn lemma_view_invoke_seq(ivs: Seq<Invoke>)
    ensures
        view_invoke_seq(ivs).len() == ivs.len(),
        forall|i: int| 0 <= i < ivs.len() ==> view_invoke_seq(ivs)[i] == view_invoke(ivs[i]),
    decreases ivs,
{
    if ivs.len() > 0 {
        lemma_view_invoke_seq(ivs.drop_first());
    }
}

pub proof fn lemma_view_exec_seq_push(es: Seq<Executable>, x: Executable)
    ensures
        view_exec_seq(es.push(x)) == view_exec_seq(es).push(view_exec(x)),
{
    lemma_view_exec_seq(es);
    lemma_view_exec_seq(es.push(x));
    assert(view_exec_seq(es.push(x)) =~= view_exec_seq(es).push(view_exec(x)));
}

pub proof fn lemma_view_transition_seq_push(ts: Seq<Transition>, t: Transition)
    ensures
        view_transition_seq(ts.push(t)) == view_transition_seq(ts).push(view_transition(t)),
{
    lemma_view_transition_seq(ts);
    lemma_view_transition_seq(ts.push(t));
    assert(view_transition_seq(ts.push(t)) =~= view_transition_seq(ts).push(view_transition(t)));
}

pub proof fn lemma_view_invoke_seq_push(ivs: Seq<Invoke>, iv: Invoke)
    ensures
        view_invoke_seq(ivs.push(iv)) == view_invoke_seq(ivs).push(view_invoke(iv)),
{
    lemma_view_invoke_seq(ivs);
    lemma_view_invoke_seq(ivs.push(iv));
    assert(view_invoke_seq(ivs.push(iv)) =~= view_invoke_seq(ivs).push(view_invoke(iv)));
}

pub proof fn lemma_view_forest_push(ss: Seq<StateLike>, s: StateLike)
    ensures
        view_forest(ss.push(s)) == view_forest(ss).push(view_state_like(s)),
{
    lemma_view_forest(ss);
    lemma_view_forest(ss.push(s));
    assert(view_forest(ss.push(s)) =~= view_forest(ss).push(view_state_like(s)));
}

pub proof fn lemma_view_exec_seq_concat(a: Seq<Executable>, b: Seq<Executable>)
    ensures
        view_exec_seq(a + b) == view_exec_seq(a) + view_exec_seq(b),
{
    lemma_view_exec_seq(a);
    lemma_view_exec_seq(b);
    lemma_view_exec_seq(a + b);
    assert(view_exec_seq(a + b) =~= view_exec_seq(a) + view_exec_seq(b));
}

pub proof fn lemma_view_forest(ss: Seq<StateLike>)
    ensures
        view_forest(ss).len() == ss.len(),
        forall|i: int| 0 <= i < ss.len() ==> view_forest(ss)[i] == view_state_like(ss[i]),
    decreases ss,
{
    if ss.len() > 0 {
        lemma_view_forest(ss.drop_first());
    }
}

} // verus!
