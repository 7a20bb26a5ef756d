//! The round-trip law: re-parsing the serialized element tree of a fully
//! serializable document yields the document back, unchanged.
//!
//! The law lives at the element-tree level: the text the serializer
//! prints is a rendering of exactly this tree, and the step from text back
//! to a tree belongs to the external tokenizer, which the library trusts.
//!
//! A document is fully serializable when its version is "1.0" and every
//! unrecognized executable it kept (`Other`) carries a tag name that is not
//! itself an executable keyword or the `else` branch marker; on such a tag
//! the grammar would reparse the element as the keyword instead of as
//! `Other`. Everything else the data model can hold round-trips.

use vstd::prelude::*;
use crate::ast::SpecContent;
use crate::ast::SpecData;
use crate::ast::SpecExecutable;
use crate::ast::SpecFinal;
use crate::ast::SpecFinalize;
use crate::ast::SpecHistory;
use crate::ast::SpecInitial;
use crate::ast::SpecInvoke;
use crate::ast::SpecParallel;
use crate::ast::SpecParam;
use crate::ast::SpecScxml;
use crate::ast::SpecState;
use crate::ast::SpecStateLike;
use crate::ast::SpecTransition;
use crate::ast::SpecParseError;
use crate::parser::spec_attr_or_empty;
use crate::parser::spec_data_fold;
use crate::parser::spec_exec_fold;
use crate::parser::spec_final_fold;
use crate::parser::spec_if_fold;
use crate::parser::spec_invoke_fold;
use crate::parser::spec_parallel_fold;
use crate::parser::spec_parse_content;
use crate::parser::spec_parse_doc;
use crate::parser::spec_parse_final;
use crate::parser::spec_parse_finalize;
use crate::parser::spec_parse_history;
use crate::parser::spec_parse_initial;
use crate::parser::spec_parse_invoke;
use crate::parser::spec_parse_parallel;
use crate::parser::spec_parse_param;
use crate::parser::spec_parse_single;
use crate::parser::spec_parse_state;
use crate::parser::spec_parse_transition;
use crate::parser::spec_root_fold;
use crate::parser::spec_state_fold;
use crate::serialize::datamodel_seg;
use crate::serialize::else_marker;
use crate::serialize::initial_seg;
use crate::serialize::opt_attr;
use crate::serialize::ser_content_el;
use crate::serialize::ser_data_el;
use crate::serialize::ser_data_seq;
use crate::serialize::ser_doc_el;
use crate::serialize::ser_exec_el;
use crate::serialize::ser_exec_seq;
use crate::serialize::ser_final_el;
use crate::serialize::ser_finalize_el;
use crate::serialize::ser_forest;
use crate::serialize::ser_history_el;
use crate::serialize::ser_initial_el;
use crate::serialize::ser_invoke_el;
use crate::serialize::ser_invoke_seq;
use crate::serialize::ser_param_el;
use crate::serialize::ser_param_seq;
use crate::serialize::ser_parallel_children;
use crate::serialize::ser_parallel_el;
use crate::serialize::ser_state_children;
use crate::serialize::ser_state_el;
use crate::serialize::ser_state_like_el;
use crate::serialize::ser_transition_el;
use crate::serialize::ser_transition_seq;
use crate::serialize::wrap_seg;
use crate::xml::SpecElement;
use crate::xml::spec_attr;

verus! {

// ---------------------------------------------------------------------------
// Fully serializable constructs
// ---------------------------------------------------------------------------

/// A tag name the grammar reserves for an executable element or for the
/// branch marker; an `Other` executable with such a name would not be
/// reparsed as `Other`.
pub open spec fn reserved_exec_tag(tag: Seq<char>) -> bool {
    ||| tag == "raise"@
    ||| tag == "if"@
    ||| tag == "foreach"@
    ||| tag == "send"@
    ||| tag == "script"@
    ||| tag == "assign"@
    ||| tag == "log"@
    ||| tag == "cancel"@
    ||| tag == "else"@
}

pub open spec fn serializable_exec(x: SpecExecutable) -> bool
    decreases x,
{
    match x {
        SpecExecutable::If { then, else_, .. } => serializable_execs(then) && serializable_execs(
            else_,
        ),
        SpecExecutable::Foreach { body, .. } => serializable_execs(body),
        SpecExecutable::Other(tag) => !reserved_exec_tag(tag),
        _ => true,
    }
}

pub open spec fn serializable_execs(xs: Seq<SpecExecutable>) -> bool
    decreases xs,
{
    if xs.len() == 0 {
        true
    } else {
        serializable_exec(xs[0]) && serializable_execs(xs.drop_first())
    }
}

pub open spec fn serializable_transition(t: SpecTransition) -> bool {
    serializable_execs(t.executables)
}

pub open spec fn serializable_transitions(ts: Seq<SpecTransition>) -> bool
    decreases ts,
{
    if ts.len() == 0 {
        true
    } else {
        serializable_transition(ts[0]) && serializable_transitions(ts.drop_first())
    }
}

pub open spec fn serializable_invoke(iv: SpecInvoke) -> bool {
    match iv.finalize {
        Some(f) => serializable_execs(f.executables),
        None => true,
    }
}

pub open spec fn serializable_invokes(ivs: Seq<SpecInvoke>) -> bool
    decreases ivs,
{
    if ivs.len() == 0 {
        true
    } else {
        serializable_invoke(ivs[0]) && serializable_invokes(ivs.drop_first())
    }
}

pub open spec fn serializable_state_like(sl: SpecStateLike) -> bool
    decreases sl,
{
    match sl {
        SpecStateLike::State(s) => {
            &&& (match s.initial_element {
                Some(i) => serializable_transition(i.transition),
                None => true,
            })
            &&& serializable_transitions(s.transitions)
            &&& serializable_execs(s.onentry)
            &&& serializable_execs(s.onexit)
            &&& serializable_forest(s.children)
            &&& serializable_invokes(s.invokes)
        },
        SpecStateLike::Parallel(p) => {
            &&& serializable_transitions(p.transitions)
            &&& serializable_execs(p.onentry)
            &&& serializable_execs(p.onexit)
            &&& serializable_forest(p.children)
            &&& serializable_invokes(p.invokes)
        },
        SpecStateLike::Final(f) => serializable_execs(f.onentry) && serializable_execs(f.onexit),
        SpecStateLike::History(h) => match h.transition {
            Some(t) => serializable_transition(t),
            None => true,
        },
    }
}

pub open spec fn serializable_forest(ss: Seq<SpecStateLike>) -> bool
    decreases ss,
{
    if ss.len() == 0 {
        true
    } else {
        serializable_state_like(ss[0]) && serializable_forest(ss.drop_first())
    }
}

/// A document built only from fully serializable constructs.
pub open spec fn serializable_doc(d: SpecScxml) -> bool {
    d.version == "1.0"@ && serializable_forest(d.states)
}

// ---------------------------------------------------------------------------
// Attribute lookup over the serialized attribute lists
// ---------------------------------------------------------------------------

proof fn lemma_attr_one_hit(m: Seq<char>, v: Seq<char>, rest: Seq<(Seq<char>, Seq<char>)>)
    ensures
        spec_attr(seq![(m, v)] + rest, m) == Some(v),
{
    assert((seq![(m, v)] + rest)[0] == (m, v));
}

proof fn lemma_attr_one_skip(
    m: Seq<char>,
    v: Seq<char>,
    rest: Seq<(Seq<char>, Seq<char>)>,
    n: Seq<char>,
)
    requires
        m != n,
    ensures
        spec_attr(seq![(m, v)] + rest, n) == spec_attr(rest, n),
{
    assert((seq![(m, v)] + rest)[0] == (m, v));
    assert((seq![(m, v)] + rest).drop_first() =~= rest);
}

proof fn lemma_attr_opt_hit(m: Seq<char>, o: Option<Seq<char>>, rest: Seq<(Seq<char>, Seq<char>)>)
    ensures
        spec_attr(opt_attr(m, o) + rest, m) == (match o {
            Some(x) => Some(x),
            None => spec_attr(rest, m),
        }),
{
    match o {
        Some(x) => {
            assert(opt_attr(m, o) + rest =~= seq![(m, x)] + rest);
            lemma_attr_one_hit(m, x, rest);
        },
        None => {
            assert(opt_attr(m, o) + rest =~= rest);
        },
    }
}

proof fn lemma_attr_opt_skip(
    m: Seq<char>,
    o: Option<Seq<char>>,
    rest: Seq<(Seq<char>, Seq<char>)>,
    n: Seq<char>,
)
    requires
        m != n,
    ensures
        spec_attr(opt_attr(m, o) + rest, n) == spec_attr(rest, n),
{
    match o {
        Some(x) => {
            assert(opt_attr(m, o) + rest =~= seq![(m, x)] + rest);
            lemma_attr_one_skip(m, x, rest, n);
        },
        None => {
            assert(opt_attr(m, o) + rest =~= rest);
        },
    }
}

// ---------------------------------------------------------------------------
// Executable content round-trips
// ---------------------------------------------------------------------------

/// Ground facts about the tag and attribute names of the grammar: their
/// lengths, and a first character where two share a length. Any two
/// distinct names the parser compares are told apart by these.
proof fn lemma_text_facts()
    ensures
        "raise"@.len() == 5,
        "if"@.len() == 2,
        "foreach"@.len() == 7,
        "send"@.len() == 4,
        "script"@.len() == 6,
        "assign"@.len() == 6,
        "log"@.len() == 3,
        "cancel"@.len() == 6,
        "else"@.len() == 4,
        "script"@[0] == 's',
        "assign"@[0] == 'a',
        "cancel"@[0] == 'c',
        "else"@[0] == 'e',
        "send"@[0] == 's',
        "event"@.len() == 5,
        "cond"@.len() == 4,
        "target"@.len() == 6,
        "type"@.len() == 4,
        "cond"@[0] == 'c',
        "type"@[0] == 't',
        "array"@.len() == 5,
        "item"@.len() == 4,
        "index"@.len() == 5,
        "array"@[0] == 'a',
        "index"@[0] == 'i',
        "src"@.len() == 3,
        "location"@.len() == 8,
        "expr"@.len() == 4,
        "label"@.len() == 5,
        "sendid"@.len() == 6,
        "id"@.len() == 2,
        "name"@.len() == 4,
        "name"@[0] == 'n',
        "expr"@[0] == 'e',
        "initial"@.len() == 7,
        "transition"@.len() == 10,
        "onentry"@.len() == 7,
        "onexit"@.len() == 6,
        "state"@.len() == 5,
        "parallel"@.len() == 8,
        "final"@.len() == 5,
        "history"@.len() == 7,
        "invoke"@.len() == 6,
        "datamodel"@.len() == 9,
        "initial"@[0] == 'i',
        "onentry"@[0] == 'o',
        "history"@[0] == 'h',
        "state"@[0] == 's',
        "final"@[0] == 'f',
        "onexit"@[0] == 'o',
        "invoke"@[0] == 'i',
        "param"@.len() == 5,
        "finalize"@.len() == 8,
        "content"@.len() == 7,
        "version"@.len() == 7,
        "version"@[0] == 'v',
{
    reveal_strlit("raise");
    reveal_strlit("if");
    reveal_strlit("foreach");
    reveal_strlit("send");
    reveal_strlit("script");
    reveal_strlit("assign");
    reveal_strlit("log");
    reveal_strlit("cancel");
    reveal_strlit("else");
    reveal_strlit("event");
    reveal_strlit("cond");
    reveal_strlit("target");
    reveal_strlit("type");
    reveal_strlit("array");
    reveal_strlit("item");
    reveal_strlit("index");
    reveal_strlit("src");
    reveal_strlit("location");
    reveal_strlit("expr");
    reveal_strlit("label");
    reveal_strlit("sendid");
    reveal_strlit("id");
    reveal_strlit("name");
    reveal_strlit("initial");
    reveal_strlit("transition");
    reveal_strlit("onentry");
    reveal_strlit("onexit");
    reveal_strlit("state");
    reveal_strlit("parallel");
    reveal_strlit("final");
    reveal_strlit("history");
    reveal_strlit("invoke");
    reveal_strlit("datamodel");
    reveal_strlit("param");
    reveal_strlit("finalize");
    reveal_strlit("content");
    reveal_strlit("version");
}

/// Serialized executables never carry the `else` marker's name.
proof fn lemma_ser_exec_el_not_else(x: SpecExecutable)
    requires
        serializable_exec(x),
    ensures
        ser_exec_el(x).name != "else"@,
{
    lemma_text_facts();
}

proof fn lemma_rt_exec(x: SpecExecutable)
    requires
        serializable_exec(x),
    ensures
        spec_parse_single(ser_exec_el(x)) == Ok::<SpecExecutable, SpecParseError>(x),
    decreases x,
{
    lemma_text_facts();
    let e = ser_exec_el(x);
    match x {
        SpecExecutable::Raise { event } => {
            lemma_attr_one_hit("event"@, event, Seq::empty());
            assert(seq![("event"@, event)] + Seq::empty() =~= e.attributes);
            assert(spec_attr_or_empty(e, "event"@) == event);
        },
        SpecExecutable::If { cond, then, else_ } => {
            lemma_attr_one_hit("cond"@, cond, Seq::empty());
            assert(seq![("cond"@, cond)] + Seq::empty() =~= e.attributes);
            assert(spec_attr_or_empty(e, "cond"@) == cond);
            if else_.len() == 0 {
                assert(e.children =~= ser_exec_seq(then) + Seq::empty());
                lemma_rt_if_execs(then, Seq::empty(), Seq::empty(), Seq::empty(), false);
                assert(spec_if_fold(Seq::empty(), Seq::empty() + then, Seq::empty(), false)
                    == Ok::<_, SpecParseError>((Seq::empty() + then, Seq::<SpecExecutable>::empty())));
                assert(Seq::empty() + then =~= then);
                assert(spec_if_fold(e.children, Seq::empty(), Seq::empty(), false) == Ok::<
                    _,
                    SpecParseError,
                >((then, else_)));
            } else {
                lemma_rt_if_execs(
                    then,
                    seq![else_marker()] + ser_exec_seq(else_),
                    Seq::empty(),
                    Seq::empty(),
                    false,
                );
                let mid = seq![else_marker()] + ser_exec_seq(else_);
                assert(mid[0] == else_marker());
                assert(mid.drop_first() =~= ser_exec_seq(else_));
                lemma_rt_if_execs(else_, Seq::empty(), Seq::empty() + then, Seq::empty(), true);
                assert(Seq::empty() + then =~= then);
                assert(Seq::empty() + else_ =~= else_);
                assert(spec_if_fold(e.children, Seq::empty(), Seq::empty(), false) == Ok::<
                    _,
                    SpecParseError,
                >((then, else_)));
            }
        },
        SpecExecutable::Foreach { array, item, index, body } => {
            let a2 = opt_attr("index"@, index);
            assert(e.attributes =~= seq![("array"@, array)] + (seq![("item"@, item)] + a2));
            lemma_attr_one_hit("array"@, array, seq![("item"@, item)] + a2);
            lemma_attr_one_skip("array"@, array, seq![("item"@, item)] + a2, "item"@);
            lemma_attr_one_hit("item"@, item, a2);
            lemma_attr_one_skip("array"@, array, seq![("item"@, item)] + a2, "index"@);
            lemma_attr_one_skip("item"@, item, a2, "index"@);
            lemma_attr_opt_hit("index"@, index, Seq::empty());
            assert(a2 =~= a2 + Seq::empty());
            lemma_rt_execs(body, Seq::empty());
            assert(Seq::empty() + body =~= body);
        },
        SpecExecutable::Send { event, target } => {
            let a2 = opt_attr("target"@, target);
            assert(e.attributes =~= seq![("event"@, event)] + a2);
            lemma_attr_one_hit("event"@, event, a2);
            lemma_attr_one_skip("event"@, event, a2, "target"@);
            lemma_attr_opt_hit("target"@, target, Seq::empty());
            assert(a2 =~= a2 + Seq::empty());
        },
        SpecExecutable::Script { src, content } => {
            lemma_attr_opt_hit("src"@, src, Seq::empty());
            assert(e.attributes =~= opt_attr("src"@, src) + Seq::empty());
        },
        SpecExecutable::Assign { location, expr } => {
            let a2 = seq![("expr"@, expr)];
            assert(e.attributes =~= seq![("location"@, location)] + a2);
            lemma_attr_one_hit("location"@, location, a2);
            lemma_attr_one_skip("location"@, location, a2, "expr"@);
            lemma_attr_one_hit("expr"@, expr, Seq::empty());
            assert(a2 =~= seq![("expr"@, expr)] + Seq::empty());
        },
        SpecExecutable::Log { label, expr } => {
            let a2 = seq![("expr"@, expr)];
            assert(e.attributes =~= opt_attr("label"@, label) + a2);
            lemma_attr_opt_hit("label"@, label, a2);
            lemma_attr_one_skip("expr"@, expr, Seq::empty(), "label"@);
            assert(a2 =~= seq![("expr"@, expr)] + Seq::empty());
            assert(spec_attr(Seq::empty(), "label"@) == None::<Seq<char>>);
            lemma_attr_opt_skip("label"@, label, a2, "expr"@);
            lemma_attr_one_hit("expr"@, expr, Seq::empty());
        },
        SpecExecutable::Cancel { sendid } => {
            lemma_attr_one_hit("sendid"@, sendid, Seq::empty());
            assert(e.attributes =~= seq![("sendid"@, sendid)] + Seq::empty());
        },
        SpecExecutable::Other(tag) => {
        },
    }
}

/// Folding the serialized executables appends exactly the executables.
proof fn lemma_rt_execs(xs: Seq<SpecExecutable>, acc: Seq<SpecExecutable>)
    requires
        serializable_execs(xs),
    ensures
        spec_exec_fold(ser_exec_seq(xs), acc) == Ok::<Seq<SpecExecutable>, SpecParseError>(
            acc + xs,
        ),
    decreases xs,
{
    if xs.len() == 0 {
        assert(acc + xs =~= acc);
    } else {
        let els = ser_exec_seq(xs);
        assert(els[0] == ser_exec_el(xs[0]));
        assert(els.drop_first() =~= ser_exec_seq(xs.drop_first()));
        lemma_rt_exec(xs[0]);
        lemma_rt_execs(xs.drop_first(), acc.push(xs[0]));
        assert(acc.push(xs[0]) + xs.drop_first() =~= acc + xs);
    }
}

/// Folding serialized executables inside an `<if>` puts them all on the
/// branch the fold is currently reading.
proof fn lemma_rt_if_execs(
    xs: Seq<SpecExecutable>,
    rest: Seq<SpecElement>,
    then_b: Seq<SpecExecutable>,
    else_b: Seq<SpecExecutable>,
    in_else: bool,
)
    requires
        serializable_execs(xs),
    ensures
        spec_if_fold(ser_exec_seq(xs) + rest, then_b, else_b, in_else) == (if in_else {
            spec_if_fold(rest, then_b, else_b + xs, in_else)
        } else {
            spec_if_fold(rest, then_b + xs, else_b, in_else)
        }),
    decreases xs,
{
    if xs.len() == 0 {
        assert(ser_exec_seq(xs) + rest =~= rest);
        assert(else_b + xs =~= else_b);
        assert(then_b + xs =~= then_b);
    } else {
        let els = ser_exec_seq(xs) + rest;
        assert(els[0] == ser_exec_el(xs[0]));
        assert(els.drop_first() =~= ser_exec_seq(xs.drop_first()) + rest);
        lemma_ser_exec_el_not_else(xs[0]);
        lemma_rt_exec(xs[0]);
        if in_else {
            lemma_rt_if_execs(xs.drop_first(), rest, then_b, else_b.push(xs[0]), in_else);
            assert(else_b.push(xs[0]) + xs.drop_first() =~= else_b + xs);
        } else {
            lemma_rt_if_execs(xs.drop_first(), rest, then_b.push(xs[0]), else_b, in_else);
            assert(then_b.push(xs[0]) + xs.drop_first() =~= then_b + xs);
        }
    }
}

// ---------------------------------------------------------------------------
// Transitions, initial, history round-trip
// ---------------------------------------------------------------------------

proof fn lemma_rt_transition(t: SpecTransition)
    requires
        serializable_transition(t),
    ensures
        spec_parse_transition(ser_transition_el(t)) == Ok::<SpecTransition, SpecParseError>(t),
{
    lemma_text_facts();
    let e = ser_transition_el(t);
    lemma_rt_execs(t.executables, Seq::empty());
    let a_e = opt_attr("event"@, t.event);
    let a_c = opt_attr("cond"@, t.cond);
    let a_tg = opt_attr("target"@, t.target);
    let a_ty = opt_attr("type"@, t.type_);
    assert(e.attributes =~= a_e + (a_c + (a_tg + a_ty)));
    assert(a_ty =~= a_ty + Seq::empty());
    lemma_attr_opt_hit("event"@, t.event, a_c + (a_tg + a_ty));
    lemma_attr_opt_skip("cond"@, t.cond, a_tg + a_ty, "event"@);
    lemma_attr_opt_skip("target"@, t.target, a_ty, "event"@);
    lemma_attr_opt_skip("type"@, t.type_, Seq::empty(), "event"@);
    lemma_attr_opt_skip("event"@, t.event, a_c + (a_tg + a_ty), "cond"@);
    lemma_attr_opt_hit("cond"@, t.cond, a_tg + a_ty);
    lemma_attr_opt_skip("target"@, t.target, a_ty, "cond"@);
    lemma_attr_opt_skip("type"@, t.type_, Seq::empty(), "cond"@);
    lemma_attr_opt_skip("event"@, t.event, a_c + (a_tg + a_ty), "target"@);
    lemma_attr_opt_skip("cond"@, t.cond, a_tg + a_ty, "target"@);
    lemma_attr_opt_hit("target"@, t.target, a_ty);
    lemma_attr_opt_skip("type"@, t.type_, Seq::empty(), "target"@);
    lemma_attr_opt_skip("event"@, t.event, a_c + (a_tg + a_ty), "type"@);
    lemma_attr_opt_skip("cond"@, t.cond, a_tg + a_ty, "type"@);
    lemma_attr_opt_skip("target"@, t.target, a_ty, "type"@);
    lemma_attr_opt_hit("type"@, t.type_, Seq::empty());
    match spec_parse_transition(e) {
        Ok(t2) => {
            assert(t2 =~~= t);
        },
        Err(_) => {
            assert(false);
        },
    }
}

proof fn lemma_rt_initial(i: SpecInitial)
    requires
        serializable_transition(i.transition),
    ensures
        spec_parse_initial(ser_initial_el(i)) == Ok::<SpecInitial, SpecParseError>(i),
{
    lemma_text_facts();
    let e = ser_initial_el(i);
    assert(e.children[0] == ser_transition_el(i.transition));
    lemma_rt_transition(i.transition);
    lemma_attr_opt_hit("id"@, i.id, Seq::empty());
    assert(e.attributes =~= opt_attr("id"@, i.id) + Seq::empty());
    match spec_parse_initial(e) {
        Ok(i2) => {
            assert(i2 =~~= i);
        },
        Err(_) => {
            assert(false);
        },
    }
}

proof fn lemma_rt_history(h: SpecHistory)
    requires
        (match h.transition {
            Some(t) => serializable_transition(t),
            None => true,
        }),
    ensures
        spec_parse_history(ser_history_el(h)) == Ok::<SpecHistory, SpecParseError>(h),
{
    lemma_text_facts();
    let e = ser_history_el(h);
    let a_ty = seq![("type"@, h.type_)];
    assert(e.attributes =~= opt_attr("id"@, h.id) + a_ty);
    assert(a_ty =~= seq![("type"@, h.type_)] + Seq::empty());
    lemma_attr_opt_hit("id"@, h.id, a_ty);
    lemma_attr_one_skip("type"@, h.type_, Seq::empty(), "id"@);
    lemma_attr_opt_skip("id"@, h.id, a_ty, "type"@);
    lemma_attr_one_hit("type"@, h.type_, Seq::empty());
    match h.transition {
        Some(t) => {
            assert(e.children[0] == ser_transition_el(t));
            lemma_rt_transition(t);
        },
        None => {},
    }
    match spec_parse_history(e) {
        Ok(h2) => {
            assert(h2 =~~= h);
        },
        Err(_) => {
            assert(false);
        },
    }
}

// ---------------------------------------------------------------------------
// Invoke parts round-trip
// ---------------------------------------------------------------------------

proof fn lemma_rt_param(p: SpecParam)
    ensures
        spec_parse_param(ser_param_el(p)) == Ok::<SpecParam, SpecParseError>(p),
{
    lemma_text_facts();
    let e = ser_param_el(p);
    let a_n = seq![("name"@, p.name)];
    let a_e = opt_attr("expr"@, p.expr);
    let a_l = opt_attr("location"@, p.location);
    assert(e.attributes =~= a_n + (a_e + a_l));
    assert(a_l =~= a_l + Seq::empty());
    lemma_attr_one_hit("name"@, p.name, a_e + a_l);
    lemma_attr_one_skip("name"@, p.name, a_e + a_l, "expr"@);
    lemma_attr_opt_hit("expr"@, p.expr, a_l);
    lemma_attr_opt_skip("location"@, p.location, Seq::empty(), "expr"@);
    lemma_attr_one_skip("name"@, p.name, a_e + a_l, "location"@);
    lemma_attr_opt_skip("expr"@, p.expr, a_l, "location"@);
    lemma_attr_opt_hit("location"@, p.location, Seq::empty());
    match spec_parse_param(e) {
        Ok(p2) => {
            assert(p2 =~~= p);
        },
        Err(_) => {
            assert(false);
        },
    }
}

proof fn lemma_rt_content(c: SpecContent)
    ensures
        spec_parse_content(ser_content_el(c)) == Ok::<SpecContent, SpecParseError>(c),
{
    lemma_text_facts();
    let e = ser_content_el(c);
    assert(e.attributes =~= opt_attr("expr"@, c.expr) + Seq::empty());
    lemma_attr_opt_hit("expr"@, c.expr, Seq::empty());
    match spec_parse_content(e) {
        Ok(c2) => {
            assert(c2 =~~= c);
        },
        Err(_) => {
            assert(false);
        },
    }
}

proof fn lemma_rt_finalize(f: SpecFinalize)
    requires
        serializable_execs(f.executables),
    ensures
        spec_parse_finalize(ser_finalize_el(f)) == Ok::<SpecFinalize, SpecParseError>(f),
{
    lemma_rt_execs(f.executables, Seq::empty());
    match spec_parse_finalize(ser_finalize_el(f)) {
        Ok(f2) => {
            assert(f2 =~~= f);
        },
        Err(_) => {
            assert(false);
        },
    }
}

proof fn lemma_rt_invoke_params(ps: Seq<SpecParam>, rest: Seq<SpecElement>, acc: SpecInvoke)
    ensures
        spec_invoke_fold(ser_param_seq(ps) + rest, acc) == spec_invoke_fold(
            rest,
            SpecInvoke { params: acc.params + ps, ..acc },
        ),
    decreases ps,
{
    lemma_text_facts();
    if ps.len() == 0 {
        assert(ser_param_seq(ps) + rest =~= rest);
        assert(SpecInvoke { params: acc.params + ps, ..acc } =~~= acc);
    } else {
        let els = ser_param_seq(ps) + rest;
        assert(els[0] == ser_param_el(ps[0]));
        assert(els.drop_first() =~= ser_param_seq(ps.drop_first()) + rest);
        lemma_rt_param(ps[0]);
        let acc2 = SpecInvoke { params: acc.params.push(ps[0]), ..acc };
        lemma_rt_invoke_params(ps.drop_first(), rest, acc2);
        assert(SpecInvoke { params: acc2.params + ps.drop_first(), ..acc2 } =~~= SpecInvoke {
            params: acc.params + ps,
            ..acc
        });
    }
}

#[verifier::rlimit(60)]
proof fn lemma_rt_invoke(iv: SpecInvoke)
    requires
        serializable_invoke(iv),
    ensures
        spec_parse_invoke(ser_invoke_el(iv)) == Ok::<SpecInvoke, SpecParseError>(iv),
{
    lemma_text_facts();
    let e = ser_invoke_el(iv);
    let a_t = seq![("type"@, iv.type_)];
    let a_s = opt_attr("src"@, iv.src);
    let a_i = opt_attr("id"@, iv.id);
    assert(e.attributes =~= a_t + (a_s + a_i));
    assert(a_i =~= a_i + Seq::empty());
    lemma_attr_one_hit("type"@, iv.type_, a_s + a_i);
    lemma_attr_one_skip("type"@, iv.type_, a_s + a_i, "src"@);
    lemma_attr_opt_hit("src"@, iv.src, a_i);
    lemma_attr_opt_skip("id"@, iv.id, Seq::empty(), "src"@);
    lemma_attr_one_skip("type"@, iv.type_, a_s + a_i, "id"@);
    lemma_attr_opt_skip("src"@, iv.src, a_i, "id"@);
    lemma_attr_opt_hit("id"@, iv.id, Seq::empty());
    let seg_f = (match iv.finalize {
        Some(f) => seq![ser_finalize_el(f)],
        None => Seq::<SpecElement>::empty(),
    });
    let seg_c = (match iv.content {
        Some(c) => seq![ser_content_el(c)],
        None => Seq::<SpecElement>::empty(),
    });
    assert(e.children =~= ser_param_seq(iv.params) + (seg_f + seg_c));
    let acc0 = SpecInvoke {
        type_: spec_attr_or_empty(e, "type"@),
        src: spec_attr(e.attributes, "src"@),
        id: spec_attr(e.attributes, "id"@),
        params: Seq::empty(),
        finalize: None,
        content: None,
    };
    lemma_rt_invoke_params(iv.params, seg_f + seg_c, acc0);
    let acc1 = SpecInvoke { params: acc0.params + iv.params, ..acc0 };
    assert(spec_parse_invoke(e) == spec_invoke_fold(e.children, acc0));
    assert(spec_invoke_fold(e.children, acc0) == spec_invoke_fold(seg_f + seg_c, acc1));
    let acc2 = (match iv.finalize {
        Some(f) => SpecInvoke { finalize: Some(f), ..acc1 },
        None => acc1,
    });
    match iv.finalize {
        Some(f) => {
            assert((seg_f + seg_c)[0] == ser_finalize_el(f));
            assert((seg_f + seg_c).drop_first() =~= seg_c);
            lemma_rt_finalize(f);
            assert(spec_invoke_fold(seg_f + seg_c, acc1) == spec_invoke_fold(seg_c, acc2));
        },
        None => {
            assert(seg_f + seg_c =~= seg_c);
            assert(spec_invoke_fold(seg_f + seg_c, acc1) == spec_invoke_fold(seg_c, acc2));
        },
    }
    let acc3 = (match iv.content {
        Some(c) => SpecInvoke { content: Some(c), ..acc2 },
        None => acc2,
    });
    match iv.content {
        Some(c) => {
            assert(seg_c[0] == ser_content_el(c));
            assert(seg_c.drop_first() =~= Seq::<SpecElement>::empty());
            lemma_rt_content(c);
            assert(spec_invoke_fold(seg_c, acc2) == spec_invoke_fold(
                Seq::<SpecElement>::empty(),
                acc3,
            ));
        },
        None => {
            assert(seg_c =~= Seq::<SpecElement>::empty());
            assert(spec_invoke_fold(seg_c, acc2) == spec_invoke_fold(
                Seq::<SpecElement>::empty(),
                acc3,
            ));
        },
    }
    assert(spec_invoke_fold(Seq::<SpecElement>::empty(), acc3) == Ok::<
        SpecInvoke,
        SpecParseError,
    >(acc3));
    assert(acc3 =~~= iv);
}

// ---------------------------------------------------------------------------
// Data items round-trip
// ---------------------------------------------------------------------------

proof fn lemma_rt_data_list(ds: Seq<SpecData>, acc: Seq<SpecData>)
    ensures
        spec_data_fold(ser_data_seq(ds), acc) == Ok::<Seq<SpecData>, SpecParseError>(acc + ds),
    decreases ds,
{
    lemma_text_facts();
    if ds.len() == 0 {
        assert(acc + ds =~= acc);
    } else {
        let d = ds[0];
        let els = ser_data_seq(ds);
        assert(els[0] == ser_data_el(d));
        assert(els.drop_first() =~= ser_data_seq(ds.drop_first()));
        let e = ser_data_el(d);
        let a_id = seq![("id"@, d.id)];
        let a_e = opt_attr("expr"@, d.expr);
        let a_s = opt_attr("src"@, d.src);
        assert(e.attributes =~= a_id + (a_e + a_s));
        assert(a_s =~= a_s + Seq::empty());
        lemma_attr_one_hit("id"@, d.id, a_e + a_s);
        lemma_attr_one_skip("id"@, d.id, a_e + a_s, "expr"@);
        lemma_attr_opt_hit("expr"@, d.expr, a_s);
        lemma_attr_opt_skip("src"@, d.src, Seq::empty(), "expr"@);
        lemma_attr_one_skip("id"@, d.id, a_e + a_s, "src"@);
        lemma_attr_opt_skip("expr"@, d.expr, a_s, "src"@);
        lemma_attr_opt_hit("src"@, d.src, Seq::empty());
        lemma_rt_data_list(ds.drop_first(), acc.push(d));
        assert(acc.push(d) =~= acc.push(
            SpecData {
                id: spec_attr(e.attributes, "id"@)->0,
                expr: spec_attr(e.attributes, "expr"@),
                src: spec_attr(e.attributes, "src"@),
                content: e.text,
            },
        ));
        assert(acc.push(d) + ds.drop_first() =~= acc + ds);
    }
}

// ---------------------------------------------------------------------------
// State-like elements round-trip
// ---------------------------------------------------------------------------

#[verifier::rlimit(60)]
proof fn lemma_rt_final_st(f: SpecFinal)
    requires
        serializable_execs(f.onentry),
        serializable_execs(f.onexit),
    ensures
        spec_parse_final(ser_final_el(f)) == Ok::<SpecFinal, SpecParseError>(f),
{
    lemma_text_facts();
    let e = ser_final_el(f);
    lemma_attr_opt_hit("id"@, f.id, Seq::empty());
    assert(e.attributes =~= opt_attr("id"@, f.id) + Seq::empty());
    let acc0 = SpecFinal {
        id: spec_attr(e.attributes, "id"@),
        onentry: Seq::empty(),
        onexit: Seq::empty(),
    };
    let w_en = wrap_seg("onentry"@, f.onentry);
    let w_ex = wrap_seg("onexit"@, f.onexit);
    assert(e.children =~= w_en + w_ex);
    let acc1 = SpecFinal { onentry: acc0.onentry + f.onentry, ..acc0 };
    if f.onentry.len() == 0 {
        assert(w_en + w_ex =~= w_ex);
        assert(acc1 =~~= acc0);
        assert(spec_final_fold(w_en + w_ex, acc0) == spec_final_fold(w_ex, acc1));
    } else {
        assert((w_en + w_ex)[0] == w_en[0]);
        assert((w_en + w_ex).drop_first() =~= w_ex);
        lemma_rt_execs(f.onentry, Seq::empty());
        assert(acc0.onentry + (Seq::empty() + f.onentry) =~= acc1.onentry);
        assert(spec_final_fold(w_en + w_ex, acc0) == spec_final_fold(
            w_ex,
            SpecFinal { onentry: acc0.onentry + (Seq::empty() + f.onentry), ..acc0 },
        ));
        assert(SpecFinal { onentry: acc0.onentry + (Seq::empty() + f.onentry), ..acc0 } =~~= acc1);
    }
    assert(spec_parse_final(e) == spec_final_fold(e.children, acc0));
    assert(spec_final_fold(e.children, acc0) == spec_final_fold(w_ex, acc1));
    let acc2 = SpecFinal { onexit: acc1.onexit + f.onexit, ..acc1 };
    if f.onexit.len() == 0 {
        assert(w_ex =~= Seq::<SpecElement>::empty());
        assert(acc2 =~~= acc1);
        assert(spec_final_fold(w_ex, acc1) == spec_final_fold(
            Seq::<SpecElement>::empty(),
            acc2,
        ));
    } else {
        assert(w_ex[0] == wrap_seg("onexit"@, f.onexit)[0]);
        assert(w_ex.drop_first() =~= Seq::<SpecElement>::empty());
        lemma_rt_execs(f.onexit, Seq::empty());
        assert(SpecFinal { onexit: acc1.onexit + (Seq::empty() + f.onexit), ..acc1 } =~~= acc2);
        assert(spec_final_fold(w_ex, acc1) == spec_final_fold(
            Seq::<SpecElement>::empty(),
            acc2,
        ));
    }
    assert(spec_final_fold(Seq::<SpecElement>::empty(), acc2) == Ok::<SpecFinal, SpecParseError>(
        acc2,
    ));
    assert(acc2 =~~= f);
}

proof fn lemma_rt_state_initialseg(oi: Option<SpecInitial>, rest: Seq<SpecElement>, acc: SpecState)
    requires
        (match oi {
            Some(i) => serializable_transition(i.transition),
            None => true,
        }),
    ensures
        spec_state_fold(initial_seg(oi) + rest, acc) == spec_state_fold(
            rest,
            SpecState {
                initial_element: (match oi {
                    Some(i) => Some(i),
                    None => acc.initial_element,
                }),
                ..acc
            },
        ),
{
    lemma_text_facts();
    match oi {
        Some(i) => {
            let els = initial_seg(oi) + rest;
            assert(els[0] == ser_initial_el(i));
            assert(els.drop_first() =~= rest);
            lemma_rt_initial(i);
        },
        None => {
            assert(initial_seg(oi) + rest =~= rest);
            assert(SpecState { initial_element: acc.initial_element, ..acc } =~~= acc);
        },
    }
}

proof fn lemma_rt_state_wrap(
    name: Seq<char>,
    xs: Seq<SpecExecutable>,
    rest: Seq<SpecElement>,
    acc: SpecState,
)
    requires
        serializable_execs(xs),
        name == "onentry"@ || name == "onexit"@,
    ensures
        name == "onentry"@ ==> spec_state_fold(wrap_seg(name, xs) + rest, acc) == spec_state_fold(
            rest,
            SpecState { onentry: acc.onentry + xs, ..acc },
        ),
        name == "onexit"@ ==> spec_state_fold(wrap_seg(name, xs) + rest, acc) == spec_state_fold(
            rest,
            SpecState { onexit: acc.onexit + xs, ..acc },
        ),
{
    lemma_text_facts();
    if xs.len() == 0 {
        assert(wrap_seg(name, xs) + rest =~= rest);
        assert(SpecState { onentry: acc.onentry + xs, ..acc } =~~= acc);
        assert(SpecState { onexit: acc.onexit + xs, ..acc } =~~= acc);
    } else {
        let els = wrap_seg(name, xs) + rest;
        assert(els[0] == wrap_seg(name, xs)[0]);
        assert(els.drop_first() =~= rest);
        lemma_rt_execs(xs, Seq::empty());
        if name == "onentry"@ {
            assert(SpecState { onentry: acc.onentry + (Seq::empty() + xs), ..acc } =~~= SpecState {
                onentry: acc.onentry + xs,
                ..acc
            });
        } else {
            assert(SpecState { onexit: acc.onexit + (Seq::empty() + xs), ..acc } =~~= SpecState {
                onexit: acc.onexit + xs,
                ..acc
            });
        }
    }
}

proof fn lemma_rt_state_transitions(
    ts: Seq<SpecTransition>,
    rest: Seq<SpecElement>,
    acc: SpecState,
)
    requires
        serializable_transitions(ts),
    ensures
        spec_state_fold(ser_transition_seq(ts) + rest, acc) == spec_state_fold(
            rest,
            SpecState { transitions: acc.transitions + ts, ..acc },
        ),
    decreases ts,
{
    lemma_text_facts();
    if ts.len() == 0 {
        assert(ser_transition_seq(ts) + rest =~= rest);
        assert(SpecState { transitions: acc.transitions + ts, ..acc } =~~= acc);
    } else {
        let els = ser_transition_seq(ts) + rest;
        assert(els[0] == ser_transition_el(ts[0]));
        assert(els.drop_first() =~= ser_transition_seq(ts.drop_first()) + rest);
        lemma_rt_transition(ts[0]);
        let acc2 = SpecState { transitions: acc.transitions.push(ts[0]), ..acc };
        lemma_rt_state_transitions(ts.drop_first(), rest, acc2);
        assert(SpecState { transitions: acc2.transitions + ts.drop_first(), ..acc2 }
            =~~= SpecState { transitions: acc.transitions + ts, ..acc });
    }
}

proof fn lemma_rt_state_invokes(ivs: Seq<SpecInvoke>, rest: Seq<SpecElement>, acc: SpecState)
    requires
        serializable_invokes(ivs),
    ensures
        spec_state_fold(ser_invoke_seq(ivs) + rest, acc) == spec_state_fold(
            rest,
            SpecState { invokes: acc.invokes + ivs, ..acc },
        ),
    decreases ivs,
{
    lemma_text_facts();
    if ivs.len() == 0 {
        assert(ser_invoke_seq(ivs) + rest =~= rest);
        assert(SpecState { invokes: acc.invokes + ivs, ..acc } =~~= acc);
    } else {
        let els = ser_invoke_seq(ivs) + rest;
        assert(els[0] == ser_invoke_el(ivs[0]));
        assert(els.drop_first() =~= ser_invoke_seq(ivs.drop_first()) + rest);
        lemma_rt_invoke(ivs[0]);
        let acc2 = SpecState { invokes: acc.invokes.push(ivs[0]), ..acc };
        lemma_rt_state_invokes(ivs.drop_first(), rest, acc2);
        assert(SpecState { invokes: acc2.invokes + ivs.drop_first(), ..acc2 } =~~= SpecState {
            invokes: acc.invokes + ivs,
            ..acc
        });
    }
}

#[verifier::rlimit(60)]
proof fn lemma_rt_state_forest(ss: Seq<SpecStateLike>, rest: Seq<SpecElement>, acc: SpecState)
    requires
        serializable_forest(ss),
    ensures
        spec_state_fold(ser_forest(ss) + rest, acc) == spec_state_fold(
            rest,
            SpecState { children: acc.children + ss, ..acc },
        ),
    decreases ss,
{
    lemma_text_facts();
    if ss.len() == 0 {
        assert(ser_forest(ss) + rest =~= rest);
        assert(SpecState { children: acc.children + ss, ..acc } =~~= acc);
    } else {
        let els = ser_forest(ss) + rest;
        assert(els[0] == ser_state_like_el(ss[0]));
        assert(els.drop_first() =~= ser_forest(ss.drop_first()) + rest);
        assert(serializable_state_like(ss[0]));
        match ss[0] {
            SpecStateLike::State(s) => {
                assert(ser_state_like_el(ss[0]) == ser_state_el(s));
                lemma_rt_state(s);
            },
            SpecStateLike::Parallel(p) => {
                assert(ser_state_like_el(ss[0]) == ser_parallel_el(p));
                lemma_rt_parallel(p);
            },
            SpecStateLike::Final(f) => {
                assert(ser_state_like_el(ss[0]) == ser_final_el(f));
                lemma_rt_final_st(f);
            },
            SpecStateLike::History(h) => {
                assert(ser_state_like_el(ss[0]) == ser_history_el(h));
                lemma_rt_history(h);
            },
        }
        let acc2 = SpecState { children: acc.children.push(ss[0]), ..acc };
        lemma_rt_state_forest(ss.drop_first(), rest, acc2);
        assert(acc2.children + ss.drop_first() =~= acc.children + ss);
        assert(SpecState { children: acc2.children + ss.drop_first(), ..acc2 } =~~= SpecState {
            children: acc.children + ss,
            ..acc
        });
    }
}

#[verifier::rlimit(60)]
proof fn lemma_rt_state(s: SpecState)
    requires
        serializable_state_like(SpecStateLike::State(s)),
    ensures
        spec_parse_state(ser_state_el(s)) == Ok::<SpecState, SpecParseError>(s),
    decreases s,
{
    lemma_text_facts();
    let e = ser_state_el(s);
    let a_id = opt_attr("id"@, s.id);
    let a_in = opt_attr("initial"@, s.initial);
    assert(e.attributes =~= a_id + a_in);
    assert(a_in =~= a_in + Seq::empty());
    lemma_attr_opt_hit("id"@, s.id, a_in);
    lemma_attr_opt_skip("initial"@, s.initial, Seq::empty(), "id"@);
    lemma_attr_opt_skip("id"@, s.id, a_in, "initial"@);
    lemma_attr_opt_hit("initial"@, s.initial, Seq::empty());
    let seg1 = initial_seg(s.initial_element);
    let seg2 = wrap_seg("onentry"@, s.onentry);
    let seg3 = ser_forest(s.children);
    let seg4 = ser_transition_seq(s.transitions);
    let seg5 = wrap_seg("onexit"@, s.onexit);
    let seg6 = ser_invoke_seq(s.invokes);
    assert(e.children == ser_state_children(s));
    assert(ser_state_children(s) =~= seg1 + (seg2 + (seg3 + (seg4 + (seg5 + seg6)))));
    let acc0 = SpecState {
        id: spec_attr(e.attributes, "id"@),
        initial: spec_attr(e.attributes, "initial"@),
        initial_element: None,
        transitions: Seq::empty(),
        onentry: Seq::empty(),
        onexit: Seq::empty(),
        children: Seq::empty(),
        invokes: Seq::empty(),
    };
    lemma_rt_state_initialseg(
        s.initial_element,
        seg2 + (seg3 + (seg4 + (seg5 + seg6))),
        acc0,
    );
    let acc1 = SpecState {
        initial_element: (match s.initial_element {
            Some(i) => Some(i),
            None => acc0.initial_element,
        }),
        ..acc0
    };
    lemma_rt_state_wrap("onentry"@, s.onentry, seg3 + (seg4 + (seg5 + seg6)), acc1);
    let acc2 = SpecState { onentry: acc1.onentry + s.onentry, ..acc1 };
    lemma_rt_state_forest(s.children, seg4 + (seg5 + seg6), acc2);
    let acc3 = SpecState { children: acc2.children + s.children, ..acc2 };
    lemma_rt_state_transitions(s.transitions, seg5 + seg6, acc3);
    let acc4 = SpecState { transitions: acc3.transitions + s.transitions, ..acc3 };
    lemma_rt_state_wrap("onexit"@, s.onexit, seg6, acc4);
    let acc5 = SpecState { onexit: acc4.onexit + s.onexit, ..acc4 };
    assert(seg6 =~= seg6 + Seq::<SpecElement>::empty());
    lemma_rt_state_invokes(s.invokes, Seq::empty(), acc5);
    let acc6 = SpecState { invokes: acc5.invokes + s.invokes, ..acc5 };
    assert(spec_state_fold(Seq::<SpecElement>::empty(), acc6) == Ok::<SpecState, SpecParseError>(
        acc6,
    ));
    assert(spec_parse_state(e) == spec_state_fold(e.children, acc0));
    assert(acc6 =~~= s);
}

proof fn lemma_rt_parallel_wrap(
    name: Seq<char>,
    xs: Seq<SpecExecutable>,
    rest: Seq<SpecElement>,
    acc: SpecParallel,
)
    requires
        serializable_execs(xs),
        name == "onentry"@ || name == "onexit"@,
    ensures
        name == "onentry"@ ==> spec_parallel_fold(wrap_seg(name, xs) + rest, acc)
            == spec_parallel_fold(rest, SpecParallel { onentry: acc.onentry + xs, ..acc }),
        name == "onexit"@ ==> spec_parallel_fold(wrap_seg(name, xs) + rest, acc)
            == spec_parallel_fold(rest, SpecParallel { onexit: acc.onexit + xs, ..acc }),
{
    lemma_text_facts();
    if xs.len() == 0 {
        assert(wrap_seg(name, xs) + rest =~= rest);
        assert(SpecParallel { onentry: acc.onentry + xs, ..acc } =~~= acc);
        assert(SpecParallel { onexit: acc.onexit + xs, ..acc } =~~= acc);
    } else {
        let els = wrap_seg(name, xs) + rest;
        assert(els[0] == wrap_seg(name, xs)[0]);
        assert(els.drop_first() =~= rest);
        lemma_rt_execs(xs, Seq::empty());
        if name == "onentry"@ {
            assert(SpecParallel { onentry: acc.onentry + (Seq::empty() + xs), ..acc }
                =~~= SpecParallel { onentry: acc.onentry + xs, ..acc });
        } else {
            assert(SpecParallel { onexit: acc.onexit + (Seq::empty() + xs), ..acc }
                =~~= SpecParallel { onexit: acc.onexit + xs, ..acc });
        }
    }
}

proof fn lemma_rt_parallel_transitions(
    ts: Seq<SpecTransition>,
    rest: Seq<SpecElement>,
    acc: SpecParallel,
)
    requires
        serializable_transitions(ts),
    ensures
        spec_parallel_fold(ser_transition_seq(ts) + rest, acc) == spec_parallel_fold(
            rest,
            SpecParallel { transitions: acc.transitions + ts, ..acc },
        ),
    decreases ts,
{
    lemma_text_facts();
    if ts.len() == 0 {
        assert(ser_transition_seq(ts) + rest =~= rest);
        assert(SpecParallel { transitions: acc.transitions + ts, ..acc } =~~= acc);
    } else {
        let els = ser_transition_seq(ts) + rest;
        assert(els[0] == ser_transition_el(ts[0]));
        assert(els.drop_first() =~= ser_transition_seq(ts.drop_first()) + rest);
        lemma_rt_transition(ts[0]);
        let acc2 = SpecParallel { transitions: acc.transitions.push(ts[0]), ..acc };
        lemma_rt_parallel_transitions(ts.drop_first(), rest, acc2);
        assert(SpecParallel { transitions: acc2.transitions + ts.drop_first(), ..acc2 }
            =~~= SpecParallel { transitions: acc.transitions + ts, ..acc });
    }
}

proof fn lemma_rt_parallel_invokes(ivs: Seq<SpecInvoke>, rest: Seq<SpecElement>, acc: SpecParallel)
    requires
        serializable_invokes(ivs),
    ensures
        spec_parallel_fold(ser_invoke_seq(ivs) + rest, acc) == spec_parallel_fold(
            rest,
            SpecParallel { invokes: acc.invokes + ivs, ..acc },
        ),
    decreases ivs,
{
    lemma_text_facts();
    if ivs.len() == 0 {
        assert(ser_invoke_seq(ivs) + rest =~= rest);
        assert(SpecParallel { invokes: acc.invokes + ivs, ..acc } =~~= acc);
    } else {
        let els = ser_invoke_seq(ivs) + rest;
        assert(els[0] == ser_invoke_el(ivs[0]));
        assert(els.drop_first() =~= ser_invoke_seq(ivs.drop_first()) + rest);
        lemma_rt_invoke(ivs[0]);
        let acc2 = SpecParallel { invokes: acc.invokes.push(ivs[0]), ..acc };
        lemma_rt_parallel_invokes(ivs.drop_first(), rest, acc2);
        assert(SpecParallel { invokes: acc2.invokes + ivs.drop_first(), ..acc2 } =~~= SpecParallel {
            invokes: acc.invokes + ivs,
            ..acc
        });
    }
}

#[verifier::rlimit(60)]
proof fn lemma_rt_parallel_forest(
    ss: Seq<SpecStateLike>,
    rest: Seq<SpecElement>,
    acc: SpecParallel,
)
    requires
        serializable_forest(ss),
    ensures
        spec_parallel_fold(ser_forest(ss) + rest, acc) == spec_parallel_fold(
            rest,
            SpecParallel { children: acc.children + ss, ..acc },
        ),
    decreases ss,
{
    lemma_text_facts();
    if ss.len() == 0 {
        assert(ser_forest(ss) + rest =~= rest);
        assert(SpecParallel { children: acc.children + ss, ..acc } =~~= acc);
    } else {
        let els = ser_forest(ss) + rest;
        assert(els[0] == ser_state_like_el(ss[0]));
        assert(els.drop_first() =~= ser_forest(ss.drop_first()) + rest);
        assert(serializable_state_like(ss[0]));
        match ss[0] {
            SpecStateLike::State(s) => {
                assert(ser_state_like_el(ss[0]) == ser_state_el(s));
                lemma_rt_state(s);
            },
            SpecStateLike::Parallel(p) => {
                assert(ser_state_like_el(ss[0]) == ser_parallel_el(p));
                lemma_rt_parallel(p);
            },
            SpecStateLike::Final(f) => {
                assert(ser_state_like_el(ss[0]) == ser_final_el(f));
                lemma_rt_final_st(f);
            },
            SpecStateLike::History(h) => {
                assert(ser_state_like_el(ss[0]) == ser_history_el(h));
                lemma_rt_history(h);
            },
        }
        let acc2 = SpecParallel { children: acc.children.push(ss[0]), ..acc };
        lemma_rt_parallel_forest(ss.drop_first(), rest, acc2);
        assert(acc2.children + ss.drop_first() =~= acc.children + ss);
        assert(SpecParallel { children: acc2.children + ss.drop_first(), ..acc2 } =~~= SpecParallel {
            children: acc.children + ss,
            ..acc
        });
    }
}

#[verifier::rlimit(60)]
proof fn lemma_rt_parallel(p: SpecParallel)
    requires
        serializable_state_like(SpecStateLike::Parallel(p)),
    ensures
        spec_parse_parallel(ser_parallel_el(p)) == Ok::<SpecParallel, SpecParseError>(p),
    decreases p,
{
    lemma_text_facts();
    let e = ser_parallel_el(p);
    lemma_attr_opt_hit("id"@, p.id, Seq::empty());
    assert(e.attributes =~= opt_attr("id"@, p.id) + Seq::empty());
    let seg1 = wrap_seg("onentry"@, p.onentry);
    let seg2 = ser_forest(p.children);
    let seg3 = ser_transition_seq(p.transitions);
    let seg4 = wrap_seg("onexit"@, p.onexit);
    let seg5 = ser_invoke_seq(p.invokes);
    assert(e.children == ser_parallel_children(p));
    assert(ser_parallel_children(p) =~= seg1 + (seg2 + (seg3 + (seg4 + seg5))));
    let acc0 = SpecParallel {
        id: spec_attr(e.attributes, "id"@),
        transitions: Seq::empty(),
        onentry: Seq::empty(),
        onexit: Seq::empty(),
        children: Seq::empty(),
        invokes: Seq::empty(),
    };
    lemma_rt_parallel_wrap("onentry"@, p.onentry, seg2 + (seg3 + (seg4 + seg5)), acc0);
    let acc1 = SpecParallel { onentry: acc0.onentry + p.onentry, ..acc0 };
    lemma_rt_parallel_forest(p.children, seg3 + (seg4 + seg5), acc1);
    let acc2 = SpecParallel { children: acc1.children + p.children, ..acc1 };
    lemma_rt_parallel_transitions(p.transitions, seg4 + seg5, acc2);
    let acc3 = SpecParallel { transitions: acc2.transitions + p.transitions, ..acc2 };
    lemma_rt_parallel_wrap("onexit"@, p.onexit, seg5, acc3);
    let acc4 = SpecParallel { onexit: acc3.onexit + p.onexit, ..acc3 };
    assert(seg5 =~= seg5 + Seq::<SpecElement>::empty());
    lemma_rt_parallel_invokes(p.invokes, Seq::empty(), acc4);
    let acc5 = SpecParallel { invokes: acc4.invokes + p.invokes, ..acc4 };
    assert(spec_parallel_fold(Seq::<SpecElement>::empty(), acc5) == Ok::<
        SpecParallel,
        SpecParseError,
    >(acc5));
    assert(spec_parse_parallel(e) == spec_parallel_fold(e.children, acc0));
    assert(acc5 =~~= p);
}

// ---------------------------------------------------------------------------
// The document round-trip
// ---------------------------------------------------------------------------

#[verifier::rlimit(60)]
proof fn lemma_rt_root_forest(
    ss: Seq<SpecStateLike>,
    states: Seq<SpecStateLike>,
    datas: Seq<SpecData>,
)
    requires
        serializable_forest(ss),
    ensures
        spec_root_fold(ser_forest(ss), states, datas) == Ok::<
            (Seq<SpecStateLike>, Seq<SpecData>),
            SpecParseError,
        >((states + ss, datas)),
    decreases ss,
{
    lemma_text_facts();
    if ss.len() == 0 {
        assert(states + ss =~= states);
    } else {
        let els = ser_forest(ss);
        assert(els[0] == ser_state_like_el(ss[0]));
        assert(els.drop_first() =~= ser_forest(ss.drop_first()));
        assert(serializable_state_like(ss[0]));
        match ss[0] {
            SpecStateLike::State(s) => {
                assert(ser_state_like_el(ss[0]) == ser_state_el(s));
                lemma_rt_state(s);
            },
            SpecStateLike::Parallel(p) => {
                assert(ser_state_like_el(ss[0]) == ser_parallel_el(p));
                lemma_rt_parallel(p);
            },
            SpecStateLike::Final(f) => {
                assert(ser_state_like_el(ss[0]) == ser_final_el(f));
                lemma_rt_final_st(f);
            },
            SpecStateLike::History(h) => {
                assert(ser_state_like_el(ss[0]) == ser_history_el(h));
                lemma_rt_history(h);
            },
        }
        lemma_rt_root_forest(ss.drop_first(), states.push(ss[0]), datas);
        assert(states.push(ss[0]) + ss.drop_first() =~= states + ss);
    }
}

/// Re-parsing the serialized element tree of a fully serializable document,
/// under either namespace mode, yields exactly the document.
#[verifier::rlimit(60)]
pub proof fn lemma_serialize_parse_round_trip(d: SpecScxml, relaxed: bool)
    requires
        serializable_doc(d),
    ensures
        spec_parse_doc(ser_doc_el(d), relaxed) == Ok::<SpecScxml, SpecParseError>(d),
{
    lemma_text_facts();
    reveal_strlit("scxml");
    reveal_strlit("1.0");
    let e = ser_doc_el(d);
    let a_v = seq![("version"@, d.version)];
    let a_i = opt_attr("initial"@, d.initial);
    let a_d = opt_attr("datamodel"@, d.datamodel);
    assert(e.attributes =~= a_v + (a_i + a_d));
    assert(a_d =~= a_d + Seq::empty());
    lemma_attr_one_hit("version"@, d.version, a_i + a_d);
    lemma_attr_one_skip("version"@, d.version, a_i + a_d, "initial"@);
    lemma_attr_opt_hit("initial"@, d.initial, a_d);
    lemma_attr_opt_skip("datamodel"@, d.datamodel, Seq::empty(), "initial"@);
    lemma_attr_one_skip("version"@, d.version, a_i + a_d, "datamodel"@);
    lemma_attr_opt_skip("initial"@, d.initial, a_d, "datamodel"@);
    lemma_attr_opt_hit("datamodel"@, d.datamodel, Seq::empty());
    let seg_dm = datamodel_seg(d.datamodel_elements);
    let seg_ss = ser_forest(d.states);
    assert(e.children =~= seg_dm + seg_ss);
    if d.datamodel_elements.len() == 0 {
        assert(seg_dm + seg_ss =~= seg_ss);
        lemma_rt_root_forest(d.states, Seq::empty(), Seq::empty());
        assert(Seq::empty() + d.states =~= d.states);
    } else {
        assert((seg_dm + seg_ss)[0] == seg_dm[0]);
        assert((seg_dm + seg_ss).drop_first() =~= seg_ss);
        lemma_rt_data_list(d.datamodel_elements, Seq::empty());
        assert(Seq::empty() + d.datamodel_elements =~= d.datamodel_elements);
        lemma_rt_root_forest(d.states, Seq::empty(), Seq::empty() + d.datamodel_elements);
        assert(Seq::empty() + d.states =~= d.states);
    }
    match spec_parse_doc(e, relaxed) {
        Ok(d2) => {
            assert(d2 =~~= d);
        },
        Err(_) => {
            assert(false);
        },
    }
}

} // verus!
