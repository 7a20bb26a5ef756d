//! The validator: read-only semantic checks over the document AST.
//!
//! Three passes, each proved equal to a spec-level mirror: id collection
//! (global uniqueness, fail-fast on the first duplicate in pre-order),
//! transition-target resolution (fail-fast on the first unresolved token),
//! and datamodel id uniqueness. The mirror is in turn proved equivalent to
//! the declarative statement [`spec_valid_document`].

use vstd::prelude::*;
use crate::ast::Data;
use crate::ast::Scxml;
use crate::ast::StateLike;
use crate::ast::Transition;
use crate::ast::ValidationError;
use crate::ast::SpecData;
use crate::ast::SpecScxml;
use crate::ast::SpecStateLike;
use crate::ast::SpecTransition;
use crate::ast::SpecValidationError;
use crate::ast::view_data_seq;
use crate::ast::view_final;
use crate::ast::view_forest;
use crate::ast::view_parallel;
use crate::ast::view_history;
use crate::ast::view_state;
use crate::ast::view_transition;
use crate::ast::view_transition_seq;
use crate::ast::lemma_view_forest;
use crate::ast::lemma_view_transition_seq;
use crate::xml::str_eq;

verus! {

// ---------------------------------------------------------------------------
// The ids declared in a document, in pre-order
// ---------------------------------------------------------------------------

/// The id as a list: empty when absent.
pub open spec fn opt_id(id: Option<Seq<char>>) -> Seq<Seq<char>> {
    match id {
        Some(i) => seq![i],
        None => Seq::empty(),
    }
}

/// The ids declared by one state-like element and its descendants, in
/// pre-order.
pub open spec fn state_like_ids(sl: SpecStateLike) -> Seq<Seq<char>>
    decreases sl,
{
    match sl {
        SpecStateLike::State(s) => opt_id(s.id) + forest_ids(s.children),
        SpecStateLike::Parallel(p) => opt_id(p.id) + forest_ids(p.children),
        SpecStateLike::Final(f) => opt_id(f.id),
        SpecStateLike::History(h) => opt_id(h.id),
    }
}

/// The ids declared by a list of state-like elements, in pre-order.
pub open spec fn forest_ids(ss: Seq<SpecStateLike>) -> Seq<Seq<char>>
    decreases ss,
{
    if ss.len() == 0 {
        Seq::empty()
    } else {
        state_like_ids(ss[0]) + forest_ids(ss.drop_first())
    }
}

// ---------------------------------------------------------------------------
// Pass one: id collection, fail-fast on the first duplicate
// ---------------------------------------------------------------------------

/// Adds an optional id to the ids seen so far; a repeated id is the error.
pub open spec fn add_id(acc: Seq<Seq<char>>, id: Option<Seq<char>>) -> Result<
    Seq<Seq<char>>,
    Seq<char>,
> {
    match id {
        None => Ok(acc),
        Some(i) => if acc.contains(i) {
            Err(i)
        } else {
            Ok(acc.push(i))
        },
    }
}

/// Collects the ids of a list of state-like elements in pre-order, after
/// those in `acc`; the error carries the first repeated id.
pub open spec fn spec_collect(ss: Seq<SpecStateLike>, acc: Seq<Seq<char>>) -> Result<
    Seq<Seq<char>>,
    Seq<char>,
>
    decreases ss,
{
    if ss.len() == 0 {
        Ok(acc)
    } else {
        match spec_collect_one(ss[0], acc) {
            Ok(acc2) => spec_collect(ss.drop_first(), acc2),
            Err(i) => Err(i),
        }
    }
}

/// Collects the ids of one state-like element and its descendants.
pub open spec fn spec_collect_one(sl: SpecStateLike, acc: Seq<Seq<char>>) -> Result<
    Seq<Seq<char>>,
    Seq<char>,
>
    decreases sl,
{
    match sl {
        SpecStateLike::State(s) => match add_id(acc, s.id) {
            Ok(acc2) => spec_collect(s.children, acc2),
            Err(i) => Err(i),
        },
        SpecStateLike::Parallel(p) => match add_id(acc, p.id) {
            Ok(acc2) => spec_collect(p.children, acc2),
            Err(i) => Err(i),
        },
        SpecStateLike::Final(f) => add_id(acc, f.id),
        SpecStateLike::History(h) => add_id(acc, h.id),
    }
}

/// A sequence with a repetition stays repetitious under concatenation on
/// the right.
proof fn lemma_nodup_prefix<A>(a: Seq<A>, b: Seq<A>)
    ensures
        (a + b).no_duplicates() ==> a.no_duplicates(),
{
    if (a + b).no_duplicates() {
        assert forall|i: int, j: int| 0 <= i < a.len() && 0 <= j < a.len() && i != j implies a[i]
            != a[j] by {
            assert((a + b)[i] == a[i]);
            assert((a + b)[j] == a[j]);
        }
    }
}

/// Id collection succeeds exactly when the ids seen so far plus the ids of
/// the list are pairwise distinct, and then returns exactly those ids.
pub proof fn lemma_collect_iff(ss: Seq<SpecStateLike>, acc: Seq<Seq<char>>)
    requires
        acc.no_duplicates(),
    ensures
        spec_collect(ss, acc) is Ok <==> (acc + forest_ids(ss)).no_duplicates(),
        spec_collect(ss, acc) matches Ok(res) ==> res == acc + forest_ids(ss)
            && res.no_duplicates(),
    decreases ss,
{
    if ss.len() == 0 {
        assert(acc + forest_ids(ss) =~= acc);
    } else {
        lemma_collect_one_iff(ss[0], acc);
        match spec_collect_one(ss[0], acc) {
            Ok(acc2) => {
                lemma_collect_iff(ss.drop_first(), acc2);
                assert(acc2 + forest_ids(ss.drop_first()) =~= acc + forest_ids(ss));
            },
            Err(i) => {
                lemma_nodup_prefix(
                    acc + state_like_ids(ss[0]),
                    forest_ids(ss.drop_first()),
                );
                assert((acc + state_like_ids(ss[0])) + forest_ids(ss.drop_first()) =~= acc
                    + forest_ids(ss));
            },
        }
    }
}

/// The same statement for one state-like element.
pub proof fn lemma_collect_one_iff(sl: SpecStateLike, acc: Seq<Seq<char>>)
    requires
        acc.no_duplicates(),
    ensures
        spec_collect_one(sl, acc) is Ok <==> (acc + state_like_ids(sl)).no_duplicates(),
        spec_collect_one(sl, acc) matches Ok(res) ==> res == acc + state_like_ids(sl)
            && res.no_duplicates(),
    decreases sl,
{
    match sl {
        SpecStateLike::State(s) => {
            lemma_add_id_iff(acc, s.id);
            match add_id(acc, s.id) {
                Ok(acc2) => {
                    lemma_collect_iff(s.children, acc2);
                    assert(acc2 + forest_ids(s.children) =~= acc + state_like_ids(sl));
                },
                Err(i) => {
                    lemma_nodup_prefix(acc + opt_id(s.id), forest_ids(s.children));
                    assert((acc + opt_id(s.id)) + forest_ids(s.children) =~= acc
                        + state_like_ids(sl));
                },
            }
        },
        SpecStateLike::Parallel(p) => {
            lemma_add_id_iff(acc, p.id);
            match add_id(acc, p.id) {
                Ok(acc2) => {
                    lemma_collect_iff(p.children, acc2);
                    assert(acc2 + forest_ids(p.children) =~= acc + state_like_ids(sl));
                },
                Err(i) => {
                    lemma_nodup_prefix(acc + opt_id(p.id), forest_ids(p.children));
                    assert((acc + opt_id(p.id)) + forest_ids(p.children) =~= acc
                        + state_like_ids(sl));
                },
            }
        },
        SpecStateLike::Final(f) => {
            lemma_add_id_iff(acc, f.id);
            assert(acc + opt_id(f.id) =~= acc + state_like_ids(sl));
        },
        SpecStateLike::History(h) => {
            lemma_add_id_iff(acc, h.id);
            assert(acc + opt_id(h.id) =~= acc + state_like_ids(sl));
        },
    }
}

/// Adding one optional id succeeds exactly when it is not among the ids
/// seen so far.
proof fn lemma_add_id_iff(acc: Seq<Seq<char>>, id: Option<Seq<char>>)
    requires
        acc.no_duplicates(),
    ensures
        add_id(acc, id) is Ok <==> (acc + opt_id(id)).no_duplicates(),
        add_id(acc, id) matches Ok(res) ==> res == acc + opt_id(id) && res.no_duplicates(),
{
    match id {
        None => {
            assert(acc + opt_id(id) =~= acc);
        },
        Some(i) => {
            if acc.contains(i) {
                let k = choose|k: int| 0 <= k < acc.len() && acc[k] == i;
                assert((acc + opt_id(id))[k] == i);
                assert((acc + opt_id(id))[acc.len() as int] == i);
                assert(!(acc + opt_id(id)).no_duplicates());
            } else {
                assert(acc.push(i) =~= acc + opt_id(id));
                assert forall|x: int, y: int|
                    0 <= x < acc.len() + 1 && 0 <= y < acc.len() + 1 && x != y implies acc.push(
                    i,
                )[x] != acc.push(i)[y] by {
                    if x < acc.len() && y < acc.len() {
                    } else if x == acc.len() {
                        assert(acc.push(i)[y] == acc[y]);
                        assert(!acc.contains(i));
                    } else {
                        assert(acc.push(i)[x] == acc[x]);
                        assert(!acc.contains(i));
                    }
                }
                assert(acc.push(i).no_duplicates());
            }
        },
    }
}

// ---------------------------------------------------------------------------
// Executable pass one
// ---------------------------------------------------------------------------

/// Records one optional id, failing on one already recorded.
fn add_one_id(all_ids: &mut Vec<String>, id: &Option<String>) -> (r: Result<(), ValidationError>)
    ensures
        (match r {
            Ok(_) => add_id(old(all_ids).deep_view(), id.deep_view()) == Ok::<
                Seq<Seq<char>>,
                Seq<char>,
            >(final(all_ids).deep_view()),
            Err(err) => add_id(old(all_ids).deep_view(), id.deep_view()) matches Err(dup) && err@
                == SpecValidationError::DuplicateId(dup),
        }),
{
    if let Some(id_val) = id {
        if contains_str(all_ids, id_val.as_str()) {
            return Err(ValidationError::DuplicateId(id_val.clone()));
        }
        let ghost prev = all_ids.deep_view();
        all_ids.push(id_val.clone());
        proof {
            assert(all_ids.deep_view() =~= prev.push(id_val@));
        }
    }
    Ok(())
}

/// Whether `s` is among the strings of `ids`.
fn contains_str(ids: &Vec<String>, s: &str) -> (r: bool)
    ensures
        r == ids.deep_view().contains(s@),
{
    let mut i: usize = 0;
    while i < ids.len()
        invariant
            i <= ids.len(),
            forall|j: int| 0 <= j < i ==> ids.deep_view()[j] != s@,
        decreases ids.len() - i,
    {
        if str_eq(ids[i].as_str(), s) {
            assert(ids.deep_view()[i as int] == s@);
            return true;
        }
        i = i + 1;
    }
    assert(forall|j: int| 0 <= j < ids.deep_view().len() ==> ids.deep_view()[j] != s@);
    false
}

/// Collects every id of `states` (states, parallels, finals, histories)
/// into `all_ids` in pre-order, and reports the first id already present.
#[verifier::loop_isolation(false)]
#[verifier::rlimit(30)]
pub fn collect_state_ids(states: &Vec<StateLike>, all_ids: &mut Vec<String>) -> (r: Result<
    (),
    ValidationError,
>)
    ensures
        (match r {
            Ok(_) => spec_collect(view_forest(states@), old(all_ids).deep_view()) == Ok::<
                Seq<Seq<char>>,
                Seq<char>,
            >(final(all_ids).deep_view()),
            Err(err) => spec_collect(view_forest(states@), old(all_ids).deep_view()) matches Err(
                dup,
            ) && err@ == SpecValidationError::DuplicateId(dup),
        }),
    decreases states,
{
    let ghost vs = view_forest(states@);
    proof {
        lemma_view_forest(states@);
        assert(vs.skip(0) =~= vs);
    }
    let mut i: usize = 0;
    while i < states.len()
        invariant
            i <= states.len(),
            spec_collect(vs.skip(i as int), all_ids.deep_view()) == spec_collect(
                vs,
                old(all_ids).deep_view(),
            ),
        decreases states.len() - i,
    {
        proof {
            assert(vs.skip(i as int)[0] == vs[i as int]);
            assert(vs.skip(i as int).drop_first() =~= vs.skip(i as int + 1));
        }
        match &states[i] {
            StateLike::State(s) => {
                let ghost cur = all_ids.deep_view();
                proof {
                    assert(vs[i as int] == SpecStateLike::State(view_state(*s)));
                }
                match add_one_id(all_ids, &s.id) {
                    Ok(_) => {},
                    Err(err) => {
                        proof {
                            assert(add_id(cur, s.id.deep_view()) matches Err(dup) && err@
                                == SpecValidationError::DuplicateId(dup));
                            assert(spec_collect_one(vs[i as int], cur) == add_id(
                                cur,
                                s.id.deep_view(),
                            ));
                            assert(spec_collect(vs.skip(i as int), cur) == spec_collect_one(
                                vs[i as int],
                                cur,
                            ));
                            assert(spec_collect(vs, old(all_ids).deep_view())
                                == spec_collect_one(vs[i as int], cur));
                        }
                        return Err(err);
                    },
                }
                let ghost cur2 = all_ids.deep_view();
                match collect_state_ids(&s.children, all_ids) {
                    Ok(_) => {},
                    Err(err) => {
                        proof {
                            assert(spec_collect(view_forest(s.children@), cur2) matches Err(dup)
                                && err@ == SpecValidationError::DuplicateId(dup));
                            assert(spec_collect_one(vs[i as int], cur) == spec_collect(
                                view_forest(s.children@),
                                cur2,
                            ));
                            assert(spec_collect(vs, old(all_ids).deep_view())
                                == spec_collect_one(vs[i as int], cur));
                        }
                        return Err(err);
                    },
                }
            },
            StateLike::Parallel(p) => {
                let ghost cur = all_ids.deep_view();
                proof {
                    assert(vs[i as int] == SpecStateLike::Parallel(view_parallel(*p)));
                }
                match add_one_id(all_ids, &p.id) {
                    Ok(_) => {},
                    Err(err) => {
                        proof {
                            assert(add_id(cur, p.id.deep_view()) matches Err(dup) && err@
                                == SpecValidationError::DuplicateId(dup));
                            assert(spec_collect_one(vs[i as int], cur) == add_id(
                                cur,
                                p.id.deep_view(),
                            ));
                            assert(spec_collect(vs, old(all_ids).deep_view())
                                == spec_collect_one(vs[i as int], cur));
                        }
                        return Err(err);
                    },
                }
                let ghost cur2 = all_ids.deep_view();
                match collect_state_ids(&p.children, all_ids) {
                    Ok(_) => {},
                    Err(err) => {
                        proof {
                            assert(spec_collect(view_forest(p.children@), cur2) matches Err(dup)
                                && err@ == SpecValidationError::DuplicateId(dup));
                            assert(spec_collect_one(vs[i as int], cur) == spec_collect(
                                view_forest(p.children@),
                                cur2,
                            ));
                            assert(spec_collect(vs, old(all_ids).deep_view())
                                == spec_collect_one(vs[i as int], cur));
                        }
                        return Err(err);
                    },
                }
            },
            StateLike::Final(f) => {
                let ghost cur = all_ids.deep_view();
                proof {
                    assert(vs[i as int] == SpecStateLike::Final(view_final(*f)));
                }
                match add_one_id(all_ids, &f.id) {
                    Ok(_) => {},
                    Err(err) => {
                        proof {
                            assert(add_id(cur, f.id.deep_view()) matches Err(dup) && err@
                                == SpecValidationError::DuplicateId(dup));
                            assert(spec_collect_one(vs[i as int], cur) == add_id(
                                cur,
                                f.id.deep_view(),
                            ));
                            assert(spec_collect(vs, old(all_ids).deep_view())
                                == spec_collect_one(vs[i as int], cur));
                        }
                        return Err(err);
                    },
                }
            },
            StateLike::History(h) => {
                let ghost cur = all_ids.deep_view();
                proof {
                    assert(vs[i as int] == SpecStateLike::History(view_history(*h)));
                }
                match add_one_id(all_ids, &h.id) {
                    Ok(_) => {},
                    Err(err) => {
                        proof {
                            assert(add_id(cur, h.id.deep_view()) matches Err(dup) && err@
                                == SpecValidationError::DuplicateId(dup));
                            assert(spec_collect_one(vs[i as int], cur) == add_id(
                                cur,
                                h.id.deep_view(),
                            ));
                            assert(spec_collect(vs, old(all_ids).deep_view())
                                == spec_collect_one(vs[i as int], cur));
                        }
                        return Err(err);
                    },
                }
            },
        }
        i = i + 1;
    }
    proof {
        assert(vs.skip(i as int).len() == 0);
    }
    Ok(())
}

// ---------------------------------------------------------------------------
// Splitting a target list on whitespace
// ---------------------------------------------------------------------------

/// XML whitespace: space, tab, line feed, carriage return.
pub open spec fn is_space(c: char) -> bool {
    c == ' ' || c == '\t' || c == '\n' || c == '\r'
}

/// One scan of a target list: `cur` is the token being read, `out` the
/// tokens already read.
pub open spec fn spec_split_fold(s: Seq<char>, cur: Seq<char>, out: Seq<Seq<char>>) -> Seq<
    Seq<char>,
>
    decreases s.len(),
{
    if s.len() == 0 {
        if cur.len() > 0 {
            out.push(cur)
        } else {
            out
        }
    } else if is_space(s[0]) {
        if cur.len() > 0 {
            spec_split_fold(s.drop_first(), Seq::empty(), out.push(cur))
        } else {
            spec_split_fold(s.drop_first(), Seq::empty(), out)
        }
    } else {
        spec_split_fold(s.drop_first(), cur.push(s[0]), out)
    }
}

/// The whitespace-separated tokens of `s`, in order.
pub open spec fn spec_split(s: Seq<char>) -> Seq<Seq<char>> {
    spec_split_fold(s, Seq::empty(), Seq::empty())
}

fn is_space_char(c: char) -> (r: bool)
    ensures
        r == is_space(c),
{
    c == ' ' || c == '\t' || c == '\n' || c == '\r'
}

/// Splits a target list into its whitespace-separated tokens.
#[verifier::loop_isolation(false)]
pub fn split_targets(s: &str) -> (r: Vec<String>)
    ensures
        r.deep_view() == spec_split(s@),
{
    let n = s.unicode_len();
    let mut out: Vec<String> = Vec::new();
    let mut st: usize = 0;
    let mut in_tok = false;
    let mut i: usize = 0;
    proof {
        assert(s@.skip(0) =~= s@);
        assert(out.deep_view() =~= Seq::<Seq<char>>::empty());
    }
    while i < n
        invariant
            i <= n,
            n == s@.len(),
            in_tok ==> st < i,
            spec_split_fold(
                s@.skip(i as int),
                if in_tok {
                    s@.subrange(st as int, i as int)
                } else {
                    Seq::empty()
                },
                out.deep_view(),
            ) == spec_split(s@),
        decreases n - i,
    {
        proof {
            assert(s@.skip(i as int)[0] == s@[i as int]);
            assert(s@.skip(i as int).drop_first() =~= s@.skip(i as int + 1));
        }
        let c = s.get_char(i);
        if is_space_char(c) {
            if in_tok {
                let tok = s.substring_char(st, i).to_owned();
                proof {
                    assert(out.deep_view().push(tok@) =~= {
                        let prev = out.deep_view();
                        prev.push(s@.subrange(st as int, i as int))
                    });
                    let prev = out.deep_view();
                    assert(prev.push(tok@) =~= prev.push(s@.subrange(st as int, i as int)));
                }
                let ghost prev = out.deep_view();
                out.push(tok);
                proof {
                    assert(out.deep_view() =~= prev.push(s@.subrange(st as int, i as int)));
                }
                in_tok = false;
            }
        } else {
            if !in_tok {
                in_tok = true;
                st = i;
            }
            proof {
                assert(s@.subrange(st as int, i as int + 1) =~= s@.subrange(
                    st as int,
                    i as int,
                ).push(s@[i as int]));
                assert(Seq::<char>::empty().push(s@[i as int]) =~= s@.subrange(
                    i as int,
                    i as int + 1,
                ));
            }
        }
        i = i + 1;
    }
    proof {
        assert(s@.skip(i as int).len() == 0);
    }
    if in_tok {
        let tok = s.substring_char(st, n).to_owned();
        let ghost prev = out.deep_view();
        out.push(tok);
        proof {
            assert(out.deep_view() =~= prev.push(s@.subrange(st as int, n as int)));
        }
    }
    out
}

// ---------------------------------------------------------------------------
// Pass two: transition targets, fail-fast on the first unresolved token
// ---------------------------------------------------------------------------

/// The first token that is not a declared id, if any.
pub open spec fn spec_check_tokens(toks: Seq<Seq<char>>, ids: Seq<Seq<char>>) -> Result<
    (),
    Seq<char>,
>
    decreases toks,
{
    if toks.len() == 0 {
        Ok(())
    } else if !ids.contains(toks[0]) {
        Err(toks[0])
    } else {
        spec_check_tokens(toks.drop_first(), ids)
    }
}

/// One transition: every token of its target list must be a declared id.
pub open spec fn spec_check_transition(t: SpecTransition, ids: Seq<Seq<char>>) -> Result<
    (),
    Seq<char>,
> {
    match t.target {
        None => Ok(()),
        Some(tg) => spec_check_tokens(spec_split(tg), ids),
    }
}

/// A transition list, in order.
pub open spec fn spec_check_transitions(ts: Seq<SpecTransition>, ids: Seq<Seq<char>>) -> Result<
    (),
    Seq<char>,
>
    decreases ts,
{
    if ts.len() == 0 {
        Ok(())
    } else {
        match spec_check_transition(ts[0], ids) {
            Ok(_) => spec_check_transitions(ts.drop_first(), ids),
            Err(tok) => Err(tok),
        }
    }
}

/// The target check over a list of state-like elements, in pre-order.
pub open spec fn spec_check_targets(ss: Seq<SpecStateLike>, ids: Seq<Seq<char>>) -> Result<
    (),
    Seq<char>,
>
    decreases ss,
{
    if ss.len() == 0 {
        Ok(())
    } else {
        match spec_check_one(ss[0], ids) {
            Ok(_) => spec_check_targets(ss.drop_first(), ids),
            Err(tok) => Err(tok),
        }
    }
}

/// The target check over one state-like element: its own transitions first,
/// then its children; history default transitions are checked, finals have
/// none.
pub open spec fn spec_check_one(sl: SpecStateLike, ids: Seq<Seq<char>>) -> Result<(), Seq<char>>
    decreases sl,
{
    match sl {
        SpecStateLike::State(s) => match spec_check_transitions(s.transitions, ids) {
            Ok(_) => spec_check_targets(s.children, ids),
            Err(tok) => Err(tok),
        },
        SpecStateLike::Parallel(p) => match spec_check_transitions(p.transitions, ids) {
            Ok(_) => spec_check_targets(p.children, ids),
            Err(tok) => Err(tok),
        },
        SpecStateLike::History(h) => match h.transition {
            Some(t) => spec_check_transition(t, ids),
            None => Ok(()),
        },
        SpecStateLike::Final(_) => Ok(()),
    }
}

/// Checks one transition's target list against the declared ids.
#[verifier::loop_isolation(false)]
fn check_transition_targets(t: &Transition, all_ids: &Vec<String>) -> (r: Result<
    (),
    ValidationError,
>)
    ensures
        (match r {
            Ok(_) => spec_check_transition(view_transition(*t), all_ids.deep_view()) == Ok::<
                (),
                Seq<char>,
            >(()),
            Err(err) => spec_check_transition(view_transition(*t), all_ids.deep_view()) matches Err(
                tok,
            ) && err@ == SpecValidationError::InvalidTarget(tok),
        }),
{
    match &t.target {
        None => Ok(()),
        Some(tg) => {
            let toks = split_targets(tg.as_str());
            let ghost tv = spec_split(tg@);
            proof {
                assert(tv.skip(0) =~= tv);
            }
            let mut k: usize = 0;
            while k < toks.len()
                invariant
                    k <= toks.len(),
                    toks.deep_view() == tv,
                    spec_check_tokens(tv.skip(k as int), all_ids.deep_view()) == spec_check_tokens(
                        tv,
                        all_ids.deep_view(),
                    ),
                decreases toks.len() - k,
            {
                proof {
                    assert(tv.skip(k as int)[0] == tv[k as int]);
                    assert(tv.skip(k as int).drop_first() =~= tv.skip(k as int + 1));
                }
                if !contains_str(all_ids, toks[k].as_str()) {
                    return Err(ValidationError::InvalidTarget(toks[k].clone()));
                }
                k = k + 1;
            }
            proof {
                assert(tv.skip(k as int).len() == 0);
            }
            Ok(())
        },
    }
}

/// Checks every transition of a list, in order.
#[verifier::loop_isolation(false)]
fn check_transitions(ts: &Vec<Transition>, all_ids: &Vec<String>) -> (r: Result<
    (),
    ValidationError,
>)
    ensures
        (match r {
            Ok(_) => spec_check_transitions(view_transition_seq(ts@), all_ids.deep_view()) == Ok::<
                (),
                Seq<char>,
            >(()),
            Err(err) => spec_check_transitions(view_transition_seq(ts@), all_ids.deep_view())
                matches Err(tok) && err@ == SpecValidationError::InvalidTarget(tok),
        }),
{
    let ghost tsv = view_transition_seq(ts@);
    proof {
        lemma_view_transition_seq(ts@);
        assert(tsv.skip(0) =~= tsv);
    }
    let mut k: usize = 0;
    while k < ts.len()
        invariant
            k <= ts.len(),
            spec_check_transitions(tsv.skip(k as int), all_ids.deep_view())
                == spec_check_transitions(tsv, all_ids.deep_view()),
        decreases ts.len() - k,
    {
        proof {
            assert(tsv.skip(k as int)[0] == tsv[k as int]);
            assert(tsv.skip(k as int).drop_first() =~= tsv.skip(k as int + 1));
        }
        match check_transition_targets(&ts[k], all_ids) {
            Ok(_) => {},
            Err(err) => {
                return Err(err);
            },
        }
        k = k + 1;
    }
    proof {
        assert(tsv.skip(k as int).len() == 0);
    }
    Ok(())
}

/// Checks that every transition target in `states` (including history
/// default transitions) resolves to a declared id, in pre-order, and
/// reports the first token that does not.
#[verifier::loop_isolation(false)]
pub fn validate_transition_targets(states: &Vec<StateLike>, all_ids: &Vec<String>) -> (r: Result<
    (),
    ValidationError,
>)
    ensures
        (match r {
            Ok(_) => spec_check_targets(view_forest(states@), all_ids.deep_view()) == Ok::<
                (),
                Seq<char>,
            >(()),
            Err(err) => spec_check_targets(view_forest(states@), all_ids.deep_view()) matches Err(
                tok,
            ) && err@ == SpecValidationError::InvalidTarget(tok),
        }),
    decreases states,
{
    let ghost vs = view_forest(states@);
    proof {
        lemma_view_forest(states@);
        assert(vs.skip(0) =~= vs);
    }
    let mut i: usize = 0;
    while i < states.len()
        invariant
            i <= states.len(),
            spec_check_targets(vs.skip(i as int), all_ids.deep_view()) == spec_check_targets(
                vs,
                all_ids.deep_view(),
            ),
        decreases states.len() - i,
    {
        proof {
            assert(vs.skip(i as int)[0] == vs[i as int]);
            assert(vs.skip(i as int).drop_first() =~= vs.skip(i as int + 1));
        }
        match &states[i] {
            StateLike::State(s) => {
                proof {
                    assert(vs[i as int] == SpecStateLike::State(view_state(*s)));
                }
                match check_transitions(&s.transitions, all_ids) {
                    Ok(_) => {},
                    Err(err) => {
                        proof {
                            assert(spec_check_one(vs[i as int], all_ids.deep_view()) matches Err(
                                tok,
                            ) && err@ == SpecValidationError::InvalidTarget(tok));
                            assert(spec_check_targets(vs, all_ids.deep_view()) matches Err(tok)
                                && err@ == SpecValidationError::InvalidTarget(tok));
                        }
                        return Err(err);
                    },
                }
                match validate_transition_targets(&s.children, all_ids) {
                    Ok(_) => {},
                    Err(err) => {
                        proof {
                            assert(spec_check_one(vs[i as int], all_ids.deep_view()) matches Err(
                                tok,
                            ) && err@ == SpecValidationError::InvalidTarget(tok));
                            assert(spec_check_targets(vs, all_ids.deep_view()) matches Err(tok)
                                && err@ == SpecValidationError::InvalidTarget(tok));
                        }
                        return Err(err);
                    },
                }
            },
            StateLike::Parallel(p) => {
                proof {
                    assert(vs[i as int] == SpecStateLike::Parallel(view_parallel(*p)));
                }
                match check_transitions(&p.transitions, all_ids) {
                    Ok(_) => {},
                    Err(err) => {
                        proof {
                            assert(spec_check_one(vs[i as int], all_ids.deep_view()) matches Err(
                                tok,
                            ) && err@ == SpecValidationError::InvalidTarget(tok));
                            assert(spec_check_targets(vs, all_ids.deep_view()) matches Err(tok)
                                && err@ == SpecValidationError::InvalidTarget(tok));
                        }
                        return Err(err);
                    },
                }
                match validate_transition_targets(&p.children, all_ids) {
                    Ok(_) => {},
                    Err(err) => {
                        proof {
                            assert(spec_check_one(vs[i as int], all_ids.deep_view()) matches Err(
                                tok,
                            ) && err@ == SpecValidationError::InvalidTarget(tok));
                            assert(spec_check_targets(vs, all_ids.deep_view()) matches Err(tok)
                                && err@ == SpecValidationError::InvalidTarget(tok));
                        }
                        return Err(err);
                    },
                }
            },
            StateLike::History(h) => {
                proof {
                    assert(vs[i as int] == SpecStateLike::History(view_history(*h)));
                }
                match &h.transition {
                    Some(t) => {
                        match check_transition_targets(t, all_ids) {
                            Ok(_) => {},
                            Err(err) => {
                                return Err(err);
                            },
                        }
                    },
                    None => {},
                }
            },
            StateLike::Final(_) => {},
        }
        i = i + 1;
    }
    proof {
        assert(vs.skip(i as int).len() == 0);
    }
    Ok(())
}

// ---------------------------------------------------------------------------
// Pass three: datamodel id uniqueness
// ---------------------------------------------------------------------------

/// The first repeated data id, scanning in order with the ids seen so far.
pub open spec fn spec_check_data(ds: Seq<SpecData>, seen: Seq<Seq<char>>) -> Result<(), Seq<char>>
    decreases ds,
{
    if ds.len() == 0 {
        Ok(())
    } else if seen.contains(ds[0].id) {
        Err(ds[0].id)
    } else {
        spec_check_data(ds.drop_first(), seen.push(ds[0].id))
    }
}

/// Checks that the ids of the datamodel section are pairwise distinct, and
/// reports the first repeated one.
#[verifier::loop_isolation(false)]
pub fn validate_datamodel_constraints(data_elements: &Vec<Data>) -> (r: Result<
    (),
    ValidationError,
>)
    ensures
        (match r {
            Ok(_) => spec_check_data(view_data_seq(data_elements@), Seq::empty()) == Ok::<
                (),
                Seq<char>,
            >(()),
            Err(err) => spec_check_data(view_data_seq(data_elements@), Seq::empty()) matches Err(
                dup,
            ) && err@ == SpecValidationError::DuplicateId(dup),
        }),
{
    let mut seen: Vec<String> = Vec::new();
    let ghost dv = view_data_seq(data_elements@);
    proof {
        assert(dv.skip(0) =~= dv);
        assert(seen.deep_view() =~= Seq::<Seq<char>>::empty());
    }
    let mut i: usize = 0;
    while i < data_elements.len()
        invariant
            i <= data_elements.len(),
            spec_check_data(dv.skip(i as int), seen.deep_view()) == spec_check_data(
                dv,
                Seq::empty(),
            ),
        decreases data_elements.len() - i,
    {
        proof {
            assert(dv.skip(i as int)[0] == dv[i as int]);
            assert(dv.skip(i as int).drop_first() =~= dv.skip(i as int + 1));
        }
        let d = &data_elements[i];
        if contains_str(&seen, d.id.as_str()) {
            return Err(ValidationError::DuplicateId(d.id.clone()));
        }
        let ghost prev = seen.deep_view();
        seen.push(d.id.clone());
        proof {
            assert(seen.deep_view() =~= prev.push(d.id@));
        }
        i = i + 1;
    }
    proof {
        assert(dv.skip(i as int).len() == 0);
    }
    Ok(())
}

// ---------------------------------------------------------------------------
// The whole validation
// ---------------------------------------------------------------------------

/// The validator, pass by pass: id collection, target resolution, the root
/// `initial` reference, then datamodel uniqueness; the first violation is
/// the result.
pub open spec fn spec_validate(d: SpecScxml) -> Result<(), SpecValidationError> {
    match spec_collect(d.states, Seq::empty()) {
        Err(dup) => Err(SpecValidationError::DuplicateId(dup)),
        Ok(ids) => match spec_check_targets(d.states, ids) {
            Err(tok) => Err(SpecValidationError::InvalidTarget(tok)),
            Ok(_) => if (match d.initial {
                Some(init) => !ids.contains(init),
                None => false,
            }) {
                Err(SpecValidationError::InvalidTarget(d.initial->0))
            } else {
                match spec_check_data(d.datamodel_elements, Seq::empty()) {
                    Err(dup) => Err(SpecValidationError::DuplicateId(dup)),
                    Ok(_) => Ok(()),
                }
            },
        },
    }
}

/// Validates a parsed document: every id unique across the whole document,
/// every transition target and the root `initial` resolvable, datamodel ids
/// unique within their section. Fail-fast: the result is exactly
/// [`spec_validate`] of the document's view, and it succeeds if and only if
/// [`spec_valid_document`] holds.
pub fn validate(scxml: &Scxml) -> (r: Result<(), ValidationError>)
    ensures
        (match r {
            Ok(_) => spec_validate(scxml@) == Ok::<(), SpecValidationError>(()),
            Err(err) => spec_validate(scxml@) == Err::<(), SpecValidationError>(err@),
        }),
        r is Ok <==> spec_valid_document(scxml@),
{
    proof {
        lemma_validate_iff_valid(scxml@);
    }
    let mut all_ids: Vec<String> = Vec::new();
    proof {
        assert(all_ids.deep_view() =~= Seq::<Seq<char>>::empty());
    }
    match collect_state_ids(&scxml.states, &mut all_ids) {
        Ok(_) => {},
        Err(err) => {
            return Err(err);
        },
    }
    match validate_transition_targets(&scxml.states, &all_ids) {
        Ok(_) => {},
        Err(err) => {
            return Err(err);
        },
    }
    match &scxml.initial {
        Some(init) => {
            if !contains_str(&all_ids, init.as_str()) {
                return Err(ValidationError::InvalidTarget(init.clone()));
            }
        },
        None => {},
    }
    match validate_datamodel_constraints(&scxml.datamodel_elements) {
        Ok(_) => {},
        Err(err) => {
            return Err(err);
        },
    }
    Ok(())
}

// ---------------------------------------------------------------------------
// The declarative statement, and validation's soundness and completeness
// ---------------------------------------------------------------------------

/// The whitespace-separated tokens of a target list, all declared.
pub open spec fn tokens_ok(toks: Seq<Seq<char>>, ids: Seq<Seq<char>>) -> bool
    decreases toks,
{
    if toks.len() == 0 {
        true
    } else {
        ids.contains(toks[0]) && tokens_ok(toks.drop_first(), ids)
    }
}

/// Every token of the transition's target list is a declared id.
pub open spec fn transition_ok(t: SpecTransition, ids: Seq<Seq<char>>) -> bool {
    match t.target {
        None => true,
        Some(tg) => tokens_ok(spec_split(tg), ids),
    }
}

/// Every transition of the list resolves.
pub open spec fn transitions_ok(ts: Seq<SpecTransition>, ids: Seq<Seq<char>>) -> bool
    decreases ts,
{
    if ts.len() == 0 {
        true
    } else {
        transition_ok(ts[0], ids) && transitions_ok(ts.drop_first(), ids)
    }
}

/// Every transition anywhere under the list of state-like elements
/// resolves, history default transitions included.
pub open spec fn targets_ok_forest(ss: Seq<SpecStateLike>, ids: Seq<Seq<char>>) -> bool
    decreases ss,
{
    if ss.len() == 0 {
        true
    } else {
        targets_ok_one(ss[0], ids) && targets_ok_forest(ss.drop_first(), ids)
    }
}

/// The same for one state-like element and its descendants.
pub open spec fn targets_ok_one(sl: SpecStateLike, ids: Seq<Seq<char>>) -> bool
    decreases sl,
{
    match sl {
        SpecStateLike::State(s) => transitions_ok(s.transitions, ids) && targets_ok_forest(
            s.children,
            ids,
        ),
        SpecStateLike::Parallel(p) => transitions_ok(p.transitions, ids) && targets_ok_forest(
            p.children,
            ids,
        ),
        SpecStateLike::History(h) => match h.transition {
            Some(t) => transition_ok(t, ids),
            None => true,
        },
        SpecStateLike::Final(_) => true,
    }
}

/// The ids of the datamodel section, in order.
pub open spec fn data_ids(ds: Seq<SpecData>) -> Seq<Seq<char>> {
    ds.map(|i: int, d: SpecData| d.id)
}

/// What it means for a document to be valid: ids globally unique, every
/// transition target and the root `initial` declared, datamodel ids unique
/// within their section.
pub open spec fn spec_valid_document(d: SpecScxml) -> bool {
    &&& forest_ids(d.states).no_duplicates()
    &&& targets_ok_forest(d.states, forest_ids(d.states))
    &&& (match d.initial {
        Some(init) => forest_ids(d.states).contains(init),
        None => true,
    })
    &&& data_ids(d.datamodel_elements).no_duplicates()
}

proof fn lemma_check_tokens_iff(toks: Seq<Seq<char>>, ids: Seq<Seq<char>>)
    ensures
        spec_check_tokens(toks, ids) is Ok <==> tokens_ok(toks, ids),
    decreases toks,
{
    if toks.len() > 0 && ids.contains(toks[0]) {
        lemma_check_tokens_iff(toks.drop_first(), ids);
    }
}

proof fn lemma_check_transitions_iff(ts: Seq<SpecTransition>, ids: Seq<Seq<char>>)
    ensures
        spec_check_transitions(ts, ids) is Ok <==> transitions_ok(ts, ids),
    decreases ts,
{
    if ts.len() > 0 {
        match ts[0].target {
            None => {},
            Some(tg) => {
                lemma_check_tokens_iff(spec_split(tg), ids);
            },
        }
        if spec_check_transition(ts[0], ids) is Ok {
            lemma_check_transitions_iff(ts.drop_first(), ids);
        }
    }
}

proof fn lemma_check_targets_iff(ss: Seq<SpecStateLike>, ids: Seq<Seq<char>>)
    ensures
        spec_check_targets(ss, ids) is Ok <==> targets_ok_forest(ss, ids),
    decreases ss,
{
    if ss.len() > 0 {
        lemma_check_one_iff(ss[0], ids);
        if spec_check_one(ss[0], ids) is Ok {
            lemma_check_targets_iff(ss.drop_first(), ids);
        }
    }
}

proof fn lemma_check_one_iff(sl: SpecStateLike, ids: Seq<Seq<char>>)
    ensures
        spec_check_one(sl, ids) is Ok <==> targets_ok_one(sl, ids),
    decreases sl,
{
    match sl {
        SpecStateLike::State(s) => {
            lemma_check_transitions_iff(s.transitions, ids);
            if spec_check_transitions(s.transitions, ids) is Ok {
                lemma_check_targets_iff(s.children, ids);
            }
        },
        SpecStateLike::Parallel(p) => {
            lemma_check_transitions_iff(p.transitions, ids);
            if spec_check_transitions(p.transitions, ids) is Ok {
                lemma_check_targets_iff(p.children, ids);
            }
        },
        SpecStateLike::History(h) => {
            match h.transition {
                Some(t) => {
                    match t.target {
                        None => {},
                        Some(tg) => {
                            lemma_check_tokens_iff(spec_split(tg), ids);
                        },
                    }
                },
                None => {},
            }
        },
        SpecStateLike::Final(_) => {},
    }
}

proof fn lemma_check_data_iff(ds: Seq<SpecData>, seen: Seq<Seq<char>>)
    requires
        seen.no_duplicates(),
    ensures
        spec_check_data(ds, seen) is Ok <==> (seen + data_ids(ds)).no_duplicates(),
    decreases ds,
{
    if ds.len() == 0 {
        assert(seen + data_ids(ds) =~= seen);
    } else if seen.contains(ds[0].id) {
        let k = choose|k: int| 0 <= k < seen.len() && seen[k] == ds[0].id;
        assert((seen + data_ids(ds))[k] == ds[0].id);
        assert((seen + data_ids(ds))[seen.len() as int] == ds[0].id);
        assert(!(seen + data_ids(ds)).no_duplicates());
    } else {
        lemma_add_id_iff(seen, Some(ds[0].id));
        assert(seen + opt_id(Some(ds[0].id)) =~= seen.push(ds[0].id));
        lemma_check_data_iff(ds.drop_first(), seen.push(ds[0].id));
        assert(seen.push(ds[0].id) + data_ids(ds.drop_first()) =~= seen + data_ids(ds));
    }
}

/// Validation succeeds exactly on valid documents: a document whose ids are
/// globally unique, whose transition targets and root `initial` all resolve
/// to declared ids, and whose datamodel ids are unique within their
/// section, passes validation, and no other does.
pub proof fn lemma_validate_iff_valid(d: SpecScxml)
    ensures
        spec_validate(d) is Ok <==> spec_valid_document(d),
{
    lemma_collect_iff(d.states, Seq::empty());
    assert(Seq::<Seq<char>>::empty() + forest_ids(d.states) =~= forest_ids(d.states));
    match spec_collect(d.states, Seq::empty()) {
        Err(_) => {},
        Ok(ids) => {
            assert(ids == forest_ids(d.states));
            lemma_check_targets_iff(d.states, ids);
            lemma_check_data_iff(d.datamodel_elements, Seq::empty());
            assert(Seq::<Seq<char>>::empty() + data_ids(d.datamodel_elements) =~= data_ids(
                d.datamodel_elements,
            ));
        },
    }
}

} // verus!
