use harel::parse_scxml;
use harel::parse_scxml_with_options;
use harel::to_xml;
use harel::validate;
use harel::Executable;
use harel::ParseError;
use harel::ParseOptions;
use harel::StateLike;
use harel::ValidationError;

const NS: &str = "http://www.w3.org/2005/07/scxml";

fn wrap(body: &str) -> String {
    format!("<scxml xmlns=\"{}\" version=\"1.0\">{}</scxml>", NS, body)
}

#[test]
fn valid_document_validates() {
    let xml = format!(
        r#"<scxml xmlns="{}" version="1.0" initial="a">
            <state id="a" initial="a1">
                <initial><transition target="a1"/></initial>
                <state id="a1">
                    <transition event="next" target="a2 b"/>
                </state>
                <state id="a2"/>
                <history id="h" type="shallow">
                    <transition target="a1"/>
                </history>
            </state>
            <parallel id="b">
                <state id="b1"/>
                <state id="b2"/>
            </parallel>
            <final id="done"/>
        </scxml>"#,
        NS
    );
    let scxml = parse_scxml(&xml).unwrap();
    assert!(validate(&scxml).is_ok());
}

#[test]
fn duplicate_id_is_reported_by_value() {
    let xml = wrap(r#"<state id="duplicate"/><state id="duplicate"/>"#);
    let scxml = parse_scxml(&xml).unwrap();
    assert!(matches!(validate(&scxml), Err(ValidationError::DuplicateId(id)) if id == "duplicate"));
}

#[test]
fn dangling_target_is_reported_by_value() {
    let xml = wrap(r#"<state id="start"><transition target="nonexistent"/></state>"#);
    let scxml = parse_scxml(&xml).unwrap();
    assert!(matches!(
        validate(&scxml),
        Err(ValidationError::InvalidTarget(t)) if t == "nonexistent"
    ));
}

#[test]
fn dangling_root_initial_is_reported() {
    let xml = format!(
        r#"<scxml xmlns="{}" version="1.0" initial="missing"><state id="start"/></scxml>"#,
        NS
    );
    let scxml = parse_scxml(&xml).unwrap();
    assert!(matches!(validate(&scxml), Err(ValidationError::InvalidTarget(t)) if t == "missing"));
}

#[test]
fn duplicate_data_id_is_reported() {
    let xml = wrap(r#"<datamodel><data id="x"/><data id="x"/></datamodel>"#);
    let scxml = parse_scxml(&xml).unwrap();
    assert!(matches!(validate(&scxml), Err(ValidationError::DuplicateId(id)) if id == "x"));
}

#[test]
fn namespace_strict_rejects_and_relaxed_accepts() {
    let wrong = r#"<scxml xmlns="http://example.com/other" version="1.0"/>"#;
    assert!(matches!(parse_scxml(wrong), Err(ParseError::InvalidNamespace(ns)) if ns == NS));

    let missing = r#"<scxml version="1.0"/>"#;
    assert!(matches!(parse_scxml(missing), Err(ParseError::InvalidNamespace(_))));

    let relaxed = ParseOptions { relaxed_namespace: true };
    assert!(parse_scxml_with_options(wrong, relaxed.clone()).is_ok());
    assert!(parse_scxml_with_options(missing, relaxed).is_ok());
}

#[test]
fn branch_partition_keeps_document_order() {
    let xml = wrap(r#"<state id="s"><onentry><if cond="c"><a/><else/><b/></if></onentry></state>"#);
    let scxml = parse_scxml(&xml).unwrap();
    let StateLike::State(s) = &scxml.states[0] else { panic!("expected a state") };
    let Executable::If { cond, then, else_ } = &s.onentry[0] else { panic!("expected an if") };
    assert_eq!(cond, "c");
    assert_eq!(then.len(), 1);
    assert_eq!(else_.len(), 1);
    assert!(matches!(&then[0], Executable::Other(tag) if tag == "a"));
    assert!(matches!(&else_[0], Executable::Other(tag) if tag == "b"));
}

#[test]
fn multi_target_needs_every_token() {
    let both = wrap(
        r#"<state id="s"><transition target="r1 r2"/></state><state id="r1"/><state id="r2"/>"#,
    );
    let scxml = parse_scxml(&both).unwrap();
    assert!(validate(&scxml).is_ok());

    let one = wrap(r#"<state id="s"><transition target="r1 r2"/></state><state id="r1"/>"#);
    let scxml = parse_scxml(&one).unwrap();
    assert!(matches!(validate(&scxml), Err(ValidationError::InvalidTarget(t)) if t == "r2"));
}

#[test]
fn version_gate_rejects_other_versions() {
    let xml = format!(r#"<scxml xmlns="{}" version="2.0"><state id="s"/></scxml>"#, NS);
    assert!(matches!(parse_scxml(&xml), Err(ParseError::InvalidStructure(_))));

    let xml = format!(r#"<scxml xmlns="{}"><state id="s"/></scxml>"#, NS);
    assert!(matches!(parse_scxml(&xml), Err(ParseError::MissingAttribute(a)) if a == "version"));
}

#[test]
fn malformed_xml_is_invalid_xml() {
    assert!(matches!(parse_scxml("<scxml"), Err(ParseError::InvalidXml(_))));
}

#[test]
fn root_must_be_scxml() {
    let xml = format!(r#"<statemachine xmlns="{}" version="1.0"/>"#, NS);
    assert!(matches!(parse_scxml(&xml), Err(ParseError::InvalidStructure(_))));
}

#[test]
fn initial_element_needs_a_transition() {
    let xml = wrap(r#"<state id="s"><initial/></state>"#);
    assert!(matches!(parse_scxml(&xml), Err(ParseError::InvalidStructure(_))));
}

#[test]
fn param_needs_a_name() {
    let xml = wrap(r#"<state id="s"><invoke type="t"><param expr="1"/></invoke></state>"#);
    assert!(matches!(parse_scxml(&xml), Err(ParseError::MissingAttribute(_))));
}

#[test]
fn data_needs_an_id() {
    let xml = wrap(r#"<datamodel><data expr="1"/></datamodel>"#);
    assert!(matches!(parse_scxml(&xml), Err(ParseError::MissingAttribute(_))));
}

#[test]
fn empty_document_parses_and_validates() {
    let xml = format!(r#"<scxml xmlns="{}" version="1.0"/>"#, NS);
    let scxml = parse_scxml(&xml).unwrap();
    assert!(scxml.states.is_empty());
    assert!(scxml.datamodel_elements.is_empty());
    assert!(validate(&scxml).is_ok());
    assert!(parse_scxml(&to_xml(&scxml)).is_ok());
}

#[test]
fn serializer_exact_output() {
    let xml = format!(r#"<scxml xmlns="{}" version="1.0"><state id="a"/></scxml>"#, NS);
    let scxml = parse_scxml(&xml).unwrap();
    let expected = "<?xml version=\"1.0\" encoding=\"UTF-8\"?>\n\
        <scxml xmlns=\"http://www.w3.org/2005/07/scxml\" version=\"1.0\">\n\
        \x20   <state id=\"a\"/>\n\
        </scxml>";
    assert_eq!(to_xml(&scxml), expected);
}

#[test]
fn round_trip_preserves_structure() {
    let xml = format!(
        r#"<scxml xmlns="{}" version="1.0" initial="a" datamodel="ecmascript">
            <datamodel>
                <data id="v" expr="0"/>
                <data id="w" src="somewhere"/>
            </datamodel>
            <state id="a" initial="a1">
                <initial id="i0"><transition target="a1"/></initial>
                <onentry>
                    <raise event="started"/>
                    <if cond="v == 0"><assign location="v" expr="1"/><else/><log label="l" expr="v"/></if>
                    <foreach array="items" item="it" index="ix"><send event="step" target="b"/></foreach>
                    <script>run();</script>
                    <cancel sendid="sid"/>
                    <custom/>
                </onentry>
                <state id="a1">
                    <transition event="go" cond="v == 1" target="a2 b" type="external"/>
                </state>
                <state id="a2"/>
                <history id="h" type="deep"><transition target="a1"/></history>
                <transition event="leave" target="done"/>
                <onexit><log expr="'bye'"/></onexit>
                <invoke type="vxml3" src="d.vxml" id="inv">
                    <param name="p1" expr="1"/>
                    <param name="p2" location="v"/>
                    <finalize><assign location="v" expr="event.data"/></finalize>
                    <content expr="c"/>
                </invoke>
            </state>
            <parallel id="b">
                <onentry><raise event="b_on"/></onentry>
                <state id="b1"/>
                <state id="b2"/>
                <transition event="stop" target="done"/>
            </parallel>
            <final id="done"/>
        </scxml>"#,
        NS
    );
    let first = parse_scxml(&xml).unwrap();
    assert!(validate(&first).is_ok());
    let text = to_xml(&first);
    let second = parse_scxml(&text).unwrap();
    assert!(validate(&second).is_ok());

    assert_eq!(second.version, first.version);
    assert_eq!(second.initial, first.initial);
    assert_eq!(second.datamodel, first.datamodel);
    assert_eq!(second.datamodel_elements.len(), first.datamodel_elements.len());
    assert_eq!(second.datamodel_elements[0].id, first.datamodel_elements[0].id);
    assert_eq!(second.datamodel_elements[0].expr, first.datamodel_elements[0].expr);
    assert_eq!(second.datamodel_elements[1].src, first.datamodel_elements[1].src);
    assert_eq!(second.states.len(), first.states.len());

    let StateLike::State(a1) = &first.states[0] else { panic!("expected a state") };
    let StateLike::State(a2) = &second.states[0] else { panic!("expected a state") };
    assert_eq!(a2.id, a1.id);
    assert_eq!(a2.initial, a1.initial);
    assert_eq!(a2.initial_element.as_ref().unwrap().id, a1.initial_element.as_ref().unwrap().id);
    assert_eq!(a2.onentry.len(), a1.onentry.len());
    assert!(matches!(&a2.onentry[0], Executable::Raise { event } if event == "started"));
    let Executable::If { cond, then, else_ } = &a2.onentry[1] else { panic!("expected an if") };
    assert_eq!(cond, "v == 0");
    assert_eq!(then.len(), 1);
    assert_eq!(else_.len(), 1);
    let Executable::Foreach { array, item, index, body } = &a2.onentry[2] else {
        panic!("expected a foreach")
    };
    assert_eq!(array, "items");
    assert_eq!(item, "it");
    assert_eq!(index.as_deref(), Some("ix"));
    assert_eq!(body.len(), 1);
    assert!(matches!(&a2.onentry[3], Executable::Script { content, .. }
        if content.as_deref() == Some("run();")));
    assert!(matches!(&a2.onentry[4], Executable::Cancel { sendid } if sendid == "sid"));
    assert!(matches!(&a2.onentry[5], Executable::Other(tag) if tag == "custom"));
    assert_eq!(a2.children.len(), a1.children.len());
    let StateLike::State(c1) = &a2.children[0] else { panic!("expected a state") };
    assert_eq!(c1.transitions[0].event.as_deref(), Some("go"));
    assert_eq!(c1.transitions[0].cond.as_deref(), Some("v == 1"));
    assert_eq!(c1.transitions[0].target.as_deref(), Some("a2 b"));
    assert_eq!(c1.transitions[0].type_.as_deref(), Some("external"));
    let StateLike::History(h) = &a2.children[2] else { panic!("expected a history") };
    assert_eq!(h.id.as_deref(), Some("h"));
    assert_eq!(h.type_, "deep");
    assert_eq!(h.transition.as_ref().unwrap().target.as_deref(), Some("a1"));
    assert_eq!(a2.transitions.len(), 1);
    assert_eq!(a2.onexit.len(), 1);
    assert_eq!(a2.invokes.len(), 1);
    let iv1 = &a1.invokes[0];
    let iv2 = &a2.invokes[0];
    assert_eq!(iv2.type_, iv1.type_);
    assert_eq!(iv2.src, iv1.src);
    assert_eq!(iv2.id, iv1.id);
    assert_eq!(iv2.params.len(), iv1.params.len());
    assert_eq!(iv2.params[1].location, iv1.params[1].location);
    assert!(iv2.finalize.is_some());
    assert_eq!(iv2.content.as_ref().unwrap().expr.as_deref(), Some("c"));

    let StateLike::Parallel(p2) = &second.states[1] else { panic!("expected a parallel") };
    assert_eq!(p2.id.as_deref(), Some("b"));
    assert_eq!(p2.onentry.len(), 1);
    assert_eq!(p2.children.len(), 2);
    assert_eq!(p2.transitions.len(), 1);

    assert!(matches!(&second.states[2], StateLike::Final(f) if f.id.as_deref() == Some("done")));
}

#[test]
fn single_state_serializes_in_place() {
    let xml = wrap(r#"<state id="s"><transition event="go" target="s"/></state>"#);
    let scxml = parse_scxml(&xml).unwrap();
    let mut out = String::new();
    harel::serialize::serialize_state_like(&scxml.states[0], 0, &mut out);
    assert!(out.starts_with("<state id=\"s\">"));
    assert!(out.contains("<transition event=\"go\" target=\"s\"/>"));
    assert!(out.ends_with("</state>\n"));
}

#[test]
fn extra_whitespace_between_target_tokens() {
    let xml = wrap(
        "<state id=\"s\"><transition target=\"  r1   r2  \"/></state><state id=\"r1\"/><state id=\"r2\"/>",
    );
    let scxml = parse_scxml(&xml).unwrap();
    assert!(validate(&scxml).is_ok());
}

#[test]
fn history_type_defaults_to_shallow() {
    let xml = wrap(r#"<state id="p"><history id="h"/><state id="c"/></state>"#);
    let scxml = parse_scxml(&xml).unwrap();
    let StateLike::State(p) = &scxml.states[0] else { panic!("expected a state") };
    let StateLike::History(h) = &p.children[0] else { panic!("expected a history") };
    assert_eq!(h.type_, "shallow");
    assert!(h.transition.is_none());
}

#[test]
fn absent_secondary_attributes_default_to_empty() {
    let xml = wrap(r#"<state id="s"><onentry><raise/><send/><assign/><foreach/></onentry></state>"#);
    let scxml = parse_scxml(&xml).unwrap();
    let StateLike::State(s) = &scxml.states[0] else { panic!("expected a state") };
    assert!(matches!(&s.onentry[0], Executable::Raise { event } if event.is_empty()));
    assert!(matches!(&s.onentry[1], Executable::Send { event, target } if event.is_empty() && target.is_none()));
    assert!(matches!(&s.onentry[2], Executable::Assign { location, expr } if location.is_empty() && expr.is_empty()));
    assert!(matches!(&s.onentry[3], Executable::Foreach { array, item, index, body }
        if array.is_empty() && item.is_empty() && index.is_none() && body.is_empty()));
}
