use harel::parse_scxml;
use harel::parse_scxml_with_options;
use harel::to_xml;
use harel::validate;
use harel::Executable;
use harel::ParseError;
use harel::ParseOptions;
use harel::StateLike;
use harel::ValidationError;

#[test]
fn test_extended_parse() {
    let xml = r#"<scxml xmlns="http://www.w3.org/2005/07/scxml" version="1.0" initial="start">
            <datamodel>
                <data id="var1" expr="0"/>
            </datamodel>
            <state id="start">
                <onentry>
                    <if cond="var1 == 0">
                        <assign location="var1" expr="1"/>
                        <else/>
                        <log expr="var1"/>
                    </if>
                    <foreach array="items" item="i">
                        <send event="process"/>
                    </foreach>
                </onentry>
                <transition event="go" target="end"/>
                <parallel id="para">
                    <state id="sub1"/>
                </parallel>
            </state>
            <final id="end"/>
        </scxml>"#;
    let scxml = parse_scxml(xml).unwrap();
    assert_eq!(scxml.version, "1.0");
    assert_eq!(scxml.initial, Some("start".to_string()));
    assert_eq!(scxml.datamodel_elements[0].id, "var1");
    if let StateLike::State(state) = &scxml.states[0] {
        assert_eq!(state.id, Some("start".to_string()));
        if let Executable::If { cond, then, else_ } = &state.onentry[0] {
            assert_eq!(cond, "var1 == 0");
            assert_eq!(then.len(), 1);
            assert_eq!(else_.len(), 1);
        }
        if let Executable::Foreach { array, item, .. } = &state.onentry[1] {
            assert_eq!(array, "items");
            assert_eq!(item, "i");
        }
        if let StateLike::Parallel(para) = &state.children[0] {
            assert_eq!(para.id, Some("para".to_string()));
        }
    }
    if let StateLike::Final(f) = &scxml.states[1] {
        assert_eq!(f.id, Some("end".to_string()));
    }
}

#[test]
fn test_parse_example() {
    let xml = r#"<?xml version="1.0"?>
        <scxml version="1.0" datamodel="ecmascript" initial="master">
          <state id="master">
            <initial id="init1">
              <transition target="_home"/>
            </initial>
            <transition event="new_dealer" target="NewDealer"/>
            <transition event="mumble" target="_home"/>
            <transition event="silence" target="_home"/>
            <state id="_home">
              <onentry>
                <script>
                _data = {};
                </script>
              </onentry>
              <invoke src="datamodel.v3#InitDataModel" type="vxml3">
                <finalize>
                  <script>
                  var n;
                  for (n in event) {
                      _data[n] = event[n];
                  }
                  </script>
                </finalize>
              </invoke>
              <transition event="success" target="Welcome"/>
            </state>

            <state id="Welcome">
              <invoke src="dialog.vxml#Welcome" type="vxml3">
                <param name="skinpath" expr="skinpath"/>
              </invoke>
              <transition event="success" target="Intro2"/>
            </state>
          </state>
        </scxml>
        "#;
    let options = ParseOptions { relaxed_namespace: true };
    let scxml = parse_scxml_with_options(xml, options).unwrap();
    assert_eq!(scxml.datamodel, Some("ecmascript".to_string()));
    if let StateLike::State(master) = &scxml.states[0] {
        assert_eq!(master.id, Some("master".to_string()));
        assert_eq!(master.initial_element.as_ref().unwrap().id, Some("init1".to_string()));
        assert_eq!(
            master.initial_element.as_ref().unwrap().transition.target,
            Some("_home".to_string())
        );
        if let StateLike::State(home) = &master.children[0] {
            assert_eq!(home.id, Some("_home".to_string()));
            if let Executable::Script { content, .. } = &home.onentry[0] {
                assert_eq!(content.as_ref().unwrap(), "_data = {};");
            }
            let invoke = &home.invokes[0];
            assert_eq!(invoke.src, Some("datamodel.v3#InitDataModel".to_string()));
            assert_eq!(invoke.type_, "vxml3");
            let finalize_script = &invoke.finalize.as_ref().unwrap().executables[0];
            if let Executable::Script { content, .. } = finalize_script {
                assert!(content.as_ref().unwrap().contains("for (n in event)"));
            }
        }
    }
}

#[test]
fn test_invalid_namespace() {
    let xml = r#"
        <scxml xmlns="http://wrong.namespace" version="1.0">
            <state id="start"/>
        </scxml>
        "#;
    assert!(matches!(parse_scxml(xml), Err(ParseError::InvalidNamespace(_))));
}

#[test]
fn test_validation() {
    let xml = r#"<scxml xmlns="http://www.w3.org/2005/07/scxml" version="1.0" initial="start">
            <datamodel>
                <data id="var1" expr="0"/>
            </datamodel>
            <state id="start">
                <transition event="go" target="end"/>
            </state>
            <final id="end"/>
        </scxml>"#;

    let scxml = parse_scxml(xml).unwrap();
    let result = validate(&scxml);
    assert!(result.is_ok(), "Validation should pass: {:?}", result.err());
}

#[test]
fn test_validation_duplicate_id() {
    let xml = r#"<scxml xmlns="http://www.w3.org/2005/07/scxml" version="1.0">
            <state id="duplicate"/>
            <state id="duplicate"/>
        </scxml>"#;

    let scxml = parse_scxml(xml).unwrap();
    let result = validate(&scxml);
    assert!(matches!(result, Err(ValidationError::DuplicateId(_))));
}

#[test]
fn test_validation_invalid_target() {
    let xml = r#"<scxml xmlns="http://www.w3.org/2005/07/scxml" version="1.0">
            <state id="start">
                <transition event="go" target="nonexistent"/>
            </state>
        </scxml>"#;

    let scxml = parse_scxml(xml).unwrap();
    let result = validate(&scxml);
    assert!(matches!(result, Err(ValidationError::InvalidTarget(_))));
}

#[test]
fn test_serialization() {
    let xml = r#"<scxml xmlns="http://www.w3.org/2005/07/scxml" version="1.0" initial="start">
            <state id="start">
                <transition event="go" target="end"/>
            </state>
            <final id="end"/>
        </scxml>"#;

    let scxml = parse_scxml(xml).unwrap();
    let serialized = to_xml(&scxml);

    assert!(serialized.contains("<?xml version=\"1.0\" encoding=\"UTF-8\"?>"));
    assert!(serialized.contains("<scxml"));
    assert!(serialized.contains("version=\"1.0\""));
    assert!(serialized.contains("initial=\"start\""));
    assert!(serialized.contains("<state id=\"start\">"));
    assert!(serialized.contains("<final id=\"end\""));

    let reparsed = parse_scxml(&serialized);
    assert!(reparsed.is_ok());
}

#[test]
fn test_invoke_with_params() {
    let xml = r#"<scxml xmlns="http://www.w3.org/2005/07/scxml" version="1.0">
            <state id="calling">
                <invoke type="vxml3" src="dialog.vxml">
                    <param name="param1" expr="'value1'"/>
                    <param name="param2" location="var2"/>
                    <finalize>
                        <assign location="result" expr="event.data"/>
                    </finalize>
                </invoke>
            </state>
        </scxml>"#;

    let scxml = parse_scxml(xml).unwrap();
    if let StateLike::State(state) = &scxml.states[0] {
        assert_eq!(state.invokes.len(), 1);
        let invoke = &state.invokes[0];
        assert_eq!(invoke.type_, "vxml3");
        assert_eq!(invoke.src.as_ref().unwrap(), "dialog.vxml");
        assert_eq!(invoke.params.len(), 2);
        assert_eq!(invoke.params[0].name, "param1");
        assert_eq!(invoke.params[0].expr.as_ref().unwrap(), "'value1'");
        assert!(invoke.finalize.is_some());
    }
}

#[test]
fn test_history_states() {
    let xml = r#"<scxml xmlns="http://www.w3.org/2005/07/scxml" version="1.0">
            <state id="parent">
                <history type="deep" id="hist">
                    <transition target="child1"/>
                </history>
                <state id="child1"/>
                <state id="child2"/>
            </state>
        </scxml>"#;

    let scxml = parse_scxml(xml).unwrap();
    if let StateLike::State(parent) = &scxml.states[0] {
        if let StateLike::History(hist) = &parent.children[0] {
            assert_eq!(hist.id.as_ref().unwrap(), "hist");
            assert_eq!(hist.type_, "deep");
            assert!(hist.transition.is_some());
            assert_eq!(hist.transition.as_ref().unwrap().target.as_ref().unwrap(), "child1");
        }
    }
}
