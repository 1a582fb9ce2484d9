use hollowknight_autosplit::document::{XMLSettings, XmlElement, XmlError, XmlNode};
use hollowknight_autosplit::settings::Settings;

fn doc(xml: &str, list_items: &[(&str, &str)]) -> XMLSettings {
    XMLSettings::from_xml_string(xml, list_items).unwrap()
}

#[test]
fn malformed_markup_is_an_error() {
    let r = XMLSettings::from_xml_string("<a><b></a>", &[]);
    assert!(matches!(r, Err(XmlError::Malformed(_))));
    let r2 = XMLSettings::from_xml_string("<a>", &[]);
    assert!(r2.is_err());
}

#[test]
fn parsed_document_matches_built_nodes() {
    let parsed = doc("<A>x</A><B><C/></B>", &[("B", "C")]);
    let built = XMLSettings::from_nodes(
        vec![
            XmlNode::Element(XmlElement { name: "A".to_string(), children: vec![XmlNode::Text("x".to_string())] }),
            XmlNode::Element(XmlElement {
                name: "B".to_string(),
                children: vec![XmlNode::Element(XmlElement { name: "C".to_string(), children: vec![] })],
            }),
        ],
        &[("B", "C")],
    );
    assert_eq!(format!("{:?}", parsed), format!("{:?}", built));
}

#[test]
fn scalar_readings() {
    let d = doc("<E/><T>hello</T><M>a<X/></M><W>  True </W>", &[]);
    assert_eq!(d.dict_get("E").unwrap().as_string(), Some(String::new()));
    assert_eq!(d.dict_get("T").unwrap().as_string(), Some("hello".to_string()));
    assert_eq!(d.dict_get("M").unwrap().as_string(), None);
    assert_eq!(d.dict_get("T").unwrap().as_bool(), None);
    assert_eq!(d.dict_get("W").unwrap().as_bool(), Some(true));
    assert_eq!(d.dict_get("M").unwrap().as_bool(), None);
}

#[test]
fn root_with_several_nodes_is_no_scalar() {
    let d = doc("<A/><B/>", &[]);
    assert_eq!(d.as_string(), None);
}

#[test]
fn list_needs_a_table_entry() {
    let d = doc("<L><I>1</I><J>x</J><I>2</I></L><N><I>1</I></N>", &[("L", "I")]);
    let l = d.dict_get("L").unwrap();
    let items = l.as_list().unwrap();
    assert_eq!(items.len(), 2);
    assert_eq!(items[0].as_string(), Some("1".to_string()));
    assert_eq!(items[1].as_string(), Some("2".to_string()));
    assert!(d.dict_get("N").unwrap().as_list().is_none());
    assert!(d.as_list().is_none());
}

#[test]
fn first_table_row_wins() {
    let d = doc("<L><I>1</I><J>2</J></L>", &[("L", "J"), ("L", "I")]);
    let items = d.dict_get("L").unwrap().as_list().unwrap();
    assert_eq!(items.len(), 1);
    assert_eq!(items[0].as_string(), Some("2".to_string()));
}

#[test]
fn first_matching_child_wins() {
    let d = doc("<K>first</K><K>second</K>", &[]);
    assert_eq!(d.dict_get("K").unwrap().as_string(), Some("first".to_string()));
    assert!(d.dict_get("Z").is_none());
}

#[test]
fn comment_child_makes_no_scalar() {
    let d = doc("<A><!-- c --></A><B><![CDATA[x]]></B>", &[]);
    assert_eq!(d.dict_get("A").unwrap().as_string(), None);
    assert_eq!(d.dict_get("B").unwrap().as_string(), None);
}
