use vstd::prelude::*;
use crate::settings::{opt_text, views_of, Settings};
use crate::merge::merge_value;
use crate::store::StoreVal;
use crate::text::{false_word, flag_of, parse_flag, trim_end, trim_start, true_word};

verus! {

/// The mathematical value of a markup node.
pub enum XmlTree {
    Element(Seq<char>, Seq<XmlTree>),
    Comment(Seq<char>),
    CData(Seq<char>),
    Text(Seq<char>),
    Instruction(Seq<char>, Option<Seq<char>>),
}

/// A node of a parsed markup document.
#[derive(Debug, PartialEq)]
pub enum XmlNode {
    Element(XmlElement),
    Comment(String),
    CData(String),
    Text(String),
    ProcessingInstruction(String, Option<String>),
}

/// An element: its tag name and its child nodes. Attributes are not kept.
#[derive(Debug, PartialEq)]
pub struct XmlElement {
    pub name: String,
    pub children: Vec<XmlNode>,
}

pub open spec fn node_view(n: &XmlNode) -> XmlTree
    decreases n, 0nat,
{
    match n {
        XmlNode::Element(e) => XmlTree::Element(e.name@, nodes_view(&e.children, e.children.len() as nat)),
        XmlNode::Comment(s) => XmlTree::Comment(s@),
        XmlNode::CData(s) => XmlTree::CData(s@),
        XmlNode::Text(s) => XmlTree::Text(s@),
        XmlNode::ProcessingInstruction(s, d) => XmlTree::Instruction(s@, opt_text(*d)),
    }
}

/// The values of the first `n` nodes of `l`.
pub open spec fn nodes_view(l: &Vec<XmlNode>, n: nat) -> Seq<XmlTree>
    decreases l, n,
{
    if n == 0 || n > l.len() {
        Seq::empty()
    } else {
        nodes_view(l, (n - 1) as nat).push(node_view(&l[n - 1]))
    }
}

/// The values of all nodes of `l`.
pub open spec fn forest_view(l: &Vec<XmlNode>) -> Seq<XmlTree> {
    nodes_view(l, l.len() as nat)
}

pub proof fn lemma_nodes_view(l: &Vec<XmlNode>, n: nat)
    requires
        n <= l.len(),
    ensures
        nodes_view(l, n).len() == n,
        forall|i: int| 0 <= i < n ==> #[trigger] nodes_view(l, n)[i] == node_view(&l[i]),
    decreases n,
{
    if n > 0 {
        lemma_nodes_view(l, (n - 1) as nat);
    }
}

/// The number of nodes in a tree.
pub open spec fn tree_size(t: XmlTree) -> nat
    decreases t, 0nat,
{
    match t {
        XmlTree::Element(_, cs) => 1 + forest_size(cs, cs.len()),
        _ => 1,
    }
}

/// The number of nodes in the first `n` trees of `cs`.
pub open spec fn forest_size(cs: Seq<XmlTree>, n: nat) -> nat
    decreases cs, n,
{
    if n == 0 || n > cs.len() {
        0
    } else {
        forest_size(cs, (n - 1) as nat) + tree_size(cs[n - 1])
    }
}

pub proof fn lemma_forest_size(cs: Seq<XmlTree>, n: nat)
    requires
        n <= cs.len(),
    ensures
        forall|i: int| 0 <= i < n ==> tree_size(#[trigger] cs[i]) <= forest_size(cs, n),
    decreases n,
{
    if n > 0 {
        lemma_forest_size(cs, (n - 1) as nat);
    }
}

/// The tag-name pairs as sequences of characters.
pub open spec fn pairs_view(items: Seq<(String, String)>) -> Seq<(Seq<char>, Seq<char>)> {
    items.map_values(|p: (String, String)| (p.0@, p.1@))
}

/// What a document node is to its readers: its tag (none at the root),
/// its children, and the table from a list's tag to its items' tag.
pub struct XmlSettingsView {
    pub name: Option<Seq<char>>,
    pub children: Seq<XmlTree>,
    pub list_items: Seq<(Seq<char>, Seq<char>)>,
}

/// The item tag that the table gives for the list tag `name`, looking
/// at the first `n` rows; the first row that matches wins.
pub open spec fn item_tag(items: Seq<(Seq<char>, Seq<char>)>, name: Seq<char>, n: nat) -> Option<Seq<char>>
    decreases n,
{
    if n == 0 || n > items.len() {
        None
    } else {
        match item_tag(items, name, (n - 1) as nat) {
            Some(i) => Some(i),
            None => if items[n - 1].0 == name { Some(items[n - 1].1) } else { None },
        }
    }
}

/// The item tag of a node, where its own tag names a list.
pub open spec fn list_item_tag(v: XmlSettingsView) -> Option<Seq<char>> {
    match v.name {
        Some(n) => item_tag(v.list_items, n, v.list_items.len()),
        None => None,
    }
}

pub open spec fn is_element_named(t: XmlTree, key: Seq<char>) -> bool {
    t matches XmlTree::Element(n, _) && n == key
}

/// The node that an element child stands for, sharing the parent's table.
pub open spec fn element_settings(t: XmlTree, list_items: Seq<(Seq<char>, Seq<char>)>) -> XmlSettingsView {
    match t {
        XmlTree::Element(n, cs) => XmlSettingsView { name: Some(n), children: cs, list_items },
        _ => XmlSettingsView { name: None, children: Seq::empty(), list_items },
    }
}

/// The index of the first of the first `n` children that is an element named `key`.
pub open spec fn first_named(cs: Seq<XmlTree>, key: Seq<char>, n: nat) -> Option<nat>
    decreases n,
{
    if n == 0 || n > cs.len() {
        None
    } else {
        match first_named(cs, key, (n - 1) as nat) {
            Some(i) => Some(i),
            None => if is_element_named(cs[n - 1], key) { Some((n - 1) as nat) } else { None },
        }
    }
}

/// The element children named `item` among the first `n`, in order.
pub open spec fn elements_named(cs: Seq<XmlTree>, item: Seq<char>, list_items: Seq<(Seq<char>, Seq<char>)>, n: nat) -> Seq<XmlSettingsView>
    decreases n,
{
    if n == 0 || n > cs.len() {
        Seq::empty()
    } else if is_element_named(cs[n - 1], item) {
        elements_named(cs, item, list_items, (n - 1) as nat).push(element_settings(cs[n - 1], list_items))
    } else {
        elements_named(cs, item, list_items, (n - 1) as nat)
    }
}

pub proof fn lemma_first_named_stays(cs: Seq<XmlTree>, key: Seq<char>, n: nat, m: nat)
    requires
        n <= m <= cs.len(),
        first_named(cs, key, n) is Some,
    ensures
        first_named(cs, key, m) == first_named(cs, key, n),
        first_named(cs, key, n)->Some_0 < n,
        is_element_named(cs[first_named(cs, key, n)->Some_0 as int], key),
    decreases m,
{
    if m > n {
        lemma_first_named_stays(cs, key, n, (m - 1) as nat);
    } else if n > 0 && first_named(cs, key, (n - 1) as nat) is Some {
        lemma_first_named_stays(cs, key, (n - 1) as nat, (n - 1) as nat);
    }
}

pub proof fn lemma_elements_named(cs: Seq<XmlTree>, item: Seq<char>, list_items: Seq<(Seq<char>, Seq<char>)>, n: nat)
    requires
        n <= cs.len(),
    ensures
        forall|j: int| 0 <= j < elements_named(cs, item, list_items, n).len() ==>
            exists|i: int| 0 <= i < n && is_element_named(cs[i], item)
                && #[trigger] elements_named(cs, item, list_items, n)[j] == element_settings(cs[i], list_items),
    decreases n,
{
    if n > 0 {
        lemma_elements_named(cs, item, list_items, (n - 1) as nat);
        let prev = elements_named(cs, item, list_items, (n - 1) as nat);
        let cur = elements_named(cs, item, list_items, n);
        assert forall|j: int| 0 <= j < cur.len() implies
            exists|i: int| 0 <= i < n && is_element_named(cs[i], item)
                && #[trigger] cur[j] == element_settings(cs[i], list_items) by {
            if j < prev.len() {
                assert(cur[j] == prev[j]);
                let i = choose|i: int| 0 <= i < n - 1 && is_element_named(cs[i], item)
                    && #[trigger] prev[j] == element_settings(cs[i], list_items);
                assert(0 <= i < n && is_element_named(cs[i], item) && cur[j] == element_settings(cs[i], list_items));
            } else {
                let i = n - 1;
                assert(0 <= i < n && is_element_named(cs[i], item) && cur[j] == element_settings(cs[i], list_items));
            }
        }
    }
}

/// Relies on xmltree::Element::parse_all for what a text parses into,
/// copied node for node into `XmlNode`: `None` where the text is not
/// well-formed markup.
pub uninterp spec fn parsed_document(text: Seq<char>) -> Option<Seq<XmlTree>>;

#[verifier::external_type_specification]
#[verifier::external_body]
pub struct ExXmlNode(xmltree::XMLNode);

/// Why a text could not be read as a document.
#[derive(Debug, PartialEq)]
pub enum XmlError {
    /// The text is not well-formed markup; the parser's message.
    Malformed(String),
    /// The markup holds something the parser does not handle.
    CannotParse,
}

/// Relies on xmltree's `XMLNode` variants and on the public `name` and
/// `children` fields of its `Element`: copies a parsed node into an
/// `XmlNode`, one node for one node, dropping attributes and namespaces.
#[verifier::external_body]
fn node_from_xmltree(n: &xmltree::XMLNode) -> XmlNode {
    match n {
        xmltree::XMLNode::Element(e) => XmlNode::Element(XmlElement {
            name: e.name.clone(),
            children: e.children.iter().map(node_from_xmltree).collect(),
        }),
        xmltree::XMLNode::Comment(s) => XmlNode::Comment(s.clone()),
        xmltree::XMLNode::CData(s) => XmlNode::CData(s.clone()),
        xmltree::XMLNode::Text(s) => XmlNode::Text(s.clone()),
        xmltree::XMLNode::ProcessingInstruction(s, d) => XmlNode::ProcessingInstruction(s.clone(), d.clone()),
    }
}

/// Relies on xmltree::Element::parse_all: the top-level nodes of the text,
/// or an error where the text is not well-formed markup.
#[verifier::external_body]
fn parse_all(s: &str) -> (r: Result<Vec<XmlNode>, XmlError>)
    ensures
        match r {
            Ok(ns) => parsed_document(s@) == Some(forest_view(&ns)),
            Err(_) => parsed_document(s@) is None,
        },
{
    match xmltree::Element::parse_all(s.as_bytes()) {
        Ok(ns) => Ok(ns.iter().map(node_from_xmltree).collect()),
        Err(xmltree::ParseError::MalformedXml(e)) => Err(XmlError::Malformed(e.to_string())),
        Err(xmltree::ParseError::CannotParse) => Err(XmlError::CannotParse),
    }
}

/// Copies a node with all that lies below it.
pub fn copy_node(n: &XmlNode) -> (r: XmlNode)
    ensures
        node_view(&r) == node_view(n),
    decreases n, 0nat,
{
    match n {
        XmlNode::Element(e) => XmlNode::Element(XmlElement { name: e.name.clone(), children: copy_nodes(&e.children) }),
        XmlNode::Comment(s) => XmlNode::Comment(s.clone()),
        XmlNode::CData(s) => XmlNode::CData(s.clone()),
        XmlNode::Text(s) => XmlNode::Text(s.clone()),
        XmlNode::ProcessingInstruction(s, d) => {
            let d2 = match d {
                Some(t) => Some(t.clone()),
                None => None,
            };
            XmlNode::ProcessingInstruction(s.clone(), d2)
        },
    }
}

/// Copies a sequence of nodes with all that lies below them.
pub fn copy_nodes(l: &Vec<XmlNode>) -> (r: Vec<XmlNode>)
    ensures
        forest_view(&r) == forest_view(l),
    decreases l, 1nat,
{
    let mut r: Vec<XmlNode> = Vec::new();
    let mut i: usize = 0;
    while i < l.len()
        invariant
            i <= l.len(),
            r.len() == i,
            forall|j: int| 0 <= j < i ==> node_view(&r[j]) == node_view(&l[j]),
        decreases l.len() - i,
    {
        let c = copy_node(&l[i]);
        r.push(c);
        i = i + 1;
    }
    proof {
        lemma_nodes_view(&r, r.len() as nat);
        lemma_nodes_view(l, l.len() as nat);
        assert(forest_view(&r) =~= forest_view(l));
    }
    r
}

fn copy_pairs(items: &Vec<(String, String)>) -> (r: Vec<(String, String)>)
    ensures
        pairs_view(r@) == pairs_view(items@),
{
    let mut r: Vec<(String, String)> = Vec::new();
    let mut i: usize = 0;
    while i < items.len()
        invariant
            i <= items.len(),
            r.len() == i,
            forall|j: int| 0 <= j < i ==> r@[j].0@ == items@[j].0@ && r@[j].1@ == items@[j].1@,
        decreases items.len() - i,
    {
        let a = items[i].0.clone();
        let b = items[i].1.clone();
        r.push((a, b));
        i = i + 1;
    }
    assert(pairs_view(r@) =~= pairs_view(items@));
    r
}

/// A node of a parsed document, read as a settings tree.
#[derive(Debug)]
pub struct XMLSettings {
    name: Option<String>,
    children: Vec<XmlNode>,
    list_items: Vec<(String, String)>,
}

impl View for XMLSettings {
    type V = XmlSettingsView;

    closed spec fn view(&self) -> XmlSettingsView {
        XmlSettingsView {
            name: opt_text(self.name),
            children: forest_view(&self.children),
            list_items: pairs_view(self.list_items@),
        }
    }
}

/// The tag-name pairs of a table given as string slices.
pub open spec fn table_view(items: Seq<(&str, &str)>) -> Seq<(Seq<char>, Seq<char>)> {
    items.map_values(|p: (&str, &str)| (p.0@, p.1@))
}

impl XMLSettings {
    /// A document root over the given top-level nodes. `list_items` maps
    /// the tag of a list element to the tag of its items.
    pub fn from_nodes(children: Vec<XmlNode>, list_items: &[(&str, &str)]) -> (r: XMLSettings)
        ensures
            r@ == (XmlSettingsView { name: None, children: forest_view(&children), list_items: table_view(list_items@) }),
    {
        let mut items: Vec<(String, String)> = Vec::new();
        let mut i: usize = 0;
        while i < list_items.len()
            invariant
                i <= list_items.len(),
                items.len() == i,
                forall|j: int| 0 <= j < i ==> items@[j].0@ == list_items@[j].0@ && items@[j].1@ == list_items@[j].1@,
            decreases list_items.len() - i,
        {
            let (l, t) = list_items[i];
            let a = l.to_string();
            let b = t.to_string();
            items.push((a, b));
            i = i + 1;
        }
        assert(pairs_view(items@) =~= table_view(list_items@));
        XMLSettings { name: None, children, list_items: items }
    }

    /// Parses a markup text into a document root. `list_items` maps the tag
    /// of a list element to the tag of its items.
    pub fn from_xml_string(s: &str, list_items: &[(&str, &str)]) -> (r: Result<XMLSettings, XmlError>)
        ensures
            match r {
                Ok(d) => parsed_document(s@) == Some(d@.children) && d@.name is None
                    && d@.list_items == table_view(list_items@),
                Err(_) => parsed_document(s@) is None,
            },
    {
        let children = parse_all(s)?;
        Ok(XMLSettings::from_nodes(children, list_items))
    }

    fn is_list_get_item_name(&self) -> (r: Option<&String>)
        ensures
            match r {
                Some(t) => list_item_tag(self@) == Some(t@),
                None => list_item_tag(self@) is None,
            },
    {
        match &self.name {
            None => None,
            Some(n) => {
                let mut i: usize = 0;
                while i < self.list_items.len()
                    invariant
                        i <= self.list_items.len(),
                        self@.name == Some(n@),
                        self@.list_items == pairs_view(self.list_items@),
                        item_tag(self@.list_items, n@, i as nat) is None,
                    decreases self.list_items.len() - i,
                {
                    if self.list_items[i].0 == *n {
                        proof {
                            lemma_item_tag_stays(self@.list_items, n@, (i + 1) as nat, self@.list_items.len());
                        }
                        return Some(&self.list_items[i].1);
                    }
                    i = i + 1;
                }
                None
            },
        }
    }

    fn child(&self, e: &XmlElement) -> (r: XMLSettings)
        ensures
            r@ == element_settings(node_view(&XmlNode::Element(*e)), self@.list_items),
    {
        XMLSettings { name: Some(e.name.clone()), children: copy_nodes(&e.children), list_items: copy_pairs(&self.list_items) }
    }
}

pub proof fn lemma_item_tag_stays(items: Seq<(Seq<char>, Seq<char>)>, name: Seq<char>, n: nat, m: nat)
    requires
        n <= m <= items.len(),
        item_tag(items, name, n) is Some,
    ensures
        item_tag(items, name, m) == item_tag(items, name, n),
    decreases m,
{
    if m > n {
        lemma_item_tag_stays(items, name, n, (m - 1) as nat);
    }
}

impl Settings for XMLSettings {
    open spec fn string_of(v: XmlSettingsView) -> Option<Seq<char>> {
        if v.children.len() == 0 {
            Some(Seq::empty())
        } else if v.children.len() == 1 && v.children[0] is Text {
            Some(v.children[0]->Text_0)
        } else {
            None
        }
    }

    open spec fn bool_of(v: XmlSettingsView) -> Option<bool> {
        match Self::string_of(v) {
            Some(s) => flag_of(s),
            None => None,
        }
    }

    open spec fn list_of(v: XmlSettingsView) -> Option<Seq<XmlSettingsView>> {
        match list_item_tag(v) {
            Some(item) => Some(elements_named(v.children, item, v.list_items, v.children.len())),
            None => None,
        }
    }

    open spec fn get_of(v: XmlSettingsView, key: Seq<char>) -> Option<XmlSettingsView> {
        match first_named(v.children, key, v.children.len()) {
            Some(i) => Some(element_settings(v.children[i as int], v.list_items)),
            None => None,
        }
    }

    open spec fn height_of(v: XmlSettingsView) -> nat {
        forest_size(v.children, v.children.len())
    }

    proof fn lemma_parts_lower(v: XmlSettingsView) {
        lemma_forest_size(v.children, v.children.len());
        assert forall|k: Seq<char>| #[trigger] Self::get_of(v, k) is Some
            implies Self::height_of(Self::get_of(v, k)->Some_0) < Self::height_of(v) by {
            lemma_first_named_stays(v.children, k, v.children.len(), v.children.len());
            let i = first_named(v.children, k, v.children.len())->Some_0 as int;
            assert(tree_size(v.children[i]) <= Self::height_of(v));
        }
        if let Some(item) = list_item_tag(v) {
            let l = elements_named(v.children, item, v.list_items, v.children.len());
            lemma_elements_named(v.children, item, v.list_items, v.children.len());
            assert forall|j: int| 0 <= j < l.len() implies Self::height_of(#[trigger] l[j]) < Self::height_of(v) by {
                let i = choose|i: int| 0 <= i < v.children.len() && is_element_named(v.children[i], item)
                    && #[trigger] l[j] == element_settings(v.children[i], v.list_items);
                assert(tree_size(v.children[i]) <= Self::height_of(v));
            }
        }
    }

    fn as_string(&self) -> (r: Option<String>) {
        proof {
            lemma_nodes_view(&self.children, self.children.len() as nat);
        }
        if self.children.len() == 0 {
            Some(String::new())
        } else if self.children.len() == 1 {
            match &self.children[0] {
                XmlNode::Text(s) => Some(s.clone()),
                _ => None,
            }
        } else {
            None
        }
    }

    fn as_bool(&self) -> (r: Option<bool>) {
        match self.as_string() {
            Some(s) => parse_flag(s.as_str()),
            None => None,
        }
    }

    fn as_list(&self) -> (r: Option<Vec<XMLSettings>>) {
        proof {
            lemma_nodes_view(&self.children, self.children.len() as nat);
        }
        let item = match self.is_list_get_item_name() {
            Some(t) => t,
            None => return None,
        };
        let ghost cs = self@.children;
        let mut out: Vec<XMLSettings> = Vec::new();
        let mut i: usize = 0;
        while i < self.children.len()
            invariant
                i <= self.children.len(),
                cs == self@.children,
                cs.len() == self.children.len(),
                forall|j: int| 0 <= j < self.children.len() ==> #[trigger] cs[j] == node_view(&self.children[j]),
                views_of(out@) =~= elements_named(cs, item@, self@.list_items, i as nat),
            decreases self.children.len() - i,
        {
            match &self.children[i] {
                XmlNode::Element(e) => {
                    if e.name == *item {
                        let c = self.child(e);
                        out.push(c);
                    }
                },
                _ => {},
            }
            i = i + 1;
            assert(views_of(out@) =~= elements_named(cs, item@, self@.list_items, i as nat));
        }
        Some(out)
    }

    fn dict_get(&self, key: &str) -> (r: Option<XMLSettings>) {
        proof {
            lemma_nodes_view(&self.children, self.children.len() as nat);
        }
        let k = key.to_string();
        let ghost cs = self@.children;
        let mut i: usize = 0;
        while i < self.children.len()
            invariant
                i <= self.children.len(),
                k@ == key@,
                cs == self@.children,
                cs.len() == self.children.len(),
                forall|j: int| 0 <= j < self.children.len() ==> #[trigger] cs[j] == node_view(&self.children[j]),
                first_named(cs, key@, i as nat) is None,
            decreases self.children.len() - i,
        {
            match &self.children[i] {
                XmlNode::Element(e) => {
                    if e.name == k {
                        proof {
                            lemma_first_named_stays(cs, key@, (i + 1) as nat, cs.len());
                        }
                        return Some(self.child(e));
                    }
                },
                _ => {},
            }
            i = i + 1;
        }
        None
    }
}

/// Scalar precedence: a document node whose text is exactly `True` or
/// `False` merges as that boolean, whatever the old cell and the hints.
pub proof fn law_scalar_precedence(old: Option<StoreVal>, v: XmlSettingsView, keys: Seq<Seq<char>>, elems: Seq<Seq<char>>)
    requires
        XMLSettings::string_of(v) == Some(true_word()) || XMLSettings::string_of(v) == Some(false_word()),
    ensures
        merge_value::<XMLSettings>(old, v, keys, elems)
            == StoreVal::Bool(XMLSettings::string_of(v) == Some(true_word())),
{
    assert(trim_start(true_word()) == true_word());
    assert(trim_end(true_word()) == true_word());
    assert(trim_start(false_word()) == false_word());
    assert(trim_end(false_word()) == false_word());
    assert(true_word() != false_word()) by {
        assert(true_word().len() != false_word().len());
    }
}

} // verus!
