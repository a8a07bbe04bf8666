//! MathML in KFX content.
//!
//! Kindle Previewer stores an equation under `$683` as a pair: a MathML
//! document and its accessible text. The importer keeps the MathML only
//! after sanitising it: the document must be small, declare no DTD or
//! entities, have a `math` root in the MathML namespace, nest at most 64
//! deep with at most 4096 elements, and it is re-serialised keeping a fixed
//! list of presentation attributes.
//!
//! The XML is parsed by `roxmltree`; its tree is handed over as the list of
//! the root element and its descendants in document order, each node naming
//! its parent by id.
use std::collections::BTreeMap;
use vstd::prelude::*;
use crate::content::{first_content_string, first_string, opt_str_view};
use crate::decode::opt_string_view;
use crate::ion::{IonModel, IonValue, models, lemma_models_index};
use crate::native::table_views;
use crate::resource_audit::starts_with;
use crate::text::{
    chars_of, string_from_chars, str_eq, char_is_space, is_space, trim_start_index, upper, upper_chars,
    chars_contains, contains_run,
};
use crate::value::{field_of, items_of, struct_get, list_items};

verus! {

pub const FIELD_MATH_CONTENT: u64 = 683;
/// Nesting deeper than this is refused.
pub const MATHML_MAX_DEPTH: usize = 64;
/// More elements than this are refused.
pub const MATHML_MAX_ELEMENTS: usize = 4096;
/// Inputs longer than this many bytes are refused.
pub const MATHML_MAX_BYTES: usize = 1000000;

/// One node of a parsed XML document.
#[derive(Debug)]
pub struct XmlNode {
    pub id: u32,
    pub parent: Option<u32>,
    pub element: bool,
    pub text: bool,
    pub namespace: Option<String>,
    pub name: String,
    pub attributes: Vec<(String, String)>,
    pub content: Option<String>,
}

pub struct XmlNodeView {
    pub id: u32,
    pub parent: Option<u32>,
    pub element: bool,
    pub text: bool,
    pub namespace: Option<Seq<char>>,
    pub name: Seq<char>,
    pub attributes: Seq<(Seq<char>, Seq<char>)>,
    pub content: Option<Seq<char>>,
}

impl View for XmlNode {
    type V = XmlNodeView;

    open spec fn view(&self) -> XmlNodeView {
        XmlNodeView {
            id: self.id,
            parent: self.parent,
            element: self.element,
            text: self.text,
            namespace: opt_string_view(self.namespace),
            name: self.name@,
            attributes: self.attributes@.map_values(|a: (String, String)| (a.0@, a.1@)),
            content: opt_string_view(self.content),
        }
    }
}

pub open spec fn node_views(s: Seq<XmlNode>) -> Seq<XmlNodeView> {
    s.map_values(|n: XmlNode| n@)
}

/// What `roxmltree` makes of `input`: its root element and that element's
/// descendants in document order, or nothing when `input` is not
/// well-formed XML.
pub uninterp spec fn parsed_xml(input: Seq<char>) -> Option<Seq<XmlNodeView>>;

/// Parses `input` with `roxmltree::Document::parse` and lists
/// `root_element().descendants()`, each node with its `NodeId`, its
/// parent's, whether it is an element or text, its tag name, its attributes
/// (local name and value) and `Node::text`. Claimed: the result depends on
/// `input` alone (it is `parsed_xml`). Nothing is claimed of its shape; the
/// callers check what they rely on.
#[verifier::external_body]
fn parse_xml(input: &str) -> (r: Option<Vec<XmlNode>>)
    ensures
        match r {
            Some(v) => parsed_xml(input@) == Some(node_views(v@)),
            None => parsed_xml(input@) is None,
        },
{
    let document = roxmltree::Document::parse(input).ok()?;
    Some(document.root_element().descendants().map(|n| XmlNode {
        id: n.id().get(),
        parent: n.parent().map(|p| p.id().get()),
        element: n.is_element(),
        text: n.is_text(),
        namespace: n.tag_name().namespace().map(String::from),
        name: String::from(n.tag_name().name()),
        attributes: n.attributes().map(|a| (String::from(a.name()), String::from(a.value()))).collect(),
        content: n.text().map(String::from),
    }).collect())
}

pub open spec fn mathml_namespace() -> Seq<char> {
    "http://www.w3.org/1998/Math/MathML"@
}

/// `&`, `<`, `>`, `"` and `'` as XML entities.
pub open spec fn escape_char(c: char) -> Seq<char> {
    if c == '&' {
        "&amp;"@
    } else if c == '<' {
        "&lt;"@
    } else if c == '>' {
        "&gt;"@
    } else if c == '"' {
        "&quot;"@
    } else if c == '\'' {
        "&apos;"@
    } else {
        seq![c]
    }
}

pub open spec fn escape_xml(s: Seq<char>) -> Seq<char>
    decreases s.len(),
{
    if s.len() == 0 {
        Seq::empty()
    } else {
        escape_xml(s.drop_last()) + escape_char(s.last())
    }
}

fn push_str(out: &mut Vec<char>, s: &str)
    ensures
        final(out)@ == old(out)@ + s@,
{
    let mut c = chars_of(s);
    out.append(&mut c);
}

fn push_escaped(out: &mut Vec<char>, s: &[char])
    ensures
        final(out)@ == old(out)@ + escape_xml(s@),
{
    let ghost o0 = out@;
    let mut i: usize = 0;
    while i < s.len()
        invariant
            0 <= i <= s@.len(),
            out@ == o0 + escape_xml(s@.take(i as int)),
        decreases s@.len() - i,
    {
        proof {
            assert(s@.take(i + 1).drop_last() =~= s@.take(i as int));
            assert(s@.take(i + 1).last() == s@[i as int]);
        }
        let c = s[i];
        if c == '&' {
            push_str(out, "&amp;");
        } else if c == '<' {
            push_str(out, "&lt;");
        } else if c == '>' {
            push_str(out, "&gt;");
        } else if c == '"' {
            push_str(out, "&quot;");
        } else if c == '\'' {
            push_str(out, "&apos;");
        } else {
            out.push(c);
            assert(seq![c] =~= escape_char(c));
        }
        assert(out@ =~= o0 + escape_xml(s@.take(i as int)) + escape_char(c));
        i = i + 1;
    }
    assert(s@.take(s@.len() as int) =~= s@);
}

/// `value` with the five XML special characters escaped.
pub fn escape_kfx_xml(value: &str) -> (r: String)
    ensures
        r@ == escape_xml(value@),
{
    let chars = chars_of(value);
    let mut out: Vec<char> = Vec::new();
    push_escaped(&mut out, chars.as_slice());
    assert(out@ =~= escape_xml(value@));
    string_from_chars(out.as_slice())
}

/// The attributes kept on a sanitised element.
pub open spec fn allowed_attribute(name: Seq<char>) -> bool {
    ||| name == "alttext"@
    ||| name == "display"@
    ||| name == "encoding"@
    ||| name == "id"@
    ||| name == "mathvariant"@
    ||| name == "displaystyle"@
    ||| name == "scriptlevel"@
    ||| name == "stretchy"@
    ||| name == "fence"@
    ||| name == "separator"@
    ||| name == "open"@
    ||| name == "close"@
    ||| name == "movablelimits"@
    ||| name == "accent"@
    ||| name == "rowalign"@
    ||| name == "columnalign"@
    ||| name == "columnspacing"@
    ||| name == "rowspacing"@
}

fn is_allowed_attribute(name: &str) -> (r: bool)
    ensures
        r == allowed_attribute(name@),
{
    str_eq(name, "alttext") || str_eq(name, "display") || str_eq(name, "encoding") || str_eq(name, "id")
        || str_eq(name, "mathvariant") || str_eq(name, "displaystyle") || str_eq(name, "scriptlevel")
        || str_eq(name, "stretchy") || str_eq(name, "fence") || str_eq(name, "separator")
        || str_eq(name, "open") || str_eq(name, "close") || str_eq(name, "movablelimits")
        || str_eq(name, "accent") || str_eq(name, "rowalign") || str_eq(name, "columnalign")
        || str_eq(name, "columnspacing") || str_eq(name, "rowspacing")
}

/// The kept attributes, serialised in order.
pub open spec fn attributes_text(attrs: Seq<(Seq<char>, Seq<char>)>) -> Seq<char>
    decreases attrs.len(),
{
    if attrs.len() == 0 {
        Seq::empty()
    } else {
        let before = attributes_text(attrs.drop_last());
        let a = attrs.last();
        if allowed_attribute(a.0) {
            before + " "@ + a.0 + "=\""@ + escape_xml(a.1) + "\""@
        } else {
            before
        }
    }
}

pub open spec fn is_name_char(c: char) -> bool {
    ('a' <= c <= 'z') || ('A' <= c <= 'Z') || ('0' <= c <= '9') || c == '-'
}

pub open spec fn name_ok(name: Seq<char>) -> bool {
    forall|i: int| 0 <= i < name.len() ==> is_name_char(#[trigger] name[i])
}

/// The text of the text children of the element with id `id`, among the
/// first `k` nodes.
pub open spec fn child_text(nodes: Seq<XmlNodeView>, id: u32, k: int) -> Seq<char>
    decreases k,
{
    if k <= 0 {
        Seq::empty()
    } else {
        let before = child_text(nodes, id, k - 1);
        let n = nodes[k - 1];
        if n.parent == Some(id) && n.text {
            match n.content {
                Some(t) => before + t,
                None => before,
            }
        } else {
            before
        }
    }
}

/// Whether the element with id `id` has an element child among the first
/// `k` nodes.
pub open spec fn has_element_child(nodes: Seq<XmlNodeView>, id: u32, k: int) -> bool {
    exists|j: int| 0 <= j < k && j < nodes.len() && (#[trigger] nodes[j]).parent == Some(id) && nodes[j].element
}

pub open spec fn opening_tag(n: XmlNodeView, depth: nat) -> Seq<char> {
    "<"@ + n.name + (if depth == 0 { " xmlns=\"http://www.w3.org/1998/Math/MathML\""@ } else { Seq::empty() })
        + attributes_text(n.attributes)
}

/// Node `i` serialised at `depth` after `count` elements: the text and the
/// count after it, or nothing when the node is refused.
pub open spec fn ser_node(nodes: Seq<XmlNodeView>, i: int, depth: nat, count: nat) -> Option<(Seq<char>, nat)>
    decreases 65 - depth, nodes.len() + 1,
{
    if !(0 <= i < nodes.len()) {
        None
    } else {
        let n = nodes[i];
        if depth > 64 || n.namespace != Some(mathml_namespace()) || count + 1 > 4096 || !name_ok(n.name) {
            None
        } else {
            let open = opening_tag(n, depth);
            let text = child_text(nodes, n.id, nodes.len() as int);
            if !has_element_child(nodes, n.id, nodes.len() as int) && text.len() == 0 {
                Some((open + "/>"@, count + 1))
            } else {
                match ser_children(nodes, n.id, nodes.len() as int, depth, count + 1) {
                    Some((body, c)) => Some((open + ">"@ + escape_xml(text) + body + "</"@ + n.name + ">"@, c)),
                    None => None,
                }
            }
        }
    }
}

/// The element children of `id` among the first `k` nodes, serialised one
/// level deeper, in order.
pub open spec fn ser_children(nodes: Seq<XmlNodeView>, id: u32, k: int, depth: nat, count: nat) -> Option<(Seq<char>, nat)>
    decreases 65 - depth, k,
{
    if k <= 0 || k > nodes.len() || depth > 64 {
        Some((Seq::empty(), count))
    } else {
        match ser_children(nodes, id, k - 1, depth, count) {
            Some((acc, c)) => {
                let n = nodes[k - 1];
                if n.parent == Some(id) && n.element {
                    match ser_node(nodes, k - 1, depth + 1, c) {
                        Some((s, c2)) => Some((acc + s, c2)),
                        None => None,
                    }
                } else {
                    Some((acc, c))
                }
            },
            None => None,
        }
    }
}

proof fn lemma_children_failure_persists(nodes: Seq<XmlNodeView>, id: u32, k: int, m: int, depth: nat, count: nat)
    requires
        0 < k <= m <= nodes.len(),
        depth <= 64,
        ser_children(nodes, id, k, depth, count) is None,
    ensures
        ser_children(nodes, id, m, depth, count) is None,
    decreases m - k,
{
    if k < m {
        lemma_children_failure_persists(nodes, id, k, m - 1, depth, count);
    }
}

fn is_mathml_namespace(ns: &Option<String>) -> (r: bool)
    ensures
        r == (opt_string_view(*ns) == Some(mathml_namespace())),
{
    match ns {
        Some(s) => str_eq(s.as_str(), "http://www.w3.org/1998/Math/MathML"),
        None => false,
    }
}

fn is_name(name: &str) -> (r: bool)
    ensures
        r == name_ok(name@),
{
    let chars = chars_of(name);
    let mut i: usize = 0;
    while i < chars.len()
        invariant
            0 <= i <= chars@.len(),
            chars@ == name@,
            forall|k: int| 0 <= k < i ==> is_name_char(#[trigger] chars@[k]),
        decreases chars@.len() - i,
    {
        let c = chars[i];
        if !(('a' <= c && c <= 'z') || ('A' <= c && c <= 'Z') || ('0' <= c && c <= '9') || c == '-') {
            assert(!is_name_char(chars@[i as int]));
            return false;
        }
        i = i + 1;
    }
    true
}

fn push_attributes(out: &mut Vec<char>, attrs: &Vec<(String, String)>)
    ensures
        final(out)@ == old(out)@ + attributes_text(attrs@.map_values(|a: (String, String)| (a.0@, a.1@))),
{
    let ghost av = attrs@.map_values(|a: (String, String)| (a.0@, a.1@));
    let ghost o0 = out@;
    let mut i: usize = 0;
    while i < attrs.len()
        invariant
            0 <= i <= attrs@.len(),
            av == attrs@.map_values(|a: (String, String)| (a.0@, a.1@)),
            out@ == o0 + attributes_text(av.take(i as int)),
        decreases attrs@.len() - i,
    {
        proof {
            assert(av.take(i + 1).drop_last() =~= av.take(i as int));
            assert(av.take(i + 1).last() == (attrs@[i as int].0@, attrs@[i as int].1@));
        }
        let name = attrs[i].0.as_str();
        if is_allowed_attribute(name) {
            let value = chars_of(attrs[i].1.as_str());
            push_str(out, " ");
            push_str(out, name);
            push_str(out, "=\"");
            push_escaped(out, value.as_slice());
            push_str(out, "\"");
            assert(out@ =~= o0 + attributes_text(av.take(i + 1)));
        }
        i = i + 1;
    }
    assert(av.take(av.len() as int) =~= av);
}

fn child_text_of(nodes: &Vec<XmlNode>, id: u32) -> (r: (Vec<char>, bool))
    ensures
        r.0@ == child_text(node_views(nodes@), id, nodes@.len() as int),
        r.1 == has_element_child(node_views(nodes@), id, nodes@.len() as int),
{
    let ghost nv = node_views(nodes@);
    let mut text: Vec<char> = Vec::new();
    let mut has_children = false;
    let mut k: usize = 0;
    while k < nodes.len()
        invariant
            0 <= k <= nodes@.len(),
            nv == node_views(nodes@),
            nv.len() == nodes@.len(),
            text@ == child_text(nv, id, k as int),
            has_children == has_element_child(nv, id, k as int),
        decreases nodes@.len() - k,
    {
        let n = &nodes[k];
        assert(nv[k as int] == n@);
        if n.parent == Some(id) && n.text {
            match &n.content {
                Some(t) => {
                    let mut c = chars_of(t.as_str());
                    text.append(&mut c);
                },
                None => {},
            }
        }
        if n.parent == Some(id) && n.element {
            has_children = true;
        }
        proof {
            if has_element_child(nv, id, k + 1) && !has_children {
                let j = choose|j: int| 0 <= j < k + 1 && j < nv.len() && (#[trigger] nv[j]).parent == Some(id) && nv[j].element;
                assert(j < k);
            }
        }
        k = k + 1;
    }
    (text, has_children)
}

/// Serialises node `i` at `depth`, counting elements in `count`; false when
/// the node is refused.
#[verifier::rlimit(40)]
fn serialize_kfx_mathml(nodes: &Vec<XmlNode>, i: usize, depth: usize, count: &mut usize, out: &mut Vec<char>) -> (r: bool)
    requires
        i < nodes@.len(),
        *old(count) <= 4096,
    ensures
        match ser_node(node_views(nodes@), i as int, depth as nat, *old(count) as nat) {
            Some((s, c)) => r && final(out)@ == old(out)@ + s && *final(count) == c,
            None => !r,
        },
        *final(count) <= 4096,
    decreases 65 - depth,
{
    let ghost nv = node_views(nodes@);
    let ghost o0 = out@;
    let ghost c0 = *count;
    let node = &nodes[i];
    assert(nv[i as int] == node@);
    if depth > MATHML_MAX_DEPTH || !is_mathml_namespace(&node.namespace) {
        return false;
    }
    if *count + 1 > MATHML_MAX_ELEMENTS {
        return false;
    }
    *count = *count + 1;
    if !is_name(node.name.as_str()) {
        return false;
    }
    push_str(out, "<");
    push_str(out, node.name.as_str());
    if depth == 0 {
        push_str(out, " xmlns=\"http://www.w3.org/1998/Math/MathML\"");
    }
    push_attributes(out, &node.attributes);
    let ghost open = opening_tag(node@, depth as nat);
    assert(out@ =~= o0 + open);
    let (text, has_children) = child_text_of(nodes, node.id);
    if !has_children && text.len() == 0 {
        push_str(out, "/>");
        assert(out@ =~= o0 + (open + "/>"@));
        return true;
    }
    push_str(out, ">");
    push_escaped(out, text.as_slice());
    let ghost base = out@;
    let ghost c1 = *count;
    let mut acc_len: Ghost<Seq<char>> = Ghost(Seq::empty());
    let mut k: usize = 0;
    while k < nodes.len()
        invariant
            0 <= k <= nodes@.len(),
            nv == node_views(nodes@),
            nv.len() == nodes@.len(),
            depth <= 64,
            c1 == c0 + 1,
            c0 == *old(count),
            c1 <= 4096,
            *count <= 4096,
            i < nv.len(),
            nv[i as int] == node@,
            node@.namespace == Some(mathml_namespace()),
            name_ok(node@.name),
            has_element_child(nv, node@.id, nv.len() as int) || child_text(nv, node@.id, nv.len() as int).len() != 0,
            ser_children(nv, node@.id, k as int, depth as nat, c1 as nat) == Some((acc_len@, *count as nat)),
            out@ == base + acc_len@,
        decreases nodes@.len() - k,
    {
        let child = &nodes[k];
        assert(nv[k as int] == child@);
        if child.parent == Some(node.id) && child.element {
            let ghost before = out@;
            let ghost cb = *count;
            let ok = serialize_kfx_mathml(nodes, k, depth + 1, count, out);
            if !ok {
                proof {
                    assert(ser_node(nv, k as int, (depth + 1) as nat, cb as nat) is None);
                    assert(ser_children(nv, node@.id, k + 1, depth as nat, c1 as nat) is None);
                    lemma_children_failure_persists(nv, node@.id, k + 1, nv.len() as int, depth as nat, c1 as nat);
                    assert(ser_children(nv, node@.id, nv.len() as int, depth as nat, c1 as nat) is None);
                    assert(ser_node(nv, i as int, depth as nat, c0 as nat) is None);
                    assert(c0 == *old(count));
                    assert(nv == node_views(nodes@));
                }
                return false;
            }
            proof {
                let s = ser_node(nv, k as int, (depth + 1) as nat, cb as nat)->Some_0.0;
                acc_len@ = acc_len@ + s;
                assert(out@ =~= base + acc_len@);
            }
        }
        k = k + 1;
    }
    push_str(out, "</");
    push_str(out, node.name.as_str());
    push_str(out, ">");
    proof {
        assert(out@ =~= o0 + (open + ">"@ + escape_xml(text@) + acc_len@ + "</"@ + node@.name + ">"@));
    }
    true
}

/// The value of the first attribute of that local name.
pub open spec fn attribute_value(attrs: Seq<(Seq<char>, Seq<char>)>, name: Seq<char>) -> Option<Seq<char>>
    decreases attrs.len(),
{
    if attrs.len() == 0 {
        None
    } else if attrs[0].0 == name {
        Some(attrs[0].1)
    } else {
        attribute_value(attrs.drop_first(), name)
    }
}

/// The sanitised MathML of `input`, its `alttext` and whether it is shown
/// as a block.
pub open spec fn sanitize_spec(input: Seq<char>) -> Option<(Seq<char>, Option<Seq<char>>, bool)> {
    if (vstd::utf8::encode_utf8(input).len() as usize) > 1000000 || contains_run(upper(input), "<!DOCTYPE"@)
        || contains_run(upper(input), "<!ENTITY"@) {
        None
    } else {
        match parsed_xml(input) {
            None => None,
            Some(nodes) => if nodes.len() == 0 {
                None
            } else {
                let root = nodes[0];
                if root.name != "math"@ || root.namespace != Some(mathml_namespace()) {
                    None
                } else {
                    match ser_node(nodes, 0, 0, 0) {
                        None => None,
                        Some((out, _)) => Some((
                            out,
                            attribute_value(root.attributes, "alttext"@),
                            attribute_value(root.attributes, "display"@) == Some("block"@),
                        )),
                    }
                }
            },
        }
    }
}

fn attribute_of<'a>(attrs: &'a Vec<(String, String)>, name: &str) -> (r: Option<&'a String>)
    ensures
        match r {
            Some(v) => attribute_value(attrs@.map_values(|a: (String, String)| (a.0@, a.1@)), name@) == Some(v@),
            None => attribute_value(attrs@.map_values(|a: (String, String)| (a.0@, a.1@)), name@) is None,
        },
{
    let ghost av = attrs@.map_values(|a: (String, String)| (a.0@, a.1@));
    assert(av.skip(0) =~= av);
    let mut i: usize = 0;
    while i < attrs.len()
        invariant
            0 <= i <= attrs@.len(),
            av == attrs@.map_values(|a: (String, String)| (a.0@, a.1@)),
            attribute_value(av, name@) == attribute_value(av.skip(i as int), name@),
        decreases attrs@.len() - i,
    {
        assert(av.skip(i as int)[0] == av[i as int]);
        assert(av.skip(i as int).drop_first() =~= av.skip(i + 1));
        if str_eq(attrs[i].0.as_str(), name) {
            return Some(&attrs[i].1);
        }
        i = i + 1;
    }
    assert(av.skip(i as int).len() == 0);
    None
}

/// Sanitises a MathML document: `None` when it is refused.
pub fn sanitize_kfx_mathml(input: &str) -> (r: Option<(String, Option<String>, bool)>)
    ensures
        match r {
            Some((out, alt, display)) => sanitize_spec(input@) == Some((out@, opt_string_view(alt), display)),
            None => sanitize_spec(input@) is None,
        },
{
    if input.len() > MATHML_MAX_BYTES {
        return None;
    }
    let chars = chars_of(input);
    let up = upper_chars(chars.as_slice());
    let doctype = chars_of("<!DOCTYPE");
    let entity = chars_of("<!ENTITY");
    if chars_contains(up.as_slice(), doctype.as_slice()) || chars_contains(up.as_slice(), entity.as_slice()) {
        return None;
    }
    let nodes = match parse_xml(input) {
        Some(n) => n,
        None => return None,
    };
    let ghost nv = node_views(nodes@);
    if nodes.len() == 0 {
        return None;
    }
    let root = &nodes[0];
    assert(nv[0] == root@);
    if !(str_eq(root.name.as_str(), "math") && is_mathml_namespace(&root.namespace)) {
        return None;
    }
    let alt = match attribute_of(&root.attributes, "alttext") {
        Some(a) => Some(crate::text::owned(a.as_str())),
        None => None,
    };
    let display = match attribute_of(&root.attributes, "display") {
        Some(d) => str_eq(d.as_str(), "block"),
        None => false,
    };
    let mut count: usize = 0;
    let mut out: Vec<char> = Vec::new();
    if !serialize_kfx_mathml(&nodes, 0, 0, &mut count, &mut out) {
        return None;
    }
    assert(out@ =~= Seq::<char>::empty() + out@);
    proof {
        assert(root@.attributes == root.attributes@.map_values(|a: (String, String)| (a.0@, a.1@)));
        assert(contains_run(up@, doctype@) == contains_run(upper(input@), "<!DOCTYPE"@));
        assert(root@.name == "math"@);
        assert(parsed_xml(input@) == Some(nv));
        let w = ser_node(nv, 0, 0, 0);
        assert(w is Some && w->Some_0.0 == out@);
        assert(attribute_value(root@.attributes, "alttext"@) == opt_string_view(alt));
        assert(display == (attribute_value(root@.attributes, "display"@) == Some("block"@)));
    }
    let text = string_from_chars(out.as_slice());
    proof {
        assert(!contains_run(upper(input@), "<!ENTITY"@));
        assert(root@.namespace == Some(mathml_namespace()));
        assert(sanitize_spec(input@) == Some((text@, opt_string_view(alt), display)));
    }
    Some((text, alt, display))
}

/// Where an equation came from: the content field that held it, and the
/// visual fragment family that shows it, which no source relation binds yet.
#[derive(Clone, Debug)]
pub struct KfxMathProvenance {
    pub content_field_id: u64,
    pub visual_fragment_type: Option<u32>,
}

/// An equation of the content: sanitised MathML, its accessible text and
/// whether it is a block.
#[derive(Debug)]
pub struct KfxMathOccurrence {
    pub mathml: String,
    pub alt: Option<String>,
    pub display: bool,
    pub provenance: KfxMathProvenance,
}

pub struct MathView {
    pub mathml: Seq<char>,
    pub alt: Option<Seq<char>>,
    pub display: bool,
}

impl View for KfxMathOccurrence {
    type V = MathView;

    open spec fn view(&self) -> MathView {
        MathView { mathml: self.mathml@, alt: opt_string_view(self.alt), display: self.display }
    }
}

/// The first strings the entries show, one per entry that shows any.
pub open spec fn math_strings(entries: Seq<IonModel>, tables: Map<u32, Seq<Seq<char>>>) -> Seq<Seq<char>>
    decreases entries.len(),
{
    if entries.len() == 0 {
        Seq::empty()
    } else {
        let before = math_strings(entries.drop_last(), tables);
        match first_string(entries.last(), tables) {
            Some(s) => before.push(s),
            None => before,
        }
    }
}

/// At most the first eight.
pub open spec fn first_eight(s: Seq<Seq<char>>) -> Seq<Seq<char>> {
    if s.len() > 8 { s.take(8) } else { s }
}

/// Text that opens, after leading whitespace, with `<math`.
pub open spec fn is_mathml_text(t: Seq<char>) -> bool {
    starts_with(t.subrange(trim_start_index(t, 0), t.len() as int), "<math"@)
}

/// The first string that is (or, with `want` false, is not) MathML.
pub open spec fn first_math(s: Seq<Seq<char>>, want: bool) -> Option<Seq<char>>
    decreases s.len(),
{
    if s.len() == 0 {
        None
    } else if is_mathml_text(s[0]) == want {
        Some(s[0])
    } else {
        first_math(s.drop_first(), want)
    }
}

/// The equation a content struct holds in `$683`: its first MathML string,
/// sanitised, with the MathML's own `alttext` or else the first other
/// string as accessible text (among the first eight strings).
pub open spec fn math_occurrence_spec(m: IonModel, tables: Map<u32, Seq<Seq<char>>>) -> Option<MathView> {
    match field_of(m, FIELD_MATH_CONTENT) {
        Some(list) => match items_of(list) {
            Some(entries) => {
                let strings = first_eight(math_strings(entries, tables));
                match first_math(strings, true) {
                    None => None,
                    Some(mathml) => match sanitize_spec(mathml) {
                        None => None,
                        Some((out, alt, display)) => Some(MathView {
                            mathml: out,
                            alt: match alt {
                                Some(a) => Some(a),
                                None => first_math(strings, false),
                            },
                            display,
                        }),
                    },
                }
            },
            None => None,
        },
        None => None,
    }
}

fn mathml_text(t: &str) -> (r: bool)
    ensures
        r == is_mathml_text(t@),
{
    let chars = chars_of(t);
    let mut lo: usize = 0;
    while lo < chars.len() && char_is_space(chars[lo])
        invariant
            0 <= lo <= chars@.len(),
            chars@ == t@,
            trim_start_index(t@, 0) == trim_start_index(t@, lo as int),
        decreases chars@.len() - lo,
    {
        lo = lo + 1;
    }
    let prefix = chars_of("<math");
    let n = chars.len();
    if n - lo < prefix.len() {
        return false;
    }
    let mut i: usize = 0;
    while i < prefix.len()
        invariant
            0 <= i <= prefix@.len(),
            n == chars@.len(),
            prefix@ == "<math"@,
            chars@ == t@,
            lo + prefix@.len() <= chars@.len(),
            lo == trim_start_index(t@, 0),
            forall|k: int| 0 <= k < i ==> chars@[lo + k] == prefix@[k],
        decreases prefix@.len() - i,
    {
        if chars[lo + i] != prefix[i] {
            assert(t@.subrange(lo as int, t@.len() as int).subrange(0, prefix@.len() as int)[i as int] == t@[lo + i]);
            assert(t@.subrange(lo as int, t@.len() as int).subrange(0, prefix@.len() as int) != prefix@);
            return false;
        }
        i = i + 1;
    }
    assert(t@.subrange(lo as int, t@.len() as int).subrange(0, prefix@.len() as int) =~= prefix@);
    true
}

fn find_math<'a>(strings: &Vec<&'a str>, want: bool) -> (r: Option<&'a str>)
    ensures
        opt_str_view(r) == first_math(strings@.map_values(|s: &str| s@), want),
{
    let ghost sv = strings@.map_values(|s: &str| s@);
    assert(sv.skip(0) =~= sv);
    let mut i: usize = 0;
    while i < strings.len()
        invariant
            0 <= i <= strings@.len(),
            sv == strings@.map_values(|s: &str| s@),
            first_math(sv, want) == first_math(sv.skip(i as int), want),
        decreases strings@.len() - i,
    {
        assert(sv.skip(i as int)[0] == sv[i as int]);
        assert(sv.skip(i as int).drop_first() =~= sv.skip(i + 1));
        if mathml_text(strings[i]) == want {
            return Some(strings[i]);
        }
        i = i + 1;
    }
    assert(sv.skip(i as int).len() == 0);
    None
}

/// Recovers the equation a content struct holds, if any.
pub fn kfx_math_occurrence(value: &IonValue, tables: &BTreeMap<u32, Vec<String>>) -> (r: Option<KfxMathOccurrence>)
    ensures
        match r {
            Some(o) => math_occurrence_spec(value@, table_views(tables@)) == Some(o@)
                && o.provenance.content_field_id == FIELD_MATH_CONTENT
                && o.provenance.visual_fragment_type is None,
            None => math_occurrence_spec(value@, table_views(tables@)) is None,
        },
{
    let ghost tv = table_views(tables@);
    let entries = match struct_get(value, FIELD_MATH_CONTENT) {
        Some(list) => match list_items(list) {
            Some(items) => items,
            None => return None,
        },
        None => return None,
    };
    let ghost ms = models(entries@);
    proof {
        lemma_models_index(entries@);
    }
    let mut all: Vec<&str> = Vec::new();
    let mut i: usize = 0;
    while i < entries.len()
        invariant
            0 <= i <= entries@.len(),
            ms == models(entries@),
            ms.len() == entries@.len(),
            forall|k: int| 0 <= k < entries@.len() ==> #[trigger] ms[k] == entries@[k]@,
            tv == table_views(tables@),
            all@.map_values(|s: &str| s@) == math_strings(ms.take(i as int), tv),
        decreases entries@.len() - i,
    {
        proof {
            assert(ms.take(i + 1).drop_last() =~= ms.take(i as int));
            assert(ms.take(i + 1).last() == entries@[i as int]@);
        }
        let ghost before = all@;
        match first_content_string(&entries[i], tables) {
            Some(s) => {
                all.push(s);
                assert(all@.map_values(|x: &str| x@) =~= before.map_values(|x: &str| x@).push(s@));
            },
            None => {},
        }
        i = i + 1;
    }
    assert(ms.take(ms.len() as int) =~= ms);
    let mut strings: Vec<&str> = Vec::new();
    let mut j: usize = 0;
    while j < all.len() && j < 8
        invariant
            0 <= j <= all@.len(),
            j <= 8,
            strings@ == all@.take(j as int),
        decreases all@.len() - j,
    {
        strings.push(all[j]);
        assert(strings@ =~= all@.take(j + 1));
        j = j + 1;
    }
    proof {
        let av = all@.map_values(|s: &str| s@);
        if av.len() > 8 {
            assert(strings@.map_values(|s: &str| s@) =~= av.take(8));
        } else {
            assert(strings@ =~= all@);
        }
    }
    let mathml = match find_math(&strings, true) {
        Some(m) => m,
        None => return None,
    };
    let (sanitized, parsed_alt, display) = match sanitize_kfx_mathml(mathml) {
        Some(x) => x,
        None => return None,
    };
    let alt = match parsed_alt {
        Some(a) => Some(a),
        None => match find_math(&strings, false) {
            Some(t) => Some(crate::text::owned(t)),
            None => None,
        },
    };
    Some(KfxMathOccurrence {
        mathml: sanitized,
        alt,
        display,
        provenance: KfxMathProvenance { content_field_id: FIELD_MATH_CONTENT, visual_fragment_type: None },
    })
}

} // verus!
