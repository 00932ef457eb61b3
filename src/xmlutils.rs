//! A small XML document tree, addressed by index, over which the package
//! parsers walk; and the text normalisation that comes before any parse.
use vstd::prelude::*;

use crate::text::{chars_of, str_eq};
use crate::utils::build_epub_uri;

verus! {

/// The name of an attribute: its namespace, if it has one, and its local name.
#[derive(Debug, Clone, PartialEq)]
pub struct OwnedName {
    pub namespace: Option<String>,
    pub tag: String,
}

/// One attribute of an element.
#[derive(Debug, Clone, PartialEq)]
pub struct OwnedAttribute {
    pub name: OwnedName,
    pub value: String,
}

/// An attribute as a mathematical value: namespace, local name, value.
pub type AttrView = (Option<Seq<char>>, Seq<char>, Seq<char>);

/// A node as a mathematical value: depth, whether it is an element, local tag
/// name, own text, attributes.
pub type NodeView = (usize, bool, Seq<char>, Option<Seq<char>>, Seq<AttrView>);

impl View for OwnedAttribute {
    type V = AttrView;

    open spec fn view(&self) -> AttrView {
        (self.name.namespace.deep_view(), self.name.tag@, self.value@)
    }
}

/// One node of a parsed document. Nodes are stored in document order; `depth`
/// counts the node itself and its ancestors, so the document node has depth 1
/// and the descendants of a node are the nodes after it with a greater depth,
/// up to the first one that is not deeper.
#[derive(Debug, Clone, PartialEq)]
pub struct XmlNode {
    pub depth: usize,
    pub is_element: bool,
    /// The local tag name, without namespace (empty for other kinds of node).
    pub tag: String,
    /// The node's own character data: for an element, the text that is its
    /// first child, if any.
    pub text: Option<String>,
    pub attrs: Vec<OwnedAttribute>,
}

impl View for XmlNode {
    type V = NodeView;

    open spec fn view(&self) -> NodeView {
        (
            self.depth,
            self.is_element,
            self.tag@,
            self.text.deep_view(),
            self.attrs@.map_values(|a: OwnedAttribute| a@),
        )
    }
}

/// A parsed document: all its nodes in document order, the document node first.
#[derive(Debug, Clone, PartialEq)]
pub struct XmlDocument {
    pub nodes: Vec<XmlNode>,
}

impl View for XmlDocument {
    type V = Seq<NodeView>;

    open spec fn view(&self) -> Seq<NodeView> {
        self.nodes@.map_values(|n: XmlNode| n@)
    }
}

/// Errors of the XML layer.
#[derive(Debug)]
pub enum XMLError {
    NoElements,
    InvalidXml(roxmltree::Error),
    LolHtmlError(lol_html::errors::RewritingError),
}

#[verifier::external_type_specification]
#[verifier::external_body]
pub struct ExRoxmlError(roxmltree::Error);

#[verifier::external_type_specification]
#[verifier::external_body]
pub struct ExRewritingError(lol_html::errors::RewritingError);

// ---------------------------------------------------------------------------
// Attribute and tree queries
// ---------------------------------------------------------------------------

/// The value of the first attribute at or after position `i` whose local name
/// is `name`, namespace ignored.
pub open spec fn attr_from(attrs: Seq<AttrView>, name: Seq<char>, i: int) -> Option<Seq<char>>
    decreases attrs.len() - i,
{
    if i < 0 || i >= attrs.len() {
        None
    } else if attrs[i].1 == name {
        Some(attrs[i].2)
    } else {
        attr_from(attrs, name, i + 1)
    }
}

/// The value of the first attribute named `name`, namespace ignored.
pub open spec fn attr_of(attrs: Seq<AttrView>, name: Seq<char>) -> Option<Seq<char>> {
    attr_from(attrs, name, 0)
}

/// Lookup of an attribute by its local name, whatever its namespace.
pub trait RoxmlNodeExt {
    spec fn attr_spec(&self, name: Seq<char>) -> Option<Seq<char>>;

    /// Find an attribute with the given `name`, ignoring any namespaces in the process.
    fn attr_no_namespace(&self, name: &str) -> (r: Option<String>)
        ensures
            r.deep_view() == self.attr_spec(name@),
    ;
}

impl RoxmlNodeExt for XmlNode {
    open spec fn attr_spec(&self, name: Seq<char>) -> Option<Seq<char>> {
        attr_of(self@.4, name)
    }

    fn attr_no_namespace(&self, name: &str) -> (r: Option<String>) {
        let mut i: usize = 0;
        while i < self.attrs.len()
            invariant
                i <= self.attrs@.len(),
                attr_of(self@.4, name@) == attr_from(self@.4, name@, i as int),
            decreases self.attrs@.len() - i,
        {
            if str_eq(self.attrs[i].name.tag.as_str(), name) {
                return Some(self.attrs[i].value.clone());
            }
            i += 1;
        }
        None
    }
}

/// The index just past the descendants of node `i`, scanning from `j`.
pub open spec fn subtree_end_from(nodes: Seq<NodeView>, i: int, j: int) -> int
    decreases nodes.len() - j,
{
    if j < 0 || j >= nodes.len() {
        nodes.len() as int
    } else if nodes[j].0 <= nodes[i].0 {
        j
    } else {
        subtree_end_from(nodes, i, j + 1)
    }
}

/// The index just past the descendants of node `i`.
pub open spec fn subtree_end(nodes: Seq<NodeView>, i: int) -> int {
    subtree_end_from(nodes, i, i + 1)
}

/// Whether node `j` is an element whose local tag name is `tag`.
pub open spec fn is_tagged(nodes: Seq<NodeView>, j: int, tag: Seq<char>) -> bool {
    nodes[j].1 && nodes[j].2 == tag
}

/// The first element tagged `tag` in positions `j .. hi`, in document order.
pub open spec fn first_tagged_from(nodes: Seq<NodeView>, tag: Seq<char>, j: int, hi: int) -> Option<int>
    decreases hi - j,
{
    if j < 0 || j >= hi || j >= nodes.len() {
        None
    } else if is_tagged(nodes, j, tag) {
        Some(j)
    } else {
        first_tagged_from(nodes, tag, j + 1, hi)
    }
}

/// All elements tagged `tag` in positions `j .. hi`, in document order.
pub open spec fn all_tagged_from(nodes: Seq<NodeView>, tag: Seq<char>, j: int, hi: int) -> Seq<int>
    decreases hi - j,
{
    if j < 0 || j >= hi || j >= nodes.len() {
        Seq::empty()
    } else if is_tagged(nodes, j, tag) {
        seq![j] + all_tagged_from(nodes, tag, j + 1, hi)
    } else {
        all_tagged_from(nodes, tag, j + 1, hi)
    }
}

/// The element children of node `i`, from position `j` on, in document order.
pub open spec fn children_from(nodes: Seq<NodeView>, i: int, j: int) -> Seq<int>
    decreases nodes.len() - j,
{
    if j < 0 || j >= subtree_end(nodes, i) || j >= nodes.len() {
        Seq::empty()
    } else if nodes[j].1 && nodes[j].0 == nodes[i].0 + 1 {
        seq![j] + children_from(nodes, i, j + 1)
    } else {
        children_from(nodes, i, j + 1)
    }
}

/// The element children of node `i`, in document order.
pub open spec fn children_of(nodes: Seq<NodeView>, i: int) -> Seq<int> {
    children_from(nodes, i, i + 1)
}

/// The first element among the whole document, if any.
pub open spec fn first_element_from(nodes: Seq<NodeView>, j: int) -> Option<int>
    decreases nodes.len() - j,
{
    if j < 0 || j >= nodes.len() {
        None
    } else if nodes[j].1 {
        Some(j)
    } else {
        first_element_from(nodes, j + 1)
    }
}

/// An optional index as a mathematical integer.
pub open spec fn opt_int(o: Option<usize>) -> Option<int> {
    match o {
        Some(x) => Some(x as int),
        None => None,
    }
}

/// Index sequences as mathematical integers.
pub open spec fn as_ints(v: Seq<usize>) -> Seq<int> {
    v.map_values(|x: usize| x as int)
}

impl XmlDocument {
    /// The number of nodes.
    pub fn len(&self) -> (r: usize)
        ensures
            r == self@.len(),
    {
        self.nodes.len()
    }

    /// The value of attribute `name` on node `i`, namespace ignored.
    pub fn attr(&self, i: usize, name: &str) -> (r: Option<String>)
        requires
            i < self@.len(),
        ensures
            r.deep_view() == attr_of(self@[i as int].4, name@),
    {
        self.nodes[i].attr_no_namespace(name)
    }

    /// The own text of node `i`.
    pub fn text(&self, i: usize) -> (r: Option<String>)
        requires
            i < self@.len(),
        ensures
            r.deep_view() == self@[i as int].3,
    {
        self.nodes[i].text.clone()
    }

    /// The local tag name of node `i`.
    pub fn tag(&self, i: usize) -> (r: String)
        requires
            i < self@.len(),
        ensures
            r@ == self@[i as int].2,
    {
        self.nodes[i].tag.clone()
    }

    /// Whether node `i` is an element tagged `tag`.
    pub fn has_tag_name(&self, i: usize, tag: &str) -> (r: bool)
        requires
            i < self@.len(),
        ensures
            r == is_tagged(self@, i as int, tag@),
    {
        self.nodes[i].is_element && str_eq(self.nodes[i].tag.as_str(), tag)
    }

    /// The index just past the descendants of node `i`.
    pub fn subtree_end(&self, i: usize) -> (r: usize)
        requires
            i < self@.len(),
        ensures
            r == subtree_end(self@, i as int),
            i < r <= self@.len(),
            forall|k: int| i < k < r ==> self@[k].0 > self@[i as int].0,
    {
        let n = self.nodes.len();
        let mut j: usize = i + 1;
        while j < n && self.nodes[j].depth > self.nodes[i].depth
            invariant
                n == self.nodes@.len(),
                i < j <= self@.len(),
                subtree_end(self@, i as int) == subtree_end_from(self@, i as int, j as int),
                forall|k: int| i < k < j ==> self@[k].0 > self@[i as int].0,
            decreases self@.len() - j,
        {
            j += 1;
        }
        j
    }

    /// The first element tagged `tag` in positions `lo .. hi`.
    pub fn find_first(&self, tag: &str, lo: usize, hi: usize) -> (r: Option<usize>)
        ensures
            opt_int(r) == first_tagged_from(self@, tag@, lo as int, hi as int),
            r matches Some(x) ==> lo <= x < hi && x < self@.len(),
    {
        let mut j = lo;
        while j < hi && j < self.nodes.len()
            invariant
                lo <= j,
                first_tagged_from(self@, tag@, lo as int, hi as int) == first_tagged_from(
                    self@,
                    tag@,
                    j as int,
                    hi as int,
                ),
            decreases hi - j,
        {
            if self.has_tag_name(j, tag) {
                return Some(j);
            }
            j += 1;
        }
        None
    }

    /// The first element tagged `tag` among the descendants of node `i`.
    pub fn find_descendant(&self, i: usize, tag: &str) -> (r: Option<usize>)
        requires
            i < self@.len(),
        ensures
            opt_int(r) == first_tagged_from(
                self@,
                tag@,
                i + 1,
                subtree_end(self@, i as int),
            ),
    {
        let end = self.subtree_end(i);
        self.find_first(tag, i + 1, end)
    }

    /// The first element tagged `tag` in the whole document.
    pub fn find_in_document(&self, tag: &str) -> (r: Option<usize>)
        ensures
            opt_int(r) == first_tagged_from(self@, tag@, 0, self@.len() as int),
            r matches Some(x) ==> x < self@.len(),
    {
        self.find_first(tag, 0, self.nodes.len())
    }

    /// All elements tagged `tag` in positions `lo .. hi`, in document order.
    pub fn find_all(&self, tag: &str, lo: usize, hi: usize) -> (r: Vec<usize>)
        ensures
            as_ints(r@) == all_tagged_from(self@, tag@, lo as int, hi as int),
            forall|k: int| 0 <= k < r@.len() ==> lo <= #[trigger] r@[k] < hi && r@[k] < self@.len(),
    {
        let mut out: Vec<usize> = Vec::new();
        let mut j = lo;
        while j < hi && j < self.nodes.len()
            invariant
                lo <= j,
                forall|k: int| 0 <= k < out@.len() ==> lo <= #[trigger] out@[k] < hi && out@[k] < self@.len(),
                as_ints(out@) + all_tagged_from(self@, tag@, j as int, hi as int)
                    == all_tagged_from(self@, tag@, lo as int, hi as int),
            decreases hi - j,
        {
            if self.has_tag_name(j, tag) {
                out.push(j);
                assert(as_ints(out@) =~= as_ints(out@.drop_last()) + seq![j as int]);
            }
            j += 1;
        }
        assert(all_tagged_from(self@, tag@, j as int, hi as int) == Seq::<int>::empty());
        assert(as_ints(out@) =~= as_ints(out@) + Seq::<int>::empty());
        out
    }

    /// The element children of node `i`, in document order.
    pub fn children(&self, i: usize) -> (r: Vec<usize>)
        requires
            i < self@.len(),
        ensures
            as_ints(r@) == children_of(self@, i as int),
            forall|k: int| 0 <= k < r@.len() ==> i < #[trigger] r@[k] < self@.len(),
    {
        let end = self.subtree_end(i);
        let mut out: Vec<usize> = Vec::new();
        let mut j = i + 1;
        while j < end
            invariant
                i < j <= end,
                end == subtree_end(self@, i as int),
                end <= self@.len(),
                as_ints(out@) + children_from(self@, i as int, j as int) == children_of(
                    self@,
                    i as int,
                ),
                forall|k: int| 0 <= k < out@.len() ==> i < #[trigger] out@[k] < j,
            decreases end - j,
        {
            let d = self.nodes[j].depth;
            if self.nodes[j].is_element && d > self.nodes[i].depth && d - 1 == self.nodes[i].depth {
                out.push(j);
                assert(as_ints(out@) =~= as_ints(out@.drop_last()) + seq![j as int]);
            }
            j += 1;
        }
        assert(as_ints(out@) =~= as_ints(out@) + Seq::<int>::empty());
        out
    }

    /// The first element of the document.
    pub fn root_element(&self) -> (r: Option<usize>)
        ensures
            opt_int(r) == first_element_from(self@, 0),
            r matches Some(x) ==> x < self@.len(),
    {
        let mut j: usize = 0;
        while j < self.nodes.len()
            invariant
                self@.len() == self.nodes@.len(),
                first_element_from(self@, 0) == first_element_from(self@, j as int),
            decreases self@.len() - j,
        {
            if self.nodes[j].is_element {
                return Some(j);
            }
            j += 1;
        }
        None
    }
}


// ---------------------------------------------------------------------------
// Encoding normalisation
// ---------------------------------------------------------------------------

/// A character encoding that a byte-order mark can announce.
#[derive(Debug, Clone, Copy, PartialEq, Eq)]
pub enum TextEncoding {
    Utf8,
    Utf16Le,
    Utf16Be,
}

/// The encoding that the byte-order mark at the start of `b` announces, and
/// the length of that mark; UTF-8 and no mark to skip where there is none.
pub open spec fn bom_of(b: Seq<u8>) -> (TextEncoding, int) {
    if b.len() >= 3 && b[0] == 0xEFu8 && b[1] == 0xBBu8 && b[2] == 0xBFu8 {
        (TextEncoding::Utf8, 3)
    } else if b.len() >= 2 && b[0] == 0xFFu8 && b[1] == 0xFEu8 {
        (TextEncoding::Utf16Le, 2)
    } else if b.len() >= 2 && b[0] == 0xFEu8 && b[1] == 0xFFu8 {
        (TextEncoding::Utf16Be, 2)
    } else {
        (TextEncoding::Utf8, 0)
    }
}

/// The text that `bytes` encode in `enc`, read without looking for a
/// byte-order mark.
pub uninterp spec fn decoded_without_bom(enc: TextEncoding, bytes: Seq<u8>) -> Seq<char>;

/// The text of `b`: decoded in the encoding that its byte-order mark
/// announces, the mark skipped, or as UTF-8 where there is no mark.
pub open spec fn utf8_text(b: Seq<u8>) -> Seq<char> {
    decoded_without_bom(bom_of(b).0, b.subrange(bom_of(b).1, b.len() as int))
}

/// Looks for a UTF-8, UTF-16LE or UTF-16BE byte-order mark at the start of
/// `content`.
pub fn sniff_bom(content: &[u8]) -> (r: (TextEncoding, usize))
    ensures
        r.0 == bom_of(content@).0,
        r.1 as int == bom_of(content@).1,
{
    let n = content.len();
    if n >= 3 && content[0] == 0xEF && content[1] == 0xBB && content[2] == 0xBF {
        (TextEncoding::Utf8, 3)
    } else if n >= 2 && content[0] == 0xFF && content[1] == 0xFE {
        (TextEncoding::Utf16Le, 2)
    } else if n >= 2 && content[0] == 0xFE && content[1] == 0xFF {
        (TextEncoding::Utf16Be, 2)
    } else {
        (TextEncoding::Utf8, 0)
    }
}

/// The UTF-16 code units of `c`: one below U+10000, else a surrogate pair.
pub open spec fn utf16_units(c: char) -> Seq<int> {
    let v = (c as u32) as int;
    if v < 0x10000 {
        seq![v]
    } else {
        seq![0xD800 + (v - 0x10000) / 0x400, 0xDC00 + (v - 0x10000) % 0x400]
    }
}

/// The little-endian bytes of the code units `u`.
pub open spec fn le_bytes(u: Seq<int>) -> Seq<u8>
    decreases u.len(),
{
    if u.len() == 0 {
        Seq::empty()
    } else {
        seq![(u[0] % 256) as u8, (u[0] / 256) as u8] + le_bytes(u.drop_first())
    }
}

/// The UTF-16LE encoding of `s`, without a byte-order mark.
pub open spec fn utf16le_of(s: Seq<char>) -> Seq<u8>
    decreases s.len(),
{
    if s.len() == 0 {
        Seq::empty()
    } else {
        le_bytes(utf16_units(s[0])) + utf16le_of(s.drop_first())
    }
}

/// Relies on `encoding_rs::Encoding::decode_without_bom_handling`: the text
/// that `bytes` encode in `enc`, a function of the two alone; well-formed
/// UTF-8 read as UTF-8, and well-formed UTF-16LE read as UTF-16LE, come back
/// as the characters they encode.
#[verifier::external_body]
fn decode_without_bom(enc: TextEncoding, bytes: &[u8]) -> (r: String)
    ensures
        r@ == decoded_without_bom(enc, bytes@),
        enc == TextEncoding::Utf8 && vstd::utf8::valid_utf8(bytes@) ==> r@ == vstd::utf8::decode_utf8(
            bytes@,
        ),
        forall|t: Seq<char>|
            enc == TextEncoding::Utf16Le && bytes@ == #[trigger] utf16le_of(t) ==> r@ == t,
{
    let encoding = match enc {
        TextEncoding::Utf8 => encoding_rs::UTF_8,
        TextEncoding::Utf16Le => encoding_rs::UTF_16LE,
        TextEncoding::Utf16Be => encoding_rs::UTF_16BE,
    };
    encoding.decode_without_bom_handling(bytes).0.into_owned()
}

/// Most XML documents are technically allowed to be UTF-16: this gives the
/// text of `content` after a byte-order-mark sniff, UTF-8 where there is none.
pub fn ensure_utf8(content: &[u8]) -> (r: String)
    ensures
        r@ == utf8_text(content@),
        bom_of(content@).0 == TextEncoding::Utf8 && vstd::utf8::valid_utf8(
            content@.subrange(bom_of(content@).1, content@.len() as int),
        ) ==> r@ == vstd::utf8::decode_utf8(
            content@.subrange(bom_of(content@).1, content@.len() as int),
        ),
        forall|t: Seq<char>|
            content@ == seq![0xFFu8, 0xFEu8] + #[trigger] utf16le_of(t) ==> r@ == t,
        forall|t: Seq<char>|
            content@ == #[trigger] vstd::utf8::encode_utf8(t) && bom_of(content@).1 == 0 ==> r@ == t,
{
    let (encoding, skip) = sniff_bom(content);
    let (_, rest) = content.split_at(skip);
    assert(rest@ =~= content@.subrange(skip as int, content@.len() as int));
    let r = decode_without_bom(encoding, rest);
    proof {
        assert forall|t: Seq<char>| content@ == seq![0xFFu8, 0xFEu8] + #[trigger] utf16le_of(t) implies r@
            == t by {
            assert(content@[0] == 0xFFu8 && content@[1] == 0xFEu8);
            assert(rest@ =~= utf16le_of(t));
        }
        assert forall|t: Seq<char>|
            content@ == #[trigger] vstd::utf8::encode_utf8(t) && bom_of(content@).1 == 0 implies r@ == t by {
            vstd::utf8::encode_utf8_valid_utf8(t);
            vstd::utf8::encode_utf8_decode_utf8(t);
            assert(rest@ =~= content@);
        }
    }
    r
}

/// A byte-order mark decides the decoder and is not part of the text: after a
/// UTF-16LE mark the rest is read as UTF-16LE, and bytes with no mark are read
/// as UTF-8, whole.
pub proof fn lemma_bom_selects_decoder(rest: Seq<u8>, plain: Seq<u8>)
    requires
        !(plain.len() >= 3 && plain[0] == 0xEFu8 && plain[1] == 0xBBu8 && plain[2] == 0xBFu8),
        !(plain.len() >= 2 && plain[0] == 0xFFu8 && plain[1] == 0xFEu8),
        !(plain.len() >= 2 && plain[0] == 0xFEu8 && plain[1] == 0xFFu8),
    ensures
        utf8_text(seq![0xFFu8, 0xFEu8] + rest) == decoded_without_bom(TextEncoding::Utf16Le, rest),
        utf8_text(plain) == decoded_without_bom(TextEncoding::Utf8, plain),
{
    let b = seq![0xFFu8, 0xFEu8] + rest;
    assert(b[0] == 0xFFu8 && b[1] == 0xFEu8);
    assert(b.subrange(2, b.len() as int) =~= rest);
    assert(plain.subrange(0, plain.len() as int) =~= plain);
}

// ---------------------------------------------------------------------------
// Named character entities and parsing
// ---------------------------------------------------------------------------

/// `&nbsp;`
pub open spec fn nbsp_ref() -> Seq<char> {
    seq!['&', 'n', 'b', 's', 'p', ';']
}

/// `&copy;`
pub open spec fn copy_ref() -> Seq<char> {
    seq!['&', 'c', 'o', 'p', 'y', ';']
}

/// `&reg;`
pub open spec fn reg_ref() -> Seq<char> {
    seq!['&', 'r', 'e', 'g', ';']
}

/// Whether `s` holds `pat` at position `i`.
pub open spec fn holds_at(s: Seq<char>, i: int, pat: Seq<char>) -> bool {
    0 <= i && i + pat.len() <= s.len() && s.subrange(i, i + pat.len()) == pat
}

/// `s` from position `i` on, with the references to the non-breaking space,
/// copyright and registered-trademark entities replaced by their characters.
pub open spec fn entities_resolved_from(s: Seq<char>, i: int) -> Seq<char>
    decreases s.len() - i,
{
    if i < 0 || i >= s.len() {
        Seq::empty()
    } else if holds_at(s, i, nbsp_ref()) {
        seq!['\u{a0}'] + entities_resolved_from(s, i + 6)
    } else if holds_at(s, i, copy_ref()) {
        seq!['\u{a9}'] + entities_resolved_from(s, i + 6)
    } else if holds_at(s, i, reg_ref()) {
        seq!['\u{ae}'] + entities_resolved_from(s, i + 5)
    } else {
        seq![s[i]] + entities_resolved_from(s, i + 1)
    }
}

/// `s` with the three named entities that real-world packages use without
/// declaring them replaced by their characters.
pub open spec fn entities_resolved(s: Seq<char>) -> Seq<char> {
    entities_resolved_from(s, 0)
}

pub(crate) fn holds_at_exec(s: &Vec<char>, i: usize, pat: &Vec<char>) -> (r: bool)
    requires
        i <= s@.len(),
    ensures
        r == holds_at(s@, i as int, pat@),
{
    if pat.len() > s.len() - i {
        return false;
    }
    let mut k: usize = 0;
    while k < pat.len()
        invariant
            i + pat@.len() <= s@.len(),
            s@.len() <= usize::MAX,
            k <= pat@.len(),
            forall|m: int| 0 <= m < k ==> s@[i + m] == pat@[m],
        decreases pat@.len() - k,
    {
        if s[i + k] != pat[k] {
            assert(s@.subrange(i as int, i + pat@.len())[k as int] != pat@[k as int]);
            return false;
        }
        k += 1;
    }
    assert(s@.subrange(i as int, i + pat@.len()) =~= pat@);
    true
}

/// Replaces `&nbsp;`, `&copy;` and `&reg;` by the characters they name.
pub fn resolve_entities(s: &Vec<char>) -> (r: Vec<char>)
    ensures
        r@ == entities_resolved(s@),
{
    let nbsp = vec!['&', 'n', 'b', 's', 'p', ';'];
    let copy = vec!['&', 'c', 'o', 'p', 'y', ';'];
    let reg = vec!['&', 'r', 'e', 'g', ';'];
    assert(nbsp@ =~= nbsp_ref());
    assert(copy@ =~= copy_ref());
    assert(reg@ =~= reg_ref());
    let mut out: Vec<char> = Vec::new();
    let mut i: usize = 0;
    while i < s.len()
        invariant
            i <= s@.len(),
            nbsp@ == nbsp_ref(),
            copy@ == copy_ref(),
            reg@ == reg_ref(),
            out@ + entities_resolved_from(s@, i as int) == entities_resolved(s@),
        decreases s@.len() - i,
    {
        let ghost before = out@;
        if holds_at_exec(s, i, &nbsp) {
            out.push('\u{a0}');
            i += 6;
        } else if holds_at_exec(s, i, &copy) {
            out.push('\u{a9}');
            i += 6;
        } else if holds_at_exec(s, i, &reg) {
            out.push('\u{ae}');
            i += 5;
        } else {
            out.push(s[i]);
            i += 1;
        }
        assert(out@ + entities_resolved_from(s@, i as int) =~= before + entities_resolved_from(
            s@,
            i as int,
        ).insert(0, out@.last()));
    }
    assert(out@ =~= out@ + Seq::<char>::empty());
    out
}

/// One node as the parser hands it over: depth, whether it is an element,
/// local tag name, own text, and attributes as (namespace, local name, value).
pub type RawNode = (usize, bool, String, Option<String>, Vec<(Option<String>, String, String)>);

/// The nodes of the XML document `text`, in document order, or none where
/// `text` is not well-formed XML.
pub uninterp spec fn parsed_nodes(text: Seq<char>) -> Option<Seq<NodeView>>;

/// Relies on `roxmltree::Document::parse_with_options` (DTDs allowed): every
/// node of the document in document order (`descendants`), with its depth
/// (`ancestors().count()`), kind, local tag name, `text()` and attributes;
/// or the parse error.
#[verifier::external_body]
fn parse_nodes(text: &Vec<char>) -> (r: Result<Vec<RawNode>, roxmltree::Error>)
    ensures
        match r {
            Ok(v) => parsed_nodes(text@) == Some(v.deep_view()),
            Err(_) => parsed_nodes(text@) is None,
        },
{
    let text: String = text.iter().collect();
    let options = roxmltree::ParsingOptions { allow_dtd: true, ..Default::default() };
    let doc = roxmltree::Document::parse_with_options(&text, options)?;
    Ok(doc.descendants().map(|n| (
        n.ancestors().count(),
        n.is_element(),
        n.tag_name().name().to_string(),
        n.text().map(String::from),
        n.attributes().map(|a| (a.namespace().map(String::from), a.name().into(), a.value().into())).collect(),
    )).collect())
}

fn clone_opt(o: &Option<String>) -> (r: Option<String>)
    ensures
        r.deep_view() == o.deep_view(),
{
    match o {
        Some(s) => Some(s.clone()),
        None => None,
    }
}

fn node_of_raw(raw: &RawNode) -> (r: XmlNode)
    ensures
        r@ == raw.deep_view(),
{
    let mut attrs: Vec<OwnedAttribute> = Vec::new();
    let mut k: usize = 0;
    assert(raw.4.deep_view().len() == raw.4@.len());
    while k < raw.4.len()
        invariant
            k <= raw.4@.len(),
            raw.4.deep_view().len() == raw.4@.len(),
            attrs@.map_values(|a: OwnedAttribute| a@) =~= raw.4.deep_view().subrange(0, k as int),
        decreases raw.4@.len() - k,
    {
        let a = &raw.4[k];
        let attr = OwnedAttribute {
            name: OwnedName { namespace: clone_opt(&a.0), tag: a.1.clone() },
            value: a.2.clone(),
        };
        assert(attr@ == raw.4.deep_view()[k as int]);
        let ghost prev = attrs@.map_values(|a: OwnedAttribute| a@);
        attrs.push(attr);
        assert(attrs@.map_values(|a: OwnedAttribute| a@) =~= prev.push(attr@));
        assert(raw.4.deep_view().subrange(0, k + 1) =~= raw.4.deep_view().subrange(0, k as int).push(
            raw.4.deep_view()[k as int],
        ));
        k += 1;
        assert(attrs@.map_values(|a: OwnedAttribute| a@) =~= raw.4.deep_view().subrange(
            0,
            k as int,
        ));
    }
    XmlNode {
        depth: raw.0,
        is_element: raw.1,
        tag: raw.2.clone(),
        text: clone_opt(&raw.3),
        attrs,
    }
}

/// Parses `text` as XML, after resolving the named entities that real-world
/// package files use undeclared.
pub fn parse_xml(text: &str) -> (r: Result<XmlDocument, XMLError>)
    ensures
        match parsed_nodes(entities_resolved(text@)) {
            Some(nodes) => r matches Ok(d) && d@ == nodes,
            None => r matches Err(XMLError::InvalidXml(_)),
        },
{
    let chars = chars_of(text);
    let resolved = resolve_entities(&chars);
    match parse_nodes(&resolved) {
        Err(e) => Err(XMLError::InvalidXml(e)),
        Ok(raw) => {
            let mut nodes: Vec<XmlNode> = Vec::new();
            let mut i: usize = 0;
            assert(raw.deep_view().len() == raw@.len());
            while i < raw.len()
                invariant
                    i <= raw@.len(),
                    raw.deep_view().len() == raw@.len(),
                    nodes@.map_values(|n: XmlNode| n@) =~= raw.deep_view().subrange(0, i as int),
                decreases raw@.len() - i,
            {
                let node = node_of_raw(&raw[i]);
                assert(node@ == raw.deep_view()[i as int]);
                let ghost prev = nodes@.map_values(|n: XmlNode| n@);
                nodes.push(node);
                assert(nodes@.map_values(|n: XmlNode| n@) =~= prev.push(node@));
                assert(raw.deep_view().subrange(0, i + 1) =~= raw.deep_view().subrange(
                    0,
                    i as int,
                ).push(raw.deep_view()[i as int]));
                i += 1;
                assert(nodes@.map_values(|n: XmlNode| n@) =~= raw.deep_view().subrange(
                    0,
                    i as int,
                ));
            }
            let d = XmlDocument { nodes };
            assert(d@ =~= raw.deep_view());
            Ok(d)
        },
    }
}

// ---------------------------------------------------------------------------
// Rewriting references in content documents
// ---------------------------------------------------------------------------

/// The markup `html`, in one streaming pass, with the attribute `attr1` of
/// every element that the CSS selector `sel1` matches, and the attribute
/// `attr2` of every element that `sel2` matches, replaced by its value
/// rewritten against the entry `path` with the prefix `prefix`, all other
/// bytes kept; none where the rewriter fails.
pub uninterp spec fn attributes_rewritten(
    html: Seq<char>,
    sel1: Seq<char>,
    attr1: Seq<char>,
    sel2: Seq<char>,
    attr2: Seq<char>,
    path: Seq<char>,
    prefix: Seq<char>,
) -> Option<Seq<char>>;

/// Relies on `lol_html::rewrite_str`, a streaming rewriter that, in one
/// pass, changes only the attribute named by each rule on the elements that
/// the rule's selector matches, setting it to `build_epub_uri` of its value;
/// the result depends on the arguments alone.
#[verifier::external_body]
fn replace_attributes(html: &str, sel1: &str, attr1: &str, sel2: &str, attr2: &str, path: &str, prefix: &str) -> (r: Result<String, XMLError>)
    ensures
        match r {
            Ok(s) => attributes_rewritten(html@, sel1@, attr1@, sel2@, attr2@, path@, prefix@) == Some(s@),
            Err(_) => attributes_rewritten(html@, sel1@, attr1@, sel2@, attr2@, path@, prefix@) is None,
        },
{
    let mut handlers = Vec::new();
    for (sel, attr) in [(sel1, attr1), (sel2, attr2)] {
        let selector = sel.parse::<lol_html::Selector>().map_err(|_| XMLError::NoElements)?;
        handlers.push((std::borrow::Cow::Owned(selector), lol_html::ElementContentHandlers::default().element(move |el| {
            el.set_attribute(attr, &build_epub_uri(path, prefix, &el.get_attribute(attr).unwrap_or_default()))?;
            Ok(())
        })));
    }
    let settings = lol_html::Settings { element_content_handlers: handlers, strict: false, ..lol_html::Settings::default() };
    lol_html::rewrite_str(html, settings).map_err(XMLError::LolHtmlError)
}

/// The content document `html`, found at the archive entry `path`, with the
/// `href` of its links, anchors and images and the `src` of its `img`
/// elements rewritten against `path` with the prefix `url_prepend`.
pub open spec fn page_rewritten(html: Seq<char>, path: Seq<char>, url_prepend: Seq<char>) -> Option<
    Seq<char>,
> {
    attributes_rewritten(
        html,
        "a[href], link[href], image[href]"@,
        "href"@,
        "img[src]"@,
        "src"@,
        path,
        url_prepend,
    )
}

/// Rewrites every relative `href` of `a`, `link` and `image` elements and
/// every `src` of `img` elements of `html` into a URI that starts with
/// `url_prepend` (see `build_epub_uri`); the rest of the markup is kept.
pub fn rewrite_page(html: &str, path: &str, url_prepend: &str) -> (r: Result<String, XMLError>)
    ensures
        match page_rewritten(html@, path@, url_prepend@) {
            Some(s) => r matches Ok(t) && t@ == s,
            None => r is Err,
        },
{
    replace_attributes(
        html,
        "a[href], link[href], image[href]",
        "href",
        "img[src]",
        "src",
        path,
        url_prepend,
    )
}

} // verus!
