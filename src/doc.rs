//! Manages the epub doc.
//!
//! Provides methods to navigate through the epub content, cover, chapters,
//! metadata and table of contents.
use vstd::prelude::*;

use crate::archive::EpubArchive;
use crate::error::ArchiveError;
use crate::parsers::v2::locate;
use crate::archive::{entry_lookup, entry_readable};
use crate::parsers::{key_pos, package_parsed, package_version, parse_package, EpubMetadata};
use crate::text::{concat3, str_eq};
use crate::utils::{parent_dir, parent_of};
use crate::xmlutils::{
    attr_of, ensure_utf8, entities_resolved, parse_xml, page_rewritten, parsed_nodes, rewrite_page, utf8_text, AttrView,
    NodeView, OwnedAttribute, XmlDocument,
};

verus! {

/// Struct that represent a navigation point in a table of content
#[derive(Debug)]
pub struct NavPoint {
    /// the title of this navpoint
    pub label: String,
    /// the resource path
    pub content: String,
    /// nested navpoints
    pub children: Vec<NavPoint>,
    /// the order in the toc
    pub play_order: usize,
}

/// Navigation points compare by their place in the reading order alone.
impl PartialEq for NavPoint {
    fn eq(&self, other: &NavPoint) -> (r: bool) {
        self.play_order == other.play_order
    }
}

impl vstd::std_specs::cmp::PartialEqSpecImpl for NavPoint {
    open spec fn obeys_eq_spec() -> bool {
        true
    }

    open spec fn eq_spec(&self, other: &NavPoint) -> bool {
        self.play_order == other.play_order
    }
}

/// Navigation points are ordered by their play order alone.
impl PartialOrd for NavPoint {
    fn partial_cmp(&self, other: &NavPoint) -> (r: Option<std::cmp::Ordering>) {
        if self.play_order < other.play_order {
            Some(std::cmp::Ordering::Less)
        } else if self.play_order > other.play_order {
            Some(std::cmp::Ordering::Greater)
        } else {
            Some(std::cmp::Ordering::Equal)
        }
    }
}

impl vstd::std_specs::cmp::PartialOrdSpecImpl for NavPoint {
    open spec fn obeys_partial_cmp_spec() -> bool {
        true
    }

    open spec fn partial_cmp_spec(&self, other: &NavPoint) -> Option<std::cmp::Ordering> {
        if self.play_order < other.play_order {
            Some(std::cmp::Ordering::Less)
        } else if self.play_order > other.play_order {
            Some(std::cmp::Ordering::Greater)
        } else {
            Some(std::cmp::Ordering::Equal)
        }
    }
}

/// Whether the play orders of `v` ascend.
pub open spec fn sorted_by_play_order(v: Seq<NavPoint>) -> bool {
    forall|i: int, j: int| 0 <= i < j < v.len() ==> v[i].play_order <= v[j].play_order
}

/// Whether the play orders ascend in `v` and, down to `depth` levels below
/// it, in every list of children.
pub open spec fn ordered_to_depth(v: Seq<NavPoint>, depth: nat) -> bool
    decreases depth,
{
    &&& sorted_by_play_order(v)
    &&& depth > 0 ==> forall|i: int|
        0 <= i < v.len() ==> ordered_to_depth(#[trigger] v[i].children@, (depth - 1) as nat)
}

/// Whether the play orders ascend at every level of the tree `v`.
pub open spec fn ordered_at_every_level(v: Seq<NavPoint>) -> bool {
    forall|depth: nat| #[trigger] ordered_to_depth(v, depth)
}

/// A resource item is any item that was listed in the `content.opf` as part of the manifest.
/// It is guaranteed to have a path within the Epub, and a mime type.
#[derive(Debug, Clone, PartialEq)]
pub struct ResourceItem {
    pub path: String,
    pub mime: String,
    pub property: Option<String>,
}

/// A resource as a mathematical value: path, media type, property.
pub type ResourceView = (Seq<char>, Seq<char>, Option<Seq<char>>);

impl View for ResourceItem {
    type V = ResourceView;

    open spec fn view(&self) -> ResourceView {
        (self.path@, self.mime@, self.property.deep_view())
    }
}

/// A Metadata Node represents a piece of metadata that is in the `content.opf` file of the Epub.
/// It contains its textual content, as well as any attributes that was on the XML node.
#[derive(Debug, Clone, PartialEq)]
pub struct MetadataNode {
    /// The textual content that was within the XML open and close tags
    pub content: String,
    /// The attributes of the XML node
    pub attr: Vec<OwnedAttribute>,
}

/// A metadata node as a mathematical value: content and attributes.
pub type MetadataView = (Seq<char>, Seq<AttrView>);

impl View for MetadataNode {
    type V = MetadataView;

    open spec fn view(&self) -> MetadataView {
        (self.content@, self.attr@.map_values(|a: OwnedAttribute| a@))
    }
}

impl MetadataNode {
    /// A node with `content` and no attributes.
    pub fn from_content(content: String) -> (r: MetadataNode)
        ensures
            r@ == (content@, Seq::<AttrView>::empty()),
    {
        let r = MetadataNode { content, attr: Vec::new() };
        assert(r@.1 =~= Seq::<AttrView>::empty());
        r
    }

    /// A node with `content` and the attributes of node `node` of `doc`.
    pub fn from_attr(content: String, doc: &XmlDocument, node: usize) -> (r: MetadataNode)
        requires
            node < doc@.len(),
        ensures
            r@ == (content@, doc@[node as int].4),
    {
        let attrs = &doc.nodes[node].attrs;
        let mut attr: Vec<OwnedAttribute> = Vec::new();
        let mut k: usize = 0;
        while k < attrs.len()
            invariant
                k <= attrs@.len(),
                attr@.map_values(|a: OwnedAttribute| a@) =~= attrs@.map_values(
                    |a: OwnedAttribute| a@,
                ).subrange(0, k as int),
            decreases attrs@.len() - k,
        {
            let a = OwnedAttribute {
                name: crate::xmlutils::OwnedName {
                    namespace: match &attrs[k].name.namespace {
                        Some(s) => Some(s.clone()),
                        None => None,
                    },
                    tag: attrs[k].name.tag.clone(),
                },
                value: attrs[k].value.clone(),
            };
            let ghost prev = attr@.map_values(|a: OwnedAttribute| a@);
            attr.push(a);
            assert(attr@.map_values(|a: OwnedAttribute| a@) =~= prev.push(a@));
            k += 1;
        }
        MetadataNode { content, attr }
    }

    /// Find an attribute in the current node with the given `name`
    pub fn find_attr(&self, name: &str) -> (r: Option<&str>)
        ensures
            match r {
                Some(v) => attr_of(self@.1, name@) == Some(v@),
                None => attr_of(self@.1, name@) is None,
            },
    {
        let mut i: usize = 0;
        while i < self.attr.len()
            invariant
                i <= self.attr@.len(),
                attr_of(self@.1, name@) == crate::xmlutils::attr_from(self@.1, name@, i as int),
            decreases self.attr@.len() - i,
        {
            if str_eq(self.attr[i].name.tag.as_str(), name) {
                return Some(self.attr[i].value.as_str());
            }
            i += 1;
        }
        None
    }
}

// ---------------------------------------------------------------------------
// The document
// ---------------------------------------------------------------------------

/// The package path that the container document `content` names: the
/// `full-path` of its first `rootfile`.
pub open spec fn root_file_of(content: Seq<u8>) -> Result<Seq<char>, ()> {
    match parsed_nodes(entities_resolved(utf8_text(content))) {
        None => Err(()),
        Some(nodes) => match locate(nodes, "rootfile"@) {
            None => Err(()),
            Some(i) => match attr_of(nodes[i].4, "full-path"@) {
                None => Err(()),
                Some(p) => Ok(p),
            },
        },
    }
}

/// The package path that the container document `content` names. Fails with
/// an XML error where `content` is not XML, and with `ParsingFailure` where
/// it has no `rootfile` with a `full-path`.
pub fn get_root_file(content: &[u8]) -> (r: Result<String, ArchiveError>)
    ensures
        match parsed_nodes(entities_resolved(utf8_text(content@))) {
            None => r matches Err(ArchiveError::Xml(_)),
            Some(nodes) => match root_file_of(content@) {
                Ok(p) => r matches Ok(s) && s@ == p,
                Err(_) => r matches Err(ArchiveError::ParsingFailure),
            },
        },
{
    let txt = ensure_utf8(content);
    let root = match parse_xml(txt.as_str()) {
        Ok(d) => d,
        Err(e) => return Err(ArchiveError::Xml(e)),
    };
    let element = match root.find_in_document("rootfile") {
        Some(e) => e,
        None => return Err(ArchiveError::ParsingFailure),
    };
    match root.attr(element, "full-path") {
        Some(p) => Ok(p),
        None => Err(ArchiveError::ParsingFailure),
    }
}

/// The position of `id` in the spine, counted from `i`.
pub open spec fn spine_pos_from(spine: Seq<Seq<char>>, id: Seq<char>, i: int) -> Option<int>
    decreases spine.len() - i,
{
    if i < 0 || i >= spine.len() {
        None
    } else if spine[i] == id {
        Some(i)
    } else {
        spine_pos_from(spine, id, i + 1)
    }
}

/// The first position of `id` in the spine.
pub open spec fn spine_pos(spine: Seq<Seq<char>>, id: Seq<char>) -> Option<int> {
    spine_pos_from(spine, id, 0)
}

/// The position of the first resource at or after `i` whose path is `path`.
pub open spec fn path_pos_from(t: Seq<(Seq<char>, ResourceView)>, path: Seq<char>, i: int) -> Option<
    int,
>
    decreases t.len() - i,
{
    if i < 0 || i >= t.len() {
        None
    } else if t[i].1.0 == path {
        Some(i)
    } else {
        path_pos_from(t, path, i + 1)
    }
}

/// Whether `ctx` is what parsing the package stored at `root_file` among the
/// entries `entries` gives, with base directory `root_base`.
pub open spec fn package_read(
    entries: Map<Seq<char>, Seq<u8>>,
    rd: Set<Seq<char>>,
    root_file: Seq<char>,
    root_base: Seq<char>,
    ctx: EpubMetadata,
) -> bool {
    match entry_lookup(entries, root_file) {
        Some(raw) => match parsed_nodes(entities_resolved(utf8_text(raw))) {
            Some(nodes) => package_parsed(ctx, entries, rd, nodes, root_base),
            None => false,
        },
        None => false,
    }
}

/// The package stored at `root_file`, where that entry can be read and is
/// XML.
pub open spec fn package_nodes(
    entries: Map<Seq<char>, Seq<u8>>,
    rd: Set<Seq<char>>,
    root_file: Seq<char>,
) -> Option<Seq<NodeView>> {
    if entry_readable(entries, rd, root_file) {
        match entry_lookup(entries, root_file) {
            Some(raw) => parsed_nodes(entities_resolved(utf8_text(raw))),
            None => None,
        }
    } else {
        None
    }
}

/// Whether the package stored at `root_file` can be read, is XML, and has a
/// version, a manifest, a spine and metadata.
pub open spec fn package_opens(
    entries: Map<Seq<char>, Seq<u8>>,
    rd: Set<Seq<char>>,
    root_file: Seq<char>,
) -> bool {
    match package_nodes(entries, rd, root_file) {
        Some(nodes) => package_version(nodes) is Some && locate(nodes, "manifest"@) is Some
            && locate(nodes, "spine"@) is Some && locate(nodes, "metadata"@) is Some,
        None => false,
    }
}

/// Whether the package stored at `root_file` can be read and is XML, but
/// declares no version.
pub open spec fn package_without_version(
    entries: Map<Seq<char>, Seq<u8>>,
    rd: Set<Seq<char>>,
    root_file: Seq<char>,
) -> bool {
    package_nodes(entries, rd, root_file) matches Some(nodes) && package_version(nodes) is None
}

/// Whether the container file can be read and names a package that opens.
pub open spec fn container_opens(entries: Map<Seq<char>, Seq<u8>>, rd: Set<Seq<char>>) -> bool {
    entry_readable(entries, rd, "META-INF/container.xml"@) && match entry_lookup(
        entries,
        "META-INF/container.xml"@,
    ) {
        Some(c) => match root_file_of(c) {
            Ok(rf) => package_opens(entries, rd, rf),
            Err(_) => false,
        },
        None => false,
    }
}

/// Whether `root_file` is the package path that the container file among
/// `entries` names, and `ctx` what parsing that package gives.
pub open spec fn opened_from(
    entries: Map<Seq<char>, Seq<u8>>,
    rd: Set<Seq<char>>,
    root_file: Seq<char>,
    root_base: Seq<char>,
    ctx: EpubMetadata,
) -> bool {
    match entry_lookup(entries, "META-INF/container.xml"@) {
        Some(c) => root_file_of(c) == Ok::<Seq<char>, ()>(root_file) && package_read(
            entries,
            rd,
            root_file,
            root_base,
            ctx,
        ),
        None => false,
    }
}

/// The archive path of the resource `id`.
pub open spec fn resource_path(ctx: EpubMetadata, id: Seq<char>) -> Option<Seq<char>> {
    match key_pos(ctx.resources_view(), id) {
        Some(i) => Some(ctx.resources_view()[i].1.0),
        None => None,
    }
}

/// Whether the manifest lists `id` and the archive entry at its path can be
/// read.
pub open spec fn resource_fetchable(
    entries: Map<Seq<char>, Seq<u8>>,
    rd: Set<Seq<char>>,
    ctx: EpubMetadata,
    id: Seq<char>,
) -> bool {
    resource_path(ctx, id) matches Some(p) && entry_readable(entries, rd, p)
}

/// Struct to control the epub document
pub struct EpubDoc {
    /// the zip archive
    pub archive: EpubArchive,
    /// root file base path
    pub root_base: String,
    /// root file full path
    pub root_file: String,
    /// everything that parsing the package gave
    pub context: EpubMetadata,
    /// the current position in the spine
    pub current: usize,
}

impl EpubDoc {
    /// Opens the epub contained in `reader`: finds the package through the
    /// container file, then parses it.
    pub fn from_reader(reader: std::io::Cursor<Vec<u8>>) -> (r: Result<Self, ArchiveError>)
        ensures
            r matches Ok(doc) ==> {
                &&& doc.context.wf()
                &&& ordered_at_every_level(doc.context.toc@)
                &&& doc.root_base@ == parent_of(doc.root_file@)
                &&& doc.current == 0
                &&& opened_from(
                    doc.archive.entries(),
                    doc.archive.readable(),
                    doc.root_file@,
                    doc.root_base@,
                    doc.context,
                )
            },
    {
        match EpubArchive::from_reader(reader) {
            Ok(archive) => Self::from_archive(archive),
            Err(e) => Err(e),
        }
    }

    /// Opens the epub held by `archive`: finds the package through the
    /// container file, then parses it. Succeeds exactly where the container
    /// file and the package it names can be read and the package is XML with a
    /// version, a manifest, a spine and metadata.
    pub fn from_archive(archive: EpubArchive) -> (r: Result<Self, ArchiveError>)
        ensures
            r is Ok <==> container_opens(archive.entries(), archive.readable()),
            r matches Ok(doc) ==> {
                &&& doc.archive.entries() == archive.entries()
                &&& doc.archive.readable() == archive.readable()
                &&& doc.context.wf()
                &&& ordered_at_every_level(doc.context.toc@)
                &&& doc.root_base@ == parent_of(doc.root_file@)
                &&& doc.current == 0
                &&& opened_from(
                    doc.archive.entries(),
                    doc.archive.readable(),
                    doc.root_file@,
                    doc.root_base@,
                    doc.context,
                )
            },
    {
        let mut archive = archive;
        let container = match archive.get_container_file() {
            Ok(c) => c,
            Err(e) => return Err(e),
        };
        let root_file = match get_root_file(container.as_slice()) {
            Ok(p) => p,
            Err(e) => return Err(e),
        };
        let root_base = parent_dir(root_file.as_str());
        let ghost c = container@;
        assert(root_file_of(c) == Ok::<Seq<char>, ()>(root_file@));
        let mut doc = EpubDoc {
            archive,
            root_base,
            root_file,
            context: EpubMetadata::new(),
            current: 0,
        };
        assert(ordered_to_depth(doc.context.toc@, 0));
        assert forall|d: nat| #[trigger] ordered_to_depth(doc.context.toc@, d) by {}
        match doc.fill_resources() {
            Ok(()) => Ok(doc),
            Err(e) => Err(e),
        }
    }

    /// Reads and parses the package document.
    fn fill_resources(&mut self) -> (r: Result<(), ArchiveError>)
        requires
            old(self).context.wf(),
            ordered_at_every_level(old(self).context.toc@),
            old(self).context.is_empty(),
        ensures
            final(self).archive.entries() == old(self).archive.entries(),
            final(self).archive.readable() == old(self).archive.readable(),
            r is Ok <==> package_opens(
                old(self).archive.entries(),
                old(self).archive.readable(),
                old(self).root_file@,
            ),
            package_without_version(
                old(self).archive.entries(),
                old(self).archive.readable(),
                old(self).root_file@,
            ) ==> r matches Err(ArchiveError::ParsingFailure),
            r is Ok ==> package_read(
                old(self).archive.entries(),
                old(self).archive.readable(),
                old(self).root_file@,
                old(self).root_base@,
                final(self).context,
            ),
            final(self).context.wf(),
            ordered_at_every_level(final(self).context.toc@),
            final(self).root_base == old(self).root_base,
            final(self).root_file == old(self).root_file,
            final(self).current == old(self).current,
    {
        let root_container = match self.archive.get_entry(self.root_file.as_str()) {
            Ok(c) => c,
            Err(e) => return Err(e),
        };
        let txt = ensure_utf8(root_container.as_slice());
        let root = match parse_xml(txt.as_str()) {
            Ok(d) => d,
            Err(e) => return Err(ArchiveError::Xml(e)),
        };
        parse_package(&mut self.context, self.root_base.as_str(), &root, &mut self.archive)
    }

    /// Returns the content of the first metadata found with this name.
    pub fn mdata(&self, name: &str) -> (r: Option<&str>)
        ensures
            match key_pos(self.context.metadata_view(), name@) {
                Some(i) => if self.context.metadata_view()[i].1.len() > 0 {
                    r matches Some(v) && v@ == self.context.metadata_view()[i].1[0].0
                } else {
                    r is None
                },
                None => r is None,
            },
    {
        match self.context.metadata_pos(name) {
            Some(i) => {
                if self.context.metadata[i].1.len() > 0 {
                    Some(self.context.metadata[i].1[0].content.as_str())
                } else {
                    None
                }
            },
            None => None,
        }
    }

    /// Returns the first full metadata found with this name.
    pub fn mdata_full(&self, name: &str) -> (r: Option<&MetadataNode>)
        ensures
            match key_pos(self.context.metadata_view(), name@) {
                Some(i) => if self.context.metadata_view()[i].1.len() > 0 {
                    r matches Some(v) && v@ == self.context.metadata_view()[i].1[0]
                } else {
                    r is None
                },
                None => r is None,
            },
    {
        match self.context.metadata_pos(name) {
            Some(i) => {
                if self.context.metadata[i].1.len() > 0 {
                    Some(&self.context.metadata[i].1[0])
                } else {
                    None
                }
            },
            None => None,
        }
    }

    /// Returns the id of the epub cover, as the parsers resolved it.
    pub fn get_cover_id(&self) -> (r: Option<&str>)
        ensures
            match self.context.cover_id {
                Some(c) => r matches Some(v) && v@ == c@,
                None => r is None,
            },
    {
        match &self.context.cover_id {
            Some(c) => Some(c.as_str()),
            None => None,
        }
    }

    /// Returns the cover's content; none where there is no cover or it
    /// cannot be read.
    pub fn get_cover(&mut self) -> (r: Option<Vec<u8>>)
        ensures
            old(self).context.cover_id is None ==> r is None,
            r matches Some(b) ==> (old(self).context.cover_id matches Some(c) && resource_path(
                old(self).context,
                c@,
            ) matches Some(p) && entry_lookup(old(self).archive.entries(), p) == Some(b@)),
            old(self).context.cover_id matches Some(c) && resource_fetchable(
                old(self).archive.entries(),
                old(self).archive.readable(),
                old(self).context,
                c@,
            ) ==> r is Some,
            final(self).archive.readable() == old(self).archive.readable(),
            final(self).archive.entries() == old(self).archive.entries(),
            final(self).context == old(self).context,
            final(self).current == old(self).current,
    {
        let id = match &self.context.cover_id {
            Some(c) => c.clone(),
            None => return None,
        };
        self.get_resource(id.as_str())
    }

    /// Returns the ToC as found in the Epub; empty if none was found.
    pub fn get_toc(&self) -> (r: &Vec<NavPoint>)
        ensures
            r@ == self.context.toc@,
    {
        &self.context.toc
    }

    /// Returns the release identifier: the unique identifier, `@`, and the
    /// first `dcterms:modified` metadata, where there are both.
    pub fn get_release_identifier(&self) -> (r: Option<String>)
        ensures
            match (self.context.unique_identifier, key_pos(self.context.metadata_view(), "dcterms:modified"@)) {
                (Some(u), Some(i)) => if self.context.metadata_view()[i].1.len() > 0 {
                    r matches Some(s) && s@ == u@ + "@"@ + self.context.metadata_view()[i].1[0].0
                } else {
                    r is None
                },
                _ => r is None,
            },
    {
        match (&self.context.unique_identifier, self.mdata("dcterms:modified")) {
            (Some(u), Some(m)) => Some(concat3(u.as_str(), "@", m)),
            _ => None,
        }
    }

    /// Returns the content of the entry `path` in the archive.
    pub fn get_resource_by_path(&mut self, path: &str) -> (r: Result<Vec<u8>, ArchiveError>)
        ensures
            r matches Ok(b) ==> entry_lookup(old(self).archive.entries(), path@) == Some(b@),
            entry_lookup(old(self).archive.entries(), path@) is None ==> r is Err,
            r is Ok <==> entry_readable(old(self).archive.entries(), old(self).archive.readable(), path@),
            final(self).archive.readable() == old(self).archive.readable(),
            final(self).archive.entries() == old(self).archive.entries(),
            final(self).context == old(self).context,
            final(self).current == old(self).current,
    {
        self.archive.get_entry(path)
    }

    /// Returns the content of the resource `id`; none where the manifest does
    /// not list it or its entry cannot be read.
    pub fn get_resource(&mut self, id: &str) -> (r: Option<Vec<u8>>)
        ensures
            key_pos(old(self).context.resources_view(), id@) is None ==> r is None,
            r matches Some(b) ==> (resource_path(old(self).context, id@) matches Some(p)
                && entry_lookup(old(self).archive.entries(), p) == Some(b@)),
            resource_path(old(self).context, id@) matches Some(p) && entry_lookup(
                old(self).archive.entries(),
                p,
            ) is None ==> r is None,
            r is Some <==> resource_fetchable(old(self).archive.entries(), old(self).archive.readable(), old(self).context, id@),
            final(self).archive.readable() == old(self).archive.readable(),
            final(self).archive.entries() == old(self).archive.entries(),
            final(self).context == old(self).context,
            final(self).current == old(self).current,
    {
        let path = match self.context.resource(id) {
            Some(item) => item.path.clone(),
            None => return None,
        };
        match self.archive.get_entry(path.as_str()) {
            Ok(b) => Some(b),
            Err(_) => None,
        }
    }

    /// Returns the content of the entry `path` as a string.
    pub fn get_resource_str_by_path(&mut self, path: &str) -> (r: Result<String, ArchiveError>)
        ensures
            r matches Ok(s) ==> (entry_lookup(old(self).archive.entries(), path@) matches Some(b)
                && vstd::utf8::valid_utf8(b) && s@ == vstd::utf8::decode_utf8(b)),
            entry_lookup(old(self).archive.entries(), path@) is None ==> r is Err,
            entry_readable(old(self).archive.entries(), old(self).archive.readable(), path@) ==> (entry_lookup(old(self).archive.entries(), path@) matches Some(b) && (
            vstd::utf8::valid_utf8(b) <==> r is Ok)),
            final(self).archive.readable() == old(self).archive.readable(),
            final(self).archive.entries() == old(self).archive.entries(),
            final(self).context == old(self).context,
            final(self).current == old(self).current,
    {
        self.archive.get_entry_as_str(path)
    }

    /// Returns the content of the resource `id` as a string; none where the
    /// manifest does not list it or its entry cannot be read as text.
    pub fn get_resource_str(&mut self, id: &str) -> (r: Option<String>)
        ensures
            key_pos(old(self).context.resources_view(), id@) is None ==> r is None,
            r matches Some(s) ==> (resource_path(old(self).context, id@) matches Some(p)
                && entry_lookup(old(self).archive.entries(), p) matches Some(b)
                && vstd::utf8::valid_utf8(b) && s@ == vstd::utf8::decode_utf8(b)),
            resource_fetchable(old(self).archive.entries(), old(self).archive.readable(), old(self).context, id@) ==> (resource_path(
                old(self).context,
                id@,
            ) matches Some(p) && entry_lookup(old(self).archive.entries(), p) matches Some(b) && (vstd::utf8::valid_utf8(b)
                <==> r is Some)),
            final(self).archive.readable() == old(self).archive.readable(),
            final(self).archive.entries() == old(self).archive.entries(),
            final(self).context == old(self).context,
            final(self).current == old(self).current,
    {
        let path = match self.context.resource(id) {
            Some(item) => item.path.clone(),
            None => return None,
        };
        match self.archive.get_entry_as_str(path.as_str()) {
            Ok(s) => Some(s),
            Err(_) => None,
        }
    }

    /// Returns the media type of the resource `id`.
    pub fn get_resource_mime(&self, id: &str) -> (r: Option<&str>)
        ensures
            match key_pos(self.context.resources_view(), id@) {
                Some(i) => r matches Some(m) && m@ == self.context.resources_view()[i].1.1,
                None => r is None,
            },
    {
        match self.context.resource(id) {
            Some(item) => Some(item.mime.as_str()),
            None => None,
        }
    }

    /// Returns the media type of the first resource whose path is `path`.
    pub fn get_resource_mime_by_path(&self, path: &str) -> (r: Option<&str>)
        ensures
            match path_pos_from(self.context.resources_view(), path@, 0) {
                Some(i) => r matches Some(m) && m@ == self.context.resources_view()[i].1.1,
                None => r is None,
            },
    {
        match self.resource_pos_by_path(path) {
            Some(i) => Some(self.context.resources[i].1.mime.as_str()),
            None => None,
        }
    }

    fn resource_pos_by_path(&self, path: &str) -> (r: Option<usize>)
        ensures
            match r {
                Some(i) => i < self.context.resources@.len() && path_pos_from(
                    self.context.resources_view(),
                    path@,
                    0,
                ) == Some(i as int),
                None => path_pos_from(self.context.resources_view(), path@, 0) is None,
            },
    {
        let mut i: usize = 0;
        while i < self.context.resources.len()
            invariant
                i <= self.context.resources@.len(),
                path_pos_from(self.context.resources_view(), path@, 0) == path_pos_from(
                    self.context.resources_view(),
                    path@,
                    i as int,
                ),
            decreases self.context.resources@.len() - i,
        {
            if str_eq(self.context.resources[i].1.path.as_str(), path) {
                return Some(i);
            }
            i += 1;
        }
        None
    }

    /// Returns the chapter `spine_id` with the references of its links and
    /// images rewritten so that they start with `url_prepend` and are
    /// relative to the archive root (see `rewrite_page`). Fails with
    /// `InvalidId` where the manifest does not list `spine_id`.
    pub fn get_page_with_epub_uris(&mut self, spine_id: &str, url_prepend: &str) -> (r: Result<
        Vec<u8>,
        ArchiveError,
    >)
        ensures
            key_pos(old(self).context.resources_view(), spine_id@) is None <==> r matches Err(
                ArchiveError::InvalidId,
            ),
            r matches Ok(b) ==> (resource_path(old(self).context, spine_id@) matches Some(p)
                && entry_lookup(old(self).archive.entries(), p) matches Some(raw)
                && page_rewritten(utf8_text(raw), p, url_prepend@) matches Some(t)
                && b@ == vstd::utf8::encode_utf8(t)),
            resource_path(old(self).context, spine_id@) matches Some(p) && entry_lookup(
                old(self).archive.entries(),
                p,
            ) is None ==> r is Err,
            r matches Err(e) ==> e is InvalidId || e is Zip || e is IO || e is Utf8 || e is Xml,
            resource_fetchable(old(self).archive.entries(), old(self).archive.readable(), old(self).context, spine_id@) ==> (resource_path(
                old(self).context,
                spine_id@,
            ) matches Some(p) && entry_lookup(old(self).archive.entries(), p) matches Some(raw) && (page_rewritten(
                utf8_text(raw),
                p,
                url_prepend@,
            ) is Some ==> r is Ok)),
            final(self).archive.readable() == old(self).archive.readable(),
            final(self).archive.entries() == old(self).archive.entries(),
            final(self).context == old(self).context,
            final(self).current == old(self).current,
    {
        let path = match self.context.resource(spine_id) {
            Some(item) => item.path.clone(),
            None => return Err(ArchiveError::InvalidId),
        };
        let html = match self.archive.get_entry(path.as_str()) {
            Ok(b) => b,
            Err(e) => return Err(e),
        };
        let content = ensure_utf8(html.as_slice());
        match rewrite_page(content.as_str(), path.as_str(), url_prepend) {
            Ok(s) => Ok(vstd::slice::slice_to_vec(s.as_str().as_bytes())),
            Err(e) => Err(ArchiveError::Xml(e)),
        }
    }

    /// Returns the number of chapters
    pub fn get_num_pages(&self) -> (r: usize)
        ensures
            r == self.context.spine@.len(),
    {
        self.context.spine.len()
    }

    /// The spine position of the first resource whose path is `uri`; none
    /// where no resource has that path or it is not in the spine.
    pub fn resource_uri_to_chapter(&self, uri: &str) -> (r: Option<usize>)
        ensures
            match path_pos_from(self.context.resources_view(), uri@, 0) {
                Some(i) => opt_index(r) == spine_pos(
                    self.context.spine_view(),
                    self.context.resources_view()[i].0,
                ),
                None => r is None,
            },
    {
        match self.resource_pos_by_path(uri) {
            Some(i) => self.resource_id_to_chapter(self.context.resources[i].0.as_str()),
            None => None,
        }
    }

    /// The first spine position of the resource `id`.
    pub fn resource_id_to_chapter(&self, id: &str) -> (r: Option<usize>)
        ensures
            opt_index(r) == spine_pos(self.context.spine_view(), id@),
            r matches Some(i) ==> i < self.context.spine@.len(),
    {
        let mut i: usize = 0;
        while i < self.context.spine.len()
            invariant
                i <= self.context.spine@.len(),
                spine_pos(self.context.spine_view(), id@) == spine_pos_from(
                    self.context.spine_view(),
                    id@,
                    i as int,
                ),
            decreases self.context.spine@.len() - i,
        {
            if str_eq(self.context.spine[i].as_str(), id) {
                return Some(i);
            }
            i += 1;
        }
        None
    }

    /// The resource id at spine position `index`.
    pub fn id_at_spine_index(&self, index: usize) -> (r: Option<&str>)
        ensures
            index < self.context.spine@.len() ==> (r matches Some(s) && s@ == self.context.spine_view()[index as int]),
            index >= self.context.spine@.len() ==> r is None,
    {
        if index < self.context.spine.len() {
            Some(self.context.spine[index].as_str())
        } else {
            None
        }
    }

    /// The current position in the spine.
    pub fn get_current_chapter(&self) -> (r: usize)
        ensures
            r == self.current,
    {
        self.current
    }

    /// The resource id at the current position.
    pub fn get_current_id(&self) -> (r: Option<&str>)
        ensures
            self.current < self.context.spine@.len() ==> (r matches Some(s) && s@ == self.context.spine_view()[self.current as int]),
            self.current >= self.context.spine@.len() ==> r is None,
    {
        self.id_at_spine_index(self.current)
    }

    /// The content of the resource at the current position, as a string.
    pub fn get_current_str(&mut self) -> (r: Option<String>)
        ensures
            r is Some ==> old(self).current < old(self).context.spine@.len(),
            r matches Some(s) ==> (resource_path(
                old(self).context,
                old(self).context.spine_view()[old(self).current as int],
            ) matches Some(p) && entry_lookup(old(self).archive.entries(), p) matches Some(b)
                && vstd::utf8::valid_utf8(b) && s@ == vstd::utf8::decode_utf8(b)),
            old(self).current < old(self).context.spine@.len() && resource_fetchable(
                old(self).archive.entries(),
                old(self).archive.readable(),
                old(self).context,
                old(self).context.spine_view()[old(self).current as int],
            ) ==> (resource_path(
                old(self).context,
                old(self).context.spine_view()[old(self).current as int],
            ) matches Some(p) && entry_lookup(old(self).archive.entries(), p) matches Some(b) && (vstd::utf8::valid_utf8(b)
                <==> r is Some)),
            final(self).archive.readable() == old(self).archive.readable(),
            final(self).archive.entries() == old(self).archive.entries(),
            final(self).context == old(self).context,
            final(self).current == old(self).current,
    {
        if self.current < self.context.spine.len() {
            let id = self.context.spine[self.current].clone();
            self.get_resource_str(id.as_str())
        } else {
            None
        }
    }

    /// Moves to the next chapter; fails, staying where it is, at the last.
    pub fn go_next(&mut self) -> (r: bool)
        ensures
            r == (old(self).current + 1 < old(self).context.spine@.len()),
            r ==> final(self).current == old(self).current + 1,
            !r ==> final(self).current == old(self).current,
            final(self).context == old(self).context,
    {
        if self.current < self.context.spine.len() && self.current + 1 < self.context.spine.len() {
            self.current = self.current + 1;
            true
        } else {
            false
        }
    }

    /// Moves to the previous chapter; fails, staying where it is, at the first.
    pub fn go_prev(&mut self) -> (r: bool)
        ensures
            r == (old(self).current > 0),
            r ==> final(self).current == old(self).current - 1,
            !r ==> final(self).current == old(self).current,
            final(self).context == old(self).context,
    {
        if self.current > 0 {
            self.current = self.current - 1;
            true
        } else {
            false
        }
    }

    /// Moves to chapter `n`; fails, staying where it is, where `n` is past the
    /// end of the spine.
    pub fn set_current_chapter(&mut self, n: usize) -> (r: bool)
        ensures
            r == (n < old(self).context.spine@.len()),
            r ==> final(self).current == n,
            !r ==> final(self).current == old(self).current,
            final(self).context == old(self).context,
    {
        if n < self.context.spine.len() {
            self.current = n;
            true
        } else {
            false
        }
    }
}

/// An optional index as a mathematical integer.
pub open spec fn opt_index(o: Option<usize>) -> Option<int> {
    match o {
        Some(x) => Some(x as int),
        None => None,
    }
}

proof fn lemma_spine_pos_from(spine: Seq<Seq<char>>, id: Seq<char>, i: int)
    requires
        0 <= i,
    ensures
        spine_pos_from(spine, id, i) matches Some(j) ==> i <= j < spine.len() && spine[j] == id,
        spine_pos_from(spine, id, i) is None ==> forall|m: int| i <= m < spine.len() ==> spine[m] != id,
        forall|m: int| i <= m < spine.len() && spine[m] == id ==> (spine_pos_from(spine, id, i) matches Some(j) && j <= m),
    decreases spine.len() - i,
{
    if i < spine.len() && spine[i] != id {
        lemma_spine_pos_from(spine, id, i + 1);
    }
}

/// Spine positions and ids convert into each other: the id found at a
/// position is at that position, and where no id occurs twice, the position
/// of the id at position `i` is `i`.
pub proof fn lemma_spine_round_trip(spine: Seq<Seq<char>>, id: Seq<char>, i: int)
    requires
        0 <= i < spine.len(),
        forall|a: int, b: int| 0 <= a < b < spine.len() ==> spine[a] != spine[b],
    ensures
        spine_pos(spine, spine[i]) == Some(i),
        spine_pos(spine, id) matches Some(j) ==> 0 <= j < spine.len() && spine[j] == id,
{
    lemma_spine_pos_from(spine, spine[i], 0);
    lemma_spine_pos_from(spine, id, 0);
}

} // verus!
