//! Parsers for the different Epub versions, and the context they fill.
//!
//! Whilst slightly inefficient, all the parsers before and including the
//! declared version are run: the version 2 pass always, the version 3 pass
//! unless the package declares version "2.0". This keeps the most
//! compatibility, whilst modified parts of the spec can be implemented
//! without compatibility crud.
use vstd::prelude::*;

use crate::doc::{MetadataNode, MetadataView, NavPoint, ResourceItem, ResourceView};
use crate::archive::EpubArchive;
use crate::doc::ordered_at_every_level;
use crate::error::ArchiveError;
use crate::parsers::v2::{
    cover_after, declared_uid, manifest_entry, identifier_after, locate, metadata_after, resources_after,
    spine_refs, EpubV2Parser,
};
use crate::parsers::v2::legacy_toc_after;
use crate::parsers::v3::{first_with_property, nav_toc_after, with_property_from, EpubV3Parser};
use crate::text::str_eq;
use crate::utils::convert_path_separators;
use crate::xmlutils::{attr_of, children_of, first_element_from, NodeView, XmlDocument};

pub mod v2;
pub mod v3;

verus! {

// ---------------------------------------------------------------------------
// Tables keyed by string, in order of first insertion
// ---------------------------------------------------------------------------

/// The position of the first entry at or after `i` whose key is `k`.
pub open spec fn key_pos_from<V>(t: Seq<(Seq<char>, V)>, k: Seq<char>, i: int) -> Option<int>
    decreases t.len() - i,
{
    if i < 0 || i >= t.len() {
        None
    } else if t[i].0 == k {
        Some(i)
    } else {
        key_pos_from(t, k, i + 1)
    }
}

/// The position of the entry whose key is `k`.
pub open spec fn key_pos<V>(t: Seq<(Seq<char>, V)>, k: Seq<char>) -> Option<int> {
    key_pos_from(t, k, 0)
}

/// Whether no two entries share a key.
pub open spec fn keys_unique<V>(t: Seq<(Seq<char>, V)>) -> bool {
    forall|i: int, j: int| 0 <= i < j < t.len() ==> t[i].0 != t[j].0
}

/// `t` with `v` stored under `k`: in place of the value that `k` had, or as
/// a new last entry.
pub open spec fn upsert<V>(t: Seq<(Seq<char>, V)>, k: Seq<char>, v: V) -> Seq<(Seq<char>, V)> {
    match key_pos(t, k) {
        Some(i) => t.update(i, (k, v)),
        None => t.push((k, v)),
    }
}

/// `t` with `v` appended to the list under `k`, a new list where `k` had none.
pub open spec fn append_under<V>(t: Seq<(Seq<char>, Seq<V>)>, k: Seq<char>, v: V) -> Seq<
    (Seq<char>, Seq<V>),
> {
    match key_pos(t, k) {
        Some(i) => t.update(i, (k, t[i].1.push(v))),
        None => t.push((k, seq![v])),
    }
}

pub proof fn lemma_key_pos_from<V>(t: Seq<(Seq<char>, V)>, k: Seq<char>, i: int)
    requires
        0 <= i,
    ensures
        key_pos_from(t, k, i) matches Some(j) ==> i <= j < t.len() && t[j].0 == k && forall|m: int|
            i <= m < j ==> t[m].0 != k,
        key_pos_from(t, k, i) is None ==> forall|m: int| i <= m < t.len() ==> t[m].0 != k,
    decreases t.len() - i,
{
    if i < t.len() && t[i].0 != k {
        lemma_key_pos_from(t, k, i + 1);
    }
}

/// Storing under a key keeps the keys unique.
pub proof fn lemma_upsert_unique<V>(t: Seq<(Seq<char>, V)>, k: Seq<char>, v: V)
    requires
        keys_unique(t),
    ensures
        keys_unique(upsert(t, k, v)),
{
    lemma_key_pos_from(t, k, 0);
}

// ---------------------------------------------------------------------------
// The context
// ---------------------------------------------------------------------------

/// Everything that parsing the package gives: spine, resources, table of
/// contents, metadata, cover and unique identifier.
///
/// `resources` and `metadata` are tables whose keys are unique; their entries
/// stand in the order in which each key was first met in the package.
#[derive(Debug)]
pub struct EpubMetadata {
    /// epub spine ids
    pub spine: Vec<String>,
    /// resource id -> (path, mime, property)
    pub resources: Vec<(String, ResourceItem)>,
    /// table of content, list of `NavPoint`
    pub toc: Vec<NavPoint>,
    /// The epub metadata stored as key -> values, in document order
    pub metadata: Vec<(String, Vec<MetadataNode>)>,
    /// Cover Id
    pub cover_id: Option<String>,
    /// unique identifier
    pub unique_identifier: Option<String>,
}

/// The resource table as a mathematical value.
pub open spec fn resource_table(t: Seq<(String, ResourceItem)>) -> Seq<(Seq<char>, ResourceView)> {
    t.map_values(|e: (String, ResourceItem)| (e.0@, e.1@))
}

/// The metadata table as a mathematical value.
pub open spec fn metadata_table(t: Seq<(String, Vec<MetadataNode>)>) -> Seq<
    (Seq<char>, Seq<MetadataView>),
> {
    t.map_values(
        |e: (String, Vec<MetadataNode>)| (e.0@, e.1@.map_values(|m: MetadataNode| m@)),
    )
}

/// The spine as a mathematical value.
pub open spec fn spine_ids(s: Seq<String>) -> Seq<Seq<char>> {
    s.map_values(|x: String| x@)
}

impl EpubMetadata {
    pub open spec fn resources_view(&self) -> Seq<(Seq<char>, ResourceView)> {
        resource_table(self.resources@)
    }

    pub open spec fn metadata_view(&self) -> Seq<(Seq<char>, Seq<MetadataView>)> {
        metadata_table(self.metadata@)
    }

    pub open spec fn spine_view(&self) -> Seq<Seq<char>> {
        spine_ids(self.spine@)
    }

    /// The keys of both tables are unique.
    pub open spec fn wf(&self) -> bool {
        &&& keys_unique(self.resources_view())
        &&& keys_unique(self.metadata_view())
    }

    /// Whether nothing has been parsed into the context yet.
    pub open spec fn is_empty(&self) -> bool {
        &&& self.spine@.len() == 0
        &&& self.resources@.len() == 0
        &&& self.toc@.len() == 0
        &&& self.metadata@.len() == 0
        &&& self.cover_id is None
        &&& self.unique_identifier is None
    }

    /// An empty context.
    pub fn new() -> (r: EpubMetadata)
        ensures
            r.wf(),
            r.is_empty(),
            r.spine@.len() == 0,
            r.resources@.len() == 0,
            r.toc@.len() == 0,
            r.metadata@.len() == 0,
            r.cover_id is None,
            r.unique_identifier is None,
    {
        EpubMetadata {
            spine: Vec::new(),
            resources: Vec::new(),
            toc: Vec::new(),
            metadata: Vec::new(),
            cover_id: None,
            unique_identifier: None,
        }
    }

    /// The position in `resources` of the resource `id`.
    pub fn resource_pos(&self, id: &str) -> (r: Option<usize>)
        ensures
            opt_pos(r) == key_pos(self.resources_view(), id@),
            r matches Some(i) ==> i < self.resources@.len(),
    {
        let mut i: usize = 0;
        while i < self.resources.len()
            invariant
                i <= self.resources@.len(),
                key_pos(self.resources_view(), id@) == key_pos_from(
                    self.resources_view(),
                    id@,
                    i as int,
                ),
            decreases self.resources@.len() - i,
        {
            if str_eq(self.resources[i].0.as_str(), id) {
                return Some(i);
            }
            i += 1;
        }
        None
    }

    /// The resource `id`, if the manifest lists it.
    pub fn resource(&self, id: &str) -> (r: Option<&ResourceItem>)
        ensures
            match key_pos(self.resources_view(), id@) {
                Some(i) => r matches Some(item) && item@ == self.resources_view()[i].1,
                None => r is None,
            },
    {
        match self.resource_pos(id) {
            Some(i) => Some(&self.resources[i].1),
            None => None,
        }
    }

    /// The first resource, in manifest order, whose path is `path`.
    pub fn resource_by_path(&self, path: &str) -> (r: Option<&ResourceItem>)
        ensures
            match crate::doc::path_pos_from(self.resources_view(), path@, 0) {
                Some(i) => r matches Some(item) && item@ == self.resources_view()[i].1,
                None => r is None,
            },
    {
        let mut i: usize = 0;
        while i < self.resources.len()
            invariant
                i <= self.resources@.len(),
                crate::doc::path_pos_from(self.resources_view(), path@, 0)
                    == crate::doc::path_pos_from(self.resources_view(), path@, i as int),
            decreases self.resources@.len() - i,
        {
            if str_eq(self.resources[i].1.path.as_str(), path) {
                return Some(&self.resources[i].1);
            }
            i += 1;
        }
        None
    }

    /// The position in `metadata` of the key `key`.
    pub fn metadata_pos(&self, key: &str) -> (r: Option<usize>)
        ensures
            opt_pos(r) == key_pos(self.metadata_view(), key@),
            r matches Some(i) ==> i < self.metadata@.len(),
    {
        let mut i: usize = 0;
        while i < self.metadata.len()
            invariant
                i <= self.metadata@.len(),
                key_pos(self.metadata_view(), key@) == key_pos_from(
                    self.metadata_view(),
                    key@,
                    i as int,
                ),
            decreases self.metadata@.len() - i,
        {
            if str_eq(self.metadata[i].0.as_str(), key) {
                return Some(i);
            }
            i += 1;
        }
        None
    }

    /// Stores `item` under `id`, replacing an earlier resource of that id.
    pub fn store_resource(&mut self, id: String, item: ResourceItem)
        requires
            old(self).wf(),
        ensures
            final(self).wf(),
            final(self).resources_view() == upsert(old(self).resources_view(), id@, item@),
            final(self).metadata == old(self).metadata,
            final(self).spine == old(self).spine,
            final(self).toc == old(self).toc,
            final(self).cover_id == old(self).cover_id,
            final(self).unique_identifier == old(self).unique_identifier,
    {
        proof {
            lemma_upsert_unique(self.resources_view(), id@, item@);
        }
        let ghost before = self.resources_view();
        match self.resource_pos(id.as_str()) {
            Some(i) => {
                self.resources[i] = (id, item);
                assert(self.resources_view() =~= before.update(i as int, (id@, item@)));
            },
            None => {
                self.resources.push((id, item));
                assert(self.resources_view() =~= before.push((id@, item@)));
            },
        }
    }

    /// Stores the resource that manifest child `item` declares, if it has an
    /// `id`, an `href` and a `media-type`.
    pub fn insert_resource(&mut self, root_base: &str, xml: &XmlDocument, item: usize) -> (r: Option<()>)
        requires
            old(self).wf(),
            item < xml@.len(),
        ensures
            r is Some <==> manifest_entry(xml@, item as int, root_base@) is Some,
            final(self).wf(),
            final(self).resources_view() == match manifest_entry(xml@, item as int, root_base@) {
                Some(e) => upsert(old(self).resources_view(), e.0, e.1),
                None => old(self).resources_view(),
            },
            final(self).spine == old(self).spine,
            final(self).metadata == old(self).metadata,
            final(self).toc == old(self).toc,
            final(self).cover_id == old(self).cover_id,
            final(self).unique_identifier == old(self).unique_identifier,
    {
        let id = match xml.attr(item, "id") {
            Some(v) => v,
            None => return None,
        };
        let href = match xml.attr(item, "href") {
            Some(v) => v,
            None => return None,
        };
        let mime = match xml.attr(item, "media-type") {
            Some(v) => v,
            None => return None,
        };
        let path = convert_path_separators(root_base, href.as_str());
        let property = xml.attr(item, "properties");
        self.store_resource(id, ResourceItem { path, mime, property });
        Some(())
    }

    /// Appends `node` to the values under `key`.
    pub fn push_metadata(&mut self, key: String, node: MetadataNode)
        requires
            old(self).wf(),
        ensures
            final(self).wf(),
            final(self).metadata_view() == append_under(old(self).metadata_view(), key@, node@),
            final(self).resources == old(self).resources,
            final(self).spine == old(self).spine,
            final(self).toc == old(self).toc,
            final(self).cover_id == old(self).cover_id,
            final(self).unique_identifier == old(self).unique_identifier,
    {
        let ghost before = self.metadata_view();
        proof {
            lemma_key_pos_from(before, key@, 0);
            assert(forall|i: int, j: int|
                0 <= i < j < before.len() ==> before[i].0 != before[j].0);
            assert(keys_unique(append_under(before, key@, node@)));
        }
        match self.metadata_pos(key.as_str()) {
            Some(i) => {
                self.metadata[i].1.push(node);
                assert(self.metadata@[i as int].1@.map_values(|m: MetadataNode| m@)
                    =~= before[i as int].1.push(node@));
                assert(self.metadata_view() =~= before.update(
                    i as int,
                    (key@, before[i as int].1.push(node@)),
                ));
            },
            None => {
                let mut list: Vec<MetadataNode> = Vec::new();
                list.push(node);
                self.metadata.push((key, list));
                assert(self.metadata@.last().1@.map_values(|m: MetadataNode| m@) =~= seq![node@]);
                assert(self.metadata_view() =~= before.push((key@, seq![node@])));
            },
        }
    }
}

/// An optional position as a mathematical integer.
pub open spec fn opt_pos(o: Option<usize>) -> Option<int> {
    match o {
        Some(x) => Some(x as int),
        None => None,
    }
}

/// The cover that the two passes settle on: the first `cover` metadata entry
/// where there is one, else the first resource with the `cover-image`
/// property, else none.
pub open spec fn resolved_cover(
    meta: Seq<(Seq<char>, Seq<MetadataView>)>,
    res: Seq<(Seq<char>, ResourceView)>,
) -> Option<Seq<char>> {
    match cover_after(None, meta) {
        Some(c) => Some(c),
        None => first_with_property(res, "cover-image"@),
    }
}

/// The `version` that the root element of the package declares.
pub open spec fn package_version(nodes: Seq<NodeView>) -> Option<Seq<char>> {
    match first_element_from(nodes, 0) {
        Some(r) => attr_of(nodes[r].4, "version"@),
        None => None,
    }
}

/// Whether `t2` is a table of contents that the version 2 pass may leave:
/// empty where the spine names no navigation-control document, else what
/// reading that document may give.
pub open spec fn legacy_toc(
    t2: Seq<NavPoint>,
    entries: Map<Seq<char>, Seq<u8>>,
    rd: Set<Seq<char>>,
    nodes: Seq<NodeView>,
    res: Seq<(Seq<char>, ResourceView)>,
    base: Seq<char>,
) -> bool {
    match attr_of(nodes[locate(nodes, "spine"@)->0].4, "toc"@) {
        None => t2 == Seq::<NavPoint>::empty(),
        Some(t) => legacy_toc_after(Seq::empty(), t2, entries, rd, res, t, base),
    }
}

/// Whether `toc` is a table of contents that the two passes may build: the
/// one of the version 2 pass, and, where that is empty and the package is not
/// of version "2.0", what reading the navigation document may give.
pub open spec fn toc_built(
    toc: Seq<NavPoint>,
    entries: Map<Seq<char>, Seq<u8>>,
    rd: Set<Seq<char>>,
    nodes: Seq<NodeView>,
    res: Seq<(Seq<char>, ResourceView)>,
    base: Seq<char>,
) -> bool {
    exists|t2: Seq<NavPoint>|
        #[trigger] legacy_toc(t2, entries, rd, nodes, res, base) && if package_version(nodes) == Some(
            "2.0"@,
        ) || t2.len() > 0 {
            toc == t2
        } else {
            match with_property_from(res, "nav"@, 0) {
                Some(i) => nav_toc_after(t2, toc, entries, rd, res, res[i].0, base),
                None => toc == t2,
            }
        }
}

/// Whether `ctx` is what parsing the package `nodes` with base directory
/// `base` gives, starting from an empty context, with the entries `entries`
/// of the archive at hand.
pub open spec fn package_parsed(
    ctx: EpubMetadata,
    entries: Map<Seq<char>, Seq<u8>>,
    rd: Set<Seq<char>>,
    nodes: Seq<NodeView>,
    base: Seq<char>,
) -> bool {
    &&& package_version(nodes) is Some
    &&& locate(nodes, "manifest"@) is Some
    &&& locate(nodes, "spine"@) is Some
    &&& locate(nodes, "metadata"@) is Some
    &&& ctx.wf()
    &&& ordered_at_every_level(ctx.toc@)
    &&& toc_built(ctx.toc@, entries, rd, nodes, ctx.resources_view(), base)
    &&& ctx.resources_view() == resources_after(
        Seq::empty(),
        nodes,
        children_of(nodes, locate(nodes, "manifest"@)->0),
        base,
    )
    &&& ctx.spine_view() == spine_refs(nodes, children_of(nodes, locate(nodes, "spine"@)->0))
    &&& ctx.metadata_view() == metadata_after(
        Seq::empty(),
        nodes,
        children_of(nodes, locate(nodes, "metadata"@)->0),
    )
    &&& ctx.unique_identifier.deep_view() == identifier_after(
        None,
        nodes,
        children_of(nodes, locate(nodes, "metadata"@)->0),
        declared_uid(nodes),
    )
    &&& ctx.cover_id.deep_view() == if package_version(nodes) == Some("2.0"@) {
        cover_after(None, ctx.metadata_view())
    } else {
        resolved_cover(ctx.metadata_view(), ctx.resources_view())
    }
}

/// Runs the version 2 pass over the package `xml`, then the version 3 pass
/// unless the package declares version "2.0". Fails with `ParsingFailure`
/// where the package declares no version or lacks a `manifest`, `spine` or
/// `metadata`.
pub fn parse_package(
    epub: &mut EpubMetadata,
    root_base: &str,
    xml: &XmlDocument,
    archive: &mut EpubArchive,
) -> (r: Result<(), ArchiveError>)
    requires
        old(epub).wf(),
        ordered_at_every_level(old(epub).toc@),
        old(epub).cover_id is None,
    ensures
        final(archive).entries() == old(archive).entries(),
            final(archive).readable() == old(archive).readable(),
        final(epub).wf(),
        ordered_at_every_level(final(epub).toc@),
        r is Ok <==> package_version(xml@) is Some && locate(xml@, "manifest"@) is Some && locate(
            xml@,
            "spine"@,
        ) is Some && locate(xml@, "metadata"@) is Some,
        r is Err ==> r matches Err(ArchiveError::ParsingFailure),
        r is Ok ==> {
            &&& final(epub).resources_view() == resources_after(
                old(epub).resources_view(),
                xml@,
                children_of(xml@, locate(xml@, "manifest"@)->0),
                root_base@,
            )
            &&& final(epub).spine_view() == old(epub).spine_view() + spine_refs(
                xml@,
                children_of(xml@, locate(xml@, "spine"@)->0),
            )
            &&& final(epub).metadata_view() == metadata_after(
                old(epub).metadata_view(),
                xml@,
                children_of(xml@, locate(xml@, "metadata"@)->0),
            )
            &&& final(epub).unique_identifier.deep_view() == identifier_after(
                old(epub).unique_identifier.deep_view(),
                xml@,
                children_of(xml@, locate(xml@, "metadata"@)->0),
                declared_uid(xml@),
            )
            &&& final(epub).cover_id.deep_view() == if package_version(xml@) == Some("2.0"@) {
                cover_after(None, final(epub).metadata_view())
            } else {
                resolved_cover(final(epub).metadata_view(), final(epub).resources_view())
            }
        },
        r is Ok && old(epub).is_empty() ==> package_parsed(
            *final(epub),
            old(archive).entries(),
            old(archive).readable(),
            xml@,
            root_base@,
        ),
{
    let version = match xml.root_element() {
        Some(root) => xml.attr(root, "version"),
        None => None,
    };
    let version = match version {
        Some(v) => v,
        None => return Err(ArchiveError::ParsingFailure),
    };
    match EpubV2Parser::parse(epub, root_base, xml, archive) {
        Ok(()) => {},
        Err(e) => return Err(e),
    }
    let ghost t2 = epub.toc@;
    proof {
        reveal_strlit("2.0");
        if old(epub).is_empty() {
            assert(old(epub).toc@ =~= Seq::<NavPoint>::empty());
            assert(legacy_toc(t2, old(archive).entries(), old(archive).readable(), xml@, epub.resources_view(), root_base@));
        }
    }
    if !str_eq(version.as_str(), "2.0") {
        let _ = EpubV3Parser::parse(epub, root_base, archive);
    }
    proof {
        if old(epub).is_empty() {
            assert(old(epub).resources_view() =~= Seq::<(Seq<char>, ResourceView)>::empty());
            assert(old(epub).metadata_view() =~= Seq::<(Seq<char>, Seq<MetadataView>)>::empty());
            assert(old(epub).spine_view() =~= Seq::<Seq<char>>::empty());
            assert(spine_refs(xml@, children_of(xml@, locate(xml@, "spine"@)->0)) =~= Seq::<Seq<char>>::empty() + spine_refs(xml@, children_of(xml@, locate(xml@, "spine"@)->0)));
        }
    }
    Ok(())
}

/// Cover resolution priority: a `cover` metadata entry decides the cover;
/// without one, the first resource with the `cover-image` property does;
/// with neither there is no cover.
pub proof fn lemma_cover_priority(
    meta: Seq<(Seq<char>, Seq<MetadataView>)>,
    res: Seq<(Seq<char>, ResourceView)>,
)
    ensures
        forall|i: int|
            key_pos(meta, "cover"@) == Some(i) && meta[i].1.len() > 0 ==> resolved_cover(meta, res)
                == Some(#[trigger] meta[i].1[0].0),
        key_pos(meta, "cover"@) is None ==> resolved_cover(meta, res) == first_with_property(
            res,
            "cover-image"@,
        ),
        key_pos(meta, "cover"@) is None && crate::parsers::v3::with_property_from(
            res,
            "cover-image"@,
            0,
        ) is None ==> resolved_cover(meta, res) is None,
{
}

} // verus!
