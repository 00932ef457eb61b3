//! The version 3 pass: cover and table of contents from the properties of
//! manifest items, where the version 2 pass found none.
use vstd::prelude::*;

use crate::archive::EpubArchive;
use crate::doc::{ordered_at_every_level, ordered_to_depth, sorted_by_play_order, NavPoint, ResourceView};
use crate::error::ArchiveError;
use crate::parsers::v2::{merge_toc, toc_document};
use crate::parsers::EpubMetadata;
use crate::text::str_eq;
use crate::parsers::v2::{min_int, min_usize};
use crate::utils::{convert_path_separators, joined, percent_decode, percent_decoded};
use crate::xmlutils::{
    all_tagged_from, as_ints, attr_of, ensure_utf8, parse_xml, subtree_end, NodeView, XmlDocument,
};

verus! {

/// The version 3 pass.
pub struct EpubV3Parser;

/// The position of the first resource at or after `i` whose property is `p`.
pub open spec fn with_property_from(t: Seq<(Seq<char>, ResourceView)>, p: Seq<char>, i: int) -> Option<
    int,
>
    decreases t.len() - i,
{
    if i < 0 || i >= t.len() {
        None
    } else if t[i].1.2 == Some(p) {
        Some(i)
    } else {
        with_property_from(t, p, i + 1)
    }
}

/// The id of the first resource, in manifest order, whose property is `p`.
pub open spec fn first_with_property(t: Seq<(Seq<char>, ResourceView)>, p: Seq<char>) -> Option<
    Seq<char>,
> {
    match with_property_from(t, p, 0) {
        Some(i) => Some(t[i].0),
        None => None,
    }
}

/// The position of the first resource whose property is `p`.
fn find_with_property(epub: &EpubMetadata, p: &str) -> (r: Option<usize>)
    ensures
        match r {
            Some(i) => i < epub.resources@.len() && with_property_from(epub.resources_view(), p@, 0)
                == Some(i as int),
            None => with_property_from(epub.resources_view(), p@, 0) is None,
        },
{
    let mut i: usize = 0;
    while i < epub.resources.len()
        invariant
            i <= epub.resources@.len(),
            with_property_from(epub.resources_view(), p@, 0) == with_property_from(
                epub.resources_view(),
                p@,
                i as int,
            ),
        decreases epub.resources@.len() - i,
    {
        match &epub.resources[i].1.property {
            Some(q) => {
                if str_eq(q.as_str(), p) {
                    return Some(i);
                }
            },
            None => {},
        }
        i += 1;
    }
    None
}

/// The first of the `nav` elements `navs`, from position `k` on, whose
/// `type` is `toc`.
pub open spec fn toc_nav_from(nodes: Seq<NodeView>, navs: Seq<int>, k: int) -> Option<int>
    decreases navs.len() - k,
{
    if k < 0 || k >= navs.len() {
        None
    } else if attr_of(nodes[navs[k]].4, "type"@) == Some("toc"@) {
        Some(navs[k])
    } else {
        toc_nav_from(nodes, navs, k + 1)
    }
}

/// The first `nav` element of the document whose `type` is `toc`.
pub open spec fn toc_nav(nodes: Seq<NodeView>) -> Option<int> {
    toc_nav_from(nodes, all_tagged_from(nodes, "nav"@, 0, nodes.len() as int), 0)
}

/// Whether the table of contents `new` is what reading the navigation
/// document `id` may leave of `old`: unchanged, or, where that document has
/// a `nav` of type `toc`, `old` together with the points of that `nav`,
/// sorted.
pub open spec fn nav_toc_after(
    old_toc: Seq<NavPoint>,
    new_toc: Seq<NavPoint>,
    entries: Map<Seq<char>, Seq<u8>>,
    rd: Set<Seq<char>>,
    res: Seq<(Seq<char>, ResourceView)>,
    id: Seq<char>,
    base: Seq<char>,
) -> bool {
    match toc_document(entries, rd, res, id) {
        Some(nodes) => match toc_nav(nodes) {
            Some(n) => exists|pts: Seq<NavPoint>|
                #[trigger] v3_points(nodes, n, nodes.len() as int, base, pts) && new_toc.to_multiset()
                    == (old_toc + pts).to_multiset(),
            None => new_toc == old_toc,
        },
        None => new_toc == old_toc,
    }
}

impl EpubV3Parser {
    /// The version 3 pass. Where no cover was found, the first resource with
    /// the `cover-image` property is the cover; where the table of contents is
    /// empty, it is read from the navigation document, the first resource with
    /// the `nav` property. A navigation document that cannot be read leaves the
    /// table empty.
    pub fn parse(
        epub: &mut EpubMetadata,
        root_base: &str,
        archive: &mut EpubArchive,
    ) -> (r: Result<(), ArchiveError>)
        requires
            ordered_at_every_level(old(epub).toc@),
        ensures
            final(archive).entries() == old(archive).entries(),
            final(archive).readable() == old(archive).readable(),
            r is Ok,
            ordered_at_every_level(final(epub).toc@),
            final(epub).cover_id.deep_view() == match old(epub).cover_id {
                Some(c) => Some(c@),
                None => first_with_property(old(epub).resources_view(), "cover-image"@),
            },
            old(epub).toc@.len() > 0 ==> final(epub).toc@ == old(epub).toc@,
            old(epub).toc@.len() == 0 ==> match with_property_from(old(epub).resources_view(), "nav"@, 0) {
                Some(i) => nav_toc_after(
                    old(epub).toc@,
                    final(epub).toc@,
                    old(archive).entries(),
                    old(archive).readable(),
                    old(epub).resources_view(),
                    old(epub).resources_view()[i].0,
                    root_base@,
                ),
                None => final(epub).toc@ == old(epub).toc@,
            },
            final(epub).resources == old(epub).resources,
            final(epub).metadata == old(epub).metadata,
            final(epub).spine == old(epub).spine,
            final(epub).unique_identifier == old(epub).unique_identifier,
    {
        // Cover
        if epub.cover_id.is_none() {
            match find_with_property(epub, "cover-image") {
                Some(i) => {
                    epub.cover_id = Some(epub.resources[i].0.clone());
                },
                None => {},
            }
        }
        // ToC, only done if the book didn't contain a V2 fallback
        if epub.toc.len() == 0 {
            match find_with_property(epub, "nav") {
                Some(i) => {
                    let id = epub.resources[i].0.clone();
                    let _ = Self::fill_toc(epub, root_base, archive, id.as_str());
                },
                None => {},
            }
        }
        Ok(())
    }

    /// Reads the navigation document that the manifest lists under `id` and
    /// adds the navigation points of its `nav` of type `toc`. Fails, leaving the
    /// table as it was, where the resource, the entry, the XML or such a `nav`
    /// is missing.
    pub fn fill_toc(
        epub: &mut EpubMetadata,
        root_base: &str,
        archive: &mut EpubArchive,
        id: &str,
    ) -> (r: Option<()>)
        requires
            ordered_at_every_level(old(epub).toc@),
        ensures
            final(archive).entries() == old(archive).entries(),
            final(archive).readable() == old(archive).readable(),
            ordered_at_every_level(final(epub).toc@),
            r is None ==> final(epub).toc@ == old(epub).toc@,
            nav_toc_after(
                old(epub).toc@,
                final(epub).toc@,
                old(archive).entries(),
                old(archive).readable(),
                old(epub).resources_view(),
                id@,
                root_base@,
            ),
            toc_document(old(archive).entries(), old(archive).readable(), old(epub).resources_view(), id@) is None ==> r is None,
            r is Some <==> (toc_document(
                old(archive).entries(),
                old(archive).readable(),
                old(epub).resources_view(),
                id@,
            ) matches Some(nodes) && toc_nav(nodes) is Some),
            final(epub).resources == old(epub).resources,
            final(epub).metadata == old(epub).metadata,
            final(epub).spine == old(epub).spine,
            final(epub).cover_id == old(epub).cover_id,
            final(epub).unique_identifier == old(epub).unique_identifier,
    {
        let path = match epub.resource(id) {
            Some(item) => item.path.clone(),
            None => return None,
        };
        let bytes = match archive.get_entry(path.as_str()) {
            Ok(b) => b,
            Err(_) => return None,
        };
        let txt = ensure_utf8(bytes.as_slice());
        let doc = match parse_xml(txt.as_str()) {
            Ok(d) => d,
            Err(_) => return None,
        };
        let navs = doc.find_all("nav", 0, doc.len());
        let ghost ns = as_ints(navs@);
        assert(toc_document(old(archive).entries(), old(archive).readable(), old(epub).resources_view(), id@) == Some(doc@));
        let mut k: usize = 0;
        while k < navs.len()
            invariant
                ns == as_ints(navs@),
                ns == all_tagged_from(doc@, "nav"@, 0, doc@.len() as int),
                toc_nav(doc@) == toc_nav_from(doc@, ns, k as int),
                toc_document(old(archive).entries(), old(archive).readable(), old(epub).resources_view(), id@) == Some(doc@),
                forall|q: int| 0 <= q < navs@.len() ==> #[trigger] navs@[q] < doc@.len(),
                ordered_at_every_level(epub.toc@),
                epub.toc@ == old(epub).toc@,
                archive.entries() == old(archive).entries(),
                archive.readable() == old(archive).readable(),
                epub.resources == old(epub).resources,
                epub.metadata == old(epub).metadata,
                epub.spine == old(epub).spine,
                epub.cover_id == old(epub).cover_id,
                epub.unique_identifier == old(epub).unique_identifier,
            decreases navs@.len() - k,
        {
            let nav = navs[k];
            let is_toc = match doc.attr(nav, "type") {
                Some(t) => str_eq(t.as_str(), "toc"),
                None => false,
            };
            if is_toc {
                proof {
                    reveal_strlit("toc");
                }
                let points = get_navpoints(&doc, nav, doc.len(), root_base);
                let ghost pts = points@;
                merge_toc(epub, points);
                proof {
                    let n = toc_nav(doc@)->0;
                    assert(n == nav as int);
                    assert(v3_points(doc@, n, doc@.len() as int, root_base@, pts));
                }
                return Some(());
            }
            k += 1;
        }
        None
    }
}

/// Label and target of the anchor `a`: its own text and its `href` joined
/// to `base`, percent-decoded, where it has both.
pub open spec fn anchor_parts(nodes: Seq<NodeView>, a: int, base: Seq<char>) -> Option<
    (Seq<char>, Seq<char>),
> {
    match (nodes[a].3, attr_of(nodes[a].4, "href"@)) {
        (Some(label), Some(href)) => match percent_decoded(joined(base, href)) {
            Some(h) => Some((label, h)),
            None => None,
        },
        _ => None,
    }
}

/// The positions, from `i` on, in the list of anchors `links`, of those
/// that make a navigation point.
pub open spec fn kept_anchors(nodes: Seq<NodeView>, links: Seq<int>, base: Seq<char>, i: int) -> Seq<
    int,
>
    decreases links.len() - i,
{
    if i < 0 || i >= links.len() {
        Seq::empty()
    } else if anchor_parts(nodes, links[i], base) is Some {
        seq![i] + kept_anchors(nodes, links, base, i + 1)
    } else {
        kept_anchors(nodes, links, base, i + 1)
    }
}

/// The anchors among the descendants of `parent` (looked for before `hi`).
pub open spec fn anchors_below(nodes: Seq<NodeView>, parent: int, hi: int) -> Seq<int> {
    all_tagged_from(nodes, "a"@, parent + 1, min_int(subtree_end(nodes, parent), hi))
}

/// Whether `pts` are the navigation points that the anchors among the
/// descendants of `parent` (looked for before `hi`) make: one for each
/// anchor with text and a decodable `href`, in document order, numbered by
/// the anchor's position among all those anchors, each one's children being
/// in turn the points that the anchors inside it make.
pub open spec fn v3_points(
    nodes: Seq<NodeView>,
    parent: int,
    hi: int,
    base: Seq<char>,
    pts: Seq<NavPoint>,
) -> bool
    decreases hi - parent,
{
    let end = min_int(subtree_end(nodes, parent), hi);
    let links = anchors_below(nodes, parent, hi);
    let kept = kept_anchors(nodes, links, base, 0);
    &&& pts.len() == kept.len()
    &&& forall|k: int|
        #![trigger pts[k]]
        0 <= k < pts.len() ==> {
            &&& pts[k].play_order == kept[k]
            &&& anchor_parts(nodes, links[kept[k]], base) == Some((pts[k].label@, pts[k].content@))
            &&& (parent < links[kept[k]] < end && end <= hi ==> v3_points(
                nodes,
                links[kept[k]],
                end,
                base,
                pts[k].children@,
            ))
        }
}

/// Every anchor among the descendants of node `parent` (looked for before
/// position `hi`) with text and an `href`, in document order. The play order of
/// each is its position among all those anchors, and its children are the
/// anchors among its own descendants.
pub fn get_navpoints(doc: &XmlDocument, parent: usize, hi: usize, root_base: &str) -> (r: Vec<
    NavPoint,
>)
    requires
        parent < hi <= doc@.len(),
    ensures
        ordered_at_every_level(r@),
        v3_points(doc@, parent as int, hi as int, root_base@, r@),
    decreases hi - parent,
{
    let end = min_usize(doc.subtree_end(parent), hi);
    let links = doc.find_all("a", parent + 1, end);
    let ghost ls = as_ints(links@);
    let ghost kept = kept_anchors(doc@, ls, root_base@, 0);
    let mut out: Vec<NavPoint> = Vec::new();
    let mut i: usize = 0;
    assert(out@.map_values(|np: NavPoint| np.play_order as int) =~= Seq::<int>::empty());
    while i < links.len()
        invariant
            end <= hi <= doc@.len(),
            ls == as_ints(links@),
            ls == anchors_below(doc@, parent as int, hi as int),
            kept == kept_anchors(doc@, ls, root_base@, 0),
            out@.map_values(|np: NavPoint| np.play_order as int) + kept_anchors(doc@, ls, root_base@, i as int) == kept,
            forall|k: int|
                0 <= k < out@.len() ==> anchor_parts(doc@, ls[#[trigger] out@[k].play_order as int], root_base@)
                    == Some((out@[k].label@, out@[k].content@)),
            forall|q: int| 0 <= q < links@.len() ==> parent + 1 <= #[trigger] links@[q] < end,
            sorted_by_play_order(out@),
            forall|q: int| 0 <= q < out@.len() ==> #[trigger] out@[q].play_order < i,
            forall|q: int| 0 <= q < out@.len() ==> ordered_at_every_level(#[trigger] out@[q].children@),
            end as int == min_int(subtree_end(doc@, parent as int), hi as int),
            forall|q: int|
                #![trigger out@[q]]
                0 <= q < out@.len() ==> (parent < ls[out@[q].play_order as int] < end && end <= hi ==> v3_points(
                    doc@,
                    ls[out@[q].play_order as int],
                    end as int,
                    root_base@,
                    out@[q].children@,
                )),
        decreases links@.len() - i,
    {
        let a = links[i];
        match (doc.text(a), doc.attr(a, "href")) {
            (Some(label), Some(href)) => {
                let content = convert_path_separators(root_base, href.as_str());
                match percent_decode(content.as_str()) {
                    Some(h) => {
                        let children = get_navpoints(doc, a, end, root_base);
                        let np = NavPoint { label, content: h, children, play_order: i };
                        let ghost before = out@;
                        out.push(np);
                        assert(out@.map_values(|np: NavPoint| np.play_order as int) =~= before.map_values(
                            |np: NavPoint| np.play_order as int,
                        ).push(i as int));
                        assert forall|k: int| 0 <= k < out@.len() implies anchor_parts(
                            doc@,
                            ls[#[trigger] out@[k].play_order as int],
                            root_base@,
                        ) == Some((out@[k].label@, out@[k].content@)) by {
                            if k < before.len() {
                                assert(out@[k] == before[k]);
                            }
                        }
                        assert forall|q: int| 0 <= q < out@.len() implies ordered_at_every_level(
                            #[trigger] out@[q].children@,
                        ) by {
                            if q < before.len() {
                                assert(out@[q] == before[q]);
                            }
                        }
                        assert(ls[i as int] == a as int);
                        assert forall|q: int|
                            #![trigger out@[q]]
                            0 <= q < out@.len() implies (parent < ls[out@[q].play_order as int] < end
                                && end <= hi ==> v3_points(
                                doc@,
                                ls[out@[q].play_order as int],
                                end as int,
                                root_base@,
                                out@[q].children@,
                            )) by {
                            if q < before.len() {
                                assert(out@[q] == before[q]);
                            }
                        }
                    },
                    None => {},
                }
            },
            _ => {},
        }
        i += 1;
    }
    proof {
        assert(out@.map_values(|np: NavPoint| np.play_order as int) =~= kept);
        assert forall|k: int| #![trigger out@[k]] 0 <= k < out@.len() implies out@[k].play_order == kept[k]
            && anchor_parts(doc@, ls[kept[k]], root_base@) == Some((out@[k].label@, out@[k].content@))
            && (parent < ls[kept[k]] < end && end <= hi ==> v3_points(
                doc@,
                ls[kept[k]],
                end as int,
                root_base@,
                out@[k].children@,
            )) by {
            assert(out@.map_values(|np: NavPoint| np.play_order as int)[k] == kept[k]);
        }
        assert(v3_points(doc@, parent as int, hi as int, root_base@, out@));
        assert forall|depth: nat| #[trigger] ordered_to_depth(out@, depth) by {
            if depth > 0 {
                assert forall|q: int| 0 <= q < out@.len() implies ordered_to_depth(
                    #[trigger] out@[q].children@,
                    (depth - 1) as nat,
                ) by {
                    assert(ordered_at_every_level(out@[q].children@));
                }
            }
        }
    }
    out
}

} // verus!
