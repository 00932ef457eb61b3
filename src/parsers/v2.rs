//! The version 2 pass over the package document: manifest, spine, the
//! navigation-control table of contents, and metadata.
use vstd::multiset::Multiset;
use vstd::prelude::*;

use crate::archive::{entry_lookup, entry_readable, EpubArchive};
use crate::doc::{
    ordered_at_every_level, ordered_to_depth, sorted_by_play_order, MetadataNode, MetadataView,
    NavPoint, ResourceView,
};
use crate::error::ArchiveError;
use crate::parsers::{append_under, key_pos, upsert, EpubMetadata};
use crate::text::str_eq;
use crate::utils::{convert_path_separators, joined, percent_decode, percent_decoded};
use crate::xmlutils::{
    as_ints, attr_of, children_of, ensure_utf8, subtree_end, first_element_from, first_tagged_from, is_tagged,
    parse_xml, entities_resolved, parsed_nodes, utf8_text, NodeView, XmlDocument,
};

verus! {

/// The version 2 pass.
pub struct EpubV2Parser;

// ---------------------------------------------------------------------------
// What the pass computes
// ---------------------------------------------------------------------------

/// The resource that the manifest child `j` declares, where it has an `id`,
/// an `href` and a `media-type`; its path is `href` joined to `base`.
pub open spec fn manifest_entry(nodes: Seq<NodeView>, j: int, base: Seq<char>) -> Option<
    (Seq<char>, ResourceView),
> {
    let a = nodes[j].4;
    match (attr_of(a, "id"@), attr_of(a, "href"@), attr_of(a, "media-type"@)) {
        (Some(id), Some(href), Some(mime)) => Some(
            (id, (joined(base, href), mime, attr_of(a, "properties"@))),
        ),
        _ => None,
    }
}

/// The resource table `t` after the manifest children `cs`, in order; a later
/// entry replaces an earlier one of the same id.
pub open spec fn resources_after(
    t: Seq<(Seq<char>, ResourceView)>,
    nodes: Seq<NodeView>,
    cs: Seq<int>,
    base: Seq<char>,
) -> Seq<(Seq<char>, ResourceView)>
    decreases cs.len(),
{
    if cs.len() == 0 {
        t
    } else {
        let next = match manifest_entry(nodes, cs[0], base) {
            Some(e) => upsert(t, e.0, e.1),
            None => t,
        };
        resources_after(next, nodes, cs.drop_first(), base)
    }
}

/// The `idref`s of the spine children `cs`, in order, children without one
/// left out.
pub open spec fn spine_refs(nodes: Seq<NodeView>, cs: Seq<int>) -> Seq<Seq<char>>
    decreases cs.len(),
{
    if cs.len() == 0 {
        Seq::empty()
    } else {
        let head = match attr_of(nodes[cs[0]].4, "idref"@) {
            Some(id) => seq![id],
            None => Seq::empty(),
        };
        head + spine_refs(nodes, cs.drop_first())
    }
}

/// The own text of node `j`, empty where it has none.
pub open spec fn text_or_empty(nodes: Seq<NodeView>, j: int) -> Seq<char> {
    match nodes[j].3 {
        Some(t) => t,
        None => Seq::empty(),
    }
}

/// The key and node that the metadata child `j` records: a `meta` with
/// `name` and `content` under that name with that content; else an element
/// with a `property` under that property with its text; else the element
/// under its own tag name with its text.
pub open spec fn meta_entry(nodes: Seq<NodeView>, j: int) -> Option<(Seq<char>, MetadataView)> {
    let a = nodes[j].4;
    if is_tagged(nodes, j, "meta"@) && attr_of(a, "name"@) is Some && attr_of(a, "content"@) is Some {
        Some((attr_of(a, "name"@)->0, (attr_of(a, "content"@)->0, a)))
    } else if attr_of(a, "property"@) is Some {
        Some((attr_of(a, "property"@)->0, (text_or_empty(nodes, j), a)))
    } else {
        Some((nodes[j].2, (text_or_empty(nodes, j), a)))
    }
}

/// The metadata table `t` after the metadata children `cs`, in order.
pub open spec fn metadata_after(
    t: Seq<(Seq<char>, Seq<MetadataView>)>,
    nodes: Seq<NodeView>,
    cs: Seq<int>,
) -> Seq<(Seq<char>, Seq<MetadataView>)>
    decreases cs.len(),
{
    if cs.len() == 0 {
        t
    } else {
        let next = match meta_entry(nodes, cs[0]) {
            Some(e) => append_under(t, e.0, e.1),
            None => t,
        };
        metadata_after(next, nodes, cs.drop_first())
    }
}

/// The unique identifier after the metadata children `cs`: the text of the
/// first `identifier` whose `id` is `uid`, unless one was found before.
pub open spec fn identifier_after(
    u: Option<Seq<char>>,
    nodes: Seq<NodeView>,
    cs: Seq<int>,
    uid: Option<Seq<char>>,
) -> Option<Seq<char>>
    decreases cs.len(),
{
    if cs.len() == 0 {
        u
    } else {
        let j = cs[0];
        let next = if u is None && uid is Some && is_tagged(nodes, j, "identifier"@) && attr_of(
            nodes[j].4,
            "id"@,
        ) == uid {
            Some(text_or_empty(nodes, j))
        } else {
            u
        };
        identifier_after(next, nodes, cs.drop_first(), uid)
    }
}

/// The cover after the metadata scan: the content of the first `cover`
/// entry where there is one, else `c`.
pub open spec fn cover_after(c: Option<Seq<char>>, t: Seq<(Seq<char>, Seq<MetadataView>)>) -> Option<
    Seq<char>,
> {
    match key_pos(t, "cover"@) {
        Some(i) => if t[i].1.len() > 0 {
            Some(t[i].1[0].0)
        } else {
            c
        },
        None => c,
    }
}

/// The `unique-identifier` that the root element of the package declares.
pub open spec fn declared_uid(nodes: Seq<NodeView>) -> Option<Seq<char>> {
    match first_element_from(nodes, 0) {
        Some(r) => attr_of(nodes[r].4, "unique-identifier"@),
        None => None,
    }
}

/// The first element tagged `tag` in the package.
pub open spec fn locate(nodes: Seq<NodeView>, tag: Seq<char>) -> Option<int> {
    first_tagged_from(nodes, tag, 0, nodes.len() as int)
}

/// The id under which manifest child `j` declares a resource.
pub open spec fn entry_id(nodes: Seq<NodeView>, j: int, base: Seq<char>) -> Seq<char> {
    match manifest_entry(nodes, j, base) {
        Some(e) => e.0,
        None => Seq::empty(),
    }
}

/// Manifest children that each declare a resource, under ids that are
/// distinct and not yet in the table, add one resource each: N such items
/// give N more resources.
pub proof fn lemma_distinct_ids_count(
    t: Seq<(Seq<char>, ResourceView)>,
    nodes: Seq<NodeView>,
    cs: Seq<int>,
    base: Seq<char>,
)
    requires
        forall|k: int| 0 <= k < cs.len() ==> #[trigger] manifest_entry(nodes, cs[k], base) is Some,
        forall|k: int, l: int|
            0 <= k < l < cs.len() ==> entry_id(nodes, cs[k], base) != entry_id(nodes, cs[l], base),
        forall|k: int, m: int|
            0 <= k < cs.len() && 0 <= m < t.len() ==> t[m].0 != entry_id(nodes, cs[k], base),
    ensures
        resources_after(t, nodes, cs, base).len() == t.len() + cs.len(),
    decreases cs.len(),
{
    if cs.len() > 0 {
        let e = manifest_entry(nodes, cs[0], base)->0;
        assert(manifest_entry(nodes, cs[0], base) is Some);
        crate::parsers::lemma_key_pos_from(t, e.0, 0);
        assert forall|m: int| 0 <= m < t.len() implies t[m].0 != e.0 by {
            assert(t[m].0 != entry_id(nodes, cs[0], base));
        }
        let t2 = t.push(e);
        let rest = cs.drop_first();
        assert forall|k: int| 0 <= k < rest.len() implies #[trigger] manifest_entry(nodes, rest[k], base) is Some by {
            assert(rest[k] == cs[k + 1]);
            assert(manifest_entry(nodes, cs[k + 1], base) is Some);
        }
        assert forall|k: int, l: int| 0 <= k < l < rest.len() implies entry_id(nodes, rest[k], base)
            != entry_id(nodes, rest[l], base) by {
            assert(rest[k] == cs[k + 1] && rest[l] == cs[l + 1]);
        }
        assert forall|k: int, m: int| 0 <= k < rest.len() && 0 <= m < t2.len() implies t2[m].0
            != entry_id(nodes, rest[k], base) by {
            assert(rest[k] == cs[k + 1]);
            if m < t.len() {
                assert(t2[m] == t[m]);
            } else {
                assert(t2[m].0 == entry_id(nodes, cs[0], base));
            }
        }
        lemma_distinct_ids_count(t2, nodes, rest, base);
    }
}

// ---------------------------------------------------------------------------
// Play orders
// ---------------------------------------------------------------------------

/// The value of a digit character.
pub open spec fn digit_value(c: char) -> int {
    (c as u32) as int - 48
}

/// Whether every character of `s` is an ASCII digit.
pub open spec fn all_digits(s: Seq<char>) -> bool {
    forall|i: int| 0 <= i < s.len() ==> '0' <= #[trigger] s[i] <= '9'
}

/// The number that the decimal digits `s` write.
pub open spec fn digits_value(s: Seq<char>) -> int
    decreases s.len(),
{
    if s.len() == 0 {
        0
    } else {
        digits_value(s.drop_last()) * 10 + digit_value(s.last())
    }
}

/// The unsigned number that `s` writes: an optional `+`, then at least one
/// decimal digit, the value within `usize`.
pub open spec fn parsed_usize(s: Seq<char>) -> Option<usize> {
    let d = if s.len() > 0 && s[0] == '+' {
        s.drop_first()
    } else {
        s
    };
    if d.len() > 0 && all_digits(d) && digits_value(d) <= usize::MAX {
        Some(digits_value(d) as usize)
    } else {
        None
    }
}

proof fn lemma_digits_prefix(d: Seq<char>, k: int)
    requires
        all_digits(d),
        0 <= k <= d.len(),
    ensures
        digits_value(d) >= digits_value(d.subrange(0, k)) >= 0,
    decreases d.len(),
{
    if d.len() > 0 {
        assert(all_digits(d.drop_last()));
        assert('0' <= d[d.len() - 1] <= '9');
        if k == d.len() {
            assert(d.subrange(0, k) =~= d);
            lemma_digits_prefix(d.drop_last(), k - 1);
            assert(d.drop_last().subrange(0, k - 1) =~= d.drop_last());
        } else {
            lemma_digits_prefix(d.drop_last(), k);
            assert(d.drop_last().subrange(0, k) =~= d.subrange(0, k));
            lemma_digits_prefix(d.drop_last(), d.len() - 1);
            assert(d.drop_last().subrange(0, d.len() - 1) =~= d.drop_last());
        }
    } else {
        assert(d.subrange(0, k) =~= d);
    }
}

/// Parses a play order as `usize` parses it.
pub fn parse_usize(s: &str) -> (r: Option<usize>)
    ensures
        r == parsed_usize(s@),
{
    let cs = crate::text::chars_of(s);
    let n = cs.len();
    let mut start: usize = 0;
    if n > 0 && cs[0] == '+' {
        start = 1;
    }
    let ghost d = if cs@.len() > 0 && cs@[0] == '+' {
        cs@.drop_first()
    } else {
        cs@
    };
    assert(d =~= cs@.subrange(start as int, n as int));
    if start == n {
        return None;
    }
    let mut v: usize = 0;
    let mut i = start;
    while i < n
        invariant
            start <= i <= n,
            n == cs@.len(),
            cs@ == s@,
            d == cs@.subrange(start as int, n as int),
            d == (if s@.len() > 0 && s@[0] == '+' { s@.drop_first() } else { s@ }),
            all_digits(d.subrange(0, i - start)),
            v as int == digits_value(d.subrange(0, i - start)),
        decreases n - i,
    {
        let c = cs[i];
        if c < '0' || c > '9' {
            assert(d[i - start] == cs@[i as int]);
            assert(!all_digits(d));
            assert(cs@ == s@);
            return None;
        }
        let dg = (c as u32 - 48) as usize;
        assert(d.subrange(0, i - start + 1).drop_last() =~= d.subrange(0, i - start));
        assert(d.subrange(0, i - start + 1).last() == c);
        assert(all_digits(d.subrange(0, i - start + 1)));
        assert(digit_value(c) == dg);
        assert(digits_value(d.subrange(0, i - start + 1)) == v * 10 + dg);
        if v > (usize::MAX - dg) / 10 {
            proof {
                assert(v * 10 + dg > usize::MAX) by (nonlinear_arith)
                    requires
                        v > (usize::MAX - dg) / 10,
                        dg <= 9,
                ;
                if all_digits(d) {
                    lemma_digits_prefix(d, i - start + 1);
                }
                assert(cs@ == s@);
            }
            return None;
        }
        assert(v * 10 + dg <= usize::MAX) by (nonlinear_arith)
            requires
                v <= (usize::MAX - dg) / 10,
                dg <= 9,
        ;
        v = v * 10 + dg;
        i += 1;
    }
    assert(d.subrange(0, i - start) =~= d);
    Some(v)
}

// ---------------------------------------------------------------------------
// Ordering of navigation points
// ---------------------------------------------------------------------------

/// A list sorted by play order whose members' children are ordered at every
/// level is ordered at every level.
pub proof fn lemma_ordered(v: Seq<NavPoint>)
    requires
        sorted_by_play_order(v),
        forall|i: int| 0 <= i < v.len() ==> ordered_at_every_level(#[trigger] v[i].children@),
    ensures
        ordered_at_every_level(v),
{
    assert forall|depth: nat| #[trigger] ordered_to_depth(v, depth) by {
        if depth > 0 {
            assert forall|i: int| 0 <= i < v.len() implies ordered_to_depth(
                #[trigger] v[i].children@,
                (depth - 1) as nat,
            ) by {
                assert(ordered_at_every_level(v[i].children@));
            }
        }
    }
}

/// Whether `x` is a member of `v`.
pub open spec fn member(v: Seq<NavPoint>, x: NavPoint) -> bool {
    exists|m: int| 0 <= m < v.len() && v[m] == x
}

/// Sorts `v` by play order: the result holds the members of `v`, each as
/// often as `v` does.
pub fn sort_by_play_order(v: Vec<NavPoint>) -> (r: Vec<NavPoint>)
    ensures
        r@.len() == v@.len(),
        sorted_by_play_order(r@),
        r@.to_multiset() == v@.to_multiset(),
        forall|k: int| 0 <= k < r@.len() ==> member(v@, #[trigger] r@[k]),
{
    broadcast use vstd::multiset::group_multiset_axioms;

    let mut input = v;
    let mut out: Vec<NavPoint> = Vec::new();
    assert(out@.to_multiset() =~= Multiset::<NavPoint>::empty()) by {
        broadcast use vstd::seq_lib::to_multiset_len;
        assert(out@.to_multiset().len() == 0);
    }
    while input.len() > 0
        invariant
            input@.len() + out@.len() == v@.len(),
            out@.to_multiset().add(input@.to_multiset()) == v@.to_multiset(),
            input@ == v@.subrange(0, input@.len() as int),
            sorted_by_play_order(out@),
            forall|k: int| 0 <= k < out@.len() ==> member(v@, #[trigger] out@[k]),
        decreases input@.len(),
    {
        let ghost n = input@.len();
        let ghost in_before = input@;
        let x = input.pop().unwrap();
        assert(in_before =~= input@.push(x));
        assert(x == v@[n - 1]);
        let mut p: usize = 0;
        while p < out.len() && out[p].play_order < x.play_order
            invariant
                p <= out@.len(),
                forall|k: int| 0 <= k < p ==> out@[k].play_order < x.play_order,
            decreases out@.len() - p,
        {
            p += 1;
        }
        let ghost before = out@;
        out.insert(p, x);
        proof {
            vstd::seq_lib::to_multiset_insert(before, p as int, x);
            vstd::seq_lib::to_multiset_build(input@, x);
        }
        assert(out@.to_multiset().add(input@.to_multiset()) =~= before.to_multiset().add(
            in_before.to_multiset(),
        ));
        assert forall|k: int| 0 <= k < out@.len() implies member(v@, #[trigger] out@[k]) by {
            if k < p {
                assert(out@[k] == before[k]);
            } else if k == p {
                assert(out@[k] == v@[n - 1]);
            } else {
                assert(out@[k] == before[k - 1]);
            }
        }
        assert(input@ =~= v@.subrange(0, input@.len() as int));
    }
    assert(input@.to_multiset() =~= Multiset::<NavPoint>::empty()) by {
        broadcast use vstd::seq_lib::to_multiset_len;
        assert(input@.to_multiset().len() == 0);
    }
    assert(out@.to_multiset() =~= out@.to_multiset().add(input@.to_multiset()));
    out
}

/// `v` sorted by play order, ordered at every level where its members'
/// children are.
fn sort_navpoints(v: Vec<NavPoint>) -> (r: Vec<NavPoint>)
    requires
        forall|i: int| 0 <= i < v@.len() ==> ordered_at_every_level(#[trigger] v@[i].children@),
    ensures
        r@.len() == v@.len(),
        ordered_at_every_level(r@),
        r@.to_multiset() == v@.to_multiset(),
        forall|k: int| 0 <= k < r@.len() ==> member(v@, #[trigger] r@[k]),
{
    let r = sort_by_play_order(v);
    proof {
        assert forall|i: int| 0 <= i < r@.len() implies ordered_at_every_level(#[trigger] r@[i].children@) by {
            let m = choose|m: int| 0 <= m < v@.len() && v@[m] == r@[i];
            assert(ordered_at_every_level(v@[m].children@));
        }
        lemma_ordered(r@);
    }
    r
}

// ---------------------------------------------------------------------------
// The navigation-control table of contents
// ---------------------------------------------------------------------------

/// The smaller of two integers.
pub open spec fn min_int(a: int, b: int) -> int {
    if a <= b {
        a
    } else {
        b
    }
}

/// Play order, label and target of the navigation point that node `item`
/// declares (its descendants looked for before `hi`): it is a `navPoint` with a
/// `playOrder` that parses as an unsigned number, a first `content` with a
/// `src` and a first `navLabel` whose first child element has text; the target
/// is `src` joined to `base`, percent-decoded.
pub open spec fn nav_point_parts(nodes: Seq<NodeView>, item: int, hi: int, base: Seq<char>) -> Option<
    (usize, Seq<char>, Seq<char>),
> {
    let end = min_int(subtree_end(nodes, item), hi);
    if !is_tagged(nodes, item, "navPoint"@) {
        None
    } else {
        match attr_of(nodes[item].4, "playOrder"@) {
            None => None,
            Some(po) => match parsed_usize(po) {
                None => None,
                Some(n) => match first_tagged_from(nodes, "content"@, item + 1, end) {
                    None => None,
                    Some(c) => match attr_of(nodes[c].4, "src"@) {
                        None => None,
                        Some(src) => match first_tagged_from(nodes, "navLabel"@, item + 1, end) {
                            None => None,
                            Some(l) => if children_of(nodes, l).len() == 0 {
                                None
                            } else {
                                match nodes[children_of(nodes, l)[0]].3 {
                                    None => None,
                                    Some(label) => match percent_decoded(joined(base, src)) {
                                        None => None,
                                        Some(href) => Some((n, label, href)),
                                    },
                                }
                            },
                        },
                    },
                },
            },
        }
    }
}

pub(crate) fn min_usize(a: usize, b: usize) -> (r: usize)
    ensures
        r == if a <= b { a } else { b },
{
    if a <= b { a } else { b }
}

/// Play order, label and target of a navigation point.
pub open spec fn parts_of(np: NavPoint) -> (usize, Seq<char>, Seq<char>) {
    (np.play_order, np.label@, np.content@)
}

/// The parts of the navigation points that the element children of `parent`
/// at positions `j .. end` declare, in document order.
pub open spec fn nav_children_from(
    nodes: Seq<NodeView>,
    parent: int,
    end: int,
    j: int,
    base: Seq<char>,
) -> Seq<(usize, Seq<char>, Seq<char>)>
    decreases end - j,
{
    if j < 0 || j >= end {
        Seq::empty()
    } else {
        let rest = nav_children_from(nodes, parent, end, j + 1, base);
        if nodes[j].1 && nodes[j].0 == nodes[parent].0 + 1 && nav_point_parts(nodes, j, end, base) is Some {
            seq![nav_point_parts(nodes, j, end, base)->0] + rest
        } else {
            rest
        }
    }
}

/// The parts of the navigation points that the element children of `parent`
/// declare (its descendants looked for before `hi`), in document order.
pub open spec fn nav_children(nodes: Seq<NodeView>, parent: int, hi: int, base: Seq<char>) -> Seq<
    (usize, Seq<char>, Seq<char>),
> {
    let end = min_int(subtree_end(nodes, parent), hi);
    nav_children_from(nodes, parent, end, parent + 1, base)
}

/// Play order, label and target of each point of `s`.
pub open spec fn parts_seq(s: Seq<NavPoint>) -> Seq<(usize, Seq<char>, Seq<char>)> {
    s.map_values(|np: NavPoint| parts_of(np))
}

/// Whether `pts` are the navigation points that the element children of
/// `parent` declare (its descendants looked for before `hi`): the same points
/// in some order, sorted by play order, each one's children being in turn
/// the points that the child declaring it holds.
pub open spec fn v2_points(
    nodes: Seq<NodeView>,
    parent: int,
    hi: int,
    base: Seq<char>,
    pts: Seq<NavPoint>,
) -> bool
    decreases hi - parent,
{
    let end = min_int(subtree_end(nodes, parent), hi);
    &&& sorted_by_play_order(pts)
    &&& exists|s: Seq<NavPoint>|
        #[trigger] parts_seq(s) == nav_children(nodes, parent, hi, base)
            && s.to_multiset() == pts.to_multiset()
    &&& forall|k: int|
        #![trigger pts[k]]
        0 <= k < pts.len() ==> exists|j: int|
            parent < j < end && end <= hi && #[trigger] nav_point_parts(nodes, j, end, base) == Some(
                parts_of(pts[k]),
            ) && v2_points(nodes, j, end, base, pts[k].children@)
}

impl EpubV2Parser {
    /// Every navigation point among the element children of node `parent`
    /// (looked for before position `hi`), sorted by play order; children that
    /// lack a play order, a target or a label are left out.
    pub fn get_navpoints(doc: &XmlDocument, parent: usize, hi: usize, root_base: &str) -> (r: Vec<
        NavPoint,
    >)
        requires
            parent < hi <= doc@.len(),
        ensures
            ordered_at_every_level(r@),
            v2_points(doc@, parent as int, hi as int, root_base@, r@),
            r@.len() == nav_children(doc@, parent as int, hi as int, root_base@).len(),
            forall|k: int|
                0 <= k < r@.len() ==> nav_children(doc@, parent as int, hi as int, root_base@).contains(
                    parts_of(#[trigger] r@[k]),
                ),
        decreases hi - parent, 0nat,
    {
        let end = min_usize(doc.subtree_end(parent), hi);
        let ghost all = nav_children(doc@, parent as int, hi as int, root_base@);
        let mut out: Vec<NavPoint> = Vec::new();
        let mut j = parent + 1;
        assert(out@.map_values(|np: NavPoint| parts_of(np)) =~= Seq::<(usize, Seq<char>, Seq<char>)>::empty());
        while j < end
            invariant
                parent < j <= end,
                end <= hi <= doc@.len(),
                end as int == min_int(subtree_end(doc@, parent as int), hi as int),
                all == nav_children_from(doc@, parent as int, end as int, parent + 1, root_base@),
                out@.map_values(|np: NavPoint| parts_of(np)) + nav_children_from(
                    doc@,
                    parent as int,
                    end as int,
                    j as int,
                    root_base@,
                ) == all,
                forall|i: int| 0 <= i < out@.len() ==> ordered_at_every_level(#[trigger] out@[i].children@),
                forall|m: int|
                    #![trigger out@[m]]
                    0 <= m < out@.len() ==> exists|q: int|
                        parent < q < end && end <= hi && #[trigger] nav_point_parts(
                            doc@,
                            q,
                            end as int,
                            root_base@,
                        ) == Some(parts_of(out@[m])) && v2_points(
                            doc@,
                            q,
                            end as int,
                            root_base@,
                            out@[m].children@,
                        ),
            decreases end - j,
        {
            let d = doc.nodes[j].depth;
            let ghost before = out@;
            if doc.nodes[j].is_element && d > doc.nodes[parent].depth && d - 1 == doc.nodes[parent].depth {
                match Self::parse_nav_point(doc, j, end, root_base) {
                    Some(np) => {
                        out.push(np);
                        assert(out@.map_values(|np: NavPoint| parts_of(np)) =~= before.map_values(
                            |np: NavPoint| parts_of(np),
                        ).push(parts_of(np)));
                        assert forall|i: int| 0 <= i < out@.len() implies ordered_at_every_level(
                            #[trigger] out@[i].children@,
                        ) by {
                            if i < before.len() {
                                assert(out@[i] == before[i]);
                            }
                        }
                        assert forall|m: int| #![trigger out@[m]] 0 <= m < out@.len() implies exists|q: int|
                            parent < q < end && end <= hi && #[trigger] nav_point_parts(
                                doc@,
                                q,
                                end as int,
                                root_base@,
                            ) == Some(parts_of(out@[m])) && v2_points(
                                doc@,
                                q,
                                end as int,
                                root_base@,
                                out@[m].children@,
                            ) by {
                            if m < before.len() {
                                assert(out@[m] == before[m]);
                            } else {
                                assert(nav_point_parts(doc@, j as int, end as int, root_base@) == Some(
                                    parts_of(out@[m]),
                                ));
                            }
                        }
                    },
                    None => {},
                }
            }
            j += 1;
        }
        assert(out@.map_values(|np: NavPoint| parts_of(np)) =~= all);
        let r = sort_navpoints(out);
        assert forall|k: int| 0 <= k < r@.len() implies all.contains(parts_of(#[trigger] r@[k])) by {
            let m = choose|m: int| 0 <= m < out@.len() && out@[m] == r@[k];
            assert(all[m] == parts_of(out@[m]));
        }
        proof {
            let end_i = end as int;
            assert(parts_seq(out@) == nav_children(doc@, parent as int, hi as int, root_base@));
            assert forall|k: int| #![trigger r@[k]] 0 <= k < r@.len() implies exists|q: int|
                parent < q < end_i && end_i <= hi && #[trigger] nav_point_parts(doc@, q, end_i, root_base@)
                    == Some(parts_of(r@[k])) && v2_points(doc@, q, end_i, root_base@, r@[k].children@) by {
                let m = choose|m: int| 0 <= m < out@.len() && out@[m] == r@[k];
                assert(out@[m] == r@[k]);
            }
            assert(sorted_by_play_order(r@)) by {
                assert(ordered_to_depth(r@, 0));
            }
            assert(r@.to_multiset() == out@.to_multiset());
            assert(exists|s: Seq<NavPoint>|
                #[trigger] parts_seq(s) == nav_children(doc@, parent as int, hi as int, root_base@)
                    && s.to_multiset() == r@.to_multiset());
            assert(end_i == min_int(subtree_end(doc@, parent as int), hi as int));
        }
        r
    }

    /// The navigation point that node `item` declares, if it is a `navPoint`
    /// with a play order, a `content` with a `src` and a `navLabel` whose
    /// first child element has text.
    pub fn parse_nav_point(doc: &XmlDocument, item: usize, hi: usize, root_base: &str) -> (r: Option<
        NavPoint,
    >)
        requires
            item < hi <= doc@.len(),
        ensures
            match nav_point_parts(doc@, item as int, hi as int, root_base@) {
                Some(parts) => r matches Some(np) && np.play_order == parts.0 && np.label@ == parts.1
                    && np.content@ == parts.2 && ordered_at_every_level(np.children@) && v2_points(
                    doc@,
                    item as int,
                    hi as int,
                    root_base@,
                    np.children@,
                ),
                None => r is None,
            },
        decreases hi - item, 1nat,
    {
        if !doc.has_tag_name(item, "navPoint") {
            return None;
        }
        let play_order = match doc.attr(item, "playOrder") {
            Some(s) => match parse_usize(s.as_str()) {
                Some(n) => n,
                None => return None,
            },
            None => return None,
        };
        let end = min_usize(doc.subtree_end(item), hi);
        let src = match doc.find_first("content", item + 1, end) {
            Some(c) => {
                match doc.attr(c, "src") {
                    Some(s) => s,
                    None => return None,
                }
            },
            None => return None,
        };
        let label = match doc.find_first("navLabel", item + 1, end) {
            Some(l) => {
                let cs = doc.children(l);
                if cs.len() == 0 {
                    return None;
                }
                match doc.text(cs[0]) {
                    Some(t) => t,
                    None => return None,
                }
            },
            None => return None,
        };
        let content = convert_path_separators(root_base, src.as_str());
        match percent_decode(content.as_str()) {
            Some(href) => Some(
                NavPoint {
                    label,
                    content: href,
                    children: Self::get_navpoints(doc, item, hi, root_base),
                    play_order,
                },
            ),
            None => None,
        }
    }
}


/// The document that the resource `id` of the table `res` names, read from
/// the entries `entries` and parsed.
pub open spec fn toc_document(
    entries: Map<Seq<char>, Seq<u8>>,
    rd: Set<Seq<char>>,
    res: Seq<(Seq<char>, ResourceView)>,
    id: Seq<char>,
) -> Option<Seq<NodeView>> {
    match key_pos(res, id) {
        Some(i) => if entry_readable(entries, rd, res[i].1.0) {
            match entry_lookup(entries, res[i].1.0) {
                Some(raw) => parsed_nodes(entities_resolved(utf8_text(raw))),
                None => None,
            }
        } else {
            None
        },
        None => None,
    }
}

/// Whether the table of contents `new` is what reading the
/// navigation-control document `id` may leave of `old`: unchanged, or, where
/// that document has a `navMap`, `old` together with the points of that
/// `navMap`, sorted.
pub open spec fn legacy_toc_after(
    old_toc: Seq<NavPoint>,
    new_toc: Seq<NavPoint>,
    entries: Map<Seq<char>, Seq<u8>>,
    rd: Set<Seq<char>>,
    res: Seq<(Seq<char>, ResourceView)>,
    id: Seq<char>,
    base: Seq<char>,
) -> bool {
    match toc_document(entries, rd, res, id) {
        Some(nodes) => match locate(nodes, "navMap"@) {
            Some(m) => exists|pts: Seq<NavPoint>|
                #[trigger] v2_points(nodes, m, nodes.len() as int, base, pts) && new_toc.to_multiset()
                    == (old_toc + pts).to_multiset(),
            None => new_toc == old_toc,
        },
        None => new_toc == old_toc,
    }
}

/// Appends `points` to the table of contents and sorts it by play order.
pub(crate) fn merge_toc(epub: &mut EpubMetadata, points: Vec<NavPoint>)
    requires
        ordered_at_every_level(old(epub).toc@),
        ordered_at_every_level(points@),
    ensures
        ordered_at_every_level(final(epub).toc@),
        final(epub).toc@.len() == old(epub).toc@.len() + points@.len(),
        final(epub).toc@.to_multiset() == (old(epub).toc@ + points@).to_multiset(),
        final(epub).resources == old(epub).resources,
        final(epub).metadata == old(epub).metadata,
        final(epub).spine == old(epub).spine,
        final(epub).cover_id == old(epub).cover_id,
        final(epub).unique_identifier == old(epub).unique_identifier,
{
    let mut toc: Vec<NavPoint> = Vec::new();
    std::mem::swap(&mut toc, &mut epub.toc);
    let ghost a = toc@;
    let mut points = points;
    let ghost b = points@;
    toc.append(&mut points);
    assert(toc@ =~= a + b);
    proof {
        assert forall|i: int| 0 <= i < toc@.len() implies ordered_at_every_level(#[trigger] toc@[i].children@) by {
            if i < a.len() {
                assert(ordered_to_depth(a, 1));
                assert(toc@[i] == a[i]);
                assert forall|d: nat| #[trigger] ordered_to_depth(a[i].children@, d) by {
                    assert(ordered_to_depth(a, d + 1));
                }
            } else {
                assert(toc@[i] == b[i - a.len()]);
                assert forall|d: nat| #[trigger] ordered_to_depth(b[i - a.len()].children@, d) by {
                    assert(ordered_to_depth(b, d + 1));
                }
            }
        }
    }
    let mut sorted = sort_navpoints(toc);
    std::mem::swap(&mut sorted, &mut epub.toc);
}

impl EpubV2Parser {
    /// Reads the navigation-control document that the manifest lists under
    /// `id` and adds its navigation points to the table of contents. Fails,
    /// leaving the table as it was, where the resource, the entry, the XML or
    /// its `navMap` is missing.
    pub fn fill_toc(
        epub: &mut EpubMetadata,
        root_base: &str,
        archive: &mut EpubArchive,
        id: &str,
    ) -> (r: Option<()>)
        requires
            ordered_at_every_level(old(epub).toc@),
        ensures
            final(archive).entries() == old(archive).entries(),
            final(archive).readable() == old(archive).readable(),
            ordered_at_every_level(final(epub).toc@),
            r is None ==> final(epub).toc@ == old(epub).toc@,
            key_pos(old(epub).resources_view(), id@) is None ==> r is None,
            legacy_toc_after(
                old(epub).toc@,
                final(epub).toc@,
                old(archive).entries(),
                old(archive).readable(),
                old(epub).resources_view(),
                id@,
                root_base@,
            ),
            toc_document(old(archive).entries(), old(archive).readable(), old(epub).resources_view(), id@) is None ==> r is None,
            r is Some <==> (toc_document(
                old(archive).entries(),
                old(archive).readable(),
                old(epub).resources_view(),
                id@,
            ) matches Some(nodes) && locate(nodes, "navMap"@) is Some),
            final(epub).resources == old(epub).resources,
            final(epub).metadata == old(epub).metadata,
            final(epub).spine == old(epub).spine,
            final(epub).cover_id == old(epub).cover_id,
            final(epub).unique_identifier == old(epub).unique_identifier,
    {
        let path = match epub.resource(id) {
            Some(item) => item.path.clone(),
            None => return None,
        };
        let bytes = match archive.get_entry(path.as_str()) {
            Ok(b) => b,
            Err(_) => return None,
        };
        let txt = ensure_utf8(bytes.as_slice());
        let doc = match parse_xml(txt.as_str()) {
            Ok(d) => d,
            Err(_) => return None,
        };
        let map = match doc.find_in_document("navMap") {
            Some(m) => m,
            None => return None,
        };
        assert(map < doc@.len());
        let points = Self::get_navpoints(&doc, map, doc.len(), root_base);
        let ghost pts = points@;
        merge_toc(epub, points);
        proof {
            assert(toc_document(old(archive).entries(), old(archive).readable(), old(epub).resources_view(), id@) == Some(doc@));
            let m = locate(doc@, "navMap"@)->0;
            assert(m == map as int);
            assert(v2_points(doc@, m, doc@.len() as int, root_base@, pts));
        }
        Some(())
    }

    /// The version 2 pass: resources from the manifest, reading order from the
    /// spine, the navigation-control table of contents that the spine names,
    /// metadata, unique identifier and cover. Fails with `ParsingFailure`
    /// exactly where the package has no `manifest`, `spine` or `metadata`.
    pub fn parse(
        epub: &mut EpubMetadata,
        root_base: &str,
        xml: &XmlDocument,
        archive: &mut EpubArchive,
    ) -> (r: Result<(), ArchiveError>)
        requires
            old(epub).wf(),
            ordered_at_every_level(old(epub).toc@),
        ensures
            final(archive).entries() == old(archive).entries(),
            final(archive).readable() == old(archive).readable(),
            final(epub).wf(),
            ordered_at_every_level(final(epub).toc@),
            r is Ok <==> locate(xml@, "manifest"@) is Some && locate(xml@, "spine"@) is Some
                && locate(xml@, "metadata"@) is Some,
            r is Err ==> r matches Err(ArchiveError::ParsingFailure),
            r is Ok ==> {
                let m = locate(xml@, "manifest"@)->0;
                let s = locate(xml@, "spine"@)->0;
                let md = locate(xml@, "metadata"@)->0;
                let meta = metadata_after(old(epub).metadata_view(), xml@, children_of(xml@, md));
                &&& final(epub).resources_view() == resources_after(
                    old(epub).resources_view(),
                    xml@,
                    children_of(xml@, m),
                    root_base@,
                )
                &&& final(epub).spine_view() == old(epub).spine_view() + spine_refs(
                    xml@,
                    children_of(xml@, s),
                )
                &&& final(epub).metadata_view() == meta
                &&& final(epub).unique_identifier.deep_view() == identifier_after(
                    old(epub).unique_identifier.deep_view(),
                    xml@,
                    children_of(xml@, md),
                    declared_uid(xml@),
                )
                &&& final(epub).cover_id.deep_view() == cover_after(
                    old(epub).cover_id.deep_view(),
                    meta,
                )
                &&& (attr_of(xml@[s].4, "toc"@) is None ==> final(epub).toc@ == old(epub).toc@)
                &&& (attr_of(xml@[s].4, "toc"@) matches Some(t) ==> legacy_toc_after(
                    old(epub).toc@,
                    final(epub).toc@,
                    old(archive).entries(),
                    old(archive).readable(),
                    final(epub).resources_view(),
                    t,
                    root_base@,
                ))
            },
    {
        let uid = match xml.root_element() {
            Some(root) => xml.attr(root, "unique-identifier"),
            None => None,
        };
        // resources from manifest
        let manifest = match xml.find_in_document("manifest") {
            Some(m) => m,
            None => return Err(ArchiveError::ParsingFailure),
        };
        let items = xml.children(manifest);
        let ghost cs = as_ints(items@);
        let ghost r0 = epub.resources_view();
        let mut k: usize = 0;
        assert(cs.subrange(0, cs.len() as int) =~= cs);
        while k < items.len()
            invariant
                k <= items@.len(),
                cs == as_ints(items@),
                forall|q: int| 0 <= q < items@.len() ==> #[trigger] items@[q] < xml@.len(),
                epub.wf(),
                ordered_at_every_level(epub.toc@),
                resources_after(epub.resources_view(), xml@, cs.subrange(k as int, cs.len() as int), root_base@)
                    == resources_after(r0, xml@, cs, root_base@),
                epub.spine == old(epub).spine,
                epub.metadata == old(epub).metadata,
                epub.toc == old(epub).toc,
                epub.cover_id == old(epub).cover_id,
                epub.unique_identifier == old(epub).unique_identifier,
            decreases items@.len() - k,
        {
            let item = items[k];
            assert(cs.subrange(k as int, cs.len() as int).drop_first() =~= cs.subrange(k + 1, cs.len() as int));
            assert(cs.subrange(k as int, cs.len() as int)[0] == item as int);
            let _ = epub.insert_resource(root_base, xml, item);
            k += 1;
        }
        assert(cs.subrange(k as int, cs.len() as int) =~= Seq::<int>::empty());
        // items from spine
        let spine = match xml.find_in_document("spine") {
            Some(s) => s,
            None => return Err(ArchiveError::ParsingFailure),
        };
        let refs = xml.children(spine);
        let ghost ss = as_ints(refs@);
        let ghost s0 = epub.spine_view();
        let mut k: usize = 0;
        assert(ss.subrange(0, ss.len() as int) =~= ss);
        assert(s0 + spine_refs(xml@, ss) =~= epub.spine_view() + spine_refs(xml@, ss));
        while k < refs.len()
            invariant
                k <= refs@.len(),
                ss == as_ints(refs@),
                forall|q: int| 0 <= q < refs@.len() ==> #[trigger] refs@[q] < xml@.len(),
                epub.wf(),
                ordered_at_every_level(epub.toc@),
                epub.spine_view() + spine_refs(xml@, ss.subrange(k as int, ss.len() as int))
                    == s0 + spine_refs(xml@, ss),
                epub.resources_view() == resources_after(r0, xml@, cs, root_base@),
                epub.metadata == old(epub).metadata,
                epub.toc == old(epub).toc,
                epub.cover_id == old(epub).cover_id,
                epub.unique_identifier == old(epub).unique_identifier,
            decreases refs@.len() - k,
        {
            let item = refs[k];
            let ghost rest = ss.subrange(k as int, ss.len() as int);
            assert(rest.drop_first() =~= ss.subrange(k + 1, ss.len() as int));
            assert(rest[0] == item as int);
            let ghost before = epub.spine_view();
            match xml.attr(item, "idref") {
                Some(id) => {
                    epub.spine.push(id);
                    assert(epub.spine_view() =~= before.push(id@));
                    assert(epub.spine_view() + spine_refs(xml@, rest.drop_first()) =~= before + spine_refs(xml@, rest));
                },
                None => {
                    assert(spine_refs(xml@, rest) =~= spine_refs(xml@, rest.drop_first()));
                },
            }
            k += 1;
        }
        assert(ss.subrange(k as int, ss.len() as int) =~= Seq::<int>::empty());
        assert(epub.spine_view() =~= s0 + spine_refs(xml@, ss));
        // toc.ncx
        let toc_attr = xml.attr(spine, "toc");
        match toc_attr {
            Some(toc) => {
                let _ = Self::fill_toc(epub, root_base, archive, toc.as_str());
            },
            None => {},
        }
        let ghost toc_now = epub.toc@;
        // metadata
        let metadata = match xml.find_in_document("metadata") {
            Some(m) => m,
            None => return Err(ArchiveError::ParsingFailure),
        };
        let nodes = xml.children(metadata);
        let ghost ms = as_ints(nodes@);
        let ghost m0 = epub.metadata_view();
        let ghost u0 = epub.unique_identifier.deep_view();
        let mut k: usize = 0;
        assert(ms.subrange(0, ms.len() as int) =~= ms);
        while k < nodes.len()
            invariant
                k <= nodes@.len(),
                ms == as_ints(nodes@),
                forall|q: int| 0 <= q < nodes@.len() ==> #[trigger] nodes@[q] < xml@.len(),
                epub.wf(),
                ordered_at_every_level(epub.toc@),
                epub.toc@ == toc_now,
                uid.deep_view() == declared_uid(xml@),
                metadata_after(epub.metadata_view(), xml@, ms.subrange(k as int, ms.len() as int))
                    == metadata_after(m0, xml@, ms),
                identifier_after(epub.unique_identifier.deep_view(), xml@, ms.subrange(k as int, ms.len() as int), declared_uid(xml@))
                    == identifier_after(u0, xml@, ms, declared_uid(xml@)),
                epub.resources_view() == resources_after(r0, xml@, cs, root_base@),
                epub.spine_view() == s0 + spine_refs(xml@, ss),
                epub.cover_id == old(epub).cover_id,
            decreases nodes@.len() - k,
        {
            let item = nodes[k];
            let ghost rest = ms.subrange(k as int, ms.len() as int);
            assert(rest.drop_first() =~= ms.subrange(k + 1, ms.len() as int));
            assert(rest[0] == item as int);
            Self::record_metadata(epub, xml, item, &uid);
            k += 1;
        }
        assert(ms.subrange(k as int, ms.len() as int) =~= Seq::<int>::empty());
        // cover
        match epub.metadata_pos("cover") {
            Some(i) => {
                if epub.metadata[i].1.len() > 0 {
                    epub.cover_id = Some(epub.metadata[i].1[0].content.clone());
                }
            },
            None => {},
        }
        Ok(())
    }


    /// Records the metadata that child `item` of `metadata` carries, and the
    /// unique identifier where it is the identifier the package names.
    fn record_metadata(epub: &mut EpubMetadata, xml: &XmlDocument, item: usize, uid: &Option<String>)
        requires
            old(epub).wf(),
            item < xml@.len(),
        ensures
            final(epub).wf(),
            final(epub).metadata_view() == match meta_entry(xml@, item as int) {
                Some(e) => append_under(old(epub).metadata_view(), e.0, e.1),
                None => old(epub).metadata_view(),
            },
            final(epub).unique_identifier.deep_view() == if old(epub).unique_identifier is None
                && uid is Some && is_tagged(xml@, item as int, "identifier"@) && attr_of(
                xml@[item as int].4,
                "id"@,
            ) == uid.deep_view() {
                Some(text_or_empty(xml@, item as int))
            } else {
                old(epub).unique_identifier.deep_view()
            },
            final(epub).resources == old(epub).resources,
            final(epub).spine == old(epub).spine,
            final(epub).toc == old(epub).toc,
            final(epub).cover_id == old(epub).cover_id,
    {
        let text = match xml.text(item) {
            Some(t) => t,
            None => String::new(),
        };
        if xml.has_tag_name(item, "identifier") && epub.unique_identifier.is_none() {
            match (xml.attr(item, "id"), uid) {
                (Some(id), Some(u)) => {
                    if str_eq(id.as_str(), u.as_str()) {
                        epub.unique_identifier = Some(text.clone());
                    } else {
                        assert(attr_of(xml@[item as int].4, "id"@) != uid.deep_view());
                    }
                },
                _ => {},
            }
        }
        let is_meta = xml.has_tag_name(item, "meta");
        let (key, value) = match (is_meta, xml.attr(item, "name"), xml.attr(item, "content")) {
            (true, Some(k), Some(v)) => (k, v),
            _ => match xml.attr(item, "property") {
                Some(k) => (k, text),
                None => (xml.tag(item), text),
            },
        };
        let node = MetadataNode::from_attr(value, xml, item);
        epub.push_metadata(key, node);
    }
}

} // verus!
