//! Archive-relative paths: joining, parent directories, percent-decoding, and
//! the rewriting of relative references into externally resolvable URIs.
use vstd::prelude::*;

use crate::text::{chars_of, string_of};
use crate::xmlutils::{holds_at, holds_at_exec};

verus! {

/// `base` joined with `rel` by a forward slash, as a path is joined: a `rel`
/// that starts at the root replaces `base`, and an empty `base` adds nothing.
pub open spec fn joined(base: Seq<char>, rel: Seq<char>) -> Seq<char> {
    if base.len() == 0 {
        rel
    } else if rel.len() > 0 && rel[0] == '/' {
        rel
    } else if base.last() == '/' {
        base + rel
    } else {
        base + seq!['/'] + rel
    }
}

/// Joins `href` to `root_base` with forward slashes, whatever the platform, so
/// that the archive finds the entry by that name.
pub fn convert_path_separators(root_base: &str, href: &str) -> (r: String)
    ensures
        r@ == joined(root_base@, href@),
{
    let base = chars_of(root_base);
    let rel = chars_of(href);
    let mut out = base.clone();
    if base.len() == 0 || (rel.len() > 0 && rel[0] == '/') {
        return string_of(&rel);
    }
    if base[base.len() - 1] != '/' {
        out.push('/');
    }
    let mut i: usize = 0;
    let ghost start = out@;
    while i < rel.len()
        invariant
            i <= rel@.len(),
            out@ == start + rel@.subrange(0, i as int),
        decreases rel@.len() - i,
    {
        out.push(rel[i]);
        i += 1;
        assert(out@ =~= start + rel@.subrange(0, i as int));
    }
    assert(rel@.subrange(0, rel@.len() as int) =~= rel@);
    assert(base@ == root_base@);
    proof {
        if base@.last() == '/' {
            assert(out@ =~= root_base@ + href@);
        } else {
            assert(out@ =~= root_base@ + seq!['/'] + href@);
        }
    }
    string_of(&out)
}

/// The characters of `s` before position `i` up to the last slash among them,
/// that slash excluded; empty where there is none.
pub open spec fn parent_from(s: Seq<char>, i: int) -> Seq<char>
    decreases i,
{
    if i <= 0 || i > s.len() {
        Seq::empty()
    } else if s[i - 1] == '/' {
        s.subrange(0, i - 1)
    } else {
        parent_from(s, i - 1)
    }
}

/// The directory that holds the entry `path`: everything before its last
/// slash, or empty for an entry at the top of the archive.
pub open spec fn parent_of(path: Seq<char>) -> Seq<char> {
    parent_from(path, path.len() as int)
}

/// The directory that holds the archive entry `path`.
pub fn parent_dir(path: &str) -> (r: String)
    ensures
        r@ == parent_of(path@),
{
    let s = chars_of(path);
    let mut i = s.len();
    while i > 0 && s[i - 1] != '/'
        invariant
            i <= s@.len(),
            s@ == path@,
            parent_from(s@, i as int) == parent_of(path@),
        decreases i,
    {
        i -= 1;
    }
    let mut out: Vec<char> = Vec::new();
    if i > 0 {
        let mut k: usize = 0;
        while k < i - 1
            invariant
                i <= s@.len(),
                k <= i - 1,
                out@ == s@.subrange(0, k as int),
            decreases i - 1 - k,
        {
            out.push(s[k]);
            k += 1;
            assert(out@ =~= s@.subrange(0, k as int));
        }
    }
    string_of(&out)
}

/// The value of a hexadecimal digit, either case.
pub open spec fn hex_value(b: u8) -> Option<int> {
    if 0x30 <= b <= 0x39 {
        Some(b - 0x30)
    } else if 0x61 <= b <= 0x66 {
        Some(b - 0x61 + 10)
    } else if 0x41 <= b <= 0x46 {
        Some(b - 0x41 + 10)
    } else {
        None
    }
}

/// The bytes `b` with every `%` followed by two hexadecimal digits replaced
/// by the byte those digits write; all other bytes kept.
pub open spec fn percent_decoded_bytes(b: Seq<u8>) -> Seq<u8>
    decreases b.len(),
{
    if b.len() == 0 {
        Seq::empty()
    } else if b[0] == 0x25 && b.len() >= 3 && hex_value(b[1]) is Some && hex_value(b[2]) is Some {
        seq![(hex_value(b[1])->0 * 16 + hex_value(b[2])->0) as u8] + percent_decoded_bytes(
            b.subrange(3, b.len() as int),
        )
    } else {
        seq![b[0]] + percent_decoded_bytes(b.drop_first())
    }
}

/// The text that the percent-encoded `s` stands for: its UTF-8 bytes
/// percent-decoded, where they are valid UTF-8.
pub open spec fn percent_decoded(s: Seq<char>) -> Option<Seq<char>> {
    let d = percent_decoded_bytes(vstd::utf8::encode_utf8(s));
    if vstd::utf8::valid_utf8(d) {
        Some(vstd::utf8::decode_utf8(d))
    } else {
        None
    }
}

/// Relies on `percent_encoding::percent_decode` followed by `decode_utf8`:
/// `%` and two hex digits (either case) stand for one byte, all else is kept,
/// and the bytes must be valid UTF-8, else the UTF-8 error.
#[verifier::external_body]
pub(crate) fn percent_decode_utf8(input: &str) -> (r: Result<String, std::str::Utf8Error>)
    ensures
        r is Ok <==> percent_decoded(input@) is Some,
        r matches Ok(s) ==> percent_decoded(input@) == Some(s@),
{
    percent_encoding::percent_decode(input.as_bytes()).decode_utf8().map(|s| s.into_owned())
}

/// Decode the provided input if it contains percent encoded values (e.g, URLs).
pub fn percent_decode(input: &str) -> (r: Option<String>)
    ensures
        r.deep_view() == percent_decoded(input@),
{
    match percent_decode_utf8(input) {
        Ok(s) => Some(s),
        Err(_) => None,
    }
}

// ---------------------------------------------------------------------------
// URI rewriting
// ---------------------------------------------------------------------------

/// The pieces of `s` between slashes, from position `i` on, after the pieces
/// `acc` and the piece `cur` that is being read.
pub open spec fn pieces_acc(s: Seq<char>, i: int, acc: Seq<Seq<char>>, cur: Seq<char>) -> Seq<
    Seq<char>,
>
    decreases s.len() - i,
{
    if i < 0 || i >= s.len() {
        acc.push(cur)
    } else if s[i] == '/' {
        pieces_acc(s, i + 1, acc.push(cur), Seq::empty())
    } else {
        pieces_acc(s, i + 1, acc, cur.push(s[i]))
    }
}

/// The pieces of `s` between slashes, empty ones included.
pub open spec fn pieces(s: Seq<char>) -> Seq<Seq<char>> {
    pieces_acc(s, 0, Seq::empty(), Seq::empty())
}

/// `..`
pub open spec fn parent_ref() -> Seq<char> {
    seq!['.', '.']
}

/// Whether a piece names a path component: not empty and not `.`.
pub open spec fn is_component(p: Seq<char>) -> bool {
    p.len() > 0 && p != seq!['.']
}

/// The components of a base path, `..` kept as a component of its own.
pub open spec fn base_components(stack: Seq<Seq<char>>, ps: Seq<Seq<char>>) -> Seq<Seq<char>>
    decreases ps.len(),
{
    if ps.len() == 0 {
        stack
    } else if is_component(ps[0]) {
        base_components(stack.push(ps[0]), ps.drop_first())
    } else {
        base_components(stack, ps.drop_first())
    }
}

/// One step of resolving a reference: `..` leaves the current directory for
/// its parent, a component enters it, anything else changes nothing.
pub open spec fn step(stack: Seq<Seq<char>>, p: Seq<char>) -> Seq<Seq<char>> {
    if p == parent_ref() {
        if stack.len() > 0 {
            stack.drop_last()
        } else {
            stack
        }
    } else if is_component(p) {
        stack.push(p)
    } else {
        stack
    }
}

/// The directory reached from `stack` by walking the pieces `ps` in order.
pub open spec fn walk(stack: Seq<Seq<char>>, ps: Seq<Seq<char>>) -> Seq<Seq<char>>
    decreases ps.len(),
{
    if ps.len() == 0 {
        stack
    } else {
        walk(step(stack, ps[0]), ps.drop_first())
    }
}

/// The components joined by forward slashes.
pub open spec fn join_components(st: Seq<Seq<char>>) -> Seq<char>
    decreases st.len(),
{
    if st.len() == 0 {
        Seq::empty()
    } else if st.len() == 1 {
        st[0]
    } else {
        join_components(st.drop_last()) + seq!['/'] + st.last()
    }
}

/// `http://`
pub open spec fn http_prefix() -> Seq<char> {
    seq!['h', 't', 't', 'p', ':', '/', '/']
}

/// `https://`
pub open spec fn https_prefix() -> Seq<char> {
    seq!['h', 't', 't', 'p', 's', ':', '/', '/']
}

/// Whether `s` is an absolute `http://` or `https://` link.
pub open spec fn is_web_link(s: Seq<char>) -> bool {
    holds_at(s, 0, http_prefix()) || holds_at(s, 0, https_prefix())
}

/// The reference `append`, found in the archive entry `path`, as a URI that
/// starts with `prepend`: the entry's directory walked by the reference's
/// components. An absolute `http://` or `https://` link is left as it is.
pub open spec fn epub_uri(path: Seq<char>, prepend: Seq<char>, append: Seq<char>) -> Seq<char> {
    if is_web_link(append) {
        append
    } else {
        let base = base_components(Seq::empty(), pieces(path));
        let dir = if base.len() > 0 {
            base.drop_last()
        } else {
            base
        };
        prepend + join_components(walk(dir, pieces(append)))
    }
}

fn split_pieces(s: &Vec<char>) -> (r: Vec<Vec<char>>)
    ensures
        r@.map_values(|p: Vec<char>| p@) == pieces(s@),
{
    let mut acc: Vec<Vec<char>> = Vec::new();
    let mut cur: Vec<char> = Vec::new();
    let mut i: usize = 0;
    assert(acc@.map_values(|p: Vec<char>| p@) =~= Seq::<Seq<char>>::empty());
    assert(cur@ =~= Seq::<char>::empty());
    while i < s.len()
        invariant
            i <= s@.len(),
            pieces_acc(s@, i as int, acc@.map_values(|p: Vec<char>| p@), cur@) == pieces(s@),
        decreases s@.len() - i,
    {
        if s[i] == '/' {
            let ghost prev = acc@.map_values(|p: Vec<char>| p@);
            let ghost c = cur@;
            acc.push(cur);
            assert(acc@.map_values(|p: Vec<char>| p@) =~= prev.push(c));
            cur = Vec::new();
            assert(cur@ =~= Seq::<char>::empty());
        } else {
            cur.push(s[i]);
        }
        i += 1;
    }
    let ghost prev = acc@.map_values(|p: Vec<char>| p@);
    let ghost c = cur@;
    acc.push(cur);
    assert(acc@.map_values(|p: Vec<char>| p@) =~= prev.push(c));
    acc
}

fn chars_eq(a: &Vec<char>, b: &Vec<char>) -> (r: bool)
    ensures
        r == (a@ == b@),
{
    if a.len() != b.len() {
        return false;
    }
    let mut k: usize = 0;
    while k < a.len()
        invariant
            a@.len() == b@.len(),
            k <= a@.len(),
            forall|m: int| 0 <= m < k ==> a@[m] == b@[m],
        decreases a@.len() - k,
    {
        if a[k] != b[k] {
            return false;
        }
        k += 1;
    }
    assert(a@ =~= b@);
    true
}

fn is_component_exec(p: &Vec<char>) -> (r: bool)
    ensures
        r == is_component(p@),
{
    let dot = vec!['.'];
    assert(dot@ =~= seq!['.']);
    p.len() > 0 && !chars_eq(p, &dot)
}

/// Builds the externally resolvable form of the reference `append` found in
/// the archive entry `path`: `url_prepend` followed by the entry's directory
/// walked by the reference's components (`..` goes up one level). References
/// that are absolute `http://` or `https://` links are returned unchanged.
pub fn build_epub_uri(path: &str, url_prepend: &str, append: &str) -> (r: String)
    ensures
        r@ == epub_uri(path@, url_prepend@, append@),
        is_web_link(append@) ==> r@ == append@,
{
    let app = chars_of(append);
    let http = vec!['h', 't', 't', 'p', ':', '/', '/'];
    let https = vec!['h', 't', 't', 'p', 's', ':', '/', '/'];
    assert(http@ =~= http_prefix());
    assert(https@ =~= https_prefix());
    if holds_at_exec(&app, 0, &http) || holds_at_exec(&app, 0, &https) {
        return string_of(&app);
    }
    // the components of the entry's own path
    let base_pieces = split_pieces(&chars_of(path));
    let ghost bp = base_pieces@.map_values(|p: Vec<char>| p@);
    let mut stack: Vec<Vec<char>> = Vec::new();
    let mut i: usize = 0;
    assert(stack@.map_values(|p: Vec<char>| p@) =~= Seq::<Seq<char>>::empty());
    assert(bp.subrange(0, bp.len() as int) =~= bp);
    while i < base_pieces.len()
        invariant
            i <= base_pieces@.len(),
            bp == base_pieces@.map_values(|p: Vec<char>| p@),
            base_components(stack@.map_values(|p: Vec<char>| p@), bp.subrange(i as int, bp.len() as int))
                == base_components(Seq::empty(), bp),
        decreases base_pieces@.len() - i,
    {
        let ghost st = stack@.map_values(|p: Vec<char>| p@);
        assert(bp.subrange(i as int, bp.len() as int).drop_first() =~= bp.subrange(
            i + 1,
            bp.len() as int,
        ));
        if is_component_exec(&base_pieces[i]) {
            stack.push(base_pieces[i].clone());
            assert(stack@.map_values(|p: Vec<char>| p@) =~= st.push(bp[i as int]));
        }
        i += 1;
    }
    assert(bp.subrange(i as int, bp.len() as int) =~= Seq::<Seq<char>>::empty());
    assert(stack@.map_values(|p: Vec<char>| p@) == base_components(Seq::empty(), bp));
    // its directory
    if stack.len() > 0 {
        let ghost st = stack@.map_values(|p: Vec<char>| p@);
        stack.pop();
        assert(stack@.map_values(|p: Vec<char>| p@) =~= st.drop_last());
    }
    // walked by the reference
    let rel_pieces = split_pieces(&app);
    let ghost rp = rel_pieces@.map_values(|p: Vec<char>| p@);
    let ghost dir = stack@.map_values(|p: Vec<char>| p@);
    let dotdot = vec!['.', '.'];
    assert(dotdot@ =~= parent_ref());
    let mut j: usize = 0;
    assert(rp.subrange(0, rp.len() as int) =~= rp);
    while j < rel_pieces.len()
        invariant
            j <= rel_pieces@.len(),
            dotdot@ == parent_ref(),
            rp == rel_pieces@.map_values(|p: Vec<char>| p@),
            walk(stack@.map_values(|p: Vec<char>| p@), rp.subrange(j as int, rp.len() as int))
                == walk(dir, rp),
        decreases rel_pieces@.len() - j,
    {
        let ghost st = stack@.map_values(|p: Vec<char>| p@);
        assert(rp.subrange(j as int, rp.len() as int).drop_first() =~= rp.subrange(
            j + 1,
            rp.len() as int,
        ));
        if chars_eq(&rel_pieces[j], &dotdot) {
            if stack.len() > 0 {
                stack.pop();
                assert(stack@.map_values(|p: Vec<char>| p@) =~= st.drop_last());
            }
        } else if is_component_exec(&rel_pieces[j]) {
            stack.push(rel_pieces[j].clone());
            assert(stack@.map_values(|p: Vec<char>| p@) =~= st.push(rp[j as int]));
        }
        j += 1;
    }
    assert(rp.subrange(j as int, rp.len() as int) =~= Seq::<Seq<char>>::empty());
    let ghost fin = stack@.map_values(|p: Vec<char>| p@);
    assert(fin == walk(dir, rp));
    // joined after the prefix
    let mut out = chars_of(url_prepend);
    let ghost pre = out@;
    let mut k: usize = 0;
    while k < stack.len()
        invariant
            k <= stack@.len(),
            fin == stack@.map_values(|p: Vec<char>| p@),
            out@ == pre + join_components(fin.subrange(0, k as int)),
        decreases stack@.len() - k,
    {
        let ghost before = out@;
        if k > 0 {
            out.push('/');
        }
        let piece = &stack[k];
        let mut m: usize = 0;
        let ghost mid = out@;
        while m < piece.len()
            invariant
                m <= piece@.len(),
                out@ == mid + piece@.subrange(0, m as int),
            decreases piece@.len() - m,
        {
            out.push(piece[m]);
            m += 1;
            assert(out@ =~= mid + piece@.subrange(0, m as int));
        }
        assert(piece@.subrange(0, piece@.len() as int) =~= piece@);
        assert(fin.subrange(0, k + 1).drop_last() =~= fin.subrange(0, k as int));
        if k == 0 {
            assert(fin.subrange(0, 1) =~= seq![piece@]);
            assert(out@ =~= pre + join_components(fin.subrange(0, k + 1)));
        } else {
            assert(out@ =~= pre + join_components(fin.subrange(0, k + 1)));
        }
        k += 1;
    }
    assert(fin.subrange(0, k as int) =~= fin);
    string_of(&out)
}

} // verus!
