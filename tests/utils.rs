use std::io::Cursor;
use std::io::Write;

use epub::archive::EpubArchive;
use epub::doc::get_root_file;
use epub::error::ArchiveError;
use epub::parsers::v2::parse_usize;
use epub::utils::{build_epub_uri, convert_path_separators, parent_dir, percent_decode};
use epub::xmlutils::{ensure_utf8, parse_xml, resolve_entities, sniff_bom, TextEncoding, XMLError};

#[test]
fn uri_rewriting_walks_relative_references() {
    assert_eq!(
        build_epub_uri("OEBPS/Text/ch1.xhtml", "epub://", "../Styles/a.css"),
        "epub://OEBPS/Styles/a.css"
    );
    assert_eq!(
        build_epub_uri("OEBPS/Text/ch1.xhtml", "epub://", "http://example.com/x"),
        "http://example.com/x"
    );
    assert_eq!(
        build_epub_uri("OEBPS/Text/ch1.xhtml", "epub://", "./img/./a.png"),
        "epub://OEBPS/Text/img/a.png"
    );
    assert_eq!(build_epub_uri("ch1.xhtml", "x:", "../../a.css"), "x:a.css");
    assert_eq!(build_epub_uri("a/b.x", "p:", "httpx"), "p:a/httpx");
    assert_eq!(build_epub_uri("a/b.x", "p:", "https://e.org/y"), "https://e.org/y");
    assert_eq!(build_epub_uri("a/b.xhtml", "", "c.xhtml#f"), "a/c.xhtml#f");
}

#[test]
fn path_joining() {
    assert_eq!(convert_path_separators("OEBPS", "Text/ch1.xhtml"), "OEBPS/Text/ch1.xhtml");
    assert_eq!(convert_path_separators("", "ch1.xhtml"), "ch1.xhtml");
    assert_eq!(convert_path_separators("OEBPS/", "a.xhtml"), "OEBPS/a.xhtml");
    assert_eq!(convert_path_separators("OEBPS", "/abs.xhtml"), "/abs.xhtml");
    assert_eq!(parent_dir("OEBPS/Text/content.opf"), "OEBPS/Text");
    assert_eq!(parent_dir("content.opf"), "");
}

#[test]
fn percent_decoding() {
    assert_eq!(percent_decode("a%20b.xhtml"), Some("a b.xhtml".to_string()));
    assert_eq!(percent_decode("plain"), Some("plain".to_string()));
    assert_eq!(percent_decode("bad%FF"), None);
}

#[test]
fn play_order_parsing() {
    assert_eq!(parse_usize("12"), Some(12));
    assert_eq!(parse_usize("+7"), Some(7));
    assert_eq!(parse_usize("0"), Some(0));
    assert_eq!(parse_usize(""), None);
    assert_eq!(parse_usize("+"), None);
    assert_eq!(parse_usize("1a"), None);
    assert_eq!(parse_usize("-1"), None);
    assert_eq!(parse_usize(" 1"), None);
    assert_eq!(parse_usize(&usize::MAX.to_string()), Some(usize::MAX));
    assert_eq!(parse_usize("99999999999999999999999"), None);
}

#[test]
fn utf16le_bom_decodes_like_plain_utf8() {
    let text = "<container><rootfile full-path=\"OEBPS/é.opf\"/></container>";
    let mut le = vec![0xFF, 0xFE];
    for u in text.encode_utf16() {
        le.extend_from_slice(&u.to_le_bytes());
    }
    assert_eq!(ensure_utf8(&le), ensure_utf8(text.as_bytes()));
    assert_eq!(ensure_utf8(&le), text);
    let mut be = vec![0xFE, 0xFF];
    for u in text.encode_utf16() {
        be.extend_from_slice(&u.to_be_bytes());
    }
    assert_eq!(ensure_utf8(&be), text);
    let bom8 = [vec![0xEF, 0xBB, 0xBF], text.as_bytes().to_vec()].concat();
    assert_eq!(ensure_utf8(&bom8), text);
}

#[test]
fn bom_sniffing() {
    assert_eq!(sniff_bom(&[0xEF, 0xBB, 0xBF, 0x41]), (TextEncoding::Utf8, 3));
    assert_eq!(sniff_bom(&[0xFF, 0xFE]), (TextEncoding::Utf16Le, 2));
    assert_eq!(sniff_bom(&[0xFE, 0xFF, 0x00]), (TextEncoding::Utf16Be, 2));
    assert_eq!(sniff_bom(&[0x3C]), (TextEncoding::Utf8, 0));
    assert_eq!(sniff_bom(&[]), (TextEncoding::Utf8, 0));
}

#[test]
fn named_entities_resolve() {
    let s: Vec<char> = "a&nbsp;b&copy;&reg;&amp;".chars().collect();
    let r: String = resolve_entities(&s).into_iter().collect();
    assert_eq!(r, "a\u{a0}b\u{a9}\u{ae}&amp;");
    let doc = parse_xml("<p title=\"&copy;\">x&nbsp;y</p>").unwrap();
    let p = doc.root_element().unwrap();
    assert_eq!(doc.text(p), Some("x\u{a0}y".to_string()));
    assert_eq!(doc.attr(p, "title"), Some("\u{a9}".to_string()));
}

#[test]
fn xml_tree_queries() {
    let doc = parse_xml("<a xmlns:x=\"urn:x\"><b x:k=\"1\">t</b><c><b k=\"2\"/></c><d/></a>").unwrap();
    let a = doc.root_element().unwrap();
    assert_eq!(doc.tag(a), "a");
    let kids: Vec<String> = doc.children(a).into_iter().map(|i| doc.tag(i)).collect();
    assert_eq!(kids, vec!["b", "c", "d"]);
    let bs = doc.find_all("b", 0, doc.len());
    assert_eq!(bs.len(), 2);
    assert_eq!(doc.attr(bs[0], "k"), Some("1".to_string()));
    assert_eq!(doc.attr(bs[1], "k"), Some("2".to_string()));
    assert_eq!(doc.text(bs[0]), Some("t".to_string()));
    let c = doc.find_in_document("c").unwrap();
    assert_eq!(doc.find_descendant(c, "b"), Some(bs[1]));
    assert_eq!(doc.find_descendant(c, "d"), None);
    assert!(matches!(parse_xml("<a><b></a>"), Err(XMLError::InvalidXml(_))));
}

#[test]
fn root_file_lookup() {
    let ok = b"<container><rootfiles><rootfile full-path=\"OEBPS/content.opf\"/></rootfiles></container>";
    assert_eq!(get_root_file(ok).unwrap(), "OEBPS/content.opf");
    assert!(matches!(get_root_file(b"<container/>"), Err(ArchiveError::ParsingFailure)));
    assert!(matches!(
        get_root_file(b"<container><rootfile/></container>"),
        Err(ArchiveError::ParsingFailure)
    ));
    assert!(matches!(get_root_file(b"not xml <"), Err(ArchiveError::Xml(_))));
}

fn archive_with(name: &str, body: &[u8]) -> EpubArchive {
    let mut w = zip::ZipWriter::new(Cursor::new(Vec::new()));
    w.start_file(name, zip::write::FileOptions::default()).unwrap();
    w.write_all(body).unwrap();
    let bytes = w.finish().unwrap().into_inner();
    EpubArchive::from_reader(Cursor::new(bytes)).unwrap()
}

#[test]
fn percent_encoded_entry_names_fall_back_to_decoded() {
    let mut archive = archive_with("OEBPS/Text/chapter one.xhtml", b"<p/>");
    assert_eq!(archive.get_entry("OEBPS/Text/chapter one.xhtml").unwrap(), b"<p/>".to_vec());
    assert_eq!(archive.get_entry("OEBPS/Text/chapter%20one.xhtml").unwrap(), b"<p/>".to_vec());
    assert!(matches!(archive.get_entry("OEBPS/none.xhtml"), Err(ArchiveError::Zip(_))));
    assert!(matches!(archive.get_entry("OEBPS/%FF.xhtml"), Err(ArchiveError::Utf8(_))));
}

#[test]
fn entries_as_text() {
    let mut archive = archive_with("META-INF/container.xml", b"<container/>");
    assert_eq!(archive.get_container_file().unwrap(), b"<container/>".to_vec());
    assert_eq!(archive.get_entry_as_str("META-INF/container.xml").unwrap(), "<container/>");
    let mut bad = archive_with("x.bin", &[0xFF, 0xFE, 0x00]);
    assert!(matches!(bad.get_entry_as_str("x.bin"), Err(ArchiveError::Utf8(_))));
    assert!(EpubArchive::from_reader(Cursor::new(b"not a zip".to_vec())).is_err());
}

#[test]
fn page_rewriting_keeps_other_markup() {
    let html = "<p class=x>t</p><img src=\"a.png\" alt=y>";
    let out = epub::xmlutils::rewrite_page(html, "OEBPS/t.xhtml", "p:").unwrap();
    assert_eq!(out, "<p class=x>t</p><img src=\"p:OEBPS/a.png\" alt=y>");
}

#[test]
fn document_opens_from_an_archive() {
    let mut w = zip::ZipWriter::new(Cursor::new(Vec::new()));
    w.start_file("META-INF/container.xml", zip::write::FileOptions::default()).unwrap();
    w.write_all(b"<container><rootfiles><rootfile full-path=\"p.opf\"/></rootfiles></container>").unwrap();
    w.start_file("p.opf", zip::write::FileOptions::default()).unwrap();
    w.write_all(b"<package version=\"3.0\"><metadata/><manifest><item id=\"a\" href=\"a.xhtml\" media-type=\"t\"/></manifest><spine><itemref idref=\"a\"/></spine></package>").unwrap();
    let bytes = w.finish().unwrap().into_inner();
    let archive = EpubArchive::from_reader(Cursor::new(bytes.clone())).unwrap();
    let doc = epub::doc::EpubDoc::from_archive(archive).unwrap();
    assert_eq!(doc.root_base, "");
    assert_eq!(doc.context.resource("a").unwrap().path, "a.xhtml");
    assert_eq!(doc.context.spine, vec!["a".to_string()]);
    // a package without a version does not open
    let mut w = zip::ZipWriter::new(Cursor::new(Vec::new()));
    w.start_file("META-INF/container.xml", zip::write::FileOptions::default()).unwrap();
    w.write_all(b"<container><rootfile full-path=\"p.opf\"/></container>").unwrap();
    w.start_file("p.opf", zip::write::FileOptions::default()).unwrap();
    w.write_all(b"<package><metadata/><manifest/><spine/></package>").unwrap();
    let bytes = w.finish().unwrap().into_inner();
    let archive = EpubArchive::from_reader(Cursor::new(bytes)).unwrap();
    assert!(matches!(epub::doc::EpubDoc::from_archive(archive), Err(ArchiveError::ParsingFailure)));
}

#[test]
fn manifest_items_without_required_attributes_are_skipped() {
    let doc = parse_xml("<manifest><item id=\"a\" href=\"x/a.xhtml\" media-type=\"t\" properties=\"nav\"/><item id=\"b\" media-type=\"t\"/></manifest>").unwrap();
    let items = doc.children(doc.root_element().unwrap());
    let mut ctx = epub::parsers::EpubMetadata::new();
    assert_eq!(ctx.insert_resource("OEBPS", &doc, items[0]), Some(()));
    assert_eq!(ctx.insert_resource("OEBPS", &doc, items[1]), None);
    assert_eq!(ctx.resources.len(), 1);
    let a = ctx.resource("a").unwrap();
    assert_eq!(a.path, "OEBPS/x/a.xhtml");
    assert_eq!(a.property.as_deref(), Some("nav"));
}

#[test]
fn utf16le_surrogate_pairs_decode() {
    let text = "<t>\u{1D11E} clef</t>";
    let mut le = vec![0xFF, 0xFE];
    for u in text.encode_utf16() {
        le.extend_from_slice(&u.to_le_bytes());
    }
    assert_eq!(ensure_utf8(&le), text);
    assert_eq!(ensure_utf8(text.as_bytes()), text);
}
