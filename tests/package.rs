use std::io::Cursor;
use std::io::Write;

use epub::doc::EpubDoc;

fn build_epub(files: &[(&str, Vec<u8>)]) -> Vec<u8> {
    let mut w = zip::ZipWriter::new(Cursor::new(Vec::new()));
    for (name, bytes) in files {
        w.start_file(*name, zip::write::FileOptions::default()).unwrap();
        w.write_all(bytes).unwrap();
    }
    w.finish().unwrap().into_inner()
}

fn container() -> Vec<u8> {
    b"<?xml version=\"1.0\"?><container version=\"1.0\"><rootfiles><rootfile full-path=\"OEBPS/content.opf\" media-type=\"application/oebps-package+xml\"/></rootfiles></container>".to_vec()
}

fn open(opf: &str, extra: &[(&str, &str)]) -> EpubDoc {
    let mut files = vec![
        ("META-INF/container.xml", container()),
        ("OEBPS/content.opf", opf.as_bytes().to_vec()),
    ];
    for (name, body) in extra {
        files.push((*name, body.as_bytes().to_vec()));
    }
    EpubDoc::from_reader(Cursor::new(build_epub(&files))).unwrap()
}

const POOH_OPF: &str = r#"<?xml version="1.0" encoding="utf-8"?>
<package xmlns="http://www.idpf.org/2007/opf" version="3.0" unique-identifier="id">
  <metadata xmlns:dc="http://purl.org/dc/elements/1.1/">
    <dc:identifier id="id">urn:uuid:pooh</dc:identifier>
    <dc:title>Winnie-the-Pooh</dc:title>
    <meta property="dcterms:modified">2020-01-01T00:00:00Z</meta>
  </metadata>
  <manifest>
    <item id="toc" href="toc.xhtml" media-type="application/xhtml+xml" properties="nav"/>
    <item id="cover.svg" href="images/cover.svg" media-type="image/svg+xml" properties="cover-image"/>
    <item id="titlepage" href="text/titlepage.xhtml" media-type="application/xhtml+xml"/>
    <item id="chapter-1" href="text/chapter-1.xhtml" media-type="application/xhtml+xml"/>
  </manifest>
  <spine>
    <itemref idref="titlepage"/>
    <itemref idref="chapter-1"/>
  </spine>
</package>"#;

const POOH_NAV: &str = r#"<?xml version="1.0" encoding="utf-8"?>
<html xmlns="http://www.w3.org/1999/xhtml" xmlns:epub="http://www.idpf.org/2007/ops">
  <body>
    <nav epub:type="landmarks"><ol><li><a href="text/chapter-1.xhtml">Start</a></li></ol></nav>
    <nav epub:type="toc">
      <ol>
        <li><a href="text/titlepage.xhtml">Titlepage</a></li>
        <li><a href="text/chapter-1.xhtml">Chapter&nbsp;I</a>
          <ol><li><a href="text/chapter-1.xhtml#part%201">Part one</a></li></ol>
        </li>
      </ol>
    </nav>
  </body>
</html>"#;

fn pooh() -> EpubDoc {
    open(
        POOH_OPF,
        &[
            ("OEBPS/toc.xhtml", POOH_NAV),
            ("OEBPS/images/cover.svg", "<svg xmlns=\"http://www.w3.org/2000/svg\"/>"),
            ("OEBPS/text/titlepage.xhtml", "<html><body>Title</body></html>"),
            ("OEBPS/text/chapter-1.xhtml", "<html><body>One</body></html>"),
        ],
    )
}

#[test]
fn correct_table_of_contents() {
    let doc = pooh();

    assert!(
        !doc.context.toc.is_empty(),
        "Table of contents is empty:\n{:#?}",
        doc.context
    );

    let labels = doc
        .context
        .toc
        .iter()
        .map(|i| i.label.clone())
        .collect::<Vec<_>>();

    assert!(labels.contains(&"Titlepage".to_string()),)
}

#[test]
fn correct_cover() {
    let mut doc = pooh();

    assert!(
        doc.get_cover_id().is_some(),
        "Error on cover id: {:#?}",
        doc.get_cover_id()
    );

    let cover = doc.get_cover().unwrap();
    let id = doc.get_cover_id().unwrap().to_string();
    let mime = doc.context.resource(&id).unwrap();

    assert!(!cover.is_empty());
    assert_eq!(mime.mime, "image/svg+xml");
}

#[test]
fn nav_document_entries() {
    let doc = pooh();
    let toc = &doc.context.toc;
    // anchors of the toc nav, flattened in document order, numbered in order
    let labels: Vec<&str> = toc.iter().map(|n| n.label.as_str()).collect();
    assert_eq!(labels, vec!["Titlepage", "Chapter\u{a0}I", "Part one"]);
    let orders: Vec<usize> = toc.iter().map(|n| n.play_order).collect();
    assert_eq!(orders, vec![0, 1, 2]);
    assert_eq!(toc[0].content, "OEBPS/text/titlepage.xhtml");
    assert_eq!(toc[2].content, "OEBPS/text/chapter-1.xhtml#part 1");
    // the nested list is a sibling of the chapter's anchor, not inside it
    assert!(toc[1].children.is_empty());
}

#[test]
fn release_identifier_and_metadata() {
    let doc = pooh();
    assert_eq!(
        doc.get_release_identifier(),
        Some("urn:uuid:pooh@2020-01-01T00:00:00Z".to_string())
    );
    assert_eq!(doc.mdata("title"), Some("Winnie-the-Pooh"));
    assert_eq!(doc.mdata("nothing"), None);
    let full = doc.mdata_full("dcterms:modified").unwrap();
    assert_eq!(full.find_attr("property"), Some("dcterms:modified"));
    assert_eq!(doc.root_base, "OEBPS");
    assert_eq!(doc.root_file, "OEBPS/content.opf");
}

#[test]
fn resource_lookups() {
    let mut doc = pooh();
    assert_eq!(doc.get_resource_mime("titlepage"), Some("application/xhtml+xml"));
    assert_eq!(doc.get_resource_mime("nope"), None);
    assert_eq!(
        doc.get_resource_mime_by_path("OEBPS/images/cover.svg"),
        Some("image/svg+xml")
    );
    assert_eq!(doc.resource_uri_to_chapter("OEBPS/text/chapter-1.xhtml"), Some(1));
    assert_eq!(doc.resource_uri_to_chapter("OEBPS/toc.xhtml"), None);
    assert_eq!(doc.get_resource_str("titlepage"), Some("<html><body>Title</body></html>".to_string()));
    assert_eq!(doc.get_resource("nope"), None);
    assert!(doc.get_resource_by_path("OEBPS/missing.xhtml").is_err());
    assert!(doc.get_resource_str_by_path("OEBPS/text/chapter-1.xhtml").is_ok());
}

// ----- manifest and spine -----

fn opf(version: &str, metadata: &str, manifest: &str, spine: &str) -> String {
    format!(
        "<package xmlns=\"http://www.idpf.org/2007/opf\" version=\"{}\"><metadata xmlns:dc=\"http://purl.org/dc/elements/1.1/\">{}</metadata><manifest>{}</manifest><spine{}</spine></package>",
        version, metadata, manifest, spine
    )
}

#[test]
fn distinct_manifest_ids_give_one_resource_each() {
    let manifest = "<item id=\"a\" href=\"a.xhtml\" media-type=\"t\"/><item id=\"b\" href=\"b.xhtml\" media-type=\"t\"/><item id=\"c\" href=\"sub/c.xhtml\" media-type=\"t\" properties=\"nav\"/>";
    let doc = open(&opf("2.0", "", manifest, ">"), &[]);
    assert_eq!(doc.context.resources.len(), 3);
    let c = doc.context.resource("c").unwrap();
    assert_eq!(c.path, "OEBPS/sub/c.xhtml");
    assert_eq!(c.property.as_deref(), Some("nav"));
}

#[test]
fn duplicate_manifest_id_overwrites() {
    let manifest = "<item id=\"a\" href=\"a.xhtml\" media-type=\"t\"/><item id=\"a\" href=\"b.xhtml\" media-type=\"u\"/>";
    let doc = open(&opf("2.0", "", manifest, ">"), &[]);
    assert_eq!(doc.context.resources.len(), 1);
    assert_eq!(doc.context.resource("a").unwrap().path, "OEBPS/b.xhtml");
}

#[test]
fn spine_round_trip() {
    let manifest = "<item id=\"a\" href=\"a.xhtml\" media-type=\"t\"/><item id=\"b\" href=\"b.xhtml\" media-type=\"t\"/>";
    let spine = "><itemref idref=\"b\"/><itemref idref=\"a\"/><itemref idref=\"x\"/>";
    let doc = open(&opf("2.0", "", manifest, spine), &[]);
    assert_eq!(doc.get_num_pages(), 3);
    for i in 0..3 {
        let id = doc.id_at_spine_index(i).unwrap().to_string();
        assert_eq!(doc.resource_id_to_chapter(&id), Some(i));
    }
    assert_eq!(doc.id_at_spine_index(3), None);
    assert_eq!(doc.resource_id_to_chapter("zzz"), None);
}

#[test]
fn missing_required_elements_fail() {
    let bad = "<package version=\"2.0\"><metadata/><manifest/></package>";
    let files = vec![
        ("META-INF/container.xml", container()),
        ("OEBPS/content.opf", bad.as_bytes().to_vec()),
    ];
    assert!(EpubDoc::from_reader(Cursor::new(build_epub(&files))).is_err());
    let unversioned = "<package><metadata/><manifest/><spine/></package>";
    let files = vec![
        ("META-INF/container.xml", container()),
        ("OEBPS/content.opf", unversioned.as_bytes().to_vec()),
    ];
    assert!(EpubDoc::from_reader(Cursor::new(build_epub(&files))).is_err());
}

// ----- table of contents -----

const NCX: &str = r#"<?xml version="1.0"?>
<ncx xmlns="http://www.daisy.org/z3986/2005/ncx/" version="2005-1">
  <navMap>
    <navPoint id="n2" playOrder="2"><navLabel><text>B</text></navLabel><content src="b.xhtml"/></navPoint>
    <navPoint id="n1" playOrder="1"><navLabel><text>A</text></navLabel><content src="a%20x.xhtml"/>
      <navPoint id="n5" playOrder="5"><navLabel><text>A2</text></navLabel><content src="a.xhtml#2"/></navPoint>
      <navPoint id="n4" playOrder="4"><navLabel><text>A1</text></navLabel><content src="a.xhtml#1"/></navPoint>
    </navPoint>
    <navPoint id="bad" playOrder="x"><navLabel><text>C</text></navLabel><content src="c.xhtml"/></navPoint>
    <navPoint id="nolabel" playOrder="3"><content src="c.xhtml"/></navPoint>
  </navMap>
</ncx>"#;

#[test]
fn legacy_toc_is_sorted_at_every_level() {
    let manifest = "<item id=\"ncx\" href=\"toc.ncx\" media-type=\"application/x-dtbncx+xml\"/>";
    let doc = open(&opf("2.0", "", manifest, " toc=\"ncx\">"), &[("OEBPS/toc.ncx", NCX)]);
    let toc = &doc.context.toc;
    let labels: Vec<&str> = toc.iter().map(|n| n.label.as_str()).collect();
    assert_eq!(labels, vec!["A", "B"]);
    assert_eq!(toc[0].content, "OEBPS/a x.xhtml");
    let children: Vec<&str> = toc[0].children.iter().map(|n| n.label.as_str()).collect();
    assert_eq!(children, vec!["A1", "A2"]);
    assert_eq!(toc[0].children[0].play_order, 4);
}

// ----- cover -----

#[test]
fn cover_from_meta() {
    let meta = "<meta name=\"cover\" content=\"X\"/>";
    let manifest = "<item id=\"img\" href=\"i.png\" media-type=\"image/png\"/>";
    let doc = open(&opf("3.0", meta, manifest, ">"), &[]);
    assert_eq!(doc.get_cover_id(), Some("X"));
}

#[test]
fn cover_from_property() {
    let manifest = "<item id=\"a\" href=\"a.xhtml\" media-type=\"t\"/><item id=\"img\" href=\"i.png\" media-type=\"image/png\" properties=\"cover-image\"/>";
    let doc = open(&opf("3.0", "", manifest, ">"), &[]);
    assert_eq!(doc.get_cover_id(), Some("img"));
    // a package of version 2.0 skips the second pass
    let doc = open(&opf("2.0", "", manifest, ">"), &[]);
    assert_eq!(doc.get_cover_id(), None);
}

#[test]
fn no_cover() {
    let manifest = "<item id=\"a\" href=\"a.xhtml\" media-type=\"t\"/>";
    let mut doc = open(&opf("3.0", "<dc:title>T</dc:title>", manifest, ">"), &[]);
    assert_eq!(doc.get_cover_id(), None);
    assert_eq!(doc.get_cover(), None);
}

#[test]
fn meta_with_property_and_unknown_meta() {
    let meta = "<meta property=\"role\">editor</meta><meta refines=\"#x\"/><dc:creator opf:role=\"aut\" xmlns:opf=\"http://www.idpf.org/2007/opf\">Milne</dc:creator>";
    let doc = open(&opf("2.0", meta, "", ">"), &[]);
    assert_eq!(doc.mdata("role"), Some("editor"));
    assert_eq!(doc.mdata("meta"), Some(""));
    let creator = doc.mdata_full("creator").unwrap();
    assert_eq!(creator.content, "Milne");
    assert_eq!(creator.find_attr("role"), Some("aut"));
    assert_eq!(creator.attr[0].name.namespace.as_deref(), Some("http://www.idpf.org/2007/opf"));
}

// ----- reading cursor -----

#[test]
fn cursor_moves_within_spine() {
    let manifest = "<item id=\"a\" href=\"a.xhtml\" media-type=\"t\"/><item id=\"b\" href=\"b.xhtml\" media-type=\"t\"/>";
    let spine = "><itemref idref=\"a\"/><itemref idref=\"b\"/>";
    let mut doc = open(&opf("2.0", "", manifest, spine), &[]);
    assert_eq!(doc.get_current_chapter(), 0);
    assert!(!doc.go_prev());
    assert_eq!(doc.get_current_chapter(), 0);
    assert!(doc.go_next());
    assert_eq!(doc.get_current_chapter(), 1);
    assert!(!doc.go_next());
    assert_eq!(doc.get_current_chapter(), 1);
    assert!(!doc.set_current_chapter(2));
    assert_eq!(doc.get_current_chapter(), 1);
    assert!(doc.set_current_chapter(0));
    assert_eq!(doc.get_current_id(), Some("a"));
}

#[test]
fn page_with_epub_uris() {
    let manifest = "<item id=\"ch1\" href=\"Text/ch1.xhtml\" media-type=\"application/xhtml+xml\"/>";
    let page = "<html><head><link href=\"../Styles/a.css\" rel=\"stylesheet\"/></head><body><a href=\"http://creativecommons.org/licenses/by-sa/3.0/\">cc</a>  <img src=\"../Images/p.png\"/><a href=\"ch2.xhtml#n\">next</a></body></html>";
    let mut doc = open(&opf("2.0", "", manifest, ">"), &[("OEBPS/Text/ch1.xhtml", page)]);
    let out = String::from_utf8(doc.get_page_with_epub_uris("ch1", "epub://").unwrap()).unwrap();
    assert_eq!(
        out,
        "<html><head><link href=\"epub://OEBPS/Styles/a.css\" rel=\"stylesheet\" /></head><body><a href=\"http://creativecommons.org/licenses/by-sa/3.0/\">cc</a>  <img src=\"epub://OEBPS/Images/p.png\" /><a href=\"epub://OEBPS/Text/ch2.xhtml#n\">next</a></body></html>"
    );
    assert!(matches!(
        doc.get_page_with_epub_uris("nope", "epub://"),
        Err(epub::error::ArchiveError::InvalidId)
    ));
}

#[test]
fn context_lookups_by_path_and_errors_described() {
    let doc = pooh();
    let item = doc.context.resource_by_path("OEBPS/images/cover.svg").unwrap();
    assert_eq!(item.mime, "image/svg+xml");
    assert!(doc.context.resource_by_path("images/cover.svg").is_none());
    assert_eq!(epub::error::ArchiveError::InvalidId.describe(), "An invalid ID was provided");
    let node = epub::doc::MetadataNode::from_content("x".to_string());
    assert_eq!(node.content, "x");
    assert!(node.attr.is_empty());
    assert_eq!(node.find_attr("id"), None);
}

#[test]
fn nav_points_compare_by_play_order() {
    let a = epub::doc::NavPoint { label: "A".into(), content: "a".into(), children: vec![], play_order: 1 };
    let b = epub::doc::NavPoint { label: "B".into(), content: "b".into(), children: vec![], play_order: 2 };
    let b2 = epub::doc::NavPoint { label: "other".into(), content: "c".into(), children: vec![], play_order: 2 };
    assert!(a < b);
    assert!(b > a);
    assert!(b == b2);
    assert!(a != b);
}

#[test]
fn metadata_keys_follow_element_kinds() {
    let meta = "<dc:title>T</dc:title><meta property=\"dcterms:modified\">M</meta><meta>Z</meta><dc:subject property=\"topic\">S</dc:subject>";
    let doc = open(&opf("2.0", meta, "", ">"), &[]);
    assert_eq!(doc.mdata("title"), Some("T"));
    assert_eq!(doc.mdata("dcterms:modified"), Some("M"));
    assert_eq!(doc.mdata("meta"), Some("Z"));
    assert_eq!(doc.mdata("topic"), Some("S"));
    assert_eq!(doc.mdata("subject"), None);
}

#[test]
fn resource_fetch_falls_back_to_decoded_name() {
    let manifest = "<item id=\"x\" href=\"Text/a%20b.xhtml\" media-type=\"application/xhtml+xml\"/>";
    let mut doc = open(&opf("2.0", "", manifest, ">"), &[("OEBPS/Text/a b.xhtml", "<p>ab</p>")]);
    assert_eq!(doc.context.resource("x").unwrap().path, "OEBPS/Text/a%20b.xhtml");
    assert_eq!(doc.get_resource("x"), Some(b"<p>ab</p>".to_vec()));
    assert_eq!(doc.get_resource_str("x"), Some("<p>ab</p>".to_string()));
}
