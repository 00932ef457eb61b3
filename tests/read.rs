use std::io::Cursor;
use std::io::Write;

use epub::doc::EpubDoc;

fn build_epub(files: &[(&str, Vec<u8>)]) -> Vec<u8> {
    let mut w = zip::ZipWriter::new(Cursor::new(Vec::new()));
    for (name, bytes) in files {
        w.start_file(*name, zip::write::FileOptions::default()).unwrap();
        w.write_all(bytes).unwrap();
    }
    w.finish().unwrap().into_inner()
}

fn container(root: &str) -> Vec<u8> {
    format!(
        "<?xml version=\"1.0\"?><container version=\"1.0\" xmlns=\"urn:oasis:names:tc:opendocument:xmlns:container\"><rootfiles><rootfile full-path=\"{}\" media-type=\"application/oebps-package+xml\"/></rootfiles></container>",
        root
    )
    .into_bytes()
}

fn utf16le_with_bom(s: &str) -> Vec<u8> {
    let mut out = vec![0xFF, 0xFE];
    for u in s.encode_utf16() {
        out.extend_from_slice(&u.to_le_bytes());
    }
    out
}

fn utf16be_with_bom(s: &str) -> Vec<u8> {
    let mut out = vec![0xFE, 0xFF];
    for u in s.encode_utf16() {
        out.extend_from_slice(&u.to_be_bytes());
    }
    out
}

const METAMORPHOSIS_OPF: &str = "<?xml version=\"1.0\" encoding=\"UTF-16\"?>
<package xmlns=\"http://www.idpf.org/2007/opf\" version=\"2.0\" unique-identifier=\"uid\">
  <metadata xmlns:dc=\"http://purl.org/dc/elements/1.1/\">
    <dc:title>Metamorphosis </dc:title>
    <dc:title>Metamorphosis2 </dc:title>
    <dc:identifier id=\"uid\">urn:isbn:123</dc:identifier>
    <dc:description>Multiple encoding tests &amp; more</dc:description>
  </metadata>
  <manifest>
    <item id=\"ch1\" href=\"Text/ch1.xhtml\" media-type=\"application/xhtml+xml\"/>
    <item id=\"broken\" media-type=\"application/xhtml+xml\"/>
    <item id=\"ch2\" href=\"Text/ch2.xhtml\" media-type=\"application/xhtml+xml\"/>
  </manifest>
  <spine toc=\"missing\">
    <itemref idref=\"ch1\"/>
    <itemref/>
    <itemref idref=\"ch2\"/>
  </spine>
</package>";

fn metamorphosis(opf: Vec<u8>) -> Vec<u8> {
    build_epub(&[
        ("META-INF/container.xml", container("OEBPS/content.opf")),
        ("OEBPS/content.opf", opf),
        ("OEBPS/Text/ch1.xhtml", b"<html><body><p>One</p></body></html>".to_vec()),
        ("OEBPS/Text/ch2.xhtml", b"<html><body><p>Two</p></body></html>".to_vec()),
    ])
}

#[test]
fn read_doc() {
    let bytes = metamorphosis(METAMORPHOSIS_OPF.replace("UTF-16", "UTF-8").into_bytes());
    let doc = EpubDoc::from_reader(Cursor::new(bytes));
    assert!(doc.is_ok());
    let mut doc = doc.unwrap();

    if let Some(title) = doc.mdata("title") {
        println!("Book title: {}", title);
    } else {
        println!("Book title not found");
    }
    println!("Num Pages: {}\n", doc.get_num_pages());

    println!("resources:\n");
    for (k, v) in doc.context.resources.iter() {
        println!("{}: {}\n * {}\n", k, v.mime, v.path);
    }

    let mut visited = vec![doc.get_current_id().unwrap().to_string()];
    while doc.go_next() {
        println!("ID: {}", doc.get_current_id().unwrap());
        visited.push(doc.get_current_id().unwrap().to_string());
        match doc.get_current_str() {
            Some(v) => println!("Value {:?}\n", v),
            None => println!("Text Err\n"),
        }
    }
    assert_eq!(visited, vec!["ch1".to_string(), "ch2".to_string()]);
}

#[test]
fn read_different_format_epubs() {
    let utf8 = METAMORPHOSIS_OPF.replace("UTF-16", "UTF-8");
    let variants = vec![
        utf8.clone().into_bytes(),
        utf16le_with_bom(METAMORPHOSIS_OPF),
        utf16be_with_bom(METAMORPHOSIS_OPF),
        [vec![0xEF, 0xBB, 0xBF], utf8.into_bytes()].concat(),
    ];
    for opf in variants {
        let doc = EpubDoc::from_reader(Cursor::new(metamorphosis(opf))).unwrap();
        assert!(doc
            .mdata("description")
            .unwrap()
            .contains("Multiple encoding tests"));
    }
}

#[test]
fn bad_epub() {
    // the package is encoded in UTF-16, a manifest item lacks its href, a
    // spine entry its idref, and the spine names a table of contents that is
    // not in the manifest
    let doc = EpubDoc::from_reader(Cursor::new(metamorphosis(utf16le_with_bom(METAMORPHOSIS_OPF))));
    assert!(doc.is_ok());
    let doc = doc.unwrap();
    let titles = doc
        .context
        .metadata
        .iter()
        .find(|(k, _)| k == "title")
        .map(|(_, v)| v.iter().map(|i| i.content.clone()).collect::<Vec<_>>());
    assert_eq!(
        titles,
        Some(vec!["Metamorphosis ".to_string(), "Metamorphosis2 ".to_string()])
    );
    assert_eq!(doc.context.resources.len(), 2);
    assert_eq!(doc.context.spine, vec!["ch1".to_string(), "ch2".to_string()]);
    assert!(doc.context.toc.is_empty());
    assert_eq!(doc.context.unique_identifier.as_deref(), Some("urn:isbn:123"));
}
