use piagamdispendik::docx::{validate_batch, validate_single, DataInput, DocxTemplate};
use piagamdispendik::error::DocxError;
use piagamdispendik::substitution::replace_tokens;
use piagamdispendik::tokens::{dedup_tokens, validate_tokens};
use piagamdispendik::values::{string_to_values, vec_str_to_values};
use std::io::{Read, Write};

fn s(x: &str) -> String {
    x.to_string()
}

fn strings(xs: &[&str]) -> Vec<String> {
    xs.iter().map(|x| x.to_string()).collect()
}

fn package(members: &[(&str, &[u8])]) -> Vec<u8> {
    let mut w = zip::ZipWriter::new(std::io::Cursor::new(Vec::new()));
    for (name, bytes) in members {
        w.start_file(*name, zip::write::FileOptions::default()).unwrap();
        w.write_all(bytes).unwrap();
    }
    w.finish().unwrap().into_inner()
}

fn members(bytes: &[u8]) -> Vec<(String, Vec<u8>)> {
    let mut a = zip::ZipArchive::new(std::io::Cursor::new(bytes.to_vec())).unwrap();
    let mut out = Vec::new();
    for i in 0..a.len() {
        let mut f = a.by_index(i).unwrap();
        let mut buf = Vec::new();
        f.read_to_end(&mut buf).unwrap();
        out.push((f.name().to_string(), buf));
    }
    out
}

fn template(body: &str) -> DocxTemplate {
    let data = package(&[
        ("[Content_Types].xml", b"<Types/>"),
        ("word/document.xml", body.as_bytes()),
        ("word/styles.xml", b"<styles/>"),
    ]);
    DocxTemplate::open(s("t.docx"), data).unwrap()
}

#[test]
fn tokens_in_first_appearance_order() {
    let t = template("<w>{{A}} and {{B}}, again {{A}} {{B}} {{A}}</w>");
    assert_eq!(t.template_tokens().unwrap(), strings(&["{{A}}", "{{B}}"]));
}

#[test]
fn tokens_shortest_span_without_newline() {
    let t = template("x {{Name}}}} {{\n{{Prize}}");
    assert_eq!(t.template_tokens().unwrap(), strings(&["{{Name}}", "{{Prize}}"]));
}

#[test]
fn tokens_none_is_an_error() {
    let t = template("<w>no placeholders</w>");
    assert!(matches!(t.template_tokens(), Err(DocxError::Processing(_))));
}

#[test]
fn tokens_malformed_is_an_error() {
    let t = template("<w>{{{A}}</w>");
    assert!(matches!(t.template_tokens(), Err(DocxError::Processing(_))));
}

#[test]
fn body_missing_or_not_utf8() {
    let data = package(&[("other.xml", b"<x/>")]);
    let t = DocxTemplate::open(s("t.docx"), data).unwrap();
    assert!(matches!(t.document_contents(), Err(DocxError::Processing(_))));
    let data = package(&[("word/document.xml", &[0xff, 0xfe, 0x41])]);
    let t = DocxTemplate::open(s("t.docx"), data).unwrap();
    assert!(matches!(t.template_tokens(), Err(DocxError::Validation(_))));
}

#[test]
fn open_rejects_non_zip() {
    assert!(matches!(DocxTemplate::open(s("x"), b"plain text".to_vec()), Err(DocxError::Zip(_))));
}

#[test]
fn token_validation() {
    assert!(matches!(validate_tokens(&vec![]), Err(DocxError::Processing(_))));
    assert!(validate_tokens(&strings(&["{{A}}", "{{Name}}"])).is_ok());
    assert!(validate_tokens(&strings(&["{{}}"])).is_err());
    assert!(validate_tokens(&strings(&["{{A}B}}"])).is_err());
    assert!(validate_tokens(&strings(&["{A}"])).is_err());
}

#[test]
fn dedup_keeps_first() {
    let d = dedup_tokens(strings(&["{{B}}", "{{A}}", "{{B}}", "{{C}}", "{{A}}"]));
    assert_eq!(d, strings(&["{{B}}", "{{A}}", "{{C}}"]));
}

#[test]
fn substitution_replaces_every_occurrence() {
    let out = replace_tokens("{{A}}-{{B}}-{{A}}", &strings(&["{{A}}", "{{B}}"]), &strings(&["x", "y"]));
    assert_eq!(out, "x-y-x");
    assert!(!out.contains("{{A}}") && !out.contains("{{B}}"));
}

#[test]
fn substitution_is_sequential() {
    let out = replace_tokens("{{A}}{{B}}", &strings(&["{{A}}", "{{B}}"]), &strings(&["{{B}}", "z"]));
    assert_eq!(out, "zz");
    let out = replace_tokens("{{A}}{{B}}", &strings(&["{{B}}", "{{A}}"]), &strings(&["z", "{{B}}"]));
    assert_eq!(out, "{{B}}z");
}

#[test]
fn values_from_fields() {
    assert_eq!(vec_str_to_values(&strings(&["  a ", "", " b", "c"])), strings(&["a", "b", "c"]));
    assert_eq!(vec_str_to_values(&strings(&[" "])), strings(&[""]));
    assert_eq!(string_to_values("a, b,,c ", ","), strings(&["a", "b", "c"]));
}

#[test]
fn request_validation() {
    let tokens = strings(&["{{A}}", "{{B}}"]);
    assert!(validate_single(&tokens, &strings(&["1", "2"]), "{{A}}.docx").is_ok());
    assert!(matches!(validate_single(&tokens, &strings(&["1"]), "x"), Err(DocxError::Validation(_))));
    assert!(matches!(validate_single(&tokens, &strings(&["1", "2"]), ""), Err(DocxError::Validation(_))));
    let rows = vec![strings(&["1", "2"]), strings(&["3"])];
    assert!(matches!(validate_batch(&tokens, &rows, "x"), Err(DocxError::Validation(_))));
    assert!(validate_batch(&tokens, &rows[..1].to_vec(), "x").is_ok());
}

#[test]
fn delimited_input_header_and_rows() {
    let data = b"Name,Prize\n Ali ,Gold\nBudi,\n".to_vec();
    let d = DataInput::open(s("in.csv"), &data).unwrap();
    assert_eq!(d.header, Some(strings(&["Name", "Prize"])));
    assert_eq!(d.file_data, vec![strings(&["Ali", "Gold"]), strings(&["Budi"])]);
    let d = DataInput::open(s("in.csv"), &Vec::new()).unwrap();
    assert_eq!(d.header, None);
    assert!(d.file_data.is_empty());
}

#[test]
fn delimited_input_malformed() {
    let data = b"a,b\n1,2,3\n".to_vec();
    assert!(matches!(DataInput::open(s("in.csv"), &data), Err(DocxError::CsvError(_))));
}

#[test]
fn single_document_generation() {
    let t = template("<w>Hello {{Name}}</w>");
    let tokens = t.template_tokens().unwrap();
    let d = t.build_docx(&tokens, &strings(&["Ali"]), "out-{{Name}}.docx", false).unwrap();
    assert_eq!(d.path, "out-Ali.docx");
    let m = members(&d.content);
    assert_eq!(m.len(), 3);
    assert_eq!(m[1], (s("word/document.xml"), b"<w>Hello Ali</w>".to_vec()));
    assert!(matches!(
        t.build_docx(&tokens, &strings(&["Ali"]), "out-{{Name}}.docx", true),
        Err(DocxError::Processing(_))
    ));
    assert!(matches!(t.build_docx(&tokens, &strings(&[]), "x", false), Err(DocxError::Validation(_))));
}

#[test]
fn batch_from_delimited_text() {
    let t = template("<w>{{Name}} wins {{Prize}}</w>");
    let input = DataInput::open(s("in.csv"), &b"Name,Prize\nAli,Gold\nBudi,Silver\n".to_vec()).unwrap();
    assert_eq!(input.header, Some(strings(&["Name", "Prize"])));
    let tokens = t.template_tokens().unwrap();
    assert_eq!(tokens, strings(&["{{Name}}", "{{Prize}}"]));
    let out = t.build_docx_batch(&tokens, &input.file_data, "{{Name}}.docx", &vec![false, false]);
    assert!(out.error.is_none());
    assert_eq!(out.documents.len(), 2);
    assert_eq!(out.documents[0].path, "Ali.docx");
    assert_eq!(out.documents[1].path, "Budi.docx");
    let bodies = ["<w>Ali wins Gold</w>", "<w>Budi wins Silver</w>"];
    for (doc, body) in out.documents.iter().zip(bodies) {
        let m = members(&doc.content);
        assert_eq!(m.len(), 3);
        assert_eq!(m[0], (s("[Content_Types].xml"), b"<Types/>".to_vec()));
        assert_eq!(m[1], (s("word/document.xml"), body.as_bytes().to_vec()));
        assert_eq!(m[2], (s("word/styles.xml"), b"<styles/>".to_vec()));
    }
}

#[test]
fn batch_stops_at_existing_destination() {
    let t = template("<w>{{Name}}</w>");
    let tokens = strings(&["{{Name}}"]);
    let rows = vec![strings(&["Ali"]), strings(&["Budi"])];
    let out = t.build_docx_batch(&tokens, &rows, "{{Name}}.docx", &vec![true, false]);
    assert!(out.documents.is_empty());
    assert!(matches!(out.error, Some(DocxError::Processing(_))));
    let out = t.build_docx_batch(&tokens, &rows, "{{Name}}.docx", &vec![false, true]);
    assert!(out.documents.is_empty());
    match out.error {
        Some(DocxError::Processing(m)) => assert_eq!(m, "the output file already exists: Budi.docx"),
        other => panic!("unexpected {:?}", other),
    }
}

#[test]
fn batch_same_destination_twice() {
    let t = template("<w>{{Name}}</w>");
    let tokens = strings(&["{{Name}}"]);
    let rows = vec![strings(&["Ali"]), strings(&["Budi"])];
    let out = t.build_docx_batch(&tokens, &rows, "same.docx", &vec![false, false]);
    assert_eq!(out.documents.len(), 1);
    assert_eq!(out.documents[0].path, "same.docx");
    match out.error {
        Some(DocxError::Processing(m)) => assert_eq!(m, "the output file already exists: same.docx"),
        other => panic!("unexpected {:?}", other),
    }
}

#[test]
fn batch_validated_before_anything() {
    let t = template("<w>{{Name}}</w>");
    let tokens = strings(&["{{Name}}"]);
    let rows = vec![strings(&["Ali"]), strings(&["Budi", "extra"])];
    let out = t.build_docx_batch(&tokens, &rows, "{{Name}}.docx", &vec![false, false]);
    assert!(out.documents.is_empty());
    match out.error {
        Some(DocxError::Validation(m)) => {
            assert_eq!(m, "row 1: the number of values differs from the number of tokens")
        }
        other => panic!("unexpected {:?}", other),
    }
}

#[test]
fn no_token_left_when_values_share_no_character() {
    let tokens = strings(&["{{A}}", "{{B}}", "{{C}}"]);
    let values = strings(&["x", "yy", "z"]);
    let out = replace_tokens("{{{{A}}B}} {{A}}{{B}}{{C}} {{C}}{{", &tokens, &values);
    assert_eq!(out, "{{xB}} xyyz z{{");
    for t in &tokens {
        assert!(!out.contains(t.as_str()));
    }
}

#[test]
fn empty_value_can_rejoin_a_token() {
    let out = replace_tokens("{{A{{B}}}}", &strings(&["{{A}}", "{{B}}"]), &strings(&["v", ""]));
    assert_eq!(out, "{{A}}");
}

#[test]
fn output_names_per_row() {
    let tokens = strings(&["{{N}}"]);
    let rows = vec![strings(&["a"]), strings(&["b"])];
    let names = piagamdispendik::docx::resolve_output_names(&tokens, &rows, "out/{{N}}-{{N}}.docx");
    assert_eq!(names, strings(&["out/a-a.docx", "out/b-b.docx"]));
}

#[test]
fn document_refused_when_destination_exists() {
    let t = template("<w>{{N}}</w>");
    let tokens = strings(&["{{N}}"]);
    match t.data_to_docx(&tokens, &strings(&["a"]), "a.docx", true) {
        Err(DocxError::Processing(m)) => assert_eq!(m, "the output file already exists: a.docx"),
        other => panic!("unexpected {:?}", other.map(|_| ())),
    }
    let bytes = t.data_to_docx(&tokens, &strings(&["a"]), "a.docx", false).unwrap();
    assert_eq!(members(&bytes)[1], (s("word/document.xml"), b"<w>a</w>".to_vec()));
}

#[test]
fn batch_repeated_path_keeps_earlier_rows() {
    let t = template("<w>{{Name}}</w>");
    let tokens = strings(&["{{Name}}"]);
    let rows = vec![strings(&["a"]), strings(&["b"]), strings(&["a"]), strings(&["c"])];
    let out = t.build_docx_batch(&tokens, &rows, "{{Name}}.docx", &vec![false; 4]);
    let paths: Vec<&str> = out.documents.iter().map(|d| d.path.as_str()).collect();
    assert_eq!(paths, vec!["a.docx", "b.docx"]);
    match out.error {
        Some(DocxError::Processing(m)) => assert_eq!(m, "the output file already exists: a.docx"),
        other => panic!("unexpected {:?}", other),
    }
}
