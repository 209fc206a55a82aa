//! The template engine: a zipped document whose body member holds tokens,
//! filled with one row of values per generated document.
use vstd::prelude::*;
use vstd::utf8::{valid_utf8, decode_utf8, encode_utf8};
use crate::archive::{deflated_zip_of, written_members, writer_open, MEMBER_BYTES_BOUND, all_open, members_map, zip_members_of, FileMap, read_archive, new_writer, start_member, write_member, finish_writer};
use crate::error::DocxError;
use crate::substitution::{replace_tokens, substituted, texts};
use crate::text::{decimal, decimal_string, decode_text, join_text, str_equal};
use crate::tokens::{brace_spans, first_seen, scan_tokens, tokens_valid, contains_text};
use crate::values::{csv_records, csv_rows_of, values_of, vec_str_to_values};

verus! {

/// The member of a document package that holds its text.
pub const BODY_MEMBER: &'static str = "word/document.xml";

/// Unix permission bits of every written member.
pub const MEMBER_PERMISSIONS: u32 = 0o755;

/// One row's count of values matches the token count, and the output pattern
/// is not empty.
pub open spec fn single_valid(tokens: Seq<String>, values: Seq<String>, pattern: Seq<char>) -> bool {
    tokens.len() == values.len() && pattern.len() > 0
}

/// Every row has one value per token, and the output pattern is not empty.
pub open spec fn batch_valid(tokens: Seq<String>, rows: Seq<Vec<String>>, pattern: Seq<char>) -> bool {
    pattern.len() > 0 && forall|i: int| 0 <= i < rows.len() ==> (#[trigger] rows[i]).len() == tokens.len()
}

/// Checks one document request: `Ok` exactly when the counts agree and the
/// pattern is not empty, otherwise a validation error.
pub fn validate_single(tokens: &Vec<String>, values: &Vec<String>, output_pattern: &str) -> (r: Result<(), DocxError>)
    ensures
        r is Ok <==> single_valid(tokens@, values@, output_pattern@),
        r matches Err(e) ==> e is Validation,
{
    if tokens.len() != values.len() {
        return Err(DocxError::Validation(String::from_str("the number of values differs from the number of tokens")));
    }
    if output_pattern.unicode_len() == 0 {
        return Err(DocxError::Validation(String::from_str("the output pattern is empty")));
    }
    Ok(())
}

/// The message of a row whose number of values is wrong.
pub open spec fn row_count_message(k: nat) -> Seq<char> {
    "row "@ + decimal(k) + ": the number of values differs from the number of tokens"@
}

/// The message of a destination that is already taken.
pub open spec fn exists_message(path: Seq<char>) -> Seq<char> {
    "the output file already exists: "@ + path
}

/// Row `k` is the first whose number of values differs from the token count.
pub open spec fn first_bad_row(tokens: Seq<String>, rows: Seq<Vec<String>>, k: int) -> bool {
    &&& 0 <= k < rows.len()
    &&& rows[k].len() != tokens.len()
    &&& forall|j: int| 0 <= j < k ==> (#[trigger] rows[j]).len() == tokens.len()
}

/// Checks a whole batch before anything is written: `Ok` exactly when every
/// row has one value per token and the pattern is not empty, otherwise a
/// validation error, which names the first row at fault.
pub fn validate_batch(tokens: &Vec<String>, rows: &Vec<Vec<String>>, output_pattern: &str) -> (r: Result<(), DocxError>)
    ensures
        r is Ok <==> batch_valid(tokens@, rows@, output_pattern@),
        r matches Err(e) ==> e is Validation,
        output_pattern@.len() > 0 ==> (r matches Err(DocxError::Validation(m)) ==> exists|k: int|
            first_bad_row(tokens@, rows@, k) && m@ == row_count_message(k as nat)),
{
    if output_pattern.unicode_len() == 0 {
        return Err(DocxError::Validation(String::from_str("the output pattern is empty")));
    }
    let mut i: usize = 0;
    while i < rows.len()
        invariant
            i <= rows.len(),
            forall|k: int| 0 <= k < i ==> (#[trigger] rows@[k]).len() == tokens.len(),
        decreases rows.len() - i,
    {
        if rows[i].len() != tokens.len() {
            let head = join_text("row ", decimal_string(i as u64).as_str());
            let msg = join_text(head.as_str(), ": the number of values differs from the number of tokens");
            assert(first_bad_row(tokens@, rows@, i as int));
            assert(msg@ =~= row_count_message(i as nat));
            return Err(DocxError::Validation(msg));
        }
        i = i + 1;
    }
    Ok(())
}

/// The members of a generated document: each member of the template in
/// order, the body member's bytes replaced.
pub open spec fn output_members(entries: Seq<(String, Vec<u8>)>, target: Seq<char>, body: Seq<u8>) -> Seq<(Seq<char>, Seq<u8>)> {
    entries.map_values(|e: (String, Vec<u8>)| (e.0@, if e.0@ == target { body } else { e.1@ }))
}

/// Each member with the member permissions.
pub open spec fn with_permissions(ms: Seq<(Seq<char>, Seq<u8>)>) -> Seq<(Seq<char>, u32, Seq<u8>)> {
    ms.map_values(|m: (Seq<char>, Seq<u8>)| (m.0, MEMBER_PERMISSIONS, m.1))
}

/// Every member's bytes are within the member bound.
pub open spec fn members_fit(ms: Seq<(Seq<char>, Seq<u8>)>) -> bool {
    forall|k: int| 0 <= k < ms.len() ==> (#[trigger] ms[k]).1.len() <= MEMBER_BYTES_BOUND
}

pub open spec fn pair_views(v: Seq<(String, Vec<u8>)>) -> Seq<(Seq<char>, Seq<u8>)> {
    v.map_values(|e: (String, Vec<u8>)| (e.0@, e.1@))
}

/// A document generated for one row: where it goes and its bytes.
pub struct GeneratedDocx {
    pub path: String,
    pub content: Vec<u8>,
}

/// The documents of a batch written before it stopped, and the error that
/// stopped it, if any.
pub struct BatchOutput {
    pub documents: Vec<GeneratedDocx>,
    pub error: Option<DocxError>,
}

/// A delimited-text data source: its optional header and its value rows.
pub struct DataInput {
    pub input_path: String,
    pub target_xml: Option<String>,
    pub header: Option<Vec<String>>,
    pub file_data: Vec<Vec<String>>,
}

impl DataInput {
    /// Reads delimited text: the first record is the header, each further
    /// record becomes a value row with empty fields dropped and the rest trimmed.
    pub fn open(input_path: String, data: &Vec<u8>) -> (r: Result<DataInput, DocxError>)
        ensures
            match r {
                Ok(d) => {
                    let recs = csv_rows_of(data@)->Some_0;
                    &&& d.input_path@ == input_path@
                    &&& d.target_xml is None
                    &&& (recs.len() == 0 ==> d.header is None && d.file_data@.len() == 0)
                    &&& (recs.len() > 0 ==> (d.header matches Some(h) && texts(h@) == recs[0]))
                    &&& (recs.len() > 0 ==> d.file_data@.len() == recs.len() - 1)
                    &&& forall|i: int| 0 <= i < d.file_data@.len()
                            ==> texts(#[trigger] d.file_data@[i]@) == values_of(recs[i + 1])
                },
                Err(e) => e is CsvError,
            },
            r is Ok <==> csv_rows_of(data@) is Some,
    {
        let records = match csv_records(data.as_slice()) {
            Ok(rs) => rs,
            Err(e) => {
                return Err(DocxError::CsvError(e));
            },
        };
        if records.len() == 0 {
            return Ok(DataInput { input_path, target_xml: None, header: None, file_data: Vec::new() });
        }
        let ghost recs = csv_rows_of(data@)->Some_0;
        let mut rows: Vec<Vec<String>> = Vec::new();
        let mut i: usize = 1;
        while i < records.len()
            invariant
                1 <= i <= records.len(),
                records@.len() == recs.len(),
                forall|k: int| 0 <= k < records@.len() ==> texts(#[trigger] records@[k]@) == recs[k],
                rows@.len() == i - 1,
                forall|k: int| 0 <= k < rows@.len() ==> texts(#[trigger] rows@[k]@) == values_of(recs[k + 1]),
            decreases records.len() - i,
        {
            let v = vec_str_to_values(&records[i]);
            rows.push(v);
            i = i + 1;
        }
        let header = records[0].clone();
        proof {
            assert(texts(header@) =~= texts(records@[0]@)) by {
                assert forall|k: int| 0 <= k < header@.len() implies header@[k]@ == records@[0]@[k]@ by {
                    assert(cloned::<String>(records@[0]@[k], header@[k]));
                }
            }
        }
        Ok(DataInput { input_path, target_xml: None, header: Some(header), file_data: rows })
    }
}

/// A template loaded into memory: every member of the package, and the name
/// of the member whose text is filled.
pub struct DocxTemplate {
    pub input_path: String,
    pub target_xml: String,
    pub file_data: FileMap,
}

impl DocxTemplate {
    pub open spec fn wf(&self) -> bool {
        self.file_data.wf()
    }

    /// The bytes of the body member, if the package has one.
    pub open spec fn body_bytes(&self) -> Option<Seq<u8>> {
        if self.file_data.view_map().contains_key(self.target_xml@) {
            Some(self.file_data.view_map()[self.target_xml@])
        } else {
            None
        }
    }

    /// The bytes of the document generated for a row of values.
    pub open spec fn generated_bytes(&self, tokens: Seq<String>, values: Seq<String>) -> Seq<u8> {
        deflated_zip_of(with_permissions(output_members(
            self.file_data.entries@,
            self.target_xml@,
            encode_utf8(substituted(self.body_text(), texts(tokens), texts(values))),
        )))
    }

    /// Every member of the document generated for a row is within the member bound.
    pub open spec fn output_fits(&self, tokens: Seq<String>, values: Seq<String>) -> bool {
        members_fit(output_members(
            self.file_data.entries@,
            self.target_xml@,
            encode_utf8(substituted(self.body_text(), texts(tokens), texts(values))),
        ))
    }

    /// The body is present and valid UTF-8.
    pub open spec fn body_readable(&self) -> bool {
        self.body_bytes() matches Some(b) && valid_utf8(b)
    }

    /// The text of the body, where it is readable.
    pub open spec fn body_text(&self) -> Seq<char> {
        decode_utf8(self.body_bytes()->Some_0)
    }

    /// Loads a template package from its bytes; the body member is
    /// `word/document.xml`.
    pub fn open(input_path: String, data: Vec<u8>) -> (r: Result<DocxTemplate, DocxError>)
        ensures
            r matches Ok(t) ==> t.wf() && t.target_xml@ == BODY_MEMBER@ && t.input_path@ == input_path@
                && t.file_data.view_map() == members_map(zip_members_of(data@)->Some_0),
            r is Ok <==> (zip_members_of(data@) matches Some(ms) && all_open(ms)),
            r matches Err(e) ==> e is Zip,
    {
        let file_data = read_archive(data)?;
        Ok(DocxTemplate { input_path, target_xml: String::from_str(BODY_MEMBER), file_data })
    }

    /// The text of the body member: a processing error where the package
    /// has none, a validation error where it is not valid UTF-8.
    pub fn document_contents(&self) -> (r: Result<String, DocxError>)
        requires
            self.wf(),
        ensures
            match r {
                Ok(s) => self.body_readable() && s@ == self.body_text(),
                Err(e) => !self.body_readable() && (self.body_bytes() is None ==> e is Processing)
                    && (self.body_bytes() is Some ==> e is Validation),
            },
    {
        match self.file_data.get(self.target_xml.as_str()) {
            Some(document) => match decode_text(document) {
                Some(c) => Ok(c),
                None => Err(DocxError::Validation(String::from_str("the document body is not valid UTF-8"))),
            },
            None => Err(DocxError::Processing(String::from_str("the template has no document body"))),
        }
    }

    /// The tokens of the template: the distinct `{{...}}` spans of the body in
    /// order of first appearance, validated.
    pub fn template_tokens(&self) -> (r: Result<Vec<String>, DocxError>)
        requires
            self.wf(),
        ensures
            match r {
                Ok(t) => self.body_readable() && texts(t@) == first_seen(brace_spans(self.body_text()))
                    && tokens_valid(texts(t@)),
                Err(e) => (self.body_bytes() is None ==> e is Processing)
                    && (self.body_bytes() matches Some(b) && !valid_utf8(b) ==> e is Validation)
                    && (self.body_readable() ==> e is Processing),
            },
            self.body_readable() ==> (r is Ok <==> tokens_valid(first_seen(brace_spans(self.body_text())))),
    {
        let document = self.document_contents()?;
        scan_tokens(document.as_str())
    }

    /// The members of the document generated for one row of values: the
    /// template's members in order, the body replaced by the UTF-8 bytes of its
    /// text with the tokens substituted.
    pub fn document_entries(&self, tokens: &Vec<String>, values: &Vec<String>) -> (r: Result<Vec<(String, Vec<u8>)>, DocxError>)
        requires
            self.wf(),
            tokens.len() == values.len(),
        ensures
            match r {
                Ok(v) => self.body_readable() && pair_views(v@) == output_members(
                    self.file_data.entries@,
                    self.target_xml@,
                    encode_utf8(substituted(self.body_text(), texts(tokens@), texts(values@))),
                ),
                Err(e) => !self.body_readable() && (self.body_bytes() is None ==> e is Processing)
                    && (self.body_bytes() is Some ==> e is Validation),
            },
    {
        let text = self.document_contents()?;
        let updated = replace_tokens(text.as_str(), tokens, values);
        let body = updated.as_str().as_bytes_vec();
        let ghost target = self.target_xml@;
        let ghost body_view = body@;
        let ghost entries = self.file_data.entries@;
        let mut out: Vec<(String, Vec<u8>)> = Vec::new();
        let mut i: usize = 0;
        while i < self.file_data.entries.len()
            invariant
                i <= entries.len(),
                entries == self.file_data.entries@,
                target == self.target_xml@,
                body@ == body_view,
                out@.len() == i,
                pair_views(out@) == output_members(entries, target, body_view).take(i as int),
            decreases entries.len() - i,
        {
            let name = self.file_data.entries[i].0.clone();
            let bytes = if str_equal(name.as_str(), self.target_xml.as_str()) {
                body.clone()
            } else {
                self.file_data.entries[i].1.clone()
            };
            assert(bytes@ =~= (if name@ == target { body_view } else { entries[i as int].1@ }));
            let ghost name_view = name@;
            assert(name_view == entries[i as int].0@);
            let ghost pre = out@;
            out.push((name, bytes));
            assert(out@ == pre.push(out@.last()));
            assert(pair_views(out@)[i as int] == (name_view, bytes@));
            assert(output_members(entries, target, body_view)[i as int] == (name_view, bytes@));
            assert(pair_views(out@) =~= output_members(entries, target, body_view).take(i + 1));
            i = i + 1;
        }
        assert(output_members(entries, target, body_view).take(i as int) =~= output_members(entries, target, body_view));
        Ok(out)
    }

    /// Packs the members into a new zip archive, deflated, each with the
    /// member permissions.
    fn pack(entries: &Vec<(String, Vec<u8>)>) -> (r: Result<Vec<u8>, DocxError>)
        ensures
            r matches Ok(b) ==> b@ == deflated_zip_of(with_permissions(pair_views(entries@))),
            r matches Err(e) ==> e is Zip || e is Io,
            members_fit(pair_views(entries@)) ==> r is Ok,
    {
        let mut zip = new_writer();
        let ghost all = with_permissions(pair_views(entries@));
        let mut i: usize = 0;
        while i < entries.len()
            invariant
                i <= entries.len(),
                all == with_permissions(pair_views(entries@)),
                written_members(zip) == all.take(i as int),
                members_fit(pair_views(entries@)) ==> writer_open(zip),
            decreases entries.len() - i,
        {
            proof {
                if members_fit(pair_views(entries@)) && i > 0 {
                    assert(pair_views(entries@)[i - 1].1.len() <= MEMBER_BYTES_BOUND);
                }
            }
            if let Err(e) = start_member(&mut zip, entries[i].0.as_str(), MEMBER_PERMISSIONS) {
                return Err(DocxError::Zip(e));
            }
            proof {
                if members_fit(pair_views(entries@)) {
                    assert(pair_views(entries@)[i as int].1.len() <= MEMBER_BYTES_BOUND);
                }
            }
            if let Err(e) = write_member(&mut zip, entries[i].1.as_slice()) {
                return Err(DocxError::Io(e));
            }
            assert(written_members(zip) =~= all.take(i + 1));
            i = i + 1;
        }
        assert(all.take(i as int) =~= all);
        proof {
            if members_fit(pair_views(entries@)) && i > 0 {
                assert(pair_views(entries@)[i - 1].1.len() <= MEMBER_BYTES_BOUND);
            }
        }
        match finish_writer(&mut zip) {
            Ok(bytes) => Ok(bytes),
            Err(e) => Err(DocxError::Zip(e)),
        }
    }

    /// Generates the bytes of one document for a row of values, refusing with
    /// a processing error where a file already exists at its destination.
    pub fn data_to_docx(
        &self,
        tokens: &Vec<String>,
        values: &Vec<String>,
        destination: &str,
        destination_exists: bool,
    ) -> (r: Result<Vec<u8>, DocxError>)
        requires
            self.wf(),
            tokens.len() == values.len(),
        ensures
            destination_exists ==> (r matches Err(DocxError::Processing(m)) && m@ == exists_message(destination@)),
            !destination_exists && self.body_readable() && self.output_fits(tokens@, values@) ==> r is Ok,
            !destination_exists && self.body_bytes() is None ==> (r matches Err(e) && e is Processing),
            !destination_exists && !self.body_readable() && self.body_bytes() is Some ==> (r matches Err(e)
                && e is Validation),
            r is Ok ==> !destination_exists && self.body_readable(),
            r matches Ok(b) ==> b@ == self.generated_bytes(tokens@, values@),
            self.body_readable() && !destination_exists ==> (r matches Err(e) ==> e is Zip || e is Io),
    {
        if destination_exists {
            return Err(DocxError::Processing(join_text("the output file already exists: ", destination)));
        }
        let entries = self.document_entries(tokens, values)?;
        Self::pack(&entries)
    }

    /// Generates one document: validates the request, resolves the output
    /// pattern with the row's values, and produces the document's bytes.
    /// `destination_exists` tells whether a file exists at the resolved path.
    pub fn build_docx(
        &self,
        tokens: &Vec<String>,
        values: &Vec<String>,
        output_pattern: &str,
        destination_exists: bool,
    ) -> (r: Result<GeneratedDocx, DocxError>)
        requires
            self.wf(),
        ensures
            !single_valid(tokens@, values@, output_pattern@) ==> (r matches Err(e) && e is Validation),
            single_valid(tokens@, values@, output_pattern@) && destination_exists ==> (r matches Err(
                DocxError::Processing(m),
            ) && m@ == exists_message(substituted(output_pattern@, texts(tokens@), texts(values@)))),
            single_valid(tokens@, values@, output_pattern@) && !destination_exists && self.body_readable()
                && self.output_fits(tokens@, values@) ==> r is Ok,
            r matches Ok(d) ==> single_valid(tokens@, values@, output_pattern@) && !destination_exists
                && self.body_readable()
                && d.path@ == substituted(output_pattern@, texts(tokens@), texts(values@))
                && d.content@ == self.generated_bytes(tokens@, values@),
    {
        validate_single(tokens, values, output_pattern)?;
        let path = replace_tokens(output_pattern, tokens, values);
        let content = self.data_to_docx(tokens, values, path.as_str(), destination_exists)?;
        Ok(GeneratedDocx { path, content })
    }

    /// Generates the documents of a batch in row order. The whole batch is
    /// checked before any document is made: every row must have one value per
    /// token and the pattern must not be empty (a validation error naming the
    /// first row at fault), and no row's resolved path may hold a file already
    /// (`existing[i]`; a processing error naming the first such path). Then
    /// the rows are generated in order. A row whose path an earlier row of the
    /// batch already took stops the batch with a processing error naming that
    /// path, as does any other failure; the documents of the rows before it are
    /// returned for writing.
    pub fn build_docx_batch(
        &self,
        tokens: &Vec<String>,
        rows: &Vec<Vec<String>>,
        output_pattern: &str,
        existing: &Vec<bool>,
    ) -> (r: BatchOutput)
        requires
            self.wf(),
            existing.len() == rows.len(),
        ensures
            !batch_valid(tokens@, rows@, output_pattern@) ==> r.documents@.len() == 0 && (r.error matches Some(
                e,
            ) && e is Validation),
            !batch_valid(tokens@, rows@, output_pattern@) && output_pattern@.len() > 0 ==> (r.error matches Some(
                DocxError::Validation(m),
            ) && exists|k: int| first_bad_row(tokens@, rows@, k) && m@ == row_count_message(k as nat)),
            batch_valid(tokens@, rows@, output_pattern@) && !none_existing(existing@) ==> r.documents@.len() == 0
                && (r.error matches Some(DocxError::Processing(m)) && exists|k: int|
                first_existing(existing@, k) && m@ == exists_message(output_name(output_pattern@, tokens@, rows@[k]))),
            r.documents@.len() <= rows@.len(),
            r.error is None ==> r.documents@.len() == rows@.len(),
            r.documents@.len() < rows@.len() ==> r.error is Some,
            r.documents@.len() > 0 ==> batch_valid(tokens@, rows@, output_pattern@) && none_existing(existing@),
            documents_free(r.documents@, output_pattern@, tokens@, rows@, existing@),
            forall|j: int| 0 <= j < r.documents@.len() ==> (#[trigger] r.documents@[j]).content@
                == self.generated_bytes(tokens@, rows@[j]@),
            batch_valid(tokens@, rows@, output_pattern@) && none_existing(existing@) && r.documents@.len()
                < rows@.len() && repeats_earlier(output_pattern@, tokens@, rows@, r.documents@.len() as int) ==> (
            r.error matches Some(DocxError::Processing(m)) && m@ == exists_message(
                output_name(output_pattern@, tokens@, rows@[r.documents@.len() as int]),
            )),
            batch_valid(tokens@, rows@, output_pattern@) && none_existing(existing@) && self.body_readable()
                && all_rows_fit(self, tokens@, rows@) ==> r.documents@.len() == rows@.len() || repeats_earlier(
                output_pattern@, tokens@, rows@, r.documents@.len() as int,
            ),
    {
        if let Err(e) = validate_batch(tokens, rows, output_pattern) {
            return BatchOutput { documents: Vec::new(), error: Some(e) };
        }
        let names = resolve_output_names(tokens, rows, output_pattern);
        let mut k: usize = 0;
        while k < rows.len()
            invariant
                batch_valid(tokens@, rows@, output_pattern@),
                existing@.len() == rows@.len(),
                names@.len() == rows@.len(),
                forall|j: int| 0 <= j < rows@.len() ==> (#[trigger] names@[j])@ == output_name(output_pattern@, tokens@, rows@[j]),
                k <= rows.len(),
                forall|j: int| 0 <= j < k ==> !existing@[j],
            decreases rows.len() - k,
        {
            if existing[k] {
                let msg = join_text("the output file already exists: ", names[k].as_str());
                assert(first_existing(existing@, k as int));
                return BatchOutput { documents: Vec::new(), error: Some(DocxError::Processing(msg)) };
            }
            k = k + 1;
        }
        assert(none_existing(existing@));
        let mut documents: Vec<GeneratedDocx> = Vec::new();
        k = 0;
        while k < rows.len()
            invariant
                self.wf(),
                batch_valid(tokens@, rows@, output_pattern@),
                none_existing(existing@),
                existing@.len() == rows@.len(),
                names@.len() == rows@.len(),
                forall|j: int| 0 <= j < rows@.len() ==> (#[trigger] names@[j])@ == output_name(output_pattern@, tokens@, rows@[j]),
                k <= rows.len(),
                documents@.len() == k,
                documents_free(documents@, output_pattern@, tokens@, rows@, existing@),
                forall|j: int| 0 <= j < documents@.len() ==> (#[trigger] documents@[j]).content@
                    == self.generated_bytes(tokens@, rows@[j]@),
            decreases rows.len() - k,
        {
            let earlier = name_before(&names, k);
            assert(earlier == repeats_earlier(output_pattern@, tokens@, rows@, k as int)) by {
                if earlier {
                    let j = choose|j: int| 0 <= j < k && names@[j]@ == names@[k as int]@;
                    assert(output_name(output_pattern@, tokens@, rows@[j]) == output_name(output_pattern@, tokens@, rows@[k as int]));
                }
                if repeats_earlier(output_pattern@, tokens@, rows@, k as int) {
                    let j = choose|j: int| 0 <= j < k && output_name(output_pattern@, tokens@, rows@[j]) == #[trigger] output_name(output_pattern@, tokens@, rows@[k as int]);
                    assert(names@[j]@ == names@[k as int]@);
                }
            }
            if earlier {
                let msg = join_text("the output file already exists: ", names[k].as_str());
                return BatchOutput { documents, error: Some(DocxError::Processing(msg)) };
            }
            assert(rows@[k as int].len() == tokens.len());
            assert(!path_taken(output_pattern@, tokens@, rows@, existing@, k as int));
            match self.data_to_docx(tokens, &rows[k], names[k].as_str(), false) {
                Ok(content) => {
                    let path = names[k].clone();
                    documents.push(GeneratedDocx { path, content });
                    assert(documents@[k as int].path@ == output_name(output_pattern@, tokens@, rows@[k as int]));
                },
                Err(e) => {
                    proof {
                        if self.body_readable() && all_rows_fit(self, tokens@, rows@) {
                            assert(self.output_fits(tokens@, rows@[k as int]@));
                        }
                    }
                    return BatchOutput { documents, error: Some(e) };
                },
            }
            k = k + 1;
        }
        BatchOutput { documents, error: None }
    }
}

/// Every row's document fits the member bound.
pub open spec fn all_rows_fit(t: &DocxTemplate, tokens: Seq<String>, rows: Seq<Vec<String>>) -> bool {
    forall|j: int| 0 <= j < rows.len() ==> t.output_fits(tokens, (#[trigger] rows[j])@)
}

/// No row's resolved path holds a file already.
pub open spec fn none_existing(existing: Seq<bool>) -> bool {
    forall|k: int| 0 <= k < existing.len() ==> !#[trigger] existing[k]
}

/// Row `k` is the first whose resolved path holds a file already.
pub open spec fn first_existing(existing: Seq<bool>, k: int) -> bool {
    &&& 0 <= k < existing.len()
    &&& existing[k]
    &&& forall|j: int| 0 <= j < k ==> !#[trigger] existing[j]
}

/// Row `k` resolves to the path of an earlier row.
pub open spec fn repeats_earlier(pattern: Seq<char>, tokens: Seq<String>, rows: Seq<Vec<String>>, k: int) -> bool {
    exists|j: int|
        0 <= j < k && output_name(pattern, tokens, rows[j]) == #[trigger] output_name(pattern, tokens, rows[k])
}

/// Each document goes to its row's resolved path, and that path was free.
pub open spec fn documents_free(
    docs: Seq<GeneratedDocx>,
    pattern: Seq<char>,
    tokens: Seq<String>,
    rows: Seq<Vec<String>>,
    existing: Seq<bool>,
) -> bool {
    forall|j: int|
        0 <= j < docs.len() ==> (#[trigger] docs[j]).path@ == output_name(pattern, tokens, rows[j])
            && !path_taken(pattern, tokens, rows, existing, j)
}

/// The path that the output pattern resolves to for one row of values.
pub open spec fn output_name(pattern: Seq<char>, tokens: Seq<String>, values: Vec<String>) -> Seq<char> {
    substituted(pattern, texts(tokens), texts(values@))
}

/// Row `k`'s path is taken: a file exists there before the batch, or an
/// earlier row resolves to the same path.
pub open spec fn path_taken(
    pattern: Seq<char>,
    tokens: Seq<String>,
    rows: Seq<Vec<String>>,
    existing: Seq<bool>,
    k: int,
) -> bool {
    existing[k] || repeats_earlier(pattern, tokens, rows, k)
}

/// Whether an earlier entry equals entry `k`.
fn name_before(names: &Vec<String>, k: usize) -> (r: bool)
    requires
        k < names.len(),
    ensures
        r == exists|j: int| 0 <= j < k && names@[j]@ == names@[k as int]@,
{
    let mut j: usize = 0;
    while j < k
        invariant
            j <= k < names.len(),
            forall|i: int| 0 <= i < j ==> names@[i]@ != names@[k as int]@,
        decreases k - j,
    {
        if str_equal(names[j].as_str(), names[k].as_str()) {
            return true;
        }
        j = j + 1;
    }
    false
}

/// The path that the output pattern resolves to for each row of a batch.
pub fn resolve_output_names(tokens: &Vec<String>, rows: &Vec<Vec<String>>, output_pattern: &str) -> (r: Vec<String>)
    requires
        forall|i: int| 0 <= i < rows@.len() ==> (#[trigger] rows@[i]).len() == tokens.len(),
    ensures
        r@.len() == rows@.len(),
        forall|j: int| 0 <= j < rows@.len() ==> (#[trigger] r@[j])@ == output_name(output_pattern@, tokens@, rows@[j]),
{
    let mut names: Vec<String> = Vec::new();
    let mut i: usize = 0;
    while i < rows.len()
        invariant
            i <= rows.len(),
            forall|k: int| 0 <= k < rows@.len() ==> (#[trigger] rows@[k]).len() == tokens.len(),
            names@.len() == i,
            forall|j: int| 0 <= j < i ==> (#[trigger] names@[j])@ == output_name(output_pattern@, tokens@, rows@[j]),
        decreases rows.len() - i,
    {
        assert(rows@[i as int].len() == tokens.len());
        names.push(replace_tokens(output_pattern, tokens, &rows[i]));
        i = i + 1;
    }
    names
}

} // verus!
