//! Bulk import of CSV, JSON, JSON Lines and OSCAL (Open Security Controls
//! Assessment Language) documents into records.
//!
//! CSV content is read here, through the csv crate; decoding JSON (a CSV
//! cell, a JSON document or line) is the caller's part. The importers build
//! the records: line numbers, field names, defaults, and the error of each
//! record that could not be read.

use crate::json::find_field;
use crate::json::set_field;
use crate::json::JsonValue;
use std::path::Path;
use vstd::string::StringExecFns;
use vstd::string::StringSliceAdditionalSpecFns;
use vstd::prelude::*;

verus! {

/// Supported import formats.
#[derive(Debug, Clone, Copy, PartialEq, Eq, Structural)]
pub enum ImportFormat {
    /// Comma-separated values.
    Csv,
    /// JSON array.
    Json,
    /// JSON Lines (newline-delimited JSON).
    JsonL,
    /// OSCAL catalog.
    OscalCatalog,
    /// OSCAL system security plan.
    OscalSsp,
    /// OSCAL component definition.
    OscalComponent,
}

/// The extension that `std::path::Path::extension` finds in the path with
/// text `path` (the part of the file name after its last dot, if any).
pub uninterp spec fn extension_of(path: Seq<char>) -> Option<Seq<char>>;

/// Calls `std::path::Path::extension` on the path with text `path`, and
/// reads the extension as text (always possible, the path being text).
/// Claims that the result is `extension_of(path@)`.
#[verifier::external_body]
fn path_extension(path: &str) -> (res: Option<&str>)
    ensures
        extension_of(path@) == match res {
            Some(e) => Some(e@),
            None => None,
        },
{
    match Path::new(path).extension() {
        Some(e) => e.to_str(),
        None => None,
    }
}

/// The format a file extension names.
pub open spec fn format_for_extension(ext: Seq<char>) -> Option<ImportFormat> {
    if ext == "csv"@ {
        Some(ImportFormat::Csv)
    } else if ext == "json"@ {
        Some(ImportFormat::Json)
    } else if ext == "jsonl"@ || ext == "ndjson"@ {
        Some(ImportFormat::JsonL)
    } else {
        None
    }
}

/// Whether `needle` occurs in `hay`.
pub open spec fn contains_bytes(hay: Seq<u8>, needle: Seq<u8>) -> bool {
    exists|i: int| 0 <= i && i + needle.len() <= hay.len() && #[trigger] hay.subrange(i, i + needle.len()) == needle
}

/// The bytes of `"catalog"`, with its quotes.
pub open spec fn catalog_marker() -> Seq<u8> {
    seq![34u8, 99u8, 97u8, 116u8, 97u8, 108u8, 111u8, 103u8, 34u8]
}

/// The bytes of `"system-security-plan"`, with its quotes.
pub open spec fn ssp_marker() -> Seq<u8> {
    seq![
        34u8, 115u8, 121u8, 115u8, 116u8, 101u8, 109u8, 45u8, 115u8, 101u8, 99u8, 117u8,
        114u8, 105u8, 116u8, 121u8, 45u8, 112u8, 108u8, 97u8, 110u8, 34u8,
    ]
}

/// The bytes of `"component-definition"`, with its quotes.
pub open spec fn component_marker() -> Seq<u8> {
    seq![
        34u8, 99u8, 111u8, 109u8, 112u8, 111u8, 110u8, 101u8, 110u8, 116u8, 45u8, 100u8,
        101u8, 102u8, 105u8, 110u8, 105u8, 116u8, 105u8, 111u8, 110u8, 34u8,
    ]
}

/// The OSCAL format of a document with UTF-8 bytes `content`: a catalog
/// when it mentions `"catalog"`, else a system security plan when it
/// mentions `"system-security-plan"`, else a component definition when it
/// mentions `"component-definition"`.
pub open spec fn oscal_format_of(content: Seq<u8>) -> Option<ImportFormat> {
    if contains_bytes(content, catalog_marker()) {
        Some(ImportFormat::OscalCatalog)
    } else if contains_bytes(content, ssp_marker()) {
        Some(ImportFormat::OscalSsp)
    } else if contains_bytes(content, component_marker()) {
        Some(ImportFormat::OscalComponent)
    } else {
        None
    }
}

/// Whether `needle` occurs in `hay`.
fn find_bytes(hay: &[u8], needle: &Vec<u8>) -> (res: bool)
    ensures
        res == contains_bytes(hay@, needle@),
{
    if needle.len() > hay.len() {
        return false;
    }
    if needle.len() == 0 {
        assert(hay@.subrange(0int, 0int + needle@.len()) =~= needle@);
        return true;
    }
    let last = hay.len() - needle.len();
    let mut i: usize = 0;
    while i <= last
        invariant
            last + needle@.len() == hay@.len(),
            hay@.len() == hay.len(),
            needle@.len() > 0,
            i <= last + 1,
            forall|k: int| 0 <= k < i ==> #[trigger] hay@.subrange(k, k + needle@.len()) != needle@,
        decreases last + 1 - i,
    {
        let mut j: usize = 0;
        let mut same = true;
        while j < needle.len()
            invariant
                i <= last,
                last + needle@.len() == hay@.len(),
                hay@.len() == hay.len(),
                j <= needle@.len(),
                same == (forall|m: int| 0 <= m < j ==> hay@[i + m] == needle@[m]),
            decreases needle@.len() - j,
        {
            if hay[i + j] != needle[j] {
                same = false;
            }
            j = j + 1;
        }
        if same {
            assert(hay@.subrange(i as int, i + needle@.len()) =~= needle@);
            return true;
        }
        proof {
            assert(hay@.subrange(i as int, i + needle@.len()) != needle@) by {
                let m = choose|m: int| 0 <= m < needle@.len() && hay@[i + m] != needle@[m];
                assert(hay@.subrange(i as int, i + needle@.len())[m] == hay@[i + m]);
            }
        }
        i = i + 1;
    }
    false
}

impl ImportFormat {
    /// The format a file extension names: `csv`, `json`, and `jsonl` or
    /// `ndjson`.
    pub fn for_extension(ext: &str) -> (res: Option<Self>)
        ensures
            res == format_for_extension(ext@),
    {
        let e = ext.to_owned();
        if e.eq(&"csv".to_owned()) {
            Some(ImportFormat::Csv)
        } else if e.eq(&"json".to_owned()) {
            Some(ImportFormat::Json)
        } else if e.eq(&"jsonl".to_owned()) || e.eq(&"ndjson".to_owned()) {
            Some(ImportFormat::JsonL)
        } else {
            None
        }
    }

    /// The format named by the extension of the file at `path`.
    pub fn from_extension(path: &str) -> (res: Option<Self>)
        ensures
            res == match extension_of(path@) {
                Some(e) => format_for_extension(e),
                None => None,
            },
    {
        match path_extension(path) {
            Some(e) => Self::for_extension(e),
            None => None,
        }
    }

    /// The OSCAL format of a document, from its content.
    pub fn detect_oscal(content: &str) -> (res: Option<Self>)
        ensures
            res == oscal_format_of(content.spec_bytes()),
    {
        let bytes = content.as_bytes();
        let catalog = vec![34u8, 99u8, 97u8, 116u8, 97u8, 108u8, 111u8, 103u8, 34u8];
        let ssp = vec![
            34u8, 115u8, 121u8, 115u8, 116u8, 101u8, 109u8, 45u8, 115u8, 101u8, 99u8, 117u8,
            114u8, 105u8, 116u8, 121u8, 45u8, 112u8, 108u8, 97u8, 110u8, 34u8,
        ];
        let component = vec![
            34u8, 99u8, 111u8, 109u8, 112u8, 111u8, 110u8, 101u8, 110u8, 116u8, 45u8, 100u8,
            101u8, 102u8, 105u8, 110u8, 105u8, 116u8, 105u8, 111u8, 110u8, 34u8,
        ];
        assert(catalog@ == catalog_marker());
        assert(ssp@ == ssp_marker());
        assert(component@ == component_marker());
        if find_bytes(bytes, &catalog) {
            Some(ImportFormat::OscalCatalog)
        } else if find_bytes(bytes, &ssp) {
            Some(ImportFormat::OscalSsp)
        } else if find_bytes(bytes, &component) {
            Some(ImportFormat::OscalComponent)
        } else {
            None
        }
    }
}


/// One imported record.
#[derive(Debug)]
pub struct ImportRecord {
    /// Line or row number in the source.
    pub line_number: usize,
    /// The data as named fields.
    pub data: Vec<(String, JsonValue)>,
    /// Validation errors.
    pub errors: Vec<String>,
    /// Whether the record is valid.
    pub valid: bool,
}

impl ImportRecord {
    /// A valid record with no errors.
    pub fn new(line_number: usize, data: Vec<(String, JsonValue)>) -> (res: Self)
        ensures
            res.line_number == line_number,
            res.data == data,
            res.errors@.len() == 0,
            res.valid,
    {
        ImportRecord { line_number, data, errors: Vec::new(), valid: true }
    }

    /// Adds an error, which makes the record invalid.
    pub fn with_error(self, error: String) -> (res: Self)
        ensures
            res.errors@ == self.errors@.push(error),
            !res.valid,
            res.line_number == self.line_number,
            res.data == self.data,
    {
        let mut this = self;
        this.errors.push(error);
        this.valid = false;
        this
    }

    /// The text of field `key`, if it holds a string.
    pub fn get_string(&self, key: &str) -> (res: Option<String>)
        ensures
            match res {
                Some(s) => crate::json::field_value(self.data@, key@) == Some(JsonValue::Text(s)),
                None => !(crate::json::field_value(self.data@, key@) matches Some(JsonValue::Text(_))),
            },
    {
        match find_field(&self.data, key) {
            Some(i) => {
                proof {
                    crate::json::lemma_field_index(self.data@, key@);
                }
                match self.data[i].1.as_text() {
                    Some(s) => Some(s.clone()),
                    None => None,
                }
            },
            None => None,
        }
    }

    /// The integer of field `key`, if it holds one that fits in an `i64`.
    pub fn get_i64(&self, key: &str) -> (res: Option<i64>)
        ensures
            res == match crate::json::field_value(self.data@, key@) {
                Some(v) => crate::json::int_value(v),
                None => None,
            },
    {
        match find_field(&self.data, key) {
            Some(i) => {
                proof {
                    crate::json::lemma_field_index(self.data@, key@);
                }
                self.data[i].1.as_i64()
            },
            None => None,
        }
    }

    /// The boolean of field `key`, if it holds one.
    pub fn get_bool(&self, key: &str) -> (res: Option<bool>)
        ensures
            res == match crate::json::field_value(self.data@, key@) {
                Some(JsonValue::Bool(b)) => Some(b),
                _ => None,
            },
    {
        match find_field(&self.data, key) {
            Some(i) => {
                proof {
                    crate::json::lemma_field_index(self.data@, key@);
                }
                self.data[i].1.as_bool()
            },
            None => None,
        }
    }
}

/// Import job status.
#[derive(Debug, Clone, Copy, PartialEq, Eq, Structural)]
pub enum ImportStatus {
    Pending,
    Validating,
    Importing,
    Completed,
    Failed,
    PartialSuccess,
}

/// Severity of an import error.
#[derive(Debug, Clone, Copy, PartialEq, Eq, Structural)]
pub enum ErrorSeverity {
    Warning,
    Error,
    Fatal,
}

/// An import error.
#[derive(Debug, Clone)]
pub struct ImportError {
    pub line_number: Option<usize>,
    pub field: Option<String>,
    pub message: String,
    pub severity: ErrorSeverity,
}

/// Statistics of an import job.
#[derive(Debug)]
pub struct ImportStats {
    pub total_records: usize,
    pub valid_records: usize,
    pub invalid_records: usize,
    pub imported_records: usize,
    pub skipped_records: usize,
    pub errors: Vec<ImportError>,
}

impl Default for ImportStats {
    /// No records and no errors.
    fn default() -> (res: Self)
        ensures
            res.total_records == 0,
            res.valid_records == 0,
            res.invalid_records == 0,
            res.imported_records == 0,
            res.skipped_records == 0,
            res.errors@.len() == 0,
    {
        ImportStats {
            total_records: 0,
            valid_records: 0,
            invalid_records: 0,
            imported_records: 0,
            skipped_records: 0,
            errors: Vec::new(),
        }
    }
}

/// Import configuration.
#[derive(Debug)]
pub struct ImportConfig {
    /// Whether to skip invalid records rather than fail the import.
    pub skip_invalid: bool,
    /// Most errors before the import is abandoned.
    pub max_errors: usize,
    /// Batch size for processing.
    pub batch_size: usize,
    /// Whether to only validate.
    pub dry_run: bool,
    /// Renaming of CSV columns: from column name to field name.
    pub field_mapping: Option<Vec<(String, String)>>,
    /// Values for fields a record lacks.
    pub defaults: Vec<(String, JsonValue)>,
}

impl Default for ImportConfig {
    /// Skip invalid records, at most 100 errors, batches of 100, no dry run,
    /// no renaming and no defaults.
    fn default() -> (res: Self)
        ensures
            res.skip_invalid,
            res.max_errors == 100,
            res.batch_size == 100,
            !res.dry_run,
            res.field_mapping is None,
            res.defaults@.len() == 0,
    {
        ImportConfig {
            skip_invalid: true,
            max_errors: 100,
            batch_size: 100,
            dry_run: false,
            field_mapping: None,
            defaults: Vec::new(),
        }
    }
}

/// An import job.
#[derive(Debug)]
pub struct ImportJob {
    pub id: u128,
    pub status: ImportStatus,
    pub format: ImportFormat,
    pub filename: Option<String>,
    pub org_id: String,
    pub user_id: String,
    pub stats: ImportStats,
    pub created_at: u64,
    pub completed_at: Option<u64>,
}

impl ImportJob {
    /// A pending job with identifier `id`, created at `now`.
    pub fn new_with(format: ImportFormat, org_id: String, user_id: String, id: u128, now: u64) -> (res: Self)
        ensures
            res.id == id,
            res.status == ImportStatus::Pending,
            res.format == format,
            res.filename is None,
            res.org_id == org_id,
            res.user_id == user_id,
            res.stats.total_records == 0,
            res.stats.errors@.len() == 0,
            res.created_at == now,
            res.completed_at is None,
    {
        ImportJob {
            id,
            status: ImportStatus::Pending,
            format,
            filename: None,
            org_id,
            user_id,
            stats: ImportStats::default(),
            created_at: now,
            completed_at: None,
        }
    }

    /// A pending job with a fresh random identifier, created now.
    pub fn new(format: ImportFormat, org_id: String, user_id: String) -> (res: Self)
        ensures
            crate::ids::is_random_uuid(res.id),
            res.status == ImportStatus::Pending,
            res.format == format,
            res.filename is None,
            res.org_id == org_id,
            res.user_id == user_id,
            res.stats.total_records == 0,
            res.stats.errors@.len() == 0,
            res.completed_at is None,
    {
        let id = crate::ids::new_uuid();
        Self::new_with(format, org_id, user_id, id, crate::clock::now_millis())
    }

    /// Sets the file name.
    pub fn with_filename(self, filename: String) -> (res: Self)
        ensures
            res == (ImportJob { filename: Some(filename), ..self }),
    {
        ImportJob { filename: Some(filename), ..self }
    }
}

/// The fields, by name, after the defaults are applied in order: a default
/// is added only where no field of its name is there yet.
pub open spec fn with_defaults(
    d: Seq<(Seq<char>, crate::json::JsonData)>,
    defaults: Seq<(Seq<char>, crate::json::JsonData)>,
) -> Seq<(Seq<char>, crate::json::JsonData)>
    decreases defaults.len(),
{
    if defaults.len() == 0 {
        d
    } else {
        let r = with_defaults(d, defaults.drop_last());
        if crate::json::data_index(r, defaults.last().0) is Some {
            r
        } else {
            r.push(defaults.last())
        }
    }
}

/// Adds a copy of each default whose field is missing.
pub fn apply_defaults(data: &mut Vec<(String, JsonValue)>, defaults: &Vec<(String, JsonValue)>)
    ensures
        crate::json::data_of_fields(final(data)@) == with_defaults(crate::json::data_of_fields(old(data)@), crate::json::data_of_fields(defaults@)),
{
    let ghost start = crate::json::data_of_fields(data@);
    let mut i: usize = 0;
    proof {
        assert(defaults@.take(0) =~= Seq::<(String, JsonValue)>::empty());
    }
    while i < defaults.len()
        invariant
            i <= defaults@.len(),
            crate::json::data_of_fields(data@) == with_defaults(start, crate::json::data_of_fields(defaults@.take(i as int))),
        decreases defaults@.len() - i,
    {
        proof {
            assert(defaults@.take(i + 1).drop_last() =~= defaults@.take(i as int));
            crate::json::lemma_data_of_fields(data@);
            crate::json::lemma_data_of_fields(defaults@.take(i + 1));
            crate::json::lemma_data_of_fields(defaults@.take(i as int));
            assert(crate::json::data_of_fields(defaults@.take(i + 1)).drop_last() =~= crate::json::data_of_fields(defaults@.take(i as int)));
        }
        if find_field(data, defaults[i].0.as_str()).is_none() {
            let entry = (defaults[i].0.clone(), defaults[i].1.copy());
            proof {
                crate::json::lemma_data_of_push(data@, entry);
            }
            data.push(entry);
        }
        i = i + 1;
    }
    proof {
        assert(defaults@.take(i as int) =~= defaults@);
    }
}

/// Defaults never change a field that is there: the fields before come
/// first, as they were, and only fields named by a default are added.
pub proof fn lemma_defaults_keep(d: Seq<(Seq<char>, crate::json::JsonData)>, defaults: Seq<(Seq<char>, crate::json::JsonData)>)
    ensures
        with_defaults(d, defaults).len() >= d.len(),
        with_defaults(d, defaults).take(d.len() as int) == d,
        forall|j: int| d.len() <= j < with_defaults(d, defaults).len()
            ==> defaults.contains(#[trigger] with_defaults(d, defaults)[j]),
    decreases defaults.len(),
{
    if defaults.len() > 0 {
        let p = defaults.drop_last();
        lemma_defaults_keep(d, p);
        let r = with_defaults(d, p);
        assert(r.push(defaults.last()).take(d.len() as int) =~= r.take(d.len() as int));
        assert forall|j: int| d.len() <= j < with_defaults(d, defaults).len()
            implies defaults.contains(#[trigger] with_defaults(d, defaults)[j]) by {
            if j < r.len() {
                assert(p.contains(r[j]));
                let k = choose|k: int| 0 <= k < p.len() && p[k] == r[j];
                assert(defaults[k] == p[k]);
            } else {
                assert(defaults[defaults.len() - 1] == defaults.last());
            }
        }
    }
}

/// After the defaults are applied, every field they name is there.
pub proof fn lemma_defaults_present(d: Seq<(Seq<char>, crate::json::JsonData)>, defaults: Seq<(Seq<char>, crate::json::JsonData)>, i: int)
    requires
        0 <= i < defaults.len(),
    ensures
        crate::json::data_index(with_defaults(d, defaults), defaults[i].0) is Some,
    decreases defaults.len(),
{
    let p = defaults.drop_last();
    let r = with_defaults(d, p);
    if i < defaults.len() - 1 {
        lemma_defaults_present(d, p, i);
        assert(p[i] == defaults[i]);
        if crate::json::data_index(r, defaults.last().0) is None {
            lemma_data_index_push(r, defaults.last(), defaults[i].0);
        }
    } else {
        if crate::json::data_index(r, defaults.last().0) is None {
            lemma_data_index_push(r, defaults.last(), defaults[i].0);
        }
    }
}

/// A field found before an append is still found at the same place; the
/// appended field is found when its name was missing.
pub proof fn lemma_data_index_push(d: Seq<(Seq<char>, crate::json::JsonData)>, f: (Seq<char>, crate::json::JsonData), key: Seq<char>)
    ensures
        crate::json::data_index(d, key) is Some ==> crate::json::data_index(d.push(f), key) == crate::json::data_index(d, key),
        crate::json::data_index(d, key) is None && f.0 == key ==> crate::json::data_index(d.push(f), key) == Some(d.len() as int),
{
    assert(d.push(f).drop_last() =~= d);
}


/// The texts of a list of strings.
pub open spec fn texts(v: Seq<String>) -> Seq<Seq<char>> {
    v.map_values(|h: String| h@)
}

/// The field name of a CSV column under a renaming: what the renaming maps
/// it to, or the column's own name.
pub open spec fn mapped_name(mapping: Option<Vec<(String, String)>>, header: Seq<char>) -> Seq<char> {
    match mapping {
        Some(m) => match crate::json::field_index(m@, header) {
            Some(i) => m@[i].1@,
            None => header,
        },
        None => header,
    }
}

/// The fields of a CSV row, by name: each cell under the field name of its
/// column, a later cell replacing an earlier one of the same name; cells
/// beyond the last column are dropped.
pub open spec fn row_data(
    headers: Seq<Seq<char>>,
    cells: Seq<JsonValue>,
    mapping: Option<Vec<(String, String)>>,
) -> Seq<(Seq<char>, crate::json::JsonData)>
    decreases cells.len(),
{
    if cells.len() == 0 {
        Seq::empty()
    } else {
        let r = row_data(headers, cells.drop_last(), mapping);
        let i = cells.len() - 1;
        if i < headers.len() {
            crate::json::data_set(r, mapped_name(mapping, headers[i]), crate::json::data_of(cells[i]))
        } else {
            r
        }
    }
}

/// Whether `rec` is the record of a valid source item with fields `fields`
/// (by name) at line `line`, the defaults applied.
pub open spec fn valid_record(
    rec: ImportRecord,
    line: int,
    fields: Seq<(Seq<char>, crate::json::JsonData)>,
    defaults: Seq<(String, JsonValue)>,
) -> bool {
    &&& rec.line_number == line
    &&& crate::json::data_of_fields(rec.data@) == with_defaults(fields, crate::json::data_of_fields(defaults))
    &&& rec.errors@.len() == 0
    &&& rec.valid
}

/// Whether `rec` is the record of a source item at line `line` that could
/// not be read, with error `message`.
pub open spec fn error_record(rec: ImportRecord, line: int, message: Seq<char>) -> bool {
    &&& rec.line_number == line
    &&& rec.data@.len() == 0
    &&& rec.errors@.len() == 1
    &&& rec.errors@[0]@ == message
    &&& !rec.valid
}

/// The record of a row at line `line` that could not be read.
fn failed_record(line: usize, prefix: &str, error: &String) -> (res: ImportRecord)
    ensures
        error_record(res, line as int, prefix@ + error@),
{
    let mut message = prefix.to_owned();
    message.append(error.as_str());
    ImportRecord::new(line, Vec::new()).with_error(message)
}

/// The record of a valid item at line `line`: copies of its fields, the
/// defaults applied.
fn item_record(line: usize, fields: &Vec<(String, JsonValue)>, defaults: &Vec<(String, JsonValue)>) -> (res: ImportRecord)
    ensures
        valid_record(res, line as int, crate::json::data_of_fields(fields@), defaults@),
{
    let mut data = crate::json::copy_fields(fields);
    apply_defaults(&mut data, defaults);
    ImportRecord::new(line, data)
}

/// Whether `rec` is the record of CSV row `row` at line `line`.
pub open spec fn csv_record(
    rec: ImportRecord,
    headers: Seq<Seq<char>>,
    row: Result<Vec<JsonValue>, String>,
    line: int,
    config: ImportConfig,
) -> bool {
    match row {
        Ok(cells) => valid_record(rec, line, row_data(headers, cells@, config.field_mapping), config.defaults@),
        Err(e) => error_record(rec, line, "Parse error: "@ + e@),
    }
}

/// What the CSV reader makes of the bytes `data` (with a header row, rows
/// of any length): the header cells and, for each further row, its cells or
/// the reader's error text; or the error text when the header row cannot be
/// read.
pub uninterp spec fn csv_parse(data: Seq<u8>) -> Result<(Seq<Seq<char>>, Seq<Result<Seq<Seq<char>>, Seq<char>>>), Seq<char>>;

/// A table read from CSV text, by the texts of its cells.
pub open spec fn table_view(
    t: Result<(Vec<String>, Vec<Result<Vec<String>, String>>), String>,
) -> Result<(Seq<Seq<char>>, Seq<Result<Seq<Seq<char>>, Seq<char>>>), Seq<char>> {
    match t {
        Ok((headers, rows)) => Ok((
            texts(headers@),
            rows@.map_values(|r: Result<Vec<String>, String>| match r {
                Ok(cells) => Ok(texts(cells@)),
                Err(e) => Err(e@),
            }),
        )),
        Err(e) => Err(e@),
    }
}

/// Reads `data` with `csv::ReaderBuilder` (a header row, rows of any
/// length): the header cells and each row's cells, or the `Display` text of
/// the reader's error for a row it cannot read (one that is not UTF-8, say);
/// the error's text when the header row cannot be read. Claims that the
/// result is `csv_parse(data@)`: the same bytes give the same table.
#[verifier::external_body]
fn csv_table(data: &[u8]) -> (res: Result<(Vec<String>, Vec<Result<Vec<String>, String>>), String>)
    ensures
        table_view(res) == csv_parse(data@),
{
    let mut reader = csv::ReaderBuilder::new().has_headers(true).flexible(true).from_reader(data);
    let headers: Vec<String> = match reader.headers() {
        Ok(h) => h.iter().map(String::from).collect(),
        Err(e) => return Err(e.to_string()),
    };
    let rows = reader.records().map(|r| match r {
        Ok(record) => Ok(record.iter().map(String::from).collect()),
        Err(e) => Err(e.to_string()),
    }).collect();
    Ok((headers, rows))
}

/// Whether `v` is what the cell decoder may give for a cell of text `cell`.
pub open spec fn decoded_cell<D: Fn(String) -> JsonValue>(decode: D, cell: Seq<char>, v: JsonValue) -> bool {
    exists|s: String| s@ == cell && #[trigger] call_ensures(decode, (s,), v)
}

/// Whether `d` is a row as read (its cell texts, or the reader's error)
/// with each cell decoded by `decode`.
pub open spec fn decoded_row<D: Fn(String) -> JsonValue>(
    decode: D,
    row: Result<Seq<Seq<char>>, Seq<char>>,
    d: Result<Vec<JsonValue>, String>,
) -> bool {
    match row {
        Ok(cells) => d matches Ok(vals) && vals@.len() == cells.len()
            && forall|j: int| 0 <= j < cells.len() ==> #[trigger] decoded_cell(decode, cells[j], vals@[j]),
        Err(e) => d matches Err(m) && m@ == e,
    }
}

/// Whether `rec` is the record at row `r` of a table with header cells
/// `headers`, read as `row` and decoded by `decode`.
pub open spec fn csv_row_read<D: Fn(String) -> JsonValue>(
    rec: ImportRecord,
    headers: Seq<Seq<char>>,
    row: Result<Seq<Seq<char>>, Seq<char>>,
    decode: D,
    r: int,
    config: ImportConfig,
) -> bool {
    exists|d: Result<Vec<JsonValue>, String>| {
        &&& #[trigger] decoded_row(decode, row, d)
        &&& csv_record(rec, headers, d, r + 2, config)
    }
}

/// Whether `records` are the records of a table with header cells
/// `headers` and rows `rows`, one per row, cells decoded by `decode`.
pub open spec fn csv_records<D: Fn(String) -> JsonValue>(
    records: Seq<ImportRecord>,
    headers: Seq<Seq<char>>,
    rows: Seq<Result<Seq<Seq<char>>, Seq<char>>>,
    decode: D,
    config: ImportConfig,
) -> bool {
    &&& records.len() == rows.len()
    &&& forall|r: int| 0 <= r < rows.len() ==> #[trigger] csv_row_read(records[r], headers, rows[r], decode, r, config)
}

/// Whether `e` is the fatal error for a header row that could not be read.
pub open spec fn header_error(e: ImportError, message: Seq<char>) -> bool {
    &&& e.line_number == Some(1usize)
    &&& e.field is None
    &&& e.message@ == "Failed to read headers: "@ + message
    &&& e.severity == ErrorSeverity::Fatal
}

/// CSV importer.
pub struct CsvImporter {
    config: ImportConfig,
}

impl CsvImporter {
    /// The importer's configuration.
    pub closed spec fn configuration(&self) -> ImportConfig {
        self.config
    }

    pub fn new(config: ImportConfig) -> (res: Self)
        ensures
            res.configuration() == config,
    {
        CsvImporter { config }
    }

    /// The field name of a column.
    fn mapped_key(&self, header: &String) -> (res: String)
        ensures
            res@ == mapped_name(self.configuration().field_mapping, header@),
    {
        match &self.config.field_mapping {
            Some(m) => match find_field(m, header.as_str()) {
                Some(i) => {
                    proof {
                        crate::json::lemma_field_index(m@, header@);
                    }
                    m[i].1.clone()
                },
                None => header.clone(),
            },
            None => header.clone(),
        }
    }

    /// The fields of a row, by column.
    fn row_fields(&self, headers: &Vec<String>, cells: &Vec<JsonValue>) -> (res: Vec<(String, JsonValue)>)
        ensures
            crate::json::data_of_fields(res@) == row_data(texts(headers@), cells@, self.configuration().field_mapping),
    {
        let mut data: Vec<(String, JsonValue)> = Vec::new();
        let mut j: usize = 0;
        proof {
            assert(cells@.take(0) =~= Seq::<JsonValue>::empty());
        }
        while j < cells.len()
            invariant
                j <= cells@.len(),
                crate::json::data_of_fields(data@) == row_data(texts(headers@), cells@.take(j as int), self.config.field_mapping),
            decreases cells@.len() - j,
        {
            proof {
                assert(cells@.take(j + 1).drop_last() =~= cells@.take(j as int));
                assert(cells@.take(j + 1)[j as int] == cells@[j as int]);
            }
            if j < headers.len() {
                let key = self.mapped_key(&headers[j]);
                let value = cells[j].copy();
                proof {
                    crate::json::lemma_data_of_with_field(data@, key, value);
                }
                set_field(&mut data, key, value);
            }
            j = j + 1;
        }
        proof {
            assert(cells@.take(j as int) =~= cells@);
        }
        data
    }

    /// The records of a CSV table: `headers` is its header row, and each
    /// row either the cells of a record, read as JSON values, or the error
    /// met reading it. Rows are numbered from line 2.
    pub fn records_from_table(
        &self,
        headers: &Vec<String>,
        rows: &Vec<Result<Vec<JsonValue>, String>>,
    ) -> (res: Vec<ImportRecord>)
        requires
            rows@.len() + 1 < usize::MAX,
        ensures
            res@.len() == rows@.len(),
            forall|r: int| 0 <= r < rows@.len() ==> csv_record(#[trigger] res@[r], texts(headers@), rows@[r], r + 2, self.configuration()),
    {
        let mut records: Vec<ImportRecord> = Vec::new();
        let mut r: usize = 0;
        while r < rows.len()
            invariant
                r <= rows@.len(),
                rows@.len() + 1 < usize::MAX,
                records@.len() == r,
                forall|k: int| 0 <= k < r ==> csv_record(#[trigger] records@[k], texts(headers@), rows@[k], k + 2, self.config),
            decreases rows@.len() - r,
        {
            let line = r + 2;
            let rec = match &rows[r] {
                Ok(cells) => {
                    let mut data = self.row_fields(headers, cells);
                    apply_defaults(&mut data, &self.config.defaults);
                    ImportRecord::new(line, data)
                },
                Err(e) => failed_record(line, "Parse error: ", e),
            };
            records.push(rec);
            r = r + 1;
        }
        records
    }

    /// The records of CSV content: the header row names the fields, each
    /// further row (from line 2) is a record whose cells `decode_cell`
    /// turns into values, or an error record when the row cannot be read.
    /// An error when the header row cannot be read, or when there are too
    /// many rows to number.
    pub fn parse<D: Fn(String) -> JsonValue>(&self, data: &[u8], decode_cell: D) -> (res: Result<Vec<ImportRecord>, ImportError>)
        requires
            forall|s: String| decode_cell.requires((s,)),
        ensures
            match csv_parse(data@) {
                Err(m) => res matches Err(e) && header_error(e, m),
                Ok((headers, rows)) => if rows.len() + 1 < usize::MAX {
                    res matches Ok(records) && csv_records(records@, headers, rows, decode_cell, self.configuration())
                } else {
                    res matches Err(e) && e.severity == ErrorSeverity::Fatal
                },
            },
    {
        let table = csv_table(data);
        let (headers, rows) = match table {
            Ok(t) => t,
            Err(m) => {
                let mut message = "Failed to read headers: ".to_owned();
                message.append(m.as_str());
                return Err(ImportError { line_number: Some(1), field: None, message, severity: ErrorSeverity::Fatal });
            },
        };
        let ghost rows_v = table_view(table)->Ok_0.1;
        proof {
            assert(rows_v.len() == rows@.len());
        }
        if rows.len() >= usize::MAX - 1 {
            return Err(ImportError {
                line_number: None,
                field: None,
                message: "Too many rows".to_owned(),
                severity: ErrorSeverity::Fatal,
            });
        }
        let mut decoded: Vec<Result<Vec<JsonValue>, String>> = Vec::new();
        let mut r: usize = 0;
        while r < rows.len()
            invariant
                r <= rows@.len(),
                decoded@.len() == r,
                rows_v.len() == rows@.len(),
                forall|s: String| decode_cell.requires((s,)),
                forall|k: int| 0 <= k < rows_v.len() ==> rows_v[k] == match #[trigger] rows@[k] {
                    Ok(cells) => Ok(texts(cells@)),
                    Err(e) => Err(e@),
                },
                forall|k: int| 0 <= k < r ==> #[trigger] decoded_row(decode_cell, rows_v[k], decoded@[k]),
            decreases rows@.len() - r,
        {
            let row = match &rows[r] {
                Ok(cells) => {
                    let mut vals: Vec<JsonValue> = Vec::new();
                    let mut j: usize = 0;
                    while j < cells.len()
                        invariant
                            j <= cells@.len(),
                            vals@.len() == j,
                            forall|s: String| decode_cell.requires((s,)),
                            forall|m: int| 0 <= m < j ==> #[trigger] decoded_cell(decode_cell, cells@[m]@, vals@[m]),
                        decreases cells@.len() - j,
                    {
                        let cell = cells[j].clone();
                        let ghost cg = cell;
                        let v = decode_cell(cell);
                        proof {
                            assert(cg@ == cells@[j as int]@);
                            assert(decoded_cell(decode_cell, cells@[j as int]@, v));
                        }
                        vals.push(v);
                        j = j + 1;
                    }
                    proof {
                        let cs = texts(cells@);
                        assert forall|m: int| 0 <= m < cs.len() implies #[trigger] decoded_cell(decode_cell, cs[m], vals@[m]) by {
                            assert(cs[m] == cells@[m]@);
                        }
                    }
                    Ok(vals)
                },
                Err(e) => Err(e.clone()),
            };
            proof {
                assert(decoded_row(decode_cell, rows_v[r as int], row));
            }
            decoded.push(row);
            r = r + 1;
        }
        let records = self.records_from_table(&headers, &decoded);
        proof {
            let hv = table_view(table)->Ok_0.0;
            assert(hv == texts(headers@));
            assert(csv_parse(data@) == table_view(table));
            assert(csv_parse(data@)->Ok_0.0 == hv);
            assert(csv_parse(data@)->Ok_0.1 == rows_v);
            let pr = csv_parse(data@)->Ok_0.1;
            let ph = csv_parse(data@)->Ok_0.0;
            assert forall|k: int| 0 <= k < pr.len() implies #[trigger] csv_row_read(records@[k], ph, pr[k], decode_cell, k, self.configuration()) by {
                assert(pr[k] == rows_v[k]);
                assert(decoded_row(decode_cell, rows_v[k], decoded@[k]));
                assert(csv_record(records@[k], texts(headers@), decoded@[k], k + 2, self.configuration()));
            }
            assert(csv_records(records@, ph, pr, decode_cell, self.configuration()));
        }
        Ok(records)
    }
}

impl Default for CsvImporter {
    /// An importer with the default configuration.
    fn default() -> (res: Self)
        ensures
            res.configuration().field_mapping is None,
            res.configuration().defaults@.len() == 0,
    {
        CsvImporter::new(ImportConfig::default())
    }
}

/// Whether `rec` is the record of JSON array item `v` at line `line`.
pub open spec fn json_record(rec: ImportRecord, v: JsonValue, line: int, defaults: Seq<(String, JsonValue)>) -> bool {
    match v {
        JsonValue::Object(fields) => valid_record(rec, line, crate::json::data_of_fields(fields@), defaults),
        _ => error_record(rec, line, "Expected object, got different type"@),
    }
}

/// Whether `c` has the Unicode property White_Space, by which `str::trim`
/// defines whitespace.
pub open spec fn is_white_space(c: char) -> bool {
    let n = c as u32;
    ||| 0x9 <= n <= 0xD
    ||| n == 0x20 || n == 0x85 || n == 0xA0 || n == 0x1680
    ||| 0x2000 <= n <= 0x200A
    ||| n == 0x2028 || n == 0x2029 || n == 0x202F || n == 0x205F || n == 0x3000
}

/// `s` without its leading whitespace.
pub open spec fn trim_start_text(s: Seq<char>) -> Seq<char>
    decreases s.len(),
{
    if s.len() > 0 && is_white_space(s[0]) { trim_start_text(s.drop_first()) } else { s }
}

/// `s` without its trailing whitespace.
pub open spec fn trim_end_text(s: Seq<char>) -> Seq<char>
    decreases s.len(),
{
    if s.len() > 0 && is_white_space(s.last()) { trim_end_text(s.drop_last()) } else { s }
}

/// What `str::trim` gives for `s`: the text without leading and trailing
/// whitespace.
pub open spec fn trim_text(s: Seq<char>) -> Seq<char> {
    trim_end_text(trim_start_text(s))
}

/// Calls `str::trim`, which removes leading and trailing characters with
/// the Unicode White_Space property. Claims that the result is `trim_text(s@)`.
#[verifier::external_body]
fn trimmed(s: &str) -> (res: &str)
    ensures
        res@ == trim_text(s@),
{
    s.trim()
}

/// One line of a JSON Lines document: its text (or the error met reading
/// it), and what decoding the text as JSON gave (or the decoder's error).
#[derive(Debug)]
pub struct JsonlLine {
    pub text: Result<String, String>,
    pub decoded: Result<JsonValue, String>,
}

/// Whether a line gives a record: one that could not be read, or one with
/// more than whitespace.
pub open spec fn gives_record(line: JsonlLine) -> bool {
    match line.text {
        Err(_) => true,
        Ok(t) => trim_text(t@).len() > 0,
    }
}

/// The indices of the lines that give records, in order.
pub open spec fn record_lines(lines: Seq<JsonlLine>) -> Seq<int>
    decreases lines.len(),
{
    if lines.len() == 0 {
        Seq::empty()
    } else {
        let r = record_lines(lines.drop_last());
        if gives_record(lines.last()) { r.push(lines.len() - 1) } else { r }
    }
}

/// Whether `rec` is the record of a line at line number `line`: the read
/// error, the decoder's error, an error for a value other than an object,
/// or the object's fields with the defaults applied.
pub open spec fn jsonl_record(rec: ImportRecord, l: JsonlLine, line: int, defaults: Seq<(String, JsonValue)>) -> bool {
    match l.text {
        Err(e) => error_record(rec, line, "Read error: "@ + e@),
        Ok(_) => match l.decoded {
            Ok(JsonValue::Object(fields)) => valid_record(rec, line, crate::json::data_of_fields(fields@), defaults),
            Ok(_) => error_record(rec, line, "Expected JSON object"@),
            Err(e) => error_record(rec, line, "Invalid JSON: "@ + e@),
        },
    }
}

/// JSON and JSON Lines importer.
pub struct JsonImporter {
    config: ImportConfig,
}

impl JsonImporter {
    /// The importer's configuration.
    pub closed spec fn configuration(&self) -> ImportConfig {
        self.config
    }

    pub fn new(config: ImportConfig) -> (res: Self)
        ensures
            res.configuration() == config,
    {
        JsonImporter { config }
    }

    /// The records of the items of a JSON array, numbered from 1: each
    /// object gives its fields, any other value an error.
    pub fn records_from_array(&self, values: &Vec<JsonValue>) -> (res: Vec<ImportRecord>)
        requires
            values@.len() < usize::MAX,
        ensures
            res@.len() == values@.len(),
            forall|r: int| 0 <= r < values@.len() ==> json_record(#[trigger] res@[r], values@[r], r + 1, self.configuration().defaults@),
    {
        let mut records: Vec<ImportRecord> = Vec::new();
        let mut r: usize = 0;
        while r < values.len()
            invariant
                r <= values@.len(),
                values@.len() < usize::MAX,
                records@.len() == r,
                forall|k: int| 0 <= k < r ==> json_record(#[trigger] records@[k], values@[k], k + 1, self.config.defaults@),
            decreases values@.len() - r,
        {
            let line = r + 1;
            let rec = match &values[r] {
                JsonValue::Object(fields) => item_record(line, fields, &self.config.defaults),
                _ => ImportRecord::new(line, Vec::new()).with_error("Expected object, got different type".to_owned()),
            };
            records.push(rec);
            r = r + 1;
        }
        records
    }

    /// The records of the lines of a JSON Lines document, numbered from 1;
    /// blank lines give none.
    pub fn records_from_lines(&self, lines: &Vec<JsonlLine>) -> (res: Vec<ImportRecord>)
        requires
            lines@.len() < usize::MAX,
        ensures
            res@.len() == record_lines(lines@).len(),
            forall|k: int| 0 <= k < res@.len() ==> jsonl_record(
                #[trigger] res@[k],
                lines@[record_lines(lines@)[k]],
                record_lines(lines@)[k] + 1,
                self.configuration().defaults@,
            ),
    {
        let mut records: Vec<ImportRecord> = Vec::new();
        let mut i: usize = 0;
        proof {
            assert(lines@.take(0) =~= Seq::<JsonlLine>::empty());
        }
        while i < lines.len()
            invariant
                i <= lines@.len(),
                lines@.len() < usize::MAX,
                records@.len() == record_lines(lines@.take(i as int)).len(),
                forall|j: int| 0 <= j < record_lines(lines@.take(i as int)).len()
                    ==> 0 <= #[trigger] record_lines(lines@.take(i as int))[j] < i,
                forall|k: int| 0 <= k < records@.len() ==> jsonl_record(
                    #[trigger] records@[k],
                    lines@[record_lines(lines@.take(i as int))[k]],
                    record_lines(lines@.take(i as int))[k] + 1,
                    self.config.defaults@,
                ),
            decreases lines@.len() - i,
        {
            let ghost before = lines@.take(i as int);
            proof {
                assert(lines@.take(i + 1).drop_last() =~= before);
                assert(lines@.take(i + 1).last() == lines@[i as int]);
            }
            let line = i + 1;
            let l = &lines[i];
            let rec: Option<ImportRecord> = match &l.text {
                Err(e) => Some(failed_record(line, "Read error: ", e)),
                Ok(t) => {
                    if trimmed(t.as_str()).is_empty() {
                        None
                    } else {
                        match &l.decoded {
                            Ok(JsonValue::Object(fields)) => Some(item_record(line, fields, &self.config.defaults)),
                            Ok(_) => Some(ImportRecord::new(line, Vec::new()).with_error("Expected JSON object".to_owned())),
                            Err(e) => Some(failed_record(line, "Invalid JSON: ", e)),
                        }
                    }
                },
            };
            match rec {
                Some(rc) => {
                    records.push(rc);
                },
                None => {},
            }
            i = i + 1;
        }
        proof {
            assert(lines@.take(i as int) =~= lines@);
        }
        records
    }
}

impl Default for JsonImporter {
    /// An importer with the default configuration.
    fn default() -> (res: Self)
        ensures
            res.configuration().defaults@.len() == 0,
    {
        JsonImporter::new(ImportConfig::default())
    }
}


/// The fields, by name, with `key` added as text `t` when there is one.
pub open spec fn text_field(
    d: Seq<(Seq<char>, crate::json::JsonData)>,
    key: Seq<char>,
    t: Option<Seq<char>>,
) -> Seq<(Seq<char>, crate::json::JsonData)> {
    match t {
        Some(s) => d.push((key, crate::json::JsonData::Text(s))),
        None => d,
    }
}

/// The prose of the first part that has some.
pub open spec fn first_prose(parts: Seq<JsonValue>) -> Option<Seq<char>>
    decreases parts.len(),
{
    if parts.len() == 0 {
        None
    } else {
        match crate::json::text_of(crate::json::json_get(parts[0], "prose"@)) {
            Some(p) => Some(p),
            None => first_prose(parts.skip(1)),
        }
    }
}

/// The description comes from the first part with prose: the prose found
/// is that of some part, and no part before it has any; and when no part
/// has prose, there is none.
pub proof fn lemma_first_prose(parts: Seq<JsonValue>)
    ensures
        first_prose(parts) matches Some(t) ==> exists|i: int| {
            &&& 0 <= i < parts.len()
            &&& #[trigger] crate::json::text_of(crate::json::json_get(parts[i], "prose"@)) == Some(t)
            &&& forall|j: int| 0 <= j < i ==> crate::json::text_of(crate::json::json_get(#[trigger] parts[j], "prose"@)) is None
        },
        first_prose(parts) is None ==> forall|j: int|
            0 <= j < parts.len() ==> crate::json::text_of(crate::json::json_get(#[trigger] parts[j], "prose"@)) is None,
    decreases parts.len(),
{
    if parts.len() > 0 {
        let rest = parts.skip(1);
        lemma_first_prose(rest);
        match crate::json::text_of(crate::json::json_get(parts[0], "prose"@)) {
            Some(p) => {
                assert(crate::json::text_of(crate::json::json_get(parts[0], "prose"@)) == Some(p));
            },
            None => {
                if let Some(t) = first_prose(rest) {
                    let k = choose|k: int| {
                        &&& 0 <= k < rest.len()
                        &&& #[trigger] crate::json::text_of(crate::json::json_get(rest[k], "prose"@)) == Some(t)
                        &&& forall|j: int| 0 <= j < k ==> crate::json::text_of(crate::json::json_get(#[trigger] rest[j], "prose"@)) is None
                    };
                    assert(rest[k] == parts[k + 1]);
                    assert(crate::json::text_of(crate::json::json_get(parts[k + 1], "prose"@)) == Some(t));
                    assert forall|j: int| 0 <= j < k + 1 implies crate::json::text_of(crate::json::json_get(#[trigger] parts[j], "prose"@)) is None by {
                        if j > 0 {
                            assert(parts[j] == rest[j - 1]);
                        }
                    }
                } else {
                    assert forall|j: int| 0 <= j < parts.len() implies crate::json::text_of(crate::json::json_get(#[trigger] parts[j], "prose"@)) is None by {
                        if j > 0 {
                            assert(parts[j] == rest[j - 1]);
                        }
                    }
                }
            },
        }
    }
}

/// In particular, when the first part has prose, that is the description.
pub proof fn lemma_first_part_prose(parts: Seq<JsonValue>, t: Seq<char>)
    requires
        parts.len() > 0,
        crate::json::text_of(crate::json::json_get(parts[0], "prose"@)) == Some(t),
    ensures
        first_prose(parts) == Some(t),
{
    lemma_first_prose(parts);
    if let Some(u) = first_prose(parts) {
        let i = choose|i: int| {
            &&& 0 <= i < parts.len()
            &&& #[trigger] crate::json::text_of(crate::json::json_get(parts[i], "prose"@)) == Some(u)
            &&& forall|j: int| 0 <= j < i ==> crate::json::text_of(crate::json::json_get(#[trigger] parts[j], "prose"@)) is None
        };
        if i > 0 {
            assert(crate::json::text_of(crate::json::json_get(parts[0], "prose"@)) is None);
        }
    }
}

/// The fields of the record of an OSCAL control: its identifier as
/// `control_id`, its `title` and `class`, the prose of its first part with
/// some as `description`, and its parameters as `parameters`.
pub open spec fn control_data(control: JsonValue) -> Seq<(Seq<char>, crate::json::JsonData)> {
    let d0 = text_field(Seq::empty(), "control_id"@, crate::json::text_of(crate::json::json_get(control, "id"@)));
    let d1 = text_field(d0, "title"@, crate::json::text_of(crate::json::json_get(control, "title"@)));
    let d2 = text_field(d1, "class"@, crate::json::text_of(crate::json::json_get(control, "class"@)));
    let d3 = text_field(d2, "description"@, first_prose(crate::json::array_items(crate::json::json_get(control, "parts"@))));
    match crate::json::json_get(control, "params"@) {
        Some(JsonValue::Array(p)) => d3.push(("parameters"@, crate::json::JsonData::Array(crate::json::data_of_items(p@)))),
        _ => d3,
    }
}

/// The controls of the groups of a catalog, group by group.
pub open spec fn group_controls(groups: Seq<JsonValue>) -> Seq<JsonValue>
    decreases groups.len(),
{
    if groups.len() == 0 {
        Seq::empty()
    } else {
        group_controls(groups.drop_last()) + crate::json::array_items(crate::json::json_get(groups.last(), "controls"@))
    }
}

/// The controls of an OSCAL catalog document: those of its groups, then
/// its own.
pub open spec fn catalog_controls(doc: JsonValue) -> Seq<JsonValue> {
    match crate::json::json_get(doc, "catalog"@) {
        Some(cat) => group_controls(crate::json::array_items(crate::json::json_get(cat, "groups"@)))
            + crate::json::array_items(crate::json::json_get(cat, "controls"@)),
        None => Seq::empty(),
    }
}

/// The fields of the record of an OSCAL component: its `uuid`, `title`,
/// `type` and `description`.
pub open spec fn component_data(c: JsonValue) -> Seq<(Seq<char>, crate::json::JsonData)> {
    let d0 = text_field(Seq::empty(), "uuid"@, crate::json::text_of(crate::json::json_get(c, "uuid"@)));
    let d1 = text_field(d0, "title"@, crate::json::text_of(crate::json::json_get(c, "title"@)));
    let d2 = text_field(d1, "type"@, crate::json::text_of(crate::json::json_get(c, "type"@)));
    text_field(d2, "description"@, crate::json::text_of(crate::json::json_get(c, "description"@)))
}

/// The components of an OSCAL component definition document.
pub open spec fn component_list(doc: JsonValue) -> Seq<JsonValue> {
    match crate::json::json_get(doc, "component-definition"@) {
        Some(cd) => crate::json::array_items(crate::json::json_get(cd, "components"@)),
        None => Seq::empty(),
    }
}

/// Whether `records` are the records of `items`, numbered from 1, with the
/// fields `fields` gives each.
pub open spec fn records_of(
    records: Seq<ImportRecord>,
    items: Seq<JsonValue>,
    fields: spec_fn(JsonValue) -> Seq<(Seq<char>, crate::json::JsonData)>,
    defaults: Seq<(String, JsonValue)>,
) -> bool {
    &&& records.len() == items.len()
    &&& forall|k: int| 0 <= k < records.len() ==> valid_record(#[trigger] records[k], k + 1, fields(items[k]), defaults)
}

/// The controls of a prefix of the groups are a prefix of the controls of
/// all groups.
pub proof fn lemma_group_controls_prefix(groups: Seq<JsonValue>, i: int)
    requires
        0 <= i <= groups.len(),
    ensures
        group_controls(groups.take(i)).len() <= group_controls(groups).len(),
    decreases groups.len() - i,
{
    if i < groups.len() {
        lemma_group_controls_prefix(groups, i + 1);
        assert(groups.take(i + 1).drop_last() =~= groups.take(i));
    } else {
        assert(groups.take(i) =~= groups);
    }
}

/// Adds the text of `value`, if it is a string, as field `key`.
fn push_text(data: &mut Vec<(String, JsonValue)>, key: &str, value: Option<&JsonValue>)
    ensures
        crate::json::data_of_fields(final(data)@) == text_field(
            crate::json::data_of_fields(old(data)@),
            key@,
            match value {
                Some(v) => crate::json::text_of(Some(*v)),
                None => None,
            },
        ),
{
    match value {
        Some(v) => match v.as_text() {
            Some(t) => {
                let entry = (key.to_owned(), JsonValue::Text(t.clone()));
                proof {
                    crate::json::lemma_data_of_push(data@, entry);
                }
                data.push(entry);
            },
            None => {},
        },
        None => {},
    }
}

/// The text of field `key` of `v`, as `text_of` sees it.
proof fn lemma_text_of_get(v: JsonValue, key: Seq<char>, got: Option<&JsonValue>)
    requires
        match got {
            Some(x) => crate::json::json_get(v, key) == Some(*x),
            None => crate::json::json_get(v, key) is None,
        },
    ensures
        crate::json::text_of(crate::json::json_get(v, key)) == match got {
            Some(x) => crate::json::text_of(Some(*x)),
            None => None,
        },
{
}

/// OSCAL importer.
pub struct OscalImporter {
    config: ImportConfig,
}

impl OscalImporter {
    /// The importer's configuration.
    pub closed spec fn configuration(&self) -> ImportConfig {
        self.config
    }

    pub fn new(config: ImportConfig) -> (res: Self)
        ensures
            res.configuration() == config,
    {
        OscalImporter { config }
    }

    /// The prose of the first part with some.
    fn prose_of(parts: &Vec<JsonValue>) -> (res: Option<String>)
        ensures
            match res {
                Some(p) => first_prose(parts@) == Some(p@),
                None => first_prose(parts@) is None,
            },
    {
        let mut i: usize = 0;
        proof {
            assert(parts@.skip(0) =~= parts@);
        }
        while i < parts.len()
            invariant
                i <= parts@.len(),
                first_prose(parts@) == first_prose(parts@.skip(i as int)),
            decreases parts@.len() - i,
        {
            proof {
                assert(parts@.skip(i as int)[0] == parts@[i as int]);
                assert(parts@.skip(i as int).skip(1) =~= parts@.skip(i + 1));
            }
            let got = parts[i].get("prose");
            proof {
                lemma_text_of_get(parts@[i as int], "prose"@, got);
            }
            match got {
                Some(p) => match p.as_text() {
                    Some(t) => {
                        return Some(t.clone());
                    },
                    None => {},
                },
                None => {},
            }
            i = i + 1;
        }
        proof {
            assert(parts@.skip(i as int).len() == 0);
        }
        None
    }

    /// The record of one control at line `line_number`.
    fn parse_control(&self, control: &JsonValue, line_number: usize) -> (res: ImportRecord)
        ensures
            valid_record(res, line_number as int, control_data(*control), self.config.defaults@),
    {
        let mut data: Vec<(String, JsonValue)> = Vec::new();
        let id = control.get("id");
        proof {
            lemma_text_of_get(*control, "id"@, id);
        }
        push_text(&mut data, "control_id", id);
        let title = control.get("title");
        proof {
            lemma_text_of_get(*control, "title"@, title);
        }
        push_text(&mut data, "title", title);
        let class = control.get("class");
        proof {
            lemma_text_of_get(*control, "class"@, class);
        }
        push_text(&mut data, "class", class);
        let parts = control.get("parts");
        let prose = match parts {
            Some(p) => match p.as_array() {
                Some(items) => Self::prose_of(items),
                None => None,
            },
            None => None,
        };
        match prose {
            Some(text) => {
                let entry = ("description".to_owned(), JsonValue::Text(text));
                proof {
                    crate::json::lemma_data_of_push(data@, entry);
                }
                data.push(entry);
            },
            None => {},
        }
        match control.get("params") {
            Some(p) => {
                if p.as_array().is_some() {
                    let entry = ("parameters".to_owned(), p.copy());
                    proof {
                        crate::json::lemma_data_of_push(data@, entry);
                    }
                    data.push(entry);
                }
            },
            None => {},
        }
        apply_defaults(&mut data, &self.config.defaults);
        ImportRecord::new(line_number, data)
    }

    /// Adds the records of `controls`, numbered on from the records there.
    fn push_controls(&self, records: &mut Vec<ImportRecord>, controls: &Vec<JsonValue>, Ghost(seen): Ghost<Seq<JsonValue>>)
        requires
            records_of(old(records)@, seen, |c: JsonValue| control_data(c), self.config.defaults@),
            old(records)@.len() + controls@.len() < usize::MAX,
        ensures
            records_of(final(records)@, seen + controls@, |c: JsonValue| control_data(c), self.config.defaults@),
    {
        let ghost start = records@.len();
        let mut j: usize = 0;
        while j < controls.len()
            invariant
                j <= controls@.len(),
                start + controls@.len() < usize::MAX,
                records_of(records@, seen + controls@.take(j as int), |c: JsonValue| control_data(c), self.config.defaults@),
                records@.len() == start + j,
            decreases controls@.len() - j,
        {
            let line = records.len() + 1;
            let rec = self.parse_control(&controls[j], line);
            records.push(rec);
            proof {
                let items = seen + controls@.take(j + 1);
                assert(items =~= (seen + controls@.take(j as int)).push(controls@[j as int]));
            }
            j = j + 1;
        }
        proof {
            assert(controls@.take(j as int) =~= controls@);
        }
    }

    /// The records of the controls of an OSCAL catalog document, numbered
    /// from 1: those of its groups, then its own.
    pub fn records_from_catalog(&self, doc: &JsonValue) -> (res: Vec<ImportRecord>)
        requires
            catalog_controls(*doc).len() < usize::MAX,
        ensures
            records_of(res@, catalog_controls(*doc), |c: JsonValue| control_data(c), self.configuration().defaults@),
    {
        let mut records: Vec<ImportRecord> = Vec::new();
        let cat = doc.get("catalog");
        match cat {
            Some(c) => {
                let ghost groups_spec = crate::json::array_items(crate::json::json_get(*c, "groups"@));
                let ghost own_spec = crate::json::array_items(crate::json::json_get(*c, "controls"@));
                let empty: Vec<JsonValue> = Vec::new();
                let groups = match c.get("groups") {
                    Some(g) => match g.as_array() {
                        Some(items) => items,
                        None => &empty,
                    },
                    None => &empty,
                };
                assert(groups@ == groups_spec);
                let mut gi: usize = 0;
                proof {
                    assert(groups@.take(0) =~= Seq::<JsonValue>::empty());
                    assert(records@ =~= Seq::<ImportRecord>::empty());
                }
                while gi < groups.len()
                    invariant
                        gi <= groups@.len(),
                        groups@ == groups_spec,
                        group_controls(groups_spec).len() + own_spec.len() < usize::MAX,
                        records_of(records@, group_controls(groups@.take(gi as int)), |c: JsonValue| control_data(c), self.config.defaults@),
                    decreases groups@.len() - gi,
                {
                    proof {
                        assert(groups@.take(gi + 1).drop_last() =~= groups@.take(gi as int));
                        assert(groups@.take(gi + 1).last() == groups@[gi as int]);
                        lemma_group_controls_prefix(groups@, gi + 1);
                    }
                    let ghost seen = group_controls(groups@.take(gi as int));
                    match groups[gi].get("controls") {
                        Some(cs) => match cs.as_array() {
                            Some(controls) => {
                                self.push_controls(&mut records, controls, Ghost(seen));
                            },
                            None => {
                                assert(seen + Seq::<JsonValue>::empty() =~= seen);
                            },
                        },
                        None => {
                            assert(seen + Seq::<JsonValue>::empty() =~= seen);
                        },
                    }
                    gi = gi + 1;
                }
                proof {
                    assert(groups@.take(gi as int) =~= groups@);
                }
                match c.get("controls") {
                    Some(cs) => match cs.as_array() {
                        Some(controls) => {
                            self.push_controls(&mut records, controls, Ghost(group_controls(groups_spec)));
                        },
                        None => {
                            assert(group_controls(groups_spec) + own_spec =~= group_controls(groups_spec));
                        },
                    },
                    None => {
                        assert(group_controls(groups_spec) + own_spec =~= group_controls(groups_spec));
                    },
                }
            },
            None => {},
        }
        records
    }

    /// The record of one component at line `line_number`.
    fn parse_component(&self, component: &JsonValue, line_number: usize) -> (res: ImportRecord)
        ensures
            valid_record(res, line_number as int, component_data(*component), self.config.defaults@),
    {
        let mut data: Vec<(String, JsonValue)> = Vec::new();
        let uuid = component.get("uuid");
        proof {
            lemma_text_of_get(*component, "uuid"@, uuid);
        }
        push_text(&mut data, "uuid", uuid);
        let title = component.get("title");
        proof {
            lemma_text_of_get(*component, "title"@, title);
        }
        push_text(&mut data, "title", title);
        let ctype = component.get("type");
        proof {
            lemma_text_of_get(*component, "type"@, ctype);
        }
        push_text(&mut data, "type", ctype);
        let desc = component.get("description");
        proof {
            lemma_text_of_get(*component, "description"@, desc);
        }
        push_text(&mut data, "description", desc);
        apply_defaults(&mut data, &self.config.defaults);
        ImportRecord::new(line_number, data)
    }

    /// The records of the components of an OSCAL component definition
    /// document, numbered from 1.
    pub fn records_from_component(&self, doc: &JsonValue) -> (res: Vec<ImportRecord>)
        requires
            component_list(*doc).len() < usize::MAX,
        ensures
            records_of(res@, component_list(*doc), |c: JsonValue| component_data(c), self.configuration().defaults@),
    {
        let mut records: Vec<ImportRecord> = Vec::new();
        let empty: Vec<JsonValue> = Vec::new();
        let components = match doc.get("component-definition") {
            Some(cd) => match cd.get("components") {
                Some(cs) => match cs.as_array() {
                    Some(items) => items,
                    None => &empty,
                },
                None => &empty,
            },
            None => &empty,
        };
        assert(components@ == component_list(*doc));
        let mut k: usize = 0;
        while k < components.len()
            invariant
                k <= components@.len(),
                components@ == component_list(*doc),
                components@.len() < usize::MAX,
                records_of(records@, components@.take(k as int), |c: JsonValue| component_data(c), self.config.defaults@),
            decreases components@.len() - k,
        {
            let rec = self.parse_component(&components[k], k + 1);
            records.push(rec);
            proof {
                assert(components@.take(k + 1) =~= components@.take(k as int).push(components@[k as int]));
            }
            k = k + 1;
        }
        proof {
            assert(components@.take(k as int) =~= components@);
        }
        records
    }
}

impl Default for OscalImporter {
    /// An importer with the default configuration.
    fn default() -> (res: Self)
        ensures
            res.configuration().defaults@.len() == 0,
    {
        OscalImporter::new(ImportConfig::default())
    }
}


/// The texts of a list of errors.
pub open spec fn error_texts(errors: Seq<String>) -> Seq<Seq<char>> {
    errors.map_values(|e: String| e@)
}

/// A validation rule: a field every record must have, or a check of the
/// caller's that answers a record's errors.
pub enum Rule<C> {
    Required(String),
    Custom(C),
}

/// Whether `after` is `before` checked by `rule`: a required field that is
/// missing adds its error and makes the record invalid; a check adds the
/// errors it answers on the record, which becomes invalid when there are any.
pub open spec fn rule_applied<C: Fn(&ImportRecord) -> Vec<String>>(rule: Rule<C>, before: ImportRecord, after: ImportRecord) -> bool {
    &&& after.line_number == before.line_number
    &&& after.data == before.data
    &&& match rule {
        Rule::Required(f) => if crate::json::field_index(before.data@, f@) is None {
            &&& error_texts(after.errors@) == error_texts(before.errors@).push("Missing required field: "@ + f@)
            &&& !after.valid
        } else {
            after == before
        },
        Rule::Custom(c) => exists|out: Vec<String>| {
            &&& #[trigger] call_ensures(c, (&before,), out)
            &&& after.errors@ == before.errors@ + out@
            &&& after.valid == (before.valid && out@.len() == 0)
        },
    }
}

/// Whether `chain` holds a record as it is checked by each rule of
/// `rules` in turn, from `before` to `after`.
pub open spec fn checked_chain<C: Fn(&ImportRecord) -> Vec<String>>(
    rules: Seq<Rule<C>>,
    chain: Seq<ImportRecord>,
    before: ImportRecord,
    after: ImportRecord,
) -> bool {
    &&& chain.len() == rules.len() + 1
    &&& chain[0] == before
    &&& chain[rules.len() as int] == after
    &&& forall|k: int| 0 <= k < rules.len() ==> #[trigger] rule_applied(rules[k], chain[k], chain[k + 1])
}

/// Whether `after` is `before` checked by each rule of `rules` in turn.
pub open spec fn rules_applied<C: Fn(&ImportRecord) -> Vec<String>>(rules: Seq<Rule<C>>, before: ImportRecord, after: ImportRecord) -> bool {
    exists|chain: Seq<ImportRecord>| #[trigger] checked_chain(rules, chain, before, after)
}

/// Record validator: rules checked in the order they were added.
pub struct RecordValidator<C> {
    rules: Vec<Rule<C>>,
}

impl<C> RecordValidator<C> {
    /// The rules, in the order they were added.
    pub closed spec fn rule_list(&self) -> Seq<Rule<C>> {
        self.rules@
    }

    /// A validator with no rules.
    pub fn new() -> (res: Self)
        ensures
            res.rule_list().len() == 0,
    {
        RecordValidator { rules: Vec::new() }
    }

    /// Adds a required field.
    pub fn require_field(self, field: &str) -> (res: Self)
        ensures
            res.rule_list().len() == self.rule_list().len() + 1,
            res.rule_list().drop_last() == self.rule_list(),
            res.rule_list().last() matches Rule::Required(f) && f@ == field@,
    {
        let mut this = self;
        this.rules.push(Rule::Required(field.to_owned()));
        proof {
            assert(this.rules@.drop_last() =~= self.rules@);
        }
        this
    }

    /// Adds a check of the caller's.
    pub fn add_validator(self, validator: C) -> (res: Self)
        ensures
            res.rule_list() == self.rule_list().push(Rule::Custom(validator)),
    {
        let mut this = self;
        this.rules.push(Rule::Custom(validator));
        this
    }
}

impl<C: Fn(&ImportRecord) -> Vec<String>> RecordValidator<C> {
    /// Whether every check of the validator accepts any record.
    pub open spec fn callable(&self) -> bool {
        forall|k: int| 0 <= k < self.rule_list().len() ==> (#[trigger] self.rule_list()[k] matches Rule::Custom(c)
            ==> forall|r: &ImportRecord| c.requires((r,)))
    }

    /// Checks one required field: a record without it gets an error and
    /// becomes invalid.
    pub fn check_required(record: &mut ImportRecord, field: &str)
        ensures
            final(record).line_number == old(record).line_number,
            final(record).data == old(record).data,
            crate::json::field_index(old(record).data@, field@) is None ==> {
                &&& error_texts(final(record).errors@) == error_texts(old(record).errors@).push("Missing required field: "@ + field@)
                &&& !final(record).valid
            },
            crate::json::field_index(old(record).data@, field@) is Some ==> *final(record) == *old(record),
    {
        if find_field(&record.data, field).is_none() {
            let mut message = "Missing required field: ".to_owned();
            message.append(field);
            let ghost before = record.errors@;
            record.errors.push(message);
            record.valid = false;
            proof {
                assert(error_texts(record.errors@) =~= error_texts(before).push("Missing required field: "@ + field@));
            }
        }
    }

    /// Validates a record by each rule in turn: an error for a required
    /// field it lacks, the errors a check answers; a record with any
    /// becomes invalid.
    pub fn validate(&self, record: &mut ImportRecord)
        requires
            self.callable(),
        ensures
            rules_applied(self.rule_list(), *old(record), *final(record)),
    {
        let ghost start = *record;
        let ghost mut chain: Seq<ImportRecord> = seq![*record];
        let mut i: usize = 0;
        while i < self.rules.len()
            invariant
                i <= self.rules@.len(),
                self.callable(),
                chain.len() == i + 1,
                chain[0] == start,
                chain[i as int] == *record,
                forall|k: int| 0 <= k < i ==> #[trigger] rule_applied(self.rules@[k], chain[k], chain[k + 1]),
            decreases self.rules@.len() - i,
        {
            let ghost before = *record;
            match &self.rules[i] {
                Rule::Required(field) => {
                    Self::check_required(record, field.as_str());
                },
                Rule::Custom(check) => {
                    proof {
                        assert(self.rule_list()[i as int] matches Rule::Custom(c));
                    }
                    let mut errors = check(&*record);
                    let ghost out = errors;
                    let found = errors.len();
                    record.errors.append(&mut errors);
                    if found > 0 {
                        record.valid = false;
                    }
                    proof {
                        assert(call_ensures(*check, (&before,), out));
                    }
                },
            }
            proof {
                assert(rule_applied(self.rules@[i as int], before, *record));
                let c2 = chain.push(*record);
                assert forall|k: int| 0 <= k < i + 1 implies #[trigger] rule_applied(self.rules@[k], c2[k], c2[k + 1]) by {
                    if k < i {
                        assert(c2[k] == chain[k] && c2[k + 1] == chain[k + 1]);
                    }
                }
                chain = c2;
            }
            i = i + 1;
        }
        proof {
            assert(checked_chain(self.rules@, chain, start, *record));
        }
    }

    /// Validates every record.
    pub fn validate_all(&self, records: &mut Vec<ImportRecord>)
        requires
            self.callable(),
        ensures
            final(records)@.len() == old(records)@.len(),
            forall|k: int| 0 <= k < old(records)@.len() ==> #[trigger] rules_applied(self.rule_list(), old(records)@[k], final(records)@[k]),
    {
        let mut k: usize = 0;
        while k < records.len()
            invariant
                self.callable(),
                k <= records@.len(),
                records@.len() == old(records)@.len(),
                forall|j: int| k <= j < records@.len() ==> records@[j] == old(records)@[j],
                forall|j: int| 0 <= j < k ==> #[trigger] rules_applied(self.rule_list(), old(records)@[j], records@[j]),
            decreases records@.len() - k,
        {
            let mut rec = records.remove(k);
            self.validate(&mut rec);
            records.insert(k, rec);
            k = k + 1;
        }
    }
}

impl<C> Default for RecordValidator<C> {
    /// A validator with no rules.
    fn default() -> (res: Self)
        ensures
            res.rule_list().len() == 0,
    {
        RecordValidator::new()
    }
}

/// Along a checked chain, every record keeps the line and data of the
/// first, and a valid record had only valid ones before it.
pub proof fn lemma_chain_keeps<C: Fn(&ImportRecord) -> Vec<String>>(
    rules: Seq<Rule<C>>,
    chain: Seq<ImportRecord>,
    before: ImportRecord,
    after: ImportRecord,
    j: int,
)
    requires
        checked_chain(rules, chain, before, after),
        0 <= j <= rules.len(),
    ensures
        chain[j].data == before.data,
        chain[j].line_number == before.line_number,
        forall|k: int| 0 <= k <= j && chain[j].valid ==> #[trigger] chain[k].valid,
    decreases j,
{
    if j > 0 {
        lemma_chain_keeps(rules, chain, before, after, j - 1);
        let k = j - 1;
        assert(rule_applied(rules[k], chain[k], chain[k + 1]));
        assert(chain[k + 1] == chain[j]);
    }
}

/// Checking keeps a record's line and data, and a record is valid after
/// only if it was before.
pub proof fn lemma_rules_keep_data<C: Fn(&ImportRecord) -> Vec<String>>(rules: Seq<Rule<C>>, before: ImportRecord, after: ImportRecord)
    requires
        rules_applied(rules, before, after),
    ensures
        after.data == before.data,
        after.line_number == before.line_number,
        after.valid ==> before.valid,
{
    let chain = choose|chain: Seq<ImportRecord>| #[trigger] checked_chain(rules, chain, before, after);
    lemma_chain_keeps(rules, chain, before, after, rules.len() as int);
    assert(chain[0] == before);
}

/// A validated record is valid only if it was, and every required field is
/// there.
pub proof fn lemma_valid_has_required<C: Fn(&ImportRecord) -> Vec<String>>(
    rules: Seq<Rule<C>>,
    before: ImportRecord,
    after: ImportRecord,
    i: int,
)
    requires
        rules_applied(rules, before, after),
        after.valid,
        0 <= i < rules.len(),
    ensures
        before.valid,
        rules[i] matches Rule::Required(f) ==> crate::json::field_index(before.data@, f@) is Some,
{
    let chain = choose|chain: Seq<ImportRecord>| #[trigger] checked_chain(rules, chain, before, after);
    lemma_chain_keeps(rules, chain, before, after, rules.len() as int);
    lemma_chain_keeps(rules, chain, before, after, i);
    assert(chain[i + 1].valid);
    assert(rule_applied(rules[i], chain[i], chain[i + 1]));
}

} // verus!
