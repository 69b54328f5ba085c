//! Parsing of Garmin EIS avionics log files: the self-describing three-line
//! header, the unit-driven column schema, the row loader, and the cleaning
//! and mapping stages that prepare a table for the FDR writer.

use vstd::prelude::*;

use crate::fdr::{drefs_of, DataRef, DataRefModel, FDRConfiguration, FlightDataBlock,
    FlightDataBlockModel, FlightDataError, FlightDataErrorModel, FlightDataSource};
use crate::table::{col_index, cols_of, mask_filter, Column, ColumnModel, Table, TableModel,
    ValueType};
use crate::text::{lines_of, split_spec, strip_hashes_spec, strip_nuls_spec, trim_quotes_spec,
    trim_spec};

verus! {

/// Why a Garmin log file could not be parsed.
#[derive(Debug)]
pub enum GarminLogFileParseError {
    /// Fewer than three header lines, or malformed header content.
    MalformedHeader,
    /// A data row whose field count differs from the header's column count.
    RowWidthMismatch,
    /// A composite date/time/offset value that is no valid timestamp.
    TimestampParseFailure,
    /// A column required by a transform is absent from the table.
    UnknownColumn(String),
}

/// One header column: its raw name and its physical unit.
#[derive(Debug)]
pub struct GarminEISColumn {
    pub name: String,
    pub unit: String,
}

/// Model of one header column.
#[verifier::ext_equal]
pub struct GarminColumnModel {
    pub name: Seq<char>,
    pub unit: Seq<char>,
}

impl View for GarminEISColumn {
    type V = GarminColumnModel;

    open spec fn view(&self) -> GarminColumnModel {
        GarminColumnModel { name: self.name@, unit: self.unit@ }
    }
}

/// The models of a sequence of header columns.
pub open spec fn gcols_of(v: Seq<GarminEISColumn>) -> Seq<GarminColumnModel> {
    v.map_values(|c: GarminEISColumn| c@)
}

impl GarminEISColumn {
    /// The column name with surrounding whitespace removed.
    pub fn name(&self) -> (r: &str)
        ensures
            r@ == trim_spec(self@.name),
    {
        crate::text::trim_str(self.name.as_str())
    }

    /// The column name exactly as it stood in the header.
    pub fn raw_name(&self) -> (r: &str)
        ensures
            r@ == self@.name,
    {
        self.name.as_str()
    }

    /// The physical unit of the column.
    pub fn unit(&self) -> (r: &str)
        ensures
            r@ == self@.unit,
    {
        self.unit.as_str()
    }
}

/// One `key="value"` metadata pair from the header's first line.
#[derive(Debug)]
pub struct MetadataEntry {
    pub key: String,
    pub value: String,
}

impl View for MetadataEntry {
    type V = (Seq<char>, Seq<char>);

    open spec fn view(&self) -> (Seq<char>, Seq<char>) {
        (self.key@, self.value@)
    }
}

/// The models of a sequence of metadata entries.
pub open spec fn meta_of(v: Seq<MetadataEntry>) -> Seq<(Seq<char>, Seq<char>)> {
    v.map_values(|e: MetadataEntry| e@)
}

/// The key/value pair denoted by one metadata entry: the text around the
/// first `=`, the key trimmed of whitespace, the value trimmed of whitespace
/// and then of surrounding quotes. An entry without `=` denotes nothing.
pub open spec fn entry_kv(e: Seq<char>) -> Option<(Seq<char>, Seq<char>)> {
    let parts = split_spec(e, '=');
    if parts.len() >= 2 {
        Some((trim_spec(parts[0]), trim_quotes_spec(trim_spec(parts[1]))))
    } else {
        None
    }
}

/// The key/value pairs of a sequence of metadata entries, in order.
pub open spec fn metadata_of(entries: Seq<Seq<char>>) -> Seq<(Seq<char>, Seq<char>)>
    decreases entries.len(),
{
    if entries.len() == 0 {
        Seq::empty()
    } else {
        match entry_kv(entries[0]) {
            Option::Some(kv) => seq![kv] + metadata_of(entries.drop_first()),
            Option::None => metadata_of(entries.drop_first()),
        }
    }
}

/// The metadata denoted by the header's first line.
pub open spec fn header_metadata_spec(line: Seq<char>) -> Seq<(Seq<char>, Seq<char>)> {
    metadata_of(split_spec(strip_hashes_spec(line), ','))
}

/// The columns denoted by the header's second (units) and third (names)
/// lines: positionally zipped, units trimmed, names kept raw.
pub open spec fn header_columns_spec(units_line: Seq<char>, names_line: Seq<char>) -> Seq<
    GarminColumnModel,
> {
    let units = split_spec(strip_hashes_spec(units_line), ',');
    let names = split_spec(names_line, ',');
    let n = if units.len() <= names.len() {
        units.len()
    } else {
        names.len()
    };
    Seq::new(n, |i: int| GarminColumnModel { name: names[i], unit: trim_spec(units[i]) })
}

/// The logical lines of a source file: trailing NUL padding stripped, split
/// on newlines, and without the empty line after a final newline.
pub open spec fn file_lines(s: Seq<char>) -> Seq<Seq<char>> {
    let ls = lines_of(strip_nuls_spec(s));
    if ls.len() > 0 && ls.last().len() == 0 {
        ls.drop_last()
    } else {
        ls
    }
}

/// The free-form metadata and per-column names and units read from the first
/// three lines of a Garmin EIS log.
#[derive(Debug)]
pub struct GarminEISLogHeader {
    pub metadata: Vec<MetadataEntry>,
    pub columns: Vec<GarminEISColumn>,
}

impl GarminEISLogHeader {
    /// Parses the three header lines of a source file's text.
    ///
    /// Line 1 holds comment-prefixed `key="value"` metadata, line 2 the
    /// comment-prefixed physical units, line 3 the raw column names. Fails
    /// exactly when the file has fewer than three lines.
    pub fn from_csv(text: &str) -> (r: Result<Self, GarminLogFileParseError>)
        ensures
            file_lines(text@).len() >= 3 <==> r is Ok,
            r matches Ok(h) ==> meta_of(h.metadata@) == header_metadata_spec(file_lines(text@)[0])
                && gcols_of(h.columns@) == header_columns_spec(
                file_lines(text@)[1],
                file_lines(text@)[2],
            ),
            r matches Err(e) ==> e is MalformedHeader,
    {
        let stripped = crate::text::strip_trailing_nuls(text);
        let all_lines = crate::text::split_lines(stripped);
        let nl = all_lines.len();
        let n_eff: usize = if all_lines[nl - 1].as_str().unicode_len() == 0 {
            nl - 1
        } else {
            nl
        };
        proof {
            let ls = lines_of(strip_nuls_spec(text@));
            assert(all_lines.deep_view() == ls);
            assert(all_lines[nl - 1]@ == ls.last());
            if ls.last().len() == 0 {
                assert(file_lines(text@) =~~= ls.drop_last());
            } else {
                assert(file_lines(text@) =~~= ls);
            }
            assert(n_eff == file_lines(text@).len());
        }
        if n_eff < 3 {
            return Err(GarminLogFileParseError::MalformedHeader);
        }
        proof {
            assert(all_lines[0]@ == file_lines(text@)[0]);
            assert(all_lines[1]@ == file_lines(text@)[1]);
            assert(all_lines[2]@ == file_lines(text@)[2]);
        }
        let metadata = parse_metadata_line(all_lines[0].as_str());
        let columns = parse_column_lines(all_lines[1].as_str(), all_lines[2].as_str());
        Ok(Self { metadata, columns })
    }

    /// The value of the last metadata entry with the given key, if any.
    pub fn metadata_get(&self, key: &str) -> (r: Option<&String>)
        ensures
            match r {
                Option::Some(v) => meta_lookup(meta_of(self.metadata@), key@) == Some(v@),
                Option::None => meta_lookup(meta_of(self.metadata@), key@) is None,
            },
    {
        let n = self.metadata.len();
        let mut i: usize = n;
        while i > 0
            invariant
                n == self.metadata.len(),
                0 <= i <= n,
                forall|k: int| i <= k < n ==> meta_of(self.metadata@)[k].0 != key@,
            decreases i,
        {
            i -= 1;
            if crate::text::str_eq(self.metadata[i].key.as_str(), key) {
                proof {
                    lemma_meta_lookup_at(meta_of(self.metadata@), key@, i as int);
                }
                return Some(&self.metadata[i].value);
            }
        }
        proof {
            lemma_meta_lookup_none(meta_of(self.metadata@), key@);
        }
        None
    }
}

/// The value of the last pair with the given key: later entries overwrite
/// earlier ones, as repeated inserts into a mapping would.
pub open spec fn meta_lookup(pairs: Seq<(Seq<char>, Seq<char>)>, key: Seq<char>) -> Option<
    Seq<char>,
>
    decreases pairs.len(),
{
    if pairs.len() == 0 {
        None
    } else if pairs.last().0 == key {
        Some(pairs.last().1)
    } else {
        meta_lookup(pairs.drop_last(), key)
    }
}

proof fn lemma_meta_lookup_at(pairs: Seq<(Seq<char>, Seq<char>)>, key: Seq<char>, i: int)
    requires
        0 <= i < pairs.len(),
        pairs[i].0 == key,
        forall|k: int| i < k < pairs.len() ==> pairs[k].0 != key,
    ensures
        meta_lookup(pairs, key) == Some(pairs[i].1),
    decreases pairs.len(),
{
    if i < pairs.len() - 1 {
        lemma_meta_lookup_at(pairs.drop_last(), key, i);
    }
}

proof fn lemma_meta_lookup_none(pairs: Seq<(Seq<char>, Seq<char>)>, key: Seq<char>)
    requires
        forall|k: int| 0 <= k < pairs.len() ==> pairs[k].0 != key,
    ensures
        meta_lookup(pairs, key) is None,
    decreases pairs.len(),
{
    if pairs.len() > 0 {
        lemma_meta_lookup_none(pairs.drop_last(), key);
    }
}

/// Parses the header's first line into its metadata entries.
fn parse_metadata_line(line: &str) -> (r: Vec<MetadataEntry>)
    ensures
        meta_of(r@) == header_metadata_spec(line@),
{
    let body = crate::text::strip_leading_hashes(line);
    let entries = crate::text::split_str(body, ',');
    let ghost edv = entries.deep_view();
    let mut out: Vec<MetadataEntry> = Vec::new();
    let n = entries.len();
    let mut i: usize = 0;
    proof {
        assert(edv.skip(0) =~= edv);
        assert(meta_of(out@) =~~= Seq::<(Seq<char>, Seq<char>)>::empty());
    }
    while i < n
        invariant
            n == entries.len(),
            0 <= i <= n,
            edv == entries.deep_view(),
            edv == split_spec(strip_hashes_spec(line@), ','),
            meta_of(out@) + metadata_of(edv.skip(i as int)) == metadata_of(edv),
        decreases n - i,
    {
        let parts = crate::text::split_str(entries[i].as_str(), '=');
        proof {
            assert(entries[i as int]@ == edv[i as int]);
            assert(edv.skip(i as int)[0] == edv[i as int]);
            assert(edv.skip(i as int).drop_first() =~= edv.skip(i + 1));
        }
        if parts.len() >= 2 {
            let key = crate::text::trim_str(parts[0].as_str()).to_owned();
            let value = crate::text::trim_quotes(crate::text::trim_str(parts[1].as_str()))
                .to_owned();
            let ghost oldm = meta_of(out@);
            proof {
                assert(parts[0]@ == parts.deep_view()[0]);
                assert(parts[1]@ == parts.deep_view()[1]);
                assert(oldm.len() == out@.len());
            }
            out.push(MetadataEntry { key, value });
            proof {
                assert(entry_kv(edv[i as int]) == Some((key@, value@)));
                assert(meta_of(out@) =~~= oldm + seq![(key@, value@)]);
                assert(meta_of(out@) + metadata_of(edv.skip(i + 1)) =~~= metadata_of(edv));
            }
        } else {
            proof {
                assert(entry_kv(edv[i as int]) is None);
                assert(metadata_of(edv.skip(i as int)) == metadata_of(edv.skip(i + 1)));
            }
        }
        i += 1;
    }
    proof {
        assert(edv.skip(n as int) =~= Seq::<Seq<char>>::empty());
        assert(metadata_of(edv.skip(n as int)) =~~= Seq::<(Seq<char>, Seq<char>)>::empty());
        assert(meta_of(out@) =~~= metadata_of(edv));
    }
    out
}

/// Zips the header's unit and name lines into the column list.
fn parse_column_lines(units_line: &str, names_line: &str) -> (r: Vec<GarminEISColumn>)
    ensures
        gcols_of(r@) == header_columns_spec(units_line@, names_line@),
{
    let units = crate::text::split_str(crate::text::strip_leading_hashes(units_line), ',');
    let names = crate::text::split_str(names_line, ',');
    let n = if units.len() <= names.len() {
        units.len()
    } else {
        names.len()
    };
    let mut out: Vec<GarminEISColumn> = Vec::new();
    let mut i: usize = 0;
    let ghost target = header_columns_spec(units_line@, names_line@);
    proof {
        assert(target.len() == n);
        assert(gcols_of(out@) =~~= target.subrange(0, 0));
    }
    while i < n
        invariant
            n <= units.len(),
            n <= names.len(),
            units.deep_view() == split_spec(strip_hashes_spec(units_line@), ','),
            names.deep_view() == split_spec(names_line@, ','),
            target == header_columns_spec(units_line@, names_line@),
            target.len() == n,
            0 <= i <= n,
            gcols_of(out@) == target.subrange(0, i as int),
        decreases n - i,
    {
        let name = crate::table::clone_string(&names[i]);
        let unit = crate::text::trim_str(units[i].as_str()).to_owned();
        let ghost oldg = gcols_of(out@);
        proof {
            assert(oldg.len() == out@.len());
            assert(names[i as int]@ == names.deep_view()[i as int]);
            assert(units[i as int]@ == units.deep_view()[i as int]);
        }
        out.push(GarminEISColumn { name, unit });
        proof {
            assert(gcols_of(out@) =~~= oldg.push(target[i as int]));
            assert(gcols_of(out@) =~~= target.subrange(0, i + 1));
        }
        i += 1;
    }
    proof {
        assert(target.subrange(0, n as int) =~= target);
    }
    out
}

/// The value type denoted by a physical-unit string: numeric physical units
/// give `Float`, boolean- and count-like units give `Integer`, date-shaped
/// units give `Date`, and everything else, including unrecognized units,
/// gives `Text`.
pub open spec fn unit_type_spec(u: Seq<char>) -> ValueType {
    if u == "yyy-mm-dd"@ {
        ValueType::Date
    } else if u == "bool"@ || u == "#"@ {
        ValueType::Integer
    } else if u == "MHz"@ || u == "degrees"@ || u == "ft"@ || u == "nm"@ || u == "fsd"@ || u
        == "mt"@ || u == "ft wgs"@ || u == "ft Baro"@ || u == "ft msl"@ || u == "kt"@ || u
        == "fpm"@ || u == "deg"@ || u == "ft/min"@ || u == "deg F/min"@ || u == "kts"@ || u
        == "lbs"@ || u == "gals"@ || u == "volts"@ || u == "amps"@ || u == "gph"@ || u == "psi"@
        || u == "degF"@ || u == "deg F"@ || u == "deg C"@ || u == "%"@ || u == "rpm"@ || u
        == "inch"@ || u == "Hg"@ || u == "G"@ || u == "s"@ {
        ValueType::Float
    } else {
        ValueType::Text
    }
}

/// The value type for one unit string.
pub fn unit_value_type(u: &str) -> (r: ValueType)
    ensures
        r == unit_type_spec(u@),
{
    if crate::text::str_eq(u, "yyy-mm-dd") {
        ValueType::Date
    } else if crate::text::str_eq(u, "bool") || crate::text::str_eq(u, "#") {
        ValueType::Integer
    } else if crate::text::str_eq(u, "MHz") || crate::text::str_eq(u, "degrees")
        || crate::text::str_eq(u, "ft") || crate::text::str_eq(u, "nm") || crate::text::str_eq(
        u,
        "fsd",
    ) || crate::text::str_eq(u, "mt") || crate::text::str_eq(u, "ft wgs") || crate::text::str_eq(
        u,
        "ft Baro",
    ) || crate::text::str_eq(u, "ft msl") || crate::text::str_eq(u, "kt") || crate::text::str_eq(
        u,
        "fpm",
    ) || crate::text::str_eq(u, "deg") || crate::text::str_eq(u, "ft/min")
        || crate::text::str_eq(u, "deg F/min") || crate::text::str_eq(u, "kts")
        || crate::text::str_eq(u, "lbs") || crate::text::str_eq(u, "gals") || crate::text::str_eq(
        u,
        "volts",
    ) || crate::text::str_eq(u, "amps") || crate::text::str_eq(u, "gph") || crate::text::str_eq(
        u,
        "psi",
    ) || crate::text::str_eq(u, "degF") || crate::text::str_eq(u, "deg F")
        || crate::text::str_eq(u, "deg C") || crate::text::str_eq(u, "%") || crate::text::str_eq(
        u,
        "rpm",
    ) || crate::text::str_eq(u, "inch") || crate::text::str_eq(u, "Hg") || crate::text::str_eq(
        u,
        "G",
    ) || crate::text::str_eq(u, "s") {
        ValueType::Float
    } else {
        ValueType::Text
    }
}

/// One field of the inferred schema: a cleaned column name and its type.
#[derive(Debug)]
pub struct SchemaField {
    pub name: String,
    pub vtype: ValueType,
}

/// Model of one schema field.
#[verifier::ext_equal]
pub struct SchemaFieldModel {
    pub name: Seq<char>,
    pub vtype: ValueType,
}

impl View for SchemaField {
    type V = SchemaFieldModel;

    open spec fn view(&self) -> SchemaFieldModel {
        SchemaFieldModel { name: self.name@, vtype: self.vtype }
    }
}

/// The models of a sequence of schema fields.
pub open spec fn sfields_of(v: Seq<SchemaField>) -> Seq<SchemaFieldModel> {
    v.map_values(|f: SchemaField| f@)
}

/// The schema denoted by a header's columns: names trimmed, types inferred
/// from units.
pub open spec fn schema_spec(cols: Seq<GarminColumnModel>) -> Seq<SchemaFieldModel> {
    cols.map_values(
        |c: GarminColumnModel| SchemaFieldModel {
            name: trim_spec(c.name),
            vtype: unit_type_spec(c.unit),
        },
    )
}

impl GarminEISLogHeader {
    /// The typed schema inferred from this header's columns.
    pub fn build_schema(&self) -> (r: Vec<SchemaField>)
        ensures
            sfields_of(r@) == schema_spec(gcols_of(self.columns@)),
    {
        let n = self.columns.len();
        let mut out: Vec<SchemaField> = Vec::new();
        let mut i: usize = 0;
        let ghost target = schema_spec(gcols_of(self.columns@));
        proof {
            assert(target.len() == n);
            assert(sfields_of(out@) =~~= target.subrange(0, 0));
        }
        while i < n
            invariant
                n == self.columns.len(),
                0 <= i <= n,
                target == schema_spec(gcols_of(self.columns@)),
                target.len() == n,
                sfields_of(out@) == target.subrange(0, i as int),
            decreases n - i,
        {
            let name = crate::text::trim_str(self.columns[i].name.as_str()).to_owned();
            let vtype = unit_value_type(self.columns[i].unit.as_str());
            let ghost oldg = sfields_of(out@);
            proof {
                assert(oldg.len() == out@.len());
                assert(gcols_of(self.columns@)[i as int] == self.columns@[i as int]@);
            }
            out.push(SchemaField { name, vtype });
            proof {
                assert(sfields_of(out@) =~~= oldg.push(target[i as int]));
                assert(sfields_of(out@) =~~= target.subrange(0, i + 1));
            }
            i += 1;
        }
        proof {
            assert(target.subrange(0, n as int) =~= target);
        }
        out
    }
}


/// The data lines of a source file: everything after the three header
/// lines, blank lines skipped.
pub open spec fn data_lines(s: Seq<char>) -> Seq<Seq<char>> {
    nonempty_lines(file_lines(s).skip(3))
}

/// The lines of `ls` that are not empty, in order.
pub open spec fn nonempty_lines(ls: Seq<Seq<char>>) -> Seq<Seq<char>>
    decreases ls.len(),
{
    if ls.len() == 0 {
        Seq::empty()
    } else if ls[0].len() > 0 {
        seq![ls[0]] + nonempty_lines(ls.drop_first())
    } else {
        nonempty_lines(ls.drop_first())
    }
}

/// The cell denoted by one comma-separated field: empty text is null.
pub open spec fn cell_of(f: Seq<char>) -> Option<Seq<char>> {
    if f.len() == 0 {
        None
    } else {
        Some(f)
    }
}

/// Whether every data row has exactly `w` comma-separated fields.
pub open spec fn rows_ok(rows: Seq<Seq<char>>, w: nat) -> bool {
    forall|r: int| 0 <= r < rows.len() ==> #[trigger] split_spec(rows[r], ',').len() == w
}

/// The table denoted by a schema and the data rows: one column per schema
/// field, cells taken positionally from each row's fields.
pub open spec fn loaded_table_spec(sf: Seq<SchemaFieldModel>, rows: Seq<Seq<char>>) -> TableModel {
    TableModel {
        cols: Seq::new(
            sf.len(),
            |i: int| ColumnModel {
                name: sf[i].name,
                vtype: sf[i].vtype,
                cells: Seq::new(rows.len(), |r: int| cell_of(split_spec(rows[r], ',')[i])),
            },
        ),
    }
}

/// Parses the data rows against the schema positionally. Fails exactly when
/// some row's field count differs from the schema's width.
pub fn load_rows(schema: &Vec<SchemaField>, rows: &Vec<String>) -> (r: Result<
    Table,
    GarminLogFileParseError,
>)
    ensures
        r is Ok <==> rows_ok(rows.deep_view(), schema@.len() as nat),
        r matches Ok(t) ==> t@ == loaded_table_spec(sfields_of(schema@), rows.deep_view())
            && t@.wf(),
        r matches Err(e) ==> e is RowWidthMismatch,
{
    let w = schema.len();
    let nrows = rows.len();
    let ghost rdv = rows.deep_view();
    let mut fieldss: Vec<Vec<String>> = Vec::new();
    let mut r: usize = 0;
    while r < nrows
        invariant
            w == schema@.len(),
            nrows == rows.len(),
            rdv == rows.deep_view(),
            0 <= r <= nrows,
            fieldss.len() == r,
            forall|k: int|
                0 <= k < r ==> #[trigger] fieldss.deep_view()[k] == split_spec(rdv[k], ',')
                    && fieldss.deep_view()[k].len() == w,
        decreases nrows - r,
    {
        let fields = crate::text::split_str(rows[r].as_str(), ',');
        proof {
            assert(rows[r as int]@ == rdv[r as int]);
        }
        if fields.len() != w {
            proof {
                assert(split_spec(rdv[r as int], ',').len() != w);
            }
            return Err(GarminLogFileParseError::RowWidthMismatch);
        }
        let ghost oldf = fieldss.deep_view();
        fieldss.push(fields);
        proof {
            assert(fieldss.deep_view() =~~= oldf.push(split_spec(rdv[r as int], ',')));
        }
        r += 1;
    }
    let ghost target = loaded_table_spec(sfields_of(schema@), rdv);
    let mut columns: Vec<Column> = Vec::new();
    let mut i: usize = 0;
    proof {
        assert(cols_of(columns@) =~~= target.cols.subrange(0, 0));
    }
    while i < w
        invariant
            w == schema@.len(),
            nrows == rows.len(),
            rdv == rows.deep_view(),
            0 <= i <= w,
            fieldss.len() == nrows,
            forall|k: int|
                0 <= k < nrows ==> #[trigger] fieldss.deep_view()[k] == split_spec(rdv[k], ',')
                    && fieldss.deep_view()[k].len() == w,
            target == loaded_table_spec(sfields_of(schema@), rdv),
            target.cols.len() == w,
            cols_of(columns@) == target.cols.subrange(0, i as int),
        decreases w - i,
    {
        let mut cells: Vec<Option<String>> = Vec::new();
        let ghost tcells = target.cols[i as int].cells;
        let mut rr: usize = 0;
        proof {
            assert(tcells.len() == nrows);
            assert(cells.deep_view() =~~= tcells.subrange(0, 0));
        }
        while rr < nrows
            invariant
                w == schema@.len(),
                nrows == rows.len(),
                rdv == rows.deep_view(),
                0 <= i < w,
                0 <= rr <= nrows,
                fieldss.len() == nrows,
                forall|k: int|
                    0 <= k < nrows ==> #[trigger] fieldss.deep_view()[k] == split_spec(rdv[k], ',')
                        && fieldss.deep_view()[k].len() == w,
                tcells == loaded_table_spec(sfields_of(schema@), rdv).cols[i as int].cells,
                tcells.len() == nrows,
                cells.deep_view() == tcells.subrange(0, rr as int),
            decreases nrows - rr,
        {
            proof {
                assert(fieldss.deep_view()[rr as int] == fieldss@[rr as int].deep_view());
                assert(fieldss@[rr as int].deep_view().len() == fieldss@[rr as int]@.len());
                assert(fieldss@[rr as int]@.len() == w);
            }
            let f = &fieldss[rr][i];
            proof {
                assert(fieldss@[rr as int].deep_view()[i as int] == fieldss@[rr as int]@[
                    i as int
                ].deep_view());
                assert(f@ == fieldss.deep_view()[rr as int][i as int]);
            }
            let cell: Option<String> = if f.as_str().unicode_len() == 0 {
                None
            } else {
                Some(crate::table::clone_string(f))
            };
            let ghost oldc = cells.deep_view();
            proof {
                assert(oldc.len() == cells@.len());
                assert(cell.deep_view() == tcells[rr as int]);
            }
            cells.push(cell);
            proof {
                assert(cells.deep_view() =~~= oldc.push(tcells[rr as int]));
                assert(cells.deep_view() =~~= tcells.subrange(0, rr + 1));
            }
            rr += 1;
        }
        let name = crate::table::clone_string(&schema[i].name);
        let vtype = schema[i].vtype;
        let ghost oldcols = cols_of(columns@);
        proof {
            assert(oldcols.len() == columns@.len());
            assert(cells.deep_view() =~~= tcells);
            assert(sfields_of(schema@)[i as int] == schema@[i as int]@);
        }
        columns.push(Column { name, vtype, cells });
        proof {
            assert(cols_of(columns@) =~~= oldcols.push(target.cols[i as int]));
            assert(cols_of(columns@) =~~= target.cols.subrange(0, i + 1));
        }
        i += 1;
    }
    proof {
        assert(target.cols.subrange(0, w as int) =~= target.cols);
    }
    let t = Table { columns };
    proof {
        assert(t@ =~~= target);
        assert forall|k: int| 0 <= k < t@.cols.len() implies #[trigger] t@.cols[k].cells.len()
            == t@.height() by {
            assert(t@.cols[k].cells.len() == nrows);
        }
        assert forall|k: int| 0 <= k < nrows implies #[trigger] split_spec(rdv[k], ',').len()
            == w by {
            assert(fieldss.deep_view()[k] == split_spec(rdv[k], ','));
        }
    }
    Ok(t)
}


/// The table with every column name trimmed of surrounding whitespace.
pub open spec fn strip_names_spec(t: TableModel) -> TableModel {
    TableModel {
        cols: Seq::new(
            t.cols.len(),
            |i: int| ColumnModel {
                name: trim_spec(t.cols[i].name),
                vtype: t.cols[i].vtype,
                cells: t.cols[i].cells,
            },
        ),
    }
}

/// Trims the name of every column.
pub fn strip_column_names(t: Table) -> (r: Table)
    ensures
        r@ == strip_names_spec(t@),
        t@.wf() ==> r@.wf(),
{
    let ghost target = strip_names_spec(t@);
    let n = t.columns.len();
    let mut columns: Vec<Column> = Vec::new();
    let mut i: usize = 0;
    proof {
        assert(target.cols.len() == n);
        assert(cols_of(columns@) =~~= target.cols.subrange(0, 0));
    }
    while i < n
        invariant
            n == t.columns.len(),
            0 <= i <= n,
            target == strip_names_spec(t@),
            target.cols.len() == n,
            cols_of(columns@) == target.cols.subrange(0, i as int),
        decreases n - i,
    {
        let c = &t.columns[i];
        let name = crate::text::trim_str(c.name.as_str()).to_owned();
        let copy = crate::table::duplicate_column(c);
        let ghost oldg = cols_of(columns@);
        proof {
            assert(oldg.len() == columns@.len());
            assert(c@ == t@.cols[i as int]);
        }
        columns.push(Column { name, vtype: copy.vtype, cells: copy.cells });
        proof {
            assert(cols_of(columns@) =~~= oldg.push(target.cols[i as int]));
            assert(cols_of(columns@) =~~= target.cols.subrange(0, i + 1));
        }
        i += 1;
    }
    proof {
        assert(target.cols.subrange(0, n as int) =~= target.cols);
    }
    let out = Table { columns };
    proof {
        assert(out@ =~~= target);
        if t@.wf() {
            assert forall|k: int| 0 <= k < out@.cols.len() implies #[trigger] out@.cols[
                k
            ].cells.len() == out@.height() by {
                assert(out@.cols[k].cells == t@.cols[k].cells);
                assert(t@.cols[k].cells.len() == t@.height());
                if out@.cols.len() > 0 {
                    assert(out@.cols[0].cells == t@.cols[0].cells);
                }
            }
        }
    }
    out
}

/// A cell with its text trimmed of surrounding whitespace; null stays null.
pub open spec fn trim_cell(c: Option<Seq<char>>) -> Option<Seq<char>> {
    match c {
        Option::Some(s) => Some(trim_spec(s)),
        Option::None => None,
    }
}

/// The table with every non-null value of every `Text` column trimmed of
/// surrounding whitespace; columns of other types are untouched.
pub open spec fn clean_strings_spec(t: TableModel) -> TableModel {
    TableModel {
        cols: Seq::new(
            t.cols.len(),
            |i: int| ColumnModel {
                name: t.cols[i].name,
                vtype: t.cols[i].vtype,
                cells: if t.cols[i].vtype is Text {
                    t.cols[i].cells.map_values(|c: Option<Seq<char>>| trim_cell(c))
                } else {
                    t.cols[i].cells
                },
            },
        ),
    }
}

/// Trims the values of every `Text` column.
pub fn clean_strings(t: Table) -> (r: Table)
    ensures
        r@ == clean_strings_spec(t@),
        t@.wf() ==> r@.wf(),
{
    let ghost target = clean_strings_spec(t@);
    let n = t.columns.len();
    let mut columns: Vec<Column> = Vec::new();
    let mut i: usize = 0;
    proof {
        assert(target.cols.len() == n);
        assert(cols_of(columns@) =~~= target.cols.subrange(0, 0));
    }
    while i < n
        invariant
            n == t.columns.len(),
            0 <= i <= n,
            target == clean_strings_spec(t@),
            target.cols.len() == n,
            cols_of(columns@) == target.cols.subrange(0, i as int),
        decreases n - i,
    {
        let c = &t.columns[i];
        proof {
            assert(c@ == t@.cols[i as int]);
        }
        let col: Column = if matches!(c.vtype, ValueType::Text) {
            let m = c.cells.len();
            let mut cells: Vec<Option<String>> = Vec::new();
            let ghost tcells = target.cols[i as int].cells;
            let mut rr: usize = 0;
            proof {
                assert(tcells.len() == m);
                assert(cells.deep_view() =~~= tcells.subrange(0, 0));
            }
            while rr < m
                invariant
                    m == c.cells.len(),
                    0 <= rr <= m,
                    c@ == t@.cols[i as int],
                    0 <= i < n,
                    target == clean_strings_spec(t@),
                    target.cols.len() == n,
                    tcells == target.cols[i as int].cells,
                    tcells.len() == m,
                    tcells == c@.cells.map_values(|cc: Option<Seq<char>>| trim_cell(cc)),
                    cells.deep_view() == tcells.subrange(0, rr as int),
                decreases m - rr,
            {
                let cell: Option<String> = match &c.cells[rr] {
                    Option::Some(s) => Some(crate::text::trim_str(s.as_str()).to_owned()),
                    Option::None => None,
                };
                let ghost oldc = cells.deep_view();
                proof {
                    assert(oldc.len() == cells@.len());
                    assert(c.cells.deep_view()[rr as int] == c.cells@[rr as int].deep_view());
                    assert(cell.deep_view() == trim_cell(c@.cells[rr as int]));
                    assert(cell.deep_view() == tcells[rr as int]);
                }
                cells.push(cell);
                proof {
                    assert(cells.deep_view() =~~= oldc.push(tcells[rr as int]));
                    assert(cells.deep_view() =~~= tcells.subrange(0, rr + 1));
                }
                rr += 1;
            }
            proof {
                assert(cells.deep_view() =~~= tcells);
            }
            Column { name: crate::table::clone_string(&c.name), vtype: c.vtype, cells }
        } else {
            crate::table::duplicate_column(c)
        };
        let ghost oldg = cols_of(columns@);
        proof {
            assert(oldg.len() == columns@.len());
            assert(col@ =~~= target.cols[i as int]);
        }
        columns.push(col);
        proof {
            assert(cols_of(columns@) =~~= oldg.push(target.cols[i as int]));
            assert(cols_of(columns@) =~~= target.cols.subrange(0, i + 1));
        }
        i += 1;
    }
    proof {
        assert(target.cols.subrange(0, n as int) =~= target.cols);
    }
    let out = Table { columns };
    proof {
        assert(out@ =~~= target);
        if t@.wf() {
            assert forall|k: int| 0 <= k < out@.cols.len() implies #[trigger] out@.cols[
                k
            ].cells.len() == out@.height() by {
                assert(t@.cols[k].cells.len() == t@.height());
                if out@.cols.len() > 0 {
                    assert(t@.cols[0].cells.len() == t@.height());
                }
            }
        }
    }
    out
}

/// The rows to keep when dropping fully empty rows: a row stays as soon as
/// any single column holds a non-null value there.
pub open spec fn keep_mask(t: TableModel) -> Seq<bool> {
    Seq::new(t.height(), |r: int| !t.row_empty(r))
}

/// The table with every fully null row removed.
pub open spec fn remove_empty_spec(t: TableModel) -> TableModel {
    TableModel {
        cols: Seq::new(
            t.cols.len(),
            |i: int| ColumnModel {
                name: t.cols[i].name,
                vtype: t.cols[i].vtype,
                cells: mask_filter(t.cols[i].cells, keep_mask(t)),
            },
        ),
    }
}

/// Whether every cell of row `r` is null, decided by scanning the columns.
fn row_all_null(t: &Table, r: usize) -> (res: bool)
    requires
        t@.wf(),
        r < t@.height(),
    ensures
        res == t@.row_empty(r as int),
{
    let n = t.columns.len();
    let mut i: usize = 0;
    while i < n
        invariant
            n == t.columns.len(),
            t@.wf(),
            r < t@.height(),
            0 <= i <= n,
            forall|k: int| 0 <= k < i ==> #[trigger] t@.cols[k].cells[r as int] is None,
        decreases n - i,
    {
        proof {
            assert(t@.cols[i as int].cells.len() == t@.height());
            assert(t.columns@[i as int]@ == t@.cols[i as int]);
        }
        if t.columns[i].cells[r].is_some() {
            proof {
                assert(t.columns[i as int].cells.deep_view()[r as int] == t.columns[
                    i as int
                ].cells@[r as int].deep_view());
                assert(t@.cols[i as int].cells[r as int] is Some);
            }
            return false;
        }
        proof {
            assert(t.columns[i as int].cells.deep_view()[r as int] == t.columns[
                i as int
            ].cells@[r as int].deep_view());
        }
        i += 1;
    }
    true
}

/// Drops every row whose cells are all null; a row with at least one
/// non-null value anywhere is retained.
pub fn remove_empty_rows(t: Table) -> (r: Table)
    requires
        t@.wf(),
    ensures
        r@ == remove_empty_spec(t@),
        r@.wf(),
{
    let ghost target = remove_empty_spec(t@);
    let h = t.height();
    let mut mask: Vec<bool> = Vec::new();
    let mut rr: usize = 0;
    proof {
        assert(mask@ =~= keep_mask(t@).subrange(0, 0));
    }
    while rr < h
        invariant
            t@.wf(),
            h == t@.height(),
            0 <= rr <= h,
            mask@ == keep_mask(t@).subrange(0, rr as int),
        decreases h - rr,
    {
        let keep = !row_all_null(&t, rr);
        let ghost oldm = mask@;
        mask.push(keep);
        proof {
            assert(mask@ =~= oldm.push(keep_mask(t@)[rr as int]));
            assert(mask@ =~= keep_mask(t@).subrange(0, rr + 1));
        }
        rr += 1;
    }
    proof {
        assert(mask@ =~= keep_mask(t@));
    }
    let n = t.columns.len();
    let mut columns: Vec<Column> = Vec::new();
    let mut i: usize = 0;
    proof {
        assert(target.cols.len() == n);
        assert(cols_of(columns@) =~~= target.cols.subrange(0, 0));
    }
    while i < n
        invariant
            t@.wf(),
            h == t@.height(),
            n == t.columns.len(),
            0 <= i <= n,
            mask@ == keep_mask(t@),
            mask.len() == h,
            target == remove_empty_spec(t@),
            target.cols.len() == n,
            cols_of(columns@) == target.cols.subrange(0, i as int),
        decreases n - i,
    {
        let c = &t.columns[i];
        proof {
            assert(c@ == t@.cols[i as int]);
            assert(t@.cols[i as int].cells.len() == t@.height());
            assert(c.cells.deep_view().len() == c.cells@.len());
        }
        let cells = crate::table::filter_cells(&c.cells, &mask);
        let ghost oldg = cols_of(columns@);
        let col = Column { name: crate::table::clone_string(&c.name), vtype: c.vtype, cells };
        proof {
            assert(oldg.len() == columns@.len());
            assert(col@ =~~= target.cols[i as int]);
        }
        columns.push(col);
        proof {
            assert(cols_of(columns@) =~~= oldg.push(target.cols[i as int]));
            assert(cols_of(columns@) =~~= target.cols.subrange(0, i + 1));
        }
        i += 1;
    }
    proof {
        assert(target.cols.subrange(0, n as int) =~= target.cols);
    }
    let out = Table { columns };
    proof {
        assert(out@ =~~= target);
        assert forall|k: int| 0 <= k < out@.cols.len() implies #[trigger] out@.cols[k].cells.len()
            == out@.height() by {
            crate::table::lemma_mask_filter_len(t@.cols[k].cells, keep_mask(t@));
            if out@.cols.len() > 0 {
                crate::table::lemma_mask_filter_len(t@.cols[0].cells, keep_mask(t@));
            }
        }
    }
    out
}


/// The seven mandatory column names, in their fixed leading order.
pub open spec fn required_names() -> Seq<Seq<char>> {
    seq!["timestamp"@, "Longitude"@, "Latitude"@, "AltB"@, "HDG"@, "Pitch"@, "Roll"@]
}

/// Whether `n` is one of the seven mandatory column names.
pub open spec fn is_required_name(n: Seq<char>) -> bool {
    required_names().contains(n)
}

/// Whether each mandatory column occurs in `cols`.
pub open spec fn all_required_present(cols: Seq<ColumnModel>) -> bool {
    forall|k: int| 0 <= k < 7 ==> col_index(cols, #[trigger] required_names()[k]) >= 0
}

/// The mask keeping the columns that are not mandatory.
pub open spec fn extras_mask(cols: Seq<ColumnModel>) -> Seq<bool> {
    Seq::new(cols.len(), |i: int| !is_required_name(cols[i].name))
}

/// The columns in canonical order: the seven mandatory columns first, in
/// their fixed order, then the remaining columns in their original order.
pub open spec fn reorder_spec(cols: Seq<ColumnModel>) -> Seq<ColumnModel> {
    Seq::new(7, |k: int| cols[col_index(cols, required_names()[k])]) + mask_filter(
        cols,
        extras_mask(cols),
    )
}

/// Whether `name` is one of the seven mandatory column names.
fn is_required_col(name: &str) -> (r: bool)
    ensures
        r == is_required_name(name@),
{
    if crate::text::str_eq(name, "timestamp") {
        proof {
            assert(required_names()[0] == name@);
        }
        true
    } else if crate::text::str_eq(name, "Longitude") {
        proof {
            assert(required_names()[1] == name@);
        }
        true
    } else if crate::text::str_eq(name, "Latitude") {
        proof {
            assert(required_names()[2] == name@);
        }
        true
    } else if crate::text::str_eq(name, "AltB") {
        proof {
            assert(required_names()[3] == name@);
        }
        true
    } else if crate::text::str_eq(name, "HDG") {
        proof {
            assert(required_names()[4] == name@);
        }
        true
    } else if crate::text::str_eq(name, "Pitch") {
        proof {
            assert(required_names()[5] == name@);
        }
        true
    } else if crate::text::str_eq(name, "Roll") {
        proof {
            assert(required_names()[6] == name@);
        }
        true
    } else {
        proof {
            assert forall|k: int| 0 <= k < required_names().len() implies required_names()[k]
                != name@ by {
                if k == 0 {
                    assert(required_names()[0] == "timestamp"@);
                } else if k == 1 {
                    assert(required_names()[1] == "Longitude"@);
                } else if k == 2 {
                    assert(required_names()[2] == "Latitude"@);
                } else if k == 3 {
                    assert(required_names()[3] == "AltB"@);
                } else if k == 4 {
                    assert(required_names()[4] == "HDG"@);
                } else if k == 5 {
                    assert(required_names()[5] == "Pitch"@);
                } else {
                    assert(required_names()[6] == "Roll"@);
                }
            }
        }
        false
    }
}

/// Moves the seven mandatory columns to the front in their fixed order,
/// keeping all remaining columns behind them in their original order. Fails
/// exactly when a mandatory column is absent.
pub fn reorder_mandatory(t: Table) -> (r: Result<Table, GarminLogFileParseError>)
    requires
        t@.wf(),
    ensures
        r is Ok <==> all_required_present(t@.cols),
        r matches Ok(t2) ==> t2@.cols == reorder_spec(t@.cols) && t2@.wf() && (forall|k: int|
            0 <= k < 7 ==> (#[trigger] t2@.cols[k]).name == required_names()[k]),
        r matches Err(e) ==> (e matches GarminLogFileParseError::UnknownColumn(nm)
            && is_required_name(nm@) && col_index(t@.cols, nm@) == -1),
{
    let i0 = match t.find_column("timestamp") {
        Option::Some(i) => i,
        Option::None => {
            proof {
                assert(required_names()[0] == "timestamp"@);
            }
            return Err(GarminLogFileParseError::UnknownColumn(String::from_str("timestamp")));
        },
    };
    let i1 = match t.find_column("Longitude") {
        Option::Some(i) => i,
        Option::None => {
            proof {
                assert(required_names()[1] == "Longitude"@);
            }
            return Err(GarminLogFileParseError::UnknownColumn(String::from_str("Longitude")));
        },
    };
    let i2 = match t.find_column("Latitude") {
        Option::Some(i) => i,
        Option::None => {
            proof {
                assert(required_names()[2] == "Latitude"@);
            }
            return Err(GarminLogFileParseError::UnknownColumn(String::from_str("Latitude")));
        },
    };
    let i3 = match t.find_column("AltB") {
        Option::Some(i) => i,
        Option::None => {
            proof {
                assert(required_names()[3] == "AltB"@);
            }
            return Err(GarminLogFileParseError::UnknownColumn(String::from_str("AltB")));
        },
    };
    let i4 = match t.find_column("HDG") {
        Option::Some(i) => i,
        Option::None => {
            proof {
                assert(required_names()[4] == "HDG"@);
            }
            return Err(GarminLogFileParseError::UnknownColumn(String::from_str("HDG")));
        },
    };
    let i5 = match t.find_column("Pitch") {
        Option::Some(i) => i,
        Option::None => {
            proof {
                assert(required_names()[5] == "Pitch"@);
            }
            return Err(GarminLogFileParseError::UnknownColumn(String::from_str("Pitch")));
        },
    };
    let i6 = match t.find_column("Roll") {
        Option::Some(i) => i,
        Option::None => {
            proof {
                assert(required_names()[6] == "Roll"@);
            }
            return Err(GarminLogFileParseError::UnknownColumn(String::from_str("Roll")));
        },
    };
    proof {
        assert(required_names()[0] == "timestamp"@);
        assert(required_names()[1] == "Longitude"@);
        assert(required_names()[2] == "Latitude"@);
        assert(required_names()[3] == "AltB"@);
        assert(required_names()[4] == "HDG"@);
        assert(required_names()[5] == "Pitch"@);
        assert(required_names()[6] == "Roll"@);
        assert forall|k: int| 0 <= k < 7 implies col_index(t@.cols, #[trigger] required_names()[k])
            >= 0 by {
            if k == 0 {
            } else if k == 1 {
            } else if k == 2 {
            } else if k == 3 {
            } else if k == 4 {
            } else if k == 5 {
            } else {
            }
        }
    }
    let ghost first7 = Seq::new(7, |k: int| t@.cols[col_index(t@.cols, required_names()[k])]);
    let mut columns: Vec<Column> = Vec::new();
    columns.push(crate::table::duplicate_column(&t.columns[i0]));
    columns.push(crate::table::duplicate_column(&t.columns[i1]));
    columns.push(crate::table::duplicate_column(&t.columns[i2]));
    columns.push(crate::table::duplicate_column(&t.columns[i3]));
    columns.push(crate::table::duplicate_column(&t.columns[i4]));
    columns.push(crate::table::duplicate_column(&t.columns[i5]));
    columns.push(crate::table::duplicate_column(&t.columns[i6]));
    proof {
        assert(cols_of(columns@) =~~= first7);
    }
    let n = t.columns.len();
    let mut i: usize = 0;
    let ghost emask = extras_mask(t@.cols);
    proof {
        assert(t@.cols.subrange(0, 0) =~= Seq::<ColumnModel>::empty());
        assert(emask.subrange(0, 0) =~= Seq::<bool>::empty());
        assert(cols_of(columns@) =~~= first7 + mask_filter(
            t@.cols.subrange(0, 0),
            emask.subrange(0, 0),
        ));
    }
    while i < n
        invariant
            t@.wf(),
            n == t.columns.len(),
            0 <= i <= n,
            first7 == Seq::new(7, |k: int| t@.cols[col_index(t@.cols, required_names()[k])]),
            emask == extras_mask(t@.cols),
            emask.len() == n,
            cols_of(columns@) == first7 + mask_filter(
                t@.cols.subrange(0, i as int),
                emask.subrange(0, i as int),
            ),
        decreases n - i,
    {
        let c = &t.columns[i];
        proof {
            assert(c@ == t@.cols[i as int]);
        }
        let req = is_required_col(c.name.as_str());
        let ghost oldg = cols_of(columns@);
        let ghost pre_cols = t@.cols.subrange(0, i as int);
        let ghost pre_mask = emask.subrange(0, i as int);
        if !req {
            let copy = crate::table::duplicate_column(c);
            proof {
                assert(oldg.len() == columns@.len());
            }
            columns.push(copy);
            proof {
                assert(cols_of(columns@) =~~= oldg.push(t@.cols[i as int]));
            }
        }
        proof {
            let cur = t@.cols[i as int];
            crate::table::lemma_mask_filter_concat(pre_cols, seq![cur], pre_mask, seq![emask[
                i as int
            ]]);
            assert(pre_cols + seq![cur] =~= t@.cols.subrange(0, i + 1));
            assert(pre_mask + seq![emask[i as int]] =~= emask.subrange(0, i + 1));
            assert(seq![cur].drop_first() =~= Seq::<ColumnModel>::empty());
            assert(seq![emask[i as int]].drop_first() =~= Seq::<bool>::empty());
            if emask[i as int] {
                assert(mask_filter(seq![cur], seq![emask[i as int]]) == seq![cur] + mask_filter(
                    seq![cur].drop_first(),
                    seq![emask[i as int]].drop_first(),
                ));
                assert(mask_filter(seq![cur], seq![emask[i as int]]) =~= seq![cur]);
                assert(cols_of(columns@) =~~= first7 + mask_filter(
                    t@.cols.subrange(0, i + 1),
                    emask.subrange(0, i + 1),
                ));
            } else {
                assert(mask_filter(seq![cur], seq![emask[i as int]]) == mask_filter(
                    seq![cur].drop_first(),
                    seq![emask[i as int]].drop_first(),
                ));
                assert(mask_filter(seq![cur], seq![emask[i as int]])
                    =~= Seq::<ColumnModel>::empty());
                assert(cols_of(columns@) =~~= first7 + mask_filter(
                    t@.cols.subrange(0, i + 1),
                    emask.subrange(0, i + 1),
                ));
            }
        }
        i += 1;
    }
    proof {
        assert(t@.cols.subrange(0, n as int) =~= t@.cols);
        assert(emask.subrange(0, n as int) =~= emask);
    }
    let out = Table { columns };
    proof {
        assert(out@.cols =~~= reorder_spec(t@.cols));
        assert forall|k: int| 0 <= k < 7 implies (#[trigger] out@.cols[k]).name
            == required_names()[k] by {
            crate::table::lemma_col_index_props(t@.cols, required_names()[k]);
            assert(out@.cols[k] == first7[k]);
        }
        assert forall|k: int| 0 <= k < out@.cols.len() implies #[trigger] out@.cols[k].cells.len()
            == out@.height() by {
            assert(out@.cols[0] == first7[0]);
            crate::table::lemma_col_index_props(t@.cols, required_names()[0]);
            assert(out@.cols[0].cells.len() == t@.height());
            if k < 7 {
                crate::table::lemma_col_index_props(t@.cols, required_names()[k]);
            } else {
                let extras = mask_filter(t@.cols, emask);
                assert(out@.cols[k] == extras[k - 7]);
                crate::table::lemma_mask_filter_index(t@.cols, emask, k - 7);
            }
        }
    }
    Ok(out)
}

/// The table after the full cleaning sequence: names trimmed, text values
/// trimmed, fully null rows dropped.
pub open spec fn cleaned_spec(t: TableModel) -> TableModel {
    remove_empty_spec(clean_strings_spec(strip_names_spec(t)))
}

/// Applies the four cleaning transforms in their fixed order: trim column
/// names, trim text values, drop fully null rows, then move the mandatory
/// columns to the front. Fails exactly when a mandatory column is absent
/// after cleaning.
pub fn clean_dataframe(t: Table) -> (r: Result<Table, GarminLogFileParseError>)
    requires
        t@.wf(),
    ensures
        r is Ok <==> all_required_present(cleaned_spec(t@).cols),
        r matches Ok(t2) ==> t2@.cols == reorder_spec(cleaned_spec(t@).cols) && t2@.wf() && (
        forall|k: int| 0 <= k < 7 ==> (#[trigger] t2@.cols[k]).name == required_names()[k]),
        r matches Err(e) ==> (e matches GarminLogFileParseError::UnknownColumn(nm)
            && is_required_name(nm@) && col_index(cleaned_spec(t@).cols, nm@) == -1),
{
    let t1 = strip_column_names(t);
    let t2 = clean_strings(t1);
    let t3 = remove_empty_rows(t2);
    reorder_mandatory(t3)
}


/// The instant denoted by a composite timestamp text in the fixed format
/// `YYYY-MM-DDTHH:MM:SS` followed by a UTC offset, in seconds since the Unix
/// epoch, or `None` where the text is no valid timestamp. The calendar
/// arithmetic behind this value is the outside library's.
pub uninterp spec fn chrono_epoch(s: Seq<char>) -> Option<i64>;

/// Relies on chrono's `DateTime::<FixedOffset>::parse_from_str` with the
/// fixed format `%Y-%m-%dT%H:%M:%S%z`, and on `DateTime::timestamp`: whether
/// the text is a valid timestamp of that shape, and which instant in seconds
/// since the Unix epoch it denotes, depend on the text alone.
#[verifier::external_body]
fn chrono_parse_timestamp(s: &str) -> (r: Option<i64>)
    ensures
        r == chrono_epoch(s@),
{
    match chrono::DateTime::parse_from_str(s, "%Y-%m-%dT%H:%M:%S%z") {
        Ok(dt) => Some(dt.timestamp()),
        Err(_) => None,
    }
}

/// The composite timestamp text of one row: trimmed date, a literal `T`,
/// trimmed time, trimmed UTC offset.
pub open spec fn composed_ts(d: Seq<char>, tm: Seq<char>, off: Seq<char>) -> Seq<char> {
    trim_spec(d) + seq!['T'] + trim_spec(tm) + trim_spec(off)
}

/// The composite timestamp input of one row, or `None` where any of the
/// three source cells is null.
pub open spec fn ts_input(
    d: Option<Seq<char>>,
    tm: Option<Seq<char>>,
    off: Option<Seq<char>>,
) -> Option<Seq<char>> {
    match (d, tm, off) {
        (Option::Some(a), Option::Some(b), Option::Some(c)) => Some(composed_ts(a, b, c)),
        _ => None,
    }
}

/// Whether one row's composite input, if present, is a valid timestamp.
pub open spec fn ts_row_valid(c: Option<Seq<char>>) -> bool {
    match c {
        Option::Some(s) => chrono_epoch(s) is Some,
        Option::None => true,
    }
}

/// The derived timestamp cell of one row: the decimal text of the instant's
/// seconds since the Unix epoch, or null where any source cell was null.
pub open spec fn ts_cell(c: Option<Seq<char>>) -> Option<Seq<char>> {
    match c {
        Option::Some(s) => match chrono_epoch(s) {
            Option::Some(e) => Some(crate::num::dec_int(e as int)),
            Option::None => None,
        },
        Option::None => None,
    }
}

/// The composite timestamp inputs of every row, built from the first
/// columns carrying the three given names.
pub open spec fn parse_datetime_inputs(
    t: TableModel,
    dn: Seq<char>,
    tn: Seq<char>,
    on: Seq<char>,
) -> Seq<Option<Seq<char>>> {
    let di = col_index(t.cols, dn);
    let ti = col_index(t.cols, tn);
    let oi = col_index(t.cols, on);
    Seq::new(
        t.height(),
        |r: int| ts_input(t.cols[di].cells[r], t.cols[ti].cells[r], t.cols[oi].cells[r]),
    )
}

/// The table after the timestamp merge: the three source columns dropped if
/// so asked, and one derived timestamp column appended.
pub open spec fn parse_datetime_spec(
    t: TableModel,
    dn: Seq<char>,
    tn: Seq<char>,
    on: Seq<char>,
    new_name: Seq<char>,
    drop_source: bool,
) -> TableModel {
    let di = col_index(t.cols, dn);
    let ti = col_index(t.cols, tn);
    let oi = col_index(t.cols, on);
    let kept = if drop_source {
        mask_filter(
            t.cols,
            Seq::new(t.cols.len(), |i: int| i != di && i != ti && i != oi),
        )
    } else {
        t.cols
    };
    let tscol = ColumnModel {
        name: new_name,
        vtype: ValueType::Timestamp,
        cells: parse_datetime_inputs(t, dn, tn, on).map_values(|c: Option<Seq<char>>| ts_cell(c)),
    };
    TableModel { cols: kept + seq![tscol] }
}

/// Merges the three designated source columns into one derived absolute
/// timestamp column. Fails with `UnknownColumn` where a source column is
/// absent, and with `TimestampParseFailure` where some row's composite
/// text is no valid timestamp.
pub fn parse_datetime(
    t: Table,
    date_col: &str,
    time_col: &str,
    offset_col: &str,
    new_timestamp_col: &str,
    drop_source_cols: bool,
) -> (r: Result<Table, GarminLogFileParseError>)
    requires
        t@.wf(),
    ensures
        r is Ok <==> (col_index(t@.cols, date_col@) >= 0 && col_index(t@.cols, time_col@) >= 0
            && col_index(t@.cols, offset_col@) >= 0 && (forall|rr: int|
            0 <= rr < t@.height() ==> ts_row_valid(
                #[trigger] parse_datetime_inputs(t@, date_col@, time_col@, offset_col@)[rr],
            ))),
        r matches Ok(t2) ==> t2@ == parse_datetime_spec(
            t@,
            date_col@,
            time_col@,
            offset_col@,
            new_timestamp_col@,
            drop_source_cols,
        ) && t2@.wf(),
        r matches Err(e) ==> match e {
            GarminLogFileParseError::UnknownColumn(nm) => (nm@ == date_col@ || nm@ == time_col@
                || nm@ == offset_col@) && col_index(t@.cols, nm@) == -1,
            GarminLogFileParseError::TimestampParseFailure => exists|rr: int|
                0 <= rr < t@.height() && !ts_row_valid(
                    #[trigger] parse_datetime_inputs(t@, date_col@, time_col@, offset_col@)[rr],
                ),
            _ => false,
        },
{
    let di = match t.find_column(date_col) {
        Option::Some(i) => i,
        Option::None => {
            return Err(GarminLogFileParseError::UnknownColumn(String::from_str(date_col)));
        },
    };
    let ti = match t.find_column(time_col) {
        Option::Some(i) => i,
        Option::None => {
            return Err(GarminLogFileParseError::UnknownColumn(String::from_str(time_col)));
        },
    };
    let oi = match t.find_column(offset_col) {
        Option::Some(i) => i,
        Option::None => {
            return Err(GarminLogFileParseError::UnknownColumn(String::from_str(offset_col)));
        },
    };
    let h = t.height();
    let ghost inputs = parse_datetime_inputs(t@, date_col@, time_col@, offset_col@);
    let ghost tcells = inputs.map_values(|c: Option<Seq<char>>| ts_cell(c));
    let mut cells: Vec<Option<String>> = Vec::new();
    let mut r: usize = 0;
    proof {
        assert(inputs.len() == h);
        assert(tcells.len() == h);
        assert(cells.deep_view() =~~= tcells.subrange(0, 0));
    }
    while r < h
        invariant
            t@.wf(),
            h == t@.height(),
            0 <= r <= h,
            di < t.columns.len(),
            ti < t.columns.len(),
            oi < t.columns.len(),
            di as int == col_index(t@.cols, date_col@),
            ti as int == col_index(t@.cols, time_col@),
            oi as int == col_index(t@.cols, offset_col@),
            inputs == parse_datetime_inputs(t@, date_col@, time_col@, offset_col@),
            tcells == inputs.map_values(|c: Option<Seq<char>>| ts_cell(c)),
            inputs.len() == h,
            tcells.len() == h,
            forall|k: int| 0 <= k < r ==> ts_row_valid(#[trigger] inputs[k]),
            cells.deep_view() == tcells.subrange(0, r as int),
        decreases h - r,
    {
        proof {
            assert(t.columns@[di as int]@ == t@.cols[di as int]);
            assert(t.columns@[ti as int]@ == t@.cols[ti as int]);
            assert(t.columns@[oi as int]@ == t@.cols[oi as int]);
            assert(t@.cols[di as int].cells.len() == h);
            assert(t@.cols[ti as int].cells.len() == h);
            assert(t@.cols[oi as int].cells.len() == h);
            assert(t.columns[di as int].cells.deep_view()[r as int] == t.columns[
                di as int
            ].cells@[r as int].deep_view());
            assert(t.columns[ti as int].cells.deep_view()[r as int] == t.columns[
                ti as int
            ].cells@[r as int].deep_view());
            assert(t.columns[oi as int].cells.deep_view()[r as int] == t.columns[
                oi as int
            ].cells@[r as int].deep_view());
        }
        let dcell = &t.columns[di].cells[r];
        let tmcell = &t.columns[ti].cells[r];
        let ocell = &t.columns[oi].cells[r];
        let cell: Option<String> = match (dcell, tmcell, ocell) {
            (Option::Some(d), Option::Some(tm), Option::Some(off)) => {
                let mut comp: String = crate::text::trim_str(d.as_str()).to_owned();
                crate::text::push_char(&mut comp, 'T');
                comp.append(crate::text::trim_str(tm.as_str()));
                comp.append(crate::text::trim_str(off.as_str()));
                proof {
                    assert(comp@ == composed_ts(d@, tm@, off@));
                    assert(inputs[r as int] == Some(comp@));
                }
                match chrono_parse_timestamp(comp.as_str()) {
                    Option::Some(e) => Some(crate::num::i64_to_dec(e)),
                    Option::None => {
                        proof {
                            assert(!ts_row_valid(inputs[r as int]));
                        }
                        return Err(GarminLogFileParseError::TimestampParseFailure);
                    },
                }
            },
            _ => {
                proof {
                    assert(inputs[r as int] is None);
                }
                None
            },
        };
        let ghost oldc = cells.deep_view();
        proof {
            assert(oldc.len() == cells@.len());
            assert(cell.deep_view() == ts_cell(inputs[r as int]));
            assert(cell.deep_view() == tcells[r as int]);
            assert(ts_row_valid(inputs[r as int]));
        }
        cells.push(cell);
        proof {
            assert(cells.deep_view() =~~= oldc.push(tcells[r as int]));
            assert(cells.deep_view() =~~= tcells.subrange(0, r + 1));
        }
        r += 1;
    }
    proof {
        assert(cells.deep_view() =~~= tcells);
    }
    let n = t.columns.len();
    let mut columns: Vec<Column> = Vec::new();
    let ghost dmask = Seq::new(
        t@.cols.len(),
        |i: int| i != di as int && i != ti as int && i != oi as int,
    );
    if drop_source_cols {
        let mut i: usize = 0;
        proof {
            assert(t@.cols.subrange(0, 0) =~= Seq::<ColumnModel>::empty());
            assert(dmask.subrange(0, 0) =~= Seq::<bool>::empty());
            assert(cols_of(columns@) =~~= mask_filter(
                t@.cols.subrange(0, 0),
                dmask.subrange(0, 0),
            ));
        }
        while i < n
            invariant
                t@.wf(),
                n == t.columns.len(),
                0 <= i <= n,
                dmask == Seq::new(
                    t@.cols.len(),
                    |ii: int| ii != di as int && ii != ti as int && ii != oi as int,
                ),
                dmask.len() == n,
                cols_of(columns@) == mask_filter(
                    t@.cols.subrange(0, i as int),
                    dmask.subrange(0, i as int),
                ),
            decreases n - i,
        {
            let c = &t.columns[i];
            proof {
                assert(c@ == t@.cols[i as int]);
            }
            let ghost oldg = cols_of(columns@);
            let ghost pre_cols = t@.cols.subrange(0, i as int);
            let ghost pre_mask = dmask.subrange(0, i as int);
            if i != di && i != ti && i != oi {
                let copy = crate::table::duplicate_column(c);
                proof {
                    assert(oldg.len() == columns@.len());
                }
                columns.push(copy);
                proof {
                    assert(cols_of(columns@) =~~= oldg.push(t@.cols[i as int]));
                }
            }
            proof {
                let cur = t@.cols[i as int];
                crate::table::lemma_mask_filter_concat(pre_cols, seq![cur], pre_mask, seq![dmask[
                    i as int
                ]]);
                assert(pre_cols + seq![cur] =~= t@.cols.subrange(0, i + 1));
                assert(pre_mask + seq![dmask[i as int]] =~= dmask.subrange(0, i + 1));
                assert(seq![cur].drop_first() =~= Seq::<ColumnModel>::empty());
                assert(seq![dmask[i as int]].drop_first() =~= Seq::<bool>::empty());
                if dmask[i as int] {
                    assert(mask_filter(seq![cur], seq![dmask[i as int]]) == seq![cur]
                        + mask_filter(
                        seq![cur].drop_first(),
                        seq![dmask[i as int]].drop_first(),
                    ));
                    assert(mask_filter(seq![cur], seq![dmask[i as int]]) =~= seq![cur]);
                } else {
                    assert(mask_filter(seq![cur], seq![dmask[i as int]]) == mask_filter(
                        seq![cur].drop_first(),
                        seq![dmask[i as int]].drop_first(),
                    ));
                    assert(mask_filter(seq![cur], seq![dmask[i as int]])
                        =~= Seq::<ColumnModel>::empty());
                }
                assert(cols_of(columns@) =~~= mask_filter(
                    t@.cols.subrange(0, i + 1),
                    dmask.subrange(0, i + 1),
                ));
            }
            i += 1;
        }
        proof {
            assert(t@.cols.subrange(0, n as int) =~= t@.cols);
            assert(dmask.subrange(0, n as int) =~= dmask);
        }
    } else {
        let mut i: usize = 0;
        proof {
            assert(cols_of(columns@) =~~= t@.cols.subrange(0, 0));
        }
        while i < n
            invariant
                n == t.columns.len(),
                0 <= i <= n,
                cols_of(columns@) == t@.cols.subrange(0, i as int),
            decreases n - i,
        {
            let c = crate::table::duplicate_column(&t.columns[i]);
            let ghost oldg = cols_of(columns@);
            proof {
                assert(oldg.len() == columns@.len());
                assert(c@ == t@.cols[i as int]);
            }
            columns.push(c);
            proof {
                assert(cols_of(columns@) =~~= oldg.push(t@.cols[i as int]));
                assert(cols_of(columns@) =~~= t@.cols.subrange(0, i + 1));
            }
            i += 1;
        }
        proof {
            assert(t@.cols.subrange(0, n as int) =~= t@.cols);
        }
    }
    let name = String::from_str(new_timestamp_col);
    let tscol = Column { name, vtype: ValueType::Timestamp, cells };
    let ghost oldg = cols_of(columns@);
    proof {
        assert(oldg.len() == columns@.len());
    }
    columns.push(tscol);
    let out = Table { columns };
    proof {
        let target = parse_datetime_spec(
            t@,
            date_col@,
            time_col@,
            offset_col@,
            new_timestamp_col@,
            drop_source_cols,
        );
        assert(cols_of(out.columns@) =~~= oldg.push(
            ColumnModel {
                name: new_timestamp_col@,
                vtype: ValueType::Timestamp,
                cells: tcells,
            },
        ));
        assert(out@.cols =~~= target.cols);
        assert(out@ =~~= target);
        assert forall|k: int| 0 <= k < out@.cols.len() implies #[trigger] out@.cols[k].cells.len()
            == out@.height() by {
            if k < oldg.len() {
                if drop_source_cols {
                    crate::table::lemma_mask_filter_index(t@.cols, dmask, k);
                } else {
                    assert(oldg[k] == t@.cols[k]);
                }
            }
            if oldg.len() > 0 {
                if drop_source_cols {
                    crate::table::lemma_mask_filter_index(t@.cols, dmask, 0);
                } else {
                    assert(oldg[0] == t@.cols[0]);
                }
            }
        }
    }
    Ok(out)
}


/// One entry of the static source-column-to-destination mapping table.
pub struct DrefMapEntry {
    pub key: String,
    pub dref: DataRef,
}

impl View for DrefMapEntry {
    type V = (Seq<char>, DataRefModel);

    open spec fn view(&self) -> (Seq<char>, DataRefModel) {
        (self.key@, self.dref@)
    }
}

/// The models of a sequence of mapping entries.
pub open spec fn dmap_of(v: Seq<DrefMapEntry>) -> Seq<(Seq<char>, DataRefModel)> {
    v.map_values(|e: DrefMapEntry| e@)
}

/// The static mapping from source column name to destination identifier and
/// scale factor, as data.
#[verifier::opaque]
pub open spec fn dref_map_entries() -> Seq<(Seq<char>, DataRefModel)> {
    seq![
        ("BaroA"@, DataRefModel { path: "sim/cockpit2/gauges/actuators/barometer_setting_in_hg_pilot"@, scale: "1"@ }),
        ("AltMSL"@, DataRefModel { path: "sim/cockpit2/gauges/indicators/altitude_ft_pilot"@, scale: "1"@ }),
        ("OAT"@, DataRefModel { path: "sim/cockpit2/temperature/outside_air_temp_degc"@, scale: "1"@ }),
        ("IAS"@, DataRefModel { path: "sim/cockpit2/gauges/indicators/airspeed_kts_pilot"@, scale: "1"@ }),
        ("GndSpd"@, DataRefModel { path: "sim/cockpit2/gauges/indicators/ground_speed_kt"@, scale: "1"@ }),
        ("TAS"@, DataRefModel { path: "sim/cockpit2/gauges/indicators/true_airspeed_kts_pilot"@, scale: "1"@ }),
        ("VSpd"@, DataRefModel { path: "sim/cockpit2/gauges/indicators/vvi_fpm_pilot"@, scale: "1"@ }),
        ("TRK"@, DataRefModel { path: "sim/cockpit2/gauges/indicators/ground_track_true_pilot"@, scale: "1"@ }),
        ("bus1volts"@, DataRefModel { path: "sim/cockpit2/electrical/bus_volts[0]"@, scale: "1"@ }),
        ("alt1amps"@, DataRefModel { path: "sim/cockpit2/electrical/generator_amps"@, scale: "1"@ }),
        ("FQtyLlbs"@, DataRefModel { path: "sim/flightmodel/weight/m_fuel[0]"@, scale: "0.45359237"@ }),
        ("FQtyRlbs"@, DataRefModel { path: "sim/flightmodel/weight/m_fuel[1]"@, scale: "0.45359237"@ }),
        ("FQtyL"@, DataRefModel { path: "sim/cockpit2/fuel/fuel_quantity[0]"@, scale: "2.73062384"@ }),
        ("FQtyR"@, DataRefModel { path: "sim/cockpit2/fuel/fuel_quantity[1]"@, scale: "2.73062384"@ }),
        ("E1 FFlow"@, DataRefModel { path: "sim/cockpit2/engine/indicators/fuel_flow_kg_sec[0]"@, scale: "1"@ }),
        ("E1 FPres"@, DataRefModel { path: "sim/cockpit2/engine/indicators/fuel_pressure_psi[0]"@, scale: "1"@ }),
        ("E1 OilT"@, DataRefModel { path: "sim/cockpit2/engine/indicators/oil_temperature_deg_C[0]"@, scale: "1"@ }),
        ("E1 OilP"@, DataRefModel { path: "sim/cockpit2/engine/indicators/oil_pressure_psi[0]"@, scale: "1"@ }),
        ("E1 RPM"@, DataRefModel { path: "sim/cockpit2/engine/indicators/engine_speed_rpm[0]"@, scale: "1"@ }),
        ("E1 %Pwr"@, DataRefModel { path: "sim/cockpit2/engine/indicators/N1_percent"@, scale: "1"@ }),
        ("E1 CHT1"@, DataRefModel { path: "sim/cockpit2/engine/indicators/CHT_CYL_deg_F[0]"@, scale: "1"@ }),
        ("E1 CHT2"@, DataRefModel { path: "sim/cockpit2/engine/indicators/CHT_CYL_deg_F[1]"@, scale: "1"@ }),
        ("E1 CHT3"@, DataRefModel { path: "sim/cockpit2/engine/indicators/CHT_CYL_deg_F[2]"@, scale: "1"@ }),
        ("E1 CHT4"@, DataRefModel { path: "sim/cockpit2/engine/indicators/CHT_CYL_deg_F[3]"@, scale: "1"@ }),
        ("E1 EGT1"@, DataRefModel { path: "sim/cockpit2/engine/indicators/EGT_CYL_deg_F[0]"@, scale: "1"@ }),
        ("E1 EGT2"@, DataRefModel { path: "sim/cockpit2/engine/indicators/EGT_CYL_deg_F[1]"@, scale: "1"@ }),
        ("E1 EGT3"@, DataRefModel { path: "sim/cockpit2/engine/indicators/EGT_CYL_deg_F[2]"@, scale: "1"@ }),
        ("E1 EGT4"@, DataRefModel { path: "sim/cockpit2/engine/indicators/EGT_CYL_deg_F[3]"@, scale: "1"@ }),
    ]
}

/// Builds the static mapping table. The scale factors record the unit
/// conversion the destination applies: pounds and gallons of fuel to
/// kilograms.
pub fn build_dref_map() -> (r: Vec<DrefMapEntry>)
    ensures
        dmap_of(r@) == dref_map_entries(),
{
    let mut m: Vec<DrefMapEntry> = Vec::new();
    m.push(DrefMapEntry { key: String::from_str("BaroA"), dref: DataRef::new(String::from_str("sim/cockpit2/gauges/actuators/barometer_setting_in_hg_pilot")) });
    m.push(DrefMapEntry { key: String::from_str("AltMSL"), dref: DataRef::new(String::from_str("sim/cockpit2/gauges/indicators/altitude_ft_pilot")) });
    m.push(DrefMapEntry { key: String::from_str("OAT"), dref: DataRef::new(String::from_str("sim/cockpit2/temperature/outside_air_temp_degc")) });
    m.push(DrefMapEntry { key: String::from_str("IAS"), dref: DataRef::new(String::from_str("sim/cockpit2/gauges/indicators/airspeed_kts_pilot")) });
    m.push(DrefMapEntry { key: String::from_str("GndSpd"), dref: DataRef::new(String::from_str("sim/cockpit2/gauges/indicators/ground_speed_kt")) });
    m.push(DrefMapEntry { key: String::from_str("TAS"), dref: DataRef::new(String::from_str("sim/cockpit2/gauges/indicators/true_airspeed_kts_pilot")) });
    m.push(DrefMapEntry { key: String::from_str("VSpd"), dref: DataRef::new(String::from_str("sim/cockpit2/gauges/indicators/vvi_fpm_pilot")) });
    m.push(DrefMapEntry { key: String::from_str("TRK"), dref: DataRef::new(String::from_str("sim/cockpit2/gauges/indicators/ground_track_true_pilot")) });
    m.push(DrefMapEntry { key: String::from_str("bus1volts"), dref: DataRef::new(String::from_str("sim/cockpit2/electrical/bus_volts[0]")) });
    m.push(DrefMapEntry { key: String::from_str("alt1amps"), dref: DataRef::new(String::from_str("sim/cockpit2/electrical/generator_amps")) });
    m.push(DrefMapEntry { key: String::from_str("FQtyLlbs"), dref: DataRef::new(String::from_str("sim/flightmodel/weight/m_fuel[0]")).with_scale(String::from_str("0.45359237")) });
    m.push(DrefMapEntry { key: String::from_str("FQtyRlbs"), dref: DataRef::new(String::from_str("sim/flightmodel/weight/m_fuel[1]")).with_scale(String::from_str("0.45359237")) });
    m.push(DrefMapEntry { key: String::from_str("FQtyL"), dref: DataRef::new(String::from_str("sim/cockpit2/fuel/fuel_quantity[0]")).with_scale(String::from_str("2.73062384")) });
    m.push(DrefMapEntry { key: String::from_str("FQtyR"), dref: DataRef::new(String::from_str("sim/cockpit2/fuel/fuel_quantity[1]")).with_scale(String::from_str("2.73062384")) });
    m.push(DrefMapEntry { key: String::from_str("E1 FFlow"), dref: DataRef::new(String::from_str("sim/cockpit2/engine/indicators/fuel_flow_kg_sec[0]")).with_scale(String::from_str("1")) });
    m.push(DrefMapEntry { key: String::from_str("E1 FPres"), dref: DataRef::new(String::from_str("sim/cockpit2/engine/indicators/fuel_pressure_psi[0]")) });
    m.push(DrefMapEntry { key: String::from_str("E1 OilT"), dref: DataRef::new(String::from_str("sim/cockpit2/engine/indicators/oil_temperature_deg_C[0]")) });
    m.push(DrefMapEntry { key: String::from_str("E1 OilP"), dref: DataRef::new(String::from_str("sim/cockpit2/engine/indicators/oil_pressure_psi[0]")) });
    m.push(DrefMapEntry { key: String::from_str("E1 RPM"), dref: DataRef::new(String::from_str("sim/cockpit2/engine/indicators/engine_speed_rpm[0]")) });
    m.push(DrefMapEntry { key: String::from_str("E1 %Pwr"), dref: DataRef::new(String::from_str("sim/cockpit2/engine/indicators/N1_percent")) });
    m.push(DrefMapEntry { key: String::from_str("E1 CHT1"), dref: DataRef::new(String::from_str("sim/cockpit2/engine/indicators/CHT_CYL_deg_F[0]")) });
    m.push(DrefMapEntry { key: String::from_str("E1 CHT2"), dref: DataRef::new(String::from_str("sim/cockpit2/engine/indicators/CHT_CYL_deg_F[1]")) });
    m.push(DrefMapEntry { key: String::from_str("E1 CHT3"), dref: DataRef::new(String::from_str("sim/cockpit2/engine/indicators/CHT_CYL_deg_F[2]")) });
    m.push(DrefMapEntry { key: String::from_str("E1 CHT4"), dref: DataRef::new(String::from_str("sim/cockpit2/engine/indicators/CHT_CYL_deg_F[3]")) });
    m.push(DrefMapEntry { key: String::from_str("E1 EGT1"), dref: DataRef::new(String::from_str("sim/cockpit2/engine/indicators/EGT_CYL_deg_F[0]")) });
    m.push(DrefMapEntry { key: String::from_str("E1 EGT2"), dref: DataRef::new(String::from_str("sim/cockpit2/engine/indicators/EGT_CYL_deg_F[1]")) });
    m.push(DrefMapEntry { key: String::from_str("E1 EGT3"), dref: DataRef::new(String::from_str("sim/cockpit2/engine/indicators/EGT_CYL_deg_F[2]")) });
    m.push(DrefMapEntry { key: String::from_str("E1 EGT4"), dref: DataRef::new(String::from_str("sim/cockpit2/engine/indicators/EGT_CYL_deg_F[3]")) });
    proof {
        reveal(dref_map_entries);
        assert(dmap_of(m@) =~~= dref_map_entries());
    }
    m
}

/// The destination reference mapped to a source column name: the first
/// entry with that key, or `None` where the table has none.
pub open spec fn dref_for(entries: Seq<(Seq<char>, DataRefModel)>, name: Seq<char>) -> Option<
    DataRefModel,
>
    decreases entries.len(),
{
    if entries.len() == 0 {
        None
    } else if entries[0].0 == name {
        Some(entries[0].1)
    } else {
        dref_for(entries.drop_first(), name)
    }
}

proof fn lemma_dref_for_at(entries: Seq<(Seq<char>, DataRefModel)>, name: Seq<char>, i: int)
    requires
        0 <= i < entries.len(),
        entries[i].0 == name,
        forall|k: int| 0 <= k < i ==> entries[k].0 != name,
    ensures
        dref_for(entries, name) == Some(entries[i].1),
    decreases entries.len(),
{
    if i > 0 {
        lemma_dref_for_at(entries.drop_first(), name, i - 1);
    }
}

proof fn lemma_dref_for_none(entries: Seq<(Seq<char>, DataRefModel)>, name: Seq<char>)
    requires
        forall|k: int| 0 <= k < entries.len() ==> entries[k].0 != name,
    ensures
        dref_for(entries, name) is None,
    decreases entries.len(),
{
    if entries.len() > 0 {
        lemma_dref_for_none(entries.drop_first(), name);
    }
}

/// Looks a source column name up in the mapping table.
pub fn dref_lookup(map: &Vec<DrefMapEntry>, name: &str) -> (r: Option<DataRef>)
    ensures
        match r {
            Option::Some(d) => dref_for(dmap_of(map@), name@) == Some(d@),
            Option::None => dref_for(dmap_of(map@), name@) is None,
        },
{
    let n = map.len();
    let mut i: usize = 0;
    while i < n
        invariant
            n == map.len(),
            0 <= i <= n,
            forall|k: int| 0 <= k < i ==> dmap_of(map@)[k].0 != name@,
        decreases n - i,
    {
        if crate::text::str_eq(map[i].key.as_str(), name) {
            let d = map[i].dref.duplicate();
            proof {
                assert(dmap_of(map@)[i as int] == map@[i as int]@);
                lemma_dref_for_at(dmap_of(map@), name@, i as int);
            }
            return Some(d);
        }
        proof {
            assert(dmap_of(map@)[i as int] == map@[i as int]@);
        }
        i += 1;
    }
    proof {
        lemma_dref_for_none(dmap_of(map@), name@);
    }
    None
}

/// The names of the columns in `cols` that have no destination mapping, in
/// order.
pub open spec fn unmapped_names(cols: Seq<ColumnModel>) -> Seq<Seq<char>>
    decreases cols.len(),
{
    if cols.len() == 0 {
        Seq::empty()
    } else if dref_for(dref_map_entries(), cols[0].name) is None {
        seq![cols[0].name] + unmapped_names(cols.drop_first())
    } else {
        unmapped_names(cols.drop_first())
    }
}

/// The columns in `cols` that have a destination mapping, in order.
pub open spec fn mapped_cols(cols: Seq<ColumnModel>) -> Seq<ColumnModel>
    decreases cols.len(),
{
    if cols.len() == 0 {
        Seq::empty()
    } else if dref_for(dref_map_entries(), cols[0].name) is Some {
        seq![cols[0]] + mapped_cols(cols.drop_first())
    } else {
        mapped_cols(cols.drop_first())
    }
}

/// The destination references of the mapped columns of `cols`, in the same
/// order as the columns themselves.
pub open spec fn mapped_drefs(cols: Seq<ColumnModel>) -> Seq<DataRefModel>
    decreases cols.len(),
{
    if cols.len() == 0 {
        Seq::empty()
    } else {
        match dref_for(dref_map_entries(), cols[0].name) {
            Option::Some(d) => seq![d] + mapped_drefs(cols.drop_first()),
            Option::None => mapped_drefs(cols.drop_first()),
        }
    }
}

/// The mapped columns and their references line up: one reference per
/// retained column.
pub proof fn lemma_mapped_aligned(cols: Seq<ColumnModel>)
    ensures
        mapped_cols(cols).len() == mapped_drefs(cols).len(),
    decreases cols.len(),
{
    if cols.len() > 0 {
        lemma_mapped_aligned(cols.drop_first());
    }
}

/// The flight data block produced from a cleaned table under a
/// configuration: in minimal mode the seven mandatory columns and no
/// references; in mapped mode additionally every non-mandatory column with
/// a known mapping, with its reference, unmapped columns silently dropped
/// when lenient and all reported as missing when strict.
pub open spec fn garmin_block_spec(t: TableModel, config: &FDRConfiguration) -> Result<
    FlightDataBlockModel,
    FlightDataErrorModel,
> {
    if t.width() < 7 {
        Err(FlightDataErrorModel::InsufficientData)
    } else if !config.auto_drefs {
        Ok(
            FlightDataBlockModel {
                drefs: Seq::empty(),
                data: TableModel { cols: t.cols.take(7) },
            },
        )
    } else {
        let extras = t.cols.skip(7);
        if config.strict && unmapped_names(extras).len() > 0 {
            Err(FlightDataErrorModel::MissingDrefs(unmapped_names(extras)))
        } else {
            Ok(
                FlightDataBlockModel {
                    drefs: mapped_drefs(extras),
                    data: TableModel { cols: t.cols.take(7) + mapped_cols(extras) },
                },
            )
        }
    }
}


/// The schema inferred from a source file's header lines.
pub open spec fn garmin_schema_spec(text: Seq<char>) -> Seq<SchemaFieldModel> {
    schema_spec(header_columns_spec(file_lines(text)[1], file_lines(text)[2]))
}

/// The table loaded from a source file's data rows, before the timestamp
/// merge and the cleaning.
pub open spec fn garmin_loaded_spec(text: Seq<char>) -> TableModel {
    loaded_table_spec(garmin_schema_spec(text), data_lines(text))
}

/// The loaded table after merging the date, time and UTC-offset columns
/// into the derived timestamp column.
pub open spec fn garmin_merged_spec(text: Seq<char>) -> TableModel {
    parse_datetime_spec(
        garmin_loaded_spec(text),
        "Lcl Date"@,
        "Lcl Time"@,
        "UTCOfst"@,
        "timestamp"@,
        true,
    )
}

/// The fully parsed, cleaned and reordered table of a source file.
pub open spec fn garmin_table_spec(text: Seq<char>) -> TableModel {
    TableModel { cols: reorder_spec(cleaned_spec(garmin_merged_spec(text)).cols) }
}

/// Whether a source file parses end to end: at least three header lines,
/// uniform row widths, the three timestamp source columns present with every
/// composite value valid, and the mandatory columns present after cleaning.
pub open spec fn garmin_parse_ok(text: Seq<char>) -> bool {
    let t = garmin_loaded_spec(text);
    &&& file_lines(text).len() >= 3
    &&& rows_ok(data_lines(text), garmin_schema_spec(text).len() as nat)
    &&& col_index(t.cols, "Lcl Date"@) >= 0
    &&& col_index(t.cols, "Lcl Time"@) >= 0
    &&& col_index(t.cols, "UTCOfst"@) >= 0
    &&& forall|r: int|
        0 <= r < t.height() ==> ts_row_valid(
            #[trigger] parse_datetime_inputs(t, "Lcl Date"@, "Lcl Time"@, "UTCOfst"@)[r],
        )
    &&& all_required_present(cleaned_spec(garmin_merged_spec(text)).cols)
}

/// A fully parsed Garmin EIS log: its header and its cleaned data table.
#[derive(Debug)]
pub struct GarminEISLog {
    pub header: GarminEISLogHeader,
    pub data: Table,
}

impl GarminEISLog {
    /// Parses a source file's text end to end: header, schema, rows,
    /// timestamp merge, cleaning and canonical reordering.
    pub fn from_csv(text: &str) -> (r: Result<Self, GarminLogFileParseError>)
        ensures
            r is Ok <==> garmin_parse_ok(text@),
            r matches Ok(log) ==> meta_of(log.header.metadata@) == header_metadata_spec(
                file_lines(text@)[0],
            ) && gcols_of(log.header.columns@) == header_columns_spec(
                file_lines(text@)[1],
                file_lines(text@)[2],
            ) && log.data@ == garmin_table_spec(text@) && log.data@.wf() && (forall|k: int|
                0 <= k < 7 ==> (#[trigger] log.data@.cols[k]).name == required_names()[k]),
            r matches Err(e) ==> match e {
                GarminLogFileParseError::MalformedHeader => file_lines(text@).len() < 3,
                GarminLogFileParseError::RowWidthMismatch => file_lines(text@).len() >= 3
                    && !rows_ok(data_lines(text@), garmin_schema_spec(text@).len() as nat),
                GarminLogFileParseError::TimestampParseFailure => exists|rr: int|
                    0 <= rr < garmin_loaded_spec(text@).height() && !ts_row_valid(
                        #[trigger] parse_datetime_inputs(
                            garmin_loaded_spec(text@),
                            "Lcl Date"@,
                            "Lcl Time"@,
                            "UTCOfst"@,
                        )[rr],
                    ),
                GarminLogFileParseError::UnknownColumn(nm) => ((nm@ == "Lcl Date"@ || nm@
                    == "Lcl Time"@ || nm@ == "UTCOfst"@) && col_index(
                    garmin_loaded_spec(text@).cols,
                    nm@,
                ) == -1) || (is_required_name(nm@) && col_index(
                    cleaned_spec(garmin_merged_spec(text@)).cols,
                    nm@,
                ) == -1),
            },
    {
        let header = match GarminEISLogHeader::from_csv(text) {
            Result::Ok(h) => h,
            Result::Err(e) => {
                return Err(e);
            },
        };
        let schema = header.build_schema();
        let stripped = crate::text::strip_trailing_nuls(text);
        let all_lines = crate::text::split_lines(stripped);
        let nl = all_lines.len();
        let n_eff: usize = if all_lines[nl - 1].as_str().unicode_len() == 0 {
            nl - 1
        } else {
            nl
        };
        let ghost fl = file_lines(text@);
        proof {
            let ls = lines_of(strip_nuls_spec(text@));
            assert(all_lines.deep_view() == ls);
            assert(all_lines[nl - 1]@ == ls.last());
            if ls.last().len() == 0 {
                assert(fl =~~= ls.drop_last());
            } else {
                assert(fl =~~= ls);
            }
            assert(n_eff == fl.len());
            assert(n_eff >= 3);
        }
        let mut rows: Vec<String> = Vec::new();
        let mut i: usize = 3;
        proof {
            assert(fl.skip(3) =~= fl.skip(3));
            assert(rows.deep_view() =~~= Seq::<Seq<char>>::empty());
        }
        while i < n_eff
            invariant
                3 <= i <= n_eff,
                n_eff <= all_lines.len(),
                fl == file_lines(text@),
                n_eff == fl.len(),
                all_lines.deep_view() == lines_of(strip_nuls_spec(text@)),
                forall|k: int| 0 <= k < n_eff ==> #[trigger] fl[k]
                    == all_lines.deep_view()[k],
                rows.deep_view() + nonempty_lines(fl.skip(i as int)) == nonempty_lines(fl.skip(3)),
            decreases n_eff - i,
        {
            proof {
                assert(fl.skip(i as int)[0] == fl[i as int]);
                assert(fl.skip(i as int).drop_first() =~= fl.skip(i + 1));
                assert(all_lines[i as int]@ == all_lines.deep_view()[i as int]);
            }
            if all_lines[i].as_str().unicode_len() > 0 {
                let ghost oldr = rows.deep_view();
                let line = crate::table::clone_string(&all_lines[i]);
                proof {
                    assert(oldr.len() == rows@.len());
                }
                rows.push(line);
                proof {
                    assert(rows.deep_view() =~~= oldr.push(fl[i as int]));
                    assert(rows.deep_view() + nonempty_lines(fl.skip(i + 1)) =~~= oldr
                        + nonempty_lines(fl.skip(i as int)));
                }
            } else {
                proof {
                    assert(nonempty_lines(fl.skip(i as int)) == nonempty_lines(fl.skip(i + 1)));
                }
            }
            i += 1;
        }
        proof {
            assert(fl.skip(n_eff as int) =~= Seq::<Seq<char>>::empty());
            assert(nonempty_lines(fl.skip(n_eff as int)) =~~= Seq::<Seq<char>>::empty());
            assert(rows.deep_view() =~~= nonempty_lines(fl.skip(3)));
            assert(rows.deep_view() == data_lines(text@));
            assert(sfields_of(schema@) == garmin_schema_spec(text@));
        }
        let loaded = match load_rows(&schema, &rows) {
            Result::Ok(t) => t,
            Result::Err(e) => {
                return Err(e);
            },
        };
        proof {
            assert(loaded@ == garmin_loaded_spec(text@));
        }
        let merged = match parse_datetime(loaded, "Lcl Date", "Lcl Time", "UTCOfst", "timestamp",
            true) {
            Result::Ok(t) => t,
            Result::Err(e) => {
                return Err(e);
            },
        };
        proof {
            assert(merged@ == garmin_merged_spec(text@));
        }
        let data = match clean_dataframe(merged) {
            Result::Ok(t) => t,
            Result::Err(e) => {
                return Err(e);
            },
        };
        Ok(Self { header, data })
    }
}

/// A Garmin EIS log file opened as a flight data source.
#[derive(Debug)]
pub struct GarminLogFile {
    pub header: GarminEISLogHeader,
    pub data: Table,
}

impl GarminLogFile {
    /// Parses a source file's text into a flight data source.
    pub fn new(text: &str) -> (r: Result<Self, GarminLogFileParseError>)
        ensures
            r is Ok <==> garmin_parse_ok(text@),
            r matches Ok(f) ==> meta_of(f.header.metadata@) == header_metadata_spec(
                file_lines(text@)[0],
            ) && gcols_of(f.header.columns@) == header_columns_spec(
                file_lines(text@)[1],
                file_lines(text@)[2],
            ) && f.data@ == garmin_table_spec(text@) && f.data@.wf(),
            r matches Err(e) ==> match e {
                GarminLogFileParseError::MalformedHeader => file_lines(text@).len() < 3,
                GarminLogFileParseError::RowWidthMismatch => file_lines(text@).len() >= 3
                    && !rows_ok(data_lines(text@), garmin_schema_spec(text@).len() as nat),
                GarminLogFileParseError::TimestampParseFailure => exists|rr: int|
                    0 <= rr < garmin_loaded_spec(text@).height() && !ts_row_valid(
                        #[trigger] parse_datetime_inputs(
                            garmin_loaded_spec(text@),
                            "Lcl Date"@,
                            "Lcl Time"@,
                            "UTCOfst"@,
                        )[rr],
                    ),
                GarminLogFileParseError::UnknownColumn(nm) => ((nm@ == "Lcl Date"@ || nm@
                    == "Lcl Time"@ || nm@ == "UTCOfst"@) && col_index(
                    garmin_loaded_spec(text@).cols,
                    nm@,
                ) == -1) || (is_required_name(nm@) && col_index(
                    cleaned_spec(garmin_merged_spec(text@)).cols,
                    nm@,
                ) == -1),
            },
    {
        let log = match GarminEISLog::from_csv(text) {
            Result::Ok(l) => l,
            Result::Err(e) => {
                return Err(e);
            },
        };
        Ok(Self { header: log.header, data: log.data })
    }
}


impl FlightDataSource for GarminLogFile {
    /// The tail number discovered in the header metadata, if any.
    open spec fn spec_tail_number(&self) -> Option<Seq<char>> {
        meta_lookup(meta_of(self.header.metadata@), "tail_number"@)
    }

    /// The instant of the first data row: the first cell of the timestamp
    /// column, where that column and a first row exist and the cell holds
    /// the decimal text of an instant.
    open spec fn spec_first_instant(&self) -> Option<i64> {
        let ci = col_index(self.data@.cols, "timestamp"@);
        if ci >= 0 && self.data@.cols[ci].cells.len() > 0 {
            match self.data@.cols[ci].cells[0] {
                Option::Some(s) => match crate::num::parse_dec_spec(s) {
                    Option::Some(v) => if i64::MIN <= v <= i64::MAX {
                        Some(v as i64)
                    } else {
                        None
                    },
                    Option::None => None,
                },
                Option::None => None,
            }
        } else {
            None
        }
    }

    /// The block this source produces under a configuration.
    open spec fn spec_data_block(&self, config: &FDRConfiguration) -> Result<
        FlightDataBlockModel,
        FlightDataErrorModel,
    > {
        garmin_block_spec(self.data@, config)
    }

    fn tail_number(&self) -> (r: Option<String>) {
        match self.header.metadata_get("tail_number") {
            Option::Some(v) => Some(crate::table::clone_string(v)),
            Option::None => None,
        }
    }

    fn timestamp(&self) -> (r: Option<i64>) {
        let ci = match self.data.find_column("timestamp") {
            Option::Some(i) => i,
            Option::None => {
                return None;
            },
        };
        proof {
            assert(self.data.columns@[ci as int]@ == self.data@.cols[ci as int]);
        }
        if self.data.columns[ci].cells.len() == 0 {
            return None;
        }
        proof {
            assert(self.data.columns[ci as int].cells.deep_view().len() == self.data.columns[
                ci as int
            ].cells@.len());
            assert(self.data.columns[ci as int].cells.deep_view()[0] == self.data.columns[
                ci as int
            ].cells@[0].deep_view());
        }
        match &self.data.columns[ci].cells[0] {
            Option::Some(s) => crate::num::parse_dec_i64(s.as_str()),
            Option::None => None,
        }
    }

    fn data_block(&self, config: &FDRConfiguration) -> (r: Result<
        FlightDataBlock,
        FlightDataError,
    >) {
        let w = self.data.width();
        if w < 7 {
            return Err(FlightDataError::InsufficientData);
        }
        let mut columns: Vec<Column> = Vec::new();
        let mut i: usize = 0;
        proof {
            assert(cols_of(columns@) =~~= self.data@.cols.take(7).subrange(0, 0));
        }
        while i < 7
            invariant
                w == self.data@.width(),
                w == self.data.columns.len(),
                w >= 7,
                0 <= i <= 7,
                cols_of(columns@) == self.data@.cols.take(7).subrange(0, i as int),
            decreases 7 - i,
        {
            let c = crate::table::duplicate_column(&self.data.columns[i]);
            let ghost oldg = cols_of(columns@);
            proof {
                assert(oldg.len() == columns@.len());
                assert(c@ == self.data@.cols[i as int]);
                assert(self.data@.cols.take(7)[i as int] == self.data@.cols[i as int]);
            }
            columns.push(c);
            proof {
                assert(cols_of(columns@) =~~= oldg.push(self.data@.cols.take(7)[i as int]));
                assert(cols_of(columns@) =~~= self.data@.cols.take(7).subrange(0, i + 1));
            }
            i += 1;
        }
        proof {
            assert(self.data@.cols.take(7).subrange(0, 7) =~= self.data@.cols.take(7));
        }
        if !config.auto_drefs {
            let data = Table { columns };
            proof {
                assert(data@.cols =~~= self.data@.cols.take(7));
            }
            let block = match FlightDataBlock::new(Vec::new(), data) {
                Result::Ok(b) => b,
                Result::Err(_) => {
                    proof {
                        assert(false);
                    }
                    return Err(FlightDataError::InsufficientData);
                },
            };
            proof {
                assert(block@ =~~= FlightDataBlockModel {
                    drefs: Seq::empty(),
                    data: TableModel { cols: self.data@.cols.take(7) },
                });
            }
            return Ok(block);
        }
        let map = build_dref_map();
        let ghost extras = self.data@.cols.skip(7);
        let mut drefs: Vec<DataRef> = Vec::new();
        let mut unmapped: Vec<String> = Vec::new();
        let mut j: usize = 7;
        proof {
            assert(extras.skip(0) =~= extras);
            assert(drefs_of(drefs@) =~~= Seq::<DataRefModel>::empty());
            assert(unmapped.deep_view() =~~= Seq::<Seq<char>>::empty());
        }
        while j < w
            invariant
                w == self.data@.width(),
                w == self.data.columns.len(),
                w >= 7,
                7 <= j <= w,
                dmap_of(map@) == dref_map_entries(),
                extras == self.data@.cols.skip(7),
                extras.len() == w - 7,
                cols_of(columns@) == self.data@.cols.take(7) + mapped_cols(
                    extras.subrange(0, j - 7),
                ),
                drefs_of(drefs@) == mapped_drefs(extras.subrange(0, j - 7)),
                unmapped.deep_view() == unmapped_names(extras.subrange(0, j - 7)),
            decreases w - j,
        {
            let c = &self.data.columns[j];
            proof {
                assert(c@ == self.data@.cols[j as int]);
                assert(extras[j - 7] == self.data@.cols[j as int]);
            }
            let ghost pre = extras.subrange(0, j - 7);
            let ghost cur = extras.subrange(0, j - 7 + 1);
            proof {
                assert(cur.drop_last() =~= pre);
                assert(cur.last() == extras[j - 7]);
            }
            match dref_lookup(&map, c.name.as_str()) {
                Option::Some(d) => {
                    let copy = crate::table::duplicate_column(c);
                    let ghost oldcols = cols_of(columns@);
                    let ghost olddrefs = drefs_of(drefs@);
                    proof {
                        assert(oldcols.len() == columns@.len());
                        assert(olddrefs.len() == drefs@.len());
                    }
                    columns.push(copy);
                    drefs.push(d);
                    proof {
                        assert(cols_of(columns@) =~~= oldcols.push(extras[j - 7]));
                        assert(drefs_of(drefs@) =~~= olddrefs.push(
                            dref_map_lookup_value(extras[j - 7].name),
                        ));
                        lemma_mapped_prefix_step(extras, j - 7);
                        assert(cols_of(columns@) =~~= self.data@.cols.take(7) + mapped_cols(cur));
                        assert(drefs_of(drefs@) =~~= mapped_drefs(cur));
                        assert(unmapped.deep_view() =~~= unmapped_names(cur));
                    }
                },
                Option::None => {
                    let nm = crate::table::clone_string(&c.name);
                    let ghost oldu = unmapped.deep_view();
                    proof {
                        assert(oldu.len() == unmapped@.len());
                    }
                    unmapped.push(nm);
                    proof {
                        assert(unmapped.deep_view() =~~= oldu.push(extras[j - 7].name));
                        lemma_mapped_prefix_step(extras, j - 7);
                        assert(cols_of(columns@) =~~= self.data@.cols.take(7) + mapped_cols(cur));
                        assert(drefs_of(drefs@) =~~= mapped_drefs(cur));
                        assert(unmapped.deep_view() =~~= unmapped_names(cur));
                    }
                },
            }
            j += 1;
        }
        proof {
            assert(extras.subrange(0, w - 7) =~= extras);
        }
        if config.strict && unmapped.len() > 0 {
            return Err(FlightDataError::MissingDrefs(unmapped));
        }
        let data = Table { columns };
        proof {
            lemma_mapped_aligned(extras);
            assert(data@.cols =~~= self.data@.cols.take(7) + mapped_cols(extras));
            assert(data@.width() == 7 + mapped_cols(extras).len());
        }
        let block = match FlightDataBlock::new(drefs, data) {
            Result::Ok(b) => b,
            Result::Err(_) => {
                proof {
                    assert(false);
                }
                return Err(FlightDataError::InsufficientData);
            },
        };
        proof {
            assert(block@ =~~= FlightDataBlockModel {
                drefs: mapped_drefs(extras),
                data: TableModel { cols: self.data@.cols.take(7) + mapped_cols(extras) },
            });
        }
        Ok(block)
    }
}

/// The destination reference of a mapped column name; meaningful only where
/// the name has a mapping.
pub open spec fn dref_map_lookup_value(n: Seq<char>) -> DataRefModel {
    match dref_for(dref_map_entries(), n) {
        Option::Some(d) => d,
        Option::None => DataRefModel { path: Seq::empty(), scale: Seq::empty() },
    }
}

/// Extending the scanned prefix of the extra columns by one column extends
/// the mapped columns, their references, and the unmapped names accordingly.
proof fn lemma_mapped_prefix_step(extras: Seq<ColumnModel>, k: int)
    requires
        0 <= k < extras.len(),
    ensures
        dref_for(dref_map_entries(), extras[k].name) is Some ==> mapped_cols(
            extras.subrange(0, k + 1),
        ) == mapped_cols(extras.subrange(0, k)).push(extras[k]) && mapped_drefs(
            extras.subrange(0, k + 1),
        ) == mapped_drefs(extras.subrange(0, k)).push(dref_map_lookup_value(extras[k].name))
            && unmapped_names(extras.subrange(0, k + 1)) == unmapped_names(extras.subrange(0, k)),
        dref_for(dref_map_entries(), extras[k].name) is None ==> mapped_cols(
            extras.subrange(0, k + 1),
        ) == mapped_cols(extras.subrange(0, k)) && mapped_drefs(extras.subrange(0, k + 1))
            == mapped_drefs(extras.subrange(0, k)) && unmapped_names(extras.subrange(0, k + 1))
            == unmapped_names(extras.subrange(0, k)).push(extras[k].name),
{
    lemma_mapped_snoc(extras.subrange(0, k), extras[k]);
    assert(extras.subrange(0, k).push(extras[k]) =~= extras.subrange(0, k + 1));
}

/// Appending one column at the end of a sequence appends to the mapped and
/// unmapped projections according to whether it has a mapping.
proof fn lemma_mapped_snoc(cols: Seq<ColumnModel>, c: ColumnModel)
    ensures
        dref_for(dref_map_entries(), c.name) is Some ==> mapped_cols(cols.push(c)) == mapped_cols(
            cols,
        ).push(c) && mapped_drefs(cols.push(c)) == mapped_drefs(cols).push(
            dref_map_lookup_value(c.name),
        ) && unmapped_names(cols.push(c)) == unmapped_names(cols),
        dref_for(dref_map_entries(), c.name) is None ==> mapped_cols(cols.push(c)) == mapped_cols(
            cols,
        ) && mapped_drefs(cols.push(c)) == mapped_drefs(cols) && unmapped_names(cols.push(c))
            == unmapped_names(cols).push(c.name),
    decreases cols.len(),
{
    if cols.len() == 0 {
        assert(cols =~= Seq::<ColumnModel>::empty());
        assert(cols.push(c)[0] == c);
        assert(cols.push(c).drop_first() =~= Seq::<ColumnModel>::empty());
        assert(mapped_cols(Seq::<ColumnModel>::empty()) =~= Seq::<ColumnModel>::empty());
        assert(mapped_drefs(Seq::<ColumnModel>::empty()) =~= Seq::<DataRefModel>::empty());
        assert(unmapped_names(Seq::<ColumnModel>::empty()) =~= Seq::<Seq<char>>::empty());
        if dref_for(dref_map_entries(), c.name) is Some {
            assert(mapped_cols(cols.push(c)) == seq![c] + mapped_cols(
                cols.push(c).drop_first(),
            ));
            assert(mapped_drefs(cols.push(c)) == seq![dref_map_lookup_value(c.name)]
                + mapped_drefs(cols.push(c).drop_first()));
            assert(unmapped_names(cols.push(c)) == unmapped_names(cols.push(c).drop_first()));
            assert(mapped_cols(cols.push(c)) =~= mapped_cols(cols).push(c));
            assert(mapped_drefs(cols.push(c)) =~= mapped_drefs(cols).push(
                dref_map_lookup_value(c.name),
            ));
            assert(unmapped_names(cols.push(c)) =~= unmapped_names(cols));
        } else {
            assert(mapped_cols(cols.push(c)) == mapped_cols(cols.push(c).drop_first()));
            assert(mapped_drefs(cols.push(c)) == mapped_drefs(cols.push(c).drop_first()));
            assert(unmapped_names(cols.push(c)) == seq![c.name] + unmapped_names(
                cols.push(c).drop_first(),
            ));
            assert(mapped_cols(cols.push(c)) =~= mapped_cols(cols));
            assert(mapped_drefs(cols.push(c)) =~= mapped_drefs(cols));
            assert(unmapped_names(cols.push(c)) =~= unmapped_names(cols).push(c.name));
        }
    } else {
        lemma_mapped_snoc(cols.drop_first(), c);
        assert(cols.push(c)[0] == cols[0]);
        assert(cols.push(c).drop_first() =~= cols.drop_first().push(c));
        let rest = cols.drop_first();
        if dref_for(dref_map_entries(), cols[0].name) is Some {
            assert(mapped_cols(cols.push(c)) == seq![cols[0]] + mapped_cols(rest.push(c)));
            assert(mapped_drefs(cols.push(c)) == seq![dref_map_lookup_value(cols[0].name)]
                + mapped_drefs(rest.push(c)));
            assert(unmapped_names(cols.push(c)) == unmapped_names(rest.push(c)));
            assert(mapped_cols(cols) == seq![cols[0]] + mapped_cols(rest));
            assert(mapped_drefs(cols) == seq![dref_map_lookup_value(cols[0].name)] + mapped_drefs(
                rest,
            ));
            assert(unmapped_names(cols) == unmapped_names(rest));
        } else {
            assert(mapped_cols(cols.push(c)) == mapped_cols(rest.push(c)));
            assert(mapped_drefs(cols.push(c)) == mapped_drefs(rest.push(c)));
            assert(unmapped_names(cols.push(c)) == seq![cols[0].name] + unmapped_names(
                rest.push(c),
            ));
            assert(mapped_cols(cols) == mapped_cols(rest));
            assert(mapped_drefs(cols) == mapped_drefs(rest));
            assert(unmapped_names(cols) == seq![cols[0].name] + unmapped_names(rest));
        }
        if dref_for(dref_map_entries(), c.name) is Some {
            assert(mapped_cols(cols.push(c)) =~= mapped_cols(cols).push(c));
            assert(mapped_drefs(cols.push(c)) =~= mapped_drefs(cols).push(
                dref_map_lookup_value(c.name),
            ));
            assert(unmapped_names(cols.push(c)) =~= unmapped_names(cols));
        } else {
            assert(mapped_cols(cols.push(c)) =~= mapped_cols(cols));
            assert(mapped_drefs(cols.push(c)) =~= mapped_drefs(cols));
            assert(unmapped_names(cols.push(c)) =~= unmapped_names(cols).push(c.name));
        }
    }
}


/// The names of a sequence of header column models.
pub open spec fn gcol_names(cols: Seq<GarminColumnModel>) -> Seq<Seq<char>> {
    cols.map_values(|c: GarminColumnModel| c.name)
}

/// The units of a sequence of header column models.
pub open spec fn gcol_units(cols: Seq<GarminColumnModel>) -> Seq<Seq<char>> {
    cols.map_values(|c: GarminColumnModel| c.unit)
}

/// Each token of a sequence trimmed of surrounding whitespace.
pub open spec fn trimmed_all(ts: Seq<Seq<char>>) -> Seq<Seq<char>> {
    ts.map_values(|u: Seq<char>| trim_spec(u))
}

proof fn lemma_metadata_all_len(entries: Seq<Seq<char>>)
    requires
        forall|k: int| 0 <= k < entries.len() ==> entry_kv(#[trigger] entries[k]) is Some,
    ensures
        metadata_of(entries).len() == entries.len(),
    decreases entries.len(),
{
    if entries.len() > 0 {
        assert(entry_kv(entries[0]) is Some);
        assert(forall|k: int|
            0 <= k < entries.drop_first().len() ==> entry_kv(
                #[trigger] entries.drop_first()[k],
            ) is Some);
        lemma_metadata_all_len(entries.drop_first());
    }
}

/// Header round trip: for a well-formed header, the column list is exactly
/// as long as the token lists, rejoining the raw names with commas
/// reproduces the names line, the column units are the unit tokens modulo
/// whitespace trimming, and the metadata holds one pair per entry.
pub proof fn lemma_header_round_trip(
    meta_line: Seq<char>,
    units_line: Seq<char>,
    names_line: Seq<char>,
)
    requires
        split_spec(strip_hashes_spec(units_line), ',').len() == split_spec(names_line, ',').len(),
        forall|k: int|
            0 <= k < split_spec(strip_hashes_spec(meta_line), ',').len() ==> entry_kv(
                #[trigger] split_spec(strip_hashes_spec(meta_line), ',')[k],
            ) is Some,
    ensures
        header_columns_spec(units_line, names_line).len() == split_spec(names_line, ',').len(),
        crate::text::join_spec(gcol_names(header_columns_spec(units_line, names_line)), ',')
            == names_line,
        gcol_units(header_columns_spec(units_line, names_line)) == trimmed_all(
            split_spec(strip_hashes_spec(units_line), ','),
        ),
        header_metadata_spec(meta_line).len() == split_spec(strip_hashes_spec(meta_line), ',').len(),
{
    let units = split_spec(strip_hashes_spec(units_line), ',');
    let names = split_spec(names_line, ',');
    let cols = header_columns_spec(units_line, names_line);
    assert(gcol_names(cols) =~= names);
    crate::text::lemma_join_split(names_line, ',');
    assert(gcol_units(cols) =~= trimmed_all(units));
    lemma_metadata_all_len(split_spec(strip_hashes_spec(meta_line), ','));
}

/// Schema totality: every unit string is given exactly one of the five
/// value types, and a string that is none of the recognized units is always
/// given `Text`, never rejected.
pub proof fn lemma_unit_type_total(u: Seq<char>)
    ensures
        unit_type_spec(u) is Date || unit_type_spec(u) is Integer || unit_type_spec(u) is Float
            || unit_type_spec(u) is Text || unit_type_spec(u) is Timestamp,
        (u != "yyy-mm-dd"@ && u != "bool"@ && u != "#"@ && u != "MHz"@ && u != "degrees"@ && u
            != "ft"@ && u != "nm"@ && u != "fsd"@ && u != "mt"@ && u != "ft wgs"@ && u
            != "ft Baro"@ && u != "ft msl"@ && u != "kt"@ && u != "fpm"@ && u != "deg"@ && u
            != "ft/min"@ && u != "deg F/min"@ && u != "kts"@ && u != "lbs"@ && u != "gals"@ && u
            != "volts"@ && u != "amps"@ && u != "gph"@ && u != "psi"@ && u != "degF"@ && u
            != "deg F"@ && u != "deg C"@ && u != "%"@ && u != "rpm"@ && u != "inch"@ && u != "Hg"@
            && u != "G"@ && u != "s"@) ==> unit_type_spec(u) == ValueType::Text,
{
}

/// Row filter idempotence: dropping fully null rows twice yields the same
/// table as dropping them once.
pub proof fn lemma_remove_empty_rows_idempotent(t: TableModel)
    requires
        t.wf(),
    ensures
        remove_empty_spec(remove_empty_spec(t)) == remove_empty_spec(t),
{
    let t1 = remove_empty_spec(t);
    let km = keep_mask(t);
    if t.cols.len() == 0 {
        assert(remove_empty_spec(t1).cols =~= t1.cols);
        assert(remove_empty_spec(t1) =~~= t1);
    } else {
        assert(t1.cols.len() == t.cols.len());
        assert forall|i: int| 0 <= i < t.cols.len() implies #[trigger] t1.cols[i].cells.len()
            == crate::table::count_true(km) by {
            assert(t.cols[i].cells.len() == t.height());
            crate::table::lemma_mask_filter_len(t.cols[i].cells, km);
        }
        let h1 = crate::table::count_true(km);
        assert(t1.height() == h1);
        assert forall|r: int| 0 <= r < h1 implies !t1.row_empty(r) by {
            assert(t.cols[0].cells.len() == t.height());
            crate::table::lemma_mask_filter_index(t.cols[0].cells, km, r);
            let o = crate::table::nth_true(km, r);
            assert(km[o]);
            assert(!t.row_empty(o));
            assert(exists|i: int|
                0 <= i < t.cols.len() && !(#[trigger] t.cols[i].cells[o] is None));
            let i = choose|i: int|
                0 <= i < t.cols.len() && !(#[trigger] t.cols[i].cells[o] is None);
            assert(t.cols[i].cells.len() == t.height());
            crate::table::lemma_mask_filter_index(t.cols[i].cells, km, r);
            assert(t1.cols[i].cells[r] == t.cols[i].cells[o]);
            assert(!(t1.cols[i].cells[r] is None));
        }
        assert forall|r: int| 0 <= r < keep_mask(t1).len() implies #[trigger] keep_mask(t1)[r] by {
            assert(!t1.row_empty(r));
        }
        assert forall|i: int| 0 <= i < t1.cols.len() implies #[trigger] remove_empty_spec(
            t1,
        ).cols[i] == t1.cols[i] by {
            assert(t1.cols[i].cells.len() == h1);
            assert(keep_mask(t1).len() == h1);
            crate::table::lemma_mask_filter_all_true(t1.cols[i].cells, keep_mask(t1));
        }
        assert(remove_empty_spec(t1).cols =~~= t1.cols);
        assert(remove_empty_spec(t1) =~~= t1);
    }
}

/// Mapping alignment: in a lenient mapped-mode run, the block carries
/// exactly one destination reference per retained non-mandatory column.
pub proof fn lemma_mapping_alignment(t: TableModel, config: &FDRConfiguration)
    requires
        config.auto_drefs,
        !config.strict,
    ensures
        garmin_block_spec(t, config) matches Ok(b) ==> b.drefs.len() + 7 == b.data.cols.len(),
{
    if t.width() >= 7 {
        lemma_mapped_aligned(t.cols.skip(7));
        assert(t.cols.take(7).len() == 7);
    }
}

/// Strict failure completeness: in a strict mapped-mode run with at least
/// one unmapped non-mandatory column, the mapper fails and reports exactly
/// the unmapped column names, in table order.
pub proof fn lemma_strict_failure_completeness(t: TableModel, config: &FDRConfiguration)
    requires
        config.auto_drefs,
        config.strict,
        t.width() >= 7,
        unmapped_names(t.cols.skip(7)).len() > 0,
    ensures
        garmin_block_spec(t, config) == Result::<
            FlightDataBlockModel,
            FlightDataErrorModel,
        >::Err(FlightDataErrorModel::MissingDrefs(unmapped_names(t.cols.skip(7)))),
{
}

/// Every non-mandatory column without a mapping appears among the reported
/// unmapped names, and every reported name indeed has no mapping.
pub proof fn lemma_unmapped_names_complete(cols: Seq<ColumnModel>)
    ensures
        forall|i: int|
            0 <= i < cols.len() && dref_for(dref_map_entries(), (#[trigger] cols[i]).name) is None
                ==> unmapped_names(cols).contains(cols[i].name),
        forall|j: int|
            0 <= j < unmapped_names(cols).len() ==> dref_for(
                dref_map_entries(),
                #[trigger] unmapped_names(cols)[j],
            ) is None,
    decreases cols.len(),
{
    if cols.len() > 0 {
        lemma_unmapped_names_complete(cols.drop_first());
        let rest = cols.drop_first();
        assert forall|i: int|
            0 <= i < cols.len() && dref_for(dref_map_entries(), (#[trigger] cols[i]).name) is None
                implies unmapped_names(cols).contains(cols[i].name) by {
            if i == 0 {
                assert(unmapped_names(cols)[0] == cols[0].name);
            } else {
                assert(rest[i - 1] == cols[i]);
                assert(unmapped_names(rest).contains(rest[i - 1].name));
                let j = choose|j: int|
                    0 <= j < unmapped_names(rest).len() && unmapped_names(rest)[j] == rest[i
                        - 1].name;
                if dref_for(dref_map_entries(), cols[0].name) is None {
                    assert(unmapped_names(cols)[j + 1] == unmapped_names(rest)[j]);
                } else {
                    assert(unmapped_names(cols)[j] == unmapped_names(rest)[j]);
                }
            }
        }
        assert forall|j: int| 0 <= j < unmapped_names(cols).len() implies dref_for(
            dref_map_entries(),
            #[trigger] unmapped_names(cols)[j],
        ) is None by {
            if dref_for(dref_map_entries(), cols[0].name) is None {
                if j > 0 {
                    assert(unmapped_names(cols)[j] == unmapped_names(rest)[j - 1]);
                }
            } else {
                assert(unmapped_names(cols)[j] == unmapped_names(rest)[j]);
            }
        }
    }
}


/// The human-readable text of a parse error, one line.
pub open spec fn garmin_parse_error_text(e: &GarminLogFileParseError) -> Seq<char> {
    match e {
        GarminLogFileParseError::MalformedHeader => "Malformed header: fewer than three header lines"@,
        GarminLogFileParseError::RowWidthMismatch => "Row width mismatch"@,
        GarminLogFileParseError::TimestampParseFailure => "Timestamp parse failure"@,
        GarminLogFileParseError::UnknownColumn(n) => "Unknown column: "@ + n@,
    }
}

impl GarminLogFileParseError {
    /// The error rendered as one line of text.
    pub fn message(&self) -> (r: String)
        ensures
            r@ == garmin_parse_error_text(self),
    {
        match self {
            GarminLogFileParseError::MalformedHeader => String::from_str(
                "Malformed header: fewer than three header lines",
            ),
            GarminLogFileParseError::RowWidthMismatch => String::from_str("Row width mismatch"),
            GarminLogFileParseError::TimestampParseFailure => String::from_str(
                "Timestamp parse failure",
            ),
            GarminLogFileParseError::UnknownColumn(n) => {
                let mut s = String::from_str("Unknown column: ");
                s.append(n.as_str());
                s
            },
        }
    }
}


/// A timestamp cell the row loader derives always parses back to the very
/// instant the timestamp library computed, and that instant fits in 64
/// bits: rendering a loader-produced timestamp column cannot fail.
pub proof fn lemma_loader_ts_cell_parses(c: Option<Seq<char>>)
    requires
        ts_row_valid(c),
    ensures
        match ts_cell(c) {
            Option::Some(s) => match crate::num::parse_dec_spec(s) {
                Option::Some(v) => i64::MIN <= v <= i64::MAX && (chrono_epoch(c->0) matches
                    Option::Some(e) && e as int == v),
                Option::None => false,
            },
            Option::None => true,
        },
{
    match c {
        Option::Some(s0) => {
            match chrono_epoch(s0) {
                Option::Some(e) => {
                    crate::num::lemma_dec_int_round_trip(e as int);
                },
                Option::None => {},
            }
        },
        Option::None => {},
    }
}

} // verus!
