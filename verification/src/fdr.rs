//! The FDR (Flight Data Recorder) side of the pipeline: destination data
//! references, the flight data block handed to the writer, the writer
//! configuration, and the serialization of a block as FDR text.

use vstd::prelude::*;

use crate::num::{hms_chars, parse_dec_spec, sod_of};
use crate::table::{col_index, Column, ColumnModel, Table, TableModel};

verus! {

/// A reference to a data value in the X-Plane simulator and a scaling factor
/// to convert the value provided by the source to the value expected by the
/// simulator. The factor is carried as decimal text: it is metadata for the
/// destination and never applied to the data itself.
#[derive(Debug)]
pub struct DataRef {
    pub path: String,
    pub scale: String,
}

/// Model of a data reference.
#[verifier::ext_equal]
pub struct DataRefModel {
    pub path: Seq<char>,
    pub scale: Seq<char>,
}

impl View for DataRef {
    type V = DataRefModel;

    open spec fn view(&self) -> DataRefModel {
        DataRefModel { path: self.path@, scale: self.scale@ }
    }
}

/// The models of a sequence of data references.
pub open spec fn drefs_of(v: Seq<DataRef>) -> Seq<DataRefModel> {
    v.map_values(|d: DataRef| d@)
}

impl DataRef {
    /// Create a new DataRef with a scaling factor of 1.
    pub fn new(path: String) -> (r: Self)
        ensures
            r@.path == path@,
            r@.scale == "1"@,
    {
        Self { path, scale: String::from_str("1") }
    }

    /// Set the scaling factor for the data reference.
    pub fn with_scale(self, scale: String) -> (r: Self)
        ensures
            r@.path == self@.path,
            r@.scale == scale@,
    {
        Self { path: self.path, scale }
    }

    /// An exact copy of the data reference.
    pub fn duplicate(&self) -> (r: Self)
        ensures
            r@ == self@,
    {
        let r = Self {
            path: crate::table::clone_string(&self.path),
            scale: crate::table::clone_string(&self.scale),
        };
        proof {
            assert(r@ =~~= self@);
        }
        r
    }
}

/// Why a flight data block could not be built.
#[derive(Debug)]
pub enum FlightDataError {
    /// Non-mandatory columns without a destination mapping, all of them.
    MissingDrefs(Vec<String>),
    /// A column referenced by name is absent from the table.
    UnknownColumn(String),
    /// Fewer than the seven mandatory columns are available.
    InsufficientData,
}

/// Model of a flight data error.
#[verifier::ext_equal]
pub enum FlightDataErrorModel {
    MissingDrefs(Seq<Seq<char>>),
    UnknownColumn(Seq<char>),
    InsufficientData,
}

impl View for FlightDataError {
    type V = FlightDataErrorModel;

    open spec fn view(&self) -> FlightDataErrorModel {
        match self {
            FlightDataError::MissingDrefs(ns) => FlightDataErrorModel::MissingDrefs(ns.deep_view()),
            FlightDataError::UnknownColumn(n) => FlightDataErrorModel::UnknownColumn(n@),
            FlightDataError::InsufficientData => FlightDataErrorModel::InsufficientData,
        }
    }
}

/// A block of flight data to be written to an FDR file: the destination
/// references of the non-mandatory columns, and the data itself. The table
/// carries the seven mandatory columns first; each remaining column has the
/// data reference at the matching position of `drefs`.
#[derive(Debug)]
pub struct FlightDataBlock {
    pub drefs: Vec<DataRef>,
    pub data: Table,
}

/// Model of a flight data block.
#[verifier::ext_equal]
pub struct FlightDataBlockModel {
    pub drefs: Seq<DataRefModel>,
    pub data: TableModel,
}

impl View for FlightDataBlock {
    type V = FlightDataBlockModel;

    open spec fn view(&self) -> FlightDataBlockModel {
        FlightDataBlockModel { drefs: drefs_of(self.drefs@), data: self.data@ }
    }
}

impl FlightDataBlock {
    /// Pairs destination references with a data table, checking that every
    /// column past the seven mandatory ones has exactly one reference.
    pub fn new(drefs: Vec<DataRef>, data: Table) -> (r: Result<Self, FlightDataError>)
        ensures
            r is Ok <==> data@.width() >= 7 && drefs@.len() == data@.width() - 7,
            r matches Ok(b) ==> b@.drefs == drefs_of(drefs@) && b@.data == data@,
            r matches Err(e) ==> if data@.width() < 7 {
                e is InsufficientData
            } else {
                e@ matches FlightDataErrorModel::MissingDrefs(ns) && ns == data@.names().skip(7)
            },
    {
        let w = data.width();
        if w < 7 {
            return Err(FlightDataError::InsufficientData);
        }
        if drefs.len() != w - 7 {
            let mut names: Vec<String> = Vec::new();
            let mut i: usize = 7;
            proof {
                assert(names.deep_view() =~~= data@.names().subrange(7, 7));
            }
            while i < w
                invariant
                    w == data@.width(),
                    w == data.columns.len(),
                    7 <= i <= w,
                    names.deep_view() == data@.names().subrange(7, i as int),
                decreases w - i,
            {
                let nm = crate::table::clone_string(&data.columns[i].name);
                let ghost oldn = names.deep_view();
                proof {
                    assert(oldn.len() == names@.len());
                    assert(data@.names()[i as int] == data@.cols[i as int].name);
                    assert(data@.cols[i as int] == data.columns@[i as int]@);
                }
                names.push(nm);
                proof {
                    assert(names.deep_view() =~~= oldn.push(data@.names()[i as int]));
                    assert(names.deep_view() =~~= data@.names().subrange(7, i + 1));
                }
                i += 1;
            }
            proof {
                assert(data@.names().subrange(7, w as int) =~~= data@.names().skip(7));
            }
            return Err(FlightDataError::MissingDrefs(names));
        }
        Ok(Self { drefs, data })
    }
}

/// How an FDR file is to be written: the aircraft model, how the aircraft
/// identity is resolved, and the strictness and null policies.
pub struct FDRConfiguration {
    pub aircraft_model: String,
    pub defaut_tail_number: String,
    pub tail_number_override: Option<String>,
    pub strict: bool,
    pub auto_drefs: bool,
    pub allow_nulls: bool,
}

/// The identity written to the TAIL line: the override if present, else the
/// identity the source discovered, else the configured default.
pub open spec fn resolved_tail_spec(c: &FDRConfiguration, source_tail: Option<Seq<char>>) -> Seq<
    char,
> {
    match c.tail_number_override {
        Option::Some(t) => t@,
        Option::None => match source_tail {
            Option::Some(s) => s,
            Option::None => c.defaut_tail_number@,
        },
    }
}

/// Types that implement FlightDataSource can provide flight data for the
/// FDRWriter. The spec functions state what each accessor returns; one
/// implementing source exists today and further recorder families are added
/// as further implementations.
pub trait FlightDataSource: Sized {
    /// What tail number, if any, the source discovered.
    spec fn spec_tail_number(&self) -> Option<Seq<char>>;

    /// What instant, in seconds since the Unix epoch, the source's first
    /// data row carries, if any.
    spec fn spec_first_instant(&self) -> Option<i64>;

    /// What data block the source produces under the given configuration.
    spec fn spec_data_block(&self, config: &FDRConfiguration) -> Result<
        FlightDataBlockModel,
        FlightDataErrorModel,
    >;

    /// The tail number of the aircraft, used for the TAIL field of the FDR
    /// file.
    fn tail_number(&self) -> (r: Option<String>)
        ensures
            r.deep_view() == self.spec_tail_number(),
    ;

    /// The timestamp of the first data row, in seconds since the Unix
    /// epoch, used to date the flight.
    fn timestamp(&self) -> (r: Option<i64>)
        ensures
            r == self.spec_first_instant(),
    ;

    /// The data, and their DREF entries, to be written to the FDR file.
    fn data_block(&self, config: &FDRConfiguration) -> (r: Result<
        FlightDataBlock,
        FlightDataError,
    >)
        ensures
            match r {
                Result::Ok(b) => self.spec_data_block(config) == Result::<
                    FlightDataBlockModel,
                    FlightDataErrorModel,
                >::Ok(b@),
                Result::Err(e) => self.spec_data_block(config) == Result::<
                    FlightDataBlockModel,
                    FlightDataErrorModel,
                >::Err(e@),
            },
    ;
}

impl FDRConfiguration {
    /// The identity to write: the override if present, else the source's
    /// own discovered tail number, else the configured default.
    pub fn tail_number<S: FlightDataSource>(&self, source: &S) -> (r: String)
        ensures
            r@ == resolved_tail_spec(self, source.spec_tail_number()),
    {
        match &self.tail_number_override {
            Option::Some(t) => crate::table::clone_string(t),
            Option::None => match source.tail_number() {
                Option::Some(s) => s,
                Option::None => crate::table::clone_string(&self.defaut_tail_number),
            },
        }
    }
}

/// Builder for FDRConfiguration, the preferred way to create a new
/// FDRConfiguration.
pub struct FDRConfigurationBuilder {
    pub aircraft_model: Option<String>,
    pub default_tail_number: String,
    pub tail_number_override: Option<String>,
    pub strict: bool,
    pub auto_drefs: bool,
    pub allow_nulls: bool,
}

impl Default for FDRConfigurationBuilder {
    /// The defaults: no model, tail number `N12345`, no override, lenient,
    /// mandatory fields only, nulls dropped.
    fn default() -> (r: Self)
        ensures
            r.aircraft_model is None,
            r.default_tail_number@ == "N12345"@,
            r.tail_number_override is None,
            !r.strict,
            !r.auto_drefs,
            !r.allow_nulls,
    {
        Self {
            aircraft_model: None,
            default_tail_number: String::from_str("N12345"),
            tail_number_override: None,
            strict: false,
            auto_drefs: false,
            allow_nulls: false,
        }
    }
}

impl FDRConfigurationBuilder {
    /// The path to an aircraft file, relative to the X-Plane root, to be
    /// used as the aircraft model during replay.
    pub fn aircraft_model(self, model: String) -> (r: Self)
        ensures
            r.aircraft_model == Some(model),
            r.default_tail_number == self.default_tail_number,
            r.tail_number_override == self.tail_number_override,
            r.strict == self.strict,
            r.auto_drefs == self.auto_drefs,
            r.allow_nulls == self.allow_nulls,
    {
        Self { aircraft_model: Some(model), ..self }
    }

    /// If set, allow data records with null values to be written to the FDR
    /// file.
    pub fn allow_nulls(self, allow_nulls: bool) -> (r: Self)
        ensures
            r.allow_nulls == allow_nulls,
            r.aircraft_model == self.aircraft_model,
            r.default_tail_number == self.default_tail_number,
            r.tail_number_override == self.tail_number_override,
            r.strict == self.strict,
            r.auto_drefs == self.auto_drefs,
    {
        Self { allow_nulls, ..self }
    }

    /// If set, automatically map fields in the data source to X-Plane
    /// datarefs.
    pub fn auto_drefs(self, auto_drefs: bool) -> (r: Self)
        ensures
            r.auto_drefs == auto_drefs,
            r.aircraft_model == self.aircraft_model,
            r.default_tail_number == self.default_tail_number,
            r.tail_number_override == self.tail_number_override,
            r.strict == self.strict,
            r.allow_nulls == self.allow_nulls,
    {
        Self { auto_drefs, ..self }
    }

    /// Set the default tail number to use if no tail number is found in the
    /// data source.
    pub fn default_tail_number(self, default_tail_number: String) -> (r: Self)
        ensures
            r.default_tail_number == default_tail_number,
            r.aircraft_model == self.aircraft_model,
            r.tail_number_override == self.tail_number_override,
            r.strict == self.strict,
            r.auto_drefs == self.auto_drefs,
            r.allow_nulls == self.allow_nulls,
    {
        Self { default_tail_number, ..self }
    }

    /// Optionally override the aircraft tail number, if any, that was
    /// discovered in the avionics log.
    pub fn tail_number_override(self, tail_number: Option<String>) -> (r: Self)
        ensures
            r.tail_number_override == tail_number,
            r.aircraft_model == self.aircraft_model,
            r.default_tail_number == self.default_tail_number,
            r.strict == self.strict,
            r.auto_drefs == self.auto_drefs,
            r.allow_nulls == self.allow_nulls,
    {
        Self { tail_number_override: tail_number, ..self }
    }

    /// If set, do not ignore unknown data fields in the avionics log.
    pub fn strict(self, strict: bool) -> (r: Self)
        ensures
            r.strict == strict,
            r.aircraft_model == self.aircraft_model,
            r.default_tail_number == self.default_tail_number,
            r.tail_number_override == self.tail_number_override,
            r.auto_drefs == self.auto_drefs,
            r.allow_nulls == self.allow_nulls,
    {
        Self { strict, ..self }
    }

    /// Consume the builder and return a new FDRConfiguration. A builder
    /// without an aircraft model yields the empty model string.
    pub fn build(self) -> (r: FDRConfiguration)
        ensures
            r.aircraft_model@ == match self.aircraft_model {
                Option::Some(m) => m@,
                Option::None => Seq::<char>::empty(),
            },
            r.defaut_tail_number == self.default_tail_number,
            r.tail_number_override == self.tail_number_override,
            r.strict == self.strict,
            r.auto_drefs == self.auto_drefs,
            r.allow_nulls == self.allow_nulls,
    {
        let aircraft_model = match self.aircraft_model {
            Option::Some(m) => m,
            Option::None => String::new(),
        };
        FDRConfiguration {
            aircraft_model,
            defaut_tail_number: self.default_tail_number,
            tail_number_override: self.tail_number_override,
            strict: self.strict,
            auto_drefs: self.auto_drefs,
            allow_nulls: self.allow_nulls,
        }
    }
}


/// Why an FDR file could not be written.
#[derive(Debug)]
pub enum FDRWriteError {
    /// The source could not produce its data block, or the block lacks the
    /// timestamp column.
    FlightDataError(FlightDataError),
    /// A timestamp cell does not hold the decimal text of an instant.
    TimestampRenderFailure,
}

/// One newline character.
pub open spec fn nl() -> Seq<char> {
    seq!['\n']
}

/// The four fixed leading lines of an FDR file: format family, version,
/// aircraft model, resolved identity.
pub open spec fn preamble_spec(model: Seq<char>, tail: Seq<char>) -> Seq<char> {
    "A"@ + nl() + "4"@ + nl() + "ACFT,"@ + model + nl() + "TAIL,"@ + tail + nl()
}

/// One mapping declaration line per destination reference, each carrying
/// the destination identifier and its scale factor.
pub open spec fn dref_lines_spec(ds: Seq<DataRefModel>) -> Seq<char>
    decreases ds.len(),
{
    if ds.len() == 0 {
        Seq::empty()
    } else {
        "DREF,"@ + ds[0].path + ","@ + ds[0].scale + nl() + dref_lines_spec(ds.drop_first())
    }
}

pub proof fn lemma_dref_lines_snoc(ds: Seq<DataRefModel>, d: DataRefModel)
    ensures
        dref_lines_spec(ds.push(d)) == dref_lines_spec(ds) + ("DREF,"@ + d.path + ","@ + d.scale
            + nl()),
    decreases ds.len(),
{
    if ds.len() == 0 {
        assert(ds.push(d)[0] == d);
        assert(ds.push(d).drop_first() =~= Seq::<DataRefModel>::empty());
        assert(dref_lines_spec(Seq::<DataRefModel>::empty()) == Seq::<char>::empty());
        assert(dref_lines_spec(ds.push(d)) =~= dref_lines_spec(ds) + ("DREF,"@ + d.path + ","@
            + d.scale + nl()));
    } else {
        lemma_dref_lines_snoc(ds.drop_first(), d);
        assert(ds.push(d)[0] == ds[0]);
        assert(ds.push(d).drop_first() =~= ds.drop_first().push(d));
        assert(dref_lines_spec(ds.push(d)) =~= dref_lines_spec(ds) + ("DREF,"@ + d.path + ","@
            + d.scale + nl()));
    }
}

/// The cell of a column at a row index, null where the column is too short.
pub open spec fn cell_at(c: ColumnModel, r: int) -> Option<Seq<char>> {
    if 0 <= r < c.cells.len() {
        c.cells[r]
    } else {
        None
    }
}

/// The text a cell contributes to a data row: its value, or nothing.
pub open spec fn cell_text(c: Option<Seq<char>>) -> Seq<char> {
    match c {
        Option::Some(s) => s,
        Option::None => Seq::empty(),
    }
}

/// Whether every non-null timestamp cell holds the decimal text of an
/// instant representable in 64 bits.
pub open spec fn ts_cells_renderable(cells: Seq<Option<Seq<char>>>) -> bool {
    forall|r: int|
        0 <= r < cells.len() ==> match #[trigger] cells[r] {
            Option::Some(s) => match parse_dec_spec(s) {
                Option::Some(v) => i64::MIN <= v <= i64::MAX,
                Option::None => false,
            },
            Option::None => true,
        }
}

/// A timestamp cell rendered as the `HH:MM:SS` text of its instant's time
/// of day; null stays null.
pub open spec fn hms_cell(c: Option<Seq<char>>) -> Option<Seq<char>> {
    match c {
        Option::Some(s) => match parse_dec_spec(s) {
            Option::Some(v) => Some(hms_chars(sod_of(v))),
            Option::None => None,
        },
        Option::None => None,
    }
}

/// The table with the cells of the column at index `ti` rendered as
/// `HH:MM:SS` clock times.
pub open spec fn ts_transformed(t: TableModel, ti: int) -> TableModel {
    TableModel {
        cols: Seq::new(
            t.cols.len(),
            |i: int| if i == ti {
                ColumnModel {
                    name: t.cols[i].name,
                    vtype: t.cols[i].vtype,
                    cells: t.cols[i].cells.map_values(|c: Option<Seq<char>>| hms_cell(c)),
                }
            } else {
                t.cols[i]
            },
        ),
    }
}

/// Whether some cell of row `r` is null or missing.
pub open spec fn row_has_null_at(t: TableModel, r: int) -> bool {
    exists|i: int| 0 <= i < t.cols.len() && cell_at(#[trigger] t.cols[i], r) is None
}

/// Which rows the body keeps: all of them when nulls are allowed, else only
/// the rows without any null cell.
pub open spec fn keep_rows_mask(t: TableModel, allow_nulls: bool) -> Seq<bool> {
    Seq::new(t.height(), |r: int| allow_nulls || !row_has_null_at(t, r))
}

/// The comma-separated fields of one data row.
pub open spec fn row_fields_at(cols: Seq<ColumnModel>, r: int) -> Seq<Seq<char>> {
    Seq::new(cols.len(), |i: int| cell_text(cell_at(cols[i], r)))
}

/// The body lines from row `r` on: one comma-joined line per kept row.
pub open spec fn rows_text_from(t: TableModel, keep: Seq<bool>, r: int) -> Seq<char>
    decreases t.height() - r,
{
    if r < 0 || r >= t.height() {
        Seq::empty()
    } else {
        (if 0 <= r < keep.len() && keep[r] {
            crate::text::join_spec(row_fields_at(t.cols, r), ',') + nl()
        } else {
            Seq::empty()
        }) + rows_text_from(t, keep, r + 1)
    }
}

/// Whether a block can be rendered: it has a timestamp column and every
/// timestamp cell denotes an instant.
pub open spec fn fdr_render_ok(b: FlightDataBlockModel) -> bool {
    let ti = col_index(b.data.cols, "timestamp"@);
    ti >= 0 && ts_cells_renderable(b.data.cols[ti].cells)
}

/// The body of the FDR file for a block: timestamp column rendered as clock
/// times, rows filtered by the null policy, each row comma-joined.
pub open spec fn fdr_body_spec(b: FlightDataBlockModel, allow_nulls: bool) -> Seq<char> {
    let ti = col_index(b.data.cols, "timestamp"@);
    let t2 = ts_transformed(b.data, ti);
    rows_text_from(t2, keep_rows_mask(t2, allow_nulls), 0)
}

/// The complete FDR text for a configuration, a resolved identity and a
/// block.
pub open spec fn fdr_output_spec(
    config: &FDRConfiguration,
    tail: Seq<char>,
    b: FlightDataBlockModel,
) -> Seq<char> {
    preamble_spec(config.aircraft_model@, tail) + dref_lines_spec(b.drefs) + fdr_body_spec(
        b,
        config.allow_nulls,
    )
}

/// Serializes flight data blocks as FDR text under one configuration.
pub struct FDRWriter {
    pub config: FDRConfiguration,
}

impl FDRWriter {
    /// A writer for the given configuration.
    pub fn new(config: FDRConfiguration) -> (r: Self)
        ensures
            r.config == config,
    {
        Self { config }
    }
}


/// Whether some cell of row `r` is null or missing, decided by scanning.
fn row_has_null(t: &Table, r: usize) -> (res: bool)
    ensures
        res == row_has_null_at(t@, r as int),
{
    let n = t.columns.len();
    let mut i: usize = 0;
    while i < n
        invariant
            n == t.columns.len(),
            0 <= i <= n,
            forall|k: int| 0 <= k < i ==> cell_at(#[trigger] t@.cols[k], r as int) is Some,
        decreases n - i,
    {
        let c = &t.columns[i];
        proof {
            assert(c@ == t@.cols[i as int]);
        }
        if r >= c.cells.len() {
            proof {
                assert(cell_at(t@.cols[i as int], r as int) is None);
            }
            return true;
        }
        proof {
            assert(c.cells.deep_view()[r as int] == c.cells@[r as int].deep_view());
        }
        if c.cells[r].is_none() {
            proof {
                assert(cell_at(t@.cols[i as int], r as int) is None);
            }
            return true;
        }
        proof {
            assert(cell_at(t@.cols[i as int], r as int) is Some);
        }
        i += 1;
    }
    proof {
        assert(!row_has_null_at(t@, r as int));
    }
    false
}

impl FDRWriter {
    /// Appends the complete FDR text for the source to `out`: the fixed
    /// preamble, the aircraft model, the resolved identity, one mapping
    /// declaration per destination reference, and the filtered data rows
    /// with the timestamp column rendered as `HH:MM:SS` clock times.
    ///
    /// On failure nothing is promised beyond what was already appended: the
    /// preamble where the source's block fails, the preamble and mapping
    /// lines where the timestamp column is absent or unrenderable.
    pub fn write<S: FlightDataSource>(&self, source: &S, out: &mut String) -> (r: Result<
        (),
        FDRWriteError,
    >)
        ensures
            r is Ok <==> (source.spec_data_block(&self.config) matches Ok(b) && fdr_render_ok(b)),
            r matches Ok(()) ==> (source.spec_data_block(&self.config) matches Ok(b) && final(out)@
                == old(out)@ + fdr_output_spec(
                &self.config,
                resolved_tail_spec(&self.config, source.spec_tail_number()),
                b,
            )),
            r matches Err(e) ==> match e {
                FDRWriteError::FlightDataError(fe) => match source.spec_data_block(&self.config) {
                    Result::Ok(b) => col_index(b.data.cols, "timestamp"@) == -1 && fe@
                        == FlightDataErrorModel::UnknownColumn("timestamp"@) && final(out)@
                        == old(out)@ + preamble_spec(
                        self.config.aircraft_model@,
                        resolved_tail_spec(&self.config, source.spec_tail_number()),
                    ) + dref_lines_spec(b.drefs),
                    Result::Err(em) => fe@ == em && final(out)@ == old(out)@ + preamble_spec(
                        self.config.aircraft_model@,
                        resolved_tail_spec(&self.config, source.spec_tail_number()),
                    ),
                },
                FDRWriteError::TimestampRenderFailure => (source.spec_data_block(&self.config)
                    matches Ok(b) && col_index(b.data.cols, "timestamp"@) >= 0
                    && !ts_cells_renderable(
                    b.data.cols[col_index(b.data.cols, "timestamp"@)].cells,
                ) && final(out)@ == old(out)@ + preamble_spec(
                    self.config.aircraft_model@,
                    resolved_tail_spec(&self.config, source.spec_tail_number()),
                ) + dref_lines_spec(b.drefs)),
            },
    {
        let ghost base0 = out@;
        let ghost tailv = resolved_tail_spec(&self.config, source.spec_tail_number());
        out.append("A");
        crate::text::push_char(out, '\n');
        out.append("4");
        crate::text::push_char(out, '\n');
        out.append("ACFT,");
        out.append(self.config.aircraft_model.as_str());
        crate::text::push_char(out, '\n');
        out.append("TAIL,");
        let tail = self.config.tail_number(source);
        out.append(tail.as_str());
        crate::text::push_char(out, '\n');
        proof {
            assert(out@ =~= base0 + preamble_spec(self.config.aircraft_model@, tailv));
        }
        let block = match source.data_block(&self.config) {
            Result::Ok(b) => b,
            Result::Err(e) => {
                return Err(FDRWriteError::FlightDataError(e));
            },
        };
        let ghost bm = block@;
        let nd = block.drefs.len();
        let ghost base1 = out@;
        let mut di: usize = 0;
        proof {
            assert(dref_lines_spec(bm.drefs.subrange(0, 0)) == Seq::<char>::empty());
            assert(out@ =~= base1 + dref_lines_spec(bm.drefs.subrange(0, 0)));
        }
        while di < nd
            invariant
                nd == block.drefs.len(),
                0 <= di <= nd,
                bm == block@,
                bm.drefs.len() == nd,
                out@ == base1 + dref_lines_spec(bm.drefs.subrange(0, di as int)),
            decreases nd - di,
        {
            let d = &block.drefs[di];
            proof {
                assert(d@ == bm.drefs[di as int]);
            }
            out.append("DREF,");
            out.append(d.path.as_str());
            out.append(",");
            out.append(d.scale.as_str());
            crate::text::push_char(out, '\n');
            proof {
                lemma_dref_lines_snoc(bm.drefs.subrange(0, di as int), bm.drefs[di as int]);
                assert(bm.drefs.subrange(0, di as int).push(bm.drefs[di as int]) =~= bm
                    .drefs.subrange(0, di + 1));
                assert(out@ =~= base1 + dref_lines_spec(bm.drefs.subrange(0, di + 1)));
            }
            di += 1;
        }
        proof {
            assert(bm.drefs.subrange(0, nd as int) =~= bm.drefs);
        }
        let ti = match block.data.find_column("timestamp") {
            Option::Some(i) => i,
            Option::None => {
                return Err(
                    FDRWriteError::FlightDataError(
                        FlightDataError::UnknownColumn(String::from_str("timestamp")),
                    ),
                );
            },
        };
        proof {
            assert(block.data.columns@[ti as int]@ == bm.data.cols[ti as int]);
            assert(out@ =~= old(out)@ + preamble_spec(self.config.aircraft_model@, tailv)
                + dref_lines_spec(bm.drefs));
        }
        let m = block.data.columns[ti].cells.len();
        let ghost tsc = bm.data.cols[ti as int].cells;
        let ghost newcells_spec = tsc.map_values(|c: Option<Seq<char>>| hms_cell(c));
        let mut newcells: Vec<Option<String>> = Vec::new();
        let mut rr: usize = 0;
        proof {
            assert(tsc.len() == m);
            assert(newcells_spec.len() == m);
            assert(newcells.deep_view() =~~= newcells_spec.subrange(0, 0));
        }
        while rr < m
            invariant
                0 <= rr <= m,
                ti < block.data.columns.len(),
                bm == block@,
                source.spec_data_block(&self.config) == Result::<
                    FlightDataBlockModel,
                    FlightDataErrorModel,
                >::Ok(bm),
                ti as int == col_index(bm.data.cols, "timestamp"@),
                tailv == resolved_tail_spec(&self.config, source.spec_tail_number()),
                out@ == old(out)@ + preamble_spec(self.config.aircraft_model@, tailv)
                    + dref_lines_spec(bm.drefs),
                bm.data.cols[ti as int].cells == tsc,
                tsc.len() == m,
                m == block.data.columns@[ti as int].cells.len(),
                newcells_spec == tsc.map_values(|c: Option<Seq<char>>| hms_cell(c)),
                newcells_spec.len() == m,
                forall|k: int|
                    0 <= k < rr ==> match #[trigger] tsc[k] {
                        Option::Some(s) => match parse_dec_spec(s) {
                            Option::Some(v) => i64::MIN <= v <= i64::MAX,
                            Option::None => false,
                        },
                        Option::None => true,
                    },
                newcells.deep_view() == newcells_spec.subrange(0, rr as int),
            decreases m - rr,
        {
            proof {
                assert(block.data.columns@[ti as int]@ == bm.data.cols[ti as int]);
                assert(block.data.columns[ti as int].cells.deep_view()[rr as int] == block
                    .data.columns[ti as int].cells@[rr as int].deep_view());
            }
            let cell: Option<String> = match &block.data.columns[ti].cells[rr] {
                Option::Some(s) => {
                    match crate::num::parse_dec_i64(s.as_str()) {
                        Option::Some(v) => Some(crate::num::epoch_to_hms(v)),
                        Option::None => {
                            proof {
                                assert(tsc[rr as int] == Some(s@));
                                assert(!ts_cells_renderable(tsc));
                            }
                            return Err(FDRWriteError::TimestampRenderFailure);
                        },
                    }
                },
                Option::None => None,
            };
            let ghost oldn = newcells.deep_view();
            proof {
                assert(oldn.len() == newcells@.len());
                assert(cell.deep_view() == hms_cell(tsc[rr as int]));
                assert(cell.deep_view() == newcells_spec[rr as int]);
            }
            newcells.push(cell);
            proof {
                assert(newcells.deep_view() =~~= oldn.push(newcells_spec[rr as int]));
                assert(newcells.deep_view() =~~= newcells_spec.subrange(0, rr + 1));
            }
            rr += 1;
        }
        proof {
            assert(newcells.deep_view() =~~= newcells_spec);
            assert(ts_cells_renderable(tsc));
        }
        let ghost t2spec = ts_transformed(bm.data, ti as int);
        let w = block.data.columns.len();
        let mut t2cols: Vec<Column> = Vec::new();
        let mut i: usize = 0;
        proof {
            assert(t2spec.cols.len() == w);
            assert(crate::table::cols_of(t2cols@) =~~= t2spec.cols.subrange(0, 0));
        }
        while i < ti
            invariant
                0 <= i <= ti,
                ti < w,
                w == block.data.columns.len(),
                bm == block@,
                t2spec == ts_transformed(bm.data, ti as int),
                t2spec.cols.len() == w,
                crate::table::cols_of(t2cols@) == t2spec.cols.subrange(0, i as int),
            decreases ti - i,
        {
            let c = crate::table::duplicate_column(&block.data.columns[i]);
            let ghost oldg = crate::table::cols_of(t2cols@);
            proof {
                assert(oldg.len() == t2cols@.len());
                assert(c@ == bm.data.cols[i as int]);
                assert(t2spec.cols[i as int] == bm.data.cols[i as int]);
            }
            t2cols.push(c);
            proof {
                assert(crate::table::cols_of(t2cols@) =~~= oldg.push(t2spec.cols[i as int]));
                assert(crate::table::cols_of(t2cols@) =~~= t2spec.cols.subrange(0, i + 1));
            }
            i += 1;
        }
        let tname = crate::table::clone_string(&block.data.columns[ti].name);
        let tvt = block.data.columns[ti].vtype;
        let ghost oldg2 = crate::table::cols_of(t2cols@);
        proof {
            assert(oldg2.len() == t2cols@.len());
        }
        t2cols.push(Column { name: tname, vtype: tvt, cells: newcells });
        proof {
            assert(block.data.columns@[ti as int]@ == bm.data.cols[ti as int]);
            assert(crate::table::cols_of(t2cols@) =~~= oldg2.push(t2spec.cols[ti as int]));
            assert(crate::table::cols_of(t2cols@) =~~= t2spec.cols.subrange(0, ti + 1));
        }
        let mut i2: usize = ti + 1;
        while i2 < w
            invariant
                ti < i2 <= w || (ti + 1 == i2 && i2 <= w) || i2 <= w,
                ti < w,
                ti + 1 <= i2 <= w,
                w == block.data.columns.len(),
                bm == block@,
                t2spec == ts_transformed(bm.data, ti as int),
                t2spec.cols.len() == w,
                crate::table::cols_of(t2cols@) == t2spec.cols.subrange(0, i2 as int),
            decreases w - i2,
        {
            let c = crate::table::duplicate_column(&block.data.columns[i2]);
            let ghost oldg = crate::table::cols_of(t2cols@);
            proof {
                assert(oldg.len() == t2cols@.len());
                assert(c@ == bm.data.cols[i2 as int]);
                assert(t2spec.cols[i2 as int] == bm.data.cols[i2 as int]);
            }
            t2cols.push(c);
            proof {
                assert(crate::table::cols_of(t2cols@) =~~= oldg.push(t2spec.cols[i2 as int]));
                assert(crate::table::cols_of(t2cols@) =~~= t2spec.cols.subrange(0, i2 + 1));
            }
            i2 += 1;
        }
        proof {
            assert(t2spec.cols.subrange(0, w as int) =~= t2spec.cols);
        }
        let t2 = Table { columns: t2cols };
        proof {
            assert(t2@ =~~= t2spec);
        }
        let h = t2.height();
        let ghost keepv = keep_rows_mask(t2spec, self.config.allow_nulls);
        let mut keep: Vec<bool> = Vec::new();
        let mut kr: usize = 0;
        proof {
            assert(keepv.len() == h);
            assert(keep@ =~= keepv.subrange(0, 0));
        }
        while kr < h
            invariant
                0 <= kr <= h,
                h == t2@.height(),
                t2@ == t2spec,
                keepv == keep_rows_mask(t2spec, self.config.allow_nulls),
                keepv.len() == h,
                keep@ == keepv.subrange(0, kr as int),
            decreases h - kr,
        {
            let k: bool = if self.config.allow_nulls {
                true
            } else {
                !row_has_null(&t2, kr)
            };
            let ghost oldk = keep@;
            proof {
                assert(k == keepv[kr as int]);
            }
            keep.push(k);
            proof {
                assert(keep@ =~= oldk.push(keepv[kr as int]));
                assert(keep@ =~= keepv.subrange(0, kr + 1));
            }
            kr += 1;
        }
        proof {
            assert(keep@ =~= keepv);
        }
        let ghost base2 = out@;
        proof {
            assert(base2 == old(out)@ + preamble_spec(self.config.aircraft_model@, tailv)
                + dref_lines_spec(bm.drefs));
        }
        let mut r: usize = 0;
        while r < h
            invariant
                0 <= r <= h,
                h == t2@.height(),
                t2@ == t2spec,
                bm == block@,
                source.spec_data_block(&self.config) == Result::<
                    FlightDataBlockModel,
                    FlightDataErrorModel,
                >::Ok(bm),
                ti as int == col_index(bm.data.cols, "timestamp"@),
                ts_cells_renderable(bm.data.cols[ti as int].cells),
                tailv == resolved_tail_spec(&self.config, source.spec_tail_number()),
                t2spec == ts_transformed(bm.data, ti as int),
                base2 == old(out)@ + preamble_spec(self.config.aircraft_model@, tailv)
                    + dref_lines_spec(bm.drefs),
                keepv == keep_rows_mask(t2spec, self.config.allow_nulls),
                keepv.len() == h,
                keep@ == keepv,
                out@ + rows_text_from(t2spec, keepv, r as int) == base2 + rows_text_from(
                    t2spec,
                    keepv,
                    0,
                ),
            decreases h - r,
        {
            proof {
                assert(rows_text_from(t2spec, keepv, r as int) == (if 0 <= r < keepv.len()
                    && keepv[r as int] {
                    crate::text::join_spec(row_fields_at(t2spec.cols, r as int), ',') + nl()
                } else {
                    Seq::<char>::empty()
                }) + rows_text_from(t2spec, keepv, r + 1));
            }
            if keep[r] {
                let w2 = t2.columns.len();
                let mut fields: Vec<String> = Vec::new();
                let mut fi: usize = 0;
                let ghost frow = row_fields_at(t2spec.cols, r as int);
                proof {
                    assert(frow.len() == w2);
                    assert(fields.deep_view() =~~= frow.subrange(0, 0));
                }
                while fi < w2
                    invariant
                        0 <= fi <= w2,
                        w2 == t2.columns.len(),
                        t2@ == t2spec,
                        0 <= r < t2@.height(),
                        frow == row_fields_at(t2spec.cols, r as int),
                        frow.len() == w2,
                        fields.deep_view() == frow.subrange(0, fi as int),
                    decreases w2 - fi,
                {
                    let c = &t2.columns[fi];
                    proof {
                        assert(c@ == t2spec.cols[fi as int]);
                    }
                    let f: String = if r < c.cells.len() {
                        proof {
                            assert(c.cells.deep_view()[r as int] == c.cells@[
                                r as int
                            ].deep_view());
                        }
                        match &c.cells[r] {
                            Option::Some(sv) => crate::table::clone_string(sv),
                            Option::None => String::new(),
                        }
                    } else {
                        String::new()
                    };
                    let ghost oldf = fields.deep_view();
                    proof {
                        assert(oldf.len() == fields@.len());
                        assert(f@ == cell_text(cell_at(t2spec.cols[fi as int], r as int)));
                        assert(f@ == frow[fi as int]);
                    }
                    fields.push(f);
                    proof {
                        assert(fields.deep_view() =~~= oldf.push(frow[fi as int]));
                        assert(fields.deep_view() =~~= frow.subrange(0, fi + 1));
                    }
                    fi += 1;
                }
                proof {
                    assert(fields.deep_view() =~~= frow);
                }
                let line = crate::text::join_strs(&fields, ',');
                let ghost oldout = out@;
                out.append(line.as_str());
                crate::text::push_char(out, '\n');
                proof {
                    assert(line@ == crate::text::join_spec(frow, ','));
                    assert(out@ =~= oldout + (crate::text::join_spec(
                        row_fields_at(t2spec.cols, r as int),
                        ',',
                    ) + nl()));
                    assert(out@ + rows_text_from(t2spec, keepv, r + 1) =~= base2
                        + rows_text_from(t2spec, keepv, 0));
                }
            } else {
                proof {
                    assert(rows_text_from(t2spec, keepv, r as int) =~= rows_text_from(
                        t2spec,
                        keepv,
                        r + 1,
                    ));
                }
            }
            r += 1;
        }
        proof {
            assert(rows_text_from(t2spec, keepv, h as int) == Seq::<char>::empty());
            assert(out@ =~= base2 + rows_text_from(t2spec, keepv, 0));
            assert(out@ =~= old(out)@ + fdr_output_spec(&self.config, tailv, bm));
        }
        Ok(())
    }
}


/// The minimum schema required for the data block: the seven mandatory
/// fields, the timestamp first.
pub fn required_schema() -> (r: Vec<crate::garmin::SchemaField>)
    ensures
        crate::garmin::sfields_of(r@) == seq![
            crate::garmin::SchemaFieldModel {
                name: "timestamp"@,
                vtype: crate::table::ValueType::Timestamp,
            },
            crate::garmin::SchemaFieldModel {
                name: "longitude"@,
                vtype: crate::table::ValueType::Float,
            },
            crate::garmin::SchemaFieldModel {
                name: "latitude"@,
                vtype: crate::table::ValueType::Float,
            },
            crate::garmin::SchemaFieldModel {
                name: "altitude"@,
                vtype: crate::table::ValueType::Float,
            },
            crate::garmin::SchemaFieldModel {
                name: "heading"@,
                vtype: crate::table::ValueType::Float,
            },
            crate::garmin::SchemaFieldModel { name: "pitch"@, vtype: crate::table::ValueType::Float },
            crate::garmin::SchemaFieldModel { name: "roll"@, vtype: crate::table::ValueType::Float },
        ],
{
    let mut r: Vec<crate::garmin::SchemaField> = Vec::new();
    r.push(crate::garmin::SchemaField {
        name: String::from_str("timestamp"),
        vtype: crate::table::ValueType::Timestamp,
    });
    r.push(crate::garmin::SchemaField {
        name: String::from_str("longitude"),
        vtype: crate::table::ValueType::Float,
    });
    r.push(crate::garmin::SchemaField {
        name: String::from_str("latitude"),
        vtype: crate::table::ValueType::Float,
    });
    r.push(crate::garmin::SchemaField {
        name: String::from_str("altitude"),
        vtype: crate::table::ValueType::Float,
    });
    r.push(crate::garmin::SchemaField {
        name: String::from_str("heading"),
        vtype: crate::table::ValueType::Float,
    });
    r.push(crate::garmin::SchemaField {
        name: String::from_str("pitch"),
        vtype: crate::table::ValueType::Float,
    });
    r.push(crate::garmin::SchemaField {
        name: String::from_str("roll"),
        vtype: crate::table::ValueType::Float,
    });
    proof {
        assert(crate::garmin::sfields_of(r@) =~~= seq![
            crate::garmin::SchemaFieldModel {
                name: "timestamp"@,
                vtype: crate::table::ValueType::Timestamp,
            },
            crate::garmin::SchemaFieldModel {
                name: "longitude"@,
                vtype: crate::table::ValueType::Float,
            },
            crate::garmin::SchemaFieldModel {
                name: "latitude"@,
                vtype: crate::table::ValueType::Float,
            },
            crate::garmin::SchemaFieldModel {
                name: "altitude"@,
                vtype: crate::table::ValueType::Float,
            },
            crate::garmin::SchemaFieldModel {
                name: "heading"@,
                vtype: crate::table::ValueType::Float,
            },
            crate::garmin::SchemaFieldModel { name: "pitch"@, vtype: crate::table::ValueType::Float },
            crate::garmin::SchemaFieldModel { name: "roll"@, vtype: crate::table::ValueType::Float },
        ]);
    }
    r
}

/// The human-readable text of a flight data error, one line.
pub open spec fn flight_data_error_text(e: FlightDataErrorModel) -> Seq<char> {
    match e {
        FlightDataErrorModel::MissingDrefs(ns) => "Missing DREFs for columns: "@
            + crate::text::join_spec(ns, ','),
        FlightDataErrorModel::UnknownColumn(n) => "Unknown column: "@ + n,
        FlightDataErrorModel::InsufficientData => "Insufficient data"@,
    }
}

impl FlightDataError {
    /// The error rendered as one line of text.
    pub fn message(&self) -> (r: String)
        ensures
            r@ == flight_data_error_text(self@),
    {
        match self {
            FlightDataError::MissingDrefs(ns) => {
                let mut s = String::from_str("Missing DREFs for columns: ");
                let joined = crate::text::join_strs(ns, ',');
                s.append(joined.as_str());
                s
            },
            FlightDataError::UnknownColumn(n) => {
                let mut s = String::from_str("Unknown column: ");
                s.append(n.as_str());
                s
            },
            FlightDataError::InsufficientData => String::from_str("Insufficient data"),
        }
    }
}


/// The human-readable text of a write error, one line.
pub open spec fn fdr_write_error_text(e: &FDRWriteError) -> Seq<char> {
    match e {
        FDRWriteError::FlightDataError(fe) => "Flight data error: "@ + flight_data_error_text(
            fe@,
        ),
        FDRWriteError::TimestampRenderFailure => "Timestamp render failure"@,
    }
}

impl FDRWriteError {
    /// The error rendered as one line of text.
    pub fn message(&self) -> (r: String)
        ensures
            r@ == fdr_write_error_text(self),
    {
        match self {
            FDRWriteError::FlightDataError(fe) => {
                let mut s = String::from_str("Flight data error: ");
                let inner = fe.message();
                s.append(inner.as_str());
                s
            },
            FDRWriteError::TimestampRenderFailure => String::from_str("Timestamp render failure"),
        }
    }
}

} // verus!
