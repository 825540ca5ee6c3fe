//! Column-major tables: a schema and, for every field, one column of cells.

use vstd::prelude::*;

verus! {

/// The declared type of a column.
#[derive(Clone, Copy, Debug, PartialEq, Eq, Structural, Hash)]
pub enum DataType {
    Int8,
    Int16,
    Int32,
    Int64,
    UInt8,
    UInt16,
    UInt32,
    UInt64,
    Boolean,
    Utf8,
    Binary,
}

impl DataType {
    /// Whether values of this type are integers.
    pub open spec fn spec_is_integer(self) -> bool {
        !(self is Boolean || self is Utf8 || self is Binary)
    }

    /// The least value of an integer type; 0 for the other types.
    pub open spec fn min_value(self) -> int {
        match self {
            DataType::Int8 => -0x80,
            DataType::Int16 => -0x8000,
            DataType::Int32 => -0x8000_0000,
            DataType::Int64 => -0x8000_0000_0000_0000,
            _ => 0,
        }
    }

    /// The greatest value of an integer type; 0 for the other types.
    pub open spec fn max_value(self) -> int {
        match self {
            DataType::Int8 => 0x7f,
            DataType::Int16 => 0x7fff,
            DataType::Int32 => 0x7fff_ffff,
            DataType::Int64 => 0x7fff_ffff_ffff_ffff,
            DataType::UInt8 => 0xff,
            DataType::UInt16 => 0xffff,
            DataType::UInt32 => 0xffff_ffff,
            DataType::UInt64 => 0xffff_ffff_ffff_ffff,
            _ => 0,
        }
    }

    /// Whether an integer type has no negative values.
    pub open spec fn spec_is_unsigned(self) -> bool {
        self is UInt8 || self is UInt16 || self is UInt32 || self is UInt64
    }

    /// Whether values of this type are integers.
    #[verifier::when_used_as_spec(spec_is_integer)]
    pub fn is_integer(self) -> (b: bool)
        ensures
            b == self.spec_is_integer(),
    {
        match self {
            DataType::Boolean | DataType::Utf8 | DataType::Binary => false,
            _ => true,
        }
    }

    /// The least and the greatest value of an integer type, `None` for the
    /// other types.
    pub fn int_bounds(self) -> (r: Option<(i128, i128)>)
        ensures
            r is Some <==> self.spec_is_integer(),
            r matches Some((lo, hi)) ==> lo == self.min_value() && hi == self.max_value(),
    {
        match self {
            DataType::Int8 => Some((-0x80, 0x7f)),
            DataType::Int16 => Some((-0x8000, 0x7fff)),
            DataType::Int32 => Some((-0x8000_0000, 0x7fff_ffff)),
            DataType::Int64 => Some((-0x8000_0000_0000_0000, 0x7fff_ffff_ffff_ffff)),
            DataType::UInt8 => Some((0, 0xff)),
            DataType::UInt16 => Some((0, 0xffff)),
            DataType::UInt32 => Some((0, 0xffff_ffff)),
            DataType::UInt64 => Some((0, 0xffff_ffff_ffff_ffff)),
            _ => None,
        }
    }
}

/// One value of a table.
#[derive(Debug)]
pub enum Cell {
    Null,
    Int(i128),
    Bool(bool),
    Text(String),
    Bytes(Vec<u8>),
}

/// What a cell holds.
pub enum CellValue {
    Null,
    Int(int),
    Bool(bool),
    Text(Seq<char>),
    Bytes(Seq<u8>),
}

impl View for Cell {
    type V = CellValue;

    open spec fn view(&self) -> CellValue {
        match self {
            Cell::Null => CellValue::Null,
            Cell::Int(v) => CellValue::Int(*v as int),
            Cell::Bool(b) => CellValue::Bool(*b),
            Cell::Text(s) => CellValue::Text(s@),
            Cell::Bytes(b) => CellValue::Bytes(b@),
        }
    }
}

impl Clone for Cell {
    fn clone(&self) -> (r: Cell)
        ensures
            r@ == self@,
    {
        match self {
            Cell::Null => Cell::Null,
            Cell::Int(v) => Cell::Int(*v),
            Cell::Bool(b) => Cell::Bool(*b),
            Cell::Text(s) => Cell::Text(s.clone()),
            Cell::Bytes(b) => {
                let copy = b.clone();
                assert(copy@ =~= b@);
                Cell::Bytes(copy)
            },
        }
    }
}

/// The name, the type and the nullability of one column.
#[derive(Debug)]
pub struct Field {
    pub name: String,
    pub data_type: DataType,
    pub nullable: bool,
}

/// What a field states.
pub struct FieldSpec {
    pub name: Seq<char>,
    pub data_type: DataType,
    pub nullable: bool,
}

impl View for Field {
    type V = FieldSpec;

    open spec fn view(&self) -> FieldSpec {
        FieldSpec { name: self.name@, data_type: self.data_type, nullable: self.nullable }
    }
}

impl Clone for Field {
    fn clone(&self) -> (r: Field)
        ensures
            r@ == self@,
    {
        Field { name: self.name.clone(), data_type: self.data_type, nullable: self.nullable }
    }
}

impl Field {
    /// A field with the given name, type and nullability.
    pub fn new(name: &str, data_type: DataType, nullable: bool) -> (f: Field)
        ensures
            f@ == (FieldSpec { name: name@, data_type, nullable }),
    {
        Field { name: String::from_str(name), data_type, nullable }
    }
}

/// The fields of a table, in column order.
#[derive(Debug)]
pub struct Schema {
    pub fields: Vec<Field>,
}

impl View for Schema {
    type V = Seq<FieldSpec>;

    open spec fn view(&self) -> Seq<FieldSpec> {
        Seq::new(self.fields@.len(), |i: int| self.fields@[i]@)
    }
}

/// Whether a cell may stand in a column of the given type and nullability.
pub open spec fn cell_conforms(field: FieldSpec, cell: CellValue) -> bool {
    match cell {
        CellValue::Null => field.nullable,
        CellValue::Int(v) => field.data_type.spec_is_integer() && field.data_type.min_value() <= v
            <= field.data_type.max_value(),
        CellValue::Bool(_) => field.data_type is Boolean,
        CellValue::Text(_) => field.data_type is Utf8,
        CellValue::Bytes(_) => field.data_type is Binary,
    }
}

/// The position of the first field with the given name, or -1 where no field
/// has it.
pub open spec fn field_position(fields: Seq<FieldSpec>, name: Seq<char>) -> int
    decreases fields.len(),
{
    if fields.len() == 0 {
        -1
    } else if fields[0].name == name {
        0
    } else {
        let rest = field_position(fields.skip(1), name);
        if rest < 0 {
            -1
        } else {
            rest + 1
        }
    }
}

/// `field_position` finds a field of that name, and the first one.
pub proof fn lemma_field_position(fields: Seq<FieldSpec>, name: Seq<char>)
    ensures
        -1 <= field_position(fields, name) < fields.len(),
        field_position(fields, name) >= 0 ==> fields[field_position(fields, name)].name == name,
        forall|i: int|
            0 <= i < fields.len() && (field_position(fields, name) < 0 || i < field_position(
                fields,
                name,
            )) ==> (#[trigger] fields[i]).name != name,
    decreases fields.len(),
{
    if fields.len() > 0 && fields[0].name != name {
        let rest = fields.skip(1);
        lemma_field_position(rest, name);
        let p = field_position(rest, name);
        assert forall|i: int|
            0 <= i < fields.len() && (field_position(fields, name) < 0 || i < field_position(
                fields,
                name,
            )) implies (#[trigger] fields[i]).name != name by {
            if i > 0 {
                assert(fields[i] == rest[i - 1]);
            }
        }
    }
}

/// Whether two texts hold the same characters.
pub fn same_text(a: &str, b: &str) -> (r: bool)
    ensures
        r == (a@ == b@),
{
    let x = a.as_bytes();
    let y = b.as_bytes();
    proof {
        vstd::utf8::encode_utf8_decode_utf8(a@);
        vstd::utf8::encode_utf8_decode_utf8(b@);
        assert(x@ == vstd::utf8::encode_utf8(a@));
        assert(y@ == vstd::utf8::encode_utf8(b@));
    }
    if x.len() != y.len() {
        return false;
    }
    let mut i: usize = 0;
    while i < x.len()
        invariant
            i <= x.len(),
            x.len() == y.len(),
            x@ == vstd::utf8::encode_utf8(a@),
            y@ == vstd::utf8::encode_utf8(b@),
            forall|j: int| 0 <= j < i ==> x@[j] == y@[j],
        decreases x.len() - i,
    {
        if x[i] != y[i] {
            assert(x@[i as int] != y@[i as int]);
            return false;
        }
        i += 1;
    }
    assert(x@ =~= y@);
    true
}

impl Schema {
    /// A schema of the given fields.
    pub fn new(fields: Vec<Field>) -> (s: Schema)
        ensures
            s.fields == fields,
    {
        Schema { fields }
    }

    /// The number of fields.
    pub fn len(&self) -> (n: usize)
        ensures
            n == self@.len(),
    {
        self.fields.len()
    }

    /// The position of the first field with the given name.
    pub fn index_of(&self, name: &str) -> (r: Option<usize>)
        ensures
            r is Some <==> field_position(self@, name@) >= 0,
            r matches Some(i) ==> i == field_position(self@, name@),
    {
        let mut i: usize = 0;
        assert(self@.skip(0) =~= self@);
        while i < self.fields.len()
            invariant
                i <= self.fields.len(),
                field_position(self@.skip(i as int), name@) < 0 ==> field_position(self@, name@)
                    < 0,
                field_position(self@.skip(i as int), name@) >= 0 ==> field_position(self@, name@)
                    == i + field_position(self@.skip(i as int), name@),
            decreases self.fields.len() - i,
        {
            let ghost rest = self@.skip(i as int);
            assert(rest[0] == self@[i as int]);
            assert(rest.skip(1) =~= self@.skip(i + 1));
            if same_text(self.fields[i].name.as_str(), name) {
                return Some(i);
            }
            i += 1;
        }
        assert(self@.skip(i as int).len() == 0);
        None
    }

    /// Whether two schemas state the same fields in the same order.
    pub fn same_as(&self, other: &Schema) -> (r: bool)
        ensures
            r == (self@ == other@),
    {
        if self.fields.len() != other.fields.len() {
            assert(self@.len() != other@.len());
            return false;
        }
        let mut i: usize = 0;
        while i < self.fields.len()
            invariant
                i <= self.fields.len(),
                self.fields.len() == other.fields.len(),
                forall|j: int| 0 <= j < i ==> self@[j] == other@[j],
            decreases self.fields.len() - i,
        {
            let a = &self.fields[i];
            let b = &other.fields[i];
            if !same_text(a.name.as_str(), b.name.as_str()) || a.data_type != b.data_type
                || a.nullable != b.nullable {
                assert(self@[i as int] != other@[i as int]);
                return false;
            }
            i += 1;
        }
        assert(self@ =~= other@);
        true
    }
}

impl Clone for Schema {
    fn clone(&self) -> (r: Schema)
        ensures
            r@ == self@,
    {
        let mut fields: Vec<Field> = Vec::new();
        let mut i: usize = 0;
        while i < self.fields.len()
            invariant
                i <= self.fields.len(),
                fields@.len() == i,
                forall|j: int| 0 <= j < i ==> fields@[j]@ == self.fields@[j]@,
            decreases self.fields.len() - i,
        {
            fields.push(self.fields[i].clone());
            i += 1;
        }
        let r = Schema { fields };
        assert(r@ =~= self@);
        r
    }
}

/// What a column of cells holds.
pub open spec fn cells_view(cells: Seq<Cell>) -> Seq<CellValue> {
    Seq::new(cells.len(), |r: int| cells[r]@)
}

/// What a list of columns holds.
pub open spec fn columns_view(columns: Seq<Vec<Cell>>) -> Seq<Seq<CellValue>> {
    Seq::new(columns.len(), |c: int| cells_view(columns[c]@))
}

/// What a table holds: its fields, one column of values for each field, and
/// the number of rows.
pub struct TableView {
    pub fields: Seq<FieldSpec>,
    pub columns: Seq<Seq<CellValue>>,
    pub rows: nat,
}

impl TableView {
    /// Every field has a column, every column has `rows` cells, and every
    /// cell conforms to its field.
    pub open spec fn wf(self) -> bool {
        &&& self.columns.len() == self.fields.len()
        &&& forall|c: int|
            0 <= c < self.columns.len() ==> (#[trigger] self.columns[c]).len() == self.rows
        &&& forall|c: int, r: int|
            0 <= c < self.columns.len() && 0 <= r < self.rows ==> cell_conforms(
                self.fields[c],
                #[trigger] self.columns[c][r],
            )
    }

    /// The values of row `r`, in column order.
    pub open spec fn row(self, r: int) -> Seq<CellValue> {
        Seq::new(self.columns.len(), |c: int| self.columns[c][r])
    }

    /// The rows of the table, in row order.
    pub open spec fn row_seq(self) -> Seq<Seq<CellValue>> {
        Seq::new(self.rows, |r: int| self.row(r))
    }
}

/// Why a schema and a list of columns do not make a table.
#[derive(Clone, Copy, Debug, PartialEq, Eq, Structural)]
pub enum TableError {
    /// The number of columns differs from the number of fields.
    ColumnCount,
    /// Two columns differ in length.
    RowCount,
    /// A cell does not conform to the field of its column.
    CellType,
}

/// A schema with one column of cells for each field. Every column has the
/// same number of cells and every cell conforms to its field.
#[derive(Debug)]
pub struct Table {
    schema: Schema,
    columns: Vec<Vec<Cell>>,
    rows: usize,
}

impl View for Table {
    type V = TableView;

    closed spec fn view(&self) -> TableView {
        TableView {
            fields: self.schema@,
            columns: columns_view(self.columns@),
            rows: self.rows as nat,
        }
    }
}

/// Whether a cell may stand in a column of the given field.
pub fn conforms(field: &Field, cell: &Cell) -> (b: bool)
    ensures
        b == cell_conforms(field@, cell@),
{
    match cell {
        Cell::Null => field.nullable,
        Cell::Int(v) => match field.data_type.int_bounds() {
            Some((lo, hi)) => lo <= *v && *v <= hi,
            None => false,
        },
        Cell::Bool(_) => field.data_type == DataType::Boolean,
        Cell::Text(_) => field.data_type == DataType::Utf8,
        Cell::Bytes(_) => field.data_type == DataType::Binary,
    }
}

impl Table {
    /// The invariant of every table.
    #[verifier::type_invariant]
    pub open spec fn inv(self) -> bool {
        self@.wf()
    }

    /// The table of the given parts.
    pub(crate) fn from_parts(schema: Schema, columns: Vec<Vec<Cell>>, rows: usize) -> (t: Table)
        requires
            (TableView { fields: schema@, columns: columns_view(columns@), rows: rows as nat }).wf(),
        ensures
            t@ == (TableView { fields: schema@, columns: columns_view(columns@), rows: rows as nat }),
    {
        Table { schema, columns, rows }
    }

    /// The schema, the columns and the number of rows.
    pub(crate) fn into_parts(self) -> (parts: (Schema, Vec<Vec<Cell>>, usize))
        ensures
            self@ == (TableView {
                fields: parts.0@,
                columns: columns_view(parts.1@),
                rows: parts.2 as nat,
            }),
            self@.wf(),
    {
        proof {
            use_type_invariant(&self);
        }
        (self.schema, self.columns, self.rows)
    }

    /// The table of a schema and its columns, where they fit together; else
    /// the first reason why they do not, in the order of `TableError`.
    pub fn try_new(schema: Schema, columns: Vec<Vec<Cell>>) -> (r: Result<Table, TableError>)
        ensures
            match r {
                Ok(t) => {
                    &&& t@.fields == schema@
                    &&& t@.columns == columns_view(columns@)
                    &&& t@.rows == if columns@.len() == 0 {
                        0
                    } else {
                        columns@[0]@.len()
                    }
                    &&& t@.wf()
                },
                Err(TableError::ColumnCount) => columns@.len() != schema@.len(),
                Err(TableError::RowCount) => {
                    &&& columns@.len() == schema@.len()
                    &&& exists|c: int|
                        0 <= c < columns@.len() && (#[trigger] columns@[c])@.len() != columns@[0]@.len()
                },
                Err(TableError::CellType) => {
                    &&& columns@.len() == schema@.len()
                    &&& forall|c: int|
                        0 <= c < columns@.len() ==> (#[trigger] columns@[c])@.len()
                            == columns@[0]@.len()
                    &&& exists|c: int, r: int|
                        0 <= c < columns@.len() && 0 <= r < columns@[c]@.len() && !cell_conforms(
                            schema@[c],
                            #[trigger] columns@[c]@[r]@,
                        )
                },
            },
    {
        if columns.len() != schema.fields.len() {
            return Err(TableError::ColumnCount);
        }
        let rows: usize = if columns.len() == 0 {
            0
        } else {
            columns[0].len()
        };
        let mut c: usize = 0;
        while c < columns.len()
            invariant
                c <= columns.len(),
                columns.len() == schema.fields.len(),
                columns.len() > 0 ==> rows == columns@[0]@.len(),
                forall|k: int| 0 <= k < c ==> (#[trigger] columns@[k])@.len() == rows,
            decreases columns.len() - c,
        {
            if columns[c].len() != rows {
                assert(columns@[c as int]@.len() != columns@[0]@.len());
                return Err(TableError::RowCount);
            }
            c += 1;
        }
        let mut c: usize = 0;
        while c < columns.len()
            invariant
                c <= columns.len(),
                columns.len() == schema.fields.len(),
                forall|k: int| 0 <= k < columns.len() ==> (#[trigger] columns@[k])@.len() == rows,
                forall|k: int, r: int|
                    0 <= k < c && 0 <= r < rows ==> cell_conforms(
                        schema@[k],
                        #[trigger] columns@[k]@[r]@,
                    ),
            decreases columns.len() - c,
        {
            let column = &columns[c];
            let field = &schema.fields[c];
            let mut r: usize = 0;
            while r < rows
                invariant
                    r <= rows,
                    c < columns.len(),
                    columns.len() == schema.fields.len(),
                    column == columns@[c as int],
                    column@.len() == rows,
                    field == schema.fields@[c as int],
                    forall|k: int|
                        0 <= k < columns.len() ==> (#[trigger] columns@[k])@.len() == rows,
                    forall|j: int| 0 <= j < r ==> cell_conforms(field@, #[trigger] column@[j]@),
                decreases rows - r,
            {
                if !conforms(field, &column[r]) {
                    assert(!cell_conforms(schema@[c as int], columns@[c as int]@[r as int]@));
                    return Err(TableError::CellType);
                }
                r += 1;
            }
            c += 1;
        }
        let ghost view = TableView {
            fields: schema@,
            columns: columns_view(columns@),
            rows: rows as nat,
        };
        assert(view.wf()) by {
            assert forall|k: int, r: int|
                0 <= k < view.columns.len() && 0 <= r < view.rows implies cell_conforms(
                view.fields[k],
                #[trigger] view.columns[k][r],
            ) by {
                assert(view.columns[k][r] == columns@[k]@[r]@);
            }
        }
        Ok(Table { schema, columns, rows })
    }

    /// The schema of the table.
    pub fn schema(&self) -> (s: &Schema)
        ensures
            s@ == self@.fields,
    {
        &self.schema
    }

    /// The number of rows.
    pub fn num_rows(&self) -> (n: usize)
        ensures
            n == self@.rows,
    {
        self.rows
    }

    /// The number of columns.
    pub fn num_columns(&self) -> (n: usize)
        ensures
            n == self@.columns.len(),
            n == self@.fields.len(),
    {
        proof {
            use_type_invariant(self);
        }
        self.columns.len()
    }

    /// The cells of column `c`, in row order.
    pub fn column(&self, c: usize) -> (cells: &Vec<Cell>)
        requires
            c < self@.columns.len(),
        ensures
            cells_view(cells@) == self@.columns[c as int],
            cells@.len() == self@.rows,
    {
        proof {
            use_type_invariant(self);
            assert(self@.columns[c as int].len() == self@.rows);
        }
        &self.columns[c]
    }

    /// The cells of the first column with the given name, where there is one.
    pub fn column_by_name(&self, name: &str) -> (r: Option<&Vec<Cell>>)
        ensures
            r is Some <==> field_position(self@.fields, name@) >= 0,
            r matches Some(cells) ==> cells_view(cells@) == self@.columns[field_position(
                self@.fields,
                name@,
            )],
    {
        proof {
            use_type_invariant(self);
            lemma_field_position(self@.fields, name@);
        }
        match self.schema.index_of(name) {
            Some(c) => Some(&self.columns[c]),
            None => None,
        }
    }
}

impl Clone for Table {
    fn clone(&self) -> (t: Table)
        ensures
            t@ == self@,
    {
        proof {
            use_type_invariant(self);
        }
        let mut columns: Vec<Vec<Cell>> = Vec::new();
        let mut c: usize = 0;
        while c < self.columns.len()
            invariant
                c <= self.columns.len(),
                columns@.len() == c,
                forall|k: int|
                    0 <= k < c ==> cells_view((#[trigger] columns@[k])@) == cells_view(
                        self.columns@[k]@,
                    ),
            decreases self.columns.len() - c,
        {
            let source = &self.columns[c];
            let mut cells: Vec<Cell> = Vec::new();
            let mut r: usize = 0;
            while r < source.len()
                invariant
                    r <= source.len(),
                    cells@.len() == r,
                    forall|j: int| 0 <= j < r ==> (#[trigger] cells@[j])@ == source@[j]@,
                decreases source.len() - r,
            {
                cells.push(source[r].clone());
                r += 1;
            }
            assert(cells_view(cells@) =~= cells_view(source@));
            columns.push(cells);
            c += 1;
        }
        assert(columns_view(columns@) =~= columns_view(self.columns@));
        Table { schema: self.schema.clone(), columns, rows: self.rows }
    }
}

} // verus!
