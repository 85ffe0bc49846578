//! The schema of a table column: its datatype, its element count, and the
//! value that stands for a missing element.

use vstd::prelude::*;
use crate::error::{cannot_parse, grammar_error, outcome, Error, ErrorView};
use crate::text::{
    digits_literal, integer_literal, natural_literal, read_digits, read_integer, read_natural,
    same_text,
};
use crate::token::{Attribute, AttributeView};

verus! {

/// The twelve primitive datatypes of a column.
#[derive(Debug, Clone, Copy, PartialEq, Eq, Structural)]
pub enum DataType {
    Logical,
    BitArray,
    Byte,
    Character,
    UnicodeCharacter,
    Integer16,
    Integer32,
    Integer64,
    Float32,
    Float64,
    Complex32,
    Complex64,
}

impl DeepView for DataType {
    type V = DataType;

    open spec fn deep_view(&self) -> DataType {
        *self
    }
}

/// The datatype that the literal `s` of a `datatype` attribute names.
pub open spec fn datatype_of(s: Seq<char>) -> Option<DataType> {
    if s == "boolean"@ {
        Some(DataType::Logical)
    } else if s == "bit"@ {
        Some(DataType::BitArray)
    } else if s == "unsignedByte"@ {
        Some(DataType::Byte)
    } else if s == "short"@ {
        Some(DataType::Integer16)
    } else if s == "int"@ {
        Some(DataType::Integer32)
    } else if s == "long"@ {
        Some(DataType::Integer64)
    } else if s == "char"@ {
        Some(DataType::Character)
    } else if s == "unicodeChar"@ {
        Some(DataType::UnicodeCharacter)
    } else if s == "float"@ {
        Some(DataType::Float32)
    } else if s == "double"@ {
        Some(DataType::Float64)
    } else if s == "floatComplex"@ {
        Some(DataType::Complex32)
    } else if s == "doubleComplex"@ {
        Some(DataType::Complex64)
    } else {
        None
    }
}

/// What reading the literal `s` as `target` gives, when `value` is what the
/// grammar of `target` makes of it.
pub open spec fn literal_outcome<T>(value: Option<T>, s: Seq<char>, target: &str) -> Result<
    T,
    ErrorView,
> {
    match value {
        Some(v) => Ok(v),
        None => Err(cannot_parse(s, target)),
    }
}

impl DataType {
    /// Reads the literal of a `datatype` attribute.
    pub fn from_str(s: &str) -> (r: Result<DataType, Error>)
        ensures
            outcome(r) == literal_outcome(datatype_of(s@), s@, "datatype"),
    {
        if same_text(s, "boolean") {
            Ok(DataType::Logical)
        } else if same_text(s, "bit") {
            Ok(DataType::BitArray)
        } else if same_text(s, "unsignedByte") {
            Ok(DataType::Byte)
        } else if same_text(s, "short") {
            Ok(DataType::Integer16)
        } else if same_text(s, "int") {
            Ok(DataType::Integer32)
        } else if same_text(s, "long") {
            Ok(DataType::Integer64)
        } else if same_text(s, "char") {
            Ok(DataType::Character)
        } else if same_text(s, "unicodeChar") {
            Ok(DataType::UnicodeCharacter)
        } else if same_text(s, "float") {
            Ok(DataType::Float32)
        } else if same_text(s, "double") {
            Ok(DataType::Float64)
        } else if same_text(s, "floatComplex") {
            Ok(DataType::Complex32)
        } else if same_text(s, "doubleComplex") {
            Ok(DataType::Complex64)
        } else {
            Err(grammar_error(s, "datatype"))
        }
    }

    /// The name of the datatype, as it is written in messages.
    pub open spec fn spec_name(self) -> Seq<char> {
        match self {
            DataType::Logical => "Logical"@,
            DataType::BitArray => "BitArray"@,
            DataType::Byte => "Byte"@,
            DataType::Character => "Character"@,
            DataType::UnicodeCharacter => "UnicodeCharacter"@,
            DataType::Integer16 => "Integer16"@,
            DataType::Integer32 => "Integer32"@,
            DataType::Integer64 => "Integer64"@,
            DataType::Float32 => "Float32"@,
            DataType::Float64 => "Float64"@,
            DataType::Complex32 => "Complex32"@,
            DataType::Complex64 => "Complex64"@,
        }
    }

    /// The name of the datatype, as it is written in messages.
    pub fn name(self) -> (r: &'static str)
        ensures
            r@ == self.spec_name(),
    {
        match self {
            DataType::Logical => "Logical",
            DataType::BitArray => "BitArray",
            DataType::Byte => "Byte",
            DataType::Character => "Character",
            DataType::UnicodeCharacter => "UnicodeCharacter",
            DataType::Integer16 => "Integer16",
            DataType::Integer32 => "Integer32",
            DataType::Integer64 => "Integer64",
            DataType::Float32 => "Float32",
            DataType::Float64 => "Float64",
            DataType::Complex32 => "Complex32",
            DataType::Complex64 => "Complex64",
        }
    }
}

/// How many elements one cell of a column holds.
#[derive(Debug, Clone, Copy, PartialEq, Eq, Structural)]
pub enum ArraySize {
    /// Any number: each row states its own.
    Unbounded,
    /// Any number up to `max`: each row states its own.
    Variable { max: usize },
    /// The same number in every row.
    Fixed(usize),
}

impl DeepView for ArraySize {
    type V = ArraySize;

    open spec fn deep_view(&self) -> ArraySize {
        *self
    }
}

/// The element count policy that the literal `s` of an `arraysize` attribute
/// states: `*`, digits followed by `*`, or digits.
pub open spec fn arraysize_of(s: Seq<char>) -> Option<ArraySize> {
    if s.len() == 1 && s[0] == '*' {
        Some(ArraySize::Unbounded)
    } else if s.len() > 0 && s.last() == '*' {
        match digits_literal(s.drop_last(), usize::MAX as nat) {
            Some(max) => Some(ArraySize::Variable { max: max as usize }),
            None => None,
        }
    } else {
        match digits_literal(s, usize::MAX as nat) {
            Some(n) => Some(ArraySize::Fixed(n as usize)),
            None => None,
        }
    }
}

impl ArraySize {
    /// Reads the literal of an `arraysize` attribute.
    pub fn from_str(s: &str) -> (r: Result<ArraySize, Error>)
        ensures
            outcome(r) == literal_outcome(arraysize_of(s@), s@, "arraysize"),
    {
        let n = s.unicode_len();
        if n > 0 && s.get_char(n - 1) == '*' {
            if n == 1 {
                return Ok(ArraySize::Unbounded);
            }
            match read_digits(s, 0, n - 1, usize::MAX as u64) {
                Some(max) => Ok(ArraySize::Variable { max: max as usize }),
                None => Err(grammar_error(s, "arraysize")),
            }
        } else {
            proof {
                assert(s@.subrange(0, n as int) =~= s@);
            }
            match read_digits(s, 0, n, usize::MAX as u64) {
                Some(size) => Ok(ArraySize::Fixed(size as usize)),
                None => Err(grammar_error(s, "arraysize")),
            }
        }
    }
}

/// How many digits of a value are meaningful.
#[derive(Debug, Clone, Copy, PartialEq, Eq, Structural)]
pub enum Precision {
    /// The number of significant digits after the decimal point.
    AfterDecimalPoint(usize),
    /// The number of significant figures.
    SignificantFigures(usize),
}

impl DeepView for Precision {
    type V = Precision;

    open spec fn deep_view(&self) -> Precision {
        *self
    }
}

/// The precision that the literal `s` of a `precision` attribute states: `E`
/// and digits for significant figures; `F` and digits, or digits alone, for
/// digits after the decimal point.
pub open spec fn precision_of(s: Seq<char>) -> Option<Precision> {
    if s.len() > 0 && s[0] == 'E' {
        match digits_literal(s.skip(1), usize::MAX as nat) {
            Some(n) => Some(Precision::SignificantFigures(n as usize)),
            None => None,
        }
    } else if s.len() > 0 && s[0] == 'F' {
        match digits_literal(s.skip(1), usize::MAX as nat) {
            Some(n) => Some(Precision::AfterDecimalPoint(n as usize)),
            None => None,
        }
    } else {
        match digits_literal(s, usize::MAX as nat) {
            Some(n) => Some(Precision::AfterDecimalPoint(n as usize)),
            None => None,
        }
    }
}

impl Precision {
    /// Reads the literal of a `precision` attribute.
    pub fn from_str(s: &str) -> (r: Result<Precision, Error>)
        ensures
            outcome(r) == literal_outcome(precision_of(s@), s@, "precision"),
    {
        let n = s.unicode_len();
        let significant = n > 0 && s.get_char(0) == 'E';
        let from: usize = if n > 0 && (significant || s.get_char(0) == 'F') {
            1
        } else {
            0
        };
        proof {
            assert(s@.skip(0) =~= s@);
        }
        match read_digits(s, from, n, usize::MAX as u64) {
            Some(digits) => if significant {
                Ok(Precision::SignificantFigures(digits as usize))
            } else {
                Ok(Precision::AfterDecimalPoint(digits as usize))
            },
            None => Err(grammar_error(s, "precision")),
        }
    }
}

/// The extended type of a column: free text.
#[derive(Debug, Clone)]
pub struct XType {
    pub value: String,
}

impl DeepView for XType {
    type V = Seq<char>;

    open spec fn deep_view(&self) -> Seq<char> {
        self.value@
    }
}

impl XType {
    /// Keeps the literal of an `xtype` attribute as it stands.
    pub fn from_str(s: &str) -> (r: Result<XType, Error>)
        ensures
            outcome(r) == Ok::<Seq<char>, ErrorView>(s@),
    {
        Ok(XType { value: s.to_owned() })
    }
}

/// A value that stands for a missing element, in one of the three integer
/// widths that can have one.
#[derive(Debug, Clone, Copy, PartialEq, Eq, Structural)]
pub enum NullableDataValue {
    Integer16(i16),
    Integer32(i32),
    Integer64(i64),
}

impl DeepView for NullableDataValue {
    type V = NullableDataValue;

    open spec fn deep_view(&self) -> NullableDataValue {
        *self
    }
}

/// The sentinel that the literal `s` states for a column of `datatype`: a
/// signed numeral within the datatype's range, for the three integer widths
/// only.
pub open spec fn sentinel_of(datatype: DataType, s: Seq<char>) -> Option<NullableDataValue> {
    match datatype {
        DataType::Integer16 => match integer_literal(s, 0x8000, 0x7fff) {
            Some(n) => Some(NullableDataValue::Integer16(n as i16)),
            None => None,
        },
        DataType::Integer32 => match integer_literal(s, 0x8000_0000, 0x7fff_ffff) {
            Some(n) => Some(NullableDataValue::Integer32(n as i32)),
            None => None,
        },
        DataType::Integer64 => match integer_literal(
            s,
            0x8000_0000_0000_0000,
            0x7fff_ffff_ffff_ffff,
        ) {
            Some(n) => Some(NullableDataValue::Integer64(n as i64)),
            None => None,
        },
        _ => None,
    }
}

/// Whether a column of `datatype` can have a sentinel at all.
pub open spec fn has_sentinels(datatype: DataType) -> bool {
    datatype == DataType::Integer16 || datatype == DataType::Integer32 || datatype
        == DataType::Integer64
}

/// What reading the literal `s` as the sentinel of a column of `datatype`
/// gives. A literal outside the grammar is reported as it stands; for a
/// datatype without sentinels the report names the datatype too.
pub open spec fn sentinel_outcome(datatype: DataType, s: Seq<char>) -> Result<
    NullableDataValue,
    ErrorView,
> {
    if has_sentinels(datatype) {
        literal_outcome(sentinel_of(datatype, s), s, "null")
    } else {
        Err(cannot_parse(s + " as "@ + datatype.spec_name(), "null"))
    }
}

impl NullableDataValue {
    /// Reads the literal of a `null` attribute for a column of `datatype`.
    pub fn parse(datatype: DataType, s: &str) -> (r: Result<NullableDataValue, Error>)
        ensures
            outcome(r) == sentinel_outcome(datatype, s@),
    {
        match datatype {
            DataType::Integer16 => match read_integer(s, 0x8000, 0x7fff) {
                Some(n) => Ok(NullableDataValue::Integer16(n as i16)),
                None => Err(grammar_error(s, "null")),
            },
            DataType::Integer32 => match read_integer(s, 0x8000_0000, 0x7fff_ffff) {
                Some(n) => Ok(NullableDataValue::Integer32(n as i32)),
                None => Err(grammar_error(s, "null")),
            },
            DataType::Integer64 => match read_integer(
                s,
                0x8000_0000_0000_0000,
                0x7fff_ffff_ffff_ffff,
            ) {
                Some(n) => Ok(NullableDataValue::Integer64(n)),
                None => Err(grammar_error(s, "null")),
            },
            _ => {
                let mut got = s.to_owned();
                got.append(" as ");
                got.append(datatype.name());
                Err(Error::CannotParse { got, target: "null" })
            },
        }
    }
}

/// An integer that can be held against a sentinel.
pub trait Nullable: Sized {
    /// The value as a sentinel of its own width.
    spec fn nullable(self) -> NullableDataValue;

    /// The value as a sentinel of its own width.
    fn to_nullable(self) -> (r: NullableDataValue)
        ensures
            r == self.nullable(),
    ;
}

impl Nullable for i16 {
    open spec fn nullable(self) -> NullableDataValue {
        NullableDataValue::Integer16(self)
    }

    fn to_nullable(self) -> (r: NullableDataValue) {
        NullableDataValue::Integer16(self)
    }
}

impl Nullable for i32 {
    open spec fn nullable(self) -> NullableDataValue {
        NullableDataValue::Integer32(self)
    }

    fn to_nullable(self) -> (r: NullableDataValue) {
        NullableDataValue::Integer32(self)
    }
}

impl Nullable for i64 {
    open spec fn nullable(self) -> NullableDataValue {
        NullableDataValue::Integer64(self)
    }

    fn to_nullable(self) -> (r: NullableDataValue) {
        NullableDataValue::Integer64(self)
    }
}

/// What a `VALUES` element declares of a column.
#[derive(Debug, Clone, Copy, PartialEq, Eq, Structural)]
pub struct Values {
    pub null: Option<NullableDataValue>,
}

impl DeepView for Values {
    type V = Values;

    open spec fn deep_view(&self) -> Values {
        *self
    }
}

/// The declaration that the attributes of a `VALUES` element make for a
/// column of `datatype`, after the first `n` of them: every `null` attribute
/// is read, and the last one stands.
pub open spec fn values_of(datatype: DataType, attributes: Seq<AttributeView>, n: int) -> Result<
    Values,
    ErrorView,
>
    decreases n,
{
    if n <= 0 {
        Ok(Values { null: None })
    } else {
        match values_of(datatype, attributes, n - 1) {
            Err(e) => Err(e),
            Ok(values) => if attributes[n - 1].name == "null"@ {
                match sentinel_outcome(datatype, attributes[n - 1].value) {
                    Ok(null) => Ok(Values { null: Some(null) }),
                    Err(e) => Err(e),
                }
            } else {
                Ok(values)
            },
        }
    }
}

impl Values {
    /// Reads the attributes of a `VALUES` element for a column of `datatype`.
    pub fn from_attributes(datatype: DataType, attributes: &Vec<Attribute>) -> (r: Result<
        Values,
        Error,
    >)
        ensures
            outcome(r) == values_of(
                datatype,
                attributes.deep_view(),
                attributes.len() as int,
            ),
    {
        let mut values = Values { null: None };
        let mut i: usize = 0;
        while i < attributes.len()
            invariant
                i <= attributes.len(),
                values_of(datatype, attributes.deep_view(), i as int) == Ok::<Values, ErrorView>(
                    values,
                ),
            decreases attributes.len() - i,
        {
            let attribute = &attributes[i];
            if same_text(attribute.name.as_str(), "null") {
                match NullableDataValue::parse(datatype, attribute.value.as_str()) {
                    Ok(null) => {
                        values.null = Some(null);
                    },
                    Err(e) => {
                        proof {
                            lemma_values_failed(
                                datatype,
                                attributes.deep_view(),
                                i as int + 1,
                                attributes.len() as int,
                            );
                        }
                        return Err(e);
                    },
                }
            }
            i = i + 1;
        }
        Ok(values)
    }

    /// Whether `t` is the value that stands for a missing element.
    pub fn is_null<T: Nullable>(&self, t: T) -> (r: bool)
        ensures
            r == (self.null == Some(t.nullable())),
    {
        match self.null {
            Some(null) => null == t.to_nullable(),
            None => false,
        }
    }
}

/// Once an attribute has failed, the attributes after it change nothing.
pub proof fn lemma_values_failed(
    datatype: DataType,
    attributes: Seq<AttributeView>,
    n: int,
    m: int,
)
    requires
        n <= m,
        values_of(datatype, attributes, n) is Err,
    ensures
        values_of(datatype, attributes, m) == values_of(datatype, attributes, n),
    decreases m - n,
{
    if n < m {
        lemma_values_failed(datatype, attributes, n, m - 1);
    }
}

/// The text of a `DESCRIPTION` element.
#[derive(Debug, Clone)]
pub struct Description {
    pub content: String,
}

impl DeepView for Description {
    type V = Seq<char>;

    open spec fn deep_view(&self) -> Seq<char> {
        self.content@
    }
}

/// One column of a table, as its `FIELD` element declares it. The order of
/// the columns is the layout of a binary row.
#[derive(Debug, Clone)]
pub struct Field {
    pub id: Option<String>,
    pub name: Option<String>,
    pub datatype: Option<DataType>,
    pub arraysize: Option<ArraySize>,
    pub width: Option<usize>,
    pub precision: Option<Precision>,
    pub xtype: Option<XType>,
    pub unit: Option<String>,
    pub ucd: Option<String>,
    pub description: Option<Description>,
    pub values: Option<Values>,
}

/// The mathematical content of a [`Field`].
pub struct FieldView {
    pub id: Option<Seq<char>>,
    pub name: Option<Seq<char>>,
    pub datatype: Option<DataType>,
    pub arraysize: Option<ArraySize>,
    pub width: Option<usize>,
    pub precision: Option<Precision>,
    pub xtype: Option<Seq<char>>,
    pub unit: Option<Seq<char>>,
    pub ucd: Option<Seq<char>>,
    pub description: Option<Seq<char>>,
    pub values: Option<Values>,
}

impl DeepView for Field {
    type V = FieldView;

    open spec fn deep_view(&self) -> FieldView {
        FieldView {
            id: self.id.deep_view(),
            name: self.name.deep_view(),
            datatype: self.datatype,
            arraysize: self.arraysize,
            width: self.width,
            precision: self.precision,
            xtype: self.xtype.deep_view(),
            unit: self.unit.deep_view(),
            ucd: self.ucd.deep_view(),
            description: self.description.deep_view(),
            values: self.values,
        }
    }
}

impl FieldView {
    /// The column of which nothing is declared.
    pub open spec fn blank() -> FieldView {
        FieldView {
            id: None,
            name: None,
            datatype: None,
            arraysize: None,
            width: None,
            precision: None,
            xtype: None,
            unit: None,
            ucd: None,
            description: None,
            values: None,
        }
    }

    /// The number of elements in each cell of the column where every row has
    /// the same: a fixed array size, or one for a column without an array
    /// size. `None` where each row states its own.
    pub open spec fn len(self) -> Option<usize> {
        match self.arraysize {
            Some(ArraySize::Fixed(n)) => Some(n),
            Some(_) => None,
            None => Some(1),
        }
    }

    /// Whether `value` is the sentinel that the column declares.
    pub open spec fn is_null(self, value: NullableDataValue) -> bool {
        match self.values {
            Some(values) => values.null == Some(value),
            None => false,
        }
    }

    /// The column after one more attribute of its `FIELD` element. A later
    /// attribute of the same name replaces an earlier one, and a name that
    /// means nothing here changes nothing.
    pub open spec fn with_attribute(self, attribute: AttributeView) -> Result<
        FieldView,
        ErrorView,
    > {
        let name = attribute.name;
        let value = attribute.value;
        if name == "ID"@ {
            Ok(FieldView { id: Some(value), ..self })
        } else if name == "name"@ {
            Ok(FieldView { name: Some(value), ..self })
        } else if name == "datatype"@ {
            match datatype_of(value) {
                Some(datatype) => Ok(FieldView { datatype: Some(datatype), ..self }),
                None => Err(cannot_parse(value, "datatype")),
            }
        } else if name == "arraysize"@ {
            match arraysize_of(value) {
                Some(arraysize) => Ok(FieldView { arraysize: Some(arraysize), ..self }),
                None => Err(cannot_parse(value, "arraysize")),
            }
        } else if name == "width"@ {
            match natural_literal(value, usize::MAX as nat) {
                Some(width) => Ok(FieldView { width: Some(width as usize), ..self }),
                None => Err(
                    ErrorView::CannotParseIntAttribute { got: value, attribute: "width"@ },
                ),
            }
        } else if name == "precision"@ {
            match precision_of(value) {
                Some(precision) => Ok(FieldView { precision: Some(precision), ..self }),
                None => Err(cannot_parse(value, "precision")),
            }
        } else if name == "xtype"@ {
            Ok(FieldView { xtype: Some(value), ..self })
        } else if name == "unit"@ {
            Ok(FieldView { unit: Some(value), ..self })
        } else if name == "ucd"@ {
            Ok(FieldView { ucd: Some(value), ..self })
        } else {
            Ok(self)
        }
    }
}

/// The column that the first `n` attributes of a `FIELD` element declare, or
/// the error of the first attribute among them that does not parse.
pub open spec fn field_of(attributes: Seq<AttributeView>, n: int) -> Result<FieldView, ErrorView>
    decreases n,
{
    if n <= 0 {
        Ok(FieldView::blank())
    } else {
        match field_of(attributes, n - 1) {
            Err(e) => Err(e),
            Ok(field) => field.with_attribute(attributes[n - 1]),
        }
    }
}

/// Once an attribute has failed, the attributes after it change nothing.
pub proof fn lemma_field_failed(attributes: Seq<AttributeView>, n: int, m: int)
    requires
        n <= m,
        field_of(attributes, n) is Err,
    ensures
        field_of(attributes, m) == field_of(attributes, n),
    decreases m - n,
{
    if n < m {
        lemma_field_failed(attributes, n, m - 1);
    }
}

impl Default for Field {
    fn default() -> (field: Field)
        ensures
            field.deep_view() == FieldView::blank(),
    {
        Field {
            id: None,
            name: None,
            datatype: None,
            arraysize: None,
            width: None,
            precision: None,
            xtype: None,
            unit: None,
            ucd: None,
            description: None,
            values: None,
        }
    }
}

impl Field {
    /// Takes one attribute of the `FIELD` element into the column.
    pub fn set_attribute(&mut self, attribute: &Attribute) -> (r: Result<(), Error>)
        ensures
            match r {
                Ok(()) => old(self).deep_view().with_attribute(attribute.deep_view()) == Ok::<
                    FieldView,
                    ErrorView,
                >(final(self).deep_view()),
                Err(e) => old(self).deep_view().with_attribute(attribute.deep_view()) == Err::<
                    FieldView,
                    ErrorView,
                >(e@) && *final(self) == *old(self),
            },
    {
        let name = attribute.name.as_str();
        let value = attribute.value.as_str();
        if same_text(name, "ID") {
            self.id = Some(attribute.value.clone());
        } else if same_text(name, "name") {
            self.name = Some(attribute.value.clone());
        } else if same_text(name, "datatype") {
            match DataType::from_str(value) {
                Ok(datatype) => {
                    self.datatype = Some(datatype);
                },
                Err(e) => {
                    return Err(e);
                },
            }
        } else if same_text(name, "arraysize") {
            match ArraySize::from_str(value) {
                Ok(arraysize) => {
                    self.arraysize = Some(arraysize);
                },
                Err(e) => {
                    return Err(e);
                },
            }
        } else if same_text(name, "width") {
            match read_natural(value, usize::MAX as u64) {
                Some(width) => {
                    self.width = Some(width as usize);
                },
                None => {
                    return Err(
                        Error::CannotParseIntAttribute {
                            got: attribute.value.clone(),
                            attribute: "width",
                        },
                    );
                },
            }
        } else if same_text(name, "precision") {
            match Precision::from_str(value) {
                Ok(precision) => {
                    self.precision = Some(precision);
                },
                Err(e) => {
                    return Err(e);
                },
            }
        } else if same_text(name, "xtype") {
            match XType::from_str(value) {
                Ok(xtype) => {
                    self.xtype = Some(xtype);
                },
                Err(e) => {
                    return Err(e);
                },
            }
        } else if same_text(name, "unit") {
            self.unit = Some(attribute.value.clone());
        } else if same_text(name, "ucd") {
            self.ucd = Some(attribute.value.clone());
        }
        Ok(())
    }

    /// Reads the attributes of a `FIELD` element, in their order.
    pub fn from_attributes(attributes: &Vec<Attribute>) -> (r: Result<Field, Error>)
        ensures
            outcome(r) == field_of(attributes.deep_view(), attributes.len() as int),
    {
        let mut field = Field::default();
        let mut i: usize = 0;
        while i < attributes.len()
            invariant
                i <= attributes.len(),
                field_of(attributes.deep_view(), i as int) == Ok::<FieldView, ErrorView>(
                    field.deep_view(),
                ),
            decreases attributes.len() - i,
        {
            match field.set_attribute(&attributes[i]) {
                Ok(()) => {},
                Err(e) => {
                    proof {
                        lemma_field_failed(
                            attributes.deep_view(),
                            i as int + 1,
                            attributes.len() as int,
                        );
                    }
                    return Err(e);
                },
            }
            i = i + 1;
        }
        Ok(field)
    }

    /// The number of elements in each cell of the column where every row has
    /// the same, and `None` where each row states its own.
    pub fn len(&self) -> (r: Option<usize>)
        ensures
            r == self.deep_view().len(),
    {
        match self.arraysize {
            Some(ArraySize::Fixed(max)) => Some(max),
            Some(_) => None,
            None => Some(1),
        }
    }

    /// Whether `t` is the sentinel that the column declares for a missing
    /// element.
    pub fn is_null<T: Nullable>(&self, t: T) -> (r: bool)
        ensures
            r == self.deep_view().is_null(t.nullable()),
    {
        match &self.values {
            Some(values) => values.is_null(t),
            None => false,
        }
    }
}

} // verus!
