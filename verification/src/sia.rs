//! Simple Image Access: the query that is sent to a service, and the records
//! of the table that it answers with.

use vstd::prelude::*;
use crate::data::{Cell, CellView};
use crate::row::{rows_of_table, Key, Row, RowView};
use crate::tree::{ResourceView, TableView, VOTable};

verus! {

/// The query address of the Canadian Astronomy Data Centre.
pub const CADC_URL: &'static str = "http://www.cadc-ccda.hia-iha.nrc-cnrc.gc.ca/sia/v2query";

/// The query address of the German Astrophysical Virtual Observatory.
pub const GAVO_URL: &'static str =
    "http://dc.zah.uni-heidelberg.de/__system__/siap2/sitewide/siap2.xml";

/// The query address of the first version of the protocol at the German
/// Astrophysical Virtual Observatory.
pub const GAVO_OLD_V1_URL: &'static str = "http://dc.zah.uni-heidelberg.de/hppunion/q/im/siap.xml";

/// A service that answers image queries at an address.
#[derive(Debug, Copy, Clone)]
pub struct SiaService<U> {
    pub url: U,
}

impl SiaService<&'static str> {
    /// The service of the Canadian Astronomy Data Centre.
    pub fn cadc() -> (service: SiaService<&'static str>)
        ensures
            service.url@ == CADC_URL@,
    {
        SiaService { url: CADC_URL }
    }

    /// The service of the German Astrophysical Virtual Observatory.
    pub fn gavo() -> (service: SiaService<&'static str>)
        ensures
            service.url@ == GAVO_URL@,
    {
        SiaService { url: GAVO_URL }
    }

    /// The service of the German Astrophysical Virtual Observatory that
    /// speaks the first version of the protocol.
    pub fn gavo_old_v1() -> (service: SiaService<&'static str>)
        ensures
            service.url@ == GAVO_OLD_V1_URL@,
    {
        SiaService { url: GAVO_OLD_V1_URL }
    }
}

impl<U> SiaService<U> where U: core::fmt::Display {
    /// The service at `url`.
    pub fn new(url: U) -> (service: SiaService<U>)
        ensures
            service.url == url,
    {
        SiaService { url }
    }

    /// The service at the address that `f` makes of this one's.
    pub fn map<F, V>(self, mut f: F) -> (service: SiaService<V>) where
        F: FnMut(U) -> V,
        V: core::fmt::Display,

        requires
            f.requires((self.url,)),
        ensures
            f.ensures((self.url,), service.url),
    {
        SiaService { url: f(self.url) }
    }


    /// A query to this service for the position that `pos` spells out, with
    /// the text of the service's address as its base.
    pub fn create_query<'k>(&self, pos: String) -> (query: SiaQuery<'k>)
        ensures
            vstd::string::to_string_from_display_ensures::<U>(&self.url, query.base_url),
            query.pos == pos,
            query.format.is_none(),
            query.keywords@.len() == 0,
    {
        SiaQuery { base_url: self.url.to_string(), pos, format: None, keywords: Vec::new() }
    }
}

/// The image formats that a query can ask for.
#[derive(Debug, Copy, Clone, Eq, PartialEq, Hash)]
pub enum Format {
    Fits,
}

impl Format {
    /// The word that names the format in a query.
    pub open spec fn word(self) -> Seq<char> {
        match self {
            Format::Fits => "application/fits"@,
        }
    }
}

impl From<Format> for &'static str {
    /// The word that names the format in a query.
    fn from(format: Format) -> (word: &'static str) {
        match format {
            Format::Fits => "application/fits",
        }
    }
}

impl vstd::std_specs::convert::FromSpecImpl<Format> for &'static str {
    open spec fn obeys_from_spec() -> bool {
        true
    }

    open spec fn from_spec(format: Format) -> &'static str {
        match format {
            Format::Fits => "application/fits",
        }
    }
}

/// How an image is to lie to the region that a query asks for.
#[derive(Debug, Copy, Clone, Eq, PartialEq, Hash)]
pub enum Intersect {
    Covers,
    Enclosed,
    Overlaps,
    Center,
}

impl From<Intersect> for &'static str {
    /// The word that names the relation in a query.
    fn from(intersect: Intersect) -> (word: &'static str) {
        match intersect {
            Intersect::Covers => "COVERS",
            Intersect::Enclosed => "ENCLOSED",
            Intersect::Overlaps => "OVERLAPS",
            Intersect::Center => "CENTER",
        }
    }
}

impl vstd::std_specs::convert::FromSpecImpl<Intersect> for &'static str {
    open spec fn obeys_from_spec() -> bool {
        true
    }

    open spec fn from_spec(intersect: Intersect) -> &'static str {
        match intersect {
            Intersect::Covers => "COVERS",
            Intersect::Enclosed => "ENCLOSED",
            Intersect::Overlaps => "OVERLAPS",
            Intersect::Center => "CENTER",
        }
    }
}

/// How much a service is to tell of each image.
#[derive(Debug, Copy, Clone, Eq, PartialEq, Hash)]
pub enum Verbosity {
    Zero,
    V,
    VV,
    VVV,
}

impl Verbosity {
    /// The number that stands for the verbosity in a query.
    pub fn level(self) -> (r: usize)
        ensures
            r == match self {
                Verbosity::Zero => 0usize,
                Verbosity::V => 1usize,
                Verbosity::VV => 2usize,
                Verbosity::VVV => 3usize,
            },
    {
        match self {
            Verbosity::Zero => 0,
            Verbosity::V => 1,
            Verbosity::VV => 2,
            Verbosity::VVV => 3,
        }
    }
}

/// A query to a service: the position asked for, already spelled out as the
/// protocol writes it, a format where one is asked for, and further
/// keywords with their values.
#[derive(Debug, Clone, PartialEq)]
pub struct SiaQuery<'k> {
    pub base_url: String,
    pub pos: String,
    pub format: Option<Format>,
    pub keywords: Vec<(&'k str, &'k str)>,
}

/// The mathematical content of a [`SiaQuery`].
pub struct SiaQueryView {
    pub base_url: Seq<char>,
    pub pos: Seq<char>,
    pub format: Option<Format>,
    pub keywords: Seq<(Seq<char>, Seq<char>)>,
}

impl<'k> DeepView for SiaQuery<'k> {
    type V = SiaQueryView;

    open spec fn deep_view(&self) -> SiaQueryView {
        SiaQueryView {
            base_url: self.base_url@,
            pos: self.pos@,
            format: self.format,
            keywords: self.keywords.deep_view(),
        }
    }
}

impl SiaQueryView {
    /// The pairs of the query string, in their order: the position, the
    /// keywords, and the format where one is asked for.
    pub open spec fn pairs(self) -> Seq<(Seq<char>, Seq<char>)> {
        let leading = seq![("POS"@, self.pos)] + self.keywords;
        match self.format {
            Some(format) => leading.push(("FORMAT"@, format.word())),
            None => leading,
        }
    }
}

/// The `application/x-www-form-urlencoded` text of a list of pairs.
pub uninterp spec fn form_urlencoded(pairs: Seq<(Seq<char>, Seq<char>)>) -> Seq<char>;

/// `url::form_urlencoded::Serializer`: the text that a new serializer over an
/// empty string holds after `extend_pairs` with `pairs`, which appends them
/// one by one as `append_pair` does. The result is named, not spelled out.
#[verifier::external_body]
fn encode_pairs(pairs: &Vec<(&str, &str)>) -> (r: String)
    ensures
        r@ == form_urlencoded(pairs.deep_view()),
{
    url::form_urlencoded::Serializer::new(String::new()).extend_pairs(pairs.iter()).finish()
}

impl<'k> SiaQuery<'k> {
    /// The same query, asking for `format`.
    pub fn with_format(self, format: Format) -> (query: SiaQuery<'k>)
        ensures
            query.deep_view() == (SiaQueryView { format: Some(format), ..self.deep_view() }),
    {
        let mut query = self;
        query.format = Some(format);
        query
    }

    /// The address that asks the service this query: the service's own, a
    /// question mark, and the pairs of the query as a query string.
    pub fn query_url(&self) -> (r: String)
        ensures
            r@ == self.base_url@ + "?"@ + form_urlencoded(self.deep_view().pairs()),
    {
        let mut pairs: Vec<(&str, &str)> = Vec::new();
        pairs.push(("POS", self.pos.as_str()));
        let mut i: usize = 0;
        while i < self.keywords.len()
            invariant
                i <= self.keywords.len(),
                pairs.deep_view() == seq![("POS"@, self.pos@)] + self.keywords.deep_view().take(
                    i as int,
                ),
            decreases self.keywords.len() - i,
        {
            let ghost before = pairs.deep_view();
            pairs.push(self.keywords[i]);
            assert(pairs.deep_view() =~= before.push(self.keywords[i as int].deep_view()));
            i = i + 1;
        }
        assert(self.keywords.deep_view().take(self.keywords.len() as int)
            =~= self.keywords.deep_view());
        match self.format {
            Some(format) => {
                let ghost before = pairs.deep_view();
                let word: &'static str = From::from(format);
                pairs.push(("FORMAT", word));
                assert(pairs.deep_view() =~= before.push(("FORMAT"@, format.word())));
            },
            None => {},
        }
        let mut address = self.base_url.clone();
        address.append("?");
        address.append(encode_pairs(&pairs).as_str());
        address
    }
}

/// The rows of the first `n` of `tables` that have data, in order.
pub open spec fn rows_of_tables(tables: Seq<TableView>, n: int) -> Seq<RowView>
    decreases n,
{
    if n <= 0 {
        Seq::empty()
    } else {
        rows_of_tables(tables, n - 1) + rows_of_table(tables[n - 1])
    }
}

/// The rows of the tables that the first `n` of `resources` hold
/// themselves, in order.
pub open spec fn records_of(resources: Seq<ResourceView>, n: int) -> Seq<RowView>
    decreases n,
{
    if n <= 0 {
        Seq::empty()
    } else {
        records_of(resources, n - 1) + rows_of_tables(
            resources[n - 1].tables,
            resources[n - 1].tables.len() as int,
        )
    }
}

/// The answer of a service: a document whose rows are image records.
#[derive(Debug, Clone)]
pub struct SIAResults {
    pub table: VOTable,
}

/// One image record: a row of the answer.
#[derive(Debug, Clone, Copy)]
pub struct SIARecord<'a> {
    pub row: Row<'a>,
}

impl<'a> DeepView for SIARecord<'a> {
    type V = RowView;

    open spec fn deep_view(&self) -> RowView {
        self.row.deep_view()
    }
}

impl SIAResults {
    /// The answer that the document `table` is.
    pub fn new(table: VOTable) -> (results: SIAResults)
        ensures
            results.table == table,
    {
        SIAResults { table }
    }

    /// The records of the answer: the rows of every table that the
    /// resources at the top of the document hold themselves and that has
    /// data, in the order of the document.
    pub fn records(&self) -> (r: Vec<SIARecord<'_>>)
        ensures
            r.deep_view() == records_of(
                self.table.deep_view().resources,
                self.table.deep_view().resources.len() as int,
            ),
    {
        let resources = self.table.resources();
        let mut records: Vec<SIARecord<'_>> = Vec::new();
        let mut i: usize = 0;
        while i < resources.len()
            invariant
                i <= resources@.len(),
                records.deep_view() == records_of(resources.deep_view(), i as int),
            decreases resources@.len() - i,
        {
            let tables = resources[i].tables();
            let ghost before = records.deep_view();
            let mut j: usize = 0;
            while j < tables.len()
                invariant
                    j <= tables@.len(),
                    records.deep_view() == before + rows_of_tables(tables.deep_view(), j as int),
                decreases tables@.len() - j,
            {
                let ghost so_far = records.deep_view();
                match tables[j].rows() {
                    Some(rows) => {
                        let mut k: usize = 0;
                        while k < rows.len()
                            invariant
                                k <= rows.len(),
                                records.deep_view() == so_far + rows.deep_view().take(k as int),
                            decreases rows.len() - k,
                        {
                            let ghost held = records.deep_view();
                            records.push(SIARecord { row: rows[k] });
                            assert(records.deep_view() =~= held.push(rows[k as int].deep_view()));
                            k = k + 1;
                        }
                    },
                    None => {},
                }
                j = j + 1;
            }
            i = i + 1;
        }
        records
    }

    /// The document of the answer.
    pub fn table(&self) -> (r: &VOTable)
        ensures
            *r == self.table,
    {
        &self.table
    }

    /// The document of the answer, by itself.
    pub fn into_table(self) -> (r: VOTable)
        ensures
            r == self.table,
    {
        self.table
    }
}

/// The text of a cell that holds text.
pub open spec fn text_of(cell: Option<CellView>) -> Option<Seq<char>> {
    match cell {
        Some(CellView::Character(text)) => Some(text),
        Some(CellView::UnicodeCharacter(text)) => Some(text),
        _ => None,
    }
}

/// The first element of a cell of integers, where the cell has one and it is
/// not missing.
pub open spec fn size_of(cell: Option<CellView>) -> Option<i64> {
    match cell {
        Some(CellView::Integer16(items)) => if items.len() > 0 && items[0].is_some() {
            Some(items[0].unwrap() as i64)
        } else {
            None
        },
        Some(CellView::Integer32(items)) => if items.len() > 0 && items[0].is_some() {
            Some(items[0].unwrap() as i64)
        } else {
            None
        },
        Some(CellView::Integer64(items)) => if items.len() > 0 {
            items[0]
        } else {
            None
        },
        _ => None,
    }
}

/// The first of two cells that is there.
pub open spec fn first_of(first: Option<CellView>, second: Option<CellView>) -> Option<CellView> {
    if first.is_some() {
        first
    } else {
        second
    }
}

impl RowView {
    /// The cell of the column called `wanted` by its `ID`, or else by its
    /// `name`.
    pub open spec fn named(self, wanted: Seq<char>) -> Option<CellView> {
        first_of(self.lookup(Key::Id, wanted), self.lookup(Key::Name, wanted))
    }

    /// The cell that holds the address of the image: that of the column with
    /// the descriptor `VOX:Image_AccessReference`, or else of the column
    /// called `access_url`.
    pub open spec fn access_cell(self) -> Option<CellView> {
        first_of(self.lookup(Key::Ucd, "VOX:Image_AccessReference"@), self.named("access_url"@))
    }
}

impl<'a> SIARecord<'a> {
    /// The cell of the column called `wanted` by its `ID`, or else by its
    /// `name`.
    fn named(&self, wanted: &str) -> (r: Option<&'a Cell>)
        ensures
            r.deep_view() == self.deep_view().named(wanted@),
    {
        match self.row.get_by_id(wanted) {
            Some(cell) => Some(cell),
            None => self.row.get_by_name(wanted),
        }
    }

    /// The address of the image, where the record has it as text.
    pub fn access_url(&self) -> (r: Option<&'a str>)
        ensures
            r.deep_view() == text_of(self.deep_view().access_cell()),
    {
        let cell = match self.row.get_by_ucd("VOX:Image_AccessReference") {
            Some(cell) => Some(cell),
            None => self.named("access_url"),
        };
        match cell {
            Some(Cell::Character(link)) => Some(link.as_str()),
            Some(Cell::UnicodeCharacter(link)) => Some(link.as_str()),
            _ => None,
        }
    }

    /// The format of the image, where the record has it as text.
    pub fn access_format(&self) -> (r: Option<&'a str>)
        ensures
            r.deep_view() == text_of(self.deep_view().named("access_format"@)),
    {
        match self.named("access_format") {
            Some(Cell::Character(link)) => Some(link.as_str()),
            Some(Cell::UnicodeCharacter(link)) => Some(link.as_str()),
            _ => None,
        }
    }

    /// The estimated size of the image, where the record has it as an
    /// integer.
    pub fn access_estsize(&self) -> (r: Option<i64>)
        ensures
            r == size_of(self.deep_view().named("access_estsize"@)),
    {
        match self.named("access_estsize") {
            Some(Cell::Integer16(size)) => if size.len() > 0 {
                match size[0] {
                    Some(value) => Some(value as i64),
                    None => None,
                }
            } else {
                None
            },
            Some(Cell::Integer32(size)) => if size.len() > 0 {
                match size[0] {
                    Some(value) => Some(value as i64),
                    None => None,
                }
            } else {
                None
            },
            Some(Cell::Integer64(size)) => if size.len() > 0 {
                size[0]
            } else {
                None
            },
            _ => None,
        }
    }
}

} // verus!
