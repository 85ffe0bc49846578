//! The document tree: a VOTable holds resources, a resource holds tables and
//! resources of its own, a table holds its columns and its rows.

use vstd::prelude::*;
use crate::data::{CellView, Data};
use crate::schema::{Description, Field, FieldView};

verus! {

/// An `INFO` element. Nothing of its content is kept.
#[derive(Debug, Clone)]
pub struct Info {}

/// A table: its columns, in the order that fixes the layout of a row, and
/// its rows where the document held any.
#[derive(Debug, Clone)]
pub struct Table {
    pub description: Option<Description>,
    pub fields: Vec<Field>,
    pub data: Option<Data>,
}

/// The mathematical content of a [`Table`].
pub struct TableView {
    pub description: Option<Seq<char>>,
    pub fields: Seq<FieldView>,
    pub data: Option<Seq<Seq<CellView>>>,
}

impl DeepView for Table {
    type V = TableView;

    open spec fn deep_view(&self) -> TableView {
        TableView {
            description: self.description.deep_view(),
            fields: self.fields.deep_view(),
            data: self.data.deep_view(),
        }
    }
}

impl TableView {
    /// The table of which nothing is known.
    pub open spec fn blank() -> TableView {
        TableView { description: None, fields: Seq::empty(), data: None }
    }
}

impl Default for Table {
    fn default() -> (table: Table)
        ensures
            table.deep_view() == TableView::blank(),
    {
        let table = Table { description: None, fields: Vec::new(), data: None };
        assert(table.fields.deep_view() =~= Seq::empty());
        table
    }
}

/// A resource: tables, and resources nested in it to any depth.
#[derive(Debug)]
pub struct Resource {
    pub description: Option<Description>,
    pub infos: Vec<Info>,
    pub tables: Vec<Table>,
    pub child_resources: Vec<Resource>,
}

/// The mathematical content of a [`Resource`]. Of its `INFO` elements only
/// the number is kept.
pub struct ResourceView {
    pub description: Option<Seq<char>>,
    pub infos: nat,
    pub tables: Seq<TableView>,
    pub children: Seq<ResourceView>,
}

impl DeepView for Resource {
    type V = ResourceView;

    open spec fn deep_view(&self) -> ResourceView
        decreases self,
    {
        ResourceView {
            description: self.description.deep_view(),
            infos: self.infos@.len(),
            tables: self.tables.deep_view(),
            children: resource_views(self.child_resources@, self.child_resources@.len() as int),
        }
    }
}

/// The content of the first `n` of `resources`.
pub open spec fn resource_views(resources: Seq<Resource>, n: int) -> Seq<ResourceView>
    decreases resources, n,
{
    if 0 < n <= resources.len() {
        resource_views(resources, n - 1).push(resources[n - 1].deep_view())
    } else {
        Seq::empty()
    }
}

/// The content of a list of resources is the content of each, in order.
pub proof fn lemma_resource_views(resources: Seq<Resource>, n: int)
    requires
        0 <= n <= resources.len(),
    ensures
        resource_views(resources, n).len() == n,
        forall|i: int| 0 <= i < n ==> (#[trigger] resource_views(resources, n)[i])
            == resources[i].deep_view(),
    decreases n,
{
    reveal_with_fuel(resource_views, 2);
    if n > 0 {
        lemma_resource_views(resources, n - 1);
    }
}

impl ResourceView {
    /// The resource that holds nothing.
    pub open spec fn blank() -> ResourceView {
        ResourceView {
            description: None,
            infos: 0,
            tables: Seq::empty(),
            children: Seq::empty(),
        }
    }

    /// The tables of the resource, followed by those of the resources
    /// directly in it.
    pub open spec fn near_tables(self) -> Seq<TableView> {
        self.tables + tables_of(self.children, self.children.len() as int)
    }
}

/// The tables that the first `n` of `resources` hold themselves, in order.
pub open spec fn tables_of(resources: Seq<ResourceView>, n: int) -> Seq<TableView>
    decreases n,
{
    if n <= 0 {
        Seq::empty()
    } else {
        tables_of(resources, n - 1) + resources[n - 1].tables
    }
}

/// The tables of the first `n` of `resources`, each with those of the
/// resources directly in it.
pub open spec fn near_tables_of(resources: Seq<ResourceView>, n: int) -> Seq<TableView>
    decreases n,
{
    if n <= 0 {
        Seq::empty()
    } else {
        near_tables_of(resources, n - 1) + resources[n - 1].near_tables()
    }
}

impl Default for Resource {
    fn default() -> (resource: Resource)
        ensures
            resource.deep_view() == ResourceView::blank(),
    {
        let resource = Resource {
            description: None,
            infos: Vec::new(),
            tables: Vec::new(),
            child_resources: Vec::new(),
        };
        assert(resource.deep_view().tables =~= Seq::empty());
        resource
    }
}

impl Clone for Resource {
    /// A copy of the resource, with copies of all that it holds.
    fn clone(&self) -> (copy: Resource)
        decreases self,
    {
        let mut children: Vec<Resource> = Vec::new();
        let mut i: usize = 0;
        while i < self.child_resources.len()
            invariant
                i <= self.child_resources.len(),
            decreases self.child_resources.len() - i,
        {
            let child = &self.child_resources[i];
            children.push(child.clone());
            i = i + 1;
        }
        Resource {
            description: self.description.clone(),
            infos: self.infos.clone(),
            tables: self.tables.clone(),
            child_resources: children,
        }
    }
}

impl Resource {
    /// The content of the resources nested in this one is that of the list
    /// that holds them.
    pub proof fn lemma_children(&self)
        ensures
            self.deep_view().children == self.child_resources.deep_view(),
    {
        lemma_resource_views(self.child_resources@, self.child_resources@.len() as int);
    }

    /// The tables of the resource itself.
    pub fn tables(&self) -> (r: &[Table])
        ensures
            r.deep_view() == self.deep_view().tables,
    {
        let tables = self.tables.as_slice();
        tables
    }

    /// The resources directly in this one.
    pub fn children(&self) -> (r: &[Resource])
        ensures
            r.deep_view() == self.deep_view().children,
    {
        let children = self.child_resources.as_slice();
        proof {
            self.lemma_children();
        }
        children
    }
}

/// A whole document.
#[derive(Debug, Clone)]
pub struct VOTable {
    pub description: Option<Description>,
    pub resources: Vec<Resource>,
}

/// The mathematical content of a [`VOTable`].
pub struct VOTableView {
    pub description: Option<Seq<char>>,
    pub resources: Seq<ResourceView>,
}

impl DeepView for VOTable {
    type V = VOTableView;

    open spec fn deep_view(&self) -> VOTableView {
        VOTableView {
            description: self.description.deep_view(),
            resources: self.resources.deep_view(),
        }
    }
}

impl VOTableView {
    /// The document that holds nothing.
    pub open spec fn blank() -> VOTableView {
        VOTableView { description: None, resources: Seq::empty() }
    }
}

impl Default for VOTable {
    fn default() -> (table: VOTable)
        ensures
            table.deep_view() == VOTableView::blank(),
    {
        let table = VOTable { description: None, resources: Vec::new() };
        assert(table.resources.deep_view() =~= Seq::empty());
        table
    }
}

/// Appends `tables` to `found`.
fn push_tables<'a>(tables: &'a [Table], found: &mut Vec<&'a Table>)
    ensures
        final(found).deep_view() == old(found).deep_view() + tables.deep_view(),
{
    let ghost start = found.deep_view();
    let mut j: usize = 0;
    while j < tables.len()
        invariant
            j <= tables@.len(),
            found.deep_view() == start + tables.deep_view().take(j as int),
        decreases tables@.len() - j,
    {
        let ghost so_far = found.deep_view();
        found.push(&tables[j]);
        assert(found.deep_view() =~= so_far.push(tables[j as int].deep_view()));
        j = j + 1;
    }
}

impl VOTable {
    /// The resources at the top of the document.
    pub fn resources(&self) -> (r: &[Resource])
        ensures
            r.deep_view() == self.deep_view().resources,
    {
        let resources = self.resources.as_slice();
        resources
    }

    /// The tables of the document: for each resource at its top, the tables
    /// of that resource and then those of the resources directly in it.
    pub fn tables(&self) -> (r: Vec<&Table>)
        ensures
            r.deep_view() == near_tables_of(
                self.deep_view().resources,
                self.deep_view().resources.len() as int,
            ),
    {
        let mut found: Vec<&Table> = Vec::new();
        let mut i: usize = 0;
        while i < self.resources.len()
            invariant
                i <= self.resources.len(),
                found.deep_view() == near_tables_of(self.resources.deep_view(), i as int),
            decreases self.resources.len() - i,
        {
            let resource = &self.resources[i];
            let ghost before = found.deep_view();
            push_tables(resource.tables(), &mut found);
            let children = resource.children();
            let mut j: usize = 0;
            while j < children.len()
                invariant
                    j <= children@.len(),
                    found.deep_view() == before + resource.deep_view().tables + tables_of(
                        children.deep_view(),
                        j as int,
                    ),
                decreases children@.len() - j,
            {
                push_tables(children[j].tables(), &mut found);
                j = j + 1;
            }
            i = i + 1;
        }
        found
    }
}

} // verus!
