//! The schema model: a table is a name plus an ordered list of columns, each
//! carrying a type tag, optional width and decimal precision, nullability,
//! a primary-key flag, and an optional foreign-key reference.

use vstd::prelude::*;

verus! {

/// The seven statement kinds the generator can render.
#[derive(Copy, Clone)]
pub enum SqlType {
    CreateTable,
    AlterTable,
    DropTable,
    Insert,
    Select,
    Update,
    Delete,
}

/// A column of a table.
#[derive(Debug)]
pub struct Column {
    pub name: String,
    pub column_type: String,
    pub length: Option<i32>,
    pub decimal_places: Option<i32>,
    pub is_nullable: bool,
    pub is_pkey: bool,
    pub ref_table: Option<String>,
    pub ref_column: Option<String>,
}

/// A table: a name and its ordered columns, plus free-text metadata.
#[derive(Debug)]
pub struct Table {
    pub name: String,
    pub columns: Vec<Column>,
    pub comment: Option<String>,
}

/// The mathematical model of a column.
pub struct ColumnV {
    pub name: Seq<char>,
    pub column_type: Seq<char>,
    pub length: Option<int>,
    pub decimal_places: Option<int>,
    pub is_nullable: bool,
    pub is_pkey: bool,
    pub ref_table: Option<Seq<char>>,
    pub ref_column: Option<Seq<char>>,
}

/// The mathematical model of a table.
pub struct TableV {
    pub name: Seq<char>,
    pub columns: Seq<ColumnV>,
    pub comment: Option<Seq<char>>,
}

pub open spec fn opt_str_view(o: Option<String>) -> Option<Seq<char>> {
    match o {
        Option::Some(s) => Option::Some(s@),
        Option::None => Option::None,
    }
}

pub open spec fn opt_int_view(o: Option<i32>) -> Option<int> {
    match o {
        Option::Some(v) => Option::Some(v as int),
        Option::None => Option::None,
    }
}

impl View for Column {
    type V = ColumnV;

    open spec fn view(&self) -> ColumnV {
        ColumnV {
            name: self.name@,
            column_type: self.column_type@,
            length: opt_int_view(self.length),
            decimal_places: opt_int_view(self.decimal_places),
            is_nullable: self.is_nullable,
            is_pkey: self.is_pkey,
            ref_table: opt_str_view(self.ref_table),
            ref_column: opt_str_view(self.ref_column),
        }
    }
}

pub open spec fn cols_view(cs: Seq<Column>) -> Seq<ColumnV> {
    cs.map_values(|c: Column| c@)
}

impl View for Table {
    type V = TableV;

    open spec fn view(&self) -> TableV {
        TableV {
            name: self.name@,
            columns: cols_view(self.columns@),
            comment: opt_str_view(self.comment),
        }
    }
}

impl ColumnV {
    /// Optional width and precision are non-negative when present.
    pub open spec fn wf(self) -> bool {
        &&& (self.length matches Option::Some(l) ==> l >= 0)
        &&& (self.decimal_places matches Option::Some(d) ==> d >= 0)
    }
}

impl TableV {
    pub open spec fn wf(self) -> bool {
        forall|i: int| 0 <= i < self.columns.len() ==> (#[trigger] self.columns[i]).wf()
    }
}

impl Table {
    /// Builds a table from a name and a ready-made column list; the comment
    /// starts out absent.
    pub fn init(name: String, columns: Vec<Column>) -> (t: Table)
        ensures
            t@ == (TableV { name: name@, columns: cols_view(columns@), comment: Option::None }),
    {
        Table { name, columns, comment: None }
    }

    /// Appends one column at the end of the column order.
    pub fn add_column(&mut self, column: Column)
        ensures
            final(self)@ == (TableV {
                columns: old(self)@.columns.push(column@),
                ..old(self)@
            }),
    {
        let ghost c = column@;
        self.columns.push(column);
        proof {
            assert(cols_view(self.columns@) =~= old(self)@.columns.push(c));
        }
    }

    /// Replaces the table's comment.
    pub fn set_comment(&mut self, comment: Option<String>)
        ensures
            final(self)@ == (TableV { comment: opt_str_view(comment), ..old(self)@ }),
    {
        self.comment = comment;
    }
}

} // verus!
