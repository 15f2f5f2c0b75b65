//! The rows that a catalog query returns, as plain values, and the reading
//! of their fields.

use crate::text::{lemma_first_occurrence, lemma_no_occurrence, str_eq};
use vstd::prelude::*;

verus! {

/// One value of a row. `Other` stands for every kind of value that no
/// catalog query is known to report.
#[derive(Debug, PartialEq, Eq)]
pub enum Value {
    Null,
    Integer(i64),
    Text(String),
    Boolean(bool),
    Other,
}

pub enum ValueView {
    Null,
    Integer(int),
    Text(Seq<char>),
    Boolean(bool),
    Other,
}

impl View for Value {
    type V = ValueView;

    open spec fn view(&self) -> ValueView {
        match *self {
            Value::Null => ValueView::Null,
            Value::Integer(i) => ValueView::Integer(i as int),
            Value::Text(t) => ValueView::Text(t@),
            Value::Boolean(b) => ValueView::Boolean(b),
            Value::Other => ValueView::Other,
        }
    }
}

/// One field of a row: the name of the result column and the value.
#[derive(Debug, PartialEq, Eq)]
pub struct Field {
    pub name: String,
    pub value: Value,
}

pub struct FieldView {
    pub name: Seq<char>,
    pub value: ValueView,
}

impl View for Field {
    type V = FieldView;

    open spec fn view(&self) -> FieldView {
        FieldView { name: self.name@, value: self.value@ }
    }
}

/// One row of a result set.
#[derive(Debug, PartialEq, Eq)]
pub struct ResultRow {
    pub fields: Vec<Field>,
}

impl View for ResultRow {
    type V = Seq<FieldView>;

    open spec fn view(&self) -> Seq<FieldView> {
        self.fields@.map_values(|f: Field| f@)
    }
}

/// The rows that a list holds, as mathematical values.
pub open spec fn rows_of(rows: Seq<ResultRow>) -> Seq<Seq<FieldView>> {
    rows.map_values(|r: ResultRow| r@)
}

/// The names of the fields of a row, in order.
pub open spec fn field_names(row: Seq<FieldView>) -> Seq<Seq<char>> {
    row.map_values(|f: FieldView| f.name)
}

/// The value of the first field of that name.
pub open spec fn value_in(row: Seq<FieldView>, name: Seq<char>) -> Option<ValueView> {
    match field_names(row).index_of_first(name) {
        Some(i) => Some(row[i].value),
        None => None,
    }
}

/// The text of a field, where the row has the field and it holds a text.
pub open spec fn text_in(row: Seq<FieldView>, name: Seq<char>) -> Option<Seq<char>> {
    match value_in(row, name) {
        Some(ValueView::Text(t)) => Some(t),
        _ => None,
    }
}

/// The text of a field that may be null: `Some(None)` for null.
pub open spec fn optional_text_in(row: Seq<FieldView>, name: Seq<char>) -> Option<
    Option<Seq<char>>,
> {
    match value_in(row, name) {
        Some(ValueView::Text(t)) => Some(Some(t)),
        Some(ValueView::Null) => Some(None),
        _ => None,
    }
}

/// The truth value of a field: a boolean, or one of the integers 0 and 1,
/// as engines without a boolean type report it.
pub open spec fn flag_in(row: Seq<FieldView>, name: Seq<char>) -> Option<bool> {
    match value_in(row, name) {
        Some(ValueView::Boolean(b)) => Some(b),
        Some(ValueView::Integer(i)) => if i == 0 || i == 1 {
            Some(i == 1)
        } else {
            None
        },
        _ => None,
    }
}

/// The ordinal of a field: an integer that is not negative and fits in 32
/// bits.
pub open spec fn ordinal_in(row: Seq<FieldView>, name: Seq<char>) -> Option<nat> {
    match value_in(row, name) {
        Some(ValueView::Integer(i)) => if 0 <= i <= u32::MAX {
            Some(i as nat)
        } else {
            None
        },
        _ => None,
    }
}

impl ResultRow {
    /// The value of the first field of that name.
    pub fn get(&self, name: &str) -> (found: Option<&Value>)
        ensures
            match found {
                Some(v) => value_in(self@, name@) == Some(v@),
                None => value_in(self@, name@) is None,
            },
    {
        let mut i: usize = 0;
        while i < self.fields.len()
            invariant
                i <= self.fields.len(),
                forall|j: int| 0 <= j < i ==> field_names(self@)[j] != name@,
            decreases self.fields.len() - i,
        {
            if str_eq(self.fields[i].name.as_str(), name) {
                proof {
                    lemma_first_occurrence(field_names(self@), name@, i as int);
                }
                return Some(&self.fields[i].value);
            }
            i = i + 1;
        }
        proof {
            lemma_no_occurrence(field_names(self@), name@);
        }
        None
    }

    /// The text of a field.
    pub fn text(&self, name: &str) -> (text: Option<String>)
        ensures
            crate::text::text_of(text) == text_in(self@, name@),
    {
        match self.get(name) {
            Some(Value::Text(t)) => Some(t.clone()),
            _ => None,
        }
    }

    /// The text of a field that may be null.
    pub fn optional_text(&self, name: &str) -> (text: Option<Option<String>>)
        ensures
            match text {
                Some(t) => optional_text_in(self@, name@) == Some(crate::text::text_of(t)),
                None => optional_text_in(self@, name@) is None,
            },
    {
        match self.get(name) {
            Some(Value::Text(t)) => Some(Some(t.clone())),
            Some(Value::Null) => Some(None),
            _ => None,
        }
    }

    /// The truth value of a field.
    pub fn flag(&self, name: &str) -> (flag: Option<bool>)
        ensures
            flag == flag_in(self@, name@),
    {
        match self.get(name) {
            Some(Value::Boolean(b)) => Some(*b),
            Some(Value::Integer(i)) => if *i == 0 {
                Some(false)
            } else if *i == 1 {
                Some(true)
            } else {
                None
            },
            _ => None,
        }
    }

    /// The ordinal of a field.
    pub fn ordinal(&self, name: &str) -> (ordinal: Option<u32>)
        ensures
            match ordinal {
                Some(n) => ordinal_in(self@, name@) == Some(n as nat),
                None => ordinal_in(self@, name@) is None,
            },
    {
        match self.get(name) {
            Some(Value::Integer(i)) => if 0 <= *i && *i <= 0xffff_ffff {
                Some(*i as u32)
            } else {
                None
            },
            _ => None,
        }
    }
}

} // verus!
