//! Tables, their columns and their rows, and how they are encoded.

use vstd::prelude::*;
use vstd::std_specs::cmp::PartialEqSpecImpl;

use crate::base::codec;
use crate::base::codec::Parsed;

verus! {

#[derive(Clone, Copy, Debug, PartialEq, Eq, Structural)]
pub enum ColumnType {
    Int64,
    Utf8,
    Bytes,
    Bool,
    Float64,
}

#[derive(Debug)]
pub struct ColumnDef {
    pub name: String,
    pub col_type: ColumnType,
    pub nullable: bool,
}

#[derive(Debug)]
pub struct TableSchema {
    pub name: String,
    pub columns: Vec<ColumnDef>,
    /// Column names that form the primary key.
    pub primary_key: Vec<String>,
}

/// A value in a row.
#[derive(Debug)]
pub enum Value {
    Null,
    Int64(i64),
    Utf8(String),
    Bytes(Vec<u8>),
    Bool(bool),
    /// The bits of a double-precision number.
    Float64(u64),
}

/// A row is an ordered list of values (matching column order in schema).
#[derive(Debug)]
pub struct Row {
    pub values: Vec<Value>,
}

// Contents

/// The contents of a [`ColumnDef`].
#[verifier::ext_equal]
pub struct ColumnView {
    pub name: Seq<char>,
    pub col_type: ColumnType,
    pub nullable: bool,
}

/// The contents of a [`TableSchema`].
#[verifier::ext_equal]
pub struct SchemaView {
    pub name: Seq<char>,
    pub columns: Seq<ColumnView>,
    pub primary_key: Seq<Seq<char>>,
}

/// The contents of a [`Value`].
#[verifier::ext_equal]
pub enum ValueView {
    Null,
    Int64(i64),
    Utf8(Seq<char>),
    Bytes(Seq<u8>),
    Bool(bool),
    Float64(u64),
}

impl View for ColumnDef {
    type V = ColumnView;

    open spec fn view(&self) -> ColumnView {
        ColumnView { name: self.name@, col_type: self.col_type, nullable: self.nullable }
    }
}

/// The contents of a list of names.
pub open spec fn names_view(names: Seq<String>) -> Seq<Seq<char>> {
    names.map_values(|n: String| n@)
}

/// The contents of a list of columns.
pub open spec fn columns_view(columns: Seq<ColumnDef>) -> Seq<ColumnView> {
    columns.map_values(|c: ColumnDef| c@)
}

/// The contents of a list of values.
pub open spec fn values_view(values: Seq<Value>) -> Seq<ValueView> {
    values.map_values(|v: Value| v@)
}

impl View for TableSchema {
    type V = SchemaView;

    open spec fn view(&self) -> SchemaView {
        SchemaView {
            name: self.name@,
            columns: columns_view(self.columns@),
            primary_key: names_view(self.primary_key@),
        }
    }
}

impl View for Value {
    type V = ValueView;

    open spec fn view(&self) -> ValueView {
        match self {
            Value::Null => ValueView::Null,
            Value::Int64(n) => ValueView::Int64(*n),
            Value::Utf8(s) => ValueView::Utf8(s@),
            Value::Bytes(b) => ValueView::Bytes(b@),
            Value::Bool(b) => ValueView::Bool(*b),
            Value::Float64(bits) => ValueView::Float64(*bits),
        }
    }
}

/// The bits of a double-precision number without its sign.
pub open spec fn magnitude(bits: u64) -> u64 {
    bits % 0x8000_0000_0000_0000
}

/// The bits are those of no number: all bits of the exponent are set, and some of
/// the fraction.
pub open spec fn is_nan(bits: u64) -> bool {
    magnitude(bits) > 0x7ff0_0000_0000_0000
}

/// Equality of double-precision numbers: what is no number equals nothing, and the
/// two zeros are equal.
pub open spec fn same_number(a: u64, b: u64) -> bool {
    &&& !is_nan(a)
    &&& !is_nan(b)
    &&& a == b || magnitude(a) == 0 && magnitude(b) == 0
}

/// Equality of values: numbers with a fraction are compared as numbers.
pub open spec fn same_value(a: ValueView, b: ValueView) -> bool {
    match (a, b) {
        (ValueView::Float64(x), ValueView::Float64(y)) => same_number(x, y),
        _ => a == b,
    }
}

fn same_bytes(a: &Vec<u8>, b: &Vec<u8>) -> (r: bool)
    ensures
        r == (a@ == b@),
{
    if a.len() != b.len() {
        return false;
    }
    let mut i: usize = 0;
    while i < a.len()
        invariant
            i <= a@.len() == b@.len(),
            forall|j: int| 0 <= j < i ==> a@[j] == b@[j],
        decreases a.len() - i,
    {
        if a[i] != b[i] {
            return false;
        }
        i = i + 1;
    }
    assert(a@ == b@);
    true
}

impl PartialEq for Value {
    fn eq(&self, other: &Value) -> (r: bool) {
        match (self, other) {
            (Value::Null, Value::Null) => true,
            (Value::Int64(a), Value::Int64(b)) => *a == *b,
            (Value::Utf8(a), Value::Utf8(b)) => *a == *b,
            (Value::Bytes(a), Value::Bytes(b)) => same_bytes(a, b),
            (Value::Bool(a), Value::Bool(b)) => *a == *b,
            (Value::Float64(a), Value::Float64(b)) => {
                let x: u64 = *a % 0x8000_0000_0000_0000;
                let y: u64 = *b % 0x8000_0000_0000_0000;
                x <= 0x7ff0_0000_0000_0000 && y <= 0x7ff0_0000_0000_0000 && (*a == *b || x == 0
                    && y == 0)
            },
            _ => false,
        }
    }
}

impl PartialEqSpecImpl for Value {
    open spec fn obeys_eq_spec() -> bool {
        true
    }

    open spec fn eq_spec(&self, other: &Value) -> bool {
        same_value(self@, other@)
    }
}

impl View for Row {
    type V = Seq<ValueView>;

    open spec fn view(&self) -> Seq<ValueView> {
        values_view(self.values@)
    }
}

// Copies

impl Clone for ColumnDef {
    fn clone(&self) -> (copy: Self)
        ensures
            copy@ == self@,
    {
        ColumnDef { name: self.name.clone(), col_type: self.col_type, nullable: self.nullable }
    }
}

impl Clone for Value {
    fn clone(&self) -> (copy: Self)
        ensures
            copy@ == self@,
    {
        match self {
            Value::Null => Value::Null,
            Value::Int64(n) => Value::Int64(*n),
            Value::Utf8(s) => Value::Utf8(s.clone()),
            Value::Bytes(b) => {
                let copy = b.clone();
                assert(copy@ == b@);
                Value::Bytes(copy)
            },
            Value::Bool(b) => Value::Bool(*b),
            Value::Float64(bits) => Value::Float64(*bits),
        }
    }
}

/// Copies a list of values.
pub fn copy_values(values: &Vec<Value>) -> (copy: Vec<Value>)
    ensures
        values_view(copy@) == values_view(values@),
{
    let mut copy: Vec<Value> = Vec::new();
    let mut i: usize = 0;
    while i < values.len()
        invariant
            i <= values@.len(),
            copy@.len() == i,
            forall|j: int| 0 <= j < i ==> (#[trigger] copy@[j])@ == values@[j]@,
        decreases values.len() - i,
    {
        copy.push(values[i].clone());
        i = i + 1;
    }
    assert(values_view(copy@) == values_view(values@));
    copy
}

/// Copies a list of names.
pub fn copy_names(names: &Vec<String>) -> (copy: Vec<String>)
    ensures
        names_view(copy@) == names_view(names@),
{
    let mut copy: Vec<String> = Vec::new();
    let mut i: usize = 0;
    while i < names.len()
        invariant
            i <= names@.len(),
            copy@.len() == i,
            forall|j: int| 0 <= j < i ==> (#[trigger] copy@[j])@ == names@[j]@,
        decreases names.len() - i,
    {
        copy.push(names[i].clone());
        i = i + 1;
    }
    assert(names_view(copy@) == names_view(names@));
    copy
}

impl Clone for Row {
    fn clone(&self) -> (copy: Self)
        ensures
            copy@ == self@,
    {
        Row { values: copy_values(&self.values) }
    }
}

impl Clone for TableSchema {
    fn clone(&self) -> (copy: Self)
        ensures
            copy@ == self@,
    {
        let mut columns: Vec<ColumnDef> = Vec::new();
        let mut i: usize = 0;
        while i < self.columns.len()
            invariant
                i <= self.columns@.len(),
                columns@.len() == i,
                forall|j: int| 0 <= j < i ==> (#[trigger] columns@[j])@ == self.columns@[j]@,
            decreases self.columns.len() - i,
        {
            columns.push(self.columns[i].clone());
            i = i + 1;
        }
        assert(columns_view(columns@) == columns_view(self.columns@));
        TableSchema {
            name: self.name.clone(),
            columns,
            primary_key: copy_names(&self.primary_key),
        }
    }
}

// Encodings

/// The number of a column type.
pub open spec fn type_tag(t: ColumnType) -> u32 {
    match t {
        ColumnType::Int64 => 0,
        ColumnType::Utf8 => 1,
        ColumnType::Bytes => 2,
        ColumnType::Bool => 3,
        ColumnType::Float64 => 4,
    }
}

/// The column type of a number.
pub open spec fn type_of_tag(tag: u32) -> Option<ColumnType> {
    if tag == 0 {
        Some(ColumnType::Int64)
    } else if tag == 1 {
        Some(ColumnType::Utf8)
    } else if tag == 2 {
        Some(ColumnType::Bytes)
    } else if tag == 3 {
        Some(ColumnType::Bool)
    } else if tag == 4 {
        Some(ColumnType::Float64)
    } else {
        None
    }
}

pub open spec fn parse_type(b: Seq<u8>) -> Parsed<ColumnType> {
    match codec::parse_u32(b) {
        Err(e) => Err(e),
        Ok((tag, rest)) => match type_of_tag(tag) {
            Some(t) => Ok((t, rest)),
            None => Err(codec::tag_failure(tag, 5)),
        },
    }
}

pub open spec fn column_bytes(c: ColumnView) -> Seq<u8> {
    codec::str_bytes(c.name) + codec::u32_bytes(type_tag(c.col_type)) + codec::bool_bytes(
        c.nullable,
    )
}

pub open spec fn parse_column(b: Seq<u8>) -> Parsed<ColumnView> {
    match codec::parse_str(b) {
        Err(e) => Err(e),
        Ok((name, rest)) => match parse_type(rest) {
            Err(e) => Err(e),
            Ok((col_type, rest)) => match codec::parse_bool(rest) {
                Err(e) => Err(e),
                Ok((nullable, rest)) => Ok((ColumnView { name, col_type, nullable }, rest)),
            },
        },
    }
}

pub open spec fn schema_bytes(s: SchemaView) -> Seq<u8> {
    codec::str_bytes(s.name) + codec::list_bytes(s.columns, |c: ColumnView| column_bytes(c))
        + codec::list_bytes(s.primary_key, |n: Seq<char>| codec::str_bytes(n))
}

pub open spec fn parse_schema(b: Seq<u8>) -> Parsed<SchemaView> {
    match codec::parse_str(b) {
        Err(e) => Err(e),
        Ok((name, rest)) => match codec::parse_list(rest, |x: Seq<u8>| parse_column(x)) {
            Err(e) => Err(e),
            Ok((columns, rest)) => match codec::parse_list(
                rest,
                |x: Seq<u8>| codec::parse_str(x),
            ) {
                Err(e) => Err(e),
                Ok((primary_key, rest)) => Ok((SchemaView { name, columns, primary_key }, rest)),
            },
        },
    }
}

pub open spec fn value_bytes(v: ValueView) -> Seq<u8> {
    match v {
        ValueView::Null => codec::u32_bytes(0),
        ValueView::Int64(n) => codec::u32_bytes(1) + codec::i64_bytes(n),
        ValueView::Utf8(s) => codec::u32_bytes(2) + codec::str_bytes(s),
        ValueView::Bytes(b) => codec::u32_bytes(3) + codec::blob_bytes(b),
        ValueView::Bool(b) => codec::u32_bytes(4) + codec::bool_bytes(b),
        ValueView::Float64(bits) => codec::u32_bytes(5) + codec::u64_bytes(bits),
    }
}

pub open spec fn parse_value(b: Seq<u8>) -> Parsed<ValueView> {
    match codec::parse_u32(b) {
        Err(e) => Err(e),
        Ok((tag, rest)) => if tag == 0 {
            Ok((ValueView::Null, rest))
        } else if tag == 1 {
            match codec::parse_i64(rest) {
                Err(e) => Err(e),
                Ok((n, rest)) => Ok((ValueView::Int64(n), rest)),
            }
        } else if tag == 2 {
            match codec::parse_str(rest) {
                Err(e) => Err(e),
                Ok((s, rest)) => Ok((ValueView::Utf8(s), rest)),
            }
        } else if tag == 3 {
            match codec::parse_blob(rest) {
                Err(e) => Err(e),
                Ok((v, rest)) => Ok((ValueView::Bytes(v), rest)),
            }
        } else if tag == 4 {
            match codec::parse_bool(rest) {
                Err(e) => Err(e),
                Ok((v, rest)) => Ok((ValueView::Bool(v), rest)),
            }
        } else if tag == 5 {
            match codec::parse_u64(rest) {
                Err(e) => Err(e),
                Ok((bits, rest)) => Ok((ValueView::Float64(bits), rest)),
            }
        } else {
            Err(codec::tag_failure(tag, 6))
        },
    }
}

pub open spec fn row_bytes(values: Seq<ValueView>) -> Seq<u8> {
    codec::list_bytes(values, |v: ValueView| value_bytes(v))
}

pub open spec fn parse_row(b: Seq<u8>) -> Parsed<Seq<ValueView>> {
    codec::parse_list(b, |x: Seq<u8>| parse_value(x))
}

// Writing

pub(crate) fn put_value(out: &mut Vec<u8>, v: &Value)
    ensures
        final(out)@ == old(out)@ + value_bytes(v@),
{
    match v {
        Value::Null => codec::put_u32(out, 0),
        Value::Int64(n) => {
            codec::put_u32(out, 1);
            codec::put_i64(out, *n);
        },
        Value::Utf8(s) => {
            codec::put_u32(out, 2);
            codec::put_str(out, s.as_str());
        },
        Value::Bytes(b) => {
            codec::put_u32(out, 3);
            codec::put_blob(out, b.as_slice());
        },
        Value::Bool(b) => {
            codec::put_u32(out, 4);
            codec::put_bool(out, *b);
        },
        Value::Float64(bits) => {
            codec::put_u32(out, 5);
            codec::put_u64(out, *bits);
        },
    }
    assert(out@ == old(out)@ + value_bytes(v@));
}

pub(crate) fn put_values(out: &mut Vec<u8>, values: &Vec<Value>)
    ensures
        final(out)@ == old(out)@ + row_bytes(values_view(values@)),
{
    let ghost all = values_view(values@);
    let ghost write = |v: ValueView| value_bytes(v);
    codec::put_u64(out, values.len() as u64);
    let ghost start = out@;
    let mut i: usize = 0;
    proof {
        assert(all.skip(0) == all);
    }
    while i < values.len()
        invariant
            i <= values@.len(),
            all == values_view(values@),
            write == |v: ValueView| value_bytes(v),
            out@ + codec::items_bytes(all.skip(i as int), write) == start + codec::items_bytes(
                all,
                write,
            ),
        decreases values.len() - i,
    {
        let ghost before = out@;
        put_value(out, &values[i]);
        proof {
            codec::items_bytes_step(all, write, i as int);
            let more = codec::items_bytes(all.skip(i + 1), write);
            assert(before + (value_bytes(all[i as int]) + more) == out@ + more);
        }
        i = i + 1;
    }
    proof {
        assert(all.skip(i as int) == Seq::<ValueView>::empty());
        assert(out@ + codec::items_bytes(all.skip(i as int), write) == out@);
        assert(out@ == old(out)@ + row_bytes(all));
    }
}

fn put_column(out: &mut Vec<u8>, c: &ColumnDef)
    ensures
        final(out)@ == old(out)@ + column_bytes(c@),
{
    let tag: u32 = match c.col_type {
        ColumnType::Int64 => 0,
        ColumnType::Utf8 => 1,
        ColumnType::Bytes => 2,
        ColumnType::Bool => 3,
        ColumnType::Float64 => 4,
    };
    codec::put_str(out, c.name.as_str());
    codec::put_u32(out, tag);
    codec::put_bool(out, c.nullable);
    assert(out@ == old(out)@ + column_bytes(c@));
}

fn put_columns(out: &mut Vec<u8>, columns: &Vec<ColumnDef>)
    ensures
        final(out)@ == old(out)@ + codec::list_bytes(
            columns_view(columns@),
            |c: ColumnView| column_bytes(c),
        ),
{
    let ghost all = columns_view(columns@);
    let ghost write = |c: ColumnView| column_bytes(c);
    codec::put_u64(out, columns.len() as u64);
    let ghost start = out@;
    let mut i: usize = 0;
    proof {
        assert(all.skip(0) == all);
    }
    while i < columns.len()
        invariant
            i <= columns@.len(),
            all == columns_view(columns@),
            write == |c: ColumnView| column_bytes(c),
            out@ + codec::items_bytes(all.skip(i as int), write) == start + codec::items_bytes(
                all,
                write,
            ),
        decreases columns.len() - i,
    {
        let ghost before = out@;
        put_column(out, &columns[i]);
        proof {
            codec::items_bytes_step(all, write, i as int);
            let more = codec::items_bytes(all.skip(i + 1), write);
            assert(before + (column_bytes(all[i as int]) + more) == out@ + more);
        }
        i = i + 1;
    }
    proof {
        assert(all.skip(i as int) == Seq::<ColumnView>::empty());
        assert(out@ + codec::items_bytes(all.skip(i as int), write) == out@);
        assert(out@ == old(out)@ + codec::list_bytes(all, write));
    }
}

fn put_names(out: &mut Vec<u8>, names: &Vec<String>)
    ensures
        final(out)@ == old(out)@ + codec::list_bytes(
            names_view(names@),
            |n: Seq<char>| codec::str_bytes(n),
        ),
{
    let ghost all = names_view(names@);
    let ghost write = |n: Seq<char>| codec::str_bytes(n);
    codec::put_u64(out, names.len() as u64);
    let ghost start = out@;
    let mut i: usize = 0;
    proof {
        assert(all.skip(0) == all);
    }
    while i < names.len()
        invariant
            i <= names@.len(),
            all == names_view(names@),
            write == |n: Seq<char>| codec::str_bytes(n),
            out@ + codec::items_bytes(all.skip(i as int), write) == start + codec::items_bytes(
                all,
                write,
            ),
        decreases names.len() - i,
    {
        let ghost before = out@;
        codec::put_str(out, names[i].as_str());
        proof {
            codec::items_bytes_step(all, write, i as int);
            let more = codec::items_bytes(all.skip(i + 1), write);
            assert(before + (codec::str_bytes(all[i as int]) + more) == out@ + more);
        }
        i = i + 1;
    }
    proof {
        assert(all.skip(i as int) == Seq::<Seq<char>>::empty());
        assert(out@ + codec::items_bytes(all.skip(i as int), write) == out@);
        assert(out@ == old(out)@ + codec::list_bytes(all, write));
    }
}

pub(crate) fn put_schema(out: &mut Vec<u8>, s: &TableSchema)
    ensures
        final(out)@ == old(out)@ + schema_bytes(s@),
{
    codec::put_str(out, s.name.as_str());
    put_columns(out, &s.columns);
    put_names(out, &s.primary_key);
    assert(out@ == old(out)@ + schema_bytes(s@));
}


// Reading

fn take_value(input: &[u8]) -> (r: Result<(Value, &[u8]), String>)
    ensures
        codec::reads(r, parse_value(input@), |v: Value| v@),
{
    let (tag, rest) = match codec::take_u32(input) {
        Err(e) => return Err(e),
        Ok(p) => p,
    };
    if tag == 0 {
        Ok((Value::Null, rest))
    } else if tag == 1 {
        match codec::take_i64(rest) {
            Err(e) => Err(e),
            Ok((n, rest)) => Ok((Value::Int64(n), rest)),
        }
    } else if tag == 2 {
        match codec::take_str(rest) {
            Err(e) => Err(e),
            Ok((s, rest)) => Ok((Value::Utf8(s), rest)),
        }
    } else if tag == 3 {
        match codec::take_blob(rest) {
            Err(e) => Err(e),
            Ok((v, rest)) => Ok((Value::Bytes(v), rest)),
        }
    } else if tag == 4 {
        match codec::take_bool(rest) {
            Err(e) => Err(e),
            Ok((v, rest)) => Ok((Value::Bool(v), rest)),
        }
    } else if tag == 5 {
        match codec::take_u64(rest) {
            Err(e) => Err(e),
            Ok((bits, rest)) => Ok((Value::Float64(bits), rest)),
        }
    } else {
        Err(codec::tag_message(tag, 6))
    }
}

fn take_type(input: &[u8]) -> (r: Result<(ColumnType, &[u8]), String>)
    ensures
        codec::reads(r, parse_type(input@), |t: ColumnType| t),
{
    let (tag, rest) = match codec::take_u32(input) {
        Err(e) => return Err(e),
        Ok(p) => p,
    };
    if tag == 0 {
        Ok((ColumnType::Int64, rest))
    } else if tag == 1 {
        Ok((ColumnType::Utf8, rest))
    } else if tag == 2 {
        Ok((ColumnType::Bytes, rest))
    } else if tag == 3 {
        Ok((ColumnType::Bool, rest))
    } else if tag == 4 {
        Ok((ColumnType::Float64, rest))
    } else {
        Err(codec::tag_message(tag, 5))
    }
}

fn take_column(input: &[u8]) -> (r: Result<(ColumnDef, &[u8]), String>)
    ensures
        codec::reads(r, parse_column(input@), |c: ColumnDef| c@),
{
    let (name, rest) = match codec::take_str(input) {
        Err(e) => return Err(e),
        Ok(p) => p,
    };
    let (col_type, rest) = match take_type(rest) {
        Err(e) => return Err(e),
        Ok(p) => p,
    };
    match codec::take_bool(rest) {
        Err(e) => Err(e),
        Ok((nullable, rest)) => Ok((ColumnDef { name, col_type, nullable }, rest)),
    }
}

/// Reads a list of values.
pub(crate) fn take_values(input: &[u8]) -> (r: Result<(Vec<Value>, &[u8]), String>)
    ensures
        codec::reads(
            r,
            codec::parse_list(input@, |x: Seq<u8>| parse_value(x)),
            |v: Vec<Value>| values_view(v@),
        ),
{
    let (count, start) = match codec::take_u64(input) {
        Err(e) => return Err(e),
        Ok(p) => p,
    };
    let ghost read = |x: Seq<u8>| parse_value(x);
    let mut left: &[u8] = start;
    let mut items: Vec<Value> = Vec::new();
    let mut i: u64 = 0;
    proof {
        codec::prepend_nothing(codec::parse_items(start@, count as nat, read));
        assert(values_view(items@) == Seq::<ValueView>::empty());
    }
    while i < count
        invariant
            i <= count,
            read == |x: Seq<u8>| parse_value(x),
            codec::parse_u64(input@) == Parsed::Ok((count, start@)),
            codec::parse_items(start@, count as nat, read) == codec::prepend(
                values_view(items@),
                codec::parse_items(left@, (count - i) as nat, read),
            ),
        decreases count - i,
    {
        let (item, rest) = match take_value(left) {
            Err(e) => return Err(e),
            Ok(p) => p,
        };
        proof {
            codec::prepend_item(
                values_view(items@),
                left@,
                (count - i) as nat,
                read,
                item@,
                rest@,
            );
            assert(values_view(items@.push(item)) == values_view(items@).push(item@));
        }
        items.push(item);
        left = rest;
        i = i + 1;
    }
    proof {
        codec::prepend_to_nothing(values_view(items@), left@, read);
    }
    Ok((items, left))
}

fn take_columns(input: &[u8]) -> (r: Result<(Vec<ColumnDef>, &[u8]), String>)
    ensures
        codec::reads(
            r,
            codec::parse_list(input@, |x: Seq<u8>| parse_column(x)),
            |v: Vec<ColumnDef>| columns_view(v@),
        ),
{
    let (count, start) = match codec::take_u64(input) {
        Err(e) => return Err(e),
        Ok(p) => p,
    };
    let ghost read = |x: Seq<u8>| parse_column(x);
    let mut left: &[u8] = start;
    let mut items: Vec<ColumnDef> = Vec::new();
    let mut i: u64 = 0;
    proof {
        codec::prepend_nothing(codec::parse_items(start@, count as nat, read));
        assert(columns_view(items@) == Seq::<ColumnView>::empty());
    }
    while i < count
        invariant
            i <= count,
            read == |x: Seq<u8>| parse_column(x),
            codec::parse_u64(input@) == Parsed::Ok((count, start@)),
            codec::parse_items(start@, count as nat, read) == codec::prepend(
                columns_view(items@),
                codec::parse_items(left@, (count - i) as nat, read),
            ),
        decreases count - i,
    {
        let (item, rest) = match take_column(left) {
            Err(e) => return Err(e),
            Ok(p) => p,
        };
        proof {
            codec::prepend_item(
                columns_view(items@),
                left@,
                (count - i) as nat,
                read,
                item@,
                rest@,
            );
            assert(columns_view(items@.push(item)) == columns_view(items@).push(item@));
        }
        items.push(item);
        left = rest;
        i = i + 1;
    }
    proof {
        codec::prepend_to_nothing(columns_view(items@), left@, read);
    }
    Ok((items, left))
}

fn take_names(input: &[u8]) -> (r: Result<(Vec<String>, &[u8]), String>)
    ensures
        codec::reads(
            r,
            codec::parse_list(input@, |x: Seq<u8>| codec::parse_str(x)),
            |v: Vec<String>| names_view(v@),
        ),
{
    let (count, start) = match codec::take_u64(input) {
        Err(e) => return Err(e),
        Ok(p) => p,
    };
    let ghost read = |x: Seq<u8>| codec::parse_str(x);
    let mut left: &[u8] = start;
    let mut items: Vec<String> = Vec::new();
    let mut i: u64 = 0;
    proof {
        codec::prepend_nothing(codec::parse_items(start@, count as nat, read));
        assert(names_view(items@) == Seq::<Seq<char>>::empty());
    }
    while i < count
        invariant
            i <= count,
            read == |x: Seq<u8>| codec::parse_str(x),
            codec::parse_u64(input@) == Parsed::Ok((count, start@)),
            codec::parse_items(start@, count as nat, read) == codec::prepend(
                names_view(items@),
                codec::parse_items(left@, (count - i) as nat, read),
            ),
        decreases count - i,
    {
        let (item, rest) = match codec::take_str(left) {
            Err(e) => return Err(e),
            Ok(p) => p,
        };
        proof {
            codec::prepend_item(
                names_view(items@),
                left@,
                (count - i) as nat,
                read,
                item@,
                rest@,
            );
            assert(names_view(items@.push(item)) == names_view(items@).push(item@));
        }
        items.push(item);
        left = rest;
        i = i + 1;
    }
    proof {
        codec::prepend_to_nothing(names_view(items@), left@, read);
    }
    Ok((items, left))
}

pub(crate) fn take_schema(input: &[u8]) -> (r: Result<(TableSchema, &[u8]), String>)
    ensures
        codec::reads(r, parse_schema(input@), |s: TableSchema| s@),
{
    let (name, rest) = match codec::take_str(input) {
        Err(e) => return Err(e),
        Ok(p) => p,
    };
    let (columns, rest) = match take_columns(rest) {
        Err(e) => return Err(e),
        Ok(p) => p,
    };
    match take_names(rest) {
        Err(e) => Err(e),
        Ok((primary_key, rest)) => Ok((TableSchema { name, columns, primary_key }, rest)),
    }
}

// What was written is read back

/// A value comes back from its bytes.
pub proof fn value_round_trip(v: ValueView, rest: Seq<u8>)
    requires
        value_bytes(v).len() <= u64::MAX,
    ensures
        value_bytes(v).len() >= 4,
        parse_value(value_bytes(v) + rest) == Parsed::Ok((v, rest)),
{
    match v {
        ValueView::Null => {
            codec::u32_round_trip(0, rest);
        },
        ValueView::Int64(n) => {
            let more = codec::i64_bytes(n) + rest;
            assert(value_bytes(v) + rest == codec::u32_bytes(1) + more);
            codec::u32_round_trip(1, more);
            codec::i64_round_trip(n, rest);
        },
        ValueView::Utf8(s) => {
            let more = codec::str_bytes(s) + rest;
            assert(value_bytes(v) + rest == codec::u32_bytes(2) + more);
            codec::u32_round_trip(2, more);
            codec::str_round_trip(s, rest);
        },
        ValueView::Bytes(b) => {
            let more = codec::blob_bytes(b) + rest;
            assert(value_bytes(v) + rest == codec::u32_bytes(3) + more);
            codec::u32_round_trip(3, more);
            codec::u64_round_trip(b.len() as u64, Seq::empty());
            codec::blob_round_trip(b, rest);
        },
        ValueView::Bool(b) => {
            let more = codec::bool_bytes(b) + rest;
            assert(value_bytes(v) + rest == codec::u32_bytes(4) + more);
            codec::u32_round_trip(4, more);
            codec::bool_round_trip(b, rest);
        },
        ValueView::Float64(bits) => {
            let more = codec::u64_bytes(bits) + rest;
            assert(value_bytes(v) + rest == codec::u32_bytes(5) + more);
            codec::u32_round_trip(5, more);
            codec::u64_round_trip(bits, rest);
        },
    }
}

proof fn value_bytes_len(v: ValueView)
    ensures
        value_bytes(v).len() >= 4,
{
    codec::u32_round_trip(0, Seq::empty());
    codec::u32_round_trip(1, Seq::empty());
    codec::u32_round_trip(2, Seq::empty());
    codec::u32_round_trip(3, Seq::empty());
    codec::u32_round_trip(4, Seq::empty());
    codec::u32_round_trip(5, Seq::empty());
}

/// A row comes back from its bytes.
pub proof fn row_round_trip(values: Seq<ValueView>, rest: Seq<u8>)
    requires
        row_bytes(values).len() <= u64::MAX,
    ensures
        row_bytes(values).len() >= 8,
        parse_row(row_bytes(values) + rest) == Parsed::Ok((values, rest)),
{
    let write = |v: ValueView| value_bytes(v);
    let read = |x: Seq<u8>| parse_value(x);
    codec::u64_round_trip(values.len() as u64, Seq::empty());
    assert forall|i: int| 0 <= i < values.len() implies (#[trigger] write(values[i])).len() >= 4 by {
        value_bytes_len(values[i]);
    }
    codec::items_bytes_len(values, write, 4);
    assert forall|i: int, t: Seq<u8>| 0 <= i < values.len() implies #[trigger] read(
        write(values[i]) + t,
    ) == Parsed::Ok((values[i], t)) by {
        assert(write(values[i]).len() <= codec::items_bytes(values, write).len());
        value_round_trip(values[i], t);
    }
    codec::list_round_trip(values, write, read, rest);
}

proof fn column_round_trip(c: ColumnView, rest: Seq<u8>)
    requires
        column_bytes(c).len() <= u64::MAX,
    ensures
        parse_column(column_bytes(c) + rest) == Parsed::Ok((c, rest)),
{
    let tag = type_tag(c.col_type);
    let flag = codec::bool_bytes(c.nullable) + rest;
    let more = codec::u32_bytes(tag) + flag;
    assert(column_bytes(c) + rest == codec::str_bytes(c.name) + more);
    codec::str_round_trip(c.name, more);
    codec::u32_round_trip(tag, flag);
    codec::bool_round_trip(c.nullable, rest);
}

/// A schema comes back from its bytes.
pub proof fn schema_round_trip(s: SchemaView, rest: Seq<u8>)
    requires
        schema_bytes(s).len() <= u64::MAX,
    ensures
        parse_schema(schema_bytes(s) + rest) == Parsed::Ok((s, rest)),
{
    let write_column = |c: ColumnView| column_bytes(c);
    let read_column = |x: Seq<u8>| parse_column(x);
    let write_name = |n: Seq<char>| codec::str_bytes(n);
    let read_name = |x: Seq<u8>| codec::parse_str(x);
    let names = codec::list_bytes(s.primary_key, write_name) + rest;
    let columns = codec::list_bytes(s.columns, write_column) + names;
    assert(schema_bytes(s) + rest == codec::str_bytes(s.name) + columns);
    codec::str_round_trip(s.name, columns);
    codec::u64_round_trip(s.columns.len() as u64, Seq::empty());
    codec::u64_round_trip(s.primary_key.len() as u64, Seq::empty());

    assert forall|i: int| 0 <= i < s.columns.len() implies (
    #[trigger] write_column(s.columns[i])).len() >= 4 by {
        codec::u32_round_trip(type_tag(s.columns[i].col_type), Seq::empty());
    }
    codec::items_bytes_len(s.columns, write_column, 4);
    assert forall|i: int, t: Seq<u8>| 0 <= i < s.columns.len() implies #[trigger] read_column(
        write_column(s.columns[i]) + t,
    ) == Parsed::Ok((s.columns[i], t)) by {
        assert(write_column(s.columns[i]).len() <= codec::items_bytes(
            s.columns,
            write_column,
        ).len());
        column_round_trip(s.columns[i], t);
    }
    codec::list_round_trip(s.columns, write_column, read_column, names);

    assert forall|i: int| 0 <= i < s.primary_key.len() implies (
    #[trigger] write_name(s.primary_key[i])).len() >= 8 by {
        codec::u64_round_trip(
            vstd::utf8::encode_utf8(s.primary_key[i]).len() as u64,
            Seq::empty(),
        );
    }
    codec::items_bytes_len(s.primary_key, write_name, 8);
    assert forall|i: int, t: Seq<u8>| 0 <= i < s.primary_key.len() implies #[trigger] read_name(
        write_name(s.primary_key[i]) + t,
    ) == Parsed::Ok((s.primary_key[i], t)) by {
        assert(write_name(s.primary_key[i]).len() <= codec::items_bytes(
            s.primary_key,
            write_name,
        ).len());
        codec::str_round_trip(s.primary_key[i], t);
    }
    codec::list_round_trip(s.primary_key, write_name, read_name, rest);
}

} // verus!
