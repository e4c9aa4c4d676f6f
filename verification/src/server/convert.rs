//! Conversions between messages and tables.

use vstd::prelude::*;
use vstd::string::StringExecFns;

use crate::base::error::{ErrorView, RelosError};
use crate::server::messages;
use crate::server::messages::{
    Code,
    ColumnDefView,
    Kind,
    KindView,
    Status,
    StatusView,
    TableSchemaView,
};
use crate::table::schema;
use crate::table::schema::{
    ColumnDef,
    ColumnType,
    ColumnView,
    Row,
    SchemaView,
    TableSchema,
    Value,
    ValueView,
};

verus! {

/// The failure of a request that is not valid.
pub open spec fn invalid(message: Seq<char>) -> StatusView {
    StatusView { code: Code::InvalidArgument, message }
}

/// The column type that a number in a message stands for.
pub open spec fn type_of(n: i32) -> Result<ColumnType, StatusView> {
    if n == 1 {
        Ok(ColumnType::Int64)
    } else if n == 2 {
        Ok(ColumnType::Utf8)
    } else if n == 3 {
        Ok(ColumnType::Bytes)
    } else if n == 4 {
        Ok(ColumnType::Bool)
    } else if n == 5 {
        Ok(ColumnType::Float64)
    } else {
        Err(invalid("unspecified or unknown column type"@))
    }
}

/// The name that clients give to a column type.
pub open spec fn named_type(t: ColumnType) -> messages::ColumnType {
    match t {
        ColumnType::Int64 => messages::ColumnType::Int64,
        ColumnType::Utf8 => messages::ColumnType::Utf8,
        ColumnType::Bytes => messages::ColumnType::Bytes,
        ColumnType::Bool => messages::ColumnType::Bool,
        ColumnType::Float64 => messages::ColumnType::Float64,
    }
}

/// The value that a message holds. One without a kind is null.
pub open spec fn value_of(kind: Option<KindView>) -> ValueView {
    match kind {
        None => ValueView::Null,
        Some(KindView::IsNull(_)) => ValueView::Null,
        Some(KindView::Int64Value(n)) => ValueView::Int64(n),
        Some(KindView::StringValue(s)) => ValueView::Utf8(s),
        Some(KindView::BytesValue(b)) => ValueView::Bytes(b),
        Some(KindView::BoolValue(b)) => ValueView::Bool(b),
        Some(KindView::Float64Value(bits)) => ValueView::Float64(bits),
    }
}

/// How a value stands in a message.
pub open spec fn kind_of(v: ValueView) -> Option<KindView> {
    match v {
        ValueView::Null => Some(KindView::IsNull(true)),
        ValueView::Int64(n) => Some(KindView::Int64Value(n)),
        ValueView::Utf8(s) => Some(KindView::StringValue(s)),
        ValueView::Bytes(b) => Some(KindView::BytesValue(b)),
        ValueView::Bool(b) => Some(KindView::BoolValue(b)),
        ValueView::Float64(bits) => Some(KindView::Float64Value(bits)),
    }
}

/// The values that a message holds.
pub open spec fn values_of(kinds: Seq<Option<KindView>>) -> Seq<ValueView> {
    kinds.map_values(|k: Option<KindView>| value_of(k))
}

/// How a list of values stands in a message.
pub open spec fn kinds_of(values: Seq<ValueView>) -> Seq<Option<KindView>> {
    values.map_values(|v: ValueView| kind_of(v))
}

/// The column that a message describes.
pub open spec fn column_of(c: ColumnDefView) -> Result<ColumnView, StatusView> {
    match type_of(c.column_type) {
        Ok(col_type) => Ok(ColumnView { name: c.name, col_type, nullable: c.nullable }),
        Err(s) => Err(s),
    }
}

/// How a column stands in a message.
pub open spec fn column_message(c: ColumnView) -> ColumnDefView {
    ColumnDefView {
        name: c.name,
        column_type: messages::type_number(named_type(c.col_type)),
        nullable: c.nullable,
    }
}

/// The columns that a message describes; the first that is not valid is reported.
pub open spec fn columns_of(columns: Seq<ColumnDefView>) -> Result<Seq<ColumnView>, StatusView>
    decreases columns.len(),
{
    if columns.len() == 0 {
        Ok(Seq::empty())
    } else {
        match columns_of(columns.drop_last()) {
            Err(s) => Err(s),
            Ok(front) => match column_of(columns.last()) {
                Ok(c) => Ok(front.push(c)),
                Err(s) => Err(s),
            },
        }
    }
}

/// The schema that a message describes.
pub open spec fn schema_of(s: TableSchemaView) -> Result<SchemaView, StatusView> {
    match columns_of(s.columns) {
        Ok(columns) => Ok(SchemaView { name: s.name, columns, primary_key: s.primary_key }),
        Err(e) => Err(e),
    }
}

/// How a schema stands in a message.
pub open spec fn schema_message(s: SchemaView) -> TableSchemaView {
    TableSchemaView {
        name: s.name,
        columns: s.columns.map_values(|c: ColumnView| column_message(c)),
        primary_key: s.primary_key,
    }
}

/// The failure that reports an error.
pub open spec fn status_of(e: ErrorView) -> StatusView {
    match e {
        ErrorView::NotFound(m) => StatusView { code: Code::NotFound, message: m },
        ErrorView::InvalidOperation(m) => invalid(m),
        ErrorView::Internal(m) => StatusView { code: Code::Internal, message: m },
        other => StatusView { code: Code::Internal, message: other.text() },
    }
}

/// Whether a conversion returned what it should.
pub open spec fn converted<T: View>(r: Result<T, Status>, o: Result<T::V, StatusView>) -> bool {
    match o {
        Ok(v) => r is Ok && r->Ok_0@ == v,
        Err(s) => r is Err && r->Err_0@ == s,
    }
}

pub fn proto_column_type_to_relos(ct: i32) -> (r: Result<ColumnType, Status>)
    ensures
        match type_of(ct) {
            Ok(t) => r is Ok && r->Ok_0 == t,
            Err(s) => r is Err && r->Err_0@ == s,
        },
{
    match messages::ColumnType::from_number(ct) {
        Some(messages::ColumnType::Int64) => Ok(ColumnType::Int64),
        Some(messages::ColumnType::Utf8) => Ok(ColumnType::Utf8),
        Some(messages::ColumnType::Bytes) => Ok(ColumnType::Bytes),
        Some(messages::ColumnType::Bool) => Ok(ColumnType::Bool),
        Some(messages::ColumnType::Float64) => Ok(ColumnType::Float64),
        Some(messages::ColumnType::Unspecified) | None => {
            Err(Status::invalid_argument("unspecified or unknown column type".to_owned()))
        },
    }
}

pub fn relos_column_type_to_proto(ct: &ColumnType) -> (t: messages::ColumnType)
    ensures
        t == named_type(*ct),
{
    match ct {
        ColumnType::Int64 => messages::ColumnType::Int64,
        ColumnType::Utf8 => messages::ColumnType::Utf8,
        ColumnType::Bytes => messages::ColumnType::Bytes,
        ColumnType::Bool => messages::ColumnType::Bool,
        ColumnType::Float64 => messages::ColumnType::Float64,
    }
}

/// Copies bytes.
fn copy_bytes(b: &Vec<u8>) -> (copy: Vec<u8>)
    ensures
        copy@ == b@,
{
    let copy = b.clone();
    assert(copy@ == b@);
    copy
}

pub fn proto_value_to_relos(v: &messages::Value) -> (r: Value)
    ensures
        r@ == value_of(v@),
{
    match &v.kind {
        Some(Kind::IsNull(_)) | None => Value::Null,
        Some(Kind::Int64Value(n)) => Value::Int64(*n),
        Some(Kind::StringValue(s)) => Value::Utf8(s.clone()),
        Some(Kind::BytesValue(b)) => Value::Bytes(copy_bytes(b)),
        Some(Kind::BoolValue(b)) => Value::Bool(*b),
        Some(Kind::Float64Value(f)) => Value::Float64(*f),
    }
}

pub fn relos_value_to_proto(v: &Value) -> (r: messages::Value)
    ensures
        r@ == kind_of(v@),
{
    let kind = match v {
        Value::Null => Kind::IsNull(true),
        Value::Int64(n) => Kind::Int64Value(*n),
        Value::Utf8(s) => Kind::StringValue(s.clone()),
        Value::Bytes(b) => Kind::BytesValue(copy_bytes(b)),
        Value::Bool(b) => Kind::BoolValue(*b),
        Value::Float64(f) => Kind::Float64Value(*f),
    };
    messages::Value { kind: Some(kind) }
}

/// Converts a list of values.
pub fn proto_values_to_relos(values: &Vec<messages::Value>) -> (r: Vec<Value>)
    ensures
        schema::values_view(r@) == values_of(messages::values_view(values@)),
{
    let mut r: Vec<Value> = Vec::new();
    let mut i: usize = 0;
    while i < values.len()
        invariant
            i <= values@.len(),
            r@.len() == i,
            forall|j: int| 0 <= j < i ==> (#[trigger] r@[j])@ == value_of(values@[j]@),
        decreases values.len() - i,
    {
        r.push(proto_value_to_relos(&values[i]));
        i = i + 1;
    }
    assert(schema::values_view(r@) == values_of(messages::values_view(values@)));
    r
}

pub fn proto_column_def_to_relos(cd: &messages::ColumnDef) -> (r: Result<ColumnDef, Status>)
    ensures
        converted(r, column_of(cd@)),
{
    match proto_column_type_to_relos(cd.column_type) {
        Ok(col_type) => Ok(
            ColumnDef { name: cd.name.clone(), col_type, nullable: cd.nullable },
        ),
        Err(s) => Err(s),
    }
}

pub fn relos_column_def_to_proto(cd: &ColumnDef) -> (r: messages::ColumnDef)
    ensures
        r@ == column_message(cd@),
{
    messages::ColumnDef {
        name: cd.name.clone(),
        column_type: i32::from(relos_column_type_to_proto(&cd.col_type)),
        nullable: cd.nullable,
    }
}

/// The first column that is not valid decides.
proof fn failure_is_stable(columns: Seq<ColumnDefView>, n: int)
    requires
        0 <= n <= columns.len(),
        columns_of(columns.take(n)) is Err,
    ensures
        columns_of(columns) == columns_of(columns.take(n)),
    decreases columns.len() - n,
{
    if n < columns.len() {
        assert(columns.take(n + 1).drop_last() == columns.take(n));
        failure_is_stable(columns, n + 1);
    } else {
        assert(columns.take(n) == columns);
    }
}

pub fn proto_schema_to_relos(s: &messages::TableSchema) -> (r: Result<TableSchema, Status>)
    ensures
        converted(r, schema_of(s@)),
{
    let ghost given = s@.columns;
    let mut columns: Vec<ColumnDef> = Vec::new();
    let mut i: usize = 0;
    proof {
        assert(given.take(0) == Seq::<ColumnDefView>::empty());
        assert(schema::columns_view(columns@) == Seq::<ColumnView>::empty());
    }
    while i < s.columns.len()
        invariant
            i <= s.columns@.len(),
            given == s@.columns,
            columns_of(given.take(i as int)) == Result::<Seq<ColumnView>, StatusView>::Ok(
                schema::columns_view(columns@),
            ),
        decreases s.columns.len() - i,
    {
        proof {
            let next = given.take(i + 1);
            assert(next.drop_last() == given.take(i as int));
            assert(next.last() == s.columns@[i as int]@);
        }
        match proto_column_def_to_relos(&s.columns[i]) {
            Ok(c) => {
                proof {
                    assert(schema::columns_view(columns@.push(c)) == schema::columns_view(
                        columns@,
                    ).push(c@));
                }
                columns.push(c);
            },
            Err(e) => {
                proof {
                    failure_is_stable(given, i + 1);
                }
                return Err(e);
            },
        }
        i = i + 1;
    }
    assert(given.take(i as int) == given);
    let primary_key = schema::copy_names(&s.primary_key);
    let r = TableSchema { name: s.name.clone(), columns, primary_key };
    assert(r@.primary_key == s@.primary_key);
    Ok(r)
}

pub fn relos_schema_to_proto(s: &TableSchema) -> (r: messages::TableSchema)
    ensures
        r@ == schema_message(s@),
{
    let mut columns: Vec<messages::ColumnDef> = Vec::new();
    let mut i: usize = 0;
    while i < s.columns.len()
        invariant
            i <= s.columns@.len(),
            columns@.len() == i,
            forall|j: int|
                0 <= j < i ==> (#[trigger] columns@[j])@ == column_message(s.columns@[j]@),
        decreases s.columns.len() - i,
    {
        columns.push(relos_column_def_to_proto(&s.columns[i]));
        i = i + 1;
    }
    let primary_key = schema::copy_names(&s.primary_key);
    let r = messages::TableSchema { name: s.name.clone(), columns, primary_key };
    assert(r@.columns == schema_message(s@).columns);
    assert(r@.primary_key == s@.primary_key);
    r
}

pub fn proto_row_to_relos(r: &messages::Row) -> (row: Row)
    ensures
        row@ == values_of(r@),
{
    Row { values: proto_values_to_relos(&r.values) }
}

pub fn relos_row_to_proto(r: &Row) -> (row: messages::Row)
    ensures
        row@ == kinds_of(r@),
{
    let mut values: Vec<messages::Value> = Vec::new();
    let mut i: usize = 0;
    while i < r.values.len()
        invariant
            i <= r.values@.len(),
            values@.len() == i,
            forall|j: int| 0 <= j < i ==> (#[trigger] values@[j])@ == kind_of(r.values@[j]@),
        decreases r.values.len() - i,
    {
        values.push(relos_value_to_proto(&r.values[i]));
        i = i + 1;
    }
    assert(messages::values_view(values@) == kinds_of(r@));
    messages::Row { values }
}

pub fn relos_err_to_status(e: RelosError) -> (s: Status)
    ensures
        s@ == status_of(e@),
{
    match e {
        RelosError::NotFound(msg) => Status::not_found(msg),
        RelosError::InvalidOperation(msg) => Status::invalid_argument(msg),
        RelosError::Serialization(msg) => Status::internal(
            "serialization error: ".to_owned().concat(msg.as_str()),
        ),
        RelosError::Store(msg) => Status::internal(
            "store error: ".to_owned().concat(msg.as_str()),
        ),
        RelosError::Internal(msg) => Status::internal(msg),
        other => Status::internal(other.message()),
    }
}

// Laws

/// A value that goes out in a message comes back as it was.
pub proof fn value_comes_back(v: ValueView)
    ensures
        value_of(kind_of(v)) == v,
{
}

/// A row that goes out in a message comes back as it was.
pub proof fn row_comes_back(values: Seq<ValueView>)
    ensures
        values_of(kinds_of(values)) == values,
{
    assert(values_of(kinds_of(values)) =~= values);
}

/// A column type that goes out in a message comes back as it was.
pub proof fn column_type_comes_back(t: ColumnType)
    ensures
        type_of(messages::type_number(named_type(t))) == Result::<ColumnType, StatusView>::Ok(t),
{
}

proof fn columns_come_back(columns: Seq<ColumnView>)
    ensures
        columns_of(columns.map_values(|c: ColumnView| column_message(c))) == Result::<
            Seq<ColumnView>,
            StatusView,
        >::Ok(columns),
    decreases columns.len(),
{
    let sent = columns.map_values(|c: ColumnView| column_message(c));
    if columns.len() > 0 {
        columns_come_back(columns.drop_last());
        assert(sent.drop_last() == columns.drop_last().map_values(
            |c: ColumnView| column_message(c),
        ));
        column_type_comes_back(columns.last().col_type);
        assert(columns.drop_last().push(columns.last()) == columns);
    } else {
        assert(columns == Seq::<ColumnView>::empty());
    }
}

/// A schema that goes out in a message comes back as it was.
pub proof fn schema_comes_back(s: SchemaView)
    ensures
        schema_of(schema_message(s)) == Result::<SchemaView, StatusView>::Ok(s),
{
    columns_come_back(s.columns);
}

} // verus!
