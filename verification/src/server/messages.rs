//! The messages that a server exchanges with its clients.

use vstd::prelude::*;
use vstd::std_specs::convert::FromSpecImpl;

verus! {

/// The type of a column, as clients name it.
#[derive(Clone, Copy, Debug, PartialEq, Eq, Structural)]
pub enum ColumnType {
    Unspecified,
    Int64,
    Utf8,
    Bytes,
    Bool,
    Float64,
}

/// The number that stands for a column type in a message.
pub open spec fn type_number(t: ColumnType) -> i32 {
    match t {
        ColumnType::Unspecified => 0,
        ColumnType::Int64 => 1,
        ColumnType::Utf8 => 2,
        ColumnType::Bytes => 3,
        ColumnType::Bool => 4,
        ColumnType::Float64 => 5,
    }
}

impl From<ColumnType> for i32 {
    fn from(t: ColumnType) -> (n: i32) {
        match t {
            ColumnType::Unspecified => 0,
            ColumnType::Int64 => 1,
            ColumnType::Utf8 => 2,
            ColumnType::Bytes => 3,
            ColumnType::Bool => 4,
            ColumnType::Float64 => 5,
        }
    }
}

impl FromSpecImpl<ColumnType> for i32 {
    open spec fn obeys_from_spec() -> bool {
        true
    }

    open spec fn from_spec(t: ColumnType) -> i32 {
        type_number(t)
    }
}

impl ColumnType {
    /// The column type of a number, where it has one.
    pub fn from_number(n: i32) -> (t: Option<ColumnType>)
        ensures
            t is Some <==> 0 <= n <= 5,
            t is Some ==> type_number(t->0) == n,
    {
        if n == 0 {
            Some(ColumnType::Unspecified)
        } else if n == 1 {
            Some(ColumnType::Int64)
        } else if n == 2 {
            Some(ColumnType::Utf8)
        } else if n == 3 {
            Some(ColumnType::Bytes)
        } else if n == 4 {
            Some(ColumnType::Bool)
        } else if n == 5 {
            Some(ColumnType::Float64)
        } else {
            None
        }
    }
}

/// What a value in a message is.
#[derive(Debug)]
pub enum Kind {
    IsNull(bool),
    Int64Value(i64),
    StringValue(String),
    BytesValue(Vec<u8>),
    BoolValue(bool),
    /// The bits of a double-precision number.
    Float64Value(u64),
}

/// A value in a message.
#[derive(Debug)]
pub struct Value {
    pub kind: Option<Kind>,
}

#[derive(Debug)]
pub struct Row {
    pub values: Vec<Value>,
}

#[derive(Debug)]
pub struct ColumnDef {
    pub name: String,
    pub column_type: i32,
    pub nullable: bool,
}

#[derive(Debug)]
pub struct TableSchema {
    pub name: String,
    pub columns: Vec<ColumnDef>,
    pub primary_key: Vec<String>,
}

#[derive(Debug)]
pub struct CreateTableRequest {
    pub schema: Option<TableSchema>,
}

#[derive(Debug)]
pub struct CreateTableResponse {}

#[derive(Debug)]
pub struct DropTableRequest {
    pub table: String,
}

#[derive(Debug)]
pub struct DropTableResponse {}

#[derive(Debug)]
pub struct PutRequest {
    pub table: String,
    pub row: Option<Row>,
}

#[derive(Debug)]
pub struct PutResponse {}

#[derive(Debug)]
pub struct DeleteRequest {
    pub table: String,
    pub key: Vec<Value>,
}

#[derive(Debug)]
pub struct DeleteResponse {}

#[derive(Debug)]
pub struct GetRequest {
    pub table: String,
    pub key: Vec<Value>,
}

#[derive(Debug)]
pub struct GetResponse {
    pub found: bool,
    pub row: Option<Row>,
}

#[derive(Debug)]
pub struct ScanRequest {
    pub table: String,
}

#[derive(Debug)]
pub struct ScanResponse {
    pub rows: Vec<Row>,
}

/// The kind of failure that a request is answered with.
#[derive(Clone, Copy, Debug, PartialEq, Eq, Structural)]
pub enum Code {
    InvalidArgument,
    NotFound,
    Internal,
}

/// The failure that a request is answered with.
#[derive(Debug)]
pub struct Status {
    pub code: Code,
    pub message: String,
}

// Contents

/// The contents of a [`Kind`].
#[verifier::ext_equal]
pub enum KindView {
    IsNull(bool),
    Int64Value(i64),
    StringValue(Seq<char>),
    BytesValue(Seq<u8>),
    BoolValue(bool),
    Float64Value(u64),
}

/// The contents of a [`ColumnDef`].
#[verifier::ext_equal]
pub struct ColumnDefView {
    pub name: Seq<char>,
    pub column_type: i32,
    pub nullable: bool,
}

/// The contents of a [`TableSchema`].
#[verifier::ext_equal]
pub struct TableSchemaView {
    pub name: Seq<char>,
    pub columns: Seq<ColumnDefView>,
    pub primary_key: Seq<Seq<char>>,
}

/// The contents of a [`Status`].
#[verifier::ext_equal]
pub struct StatusView {
    pub code: Code,
    pub message: Seq<char>,
}

impl View for Kind {
    type V = KindView;

    open spec fn view(&self) -> KindView {
        match self {
            Kind::IsNull(b) => KindView::IsNull(*b),
            Kind::Int64Value(n) => KindView::Int64Value(*n),
            Kind::StringValue(s) => KindView::StringValue(s@),
            Kind::BytesValue(b) => KindView::BytesValue(b@),
            Kind::BoolValue(b) => KindView::BoolValue(*b),
            Kind::Float64Value(bits) => KindView::Float64Value(*bits),
        }
    }
}

impl View for Value {
    type V = Option<KindView>;

    open spec fn view(&self) -> Option<KindView> {
        match self.kind {
            Some(k) => Some(k@),
            None => None,
        }
    }
}

/// The contents of a list of values.
pub open spec fn values_view(values: Seq<Value>) -> Seq<Option<KindView>> {
    values.map_values(|v: Value| v@)
}

impl View for Row {
    type V = Seq<Option<KindView>>;

    open spec fn view(&self) -> Seq<Option<KindView>> {
        values_view(self.values@)
    }
}

impl View for ColumnDef {
    type V = ColumnDefView;

    open spec fn view(&self) -> ColumnDefView {
        ColumnDefView {
            name: self.name@,
            column_type: self.column_type,
            nullable: self.nullable,
        }
    }
}

impl View for TableSchema {
    type V = TableSchemaView;

    open spec fn view(&self) -> TableSchemaView {
        TableSchemaView {
            name: self.name@,
            columns: self.columns@.map_values(|c: ColumnDef| c@),
            primary_key: self.primary_key@.map_values(|n: String| n@),
        }
    }
}

impl View for Status {
    type V = StatusView;

    open spec fn view(&self) -> StatusView {
        StatusView { code: self.code, message: self.message@ }
    }
}

impl Status {
    pub fn invalid_argument(message: String) -> (s: Status)
        ensures
            s@ == (StatusView { code: Code::InvalidArgument, message: message@ }),
    {
        Status { code: Code::InvalidArgument, message }
    }

    pub fn not_found(message: String) -> (s: Status)
        ensures
            s@ == (StatusView { code: Code::NotFound, message: message@ }),
    {
        Status { code: Code::NotFound, message }
    }

    pub fn internal(message: String) -> (s: Status)
        ensures
            s@ == (StatusView { code: Code::Internal, message: message@ }),
    {
        Status { code: Code::Internal, message }
    }
}

} // verus!
