//! The commands that change tables, and the responses to them.

use vstd::prelude::*;

use crate::base::codec;
use crate::base::error::{ErrorView, RelosError};
use crate::table::schema;
use crate::table::schema::{Row, SchemaView, TableSchema, Value, ValueView};

verus! {

/// Commands that get serialized into Entry payloads.
#[derive(Debug)]
pub enum TableCommand {
    CreateTable(TableSchema),
    DropTable { table: String },
    Put { table: String, row: Row },
    Delete { table: String, key: Vec<Value> },
}

/// Response from applying a command.
#[derive(Debug)]
pub enum TableResponse {
    Success,
    Error(String),
}

/// The contents of a [`TableCommand`].
#[verifier::ext_equal]
pub enum CommandView {
    CreateTable(SchemaView),
    DropTable { table: Seq<char> },
    Put { table: Seq<char>, row: Seq<ValueView> },
    Delete { table: Seq<char>, key: Seq<ValueView> },
}

/// The contents of a [`TableResponse`].
#[verifier::ext_equal]
pub enum ResponseView {
    Done,
    Error(Seq<char>),
}

impl View for TableCommand {
    type V = CommandView;

    open spec fn view(&self) -> CommandView {
        match self {
            TableCommand::CreateTable(s) => CommandView::CreateTable(s@),
            TableCommand::DropTable { table } => CommandView::DropTable { table: table@ },
            TableCommand::Put { table, row } => CommandView::Put { table: table@, row: row@ },
            TableCommand::Delete { table, key } => CommandView::Delete {
                table: table@,
                key: schema::values_view(key@),
            },
        }
    }
}

impl View for TableResponse {
    type V = ResponseView;

    open spec fn view(&self) -> ResponseView {
        match self {
            TableResponse::Success => ResponseView::Done,
            TableResponse::Error(m) => ResponseView::Error(m@),
        }
    }
}

impl Clone for TableCommand {
    fn clone(&self) -> (copy: Self)
        ensures
            copy@ == self@,
    {
        match self {
            TableCommand::CreateTable(s) => TableCommand::CreateTable(s.clone()),
            TableCommand::DropTable { table } => TableCommand::DropTable { table: table.clone() },
            TableCommand::Put { table, row } => TableCommand::Put {
                table: table.clone(),
                row: row.clone(),
            },
            TableCommand::Delete { table, key } => TableCommand::Delete {
                table: table.clone(),
                key: schema::copy_values(key),
            },
        }
    }
}

impl Clone for TableResponse {
    fn clone(&self) -> (copy: Self)
        ensures
            copy@ == self@,
    {
        match self {
            TableResponse::Success => TableResponse::Success,
            TableResponse::Error(m) => TableResponse::Error(m.clone()),
        }
    }
}

impl CommandView {
    /// The bytes of the command.
    pub open spec fn bytes(self) -> Seq<u8> {
        match self {
            CommandView::CreateTable(s) => codec::u32_bytes(0) + schema::schema_bytes(s),
            CommandView::DropTable { table } => codec::u32_bytes(1) + codec::str_bytes(table),
            CommandView::Put { table, row } => codec::u32_bytes(2) + codec::str_bytes(table)
                + schema::row_bytes(row),
            CommandView::Delete { table, key } => codec::u32_bytes(3) + codec::str_bytes(table)
                + schema::row_bytes(key),
        }
    }

    /// The command that these bytes stand for.
    pub open spec fn parse(b: Seq<u8>) -> Result<CommandView, Seq<char>> {
        match codec::parse_u32(b) {
            Err(e) => Err(e),
            Ok((tag, rest)) => if tag == 0 {
                match schema::parse_schema(rest) {
                    Err(e) => Err(e),
                    Ok((s, _)) => Ok(CommandView::CreateTable(s)),
                }
            } else if tag == 1 {
                match codec::parse_str(rest) {
                    Err(e) => Err(e),
                    Ok((table, _)) => Ok(CommandView::DropTable { table }),
                }
            } else if tag == 2 || tag == 3 {
                match codec::parse_str(rest) {
                    Err(e) => Err(e),
                    Ok((table, rest)) => match schema::parse_row(rest) {
                        Err(e) => Err(e),
                        Ok((values, _)) => if tag == 2 {
                            Ok(CommandView::Put { table, row: values })
                        } else {
                            Ok(CommandView::Delete { table, key: values })
                        },
                    },
                }
            } else {
                Err(codec::tag_failure(tag, 4))
            },
        }
    }
}

impl ResponseView {
    /// The bytes of the response.
    pub open spec fn bytes(self) -> Seq<u8> {
        match self {
            ResponseView::Done => codec::u32_bytes(0),
            ResponseView::Error(m) => codec::u32_bytes(1) + codec::str_bytes(m),
        }
    }

    /// The response that these bytes stand for.
    pub open spec fn parse(b: Seq<u8>) -> Result<ResponseView, Seq<char>> {
        match codec::parse_u32(b) {
            Err(e) => Err(e),
            Ok((tag, rest)) => if tag == 0 {
                Ok(ResponseView::Done)
            } else if tag == 1 {
                match codec::parse_str(rest) {
                    Err(e) => Err(e),
                    Ok((m, _)) => Ok(ResponseView::Error(m)),
                }
            } else {
                Err(codec::tag_failure(tag, 2))
            },
        }
    }
}

impl TableCommand {
    /// The bytes of the command.
    pub fn to_bytes(&self) -> (r: Result<Vec<u8>, RelosError>)
        ensures
            r is Ok,
            r->Ok_0@ == self@.bytes(),
    {
        let mut out: Vec<u8> = Vec::new();
        match self {
            TableCommand::CreateTable(s) => {
                codec::put_u32(&mut out, 0);
                schema::put_schema(&mut out, s);
            },
            TableCommand::DropTable { table } => {
                codec::put_u32(&mut out, 1);
                codec::put_str(&mut out, table.as_str());
            },
            TableCommand::Put { table, row } => {
                codec::put_u32(&mut out, 2);
                codec::put_str(&mut out, table.as_str());
                schema::put_values(&mut out, &row.values);
            },
            TableCommand::Delete { table, key } => {
                codec::put_u32(&mut out, 3);
                codec::put_str(&mut out, table.as_str());
                schema::put_values(&mut out, key);
            },
        }
        assert(out@ == self@.bytes());
        Ok(out)
    }

    fn parse_from(bytes: &[u8]) -> (r: Result<Self, String>)
        ensures
            match (r, CommandView::parse(bytes@)) {
                (Ok(c), Ok(v)) => c@ == v,
                (Err(e), Err(m)) => e@ == m,
                _ => false,
            },
    {
        let (tag, rest) = match codec::take_u32(bytes) {
            Err(e) => return Err(e),
            Ok(p) => p,
        };
        if tag == 0 {
            match schema::take_schema(rest) {
                Err(e) => Err(e),
                Ok((s, _)) => Ok(TableCommand::CreateTable(s)),
            }
        } else if tag == 1 {
            match codec::take_str(rest) {
                Err(e) => Err(e),
                Ok((table, _)) => Ok(TableCommand::DropTable { table }),
            }
        } else if tag == 2 || tag == 3 {
            let (table, rest) = match codec::take_str(rest) {
                Err(e) => return Err(e),
                Ok(p) => p,
            };
            match schema::take_values(rest) {
                Err(e) => Err(e),
                Ok((values, _)) => if tag == 2 {
                    Ok(TableCommand::Put { table, row: Row { values } })
                } else {
                    Ok(TableCommand::Delete { table, key: values })
                },
            }
        } else {
            Err(codec::tag_message(tag, 4))
        }
    }

    /// The command that these bytes stand for.
    pub fn from_bytes(bytes: &[u8]) -> (r: Result<Self, RelosError>)
        ensures
            match (r, CommandView::parse(bytes@)) {
                (Ok(c), Ok(v)) => c@ == v,
                (Err(e), Err(m)) => e@ == ErrorView::Serialization(m),
                _ => false,
            },
    {
        match Self::parse_from(bytes) {
            Ok(c) => Ok(c),
            Err(e) => Err(RelosError::Serialization(e)),
        }
    }
}

impl TableResponse {
    /// The bytes of the response.
    pub fn to_bytes(&self) -> (r: Result<Vec<u8>, RelosError>)
        ensures
            r is Ok,
            r->Ok_0@ == self@.bytes(),
    {
        let mut out: Vec<u8> = Vec::new();
        match self {
            TableResponse::Success => {
                codec::put_u32(&mut out, 0);
            },
            TableResponse::Error(m) => {
                codec::put_u32(&mut out, 1);
                codec::put_str(&mut out, m.as_str());
            },
        }
        assert(out@ == self@.bytes());
        Ok(out)
    }

    fn parse_from(bytes: &[u8]) -> (r: Result<Self, String>)
        ensures
            match (r, ResponseView::parse(bytes@)) {
                (Ok(c), Ok(v)) => c@ == v,
                (Err(e), Err(m)) => e@ == m,
                _ => false,
            },
    {
        let (tag, rest) = match codec::take_u32(bytes) {
            Err(e) => return Err(e),
            Ok(p) => p,
        };
        if tag == 0 {
            Ok(TableResponse::Success)
        } else if tag == 1 {
            match codec::take_str(rest) {
                Err(e) => Err(e),
                Ok((m, _)) => Ok(TableResponse::Error(m)),
            }
        } else {
            Err(codec::tag_message(tag, 2))
        }
    }

    /// The response that these bytes stand for.
    pub fn from_bytes(bytes: &[u8]) -> (r: Result<Self, RelosError>)
        ensures
            match (r, ResponseView::parse(bytes@)) {
                (Ok(c), Ok(v)) => c@ == v,
                (Err(e), Err(m)) => e@ == ErrorView::Serialization(m),
                _ => false,
            },
    {
        match Self::parse_from(bytes) {
            Ok(c) => Ok(c),
            Err(e) => Err(RelosError::Serialization(e)),
        }
    }
}

/// A command comes back from its bytes.
pub proof fn command_round_trip(c: CommandView)
    requires
        c.bytes().len() <= u64::MAX,
    ensures
        CommandView::parse(c.bytes()) == Result::<CommandView, Seq<char>>::Ok(c),
{
    let none = Seq::<u8>::empty();
    match c {
        CommandView::CreateTable(s) => {
            codec::u32_round_trip(0, schema::schema_bytes(s));
            schema::schema_round_trip(s, none);
            assert(schema::schema_bytes(s) + none == schema::schema_bytes(s));
        },
        CommandView::DropTable { table } => {
            codec::u32_round_trip(1, codec::str_bytes(table));
            codec::str_round_trip(table, none);
            assert(codec::str_bytes(table) + none == codec::str_bytes(table));
        },
        CommandView::Put { table, row } => {
            let more = codec::str_bytes(table) + schema::row_bytes(row);
            assert(c.bytes() == codec::u32_bytes(2) + more);
            codec::u32_round_trip(2, more);
            codec::str_round_trip(table, schema::row_bytes(row));
            schema::row_round_trip(row, none);
            assert(schema::row_bytes(row) + none == schema::row_bytes(row));
        },
        CommandView::Delete { table, key } => {
            let more = codec::str_bytes(table) + schema::row_bytes(key);
            assert(c.bytes() == codec::u32_bytes(3) + more);
            codec::u32_round_trip(3, more);
            codec::str_round_trip(table, schema::row_bytes(key));
            schema::row_round_trip(key, none);
            assert(schema::row_bytes(key) + none == schema::row_bytes(key));
        },
    }
}

/// A response comes back from its bytes.
pub proof fn response_round_trip(r: ResponseView)
    requires
        r.bytes().len() <= u64::MAX,
    ensures
        ResponseView::parse(r.bytes()) == Result::<ResponseView, Seq<char>>::Ok(r),
{
    let none = Seq::<u8>::empty();
    match r {
        ResponseView::Done => {
            codec::u32_round_trip(0, none);
            assert(codec::u32_bytes(0) + none == codec::u32_bytes(0));
        },
        ResponseView::Error(m) => {
            codec::u32_round_trip(1, codec::str_bytes(m));
            codec::str_round_trip(m, none);
            assert(codec::str_bytes(m) + none == codec::str_bytes(m));
        },
    }
}

} // verus!
