//! How values, schemas and commands lie in bytes.

use vstd::prelude::*;

use crate::base::codec;
use crate::base::codec::Parsed;
use crate::table::command::{CommandView, ResponseView};
use crate::table::schema;
use crate::table::schema::{ColumnType, ColumnView, SchemaView, ValueView};

verus! {

/// The bytes of an alternative: its number in four, and what it holds behind it.
pub open spec fn tagged(tag: u32, held: Seq<u8>) -> Seq<u8> {
    vstd::bytes::spec_u32_to_le_bytes(tag) + held
}

/// The number of an alternative that the bytes start with.
pub open spec fn tag_of(b: Seq<u8>) -> u32 {
    vstd::bytes::spec_u32_from_le_bytes(b.take(4))
}

/// A value lies behind the number of its kind. Null holds nothing.
pub proof fn value_is_laid_out(v: ValueView)
    ensures
        match v {
            ValueView::Null => schema::value_bytes(v) == tagged(0, Seq::empty()),
            ValueView::Int64(n) => schema::value_bytes(v) == tagged(1, codec::i64_bytes(n)),
            ValueView::Utf8(s) => schema::value_bytes(v) == tagged(2, codec::str_bytes(s)),
            ValueView::Bytes(b) => schema::value_bytes(v) == tagged(3, codec::blob_bytes(b)),
            ValueView::Bool(b) => schema::value_bytes(v) == tagged(4, codec::bool_bytes(b)),
            ValueView::Float64(bits) => schema::value_bytes(v) == tagged(
                5,
                codec::u64_bytes(bits),
            ),
        },
{
    let tag = vstd::bytes::spec_u32_to_le_bytes(0);
    assert(tag + Seq::<u8>::empty() == tag);
}

/// A value is read by the number of its kind. A number that no kind has is reported, and
/// so is what cannot be read behind it.
pub proof fn value_is_read_by_its_kind(b: Seq<u8>)
    ensures
        b.len() < 4 ==> schema::parse_value(b) is Err,
        b.len() >= 4 ==> {
            let r = schema::parse_value(b);
            let rest = b.skip(4);
            &&& tag_of(b) == 0 ==> r == Parsed::<ValueView>::Ok((ValueView::Null, rest))
            &&& tag_of(b) == 1 ==> match codec::parse_i64(rest) {
                Ok((n, left)) => r == Parsed::<ValueView>::Ok((ValueView::Int64(n), left)),
                Err(e) => r == Parsed::<ValueView>::Err(e),
            }
            &&& tag_of(b) == 2 ==> match codec::parse_str(rest) {
                Ok((s, left)) => r == Parsed::<ValueView>::Ok((ValueView::Utf8(s), left)),
                Err(e) => r == Parsed::<ValueView>::Err(e),
            }
            &&& tag_of(b) == 3 ==> match codec::parse_blob(rest) {
                Ok((x, left)) => r == Parsed::<ValueView>::Ok((ValueView::Bytes(x), left)),
                Err(e) => r == Parsed::<ValueView>::Err(e),
            }
            &&& tag_of(b) == 4 ==> match codec::parse_bool(rest) {
                Ok((x, left)) => r == Parsed::<ValueView>::Ok((ValueView::Bool(x), left)),
                Err(e) => r == Parsed::<ValueView>::Err(e),
            }
            &&& tag_of(b) == 5 ==> match codec::parse_u64(rest) {
                Ok((x, left)) => r == Parsed::<ValueView>::Ok((ValueView::Float64(x), left)),
                Err(e) => r == Parsed::<ValueView>::Err(e),
            }
            &&& tag_of(b) > 5 ==> r == Parsed::<ValueView>::Err(codec::tag_failure(tag_of(b), 6))
        },
{
}

/// A row is a list of its values.
pub proof fn row_is_laid_out(values: Seq<ValueView>, b: Seq<u8>)
    ensures
        schema::row_bytes(values) == codec::list_bytes(
            values,
            |v: ValueView| schema::value_bytes(v),
        ),
        schema::parse_row(b) == codec::parse_list(b, |x: Seq<u8>| schema::parse_value(x)),
{
}

/// A column is its name, the number of its type and whether it may be null. The types
/// have the numbers from 0 to 4.
pub proof fn column_is_laid_out(c: ColumnView, b: Seq<u8>)
    ensures
        ({
            let tag: u32 = match c.col_type {
                ColumnType::Int64 => 0,
                ColumnType::Utf8 => 1,
                ColumnType::Bytes => 2,
                ColumnType::Bool => 3,
                ColumnType::Float64 => 4,
            };
            schema::column_bytes(c) == codec::str_bytes(c.name) + tagged(
                tag,
                codec::bool_bytes(c.nullable),
            )
        }),
        b.len() >= 4 && tag_of(b) > 4 ==> schema::parse_type(b) == Parsed::<ColumnType>::Err(
            codec::tag_failure(tag_of(b), 5),
        ),
        b.len() < 4 ==> schema::parse_type(b) is Err,
{
    let tag = codec::u32_bytes(schema::type_tag(c.col_type));
    assert(codec::str_bytes(c.name) + tag + codec::bool_bytes(c.nullable) == codec::str_bytes(
        c.name,
    ) + (tag + codec::bool_bytes(c.nullable)));
}

/// A column is read as a name, a type and a truth value, one behind the other.
pub proof fn column_is_read_in_order(b: Seq<u8>)
    ensures
        ({
            let name = codec::parse_str(b);
            let kind = schema::parse_type(name->Ok_0.1);
            let null = codec::parse_bool(kind->Ok_0.1);
            let r = schema::parse_column(b);
            &&& name is Err ==> r == Parsed::<ColumnView>::Err(name->Err_0)
            &&& name is Ok && kind is Err ==> r == Parsed::<ColumnView>::Err(kind->Err_0)
            &&& name is Ok && kind is Ok && null is Err ==> r == Parsed::<ColumnView>::Err(
                null->Err_0,
            )
            &&& name is Ok && kind is Ok && null is Ok ==> r == Parsed::<ColumnView>::Ok(
                (
                    ColumnView {
                        name: name->Ok_0.0,
                        col_type: kind->Ok_0.0,
                        nullable: null->Ok_0.0,
                    },
                    null->Ok_0.1,
                ),
            )
        }),
{
}

/// A schema is the table's name, the list of its columns and the list of the names of
/// its key columns.
pub proof fn schema_is_laid_out(s: SchemaView, b: Seq<u8>)
    ensures
        schema::schema_bytes(s) == codec::str_bytes(s.name) + codec::list_bytes(
            s.columns,
            |c: ColumnView| schema::column_bytes(c),
        ) + codec::list_bytes(s.primary_key, |n: Seq<char>| codec::str_bytes(n)),
        ({
            let name = codec::parse_str(b);
            let columns = codec::parse_list(
                name->Ok_0.1,
                |x: Seq<u8>| schema::parse_column(x),
            );
            let keys = codec::parse_list(columns->Ok_0.1, |x: Seq<u8>| codec::parse_str(x));
            let r = schema::parse_schema(b);
            &&& name is Err ==> r == Parsed::<SchemaView>::Err(name->Err_0)
            &&& name is Ok && columns is Err ==> r == Parsed::<SchemaView>::Err(columns->Err_0)
            &&& name is Ok && columns is Ok && keys is Err ==> r == Parsed::<SchemaView>::Err(
                keys->Err_0,
            )
            &&& name is Ok && columns is Ok && keys is Ok ==> r == Parsed::<SchemaView>::Ok(
                (
                    SchemaView {
                        name: name->Ok_0.0,
                        columns: columns->Ok_0.0,
                        primary_key: keys->Ok_0.0,
                    },
                    keys->Ok_0.1,
                ),
            )
        }),
{
}

/// A command lies behind its number: the schema of a new table, or a table's name and,
/// for a put or a delete, the values of the row or of the key.
pub proof fn command_is_laid_out(c: CommandView)
    ensures
        match c {
            CommandView::CreateTable(s) => c.bytes() == tagged(0, schema::schema_bytes(s)),
            CommandView::DropTable { table } => c.bytes() == tagged(1, codec::str_bytes(table)),
            CommandView::Put { table, row } => c.bytes() == tagged(
                2,
                codec::str_bytes(table) + schema::row_bytes(row),
            ),
            CommandView::Delete { table, key } => c.bytes() == tagged(
                3,
                codec::str_bytes(table) + schema::row_bytes(key),
            ),
        },
{
    match c {
        CommandView::Put { table, row } => {
            let a = codec::u32_bytes(2);
            assert(a + codec::str_bytes(table) + schema::row_bytes(row) == a + (codec::str_bytes(
                table,
            ) + schema::row_bytes(row)));
        },
        CommandView::Delete { table, key } => {
            let a = codec::u32_bytes(3);
            assert(a + codec::str_bytes(table) + schema::row_bytes(key) == a + (codec::str_bytes(
                table,
            ) + schema::row_bytes(key)));
        },
        _ => {},
    }
}

/// A command is read by its number. A number that no command has is reported, and so is
/// what cannot be read behind it.
pub proof fn command_is_read_by_its_number(b: Seq<u8>)
    ensures
        b.len() < 4 ==> CommandView::parse(b) is Err,
        b.len() >= 4 ==> {
            let r = CommandView::parse(b);
            let rest = b.skip(4);
            let name = codec::parse_str(rest);
            let values = schema::parse_row(name->Ok_0.1);
            &&& tag_of(b) == 0 ==> match schema::parse_schema(rest) {
                Ok((s, _)) => r == Result::<CommandView, Seq<char>>::Ok(
                    CommandView::CreateTable(s),
                ),
                Err(e) => r == Result::<CommandView, Seq<char>>::Err(e),
            }
            &&& 1 <= tag_of(b) <= 3 && name is Err ==> r == Result::<CommandView, Seq<char>>::Err(
                name->Err_0,
            )
            &&& tag_of(b) == 1 && name is Ok ==> r == Result::<CommandView, Seq<char>>::Ok(
                CommandView::DropTable { table: name->Ok_0.0 },
            )
            &&& 2 <= tag_of(b) <= 3 && name is Ok && values is Err ==> r == Result::<
                CommandView,
                Seq<char>,
            >::Err(values->Err_0)
            &&& tag_of(b) == 2 && name is Ok && values is Ok ==> r == Result::<
                CommandView,
                Seq<char>,
            >::Ok(CommandView::Put { table: name->Ok_0.0, row: values->Ok_0.0 })
            &&& tag_of(b) == 3 && name is Ok && values is Ok ==> r == Result::<
                CommandView,
                Seq<char>,
            >::Ok(CommandView::Delete { table: name->Ok_0.0, key: values->Ok_0.0 })
            &&& tag_of(b) > 3 ==> r == Result::<CommandView, Seq<char>>::Err(
                codec::tag_failure(tag_of(b), 4),
            )
        },
{
}

/// A response lies behind its number: success holds nothing, and a refusal its reason.
pub proof fn response_is_laid_out(reason: Seq<char>, b: Seq<u8>)
    ensures
        ResponseView::Done.bytes() == tagged(0, Seq::empty()),
        ResponseView::Error(reason).bytes() == tagged(1, codec::str_bytes(reason)),
        b.len() < 4 ==> ResponseView::parse(b) is Err,
        b.len() >= 4 && tag_of(b) == 0 ==> ResponseView::parse(b) == Result::<
            ResponseView,
            Seq<char>,
        >::Ok(ResponseView::Done),
        b.len() >= 4 && tag_of(b) == 1 ==> match codec::parse_str(b.skip(4)) {
            Ok((m, _)) => ResponseView::parse(b) == Result::<ResponseView, Seq<char>>::Ok(
                ResponseView::Error(m),
            ),
            Err(e) => ResponseView::parse(b) == Result::<ResponseView, Seq<char>>::Err(e),
        },
        b.len() >= 4 && tag_of(b) > 1 ==> ResponseView::parse(b) == Result::<
            ResponseView,
            Seq<char>,
        >::Err(codec::tag_failure(tag_of(b), 2)),
{
    let tag = vstd::bytes::spec_u32_to_le_bytes(0);
    assert(tag + Seq::<u8>::empty() == tag);
}

} // verus!
