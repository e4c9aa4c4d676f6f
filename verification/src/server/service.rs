//! The table service.

use vstd::prelude::*;

use crate::engine::traits::{Engine, Outcome};
use crate::server::convert;
use crate::server::messages;
use crate::server::messages::{
    CreateTableRequest,
    CreateTableResponse,
    DeleteRequest,
    DeleteResponse,
    DropTableRequest,
    DropTableResponse,
    GetRequest,
    GetResponse,
    KindView,
    PutRequest,
    PutResponse,
    ScanRequest,
    ScanResponse,
    Status,
    StatusView,
};
use crate::store::sorted_map::Contents;
use crate::table::command::CommandView;
use crate::table::schema::{Row, ValueView};
use crate::table::table;
use crate::table::table::DelosTable;

verus! {

/// The command that a request to create a table asks for.
pub open spec fn create_command(schema: Option<messages::TableSchema>) -> Result<
    CommandView,
    StatusView,
> {
    match schema {
        None => Err(convert::invalid("missing schema"@)),
        Some(s) => match convert::schema_of(s@) {
            Ok(v) => Ok(CommandView::CreateTable(v)),
            Err(e) => Err(e),
        },
    }
}

/// The failure of a request that names no table.
pub open spec fn nameless() -> StatusView {
    convert::invalid("table name must not be empty"@)
}

/// The command that a request to drop a table asks for.
pub open spec fn drop_command(table: Seq<char>) -> Result<CommandView, StatusView> {
    if table.len() == 0 {
        Err(nameless())
    } else {
        Ok(CommandView::DropTable { table })
    }
}

/// The command that a request to put a row asks for.
pub open spec fn put_command(table: Seq<char>, row: Option<messages::Row>) -> Result<
    CommandView,
    StatusView,
> {
    if table.len() == 0 {
        Err(nameless())
    } else {
        match row {
            None => Err(convert::invalid("missing row"@)),
            Some(r) => Ok(CommandView::Put { table, row: convert::values_of(r@) }),
        }
    }
}

/// The command that a request to delete a row asks for.
pub open spec fn delete_command(table: Seq<char>, key: Seq<Option<KindView>>) -> Result<
    CommandView,
    StatusView,
> {
    if table.len() == 0 {
        Err(nameless())
    } else {
        Ok(CommandView::Delete { table, key: convert::values_of(key) })
    }
}

/// Whether the answer to a write is what it should be.
pub open spec fn answered<T>(r: Result<T, Status>, o: Outcome<()>) -> bool {
    match o {
        Outcome::Done(_) => r is Ok,
        Outcome::Failed(e) => r is Err && r->Err_0@ == convert::status_of(e),
    }
}

/// Whether the answer to a get is what it should be.
pub open spec fn got(
    r: Result<GetResponse, Status>,
    o: Outcome<Option<Seq<ValueView>>>,
) -> bool {
    match o {
        Outcome::Done(Some(values)) => r is Ok && r->Ok_0.found && r->Ok_0.row is Some
            && r->Ok_0.row->0@ == convert::kinds_of(values),
        Outcome::Done(None) => r is Ok && !r->Ok_0.found && r->Ok_0.row is None,
        Outcome::Failed(e) => r is Err && r->Err_0@ == convert::status_of(e),
    }
}

/// How rows stand in a message.
pub open spec fn row_messages(rows: Seq<Seq<ValueView>>) -> Seq<Seq<Option<KindView>>> {
    rows.map_values(|values: Seq<ValueView>| convert::kinds_of(values))
}

/// Whether the answer to a scan is what it should be.
pub open spec fn scanned(
    r: Result<ScanResponse, Status>,
    o: Outcome<Seq<Seq<ValueView>>>,
) -> bool {
    match o {
        Outcome::Done(rows) => r is Ok && r->Ok_0.rows@.map_values(|row: messages::Row| row@)
            == row_messages(rows),
        Outcome::Failed(e) => r is Err && r->Err_0@ == convert::status_of(e),
    }
}

/// Serves requests on a table store.
pub struct RelosTableService<E: Engine> {
    table: DelosTable<E>,
}

impl<E: Engine> RelosTableService<E> {
    /// The table store.
    pub closed spec fn table_of(&self) -> DelosTable<E> {
        self.table
    }

    /// What serving a write request does and answers: one that is not valid is
    /// answered at once and changes nothing, and another's command is executed.
    pub open spec fn served<T>(
        before: Self,
        after: Self,
        command: Result<CommandView, StatusView>,
        r: Result<T, Status>,
    ) -> bool {
        match command {
            Err(s) => r is Err && r->Err_0@ == s && after == before,
            Ok(c) => {
                let m = before.table_of().model();
                &&& after.table_of().inv()
                &&& before.table_of().steady() ==> after.table_of().steady()
                &&& before.table_of().coherent() && r is Ok ==> after.table_of().coherent()
                &&& before.table_of().steady() || before.table_of().coherent() && r is Ok ==> {
                    &&& after.table_of().model() == DelosTable::<E>::execute(m, c).0
                    &&& answered(
                        r,
                        DelosTable::<E>::execute(m, c).1,
                    )
                    &&& forall|n: nat|
                        before.table_of().has_room(n + 1)
                            ==> #[trigger] after.table_of().has_room(n)
                }
            },
        }
    }

    pub fn new(table: DelosTable<E>) -> (service: Self)
        ensures
            service.table_of() == table,
    {
        RelosTableService { table }
    }

    /// The table store.
    pub fn table(&self) -> (table: &DelosTable<E>)
        ensures
            *table == self.table_of(),
    {
        &self.table
    }

    pub fn create_table(&mut self, req: CreateTableRequest) -> (r: Result<
        CreateTableResponse,
        Status,
    >)
        requires
            old(self).table_of().inv(),
            old(self).table_of().has_room(1),
        ensures
            Self::served(*old(self), *final(self), create_command(req.schema), r),
    {
        let schema = match &req.schema {
            Some(s) => s,
            None => return Err(Status::invalid_argument("missing schema".to_owned())),
        };
        let relos_schema = match convert::proto_schema_to_relos(schema) {
            Ok(s) => s,
            Err(e) => return Err(e),
        };
        match self.table.create_table(relos_schema) {
            Ok(_) => Ok(CreateTableResponse {  }),
            Err(e) => Err(convert::relos_err_to_status(e)),
        }
    }

    pub fn drop_table(&mut self, req: DropTableRequest) -> (r: Result<DropTableResponse, Status>)
        requires
            old(self).table_of().inv(),
            old(self).table_of().has_room(1),
        ensures
            Self::served(*old(self), *final(self), drop_command(req.table@), r),
    {
        if req.table.as_str().is_empty() {
            return Err(Status::invalid_argument("table name must not be empty".to_owned()));
        }
        match self.table.drop_table(req.table.as_str()) {
            Ok(_) => Ok(DropTableResponse {  }),
            Err(e) => Err(convert::relos_err_to_status(e)),
        }
    }

    pub fn put(&mut self, req: PutRequest) -> (r: Result<PutResponse, Status>)
        requires
            old(self).table_of().inv(),
            old(self).table_of().has_room(1),
        ensures
            Self::served(*old(self), *final(self), put_command(req.table@, req.row), r),
    {
        if req.table.as_str().is_empty() {
            return Err(Status::invalid_argument("table name must not be empty".to_owned()));
        }
        let row = match &req.row {
            Some(row) => row,
            None => return Err(Status::invalid_argument("missing row".to_owned())),
        };
        let relos_row = convert::proto_row_to_relos(row);
        match self.table.put(req.table.as_str(), relos_row) {
            Ok(_) => Ok(PutResponse {  }),
            Err(e) => Err(convert::relos_err_to_status(e)),
        }
    }

    pub fn delete(&mut self, req: DeleteRequest) -> (r: Result<DeleteResponse, Status>)
        requires
            old(self).table_of().inv(),
            old(self).table_of().has_room(1),
        ensures
            Self::served(
                *old(self),
                *final(self),
                delete_command(req.table@, messages::values_view(req.key@)),
                r,
            ),
    {
        if req.table.as_str().is_empty() {
            return Err(Status::invalid_argument("table name must not be empty".to_owned()));
        }
        let key = convert::proto_values_to_relos(&req.key);
        match self.table.delete(req.table.as_str(), key) {
            Ok(_) => Ok(DeleteResponse {  }),
            Err(e) => Err(convert::relos_err_to_status(e)),
        }
    }

    pub fn get(&mut self, req: GetRequest) -> (r: Result<GetResponse, Status>)
        requires
            old(self).table_of().inv(),
        ensures
            final(self).table_of().inv(),
            req.table@.len() == 0 ==> r is Err && r->Err_0@ == nameless() && *final(self) == *old(
                self,
            ),
            r is Ok ==> ({
                let key = convert::values_of(messages::values_view(req.key@));
                let row = table::row_in(
                    E::contents_of(final(self).table_of().model()),
                    req.table@,
                    key,
                );
                row is Ok && got(r, Outcome::Done(row->Ok_0))
            }),
            old(self).table_of().steady() ==> final(self).table_of().steady(),
            old(self).table_of().coherent() && r is Ok ==> final(self).table_of().coherent(),
            req.table@.len() > 0 && (old(self).table_of().steady() || old(self).table_of().coherent()
                && r is Ok) ==> {
                let key = convert::values_of(messages::values_view(req.key@));
                let read = |c: Contents| table::row_in(c, req.table@, key);
                let (next, o) = table::after_sync::<E, Option<Seq<ValueView>>>(
                    old(self).table_of().model(),
                    read,
                );
                &&& final(self).table_of().model() == next
                &&& got(r, o)
                &&& forall|n: nat|
                    old(self).table_of().has_room(n) ==> #[trigger] final(self).table_of().has_room(n)
            },
    {
        if req.table.as_str().is_empty() {
            return Err(Status::invalid_argument("table name must not be empty".to_owned()));
        }
        let key = convert::proto_values_to_relos(&req.key);
        match self.table.get(req.table.as_str(), key.as_slice()) {
            Ok(Some(row)) => Ok(
                GetResponse { found: true, row: Some(convert::relos_row_to_proto(&row)) },
            ),
            Ok(None) => Ok(GetResponse { found: false, row: None }),
            Err(e) => Err(convert::relos_err_to_status(e)),
        }
    }

    pub fn scan(&mut self, req: ScanRequest) -> (r: Result<ScanResponse, Status>)
        requires
            old(self).table_of().inv(),
        ensures
            final(self).table_of().inv(),
            req.table@.len() == 0 ==> r is Err && r->Err_0@ == nameless() && *final(self) == *old(
                self,
            ),
            r is Ok ==> ({
                let rows = table::rows_in(
                    E::contents_of(final(self).table_of().model()),
                    req.table@,
                );
                rows is Ok && scanned(r, Outcome::Done(rows->Ok_0))
            }),
            old(self).table_of().steady() ==> final(self).table_of().steady(),
            old(self).table_of().coherent() && r is Ok ==> final(self).table_of().coherent(),
            req.table@.len() > 0 && (old(self).table_of().steady() || old(self).table_of().coherent()
                && r is Ok) ==> {
                let read = |c: Contents| table::rows_in(c, req.table@);
                let (next, o) = table::after_sync::<E, Seq<Seq<ValueView>>>(
                    old(self).table_of().model(),
                    read,
                );
                &&& final(self).table_of().model() == next
                &&& scanned(r, o)
                &&& forall|n: nat|
                    old(self).table_of().has_room(n) ==> #[trigger] final(self).table_of().has_room(n)
            },
    {
        if req.table.as_str().is_empty() {
            return Err(Status::invalid_argument("table name must not be empty".to_owned()));
        }
        match self.table.scan(req.table.as_str()) {
            Ok(rows) => Ok(ScanResponse { rows: rows_to_messages(&rows) }),
            Err(e) => Err(convert::relos_err_to_status(e)),
        }
    }
}

/// Converts a list of rows.
fn rows_to_messages(rows: &Vec<Row>) -> (r: Vec<messages::Row>)
    ensures
        r@.map_values(|row: messages::Row| row@) == row_messages(table::rows_view(rows@)),
{
    let mut r: Vec<messages::Row> = Vec::new();
    let mut i: usize = 0;
    while i < rows.len()
        invariant
            i <= rows@.len(),
            r@.len() == i,
            forall|j: int| 0 <= j < i ==> (#[trigger] r@[j])@ == convert::kinds_of(rows@[j]@),
        decreases rows.len() - i,
    {
        r.push(convert::relos_row_to_proto(&rows[i]));
        i = i + 1;
    }
    assert(r@.map_values(|row: messages::Row| row@) == row_messages(table::rows_view(rows@)));
    r
}

} // verus!
